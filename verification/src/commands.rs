//! The top-level command schema of the shell, the decisions of its main
//! loop, and the help rendering.

use vstd::prelude::*;
use vstd::string::StrSliceExecFns;
use vstd::string::StringExecFns;

use crate::change;
use crate::change::{change_schema, plain_schema};
use crate::text::str_eq;
use crate::tree::{lemma_children_views, node_view, CommandNode, NodeView};

verus! {

/// The top-level vocabulary: `change` and its family, `remote`, `reset`,
/// `help` (alias `?`), `exit` and `quit`.
pub open spec fn root_schema() -> NodeView {
    NodeView {
        name: "gerrit"@,
        aliases: Seq::empty(),
        visible_aliases: Seq::empty(),
        about: Seq::empty(),
        children: seq![
            change_schema(),
            plain_schema("remote"@, "Remote commands"@),
            plain_schema("reset"@, "Reset everything temporarily"@),
            NodeView { aliases: seq!["?"@], ..plain_schema("help"@, "Print command help"@) },
            plain_schema("exit"@, "Exit from current mode"@),
            plain_schema("quit"@, "Quit the program"@),
        ],
        arg: None,
    }
}

/// Builds the top-level command schema.
pub fn command() -> (c: CommandNode)
    ensures
        node_view(c) == root_schema(),
{
    let change_cmd = change::command();
    let remote = CommandNode::new("remote").about("Remote commands");
    let reset = CommandNode::new("reset").about("Reset everything temporarily");
    let help = CommandNode::new("help").alias("?").about("Print command help");
    let exit = CommandNode::new("exit").about("Exit from current mode");
    let quit = CommandNode::new("quit").about("Quit the program");
    proof {
        assert(node_view(remote) =~= plain_schema("remote"@, "Remote commands"@));
        assert(node_view(reset) =~= plain_schema("reset"@, "Reset everything temporarily"@));
        assert(node_view(help) =~= (NodeView {
            aliases: seq!["?"@],
            ..plain_schema("help"@, "Print command help"@)
        }));
        assert(node_view(exit) =~= plain_schema("exit"@, "Exit from current mode"@));
        assert(node_view(quit) =~= plain_schema("quit"@, "Quit the program"@));
    }
    let c = CommandNode::new("gerrit").subcommand(change_cmd).subcommand(remote).subcommand(
        reset,
    ).subcommand(help).subcommand(exit).subcommand(quit);
    proof {
        assert(node_view(c).children.len() == 6);
        assert(node_view(c).children[0] == root_schema().children[0]);
        assert(node_view(c).children[1] == root_schema().children[1]);
        assert(node_view(c).children[2] == root_schema().children[2]);
        assert(node_view(c).children[3] == root_schema().children[3]);
        assert(node_view(c).children[4] == root_schema().children[4]);
        assert(node_view(c).children[5] == root_schema().children[5]);
        assert(node_view(c).children =~= root_schema().children);
        assert(node_view(c) =~= root_schema());
    }
    c
}

/// What the main loop does with one resolved line.
pub enum ShellDecision {
    /// Nothing was entered: prompt again.
    Idle,
    /// Leave the shell for good.
    Quit,
    /// Leave the current command mode, back to the top level.
    LeaveMode,
    /// Dispatch these tokens: the mode's fixed tokens followed by the new
    /// ones.
    Run(Vec<String>),
}

/// Decides what one resolved line means at the top of the loop: nothing,
/// quitting (`quit` anywhere, or `exit` outside any mode), leaving the
/// current mode (`exit` inside one), or running the joined token list.
pub fn loop_decision(fixed_args: &Vec<String>, new_args: &Vec<String>) -> (d: ShellDecision)
    ensures
        ({
            let f = fixed_args.deep_view();
            let a = new_args.deep_view();
            match d {
                ShellDecision::Idle => a.len() == 0,
                ShellDecision::Quit => a.len() > 0 && (a[0] == "quit"@ || (a[0] == "exit"@
                    && f.len() == 0)),
                ShellDecision::LeaveMode => a.len() > 0 && a[0] == "exit"@ && f.len() > 0,
                ShellDecision::Run(all) => a.len() > 0 && a[0] != "quit"@ && a[0] != "exit"@
                    && all.deep_view() == f + a,
            }
        }),
{
    let ghost f = fixed_args.deep_view();
    let ghost a = new_args.deep_view();
    proof {
        assert(f.len() == fixed_args@.len());
        assert(a.len() == new_args@.len());
    }
    if new_args.len() == 0 {
        return ShellDecision::Idle;
    }
    proof {
        assert(a[0] == new_args@[0]@);
    }
    let cmd = new_args[0].as_str();
    if str_eq(cmd, "quit") {
        ShellDecision::Quit
    } else if str_eq(cmd, "exit") {
        if fixed_args.len() == 0 {
            ShellDecision::Quit
        } else {
            ShellDecision::LeaveMode
        }
    } else {
        let mut all: Vec<String> = Vec::new();
        proof {
            assert(all.deep_view() =~= Seq::<Seq<char>>::empty());
            assert(Seq::<Seq<char>>::empty() + f =~= f);
        }
        crate::tree::push_all(&mut all, fixed_args);
        crate::tree::push_all(&mut all, new_args);
        proof {
            assert(all.deep_view() =~= f + a);
        }
        ShellDecision::Run(all)
    }
}

/// What dispatching one token list decides, before any remote call.
pub enum SubcommandDecision {
    /// Nothing to do.
    NoOp,
    /// Show the remote address.
    Remote,
    /// Hand the remaining tokens to the `change` family.
    Change(Vec<String>),
    /// Print the top-level help text.
    Help,
    /// The first token names no command handled here.
    Unknown,
}

/// Decides which handler one resolved token list names.
pub fn run_subcommand(args: &Vec<String>) -> (d: SubcommandDecision)
    ensures
        ({
            let a = args.deep_view();
            match d {
                SubcommandDecision::NoOp => a.len() == 0,
                SubcommandDecision::Remote => a.len() > 0 && a[0] == "remote"@,
                SubcommandDecision::Change(rest) => a.len() > 0 && a[0] == "change"@
                    && rest.deep_view() == a.skip(1),
                SubcommandDecision::Help => a.len() > 0 && (a[0] == "help"@ || a[0] == "?"@),
                SubcommandDecision::Unknown => a.len() > 0 && a[0] != "remote"@ && a[0]
                    != "change"@ && a[0] != "help"@ && a[0] != "?"@,
            }
        }),
{
    let ghost a = args.deep_view();
    proof {
        assert(a.len() == args@.len());
    }
    if args.len() == 0 {
        return SubcommandDecision::NoOp;
    }
    proof {
        assert(a[0] == args@[0]@);
    }
    let cmd = args[0].as_str();
    if str_eq(cmd, "remote") {
        SubcommandDecision::Remote
    } else if str_eq(cmd, "change") {
        SubcommandDecision::Change(change::rest_args(args))
    } else if str_eq(cmd, "help") || str_eq(cmd, "?") {
        SubcommandDecision::Help
    } else {
        SubcommandDecision::Unknown
    }
}

/// A run of spaces.
pub open spec fn spaces(n: int) -> Seq<char> {
    Seq::new(
        if n >= 0 {
            n as nat
        } else {
            0
        },
        |i: int| ' ',
    )
}

/// The text padded with spaces to at least `w` characters.
pub open spec fn pad_min(s: Seq<char>, w: int) -> Seq<char> {
    if s.len() >= w {
        s
    } else {
        s + spaces(w - s.len())
    }
}

/// Pads the text on the right with spaces to at least `w` characters.
pub fn pad_right(s: &String, w: usize) -> (r: String)
    ensures
        r@ == pad_min(s@, w as int),
{
    let mut r = s.clone();
    let mut l = s.as_str().unicode_len();
    proof {
        assert(spaces(0) =~= Seq::<char>::empty());
        if l >= w {
            assert(r@ =~= pad_min(s@, w as int));
        } else {
            assert(r@ =~= s@ + spaces(l - s@.len()));
        }
    }
    while l < w
        invariant
            l >= s@.len(),
            r@ == s@ + spaces(l - s@.len()),
            l <= w || l == s@.len(),
        decreases w - l,
    {
        r.push(' ');
        proof {
            assert(r@ =~= s@ + spaces(l + 1 - s@.len()));
        }
        l = l + 1;
    }
    proof {
        if s@.len() >= w {
            assert(r@ =~= s@);
        } else {
            assert(l == w);
        }
    }
    r
}

/// One help line: the command name padded to a column, then its description.
pub open spec fn help_line(c: NodeView) -> Seq<char> {
    " "@ + pad_min(c.name, 6) + "       "@ + c.about
}

/// The extra help line shown for one visible alias.
pub open spec fn alias_line(a: Seq<char>) -> Seq<char> {
    " "@ + a
}

/// The help text for a list of commands: each command's line followed by one
/// line per visible alias.
pub open spec fn help_lines_of(cs: Seq<NodeView>) -> Seq<Seq<char>>
    decreases cs.len(),
{
    if cs.len() == 0 {
        Seq::empty()
    } else {
        (seq![help_line(cs[0])] + cs[0].visible_aliases.map_values(|a: Seq<char>| alias_line(a)))
            + help_lines_of(cs.drop_first())
    }
}

/// Renders the help text for a node's subcommands, line by line.
pub fn help_lines(cmd_app: &CommandNode) -> (r: Vec<String>)
    ensures
        r.deep_view() == help_lines_of(node_view(*cmd_app).children),
{
    let ghost cs = node_view(*cmd_app).children;
    let mut r: Vec<String> = Vec::new();
    let count = cmd_app.children.len();
    let mut i: usize = 0;
    proof {
        lemma_children_views(cmd_app.children@);
        assert(cs.skip(0) =~= cs);
        assert(r.deep_view() =~= Seq::<Seq<char>>::empty());
    }
    while i < count
        invariant
            i <= count,
            count == cmd_app.children@.len(),
            cs == node_view(*cmd_app).children,
            cs.len() == count,
            help_lines_of(cs) == r.deep_view() + help_lines_of(cs.skip(i as int)),
        decreases count - i,
    {
        let ghost tail = cs.skip(i as int);
        proof {
            lemma_children_views(cmd_app.children@);
            assert(tail[0] == cs[i as int]);
            assert(cs[i as int] == node_view(cmd_app.children@[i as int]));
            assert(tail.drop_first() =~= cs.skip(i + 1 as int));
        }
        let child = &cmd_app.children[i];
        let ghost r0 = r.deep_view();
        let mut line = String::from_str(" ");
        let padded = pad_right(&child.name, 6);
        line.append(padded.as_str());
        line.append("       ");
        line.append(child.about.as_str());
        r.push(line);
        proof {
            assert(r.deep_view() =~= r0.push(help_line(cs[i as int])));
        }
        let ghost r1 = r.deep_view();
        let ghost als = cs[i as int].visible_aliases;
        let na = child.visible_aliases.len();
        let mut j: usize = 0;
        proof {
            assert(als.len() == child.visible_aliases@.len());
            assert(als.map_values(|a: Seq<char>| alias_line(a)).subrange(0, 0) =~= Seq::<
                Seq<char>,
            >::empty());
            assert(r1 + als.map_values(|a: Seq<char>| alias_line(a)).subrange(0, 0) =~= r1);
        }
        while j < na
            invariant
                j <= na,
                na == child.visible_aliases@.len(),
                als == node_view(*cmd_app).children[i as int].visible_aliases,
                als == child.visible_aliases.deep_view(),
                als.len() == na,
                r.deep_view() == r1 + als.map_values(|a: Seq<char>| alias_line(a)).subrange(
                    0,
                    j as int,
                ),
            decreases na - j,
        {
            let ghost r2 = r.deep_view();
            let mut al = String::from_str(" ");
            al.append(child.visible_aliases[j].as_str());
            r.push(al);
            proof {
                assert(als[j as int] == child.visible_aliases@[j as int]@);
                assert(als.map_values(|a: Seq<char>| alias_line(a))[j as int] == alias_line(
                    als[j as int],
                ));
                assert(r.deep_view() =~= r2.push(alias_line(als[j as int])));
                assert(als.map_values(|a: Seq<char>| alias_line(a)).subrange(0, j + 1 as int)
                    =~= als.map_values(|a: Seq<char>| alias_line(a)).subrange(0, j as int).push(
                    alias_line(als[j as int]),
                ));
            }
            j += 1;
        }
        proof {
            assert(als.map_values(|a: Seq<char>| alias_line(a)).subrange(0, na as int) =~= als.map_values(
                |a: Seq<char>| alias_line(a),
            ));
            assert(r.deep_view() =~= r0 + (seq![help_line(cs[i as int])] + als.map_values(
                |a: Seq<char>| alias_line(a),
            )));
            assert(r0 + help_lines_of(tail) =~= r.deep_view() + help_lines_of(
                cs.skip(i + 1 as int),
            ));
        }
        i += 1;
    }
    proof {
        assert(cs.skip(count as int) =~= Seq::<NodeView>::empty());
        assert(r.deep_view() + help_lines_of(cs.skip(count as int)) =~= r.deep_view());
    }
    r
}

/// The highlighted complaint shown when no handler took a command.
pub fn exception_line(msg: &String) -> (r: String)
    ensures
        r@ == "Exception: "@ + msg@,
{
    let mut r = String::from_str("Exception: ");
    r.append(msg.as_str());
    r
}

/// What the `remote` command prints, given the configured address.
pub fn remote_status_line(url: &Option<String>) -> (r: String)
    ensures
        match url {
            Some(u) => r@ == "remote url: "@ + u@,
            None => r@ == "no remotes configured"@,
        },
{
    match url {
        Some(u) => {
            let mut r = String::from_str("remote url: ");
            r.append(u.as_str());
            r
        },
        None => String::from_str("no remotes configured"),
    }
}

} // verus!
