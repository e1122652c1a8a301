//! The command tree: a static, hierarchical description of the words that are
//! valid at each depth of an input line, with aliases and positional-argument
//! vocabularies. The prompt engine walks it while resolving input; a thin
//! helper renders it as help text.

use vstd::prelude::*;
use vstd::string::StringExecFns;

use crate::text::str_eq;

verus! {

/// A positional argument slot of a command.
pub struct ArgSpec {
    /// The enumerated values the argument may take; empty means any token.
    pub values: Vec<String>,
    /// Whether the command cannot run without the argument.
    pub required: bool,
}

/// Mathematical mirror of an [`ArgSpec`].
#[verifier::ext_equal]
pub struct ArgView {
    pub values: Seq<Seq<char>>,
    pub required: bool,
}

/// What an argument slot means.
pub open spec fn arg_view(a: ArgSpec) -> ArgView {
    ArgView { values: a.values.deep_view(), required: a.required }
}

/// One command word: its name, aliases, subcommands and argument slot.
pub struct CommandNode {
    /// The canonical word.
    pub name: String,
    /// Hidden aliases: they match but are not listed.
    pub aliases: Vec<String>,
    /// Aliases that match and are also shown in listings.
    pub visible_aliases: Vec<String>,
    /// One line of help text.
    pub about: String,
    /// The subcommands valid after this word.
    pub children: Vec<CommandNode>,
    /// The positional argument accepted after this word, if any.
    pub arg: Option<ArgSpec>,
}

/// Mathematical mirror of a [`CommandNode`].
#[verifier::ext_equal]
pub struct NodeView {
    pub name: Seq<char>,
    pub aliases: Seq<Seq<char>>,
    pub visible_aliases: Seq<Seq<char>>,
    pub about: Seq<char>,
    pub children: Seq<NodeView>,
    pub arg: Option<ArgView>,
}

/// What a command node means.
pub open spec fn node_view(n: CommandNode) -> NodeView
    decreases n, 1int,
    via node_view_decreases
{
    NodeView {
        name: n.name@,
        aliases: n.aliases.deep_view(),
        visible_aliases: n.visible_aliases.deep_view(),
        about: n.about@,
        children: children_views(n.children@),
        arg: match n.arg {
            Some(a) => Some(arg_view(a)),
            None => None,
        },
    }
}

/// What a list of command nodes means, node by node.
pub open spec fn children_views(cs: Seq<CommandNode>) -> Seq<NodeView>
    decreases cs, 0int,
    via children_views_decreases
{
    if cs.len() == 0 {
        Seq::empty()
    } else {
        seq![node_view(cs[0])] + children_views(cs.drop_first())
    }
}

#[via_fn]
proof fn node_view_decreases(n: CommandNode) {
    broadcast use vstd::std_specs::vec::axiom_vec_decreases_to_view;

    assert(decreases_to!(n => n.children));
    assert(decreases_to!(n.children => n.children@));
}

#[via_fn]
proof fn children_views_decreases(cs: Seq<CommandNode>) {
    broadcast use vstd::seq::axiom_seq_index_decreases;
    broadcast use vstd::seq::axiom_seq_subrange_decreases;

    if cs.len() > 0 {
        assert(decreases_to!(cs => cs[0]));
        assert(cs.drop_first() == cs.subrange(1, cs.len() as int));
        assert(decreases_to!(cs => cs.subrange(1, cs.len() as int)));
    }
}

/// Indexing into the meaning of a node list.
pub proof fn lemma_children_views(cs: Seq<CommandNode>)
    ensures
        children_views(cs).len() == cs.len(),
        forall|i: int| 0 <= i < cs.len() ==> children_views(cs)[i] == node_view(cs[i]),
    decreases cs.len(),
{
    if cs.len() > 0 {
        lemma_children_views(cs.drop_first());
        assert forall|i: int| 0 <= i < cs.len() implies children_views(cs)[i] == node_view(
            cs[i],
        ) by {
            if i > 0 {
                assert(children_views(cs)[i] == children_views(cs.drop_first())[i - 1]);
                assert(cs.drop_first()[i - 1] == cs[i]);
            }
        }
    }
}

impl CommandNode {
    /// A fresh command word with no aliases, children or argument.
    pub fn new(name: &str) -> (c: CommandNode)
        ensures
            node_view(c).name == name@,
            node_view(c).aliases == Seq::<Seq<char>>::empty(),
            node_view(c).visible_aliases == Seq::<Seq<char>>::empty(),
            node_view(c).about == Seq::<char>::empty(),
            node_view(c).children == Seq::<NodeView>::empty(),
            node_view(c).arg is None,
    {
        let c = CommandNode {
            name: String::from_str(name),
            aliases: Vec::new(),
            visible_aliases: Vec::new(),
            about: String::new(),
            children: Vec::new(),
            arg: None,
        };
        proof {
            assert(node_view(c).aliases =~= Seq::<Seq<char>>::empty());
            assert(node_view(c).visible_aliases =~= Seq::<Seq<char>>::empty());
            assert(node_view(c).children =~= Seq::<NodeView>::empty());
        }
        c
    }

    /// Sets the one-line help text.
    pub fn about(self, text: &str) -> (c: CommandNode)
        ensures
            node_view(c) == (NodeView { about: text@, ..node_view(self) }),
    {
        let c = CommandNode { about: String::from_str(text), ..self };
        proof {
            assert(node_view(c) =~= (NodeView { about: text@, ..node_view(self) }));
        }
        c
    }

    /// Adds a hidden alias: it matches input but is not listed.
    pub fn alias(self, word: &str) -> (c: CommandNode)
        ensures
            node_view(c) == (NodeView {
                aliases: node_view(self).aliases.push(word@),
                ..node_view(self)
            }),
    {
        let mut aliases = self.aliases;
        let ghost before = aliases.deep_view();
        aliases.push(String::from_str(word));
        proof {
            assert(aliases.deep_view() =~= before.push(word@));
        }
        let c = CommandNode { aliases, ..self };
        proof {
            assert(node_view(c) =~= (NodeView {
                aliases: node_view(self).aliases.push(word@),
                ..node_view(self)
            }));
        }
        c
    }

    /// Adds an alias that also shows up in listings.
    pub fn visible_alias(self, word: &str) -> (c: CommandNode)
        ensures
            node_view(c) == (NodeView {
                visible_aliases: node_view(self).visible_aliases.push(word@),
                ..node_view(self)
            }),
    {
        let mut visible_aliases = self.visible_aliases;
        let ghost before = visible_aliases.deep_view();
        visible_aliases.push(String::from_str(word));
        proof {
            assert(visible_aliases.deep_view() =~= before.push(word@));
        }
        let c = CommandNode { visible_aliases, ..self };
        proof {
            assert(node_view(c) =~= (NodeView {
                visible_aliases: node_view(self).visible_aliases.push(word@),
                ..node_view(self)
            }));
        }
        c
    }

    /// Adds a subcommand after the existing ones.
    pub fn subcommand(self, child: CommandNode) -> (c: CommandNode)
        ensures
            node_view(c) == (NodeView {
                children: node_view(self).children.push(node_view(child)),
                ..node_view(self)
            }),
    {
        let ghost child_v = node_view(child);
        let mut children = self.children;
        let ghost before = children@;
        children.push(child);
        let c = CommandNode { children, ..self };
        proof {
            assert(c.children@ =~= before.push(child));
            lemma_children_views(before.push(child));
            lemma_children_views(before);
            assert(node_view(c).children =~= node_view(self).children.push(child_v));
            assert(node_view(c) =~= (NodeView {
                children: node_view(self).children.push(child_v),
                ..node_view(self)
            }));
        }
        c
    }

    /// Sets the positional argument slot.
    pub fn arg(self, a: ArgSpec) -> (c: CommandNode)
        ensures
            node_view(c) == (NodeView { arg: Some(arg_view(a)), ..node_view(self) }),
    {
        let ghost a_v = arg_view(a);
        let c = CommandNode { arg: Some(a), ..self };
        proof {
            assert(node_view(c) =~= (NodeView { arg: Some(a_v), ..node_view(self) }));
        }
        c
    }
}

impl ArgSpec {
    /// A free-form argument: any token is accepted.
    pub fn free(required: bool) -> (a: ArgSpec)
        ensures
            arg_view(a).values == Seq::<Seq<char>>::empty(),
            arg_view(a).required == required,
    {
        let a = ArgSpec { values: Vec::new(), required };
        proof {
            assert(arg_view(a).values =~= Seq::<Seq<char>>::empty());
        }
        a
    }

    /// An enumerated argument with the given optional values.
    pub fn enumerated(values: Vec<String>) -> (a: ArgSpec)
        ensures
            arg_view(a).values == values.deep_view(),
            arg_view(a).required == false,
    {
        ArgSpec { values, required: false }
    }
}

/// The words one child contributes to the matching vocabulary: its name and
/// every alias, hidden or visible.
pub open spec fn child_words(c: NodeView) -> Seq<Seq<char>> {
    seq![c.name] + c.aliases + c.visible_aliases
}

/// The full matching vocabulary of a list of children.
pub open spec fn words_of_children(cs: Seq<NodeView>) -> Seq<Seq<char>>
    decreases cs.len(),
{
    if cs.len() == 0 {
        Seq::empty()
    } else {
        child_words(cs[0]) + words_of_children(cs.drop_first())
    }
}

/// The words shown when listing a node's subcommands: each child's name and
/// its visible aliases, in order.
pub open spec fn visible_words_of_children(cs: Seq<NodeView>) -> Seq<Seq<char>>
    decreases cs.len(),
{
    if cs.len() == 0 {
        Seq::empty()
    } else {
        (seq![cs[0].name] + cs[0].visible_aliases) + visible_words_of_children(cs.drop_first())
    }
}

/// Collects the matching vocabulary of a node's subcommands.
pub fn get_command_vocabulary(n: &CommandNode) -> (r: Vec<String>)
    ensures
        r.deep_view() == words_of_children(node_view(*n).children),
{
    let ghost cs = node_view(*n).children;
    let mut r: Vec<String> = Vec::new();
    let count = n.children.len();
    let mut i: usize = 0;
    proof {
        lemma_children_views(n.children@);
        assert(cs.skip(0) =~= cs);
        assert(r.deep_view() =~= Seq::<Seq<char>>::empty());
    }
    while i < count
        invariant
            i <= count,
            count == n.children@.len(),
            cs == node_view(*n).children,
            cs.len() == count,
            words_of_children(cs) == r.deep_view() + words_of_children(cs.skip(i as int)),
        decreases count - i,
    {
        let ghost tail = cs.skip(i as int);
        proof {
            lemma_children_views(n.children@);
            assert(tail[0] == cs[i as int]);
            assert(cs[i as int] == node_view(n.children@[i as int]));
            assert(tail.drop_first() =~= cs.skip(i + 1 as int));
        }
        let child = &n.children[i];
        let ghost r0 = r.deep_view();
        r.push(child.name.clone());
        proof {
            assert(r.deep_view() =~= r0.push(cs[i as int].name));
        }
        push_all(&mut r, &child.aliases);
        push_all(&mut r, &child.visible_aliases);
        proof {
            assert(r.deep_view() =~= r0 + child_words(cs[i as int]));
            assert(r0 + words_of_children(tail) =~= r.deep_view() + words_of_children(
                cs.skip(i + 1 as int),
            ));
        }
        i += 1;
    }
    proof {
        assert(cs.skip(count as int) =~= Seq::<NodeView>::empty());
        assert(r.deep_view() + words_of_children(cs.skip(count as int)) =~= r.deep_view());
    }
    r
}

/// Appends clones of all of `src` at the end of `dst`.
pub(crate) fn push_all(dst: &mut Vec<String>, src: &Vec<String>)
    ensures
        final(dst).deep_view() == old(dst).deep_view() + src.deep_view(),
{
    let n = src.len();
    let mut j: usize = 0;
    proof {
        assert(src.deep_view().len() == src@.len());
        assert(old(dst).deep_view() + src.deep_view().take(0) =~= old(dst).deep_view());
    }
    while j < n
        invariant
            j <= n,
            n == src@.len(),
            dst.deep_view() == old(dst).deep_view() + src.deep_view().take(j as int),
        decreases n - j,
    {
        let ghost d0 = dst.deep_view();
        dst.push(src[j].clone());
        proof {
            assert(src.deep_view()[j as int] == src@[j as int]@);
            assert(dst.deep_view() =~= d0.push(src.deep_view()[j as int]));
            assert(old(dst).deep_view() + src.deep_view().take(j + 1 as int) =~= dst.deep_view());
        }
        j += 1;
    }
    proof {
        assert(src.deep_view().take(n as int) =~= src.deep_view());
    }
}

/// Collects the words listed for a node's subcommands.
pub fn get_visible_command_vector(cmd_app: &CommandNode) -> (r: Vec<String>)
    ensures
        r.deep_view() == visible_words_of_children(node_view(*cmd_app).children),
{
    let ghost cs = node_view(*cmd_app).children;
    let mut r: Vec<String> = Vec::new();
    let count = cmd_app.children.len();
    let mut i: usize = 0;
    proof {
        lemma_children_views(cmd_app.children@);
        assert(cs.skip(0) =~= cs);
        assert(r.deep_view() =~= Seq::<Seq<char>>::empty());
    }
    while i < count
        invariant
            i <= count,
            count == cmd_app.children@.len(),
            cs == node_view(*cmd_app).children,
            cs.len() == count,
            visible_words_of_children(cs) == r.deep_view() + visible_words_of_children(
                cs.skip(i as int),
            ),
        decreases count - i,
    {
        let ghost tail = cs.skip(i as int);
        proof {
            lemma_children_views(cmd_app.children@);
            assert(tail[0] == cs[i as int]);
            assert(cs[i as int] == node_view(cmd_app.children@[i as int]));
            assert(tail.drop_first() =~= cs.skip(i + 1 as int));
        }
        let child = &cmd_app.children[i];
        let ghost r0 = r.deep_view();
        r.push(child.name.clone());
        proof {
            assert(r.deep_view() =~= r0.push(cs[i as int].name));
        }
        push_all(&mut r, &child.visible_aliases);
        proof {
            assert(r.deep_view() =~= r0 + (seq![cs[i as int].name] + cs[i as int].visible_aliases));
            assert(r0 + visible_words_of_children(tail) =~= r.deep_view()
                + visible_words_of_children(cs.skip(i + 1 as int)));
        }
        i += 1;
    }
    proof {
        assert(cs.skip(count as int) =~= Seq::<NodeView>::empty());
        assert(r.deep_view() + visible_words_of_children(cs.skip(count as int)) =~= r.deep_view());
    }
    r
}

/// Collects the enumerated values of an argument slot.
pub fn get_arg_values_vector(arg: &ArgSpec) -> (r: Vec<String>)
    ensures
        r.deep_view() == arg_view(*arg).values,
{
    let mut r: Vec<String> = Vec::new();
    proof {
        assert(r.deep_view() =~= Seq::<Seq<char>>::empty());
        assert(Seq::<Seq<char>>::empty() + arg.values.deep_view() =~= arg.values.deep_view());
    }
    push_all(&mut r, &arg.values);
    r
}

/// Index of the first child matched by the word `w` (by name or any alias),
/// or `-1` when no child matches.
pub open spec fn find_child_idx(cs: Seq<NodeView>, w: Seq<char>) -> int
    decreases cs.len(),
{
    if cs.len() == 0 {
        -1
    } else if child_words(cs[0]).contains(w) {
        0
    } else {
        let r = find_child_idx(cs.drop_first(), w);
        if r < 0 {
            -1
        } else {
            r + 1
        }
    }
}

/// Whether the word `w` is the name or an alias of child `c`.
fn word_in_child(c: &CommandNode, w: &String) -> (r: bool)
    ensures
        r == child_words(node_view(*c)).contains(w@),
{
    let ghost s0 = seq![node_view(*c).name];
    let ghost av = c.aliases.deep_view();
    let ghost vv = c.visible_aliases.deep_view();
    let ghost cw = child_words(node_view(*c));
    proof {
        assert(av.len() == c.aliases@.len());
        assert(vv.len() == c.visible_aliases@.len());
        assert(cw == s0 + av + vv);
    }
    if str_eq(c.name.as_str(), w.as_str()) {
        proof {
            assert((s0 + av + vv)[0] == w@);
        }
        return true;
    }
    let mut j: usize = 0;
    let na = c.aliases.len();
    while j < na
        invariant
            j <= na,
            na == c.aliases@.len(),
            s0 == seq![node_view(*c).name],
            av == c.aliases.deep_view(),
            vv == c.visible_aliases.deep_view(),
            av.len() == na,
            child_words(node_view(*c)) == s0 + av + vv,
            forall|k: int| 0 <= k < j ==> av[k] != w@,
        decreases na - j,
    {
        if str_eq(c.aliases[j].as_str(), w.as_str()) {
            proof {
                assert((s0 + av + vv)[1 + j as int] == av[j as int]);
            }
            return true;
        }
        proof {
            assert(av[j as int] == c.aliases@[j as int]@);
        }
        j += 1;
    }
    let mut j2: usize = 0;
    let nv = c.visible_aliases.len();
    while j2 < nv
        invariant
            j2 <= nv,
            nv == c.visible_aliases@.len(),
            s0 == seq![node_view(*c).name],
            av == c.aliases.deep_view(),
            vv == c.visible_aliases.deep_view(),
            vv.len() == nv,
            child_words(node_view(*c)) == s0 + av + vv,
            forall|k: int| 0 <= k < j2 ==> vv[k] != w@,
        decreases nv - j2,
    {
        if str_eq(c.visible_aliases[j2].as_str(), w.as_str()) {
            proof {
                assert((s0 + av + vv)[s0.len() + av.len() + j2 as int] == vv[j2 as int]);
            }
            return true;
        }
        proof {
            assert(vv[j2 as int] == c.visible_aliases@[j2 as int]@);
        }
        j2 += 1;
    }
    proof {
        assert(node_view(*c).name == c.name@);
        assert forall|k: int| 0 <= k < cw.len() implies cw[k] != w@ by {
            assert(cw[k] == (s0 + av + vv)[k]);
            if k == 0 {
            } else if k < 1 + av.len() {
                assert((s0 + av + vv)[k] == av[k - 1]);
            } else {
                assert((s0 + av + vv)[k] == vv[k - 1 - av.len()]);
            }
        }
        if cw.contains(w@) {
            let k = choose|k: int| 0 <= k < cw.len() && cw[k] == w@;
            assert(false);
        }
    }
    false
}

proof fn lemma_find_child_idx_after(cs: Seq<NodeView>, w: Seq<char>, i: int)
    requires
        0 <= i <= cs.len(),
        forall|j: int| 0 <= j < i ==> !child_words(#[trigger] cs[j]).contains(w),
    ensures
        find_child_idx(cs, w) == if find_child_idx(cs.skip(i), w) < 0 {
            -1
        } else {
            i + find_child_idx(cs.skip(i), w)
        },
    decreases i,
{
    if i == 0 {
        assert(cs.skip(0) =~= cs);
    } else {
        assert(!child_words(cs[0]).contains(w));
        assert(cs.len() > 0);
        lemma_find_child_idx_after(cs.drop_first(), w, i - 1);
        assert(cs.drop_first().skip(i - 1) =~= cs.skip(i));
        assert forall|j: int| 0 <= j < i - 1 implies !child_words(
            #[trigger] cs.drop_first()[j],
        ).contains(w) by {
            assert(cs.drop_first()[j] == cs[j + 1]);
        }
    }
}

/// The child of `n` matched by the word `w`, by name or alias; the first such
/// child when several share the word.
pub fn find_child<'a>(n: &'a CommandNode, w: &String) -> (r: Option<&'a CommandNode>)
    ensures
        match r {
            Some(c) => find_child_idx(node_view(*n).children, w@) >= 0 && node_view(*c)
                == node_view(*n).children[find_child_idx(node_view(*n).children, w@)],
            None => find_child_idx(node_view(*n).children, w@) == -1,
        },
{
    let ghost cs = node_view(*n).children;
    let count = n.children.len();
    let mut i: usize = 0;
    proof {
        lemma_children_views(n.children@);
    }
    while i < count
        invariant
            i <= count,
            count == n.children@.len(),
            cs == node_view(*n).children,
            cs.len() == count,
            forall|j: int| 0 <= j < i ==> !child_words(#[trigger] cs[j]).contains(w@),
        decreases count - i,
    {
        proof {
            lemma_children_views(n.children@);
            assert(cs[i as int] == node_view(n.children@[i as int]));
        }
        if word_in_child(&n.children[i], w) {
            proof {
                lemma_find_child_idx_after(cs, w@, i as int);
                assert(cs.skip(i as int)[0] == cs[i as int]);
                assert(find_child_idx(cs.skip(i as int), w@) == 0);
            }
            return Some(&n.children[i]);
        }
        i += 1;
    }
    proof {
        lemma_find_child_idx_after(cs, w@, count as int);
        assert(cs.skip(count as int) =~= Seq::<NodeView>::empty());
    }
    None
}

/// Index of the first child whose name (aliases do not count here) is `w`,
/// or `-1` when none.
pub open spec fn find_by_name(cs: Seq<NodeView>, w: Seq<char>) -> int
    decreases cs.len(),
{
    if cs.len() == 0 {
        -1
    } else if cs[0].name == w {
        0
    } else {
        let r = find_by_name(cs.drop_first(), w);
        if r < 0 {
            -1
        } else {
            r + 1
        }
    }
}

/// The node reached from `n` by following the given command names in order,
/// or nothing when some name has no matching child.
pub open spec fn find_path(n: NodeView, inputs: Seq<Seq<char>>) -> Option<NodeView>
    decreases inputs.len(),
{
    if inputs.len() == 0 {
        Some(n)
    } else {
        let i = find_by_name(n.children, inputs[0]);
        if i < 0 {
            None
        } else {
            find_path(n.children[i], inputs.drop_first())
        }
    }
}

proof fn lemma_find_by_name_after(cs: Seq<NodeView>, w: Seq<char>, i: int)
    requires
        0 <= i <= cs.len(),
        forall|j: int| 0 <= j < i ==> (#[trigger] cs[j]).name != w,
    ensures
        find_by_name(cs, w) == if find_by_name(cs.skip(i), w) < 0 {
            -1
        } else {
            i + find_by_name(cs.skip(i), w)
        },
    decreases i,
{
    if i == 0 {
        assert(cs.skip(0) =~= cs);
    } else {
        assert(cs.len() > 0);
        lemma_find_by_name_after(cs.drop_first(), w, i - 1);
        assert(cs.drop_first().skip(i - 1) =~= cs.skip(i));
        assert forall|j: int| 0 <= j < i - 1 implies (#[trigger] cs.drop_first()[j]).name != w by {
            assert(cs.drop_first()[j] == cs[j + 1]);
        }
    }
}

fn find_child_by_name<'a>(n: &'a CommandNode, w: &String) -> (r: Option<&'a CommandNode>)
    ensures
        match r {
            Some(c) => find_by_name(node_view(*n).children, w@) >= 0 && node_view(*c) == node_view(
                *n,
            ).children[find_by_name(node_view(*n).children, w@)],
            None => find_by_name(node_view(*n).children, w@) == -1,
        },
{
    let ghost cs = node_view(*n).children;
    let count = n.children.len();
    let mut i: usize = 0;
    proof {
        lemma_children_views(n.children@);
    }
    while i < count
        invariant
            i <= count,
            count == n.children@.len(),
            cs == node_view(*n).children,
            cs.len() == count,
            forall|j: int| 0 <= j < i ==> (#[trigger] cs[j]).name != w@,
        decreases count - i,
    {
        proof {
            lemma_children_views(n.children@);
            assert(cs[i as int] == node_view(n.children@[i as int]));
        }
        if str_eq(n.children[i].name.as_str(), w.as_str()) {
            proof {
                lemma_find_by_name_after(cs, w@, i as int);
                assert(cs.skip(i as int)[0] == cs[i as int]);
                assert(find_by_name(cs.skip(i as int), w@) == 0);
            }
            return Some(&n.children[i]);
        }
        i += 1;
    }
    proof {
        lemma_find_by_name_after(cs, w@, count as int);
        assert(cs.skip(count as int) =~= Seq::<NodeView>::empty());
    }
    None
}

/// The node reached by following the given command names, or nothing when a
/// name does not match: the total-by-construction sibling of [`find_command`].
pub fn try_find_command<'a>(cmd_schema: &'a CommandNode, inputs: &[String]) -> (r: Option<
    &'a CommandNode,
>)
    ensures
        match r {
            Some(c) => find_path(node_view(*cmd_schema), inputs@.map_values(|s: String| s@))
                matches Some(v) && node_view(*c) == v,
            None => find_path(node_view(*cmd_schema), inputs@.map_values(|s: String| s@)) is None,
        },
{
    let ghost ivs = inputs@.map_values(|s: String| s@);
    let mut cur: &CommandNode = cmd_schema;
    let count = inputs.len();
    let mut i: usize = 0;
    proof {
        assert(ivs.skip(0) =~= ivs);
    }
    while i < count
        invariant
            i <= count,
            count == inputs@.len(),
            ivs == inputs@.map_values(|s: String| s@),
            ivs.len() == count,
            find_path(node_view(*cmd_schema), ivs) == find_path(
                node_view(*cur),
                ivs.skip(i as int),
            ),
        decreases count - i,
    {
        let ghost tail = ivs.skip(i as int);
        proof {
            assert(tail[0] == ivs[i as int]);
            assert(ivs[i as int] == inputs@[i as int]@);
            assert(tail.drop_first() =~= ivs.skip(i + 1 as int));
        }
        match find_child_by_name(cur, &inputs[i]) {
            Some(c) => {
                cur = c;
            },
            None => {
                return None;
            },
        }
        i += 1;
    }
    proof {
        assert(ivs.skip(count as int) =~= Seq::<Seq<char>>::empty());
    }
    Some(cur)
}

/// Walks the command tree down the given command names. The caller must know
/// the path exists; [`try_find_command`] is the checked variant.
pub fn find_command<'a>(cmd_schema: &'a CommandNode, inputs: &[String]) -> (r: &'a CommandNode)
    requires
        find_path(node_view(*cmd_schema), inputs@.map_values(|s: String| s@)) is Some,
    ensures
        find_path(node_view(*cmd_schema), inputs@.map_values(|s: String| s@)) matches Some(v)
            && node_view(*r) == v,
{
    let r = try_find_command(cmd_schema, inputs);
    match r {
        Some(c) => c,
        None => {
            proof {
                assert(false);
            }
            cmd_schema
        },
    }
}

} // verus!
