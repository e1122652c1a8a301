//! The `change` command family: its schema, and the decisions behind the
//! `show` and `query` subcommands. The remote calls themselves happen outside
//! the library; everything decidable from the input line is decided here.

use vstd::prelude::*;
use vstd::string::StrSliceExecFns;
use vstd::string::StringExecFns;

use crate::commands::pad_min;
use crate::text::{chars_of_str, str_eq};
use crate::tree::{node_view, ArgSpec, ArgView, CommandNode, NodeView};
use crate::util::CmdAction;

verus! {

/// The enumerated search operators offered for `query`.
pub open spec fn query_values() -> Seq<Seq<char>> {
    seq!["owner:self"@, "is:open"@, "is:wip"@, "-owner:self"@, "-is:open"@, "-is:wip"@]
}

/// The `query` subcommand: an optional, enumerated search argument.
pub open spec fn query_schema() -> NodeView {
    NodeView {
        name: "query"@,
        aliases: Seq::empty(),
        visible_aliases: Seq::empty(),
        about: "Query changes"@,
        children: Seq::empty(),
        arg: Some(ArgView { values: query_values(), required: false }),
    }
}

/// A leaf command word with no aliases and no argument.
pub open spec fn plain_schema(name: Seq<char>, about: Seq<char>) -> NodeView {
    NodeView {
        name,
        aliases: Seq::empty(),
        visible_aliases: Seq::empty(),
        about,
        children: Seq::empty(),
        arg: None,
    }
}

/// The `change` command family: `show` (requires an ID), `query`, `help`
/// (alias `?`), `exit` and `quit`.
pub open spec fn change_schema() -> NodeView {
    NodeView {
        name: "change"@,
        aliases: Seq::empty(),
        visible_aliases: Seq::empty(),
        about: "Change commands"@,
        children: seq![
            NodeView {
                arg: Some(ArgView { values: Seq::empty(), required: true }),
                ..plain_schema("show"@, "Display change info"@)
            },
            query_schema(),
            NodeView {
                aliases: seq!["?"@],
                ..plain_schema("help"@, "Print command help"@)
            },
            plain_schema("exit"@, "Exit from current mode"@),
            plain_schema("quit"@, "Quit the program"@),
        ],
        arg: None,
    }
}

/// Builds the `query` subcommand schema.
pub fn command_query() -> (c: CommandNode)
    ensures
        node_view(c) == query_schema(),
{
    let mut values: Vec<String> = Vec::new();
    values.push(String::from_str("owner:self"));
    values.push(String::from_str("is:open"));
    values.push(String::from_str("is:wip"));
    values.push(String::from_str("-owner:self"));
    values.push(String::from_str("-is:open"));
    values.push(String::from_str("-is:wip"));
    proof {
        assert(values.deep_view() =~= query_values());
    }
    let c = CommandNode::new("query").about("Query changes").arg(ArgSpec::enumerated(values));
    proof {
        assert(node_view(c) =~= query_schema());
    }
    c
}

/// Builds the `change` command schema.
pub fn command() -> (c: CommandNode)
    ensures
        node_view(c) == change_schema(),
{
    let show = CommandNode::new("show").arg(ArgSpec::free(true)).about("Display change info");
    let query = command_query();
    let help = CommandNode::new("help").alias("?").about("Print command help");
    let exit = CommandNode::new("exit").about("Exit from current mode");
    let quit = CommandNode::new("quit").about("Quit the program");
    proof {
        assert(node_view(show) =~= (NodeView {
            arg: Some(ArgView { values: Seq::empty(), required: true }),
            ..plain_schema("show"@, "Display change info"@)
        }));
        assert(node_view(help) =~= (NodeView {
            aliases: seq!["?"@],
            ..plain_schema("help"@, "Print command help"@)
        }));
        assert(node_view(exit) =~= plain_schema("exit"@, "Exit from current mode"@));
        assert(node_view(quit) =~= plain_schema("quit"@, "Quit the program"@));
    }
    let c = CommandNode::new("change").about("Change commands").subcommand(show).subcommand(
        query,
    ).subcommand(help).subcommand(exit).subcommand(quit);
    proof {
        assert(node_view(c).children.len() == 5);
        assert(node_view(c).children[0] == change_schema().children[0]);
        assert(node_view(c).children[1] == change_schema().children[1]);
        assert(node_view(c).children[2] == change_schema().children[2]);
        assert(node_view(c).children[3] == change_schema().children[3]);
        assert(node_view(c).children[4] == change_schema().children[4]);
        assert(node_view(c).children =~= change_schema().children);
        assert(node_view(c) =~= change_schema());
    }
    c
}

/// A decimal digit.
pub open spec fn is_digit_char(c: char) -> bool {
    48 <= c as u32 <= 57
}

/// The numeric value of a decimal digit.
pub open spec fn char_digit(c: char) -> int {
    c as u32 - 48
}

/// The value of a run of decimal digits, most significant first.
pub open spec fn digits_val(s: Seq<char>) -> int
    decreases s.len(),
{
    if s.len() == 0 {
        0
    } else {
        digits_val(s.drop_last()) * 10 + char_digit(s.last())
    }
}

/// A run made of decimal digits only.
pub open spec fn all_digits(s: Seq<char>) -> bool {
    forall|k: int| 0 <= k < s.len() ==> is_digit_char(#[trigger] s[k])
}

/// How `show` reads its numeric argument: an optional leading `+`, then at
/// least one decimal digit, and the value must fit.
pub open spec fn parse_u32_spec(s: Seq<char>) -> Option<u32> {
    let digits = if s.len() > 0 && s[0] == '+' {
        s.drop_first()
    } else {
        s
    };
    if digits.len() == 0 {
        None
    } else if !all_digits(digits) {
        None
    } else if digits_val(digits) > u32::MAX {
        None
    } else {
        Some(digits_val(digits) as u32)
    }
}

proof fn lemma_digits_val_nonneg(s: Seq<char>)
    requires
        forall|k: int| 0 <= k < s.len() ==> is_digit_char(#[trigger] s[k]),
    ensures
        digits_val(s) >= 0,
    decreases s.len(),
{
    if s.len() > 0 {
        lemma_digits_val_nonneg(s.drop_last());
    }
}

/// Parses the characters of `v` from position `from` on as a `u32`.
fn parse_u32_from(v: &Vec<char>, from: usize) -> (r: Option<u32>)
    requires
        from <= v@.len(),
    ensures
        r == parse_u32_spec(v@.skip(from as int)),
{
    let ghost s = v@.skip(from as int);
    let n = v.len();
    let mut i = from;
    if i < n && v[i] == '+' {
        i += 1;
    }
    let ghost digits = v@.skip(i as int);
    proof {
        if s.len() > 0 && s[0] == '+' {
            assert(s[0] == v@[from as int]);
            assert(s.drop_first() =~= v@.skip(from + 1 as int));
        }
        assert(digits == (if s.len() > 0 && s[0] == '+' {
            s.drop_first()
        } else {
            s
        }));
    }
    if i == n {
        return None;
    }
    let mut acc: u64 = 0;
    let mut over = false;
    let mut j = i;
    proof {
        assert(v@.subrange(i as int, i as int) =~= Seq::<char>::empty());
    }
    while j < n
        invariant
            from <= i <= j <= n,
            n == v@.len(),
            s == v@.skip(from as int),
            digits == v@.skip(i as int),
            digits == (if s.len() > 0 && s[0] == '+' {
                s.drop_first()
            } else {
                s
            }),
            digits.len() > 0,
            forall|k: int| i <= k < j ==> is_digit_char(#[trigger] v@[k]),
            !over ==> acc == digits_val(v@.subrange(i as int, j as int)) && acc <= u32::MAX as u64,
            over ==> digits_val(v@.subrange(i as int, j as int)) > u32::MAX,
        decreases n - j,
    {
        let c = v[j];
        let u = c as u32;
        if !(48 <= u && u <= 57) {
            proof {
                assert(digits.len() == n - i);
                assert(digits[j - i] == v@[j as int]);
                assert(!is_digit_char(digits[j - i]));
                assert(!all_digits(digits));
                assert(parse_u32_spec(s) is None);
            }
            return None;
        }
        let d: u64 = (u - 48) as u64;
        let ghost seen = v@.subrange(i as int, j as int);
        let ghost seen2 = v@.subrange(i as int, j + 1 as int);
        proof {
            assert(seen2.drop_last() =~= seen);
            assert(seen2.last() == v@[j as int]);
            assert(digits_val(seen2) == digits_val(seen) * 10 + char_digit(v@[j as int]));
        }
        if !over {
            let nv: u64 = acc * 10 + d;
            if nv > u32::MAX as u64 {
                over = true;
                proof {
                    assert(digits_val(seen2) == acc * 10 + d);
                }
            } else {
                acc = nv;
            }
        } else {
            proof {
                assert forall|k: int| 0 <= k < seen.len() implies is_digit_char(
                    #[trigger] seen[k],
                ) by {
                    assert(seen[k] == v@[i + k]);
                }
                lemma_digits_val_nonneg(seen);
                assert(digits_val(seen) * 10 >= digits_val(seen)) by (nonlinear_arith)
                    requires
                        digits_val(seen) >= 0,
                ;
                assert(digits_val(seen2) > u32::MAX);
            }
        }
        j += 1;
    }
    proof {
        assert(v@.subrange(i as int, n as int) =~= digits);
        assert forall|k: int| 0 <= k < digits.len() implies is_digit_char(
            #[trigger] digits[k],
        ) by {
            assert(digits[k] == v@[i + k]);
        }
        assert(all_digits(digits));
    }
    if over {
        None
    } else {
        Some(acc as u32)
    }
}

/// What the `show` subcommand should fetch, given its arguments and the
/// number of cached query results.
#[derive(PartialEq, Eq, Structural)]
pub enum ShowTarget {
    /// Not exactly one argument was given.
    MissingId,
    /// The argument (after a `$`, if any) is not a number that fits.
    NotANumber,
    /// A `$`-index outside the cached result list.
    OutOfBounds,
    /// The position in the cached result list to show (zero-based).
    Cached(usize),
    /// The change number to fetch directly.
    Number(u32),
}

/// The decision rule of `show`: exactly one argument; a `$` prefix indexes
/// the cached query results one-based; anything else is a change number.
pub open spec fn spec_show_target(args: Seq<Seq<char>>, cached_len: int) -> ShowTarget {
    if args.len() != 1 {
        ShowTarget::MissingId
    } else {
        let id = args[0];
        if id.len() > 0 && id[0] == '$' {
            match parse_u32_spec(id.drop_first()) {
                None => ShowTarget::NotANumber,
                Some(x) => if x == 0 || x > cached_len {
                    ShowTarget::OutOfBounds
                } else {
                    ShowTarget::Cached((x - 1) as usize)
                },
            }
        } else {
            match parse_u32_spec(id) {
                None => ShowTarget::NotANumber,
                Some(x) => ShowTarget::Number(x),
            }
        }
    }
}

/// Decides what `show` fetches; see [`spec_show_target`].
pub fn resolve_show_id(args: &Vec<String>, cached_len: usize) -> (t: ShowTarget)
    ensures
        t == spec_show_target(args.deep_view(), cached_len as int),
{
    let ghost av = args.deep_view();
    proof {
        assert(av.len() == args@.len());
    }
    if args.len() != 1 {
        return ShowTarget::MissingId;
    }
    let id = chars_of_str(args[0].as_str());
    proof {
        assert(av[0] == args@[0]@);
        assert(id@ == av[0]);
    }
    let indexed = id.len() > 0 && id[0] == '$';
    let parsed = if indexed {
        let r = parse_u32_from(&id, 1);
        proof {
            assert(id@.skip(1) =~= av[0].drop_first());
        }
        r
    } else {
        let r = parse_u32_from(&id, 0);
        proof {
            assert(id@.skip(0) =~= av[0]);
        }
        r
    };
    match parsed {
        None => ShowTarget::NotANumber,
        Some(x) => {
            if indexed {
                if x == 0 || (x as usize) > cached_len {
                    ShowTarget::OutOfBounds
                } else {
                    ShowTarget::Cached((x - 1) as usize)
                }
            } else {
                ShowTarget::Number(x)
            }
        },
    }
}

/// The arguments joined with single spaces.
pub open spec fn join_spaced(args: Seq<Seq<char>>) -> Seq<char>
    decreases args.len(),
{
    if args.len() == 0 {
        Seq::empty()
    } else if args.len() == 1 {
        args[0]
    } else {
        args[0] + seq![' '] + join_spaced(args.drop_first())
    }
}

/// The raw search filter sent for `query`: nothing when no operator was
/// given, otherwise the operators joined with spaces.
pub fn query_filter(args: &Vec<String>) -> (r: Option<String>)
    ensures
        match r {
            None => args.deep_view().len() == 0,
            Some(s) => args.deep_view().len() > 0 && s@ == join_spaced(args.deep_view()),
        },
{
    let ghost av = args.deep_view();
    proof {
        assert(av.len() == args@.len());
    }
    let n = args.len();
    if n == 0 {
        return None;
    }
    let mut s = String::new();
    let mut i: usize = 0;
    while i < n
        invariant
            i <= n,
            n == args@.len(),
            av == args.deep_view(),
            av.len() == n,
            n > 0,
            0 < i < n ==> join_spaced(av) == s@ + seq![' '] + join_spaced(av.skip(i as int)),
            i == n ==> join_spaced(av) == s@,
            i == 0 ==> s@ == Seq::<char>::empty(),
        decreases n - i,
    {
        let ghost tail = av.skip(i as int);
        let ghost s0 = s@;
        proof {
            assert(tail.len() == n - i);
            assert(tail[0] == av[i as int]);
            assert(av[i as int] == args@[i as int]@);
            assert(tail.drop_first() =~= av.skip(i + 1 as int));
        }
        if i > 0 {
            s.push(' ');
        }
        s.append(args[i].as_str());
        proof {
            if i == 0 {
                assert(s@ =~= av[0]);
                assert(av.skip(0) =~= av);
                if n > 1 {
                    assert(join_spaced(av) == av[0] + seq![' '] + join_spaced(av.skip(1)));
                } else {
                    assert(join_spaced(av) == av[0]);
                }
            } else {
                assert(s@ =~= s0 + seq![' '] + tail[0]);
                if tail.len() > 1 {
                    assert(join_spaced(tail) == tail[0] + seq![' '] + join_spaced(
                        tail.drop_first(),
                    ));
                    assert(join_spaced(av) =~= s@ + seq![' '] + join_spaced(
                        av.skip(i + 1 as int),
                    ));
                } else {
                    assert(join_spaced(tail) == tail[0]);
                    assert(join_spaced(av) =~= s@);
                }
            }
        }
        i += 1;
    }
    Some(s)
}

/// What dispatching the `change` command family decides, before any remote
/// call is made.
pub enum ChangeDecision {
    /// Finished locally: either enter the change mode (no arguments) or do
    /// nothing further (`exit`).
    Act(CmdAction),
    /// Fetch and display one change, given the remaining arguments.
    Show(Vec<String>),
    /// Run a search query, given the remaining arguments.
    Query(Vec<String>),
    /// Print this family's help text.
    Help,
    /// The subcommand word is not known here.
    Invalid,
}

/// Copies every argument after the first.
pub(crate) fn rest_args(args: &Vec<String>) -> (r: Vec<String>)
    requires
        args@.len() > 0,
    ensures
        r.deep_view() == args.deep_view().skip(1),
{
    let ghost av = args.deep_view();
    let n = args.len();
    let mut r: Vec<String> = Vec::new();
    let mut i: usize = 1;
    proof {
        assert(av.len() == args@.len());
        assert(r.deep_view() =~= Seq::<Seq<char>>::empty());
    }
    while i < n
        invariant
            1 <= i <= n,
            n == args@.len(),
            av == args.deep_view(),
            r.deep_view() == av.subrange(1, i as int),
        decreases n - i,
    {
        let ghost r0 = r.deep_view();
        r.push(args[i].clone());
        proof {
            assert(av[i as int] == args@[i as int]@);
            assert(r.deep_view() =~= r0.push(av[i as int]));
            assert(av.subrange(1, i + 1 as int) =~= av.subrange(1, i as int).push(av[i as int]));
        }
        i += 1;
    }
    proof {
        assert(av.subrange(1, n as int) =~= av.skip(1));
    }
    r
}

/// Decides what the `change` command does with its arguments: no arguments
/// enter the change mode, `show` and `query` name a remote task, `help` (or
/// `?`) prints help, `exit` finishes quietly, anything else is invalid.
pub fn run_command(args: &Vec<String>) -> (d: ChangeDecision)
    ensures
        ({
            let a = args.deep_view();
            match d {
                ChangeDecision::Act(act) => match act {
                    CmdAction::EnterMode(m) => a.len() == 0 && m@ == "gerrit change"@,
                    CmdAction::Done => a.len() > 0 && a[0] == "exit"@,
                },
                ChangeDecision::Show(rest) => a.len() > 0 && a[0] == "show"@ && rest.deep_view()
                    == a.skip(1),
                ChangeDecision::Query(rest) => a.len() > 0 && a[0] == "query"@ && rest.deep_view()
                    == a.skip(1),
                ChangeDecision::Help => a.len() > 0 && (a[0] == "help"@ || a[0] == "?"@),
                ChangeDecision::Invalid => a.len() > 0 && a[0] != "show"@ && a[0] != "query"@
                    && a[0] != "help"@ && a[0] != "?"@ && a[0] != "exit"@,
            }
        }),
{
    let ghost av = args.deep_view();
    proof {
        assert(av.len() == args@.len());
    }
    if args.len() == 0 {
        return ChangeDecision::Act(CmdAction::EnterMode(String::from_str("gerrit change")));
    }
    proof {
        assert(av[0] == args@[0]@);
    }
    let cmd = args[0].as_str();
    if str_eq(cmd, "show") {
        ChangeDecision::Show(rest_args(args))
    } else if str_eq(cmd, "query") {
        ChangeDecision::Query(rest_args(args))
    } else if str_eq(cmd, "help") || str_eq(cmd, "?") {
        ChangeDecision::Help
    } else if str_eq(cmd, "exit") {
        ChangeDecision::Act(CmdAction::Done)
    } else {
        ChangeDecision::Invalid
    }
}


/// The character of one decimal digit value.
pub open spec fn digit_char(d: int) -> char {
    if d == 0 {
        '0'
    } else if d == 1 {
        '1'
    } else if d == 2 {
        '2'
    } else if d == 3 {
        '3'
    } else if d == 4 {
        '4'
    } else if d == 5 {
        '5'
    } else if d == 6 {
        '6'
    } else if d == 7 {
        '7'
    } else if d == 8 {
        '8'
    } else {
        '9'
    }
}

/// The decimal rendering of a number, most significant digit first.
pub open spec fn dec_str(n: int) -> Seq<char>
    decreases n,
{
    if n < 10 {
        seq![digit_char(n)]
    } else {
        dec_str(n / 10).push(digit_char(n % 10))
    }
}

/// Renders a number in decimal.
pub fn u64_to_dec(n: u64) -> (s: String)
    ensures
        s@ == dec_str(n as int),
    decreases n,
{
    if n < 10 {
        let mut s = String::new();
        let c: char = match n {
            0 => '0',
            1 => '1',
            2 => '2',
            3 => '3',
            4 => '4',
            5 => '5',
            6 => '6',
            7 => '7',
            8 => '8',
            _ => '9',
        };
        s.push(c);
        proof {
            assert(s@ =~= seq![digit_char(n as int)]);
        }
        s
    } else {
        let mut s = u64_to_dec(n / 10);
        let d = n % 10;
        let c: char = match d {
            0 => '0',
            1 => '1',
            2 => '2',
            3 => '3',
            4 => '4',
            5 => '5',
            6 => '6',
            7 => '7',
            8 => '8',
            _ => '9',
        };
        s.push(c);
        proof {
            assert(d == n as int % 10);
            assert(s@ =~= dec_str(n as int / 10).push(digit_char(n as int % 10)));
        }
        s
    }
}

/// One row of the query listing, segment by segment so that the caller can
/// style each part: the list position, the change number, the status padded
/// to its column, and the subject.
pub struct ChangeRow {
    pub index_text: String,
    pub number_text: String,
    pub status_text: String,
    pub subject: String,
}

/// Renders one fetched change as a listing row.
pub fn change_row(position: u64, number: u64, status: &String, subject: &String) -> (r: ChangeRow)
    ensures
        r.index_text@ == dec_str(position as int),
        r.number_text@ == dec_str(number as int),
        r.status_text@ == pad_min(status@, 3),
        r.subject@ == subject@,
{
    ChangeRow {
        index_text: u64_to_dec(position),
        number_text: u64_to_dec(number),
        status_text: crate::commands::pad_right(status, 3),
        subject: subject.clone(),
    }
}

/// A segment of a commit message with any trailing carriage return removed.
pub open spec fn strip_cr(s: Seq<char>) -> Seq<char> {
    if s.len() > 0 && s.last() == '\r' {
        s.drop_last()
    } else {
        s
    }
}

/// The lines of a message, scanning from position `i` with the current line
/// starting at `start`: every newline closes a line, and a final segment is
/// kept only when it is not empty.
pub open spec fn scan_lines(s: Seq<char>, i: int, start: int, acc: Seq<Seq<char>>) -> Seq<
    Seq<char>,
>
    decreases s.len() - i,
{
    if i < 0 || i >= s.len() {
        if i > start {
            acc.push(strip_cr(s.subrange(start, i)))
        } else {
            acc
        }
    } else if s[i] == '\n' {
        scan_lines(s, i + 1, i + 1, acc.push(strip_cr(s.subrange(start, i))))
    } else {
        scan_lines(s, i + 1, start, acc)
    }
}

/// The lines of a commit message, split at newlines, each without a trailing
/// carriage return; a trailing newline adds no empty line.
pub open spec fn message_lines_of(s: Seq<char>) -> Seq<Seq<char>> {
    scan_lines(s, 0, 0, Seq::empty())
}

/// Splits a commit message into its lines for indented display.
pub fn message_lines(msg: &String) -> (r: Vec<String>)
    ensures
        r.deep_view() == message_lines_of(msg@),
{
    let v = chars_of_str(msg.as_str());
    let n = v.len();
    let mut r: Vec<String> = Vec::new();
    let mut start: usize = 0;
    let mut i: usize = 0;
    proof {
        assert(r.deep_view() =~= Seq::<Seq<char>>::empty());
    }
    while i < n
        invariant
            start <= i <= n,
            n == v@.len(),
            v@ == msg@,
            message_lines_of(msg@) == scan_lines(v@, i as int, start as int, r.deep_view()),
        decreases n - i,
    {
        if v[i] == '\n' {
            let line = segment(&v, start, i);
            let ghost r0 = r.deep_view();
            r.push(line);
            proof {
                assert(r.deep_view() =~= r0.push(strip_cr(v@.subrange(start as int, i as int))));
            }
            start = i + 1;
        }
        i += 1;
    }
    if start < n {
        let line = segment(&v, start, n);
        let ghost r0 = r.deep_view();
        r.push(line);
        proof {
            assert(r.deep_view() =~= r0.push(strip_cr(v@.subrange(start as int, n as int))));
        }
    }
    r
}

/// Copies `v[start..end]` as a string, dropping a trailing carriage return.
fn segment(v: &Vec<char>, start: usize, end: usize) -> (r: String)
    requires
        start <= end <= v@.len(),
    ensures
        r@ == strip_cr(v@.subrange(start as int, end as int)),
{
    let mut stop = end;
    if end > start && v[end - 1] == '\r' {
        stop = end - 1;
        proof {
            assert(v@.subrange(start as int, end as int).last() == v@[end - 1]);
            assert(v@.subrange(start as int, end as int).drop_last() =~= v@.subrange(
                start as int,
                stop as int,
            ));
        }
    } else {
        proof {
            if end > start {
                assert(v@.subrange(start as int, end as int).last() == v@[end - 1]);
            }
        }
    }
    let t = crate::editor::token_text(v, start, stop - start);
    proof {
        assert(v@.subrange(start as int, start as int + (stop - start) as int) == v@.subrange(
            start as int,
            stop as int,
        ));
    }
    t
}

} // verus!
