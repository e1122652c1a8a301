//! Planned terminal output.
//!
//! The prompt engine never writes to the terminal itself: every key event
//! yields a list of [`RenderCmd`] drawing steps that the caller executes. The
//! scroll-safe newline is planned here as arithmetic over the cursor row and
//! the terminal height, since a raw-mode terminal does not scroll by itself.

use vstd::prelude::*;
use vstd::string::StringExecFns;

verus! {

/// One terminal drawing step planned by the prompt engine.
pub enum RenderCmd {
    /// Print text at the cursor.
    Text(String),
    /// Redraw the prompt, prefix then symbol, on a fresh line at column 0.
    Prompt { prefix: String, symbol: String },
    /// Move the cursor left this many columns and clear to the end of line.
    EraseBack(usize),
    /// Clear the single line below the cursor and return to the cursor.
    ClearLineBelow,
    /// Show a line of text below the cursor and return to the cursor.
    LineBelow(String),
    /// Advance one line scroll-safely and clear the new line.
    FreshLine,
    /// Advance one line scroll-safely.
    AdvanceLine,
    /// Move to column 0 of the current line.
    CursorToStart,
    /// Scroll the viewport up by the cursor row, clearing the screen above.
    ClearAbove,
}

/// The mathematical mirror of a [`RenderCmd`], over character sequences.
pub enum RenderStep {
    Text(Seq<char>),
    Prompt { prefix: Seq<char>, symbol: Seq<char> },
    EraseBack(int),
    ClearLineBelow,
    LineBelow(Seq<char>),
    FreshLine,
    AdvanceLine,
    CursorToStart,
    ClearAbove,
}

/// What one drawing step means.
pub open spec fn step_of(c: RenderCmd) -> RenderStep {
    match c {
        RenderCmd::Text(s) => RenderStep::Text(s@),
        RenderCmd::Prompt { prefix, symbol } => RenderStep::Prompt {
            prefix: prefix@,
            symbol: symbol@,
        },
        RenderCmd::EraseBack(n) => RenderStep::EraseBack(n as int),
        RenderCmd::ClearLineBelow => RenderStep::ClearLineBelow,
        RenderCmd::LineBelow(s) => RenderStep::LineBelow(s@),
        RenderCmd::FreshLine => RenderStep::FreshLine,
        RenderCmd::AdvanceLine => RenderStep::AdvanceLine,
        RenderCmd::CursorToStart => RenderStep::CursorToStart,
        RenderCmd::ClearAbove => RenderStep::ClearAbove,
    }
}

/// What a planned list of drawing steps means.
pub open spec fn steps_of(cs: Seq<RenderCmd>) -> Seq<RenderStep> {
    cs.map_values(|c: RenderCmd| step_of(c))
}

/// The scroll-safe newline of this shell. Moving down `n` lines from the last
/// visible row must first scroll the viewport up, because a raw-mode terminal
/// does not scroll on its own; anywhere else it is an ordinary move to the
/// start of a following line.
pub struct SmartNewLine(pub u16);

/// The motions that realize one scroll-safe newline.
pub struct NewLinePlan {
    /// How far the viewport scrolls up (and the cursor moves up) first.
    pub scroll_up: u16,
    /// The cursor row after the whole motion.
    pub final_row: u16,
}

impl SmartNewLine {
    /// Plans the newline against the current cursor row and terminal height,
    /// read fresh by the caller at the moment of drawing.
    ///
    /// The resulting row is `min(cursor_row + n, term_rows - 1)`, and exactly
    /// a newline from the last visible row scrolls the viewport, by `n`.
    pub fn plan(&self, cursor_row: u16, term_rows: u16) -> (p: NewLinePlan)
        requires
            term_rows >= 1,
            cursor_row < term_rows,
        ensures
            p.scroll_up == if cursor_row == term_rows - 1 {
                self.0
            } else {
                0u16
            },
            p.final_row as int == vstd::math::min(
                cursor_row as int + self.0 as int,
                term_rows as int - 1,
            ),
    {
        let max_row = term_rows - 1;
        let scroll = if cursor_row == max_row {
            self.0
        } else {
            0
        };
        let sum = cursor_row as u32 + self.0 as u32;
        let fr = if sum > max_row as u32 {
            max_row
        } else {
            sum as u16
        };
        NewLinePlan { scroll_up: scroll, final_row: fr }
    }
}

/// A suggestion list as one line of text: every word followed by two spaces.
pub open spec fn completion_line_view(words: Seq<Seq<char>>) -> Seq<char>
    decreases words.len(),
{
    if words.len() == 0 {
        Seq::empty()
    } else {
        words[0] + seq![' ', ' '] + completion_line_view(words.drop_first())
    }
}

/// Builds the suggestion line for a list of candidate words.
pub fn completion_line(words: &Vec<String>) -> (r: String)
    ensures
        r@ == completion_line_view(words.deep_view()),
{
    let mut r = String::new();
    let n = words.len();
    let mut i: usize = 0;
    proof {
        assert(words.deep_view().skip(0) =~= words.deep_view());
        assert(words.deep_view().len() == words@.len());
    }
    while i < n
        invariant
            i <= n,
            n == words@.len(),
            n == words.deep_view().len(),
            completion_line_view(words.deep_view()) == r@ + completion_line_view(
                words.deep_view().skip(i as int),
            ),
        decreases n - i,
    {
        let ghost tail = words.deep_view().skip(i as int);
        let ghost r0 = r@;
        proof {
            assert(tail[0] == words.deep_view()[i as int]);
            assert(words.deep_view()[i as int] == words@[i as int]@);
            assert(tail.drop_first() =~= words.deep_view().skip(i + 1 as int));
        }
        r.append(words[i].as_str());
        r.append("  ");
        proof {
            reveal_strlit("  ");
            assert("  "@ =~= seq![' ', ' ']);
            assert(r@ =~= r0 + tail[0] + seq![' ', ' ']);
            assert(r0 + completion_line_view(tail) =~= r@ + completion_line_view(
                words.deep_view().skip(i + 1 as int),
            ));
        }
        i += 1;
    }
    proof {
        assert(words.deep_view().skip(n as int) =~= Seq::<Seq<char>>::empty());
        assert(r@ + completion_line_view(words.deep_view().skip(n as int)) =~= r@);
    }
    r
}

/// The complaint printed for a word that matches nothing, or that matches
/// several entries although it was already finished with a space.
pub fn invalid_input_line(word: &String) -> (r: String)
    ensures
        r@ == "x Invalid input: "@ + word@,
{
    let mut r = String::from_str("x Invalid input: ");
    r.append(word.as_str());
    r
}

/// The complaint printed when a required positional argument never arrived.
pub fn missing_argument_line() -> (r: String)
    ensures
        r@ == "Missing argument"@,
{
    String::from_str("Missing argument")
}

} // verus!
