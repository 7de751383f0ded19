//! Table renderer: fixed-width, ANSI-styled text lines for a header and one
//! row per session record, in input order.

use vstd::prelude::*;

use crate::digits::{decimal_seq, decimal_string};
use crate::session::{SessionView, TmuxSession};

verus! {

/// Width of the name column, separator glyph included.
pub const NAME_COLUMN_WIDTH: usize = 13;

/// Width of the window-count column, separator glyph included.
pub const WINDOWS_OPEN_COLUMN_WIDTH: usize = 14;

/// ANSI sequence that starts bold green styling.
pub open spec fn bold_green() -> Seq<char> {
    "\x1b[1;32m"@
}

/// ANSI sequence that starts bold white styling.
pub open spec fn bold_white() -> Seq<char> {
    "\x1b[1;37m"@
}

/// ANSI sequence that resets styling.
pub open spec fn style_reset() -> Seq<char> {
    "\x1b[0m"@
}

/// `n` space characters.
pub open spec fn spaces(n: nat) -> Seq<char>
    decreases n,
{
    if n == 0 {
        Seq::empty()
    } else {
        spaces((n - 1) as nat) + seq![' ']
    }
}

/// `s` padded with trailing spaces to `width` characters. A field already at
/// or beyond the width is kept whole: the column widens rather than
/// truncating or failing.
pub open spec fn pad_right(s: Seq<char>, width: nat) -> Seq<char> {
    if s.len() >= width {
        s
    } else {
        s + spaces((width - s.len()) as nat)
    }
}

/// The text of one data row: each field padded to its column (the date at
/// natural length), separated by `|`, every segment styled bold white.
pub open spec fn row_text(v: SessionView) -> Seq<char> {
    " "@ + bold_white() + pad_right(v.name, (NAME_COLUMN_WIDTH - 1) as nat) + "|"@ + style_reset()
        + " "@ + bold_white() + pad_right(
        decimal_seq(v.num_windows as nat),
        (WINDOWS_OPEN_COLUMN_WIDTH - 1) as nat,
    ) + "|"@ + style_reset() + " "@ + bold_white() + v.date_created + style_reset()
}

/// The text of the header row: the literal column labels, aligned as the
/// data columns are, styled bold green with bold-white separators.
pub open spec fn header_text() -> Seq<char> {
    " \x1b[1;32mName        \x1b[0m\x1b[1;37m|\x1b[0m \x1b[1;32mWindows Open \x1b[0m\x1b[1;37m|\x1b[0m \x1b[1;32mDate Created\x1b[0m"@
}

/// The text of the horizontal rule under the header.
pub open spec fn rule_text() -> Seq<char> {
    "\x1b[1;37m---------------------------------------------------------"@
}

/// Append trailing spaces to `s` until it is `width` characters long.
fn pad_to(s: String, width: usize) -> (r: String)
    ensures
        r@ == pad_right(s@, width as nat),
{
    let n = s.as_str().unicode_len();
    let ghost s0 = s@;
    let mut r = s;
    if n >= width {
        return r;
    }
    let mut i = n;
    while i < width
        invariant
            n <= i <= width,
            n == s0.len(),
            r@ == s0 + spaces((i - n) as nat),
        decreases width - i,
    {
        r.append(" ");
        proof {
            reveal_strlit(" ");
            assert(" "@ =~= seq![' ']);
            assert(r@ =~= s0 + spaces((i + 1 - n) as nat));
        }
        i = i + 1;
    }
    r
}

impl TmuxSession {
    /// The styled table row for this session, exactly `row_text` of its view.
    pub fn render_row(&self) -> (r: String)
        ensures
            r@ == row_text(self@),
    {
        let mut r = String::from_str(" ");
        r.append("\x1b[1;37m");
        let name_field = pad_to(self.name.clone(), NAME_COLUMN_WIDTH - 1);
        r.append(name_field.as_str());
        r.append("|");
        r.append("\x1b[0m");
        r.append(" ");
        r.append("\x1b[1;37m");
        let windows_field = pad_to(decimal_string(self.num_windows), WINDOWS_OPEN_COLUMN_WIDTH - 1);
        r.append(windows_field.as_str());
        r.append("|");
        r.append("\x1b[0m");
        r.append(" ");
        r.append("\x1b[1;37m");
        r.append(self.date_created.as_str());
        r.append("\x1b[0m");
        proof {
            assert(r@ =~= row_text(self@));
        }
        r
    }
}

/// The header row, exactly `header_text`.
pub fn header_row() -> (r: String)
    ensures
        r@ == header_text(),
{
    String::from_str(
        " \x1b[1;32mName        \x1b[0m\x1b[1;37m|\x1b[0m \x1b[1;32mWindows Open \x1b[0m\x1b[1;37m|\x1b[0m \x1b[1;32mDate Created\x1b[0m",
    )
}

/// The horizontal rule line, exactly `rule_text`.
pub fn rule_row() -> (r: String)
    ensures
        r@ == rule_text(),
{
    String::from_str("\x1b[1;37m---------------------------------------------------------")
}

/// The whole table: header, rule, then one row per record in input order —
/// no reordering, filtering or aggregation. An empty input yields exactly
/// the header and the rule.
pub fn render_table(sessions: &Vec<TmuxSession>) -> (r: Vec<String>)
    ensures
        r@.len() == sessions@.len() + 2,
        r@[0]@ == header_text(),
        r@[1]@ == rule_text(),
        forall|i: int| 0 <= i < sessions@.len() ==> r@[i + 2]@ == row_text(sessions@[i]@),
{
    let mut r: Vec<String> = Vec::new();
    r.push(header_row());
    r.push(rule_row());
    let mut idx: usize = 0;
    while idx < sessions.len()
        invariant
            idx <= sessions@.len(),
            r@.len() == idx + 2,
            r@[0]@ == header_text(),
            r@[1]@ == rule_text(),
            forall|i: int| 0 <= i < idx ==> r@[i + 2]@ == row_text(sessions@[i]@),
        decreases sessions@.len() - idx,
    {
        r.push(sessions[idx].render_row());
        idx = idx + 1;
    }
    r
}

} // verus!
