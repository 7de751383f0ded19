//! Line parser: one line of the multiplexer's session listing, with the
//! grammar `name: N windows (created <timestamp>) ...`, becomes a structured
//! session record or a typed grammar-violation error.

use vstd::prelude::*;

use crate::digits::{decimal_seq, digits_val, is_dec_digits, is_digit};

verus! {

/// Mathematical view of one parsed session record.
pub struct SessionView {
    pub name: Seq<char>,
    pub num_windows: u32,
    pub date_created: Seq<char>,
}

impl SessionView {
    /// A record's name is non-empty and never contains the field delimiter.
    pub open spec fn wf(self) -> bool {
        self.name.len() > 0 && forall|i: int| 0 <= i < self.name.len() ==> self.name[i] != ':'
    }
}

/// Why a listing line violates the grammar.
#[derive(Clone, Copy, Debug, PartialEq, Eq, Structural)]
pub enum ParseError {
    /// No `:` before the end of the line.
    MissingColon,
    /// Nothing stands before the `:`.
    EmptyName,
    /// The window-count token is not a decimal numeral that fits in `u32`.
    BadWindowCount,
    /// No `(` after the window count.
    MissingOpenParen,
    /// The line ends before the timestamp is delimited and closed by `)`.
    UnclosedTimestamp,
}

/// Position of the first occurrence of `c` in `s` at or after `start`.
pub open spec fn find_from(s: Seq<char>, start: int, c: char) -> Option<int>
    decreases s.len() - start,
{
    if start < 0 || start >= s.len() {
        None
    } else if s[start] == c {
        Some(start)
    } else {
        find_from(s, start + 1, c)
    }
}

proof fn lemma_find_from_found(s: Seq<char>, start: int, i: int, c: char)
    requires
        0 <= start <= i < s.len(),
        s[i] == c,
        forall|j: int| start <= j < i ==> s[j] != c,
    ensures
        find_from(s, start, c) == Some(i),
    decreases i - start,
{
    if start < i {
        lemma_find_from_found(s, start + 1, i, c);
    }
}

proof fn lemma_find_from_none(s: Seq<char>, start: int, c: char)
    requires
        forall|j: int| start <= j < s.len() ==> s[j] != c,
    ensures
        find_from(s, start, c) is None,
    decreases s.len() - start,
{
    if 0 <= start < s.len() {
        lemma_find_from_none(s, start + 1, c);
    }
}

/// What parsing one listing line yields: walk to the first `:` for the name,
/// skip one delimiter character, read the space-terminated decimal
/// window-count token, skip to the first `(` and past the word after it, and
/// take the characters up to the next `)` as the timestamp; anything after
/// that is ignored.
pub open spec fn parse_line_spec(s: Seq<char>) -> Result<SessionView, ParseError> {
    match find_from(s, 0, ':') {
        Option::None => Result::Err(ParseError::MissingColon),
        Option::Some(cp) => if cp == 0 {
            Result::Err(ParseError::EmptyName)
        } else if cp + 2 > s.len() {
            Result::Err(ParseError::BadWindowCount)
        } else {
            let tok_start = cp + 2;
            let tok_end = match find_from(s, tok_start, ' ') {
                Option::Some(j) => j,
                Option::None => s.len() as int,
            };
            let tok = s.subrange(tok_start, tok_end);
            if !(is_dec_digits(tok) && digits_val(tok) <= u32::MAX as nat) {
                Result::Err(ParseError::BadWindowCount)
            } else {
                match find_from(s, tok_end, '(') {
                    Option::None => Result::Err(ParseError::MissingOpenParen),
                    Option::Some(op) => match find_from(s, op + 1, ' ') {
                        Option::None => Result::Err(ParseError::UnclosedTimestamp),
                        Option::Some(sp) => match find_from(s, sp + 1, ')') {
                            Option::None => Result::Err(ParseError::UnclosedTimestamp),
                            Option::Some(cl) => Result::Ok(
                                SessionView {
                                    name: s.subrange(0, cp),
                                    num_windows: digits_val(tok) as u32,
                                    date_created: s.subrange(sp + 1, cl),
                                },
                            ),
                        },
                    },
                }
            }
        },
    }
}

/// The literal text ` windows (created ` standing between the window count
/// and the timestamp of a well-formed listing line.
pub open spec fn windows_created_infix() -> Seq<char> {
    seq![' ', 'w', 'i', 'n', 'd', 'o', 'w', 's', ' ', '(', 'c', 'r', 'e', 'a', 't', 'e', 'd', ' ']
}

/// A listing line assembled from its fields: the name, the canonical decimal
/// window count, the parenthesized timestamp introduced by the word
/// `created`, and arbitrary trailing text.
pub open spec fn well_formed_line(
    name: Seq<char>,
    num_windows: u32,
    ts: Seq<char>,
    trailing: Seq<char>,
) -> Seq<char> {
    name + seq![':', ' '] + decimal_seq(num_windows as nat) + windows_created_infix() + ts + seq![
        ')',
    ] + trailing
}

/// Parsing recovers the fields of every well-formed line exactly: whatever
/// the trailing text, a line assembled from a non-empty name without `:`, a
/// window count, and a timestamp without `)` parses to precisely that name,
/// count and timestamp.
pub proof fn lemma_parse_well_formed(name: Seq<char>, num_windows: u32, ts: Seq<char>, trailing: Seq<char>)
    requires
        name.len() > 0,
        forall|i: int| 0 <= i < name.len() ==> name[i] != ':',
        forall|i: int| 0 <= i < ts.len() ==> ts[i] != ')',
    ensures
        parse_line_spec(well_formed_line(name, num_windows, ts, trailing)) == Result::Ok::<
            SessionView,
            ParseError,
        >(SessionView { name, num_windows, date_created: ts }),
{
    let s = well_formed_line(name, num_windows, ts, trailing);
    let d = decimal_seq(num_windows as nat);
    let l = name.len() as int;
    let dl = d.len() as int;
    let t0 = l + 2 + dl + 18;
    let tl = ts.len() as int;
    crate::digits::lemma_decimal_seq_digits(num_windows as nat);
    crate::digits::lemma_decimal_val(num_windows as nat);
    assert(s.len() == l + 2 + dl + 18 + tl + 1 + trailing.len());

    // The name runs to the colon at position `l`.
    assert(s[l] == ':');
    assert forall|j: int| 0 <= j < l implies s[j] != ':' by {
        assert(s[j] == name[j]);
    }
    lemma_find_from_found(s, 0, l, ':');
    assert(s.subrange(0, l) =~= name);

    // The count token is exactly the decimal text, ended by the space at
    // `l + 2 + dl`.
    assert forall|j: int| l + 2 <= j < l + 2 + dl implies s[j] != ' ' by {
        assert(s[j] == d[j - (l + 2)]);
        assert(is_digit(d[j - (l + 2)]));
        assert(' ' as int == 32);
    }
    assert(s[l + 2 + dl] == ' ');
    lemma_find_from_found(s, l + 2, l + 2 + dl, ' ');
    assert(s.subrange(l + 2, l + 2 + dl) =~= d);

    // The first `(` after the token opens the timestamp group.
    assert forall|j: int| l + 2 + dl <= j < l + 2 + dl + 9 implies s[j] != '(' by {
        assert(s[j] == windows_created_infix()[j - (l + 2 + dl)]);
    }
    assert(s[l + 2 + dl + 9] == '(');
    lemma_find_from_found(s, l + 2 + dl, l + 2 + dl + 9, '(');

    // The word after the `(` ends at the space before the timestamp.
    assert forall|j: int| l + 2 + dl + 10 <= j < l + 2 + dl + 17 implies s[j] != ' ' by {
        assert(s[j] == windows_created_infix()[j - (l + 2 + dl)]);
    }
    assert(s[l + 2 + dl + 17] == ' ');
    lemma_find_from_found(s, l + 2 + dl + 10, l + 2 + dl + 17, ' ');

    // The timestamp runs to the closing `)`.
    assert forall|j: int| t0 <= j < t0 + tl implies s[j] != ')' by {
        assert(s[j] == ts[j - t0]);
    }
    assert(s[t0 + tl] == ')');
    lemma_find_from_found(s, t0, t0 + tl, ')');
    assert(s.subrange(t0, t0 + tl) =~= ts);
}

/// Parsing is injective: two well-formed lines whose name, window count or
/// timestamp differ parse to different records.
pub proof fn lemma_parse_injective(
    name1: Seq<char>,
    num_windows1: u32,
    ts1: Seq<char>,
    trailing1: Seq<char>,
    name2: Seq<char>,
    num_windows2: u32,
    ts2: Seq<char>,
    trailing2: Seq<char>,
)
    requires
        name1.len() > 0,
        forall|i: int| 0 <= i < name1.len() ==> name1[i] != ':',
        forall|i: int| 0 <= i < ts1.len() ==> ts1[i] != ')',
        name2.len() > 0,
        forall|i: int| 0 <= i < name2.len() ==> name2[i] != ':',
        forall|i: int| 0 <= i < ts2.len() ==> ts2[i] != ')',
        name1 != name2 || num_windows1 != num_windows2 || ts1 != ts2,
    ensures
        parse_line_spec(well_formed_line(name1, num_windows1, ts1, trailing1))
            != parse_line_spec(well_formed_line(name2, num_windows2, ts2, trailing2)),
{
    lemma_parse_well_formed(name1, num_windows1, ts1, trailing1);
    lemma_parse_well_formed(name2, num_windows2, ts2, trailing2);
}

/// One session of the multiplexer's listing: its name, how many windows it
/// has open, and the human-readable creation timestamp (opaque text).
#[derive(Debug)]
pub struct TmuxSession {
    pub name: String,
    pub num_windows: u32,
    pub date_created: String,
}

impl View for TmuxSession {
    type V = SessionView;

    open spec fn view(&self) -> SessionView {
        SessionView {
            name: self.name@,
            num_windows: self.num_windows,
            date_created: self.date_created@,
        }
    }
}

/// First occurrence of `c` in `s` at or after `start`, by a linear walk.
fn find_char(s: &str, start: usize, c: char) -> (r: Option<usize>)
    ensures
        match r {
            Option::Some(i) => {
                &&& find_from(s@, start as int, c) == Some(i as int)
                &&& start <= i < s@.len()
                &&& s@[i as int] == c
                &&& forall|j: int| start <= j < i ==> s@[j] != c
            },
            Option::None => find_from(s@, start as int, c) is None,
        },
{
    let n = s.unicode_len();
    let mut i = start;
    while i < n
        invariant
            start <= i,
            n == s@.len(),
            forall|j: int| start <= j < i ==> s@[j] != c,
        decreases n - i,
    {
        if s.get_char(i) == c {
            proof {
                lemma_find_from_found(s@, start as int, i as int, c);
            }
            return Some(i);
        }
        i = i + 1;
    }
    proof {
        lemma_find_from_none(s@, start as int, c);
    }
    None
}

/// Read `s[from..to]` as a decimal `u32`; `None` if the range is empty,
/// holds a non-digit, or its value does not fit.
fn parse_u32_digits(s: &str, from: usize, to: usize) -> (r: Option<u32>)
    requires
        from <= to <= s@.len(),
    ensures
        ({
            let tok = s@.subrange(from as int, to as int);
            match r {
                Option::Some(v) => {
                    &&& is_dec_digits(tok)
                    &&& digits_val(tok) <= u32::MAX as nat
                    &&& v as nat == digits_val(tok)
                },
                Option::None => !(is_dec_digits(tok) && digits_val(tok) <= u32::MAX as nat),
            }
        }),
{
    let ghost tok = s@.subrange(from as int, to as int);
    if from == to {
        return None;
    }
    let mut i = from;
    let mut val: u32 = 0;
    while i < to
        invariant
            from <= i <= to <= s@.len(),
            tok == s@.subrange(from as int, to as int),
            forall|j: int| from <= j < i ==> is_digit(#[trigger] s@[j]),
            val as nat == digits_val(s@.subrange(from as int, i as int)),
        decreases to - i,
    {
        let c = s.get_char(i);
        let cv = c as u32;
        if !(48 <= cv && cv <= 57) {
            proof {
                assert(tok[i - from] == s@[i as int]);
                assert(!is_digit(tok[i - from]));
            }
            return None;
        }
        let d = cv - 48;
        proof {
            assert(s@.subrange(from as int, i + 1).drop_last() =~= s@.subrange(
                from as int,
                i as int,
            ));
            assert(s@.subrange(from as int, i + 1).last() == s@[i as int]);
        }
        if val > (u32::MAX - d) / 10 {
            proof {
                assert(val as nat * 10 + d as nat > u32::MAX as nat) by (nonlinear_arith)
                    requires
                        val > (u32::MAX - d) / 10,
                        d < 10,
                ;
                assert(digits_val(s@.subrange(from as int, i + 1)) > u32::MAX as nat);
                assert(s@.subrange(from as int, i + 1) =~= tok.take(i + 1 - from));
                crate::digits::lemma_digits_val_extend_ge(tok, i + 1 - from);
            }
            return None;
        }
        proof {
            assert(val <= (u32::MAX - d) / 10 ==> val * 10 <= u32::MAX - d) by (nonlinear_arith);
        }
        val = val * 10 + d;
        i = i + 1;
    }
    proof {
        assert(s@.subrange(from as int, to as int) =~= tok);
        assert(forall|j: int| 0 <= j < tok.len() ==> is_digit(#[trigger] tok[j]));
    }
    Some(val)
}

impl TmuxSession {
    /// Parse one listing line into a session record.
    ///
    /// The grammar is positional: the name runs to the first `:`, one
    /// delimiter character is skipped, the window count runs to the next
    /// space, the timestamp is the text between the word after the first `(`
    /// and the next `)`. A line that breaks the grammar yields the matching
    /// `ParseError` instead of a record.
    pub fn new(tmux_line: &str) -> (r: Result<TmuxSession, ParseError>)
        ensures
            match r {
                Result::Ok(sess) => parse_line_spec(tmux_line@) == Result::Ok::<
                    SessionView,
                    ParseError,
                >(sess@) && sess@.wf(),
                Result::Err(e) => parse_line_spec(tmux_line@) == Result::Err::<
                    SessionView,
                    ParseError,
                >(e),
            },
    {
        let n = tmux_line.unicode_len();
        let cp = match find_char(tmux_line, 0, ':') {
            None => {
                return Err(ParseError::MissingColon);
            },
            Some(i) => i,
        };
        if cp == 0 {
            return Err(ParseError::EmptyName);
        }
        if n - cp < 2 {
            return Err(ParseError::BadWindowCount);
        }
        let name = tmux_line.substring_char(0, cp).to_owned();
        let tok_start = cp + 2;
        let tok_end = match find_char(tmux_line, tok_start, ' ') {
            None => n,
            Some(j) => j,
        };
        let num_windows = match parse_u32_digits(tmux_line, tok_start, tok_end) {
            None => {
                return Err(ParseError::BadWindowCount);
            },
            Some(v) => v,
        };
        let op = match find_char(tmux_line, tok_end, '(') {
            None => {
                return Err(ParseError::MissingOpenParen);
            },
            Some(i) => i,
        };
        let sp = match find_char(tmux_line, op + 1, ' ') {
            None => {
                return Err(ParseError::UnclosedTimestamp);
            },
            Some(i) => i,
        };
        let cl = match find_char(tmux_line, sp + 1, ')') {
            None => {
                return Err(ParseError::UnclosedTimestamp);
            },
            Some(i) => i,
        };
        let date_created = tmux_line.substring_char(sp + 1, cl).to_owned();
        let sess = TmuxSession { name, num_windows, date_created };
        proof {
            assert(sess@.name =~= tmux_line@.subrange(0, cp as int));
            assert(sess@.date_created =~= tmux_line@.subrange(sp + 1, cl as int));
        }
        Ok(sess)
    }
}

} // verus!
