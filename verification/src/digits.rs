//! Decimal digit text: the mathematical reading of digit sequences and the
//! verified conversions between `u32` values and their decimal text, used by
//! both the line parser and the table renderer.

use vstd::prelude::*;

verus! {

/// A decimal digit character, `'0'` through `'9'`.
pub open spec fn is_digit(c: char) -> bool {
    48 <= c as int <= 57
}

/// Numeric value of one digit character.
pub open spec fn digit_val(c: char) -> nat
    recommends
        is_digit(c),
{
    (c as int - 48) as nat
}

/// A non-empty sequence consisting only of decimal digit characters.
pub open spec fn is_dec_digits(s: Seq<char>) -> bool {
    s.len() > 0 && forall|i: int| 0 <= i < s.len() ==> is_digit(#[trigger] s[i])
}

/// Value of a digit sequence read as a base-10 numeral (most significant
/// digit first; leading zeros are allowed and do not change the value).
pub open spec fn digits_val(s: Seq<char>) -> nat
    decreases s.len(),
{
    if s.len() == 0 {
        0
    } else {
        digits_val(s.drop_last()) * 10 + digit_val(s.last())
    }
}

/// The digit character for a value below ten.
pub open spec fn digit_char(d: nat) -> char
    recommends
        d < 10,
{
    if d == 0 {
        '0'
    } else if d == 1 {
        '1'
    } else if d == 2 {
        '2'
    } else if d == 3 {
        '3'
    } else if d == 4 {
        '4'
    } else if d == 5 {
        '5'
    } else if d == 6 {
        '6'
    } else if d == 7 {
        '7'
    } else if d == 8 {
        '8'
    } else {
        '9'
    }
}

/// Canonical decimal text of a natural number: no sign, no leading zeros
/// (except for the single digit `0` itself).
pub open spec fn decimal_seq(n: nat) -> Seq<char>
    decreases n,
{
    if n < 10 {
        seq![digit_char(n)]
    } else {
        decimal_seq(n / 10) + seq![digit_char(n % 10)]
    }
}

/// The canonical decimal text consists only of digit characters.
pub proof fn lemma_decimal_seq_digits(n: nat)
    ensures
        is_dec_digits(decimal_seq(n)),
    decreases n,
{
    if n >= 10 {
        lemma_decimal_seq_digits(n / 10);
    }
}

/// The digit character of a value below ten reads back as that value.
pub proof fn lemma_digit_char_val(d: nat)
    requires
        d < 10,
    ensures
        digit_val(digit_char(d)) == d,
{
    if d == 0 {
        assert('0' as int == 48);
    } else if d == 1 {
        assert('1' as int == 49);
    } else if d == 2 {
        assert('2' as int == 50);
    } else if d == 3 {
        assert('3' as int == 51);
    } else if d == 4 {
        assert('4' as int == 52);
    } else if d == 5 {
        assert('5' as int == 53);
    } else if d == 6 {
        assert('6' as int == 54);
    } else if d == 7 {
        assert('7' as int == 55);
    } else if d == 8 {
        assert('8' as int == 56);
    } else {
        assert('9' as int == 57);
    }
}

/// Reading the canonical decimal text back gives the number itself.
pub proof fn lemma_decimal_val(n: nat)
    ensures
        digits_val(decimal_seq(n)) == n,
    decreases n,
{
    if n < 10 {
        assert(decimal_seq(n).drop_last() =~= Seq::<char>::empty());
        assert(digits_val(Seq::<char>::empty()) == 0);
        assert(decimal_seq(n).last() == digit_char(n));
        lemma_digit_char_val(n);
        assert(digits_val(decimal_seq(n)) == 0 * 10 + digit_val(digit_char(n)));
    } else {
        lemma_decimal_val(n / 10);
        assert(decimal_seq(n).drop_last() =~= decimal_seq(n / 10));
        assert(decimal_seq(n).last() == digit_char(n % 10));
        lemma_digit_char_val(n % 10);
        assert(digits_val(decimal_seq(n)) == digits_val(decimal_seq(n / 10)) * 10 + digit_val(
            digit_char(n % 10),
        ));
        assert(n == (n / 10) * 10 + n % 10) by (nonlinear_arith);
    }
}

/// Extending a numeral on the right can only keep or grow its value.
pub proof fn lemma_digits_val_extend_ge(s: Seq<char>, k: int)
    requires
        0 <= k <= s.len(),
    ensures
        digits_val(s) >= digits_val(s.take(k)),
    decreases s.len() - k,
{
    if k < s.len() {
        lemma_digits_val_extend_ge(s, k + 1);
        assert(s.take(k + 1).drop_last() =~= s.take(k));
        assert(digits_val(s.take(k + 1)) == digits_val(s.take(k)) * 10 + digit_val(
            s.take(k + 1).last(),
        ));
    } else {
        assert(s.take(k) =~= s);
    }
}

/// One-character string for a digit value.
fn digit_str(d: u32) -> (r: &'static str)
    requires
        d < 10,
    ensures
        r@ =~= seq![digit_char(d as nat)],
{
    proof {
        reveal_strlit("0");
        reveal_strlit("1");
        reveal_strlit("2");
        reveal_strlit("3");
        reveal_strlit("4");
        reveal_strlit("5");
        reveal_strlit("6");
        reveal_strlit("7");
        reveal_strlit("8");
        reveal_strlit("9");
    }
    match d {
        0 => "0",
        1 => "1",
        2 => "2",
        3 => "3",
        4 => "4",
        5 => "5",
        6 => "6",
        7 => "7",
        8 => "8",
        _ => "9",
    }
}

/// Decimal text of a `u32`, matching `decimal_seq`.
pub fn decimal_string(n: u32) -> (r: String)
    ensures
        r@ == decimal_seq(n as nat),
    decreases n,
{
    if n < 10 {
        let r = String::from_str(digit_str(n));
        proof {
            assert(r@ =~= decimal_seq(n as nat));
        }
        r
    } else {
        assert(n / 10 < n) by (nonlinear_arith)
            requires
                n >= 10,
        ;
        let high = decimal_string(n / 10);
        let r = high.concat(digit_str(n % 10));
        proof {
            assert((n / 10) as nat == n as nat / 10);
            assert((n % 10) as nat == n as nat % 10);
            assert(r@ =~= decimal_seq(n as nat));
        }
        r
    }
}

} // verus!
