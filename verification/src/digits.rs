//! Decimal and octal numerals as character sequences.
//!
//! Both the mode decoder and the line numbering need the textual digits of
//! a number.  The spec functions here define those numerals once, and the
//! executable helpers append them to a `String` while proving that the
//! characters produced are exactly the ones the spec functions describe.

use vstd::prelude::*;

verus! {

use vstd::string::StringExecFns;

/// The character for a single digit value `0`..`9`.
pub open spec fn digit_char(d: nat) -> char {
    if d == 0 {
        '0'
    } else if d == 1 {
        '1'
    } else if d == 2 {
        '2'
    } else if d == 3 {
        '3'
    } else if d == 4 {
        '4'
    } else if d == 5 {
        '5'
    } else if d == 6 {
        '6'
    } else if d == 7 {
        '7'
    } else if d == 8 {
        '8'
    } else {
        '9'
    }
}

/// The decimal numeral of `n`, most significant digit first.
pub open spec fn dec_str(n: nat) -> Seq<char>
    decreases n,
{
    if n < 10 {
        seq![digit_char(n)]
    } else {
        dec_str(n / 10) + seq![digit_char(n % 10)]
    }
}

/// The octal numeral of `n`, zero-padded on the left to at least `w` digits.
pub open spec fn oct_str_pad(n: nat, w: nat) -> Seq<char>
    decreases n, w,
{
    if n < 8 && w <= 1 {
        seq![digit_char(n)]
    } else {
        oct_str_pad(n / 8, if w == 0 { 0 } else { (w - 1) as nat }) + seq![digit_char(n % 8)]
    }
}

/// A decimal digit character `'0'`..`'9'`.
pub open spec fn is_dec_digit(c: char) -> bool {
    '0' <= c <= '9'
}

/// An octal digit character `'0'`..`'7'`.
pub open spec fn is_oct_digit(c: char) -> bool {
    '0' <= c <= '7'
}

/// Every character of a padded octal numeral is an octal digit, and the
/// numeral is at least `w` characters long.
pub proof fn lemma_oct_str_pad_wf(n: nat, w: nat)
    ensures
        oct_str_pad(n, w).len() >= w,
        oct_str_pad(n, w).len() >= 1,
        forall|i: int| 0 <= i < oct_str_pad(n, w).len() ==> is_oct_digit(#[trigger] oct_str_pad(n, w)[i]),
    decreases n, w,
{
    if n < 8 && w <= 1 {
    } else {
        lemma_oct_str_pad_wf(n / 8, if w == 0 { 0 } else { (w - 1) as nat });
    }
}

/// The one-character string for a digit value below ten.
pub fn digit_str(d: u32) -> (r: &'static str)
    requires
        d < 10,
    ensures
        r@ == seq![digit_char(d as nat)],
{
    proof {
        reveal_strlit("0");
        reveal_strlit("1");
        reveal_strlit("2");
        reveal_strlit("3");
        reveal_strlit("4");
        reveal_strlit("5");
        reveal_strlit("6");
        reveal_strlit("7");
        reveal_strlit("8");
        reveal_strlit("9");
    }
    let r: &'static str = if d == 0 {
        "0"
    } else if d == 1 {
        "1"
    } else if d == 2 {
        "2"
    } else if d == 3 {
        "3"
    } else if d == 4 {
        "4"
    } else if d == 5 {
        "5"
    } else if d == 6 {
        "6"
    } else if d == 7 {
        "7"
    } else if d == 8 {
        "8"
    } else {
        "9"
    };
    proof {
        assert(r@ =~= seq![digit_char(d as nat)]);
    }
    r
}

/// Appends the decimal numeral of `n` to `out`.
pub fn append_dec(n: usize, out: &mut String)
    ensures
        final(out)@ == old(out)@ + dec_str(n as nat),
    decreases n,
{
    if n < 10 {
        out.append(digit_str(n as u32));
        proof {
            assert(final(out)@ =~= old(out)@ + dec_str(n as nat));
        }
    } else {
        append_dec(n / 10, out);
        out.append(digit_str((n % 10) as u32));
        proof {
            assert(final(out)@ =~= old(out)@ + dec_str(n as nat));
        }
    }
}

/// Appends the octal numeral of `n`, zero-padded to at least `w` digits.
pub fn append_oct_pad(n: u32, w: u32, out: &mut String)
    ensures
        final(out)@ == old(out)@ + oct_str_pad(n as nat, w as nat),
    decreases n, w,
{
    if n < 8 && w <= 1 {
        out.append(digit_str(n));
        proof {
            assert(final(out)@ =~= old(out)@ + oct_str_pad(n as nat, w as nat));
        }
    } else {
        append_oct_pad(n / 8, if w == 0 { 0 } else { w - 1 }, out);
        out.append(digit_str(n % 8));
        proof {
            assert(final(out)@ =~= old(out)@ + oct_str_pad(n as nat, w as nat));
        }
    }
}

/// The decimal numeral of `n` has at most `n + 1` characters.
pub proof fn lemma_dec_str_len_le(n: nat)
    ensures
        dec_str(n).len() <= n + 1,
    decreases n,
{
    if n >= 10 {
        lemma_dec_str_len_le(n / 10);
    }
}

/// The number of characters in the decimal numeral of `n`.
pub fn dec_len(n: usize) -> (l: usize)
    ensures
        l == dec_str(n as nat).len(),
        l >= 1,
    decreases n,
{
    if n < 10 {
        1
    } else {
        let r = dec_len(n / 10);
        proof {
            lemma_dec_str_len_le((n / 10) as nat);
        }
        1 + r
    }
}

} // verus!
