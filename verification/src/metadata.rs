//! The Unix file-mode decoder.
//!
//! A raw numeric mode is rendered as a zero-padded octal numeral of at
//! least six digits.  The first three digits name the kind of filesystem
//! object; each of the last three digits encodes the read/write/execute
//! bits of one subject (owner, group, other).  The decoder turns the two
//! parts into a type glyph and three `rwx` triads and concatenates them
//! into the familiar ten-character symbolic permission string.

use vstd::prelude::*;

verus! {

use crate::digits::{digit_char, is_dec_digit, is_oct_digit, oct_str_pad, lemma_oct_str_pad_wf, append_oct_pad};
use vstd::string::{StrSliceExecFns, StringExecFns};

/// The ways decoding a mode can fail.
#[derive(Clone, Copy, PartialEq, Eq, Structural, Debug)]
pub enum ModeError {
    /// A permission field was not a single decimal digit.
    InvalidDigitFormat,
    /// A type field was not exactly three decimal digits.
    InvalidTypeFormat,
    /// The platform has no POSIX-style permission bits at all.
    PlatformUnsupported,
}

/// The `rwx` triad a single octal digit decodes to.
///
/// `'0'` decodes to `---`, and so do `'8'` and `'9'`: the decoder accepts
/// every decimal digit and conflates the two digits that are not valid
/// octal with "no permissions", mirroring longstanding behaviour.
pub open spec fn triad_chars(c: char) -> Seq<char> {
    if c == '1' {
        seq!['-', '-', 'x']
    } else if c == '2' {
        seq!['-', 'w', '-']
    } else if c == '3' {
        seq!['-', 'w', 'x']
    } else if c == '4' {
        seq!['r', '-', '-']
    } else if c == '5' {
        seq!['r', '-', 'x']
    } else if c == '6' {
        seq!['r', 'w', '-']
    } else if c == '7' {
        seq!['r', 'w', 'x']
    } else {
        seq!['-', '-', '-']
    }
}

/// A well-formed permission digit field: exactly one decimal digit.
pub open spec fn valid_digit_field(s: Seq<char>) -> bool {
    s.len() == 1 && is_dec_digit(s[0])
}

/// The glyph a three-digit type field decodes to.
///
/// Five codes are recognized; every other well-formed code is forward
/// compatible and decodes to `'?'` rather than failing.
pub open spec fn type_glyph(t: Seq<char>) -> char {
    if t == seq!['0', '2', '0'] {
        'c'
    } else if t == seq!['0', '4', '0'] {
        'd'
    } else if t == seq!['0', '6', '0'] {
        'b'
    } else if t == seq!['1', '0', '0'] {
        '-'
    } else if t == seq!['1', '2', '0'] {
        'l'
    } else {
        '?'
    }
}

/// A well-formed type field: exactly three decimal digits.
pub open spec fn valid_type_field(t: Seq<char>) -> bool {
    t.len() == 3 && forall|i: int| 0 <= i < 3 ==> is_dec_digit(#[trigger] t[i])
}

/// Decodes one textual permission digit into its `rwx` triad.
///
/// Exactly the single decimal digits are accepted; everything else fails
/// with `InvalidDigitFormat`.
pub fn digit_to_permission(digit: &str) -> (r: Result<String, ModeError>)
    ensures
        valid_digit_field(digit@) ==> (r matches Ok(t) && t@ == triad_chars(digit@[0])),
        !valid_digit_field(digit@) ==> r == Err::<String, ModeError>(ModeError::InvalidDigitFormat),
{
    if digit.unicode_len() != 1 {
        return Err(ModeError::InvalidDigitFormat);
    }
    let c = digit.get_char(0);
    if (c as u32) < 48 || (c as u32) > 57 {
        return Err(ModeError::InvalidDigitFormat);
    }
    let t: &str = if c == '1' {
        "--x"
    } else if c == '2' {
        "-w-"
    } else if c == '3' {
        "-wx"
    } else if c == '4' {
        "r--"
    } else if c == '5' {
        "r-x"
    } else if c == '6' {
        "rw-"
    } else if c == '7' {
        "rwx"
    } else {
        "---"
    };
    proof {
        reveal_strlit("--x");
        reveal_strlit("-w-");
        reveal_strlit("-wx");
        reveal_strlit("r--");
        reveal_strlit("r-x");
        reveal_strlit("rw-");
        reveal_strlit("rwx");
        reveal_strlit("---");
        assert(t@ =~= triad_chars(c));
    }
    Ok(t.to_owned())
}

/// Decodes a three-digit type field into its entity-type glyph.
///
/// Exactly the strings of three decimal digits are accepted; everything
/// else fails with `InvalidTypeFormat`.
pub fn type_to_permission(field: &str) -> (r: Result<char, ModeError>)
    ensures
        valid_type_field(field@) ==> r == Ok::<char, ModeError>(type_glyph(field@)),
        !valid_type_field(field@) ==> r == Err::<char, ModeError>(ModeError::InvalidTypeFormat),
{
    if field.unicode_len() != 3 {
        return Err(ModeError::InvalidTypeFormat);
    }
    let c0 = field.get_char(0);
    let c1 = field.get_char(1);
    let c2 = field.get_char(2);
    if (c0 as u32) < 48 || (c0 as u32) > 57 || (c1 as u32) < 48 || (c1 as u32) > 57 || (c2 as u32)
        < 48 || (c2 as u32) > 57 {
        return Err(ModeError::InvalidTypeFormat);
    }
    proof {
        assert(field@ =~= seq![c0, c1, c2]);
    }
    let glyph: char = if c0 == '0' && c1 == '2' && c2 == '0' {
        'c'
    } else if c0 == '0' && c1 == '4' && c2 == '0' {
        'd'
    } else if c0 == '0' && c1 == '6' && c2 == '0' {
        'b'
    } else if c0 == '1' && c1 == '0' && c2 == '0' {
        '-'
    } else if c0 == '1' && c1 == '2' && c2 == '0' {
        'l'
    } else {
        '?'
    };
    proof {
        assert(glyph == type_glyph(field@));
    }
    Ok(glyph)
}

/// The octal rendering of a raw mode: at least six digits, zero-padded.
pub open spec fn mode_octal(m: nat) -> Seq<char> {
    oct_str_pad(m, 6)
}

/// The ten-character symbolic permission string of a raw mode: the type
/// glyph of the first three octal digits, then the triads of the octal
/// digits at positions three, four and five.
pub open spec fn symbolic_string(m: nat) -> Seq<char> {
    seq![type_glyph(mode_octal(m).subrange(0, 3))] + triad_chars(mode_octal(m)[3]) + triad_chars(
        mode_octal(m)[4],
    ) + triad_chars(mode_octal(m)[5])
}

/// Formatting is deterministic: any two strings formatted from the same
/// raw mode are equal, and they always have exactly ten characters.
pub proof fn lemma_symbolic_string_deterministic(m: u32, r1: Seq<char>, r2: Seq<char>)
    requires
        r1 == symbolic_string(m as nat),
        r2 == symbolic_string(m as nat),
    ensures
        r1 == r2,
        r1.len() == 10,
{
    lemma_oct_str_pad_wf(m as nat, 6);
}

/// The one-character string for an entity-type glyph.
fn glyph_str(g: char) -> (r: &'static str)
    requires
        g == 'c' || g == 'd' || g == 'b' || g == '-' || g == 'l' || g == '?',
    ensures
        r@ == seq![g],
{
    proof {
        reveal_strlit("c");
        reveal_strlit("d");
        reveal_strlit("b");
        reveal_strlit("-");
        reveal_strlit("l");
        reveal_strlit("?");
    }
    let r: &'static str = if g == 'c' {
        "c"
    } else if g == 'd' {
        "d"
    } else if g == 'b' {
        "b"
    } else if g == '-' {
        "-"
    } else if g == 'l' {
        "l"
    } else {
        "?"
    };
    proof {
        assert(r@ =~= seq![g]);
    }
    r
}

/// The octal rendering of a raw mode as a string.
fn octal_mode_string(mode: u32) -> (s: String)
    ensures
        s@ == mode_octal(mode as nat),
{
    let mut s = String::new();
    append_oct_pad(mode, 6, &mut s);
    proof {
        assert(s@ =~= mode_octal(mode as nat));
    }
    s
}

/// Formats a raw mode as its ten-character symbolic permission string.
///
/// On a platform without POSIX-style permission bits nothing is decoded
/// and the call fails with `PlatformUnsupported`; the caller states that
/// capability up front.  On a supported platform the call always
/// succeeds: every digit of an octal numeral is a valid permission
/// digit, so neither sub-decoder can fail.
pub fn parse_permissions(mode: u32, platform_supported: bool) -> (r: Result<String, ModeError>)
    ensures
        !platform_supported ==> r == Err::<String, ModeError>(ModeError::PlatformUnsupported),
        platform_supported ==> (r matches Ok(s) && s@ == symbolic_string(mode as nat)),
{
    if !platform_supported {
        return Err(ModeError::PlatformUnsupported);
    }
    proof {
        lemma_oct_str_pad_wf(mode as nat, 6);
    }
    let oct = octal_mode_string(mode);
    let type_field = oct.as_str().substring_char(0, 3);
    let user_field = oct.as_str().substring_char(3, 4);
    let group_field = oct.as_str().substring_char(4, 5);
    let other_field = oct.as_str().substring_char(5, 6);
    proof {
        assert(user_field@ =~= seq![mode_octal(mode as nat)[3]]);
        assert(group_field@ =~= seq![mode_octal(mode as nat)[4]]);
        assert(other_field@ =~= seq![mode_octal(mode as nat)[5]]);
    }
    let glyph = match type_to_permission(type_field) {
        Ok(g) => g,
        Err(e) => {
            return Err(e);
        },
    };
    let user = match digit_to_permission(user_field) {
        Ok(t) => t,
        Err(e) => {
            return Err(e);
        },
    };
    let group = match digit_to_permission(group_field) {
        Ok(t) => t,
        Err(e) => {
            return Err(e);
        },
    };
    let other = match digit_to_permission(other_field) {
        Ok(t) => t,
        Err(e) => {
            return Err(e);
        },
    };
    let mut out = glyph_str(glyph).to_owned();
    out.append(user.as_str());
    out.append(group.as_str());
    out.append(other.as_str());
    proof {
        assert(out@ =~= symbolic_string(mode as nat));
    }
    Ok(out)
}

} // verus!
