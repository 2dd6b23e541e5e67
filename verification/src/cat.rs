//! Rendering file contents: line-ending markers and line numbers.
//!
//! The content is split into lines the way the standard line iterator
//! does it: a line ends at `\n`, a final line ending is optional, and a
//! `\r` immediately before the `\n` belongs to the line ending, not to
//! the line.  With `show_ends` every newline is preceded by a `$`
//! marker; with `number` each line is prefixed by its one-based number,
//! right-aligned to the width of the newline count.

use vstd::prelude::*;

verus! {

use crate::digits::{dec_str, dec_len, append_dec};
use vstd::string::{StrSliceExecFns, StringExecFns};

/// How the content is to be rendered.
pub struct Options {
    /// Whether each newline is marked with a preceding `$`.
    pub show_ends: bool,
    /// Whether each line is prefixed with its line number.
    pub number: bool,
}

impl Default for Options {
    /// By default the content is rendered unchanged.
    fn default() -> (r: Self)
        ensures
            r.show_ends == false,
            r.number == false,
    {
        Options { show_ends: false, number: false }
    }
}

/// The index of the first newline in `s`, or `-1` if there is none.
pub open spec fn nl_pos(s: Seq<char>) -> int
    decreases s.len(),
{
    if s.len() == 0 {
        -1
    } else if s[0] == '\n' {
        0
    } else {
        if nl_pos(s.drop_first()) < 0 {
            -1
        } else {
            nl_pos(s.drop_first()) + 1
        }
    }
}

/// `nl_pos` points at the first newline: everything before it is not a
/// newline, and `-1` means there is no newline at all.
pub proof fn lemma_nl_pos_spec(s: Seq<char>)
    ensures
        nl_pos(s) == -1 ==> forall|j: int| 0 <= j < s.len() ==> s[j] != '\n',
        nl_pos(s) != -1 ==> 0 <= nl_pos(s) < s.len() && s[nl_pos(s)] == '\n',
        nl_pos(s) != -1 ==> forall|j: int| 0 <= j < nl_pos(s) ==> s[j] != '\n',
    decreases s.len(),
{
    if s.len() == 0 {
    } else if s[0] == '\n' {
    } else {
        let t = s.drop_first();
        lemma_nl_pos_spec(t);
        if nl_pos(t) == -1 {
            assert forall|j: int| 0 <= j < s.len() implies s[j] != '\n' by {
                if j > 0 {
                    assert(s[j] == t[j - 1]);
                }
            }
        } else {
            assert(s[nl_pos(s)] == t[nl_pos(t)]);
            assert forall|j: int| 0 <= j < nl_pos(s) implies s[j] != '\n' by {
                if j > 0 {
                    assert(s[j] == t[j - 1]);
                }
            }
        }
    }
}

/// If the first newline at or after `p` is at `k` (or there is none and
/// `k` is the length), this places `nl_pos` on the suffix from `p`.
proof fn lemma_suffix_split(s: Seq<char>, p: int, k: int)
    requires
        0 <= p <= k <= s.len(),
        forall|j: int| p <= j < k ==> s[j] != '\n',
        k < s.len() ==> s[k] == '\n',
    ensures
        k < s.len() ==> nl_pos(s.skip(p)) == k - p,
        k == s.len() ==> nl_pos(s.skip(p)) == -1,
        s.skip(p).subrange(0, k - p) == s.subrange(p, k),
        k < s.len() ==> s.skip(p).skip(k - p + 1) == s.skip(k + 1),
{
    let t = s.skip(p);
    lemma_nl_pos_spec(t);
    assert forall|j: int| 0 <= j < k - p implies t[j] != '\n' by {
        assert(t[j] == s[p + j]);
    }
    if k < s.len() {
        assert(t[k - p] == s[k]);
        if nl_pos(t) == -1 {
            assert(false);
        } else if nl_pos(t) < k - p {
            assert(false);
        } else if nl_pos(t) > k - p {
            assert(false);
        }
    } else {
        if nl_pos(t) != -1 {
            assert(t[nl_pos(t)] == s[p + nl_pos(t)]);
            assert(false);
        }
    }
    assert(s.skip(p).subrange(0, k - p) =~= s.subrange(p, k));
    if k < s.len() {
        assert(s.skip(p).skip(k - p + 1) =~= s.skip(k + 1));
    }
}

/// A line with a trailing carriage return loses it: the `\r` belongs to
/// a `\r\n` line ending.
pub open spec fn strip_cr(l: Seq<char>) -> Seq<char> {
    if l.len() > 0 && l.last() == '\r' {
        l.drop_last()
    } else {
        l
    }
}

/// The lines of `s`: split at `\n`, the final line ending optional, a
/// `\r` before each split point dropped.  A final line that has no
/// newline keeps a trailing `\r`: only a `\r` standing immediately
/// before a `\n` belongs to a line ending.
pub open spec fn lines_spec(s: Seq<char>) -> Seq<Seq<char>>
    decreases s.len(),
{
    if s.len() == 0 {
        Seq::empty()
    } else if 0 <= nl_pos(s) < s.len() {
        seq![strip_cr(s.subrange(0, nl_pos(s)))] + lines_spec(s.skip(nl_pos(s) + 1))
    } else {
        seq![s]
    }
}

/// `s` with every newline replaced by `$` and a newline.
pub open spec fn show_ends_spec(s: Seq<char>) -> Seq<char>
    decreases s.len(),
{
    if 0 <= nl_pos(s) < s.len() {
        s.subrange(0, nl_pos(s)) + seq!['$', '\n'] + show_ends_spec(s.skip(nl_pos(s) + 1))
    } else {
        s
    }
}

/// The number of newlines in `s`.
pub open spec fn count_nl(s: Seq<char>) -> nat
    decreases s.len(),
{
    if s.len() == 0 {
        0
    } else {
        count_nl(s.drop_last()) + if s.last() == '\n' {
            1nat
        } else {
            0nat
        }
    }
}

/// `k` spaces.
pub open spec fn spaces(k: nat) -> Seq<char> {
    Seq::new(k, |i: int| ' ')
}

/// The decimal numeral of `n`, padded on the left with spaces to at
/// least `w` characters.
pub open spec fn padded_num(n: nat, w: nat) -> Seq<char> {
    if dec_str(n).len() >= w {
        dec_str(n)
    } else {
        spaces((w - dec_str(n).len()) as nat) + dec_str(n)
    }
}

/// The numbered rendering of `ls`, the first line carrying number
/// `idx`: each line is its padded number, a space, the line, a newline.
pub open spec fn numbered_lines(ls: Seq<Seq<char>>, idx: nat, w: nat) -> Seq<char>
    decreases ls.len(),
{
    if ls.len() == 0 {
        Seq::empty()
    } else {
        padded_num(idx, w) + seq![' '] + ls[0] + seq!['\n'] + numbered_lines(
            ls.drop_first(),
            idx + 1,
            w,
        )
    }
}

/// The fully numbered rendering of `s`: every line numbered from one,
/// the numbers right-aligned to the width of the newline count.
pub open spec fn numbered_spec(s: Seq<char>) -> Seq<char> {
    numbered_lines(lines_spec(s), 1, dec_str(count_nl(s)).len())
}

/// What rendering a content produces for given options.
pub open spec fn cat_output(show_ends: bool, number: bool, s: Seq<char>) -> Seq<char> {
    let t = if show_ends {
        show_ends_spec(s)
    } else {
        s
    };
    if number {
        numbered_spec(t)
    } else {
        t
    }
}

/// The index of the first newline at or after `from`, or `len` if the
/// rest of `s` has none.
fn find_nl(s: &str, from: usize, len: usize) -> (k: usize)
    requires
        len == s@.len(),
        from <= len,
    ensures
        from <= k <= len,
        forall|j: int| from <= j < k ==> s@[j] != '\n',
        k < len ==> s@[k as int] == '\n',
{
    let mut k = from;
    while k < len
        invariant
            from <= k <= len,
            len == s@.len(),
            forall|j: int| from <= j < k ==> s@[j] != '\n',
        decreases len - k,
    {
        if s.get_char(k) == '\n' {
            return k;
        }
        k = k + 1;
    }
    k
}

/// The number of newlines in `s`.
fn count_newlines(s: &str) -> (c: usize)
    ensures
        c == count_nl(s@),
{
    let len = s.unicode_len();
    let mut c: usize = 0;
    let mut i: usize = 0;
    while i < len
        invariant
            0 <= i <= len,
            len == s@.len(),
            c <= i,
            c == count_nl(s@.take(i as int)),
        decreases len - i,
    {
        proof {
            assert(s@.take(i as int + 1).drop_last() =~= s@.take(i as int));
            assert(s@.take(i as int + 1).last() == s@[i as int]);
        }
        if s.get_char(i) == '\n' {
            c = c + 1;
        }
        i = i + 1;
    }
    proof {
        assert(s@.take(len as int) =~= s@);
    }
    c
}

/// `s` with every newline replaced by a `$` marker and a newline.
pub fn replace_newlines(s: &str) -> (r: String)
    ensures
        r@ == show_ends_spec(s@),
{
    let len = s.unicode_len();
    let mut out = String::new();
    let mut p: usize = 0;
    proof {
        assert(s@.skip(0) =~= s@);
        assert(out@ + show_ends_spec(s@) =~= show_ends_spec(s@));
    }
    while p < len
        invariant
            0 <= p <= len,
            len == s@.len(),
            show_ends_spec(s@) == out@ + show_ends_spec(s@.skip(p as int)),
        decreases len - p,
    {
        let k = find_nl(s, p, len);
        proof {
            lemma_suffix_split(s@, p as int, k as int);
            reveal_strlit("$\n");
            assert("$\n"@ =~= seq!['$', '\n']);
        }
        let ghost prev = out@;
        let piece = s.substring_char(p, k);
        out.append(piece);
        if k < len {
            out.append("$\n");
            proof {
                assert(show_ends_spec(s@.skip(p as int)) == s@.subrange(p as int, k as int) + seq![
                    '$',
                    '\n',
                ] + show_ends_spec(s@.skip(k as int + 1)));
                assert(prev + show_ends_spec(s@.skip(p as int)) =~= out@ + show_ends_spec(
                    s@.skip(k as int + 1),
                ));
            }
            p = k + 1;
        } else {
            proof {
                assert(show_ends_spec(s@.skip(p as int)) == s@.skip(p as int));
                assert(s@.subrange(p as int, k as int) =~= s@.skip(p as int));
                assert(prev + show_ends_spec(s@.skip(p as int)) =~= out@);
                assert(s@.skip(len as int) =~= Seq::<char>::empty());
                assert(out@ + show_ends_spec(s@.skip(len as int)) =~= out@);
            }
            p = len;
        }
    }
    proof {
        assert(s@.skip(len as int) =~= Seq::<char>::empty());
        assert(out@ + show_ends_spec(s@.skip(len as int)) =~= out@);
    }
    out
}

/// Appends the line number: padded to width `w`, then one space.
fn append_line_number(n: usize, w: usize, out: &mut String)
    ensures
        final(out)@ == old(out)@ + padded_num(n as nat, w as nat) + seq![' '],
{
    let dl = dec_len(n);
    let pad: usize = if dl >= w {
        0
    } else {
        w - dl
    };
    let ghost base = out@;
    let mut t: usize = 0;
    while t < pad
        invariant
            0 <= t <= pad,
            out@ == base + spaces(t as nat),
        decreases pad - t,
    {
        out.append(" ");
        proof {
            reveal_strlit(" ");
            assert(" "@ =~= seq![' ']);
            assert(base + spaces(t as nat) + " "@ =~= base + spaces(t as nat + 1));
        }
        t = t + 1;
    }
    append_dec(n, out);
    out.append(" ");
    proof {
        reveal_strlit(" ");
        assert(" "@ =~= seq![' ']);
        assert(out@ =~= old(out)@ + padded_num(n as nat, w as nat) + seq![' ']);
    }
}

/// Renders the content with every line numbered.
///
/// Each line becomes its one-based number, right-aligned with spaces to
/// the width of the content's newline count, one space, the line, and a
/// newline.
#[verifier::rlimit(100)]
pub fn print_number(content: String) -> (r: String)
    ensures
        r@ == numbered_spec(content@),
{
    let s = content.as_str();
    let len = s.unicode_len();
    let cnt = count_newlines(s);
    let w = dec_len(cnt);
    let ghost lw = dec_str(count_nl(content@)).len();
    let mut out = String::new();
    let mut p: usize = 0;
    let mut idx: usize = 1;
    proof {
        assert(s@.skip(0) =~= s@);
        assert(out@ + numbered_lines(lines_spec(s@), 1, lw) =~= numbered_lines(
            lines_spec(s@),
            1,
            lw,
        ));
    }
    while p < len
        invariant
            0 <= p <= len,
            len == s@.len(),
            s@ == content@,
            w == lw,
            idx >= 1,
            idx <= p + 1,
            numbered_spec(content@) == out@ + numbered_lines(
                lines_spec(s@.skip(p as int)),
                idx as nat,
                lw,
            ),
        decreases len - p,
    {
        let k = find_nl(s, p, len);
        proof {
            lemma_suffix_split(s@, p as int, k as int);
        }
        let mut line_hi = k;
        if k < len && k > p && s.get_char(k - 1) == '\r' {
            line_hi = k - 1;
        }
        let ghost rawline = s@.subrange(p as int, k as int);
        let ghost line = if k < len {
            strip_cr(rawline)
        } else {
            rawline
        };
        proof {
            if k < len && rawline.len() > 0 && rawline.last() == '\r' {
                assert(rawline.last() == s@[k as int - 1]);
                assert(line =~= s@.subrange(p as int, line_hi as int));
            } else {
                assert(line =~= s@.subrange(p as int, line_hi as int));
            }
        }
        let piece = s.substring_char(p, line_hi);
        let ghost prev = out@;
        append_line_number(idx, w, &mut out);
        out.append(piece);
        out.append("\n");
        proof {
            reveal_strlit("\n");
            assert("\n"@ =~= seq!['\n']);
            assert(out@ =~= prev + padded_num(idx as nat, lw) + seq![' '] + line + seq!['\n']);
        }
        if k < len {
            proof {
                assert(lines_spec(s@.skip(p as int)) == seq![line] + lines_spec(
                    s@.skip(k as int + 1),
                ));
                let ghost ls = lines_spec(s@.skip(p as int));
                assert(ls.drop_first() =~= lines_spec(s@.skip(k as int + 1)));
                assert(ls[0] == line);
                assert(numbered_lines(ls, idx as nat, lw) == padded_num(idx as nat, lw) + seq![' ']
                    + line + seq!['\n'] + numbered_lines(
                    lines_spec(s@.skip(k as int + 1)),
                    idx as nat + 1,
                    lw,
                ));
                assert(prev + numbered_lines(ls, idx as nat, lw) =~= out@ + numbered_lines(
                    lines_spec(s@.skip(k as int + 1)),
                    idx as nat + 1,
                    lw,
                ));
            }
            p = k + 1;
            if p < len {
                idx = idx + 1;
            } else {
                proof {
                    assert(s@.skip(p as int) =~= Seq::<char>::empty());
                    assert(numbered_lines(
                        lines_spec(s@.skip(p as int)),
                        idx as nat + 1,
                        lw,
                    ) == numbered_lines(lines_spec(s@.skip(p as int)), idx as nat, lw));
                }
            }
        } else {
            proof {
                assert(s@.skip(p as int) =~= rawline);
                assert(lines_spec(s@.skip(p as int)) == seq![line]);
                let ghost ls = lines_spec(s@.skip(p as int));
                assert(ls.drop_first() =~= Seq::<Seq<char>>::empty());
                assert(ls[0] == line);
                assert(numbered_lines(ls, idx as nat, lw) == padded_num(idx as nat, lw) + seq![' ']
                    + line + seq!['\n'] + numbered_lines(
                    Seq::<Seq<char>>::empty(),
                    idx as nat + 1,
                    lw,
                ));
                assert(prev + numbered_lines(ls, idx as nat, lw) =~= out@);
                assert(s@.skip(len as int) =~= Seq::<char>::empty());
            }
            p = len;
        }
    }
    proof {
        assert(s@.skip(len as int) =~= Seq::<char>::empty());
        assert(out@ + numbered_lines(
            lines_spec(s@.skip(len as int)),
            idx as nat,
            lw,
        ) =~= out@);
    }
    out
}

/// Renders the content for the given options: `$` markers first if
/// asked for, then line numbering if asked for, otherwise the content
/// unchanged.
pub fn print_content(options: Options, content: String) -> (r: String)
    ensures
        r@ == cat_output(options.show_ends, options.number, content@),
{
    let shown = if options.show_ends {
        replace_newlines(content.as_str())
    } else {
        content
    };
    if options.number {
        print_number(shown)
    } else {
        shown
    }
}

} // verus!
