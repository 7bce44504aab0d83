//! The two input record formats.
//!
//! Both the metadata file and the window (time-series) files are line
//! oriented: comment and empty lines are skipped, every other line is split
//! at whitespace into columns. The numeric columns must be readable as
//! double-precision values; `is_float_token` decides exactly the accepted
//! syntax (an optional sign, then `inf`, `infinity` or `nan` in any case, or
//! a decimal number with optional fraction and exponent), so a record is
//! rejected here if and only if its columns cannot be parsed.

use vstd::prelude::*;

use crate::errors::WhamError;

verus! {

/// The separator characters: the Unicode white-space set, on which the
/// record formats split their columns.
pub open spec fn is_ws(c: char) -> bool {
    let u = c as u32;
    ||| u == 0x20
    ||| (0x09 <= u && u <= 0x0d)
    ||| u == 0x85
    ||| u == 0xa0
    ||| u == 0x1680
    ||| (0x2000 <= u && u <= 0x200a)
    ||| u == 0x2028
    ||| u == 0x2029
    ||| u == 0x202f
    ||| u == 0x205f
    ||| u == 0x3000
}

/// The columns of `s` from position `i` on, with `cur` the partially read
/// column: maximal runs of non-whitespace characters.
pub open spec fn spec_split_from(s: Seq<char>, i: int, cur: Seq<char>) -> Seq<Seq<char>>
    decreases s.len() - i,
{
    if i < 0 || i >= s.len() {
        if cur.len() > 0 {
            seq![cur]
        } else {
            Seq::empty()
        }
    } else if is_ws(s[i]) {
        if cur.len() > 0 {
            seq![cur] + spec_split_from(s, i + 1, Seq::empty())
        } else {
            spec_split_from(s, i + 1, Seq::empty())
        }
    } else {
        spec_split_from(s, i + 1, cur.push(s[i]))
    }
}

/// The whitespace-separated columns of a record line.
pub open spec fn spec_tokens(s: Seq<char>) -> Seq<Seq<char>> {
    spec_split_from(s, 0, Seq::empty())
}

fn is_ws_char(c: char) -> (r: bool)
    ensures
        r == is_ws(c),
{
    let u = c as u32;
    u == 0x20 || (0x09 <= u && u <= 0x0d) || u == 0x85 || u == 0xa0 || u == 0x1680 || (0x2000
        <= u && u <= 0x200a) || u == 0x2028 || u == 0x2029 || u == 0x202f || u == 0x205f || u
        == 0x3000
}

/// Splits a record line into its whitespace-separated columns.
pub fn split_columns(line: &str) -> (tokens: Vec<String>)
    ensures
        tokens.deep_view() == spec_tokens(line@),
{
    let n = line.unicode_len();
    let mut tokens: Vec<String> = Vec::new();
    let mut start: Option<usize> = None;
    let mut i: usize = 0;
    while i < n
        invariant
            n == line@.len(),
            0 <= i <= n,
            match start {
                Some(st) => st < i && (spec_tokens(line@) == tokens.deep_view()
                    + spec_split_from(line@, i as int, line@.subrange(st as int, i as int))),
                None => spec_tokens(line@) == tokens.deep_view()
                    + spec_split_from(line@, i as int, Seq::empty()),
            },
        decreases n - i,
    {
        let c = line.get_char(i);
        match start {
            Some(st) => {
                if is_ws_char(c) {
                    let tok = line.substring_char(st, i).to_owned();
                    let ghost pre = tokens.deep_view();
                    tokens.push(tok);
                    proof {
                        assert(tokens.deep_view() =~~= pre.push(line@.subrange(
                            st as int,
                            i as int,
                        )));
                        assert(pre.push(line@.subrange(st as int, i as int)) =~~= pre + seq![
                            line@.subrange(st as int, i as int),
                        ]);
                    }
                    start = None;
                } else {
                    proof {
                        assert(line@.subrange(st as int, i as int).push(line@[i as int])
                            =~= line@.subrange(st as int, i as int + 1));
                    }
                }
            },
            None => {
                if is_ws_char(c) {
                } else {
                    proof {
                        assert(Seq::empty().push(line@[i as int]) =~= line@.subrange(
                            i as int,
                            i as int + 1,
                        ));
                    }
                    start = Some(i);
                }
            },
        }
        i = i + 1;
    }
    match start {
        Some(st) => {
            let tok = line.substring_char(st, n).to_owned();
            let ghost pre = tokens.deep_view();
            tokens.push(tok);
            proof {
                assert(tokens.deep_view() =~~= pre.push(line@.subrange(st as int, n as int)));
                assert(pre.push(line@.subrange(st as int, n as int)) =~~= pre + seq![
                    line@.subrange(st as int, n as int),
                ]);
            }
        },
        None => {
            proof {
                assert(tokens.deep_view() =~~= tokens.deep_view() + Seq::<Seq<char>>::empty());
            }
        },
    }
    tokens
}

/// An ASCII decimal digit.
pub open spec fn is_digit(c: char) -> bool {
    48 <= c as u32 <= 57
}

/// The exponent marker of a number.
pub open spec fn is_exp_char(c: char) -> bool {
    c == 'e' || c == 'E'
}

/// `s` without a leading `+` or `-`.
pub open spec fn spec_strip_sign(s: Seq<char>) -> Seq<char> {
    if s.len() > 0 && (s[0] == '+' || s[0] == '-') {
        s.drop_first()
    } else {
        s
    }
}

pub open spec fn spec_all_digits(s: Seq<char>) -> bool {
    forall|j: int| 0 <= j < s.len() ==> is_digit(s[j])
}

/// A non-empty digit run.
pub open spec fn spec_is_count(s: Seq<char>) -> bool {
    s.len() > 0 && spec_all_digits(s)
}

/// Index of the first exponent marker, or the length if there is none.
pub open spec fn spec_find_exp(s: Seq<char>) -> int
    decreases s.len(),
{
    if s.len() == 0 {
        0
    } else if is_exp_char(s[0]) {
        0
    } else {
        1 + spec_find_exp(s.drop_first())
    }
}

/// Index of the first decimal point, or the length if there is none.
pub open spec fn spec_find_dot(s: Seq<char>) -> int
    decreases s.len(),
{
    if s.len() == 0 {
        0
    } else if s[0] == '.' {
        0
    } else {
        1 + spec_find_dot(s.drop_first())
    }
}

/// Digits with at most one decimal point and at least one digit:
/// `123`, `123.`, `123.456` or `.456`.
pub open spec fn spec_is_mantissa(m: Seq<char>) -> bool {
    let d = spec_find_dot(m);
    if d == m.len() {
        spec_is_count(m)
    } else {
        spec_all_digits(m.take(d)) && spec_all_digits(m.skip(d + 1)) && (d > 0 || d + 1
            < m.len())
    }
}

/// An exponent: an optional sign followed by a digit run.
pub open spec fn spec_is_exp_part(x: Seq<char>) -> bool {
    spec_is_count(spec_strip_sign(x))
}

/// The keywords `inf`, `infinity` and `nan`, in any letter case.
pub open spec fn spec_is_special(u: Seq<char>) -> bool {
    ||| (u.len() == 3 && (u[0] == 'i' || u[0] == 'I') && (u[1] == 'n' || u[1] == 'N') && (u[2]
        == 'f' || u[2] == 'F'))
    ||| (u.len() == 8 && (u[0] == 'i' || u[0] == 'I') && (u[1] == 'n' || u[1] == 'N') && (u[2]
        == 'f' || u[2] == 'F') && (u[3] == 'i' || u[3] == 'I') && (u[4] == 'n' || u[4] == 'N')
        && (u[5] == 'i' || u[5] == 'I') && (u[6] == 't' || u[6] == 'T') && (u[7] == 'y' || u[7]
        == 'Y'))
    ||| (u.len() == 3 && (u[0] == 'n' || u[0] == 'N') && (u[1] == 'a' || u[1] == 'A') && (u[2]
        == 'n' || u[2] == 'N'))
}

/// The token syntax accepted when reading a double-precision value: an
/// optional sign, then one of the special keywords or a mantissa with an
/// optional exponent.
pub open spec fn spec_is_float_literal(s: Seq<char>) -> bool {
    let u = spec_strip_sign(s);
    let e = spec_find_exp(u);
    ||| spec_is_special(u)
    ||| (e == u.len() && spec_is_mantissa(u))
    ||| (e < u.len() && spec_is_mantissa(u.take(e)) && spec_is_exp_part(u.skip(e + 1)))
}

/// `spec_find_exp` is the unique position with no marker before it that is
/// either a marker or the end.
proof fn lemma_find_exp_at(s: Seq<char>, k: int)
    requires
        0 <= k <= s.len(),
        forall|j: int| 0 <= j < k ==> !is_exp_char(s[j]),
        k < s.len() ==> is_exp_char(s[k]),
    ensures
        spec_find_exp(s) == k,
    decreases s.len(),
{
    if s.len() > 0 && k > 0 {
        lemma_find_exp_at(s.drop_first(), k - 1);
    }
}

proof fn lemma_find_dot_at(s: Seq<char>, k: int)
    requires
        0 <= k <= s.len(),
        forall|j: int| 0 <= j < k ==> s[j] != '.',
        k < s.len() ==> s[k] == '.',
    ensures
        spec_find_dot(s) == k,
    decreases s.len(),
{
    if s.len() > 0 && k > 0 {
        lemma_find_dot_at(s.drop_first(), k - 1);
    }
}

/// First position in `[lo, hi)` holding an exponent marker, or `hi`.
fn scan_exp(t: &str, lo: usize, hi: usize) -> (e: usize)
    requires
        lo <= hi <= t@.len(),
    ensures
        lo <= e <= hi,
        forall|j: int| lo <= j < e ==> !is_exp_char(t@[j]),
        e < hi ==> is_exp_char(t@[e as int]),
{
    let mut i: usize = lo;
    while i < hi
        invariant
            lo <= i <= hi <= t@.len(),
            forall|j: int| lo <= j < i ==> !is_exp_char(t@[j]),
        decreases hi - i,
    {
        let c = t.get_char(i);
        if c == 'e' || c == 'E' {
            return i;
        }
        i = i + 1;
    }
    i
}

/// First position in `[lo, hi)` holding a decimal point, or `hi`.
fn scan_dot(t: &str, lo: usize, hi: usize) -> (d: usize)
    requires
        lo <= hi <= t@.len(),
    ensures
        lo <= d <= hi,
        forall|j: int| lo <= j < d ==> t@[j] != '.',
        d < hi ==> t@[d as int] == '.',
{
    let mut i: usize = lo;
    while i < hi
        invariant
            lo <= i <= hi <= t@.len(),
            forall|j: int| lo <= j < i ==> t@[j] != '.',
        decreases hi - i,
    {
        let c = t.get_char(i);
        if c == '.' {
            return i;
        }
        i = i + 1;
    }
    i
}

/// Are all characters in `[lo, hi)` digits?
fn all_digits_range(t: &str, lo: usize, hi: usize) -> (r: bool)
    requires
        lo <= hi <= t@.len(),
    ensures
        r == (forall|j: int| lo <= j < hi ==> is_digit(t@[j])),
{
    let mut i: usize = lo;
    while i < hi
        invariant
            lo <= i <= hi <= t@.len(),
            forall|j: int| lo <= j < i ==> is_digit(t@[j]),
        decreases hi - i,
    {
        let c = t.get_char(i);
        let cu = c as u32;
        if cu < 48 || cu > 57 {
            return false;
        }
        i = i + 1;
    }
    true
}

/// The mantissa check on the character range `[lo, hi)` of `t`.
fn is_mantissa_range(t: &str, lo: usize, hi: usize) -> (r: bool)
    requires
        lo <= hi <= t@.len(),
    ensures
        r == spec_is_mantissa(t@.subrange(lo as int, hi as int)),
{
    let ghost m = t@.subrange(lo as int, hi as int);
    let d: usize = scan_dot(t, lo, hi);
    proof {
        lemma_find_dot_at(m, d - lo);
    }
    if d == hi {
        proof {
            assert(m.take(m.len() as int) =~= m);
            assert(forall|i: int| 0 <= i < m.len() ==> m[i] == t@[lo + i]);
            assert(spec_all_digits(m) == (forall|j: int| lo <= j < hi ==> is_digit(t@[j]))) by {
                assert(forall|j: int| lo <= j < hi && is_digit(m[j - lo]) ==> is_digit(t@[j]));
                assert(forall|i: int|
                    0 <= i < m.len() && is_digit(t@[lo + i]) ==> is_digit(m[i]));
            }
        }
        hi > lo && all_digits_range(t, lo, hi)
    } else {
        let before = all_digits_range(t, lo, d);
        let after = all_digits_range(t, d + 1, hi);
        proof {
            assert(m.take(d - lo) =~= t@.subrange(lo as int, d as int));
            assert(m.skip(d - lo + 1) =~= t@.subrange(d as int + 1, hi as int));
            assert(spec_all_digits(m.take(d - lo)) == (forall|j: int|
                lo <= j < d ==> is_digit(t@[j]))) by {
                let mb = m.take(d - lo);
                assert(forall|i: int| 0 <= i < mb.len() ==> mb[i] == t@[lo + i]);
                assert(forall|j: int| lo <= j < d && is_digit(mb[j - lo]) ==> is_digit(t@[j]));
                assert(forall|i: int| 0 <= i < mb.len() && is_digit(t@[lo + i]) ==> is_digit(mb[i]));
            }
            assert(spec_all_digits(m.skip(d - lo + 1)) == (forall|j: int|
                d + 1 <= j < hi ==> is_digit(t@[j]))) by {
                let ma = m.skip(d - lo + 1);
                assert(forall|i: int| 0 <= i < ma.len() ==> ma[i] == t@[d + 1 + i]);
                assert(forall|j: int|
                    d + 1 <= j < hi && is_digit(ma[j - d - 1]) ==> is_digit(t@[j]));
                assert(forall|i: int|
                    0 <= i < ma.len() && is_digit(t@[d + 1 + i]) ==> is_digit(ma[i]));
            }
        }
        before && after && (d > lo || d + 1 < hi)
    }
}

/// Decides whether reading this column as a double-precision value will
/// succeed: exactly the accepted token syntax of `spec_is_float_literal`.
pub fn is_float_token(t: &str) -> (r: bool)
    ensures
        r == spec_is_float_literal(t@),
{
    let n = t.unicode_len();
    let mut a: usize = 0;
    if n > 0 {
        let c = t.get_char(0);
        if c == '+' || c == '-' {
            a = 1;
        }
    }
    let ghost u = spec_strip_sign(t@);
    proof {
        assert(u =~= t@.subrange(a as int, n as int));
    }
    // the keywords inf, infinity, nan, in any letter case
    if n - a == 3 || n - a == 8 {
        let c0 = t.get_char(a);
        let c1 = t.get_char(a + 1);
        let c2 = t.get_char(a + 2);
        if n - a == 3 {
            if ((c0 == 'i' || c0 == 'I') && (c1 == 'n' || c1 == 'N') && (c2 == 'f' || c2 == 'F'))
                || ((c0 == 'n' || c0 == 'N') && (c1 == 'a' || c1 == 'A') && (c2 == 'n' || c2
                == 'N')) {
                return true;
            }
        } else {
            let c3 = t.get_char(a + 3);
            let c4 = t.get_char(a + 4);
            let c5 = t.get_char(a + 5);
            let c6 = t.get_char(a + 6);
            let c7 = t.get_char(a + 7);
            if (c0 == 'i' || c0 == 'I') && (c1 == 'n' || c1 == 'N') && (c2 == 'f' || c2 == 'F')
                && (c3 == 'i' || c3 == 'I') && (c4 == 'n' || c4 == 'N') && (c5 == 'i' || c5
                == 'I') && (c6 == 't' || c6 == 'T') && (c7 == 'y' || c7 == 'Y') {
                return true;
            }
        }
    }
    proof {
        assert(!spec_is_special(u));
    }
    let e: usize = scan_exp(t, a, n);
    proof {
        lemma_find_exp_at(u, e - a);
    }
    if e == n {
        proof {
            assert(t@.subrange(a as int, n as int) =~= u);
        }
        is_mantissa_range(t, a, n)
    } else {
        let m_ok = is_mantissa_range(t, a, e);
        proof {
            assert(u.take(e - a) =~= t@.subrange(a as int, e as int));
        }
        if !m_ok {
            return false;
        }
        // the exponent: optional sign, then digits
        let mut xa: usize = e + 1;
        if xa < n {
            let c = t.get_char(xa);
            if c == '+' || c == '-' {
                xa = xa + 1;
            }
        }
        proof {
            assert(u.skip(e - a + 1) =~= t@.subrange(e as int + 1, n as int));
            assert(spec_strip_sign(u.skip(e - a + 1)) =~= t@.subrange(xa as int, n as int));
        }
        let digits = all_digits_range(t, xa, n);
        proof {
            let x = spec_strip_sign(u.skip(e - a + 1));
            assert(spec_all_digits(x) == (forall|j: int| xa <= j < n ==> is_digit(t@[j]))) by {
                assert(forall|j: int|
                    xa <= j < n && is_digit(x[j - xa]) ==> is_digit(t@[j]));
            }
        }
        xa < n && digits
    }
}

/// Metadata lines that carry no record: empty ones and `#` comments.
pub open spec fn spec_meta_skip(s: Seq<char>) -> bool {
    s.len() == 0 || s[0] == '#'
}

/// Window-file lines that carry no record: empty ones, `#` comments and `@`
/// directives.
pub open spec fn spec_window_skip(s: Seq<char>) -> bool {
    s.len() == 0 || s[0] == '#' || s[0] == '@'
}

/// One parsed line of the metadata file.
#[derive(Debug)]
pub enum MetaLine {
    /// A comment or empty line.
    Skip,
    /// A window record: the time-series path, then one bias position and one
    /// bias force constant per dimension, still as their column text.
    Record { path: String, bias_pos: Vec<String>, bias_fc: Vec<String> },
}

/// One parsed line of a window file.
#[derive(Debug)]
pub enum WindowLine {
    /// A comment, directive or empty line.
    Skip,
    /// A sample record: the time column followed by one reaction-coordinate
    /// column per dimension, still as their column text.
    Values(Vec<String>),
}

/// Does a metadata line have enough columns for `dimens` dimensions?
pub open spec fn spec_meta_cols_ok(s: Seq<char>, dimens: nat) -> bool {
    spec_tokens(s).len() >= 1 + 2 * dimens
}

/// Are all bias-position columns of a metadata line numbers?
pub open spec fn spec_meta_pos_ok(s: Seq<char>, dimens: nat) -> bool {
    forall|i: int|
        1 <= i < 1 + dimens ==> spec_is_float_literal(#[trigger] spec_tokens(s)[i])
}

/// Are all force-constant columns of a metadata line numbers?
pub open spec fn spec_meta_fc_ok(s: Seq<char>, dimens: nat) -> bool {
    forall|i: int|
        1 + dimens <= i < 1 + 2 * dimens ==> spec_is_float_literal(#[trigger] spec_tokens(s)[i])
}

/// Does a window line have enough columns for `dimens` dimensions?
pub open spec fn spec_window_cols_ok(s: Seq<char>, dimens: nat) -> bool {
    spec_tokens(s).len() >= 1 + dimens
}

/// Are the time and coordinate columns of a window line numbers?
pub open spec fn spec_window_vals_ok(s: Seq<char>, dimens: nat) -> bool {
    forall|i: int|
        0 <= i < 1 + dimens ==> spec_is_float_literal(#[trigger] spec_tokens(s)[i])
}

/// Parses one metadata line for a `dimens`-dimensional grid: the record is
/// `path  pos_1 .. pos_D  fc_1 .. fc_D`. Errors carry the one-based line
/// number `line_num`; a record is rejected if and only if it has too few
/// columns or one of its numeric columns is not a number.
#[verifier::loop_isolation(false)]
pub fn parse_metadata_line(line: &str, dimens: usize, line_num: usize) -> (r: Result<
    MetaLine,
    WhamError,
>)
    requires
        1 + 2 * dimens <= usize::MAX,
    ensures
        ({
            let toks = spec_tokens(line@);
            let ok_cols = spec_meta_cols_ok(line@, dimens as nat);
            let pos_ok = spec_meta_pos_ok(line@, dimens as nat);
            let fc_ok = spec_meta_fc_ok(line@, dimens as nat);
            &&& (spec_meta_skip(line@) ==> r matches Ok(MetaLine::Skip))
            &&& (!spec_meta_skip(line@) && !ok_cols ==> r == Err::<MetaLine, WhamError>(
                WhamError::MetaColumns { line: line_num },
            ))
            &&& (!spec_meta_skip(line@) && ok_cols && !pos_ok ==> r == Err::<
                MetaLine,
                WhamError,
            >(WhamError::MetaBiasPos { line: line_num }))
            &&& (!spec_meta_skip(line@) && ok_cols && pos_ok && !fc_ok ==> r == Err::<
                MetaLine,
                WhamError,
            >(WhamError::MetaBiasFc { line: line_num }))
            &&& (!spec_meta_skip(line@) && ok_cols && pos_ok && fc_ok ==> (r matches Ok(
                MetaLine::Record { path, bias_pos, bias_fc },
            ) && path@ == toks[0] && bias_pos.deep_view() =~= toks.subrange(
                1,
                1 + dimens as int,
            ) && bias_fc.deep_view() =~= toks.subrange(
                1 + dimens as int,
                1 + 2 * dimens as int,
            )))
        }),
{
    if line.unicode_len() == 0 {
        return Ok(MetaLine::Skip);
    }
    if line.get_char(0) == '#' {
        return Ok(MetaLine::Skip);
    }
    let tokens = split_columns(line);
    let ghost toks = spec_tokens(line@);
    if tokens.len() < 1 + 2 * dimens {
        return Err(WhamError::MetaColumns { line: line_num });
    }
    let mut i: usize = 0;
    while i < dimens
        invariant
            i <= dimens,
            1 + 2 * dimens <= tokens@.len(),
            tokens.deep_view() == toks,
            forall|j: int| 1 <= j < 1 + i ==> spec_is_float_literal(#[trigger] toks[j]),
        decreases dimens - i,
    {
        if !is_float_token(tokens[1 + i].as_str()) {
            proof {
                assert(toks[1 + i as int] == tokens@[1 + i as int]@);
            }
            return Err(WhamError::MetaBiasPos { line: line_num });
        }
        i = i + 1;
    }
    let mut i: usize = 0;
    while i < dimens
        invariant
            i <= dimens,
            1 + 2 * dimens <= tokens@.len(),
            tokens.deep_view() == toks,
            forall|j: int|
                1 + dimens <= j < 1 + dimens + i ==> spec_is_float_literal(#[trigger] toks[j]),
        decreases dimens - i,
    {
        if !is_float_token(tokens[1 + dimens + i].as_str()) {
            proof {
                assert(toks[1 + dimens + i as int] == tokens@[1 + dimens + i as int]@);
            }
            return Err(WhamError::MetaBiasFc { line: line_num });
        }
        i = i + 1;
    }
    let path = tokens[0].clone();
    let mut bias_pos: Vec<String> = Vec::new();
    let mut i: usize = 0;
    while i < dimens
        invariant
            i <= dimens,
            1 + 2 * dimens <= tokens@.len(),
            tokens.deep_view() == toks,
            bias_pos@.len() == i,
            forall|j: int| 0 <= j < i ==> bias_pos.deep_view()[j] == toks[1 + j],
        decreases dimens - i,
    {
        let ghost pre = bias_pos.deep_view();
        bias_pos.push(tokens[1 + i].clone());
        proof {
            assert(bias_pos.deep_view() =~~= pre.push(tokens@[1 + i as int]@));
            assert(toks[1 + i as int] == tokens@[1 + i as int]@);
        }
        i = i + 1;
    }
    let mut bias_fc: Vec<String> = Vec::new();
    let mut i: usize = 0;
    while i < dimens
        invariant
            i <= dimens,
            1 + 2 * dimens <= tokens@.len(),
            tokens.deep_view() == toks,
            bias_fc@.len() == i,
            forall|j: int| 0 <= j < i ==> bias_fc.deep_view()[j] == toks[1 + dimens + j],
        decreases dimens - i,
    {
        let ghost pre = bias_fc.deep_view();
        bias_fc.push(tokens[1 + dimens + i].clone());
        proof {
            assert(bias_fc.deep_view() =~~= pre.push(tokens@[1 + dimens + i as int]@));
            assert(toks[1 + dimens + i as int] == tokens@[1 + dimens + i as int]@);
        }
        i = i + 1;
    }
    proof {
        assert(bias_pos.deep_view() =~= toks.subrange(1, 1 + dimens as int));
        assert(bias_fc.deep_view() =~= toks.subrange(1 + dimens as int, 1 + 2 * dimens as int));
    }
    Ok(MetaLine::Record { path, bias_pos, bias_fc })
}

/// Parses one line of the window file `file` for a `dimens`-dimensional
/// grid: the record is `t  x_1 .. x_D`; further columns are ignored. Errors
/// carry the one-based line number and the file. A record is rejected if
/// and only if it has too few columns or one of its first `1 + dimens`
/// columns is not a number.
#[verifier::loop_isolation(false)]
pub fn parse_window_line(line: &str, dimens: usize, line_num: usize, file: &str) -> (r: Result<
    WindowLine,
    WhamError,
>)
    requires
        1 + dimens <= usize::MAX,
    ensures
        ({
            let toks = spec_tokens(line@);
            let ok_cols = spec_window_cols_ok(line@, dimens as nat);
            let vals_ok = spec_window_vals_ok(line@, dimens as nat);
            &&& (spec_window_skip(line@) ==> r matches Ok(WindowLine::Skip))
            &&& (!spec_window_skip(line@) && !ok_cols ==> (r matches Err(
                WhamError::WindowColumns { line: l, file: f },
            ) && l == line_num && f@ == file@))
            &&& (!spec_window_skip(line@) && ok_cols && !vals_ok ==> (r matches Err(
                WhamError::WindowValue { line: l, file: f },
            ) && l == line_num && f@ == file@))
            &&& (!spec_window_skip(line@) && ok_cols && vals_ok ==> (r matches Ok(
                WindowLine::Values(values),
            ) && values.deep_view() =~= toks.subrange(0, 1 + dimens as int)))
        }),
{
    if line.unicode_len() == 0 {
        return Ok(WindowLine::Skip);
    }
    let c0 = line.get_char(0);
    if c0 == '#' || c0 == '@' {
        return Ok(WindowLine::Skip);
    }
    let tokens = split_columns(line);
    let ghost toks = spec_tokens(line@);
    if tokens.len() < 1 + dimens {
        return Err(WhamError::WindowColumns { line: line_num, file: file.to_owned() });
    }
    let mut i: usize = 0;
    while i < 1 + dimens
        invariant
            i <= 1 + dimens <= tokens@.len(),
            tokens.deep_view() == toks,
            forall|j: int| 0 <= j < i ==> spec_is_float_literal(#[trigger] toks[j]),
        decreases 1 + dimens - i,
    {
        if !is_float_token(tokens[i].as_str()) {
            proof {
                assert(toks[i as int] == tokens@[i as int]@);
            }
            return Err(WhamError::WindowValue { line: line_num, file: file.to_owned() });
        }
        i = i + 1;
    }
    let mut values: Vec<String> = Vec::new();
    let mut i: usize = 0;
    while i < 1 + dimens
        invariant
            i <= 1 + dimens <= tokens@.len(),
            tokens.deep_view() == toks,
            values@.len() == i,
            forall|j: int| 0 <= j < i ==> values.deep_view()[j] == toks[j],
        decreases 1 + dimens - i,
    {
        let ghost pre = values.deep_view();
        values.push(tokens[i].clone());
        proof {
            assert(values.deep_view() =~~= pre.push(tokens@[i as int]@));
            assert(toks[i as int] == tokens@[i as int]@);
        }
        i = i + 1;
    }
    proof {
        assert(values.deep_view() =~= toks.subrange(0, 1 + dimens as int));
    }
    Ok(WindowLine::Values(values))
}

} // verus!
