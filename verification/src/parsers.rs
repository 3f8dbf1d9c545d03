//! Line extractor and field splitter over raw header-block bytes.

use vstd::prelude::*;

use crate::chars::is_field_vchar;
use crate::chars::is_field_vchar_spec;
use crate::chars::is_lf_spec;
use crate::chars::is_tchar;
use crate::chars::is_tchar_spec;
use crate::chars::is_wsp;
use crate::chars::is_wsp_spec;

verus! {

/// The error taxonomy of the field splitter. Every error is terminal and
/// returned directly to the caller; nothing is retried or recovered.
#[derive(Clone, Copy, Debug, PartialEq, Eq, Structural)]
pub enum ParseError {
    /// A byte before the delimiter is not a token character, or the
    /// delimiter occurs with no preceding bytes at all.
    InvalidHeaderKeyChar,
    /// Reserved alias for a value-alphabet failure; the splitter reports
    /// every value-grammar failure as `InvalidHeaderValue`.
    InvalidHeaderValueChar,
    /// No name/value delimiter exists anywhere in the line.
    ColonNotFound,
    /// The bytes after the delimiter do not match the field-value grammar.
    InvalidHeaderValue,
}

/// The index of the first occurrence of `c` in `s`, or `s.len()` if `s`
/// has none.
pub open spec fn find_byte(s: Seq<u8>, c: u8) -> int
    decreases s.len(),
{
    if s.len() == 0 {
        0
    } else if s[0] == c {
        0
    } else {
        1 + find_byte(s.drop_first(), c)
    }
}

pub proof fn lemma_find_byte(s: Seq<u8>, c: u8)
    ensures
        0 <= find_byte(s, c) <= s.len(),
        find_byte(s, c) < s.len() ==> s[find_byte(s, c)] == c,
        forall|i: int| 0 <= i < find_byte(s, c) ==> s[i] != c,
    decreases s.len(),
{
    if s.len() == 0 {
    } else if s[0] == c {
    } else {
        lemma_find_byte(s.drop_first(), c);
        assert forall|i: int| 0 <= i < find_byte(s, c) implies s[i] != c by {
            if i > 0 {
                assert(s.drop_first()[i - 1] == s[i]);
            }
        }
    }
}

/// The index of the first LF byte of `s`, or `s.len()` if `s` has none.
pub open spec fn find_lf(s: Seq<u8>) -> int {
    find_byte(s, 0x0a)
}

pub proof fn lemma_find_lf(s: Seq<u8>)
    ensures
        0 <= find_lf(s) <= s.len(),
        find_lf(s) < s.len() ==> is_lf_spec(s[find_lf(s)]),
        forall|i: int| 0 <= i < find_lf(s) ==> !is_lf_spec(s[i]),
{
    lemma_find_byte(s, 0x0a);
}

/// A segment with its trailing CR byte, if it has one, dropped.
pub open spec fn trim_cr(s: Seq<u8>) -> Seq<u8> {
    if s.len() > 0 && s.last() == 0x0d {
        s.drop_last()
    } else {
        s
    }
}

/// The header lines of a block: the segments between LF bytes, each with a
/// trailing CR dropped, and every segment that is empty after that trimming
/// discarded, in input order.
pub open spec fn header_lines(b: Seq<u8>) -> Seq<Seq<u8>>
    decreases b.len(),
{
    let i = find_lf(b);
    if 0 <= i < b.len() {
        let t = trim_cr(b.subrange(0, i));
        let rest = header_lines(b.subrange(i + 1, b.len() as int));
        if t.len() == 0 {
            rest
        } else {
            seq![t] + rest
        }
    } else {
        let t = trim_cr(b);
        if t.len() == 0 {
            Seq::empty()
        } else {
            seq![t]
        }
    }
}

/// Every header line is non-empty: empty segments are discarded, never
/// represented as lines.
pub proof fn lemma_header_lines_nonempty(b: Seq<u8>)
    ensures
        forall|k: int| 0 <= k < header_lines(b).len() ==> header_lines(b)[k].len() > 0,
    decreases b.len(),
{
    let i = find_lf(b);
    lemma_find_lf(b);
    if 0 <= i < b.len() {
        let t = trim_cr(b.subrange(0, i));
        let rest = header_lines(b.subrange(i + 1, b.len() as int));
        lemma_header_lines_nonempty(b.subrange(i + 1, b.len() as int));
        if t.len() > 0 {
            assert forall|k: int| 0 <= k < header_lines(b).len() implies header_lines(
                b,
            )[k].len() > 0 by {
                if k > 0 {
                    assert(header_lines(b)[k] == rest[k - 1]);
                }
            }
        }
    }
}

/// The views of a sequence of borrowed byte slices.
pub open spec fn views(r: Seq<&[u8]>) -> Seq<Seq<u8>> {
    r.map_values(|s: &[u8]| s@)
}

/// Splitting off the first segment: if the first LF of `b` stands at `i`,
/// the header lines of `b` are the trimmed segment before `i` (kept only if
/// non-empty) followed by the header lines of what comes after `i`.
pub proof fn lemma_header_lines_step(b: Seq<u8>, i: int)
    requires
        0 <= i < b.len(),
        is_lf_spec(b[i]),
        forall|k: int| 0 <= k < i ==> !is_lf_spec(b[k]),
    ensures
        trim_cr(b.subrange(0, i)).len() == 0 ==> header_lines(b) == header_lines(
            b.subrange(i + 1, b.len() as int),
        ),
        trim_cr(b.subrange(0, i)).len() > 0 ==> header_lines(b) == seq![
            trim_cr(b.subrange(0, i)),
        ] + header_lines(b.subrange(i + 1, b.len() as int)),
{
    lemma_find_lf(b);
    let f = find_lf(b);
    if f < i {
        assert(is_lf_spec(b[f]));
        assert(false);
    }
    if f > i {
        assert(!is_lf_spec(b[i]));
        assert(false);
    }
}

/// No LF anywhere in `b`: the whole of `b` is one final segment.
pub proof fn lemma_header_lines_last(b: Seq<u8>)
    requires
        forall|k: int| 0 <= k < b.len() ==> !is_lf_spec(b[k]),
    ensures
        trim_cr(b).len() == 0 ==> header_lines(b) == Seq::<Seq<u8>>::empty(),
        trim_cr(b).len() > 0 ==> header_lines(b) == seq![trim_cr(b)],
{
    lemma_find_lf(b);
    let f = find_lf(b);
    if f < b.len() {
        assert(is_lf_spec(b[f]));
        assert(false);
    }
}

/// Splits a header block into its header lines: the input is split on LF
/// bytes, each segment loses a trailing CR if it has one, and segments that
/// are empty after that trimming are discarded. The order of the returned
/// slices matches the input order; no line content is validated here, and
/// no returned slice is ever empty.
pub fn extract_header_lines<'a>(headers: &'a [u8]) -> (r: Vec<&'a [u8]>)
    ensures
        views(r@) == header_lines(headers@),
        forall|k: int| 0 <= k < r@.len() ==> r@[k]@.len() > 0,
{
    let ghost full = headers@;
    let mut result: Vec<&'a [u8]> = Vec::new();
    let mut start: usize = 0;
    let mut j: usize = 0;
    proof {
        assert(full.subrange(0, full.len() as int) =~= full);
        assert(views(result@) + header_lines(full) =~= header_lines(full));
    }
    while j < headers.len()
        invariant
            start <= j <= full.len(),
            full == headers@,
            forall|k: int| start <= k < j ==> !is_lf_spec(full[k]),
            views(result@) + header_lines(full.subrange(start as int, full.len() as int))
                == header_lines(full),
            forall|k: int| 0 <= k < result@.len() ==> result@[k]@.len() > 0,
        decreases full.len() - j,
    {
        if headers[j] == 0x0a {
            let ghost old_result = result@;
            let ghost suffix = full.subrange(start as int, full.len() as int);
            let seg = vstd::slice::slice_subrange(headers, start, j);
            let line = if seg.len() > 0 && seg[seg.len() - 1] == 0x0d {
                vstd::slice::slice_subrange(seg, 0, seg.len() - 1)
            } else {
                seg
            };
            proof {
                assert(seg@ =~= suffix.subrange(0, j - start));
                assert(line@ =~= trim_cr(seg@));
                assert(suffix.subrange(j - start + 1, suffix.len() as int) =~= full.subrange(
                    j + 1,
                    full.len() as int,
                ));
                lemma_header_lines_step(suffix, j - start);
            }
            if line.len() > 0 {
                result.push(line);
                proof {
                    assert(views(result@) =~= views(old_result) + seq![line@]);
                }
            }
            start = j + 1;
        }
        j += 1;
    }
    let ghost suffix = full.subrange(start as int, full.len() as int);
    let ghost old_result = result@;
    let seg = vstd::slice::slice_subrange(headers, start, headers.len());
    let line = if seg.len() > 0 && seg[seg.len() - 1] == 0x0d {
        vstd::slice::slice_subrange(seg, 0, seg.len() - 1)
    } else {
        seg
    };
    proof {
        assert(seg@ =~= suffix);
        assert(line@ =~= trim_cr(seg@));
        lemma_header_lines_last(suffix);
    }
    if line.len() > 0 {
        result.push(line);
        proof {
            assert(views(result@) =~= views(old_result) + seq![line@]);
        }
    }
    proof {
        assert(views(result@) =~= header_lines(full));
    }
    result
}

/// A valid field-name: at least one byte, every byte a token character.
pub open spec fn valid_field_name(s: Seq<u8>) -> bool {
    s.len() > 0 && forall|i: int| 0 <= i < s.len() ==> is_tchar_spec(s[i])
}

/// The raw bytes after the delimiter match the field-value grammar exactly
/// when every byte is whitespace or a field-vchar: stripping the surrounding
/// whitespace then leaves a core that is empty or starts and ends with a
/// field-vchar.
pub open spec fn valid_field_value(s: Seq<u8>) -> bool {
    forall|i: int| 0 <= i < s.len() ==> is_wsp_spec(s[i]) || is_field_vchar_spec(s[i])
}

/// `s` with its leading run of whitespace dropped.
pub open spec fn trim_leading_wsp(s: Seq<u8>) -> Seq<u8>
    decreases s.len(),
{
    if s.len() > 0 && is_wsp_spec(s[0]) {
        trim_leading_wsp(s.drop_first())
    } else {
        s
    }
}

/// `s` with its trailing run of whitespace dropped.
pub open spec fn trim_trailing_wsp(s: Seq<u8>) -> Seq<u8>
    decreases s.len(),
{
    if s.len() > 0 && is_wsp_spec(s.last()) {
        trim_trailing_wsp(s.drop_last())
    } else {
        s
    }
}

/// `s` with its surrounding (leading and trailing) whitespace dropped;
/// interior whitespace runs are preserved verbatim.
pub open spec fn trim_wsp(s: Seq<u8>) -> Seq<u8> {
    trim_trailing_wsp(trim_leading_wsp(s))
}

/// No byte of `s` is an LF.
pub open spec fn lf_free(s: Seq<u8>) -> bool {
    forall|i: int| 0 <= i < s.len() ==> !is_lf_spec(s[i])
}

/// Header lines never contain an LF byte: they are the segments between
/// the LF bytes of the block.
pub proof fn lemma_header_lines_lf_free(b: Seq<u8>)
    ensures
        forall|k: int| 0 <= k < header_lines(b).len() ==> lf_free(#[trigger] header_lines(b)[k]),
    decreases b.len(),
{
    let i = find_lf(b);
    lemma_find_lf(b);
    if 0 <= i < b.len() {
        let t = trim_cr(b.subrange(0, i));
        let rest = header_lines(b.subrange(i + 1, b.len() as int));
        lemma_header_lines_lf_free(b.subrange(i + 1, b.len() as int));
        assert(lf_free(t));
        if t.len() > 0 {
            assert forall|k: int| 0 <= k < header_lines(b).len() implies lf_free(
                #[trigger] header_lines(b)[k],
            ) by {
                if k > 0 {
                    assert(header_lines(b)[k] == rest[k - 1]);
                }
            }
        }
    } else {
        assert(lf_free(trim_cr(b)));
    }
}

/// The trimmed sequence is a suffix of `s`, and its first byte, if it has
/// one, is not whitespace.
pub proof fn lemma_trim_leading_wsp_props(s: Seq<u8>)
    ensures
        trim_leading_wsp(s).len() <= s.len(),
        trim_leading_wsp(s) == s.subrange(s.len() - trim_leading_wsp(s).len(), s.len() as int),
        trim_leading_wsp(s).len() > 0 ==> !is_wsp_spec(trim_leading_wsp(s)[0]),
    decreases s.len(),
{
    if s.len() > 0 && is_wsp_spec(s[0]) {
        lemma_trim_leading_wsp_props(s.drop_first());
        let t = trim_leading_wsp(s);
        assert(s.drop_first().subrange(
            s.drop_first().len() - t.len(),
            s.drop_first().len() as int,
        ) =~= s.subrange(s.len() - t.len(), s.len() as int));
    } else {
        assert(s.subrange(0, s.len() as int) =~= s);
    }
}

/// The trimmed sequence is a prefix of `s`, and its last byte, if it has
/// one, is not whitespace.
pub proof fn lemma_trim_trailing_wsp_props(s: Seq<u8>)
    ensures
        trim_trailing_wsp(s).len() <= s.len(),
        trim_trailing_wsp(s) == s.subrange(0, trim_trailing_wsp(s).len() as int),
        trim_trailing_wsp(s).len() > 0 ==> !is_wsp_spec(trim_trailing_wsp(s).last()),
    decreases s.len(),
{
    if s.len() > 0 && is_wsp_spec(s.last()) {
        lemma_trim_trailing_wsp_props(s.drop_last());
        let t = trim_trailing_wsp(s);
        assert(s.drop_last().subrange(0, t.len() as int) =~= s.subrange(0, t.len() as int));
    } else {
        assert(s.subrange(0, s.len() as int) =~= s);
    }
}

/// Stripping surrounding whitespace keeps every remaining byte inside the
/// field-value alphabet, and doing it twice is the same as doing it once.
pub proof fn lemma_trim_wsp_props(s: Seq<u8>)
    ensures
        valid_field_value(s) ==> valid_field_value(trim_wsp(s)),
        trim_wsp(trim_wsp(s)) == trim_wsp(s),
{
    lemma_trim_leading_wsp_props(s);
    let t1 = trim_leading_wsp(s);
    lemma_trim_trailing_wsp_props(t1);
    let t2 = trim_trailing_wsp(t1);
    assert forall|i: int| 0 <= i < t2.len() implies t2[i] == s[i + (s.len() - t1.len())] by {
        assert(t2[i] == t1[i]);
    }
    if t2.len() > 0 {
        assert(t2[0] == t1[0]);
        assert(!is_wsp_spec(t2[0]));
        assert(!is_wsp_spec(t2.last()));
    }
    assert(trim_leading_wsp(t2) == t2);
    assert(trim_trailing_wsp(t2) == t2);
}

/// What splitting one header line yields: the scan walks left to right and
/// fails fast on the first byte before the delimiter that is not a token
/// character; a line with no colon at all fails with `ColonNotFound`; a
/// zero-length name is rejected as a key-character error; and the value
/// candidate after the colon must match the field-value grammar, the
/// returned value being the candidate with surrounding whitespace stripped.
pub open spec fn split_header_line(l: Seq<u8>) -> Result<(Seq<u8>, Seq<u8>), ParseError> {
    let c = find_byte(l, 0x3a);
    if exists|i: int| 0 <= i < c && !is_tchar_spec(l[i]) {
        Err(ParseError::InvalidHeaderKeyChar)
    } else if c >= l.len() {
        Err(ParseError::ColonNotFound)
    } else if c == 0 {
        Err(ParseError::InvalidHeaderKeyChar)
    } else if valid_field_value(l.subrange(c + 1, l.len() as int)) {
        Ok((l.subrange(0, c), trim_wsp(l.subrange(c + 1, l.len() as int))))
    } else {
        Err(ParseError::InvalidHeaderValue)
    }
}

pub proof fn lemma_trim_leading_wsp(s: Seq<u8>, a: int)
    requires
        0 <= a <= s.len(),
        forall|k: int| 0 <= k < a ==> is_wsp_spec(s[k]),
        a == s.len() || !is_wsp_spec(s[a]),
    ensures
        trim_leading_wsp(s) == s.subrange(a, s.len() as int),
    decreases a,
{
    if a == 0 {
        assert(s.subrange(0, s.len() as int) =~= s);
    } else {
        assert(is_wsp_spec(s[0]));
        lemma_trim_leading_wsp(s.drop_first(), a - 1);
        assert(s.drop_first().subrange(a - 1, s.drop_first().len() as int) =~= s.subrange(
            a,
            s.len() as int,
        ));
    }
}

pub proof fn lemma_trim_trailing_wsp(s: Seq<u8>, b: int)
    requires
        0 <= b <= s.len(),
        forall|k: int| b <= k < s.len() ==> is_wsp_spec(s[k]),
        b == 0 || !is_wsp_spec(s[b - 1]),
    ensures
        trim_trailing_wsp(s) == s.subrange(0, b),
    decreases s.len() - b,
{
    if b == s.len() {
        assert(s.subrange(0, s.len() as int) =~= s);
    } else {
        assert(is_wsp_spec(s.last()));
        lemma_trim_trailing_wsp(s.drop_last(), b);
        assert(s.drop_last().subrange(0, b) =~= s.subrange(0, b));
    }
}

/// Splits one header line at the first colon into its field-name and its
/// field-value. The name is validated against the token-character alphabet
/// with a fail-fast scan; the value is validated against the field-value
/// alphabet and returned with surrounding whitespace stripped but interior
/// whitespace preserved.
#[verifier::loop_isolation(false)]
pub fn extract_header_name_value<'a>(header_line: &'a [u8]) -> (r: Result<
    (&'a [u8], &'a [u8]),
    ParseError,
>)
    ensures
        match r {
            Ok(p) => split_header_line(header_line@) == Ok::<(Seq<u8>, Seq<u8>), ParseError>(
                (p.0@, p.1@),
            ),
            Err(e) => split_header_line(header_line@) == Err::<(Seq<u8>, Seq<u8>), ParseError>(e),
        },
{
    let ghost l = header_line@;
    let n = header_line.len();
    let mut i: usize = 0;
    while i < n && header_line[i] != 0x3a && is_tchar(header_line[i])
        invariant
            0 <= i <= n == l.len(),
            l == header_line@,
            forall|k: int| 0 <= k < i ==> is_tchar_spec(l[k]) && l[k] != 0x3a,
        decreases n - i,
    {
        i += 1;
    }
    proof {
        lemma_find_byte(l, 0x3a);
    }
    if i == n {
        // every byte is a token character and none is a colon
        return Err(ParseError::ColonNotFound);
    }
    if header_line[i] != 0x3a {
        // fail fast: the first offending byte precedes any colon
        proof {
            assert(l[i as int] != 0x3a);
            assert(find_byte(l, 0x3a) > i);
        }
        return Err(ParseError::InvalidHeaderKeyChar);
    }
    // the first colon stands at `i`
    proof {
        assert(find_byte(l, 0x3a) == i);
    }
    if i == 0 {
        // a field-name is a token, which needs at least one character
        return Err(ParseError::InvalidHeaderKeyChar);
    }
    let rest = vstd::slice::slice_subrange(header_line, i + 1, n);
    let ghost rs = rest@;
    proof {
        assert(rs == l.subrange(i + 1, n as int));
    }
    let m = rest.len();
    let mut v: usize = 0;
    while v < m
        invariant
            0 <= v <= m == rs.len(),
            rs == rest@,
            forall|k: int| 0 <= k < v ==> is_wsp_spec(rs[k]) || is_field_vchar_spec(rs[k]),
        decreases m - v,
    {
        let c = rest[v];
        if !is_wsp(c) && !is_field_vchar(c) {
            proof {
                assert(!valid_field_value(rs));
            }
            return Err(ParseError::InvalidHeaderValue);
        }
        v += 1;
    }
    assert(valid_field_value(rs));
    // strip the surrounding whitespace, keeping interior runs verbatim
    let mut a: usize = 0;
    while a < m && is_wsp(rest[a])
        invariant
            0 <= a <= m == rs.len(),
            rs == rest@,
            forall|k: int| 0 <= k < a ==> is_wsp_spec(rs[k]),
        decreases m - a,
    {
        a += 1;
    }
    let mut b: usize = m;
    while b > a && is_wsp(rest[b - 1])
        invariant
            a <= b <= m == rs.len(),
            rs == rest@,
            forall|k: int| b <= k < m ==> is_wsp_spec(rs[k]),
        decreases b,
    {
        b -= 1;
    }
    proof {
        lemma_trim_leading_wsp(rs, a as int);
        let t = rs.subrange(a as int, m as int);
        lemma_trim_trailing_wsp(t, b - a);
        assert(t.subrange(0, b - a) =~= rs.subrange(a as int, b as int));
        assert(trim_wsp(rs) == rs.subrange(a as int, b as int));
    }
    let key = vstd::slice::slice_subrange(header_line, 0, i);
    let value = vstd::slice::slice_subrange(rest, a, b);
    Ok((key, value))
}

} // verus!
