//! Library-wide laws: round-trip properties relating the line extractor
//! and the field splitter to their inputs.

use vstd::prelude::*;

use crate::chars::is_tchar_spec;
use crate::parsers::ParseError;
use crate::parsers::find_byte;
use crate::parsers::header_lines;
use crate::parsers::lemma_find_byte;
use crate::parsers::lemma_header_lines_lf_free;
use crate::parsers::lemma_header_lines_nonempty;
use crate::parsers::lemma_trim_wsp_props;
use crate::parsers::lf_free;
use crate::parsers::split_header_line;
use crate::parsers::trim_cr;
use crate::parsers::trim_wsp;
use crate::parsers::valid_field_name;
use crate::parsers::valid_field_value;

verus! {

/// The lines of `ls` concatenated in order, each followed by `term`.
pub open spec fn join_lines(ls: Seq<Seq<u8>>, term: Seq<u8>) -> Seq<u8>
    decreases ls.len(),
{
    if ls.len() == 0 {
        Seq::empty()
    } else {
        ls[0] + term + join_lines(ls.drop_first(), term)
    }
}

/// Joining lines with either line terminator and extracting again yields
/// the lines unchanged, provided each line is non-empty and LF-free (as
/// every extracted header line is), and — for the bare-LF terminator only —
/// no line ends in a CR byte, since that trailing CR would be absorbed by
/// the next terminator's trimming.
pub proof fn lemma_join_lines_round_trip(ls: Seq<Seq<u8>>, term: Seq<u8>)
    requires
        term == seq![0x0du8, 0x0au8] || term == seq![0x0au8],
        forall|k: int| 0 <= k < ls.len() ==> (#[trigger] ls[k]).len() > 0,
        forall|k: int| 0 <= k < ls.len() ==> lf_free(#[trigger] ls[k]),
        term == seq![0x0au8] ==> forall|k: int| 0 <= k < ls.len() ==> (#[trigger] ls[k]).last()
            != 0x0d,
    ensures
        header_lines(join_lines(ls, term)) == ls,
    decreases ls.len(),
{
    let j = join_lines(ls, term);
    if ls.len() == 0 {
        assert(header_lines(j) =~= ls);
    } else {
        let line = ls[0];
        let tail = join_lines(ls.drop_first(), term);
        let pos = line.len() + term.len() - 1;
        lemma_find_byte(j, 0x0a);
        assert(j[pos as int] == term.last());
        assert forall|k: int| 0 <= k < pos implies j[k] != 0x0a by {
            if k < line.len() {
                assert(j[k] == line[k]);
            } else {
                assert(j[k] == term[k - line.len()]);
            }
        }
        let f = find_byte(j, 0x0a);
        assert(f == pos) by {
            if f < pos {
                assert(j[f] != 0x0a);
            }
            if f > pos {
                assert(j[pos as int] == 0x0a);
            }
        }
        let seg = j.subrange(0, pos as int);
        if term == seq![0x0du8, 0x0au8] {
            assert(seg =~= line + seq![0x0du8]);
            assert(seg.drop_last() =~= line);
            assert(trim_cr(seg) == line);
        } else {
            assert(seg =~= line);
            assert(trim_cr(seg) == line);
        }
        assert(j.subrange(pos + 1, j.len() as int) =~= tail);
        lemma_join_lines_round_trip(ls.drop_first(), term);
        assert(header_lines(j) =~= seq![line] + ls.drop_first());
        assert(seq![line] + ls.drop_first() =~= ls);
    }
}

/// Rejoining the extracted header lines of any block with the CRLF
/// terminator and extracting again reproduces exactly the same lines: the
/// extracted lines are the terminator-normalized view of the block.
pub proof fn lemma_header_lines_rejoin_crlf(b: Seq<u8>)
    ensures
        header_lines(join_lines(header_lines(b), seq![0x0du8, 0x0au8])) == header_lines(b),
{
    lemma_header_lines_nonempty(b);
    lemma_header_lines_lf_free(b);
    lemma_join_lines_round_trip(header_lines(b), seq![0x0du8, 0x0au8]);
}

/// A successful split yields a well-formed pair: the name is a non-empty
/// run of token characters, and the value lies in the field-value alphabet
/// with no surrounding whitespace left to strip.
pub proof fn lemma_split_well_formed(l: Seq<u8>, name: Seq<u8>, value: Seq<u8>)
    requires
        split_header_line(l) == Ok::<(Seq<u8>, Seq<u8>), ParseError>((name, value)),
    ensures
        valid_field_name(name),
        valid_field_value(value),
        trim_wsp(value) == value,
{
    lemma_find_byte(l, 0x3a);
    let c = find_byte(l, 0x3a);
    let rest = l.subrange(c + 1, l.len() as int);
    assert(name == l.subrange(0, c));
    assert forall|i: int| 0 <= i < name.len() implies is_tchar_spec(name[i]) by {
        assert(name[i] == l[i]);
    }
    lemma_trim_wsp_props(rest);
}

/// Splitting is idempotent under rejoining in the whitespace-stripped form:
/// if a line splits into `(name, value)`, then the line `name + ":" + value`
/// splits into exactly the same pair.
pub proof fn lemma_split_rejoin(l: Seq<u8>, name: Seq<u8>, value: Seq<u8>)
    requires
        split_header_line(l) == Ok::<(Seq<u8>, Seq<u8>), ParseError>((name, value)),
    ensures
        split_header_line(name + seq![0x3au8] + value) == Ok::<(Seq<u8>, Seq<u8>), ParseError>(
            (name, value),
        ),
{
    lemma_find_byte(l, 0x3a);
    let c = find_byte(l, 0x3a);
    let rest = l.subrange(c + 1, l.len() as int);
    assert(name == l.subrange(0, c));
    assert(value == trim_wsp(rest));
    assert(valid_field_value(rest));
    lemma_trim_wsp_props(rest);
    let l2 = name + seq![0x3au8] + value;
    lemma_find_byte(l2, 0x3a);
    let c2 = find_byte(l2, 0x3a);
    assert forall|k: int| 0 <= k < name.len() implies is_tchar_spec(l2[k]) && l2[k] != 0x3a by {
        assert(l2[k] == name[k]);
        assert(name[k] == l[k]);
        assert(is_tchar_spec(l[k]));
    }
    assert(l2[name.len() as int] == 0x3a);
    assert(c2 == name.len()) by {
        if c2 < name.len() {
            assert(l2[c2] != 0x3a);
        }
        if c2 > name.len() {
            assert(l2[name.len() as int] != 0x3a);
        }
    }
    let rest2 = l2.subrange(c2 + 1, l2.len() as int);
    assert(rest2 =~= value);
    assert(l2.subrange(0, c2) =~= name);
    assert(trim_wsp(rest2) == value);
}

} // verus!
