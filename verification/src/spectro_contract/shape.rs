//! The order and the characters of what the lexer accepts.
//!
//! An accepted document lists its header lines first, then its label line,
//! then its rows, each in file order; and no name, value, label or cell of it
//! holds a line feed or a carriage return.
use vstd::prelude::*;
use crate::spectro_contract::document::{
    header_count, header_step, headers_upto, is_header_line, lex_bytes, lex_text, line_kept,
    line_refusals, lines_of, piece_content, piece_refusals, row_step, rows_upto, has_utf8_mark,
    is_trailing, DocumentView, LineView,
};
use crate::text::{lemma_split_once_first, lemma_split_parts, split, split_once};

verus! {

/// Header lines come first, in file order, then the label line, then the rows
/// in file order; lines are counted from 1.
pub open spec fn in_file_order(d: DocumentView) -> bool {
    &&& forall|i: int| 0 <= i < d.0.len() ==> 1 <= (#[trigger] d.0[i]).2 < d.2
    &&& forall|i: int, j: int| 0 <= i < j < d.0.len() ==> (#[trigger] d.0[i]).2 < (#[trigger] d.0[j]).2
    &&& forall|r: int| 0 <= r < d.3.len() ==> d.2 < (#[trigger] d.3[r]).0
    &&& forall|r: int, s: int| 0 <= r < s < d.3.len() ==> (#[trigger] d.3[r]).0 < (#[trigger] d.3[s]).0
}

/// Text with no line feed and no carriage return in it.
pub open spec fn one_line(t: Seq<char>) -> bool {
    !t.contains('\n') && !t.contains('\r')
}

/// No name, value, label or cell holds a line ending, and no row's first cell
/// begins with `#`.
pub open spec fn free_of_line_endings(d: DocumentView) -> bool {
    &&& forall|i: int| 0 <= i < d.0.len() ==> one_line((#[trigger] d.0[i]).0) && one_line(d.0[i].1)
    &&& forall|i: int| 0 <= i < d.1.len() ==> one_line(#[trigger] d.1[i])
    &&& forall|r: int, c: int| 0 <= r < d.3.len() && 0 <= c < d.3[r].1.len() ==> one_line(#[trigger] d.3[r].1[c])
    &&& forall|r: int| 0 <= r < d.3.len() ==> !is_header_line((#[trigger] d.3[r]).1[0])
}

proof fn lemma_part_free(s: Seq<char>, t: Seq<char>, x: char, o: int)
    requires
        !s.contains(x),
        0 <= o,
        o + t.len() <= s.len(),
        t =~= s.subrange(o, o + t.len()),
    ensures
        !t.contains(x),
{
    if t.contains(x) {
        let k = choose|k: int| 0 <= k < t.len() && t[k] == x;
        assert(s[o + k] == x);
    }
}

proof fn lemma_one_line_part(s: Seq<char>, t: Seq<char>, o: int)
    requires
        one_line(s),
        0 <= o,
        o + t.len() <= s.len(),
        t =~= s.subrange(o, o + t.len()),
    ensures
        one_line(t),
{
    lemma_part_free(s, t, '\n', o);
    lemma_part_free(s, t, '\r', o);
}

/// The lines of the first `k` pieces are numbered within `1..=k`, in
/// increasing order; where those pieces were refused nothing, each line is
/// non-empty and holds no line ending.
proof fn lemma_lines_in_order(p: Seq<Seq<char>>, k: int)
    requires
        0 <= k <= p.len(),
        p.len() <= usize::MAX,
    ensures
        forall|j: int| 0 <= j < lines_of(p, k).len() ==> 1 <= (#[trigger] lines_of(p, k)[j]).0 <= k,
        forall|i: int, j: int| 0 <= i < j < lines_of(p, k).len() ==> (#[trigger] lines_of(p, k)[i]).0 < (#[trigger] lines_of(p, k)[j]).0,
        (forall|i: int| 0 <= i < p.len() ==> !(#[trigger] p[i]).contains('\n')) && line_refusals(p, k).len() == 0
            ==> forall|j: int| 0 <= j < lines_of(p, k).len() ==> one_line((#[trigger] lines_of(p, k)[j]).1),
    decreases k,
{
    if k > 0 {
        lemma_lines_in_order(p, k - 1);
        let l = lines_of(p, k - 1);
        if line_kept(p, k - 1) {
            let c = piece_content(p, k - 1);
            let l2 = l.push((k as usize, c));
            assert(lines_of(p, k) == l2);
            if (forall|i: int| 0 <= i < p.len() ==> !(#[trigger] p[i]).contains('\n')) && line_refusals(p, k).len() == 0 {
                assert(line_refusals(p, k) == line_refusals(p, k - 1) + piece_refusals(p, k - 1));
                assert(!is_trailing(p, k - 1));
                assert(!c.contains('\r'));
                assert(!p[k - 1].contains('\n'));
                assert(!c.contains('\n')) by {
                    if c.contains('\n') {
                        let m = choose|m: int| 0 <= m < c.len() && c[m] == '\n';
                        assert(p[k - 1][m] == '\n');
                    }
                }
                assert forall|j: int| 0 <= j < l2.len() implies one_line((#[trigger] l2[j]).1) by {
                    if j < l.len() {
                        assert(l2[j] == l[j]);
                    }
                }
            }
            assert forall|i: int, j: int| 0 <= i < j < l2.len() implies (#[trigger] l2[i]).0 < (#[trigger] l2[j]).0 by {
                assert(l2[i] == l[i]);
                if j < l.len() {
                    assert(l2[j] == l[j]);
                }
            }
            assert forall|j: int| 0 <= j < l2.len() implies 1 <= (#[trigger] l2[j]).0 <= k by {
                if j < l.len() {
                    assert(l2[j] == l[j]);
                }
            }
        } else {
            assert(lines_of(p, k) == l);
            if line_refusals(p, k).len() == 0 {
                assert(line_refusals(p, k) == line_refusals(p, k - 1) + piece_refusals(p, k - 1));
            }
        }
    }
}

/// Where the header lines of the first `k` lines were refused nothing, each
/// gave one header: its line, and its name and value around the first tab.
proof fn lemma_headers_follow_lines(l: Seq<LineView>, k: int)
    requires
        0 <= k <= l.len(),
        headers_upto(l, k).1.len() == 0,
    ensures
        headers_upto(l, k).0.len() == k,
        forall|i: int| 0 <= i < k ==> (#[trigger] headers_upto(l, k).0[i]).2 == l[i].0
            && l[i].1.drop_first() =~= headers_upto(l, k).0[i].0 + seq!['\t'] + headers_upto(l, k).0[i].1,
    decreases k,
{
    if k > 0 {
        let (hs, rs) = headers_upto(l, k - 1);
        let (hs2, r2) = header_step(hs, l[k - 1]);
        assert(headers_upto(l, k) == (hs2, rs + r2));
        assert(rs.len() == 0 && r2.len() == 0);
        lemma_headers_follow_lines(l, k - 1);
        let body = l[k - 1].1.drop_first();
        lemma_split_once_first(body, '\t');
        let (name, value) = split_once(body, '\t')->Some_0;
        assert(hs2 == hs.push((name, value, l[k - 1].0)));
        assert forall|i: int| 0 <= i < k implies (#[trigger] hs2[i]).2 == l[i].0
            && l[i].1.drop_first() =~= hs2[i].0 + seq!['\t'] + hs2[i].1 by {
            if i < k - 1 {
                assert(hs2[i] == hs[i]);
            }
        }
    }
}

/// Where the lines `start..k` were refused nothing, each gave one row: its
/// line and its cells, and none of those lines begins with `#`.
proof fn lemma_rows_follow_lines(l: Seq<LineView>, start: int, width: nat, k: int)
    requires
        0 <= start <= k <= l.len(),
        rows_upto(l, start, width, k).1.len() == 0,
    ensures
        rows_upto(l, start, width, k).0.len() == k - start,
        forall|j: int| 0 <= j < k - start ==> (#[trigger] rows_upto(l, start, width, k).0[j])
            == (l[start + j].0, split(l[start + j].1, '\t')) && !is_header_line(l[start + j].1),
    decreases k - start,
{
    if k > start {
        let (rows, rs) = rows_upto(l, start, width, k - 1);
        let (r1, r2) = row_step(l[k - 1], width);
        assert(rows_upto(l, start, width, k) == (rows + r1, rs + r2));
        assert(rs.len() == 0 && r2.len() == 0);
        lemma_rows_follow_lines(l, start, width, k - 1);
        let all = rows + r1;
        assert forall|j: int| 0 <= j < k - start implies (#[trigger] all[j]) == (l[start + j].0, split(
            l[start + j].1,
            '\t',
        )) && !is_header_line(l[start + j].1) by {
            if j < k - 1 - start {
                assert(all[j] == rows[j]);
            } else {
                assert(all[j] == r1[0]);
            }
        }
    }
}

proof fn lemma_header_count_bound(l: Seq<LineView>)
    ensures
        header_count(l) <= l.len(),
        forall|j: int| 0 <= j < header_count(l) ==> is_header_line(#[trigger] l[j].1),
    decreases l.len(),
{
    if l.len() > 0 && is_header_line(l[0].1) {
        lemma_header_count_bound(l.drop_first());
        assert forall|j: int| 0 <= j < header_count(l) implies is_header_line(#[trigger] l[j].1) by {
            if j > 0 {
                assert(l[j] == l.drop_first()[j - 1]);
            }
        }
    }
}

proof fn lemma_cells_one_line(line: Seq<char>)
    requires
        one_line(line),
    ensures
        forall|c: int| 0 <= c < split(line, '\t').len() ==> one_line(#[trigger] split(line, '\t')[c]),
{
    lemma_split_parts(line, '\t', '\n');
    lemma_split_parts(line, '\t', '\r');
}

proof fn lemma_first_cell(line: Seq<char>)
    requires
        !is_header_line(line),
    ensures
        split(line, '\t').len() > 0,
        !is_header_line(split(line, '\t')[0]),
{
    crate::text::lemma_split_step(line, '\t');
    lemma_split_once_first(line, '\t');
    match split_once(line, '\t') {
        Some((a, b)) => {
            if a.len() > 0 {
                assert(line[0] == a[0]);
            }
        },
        None => {},
    }
}

/// A document the lexer accepts lists its header lines, its label line and
/// its rows in file order, and none of its names, values, labels or cells
/// holds a line feed or a carriage return; no row's first cell begins with
/// `#`. (Lines are counted in a `usize`, so the text is shorter than
/// `usize::MAX`.)
#[verifier::spinoff_prover]
#[verifier::rlimit(30)]
pub proof fn law_a_lexed_document_keeps_file_order_and_single_lines(text: Seq<char>)
    requires
        text.len() < usize::MAX,
    ensures
        lex_text(text) matches Ok(d) ==> in_file_order(d) && free_of_line_endings(d),
{
    if let Ok(d) = lex_text(text) {
        let p = split(text, '\n');
        let l = lines_of(p, p.len() as int);
        let h = header_count(l);
        let r0 = line_refusals(p, p.len() as int);
        let (hs, r1) = headers_upto(l, h as int);
        let labels = split(l[h as int].1, '\t');
        let (rows, r3) = rows_upto(l, (h + 1) as int, labels.len(), l.len() as int);
        assert(h < l.len());
        assert(r0.len() == 0 && r1.len() == 0 && r3.len() == 0);
        assert(d == (hs, labels, l[h as int].0, rows));
        lemma_split_parts(text, '\n', '\n');
        crate::text::lemma_split_len(text, '\n');
        lemma_lines_in_order(p, p.len() as int);
        lemma_header_count_bound(l);
        lemma_headers_follow_lines(l, h as int);
        lemma_rows_follow_lines(l, (h + 1) as int, labels.len(), l.len() as int);
        assert forall|i: int| 0 <= i < hs.len() implies one_line((#[trigger] hs[i]).0) && one_line(hs[i].1) by {
            let s = l[i].1.drop_first();
            assert(one_line(l[i].1));
            lemma_one_line_part(l[i].1, s, 1);
            lemma_one_line_part(s, hs[i].0, 0);
            lemma_one_line_part(s, hs[i].1, (hs[i].0.len() + 1) as int);
        }
        lemma_cells_one_line(l[h as int].1);
        assert forall|r: int, c: int| 0 <= r < rows.len() && 0 <= c < rows[r].1.len() implies one_line(#[trigger] rows[r].1[c]) by {
            let j = h + 1 + r;
            assert(rows[r] == (l[j].0, split(l[j].1, '\t')));
            lemma_cells_one_line(l[j].1);
        }
        assert forall|r: int| 0 <= r < rows.len() implies !is_header_line((#[trigger] rows[r]).1[0]) by {
            let j = h + 1 + r;
            assert(rows[r] == (l[j].0, split(l[j].1, '\t')) && !is_header_line(l[j].1));
            lemma_first_cell(l[j].1);
        }
        assert forall|r: int| 0 <= r < rows.len() implies d.2 < (#[trigger] rows[r]).0 by {
            assert(l[h as int].0 < l[h + 1 + r].0);
        }
        assert forall|r: int, s: int| 0 <= r < s < rows.len() implies (#[trigger] rows[r]).0 < (#[trigger] rows[s]).0 by {
            assert(l[h + 1 + r].0 < l[h + 1 + s].0);
        }
        assert forall|i: int| 0 <= i < hs.len() implies 1 <= (#[trigger] hs[i]).2 < d.2 by {
            assert(l[i].0 < l[h as int].0);
        }
        assert forall|i: int, j: int| 0 <= i < j < hs.len() implies (#[trigger] hs[i]).2 < (#[trigger] hs[j]).2 by {
            assert(l[i].0 < l[j].0);
        }
    }
}

/// The bytes of a document the lexer accepts lex to a document in file order
/// whose fields hold no line ending. (A file counts its lines in a `usize`, so
/// it is shorter than `usize::MAX` bytes.)
pub proof fn law_a_lexed_file_keeps_file_order_and_single_lines(bytes: Seq<u8>)
    requires
        bytes.len() < usize::MAX,
    ensures
        lex_bytes(bytes) matches Ok(d) ==> in_file_order(d) && free_of_line_endings(d),
{
    let body = if has_utf8_mark(bytes) { bytes.skip(3) } else { bytes };
    if vstd::utf8::valid_utf8(body) {
        crate::utf8::lemma_decode_len(body);
        law_a_lexed_document_keeps_file_order_and_single_lines(vstd::utf8::decode_utf8(body));
    }
}

} // verus!
