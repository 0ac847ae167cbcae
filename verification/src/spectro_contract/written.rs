//! What a file written line by line lexes to.
//!
//! A file whose every line ends with LF, carries no carriage return, no blank
//! line and no stray tab lexes to exactly the headers, labels and rows it was
//! written from. The adapters rely on this to show that what they emit is a
//! conforming file.
use vstd::prelude::*;
use crate::spectro_contract::document::{
    ends_crlf, header_names, header_step, headers_upto, is_header_line, is_trailing,
    label_refusals, lemma_header_count_exact, lex_text, line_kept, line_refusals, lines_of,
    piece_content, piece_ending, piece_refusals, row_step, rows_upto, DocumentView, HeaderView,
    LineView, RowView,
};
use crate::text::{lemma_split_once_at, lemma_split_step, split, split_once};
use crate::spectro_contract::document::{has_utf8_mark, lex_bytes};
use vstd::utf8::{encode_scalar, encode_utf8, encode_utf8_decode_utf8, encode_utf8_valid_utf8};

verus! {

/// The text of `lines`, each followed by a line feed.
pub open spec fn written(lines: Seq<Seq<char>>) -> Seq<char>
    decreases lines.len(),
{
    if lines.len() == 0 {
        Seq::empty()
    } else {
        written(lines.drop_last()) + lines.last() + "\n"@
    }
}

/// The cells of one line, separated by tabs.
pub open spec fn joined(cells: Seq<Seq<char>>) -> Seq<char>
    decreases cells.len(),
{
    if cells.len() <= 1 {
        if cells.len() == 1 {
            cells[0]
        } else {
            Seq::empty()
        }
    } else {
        cells[0] + "\t"@ + joined(cells.drop_first())
    }
}

/// Text that may stand inside a cell: no tab and no line ending.
pub open spec fn plain(t: Seq<char>) -> bool {
    !t.contains('\t') && !t.contains('\n') && !t.contains('\r')
}

pub proof fn lemma_split_after(a: Seq<char>, b: Seq<char>, c: char)
    requires
        !a.contains(c),
    ensures
        split(a + seq![c] + b, c) == seq![a] + split(b, c),
{
    let s = a + seq![c] + b;
    assert(s[a.len() as int] == c);
    assert forall|j: int| 0 <= j < a.len() implies s[j] != c by {
        assert(s[j] == a[j]);
    }
    lemma_split_once_at(s, c, a.len() as int);
    assert(s.take(a.len() as int) =~= a);
    assert(s.skip(a.len() as int + 1) =~= b);
    lemma_split_step(s, c);
}

pub proof fn lemma_split_whole(a: Seq<char>, c: char)
    requires
        !a.contains(c),
    ensures
        split(a, c) == seq![a],
{
    lemma_split_step(a, c);
    if split_once(a, c) is Some {
        let i = choose|i: int| 0 <= i < a.len() && a[i] == c;
        assert(a.contains(c));
    }
}

/// Splitting what was written at its line feeds gives back the lines.
pub proof fn lemma_split_written(lines: Seq<Seq<char>>, z: Seq<char>)
    requires
        forall|i: int| 0 <= i < lines.len() ==> !(#[trigger] lines[i]).contains('\n'),
    ensures
        split(written(lines) + z, '\n') == lines + split(z, '\n'),
    decreases lines.len(),
{
    if lines.len() > 0 {
        let init = lines.drop_last();
        let last = lines.last();
        assert(written(lines) + z =~= written(init) + (last + seq!['\n'] + z)) by {
            assert("\n"@ =~= seq!['\n']) by {
                reveal_strlit("\n");
            }
        }
        lemma_split_written(init, last + seq!['\n'] + z);
        lemma_split_after(last, z, '\n');
        assert(lines =~= init.push(last));
        assert(lines + split(z, '\n') =~= init + (seq![last] + split(z, '\n')));
    }
}

/// Splitting a line at its tabs gives back its cells.
pub proof fn lemma_split_joined(cells: Seq<Seq<char>>)
    requires
        cells.len() > 0,
        forall|i: int| 0 <= i < cells.len() ==> !(#[trigger] cells[i]).contains('\t'),
    ensures
        split(joined(cells), '\t') == cells,
    decreases cells.len(),
{
    if cells.len() == 1 {
        lemma_split_whole(cells[0], '\t');
        assert(cells =~= seq![cells[0]]);
    } else {
        let rest = cells.drop_first();
        assert forall|i: int| 0 <= i < rest.len() implies !(#[trigger] rest[i]).contains('\t') by {
            assert(rest[i] == cells[i + 1]);
        }
        lemma_split_joined(rest);
        assert("\t"@ =~= seq!['\t']) by {
            reveal_strlit("\t");
        }
        lemma_split_after(cells[0], joined(rest), '\t');
        assert(cells =~= seq![cells[0]] + rest);
    }
}

/// Lines numbered from one, as the lexer numbers them.
pub open spec fn numbered(q: Seq<Seq<char>>) -> Seq<LineView> {
    Seq::new(q.len(), |i: int| ((i + 1) as usize, q[i]))
}

#[verifier::spinoff_prover]
proof fn lemma_clean_prefix(p: Seq<Seq<char>>, q: Seq<Seq<char>>, k: int)
    requires
        p == q.push(Seq::<char>::empty()),
        0 <= k <= q.len(),
        forall|i: int| 0 <= i < q.len() ==> (#[trigger] q[i]).len() > 0 && !q[i].contains('\r'),
    ensures
        lines_of(p, k) == numbered(q.take(k)),
        line_refusals(p, k) == Seq::<crate::spectro_contract::refusal::RefusalView>::empty(),
    decreases k,
{
    if k > 0 {
        lemma_clean_prefix(p, q, k - 1);
        let i = k - 1;
        assert(p[i] == q[i]);
        assert(p[0] == q[0]);
        if p[i].last() == '\r' {
            assert(q[i].contains('\r'));
        }
        if p[0].last() == '\r' {
            assert(q[0].contains('\r'));
        }
        assert(!ends_crlf(p, i));
        assert(!ends_crlf(p, 0));
        assert(piece_content(p, i) == q[i]);
        assert(!is_trailing(p, i));
        assert(piece_refusals(p, i) =~= Seq::<crate::spectro_contract::refusal::RefusalView>::empty());
        assert(line_kept(p, i));
        assert(numbered(q.take(k)) =~= numbered(q.take(k - 1)).push(((k) as usize, q[i])));
    }
}

/// Lines that each end with a line feed, hold no carriage return and are not
/// blank are the lines of the file, numbered from one, and none is refused.
pub proof fn lemma_clean_lines(q: Seq<Seq<char>>)
    requires
        forall|i: int| 0 <= i < q.len() ==> (#[trigger] q[i]).len() > 0 && !q[i].contains('\r'),
    ensures
        ({
            let p = q.push(Seq::<char>::empty());
            &&& lines_of(p, p.len() as int) == numbered(q)
            &&& line_refusals(p, p.len() as int) == Seq::<crate::spectro_contract::refusal::RefusalView>::empty()
        }),
{
    let p = q.push(Seq::<char>::empty());
    lemma_clean_prefix(p, q, q.len() as int);
    assert(q.take(q.len() as int) =~= q);
    let i = q.len() as int;
    assert(is_trailing(p, i));
    assert(piece_refusals(p, i) =~= Seq::<crate::spectro_contract::refusal::RefusalView>::empty());
    assert(!line_kept(p, i));
    assert(line_refusals(p, p.len() as int) =~= line_refusals(p, i) + piece_refusals(p, i));
}

/// A header line: `#`, the name, a tab and the value.
pub open spec fn header_text(h: (Seq<char>, Seq<char>)) -> Seq<char> {
    "#"@ + h.0 + "\t"@ + h.1
}

/// The headers a file written from `heads` carries, on lines from one.
pub open spec fn header_views_of(heads: Seq<(Seq<char>, Seq<char>)>) -> Seq<HeaderView> {
    Seq::new(heads.len(), |i: int| (heads[i].0, heads[i].1, (i + 1) as usize))
}

/// The rows a file written from `rows` carries, the first on line `first`.
pub open spec fn row_views_of(rows: Seq<Seq<Seq<char>>>, first: int) -> Seq<RowView> {
    Seq::new(rows.len(), |i: int| ((first + i) as usize, rows[i]))
}

/// No two entries are the same.
pub open spec fn distinct<A>(s: Seq<A>) -> bool {
    forall|i: int, j: int| 0 <= i < j < s.len() ==> s[i] != s[j]
}

pub open spec fn header_names_of(heads: Seq<(Seq<char>, Seq<char>)>) -> Seq<Seq<char>> {
    heads.map_values(|h: (Seq<char>, Seq<char>)| h.0)
}

/// Cells the lexer gives back as they were written: at least one, none with a
/// tab or a line ending in it.
pub open spec fn plain_cells(cells: Seq<Seq<char>>) -> bool {
    cells.len() > 0 && forall|i: int| 0 <= i < cells.len() ==> plain(#[trigger] cells[i])
}

pub proof fn lemma_joined_free(cells: Seq<Seq<char>>, x: char)
    requires
        x != '\t',
        forall|i: int| 0 <= i < cells.len() ==> !(#[trigger] cells[i]).contains(x),
    ensures
        !joined(cells).contains(x),
    decreases cells.len(),
{
    if cells.len() > 1 {
        let rest = cells.drop_first();
        assert forall|i: int| 0 <= i < rest.len() implies !(#[trigger] rest[i]).contains(x) by {
            assert(rest[i] == cells[i + 1]);
        }
        lemma_joined_free(rest, x);
        let t = joined(cells);
        assert(t == cells[0] + "\t"@ + joined(rest));
        assert("\t"@ =~= seq!['\t']) by {
            reveal_strlit("\t");
        }
        if t.contains(x) {
            let k = choose|k: int| 0 <= k < t.len() && t[k] == x;
            if k < cells[0].len() {
                assert(cells[0][k] == x);
                assert(cells[0].contains(x));
            } else if k > cells[0].len() {
                assert(joined(rest)[k - cells[0].len() - 1] == x);
            }
        }
    } else if cells.len() == 1 {
        assert(joined(cells) == cells[0]);
    }
}

pub proof fn lemma_joined_first(cells: Seq<Seq<char>>)
    requires
        cells.len() > 0,
        cells[0].len() > 0,
    ensures
        joined(cells).len() > 0,
        joined(cells)[0] == cells[0][0],
{
    if cells.len() > 1 {
        assert(joined(cells) == cells[0] + "\t"@ + joined(cells.drop_first()));
    }
}

proof fn lemma_header_line_splits(h: (Seq<char>, Seq<char>))
    requires
        !h.0.contains('\t'),
    ensures
        split_once(header_text(h).drop_first(), '\t') == Some((h.0, h.1)),
{
    let (name, value) = h;
    let body = header_text(h).drop_first();
    assert(body =~= name + seq!['\t'] + value) by {
        reveal_strlit("#");
        reveal_strlit("\t");
    }
    assert(body[name.len() as int] == '\t');
    assert forall|j: int| 0 <= j < name.len() implies body[j] != '\t' by {
        assert(body[j] == name[j]);
        if name[j] == '\t' {
            assert(name.contains('\t'));
        }
    }
    lemma_split_once_at(body, '\t', name.len() as int);
    assert(body.take(name.len() as int) =~= name);
    assert(body.skip(name.len() as int + 1) =~= value);
}

proof fn lemma_header_step_clean(hs: Seq<HeaderView>, line: LineView, h: (Seq<char>, Seq<char>))
    requires
        line.1 == header_text(h),
        h.0.len() > 0,
        !h.0.contains('\t'),
        !header_names(hs).contains(h.0),
    ensures
        header_step(hs, line) == (hs.push((h.0, h.1, line.0)), Seq::<crate::spectro_contract::refusal::RefusalView>::empty()),
{
    lemma_header_line_splits(h);
}

#[verifier::spinoff_prover]
proof fn lemma_headers_prefix(l: Seq<LineView>, heads: Seq<(Seq<char>, Seq<char>)>, k: int)
    requires
        0 <= k <= heads.len(),
        heads.len() <= l.len(),
        forall|i: int| 0 <= i < heads.len() ==> (#[trigger] l[i]) == ((i + 1) as usize, header_text(heads[i])),
        forall|i: int| 0 <= i < heads.len() ==> (#[trigger] heads[i]).0.len() > 0 && !heads[i].0.contains('\t'),
        forall|a: int, b: int| 0 <= a < b < heads.len() ==> (#[trigger] heads[a]).0 != (#[trigger] heads[b]).0,
    ensures
        headers_upto(l, k) == (header_views_of(heads.take(k)), Seq::<crate::spectro_contract::refusal::RefusalView>::empty()),
    decreases k,
{
    if k > 0 {
        lemma_headers_prefix(l, heads, k - 1);
        let i = k - 1;
        let hs = header_views_of(heads.take(i));
        assert(l[i] == ((i + 1) as usize, header_text(heads[i])));
        assert(heads[i].0.len() > 0 && !heads[i].0.contains('\t'));
        if header_names(hs).contains(heads[i].0) {
            let j = choose|j: int| 0 <= j < header_names(hs).len() && header_names(hs)[j] == heads[i].0;
            assert(header_names(hs)[j] == heads[j].0);
            assert(heads[j].0 != heads[i].0);
        }
        lemma_header_step_clean(hs, l[i], heads[i]);
        assert(hs.push((heads[i].0, heads[i].1, l[i].0)) =~= header_views_of(heads.take(k)));
    }
}

proof fn lemma_labels_clean(labels: Seq<Seq<char>>, line: usize, k: int)
    requires
        0 <= k <= labels.len(),
        forall|i: int| 0 <= i < labels.len() ==> (#[trigger] labels[i]).len() > 0,
        distinct(labels),
    ensures
        label_refusals(labels, line, k) == Seq::<crate::spectro_contract::refusal::RefusalView>::empty(),
    decreases k,
{
    if k > 0 {
        lemma_labels_clean(labels, line, k - 1);
        let p = k - 1;
        if labels.take(p).contains(labels[p]) {
            let j = choose|j: int| 0 <= j < p && labels.take(p)[j] == labels[p];
            assert(labels[j] == labels[p]);
        }
        assert(label_refusals(labels, line, k) =~= Seq::<crate::spectro_contract::refusal::RefusalView>::empty());
    }
}

#[verifier::spinoff_prover]
proof fn lemma_rows_clean(l: Seq<LineView>, rows: Seq<Seq<Seq<char>>>, start: int, width: nat, k: int)
    requires
        0 <= start <= k <= l.len(),
        l.len() == start + rows.len(),
        forall|j: int| start <= j < l.len() ==> (#[trigger] l[j]) == ((j + 1) as usize, joined(rows[j - start])),
        forall|i: int| 0 <= i < rows.len() ==> plain_cells(#[trigger] rows[i]) && rows[i].len() == width
            && joined(rows[i]).len() > 0 && joined(rows[i])[0] != '#',
    ensures
        rows_upto(l, start, width, k) == (row_views_of(rows.take(k - start), start + 1), Seq::<crate::spectro_contract::refusal::RefusalView>::empty()),
    decreases k - start,
{
    if k > start {
        lemma_rows_clean(l, rows, start, width, k - 1);
        let i = k - 1 - start;
        let row = rows[i];
        assert(l[k - 1] == ((k as usize), joined(row)));
        assert forall|m: int| 0 <= m < row.len() implies !(#[trigger] row[m]).contains('\t') by {
            assert(plain(row[m]));
        }
        lemma_split_joined(row);
        assert(!is_header_line(joined(row)));
        assert(row_step(l[k - 1], width) == (seq![((k as usize), row)], Seq::<crate::spectro_contract::refusal::RefusalView>::empty()));
        assert(row_views_of(rows.take(k - start), start + 1) =~= row_views_of(rows.take(k - 1 - start), start + 1) + seq![((k as usize), row)]);
    }
}

pub proof fn lemma_concat_free(a: Seq<char>, b: Seq<char>, x: char)
    requires
        !a.contains(x),
        !b.contains(x),
    ensures
        !(a + b).contains(x),
{
    if (a + b).contains(x) {
        let k = choose|k: int| 0 <= k < (a + b).len() && (a + b)[k] == x;
        if k < a.len() {
            assert(a[k] == x);
        } else {
            assert(b[k - a.len()] == x);
        }
    }
}

/// The lines of a file written from headers, a label row and rows.
pub open spec fn file_lines(heads: Seq<(Seq<char>, Seq<char>)>, labels: Seq<Seq<char>>, rows: Seq<Seq<Seq<char>>>) -> Seq<Seq<char>> {
    heads.map_values(|h: (Seq<char>, Seq<char>)| header_text(h)) + seq![joined(labels)]
        + rows.map_values(|r: Seq<Seq<char>>| joined(r))
}

proof fn lemma_header_text_clean(h: (Seq<char>, Seq<char>))
    requires
        plain(h.0),
        !h.1.contains('\n'),
        !h.1.contains('\r'),
    ensures
        header_text(h).len() > 0,
        header_text(h)[0] == '#',
        !header_text(h).contains('\n'),
        !header_text(h).contains('\r'),
{
    reveal_strlit("#");
    reveal_strlit("\t");
    lemma_concat_free("#"@, h.0, '\n');
    lemma_concat_free("#"@ + h.0, "\t"@, '\n');
    lemma_concat_free("#"@ + h.0 + "\t"@, h.1, '\n');
    lemma_concat_free("#"@, h.0, '\r');
    lemma_concat_free("#"@ + h.0, "\t"@, '\r');
    lemma_concat_free("#"@ + h.0 + "\t"@, h.1, '\r');
}

#[verifier::spinoff_prover]
proof fn lemma_file_lines_clean(heads: Seq<(Seq<char>, Seq<char>)>, labels: Seq<Seq<char>>, rows: Seq<Seq<Seq<char>>>)
    requires
        forall|i: int| 0 <= i < heads.len() ==> (#[trigger] heads[i]).0.len() > 0 && plain(heads[i].0)
            && !heads[i].1.contains('\n') && !heads[i].1.contains('\r'),
        plain_cells(labels),
        labels[0].len() > 0,
        forall|i: int| 0 <= i < rows.len() ==> plain_cells(#[trigger] rows[i]) && joined(rows[i]).len() > 0,
    ensures
        ({
            let q = file_lines(heads, labels, rows);
            forall|i: int| 0 <= i < q.len() ==> (#[trigger] q[i]).len() > 0 && !q[i].contains('\r') && !q[i].contains('\n')
        }),
{
    let n = heads.len() as int;
    let q = file_lines(heads, labels, rows);
    assert(q.len() == n + 1 + rows.len());
    assert forall|i: int| 0 <= i < q.len() implies (#[trigger] q[i]).len() > 0 && !q[i].contains('\r') && !q[i].contains('\n') by {
        if i < n {
            assert(q[i] == header_text(heads[i]));
            lemma_header_text_clean(heads[i]);
        } else if i == n {
            assert(q[i] == joined(labels));
            lemma_joined_first(labels);
            assert forall|m: int| 0 <= m < labels.len() implies !(#[trigger] labels[m]).contains('\r') && !labels[m].contains('\n') by {
                assert(plain(labels[m]));
            }
            lemma_joined_free(labels, '\r');
            lemma_joined_free(labels, '\n');
        } else {
            let r = rows[i - n - 1];
            assert(q[i] == joined(r));
            assert forall|m: int| 0 <= m < r.len() implies !(#[trigger] r[m]).contains('\r') && !r[m].contains('\n') by {
                assert(plain(r[m]));
            }
            lemma_joined_free(r, '\r');
            lemma_joined_free(r, '\n');
        }
    }
}

proof fn lemma_written_lines(q: Seq<Seq<char>>)
    requires
        forall|i: int| 0 <= i < q.len() ==> (#[trigger] q[i]).len() > 0 && !q[i].contains('\r') && !q[i].contains('\n'),
    ensures
        ({
            let p = split(written(q), '\n');
            &&& p == q.push(Seq::<char>::empty())
            &&& lines_of(p, p.len() as int) == numbered(q)
            &&& line_refusals(p, p.len() as int) == Seq::<crate::spectro_contract::refusal::RefusalView>::empty()
        }),
{
    let text = written(q);
    lemma_split_written(q, Seq::empty());
    assert(text + Seq::<char>::empty() =~= text);
    lemma_split_whole(Seq::<char>::empty(), '\n');
    assert(q + seq![Seq::<char>::empty()] =~= q.push(Seq::<char>::empty()));
    lemma_clean_lines(q);
}

/// A file written from headers with distinct names, a label row of distinct
/// labels and rows of as many cells, none of them holding a tab or a line
/// ending and no row written empty or beginning with `#`, lexes to exactly
/// those headers, labels and rows.
#[verifier::spinoff_prover]
pub proof fn lemma_lex_written(heads: Seq<(Seq<char>, Seq<char>)>, labels: Seq<Seq<char>>, rows: Seq<Seq<Seq<char>>>)
    requires
        forall|i: int| 0 <= i < heads.len() ==> (#[trigger] heads[i]).0.len() > 0 && plain(heads[i].0)
            && !heads[i].1.contains('\n') && !heads[i].1.contains('\r'),
        forall|a: int, b: int| 0 <= a < b < heads.len() ==> (#[trigger] heads[a]).0 != (#[trigger] heads[b]).0,
        plain_cells(labels),
        forall|i: int| 0 <= i < labels.len() ==> (#[trigger] labels[i]).len() > 0,
        labels[0][0] != '#',
        distinct(labels),
        forall|i: int| 0 <= i < rows.len() ==> plain_cells(#[trigger] rows[i]) && rows[i].len() == labels.len()
            && joined(rows[i]).len() > 0 && joined(rows[i])[0] != '#',
    ensures
        lex_text(written(file_lines(heads, labels, rows))) == Ok::<DocumentView, Seq<crate::spectro_contract::refusal::RefusalView>>(
            (header_views_of(heads), labels, (heads.len() + 1) as usize, row_views_of(rows, heads.len() as int + 2)),
        ),
{
    let n = heads.len() as int;
    let q = file_lines(heads, labels, rows);
    lemma_file_lines_clean(heads, labels, rows);
    lemma_written_lines(q);
    let p = split(written(q), '\n');
    let l = lines_of(p, p.len() as int);
    assert(l == numbered(q));
    assert(l.len() == n + 1 + rows.len());
    assert forall|j: int| 0 <= j < n implies is_header_line(#[trigger] l[j].1) by {
        assert(l[j].1 == header_text(heads[j]));
        lemma_header_text_clean(heads[j]);
    }
    lemma_joined_first(labels);
    assert(l[n].1 == joined(labels));
    lemma_header_count_exact(l, n as nat);
    assert forall|i: int| 0 <= i < heads.len() implies (#[trigger] l[i]) == ((i + 1) as usize, header_text(heads[i])) by {}
    lemma_headers_prefix(l, heads, n);
    assert(heads.take(n) =~= heads);
    assert forall|m: int| 0 <= m < labels.len() implies !(#[trigger] labels[m]).contains('\t') by {
        assert(plain(labels[m]));
    }
    lemma_split_joined(labels);
    lemma_labels_clean(labels, l[n].0, labels.len() as int);
    assert forall|j: int| n + 1 <= j < l.len() implies (#[trigger] l[j]) == ((j + 1) as usize, joined(rows[j - (n + 1)])) by {
        assert(q[j] == joined(rows[j - n - 1]));
    }
    lemma_rows_clean(l, rows, n + 1, labels.len(), l.len() as int);
    assert(rows.take(l.len() - (n + 1)) =~= rows);
}

/// Piece `i` of two splits is the same line with the same refusals.
pub open spec fn same_piece(p: Seq<Seq<char>>, p2: Seq<Seq<char>>, i: int) -> bool {
    &&& line_kept(p, i) == line_kept(p2, i)
    &&& piece_content(p, i) == piece_content(p2, i)
    &&& piece_refusals(p, i) == piece_refusals(p2, i)
}

proof fn lemma_same_pieces(p: Seq<Seq<char>>, p2: Seq<Seq<char>>, k: int)
    requires
        0 <= k <= p.len(),
        k <= p2.len(),
        forall|i: int| 0 <= i < k ==> #[trigger] same_piece(p, p2, i),
    ensures
        lines_of(p, k) == lines_of(p2, k),
        line_refusals(p, k) == line_refusals(p2, k),
    decreases k,
{
    if k > 0 {
        assert(same_piece(p, p2, k - 1));
        lemma_same_pieces(p, p2, k - 1);
    }
}

/// The lines of a file, each ended with CRLF.
pub open spec fn crlf_lines(lines: Seq<Seq<char>>) -> Seq<Seq<char>> {
    Seq::new(lines.len(), |i: int| lines[i] + seq!['\r'])
}

/// Lines with no line ending in them.
pub open spec fn bare_lines(lines: Seq<Seq<char>>) -> bool {
    forall|i: int| 0 <= i < lines.len() ==> !(#[trigger] lines[i]).contains('\n') && !lines[i].contains('\r')
}

proof fn lemma_crlf_pieces(lines: Seq<Seq<char>>)
    requires
        bare_lines(lines),
    ensures
        split(written(lines), '\n') == lines.push(Seq::<char>::empty()),
        split(written(crlf_lines(lines)), '\n') == crlf_lines(lines).push(Seq::<char>::empty()),
{
    let r = crlf_lines(lines);
    assert forall|i: int| 0 <= i < r.len() implies !(#[trigger] r[i]).contains('\n') by {
        assert(!lines[i].contains('\n'));
        if r[i].contains('\n') {
            let j = choose|j: int| 0 <= j < r[i].len() && r[i][j] == '\n';
            if j < lines[i].len() {
                assert(lines[i][j] == '\n');
            }
        }
    }
    lemma_split_written(lines, Seq::empty());
    lemma_split_written(r, Seq::empty());
    assert(written(lines) + Seq::<char>::empty() =~= written(lines));
    assert(written(r) + Seq::<char>::empty() =~= written(r));
    lemma_split_whole(Seq::<char>::empty(), '\n');
    assert(lines + seq![Seq::<char>::empty()] =~= lines.push(Seq::<char>::empty()));
    assert(r + seq![Seq::<char>::empty()] =~= r.push(Seq::<char>::empty()));
}

/// A file lexes to the same document, or the same refusals, whether its lines
/// end with LF or with CRLF: the carriage return of a CRLF ending is not part
/// of any field.
#[verifier::spinoff_prover]
pub proof fn law_crlf_reads_as_lf(lines: Seq<Seq<char>>)
    requires
        bare_lines(lines),
    ensures
        lex_text(written(crlf_lines(lines))) == lex_text(written(lines)),
{
    let r = crlf_lines(lines);
    lemma_crlf_pieces(lines);
    let p = lines.push(Seq::<char>::empty());
    let p2 = r.push(Seq::<char>::empty());
    let n = lines.len() as int;
    if n > 0 {
        assert(!(lines[0].len() > 0 && lines[0].last() == '\r')) by {
            if lines[0].len() > 0 && lines[0].last() == '\r' {
                assert(lines[0].contains('\r'));
            }
        }
        assert(p[0] == lines[0]);
        assert(p2[0] == r[0]);
        assert(piece_ending(p, 0) == 1);
        assert(piece_ending(p2, 0) == 2);
    }
    assert forall|i: int| 0 <= i < p.len() implies #[trigger] same_piece(p, p2, i) by {
        if i < n {
            assert(p[i] == lines[i]);
            assert(p2[i] == lines[i] + seq!['\r']);
            assert(!(lines[i].len() > 0 && lines[i].last() == '\r')) by {
                if lines[i].len() > 0 && lines[i].last() == '\r' {
                    assert(lines[i].contains('\r'));
                }
            }
            assert(!ends_crlf(p, i));
            assert(ends_crlf(p2, i));
            assert(p2[i].drop_last() =~= lines[i]);
            assert(piece_content(p, i) == piece_content(p2, i));
            assert(piece_ending(p, i) == 1);
            assert(piece_ending(p2, i) == 2);
        } else {
            assert(is_trailing(p, i));
            assert(is_trailing(p2, i));
        }
    }
    lemma_same_pieces(p, p2, p.len() as int);
}

/// A file lexes to the same document, or the same refusals, whether its last
/// line ends with a line feed or with nothing.
#[verifier::spinoff_prover]
pub proof fn law_last_terminator_is_optional(lines: Seq<Seq<char>>)
    requires
        bare_lines(lines),
        lines.len() > 0,
        lines.last().len() > 0,
    ensures
        lex_text(written(lines.drop_last()) + lines.last()) == lex_text(written(lines)),
{
    let n = lines.len() as int;
    let init = lines.drop_last();
    let last = lines.last();
    assert forall|i: int| 0 <= i < init.len() implies !(#[trigger] init[i]).contains('\n') by {
        assert(init[i] == lines[i]);
    }
    lemma_split_written(init, last);
    assert(!last.contains('\n'));
    lemma_split_whole(last, '\n');
    let p2 = split(written(init) + last, '\n');
    assert(p2 =~= lines);
    lemma_crlf_pieces(lines);
    let p = lines.push(Seq::<char>::empty());
    assert(piece_ending(p, 0) == 1) by {
        assert(!(lines[0].len() > 0 && lines[0].last() == '\r')) by {
            if lines[0].len() > 0 && lines[0].last() == '\r' {
                assert(lines[0].contains('\r'));
            }
        }
    }
    assert forall|i: int| 0 <= i < n implies #[trigger] same_piece(p, p2, i) by {
        assert(p[i] == lines[i]);
        assert(!(lines[i].len() > 0 && lines[i].last() == '\r')) by {
            if lines[i].len() > 0 && lines[i].last() == '\r' {
                assert(lines[i].contains('\r'));
            }
        }
        assert(!ends_crlf(p, i));
        assert(!ends_crlf(p2, i));
        if i == n - 1 {
            assert(!is_trailing(p2, i));
        }
        if n >= 2 {
            assert(piece_ending(p2, 0) == 1);
        }
    }
    lemma_same_pieces(p, p2, n);
    assert(is_trailing(p, n));
    assert(line_refusals(p, n + 1) =~= line_refusals(p, n) + piece_refusals(p, n));
    assert(piece_refusals(p, n) =~= Seq::<crate::spectro_contract::refusal::RefusalView>::empty());
}


/// A UTF-8 byte order mark before a file changes neither its document nor
/// any refusal: the bytes lex as the text they encode does.
pub proof fn law_a_byte_order_mark_changes_nothing(text: Seq<char>)
    ensures
        lex_bytes(seq![0xEFu8, 0xBBu8, 0xBFu8] + encode_utf8(text)) == lex_text(text),
        (text.len() == 0 || text[0] != '\u{FEFF}') ==> lex_bytes(seq![0xEFu8, 0xBBu8, 0xBFu8] + encode_utf8(text))
            == lex_bytes(encode_utf8(text)),
{
    let b = seq![0xEFu8, 0xBBu8, 0xBFu8] + encode_utf8(text);
    assert(b.skip(3) =~= encode_utf8(text));
    encode_utf8_valid_utf8(text);
    encode_utf8_decode_utf8(text);
    lemma_encoded_lexes(text);
}

/// The bytes of a text lex as the text does, a leading U+FEFF being read as a
/// UTF-8 byte order mark and dropped.
pub proof fn lemma_encoded_lexes(text: Seq<char>)
    ensures
        (text.len() == 0 || text[0] != '\u{FEFF}') ==> lex_bytes(encode_utf8(text)) == lex_text(text),
        (text.len() > 0 && text[0] == '\u{FEFF}') ==> lex_bytes(encode_utf8(text)) == lex_text(text.drop_first()),
{
    let b = encode_utf8(text);
    encode_utf8_valid_utf8(text);
    encode_utf8_decode_utf8(text);
    if text.len() == 0 {
        assert(b =~= Seq::<u8>::empty());
    } else if text[0] != '\u{FEFF}' {
        crate::utf8::lemma_encoded_not_utf16_mark(text);
        if has_utf8_mark(b) {
            crate::utf8::lemma_encoded_mark(text);
        }
    } else {
        let rest = text.drop_first();
        let v: u32 = 0xFEFF;
        assert(text[0] as u32 == 0xFEFF);
        assert(0xE0u8 | ((v >> 12) & 0x0F) as u8 == 0xEF && 0x80u8 | ((v >> 6) & 0x3F) as u8 == 0xBB
            && 0x80u8 | (v & 0x3F) as u8 == 0xBF) by (bit_vector)
            requires
                v == 0xFEFF,
        ;
        assert(encode_scalar(v) =~= seq![0xEFu8, 0xBBu8, 0xBFu8]);
        assert(b =~= encode_scalar(v) + encode_utf8(rest));
        assert(b.skip(3) =~= encode_utf8(rest));
        encode_utf8_valid_utf8(rest);
        encode_utf8_decode_utf8(rest);
    }
}

/// The first character of what is written from lines.
proof fn lemma_written_first(lines: Seq<Seq<char>>)
    requires
        lines.len() > 0,
    ensures
        written(lines).len() > 0,
        written(lines)[0] == (if lines[0].len() > 0 { lines[0][0] } else { '\n' }),
{
    let rest = lines.drop_first();
    crate::spectro_adapters::lines_accepted::lemma_written_append(seq![lines[0]], rest);
    assert(seq![lines[0]] + rest =~= lines);
    assert(seq![lines[0]].drop_last() =~= Seq::<Seq<char>>::empty());
    assert(written(seq![lines[0]]) =~= lines[0] + "\n"@) by {
        assert(written(Seq::<Seq<char>>::empty()) =~= Seq::<char>::empty());
    }
    reveal_strlit("\n");
}

/// A file whose last line has no terminator lexes to the same document, or
/// the same refusals, whether its other lines end with LF or with CRLF.
#[verifier::spinoff_prover]
proof fn lemma_crlf_unterminated(lines: Seq<Seq<char>>)
    requires
        bare_lines(lines),
        lines.len() > 0,
        lines.last().len() > 0,
    ensures
        lex_text(written(crlf_lines(lines.drop_last())) + lines.last())
            == lex_text(written(lines.drop_last()) + lines.last()),
{
    let n = lines.len() as int;
    let init = lines.drop_last();
    let last = lines.last();
    let r = crlf_lines(init);
    assert forall|i: int| 0 <= i < init.len() implies !(#[trigger] init[i]).contains('\n') by {
        assert(init[i] == lines[i]);
    }
    assert forall|i: int| 0 <= i < r.len() implies !(#[trigger] r[i]).contains('\n') by {
        assert(init[i] == lines[i]);
        if r[i].contains('\n') {
            let j = choose|j: int| 0 <= j < r[i].len() && r[i][j] == '\n';
            if j < init[i].len() {
                assert(init[i][j] == '\n');
            }
        }
    }
    lemma_split_written(init, last);
    lemma_split_written(r, last);
    assert(!last.contains('\n'));
    lemma_split_whole(last, '\n');
    let p = split(written(init) + last, '\n');
    let p2 = split(written(r) + last, '\n');
    assert(p =~= lines);
    assert(p2 =~= r.push(last));
    if n >= 2 {
        assert(!(lines[0].len() > 0 && lines[0].last() == '\r')) by {
            if lines[0].len() > 0 && lines[0].last() == '\r' {
                assert(lines[0].contains('\r'));
            }
        }
        assert(piece_ending(p, 0) == 1);
        assert(p2[0] == lines[0] + seq!['\r']);
        assert(piece_ending(p2, 0) == 2);
    }
    assert forall|i: int| 0 <= i < n implies #[trigger] same_piece(p2, p, i) by {
        assert(p[i] == lines[i]);
        assert(!(lines[i].len() > 0 && lines[i].last() == '\r')) by {
            if lines[i].len() > 0 && lines[i].last() == '\r' {
                assert(lines[i].contains('\r'));
            }
        }
        if i < n - 1 {
            assert(p2[i] == lines[i] + seq!['\r']);
            assert(ends_crlf(p2, i));
            assert(p2[i].drop_last() =~= lines[i]);
            assert(!ends_crlf(p, i));
        } else {
            assert(p2[i] == last);
            assert(!is_trailing(p, i));
            assert(!is_trailing(p2, i));
        }
    }
    lemma_same_pieces(p2, p, n);
}

/// The bytes of a file lex to the same document, or the same refusals,
/// whether its lines end with LF or with CRLF, with its last line terminated
/// or not, provided no line holds a line ending of its own and the file does
/// not begin with U+FEFF.
#[verifier::spinoff_prover]
pub proof fn law_crlf_bytes_read_as_lf_bytes(lines: Seq<Seq<char>>)
    requires
        bare_lines(lines),
        lines.len() > 0,
        !(lines[0].len() > 0 && lines[0][0] == '\u{FEFF}'),
    ensures
        lex_bytes(encode_utf8(written(crlf_lines(lines)))) == lex_bytes(encode_utf8(written(lines))),
        lines.last().len() > 0 ==> lex_bytes(encode_utf8(written(crlf_lines(lines.drop_last())) + lines.last()))
            == lex_bytes(encode_utf8(written(lines))),
{
    let r = crlf_lines(lines);
    lemma_written_first(lines);
    lemma_written_first(r);
    assert(r[0] == lines[0] + seq!['\r']);
    lemma_encoded_lexes(written(lines));
    lemma_encoded_lexes(written(r));
    law_crlf_reads_as_lf(lines);
    if lines.last().len() > 0 {
        let init = lines.drop_last();
        let last = lines.last();
        lemma_crlf_unterminated(lines);
        law_last_terminator_is_optional(lines);
        let t = written(crlf_lines(init)) + last;
        if init.len() > 0 {
            let ri = crlf_lines(init);
            lemma_written_first(ri);
            assert(ri[0] == lines[0] + seq!['\r']);
            assert(t[0] == written(ri)[0]);
        } else {
            assert(written(crlf_lines(init)) =~= Seq::<char>::empty()) by {
                assert(crlf_lines(init).len() == 0);
            }
            assert(t =~= last);
            assert(last == lines[0]);
        }
        lemma_encoded_lexes(t);
    }
}


/// The text with every line feed written as a carriage return and a line
/// feed.
pub open spec fn crlf_text(t: Seq<char>) -> Seq<char>
    decreases t.len(),
{
    if t.len() == 0 {
        Seq::empty()
    } else {
        crlf_text(t.drop_last()) + if t.last() == '\n' { seq!['\r', '\n'] } else { seq![t.last()] }
    }
}

proof fn lemma_crlf_text_append(x: Seq<char>, y: Seq<char>)
    ensures
        crlf_text(x + y) == crlf_text(x) + crlf_text(y),
    decreases y.len(),
{
    if y.len() == 0 {
        assert(x + y =~= x);
        assert(crlf_text(x) + crlf_text(y) =~= crlf_text(x));
    } else {
        lemma_crlf_text_append(x, y.drop_last());
        assert((x + y).drop_last() =~= x + y.drop_last());
        assert((x + y).last() == y.last());
    }
}

proof fn lemma_crlf_text_plain(z: Seq<char>)
    requires
        !z.contains('\n'),
    ensures
        crlf_text(z) == z,
    decreases z.len(),
{
    if z.len() > 0 {
        assert(z.last() == z[z.len() - 1]);
        assert(!z.drop_last().contains('\n')) by {
            if z.drop_last().contains('\n') {
                let j = choose|j: int| 0 <= j < z.drop_last().len() && z.drop_last()[j] == '\n';
                assert(z[j] == '\n');
            }
        }
        lemma_crlf_text_plain(z.drop_last());
        assert(z.drop_last() + seq![z.last()] =~= z);
    }
}

proof fn lemma_crlf_text_written(lines: Seq<Seq<char>>)
    requires
        bare_lines(lines),
    ensures
        crlf_text(written(lines)) == written(crlf_lines(lines)),
    decreases lines.len(),
{
    reveal_strlit("\n");
    if lines.len() > 0 {
        let init = lines.drop_last();
        let last = lines.last();
        assert(bare_lines(init)) by {
            assert forall|i: int| 0 <= i < init.len() implies !(#[trigger] init[i]).contains('\n') && !init[i].contains('\r') by {
                assert(init[i] == lines[i]);
            }
        }
        lemma_crlf_text_written(init);
        assert(!last.contains('\n'));
        lemma_crlf_text_append(written(init), last + "\n"@);
        lemma_crlf_text_append(last, "\n"@);
        lemma_crlf_text_plain(last);
        assert("\n"@ =~= seq!['\n']);
        assert(crlf_text(seq!['\n']) =~= seq!['\r', '\n']) by {
            let e = seq!['\n'];
            assert(e.len() == 1 && e.last() == '\n');
            assert(e.drop_last() =~= Seq::<char>::empty());
            assert(crlf_text(e.drop_last()) =~= Seq::<char>::empty());
        }
        assert(written(lines) =~= written(init) + (last + "\n"@));
        assert(crlf_lines(lines).drop_last() =~= crlf_lines(init));
        assert(crlf_lines(lines).last() == last + seq!['\r']);
        assert(written(crlf_lines(lines)) =~= written(crlf_lines(init)) + (last + seq!['\r']) + "\n"@);
    } else {
        assert(crlf_lines(lines).len() == 0);
    }
}

proof fn lemma_written_one(a: Seq<char>)
    ensures
        written(seq![a]) == a + seq!['\n'],
{
    reveal_strlit("\n");
    assert(seq![a].drop_last() =~= Seq::<Seq<char>>::empty());
    assert(written(Seq::<Seq<char>>::empty()) =~= Seq::<char>::empty());
    assert(seq![a].last() == a);
    assert("\n"@ =~= seq!['\n']);
    assert(written(seq![a]) =~= a + seq!['\n']);
}

/// A text is its lines joined by line feeds.
#[verifier::spinoff_prover]
proof fn lemma_text_is_its_lines(t: Seq<char>)
    ensures
        split(t, '\n').len() > 0,
        t == written(split(t, '\n').drop_last()) + split(t, '\n').last(),
    decreases t.len(),
{
    lemma_split_step(t, '\n');
    match split_once(t, '\n') {
        None => {
            assert(split(t, '\n').drop_last() =~= Seq::<Seq<char>>::empty());
            assert(written(Seq::<Seq<char>>::empty()) + t =~= t);
        },
        Some((a, b)) => {
            lemma_text_is_its_lines(b);
            let q = split(b, '\n');
            let p = split(t, '\n');
            let wq = written(q.drop_last());
            assert(b == wq + q.last());
            assert(p.drop_last() =~= seq![a] + q.drop_last());
            assert(p.last() == q.last());
            crate::spectro_adapters::lines_accepted::lemma_written_append(seq![a], q.drop_last());
            lemma_written_one(a);
            assert(written(p.drop_last()) == a + seq!['\n'] + wq);
            assert(t =~= a + seq!['\n'] + b);
            assert(t =~= written(p.drop_last()) + p.last());
        },
    }
}

/// The bytes of any text with no carriage return of its own lex to the same
/// document, or the same refusals, whether its line feeds stand alone or are
/// written as CRLF, its last line terminated or not, provided the text does
/// not begin with U+FEFF.
#[verifier::spinoff_prover]
#[verifier::rlimit(40)]
pub proof fn law_crlf_text_reads_as_lf_text(t: Seq<char>)
    requires
        !t.contains('\r'),
        t.len() == 0 || t[0] != '\u{FEFF}',
    ensures
        lex_bytes(encode_utf8(crlf_text(t))) == lex_bytes(encode_utf8(t)),
{
    let p = split(t, '\n');
    let init = p.drop_last();
    let last = p.last();
    lemma_text_is_its_lines(t);
    crate::text::lemma_split_parts(t, '\n', '\r');
    assert(bare_lines(p));
    assert(bare_lines(init)) by {
        assert forall|i: int| 0 <= i < init.len() implies !(#[trigger] init[i]).contains('\n') && !init[i].contains('\r') by {
            assert(init[i] == p[i]);
        }
    }
    lemma_crlf_text_written(init);
    lemma_crlf_text_append(written(init), last);
    lemma_crlf_text_plain(last);
    assert(crlf_text(t) == written(crlf_lines(init)) + last);
    if t.len() > 0 {
        if init.len() > 0 {
            lemma_written_first(init);
            lemma_written_first(p);
            assert(p[0] == init[0]);
            assert(t[0] == written(init)[0]);
        } else {
            assert(t =~= last);
            lemma_written_first(p);
            assert(p[0] == last);
        }
    }
    if last.len() == 0 {
        assert(t =~= written(init));
        assert(crlf_text(t) =~= written(crlf_lines(init)));
        if init.len() > 0 {
            law_crlf_bytes_read_as_lf_bytes(init);
        } else {
            assert(t.len() == 0);
        }
    } else {
        law_crlf_bytes_read_as_lf_bytes(p);
        assert(p.drop_last() == init);
        law_last_terminator_is_optional(p);
        lemma_encoded_lexes(t);
        lemma_written_first(p);
        lemma_encoded_lexes(written(p));
    }
}


/// The bytes of a file written from headers with distinct names, a label row
/// of distinct labels and rows of as many cells, none of them holding a tab or
/// a line ending and no row written empty or beginning with `#`, lex to
/// exactly those headers, labels and rows, provided the file does not begin
/// with U+FEFF.
pub proof fn law_a_written_file_lexes_back(heads: Seq<(Seq<char>, Seq<char>)>, labels: Seq<Seq<char>>, rows: Seq<Seq<Seq<char>>>)
    requires
        forall|i: int| 0 <= i < heads.len() ==> (#[trigger] heads[i]).0.len() > 0 && plain(heads[i].0)
            && !heads[i].1.contains('\n') && !heads[i].1.contains('\r'),
        forall|a: int, b: int| 0 <= a < b < heads.len() ==> (#[trigger] heads[a]).0 != (#[trigger] heads[b]).0,
        plain_cells(labels),
        forall|i: int| 0 <= i < labels.len() ==> (#[trigger] labels[i]).len() > 0,
        labels[0][0] != '#',
        heads.len() > 0 || labels[0][0] != '\u{FEFF}',
        distinct(labels),
        forall|i: int| 0 <= i < rows.len() ==> plain_cells(#[trigger] rows[i]) && rows[i].len() == labels.len()
            && joined(rows[i]).len() > 0 && joined(rows[i])[0] != '#',
    ensures
        lex_bytes(encode_utf8(written(file_lines(heads, labels, rows)))) == Ok::<DocumentView, Seq<crate::spectro_contract::refusal::RefusalView>>(
            (header_views_of(heads), labels, (heads.len() + 1) as usize, row_views_of(rows, heads.len() as int + 2)),
        ),
{
    lemma_lex_written(heads, labels, rows);
    let q = file_lines(heads, labels, rows);
    lemma_written_first(q);
    if heads.len() > 0 {
        assert(q[0] == header_text(heads[0]));
        reveal_strlit("#");
        assert(header_text(heads[0])[0] == '#');
    } else {
        assert(q[0] == joined(labels));
        lemma_joined_first(labels);
    }
    lemma_encoded_lexes(written(q));
}


/// What an accepted document's labels, header names and cells are like.
pub open spec fn well_shaped(d: DocumentView) -> bool {
    &&& forall|i: int| 0 <= i < d.1.len() ==> (#[trigger] d.1[i]).len() > 0 && !d.1[i].contains('\t')
    &&& distinct(d.1)
    &&& forall|i: int| 0 <= i < d.0.len() ==> (#[trigger] d.0[i]).0.len() > 0 && !d.0[i].0.contains('\t')
    &&& forall|i: int, j: int| 0 <= i < j < d.0.len() ==> (#[trigger] d.0[i]).0 != (#[trigger] d.0[j]).0
    &&& forall|r: int| 0 <= r < d.3.len() ==> (#[trigger] d.3[r]).1.len() == d.1.len()
    &&& forall|r: int, c: int| 0 <= r < d.3.len() && 0 <= c < d.3[r].1.len() ==> !(#[trigger] d.3[r].1[c]).contains('\t')
}

proof fn lemma_labels_shaped(labels: Seq<Seq<char>>, line: usize, k: int)
    requires
        0 <= k <= labels.len(),
        label_refusals(labels, line, k).len() == 0,
    ensures
        forall|i: int| 0 <= i < k ==> (#[trigger] labels[i]).len() > 0,
        forall|i: int, j: int| 0 <= i < j < k ==> (#[trigger] labels[i]) != (#[trigger] labels[j]),
    decreases k,
{
    if k > 0 {
        let p = k - 1;
        assert(label_refusals(labels, line, k) == label_refusals(labels, line, p) + (if labels[p].len() == 0 {
            seq![crate::spectro_contract::refusal::on_line_v(line, crate::spectro_contract::document::unlabelled_column((p + 1) as nat))]
        } else if labels.take(p).contains(labels[p]) {
            seq![crate::spectro_contract::refusal::field_on_line_v(line, labels[p], crate::spectro_contract::document::duplicate_label())]
        } else {
            Seq::empty()
        }));
        lemma_labels_shaped(labels, line, p);
        assert forall|i: int, j: int| 0 <= i < j < k implies (#[trigger] labels[i]) != (#[trigger] labels[j]) by {
            if j == p && labels[i] == labels[j] {
                assert(labels.take(p)[i] == labels[p]);
            }
        }
    }
}

proof fn lemma_headers_shaped(l: Seq<LineView>, k: int)
    requires
        0 <= k,
        headers_upto(l, k).1.len() == 0,
    ensures
        ({
            let hs = headers_upto(l, k).0;
            &&& forall|i: int| 0 <= i < hs.len() ==> (#[trigger] hs[i]).0.len() > 0 && !hs[i].0.contains('\t')
            &&& forall|i: int, j: int| 0 <= i < j < hs.len() ==> (#[trigger] hs[i]).0 != (#[trigger] hs[j]).0
        }),
    decreases k,
{
    if k > 0 {
        let (hs, rs) = headers_upto(l, k - 1);
        let (hs2, r2) = header_step(hs, l[k - 1]);
        assert(headers_upto(l, k) == (hs2, rs + r2));
        assert(rs.len() == 0 && r2.len() == 0);
        lemma_headers_shaped(l, k - 1);
        let body = l[k - 1].1.drop_first();
        crate::text::lemma_split_once_first(body, '\t');
        if let Some((name, value)) = split_once(body, '\t') {
            if name.len() > 0 {
                assert(hs2 == hs.push((name, value, l[k - 1].0)));
                assert(!header_names(hs).contains(name));
                assert forall|i: int, j: int| 0 <= i < j < hs2.len() implies (#[trigger] hs2[i]).0 != (#[trigger] hs2[j]).0 by {
                    if j == hs.len() {
                        assert(header_names(hs)[i] == hs[i].0);
                    } else {
                        assert(hs2[i] == hs[i] && hs2[j] == hs[j]);
                    }
                }
                assert forall|i: int| 0 <= i < hs2.len() implies (#[trigger] hs2[i]).0.len() > 0 && !hs2[i].0.contains('\t') by {
                    if i < hs.len() {
                        assert(hs2[i] == hs[i]);
                    }
                }
            }
        }
    }
}

proof fn lemma_rows_shaped(l: Seq<LineView>, start: int, width: nat, k: int)
    ensures
        ({
            let rows = rows_upto(l, start, width, k).0;
            forall|r: int, c: int| 0 <= r < rows.len() && 0 <= c < rows[r].1.len() ==> !(#[trigger] rows[r].1[c]).contains('\t')
        }),
    decreases k - start,
{
    if k > start {
        lemma_rows_shaped(l, start, width, k - 1);
        let (rows, rs) = rows_upto(l, start, width, k - 1);
        let (r1, r2) = row_step(l[k - 1], width);
        crate::text::lemma_split_parts(l[k - 1].1, '\t', '\t');
        let all = rows + r1;
        assert forall|r: int, c: int| 0 <= r < all.len() && 0 <= c < all[r].1.len() implies !(#[trigger] all[r].1[c]).contains('\t') by {
            if r < rows.len() {
                assert(all[r] == rows[r]);
            } else {
                assert(all[r] == r1[r - rows.len()]);
            }
        }
    }
}

/// A document the lexer accepts has non-empty, distinct labels and header
/// names, none holding a tab; every row carries one cell per label, and no
/// cell holds a tab.
#[verifier::spinoff_prover]
pub proof fn law_a_lexed_document_is_well_shaped(text: Seq<char>)
    ensures
        lex_text(text) matches Ok(d) ==> well_shaped(d),
{
    if let Ok(d) = lex_text(text) {
        let p = split(text, '\n');
        let l = lines_of(p, p.len() as int);
        let h = crate::spectro_contract::document::header_count(l);
        let r0 = line_refusals(p, p.len() as int);
        let (hs, r1) = headers_upto(l, h as int);
        let labels = split(l[h as int].1, '\t');
        let r2 = label_refusals(labels, l[h as int].0, labels.len() as int);
        let (rows, r3) = rows_upto(l, (h + 1) as int, labels.len(), l.len() as int);
        assert((r0 + r1 + r2 + r3).len() == 0);
        assert(r1.len() == 0 && r2.len() == 0);
        lemma_labels_shaped(labels, l[h as int].0, labels.len() as int);
        crate::text::lemma_split_parts(l[h as int].1, '\t', '\t');
        lemma_headers_shaped(l, h as int);
        lemma_rows_shaped(l, (h + 1) as int, labels.len(), l.len() as int);
        crate::spectro_contract::document::lemma_rows_upto_width(l, (h + 1) as int, labels.len(), l.len() as int);
        assert(d == (hs, labels, l[h as int].0, rows));
    }
}

/// The bytes of a document the lexer accepts lex to a well-shaped document.
pub proof fn law_a_lexed_file_is_well_shaped(bytes: Seq<u8>)
    ensures
        lex_bytes(bytes) matches Ok(d) ==> well_shaped(d),
{
    let body = if has_utf8_mark(bytes) { bytes.skip(3) } else { bytes };
    if vstd::utf8::valid_utf8(body) {
        law_a_lexed_document_is_well_shaped(vstd::utf8::decode_utf8(body));
    }
}

} // verus!
