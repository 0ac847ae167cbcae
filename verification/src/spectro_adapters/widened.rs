//! An export with one more column, or with padded cells, converts to the
//! same file.
//!
//! An export widened by one cell at the same place in every line that is not
//! blank, the cell in a header row carrying a label the adapter does not
//! read, converts to what the narrower export converts to; a level export
//! whose quoted cells carry white space inside their quotation marks converts
//! to what the unpadded one converts to.
use vstd::prelude::*;
use crate::spectro_adapters::by_label::{
    block_past_insert, law_a_cell_is_read_where_its_column_stands, law_a_level_column_is_found_by_its_label,
    law_a_line_column_is_found_by_its_label, law_a_padded_level_cell_reads_the_same, level_columns_past_insert,
    unread_level_label, unread_line_label, all_white,
};
use crate::spectro_adapters::nist_asd_lines::{self, BlockView, LinesState};
use crate::spectro_adapters::export::{
    any_begins, begins_with, find_from, lemma_find_is_within, lemma_find_none, lemma_find_past_insert, without_cr,
};
use crate::spectro_adapters::nist_asd_levels::{
    convert_v, entry_v, row_v, state_upto, step_v, ColumnsView, LevelsState,
};
use crate::text::{lemma_split_step, split, split_once};
use crate::spectro_contract::written::{joined, written};
use vstd::utf8::{encode_utf8, encode_utf8_decode_utf8, encode_utf8_valid_utf8};

verus! {

/// The cells of a line of an export: the line without its carriage return,
/// cut at its tabs.
pub open spec fn export_cells(piece: Seq<char>) -> Seq<Seq<char>> {
    split(without_cr(piece), '\t')
}

/// Line `w` is line `e` with one cell put in at `k`: both blank, or `w`'s
/// cells are `e`'s with a cell put in at `k` that begins no level label, and
/// in a header row names no column the adapter reads.
pub open spec fn widened_level_line(e: Seq<char>, w: Seq<char>, k: int) -> bool {
    ||| without_cr(e).len() == 0 && without_cr(w).len() == 0
    ||| without_cr(e).len() > 0 && without_cr(w).len() > 0 && 0 <= k <= export_cells(e).len()
        && exists|v: Seq<char>| #[trigger] export_cells(e).insert(k, v) == export_cells(w)
            && !begins_with("Level ("@)(v) && (any_begins(export_cells(e), "Level ("@) ==> unread_level_label(v))
}

/// The columns read, moved for a cell put in at `k`.
pub open spec fn columns_moved(c: Option<ColumnsView>, k: int) -> Option<ColumnsView> {
    match c {
        Some(v) => Some(level_columns_past_insert(Ok(v), k)->Ok_0),
        None => None,
    }
}

/// What the reading of the widened export keeps in step with the reading of
/// the narrower one: the columns, moved; everything else but the words of a
/// refusal.
pub open spec fn in_step(s: LevelsState, s2: LevelsState, k: int) -> bool {
    &&& s2.columns == columns_moved(s.columns, k)
    &&& s2.header_seen == s.header_seen
    &&& s2.rows == s.rows
    &&& s2.not_taken == s.not_taken
    &&& s2.refusals.len() == s.refusals.len()
}

proof fn lemma_row_in_step(c: ColumnsView, cells: Seq<Seq<char>>, v: Seq<char>, k: int, line: usize, species: Seq<char>)
    requires
        0 <= k <= cells.len(),
    ensures
        ({
            let c2 = level_columns_past_insert(Ok(c), k)->Ok_0;
            let (r, n) = row_v(c, cells, line, species);
            let (r2, n2) = row_v(c2, cells.insert(k, v), line, species);
            &&& n2 == n
            &&& r2 is Ok <==> r is Ok
            &&& r is Ok ==> r2 == r
            &&& r matches Err(f) ==> r2->Err_0.len() == f.len()
        }),
{
    let c2 = level_columns_past_insert(Ok(c), k)->Ok_0;
    let cells2 = cells.insert(k, v);
    law_a_cell_is_read_where_its_column_stands(cells, k, v, Some(c.term));
    law_a_cell_is_read_where_its_column_stands(cells, k, v, Some(c.suffix));
    law_a_cell_is_read_where_its_column_stands(cells, k, v, Some(c.level));
    law_a_cell_is_read_where_its_column_stands(cells, k, v, Some(c.prefix));
    law_a_cell_is_read_where_its_column_stands(cells, k, v, Some(c.j));
    law_a_cell_is_read_where_its_column_stands(cells, k, v, Some(c.configuration));
    law_a_cell_is_read_where_its_column_stands(cells, k, v, c.uncertainty);
    assert(entry_v(c2, cells2, line, species) == entry_v(c, cells, line, species));
}

#[verifier::spinoff_prover]
#[verifier::rlimit(40)]
proof fn lemma_step_in_step(s: LevelsState, s2: LevelsState, ep: Seq<Seq<char>>, wp: Seq<Seq<char>>, i: int, k: int, species: Seq<char>)
    requires
        in_step(s, s2, k),
        ep.len() == wp.len(),
        0 <= i < ep.len(),
        widened_level_line(ep[i], wp[i], k),
    ensures
        in_step(step_v(s, ep, i, species), step_v(s2, wp, i, species), k),
{
    let line = (i + 1) as usize;
    if without_cr(ep[i]).len() > 0 {
        let cells = export_cells(ep[i]);
        let v = choose|v: Seq<char>| #[trigger] export_cells(ep[i]).insert(k, v) == export_cells(wp[i])
            && !begins_with("Level ("@)(v) && (any_begins(export_cells(ep[i]), "Level ("@) ==> unread_level_label(v));
        let cells2 = cells.insert(k, v);
        assert(export_cells(wp[i]) == cells2);
        lemma_find_past_insert(cells, begins_with("Level ("@), v, k, 0);
        assert(any_begins(cells2, "Level ("@) == any_begins(cells, "Level ("@));
        if any_begins(cells, "Level ("@) {
            law_a_level_column_is_found_by_its_label(cells, line, k, v);
        } else {
            if let Some(c) = s.columns {
                lemma_row_in_step(c, cells, v, k, line, species);
            }
        }
    }
}

proof fn lemma_reading_in_step(ep: Seq<Seq<char>>, wp: Seq<Seq<char>>, n: int, k: int, species: Seq<char>, start: LevelsState)
    requires
        ep.len() == wp.len(),
        0 <= n <= ep.len(),
        forall|i: int| 0 <= i < ep.len() ==> widened_level_line(#[trigger] ep[i], wp[i], k),
        start.columns is None,
    ensures
        in_step(state_upto(ep, n, species, start), state_upto(wp, n, species, start), k),
    decreases n,
{
    if n > 0 {
        lemma_reading_in_step(ep, wp, n - 1, k, species, start);
        lemma_step_in_step(state_upto(ep, n - 1, species, start), state_upto(wp, n - 1, species, start), ep, wp, n - 1, k, species);
    }
}

/// Every column of a level export is found by its label and never by its
/// position: an export widened by one cell at the same place `k` in every
/// line that is not blank, the cell in its header row a label the adapter does
/// not read and in no line the start of a level label, converts to exactly
/// what the narrower export converts to, wherever that conversion succeeds.
#[verifier::spinoff_prover]
pub proof fn law_a_widened_level_export_converts_the_same(narrow: Seq<u8>, wide: Seq<u8>, k: int, species: Seq<char>, id: Seq<char>)
    requires
        vstd::utf8::valid_utf8(narrow),
        vstd::utf8::valid_utf8(wide),
        split(vstd::utf8::decode_utf8(narrow), '\n').len() == split(vstd::utf8::decode_utf8(wide), '\n').len(),
        forall|i: int| 0 <= i < split(vstd::utf8::decode_utf8(narrow), '\n').len() ==> widened_level_line(
            #[trigger] split(vstd::utf8::decode_utf8(narrow), '\n')[i],
            split(vstd::utf8::decode_utf8(wide), '\n')[i],
            k,
        ),
    ensures
        convert_v(narrow, species, id) is Ok ==> convert_v(wide, species, id) == convert_v(narrow, species, id),
{
    let ep = split(vstd::utf8::decode_utf8(narrow), '\n');
    let wp = split(vstd::utf8::decode_utf8(wide), '\n');
    let start = LevelsState {
        columns: None,
        header_seen: false,
        rows: Seq::empty(),
        not_taken: Seq::empty(),
        refusals: crate::spectro_adapters::export::naming_check_v("species"@, species)
            + crate::spectro_adapters::export::naming_check_v("level_set_id"@, id),
    };
    lemma_reading_in_step(ep, wp, ep.len() as int, k, species, start);
}

/// Line `w` of a line export is line `e` with one cell put in at `k`: both
/// blank, or `w`'s cells are `e`'s with a cell put in at `k` that begins no
/// observed wavelength label, and in a header row names no column the
/// adapter reads.
pub open spec fn widened_line_row(e: Seq<char>, w: Seq<char>, k: int) -> bool {
    ||| without_cr(e).len() == 0 && without_cr(w).len() == 0
    ||| without_cr(e).len() > 0 && without_cr(w).len() > 0 && 0 <= k <= export_cells(e).len()
        && exists|v: Seq<char>| #[trigger] export_cells(e).insert(k, v) == export_cells(w)
            && !begins_with("obs_wl_"@)(v) && (any_begins(export_cells(e), "obs_wl_"@) ==> unread_line_label(v))
}

/// The block read, moved for a cell put in at `k`.
pub open spec fn block_moved(b: Option<BlockView>, k: int) -> Option<BlockView> {
    match b {
        Some(v) => Some(block_past_insert(Ok(v), k)->Ok_0),
        None => None,
    }
}

/// What the reading of the widened line export keeps in step with the
/// reading of the narrower one: the block, moved, and everything else.
pub open spec fn lines_in_step(s: LinesState, s2: LinesState, k: int) -> bool {
    &&& s2.block == block_moved(s.block, k)
    &&& s2.unit == s.unit
    &&& s2.first_medium == s.first_medium
    &&& s2.rows == s.rows
    &&& s2.not_taken == s.not_taken
    &&& s2.refusals == s.refusals
}

proof fn lemma_line_row_in_step(b: BlockView, cells: Seq<Seq<char>>, v: Seq<char>, k: int, line: usize, spectrum: Seq<char>)
    requires
        0 <= k <= cells.len(),
    ensures
        nist_asd_lines::row_v(block_past_insert(Ok(b), k)->Ok_0, cells.insert(k, v), line, spectrum)
            == nist_asd_lines::row_v(b, cells, line, spectrum),
{
    law_a_cell_is_read_where_its_column_stands(cells, k, v, Some(b.observed));
    law_a_cell_is_read_where_its_column_stands(cells, k, v, b.ritz);
    law_a_cell_is_read_where_its_column_stands(cells, k, v, b.uncertainty);
    law_a_cell_is_read_where_its_column_stands(cells, k, v, b.intensity);
    if let Some((a, label)) = b.accuracy {
        law_a_cell_is_read_where_its_column_stands(cells, k, v, Some(a));
    }
    if let Some(r) = b.ritz {
        law_a_cell_is_read_where_its_column_stands(cells, k, v, Some(r));
    }
}

#[verifier::spinoff_prover]
#[verifier::rlimit(40)]
proof fn lemma_line_step_in_step(s: LinesState, s2: LinesState, ep: Seq<Seq<char>>, wp: Seq<Seq<char>>, i: int, k: int, spectrum: Seq<char>)
    requires
        lines_in_step(s, s2, k),
        ep.len() == wp.len(),
        0 <= i < ep.len(),
        widened_line_row(ep[i], wp[i], k),
    ensures
        lines_in_step(nist_asd_lines::step_v(s, ep, i, spectrum), nist_asd_lines::step_v(s2, wp, i, spectrum), k),
{
    let line = (i + 1) as usize;
    if without_cr(ep[i]).len() > 0 {
        let cells = export_cells(ep[i]);
        let v = choose|v: Seq<char>| #[trigger] export_cells(ep[i]).insert(k, v) == export_cells(wp[i])
            && !begins_with("obs_wl_"@)(v) && (any_begins(export_cells(ep[i]), "obs_wl_"@) ==> unread_line_label(v));
        let cells2 = cells.insert(k, v);
        assert(export_cells(wp[i]) == cells2);
        lemma_find_past_insert(cells, begins_with("obs_wl_"@), v, k, 0);
        assert(any_begins(cells2, "obs_wl_"@) == any_begins(cells, "obs_wl_"@));
        if any_begins(cells, "obs_wl_"@) {
            law_a_line_column_is_found_by_its_label(cells, line, k, v);
        } else {
            if let Some(b) = s.block {
                lemma_line_row_in_step(b, cells, v, k, line, spectrum);
            }
        }
    }
}

proof fn lemma_line_reading_in_step(ep: Seq<Seq<char>>, wp: Seq<Seq<char>>, n: int, k: int, spectrum: Seq<char>, start: LinesState)
    requires
        ep.len() == wp.len(),
        0 <= n <= ep.len(),
        forall|i: int| 0 <= i < ep.len() ==> widened_line_row(#[trigger] ep[i], wp[i], k),
        start.block is None,
    ensures
        lines_in_step(
            nist_asd_lines::state_upto(ep, n, spectrum, start),
            nist_asd_lines::state_upto(wp, n, spectrum, start),
            k,
        ),
    decreases n,
{
    if n > 0 {
        lemma_line_reading_in_step(ep, wp, n - 1, k, spectrum, start);
        lemma_line_step_in_step(
            nist_asd_lines::state_upto(ep, n - 1, spectrum, start),
            nist_asd_lines::state_upto(wp, n - 1, spectrum, start),
            ep,
            wp,
            n - 1,
            k,
            spectrum,
        );
    }
}

/// Every column of a line export is found by its label and never by its
/// position: an export widened by one cell at the same place `k` in every
/// line that is not blank, the cell in each header row a label the adapter
/// does not read and in no line the start of an observed wavelength label,
/// converts to exactly what the narrower export converts to, refusals
/// included.
#[verifier::spinoff_prover]
pub proof fn law_a_widened_line_export_converts_the_same(narrow: Seq<u8>, wide: Seq<u8>, k: int, spectrum: Seq<char>, id: Seq<char>)
    requires
        vstd::utf8::valid_utf8(narrow),
        vstd::utf8::valid_utf8(wide),
        split(vstd::utf8::decode_utf8(narrow), '\n').len() == split(vstd::utf8::decode_utf8(wide), '\n').len(),
        forall|i: int| 0 <= i < split(vstd::utf8::decode_utf8(narrow), '\n').len() ==> widened_line_row(
            #[trigger] split(vstd::utf8::decode_utf8(narrow), '\n')[i],
            split(vstd::utf8::decode_utf8(wide), '\n')[i],
            k,
        ),
    ensures
        nist_asd_lines::convert_v(wide, spectrum, id) == nist_asd_lines::convert_v(narrow, spectrum, id),
{
    let ep = split(vstd::utf8::decode_utf8(narrow), '\n');
    let wp = split(vstd::utf8::decode_utf8(wide), '\n');
    let start = LinesState {
        block: None,
        unit: None,
        first_medium: None,
        rows: Seq::empty(),
        not_taken: Seq::empty(),
        refusals: crate::spectro_adapters::export::naming_check_v("spectrum_id"@, spectrum)
            + crate::spectro_adapters::export::naming_check_v("line_list_id"@, id),
    };
    lemma_line_reading_in_step(ep, wp, ep.len() as int, k, spectrum, start);
}

/// Cell `w` is cell `e`, or `e` quoted with white space put in inside its
/// quotation marks.
pub open spec fn padded_cell(e: Seq<char>, w: Seq<char>) -> bool {
    ||| w == e
    ||| exists|p: Seq<char>, t: Seq<char>, q: Seq<char>| all_white(p) && all_white(q) && e == seq!['"'] + t + seq!['"']
        && #[trigger] (seq!['"'] + p + t + q + seq!['"']) == w
}

/// Line `w` of a level export is line `e` with some of its quoted cells
/// padded: both blank, or the same header row, or as many cells, each the
/// same or padded.
pub open spec fn padded_level_line(e: Seq<char>, w: Seq<char>) -> bool {
    ||| without_cr(e).len() == 0 && without_cr(w).len() == 0
    ||| without_cr(e).len() > 0 && without_cr(w).len() > 0 && export_cells(w).len() == export_cells(e).len()
        && (any_begins(export_cells(e), "Level ("@) ==> export_cells(w) == export_cells(e))
        && forall|c: int| 0 <= c < export_cells(e).len() ==> padded_cell(#[trigger] export_cells(e)[c], export_cells(w)[c])
}

proof fn lemma_padded_cell_reads_the_same(cells: Seq<Seq<char>>, cells2: Seq<Seq<char>>, col: Option<int>)
    requires
        cells2.len() == cells.len(),
        forall|c: int| 0 <= c < cells.len() ==> padded_cell(#[trigger] cells[c], cells2[c]),
    ensures
        crate::spectro_adapters::nist_asd_levels::cell_v(cells2, col) == crate::spectro_adapters::nist_asd_levels::cell_v(cells, col),
{
    if let Some(c) = col {
        if 0 <= c < cells.len() {
            assert(padded_cell(cells[c], cells2[c]));
            if cells2[c] != cells[c] {
                let (p, t, q) = choose|p: Seq<char>, t: Seq<char>, q: Seq<char>| all_white(p) && all_white(q)
                    && cells[c] == seq!['"'] + t + seq!['"'] && #[trigger] (seq!['"'] + p + t + q + seq!['"']) == cells2[c];
                law_a_padded_level_cell_reads_the_same(cells.update(c, cells2[c]), c, p, t, q);
                assert(cells.update(c, cells2[c]).update(c, seq!['"'] + p + t + q + seq!['"'])[c] == cells2[c]);
                assert(cells.update(c, cells2[c]).update(c, seq!['"'] + t + seq!['"'])[c] == cells[c]);
            }
        }
    }
}

proof fn lemma_no_level_label_padded(cells: Seq<Seq<char>>, cells2: Seq<Seq<char>>)
    requires
        cells2.len() == cells.len(),
        forall|c: int| 0 <= c < cells.len() ==> padded_cell(#[trigger] cells[c], cells2[c]),
        !any_begins(cells, "Level ("@),
    ensures
        !any_begins(cells2, "Level ("@),
{
    lemma_find_is_within(cells2, begins_with("Level ("@), 0);
    lemma_find_none(cells, begins_with("Level ("@), 0);
    if let Some(c) = find_from(cells2, begins_with("Level ("@), 0) {
        assert(padded_cell(cells[c], cells2[c]));
        assert(!begins_with("Level ("@)(cells[c]));
        reveal_strlit("Level (");
        if cells2[c] != cells[c] {
            let (p, t, q) = choose|p: Seq<char>, t: Seq<char>, q: Seq<char>| all_white(p) && all_white(q)
                && cells[c] == seq!['"'] + t + seq!['"'] && #[trigger] (seq!['"'] + p + t + q + seq!['"']) == cells2[c];
            assert(cells2[c][0] == '"');
            assert(cells2[c].take(7)[0] == '"');
        }
    }
}

#[verifier::spinoff_prover]
#[verifier::rlimit(40)]
proof fn lemma_padded_step(s: LevelsState, ep: Seq<Seq<char>>, wp: Seq<Seq<char>>, i: int, species: Seq<char>)
    requires
        ep.len() == wp.len(),
        0 <= i < ep.len(),
        padded_level_line(ep[i], wp[i]),
    ensures
        step_v(s, wp, i, species) == step_v(s, ep, i, species),
{
    let line = (i + 1) as usize;
    if without_cr(ep[i]).len() > 0 {
        let cells = export_cells(ep[i]);
        let cells2 = export_cells(wp[i]);
        if !any_begins(cells, "Level ("@) {
            lemma_no_level_label_padded(cells, cells2);
            if let Some(c) = s.columns {
                lemma_padded_cell_reads_the_same(cells, cells2, Some(c.term));
                lemma_padded_cell_reads_the_same(cells, cells2, Some(c.suffix));
                lemma_padded_cell_reads_the_same(cells, cells2, Some(c.level));
                lemma_padded_cell_reads_the_same(cells, cells2, Some(c.prefix));
                lemma_padded_cell_reads_the_same(cells, cells2, Some(c.j));
                lemma_padded_cell_reads_the_same(cells, cells2, Some(c.configuration));
                lemma_padded_cell_reads_the_same(cells, cells2, c.uncertainty);
                assert(entry_v(c, cells2, line, species) == entry_v(c, cells, line, species));
                assert(row_v(c, cells2, line, species) == row_v(c, cells, line, species));
            }
        }
    }
}

proof fn lemma_padded_reading(ep: Seq<Seq<char>>, wp: Seq<Seq<char>>, n: int, species: Seq<char>, start: LevelsState)
    requires
        ep.len() == wp.len(),
        0 <= n <= ep.len(),
        forall|i: int| 0 <= i < ep.len() ==> padded_level_line(#[trigger] ep[i], wp[i]),
    ensures
        state_upto(wp, n, species, start) == state_upto(ep, n, species, start),
    decreases n,
{
    if n > 0 {
        lemma_padded_reading(ep, wp, n - 1, species, start);
        lemma_padded_step(state_upto(ep, n - 1, species, start), ep, wp, n - 1, species);
    }
}

/// The padding an export writes is taken off before a cell reaches the
/// emitted file: an export whose quoted cells outside its header row carry
/// white space inside their quotation marks converts to exactly what the
/// unpadded export converts to, refusals included.
#[verifier::spinoff_prover]
pub proof fn law_a_padded_level_export_converts_the_same(plain: Seq<u8>, padded: Seq<u8>, species: Seq<char>, id: Seq<char>)
    requires
        vstd::utf8::valid_utf8(plain),
        vstd::utf8::valid_utf8(padded),
        split(vstd::utf8::decode_utf8(plain), '\n').len() == split(vstd::utf8::decode_utf8(padded), '\n').len(),
        forall|i: int| 0 <= i < split(vstd::utf8::decode_utf8(plain), '\n').len() ==> padded_level_line(
            #[trigger] split(vstd::utf8::decode_utf8(plain), '\n')[i],
            split(vstd::utf8::decode_utf8(padded), '\n')[i],
        ),
    ensures
        convert_v(padded, species, id) == convert_v(plain, species, id),
{
    let ep = split(vstd::utf8::decode_utf8(plain), '\n');
    let wp = split(vstd::utf8::decode_utf8(padded), '\n');
    let start = LevelsState {
        columns: None,
        header_seen: false,
        rows: Seq::empty(),
        not_taken: Seq::empty(),
        refusals: crate::spectro_adapters::export::naming_check_v("species"@, species)
            + crate::spectro_adapters::export::naming_check_v("level_set_id"@, id),
    };
    lemma_padded_reading(ep, wp, ep.len() as int, species, start);
}

/// The last character of cells joined by tabs.
proof fn lemma_joined_last(c: Seq<Seq<char>>)
    requires
        c.len() >= 1,
    ensures
        c.last().len() > 0 ==> joined(c).len() > 0 && joined(c).last() == c.last().last(),
        c.len() >= 2 && c.last().len() == 0 ==> joined(c).len() > 0 && joined(c).last() == '\t',
    decreases c.len(),
{
    reveal_strlit("\t");
    if c.len() >= 2 {
        let rest = c.drop_first();
        lemma_joined_last(rest);
        assert(rest.last() == c.last());
        assert(joined(c) == c[0] + "\t"@ + joined(rest));
        if rest.len() == 1 {
            assert(joined(rest) == rest[0]);
        }
    }
}

/// Cutting a line at its tabs and joining the pieces again gives the line.
#[verifier::spinoff_prover]
proof fn lemma_joined_split(t: Seq<char>)
    ensures
        joined(split(t, '\t')) == t,
    decreases t.len(),
{
    lemma_split_step(t, '\t');
    if let Some((a, b)) = split_once(t, '\t') {
        lemma_joined_split(b);
        let q = split(b, '\t');
        lemma_split_nonempty(b);
        let p = seq![a] + q;
        assert(split(t, '\t') == p);
        lemma_joined_front(a, q);
        assert("\t"@ =~= seq!['\t']) by {
            reveal_strlit("\t");
        }
        assert(t =~= a + seq!['\t'] + b);
    }
}

proof fn lemma_joined_front(a: Seq<char>, q: Seq<Seq<char>>)
    requires
        q.len() >= 1,
    ensures
        joined(seq![a] + q) == a + "\t"@ + joined(q),
{
    let p = seq![a] + q;
    assert(p.len() >= 2);
    assert(p.drop_first() =~= q);
    assert(p[0] == a);
}

proof fn lemma_split_nonempty(t: Seq<char>)
    ensures
        split(t, '\t').len() >= 1,
{
    lemma_split_step(t, '\t');
}

/// Text with no tab, no line feed and no carriage return.
pub open spec fn cell_text(v: Seq<char>) -> bool {
    !v.contains('\t') && !v.contains('\n') && !v.contains('\r')
}

/// Line `piece` of an export with a cell put in at `k`: `x` where the line is
/// a header row, `y` where it is any other line that is not blank; a blank
/// line stays as it is, and a line ending in CRLF keeps its carriage return.
pub open spec fn widen_line(piece: Seq<char>, k: int, x: Seq<char>, y: Seq<char>) -> Seq<char> {
    let content = without_cr(piece);
    if content.len() == 0 {
        piece
    } else {
        let cells = split(content, '\t');
        joined(cells.insert(k, if any_begins(cells, "Level ("@) { x } else { y })) + piece.skip(content.len() as int)
    }
}

/// Lines joined by line feeds, the last with none after it.
pub open spec fn joined_lines(ls: Seq<Seq<char>>) -> Seq<char> {
    written(ls.drop_last()) + ls.last()
}

/// A level export widened by a cell put in at `k` in every line that is not
/// blank.
pub open spec fn widen_export(t: Seq<char>, k: int, x: Seq<char>, y: Seq<char>) -> Seq<char> {
    joined_lines(split(t, '\n').map_values(|piece: Seq<char>| widen_line(piece, k, x, y)))
}

proof fn lemma_widen_line(piece: Seq<char>, k: int, x: Seq<char>, y: Seq<char>)
    requires
        !piece.contains('\n'),
        cell_text(x),
        cell_text(y),
        unread_level_label(x),
        !begins_with("Level ("@)(y),
        without_cr(piece).len() > 0 ==> 0 <= k <= export_cells(piece).len(),
    ensures
        widened_level_line(piece, widen_line(piece, k, x, y), k),
        !widen_line(piece, k, x, y).contains('\n'),
{
    let content = without_cr(piece);
    let w = widen_line(piece, k, x, y);
    if content.len() > 0 {
        let cells = split(content, '\t');
        let v = if any_begins(cells, "Level ("@) { x } else { y };
        let c2 = cells.insert(k, v);
        let j = joined(c2);
        let tail = piece.skip(content.len() as int);
        crate::text::lemma_split_parts(content, '\t', '\n');
        assert(!content.contains('\n')) by {
            if content.contains('\n') {
                let m = choose|m: int| 0 <= m < content.len() && content[m] == '\n';
                assert(piece[m] == '\n');
            }
        }
        lemma_split_nonempty(content);
        assert forall|m: int| 0 <= m < c2.len() implies !(#[trigger] c2[m]).contains('\t') && !c2[m].contains('\n') by {
            if m < k {
                assert(c2[m] == cells[m]);
            } else if m > k {
                assert(c2[m] == cells[m - 1]);
            }
        }
        crate::spectro_contract::written::lemma_split_joined(c2);
        // the carriage return that ended the line, if any, is all that follows
        if piece.len() > 0 && piece.last() == '\r' {
            assert(tail =~= seq!['\r']);
            assert((j + tail).drop_last() =~= j);
        } else {
            assert(tail =~= Seq::<char>::empty());
            assert(j + tail =~= j);
            lemma_joined_last(c2);
            lemma_joined_split(content);
            lemma_joined_last(cells);
            assert(c2.len() >= 2);
            if k < cells.len() {
                assert(c2.last() == cells.last());
            } else {
                assert(c2.last() == v);
                if v.len() > 0 {
                    assert(v.contains(v.last()));
                }
            }
        }
        assert(without_cr(w) == j);
        assert(j.len() > 0) by {
            lemma_joined_last(c2);
            if c2.last().len() == 0 {
            } else {
            }
        }
        assert(export_cells(w) == c2);
        assert(export_cells(piece).insert(k, v) == export_cells(w));
        assert(!w.contains('\n')) by {
            lemma_no_lf_joined(c2);
            if w.contains('\n') {
                let m = choose|m: int| 0 <= m < w.len() && w[m] == '\n';
                if m < j.len() {
                    assert(j[m] == '\n');
                } else {
                    assert(tail[m - j.len()] == '\n');
                    assert(piece[content.len() + m - j.len()] == '\n');
                }
            }
        }
    }
}

proof fn lemma_no_lf_joined(c: Seq<Seq<char>>)
    requires
        forall|m: int| 0 <= m < c.len() ==> !(#[trigger] c[m]).contains('\n'),
    ensures
        !joined(c).contains('\n'),
    decreases c.len(),
{
    reveal_strlit("\t");
    if c.len() >= 2 {
        let rest = c.drop_first();
        assert forall|m: int| 0 <= m < rest.len() implies !(#[trigger] rest[m]).contains('\n') by {
            assert(rest[m] == c[m + 1]);
        }
        lemma_no_lf_joined(rest);
        let j = joined(c);
        assert(j == c[0] + "\t"@ + joined(rest));
        if j.contains('\n') {
            let m = choose|m: int| 0 <= m < j.len() && j[m] == '\n';
            if m < c[0].len() {
                assert(c[0][m] == '\n');
            } else if m > c[0].len() {
                assert(joined(rest)[m - c[0].len() - 1] == '\n');
            }
        }
    } else if c.len() == 1 {
        assert(!c[0].contains('\n'));
    }
}

proof fn lemma_lines_of_joined(ps: Seq<Seq<char>>)
    requires
        ps.len() >= 1,
        forall|i: int| 0 <= i < ps.len() ==> !(#[trigger] ps[i]).contains('\n'),
    ensures
        split(joined_lines(ps), '\n') == ps,
{
    let init = ps.drop_last();
    assert forall|i: int| 0 <= i < init.len() implies !(#[trigger] init[i]).contains('\n') by {
        assert(init[i] == ps[i]);
    }
    crate::spectro_contract::written::lemma_split_written(init, ps.last());
    crate::spectro_contract::written::lemma_split_whole(ps.last(), '\n');
    assert(init + seq![ps.last()] =~= ps);
}

/// Every column of a level export is found by its label and never by its
/// position: the export with a cell put in at the same place `k` of every
/// line that is not blank (`x` in the header row, a label the adapter does
/// not read; `y` in every other line, beginning no level label; neither
/// holding a tab or a line ending) converts to exactly what the export
/// converts to, wherever that conversion succeeds.
#[verifier::spinoff_prover]
pub proof fn law_a_level_export_with_one_more_column_converts_the_same(
    export: Seq<char>,
    k: int,
    x: Seq<char>,
    y: Seq<char>,
    species: Seq<char>,
    id: Seq<char>,
)
    requires
        cell_text(x),
        cell_text(y),
        unread_level_label(x),
        !begins_with("Level ("@)(y),
        0 <= k,
        forall|i: int| 0 <= i < split(export, '\n').len() && without_cr(#[trigger] split(export, '\n')[i]).len() > 0
            ==> k <= export_cells(split(export, '\n')[i]).len(),
    ensures
        convert_v(encode_utf8(export), species, id) is Ok ==> convert_v(encode_utf8(widen_export(export, k, x, y)), species, id)
            == convert_v(encode_utf8(export), species, id),
{
    let ps = split(export, '\n');
    let ws = ps.map_values(|piece: Seq<char>| widen_line(piece, k, x, y));
    let wide = widen_export(export, k, x, y);
    crate::text::lemma_split_parts(export, '\n', '\n');
    crate::text::lemma_split_step(export, '\n');
    assert forall|i: int| 0 <= i < ps.len() implies widened_level_line(#[trigger] ps[i], ws[i], k) && !ws[i].contains('\n') by {
        lemma_widen_line(ps[i], k, x, y);
    }
    lemma_lines_of_joined(ws);
    encode_utf8_valid_utf8(export);
    encode_utf8_decode_utf8(export);
    encode_utf8_valid_utf8(wide);
    encode_utf8_decode_utf8(wide);
    law_a_widened_level_export_converts_the_same(encode_utf8(export), encode_utf8(wide), k, species, id);
}

} // verus!
