//! Columns are found by their labels.
//!
//! Both exports are read column by column through the label each column
//! carries, so a column the adapter does not read, put in anywhere in the
//! header row, moves the columns it reads and changes nothing else; a cell of
//! a row is read from where its column's label stands, and with the padding
//! round it taken off.
use vstd::prelude::*;
use crate::spectro_adapters::export::{
    begins_with, equals, find_from, lemma_find_is_within, lemma_find_past_insert, shifted, trim_end_v,
    trim_start_v, trim_v, unquote_v,
};
use crate::spectro_contract::value::is_white_space;
use crate::spectro_adapters::nist_asd_levels::{columns_read_v, level_unit_v, uncertainty_unit_v, ColumnsView};
use crate::spectro_adapters::nist_asd_lines::{block_read_v, BlockView};
use crate::spectro_contract::refusal::RefusalView;

verus! {

/// The columns of a header row read once a cell has been put in at `k`:
/// every column found where its label now stands, and what is refused, the
/// same.
pub open spec fn level_columns_past_insert(r: Result<ColumnsView, Seq<RefusalView>>, k: int) -> Result<ColumnsView, Seq<RefusalView>> {
    match r {
        Ok(c) => Ok(ColumnsView {
            unit: c.unit,
            width: c.width + 1,
            configuration: shifted(Some(c.configuration), k)->Some_0,
            term: shifted(Some(c.term), k)->Some_0,
            j: shifted(Some(c.j), k)->Some_0,
            prefix: shifted(Some(c.prefix), k)->Some_0,
            suffix: shifted(Some(c.suffix), k)->Some_0,
            level: shifted(Some(c.level), k)->Some_0,
            uncertainty: shifted(c.uncertainty, k),
        }),
        Err(e) => Err(e),
    }
}

/// A label the header row is not read for.
pub open spec fn unread_level_label(x: Seq<char>) -> bool {
    &&& x != "Term"@ && x != "J"@ && x != "Prefix"@ && x != "Suffix"@ && x != "Configuration"@
    &&& !begins_with("Level ("@)(x) && !begins_with("Uncertainty ("@)(x)
}

/// Every column of a level export is found by its label and never by its
/// position: a column the reader is not looking for, put in anywhere, moves
/// the others and changes nothing else of what the header row reads as or is
/// refused for.
#[verifier::spinoff_prover]
#[verifier::rlimit(30)]
pub proof fn law_a_level_column_is_found_by_its_label(cells: Seq<Seq<char>>, line: usize, k: int, x: Seq<char>)
    requires
        0 <= k <= cells.len(),
        unread_level_label(x),
    ensures
        columns_read_v(cells.insert(k, x), line) == level_columns_past_insert(columns_read_v(cells, line), k),
{
    let c2 = cells.insert(k, x);
    lemma_find_past_insert(cells, begins_with("Level ("@), x, k, 0);
    lemma_find_past_insert(cells, begins_with("Uncertainty ("@), x, k, 0);
    lemma_find_past_insert(cells, equals("Term"@), x, k, 0);
    lemma_find_past_insert(cells, equals("J"@), x, k, 0);
    lemma_find_past_insert(cells, equals("Prefix"@), x, k, 0);
    lemma_find_past_insert(cells, equals("Suffix"@), x, k, 0);
    lemma_find_past_insert(cells, equals("Configuration"@), x, k, 0);
    if let Some(c) = find_from(cells, begins_with("Level ("@), 0) {
        lemma_find_is_within(cells, begins_with("Level ("@), 0);
        assert(c2[if c >= k { c + 1 } else { c }] == cells[c]);
    }
    if let Some(c) = find_from(cells, begins_with("Uncertainty ("@), 0) {
        lemma_find_is_within(cells, begins_with("Uncertainty ("@), 0);
        assert(c2[if c >= k { c + 1 } else { c }] == cells[c]);
    }
    assert(level_unit_v(c2, line).2 == level_unit_v(cells, line).2);
    assert(level_unit_v(c2, line).1 == level_unit_v(cells, line).1);
    assert(uncertainty_unit_v(c2, line, level_unit_v(cells, line).1).1 == uncertainty_unit_v(cells, line, level_unit_v(cells, line).1).1);
}

/// The block a header row reads as once a cell has been put in at `k`: every
/// column found where its label now stands, and what is refused, the same.
pub open spec fn block_past_insert(r: Result<BlockView, RefusalView>, k: int) -> Result<BlockView, RefusalView> {
    match r {
        Ok(b) => Ok(BlockView {
            medium: b.medium,
            unit: b.unit,
            observed: shifted(Some(b.observed), k)->Some_0,
            ritz: shifted(b.ritz, k),
            uncertainty: shifted(b.uncertainty, k),
            intensity: shifted(b.intensity, k),
            accuracy: match b.accuracy {
                Some((a, label)) => Some((shifted(Some(a), k)->Some_0, label)),
                None => None,
            },
        }),
        Err(e) => Err(e),
    }
}

/// A label a line header row is not read for.
pub open spec fn unread_line_label(x: Seq<char>) -> bool {
    &&& x != "unc_obs_wl"@ && x != "intens"@ && x != "Acc"@
    &&& !begins_with("obs_wl_"@)(x) && !begins_with("ritz_wl_"@)(x)
}

/// Every column of a line export is found by its label and never by its
/// position: a column the reader is not looking for, put in anywhere, moves
/// the others and changes nothing else of what the header row reads as or is
/// refused for.
#[verifier::spinoff_prover]
#[verifier::rlimit(30)]
pub proof fn law_a_line_column_is_found_by_its_label(cells: Seq<Seq<char>>, line: usize, k: int, x: Seq<char>)
    requires
        0 <= k <= cells.len(),
        unread_line_label(x),
    ensures
        block_read_v(cells.insert(k, x), line) == block_past_insert(block_read_v(cells, line), k),
{
    let c2 = cells.insert(k, x);
    lemma_find_past_insert(cells, begins_with("obs_wl_"@), x, k, 0);
    lemma_find_past_insert(cells, begins_with("ritz_wl_"@), x, k, 0);
    lemma_find_past_insert(cells, equals("unc_obs_wl"@), x, k, 0);
    lemma_find_past_insert(cells, equals("intens"@), x, k, 0);
    lemma_find_past_insert(cells, equals("Acc"@), x, k, 0);
    lemma_find_is_within(cells, begins_with("obs_wl_"@), 0);
    lemma_find_is_within(cells, begins_with("ritz_wl_"@), 0);
    lemma_find_is_within(cells, equals("Acc"@), 0);
    if let Some(c) = find_from(cells, begins_with("obs_wl_"@), 0) {
        assert(c2[if c >= k { c + 1 } else { c }] == cells[c]);
    }
    if let Some(c) = find_from(cells, begins_with("ritz_wl_"@), 0) {
        assert(c2[if c >= k { c + 1 } else { c }] == cells[c]);
    }
    if let Some(c) = find_from(cells, equals("Acc"@), 0) {
        assert(c2[if c >= k { c + 1 } else { c }] == cells[c]);
    }
}

/// A cell of a row is read from where its column stands: a cell put in at
/// `k` moves the column and leaves what is read under it unchanged. This holds
/// of the cells both exports read.
pub proof fn law_a_cell_is_read_where_its_column_stands(row: Seq<Seq<char>>, k: int, y: Seq<char>, col: Option<int>)
    requires
        0 <= k <= row.len(),
    ensures
        crate::spectro_adapters::nist_asd_levels::cell_v(row.insert(k, y), shifted(col, k))
            == crate::spectro_adapters::nist_asd_levels::cell_v(row, col),
        crate::spectro_adapters::nist_asd_lines::cell_v(row.insert(k, y), shifted(col, k))
            == crate::spectro_adapters::nist_asd_lines::cell_v(row, col),
{
    if let Some(c) = col {
        if 0 <= c < row.len() {
            assert(row.insert(k, y)[if c >= k { c + 1 } else { c }] == row[c]);
        }
    }
}

/// Text made of white space only.
pub open spec fn all_white(t: Seq<char>) -> bool {
    forall|i: int| 0 <= i < t.len() ==> is_white_space(#[trigger] t[i])
}

proof fn lemma_trim_start_white(p: Seq<char>, s: Seq<char>)
    requires
        all_white(p),
    ensures
        trim_start_v(p + s) == trim_start_v(s),
    decreases p.len(),
{
    if p.len() > 0 {
        assert((p + s)[0] == p[0]);
        assert((p + s).drop_first() =~= p.drop_first() + s);
        lemma_trim_start_white(p.drop_first(), s);
    } else {
        assert(p + s =~= s);
    }
}

proof fn lemma_trim_end_white(s: Seq<char>, q: Seq<char>)
    requires
        all_white(q),
    ensures
        trim_end_v(s + q) == trim_end_v(s),
    decreases q.len(),
{
    if q.len() > 0 {
        assert((s + q).last() == q.last());
        assert((s + q).drop_last() =~= s + q.drop_last());
        lemma_trim_end_white(s, q.drop_last());
    } else {
        assert(s + q =~= s);
    }
}

proof fn lemma_trim_start_all_white(q: Seq<char>)
    requires
        all_white(q),
    ensures
        trim_start_v(q).len() == 0,
    decreases q.len(),
{
    if q.len() > 0 {
        lemma_trim_start_all_white(q.drop_first());
    }
}

proof fn lemma_trim_trailing_white(s: Seq<char>, q: Seq<char>)
    requires
        all_white(q),
    ensures
        trim_v(s + q) == trim_v(s),
    decreases s.len(),
{
    if s.len() == 0 {
        assert(s + q =~= q);
        lemma_trim_start_all_white(q);
    } else if is_white_space(s[0]) {
        assert((s + q)[0] == s[0]);
        assert((s + q).drop_first() =~= s.drop_first() + q);
        lemma_trim_trailing_white(s.drop_first(), q);
    } else {
        assert((s + q)[0] == s[0]);
        lemma_trim_end_white(s, q);
    }
}

/// The padding an export writes round a cell is taken off before the cell is
/// used: white space either side of the text changes nothing of it once
/// trimmed.
pub proof fn law_padding_is_taken_off(p: Seq<char>, s: Seq<char>, q: Seq<char>)
    requires
        all_white(p),
        all_white(q),
    ensures
        trim_v(p + s + q) == trim_v(s),
{
    lemma_trim_start_white(p, s + q);
    assert(p + s + q =~= p + (s + q));
    lemma_trim_trailing_white(s, q);
}

/// A quoted cell of a level row reads the same with spaces added inside its
/// quotation marks.
pub proof fn law_a_padded_level_cell_reads_the_same(row: Seq<Seq<char>>, c: int, p: Seq<char>, s: Seq<char>, q: Seq<char>)
    requires
        0 <= c < row.len(),
        all_white(p),
        all_white(q),
    ensures
        crate::spectro_adapters::nist_asd_levels::cell_v(row.update(c, seq!['"'] + p + s + q + seq!['"']), Some(c))
            == crate::spectro_adapters::nist_asd_levels::cell_v(row.update(c, seq!['"'] + s + seq!['"']), Some(c)),
{
    let padded = seq!['"'] + p + s + q + seq!['"'];
    let bare = seq!['"'] + s + seq!['"'];
    assert(unquote_v(padded) =~= p + s + q);
    assert(unquote_v(bare) =~= s);
    law_padding_is_taken_off(p, s, q);
}

} // verus!
