//! Documents the readers accept without a refusal.
use vstd::prelude::*;
use crate::spectro_contract::columns::columns_v;
use crate::spectro_contract::document::{header_names, DocumentView, RowView};
use crate::spectro_contract::line_list::{
    feature_id_v, flags_under, intensity_v, line_column_words, line_first_v,
    line_head_v, line_list_v, line_required_words, line_row_v, line_second_v, line_tail_v,
    lines_upto, optional_columns_v, ritz_v, row_medium_v,
};
use crate::spectro_contract::reading::{
    class_under, column_of, contract_version_v, first_index, header_of, lemma_first_index,
    number_under, required_cell_v, required_column_v, required_header_v,
    required_under, uncertainty_under, vocabulary_under,
};
use crate::spectro_contract::refusal::RefusalView;
use crate::spectro_contract::level_set::{
    j_under, level_column_words, level_head_v, level_id_v, level_row_v, level_set_v, level_tail_v,
    levels_upto,
};
use crate::spectro_contract::value::{
    component, half_integer_of, intensity_scale_words, number_refusal, origin_words, parity_words,
    position_medium_words, uncertainty_kind_words, version_of,
};
use crate::spectro_contract::written::{distinct, header_views_of, plain, plain_cells, row_views_of};
use crate::text::lemma_split_once_at;

verus! {

/// The first place `x` stands in `s` is `i` where nothing before `i` is `x`.
pub proof fn lemma_first_index_is<A>(s: Seq<A>, x: A, i: int)
    requires
        0 <= i < s.len(),
        s[i] == x,
        forall|j: int| 0 <= j < i ==> s[j] != x,
    ensures
        s.contains(x),
        first_index(s, x) == i,
{
    assert(s.contains(x));
    lemma_first_index(s, x);
    let f = first_index(s, x);
    if f < i {
        assert(s[f] != x);
    }
    if f > i {
        assert(s[i] != x);
    }
}

/// The version this library writes reads as major version one.
pub proof fn lemma_version_one()
    ensures
        version_of("1.0"@) == Ok::<(u32, u32), Seq<char>>((1, 0)),
{
    reveal_strlit("1.0");
    let t = "1.0"@;
    assert(t[1] == '.');
    assert(t[0] != '.');
    lemma_split_once_at(t, '.', 1);
    assert(t.take(1) =~= seq!['1']);
    assert(t.skip(2) =~= seq!['0']);
    assert(seq!['1'].drop_last() =~= Seq::<char>::empty());
    assert(seq!['0'].drop_last() =~= Seq::<char>::empty());
    assert(seq!['1'].last() == '1');
    assert(crate::number::digit_value('1') == 1);
    assert(crate::number::digits_value(seq!['1']) == crate::number::digits_value(seq!['1'].drop_last()) * 10 + crate::number::digit_value('1'));
    assert(crate::number::digits_value(seq!['1']) == 1);
    assert(seq!['0'].last() == '0');
    assert(crate::number::digits_value(seq!['0']) == crate::number::digits_value(seq!['0'].drop_last()) * 10 + crate::number::digit_value('0'));
    assert(crate::number::digits_value(seq!['0']) == 0);
    assert(component(seq!['1']) == Ok::<u32, Seq<char>>(1));
    assert(component(seq!['0']) == Ok::<u32, Seq<char>>(0));
}

/// Text made of lower-case letters and underscores holds no tab, no line
/// ending and no `#`.
pub open spec fn is_word(t: Seq<char>) -> bool {
    t.len() > 0 && forall|i: int| 0 <= i < t.len() ==> ('a' <= #[trigger] t[i] <= 'z' || t[i] == '_')
}

pub proof fn lemma_word_plain(t: Seq<char>)
    requires
        is_word(t),
    ensures
        plain(t),
        t[0] != '#',
{
    if t.contains('\t') {
        let i = choose|i: int| 0 <= i < t.len() && t[i] == '\t';
    }
    if t.contains('\n') {
        let i = choose|i: int| 0 <= i < t.len() && t[i] == '\n';
    }
    if t.contains('\r') {
        let i = choose|i: int| 0 <= i < t.len() && t[i] == '\r';
    }
}

/// The label row a line list is written with.
#[verifier::spinoff_prover]
pub proof fn lemma_line_labels()
    ensures
        plain_cells(line_column_words()),
        forall|i: int| 0 <= i < line_column_words().len() ==> is_word(#[trigger] line_column_words()[i]),
        line_column_words()[0][0] != '#',
        distinct(line_column_words()),
{
    let w = line_column_words();
    reveal_strlit("feature_id");
    reveal_strlit("spectrum_id");
    reveal_strlit("segment_id");
    reveal_strlit("position");
    reveal_strlit("position_medium");
    reveal_strlit("position_uncertainty");
    reveal_strlit("uncertainty_kind");
    reveal_strlit("uncertainty_class");
    reveal_strlit("intensity");
    reveal_strlit("intensity_scale");
    reveal_strlit("flags");
    reveal_strlit("ritz_position");
    assert forall|i: int| 0 <= i < w.len() implies is_word(#[trigger] w[i]) by {
        assert(w[i].len() > 0);
    }
    assert forall|i: int| 0 <= i < w.len() implies plain(#[trigger] w[i]) by {
        lemma_word_plain(w[i]);
    }
    lemma_word_plain(w[0]);
    assert(w[0][0] == 'f');
    assert(w[2][0] == 's');
    assert(w[4][0] == 'p');
    assert(w[9][0] == 'i');
}

/// The columns a line list labels, where each is looked for: the required
/// ones in the order the reader asks for them, then the optional ones.
pub open spec fn line_required_at() -> Seq<Option<int>> {
    seq![Some(0int), Some(1int), Some(3int), Some(5int), Some(6int), Some(7int), Some(10int)]
}

pub open spec fn line_optional_at() -> Seq<Option<int>> {
    seq![Some(2int), Some(4int), Some(8int), Some(9int), Some(11int)]
}

/// The cells of a row the reader takes as a line without refusing anything,
/// under the label row a line list is written with.
pub open spec fn conforming_line_cells(c: Seq<Seq<char>>) -> bool {
    &&& c.len() == 12
    &&& c[0].len() > 0
    &&& c[1].len() > 0
    &&& number_refusal(c[3]) is None
    &&& position_medium_words().contains(c[4])
    &&& (c[5] == "none"@ || number_refusal(c[5]) is None)
    &&& uncertainty_kind_words().contains(c[6])
    &&& c[6] != "class"@
    &&& c[7].len() == 0
    &&& (c[8].len() == 0 || (number_refusal(c[8]) is None && c[9].len() > 0 && intensity_scale_words().contains(c[9])))
    &&& c[10].len() == 0
    &&& (c[11].len() == 0 || number_refusal(c[11]) is None)
}

#[verifier::spinoff_prover]
proof fn lemma_line_row_clean(row: RowView, default: Seq<char>, seen: Seq<Seq<char>>)
    requires
        conforming_line_cells(row.1),
        !seen.contains(row.1[0]),
    ensures
        feature_id_v(row, Some(0int), seen) == (Some(row.1[0]), Seq::<RefusalView>::empty()),
        line_row_v(row, line_required_at(), line_optional_at(), Some(default), seen).0 is Some,
        line_row_v(row, line_required_at(), line_optional_at(), Some(default), seen).1 == Seq::<RefusalView>::empty(),
        line_row_v(row, line_required_at(), line_optional_at(), Some(default), seen).0->Some_0.position_medium == row.1[4],
{
    reveal_strlit("vacuum");
    reveal_strlit("air_standard");
    assert(row.1[4].len() > 0) by {
        let w = position_medium_words();
        let j = choose|j: int| 0 <= j < w.len() && w[j] == row.1[4];
        assert(w[0] == "vacuum"@ && w[1] == "air_standard"@);
    }
    let c = row.1;
    let req = line_required_at();
    let opt = line_optional_at();
    let e = Seq::<RefusalView>::empty();
    assert(required_cell_v(row, 0, "feature_id"@) == (Some(c[0]), e));
    assert(feature_id_v(row, req[0], seen) == (Some(c[0]), e));
    assert(required_under(row, req[1], "spectrum_id"@) == (Some(c[1]), e));
    assert(number_under(row, req[2], "position"@) == (Some(c[3]), e));
    assert(line_first_v(row, req, seen).3 =~= e);
    assert(uncertainty_under(row, req[3], "position_uncertainty"@).1 == e);
    assert(uncertainty_under(row, req[3], "position_uncertainty"@).0 is Some);
    assert(vocabulary_under(row, req[4], "uncertainty_kind"@, uncertainty_kind_words()) == (Some(c[6]), e));
    assert(class_under(row, req[5], Some(c[6])) == (Some(None::<Seq<char>>), e));
    assert(line_second_v(row, req).3 =~= e);
    assert(line_head_v(row, req, seen).refusals =~= e);
    if c[4].len() == 0 {
        assert(row_medium_v(row, opt[1], Some(default)) == (Some(default), e));
    } else {
        assert(row_medium_v(row, opt[1], Some(default)) == (Some(c[4]), e));
    }
    assert(intensity_v(row, opt[2], opt[3]).1 =~= e);
    assert(intensity_v(row, opt[2], opt[3]).0 is Some);
    assert(flags_under(row, req[6]) == (Some(Seq::<Seq<char>>::empty()), e));
    assert(ritz_v(row, opt[4]).1 =~= e);
    assert(line_tail_v(row, req, opt, Some(default)).refusals =~= e);
}

/// The first cells of the first `k` rows.
pub open spec fn first_cells(rows: Seq<Seq<Seq<char>>>, k: int) -> Seq<Seq<char>> {
    Seq::new(k as nat, |i: int| rows[i][0])
}

#[verifier::spinoff_prover]
proof fn lemma_lines_clean(rows: Seq<Seq<Seq<char>>>, first: int, default: Seq<char>, k: int)
    requires
        0 <= k <= rows.len(),
        forall|i: int| 0 <= i < rows.len() ==> conforming_line_cells(#[trigger] rows[i]),
        forall|i: int, j: int| 0 <= i < j < rows.len() ==> (#[trigger] rows[i])[0] != (#[trigger] rows[j])[0],
    ensures
        ({
            let (ls, rs, seen) = lines_upto(row_views_of(rows, first), line_required_at(), line_optional_at(), Some(default), k);
            &&& ls.len() == k
            &&& rs == Seq::<RefusalView>::empty()
            &&& seen == first_cells(rows, k)
            &&& forall|i: int| 0 <= i < k ==> (#[trigger] ls[i]).position_medium == rows[i][4]
        }),
    decreases k,
{
    if k > 0 {
        lemma_lines_clean(rows, first, default, k - 1);
        let rv = row_views_of(rows, first);
        let seen = first_cells(rows, k - 1);
        let row = rv[k - 1];
        assert(row.1 == rows[k - 1]);
        if seen.contains(row.1[0]) {
            let j = choose|j: int| 0 <= j < seen.len() && seen[j] == row.1[0];
            assert(rows[j][0] == rows[k - 1][0]);
        }
        lemma_line_row_clean(row, default, seen);
        assert(first_cells(rows, k) =~= seen.push(rows[k - 1][0]));
        let (ls, rs, sn) = lines_upto(rv, line_required_at(), line_optional_at(), Some(default), k - 1);
        let l = line_row_v(row, line_required_at(), line_optional_at(), Some(default), seen).0->Some_0;
        assert(lines_upto(rv, line_required_at(), line_optional_at(), Some(default), k).0 == ls.push(l));
        assert forall|i: int| 0 <= i < k implies (#[trigger] ls.push(l)[i]).position_medium == rows[i][4] by {
            if i < k - 1 {
                assert(ls.push(l)[i] == ls[i]);
            }
        }
    }
}

proof fn lemma_columns_found(doc: DocumentView, labels: Seq<Seq<char>>, at: Seq<Option<int>>, k: int)
    requires
        0 <= k <= labels.len(),
        at.len() == labels.len(),
        forall|i: int| 0 <= i < labels.len() ==> column_of(doc.1, #[trigger] labels[i]) == at[i] && at[i] is Some,
    ensures
        columns_v(doc, labels, k) == (at.take(k), Seq::<RefusalView>::empty()),
    decreases k,
{
    if k > 0 {
        lemma_columns_found(doc, labels, at, k - 1);
        assert(required_column_v(doc, labels[k - 1]) == (at[k - 1], Seq::<RefusalView>::empty()));
        assert(at.take(k) =~= at.take(k - 1).push(at[k - 1]));
    }
}

/// Where a label stands in a label row of distinct labels.
pub proof fn lemma_column_at(labels: Seq<Seq<char>>, i: int)
    requires
        0 <= i < labels.len(),
        distinct(labels),
    ensures
        column_of(labels, labels[i]) == Some(i),
{
    lemma_first_index_is(labels, labels[i], i);
}

/// The header block a line list is written with.
pub open spec fn line_heads(unit: Seq<char>, medium: Seq<char>, id: Seq<char>) -> Seq<(Seq<char>, Seq<char>)> {
    seq![("contract_version"@, "1.0"@), ("position_unit"@, unit), ("position_medium"@, medium), ("line_list_id"@, id)]
}

pub proof fn lemma_line_header_names()
    ensures
        is_word("contract_version"@),
        is_word("position_unit"@),
        is_word("position_medium"@),
        is_word("line_list_id"@),
        "contract_version"@ != "position_unit"@,
        "contract_version"@ != "position_medium"@,
        "contract_version"@ != "line_list_id"@,
        "position_unit"@ != "position_medium"@,
        "position_unit"@ != "line_list_id"@,
        "position_medium"@ != "line_list_id"@,
{
    reveal_strlit("contract_version");
    reveal_strlit("position_unit");
    reveal_strlit("position_medium");
    reveal_strlit("line_list_id");
    assert("position_unit"@[9] != "position_medium"@[9]);
}

proof fn lemma_line_headers_found(unit: Seq<char>, medium: Seq<char>, id: Seq<char>)
    ensures
        ({
            let hs = header_views_of(line_heads(unit, medium, id));
            &&& header_of(hs, "contract_version"@) == Some(hs[0])
            &&& header_of(hs, "position_unit"@) == Some(hs[1])
            &&& header_of(hs, "position_medium"@) == Some(hs[2])
            &&& header_of(hs, "line_list_id"@) == Some(hs[3])
            &&& hs[0] == ("contract_version"@, "1.0"@, 1usize)
            &&& hs[1] == ("position_unit"@, unit, 2usize)
            &&& hs[2] == ("position_medium"@, medium, 3usize)
            &&& hs[3] == ("line_list_id"@, id, 4usize)
        }),
{
    let hs = header_views_of(line_heads(unit, medium, id));
    lemma_line_header_names();
    let names = header_names(hs);
    assert(names =~= seq!["contract_version"@, "position_unit"@, "position_medium"@, "line_list_id"@]);
    lemma_first_index_is(names, "contract_version"@, 0);
    lemma_first_index_is(names, "position_unit"@, 1);
    lemma_first_index_is(names, "position_medium"@, 2);
    lemma_first_index_is(names, "line_list_id"@, 3);
}

#[verifier::spinoff_prover]
proof fn lemma_line_columns(doc: DocumentView)
    requires
        doc.1 == line_column_words(),
    ensures
        columns_v(doc, line_required_words(), 7) == (line_required_at(), Seq::<RefusalView>::empty()),
        optional_columns_v(doc) == line_optional_at(),
{
    let labels = line_column_words();
    lemma_line_labels();
    let req = line_required_words();
    let at = line_required_at();
    assert forall|i: int| 0 <= i < req.len() implies column_of(doc.1, #[trigger] req[i]) == at[i] && at[i] is Some by {
        let c = at[i]->Some_0;
        assert(req[i] == labels[c]);
        lemma_column_at(labels, c);
    }
    lemma_columns_found(doc, req, at, 7);
    assert(at.take(7) =~= at);
    lemma_column_at(labels, 2);
    lemma_column_at(labels, 4);
    lemma_column_at(labels, 8);
    lemma_column_at(labels, 9);
    lemma_column_at(labels, 11);
    assert(optional_columns_v(doc) =~= line_optional_at());
}

proof fn lemma_line_headers_read(doc: DocumentView, unit: Seq<char>, medium: Seq<char>, id: Seq<char>)
    requires
        doc.0 == header_views_of(line_heads(unit, medium, id)),
        unit.len() > 0,
        id.len() > 0,
        position_medium_words().contains(medium),
    ensures
        contract_version_v(doc) == (Some((1u32, 0u32)), Seq::<RefusalView>::empty()),
        required_header_v(doc, "position_unit"@) == (Some(unit), Seq::<RefusalView>::empty()),
        required_header_v(doc, "line_list_id"@) == (Some(id), Seq::<RefusalView>::empty()),
        crate::spectro_contract::line_list::header_medium_v(doc) == (Some(medium), Seq::<RefusalView>::empty()),
{
    lemma_line_headers_found(unit, medium, id);
    lemma_version_one();
}

/// A document with the line list's header block, its label row and rows of
/// conforming cells with distinct identifiers reads as a line list with one
/// line per row and nothing refused.
#[verifier::spinoff_prover]
pub proof fn lemma_line_list_accepts(
    unit: Seq<char>,
    medium: Seq<char>,
    id: Seq<char>,
    label_line: usize,
    rows: Seq<Seq<Seq<char>>>,
    first: int,
)
    requires
        unit.len() > 0,
        id.len() > 0,
        position_medium_words().contains(medium),
        forall|i: int| 0 <= i < rows.len() ==> conforming_line_cells(#[trigger] rows[i]),
        forall|i: int, j: int| 0 <= i < j < rows.len() ==> (#[trigger] rows[i])[0] != (#[trigger] rows[j])[0],
    ensures
        line_list_v((header_views_of(line_heads(unit, medium, id)), line_column_words(), label_line, row_views_of(rows, first)))
            matches Ok(list) && list.lines.len() == rows.len() && list.unknown_header_fields.len() == 0
            && list.unknown_columns.len() == 0
            && forall|i: int| 0 <= i < rows.len() ==> (#[trigger] list.lines[i]).position_medium == rows[i][4],
{
    let doc: DocumentView = (header_views_of(line_heads(unit, medium, id)), line_column_words(), label_line, row_views_of(rows, first));
    lemma_line_names_known(unit, medium, id);
    lemma_line_headers_read(doc, unit, medium, id);
    lemma_line_columns(doc);
    lemma_lines_clean(rows, first, medium, rows.len() as int);
    assert(row_views_of(rows, first).len() == rows.len());
}

/// The cells of a row the reader takes as a level without refusing anything,
/// under the label row a level set is written with.
pub open spec fn conforming_level_cells(c: Seq<Seq<char>>) -> bool {
    &&& c.len() == 11
    &&& c[0].len() > 0
    &&& c[1].len() > 0
    &&& number_refusal(c[2]) is None
    &&& (c[3] == "none"@ || number_refusal(c[3]) is None)
    &&& uncertainty_kind_words().contains(c[4])
    &&& c[4] != "class"@
    &&& c[5].len() == 0
    &&& parity_words().contains(c[6])
    &&& (c[7] == "unknown"@ || half_integer_of(c[7]) is Ok)
    &&& origin_words().contains(c[8])
}

/// Every column of a level set, where the reader finds it.
pub open spec fn level_columns_at() -> Seq<Option<int>> {
    seq![Some(0int), Some(1int), Some(2int), Some(3int), Some(4int), Some(5int), Some(6int), Some(7int), Some(8int), Some(9int), Some(10int)]
}

#[verifier::spinoff_prover]
proof fn lemma_level_row_clean(row: RowView, seen: Seq<Seq<char>>)
    requires
        conforming_level_cells(row.1),
        !seen.contains(row.1[0]),
    ensures
        level_id_v(row, Some(0int), seen) == (Some(row.1[0]), Seq::<RefusalView>::empty()),
        level_row_v(row, level_columns_at(), seen).0 is Some,
        level_row_v(row, level_columns_at(), seen).1 == Seq::<RefusalView>::empty(),
{
    let c = row.1;
    let cols = level_columns_at();
    let e = Seq::<RefusalView>::empty();
    assert(required_cell_v(row, 0, "level_id"@) == (Some(c[0]), e));
    assert(level_id_v(row, cols[0], seen) == (Some(c[0]), e));
    assert(required_under(row, cols[1], "species"@) == (Some(c[1]), e));
    assert(number_under(row, cols[2], "energy"@) == (Some(c[2]), e));
    assert(uncertainty_under(row, cols[3], "energy_uncertainty"@).1 == e);
    assert(uncertainty_under(row, cols[3], "energy_uncertainty"@).0 is Some);
    assert(level_head_v(row, cols, seen).refusals =~= e);
    assert(vocabulary_under(row, cols[4], "uncertainty_kind"@, uncertainty_kind_words()) == (Some(c[4]), e));
    assert(class_under(row, cols[5], Some(c[4])) == (Some(None::<Seq<char>>), e));
    assert(vocabulary_under(row, cols[6], "parity"@, parity_words()) == (Some(c[6]), e));
    assert(j_under(row, cols[7]).1 == e);
    assert(j_under(row, cols[7]).0 is Some);
    assert(vocabulary_under(row, cols[8], "origin"@, origin_words()) == (Some(c[8]), e));
    assert(level_tail_v(row, cols).refusals =~= e);
}

#[verifier::spinoff_prover]
proof fn lemma_levels_step(rv: Seq<RowView>, k: int, seen: Seq<Seq<char>>)
    requires
        0 < k <= rv.len(),
        levels_upto(rv, level_columns_at(), k - 1).0.len() == k - 1,
        levels_upto(rv, level_columns_at(), k - 1).1 == Seq::<RefusalView>::empty(),
        levels_upto(rv, level_columns_at(), k - 1).2 == seen,
        conforming_level_cells(rv[k - 1].1),
        !seen.contains(rv[k - 1].1[0]),
    ensures
        levels_upto(rv, level_columns_at(), k).0.len() == k,
        levels_upto(rv, level_columns_at(), k).1 == Seq::<RefusalView>::empty(),
        levels_upto(rv, level_columns_at(), k).2 == seen.push(rv[k - 1].1[0]),
{
    lemma_level_row_clean(rv[k - 1], seen);
    assert(Seq::<RefusalView>::empty() + Seq::<RefusalView>::empty() =~= Seq::<RefusalView>::empty());
}

#[verifier::spinoff_prover]
proof fn lemma_levels_clean(rows: Seq<Seq<Seq<char>>>, first: int, k: int)
    requires
        0 <= k <= rows.len(),
        forall|i: int| 0 <= i < rows.len() ==> conforming_level_cells(#[trigger] rows[i]),
        forall|i: int, j: int| 0 <= i < j < rows.len() ==> (#[trigger] rows[i])[0] != (#[trigger] rows[j])[0],
    ensures
        levels_upto(row_views_of(rows, first), level_columns_at(), k).0.len() == k,
        levels_upto(row_views_of(rows, first), level_columns_at(), k).1 == Seq::<RefusalView>::empty(),
        levels_upto(row_views_of(rows, first), level_columns_at(), k).2 == first_cells(rows, k),
    decreases k,
{
    if k > 0 {
        lemma_levels_clean(rows, first, k - 1);
        let rv = row_views_of(rows, first);
        let seen = first_cells(rows, k - 1);
        assert(rv[k - 1].1 == rows[k - 1]);
        if seen.contains(rows[k - 1][0]) {
            let j = choose|j: int| 0 <= j < seen.len() && seen[j] == rows[k - 1][0];
            assert(rows[j][0] == rows[k - 1][0]);
        }
        lemma_levels_step(rv, k, seen);
        assert(first_cells(rows, k) =~= seen.push(rows[k - 1][0]));
    }
}

/// The label row a level set is written with.
#[verifier::spinoff_prover]
pub proof fn lemma_level_labels()
    ensures
        plain_cells(level_column_words()),
        forall|i: int| 0 <= i < level_column_words().len() ==> is_word(#[trigger] level_column_words()[i]),
        level_column_words()[0][0] != '#',
        distinct(level_column_words()),
{
    let w = level_column_words();
    reveal_strlit("level_id");
    reveal_strlit("species");
    reveal_strlit("energy");
    reveal_strlit("energy_uncertainty");
    reveal_strlit("uncertainty_kind");
    reveal_strlit("uncertainty_class");
    reveal_strlit("parity");
    reveal_strlit("j");
    reveal_strlit("origin");
    reveal_strlit("configuration");
    reveal_strlit("term");
    assert forall|i: int| 0 <= i < w.len() implies is_word(#[trigger] w[i]) by {
        assert(w[i].len() > 0);
    }
    assert forall|i: int| 0 <= i < w.len() implies plain(#[trigger] w[i]) by {
        lemma_word_plain(w[i]);
    }
    lemma_word_plain(w[0]);
    assert(w[0][0] == 'l');
    assert(w[2][0] == 'e');
    assert(w[6][0] == 'p');
    assert(w[8][0] == 'o');
}

/// The header block a level set is written with.
pub open spec fn level_heads(unit: Seq<char>, id: Seq<char>) -> Seq<(Seq<char>, Seq<char>)> {
    seq![("contract_version"@, "1.0"@), ("energy_unit"@, unit), ("energy_reference"@, "ground_level"@), ("level_set_id"@, id)]
}

pub proof fn lemma_level_header_names()
    ensures
        is_word("contract_version"@),
        is_word("energy_unit"@),
        is_word("energy_reference"@),
        is_word("level_set_id"@),
        is_word("ground_level"@),
        "contract_version"@ != "energy_unit"@,
        "contract_version"@ != "energy_reference"@,
        "contract_version"@ != "level_set_id"@,
        "energy_unit"@ != "energy_reference"@,
        "energy_unit"@ != "level_set_id"@,
        "energy_reference"@ != "level_set_id"@,
{
    reveal_strlit("contract_version");
    reveal_strlit("energy_unit");
    reveal_strlit("energy_reference");
    reveal_strlit("level_set_id");
    reveal_strlit("ground_level");
    assert("energy_unit"@[7] != "energy_reference"@[7]);
}

#[verifier::spinoff_prover]
proof fn lemma_level_headers_read(doc: DocumentView, unit: Seq<char>, id: Seq<char>)
    requires
        doc.0 == header_views_of(level_heads(unit, id)),
        unit.len() > 0,
        id.len() > 0,
    ensures
        contract_version_v(doc) == (Some((1u32, 0u32)), Seq::<RefusalView>::empty()),
        required_header_v(doc, "energy_unit"@) == (Some(unit), Seq::<RefusalView>::empty()),
        required_header_v(doc, "energy_reference"@) == (Some("ground_level"@), Seq::<RefusalView>::empty()),
        required_header_v(doc, "level_set_id"@) == (Some(id), Seq::<RefusalView>::empty()),
{
    let hs = doc.0;
    lemma_level_header_names();
    let names = header_names(hs);
    assert(names =~= seq!["contract_version"@, "energy_unit"@, "energy_reference"@, "level_set_id"@]);
    lemma_first_index_is(names, "contract_version"@, 0);
    lemma_first_index_is(names, "energy_unit"@, 1);
    lemma_first_index_is(names, "energy_reference"@, 2);
    lemma_first_index_is(names, "level_set_id"@, 3);
    reveal_strlit("ground_level");
    lemma_version_one();
}

#[verifier::spinoff_prover]
proof fn lemma_level_columns(doc: DocumentView)
    requires
        doc.1 == level_column_words(),
    ensures
        columns_v(doc, level_column_words(), 11) == (level_columns_at(), Seq::<RefusalView>::empty()),
{
    let labels = level_column_words();
    lemma_level_labels();
    let at = level_columns_at();
    assert forall|i: int| 0 <= i < labels.len() implies column_of(doc.1, #[trigger] labels[i]) == at[i] && at[i] is Some by {
        lemma_column_at(labels, i);
    }
    lemma_columns_found(doc, labels, at, 11);
    assert(at.take(11) =~= at);
}

/// A document with the level set's header block, its label row and rows of
/// conforming cells with distinct identifiers reads as a level set with one
/// level per row and nothing refused.
#[verifier::spinoff_prover]
pub proof fn lemma_level_set_accepts(unit: Seq<char>, id: Seq<char>, label_line: usize, rows: Seq<Seq<Seq<char>>>, first: int)
    requires
        unit.len() > 0,
        id.len() > 0,
        forall|i: int| 0 <= i < rows.len() ==> conforming_level_cells(#[trigger] rows[i]),
        forall|i: int, j: int| 0 <= i < j < rows.len() ==> (#[trigger] rows[i])[0] != (#[trigger] rows[j])[0],
    ensures
        level_set_v((header_views_of(level_heads(unit, id)), level_column_words(), label_line, row_views_of(rows, first)))
            matches Ok(set) && set.levels.len() == rows.len() && set.unknown_header_fields.len() == 0
            && set.unknown_columns.len() == 0,
{
    let doc: DocumentView = (header_views_of(level_heads(unit, id)), level_column_words(), label_line, row_views_of(rows, first));
    lemma_level_names_known(unit, id);
    lemma_level_headers_read(doc, unit, id);
    lemma_level_columns(doc);
    lemma_levels_clean(rows, first, rows.len() as int);
}

/// Names that are all known leave nothing outside what is known.
pub proof fn lemma_nothing_outside(names: Seq<Seq<char>>, known: Seq<Seq<char>>)
    requires
        forall|i: int| 0 <= i < names.len() ==> known.contains(#[trigger] names[i]),
    ensures
        crate::spectro_contract::document::outside(names, known).len() == 0,
{
    let pred = |n: Seq<char>| !known.contains(n);
    assert(names.all(|x: Seq<char>| !pred(x))) by {
        assert forall|i: int| 0 <= i < names.len() implies (|x: Seq<char>| !pred(x))(#[trigger] names[i]) by {
            assert(known.contains(names[i]));
        }
    }
    names.lemma_all_neg_filter_empty(pred);
    assert(crate::spectro_contract::document::outside(names, known) == names.filter(pred));
}

proof fn lemma_level_names_known(unit: Seq<char>, id: Seq<char>)
    ensures
        crate::spectro_contract::document::outside(header_names(header_views_of(level_heads(unit, id))), crate::spectro_contract::level_set::level_header_words()).len() == 0,
        crate::spectro_contract::document::outside(level_column_words(), level_column_words()).len() == 0,
{
    let hn = header_names(header_views_of(level_heads(unit, id)));
    let known = crate::spectro_contract::level_set::level_header_words();
    assert forall|i: int| 0 <= i < hn.len() implies known.contains(#[trigger] hn[i]) by {
        assert(known[i] == level_heads(unit, id)[i].0);
    }
    lemma_nothing_outside(hn, known);
    assert forall|i: int| 0 <= i < level_column_words().len() implies level_column_words().contains(#[trigger] level_column_words()[i]) by {}
    lemma_nothing_outside(level_column_words(), level_column_words());
}

proof fn lemma_line_names_known(unit: Seq<char>, medium: Seq<char>, id: Seq<char>)
    ensures
        crate::spectro_contract::document::outside(header_names(header_views_of(line_heads(unit, medium, id))), crate::spectro_contract::line_list::line_header_words()).len() == 0,
        crate::spectro_contract::document::outside(line_column_words(), line_column_words()).len() == 0,
{
    let hn = header_names(header_views_of(line_heads(unit, medium, id)));
    let known = crate::spectro_contract::line_list::line_header_words();
    assert forall|i: int| 0 <= i < hn.len() implies known.contains(#[trigger] hn[i]) by {
        assert(known[i] == line_heads(unit, medium, id)[i].0);
    }
    lemma_nothing_outside(hn, known);
    assert forall|i: int| 0 <= i < line_column_words().len() implies line_column_words().contains(#[trigger] line_column_words()[i]) by {}
    lemma_nothing_outside(line_column_words(), line_column_words());
}

} // verus!
