//! What the levels adapter emits is a level set the validator accepts.
use vstd::prelude::*;
use crate::number::is_finite_number;
use crate::spectro_adapters::export::{
    begins_with, find_from, naming_check_v, trim_end_v, trim_start_v, unquote_v,
    without_cr,
};
use crate::spectro_adapters::lines_accepted::{
    lemma_emitted_words, lemma_finite_is_plain, lemma_find_from_in,
    lemma_lex_encoded, lemma_row_id_injective, lemma_row_id_plain, lemma_subrange_free,
    lemma_written_append, row_id,
};
use crate::spectro_adapters::nist_asd_levels::{
    cell_v, columns_read_v, convert_v, entry_v, level_row_text, level_set_head, level_unit_v,
    parity_of, row_v, rows_text, state_upto, step_v, ColumnsView, LevelsState,
};
use crate::spectro_contract::accepted::{conforming_level_cells, level_heads};
use crate::spectro_contract::document::lex_text;
use crate::spectro_contract::level_set::{level_column_words, read_level_set_v};
use crate::spectro_contract::value::{half_integer_of, origin_words, parity_words};
use crate::spectro_contract::written::{header_text, joined, lemma_split_joined, plain, plain_cells, written};
use crate::text::{lemma_split_once_first, split, split_once};
use vstd::utf8::{decode_utf8, encode_utf8};

verus! {

/// Text with no tab and no line feed in it.
pub open spec fn tab_lf_free(t: Seq<char>) -> bool {
    !t.contains('\t') && !t.contains('\n')
}

proof fn lemma_trim_start_free(c: Seq<char>, x: char)
    requires
        !c.contains(x),
    ensures
        !trim_start_v(c).contains(x),
    decreases c.len(),
{
    if c.len() > 0 && crate::spectro_contract::value::is_white_space(c[0]) {
        assert(c.drop_first() =~= c.subrange(1, c.len() as int));
        lemma_subrange_free(c, 1, c.len() as int, x);
        lemma_trim_start_free(c.drop_first(), x);
    }
}

proof fn lemma_trim_end_free(c: Seq<char>, x: char)
    requires
        !c.contains(x),
    ensures
        !trim_end_v(c).contains(x),
    decreases c.len(),
{
    if c.len() > 0 && crate::spectro_contract::value::is_white_space(c.last()) {
        assert(c.drop_last() =~= c.subrange(0, c.len() - 1));
        lemma_subrange_free(c, 0, c.len() - 1, x);
        lemma_trim_end_free(c.drop_last(), x);
    }
}

/// A cell as the adapter reads it holds nothing the cell did not.
pub proof fn lemma_cell_free(cells: Seq<Seq<char>>, col: Option<int>, x: char)
    requires
        forall|j: int| 0 <= j < cells.len() ==> !(#[trigger] cells[j]).contains(x),
    ensures
        !cell_v(cells, col).contains(x),
{
    if let Some(c) = col {
        if 0 <= c < cells.len() {
            let u = unquote_v(cells[c]);
            assert(!cells[c].contains(x));
            if cells[c].len() >= 2 && cells[c][0] == '"' && cells[c].last() == '"' {
                lemma_subrange_free(cells[c], 1, cells[c].len() - 1, x);
            }
            lemma_trim_start_free(u, x);
            lemma_trim_end_free(trim_start_v(u), x);
        }
    }
}

/// A header row read as columns names a unit that is not empty, holds no
/// carriage return and holds nothing no cell held; a header row refused is refused for something.
#[verifier::spinoff_prover]
pub proof fn lemma_columns_read(cells: Seq<Seq<char>>, line: usize, x: char)
    ensures
        columns_read_v(cells, line) matches Ok(c) ==> c.unit.len() > 0 && !c.unit.contains('\r')
            && ((forall|j: int| 0 <= j < cells.len() ==> !(#[trigger] cells[j]).contains(x)) ==> !c.unit.contains(x)),
        columns_read_v(cells, line) matches Err(f) ==> f.len() > 0,
{
    let (level, unit, r1) = level_unit_v(cells, line);
    if let Some(u) = unit {
        let lc = find_from(cells, begins_with("Level ("@), 0)->Some_0;
        lemma_find_from_in(cells, begins_with("Level ("@), 0);
        let label = cells[lc];
        lemma_split_once_first(label, '(');
        let (tag, rest) = split_once(label, '(')->Some_0;
        assert(u == rest.drop_last());
        if forall|j: int| 0 <= j < cells.len() ==> !(#[trigger] cells[j]).contains(x) {
            assert(!label.contains(x));
            assert(rest =~= label.subrange(tag.len() as int + 1, label.len() as int));
            lemma_subrange_free(label, tag.len() as int + 1, label.len() as int, x);
            assert(u =~= rest.subrange(0, rest.len() - 1));
            lemma_subrange_free(rest, 0, rest.len() - 1, x);
        }
    }
}

/// The cells of an emitted level row, in label order.
pub open spec fn level_row_cells(
    line: usize,
    species: Seq<char>,
    level: Seq<char>,
    unc: Seq<char>,
    parity: Seq<char>,
    j: Seq<char>,
    origin: Seq<char>,
    configuration: Seq<char>,
    term: Seq<char>,
) -> Seq<Seq<char>> {
    seq![
        row_id(line),
        species,
        level,
        unc,
        "standard_deviation"@,
        Seq::empty(),
        parity,
        j,
        origin,
        configuration,
        term,
    ]
}

#[verifier::spinoff_prover]
#[verifier::rlimit(40)]
proof fn lemma_level_row_text(
    line: usize,
    species: Seq<char>,
    level: Seq<char>,
    unc: Seq<char>,
    parity: Seq<char>,
    j: Seq<char>,
    origin: Seq<char>,
    configuration: Seq<char>,
    term: Seq<char>,
)
    ensures
        level_row_text(line, species, level, unc, parity, j, origin, configuration, term)
            == joined(level_row_cells(line, species, level, unc, parity, j, origin, configuration, term)),
{
    let c = level_row_cells(line, species, level, unc, parity, j, origin, configuration, term);
    let t = "\t"@;
    reveal_strlit("\t");
    reveal_strlit("\tstandard_deviation\t\t");
    reveal_strlit("standard_deviation");
    let e = Seq::<char>::empty();
    assert(joined(c.skip(10)) == term) by {
        assert(c.skip(10) =~= seq![term]);
    }
    assert forall|k: int| 0 <= k < 10 implies joined(#[trigger] c.skip(k)) == c[k] + t + joined(c.skip(k + 1)) by {
        assert(c.skip(k).drop_first() =~= c.skip(k + 1));
        assert(c.skip(k)[0] == c[k]);
    }
    assert(c.skip(0) =~= c);
    let j4 = "standard_deviation"@ + t + (e + t + (parity + t + (j + t + (origin + t + (configuration + t + term)))));
    assert(joined(c.skip(4)) == j4);
    assert(j4 =~= "\tstandard_deviation\t\t"@.skip(1) + parity + "\t"@ + j + "\t"@ + origin + "\t"@ + configuration + "\t"@ + term);
    assert(joined(c) =~= row_id(line) + t + species + t + level + t + unc + t + j4);
    assert(level_row_text(line, species, level, unc, parity, j, origin, configuration, term)
        =~= row_id(line) + t + species + t + level + t + unc + t + j4);
}

proof fn lemma_level_words()
    ensures
        parity_words().contains("even"@),
        parity_words().contains("odd"@),
        parity_words().contains("unknown"@),
        origin_words().contains("measured"@),
        origin_words().contains("predicted"@),
        crate::spectro_contract::accepted::is_word("even"@),
        crate::spectro_contract::accepted::is_word("odd"@),
        crate::spectro_contract::accepted::is_word("unknown"@),
        crate::spectro_contract::accepted::is_word("measured"@),
        crate::spectro_contract::accepted::is_word("predicted"@),
{
    reveal_strlit("even");
    reveal_strlit("odd");
    reveal_strlit("unknown");
    reveal_strlit("measured");
    reveal_strlit("predicted");
    assert(parity_words()[0] == "even"@);
    assert(parity_words()[1] == "odd"@);
    assert(parity_words()[2] == "unknown"@);
    assert(origin_words()[0] == "measured"@);
    assert(origin_words()[1] == "predicted"@);
}

proof fn lemma_word_tab_lf_free(t: Seq<char>)
    requires
        crate::spectro_contract::accepted::is_word(t),
    ensures
        tab_lf_free(t),
{
    crate::spectro_contract::accepted::lemma_word_plain(t);
}

proof fn lemma_digits_plain(d: Seq<char>)
    requires
        crate::number::all_digits(d),
    ensures
        plain(d),
{
    assert forall|x: char| !crate::number::is_digit(x) implies !d.contains(x) by {
        if d.contains(x) {
            let i = choose|i: int| 0 <= i < d.len() && d[i] == x;
            assert(crate::number::is_digit(d[i]));
        }
    }
    assert(!crate::number::is_digit('\t') && !crate::number::is_digit('\n') && !crate::number::is_digit('\r'));
}

proof fn lemma_three_plain(a: Seq<char>, c: char, b: Seq<char>)
    requires
        plain(a),
        plain(b),
        c != '\t' && c != '\n' && c != '\r',
    ensures
        plain(a + seq![c] + b),
{
    let t = a + seq![c] + b;
    assert forall|x: char| x == '\t' || x == '\n' || x == '\r' implies !t.contains(x) by {
        if t.contains(x) {
            let i = choose|i: int| 0 <= i < t.len() && t[i] == x;
            if i < a.len() {
                assert(a[i] == x);
            } else if i > a.len() {
                assert(b[i - a.len() - 1] == x);
            }
        }
    }
}

/// A J the reader takes as a half-integer holds no tab and no line ending.
proof fn lemma_half_integer_plain(t: Seq<char>)
    requires
        half_integer_of(t) is Ok,
    ensures
        plain(t),
{
    lemma_split_once_first(t, '/');
    match split_once(t, '/') {
        Some((n, d)) => {
            reveal_strlit("2");
            lemma_digits_plain(n);
            lemma_digits_plain(d);
            lemma_three_plain(n, '/', d);
        },
        None => {
            lemma_split_once_first(t, '.');
            match split_once(t, '.') {
                Some((w, f)) => {
                    reveal_strlit("0");
                    reveal_strlit("5");
                    lemma_digits_plain(w);
                    assert(crate::number::all_digits(f));
                    lemma_digits_plain(f);
                    lemma_three_plain(w, '.', f);
                },
                None => {
                    lemma_digits_plain(t);
                },
            }
        },
    }
}

/// A row the adapter emits is one line of cells the level set reader takes,
/// none holding a tab or a line feed, under the identifier of the export line
/// it came from.
#[verifier::spinoff_prover]
#[verifier::rlimit(40)]
pub proof fn lemma_level_row_emitted(c: ColumnsView, cells: Seq<Seq<char>>, line: usize, species: Seq<char>)
    requires
        species.len() > 0,
        plain(species),
        forall|j: int| 0 <= j < cells.len() ==> tab_lf_free(#[trigger] cells[j]),
    ensures
        row_v(c, cells, line, species).0 matches Ok(Some(t)) ==> ({
            let rc = split(t, '\t');
            &&& joined(rc) == t
            &&& conforming_level_cells(rc)
            &&& forall|i: int| 0 <= i < rc.len() ==> plain(#[trigger] rc[i])
            &&& rc[0] == row_id(line)
            &&& rc[10] == cell_v(cells, Some(c.term))
            &&& rc[6] == parity_of(rc[10])
        }),
{
    if let Ok(Some(t)) = row_v(c, cells, line, species).0 {
        let term = cell_v(cells, Some(c.term));
        let level = cell_v(cells, Some(c.level));
        let (origin, r2) = crate::spectro_adapters::nist_asd_levels::origin_v(cell_v(cells, Some(c.prefix)), line);
        let (unc, r3) = crate::spectro_adapters::nist_asd_levels::uncertainty_text_v(cell_v(cells, c.uncertainty), line);
        let (j, n2) = crate::spectro_adapters::nist_asd_levels::j_text_v(cell_v(cells, Some(c.j)), line);
        let configuration = cell_v(cells, Some(c.configuration));
        assert(entry_v(c, cells, line, species).0 == Ok::<Seq<char>, Seq<crate::spectro_contract::refusal::RefusalView>>(t));
        assert(is_finite_number(level));
        assert(unc == "none"@ || is_finite_number(unc));
        assert(origin == "measured"@ || origin == "predicted"@);
        assert(j == "unknown"@ || half_integer_of(j) is Ok);
        let parity = parity_of(term);
        assert(parity == "unknown"@ || parity == "odd"@ || parity == "even"@);
        let rc = level_row_cells(line, species, level, unc, parity, j, origin, configuration, term);
        assert(t == level_row_text(line, species, level, unc, parity, j, origin, configuration, term));
        lemma_level_row_text(line, species, level, unc, parity, j, origin, configuration, term);
        lemma_emitted_words();
        lemma_level_words();
        lemma_row_id_plain(line);
        lemma_finite_is_plain(level);
        if unc != "none"@ {
            lemma_finite_is_plain(unc);
        } else {
            lemma_word_tab_lf_free(unc);
        }
        lemma_word_tab_lf_free("standard_deviation"@);
        lemma_word_tab_lf_free(parity);
        lemma_word_tab_lf_free(origin);
        crate::spectro_contract::accepted::lemma_word_plain("standard_deviation"@);
        crate::spectro_contract::accepted::lemma_word_plain(parity);
        crate::spectro_contract::accepted::lemma_word_plain(origin);
        if unc == "none"@ {
            crate::spectro_contract::accepted::lemma_word_plain(unc);
        }
        assert(!configuration.contains('\r') && !term.contains('\r'));
        assert forall|m: int| 0 <= m < cells.len() implies !(#[trigger] cells[m]).contains('\t') by {
            assert(tab_lf_free(cells[m]));
        }
        assert forall|m: int| 0 <= m < cells.len() implies !(#[trigger] cells[m]).contains('\n') by {
            assert(tab_lf_free(cells[m]));
        }
        lemma_cell_free(cells, Some(c.configuration), '\t');
        lemma_cell_free(cells, Some(c.configuration), '\n');
        lemma_cell_free(cells, Some(c.term), '\t');
        lemma_cell_free(cells, Some(c.term), '\n');
        if j != "unknown"@ {
            lemma_half_integer_plain(j);
        } else {
            crate::spectro_contract::accepted::lemma_word_plain(j);
        }
        assert(plain(Seq::<char>::empty()));
        assert forall|i: int| 0 <= i < rc.len() implies plain(#[trigger] rc[i]) by {
        }
        assert forall|i: int| 0 <= i < rc.len() implies !(#[trigger] rc[i]).contains('\t') by {
            assert(plain(rc[i]));
        }
        lemma_split_joined(rc);
    }
}

/// One emitted level row: cells the reader takes, none with a tab or a line
/// ending, written out with tabs, under the identifier of an export line no
/// later than line `k`.
pub open spec fn emitted_level_row(t: Seq<char>, k: int) -> bool {
    let rc = split(t, '\t');
    &&& joined(rc) == t
    &&& conforming_level_cells(rc)
    &&& forall|i: int| 0 <= i < rc.len() ==> plain(#[trigger] rc[i])
    &&& exists|n: usize| 1 <= n <= k && rc[0] == #[trigger] row_id(n)
}

/// What holds of the levels adapter's state after `k` lines of the export.
pub open spec fn levels_state_good(s: LevelsState, k: int) -> bool {
    &&& (s.columns matches Some(c) ==> c.unit.len() > 0 && !c.unit.contains('\n') && !c.unit.contains('\r'))
    &&& (s.header_seen && s.columns is None ==> s.refusals.len() > 0)
    &&& forall|i: int| 0 <= i < s.rows.len() ==> emitted_level_row(#[trigger] s.rows[i], k)
    &&& forall|i: int, j: int| 0 <= i < j < s.rows.len() ==> split(#[trigger] s.rows[i], '\t')[0] != split(#[trigger] s.rows[j], '\t')[0]
}

#[verifier::spinoff_prover]
#[verifier::rlimit(40)]
proof fn lemma_level_step_good(s: LevelsState, pieces: Seq<Seq<char>>, i: int, species: Seq<char>)
    requires
        levels_state_good(s, i),
        0 <= i < pieces.len(),
        !pieces[i].contains('\n'),
        i + 1 <= usize::MAX,
        species.len() > 0,
        plain(species),
    ensures
        levels_state_good(step_v(s, pieces, i, species), i + 1),
        step_v(s, pieces, i, species).refusals.len() >= s.refusals.len(),
{
    let line = (i + 1) as usize;
    let content = without_cr(pieces[i]);
    let next = step_v(s, pieces, i, species);
    assert forall|m: int| 0 <= m < s.rows.len() implies emitted_level_row(#[trigger] s.rows[m], i + 1) by {
        assert(emitted_level_row(s.rows[m], i));
        let rc = split(s.rows[m], '\t');
        let n = choose|n: usize| 1 <= n <= i && rc[0] == #[trigger] row_id(n);
        assert(1 <= n <= i + 1 && rc[0] == row_id(n));
    }
    if content.len() == 0 {
        assert(next.rows == s.rows);
    } else {
        assert(content =~= pieces[i].subrange(0, content.len() as int));
        lemma_subrange_free(pieces[i], 0, content.len() as int, '\n');
        let cells = split(content, '\t');
        crate::text::lemma_split_parts(content, '\t', '\n');
        assert forall|j: int| 0 <= j < cells.len() implies tab_lf_free(#[trigger] cells[j]) by {}
        if crate::spectro_adapters::export::any_begins(cells, "Level ("@) {
            lemma_columns_read(cells, line, '\n');
            assert(next.rows == s.rows);
        } else {
            match s.columns {
                None => {
                    assert(next.rows == s.rows);
                },
                Some(c) => {
                    let (res, n) = row_v(c, cells, line, species);
                    match res {
                        Ok(Some(t)) => {
                            lemma_level_row_emitted(c, cells, line, species);
                            assert(next.rows == s.rows.push(t));
                            let rt = split(t, '\t');
                            assert(emitted_level_row(t, i + 1)) by {
                                assert(rt[0] == row_id(line));
                            }
                            assert forall|a: int, b: int| 0 <= a < b < next.rows.len() implies split(#[trigger] next.rows[a], '\t')[0]
                                != split(#[trigger] next.rows[b], '\t')[0] by {
                                if b == s.rows.len() {
                                    let ra = split(s.rows[a], '\t');
                                    assert(emitted_level_row(s.rows[a], i));
                                    let na = choose|na: usize| 1 <= na <= i && ra[0] == #[trigger] row_id(na);
                                    if ra[0] == rt[0] {
                                        lemma_row_id_injective(na, line);
                                    }
                                } else {
                                    assert(next.rows[a] == s.rows[a]);
                                    assert(next.rows[b] == s.rows[b]);
                                }
                            }
                        },
                        _ => {
                            assert(next.rows == s.rows);
                        },
                    }
                },
            }
        }
    }
}

proof fn lemma_level_state_good(pieces: Seq<Seq<char>>, k: int, species: Seq<char>, start: LevelsState)
    requires
        0 <= k <= pieces.len(),
        pieces.len() <= usize::MAX,
        forall|i: int| 0 <= i < pieces.len() ==> !(#[trigger] pieces[i]).contains('\n'),
        start.columns is None,
        !start.header_seen,
        start.rows.len() == 0,
        species.len() > 0,
        plain(species),
    ensures
        levels_state_good(state_upto(pieces, k, species, start), k),
    decreases k,
{
    if k > 0 {
        lemma_level_state_good(pieces, k - 1, species, start);
        lemma_level_step_good(state_upto(pieces, k - 1, species, start), pieces, k - 1, species);
    }
}

proof fn lemma_level_refusals_grow(pieces: Seq<Seq<char>>, k: int, species: Seq<char>, start: LevelsState)
    requires
        0 <= k <= pieces.len(),
    ensures
        state_upto(pieces, k, species, start).refusals.len() >= start.refusals.len(),
    decreases k,
{
    if k > 0 {
        lemma_level_refusals_grow(pieces, k - 1, species, start);
        let s = state_upto(pieces, k - 1, species, start);
        assert(step_v(s, pieces, k - 1, species).refusals.len() >= s.refusals.len());
    }
}

proof fn lemma_level_rows_text_written(rows: Seq<Seq<char>>)
    ensures
        rows_text(rows) == written(rows),
    decreases rows.len(),
{
    if rows.len() > 0 {
        lemma_level_rows_text_written(rows.drop_last());
    }
}

/// The label row of a level set, as the adapter writes it.
pub open spec fn level_label_text() -> Seq<char> {
    "level_id\tspecies\tenergy\tenergy_uncertainty\tuncertainty_kind\tuncertainty_class\tparity\tj\torigin\tconfiguration\tterm"@
}

#[verifier::spinoff_prover]
#[verifier::rlimit(40)]
proof fn lemma_level_labels_joined()
    ensures
        joined(level_column_words()) == level_label_text(),
{
    let c = level_column_words();
    reveal_strlit("\t");
    reveal_strlit("level_id");
    reveal_strlit("species");
    reveal_strlit("energy");
    reveal_strlit("energy_uncertainty");
    reveal_strlit("uncertainty_kind");
    reveal_strlit("uncertainty_class");
    reveal_strlit("parity");
    reveal_strlit("j");
    reveal_strlit("origin");
    reveal_strlit("configuration");
    reveal_strlit("term");
    reveal_strlit("level_id\tspecies\tenergy\tenergy_uncertainty\tuncertainty_kind\tuncertainty_class\tparity\tj\torigin\tconfiguration\tterm");
    assert(joined(c.skip(10)) == c[10]) by {
        assert(c.skip(10) =~= seq![c[10]]);
    }
    assert forall|k: int| 0 <= k < 10 implies joined(#[trigger] c.skip(k)) == c[k] + "\t"@ + joined(c.skip(k + 1)) by {
        assert(c.skip(k).drop_first() =~= c.skip(k + 1));
        assert(c.skip(k)[0] == c[k]);
    }
    assert(c.skip(0) =~= c);
    assert(joined(c) =~= level_label_text());
}

#[verifier::spinoff_prover]
#[verifier::rlimit(40)]
proof fn lemma_level_set_head(u: Seq<char>, id: Seq<char>)
    ensures
        level_set_head(u, id) == written(
            level_heads(u, id).map_values(|h: (Seq<char>, Seq<char>)| header_text(h)) + seq![level_label_text()],
        ),
{
    let q = level_heads(u, id).map_values(|h: (Seq<char>, Seq<char>)| header_text(h)) + seq![level_label_text()];
    reveal_strlit("#");
    reveal_strlit("\t");
    reveal_strlit("\n");
    reveal_strlit("1.0");
    reveal_strlit("ground_level");
    reveal_strlit("contract_version");
    reveal_strlit("energy_unit");
    reveal_strlit("energy_reference");
    reveal_strlit("level_set_id");
    reveal_strlit("#contract_version\t1.0\n#energy_unit\t");
    reveal_strlit("\n#energy_reference\tground_level\n#level_set_id\t");
    reveal_strlit("\nlevel_id\tspecies\tenergy\tenergy_uncertainty\tuncertainty_kind\tuncertainty_class\tparity\tj\torigin\tconfiguration\tterm\n");
    reveal_strlit("level_id\tspecies\tenergy\tenergy_uncertainty\tuncertainty_kind\tuncertainty_class\tparity\tj\torigin\tconfiguration\tterm");
    let a = "#contract_version\t1.0\n#energy_unit\t"@;
    let b = "\n#energy_reference\tground_level\n#level_set_id\t"@;
    let d = "\nlevel_id\tspecies\tenergy\tenergy_uncertainty\tuncertainty_kind\tuncertainty_class\tparity\tj\torigin\tconfiguration\tterm\n"@;
    let nl = "\n"@;
    let l0 = header_text(("contract_version"@, "1.0"@));
    let l2 = header_text(("energy_reference"@, "ground_level"@));
    assert(a =~= l0 + nl + "#"@ + "energy_unit"@ + "\t"@);
    assert(b =~= nl + l2 + nl + "#"@ + "level_set_id"@ + "\t"@);
    assert(d =~= nl + level_label_text() + nl);
    assert(written(q.take(1)) =~= l0 + nl) by {
        assert(q.take(1).drop_last() =~= Seq::<Seq<char>>::empty());
        assert(written(Seq::<Seq<char>>::empty()) =~= Seq::<char>::empty());
        assert(q.take(1).last() == q[0]);
        assert(q[0] == l0);
    }
    assert(written(q.take(2)) =~= written(q.take(1)) + header_text(("energy_unit"@, u)) + nl) by {
        assert(q.take(2).drop_last() =~= q.take(1));
    }
    assert(written(q.take(3)) =~= written(q.take(2)) + l2 + nl) by {
        assert(q.take(3).drop_last() =~= q.take(2));
    }
    assert(written(q.take(4)) =~= written(q.take(3)) + header_text(("level_set_id"@, id)) + nl) by {
        assert(q.take(4).drop_last() =~= q.take(3));
    }
    assert(written(q) =~= written(q.take(4)) + level_label_text() + nl) by {
        assert(q.drop_last() =~= q.take(4));
    }
    assert(level_set_head(u, id) =~= a + u + b + id + d);
    assert(written(q) =~= a + u + b + id + d);
}

/// The cells of every emitted row.
pub open spec fn level_row_cells_of(rows: Seq<Seq<char>>) -> Seq<Seq<Seq<char>>> {
    rows.map_values(|t: Seq<char>| split(t, '\t'))
}

proof fn lemma_level_emitted_text(u: Seq<char>, id: Seq<char>, rows: Seq<Seq<char>>)
    requires
        forall|i: int| 0 <= i < rows.len() ==> joined(split(#[trigger] rows[i], '\t')) == rows[i],
    ensures
        level_set_head(u, id) + rows_text(rows) == written(
            crate::spectro_contract::written::file_lines(level_heads(u, id), level_column_words(), level_row_cells_of(rows)),
        ),
{
    let heads = level_heads(u, id);
    let a = heads.map_values(|h: (Seq<char>, Seq<char>)| header_text(h)) + seq![level_label_text()];
    lemma_level_labels_joined();
    let rc = level_row_cells_of(rows);
    assert(rc.map_values(|r: Seq<Seq<char>>| joined(r)) =~= rows);
    assert(crate::spectro_contract::written::file_lines(heads, level_column_words(), rc) =~= a + rows);
    lemma_written_append(a, rows);
    lemma_level_set_head(u, id);
    lemma_level_rows_text_written(rows);
}

/// What the levels adapter has read once the whole export is read.
pub open spec fn final_levels_state(bytes: Seq<u8>, species: Seq<char>, id: Seq<char>) -> LevelsState {
    let pieces = split(decode_utf8(bytes), '\n');
    let start = LevelsState {
        columns: None,
        header_seen: false,
        rows: Seq::empty(),
        not_taken: Seq::empty(),
        refusals: naming_check_v("species"@, species) + naming_check_v("level_set_id"@, id),
    };
    state_upto(pieces, pieces.len() as int, species, start)
}

#[verifier::spinoff_prover]
proof fn lemma_levels_converted(bytes: Seq<u8>, species: Seq<char>, id: Seq<char>)
    requires
        bytes.len() < usize::MAX,
        convert_v(bytes, species, id) is Ok,
    ensures
        ({
            let st = final_levels_state(bytes, species, id);
            &&& st.columns is Some
            &&& convert_v(bytes, species, id)->Ok_0.0 == level_set_head(st.columns->Some_0.unit, id) + rows_text(st.rows)
            &&& id.len() > 0
            &&& plain(id)
            &&& levels_state_good(st, split(decode_utf8(bytes), '\n').len() as int)
        }),
{
    let decoded = decode_utf8(bytes);
    let pieces = split(decoded, '\n');
    let start = LevelsState {
        columns: None,
        header_seen: false,
        rows: Seq::empty(),
        not_taken: Seq::empty(),
        refusals: naming_check_v("species"@, species) + naming_check_v("level_set_id"@, id),
    };
    lemma_level_refusals_grow(pieces, pieces.len() as int, species, start);
    crate::text::lemma_split_parts(decoded, '\n', '\n');
    crate::text::lemma_split_len(decoded, '\n');
    crate::utf8::lemma_decode_len(bytes);
    let st = state_upto(pieces, pieces.len() as int, species, start);
    if st.refusals.len() == 0 {
        assert(naming_check_v("species"@, species).len() == 0);
        assert(naming_check_v("level_set_id"@, id).len() == 0);
        lemma_level_state_good(pieces, pieces.len() as int, species, start);
    } else {
        assert(st.columns is None);
    }
}

proof fn lemma_level_head_first(u: Seq<char>, id: Seq<char>, rows: Seq<Seq<char>>)
    ensures
        (level_set_head(u, id) + rows_text(rows)).len() > 0,
        (level_set_head(u, id) + rows_text(rows))[0] == '#',
{
    reveal_strlit("#contract_version\t1.0\n#energy_unit\t");
    assert((level_set_head(u, id) + rows_text(rows))[0] == "#contract_version\t1.0\n#energy_unit\t"@[0]);
}

/// The emitted text lexes to the level set's header block, its label row and
/// the cells of every emitted row.
#[verifier::spinoff_prover]
proof fn lemma_levels_lexed(u: Seq<char>, id: Seq<char>, rows: Seq<Seq<char>>, k: int)
    requires
        u.len() > 0,
        !u.contains('\n'),
        !u.contains('\r'),
        id.len() > 0,
        plain(id),
        forall|i: int| 0 <= i < rows.len() ==> emitted_level_row(#[trigger] rows[i], k),
        forall|i: int, j: int| 0 <= i < j < rows.len() ==> split(#[trigger] rows[i], '\t')[0] != split(#[trigger] rows[j], '\t')[0],
    ensures
        lex_text(level_set_head(u, id) + rows_text(rows)) == Ok::<crate::spectro_contract::document::DocumentView, Seq<crate::spectro_contract::refusal::RefusalView>>((
            crate::spectro_contract::written::header_views_of(level_heads(u, id)),
            level_column_words(),
            5usize,
            crate::spectro_contract::written::row_views_of(level_row_cells_of(rows), 6),
        )),
        forall|i: int| 0 <= i < level_row_cells_of(rows).len() ==> conforming_level_cells(#[trigger] level_row_cells_of(rows)[i]),
        forall|i: int, j: int| 0 <= i < j < level_row_cells_of(rows).len() ==> (#[trigger] level_row_cells_of(rows)[i])[0] != (#[trigger] level_row_cells_of(rows)[j])[0],
{
    let heads = level_heads(u, id);
    let rc = level_row_cells_of(rows);
    assert forall|i: int| 0 <= i < rows.len() implies joined(split(#[trigger] rows[i], '\t')) == rows[i] by {
        assert(emitted_level_row(rows[i], k));
    }
    lemma_level_emitted_text(u, id, rows);
    crate::spectro_contract::accepted::lemma_level_header_names();
    crate::spectro_contract::accepted::lemma_level_labels();
    reveal_strlit("1.0");
    crate::spectro_contract::accepted::lemma_word_plain("ground_level"@);
    crate::spectro_contract::accepted::lemma_word_plain("contract_version"@);
    crate::spectro_contract::accepted::lemma_word_plain("energy_unit"@);
    crate::spectro_contract::accepted::lemma_word_plain("energy_reference"@);
    crate::spectro_contract::accepted::lemma_word_plain("level_set_id"@);
    assert(!"1.0"@.contains('\n') && !"1.0"@.contains('\r')) by {
        if "1.0"@.contains('\n') {
            let j = choose|j: int| 0 <= j < 3 && "1.0"@[j] == '\n';
        }
        if "1.0"@.contains('\r') {
            let j = choose|j: int| 0 <= j < 3 && "1.0"@[j] == '\r';
        }
    }
    assert forall|i: int| 0 <= i < heads.len() implies (#[trigger] heads[i]).0.len() > 0 && plain(heads[i].0)
        && !heads[i].1.contains('\n') && !heads[i].1.contains('\r') by {
    }
    assert forall|i: int| 0 <= i < rc.len() implies conforming_level_cells(#[trigger] rc[i]) && plain_cells(rc[i])
        && rc[i][0].len() > 0 && rc[i][0][0] != '#' by {
        assert(emitted_level_row(rows[i], k));
        let n = choose|n: usize| 1 <= n <= k && split(rows[i], '\t')[0] == #[trigger] row_id(n);
        lemma_row_id_plain(n);
        assert forall|m: int| 0 <= m < rc[i].len() implies plain(#[trigger] rc[i][m]) by {
            assert(plain(split(rows[i], '\t')[m]));
        }
    }
    crate::spectro_contract::written::lemma_lex_written(heads, level_column_words(), rc);
}

/// Every export the levels adapter converts becomes a level set the
/// validator accepts, whose reading reports no unknown header field and no
/// unknown column.
#[verifier::spinoff_prover]
pub proof fn law_a_converted_level_export_is_a_conforming_level_set(bytes: Seq<u8>, species: Seq<char>, id: Seq<char>)
    requires
        bytes.len() < usize::MAX,
    ensures
        match convert_v(bytes, species, id) {
            Ok((text, _)) => read_level_set_v(encode_utf8(text)) matches Ok(set) && set.unknown_header_fields.len() == 0
                && set.unknown_columns.len() == 0,
            Err(_) => true,
        },
{
    if let Ok((text, _)) = convert_v(bytes, species, id) {
        lemma_levels_converted(bytes, species, id);
        let st = final_levels_state(bytes, species, id);
        let k = split(decode_utf8(bytes), '\n').len() as int;
        let u = st.columns->Some_0.unit;
        lemma_level_head_first(u, id, st.rows);
        lemma_levels_lexed(u, id, st.rows, k);
        crate::spectro_contract::accepted::lemma_level_set_accepts(u, id, 5usize, level_row_cells_of(st.rows), 6);
        lemma_lex_encoded(text);
    }
}

/// The parity a converted level states is the parity of the term it states:
/// the emitted `parity` cell is read from the emitted `term` cell, which is the
/// export's term as the row carries it.
pub proof fn law_an_emitted_level_states_the_parity_of_its_term(c: ColumnsView, cells: Seq<Seq<char>>, line: usize, species: Seq<char>)
    requires
        species.len() > 0,
        plain(species),
        forall|j: int| 0 <= j < cells.len() ==> tab_lf_free(#[trigger] cells[j]),
    ensures
        row_v(c, cells, line, species).0 matches Ok(Some(t)) ==> split(t, '\t')[6] == parity_of(split(t, '\t')[10])
            && split(t, '\t')[10] == cell_v(cells, Some(c.term)),
{
    lemma_level_row_emitted(c, cells, line, species);
}

} // verus!
