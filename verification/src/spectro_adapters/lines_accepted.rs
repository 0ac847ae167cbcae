//! What the lines adapter emits is a line list the validator accepts.
use vstd::prelude::*;
use vstd::utf8::{decode_utf8, encode_utf8};
use crate::number::{is_finite_number, is_literal_char, lemma_literal_chars};
use crate::spectro_adapters::export::{naming_check_v, without_cr};
use crate::spectro_adapters::nist_asd_lines::{
    block_read_v, convert_v, line_list_head, line_row_text, medium_and_unit_v, row_v, rows_text,
    state_upto, step_v, BlockView, LinesState,
};
use crate::spectro_contract::accepted::{conforming_line_cells, line_heads};
use crate::spectro_contract::document::lex_text;
use crate::spectro_contract::line_list::{line_column_words, read_line_list_v};
use crate::spectro_contract::value::{
    intensity_scale_words, lemma_decimal_digits, number_refusal, position_medium_words,
    uncertainty_kind_words,
};
use crate::spectro_contract::written::{
    header_text, joined, lemma_split_joined, plain, plain_cells, written,
};
use crate::text::{decimal, lemma_split_once_first, split, split_once};

verus! {

/// A finite number is text a cell can hold, and the reader takes it as one.
pub proof fn lemma_finite_is_plain(t: Seq<char>)
    requires
        is_finite_number(t),
    ensures
        t.len() > 0,
        plain(t),
        number_refusal(t) is None,
{
    lemma_literal_chars(t);
    assert(is_literal_char(t[0]));
    assert(is_literal_char(t[t.len() - 1]));
    if t.contains('\t') {
        let i = choose|i: int| 0 <= i < t.len() && t[i] == '\t';
        assert(is_literal_char(t[i]));
    }
    if t.contains('\n') {
        let i = choose|i: int| 0 <= i < t.len() && t[i] == '\n';
        assert(is_literal_char(t[i]));
    }
    if t.contains('\r') {
        let i = choose|i: int| 0 <= i < t.len() && t[i] == '\r';
        assert(is_literal_char(t[i]));
    }
}

pub proof fn lemma_subrange_free(s: Seq<char>, a: int, b: int, x: char)
    requires
        0 <= a <= b <= s.len(),
        !s.contains(x),
    ensures
        !s.subrange(a, b).contains(x),
{
    if s.subrange(a, b).contains(x) {
        let j = choose|j: int| 0 <= j < b - a && s.subrange(a, b)[j] == x;
        assert(s[a + j] == x);
    }
}

/// A column label read as a medium and a unit names one of the contract's
/// media, a unit that is not empty and holds no carriage return, and nothing
/// the label did not hold.
#[verifier::spinoff_prover]
pub proof fn lemma_medium_and_unit(label: Seq<char>, prefix: Seq<char>, x: char)
    ensures
        medium_and_unit_v(label, prefix) matches Ok((m, u)) ==> position_medium_words().contains(m)
            && u.len() > 0 && !u.contains('\r') && (!label.contains(x) ==> !u.contains(x)),
{
    if let Ok((m, u)) = medium_and_unit_v(label, prefix) {
        reveal_strlit("air_standard");
        reveal_strlit("vacuum");
        assert(position_medium_words()[0] == "vacuum"@);
        assert(position_medium_words()[1] == "air_standard"@);
        let rest = label.skip(prefix.len() as int);
        lemma_split_once_first(rest, '(');
        let (tag, bracketed) = split_once(rest, '(')->Some_0;
        assert(u == bracketed.drop_last());
        if !label.contains(x) {
            assert(rest =~= label.subrange(prefix.len() as int, label.len() as int));
            lemma_subrange_free(label, prefix.len() as int, label.len() as int, x);
            assert(bracketed =~= rest.subrange(tag.len() as int + 1, rest.len() as int));
            lemma_subrange_free(rest, tag.len() as int + 1, rest.len() as int, x);
            assert(u =~= bracketed.subrange(0, bracketed.len() - 1));
            lemma_subrange_free(bracketed, 0, bracketed.len() - 1, x);
        }
    }
}

/// A header row read as a block names one of the contract's media and a unit
/// that is not empty, holds no carriage return and holds nothing no cell held.
#[verifier::spinoff_prover]
pub proof fn lemma_block_read(cells: Seq<Seq<char>>, line: usize, x: char)
    ensures
        block_read_v(cells, line) matches Ok(b) ==> position_medium_words().contains(b.medium)
            && b.unit.len() > 0 && !b.unit.contains('\r')
            && ((forall|j: int| 0 <= j < cells.len() ==> !(#[trigger] cells[j]).contains(x)) ==> !b.unit.contains(x)),
{
    if let Ok(b) = block_read_v(cells, line) {
        let o = crate::spectro_adapters::export::find_from(cells, crate::spectro_adapters::export::begins_with("obs_wl_"@), 0)->Some_0;
        lemma_find_from_in(cells, crate::spectro_adapters::export::begins_with("obs_wl_"@), 0);
        lemma_medium_and_unit(cells[o], "obs_wl_"@, x);
    }
}

pub proof fn lemma_find_from_in(cells: Seq<Seq<char>>, pred: spec_fn(Seq<char>) -> bool, i: int)
    ensures
        crate::spectro_adapters::export::find_from(cells, pred, i) matches Some(k) ==> 0 <= k < cells.len(),
    decreases cells.len() - i,
{
    if 0 <= i < cells.len() && !pred(cells[i]) {
        lemma_find_from_in(cells, pred, i + 1);
    }
}

/// The cells of an emitted row, in label order.
pub open spec fn line_row_cells(
    line: usize,
    spectrum: Seq<char>,
    observed: Seq<char>,
    medium: Seq<char>,
    unc: Seq<char>,
    intensity: Seq<char>,
    scale: Seq<char>,
    ritz: Seq<char>,
) -> Seq<Seq<char>> {
    seq![
        "l"@ + decimal(line as nat),
        spectrum,
        Seq::empty(),
        observed,
        medium,
        unc,
        "standard_deviation"@,
        Seq::empty(),
        intensity,
        scale,
        Seq::empty(),
        ritz,
    ]
}

#[verifier::spinoff_prover]
#[verifier::rlimit(40)]
proof fn lemma_line_row_text(
    line: usize,
    spectrum: Seq<char>,
    observed: Seq<char>,
    medium: Seq<char>,
    unc: Seq<char>,
    intensity: Seq<char>,
    scale: Seq<char>,
    ritz: Seq<char>,
)
    ensures
        line_row_text(line, spectrum, observed, medium, unc, intensity, scale, ritz)
            == joined(line_row_cells(line, spectrum, observed, medium, unc, intensity, scale, ritz)),
{
    let c = line_row_cells(line, spectrum, observed, medium, unc, intensity, scale, ritz);
    let t = "\t"@;
    reveal_strlit("\t");
    reveal_strlit("\t\t");
    reveal_strlit("\tstandard_deviation\t\t");
    reveal_strlit("standard_deviation");
    let e = Seq::<char>::empty();
    let j11 = ritz;
    assert(joined(c.skip(11)) == j11) by {
        assert(c.skip(11) =~= seq![ritz]);
    }
    let j10 = e + t + j11;
    assert(joined(c.skip(10)) == j10) by {
        assert(c.skip(10).drop_first() =~= c.skip(11));
    }
    let j9 = scale + t + j10;
    assert(joined(c.skip(9)) == j9) by {
        assert(c.skip(9).drop_first() =~= c.skip(10));
    }
    let j8 = intensity + t + j9;
    assert(joined(c.skip(8)) == j8) by {
        assert(c.skip(8).drop_first() =~= c.skip(9));
    }
    let j7 = e + t + j8;
    assert(joined(c.skip(7)) == j7) by {
        assert(c.skip(7).drop_first() =~= c.skip(8));
    }
    let j6 = "standard_deviation"@ + t + j7;
    assert(joined(c.skip(6)) == j6) by {
        assert(c.skip(6).drop_first() =~= c.skip(7));
    }
    let j5 = unc + t + j6;
    assert(joined(c.skip(5)) == j5) by {
        assert(c.skip(5).drop_first() =~= c.skip(6));
    }
    let j4 = medium + t + j5;
    assert(joined(c.skip(4)) == j4) by {
        assert(c.skip(4).drop_first() =~= c.skip(5));
    }
    let j3 = observed + t + j4;
    assert(joined(c.skip(3)) == j3) by {
        assert(c.skip(3).drop_first() =~= c.skip(4));
    }
    let j2 = e + t + j3;
    assert(joined(c.skip(2)) == j2) by {
        assert(c.skip(2).drop_first() =~= c.skip(3));
    }
    let j1 = spectrum + t + j2;
    assert(joined(c.skip(1)) == j1) by {
        assert(c.skip(1).drop_first() =~= c.skip(2));
    }
    let j0 = ("l"@ + decimal(line as nat)) + t + j1;
    assert(joined(c) == j0) by {
        assert(c.drop_first() =~= c.skip(1));
    }
    let tail = unc + "\tstandard_deviation\t\t"@ + intensity + "\t"@ + scale + "\t\t"@ + ritz;
    assert(j5 =~= tail);
    assert(line_row_text(line, spectrum, observed, medium, unc, intensity, scale, ritz) =~= "l"@ + decimal(line as nat) + "\t"@ + spectrum + "\t\t"@ + observed + "\t"@ + medium + "\t"@ + tail);
    assert(j0 =~= "l"@ + decimal(line as nat) + "\t"@ + spectrum + "\t\t"@ + observed + "\t"@ + medium + "\t"@ + j5);
}

/// The identifier a row is emitted under: `l` and the export's line number.
pub open spec fn row_id(line: usize) -> Seq<char> {
    "l"@ + decimal(line as nat)
}

proof fn lemma_digits_free(d: Seq<char>, x: char)
    requires
        crate::number::all_digits(d),
        !crate::number::is_digit(x),
    ensures
        !d.contains(x),
{
    if d.contains(x) {
        let i = choose|i: int| 0 <= i < d.len() && d[i] == x;
        assert(crate::number::is_digit(d[i]));
    }
}

pub proof fn lemma_row_id_plain(line: usize)
    ensures
        row_id(line).len() > 0,
        row_id(line)[0] == 'l',
        plain(row_id(line)),
{
    reveal_strlit("l");
    lemma_decimal_digits(line as nat);
    let d = decimal(line as nat);
    lemma_digits_free(d, '\t');
    lemma_digits_free(d, '\n');
    lemma_digits_free(d, '\r');
    crate::spectro_contract::written::lemma_concat_free("l"@, d, '\t');
    crate::spectro_contract::written::lemma_concat_free("l"@, d, '\n');
    crate::spectro_contract::written::lemma_concat_free("l"@, d, '\r');
}

/// Two identifiers are the same only for the same line.
pub proof fn lemma_row_id_injective(a: usize, b: usize)
    requires
        row_id(a) == row_id(b),
    ensures
        a == b,
{
    reveal_strlit("l");
    assert(decimal(a as nat) =~= row_id(a).skip(1));
    assert(decimal(b as nat) =~= row_id(b).skip(1));
    lemma_decimal_digits(a as nat);
    lemma_decimal_digits(b as nat);
}

pub proof fn lemma_emitted_words()
    ensures
        crate::spectro_contract::accepted::is_word("standard_deviation"@),
        crate::spectro_contract::accepted::is_word("none"@),
        crate::spectro_contract::accepted::is_word("arbitrary"@),
        uncertainty_kind_words().contains("standard_deviation"@),
        "standard_deviation"@ != "class"@,
        intensity_scale_words().contains("arbitrary"@),
        "arbitrary"@.len() > 0,
{
    reveal_strlit("standard_deviation");
    reveal_strlit("none");
    reveal_strlit("arbitrary");
    reveal_strlit("class");
    assert(uncertainty_kind_words()[0] == "standard_deviation"@);
    assert(intensity_scale_words()[0] == "arbitrary"@);
}

/// A row the adapter emits is one line of conforming cells, under the
/// identifier of the export line it came from.
#[verifier::spinoff_prover]
pub proof fn lemma_row_emitted(b: BlockView, cells: Seq<Seq<char>>, line: usize, spectrum: Seq<char>)
    requires
        position_medium_words().contains(b.medium),
        spectrum.len() > 0,
        plain(spectrum),
    ensures
        row_v(b, cells, line, spectrum).0 matches Ok(Some(t)) ==> ({
            let rc = split(t, '\t');
            &&& joined(rc) == t
            &&& conforming_line_cells(rc)
            &&& plain_cells(rc)
            &&& rc[0] == row_id(line)
        }),
{
    if let Ok(Some(t)) = row_v(b, cells, line, spectrum).0 {
        let observed = crate::spectro_adapters::nist_asd_lines::cell_v(cells, Some(b.observed));
        let ritz = match b.ritz {
            Some(r) => Some(crate::spectro_adapters::nist_asd_lines::cell_v(cells, Some(r))),
            None => None,
        };
        let (unc, r2) = crate::spectro_adapters::nist_asd_lines::uncertainty_text_v(
            crate::spectro_adapters::nist_asd_lines::cell_v(cells, b.uncertainty), line);
        let (inten, n2) = crate::spectro_adapters::nist_asd_lines::intensity_v(cells, b.intensity, line);
        let (rz, r3) = crate::spectro_adapters::nist_asd_lines::ritz_out_v(ritz, line);
        assert(is_finite_number(observed));
        assert(unc == "none"@ || is_finite_number(unc));
        assert((inten.0.len() == 0 && inten.1.len() == 0) || (is_finite_number(inten.0) && inten.1 == "arbitrary"@));
        assert(rz.len() == 0 || is_finite_number(rz));
        let rc = line_row_cells(line, spectrum, observed, b.medium, unc, inten.0, inten.1, rz);
        assert(t == line_row_text(line, spectrum, observed, b.medium, unc, inten.0, inten.1, rz));
        lemma_line_row_text(line, spectrum, observed, b.medium, unc, inten.0, inten.1, rz);
        lemma_emitted_words();
        lemma_row_id_plain(line);
        lemma_finite_is_plain(observed);
        if unc != "none"@ {
            lemma_finite_is_plain(unc);
        }
        if inten.0.len() > 0 {
            lemma_finite_is_plain(inten.0);
        }
        if rz.len() > 0 {
            lemma_finite_is_plain(rz);
        }
        reveal_strlit("air_standard");
        reveal_strlit("vacuum");
        assert(crate::spectro_contract::accepted::is_word(b.medium)) by {
            assert(position_medium_words()[0] == "vacuum"@);
            assert(position_medium_words()[1] == "air_standard"@);
        }
        crate::spectro_contract::accepted::lemma_word_plain("standard_deviation"@);
        crate::spectro_contract::accepted::lemma_word_plain("none"@);
        crate::spectro_contract::accepted::lemma_word_plain("arbitrary"@);
        crate::spectro_contract::accepted::lemma_word_plain(b.medium);
        assert(plain(Seq::<char>::empty()));
        assert forall|i: int| 0 <= i < rc.len() implies plain(#[trigger] rc[i]) by {}
        assert forall|i: int| 0 <= i < rc.len() implies !(#[trigger] rc[i]).contains('\t') by {
            assert(plain(rc[i]));
        }
        lemma_split_joined(rc);
    }
}

/// What holds of the lines adapter's state after `k` lines of the export:
/// every block names a contract medium and a unit with no line feed in it,
/// and every emitted row is a line of conforming cells under the identifier
/// of an export line already read, no two rows under the same identifier.
pub open spec fn lines_state_good(s: LinesState, k: int) -> bool {
    &&& (s.block matches Some(b) ==> position_medium_words().contains(b.medium) && b.unit.len() > 0 && !b.unit.contains('\n') && !b.unit.contains('\r'))
    &&& (s.unit matches Some(u) ==> u.len() > 0 && !u.contains('\n') && !u.contains('\r'))
    &&& (s.first_medium matches Some(m) ==> position_medium_words().contains(m))
    &&& forall|i: int| 0 <= i < s.rows.len() ==> emitted_row(#[trigger] s.rows[i], k)
    &&& forall|i: int, j: int| 0 <= i < j < s.rows.len() ==> split(#[trigger] s.rows[i], '\t')[0] != split(#[trigger] s.rows[j], '\t')[0]
}

/// One emitted row: conforming cells, written out with tabs, under the
/// identifier of an export line no later than line `k`.
pub open spec fn emitted_row(t: Seq<char>, k: int) -> bool {
    let rc = split(t, '\t');
    &&& joined(rc) == t
    &&& conforming_line_cells(rc)
    &&& plain_cells(rc)
    &&& exists|n: usize| 1 <= n <= k && rc[0] == #[trigger] row_id(n)
}

proof fn lemma_step_refusals_grow(s: LinesState, pieces: Seq<Seq<char>>, i: int, spectrum: Seq<char>)
    requires
        0 <= i < pieces.len(),
    ensures
        step_v(s, pieces, i, spectrum).refusals.len() >= s.refusals.len(),
{
}

#[verifier::spinoff_prover]
#[verifier::rlimit(40)]
proof fn lemma_step_good(s: LinesState, pieces: Seq<Seq<char>>, i: int, spectrum: Seq<char>)
    requires
        lines_state_good(s, i),
        0 <= i < pieces.len(),
        !pieces[i].contains('\n'),
        i + 1 <= usize::MAX,
        spectrum.len() > 0,
        plain(spectrum),
    ensures
        lines_state_good(step_v(s, pieces, i, spectrum), i + 1),
{
    let line = (i + 1) as usize;
    let content = without_cr(pieces[i]);
    let next = step_v(s, pieces, i, spectrum);
    assert forall|m: int| 0 <= m < s.rows.len() implies emitted_row(#[trigger] s.rows[m], i + 1) by {
        assert(emitted_row(s.rows[m], i));
        let rc = split(s.rows[m], '\t');
        let n = choose|n: usize| 1 <= n <= i && rc[0] == #[trigger] row_id(n);
        assert(1 <= n <= i + 1 && rc[0] == row_id(n));
    }
    if content.len() == 0 {
        assert(next.rows == s.rows);
    } else {
        assert(content =~= pieces[i].subrange(0, content.len() as int));
        lemma_subrange_free(pieces[i], 0, content.len() as int, '\n');
        let cells = split(content, '\t');
        crate::text::lemma_split_parts(content, '\t', '\n');
        if crate::spectro_adapters::export::any_begins(cells, "obs_wl_"@) {
            lemma_block_read(cells, line, '\n');
            assert(next.rows == s.rows);
        } else {
            match s.block {
                None => {
                    assert(next.rows == s.rows);
                },
                Some(b) => {
                    let (res, n) = row_v(b, cells, line, spectrum);
                    match res {
                        Ok(Some(t)) => {
                            lemma_row_emitted(b, cells, line, spectrum);
                            assert(next.rows == s.rows.push(t));
                            let rt = split(t, '\t');
                            assert(emitted_row(t, i + 1)) by {
                                assert(rt[0] == row_id(line));
                            }
                            assert forall|a: int, c: int| 0 <= a < c < next.rows.len() implies split(#[trigger] next.rows[a], '\t')[0]
                                != split(#[trigger] next.rows[c], '\t')[0] by {
                                if c == s.rows.len() {
                                    let ra = split(s.rows[a], '\t');
                                    assert(emitted_row(s.rows[a], i));
                                    let na = choose|na: usize| 1 <= na <= i && ra[0] == #[trigger] row_id(na);
                                    if ra[0] == rt[0] {
                                        lemma_row_id_injective(na, line);
                                    }
                                } else {
                                    assert(next.rows[a] == s.rows[a]);
                                    assert(next.rows[c] == s.rows[c]);
                                }
                            }
                        },
                        _ => {
                            assert(next.rows == s.rows);
                        },
                    }
                },
            }
        }
    }
}

proof fn lemma_state_good(pieces: Seq<Seq<char>>, k: int, spectrum: Seq<char>, start: LinesState)
    requires
        0 <= k <= pieces.len(),
        pieces.len() <= usize::MAX,
        forall|i: int| 0 <= i < pieces.len() ==> !(#[trigger] pieces[i]).contains('\n'),
        start.block is None,
        start.unit is None,
        start.first_medium is None,
        start.rows.len() == 0,
        spectrum.len() > 0,
        plain(spectrum),
    ensures
        lines_state_good(state_upto(pieces, k, spectrum, start), k),
    decreases k,
{
    if k > 0 {
        lemma_state_good(pieces, k - 1, spectrum, start);
        lemma_step_good(state_upto(pieces, k - 1, spectrum, start), pieces, k - 1, spectrum);
    }
}

proof fn lemma_refusals_grow(pieces: Seq<Seq<char>>, k: int, spectrum: Seq<char>, start: LinesState)
    requires
        0 <= k <= pieces.len(),
    ensures
        state_upto(pieces, k, spectrum, start).refusals.len() >= start.refusals.len(),
    decreases k,
{
    if k > 0 {
        lemma_refusals_grow(pieces, k - 1, spectrum, start);
        lemma_step_refusals_grow(state_upto(pieces, k - 1, spectrum, start), pieces, k - 1, spectrum);
    }
}

proof fn lemma_rows_text_written(rows: Seq<Seq<char>>)
    ensures
        rows_text(rows) == written(rows),
    decreases rows.len(),
{
    if rows.len() > 0 {
        lemma_rows_text_written(rows.drop_last());
    }
}

/// Writing two runs of lines one after the other.
pub proof fn lemma_written_append(a: Seq<Seq<char>>, b: Seq<Seq<char>>)
    ensures
        written(a + b) == written(a) + written(b),
    decreases b.len(),
{
    if b.len() > 0 {
        lemma_written_append(a, b.drop_last());
        assert((a + b).drop_last() =~= a + b.drop_last());
        assert((a + b).last() == b.last());
        assert(written(a + b) =~= written(a) + written(b));
    } else {
        assert(a + b =~= a);
        assert(written(b) =~= Seq::<char>::empty());
        assert(written(a) + written(b) =~= written(a));
    }
}

/// The label row of a line list, as the adapter writes it.
pub open spec fn line_label_text() -> Seq<char> {
    "feature_id\tspectrum_id\tsegment_id\tposition\tposition_medium\tposition_uncertainty\tuncertainty_kind\tuncertainty_class\tintensity\tintensity_scale\tflags\tritz_position"@
}

#[verifier::spinoff_prover]
#[verifier::rlimit(40)]
proof fn lemma_line_labels_joined()
    ensures
        joined(line_column_words()) == line_label_text(),
{
    let c = line_column_words();
    reveal_strlit("\t");
    reveal_strlit("feature_id");
    reveal_strlit("spectrum_id");
    reveal_strlit("segment_id");
    reveal_strlit("position");
    reveal_strlit("position_medium");
    reveal_strlit("position_uncertainty");
    reveal_strlit("uncertainty_kind");
    reveal_strlit("uncertainty_class");
    reveal_strlit("intensity");
    reveal_strlit("intensity_scale");
    reveal_strlit("flags");
    reveal_strlit("ritz_position");
    reveal_strlit("feature_id\tspectrum_id\tsegment_id\tposition\tposition_medium\tposition_uncertainty\tuncertainty_kind\tuncertainty_class\tintensity\tintensity_scale\tflags\tritz_position");
    assert(joined(c.skip(11)) == c[11]) by {
        assert(c.skip(11) =~= seq![c[11]]);
    }
    assert forall|k: int| 0 <= k < 11 implies joined(#[trigger] c.skip(k)) == c[k] + "\t"@ + joined(c.skip(k + 1)) by {
        assert(c.skip(k).drop_first() =~= c.skip(k + 1));
        assert(c.skip(k)[0] == c[k]);
    }
    assert(c.skip(0) =~= c);
    assert(joined(c) =~= line_label_text());
}

#[verifier::spinoff_prover]
#[verifier::rlimit(40)]
proof fn lemma_line_list_head(u: Seq<char>, m: Seq<char>, id: Seq<char>)
    ensures
        line_list_head(u, m, id) == written(
            line_heads(u, m, id).map_values(|h: (Seq<char>, Seq<char>)| header_text(h)) + seq![line_label_text()],
        ),
{
    let q = line_heads(u, m, id).map_values(|h: (Seq<char>, Seq<char>)| header_text(h)) + seq![line_label_text()];
    reveal_strlit("#");
    reveal_strlit("\t");
    reveal_strlit("\n");
    reveal_strlit("1.0");
    reveal_strlit("contract_version");
    reveal_strlit("position_unit");
    reveal_strlit("position_medium");
    reveal_strlit("line_list_id");
    reveal_strlit("#contract_version\t1.0\n#position_unit\t");
    reveal_strlit("\n#position_medium\t");
    reveal_strlit("\n#line_list_id\t");
    reveal_strlit("\nfeature_id\tspectrum_id\tsegment_id\tposition\tposition_medium\tposition_uncertainty\tuncertainty_kind\tuncertainty_class\tintensity\tintensity_scale\tflags\tritz_position\n");
    reveal_strlit("feature_id\tspectrum_id\tsegment_id\tposition\tposition_medium\tposition_uncertainty\tuncertainty_kind\tuncertainty_class\tintensity\tintensity_scale\tflags\tritz_position");
    let a = "#contract_version\t1.0\n#position_unit\t"@;
    let b = "\n#position_medium\t"@;
    let c = "\n#line_list_id\t"@;
    let d = "\nfeature_id\tspectrum_id\tsegment_id\tposition\tposition_medium\tposition_uncertainty\tuncertainty_kind\tuncertainty_class\tintensity\tintensity_scale\tflags\tritz_position\n"@;
    let nl = "\n"@;
    let l0 = header_text(("contract_version"@, "1.0"@));
    assert(a =~= l0 + nl + "#"@ + "position_unit"@ + "\t"@);
    assert(b =~= nl + "#"@ + "position_medium"@ + "\t"@);
    assert(c =~= nl + "#"@ + "line_list_id"@ + "\t"@);
    assert(d =~= nl + line_label_text() + nl);
    assert(written(q.take(1)) =~= l0 + nl) by {
        assert(q.take(1).drop_last() =~= Seq::<Seq<char>>::empty());
        assert(written(Seq::<Seq<char>>::empty()) =~= Seq::<char>::empty());
        assert(q.take(1).last() == q[0]);
        assert(q[0] == l0);
    }
    assert(written(q.take(2)) =~= written(q.take(1)) + header_text(("position_unit"@, u)) + nl) by {
        assert(q.take(2).drop_last() =~= q.take(1));
    }
    assert(written(q.take(3)) =~= written(q.take(2)) + header_text(("position_medium"@, m)) + nl) by {
        assert(q.take(3).drop_last() =~= q.take(2));
    }
    assert(written(q.take(4)) =~= written(q.take(3)) + header_text(("line_list_id"@, id)) + nl) by {
        assert(q.take(4).drop_last() =~= q.take(3));
    }
    assert(written(q) =~= written(q.take(4)) + line_label_text() + nl) by {
        assert(q.drop_last() =~= q.take(4));
    }
    assert(line_list_head(u, m, id) =~= a + u + b + m + c + id + d);
    assert(written(q) =~= a + u + b + m + c + id + d);
}

/// The cells of every emitted row.
pub open spec fn row_cells_of(rows: Seq<Seq<char>>) -> Seq<Seq<Seq<char>>> {
    rows.map_values(|t: Seq<char>| split(t, '\t'))
}

/// The text the adapter emits is the file written from the line list's
/// header block, its label row and the cells of every emitted row.
proof fn lemma_emitted_text(u: Seq<char>, m: Seq<char>, id: Seq<char>, rows: Seq<Seq<char>>)
    requires
        forall|i: int| 0 <= i < rows.len() ==> joined(split(#[trigger] rows[i], '\t')) == rows[i],
    ensures
        line_list_head(u, m, id) + rows_text(rows) == written(
            crate::spectro_contract::written::file_lines(line_heads(u, m, id), line_column_words(), row_cells_of(rows)),
        ),
{
    let heads = line_heads(u, m, id);
    let a = heads.map_values(|h: (Seq<char>, Seq<char>)| header_text(h)) + seq![line_label_text()];
    lemma_line_labels_joined();
    let rc = row_cells_of(rows);
    assert(rc.map_values(|r: Seq<Seq<char>>| joined(r)) =~= rows);
    assert(crate::spectro_contract::written::file_lines(heads, line_column_words(), rc) =~= a + rows);
    lemma_written_append(a, rows);
    lemma_line_list_head(u, m, id);
    lemma_rows_text_written(rows);
}

/// What the lines adapter has read once the whole export is read.
pub open spec fn final_lines_state(bytes: Seq<u8>, spectrum: Seq<char>, id: Seq<char>) -> LinesState {
    let pieces = split(decode_utf8(bytes), '\n');
    let start = LinesState {
        block: None,
        unit: None,
        first_medium: None,
        rows: Seq::empty(),
        not_taken: Seq::empty(),
        refusals: naming_check_v("spectrum_id"@, spectrum) + naming_check_v("line_list_id"@, id),
    };
    state_upto(pieces, pieces.len() as int, spectrum, start)
}

#[verifier::spinoff_prover]
proof fn lemma_converted(bytes: Seq<u8>, spectrum: Seq<char>, id: Seq<char>)
    requires
        bytes.len() < usize::MAX,
        convert_v(bytes, spectrum, id) is Ok,
    ensures
        ({
            let st = final_lines_state(bytes, spectrum, id);
            &&& st.unit is Some
            &&& st.first_medium is Some
            &&& convert_v(bytes, spectrum, id)->Ok_0.0 == line_list_head(st.unit->Some_0, st.first_medium->Some_0, id) + rows_text(st.rows)
            &&& id.len() > 0
            &&& plain(id)
            &&& lines_state_good(st, split(decode_utf8(bytes), '\n').len() as int)
        }),
{
    let decoded = decode_utf8(bytes);
    let pieces = split(decoded, '\n');
    let start = LinesState {
        block: None,
        unit: None,
        first_medium: None,
        rows: Seq::empty(),
        not_taken: Seq::empty(),
        refusals: naming_check_v("spectrum_id"@, spectrum) + naming_check_v("line_list_id"@, id),
    };
    lemma_refusals_grow(pieces, pieces.len() as int, spectrum, start);
    assert(naming_check_v("spectrum_id"@, spectrum).len() == 0);
    assert(naming_check_v("line_list_id"@, id).len() == 0);
    crate::text::lemma_split_parts(decoded, '\n', '\n');
    crate::text::lemma_split_len(decoded, '\n');
    crate::utf8::lemma_decode_len(bytes);
    lemma_state_good(pieces, pieces.len() as int, spectrum, start);
}

proof fn lemma_head_first(u: Seq<char>, m: Seq<char>, id: Seq<char>, rows: Seq<Seq<char>>)
    ensures
        (line_list_head(u, m, id) + rows_text(rows)).len() > 0,
        (line_list_head(u, m, id) + rows_text(rows))[0] == '#',
{
    reveal_strlit("#contract_version\t1.0\n#position_unit\t");
    assert((line_list_head(u, m, id) + rows_text(rows))[0] == "#contract_version\t1.0\n#position_unit\t"@[0]);
}

/// Text that lexes and begins with `#` lexes the same from its UTF-8 bytes.
#[verifier::spinoff_prover]
pub proof fn lemma_lex_encoded(text: Seq<char>)
    requires
        text.len() > 0,
        text[0] == '#',
    ensures
        crate::spectro_contract::document::lex_bytes(encode_utf8(text)) == lex_text(text),
{
    let b = encode_utf8(text);
    crate::utf8::lemma_encode_first_ascii(text);
    vstd::utf8::encode_utf8_valid_utf8(text);
    vstd::utf8::encode_utf8_decode_utf8(text);
    assert(!crate::spectro_contract::document::has_utf8_mark(b));
    assert(!crate::spectro_contract::document::has_utf16_mark(b));
}

/// Every row of the text emitted from conforming rows states a medium under
/// the `position_medium` label.
#[verifier::spinoff_prover]
proof fn lemma_line_text_states_media(u: Seq<char>, m: Seq<char>, id: Seq<char>, rows: Seq<Seq<char>>, k: int)
    requires
        u.len() > 0,
        !u.contains('\n'),
        !u.contains('\r'),
        position_medium_words().contains(m),
        id.len() > 0,
        plain(id),
        forall|i: int| 0 <= i < rows.len() ==> emitted_row(#[trigger] rows[i], k),
        forall|i: int, j: int| 0 <= i < j < rows.len() ==> split(#[trigger] rows[i], '\t')[0] != split(#[trigger] rows[j], '\t')[0],
    ensures
        ({
            let text = line_list_head(u, m, id) + rows_text(rows);
            &&& crate::spectro_contract::document::lex_bytes(encode_utf8(text)) matches Ok(d)
                && d.1[4] == "position_medium"@
                && d.3.len() == rows.len()
                && forall|r: int| 0 <= r < d.3.len() ==> position_medium_words().contains(#[trigger] d.3[r].1[4])
                    && d.3[r].1[4] == row_cells_of(rows)[r][4]
        }),
{
    let text = line_list_head(u, m, id) + rows_text(rows);
    let rc = row_cells_of(rows);
    let rv = crate::spectro_contract::written::row_views_of(rc, 6);
    let doc: crate::spectro_contract::document::DocumentView = (
        crate::spectro_contract::written::header_views_of(line_heads(u, m, id)),
        line_column_words(),
        5usize,
        rv,
    );
    assert(lex_text(text) == Ok::<crate::spectro_contract::document::DocumentView, Seq<crate::spectro_contract::refusal::RefusalView>>(doc)
        && (forall|i: int| 0 <= i < rc.len() ==> conforming_line_cells(#[trigger] rc[i]))
        && (forall|i: int, j: int| 0 <= i < j < rc.len() ==> (#[trigger] rc[i])[0] != (#[trigger] rc[j])[0])) by {
        lemma_lines_lexed(u, m, id, rows, k);
    }
    assert(crate::spectro_contract::document::lex_bytes(encode_utf8(text)) == lex_text(text)) by {
        lemma_head_first(u, m, id, rows);
        lemma_lex_encoded(text);
    }
    lemma_rows_state_media(rc, rv);
    assert(line_column_words()[4] == "position_medium"@);
}

/// The text emitted from conforming rows reads as a line list with nothing
/// unknown.
#[verifier::spinoff_prover]
#[verifier::rlimit(40)]
proof fn lemma_line_text_reads(u: Seq<char>, m: Seq<char>, id: Seq<char>, rows: Seq<Seq<char>>, k: int)
    requires
        u.len() > 0,
        !u.contains('\n'),
        !u.contains('\r'),
        position_medium_words().contains(m),
        id.len() > 0,
        plain(id),
        forall|i: int| 0 <= i < rows.len() ==> emitted_row(#[trigger] rows[i], k),
        forall|i: int, j: int| 0 <= i < j < rows.len() ==> split(#[trigger] rows[i], '\t')[0] != split(#[trigger] rows[j], '\t')[0],
    ensures
        read_line_list_v(encode_utf8(line_list_head(u, m, id) + rows_text(rows))) matches Ok(list)
            && list.unknown_header_fields.len() == 0 && list.unknown_columns.len() == 0
            && list.lines.len() == rows.len()
            && forall|i: int| 0 <= i < rows.len() ==> (#[trigger] list.lines[i]).position_medium == row_cells_of(rows)[i][4],
{
    let text = line_list_head(u, m, id) + rows_text(rows);
    lemma_head_first(u, m, id, rows);
    lemma_lines_lexed(u, m, id, rows, k);
    crate::spectro_contract::accepted::lemma_line_list_accepts(u, m, id, 5usize, row_cells_of(rows), 6);
    lemma_lex_encoded(text);
}

proof fn lemma_rows_state_media(rc: Seq<Seq<Seq<char>>>, rv: Seq<crate::spectro_contract::document::RowView>)
    requires
        rv == crate::spectro_contract::written::row_views_of(rc, 6),
        forall|i: int| 0 <= i < rc.len() ==> conforming_line_cells(#[trigger] rc[i]),
    ensures
        forall|r: int| 0 <= r < rv.len() ==> position_medium_words().contains(#[trigger] rv[r].1[4]),
{
    assert forall|r: int| 0 <= r < rv.len() implies position_medium_words().contains(#[trigger] rv[r].1[4]) by {
        assert(rv[r].1 == rc[r]);
        assert(conforming_line_cells(rc[r]));
    }
}

/// What a conforming line list's text reads to: a line list with no unknown
/// header field and no unknown column, whose rows each state their own
/// medium: the cell under `position_medium` is a medium word in every row, and
/// it is the medium read for that row's line.
pub open spec fn lines_state_their_media(text: Seq<char>) -> bool {
    match (read_line_list_v(encode_utf8(text)), crate::spectro_contract::document::lex_bytes(encode_utf8(text))) {
        (Ok(list), Ok(d)) => {
            &&& list.unknown_header_fields.len() == 0
            &&& list.unknown_columns.len() == 0
            &&& d.1[4] == "position_medium"@
            &&& list.lines.len() == d.3.len()
            &&& forall|r: int| 0 <= r < d.3.len() ==> position_medium_words().contains(#[trigger] d.3[r].1[4])
                && list.lines[r].position_medium == d.3[r].1[4]
        },
        _ => false,
    }
}

/// Every export the lines adapter converts becomes a line list the validator
/// accepts, whose reading reports no unknown header field and no unknown
/// column, and in which every row states its own medium.
#[verifier::spinoff_prover]
#[verifier::rlimit(40)]
pub proof fn law_a_converted_line_export_is_a_conforming_line_list(bytes: Seq<u8>, spectrum: Seq<char>, id: Seq<char>)
    requires
        bytes.len() < usize::MAX,
    ensures
        match convert_v(bytes, spectrum, id) {
            Ok((text, _)) => lines_state_their_media(text),
            Err(_) => true,
        },
{
    if let Ok((text, _)) = convert_v(bytes, spectrum, id) {
        lemma_converted(bytes, spectrum, id);
        let st = final_lines_state(bytes, spectrum, id);
        let k = split(decode_utf8(bytes), '\n').len() as int;
        let u = st.unit->Some_0;
        let m = st.first_medium->Some_0;
        lemma_line_text_reads(u, m, id, st.rows, k);
        lemma_line_text_states_media(u, m, id, st.rows, k);
        let t = line_list_head(u, m, id) + rows_text(st.rows);
        let list = read_line_list_v(encode_utf8(t))->Ok_0;
        let d = crate::spectro_contract::document::lex_bytes(encode_utf8(t))->Ok_0;
        assert forall|r: int| 0 <= r < d.3.len() implies position_medium_words().contains(#[trigger] d.3[r].1[4])
            && list.lines[r].position_medium == d.3[r].1[4] by {
            assert(list.lines[r].position_medium == row_cells_of(st.rows)[r][4]);
        }
    }
}

/// The emitted text lexes to the line list's header block, its label row and
/// the cells of every emitted row.
#[verifier::spinoff_prover]
proof fn lemma_lines_lexed(u: Seq<char>, m: Seq<char>, id: Seq<char>, rows: Seq<Seq<char>>, k: int)
    requires
        u.len() > 0,
        !u.contains('\n'),
        !u.contains('\r'),
        position_medium_words().contains(m),
        id.len() > 0,
        plain(id),
        forall|i: int| 0 <= i < rows.len() ==> emitted_row(#[trigger] rows[i], k),
        forall|i: int, j: int| 0 <= i < j < rows.len() ==> split(#[trigger] rows[i], '\t')[0] != split(#[trigger] rows[j], '\t')[0],
    ensures
        lex_text(line_list_head(u, m, id) + rows_text(rows)) == Ok::<crate::spectro_contract::document::DocumentView, Seq<crate::spectro_contract::refusal::RefusalView>>((
            crate::spectro_contract::written::header_views_of(line_heads(u, m, id)),
            line_column_words(),
            5usize,
            crate::spectro_contract::written::row_views_of(row_cells_of(rows), 6),
        )),
        forall|i: int| 0 <= i < row_cells_of(rows).len() ==> conforming_line_cells(#[trigger] row_cells_of(rows)[i]),
        forall|i: int, j: int| 0 <= i < j < row_cells_of(rows).len() ==> (#[trigger] row_cells_of(rows)[i])[0] != (#[trigger] row_cells_of(rows)[j])[0],
{
    let heads = line_heads(u, m, id);
    let rc = row_cells_of(rows);
    assert forall|i: int| 0 <= i < rows.len() implies joined(split(#[trigger] rows[i], '\t')) == rows[i] by {
        assert(emitted_row(rows[i], k));
    }
    lemma_emitted_text(u, m, id, rows);
    crate::spectro_contract::accepted::lemma_line_header_names();
    crate::spectro_contract::accepted::lemma_line_labels();
    reveal_strlit("1.0");
    reveal_strlit("air_standard");
    reveal_strlit("vacuum");
    assert(crate::spectro_contract::accepted::is_word(m)) by {
        assert(position_medium_words()[0] == "vacuum"@);
        assert(position_medium_words()[1] == "air_standard"@);
    }
    crate::spectro_contract::accepted::lemma_word_plain(m);
    crate::spectro_contract::accepted::lemma_word_plain("contract_version"@);
    crate::spectro_contract::accepted::lemma_word_plain("position_unit"@);
    crate::spectro_contract::accepted::lemma_word_plain("position_medium"@);
    crate::spectro_contract::accepted::lemma_word_plain("line_list_id"@);
    assert(!"1.0"@.contains('\n') && !"1.0"@.contains('\r')) by {
        if "1.0"@.contains('\n') {
            let j = choose|j: int| 0 <= j < 3 && "1.0"@[j] == '\n';
        }
        if "1.0"@.contains('\r') {
            let j = choose|j: int| 0 <= j < 3 && "1.0"@[j] == '\r';
        }
    }
    assert forall|i: int| 0 <= i < heads.len() implies (#[trigger] heads[i]).0.len() > 0 && plain(heads[i].0)
        && !heads[i].1.contains('\n') && !heads[i].1.contains('\r') by {
    }
    assert forall|i: int| 0 <= i < rc.len() implies conforming_line_cells(#[trigger] rc[i]) && plain_cells(rc[i])
        && rc[i][0].len() > 0 && rc[i][0][0] != '#' by {
        assert(emitted_row(rows[i], k));
        let n = choose|n: usize| 1 <= n <= k && split(rows[i], '\t')[0] == #[trigger] row_id(n);
        lemma_row_id_plain(n);
    }
    crate::spectro_contract::written::lemma_lex_written(heads, line_column_words(), rc);
}

} // verus!
