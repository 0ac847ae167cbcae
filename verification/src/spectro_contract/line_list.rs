//! The line list.
//!
//! A number is kept as the text the file wrote it in, once it has been checked
//! to be a finite number.
use vstd::prelude::*;
use crate::spectro_contract::columns::{
    columns_in_range, columns_v, held_in, positions, required_columns,
};
use crate::spectro_contract::document::{
    header_names, lemma_lexed_rows_fit, lex_bytes, outside, rows_fit, strings, Document,
    DocumentView, Row, RowView,
};
use crate::spectro_contract::reading::{
    class_at, class_under, column_index, column_of, contract_version,
    contract_version_v, finish, finish_v, header_in, header_of, number_at, number_cell,
    number_cell_v, number_under, required_at, required_cell, required_cell_v, required_header,
    required_header_v, required_under, text_of, texts_of, uncertainty_at, uncertainty_under,
    vocabulary_at, vocabulary_cell, vocabulary_cell_v, vocabulary_under, column_in,
};
use crate::spectro_contract::refusal::{absent_field_v, field_on_line_v, Refusal, RefusalView, Refusals};
use crate::spectro_contract::level_set::{all_named, all_placed, lemma_columns_named, lemma_named_join};
use crate::spectro_contract::value::{
    intensity_scale_vocabulary, intensity_scale_words, line_flag_vocabulary, line_flag_words,
    parse_vocabulary, position_medium_vocabulary, position_medium_words,
    uncertainty_kind_vocabulary, uncertainty_kind_words, vocabulary_refusal, words, Version,
};
use vstd::string::*;
use crate::text::{append, chars_of, owned, quote, quoted, split, split_chars, string_of, texts};

verus! {

pub open spec fn line_header_words() -> Seq<Seq<char>> {
    seq!["contract_version"@, "position_unit"@, "position_medium"@, "line_list_id"@]
}

fn line_header_fields() -> (r: &'static [&'static str])
    ensures
        words(r@) == line_header_words(),
{
    let r: &'static [&'static str] = &["contract_version", "position_unit", "position_medium", "line_list_id"];
    assert(words(r@) =~= line_header_words());
    r
}

pub open spec fn line_column_words() -> Seq<Seq<char>> {
    seq![
        "feature_id"@,
        "spectrum_id"@,
        "segment_id"@,
        "position"@,
        "position_medium"@,
        "position_uncertainty"@,
        "uncertainty_kind"@,
        "uncertainty_class"@,
        "intensity"@,
        "intensity_scale"@,
        "flags"@,
        "ritz_position"@,
    ]
}

fn line_columns() -> (r: &'static [&'static str])
    ensures
        words(r@) == line_column_words(),
{
    let r: &'static [&'static str] = &[
        "feature_id",
        "spectrum_id",
        "segment_id",
        "position",
        "position_medium",
        "position_uncertainty",
        "uncertainty_kind",
        "uncertainty_class",
        "intensity",
        "intensity_scale",
        "flags",
        "ritz_position",
    ];
    assert(words(r@) =~= line_column_words());
    r
}

/// The columns every line list labels, in the order they are looked for.
pub open spec fn line_required_words() -> Seq<Seq<char>> {
    seq![
        "feature_id"@,
        "spectrum_id"@,
        "position"@,
        "position_uncertainty"@,
        "uncertainty_kind"@,
        "uncertainty_class"@,
        "flags"@,
    ]
}

fn line_required_columns() -> (r: &'static [&'static str])
    ensures
        words(r@) == line_required_words(),
{
    let r: &'static [&'static str] = &[
        "feature_id",
        "spectrum_id",
        "position",
        "position_uncertainty",
        "uncertainty_kind",
        "uncertainty_class",
        "flags",
    ];
    assert(words(r@) =~= line_required_words());
    r
}

/// The columns a line list may label: segment, row medium, intensity, its
/// scale and the Ritz position.
pub open spec fn optional_columns_v(doc: DocumentView) -> Seq<Option<int>> {
    seq![
        column_of(doc.1, "segment_id"@),
        column_of(doc.1, "position_medium"@),
        column_of(doc.1, "intensity"@),
        column_of(doc.1, "intensity_scale"@),
        column_of(doc.1, "ritz_position"@),
    ]
}

/// One observed feature as plain values.
pub struct LineView {
    pub line: usize,
    pub feature_id: Seq<char>,
    pub spectrum_id: Seq<char>,
    pub segment_id: Option<Seq<char>>,
    pub position: Seq<char>,
    pub position_medium: Seq<char>,
    pub position_uncertainty: Option<Seq<char>>,
    pub uncertainty_kind: Seq<char>,
    pub uncertainty_class: Option<Seq<char>>,
    pub intensity: Option<Seq<char>>,
    pub intensity_scale: Option<Seq<char>>,
    pub flags: Seq<Seq<char>>,
    pub ritz_position: Option<Seq<char>>,
}

/// One observed feature.
#[derive(Debug, PartialEq, Eq)]
pub struct Line {
    pub line: usize,
    pub feature_id: String,
    pub spectrum_id: String,
    pub segment_id: Option<String>,
    /// A finite number, as the file wrote it.
    pub position: String,
    /// The medium this row is in: the header default unless the row overrode
    /// it.
    pub position_medium: String,
    pub position_uncertainty: Option<String>,
    pub uncertainty_kind: String,
    pub uncertainty_class: Option<String>,
    pub intensity: Option<String>,
    pub intensity_scale: Option<String>,
    pub flags: Vec<String>,
    /// Read so that a producer holding one does not have to throw it away.
    pub ritz_position: Option<String>,
}

impl View for Line {
    type V = LineView;

    open spec fn view(&self) -> LineView {
        LineView {
            line: self.line,
            feature_id: self.feature_id@,
            spectrum_id: self.spectrum_id@,
            segment_id: text_of(self.segment_id),
            position: self.position@,
            position_medium: self.position_medium@,
            position_uncertainty: text_of(self.position_uncertainty),
            uncertainty_kind: self.uncertainty_kind@,
            uncertainty_class: text_of(self.uncertainty_class),
            intensity: text_of(self.intensity),
            intensity_scale: text_of(self.intensity_scale),
            flags: strings(self.flags@),
            ritz_position: text_of(self.ritz_position),
        }
    }
}

pub open spec fn line_views(v: Seq<Line>) -> Seq<LineView> {
    v.map_values(|l: Line| l@)
}

/// A line list as plain values.
pub struct LineListView {
    pub contract_version: (u32, u32),
    pub position_unit: Seq<char>,
    pub position_medium: Seq<char>,
    pub line_list_id: Seq<char>,
    pub lines: Seq<LineView>,
    pub unknown_header_fields: Seq<Seq<char>>,
    pub unknown_columns: Seq<Seq<char>>,
}

/// A line list that a reader accepted.
#[derive(Debug, PartialEq, Eq)]
pub struct LineList {
    pub contract_version: Version,
    pub position_unit: String,
    pub position_medium: String,
    pub line_list_id: String,
    pub lines: Vec<Line>,
    pub unknown_header_fields: Vec<String>,
    pub unknown_columns: Vec<String>,
}

impl View for LineList {
    type V = LineListView;

    open spec fn view(&self) -> LineListView {
        LineListView {
            contract_version: self.contract_version@,
            position_unit: self.position_unit@,
            position_medium: self.position_medium@,
            line_list_id: self.line_list_id@,
            lines: line_views(self.lines@),
            unknown_header_fields: strings(self.unknown_header_fields@),
            unknown_columns: strings(self.unknown_columns@),
        }
    }
}

pub open spec fn no_header_medium() -> Seq<char> {
    "the file carries no such header field, so the rows that state no medium of their own have none"@
}

pub open spec fn medium_is_a_value() -> Seq<char> {
    ", and a medium is a value rather than a rule: a header naming a source's own boundary convention is refused"@
}

/// The header default medium, which is a value and never a rule.
pub open spec fn header_medium_v(doc: DocumentView) -> (Option<Seq<char>>, Seq<RefusalView>) {
    match header_of(doc.0, "position_medium"@) {
        None => (None, seq![absent_field_v("position_medium"@, no_header_medium())]),
        Some(h) => if position_medium_words().contains(h.1) {
            (Some(h.1), Seq::empty())
        } else {
            (None, seq![field_on_line_v(h.2, "position_medium"@, vocabulary_refusal(h.1, position_medium_words()) + medium_is_a_value())])
        },
    }
}

fn header_medium(doc: &Document, refusals: &mut Refusals) -> (r: Option<String>)
    ensures
        ({
            let want = header_medium_v(doc@);
            &&& text_of(r) == want.0
            &&& final(refusals)@ == old(refusals)@ + want.1
        }),
{
    let header = match header_in(doc, "position_medium") {
        Some(h) => h,
        None => {
            refusals.push(Refusal::absent_field(owned("position_medium"), owned("the file carries no such header field, so the rows that state no medium of their own have none")));
            return None;
        },
    };
    match parse_vocabulary(header.value.as_str(), position_medium_vocabulary()) {
        Ok(member) => {
            assert(old(refusals)@ + Seq::<RefusalView>::empty() =~= old(refusals)@);
            Some(owned(member))
        },
        Err(reason) => {
            let mut m = reason;
            append(&mut m, ", and a medium is a value rather than a rule: a header naming a source's own boundary convention is refused");
            refusals.push(Refusal::field_on_line(header.line, owned("position_medium"), m));
            None
        },
    }
}

pub open spec fn repeated_feature(v: Seq<char>) -> Seq<char> {
    quoted(v) + " names a feature this file already carried, and a feature identifier is unique in its file"@
}

/// `feature_id`, which is unique in its file.
pub open spec fn feature_id_v(row: RowView, col: Option<int>, seen: Seq<Seq<char>>) -> (Option<Seq<char>>, Seq<RefusalView>) {
    match col {
        None => (None, Seq::empty()),
        Some(c) => {
            let (v, r) = required_cell_v(row, c, "feature_id"@);
            match v {
                None => (None, r),
                Some(v) => if seen.contains(v) {
                    (None, r + seq![field_on_line_v(row.0, "feature_id"@, repeated_feature(v))])
                } else {
                    (Some(v), r)
                },
            }
        },
    }
}

fn feature_id_cell(row: &Row, col: Option<usize>, seen: &mut Vec<String>, refusals: &mut Refusals) -> (r: Option<String>)
    requires
        col matches Some(c) ==> c < row@.1.len(),
    ensures
        ({
            let want = feature_id_v(row@, column_index(col), strings(old(seen)@));
            &&& text_of(r) == want.0
            &&& final(refusals)@ == old(refusals)@ + want.1
            &&& strings(final(seen)@) == match want.0 {
                Some(i) => strings(old(seen)@).push(i),
                None => strings(old(seen)@),
            }
        }),
{
    match col {
        None => {
            assert(old(refusals)@ + Seq::<RefusalView>::empty() =~= old(refusals)@);
            None
        },
        Some(c) => {
            let value = match required_cell(row, c, "feature_id", refusals) {
                Some(v) => v,
                None => {
                    return None;
                },
            };
            if held_in(seen, value.as_str()) {
                let chars = chars_of(value.as_str());
                let mut m = quote(chars.as_slice());
                append(&mut m, " names a feature this file already carried, and a feature identifier is unique in its file");
                refusals.push(Refusal::field_on_line(row.line, owned("feature_id"), m));
                return None;
            }
            let ghost before = strings(seen@);
            seen.push(value.clone());
            assert(strings(seen@) =~= before.push(value@));
            Some(value)
        },
    }
}

pub open spec fn no_medium_anywhere() -> Seq<char> {
    "no row states a medium and the header states none either, so no position in this file has one"@
}

pub open spec fn no_medium_here() -> Seq<char> {
    "the row states no medium and the header states no default, so this position has none"@
}

/// The medium of one row: its own where it states one, the header default
/// where it does not.
pub open spec fn row_medium_v(row: RowView, col: Option<int>, default: Option<Seq<char>>) -> (Option<Seq<char>>, Seq<RefusalView>) {
    match col {
        None => match default {
            None => (None, seq![absent_field_v("position_medium"@, no_medium_anywhere())]),
            Some(d) => (Some(d), Seq::empty()),
        },
        Some(c) => if row.1[c].len() == 0 {
            match default {
                None => (None, seq![field_on_line_v(row.0, "position_medium"@, no_medium_here())]),
                Some(d) => (Some(d), Seq::empty()),
            }
        } else {
            vocabulary_cell_v(row, c, "position_medium"@, position_medium_words())
        },
    }
}

fn row_medium(row: &Row, col: Option<usize>, default: &Option<String>, refusals: &mut Refusals) -> (r: Option<String>)
    requires
        col matches Some(c) ==> c < row@.1.len(),
    ensures
        ({
            let want = row_medium_v(row@, column_index(col), text_of(*default));
            &&& text_of(r) == want.0
            &&& final(refusals)@ == old(refusals)@ + want.1
        }),
{
    assert(old(refusals)@ + Seq::<RefusalView>::empty() =~= old(refusals)@);
    match col {
        None => match default {
            None => {
                refusals.push(Refusal::absent_field(owned("position_medium"), owned("no row states a medium and the header states none either, so no position in this file has one")));
                None
            },
            Some(d) => Some(d.clone()),
        },
        Some(c) => {
            if row.cells[c].as_str().unicode_len() == 0 {
                match default {
                    None => {
                        refusals.push(Refusal::field_on_line(row.line, owned("position_medium"), owned("the row states no medium and the header states no default, so this position has none")));
                        None
                    },
                    Some(d) => Some(d.clone()),
                }
            } else {
                vocabulary_cell(row, c, "position_medium", position_medium_vocabulary(), refusals)
            }
        },
    }
}

pub open spec fn no_scale_column() -> Seq<char> {
    "the file carries intensities and no column saying what scale they are on"@
}

pub open spec fn no_scale_here() -> Seq<char> {
    "the row carries an intensity and states no scale for it"@
}

/// An intensity and the scale it is on, which are required together.
pub open spec fn intensity_v(row: RowView, col: Option<int>, scale_col: Option<int>) -> (Option<(Option<Seq<char>>, Option<Seq<char>>)>, Seq<RefusalView>) {
    match col {
        None => (Some((None, None)), Seq::empty()),
        Some(c) => if row.1[c].len() == 0 {
            (Some((None, None)), Seq::empty())
        } else {
            let (value, r1) = number_cell_v(row, c, "intensity"@);
            match scale_col {
                None => (None, r1 + seq![absent_field_v("intensity_scale"@, no_scale_column())]),
                Some(s) => if row.1[s].len() == 0 {
                    (None, r1 + seq![field_on_line_v(row.0, "intensity_scale"@, no_scale_here())])
                } else {
                    let (scale, r2) = vocabulary_cell_v(row, s, "intensity_scale"@, intensity_scale_words());
                    (
                        if value is Some && scale is Some {
                            Some((value, scale))
                        } else {
                            None
                        },
                        r1 + r2,
                    )
                },
            }
        },
    }
}

pub open spec fn pair_of(o: Option<(Option<String>, Option<String>)>) -> Option<(Option<Seq<char>>, Option<Seq<char>>)> {
    match o {
        Some((a, b)) => Some((text_of(a), text_of(b))),
        None => None,
    }
}

fn intensity(row: &Row, col: Option<usize>, scale_col: Option<usize>, refusals: &mut Refusals) -> (r: Option<(Option<String>, Option<String>)>)
    requires
        col matches Some(c) ==> c < row@.1.len(),
        scale_col matches Some(c) ==> c < row@.1.len(),
    ensures
        ({
            let want = intensity_v(row@, column_index(col), column_index(scale_col));
            &&& pair_of(r) == want.0
            &&& final(refusals)@ == old(refusals)@ + want.1
        }),
{
    assert(old(refusals)@ + Seq::<RefusalView>::empty() =~= old(refusals)@);
    let c = match col {
        None => {
            return Some((None, None));
        },
        Some(c) => c,
    };
    if row.cells[c].as_str().unicode_len() == 0 {
        return Some((None, None));
    }
    let value = number_cell(row, c, "intensity", refusals);
    let s = match scale_col {
        None => {
            refusals.push(Refusal::absent_field(owned("intensity_scale"), owned("the file carries intensities and no column saying what scale they are on")));
            return None;
        },
        Some(s) => s,
    };
    if row.cells[s].as_str().unicode_len() == 0 {
        refusals.push(Refusal::field_on_line(row.line, owned("intensity_scale"), owned("the row carries an intensity and states no scale for it")));
        return None;
    }
    let scale = vocabulary_cell(row, s, "intensity_scale", intensity_scale_vocabulary(), refusals);
    match (value, scale) {
        (Some(v), Some(sc)) => Some((Some(v), Some(sc))),
        _ => None,
    }
}

pub open spec fn repeated_flag(f: Seq<char>) -> Seq<char> {
    quoted(f) + " appears more than once"@
}

/// The flags after one more part of the cell: the flags held, whether any
/// part was refused, and what this part is refused for.
pub open spec fn flags_step(line: usize, held: Seq<Seq<char>>, refused: bool, part: Seq<char>) -> (Seq<Seq<char>>, bool, Seq<RefusalView>) {
    if line_flag_words().contains(part) {
        if held.contains(part) {
            (held, true, seq![field_on_line_v(line, "flags"@, repeated_flag(part))])
        } else {
            (held.push(part), refused, Seq::empty())
        }
    } else {
        (held, true, seq![field_on_line_v(line, "flags"@, vocabulary_refusal(part, line_flag_words()))])
    }
}

pub open spec fn flags_upto(line: usize, parts: Seq<Seq<char>>, k: int) -> (Seq<Seq<char>>, bool, Seq<RefusalView>)
    decreases k,
{
    if k <= 0 {
        (Seq::empty(), false, Seq::empty())
    } else {
        let (held, refused, rs) = flags_upto(line, parts, k - 1);
        let (h2, f2, r2) = flags_step(line, held, refused, parts[k - 1]);
        (h2, f2, rs + r2)
    }
}

/// The flags of one row: none where the cell is empty, and each member of the
/// vocabulary at most once otherwise.
pub open spec fn flags_v(row: RowView, c: int) -> (Option<Seq<Seq<char>>>, Seq<RefusalView>) {
    let cell = row.1[c];
    if cell.len() == 0 {
        (Some(Seq::empty()), Seq::empty())
    } else {
        let parts = split(cell, ',');
        let (held, refused, rs) = flags_upto(row.0, parts, parts.len() as int);
        (
            if refused {
                None
            } else {
                Some(held)
            },
            rs,
        )
    }
}

pub open spec fn flags_under(row: RowView, col: Option<int>) -> (Option<Seq<Seq<char>>>, Seq<RefusalView>) {
    match col {
        Some(c) => flags_v(row, c),
        None => (None, Seq::empty()),
    }
}

pub open spec fn strings_of(o: Option<Vec<String>>) -> Option<Seq<Seq<char>>> {
    match o {
        Some(v) => Some(strings(v@)),
        None => None,
    }
}

fn flags(row: &Row, col: Option<usize>, refusals: &mut Refusals) -> (r: Option<Vec<String>>)
    requires
        col matches Some(c) ==> c < row@.1.len(),
    ensures
        ({
            let want = flags_under(row@, column_index(col));
            &&& strings_of(r) == want.0
            &&& final(refusals)@ == old(refusals)@ + want.1
        }),
{
    let ghost start = refusals@;
    assert(start + Seq::<RefusalView>::empty() =~= start);
    let c = match col {
        None => {
            return None;
        },
        Some(c) => c,
    };
    let cell = chars_of(row.cells[c].as_str());
    if cell.len() == 0 {
        let held: Vec<String> = Vec::new();
        assert(strings(held@) =~= Seq::<Seq<char>>::empty());
        return Some(held);
    }
    let parts = split_chars(cell.as_slice(), ',');
    let ghost ps = split(row@.1[c as int], ',');
    assert(texts(parts@) == ps);
    let vocabulary = line_flag_vocabulary();
    let mut held: Vec<String> = Vec::new();
    let mut refused = false;
    let mut k: usize = 0;
    assert(strings(held@) =~= Seq::<Seq<char>>::empty());
    while k < parts.len()
        invariant
            k <= parts@.len(),
            ps == texts(parts@),
            words(vocabulary@) == line_flag_words(),
            strings(held@) == flags_upto(row@.0, ps, k as int).0,
            refused == flags_upto(row@.0, ps, k as int).1,
            refusals@ == start + flags_upto(row@.0, ps, k as int).2,
        decreases parts@.len() - k,
    {
        let part = string_of(parts[k].as_slice());
        assert(part@ == ps[k as int]);
        let ghost before = refusals@;
        match parse_vocabulary(part.as_str(), vocabulary) {
            Ok(member) => {
                if held_in(&held, member) {
                    let mc = chars_of(member);
                    let mut m = quote(mc.as_slice());
                    append(&mut m, " appears more than once");
                    refusals.push(Refusal::field_on_line(row.line, owned("flags"), m));
                    refused = true;
                } else {
                    let ghost hb = strings(held@);
                    held.push(owned(member));
                    assert(strings(held@) =~= hb.push(part@));
                    assert(refusals@ =~= before + Seq::<RefusalView>::empty());
                }
            },
            Err(reason) => {
                refusals.push(Refusal::field_on_line(row.line, owned("flags"), reason));
                refused = true;
            },
        }
        assert(refusals@ =~= start + flags_upto(row@.0, ps, k + 1).2);
        k = k + 1;
    }
    if refused {
        None
    } else {
        Some(held)
    }
}

/// A Ritz position: none where the cell is empty, a finite number otherwise.
pub open spec fn ritz_v(row: RowView, col: Option<int>) -> (Option<Option<Seq<char>>>, Seq<RefusalView>) {
    match col {
        None => (None, Seq::empty()),
        Some(c) => if row.1[c].len() == 0 {
            (Some(None), Seq::empty())
        } else {
            let (v, r) = number_cell_v(row, c, "ritz_position"@);
            (
                match v {
                    Some(x) => Some(Some(x)),
                    None => None,
                },
                r,
            )
        },
    }
}

fn ritz(row: &Row, col: Option<usize>, refusals: &mut Refusals) -> (r: Option<Option<String>>)
    requires
        col matches Some(c) ==> c < row@.1.len(),
    ensures
        ({
            let want = ritz_v(row@, column_index(col));
            &&& texts_of(r) == want.0
            &&& final(refusals)@ == old(refusals)@ + want.1
        }),
{
    assert(old(refusals)@ + Seq::<RefusalView>::empty() =~= old(refusals)@);
    match col {
        None => None,
        Some(c) => {
            if row.cells[c].as_str().unicode_len() == 0 {
                Some(None)
            } else {
                match number_cell(row, c, "ritz_position", refusals) {
                    Some(v) => Some(Some(v)),
                    None => None,
                }
            }
        },
    }
}

/// The segment: none where the cell is empty.
pub open spec fn segment_v(row: RowView, col: Option<int>) -> Option<Option<Seq<char>>> {
    match col {
        None => None,
        Some(c) => if row.1[c].len() == 0 {
            Some(None)
        } else {
            Some(Some(row.1[c]))
        },
    }
}

/// The first fields of a line row and what they are refused for.
pub struct LineHead {
    pub feature_id: Option<Seq<char>>,
    pub spectrum_id: Option<Seq<char>>,
    pub position: Option<Seq<char>>,
    pub uncertainty: Option<Option<Seq<char>>>,
    pub kind: Option<Seq<char>>,
    pub class: Option<Option<Seq<char>>>,
    pub refusals: Seq<RefusalView>,
}

/// The identifying fields of a line row: feature, spectrum and position.
pub open spec fn line_first_v(row: RowView, req: Seq<Option<int>>, seen: Seq<Seq<char>>) -> (Option<Seq<char>>, Option<Seq<char>>, Option<Seq<char>>, Seq<RefusalView>) {
    let (id, r1) = feature_id_v(row, req[0], seen);
    let (spectrum, r2) = required_under(row, req[1], "spectrum_id"@);
    let (position, r3) = number_under(row, req[2], "position"@);
    (id, spectrum, position, r1 + r2 + r3)
}

/// The uncertainty fields of a line row: its value, kind and class.
pub open spec fn line_second_v(row: RowView, req: Seq<Option<int>>) -> (Option<Option<Seq<char>>>, Option<Seq<char>>, Option<Option<Seq<char>>>, Seq<RefusalView>) {
    let (unc, r4) = uncertainty_under(row, req[3], "position_uncertainty"@);
    let (kind, r5) = vocabulary_under(row, req[4], "uncertainty_kind"@, uncertainty_kind_words());
    let (class, r6) = class_under(row, req[5], kind);
    (unc, kind, class, r4 + r5 + r6)
}

/// `req` are the required columns in the order they are looked for.
pub open spec fn line_head_v(row: RowView, req: Seq<Option<int>>, seen: Seq<Seq<char>>) -> LineHead {
    let (id, spectrum, position, ra) = line_first_v(row, req, seen);
    let (unc, kind, class, rb) = line_second_v(row, req);
    LineHead { feature_id: id, spectrum_id: spectrum, position, uncertainty: unc, kind, class, refusals: ra + rb }
}

/// The remaining fields of a line row and what they are refused for.
pub struct LineTail {
    pub segment: Option<Option<Seq<char>>>,
    pub medium: Option<Seq<char>>,
    pub intensity: Option<(Option<Seq<char>>, Option<Seq<char>>)>,
    pub flags: Option<Seq<Seq<char>>>,
    pub ritz: Option<Option<Seq<char>>>,
    pub refusals: Seq<RefusalView>,
}

/// `opt` are the optional columns: segment, medium, intensity, scale, Ritz.
pub open spec fn line_tail_v(row: RowView, req: Seq<Option<int>>, opt: Seq<Option<int>>, default: Option<Seq<char>>) -> LineTail {
    let (medium, r7) = row_medium_v(row, opt[1], default);
    let (inten, r8) = intensity_v(row, opt[2], opt[3]);
    let (fl, r9) = flags_under(row, req[6]);
    let (rz, r10) = ritz_v(row, opt[4]);
    LineTail { segment: segment_v(row, opt[0]), medium, intensity: inten, flags: fl, ritz: rz, refusals: r7 + r8 + r9 + r10 }
}

/// One row read as a line, and what it is refused for, field by field.
pub open spec fn line_row_v(row: RowView, req: Seq<Option<int>>, opt: Seq<Option<int>>, default: Option<Seq<char>>, seen: Seq<Seq<char>>) -> (Option<LineView>, Seq<RefusalView>) {
    let head = line_head_v(row, req, seen);
    let tail = line_tail_v(row, req, opt, default);
    let line = if head.feature_id is Some && head.spectrum_id is Some && head.position is Some
        && tail.medium is Some && head.uncertainty is Some && head.kind is Some && tail.intensity is Some
        && tail.flags is Some {
        Some(LineView {
            line: row.0,
            feature_id: head.feature_id.unwrap(),
            spectrum_id: head.spectrum_id.unwrap(),
            segment_id: match tail.segment {
                Some(x) => x,
                None => None,
            },
            position: head.position.unwrap(),
            position_medium: tail.medium.unwrap(),
            position_uncertainty: head.uncertainty.unwrap(),
            uncertainty_kind: head.kind.unwrap(),
            uncertainty_class: match head.class {
                Some(x) => x,
                None => None,
            },
            intensity: tail.intensity.unwrap().0,
            intensity_scale: tail.intensity.unwrap().1,
            flags: tail.flags.unwrap(),
            ritz_position: match tail.ritz {
                Some(x) => x,
                None => None,
            },
        })
    } else {
        None
    };
    (line, head.refusals + tail.refusals)
}

/// The lines of the first `k` rows, what they are refused for, and the
/// identifiers they carried.
pub open spec fn lines_upto(rows: Seq<RowView>, req: Seq<Option<int>>, opt: Seq<Option<int>>, default: Option<Seq<char>>, k: int) -> (Seq<LineView>, Seq<RefusalView>, Seq<Seq<char>>)
    decreases k,
{
    if k <= 0 {
        (Seq::empty(), Seq::empty(), Seq::empty())
    } else {
        let (ls, rs, seen) = lines_upto(rows, req, opt, default, k - 1);
        let (id, _) = feature_id_v(rows[k - 1], req[0], seen);
        let (l, r) = line_row_v(rows[k - 1], req, opt, default, seen);
        (
            match l {
                Some(l) => ls.push(l),
                None => ls,
            },
            rs + r,
            match id {
                Some(i) => seen.push(i),
                None => seen,
            },
        )
    }
}

/// What a document reads to as a line list.
pub open spec fn line_list_v(doc: DocumentView) -> Result<LineListView, Seq<RefusalView>> {
    let (cv, r0) = contract_version_v(doc);
    let (unit, r1) = required_header_v(doc, "position_unit"@);
    let (id, r2) = required_header_v(doc, "line_list_id"@);
    let (medium, r3) = header_medium_v(doc);
    let (req, r4) = columns_v(doc, line_required_words(), 7);
    let opt = optional_columns_v(doc);
    let (lines, r5, _) = lines_upto(doc.3, req, opt, medium, doc.3.len() as int);
    let built = if cv is Some && unit is Some && medium is Some && id is Some {
        Some(LineListView {
            contract_version: cv.unwrap(),
            position_unit: unit.unwrap(),
            position_medium: medium.unwrap(),
            line_list_id: id.unwrap(),
            lines,
            unknown_header_fields: outside(header_names(doc.0), line_header_words()),
            unknown_columns: outside(doc.1, line_column_words()),
        })
    } else {
        None
    };
    finish_v(built, r0 + r1 + r2 + r3 + r4 + r5)
}

/// What the bytes of a file read to as a line list.
pub open spec fn read_line_list_v(b: Seq<u8>) -> Result<LineListView, Seq<RefusalView>> {
    match lex_bytes(b) {
        Err(e) => Err(e),
        Ok(d) => line_list_v(d),
    }
}

pub open spec fn line_list_outcome(r: Result<LineList, Refusals>) -> Result<LineListView, Seq<RefusalView>> {
    match r {
        Ok(s) => Ok(s@),
        Err(e) => Err(e@),
    }
}

/// Every column in `cols` is a column the row has a cell under.
pub open spec fn fits_row(cols: Seq<Option<usize>>, row: RowView) -> bool {
    forall|i: int| 0 <= i < cols.len() ==> (#[trigger] cols[i] matches Some(c) ==> c < row.1.len())
}

fn line_first(row: &Row, req: &Vec<Option<usize>>, seen: &mut Vec<String>, refusals: &mut Refusals) -> (r: (Option<String>, Option<String>, Option<String>))
    requires
        req@.len() == 7,
        fits_row(req@, row@),
    ensures
        ({
            let want = line_first_v(row@, positions(req@), strings(old(seen)@));
            &&& text_of(r.0) == want.0
            &&& text_of(r.1) == want.1
            &&& text_of(r.2) == want.2
            &&& final(refusals)@ == old(refusals)@ + want.3
            &&& strings(final(seen)@) == match want.0 {
                Some(i) => strings(old(seen)@).push(i),
                None => strings(old(seen)@),
            }
        }),
{
    let ghost p = positions(req@);
    let ghost s0 = refusals@;
    assert forall|i: int| 0 <= i < 7 implies #[trigger] p[i] == column_index(req@[i]) by {}
    let id = feature_id_cell(row, req[0], seen, refusals);
    let spectrum = required_at(row, req[1], "spectrum_id", refusals);
    let position = number_at(row, req[2], "position", refusals);
    assert(refusals@ =~= s0 + line_first_v(row@, p, strings(old(seen)@)).3);
    (id, spectrum, position)
}

fn line_second(row: &Row, req: &Vec<Option<usize>>, refusals: &mut Refusals) -> (r: (Option<Option<String>>, Option<String>, Option<Option<String>>))
    requires
        req@.len() == 7,
        fits_row(req@, row@),
    ensures
        ({
            let want = line_second_v(row@, positions(req@));
            &&& texts_of(r.0) == want.0
            &&& text_of(r.1) == want.1
            &&& texts_of(r.2) == want.2
            &&& final(refusals)@ == old(refusals)@ + want.3
        }),
{
    let ghost p = positions(req@);
    let ghost s0 = refusals@;
    assert forall|i: int| 0 <= i < 7 implies #[trigger] p[i] == column_index(req@[i]) by {}
    let unc = uncertainty_at(row, req[3], "position_uncertainty", refusals);
    let kind = vocabulary_at(row, req[4], "uncertainty_kind", uncertainty_kind_vocabulary(), refusals);
    let class = class_at(row, req[5], &kind, refusals);
    assert(refusals@ =~= s0 + line_second_v(row@, p).3);
    (unc, kind, class)
}

fn line_head(row: &Row, req: &Vec<Option<usize>>, seen: &mut Vec<String>, refusals: &mut Refusals) -> (r: (Option<String>, Option<String>, Option<String>, Option<Option<String>>, Option<String>, Option<Option<String>>))
    requires
        req@.len() == 7,
        fits_row(req@, row@),
    ensures
        ({
            let want = line_head_v(row@, positions(req@), strings(old(seen)@));
            &&& text_of(r.0) == want.feature_id
            &&& text_of(r.1) == want.spectrum_id
            &&& text_of(r.2) == want.position
            &&& texts_of(r.3) == want.uncertainty
            &&& text_of(r.4) == want.kind
            &&& texts_of(r.5) == want.class
            &&& final(refusals)@ == old(refusals)@ + want.refusals
            &&& strings(final(seen)@) == match want.feature_id {
                Some(i) => strings(old(seen)@).push(i),
                None => strings(old(seen)@),
            }
        }),
{
    let ghost s0 = refusals@;
    let (id, spectrum, position) = line_first(row, req, seen, refusals);
    let (unc, kind, class) = line_second(row, req, refusals);
    assert(refusals@ =~= s0 + line_head_v(row@, positions(req@), strings(old(seen)@)).refusals);
    (id, spectrum, position, unc, kind, class)
}

fn line_tail(row: &Row, req: &Vec<Option<usize>>, opt: &Vec<Option<usize>>, default: &Option<String>, refusals: &mut Refusals) -> (r: (Option<Option<String>>, Option<String>, Option<(Option<String>, Option<String>)>, Option<Vec<String>>, Option<Option<String>>))
    requires
        req@.len() == 7,
        opt@.len() == 5,
        fits_row(req@, row@),
        fits_row(opt@, row@),
    ensures
        ({
            let want = line_tail_v(row@, positions(req@), positions(opt@), text_of(*default));
            &&& texts_of(r.0) == want.segment
            &&& text_of(r.1) == want.medium
            &&& pair_of(r.2) == want.intensity
            &&& strings_of(r.3) == want.flags
            &&& texts_of(r.4) == want.ritz
            &&& final(refusals)@ == old(refusals)@ + want.refusals
        }),
{
    let ghost p = positions(req@);
    let ghost q = positions(opt@);
    let ghost s0 = refusals@;
    assert forall|i: int| 0 <= i < 7 implies #[trigger] p[i] == column_index(req@[i]) by {}
    assert forall|i: int| 0 <= i < 5 implies #[trigger] q[i] == column_index(opt@[i]) by {}
    let segment = match opt[0] {
        Some(c) => {
            if row.cells[c].as_str().unicode_len() == 0 {
                Some(None)
            } else {
                Some(Some(row.cells[c].clone()))
            }
        },
        None => None,
    };
    let medium = row_medium(row, opt[1], default, refusals);
    let inten = intensity(row, opt[2], opt[3], refusals);
    let fl = flags(row, req[6], refusals);
    let rz = ritz(row, opt[4], refusals);
    assert(refusals@ =~= s0 + line_tail_v(row@, p, q, text_of(*default)).refusals);
    (segment, medium, inten, fl, rz)
}

fn line_row(row: &Row, req: &Vec<Option<usize>>, opt: &Vec<Option<usize>>, default: &Option<String>, seen: &mut Vec<String>, refusals: &mut Refusals) -> (r: Option<Line>)
    requires
        req@.len() == 7,
        opt@.len() == 5,
        fits_row(req@, row@),
        fits_row(opt@, row@),
    ensures
        ({
            let want = line_row_v(row@, positions(req@), positions(opt@), text_of(*default), strings(old(seen)@));
            let id = feature_id_v(row@, positions(req@)[0], strings(old(seen)@)).0;
            &&& match r {
                Some(l) => want.0 == Some(l@),
                None => want.0 is None,
            }
            &&& final(refusals)@ == old(refusals)@ + want.1
            &&& strings(final(seen)@) == match id {
                Some(i) => strings(old(seen)@).push(i),
                None => strings(old(seen)@),
            }
        }),
{
    let ghost s0 = refusals@;
    let (id, spectrum, position, unc, kind, class) = line_head(row, req, seen, refusals);
    let (segment, medium, inten, fl, rz) = line_tail(row, req, opt, default, refusals);
    let ghost head = line_head_v(row@, positions(req@), strings(old(seen)@));
    let ghost tail = line_tail_v(row@, positions(req@), positions(opt@), text_of(*default));
    assert(refusals@ =~= s0 + (head.refusals + tail.refusals));
    match (id, spectrum, position, medium, unc, kind, inten, fl) {
        (Some(feature_id), Some(spectrum_id), Some(position), Some(position_medium), Some(position_uncertainty), Some(uncertainty_kind), Some((intensity, intensity_scale)), Some(flags)) => {
            Some(Line {
                line: row.line,
                feature_id,
                spectrum_id,
                segment_id: match segment {
                    Some(x) => x,
                    None => None,
                },
                position,
                position_medium,
                position_uncertainty,
                uncertainty_kind,
                uncertainty_class: match class {
                    Some(x) => x,
                    None => None,
                },
                intensity,
                intensity_scale,
                flags,
                ritz_position: match rz {
                    Some(x) => x,
                    None => None,
                },
            })
        },
        _ => None,
    }
}

fn line_rows(doc: &Document, req: &Vec<Option<usize>>, opt: &Vec<Option<usize>>, default: &Option<String>, refusals: &mut Refusals) -> (r: Vec<Line>)
    requires
        rows_fit(doc@),
        req@.len() == 7,
        opt@.len() == 5,
        columns_in_range(doc@, positions(req@)),
        columns_in_range(doc@, positions(opt@)),
    ensures
        ({
            let want = lines_upto(doc@.3, positions(req@), positions(opt@), text_of(*default), doc@.3.len() as int);
            &&& line_views(r@) == want.0
            &&& final(refusals)@ == old(refusals)@ + want.1
        }),
{
    let ghost p = positions(req@);
    let ghost q = positions(opt@);
    let ghost d = text_of(*default);
    let ghost start = refusals@;
    let mut lines: Vec<Line> = Vec::new();
    let mut seen: Vec<String> = Vec::new();
    let mut k: usize = 0;
    assert(strings(seen@) =~= Seq::<Seq<char>>::empty());
    assert(line_views(lines@) =~= Seq::<LineView>::empty());
    assert(start + Seq::<RefusalView>::empty() =~= start);
    while k < doc.rows.len()
        invariant
            k <= doc@.3.len(),
            p == positions(req@),
            q == positions(opt@),
            d == text_of(*default),
            req@.len() == 7,
            opt@.len() == 5,
            rows_fit(doc@),
            columns_in_range(doc@, p),
            columns_in_range(doc@, q),
            line_views(lines@) == lines_upto(doc@.3, p, q, d, k as int).0,
            refusals@ == start + lines_upto(doc@.3, p, q, d, k as int).1,
            strings(seen@) == lines_upto(doc@.3, p, q, d, k as int).2,
        decreases doc@.3.len() - k,
    {
        let row = &doc.rows[k];
        assert(doc@.3[k as int] == row@);
        assert(row@.1.len() == doc@.1.len());
        assert forall|i: int| 0 <= i < 7 implies (#[trigger] req@[i] matches Some(c) ==> c < row@.1.len()) by {
            assert(p[i] == column_index(req@[i]));
        }
        assert forall|i: int| 0 <= i < 5 implies (#[trigger] opt@[i] matches Some(c) ==> c < row@.1.len()) by {
            assert(q[i] == column_index(opt@[i]));
        }
        let ghost before_lines = line_views(lines@);
        let got = line_row(row, req, opt, default, &mut seen, refusals);
        match got {
            Some(l) => {
                lines.push(l);
                assert(line_views(lines@) =~= before_lines.push(lines@.last()@));
            },
            None => {},
        }
        assert(refusals@ =~= start + lines_upto(doc@.3, p, q, d, k + 1).1);
        k = k + 1;
    }
    lines
}

/// The optional columns of a line list.
fn optional_columns(doc: &Document) -> (r: Vec<Option<usize>>)
    ensures
        positions(r@) == optional_columns_v(doc@),
        r@.len() == 5,
        columns_in_range(doc@, positions(r@)),
{
    let mut out: Vec<Option<usize>> = Vec::new();
    out.push(column_in(doc, "segment_id"));
    out.push(column_in(doc, "position_medium"));
    out.push(column_in(doc, "intensity"));
    out.push(column_in(doc, "intensity_scale"));
    out.push(column_in(doc, "ritz_position"));
    proof {
        assert(positions(out@) =~= optional_columns_v(doc@));
        assert forall|i: int| 0 <= i < positions(out@).len() implies (#[trigger] positions(out@)[i] matches Some(c) ==> 0 <= c < doc@.1.len()) by {
            let labels = seq!["segment_id"@, "position_medium"@, "intensity"@, "intensity_scale"@, "ritz_position"@];
            if doc@.1.contains(labels[i]) {
                crate::spectro_contract::reading::lemma_first_index(doc@.1, labels[i]);
            }
        }
    }
    out
}

#[verifier::rlimit(40)]
fn read_document(doc: &Document) -> (r: Result<LineList, Refusals>)
    requires
        rows_fit(doc@),
    ensures
        line_list_outcome(r) == line_list_v(doc@),
{
    let mut refusals = Refusals::new();
    let cv = contract_version(doc, &mut refusals);
    let unit = required_header(doc, &mut refusals, "position_unit");
    let id = required_header(doc, &mut refusals, "line_list_id");
    let medium = header_medium(doc, &mut refusals);
    let names = line_required_columns();
    assert(line_required_words().len() == 7);
    let req = required_columns(doc, &mut refusals, names);
    let opt = optional_columns(doc);
    let lines = line_rows(doc, &req, &opt, &medium, &mut refusals);
    let unknown_header_fields = doc.headers_outside(line_header_fields());
    let unknown_columns = doc.columns_outside(line_columns());
    let built = match (cv, unit, medium, id) {
        (Some(contract_version), Some(position_unit), Some(position_medium), Some(line_list_id)) => Some(LineList {
            contract_version,
            position_unit,
            position_medium,
            line_list_id,
            lines,
            unknown_header_fields,
            unknown_columns,
        }),
        _ => None,
    };
    proof {
        let r0 = contract_version_v(doc@).1;
        let r1 = required_header_v(doc@, "position_unit"@).1;
        let r2 = required_header_v(doc@, "line_list_id"@).1;
        let r3 = header_medium_v(doc@).1;
        let r4 = columns_v(doc@, line_required_words(), 7).1;
        let r5 = lines_upto(doc@.3, positions(req@), positions(opt@), header_medium_v(doc@).0, doc@.3.len() as int).1;
        assert(refusals@ =~= r0 + r1 + r2 + r3 + r4 + r5);
        if built is Some {
            assert(built->0@.lines == lines_upto(doc@.3, positions(req@), positions(opt@), header_medium_v(doc@).0, doc@.3.len() as int).0);
        }
    }
    finish(refusals, built)
}

/// Read a line list, or refuse naming every field and line that failed.
pub fn read(bytes: &[u8]) -> (r: Result<LineList, Refusals>)
    ensures
        line_list_outcome(r) == read_line_list_v(bytes@),
{
    proof {
        lemma_lexed_rows_fit(bytes@);
    }
    match Document::lex(bytes) {
        Ok(doc) => read_document(&doc),
        Err(e) => Err(e),
    }
}


proof fn lemma_flags_placed(line: usize, parts: Seq<Seq<char>>, k: int)
    ensures
        all_named(flags_upto(line, parts, k).2),
    decreases k,
{
    if k > 0 {
        lemma_flags_placed(line, parts, k - 1);
        let (held, refused, rs) = flags_upto(line, parts, k - 1);
        let r2 = flags_step(line, held, refused, parts[k - 1]).2;
        assert(all_named(r2));
        lemma_named_join(rs, r2);
    }
}

#[verifier::spinoff_prover]
proof fn lemma_line_row_placed(row: RowView, req: Seq<Option<int>>, opt: Seq<Option<int>>, default: Option<Seq<char>>, seen: Seq<Seq<char>>)
    ensures
        all_named(line_row_v(row, req, opt, default, seen).1),
{
    let (_, _, _, ra) = line_first_v(row, req, seen);
    let (_, r1) = feature_id_v(row, req[0], seen);
    let (_, r2) = required_under(row, req[1], "spectrum_id"@);
    let (_, r3) = number_under(row, req[2], "position"@);
    assert(all_named(r1));
    assert(all_named(r2));
    assert(all_named(r3));
    lemma_named_join(r1, r2);
    lemma_named_join(r1 + r2, r3);
    let (_, _, _, rb) = line_second_v(row, req);
    let (_, r4) = uncertainty_under(row, req[3], "position_uncertainty"@);
    let (kind, r5) = vocabulary_under(row, req[4], "uncertainty_kind"@, uncertainty_kind_words());
    let (_, r6) = class_under(row, req[5], kind);
    assert(all_named(r4));
    assert(all_named(r5));
    assert(all_named(r6));
    lemma_named_join(r4, r5);
    lemma_named_join(r4 + r5, r6);
    lemma_named_join(ra, rb);
    let (_, r7) = row_medium_v(row, opt[1], default);
    let (_, r8) = intensity_v(row, opt[2], opt[3]);
    let (_, r9) = flags_under(row, req[6]);
    let (_, r10) = ritz_v(row, opt[4]);
    assert(all_named(r7));
    assert(all_named(r8));
    if let Some(c) = req[6] {
        let cell = row.1[c];
        if cell.len() > 0 {
            let parts = split(cell, ',');
            lemma_flags_placed(row.0, parts, parts.len() as int);
        }
    }
    assert(all_named(r9));
    assert(all_named(r10));
    lemma_named_join(r7, r8);
    lemma_named_join(r7 + r8, r9);
    lemma_named_join(r7 + r8 + r9, r10);
    lemma_named_join(line_head_v(row, req, seen).refusals, line_tail_v(row, req, opt, default).refusals);
}

proof fn lemma_lines_placed(rows: Seq<RowView>, req: Seq<Option<int>>, opt: Seq<Option<int>>, default: Option<Seq<char>>, k: int)
    ensures
        all_named(lines_upto(rows, req, opt, default, k).1),
    decreases k,
{
    if k > 0 {
        lemma_lines_placed(rows, req, opt, default, k - 1);
        let (_, rs, seen) = lines_upto(rows, req, opt, default, k - 1);
        lemma_line_row_placed(rows[k - 1], req, opt, default, seen);
        lemma_named_join(rs, line_row_v(rows[k - 1], req, opt, default, seen).1);
    }
}

#[verifier::spinoff_prover]
proof fn lemma_line_headers_placed(doc: DocumentView)
    ensures
        ({
            let (cv, r0) = contract_version_v(doc);
            let (unit, r1) = required_header_v(doc, "position_unit"@);
            let (id, r2) = required_header_v(doc, "line_list_id"@);
            let (medium, r3) = header_medium_v(doc);
            &&& all_named(r0 + r1 + r2 + r3)
            &&& (cv is None || unit is None || id is None || medium is None) ==> (r0 + r1 + r2 + r3).len() > 0
        }),
{
    let (cv, r0) = contract_version_v(doc);
    let (unit, r1) = required_header_v(doc, "position_unit"@);
    let (id, r2) = required_header_v(doc, "line_list_id"@);
    let (medium, r3) = header_medium_v(doc);
    assert(all_named(r0));
    assert(all_named(r1));
    assert(all_named(r2));
    assert(all_named(r3));
    lemma_named_join(r0, r1);
    lemma_named_join(r0 + r1, r2);
    lemma_named_join(r0 + r1 + r2, r3);
    assert(cv is None ==> r0.len() == 1);
    assert(unit is None ==> r1.len() == 1);
    assert(id is None ==> r2.len() == 1);
    assert(medium is None ==> r3.len() == 1);
}

#[verifier::spinoff_prover]
proof fn lemma_line_document_placed(doc: DocumentView)
    ensures
        line_list_v(doc) matches Err(rs) ==> all_named(rs),
{
    let r0 = contract_version_v(doc).1;
    let r1 = required_header_v(doc, "position_unit"@).1;
    let r2 = required_header_v(doc, "line_list_id"@).1;
    let (medium, r3) = header_medium_v(doc);
    let (req, r4) = columns_v(doc, line_required_words(), 7);
    let opt = optional_columns_v(doc);
    let r5 = lines_upto(doc.3, req, opt, medium, doc.3.len() as int).1;
    lemma_line_headers_placed(doc);
    lemma_columns_named(doc, line_required_words(), 7);
    lemma_lines_placed(doc.3, req, opt, medium, doc.3.len() as int);
    lemma_named_join(r0 + r1 + r2 + r3, r4);
    lemma_named_join(r0 + r1 + r2 + r3 + r4, r5);
    assert((r0 + r1 + r2 + r3).len() > 0 ==> (r0 + r1 + r2 + r3 + r4 + r5).len() > 0);
}

/// A line list is refused, where it is refused, only with refusals that each
/// name the field they are about, once it has lexed. A file refused as a
/// whole before any line of it is read (bytes that are not UTF-8, a UTF-16
/// byte order mark, no label row) or for a lexical fault of one line is
/// refused with what the lexer says, which names a line where it names no
/// field; where every such refusal names a place, every refusal does.
pub proof fn law_every_line_refusal_names_a_place(bytes: Seq<u8>)
    ensures
        lex_bytes(bytes) is Ok ==> (read_line_list_v(bytes) matches Err(rs) ==> all_named(rs)),
        (match lex_bytes(bytes) {
            Ok(_) => true,
            Err(e) => all_placed(e),
        }) ==> (read_line_list_v(bytes) matches Err(rs) ==> all_placed(rs)),
{
    if let Ok(doc) = lex_bytes(bytes) {
        lemma_line_document_placed(doc);
        if let Err(rs) = line_list_v(doc) {
            assert forall|i: int| 0 <= i < rs.len() implies (#[trigger] rs[i]).0 is Some || rs[i].1 is Some by {
                assert(rs[i].1 is Some);
            }
        }
    }
}

/// Flags as a line may hold them: each a member of the flag vocabulary, and
/// none twice.
pub open spec fn flags_each_once(flags: Seq<Seq<char>>) -> bool {
    &&& flags.no_duplicates()
    &&& forall|i: int| 0 <= i < flags.len() ==> line_flag_words().contains(#[trigger] flags[i])
}

proof fn lemma_flags_upto_each_once(line: usize, parts: Seq<Seq<char>>, k: int)
    ensures
        flags_each_once(flags_upto(line, parts, k).0),
    decreases k,
{
    if k > 0 {
        lemma_flags_upto_each_once(line, parts, k - 1);
        let (held, refused, rs) = flags_upto(line, parts, k - 1);
        let part = parts[k - 1];
        if line_flag_words().contains(part) && !held.contains(part) {
            let h2 = held.push(part);
            assert forall|i: int, j: int| 0 <= i < h2.len() && 0 <= j < h2.len() && i != j implies h2[i] != h2[j] by {
                if i == held.len() {
                    assert(h2[j] == held[j]);
                } else if j == held.len() {
                    assert(h2[i] == held[i]);
                } else {
                    assert(h2[i] == held[i] && h2[j] == held[j]);
                }
            }
            assert forall|i: int| 0 <= i < h2.len() implies line_flag_words().contains(#[trigger] h2[i]) by {
                if i < held.len() {
                    assert(h2[i] == held[i]);
                }
            }
        }
    }
}

proof fn lemma_lines_flags_each_once(rows: Seq<RowView>, req: Seq<Option<int>>, opt: Seq<Option<int>>, default: Option<Seq<char>>, k: int)
    ensures
        forall|i: int| 0 <= i < lines_upto(rows, req, opt, default, k).0.len()
            ==> flags_each_once((#[trigger] lines_upto(rows, req, opt, default, k).0[i]).flags),
    decreases k,
{
    if k > 0 {
        lemma_lines_flags_each_once(rows, req, opt, default, k - 1);
        let (ls, rs, seen) = lines_upto(rows, req, opt, default, k - 1);
        let row = rows[k - 1];
        let (l, r) = line_row_v(row, req, opt, default, seen);
        if let Some(x) = l {
            let tail = line_tail_v(row, req, opt, default);
            assert(x.flags == tail.flags.unwrap());
            match req[6] {
                Some(c) => {
                    if row.1[c].len() > 0 {
                        let parts = split(row.1[c], ',');
                        lemma_flags_upto_each_once(row.0, parts, parts.len() as int);
                    }
                },
                None => {},
            }
            assert(flags_each_once(x.flags));
            let all = ls.push(x);
            assert forall|i: int| 0 <= i < all.len() implies flags_each_once((#[trigger] all[i]).flags) by {
                if i < ls.len() {
                    assert(all[i] == ls[i]);
                }
            }
        }
    }
}

/// A line list that reads holds, on every line, flags from the flag
/// vocabulary only and none of them twice.
pub proof fn law_every_line_holds_each_flag_once(bytes: Seq<u8>)
    ensures
        read_line_list_v(bytes) matches Ok(list) ==> forall|i: int| 0 <= i < list.lines.len()
            ==> flags_each_once((#[trigger] list.lines[i]).flags),
{
    if let Ok(doc) = lex_bytes(bytes) {
        let (medium, r3) = header_medium_v(doc);
        let (req, r4) = columns_v(doc, line_required_words(), 7);
        let opt = optional_columns_v(doc);
        lemma_lines_flags_each_once(doc.3, req, opt, medium, doc.3.len() as int);
    }
}

proof fn lemma_flags_upto_exact(line: usize, parts: Seq<Seq<char>>, k: int)
    requires
        0 <= k <= parts.len(),
    ensures
        ({
            let (held, refused, rs) = flags_upto(line, parts, k);
            &&& !refused <==> (forall|i: int| 0 <= i < k ==> line_flag_words().contains(#[trigger] parts[i]))
                && parts.take(k).no_duplicates()
            &&& !refused ==> held == parts.take(k)
            &&& refused <==> rs.len() > 0
        }),
    decreases k,
{
    if k > 0 {
        lemma_flags_upto_exact(line, parts, k - 1);
        let (held, refused, rs) = flags_upto(line, parts, k - 1);
        let part = parts[k - 1];
        let pre = parts.take(k - 1);
        let now = parts.take(k);
        assert(now =~= pre.push(part));
        if !refused && line_flag_words().contains(part) {
            if held.contains(part) {
                let j = choose|j: int| 0 <= j < held.len() && held[j] == part;
                assert(now[j] == now[k - 1]);
                assert(!now.no_duplicates());
            } else {
                assert forall|a: int, b: int| 0 <= a < now.len() && 0 <= b < now.len() && a != b implies now[a] != now[b] by {
                    if a == k - 1 {
                        assert(now[b] == pre[b]);
                        assert(held[b] == pre[b]);
                    } else if b == k - 1 {
                        assert(now[a] == pre[a]);
                        assert(held[a] == pre[a]);
                    } else {
                        assert(now[a] == pre[a] && now[b] == pre[b]);
                    }
                }
            }
        }
        if !pre.no_duplicates() {
            let (a, b) = choose|a: int, b: int| 0 <= a < pre.len() && 0 <= b < pre.len() && a != b && pre[a] == pre[b];
            assert(now[a] == pre[a] && now[b] == pre[b]);
        }
        if !(forall|i: int| 0 <= i < k - 1 ==> line_flag_words().contains(#[trigger] parts[i])) {
            let i = choose|i: int| 0 <= i < k - 1 && !line_flag_words().contains(#[trigger] parts[i]);
            assert(!line_flag_words().contains(parts[i]));
        }
    }
}

/// A flags cell is read exactly when every comma-separated part of it is a
/// flag of the vocabulary and no part repeats an earlier one, and it is then
/// read as those parts in order; otherwise it is refused on its line.
pub proof fn law_a_flags_cell_reads_exactly_when_each_flag_is_known_and_given_once(row: RowView, c: int)
    requires
        row.1[c].len() > 0,
    ensures
        ({
            let parts = split(row.1[c], ',');
            let (flags, refused) = flags_v(row, c);
            &&& flags is Some <==> (forall|i: int| 0 <= i < parts.len() ==> line_flag_words().contains(#[trigger] parts[i]))
                && parts.no_duplicates()
            &&& flags matches Some(f) ==> f == parts
            &&& flags is None ==> refused.len() > 0 && forall|i: int| 0 <= i < refused.len() ==> (#[trigger] refused[i]).0 == Some(row.0)
        }),
{
    let parts = split(row.1[c], ',');
    lemma_flags_upto_exact(row.0, parts, parts.len() as int);
    lemma_flags_refusals_on_line(row.0, parts, parts.len() as int);
    assert(parts.take(parts.len() as int) =~= parts);
}

proof fn lemma_flags_refusals_on_line(line: usize, parts: Seq<Seq<char>>, k: int)
    ensures
        forall|i: int| 0 <= i < flags_upto(line, parts, k).2.len() ==> (#[trigger] flags_upto(line, parts, k).2[i]).0 == Some(line),
    decreases k,
{
    if k > 0 {
        lemma_flags_refusals_on_line(line, parts, k - 1);
        let (held, refused, rs) = flags_upto(line, parts, k - 1);
        let (h2, f2, r2) = flags_step(line, held, refused, parts[k - 1]);
        assert forall|i: int| 0 <= i < (rs + r2).len() implies (#[trigger] (rs + r2)[i]).0 == Some(line) by {
            if i >= rs.len() {
                assert((rs + r2)[i] == r2[i - rs.len()]);
            } else {
                assert((rs + r2)[i] == rs[i]);
            }
        }
    }
}

} // verus!
