//! The level set.
//!
//! A number is kept as the text the file wrote it in, once it has been checked
//! to be a finite number; what a number means is for whoever reads the level.
use vstd::prelude::*;
use crate::spectro_contract::columns::{
    cell_at, columns_in_range, columns_v, held_in, positions, required_columns,
};
use crate::spectro_contract::document::{
    header_names, lemma_lexed_rows_fit, lex_bytes, outside, rows_fit, strings, Document,
    DocumentView, Row, RowView,
};
use crate::spectro_contract::reading::{
    contract_version, contract_version_v, finish, finish_v, header_of, optional_header, required_cell, required_cell_v, required_header, required_header_v,
    uncertainty_class, required_under, number_under, uncertainty_under, vocabulary_under, class_under,
    column_index, text_of, texts_of, required_at, number_at, uncertainty_at, vocabulary_at, class_at,
    cell_under,
};
use crate::spectro_contract::refusal::{field_on_line_v, Refusal, RefusalView, Refusals};
use crate::spectro_contract::value::{
    half_integer_of, origin_vocabulary, origin_words, parity_vocabulary, parity_words,
    uncertainty_kind_vocabulary, uncertainty_kind_words, words, HalfInteger, Version,
};
use crate::text::{append, chars_of, is_text, owned, quote, quoted};

verus! {

pub open spec fn level_header_words() -> Seq<Seq<char>> {
    seq![
        "contract_version"@,
        "energy_unit"@,
        "energy_reference"@,
        "level_set_id"@,
        "covariance_file"@,
        "derived_from_line_lists"@,
    ]
}

fn level_header_fields() -> (r: &'static [&'static str])
    ensures
        words(r@) == level_header_words(),
{
    let r: &'static [&'static str] = &[
        "contract_version",
        "energy_unit",
        "energy_reference",
        "level_set_id",
        "covariance_file",
        "derived_from_line_lists",
    ];
    assert(words(r@) =~= level_header_words());
    r
}

pub open spec fn level_column_words() -> Seq<Seq<char>> {
    seq![
        "level_id"@,
        "species"@,
        "energy"@,
        "energy_uncertainty"@,
        "uncertainty_kind"@,
        "uncertainty_class"@,
        "parity"@,
        "j"@,
        "origin"@,
        "configuration"@,
        "term"@,
    ]
}

fn level_columns() -> (r: &'static [&'static str])
    ensures
        words(r@) == level_column_words(),
{
    let r: &'static [&'static str] = &[
        "level_id",
        "species",
        "energy",
        "energy_uncertainty",
        "uncertainty_kind",
        "uncertainty_class",
        "parity",
        "j",
        "origin",
        "configuration",
        "term",
    ];
    assert(words(r@) =~= level_column_words());
    r
}

/// One level as plain values.
pub struct LevelView {
    pub line: usize,
    pub level_id: Seq<char>,
    pub species: Seq<char>,
    pub energy: Seq<char>,
    pub energy_uncertainty: Option<Seq<char>>,
    pub uncertainty_kind: Seq<char>,
    pub uncertainty_class: Option<Seq<char>>,
    pub parity: Seq<char>,
    pub j: Option<u32>,
    pub origin: Seq<char>,
    pub configuration: Seq<char>,
    pub term: Seq<char>,
}

/// One level, with every field the objective needs.
#[derive(Debug, PartialEq, Eq)]
pub struct Level {
    /// The line of the file this level was read from.
    pub line: usize,
    pub level_id: String,
    pub species: String,
    /// A finite number, as the file wrote it.
    pub energy: String,
    /// `None` where the file said `none`, which is a declared absence.
    pub energy_uncertainty: Option<String>,
    pub uncertainty_kind: String,
    pub uncertainty_class: Option<String>,
    pub parity: String,
    /// `None` where the file said `unknown`.
    pub j: Option<HalfInteger>,
    pub origin: String,
    pub configuration: String,
    pub term: String,
}

impl View for Level {
    type V = LevelView;

    open spec fn view(&self) -> LevelView {
        LevelView {
            line: self.line,
            level_id: self.level_id@,
            species: self.species@,
            energy: self.energy@,
            energy_uncertainty: text_of(self.energy_uncertainty),
            uncertainty_kind: self.uncertainty_kind@,
            uncertainty_class: text_of(self.uncertainty_class),
            parity: self.parity@,
            j: match self.j {
                Some(h) => Some(h@),
                None => None,
            },
            origin: self.origin@,
            configuration: self.configuration@,
            term: self.term@,
        }
    }
}

pub open spec fn level_views(v: Seq<Level>) -> Seq<LevelView> {
    v.map_values(|l: Level| l@)
}

/// A level set as plain values.
pub struct LevelSetView {
    pub contract_version: (u32, u32),
    pub energy_unit: Seq<char>,
    pub energy_reference: Seq<char>,
    pub level_set_id: Seq<char>,
    pub covariance_file: Option<Seq<char>>,
    pub derived_from_line_lists: Option<Seq<char>>,
    pub levels: Seq<LevelView>,
    pub unknown_header_fields: Seq<Seq<char>>,
    pub unknown_columns: Seq<Seq<char>>,
}

/// A level set that a reader accepted.
#[derive(Debug, PartialEq, Eq)]
pub struct LevelSet {
    pub contract_version: Version,
    pub energy_unit: String,
    pub energy_reference: String,
    pub level_set_id: String,
    pub covariance_file: Option<String>,
    pub derived_from_line_lists: Option<String>,
    pub levels: Vec<Level>,
    /// Header fields and column labels this reader did not know, kept and
    /// reported rather than dropped.
    pub unknown_header_fields: Vec<String>,
    pub unknown_columns: Vec<String>,
}

impl View for LevelSet {
    type V = LevelSetView;

    open spec fn view(&self) -> LevelSetView {
        LevelSetView {
            contract_version: self.contract_version@,
            energy_unit: self.energy_unit@,
            energy_reference: self.energy_reference@,
            level_set_id: self.level_set_id@,
            covariance_file: text_of(self.covariance_file),
            derived_from_line_lists: text_of(self.derived_from_line_lists),
            levels: level_views(self.levels@),
            unknown_header_fields: strings(self.unknown_header_fields@),
            unknown_columns: strings(self.unknown_columns@),
        }
    }
}

pub open spec fn repeated_level(v: Seq<char>) -> Seq<char> {
    quoted(v) + " names a level this file already carried, and a level identifier is unique in its file"@
}

/// `level_id`, which is unique in its file.
pub open spec fn level_id_v(row: RowView, col: Option<int>, seen: Seq<Seq<char>>) -> (Option<Seq<char>>, Seq<RefusalView>) {
    match col {
        None => (None, Seq::empty()),
        Some(c) => {
            let (v, r) = required_cell_v(row, c, "level_id"@);
            match v {
                None => (None, r),
                Some(v) => if seen.contains(v) {
                    (None, r + seq![field_on_line_v(row.0, "level_id"@, repeated_level(v))])
                } else {
                    (Some(v), r)
                },
            }
        },
    }
}

pub open spec fn unknown_j() -> Seq<char> {
    ", and a J that was never determined is written `unknown`"@
}

/// `j`: a half-integer, or `unknown`.
pub open spec fn j_cell_v(row: RowView, c: int) -> (Option<Option<u32>>, Seq<RefusalView>) {
    let cell = row.1[c];
    if cell == "unknown"@ {
        (Some(None), Seq::empty())
    } else {
        match half_integer_of(cell) {
            Ok(w) => (Some(Some(w)), Seq::empty()),
            Err(m) => (None, seq![field_on_line_v(row.0, "j"@, m + unknown_j())]),
        }
    }
}

pub open spec fn j_under(row: RowView, col: Option<int>) -> (Option<Option<u32>>, Seq<RefusalView>) {
    match col {
        Some(c) => j_cell_v(row, c),
        None => (None, Seq::empty()),
    }
}

pub open spec fn flatten<T>(o: Option<Option<T>>) -> Option<T> {
    match o {
        Some(x) => x,
        None => None,
    }
}

/// One row read as a level, and what it is refused for, field by field in
/// column order.
pub open spec fn level_row_v(row: RowView, cols: Seq<Option<int>>, seen: Seq<Seq<char>>) -> (Option<LevelView>, Seq<RefusalView>) {
    let head = level_head_v(row, cols, seen);
    let tail = level_tail_v(row, cols);
    let configuration = cell_at(row, cols[9]);
    let term = cell_at(row, cols[10]);
    let level = if head.id is Some && head.species is Some && head.energy is Some && head.uncertainty is Some
        && tail.kind is Some && tail.parity is Some && tail.j is Some && tail.origin is Some
        && configuration is Some && term is Some {
        Some(LevelView {
            line: row.0,
            level_id: head.id.unwrap(),
            species: head.species.unwrap(),
            energy: head.energy.unwrap(),
            energy_uncertainty: head.uncertainty.unwrap(),
            uncertainty_kind: tail.kind.unwrap(),
            uncertainty_class: flatten(tail.class),
            parity: tail.parity.unwrap(),
            j: tail.j.unwrap(),
            origin: tail.origin.unwrap(),
            configuration: configuration.unwrap(),
            term: term.unwrap(),
        })
    } else {
        None
    };
    (level, head.refusals + tail.refusals)
}

/// The first fields of a level row: identifier, species, energy and its
/// uncertainty, and what they are refused for.
pub struct LevelHead {
    pub id: Option<Seq<char>>,
    pub species: Option<Seq<char>>,
    pub energy: Option<Seq<char>>,
    pub uncertainty: Option<Option<Seq<char>>>,
    pub refusals: Seq<RefusalView>,
}

pub open spec fn level_head_v(row: RowView, cols: Seq<Option<int>>, seen: Seq<Seq<char>>) -> LevelHead {
    let (id, r1) = level_id_v(row, cols[0], seen);
    let (species, r2) = required_under(row, cols[1], "species"@);
    let (energy, r3) = number_under(row, cols[2], "energy"@);
    let (unc, r4) = uncertainty_under(row, cols[3], "energy_uncertainty"@);
    LevelHead { id, species, energy, uncertainty: unc, refusals: r1 + r2 + r3 + r4 }
}

/// The remaining fields of a level row: the kind and class of the
/// uncertainty, parity, J and origin, and what they are refused for.
pub struct LevelTail {
    pub kind: Option<Seq<char>>,
    pub class: Option<Option<Seq<char>>>,
    pub parity: Option<Seq<char>>,
    pub j: Option<Option<u32>>,
    pub origin: Option<Seq<char>>,
    pub refusals: Seq<RefusalView>,
}

pub open spec fn level_tail_v(row: RowView, cols: Seq<Option<int>>) -> LevelTail {
    let (kind, r5) = vocabulary_under(row, cols[4], "uncertainty_kind"@, uncertainty_kind_words());
    let (class, r6) = class_under(row, cols[5], kind);
    let (parity, r7) = vocabulary_under(row, cols[6], "parity"@, parity_words());
    let (j, r8) = j_under(row, cols[7]);
    let (origin, r9) = vocabulary_under(row, cols[8], "origin"@, origin_words());
    LevelTail { kind, class, parity, j, origin, refusals: r5 + r6 + r7 + r8 + r9 }
}

/// The levels of the first `k` rows, what they are refused for, and the
/// identifiers they carried.
pub open spec fn levels_upto(rows: Seq<RowView>, cols: Seq<Option<int>>, k: int) -> (Seq<LevelView>, Seq<RefusalView>, Seq<Seq<char>>)
    decreases k,
{
    if k <= 0 {
        (Seq::empty(), Seq::empty(), Seq::empty())
    } else {
        let (ls, rs, seen) = levels_upto(rows, cols, k - 1);
        let (id, _) = level_id_v(rows[k - 1], cols[0], seen);
        let (l, r) = level_row_v(rows[k - 1], cols, seen);
        (
            match l {
                Some(l) => ls.push(l),
                None => ls,
            },
            rs + r,
            match id {
                Some(i) => seen.push(i),
                None => seen,
            },
        )
    }
}

/// What a document reads to as a level set.
pub open spec fn level_set_v(doc: DocumentView) -> Result<LevelSetView, Seq<RefusalView>> {
    let (cv, r0) = contract_version_v(doc);
    let (unit, r1) = required_header_v(doc, "energy_unit"@);
    let (reference, r2) = required_header_v(doc, "energy_reference"@);
    let (id, r3) = required_header_v(doc, "level_set_id"@);
    let (cols, r4) = columns_v(doc, level_column_words(), 11);
    let (levels, r5, _) = levels_upto(doc.3, cols, doc.3.len() as int);
    let built = if cv is Some && unit is Some && reference is Some && id is Some {
        Some(LevelSetView {
            contract_version: cv.unwrap(),
            energy_unit: unit.unwrap(),
            energy_reference: reference.unwrap(),
            level_set_id: id.unwrap(),
            covariance_file: match header_of(doc.0, "covariance_file"@) {
                Some(h) => Some(h.1),
                None => None,
            },
            derived_from_line_lists: match header_of(doc.0, "derived_from_line_lists"@) {
                Some(h) => Some(h.1),
                None => None,
            },
            levels,
            unknown_header_fields: outside(header_names(doc.0), level_header_words()),
            unknown_columns: outside(doc.1, level_column_words()),
        })
    } else {
        None
    };
    finish_v(built, r0 + r1 + r2 + r3 + r4 + r5)
}

/// What the bytes of a file read to as a level set.
pub open spec fn read_level_set_v(b: Seq<u8>) -> Result<LevelSetView, Seq<RefusalView>> {
    match lex_bytes(b) {
        Err(e) => Err(e),
        Ok(d) => level_set_v(d),
    }
}

pub open spec fn level_set_outcome(r: Result<LevelSet, Refusals>) -> Result<LevelSetView, Seq<RefusalView>> {
    match r {
        Ok(s) => Ok(s@),
        Err(e) => Err(e@),
    }
}

/// `j`, read from its cell.
fn j_cell(row: &Row, column: usize, refusals: &mut Refusals) -> (r: Option<Option<HalfInteger>>)
    requires
        column < row@.1.len(),
    ensures
        ({
            let want = j_cell_v(row@, column as int);
            &&& match r {
                Some(Some(h)) => want.0 == Some(Some(h@)),
                Some(None) => want.0 == Some(None::<u32>),
                None => want.0 is None,
            }
            &&& final(refusals)@ == old(refusals)@ + want.1
        }),
{
    let cell = &row.cells[column];
    let chars = chars_of(cell.as_str());
    assert(old(refusals)@ + Seq::<RefusalView>::empty() =~= old(refusals)@);
    if is_text(chars.as_slice(), "unknown") {
        return Some(None);
    }
    match HalfInteger::parse(cell.as_str()) {
        Ok(h) => Some(Some(h)),
        Err(reason) => {
            let mut m = reason;
            append(&mut m, ", and a J that was never determined is written `unknown`");
            refusals.push(Refusal::field_on_line(row.line, owned("j"), m));
            None
        },
    }
}

fn j_at(row: &Row, col: Option<usize>, refusals: &mut Refusals) -> (r: Option<Option<HalfInteger>>)
    requires
        col matches Some(c) ==> c < row@.1.len(),
    ensures
        ({
            let want = j_under(row@, column_index(col));
            &&& match r {
                Some(Some(h)) => want.0 == Some(Some(h@)),
                Some(None) => want.0 == Some(None::<u32>),
                None => want.0 is None,
            }
            &&& final(refusals)@ == old(refusals)@ + want.1
        }),
{
    match col {
        Some(c) => j_cell(row, c, refusals),
        None => {
            assert(old(refusals)@ + Seq::<RefusalView>::empty() =~= old(refusals)@);
            None
        },
    }
}

/// `level_id`, refused where the file already carried it.
fn level_id_cell(row: &Row, col: Option<usize>, seen: &mut Vec<String>, refusals: &mut Refusals) -> (r: Option<String>)
    requires
        col matches Some(c) ==> c < row@.1.len(),
    ensures
        ({
            let c = match col {
                Some(c) => Some(c as int),
                None => None,
            };
            let want = level_id_v(row@, c, strings(old(seen)@));
            &&& text_of(r) == want.0
            &&& final(refusals)@ == old(refusals)@ + want.1
            &&& strings(final(seen)@) == match want.0 {
                Some(i) => strings(old(seen)@).push(i),
                None => strings(old(seen)@),
            }
        }),
{
    match col {
        None => {
            assert(old(refusals)@ + Seq::<RefusalView>::empty() =~= old(refusals)@);
            None
        },
        Some(c) => {
            let value = match required_cell(row, c, "level_id", refusals) {
                Some(v) => v,
                None => {
                    return None;
                },
            };
            if held_in(seen, value.as_str()) {
                let chars = chars_of(value.as_str());
                let mut m = quote(chars.as_slice());
                append(&mut m, " names a level this file already carried, and a level identifier is unique in its file");
                refusals.push(Refusal::field_on_line(row.line, owned("level_id"), m));
                return None;
            }
            let ghost before = strings(seen@);
            seen.push(value.clone());
            assert(strings(seen@) =~= before.push(value@));
            Some(value)
        },
    }
}

pub open spec fn opt_int(c: Option<usize>) -> Option<int> {
    match c {
        Some(i) => Some(i as int),
        None => None,
    }
}

pub open spec fn half_of(o: Option<Option<HalfInteger>>) -> Option<Option<u32>> {
    match o {
        Some(Some(h)) => Some(Some(h@)),
        Some(None) => Some(None),
        None => None,
    }
}

/// The first fields of a level row.
fn level_head(row: &Row, cols: &Vec<Option<usize>>, seen: &mut Vec<String>, refusals: &mut Refusals) -> (r: (Option<String>, Option<String>, Option<String>, Option<Option<String>>))
    requires
        cols@.len() == 11,
        forall|i: int| 0 <= i < 11 ==> (#[trigger] cols@[i] matches Some(c) ==> c < row@.1.len()),
    ensures
        ({
            let want = level_head_v(row@, positions(cols@), strings(old(seen)@));
            &&& text_of(r.0) == want.id
            &&& text_of(r.1) == want.species
            &&& text_of(r.2) == want.energy
            &&& texts_of(r.3) == want.uncertainty
            &&& final(refusals)@ == old(refusals)@ + want.refusals
            &&& strings(final(seen)@) == match want.id {
                Some(i) => strings(old(seen)@).push(i),
                None => strings(old(seen)@),
            }
        }),
{
    let ghost p = positions(cols@);
    let ghost s0 = refusals@;
    assert forall|i: int| 0 <= i < 11 implies #[trigger] p[i] == column_index(cols@[i]) by {}
    let id = level_id_cell(row, cols[0], seen, refusals);
    let species = required_at(row, cols[1], "species", refusals);
    let energy = number_at(row, cols[2], "energy", refusals);
    let unc = uncertainty_at(row, cols[3], "energy_uncertainty", refusals);
    assert(refusals@ =~= s0 + level_head_v(row@, p, strings(old(seen)@)).refusals);
    (id, species, energy, unc)
}

/// The remaining fields of a level row.
fn level_tail(row: &Row, cols: &Vec<Option<usize>>, refusals: &mut Refusals) -> (r: (Option<String>, Option<Option<String>>, Option<String>, Option<Option<HalfInteger>>, Option<String>))
    requires
        cols@.len() == 11,
        forall|i: int| 0 <= i < 11 ==> (#[trigger] cols@[i] matches Some(c) ==> c < row@.1.len()),
    ensures
        ({
            let want = level_tail_v(row@, positions(cols@));
            &&& text_of(r.0) == want.kind
            &&& texts_of(r.1) == want.class
            &&& text_of(r.2) == want.parity
            &&& half_of(r.3) == want.j
            &&& text_of(r.4) == want.origin
            &&& final(refusals)@ == old(refusals)@ + want.refusals
        }),
{
    let ghost p = positions(cols@);
    let ghost s0 = refusals@;
    assert forall|i: int| 0 <= i < 11 implies #[trigger] p[i] == column_index(cols@[i]) by {}
    let kind = vocabulary_at(row, cols[4], "uncertainty_kind", uncertainty_kind_vocabulary(), refusals);
    let class = class_at(row, cols[5], &kind, refusals);
    let parity = vocabulary_at(row, cols[6], "parity", parity_vocabulary(), refusals);
    let j = j_at(row, cols[7], refusals);
    let origin = vocabulary_at(row, cols[8], "origin", origin_vocabulary(), refusals);
    assert(refusals@ =~= s0 + level_tail_v(row@, p).refusals);
    (kind, class, parity, j, origin)
}

/// Read one row as a level.
fn level_row(row: &Row, cols: &Vec<Option<usize>>, seen: &mut Vec<String>, refusals: &mut Refusals) -> (r: Option<Level>)
    requires
        cols@.len() == 11,
        forall|i: int| 0 <= i < 11 ==> (#[trigger] cols@[i] matches Some(c) ==> c < row@.1.len()),
    ensures
        ({
            let want = level_row_v(row@, positions(cols@), strings(old(seen)@));
            let id = level_id_v(row@, positions(cols@)[0], strings(old(seen)@)).0;
            &&& match r {
                Some(l) => want.0 == Some(l@),
                None => want.0 is None,
            }
            &&& final(refusals)@ == old(refusals)@ + want.1
            &&& strings(final(seen)@) == match id {
                Some(i) => strings(old(seen)@).push(i),
                None => strings(old(seen)@),
            }
        }),
{
    let ghost p = positions(cols@);
    let ghost s0 = refusals@;
    let (id, species, energy, unc) = level_head(row, cols, seen, refusals);
    let (kind, class, parity, j, origin) = level_tail(row, cols, refusals);
    assert(p[9] == column_index(cols@[9]));
    assert(p[10] == column_index(cols@[10]));
    let configuration = cell_under(row, cols[9]);
    let term = cell_under(row, cols[10]);
    let ghost head = level_head_v(row@, p, strings(old(seen)@));
    let ghost tail = level_tail_v(row@, p);
    assert(refusals@ =~= s0 + (head.refusals + tail.refusals));
    match (id, species, energy, unc, kind, parity, j, origin, configuration, term) {
        (Some(level_id), Some(species), Some(energy), Some(energy_uncertainty), Some(uncertainty_kind), Some(parity), Some(j), Some(origin), Some(configuration), Some(term)) => {
            let uncertainty_class = match class {
                Some(c) => c,
                None => None,
            };
            Some(Level {
                line: row.line,
                level_id,
                species,
                energy,
                energy_uncertainty,
                uncertainty_kind,
                uncertainty_class,
                parity,
                j,
                origin,
                configuration,
                term,
            })
        },
        _ => None,
    }
}

/// Read every row as a level.
fn level_rows(doc: &Document, cols: &Vec<Option<usize>>, refusals: &mut Refusals) -> (r: Vec<Level>)
    requires
        rows_fit(doc@),
        cols@.len() == 11,
        columns_in_range(doc@, positions(cols@)),
    ensures
        ({
            let want = levels_upto(doc@.3, positions(cols@), doc@.3.len() as int);
            &&& level_views(r@) == want.0
            &&& final(refusals)@ == old(refusals)@ + want.1
        }),
{
    let ghost p = positions(cols@);
    let ghost start = refusals@;
    let mut levels: Vec<Level> = Vec::new();
    let mut seen: Vec<String> = Vec::new();
    let mut k: usize = 0;
    assert(strings(seen@) =~= Seq::<Seq<char>>::empty());
    assert(level_views(levels@) =~= Seq::<crate::spectro_contract::level_set::LevelView>::empty());
    assert(start + Seq::<RefusalView>::empty() =~= start);
    while k < doc.rows.len()
        invariant
            k <= doc@.3.len(),
            p == positions(cols@),
            cols@.len() == 11,
            rows_fit(doc@),
            columns_in_range(doc@, p),
            level_views(levels@) == levels_upto(doc@.3, p, k as int).0,
            refusals@ == start + levels_upto(doc@.3, p, k as int).1,
            strings(seen@) == levels_upto(doc@.3, p, k as int).2,
        decreases doc@.3.len() - k,
    {
        let row = &doc.rows[k];
        assert(doc@.3[k as int] == row@);
        assert(row@.1.len() == doc@.1.len());
        assert forall|i: int| 0 <= i < 11 implies (#[trigger] cols@[i] matches Some(c) ==> c < row@.1.len()) by {
            assert(p[i] == opt_int(cols@[i]));
        }
        let ghost before_levels = level_views(levels@);
        let ghost before_refusals = refusals@;
        let got = level_row(row, cols, &mut seen, refusals);
        match got {
            Some(l) => {
                levels.push(l);
                assert(level_views(levels@) =~= before_levels.push(levels@.last()@));
            },
            None => {},
        }
        assert(refusals@ =~= start + levels_upto(doc@.3, p, k + 1).1);
        k = k + 1;
    }
    levels
}

/// Read a level set from a document that lexed.
fn read_document(doc: &Document) -> (r: Result<LevelSet, Refusals>)
    requires
        rows_fit(doc@),
    ensures
        level_set_outcome(r) == level_set_v(doc@),
{
    let mut refusals = Refusals::new();
    let cv = contract_version(doc, &mut refusals);
    let unit = required_header(doc, &mut refusals, "energy_unit");
    let reference = required_header(doc, &mut refusals, "energy_reference");
    let id = required_header(doc, &mut refusals, "level_set_id");
    let covariance_file = optional_header(doc, "covariance_file");
    let derived = optional_header(doc, "derived_from_line_lists");
    let ghost before_columns = refusals@;
    let names = level_columns();
    assert(level_column_words().len() == 11);
    let cols = required_columns(doc, &mut refusals, names);
    let levels = level_rows(doc, &cols, &mut refusals);
    let unknown_header_fields = doc.headers_outside(level_header_fields());
    let unknown_columns = doc.columns_outside(level_columns());
    let built = match (cv, unit, reference, id) {
        (Some(contract_version), Some(energy_unit), Some(energy_reference), Some(level_set_id)) => Some(LevelSet {
            contract_version,
            energy_unit,
            energy_reference,
            level_set_id,
            covariance_file,
            derived_from_line_lists: derived,
            levels,
            unknown_header_fields,
            unknown_columns,
        }),
        _ => None,
    };
    proof {
        let (cv_s, r0) = contract_version_v(doc@);
        let r1 = required_header_v(doc@, "energy_unit"@).1;
        let r2 = required_header_v(doc@, "energy_reference"@).1;
        let r3 = required_header_v(doc@, "level_set_id"@).1;
        let r4 = columns_v(doc@, level_column_words(), 11).1;
        let r5 = levels_upto(doc@.3, positions(cols@), doc@.3.len() as int).1;
        assert(refusals@ =~= r0 + r1 + r2 + r3 + r4 + r5);
        if built is Some {
            assert(built->0@.levels == levels_upto(doc@.3, positions(cols@), doc@.3.len() as int).0);
        }
    }
    finish(refusals, built)
}

/// Read a level set, or refuse naming every field and line that failed.
pub fn read(bytes: &[u8]) -> (r: Result<LevelSet, Refusals>)
    ensures
        level_set_outcome(r) == read_level_set_v(bytes@),
{
    proof {
        lemma_lexed_rows_fit(bytes@);
    }
    match Document::lex(bytes) {
        Ok(doc) => read_document(&doc),
        Err(e) => Err(e),
    }
}


/// Every refusal names a field or a line.
pub open spec fn all_placed(rs: Seq<RefusalView>) -> bool {
    forall|i: int| 0 <= i < rs.len() ==> (#[trigger] rs[i]).0 is Some || rs[i].1 is Some
}

pub proof fn lemma_placed_join(a: Seq<RefusalView>, b: Seq<RefusalView>)
    requires
        all_placed(a),
        all_placed(b),
    ensures
        all_placed(a + b),
{
    assert forall|i: int| 0 <= i < (a + b).len() implies (#[trigger] (a + b)[i]).0 is Some || (a + b)[i].1 is Some by {
        if i >= a.len() {
            assert((a + b)[i] == b[i - a.len()]);
        } else {
            assert((a + b)[i] == a[i]);
        }
    }
}

pub proof fn lemma_columns_placed(doc: DocumentView, labels: Seq<Seq<char>>, k: int)
    ensures
        all_placed(columns_v(doc, labels, k).1),
    decreases k,
{
    if k > 0 {
        lemma_columns_placed(doc, labels, k - 1);
        let r = crate::spectro_contract::reading::required_column_v(doc, labels[k - 1]).1;
        lemma_placed_join(columns_v(doc, labels, k - 1).1, r);
    }
}
/// Every refusal names the field it is about.
pub open spec fn all_named(rs: Seq<RefusalView>) -> bool {
    forall|i: int| 0 <= i < rs.len() ==> (#[trigger] rs[i]).1 is Some
}

pub proof fn lemma_named_join(a: Seq<RefusalView>, b: Seq<RefusalView>)
    requires
        all_named(a),
        all_named(b),
    ensures
        all_named(a + b),
{
    assert forall|i: int| 0 <= i < (a + b).len() implies (#[trigger] (a + b)[i]).1 is Some by {
        if i >= a.len() {
            assert((a + b)[i] == b[i - a.len()]);
        } else {
            assert((a + b)[i] == a[i]);
        }
    }
}

pub proof fn lemma_columns_named(doc: DocumentView, labels: Seq<Seq<char>>, k: int)
    ensures
        all_named(columns_v(doc, labels, k).1),
    decreases k,
{
    if k > 0 {
        lemma_columns_named(doc, labels, k - 1);
        let r = crate::spectro_contract::reading::required_column_v(doc, labels[k - 1]).1;
        lemma_named_join(columns_v(doc, labels, k - 1).1, r);
    }
}


proof fn lemma_row_placed(row: RowView, cols: Seq<Option<int>>, seen: Seq<Seq<char>>)
    ensures
        all_named(level_row_v(row, cols, seen).1),
{
    let (_, r1) = level_id_v(row, cols[0], seen);
    let (_, r2) = required_under(row, cols[1], "species"@);
    let (_, r3) = number_under(row, cols[2], "energy"@);
    let (_, r4) = uncertainty_under(row, cols[3], "energy_uncertainty"@);
    assert(all_named(r1));
    assert(all_named(r2));
    assert(all_named(r3));
    assert(all_named(r4));
    lemma_named_join(r1, r2);
    lemma_named_join(r1 + r2, r3);
    lemma_named_join(r1 + r2 + r3, r4);
    let (kind, r5) = vocabulary_under(row, cols[4], "uncertainty_kind"@, uncertainty_kind_words());
    let (_, r6) = class_under(row, cols[5], kind);
    let (_, r7) = vocabulary_under(row, cols[6], "parity"@, parity_words());
    let (_, r8) = j_under(row, cols[7]);
    let (_, r9) = vocabulary_under(row, cols[8], "origin"@, origin_words());
    assert(all_named(r5));
    assert(all_named(r6));
    assert(all_named(r7));
    assert(all_named(r8));
    assert(all_named(r9));
    lemma_named_join(r5, r6);
    lemma_named_join(r5 + r6, r7);
    lemma_named_join(r5 + r6 + r7, r8);
    lemma_named_join(r5 + r6 + r7 + r8, r9);
    lemma_named_join(level_head_v(row, cols, seen).refusals, level_tail_v(row, cols).refusals);
}

proof fn lemma_rows_placed(rows: Seq<RowView>, cols: Seq<Option<int>>, k: int)
    ensures
        all_named(levels_upto(rows, cols, k).1),
    decreases k,
{
    if k > 0 {
        lemma_rows_placed(rows, cols, k - 1);
        let (_, rs, seen) = levels_upto(rows, cols, k - 1);
        lemma_row_placed(rows[k - 1], cols, seen);
        lemma_named_join(rs, level_row_v(rows[k - 1], cols, seen).1);
    }
}

proof fn lemma_headers_placed(doc: DocumentView)
    ensures
        ({
            let (cv, r0) = contract_version_v(doc);
            let (unit, r1) = required_header_v(doc, "energy_unit"@);
            let (reference, r2) = required_header_v(doc, "energy_reference"@);
            let (id, r3) = required_header_v(doc, "level_set_id"@);
            &&& all_named(r0 + r1 + r2 + r3)
            &&& (cv is None || unit is None || reference is None || id is None) ==> (r0 + r1 + r2 + r3).len() > 0
        }),
{
    let (cv, r0) = contract_version_v(doc);
    let (unit, r1) = required_header_v(doc, "energy_unit"@);
    let (reference, r2) = required_header_v(doc, "energy_reference"@);
    let (id, r3) = required_header_v(doc, "level_set_id"@);
    assert(all_named(r0));
    assert(all_named(r1));
    assert(all_named(r2));
    assert(all_named(r3));
    lemma_named_join(r0, r1);
    lemma_named_join(r0 + r1, r2);
    lemma_named_join(r0 + r1 + r2, r3);
    assert(cv is None ==> r0.len() == 1);
    assert(unit is None ==> r1.len() == 1);
    assert(reference is None ==> r2.len() == 1);
    assert(id is None ==> r3.len() == 1);
}

#[verifier::spinoff_prover]
proof fn lemma_document_placed(doc: DocumentView)
    ensures
        level_set_v(doc) matches Err(rs) ==> all_named(rs),
{
    let r0 = contract_version_v(doc).1;
    let r1 = required_header_v(doc, "energy_unit"@).1;
    let r2 = required_header_v(doc, "energy_reference"@).1;
    let r3 = required_header_v(doc, "level_set_id"@).1;
    let (cols, r4) = columns_v(doc, level_column_words(), 11);
    let r5 = levels_upto(doc.3, cols, doc.3.len() as int).1;
    lemma_headers_placed(doc);
    lemma_columns_named(doc, level_column_words(), 11);
    lemma_rows_placed(doc.3, cols, doc.3.len() as int);
    lemma_named_join(r0 + r1 + r2 + r3, r4);
    lemma_named_join(r0 + r1 + r2 + r3 + r4, r5);
    assert((r0 + r1 + r2 + r3).len() > 0 ==> (r0 + r1 + r2 + r3 + r4 + r5).len() > 0);
}

/// A level set is refused, where it is refused, only with refusals that each
/// name the field they are about, once it has lexed. A file refused as a
/// whole before any line of it is read (bytes that are not UTF-8, a UTF-16
/// byte order mark, no label row) or for a lexical fault of one line is
/// refused with what the lexer says, which names a line where it names no
/// field; where every such refusal names a place, every refusal does.
pub proof fn law_every_level_refusal_names_a_place(bytes: Seq<u8>)
    ensures
        lex_bytes(bytes) is Ok ==> (read_level_set_v(bytes) matches Err(rs) ==> all_named(rs)),
        (match lex_bytes(bytes) {
            Ok(_) => true,
            Err(e) => all_placed(e),
        }) ==> (read_level_set_v(bytes) matches Err(rs) ==> all_placed(rs)),
{
    if let Ok(doc) = lex_bytes(bytes) {
        lemma_document_placed(doc);
        if let Err(rs) = level_set_v(doc) {
            assert forall|i: int| 0 <= i < rs.len() implies (#[trigger] rs[i]).0 is Some || rs[i].1 is Some by {
                assert(rs[i].1 is Some);
            }
        }
    }
}

} // verus!
