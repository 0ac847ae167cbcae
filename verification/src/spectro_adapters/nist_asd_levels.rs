//! The levels export of the NIST Atomic Spectra Database.
//!
//! Every column is found by its label and never by its position: one query,
//! changed only in the species, does not answer with one column layout.
//!
//! The species is what the operator asked for and arrives beside the file. The
//! levels stand with respect to the ground level at zero, which the source
//! states for every export. An ionisation limit, a level on a system with no
//! established connection to the rest of the spectrum, and a term listed
//! without a level value are not levels of this species: each is reported
//! rather than emitted. Whether a level was measured is read from the `Prefix`
//! column, parity from the asterisk of the term, and every uncertainty is a
//! standard deviation; an empty uncertainty becomes `none`. A J naming several
//! values becomes `unknown` and the cell is reported, as is an annotation the
//! contract has no field for.
use vstd::prelude::*;
use crate::spectro_adapters::export::{
    begins_with, blank_export_line, check_naming, equals, find_from, first_beginning, first_equal,
    has_char, naming_check_v, strip_cr, trim, trim_v, unquote, unquote_v, without_cr,
};
use crate::spectro_adapters::nist_asd_lines::{carriage_return_in_unit, not_taken_views, NotTaken, NotTakenView};
use crate::spectro_contract::reading::column_index;
use crate::spectro_contract::refusal::{
    field_on_line_v, in_file_v, on_line_v, Refusal, RefusalView, Refusals,
};
use crate::spectro_contract::value::{half_integer_of, HalfInteger};
use crate::text::{
    append, append_chars, chars_of, decimal, decimal_string, is_text, owned, quote, quoted,
    slice_of, split, split_chars, split_once, split_once_exec, string_of, texts,
};

verus! {

/// What the export does not say and the operator has to.
#[derive(Debug, PartialEq, Eq)]
pub struct Naming {
    pub species: String,
    pub level_set_id: String,
}

/// Where one field of the contract's level set comes from, for this upstream.
#[derive(Debug, Clone, Copy, PartialEq, Eq)]
pub enum Source {
    /// A column of the export, under the label given.
    Column(&'static str),
    /// The operator supplies it, because the export does not carry it.
    Operator,
    /// Fixed here, for the reason given, from something the source states
    /// about every export it emits rather than from a cell.
    Fixed(&'static str),
    /// The column is emitted because the contract requires the column, and
    /// this upstream never fills it.
    Empty(&'static str),
    /// This upstream does not give it and nothing here invents one, so the
    /// emitted file does not carry the field at all.
    Unavailable(&'static str),
}

/// Every field of the contract's level set, and where this upstream's value
/// for it comes from.
pub open spec fn field_table() -> Seq<(&'static str, Source)> {
    seq![
        ("contract_version", Source::Fixed("the contract version this module emits")),
        ("energy_unit", Source::Column("Level (<unit>)")),
        ("energy_reference", Source::Fixed("the source states that its levels stand with respect to the ground level at zero")),
        ("level_set_id", Source::Operator),
        ("covariance_file", Source::Unavailable("the export carries no covariance between level energies, so every run built on it falls to the declared correlation default")),
        ("derived_from_line_lists", Source::Unavailable("the export does not say which line list the fit that produced these levels consumed, so the circularity disclosure cannot be made from it")),
        ("level_id", Source::Fixed("the line of the export the level was read from")),
        ("species", Source::Operator),
        ("energy", Source::Column("Level (<unit>)")),
        ("energy_uncertainty", Source::Column("Uncertainty (<unit>)")),
        ("uncertainty_kind", Source::Fixed("the source states that every uncertainty it gives is one standard deviation")),
        ("uncertainty_class", Source::Empty("this upstream states its level uncertainties as numbers and grades none of them, so no row carries a class")),
        ("parity", Source::Column("Term")),
        ("j", Source::Column("J")),
        ("origin", Source::Column("Prefix")),
        ("configuration", Source::Column("Configuration")),
        ("term", Source::Column("Term")),
    ]
}

/// Every field of the contract's level set, and what this upstream supplies
/// for each one.
pub fn fields() -> (r: Vec<(&'static str, Source)>)
    ensures
        r@ == field_table(),
{
    let mut v: Vec<(&'static str, Source)> = Vec::new();
    v.push(("contract_version", Source::Fixed("the contract version this module emits")));
    v.push(("energy_unit", Source::Column("Level (<unit>)")));
    v.push(("energy_reference", Source::Fixed("the source states that its levels stand with respect to the ground level at zero")));
    v.push(("level_set_id", Source::Operator));
    v.push(("covariance_file", Source::Unavailable("the export carries no covariance between level energies, so every run built on it falls to the declared correlation default")));
    v.push(("derived_from_line_lists", Source::Unavailable("the export does not say which line list the fit that produced these levels consumed, so the circularity disclosure cannot be made from it")));
    v.push(("level_id", Source::Fixed("the line of the export the level was read from")));
    v.push(("species", Source::Operator));
    v.push(("energy", Source::Column("Level (<unit>)")));
    v.push(("energy_uncertainty", Source::Column("Uncertainty (<unit>)")));
    v.push(("uncertainty_kind", Source::Fixed("the source states that every uncertainty it gives is one standard deviation")));
    v.push(("uncertainty_class", Source::Empty("this upstream states its level uncertainties as numbers and grades none of them, so no row carries a class")));
    v.push(("parity", Source::Column("Term")));
    v.push(("j", Source::Column("J")));
    v.push(("origin", Source::Column("Prefix")));
    v.push(("configuration", Source::Column("Configuration")));
    v.push(("term", Source::Column("Term")));
    assert(v@ =~= field_table());
    v
}

/// `Level (cm-1)` into the unit the file states its energies in.
pub open spec fn unit_in_brackets_v(label: Seq<char>) -> Result<Seq<char>, Seq<char>> {
    match split_once(label, '(') {
        None => Err(quoted(label) + " names no unit in brackets"@),
        Some((_, rest)) => if rest.len() == 0 || rest.last() != ')' {
            Err(quoted(label) + " does not close the bracket around its unit"@)
        } else if rest.len() == 1 {
            Err(quoted(label) + " brackets an empty unit"@)
        } else {
            Ok(rest.drop_last())
        },
    }
}

fn unit_in_brackets(label: &[char]) -> (r: Result<Vec<char>, String>)
    ensures
        match (r, unit_in_brackets_v(label@)) {
            (Ok(a), Ok(b)) => a@ == b,
            (Err(a), Err(b)) => a@ == b,
            _ => false,
        },
{
    match split_once_exec(label, '(') {
        None => {
            let mut m = quote(label);
            append(&mut m, " names no unit in brackets");
            Err(m)
        },
        Some((_, rest)) => {
            if rest.len() == 0 || rest[rest.len() - 1] != ')' {
                let mut m = quote(label);
                append(&mut m, " does not close the bracket around its unit");
                Err(m)
            } else if rest.len() == 1 {
                let mut m = quote(label);
                append(&mut m, " brackets an empty unit");
                Err(m)
            } else {
                let unit = slice_of(rest.as_slice(), 0, rest.len() - 1);
                assert(unit@ =~= rest@.drop_last());
                Ok(unit)
            }
        },
    }
}

/// The header row, read as a set of labelled columns, as plain values.
pub struct ColumnsView {
    pub unit: Seq<char>,
    pub width: nat,
    pub configuration: int,
    pub term: int,
    pub j: int,
    pub prefix: int,
    pub suffix: int,
    pub level: int,
    pub uncertainty: Option<int>,
}

pub open spec fn no_level_column() -> Seq<char> {
    "this header row labels no level column, so the export was retrieved without level values"@
}

pub open spec fn no_column(label: Seq<char>, cost: Seq<char>) -> Seq<char> {
    "the export carries no `"@ + label + "` column, "@ + cost
}

pub open spec fn term_cost() -> Seq<char> {
    "so no row would state a parity, and every level would arrive as though its parity had never been determined"@
}

pub open spec fn j_cost() -> Seq<char> {
    "and a level set with no J column is refused by the contract rather than read"@
}

pub open spec fn prefix_cost() -> Seq<char> {
    "so nothing would separate a calculated energy from a measured one, and every level would arrive as measured"@
}

pub open spec fn suffix_cost() -> Seq<char> {
    "so a level standing on an unestablished connection to the rest of the spectrum could not be told from one on the file's own reference"@
}

pub open spec fn configuration_cost() -> Seq<char> {
    "and an empty configuration is a level the source gave no label for, which is not the same statement"@
}

pub open spec fn other_unit(found: Seq<char>, unit: Seq<char>) -> Seq<char> {
    "the uncertainty column is in "@ + quoted(found) + " and the level column is in "@ + quoted(unit)
        + ", and an uncertainty in another unit is not this level's uncertainty"@
}

/// One required column: where it is, or what its absence is refused for.
pub open spec fn required_v(cells: Seq<Seq<char>>, line: usize, label: Seq<char>, cost: Seq<char>) -> (Option<int>, Seq<RefusalView>) {
    match find_from(cells, equals(label), 0) {
        Some(c) => (Some(c), Seq::empty()),
        None => (None, seq![field_on_line_v(line, label, no_column(label, cost))]),
    }
}

/// The level column and the unit it names, and what either is refused for.
pub open spec fn level_unit_v(cells: Seq<Seq<char>>, line: usize) -> (Option<int>, Option<Seq<char>>, Seq<RefusalView>) {
    match find_from(cells, begins_with("Level ("@), 0) {
        None => (None, None, seq![field_on_line_v(line, "Level"@, no_level_column())]),
        Some(c) => match unit_in_brackets_v(cells[c]) {
            Ok(u) => if u.contains('\r') {
                (Some(c), None, seq![field_on_line_v(line, "Level"@, quoted(cells[c]) + carriage_return_in_unit())])
            } else {
                (Some(c), Some(u), Seq::empty())
            },
            Err(m) => (Some(c), None, seq![field_on_line_v(line, "Level"@, m)]),
        },
    }
}

/// What the uncertainty column is refused for against the level's unit.
pub open spec fn uncertainty_unit_v(cells: Seq<Seq<char>>, line: usize, unit: Option<Seq<char>>) -> (Option<int>, Seq<RefusalView>) {
    let c = find_from(cells, begins_with("Uncertainty ("@), 0);
    (
        c,
        match (c, unit) {
            (Some(col), Some(u)) => match unit_in_brackets_v(cells[col]) {
                Ok(found) => if found == u {
                    Seq::empty()
                } else {
                    seq![field_on_line_v(line, "Uncertainty"@, other_unit(found, u))]
                },
                Err(m) => seq![field_on_line_v(line, "Uncertainty"@, m)],
            },
            _ => Seq::empty(),
        },
    )
}

/// The header row read as columns, or everything it is refused for.
pub open spec fn columns_read_v(cells: Seq<Seq<char>>, line: usize) -> Result<ColumnsView, Seq<RefusalView>> {
    let (level, unit, r1) = level_unit_v(cells, line);
    let (term, r2) = required_v(cells, line, "Term"@, term_cost());
    let (j, r3) = required_v(cells, line, "J"@, j_cost());
    let (prefix, r4) = required_v(cells, line, "Prefix"@, prefix_cost());
    let (suffix, r5) = required_v(cells, line, "Suffix"@, suffix_cost());
    let (configuration, r6) = required_v(cells, line, "Configuration"@, configuration_cost());
    let (uncertainty, r7) = uncertainty_unit_v(cells, line, unit);
    let all = r1 + r2 + r3 + r4 + r5 + r6 + r7;
    if unit is Some && level is Some && term is Some && j is Some && prefix is Some && suffix is Some
        && configuration is Some && all.len() == 0 {
        Ok(ColumnsView {
            unit: unit.unwrap(),
            width: cells.len(),
            configuration: configuration.unwrap(),
            term: term.unwrap(),
            j: j.unwrap(),
            prefix: prefix.unwrap(),
            suffix: suffix.unwrap(),
            level: level.unwrap(),
            uncertainty,
        })
    } else {
        Err(all)
    }
}

/// The header row, read as a set of labelled columns.
struct Columns {
    unit: Vec<char>,
    width: usize,
    configuration: usize,
    term: usize,
    j: usize,
    prefix: usize,
    suffix: usize,
    level: usize,
    uncertainty: Option<usize>,
}

impl View for Columns {
    type V = ColumnsView;

    closed spec fn view(&self) -> ColumnsView {
        ColumnsView {
            unit: self.unit@,
            width: self.width as nat,
            configuration: self.configuration as int,
            term: self.term as int,
            j: self.j as int,
            prefix: self.prefix as int,
            suffix: self.suffix as int,
            level: self.level as int,
            uncertainty: column_index(self.uncertainty),
        }
    }
}

/// Every column the read found lies within the row it was read from.
pub open spec fn columns_fit(c: ColumnsView) -> bool {
    &&& 0 <= c.configuration < c.width
    &&& 0 <= c.term < c.width
    &&& 0 <= c.j < c.width
    &&& 0 <= c.prefix < c.width
    &&& 0 <= c.suffix < c.width
    &&& 0 <= c.level < c.width
    &&& (c.uncertainty matches Some(u) ==> 0 <= u < c.width)
}

proof fn lemma_find_in_range(cells: Seq<Seq<char>>, pred: spec_fn(Seq<char>) -> bool, i: int)
    requires
        0 <= i,
    ensures
        find_from(cells, pred, i) matches Some(c) ==> i <= c < cells.len() && pred(cells[c]),
    decreases cells.len() - i,
{
    if i < cells.len() && !pred(cells[i]) {
        lemma_find_in_range(cells, pred, i + 1);
    }
}

fn required(refusals: &mut Refusals, cells: &Vec<Vec<char>>, line: usize, label: &str, cost: &str) -> (r: Option<usize>)
    ensures
        ({
            let want = required_v(texts(cells@), line, label@, cost@);
            &&& column_index(r) == want.0
            &&& final(refusals)@ == old(refusals)@ + want.1
            &&& r matches Some(c) ==> c < cells@.len()
        }),
{
    match first_equal(cells, label) {
        Some(c) => {
            assert(old(refusals)@ + Seq::<RefusalView>::empty() =~= old(refusals)@);
            Some(c)
        },
        None => {
            let mut m = owned("the export carries no `");
            append(&mut m, label);
            append(&mut m, "` column, ");
            append(&mut m, cost);
            refusals.push(Refusal::field_on_line(line, owned(label), m));
            None
        },
    }
}

fn level_unit(refusals: &mut Refusals, cells: &Vec<Vec<char>>, line: usize) -> (r: (Option<usize>, Option<Vec<char>>))
    ensures
        ({
            let want = level_unit_v(texts(cells@), line);
            &&& column_index(r.0) == want.0
            &&& match r.1 {
                Some(u) => want.1 == Some(u@),
                None => want.1 is None,
            }
            &&& final(refusals)@ == old(refusals)@ + want.2
            &&& r.0 matches Some(c) ==> c < cells@.len()
        }),
{
    match first_beginning(cells, "Level (") {
        None => {
            refusals.push(Refusal::field_on_line(line, owned("Level"), owned("this header row labels no level column, so the export was retrieved without level values")));
            (None, None)
        },
        Some(c) => {
            assert(texts(cells@)[c as int] == cells@[c as int]@);
            match unit_in_brackets(cells[c].as_slice()) {
                Ok(u) => {
                    if crate::spectro_adapters::export::has_char(u.as_slice(), '\r') {
                        let mut m = quote(cells[c].as_slice());
                        append(&mut m, " carries a carriage return in its unit, which a line of the emitted file may not");
                        refusals.push(Refusal::field_on_line(line, owned("Level"), m));
                        return (Some(c), None);
                    }
                    assert(old(refusals)@ + Seq::<RefusalView>::empty() =~= old(refusals)@);
                    (Some(c), Some(u))
                },
                Err(m) => {
                    refusals.push(Refusal::field_on_line(line, owned("Level"), m));
                    (Some(c), None)
                },
            }
        },
    }
}

fn uncertainty_unit(refusals: &mut Refusals, cells: &Vec<Vec<char>>, line: usize, unit: &Option<Vec<char>>) -> (r: Option<usize>)
    ensures
        ({
            let u = match unit {
                Some(x) => Some(x@),
                None => None,
            };
            let want = uncertainty_unit_v(texts(cells@), line, u);
            &&& column_index(r) == want.0
            &&& final(refusals)@ == old(refusals)@ + want.1
            &&& r matches Some(c) ==> c < cells@.len()
        }),
{
    let c = first_beginning(cells, "Uncertainty (");
    assert(old(refusals)@ + Seq::<RefusalView>::empty() =~= old(refusals)@);
    match (c, unit) {
        (Some(col), Some(u)) => {
            assert(texts(cells@)[col as int] == cells@[col as int]@);
            match unit_in_brackets(cells[col].as_slice()) {
                Ok(found) => {
                    if !crate::text::same_chars(found.as_slice(), u.as_slice()) {
                        let mut m = owned("the uncertainty column is in ");
                        let qf = quote(found.as_slice());
                        append(&mut m, qf.as_str());
                        append(&mut m, " and the level column is in ");
                        let qu = quote(u.as_slice());
                        append(&mut m, qu.as_str());
                        append(&mut m, ", and an uncertainty in another unit is not this level's uncertainty");
                        refusals.push(Refusal::field_on_line(line, owned("Uncertainty"), m));
                    }
                },
                Err(m) => {
                    refusals.push(Refusal::field_on_line(line, owned("Uncertainty"), m));
                },
            }
        },
        _ => {},
    }
    c
}

spec fn columns_outcome(r: Result<Columns, Refusals>) -> Result<ColumnsView, Seq<RefusalView>> {
    match r {
        Ok(c) => Ok(c@),
        Err(e) => Err(e@),
    }
}

impl Columns {
    fn read(cells: &Vec<Vec<char>>, line: usize) -> (r: Result<Columns, Refusals>)
        ensures
            columns_outcome(r) == columns_read_v(texts(cells@), line),
            r matches Ok(c) ==> columns_fit(c@) && c@.width == cells@.len(),
    {
        let ghost t = texts(cells@);
        let mut refusals = Refusals::new();
        let (level, unit) = level_unit(&mut refusals, cells, line);
        let term = required(&mut refusals, cells, line, "Term", "so no row would state a parity, and every level would arrive as though its parity had never been determined");
        let j = required(&mut refusals, cells, line, "J", "and a level set with no J column is refused by the contract rather than read");
        let prefix = required(&mut refusals, cells, line, "Prefix", "so nothing would separate a calculated energy from a measured one, and every level would arrive as measured");
        let suffix = required(&mut refusals, cells, line, "Suffix", "so a level standing on an unestablished connection to the rest of the spectrum could not be told from one on the file's own reference");
        let configuration = required(&mut refusals, cells, line, "Configuration", "and an empty configuration is a level the source gave no label for, which is not the same statement");
        let uncertainty = uncertainty_unit(&mut refusals, cells, line, &unit);
        proof {
            let (l1, u1, r1) = level_unit_v(t, line);
            let r2 = required_v(t, line, "Term"@, term_cost()).1;
            let r3 = required_v(t, line, "J"@, j_cost()).1;
            let r4 = required_v(t, line, "Prefix"@, prefix_cost()).1;
            let r5 = required_v(t, line, "Suffix"@, suffix_cost()).1;
            let r6 = required_v(t, line, "Configuration"@, configuration_cost()).1;
            let r7 = uncertainty_unit_v(t, line, u1).1;
            assert(refusals@ =~= r1 + r2 + r3 + r4 + r5 + r6 + r7);
        }
        match (unit, level, term, j, prefix, suffix, configuration) {
            (Some(unit), Some(level), Some(term), Some(j), Some(prefix), Some(suffix), Some(configuration)) => {
                if refusals.is_empty() {
                    Ok(Columns { unit, width: cells.len(), configuration, term, j, prefix, suffix, level, uncertainty })
                } else {
                    Err(refusals)
                }
            },
            _ => Err(refusals),
        }
    }
}


/// A cell, unquoted and with the padding an export writes taken off; empty
/// where there is no such column.
pub open spec fn cell_v(cells: Seq<Seq<char>>, col: Option<int>) -> Seq<char> {
    match col {
        Some(c) => if 0 <= c < cells.len() {
            trim_v(unquote_v(cells[c]))
        } else {
            Seq::empty()
        },
        None => Seq::empty(),
    }
}

fn cell(cells: &Vec<Vec<char>>, col: Option<usize>) -> (r: Vec<char>)
    ensures
        r@ == cell_v(texts(cells@), column_index(col)),
{
    match col {
        Some(c) => {
            if c < cells.len() {
                assert(texts(cells@)[c as int] == cells@[c as int]@);
                let u = unquote(cells[c].as_slice());
                trim(u.as_slice())
            } else {
                Vec::new()
            }
        },
        None => Vec::new(),
    }
}

/// The term without the question marks at its end.
pub open spec fn without_doubt(t: Seq<char>) -> Seq<char>
    decreases t.len(),
{
    if t.len() > 0 && t.last() == '?' {
        without_doubt(t.drop_last())
    } else {
        t
    }
}

/// Parity, from the asterisk at the end of the term label.
pub open spec fn parity_of(term: Seq<char>) -> Seq<char> {
    let t = without_doubt(term);
    if t.len() == 0 {
        "unknown"@
    } else if t.last() == '*' {
        "odd"@
    } else {
        "even"@
    }
}

fn parity(term: &[char]) -> (r: &'static str)
    ensures
        r@ == parity_of(term@),
{
    let mut b: usize = term.len();
    assert(term@.subrange(0, b as int) =~= term@);
    while b > 0 && term[b - 1] == '?'
        invariant
            b <= term.len(),
            without_doubt(term@) == without_doubt(term@.subrange(0, b as int)),
        decreases b,
    {
        assert(term@.subrange(0, b as int).drop_last() =~= term@.subrange(0, b - 1));
        b = b - 1;
    }
    if b == 0 {
        "unknown"
    } else if term[b - 1] == '*' {
        "odd"
    } else {
        "even"
    }
}

pub open spec fn limit_reason() -> Seq<char> {
    "is an ionisation limit, which the source gives as the ground level of the next ion rather than as a level of this spectrum"@
}

pub open spec fn unconnected_reason() -> Seq<char> {
    "stands on a system of levels the source states has no established connection to the rest of the spectrum, so its value is not on the reference this file declares"@
}

pub open spec fn no_level_reason() -> Seq<char> {
    "is a term the source lists without a level value"@
}

pub open spec fn annotation_reason() -> Seq<char> {
    "is an annotation the source appends to a level value, and a conforming level set carries no field for one"@
}

pub open spec fn j_reason() -> Seq<char> {
    "names no single J, and choosing one of the values the source offers would be this module inventing the field"@
}

pub open spec fn width_reason(cells: nat, width: nat) -> Seq<char> {
    "this row carries "@ + decimal(cells) + " cell(s) and the header row labels "@ + decimal(width)
        + ", so nothing says which column any of them is in"@
}

/// What a level value is refused for where it is not a finite number.
pub open spec fn energy_check_v(level: Seq<char>, line: usize) -> Seq<RefusalView> {
    if crate::number::is_finite_number(level) {
        Seq::empty()
    } else {
        seq![field_on_line_v(line, "energy"@, quoted(level) + " is not a number this reader can carry as a level energy"@)]
    }
}

/// Measured or predicted, from the prefix.
pub open spec fn origin_v(prefix: Seq<char>, line: usize) -> (Seq<char>, Seq<RefusalView>) {
    if prefix.len() == 0 {
        ("measured"@, Seq::empty())
    } else if prefix == "["@ || prefix == "("@ {
        ("predicted"@, Seq::empty())
    } else {
        (
            "measured"@,
            seq![field_on_line_v(line, "origin"@, quoted(prefix) + " is a level prefix this reader does not know, and reading it as a bare value would put a calculated energy into the objective as a measurement"@)],
        )
    }
}

/// A suffix that is neither empty nor the closing half of a bracket, reported.
pub open spec fn annotation_v(suffix: Seq<char>, line: usize) -> Seq<NotTakenView> {
    if suffix.len() == 0 || suffix == "]"@ || suffix == ")"@ {
        Seq::empty()
    } else {
        seq![(line, "Suffix"@, suffix, annotation_reason())]
    }
}

/// The uncertainty as it is emitted: `none` where the cell is empty.
pub open spec fn uncertainty_text_v(declared: Seq<char>, line: usize) -> (Seq<char>, Seq<RefusalView>) {
    if declared.len() == 0 {
        ("none"@, Seq::empty())
    } else if crate::number::is_finite_number(declared) {
        (declared, Seq::empty())
    } else {
        (
            "none"@,
            seq![field_on_line_v(line, "energy_uncertainty"@, quoted(declared) + " is not a number, and an absent uncertainty is an empty cell"@)],
        )
    }
}

/// J as it is emitted: `unknown` where the cell is empty or names no single
/// half-integer, and the cell reported in the second case.
pub open spec fn j_text_v(j: Seq<char>, line: usize) -> (Seq<char>, Seq<NotTakenView>) {
    if j.len() == 0 {
        ("unknown"@, Seq::empty())
    } else if half_integer_of(j) is Ok {
        (j, Seq::empty())
    } else {
        ("unknown"@, seq![(line, "J"@, j, j_reason())])
    }
}

/// A value that would break the cell it is written into.
pub open spec fn tab_check_v(field: Seq<char>, value: Seq<char>, line: usize) -> Seq<RefusalView> {
    if value.contains('\t') || value.contains('\r') {
        seq![field_on_line_v(line, field, quoted(value) + " carries a tab or a carriage return, which a cell may not"@)]
    } else {
        Seq::empty()
    }
}

/// One emitted row: the export's own line as the identifier, then the fields
/// in label order.
pub open spec fn level_row_text(line: usize, species: Seq<char>, level: Seq<char>, unc: Seq<char>, parity: Seq<char>, j: Seq<char>, origin: Seq<char>, configuration: Seq<char>, term: Seq<char>) -> Seq<char> {
    "l"@ + decimal(line as nat) + "\t"@ + species + "\t"@ + level + "\t"@ + unc + "\tstandard_deviation\t\t"@ + parity
        + "\t"@ + j + "\t"@ + origin + "\t"@ + configuration + "\t"@ + term
}

/// A row that holds a level of this species, read: the emitted row or what it
/// is refused for, and what it reports.
pub open spec fn entry_v(c: ColumnsView, cells: Seq<Seq<char>>, line: usize, species: Seq<char>) -> (Result<Seq<char>, Seq<RefusalView>>, Seq<NotTakenView>) {
    let term = cell_v(cells, Some(c.term));
    let suffix = cell_v(cells, Some(c.suffix));
    let level = cell_v(cells, Some(c.level));
    let r1 = energy_check_v(level, line);
    let (origin, r2) = origin_v(cell_v(cells, Some(c.prefix)), line);
    let n1 = annotation_v(suffix, line);
    let (unc, r3) = uncertainty_text_v(cell_v(cells, c.uncertainty), line);
    let (j, n2) = j_text_v(cell_v(cells, Some(c.j)), line);
    let configuration = cell_v(cells, Some(c.configuration));
    let r4 = tab_check_v("configuration"@, configuration, line) + tab_check_v("term"@, term, line);
    let refusals = r1 + r2 + r3 + r4;
    (
        if refusals.len() > 0 {
            Err(refusals)
        } else {
            Ok(level_row_text(line, species, level, unc, parity_of(term), j, origin, configuration, term))
        },
        n1 + n2,
    )
}

/// One data row: a level, nothing where the row holds no level of this
/// species, or what it is refused for; and what it reports.
pub open spec fn row_v(c: ColumnsView, cells: Seq<Seq<char>>, line: usize, species: Seq<char>) -> (Result<Option<Seq<char>>, Seq<RefusalView>>, Seq<NotTakenView>) {
    if cells.len() != c.width {
        (Err(seq![on_line_v(line, width_reason(cells.len(), c.width))]), Seq::empty())
    } else {
        let term = cell_v(cells, Some(c.term));
        let suffix = cell_v(cells, Some(c.suffix));
        let level = cell_v(cells, Some(c.level));
        if term == "Limit"@ {
            (Ok(None), seq![(line, "Term"@, level, limit_reason())])
        } else if suffix.contains('+') {
            (Ok(None), seq![(line, "Suffix"@, level + suffix, unconnected_reason())])
        } else if level.len() == 0 {
            (Ok(None), seq![(line, "Level"@, term, no_level_reason())])
        } else {
            let (e, n) = entry_v(c, cells, line, species);
            (
                match e {
                    Ok(t) => Ok(Some(t)),
                    Err(r) => Err(r),
                },
                n,
            )
        }
    }
}

fn not_taken(line: usize, column: &str, value: Vec<char>, reason: &str) -> (r: NotTaken)
    ensures
        r@ == (line, column@, value@, reason@),
{
    NotTaken { line, column: owned(column), value: string_of(value.as_slice()), reason: owned(reason) }
}

fn energy_check(level: &[char], line: usize, refusals: &mut Refusals)
    ensures
        final(refusals)@ == old(refusals)@ + energy_check_v(level@, line),
{
    if crate::number::finite_number(level) {
        assert(old(refusals)@ + Seq::<RefusalView>::empty() =~= old(refusals)@);
    } else {
        let mut m = quote(level);
        append(&mut m, " is not a number this reader can carry as a level energy");
        refusals.push(Refusal::field_on_line(line, owned("energy"), m));
    }
}

fn origin(prefix: &[char], line: usize, refusals: &mut Refusals) -> (r: &'static str)
    ensures
        r@ == origin_v(prefix@, line).0,
        final(refusals)@ == old(refusals)@ + origin_v(prefix@, line).1,
{
    assert(old(refusals)@ + Seq::<RefusalView>::empty() =~= old(refusals)@);
    if prefix.len() == 0 {
        "measured"
    } else if is_text(prefix, "[") || is_text(prefix, "(") {
        "predicted"
    } else {
        let mut m = quote(prefix);
        append(&mut m, " is a level prefix this reader does not know, and reading it as a bare value would put a calculated energy into the objective as a measurement");
        refusals.push(Refusal::field_on_line(line, owned("origin"), m));
        "measured"
    }
}

fn uncertainty_text(declared: &[char], line: usize, refusals: &mut Refusals) -> (r: Vec<char>)
    ensures
        r@ == uncertainty_text_v(declared@, line).0,
        final(refusals)@ == old(refusals)@ + uncertainty_text_v(declared@, line).1,
{
    assert(old(refusals)@ + Seq::<RefusalView>::empty() =~= old(refusals)@);
    if declared.len() == 0 {
        chars_of("none")
    } else if crate::number::finite_number(declared) {
        slice_of(declared, 0, declared.len())
    } else {
        let mut m = quote(declared);
        append(&mut m, " is not a number, and an absent uncertainty is an empty cell");
        refusals.push(Refusal::field_on_line(line, owned("energy_uncertainty"), m));
        chars_of("none")
    }
}

fn j_text(j: &[char], line: usize, reports: &mut Vec<NotTaken>) -> (r: Vec<char>)
    ensures
        r@ == j_text_v(j@, line).0,
        not_taken_views(final(reports)@) == not_taken_views(old(reports)@) + j_text_v(j@, line).1,
{
    assert(not_taken_views(old(reports)@) + Seq::<NotTakenView>::empty() =~= not_taken_views(old(reports)@));
    if j.len() == 0 {
        return chars_of("unknown");
    }
    let text = string_of(j);
    match HalfInteger::parse(text.as_str()) {
        Ok(_) => slice_of(j, 0, j.len()),
        Err(_) => {
            let ghost before = not_taken_views(reports@);
            let v = slice_of(j, 0, j.len());
            assert(v@ =~= j@);
            reports.push(not_taken(line, "J", v, "names no single J, and choosing one of the values the source offers would be this module inventing the field"));
            assert(not_taken_views(reports@) =~= before.push((line, "J"@, j@, j_reason())));
            chars_of("unknown")
        },
    }
}

fn tab_check(field: &str, value: &[char], line: usize, refusals: &mut Refusals)
    ensures
        final(refusals)@ == old(refusals)@ + tab_check_v(field@, value@, line),
{
    if has_char(value, '\t') || has_char(value, '\r') {
        let mut m = quote(value);
        append(&mut m, " carries a tab or a carriage return, which a cell may not");
        refusals.push(Refusal::field_on_line(line, owned(field), m));
    } else {
        assert(old(refusals)@ + Seq::<RefusalView>::empty() =~= old(refusals)@);
    }
}


fn row_text(line: usize, species: &String, level: &[char], unc: &[char], parity: &str, j: &[char], origin: &str, configuration: &[char], term: &[char]) -> (r: String)
    ensures
        r@ == level_row_text(line, species@, level@, unc@, parity@, j@, origin@, configuration@, term@),
{
    let mut out = owned("l");
    let n = decimal_string(line as u64);
    append(&mut out, n.as_str());
    append(&mut out, "\t");
    append(&mut out, species.as_str());
    append(&mut out, "\t");
    append_chars(&mut out, level);
    append(&mut out, "\t");
    append_chars(&mut out, unc);
    append(&mut out, "\tstandard_deviation\t\t");
    append(&mut out, parity);
    append(&mut out, "\t");
    append_chars(&mut out, j);
    append(&mut out, "\t");
    append(&mut out, origin);
    append(&mut out, "\t");
    append_chars(&mut out, configuration);
    append(&mut out, "\t");
    append_chars(&mut out, term);
    out
}

pub open spec fn emitted(r: Result<String, Refusals>) -> Result<Seq<char>, Seq<RefusalView>> {
    match r {
        Ok(s) => Ok(s@),
        Err(e) => Err(e@),
    }
}

impl Columns {
    fn entry(&self, cells: &Vec<Vec<char>>, line: usize, species: &String, reports: &mut Vec<NotTaken>) -> (r: Result<String, Refusals>)
        requires
            columns_fit(self@),
            cells@.len() == self@.width,
        ensures
            emitted(r) == entry_v(self@, texts(cells@), line, species@).0,
            not_taken_views(final(reports)@) == not_taken_views(old(reports)@) + entry_v(self@, texts(cells@), line, species@).1,
    {
        let ghost t = texts(cells@);
        let ghost n0 = not_taken_views(reports@);
        let mut refusals = Refusals::new();
        let term = cell(cells, Some(self.term));
        let suffix = cell(cells, Some(self.suffix));
        let level = cell(cells, Some(self.level));
        energy_check(level.as_slice(), line, &mut refusals);
        let prefix = cell(cells, Some(self.prefix));
        let origin = origin(prefix.as_slice(), line, &mut refusals);
        if !(suffix.len() == 0 || is_text(suffix.as_slice(), "]") || is_text(suffix.as_slice(), ")")) {
            let v = slice_of(suffix.as_slice(), 0, suffix.len());
            assert(v@ =~= suffix@);
            reports.push(not_taken(line, "Suffix", v, "is an annotation the source appends to a level value, and a conforming level set carries no field for one"));
        }
        let ghost n1 = not_taken_views(reports@);
        assert(n1 =~= n0 + annotation_v(suffix@, line));
        let declared = cell(cells, self.uncertainty);
        let unc = uncertainty_text(declared.as_slice(), line, &mut refusals);
        let jc = cell(cells, Some(self.j));
        let j = j_text(jc.as_slice(), line, reports);
        let configuration = cell(cells, Some(self.configuration));
        tab_check("configuration", configuration.as_slice(), line, &mut refusals);
        tab_check("term", term.as_slice(), line, &mut refusals);
        let p = parity(term.as_slice());
        proof {
            let want = entry_v(self@, t, line, species@);
            let r1 = energy_check_v(level@, line);
            let r2 = origin_v(prefix@, line).1;
            let r3 = uncertainty_text_v(declared@, line).1;
            let r4 = tab_check_v("configuration"@, configuration@, line) + tab_check_v("term"@, term@, line);
            assert(refusals@ =~= r1 + r2 + r3 + r4);
            assert(not_taken_views(reports@) =~= n0 + (annotation_v(suffix@, line) + j_text_v(jc@, line).1));
        }
        if !refusals.is_empty() {
            return Err(refusals);
        }
        Ok(row_text(line, species, level.as_slice(), unc.as_slice(), p, j.as_slice(), origin, configuration.as_slice(), term.as_slice()))
    }
}


spec fn row_outcome(r: Result<Option<String>, Refusals>) -> Result<Option<Seq<char>>, Seq<RefusalView>> {
    match r {
        Ok(Some(t)) => Ok(Some(t@)),
        Ok(None) => Ok(None),
        Err(e) => Err(e@),
    }
}

impl Columns {
    fn row(&self, cells: &Vec<Vec<char>>, line: usize, species: &String, reports: &mut Vec<NotTaken>) -> (r: Result<Option<String>, Refusals>)
        requires
            columns_fit(self@),
        ensures
            row_outcome(r) == row_v(self@, texts(cells@), line, species@).0,
            not_taken_views(final(reports)@) == not_taken_views(old(reports)@) + row_v(self@, texts(cells@), line, species@).1,
    {
        let ghost n0 = not_taken_views(reports@);
        assert(n0 + Seq::<NotTakenView>::empty() =~= n0);
        if cells.len() != self.width {
            let mut m = owned("this row carries ");
            let a = decimal_string(cells.len() as u64);
            append(&mut m, a.as_str());
            append(&mut m, " cell(s) and the header row labels ");
            let b = decimal_string(self.width as u64);
            append(&mut m, b.as_str());
            append(&mut m, ", so nothing says which column any of them is in");
            return Err(Refusals::single(Refusal::on_line(line, m)));
        }
        let term = cell(cells, Some(self.term));
        let suffix = cell(cells, Some(self.suffix));
        let level = cell(cells, Some(self.level));
        if is_text(term.as_slice(), "Limit") {
            reports.push(not_taken(line, "Term", level, "is an ionisation limit, which the source gives as the ground level of the next ion rather than as a level of this spectrum"));
            assert(not_taken_views(reports@) =~= n0 + row_v(self@, texts(cells@), line, species@).1);
            return Ok(None);
        }
        if has_char(suffix.as_slice(), '+') {
            let mut joined = slice_of(level.as_slice(), 0, level.len());
            let mut k: usize = 0;
            while k < suffix.len()
                invariant
                    k <= suffix@.len(),
                    joined@ == level@ + suffix@.take(k as int),
                decreases suffix@.len() - k,
            {
                joined.push(suffix[k]);
                assert(suffix@.take(k + 1) =~= suffix@.take(k as int).push(suffix@[k as int]));
                k = k + 1;
            }
            assert(suffix@.take(suffix@.len() as int) =~= suffix@);
            reports.push(not_taken(line, "Suffix", joined, "stands on a system of levels the source states has no established connection to the rest of the spectrum, so its value is not on the reference this file declares"));
            assert(not_taken_views(reports@) =~= n0 + row_v(self@, texts(cells@), line, species@).1);
            return Ok(None);
        }
        if level.len() == 0 {
            reports.push(not_taken(line, "Level", term, "is a term the source lists without a level value"));
            assert(not_taken_views(reports@) =~= n0 + row_v(self@, texts(cells@), line, species@).1);
            return Ok(None);
        }
        match self.entry(cells, line, species, reports) {
            Ok(t) => Ok(Some(t)),
            Err(e) => Err(e),
        }
    }
}

pub open spec fn second_header() -> Seq<char> {
    "the export carries a second header row, and a levels export answers one query about one species"@
}

pub open spec fn row_before_header() -> Seq<char> {
    "a data row stands before any header row, so nothing says which column holds a level value"@
}

pub open spec fn no_header_row() -> Seq<char> {
    "the export carries no header row naming a level column, so nothing in it has an energy or a unit"@
}

/// What has been read of an export so far: the columns, whether a header row
/// was met, the rows emitted, what was reported and what was refused.
pub struct LevelsState {
    pub columns: Option<ColumnsView>,
    pub header_seen: bool,
    pub rows: Seq<Seq<char>>,
    pub not_taken: Seq<NotTakenView>,
    pub refusals: Seq<RefusalView>,
}

/// What one more line of the export does to what has been read.
pub open spec fn step_v(s: LevelsState, pieces: Seq<Seq<char>>, i: int, species: Seq<char>) -> LevelsState {
    let line = (i + 1) as usize;
    let content = without_cr(pieces[i]);
    if content.len() == 0 {
        if i != pieces.len() - 1 {
            LevelsState { refusals: s.refusals.push(on_line_v(line, blank_export_line())), ..s }
        } else {
            s
        }
    } else {
        let cells = split(content, '\t');
        if crate::spectro_adapters::export::any_begins(cells, "Level ("@) {
            if s.header_seen {
                LevelsState { refusals: s.refusals.push(on_line_v(line, second_header())), ..s }
            } else {
                match columns_read_v(cells, line) {
                    Ok(c) => LevelsState { columns: Some(c), header_seen: true, ..s },
                    Err(f) => LevelsState { header_seen: true, refusals: s.refusals + f, ..s },
                }
            }
        } else {
            match s.columns {
                None => if !s.header_seen {
                    LevelsState { refusals: s.refusals.push(on_line_v(line, row_before_header())), ..s }
                } else {
                    s
                },
                Some(c) => {
                    let (res, n) = row_v(c, cells, line, species);
                    LevelsState {
                        rows: match res {
                            Ok(Some(t)) => s.rows.push(t),
                            _ => s.rows,
                        },
                        not_taken: s.not_taken + n,
                        refusals: match res {
                            Err(f) => s.refusals + f,
                            _ => s.refusals,
                        },
                        ..s
                    }
                },
            }
        }
    }
}

/// What the first `k` lines of the export read to.
pub open spec fn state_upto(pieces: Seq<Seq<char>>, k: int, species: Seq<char>, start: LevelsState) -> LevelsState
    decreases k,
{
    if k <= 0 {
        start
    } else {
        step_v(state_upto(pieces, k - 1, species, start), pieces, k - 1, species)
    }
}

/// The emitted rows, each followed by a line terminator.
pub open spec fn rows_text(rows: Seq<Seq<char>>) -> Seq<char>
    decreases rows.len(),
{
    if rows.len() == 0 {
        Seq::empty()
    } else {
        rows_text(rows.drop_last()) + rows.last() + "\n"@
    }
}

/// The header block and label row of the emitted level set.
pub open spec fn level_set_head(unit: Seq<char>, id: Seq<char>) -> Seq<char> {
    "#contract_version\t1.0\n#energy_unit\t"@ + unit + "\n#energy_reference\tground_level\n#level_set_id\t"@ + id
        + "\nlevel_id\tspecies\tenergy\tenergy_uncertainty\tuncertainty_kind\tuncertainty_class\tparity\tj\torigin\tconfiguration\tterm\n"@
}

/// What converting an export gives: the emitted level set and what it
/// reports, or every refusal.
pub open spec fn convert_v(bytes: Seq<u8>, species: Seq<char>, id: Seq<char>) -> Result<(Seq<char>, Seq<NotTakenView>), Seq<RefusalView>> {
    if !vstd::utf8::valid_utf8(bytes) {
        Err(seq![in_file_v("the export is not UTF-8"@)])
    } else {
        let pieces = split(vstd::utf8::decode_utf8(bytes), '\n');
        let start = LevelsState {
            columns: None,
            header_seen: false,
            rows: Seq::empty(),
            not_taken: Seq::empty(),
            refusals: naming_check_v("species"@, species) + naming_check_v("level_set_id"@, id),
        };
        let s = state_upto(pieces, pieces.len() as int, species, start);
        match s.columns {
            None => {
                let rs = s.refusals + if !s.header_seen {
                    seq![in_file_v(no_header_row())]
                } else {
                    Seq::empty()
                };
                if rs.len() == 0 {
                    Ok((Seq::empty(), s.not_taken))
                } else {
                    Err(rs)
                }
            },
            Some(c) => if s.refusals.len() == 0 {
                Ok((level_set_head(c.unit, id) + rows_text(s.rows), s.not_taken))
            } else {
                Err(s.refusals)
            },
        }
    }
}

/// A conforming level set and everything the export held that it does not.
#[derive(Debug, PartialEq, Eq)]
pub struct Conversion {
    pub level_set: String,
    pub not_taken: Vec<NotTaken>,
}

pub open spec fn conversion_outcome(r: Result<Conversion, Refusals>) -> Result<(Seq<char>, Seq<NotTakenView>), Seq<RefusalView>> {
    match r {
        Ok(c) => Ok((c.level_set@, not_taken_views(c.not_taken@))),
        Err(e) => Err(e@),
    }
}

spec fn columns_view(c: Option<Columns>) -> Option<ColumnsView> {
    match c {
        Some(x) => Some(x@),
        None => None,
    }
}

pub open spec fn row_strings(v: Seq<String>) -> Seq<Seq<char>> {
    v.map_values(|s: String| s@)
}

/// One more line of the export.
#[verifier::rlimit(40)]
fn step(
    pieces: &Vec<Vec<char>>,
    i: usize,
    species: &String,
    columns: &mut Option<Columns>,
    header_seen: &mut bool,
    rows: &mut Vec<String>,
    reports: &mut Vec<NotTaken>,
    refusals: &mut Refusals,
)
    requires
        i < pieces@.len(),
        *old(columns) matches Some(c) ==> columns_fit(c@),
    ensures
        ({
            let before = LevelsState {
                columns: columns_view(*old(columns)),
                header_seen: *old(header_seen),
                rows: row_strings(old(rows)@),
                not_taken: not_taken_views(old(reports)@),
                refusals: old(refusals)@,
            };
            let after = step_v(before, texts(pieces@), i as int, species@);
            &&& columns_view(*final(columns)) == after.columns
            &&& *final(header_seen) == after.header_seen
            &&& row_strings(final(rows)@) == after.rows
            &&& not_taken_views(final(reports)@) == after.not_taken
            &&& final(refusals)@ == after.refusals
            &&& *final(columns) matches Some(c) ==> columns_fit(c@)
        }),
{
    let n = pieces.len();
    let line = i + 1;
    assert(texts(pieces@)[i as int] == pieces@[i as int]@);
    let content = strip_cr(pieces[i].as_slice());
    if content.len() == 0 {
        if i != n - 1 {
            refusals.push(Refusal::on_line(line, owned("the export carries a line with no bytes, and a blank line and a row of empty cells cannot be told apart afterwards")));
        }
        return;
    }
    let cells = split_chars(content.as_slice(), '\t');
    if first_beginning(&cells, "Level (").is_some() {
        if *header_seen {
            refusals.push(Refusal::on_line(line, owned("the export carries a second header row, and a levels export answers one query about one species")));
            return;
        }
        *header_seen = true;
        match Columns::read(&cells, line) {
            Ok(read) => {
                *columns = Some(read);
            },
            Err(found) => {
                refusals.push_all(&found);
            },
        }
        return;
    }
    match columns {
        None => {
            if !*header_seen {
                refusals.push(Refusal::on_line(line, owned("a data row stands before any header row, so nothing says which column holds a level value")));
            }
        },
        Some(c) => {
            let ghost rows_before = row_strings(rows@);
            match c.row(&cells, line, species, reports) {
                Ok(Some(r)) => {
                    rows.push(r);
                    assert(row_strings(rows@) =~= rows_before.push(rows@.last()@));
                },
                Ok(None) => {},
                Err(found) => {
                    refusals.push_all(&found);
                },
            }
        },
    }
}

/// Every line of the export, read in order.
fn read_export(pieces: &Vec<Vec<char>>, species: &String, refusals: &mut Refusals) -> (r: (Option<Columns>, bool, Vec<String>, Vec<NotTaken>))
    ensures
        ({
            let start = LevelsState {
                columns: None,
                header_seen: false,
                rows: Seq::empty(),
                not_taken: Seq::empty(),
                refusals: old(refusals)@,
            };
            let s = state_upto(texts(pieces@), pieces@.len() as int, species@, start);
            &&& columns_view(r.0) == s.columns
            &&& r.1 == s.header_seen
            &&& row_strings(r.2@) == s.rows
            &&& not_taken_views(r.3@) == s.not_taken
            &&& final(refusals)@ == s.refusals
        }),
{
    let ghost p = texts(pieces@);
    let ghost start = LevelsState {
        columns: None,
        header_seen: false,
        rows: Seq::empty(),
        not_taken: Seq::empty(),
        refusals: refusals@,
    };
    let mut columns: Option<Columns> = None;
    let mut header_seen = false;
    let mut rows: Vec<String> = Vec::new();
    let mut reports: Vec<NotTaken> = Vec::new();
    assert(row_strings(rows@) =~= Seq::<Seq<char>>::empty());
    assert(not_taken_views(reports@) =~= Seq::<NotTakenView>::empty());
    let mut i: usize = 0;
    while i < pieces.len()
        invariant
            i <= pieces@.len(),
            p == texts(pieces@),
            columns matches Some(c) ==> columns_fit(c@),
            ({
                let s = state_upto(p, i as int, species@, start);
                &&& columns_view(columns) == s.columns
                &&& header_seen == s.header_seen
                &&& row_strings(rows@) == s.rows
                &&& not_taken_views(reports@) == s.not_taken
                &&& refusals@ == s.refusals
            }),
        decreases pieces@.len() - i,
    {
        step(pieces, i, species, &mut columns, &mut header_seen, &mut rows, &mut reports, refusals);
        i = i + 1;
    }
    (columns, header_seen, rows, reports)
}

/// The emitted level set: the header block, the label row and every row.
fn emit(unit: &[char], id: &String, rows: &Vec<String>) -> (r: String)
    ensures
        r@ == level_set_head(unit@, id@) + rows_text(row_strings(rows@)),
{
    let mut level_set = owned("#contract_version\t1.0\n#energy_unit\t");
    append_chars(&mut level_set, unit);
    append(&mut level_set, "\n#energy_reference\tground_level\n#level_set_id\t");
    append(&mut level_set, id.as_str());
    append(&mut level_set, "\nlevel_id\tspecies\tenergy\tenergy_uncertainty\tuncertainty_kind\tuncertainty_class\tparity\tj\torigin\tconfiguration\tterm\n");
    let ghost head = level_set@;
    let mut k: usize = 0;
    while k < rows.len()
        invariant
            k <= rows@.len(),
            level_set@ == head + rows_text(row_strings(rows@).take(k as int)),
        decreases rows@.len() - k,
    {
        append(&mut level_set, rows[k].as_str());
        append(&mut level_set, "\n");
        proof {
            let t = row_strings(rows@).take(k + 1);
            assert(t.drop_last() =~= row_strings(rows@).take(k as int));
            assert(t.last() == rows@[k as int]@);
        }
        assert(level_set@ =~= head + rows_text(row_strings(rows@).take(k + 1)));
        k = k + 1;
    }
    assert(row_strings(rows@).take(rows@.len() as int) =~= row_strings(rows@));
    level_set
}

/// Convert an export into a conforming level set, or refuse naming the line.
pub fn convert(bytes: &[u8], naming: &Naming) -> (r: Result<Conversion, Refusals>)
    ensures
        conversion_outcome(r) == convert_v(bytes@, naming.species@, naming.level_set_id@),
{
    let text = match crate::utf8::utf8_text(bytes) {
        Some(t) => t,
        None => {
            return Err(Refusals::single(Refusal::in_file(owned("the export is not UTF-8"))));
        },
    };
    let chars = chars_of(text);
    let pieces = split_chars(chars.as_slice(), '\n');
    let mut refusals = Refusals::new();
    check_naming(&mut refusals, "species", naming.species.as_str());
    check_naming(&mut refusals, "level_set_id", naming.level_set_id.as_str());
    let (columns, header_seen, rows, reports) = read_export(&pieces, &naming.species, &mut refusals);
    match columns {
        None => {
            if !header_seen {
                refusals.push(Refusal::in_file(owned("the export carries no header row naming a level column, so nothing in it has an energy or a unit")));
            } else {
                assert(refusals@ + Seq::<RefusalView>::empty() =~= refusals@);
            }
            refusals.into_result(Conversion { level_set: String::new(), not_taken: reports })
        },
        Some(c) => {
            let level_set = emit(c.unit.as_slice(), &naming.level_set_id, &rows);
            refusals.into_result(Conversion { level_set, not_taken: reports })
        },
    }
}

proof fn lemma_doubt_taken_off(term: Seq<char>, q: Seq<char>)
    requires
        forall|i: int| 0 <= i < q.len() ==> q[i] == '?',
    ensures
        without_doubt(term + q) == without_doubt(term),
    decreases q.len(),
{
    if q.len() > 0 {
        assert((term + q).last() == '?');
        assert((term + q).drop_last() =~= term + q.drop_last());
        lemma_doubt_taken_off(term, q.drop_last());
    } else {
        assert(term + q =~= term);
    }
}

/// A designation the source marks as doubtful keeps its parity: question
/// marks put after a term change nothing of the parity read from it. A term
/// that does not end in a question mark is odd where it ends in an asterisk,
/// of unknown parity where it is empty, and even otherwise.
pub proof fn law_a_doubtful_term_keeps_its_parity(term: Seq<char>, q: Seq<char>)
    requires
        forall|i: int| 0 <= i < q.len() ==> q[i] == '?',
    ensures
        parity_of(term + q) == parity_of(term),
        term.len() == 0 ==> parity_of(term) == "unknown"@,
        term.len() > 0 && term.last() == '*' ==> parity_of(term) == "odd"@,
        term.len() > 0 && term.last() != '*' && term.last() != '?' ==> parity_of(term) == "even"@,
{
    lemma_doubt_taken_off(term, q);
}

} // verus!
