//! The lines export of the NIST Atomic Spectra Database.
//!
//! Every position is emitted with the medium its own block header states, so
//! no position's medium is decided by which block came first.
use vstd::prelude::*;
use crate::spectro_adapters::accuracy::AccuracyGrade;
use crate::spectro_adapters::export::{
    begins_with, blank_export_line, check_naming, equals, find_from, first_beginning, first_equal,
    naming_check_v, strip_cr, unquote, unquote_v, without_cr,
};
use crate::spectro_contract::reading::column_index;
use crate::spectro_contract::refusal::{field_on_line_v, in_file_v, on_line_v, Refusal, RefusalView, Refusals};
use crate::text::{
    append, append_chars, chars_of, decimal, decimal_string, is_text, owned, quote, quoted, slice_of,
    split, split_chars, split_once, split_once_exec, string_of, texts,
};

verus! {

/// A report as plain values: the line, the column, the value and the reason.
pub type NotTakenView = (usize, Seq<char>, Seq<char>, Seq<char>);

/// One thing the export said that the conforming file does not carry.
///
/// Reported rather than dropped: a row silently missing from a line list is a
/// row missing from an answer that does not say so.
#[derive(Debug, PartialEq, Eq)]
pub struct NotTaken {
    /// The line of the export, counting from one.
    pub line: usize,
    /// The export's own label for the column this came out of.
    pub column: String,
    /// The cell, verbatim.
    pub value: String,
    pub reason: String,
}

impl View for NotTaken {
    type V = NotTakenView;

    open spec fn view(&self) -> NotTakenView {
        (self.line, self.column@, self.value@, self.reason@)
    }
}

pub open spec fn not_taken_views(v: Seq<NotTaken>) -> Seq<NotTakenView> {
    v.map_values(|n: NotTaken| n@)
}

/// How a report is written for a reader.
pub open spec fn not_taken_text(n: NotTakenView) -> Seq<char> {
    "line "@ + decimal(n.0 as nat) + ", "@ + quoted(n.1) + ": "@ + quoted(n.2) + " "@ + n.3
}

impl NotTaken {
    /// What the report says: the line, the column, the value and the reason.
    pub fn to_text(&self) -> (r: String)
        ensures
            r@ == not_taken_text(self@),
    {
        let mut out = owned("line ");
        let n = decimal_string(self.line as u64);
        append(&mut out, n.as_str());
        append(&mut out, ", ");
        let c = crate::text::chars_of(self.column.as_str());
        let qc = quote(c.as_slice());
        append(&mut out, qc.as_str());
        append(&mut out, ": ");
        let v = crate::text::chars_of(self.value.as_str());
        let qv = quote(v.as_slice());
        append(&mut out, qv.as_str());
        append(&mut out, " ");
        append(&mut out, self.reason.as_str());
        out
    }
}


/// What the export does not say and the operator has to: the spectrum the
/// rows were recorded in and the file being built.
#[derive(Debug, PartialEq, Eq)]
pub struct Naming {
    pub spectrum_id: String,
    pub line_list_id: String,
}

/// The unit is written into a header line of the emitted file, where a
/// carriage return would break the line.
pub open spec fn carriage_return_in_unit() -> Seq<char> {
    " carries a carriage return in its unit, which a line of the emitted file may not"@
}

/// `obs_wl_air(nm)` into the contract's medium and the file's unit.
pub open spec fn medium_and_unit_v(label: Seq<char>, prefix: Seq<char>) -> Result<(Seq<char>, Seq<char>), Seq<char>> {
    if !crate::spectro_adapters::export::starts_with(label, prefix) {
        Err(quoted(label) + " does not begin "@ + quoted(prefix))
    } else {
        let rest = label.skip(prefix.len() as int);
        match split_once(rest, '(') {
            None => Err(quoted(label) + " names no unit in brackets"@),
            Some((tag, bracketed)) => {
                if bracketed.len() == 0 || bracketed.last() != ')' {
                    Err(quoted(label) + " does not close the bracket around its unit"@)
                } else if bracketed.len() == 1 {
                    Err(quoted(label) + " brackets an empty unit"@)
                } else if bracketed.drop_last().contains('\r') {
                    Err(quoted(label) + carriage_return_in_unit())
                } else if tag == "air"@ {
                    Ok(("air_standard"@, bracketed.drop_last()))
                } else if tag == "vac"@ {
                    Ok(("vacuum"@, bracketed.drop_last()))
                } else {
                    Err(quoted(label) + " names the medium "@ + quoted(tag) + ", which is neither `air` nor `vac`"@)
                }
            },
        }
    }
}

fn medium_and_unit(label: &[char], prefix: &str) -> (r: Result<(&'static str, Vec<char>), String>)
    ensures
        match (r, medium_and_unit_v(label@, prefix@)) {
            (Ok(a), Ok(b)) => a.0@ == b.0 && a.1@ == b.1,
            (Err(a), Err(b)) => a@ == b,
            _ => false,
        },
{
    if !crate::spectro_adapters::export::begins(label, prefix) {
        let mut m = quote(label);
        append(&mut m, " does not begin ");
        let pc = chars_of(prefix);
        let qp = quote(pc.as_slice());
        append(&mut m, qp.as_str());
        return Err(m);
    }
    let pc = chars_of(prefix);
    let rest = slice_of(label, pc.len(), label.len());
    assert(rest@ =~= label@.skip(prefix@.len() as int));
    match split_once_exec(rest.as_slice(), '(') {
        None => {
            let mut m = quote(label);
            append(&mut m, " names no unit in brackets");
            Err(m)
        },
        Some((tag, bracketed)) => {
            if bracketed.len() == 0 || bracketed[bracketed.len() - 1] != ')' {
                let mut m = quote(label);
                append(&mut m, " does not close the bracket around its unit");
                Err(m)
            } else if bracketed.len() == 1 {
                let mut m = quote(label);
                append(&mut m, " brackets an empty unit");
                Err(m)
            } else {
                let unit = slice_of(bracketed.as_slice(), 0, bracketed.len() - 1);
                assert(unit@ =~= bracketed@.drop_last());
                if crate::spectro_adapters::export::has_char(unit.as_slice(), '\r') {
                    let mut m = quote(label);
                    append(&mut m, " carries a carriage return in its unit, which a line of the emitted file may not");
                    return Err(m);
                }
                if is_text(tag.as_slice(), "air") {
                    Ok(("air_standard", unit))
                } else if is_text(tag.as_slice(), "vac") {
                    Ok(("vacuum", unit))
                } else {
                    let mut m = quote(label);
                    append(&mut m, " names the medium ");
                    let qt = quote(tag.as_slice());
                    append(&mut m, qt.as_str());
                    append(&mut m, ", which is neither `air` nor `vac`");
                    Err(m)
                }
            }
        },
    }
}

/// One header row and the columns it labels, as plain values.
pub struct BlockView {
    pub medium: Seq<char>,
    pub unit: Seq<char>,
    pub observed: int,
    pub ritz: Option<int>,
    pub uncertainty: Option<int>,
    pub intensity: Option<int>,
    pub accuracy: Option<(int, Seq<char>)>,
}

pub open spec fn crossed_media(rm: Seq<char>, ru: Seq<char>, m: Seq<char>, u: Seq<char>) -> Seq<char> {
    "the Ritz column of this block is "@ + quoted(rm) + " in "@ + quoted(ru) + " and the observed column is "@ + quoted(m)
        + " in "@ + quoted(u)
}

/// A header row read as a block, or what it is refused for.
pub open spec fn block_read_v(cells: Seq<Seq<char>>, line: usize) -> Result<BlockView, RefusalView> {
    match find_from(cells, begins_with("obs_wl_"@), 0) {
        None => Err(field_on_line_v(line, "obs_wl"@, "this header row labels no observed wavelength column"@)),
        Some(observed) => match medium_and_unit_v(cells[observed], "obs_wl_"@) {
            Err(m) => Err(field_on_line_v(line, "obs_wl"@, m)),
            Ok((medium, unit)) => {
                let ritz = find_from(cells, begins_with("ritz_wl_"@), 0);
                let ritz_fault = match ritz {
                    None => None,
                    Some(r) => match medium_and_unit_v(cells[r], "ritz_wl_"@) {
                        Err(m) => Some(field_on_line_v(line, "ritz_wl"@, m)),
                        Ok((rm, ru)) => if rm != medium || ru != unit {
                            Some(field_on_line_v(line, "ritz_wl"@, crossed_media(rm, ru, medium, unit)))
                        } else {
                            None
                        },
                    },
                };
                match ritz_fault {
                    Some(f) => Err(f),
                    None => Ok(BlockView {
                        medium,
                        unit,
                        observed,
                        ritz,
                        uncertainty: find_from(cells, equals("unc_obs_wl"@), 0),
                        intensity: find_from(cells, equals("intens"@), 0),
                        accuracy: match find_from(cells, equals("Acc"@), 0) {
                            Some(a) => Some((a, cells[a])),
                            None => None,
                        },
                    }),
                }
            },
        },
    }
}

/// One header row and the columns it labels.
struct Block {
    medium: &'static str,
    unit: Vec<char>,
    observed: usize,
    ritz: Option<usize>,
    uncertainty: Option<usize>,
    intensity: Option<usize>,
    accuracy: Option<(usize, Vec<char>)>,
}

impl View for Block {
    type V = BlockView;

    closed spec fn view(&self) -> BlockView {
        BlockView {
            medium: self.medium@,
            unit: self.unit@,
            observed: self.observed as int,
            ritz: column_index(self.ritz),
            uncertainty: column_index(self.uncertainty),
            intensity: column_index(self.intensity),
            accuracy: match self.accuracy {
                Some((a, l)) => Some((a as int, l@)),
                None => None,
            },
        }
    }
}

spec fn block_outcome(r: Result<Block, Refusal>) -> Result<BlockView, RefusalView> {
    match r {
        Ok(b) => Ok(b@),
        Err(e) => Err(e@),
    }
}

impl Block {
    fn read(cells: &Vec<Vec<char>>, line: usize) -> (r: Result<Block, Refusal>)
        ensures
            block_outcome(r) == block_read_v(texts(cells@), line),
    {
        let ghost t = texts(cells@);
        let observed = match first_beginning(cells, "obs_wl_") {
            None => {
                return Err(Refusal::field_on_line(line, owned("obs_wl"), owned("this header row labels no observed wavelength column")));
            },
            Some(o) => o,
        };
        assert(t[observed as int] == cells@[observed as int]@);
        let (medium, unit) = match medium_and_unit(cells[observed].as_slice(), "obs_wl_") {
            Err(m) => {
                return Err(Refusal::field_on_line(line, owned("obs_wl"), m));
            },
            Ok(x) => x,
        };
        let ritz = first_beginning(cells, "ritz_wl_");
        match ritz {
            Some(r) => {
                assert(t[r as int] == cells@[r as int]@);
                match medium_and_unit(cells[r].as_slice(), "ritz_wl_") {
                    Err(m) => {
                        return Err(Refusal::field_on_line(line, owned("ritz_wl"), m));
                    },
                    Ok((rm, ru)) => {
                        let rmc = chars_of(rm);
                        let mc = chars_of(medium);
                        if !crate::text::same_chars(rmc.as_slice(), mc.as_slice()) || !crate::text::same_chars(ru.as_slice(), unit.as_slice()) {
                            let mut m = owned("the Ritz column of this block is ");
                            let a = quote(rmc.as_slice());
                            append(&mut m, a.as_str());
                            append(&mut m, " in ");
                            let b = quote(ru.as_slice());
                            append(&mut m, b.as_str());
                            append(&mut m, " and the observed column is ");
                            let c = quote(mc.as_slice());
                            append(&mut m, c.as_str());
                            append(&mut m, " in ");
                            let d = quote(unit.as_slice());
                            append(&mut m, d.as_str());
                            return Err(Refusal::field_on_line(line, owned("ritz_wl"), m));
                        }
                    },
                }
            },
            None => {},
        }
        let uncertainty = first_equal(cells, "unc_obs_wl");
        let intensity = first_equal(cells, "intens");
        let accuracy = match first_equal(cells, "Acc") {
            Some(a) => {
                assert(t[a as int] == cells@[a as int]@);
                let l = slice_of(cells[a].as_slice(), 0, cells[a].len());
                assert(l@ =~= t[a as int]);
                Some((a, l))
            },
            None => None,
        };
        Ok(Block { medium, unit, observed, ritz, uncertainty, intensity, accuracy })
    }
}


/// A cell of the row under a column, unquoted; empty where there is no such
/// column or the row is too short to reach it.
pub open spec fn cell_v(cells: Seq<Seq<char>>, col: Option<int>) -> Seq<char> {
    match col {
        Some(c) => if 0 <= c < cells.len() {
            unquote_v(cells[c])
        } else {
            Seq::empty()
        },
        None => Seq::empty(),
    }
}

fn cell(cells: &Vec<Vec<char>>, col: Option<usize>) -> (r: Vec<char>)
    ensures
        r@ == cell_v(texts(cells@), column_index(col)),
{
    match col {
        Some(c) => {
            if c < cells.len() {
                assert(texts(cells@)[c as int] == cells@[c as int]@);
                unquote(cells[c].as_slice())
            } else {
                Vec::new()
            }
        },
        None => Vec::new(),
    }
}

pub open spec fn is_number_char(c: char) -> bool {
    ('0' <= c && c <= '9') || c == '.'
}

/// Where the digits at the front of an intensity end.
pub open spec fn digits_from(cell: Seq<char>, i: int) -> int
    decreases cell.len() - i,
{
    if i < 0 || i >= cell.len() {
        cell.len() as int
    } else if !is_number_char(cell[i]) {
        i
    } else {
        digits_from(cell, i + 1)
    }
}

pub open spec fn code_reason() -> Seq<char> {
    "is the character code the export appends to an intensity, and what it means is not read here"@
}

pub open spec fn no_intensity_reason() -> Seq<char> {
    "holds no number in front of its character code"@
}

/// The intensity and its scale, with the trailing character code taken off
/// and reported rather than read.
pub open spec fn intensity_v(cells: Seq<Seq<char>>, col: Option<int>, line: usize) -> ((Seq<char>, Seq<char>), Seq<NotTakenView>) {
    let cell = cell_v(cells, col);
    if cell.len() == 0 {
        ((Seq::empty(), Seq::empty()), Seq::empty())
    } else {
        let d = digits_from(cell, 0);
        let value = cell.take(d);
        let code = cell.skip(d);
        let n1 = if code.len() > 0 {
            seq![(line, "intens"@, code, code_reason())]
        } else {
            Seq::empty()
        };
        if value.len() == 0 || !crate::number::is_finite_number(value) {
            ((Seq::empty(), Seq::empty()), n1 + seq![(line, "intens"@, cell, no_intensity_reason())])
        } else {
            ((value, "arbitrary"@), n1)
        }
    }
}

pub open spec fn ritz_only_reason() -> Seq<char> {
    "is a Ritz wavelength with no observation beside it, and a Ritz wavelength was computed from the level set this board assigns against"@
}

pub open spec fn grade_reason() -> Seq<char> {
    "grades a transition probability rather than a position, and a conforming line list carries neither the probability nor a grade"@
}

/// One emitted row: the export's own line as the identifier, then the fields
/// in label order, every row stating its own medium.
pub open spec fn line_row_text(line: usize, spectrum: Seq<char>, observed: Seq<char>, medium: Seq<char>, unc: Seq<char>, intensity: Seq<char>, scale: Seq<char>, ritz: Seq<char>) -> Seq<char> {
    "l"@ + decimal(line as nat) + "\t"@ + spectrum + "\t\t"@ + observed + "\t"@ + medium + "\t"@ + unc
        + "\tstandard_deviation\t\t"@ + intensity + "\t"@ + scale + "\t\t"@ + ritz
}

/// The Ritz position as it is emitted, and what it is refused for.
pub open spec fn ritz_out_v(ritz: Option<Seq<char>>, line: usize) -> (Seq<char>, Seq<RefusalView>) {
    match ritz {
        None => (Seq::empty(), Seq::empty()),
        Some(c) => if c.len() == 0 {
            (Seq::empty(), Seq::empty())
        } else if crate::number::is_finite_number(c) {
            (c, Seq::empty())
        } else {
            (Seq::empty(), seq![field_on_line_v(line, "ritz_position"@, quoted(c) + " is not a number this reader can carry as a Ritz position"@)])
        },
    }
}

/// The uncertainty as it is emitted: `none` where the cell is empty.
pub open spec fn uncertainty_text_v(declared: Seq<char>, line: usize) -> (Seq<char>, Seq<RefusalView>) {
    if declared.len() == 0 {
        ("none"@, Seq::empty())
    } else if crate::number::is_finite_number(declared) {
        (declared, Seq::empty())
    } else {
        (
            "none"@,
            seq![field_on_line_v(line, "position_uncertainty"@, quoted(declared) + " is not a number, and an absent uncertainty is an empty cell"@)],
        )
    }
}

/// The grade a row carries, reported.
pub open spec fn grade_v(b: BlockView, cells: Seq<Seq<char>>, line: usize) -> Seq<NotTakenView> {
    match b.accuracy {
        Some((c, label)) => {
            let g = cell_v(cells, Some(c));
            if g.len() > 0 {
                seq![(line, label, g, grade_reason())]
            } else {
                Seq::empty()
            }
        },
        None => Seq::empty(),
    }
}

/// One data row: a line, nothing where the row holds no observation, or what
/// it is refused for; and what it reports.
pub open spec fn row_v(b: BlockView, cells: Seq<Seq<char>>, line: usize, spectrum: Seq<char>) -> (Result<Option<Seq<char>>, Seq<RefusalView>>, Seq<NotTakenView>) {
    let observed = cell_v(cells, Some(b.observed));
    let ritz = match b.ritz {
        Some(r) => Some(cell_v(cells, Some(r))),
        None => None,
    };
    if observed.len() == 0 {
        (
            Ok(None),
            seq![(line, "obs_wl"@, match ritz {
                Some(x) => x,
                None => Seq::empty(),
            }, ritz_only_reason())],
        )
    } else {
        let r1 = if crate::number::is_finite_number(observed) {
            Seq::empty()
        } else {
            seq![field_on_line_v(line, "position"@, quoted(observed) + " is not a number this reader can carry as a position"@)]
        };
        let (unc, r2) = uncertainty_text_v(cell_v(cells, b.uncertainty), line);
        let n1 = grade_v(b, cells, line);
        let (inten, n2) = intensity_v(cells, b.intensity, line);
        let (ritz_out, r3) = ritz_out_v(ritz, line);
        let refusals = r1 + r2 + r3;
        (
            if refusals.len() > 0 {
                Err(refusals)
            } else {
                Ok(Some(line_row_text(line, spectrum, observed, b.medium, unc, inten.0, inten.1, ritz_out)))
            },
            n1 + n2,
        )
    }
}

fn report(line: usize, column: &str, value: Vec<char>, reason: &str) -> (r: NotTaken)
    ensures
        r@ == (line, column@, value@, reason@),
{
    NotTaken { line, column: owned(column), value: string_of(value.as_slice()), reason: owned(reason) }
}

fn intensity(cells: &Vec<Vec<char>>, col: Option<usize>, line: usize, reports: &mut Vec<NotTaken>) -> (r: (Vec<char>, Vec<char>))
    ensures
        ({
            let want = intensity_v(texts(cells@), column_index(col), line);
            &&& r.0@ == want.0.0
            &&& r.1@ == want.0.1
            &&& not_taken_views(final(reports)@) == not_taken_views(old(reports)@) + want.1
        }),
{
    let ghost n0 = not_taken_views(reports@);
    assert(n0 + Seq::<NotTakenView>::empty() =~= n0);
    let c = cell(cells, col);
    if c.len() == 0 {
        return (Vec::new(), Vec::new());
    }
    let mut d: usize = 0;
    while d < c.len() && (('0' <= c[d] && c[d] <= '9') || c[d] == '.')
        invariant
            d <= c@.len(),
            digits_from(c@, 0) == digits_from(c@, d as int),
        decreases c@.len() - d,
    {
        d = d + 1;
    }
    let value = slice_of(c.as_slice(), 0, d);
    let code = slice_of(c.as_slice(), d, c.len());
    assert(value@ =~= c@.take(d as int));
    assert(code@ =~= c@.skip(d as int));
    if code.len() > 0 {
        reports.push(report(line, "intens", code, "is the character code the export appends to an intensity, and what it means is not read here"));
    }
    let ghost n1 = not_taken_views(reports@);
    if value.len() == 0 || !crate::number::finite_number(value.as_slice()) {
        let whole = slice_of(c.as_slice(), 0, c.len());
        assert(whole@ =~= c@);
        reports.push(report(line, "intens", whole, "holds no number in front of its character code"));
        assert(not_taken_views(reports@) =~= n1.push((line, "intens"@, c@, no_intensity_reason())));
        return (Vec::new(), Vec::new());
    }
    (value, chars_of("arbitrary"))
}

fn ritz_out(ritz: &Option<Vec<char>>, line: usize, refusals: &mut Refusals) -> (r: Vec<char>)
    ensures
        ({
            let rv = match ritz {
                Some(x) => Some(x@),
                None => None,
            };
            &&& r@ == ritz_out_v(rv, line).0
            &&& final(refusals)@ == old(refusals)@ + ritz_out_v(rv, line).1
        }),
{
    assert(old(refusals)@ + Seq::<RefusalView>::empty() =~= old(refusals)@);
    match ritz {
        None => Vec::new(),
        Some(c) => {
            if c.len() == 0 {
                Vec::new()
            } else if crate::number::finite_number(c.as_slice()) {
                slice_of(c.as_slice(), 0, c.len())
            } else {
                let mut m = quote(c.as_slice());
                append(&mut m, " is not a number this reader can carry as a Ritz position");
                refusals.push(Refusal::field_on_line(line, owned("ritz_position"), m));
                Vec::new()
            }
        },
    }
}

fn uncertainty_text(declared: &[char], line: usize, refusals: &mut Refusals) -> (r: Vec<char>)
    ensures
        r@ == uncertainty_text_v(declared@, line).0,
        final(refusals)@ == old(refusals)@ + uncertainty_text_v(declared@, line).1,
{
    assert(old(refusals)@ + Seq::<RefusalView>::empty() =~= old(refusals)@);
    if declared.len() == 0 {
        chars_of("none")
    } else if crate::number::finite_number(declared) {
        slice_of(declared, 0, declared.len())
    } else {
        let mut m = quote(declared);
        append(&mut m, " is not a number, and an absent uncertainty is an empty cell");
        refusals.push(Refusal::field_on_line(line, owned("position_uncertainty"), m));
        chars_of("none")
    }
}

fn row_text(line: usize, spectrum: &String, observed: &[char], medium: &str, unc: &[char], inten: &[char], scale: &[char], ritz: &[char]) -> (r: String)
    ensures
        r@ == line_row_text(line, spectrum@, observed@, medium@, unc@, inten@, scale@, ritz@),
{
    let mut out = owned("l");
    let n = decimal_string(line as u64);
    append(&mut out, n.as_str());
    append(&mut out, "\t");
    append(&mut out, spectrum.as_str());
    append(&mut out, "\t\t");
    append_chars(&mut out, observed);
    append(&mut out, "\t");
    append(&mut out, medium);
    append(&mut out, "\t");
    append_chars(&mut out, unc);
    append(&mut out, "\tstandard_deviation\t\t");
    append_chars(&mut out, inten);
    append(&mut out, "\t");
    append_chars(&mut out, scale);
    append(&mut out, "\t\t");
    append_chars(&mut out, ritz);
    out
}

spec fn row_outcome(r: Result<Option<String>, Refusals>) -> Result<Option<Seq<char>>, Seq<RefusalView>> {
    match r {
        Ok(Some(t)) => Ok(Some(t@)),
        Ok(None) => Ok(None),
        Err(e) => Err(e@),
    }
}

impl Block {
    fn grade(&self, cells: &Vec<Vec<char>>, line: usize, reports: &mut Vec<NotTaken>)
        ensures
            not_taken_views(final(reports)@) == not_taken_views(old(reports)@) + grade_v(self@, texts(cells@), line),
    {
        let ghost n0 = not_taken_views(reports@);
        assert(n0 + Seq::<NotTakenView>::empty() =~= n0);
        match &self.accuracy {
            Some((c, label)) => {
                let g = cell(cells, Some(*c));
                if g.len() > 0 {
                    let grade = AccuracyGrade::taken(string_of(g.as_slice()).as_str());
                    let gv = chars_of(grade.as_str());
                    let lv = slice_of(label.as_slice(), 0, label.len());
                    let entry = NotTaken { line, column: string_of(lv.as_slice()), value: string_of(gv.as_slice()), reason: owned("grades a transition probability rather than a position, and a conforming line list carries neither the probability nor a grade") };
                    reports.push(entry);
                    assert(lv@ =~= label@);
                    assert(not_taken_views(reports@) =~= n0.push((line, label@, g@, grade_reason())));
                }
            },
            None => {},
        }
    }

    fn row(&self, cells: &Vec<Vec<char>>, line: usize, spectrum: &String, reports: &mut Vec<NotTaken>) -> (r: Result<Option<String>, Refusals>)
        ensures
            row_outcome(r) == row_v(self@, texts(cells@), line, spectrum@).0,
            not_taken_views(final(reports)@) == not_taken_views(old(reports)@) + row_v(self@, texts(cells@), line, spectrum@).1,
    {
        let ghost n0 = not_taken_views(reports@);
        let observed = cell(cells, Some(self.observed));
        let ritz = match self.ritz {
            Some(r) => Some(cell(cells, Some(r))),
            None => None,
        };
        if observed.len() == 0 {
            let value = match &ritz {
                Some(x) => slice_of(x.as_slice(), 0, x.len()),
                None => Vec::new(),
            };
            proof {
                if let Some(x) = ritz {
                    assert(value@ =~= x@);
                }
            }
            reports.push(report(line, "obs_wl", value, "is a Ritz wavelength with no observation beside it, and a Ritz wavelength was computed from the level set this board assigns against"));
            assert(not_taken_views(reports@) =~= n0 + row_v(self@, texts(cells@), line, spectrum@).1);
            return Ok(None);
        }
        let mut refusals = Refusals::new();
        if !crate::number::finite_number(observed.as_slice()) {
            let mut m = quote(observed.as_slice());
            append(&mut m, " is not a number this reader can carry as a position");
            refusals.push(Refusal::field_on_line(line, owned("position"), m));
        }
        let ghost r1 = refusals@;
        let declared = cell(cells, self.uncertainty);
        let unc = uncertainty_text(declared.as_slice(), line, &mut refusals);
        self.grade(cells, line, reports);
        let (inten, scale) = intensity(cells, self.intensity, line, reports);
        let ritz_text = ritz_out(&ritz, line, &mut refusals);
        proof {
            let t = texts(cells@);
            let want = row_v(self@, t, line, spectrum@);
            assert(not_taken_views(reports@) =~= n0 + want.1);
        }
        if !refusals.is_empty() {
            return Err(refusals);
        }
        Ok(Some(row_text(line, spectrum, observed.as_slice(), self.medium, unc.as_slice(), inten.as_slice(), scale.as_slice(), ritz_text.as_slice())))
    }
}


pub open spec fn row_before_header() -> Seq<char> {
    "a data row stands before any header row, so nothing says which medium or unit its position is in"@
}

pub open spec fn no_header_row() -> Seq<char> {
    "the export carries no header row naming an observed wavelength column, so no position in it has a medium or a unit"@
}

pub open spec fn second_unit(unit: Seq<char>, held: Seq<char>) -> Seq<char> {
    "this block states positions in "@ + quoted(unit) + " and an earlier one stated them in "@ + quoted(held)
        + ", and a conforming line list has one unit for the file"@
}

/// What has been read of an export so far: the current block, the unit and
/// the medium of the first block, the rows emitted, what was reported and
/// what was refused.
pub struct LinesState {
    pub block: Option<BlockView>,
    pub unit: Option<Seq<char>>,
    pub first_medium: Option<Seq<char>>,
    pub rows: Seq<Seq<char>>,
    pub not_taken: Seq<NotTakenView>,
    pub refusals: Seq<RefusalView>,
}

/// What one more line of the export does to what has been read.
pub open spec fn step_v(s: LinesState, pieces: Seq<Seq<char>>, i: int, spectrum: Seq<char>) -> LinesState {
    let line = (i + 1) as usize;
    let content = without_cr(pieces[i]);
    if content.len() == 0 {
        if i != pieces.len() - 1 {
            LinesState { refusals: s.refusals.push(on_line_v(line, blank_export_line())), ..s }
        } else {
            s
        }
    } else {
        let cells = split(content, '\t');
        if crate::spectro_adapters::export::any_begins(cells, "obs_wl_"@) {
            match block_read_v(cells, line) {
                Ok(read) => LinesState {
                    block: Some(read),
                    unit: match s.unit {
                        None => Some(read.unit),
                        Some(held) => Some(held),
                    },
                    first_medium: match s.first_medium {
                        None => Some(read.medium),
                        Some(m) => Some(m),
                    },
                    refusals: match s.unit {
                        Some(held) => if held != read.unit {
                            s.refusals.push(field_on_line_v(line, "position_unit"@, second_unit(read.unit, held)))
                        } else {
                            s.refusals
                        },
                        None => s.refusals,
                    },
                    ..s
                },
                Err(f) => LinesState { block: None, refusals: s.refusals.push(f), ..s },
            }
        } else {
            match s.block {
                None => LinesState { refusals: s.refusals.push(on_line_v(line, row_before_header())), ..s },
                Some(b) => {
                    let (res, n) = row_v(b, cells, line, spectrum);
                    LinesState {
                        rows: match res {
                            Ok(Some(t)) => s.rows.push(t),
                            _ => s.rows,
                        },
                        not_taken: s.not_taken + n,
                        refusals: match res {
                            Err(f) => s.refusals + f,
                            _ => s.refusals,
                        },
                        ..s
                    }
                },
            }
        }
    }
}

/// What the first `k` lines of the export read to.
pub open spec fn state_upto(pieces: Seq<Seq<char>>, k: int, spectrum: Seq<char>, start: LinesState) -> LinesState
    decreases k,
{
    if k <= 0 {
        start
    } else {
        step_v(state_upto(pieces, k - 1, spectrum, start), pieces, k - 1, spectrum)
    }
}

/// The emitted rows, each followed by a line terminator.
pub open spec fn rows_text(rows: Seq<Seq<char>>) -> Seq<char>
    decreases rows.len(),
{
    if rows.len() == 0 {
        Seq::empty()
    } else {
        rows_text(rows.drop_last()) + rows.last() + "\n"@
    }
}

/// The header block and label row of the emitted line list.
pub open spec fn line_list_head(unit: Seq<char>, medium: Seq<char>, id: Seq<char>) -> Seq<char> {
    "#contract_version\t1.0\n#position_unit\t"@ + unit + "\n#position_medium\t"@ + medium + "\n#line_list_id\t"@ + id
        + "\nfeature_id\tspectrum_id\tsegment_id\tposition\tposition_medium\tposition_uncertainty\tuncertainty_kind\tuncertainty_class\tintensity\tintensity_scale\tflags\tritz_position\n"@
}

/// What converting an export gives: the emitted line list and what it
/// reports, or every refusal.
pub open spec fn convert_v(bytes: Seq<u8>, spectrum: Seq<char>, id: Seq<char>) -> Result<(Seq<char>, Seq<NotTakenView>), Seq<RefusalView>> {
    if !vstd::utf8::valid_utf8(bytes) {
        Err(seq![in_file_v("the export is not UTF-8"@)])
    } else {
        let pieces = split(vstd::utf8::decode_utf8(bytes), '\n');
        let start = LinesState {
            block: None,
            unit: None,
            first_medium: None,
            rows: Seq::empty(),
            not_taken: Seq::empty(),
            refusals: naming_check_v("spectrum_id"@, spectrum) + naming_check_v("line_list_id"@, id),
        };
        let s = state_upto(pieces, pieces.len() as int, spectrum, start);
        match (s.unit, s.first_medium) {
            (Some(u), Some(m)) => if s.refusals.len() == 0 {
                Ok((line_list_head(u, m, id) + rows_text(s.rows), s.not_taken))
            } else {
                Err(s.refusals)
            },
            _ => Err(s.refusals.push(in_file_v(no_header_row()))),
        }
    }
}

/// A conforming line list and everything the export held that it does not.
#[derive(Debug, PartialEq, Eq)]
pub struct Conversion {
    pub line_list: String,
    pub not_taken: Vec<NotTaken>,
}

pub open spec fn conversion_outcome(r: Result<Conversion, Refusals>) -> Result<(Seq<char>, Seq<NotTakenView>), Seq<RefusalView>> {
    match r {
        Ok(c) => Ok((c.line_list@, not_taken_views(c.not_taken@))),
        Err(e) => Err(e@),
    }
}

spec fn block_view(b: Option<Block>) -> Option<BlockView> {
    match b {
        Some(x) => Some(x@),
        None => None,
    }
}

pub open spec fn text_view(o: Option<Vec<char>>) -> Option<Seq<char>> {
    match o {
        Some(x) => Some(x@),
        None => None,
    }
}

pub open spec fn word_view(o: Option<&'static str>) -> Option<Seq<char>> {
    match o {
        Some(x) => Some(x@),
        None => None,
    }
}

pub open spec fn row_strings(v: Seq<String>) -> Seq<Seq<char>> {
    v.map_values(|s: String| s@)
}

/// One more line of the export.
#[verifier::rlimit(40)]
fn step(
    pieces: &Vec<Vec<char>>,
    i: usize,
    spectrum: &String,
    block: &mut Option<Block>,
    unit: &mut Option<Vec<char>>,
    first_medium: &mut Option<&'static str>,
    rows: &mut Vec<String>,
    reports: &mut Vec<NotTaken>,
    refusals: &mut Refusals,
)
    requires
        i < pieces@.len(),
    ensures
        ({
            let before = LinesState {
                block: block_view(*old(block)),
                unit: text_view(*old(unit)),
                first_medium: word_view(*old(first_medium)),
                rows: row_strings(old(rows)@),
                not_taken: not_taken_views(old(reports)@),
                refusals: old(refusals)@,
            };
            let after = step_v(before, texts(pieces@), i as int, spectrum@);
            &&& block_view(*final(block)) == after.block
            &&& text_view(*final(unit)) == after.unit
            &&& word_view(*final(first_medium)) == after.first_medium
            &&& row_strings(final(rows)@) == after.rows
            &&& not_taken_views(final(reports)@) == after.not_taken
            &&& final(refusals)@ == after.refusals
        }),
{
    let n = pieces.len();
    let line = i + 1;
    assert(texts(pieces@)[i as int] == pieces@[i as int]@);
    let content = strip_cr(pieces[i].as_slice());
    if content.len() == 0 {
        if i != n - 1 {
            refusals.push(Refusal::on_line(line, owned("the export carries a line with no bytes, and a blank line and a row of empty cells cannot be told apart afterwards")));
        }
        return;
    }
    let cells = split_chars(content.as_slice(), '\t');
    if first_beginning(&cells, "obs_wl_").is_some() {
        match Block::read(&cells, line) {
            Ok(read) => {
                match unit {
                    None => {
                        *unit = Some(slice_of(read.unit.as_slice(), 0, read.unit.len()));
                        assert(text_view(*unit) == Some(read@.unit));
                    },
                    Some(held) => {
                        if !crate::text::same_chars(held.as_slice(), read.unit.as_slice()) {
                            let mut m = owned("this block states positions in ");
                            let a = quote(read.unit.as_slice());
                            append(&mut m, a.as_str());
                            append(&mut m, " and an earlier one stated them in ");
                            let b = quote(held.as_slice());
                            append(&mut m, b.as_str());
                            append(&mut m, ", and a conforming line list has one unit for the file");
                            refusals.push(Refusal::field_on_line(line, owned("position_unit"), m));
                        }
                    },
                }
                if first_medium.is_none() {
                    *first_medium = Some(read.medium);
                }
                *block = Some(read);
            },
            Err(refusal) => {
                refusals.push(refusal);
                *block = None;
            },
        }
        return;
    }
    match block {
        None => {
            refusals.push(Refusal::on_line(line, owned("a data row stands before any header row, so nothing says which medium or unit its position is in")));
        },
        Some(b) => {
            let ghost rows_before = row_strings(rows@);
            match b.row(&cells, line, spectrum, reports) {
                Ok(Some(r)) => {
                    rows.push(r);
                    assert(row_strings(rows@) =~= rows_before.push(rows@.last()@));
                },
                Ok(None) => {},
                Err(found) => {
                    refusals.push_all(&found);
                },
            }
        },
    }
}

/// Every line of the export, read in order.
fn read_export(pieces: &Vec<Vec<char>>, spectrum: &String, refusals: &mut Refusals) -> (r: (Option<Vec<char>>, Option<&'static str>, Vec<String>, Vec<NotTaken>))
    ensures
        ({
            let start = LinesState {
                block: None,
                unit: None,
                first_medium: None,
                rows: Seq::empty(),
                not_taken: Seq::empty(),
                refusals: old(refusals)@,
            };
            let s = state_upto(texts(pieces@), pieces@.len() as int, spectrum@, start);
            &&& text_view(r.0) == s.unit
            &&& word_view(r.1) == s.first_medium
            &&& row_strings(r.2@) == s.rows
            &&& not_taken_views(r.3@) == s.not_taken
            &&& final(refusals)@ == s.refusals
        }),
{
    let ghost p = texts(pieces@);
    let ghost start = LinesState {
        block: None,
        unit: None,
        first_medium: None,
        rows: Seq::empty(),
        not_taken: Seq::empty(),
        refusals: refusals@,
    };
    let mut block: Option<Block> = None;
    let mut unit: Option<Vec<char>> = None;
    let mut first_medium: Option<&'static str> = None;
    let mut rows: Vec<String> = Vec::new();
    let mut reports: Vec<NotTaken> = Vec::new();
    assert(row_strings(rows@) =~= Seq::<Seq<char>>::empty());
    assert(not_taken_views(reports@) =~= Seq::<NotTakenView>::empty());
    let mut i: usize = 0;
    while i < pieces.len()
        invariant
            i <= pieces@.len(),
            p == texts(pieces@),
            ({
                let s = state_upto(p, i as int, spectrum@, start);
                &&& block_view(block) == s.block
                &&& text_view(unit) == s.unit
                &&& word_view(first_medium) == s.first_medium
                &&& row_strings(rows@) == s.rows
                &&& not_taken_views(reports@) == s.not_taken
                &&& refusals@ == s.refusals
            }),
        decreases pieces@.len() - i,
    {
        step(pieces, i, spectrum, &mut block, &mut unit, &mut first_medium, &mut rows, &mut reports, refusals);
        i = i + 1;
    }
    (unit, first_medium, rows, reports)
}

/// The emitted line list: the header block, the label row and every row.
fn emit(unit: &[char], medium: &str, id: &String, rows: &Vec<String>) -> (r: String)
    ensures
        r@ == line_list_head(unit@, medium@, id@) + rows_text(row_strings(rows@)),
{
    let mut out = owned("#contract_version\t1.0\n#position_unit\t");
    append_chars(&mut out, unit);
    append(&mut out, "\n#position_medium\t");
    append(&mut out, medium);
    append(&mut out, "\n#line_list_id\t");
    append(&mut out, id.as_str());
    append(&mut out, "\nfeature_id\tspectrum_id\tsegment_id\tposition\tposition_medium\tposition_uncertainty\tuncertainty_kind\tuncertainty_class\tintensity\tintensity_scale\tflags\tritz_position\n");
    let ghost head = out@;
    let mut k: usize = 0;
    while k < rows.len()
        invariant
            k <= rows@.len(),
            out@ == head + rows_text(row_strings(rows@).take(k as int)),
        decreases rows@.len() - k,
    {
        append(&mut out, rows[k].as_str());
        append(&mut out, "\n");
        proof {
            let t = row_strings(rows@).take(k + 1);
            assert(t.drop_last() =~= row_strings(rows@).take(k as int));
            assert(t.last() == rows@[k as int]@);
        }
        assert(out@ =~= head + rows_text(row_strings(rows@).take(k + 1)));
        k = k + 1;
    }
    assert(row_strings(rows@).take(rows@.len() as int) =~= row_strings(rows@));
    out
}

/// Convert an export into a conforming line list, or refuse naming the line.
pub fn convert(bytes: &[u8], naming: &Naming) -> (r: Result<Conversion, Refusals>)
    ensures
        conversion_outcome(r) == convert_v(bytes@, naming.spectrum_id@, naming.line_list_id@),
{
    let text = match crate::utf8::utf8_text(bytes) {
        Some(t) => t,
        None => {
            return Err(Refusals::single(Refusal::in_file(owned("the export is not UTF-8"))));
        },
    };
    let chars = chars_of(text);
    let pieces = split_chars(chars.as_slice(), '\n');
    let mut refusals = Refusals::new();
    check_naming(&mut refusals, "spectrum_id", naming.spectrum_id.as_str());
    check_naming(&mut refusals, "line_list_id", naming.line_list_id.as_str());
    let (unit, first_medium, rows, reports) = read_export(&pieces, &naming.spectrum_id, &mut refusals);
    match (unit, first_medium) {
        (Some(u), Some(m)) => {
            let line_list = emit(u.as_slice(), m, &naming.line_list_id, &rows);
            refusals.into_result(Conversion { line_list, not_taken: reports })
        },
        _ => {
            refusals.push(Refusal::in_file(owned("the export carries no header row naming an observed wavelength column, so no position in it has a medium or a unit")));
            Err(refusals)
        },
    }
}

} // verus!
