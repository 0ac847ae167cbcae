//! The transition rate table, which is the third file.
//!
//! A rate is a property of a pair of levels, so it is a property of neither an
//! observed feature nor a single level. The table is optional.
use vstd::prelude::*;
use crate::spectro_contract::columns::{columns_in_range, columns_v, positions, required_columns};
use crate::spectro_contract::document::{
    header_names, lemma_lexed_rows_fit, lex_bytes, outside, rows_fit, strings, Document,
    DocumentView, Row, RowView,
};
use crate::spectro_contract::level_set::{all_placed, lemma_columns_placed, lemma_placed_join, LevelSet, LevelSetView, LevelView};
use crate::spectro_contract::reading::{
    column_index, contract_version, contract_version_v, finish, finish_v, number_at, number_under,
    required_at, required_header, required_header_v, required_under, text_of, uncertainty_at, uncertainty_under,
};
use crate::spectro_contract::refusal::{
    absent_field_v, field_on_line_v, on_line_v, Refusal, RefusalView, Refusals,
};
use crate::spectro_contract::value::{words, Version};
use crate::text::{append, chars_of, owned, quote, quoted, same_chars};

verus! {

pub open spec fn rate_header_words() -> Seq<Seq<char>> {
    seq!["contract_version"@, "level_set_id"@, "rate_unit"@]
}

fn rate_header_fields() -> (r: &'static [&'static str])
    ensures
        words(r@) == rate_header_words(),
{
    let r: &'static [&'static str] = &["contract_version", "level_set_id", "rate_unit"];
    assert(words(r@) =~= rate_header_words());
    r
}

pub open spec fn rate_column_words() -> Seq<Seq<char>> {
    seq!["upper_level_id"@, "lower_level_id"@, "rate"@, "rate_uncertainty"@]
}

fn rate_columns() -> (r: &'static [&'static str])
    ensures
        words(r@) == rate_column_words(),
{
    let r: &'static [&'static str] = &["upper_level_id", "lower_level_id", "rate", "rate_uncertainty"];
    assert(words(r@) =~= rate_column_words());
    r
}

/// One rate as plain values.
pub struct RateView {
    pub line: usize,
    pub upper_level_id: Seq<char>,
    pub lower_level_id: Seq<char>,
    pub rate: Seq<char>,
    pub rate_uncertainty: Option<Seq<char>>,
}

/// One rate, for the transition between one pair of levels.
#[derive(Debug, PartialEq, Eq)]
pub struct Rate {
    pub line: usize,
    pub upper_level_id: String,
    pub lower_level_id: String,
    /// A finite number, as the file wrote it.
    pub rate: String,
    pub rate_uncertainty: Option<String>,
}

impl View for Rate {
    type V = RateView;

    open spec fn view(&self) -> RateView {
        RateView {
            line: self.line,
            upper_level_id: self.upper_level_id@,
            lower_level_id: self.lower_level_id@,
            rate: self.rate@,
            rate_uncertainty: text_of(self.rate_uncertainty),
        }
    }
}

pub open spec fn rate_views(v: Seq<Rate>) -> Seq<RateView> {
    v.map_values(|r: Rate| r@)
}

/// A rate table as plain values.
pub struct RateTableView {
    pub contract_version: (u32, u32),
    pub level_set_id: Seq<char>,
    pub rate_unit: Seq<char>,
    pub rates: Seq<RateView>,
    pub unknown_header_fields: Seq<Seq<char>>,
    pub unknown_columns: Seq<Seq<char>>,
}

/// A rate table that a reader accepted.
#[derive(Debug, PartialEq, Eq)]
pub struct RateTable {
    pub contract_version: Version,
    pub level_set_id: String,
    pub rate_unit: String,
    pub rates: Vec<Rate>,
    pub unknown_header_fields: Vec<String>,
    pub unknown_columns: Vec<String>,
}

impl View for RateTable {
    type V = RateTableView;

    open spec fn view(&self) -> RateTableView {
        RateTableView {
            contract_version: self.contract_version@,
            level_set_id: self.level_set_id@,
            rate_unit: self.rate_unit@,
            rates: rate_views(self.rates@),
            unknown_header_fields: strings(self.unknown_header_fields@),
            unknown_columns: strings(self.unknown_columns@),
        }
    }
}

pub open spec fn both_ends(v: Seq<char>) -> Seq<char> {
    quoted(v) + " is named as both ends of one transition"@
}

pub open spec fn repeated_pair(a: Seq<char>, b: Seq<char>) -> Seq<char> {
    "the pair "@ + quoted(a) + " to "@ + quoted(b) + " appears more than once, and a rate is one number per transition"@
}

/// One row read as a rate, and what it is refused for.
pub open spec fn rate_row_v(row: RowView, cols: Seq<Option<int>>, seen: Seq<(Seq<char>, Seq<char>)>) -> (Option<RateView>, Seq<RefusalView>) {
    let (upper, r1) = required_under(row, cols[0], "upper_level_id"@);
    let (lower, r2) = required_under(row, cols[1], "lower_level_id"@);
    let (rate, r3) = number_under(row, cols[2], "rate"@);
    let (unc, r4) = uncertainty_under(row, cols[3], "rate_uncertainty"@);
    let found = r1 + r2 + r3 + r4;
    if upper is Some && lower is Some && rate is Some && unc is Some {
        let u = upper.unwrap();
        let l = lower.unwrap();
        if u == l {
            (None, found + seq![field_on_line_v(row.0, "upper_level_id"@, both_ends(u))])
        } else if seen.contains((u, l)) {
            (None, found + seq![on_line_v(row.0, repeated_pair(u, l))])
        } else {
            (Some(RateView { line: row.0, upper_level_id: u, lower_level_id: l, rate: rate.unwrap(), rate_uncertainty: unc.unwrap() }), found)
        }
    } else {
        (None, found)
    }
}

/// The rates of the first `k` rows and what they are refused for.
pub open spec fn rates_upto(rows: Seq<RowView>, cols: Seq<Option<int>>, k: int) -> (Seq<RateView>, Seq<RefusalView>)
    decreases k,
{
    if k <= 0 {
        (Seq::empty(), Seq::empty())
    } else {
        let (rs, refused) = rates_upto(rows, cols, k - 1);
        let seen = rs.map_values(|r: RateView| (r.upper_level_id, r.lower_level_id));
        let (one, r) = rate_row_v(rows[k - 1], cols, seen);
        (
            match one {
                Some(x) => rs.push(x),
                None => rs,
            },
            refused + r,
        )
    }
}

/// What a document reads to as a rate table.
pub open spec fn rate_table_v(doc: DocumentView) -> Result<RateTableView, Seq<RefusalView>> {
    let (cv, r0) = contract_version_v(doc);
    let (id, r1) = required_header_v(doc, "level_set_id"@);
    let (unit, r2) = required_header_v(doc, "rate_unit"@);
    let (cols, r3) = columns_v(doc, rate_column_words(), 4);
    let (rates, r4) = rates_upto(doc.3, cols, doc.3.len() as int);
    let built = if cv is Some && id is Some && unit is Some {
        Some(RateTableView {
            contract_version: cv.unwrap(),
            level_set_id: id.unwrap(),
            rate_unit: unit.unwrap(),
            rates,
            unknown_header_fields: outside(header_names(doc.0), rate_header_words()),
            unknown_columns: outside(doc.1, rate_column_words()),
        })
    } else {
        None
    };
    finish_v(built, r0 + r1 + r2 + r3 + r4)
}

/// What the bytes of a file read to as a rate table.
pub open spec fn read_rate_table_v(b: Seq<u8>) -> Result<RateTableView, Seq<RefusalView>> {
    match lex_bytes(b) {
        Err(e) => Err(e),
        Ok(d) => rate_table_v(d),
    }
}

pub open spec fn rate_table_outcome(r: Result<RateTable, Refusals>) -> Result<RateTableView, Seq<RefusalView>> {
    match r {
        Ok(s) => Ok(s@),
        Err(e) => Err(e@),
    }
}

pub open spec fn pairs_of(rs: Seq<RateView>) -> Seq<(Seq<char>, Seq<char>)> {
    rs.map_values(|r: RateView| (r.upper_level_id, r.lower_level_id))
}

/// Whether a rate for this pair is already held.
fn pair_held(rates: &Vec<Rate>, upper: &String, lower: &String) -> (r: bool)
    ensures
        r == pairs_of(rate_views(rates@)).contains((upper@, lower@)),
{
    let u = chars_of(upper.as_str());
    let l = chars_of(lower.as_str());
    let ghost ps = pairs_of(rate_views(rates@));
    let mut i: usize = 0;
    while i < rates.len()
        invariant
            i <= rates@.len(),
            u@ == upper@,
            l@ == lower@,
            ps == pairs_of(rate_views(rates@)),
            forall|j: int| 0 <= j < i ==> ps[j] != (upper@, lower@),
        decreases rates@.len() - i,
    {
        let a = chars_of(rates[i].upper_level_id.as_str());
        let b = chars_of(rates[i].lower_level_id.as_str());
        if same_chars(a.as_slice(), u.as_slice()) && same_chars(b.as_slice(), l.as_slice()) {
            assert(ps[i as int] == (upper@, lower@));
            return true;
        }
        i = i + 1;
    }
    proof {
        if ps.contains((upper@, lower@)) {
            let j = choose|j: int| 0 <= j < ps.len() && ps[j] == (upper@, lower@);
            assert(ps[j] == (upper@, lower@));
        }
    }
    false
}

fn rate_row(row: &Row, cols: &Vec<Option<usize>>, rates: &mut Vec<Rate>, refusals: &mut Refusals)
    requires
        cols@.len() == 4,
        forall|i: int| 0 <= i < 4 ==> (#[trigger] cols@[i] matches Some(c) ==> c < row@.1.len()),
    ensures
        ({
            let want = rate_row_v(row@, positions(cols@), pairs_of(rate_views(old(rates)@)));
            &&& rate_views(final(rates)@) == match want.0 {
                Some(x) => rate_views(old(rates)@).push(x),
                None => rate_views(old(rates)@),
            }
            &&& final(refusals)@ == old(refusals)@ + want.1
        }),
{
    let ghost p = positions(cols@);
    let ghost s0 = refusals@;
    let ghost before = rate_views(rates@);
    assert forall|i: int| 0 <= i < 4 implies #[trigger] p[i] == column_index(cols@[i]) by {}
    let upper = required_at(row, cols[0], "upper_level_id", refusals);
    let lower = required_at(row, cols[1], "lower_level_id", refusals);
    let rate = number_at(row, cols[2], "rate", refusals);
    let unc = uncertainty_at(row, cols[3], "rate_uncertainty", refusals);
    let ghost found = refusals@;
    assert(found =~= s0 + (required_under(row@, p[0], "upper_level_id"@).1 + required_under(row@, p[1], "lower_level_id"@).1
        + number_under(row@, p[2], "rate"@).1 + uncertainty_under(row@, p[3], "rate_uncertainty"@).1));
    match (upper, lower, rate, unc) {
        (Some(u), Some(l), Some(rt), Some(un)) => {
            let uc = chars_of(u.as_str());
            let lc = chars_of(l.as_str());
            if same_chars(uc.as_slice(), lc.as_slice()) {
                let mut m = quote(uc.as_slice());
                append(&mut m, " is named as both ends of one transition");
                refusals.push(Refusal::field_on_line(row.line, owned("upper_level_id"), m));
                return;
            }
            if pair_held(rates, &u, &l) {
                let mut m = owned("the pair ");
                let qu = quote(uc.as_slice());
                append(&mut m, qu.as_str());
                append(&mut m, " to ");
                let ql = quote(lc.as_slice());
                append(&mut m, ql.as_str());
                append(&mut m, " appears more than once, and a rate is one number per transition");
                refusals.push(Refusal::on_line(row.line, m));
                return;
            }
            rates.push(Rate { line: row.line, upper_level_id: u, lower_level_id: l, rate: rt, rate_uncertainty: un });
            assert(rate_views(rates@) =~= before.push(rates@.last()@));
        },
        _ => {},
    }
}

fn rate_rows(doc: &Document, cols: &Vec<Option<usize>>, refusals: &mut Refusals) -> (r: Vec<Rate>)
    requires
        rows_fit(doc@),
        cols@.len() == 4,
        columns_in_range(doc@, positions(cols@)),
    ensures
        ({
            let want = rates_upto(doc@.3, positions(cols@), doc@.3.len() as int);
            &&& rate_views(r@) == want.0
            &&& final(refusals)@ == old(refusals)@ + want.1
        }),
{
    let ghost p = positions(cols@);
    let ghost start = refusals@;
    let mut rates: Vec<Rate> = Vec::new();
    let mut k: usize = 0;
    assert(rate_views(rates@) =~= Seq::<RateView>::empty());
    assert(start + Seq::<RefusalView>::empty() =~= start);
    while k < doc.rows.len()
        invariant
            k <= doc@.3.len(),
            p == positions(cols@),
            cols@.len() == 4,
            rows_fit(doc@),
            columns_in_range(doc@, p),
            rate_views(rates@) == rates_upto(doc@.3, p, k as int).0,
            refusals@ == start + rates_upto(doc@.3, p, k as int).1,
        decreases doc@.3.len() - k,
    {
        let row = &doc.rows[k];
        assert(doc@.3[k as int] == row@);
        assert(row@.1.len() == doc@.1.len());
        assert forall|i: int| 0 <= i < 4 implies (#[trigger] cols@[i] matches Some(c) ==> c < row@.1.len()) by {
            assert(p[i] == column_index(cols@[i]));
        }
        assert(pairs_of(rate_views(rates@)) == rates_upto(doc@.3, p, k as int).0.map_values(|r: RateView| (r.upper_level_id, r.lower_level_id)));
        rate_row(row, cols, &mut rates, refusals);
        assert(refusals@ =~= start + rates_upto(doc@.3, p, k + 1).1);
        k = k + 1;
    }
    rates
}

fn read_document(doc: &Document) -> (r: Result<RateTable, Refusals>)
    requires
        rows_fit(doc@),
    ensures
        rate_table_outcome(r) == rate_table_v(doc@),
{
    let mut refusals = Refusals::new();
    let cv = contract_version(doc, &mut refusals);
    let id = required_header(doc, &mut refusals, "level_set_id");
    let unit = required_header(doc, &mut refusals, "rate_unit");
    let names = rate_columns();
    assert(rate_column_words().len() == 4);
    let cols = required_columns(doc, &mut refusals, names);
    let rates = rate_rows(doc, &cols, &mut refusals);
    let unknown_header_fields = doc.headers_outside(rate_header_fields());
    let unknown_columns = doc.columns_outside(rate_columns());
    let built = match (cv, id, unit) {
        (Some(contract_version), Some(level_set_id), Some(rate_unit)) => Some(RateTable {
            contract_version,
            level_set_id,
            rate_unit,
            rates,
            unknown_header_fields,
            unknown_columns,
        }),
        _ => None,
    };
    proof {
        let r0 = contract_version_v(doc@).1;
        let r1 = required_header_v(doc@, "level_set_id"@).1;
        let r2 = required_header_v(doc@, "rate_unit"@).1;
        let r3 = columns_v(doc@, rate_column_words(), 4).1;
        let r4 = rates_upto(doc@.3, positions(cols@), doc@.3.len() as int).1;
        assert(refusals@ =~= r0 + r1 + r2 + r3 + r4);
        if built is Some {
            assert(built->0@.rates == rates_upto(doc@.3, positions(cols@), doc@.3.len() as int).0);
        }
    }
    finish(refusals, built)
}

/// Read a rate table, or refuse naming every field and line that failed.
pub fn read(bytes: &[u8]) -> (r: Result<RateTable, Refusals>)
    ensures
        rate_table_outcome(r) == read_rate_table_v(bytes@),
{
    proof {
        lemma_lexed_rows_fit(bytes@);
    }
    match Document::lex(bytes) {
        Ok(doc) => read_document(&doc),
        Err(e) => Err(e),
    }
}

/// Whether the level set carries a level of that identifier.
pub open spec fn carries(levels: Seq<LevelView>, id: Seq<char>) -> bool {
    exists|i: int| 0 <= i < levels.len() && levels[i].level_id == id
}

pub open spec fn not_carried(id: Seq<char>) -> Seq<char> {
    quoted(id) + " names a level the level set does not carry"@
}

/// What one identifier of a row is refused for against the level set.
pub open spec fn identifier_check(levels: Seq<LevelView>, line: usize, label: Seq<char>, id: Seq<char>) -> Seq<RefusalView> {
    if carries(levels, id) {
        Seq::empty()
    } else {
        seq![field_on_line_v(line, label, not_carried(id))]
    }
}

pub open spec fn stated_against(what: Seq<char>, mine: Seq<char>, theirs: Seq<char>) -> Seq<char> {
    what + " is stated against "@ + quoted(mine) + " and the level set is "@ + quoted(theirs)
}

/// What a rate table is refused for against a level set: a different
/// identifier, and each level it names that the set does not carry.
pub open spec fn rates_check_v(t: RateTableView, levels: LevelSetView) -> Seq<RefusalView> {
    (if t.level_set_id != levels.level_set_id {
        seq![absent_field_v("level_set_id"@, stated_against("the rate table"@, t.level_set_id, levels.level_set_id))]
    } else {
        Seq::empty()
    }) + rates_ids_check(t.rates, levels.levels, t.rates.len() as int)
}

pub open spec fn rates_ids_check(rates: Seq<RateView>, levels: Seq<LevelView>, k: int) -> Seq<RefusalView>
    decreases k,
{
    if k <= 0 {
        Seq::empty()
    } else {
        let r = rates[k - 1];
        rates_ids_check(rates, levels, k - 1) + identifier_check(levels, r.line, "upper_level_id"@, r.upper_level_id)
            + identifier_check(levels, r.line, "lower_level_id"@, r.lower_level_id)
    }
}

/// Whether a level of that identifier is in the set.
pub fn level_carried(levels: &LevelSet, id: &String) -> (r: bool)
    ensures
        r == carries(levels@.levels, id@),
{
    let c = chars_of(id.as_str());
    let mut i: usize = 0;
    while i < levels.levels.len()
        invariant
            i <= levels.levels@.len(),
            c@ == id@,
            forall|j: int| 0 <= j < i ==> levels@.levels[j].level_id != id@,
        decreases levels.levels@.len() - i,
    {
        let held = chars_of(levels.levels[i].level_id.as_str());
        if same_chars(held.as_slice(), c.as_slice()) {
            assert(levels@.levels[i as int].level_id == id@);
            return true;
        }
        i = i + 1;
    }
    false
}

/// Refuse one identifier the level set does not carry.
pub fn check_identifier(levels: &LevelSet, line: usize, label: &str, id: &String, refusals: &mut Refusals)
    ensures
        final(refusals)@ == old(refusals)@ + identifier_check(levels@.levels, line, label@, id@),
{
    if level_carried(levels, id) {
        assert(old(refusals)@ + Seq::<RefusalView>::empty() =~= old(refusals)@);
    } else {
        let c = chars_of(id.as_str());
        let mut m = quote(c.as_slice());
        append(&mut m, " names a level the level set does not carry");
        refusals.push(Refusal::field_on_line(line, owned(label), m));
    }
}

/// The refusal for a file stated against another level set.
pub fn stated_against_text(what: &str, mine: &String, theirs: &String) -> (r: String)
    ensures
        r@ == stated_against(what@, mine@, theirs@),
{
    let mut m = owned(what);
    append(&mut m, " is stated against ");
    let a = chars_of(mine.as_str());
    let qa = quote(a.as_slice());
    append(&mut m, qa.as_str());
    append(&mut m, " and the level set is ");
    let b = chars_of(theirs.as_str());
    let qb = quote(b.as_slice());
    append(&mut m, qb.as_str());
    m
}

impl RateTable {
    /// Refuse a rate table that is not about this level set.
    pub fn check_against(&self, levels: &LevelSet) -> (r: Result<(), Refusals>)
        ensures
            ({
                let want = rates_check_v(self@, levels@);
                &&& r is Ok <==> want.len() == 0
                &&& r matches Err(e) ==> e@ == want
            }),
    {
        let mut refusals = Refusals::new();
        let same = {
            let a = chars_of(self.level_set_id.as_str());
            let b = chars_of(levels.level_set_id.as_str());
            same_chars(a.as_slice(), b.as_slice())
        };
        if !same {
            let m = stated_against_text("the rate table", &self.level_set_id, &levels.level_set_id);
            refusals.push(Refusal::absent_field(owned("level_set_id"), m));
        }
        let ghost first = refusals@;
        let mut i: usize = 0;
        assert(first + Seq::<RefusalView>::empty() =~= first);
        while i < self.rates.len()
            invariant
                i <= self@.rates.len(),
                refusals@ == first + rates_ids_check(self@.rates, levels@.levels, i as int),
            decreases self@.rates.len() - i,
        {
            let rate = &self.rates[i];
            assert(self@.rates[i as int] == rate@);
            check_identifier(levels, rate.line, "upper_level_id", &rate.upper_level_id, &mut refusals);
            check_identifier(levels, rate.line, "lower_level_id", &rate.lower_level_id, &mut refusals);
            assert(refusals@ =~= first + rates_ids_check(self@.rates, levels@.levels, i + 1));
            i = i + 1;
        }
        refusals.into_result(())
    }
}


proof fn lemma_rate_row_placed(row: RowView, cols: Seq<Option<int>>, seen: Seq<(Seq<char>, Seq<char>)>)
    ensures
        all_placed(rate_row_v(row, cols, seen).1),
{
    let (_, r1) = required_under(row, cols[0], "upper_level_id"@);
    let (_, r2) = required_under(row, cols[1], "lower_level_id"@);
    let (_, r3) = number_under(row, cols[2], "rate"@);
    let (_, r4) = uncertainty_under(row, cols[3], "rate_uncertainty"@);
    assert(all_placed(r1));
    assert(all_placed(r2));
    assert(all_placed(r3));
    assert(all_placed(r4));
    lemma_placed_join(r1, r2);
    lemma_placed_join(r1 + r2, r3);
    lemma_placed_join(r1 + r2 + r3, r4);
    let found = r1 + r2 + r3 + r4;
    let extra = rate_row_v(row, cols, seen).1;
    if extra.len() > found.len() {
        let last = extra.last();
        assert(extra =~= found + seq![last]);
        assert(all_placed(seq![last]));
        lemma_placed_join(found, seq![last]);
    } else {
        assert(extra =~= found);
    }
}

proof fn lemma_rates_placed(rows: Seq<RowView>, cols: Seq<Option<int>>, k: int)
    ensures
        all_placed(rates_upto(rows, cols, k).1),
    decreases k,
{
    if k > 0 {
        lemma_rates_placed(rows, cols, k - 1);
        let (rs, refused) = rates_upto(rows, cols, k - 1);
        let seen = rs.map_values(|r: RateView| (r.upper_level_id, r.lower_level_id));
        lemma_rate_row_placed(rows[k - 1], cols, seen);
        lemma_placed_join(refused, rate_row_v(rows[k - 1], cols, seen).1);
    }
}

#[verifier::spinoff_prover]
proof fn lemma_rate_document_placed(doc: DocumentView)
    ensures
        rate_table_v(doc) matches Err(rs) ==> all_placed(rs),
{
    let (cv, r0) = contract_version_v(doc);
    let (id, r1) = required_header_v(doc, "level_set_id"@);
    let (unit, r2) = required_header_v(doc, "rate_unit"@);
    let (cols, r3) = columns_v(doc, rate_column_words(), 4);
    let r4 = rates_upto(doc.3, cols, doc.3.len() as int).1;
    assert(all_placed(r0));
    assert(all_placed(r1));
    assert(all_placed(r2));
    lemma_placed_join(r0, r1);
    lemma_placed_join(r0 + r1, r2);
    lemma_columns_placed(doc, rate_column_words(), 4);
    lemma_rates_placed(doc.3, cols, doc.3.len() as int);
    lemma_placed_join(r0 + r1 + r2, r3);
    lemma_placed_join(r0 + r1 + r2 + r3, r4);
    assert(cv is None ==> r0.len() == 1);
    assert(id is None ==> r1.len() == 1);
    assert(unit is None ==> r2.len() == 1);
}

/// A rate table is refused, where it is refused, only with refusals that each
/// name the field or the line they are about, unless the lexer refuses the
/// file as a whole before any line of it is read: bytes that are not UTF-8, a
/// UTF-16 byte order mark, or no label row.
pub proof fn law_every_rate_refusal_names_a_place(bytes: Seq<u8>)
    ensures
        (match lex_bytes(bytes) {
            Ok(_) => true,
            Err(e) => all_placed(e),
        }) ==> (read_rate_table_v(bytes) matches Err(rs) ==> all_placed(rs)),
{
    if let Ok(doc) = lex_bytes(bytes) {
        lemma_rate_document_placed(doc);
    }
}

/// No two rates name the same transition, and no rate names one level as both
/// of its ends.
pub open spec fn one_rate_per_transition(rates: Seq<RateView>) -> bool {
    &&& forall|i: int, j: int| 0 <= i < j < rates.len() ==> !((#[trigger] rates[i]).upper_level_id == (#[trigger] rates[j]).upper_level_id
        && rates[i].lower_level_id == rates[j].lower_level_id)
    &&& forall|i: int| 0 <= i < rates.len() ==> (#[trigger] rates[i]).upper_level_id != rates[i].lower_level_id
}

proof fn lemma_rates_one_per_transition(rows: Seq<RowView>, cols: Seq<Option<int>>, k: int)
    ensures
        one_rate_per_transition(rates_upto(rows, cols, k).0),
    decreases k,
{
    if k > 0 {
        lemma_rates_one_per_transition(rows, cols, k - 1);
        let (rs, refused) = rates_upto(rows, cols, k - 1);
        let seen = rs.map_values(|r: RateView| (r.upper_level_id, r.lower_level_id));
        let (one, r) = rate_row_v(rows[k - 1], cols, seen);
        if let Some(x) = one {
            let all = rs.push(x);
            assert(!seen.contains((x.upper_level_id, x.lower_level_id)));
            assert forall|i: int, j: int| 0 <= i < j < all.len() implies !((#[trigger] all[i]).upper_level_id == (#[trigger] all[j]).upper_level_id
                && all[i].lower_level_id == all[j].lower_level_id) by {
                assert(all[i] == rs[i]);
                if j == rs.len() {
                    assert(all[j] == x);
                    assert(seen[i] == (rs[i].upper_level_id, rs[i].lower_level_id));
                } else {
                    assert(all[j] == rs[j]);
                }
            }
            assert forall|i: int| 0 <= i < all.len() implies (#[trigger] all[i]).upper_level_id != all[i].lower_level_id by {
                if i < rs.len() {
                    assert(all[i] == rs[i]);
                }
            }
        }
    }
}

/// A rate is one number per transition: a rate table that reads holds no two
/// rates for the same pair of levels, in the same order, and none that names
/// one level as both ends.
pub proof fn law_a_rate_table_holds_one_rate_per_transition(bytes: Seq<u8>)
    ensures
        read_rate_table_v(bytes) matches Ok(t) ==> one_rate_per_transition(t.rates),
{
    if let Ok(doc) = lex_bytes(bytes) {
        let (cols, r3) = columns_v(doc, rate_column_words(), 4);
        lemma_rates_one_per_transition(doc.3, cols, doc.3.len() as int);
    }
}

proof fn lemma_rates_every_row(rows: Seq<RowView>, cols: Seq<Option<int>>, k: int)
    requires
        0 <= k <= rows.len(),
        cols.len() == 4,
        forall|i: int| 0 <= i < 4 ==> (#[trigger] cols[i]) is Some,
        rates_upto(rows, cols, k).1.len() == 0,
    ensures
        rates_upto(rows, cols, k).0.len() == k,
        forall|i: int| 0 <= i < k ==> (#[trigger] rates_upto(rows, cols, k).0[i]).line == rows[i].0,
    decreases k,
{
    if k > 0 {
        let (rs, refused) = rates_upto(rows, cols, k - 1);
        let seen = rs.map_values(|r: RateView| (r.upper_level_id, r.lower_level_id));
        let (one, r) = rate_row_v(rows[k - 1], cols, seen);
        assert(refused.len() == 0 && r.len() == 0);
        lemma_rates_every_row(rows, cols, k - 1);
        assert(cols[0] is Some && cols[1] is Some && cols[2] is Some && cols[3] is Some);
        assert(one is Some);
        let all = rs.push(one->Some_0);
        assert forall|i: int| 0 <= i < k implies (#[trigger] all[i]).line == rows[i].0 by {
            if i < k - 1 {
                assert(all[i] == rs[i]);
            }
        }
    }
}

/// A rate table that reads holds one rate for every row of its body, in
/// order, each from its own line: no row is passed over, so a row the reader
/// does not take is refused.
pub proof fn law_a_rate_table_reads_every_row(bytes: Seq<u8>)
    ensures
        read_rate_table_v(bytes) matches Ok(t) ==> (lex_bytes(bytes) matches Ok(d) && t.rates.len() == d.3.len()
            && forall|i: int| 0 <= i < d.3.len() ==> (#[trigger] t.rates[i]).line == d.3[i].0),
{
    if let Ok(doc) = lex_bytes(bytes) {
        if let Ok(t) = read_rate_table_v(bytes) {
            let (cv, r0) = contract_version_v(doc);
            let (id, r1) = required_header_v(doc, "level_set_id"@);
            let (unit, r2) = required_header_v(doc, "rate_unit"@);
            let (cols, r3) = columns_v(doc, rate_column_words(), 4);
            let (rates, r4) = rates_upto(doc.3, cols, doc.3.len() as int);
            assert((r0 + r1 + r2 + r3 + r4).len() == 0);
            crate::spectro_contract::columns::lemma_columns_all_found(doc, rate_column_words(), 4);
            lemma_rates_every_row(doc.3, cols, doc.3.len() as int);
        }
    }
}

proof fn lemma_rate_ids_check_empty(rates: Seq<RateView>, levels: Seq<LevelView>, k: int)
    requires
        0 <= k <= rates.len(),
    ensures
        rates_ids_check(rates, levels, k).len() == 0 <==> forall|i: int| 0 <= i < k
            ==> carries(levels, (#[trigger] rates[i]).upper_level_id) && carries(levels, rates[i].lower_level_id),
    decreases k,
{
    if k > 0 {
        lemma_rate_ids_check_empty(rates, levels, k - 1);
    }
}

/// A rate table is accepted against a level set exactly when it states that
/// set's identifier and both levels of every rate are levels the set carries.
pub proof fn law_a_rate_table_is_accepted_exactly_when_it_names_only_carried_levels(t: RateTableView, levels: LevelSetView)
    ensures
        rates_check_v(t, levels).len() == 0 <==> (t.level_set_id == levels.level_set_id && forall|i: int|
            0 <= i < t.rates.len() ==> carries(levels.levels, (#[trigger] t.rates[i]).upper_level_id)
            && carries(levels.levels, t.rates[i].lower_level_id)),
{
    lemma_rate_ids_check_empty(t.rates, levels.levels, t.rates.len() as int);
}

/// A row whose cells all read is taken exactly when it names two different
/// levels and a transition not already held; one that repeats a held
/// transition is refused on its own line.
pub proof fn law_a_rate_row_is_taken_exactly_when_its_transition_is_new(
    row: RowView,
    cols: Seq<Option<int>>,
    seen: Seq<(Seq<char>, Seq<char>)>,
)
    requires
        required_under(row, cols[0], "upper_level_id"@).0 is Some,
        required_under(row, cols[1], "lower_level_id"@).0 is Some,
        number_under(row, cols[2], "rate"@).0 is Some,
        uncertainty_under(row, cols[3], "rate_uncertainty"@).0 is Some,
    ensures
        ({
            let u = required_under(row, cols[0], "upper_level_id"@).0->Some_0;
            let l = required_under(row, cols[1], "lower_level_id"@).0->Some_0;
            let (taken, refused) = rate_row_v(row, cols, seen);
            &&& taken is Some <==> (u != l && !seen.contains((u, l)))
            &&& taken matches Some(x) ==> x.line == row.0 && x.upper_level_id == u && x.lower_level_id == l
            &&& taken is None ==> refused.len() > 0 && refused.last().0 == Some(row.0)
        }),
{
}

/// Reading row by row, a rate table keeps every rate it took and takes a row
/// whose cells read exactly when the row names two different levels and a
/// transition none of the rates already taken names.
pub proof fn law_a_rate_table_takes_a_row_exactly_when_its_transition_is_new(rows: Seq<RowView>, cols: Seq<Option<int>>, k: int)
    requires
        0 < k <= rows.len(),
        required_under(rows[k - 1], cols[0], "upper_level_id"@).0 is Some,
        required_under(rows[k - 1], cols[1], "lower_level_id"@).0 is Some,
        number_under(rows[k - 1], cols[2], "rate"@).0 is Some,
        uncertainty_under(rows[k - 1], cols[3], "rate_uncertainty"@).0 is Some,
    ensures
        ({
            let u = required_under(rows[k - 1], cols[0], "upper_level_id"@).0->Some_0;
            let l = required_under(rows[k - 1], cols[1], "lower_level_id"@).0->Some_0;
            let before = rates_upto(rows, cols, k - 1).0;
            let after = rates_upto(rows, cols, k).0;
            &&& after.take(before.len() as int) == before
            &&& after.len() == before.len() + 1 <==> (u != l && !exists|i: int| 0 <= i < before.len()
                && (#[trigger] before[i]).upper_level_id == u && before[i].lower_level_id == l)
            &&& after.len() == before.len() || after.len() == before.len() + 1
        }),
{
    let u = required_under(rows[k - 1], cols[0], "upper_level_id"@).0->Some_0;
    let l = required_under(rows[k - 1], cols[1], "lower_level_id"@).0->Some_0;
    let before = rates_upto(rows, cols, k - 1).0;
    let seen = before.map_values(|r: RateView| (r.upper_level_id, r.lower_level_id));
    law_a_rate_row_is_taken_exactly_when_its_transition_is_new(rows[k - 1], cols, seen);
    if seen.contains((u, l)) {
        let i = choose|i: int| 0 <= i < seen.len() && seen[i] == (u, l);
        assert(before[i].upper_level_id == u && before[i].lower_level_id == l);
    }
    if exists|i: int| 0 <= i < before.len() && (#[trigger] before[i]).upper_level_id == u && before[i].lower_level_id == l {
        let i = choose|i: int| 0 <= i < before.len() && (#[trigger] before[i]).upper_level_id == u && before[i].lower_level_id == l;
        assert(seen[i] == (u, l));
    }
    let after = rates_upto(rows, cols, k).0;
    assert(after.take(before.len() as int) =~= before);
}

} // verus!
