//! The covariance companion a level set names in `covariance_file`.
//!
//! Its body is the upper triangle, including the diagonal, of the covariance of
//! level energies, one `level_id` by `level_id` pair per row; a pair not listed
//! is zero.
use vstd::prelude::*;
use crate::spectro_contract::columns::{columns_in_range, columns_v, positions, required_columns};
use crate::spectro_contract::document::{
    header_names, lemma_lexed_rows_fit, lex_bytes, outside, rows_fit, strings, Document,
    DocumentView, Row, RowView,
};
use crate::spectro_contract::level_set::{LevelSet, LevelSetView, LevelView};
use crate::spectro_contract::reading::{
    column_index, contract_version, contract_version_v, finish, finish_v, number_at, number_under,
    required_at, required_header, required_header_v, required_under,
};
use crate::spectro_contract::rates::{
    carries, check_identifier, identifier_check, stated_against, stated_against_text,
};
use crate::spectro_contract::refusal::{absent_field_v, on_line_v, Refusal, RefusalView, Refusals};
use crate::spectro_contract::value::{version_text, words, Version};
use crate::text::{append, chars_of, owned, quote, quoted, same_chars};

verus! {

pub open spec fn covariance_header_words() -> Seq<Seq<char>> {
    seq!["contract_version"@, "level_set_id"@]
}

fn covariance_header_fields() -> (r: &'static [&'static str])
    ensures
        words(r@) == covariance_header_words(),
{
    let r: &'static [&'static str] = &["contract_version", "level_set_id"];
    assert(words(r@) =~= covariance_header_words());
    r
}

pub open spec fn covariance_column_words() -> Seq<Seq<char>> {
    seq!["level_id_a"@, "level_id_b"@, "covariance"@]
}

fn covariance_columns() -> (r: &'static [&'static str])
    ensures
        words(r@) == covariance_column_words(),
{
    let r: &'static [&'static str] = &["level_id_a", "level_id_b", "covariance"];
    assert(words(r@) =~= covariance_column_words());
    r
}

/// One entry as plain values.
pub struct EntryView {
    pub line: usize,
    pub level_id_a: Seq<char>,
    pub level_id_b: Seq<char>,
    pub covariance: Seq<char>,
}

/// One entry of the upper triangle.
#[derive(Debug, PartialEq, Eq)]
pub struct Entry {
    pub line: usize,
    pub level_id_a: String,
    pub level_id_b: String,
    /// A finite number, as the file wrote it.
    pub covariance: String,
}

impl View for Entry {
    type V = EntryView;

    open spec fn view(&self) -> EntryView {
        EntryView {
            line: self.line,
            level_id_a: self.level_id_a@,
            level_id_b: self.level_id_b@,
            covariance: self.covariance@,
        }
    }
}

pub open spec fn entry_views(v: Seq<Entry>) -> Seq<EntryView> {
    v.map_values(|e: Entry| e@)
}

/// A covariance companion as plain values.
pub struct CovarianceView {
    pub contract_version: (u32, u32),
    pub level_set_id: Seq<char>,
    pub entries: Seq<EntryView>,
    pub unknown_header_fields: Seq<Seq<char>>,
    pub unknown_columns: Seq<Seq<char>>,
}

/// A covariance companion that a reader accepted.
#[derive(Debug, PartialEq, Eq)]
pub struct Covariance {
    pub contract_version: Version,
    pub level_set_id: String,
    pub entries: Vec<Entry>,
    pub unknown_header_fields: Vec<String>,
    pub unknown_columns: Vec<String>,
}

impl View for Covariance {
    type V = CovarianceView;

    open spec fn view(&self) -> CovarianceView {
        CovarianceView {
            contract_version: self.contract_version@,
            level_set_id: self.level_set_id@,
            entries: entry_views(self.entries@),
            unknown_header_fields: strings(self.unknown_header_fields@),
            unknown_columns: strings(self.unknown_columns@),
        }
    }
}

pub open spec fn repeated_entry(a: Seq<char>, b: Seq<char>) -> Seq<char> {
    "the pair "@ + quoted(a) + " and "@ + quoted(b)
        + " appears more than once, and the body is the upper triangle rather than the whole matrix"@
}

pub open spec fn pairs_of(es: Seq<EntryView>) -> Seq<(Seq<char>, Seq<char>)> {
    es.map_values(|e: EntryView| (e.level_id_a, e.level_id_b))
}

/// One row read as an entry, and what it is refused for: a pair already held
/// either way round is refused.
pub open spec fn entry_row_v(row: RowView, cols: Seq<Option<int>>, held: Seq<EntryView>) -> (Option<EntryView>, Seq<RefusalView>) {
    let (a, r1) = required_under(row, cols[0], "level_id_a"@);
    let (b, r2) = required_under(row, cols[1], "level_id_b"@);
    let (v, r3) = number_under(row, cols[2], "covariance"@);
    let found = r1 + r2 + r3;
    if a is Some && b is Some && v is Some {
        let x = a.unwrap();
        let y = b.unwrap();
        if pairs_of(held).contains((x, y)) || pairs_of(held).contains((y, x)) {
            (None, found + seq![on_line_v(row.0, repeated_entry(x, y))])
        } else {
            (Some(EntryView { line: row.0, level_id_a: x, level_id_b: y, covariance: v.unwrap() }), found)
        }
    } else {
        (None, found)
    }
}

/// The entries of the first `k` rows and what they are refused for.
pub open spec fn entries_upto(rows: Seq<RowView>, cols: Seq<Option<int>>, k: int) -> (Seq<EntryView>, Seq<RefusalView>)
    decreases k,
{
    if k <= 0 {
        (Seq::empty(), Seq::empty())
    } else {
        let (es, refused) = entries_upto(rows, cols, k - 1);
        let (one, r) = entry_row_v(rows[k - 1], cols, es);
        (
            match one {
                Some(x) => es.push(x),
                None => es,
            },
            refused + r,
        )
    }
}

/// What a document reads to as a covariance companion.
pub open spec fn covariance_v(doc: DocumentView) -> Result<CovarianceView, Seq<RefusalView>> {
    let (cv, r0) = contract_version_v(doc);
    let (id, r1) = required_header_v(doc, "level_set_id"@);
    let (cols, r2) = columns_v(doc, covariance_column_words(), 3);
    let (entries, r3) = entries_upto(doc.3, cols, doc.3.len() as int);
    let built = if cv is Some && id is Some {
        Some(CovarianceView {
            contract_version: cv.unwrap(),
            level_set_id: id.unwrap(),
            entries,
            unknown_header_fields: outside(header_names(doc.0), covariance_header_words()),
            unknown_columns: outside(doc.1, covariance_column_words()),
        })
    } else {
        None
    };
    finish_v(built, r0 + r1 + r2 + r3)
}

/// What the bytes of a file read to as a covariance companion.
pub open spec fn read_covariance_v(b: Seq<u8>) -> Result<CovarianceView, Seq<RefusalView>> {
    match lex_bytes(b) {
        Err(e) => Err(e),
        Ok(d) => covariance_v(d),
    }
}

pub open spec fn covariance_outcome(r: Result<Covariance, Refusals>) -> Result<CovarianceView, Seq<RefusalView>> {
    match r {
        Ok(s) => Ok(s@),
        Err(e) => Err(e@),
    }
}

/// Whether an entry for this pair is already held.
fn pair_held(entries: &Vec<Entry>, a: &Vec<char>, b: &Vec<char>) -> (r: bool)
    ensures
        r == pairs_of(entry_views(entries@)).contains((a@, b@)),
{
    let ghost ps = pairs_of(entry_views(entries@));
    let mut i: usize = 0;
    while i < entries.len()
        invariant
            i <= entries@.len(),
            ps == pairs_of(entry_views(entries@)),
            forall|j: int| 0 <= j < i ==> ps[j] != (a@, b@),
        decreases entries@.len() - i,
    {
        let x = chars_of(entries[i].level_id_a.as_str());
        let y = chars_of(entries[i].level_id_b.as_str());
        if same_chars(x.as_slice(), a.as_slice()) && same_chars(y.as_slice(), b.as_slice()) {
            assert(ps[i as int] == (a@, b@));
            return true;
        }
        i = i + 1;
    }
    proof {
        if ps.contains((a@, b@)) {
            let j = choose|j: int| 0 <= j < ps.len() && ps[j] == (a@, b@);
            assert(ps[j] == (a@, b@));
        }
    }
    false
}

fn entry_row(row: &Row, cols: &Vec<Option<usize>>, entries: &mut Vec<Entry>, refusals: &mut Refusals)
    requires
        cols@.len() == 3,
        forall|i: int| 0 <= i < 3 ==> (#[trigger] cols@[i] matches Some(c) ==> c < row@.1.len()),
    ensures
        ({
            let want = entry_row_v(row@, positions(cols@), entry_views(old(entries)@));
            &&& entry_views(final(entries)@) == match want.0 {
                Some(x) => entry_views(old(entries)@).push(x),
                None => entry_views(old(entries)@),
            }
            &&& final(refusals)@ == old(refusals)@ + want.1
        }),
{
    let ghost p = positions(cols@);
    let ghost s0 = refusals@;
    let ghost before = entry_views(entries@);
    assert forall|i: int| 0 <= i < 3 implies #[trigger] p[i] == column_index(cols@[i]) by {}
    let a = required_at(row, cols[0], "level_id_a", refusals);
    let b = required_at(row, cols[1], "level_id_b", refusals);
    let v = number_at(row, cols[2], "covariance", refusals);
    assert(refusals@ =~= s0 + (required_under(row@, p[0], "level_id_a"@).1 + required_under(row@, p[1], "level_id_b"@).1
        + number_under(row@, p[2], "covariance"@).1));
    match (a, b, v) {
        (Some(x), Some(y), Some(c)) => {
            let xc = chars_of(x.as_str());
            let yc = chars_of(y.as_str());
            if pair_held(entries, &xc, &yc) || pair_held(entries, &yc, &xc) {
                let mut m = owned("the pair ");
                let qx = quote(xc.as_slice());
                append(&mut m, qx.as_str());
                append(&mut m, " and ");
                let qy = quote(yc.as_slice());
                append(&mut m, qy.as_str());
                append(&mut m, " appears more than once, and the body is the upper triangle rather than the whole matrix");
                refusals.push(Refusal::on_line(row.line, m));
                return;
            }
            entries.push(Entry { line: row.line, level_id_a: x, level_id_b: y, covariance: c });
            assert(entry_views(entries@) =~= before.push(entries@.last()@));
        },
        _ => {},
    }
}

fn entry_rows(doc: &Document, cols: &Vec<Option<usize>>, refusals: &mut Refusals) -> (r: Vec<Entry>)
    requires
        rows_fit(doc@),
        cols@.len() == 3,
        columns_in_range(doc@, positions(cols@)),
    ensures
        ({
            let want = entries_upto(doc@.3, positions(cols@), doc@.3.len() as int);
            &&& entry_views(r@) == want.0
            &&& final(refusals)@ == old(refusals)@ + want.1
        }),
{
    let ghost p = positions(cols@);
    let ghost start = refusals@;
    let mut entries: Vec<Entry> = Vec::new();
    let mut k: usize = 0;
    assert(entry_views(entries@) =~= Seq::<EntryView>::empty());
    assert(start + Seq::<RefusalView>::empty() =~= start);
    while k < doc.rows.len()
        invariant
            k <= doc@.3.len(),
            p == positions(cols@),
            cols@.len() == 3,
            rows_fit(doc@),
            columns_in_range(doc@, p),
            entry_views(entries@) == entries_upto(doc@.3, p, k as int).0,
            refusals@ == start + entries_upto(doc@.3, p, k as int).1,
        decreases doc@.3.len() - k,
    {
        let row = &doc.rows[k];
        assert(doc@.3[k as int] == row@);
        assert(row@.1.len() == doc@.1.len());
        assert forall|i: int| 0 <= i < 3 implies (#[trigger] cols@[i] matches Some(c) ==> c < row@.1.len()) by {
            assert(p[i] == column_index(cols@[i]));
        }
        entry_row(row, cols, &mut entries, refusals);
        assert(refusals@ =~= start + entries_upto(doc@.3, p, k + 1).1);
        k = k + 1;
    }
    entries
}

fn read_document(doc: &Document) -> (r: Result<Covariance, Refusals>)
    requires
        rows_fit(doc@),
    ensures
        covariance_outcome(r) == covariance_v(doc@),
{
    let mut refusals = Refusals::new();
    let cv = contract_version(doc, &mut refusals);
    let id = required_header(doc, &mut refusals, "level_set_id");
    let names = covariance_columns();
    assert(covariance_column_words().len() == 3);
    let cols = required_columns(doc, &mut refusals, names);
    let entries = entry_rows(doc, &cols, &mut refusals);
    let unknown_header_fields = doc.headers_outside(covariance_header_fields());
    let unknown_columns = doc.columns_outside(covariance_columns());
    let built = match (cv, id) {
        (Some(contract_version), Some(level_set_id)) => Some(Covariance {
            contract_version,
            level_set_id,
            entries,
            unknown_header_fields,
            unknown_columns,
        }),
        _ => None,
    };
    proof {
        let r0 = contract_version_v(doc@).1;
        let r1 = required_header_v(doc@, "level_set_id"@).1;
        let r2 = columns_v(doc@, covariance_column_words(), 3).1;
        let r3 = entries_upto(doc@.3, positions(cols@), doc@.3.len() as int).1;
        assert(refusals@ =~= r0 + r1 + r2 + r3);
        if built is Some {
            assert(built->0@.entries == entries_upto(doc@.3, positions(cols@), doc@.3.len() as int).0);
        }
    }
    finish(refusals, built)
}

/// Read a covariance companion, or refuse naming the field and the line.
pub fn read(bytes: &[u8]) -> (r: Result<Covariance, Refusals>)
    ensures
        covariance_outcome(r) == read_covariance_v(bytes@),
{
    proof {
        lemma_lexed_rows_fit(bytes@);
    }
    match Document::lex(bytes) {
        Ok(doc) => read_document(&doc),
        Err(e) => Err(e),
    }
}

pub open spec fn entries_ids_check(entries: Seq<EntryView>, levels: Seq<LevelView>, k: int) -> Seq<RefusalView>
    decreases k,
{
    if k <= 0 {
        Seq::empty()
    } else {
        let e = entries[k - 1];
        entries_ids_check(entries, levels, k - 1) + identifier_check(levels, e.line, "level_id_a"@, e.level_id_a)
            + identifier_check(levels, e.line, "level_id_b"@, e.level_id_b)
    }
}

pub open spec fn other_version(mine: (u32, u32), theirs: (u32, u32)) -> Seq<char> {
    "the companion states contract version "@ + quoted(version_text(mine)) + " and the level set states "@
        + quoted(version_text(theirs))
}

/// What a companion is refused for against a level set: a different contract
/// version, a different identifier, and each level it names that the set does
/// not carry.
pub open spec fn covariance_check_v(c: CovarianceView, levels: LevelSetView) -> Seq<RefusalView> {
    (if c.contract_version != levels.contract_version {
        seq![absent_field_v("contract_version"@, other_version(c.contract_version, levels.contract_version))]
    } else {
        Seq::empty()
    }) + (if c.level_set_id != levels.level_set_id {
        seq![absent_field_v("level_set_id"@, stated_against("the companion"@, c.level_set_id, levels.level_set_id))]
    } else {
        Seq::empty()
    }) + entries_ids_check(c.entries, levels.levels, c.entries.len() as int)
}

impl Covariance {
    /// Refuse a companion that is not about this level set, or that states
    /// another contract version than the level set does.
    pub fn check_against(&self, levels: &LevelSet) -> (r: Result<(), Refusals>)
        ensures
            ({
                let want = covariance_check_v(self@, levels@);
                &&& r is Ok <==> want.len() == 0
                &&& r matches Err(e) ==> e@ == want
            }),
    {
        let mut refusals = Refusals::new();
        let mine = self.contract_version;
        let theirs = levels.contract_version;
        if mine.major != theirs.major || mine.minor != theirs.minor {
            let mut m = owned("the companion states contract version ");
            let a = mine.to_text();
            let ac = chars_of(a.as_str());
            let qa = quote(ac.as_slice());
            append(&mut m, qa.as_str());
            append(&mut m, " and the level set states ");
            let b = theirs.to_text();
            let bc = chars_of(b.as_str());
            let qb = quote(bc.as_slice());
            append(&mut m, qb.as_str());
            refusals.push(Refusal::absent_field(owned("contract_version"), m));
        }
        let same = {
            let a = chars_of(self.level_set_id.as_str());
            let b = chars_of(levels.level_set_id.as_str());
            same_chars(a.as_slice(), b.as_slice())
        };
        if !same {
            let m = stated_against_text("the companion", &self.level_set_id, &levels.level_set_id);
            refusals.push(Refusal::absent_field(owned("level_set_id"), m));
        }
        let ghost first = refusals@;
        let mut i: usize = 0;
        assert(first + Seq::<RefusalView>::empty() =~= first);
        while i < self.entries.len()
            invariant
                i <= self@.entries.len(),
                refusals@ == first + entries_ids_check(self@.entries, levels@.levels, i as int),
            decreases self@.entries.len() - i,
        {
            let entry = &self.entries[i];
            assert(self@.entries[i as int] == entry@);
            check_identifier(levels, entry.line, "level_id_a", &entry.level_id_a, &mut refusals);
            check_identifier(levels, entry.line, "level_id_b", &entry.level_id_b, &mut refusals);
            assert(refusals@ =~= first + entries_ids_check(self@.entries, levels@.levels, i + 1));
            i = i + 1;
        }
        refusals.into_result(())
    }
}

/// No two entries name the same pair of levels, either way round.
pub open spec fn one_entry_per_pair(es: Seq<EntryView>) -> bool {
    forall|i: int, j: int| 0 <= i < j < es.len() ==> !(((#[trigger] es[i]).level_id_a == (#[trigger] es[j]).level_id_a
        && es[i].level_id_b == es[j].level_id_b) || (es[i].level_id_a == es[j].level_id_b
        && es[i].level_id_b == es[j].level_id_a))
}

proof fn lemma_entries_one_per_pair(rows: Seq<RowView>, cols: Seq<Option<int>>, k: int)
    ensures
        one_entry_per_pair(entries_upto(rows, cols, k).0),
    decreases k,
{
    if k > 0 {
        lemma_entries_one_per_pair(rows, cols, k - 1);
        let (es, refused) = entries_upto(rows, cols, k - 1);
        let (one, r) = entry_row_v(rows[k - 1], cols, es);
        if let Some(x) = one {
            let all = es.push(x);
            let held = pairs_of(es);
            assert(!held.contains((x.level_id_a, x.level_id_b)) && !held.contains((x.level_id_b, x.level_id_a)));
            assert forall|i: int, j: int| 0 <= i < j < all.len() implies !(((#[trigger] all[i]).level_id_a == (#[trigger] all[j]).level_id_a
                && all[i].level_id_b == all[j].level_id_b) || (all[i].level_id_a == all[j].level_id_b
                && all[i].level_id_b == all[j].level_id_a)) by {
                assert(all[i] == es[i]);
                if j == es.len() {
                    assert(all[j] == x);
                    assert(held[i] == (es[i].level_id_a, es[i].level_id_b));
                } else {
                    assert(all[j] == es[j]);
                }
            }
        }
    }
}

/// The body is the upper triangle and not the whole matrix: a companion that
/// reads holds no two entries for one pair of levels, whichever way round
/// they name it.
pub proof fn law_a_companion_holds_one_entry_per_pair(bytes: Seq<u8>)
    ensures
        read_covariance_v(bytes) matches Ok(c) ==> one_entry_per_pair(c.entries),
{
    if let Ok(doc) = lex_bytes(bytes) {
        let (cols, r2) = columns_v(doc, covariance_column_words(), 3);
        lemma_entries_one_per_pair(doc.3, cols, doc.3.len() as int);
    }
}

proof fn lemma_entries_every_row(rows: Seq<RowView>, cols: Seq<Option<int>>, k: int)
    requires
        0 <= k <= rows.len(),
        cols.len() == 3,
        forall|i: int| 0 <= i < 3 ==> (#[trigger] cols[i]) is Some,
        entries_upto(rows, cols, k).1.len() == 0,
    ensures
        entries_upto(rows, cols, k).0.len() == k,
        forall|i: int| 0 <= i < k ==> (#[trigger] entries_upto(rows, cols, k).0[i]).line == rows[i].0,
    decreases k,
{
    if k > 0 {
        let (es, refused) = entries_upto(rows, cols, k - 1);
        let (one, r) = entry_row_v(rows[k - 1], cols, es);
        assert(refused.len() == 0 && r.len() == 0);
        lemma_entries_every_row(rows, cols, k - 1);
        assert(cols[0] is Some && cols[1] is Some && cols[2] is Some);
        assert(one is Some);
        let all = es.push(one->Some_0);
        assert forall|i: int| 0 <= i < k implies (#[trigger] all[i]).line == rows[i].0 by {
            if i < k - 1 {
                assert(all[i] == es[i]);
            }
        }
    }
}

/// A companion that reads holds one entry for every row of its body, in
/// order, each from its own line: a row the reader does not take is refused.
pub proof fn law_a_companion_reads_every_row(bytes: Seq<u8>)
    ensures
        read_covariance_v(bytes) matches Ok(c) ==> (lex_bytes(bytes) matches Ok(d) && c.entries.len() == d.3.len()
            && forall|i: int| 0 <= i < d.3.len() ==> (#[trigger] c.entries[i]).line == d.3[i].0),
{
    if let Ok(doc) = lex_bytes(bytes) {
        if let Ok(c) = read_covariance_v(bytes) {
            let (cv, r0) = contract_version_v(doc);
            let (id, r1) = required_header_v(doc, "level_set_id"@);
            let (cols, r2) = columns_v(doc, covariance_column_words(), 3);
            let (entries, r3) = entries_upto(doc.3, cols, doc.3.len() as int);
            assert((r0 + r1 + r2 + r3).len() == 0);
            crate::spectro_contract::columns::lemma_columns_all_found(doc, covariance_column_words(), 3);
            lemma_entries_every_row(doc.3, cols, doc.3.len() as int);
        }
    }
}

proof fn lemma_ids_check_empty(entries: Seq<EntryView>, levels: Seq<LevelView>, k: int)
    requires
        0 <= k <= entries.len(),
    ensures
        entries_ids_check(entries, levels, k).len() == 0 <==> forall|i: int| 0 <= i < k
            ==> carries(levels, (#[trigger] entries[i]).level_id_a) && carries(levels, entries[i].level_id_b),
    decreases k,
{
    if k > 0 {
        lemma_ids_check_empty(entries, levels, k - 1);
    }
}

/// A companion is accepted against a level set exactly when both state the
/// same contract version and the same level set identifier and both levels of
/// every entry are levels the set carries.
pub proof fn law_a_companion_is_accepted_exactly_when_it_names_only_carried_levels(c: CovarianceView, levels: LevelSetView)
    ensures
        covariance_check_v(c, levels).len() == 0 <==> (c.contract_version == levels.contract_version
            && c.level_set_id == levels.level_set_id && forall|i: int| 0 <= i < c.entries.len()
            ==> carries(levels.levels, (#[trigger] c.entries[i]).level_id_a) && carries(levels.levels, c.entries[i].level_id_b)),
{
    lemma_ids_check_empty(c.entries, levels.levels, c.entries.len() as int);
}

/// A row whose cells all read is taken exactly when its pair of levels is not
/// already held either way round; one that repeats a held pair is refused on
/// its own line.
pub proof fn law_an_entry_row_is_taken_exactly_when_its_pair_is_new(row: RowView, cols: Seq<Option<int>>, held: Seq<EntryView>)
    requires
        required_under(row, cols[0], "level_id_a"@).0 is Some,
        required_under(row, cols[1], "level_id_b"@).0 is Some,
        number_under(row, cols[2], "covariance"@).0 is Some,
    ensures
        ({
            let a = required_under(row, cols[0], "level_id_a"@).0->Some_0;
            let b = required_under(row, cols[1], "level_id_b"@).0->Some_0;
            let (taken, refused) = entry_row_v(row, cols, held);
            &&& taken is Some <==> !(exists|i: int| 0 <= i < held.len() && ((#[trigger] held[i]).level_id_a == a && held[i].level_id_b == b
                || held[i].level_id_a == b && held[i].level_id_b == a))
            &&& taken matches Some(x) ==> x.line == row.0 && x.level_id_a == a && x.level_id_b == b
            &&& taken is None ==> refused.len() > 0 && refused.last().0 == Some(row.0)
        }),
{
    let a = required_under(row, cols[0], "level_id_a"@).0->Some_0;
    let b = required_under(row, cols[1], "level_id_b"@).0->Some_0;
    let p = pairs_of(held);
    if p.contains((a, b)) {
        let i = choose|i: int| 0 <= i < p.len() && p[i] == (a, b);
        assert(held[i].level_id_a == a && held[i].level_id_b == b);
    }
    if p.contains((b, a)) {
        let i = choose|i: int| 0 <= i < p.len() && p[i] == (b, a);
        assert(held[i].level_id_a == b && held[i].level_id_b == a);
    }
    if exists|i: int| 0 <= i < held.len() && ((#[trigger] held[i]).level_id_a == a && held[i].level_id_b == b
        || held[i].level_id_a == b && held[i].level_id_b == a) {
        let i = choose|i: int| 0 <= i < held.len() && ((#[trigger] held[i]).level_id_a == a && held[i].level_id_b == b
            || held[i].level_id_a == b && held[i].level_id_b == a);
        assert(p[i] == (held[i].level_id_a, held[i].level_id_b));
    }
}

/// Reading row by row, a companion keeps every entry it took and takes a row
/// whose cells read exactly when no entry already taken names its pair of
/// levels, either way round.
pub proof fn law_a_companion_takes_a_row_exactly_when_its_pair_is_new(rows: Seq<RowView>, cols: Seq<Option<int>>, k: int)
    requires
        0 < k <= rows.len(),
        required_under(rows[k - 1], cols[0], "level_id_a"@).0 is Some,
        required_under(rows[k - 1], cols[1], "level_id_b"@).0 is Some,
        number_under(rows[k - 1], cols[2], "covariance"@).0 is Some,
    ensures
        ({
            let a = required_under(rows[k - 1], cols[0], "level_id_a"@).0->Some_0;
            let b = required_under(rows[k - 1], cols[1], "level_id_b"@).0->Some_0;
            let before = entries_upto(rows, cols, k - 1).0;
            let after = entries_upto(rows, cols, k).0;
            &&& after.take(before.len() as int) == before
            &&& after.len() == before.len() + 1 <==> !(exists|i: int| 0 <= i < before.len()
                && ((#[trigger] before[i]).level_id_a == a && before[i].level_id_b == b
                || before[i].level_id_a == b && before[i].level_id_b == a))
            &&& after.len() == before.len() || after.len() == before.len() + 1
        }),
{
    let before = entries_upto(rows, cols, k - 1).0;
    law_an_entry_row_is_taken_exactly_when_its_pair_is_new(rows[k - 1], cols, before);
    let after = entries_upto(rows, cols, k).0;
    assert(after.take(before.len() as int) =~= before);
}

} // verus!
