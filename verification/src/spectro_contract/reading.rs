//! The part of reading a file that is the same for all four of them.
//!
//! An absent required column and an empty value in a present one are different
//! statements and are refused differently, so they are separate calls here
//! rather than one call with a flag.
use vstd::prelude::*;
use crate::spectro_contract::document::{header_names, rows_fit, Document, DocumentView, HeaderView, Row, RowView};
use crate::spectro_contract::refusal::{
    absent_field_v, field_on_line_v, in_file_v, Refusal, RefusalView, Refusals,
};
use crate::spectro_contract::value::{
    half_integer_of, number_refusal, parse_number, parse_vocabulary, version_of, vocabulary_refusal,
    words, HalfInteger, Version, SUPPORTED_MAJOR,
};
use vstd::string::*;
use crate::text::{append, decimal, decimal_string, owned};

verus! {

/// The first position of `x` in `s`.
pub open spec fn first_index<A>(s: Seq<A>, x: A) -> int {
    choose|i: int| 0 <= i < s.len() && s[i] == x && forall|j: int| 0 <= j < i ==> s[j] != x
}

pub proof fn lemma_first_index<A>(s: Seq<A>, x: A)
    requires
        s.contains(x),
    ensures
        0 <= first_index(s, x) < s.len(),
        s[first_index(s, x)] == x,
        forall|j: int| 0 <= j < first_index(s, x) ==> s[j] != x,
    decreases s.len(),
{
    if s[0] == x {
        assert(0 <= 0 < s.len() && s[0] == x && forall|j: int| 0 <= j < 0 ==> s[j] != x);
    } else {
        let t = s.drop_first();
        let k = choose|k: int| 0 <= k < s.len() && s[k] == x;
        assert(t[k - 1] == x);
        lemma_first_index(t, x);
        let i = first_index(t, x);
        assert forall|j: int| 0 <= j < i + 1 implies s[j] != x by {
            if j > 0 {
                assert(s[j] == t[j - 1]);
            }
        }
        assert(s[i + 1] == x);
    }
}

/// The first header of that name, where the file carried one.
pub open spec fn header_of(hs: Seq<HeaderView>, name: Seq<char>) -> Option<HeaderView> {
    if header_names(hs).contains(name) {
        Some(hs[first_index(header_names(hs), name)])
    } else {
        None
    }
}

/// The position of the first column of that label, where there is one.
pub open spec fn column_of(labels: Seq<Seq<char>>, label: Seq<char>) -> Option<int> {
    if labels.contains(label) {
        Some(first_index(labels, label))
    } else {
        None
    }
}

/// The header of that name, found in the document.
pub fn header_in<'a>(doc: &'a Document, name: &str) -> (r: Option<&'a crate::spectro_contract::document::Header>)
    ensures
        match r {
            Some(h) => header_of(doc@.0, name@) == Some(h@),
            None => header_of(doc@.0, name@) is None,
        },
{
    let r = doc.header(name);
    proof {
        let names = header_names(doc@.0);
        if names.contains(name@) {
            lemma_first_index(names, name@);
            let f = first_index(names, name@);
            match r {
                Some(h) => {
                    let i = choose|i: int|
                        0 <= i < doc.headers@.len() && doc.headers@[i] == *h && h.name@ == name@
                            && forall|j: int| 0 <= j < i ==> doc.headers@[j].name@ != name@;
                    assert(names[i] == name@);
                    if i < f {
                        assert(names[i] != name@);
                    }
                    if f < i {
                        assert(doc.headers@[f].name@ == names[f]);
                    }
                    assert(i == f);
                },
                None => {},
            }
        }
    }
    r
}

/// The column of that label, found in the document.
pub fn column_in(doc: &Document, label: &str) -> (r: Option<usize>)
    ensures
        match r {
            Some(i) => column_of(doc@.1, label@) == Some(i as int),
            None => column_of(doc@.1, label@) is None,
        },
{
    let r = doc.column(label);
    proof {
        if doc@.1.contains(label@) {
            lemma_first_index(doc@.1, label@);
            let f = first_index(doc@.1, label@);
            match r {
                Some(i) => {
                    if (i as int) < f {
                        assert(doc@.1[i as int] != label@);
                    }
                    if f < i {
                        assert(doc@.1[f] != label@);
                    }
                },
                None => {},
            }
        }
    }
    r
}

pub open spec fn empty_header() -> Seq<char> {
    "the header field is present and states nothing, and an empty value is not a value here"@
}

pub open spec fn no_such_header() -> Seq<char> {
    "the file carries no such header field"@
}

/// A header field the file has to carry: its value, or what it is refused for.
pub open spec fn required_header_v(doc: DocumentView, name: Seq<char>) -> (Option<Seq<char>>, Seq<RefusalView>) {
    match header_of(doc.0, name) {
        Some(h) => if h.1.len() == 0 {
            (None, seq![field_on_line_v(h.2, name, empty_header())])
        } else {
            (Some(h.1), Seq::empty())
        },
        None => (None, seq![absent_field_v(name, no_such_header())]),
    }
}

/// A header field the file has to carry.
pub fn required_header(doc: &Document, refusals: &mut Refusals, name: &str) -> (r: Option<String>)
    ensures
        ({
            let want = required_header_v(doc@, name@);
            &&& match r {
                Some(v) => want.0 == Some(v@),
                None => want.0 is None,
            }
            &&& final(refusals)@ == old(refusals)@ + want.1
        }),
{
    match header_in(doc, name) {
        Some(header) => {
            if header.value.as_str().unicode_len() == 0 {
                refusals.push(Refusal::field_on_line(header.line, owned(name), owned("the header field is present and states nothing, and an empty value is not a value here")));
                None
            } else {
                assert(old(refusals)@ + Seq::<RefusalView>::empty() =~= old(refusals)@);
                Some(header.value.clone())
            }
        },
        None => {
            refusals.push(Refusal::absent_field(owned(name), owned("the file carries no such header field")));
            None
        },
    }
}

/// A header field the file may carry.
pub fn optional_header(doc: &Document, name: &str) -> (r: Option<String>)
    ensures
        match r {
            Some(v) => header_of(doc@.0, name@) matches Some(h) && h.1 == v@,
            None => header_of(doc@.0, name@) is None,
        },
{
    match header_in(doc, name) {
        Some(header) => Some(header.value.clone()),
        None => None,
    }
}

pub open spec fn no_version() -> Seq<char> {
    "the file states no contract version, and an absent version is refused rather than read as the current one"@
}

pub open spec fn unknown_major(major: u32) -> Seq<char> {
    "the file states major version "@ + decimal(major as nat) + " and this reader knows major version "@
        + decimal(SUPPORTED_MAJOR as nat) + " only"@
}

/// `contract_version`, and whether this reader may go on reading the file.
pub open spec fn contract_version_v(doc: DocumentView) -> (Option<(u32, u32)>, Seq<RefusalView>) {
    match header_of(doc.0, "contract_version"@) {
        None => (None, seq![absent_field_v("contract_version"@, no_version())]),
        Some(h) => match version_of(h.1) {
            Ok(v) => if v.0 == SUPPORTED_MAJOR {
                (Some(v), Seq::empty())
            } else {
                (None, seq![field_on_line_v(h.2, "contract_version"@, unknown_major(v.0))])
            },
            Err(m) => (None, seq![field_on_line_v(h.2, "contract_version"@, m)]),
        },
    }
}

/// `contract_version`, refused where it is absent rather than defaulted.
pub fn contract_version(doc: &Document, refusals: &mut Refusals) -> (r: Option<Version>)
    ensures
        ({
            let want = contract_version_v(doc@);
            &&& match r {
                Some(v) => want.0 == Some(v@),
                None => want.0 is None,
            }
            &&& final(refusals)@ == old(refusals)@ + want.1
        }),
{
    let name = "contract_version";
    let header = match header_in(doc, name) {
        Some(h) => h,
        None => {
            refusals.push(Refusal::absent_field(owned(name), owned("the file states no contract version, and an absent version is refused rather than read as the current one")));
            return None;
        },
    };
    match Version::parse(header.value.as_str()) {
        Ok(version) => {
            if version.is_readable() {
                assert(old(refusals)@ + Seq::<RefusalView>::empty() =~= old(refusals)@);
                Some(version)
            } else {
                let mut m = owned("the file states major version ");
                let a = decimal_string(version.major as u64);
                append(&mut m, a.as_str());
                append(&mut m, " and this reader knows major version ");
                let b = decimal_string(SUPPORTED_MAJOR as u64);
                append(&mut m, b.as_str());
                append(&mut m, " only");
                refusals.push(Refusal::field_on_line(header.line, owned(name), m));
                None
            }
        },
        Err(reason) => {
            refusals.push(Refusal::field_on_line(header.line, owned(name), reason));
            None
        },
    }
}

pub open spec fn no_such_column() -> Seq<char> {
    "the label row carries no such column, which is a fact about the file rather than a value that is missing from a row"@
}

/// A column the file has to label.
pub open spec fn required_column_v(doc: DocumentView, label: Seq<char>) -> (Option<int>, Seq<RefusalView>) {
    match column_of(doc.1, label) {
        Some(i) => (Some(i), Seq::empty()),
        None => (None, seq![absent_field_v(label, no_such_column())]),
    }
}

/// A column the file has to label, refused as absent where it does not.
pub fn required_column(doc: &Document, refusals: &mut Refusals, label: &str) -> (r: Option<usize>)
    ensures
        ({
            let want = required_column_v(doc@, label@);
            &&& match r {
                Some(i) => want.0 == Some(i as int),
                None => want.0 is None,
            }
            &&& final(refusals)@ == old(refusals)@ + want.1
        }),
{
    match column_in(doc, label) {
        Some(i) => {
            assert(old(refusals)@ + Seq::<RefusalView>::empty() =~= old(refusals)@);
            Some(i)
        },
        None => {
            refusals.push(Refusal::absent_field(owned(label), owned("the label row carries no such column, which is a fact about the file rather than a value that is missing from a row")));
            None
        },
    }
}

pub open spec fn empty_cell() -> Seq<char> {
    "the cell is empty, and this field has no empty value"@
}

/// A cell that has to carry something.
pub open spec fn required_cell_v(row: RowView, column: int, label: Seq<char>) -> (Option<Seq<char>>, Seq<RefusalView>) {
    let cell = row.1[column];
    if cell.len() == 0 {
        (None, seq![field_on_line_v(row.0, label, empty_cell())])
    } else {
        (Some(cell), Seq::empty())
    }
}

pub fn required_cell(row: &Row, column: usize, label: &str, refusals: &mut Refusals) -> (r: Option<String>)
    requires
        column < row@.1.len(),
    ensures
        ({
            let want = required_cell_v(row@, column as int, label@);
            &&& match r {
                Some(v) => want.0 == Some(v@),
                None => want.0 is None,
            }
            &&& final(refusals)@ == old(refusals)@ + want.1
        }),
{
    let cell = &row.cells[column];
    if cell.as_str().unicode_len() == 0 {
        refusals.push(Refusal::field_on_line(row.line, owned(label), owned("the cell is empty, and this field has no empty value")));
        return None;
    }
    assert(old(refusals)@ + Seq::<RefusalView>::empty() =~= old(refusals)@);
    Some(cell.clone())
}

/// A cell read against a closed vocabulary.
pub open spec fn vocabulary_cell_v(row: RowView, column: int, label: Seq<char>, vocabulary: Seq<Seq<char>>) -> (Option<Seq<char>>, Seq<RefusalView>) {
    let cell = row.1[column];
    if vocabulary.contains(cell) {
        (Some(cell), Seq::empty())
    } else {
        (None, seq![field_on_line_v(row.0, label, vocabulary_refusal(cell, vocabulary))])
    }
}

pub fn vocabulary_cell(row: &Row, column: usize, label: &str, vocabulary: &[&str], refusals: &mut Refusals) -> (r: Option<String>)
    requires
        column < row@.1.len(),
    ensures
        ({
            let want = vocabulary_cell_v(row@, column as int, label@, words(vocabulary@));
            &&& match r {
                Some(v) => want.0 == Some(v@),
                None => want.0 is None,
            }
            &&& final(refusals)@ == old(refusals)@ + want.1
        }),
{
    match parse_vocabulary(row.cells[column].as_str(), vocabulary) {
        Ok(member) => {
            assert(old(refusals)@ + Seq::<RefusalView>::empty() =~= old(refusals)@);
            Some(owned(member))
        },
        Err(reason) => {
            refusals.push(Refusal::field_on_line(row.line, owned(label), reason));
            None
        },
    }
}

/// A cell that holds a finite number, kept as the text it was written in.
pub open spec fn number_cell_v(row: RowView, column: int, label: Seq<char>) -> (Option<Seq<char>>, Seq<RefusalView>) {
    let cell = row.1[column];
    match number_refusal(cell) {
        None => (Some(cell), Seq::empty()),
        Some(m) => (None, seq![field_on_line_v(row.0, label, m)]),
    }
}

pub fn number_cell(row: &Row, column: usize, label: &str, refusals: &mut Refusals) -> (r: Option<String>)
    requires
        column < row@.1.len(),
    ensures
        ({
            let want = number_cell_v(row@, column as int, label@);
            &&& match r {
                Some(v) => want.0 == Some(v@),
                None => want.0 is None,
            }
            &&& final(refusals)@ == old(refusals)@ + want.1
        }),
{
    let cell = &row.cells[column];
    match parse_number(cell.as_str()) {
        Ok(()) => {
            assert(old(refusals)@ + Seq::<RefusalView>::empty() =~= old(refusals)@);
            Some(cell.clone())
        },
        Err(reason) => {
            refusals.push(Refusal::field_on_line(row.line, owned(label), reason));
            None
        },
    }
}

pub open spec fn absent_uncertainty() -> Seq<char> {
    ", and an absent uncertainty is written `none`"@
}

/// An uncertainty: a finite number, or `none` where it was declared absent.
/// The outer `None` is a refusal; the inner one is the declared absence.
pub open spec fn uncertainty_cell_v(row: RowView, column: int, label: Seq<char>) -> (Option<Option<Seq<char>>>, Seq<RefusalView>) {
    let cell = row.1[column];
    if cell == "none"@ {
        (Some(None), Seq::empty())
    } else {
        match number_refusal(cell) {
            None => (Some(Some(cell)), Seq::empty()),
            Some(m) => (None, seq![field_on_line_v(row.0, label, m + absent_uncertainty())]),
        }
    }
}

pub fn uncertainty_cell(row: &Row, column: usize, label: &str, refusals: &mut Refusals) -> (r: Option<Option<String>>)
    requires
        column < row@.1.len(),
    ensures
        ({
            let want = uncertainty_cell_v(row@, column as int, label@);
            &&& match r {
                Some(Some(v)) => want.0 == Some(Some(v@)),
                Some(None) => want.0 == Some(None::<Seq<char>>),
                None => want.0 is None,
            }
            &&& final(refusals)@ == old(refusals)@ + want.1
        }),
{
    let cell = &row.cells[column];
    let chars = crate::text::chars_of(cell.as_str());
    if crate::text::is_text(chars.as_slice(), "none") {
        assert(old(refusals)@ + Seq::<RefusalView>::empty() =~= old(refusals)@);
        return Some(None);
    }
    match parse_number(cell.as_str()) {
        Ok(()) => {
            assert(old(refusals)@ + Seq::<RefusalView>::empty() =~= old(refusals)@);
            Some(Some(cell.clone()))
        },
        Err(reason) => {
            let mut m = reason;
            append(&mut m, ", and an absent uncertainty is written `none`");
            refusals.push(Refusal::field_on_line(row.line, owned(label), m));
            None
        },
    }
}

pub open spec fn class_missing() -> Seq<char> {
    "the uncertainty kind is `class` and no class is named, so the flag the upstream stated cannot travel"@
}

pub open spec fn class_misplaced() -> Seq<char> {
    "a class is named against an uncertainty kind that is not `class`"@
}

/// `uncertainty_class`: required exactly where the kind is `class`, refused
/// where the kind is another, and free where the kind was itself refused.
pub open spec fn uncertainty_class_v(row: RowView, column: int, kind: Option<Seq<char>>) -> (Option<Option<Seq<char>>>, Seq<RefusalView>) {
    let cell = row.1[column];
    match kind {
        Some(k) => if k == "class"@ {
            if cell.len() == 0 {
                (None, seq![field_on_line_v(row.0, "uncertainty_class"@, class_missing())])
            } else {
                (Some(Some(cell)), Seq::empty())
            }
        } else if cell.len() == 0 {
            (Some(None), Seq::empty())
        } else {
            (None, seq![field_on_line_v(row.0, "uncertainty_class"@, class_misplaced())])
        },
        None => if cell.len() == 0 {
            (Some(None), Seq::empty())
        } else {
            (Some(Some(cell)), Seq::empty())
        },
    }
}

pub fn uncertainty_class(row: &Row, column: usize, kind: &Option<String>, refusals: &mut Refusals) -> (r: Option<Option<String>>)
    requires
        column < row@.1.len(),
    ensures
        ({
            let k = match kind {
                Some(s) => Some(s@),
                None => None,
            };
            let want = uncertainty_class_v(row@, column as int, k);
            &&& match r {
                Some(Some(v)) => want.0 == Some(Some(v@)),
                Some(None) => want.0 == Some(None::<Seq<char>>),
                None => want.0 is None,
            }
            &&& final(refusals)@ == old(refusals)@ + want.1
        }),
{
    let cell = &row.cells[column];
    let empty = cell.as_str().unicode_len() == 0;
    assert(old(refusals)@ + Seq::<RefusalView>::empty() =~= old(refusals)@);
    match kind {
        Some(k) => {
            let kc = crate::text::chars_of(k.as_str());
            if crate::text::is_text(kc.as_slice(), "class") {
                if empty {
                    refusals.push(Refusal::field_on_line(row.line, owned("uncertainty_class"), owned("the uncertainty kind is `class` and no class is named, so the flag the upstream stated cannot travel")));
                    None
                } else {
                    Some(Some(cell.clone()))
                }
            } else if empty {
                Some(None)
            } else {
                refusals.push(Refusal::field_on_line(row.line, owned("uncertainty_class"), owned("a class is named against an uncertainty kind that is not `class`")));
                None
            }
        },
        None => {
            if empty {
                Some(None)
            } else {
                Some(Some(cell.clone()))
            }
        },
    }
}

/// What is left to say where the value could only be built if every required
/// field was there: the refusals, or a reason where none was recorded.
pub open spec fn finish_v<T>(built: Option<T>, rs: Seq<RefusalView>) -> Result<T, Seq<RefusalView>> {
    match built {
        Some(v) => if rs.len() == 0 {
            Ok(v)
        } else {
            Err(rs)
        },
        None => if rs.len() == 0 {
            Err(seq![in_file_v(unread())])
        } else {
            Err(rs)
        },
    }
}

pub open spec fn unread() -> Seq<char> {
    "the file could not be read and no reason was recorded"@
}

/// Finish a read: the value where nothing was refused and it could be built,
/// the refusals otherwise.
pub fn finish<T>(mut refusals: Refusals, built: Option<T>) -> (r: Result<T, Refusals>)
    ensures
        match (r, finish_v(built, refusals@)) {
            (Ok(a), Ok(b)) => a == b,
            (Err(a), Err(b)) => a@ == b,
            _ => false,
        },
{
    match built {
        Some(value) => refusals.into_result(value),
        None => {
            if refusals.is_empty() {
                refusals.push(Refusal::in_file(owned("the file could not be read and no reason was recorded")));
                assert(refusals@ =~= seq![in_file_v(unread())]);
            }
            Err(refusals)
        },
    }
}


/// A field read only where its column was found: a cell that has to carry
/// something.
pub open spec fn required_under(row: RowView, col: Option<int>, label: Seq<char>) -> (Option<Seq<char>>, Seq<RefusalView>) {
    match col {
        Some(c) => required_cell_v(row, c, label),
        None => (None, Seq::empty()),
    }
}

pub open spec fn number_under(row: RowView, col: Option<int>, label: Seq<char>) -> (Option<Seq<char>>, Seq<RefusalView>) {
    match col {
        Some(c) => number_cell_v(row, c, label),
        None => (None, Seq::empty()),
    }
}

pub open spec fn uncertainty_under(row: RowView, col: Option<int>, label: Seq<char>) -> (Option<Option<Seq<char>>>, Seq<RefusalView>) {
    match col {
        Some(c) => uncertainty_cell_v(row, c, label),
        None => (None, Seq::empty()),
    }
}

pub open spec fn vocabulary_under(row: RowView, col: Option<int>, label: Seq<char>, vocabulary: Seq<Seq<char>>) -> (Option<Seq<char>>, Seq<RefusalView>) {
    match col {
        Some(c) => vocabulary_cell_v(row, c, label, vocabulary),
        None => (None, Seq::empty()),
    }
}

pub open spec fn class_under(row: RowView, col: Option<int>, kind: Option<Seq<char>>) -> (Option<Option<Seq<char>>>, Seq<RefusalView>) {
    match col {
        Some(c) => uncertainty_class_v(row, c, kind),
        None => (None, Seq::empty()),
    }
}

pub open spec fn column_index(col: Option<usize>) -> Option<int> {
    match col {
        Some(i) => Some(i as int),
        None => None,
    }
}

pub open spec fn text_of(o: Option<String>) -> Option<Seq<char>> {
    match o {
        Some(s) => Some(s@),
        None => None,
    }
}

pub open spec fn texts_of(o: Option<Option<String>>) -> Option<Option<Seq<char>>> {
    match o {
        Some(Some(s)) => Some(Some(s@)),
        Some(None) => Some(None),
        None => None,
    }
}

pub fn required_at(row: &Row, col: Option<usize>, label: &str, refusals: &mut Refusals) -> (r: Option<String>)
    requires
        col matches Some(c) ==> c < row@.1.len(),
    ensures
        ({
            let want = required_under(row@, column_index(col), label@);
            &&& text_of(r) == want.0
            &&& final(refusals)@ == old(refusals)@ + want.1
        }),
{
    match col {
        Some(c) => required_cell(row, c, label, refusals),
        None => {
            assert(old(refusals)@ + Seq::<RefusalView>::empty() =~= old(refusals)@);
            None
        },
    }
}

pub fn number_at(row: &Row, col: Option<usize>, label: &str, refusals: &mut Refusals) -> (r: Option<String>)
    requires
        col matches Some(c) ==> c < row@.1.len(),
    ensures
        ({
            let want = number_under(row@, column_index(col), label@);
            &&& text_of(r) == want.0
            &&& final(refusals)@ == old(refusals)@ + want.1
        }),
{
    match col {
        Some(c) => number_cell(row, c, label, refusals),
        None => {
            assert(old(refusals)@ + Seq::<RefusalView>::empty() =~= old(refusals)@);
            None
        },
    }
}

pub fn uncertainty_at(row: &Row, col: Option<usize>, label: &str, refusals: &mut Refusals) -> (r: Option<Option<String>>)
    requires
        col matches Some(c) ==> c < row@.1.len(),
    ensures
        ({
            let want = uncertainty_under(row@, column_index(col), label@);
            &&& texts_of(r) == want.0
            &&& final(refusals)@ == old(refusals)@ + want.1
        }),
{
    match col {
        Some(c) => uncertainty_cell(row, c, label, refusals),
        None => {
            assert(old(refusals)@ + Seq::<RefusalView>::empty() =~= old(refusals)@);
            None
        },
    }
}

pub fn vocabulary_at(row: &Row, col: Option<usize>, label: &str, vocabulary: &[&str], refusals: &mut Refusals) -> (r: Option<String>)
    requires
        col matches Some(c) ==> c < row@.1.len(),
    ensures
        ({
            let want = vocabulary_under(row@, column_index(col), label@, words(vocabulary@));
            &&& text_of(r) == want.0
            &&& final(refusals)@ == old(refusals)@ + want.1
        }),
{
    match col {
        Some(c) => vocabulary_cell(row, c, label, vocabulary, refusals),
        None => {
            assert(old(refusals)@ + Seq::<RefusalView>::empty() =~= old(refusals)@);
            None
        },
    }
}

pub fn class_at(row: &Row, col: Option<usize>, kind: &Option<String>, refusals: &mut Refusals) -> (r: Option<Option<String>>)
    requires
        col matches Some(c) ==> c < row@.1.len(),
    ensures
        ({
            let want = class_under(row@, column_index(col), text_of(*kind));
            &&& texts_of(r) == want.0
            &&& final(refusals)@ == old(refusals)@ + want.1
        }),
{
    match col {
        Some(c) => uncertainty_class(row, c, kind, refusals),
        None => {
            assert(old(refusals)@ + Seq::<RefusalView>::empty() =~= old(refusals)@);
            None
        },
    }
}

/// The cell under a column, where the column was found.
pub fn cell_under(row: &Row, col: Option<usize>) -> (r: Option<String>)
    requires
        col matches Some(c) ==> c < row@.1.len(),
    ensures
        text_of(r) == match col {
            Some(c) => Some(row@.1[c as int]),
            None => None,
        },
{
    match col {
        Some(c) => Some(row.cells[c].clone()),
        None => None,
    }
}

} // verus!
