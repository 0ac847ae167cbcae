//! The lexical layer every conforming file shares.
//!
//! The file is UTF-8; a leading UTF-8 byte order mark is accepted and is not
//! part of the first field, and any other byte order mark is refused. A line
//! ends with LF or with CRLF and one file may not mix them; a carriage return
//! anywhere else is refused. The file may end with one line terminator or with
//! none. A line with no bytes in it is refused.
//!
//! The header block comes first: `#`, the field name, one tab, the value. The
//! block ends at the first line that does not begin with `#`, and that line is
//! the column label row. A line beginning with `#` below the label row is
//! refused rather than skipped. A header field appears once and a column label
//! appears once. Every body row carries exactly as many tab-separated cells as
//! the label row, and no cell is trimmed.
use vstd::prelude::*;
use vstd::string::*;
use vstd::utf8::*;
use crate::spectro_contract::refusal::{
    field_on_line_v, in_file_v, on_line_v, Refusal, RefusalView, Refusals,
};
use crate::text::{
    append, chars_of, decimal, decimal_string, owned, slice_of, split, split_chars, split_once,
    split_once_exec, string_of, texts,
};
use crate::utf8::{utf8_text, valid_prefix_len, valid_up_to};
use crate::spectro_contract::value::words;
use crate::text::is_text;

verus! {

/// One line of the file, numbered from one, without its terminator.
pub type LineView = (usize, Seq<char>);

pub open spec fn mixed_endings() -> Seq<char> {
    "the line terminator is not the one the file started with, and one file may not mix LF and CRLF"@
}

pub open spec fn inner_carriage_return() -> Seq<char> {
    "a carriage return appears somewhere other than at the end of the line"@
}

pub open spec fn blank_line() -> Seq<char> {
    "the line has no bytes in it, and a blank line cannot be told from a row of one empty cell"@
}

/// Whether piece `i` is the empty piece after the file's last terminator.
pub open spec fn is_trailing(p: Seq<Seq<char>>, i: int) -> bool {
    i + 1 == p.len() && p[i].len() == 0
}

/// Whether piece `i` ends with a carriage return that is its terminator's.
pub open spec fn ends_crlf(p: Seq<Seq<char>>, i: int) -> bool {
    i + 1 < p.len() && p[i].len() > 0 && p[i].last() == '\r'
}

/// The line terminator of piece `i`: 0 for none, 1 for LF, 2 for CRLF.
pub open spec fn piece_ending(p: Seq<Seq<char>>, i: int) -> int {
    if i + 1 < p.len() {
        if ends_crlf(p, i) {
            2
        } else {
            1
        }
    } else {
        0
    }
}

/// Piece `i` without its terminator.
pub open spec fn piece_content(p: Seq<Seq<char>>, i: int) -> Seq<char> {
    if ends_crlf(p, i) {
        p[i].drop_last()
    } else {
        p[i]
    }
}

/// What piece `i` is refused for, in the order the checks are made.
pub open spec fn piece_refusals(p: Seq<Seq<char>>, i: int) -> Seq<RefusalView> {
    if is_trailing(p, i) {
        Seq::empty()
    } else {
        let c = piece_content(p, i);
        let line = (i + 1) as usize;
        (if i >= 1 && piece_ending(p, i) != 0 && piece_ending(p, i) != piece_ending(p, 0) {
            seq![on_line_v(line, mixed_endings())]
        } else {
            Seq::empty()
        }) + (if c.contains('\r') {
            seq![on_line_v(line, inner_carriage_return())]
        } else {
            Seq::empty()
        }) + (if c.len() == 0 {
            seq![on_line_v(line, blank_line())]
        } else {
            Seq::empty()
        })
    }
}

/// Whether piece `i` is a line of the file.
pub open spec fn line_kept(p: Seq<Seq<char>>, i: int) -> bool {
    !is_trailing(p, i) && piece_content(p, i).len() > 0
}

/// The lines among the first `k` pieces.
pub open spec fn lines_of(p: Seq<Seq<char>>, k: int) -> Seq<LineView>
    decreases k,
{
    if k <= 0 {
        Seq::empty()
    } else if line_kept(p, k - 1) {
        lines_of(p, k - 1).push(((k) as usize, piece_content(p, k - 1)))
    } else {
        lines_of(p, k - 1)
    }
}

/// What the first `k` pieces are refused for.
pub open spec fn line_refusals(p: Seq<Seq<char>>, k: int) -> Seq<RefusalView>
    decreases k,
{
    if k <= 0 {
        Seq::empty()
    } else {
        line_refusals(p, k - 1) + piece_refusals(p, k - 1)
    }
}

pub open spec fn line_texts(l: Seq<(usize, Vec<char>)>) -> Seq<LineView> {
    l.map_values(|x: (usize, Vec<char>)| (x.0, x.1@))
}

fn contains_char(s: &[char], c: char) -> (r: bool)
    ensures
        r == s@.contains(c),
{
    let mut i: usize = 0;
    while i < s.len()
        invariant
            i <= s.len(),
            forall|j: int| 0 <= j < i ==> s@[j] != c,
        decreases s.len() - i,
    {
        if s[i] == c {
            return true;
        }
        i = i + 1;
    }
    false
}

/// The lines of a text, and what its line structure is refused for.
fn text_lines(text: &[char]) -> (r: (Vec<(usize, Vec<char>)>, Refusals))
    ensures
        ({
            let p = split(text@, '\n');
            &&& line_texts(r.0@) == lines_of(p, p.len() as int)
            &&& r.1@ == line_refusals(p, p.len() as int)
            &&& forall|j: int| 0 <= j < r.0@.len() ==> r.0@[j].1@.len() > 0
            &&& forall|j: int| 0 <= j < r.0@.len() ==> 1 <= #[trigger] r.0@[j].0 <= p.len()
        }),
{
    let pieces = split_chars(text, '\n');
    let ghost p = split(text@, '\n');
    assert(texts(pieces@) == p);
    let n = pieces.len();
    let mut lines: Vec<(usize, Vec<char>)> = Vec::new();
    let mut refusals = Refusals::new();
    let mut first_ending: usize = 0;
    let mut i: usize = 0;
    while i < n
        invariant
            i <= n,
            n == pieces@.len(),
            p == texts(pieces@),
            p.len() == n,
            line_texts(lines@) == lines_of(p, i as int),
            refusals@ == line_refusals(p, i as int),
            i >= 1 ==> first_ending == piece_ending(p, 0),
            i == 0 ==> first_ending == 0,
            forall|j: int| 0 <= j < lines@.len() ==> lines@[j].1@.len() > 0,
            forall|j: int| 0 <= j < lines@.len() ==> 1 <= #[trigger] lines@[j].0 <= i,
        decreases n - i,
    {
        let piece = &pieces[i];
        let ghost pi = p[i as int];
        assert(piece@ == pi);
        let is_last = i + 1 == n;
        let ghost before_lines = line_texts(lines@);
        let ghost before_refusals = refusals@;
        if is_last && piece.len() == 0 {
            assert(is_trailing(p, i as int));
            assert(piece_refusals(p, i as int) =~= Seq::<RefusalView>::empty());
            assert(refusals@ =~= line_refusals(p, i + 1));
            assert(i == 0 ==> piece_ending(p, 0) == 0);
            i = i + 1;
            continue;
        }
        let crlf = !is_last && piece.len() > 0 && piece[piece.len() - 1] == '\r';
        assert(crlf == ends_crlf(p, i as int));
        let content = if crlf { slice_of(piece.as_slice(), 0, piece.len() - 1) } else { slice_of(piece.as_slice(), 0, piece.len()) };
        assert(content@ =~= piece_content(p, i as int));
        let ending: usize = if is_last { 0 } else if crlf { 2 } else { 1 };
        assert(ending == piece_ending(p, i as int));
        if i == 0 {
            first_ending = ending;
        }
        let number = i + 1;
        let ghost r1 = if i >= 1 && piece_ending(p, i as int) != 0 && piece_ending(p, i as int) != piece_ending(p, 0) {
            seq![on_line_v(number, mixed_endings())]
        } else {
            Seq::<RefusalView>::empty()
        };
        let ghost r2 = if content@.contains('\r') {
            seq![on_line_v(number, inner_carriage_return())]
        } else {
            Seq::<RefusalView>::empty()
        };
        let ghost r3 = if content@.len() == 0 {
            seq![on_line_v(number, blank_line())]
        } else {
            Seq::<RefusalView>::empty()
        };
        if i >= 1 && ending != 0 && ending != first_ending {
            refusals.push(Refusal::on_line(number, owned("the line terminator is not the one the file started with, and one file may not mix LF and CRLF")));
        }
        assert(refusals@ =~= before_refusals + r1);
        if contains_char(content.as_slice(), '\r') {
            refusals.push(Refusal::on_line(number, owned("a carriage return appears somewhere other than at the end of the line")));
        }
        assert(refusals@ =~= before_refusals + r1 + r2);
        if content.len() == 0 {
            refusals.push(Refusal::on_line(number, owned("the line has no bytes in it, and a blank line cannot be told from a row of one empty cell")));
        }
        assert(refusals@ =~= before_refusals + r1 + r2 + r3);
        assert(piece_refusals(p, i as int) == r1 + r2 + r3);
        assert(refusals@ =~= line_refusals(p, i + 1));
        if content.len() > 0 {
            lines.push((number, content));
            assert(line_texts(lines@) =~= before_lines.push((number, piece_content(p, i as int))));
        }
        i = i + 1;
    }
    (lines, refusals)
}

pub open spec fn duplicate_header() -> Seq<char> {
    "the header field appears more than once"@
}

pub open spec fn unnamed_header() -> Seq<char> {
    "the header line names no field before its tab"@
}

pub open spec fn untabbed_header() -> Seq<char> {
    "the header line carries no tab, so it states a name and no value"@
}

pub open spec fn no_label_row() -> Seq<char> {
    "the file carries no column label row, so no field in it is labelled"@
}

pub open spec fn unlabelled_column(position: nat) -> Seq<char> {
    "column "@ + decimal(position) + " carries no label"@
}

pub open spec fn duplicate_label() -> Seq<char> {
    "the column label appears more than once"@
}

pub open spec fn comment_below_labels() -> Seq<char> {
    "a line below the label row begins with `#`, and a comment where a row should be is refused rather than skipped"@
}

pub open spec fn row_shape(cells: nat, labels: nat) -> Seq<char> {
    "the row carries "@ + decimal(cells) + " cells against "@ + decimal(labels)
        + " labels, so it is refused as a row shape rather than as a missing field"@
}

/// A header field as plain values: its name, its value and its line.
pub type HeaderView = (Seq<char>, Seq<char>, usize);

/// A body row as plain values: its line and its cells.
pub type RowView = (usize, Seq<Seq<char>>);

/// A document as plain values: its headers, its labels, the line of its label
/// row and its rows.
pub type DocumentView = (Seq<HeaderView>, Seq<Seq<char>>, usize, Seq<RowView>);

pub open spec fn is_header_line(c: Seq<char>) -> bool {
    c.len() > 0 && c[0] == '#'
}

/// How many lines from the first begin with `#`.
pub open spec fn header_count(l: Seq<LineView>) -> nat
    decreases l.len(),
{
    if l.len() > 0 && is_header_line(l[0].1) {
        1 + header_count(l.drop_first())
    } else {
        0
    }
}

pub open spec fn header_names(hs: Seq<HeaderView>) -> Seq<Seq<char>> {
    hs.map_values(|h: HeaderView| h.0)
}

/// The headers after one more header line, and what that line is refused for.
pub open spec fn header_step(hs: Seq<HeaderView>, line: LineView) -> (Seq<HeaderView>, Seq<RefusalView>) {
    match split_once(line.1.drop_first(), '\t') {
        Some((name, value)) => if name.len() > 0 {
            (
                hs.push((name, value, line.0)),
                if header_names(hs).contains(name) {
                    seq![field_on_line_v(line.0, name, duplicate_header())]
                } else {
                    Seq::empty()
                },
            )
        } else {
            (hs, seq![on_line_v(line.0, unnamed_header())])
        },
        None => (hs, seq![on_line_v(line.0, untabbed_header())]),
    }
}

/// The headers of the first `k` lines, and what they are refused for.
pub open spec fn headers_upto(l: Seq<LineView>, k: int) -> (Seq<HeaderView>, Seq<RefusalView>)
    decreases k,
{
    if k <= 0 {
        (Seq::empty(), Seq::empty())
    } else {
        let (hs, rs) = headers_upto(l, k - 1);
        let (hs2, r2) = header_step(hs, l[k - 1]);
        (hs2, rs + r2)
    }
}

/// What the first `k` column labels are refused for.
pub open spec fn label_refusals(labels: Seq<Seq<char>>, line: usize, k: int) -> Seq<RefusalView>
    decreases k,
{
    if k <= 0 {
        Seq::empty()
    } else {
        let p = k - 1;
        label_refusals(labels, line, p) + if labels[p].len() == 0 {
            seq![on_line_v(line, unlabelled_column((p + 1) as nat))]
        } else if labels.take(p).contains(labels[p]) {
            seq![field_on_line_v(line, labels[p], duplicate_label())]
        } else {
            Seq::empty()
        }
    }
}

/// The row one body line becomes, and what it is refused for.
pub open spec fn row_step(line: LineView, width: nat) -> (Seq<RowView>, Seq<RefusalView>) {
    if is_header_line(line.1) {
        (Seq::empty(), seq![on_line_v(line.0, comment_below_labels())])
    } else {
        let cells = split(line.1, '\t');
        if cells.len() != width {
            (Seq::empty(), seq![on_line_v(line.0, row_shape(cells.len(), width))])
        } else {
            (seq![(line.0, cells)], Seq::empty())
        }
    }
}

/// The rows of lines `start..k`, and what they are refused for.
pub open spec fn rows_upto(l: Seq<LineView>, start: int, width: nat, k: int) -> (Seq<RowView>, Seq<RefusalView>)
    decreases k - start,
{
    if k <= start {
        (Seq::empty(), Seq::empty())
    } else {
        let (rows, rs) = rows_upto(l, start, width, k - 1);
        let (r1, r2) = row_step(l[k - 1], width);
        (rows + r1, rs + r2)
    }
}

pub proof fn lemma_header_count_exact(l: Seq<LineView>, k: nat)
    requires
        k <= l.len(),
        forall|j: int| 0 <= j < k ==> is_header_line(#[trigger] l[j].1),
        k == l.len() || !is_header_line(l[k as int].1),
    ensures
        header_count(l) == k,
    decreases k,
{
    if k > 0 {
        assert forall|j: int| 0 <= j < k - 1 implies is_header_line(#[trigger] l.drop_first()[j].1) by {
            assert(l.drop_first()[j] == l[j + 1]);
        }
        lemma_header_count_exact(l.drop_first(), (k - 1) as nat);
    }
}

/// One `#name<tab>value` line.
#[derive(Debug, PartialEq, Eq)]
pub struct Header {
    pub name: String,
    pub value: String,
    pub line: usize,
}

impl View for Header {
    type V = HeaderView;

    open spec fn view(&self) -> HeaderView {
        (self.name@, self.value@, self.line)
    }
}

impl Header {
    pub fn duplicate(&self) -> (r: Header)
        ensures
            r@ == self@,
    {
        Header { name: self.name.clone(), value: self.value.clone(), line: self.line }
    }
}

pub open spec fn header_views(hs: Seq<Header>) -> Seq<HeaderView> {
    hs.map_values(|h: Header| h@)
}

fn name_held(names: &Vec<Vec<char>>, name: &[char]) -> (r: bool)
    ensures
        r == texts(names@).contains(name@),
{
    let mut i: usize = 0;
    while i < names.len()
        invariant
            i <= names.len(),
            forall|j: int| 0 <= j < i ==> names@[j]@ != name@,
        decreases names.len() - i,
    {
        if crate::text::same_chars(names[i].as_slice(), name) {
            assert(texts(names@)[i as int] == name@);
            return true;
        }
        i = i + 1;
    }
    proof {
        if texts(names@).contains(name@) {
            let j = choose|j: int| 0 <= j < texts(names@).len() && texts(names@)[j] == name@;
            assert(names@[j]@ == name@);
        }
    }
    false
}

/// Take one header line into the headers read so far.
fn header_line(
    headers: &mut Vec<Header>,
    names: &mut Vec<Vec<char>>,
    refusals: &mut Refusals,
    number: usize,
    content: &Vec<char>,
)
    requires
        content@.len() > 0,
        texts(old(names)@) == header_names(header_views(old(headers)@)),
    ensures
        ({
            let step = header_step(header_views(old(headers)@), (number, content@));
            &&& header_views(final(headers)@) == step.0
            &&& texts(final(names)@) == header_names(header_views(final(headers)@))
            &&& final(refusals)@ == old(refusals)@ + step.1
        }),
{
    let rest = slice_of(content.as_slice(), 1, content.len());
    assert(rest@ =~= content@.drop_first());
    let ghost hs = header_views(headers@);
    let ghost before = refusals@;
    let ghost step = header_step(hs, (number, content@));
    match split_once_exec(rest.as_slice(), '\t') {
        Some((name, value)) => {
            if name.len() > 0 {
                if name_held(names, name.as_slice()) {
                    refusals.push(Refusal::field_on_line(number, string_of(name.as_slice()), owned("the header field appears more than once")));
                }
                let ghost names_before = texts(names@);
                headers.push(Header { name: string_of(name.as_slice()), value: string_of(value.as_slice()), line: number });
                names.push(name);
                assert(header_views(headers@) =~= step.0);
                assert(texts(names@) =~= names_before.push(name@));
                assert(header_names(header_views(headers@)) =~= header_names(hs).push(name@));
            } else {
                refusals.push(Refusal::on_line(number, owned("the header line names no field before its tab")));
            }
        },
        None => {
            refusals.push(Refusal::on_line(number, owned("the header line carries no tab, so it states a name and no value")));
        },
    }
    assert(refusals@ =~= before + step.1);
}

/// The header block: how many lines it takes, its headers, and what it is
/// refused for.
fn read_headers(lines: &Vec<(usize, Vec<char>)>) -> (r: (usize, Vec<Header>, Refusals))
    requires
        forall|j: int| 0 <= j < lines@.len() ==> lines@[j].1@.len() > 0,
    ensures
        ({
            let l = line_texts(lines@);
            &&& r.0 == header_count(l)
            &&& header_views(r.1@) == headers_upto(l, r.0 as int).0
            &&& r.2@ == headers_upto(l, r.0 as int).1
        }),
{
    let ghost l = line_texts(lines@);
    let mut headers: Vec<Header> = Vec::new();
    let mut names: Vec<Vec<char>> = Vec::new();
    let mut refusals = Refusals::new();
    let mut cursor: usize = 0;
    assert(header_names(header_views(headers@)) =~= texts(names@));
    while cursor < lines.len() && lines[cursor].1[0] == '#'
        invariant
            cursor <= lines@.len(),
            l == line_texts(lines@),
            forall|j: int| 0 <= j < lines@.len() ==> lines@[j].1@.len() > 0,
            forall|j: int| 0 <= j < cursor ==> is_header_line(#[trigger] l[j].1),
            header_views(headers@) == headers_upto(l, cursor as int).0,
            texts(names@) == header_names(header_views(headers@)),
            refusals@ == headers_upto(l, cursor as int).1,
        decreases lines@.len() - cursor,
    {
        assert(l[cursor as int] == (lines@[cursor as int].0, lines@[cursor as int].1@));
        header_line(&mut headers, &mut names, &mut refusals, lines[cursor].0, &lines[cursor].1);
        cursor = cursor + 1;
    }
    proof {
        lemma_header_count_exact(l, cursor as nat);
    }
    (cursor, headers, refusals)
}


/// Whether `name` is among the first `upto` names.
fn held_before(names: &Vec<Vec<char>>, upto: usize, name: &[char]) -> (r: bool)
    requires
        upto <= names@.len(),
    ensures
        r == texts(names@).take(upto as int).contains(name@),
{
    let mut i: usize = 0;
    while i < upto
        invariant
            i <= upto <= names@.len(),
            forall|j: int| 0 <= j < i ==> names@[j]@ != name@,
        decreases upto - i,
    {
        if crate::text::same_chars(names[i].as_slice(), name) {
            assert(texts(names@).take(upto as int)[i as int] == name@);
            return true;
        }
        i = i + 1;
    }
    proof {
        let t = texts(names@).take(upto as int);
        if t.contains(name@) {
            let j = choose|j: int| 0 <= j < t.len() && t[j] == name@;
            assert(names@[j]@ == name@);
        }
    }
    false
}

/// The reason a column is refused for carrying no label.
fn unlabelled_column_text(position: usize) -> (r: String)
    ensures
        r@ == unlabelled_column(position as nat),
{
    let mut out = owned("column ");
    let digits = decimal_string(position as u64);
    append(&mut out, digits.as_str());
    append(&mut out, " carries no label");
    out
}

/// What the column labels are refused for.
fn read_labels(labels: &Vec<Vec<char>>, line: usize) -> (r: Refusals)
    ensures
        r@ == label_refusals(texts(labels@), line, labels@.len() as int),
{
    let ghost t = texts(labels@);
    let mut refusals = Refusals::new();
    let mut p: usize = 0;
    while p < labels.len()
        invariant
            p <= labels@.len(),
            t == texts(labels@),
            refusals@ == label_refusals(t, line, p as int),
        decreases labels@.len() - p,
    {
        assert(t[p as int] == labels@[p as int]@);
        if labels[p].len() == 0 {
            refusals.push(Refusal::on_line(line, unlabelled_column_text(p + 1)));
        } else if held_before(labels, p, labels[p].as_slice()) {
            refusals.push(Refusal::field_on_line(line, string_of(labels[p].as_slice()), owned("the column label appears more than once")));
        }
        p = p + 1;
    }
    refusals
}

/// The reason a row of the wrong width is refused for.
fn row_shape_text(cells: usize, labels: usize) -> (r: String)
    ensures
        r@ == row_shape(cells as nat, labels as nat),
{
    let mut out = owned("the row carries ");
    let a = decimal_string(cells as u64);
    append(&mut out, a.as_str());
    append(&mut out, " cells against ");
    let b = decimal_string(labels as u64);
    append(&mut out, b.as_str());
    append(&mut out, " labels, so it is refused as a row shape rather than as a missing field");
    out
}

pub open spec fn strings(v: Seq<String>) -> Seq<Seq<char>> {
    v.map_values(|x: String| x@)
}

/// Each piece as a string.
fn strings_of(v: &Vec<Vec<char>>) -> (r: Vec<String>)
    ensures
        strings(r@) == texts(v@),
{
    let mut out: Vec<String> = Vec::new();
    let mut i: usize = 0;
    while i < v.len()
        invariant
            i <= v@.len(),
            strings(out@) == texts(v@).take(i as int),
        decreases v@.len() - i,
    {
        let ghost before = strings(out@);
        out.push(string_of(v[i].as_slice()));
        assert(strings(out@) =~= before.push(v@[i as int]@));
        assert(texts(v@).take(i + 1) =~= texts(v@).take(i as int).push(v@[i as int]@));
        i = i + 1;
    }
    assert(texts(v@).take(v@.len() as int) =~= texts(v@));
    out
}

/// One body row, with its cells in label order.
#[derive(Debug, PartialEq, Eq)]
pub struct Row {
    pub line: usize,
    pub cells: Vec<String>,
}

impl View for Row {
    type V = RowView;

    open spec fn view(&self) -> RowView {
        (self.line, strings(self.cells@))
    }
}

pub open spec fn row_views(rs: Seq<Row>) -> Seq<RowView> {
    rs.map_values(|r: Row| r@)
}

/// The body rows of lines `start..`, and what they are refused for.
fn read_rows(lines: &Vec<(usize, Vec<char>)>, start: usize, width: usize) -> (r: (Vec<Row>, Refusals))
    requires
        start <= lines@.len(),
    ensures
        ({
            let got = rows_upto(line_texts(lines@), start as int, width as nat, lines@.len() as int);
            &&& row_views(r.0@) == got.0
            &&& r.1@ == got.1
        }),
{
    let ghost l = line_texts(lines@);
    let mut rows: Vec<Row> = Vec::new();
    let mut refusals = Refusals::new();
    let mut k: usize = start;
    while k < lines.len()
        invariant
            start <= k <= lines@.len(),
            l == line_texts(lines@),
            row_views(rows@) == rows_upto(l, start as int, width as nat, k as int).0,
            refusals@ == rows_upto(l, start as int, width as nat, k as int).1,
        decreases lines@.len() - k,
    {
        let number = lines[k].0;
        let content = &lines[k].1;
        assert(l[k as int] == (number, content@));
        let ghost step = row_step(l[k as int], width as nat);
        let ghost rows_before = row_views(rows@);
        let ghost refusals_before = refusals@;
        if content.len() > 0 && content[0] == '#' {
            refusals.push(Refusal::on_line(number, owned("a line below the label row begins with `#`, and a comment where a row should be is refused rather than skipped")));
            assert(refusals@ =~= refusals_before + step.1);
            assert(rows_before + step.0 =~= rows_before);
        } else {
            let cells = split_chars(content.as_slice(), '\t');
            if cells.len() != width {
                refusals.push(Refusal::on_line(number, row_shape_text(cells.len(), width)));
                assert(refusals@ =~= refusals_before + step.1);
                assert(rows_before + step.0 =~= rows_before);
            } else {
                rows.push(Row { line: number, cells: strings_of(&cells) });
                assert(row_views(rows@) =~= rows_before + step.0);
                assert(refusals_before + step.1 =~= refusals_before);
            }
        }
        k = k + 1;
    }
    (rows, refusals)
}


/// A file that is lexically a conforming file, whatever its fields say.
#[derive(Debug, PartialEq, Eq)]
pub struct Document {
    pub headers: Vec<Header>,
    pub labels: Vec<String>,
    pub label_line: usize,
    pub rows: Vec<Row>,
}

impl View for Document {
    type V = DocumentView;

    open spec fn view(&self) -> DocumentView {
        (header_views(self.headers@), strings(self.labels@), self.label_line, row_views(self.rows@))
    }
}

/// What the text of a file lexes to: its document, or every refusal.
pub open spec fn lex_text(text: Seq<char>) -> Result<DocumentView, Seq<RefusalView>> {
    let p = split(text, '\n');
    let l = lines_of(p, p.len() as int);
    let r0 = line_refusals(p, p.len() as int);
    let h = header_count(l);
    let (hs, r1) = headers_upto(l, h as int);
    if h >= l.len() {
        Err(r0 + r1 + seq![in_file_v(no_label_row())])
    } else {
        let label_line = l[h as int].0;
        let labels = split(l[h as int].1, '\t');
        let r2 = label_refusals(labels, label_line, labels.len() as int);
        let (rows, r3) = rows_upto(l, (h + 1) as int, labels.len(), l.len() as int);
        let all = r0 + r1 + r2 + r3;
        if all.len() == 0 {
            Ok((hs, labels, label_line, rows))
        } else {
            Err(all)
        }
    }
}

pub open spec fn utf16_mark() -> Seq<char> {
    "the file begins with a UTF-16 byte order mark, and a conforming file is UTF-8"@
}

pub open spec fn not_utf8(offset: nat) -> Seq<char> {
    "the file is not UTF-8: the byte at offset "@ + decimal(offset)
        + " does not begin a valid sequence"@
}

pub open spec fn has_utf8_mark(b: Seq<u8>) -> bool {
    b.len() >= 3 && b[0] == 0xEF && b[1] == 0xBB && b[2] == 0xBF
}

pub open spec fn has_utf16_mark(b: Seq<u8>) -> bool {
    b.len() >= 2 && ((b[0] == 0xFF && b[1] == 0xFE) || (b[0] == 0xFE && b[1] == 0xFF))
}

/// What the bytes after any byte order mark lex to.
pub open spec fn lex_body(b: Seq<u8>) -> Result<DocumentView, Seq<RefusalView>> {
    if valid_utf8(b) {
        lex_text(decode_utf8(b))
    } else {
        Err(seq![in_file_v(not_utf8(valid_prefix_len(b)))])
    }
}

/// What the bytes of a file lex to.
pub open spec fn lex_bytes(b: Seq<u8>) -> Result<DocumentView, Seq<RefusalView>> {
    if has_utf8_mark(b) {
        lex_body(b.skip(3))
    } else if has_utf16_mark(b) {
        Err(seq![in_file_v(utf16_mark())])
    } else {
        lex_body(b)
    }
}

/// The outcome of a lex as plain values.
pub open spec fn lexed(r: Result<Document, Refusals>) -> Result<DocumentView, Seq<RefusalView>> {
    match r {
        Ok(d) => Ok(d@),
        Err(e) => Err(e@),
    }
}

fn lex_chars(text: &[char]) -> (r: Result<Document, Refusals>)
    ensures
        lexed(r) == lex_text(text@),
{
    let ghost p = split(text@, '\n');
    let (lines, mut refusals) = text_lines(text);
    let ghost l = lines_of(p, p.len() as int);
    assert(line_texts(lines@) == l);
    let (h, headers, header_refusals) = read_headers(&lines);
    let ghost r0 = line_refusals(p, p.len() as int);
    let ghost hu = headers_upto(l, h as int);
    refusals.push_all(&header_refusals);
    assert(refusals@ == r0 + hu.1);
    if h >= lines.len() {
        refusals.push(Refusal::in_file(owned("the file carries no column label row, so no field in it is labelled")));
        assert(refusals@ == r0 + hu.1 + seq![in_file_v(no_label_row())]);
        assert(lex_text(text@) == Err::<DocumentView, Seq<RefusalView>>(r0 + hu.1 + seq![in_file_v(no_label_row())]));
        return Err(refusals);
    }
    let label_line = lines[h].0;
    assert(l[h as int] == (label_line, lines@[h as int].1@));
    let label_cells = split_chars(lines[h].1.as_slice(), '\t');
    let label_refusals_found = read_labels(&label_cells, label_line);
    refusals.push_all(&label_refusals_found);
    let (rows, row_refusals) = read_rows(&lines, h + 1, label_cells.len());
    refusals.push_all(&row_refusals);
    let labels = strings_of(&label_cells);
    refusals.into_result(Document { headers, labels, label_line, rows })
}

impl Document {
    /// Read the bytes of a file into headers, labels and rows, or refuse.
    pub fn lex(bytes: &[u8]) -> (r: Result<Document, Refusals>)
        ensures
            lexed(r) == lex_bytes(bytes@),
    {
        let body: &[u8] = if bytes.len() >= 3 && bytes[0] == 0xEF && bytes[1] == 0xBB && bytes[2] == 0xBF {
            let (_, rest) = bytes.split_at(3);
            assert(rest@ =~= bytes@.skip(3));
            rest
        } else if bytes.len() >= 2 && ((bytes[0] == 0xFF && bytes[1] == 0xFE) || (bytes[0] == 0xFE && bytes[1] == 0xFF)) {
            return Err(Refusals::single(Refusal::in_file(owned("the file begins with a UTF-16 byte order mark, and a conforming file is UTF-8"))));
        } else {
            bytes
        };
        assert(lex_bytes(bytes@) == lex_body(body@));
        match utf8_text(body) {
            Some(text) => {
                let chars = chars_of(text);
                lex_chars(chars.as_slice())
            },
            None => {
                let offset = valid_up_to(body);
                let mut reason = owned("the file is not UTF-8: the byte at offset ");
                let digits = decimal_string(offset as u64);
                append(&mut reason, digits.as_str());
                append(&mut reason, " does not begin a valid sequence");
                Err(Refusals::single(Refusal::in_file(reason)))
            },
        }
    }
}


/// The names among `names` that `known` does not hold, in their order.
pub open spec fn outside(names: Seq<Seq<char>>, known: Seq<Seq<char>>) -> Seq<Seq<char>> {
    names.filter(|n: Seq<char>| !known.contains(n))
}

/// Whether `known` holds the name.
fn known_holds(known: &[&str], name: &str) -> (r: bool)
    ensures
        r == words(known@).contains(name@),
{
    let chars = chars_of(name);
    let mut i: usize = 0;
    while i < known.len()
        invariant
            i <= known@.len(),
            chars@ == name@,
            forall|j: int| 0 <= j < i ==> known@[j]@ != name@,
        decreases known@.len() - i,
    {
        if is_text(chars.as_slice(), known[i]) {
            assert(words(known@)[i as int] == name@);
            return true;
        }
        i = i + 1;
    }
    proof {
        if words(known@).contains(name@) {
            let j = choose|j: int| 0 <= j < words(known@).len() && words(known@)[j] == name@;
            assert(known@[j]@ == name@);
        }
    }
    false
}

/// The strings among `names` that `known` does not hold, in their order.
fn strings_outside(names: &Vec<String>, known: &[&str]) -> (r: Vec<String>)
    ensures
        strings(r@) == outside(strings(names@), words(known@)),
{
    let ghost t = strings(names@);
    let ghost k = words(known@);
    let mut out: Vec<String> = Vec::new();
    let mut i: usize = 0;
    while i < names.len()
        invariant
            i <= names@.len(),
            t == strings(names@),
            k == words(known@),
            strings(out@) == outside(t.take(i as int), k),
        decreases names@.len() - i,
    {
        let ghost before = strings(out@);
        proof {
            let next = t.take(i + 1);
            assert(next.drop_last() =~= t.take(i as int));
            assert(next.last() == names@[i as int]@);
            reveal(Seq::filter);
        }
        if !known_holds(known, names[i].as_str()) {
            out.push(names[i].clone());
            assert(strings(out@) =~= before.push(names@[i as int]@));
        }
        i = i + 1;
    }
    assert(t.take(names@.len() as int) =~= t);
    out
}

impl Document {
    /// The header field of that name, where the file carried one: the first
    /// that carries it.
    pub fn header(&self, name: &str) -> (r: Option<&Header>)
        ensures
            r is None <==> !header_names(self@.0).contains(name@),
            r matches Some(h) ==> exists|i: int|
                0 <= i < self.headers@.len() && self.headers@[i] == *h && h.name@ == name@
                    && forall|j: int| 0 <= j < i ==> self.headers@[j].name@ != name@,
    {
        let chars = chars_of(name);
        let mut i: usize = 0;
        while i < self.headers.len()
            invariant
                i <= self.headers@.len(),
                chars@ == name@,
                forall|j: int| 0 <= j < i ==> self.headers@[j].name@ != name@,
            decreases self.headers@.len() - i,
        {
            let held = chars_of(self.headers[i].name.as_str());
            if crate::text::same_chars(held.as_slice(), chars.as_slice()) {
                assert(header_names(self@.0)[i as int] == name@);
                return Some(&self.headers[i]);
            }
            i = i + 1;
        }
        proof {
            if header_names(self@.0).contains(name@) {
                let j = choose|j: int| 0 <= j < header_names(self@.0).len() && header_names(self@.0)[j] == name@;
                assert(self.headers@[j].name@ == name@);
            }
        }
        None
    }

    /// The position of the column of that label, where the file carried one:
    /// the first that carries it.
    pub fn column(&self, label: &str) -> (r: Option<usize>)
        ensures
            r is None <==> !self@.1.contains(label@),
            r matches Some(i) ==> i < self@.1.len() && self@.1[i as int] == label@
                && forall|j: int| 0 <= j < i ==> self@.1[j] != label@,
    {
        let chars = chars_of(label);
        let mut i: usize = 0;
        while i < self.labels.len()
            invariant
                i <= self.labels@.len(),
                chars@ == label@,
                forall|j: int| 0 <= j < i ==> self@.1[j] != label@,
            decreases self.labels@.len() - i,
        {
            let held = chars_of(self.labels[i].as_str());
            if crate::text::same_chars(held.as_slice(), chars.as_slice()) {
                assert(self@.1[i as int] == label@);
                return Some(i);
            }
            i = i + 1;
        }
        proof {
            if self@.1.contains(label@) {
                let j = choose|j: int| 0 <= j < self@.1.len() && self@.1[j] == label@;
                assert(self@.1[j] == label@);
            }
        }
        None
    }

    /// The header fields this file carried that the caller did not name.
    pub fn headers_outside(&self, known: &[&str]) -> (r: Vec<String>)
        ensures
            strings(r@) == outside(header_names(self@.0), words(known@)),
    {
        let mut names: Vec<String> = Vec::new();
        let mut i: usize = 0;
        while i < self.headers.len()
            invariant
                i <= self.headers@.len(),
                strings(names@) == header_names(self@.0).take(i as int),
            decreases self.headers@.len() - i,
        {
            let ghost before = strings(names@);
            names.push(self.headers[i].name.clone());
            assert(strings(names@) =~= before.push(self.headers@[i as int].name@));
            assert(header_names(self@.0).take(i + 1) =~= header_names(self@.0).take(i as int).push(self.headers@[i as int].name@));
            i = i + 1;
        }
        assert(header_names(self@.0).take(self.headers@.len() as int) =~= header_names(self@.0));
        strings_outside(&names, known)
    }

    /// The column labels this file carried that the caller did not name.
    pub fn columns_outside(&self, known: &[&str]) -> (r: Vec<String>)
        ensures
            strings(r@) == outside(self@.1, words(known@)),
    {
        strings_outside(&self.labels, known)
    }
}

/// Every row of a document carries one cell per label.
pub open spec fn rows_fit(doc: DocumentView) -> bool {
    forall|k: int| 0 <= k < doc.3.len() ==> (#[trigger] doc.3[k]).1.len() == doc.1.len()
}

pub proof fn lemma_rows_upto_width(l: Seq<LineView>, start: int, width: nat, k: int)
    ensures
        forall|i: int| 0 <= i < rows_upto(l, start, width, k).0.len() ==> (#[trigger] rows_upto(l, start, width, k).0[i]).1.len() == width,
    decreases k - start,
{
    if k > start {
        lemma_rows_upto_width(l, start, width, k - 1);
        let (rows, rs) = rows_upto(l, start, width, k - 1);
        let (r1, r2) = row_step(l[k - 1], width);
        assert forall|i: int| 0 <= i < (rows + r1).len() implies (#[trigger] (rows + r1)[i]).1.len() == width by {
            if i >= rows.len() {
                assert((rows + r1)[i] == r1[i - rows.len()]);
            }
        }
    }
}

/// Every row of a document that lexed carries one cell per label.
pub proof fn lemma_lexed_rows_fit(b: Seq<u8>)
    ensures
        lex_bytes(b) matches Ok(d) ==> rows_fit(d),
{
    let text = if has_utf8_mark(b) { decode_utf8(b.skip(3)) } else { decode_utf8(b) };
    let p = split(text, '\n');
    let l = lines_of(p, p.len() as int);
    let h = header_count(l);
    if h < l.len() {
        let labels = split(l[h as int].1, '\t');
        lemma_rows_upto_width(l, (h + 1) as int, labels.len(), l.len() as int);
    }
}

} // verus!
