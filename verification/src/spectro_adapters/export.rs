//! What both exports share: quoted cells, padded cells, labels found by a
//! test on the label, and the operator's names checked before they reach a
//! cell.
use vstd::prelude::*;
use crate::spectro_contract::refusal::{absent_field_v, Refusal, RefusalView, Refusals};
use crate::spectro_contract::value::{is_white_space, white_space};
use crate::text::{append, chars_of, is_text, owned, quote, quoted, slice_of, string_of};

verus! {

/// The cell without the quotation marks an export wraps it in, where it is
/// wrapped in both.
pub open spec fn unquote_v(c: Seq<char>) -> Seq<char> {
    if c.len() >= 2 && c[0] == '"' && c.last() == '"' {
        c.subrange(1, c.len() - 1)
    } else {
        c
    }
}

pub fn unquote(c: &[char]) -> (r: Vec<char>)
    ensures
        r@ == unquote_v(c@),
{
    if c.len() >= 2 && c[0] == '"' && c[c.len() - 1] == '"' {
        slice_of(c, 1, c.len() - 1)
    } else {
        slice_of(c, 0, c.len())
    }
}

/// The text without the white space at its start.
pub open spec fn trim_start_v(c: Seq<char>) -> Seq<char>
    decreases c.len(),
{
    if c.len() > 0 && is_white_space(c[0]) {
        trim_start_v(c.drop_first())
    } else {
        c
    }
}

/// The text without the white space at its end.
pub open spec fn trim_end_v(c: Seq<char>) -> Seq<char>
    decreases c.len(),
{
    if c.len() > 0 && is_white_space(c.last()) {
        trim_end_v(c.drop_last())
    } else {
        c
    }
}

/// The text without the white space at either end.
pub open spec fn trim_v(c: Seq<char>) -> Seq<char> {
    trim_end_v(trim_start_v(c))
}

pub fn trim(c: &[char]) -> (r: Vec<char>)
    ensures
        r@ == trim_v(c@),
{
    let mut a: usize = 0;
    assert(c@.subrange(0, c.len() as int) =~= c@);
    while a < c.len() && white_space(c[a])
        invariant
            a <= c.len(),
            trim_start_v(c@) == trim_start_v(c@.subrange(a as int, c.len() as int)),
        decreases c.len() - a,
    {
        assert(c@.subrange(a as int, c.len() as int).drop_first() =~= c@.subrange(a + 1, c.len() as int));
        a = a + 1;
    }
    let mut b: usize = c.len();
    assert(trim_start_v(c@) == c@.subrange(a as int, c.len() as int));
    while b > a && white_space(c[b - 1])
        invariant
            a <= b <= c.len(),
            trim_v(c@) == trim_end_v(c@.subrange(a as int, b as int)),
        decreases b - a,
    {
        assert(c@.subrange(a as int, b as int).drop_last() =~= c@.subrange(a as int, b - 1));
        b = b - 1;
    }
    slice_of(c, a, b)
}

/// The first position from `i` on whose cell meets `pred`.
pub open spec fn find_from(cells: Seq<Seq<char>>, pred: spec_fn(Seq<char>) -> bool, i: int) -> Option<int>
    decreases cells.len() - i,
{
    if i < 0 || i >= cells.len() {
        None
    } else if pred(cells[i]) {
        Some(i)
    } else {
        find_from(cells, pred, i + 1)
    }
}

pub open spec fn starts_with(s: Seq<char>, p: Seq<char>) -> bool {
    s.len() >= p.len() && s.take(p.len() as int) == p
}

pub fn begins(s: &[char], p: &str) -> (r: bool)
    ensures
        r == starts_with(s@, p@),
{
    let pc = chars_of(p);
    if s.len() < pc.len() {
        return false;
    }
    let head = slice_of(s, 0, pc.len());
    crate::text::same_chars(head.as_slice(), pc.as_slice())
}

pub open spec fn begins_with(p: Seq<char>) -> spec_fn(Seq<char>) -> bool {
    |c: Seq<char>| starts_with(c, p)
}

pub open spec fn equals(p: Seq<char>) -> spec_fn(Seq<char>) -> bool {
    |c: Seq<char>| c == p
}

/// The first cell that begins with `p`.
pub fn first_beginning(cells: &Vec<Vec<char>>, p: &str) -> (r: Option<usize>)
    ensures
        crate::spectro_contract::reading::column_index(r) == find_from(crate::text::texts(cells@), begins_with(p@), 0),
        r matches Some(i) ==> i < cells@.len(),
{
    let ghost t = crate::text::texts(cells@);
    let mut i: usize = 0;
    while i < cells.len()
        invariant
            i <= cells@.len(),
            t == crate::text::texts(cells@),
            find_from(t, begins_with(p@), 0) == find_from(t, begins_with(p@), i as int),
        decreases cells@.len() - i,
    {
        assert(t[i as int] == cells@[i as int]@);
        if begins(cells[i].as_slice(), p) {
            return Some(i);
        }
        i = i + 1;
    }
    None
}

/// The first cell that is exactly `p`.
pub fn first_equal(cells: &Vec<Vec<char>>, p: &str) -> (r: Option<usize>)
    ensures
        crate::spectro_contract::reading::column_index(r) == find_from(crate::text::texts(cells@), equals(p@), 0),
        r matches Some(i) ==> i < cells@.len(),
{
    let ghost t = crate::text::texts(cells@);
    let mut i: usize = 0;
    while i < cells.len()
        invariant
            i <= cells@.len(),
            t == crate::text::texts(cells@),
            find_from(t, equals(p@), 0) == find_from(t, equals(p@), i as int),
        decreases cells@.len() - i,
    {
        assert(t[i as int] == cells@[i as int]@);
        if is_text(cells[i].as_slice(), p) {
            return Some(i);
        }
        i = i + 1;
    }
    None
}

/// Whether any cell begins with `p`.
pub open spec fn any_begins(cells: Seq<Seq<char>>, p: Seq<char>) -> bool {
    find_from(cells, begins_with(p), 0) is Some
}

pub open spec fn empty_naming() -> Seq<char> {
    "is empty"@
}

pub open spec fn naming_breaks_cell(v: Seq<char>) -> Seq<char> {
    quoted(v) + " carries a tab or a line ending, which a cell may not"@
}

/// What an operator's name is refused for: being empty, or carrying what
/// would break the cell it is written into.
pub open spec fn naming_check_v(field: Seq<char>, value: Seq<char>) -> Seq<RefusalView> {
    if value.len() == 0 {
        seq![absent_field_v(field, empty_naming())]
    } else if value.contains('\t') || value.contains('\n') || value.contains('\r') {
        seq![absent_field_v(field, naming_breaks_cell(value))]
    } else {
        Seq::empty()
    }
}

fn holds_char(s: &[char], c: char) -> (r: bool)
    ensures
        r == s@.contains(c),
{
    let mut i: usize = 0;
    while i < s.len()
        invariant
            i <= s.len(),
            forall|j: int| 0 <= j < i ==> s@[j] != c,
        decreases s.len() - i,
    {
        if s[i] == c {
            return true;
        }
        i = i + 1;
    }
    false
}

pub fn check_naming(refusals: &mut Refusals, field: &str, value: &str)
    ensures
        final(refusals)@ == old(refusals)@ + naming_check_v(field@, value@),
{
    let v = chars_of(value);
    if v.len() == 0 {
        refusals.push(Refusal::absent_field(owned(field), owned("is empty")));
        return;
    }
    if holds_char(v.as_slice(), '\t') || holds_char(v.as_slice(), '\n') || holds_char(v.as_slice(), '\r') {
        let mut m = quote(v.as_slice());
        append(&mut m, " carries a tab or a line ending, which a cell may not");
        refusals.push(Refusal::absent_field(owned(field), m));
        return;
    }
    assert(old(refusals)@ + Seq::<RefusalView>::empty() =~= old(refusals)@);
}

/// Whether the text holds the character.
pub fn has_char(s: &[char], c: char) -> (r: bool)
    ensures
        r == s@.contains(c),
{
    holds_char(s, c)
}

/// The text without a carriage return at its end.
pub open spec fn without_cr(p: Seq<char>) -> Seq<char> {
    if p.len() > 0 && p.last() == '\r' {
        p.drop_last()
    } else {
        p
    }
}

pub fn strip_cr(p: &[char]) -> (r: Vec<char>)
    ensures
        r@ == without_cr(p@),
{
    if p.len() > 0 && p[p.len() - 1] == '\r' {
        slice_of(p, 0, p.len() - 1)
    } else {
        slice_of(p, 0, p.len())
    }
}

pub open spec fn blank_export_line() -> Seq<char> {
    "the export carries a line with no bytes, and a blank line and a row of empty cells cannot be told apart afterwards"@
}

/// Where a column found at `c` stands once a cell has been put in at `k`.
pub open spec fn shifted(c: Option<int>, k: int) -> Option<int> {
    match c {
        Some(i) => Some(if i >= k { i + 1 } else { i }),
        None => None,
    }
}

/// A search that does not match the cell put in at `k` finds the same cell,
/// one place further on where it stood at or after `k`.
pub proof fn lemma_find_past_insert(cells: Seq<Seq<char>>, pred: spec_fn(Seq<char>) -> bool, x: Seq<char>, k: int, i: int)
    requires
        0 <= k <= cells.len(),
        0 <= i <= cells.len(),
        !pred(x),
    ensures
        find_from(cells.insert(k, x), pred, if i < k { i } else { i + 1 }) == shifted(find_from(cells, pred, i), k),
    decreases cells.len() - i,
{
    let c2 = cells.insert(k, x);
    let j = if i < k { i } else { i + 1 };
    if i < cells.len() {
        lemma_find_past_insert(cells, pred, x, k, i + 1);
        assert(c2[j] == cells[i]);
        if i + 1 == k {
            assert(c2[k] == x);
            assert(find_from(c2, pred, k) == find_from(c2, pred, k + 1));
        }
    }
}

/// What a search finds is a cell at or after where it started that matches.
pub proof fn lemma_find_is_within(cells: Seq<Seq<char>>, pred: spec_fn(Seq<char>) -> bool, i: int)
    ensures
        find_from(cells, pred, i) matches Some(c) ==> i <= c < cells.len() && pred(cells[c]),
    decreases cells.len() - i,
{
    if 0 <= i < cells.len() && !pred(cells[i]) {
        lemma_find_is_within(cells, pred, i + 1);
    }
}

/// Where a search finds nothing, no cell from where it started matches.
pub proof fn lemma_find_none(cells: Seq<Seq<char>>, pred: spec_fn(Seq<char>) -> bool, i: int)
    requires
        0 <= i,
    ensures
        find_from(cells, pred, i) is None ==> forall|c: int| i <= c < cells.len() ==> !pred(#[trigger] cells[c]),
    decreases cells.len() - i,
{
    if i < cells.len() && !pred(cells[i]) {
        lemma_find_none(cells, pred, i + 1);
    }
}

} // verus!
