//! Finding the columns a reader needs, and the cells a row carries under them.
use vstd::prelude::*;
use crate::spectro_contract::document::{rows_fit, strings, Document, DocumentView, Row, RowView};
use crate::spectro_contract::reading::{column_of, required_column, required_column_v};
use crate::spectro_contract::refusal::{RefusalView, Refusals};
use crate::spectro_contract::value::words;
use crate::text::chars_of;

verus! {

/// The required columns among the first `k` labels asked for: where each one
/// is, and what the absent ones are refused for.
pub open spec fn columns_v(doc: DocumentView, labels: Seq<Seq<char>>, k: int) -> (Seq<Option<int>>, Seq<RefusalView>)
    decreases k,
{
    if k <= 0 {
        (Seq::empty(), Seq::empty())
    } else {
        let (cs, rs) = columns_v(doc, labels, k - 1);
        let (c, r) = required_column_v(doc, labels[k - 1]);
        (cs.push(c), rs + r)
    }
}

pub open spec fn positions(v: Seq<Option<usize>>) -> Seq<Option<int>> {
    v.map_values(
        |c: Option<usize>|
            match c {
                Some(i) => Some(i as int),
                None => None,
            },
    )
}

/// Every column found is a column of the label row.
pub open spec fn columns_in_range(doc: DocumentView, cols: Seq<Option<int>>) -> bool {
    forall|i: int| 0 <= i < cols.len() ==> (#[trigger] cols[i] matches Some(c) ==> 0 <= c < doc.1.len())
}

/// Find every required column, in the order asked for.
pub fn required_columns(doc: &Document, refusals: &mut Refusals, labels: &[&str]) -> (r: Vec<Option<usize>>)
    ensures
        ({
            let want = columns_v(doc@, words(labels@), labels@.len() as int);
            &&& positions(r@) == want.0
            &&& final(refusals)@ == old(refusals)@ + want.1
            &&& columns_in_range(doc@, positions(r@))
            &&& r@.len() == labels@.len()
        }),
{
    let ghost w = words(labels@);
    let ghost start = refusals@;
    let mut out: Vec<Option<usize>> = Vec::new();
    let mut k: usize = 0;
    assert(start + Seq::<RefusalView>::empty() =~= start);
    while k < labels.len()
        invariant
            k <= labels@.len(),
            out@.len() == k,
            w == words(labels@),
            positions(out@) == columns_v(doc@, w, k as int).0,
            refusals@ == start + columns_v(doc@, w, k as int).1,
            columns_in_range(doc@, positions(out@)),
        decreases labels@.len() - k,
    {
        let ghost before = refusals@;
        let c = required_column(doc, refusals, labels[k]);
        let ghost prev = positions(out@);
        out.push(c);
        proof {
            let (cs, rs) = columns_v(doc@, w, k as int);
            assert(w[k as int] == labels@[k as int]@);
            assert(positions(out@) =~= prev.push(positions(out@).last()));
            assert(refusals@ =~= start + (rs + required_column_v(doc@, w[k as int]).1));
            if let Some(i) = c {
                crate::spectro_contract::reading::lemma_first_index(doc@.1, labels@[k as int]@);
            }
            assert forall|i: int| 0 <= i < positions(out@).len() implies (#[trigger] positions(out@)[i] matches Some(c) ==> 0 <= c < doc@.1.len()) by {
                if i < k {
                    assert(positions(out@)[i] == prev[i]);
                }
            }
        }
        k = k + 1;
    }
    out
}

/// The cell under a column, where the column was found.
pub open spec fn cell_at(row: RowView, col: Option<int>) -> Option<Seq<char>> {
    match col {
        Some(c) => Some(row.1[c]),
        None => None,
    }
}

/// Whether the text is one of the strings.
pub fn held_in(v: &Vec<String>, s: &str) -> (r: bool)
    ensures
        r == strings(v@).contains(s@),
{
    let c = chars_of(s);
    let mut i: usize = 0;
    while i < v.len()
        invariant
            i <= v@.len(),
            c@ == s@,
            forall|j: int| 0 <= j < i ==> v@[j]@ != s@,
        decreases v@.len() - i,
    {
        let held = chars_of(v[i].as_str());
        if crate::text::same_chars(held.as_slice(), c.as_slice()) {
            assert(strings(v@)[i as int] == s@);
            return true;
        }
        i = i + 1;
    }
    proof {
        if strings(v@).contains(s@) {
            let j = choose|j: int| 0 <= j < strings(v@).len() && strings(v@)[j] == s@;
            assert(v@[j]@ == s@);
        }
    }
    false
}

/// Where looking the labels up refused nothing, every one was found.
pub proof fn lemma_columns_all_found(doc: DocumentView, labels: Seq<Seq<char>>, k: int)
    requires
        0 <= k,
        columns_v(doc, labels, k).1.len() == 0,
    ensures
        columns_v(doc, labels, k).0.len() == k,
        forall|i: int| 0 <= i < k ==> (#[trigger] columns_v(doc, labels, k).0[i]) is Some,
    decreases k,
{
    if k > 0 {
        let (cs, rs) = columns_v(doc, labels, k - 1);
        let (c, r) = crate::spectro_contract::reading::required_column_v(doc, labels[k - 1]);
        assert(rs.len() == 0 && r.len() == 0);
        lemma_columns_all_found(doc, labels, k - 1);
        assert forall|i: int| 0 <= i < k implies (#[trigger] cs.push(c)[i]) is Some by {
            if i < k - 1 {
                assert(cs.push(c)[i] == cs[i]);
            }
        }
    }
}

} // verus!
