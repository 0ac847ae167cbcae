//! A hypothesis, and the structural key computed from it.
//!
//! A hypothesis for an observation is a set of distinct items: size zero says
//! no offered item produced the observation, size one is a single assignment,
//! and size two or more is a blend. One type, three sizes, no special case.
//!
//! The key is computed on request and never stored, so it cannot disagree with
//! the components it is computed from.
use vstd::prelude::*;
use crate::assoc_model::id::SlotValue;
use crate::assoc_model::item::{item_less, lemma_item_strict_total, Item, ItemView};
use crate::assoc_model::order::{
    lemma_lex_strict_total, lex_less, lemma_sorted_unique, lemma_text_strict_total, rank_of, sorted_by, strict_total, text_less,
    Rank,
};
use crate::assoc_model::refusal::Refused;

verus! {

pub open spec fn item_views(v: Seq<Item>) -> Seq<ItemView> {
    v.map_values(|x: Item| x@)
}

/// Whether the item at `k` cannot join the ones before it: its arity is not
/// the first item's, or it repeats one of them.
pub open spec fn fault_at(v: Seq<ItemView>, k: int) -> bool {
    v[k].1.len() != v[0].1.len() || v.take(k).contains(v[k])
}

pub open spec fn faultless(v: Seq<ItemView>) -> bool {
    forall|k: int| 0 <= k < v.len() ==> !#[trigger] fault_at(v, k)
}

/// `k` is the first position that cannot join the ones before it.
pub open spec fn first_fault(v: Seq<ItemView>, k: int) -> bool {
    0 <= k < v.len() && fault_at(v, k) && forall|j: int| 0 <= j < k ==> !#[trigger] fault_at(v, j)
}

/// `h` holds the items of `v`, each once, in the canonical order.
pub open spec fn arranges(h: Seq<ItemView>, v: Seq<ItemView>) -> bool {
    sorted_by(h, item_less()) && forall|x: ItemView| h.contains(x) <==> v.contains(x)
}

/// What `new` answers where the item at `k` is the first that cannot join.
pub open spec fn refused_at(v: Seq<ItemView>, k: int, r: Result<Hypothesis, Refused>) -> bool {
    if v[k].1.len() != v[0].1.len() {
        r == Err::<Hypothesis, Refused>(
            Refused::SlotCountDiffers { expected: v[0].1.len() as usize, found: v[k].1.len() as usize },
        )
    } else {
        r matches Err(Refused::ItemRepeated { item }) && item@ == v[k]
    }
}

/// What a hypothesis holds is fixed by its items and by nothing else.
pub open spec fn hypothesis_wf(h: Seq<ItemView>) -> bool {
    &&& sorted_by(h, item_less())
    &&& forall|i: int| 0 <= i < h.len() ==> (#[trigger] h[i]).1.len() == h[0].1.len()
    &&& forall|i: int| 0 <= i < h.len() ==> (#[trigger] h[i]).1.len() > 0
}

/// The items both hypotheses claim, in the order of the first.
pub open spec fn shared(a: Seq<ItemView>, b: Seq<ItemView>) -> Seq<ItemView> {
    a.filter(|x: ItemView| b.contains(x))
}

/// Whether the two hypotheses claim an item in common.
pub open spec fn share_an_item(a: Seq<ItemView>, b: Seq<ItemView>) -> bool {
    exists|x: ItemView| a.contains(x) && b.contains(x)
}

/// How many of the items put `v` in slot `s`.
pub open spec fn slot_count(h: Seq<ItemView>, s: int, v: Seq<char>) -> nat
    decreases h.len(),
{
    if h.len() == 0 {
        0
    } else {
        slot_count(h.drop_last(), s, v) + if h.last().1[s] == v {
            1nat
        } else {
            0nat
        }
    }
}

/// Every item a hypothesis claims produced its observation.
///
/// Ordered underneath, so iteration is the same on every run: the order comes
/// from identifiers and never from the order a caller happened to offer.
///
/// The items are held in a strictly ascending `Vec` rather than a
/// `BTreeSet`: vstd specifies a `BTreeSet` only for keys whose `Ord` obeys
/// its comparison laws, which an `Ord` that `derive` wrote for `Item` is not
/// shown to do, so the set's order and membership could not be reasoned
/// about. The invariant below states what the set gave: sorted, each once.
#[derive(Debug, PartialEq, Eq)]
pub struct Hypothesis {
    items: Vec<Item>,
}

impl View for Hypothesis {
    type V = Seq<ItemView>;

    closed spec fn view(&self) -> Seq<ItemView> {
        item_views(self.items@)
    }
}

impl Hypothesis {
    #[verifier::type_invariant]
    pub closed spec fn well_formed(self) -> bool {
        hypothesis_wf(item_views(self.items@))
    }
}

/// Put `item` into its place among the sorted items, unless one equal to it is
/// already there.
fn insert_item(held: &mut Vec<Item>, item: Item) -> (added: bool)
    requires
        sorted_by(item_views(old(held)@), item_less()),
    ensures
        sorted_by(item_views(final(held)@), item_less()),
        added == !item_views(old(held)@).contains(item@),
        forall|x: ItemView| item_views(final(held)@).contains(x) <==> (item_views(old(held)@).contains(x) || x == item@),
{
    proof {
        lemma_item_strict_total();
    }
    let ghost h = item_views(held@);
    let mut p: usize = 0;
    while p < held.len() && held[p].rank(&item) == Rank::Before
        invariant
            p <= held@.len(),
            h == item_views(held@),
            forall|j: int| 0 <= j < p ==> item_less()(#[trigger] h[j], item@),
        decreases held@.len() - p,
    {
        p = p + 1;
    }
    if p < held.len() && held[p].rank(&item) == Rank::Same {
        assert(h[p as int] == item@);
        assert forall|x: ItemView| item_views(held@).contains(x) <==> (h.contains(x) || x == item@) by {
            if x == item@ {
                assert(h[p as int] == x);
            }
        }
        return false;
    }
    proof {
        if p < h.len() {
            assert(item_less()(item@, h[p as int]));
        }
        assert forall|j: int| p <= j < h.len() implies item_less()(item@, #[trigger] h[j]) by {
            if j > p {
                assert(item_less()(h[p as int], h[j]));
            }
        }
        assert(!h.contains(item@)) by {
            if h.contains(item@) {
                let j = choose|j: int| 0 <= j < h.len() && h[j] == item@;
                if j < p {
                    assert(item_less()(item@, item@));
                } else {
                    assert(item_less()(item@, item@));
                }
            }
        }
    }
    let ghost iv = item@;
    held.insert(p, item);
    proof {
        let n = item_views(held@);
        assert(n =~= h.insert(p as int, iv));
        h.insert_ensures(p as int, iv);
        assert forall|i: int, j: int| 0 <= i < j < n.len() implies #[trigger] item_less()(n[i], n[j]) by {
            if j < p {
            } else if j == p {
            } else if i < p {
                assert(n[j] == h[j - 1]);
                assert(item_less()(h[i], iv));
            } else if i == p {
                assert(n[j] == h[j - 1]);
            } else {
                assert(n[i] == h[i - 1] && n[j] == h[j - 1]);
            }
        }
        assert forall|x: ItemView| n.contains(x) <==> (h.contains(x) || x == iv) by {
            if n.contains(x) {
                let k = choose|k: int| 0 <= k < n.len() && n[k] == x;
                if k < p {
                    assert(h[k] == x);
                } else if k > p {
                    assert(h[k - 1] == x);
                }
            }
            if h.contains(x) {
                let k = choose|k: int| 0 <= k < h.len() && h[k] == x;
                if k < p {
                    assert(n[k] == x);
                } else {
                    assert(n[k + 1] == x);
                }
            }
            if x == iv {
                assert(n[p as int] == x);
            }
        }
    }
    true
}

impl Hypothesis {
    /// Build a hypothesis from the items it claims.
    ///
    /// One item offered twice is refused rather than deduplicated, and so is an
    /// item whose arity is not the first item's; the first item that cannot
    /// join the ones before it is the one the refusal is about.
    pub fn new(items: Vec<Item>) -> (r: Result<Hypothesis, Refused>)
        ensures
            faultless(item_views(items@)) ==> (r matches Ok(h) && arranges(h@, item_views(items@))
                && h@.len() == items@.len()),
            !faultless(item_views(items@)) ==> exists|k: int|
                #[trigger] first_fault(item_views(items@), k) && refused_at(item_views(items@), k, r),
    {
        let ghost v = item_views(items@);
        let mut held: Vec<Item> = Vec::new();
        let mut k: usize = 0;
        while k < items.len()
            invariant
                k <= items@.len(),
                v == item_views(items@),
                sorted_by(item_views(held@), item_less()),
                forall|x: ItemView| item_views(held@).contains(x) <==> v.take(k as int).contains(x),
                forall|j: int| 0 <= j < k ==> !#[trigger] fault_at(v, j),
                forall|j: int| 0 <= j < k ==> (#[trigger] v[j]).1.len() > 0,
                k > 0 ==> v[0].1.len() > 0,
            decreases items@.len() - k,
        {
            let expected = items[0].arity();
            let found = items[k].arity();
            if found != expected {
                assert(first_fault(v, k as int));
                return Err(Refused::SlotCountDiffers { expected, found });
            }
            let ghost before = item_views(held@);
            let item = items[k].copy();
            assert(item@ == v[k as int]);
            let added = insert_item(&mut held, item);
            if !added {
                assert(v.take(k as int).contains(v[k as int]));
                assert(first_fault(v, k as int));
                return Err(Refused::ItemRepeated { item: Box::new(items[k].copy()) });
            }
            proof {
                assert(!v.take(k as int).contains(v[k as int]));
                assert(!fault_at(v, k as int));
                let t = v.take(k + 1);
                assert(t =~= v.take(k as int).push(v[k as int]));
                assert forall|x: ItemView| item_views(held@).contains(x) <==> t.contains(x) by {
                    if t.contains(x) && x != v[k as int] {
                        let m = choose|m: int| 0 <= m < t.len() && t[m] == x;
                        assert(v.take(k as int)[m] == x);
                        assert(before.contains(x));
                    }
                    if x == v[k as int] {
                        assert(t[k as int] == x);
                    }
                    if before.contains(x) {
                        assert(v.take(k as int).contains(x));
                        let m = choose|m: int| 0 <= m < k && v.take(k as int)[m] == x;
                        assert(t[m] == x);
                    }
                }
            }
            k = k + 1;
        }
        assert(v.take(items@.len() as int) =~= v);
        proof {
            let h = item_views(held@);
            assert forall|i: int| 0 <= i < h.len() implies (#[trigger] h[i]).1.len() == h[0].1.len() by {
                assert(h.contains(h[i]));
                assert(h.contains(h[0]));
                assert(v.contains(h[i]));
                assert(v.contains(h[0]));
                let a = choose|a: int| 0 <= a < v.len() && v[a] == h[i];
                let b = choose|b: int| 0 <= b < v.len() && v[b] == h[0];
                assert(!fault_at(v, a));
                assert(!fault_at(v, b));
            }
            assert forall|i: int| 0 <= i < h.len() implies (#[trigger] h[i]).1.len() > 0 by {
                assert(h.contains(h[i]));
                assert(v.contains(h[i]));
                let a = choose|a: int| 0 <= a < v.len() && v[a] == h[i];
                assert(v[a].1.len() > 0);
            }
            if faultless(v) {
                lemma_arranged_len(h, v);
            }
        }
        Ok(Hypothesis { items: held })
    }
}


/// The index of `x` in `h`, where `h` holds it.
proof fn lemma_find<A>(h: Seq<A>, x: A) -> (i: int)
    requires
        h.contains(x),
    ensures
        0 <= i < h.len(),
        h[i] == x,
{
    choose|i: int| 0 <= i < h.len() && h[i] == x
}

impl Hypothesis {
    /// The hypothesis that no offered item produced the observation.
    pub fn none_of_these() -> (r: Hypothesis)
        ensures
            r@ == Seq::<ItemView>::empty(),
    {
        let r = Hypothesis { items: Vec::new() };
        assert(r@ =~= Seq::<ItemView>::empty());
        r
    }

    /// How many items this hypothesis claims.
    pub fn size(&self) -> (r: usize)
        ensures
            r == self@.len(),
    {
        self.items.len()
    }

    /// True for the size-zero hypothesis and for no other.
    pub fn is_none_of_these(&self) -> (r: bool)
        ensures
            r == (self@.len() == 0),
    {
        self.items.len() == 0
    }

    /// How many slots the items of this hypothesis carry, and zero where it
    /// claims none.
    pub fn arity(&self) -> (r: usize)
        ensures
            self@.len() == 0 ==> r == 0,
            self@.len() > 0 ==> r == self@[0].1.len() && r > 0,
            forall|i: int| 0 <= i < self@.len() ==> (#[trigger] self@[i]).1.len() == r,
    {
        proof {
            use_type_invariant(self);
        }
        if self.items.len() == 0 {
            0
        } else {
            self.items[0].arity()
        }
    }

    /// The items, in the canonical order: strictly ascending, each once, all
    /// of one arity and none of arity zero.
    pub fn items(&self) -> (r: std::slice::Iter<'_, Item>)
        ensures
            item_views(vstd::std_specs::slice::into_iter_elts(r)) == self@,
            hypothesis_wf(self@),
    {
        proof {
            use_type_invariant(self);
        }
        broadcast use vstd::std_specs::slice::axiom_spec_slice_iter;
        let r = self.items.as_slice().iter();
        assert(vstd::std_specs::slice::into_iter_elts(r) == self.items@);
        r
    }

    /// Whether the hypothesis claims the item.
    pub fn holds(&self, item: &Item) -> (r: bool)
        ensures
            r == self@.contains(item@),
    {
        let mut i: usize = 0;
        while i < self.items.len()
            invariant
                i <= self.items@.len(),
                forall|j: int| 0 <= j < i ==> self@[j] != item@,
            decreases self.items@.len() - i,
        {
            if self.items[i].rank(item) == Rank::Same {
                assert(self@[i as int] == item@);
                return true;
            }
            i = i + 1;
        }
        proof {
            if self@.contains(item@) {
                let j = lemma_find(self@, item@);
            }
        }
        false
    }

    /// True where both hypotheses claim at least one item in common: a whole
    /// item, never a slot value.
    pub fn shares_an_item_with(&self, other: &Hypothesis) -> (r: bool)
        ensures
            r == share_an_item(self@, other@),
    {
        let mut i: usize = 0;
        while i < self.items.len()
            invariant
                i <= self.items@.len(),
                forall|j: int| 0 <= j < i ==> !other@.contains(#[trigger] self@[j]),
            decreases self.items@.len() - i,
        {
            if other.holds(&self.items[i]) {
                assert(self@.contains(self@[i as int]));
                return true;
            }
            i = i + 1;
        }
        proof {
            if share_an_item(self@, other@) {
                let x = choose|x: ItemView| self@.contains(x) && other@.contains(x);
                let j = lemma_find(self@, x);
            }
        }
        false
    }

    /// Every item both hypotheses claim, in the canonical order.
    pub fn shared_items(&self, other: &Hypothesis) -> (r: Vec<Item>)
        ensures
            item_views(r@) == shared(self@, other@),
    {
        let ghost h = self@;
        let mut out: Vec<Item> = Vec::new();
        let mut i: usize = 0;
        while i < self.items.len()
            invariant
                i <= self.items@.len(),
                h == self@,
                item_views(out@) == shared(h.take(i as int), other@),
            decreases self.items@.len() - i,
        {
            let ghost before = item_views(out@);
            proof {
                let next = h.take(i + 1);
                assert(next.drop_last() =~= h.take(i as int));
                assert(next.last() == h[i as int]);
                reveal(Seq::filter);
            }
            if other.holds(&self.items[i]) {
                out.push(self.items[i].copy());
                assert(item_views(out@) =~= before.push(h[i as int]));
            }
            i = i + 1;
        }
        assert(h.take(self.items@.len() as int) =~= h);
        out
    }
}

/// One slot's multiset as plain values: each value that occurs, with how
/// often, in the canonical order of the values.
pub type EntryView = (Seq<char>, nat);

pub open spec fn has_value(e: Seq<EntryView>, v: Seq<char>) -> bool {
    exists|i: int| 0 <= i < e.len() && e[i].0 == v
}

/// How often `v` occurs in the multiset.
pub open spec fn entry_count(e: Seq<EntryView>, v: Seq<char>) -> nat {
    if has_value(e, v) {
        e[choose|i: int| 0 <= i < e.len() && e[i].0 == v].1
    } else {
        0
    }
}

/// Each value once, in order, with a count of at least one.
pub open spec fn entries_wf(e: Seq<EntryView>) -> bool {
    &&& forall|i: int, j: int| 0 <= i < j < e.len() ==> #[trigger] text_less()(e[i].0, e[j].0)
    &&& forall|i: int| 0 <= i < e.len() ==> (#[trigger] e[i]).1 > 0
}

proof fn lemma_entry_at(e: Seq<EntryView>, i: int)
    requires
        entries_wf(e),
        0 <= i < e.len(),
    ensures
        entry_count(e, e[i].0) == e[i].1,
{
    lemma_text_strict_total();
    assert(has_value(e, e[i].0));
    let j = choose|j: int| 0 <= j < e.len() && e[j].0 == e[i].0;
    if j < i {
        assert(text_less()(e[j].0, e[i].0));
    } else if j > i {
        assert(text_less()(e[i].0, e[j].0));
    }
}

pub open spec fn entry_views(v: Seq<(SlotValue, usize)>) -> Seq<EntryView> {
    v.map_values(|e: (SlotValue, usize)| (e.0@, e.1 as nat))
}

/// The values that occur in one slot of a key, and how often each does.
///
/// Held as value-count pairs ascending by value rather than as a `BTreeMap`,
/// for the reason given on `Hypothesis`: the keys are a struct of this
/// library whose derived `Ord` vstd cannot reason through.
#[derive(Debug, PartialEq, Eq)]
pub struct SlotMultiset {
    entries: Vec<(SlotValue, usize)>,
}

impl View for SlotMultiset {
    type V = Seq<EntryView>;

    closed spec fn view(&self) -> Seq<EntryView> {
        entry_views(self.entries@)
    }
}

impl SlotMultiset {
    #[verifier::type_invariant]
    pub closed spec fn well_formed(self) -> bool {
        entries_wf(self@)
    }

    /// How many distinct values occur.
    pub fn len(&self) -> (r: usize)
        ensures
            r == self@.len(),
    {
        self.entries.len()
    }

    /// How often `value` occurs.
    pub fn count(&self, value: &SlotValue) -> (r: usize)
        ensures
            r == entry_count(self@, value@),
    {
        proof {
            use_type_invariant(self);
        }
        let mut i: usize = 0;
        while i < self.entries.len()
            invariant
                i <= self.entries@.len(),
                entries_wf(self@),
                forall|j: int| 0 <= j < i ==> self@[j].0 != value@,
            decreases self.entries@.len() - i,
        {
            if self.entries[i].0.same(value) {
                proof {
                    lemma_entry_at(self@, i as int);
                }
                return self.entries[i].1;
            }
            i = i + 1;
        }
        assert(!has_value(self@, value@));
        0
    }
}

/// One more occurrence of `value`.
fn add_entry(entries: &mut Vec<(SlotValue, usize)>, value: &SlotValue)
    requires
        entries_wf(entry_views(old(entries)@)),
        entry_count(entry_views(old(entries)@), value@) < usize::MAX,
    ensures
        entries_wf(entry_views(final(entries)@)),
        forall|x: Seq<char>| #[trigger] entry_count(entry_views(final(entries)@), x) == entry_count(entry_views(old(entries)@), x) + if x == value@ {
            1nat
        } else {
            0nat
        },
{
    proof {
        lemma_text_strict_total();
    }
    let ghost e = entry_views(entries@);
    let mut p: usize = 0;
    while p < entries.len() && entries[p].0.rank(value) == Rank::Before
        invariant
            p <= entries@.len(),
            e == entry_views(entries@),
            entries_wf(e),
            strict_total(text_less()),
            forall|j: int| 0 <= j < p ==> text_less()(#[trigger] e[j].0, value@),
        decreases entries@.len() - p,
    {
        p = p + 1;
    }
    if p < entries.len() && entries[p].0.rank(value) == Rank::Same {
        let c = entries[p].1;
        proof {
            lemma_entry_at(e, p as int);
        }
        let v = entries[p].0.copy();
        entries.set(p, (v, c + 1));
        proof {
            let n = entry_views(entries@);
            assert(n =~= e.update(p as int, (value@, (c + 1) as nat)));
            assert(entries_wf(n));
            assert forall|x: Seq<char>| #[trigger] entry_count(n, x) == entry_count(e, x) + if x == value@ {
                1nat
            } else {
                0nat
            } by {
                lemma_entry_at(n, p as int);
                if x != value@ {
                    if has_value(e, x) {
                        let i = choose|i: int| 0 <= i < e.len() && e[i].0 == x;
                        lemma_entry_at(e, i);
                        lemma_entry_at(n, i);
                    } else {
                        assert(!has_value(n, x));
                    }
                }
            }
        }
        return;
    }
    proof {
        if p < e.len() {
            assert(text_less()(value@, e[p as int].0));
        }
        assert forall|j: int| p <= j < e.len() implies text_less()(value@, #[trigger] e[j].0) by {
            if j > p {
                assert(text_less()(e[p as int].0, e[j].0));
            }
        }
        assert(!has_value(e, value@)) by {
            if has_value(e, value@) {
                let j = choose|j: int| 0 <= j < e.len() && e[j].0 == value@;
                assert(text_less()(value@, value@));
            }
        }
    }
    let v = value.copy();
    entries.insert(p, (v, 1));
    proof {
        let n = entry_views(entries@);
        let ne = (value@, 1nat);
        assert(n =~= e.insert(p as int, ne));
        e.insert_ensures(p as int, ne);
        assert forall|i: int, j: int| 0 <= i < j < n.len() implies #[trigger] text_less()(n[i].0, n[j].0) by {
            if j < p {
            } else if j == p {
            } else if i < p {
                assert(n[j] == e[j - 1]);
                assert(text_less()(e[i].0, value@));
            } else if i == p {
                assert(n[j] == e[j - 1]);
            } else {
                assert(n[i] == e[i - 1] && n[j] == e[j - 1]);
            }
        }
        assert forall|i: int| 0 <= i < n.len() implies (#[trigger] n[i]).1 > 0 by {
            if i > p {
                assert(n[i] == e[i - 1]);
            }
        }
        assert(entries_wf(n));
        assert forall|x: Seq<char>| #[trigger] entry_count(n, x) == entry_count(e, x) + if x == value@ {
            1nat
        } else {
            0nat
        } by {
            lemma_entry_at(n, p as int);
            if x != value@ {
                if has_value(e, x) {
                    let i = choose|i: int| 0 <= i < e.len() && e[i].0 == x;
                    lemma_entry_at(e, i);
                    if i < p {
                        lemma_entry_at(n, i);
                    } else {
                        assert(n[i + 1] == e[i]);
                        lemma_entry_at(n, i + 1);
                    }
                } else {
                    assert(!has_value(n, x)) by {
                        if has_value(n, x) {
                            let k = choose|k: int| 0 <= k < n.len() && n[k].0 == x;
                            if k < p {
                                assert(e[k].0 == x);
                            } else if k > p {
                                assert(e[k - 1].0 == x);
                            }
                        }
                    }
                }
            }
        }
    }
}


/// How many slots the items of a hypothesis carry, and zero where it claims
/// none.
pub open spec fn arity_of(h: Seq<ItemView>) -> nat {
    if h.len() == 0 {
        0
    } else {
        h[0].1.len()
    }
}

proof fn lemma_slot_count_bound(h: Seq<ItemView>, s: int, v: Seq<char>)
    ensures
        slot_count(h, s, v) <= h.len(),
    decreases h.len(),
{
    if h.len() > 0 {
        lemma_slot_count_bound(h.drop_last(), s, v);
    }
}

proof fn lemma_slot_count_positive(h: Seq<ItemView>, s: int, i: int)
    requires
        0 <= i < h.len(),
    ensures
        slot_count(h, s, h[i].1[s]) >= 1,
    decreases h.len(),
{
    if i + 1 < h.len() {
        assert(h.drop_last()[i] == h[i]);
        lemma_slot_count_positive(h.drop_last(), s, i);
    }
}

/// What two hypotheses are compared by when the question is whether they are
/// the same claim: one multiset per slot, in layout order.
#[derive(Debug, PartialEq, Eq)]
pub struct StructuralKey {
    slots: Vec<SlotMultiset>,
}

impl View for StructuralKey {
    type V = Seq<Seq<EntryView>>;

    closed spec fn view(&self) -> Seq<Seq<EntryView>> {
        self.slots@.map_values(|m: SlotMultiset| m@)
    }
}

impl StructuralKey {
    /// How many slots this key carries a multiset for.
    pub fn width(&self) -> (r: usize)
        ensures
            r == self@.len(),
    {
        self.slots.len()
    }

    /// The multiset in one slot, or `None` for a slot this key does not carry.
    pub fn multiset(&self, slot: usize) -> (r: Option<&SlotMultiset>)
        ensures
            slot < self@.len() ==> (r matches Some(m) && m@ == self@[slot as int]),
            slot >= self@.len() ==> r is None,
    {
        if slot < self.slots.len() {
            Some(&self.slots[slot])
        } else {
            None
        }
    }

    /// How many of the hypothesis's items put `value` in `slot`.
    pub fn count(&self, slot: usize, value: &SlotValue) -> (r: usize)
        ensures
            slot < self@.len() ==> r == entry_count(self@[slot as int], value@),
            slot >= self@.len() ==> r == 0,
    {
        if slot < self.slots.len() {
            self.slots[slot].count(value)
        } else {
            0
        }
    }
}

impl Hypothesis {
    /// One multiset per slot, computed from the items now.
    pub fn key(&self) -> (r: StructuralKey)
        ensures
            r@.len() == arity_of(self@),
            forall|s: int, v: Seq<char>| 0 <= s < r@.len() ==> #[trigger] entry_count(r@[s], v) == slot_count(self@, s, v),
            forall|s: int| 0 <= s < r@.len() ==> entries_wf(#[trigger] r@[s]),
    {
        proof {
            use_type_invariant(self);
        }
        let ghost h = self@;
        let width = self.arity();
        let n = self.items.len();
        let mut slots: Vec<SlotMultiset> = Vec::new();
        let mut s: usize = 0;
        while s < width
            invariant
                s <= width,
                h == self@,
                n == h.len(),
                hypothesis_wf(h),
                width == arity_of(h),
                slots@.len() == s,
                forall|t: int, v: Seq<char>| 0 <= t < s ==> #[trigger] entry_count(slots@[t]@, v) == slot_count(h, t, v),
                forall|t: int| 0 <= t < s ==> entries_wf(#[trigger] slots@[t]@),
            decreases width - s,
        {
            let mut entries: Vec<(SlotValue, usize)> = Vec::new();
            assert(entry_views(entries@) =~= Seq::<EntryView>::empty());
            let mut i: usize = 0;
            while i < n
                invariant
                    i <= n,
                    s < width,
                    h == self@,
                    n == h.len(),
                    hypothesis_wf(h),
                    width == arity_of(h),
                    entries_wf(entry_views(entries@)),
                    forall|v: Seq<char>| #[trigger] entry_count(entry_views(entries@), v) == slot_count(h.take(i as int), s as int, v),
                decreases n - i,
            {
                let item = &self.items[i];
                assert(h[i as int] == item@);
                assert(h[i as int].1.len() == h[0].1.len());
                let value = &item.slots()[s];
                proof {
                    lemma_slot_count_bound(h.take(i as int), s as int, value@);
                    let next = h.take(i + 1);
                    assert(next.drop_last() =~= h.take(i as int));
                    assert(next.last() == h[i as int]);
                }
                add_entry(&mut entries, value);
                i = i + 1;
            }
            assert(h.take(n as int) =~= h);
            let ghost before = slots@;
            slots.push(SlotMultiset { entries });
            proof {
                assert forall|t: int, v: Seq<char>| 0 <= t < s + 1 implies #[trigger] entry_count(slots@[t]@, v) == slot_count(h, t, v) by {
                    if t < s {
                        assert(slots@[t] == before[t]);
                    }
                }
                assert forall|t: int| 0 <= t < s + 1 implies entries_wf(#[trigger] slots@[t]@) by {
                    if t < s {
                        assert(slots@[t] == before[t]);
                    }
                }
            }
            s = s + 1;
        }
        StructuralKey { slots }
    }
}

/// A hypothesis holds its items in one order whatever order they were offered
/// in: two hypotheses built from the same items hold the same sequence.
pub proof fn law_arrangement_ignores_offer_order(
    offered_one_way: Seq<ItemView>,
    offered_other_way: Seq<ItemView>,
    one: Seq<ItemView>,
    other: Seq<ItemView>,
)
    requires
        arranges(one, offered_one_way),
        arranges(other, offered_other_way),
        forall|x: ItemView| offered_one_way.contains(x) <==> offered_other_way.contains(x),
    ensures
        one == other,
{
    lemma_item_strict_total();
    lemma_sorted_unique(one, other, item_less());
}

/// Every item carries as many slots as the first.
pub open spec fn one_arity(v: Seq<ItemView>) -> bool {
    forall|i: int| 0 <= i < v.len() ==> (#[trigger] v[i]).1.len() == v[0].1.len()
}

/// An offer `new` accepts is exactly one of one arity with no item twice.
pub proof fn lemma_faultless_exactly(v: Seq<ItemView>)
    ensures
        faultless(v) <==> one_arity(v) && v.no_duplicates(),
{
    if faultless(v) {
        assert forall|i: int| 0 <= i < v.len() implies (#[trigger] v[i]).1.len() == v[0].1.len() by {
            assert(!fault_at(v, i));
        }
        assert forall|i: int, j: int| 0 <= i < v.len() && 0 <= j < v.len() && i != j implies v[i] != v[j] by {
            let (a, b) = if i < j { (i, j) } else { (j, i) };
            assert(!fault_at(v, b));
            if v[a] == v[b] {
                assert(v.take(b)[a] == v[b]);
            }
        }
    }
    if one_arity(v) && v.no_duplicates() {
        assert forall|k: int| 0 <= k < v.len() implies !#[trigger] fault_at(v, k) by {
            if v.take(k).contains(v[k]) {
                let i = choose|i: int| 0 <= i < v.take(k).len() && v.take(k)[i] == v[k];
                assert(v[i] == v[k]);
            }
        }
    }
}

proof fn lemma_one_arity_by_members(v: Seq<ItemView>)
    ensures
        one_arity(v) <==> forall|x: ItemView, y: ItemView| v.contains(x) && v.contains(y) ==> x.1.len() == y.1.len(),
{
    if one_arity(v) {
        assert forall|x: ItemView, y: ItemView| v.contains(x) && v.contains(y) implies x.1.len() == y.1.len() by {
            let i = choose|i: int| 0 <= i < v.len() && v[i] == x;
            let j = choose|j: int| 0 <= j < v.len() && v[j] == y;
            assert(v[i].1.len() == v[0].1.len() && v[j].1.len() == v[0].1.len());
        }
    }
    if forall|x: ItemView, y: ItemView| v.contains(x) && v.contains(y) ==> x.1.len() == y.1.len() {
        assert forall|i: int| 0 <= i < v.len() implies (#[trigger] v[i]).1.len() == v[0].1.len() by {
            assert(v.contains(v[i]) && v.contains(v[0]));
        }
    }
}

proof fn lemma_no_duplicates_by_counts(v: Seq<ItemView>)
    ensures
        v.no_duplicates() <==> forall|x: ItemView| v.to_multiset().contains(x) ==> v.to_multiset().count(x) == 1,
{
    if v.no_duplicates() {
        v.lemma_multiset_has_no_duplicates();
    }
    if forall|x: ItemView| v.to_multiset().contains(x) ==> v.to_multiset().count(x) == 1 {
        v.lemma_multiset_has_no_duplicates_conv();
    }
}

/// Every order of one offer is accepted alike: offers holding the same items
/// as often are both accepted or both refused, and where accepted they give
/// the same hypothesis.
pub proof fn law_every_order_of_an_offer_is_accepted_alike(
    offered_one_way: Seq<ItemView>,
    offered_other_way: Seq<ItemView>,
    one: Seq<ItemView>,
    other: Seq<ItemView>,
)
    requires
        offered_one_way.to_multiset() == offered_other_way.to_multiset(),
    ensures
        faultless(offered_one_way) == faultless(offered_other_way),
        arranges(one, offered_one_way) && arranges(other, offered_other_way) ==> one == other,
{
    broadcast use vstd::seq_lib::to_multiset_contains;
    let v = offered_one_way;
    let w = offered_other_way;
    assert forall|x: ItemView| v.contains(x) <==> w.contains(x) by {
        assert(v.contains(x) <==> v.to_multiset().count(x) > 0);
        assert(w.contains(x) <==> w.to_multiset().count(x) > 0);
    }
    lemma_faultless_exactly(v);
    lemma_faultless_exactly(w);
    lemma_one_arity_by_members(v);
    lemma_one_arity_by_members(w);
    lemma_no_duplicates_by_counts(v);
    lemma_no_duplicates_by_counts(w);
    if arranges(one, v) && arranges(other, w) {
        law_arrangement_ignores_offer_order(v, w, one, other);
    }
}

/// The key of the size-zero hypothesis carries no slot, and the key of any
/// other hypothesis carries at least one slot and no empty multiset, so the
/// first collides with no other.
pub proof fn law_size_zero_key_collides_with_nothing(h: Seq<ItemView>)
    requires
        hypothesis_wf(h),
    ensures
        h.len() == 0 ==> arity_of(h) == 0,
        h.len() > 0 ==> arity_of(h) > 0 && forall|s: int|
            0 <= s < arity_of(h) ==> #[trigger] slot_count(h, s, h[0].1[s]) >= 1,
{
    if h.len() > 0 {
        assert(h[0].1.len() > 0);
        assert forall|s: int| 0 <= s < arity_of(h) implies #[trigger] slot_count(h, s, h[0].1[s]) >= 1 by {
            lemma_slot_count_positive(h, s, 0);
        }
    }
}


/// The order hypotheses are kept in: lexicographic over their items in the
/// canonical order.
pub open spec fn hypothesis_less() -> spec_fn(Seq<ItemView>, Seq<ItemView>) -> bool {
    |a: Seq<ItemView>, b: Seq<ItemView>| lex_less(a, b, item_less())
}

pub proof fn lemma_hypothesis_strict_total()
    ensures
        strict_total(hypothesis_less()),
{
    lemma_item_strict_total();
    lemma_lex_strict_total(item_less());
    assert(hypothesis_less() =~= (|a: Seq<ItemView>, b: Seq<ItemView>| lex_less(a, b, item_less())));
}

impl Hypothesis {
    /// The same hypothesis, held again.
    pub fn copy(&self) -> (r: Hypothesis)
        ensures
            r@ == self@,
    {
        proof {
            use_type_invariant(self);
        }
        let mut items: Vec<Item> = Vec::new();
        let mut i: usize = 0;
        while i < self.items.len()
            invariant
                i <= self.items@.len(),
                item_views(items@) == self@.take(i as int),
            decreases self.items@.len() - i,
        {
            let ghost before = item_views(items@);
            items.push(self.items[i].copy());
            assert(item_views(items@) =~= before.push(self@[i as int]));
            assert(self@.take(i + 1) =~= self@.take(i as int).push(self@[i as int]));
            i = i + 1;
        }
        assert(self@.take(self.items@.len() as int) =~= self@);
        Hypothesis { items }
    }

    /// Where this hypothesis stands against another in the canonical order.
    pub fn rank(&self, other: &Hypothesis) -> (r: Rank)
        ensures
            r == rank_of(self@, other@, hypothesis_less()),
    {
        proof {
            lemma_hypothesis_strict_total();
            lemma_item_strict_total();
        }
        let ghost x = self@;
        let ghost y = other@;
        let mut i: usize = 0;
        assert(x.skip(0) =~= x);
        assert(y.skip(0) =~= y);
        while i < self.items.len() && i < other.items.len()
            invariant
                i <= self.items@.len(),
                i <= other.items@.len(),
                x == self@,
                y == other@,
                x.take(i as int) == y.take(i as int),
                hypothesis_less()(x, y) == lex_less(x.skip(i as int), y.skip(i as int), item_less()),
                hypothesis_less()(y, x) == lex_less(y.skip(i as int), x.skip(i as int), item_less()),
            decreases self.items@.len() - i,
        {
            assert(x.skip(i as int)[0] == x[i as int]);
            assert(y.skip(i as int)[0] == y[i as int]);
            match self.items[i].rank(&other.items[i]) {
                Rank::Before => {
                    assert(x != y) by {
                        assert(x[i as int] != y[i as int]);
                    }
                    return Rank::Before;
                },
                Rank::After => {
                    assert(x != y) by {
                        assert(x[i as int] != y[i as int]);
                    }
                    return Rank::After;
                },
                Rank::Same => {},
            }
            assert(x.skip(i as int).drop_first() =~= x.skip(i + 1));
            assert(y.skip(i as int).drop_first() =~= y.skip(i + 1));
            assert(x.take(i + 1) =~= x.take(i as int).push(x[i as int]));
            assert(y.take(i + 1) =~= y.take(i as int).push(y[i as int]));
            i = i + 1;
        }
        if self.items.len() == other.items.len() {
            assert(x =~= x.take(i as int));
            assert(y =~= y.take(i as int));
            Rank::Same
        } else if self.items.len() < other.items.len() {
            assert(x.skip(i as int).len() == 0);
            assert(x != y);
            Rank::Before
        } else {
            assert(y.skip(i as int).len() == 0);
            assert(x != y);
            Rank::After
        }
    }
}


/// Items that join without a fault are distinct, so a hypothesis arranging
/// them holds exactly as many.
pub proof fn lemma_arranged_len(h: Seq<ItemView>, v: Seq<ItemView>)
    requires
        arranges(h, v),
        faultless(v),
    ensures
        h.len() == v.len(),
{
    lemma_item_strict_total();
    assert(h.no_duplicates()) by {
        assert forall|i: int, j: int| 0 <= i < h.len() && 0 <= j < h.len() && i != j implies h[i] != h[j] by {
            if i < j {
                assert(item_less()(h[i], h[j]));
            } else {
                assert(item_less()(h[j], h[i]));
            }
        }
    }
    assert(v.no_duplicates()) by {
        assert forall|i: int, j: int| 0 <= i < v.len() && 0 <= j < v.len() && i != j implies v[i] != v[j] by {
            if i < j {
                assert(!fault_at(v, j));
                assert(v.take(j)[i] == v[i]);
            } else {
                assert(!fault_at(v, i));
                assert(v.take(i)[j] == v[j]);
            }
        }
    }
    h.unique_seq_to_set();
    v.unique_seq_to_set();
    assert(h.to_set() =~= v.to_set());
}


/// The counts of a slot's multiset, summed.
pub open spec fn count_total(e: Seq<EntryView>) -> nat
    decreases e.len(),
{
    if e.len() == 0 {
        0
    } else {
        count_total(e.drop_last()) + e.last().1
    }
}

/// How many items hold each of `vals` in slot `s`, summed.
pub open spec fn counts_over(vals: Seq<Seq<char>>, h: Seq<ItemView>, s: int) -> nat
    decreases vals.len(),
{
    if vals.len() == 0 {
        0
    } else {
        counts_over(vals.drop_last(), h, s) + slot_count(h, s, vals.last())
    }
}

proof fn lemma_counts_over_empty(vals: Seq<Seq<char>>, s: int)
    ensures
        counts_over(vals, Seq::<ItemView>::empty(), s) == 0,
    decreases vals.len(),
{
    if vals.len() > 0 {
        lemma_counts_over_empty(vals.drop_last(), s);
    }
}

proof fn lemma_counts_over_step(vals: Seq<Seq<char>>, h: Seq<ItemView>, s: int)
    requires
        h.len() > 0,
        vals.no_duplicates(),
    ensures
        counts_over(vals, h, s) == counts_over(vals, h.drop_last(), s) + if vals.contains(h.last().1[s]) {
            1nat
        } else {
            0nat
        },
    decreases vals.len(),
{
    if vals.len() > 0 {
        let init = vals.drop_last();
        assert(init.no_duplicates()) by {
            assert forall|i: int, j: int| 0 <= i < init.len() && 0 <= j < init.len() && i != j implies init[i] != init[j] by {
                assert(init[i] == vals[i] && init[j] == vals[j]);
            }
        }
        lemma_counts_over_step(init, h, s);
        let w = h.last().1[s];
        if init.contains(w) {
            let i = choose|i: int| 0 <= i < init.len() && init[i] == w;
            assert(vals[i] == w);
            assert(vals.last() != w);
        }
        if vals.contains(w) && vals.last() != w {
            let i = choose|i: int| 0 <= i < vals.len() && vals[i] == w;
            assert(init[i] == w);
        }
    }
}

proof fn lemma_counts_over_all(vals: Seq<Seq<char>>, h: Seq<ItemView>, s: int)
    requires
        vals.no_duplicates(),
        forall|i: int| 0 <= i < h.len() ==> vals.contains(#[trigger] h[i].1[s]),
    ensures
        counts_over(vals, h, s) == h.len(),
    decreases h.len(),
{
    if h.len() == 0 {
        lemma_counts_over_empty(vals, s);
        assert(h =~= Seq::<ItemView>::empty());
    } else {
        let init = h.drop_last();
        assert forall|i: int| 0 <= i < init.len() implies vals.contains(#[trigger] init[i].1[s]) by {
            assert(init[i] == h[i]);
        }
        lemma_counts_over_all(vals, init, s);
        lemma_counts_over_step(vals, h, s);
        assert(vals.contains(h[h.len() - 1].1[s]));
    }
}

proof fn lemma_total_is_counts(e: Seq<EntryView>, h: Seq<ItemView>, s: int)
    requires
        forall|i: int| 0 <= i < e.len() ==> (#[trigger] e[i]).1 == slot_count(h, s, e[i].0),
    ensures
        count_total(e) == counts_over(e.map_values(|x: EntryView| x.0), h, s),
    decreases e.len(),
{
    if e.len() > 0 {
        let init = e.drop_last();
        assert forall|i: int| 0 <= i < init.len() implies (#[trigger] init[i]).1 == slot_count(h, s, init[i].0) by {
            assert(init[i] == e[i]);
        }
        lemma_total_is_counts(init, h, s);
        assert(e.map_values(|x: EntryView| x.0).drop_last() =~= init.map_values(|x: EntryView| x.0));
    }
}

/// The counts of one slot of a structural key add up to the number of items
/// of the hypothesis: every item is counted once, under its own value.
pub proof fn law_a_slot_counts_every_item_once(h: Seq<ItemView>, e: Seq<EntryView>, s: int)
    requires
        entries_wf(e),
        forall|v: Seq<char>| #[trigger] entry_count(e, v) == slot_count(h, s, v),
    ensures
        count_total(e) == h.len(),
{
    lemma_text_strict_total();
    let vals = e.map_values(|x: EntryView| x.0);
    assert forall|i: int| 0 <= i < e.len() implies (#[trigger] e[i]).1 == slot_count(h, s, e[i].0) by {
        lemma_entry_at(e, i);
        assert(entry_count(e, e[i].0) == slot_count(h, s, e[i].0));
    }
    lemma_total_is_counts(e, h, s);
    assert(vals.no_duplicates()) by {
        assert forall|i: int, j: int| 0 <= i < vals.len() && 0 <= j < vals.len() && i != j implies vals[i] != vals[j] by {
            if i < j {
                assert(text_less()(e[i].0, e[j].0));
            } else {
                assert(text_less()(e[j].0, e[i].0));
            }
        }
    }
    assert forall|i: int| 0 <= i < h.len() implies vals.contains(#[trigger] h[i].1[s]) by {
        let v = h[i].1[s];
        lemma_slot_count_positive(h, s, i);
        assert(entry_count(e, v) >= 1);
        assert(has_value(e, v));
        let k = choose|k: int| 0 <= k < e.len() && e[k].0 == v;
        assert(vals[k] == v);
    }
    lemma_counts_over_all(vals, h, s);
}

} // verus!
