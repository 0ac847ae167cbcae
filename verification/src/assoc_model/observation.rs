//! An observation, the hypotheses it could have, and when two of them cannot
//! both hold.
//!
//! A configuration is a choice of exactly one hypothesis for every observation
//! of a run. A hypothesis set is every hypothesis one observation could have,
//! and it is the object a run reports. This module carries the second and the
//! exclusion rules a configuration would have to satisfy.
use vstd::prelude::*;
use crate::assoc_model::hypothesis::{
    arity_of, hypothesis_less, lemma_hypothesis_strict_total, share_an_item, shared, Hypothesis,
};
use crate::assoc_model::id::{GroupId, ObservationId};
use crate::assoc_model::item::{item_less, lemma_item_strict_total, Item, ItemView};
use crate::assoc_model::hypothesis::item_views;
use crate::assoc_model::order::{lemma_sorted_unique, sorted_by, strict_total, Rank};
use crate::assoc_model::refusal::Refused;

verus! {

/// An observation as plain values: its identifier and its group.
pub type ObservationView = (Seq<char>, Seq<char>);

/// One thing measured once, and the group it was measured in.
#[derive(Debug, PartialEq, Eq)]
pub struct Observation {
    id: ObservationId,
    group: GroupId,
}

impl View for Observation {
    type V = ObservationView;

    closed spec fn view(&self) -> ObservationView {
        (self.id@, self.group@)
    }
}

impl Observation {
    pub fn new(id: ObservationId, group: GroupId) -> (r: Observation)
        ensures
            r@ == (id@, group@),
    {
        Observation { id, group }
    }

    pub fn id(&self) -> (r: &ObservationId)
        ensures
            r@ == self@.0,
    {
        &self.id
    }

    pub fn group(&self) -> (r: &GroupId)
        ensures
            r@ == self@.1,
    {
        &self.group
    }
}

pub open spec fn hypothesis_views(v: Seq<Hypothesis>) -> Seq<Seq<ItemView>> {
    v.map_values(|h: Hypothesis| h@)
}

/// Whether the hypothesis at `k` carries an arity that a nonempty hypothesis
/// offered before it does not.
pub open spec fn arity_fault_at(o: Seq<Seq<ItemView>>, k: int) -> bool {
    o[k].len() > 0 && exists|j: int| 0 <= j < k && o[j].len() > 0 && arity_of(o[j]) != arity_of(o[k])
}

pub open spec fn arity_faultless(o: Seq<Seq<ItemView>>) -> bool {
    forall|k: int| 0 <= k < o.len() ==> !#[trigger] arity_fault_at(o, k)
}

/// What a set refuses where `k` is the first hypothesis whose arity differs
/// from that of the nonempty hypothesis `j` before it.
pub open spec fn set_refused_at(o: Seq<Seq<ItemView>>, k: int, j: int, r: Result<HypothesisSet, Refused>) -> bool {
    &&& 0 <= j < k < o.len()
    &&& #[trigger] arity_fault_at(o, k)
    &&& forall|m: int| 0 <= m < k ==> !#[trigger] arity_fault_at(o, m)
    &&& o[j].len() > 0
    &&& r == Err::<HypothesisSet, Refused>(
        Refused::SlotCountDiffers { expected: arity_of(o[j]) as usize, found: arity_of(o[k]) as usize },
    )
}

/// `s` holds the size-zero hypothesis and every offered one, each once, in the
/// canonical order.
pub open spec fn set_arranges(s: Seq<Seq<ItemView>>, o: Seq<Seq<ItemView>>) -> bool {
    &&& sorted_by(s, hypothesis_less())
    &&& forall|x: Seq<ItemView>| s.contains(x) <==> (x == Seq::<ItemView>::empty() || o.contains(x))
}

/// Every hypothesis one observation could have.
///
/// The size-zero member is put in by the constructor, so there is no path
/// through this type that produces a set without it.
///
/// The hypotheses are held strictly ascending in a `Vec` rather than in a
/// `BTreeSet`, for the reason given on `Hypothesis`.
#[derive(Debug, PartialEq, Eq)]
pub struct HypothesisSet {
    observation: ObservationId,
    hypotheses: Vec<Hypothesis>,
}

impl View for HypothesisSet {
    type V = (Seq<char>, Seq<Seq<ItemView>>);

    closed spec fn view(&self) -> (Seq<char>, Seq<Seq<ItemView>>) {
        (self.observation@, hypothesis_views(self.hypotheses@))
    }
}

/// Put `h` into its place among the sorted hypotheses, unless one equal to it
/// is already there.
fn insert_hypothesis(held: &mut Vec<Hypothesis>, h: Hypothesis)
    requires
        sorted_by(hypothesis_views(old(held)@), hypothesis_less()),
    ensures
        sorted_by(hypothesis_views(final(held)@), hypothesis_less()),
        forall|x: Seq<ItemView>| hypothesis_views(final(held)@).contains(x) <==> (hypothesis_views(old(held)@).contains(x) || x == h@),
{
    proof {
        lemma_hypothesis_strict_total();
    }
    let ghost s = hypothesis_views(held@);
    let ghost less = hypothesis_less();
    let mut p: usize = 0;
    while p < held.len() && held[p].rank(&h) == Rank::Before
        invariant
            p <= held@.len(),
            s == hypothesis_views(held@),
            less == hypothesis_less(),
            forall|j: int| 0 <= j < p ==> less(#[trigger] s[j], h@),
        decreases held@.len() - p,
    {
        p = p + 1;
    }
    if p < held.len() && held[p].rank(&h) == Rank::Same {
        assert(s[p as int] == h@);
        assert forall|x: Seq<ItemView>| hypothesis_views(held@).contains(x) <==> (s.contains(x) || x == h@) by {
            if x == h@ {
                assert(s[p as int] == x);
            }
        }
        return;
    }
    proof {
        if p < s.len() {
            assert(less(h@, s[p as int]));
        }
        assert forall|j: int| p <= j < s.len() implies less(h@, #[trigger] s[j]) by {
            if j > p {
                assert(less(s[p as int], s[j]));
            }
        }
    }
    let ghost hv = h@;
    held.insert(p, h);
    proof {
        let n = hypothesis_views(held@);
        assert(n =~= s.insert(p as int, hv));
        s.insert_ensures(p as int, hv);
        assert forall|i: int, j: int| 0 <= i < j < n.len() implies #[trigger] less(n[i], n[j]) by {
            if j < p {
            } else if j == p {
            } else if i < p {
                assert(n[j] == s[j - 1]);
                assert(less(s[i], hv));
            } else if i == p {
                assert(n[j] == s[j - 1]);
            } else {
                assert(n[i] == s[i - 1] && n[j] == s[j - 1]);
            }
        }
        assert forall|x: Seq<ItemView>| n.contains(x) <==> (s.contains(x) || x == hv) by {
            if n.contains(x) {
                let k = choose|k: int| 0 <= k < n.len() && n[k] == x;
                if k < p {
                    assert(s[k] == x);
                } else if k > p {
                    assert(s[k - 1] == x);
                }
            }
            if s.contains(x) {
                let k = choose|k: int| 0 <= k < s.len() && s[k] == x;
                if k < p {
                    assert(n[k] == x);
                } else {
                    assert(n[k + 1] == x);
                }
            }
            if x == hv {
                assert(n[p as int] == x);
            }
        }
    }
}

impl HypothesisSet {
    #[verifier::type_invariant]
    pub closed spec fn well_formed(self) -> bool {
        &&& sorted_by(hypothesis_views(self.hypotheses@), hypothesis_less())
        &&& hypothesis_views(self.hypotheses@).contains(Seq::<ItemView>::empty())
    }

    /// Build the set for one observation from the hypotheses offered for it.
    ///
    /// Offering none produces a set of one, and offering the size-zero
    /// hypothesis explicitly changes nothing. Hypotheses of differing arity are
    /// refused: the first nonempty one whose arity is not that of the nonempty
    /// ones before it is the one the refusal names.
    pub fn new(observation: ObservationId, offered: Vec<Hypothesis>) -> (r: Result<HypothesisSet, Refused>)
        ensures
            arity_faultless(hypothesis_views(offered@)) ==> (r matches Ok(set) && set@.0 == observation@
                && set_arranges(set@.1, hypothesis_views(offered@))),
            !arity_faultless(hypothesis_views(offered@)) ==> exists|k: int, j: int|
                set_refused_at(hypothesis_views(offered@), k, j, r),
    {
        let ghost o = hypothesis_views(offered@);
        let mut held: Vec<Hypothesis> = Vec::new();
        insert_hypothesis(&mut held, Hypothesis::none_of_these());
        let mut arity: usize = 0;
        let mut seen_nonempty: bool = false;
        let mut first: usize = 0;
        let mut k: usize = 0;
        while k < offered.len()
            invariant
                k <= offered@.len(),
                o == hypothesis_views(offered@),
                sorted_by(hypothesis_views(held@), hypothesis_less()),
                forall|x: Seq<ItemView>| hypothesis_views(held@).contains(x) <==> (x == Seq::<ItemView>::empty() || o.take(k as int).contains(x)),
                forall|m: int| 0 <= m < k ==> !#[trigger] arity_fault_at(o, m),
                seen_nonempty <==> exists|j: int| 0 <= j < k && #[trigger] o[j].len() > 0,
                seen_nonempty ==> first < k && o[first as int].len() > 0 && arity == arity_of(o[first as int]),
                forall|j: int| 0 <= j < k && #[trigger] o[j].len() > 0 ==> arity_of(o[j]) == arity,
            decreases offered@.len() - k,
        {
            let h = &offered[k];
            assert(h@ == o[k as int]);
            if !h.is_none_of_these() {
                let a = h.arity();
                if seen_nonempty {
                    if a != arity {
                        proof {
                            assert(arity_fault_at(o, k as int));
                            assert(set_refused_at(o, k as int, first as int, Err(Refused::SlotCountDiffers { expected: arity, found: a })));
                        }
                        return Err(Refused::SlotCountDiffers { expected: arity, found: a });
                    }
                } else {
                    arity = a;
                    seen_nonempty = true;
                    first = k;
                }
            }
            proof {
                if o[k as int].len() > 0 {
                    assert forall|j: int| 0 <= j < k && o[j].len() > 0 implies arity_of(o[j]) == arity_of(o[k as int]) by {}
                }
                assert(!arity_fault_at(o, k as int));
            }
            let ghost before = hypothesis_views(held@);
            insert_hypothesis(&mut held, h.copy());
            proof {
                let t = o.take(k + 1);
                assert(t =~= o.take(k as int).push(o[k as int]));
                assert forall|x: Seq<ItemView>| hypothesis_views(held@).contains(x) <==> (x == Seq::<ItemView>::empty() || t.contains(x)) by {
                    if t.contains(x) && x != o[k as int] {
                        let m = choose|m: int| 0 <= m < t.len() && t[m] == x;
                        assert(o.take(k as int)[m] == x);
                    }
                    if x == o[k as int] {
                        assert(t[k as int] == x);
                    }
                    if o.take(k as int).contains(x) {
                        let m = choose|m: int| 0 <= m < k && o.take(k as int)[m] == x;
                        assert(t[m] == x);
                    }
                }
            }
            k = k + 1;
        }
        assert(o.take(offered@.len() as int) =~= o);
        assert(hypothesis_views(held@).contains(Seq::<ItemView>::empty()));
        Ok(HypothesisSet { observation, hypotheses: held })
    }

    pub fn observation(&self) -> (r: &ObservationId)
        ensures
            r@ == self@.0,
    {
        &self.observation
    }

    /// True always: the size-zero hypothesis is a member of every set, however
    /// it was built.
    pub fn holds_none_of_these(&self) -> (r: bool)
        ensures
            r,
            r == self@.1.contains(Seq::<ItemView>::empty()),
    {
        proof {
            use_type_invariant(self);
        }
        let mut i: usize = 0;
        while i < self.hypotheses.len()
            invariant
                i <= self.hypotheses@.len(),
                self@.1.contains(Seq::<ItemView>::empty()),
                forall|j: int| 0 <= j < i ==> self@.1[j] != Seq::<ItemView>::empty(),
            decreases self.hypotheses@.len() - i,
        {
            if self.hypotheses[i].is_none_of_these() {
                assert(self@.1[i as int] =~= Seq::<ItemView>::empty());
                return true;
            }
            i = i + 1;
        }
        proof {
            let hs = self@.1;
            let j = choose|j: int| 0 <= j < hs.len() && hs[j] == Seq::<ItemView>::empty();
        }
        false
    }

    /// How many hypotheses the observation has, the size-zero one included.
    pub fn len(&self) -> (r: usize)
        ensures
            r == self@.1.len(),
            r >= 1,
    {
        proof {
            use_type_invariant(self);
        }
        self.hypotheses.len()
    }

    /// False always, since the size-zero member is never absent.
    pub fn is_empty(&self) -> (r: bool)
        ensures
            r == (self@.1.len() == 0),
            !r,
    {
        proof {
            use_type_invariant(self);
        }
        self.hypotheses.len() == 0
    }

    /// The hypotheses, in the canonical order: strictly ascending, each once,
    /// the size-zero one among them.
    pub fn iter(&self) -> (r: std::slice::Iter<'_, Hypothesis>)
        ensures
            hypothesis_views(vstd::std_specs::slice::into_iter_elts(r)) == self@.1,
            sorted_by(self@.1, hypothesis_less()),
            self@.1.contains(Seq::<ItemView>::empty()),
    {
        proof {
            use_type_invariant(self);
        }
        broadcast use vstd::std_specs::slice::axiom_spec_slice_iter;
        let r = self.hypotheses.as_slice().iter();
        assert(vstd::std_specs::slice::into_iter_elts(r) == self.hypotheses@);
        r
    }
}

/// A claim as plain values: the observation and the hypothesis for it.
pub type ClaimView = (ObservationView, Seq<ItemView>);

/// Whether no configuration may contain both claims.
pub open spec fn excludes_v(a: ClaimView, b: ClaimView) -> bool {
    if a.0.0 == b.0.0 {
        a.1 != b.1
    } else if a.0.1 != b.0.1 {
        false
    } else {
        share_an_item(a.1, b.1)
    }
}

/// Whether the claims are in different groups and claim an item in common.
pub open spec fn supports_v(a: ClaimView, b: ClaimView) -> bool {
    a.0.1 != b.0.1 && share_an_item(a.1, b.1)
}

/// One hypothesis together with the observation it is a hypothesis for.
#[derive(Debug, Clone, Copy, PartialEq, Eq)]
pub struct Claim<'a> {
    observation: &'a Observation,
    hypothesis: &'a Hypothesis,
}

impl<'a> View for Claim<'a> {
    type V = ClaimView;

    closed spec fn view(&self) -> ClaimView {
        (self.observation@, self.hypothesis@)
    }
}

impl<'a> Claim<'a> {
    pub fn new(observation: &'a Observation, hypothesis: &'a Hypothesis) -> (r: Claim<'a>)
        ensures
            r@ == (observation@, hypothesis@),
    {
        Claim { observation, hypothesis }
    }

    pub fn observation(&self) -> (r: &Observation)
        ensures
            r@ == self@.0,
    {
        self.observation
    }

    pub fn hypothesis(&self) -> (r: &Hypothesis)
        ensures
            r@ == self@.1,
    {
        self.hypothesis
    }

    /// True where no configuration may contain both: within one observation
    /// when the hypotheses differ, within one group when they claim an item in
    /// common, and across groups never.
    pub fn excludes(&self, other: &Claim<'_>) -> (r: bool)
        ensures
            r == excludes_v(self@, other@),
    {
        if self.observation.id().same(other.observation.id()) {
            return self.hypothesis.rank(other.hypothesis) != Rank::Same;
        }
        if !self.observation.group().same(other.observation.group()) {
            return false;
        }
        self.hypothesis.shares_an_item_with(other.hypothesis)
    }

    /// True where the two are in different groups and claim an item in common.
    pub fn shares_support_with(&self, other: &Claim<'_>) -> (r: bool)
        ensures
            r == supports_v(self@, other@),
    {
        !self.observation.group().same(other.observation.group())
            && self.hypothesis.shares_an_item_with(other.hypothesis)
    }

    /// Every item both claims hold, which is what a reported conflict names.
    pub fn shared_items(&self, other: &Claim<'_>) -> (r: Vec<Item>)
        ensures
            item_views(r@) == shared(self@.1, other@.1),
    {
        self.hypothesis.shared_items(other.hypothesis)
    }
}

/// Exclusion does not depend on which claim asks.
pub proof fn law_exclusion_is_symmetric(a: ClaimView, b: ClaimView)
    ensures
        excludes_v(a, b) == excludes_v(b, a),
        supports_v(a, b) == supports_v(b, a),
{
}

/// A hypothesis against itself is one hypothesis and not two, so a claim
/// excludes nothing by being held twice, and supports nothing either.
pub proof fn law_a_claim_never_excludes_itself(a: ClaimView)
    ensures
        !excludes_v(a, a),
        !supports_v(a, a),
{
}

/// Two hypotheses of one observation exclude each other exactly when they
/// differ, the size-zero one included.
pub proof fn law_one_observation_holds_one_hypothesis(o: ObservationView, h: Seq<ItemView>, g: Seq<ItemView>)
    ensures
        excludes_v((o, h), (o, g)) <==> h != g,
{
}

/// Where one identifier names one observation, a shared item is a conflict in
/// one group and support across two, and never both.
pub proof fn law_exclusion_and_support_never_meet(a: ClaimView, b: ClaimView)
    requires
        a.0.0 == b.0.0 ==> a.0.1 == b.0.1,
    ensures
        !(excludes_v(a, b) && supports_v(a, b)),
        a.0.0 != b.0.0 && share_an_item(a.1, b.1) ==> (excludes_v(a, b) || supports_v(a, b)),
{
}

/// Two claims share an item exactly when the items they share are not none.
pub proof fn law_sharing_is_named(a: Seq<ItemView>, b: Seq<ItemView>)
    ensures
        share_an_item(a, b) <==> shared(a, b).len() > 0,
{
    reveal(Seq::filter);
    let f = |x: ItemView| b.contains(x);
    if share_an_item(a, b) {
        let x = choose|x: ItemView| a.contains(x) && b.contains(x);
        let i = choose|i: int| 0 <= i < a.len() && a[i] == x;
        a.lemma_filter_contains(f, i);
        assert(shared(a, b).contains(x));
    }
    if shared(a, b).len() > 0 {
        a.lemma_filter_pred(f, 0);
        assert(shared(a, b).contains(shared(a, b)[0]));
        a.lemma_filter_contains_rev(f, shared(a, b)[0]);
        assert(a.contains(shared(a, b)[0]));
    }
}


/// What a filter keeps of a strictly ascending sequence stays strictly
/// ascending.
proof fn lemma_filter_sorted(a: Seq<ItemView>, p: spec_fn(ItemView) -> bool)
    requires
        sorted_by(a, item_less()),
    ensures
        sorted_by(a.filter(p), item_less()),
        forall|x: ItemView| #[trigger] a.filter(p).contains(x) <==> a.contains(x) && p(x),
    decreases a.len(),
{
    reveal(Seq::filter);
    if a.len() > 0 {
        let init = a.drop_last();
        assert(sorted_by(init, item_less())) by {
            assert forall|i: int, j: int| 0 <= i < j < init.len() implies #[trigger] item_less()(init[i], init[j]) by {
                assert(init[i] == a[i] && init[j] == a[j]);
            }
        }
        lemma_filter_sorted(init, p);
        let f = init.filter(p);
        assert forall|x: ItemView| #[trigger] a.filter(p).contains(x) <==> a.contains(x) && p(x) by {
            if a.contains(x) && x != a.last() {
                let i = choose|i: int| 0 <= i < a.len() && a[i] == x;
                assert(i < a.len() - 1);
                assert(init[i] == x);
            }
            if init.contains(x) {
                let i = choose|i: int| 0 <= i < init.len() && init[i] == x;
                assert(a[i] == x);
            }
            if p(a.last()) {
                assert(a.filter(p) == f.push(a.last()));
                if a.filter(p).contains(x) && x != a.last() {
                    let i = choose|i: int| 0 <= i < f.len() + 1 && a.filter(p)[i] == x;
                    assert(f[i] == x);
                }
                if x == a.last() {
                    assert(a.filter(p)[f.len() as int] == x);
                }
                if f.contains(x) {
                    let i = choose|i: int| 0 <= i < f.len() && f[i] == x;
                    assert(a.filter(p)[i] == x);
                }
            }
        }
        if p(a.last()) {
            let g = f.push(a.last());
            assert(a.filter(p) == g);
            assert forall|i: int, j: int| 0 <= i < j < g.len() implies #[trigger] item_less()(g[i], g[j]) by {
                if j == g.len() - 1 {
                    assert(f.contains(g[i]));
                    let k = choose|k: int| 0 <= k < init.len() && init[k] == g[i];
                    assert(a[k] == g[i]);
                    assert(item_less()(a[k], a[a.len() - 1]));
                } else {
                    assert(g[i] == f[i] && g[j] == f[j]);
                }
            }
        }
    }
}

/// The items two hypotheses share come in the canonical order, are the same
/// whichever of the two is asked, and a hypothesis shares every item it holds
/// with itself.
pub proof fn law_sharing_is_ordered_and_symmetric(a: Seq<ItemView>, b: Seq<ItemView>)
    requires
        sorted_by(a, item_less()),
        sorted_by(b, item_less()),
    ensures
        sorted_by(shared(a, b), item_less()),
        shared(a, b) == shared(b, a),
        shared(a, a) == a,
{
    lemma_item_strict_total();
    let fa = |x: ItemView| b.contains(x);
    let fb = |x: ItemView| a.contains(x);
    lemma_filter_sorted(a, fa);
    lemma_filter_sorted(b, fb);
    lemma_filter_sorted(a, fb);
    assert forall|x: ItemView| shared(a, b).contains(x) <==> shared(b, a).contains(x) by {
        assert(shared(a, b).contains(x) <==> a.contains(x) && fa(x));
        assert(shared(b, a).contains(x) <==> b.contains(x) && fb(x));
    }
    lemma_sorted_unique(shared(a, b), shared(b, a), item_less());
    assert forall|x: ItemView| shared(a, a).contains(x) <==> a.contains(x) by {
        assert(shared(a, a).contains(x) <==> a.contains(x) && fb(x));
    }
    lemma_sorted_unique(shared(a, a), a, item_less());
}

} // verus!
