//! What an item is, and when two of them are the same item.
//!
//! An item is one value per slot together with the source the values were
//! drawn from and the channel it was generated under, and two items are the
//! same item when all of those agree. A layout is a count and a list of names
//! it was handed; nothing here knows what any of the names mean.
use vstd::prelude::*;
use crate::assoc_model::id::{ChannelId, SlotValue, SourceId};
use crate::assoc_model::order::{
    lemma_text_strict_total, lemma_texts_strict_total, rank_of, strict_total, text_less,
    texts_less, Rank,
};
use crate::assoc_model::refusal::Refused;
use crate::spectro_contract::value::words;
use crate::text::{append, chars_of, is_text, owned};

verus! {

/// An item as plain values: its source, its slot values in layout order and
/// its channel.
pub type ItemView = (Seq<char>, Seq<Seq<char>>, Seq<char>);

/// The order items are kept in: by source, then by the slot values in layout
/// order, then by channel.
pub open spec fn item_less() -> spec_fn(ItemView, ItemView) -> bool {
    |a: ItemView, b: ItemView|
        text_less()(a.0, b.0) || (a.0 == b.0 && (texts_less()(a.1, b.1) || (a.1 == b.1
            && text_less()(a.2, b.2))))
}

pub proof fn lemma_item_strict_total()
    ensures
        strict_total(item_less()),
{
    lemma_text_strict_total();
    lemma_texts_strict_total();
    let l = item_less();
    assert forall|x: ItemView| !#[trigger] l(x, x) by {
        assert(!text_less()(x.0, x.0));
        assert(!texts_less()(x.1, x.1));
        assert(!text_less()(x.2, x.2));
    }
    assert forall|x: ItemView, y: ItemView, z: ItemView| #[trigger] l(x, y) && #[trigger] l(y, z) implies l(x, z) by {
        if text_less()(x.0, y.0) && text_less()(y.0, z.0) {
            assert(text_less()(x.0, z.0));
        }
        if x.0 == y.0 && y.0 == z.0 && texts_less()(x.1, y.1) && texts_less()(y.1, z.1) {
            assert(texts_less()(x.1, z.1));
        }
        if x.0 == y.0 && y.0 == z.0 && x.1 == y.1 && y.1 == z.1 && text_less()(x.2, y.2) && text_less()(y.2, z.2) {
            assert(text_less()(x.2, z.2));
        }
    }
    assert forall|x: ItemView, y: ItemView| x != y implies #[trigger] l(x, y) || #[trigger] l(y, x) by {
        if x.0 != y.0 {
            assert(text_less()(x.0, y.0) || text_less()(y.0, x.0));
        } else if x.1 != y.1 {
            assert(texts_less()(x.1, y.1) || texts_less()(y.1, x.1));
        } else {
            assert(x.2 != y.2);
            assert(text_less()(x.2, y.2) || text_less()(y.2, x.2));
        }
    }
}

/// Two items rank as their first differing part does.
proof fn lemma_item_rank(a: ItemView, b: ItemView)
    ensures
        rank_of(a, b, item_less()) == if a.0 != b.0 {
            rank_of(a.0, b.0, text_less())
        } else if a.1 != b.1 {
            rank_of(a.1, b.1, texts_less())
        } else {
            rank_of(a.2, b.2, text_less())
        },
{
    lemma_text_strict_total();
    lemma_texts_strict_total();
    if a.0 != b.0 {
        if text_less()(b.0, a.0) && text_less()(a.0, b.0) {
            assert(text_less()(a.0, a.0));
        }
    } else if a.1 != b.1 {
        if texts_less()(b.1, a.1) && texts_less()(a.1, b.1) {
            assert(texts_less()(a.1, a.1));
        }
        assert(!text_less()(a.0, b.0));
    } else {
        assert(!text_less()(a.0, b.0));
        assert(!texts_less()(a.1, b.1));
        if text_less()(b.2, a.2) && text_less()(a.2, b.2) {
            assert(text_less()(a.2, a.2));
        }
        if a.2 == b.2 {
            assert(a == b);
        }
    }
}

pub open spec fn slot_texts(v: Seq<SlotValue>) -> Seq<Seq<char>> {
    v.map_values(|x: SlotValue| x@)
}

pub open spec fn layout_texts(v: Seq<String>) -> Seq<Seq<char>> {
    v.map_values(|x: String| x@)
}

/// The slot values, separated by commas.
pub open spec fn joined(v: Seq<Seq<char>>) -> Seq<char>
    decreases v.len(),
{
    if v.len() == 0 {
        Seq::empty()
    } else if v.len() == 1 {
        v[0]
    } else {
        joined(v.drop_last()) + ", "@ + v.last()
    }
}

/// How an item is written in a message: its source, its slot values and its
/// channel.
pub open spec fn item_text(v: ItemView) -> Seq<char> {
    v.0 + ":("@ + joined(v.1) + ") via "@ + v.2
}

/// The fixed set of named slots every item of one run occupies.
#[derive(Debug, PartialEq, Eq)]
pub struct SlotLayout {
    names: Vec<String>,
}

impl View for SlotLayout {
    type V = Seq<Seq<char>>;

    closed spec fn view(&self) -> Seq<Seq<char>> {
        layout_texts(self.names@)
    }
}

/// The first position whose name repeats an earlier one, if any does.
pub open spec fn repeats_at(names: Seq<Seq<char>>, k: int) -> bool {
    0 <= k < names.len() && names.take(k).contains(names[k])
        && forall|j: int| 0 <= j < k ==> !names.take(j).contains(#[trigger] names[j])
}

pub open spec fn no_repeat(names: Seq<Seq<char>>) -> bool {
    forall|k: int| 0 <= k < names.len() ==> !names.take(k).contains(#[trigger] names[k])
}

/// Whether `name` is among the first `upto` names.
fn name_before(names: &[&str], upto: usize, name: &str) -> (r: bool)
    requires
        upto <= names@.len(),
    ensures
        r == words(names@).take(upto as int).contains(name@),
{
    let c = chars_of(name);
    let mut i: usize = 0;
    while i < upto
        invariant
            i <= upto <= names@.len(),
            c@ == name@,
            forall|j: int| 0 <= j < i ==> names@[j]@ != name@,
        decreases upto - i,
    {
        if is_text(c.as_slice(), names[i]) {
            assert(words(names@).take(upto as int)[i as int] == name@);
            return true;
        }
        i = i + 1;
    }
    proof {
        let t = words(names@).take(upto as int);
        if t.contains(name@) {
            let j = choose|j: int| 0 <= j < t.len() && t[j] == name@;
            assert(names@[j]@ == name@);
        }
    }
    false
}

impl SlotLayout {
    #[verifier::type_invariant]
    pub closed spec fn well_formed(self) -> bool {
        self.names@.len() > 0
    }

    /// Declare the slots, in the order every item will give its values in.
    ///
    /// A layout with no slot is refused, and so is a name given twice: the
    /// first name that repeats an earlier one is the one named.
    pub fn new(names: &[&str]) -> (r: Result<SlotLayout, Refused>)
        ensures
            names@.len() == 0 ==> r == Err::<SlotLayout, Refused>(Refused::LayoutHasNoSlot),
            names@.len() > 0 && no_repeat(words(names@)) ==> (r matches Ok(l) && l@ == words(names@)),
            names@.len() > 0 && !no_repeat(words(names@)) ==> (r matches Err(
                Refused::SlotNameRepeated { name },
            ) && exists|k: int| repeats_at(words(names@), k) && name@ == words(names@)[k]),
    {
        if names.len() == 0 {
            return Err(Refused::LayoutHasNoSlot);
        }
        let ghost w = words(names@);
        let mut held: Vec<String> = Vec::new();
        let mut k: usize = 0;
        while k < names.len()
            invariant
                k <= names@.len(),
                w == words(names@),
                layout_texts(held@) == w.take(k as int),
                forall|j: int| 0 <= j < k ==> !w.take(j).contains(#[trigger] w[j]),
            decreases names@.len() - k,
        {
            if name_before(names, k, names[k]) {
                proof {
                    assert(repeats_at(w, k as int));
                }
                return Err(Refused::SlotNameRepeated { name: owned(names[k]) });
            }
            let ghost before = layout_texts(held@);
            held.push(owned(names[k]));
            assert(layout_texts(held@) =~= before.push(w[k as int]));
            assert(w.take(k + 1) =~= w.take(k as int).push(w[k as int]));
            k = k + 1;
        }
        assert(w.take(names@.len() as int) =~= w);
        Ok(SlotLayout { names: held })
    }

    /// How many values every item under this layout carries.
    pub fn arity(&self) -> (r: usize)
        ensures
            r == self@.len(),
    {
        self.names.len()
    }

    pub fn names(&self) -> (r: &[String])
        ensures
            layout_texts(r@) == self@,
    {
        self.names.as_slice()
    }

    /// The position a named slot occupies in a key, or `None` for a name this
    /// layout does not declare.
    pub fn index_of(&self, name: &str) -> (r: Option<usize>)
        ensures
            r is None <==> !self@.contains(name@),
            r matches Some(i) ==> i < self@.len() && self@[i as int] == name@
                && forall|j: int| 0 <= j < i ==> self@[j] != name@,
    {
        let c = chars_of(name);
        let mut i: usize = 0;
        while i < self.names.len()
            invariant
                i <= self.names@.len(),
                c@ == name@,
                forall|j: int| 0 <= j < i ==> self@[j] != name@,
            decreases self.names@.len() - i,
        {
            let held = chars_of(self.names[i].as_str());
            if crate::text::same_chars(held.as_slice(), c.as_slice()) {
                assert(self@[i as int] == name@);
                return Some(i);
            }
            i = i + 1;
        }
        proof {
            if self@.contains(name@) {
                let j = choose|j: int| 0 <= j < self@.len() && self@[j] == name@;
                assert(self@[j] == name@);
            }
        }
        None
    }
}

/// One thing that could have produced part of an observation.
#[derive(Debug, PartialEq, Eq, Hash)]
pub struct Item {
    source: SourceId,
    slots: Vec<SlotValue>,
    channel: ChannelId,
}

impl View for Item {
    type V = ItemView;

    closed spec fn view(&self) -> ItemView {
        (self.source@, slot_texts(self.slots@), self.channel@)
    }
}

/// The values of a list of slot values, copied.
fn copy_slots(v: &[SlotValue]) -> (r: Vec<SlotValue>)
    ensures
        slot_texts(r@) == slot_texts(v@),
{
    let mut out: Vec<SlotValue> = Vec::new();
    let mut i: usize = 0;
    while i < v.len()
        invariant
            i <= v@.len(),
            slot_texts(out@) == slot_texts(v@).take(i as int),
        decreases v@.len() - i,
    {
        let ghost before = slot_texts(out@);
        out.push(v[i].copy());
        assert(slot_texts(out@) =~= before.push(v@[i as int]@));
        assert(slot_texts(v@).take(i + 1) =~= slot_texts(v@).take(i as int).push(v@[i as int]@));
        i = i + 1;
    }
    assert(slot_texts(v@).take(v@.len() as int) =~= slot_texts(v@));
    out
}

/// Where two lists of slot values stand against each other.
fn rank_slots(a: &[SlotValue], b: &[SlotValue]) -> (r: Rank)
    ensures
        r == rank_of(slot_texts(a@), slot_texts(b@), texts_less()),
{
    proof {
        lemma_texts_strict_total();
    }
    let ghost x = slot_texts(a@);
    let ghost y = slot_texts(b@);
    let mut i: usize = 0;
    assert(x.skip(0) =~= x);
    assert(y.skip(0) =~= y);
    while i < a.len() && i < b.len()
        invariant
            i <= a@.len(),
            i <= b@.len(),
            x == slot_texts(a@),
            y == slot_texts(b@),
            x.take(i as int) == y.take(i as int),
            texts_less()(x, y) == texts_less()(x.skip(i as int), y.skip(i as int)),
            texts_less()(y, x) == texts_less()(y.skip(i as int), x.skip(i as int)),
        decreases a@.len() - i,
    {
        assert(x.skip(i as int)[0] == x[i as int]);
        assert(y.skip(i as int)[0] == y[i as int]);
        match a[i].rank(&b[i]) {
            Rank::Before => {
                assert(x != y) by {
                    assert(x[i as int] != y[i as int]);
                }
                return Rank::Before;
            },
            Rank::After => {
                assert(x != y) by {
                    assert(x[i as int] != y[i as int]);
                }
                return Rank::After;
            },
            Rank::Same => {},
        }
        assert(x.skip(i as int).drop_first() =~= x.skip(i + 1));
        assert(y.skip(i as int).drop_first() =~= y.skip(i + 1));
        assert(x.take(i + 1) =~= x.take(i as int).push(x[i as int]));
        assert(y.take(i + 1) =~= y.take(i as int).push(y[i as int]));
        i = i + 1;
    }
    if a.len() == b.len() {
        assert(x =~= x.take(i as int));
        assert(y =~= y.take(i as int));
        Rank::Same
    } else if a.len() < b.len() {
        assert(x.skip(i as int).len() == 0);
        assert(x != y);
        Rank::Before
    } else {
        assert(y.skip(i as int).len() == 0);
        assert(x != y);
        Rank::After
    }
}

impl Item {
    #[verifier::type_invariant]
    pub closed spec fn well_formed(self) -> bool {
        self.slots@.len() > 0
    }

    /// Build an item against the layout its values are given in.
    ///
    /// A value count that is not the layout's arity is refused rather than
    /// filled in or truncated.
    pub fn new(layout: &SlotLayout, source: SourceId, values: Vec<SlotValue>, channel: ChannelId) -> (r: Result<Item, Refused>)
        ensures
            values@.len() == layout@.len() ==> (r matches Ok(i) && i@ == (source@, slot_texts(values@), channel@)),
            values@.len() != layout@.len() ==> r == Err::<Item, Refused>(Refused::SlotCountDiffers {
                expected: layout@.len() as usize,
                found: values@.len() as usize,
            }),
    {
        proof {
            use_type_invariant(layout);
        }
        if values.len() != layout.arity() {
            return Err(Refused::SlotCountDiffers { expected: layout.arity(), found: values.len() });
        }
        Ok(Item { source, slots: values, channel })
    }

    pub fn source(&self) -> (r: &SourceId)
        ensures
            r@ == self@.0,
    {
        &self.source
    }

    pub fn slots(&self) -> (r: &[SlotValue])
        ensures
            slot_texts(r@) == self@.1,
    {
        self.slots.as_slice()
    }

    pub fn channel(&self) -> (r: &ChannelId)
        ensures
            r@ == self@.2,
    {
        &self.channel
    }

    /// The number of slots this item carries a value for.
    pub fn arity(&self) -> (r: usize)
        ensures
            r == self@.1.len(),
            r > 0,
    {
        proof {
            use_type_invariant(self);
        }
        self.slots.len()
    }

    /// The value in one slot, or `None` for a slot beyond this item's arity.
    pub fn value(&self, slot: usize) -> (r: Option<&SlotValue>)
        ensures
            slot < self@.1.len() ==> (r matches Some(v) && v@ == self@.1[slot as int]),
            slot >= self@.1.len() ==> r is None,
    {
        if slot < self.slots.len() {
            Some(&self.slots[slot])
        } else {
            None
        }
    }

    /// The same item, held again.
    pub fn copy(&self) -> (r: Item)
        ensures
            r@ == self@,
    {
        proof {
            use_type_invariant(self);
        }
        let slots = copy_slots(self.slots.as_slice());
        assert(slots@.len() == slot_texts(slots@).len());
        Item { source: self.source.copy(), slots, channel: self.channel.copy() }
    }

    /// Where this item stands against another in the canonical order.
    pub fn rank(&self, other: &Item) -> (r: Rank)
        ensures
            r == rank_of(self@, other@, item_less()),
    {
        proof {
            lemma_item_rank(self@, other@);
        }
        match self.source.rank(&other.source) {
            Rank::Before => Rank::Before,
            Rank::After => Rank::After,
            Rank::Same => match rank_slots(self.slots.as_slice(), other.slots.as_slice()) {
                Rank::Before => Rank::Before,
                Rank::After => Rank::After,
                Rank::Same => self.channel.rank(&other.channel),
            },
        }
    }

    /// How the item is written in a message: its source, its slot values and
    /// its channel.
    pub fn to_text(&self) -> (r: String)
        ensures
            r@ == item_text(self@),
    {
        let mut out = owned(self.source.as_str());
        append(&mut out, ":(");
        let ghost v = slot_texts(self.slots@);
        let ghost start = out@;
        let mut i: usize = 0;
        while i < self.slots.len()
            invariant
                i <= self.slots@.len(),
                v == slot_texts(self.slots@),
                out@ == start + joined(v.take(i as int)),
            decreases self.slots@.len() - i,
        {
            if i > 0 {
                append(&mut out, ", ");
            }
            append(&mut out, self.slots[i].as_str());
            proof {
                let next = v.take(i + 1);
                assert(next.drop_last() =~= v.take(i as int));
                assert(next.last() == v[i as int]);
                if i == 0 {
                    assert(v.take(0) =~= Seq::<Seq<char>>::empty());
                }
            }
            assert(out@ =~= start + joined(v.take(i + 1)));
            i = i + 1;
        }
        assert(v.take(self.slots@.len() as int) =~= v);
        append(&mut out, ") via ");
        append(&mut out, self.channel.as_str());
        out
    }
}

} // verus!
