//! The identifiers this model carries, and why each one is its own type.
//!
//! All five are strings underneath and none is interchangeable with another.
//! An identifier is taken as the producer wrote it and is never parsed,
//! trimmed or folded: two identifiers are the same when their characters
//! agree.
use vstd::prelude::*;
use crate::assoc_model::order::{rank_chars, rank_of, text_less, Rank};
use crate::text::chars_of;

verus! {

/// The set an item's slot values were drawn from.
///
/// It is part of an item's identity rather than context beside it: two runs
/// against different sets share no item identity.
#[derive(Debug, Clone, PartialEq, Eq, PartialOrd, Ord, Hash)]
pub struct SourceId(String);

impl View for SourceId {
    type V = Seq<char>;

    closed spec fn view(&self) -> Seq<char> {
        self.0@
    }
}

impl SourceId {
    /// Take the identifier exactly as it was given.
    pub fn new(value: &str) -> (r: SourceId)
        ensures
            r@ == value@,
    {
        SourceId(String::from_str(value))
    }

    pub fn as_str(&self) -> (r: &str)
        ensures
            r@ == self@,
    {
        self.0.as_str()
    }

    /// The same identifier, held again.
    pub fn copy(&self) -> (r: SourceId)
        ensures
            r@ == self@,
    {
        SourceId(self.0.clone())
    }

    /// Where this identifier stands against another in the canonical order.
    pub fn rank(&self, other: &SourceId) -> (r: Rank)
        ensures
            r == rank_of(self@, other@, text_less()),
    {
        let a = chars_of(self.0.as_str());
        let b = chars_of(other.0.as_str());
        rank_chars(a.as_slice(), b.as_slice())
    }

    /// Whether two identifiers are the same identifier.
    pub fn same(&self, other: &SourceId) -> (r: bool)
        ensures
            r == (self@ == other@),
    {
        let a = chars_of(self.0.as_str());
        let b = chars_of(other.0.as_str());
        crate::text::same_chars(a.as_slice(), b.as_slice())
    }
}

/// One value occupying one slot of one item.
#[derive(Debug, Clone, PartialEq, Eq, PartialOrd, Ord, Hash)]
pub struct SlotValue(String);

impl View for SlotValue {
    type V = Seq<char>;

    closed spec fn view(&self) -> Seq<char> {
        self.0@
    }
}

impl SlotValue {
    /// Take the identifier exactly as it was given.
    pub fn new(value: &str) -> (r: SlotValue)
        ensures
            r@ == value@,
    {
        SlotValue(String::from_str(value))
    }

    pub fn as_str(&self) -> (r: &str)
        ensures
            r@ == self@,
    {
        self.0.as_str()
    }

    /// The same identifier, held again.
    pub fn copy(&self) -> (r: SlotValue)
        ensures
            r@ == self@,
    {
        SlotValue(self.0.clone())
    }

    /// Where this identifier stands against another in the canonical order.
    pub fn rank(&self, other: &SlotValue) -> (r: Rank)
        ensures
            r == rank_of(self@, other@, text_less()),
    {
        let a = chars_of(self.0.as_str());
        let b = chars_of(other.0.as_str());
        rank_chars(a.as_slice(), b.as_slice())
    }

    /// Whether two identifiers are the same identifier.
    pub fn same(&self, other: &SlotValue) -> (r: bool)
        ensures
            r == (self@ == other@),
    {
        let a = chars_of(self.0.as_str());
        let b = chars_of(other.0.as_str());
        crate::text::same_chars(a.as_slice(), b.as_slice())
    }
}

/// The channel an item was generated under.
///
/// Two items with the same slot values generated under different channels are
/// different items.
#[derive(Debug, Clone, PartialEq, Eq, PartialOrd, Ord, Hash)]
pub struct ChannelId(String);

impl View for ChannelId {
    type V = Seq<char>;

    closed spec fn view(&self) -> Seq<char> {
        self.0@
    }
}

impl ChannelId {
    /// Take the identifier exactly as it was given.
    pub fn new(value: &str) -> (r: ChannelId)
        ensures
            r@ == value@,
    {
        ChannelId(String::from_str(value))
    }

    pub fn as_str(&self) -> (r: &str)
        ensures
            r@ == self@,
    {
        self.0.as_str()
    }

    /// The same identifier, held again.
    pub fn copy(&self) -> (r: ChannelId)
        ensures
            r@ == self@,
    {
        ChannelId(self.0.clone())
    }

    /// Where this identifier stands against another in the canonical order.
    pub fn rank(&self, other: &ChannelId) -> (r: Rank)
        ensures
            r == rank_of(self@, other@, text_less()),
    {
        let a = chars_of(self.0.as_str());
        let b = chars_of(other.0.as_str());
        rank_chars(a.as_slice(), b.as_slice())
    }

    /// Whether two identifiers are the same identifier.
    pub fn same(&self, other: &ChannelId) -> (r: bool)
        ensures
            r == (self@ == other@),
    {
        let a = chars_of(self.0.as_str());
        let b = chars_of(other.0.as_str());
        crate::text::same_chars(a.as_slice(), b.as_slice())
    }
}

/// One thing measured once, which a hypothesis set is built for.
#[derive(Debug, Clone, PartialEq, Eq, PartialOrd, Ord, Hash)]
pub struct ObservationId(String);

impl View for ObservationId {
    type V = Seq<char>;

    closed spec fn view(&self) -> Seq<char> {
        self.0@
    }
}

impl ObservationId {
    /// Take the identifier exactly as it was given.
    pub fn new(value: &str) -> (r: ObservationId)
        ensures
            r@ == value@,
    {
        ObservationId(String::from_str(value))
    }

    pub fn as_str(&self) -> (r: &str)
        ensures
            r@ == self@,
    {
        self.0.as_str()
    }

    /// The same identifier, held again.
    pub fn copy(&self) -> (r: ObservationId)
        ensures
            r@ == self@,
    {
        ObservationId(self.0.clone())
    }

    /// Where this identifier stands against another in the canonical order.
    pub fn rank(&self, other: &ObservationId) -> (r: Rank)
        ensures
            r == rank_of(self@, other@, text_less()),
    {
        let a = chars_of(self.0.as_str());
        let b = chars_of(other.0.as_str());
        rank_chars(a.as_slice(), b.as_slice())
    }

    /// Whether two identifiers are the same identifier.
    pub fn same(&self, other: &ObservationId) -> (r: bool)
        ensures
            r == (self@ == other@),
    {
        let a = chars_of(self.0.as_str());
        let b = chars_of(other.0.as_str());
        crate::text::same_chars(a.as_slice(), b.as_slice())
    }
}

/// The set of observations that compete with one another.
#[derive(Debug, Clone, PartialEq, Eq, PartialOrd, Ord, Hash)]
pub struct GroupId(String);

impl View for GroupId {
    type V = Seq<char>;

    closed spec fn view(&self) -> Seq<char> {
        self.0@
    }
}

impl GroupId {
    /// Take the identifier exactly as it was given.
    pub fn new(value: &str) -> (r: GroupId)
        ensures
            r@ == value@,
    {
        GroupId(String::from_str(value))
    }

    pub fn as_str(&self) -> (r: &str)
        ensures
            r@ == self@,
    {
        self.0.as_str()
    }

    /// The same identifier, held again.
    pub fn copy(&self) -> (r: GroupId)
        ensures
            r@ == self@,
    {
        GroupId(self.0.clone())
    }

    /// Where this identifier stands against another in the canonical order.
    pub fn rank(&self, other: &GroupId) -> (r: Rank)
        ensures
            r == rank_of(self@, other@, text_less()),
    {
        let a = chars_of(self.0.as_str());
        let b = chars_of(other.0.as_str());
        rank_chars(a.as_slice(), b.as_slice())
    }

    /// Whether two identifiers are the same identifier.
    pub fn same(&self, other: &GroupId) -> (r: bool)
        ensures
            r == (self@ == other@),
    {
        let a = chars_of(self.0.as_str());
        let b = chars_of(other.0.as_str());
        crate::text::same_chars(a.as_slice(), b.as_slice())
    }
}

} // verus!
