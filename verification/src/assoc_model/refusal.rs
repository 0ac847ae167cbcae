//! What this model refuses to build, and what it says when it does.
//!
//! Every variant is a shape with a plausible silent repair: a repeated item
//! could be deduplicated, a short value list padded, a layout with no slot
//! tolerated. Each repair produces an object that says something other than
//! what its caller meant, so each is refused instead.
use vstd::prelude::*;
use crate::assoc_model::item::{item_text, Item};
use crate::text::{append, decimal, decimal_string, owned};

verus! {

/// One thing this model would not build, and why.
#[derive(Debug, PartialEq, Eq)]
pub enum Refused {
    /// A slot layout declaring no slot.
    LayoutHasNoSlot,
    /// Two slots of one layout under one name.
    SlotNameRepeated { name: String },
    /// A value count, or an item arity, that does not match what it is being
    /// put beside.
    SlotCountDiffers { expected: usize, found: usize },
    /// One item offered twice inside one hypothesis.
    ItemRepeated { item: Box<Item> },
}

/// What a refusal says.
pub open spec fn refused_text(r: Refused) -> Seq<char> {
    match r {
        Refused::LayoutHasNoSlot => "a slot layout declares no slot, so every hypothesis would carry the same key"@,
        Refused::SlotNameRepeated { name } => "two slots are declared under the name `"@ + name@ + "`"@,
        Refused::SlotCountDiffers { expected, found } => decimal(expected as nat) + " slot(s) were expected and "@
            + decimal(found as nat) + " were given"@,
        Refused::ItemRepeated { item } => "the item "@ + item_text(item@)
            + " was offered twice inside one hypothesis, which claims it produced part of the observation and then produced it again"@,
    }
}

impl Refused {
    /// What the refusal says.
    pub fn to_text(&self) -> (r: String)
        ensures
            r@ == refused_text(*self),
    {
        match self {
            Refused::LayoutHasNoSlot => owned("a slot layout declares no slot, so every hypothesis would carry the same key"),
            Refused::SlotNameRepeated { name } => {
                let mut out = owned("two slots are declared under the name `");
                append(&mut out, name.as_str());
                append(&mut out, "`");
                out
            },
            Refused::SlotCountDiffers { expected, found } => {
                let mut out = decimal_string(*expected as u64);
                append(&mut out, " slot(s) were expected and ");
                let f = decimal_string(*found as u64);
                append(&mut out, f.as_str());
                append(&mut out, " were given");
                out
            },
            Refused::ItemRepeated { item } => {
                let mut out = owned("the item ");
                let t = item.to_text();
                append(&mut out, t.as_str());
                append(&mut out, " was offered twice inside one hypothesis, which claims it produced part of the observation and then produced it again");
                out
            },
        }
    }
}

} // verus!
