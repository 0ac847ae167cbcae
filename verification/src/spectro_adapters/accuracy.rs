//! The accuracy grade an export prints, held as text and never as a number.
//!
//! A grade is carried in a type with no arithmetic and no numeric conversion,
//! and this module is the only place one is held.
use vstd::prelude::*;
use crate::text::owned;

verus! {

/// One accuracy grade, exactly as the export printed it.
#[derive(Debug, PartialEq, Eq)]
pub struct AccuracyGrade(String);

impl View for AccuracyGrade {
    type V = Seq<char>;

    closed spec fn view(&self) -> Seq<char> {
        self.0@
    }
}

impl AccuracyGrade {
    /// Take the cell verbatim: nothing is trimmed, folded or ranked.
    pub fn taken(cell: &str) -> (r: AccuracyGrade)
        ensures
            r@ == cell@,
    {
        AccuracyGrade(owned(cell))
    }

    /// The grade as the export wrote it.
    pub fn as_str(&self) -> (r: &str)
        ensures
            r@ == self@,
    {
        self.0.as_str()
    }

    /// The grade as the export wrote it, as text of its own.
    pub fn to_text(&self) -> (r: String)
        ensures
            r@ == self@,
    {
        self.0.clone()
    }
}

} // verus!
