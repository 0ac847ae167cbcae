//! What a refusal is, and why it always carries a place.
//!
//! The validator refuses "naming the field and the line", so the place is part
//! of the type rather than part of the message, and a refusal cannot be
//! constructed without deciding what it is about.
use vstd::prelude::*;
use vstd::string::*;
use crate::text::{append, decimal, decimal_string};

verus! {

/// A refusal as plain values: the line, the field and the reason.
pub type RefusalView = (Option<usize>, Option<Seq<char>>, Seq<char>);

/// One reason one file was refused, with the place it was refused at.
///
/// `line` is absent only where the fault has no line: an absent header field
/// and an absent column are facts about the whole file. `field` is absent only
/// where the fault is the shape of a line rather than the value in a field.
#[derive(Debug, PartialEq, Eq)]
pub struct Refusal {
    pub line: Option<usize>,
    pub field: Option<String>,
    pub reason: String,
}

impl View for Refusal {
    type V = RefusalView;

    open spec fn view(&self) -> RefusalView {
        (
            self.line,
            match self.field {
                Some(f) => Some(f@),
                None => None,
            },
            self.reason@,
        )
    }
}

pub open spec fn field_on_line_v(line: usize, field: Seq<char>, reason: Seq<char>) -> RefusalView {
    (Some(line), Some(field), reason)
}

pub open spec fn on_line_v(line: usize, reason: Seq<char>) -> RefusalView {
    (Some(line), None, reason)
}

pub open spec fn absent_field_v(field: Seq<char>, reason: Seq<char>) -> RefusalView {
    (None, Some(field), reason)
}

pub open spec fn in_file_v(reason: Seq<char>) -> RefusalView {
    (None, None, reason)
}

/// What a producer reads for one refusal.
pub open spec fn refusal_text(v: RefusalView) -> Seq<char> {
    match (v.0, v.1) {
        (Some(l), Some(f)) => "line "@ + decimal(l as nat) + ", field `"@ + f + "`: "@ + v.2,
        (Some(l), None) => "line "@ + decimal(l as nat) + ": "@ + v.2,
        (None, Some(f)) => "field `"@ + f + "`: "@ + v.2,
        (None, None) => v.2,
    }
}

/// What a producer reads for every refusal, one to a line.
pub open spec fn refusals_text(vs: Seq<RefusalView>) -> Seq<char>
    decreases vs.len(),
{
    if vs.len() == 0 {
        Seq::empty()
    } else if vs.len() == 1 {
        refusal_text(vs[0])
    } else {
        refusals_text(vs.drop_last()) + "\n"@ + refusal_text(vs.last())
    }
}

impl Refusal {
    /// A value in a named field on a numbered line.
    pub fn field_on_line(line: usize, field: String, reason: String) -> (r: Refusal)
        ensures
            r@ == field_on_line_v(line, field@, reason@),
    {
        Refusal { line: Some(line), field: Some(field), reason }
    }

    /// The shape of a numbered line.
    pub fn on_line(line: usize, reason: String) -> (r: Refusal)
        ensures
            r@ == on_line_v(line, reason@),
    {
        Refusal { line: Some(line), field: None, reason }
    }

    /// A named field the file never carried, so there is no line to name.
    pub fn absent_field(field: String, reason: String) -> (r: Refusal)
        ensures
            r@ == absent_field_v(field@, reason@),
    {
        Refusal { line: None, field: Some(field), reason }
    }

    /// A fault of the file as a whole.
    pub fn in_file(reason: String) -> (r: Refusal)
        ensures
            r@ == in_file_v(reason@),
    {
        Refusal { line: None, field: None, reason }
    }

    /// A refusal saying the same thing.
    pub fn duplicate(&self) -> (r: Refusal)
        ensures
            r@ == self@,
    {
        let field = match &self.field {
            Some(f) => Some(f.clone()),
            None => None,
        };
        Refusal { line: self.line, field, reason: self.reason.clone() }
    }

    /// What a producer reads: the line and the field where there are any,
    /// then the reason.
    pub fn to_text(&self) -> (r: String)
        ensures
            r@ == refusal_text(self@),
    {
        let mut out = String::new();
        match (self.line, &self.field) {
            (Some(line), Some(field)) => {
                append(&mut out, "line ");
                let n = decimal_string(line as u64);
                append(&mut out, n.as_str());
                append(&mut out, ", field `");
                append(&mut out, field.as_str());
                append(&mut out, "`: ");
            },
            (Some(line), None) => {
                append(&mut out, "line ");
                let n = decimal_string(line as u64);
                append(&mut out, n.as_str());
                append(&mut out, ": ");
            },
            (None, Some(field)) => {
                append(&mut out, "field `");
                append(&mut out, field.as_str());
                append(&mut out, "`: ");
            },
            (None, None) => {},
        }
        append(&mut out, self.reason.as_str());
        out
    }
}

/// Every reason one file was refused.
///
/// The validator collects rather than stopping at the first fault, so a file
/// with eleven faults is refused once, naming all eleven.
#[derive(Debug, PartialEq, Eq)]
pub struct Refusals(Vec<Refusal>);

impl View for Refusals {
    type V = Seq<RefusalView>;

    closed spec fn view(&self) -> Seq<RefusalView> {
        self.0@.map_values(|r: Refusal| r@)
    }
}

impl Refusals {
    pub fn new() -> (r: Refusals)
        ensures
            r@ == Seq::<RefusalView>::empty(),
    {
        let r = Refusals(Vec::new());
        assert(r@ =~= Seq::<RefusalView>::empty());
        r
    }

    /// The refusals holding just this one.
    pub fn single(refusal: Refusal) -> (r: Refusals)
        ensures
            r@ == seq![refusal@],
    {
        let mut r = Refusals::new();
        r.push(refusal);
        assert(r@ =~= seq![refusal@]);
        r
    }

    pub fn push(&mut self, refusal: Refusal)
        ensures
            final(self)@ == old(self)@.push(refusal@),
    {
        let ghost before = self@;
        self.0.push(refusal);
        assert(self@ =~= before.push(refusal@));
    }

    /// Every refusal of `other`, after those already held.
    pub fn push_all(&mut self, other: &Refusals)
        ensures
            final(self)@ == old(self)@ + other@,
    {
        let ghost start = self@;
        let mut i: usize = 0;
        while i < other.0.len()
            invariant
                i <= other.0.len(),
                self@ == start + other@.take(i as int),
                other@.len() == other.0@.len(),
            decreases other.0.len() - i,
        {
            let d = other.0[i].duplicate();
            self.push(d);
            assert(other@.take(i + 1) =~= other@.take(i as int).push(other@[i as int]));
            i = i + 1;
        }
        assert(other@.take(other@.len() as int) =~= other@);
    }

    pub fn is_empty(&self) -> (r: bool)
        ensures
            r == (self@.len() == 0),
    {
        self.0.len() == 0
    }

    pub fn len(&self) -> (r: usize)
        ensures
            r == self@.len(),
    {
        self.0.len()
    }

    /// The refusals, in the order they were made.
    pub fn iter(&self) -> (r: std::slice::Iter<'_, Refusal>)
        ensures
            vstd::std_specs::slice::into_iter_elts(r).map_values(|x: Refusal| x@) == self@,
    {
        broadcast use vstd::std_specs::slice::axiom_spec_slice_iter;
        let r = self.0.as_slice().iter();
        assert(vstd::std_specs::slice::into_iter_elts(r) == self.0@);
        r
    }

    /// One refusal, by position.
    pub fn get(&self, i: usize) -> (r: &Refusal)
        requires
            i < self@.len(),
        ensures
            r@ == self@[i as int],
    {
        &self.0[i]
    }

    /// Hand back `value` where nothing was refused, and the refusals otherwise.
    pub fn into_result<T>(self, value: T) -> (r: Result<T, Refusals>)
        ensures
            self@.len() == 0 ==> r == Ok::<T, Refusals>(value),
            self@.len() != 0 ==> (r matches Err(e) && e@ == self@),
    {
        if self.is_empty() {
            Ok(value)
        } else {
            Err(self)
        }
    }

    /// What a producer reads: every refusal, one to a line.
    pub fn to_text(&self) -> (r: String)
        ensures
            r@ == refusals_text(self@),
    {
        let mut out = String::new();
        let mut i: usize = 0;
        while i < self.0.len()
            invariant
                i <= self.0.len(),
                self@.len() == self.0@.len(),
                out@ == refusals_text(self@.take(i as int)),
            decreases self.0.len() - i,
        {
            if i > 0 {
                append(&mut out, "\n");
            }
            let line = self.0[i].to_text();
            append(&mut out, line.as_str());
            proof {
                let next = self@.take(i + 1);
                assert(next.drop_last() =~= self@.take(i as int));
                assert(next.last() == self.0@[i as int]@);
                if i == 0 {
                    assert(self@.take(0) =~= Seq::<RefusalView>::empty());
                }
            }
            i = i + 1;
        }
        assert(self@.take(self@.len() as int) =~= self@);
        out
    }
}

} // verus!
