//! The readers and the validator for the input contract.
//!
//! Every `validate_` function reads the file with the same code a run reads it
//! with and then throws the result away, so a file the validator accepts cannot
//! be a file a reader afterwards rejects.
use vstd::prelude::*;

pub mod accepted;
pub mod columns;
pub mod covariance;
pub mod document;
pub mod level_set;
pub mod line_list;
pub mod rates;
pub mod reading;
pub mod refusal;
pub mod shape;
pub mod value;
pub mod written;

pub use covariance::Covariance;
pub use document::Document;
pub use level_set::{Level, LevelSet};
pub use line_list::{Line, LineList};
pub use rates::{Rate, RateTable};
pub use refusal::{Refusal, Refusals};
pub use value::{HalfInteger, Version, SUPPORTED_MAJOR};

verus! {

use crate::spectro_contract::covariance::{covariance_check_v, read_covariance_v};
use crate::spectro_contract::level_set::{read_level_set_v, LevelSetView};
use crate::spectro_contract::line_list::read_line_list_v;
use crate::spectro_contract::rates::{rates_check_v, read_rate_table_v};
use crate::spectro_contract::refusal::{absent_field_v, RefusalView};
use crate::text::{append, chars_of, owned, quote, quoted, split};
use crate::spectro_contract::document::{
    has_utf8_mark, header_count, headers_upto, lex_bytes, line_refusals, lines_of, no_label_row,
};
use crate::spectro_contract::refusal::in_file_v;
use vstd::utf8::{decode_utf8, valid_utf8};

/// What a validation answers, as plain values: nothing where the file is
/// accepted, every refusal where it is not.
pub open spec fn verdict<T>(r: Result<T, Seq<RefusalView>>) -> Result<(), Seq<RefusalView>> {
    match r {
        Ok(_) => Ok(()),
        Err(e) => Err(e),
    }
}

pub open spec fn validated(r: Result<(), Refusals>) -> Result<(), Seq<RefusalView>> {
    match r {
        Ok(()) => Ok(()),
        Err(e) => Err(e@),
    }
}

/// Accept a conforming level set, or refuse naming the field and the line.
pub fn validate_level_set(bytes: &[u8]) -> (r: Result<(), Refusals>)
    ensures
        validated(r) == verdict(read_level_set_v(bytes@)),
{
    match level_set::read(bytes) {
        Ok(_) => Ok(()),
        Err(e) => Err(e),
    }
}

/// Accept a conforming line list, or refuse naming the field and the line.
pub fn validate_line_list(bytes: &[u8]) -> (r: Result<(), Refusals>)
    ensures
        validated(r) == verdict(read_line_list_v(bytes@)),
{
    match line_list::read(bytes) {
        Ok(_) => Ok(()),
        Err(e) => Err(e),
    }
}

/// Accept a conforming rate table, or refuse naming the field and the line.
pub fn validate_rate_table(bytes: &[u8]) -> (r: Result<(), Refusals>)
    ensures
        validated(r) == verdict(read_rate_table_v(bytes@)),
{
    match rates::read(bytes) {
        Ok(_) => Ok(()),
        Err(e) => Err(e),
    }
}

/// Accept a conforming covariance companion, or refuse naming field and line.
pub fn validate_covariance(bytes: &[u8]) -> (r: Result<(), Refusals>)
    ensures
        validated(r) == verdict(read_covariance_v(bytes@)),
{
    match covariance::read(bytes) {
        Ok(_) => Ok(()),
        Err(e) => Err(e),
    }
}

pub open spec fn companion_not_offered(named: Seq<char>) -> Seq<char> {
    "the level set names "@ + quoted(named) + " and no companion was offered with it"@
}

pub open spec fn companion_not_named() -> Seq<char> {
    "a covariance companion was offered and the level set names none"@
}

pub open spec fn bytes_of(b: Option<&[u8]>) -> Option<Seq<u8>> {
    match b {
        Some(x) => Some(x@),
        None => None,
    }
}

/// What the covariance companion, or its absence, is refused for against a
/// level set.
pub open spec fn companion_refusals_v(set: LevelSetView, covariance: Option<Seq<u8>>) -> Seq<RefusalView> {
    match (set.covariance_file, covariance) {
        (Some(named), None) => seq![absent_field_v("covariance_file"@, companion_not_offered(named))],
        (None, Some(_)) => seq![absent_field_v("covariance_file"@, companion_not_named())],
        (Some(_), Some(b)) => match read_covariance_v(b) {
            Ok(c) => covariance_check_v(c, set),
            Err(e) => e,
        },
        (None, None) => Seq::empty(),
    }
}

/// What the rate table, where one was offered, is refused for against a level
/// set.
pub open spec fn rate_refusals_v(set: LevelSetView, rates: Option<Seq<u8>>) -> Seq<RefusalView> {
    match rates {
        None => Seq::empty(),
        Some(b) => match read_rate_table_v(b) {
            Ok(t) => rates_check_v(t, set),
            Err(e) => e,
        },
    }
}

/// What a level set together with its companions is refused for.
pub open spec fn validate_input_v(levels: Seq<u8>, covariance: Option<Seq<u8>>, rates: Option<Seq<u8>>) -> Result<(), Seq<RefusalView>> {
    match read_level_set_v(levels) {
        Err(e) => Err(e),
        Ok(set) => {
            let all = companion_refusals_v(set, covariance) + rate_refusals_v(set, rates);
            if all.len() == 0 {
                Ok(())
            } else {
                Err(all)
            }
        },
    }
}

fn companion_refusals(levels: &LevelSet, covariance_bytes: Option<&[u8]>, refusals: &mut Refusals)
    ensures
        final(refusals)@ == old(refusals)@ + companion_refusals_v(levels@, bytes_of(covariance_bytes)),
{
    assert(old(refusals)@ + Seq::<RefusalView>::empty() =~= old(refusals)@);
    match (&levels.covariance_file, covariance_bytes) {
        (Some(named), None) => {
            let mut m = owned("the level set names ");
            let c = chars_of(named.as_str());
            let q = quote(c.as_slice());
            append(&mut m, q.as_str());
            append(&mut m, " and no companion was offered with it");
            refusals.push(Refusal::absent_field(owned("covariance_file"), m));
        },
        (None, Some(_)) => {
            refusals.push(Refusal::absent_field(owned("covariance_file"), owned("a covariance companion was offered and the level set names none")));
        },
        (Some(_), Some(bytes)) => match covariance::read(bytes) {
            Ok(companion) => {
                if let Err(found) = companion.check_against(&levels) {
                    refusals.push_all(&found);
                }
            },
            Err(found) => {
                refusals.push_all(&found);
            },
        },
        (None, None) => {},
    }
}

fn rate_refusals(levels: &LevelSet, rate_table_bytes: Option<&[u8]>, refusals: &mut Refusals)
    ensures
        final(refusals)@ == old(refusals)@ + rate_refusals_v(levels@, bytes_of(rate_table_bytes)),
{
    assert(old(refusals)@ + Seq::<RefusalView>::empty() =~= old(refusals)@);
    match rate_table_bytes {
        Some(bytes) => match rates::read(bytes) {
            Ok(table) => {
                if let Err(found) = table.check_against(&levels) {
                    refusals.push_all(&found);
                }
            },
            Err(found) => {
                refusals.push_all(&found);
            },
        },
        None => {},
    }
}

/// The validator is the reader: a file is accepted exactly where it reads,
/// and refused with exactly the refusals the read makes, for each of the four
/// files.
pub proof fn law_the_validator_is_the_reader(bytes: Seq<u8>)
    ensures
        verdict(read_level_set_v(bytes)) is Ok <==> read_level_set_v(bytes) is Ok,
        read_level_set_v(bytes) matches Err(e) ==> verdict(read_level_set_v(bytes)) == Err::<(), Seq<RefusalView>>(e),
        verdict(read_line_list_v(bytes)) is Ok <==> read_line_list_v(bytes) is Ok,
        read_line_list_v(bytes) matches Err(e) ==> verdict(read_line_list_v(bytes)) == Err::<(), Seq<RefusalView>>(e),
        verdict(read_rate_table_v(bytes)) is Ok <==> read_rate_table_v(bytes) is Ok,
        read_rate_table_v(bytes) matches Err(e) ==> verdict(read_rate_table_v(bytes)) == Err::<(), Seq<RefusalView>>(e),
        verdict(read_covariance_v(bytes)) is Ok <==> read_covariance_v(bytes) is Ok,
        read_covariance_v(bytes) matches Err(e) ==> verdict(read_covariance_v(bytes)) == Err::<(), Seq<RefusalView>>(e),
{
}

/// Accept a level set together with the companions stated against it.
///
/// The cross-file checks live here because neither file can make them alone.
pub fn validate_input(level_set_bytes: &[u8], covariance_bytes: Option<&[u8]>, rate_table_bytes: Option<&[u8]>) -> (r: Result<(), Refusals>)
    ensures
        validated(r) == validate_input_v(level_set_bytes@, bytes_of(covariance_bytes), bytes_of(rate_table_bytes)),
{
    let levels = match level_set::read(level_set_bytes) {
        Ok(l) => l,
        Err(e) => {
            return Err(e);
        },
    };
    let mut refusals = Refusals::new();
    companion_refusals(&levels, covariance_bytes, &mut refusals);
    rate_refusals(&levels, rate_table_bytes, &mut refusals);
    assert(refusals@ =~= companion_refusals_v(levels@, bytes_of(covariance_bytes)) + rate_refusals_v(levels@, bytes_of(rate_table_bytes)));
    refusals.into_result(())
}


/// Lexing refuses a file only with at least one refusal.
pub proof fn lemma_lex_refusals_nonempty(b: Seq<u8>)
    ensures
        lex_bytes(b) matches Err(e) ==> e.len() > 0,
{
    let text = if has_utf8_mark(b) { b.skip(3) } else { b };
    if valid_utf8(text) {
        let t = decode_utf8(text);
        let p = split(t, '\n');
        let l = lines_of(p, p.len() as int);
        let h = header_count(l);
        if h >= l.len() {
            let r0 = line_refusals(p, p.len() as int);
            let r1 = headers_upto(l, h as int).1;
            assert((r0 + r1 + seq![in_file_v(no_label_row())]).len() > 0);
        }
    }
}

/// Every file a reader refuses is refused with at least one refusal.
pub proof fn law_a_refused_file_carries_a_refusal(bytes: Seq<u8>)
    ensures
        read_level_set_v(bytes) matches Err(e) ==> e.len() > 0,
        read_line_list_v(bytes) matches Err(e) ==> e.len() > 0,
        read_rate_table_v(bytes) matches Err(e) ==> e.len() > 0,
        read_covariance_v(bytes) matches Err(e) ==> e.len() > 0,
{
    lemma_lex_refusals_nonempty(bytes);
}

/// A level set and its companions are accepted exactly when the level set
/// reads, a covariance companion is offered exactly when the level set names
/// one, every offered companion reads, and nothing it states disagrees with
/// the level set.
pub proof fn law_the_input_is_accepted_exactly_when_every_part_reads_and_agrees(
    levels: Seq<u8>,
    covariance: Option<Seq<u8>>,
    rates: Option<Seq<u8>>,
)
    ensures
        validate_input_v(levels, covariance, rates) is Ok <==> (read_level_set_v(levels) matches Ok(set) && ({
            &&& (set.covariance_file is Some <==> covariance is Some)
            &&& (covariance matches Some(x) ==> (read_covariance_v(x) matches Ok(c) && covariance_check_v(c, set).len() == 0))
            &&& (rates matches Some(y) ==> (read_rate_table_v(y) matches Ok(t) && rates_check_v(t, set).len() == 0))
        })),
        read_level_set_v(levels) matches Err(e) ==> validate_input_v(levels, covariance, rates) == Err::<(), Seq<RefusalView>>(e),
{
    if let Some(x) = covariance {
        law_a_refused_file_carries_a_refusal(x);
    }
    if let Some(y) = rates {
        law_a_refused_file_carries_a_refusal(y);
    }
}

} // verus!
