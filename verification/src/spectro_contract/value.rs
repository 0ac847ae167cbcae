//! The values a cell or a header may carry, and what each one refuses.
//!
//! Every parse here refuses rather than repairs, so a value that is nearly
//! right is refused with the same words as one that is nothing like it.
use vstd::prelude::*;
use vstd::string::*;
use crate::number::{
    all_digits, digits_value, finite_number, is_digit, is_literal, is_finite_number, lemma_digits_value_bounds,
    number_parts, unsigned,
};
use crate::text::{
    append, append_chars, chars_of, decimal, decimal_string, is_text, owned, quote, quoted,
    split_once, split_once_exec,
};

verus! {

/// The contract major version this code was written for.
pub const SUPPORTED_MAJOR: u32 = 1;

/// The `contract_version` of one file.
#[derive(Debug, Clone, Copy, PartialEq, Eq)]
pub struct Version {
    pub major: u32,
    pub minor: u32,
}

/// A version component: digits only, and within `u32`.
pub open spec fn component(t: Seq<char>) -> Result<u32, Seq<char>> {
    if t.len() == 0 || !all_digits(t) {
        Err(quoted(t) + " is not a number"@)
    } else if digits_value(t) > u32::MAX {
        Err(quoted(t) + " does not fit in a version number"@)
    } else {
        Ok(digits_value(t) as u32)
    }
}

/// What reading `major.minor` gives.
pub open spec fn version_of(t: Seq<char>) -> Result<(u32, u32), Seq<char>> {
    match split_once(t, '.') {
        None => Err(quoted(t) + " is not a major and a minor number separated by a full stop"@),
        Some((a, b)) => match component(a) {
            Err(m) => Err(m),
            Ok(major) => match component(b) {
                Err(m) => Err(m),
                Ok(minor) => Ok((major, minor)),
            },
        },
    }
}

/// Read a version component.
fn parse_component(text: &[char]) -> (r: Result<u32, String>)
    ensures
        match (r, component(text@)) {
            (Ok(v), Ok(w)) => v == w,
            (Err(m), Err(w)) => m@ == w,
            _ => false,
        },
{
    let mut i: usize = 0;
    let mut value: u64 = 0;
    let mut fits = true;
    let mut digits = text.len() > 0;
    while i < text.len()
        invariant
            i <= text.len(),
            digits == (text.len() > 0 && all_digits(text@.take(i as int))),
            digits ==> (fits <==> digits_value(text@.take(i as int)) <= u32::MAX),
            digits && fits ==> value == digits_value(text@.take(i as int)),
            value <= u32::MAX,
        decreases text.len() - i,
    {
        let c = text[i];
        proof {
            let p = text@.take(i as int);
            let q = text@.take(i + 1);
            assert(q.drop_last() =~= p);
            assert(q.last() == c);
            if all_digits(p) {
                lemma_digits_value_bounds(p);
            }
            if all_digits(q) {
                assert(is_digit(q[i as int]));
            }
        }
        if c < '0' || c > '9' {
            digits = false;
        } else if digits && fits {
            let next = value * 10 + (c as u64 - '0' as u64);
            if next > 0xFFFF_FFFF {
                fits = false;
            } else {
                value = next;
            }
        } else if digits {
            proof {
                let p = text@.take(i as int);
                lemma_digits_value_bounds(p);
            }
        }
        i = i + 1;
    }
    assert(text@.take(text.len() as int) =~= text@);
    if !digits {
        let mut m = quote(text);
        append(&mut m, " is not a number");
        return Err(m);
    }
    if !fits {
        let mut m = quote(text);
        append(&mut m, " does not fit in a version number");
        return Err(m);
    }
    Ok(value as u32)
}

impl View for Version {
    type V = (u32, u32);

    open spec fn view(&self) -> (u32, u32) {
        (self.major, self.minor)
    }
}

impl Version {
    /// Read `major.minor`, refusing anything else.
    pub fn parse(text: &str) -> (r: Result<Version, String>)
        ensures
            match (r, version_of(text@)) {
                (Ok(v), Ok(w)) => v@ == w,
                (Err(m), Err(w)) => m@ == w,
                _ => false,
            },
    {
        let t = chars_of(text);
        match split_once_exec(t.as_slice(), '.') {
            None => {
                let mut m = quote(t.as_slice());
                append(&mut m, " is not a major and a minor number separated by a full stop");
                Err(m)
            },
            Some((a, b)) => {
                let major = match parse_component(a.as_slice()) {
                    Ok(v) => v,
                    Err(m) => {
                        return Err(m);
                    },
                };
                let minor = match parse_component(b.as_slice()) {
                    Ok(v) => v,
                    Err(m) => {
                        return Err(m);
                    },
                };
                Ok(Version { major, minor })
            },
        }
    }

    /// Whether a reader written for [`SUPPORTED_MAJOR`] may read this file.
    ///
    /// A later minor is readable; a different major is not.
    pub fn is_readable(&self) -> (r: bool)
        ensures
            r == (self.major == SUPPORTED_MAJOR),
    {
        self.major == SUPPORTED_MAJOR
    }

    /// The version as `major.minor`.
    pub fn to_text(&self) -> (r: String)
        ensures
            r@ == decimal(self.major as nat) + "."@ + decimal(self.minor as nat),
    {
        let mut m = decimal_string(self.major as u64);
        append(&mut m, ".");
        let minor = decimal_string(self.minor as u64);
        append(&mut m, minor.as_str());
        m
    }
}

/// A non-negative half-integer, held as twice its value so that comparison and
/// equality are exact. A J of 3/2 is `twice = 3`.
#[derive(Debug, Clone, Copy, PartialEq, Eq, PartialOrd, Ord)]
pub struct HalfInteger {
    twice: u32,
}

impl View for HalfInteger {
    type V = u32;

    closed spec fn view(&self) -> u32 {
        self.twice
    }
}

/// Twice a whole number, where that fits.
pub open spec fn doubled(w: u32, plus: int, t: Seq<char>) -> Result<u32, Seq<char>> {
    if 2 * w + plus <= u32::MAX {
        Ok((2 * w + plus) as u32)
    } else {
        Err(quoted(t) + " is larger than a J this reader can hold"@)
    }
}

/// What reading a half-integer gives: twice its value, or the refusal.
pub open spec fn half_integer_of(t: Seq<char>) -> Result<u32, Seq<char>> {
    match split_once(t, '/') {
        Some((numerator, denominator)) => if denominator != "2"@ {
            Err(quoted(t) + " is not a half-integer: the only denominator a half-integer has is 2"@)
        } else {
            match component(numerator) {
                Err(m) => Err(m),
                Ok(n) => if n % 2 == 0 {
                    Err(quoted(t) + " is a whole number written as a fraction, and a whole J is written without one"@)
                } else {
                    Ok(n)
                },
            }
        },
        None => match split_once(t, '.') {
            Some((whole, fraction)) => match component(whole) {
                Err(m) => Err(m),
                Ok(w) => if fraction == "0"@ {
                    doubled(w, 0, t)
                } else if fraction == "5"@ {
                    doubled(w, 1, t)
                } else {
                    Err(quoted(t) + " is not a multiple of one half, and a J is never rounded to one"@)
                },
            },
            None => match component(t) {
                Err(m) => Err(m),
                Ok(w) => doubled(w, 0, t),
            },
        },
    }
}

fn double(w: u32, plus: u32, t: &[char]) -> (r: Result<HalfInteger, String>)
    requires
        plus <= 1,
    ensures
        match (r, doubled(w, plus as int, t@)) {
            (Ok(v), Ok(x)) => v@ == x,
            (Err(m), Err(x)) => m@ == x,
            _ => false,
        },
{
    if w <= (0xFFFF_FFFF - plus) / 2 {
        Ok(HalfInteger { twice: 2 * w + plus })
    } else {
        let mut m = quote(t);
        append(&mut m, " is larger than a J this reader can hold");
        Err(m)
    }
}

impl HalfInteger {
    pub fn twice(&self) -> (r: u32)
        ensures
            r == self@,
    {
        self.twice
    }

    pub fn is_half_odd(&self) -> (r: bool)
        ensures
            r == (self@ % 2 == 1),
    {
        self.twice % 2 == 1
    }

    /// Read a non-negative half-integer in either spelling a spectroscopist
    /// writes: `3/2` or `1.5`, and `2` or `2.0` for a whole one. Anything that
    /// is not an exact multiple of one half is refused rather than rounded.
    pub fn parse(text: &str) -> (r: Result<HalfInteger, String>)
        ensures
            match (r, half_integer_of(text@)) {
                (Ok(v), Ok(w)) => v@ == w,
                (Err(m), Err(w)) => m@ == w,
                _ => false,
            },
    {
        let t = chars_of(text);
        if let Some((numerator, denominator)) = split_once_exec(t.as_slice(), '/') {
            if !is_text(denominator.as_slice(), "2") {
                let mut m = quote(t.as_slice());
                append(&mut m, " is not a half-integer: the only denominator a half-integer has is 2");
                return Err(m);
            }
            let n = match parse_component(numerator.as_slice()) {
                Ok(n) => n,
                Err(m) => {
                    return Err(m);
                },
            };
            if n % 2 == 0 {
                let mut m = quote(t.as_slice());
                append(&mut m, " is a whole number written as a fraction, and a whole J is written without one");
                return Err(m);
            }
            return Ok(HalfInteger { twice: n });
        }
        if let Some((whole, fraction)) = split_once_exec(t.as_slice(), '.') {
            let w = match parse_component(whole.as_slice()) {
                Ok(w) => w,
                Err(m) => {
                    return Err(m);
                },
            };
            if is_text(fraction.as_slice(), "0") {
                return double(w, 0, t.as_slice());
            }
            if is_text(fraction.as_slice(), "5") {
                return double(w, 1, t.as_slice());
            }
            let mut m = quote(t.as_slice());
            append(&mut m, " is not a multiple of one half, and a J is never rounded to one");
            return Err(m);
        }
        let w = match parse_component(t.as_slice()) {
            Ok(w) => w,
            Err(m) => {
                return Err(m);
            },
        };
        double(w, 0, t.as_slice())
    }

    /// The value as a spectroscopist writes it: `9/2`, or `4` for a whole one.
    pub fn to_text(&self) -> (r: String)
        ensures
            r@ == if self@ % 2 == 1 {
                decimal(self@ as nat) + "/2"@
            } else {
                decimal((self@ / 2) as nat)
            },
    {
        if self.twice % 2 == 1 {
            let mut m = decimal_string(self.twice as u64);
            append(&mut m, "/2");
            m
        } else {
            decimal_string((self.twice / 2) as u64)
        }
    }
}

/// The characters of each member of a vocabulary.
pub open spec fn words(v: Seq<&str>) -> Seq<Seq<char>> {
    v.map_values(|m: &str| m@)
}

/// The members of a vocabulary, each quoted, separated by commas.
pub open spec fn listing(v: Seq<Seq<char>>) -> Seq<char>
    decreases v.len(),
{
    if v.len() == 0 {
        Seq::empty()
    } else if v.len() == 1 {
        quoted(v[0])
    } else {
        listing(v.drop_last()) + ", "@ + quoted(v.last())
    }
}

/// What a value outside a vocabulary is refused with.
pub open spec fn vocabulary_refusal(t: Seq<char>, v: Seq<Seq<char>>) -> Seq<char> {
    quoted(t) + " is not one of "@ + listing(v)
}

/// Read a value against a closed vocabulary, naming the vocabulary on refusal.
pub fn parse_vocabulary<'a>(text: &str, vocabulary: &[&'a str]) -> (r: Result<&'a str, String>)
    ensures
        match r {
            Ok(member) => member@ == text@ && words(vocabulary@).contains(text@),
            Err(m) => !words(vocabulary@).contains(text@) && m@ == vocabulary_refusal(
                text@,
                words(vocabulary@),
            ),
        },
{
    let t = chars_of(text);
    let mut i: usize = 0;
    while i < vocabulary.len()
        invariant
            i <= vocabulary.len(),
            t@ == text@,
            forall|j: int| 0 <= j < i ==> vocabulary@[j]@ != text@,
        decreases vocabulary.len() - i,
    {
        if is_text(t.as_slice(), vocabulary[i]) {
            assert(words(vocabulary@)[i as int] == text@);
            return Ok(vocabulary[i]);
        }
        i = i + 1;
    }
    assert(!words(vocabulary@).contains(text@)) by {
        if words(vocabulary@).contains(text@) {
            let j = choose|j: int| 0 <= j < words(vocabulary@).len() && words(vocabulary@)[j] == text@;
            assert(vocabulary@[j]@ == text@);
        }
    }
    let mut m = quote(t.as_slice());
    append(&mut m, " is not one of ");
    let mut k: usize = 0;
    let ghost w = words(vocabulary@);
    while k < vocabulary.len()
        invariant
            k <= vocabulary.len(),
            w == words(vocabulary@),
            m@ == quoted(text@) + " is not one of "@ + listing(w.take(k as int)),
        decreases vocabulary.len() - k,
    {
        if k > 0 {
            append(&mut m, ", ");
        }
        let member = chars_of(vocabulary[k]);
        let q = quote(member.as_slice());
        append(&mut m, q.as_str());
        proof {
            let next = w.take(k + 1);
            assert(next.drop_last() =~= w.take(k as int));
            assert(next.last() == vocabulary@[k as int]@);
            if k == 0 {
                assert(w.take(0) =~= Seq::<Seq<char>>::empty());
            }
        }
        assert(m@ =~= quoted(text@) + " is not one of "@ + listing(w.take(k + 1)));
        k = k + 1;
    }
    assert(w.take(vocabulary.len() as int) =~= w);
    Err(m)
}

/// Whether a character carries the Unicode `White_Space` property, which is
/// what the standard library's trimming removes.
pub open spec fn is_white_space(c: char) -> bool {
    ('\t' <= c && c <= '\r') || c == ' ' || c == '\u{85}' || c == '\u{a0}' || c == '\u{1680}'
        || ('\u{2000}' <= c && c <= '\u{200a}') || c == '\u{2028}' || c == '\u{2029}'
        || c == '\u{202f}' || c == '\u{205f}' || c == '\u{3000}'
}

pub fn white_space(c: char) -> (r: bool)
    ensures
        r == is_white_space(c),
{
    ('\t' <= c && c <= '\r') || c == ' ' || c == '\u{85}' || c == '\u{a0}' || c == '\u{1680}'
        || ('\u{2000}' <= c && c <= '\u{200a}') || c == '\u{2028}' || c == '\u{2029}'
        || c == '\u{202f}' || c == '\u{205f}' || c == '\u{3000}'
}

/// Whether trimming would change the text: it begins or ends with white space.
pub open spec fn is_padded(t: Seq<char>) -> bool {
    t.len() > 0 && (is_white_space(t[0]) || is_white_space(t.last()))
}

pub open spec fn lower(c: char) -> char {
    if 'A' <= c && c <= 'Z' {
        ((c as u32) + 32) as char
    } else {
        c
    }
}

/// Whether the standard library reads the text as a double at all, finite or
/// not: a decimal literal, or an optionally signed `inf`, `infinity` or `nan`
/// in any case.
pub open spec fn is_float_literal(t: Seq<char>) -> bool {
    number_parts(t) is Some || {
        let u = unsigned(t).map_values(|c: char| lower(c));
        u == "inf"@ || u == "infinity"@ || u == "nan"@
    }
}

/// What a number cell is refused with, or `None` where it holds a finite
/// number.
pub open spec fn number_refusal(t: Seq<char>) -> Option<Seq<char>> {
    if is_padded(t) {
        Some(quoted(t) + " is padded with whitespace, and no cell is trimmed before it is read"@)
    } else if is_finite_number(t) {
        None
    } else if is_float_literal(t) {
        Some(quoted(t) + " is not a finite number"@)
    } else {
        Some(quoted(t) + " is not a number"@)
    }
}

fn special_value(t: &[char]) -> (r: bool)
    ensures
        r == ({
            let u = unsigned(t@).map_values(|c: char| lower(c));
            u == "inf"@ || u == "infinity"@ || u == "nan"@
        }),
{
    let start: usize = if t.len() > 0 && (t[0] == '+' || t[0] == '-') { 1 } else { 0 };
    let mut u: Vec<char> = Vec::new();
    let mut i = start;
    while i < t.len()
        invariant
            start <= i <= t.len(),
            u@ == t@.subrange(start as int, i as int).map_values(|c: char| lower(c)),
        decreases t.len() - i,
    {
        let c = t[i];
        let l = if 'A' <= c && c <= 'Z' { ((c as u32) + 32) as u8 as char } else { c };
        assert(l == lower(c));
        u.push(l);
        assert(t@.subrange(start as int, i + 1).map_values(|c: char| lower(c)) =~= t@.subrange(
            start as int,
            i as int,
        ).map_values(|c: char| lower(c)).push(lower(c)));
        i = i + 1;
    }
    assert(unsigned(t@) =~= t@.subrange(start as int, t.len() as int));
    is_text(u.as_slice(), "inf") || is_text(u.as_slice(), "infinity") || is_text(u.as_slice(), "nan")
}

/// Check that a cell holds a finite number, with no leniency about what
/// surrounds it: no cell is trimmed, so ` 1.0` is refused rather than read.
pub fn parse_number(text: &str) -> (r: Result<(), String>)
    ensures
        match r {
            Ok(()) => number_refusal(text@) is None,
            Err(m) => number_refusal(text@) == Some(m@),
        },
{
    let t = chars_of(text);
    let n = t.len();
    if n > 0 && (white_space(t[0]) || white_space(t[n - 1])) {
        let mut m = quote(t.as_slice());
        append(&mut m, " is padded with whitespace, and no cell is trimmed before it is read");
        return Err(m);
    }
    if finite_number(t.as_slice()) {
        return Ok(());
    }
    let mut m = quote(t.as_slice());
    if is_literal(t.as_slice()) || special_value(t.as_slice()) {
        proof {
            assert(is_float_literal(t@));
        }
        append(&mut m, " is not a finite number");
    } else {
        append(&mut m, " is not a number");
    }
    Err(m)
}


/// Whether a level or a line carries a declared parity.
pub open spec fn parity_words() -> Seq<Seq<char>> {
    seq!["even"@, "odd"@, "unknown"@]
}

pub fn parity_vocabulary() -> (r: &'static [&'static str])
    ensures
        words(r@) == parity_words(),
{
    let r: &'static [&'static str] = &["even", "odd", "unknown"];
    proof {
        reveal_strlit("even");
        reveal_strlit("odd");
        reveal_strlit("unknown");
    }
    assert(words(r@) =~= parity_words());
    r
}

/// How an uncertainty was stated, which decides the distribution it becomes.
pub open spec fn uncertainty_kind_words() -> Seq<Seq<char>> {
    seq!["standard_deviation"@, "spread"@, "class"@]
}

pub fn uncertainty_kind_vocabulary() -> (r: &'static [&'static str])
    ensures
        words(r@) == uncertainty_kind_words(),
{
    let r: &'static [&'static str] = &["standard_deviation", "spread", "class"];
    proof {
        reveal_strlit("standard_deviation");
        reveal_strlit("spread");
        reveal_strlit("class");
    }
    assert(words(r@) =~= uncertainty_kind_words());
    r
}

/// Whether a level was measured or predicted.
pub open spec fn origin_words() -> Seq<Seq<char>> {
    seq!["measured"@, "predicted"@]
}

pub fn origin_vocabulary() -> (r: &'static [&'static str])
    ensures
        words(r@) == origin_words(),
{
    let r: &'static [&'static str] = &["measured", "predicted"];
    proof {
        reveal_strlit("measured");
        reveal_strlit("predicted");
    }
    assert(words(r@) =~= origin_words());
    r
}

/// The medium a position is stated in.
pub open spec fn position_medium_words() -> Seq<Seq<char>> {
    seq!["vacuum"@, "air_standard"@]
}

pub fn position_medium_vocabulary() -> (r: &'static [&'static str])
    ensures
        words(r@) == position_medium_words(),
{
    let r: &'static [&'static str] = &["vacuum", "air_standard"];
    proof {
        reveal_strlit("vacuum");
        reveal_strlit("air_standard");
    }
    assert(words(r@) =~= position_medium_words());
    r
}

/// The scale an intensity is on.
pub open spec fn intensity_scale_words() -> Seq<Seq<char>> {
    seq!["arbitrary"@, "photographic"@, "photon"@, "energy"@]
}

pub fn intensity_scale_vocabulary() -> (r: &'static [&'static str])
    ensures
        words(r@) == intensity_scale_words(),
{
    let r: &'static [&'static str] = &["arbitrary", "photographic", "photon", "energy"];
    proof {
        reveal_strlit("arbitrary");
        reveal_strlit("photographic");
        reveal_strlit("photon");
        reveal_strlit("energy");
    }
    assert(words(r@) =~= intensity_scale_words());
    r
}

/// The conditions under which the branching constraint does not apply.
pub open spec fn line_flag_words() -> Seq<Seq<char>> {
    seq!["saturated"@, "self_absorbed"@, "blended"@]
}

pub fn line_flag_vocabulary() -> (r: &'static [&'static str])
    ensures
        words(r@) == line_flag_words(),
{
    let r: &'static [&'static str] = &["saturated", "self_absorbed", "blended"];
    proof {
        reveal_strlit("saturated");
        reveal_strlit("self_absorbed");
        reveal_strlit("blended");
    }
    assert(words(r@) =~= line_flag_words());
    r
}


/// The decimal spelling of a number is a run of digits whose value is the
/// number.
pub proof fn lemma_decimal_digits(n: nat)
    ensures
        decimal(n).len() > 0,
        all_digits(decimal(n)),
        digits_value(decimal(n)) == n,
    decreases n,
{
    let d = (n % 10) as nat;
    assert(crate::text::digit_char(d) as int == 48 + d) by {
        assert(0 <= d < 10);
    }
    assert((n / 10) * 10 + n % 10 == n) by (nonlinear_arith);
    let s = decimal(n);
    if n >= 10 {
        lemma_decimal_digits(n / 10);
        assert(s.drop_last() =~= decimal(n / 10));
        assert(s.last() == crate::text::digit_char(d));
        assert(crate::number::digit_value(s.last()) == d);
        assert(digits_value(s) == digits_value(s.drop_last()) * 10 + crate::number::digit_value(s.last()));
        assert forall|i: int| 0 <= i < s.len() implies is_digit(#[trigger] s[i]) by {
            if i < s.len() - 1 {
                assert(s[i] == decimal(n / 10)[i]);
            }
        }
    } else {
        assert(s.drop_last() =~= Seq::<char>::empty());
        assert(digits_value(s) == digits_value(s.drop_last()) * 10 + crate::number::digit_value(s.last()));
    }
}

proof fn lemma_no_mark_in_decimal(n: nat, c: char)
    requires
        !is_digit(c),
    ensures
        !decimal(n).contains(c),
{
    lemma_decimal_digits(n);
}

proof fn lemma_split_after_decimal(n: nat, c: char, rest: Seq<char>)
    requires
        !is_digit(c),
    ensures
        split_once(decimal(n) + seq![c] + rest, c) == Some((decimal(n), rest)),
{
    lemma_decimal_digits(n);
    let s = decimal(n) + seq![c] + rest;
    let i = decimal(n).len() as int;
    assert forall|j: int| 0 <= j < i implies s[j] != c by {
        assert(s[j] == decimal(n)[j]);
        assert(is_digit(decimal(n)[j]));
    }
    crate::text::lemma_split_once_at(s, c, i);
    assert(s.take(i) =~= decimal(n));
    assert(s.skip(i + 1) =~= rest);
}

proof fn lemma_component_of_decimal(n: u32)
    ensures
        component(decimal(n as nat)) == Ok::<u32, Seq<char>>(n),
{
    lemma_decimal_digits(n as nat);
}

/// How a version is written: `major.minor`.
pub open spec fn version_text(v: (u32, u32)) -> Seq<char> {
    decimal(v.0 as nat) + "."@ + decimal(v.1 as nat)
}

/// What a version writes, it reads back as.
#[verifier::spinoff_prover]
pub proof fn law_version_reads_back(v: (u32, u32))
    ensures
        version_of(version_text(v)) == Ok::<(u32, u32), Seq<char>>(v),
{
    reveal_strlit(".");
    assert("."@ =~= seq!['.']);
    lemma_split_after_decimal(v.0 as nat, '.', decimal(v.1 as nat));
    assert(version_text(v) =~= decimal(v.0 as nat) + seq!['.'] + decimal(v.1 as nat));
    lemma_component_of_decimal(v.0);
    lemma_component_of_decimal(v.1);
}

/// How a half-integer is written: `n/2` for an odd number of halves, the
/// whole number otherwise.
pub open spec fn half_integer_text(twice: u32) -> Seq<char> {
    if twice % 2 == 1 {
        decimal(twice as nat) + "/2"@
    } else {
        decimal((twice / 2) as nat)
    }
}

proof fn lemma_no_slash_after_decimal(n: nat, rest: Seq<char>)
    requires
        !rest.contains('/'),
    ensures
        !(decimal(n) + rest).contains('/'),
{
    lemma_no_mark_in_decimal(n, '/');
    let t = decimal(n) + rest;
    if t.contains('/') {
        let k = choose|k: int| 0 <= k < t.len() && t[k] == '/';
        if k < decimal(n).len() {
            assert(decimal(n)[k] == '/');
            assert(decimal(n).contains('/'));
        } else {
            assert(rest[k - decimal(n).len()] == '/');
        }
    }
}

#[verifier::spinoff_prover]
proof fn lemma_fraction_spelling(twice: u32)
    requires
        twice % 2 == 1,
    ensures
        half_integer_of(decimal(twice as nat) + "/2"@) == Ok::<u32, Seq<char>>(twice),
{
    reveal_strlit("/2");
    reveal_strlit("2");
    lemma_split_after_decimal(twice as nat, '/', seq!['2']);
    assert(decimal(twice as nat) + "/2"@ =~= decimal(twice as nat) + seq!['/'] + seq!['2']);
    assert("2"@ =~= seq!['2']);
    lemma_component_of_decimal(twice);
}

#[verifier::spinoff_prover]
proof fn lemma_point_spelling(w: u32, fraction: char, plus: int)
    requires
        fraction == '5' && plus == 1 || fraction == '0' && plus == 0,
        2 * w + plus <= u32::MAX,
    ensures
        half_integer_of(decimal(w as nat) + seq!['.', fraction]) == Ok::<u32, Seq<char>>((2 * w + plus) as u32),
{
    reveal_strlit("5");
    reveal_strlit("0");
    let t = decimal(w as nat) + seq!['.', fraction];
    lemma_no_slash_after_decimal(w as nat, seq!['.', fraction]);
    assert(!seq!['.', fraction].contains('/')) by {
        if seq!['.', fraction].contains('/') {
            let k = choose|k: int| 0 <= k < 2 && seq!['.', fraction][k] == '/';
        }
    }
    assert(split_once(t, '/') is None);
    assert(t =~= decimal(w as nat) + seq!['.'] + seq![fraction]);
    lemma_split_after_decimal(w as nat, '.', seq![fraction]);
    assert(split_once(t, '.') == Some((decimal(w as nat), seq![fraction])));
    lemma_component_of_decimal(w);
    assert(component(decimal(w as nat)) == Ok::<u32, Seq<char>>(w));
    if fraction == '5' {
        assert(seq![fraction] =~= "5"@);
        assert(seq![fraction][0] != "0"@[0]);
        assert(seq![fraction] != "0"@);
        assert(doubled(w, 1, t) == Ok::<u32, Seq<char>>((2 * w + 1) as u32));
    } else {
        assert(seq![fraction] =~= "0"@);
        assert(doubled(w, 0, t) == Ok::<u32, Seq<char>>((2 * w) as u32));
    }
}

#[verifier::spinoff_prover]
proof fn lemma_whole_spelling(w: u32)
    requires
        2 * w <= u32::MAX,
    ensures
        half_integer_of(decimal(w as nat)) == Ok::<u32, Seq<char>>((2 * w) as u32),
{
    lemma_no_mark_in_decimal(w as nat, '/');
    lemma_no_mark_in_decimal(w as nat, '.');
    lemma_component_of_decimal(w);
}

/// What a half-integer writes, it reads back as.
#[verifier::spinoff_prover]
pub proof fn law_half_integer_reads_back(twice: u32)
    ensures
        half_integer_of(half_integer_text(twice)) == Ok::<u32, Seq<char>>(twice),
{
    if twice % 2 == 1 {
        lemma_fraction_spelling(twice);
    } else {
        lemma_whole_spelling((twice / 2) as u32);
    }
}

/// The two spellings a spectroscopist uses for a half-integer read to the
/// same value: `7/2` and `3.5` for an odd number of halves.
#[verifier::spinoff_prover]
pub proof fn law_half_spellings_agree(twice: u32, w: u32)
    requires
        twice == 2 * w + 1,
    ensures
        half_integer_of(decimal(twice as nat) + "/2"@) == half_integer_of(decimal(w as nat) + ".5"@),
{
    assert(half_integer_of(decimal(twice as nat) + "/2"@) == Ok::<u32, Seq<char>>(twice)) by {
        lemma_fraction_spelling(twice);
    }
    assert(half_integer_of(decimal(w as nat) + ".5"@) == Ok::<u32, Seq<char>>(twice)) by {
        reveal_strlit(".5");
        assert(".5"@ =~= seq!['.', '5']);
        lemma_point_spelling(w, '5', 1);
    }
}

/// The two spellings of a whole J read to the same value: `2` and `2.0`.
#[verifier::spinoff_prover]
pub proof fn law_whole_spellings_agree(w: u32)
    requires
        2 * w <= u32::MAX,
    ensures
        half_integer_of(decimal(w as nat)) == half_integer_of(decimal(w as nat) + ".0"@),
{
    lemma_whole_spelling(w);
    reveal_strlit(".0");
    assert(".0"@ =~= seq!['.', '0']);
    lemma_point_spelling(w, '0', 0);
}


/// A version component as written: digits only, at least one, within `u32`.
pub open spec fn is_component(c: Seq<char>) -> bool {
    c.len() > 0 && all_digits(c) && digits_value(c) <= u32::MAX
}

/// A version reads exactly where it is two components joined by one full
/// stop, and it reads as their values.
#[verifier::spinoff_prover]
pub proof fn law_which_versions_read(t: Seq<char>)
    ensures
        version_of(t) is Ok <==> exists|i: int| 0 <= i < t.len() && t[i] == '.' && #[trigger] is_component(t.take(i))
            && is_component(t.skip(i + 1)),
        forall|i: int| 0 <= i < t.len() && t[i] == '.' && #[trigger] is_component(t.take(i)) && is_component(t.skip(i + 1))
            ==> version_of(t) == Ok::<(u32, u32), Seq<char>>((digits_value(t.take(i)) as u32, digits_value(t.skip(i + 1)) as u32)),
{
    crate::text::lemma_split_once_first(t, '.');
    assert forall|i: int| 0 <= i < t.len() && t[i] == '.' && #[trigger] is_component(t.take(i)) && is_component(t.skip(i + 1))
        implies version_of(t) == Ok::<(u32, u32), Seq<char>>((digits_value(t.take(i)) as u32, digits_value(t.skip(i + 1)) as u32)) by {
        assert forall|j: int| 0 <= j < i implies t[j] != '.' by {
            assert(t.take(i)[j] == t[j]);
            assert(is_digit(t.take(i)[j]));
        }
        crate::text::lemma_split_once_at(t, '.', i);
    }
    if let Ok(v) = version_of(t) {
        let (a, b) = split_once(t, '.')->Some_0;
        let i = a.len() as int;
        assert(t.take(i) =~= a);
        assert(t.skip(i + 1) =~= b);
        assert(t[i] == '.');
        assert(is_component(t.take(i)));
    }
}


/// The spellings a J reads from: an odd number of halves over 2, a whole
/// number with `.0` or `.5`, or a whole number, each within `u32` when
/// doubled.
pub open spec fn is_half_integer_spelling(t: Seq<char>) -> bool {
    ||| exists|i: int| 0 <= i < t.len() && t[i] == '/' && #[trigger] is_component(t.take(i)) && t.skip(i + 1) == "2"@
        && digits_value(t.take(i)) % 2 == 1
    ||| exists|i: int| 0 <= i < t.len() && t[i] == '.' && #[trigger] is_component(t.take(i)) && (
        (t.skip(i + 1) == "0"@ && 2 * digits_value(t.take(i)) <= u32::MAX)
        || (t.skip(i + 1) == "5"@ && 2 * digits_value(t.take(i)) + 1 <= u32::MAX))
    ||| is_component(t) && 2 * digits_value(t) <= u32::MAX
}

proof fn lemma_digits_before(t: Seq<char>, i: int, c: char)
    requires
        0 <= i < t.len(),
        t[i] == c,
        !is_digit(c),
        all_digits(t.take(i)),
    ensures
        split_once(t, c) == Some((t.take(i), t.skip(i + 1))),
{
    assert forall|j: int| 0 <= j < i implies t[j] != c by {
        assert(t.take(i)[j] == t[j]);
        assert(is_digit(t.take(i)[j]));
    }
    crate::text::lemma_split_once_at(t, c, i);
}

proof fn lemma_digit_text_free(d: Seq<char>, c: char)
    requires
        all_digits(d),
        !is_digit(c),
    ensures
        !d.contains(c),
{
    if d.contains(c) {
        let k = choose|k: int| 0 <= k < d.len() && d[k] == c;
        assert(is_digit(d[k]));
    }
}

proof fn lemma_split_none(t: Seq<char>, c: char)
    requires
        !t.contains(c),
    ensures
        split_once(t, c) is None,
{
    crate::text::lemma_split_once_first(t, c);
    if let Some((a, b)) = split_once(t, c) {
        assert(t[a.len() as int] == c);
    }
}

#[verifier::spinoff_prover]
proof fn lemma_slash_reads(t: Seq<char>, i: int)
    requires
        0 <= i < t.len(),
        t[i] == '/',
        is_component(t.take(i)),
        t.skip(i + 1) == "2"@,
        digits_value(t.take(i)) % 2 == 1,
    ensures
        half_integer_of(t) == Ok::<u32, Seq<char>>(digits_value(t.take(i)) as u32),
{
    lemma_digits_before(t, i, '/');
    crate::number::lemma_digits_value_bounds(t.take(i));
}

#[verifier::spinoff_prover]
proof fn lemma_point_reads(t: Seq<char>, i: int)
    requires
        0 <= i < t.len(),
        t[i] == '.',
        is_component(t.take(i)),
        (t.skip(i + 1) == "0"@ && 2 * digits_value(t.take(i)) <= u32::MAX)
            || (t.skip(i + 1) == "5"@ && 2 * digits_value(t.take(i)) + 1 <= u32::MAX),
    ensures
        half_integer_of(t) == Ok::<u32, Seq<char>>(
            (2 * digits_value(t.take(i)) + if t.skip(i + 1) == "5"@ { 1int } else { 0int }) as u32,
        ),
{
    reveal_strlit("0");
    reveal_strlit("5");
    assert("0"@ != "5"@) by {
        assert("0"@[0] != "5"@[0]);
    }
    lemma_digits_before(t, i, '.');
    crate::number::lemma_digits_value_bounds(t.take(i));
    lemma_point_text_slash_free(t, i);
    lemma_split_none(t, '/');
    let w = digits_value(t.take(i));
    if t.skip(i + 1) == "5"@ {
        assert(half_integer_of(t) == doubled(w as u32, 1, t));
    } else {
        assert(half_integer_of(t) == doubled(w as u32, 0, t));
    }
}

proof fn lemma_point_text_slash_free(t: Seq<char>, i: int)
    requires
        0 <= i < t.len(),
        t[i] == '.',
        all_digits(t.take(i)),
        t.skip(i + 1) == "0"@ || t.skip(i + 1) == "5"@,
    ensures
        !t.contains('/'),
{
    reveal_strlit("0");
    reveal_strlit("5");
    lemma_digit_text_free(t.take(i), '/');
    assert(t.skip(i + 1).len() == 1);
    if t.contains('/') {
        let k = choose|k: int| 0 <= k < t.len() && t[k] == '/';
        if k < i {
            assert(t.take(i)[k] == '/');
        } else if k > i {
            assert(t.skip(i + 1)[k - i - 1] == '/');
        }
    }
}

#[verifier::spinoff_prover]
proof fn lemma_whole_reads(t: Seq<char>)
    requires
        is_component(t),
        2 * digits_value(t) <= u32::MAX,
    ensures
        half_integer_of(t) == Ok::<u32, Seq<char>>((2 * digits_value(t)) as u32),
{
    crate::number::lemma_digits_value_bounds(t);
    lemma_digit_text_free(t, '/');
    lemma_digit_text_free(t, '.');
    lemma_split_none(t, '/');
    lemma_split_none(t, '.');
}

proof fn lemma_spelling_reads(t: Seq<char>)
    requires
        is_half_integer_spelling(t),
    ensures
        half_integer_of(t) is Ok,
{
    if exists|i: int| 0 <= i < t.len() && t[i] == '/' && #[trigger] is_component(t.take(i)) && t.skip(i + 1) == "2"@
        && digits_value(t.take(i)) % 2 == 1 {
        let i = choose|i: int| 0 <= i < t.len() && t[i] == '/' && #[trigger] is_component(t.take(i)) && t.skip(i + 1) == "2"@
            && digits_value(t.take(i)) % 2 == 1;
        lemma_slash_reads(t, i);
    } else if exists|i: int| 0 <= i < t.len() && t[i] == '.' && #[trigger] is_component(t.take(i)) && (
        (t.skip(i + 1) == "0"@ && 2 * digits_value(t.take(i)) <= u32::MAX)
        || (t.skip(i + 1) == "5"@ && 2 * digits_value(t.take(i)) + 1 <= u32::MAX)) {
        let i = choose|i: int| 0 <= i < t.len() && t[i] == '.' && #[trigger] is_component(t.take(i)) && (
            (t.skip(i + 1) == "0"@ && 2 * digits_value(t.take(i)) <= u32::MAX)
            || (t.skip(i + 1) == "5"@ && 2 * digits_value(t.take(i)) + 1 <= u32::MAX));
        lemma_point_reads(t, i);
    } else {
        lemma_whole_reads(t);
    }
}

#[verifier::spinoff_prover]
proof fn lemma_slash_spelling(t: Seq<char>, n: Seq<char>, d: Seq<char>)
    requires
        split_once(t, '/') == Some((n, d)),
        half_integer_of(t) is Ok,
    ensures
        is_half_integer_spelling(t),
{
    reveal_strlit("2");
    crate::text::lemma_split_once_first(t, '/');
    let i = n.len() as int;
    assert(t.take(i) =~= n);
    assert(t.skip(i + 1) =~= d);
    assert(component(n) is Ok);
    crate::number::lemma_digits_value_bounds(n);
    assert(is_component(t.take(i)));
    assert(digits_value(t.take(i)) % 2 == 1);
}

#[verifier::spinoff_prover]
proof fn lemma_point_spelling_read(t: Seq<char>, w: Seq<char>, f: Seq<char>)
    requires
        split_once(t, '/') is None,
        split_once(t, '.') == Some((w, f)),
        half_integer_of(t) is Ok,
    ensures
        is_half_integer_spelling(t),
{
    reveal_strlit("0");
    reveal_strlit("5");
    crate::text::lemma_split_once_first(t, '.');
    let i = w.len() as int;
    assert(t.take(i) =~= w);
    assert(t.skip(i + 1) =~= f);
    assert(component(w) is Ok);
    crate::number::lemma_digits_value_bounds(w);
    assert(is_component(t.take(i)));
}

proof fn lemma_read_spelling(t: Seq<char>)
    requires
        half_integer_of(t) is Ok,
    ensures
        is_half_integer_spelling(t),
{
    match split_once(t, '/') {
        Some((n, d)) => lemma_slash_spelling(t, n, d),
        None => match split_once(t, '.') {
            Some((w, f)) => lemma_point_spelling_read(t, w, f),
            None => {
                assert(component(t) is Ok);
                crate::number::lemma_digits_value_bounds(t);
            },
        },
    }
}

/// A J reads exactly from one of its spellings, and to the value that
/// spelling writes: `n/2` to `n` halves, `w.0` and `w` to `2w`, `w.5` to
/// `2w + 1`.
pub proof fn law_which_half_integers_read(t: Seq<char>)
    ensures
        half_integer_of(t) is Ok <==> is_half_integer_spelling(t),
        forall|i: int| 0 <= i < t.len() && t[i] == '/' && #[trigger] is_component(t.take(i)) && t.skip(i + 1) == "2"@
            && digits_value(t.take(i)) % 2 == 1 ==> half_integer_of(t) == Ok::<u32, Seq<char>>(digits_value(t.take(i)) as u32),
        forall|i: int| 0 <= i < t.len() && t[i] == '.' && #[trigger] is_component(t.take(i)) && t.skip(i + 1) == "0"@
            && 2 * digits_value(t.take(i)) <= u32::MAX ==> half_integer_of(t) == Ok::<u32, Seq<char>>((2 * digits_value(t.take(i))) as u32),
        forall|i: int| 0 <= i < t.len() && t[i] == '.' && #[trigger] is_component(t.take(i)) && t.skip(i + 1) == "5"@
            && 2 * digits_value(t.take(i)) + 1 <= u32::MAX ==> half_integer_of(t) == Ok::<u32, Seq<char>>((2 * digits_value(t.take(i)) + 1) as u32),
        is_component(t) && 2 * digits_value(t) <= u32::MAX ==> half_integer_of(t) == Ok::<u32, Seq<char>>((2 * digits_value(t)) as u32),
{
    assert forall|i: int| 0 <= i < t.len() && t[i] == '/' && #[trigger] is_component(t.take(i)) && t.skip(i + 1) == "2"@
        && digits_value(t.take(i)) % 2 == 1 implies half_integer_of(t) == Ok::<u32, Seq<char>>(digits_value(t.take(i)) as u32) by {
        lemma_slash_reads(t, i);
    }
    assert forall|i: int| 0 <= i < t.len() && t[i] == '.' && #[trigger] is_component(t.take(i)) && t.skip(i + 1) == "0"@
        && 2 * digits_value(t.take(i)) <= u32::MAX implies half_integer_of(t) == Ok::<u32, Seq<char>>((2 * digits_value(t.take(i))) as u32) by {
        lemma_point_reads(t, i);
        reveal_strlit("0");
        reveal_strlit("5");
        assert("0"@ != "5"@) by {
            assert("0"@[0] != "5"@[0]);
        }
    }
    assert forall|i: int| 0 <= i < t.len() && t[i] == '.' && #[trigger] is_component(t.take(i)) && t.skip(i + 1) == "5"@
        && 2 * digits_value(t.take(i)) + 1 <= u32::MAX implies half_integer_of(t) == Ok::<u32, Seq<char>>((2 * digits_value(t.take(i)) + 1) as u32) by {
        lemma_point_reads(t, i);
    }
    if is_component(t) && 2 * digits_value(t) <= u32::MAX {
        lemma_whole_reads(t);
    }
    if is_half_integer_spelling(t) {
        lemma_spelling_reads(t);
    }
    if half_integer_of(t) is Ok {
        lemma_read_spelling(t);
    }
}

} // verus!
