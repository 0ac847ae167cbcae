//! Whether a cell holds a finite number, decided from its characters.
//!
//! A cell is a number when it is a decimal literal in the grammar the standard
//! library reads a double precision value from, and it is a finite number when
//! the value that literal denotes rounds, to the nearest representable double,
//! to something other than an infinity. Rounding to nearest overflows exactly
//! at `2^1024 - 2^970`, the midpoint between the largest finite double and
//! `2^1024`, so a literal is finite when the magnitude it denotes lies below
//! that limit. No floating point value is formed here: the limit is compared
//! against the literal's own digits.
use vstd::prelude::*;
use vstd::arithmetic::power::*;
use vstd::arithmetic::mul::*;

verus! {

pub open spec fn is_digit(c: char) -> bool {
    '0' <= c && c <= '9'
}

pub open spec fn all_digits(s: Seq<char>) -> bool {
    forall|i: int| 0 <= i < s.len() ==> is_digit(#[trigger] s[i])
}

pub open spec fn digit_value(c: char) -> int {
    c as int - '0' as int
}

/// The value of a run of decimal digits, most significant first.
pub open spec fn digits_value(s: Seq<char>) -> int
    decreases s.len(),
{
    if s.len() == 0 {
        0
    } else {
        digits_value(s.drop_last()) * 10 + digit_value(s.last())
    }
}

/// How many decimal digits the sequence begins with.
pub open spec fn digit_run(s: Seq<char>) -> nat
    decreases s.len(),
{
    if s.len() > 0 && is_digit(s[0]) {
        1 + digit_run(s.skip(1))
    } else {
        0
    }
}

pub open spec fn is_sign(c: char) -> bool {
    c == '+' || c == '-'
}

/// The sequence without one leading sign, where it has one.
pub open spec fn unsigned(s: Seq<char>) -> Seq<char> {
    if s.len() > 0 && is_sign(s[0]) {
        s.skip(1)
    } else {
        s
    }
}

/// The fractional digits and what follows them, for a sequence that begins
/// just after the integer digits of a literal.
pub open spec fn fraction_and_rest(after_int: Seq<char>) -> (Seq<char>, Seq<char>) {
    if after_int.len() > 0 && after_int[0] == '.' {
        let f = after_int.skip(1);
        (f.take(digit_run(f) as int), f.skip(digit_run(f) as int))
    } else {
        (Seq::empty(), after_int)
    }
}

/// A decimal literal taken apart: its integer digits, its fractional digits,
/// whether its exponent is negative, and the digits of its exponent. `None`
/// where the characters are not a decimal literal.
///
/// The grammar: an optional sign; digits, optionally followed by a full stop
/// and more digits, with at least one digit on either side of the stop; then
/// optionally `e` or `E`, an optional sign, and at least one digit.
pub open spec fn number_parts(s: Seq<char>) -> Option<(Seq<char>, Seq<char>, bool, Seq<char>)> {
    let t = unsigned(s);
    let a = digit_run(t) as int;
    let int_digits = t.take(a);
    let (frac_digits, rest) = fraction_and_rest(t.skip(a));
    if a + frac_digits.len() == 0 {
        None
    } else if rest.len() == 0 {
        Some((int_digits, frac_digits, false, Seq::empty()))
    } else if rest[0] == 'e' || rest[0] == 'E' {
        let e = rest.skip(1);
        let negative = e.len() > 0 && e[0] == '-';
        let y = unsigned(e);
        if y.len() > 0 && all_digits(y) {
            Some((int_digits, frac_digits, negative, y))
        } else {
            None
        }
    } else {
        None
    }
}

/// The magnitude at which rounding to the nearest double overflows.
pub open spec fn float_limit() -> int {
    digits_value(limit_digits())
}

/// The decimal digits of `2^1024 - 2^970`.
pub open spec fn limit_digits() -> Seq<char> {
    "179769313486231580793728971405303415079934132710037826936173778980444968292764750946649017977587207096330286416692887910946555547851940402630657488671505820681908902000708383676273854845817711531764475730270069855571366959622842914819860834936475292719074168444365510704342711559699508093042880177904174497792"@
}

/// Whether `m * 10^e` lies below the overflow limit.
pub open spec fn below_limit(m: int, e: int) -> bool {
    if e >= 0 {
        m * pow(10, e as nat) < float_limit()
    } else {
        m < float_limit() * pow(10, (-e) as nat)
    }
}

/// Whether the characters are a decimal literal whose value is finite.
pub open spec fn is_finite_number(s: Seq<char>) -> bool {
    match number_parts(s) {
        Some((a, b, negative, y)) => below_limit(
            digits_value(a + b),
            (if negative { -digits_value(y) } else { digits_value(y) }) - b.len(),
        ),
        None => false,
    }
}

// ------------------------------------------------------------------ lemmas

pub proof fn lemma_digits_value_append(a: Seq<char>, b: Seq<char>)
    ensures
        digits_value(a + b) == digits_value(a) * pow(10, b.len()) + digits_value(b),
    decreases b.len(),
{
    reveal(pow);
    if b.len() == 0 {
        assert(a + b =~= a);
        assert(pow(10, 0) == 1);
    } else {
        lemma_digits_value_append(a, b.drop_last());
        assert((a + b).drop_last() =~= a + b.drop_last());
        assert((a + b).last() == b.last());
        let p = pow(10, (b.len() - 1) as nat);
        assert(pow(10, b.len()) == 10 * p);
        let da = digits_value(a);
        let db = digits_value(b.drop_last());
        assert((da * p + db) * 10 == da * (10 * p) + db * 10) by (nonlinear_arith);
    }
}

pub proof fn lemma_digits_value_bounds(a: Seq<char>)
    requires
        all_digits(a),
    ensures
        0 <= digits_value(a) < pow(10, a.len()),
        a.len() >= 1 && a[0] != '0' ==> pow(10, (a.len() - 1) as nat) <= digits_value(a),
    decreases a.len(),
{
    reveal(pow);
    if a.len() > 0 {
        let p = a.drop_last();
        assert(all_digits(p));
        lemma_digits_value_bounds(p);
        let dp = digits_value(p);
        let q = pow(10, p.len());
        assert(is_digit(a[a.len() - 1]));
        let d = digit_value(a.last());
        assert(0 <= d <= 9);
        assert(dp * 10 + d < q * 10) by (nonlinear_arith)
            requires dp < q, 0 <= d <= 9;
        assert(pow(10, a.len()) == 10 * q);
        if a.len() >= 2 && a[0] != '0' {
            assert(p[0] == a[0]);
            let r = pow(10, (p.len() - 1) as nat);
            assert(q == 10 * r);
            assert(dp * 10 + d >= r * 10) by (nonlinear_arith)
                requires dp >= r, 0 <= d;
        } else if a.len() == 1 && a[0] != '0' {
            assert(p.len() == 0);
            assert(a.last() == a[0]);
        }
    }
}

pub proof fn lemma_digits_value_zeros(z: Seq<char>)
    requires
        forall|i: int| 0 <= i < z.len() ==> z[i] == '0',
    ensures
        digits_value(z) == 0,
    decreases z.len(),
{
    if z.len() > 0 {
        lemma_digits_value_zeros(z.drop_last());
    }
}

/// Two digit sequences of one length are ordered by their first difference.
pub proof fn lemma_digits_value_first_difference(a: Seq<char>, b: Seq<char>, j: int)
    requires
        a.len() == b.len(),
        all_digits(a),
        all_digits(b),
        0 <= j < a.len(),
        a.take(j) == b.take(j),
        a[j] < b[j],
    ensures
        digits_value(a) < digits_value(b),
{
    let p = a.take(j);
    let ra = a.skip(j + 1);
    let rb = b.skip(j + 1);
    assert(a =~= p + seq![a[j]] + ra);
    assert(b =~= p + seq![b[j]] + rb);
    assert(all_digits(ra));
    assert(all_digits(rb));
    lemma_digits_value_append(p + seq![a[j]], ra);
    lemma_digits_value_append(p + seq![b[j]], rb);
    assert((p + seq![a[j]]).drop_last() =~= p);
    assert((p + seq![b[j]]).drop_last() =~= p);
    lemma_digits_value_bounds(ra);
    lemma_digits_value_bounds(rb);
    let x = pow(10, ra.len());
    assert(ra.len() == rb.len());
    let dp = digits_value(p);
    let da = digit_value(a[j]);
    let db = digit_value(b[j]);
    assert(da < db);
    let va = digits_value(ra);
    let vb = digits_value(rb);
    assert((dp * 10 + da) * x + va < (dp * 10 + db) * x + vb) by (nonlinear_arith)
        requires da < db, 0 <= va < x, 0 <= vb;
}

pub proof fn lemma_limit_bounds()
    ensures
        limit_digits().len() == 309,
        all_digits(limit_digits()),
        pow(10, 308) <= float_limit() < pow(10, 309),
{
    reveal_strlit("179769313486231580793728971405303415079934132710037826936173778980444968292764750946649017977587207096330286416692887910946555547851940402630657488671505820681908902000708383676273854845817711531764475730270069855571366959622842914819860834936475292719074168444365510704342711559699508093042880177904174497792");
    assert(limit_digits().len() == 309);
    assert(all_digits(limit_digits()));
    lemma_digits_value_bounds(limit_digits());
}

pub open spec fn zeros(n: nat) -> Seq<char> {
    Seq::new(n, |i: int| '0')
}

/// The sequence followed by as many zeros as make it `m` long.
pub open spec fn padded(s: Seq<char>, m: nat) -> Seq<char> {
    s + zeros((m - s.len()) as nat)
}

proof fn lemma_padded_value(s: Seq<char>, m: nat)
    requires
        s.len() <= m,
    ensures
        digits_value(padded(s, m)) == digits_value(s) * pow(10, (m - s.len()) as nat),
        padded(s, m).len() == m,
{
    let z = zeros((m - s.len()) as nat);
    lemma_digits_value_append(s, z);
    lemma_digits_value_zeros(z);
}

proof fn lemma_positive_powers(e: nat)
    ensures
        pow(10, e) > 0,
        float_limit() > 0,
{
    lemma_pow_positive(10, e);
    lemma_limit_bounds();
    lemma_pow_positive(10, 308);
}

/// Where a digit sequence with a nonzero lead and `len + e` integer digits
/// stands against the limit.
proof fn lemma_classify(d: Seq<char>, e: int)
    requires
        all_digits(d),
        d.len() >= 1,
        d[0] != '0',
    ensures
        d.len() + e <= 308 ==> below_limit(digits_value(d), e),
        d.len() + e >= 310 ==> !below_limit(digits_value(d), e),
        d.len() + e == 309 ==> (below_limit(digits_value(d), e) <==> digits_value(
            padded(d, if d.len() > 309 { d.len() } else { 309 }),
        ) < digits_value(padded(limit_digits(), if d.len() > 309 { d.len() } else { 309 }))),
{
    let k = d.len();
    let v = digits_value(d);
    let t = float_limit();
    lemma_digits_value_bounds(d);
    lemma_limit_bounds();
    lemma_pow_positive(10, 308);
    let low = pow(10, (k - 1) as nat);
    let high = pow(10, k);
    lemma_pow_positive(10, (k - 1) as nat);
    if e >= 0 {
        let pe = pow(10, e as nat);
        lemma_pow_positive(10, e as nat);
        lemma_pow_adds(10, k, e as nat);
        lemma_pow_adds(10, (k - 1) as nat, e as nat);
        assert(v * pe < high * pe) by (nonlinear_arith)
            requires v < high, pe > 0;
        assert(low * pe <= v * pe) by (nonlinear_arith)
            requires low <= v, pe > 0;
        if k + e <= 308 {
            lemma_pow_increases(10, (k + e) as nat, 308);
        }
        if k + e >= 310 {
            lemma_pow_increases(10, 309, (k - 1 + e) as nat);
        }
        if k + e == 309 {
            lemma_padded_value(d, 309);
            lemma_padded_value(limit_digits(), 309);
            assert(pow(10, 0) == 1) by { reveal(pow); }
        }
    } else {
        let f = (-e) as nat;
        let pf = pow(10, f);
        lemma_pow_positive(10, f);
        if k + e <= 308 {
            // v < 10^k = 10^(k + e) * 10^f <= 10^308 * 10^f <= t * 10^f
            if k >= f {
                lemma_pow_adds(10, (k - f) as nat, f);
                lemma_pow_increases(10, (k - f) as nat, 308);
                let a = pow(10, (k - f) as nat);
                let b = pow(10, 308);
                assert(a * pf <= t * pf) by (nonlinear_arith)
                    requires a <= b, b <= t, pf > 0;
            } else {
                lemma_pow_increases(10, k, f);
                assert(pf <= t * pf) by (nonlinear_arith)
                    requires t >= 1, pf > 0;
            }
        }
        if k + e >= 310 {
            // t * 10^f < 10^309 * 10^f <= 10^(k - 1 - f) * 10^f = 10^(k - 1) <= v
            lemma_pow_adds(10, (k - 1 - f) as nat, f);
            lemma_pow_increases(10, 309, (k - 1 - f) as nat);
            let a = pow(10, 309);
            let b = pow(10, (k - 1 - f) as nat);
            assert(t * pf < b * pf) by (nonlinear_arith)
                requires t < a, a <= b, pf > 0;
        }
        if k + e == 309 {
            lemma_padded_value(d, k);
            lemma_padded_value(limit_digits(), k);
            assert(pow(10, 0) == 1) by { reveal(pow); }
            assert((k - 309) as nat == f);
        }
    }
}

/// The characters from `start` up to the end of the run of digits there.
fn digit_end(s: &[char], start: usize) -> (end: usize)
    requires
        start <= s.len(),
    ensures
        start <= end <= s.len(),
        end - start == digit_run(s@.skip(start as int)),
        all_digits(s@.subrange(start as int, end as int)),
{
    let mut i = start;
    while i < s.len() && '0' <= s[i] && s[i] <= '9'
        invariant
            start <= i <= s.len(),
            all_digits(s@.subrange(start as int, i as int)),
        decreases s.len() - i,
    {
        i = i + 1;
        assert(s@.subrange(start as int, i as int) =~= s@.subrange(start as int, i - 1).push(s@[i - 1]));
    }
    proof {
        lemma_digit_run_exact(s@.skip(start as int), (i - start) as nat);
    }
    i
}

proof fn lemma_digit_run_exact(t: Seq<char>, k: nat)
    requires
        k <= t.len(),
        forall|i: int| 0 <= i < k ==> is_digit(#[trigger] t[i]),
        k == t.len() || !is_digit(t[k as int]),
    ensures
        digit_run(t) == k,
    decreases k,
{
    if k > 0 {
        lemma_digit_run_exact(t.skip(1), (k - 1) as nat);
    }
}

/// Where the fractional digits of a literal lie, given where its integer
/// digits end.
fn fraction_span(s: &[char], a1: usize) -> (r: (usize, usize))
    requires
        a1 <= s.len(),
    ensures
        a1 <= r.0 <= r.1 <= s.len(),
        fraction_and_rest(s@.skip(a1 as int)).0 == s@.subrange(r.0 as int, r.1 as int),
        fraction_and_rest(s@.skip(a1 as int)).1 == s@.skip(r.1 as int),
        all_digits(s@.subrange(r.0 as int, r.1 as int)),
{
    let n = s.len();
    if a1 < n && s[a1] == '.' {
        let b1 = digit_end(s, a1 + 1);
        proof {
            let f = s@.skip(a1 as int).skip(1);
            assert(f =~= s@.skip(a1 + 1));
            assert(f.take(digit_run(f) as int) =~= s@.subrange(a1 + 1, b1 as int));
            assert(f.skip(digit_run(f) as int) =~= s@.skip(b1 as int));
        }
        (a1 + 1, b1)
    } else {
        assert(s@.subrange(a1 as int, a1 as int) =~= Seq::<char>::empty());
        (a1, a1)
    }
}

/// Where the exponent digits of a literal lie and whether they are negative,
/// given where its mantissa ends; `None` where what follows the mantissa is
/// not an exponent.
fn exponent_span(s: &[char], rest: usize) -> (r: Option<(bool, usize)>)
    requires
        rest < s.len(),
    ensures
        ({
            let tail = s@.skip(rest as int);
            let e = tail.skip(1);
            let y = unsigned(e);
            match r {
                Some((negative, y0)) => {
                    &&& (tail[0] == 'e' || tail[0] == 'E')
                    &&& y.len() > 0 && all_digits(y)
                    &&& negative == (e.len() > 0 && e[0] == '-')
                    &&& rest < y0 <= s.len()
                    &&& y == s@.skip(y0 as int)
                },
                None => !((tail[0] == 'e' || tail[0] == 'E') && y.len() > 0 && all_digits(y)),
            }
        }),
{
    let n = s.len();
    let ghost tail = s@.skip(rest as int);
    if !(s[rest] == 'e' || s[rest] == 'E') {
        return None;
    }
    let e0 = rest + 1;
    let negative = e0 < n && s[e0] == '-';
    let y0 = if e0 < n && (s[e0] == '+' || s[e0] == '-') { e0 + 1 } else { e0 };
    let ghost e = tail.skip(1);
    assert(e =~= s@.skip(e0 as int));
    assert(unsigned(e) =~= s@.skip(y0 as int));
    if y0 == n {
        return None;
    }
    let y1 = digit_end(s, y0);
    if y1 != n {
        proof {
            let u = s@.skip(y0 as int);
            assert(u[(y1 - y0) as int] == s@[y1 as int]);
            if is_digit(u[(y1 - y0) as int]) {
                assert forall|i: int| 0 <= i < y1 - y0 implies is_digit(#[trigger] u[i]) by {
                    assert(u[i] == s@.subrange(y0 as int, y1 as int)[i]);
                }
                lemma_digit_run_more(u, (y1 - y0) as nat);
            }
        }
        return None;
    }
    assert(s@.subrange(y0 as int, y1 as int) =~= s@.skip(y0 as int));
    Some((negative, y0))
}

/// Where the parts of a decimal literal lie: the integer digits `t0..a1`,
/// the fractional digits `b0..b1`, whether the exponent is negative, and the
/// exponent digits from `y0` to the end.
pub fn literal_parts(s: &[char]) -> (r: Option<(usize, usize, usize, usize, bool, usize)>)
    ensures
        r is Some <==> number_parts(s@) is Some,
        r matches Some((t0, a1, b0, b1, negative, y0)) ==> {
            &&& t0 <= a1 <= b0 <= b1 <= y0 <= s.len()
            &&& all_digits(s@.subrange(t0 as int, a1 as int))
            &&& all_digits(s@.subrange(b0 as int, b1 as int))
            &&& all_digits(s@.skip(y0 as int))
            &&& number_parts(s@) == Some(
                (
                    s@.subrange(t0 as int, a1 as int),
                    s@.subrange(b0 as int, b1 as int),
                    negative,
                    s@.skip(y0 as int),
                ),
            )
        },
{
    let n = s.len();
    let t0: usize = if n > 0 && (s[0] == '+' || s[0] == '-') { 1 } else { 0 };
    let ghost t = unsigned(s@);
    assert(t =~= s@.skip(t0 as int));
    let a1 = digit_end(s, t0);
    let ghost a = (a1 - t0) as int;
    assert(t.take(a) =~= s@.subrange(t0 as int, a1 as int));
    assert(t.skip(a) =~= s@.skip(a1 as int));
    let (b0, b1) = fraction_span(s, a1);
    if (a1 - t0) + (b1 - b0) == 0 {
        return None;
    }
    if b1 == n {
        assert(s@.skip(n as int) =~= Seq::<char>::empty());
        return Some((t0, a1, b0, b1, false, n));
    }
    match exponent_span(s, b1) {
        Some((negative, y0)) => Some((t0, a1, b0, b1, negative, y0)),
        None => None,
    }
}

/// Whether the characters are a decimal literal.
pub fn is_literal(s: &[char]) -> (r: bool)
    ensures
        r == (number_parts(s@) is Some),
{
    literal_parts(s).is_some()
}

/// Whether the characters are a decimal literal whose value is finite.
pub fn finite_number(s: &[char]) -> (r: bool)
    ensures
        r == is_finite_number(s@),
{
    match literal_parts(s) {
        Some((t0, a1, b0, b1, negative, y0)) => magnitude_below_limit(s, t0, a1, b0, b1, negative, y0),
        None => false,
    }
}

proof fn lemma_digit_run_more(t: Seq<char>, k: nat)
    requires
        k < t.len(),
        digit_run(t) == k,
        forall|i: int| 0 <= i < k ==> is_digit(#[trigger] t[i]),
    ensures
        !is_digit(t[k as int]),
    decreases k,
{
    if k > 0 {
        assert forall|i: int| 0 <= i < k - 1 implies is_digit(#[trigger] t.skip(1)[i]) by {
            assert(t.skip(1)[i] == t[i + 1]);
        }
        lemma_digit_run_more(t.skip(1), (k - 1) as nat);
    }
}

/// One digit of the integer digits followed by the fractional digits.
fn mantissa_digit(s: &[char], a0: usize, a1: usize, b0: usize, b1: usize, at: usize) -> (c: char)
    requires
        a0 <= a1 <= b0 <= b1 <= s.len(),
        at < (a1 - a0) + (b1 - b0),
    ensures
        c == (s@.subrange(a0 as int, a1 as int) + s@.subrange(b0 as int, b1 as int))[at as int],
{
    let la = a1 - a0;
    if at < la {
        s[a0 + at]
    } else {
        s[b0 + (at - la)]
    }
}

/// The exponent bound past which a literal is certainly infinite or zero.
const EXPONENT_CAP: u128 = 0x10_0000_0000_0000_0000_0000_0000;

/// How many zeros the mantissa digits begin with.
fn leading_zeros(s: &[char], a0: usize, a1: usize, b0: usize, b1: usize) -> (z: usize)
    requires
        a0 <= a1 <= b0 <= b1 <= s.len(),
    ensures
        ({
            let d = s@.subrange(a0 as int, a1 as int) + s@.subrange(b0 as int, b1 as int);
            &&& z <= d.len()
            &&& forall|i: int| 0 <= i < z ==> d[i] == '0'
            &&& z < d.len() ==> d[z as int] != '0'
        }),
{
    let ghost d = s@.subrange(a0 as int, a1 as int) + s@.subrange(b0 as int, b1 as int);
    let nd = (a1 - a0) + (b1 - b0);
    let mut z: usize = 0;
    while z < nd && mantissa_digit(s, a0, a1, b0, b1, z) == '0'
        invariant
            z <= nd,
            nd == d.len(),
            a0 <= a1 <= b0 <= b1 <= s.len(),
            d == s@.subrange(a0 as int, a1 as int) + s@.subrange(b0 as int, b1 as int),
            forall|i: int| 0 <= i < z ==> d[i] == '0',
        decreases nd - z,
    {
        z = z + 1;
    }
    z
}

/// The value of the exponent digits, or the cap where it reaches the cap.
fn saturated_value(s: &[char], y0: usize) -> (ev: u128)
    requires
        y0 <= s.len(),
        all_digits(s@.skip(y0 as int)),
    ensures
        ev <= EXPONENT_CAP,
        ev < EXPONENT_CAP ==> ev == digits_value(s@.skip(y0 as int)),
        ev == EXPONENT_CAP ==> digits_value(s@.skip(y0 as int)) >= EXPONENT_CAP,
{
    let ghost y = s@.skip(y0 as int);
    let mut ev: u128 = 0;
    let mut i = y0;
    while i < s.len()
        invariant
            y0 <= i <= s.len(),
            y == s@.skip(y0 as int),
            all_digits(y),
            ev <= EXPONENT_CAP,
            ev < EXPONENT_CAP ==> ev == digits_value(y.take(i - y0)),
            ev == EXPONENT_CAP ==> digits_value(y.take(i - y0)) >= EXPONENT_CAP,
        decreases s.len() - i,
    {
        proof {
            assert(is_digit(y[i - y0]));
            assert(y[i - y0] == s@[i as int]);
        }
        let dgt = (s[i] as u32 - '0' as u32) as u128;
        proof {
            let p = y.take(i - y0);
            let q = y.take(i - y0 + 1);
            assert(q.drop_last() =~= p);
            assert(q.last() == s@[i as int]);
            assert(all_digits(p));
            lemma_digits_value_bounds(p);
        }
        if ev < EXPONENT_CAP {
            ev = ev * 10 + dgt;
            if ev > EXPONENT_CAP {
                ev = EXPONENT_CAP;
            }
        }
        i = i + 1;
    }
    assert(y.take(i - y0) =~= y);
    ev
}

/// Whether the mantissa digits past their leading zeros, padded, stand below
/// the limit's digits padded to the same length.
fn below_limit_digits(s: &[char], a0: usize, a1: usize, b0: usize, b1: usize, z: usize) -> (r: bool)
    requires
        a0 <= a1 <= b0 <= b1 <= s.len(),
        z < (a1 - a0) + (b1 - b0),
        all_digits(s@.subrange(a0 as int, a1 as int) + s@.subrange(b0 as int, b1 as int)),
    ensures
        ({
            let rest = (s@.subrange(a0 as int, a1 as int) + s@.subrange(b0 as int, b1 as int)).skip(z as int);
            let m = if rest.len() > 309 { rest.len() } else { 309 };
            r == (digits_value(padded(rest, m)) < digits_value(padded(limit_digits(), m)))
        }),
{
    let ghost d = s@.subrange(a0 as int, a1 as int) + s@.subrange(b0 as int, b1 as int);
    let ghost rest = d.skip(z as int);
    let nd = (a1 - a0) + (b1 - b0);
    let k = nd - z;
    let lim = crate::text::chars_of("179769313486231580793728971405303415079934132710037826936173778980444968292764750946649017977587207096330286416692887910946555547851940402630657488671505820681908902000708383676273854845817711531764475730270069855571366959622842914819860834936475292719074168444365510704342711559699508093042880177904174497792");
    proof {
        reveal_strlit("179769313486231580793728971405303415079934132710037826936173778980444968292764750946649017977587207096330286416692887910946555547851940402630657488671505820681908902000708383676273854845817711531764475730270069855571366959622842914819860834936475292719074168444365510704342711559699508093042880177904174497792");
        lemma_limit_bounds();
    }
    assert(lim@ == limit_digits());
    let m: usize = if k > 309 { k } else { 309 };
    let ghost pa = padded(rest, m as nat);
    let ghost pb = padded(limit_digits(), m as nat);
    assert(all_digits(rest));
    assert(all_digits(pa));
    assert(all_digits(pb));
    let mut j: usize = 0;
    while j < m
        invariant
            j <= m,
            m == (if k > 309 { k } else { 309 }),
            k == rest.len(),
            lim@ == limit_digits(),
            limit_digits().len() == 309,
            pa == padded(rest, m as nat),
            pb == padded(limit_digits(), m as nat),
            rest == d.skip(z as int),
            d == s@.subrange(a0 as int, a1 as int) + s@.subrange(b0 as int, b1 as int),
            a0 <= a1 <= b0 <= b1 <= s.len(),
            z + k == nd,
            nd == d.len(),
            pa.take(j as int) == pb.take(j as int),
            all_digits(pa),
            all_digits(pb),
        decreases m - j,
    {
        let dc = if j < k {
            mantissa_digit(s, a0, a1, b0, b1, z + j)
        } else {
            '0'
        };
        let lc = if j < 309 { lim[j] } else { '0' };
        assert(dc == pa[j as int]);
        assert(lc == pb[j as int]);
        if dc < lc {
            proof { lemma_digits_value_first_difference(pa, pb, j as int); }
            return true;
        }
        if dc > lc {
            proof { lemma_digits_value_first_difference(pb, pa, j as int); }
            return false;
        }
        assert(pa.take(j + 1) =~= pa.take(j as int).push(pa[j as int]));
        assert(pb.take(j + 1) =~= pb.take(j as int).push(pb[j as int]));
        j = j + 1;
    }
    assert(pa =~= pb) by {
        assert(pa.take(m as int) =~= pa);
        assert(pb.take(m as int) =~= pb);
    }
    false
}

fn magnitude_below_limit(
    s: &[char],
    a0: usize,
    a1: usize,
    b0: usize,
    b1: usize,
    negative: bool,
    y0: usize,
) -> (r: bool)
    requires
        a0 <= a1 <= b0 <= b1 <= y0 <= s.len(),
        all_digits(s@.subrange(a0 as int, a1 as int)),
        all_digits(s@.subrange(b0 as int, b1 as int)),
        all_digits(s@.skip(y0 as int)),
    ensures
        r == below_limit(
            digits_value(s@.subrange(a0 as int, a1 as int) + s@.subrange(b0 as int, b1 as int)),
            (if negative { -digits_value(s@.skip(y0 as int)) } else { digits_value(s@.skip(y0 as int)) }) - (b1 - b0),
        ),
{
    let ghost d = s@.subrange(a0 as int, a1 as int) + s@.subrange(b0 as int, b1 as int);
    let ghost y = s@.skip(y0 as int);
    let ghost e = (if negative { -digits_value(y) } else { digits_value(y) }) - (b1 - b0);
    let nd = (a1 - a0) + (b1 - b0);
    assert(all_digits(d));
    let z = leading_zeros(s, a0, a1, b0, b1);
    let ghost lead = d.take(z as int);
    let ghost rest = d.skip(z as int);
    assert(d =~= lead + rest);
    proof {
        lemma_digits_value_zeros(lead);
        lemma_digits_value_append(lead, rest);
        lemma_pow_positive(10, rest.len());
    }
    if z == nd {
        proof {
            assert(digits_value(d) == 0);
            lemma_positive_powers(0);
            if e >= 0 {
                let p = pow(10, e as nat);
                assert(0 * p == 0) by (nonlinear_arith);
            } else {
                lemma_positive_powers((-e) as nat);
                let p = pow(10, (-e) as nat);
                let t = float_limit();
                assert(t * p > 0) by (nonlinear_arith) requires t > 0, p > 0;
            }
        }
        return true;
    }
    let k = nd - z;
    assert(all_digits(rest));
    assert(digits_value(d) == digits_value(rest));
    let ev = saturated_value(s, y0);
    proof {
        lemma_classify(rest, e);
    }
    if ev == EXPONENT_CAP {
        return negative;
    }
    let lb = (b1 - b0) as i128;
    let kk = k as i128;
    let ll: i128 = if negative { kk - (ev as i128) - lb } else { kk + (ev as i128) - lb };
    assert(ll == rest.len() + e);
    if ll <= 308 {
        return true;
    }
    if ll >= 310 {
        return false;
    }
    below_limit_digits(s, a0, a1, b0, b1, z)
}


/// A character a decimal literal may hold: a digit, a sign, a full stop or
/// the exponent mark.
pub open spec fn is_literal_char(c: char) -> bool {
    is_digit(c) || is_sign(c) || c == '.' || c == 'e' || c == 'E'
}

pub open spec fn literal_chars(s: Seq<char>) -> bool {
    forall|i: int| 0 <= i < s.len() ==> is_literal_char(#[trigger] s[i])
}

proof fn lemma_digit_run_digits(t: Seq<char>)
    ensures
        digit_run(t) <= t.len(),
        literal_chars(t.take(digit_run(t) as int)),
    decreases t.len(),
{
    if t.len() > 0 && is_digit(t[0]) {
        lemma_digit_run_digits(t.skip(1));
        let r = digit_run(t.skip(1)) as int;
        assert forall|i: int| 0 <= i < r + 1 implies is_literal_char(#[trigger] t.take(r + 1)[i]) by {
            if i > 0 {
                assert(t.take(r + 1)[i] == t.skip(1).take(r)[i - 1]);
            }
        }
    }
}

proof fn lemma_literal_chars_join(a: Seq<char>, b: Seq<char>)
    requires
        literal_chars(a),
        literal_chars(b),
    ensures
        literal_chars(a + b),
{
    assert forall|i: int| 0 <= i < (a + b).len() implies is_literal_char(#[trigger] (a + b)[i]) by {
        if i < a.len() {
            assert((a + b)[i] == a[i]);
        } else {
            assert((a + b)[i] == b[i - a.len()]);
        }
    }
}

proof fn lemma_unsigned_chars(s: Seq<char>)
    requires
        literal_chars(unsigned(s)),
    ensures
        literal_chars(s),
{
    if s.len() > 0 && is_sign(s[0]) {
        assert(s =~= seq![s[0]] + unsigned(s));
        lemma_literal_chars_join(seq![s[0]], unsigned(s));
    }
}

/// A decimal literal is made of digits, signs, a full stop and the exponent
/// mark only, and holds at least one character.
pub proof fn lemma_literal_chars(s: Seq<char>)
    requires
        number_parts(s) is Some,
    ensures
        s.len() > 0,
        literal_chars(s),
{
    let t = unsigned(s);
    let a = digit_run(t) as int;
    lemma_digit_run_digits(t);
    let after = t.skip(a);
    let (frac, rest) = fraction_and_rest(after);
    if rest.len() > 0 {
        let e = rest.skip(1);
        let y = unsigned(e);
        assert(literal_chars(y));
        lemma_unsigned_chars(e);
        assert(rest =~= seq![rest[0]] + e);
        lemma_literal_chars_join(seq![rest[0]], e);
    }
    assert(literal_chars(rest));
    if after.len() > 0 && after[0] == '.' {
        let f = after.skip(1);
        let r = digit_run(f) as int;
        lemma_digit_run_digits(f);
        assert(f =~= f.take(r) + f.skip(r));
        lemma_literal_chars_join(f.take(r), f.skip(r));
        assert(after =~= seq!['.'] + f);
        lemma_literal_chars_join(seq!['.'], f);
    }
    assert(literal_chars(after));
    assert(t =~= t.take(a) + after);
    lemma_literal_chars_join(t.take(a), after);
    lemma_unsigned_chars(s);
    assert(t.len() > 0);
}

} // verus!
