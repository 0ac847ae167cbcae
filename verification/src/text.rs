//! Text as a sequence of characters, and the few conversions the readers need.
use vstd::prelude::*;
use vstd::string::*;
use vstd::std_specs::iter::IteratorSpec;

verus! {

/// Append one character to a string.
///
/// Calls `String::push`, which appends the given character to the end of the
/// string; the contract says exactly that and nothing more.
#[verifier::external_body]
pub(crate) fn push_char(s: &mut String, c: char)
    ensures
        final(s)@ == old(s)@.push(c),
{
    s.push(c);
}

/// The characters of a string slice, in order.
pub fn chars_of(s: &str) -> (r: Vec<char>)
    ensures
        r@ == s@,
{
    let mut out: Vec<char> = Vec::new();
    broadcast use vstd::string::group_string_axioms;
    for c in iter: s.chars()
        invariant
            iter.seq() == s@,
            out@ == iter.history(),
    {
        out.push(c);
    }
    assert(out@ =~= s@);
    out
}

/// A string holding exactly these characters.
pub fn string_of(c: &[char]) -> (r: String)
    ensures
        r@ == c@,
{
    let mut out = String::new();
    let mut i: usize = 0;
    while i < c.len()
        invariant
            i <= c.len(),
            out@ == c@.take(i as int),
        decreases c.len() - i,
    {
        push_char(&mut out, c[i]);
        assert(c@.take(i + 1) =~= c@.take(i as int).push(c@[i as int]));
        i = i + 1;
    }
    assert(c@.take(c.len() as int) =~= c@);
    out
}

/// The character of a decimal digit.
pub open spec fn digit_char(d: nat) -> char {
    ((48 + d) as u8) as char
}

/// The decimal spelling of a number, with no leading zero.
pub open spec fn decimal(n: nat) -> Seq<char>
    decreases n,
{
    if n < 10 {
        seq![digit_char(n)]
    } else {
        decimal(n / 10).push(digit_char(n % 10))
    }
}

/// The decimal spelling of a number as a string.
pub fn decimal_string(n: u64) -> (r: String)
    ensures
        r@ == decimal(n as nat),
    decreases n,
{
    let digit = ((48 + n % 10) as u8) as char;
    if n < 10 {
        let mut out = String::new();
        push_char(&mut out, digit);
        out
    } else {
        let mut out = decimal_string(n / 10);
        push_char(&mut out, digit);
        out
    }
}

/// A name or a value quoted the way a message quotes one.
pub open spec fn quoted(t: Seq<char>) -> Seq<char> {
    seq!['`'] + t + seq!['`']
}

/// The text before and after the first occurrence of `c`, where there is one.
pub open spec fn split_once(s: Seq<char>, c: char) -> Option<(Seq<char>, Seq<char>)> {
    if exists|i: int| 0 <= i < s.len() && s[i] == c {
        let i = choose|i: int| 0 <= i < s.len() && s[i] == c && forall|j: int| 0 <= j < i ==> s[j] != c;
        Some((s.take(i), s.skip(i + 1)))
    } else {
        None
    }
}

/// The position of the first occurrence of `c`.
pub fn position_of(s: &[char], c: char) -> (r: Option<usize>)
    ensures
        match r {
            Some(i) => i < s.len() && s@[i as int] == c && forall|j: int| 0 <= j < i ==> s@[j] != c,
            None => forall|j: int| 0 <= j < s.len() ==> s@[j] != c,
        },
{
    let mut i: usize = 0;
    while i < s.len()
        invariant
            i <= s.len(),
            forall|j: int| 0 <= j < i ==> s@[j] != c,
        decreases s.len() - i,
    {
        if s[i] == c {
            return Some(i);
        }
        i = i + 1;
    }
    None
}

pub proof fn lemma_split_once_at(s: Seq<char>, c: char, i: int)
    requires
        0 <= i < s.len(),
        s[i] == c,
        forall|j: int| 0 <= j < i ==> s[j] != c,
    ensures
        split_once(s, c) == Some((s.take(i), s.skip(i + 1))),
{
    let k = choose|k: int| 0 <= k < s.len() && s[k] == c && forall|j: int| 0 <= j < k ==> s[j] != c;
    assert(0 <= k < s.len() && s[k] == c && forall|j: int| 0 <= j < k ==> s[j] != c);
    if k < i {
        assert(s[k] != c);
    }
    if i < k {
        assert(s[i] != c);
    }
}

/// Split at the first occurrence of `c`.
pub fn split_once_exec(s: &[char], c: char) -> (r: Option<(Vec<char>, Vec<char>)>)
    ensures
        match r {
            Some((a, b)) => split_once(s@, c) == Some((a@, b@)),
            None => split_once(s@, c) is None,
        },
{
    match position_of(s, c) {
        Some(i) => {
            proof { lemma_split_once_at(s@, c, i as int); }
            let a = slice_of(s, 0, i);
            let b = slice_of(s, i + 1, s.len());
            assert(a@ =~= s@.take(i as int));
            assert(b@ =~= s@.skip(i + 1));
            Some((a, b))
        },
        None => None,
    }
}

/// The characters in `start..end`, copied.
pub fn slice_of(s: &[char], start: usize, end: usize) -> (r: Vec<char>)
    requires
        start <= end <= s.len(),
    ensures
        r@ == s@.subrange(start as int, end as int),
{
    let mut out: Vec<char> = Vec::new();
    let mut i = start;
    while i < end
        invariant
            start <= i <= end <= s.len(),
            out@ == s@.subrange(start as int, i as int),
        decreases end - i,
    {
        out.push(s[i]);
        assert(s@.subrange(start as int, i + 1) =~= s@.subrange(start as int, i as int).push(s@[i as int]));
        i = i + 1;
    }
    out
}

/// Whether two character sequences are equal.
pub fn same_chars(a: &[char], b: &[char]) -> (r: bool)
    ensures
        r == (a@ == b@),
{
    if a.len() != b.len() {
        return false;
    }
    let mut i: usize = 0;
    while i < a.len()
        invariant
            i <= a.len(),
            a.len() == b.len(),
            forall|j: int| 0 <= j < i ==> a@[j] == b@[j],
        decreases a.len() - i,
    {
        if a[i] != b[i] {
            return false;
        }
        i = i + 1;
    }
    assert(a@ =~= b@);
    true
}

/// Whether the characters are exactly those of `lit`.
pub fn is_text(a: &[char], lit: &str) -> (r: bool)
    ensures
        r == (a@ == lit@),
{
    let l = chars_of(lit);
    same_chars(a, l.as_slice())
}

/// A string made of the given text.
pub fn owned(lit: &str) -> (r: String)
    ensures
        r@ == lit@,
{
    String::from_str(lit)
}

/// `s` with `t` appended.
pub fn append(s: &mut String, t: &str)
    ensures
        final(s)@ == old(s)@ + t@,
{
    s.append(t);
}

/// `s` with the characters appended.
pub fn append_chars(s: &mut String, t: &[char])
    ensures
        final(s)@ == old(s)@ + t@,
{
    let mut i: usize = 0;
    let ghost start = s@;
    while i < t.len()
        invariant
            i <= t.len(),
            s@ == start + t@.take(i as int),
        decreases t.len() - i,
    {
        push_char(s, t[i]);
        assert(t@.take(i + 1) =~= t@.take(i as int).push(t@[i as int]));
        i = i + 1;
    }
    assert(t@.take(t.len() as int) =~= t@);
}

/// The text quoted.
pub fn quote(t: &[char]) -> (r: String)
    ensures
        r@ == quoted(t@),
{
    let mut out = String::new();
    push_char(&mut out, '`');
    append_chars(&mut out, t);
    push_char(&mut out, '`');
    assert(out@ =~= quoted(t@));
    out
}

pub proof fn lemma_split_once_shorter(s: Seq<char>, c: char)
    ensures
        split_once(s, c) matches Some((a, b)) ==> a.len() < s.len() && b.len() < s.len() && s
            =~= a + seq![c] + b,
{
    if exists|i: int| 0 <= i < s.len() && s[i] == c {
        let w = choose|i: int| 0 <= i < s.len() && s[i] == c;
        lemma_first_occurrence_exists(s, c, w);
        let i = choose|i: int| 0 <= i < s.len() && s[i] == c && forall|j: int| 0 <= j < i ==> s[j] != c;
        assert(s =~= s.take(i) + seq![c] + s.skip(i + 1));
    }
}

pub proof fn lemma_first_occurrence_exists(s: Seq<char>, c: char, w: int)
    requires
        0 <= w < s.len(),
        s[w] == c,
    ensures
        exists|i: int| 0 <= i < s.len() && s[i] == c && forall|j: int| 0 <= j < i ==> s[j] != c,
    decreases w,
{
    if exists|j: int| 0 <= j < w && s[j] == c {
        let j = choose|j: int| 0 <= j < w && s[j] == c;
        lemma_first_occurrence_exists(s, c, j);
    } else {
        assert(forall|j: int| 0 <= j < w ==> s[j] != c);
    }
}

/// The pieces of `s` between occurrences of `c`, which are one more than the
/// occurrences.
#[verifier::opaque]
pub open spec fn split(s: Seq<char>, c: char) -> Seq<Seq<char>>
    decreases s.len(),
{
    match split_once(s, c) {
        None => seq![s],
        Some((a, b)) => {
            proof {
                lemma_split_once_shorter(s, c);
            }
            seq![a] + split(b, c)
        },
    }
}

pub proof fn lemma_split_step(s: Seq<char>, c: char)
    ensures
        split(s, c) == match split_once(s, c) {
            None => seq![s],
            Some((a, b)) => seq![a] + split(b, c),
        },
        split_once(s, c) matches Some((a, b)) ==> a.len() < s.len() && b.len() < s.len() && s
            =~= a + seq![c] + b,
{
    reveal(split);
    lemma_split_once_shorter(s, c);
}

/// The characters of each piece.
pub open spec fn texts(v: Seq<Vec<char>>) -> Seq<Seq<char>> {
    v.map_values(|x: Vec<char>| x@)
}

/// Split at every occurrence of `c`.
pub fn split_chars(s: &[char], c: char) -> (r: Vec<Vec<char>>)
    ensures
        texts(r@) == split(s@, c),
{
    let mut out: Vec<Vec<char>> = Vec::new();
    let mut rest: Vec<char> = slice_of(s, 0, s.len());
    assert(rest@ =~= s@);
    loop
        invariant
            texts(out@) + split(rest@, c) == split(s@, c),
        decreases rest@.len(),
    {
        proof {
            lemma_split_step(rest@, c);
        }
        match split_once_exec(rest.as_slice(), c) {
            None => {
                let ghost before = texts(out@);
                out.push(rest);
                assert(texts(out@) =~= before.push(rest@));
                assert(split(rest@, c) == seq![rest@]);
                assert(texts(out@) =~= before + split(rest@, c));
                return out;
            },
            Some((a, b)) => {
                let ghost before = texts(out@);
                let ghost old_rest = rest@;
                assert(split(old_rest, c) == seq![a@] + split(b@, c));
                out.push(a);
                assert(texts(out@) =~= before.push(a@));
                assert(texts(out@) + split(b@, c) =~= before + split(old_rest, c));
                rest = b;
            },
        }
    }
}


/// The text before the first occurrence of the separator holds none.
pub proof fn lemma_split_once_first(s: Seq<char>, c: char)
    ensures
        split_once(s, c) matches Some((a, b)) ==> !a.contains(c) && s =~= a + seq![c] + b,
        split_once(s, c) is None ==> !s.contains(c),
{
    if exists|i: int| 0 <= i < s.len() && s[i] == c {
        let w = choose|i: int| 0 <= i < s.len() && s[i] == c;
        lemma_first_occurrence_exists(s, c, w);
        let i = choose|i: int| 0 <= i < s.len() && s[i] == c && forall|j: int| 0 <= j < i ==> s[j] != c;
        let a = s.take(i);
        if a.contains(c) {
            let j = choose|j: int| 0 <= j < a.len() && a[j] == c;
            assert(s[j] == c);
        }
        assert(s =~= s.take(i) + seq![c] + s.skip(i + 1));
    }
}

proof fn lemma_part_free(s: Seq<char>, a: Seq<char>, b: Seq<char>, c: char, x: char)
    requires
        s =~= a + seq![c] + b,
        !s.contains(x),
    ensures
        !a.contains(x),
        !b.contains(x),
{
    if a.contains(x) {
        let j = choose|j: int| 0 <= j < a.len() && a[j] == x;
        assert(s[j] == x);
    }
    if b.contains(x) {
        let j = choose|j: int| 0 <= j < b.len() && b[j] == x;
        assert(s[a.len() + 1 + j] == x);
    }
}

/// No part of a split holds the separator, and no part holds what the whole
/// text does not.
pub proof fn lemma_split_parts(s: Seq<char>, c: char, x: char)
    ensures
        forall|i: int| 0 <= i < split(s, c).len() ==> !(#[trigger] split(s, c)[i]).contains(c)
            && (!s.contains(x) ==> !split(s, c)[i].contains(x)),
    decreases s.len(),
{
    lemma_split_step(s, c);
    lemma_split_once_first(s, c);
    match split_once(s, c) {
        None => {},
        Some((a, b)) => {
            lemma_split_parts(b, c, x);
            if !s.contains(x) {
                lemma_part_free(s, a, b, c, x);
            }
            let p = split(s, c);
            assert forall|i: int| 0 <= i < p.len() implies !(#[trigger] p[i]).contains(c)
                && (!s.contains(x) ==> !p[i].contains(x)) by {
                if i > 0 {
                    assert(p[i] == split(b, c)[i - 1]);
                }
            }
        },
    }
}


/// A text splits into at most one part more than it has characters.
pub proof fn lemma_split_len(s: Seq<char>, c: char)
    ensures
        split(s, c).len() <= s.len() + 1,
    decreases s.len(),
{
    lemma_split_step(s, c);
    if let Some((a, b)) = split_once(s, c) {
        lemma_split_len(b, c);
    }
}

} // verus!
