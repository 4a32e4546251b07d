//! Small text utilities over `String` and `str`, specified through their
//! character-sequence views.
use vstd::prelude::*;

verus! {

/// The characters of `s`, in order.
pub(crate) fn chars_of(s: &str) -> (cs: Vec<char>)
    ensures
        cs@ == s@,
{
    broadcast use vstd::string::axiom_spec_iter;

    let mut out: Vec<char> = Vec::new();
    for c in it: s.chars()
        invariant
            out@ == it.seq().take(it.index() as int),
    {
        out.push(c);
    }
    out
}

/// The string made of the characters of `cs`, in order.
pub(crate) fn string_from_chars(cs: &[char]) -> (s: String)
    ensures
        s@ == cs@,
{
    let mut out = String::new();
    let mut i: usize = 0;
    while i < cs.len()
        invariant
            i <= cs@.len(),
            out@ == cs@.take(i as int),
        decreases cs@.len() - i,
    {
        push_char(&mut out, cs[i]);
        assert(cs@.take(i + 1) =~= cs@.take(i as int).push(cs@[i as int]));
        i = i + 1;
    }
    assert(cs@.take(cs@.len() as int) =~= cs@);
    out
}

/// Whether two string slices hold the same characters.
pub(crate) fn str_equal(a: &str, b: &str) -> (r: bool)
    ensures
        r == (a@ == b@),
{
    let x = chars_of(a);
    let y = chars_of(b);
    if x.len() != y.len() {
        return false;
    }
    let mut i: usize = 0;
    while i < x.len()
        invariant
            i <= x@.len() == y@.len(),
            x@ == a@,
            y@ == b@,
            forall|j: int| 0 <= j < i ==> x@[j] == y@[j],
        decreases x@.len() - i,
    {
        if x[i] != y[i] {
            return false;
        }
        i = i + 1;
    }
    assert(x@ =~= y@);
    true
}

/// A new string holding the characters of `s`.
pub fn owned(s: &str) -> (r: String)
    ensures
        r@ == s@,
{
    String::from_str(s)
}

/// The concatenation of two strings.
pub fn concat2(a: &str, b: &str) -> (r: String)
    ensures
        r@ == a@ + b@,
{
    let mut r = String::from_str(a);
    r.append(b);
    r
}

/// The concatenation of three strings.
pub fn concat3(a: &str, b: &str, c: &str) -> (r: String)
    ensures
        r@ == a@ + b@ + c@,
{
    let mut r = String::from_str(a);
    r.append(b);
    r.append(c);
    r
}

/// The decimal digit for `d`.
pub open spec fn digit_char(d: int) -> char {
    ((d + '0' as int) as u32) as char
}

/// Decimal rendering of a natural number, without leading zeros ("0" for zero).
pub open spec fn nat_decimal(n: nat) -> Seq<char>
    decreases n,
{
    if n < 10 {
        seq![digit_char(n as int)]
    } else {
        nat_decimal(n / 10).push(digit_char((n % 10) as int))
    }
}

/// Decimal rendering of an integer, with a leading `-` when negative.
pub open spec fn int_decimal(n: int) -> Seq<char> {
    if n < 0 {
        seq!['-'] + nat_decimal((-n) as nat)
    } else {
        nat_decimal(n as nat)
    }
}

/// The decimal digits of `n`.
pub fn u64_decimal(n: u64) -> (r: String)
    ensures
        r@ == nat_decimal(n as nat),
{
    let mut digits: Vec<char> = Vec::new();
    let mut m: u64 = n;
    // digits are collected least significant first
    while m >= 10
        invariant
            m <= n,
            nat_decimal(n as nat) == nat_decimal(m as nat) + rev_seq(digits@),
        decreases m,
    {
        let d = m % 10;
        let c = ((d as u32) + ('0' as u32)) as u8 as char;
        proof {
            assert(c == digit_char(d as int));
            assert(nat_decimal(m as nat) == nat_decimal((m / 10) as nat).push(c));
            lemma_rev_push(digits@, c);
            assert(nat_decimal((m / 10) as nat) + rev_seq(digits@.push(c)) =~= nat_decimal(
                (m / 10) as nat,
            ).push(c) + rev_seq(digits@));
        }
        digits.push(c);
        m = m / 10;
    }
    let c0 = ((m as u32) + ('0' as u32)) as u8 as char;
    proof {
        assert(c0 == digit_char(m as int));
        lemma_rev_push(digits@, c0);
        assert(nat_decimal(m as nat) =~= seq![c0]);
    }
    digits.push(c0);
    let mut out: Vec<char> = Vec::new();
    let mut i: usize = digits.len();
    while i > 0
        invariant
            i <= digits.len(),
            out@ =~= rev_seq(digits@).subrange(0, (digits.len() - i) as int),
            digits.len() == digits@.len(),
        decreases i,
    {
        i = i - 1;
        out.push(digits[i]);
        proof {
            lemma_rev_index(digits@);
        }
    }
    proof {
        assert(out@ =~= rev_seq(digits@));
        assert(nat_decimal(n as nat) =~= rev_seq(digits@));
    }
    string_from_chars(out.as_slice())
}

/// The decimal rendering of `n`, with a leading `-` when negative.
pub fn i64_decimal(n: i64) -> (r: String)
    ensures
        r@ == int_decimal(n as int),
{
    if n < 0 {
        let m: u64 = if n == i64::MIN {
            9223372036854775808u64
        } else {
            (-n) as u64
        };
        let d = u64_decimal(m);
        proof {
            reveal_strlit("-");
        }
        concat2("-", d.as_str())
    } else {
        u64_decimal(n as u64)
    }
}

/// The reverse of a sequence.
pub open spec fn rev_seq<A>(s: Seq<A>) -> Seq<A> {
    Seq::new(s.len(), |i: int| s[s.len() - 1 - i])
}

proof fn lemma_rev_push<A>(s: Seq<A>, a: A)
    ensures
        rev_seq(s.push(a)) =~= seq![a] + rev_seq(s),
{
}

proof fn lemma_rev_index<A>(s: Seq<A>)
    ensures
        forall|i: int| 0 <= i < s.len() ==> #[trigger] rev_seq(s)[i] == s[s.len() - 1 - i],
{
}

} // verus!

verus! {

/// Appends one character to `s`.
///
/// Calls `String::push`; the contract claims that the string afterwards holds its
/// former characters followed by `c`.
#[verifier::external_body]
pub(crate) fn push_char(s: &mut String, c: char)
    ensures
        final(s)@ == old(s)@.push(c),
{
    s.push(c);
}

} // verus!
