//! JSON values as the library builds and writes them.
//!
//! Objects keep their keys in ascending order, each key once, as `serde_json`'s
//! default map does; the text form is the compact one that `serde_json::to_string`
//! writes.
use vstd::prelude::*;
use crate::text::{chars_of, int_decimal, i64_decimal};
use crate::number::{all_digits, digits_capped, digits_value};
use crate::branch_value::digits_between;

verus! {

/// The largest integer up to which every integer is exactly a floating-point number.
pub const EXACT_LIMIT: i64 = 9007199254740992;

/// A floating-point number. The library computes with it only where it is an integer
/// of magnitude at most `EXACT_LIMIT` (`whole`); otherwise it carries its JSON text.
#[derive(Debug, Clone, PartialEq)]
pub struct Real {
    /// The number's JSON rendering; for a number that is not finite, `inf`, `-inf`
    /// or `NaN` (JSON writes such a number as `null`).
    pub text: String,
    /// `Some(n)` when the number is the integer `n` with `|n| <= EXACT_LIMIT`.
    pub whole: Option<i64>,
    /// The number is negative zero.
    pub neg_zero: bool,
}

/// The JSON rendering of the floating-point integer `n` (`|n| <= EXACT_LIMIT`):
/// its digits followed by `.0`, with a `-` for negative numbers and negative zero.
pub open spec fn whole_float_text(n: int, neg_zero: bool) -> Seq<char> {
    if n == 0 && neg_zero {
        "-0.0"@
    } else {
        int_decimal(n) + ".0"@
    }
}

/// The number that a JSON number text stands for, as the library holds it: digits,
/// `.0`, and an optional leading `-` give an exact whole number where its magnitude
/// is at most `EXACT_LIMIT` (`-0.0` is negative zero); any other number is carried
/// by its text.
pub open spec fn real_of_text(t: Seq<char>) -> RealV {
    let neg = t.len() > 0 && t[0] == '-';
    let body = if neg {
        t.drop_first()
    } else {
        t
    };
    let ip = body.subrange(0, body.len() - 2);
    if body.len() >= 3 && body[body.len() - 2] == '.' && body[body.len() - 1] == '0'
        && all_digits(ip) && digits_value(ip) <= EXACT_LIMIT {
        let v = digits_value(ip) as int;
        RealV {
            text: t,
            whole: Some(
                (if neg {
                    -v
                } else {
                    v
                }) as i64,
            ),
            neg_zero: neg && v == 0,
        }
    } else {
        RealV { text: t, whole: None, neg_zero: false }
    }
}

impl Real {
    /// The floating-point number equal to the integer `n`, negative zero when `neg_zero`.
    pub fn from_whole(n: i64, neg_zero: bool) -> (r: Real)
        requires
            -EXACT_LIMIT <= n <= EXACT_LIMIT,
        ensures
            r.whole == Some(n),
            r.neg_zero == (neg_zero && n == 0),
            r.text@ == whole_float_text(n as int, neg_zero),
    {
        proof {
            reveal_strlit("-0.0");
            reveal_strlit(".0");
        }
        if n == 0 && neg_zero {
            Real { text: String::from_str("-0.0"), whole: Some(0), neg_zero: true }
        } else {
            let mut t = i64_decimal(n);
            t.append(".0");
            Real { text: t, whole: Some(n), neg_zero: false }
        }
    }

    /// The floating-point number whose JSON rendering is `text` (see `real_of_text`).
    pub fn of_text(text: String) -> (r: Real)
        ensures
            r@ == real_of_text(text@),
    {
        let cs = chars_of(text.as_str());
        let n = cs.len();
        let neg = n > 0 && cs[0] == '-';
        let from: usize = if neg {
            1
        } else {
            0
        };
        let ghost body = if neg {
            text@.drop_first()
        } else {
            text@
        };
        assert(body =~= cs@.subrange(from as int, n as int));
        if n >= from + 3 && cs[n - 2] == '.' && cs[n - 1] == '0' {
            assert(body.subrange(0, body.len() - 2) =~= cs@.subrange(from as int, n - 2));
            if digits_between(&cs, from, n - 2) {
                let v = digits_capped(&cs, from, n - 2, EXACT_LIMIT as u64);
                if v <= EXACT_LIMIT as u64 {
                    let m = v as i64;
                    let w: i64 = if neg {
                        -m
                    } else {
                        m
                    };
                    return Real { text, whole: Some(w), neg_zero: neg && m == 0 };
                }
            }
        }
        Real { text, whole: None, neg_zero: false }
    }

    /// A floating-point number that is not an integer of magnitude at most
    /// `EXACT_LIMIT`, held by its JSON rendering `text` (a text that `real_of_text`
    /// reads as such an integer is refused: `of_text` reads it).
    pub fn from_text(text: String) -> (r: Real)
        requires
            real_of_text(text@).whole is None,
        ensures
            r@ == real_of_text(text@),
            r.whole.is_none(),
            !r.neg_zero,
            r.text == text,
    {
        Real { text, whole: None, neg_zero: false }
    }

    /// A copy of this number.
    pub fn copy(&self) -> (r: Real)
        ensures
            r == *self,
    {
        Real { text: self.text.clone(), whole: self.whole, neg_zero: self.neg_zero }
    }
}

/// The model of a floating-point number.
pub struct RealV {
    pub text: Seq<char>,
    pub whole: Option<i64>,
    pub neg_zero: bool,
}

impl View for Real {
    type V = RealV;

    open spec fn view(&self) -> RealV {
        RealV { text: self.text@, whole: self.whole, neg_zero: self.neg_zero }
    }
}

/// A JSON value.
#[derive(Debug)]
pub enum Json {
    Null,
    Bool(bool),
    Int(i64),
    Float(Real),
    Str(String),
    Array(Vec<Json>),
    /// Entries in ascending key order, each key once.
    Object(Vec<(String, Json)>),
}

/// `a` comes strictly before `b` in the order of strings (by character, then length).
pub open spec fn seq_lt(a: Seq<char>, b: Seq<char>) -> bool
    decreases a.len(),
{
    if b.len() == 0 {
        false
    } else if a.len() == 0 {
        true
    } else if a[0] != b[0] {
        a[0] < b[0]
    } else {
        seq_lt(a.drop_first(), b.drop_first())
    }
}

/// Whether `a` comes strictly before `b` in the order of strings.
pub fn str_less(a: &str, b: &str) -> (r: bool)
    ensures
        r == seq_lt(a@, b@),
{
    let x = chars_of(a);
    let y = chars_of(b);
    let mut i: usize = 0;
    assert(a@.skip(0) =~= a@);
    assert(b@.skip(0) =~= b@);
    while i < x.len() && i < y.len() && x[i] == y[i]
        invariant
            i <= x@.len(),
            i <= y@.len(),
            x@ == a@,
            y@ == b@,
            seq_lt(a@, b@) == seq_lt(a@.skip(i as int), b@.skip(i as int)),
        decreases x@.len() - i,
    {
        proof {
            assert(a@.skip(i as int).drop_first() =~= a@.skip(i + 1));
            assert(b@.skip(i as int).drop_first() =~= b@.skip(i + 1));
        }
        i = i + 1;
    }
    if i == y.len() {
        false
    } else if i == x.len() {
        true
    } else {
        x[i] < y[i]
    }
}

/// `seq_lt` orders distinct strings one way or the other, never both ways.
pub proof fn lemma_seq_lt_total(a: Seq<char>, b: Seq<char>)
    ensures
        a != b ==> seq_lt(a, b) || seq_lt(b, a),
        !(seq_lt(a, b) && seq_lt(b, a)),
    decreases a.len(),
{
    if a.len() > 0 && b.len() > 0 && a[0] == b[0] {
        lemma_seq_lt_total(a.drop_first(), b.drop_first());
        if a != b {
            assert(a.drop_first() != b.drop_first()) by {
                if a.drop_first() == b.drop_first() {
                    assert(a =~= seq![a[0]] + a.drop_first());
                    assert(b =~= seq![b[0]] + b.drop_first());
                }
            }
        }
    } else if a.len() == 0 && b.len() == 0 {
        assert(a =~= b);
    }
}

/// No string comes before itself.
pub proof fn lemma_seq_lt_irrefl(a: Seq<char>)
    ensures
        !seq_lt(a, a),
    decreases a.len(),
{
    if a.len() > 0 {
        lemma_seq_lt_irrefl(a.drop_first());
    }
}

/// `seq_lt` is transitive.
pub proof fn lemma_seq_lt_trans(a: Seq<char>, b: Seq<char>, c: Seq<char>)
    requires
        seq_lt(a, b),
        seq_lt(b, c),
    ensures
        seq_lt(a, c),
    decreases a.len(),
{
    if a.len() > 0 && b.len() > 0 && c.len() > 0 && a[0] == b[0] && b[0] == c[0] {
        lemma_seq_lt_trans(a.drop_first(), b.drop_first(), c.drop_first());
    }
}

/// The model of a JSON value.
pub enum JsonV {
    Null,
    Bool(bool),
    Int(i64),
    Float(RealV),
    Str(Seq<char>),
    Array(Seq<JsonV>),
    Object(Seq<(Seq<char>, JsonV)>),
}

/// The model of a JSON value.
pub open spec fn jv(j: Json) -> JsonV
    decreases j,
{
    match j {
        Json::Null => JsonV::Null,
        Json::Bool(b) => JsonV::Bool(b),
        Json::Int(n) => JsonV::Int(n),
        Json::Float(r) => JsonV::Float(r@),
        Json::Str(s) => JsonV::Str(s@),
        Json::Array(v) => JsonV::Array(jv_items(v@)),
        Json::Object(e) => JsonV::Object(jv_members(e@)),
    }
}

/// The models of array items.
pub open spec fn jv_items(s: Seq<Json>) -> Seq<JsonV>
    decreases s,
{
    if s.len() == 0 {
        Seq::empty()
    } else {
        jv_items(s.drop_last()).push(jv(s.last()))
    }
}

/// The models of object members.
pub open spec fn jv_members(s: Seq<(String, Json)>) -> Seq<(Seq<char>, JsonV)>
    decreases s,
{
    if s.len() == 0 {
        Seq::empty()
    } else {
        jv_members(s.drop_last()).push((s.last().0@, jv(s.last().1)))
    }
}

/// Item `i` of the models is the model of item `i`.
pub proof fn lemma_jv_items(s: Seq<Json>)
    ensures
        jv_items(s).len() == s.len(),
        forall|i: int| 0 <= i < s.len() ==> #[trigger] jv_items(s)[i] == jv(s[i]),
    decreases s.len(),
{
    if s.len() > 0 {
        lemma_jv_items(s.drop_last());
    }
}

/// Member `i` of the models is the model of member `i`.
pub proof fn lemma_jv_members(s: Seq<(String, Json)>)
    ensures
        jv_members(s).len() == s.len(),
        forall|i: int|
            0 <= i < s.len() ==> #[trigger] jv_members(s)[i] == (s[i].0@, jv(s[i].1)),
    decreases s.len(),
{
    if s.len() > 0 {
        lemma_jv_members(s.drop_last());
    }
}

impl Json {
    /// A copy of this value.
    pub fn copy(&self) -> (r: Json)
        ensures
            jv(r) == jv(*self),
        decreases self,
    {
        match self {
            Json::Null => Json::Null,
            Json::Bool(b) => Json::Bool(*b),
            Json::Int(n) => Json::Int(*n),
            Json::Float(r) => Json::Float(r.copy()),
            Json::Str(s) => Json::Str(s.clone()),
            Json::Array(v) => {
                let mut out: Vec<Json> = Vec::new();
                let mut i: usize = 0;
                while i < v.len()
                    invariant
                        i <= v@.len(),
                        *self == Json::Array(*v),
                        jv_items(out@) == jv_items(v@.take(i as int)),
                    decreases v@.len() - i,
                {
                    assert(decreases_to!(*self => (*self)->Array_0));
                    assert(decreases_to!(*v => v@));
                    assert(decreases_to!(v@ => v@[i as int]));
                    let x = v[i].copy();
                    let ghost o = out@;
                    out.push(x);
                    proof {
                        assert(v@.take(i + 1).drop_last() =~= v@.take(i as int));
                        assert(out@.drop_last() =~= o);
                    }
                    i = i + 1;
                }
                assert(v@.take(v@.len() as int) =~= v@);
                Json::Array(out)
            },
            Json::Object(e) => {
                let mut out: Vec<(String, Json)> = Vec::new();
                let mut i: usize = 0;
                while i < e.len()
                    invariant
                        i <= e@.len(),
                        *self == Json::Object(*e),
                        jv_members(out@) == jv_members(e@.take(i as int)),
                    decreases e@.len() - i,
                {
                    assert(decreases_to!(*self => (*self)->Object_0));
                    assert(decreases_to!(*e => e@));
                    assert(decreases_to!(e@ => e@[i as int]));
                    assert(decreases_to!(e@[i as int] => e@[i as int].1));
                    let x = e[i].1.copy();
                    let ghost o = out@;
                    out.push((e[i].0.clone(), x));
                    proof {
                        assert(e@.take(i + 1).drop_last() =~= e@.take(i as int));
                        assert(out@.drop_last() =~= o);
                    }
                    i = i + 1;
                }
                assert(e@.take(e@.len() as int) =~= e@);
                Json::Object(out)
            },
        }
    }
}

/// A JSON value with every number that is held by its text read by `real_of_text`.
pub open spec fn json_norm(j: JsonV) -> JsonV
    decreases j,
{
    match j {
        JsonV::Float(r) => JsonV::Float(real_of_text(r.text)),
        JsonV::Array(s) => JsonV::Array(norm_items(s)),
        JsonV::Object(m) => JsonV::Object(norm_members(m)),
        _ => j,
    }
}

/// `json_norm` on each item.
pub open spec fn norm_items(s: Seq<JsonV>) -> Seq<JsonV>
    decreases s,
{
    if s.len() == 0 {
        Seq::empty()
    } else {
        norm_items(s.drop_last()).push(json_norm(s.last()))
    }
}

/// `json_norm` on each member's value.
pub open spec fn norm_members(s: Seq<(Seq<char>, JsonV)>) -> Seq<(Seq<char>, JsonV)>
    decreases s,
{
    if s.len() == 0 {
        Seq::empty()
    } else {
        norm_members(s.drop_last()).push((s.last().0, json_norm(s.last().1)))
    }
}

impl Json {
    /// This value with every number that is held by its text read by `real_of_text`.
    pub fn normalized(&self) -> (r: Json)
        ensures
            jv(r) == json_norm(jv(*self)),
        decreases self,
    {
        match self {
            Json::Float(r) => Json::Float(Real::of_text(r.text.clone())),
            Json::Array(v) => {
                let mut out: Vec<Json> = Vec::new();
                let mut i: usize = 0;
                while i < v.len()
                    invariant
                        i <= v@.len(),
                        *self == Json::Array(*v),
                        jv_items(out@) == norm_items(jv_items(v@.take(i as int))),
                    decreases v@.len() - i,
                {
                    assert(decreases_to!(*self => (*self)->Array_0));
                    assert(decreases_to!(*v => v@));
                    assert(decreases_to!(v@ => v@[i as int]));
                    let x = v[i].normalized();
                    let ghost o = out@;
                    out.push(x);
                    proof {
                        assert(v@.take(i + 1).drop_last() =~= v@.take(i as int));
                        assert(out@.drop_last() =~= o);
                        assert(jv_items(v@.take(i + 1)).drop_last() == jv_items(v@.take(i as int)));
                    }
                    i = i + 1;
                }
                assert(v@.take(v@.len() as int) =~= v@);
                Json::Array(out)
            },
            Json::Object(e) => {
                let mut out: Vec<(String, Json)> = Vec::new();
                let mut i: usize = 0;
                while i < e.len()
                    invariant
                        i <= e@.len(),
                        *self == Json::Object(*e),
                        jv_members(out@) == norm_members(jv_members(e@.take(i as int))),
                    decreases e@.len() - i,
                {
                    assert(decreases_to!(*self => (*self)->Object_0));
                    assert(decreases_to!(*e => e@));
                    assert(decreases_to!(e@ => e@[i as int]));
                    assert(decreases_to!(e@[i as int] => e@[i as int].1));
                    let x = e[i].1.normalized();
                    let ghost o = out@;
                    out.push((e[i].0.clone(), x));
                    proof {
                        assert(e@.take(i + 1).drop_last() =~= e@.take(i as int));
                        assert(out@.drop_last() =~= o);
                        assert(jv_members(e@.take(i + 1)).drop_last() == jv_members(
                            e@.take(i as int),
                        ));
                    }
                    i = i + 1;
                }
                assert(e@.take(e@.len() as int) =~= e@);
                Json::Object(out)
            },
            _ => self.copy(),
        }
    }
}

impl Clone for Json {
    fn clone(&self) -> (r: Self)
        ensures
            jv(r) == jv(*self),
    {
        self.copy()
    }
}

/// Object members are in strictly ascending key order.
pub open spec fn members_ascending(s: Seq<(Seq<char>, JsonV)>) -> bool {
    forall|i: int, j: int| 0 <= i < j < s.len() ==> seq_lt(#[trigger] s[i].0, #[trigger] s[j].0)
}

/// The value of `k` among object members.
pub open spec fn members_get(s: Seq<(Seq<char>, JsonV)>, k: Seq<char>) -> Option<JsonV>
    decreases s.len(),
{
    if s.len() == 0 {
        None
    } else if s.last().0 == k {
        Some(s.last().1)
    } else {
        members_get(s.drop_last(), k)
    }
}

/// The keys of object members.
pub open spec fn members_keys(s: Seq<(Seq<char>, JsonV)>) -> Set<Seq<char>> {
    Set::new(|k: Seq<char>| exists|i: int| 0 <= i < s.len() && #[trigger] s[i].0 == k)
}

/// The members with `k` set to `v`, as an ordered map does it: in key order, an
/// existing key keeping its place with the new value.
pub open spec fn members_put(s: Seq<(Seq<char>, JsonV)>, k: Seq<char>, v: JsonV) -> Seq<
    (Seq<char>, JsonV),
>
    decreases s.len(),
{
    if s.len() == 0 {
        seq![(k, v)]
    } else if s[0].0 == k {
        seq![(k, v)] + s.drop_first()
    } else if seq_lt(k, s[0].0) {
        seq![(k, v)] + s
    } else {
        seq![s[0]] + members_put(s.drop_first(), k, v)
    }
}

proof fn lemma_members_get_at(s: Seq<(Seq<char>, JsonV)>, i: int)
    requires
        members_ascending(s),
        0 <= i < s.len(),
    ensures
        members_get(s, s[i].0) == Some(s[i].1),
    decreases s.len(),
{
    if i < s.len() - 1 {
        assert(seq_lt(s[i].0, s.last().0));
        lemma_seq_lt_irrefl(s[i].0);
        assert(s.drop_last()[i] == s[i]);
        lemma_members_get_at(s.drop_last(), i);
    }
}

proof fn lemma_members_get_none(s: Seq<(Seq<char>, JsonV)>, k: Seq<char>)
    requires
        forall|i: int| 0 <= i < s.len() ==> #[trigger] s[i].0 != k,
    ensures
        members_get(s, k).is_none(),
    decreases s.len(),
{
    if s.len() > 0 {
        assert(s.last().0 != k);
        assert forall|i: int| 0 <= i < s.drop_last().len() implies #[trigger] s.drop_last()[i].0
            != k by {
            assert(s.drop_last()[i] == s[i]);
        }
        lemma_members_get_none(s.drop_last(), k);
    }
}

/// In ascending members every key finds its own value and other keys find nothing.
pub proof fn lemma_members_get(s: Seq<(Seq<char>, JsonV)>)
    requires
        members_ascending(s),
    ensures
        forall|i: int| 0 <= i < s.len() ==> members_get(s, #[trigger] s[i].0) == Some(s[i].1),
        forall|k: Seq<char>|
            !members_keys(s).contains(k) ==> #[trigger] members_get(s, k).is_none(),
{
    assert forall|i: int| 0 <= i < s.len() implies members_get(s, #[trigger] s[i].0) == Some(
        s[i].1,
    ) by {
        lemma_members_get_at(s, i);
    }
    assert forall|k: Seq<char>| !members_keys(s).contains(k) implies #[trigger] members_get(
        s,
        k,
    ).is_none() by {
        lemma_members_get_none(s, k);
    }
}

/// Ascending members are determined by what they hold: two ascending member lists
/// with the same keys and the same value for each key are the same list.
pub proof fn lemma_members_unique(a: Seq<(Seq<char>, JsonV)>, b: Seq<(Seq<char>, JsonV)>)
    requires
        members_ascending(a),
        members_ascending(b),
        members_keys(a) == members_keys(b),
        forall|k: Seq<char>| #[trigger] members_get(a, k) == members_get(b, k),
    ensures
        a == b,
    decreases a.len(),
{
    if a.len() == 0 {
        if b.len() > 0 {
            assert(members_keys(b).contains(b[0].0));
        }
        assert(a =~= b);
    } else {
        assert(members_keys(a).contains(a[a.len() - 1].0));
        assert(b.len() > 0);
        let ka = a.last().0;
        let kb = b.last().0;
        assert(members_keys(b).contains(kb));
        lemma_seq_lt_total(ka, kb);
        if ka != kb {
            let j = choose|j: int| 0 <= j < b.len() && #[trigger] b[j].0 == ka;
            let i = choose|i: int| 0 <= i < a.len() && #[trigger] a[i].0 == kb;
            assert(j != b.len() - 1);
            assert(i != a.len() - 1);
            assert(seq_lt(b[j].0, b[b.len() - 1].0));
            assert(seq_lt(a[i].0, a[a.len() - 1].0));
            assert(false);
        }
        assert(members_get(a, ka) == members_get(b, ka));
        assert(a.last() == b.last());
        let a1 = a.drop_last();
        let b1 = b.drop_last();
        assert(members_ascending(a1)) by {
            assert forall|x: int, y: int| 0 <= x < y < a1.len() implies seq_lt(
                #[trigger] a1[x].0,
                #[trigger] a1[y].0,
            ) by {
                assert(a1[x] == a[x] && a1[y] == a[y]);
            }
        }
        assert(members_ascending(b1)) by {
            assert forall|x: int, y: int| 0 <= x < y < b1.len() implies seq_lt(
                #[trigger] b1[x].0,
                #[trigger] b1[y].0,
            ) by {
                assert(b1[x] == b[x] && b1[y] == b[y]);
            }
        }
        assert(!members_keys(a1).contains(ka)) by {
            if members_keys(a1).contains(ka) {
                let x = choose|x: int| 0 <= x < a1.len() && #[trigger] a1[x].0 == ka;
                assert(a1[x] == a[x]);
                assert(seq_lt(a[x].0, a[a.len() - 1].0));
                lemma_seq_lt_irrefl(ka);
            }
        }
        assert(!members_keys(b1).contains(ka)) by {
            if members_keys(b1).contains(ka) {
                let x = choose|x: int| 0 <= x < b1.len() && #[trigger] b1[x].0 == ka;
                assert(b1[x] == b[x]);
                assert(seq_lt(b[x].0, b[b.len() - 1].0));
                lemma_seq_lt_irrefl(ka);
            }
        }
        assert(members_keys(a1) =~= members_keys(b1)) by {
            assert forall|k: Seq<char>| members_keys(a1).contains(k) <==> members_keys(b1).contains(k) by {
                if members_keys(a1).contains(k) {
                    let x = choose|x: int| 0 <= x < a1.len() && #[trigger] a1[x].0 == k;
                    assert(a1[x] == a[x]);
                    assert(members_keys(a).contains(k));
                    assert(k != ka);
                    let y = choose|y: int| 0 <= y < b.len() && #[trigger] b[y].0 == k;
                    assert(y != b.len() - 1);
                    assert(b1[y] == b[y]);
                }
                if members_keys(b1).contains(k) {
                    let x = choose|x: int| 0 <= x < b1.len() && #[trigger] b1[x].0 == k;
                    assert(b1[x] == b[x]);
                    assert(members_keys(b).contains(k));
                    assert(k != ka);
                    let y = choose|y: int| 0 <= y < a.len() && #[trigger] a[y].0 == k;
                    assert(y != a.len() - 1);
                    assert(a1[y] == a[y]);
                }
            }
        }
        lemma_members_get(a1);
        lemma_members_get(b1);
        assert forall|k: Seq<char>| #[trigger] members_get(a1, k) == members_get(b1, k) by {
            if k != ka {
                assert(members_get(a, k) == members_get(a1, k));
                assert(members_get(b, k) == members_get(b1, k));
            } else {
                assert(members_get(a1, k).is_none());
                assert(members_get(b1, k).is_none());
            }
        }
        lemma_members_unique(a1, b1);
        assert(a =~= a1.push(a.last()));
        assert(b =~= b1.push(b.last()));
    }
}

/// Where `members_put` places the new member in ascending members: after the members
/// with smaller keys, in place of a member with the same key.
proof fn lemma_members_put(s: Seq<(Seq<char>, JsonV)>, k: Seq<char>, v: JsonV, i: int)
    requires
        members_ascending(s),
        0 <= i <= s.len(),
        forall|j: int| 0 <= j < i ==> seq_lt(#[trigger] s[j].0, k),
        i < s.len() ==> !seq_lt(s[i].0, k),
    ensures
        members_put(s, k, v) == if i < s.len() && s[i].0 == k {
            s.take(i) + seq![(k, v)] + s.skip(i + 1)
        } else {
            s.take(i) + seq![(k, v)] + s.skip(i)
        },
    decreases s.len(),
{
    if s.len() == 0 {
        assert(s.take(i) + seq![(k, v)] + s.skip(i) =~= seq![(k, v)]);
    } else if i == 0 {
        if s[0].0 == k {
            assert(s.skip(1) =~= s.drop_first());
            assert(s.take(0) + seq![(k, v)] + s.skip(1) =~= seq![(k, v)] + s.drop_first());
        } else {
            lemma_seq_lt_total(s[0].0, k);
            assert(s.take(0) + seq![(k, v)] + s.skip(0) =~= seq![(k, v)] + s);
        }
    } else {
        assert(seq_lt(s[0].0, k));
        lemma_seq_lt_irrefl(k);
        lemma_seq_lt_total(s[0].0, k);
        let t = s.drop_first();
        assert(members_ascending(t)) by {
            assert forall|a: int, b: int| 0 <= a < b < t.len() implies seq_lt(
                #[trigger] t[a].0,
                #[trigger] t[b].0,
            ) by {
                assert(t[a] == s[a + 1] && t[b] == s[b + 1]);
            }
        }
        assert forall|j: int| 0 <= j < i - 1 implies seq_lt(#[trigger] t[j].0, k) by {
            assert(t[j] == s[j + 1]);
        }
        lemma_members_put(t, k, v, i - 1);
        if i < s.len() && s[i].0 == k {
            assert(seq![s[0]] + (t.take(i - 1) + seq![(k, v)] + t.skip(i)) =~= s.take(i) + seq![
                (k, v),
            ] + s.skip(i + 1));
        } else {
            assert(seq![s[0]] + (t.take(i - 1) + seq![(k, v)] + t.skip(i - 1)) =~= s.take(i)
                + seq![(k, v)] + s.skip(i));
        }
    }
}

/// Setting a key keeps members ascending, makes the key give the new value, and
/// leaves every other key as it was.
pub proof fn lemma_members_put_props(s: Seq<(Seq<char>, JsonV)>, k: Seq<char>, v: JsonV)
    requires
        members_ascending(s),
    ensures
        members_ascending(members_put(s, k, v)),
        members_get(members_put(s, k, v), k) == Some(v),
        forall|q: Seq<char>|
            q != k ==> #[trigger] members_get(members_put(s, k, v), q) == members_get(s, q),
        members_keys(members_put(s, k, v)) == members_keys(s).insert(k),
    decreases s.len(),
{
    let r = members_put(s, k, v);
    if s.len() == 0 {
        assert(members_keys(r) =~= members_keys(s).insert(k)) by {
            assert(r[0].0 == k);
        }
        assert forall|q: Seq<char>| q != k implies #[trigger] members_get(r, q) == members_get(
            s,
            q,
        ) by {
            assert(r =~= seq![(k, v)]);
            assert(r.last().0 == k);
            assert(r.drop_last() =~= Seq::<(Seq<char>, JsonV)>::empty());
            assert(members_get(r.drop_last(), q).is_none());
            assert(members_get(s, q).is_none());
        }
    } else {
        let t = s.drop_first();
        assert(members_ascending(t)) by {
            assert forall|a: int, b: int| 0 <= a < b < t.len() implies seq_lt(
                #[trigger] t[a].0,
                #[trigger] t[b].0,
            ) by {
                assert(t[a] == s[a + 1] && t[b] == s[b + 1]);
            }
        }
        lemma_seq_lt_total(s[0].0, k);
        lemma_seq_lt_irrefl(k);
        if s[0].0 == k {
        } else if seq_lt(k, s[0].0) {
        } else {
            lemma_members_put_props(t, k, v);
        }
        assert(members_ascending(r)) by {
            assert forall|a: int, b: int| 0 <= a < b < r.len() implies seq_lt(
                #[trigger] r[a].0,
                #[trigger] r[b].0,
            ) by {
                if s[0].0 == k {
                    if a > 0 {
                        assert(r[a] == s[a] && r[b] == s[b]);
                    } else {
                        assert(r[b] == s[b]);
                    }
                } else if seq_lt(k, s[0].0) {
                    if a > 0 {
                        assert(r[a] == s[a - 1] && r[b] == s[b - 1]);
                    } else {
                        assert(r[b] == s[b - 1]);
                        if b - 1 > 0 {
                            lemma_seq_lt_trans(k, s[0].0, s[b - 1].0);
                        }
                    }
                } else {
                    let u = members_put(t, k, v);
                    if a > 0 {
                        assert(r[a] == u[a - 1] && r[b] == u[b - 1]);
                    } else {
                        assert(r[b] == u[b - 1]);
                        assert(members_keys(u).contains(u[b - 1].0));
                        assert(members_keys(t).insert(k).contains(u[b - 1].0));
                        if u[b - 1].0 == k {
                        } else {
                            let j = choose|j: int| 0 <= j < t.len() && #[trigger] t[j].0 == u[b - 1].0;
                            assert(t[j] == s[j + 1]);
                        }
                    }
                }
            }
        }
        lemma_members_get(r);
        lemma_members_get(s);
        assert(members_keys(r) =~= members_keys(s).insert(k)) by {
            if s[0].0 == k {
                assert forall|q: Seq<char>| members_keys(r).contains(q) implies members_keys(
                    s,
                ).insert(k).contains(q) by {
                    let j = choose|j: int| 0 <= j < r.len() && #[trigger] r[j].0 == q;
                    if j > 0 {
                        assert(r[j] == s[j]);
                    }
                }
                assert forall|q: Seq<char>| members_keys(s).insert(k).contains(q) implies members_keys(
                    r,
                ).contains(q) by {
                    if q == k {
                        assert(r[0].0 == q);
                    } else {
                        let j = choose|j: int| 0 <= j < s.len() && #[trigger] s[j].0 == q;
                        assert(r[j] == s[j]);
                    }
                }
            } else if seq_lt(k, s[0].0) {
                assert forall|q: Seq<char>| members_keys(r).contains(q) implies members_keys(
                    s,
                ).insert(k).contains(q) by {
                    let j = choose|j: int| 0 <= j < r.len() && #[trigger] r[j].0 == q;
                    if j > 0 {
                        assert(r[j] == s[j - 1]);
                    }
                }
                assert forall|q: Seq<char>| members_keys(s).insert(k).contains(q) implies members_keys(
                    r,
                ).contains(q) by {
                    if q == k {
                        assert(r[0].0 == q);
                    } else {
                        let j = choose|j: int| 0 <= j < s.len() && #[trigger] s[j].0 == q;
                        assert(r[j + 1] == s[j]);
                    }
                }
            } else {
                let u = members_put(t, k, v);
                assert forall|q: Seq<char>| members_keys(r).contains(q) implies members_keys(
                    s,
                ).insert(k).contains(q) by {
                    let j = choose|j: int| 0 <= j < r.len() && #[trigger] r[j].0 == q;
                    if j > 0 {
                        assert(r[j] == u[j - 1]);
                        assert(members_keys(u).contains(q));
                        if q != k {
                            let m = choose|m: int| 0 <= m < t.len() && #[trigger] t[m].0 == q;
                            assert(t[m] == s[m + 1]);
                        }
                    }
                }
                assert forall|q: Seq<char>| members_keys(s).insert(k).contains(q) implies members_keys(
                    r,
                ).contains(q) by {
                    if q == s[0].0 {
                        assert(r[0].0 == q);
                    } else {
                        if q != k {
                            let j = choose|j: int| 0 <= j < s.len() && #[trigger] s[j].0 == q;
                            assert(t[j - 1] == s[j]);
                            assert(members_keys(t).contains(q));
                        }
                        assert(members_keys(u).contains(q));
                        let m = choose|m: int| 0 <= m < u.len() && #[trigger] u[m].0 == q;
                        assert(r[m + 1] == u[m]);
                    }
                }
            }
        }
        assert(members_keys(r).contains(k));
        let jk = choose|j: int| 0 <= j < r.len() && #[trigger] r[j].0 == k;
        assert(r[jk].1 == v) by {
            if s[0].0 == k {
                if jk > 0 {
                    assert(r[jk] == s[jk]);
                    assert(seq_lt(s[0].0, s[jk].0));
                }
            } else if seq_lt(k, s[0].0) {
                if jk > 0 {
                    assert(r[jk] == s[jk - 1]);
                    if jk - 1 > 0 {
                        assert(seq_lt(s[0].0, s[jk - 1].0));
                        lemma_seq_lt_trans(k, s[0].0, s[jk - 1].0);
                    }
                }
            } else {
                let u = members_put(t, k, v);
                lemma_members_get(u);
                if jk == 0 {
                } else {
                    assert(r[jk] == u[jk - 1]);
                }
            }
        }
        assert forall|q: Seq<char>| q != k implies #[trigger] members_get(r, q) == members_get(
            s,
            q,
        ) by {
            if members_keys(s).contains(q) {
                let j = choose|j: int| 0 <= j < s.len() && #[trigger] s[j].0 == q;
                assert(members_keys(r).contains(q));
                let m = choose|m: int| 0 <= m < r.len() && #[trigger] r[m].0 == q;
                if s[0].0 == k {
                    assert(r[j] == s[j]);
                } else if seq_lt(k, s[0].0) {
                    assert(r[j + 1] == s[j]);
                } else {
                    let u = members_put(t, k, v);
                    lemma_members_get(u);
                    lemma_members_get(t);
                    if j == 0 {
                        assert(r[0] == s[0]);
                    } else {
                        assert(t[j - 1] == s[j]);
                        assert(members_keys(u).contains(q));
                        let w = choose|w: int| 0 <= w < u.len() && #[trigger] u[w].0 == q;
                        assert(r[w + 1] == u[w]);
                    }
                }
            } else {
                assert(!members_keys(r).contains(q));
            }
        }
    }
}

/// The value of `key` among object entries, as `members_get` finds it.
pub fn object_get<'a>(entries: &'a Vec<(String, Json)>, key: &str) -> (r: Option<&'a Json>)
    ensures
        match r {
            Some(j) => members_get(jv_members(entries@), key@) == Some(jv(*j)),
            None => members_get(jv_members(entries@), key@).is_none(),
        },
{
    let ghost m = jv_members(entries@);
    proof {
        lemma_jv_members(entries@);
        assert(m.take(m.len() as int) =~= m);
    }
    let mut i = entries.len();
    while i > 0
        invariant
            i <= entries@.len(),
            m == jv_members(entries@),
            m.len() == entries@.len(),
            forall|j: int| 0 <= j < m.len() ==> #[trigger] m[j] == (entries@[j].0@, jv(entries@[j].1)),
            members_get(m, key@) == members_get(m.take(i as int), key@),
        decreases i,
    {
        assert(m.take(i as int).last() == m[i - 1]);
        assert(m.take(i as int).drop_last() =~= m.take(i - 1));
        if crate::text::str_equal(entries[i - 1].0.as_str(), key) {
            return Some(&entries[i - 1].1);
        }
        i = i - 1;
    }
    None
}

/// Sets `key` to `value` among ascending object entries, as an ordered map does.
pub fn object_insert(entries: &mut Vec<(String, Json)>, key: String, value: Json)
    requires
        members_ascending(jv_members(old(entries)@)),
    ensures
        jv_members(final(entries)@) == members_put(jv_members(old(entries)@), key@, jv(value)),
        members_ascending(jv_members(final(entries)@)),
{
    let ghost s0 = entries@;
    let ghost m0 = jv_members(s0);
    let ghost k = key@;
    let ghost v = jv(value);
    proof {
        lemma_jv_members(s0);
    }
    let mut i: usize = 0;
    while i < entries.len() && str_less(entries[i].0.as_str(), key.as_str())
        invariant
            i <= entries@.len(),
            entries@ == s0,
            m0 == jv_members(s0),
            m0.len() == s0.len(),
            forall|j: int| 0 <= j < s0.len() ==> #[trigger] m0[j] == (s0[j].0@, jv(s0[j].1)),
            forall|j: int| 0 <= j < i ==> seq_lt(#[trigger] m0[j].0, k),
            k == key@,
        decreases entries@.len() - i,
    {
        assert(m0[i as int] == (s0[i as int].0@, jv(s0[i as int].1)));
        i = i + 1;
    }
    let same = i < entries.len() && crate::text::str_equal(entries[i].0.as_str(), key.as_str());
    proof {
        lemma_members_put(m0, k, v, i as int);
    }
    if same {
        entries.set(i, (key, value));
    } else {
        entries.insert(i, (key, value));
    }
    proof {
        let s1 = entries@;
        lemma_jv_members(s1);
        let target = members_put(m0, k, v);
        if same {
            assert(jv_members(s1) =~= m0.take(i as int) + seq![(k, v)] + m0.skip(i + 1)) by {
                assert forall|j: int| 0 <= j < s1.len() implies #[trigger] jv_members(s1)[j] == (
                m0.take(i as int) + seq![(k, v)] + m0.skip(i + 1))[j] by {
                    if j != i {
                        assert(s1[j] == s0[j]);
                    }
                }
            }
        } else {
            assert(jv_members(s1) =~= m0.take(i as int) + seq![(k, v)] + m0.skip(i as int)) by {
                assert forall|j: int| 0 <= j < s1.len() implies #[trigger] jv_members(s1)[j] == (
                m0.take(i as int) + seq![(k, v)] + m0.skip(i as int))[j] by {
                    if j < i {
                        assert(s1[j] == s0[j]);
                    } else if j > i {
                        assert(s1[j] == s0[j - 1]);
                    }
                }
            }
        }
        lemma_members_put_props(m0, k, v);
    }
}

} // verus!

verus! {

/// The compact JSON text that `serde_json::to_string` writes for a value.
pub uninterp spec fn json_text(j: JsonV) -> Seq<char>;

/// The compact JSON text of `j`, as `serde_json::to_string` writes it.
pub fn to_json_string(j: &Json) -> (s: String)
    ensures
        s@ == json_text(jv(*j)),
{
    crate::sources::json_to_text(j)
}

} // verus!
