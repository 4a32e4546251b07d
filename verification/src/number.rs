//! Numbers in expressions.
//!
//! The expression language computes with 64-bit floating-point numbers. The library
//! computes exactly those results that are integers of magnitude at most
//! `EXACT_LIMIT` (where floating-point arithmetic is exact), including the sign of
//! zero; where a result would need any other floating-point number the functions
//! here give `None`, and evaluation takes the result from the facts handed in (see
//! `facts`).
use vstd::prelude::*;
use crate::json::{EXACT_LIMIT, Real, RealV, seq_lt, str_less, whole_float_text};
use crate::lexer::is_digit;
use crate::branch_value::{float_body, float_body_syntax, float_whole, split_sign, whole_of_float};
use crate::state::{Value, ValueV};
use crate::text::{chars_of, str_equal};

verus! {

/// `n` is exactly a floating-point number with integer value.
pub open spec fn within(n: int) -> bool {
    -EXACT_LIMIT <= n <= EXACT_LIMIT
}

/// All characters are ASCII digits.
pub open spec fn all_digits(s: Seq<char>) -> bool {
    forall|i: int| 0 <= i < s.len() ==> is_digit(#[trigger] s[i])
}

/// All characters are `0`.
pub open spec fn all_zero(s: Seq<char>) -> bool {
    forall|i: int| 0 <= i < s.len() ==> #[trigger] s[i] == '0'
}

/// The value of a string of decimal digits.
pub open spec fn digits_value(s: Seq<char>) -> nat
    decreases s.len(),
{
    if s.len() == 0 {
        0
    } else {
        digits_value(s.drop_last()) * 10 + ((s.last() as int) - ('0' as int)) as nat
    }
}

/// An ASCII letter in lower case; other characters unchanged.
pub open spec fn ascii_lower(c: char) -> char {
    if 'A' <= c <= 'Z' {
        ((c as u32) + 32) as char
    } else {
        c
    }
}

/// The words that text-to-number conversion reads as infinity or not-a-number,
/// in any letter case.
pub open spec fn special_float_word(s: Seq<char>) -> bool {
    let l = s.map_values(|c: char| ascii_lower(c));
    l == seq!['i', 'n', 'f'] || l == seq!['i', 'n', 'f', 'i', 'n', 'i', 't', 'y'] || l == seq![
        'n',
        'a',
        'n',
    ]
}

/// An exact number: its integer value and whether it is negative zero.
pub type Exact = (int, bool);

/// The number that a string reads as when a value is used in arithmetic: text that
/// is not a floating-point number (see `float_syntax`) is zero; a whole number written
/// without exponent, of magnitude at most `EXACT_LIMIT`, is that number (`-0` and
/// `-0.0` are negative zero); any other number text needs floating-point conversion
/// and is unsupported.
pub open spec fn str_number(s: Seq<char>) -> Option<Exact> {
    let (neg, body) = split_sign(s);
    if !float_body_syntax(body) {
        Some((0, false))
    } else if special_float_word(body) {
        None
    } else {
        match whole_of_float(body) {
            Some(v) => Some(
                (if neg {
                    -(v as int)
                } else {
                    v as int
                }, neg && v == 0),
            ),
            None => None,
        }
    }
}

/// The integer value of a floating-point number, where it is exact.
pub open spec fn real_exact(r: RealV) -> Option<Exact> {
    match r.whole {
        Some(n) => if within(n as int) {
            Some((n as int, r.neg_zero && n == 0))
        } else {
            None
        },
        None => None,
    }
}

/// The number a value stands for in arithmetic: booleans are 0 and 1, strings are
/// read as numbers; `None` where that needs floating-point conversion.
pub open spec fn exact(v: ValueV) -> Option<Exact> {
    match v {
        ValueV::Bool(b) => Some(
            (if b {
                1
            } else {
                0
            }, false),
        ),
        ValueV::Int(n) => if within(n as int) {
            Some((n as int, false))
        } else {
            None
        },
        ValueV::Float(r) => real_exact(r),
        ValueV::Str(s) => str_number(s),
    }
}

/// The sign bit of an exact number.
pub open spec fn sign_bit(x: Exact) -> bool {
    x.0 < 0 || (x.0 == 0 && x.1)
}

/// The magnitude of an integer.
pub open spec fn magnitude(n: int) -> nat {
    if n < 0 {
        (-n) as nat
    } else {
        n as nat
    }
}

/// An arithmetic operation.
#[derive(Debug, Clone, Copy, PartialEq, Eq, Structural)]
pub enum ArithOp {
    Add,
    Sub,
    Mul,
    Div,
}

/// The floating-point result of an arithmetic operation on exact numbers, where it is
/// again an exact number: sums, differences and products within `EXACT_LIMIT`,
/// quotients that divide evenly, and zero for division by zero. Zero results carry
/// the sign that floating-point arithmetic gives them.
pub open spec fn exact_arith(op: ArithOp, x: Exact, y: Exact) -> Option<Exact> {
    let r = match op {
        ArithOp::Add => Some((x.0 + y.0, x.0 == 0 && y.0 == 0 && x.1 && y.1)),
        ArithOp::Sub => Some((x.0 - y.0, x.0 == 0 && y.0 == 0 && x.1 && !y.1)),
        ArithOp::Mul => Some((x.0 * y.0, x.0 * y.0 == 0 && sign_bit(x) != sign_bit(y))),
        ArithOp::Div => if y.0 == 0 {
            Some((0, false))
        } else if magnitude(x.0) % magnitude(y.0) != 0 {
            None
        } else {
            let q = (magnitude(x.0) / magnitude(y.0)) as int;
            Some(
                (if (x.0 < 0) != (y.0 < 0) {
                    -q
                } else {
                    q
                }, x.0 == 0 && sign_bit(x) != sign_bit(y)),
            )
        },
    };
    match r {
        Some(z) => if within(z.0) {
            Some(z)
        } else {
            None
        },
        None => None,
    }
}

/// The floating-point number with the exact value `z`.
pub open spec fn exact_real(z: Exact) -> RealV {
    RealV { text: whole_float_text(z.0, z.1), whole: Some(z.0 as i64), neg_zero: z.1 && z.0 == 0 }
}

/// The value of an arithmetic operation: an integer when both operands are integers,
/// a floating-point number otherwise; `None` where that needs a floating-point number
/// the library does not compute.
pub open spec fn arith_value(op: ArithOp, a: ValueV, b: ValueV) -> Option<ValueV> {
    match (exact(a), exact(b)) {
        (Some(x), Some(y)) => match exact_arith(op, x, y) {
            Some(z) => if a is Int && b is Int {
                Some(ValueV::Int(z.0 as i64))
            } else {
                Some(ValueV::Float(exact_real(z)))
            },
            None => None,
        },
        _ => None,
    }
}

/// The outcome of comparing two values.
#[derive(Debug, Clone, Copy, PartialEq, Eq, Structural)]
pub enum Comparison {
    Less,
    Equal,
    Greater,
    /// The values are of kinds that do not compare.
    Unordered,
}

/// The comparison of two integers.
pub open spec fn int_order(x: int, y: int) -> Comparison {
    if x < y {
        Comparison::Less
    } else if x == y {
        Comparison::Equal
    } else {
        Comparison::Greater
    }
}

/// The exact integer of a floating-point number, where it has one within the limit.
pub open spec fn real_int(r: RealV) -> Option<int> {
    match r.whole {
        Some(n) => if within(n as int) {
            Some(n as int)
        } else {
            None
        },
        None => None,
    }
}

/// How two values compare: numbers by value, strings character by character;
/// other pairs are unordered. `None` where a floating-point comparison is needed
/// that the library does not compute.
pub open spec fn compare_values(a: ValueV, b: ValueV) -> Option<Comparison> {
    match (a, b) {
        (ValueV::Int(x), ValueV::Int(y)) => Some(int_order(x as int, y as int)),
        (ValueV::Float(r), ValueV::Float(s)) => match (real_int(r), real_int(s)) {
            (Some(x), Some(y)) => Some(int_order(x, y)),
            _ => None,
        },
        (ValueV::Int(x), ValueV::Float(s)) => match real_int(s) {
            Some(y) => if within(x as int) {
                Some(int_order(x as int, y))
            } else {
                None
            },
            None => None,
        },
        (ValueV::Float(r), ValueV::Int(y)) => match real_int(r) {
            Some(x) => if within(y as int) {
                Some(int_order(x, y as int))
            } else {
                None
            },
            None => None,
        },
        (ValueV::Str(x), ValueV::Str(y)) => Some(
            if x == y {
                Comparison::Equal
            } else if seq_lt(x, y) {
                Comparison::Less
            } else {
                Comparison::Greater
            },
        ),
        _ => Some(Comparison::Unordered),
    }
}

/// Whether two values are equal: booleans, integers and strings by value, numbers of
/// either kind by numeric value; values of different kinds otherwise differ. `None`
/// where a floating-point comparison is needed that the library does not compute.
pub open spec fn equal_values(a: ValueV, b: ValueV) -> Option<bool> {
    match (a, b) {
        (ValueV::Bool(x), ValueV::Bool(y)) => Some(x == y),
        (ValueV::Int(x), ValueV::Int(y)) => Some(x == y),
        (ValueV::Str(x), ValueV::Str(y)) => Some(x == y),
        (ValueV::Float(r), ValueV::Float(s)) => match (real_int(r), real_int(s)) {
            (Some(x), Some(y)) => Some(x == y),
            (Some(_), None) => if s.whole.is_none() {
                Some(false)
            } else {
                None
            },
            (None, Some(_)) => if r.whole.is_none() {
                Some(false)
            } else {
                None
            },
            _ => None,
        },
        (ValueV::Int(x), ValueV::Float(s)) => int_float_equal(x as int, s),
        (ValueV::Float(r), ValueV::Int(y)) => int_float_equal(y as int, r),
        _ => Some(false),
    }
}

/// Whether an integer equals a floating-point number, where the library can tell.
pub open spec fn int_float_equal(x: int, s: RealV) -> Option<bool> {
    if !within(x) {
        None
    } else {
        match s.whole {
            None => Some(false),
            Some(n) => if within(n as int) {
                Some(x == n)
            } else {
                None
            },
        }
    }
}

/// The value of a number literal (digits with at most one `.`): the integer it names
/// when the fraction is all zeros and the integer is within the limit; otherwise the
/// literal names a floating-point number the library does not compute.
pub open spec fn literal_value(t: Seq<char>) -> Option<ValueV> {
    let d = dot_index(t, 0);
    let ip = t.subrange(0, d);
    let fp = if d < t.len() {
        t.subrange(d + 1, t.len() as int)
    } else {
        Seq::empty()
    };
    if all_digits(ip) && all_zero(fp) && digits_value(ip) <= EXACT_LIMIT {
        Some(ValueV::Int(digits_value(ip) as i64))
    } else {
        None
    }
}

/// The position of the first `.` at or after `i`, or the end of the text.
pub open spec fn dot_index(t: Seq<char>, i: int) -> int
    decreases t.len() - i,
{
    if 0 <= i < t.len() && t[i] != '.' {
        dot_index(t, i + 1)
    } else {
        i
    }
}

proof fn lemma_dot_index(t: Seq<char>, i: int)
    requires
        0 <= i <= t.len(),
    ensures
        i <= dot_index(t, i) <= t.len(),
    decreases t.len() - i,
{
    if i < t.len() && t[i] != '.' {
        lemma_dot_index(t, i + 1);
    }
}

/// The value of the digits `cs[from..to]`, capped at one past `cap`.
pub(crate) fn digits_capped(cs: &Vec<char>, from: usize, to: usize, cap: u64) -> (v: u64)
    requires
        from <= to <= cs@.len(),
        all_digits(cs@.subrange(from as int, to as int)),
        cap < u64::MAX,
    ensures
        v as int == if digits_value(cs@.subrange(from as int, to as int)) <= cap {
            digits_value(cs@.subrange(from as int, to as int)) as int
        } else {
            cap + 1
        },
{
    let mut v: u64 = 0;
    let mut i = from;
    while i < to
        invariant
            from <= i <= to <= cs@.len(),
            cap < u64::MAX,
            all_digits(cs@.subrange(from as int, to as int)),
            v as int == if digits_value(cs@.subrange(from as int, i as int)) <= cap {
                digits_value(cs@.subrange(from as int, i as int)) as int
            } else {
                cap + 1
            },
        decreases to - i,
    {
        let ghost s = cs@.subrange(from as int, i as int);
        let ghost s1 = cs@.subrange(from as int, i + 1);
        assert(s1.drop_last() =~= s);
        assert(s1.last() == cs@[i as int]);
        assert(is_digit(cs@.subrange(from as int, to as int)[i - from]));
        let d = (cs[i] as u32 - '0' as u32) as u128;
        assert(digits_value(s1) == digits_value(s) * 10 + d);
        let w: u128 = v as u128 * 10 + d;
        v = if w > cap as u128 {
            cap + 1
        } else {
            w as u64
        };
        i = i + 1;
    }
    v
}

/// The value of a number literal, where the library computes it.
pub fn literal_to_value(text: &str) -> (r: Option<Value>)
    ensures
        match r {
            Some(v) => literal_value(text@) == Some(v@),
            None => literal_value(text@).is_none(),
        },
{
    let t = chars_of(text);
    let n = t.len();
    let mut d: usize = 0;
    while d < n && t[d] != '.'
        invariant
            d <= n == t@.len(),
            t@ == text@,
            dot_index(t@, 0) == dot_index(t@, d as int),
        decreases n - d,
    {
        d = d + 1;
    }
    assert(dot_index(t@, d as int) == d as int);
    let mut i: usize = 0;
    while i < d
        invariant
            i <= d <= n,
            n == t@.len(),
            t@ == text@,
            dot_index(t@, 0) == d as int,
            forall|j: int| 0 <= j < i ==> is_digit(#[trigger] t@[j]),
        decreases d - i,
    {
        if !('0' <= t[i] && t[i] <= '9') {
            assert(!is_digit(t@.subrange(0, d as int)[i as int]));
            assert(!all_digits(t@.subrange(0, d as int)));
            assert(dot_index(text@, 0) == d);
            assert(literal_value(text@).is_none());
            return None;
        }
        i = i + 1;
    }
    assert(all_digits(t@.subrange(0, d as int))) by {
        assert forall|j: int| 0 <= j < d implies is_digit(#[trigger] t@.subrange(0, d as int)[j]) by {
            assert(t@.subrange(0, d as int)[j] == t@[j]);
        }
    }
    let ghost fp = if d < n {
        t@.subrange(d + 1, n as int)
    } else {
        Seq::empty()
    };
    if d < n {
        let mut k = d + 1;
        while k < n
            invariant
                d + 1 <= k <= n,
                n == t@.len(),
                d < n,
                fp == t@.subrange(d + 1, n as int),
                t@ == text@,
                dot_index(t@, 0) == d as int,
                forall|j: int| d + 1 <= j < k ==> #[trigger] t@[j] == '0',
            decreases n - k,
        {
            if t[k] != '0' {
                assert(fp[k - d - 1] != '0');
                assert(!all_zero(fp));
                return None;
            }
            k = k + 1;
        }
        assert(all_zero(fp)) by {
            assert forall|j: int| 0 <= j < fp.len() implies #[trigger] fp[j] == '0' by {
                assert(fp[j] == t@[j + d + 1]);
            }
        }
    }
    let v = digits_capped(&t, 0, d, EXACT_LIMIT as u64);
    if v > EXACT_LIMIT as u64 {
        None
    } else {
        Some(Value::Int(v as i64))
    }
}

} // verus!

verus! {

/// Whether `cs[from..]`, in ASCII lower case, is `word`.
pub(crate) fn lower_equals(cs: &Vec<char>, from: usize, word: &str) -> (b: bool)
    requires
        from <= cs@.len(),
    ensures
        b == (cs@.subrange(from as int, cs@.len() as int).map_values(|c: char| ascii_lower(c))
            == word@),
{
    let w = chars_of(word);
    let ghost body = cs@.subrange(from as int, cs@.len() as int);
    let ghost l = body.map_values(|c: char| ascii_lower(c));
    if cs.len() - from != w.len() {
        assert(l.len() != w@.len());
        return false;
    }
    let mut i: usize = 0;
    while i < w.len()
        invariant
            i <= w@.len(),
            w@ == word@,
            cs@.len() == from + w@.len(),
            from <= cs@.len(),
            body == cs@.subrange(from as int, cs@.len() as int),
            l == body.map_values(|c: char| ascii_lower(c)),
            forall|j: int| 0 <= j < i ==> #[trigger] l[j] == w@[j],
        decreases w@.len() - i,
    {
        let n = cs.len();
        assert(from + i < n);
        let c = cs[from + i];
        let lc = if 'A' <= c && c <= 'Z' {
            ((c as u32) + 32) as u8 as char
        } else {
            c
        };
        assert(body[i as int] == c);
        assert(lc == ascii_lower(c));
        if lc != w[i] {
            assert(l[i as int] != w@[i as int]);
            return false;
        }
        i = i + 1;
    }
    assert(l =~= w@);
    true
}

/// The number that a string reads as in arithmetic, where the library computes it.
pub fn str_to_exact(s: &str) -> (r: Option<(i64, bool)>)
    ensures
        match r {
            Some((n, z)) => str_number(s@) == Some((n as int, z)),
            None => str_number(s@).is_none(),
        },
{
    proof {
        reveal_strlit("inf");
        reveal_strlit("infinity");
        reveal_strlit("nan");
        assert("inf"@ =~= seq!['i', 'n', 'f']);
        assert("infinity"@ =~= seq!['i', 'n', 'f', 'i', 'n', 'i', 't', 'y']);
        assert("nan"@ =~= seq!['n', 'a', 'n']);
    }
    let cs = chars_of(s);
    let n = cs.len();
    let signed = n > 0 && (cs[0] == '+' || cs[0] == '-');
    let neg = n > 0 && cs[0] == '-';
    let from: usize = if signed {
        1
    } else {
        0
    };
    let ghost body = cs@.subrange(from as int, n as int);
    assert(split_sign(s@) == (neg, body)) by {
        if signed {
            assert(body =~= s@.drop_first());
        } else {
            assert(body =~= s@);
        }
    }
    if !float_body(&cs, from) {
        return Some((0, false));
    }
    if lower_equals(&cs, from, "inf") || lower_equals(&cs, from, "infinity") || lower_equals(
        &cs,
        from,
        "nan",
    ) {
        return None;
    }
    match float_whole(&cs, from) {
        Some(v) => {
            let m = v as i64;
            if neg {
                Some((-m, m == 0))
            } else {
                Some((m, false))
            }
        },
        None => None,
    }
}

/// The exact number a value stands for in arithmetic, where the library computes it.
pub fn value_exact(v: &Value) -> (r: Option<(i64, bool)>)
    ensures
        match r {
            Some((n, z)) => exact(v@) == Some((n as int, z)) && within(n as int),
            None => exact(v@).is_none(),
        },
{
    match v {
        Value::Bool(b) => Some(
            (if *b {
                1
            } else {
                0
            }, false),
        ),
        Value::Int(n) => if -EXACT_LIMIT <= *n && *n <= EXACT_LIMIT {
            Some((*n, false))
        } else {
            None
        },
        Value::Float(r) => match r.whole {
            Some(n) => if -EXACT_LIMIT <= n && n <= EXACT_LIMIT {
                Some((n, r.neg_zero && n == 0))
            } else {
                None
            },
            None => None,
        },
        Value::Str(s) => {
            let r = str_to_exact(s.as_str());
            proof {
                if let Some((n, z)) = r {
                    assert(within(n as int));
                }
            }
            r
        },
    }
}

/// The magnitude of an integer within the limit.
fn magnitude_of(n: i64) -> (m: u64)
    requires
        within(n as int),
    ensures
        m as int == magnitude(n as int),
{
    if n < 0 {
        (-n) as u64
    } else {
        n as u64
    }
}

/// The exact result of an arithmetic operation, where it is exact.
pub fn exact_arith_exec(op: ArithOp, x: (i64, bool), y: (i64, bool)) -> (r: Option<(i64, bool)>)
    requires
        within(x.0 as int),
        within(y.0 as int),
    ensures
        match r {
            Some(z) => exact_arith(op, (x.0 as int, x.1), (y.0 as int, y.1)) == Some(
                (z.0 as int, z.1),
            ),
            None => exact_arith(op, (x.0 as int, x.1), (y.0 as int, y.1)).is_none(),
        },
{
    let sx = x.0 < 0 || (x.0 == 0 && x.1);
    let sy = y.0 < 0 || (y.0 == 0 && y.1);
    let z: (i64, bool) = match op {
        ArithOp::Add => (x.0 + y.0, x.0 == 0 && y.0 == 0 && x.1 && y.1),
        ArithOp::Sub => (x.0 - y.0, x.0 == 0 && y.0 == 0 && x.1 && !y.1),
        ArithOp::Mul => match x.0.checked_mul(y.0) {
            Some(p) => (p, p == 0 && sx != sy),
            None => {
                return None;
            },
        },
        ArithOp::Div => {
            if y.0 == 0 {
                (0, false)
            } else {
                let mx = magnitude_of(x.0);
                let my = magnitude_of(y.0);
                if mx % my != 0 {
                    return None;
                }
                let q = (mx / my) as i64;
                assert(q <= mx) by (nonlinear_arith)
                    requires
                        q == mx / my,
                        my >= 1,
                ;
                (if (x.0 < 0) != (y.0 < 0) {
                    -q
                } else {
                    q
                }, x.0 == 0 && sx != sy)
            }
        },
    };
    if -EXACT_LIMIT <= z.0 && z.0 <= EXACT_LIMIT {
        Some(z)
    } else {
        None
    }
}

/// The value of an arithmetic operation on two values, where the library computes it.
pub fn arith_exec(op: ArithOp, a: &Value, b: &Value) -> (r: Option<Value>)
    ensures
        match r {
            Some(v) => arith_value(op, a@, b@) == Some(v@),
            None => arith_value(op, a@, b@).is_none(),
        },
{
    let x = match value_exact(a) {
        Some(x) => x,
        None => {
            return None;
        },
    };
    let y = match value_exact(b) {
        Some(y) => y,
        None => {
            return None;
        },
    };
    match exact_arith_exec(op, x, y) {
        Some(z) => {
            let both_int = matches!(a, Value::Int(_)) && matches!(b, Value::Int(_));
            if both_int {
                Some(Value::Int(z.0))
            } else {
                let r = Real::from_whole(z.0, z.1);
                assert(r@ == exact_real((z.0 as int, z.1)));
                Some(Value::Float(r))
            }
        },
        None => None,
    }
}

/// The integer of a floating-point number within the limit, if it has one.
fn real_int_exec(r: &Real) -> (o: Option<i64>)
    ensures
        match o {
            Some(n) => real_int(r@) == Some(n as int),
            None => real_int(r@).is_none(),
        },
{
    match r.whole {
        Some(n) => if -EXACT_LIMIT <= n && n <= EXACT_LIMIT {
            Some(n)
        } else {
            None
        },
        None => None,
    }
}

fn order(x: i64, y: i64) -> (c: Comparison)
    ensures
        c == int_order(x as int, y as int),
{
    if x < y {
        Comparison::Less
    } else if x == y {
        Comparison::Equal
    } else {
        Comparison::Greater
    }
}

/// How two values compare, where the library can tell.
pub fn compare_exec(a: &Value, b: &Value) -> (r: Option<Comparison>)
    ensures
        r == compare_values(a@, b@),
{
    match (a, b) {
        (Value::Int(x), Value::Int(y)) => Some(order(*x, *y)),
        (Value::Float(r), Value::Float(s)) => match (real_int_exec(r), real_int_exec(s)) {
            (Some(x), Some(y)) => Some(order(x, y)),
            _ => None,
        },
        (Value::Int(x), Value::Float(s)) => match real_int_exec(s) {
            Some(y) => if -EXACT_LIMIT <= *x && *x <= EXACT_LIMIT {
                Some(order(*x, y))
            } else {
                None
            },
            None => None,
        },
        (Value::Float(r), Value::Int(y)) => match real_int_exec(r) {
            Some(x) => if -EXACT_LIMIT <= *y && *y <= EXACT_LIMIT {
                Some(order(x, *y))
            } else {
                None
            },
            None => None,
        },
        (Value::Str(x), Value::Str(y)) => {
            if str_equal(x.as_str(), y.as_str()) {
                Some(Comparison::Equal)
            } else if str_less(x.as_str(), y.as_str()) {
                Some(Comparison::Less)
            } else {
                Some(Comparison::Greater)
            }
        },
        _ => Some(Comparison::Unordered),
    }
}

/// Whether an integer equals a floating-point number, where the library can tell.
fn int_float_equal_exec(x: i64, s: &Real) -> (r: Option<bool>)
    ensures
        r == int_float_equal(x as int, s@),
{
    if !(-EXACT_LIMIT <= x && x <= EXACT_LIMIT) {
        return None;
    }
    match s.whole {
        None => Some(false),
        Some(n) => if -EXACT_LIMIT <= n && n <= EXACT_LIMIT {
            Some(x == n)
        } else {
            None
        },
    }
}

/// Whether two values are equal, where the library can tell.
pub fn equal_exec(a: &Value, b: &Value) -> (r: Option<bool>)
    ensures
        r == equal_values(a@, b@),
{
    match (a, b) {
        (Value::Bool(x), Value::Bool(y)) => Some(*x == *y),
        (Value::Int(x), Value::Int(y)) => Some(*x == *y),
        (Value::Str(x), Value::Str(y)) => Some(str_equal(x.as_str(), y.as_str())),
        (Value::Float(r), Value::Float(s)) => match (real_int_exec(r), real_int_exec(s)) {
            (Some(x), Some(y)) => Some(x == y),
            (Some(_), None) => if s.whole.is_none() {
                Some(false)
            } else {
                None
            },
            (None, Some(_)) => if r.whole.is_none() {
                Some(false)
            } else {
                None
            },
            _ => None,
        },
        (Value::Int(x), Value::Float(s)) => int_float_equal_exec(*x, s),
        (Value::Float(r), Value::Int(y)) => int_float_equal_exec(*y, r),
        _ => Some(false),
    }
}

} // verus!
