//! Reading the text of a branch update as a JSON value.
use vstd::prelude::*;
use crate::json::{EXACT_LIMIT, Json, JsonV, Real, jv};
use crate::lexer::is_digit;
use crate::number::{
    all_digits, all_zero, digits_capped, digits_value, dot_index, exact_real, lower_equals,
    special_float_word,
};
use crate::text::{chars_of, str_equal};

verus! {

/// The text with one leading sign removed, and whether the sign was `-`.
pub open spec fn split_sign(s: Seq<char>) -> (bool, Seq<char>) {
    if s.len() > 0 && (s[0] == '+' || s[0] == '-') {
        (s[0] == '-', s.drop_first())
    } else {
        (false, s)
    }
}

/// The 64-bit integer that a text is (`str::parse::<i64>`): an optional sign and at
/// least one digit, within range.
pub open spec fn i64_parse(s: Seq<char>) -> Option<i64> {
    let (neg, body) = split_sign(s);
    if body.len() > 0 && all_digits(body) {
        let v = if neg {
            -(digits_value(body) as int)
        } else {
            digits_value(body) as int
        };
        if i64::MIN <= v <= i64::MAX {
            Some(v as i64)
        } else {
            None
        }
    } else {
        None
    }
}

/// The position of the first `e` or `E` at or after `i`, or the end.
pub open spec fn exp_index(t: Seq<char>, i: int) -> int
    decreases t.len() - i,
{
    if 0 <= i < t.len() && t[i] != 'e' && t[i] != 'E' {
        exp_index(t, i + 1)
    } else {
        i
    }
}

/// A decimal mantissa: digits, optionally a `.` and more digits, with at least one
/// digit, and at least one before the point when there is no point.
pub open spec fn mantissa_syntax(m: Seq<char>) -> bool {
    let d = dot_index(m, 0);
    let ip = m.subrange(0, d);
    let fp = if d < m.len() {
        m.subrange(d + 1, m.len() as int)
    } else {
        Seq::empty()
    };
    all_digits(ip) && all_digits(fp) && ip.len() + fp.len() > 0
}

/// An unsigned floating-point number text: `inf`, `infinity` or `nan` in any case,
/// or a mantissa with an optional exponent (`e` or `E`, optional sign, digits).
pub open spec fn float_body_syntax(body: Seq<char>) -> bool {
    special_float_word(body) || {
        let e = exp_index(body, 0);
        let m = body.subrange(0, e);
        mantissa_syntax(m) && (e == body.len() || {
            let x = split_sign(body.subrange(e + 1, body.len() as int)).1;
            x.len() > 0 && all_digits(x)
        })
    }
}

/// The text of a decimal floating-point number (`str::parse::<f64>` accepts exactly
/// these): an optional sign, then an unsigned floating-point number text.
pub open spec fn float_syntax(s: Seq<char>) -> bool {
    float_body_syntax(split_sign(s).1)
}

/// The magnitude of an unsigned floating-point number text, where it is a whole
/// number of magnitude at most `EXACT_LIMIT` written without exponent (the integer
/// part, with only zeros after the point).
pub open spec fn whole_of_float(body: Seq<char>) -> Option<nat> {
    let d = dot_index(body, 0);
    let ip = body.subrange(0, d);
    let fp = if d < body.len() {
        body.subrange(d + 1, body.len() as int)
    } else {
        Seq::empty()
    };
    if exp_index(body, 0) == body.len() && all_zero(fp) && digits_value(ip) <= EXACT_LIMIT {
        Some(digits_value(ip))
    } else {
        None
    }
}

/// The JSON value that a branch update text stands for: `true`, `false`, an
/// integer, a floating-point number (infinities and not-a-number become null), or
/// otherwise the text as a string. `None` where that needs a floating-point
/// conversion the library does not compute: a number that is not an integer of
/// magnitude at most `EXACT_LIMIT` written without exponent.
pub open spec fn branch_do_json(s: Seq<char>) -> Option<JsonV> {
    if s == seq!['t', 'r', 'u', 'e'] {
        Some(JsonV::Bool(true))
    } else if s == seq!['f', 'a', 'l', 's', 'e'] {
        Some(JsonV::Bool(false))
    } else if i64_parse(s) is Some {
        Some(JsonV::Int(i64_parse(s).unwrap()))
    } else if float_syntax(s) {
        let (neg, body) = split_sign(s);
        if special_float_word(body) {
            Some(JsonV::Null)
        } else {
            match whole_of_float(body) {
                Some(v) => Some(
                    JsonV::Float(
                        exact_real(
                            (if neg {
                                -(v as int)
                            } else {
                                v as int
                            }, neg && v == 0),
                        ),
                    ),
                ),
                None => None,
            }
        }
    } else {
        Some(JsonV::Str(s))
    }
}

/// Whether all of `cs[from..to]` are ASCII digits.
pub(crate) fn digits_between(cs: &Vec<char>, from: usize, to: usize) -> (b: bool)
    requires
        from <= to <= cs@.len(),
    ensures
        b == all_digits(cs@.subrange(from as int, to as int)),
{
    let ghost t = cs@.subrange(from as int, to as int);
    let mut i = from;
    while i < to
        invariant
            from <= i <= to <= cs@.len(),
            t == cs@.subrange(from as int, to as int),
            forall|j: int| from <= j < i ==> is_digit(#[trigger] cs@[j]),
        decreases to - i,
    {
        if !('0' <= cs[i] && cs[i] <= '9') {
            assert(!is_digit(t[i - from]));
            return false;
        }
        i = i + 1;
    }
    assert forall|j: int| 0 <= j < t.len() implies is_digit(#[trigger] t[j]) by {
        assert(t[j] == cs@[j + from]);
    }
    true
}

/// Whether all of `cs[from..to]` are `0`.
fn zeros_between(cs: &Vec<char>, from: usize, to: usize) -> (b: bool)
    requires
        from <= to <= cs@.len(),
    ensures
        b == all_zero(cs@.subrange(from as int, to as int)),
{
    let ghost t = cs@.subrange(from as int, to as int);
    let mut i = from;
    while i < to
        invariant
            from <= i <= to <= cs@.len(),
            t == cs@.subrange(from as int, to as int),
            forall|j: int| from <= j < i ==> #[trigger] cs@[j] == '0',
        decreases to - i,
    {
        if cs[i] != '0' {
            assert(t[i - from] != '0');
            return false;
        }
        i = i + 1;
    }
    assert forall|j: int| 0 <= j < t.len() implies #[trigger] t[j] == '0' by {
        assert(t[j] == cs@[j + from]);
    }
    true
}

/// The position of the first `e` or `E` in `cs[from..]`, or the end.
fn exp_position(cs: &Vec<char>, from: usize) -> (e: usize)
    requires
        from <= cs@.len(),
    ensures
        from <= e <= cs@.len(),
        e - from == exp_index(cs@.subrange(from as int, cs@.len() as int), 0),
{
    let ghost body = cs@.subrange(from as int, cs@.len() as int);
    let n = cs.len();
    let mut e = from;
    while e < n && cs[e] != 'e' && cs[e] != 'E'
        invariant
            from <= e <= n == cs@.len(),
            body == cs@.subrange(from as int, n as int),
            exp_index(body, 0) == exp_index(body, e - from),
        decreases n - e,
    {
        assert(body[e - from] == cs@[e as int]);
        e = e + 1;
    }
    if e < n {
        assert(body[e - from] == cs@[e as int]);
    }
    e
}

/// The position of the first `.` in `cs[from..to]`, or `to`.
fn dot_position(cs: &Vec<char>, from: usize, to: usize) -> (d: usize)
    requires
        from <= to <= cs@.len(),
    ensures
        from <= d <= to,
        d - from == dot_index(cs@.subrange(from as int, to as int), 0),
{
    let ghost m = cs@.subrange(from as int, to as int);
    let mut d = from;
    while d < to && cs[d] != '.'
        invariant
            from <= d <= to <= cs@.len(),
            m == cs@.subrange(from as int, to as int),
            dot_index(m, 0) == dot_index(m, d - from),
        decreases to - d,
    {
        assert(m[d - from] == cs@[d as int]);
        d = d + 1;
    }
    if d < to {
        assert(m[d - from] == cs@[d as int]);
    }
    d
}

/// Whether `cs[from..]` is an unsigned floating-point number text.
pub(crate) fn float_body(cs: &Vec<char>, from: usize) -> (b: bool)
    requires
        from <= cs@.len(),
    ensures
        b == float_body_syntax(cs@.subrange(from as int, cs@.len() as int)),
{
    proof {
        reveal_strlit("inf");
        reveal_strlit("infinity");
        reveal_strlit("nan");
        assert("inf"@ =~= seq!['i', 'n', 'f']);
        assert("infinity"@ =~= seq!['i', 'n', 'f', 'i', 'n', 'i', 't', 'y']);
        assert("nan"@ =~= seq!['n', 'a', 'n']);
    }
    let ghost body = cs@.subrange(from as int, cs@.len() as int);
    if lower_equals(cs, from, "inf") || lower_equals(cs, from, "infinity") || lower_equals(
        cs,
        from,
        "nan",
    ) {
        return true;
    }
    let n = cs.len();
    let e = exp_position(cs, from);
    let ghost m = body.subrange(0, e - from);
    assert(m =~= cs@.subrange(from as int, e as int));
    let d = dot_position(cs, from, e);
    assert(m.subrange(0, d - from) =~= cs@.subrange(from as int, d as int));
    if d < e {
        assert(m.subrange(d - from + 1, m.len() as int) =~= cs@.subrange(d + 1, e as int));
    }
    let ip_ok = digits_between(cs, from, d);
    let fp_ok = d == e || digits_between(cs, d + 1, e);
    let fp_len: usize = if d < e {
        e - d - 1
    } else {
        0
    };
    assert(fp_ok == all_digits(
        if d < e {
            cs@.subrange(d + 1, e as int)
        } else {
            Seq::<char>::empty()
        },
    ));
    let mantissa_ok = ip_ok && fp_ok && (d - from) + fp_len > 0;
    assert(mantissa_ok == mantissa_syntax(m));
    if !mantissa_ok {
        return false;
    }
    if e == n {
        return true;
    }
    let ghost rest = body.subrange(e - from + 1, body.len() as int);
    assert(rest =~= cs@.subrange(e + 1, n as int));
    let xs: usize = if e + 1 < n && (cs[e + 1] == '+' || cs[e + 1] == '-') {
        e + 2
    } else {
        e + 1
    };
    assert(split_sign(rest).1 =~= cs@.subrange(xs as int, n as int));
    xs < n && digits_between(cs, xs, n)
}

/// The magnitude of the unsigned floating-point number text `cs[from..]`, where it is
/// a whole number that the library computes exactly.
pub(crate) fn float_whole(cs: &Vec<char>, from: usize) -> (r: Option<u64>)
    requires
        from <= cs@.len(),
        float_body_syntax(cs@.subrange(from as int, cs@.len() as int)),
        !special_float_word(cs@.subrange(from as int, cs@.len() as int)),
    ensures
        match r {
            Some(v) => whole_of_float(cs@.subrange(from as int, cs@.len() as int)) == Some(
                v as nat,
            ) && v <= EXACT_LIMIT,
            None => whole_of_float(cs@.subrange(from as int, cs@.len() as int)).is_none(),
        },
{
    let ghost body = cs@.subrange(from as int, cs@.len() as int);
    let n = cs.len();
    let e = exp_position(cs, from);
    if e < n {
        return None;
    }
    let d = dot_position(cs, from, n);
    proof {
        assert(body.subrange(0, d - from) =~= cs@.subrange(from as int, d as int));
        if d < n {
            assert(body.subrange(d - from + 1, body.len() as int) =~= cs@.subrange(d + 1, n as int));
        }
        assert(body.subrange(0, body.len() as int) =~= body);
    }
    let fp_zero = d == n || zeros_between(cs, d + 1, n);
    if !fp_zero {
        return None;
    }
    let v = digits_capped(cs, from, d, EXACT_LIMIT as u64);
    if v > EXACT_LIMIT as u64 {
        return None;
    }
    Some(v)
}

/// The value of a decimal integer text, where it fits in 64 bits.
fn integer_text(cs: &Vec<char>, from: usize, neg: bool) -> (r: Option<i64>)
    requires
        from < cs@.len(),
        all_digits(cs@.subrange(from as int, cs@.len() as int)),
    ensures
        ({
            let dv = digits_value(cs@.subrange(from as int, cs@.len() as int)) as int;
            let v = if neg {
                -dv
            } else {
                dv
            };
            match r {
                Some(x) => x as int == v,
                None => !(i64::MIN <= v <= i64::MAX),
            }
        }),
{
    let v = digits_capped(cs, from, cs.len(), 0x8000_0000_0000_0000u64);
    if neg {
        if v == 0x8000_0000_0000_0000u64 {
            Some(i64::MIN)
        } else if v < 0x8000_0000_0000_0000u64 {
            Some(-(v as i64))
        } else {
            None
        }
    } else if v <= i64::MAX as u64 {
        Some(v as i64)
    } else {
        None
    }
}

/// The JSON value that a branch update text stands for: `true`, `false`, an
/// integer, a whole floating-point number, infinity or not-a-number (as null), or the
/// text as a string. `None` where it needs a floating-point conversion that the
/// library does not compute.
pub fn parse_branch_do_value(s: &str) -> (r: Option<Json>)
    ensures
        match r {
            Some(j) => branch_do_json(s@) == Some(jv(j)),
            None => branch_do_json(s@).is_none(),
        },
{
    proof {
        reveal_strlit("true");
        reveal_strlit("false");
        assert("true"@ =~= seq!['t', 'r', 'u', 'e']);
        assert("false"@ =~= seq!['f', 'a', 'l', 's', 'e']);
    }
    if str_equal(s, "true") {
        return Some(Json::Bool(true));
    }
    if str_equal(s, "false") {
        return Some(Json::Bool(false));
    }
    let cs = chars_of(s);
    let n = cs.len();
    let signed = n > 0 && (cs[0] == '+' || cs[0] == '-');
    let neg = n > 0 && cs[0] == '-';
    let from: usize = if signed {
        1
    } else {
        0
    };
    let ghost body = cs@.subrange(from as int, n as int);
    assert(split_sign(s@) == (neg, body)) by {
        if signed {
            assert(body =~= s@.drop_first());
        } else {
            assert(body =~= s@);
        }
    }
    if from < n && digits_between(&cs, from, n) {
        match integer_text(&cs, from, neg) {
            Some(x) => {
                return Some(Json::Int(x));
            },
            None => {},
        }
    }
    assert(i64_parse(s@).is_none());
    if !float_body(&cs, from) {
        return Some(Json::Str(s.to_string()));
    }
    if lower_equals(&cs, from, "inf") || lower_equals(&cs, from, "infinity") || lower_equals(
        &cs,
        from,
        "nan",
    ) {
        proof {
            reveal_strlit("inf");
            reveal_strlit("infinity");
            reveal_strlit("nan");
            assert("inf"@ =~= seq!['i', 'n', 'f']);
            assert("infinity"@ =~= seq!['i', 'n', 'f', 'i', 'n', 'i', 't', 'y']);
            assert("nan"@ =~= seq!['n', 'a', 'n']);
        }
        return Some(Json::Null);
    }
    proof {
        reveal_strlit("inf");
        reveal_strlit("infinity");
        reveal_strlit("nan");
        assert("inf"@ =~= seq!['i', 'n', 'f']);
        assert("infinity"@ =~= seq!['i', 'n', 'f', 'i', 'n', 'i', 't', 'y']);
        assert("nan"@ =~= seq!['n', 'a', 'n']);
        assert(!special_float_word(body));
    }
    match float_whole(&cs, from) {
        Some(v) => {
            let x: i64 = if neg {
                -(v as i64)
            } else {
                v as i64
            };
            Some(Json::Float(Real::from_whole(x, neg && v == 0)))
        },
        None => None,
    }
}

} // verus!
