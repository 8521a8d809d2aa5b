//! Decimal numerals: `-?[0-9]+(\.[0-9]+)?`, held exactly as a mantissa and a
//! count of fraction digits.
use vstd::prelude::*;

verus! {

pub open spec fn is_digit(c: char) -> bool {
    '0' <= c && c <= '9'
}

pub open spec fn digit_value(c: char) -> int {
    c as int - '0' as int
}

pub open spec fn all_digits(s: Seq<char>) -> bool {
    forall|i: int| 0 <= i < s.len() ==> is_digit(#[trigger] s[i])
}

/// The value of a run of decimal digits, most significant first.
pub open spec fn digits_value(s: Seq<char>) -> int
    decreases s.len(),
{
    if s.len() == 0 {
        0
    } else {
        digits_value(s.drop_last()) * 10 + digit_value(s.last())
    }
}

/// Index of the first `.` in `s`, or `s.len()` when there is none.
pub open spec fn dot_at(s: Seq<char>) -> int
    decreases s.len(),
{
    if s.len() == 0 {
        0
    } else if s[0] == '.' {
        0
    } else {
        1 + dot_at(s.drop_first())
    }
}

pub open spec fn is_negative(t: Seq<char>) -> bool {
    t.len() > 0 && t[0] == '-'
}

/// The text after an optional leading minus sign.
pub open spec fn unsigned_part(t: Seq<char>) -> Seq<char> {
    if is_negative(t) {
        t.drop_first()
    } else {
        t
    }
}

pub open spec fn int_digits(t: Seq<char>) -> Seq<char> {
    let b = unsigned_part(t);
    b.subrange(0, dot_at(b))
}

pub open spec fn frac_digits(t: Seq<char>) -> Seq<char> {
    let b = unsigned_part(t);
    if dot_at(b) < b.len() {
        b.subrange(dot_at(b) + 1, b.len() as int)
    } else {
        Seq::empty()
    }
}

/// `t` is written `-?[0-9]+(\.[0-9]+)?`.
pub open spec fn is_decimal(t: Seq<char>) -> bool {
    let b = unsigned_part(t);
    &&& int_digits(t).len() > 0
    &&& all_digits(int_digits(t))
    &&& all_digits(frac_digits(t))
    &&& (dot_at(b) < b.len() ==> frac_digits(t).len() > 0)
}

/// The exact value of a decimal text times ten to the number of its fraction
/// digits: `"-1.25"` has mantissa -125 and scale 2.
pub open spec fn mantissa(t: Seq<char>) -> int {
    let m = digits_value(int_digits(t) + frac_digits(t));
    if is_negative(t) {
        -m
    } else {
        m
    }
}

pub open spec fn scale(t: Seq<char>) -> nat {
    frac_digits(t).len()
}

pub open spec fn fits_i64(m: int) -> bool {
    i64::MIN <= m && m <= i64::MAX
}

/// Why a numeral was refused.
#[derive(Clone, Copy, Debug, PartialEq, Eq, Structural)]
pub enum NumberError {
    /// The text is not of the form `-?[0-9]+(\.[0-9]+)?`.
    Malformed,
    /// The mantissa does not fit in an `i64`.
    OutOfRange,
}

pub open spec fn decimal_spec(t: Seq<char>) -> Result<(i64, usize), NumberError> {
    if !is_decimal(t) {
        Err(NumberError::Malformed)
    } else if !fits_i64(mantissa(t)) {
        Err(NumberError::OutOfRange)
    } else {
        Ok((mantissa(t) as i64, scale(t) as usize))
    }
}


pub(crate) proof fn lemma_dot_at_skip(s: Seq<char>, k: int)
    requires
        0 <= k <= s.len(),
        forall|i: int| 0 <= i < k ==> s[i] != '.',
    ensures
        dot_at(s) == k + dot_at(s.subrange(k, s.len() as int)),
    decreases k,
{
    if k == 0 {
        assert(s.subrange(0, s.len() as int) =~= s);
    } else {
        let t = s.drop_first();
        lemma_dot_at_skip(t, k - 1);
        assert(t.subrange(k - 1, t.len() as int) =~= s.subrange(k, s.len() as int));
    }
}

proof fn lemma_dot_at_bounds(s: Seq<char>)
    ensures
        0 <= dot_at(s) <= s.len(),
        dot_at(s) < s.len() ==> s[dot_at(s)] == '.',
    decreases s.len(),
{
    if s.len() > 0 && s[0] != '.' {
        lemma_dot_at_bounds(s.drop_first());
    }
}

proof fn lemma_digits_value_step(a: Seq<char>, b: Seq<char>, j: int)
    requires
        0 <= j < b.len(),
    ensures
        digits_value(a + b.subrange(0, j + 1)) == digits_value(a + b.subrange(0, j)) * 10
            + digit_value(b[j]),
{
    let x = a + b.subrange(0, j + 1);
    assert(x.drop_last() =~= a + b.subrange(0, j));
}

proof fn lemma_digits_value_nonneg(s: Seq<char>)
    requires
        all_digits(s),
    ensures
        digits_value(s) >= 0,
    decreases s.len(),
{
    if s.len() > 0 {
        lemma_digits_value_nonneg(s.drop_last());
    }
}

/// Appending digits never makes a value smaller.
proof fn lemma_digits_value_grows(a: Seq<char>, b: Seq<char>, j: int, k: int)
    requires
        0 <= j <= k <= b.len(),
        all_digits(a),
        all_digits(b),
    ensures
        digits_value(a + b.subrange(0, j)) <= digits_value(a + b.subrange(0, k)),
    decreases k - j,
{
    if j < k {
        lemma_digits_value_grows(a, b, j, k - 1);
        lemma_digits_value_step(a, b, k - 1);
        assert(all_digits(a + b.subrange(0, k - 1)));
        lemma_digits_value_nonneg(a + b.subrange(0, k - 1));
    }
}

/// Reads a decimal numeral.
pub fn parse_decimal(text: &str) -> (r: Result<(i64, usize), NumberError>)
    ensures
        r == decimal_spec(text@),
{
    let ghost t = text@;
    let n = text.unicode_len();
    let neg = n > 0 && text.get_char(0) == '-';
    assert(neg == is_negative(t));
    let start: usize = if neg { 1 } else { 0 };
    let ghost b = unsigned_part(t);
    assert(b =~= t.subrange(start as int, n as int));
    // the integer part runs up to the first character that is not a digit
    let mut d: usize = start;
    while d < n && '0' <= text.get_char(d) && text.get_char(d) <= '9'
        invariant
            start <= d <= n,
            t == text@,
            n == t.len(),
            b =~= t.subrange(start as int, n as int),
            forall|i: int| start <= i < d ==> is_digit(#[trigger] t[i]),
        decreases n - d,
    {
        d = d + 1;
    }
    proof {
        lemma_dot_at_skip(b, d - start);
    }
    let has_dot = d < n && text.get_char(d) == '.';
    proof {
        let rest = b.subrange(d - start, b.len() as int);
        lemma_dot_at_bounds(rest);
        if d < n {
            assert(rest[0] == t[d as int]);
            if !has_dot {
                assert(rest.drop_first().len() < rest.len());
                lemma_dot_at_bounds(rest.drop_first());
            }
        }
        if has_dot || d == n {
            assert(dot_at(b) == d - start);
            assert(int_digits(t) =~= t.subrange(start as int, d as int));
        }
    }
    if d < n && !has_dot {
        proof {
            // the integer part stops before a character that is neither a digit nor a dot
            assert(int_digits(t)[d - start] == t[d as int]);
            assert(!is_digit(t[d as int]));
        }
        return Err(NumberError::Malformed);
    }
    if d == start {
        return Err(NumberError::Malformed);
    }
    let mut e: usize = if has_dot { d + 1 } else { d };
    while e < n && '0' <= text.get_char(e) && text.get_char(e) <= '9'
        invariant
            d <= e <= n,
            has_dot ==> d + 1 <= e,
            t == text@,
            n == t.len(),
            forall|i: int| (d + 1) <= i < e ==> is_digit(#[trigger] t[i]),
        decreases n - e,
    {
        e = e + 1;
    }
    proof {
        if has_dot {
            assert(frac_digits(t) =~= t.subrange(d + 1, n as int));
        } else {
            assert(frac_digits(t) =~= Seq::<char>::empty());
        }
    }
    if e < n || (has_dot && e == d + 1) {
        proof {
            if e < n {
                assert(has_dot);
                assert(frac_digits(t)[e - d - 1] == t[e as int]);
            }
        }
        return Err(NumberError::Malformed);
    }
    assert(is_decimal(t));
    let ghost ip = int_digits(t);
    let ghost fp = frac_digits(t);
    let limit: u64 = if neg { 9223372036854775808 } else { 9223372036854775807 };
    let mut acc: u64 = 0;
    let mut i: usize = start;
    while i < d
        invariant
            start <= i <= d,
            d <= n,
            t == text@,
            n == t.len(),
            forall|q: int| start <= q < d ==> is_digit(#[trigger] t[q]),
            ip =~= t.subrange(start as int, d as int),
            all_digits(ip),
            all_digits(fp),
            acc <= limit,
            neg == is_negative(t),
            is_decimal(t),
            ip == int_digits(t),
            fp == frac_digits(t),
            limit == (if neg { 9223372036854775808u64 } else { 9223372036854775807u64 }),
            acc == digits_value(Seq::<char>::empty() + ip.subrange(0, i - start)),
        decreases d - i,
    {
        let c = text.get_char(i);
        assert(is_digit(t[i as int]));
        let v = (c as u32 - '0' as u32) as u64;
        proof {
            lemma_digits_value_step(Seq::<char>::empty(), ip, i - start);
            assert(ip[i - start] == c);
        }
        if acc > (limit - v) / 10 {
            assert(acc * 10 + v > limit) by (nonlinear_arith)
                requires
                    acc > (limit - v) / 10,
                    v <= 9,
                    limit >= 9,
            ;
            proof {
                let e0 = Seq::<char>::empty();
                lemma_digits_value_grows(e0, ip, i - start + 1, ip.len() as int);
                assert(e0 + ip.subrange(0, ip.len() as int) =~= ip);
                lemma_digits_value_grows(ip, fp, 0, fp.len() as int);
                assert(ip + fp.subrange(0, 0) =~= ip);
                assert(ip + fp.subrange(0, fp.len() as int) =~= ip + fp);
                assert(digits_value(ip + fp) > limit);
                assert(is_negative(t) == neg);
            }
            return Err(NumberError::OutOfRange);
        }
        assert(acc * 10 + v <= limit) by (nonlinear_arith)
            requires
                acc <= (limit - v) / 10,
                v <= 9,
                limit >= 9,
        ;
        acc = acc * 10 + v;
        i = i + 1;
    }
    assert(Seq::<char>::empty() + ip.subrange(0, ip.len() as int) =~= ip + fp.subrange(0, 0));
    if has_dot {
    let mut k: usize = d + 1;
    while k < n
        invariant
            has_dot,
            d + 1 <= k <= n,
            t == text@,
            n == t.len(),
            forall|q: int| d + 1 <= q < n ==> is_digit(#[trigger] t[q]),
            fp =~= t.subrange(d + 1, n as int),
            all_digits(ip),
            all_digits(fp),
            acc <= limit,
            neg == is_negative(t),
            is_decimal(t),
            ip == int_digits(t),
            fp == frac_digits(t),
            limit == (if neg { 9223372036854775808u64 } else { 9223372036854775807u64 }),
            acc == digits_value(ip + fp.subrange(0, k - d - 1)),
        decreases n - k,
    {
        let c = text.get_char(k);
        assert(is_digit(t[k as int]));
        let v = (c as u32 - '0' as u32) as u64;
        proof {
            lemma_digits_value_step(ip, fp, k - d - 1);
            assert(fp[k - d - 1] == c);
        }
        if acc > (limit - v) / 10 {
            assert(acc * 10 + v > limit) by (nonlinear_arith)
                requires
                    acc > (limit - v) / 10,
                    v <= 9,
                    limit >= 9,
            ;
            proof {
                lemma_digits_value_grows(ip, fp, k - d, fp.len() as int);
                assert(ip + fp.subrange(0, fp.len() as int) =~= ip + fp);
                assert(digits_value(ip + fp) > limit);
                assert(is_negative(t) == neg);
            }
            return Err(NumberError::OutOfRange);
        }
        assert(acc * 10 + v <= limit) by (nonlinear_arith)
            requires
                acc <= (limit - v) / 10,
                v <= 9,
                limit >= 9,
        ;
        acc = acc * 10 + v;
        k = k + 1;
    }
    }
    proof {
        if has_dot {
            assert(fp.subrange(0, n - d - 1) =~= fp);
        } else {
            assert(fp.subrange(0, 0) =~= fp);
        }
    }
    let m: i64 = if !neg {
        acc as i64
    } else if acc == 9223372036854775808 {
        i64::MIN
    } else {
        -(acc as i64)
    };
    Ok((m, e - d - if has_dot { 1usize } else { 0usize }))
}

} // verus!
