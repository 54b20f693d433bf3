//! Sizes as the download page displays them, such as `10KB` or `1.5 GB`.
use vstd::prelude::*;
use crate::text::{chars_of, is_space, is_space_char, lemma_trim_start_skip, lower_char, to_lower_char, trim_start};

verus! {

/// Whether `c` is an ASCII decimal digit.
pub open spec fn is_digit(c: char) -> bool {
    '0' <= c <= '9'
}

/// The value of an ASCII digit.
pub open spec fn digit_value(c: char) -> nat {
    ((c as u32) - ('0' as u32)) as nat
}

/// The number that a run of decimal digits denotes.
pub open spec fn digits_value(d: Seq<char>) -> nat
    decreases d.len(),
{
    if d.len() == 0 {
        0
    } else {
        digits_value(d.drop_last()) * 10 + digit_value(d.last())
    }
}

/// How many decimal digits `s` starts with.
pub open spec fn leading_digits(s: Seq<char>) -> nat
    decreases s.len(),
{
    if s.len() > 0 && is_digit(s[0]) {
        1 + leading_digits(s.drop_first())
    } else {
        0
    }
}

/// `10` to the power `n`.
pub open spec fn pow10(n: nat) -> nat
    decreases n,
{
    if n == 0 {
        1
    } else {
        10 * pow10((n - 1) as nat)
    }
}

/// The power of 1024 that a unit stands for: `B`, `KB`, `MB`, `GB`, `TB`,
/// in any ASCII case.
pub open spec fn unit_exponent(u: Seq<char>) -> Option<nat> {
    if u.len() == 1 && lower_char(u[0]) == 'b' {
        Some(0)
    } else if u.len() == 2 && lower_char(u[1]) == 'b' {
        let p = lower_char(u[0]);
        if p == 'k' {
            Some(1)
        } else if p == 'm' {
            Some(2)
        } else if p == 'g' {
            Some(3)
        } else if p == 't' {
            Some(4)
        } else {
            None
        }
    } else {
        None
    }
}

/// `1024` to the power `k`.
pub open spec fn pow1024(k: nat) -> nat
    decreases k,
{
    if k == 0 {
        1
    } else {
        1024 * pow1024((k - 1) as nat)
    }
}

/// `m * 1024^e / 10^f`, rounded down.
pub open spec fn scaled(m: nat, e: nat, f: nat) -> nat {
    m * pow1024(e) / pow10(f)
}

/// The byte count that a displayed size stands for.
///
/// The text is a decimal number (digits, then optionally a point and more
/// digits), optional white space, and a unit. The result is the number times
/// the unit, rounded down. It is `None` when the text has another shape, when
/// its digits read without the point exceed `u64::MAX`, or when the byte count
/// does.
pub open spec fn display_size_bytes(s: Seq<char>) -> Option<u64> {
    let n = leading_digits(s);
    let rest = s.skip(n as int);
    let has_point = rest.len() > 0 && rest[0] == '.';
    let f: nat = if has_point { leading_digits(rest.skip(1)) } else { 0 };
    let frac = if has_point { rest.skip(1).take(f as int) } else { Seq::empty() };
    let after = if has_point { rest.skip(1 + f as int) } else { rest };
    let mantissa = digits_value(s.take(n as int) + frac);
    if n == 0 || (has_point && f == 0) || mantissa > u64::MAX {
        None
    } else {
        match unit_exponent(trim_start(after)) {
            None => None,
            Some(k) => {
                let bytes = scaled(mantissa, k, f);
                if bytes > u64::MAX {
                    None
                } else {
                    Some(bytes as u64)
                }
            },
        }
    }
}

proof fn lemma_leading_digits(s: Seq<char>, i: int)
    requires
        0 <= i <= s.len(),
        forall|k: int| 0 <= k < i ==> is_digit(#[trigger] s[k]),
        i == s.len() || !is_digit(s[i]),
    ensures
        leading_digits(s) == i,
    decreases i,
{
    if i > 0 {
        assert forall|k: int| 0 <= k < i - 1 implies is_digit(#[trigger] s.drop_first()[k]) by {
            assert(s.drop_first()[k] == s[k + 1]);
        }
        if i < s.len() {
            assert(s.drop_first()[i - 1] == s[i]);
        }
        lemma_leading_digits(s.drop_first(), i - 1);
    }
}

proof fn lemma_digits_value_grows(d: Seq<char>, c: char)
    requires
        is_digit(c),
    ensures
        digits_value(d.push(c)) >= digits_value(d),
        digits_value(d.push(c)) == digits_value(d) * 10 + digit_value(c),
{
    assert(d.push(c).drop_last() =~= d);
}

proof fn lemma_digits_value_prefix(d: Seq<char>, i: int)
    requires
        0 <= i <= d.len(),
        forall|k: int| 0 <= k < d.len() ==> is_digit(#[trigger] d[k]),
    ensures
        digits_value(d.take(i)) <= digits_value(d),
    decreases d.len() - i,
{
    if i == d.len() {
        assert(d.take(i) =~= d);
    } else {
        lemma_digits_value_prefix(d, i + 1);
        assert(d.take(i + 1) =~= d.take(i).push(d[i]));
        lemma_digits_value_grows(d.take(i), d[i]);
    }
}

proof fn lemma_pow10_mono(a: nat, b: nat)
    requires
        a <= b,
    ensures
        pow10(a) <= pow10(b),
    decreases b,
{
    if a < b {
        lemma_pow10_mono(a, (b - 1) as nat);
    }
}

proof fn lemma_pow10_pos(a: nat)
    ensures
        pow10(a) >= 1,
    decreases a,
{
    if a > 0 {
        lemma_pow10_pos((a - 1) as nat);
    }
}

/// The unit's exponent, for the characters `v[from..]`.
fn unit_of(v: &[char], from: usize) -> (k: Option<u32>)
    requires
        from <= v@.len(),
    ensures
        k matches Some(e) ==> unit_exponent(v@.skip(from as int)) == Some(e as nat) && e <= 4,
        k is None ==> unit_exponent(v@.skip(from as int)) is None,
{
    let ghost u = v@.skip(from as int);
    let len = v.len() - from;
    if len == 1 && to_lower_char(v[from]) == 'b' {
        assert(u[0] == v@[from as int]);
        Some(0)
    } else if len == 2 && to_lower_char(v[from + 1]) == 'b' {
        assert(u[0] == v@[from as int]);
        assert(u[1] == v@[from + 1]);
        let p = to_lower_char(v[from]);
        if p == 'k' {
            Some(1)
        } else if p == 'm' {
            Some(2)
        } else if p == 'g' {
            Some(3)
        } else if p == 't' {
            Some(4)
        } else {
            None
        }
    } else {
        if len == 1 {
            assert(u[0] == v@[from as int]);
        }
        if len == 2 {
            assert(u[1] == v@[from + 1]);
        }
        None
    }
}

/// Counts the decimal digits of `v` from `from` on.
fn count_digits(v: &[char], from: usize) -> (cnt: usize)
    requires
        from <= v@.len(),
    ensures
        from + cnt <= v@.len(),
        cnt == leading_digits(v@.skip(from as int)),
        forall|k: int| from <= k < from + cnt ==> is_digit(#[trigger] v@[k]),
{
    let mut i = from;
    while i < v.len() && '0' <= v[i] && v[i] <= '9'
        invariant
            from <= i <= v@.len(),
            forall|k: int| from <= k < i ==> is_digit(#[trigger] v@[k]),
        decreases v.len() - i,
    {
        i = i + 1;
    }
    proof {
        let t = v@.skip(from as int);
        assert forall|k: int| 0 <= k < i - from implies is_digit(#[trigger] t[k]) by {
            assert(t[k] == v@[from + k]);
        }
        if i < v.len() {
            assert(t[i - from] == v@[i as int]);
        }
        lemma_leading_digits(t, i - from);
    }
    i - from
}

/// The number that the digits `digs` denote, when it fits in a `u64`.
fn mantissa_of(digs: &[char]) -> (r: Option<u128>)
    requires
        forall|x: int| 0 <= x < digs@.len() ==> is_digit(#[trigger] digs@[x]),
    ensures
        r matches Some(m) ==> m == digits_value(digs@) && m <= u64::MAX,
        r is None ==> digits_value(digs@) > u64::MAX,
{
    let mut m: u128 = 0;
    let mut j: usize = 0;
    while j < digs.len()
        invariant
            j <= digs@.len(),
            forall|x: int| 0 <= x < digs@.len() ==> is_digit(#[trigger] digs@[x]),
            m == digits_value(digs@.take(j as int)),
            m <= u64::MAX,
        decreases digs.len() - j,
    {
        let d = (digs[j] as u32 - '0' as u32) as u128;
        proof {
            assert(digs@.take(j + 1) =~= digs@.take(j as int).push(digs@[j as int]));
            lemma_digits_value_grows(digs@.take(j as int), digs@[j as int]);
        }
        m = m * 10 + d;
        j = j + 1;
        if m > u64::MAX as u128 {
            proof {
                lemma_digits_value_prefix(digs@, j as int);
            }
            return None;
        }
    }
    assert(digs@.take(j as int) =~= digs@);
    Some(m)
}

/// `m * 1024^e / 10^f`, rounded down, when it fits in a `u64`.
fn scale(m: u128, e: u32, f: usize) -> (r: Option<u64>)
    requires
        m <= u64::MAX,
        e <= 4,
    ensures
        r == (if scaled(m as nat, e as nat, f as nat) > u64::MAX {
            None
        } else {
            Some(scaled(m as nat, e as nat, f as nat) as u64)
        }),
{
    let p: u128 = if e == 0 {
        1
    } else if e == 1 {
        1024
    } else if e == 2 {
        1048576
    } else if e == 3 {
        1073741824
    } else {
        1099511627776
    };
    assert(p == pow1024(e as nat)) by {
        reveal_with_fuel(pow1024, 5);
    }
    assert(m * p <= 18446744073709551615 * 1099511627776) by (nonlinear_arith)
        requires
            m <= 18446744073709551615u128,
            p <= 1099511627776u128,
    ;
    let mp = m * p;
    if f > 32 {
        proof {
            lemma_pow10_mono(32, f as nat);
            reveal_with_fuel(pow10, 33);
            assert(pow10(32) == 100000000000000000000000000000000);
            vstd::arithmetic::div_mod::lemma_basic_div_specific_divisor(pow10(f as nat) as int);
        }
        return Some(0);
    }
    let mut q: u128 = 1;
    let mut x: usize = 0;
    while x < f
        invariant
            x <= f <= 32,
            q == pow10(x as nat),
        decreases f - x,
    {
        proof {
            lemma_pow10_mono(x as nat, 31);
            reveal_with_fuel(pow10, 32);
            assert(pow10(31) == 10000000000000000000000000000000);
        }
        q = q * 10;
        x = x + 1;
    }
    proof {
        lemma_pow10_pos(f as nat);
    }
    let bytes = mp / q;
    if bytes > u64::MAX as u128 {
        None
    } else {
        Some(bytes as u64)
    }
}

/// The first position from `from` on that is not white space.
fn skip_space(v: &[char], from: usize) -> (b: usize)
    requires
        from <= v@.len(),
    ensures
        from <= b <= v@.len(),
        trim_start(v@.skip(from as int)) == v@.skip(b as int),
{
    let ghost after = v@.skip(from as int);
    let mut b: usize = from;
    while b < v.len() && is_space_char(v[b])
        invariant
            from <= b <= v@.len(),
            forall|x: int| from <= x < b ==> is_space(#[trigger] v@[x]),
        decreases v.len() - b,
    {
        b = b + 1;
    }
    proof {
        assert forall|x: int| 0 <= x < b - from implies is_space(#[trigger] after[x]) by {
            assert(after[x] == v@[from + x]);
        }
        lemma_trim_start_skip(after, b - from);
        assert(after.subrange(b - from, after.len() as int) =~= v@.skip(b as int));
        if b < v.len() {
            assert(v@.skip(b as int)[0] == v@[b as int]);
        }
    }
    b
}

/// The digits `v[..n0]` followed, when there is a point, by `v[n0 + 1..a]`.
fn collect_digits(v: &[char], n0: usize, has_point: bool, a: usize) -> (digs: Vec<char>)
    requires
        n0 <= a <= v@.len(),
        has_point ==> n0 + 1 <= a,
    ensures
        digs@ == v@.take(n0 as int) + (if has_point {
            v@.subrange(n0 + 1, a as int)
        } else {
            Seq::<char>::empty()
        }),
{
    let mut digs: Vec<char> = Vec::new();
    let mut k: usize = 0;
    while k < n0
        invariant
            n0 <= v@.len(),
            k <= n0,
            digs@ == v@.take(k as int),
        decreases n0 - k,
    {
        digs.push(v[k]);
        assert(v@.take(k + 1) =~= v@.take(k as int).push(v@[k as int]));
        k = k + 1;
    }
    if has_point {
        let mut k: usize = n0 + 1;
        assert(v@.subrange(n0 + 1, k as int) =~= Seq::<char>::empty());
        assert(digs@ =~= v@.take(n0 as int) + v@.subrange(n0 + 1, k as int));
        while k < a
            invariant
                n0 + 1 <= k <= a <= v@.len(),
                digs@ == v@.take(n0 as int) + v@.subrange(n0 + 1, k as int),
            decreases a - k,
        {
            digs.push(v[k]);
            assert(v@.subrange(n0 + 1, k + 1) =~= v@.subrange(n0 + 1, k as int).push(v@[k as int]));
            assert(v@.take(n0 as int) + v@.subrange(n0 + 1, k + 1) =~= (v@.take(n0 as int) + v@.subrange(n0 + 1, k as int)).push(v@[k as int]));
            k = k + 1;
        }
    } else {
        assert(digs@ =~= v@.take(n0 as int) + Seq::<char>::empty());
    }
    digs
}

/// Reads a displayed size such as `10KB` into a byte count.
pub fn parse_display_size(text: &str) -> (r: Option<u64>)
    ensures
        r == display_size_bytes(text@),
{
    let v = chars_of(text);
    let n = v.len();
    let ghost s = v@;
    let n0 = count_digits(v.as_slice(), 0);
    assert(s.skip(0) =~= s);
    if n0 == 0 {
        return None;
    }
    let ghost rest = s.skip(n0 as int);
    let has_point = n0 < n && v[n0] == '.';
    assert(has_point == (rest.len() > 0 && rest[0] == '.'));
    let mut f: usize = 0;
    let mut a: usize = n0;
    if has_point {
        f = count_digits(v.as_slice(), n0 + 1);
        assert(rest.skip(1) =~= s.skip(n0 + 1));
        if f == 0 {
            return None;
        }
        a = n0 + 1 + f;
        assert(rest.skip(1 + f as int) =~= s.skip(a as int));
        assert(rest.skip(1).take(f as int) =~= s.subrange(n0 + 1, a as int));
    }
    let digs = collect_digits(v.as_slice(), n0, has_point, a);
    assert forall|j: int| 0 <= j < digs@.len() implies is_digit(#[trigger] digs@[j]) by {
        if j < n0 {
            assert(digs@[j] == s[j]);
        } else {
            assert(digs@[j] == s[n0 + 1 + (j - n0)]);
        }
    }
    let m = match mantissa_of(digs.as_slice()) {
        None => {
            return None;
        },
        Some(m) => m,
    };
    let b = skip_space(v.as_slice(), a);
    let e = match unit_of(v.as_slice(), b) {
        None => {
            return None;
        },
        Some(e) => e,
    };
    scale(m, e, f)
}

proof fn lemma_digits_concat(a: Seq<char>, b: Seq<char>)
    ensures
        digits_value(a + b) == digits_value(a) * pow10(b.len()) + digits_value(b),
    decreases b.len(),
{
    if b.len() == 0 {
        assert(a + b =~= a);
        assert(pow10(0) == 1);
        assert(digits_value(b) == 0);
        assert(digits_value(a) * 1 == digits_value(a));
    } else {
        let b2 = b.drop_last();
        assert((a + b).drop_last() =~= a + b2);
        assert((a + b).last() == b.last());
        lemma_digits_concat(a, b2);
        let x = digits_value(a);
        let y = pow10(b2.len());
        let z = digits_value(b2);
        assert(pow10(b.len()) == 10 * y);
        assert((x * y + z) * 10 == x * (10 * y) + z * 10) by (nonlinear_arith);
        let d = digit_value(b.last());
        assert(digits_value(a + b) == digits_value(a + b2) * 10 + d);
        assert(digits_value(b) == z * 10 + d);
    }
}

proof fn lemma_unit_not_digit_or_space(u: Seq<char>, k: nat)
    requires
        unit_exponent(u) == Some(k),
    ensures
        u.len() > 0,
        !is_digit(u[0]),
        !is_space(u[0]),
        u[0] != '.',
        trim_start(u) == u,
{
}

/// The byte count of `digits` (then `.` and `fraction` when there is one),
/// white space `gap`, and a unit of exponent `k`: the number
/// `digits.fraction` times `1024^k`, rounded down, whatever the white space.
proof fn lemma_display_size_shape(a: Seq<char>, b: Seq<char>, w: Seq<char>, u: Seq<char>, k: nat)
    requires
        a.len() >= 1,
        forall|i: int| 0 <= i < a.len() ==> '0' <= #[trigger] a[i] <= '9',
        forall|i: int| 0 <= i < b.len() ==> '0' <= #[trigger] b[i] <= '9',
        forall|i: int| 0 <= i < w.len() ==> is_space(#[trigger] w[i]),
        unit_exponent(u) == Some(k),
    ensures
        ({
            let m = digits_value(a) * pow10(b.len()) + digits_value(b);
            let s = if b.len() > 0 {
                a + seq!['.'] + b + w + u
            } else {
                a + w + u
            };
            display_size_bytes(s) == if m > u64::MAX || m * pow1024(k) / pow10(b.len()) > u64::MAX {
                None
            } else {
                Some((m * pow1024(k) / pow10(b.len())) as u64)
            }
        }),
{
    lemma_unit_not_digit_or_space(u, k);
    lemma_digits_concat(a, b);
    let n = a.len() as int;
    let wu = w + u;
    assert(wu[0] == if w.len() > 0 { w[0] } else { u[0] });
    assert(!is_digit(wu[0]) && wu[0] != '.');
    assert forall|x: int| 0 <= x < w.len() implies is_space(#[trigger] wu[x]) by {
        assert(wu[x] == w[x]);
    }
    lemma_trim_start_skip(wu, w.len() as int);
    assert(wu.subrange(w.len() as int, wu.len() as int) =~= u);
    if b.len() > 0 {
        let s = a + seq!['.'] + b + w + u;
        assert forall|x: int| 0 <= x < n implies is_digit(#[trigger] s[x]) by {
            assert(s[x] == a[x]);
        }
        assert(s[n] == '.');
        lemma_leading_digits(s, n);
        let rest = s.skip(n);
        assert(rest[0] == '.');
        let bwu = b + wu;
        assert(rest.skip(1) =~= bwu);
        assert forall|x: int| 0 <= x < b.len() implies is_digit(#[trigger] bwu[x]) by {
            assert(bwu[x] == b[x]);
        }
        assert(bwu[b.len() as int] == wu[0]);
        lemma_leading_digits(bwu, b.len() as int);
        assert(bwu.take(b.len() as int) =~= b);
        assert(bwu.skip(b.len() as int) =~= wu);
        assert(rest.skip(1 + b.len() as int) =~= wu);
        assert(s.take(n) =~= a);
    } else {
        let s = a + w + u;
        assert(s =~= a + wu);
        assert forall|x: int| 0 <= x < n implies is_digit(#[trigger] s[x]) by {
            assert(s[x] == a[x]);
        }
        assert(s[n] == wu[0]);
        lemma_leading_digits(s, n);
        assert(s.skip(n) =~= wu);
        assert(s.take(n) =~= a);
        assert(a + Seq::<char>::empty() =~= a);
        assert(b =~= Seq::<char>::empty());
    }
}

/// A displayed size is its number times its unit: digits `a`, optionally a
/// point and fraction digits `b`, white space, and a unit of exponent `k`
/// (`B`, `KB`, `MB`, `GB`, `TB` for 0 to 4) give
/// `floor((a * 10^|b| + b) * 1024^k / 10^|b|)` bytes, or `None` when the
/// digits or the count exceed `u64::MAX`; white space between number and
/// unit changes nothing.
pub proof fn displayed_size_is_number_times_unit(
    a: Seq<char>,
    b: Seq<char>,
    w: Seq<char>,
    u: Seq<char>,
    k: nat,
)
    requires
        a.len() >= 1,
        forall|i: int| 0 <= i < a.len() ==> '0' <= #[trigger] a[i] <= '9',
        forall|i: int| 0 <= i < b.len() ==> '0' <= #[trigger] b[i] <= '9',
        forall|i: int| 0 <= i < w.len() ==> is_space(#[trigger] w[i]),
        unit_exponent(u) == Some(k),
    ensures
        ({
            let m = digits_value(a) * pow10(b.len()) + digits_value(b);
            let s = if b.len() > 0 {
                a + seq!['.'] + b + w + u
            } else {
                a + w + u
            };
            let tight = if b.len() > 0 {
                a + seq!['.'] + b + u
            } else {
                a + u
            };
            &&& display_size_bytes(s) == if m > u64::MAX || m * pow1024(k) / pow10(b.len())
                > u64::MAX {
                None
            } else {
                Some((m * pow1024(k) / pow10(b.len())) as u64)
            }
            &&& display_size_bytes(s) == display_size_bytes(tight)
        }),
{
    lemma_display_size_shape(a, b, w, u, k);
    let e = Seq::<char>::empty();
    lemma_display_size_shape(a, b, e, u, k);
    assert(a + seq!['.'] + b + e + u =~= a + seq!['.'] + b + u);
    assert(a + e + u =~= a + u);
}

} // verus!
