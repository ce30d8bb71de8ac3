//! Numbers written in decimal, with an optional exponent, held exactly as a
//! mantissa and a power of ten.
use vstd::prelude::*;

verus! {

/// The result of comparing two values.
#[derive(Clone, Copy, Debug, PartialEq, Eq, Structural)]
pub enum Order {
    Less,
    Equal,
    Greater,
}

/// Compares two integers.
pub open spec fn cmp_int(a: int, b: int) -> Order {
    if a < b {
        Order::Less
    } else if a > b {
        Order::Greater
    } else {
        Order::Equal
    }
}

/// The opposite order.
pub open spec fn reversed(o: Order) -> Order {
    match o {
        Order::Less => Order::Greater,
        Order::Greater => Order::Less,
        Order::Equal => Order::Equal,
    }
}

/// The opposite order.
pub fn reverse(o: Order) -> (r: Order)
    ensures
        r == reversed(o),
{
    match o {
        Order::Less => Order::Greater,
        Order::Greater => Order::Less,
        Order::Equal => Order::Equal,
    }
}

/// A decimal number: `mantissa × 10^exponent`, negated when `negative`.
#[derive(Clone, Copy, Debug, PartialEq, Eq, Structural)]
pub struct Decimal {
    pub negative: bool,
    pub mantissa: u128,
    pub exponent: i64,
}

/// A number as an integer `m` and a power of ten `e`: the value `m × 10^e`.
pub type DecView = (int, int);

/// The value of a decimal.
pub open spec fn dec_view(d: Decimal) -> DecView {
    (
        if d.negative {
            -(d.mantissa as int)
        } else {
            d.mantissa as int
        },
        d.exponent as int,
    )
}

/// 10 to the power `n`.
pub open spec fn pow10(n: nat) -> int
    decreases n,
{
    if n == 0 {
        1
    } else {
        10 * pow10((n - 1) as nat)
    }
}

/// Compares two numbers by value, both brought to the smaller exponent.
pub open spec fn cmp_dec(a: DecView, b: DecView) -> Order {
    let base = if a.1 <= b.1 {
        a.1
    } else {
        b.1
    };
    cmp_int(a.0 * pow10((a.1 - base) as nat), b.0 * pow10((b.1 - base) as nat))
}

/// `a` is at most `b`.
pub open spec fn dec_le(a: DecView, b: DecView) -> bool {
    cmp_dec(a, b) != Order::Greater
}

/// `c` is a decimal digit.
pub open spec fn is_digit(c: char) -> bool {
    '0' <= c && c <= '9'
}

/// Every character of `s` is a decimal digit.
pub open spec fn all_digits(s: Seq<char>) -> bool {
    forall|i: int| 0 <= i < s.len() ==> is_digit(#[trigger] s[i])
}

/// The number that the digits `s` write.
pub open spec fn digits_value(s: Seq<char>) -> int
    decreases s.len(),
{
    if s.len() == 0 {
        0
    } else {
        digits_value(s.drop_last()) * 10 + (s.last() as int - '0' as int)
    }
}

/// The position of the first `.` in `s` at or after `i`, or `s.len()`.
pub open spec fn dot_from(s: Seq<char>, i: int) -> int
    decreases s.len() - i,
{
    if i < 0 || i >= s.len() {
        s.len() as int
    } else if s[i] == '.' {
        i
    } else {
        dot_from(s, i + 1)
    }
}

/// The position of the first `e` or `E` in `s` at or after `i`, or `s.len()`.
pub open spec fn exp_from(s: Seq<char>, i: int) -> int
    decreases s.len() - i,
{
    if i < 0 || i >= s.len() {
        s.len() as int
    } else if s[i] == 'e' || s[i] == 'E' {
        i
    } else {
        exp_from(s, i + 1)
    }
}

/// Where the digits start: after a leading sign, if any.
pub open spec fn body_start(s: Seq<char>) -> int {
    if s.len() > 0 && (s[0] == '-' || s[0] == '+') {
        1
    } else {
        0
    }
}

/// The number that `s` writes: an optional sign; digits with at most one `.`
/// among them, at least one digit; then optionally `e` or `E`, an optional
/// sign and at least one digit. The digits, read as one integer, must fit a
/// `u128`; the exponent and the number of digits after the point must fit an
/// `i32`. `None` for any other text.
pub open spec fn decimal_value(s: Seq<char>) -> Option<DecView> {
    let b = s.subrange(body_start(s), s.len() as int);
    let x = exp_from(b, 0);
    let mp = b.subrange(0, x);
    let k = dot_from(mp, 0);
    let ip = mp.subrange(0, k);
    let fp = if k < mp.len() {
        mp.subrange(k + 1, mp.len() as int)
    } else {
        Seq::empty()
    };
    let ep = if x < b.len() {
        b.subrange(x + 1, b.len() as int)
    } else {
        Seq::empty()
    };
    if all_digits(ip) && all_digits(fp) && ip.len() + fp.len() >= 1 && digits_value(ip + fp)
        <= u128::MAX && fp.len() <= i32::MAX && (x < b.len() ==> exponent_value(ep) is Some) {
        let m = digits_value(ip + fp);
        Some(
            (
                if s.len() > 0 && s[0] == '-' {
                    -m
                } else {
                    m
                },
                (if x < b.len() {
                    exponent_value(ep)->0
                } else {
                    0
                }) - fp.len(),
            ),
        )
    } else {
        None
    }
}

/// The exponent that `ep` writes after the `e`: an optional sign and at
/// least one digit, at most `i32::MAX` in size.
pub open spec fn exponent_value(ep: Seq<char>) -> Option<int> {
    let es: int = if ep.len() > 0 && (ep[0] == '+' || ep[0] == '-') {
        1
    } else {
        0
    };
    let ed = ep.subrange(es, ep.len() as int);
    if ed.len() >= 1 && all_digits(ed) && digits_value(ed) <= i32::MAX {
        Some(
            if es == 1 && ep[0] == '-' {
                -digits_value(ed)
            } else {
                digits_value(ed)
            },
        )
    } else {
        None
    }
}

/// The exponent that `ep` writes (see `exponent_value`).
fn parse_exponent(ep: &[char]) -> (r: Option<i64>)
    ensures
        r is None <==> exponent_value(ep@) is None,
        r matches Some(e) ==> exponent_value(ep@) == Some(e as int) && -(i32::MAX as int) <= e
            <= i32::MAX,
{
    let n = ep.len();
    let signed = n > 0 && (ep[0] == '+' || ep[0] == '-');
    let es: usize = if signed {
        1
    } else {
        0
    };
    let mut ed: Vec<char> = Vec::new();
    copy_range(&mut ed, ep, es, n);
    if ed.len() < 1 {
        return None;
    }
    match digits_to_u128(ed.as_slice()) {
        Some(e) => {
            if e > i32::MAX as u128 {
                return None;
            }
            if signed && ep[0] == '-' {
                Some(-(e as i64))
            } else {
                Some(e as i64)
            }
        },
        None => None,
    }
}

proof fn lemma_pow10_mono(a: nat, b: nat)
    requires
        a <= b,
    ensures
        1 <= pow10(a) <= pow10(b),
    decreases b,
{
    if b > 0 {
        if a < b {
            lemma_pow10_mono(a, (b - 1) as nat);
        } else {
            lemma_pow10_mono((a - 1) as nat, (b - 1) as nat);
        }
    }
}

proof fn lemma_pow10_add(a: nat, b: nat)
    ensures
        pow10(a) * pow10(b) == pow10(a + b),
    decreases a,
{
    if a > 0 {
        lemma_pow10_add((a - 1) as nat, b);
        assert(pow10(a) * pow10(b) == 10 * (pow10((a - 1) as nat) * pow10(b))) by (nonlinear_arith)
            requires
                pow10(a) == 10 * pow10((a - 1) as nat),
        ;
    }
}

pub proof fn lemma_digits_nonneg(s: Seq<char>)
    requires
        all_digits(s),
    ensures
        digits_value(s) >= 0,
    decreases s.len(),
{
    if s.len() > 0 {
        assert(is_digit(s[s.len() - 1]));
        lemma_digits_nonneg(s.drop_last());
    }
}

pub proof fn lemma_digits_grow(s: Seq<char>, i: int)
    requires
        0 <= i <= s.len(),
        all_digits(s),
    ensures
        digits_value(s.subrange(0, i)) <= digits_value(s),
    decreases s.len() - i,
{
    if i < s.len() {
        lemma_digits_grow(s, i + 1);
        let t = s.subrange(0, i + 1);
        assert(t.drop_last() =~= s.subrange(0, i));
        assert(is_digit(s[i]));
        lemma_digits_nonneg(s.subrange(0, i));
    } else {
        assert(s.subrange(0, i) =~= s);
    }
}

/// The number that the characters `v` write as decimal digits, when they all
/// are digits and the number fits a `u128`.
pub fn digits_to_u128(v: &[char]) -> (r: Option<u128>)
    ensures
        r is Some <==> all_digits(v@) && digits_value(v@) <= u128::MAX,
        r matches Some(m) ==> m == digits_value(v@),
{
    let mut acc: u128 = 0;
    let mut i: usize = 0;
    assert(v@.subrange(0, 0) =~= Seq::<char>::empty());
    while i < v.len()
        invariant
            i <= v@.len(),
            all_digits(v@.subrange(0, i as int)),
            acc == digits_value(v@.subrange(0, i as int)),
        decreases v@.len() - i,
    {
        let ghost pre = v@.subrange(0, i as int);
        let ghost next = v@.subrange(0, i + 1);
        assert(next.drop_last() =~= pre);
        assert(next.last() == v@[i as int]);
        let c = v[i];
        if !('0' <= c && c <= '9') {
            assert(!is_digit(v@[i as int]));
            return None;
        }
        let d = (c as u32 - '0' as u32) as u128;
        assert(digits_value(next) == acc * 10 + d);
        assert forall|x: int| 0 <= x < next.len() implies is_digit(#[trigger] next[x]) by {
            if x < pre.len() {
                assert(next[x] == pre[x]);
            }
        }
        if acc > (u128::MAX - d) / 10 {
            proof {
                assert(acc * 10 + d > u128::MAX) by (nonlinear_arith)
                    requires
                        acc > (u128::MAX - d) / 10,
                        0 <= d <= 9,
                ;
                if all_digits(v@) {
                    lemma_digits_grow(v@, i + 1);
                }
            }
            return None;
        }
        acc = acc * 10 + d;
        i = i + 1;
    }
    assert(v@.subrange(0, v@.len() as int) =~= v@);
    Some(acc)
}

/// Appends `s[from..to]` to `v`.
fn copy_range(v: &mut Vec<char>, s: &[char], from: usize, to: usize)
    requires
        from <= to <= s@.len(),
    ensures
        final(v)@ == old(v)@ + s@.subrange(from as int, to as int),
{
    let ghost start = v@;
    let mut i: usize = from;
    while i < to
        invariant
            from <= i <= to <= s@.len(),
            v@ == start + s@.subrange(from as int, i as int),
        decreases to - i,
    {
        v.push(s[i]);
        assert(s@.subrange(from as int, i + 1) =~= s@.subrange(from as int, i as int).push(s@[i as int]));
        i = i + 1;
    }
}

/// The number that `s` writes, if `s` writes one (see `decimal_value`).
pub fn parse_decimal(s: &[char]) -> (r: Option<Decimal>)
    ensures
        r is None <==> decimal_value(s@) is None,
        r matches Some(d) ==> decimal_value(s@) == Some(dec_view(d)),
{
    let n = s.len();
    let st: usize = if n > 0 && (s[0] == '-' || s[0] == '+') {
        1
    } else {
        0
    };
    let ghost b = s@.subrange(st as int, n as int);
    let mut x: usize = st;
    while x < n && s[x] != 'e' && s[x] != 'E'
        invariant
            st <= x <= n,
            n == s@.len(),
            b == s@.subrange(st as int, n as int),
            exp_from(b, 0) == exp_from(b, x - st),
        decreases n - x,
    {
        assert(b[x - st] == s@[x as int]);
        x = x + 1;
    }
    assert(x < n ==> b[x - st] == s@[x as int]);
    assert(exp_from(b, 0) == x - st);
    let ghost mp = b.subrange(0, x - st);
    assert(mp =~= s@.subrange(st as int, x as int));
    let mut k: usize = st;
    while k < x && s[k] != '.'
        invariant
            st <= k <= x <= n,
            n == s@.len(),
            mp == s@.subrange(st as int, x as int),
            dot_from(mp, 0) == dot_from(mp, k - st),
        decreases x - k,
    {
        assert(mp[k - st] == s@[k as int]);
        k = k + 1;
    }
    assert(k < x ==> mp[k - st] == s@[k as int]);
    assert(dot_from(mp, 0) == k - st);
    let fstart: usize = if k < x {
        k + 1
    } else {
        x
    };
    let ghost ip = mp.subrange(0, k - st);
    let ghost fp = if k - st < mp.len() {
        mp.subrange(k - st + 1, mp.len() as int)
    } else {
        Seq::<char>::empty()
    };
    assert(ip =~= s@.subrange(st as int, k as int));
    assert(fp =~= s@.subrange(fstart as int, x as int));
    let mut digits: Vec<char> = Vec::new();
    copy_range(&mut digits, s, st, k);
    copy_range(&mut digits, s, fstart, x);
    assert(digits@ =~= ip + fp);
    let flen = x - fstart;
    if digits.len() < 1 || flen > i32::MAX as usize {
        return None;
    }
    let mantissa = match digits_to_u128(digits.as_slice()) {
        Some(m) => m,
        None => {
            proof {
                if all_digits(ip) && all_digits(fp) {
                    assert forall|i: int| 0 <= i < (ip + fp).len() implies is_digit(
                        #[trigger] (ip + fp)[i],
                    ) by {
                        if i < ip.len() {
                            assert((ip + fp)[i] == ip[i]);
                        } else {
                            assert((ip + fp)[i] == fp[i - ip.len()]);
                        }
                    }
                }
            }
            return None;
        },
    };
    proof {
        assert forall|i: int| 0 <= i < ip.len() implies is_digit(#[trigger] ip[i]) by {
            assert(ip[i] == (ip + fp)[i]);
        }
        assert forall|i: int| 0 <= i < fp.len() implies is_digit(#[trigger] fp[i]) by {
            assert(fp[i] == (ip + fp)[ip.len() + i]);
        }
    }
    let ghost ep = if x - st < b.len() {
        b.subrange(x - st + 1, b.len() as int)
    } else {
        Seq::<char>::empty()
    };
    let mut ev: i64 = 0;
    assert(-(i32::MAX as int) <= ev <= i32::MAX);
    if x < n {
        let mut ec: Vec<char> = Vec::new();
        copy_range(&mut ec, s, x + 1, n);
        assert(ec@ =~= ep);
        match parse_exponent(ec.as_slice()) {
            Some(e) => {
                ev = e;
            },
            None => {
                return None;
            },
        }
    }
    let exponent: i64 = ev - flen as i64;
    Some(Decimal { negative: n > 0 && s[0] == '-', mantissa, exponent })
}

proof fn lemma_shift_at_least(x: int, j: nat)
    requires
        x >= 0,
    ensures
        x * pow10(j) >= x,
        j >= 1 ==> x * pow10(j) >= 10 * x,
    decreases j,
{
    lemma_pow10_mono(0, j);
    assert(x * pow10(j) >= x) by (nonlinear_arith)
        requires
            x >= 0,
            pow10(j) >= 1,
    ;
    if j >= 1 {
        lemma_pow10_mono(0, (j - 1) as nat);
        assert(x * pow10(j) >= 10 * x) by (nonlinear_arith)
            requires
                x >= 0,
                pow10(j) == 10 * pow10((j - 1) as nat),
                pow10((j - 1) as nat) >= 1,
        ;
    }
}

/// Compares `m × 10^d` with `other`.
fn shift_cmp(m: u128, d: i128, other: u128) -> (r: Order)
    requires
        d >= 0,
    ensures
        r == cmp_int(m * pow10(d as nat), other as int),
{
    let mut x: u128 = m;
    let mut k: i128 = 0;
    while k < d
        invariant
            0 <= k <= d,
            x == m * pow10(k as nat),
        decreases d - k,
    {
        proof {
            lemma_pow10_add(k as nat, (d - k) as nat);
            assert(m * pow10(d as nat) == x * pow10((d - k) as nat)) by (nonlinear_arith)
                requires
                    x == m * pow10(k as nat),
                    pow10(k as nat) * pow10((d - k) as nat) == pow10(d as nat),
            ;
            lemma_shift_at_least(x as int, (d - k) as nat);
        }
        if x > other {
            return Order::Greater;
        }
        if x > u128::MAX / 10 {
            return Order::Greater;
        }
        proof {
            assert(pow10((k + 1) as nat) == 10 * pow10(k as nat));
            assert(m * pow10((k + 1) as nat) == 10 * (m * pow10(k as nat))) by (nonlinear_arith)
                requires
                    pow10((k + 1) as nat) == 10 * pow10(k as nat),
            ;
        }
        x = x * 10;
        k = k + 1;
    }
    if x < other {
        Order::Less
    } else if x > other {
        Order::Greater
    } else {
        Order::Equal
    }
}

/// Compares two numbers by value.
pub fn cmp_decimal(a: Decimal, b: Decimal) -> (r: Order)
    ensures
        r == cmp_dec(dec_view(a), dec_view(b)),
{
    let ghost av = dec_view(a);
    let ghost bv = dec_view(b);
    let ghost base = if av.1 <= bv.1 {
        av.1
    } else {
        bv.1
    };
    let ghost pa = pow10((av.1 - base) as nat);
    let ghost pb = pow10((bv.1 - base) as nat);
    proof {
        lemma_pow10_mono(0, (av.1 - base) as nat);
        lemma_pow10_mono(0, (bv.1 - base) as nat);
        let ma = a.mantissa as int;
        let mb = b.mantissa as int;
        assert(ma * pa >= 0 && mb * pb >= 0) by (nonlinear_arith)
            requires
                ma >= 0,
                mb >= 0,
                pa >= 1,
                pb >= 1,
        ;
        assert(ma > 0 ==> ma * pa > 0) by (nonlinear_arith)
            requires
                pa >= 1,
        ;
        assert(mb > 0 ==> mb * pb > 0) by (nonlinear_arith)
            requires
                pb >= 1,
        ;
        assert((-ma) * pa == -(ma * pa)) by (nonlinear_arith);
        assert((-mb) * pb == -(mb * pb)) by (nonlinear_arith);
        assert(ma == 0 ==> ma * pa == 0);
        assert(mb == 0 ==> mb * pb == 0);
    }
    let sa: i8 = if a.mantissa == 0 {
        0
    } else if a.negative {
        -1
    } else {
        1
    };
    let sb: i8 = if b.mantissa == 0 {
        0
    } else if b.negative {
        -1
    } else {
        1
    };
    if sa != sb {
        return if sa < sb {
            Order::Less
        } else {
            Order::Greater
        };
    }
    if sa == 0 {
        return Order::Equal;
    }
    let mags = if a.exponent >= b.exponent {
        let d = a.exponent as i128 - b.exponent as i128;
        proof {
            lemma_pow10_mono(0, 0);
            assert(pb == 1);
            assert(b.mantissa * pb == b.mantissa) by (nonlinear_arith)
                requires
                    pb == 1,
            ;
        }
        shift_cmp(a.mantissa, d, b.mantissa)
    } else {
        let d = b.exponent as i128 - a.exponent as i128;
        proof {
            assert(pa == 1);
            assert(a.mantissa * pa == a.mantissa) by (nonlinear_arith)
                requires
                    pa == 1,
            ;
        }
        reverse(shift_cmp(b.mantissa, d, a.mantissa))
    };
    if a.negative {
        reverse(mags)
    } else {
        mags
    }
}

} // verus!
