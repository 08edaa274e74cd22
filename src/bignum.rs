//! Arbitrary-precision integers as the runtime keeps them on its heap:
//! a sign and a little-endian sequence of 32-bit limbs.
use vstd::arithmetic::div_mod::{lemma_fundamental_div_mod, lemma_fundamental_div_mod_converse_div};
use vstd::prelude::*;

verus! {

/// The radix of a limb.
pub open spec fn limb_base() -> nat {
    4294967296
}

/// `limb_base()` raised to `n`.
pub open spec fn limb_pow(n: nat) -> nat
    decreases n,
{
    if n == 0 {
        1
    } else {
        limb_base() * limb_pow((n - 1) as nat)
    }
}

/// Limb `i` of `s`, reading missing limbs as zero.
pub open spec fn digit(s: Seq<u32>, i: int) -> nat {
    if 0 <= i < s.len() {
        s[i] as nat
    } else {
        0
    }
}

/// The value of the lowest `n` limbs of `s`.
pub open spec fn prefix_val(s: Seq<u32>, n: nat) -> nat
    decreases n,
{
    if n == 0 {
        0
    } else {
        prefix_val(s, (n - 1) as nat) + digit(s, n - 1) * limb_pow((n - 1) as nat)
    }
}

/// The value of a magnitude.
pub open spec fn mag_val(s: Seq<u32>) -> nat {
    prefix_val(s, s.len())
}

/// A magnitude without high zero limbs.
pub open spec fn canonical(s: Seq<u32>) -> bool {
    s.len() == 0 || s.last() != 0
}

/// Powers of the base are positive.
pub proof fn lemma_limb_pow_pos(n: nat)
    ensures
        limb_pow(n) >= 1,
    decreases n,
{
    if n > 0 {
        lemma_limb_pow_pos((n - 1) as nat);
    }
}

/// Powers of the base grow with the exponent.
pub proof fn lemma_limb_pow_mono(m: nat, n: nat)
    requires
        m <= n,
    ensures
        limb_pow(m) <= limb_pow(n),
    decreases n,
{
    if m < n {
        lemma_limb_pow_mono(m, (n - 1) as nat);
    }
}

/// The lowest `n` limbs are worth less than `limb_pow(n)`.
pub proof fn lemma_prefix_bound(s: Seq<u32>, n: nat)
    ensures
        prefix_val(s, n) < limb_pow(n),
    decreases n,
{
    if n > 0 {
        let k = (n - 1) as nat;
        lemma_prefix_bound(s, k);
        let p = prefix_val(s, k);
        let d = digit(s, k as int);
        let w = limb_pow(k);
        assert(d <= limb_base() - 1);
        assert(p + d * w < limb_base() * w) by (nonlinear_arith)
            requires
                p < w,
                d <= limb_base() - 1,
        ;
    }
}

/// Limbs past the end add nothing.
pub proof fn lemma_prefix_past_end(s: Seq<u32>, n: nat)
    requires
        n >= s.len(),
    ensures
        prefix_val(s, n) == mag_val(s),
    decreases n,
{
    if n > s.len() {
        lemma_prefix_past_end(s, (n - 1) as nat);
        assert(digit(s, n - 1) == 0);
        assert(prefix_val(s, n) == prefix_val(s, (n - 1) as nat) + 0 * limb_pow((n - 1) as nat));
    }
}

/// Appending a limb leaves the lower limbs' value alone.
pub proof fn lemma_prefix_push(s: Seq<u32>, d: u32, n: nat)
    requires
        n <= s.len(),
    ensures
        prefix_val(s.push(d), n) == prefix_val(s, n),
    decreases n,
{
    if n > 0 {
        lemma_prefix_push(s, d, (n - 1) as nat);
    }
}

/// The value of a magnitude grows by its new top limb.
pub proof fn lemma_mag_push(s: Seq<u32>, d: u32)
    ensures
        mag_val(s.push(d)) == mag_val(s) + d * limb_pow(s.len()),
{
    lemma_prefix_push(s, d, s.len());
}

/// A magnitude whose top limb is zero is worth what it is without it.
pub proof fn lemma_mag_drop_zero(s: Seq<u32>)
    requires
        s.len() > 0,
        s.last() == 0,
    ensures
        mag_val(s.drop_last()) == mag_val(s),
{
    assert(s.drop_last().push(0u32) =~= s);
    lemma_mag_push(s.drop_last(), 0u32);
}

/// Putting a limb below a magnitude multiplies it by the base.
pub proof fn lemma_prefix_prepend(d: u32, s: Seq<u32>, n: nat)
    ensures
        prefix_val(seq![d] + s, n + 1) == d + limb_base() * prefix_val(s, n),
    decreases n,
{
    let p = seq![d] + s;
    if n == 0 {
        assert(digit(p, 0) == d);
        assert(limb_pow(0) == 1);
        assert(prefix_val(p, 0) == 0);
        assert(prefix_val(p, 1) == 0 + d * 1);
    } else {
        let k = (n - 1) as nat;
        lemma_prefix_prepend(d, s, k);
        assert(digit(p, n as int) == digit(s, k as int));
        let a = prefix_val(s, k);
        let x = digit(s, k as int);
        let w = limb_pow(k);
        assert(d + limb_base() * a + x * (limb_base() * w) == d + limb_base() * (a + x * w))
            by (nonlinear_arith);
        assert(limb_pow(n) == limb_base() * w);
        assert(prefix_val(p, n + 1) == prefix_val(p, n) + digit(p, n as int) * limb_pow(n));
        assert(prefix_val(s, n) == a + x * w);
    }
}

/// Putting a limb below a magnitude multiplies it by the base.
pub proof fn lemma_mag_prepend(d: u32, s: Seq<u32>)
    ensures
        mag_val(seq![d] + s) == d + limb_base() * mag_val(s),
{
    lemma_prefix_prepend(d, s, s.len());
    assert((seq![d] + s).len() == s.len() + 1);
}

/// A canonical magnitude of `n` limbs is at least `limb_pow(n - 1)`.
pub proof fn lemma_canonical_lower(s: Seq<u32>)
    requires
        canonical(s),
        s.len() > 0,
    ensures
        mag_val(s) >= limb_pow((s.len() - 1) as nat),
        mag_val(s) > 0,
{
    let k = (s.len() - 1) as nat;
    let w = limb_pow(k);
    let d = digit(s, k as int);
    assert(d >= 1);
    lemma_limb_pow_pos(k);
    assert(d * w >= w) by (nonlinear_arith)
        requires
            d >= 1,
            w >= 1,
    ;
}

/// Drops high zero limbs.
pub fn trim(v: &mut Vec<u32>)
    ensures
        mag_val(final(v)@) == mag_val(old(v)@),
        canonical(final(v)@),
        final(v)@.len() <= old(v)@.len(),
{
    while v.len() > 0 && v[v.len() - 1] == 0
        invariant
            mag_val(v@) == mag_val(old(v)@),
            v@.len() <= old(v)@.len(),
        decreases v.len(),
    {
        proof {
            lemma_mag_drop_zero(v@);
        }
        v.pop();
    }
}

fn limb_at(s: &Vec<u32>, i: usize) -> (r: u64)
    ensures
        r == digit(s@, i as int),
        r < limb_base(),
{
    if i < s.len() {
        s[i] as u64
    } else {
        0
    }
}

/// Splits `x` into its low limb and what carries over.
proof fn lemma_split(x: u64)
    ensures
        x == (x % 4294967296) + limb_base() * (x / 4294967296),
        x % 4294967296 < limb_base(),
{
    lemma_fundamental_div_mod(x as int, 4294967296);
}

/// The sum of two magnitudes.
pub fn add_mag(a: &Vec<u32>, b: &Vec<u32>) -> (r: Vec<u32>)
    ensures
        mag_val(r@) == mag_val(a@) + mag_val(b@),
        canonical(r@),
{
    let n: usize = if a.len() >= b.len() {
        a.len()
    } else {
        b.len()
    };
    let mut r: Vec<u32> = Vec::new();
    let mut carry: u64 = 0;
    let mut i: usize = 0;
    while i < n
        invariant
            i <= n,
            n >= a@.len(),
            n >= b@.len(),
            r@.len() == i,
            carry <= 1,
            mag_val(r@) + carry * limb_pow(i as nat) == prefix_val(a@, i as nat) + prefix_val(
                b@,
                i as nat,
            ),
        decreases n - i,
    {
        let x: u64 = limb_at(a, i) + limb_at(b, i) + carry;
        let lo = (x % 4294967296) as u32;
        let hi = x / 4294967296;
        proof {
            lemma_split(x);
            lemma_mag_push(r@, lo);
            let w = limb_pow(i as nat);
            assert(limb_pow((i + 1) as nat) == limb_base() * w);
            assert(lo * w + hi * (limb_base() * w) == x * w) by (nonlinear_arith)
                requires
                    x == lo + limb_base() * hi,
            ;
            assert(x * w == digit(a@, i as int) * w + digit(b@, i as int) * w + carry * w)
                by (nonlinear_arith)
                requires
                    x == digit(a@, i as int) + digit(b@, i as int) + carry,
            ;
        }
        r.push(lo);
        carry = hi;
        i = i + 1;
    }
    proof {
        lemma_prefix_past_end(a@, n as nat);
        lemma_prefix_past_end(b@, n as nat);
    }
    if carry > 0 {
        proof {
            lemma_mag_push(r@, carry as u32);
        }
        r.push(carry as u32);
    }
    trim(&mut r);
    r
}

/// Limb-wise `a - b` over `n` limbs, with the final borrow.
fn sub_limbs(a: &Vec<u32>, b: &Vec<u32>) -> (res: (Vec<u32>, bool))
    ensures
        res.0@.len() == if a@.len() >= b@.len() { a@.len() } else { b@.len() },
        mag_val(res.0@) - (if res.1 { limb_pow(res.0@.len()) as int } else { 0 }) == mag_val(a@)
            - mag_val(b@),
{
    let n: usize = if a.len() >= b.len() {
        a.len()
    } else {
        b.len()
    };
    let mut r: Vec<u32> = Vec::new();
    let mut borrow: u64 = 0;
    let mut i: usize = 0;
    while i < n
        invariant
            i <= n,
            n >= a@.len(),
            n >= b@.len(),
            n == if a@.len() >= b@.len() { a@.len() } else { b@.len() },
            r@.len() == i,
            borrow <= 1,
            mag_val(r@) - borrow * limb_pow(i as nat) == prefix_val(a@, i as nat) - prefix_val(
                b@,
                i as nat,
            ),
        decreases n - i,
    {
        let x = limb_at(a, i);
        let y = limb_at(b, i) + borrow;
        let lo: u32;
        let next: u64;
        if x >= y {
            lo = (x - y) as u32;
            next = 0;
        } else {
            lo = (x + 4294967296 - y) as u32;
            next = 1;
        }
        proof {
            lemma_mag_push(r@, lo);
            let w = limb_pow(i as nat);
            assert(limb_pow((i + 1) as nat) == limb_base() * w);
            assert(lo * w - next * (limb_base() * w) == (x - y) * w) by (nonlinear_arith)
                requires
                    lo - next * limb_base() == x - y,
            ;
            assert((x - y) * w == digit(a@, i as int) * w - digit(b@, i as int) * w - borrow * w)
                by (nonlinear_arith)
                requires
                    x == digit(a@, i as int),
                    y == digit(b@, i as int) + borrow,
            ;
        }
        r.push(lo);
        borrow = next;
        i = i + 1;
    }
    proof {
        lemma_prefix_past_end(a@, n as nat);
        lemma_prefix_past_end(b@, n as nat);
    }
    (r, borrow == 1)
}

/// How two magnitudes compare: `-1`, `0` or `1`.
pub fn cmp_mag(a: &Vec<u32>, b: &Vec<u32>) -> (r: i8)
    ensures
        r == -1 <==> mag_val(a@) < mag_val(b@),
        r == 0 <==> mag_val(a@) == mag_val(b@),
        r == 1 <==> mag_val(a@) > mag_val(b@),
{
    let (mut d, borrow) = sub_limbs(a, b);
    proof {
        lemma_prefix_bound(d@, d@.len());
    }
    if borrow {
        return -1;
    }
    trim(&mut d);
    if d.len() == 0 {
        0
    } else {
        proof {
            lemma_canonical_lower(d@);
        }
        1
    }
}

/// `a - b` for magnitudes with `a >= b`.
pub fn sub_mag(a: &Vec<u32>, b: &Vec<u32>) -> (r: Vec<u32>)
    requires
        mag_val(a@) >= mag_val(b@),
    ensures
        mag_val(r@) == mag_val(a@) - mag_val(b@),
        canonical(r@),
{
    let (mut d, borrow) = sub_limbs(a, b);
    proof {
        lemma_prefix_bound(d@, d@.len());
    }
    trim(&mut d);
    d
}

/// `a * m` for a magnitude and one limb.
pub fn mul_limb(a: &Vec<u32>, m: u32) -> (r: Vec<u32>)
    ensures
        mag_val(r@) == mag_val(a@) * m,
        canonical(r@),
{
    let mut r: Vec<u32> = Vec::new();
    let mut carry: u64 = 0;
    let mut i: usize = 0;
    assert(mag_val(r@) == 0 && prefix_val(a@, 0) == 0);
    while i < a.len()
        invariant
            i <= a@.len(),
            r@.len() == i,
            carry < limb_base(),
            mag_val(r@) + carry * limb_pow(i as nat) == prefix_val(a@, i as nat) * m,
        decreases a@.len() - i,
    {
        let ai = a[i] as u64;
        assert(ai * (m as u64) <= 4294967295u64 * 4294967295u64) by (nonlinear_arith)
            requires
                ai <= 4294967295u64,
                m <= 4294967295u32,
        ;
        let x: u64 = ai * (m as u64) + carry;
        let lo = (x % 4294967296) as u32;
        let hi = x / 4294967296;
        proof {
            lemma_split(x);
            lemma_mag_push(r@, lo);
            let w = limb_pow(i as nat);
            assert(digit(a@, i as int) == ai);
            assert(limb_pow((i + 1) as nat) == limb_base() * w);
            assert(lo * w + hi * (limb_base() * w) == x * w) by (nonlinear_arith)
                requires
                    x == lo + limb_base() * hi,
            ;
            assert(x * w == (ai * w) * m + carry * w) by (nonlinear_arith)
                requires
                    x == ai * m + carry,
            ;
            assert((prefix_val(a@, i as nat) + ai * w) * m == prefix_val(a@, i as nat) * m + (ai
                * w) * m) by (nonlinear_arith);
        }
        r.push(lo);
        carry = hi;
        i = i + 1;
    }
    if carry > 0 {
        proof {
            lemma_mag_push(r@, carry as u32);
        }
        r.push(carry as u32);
    }
    trim(&mut r);
    r
}

/// Puts `d` below `s`: the magnitude `d + limb_base() * s`.
fn shift_in(d: u32, s: &Vec<u32>) -> (r: Vec<u32>)
    ensures
        mag_val(r@) == d + limb_base() * mag_val(s@),
        canonical(s@) ==> canonical(r@) || (d == 0 && s@.len() == 0),
{
    let mut r: Vec<u32> = Vec::new();
    r.push(d);
    let mut i: usize = 0;
    while i < s.len()
        invariant
            i <= s@.len(),
            r@ == seq![d] + s@.subrange(0, i as int),
        decreases s@.len() - i,
    {
        r.push(s[i]);
        i = i + 1;
        assert(r@ =~= seq![d] + s@.subrange(0, i as int));
    }
    assert(s@.subrange(0, s@.len() as int) =~= s@);
    proof {
        lemma_mag_prepend(d, s@);
    }
    r
}

/// The product of two magnitudes.
pub fn mul_mag(a: &Vec<u32>, b: &Vec<u32>) -> (r: Vec<u32>)
    ensures
        mag_val(r@) == mag_val(a@) * mag_val(b@),
        canonical(r@),
{
    let mut acc: Vec<u32> = Vec::new();
    let mut j: usize = b.len();
    assert(mag_val(b@.subrange(j as int, b@.len() as int)) == 0);
    assert(mag_val(acc@) == 0);
    while j > 0
        invariant
            j <= b@.len(),
            mag_val(acc@) == mag_val(a@) * mag_val(b@.subrange(j as int, b@.len() as int)),
            canonical(acc@),
        decreases j,
    {
        j = j - 1;
        let part = mul_limb(a, b[j]);
        let shifted = shift_in(0, &acc);
        proof {
            let hi = b@.subrange((j + 1) as int, b@.len() as int);
            assert(b@.subrange(j as int, b@.len() as int) =~= seq![b@[j as int]] + hi);
            lemma_mag_prepend(b@[j as int], hi);
            let x = mag_val(a@);
            let h = mag_val(hi);
            let bj = b@[j as int] as nat;
            assert(x * (bj + limb_base() * h) == x * bj + limb_base() * (x * h))
                by (nonlinear_arith);
        }
        acc = add_mag(&shifted, &part);
    }
    assert(b@.subrange(0, b@.len() as int) =~= b@);
    acc
}

/// The largest limb `q` with `d * q <= r`, given `r < d * limb_base()`.
fn quotient_limb(r: &Vec<u32>, d: &Vec<u32>) -> (q: u32)
    requires
        mag_val(r@) < mag_val(d@) * limb_base(),
    ensures
        mag_val(d@) * q <= mag_val(r@),
        mag_val(r@) < mag_val(d@) * (q + 1),
{
    let mut lo: u64 = 0;
    let mut hi: u64 = 4294967296;
    assert(mag_val(d@) * 0 == 0);
    while lo + 1 < hi
        invariant
            lo < hi <= 4294967296,
            mag_val(d@) * lo <= mag_val(r@),
            mag_val(r@) < mag_val(d@) * hi,
        decreases hi - lo,
    {
        let mid: u64 = lo + (hi - lo) / 2;
        let t = mul_limb(d, mid as u32);
        if cmp_mag(&t, r) <= 0 {
            lo = mid;
        } else {
            hi = mid;
        }
    }
    lo as u32
}

/// Truncating division of magnitudes: `(q, r)` with `a == q * d + r` and `r < d`.
pub fn divmod_mag(a: &Vec<u32>, d: &Vec<u32>) -> (res: (Vec<u32>, Vec<u32>))
    requires
        mag_val(d@) > 0,
    ensures
        mag_val(res.0@) * mag_val(d@) + mag_val(res.1@) == mag_val(a@),
        mag_val(res.1@) < mag_val(d@),
        canonical(res.0@),
        canonical(res.1@),
{
    let mut q: Vec<u32> = Vec::new();
    let mut r: Vec<u32> = Vec::new();
    let mut i: usize = a.len();
    assert(mag_val(a@.subrange(i as int, a@.len() as int)) == 0);
    assert(mag_val(q@) == 0 && mag_val(r@) == 0);
    while i > 0
        invariant
            i <= a@.len(),
            mag_val(q@) * mag_val(d@) + mag_val(r@) == mag_val(
                a@.subrange(i as int, a@.len() as int),
            ),
            mag_val(r@) < mag_val(d@),
            canonical(q@),
            canonical(r@),
        decreases i,
    {
        i = i - 1;
        let ai = a[i];
        let mut r1 = shift_in(ai, &r);
        trim(&mut r1);
        let ghost dv = mag_val(d@);
        let ghost rv = mag_val(r@);
        let ghost qv = mag_val(q@);
        assert(ai + limb_base() * rv < dv * limb_base()) by (nonlinear_arith)
            requires
                rv + 1 <= dv,
                ai < limb_base(),
        ;
        let qd = quotient_limb(&r1, d);
        let t = mul_limb(d, qd);
        assert(mag_val(t@) == dv * qd);
        let r2 = sub_mag(&r1, &t);
        let q2 = shift_in(qd, &q);
        proof {
            let hi = a@.subrange((i + 1) as int, a@.len() as int);
            assert(a@.subrange(i as int, a@.len() as int) =~= seq![ai] + hi);
            lemma_mag_prepend(ai, hi);
            assert((qd + limb_base() * qv) * dv + (ai + limb_base() * rv - dv * qd) == ai
                + limb_base() * (qv * dv + rv)) by (nonlinear_arith);
            assert(mag_val(r2@) < dv) by (nonlinear_arith)
                requires
                    mag_val(r2@) == ai + limb_base() * rv - dv * qd,
                    ai + limb_base() * rv < dv * (qd + 1),
            ;
        }
        let mut q3 = q2;
        trim(&mut q3);
        q = q3;
        r = r2;
    }
    assert(a@.subrange(0, a@.len() as int) =~= a@);
    (q, r)
}

/// Division rounding toward negative infinity, as the runtime's `/` does.
pub open spec fn floor_div(a: int, b: int) -> int
    recommends
        b != 0,
{
    if b > 0 {
        a / b
    } else {
        (-a) / (-b)
    }
}

/// The magnitude of a `u64`.
fn mag_of_u64(n: u64) -> (r: Vec<u32>)
    ensures
        mag_val(r@) == n,
        canonical(r@),
        r@.len() <= 2,
{
    let lo = (n % 4294967296) as u32;
    let hi = (n / 4294967296) as u32;
    proof {
        lemma_split(n);
        assert(n / 4294967296 < 4294967296);
        assert(limb_pow(0) == 1);
    }
    let mut r: Vec<u32> = Vec::new();
    assert(mag_val(r@) == 0);
    proof {
        lemma_mag_push(r@, lo);
    }
    r.push(lo);
    assert(mag_val(r@) == lo);
    proof {
        lemma_mag_push(r@, hi);
        assert(limb_pow(1) == limb_base());
    }
    r.push(hi);
    assert(mag_val(r@) == lo + hi * limb_base());
    assert(lo == n % 4294967296 && hi == n / 4294967296);
    trim(&mut r);
    r
}

/// The value of a magnitude that fits a `u64`, if it does.
fn mag_to_u64(m: &Vec<u32>) -> (r: Option<u64>)
    requires
        canonical(m@),
    ensures
        r == (if mag_val(m@) <= u64::MAX { Some(mag_val(m@) as u64) } else { None::<u64> }),
{
    if m.len() > 2 {
        proof {
            lemma_canonical_lower(m@);
            lemma_limb_pow_mono(2, (m@.len() - 1) as nat);
            assert(limb_pow(2) == limb_base() * limb_base()) by {
                assert(limb_pow(1) == limb_base() * limb_pow(0));
            }
        }
        return None;
    }
    let lo = limb_at(m, 0);
    let hi = limb_at(m, 1);
    proof {
        lemma_prefix_past_end(m@, 2);
        assert(limb_pow(1) == limb_base() * limb_pow(0));
        assert(limb_pow(0) == 1);
        assert(prefix_val(m@, 1) == prefix_val(m@, 0) + lo * limb_pow(0));
        assert(prefix_val(m@, 2) == prefix_val(m@, 1) + hi * limb_pow(1));
        assert(prefix_val(m@, 2) == lo + hi * limb_base());
    }
    assert(hi * 4294967296 + lo <= u64::MAX) by (nonlinear_arith)
        requires
            hi < 4294967296,
            lo < 4294967296,
    ;
    Some(hi * 4294967296 + lo)
}

/// An integer of any size: a sign and a canonical magnitude, with zero
/// never negative.
pub struct BigInt {
    negative: bool,
    mag: Vec<u32>,
}

impl BigInt {
    /// The magnitude is canonical and zero has no sign.
    pub closed spec fn wf(&self) -> bool {
        canonical(self.mag@) && (self.negative ==> self.mag@.len() > 0)
    }

    /// The integer this stands for.
    pub closed spec fn view(&self) -> int {
        if self.negative {
            -mag_val(self.mag@)
        } else {
            mag_val(self.mag@) as int
        }
    }

    fn from_parts(negative: bool, mag: Vec<u32>) -> (r: BigInt)
        requires
            canonical(mag@),
        ensures
            r.wf(),
            r@ == (if negative { -mag_val(mag@) } else { mag_val(mag@) as int }),
    {
        if mag.len() == 0 {
            BigInt { negative: false, mag }
        } else {
            BigInt { negative, mag }
        }
    }

    /// A second `BigInt` of the same value.
    pub fn copy(&self) -> (r: BigInt)
        requires
            self.wf(),
        ensures
            r.wf(),
            r@ == self@,
    {
        let mut mag: Vec<u32> = Vec::new();
        let mut i: usize = 0;
        while i < self.mag.len()
            invariant
                i <= self.mag@.len(),
                mag@ == self.mag@.subrange(0, i as int),
            decreases self.mag@.len() - i,
        {
            mag.push(self.mag[i]);
            i = i + 1;
            assert(mag@ =~= self.mag@.subrange(0, i as int));
        }
        assert(mag@ =~= self.mag@);
        BigInt { negative: self.negative, mag }
    }

    /// The integer `n`.
    pub fn from_u64(n: u64) -> (r: BigInt)
        ensures
            r.wf(),
            r@ == n as int,
    {
        BigInt::from_parts(false, mag_of_u64(n))
    }

    /// The integer `n`.
    pub fn from_i64(n: i64) -> (r: BigInt)
        ensures
            r.wf(),
            r@ == n as int,
    {
        if n < 0 {
            let m: u64 = ((-(n + 1)) as u64) + 1;
            BigInt::from_parts(true, mag_of_u64(m))
        } else {
            BigInt::from_parts(false, mag_of_u64(n as u64))
        }
    }

    /// Whether the integer is below zero.
    pub fn is_negative(&self) -> (r: bool)
        requires
            self.wf(),
        ensures
            r == (self@ < 0),
    {
        proof {
            if self.negative {
                lemma_canonical_lower(self.mag@);
            }
        }
        self.negative
    }

    /// The value as a `u64`, if it fits.
    pub fn to_u64(&self) -> (r: Option<u64>)
        requires
            self.wf(),
        ensures
            r == (if 0 <= self@ <= u64::MAX { Some(self@ as u64) } else { None::<u64> }),
    {
        proof {
            if self.negative {
                lemma_canonical_lower(self.mag@);
            }
        }
        if self.negative {
            None
        } else {
            mag_to_u64(&self.mag)
        }
    }

    /// The value as an `i64`, if it fits.
    pub fn to_i64(&self) -> (r: Option<i64>)
        requires
            self.wf(),
        ensures
            r == (if i64::MIN <= self@ <= i64::MAX { Some(self@ as i64) } else { None::<i64> }),
    {
        match mag_to_u64(&self.mag) {
            None => None,
            Some(m) => {
                if self.negative {
                    if m <= 9223372036854775808 {
                        if m == 9223372036854775808 {
                            Some(i64::MIN)
                        } else {
                            Some(-(m as i64))
                        }
                    } else {
                        None
                    }
                } else {
                    if m <= 9223372036854775807 {
                        Some(m as i64)
                    } else {
                        None
                    }
                }
            },
        }
    }

    /// How `self` compares with `other`: `-1`, `0` or `1`.
    pub fn cmp(&self, other: &BigInt) -> (r: i8)
        requires
            self.wf(),
            other.wf(),
        ensures
            r == -1 <==> self@ < other@,
            r == 0 <==> self@ == other@,
            r == 1 <==> self@ > other@,
    {
        proof {
            if self.negative {
                lemma_canonical_lower(self.mag@);
            }
            if other.negative {
                lemma_canonical_lower(other.mag@);
            }
        }
        if self.negative != other.negative {
            if self.negative {
                -1
            } else {
                1
            }
        } else {
            let c = cmp_mag(&self.mag, &other.mag);
            if self.negative {
                -c
            } else {
                c
            }
        }
    }

    /// `(-1)^s * a + (-1)^t * b` for signed magnitudes.
    fn signed_sum(s: bool, a: &Vec<u32>, t: bool, b: &Vec<u32>) -> (r: BigInt)
        ensures
            r.wf(),
            r@ == (if s { -mag_val(a@) } else { mag_val(a@) as int }) + (if t {
                -mag_val(b@)
            } else {
                mag_val(b@) as int
            }),
    {
        if s == t {
            BigInt::from_parts(s, add_mag(a, b))
        } else {
            let c = cmp_mag(a, b);
            if c >= 0 {
                BigInt::from_parts(s, sub_mag(a, b))
            } else {
                BigInt::from_parts(t, sub_mag(b, a))
            }
        }
    }

    /// `self + other`.
    pub fn add(&self, other: &BigInt) -> (r: BigInt)
        requires
            self.wf(),
            other.wf(),
        ensures
            r.wf(),
            r@ == self@ + other@,
    {
        BigInt::signed_sum(self.negative, &self.mag, other.negative, &other.mag)
    }

    /// `self - other`.
    pub fn sub(&self, other: &BigInt) -> (r: BigInt)
        requires
            self.wf(),
            other.wf(),
        ensures
            r.wf(),
            r@ == self@ - other@,
    {
        BigInt::signed_sum(self.negative, &self.mag, !other.negative, &other.mag)
    }

    /// `self * other`.
    pub fn mul(&self, other: &BigInt) -> (r: BigInt)
        requires
            self.wf(),
            other.wf(),
        ensures
            r.wf(),
            r@ == self@ * other@,
    {
        let m = mul_mag(&self.mag, &other.mag);
        proof {
            let x = mag_val(self.mag@) as int;
            let y = mag_val(other.mag@) as int;
            assert((-x) * y == -(x * y) && x * (-y) == -(x * y) && (-x) * (-y) == x * y)
                by (nonlinear_arith);
        }
        BigInt::from_parts(self.negative != other.negative, m)
    }

    /// Division rounding toward negative infinity.
    pub fn div(&self, other: &BigInt) -> (r: BigInt)
        requires
            self.wf(),
            other.wf(),
            other@ != 0,
        ensures
            r.wf(),
            r@ == floor_div(self@, other@),
    {
        proof {
            if other.mag@.len() > 0 {
                lemma_canonical_lower(other.mag@);
            }
        }
        let (q, rem) = divmod_mag(&self.mag, &other.mag);
        let ghost a = mag_val(self.mag@) as int;
        let ghost d = mag_val(other.mag@) as int;
        let ghost qv = mag_val(q@) as int;
        let ghost rv = mag_val(rem@) as int;
        // `x` is `self` with the sign of `other` folded in: floor_div is `x / d`.
        let ghost x: int = if other.negative { -self@ } else { self@ };
        assert(floor_div(self@, other@) == x / d);
        if self.negative == other.negative {
            proof {
                assert(x == a);
                lemma_fundamental_div_mod_converse_div(x, d, qv, rv);
            }
            BigInt::from_parts(false, q)
        } else if rem.len() == 0 {
            proof {
                assert(x == -a);
                assert(x == (-qv) * d + 0) by (nonlinear_arith)
                    requires
                        a == qv * d + rv,
                        rv == 0,
                        x == -a,
                ;
                lemma_fundamental_div_mod_converse_div(x, d, -qv, 0);
            }
            BigInt::from_parts(true, q)
        } else {
            let one = mag_of_u64(1);
            let q1 = add_mag(&q, &one);
            proof {
                lemma_canonical_lower(rem@);
                assert(x == (-qv - 1) * d + (d - rv)) by (nonlinear_arith)
                    requires
                        a == qv * d + rv,
                        x == -a,
                ;
                lemma_fundamental_div_mod_converse_div(x, d, -qv - 1, d - rv);
            }
            BigInt::from_parts(true, q1)
        }
    }
}

} // verus!
