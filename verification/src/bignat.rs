use vstd::prelude::*;

verus! {

/// The base of the digits of a [`BigNat`]: 2^32.
#[verifier::inline]
pub open spec fn base() -> nat {
    0x1_0000_0000
}

/// `base()` to the power `n`.
pub open spec fn pw(n: nat) -> nat
    decreases n,
{
    if n == 0 {
        1
    } else {
        base() * pw((n - 1) as nat)
    }
}

/// The `i`-th digit of `s`, or 0 past its end.
pub open spec fn limb(s: Seq<u32>, i: int) -> nat {
    if 0 <= i < s.len() {
        s[i] as nat
    } else {
        0
    }
}

/// The value of the first `n` digits of `s` (least significant first).
pub open spec fn pval(s: Seq<u32>, n: nat) -> nat
    decreases n,
{
    if n == 0 {
        0
    } else {
        pval(s, (n - 1) as nat) + limb(s, n - 1) * pw((n - 1) as nat)
    }
}

/// The value of a digit sequence (least significant first).
pub open spec fn val(s: Seq<u32>) -> nat {
    pval(s, s.len())
}

proof fn lemma_pval_same(s: Seq<u32>, t: Seq<u32>, n: nat)
    requires
        forall|j: int| 0 <= j < n ==> limb(s, j) == limb(t, j),
    ensures
        pval(s, n) == pval(t, n),
    decreases n,
{
    if n > 0 {
        lemma_pval_same(s, t, (n - 1) as nat);
        assert(limb(s, n - 1) == limb(t, n - 1));
    }
}

proof fn lemma_pval_extend(s: Seq<u32>, n: nat)
    requires
        n >= s.len(),
    ensures
        pval(s, n) == val(s),
    decreases n,
{
    if n > s.len() {
        let m = (n - 1) as nat;
        lemma_pval_extend(s, m);
        let l = limb(s, m as int);
        assert(l == 0);
        assert(l * pw(m) == 0) by (nonlinear_arith)
            requires
                l == 0,
        ;
    }
}

proof fn lemma_pval_bound(s: Seq<u32>, n: nat)
    ensures
        pval(s, n) < pw(n),
    decreases n,
{
    if n > 0 {
        let m = (n - 1) as nat;
        lemma_pval_bound(s, m);
        let l = limb(s, m as int);
        let p = pw(m);
        assert(l <= base() - 1);
        assert(l * p <= (base() - 1) * p) by (nonlinear_arith)
            requires
                l <= base() - 1,
                p >= 0,
        ;
        assert(pw(n) == base() * p);
    }
}

proof fn lemma_pval_diff(a: Seq<u32>, b: Seq<u32>, m: nat, n: nat)
    requires
        m <= n,
        forall|k: int| m <= k < n ==> limb(a, k) == limb(b, k),
    ensures
        pval(a, n) - pval(a, m) == pval(b, n) - pval(b, m),
    decreases n,
{
    if n > m {
        lemma_pval_diff(a, b, m, (n - 1) as nat);
        assert(limb(a, n - 1) == limb(b, n - 1));
    }
}

proof fn lemma_pval_empty(n: nat)
    ensures
        pval(Seq::<u32>::empty(), n) == 0,
    decreases n,
{
    if n > 0 {
        let m = (n - 1) as nat;
        lemma_pval_empty(m);
        let l = limb(Seq::<u32>::empty(), m as int);
        assert(l == 0);
        assert(l * pw(m) == 0) by (nonlinear_arith)
            requires
                l == 0,
        ;
    }
}

proof fn lemma_pval_shift(s: Seq<u32>, j: nat, n: nat)
    ensures
        pval(Seq::new(j, |k: int| 0u32) + s, j + n) == pw(j) * pval(s, n),
    decreases n,
{
    let z = Seq::new(j, |k: int| 0u32) + s;
    if n == 0 {
        assert forall|q: int| 0 <= q < j implies limb(z, q) == limb(Seq::<u32>::empty(), q) by {
            assert(z[q] == 0u32);
        }
        lemma_pval_same(z, Seq::<u32>::empty(), j);
        lemma_pval_empty(j);
        let pj = pw(j);
        assert(pval(s, 0) == 0);
        assert(pj * pval(s, 0) == 0) by (nonlinear_arith)
            requires
                pval(s, 0) == 0,
        ;
        assert(j + n == j);
    } else {
        let m = (n - 1) as nat;
        lemma_pval_shift(s, j, m);
        lemma_pw_add(j, m);
        if m < s.len() {
            assert(z[(j + m) as int] == s[m as int]);
        }
        assert(limb(z, (j + m) as int) == limb(s, m as int));
        let a = pval(z, j + m);
        let p = pw(j);
        let sv = pval(s, m);
        let l = limb(s, m as int);
        let q = pw(m);
        assert(a == p * sv);
        assert(j + n - 1 == j + m);
        assert(pval(z, j + n) == a + l * pw(j + m));
        assert(pw(j + m) == p * q);
        assert(pval(s, n) == sv + l * q);
        assert(a + l * (p * q) == p * (sv + l * q)) by (nonlinear_arith)
            requires
                a == p * sv,
        ;
    }
}

/// Where two digit sequences agree above digit `i` and differ below it in
/// favour of `b` at `i`, `a` is the smaller.
proof fn lemma_lt_at(a: Seq<u32>, b: Seq<u32>, i: nat, n: nat)
    requires
        i < n,
        n >= a.len(),
        n >= b.len(),
        forall|k: int| i < k < n ==> limb(a, k) == limb(b, k),
        limb(a, i as int) < limb(b, i as int),
    ensures
        val(a) < val(b),
{
    let p = pw(i);
    let x = limb(a, i as int);
    let y = limb(b, i as int);
    lemma_pval_diff(a, b, i + 1, n);
    lemma_pval_extend(a, n);
    lemma_pval_extend(b, n);
    lemma_pval_bound(a, i);
    assert(pval(a, i + 1) == pval(a, i) + x * p);
    assert(pval(b, i + 1) == pval(b, i) + y * p);
    assert((x + 1) * p <= y * p) by (nonlinear_arith)
        requires
            x + 1 <= y,
            p >= 0,
    ;
    assert((x + 1) * p == x * p + p) by (nonlinear_arith);
}

proof fn lemma_pw_add(a: nat, b: nat)
    ensures
        pw(a + b) == pw(a) * pw(b),
    decreases b,
{
    if b > 0 {
        let c = (b - 1) as nat;
        lemma_pw_add(a, c);
        let x = pw(a);
        let y = pw(c);
        assert(pw(a + c) == x * y);
        assert(pw(a + b) == base() * pw(a + c));
        assert(pw(b) == base() * y);
        assert(base() * (x * y) == x * (base() * y)) by (nonlinear_arith);
    } else {
        let x = pw(a);
        assert(pw(0) == 1);
        assert(x * pw(0) == x) by (nonlinear_arith)
            requires
                pw(0) == 1,
        ;
        assert(a + b == a);
    }
}

/// A natural number of any size, as digits in base 2^32 (least significant
/// first; high zero digits are allowed).
#[derive(Debug)]
pub struct BigNat {
    limbs: Vec<u32>,
}

impl View for BigNat {
    type V = nat;

    closed spec fn view(&self) -> nat {
        val(self.limbs@)
    }
}

impl BigNat {
    /// The digits, least significant first.
    pub fn limbs(&self) -> (r: &Vec<u32>)
        ensures
            val(r@) == self@,
    {
        &self.limbs
    }

    /// Zero.
    pub fn zero() -> (r: BigNat)
        ensures
            r@ == 0,
    {
        BigNat { limbs: Vec::new() }
    }

    /// The number `x`.
    pub fn from_u64(x: u64) -> (r: BigNat)
        ensures
            r@ == x,
    {
        let lo: u32 = (x % 0x1_0000_0000) as u32;
        let hi: u32 = (x / 0x1_0000_0000) as u32;
        let mut limbs: Vec<u32> = Vec::new();
        limbs.push(lo);
        limbs.push(hi);
        let r = BigNat { limbs };
        proof {
            assert(pw(0) == 1);
            assert(pw(1) == base());
            assert(limb(limbs@, 0) == lo);
            assert(limb(limbs@, 1) == hi);
            assert(pval(limbs@, 0) == 0);
            assert(lo * pw(0) == lo) by (nonlinear_arith)
                requires
                    pw(0) == 1,
            ;
            assert(hi * pw(1) == hi * base()) by (nonlinear_arith)
                requires
                    pw(1) == base(),
            ;
            assert(pval(limbs@, 1) == lo);
            assert(pval(limbs@, 2) == lo + hi * base());
            assert(x == lo + hi * base());
        }
        r
    }

    /// The number `x`.
    pub fn from_usize(x: usize) -> (r: BigNat)
        ensures
            r@ == x,
    {
        BigNat::from_u64(x as u64)
    }

    /// A copy of the number.
    pub fn copy(&self) -> (r: BigNat)
        ensures
            r@ == self@,
    {
        let mut limbs: Vec<u32> = Vec::new();
        let mut i: usize = 0;
        while i < self.limbs.len()
            invariant
                i <= self.limbs.len(),
                limbs@ == self.limbs@.take(i as int),
            decreases self.limbs.len() - i,
        {
            limbs.push(self.limbs[i]);
            i = i + 1;
            assert(limbs@ =~= self.limbs@.take(i as int));
        }
        assert(limbs@ =~= self.limbs@);
        BigNat { limbs }
    }

    /// The sum of two numbers.
    pub fn add(&self, other: &BigNat) -> (r: BigNat)
        ensures
            r@ == self@ + other@,
    {
        let a = &self.limbs;
        let b = &other.limbs;
        let n: usize = if a.len() > b.len() {
            a.len()
        } else {
            b.len()
        };
        let mut r: Vec<u32> = Vec::new();
        let mut carry: u64 = 0;
        let mut i: usize = 0;
        while i < n
            invariant
                i <= n,
                n >= a.len(),
                n >= b.len(),
                r.len() == i,
                carry <= 1,
                pval(r@, i as nat) + carry * pw(i as nat) == pval(a@, i as nat) + pval(b@, i as nat),
            decreases n - i,
        {
            let x: u64 = if i < a.len() {
                a[i] as u64
            } else {
                0
            };
            let y: u64 = if i < b.len() {
                b[i] as u64
            } else {
                0
            };
            let t: u64 = x + y + carry;
            let d: u32 = (t % 0x1_0000_0000) as u32;
            let c: u64 = t / 0x1_0000_0000;
            let ghost old_r = r@;
            r.push(d);
            proof {
                let p = pw(i as nat);
                assert(x == limb(a@, i as int));
                assert(y == limb(b@, i as int));
                assert(t == d + c * base());
                lemma_pval_same(old_r, r@, i as nat);
                assert(limb(r@, i as int) == d);
                assert(pval(r@, (i + 1) as nat) == pval(old_r, i as nat) + d * p);
                assert(pw((i + 1) as nat) == base() * p);
                assert(c * (base() * p) == (c * base()) * p) by (nonlinear_arith);
                assert(t * p == d * p + (c * base()) * p) by (nonlinear_arith)
                    requires
                        t == d + c * base(),
                ;
                assert(t * p == x * p + y * p + carry * p) by (nonlinear_arith)
                    requires
                        t == x + y + carry,
                ;
            }
            carry = c;
            i = i + 1;
        }
        let ghost old_r = r@;
        r.push(carry as u32);
        proof {
            lemma_pval_same(old_r, r@, n as nat);
            lemma_pval_extend(a@, n as nat);
            lemma_pval_extend(b@, n as nat);
            assert(limb(r@, n as int) == carry);
            assert(val(r@) == pval(r@, (n + 1) as nat));
        }
        BigNat { limbs: r }
    }

    /// The number times a digit.
    fn mul_digit(&self, x: u32) -> (r: BigNat)
        ensures
            r@ == self@ * x,
    {
        let a = &self.limbs;
        let mut r: Vec<u32> = Vec::new();
        let mut carry: u64 = 0;
        let mut i: usize = 0;
        proof {
            let z = pval(a@, 0);
            assert(z == 0);
            assert(z * x == 0) by (nonlinear_arith)
                requires
                    z == 0,
            ;
            assert(pval(r@, 0) == 0);
        }
        while i < a.len()
            invariant
                i <= a.len(),
                r.len() == i,
                carry < base(),
                pval(r@, i as nat) + carry * pw(i as nat) == pval(a@, i as nat) * x,
            decreases a.len() - i,
        {
            let ai: u64 = a[i] as u64;
            let xx: u64 = x as u64;
            assert(ai * xx <= (base() - 1) * (base() - 1)) by (nonlinear_arith)
                requires
                    ai < base(),
                    xx < base(),
            ;
            let t: u64 = ai * xx + carry;
            let d: u32 = (t % 0x1_0000_0000) as u32;
            let c: u64 = t / 0x1_0000_0000;
            let ghost old_r = r@;
            r.push(d);
            proof {
                let p = pw(i as nat);
                assert(ai == limb(a@, i as int));
                assert(t == d + c * base());
                lemma_pval_same(old_r, r@, i as nat);
                assert(limb(r@, i as int) == d);
                assert(pval(r@, (i + 1) as nat) == pval(old_r, i as nat) + d * p);
                assert(pw((i + 1) as nat) == base() * p);
                assert(pval(a@, (i + 1) as nat) == pval(a@, i as nat) + ai * p);
                assert(c * (base() * p) == (c * base()) * p) by (nonlinear_arith);
                assert(t * p == d * p + (c * base()) * p) by (nonlinear_arith)
                    requires
                        t == d + c * base(),
                ;
                assert(t * p == (ai * xx) * p + carry * p) by (nonlinear_arith)
                    requires
                        t == ai * xx + carry,
                ;
                assert((pval(a@, i as nat) + ai * p) * xx == pval(a@, i as nat) * xx + (ai * xx) * p)
                    by (nonlinear_arith);
            }
            carry = c;
            i = i + 1;
        }
        let ghost old_r = r@;
        r.push(carry as u32);
        proof {
            lemma_pval_same(old_r, r@, a.len() as nat);
            assert(limb(r@, a.len() as int) == carry);
            assert(val(r@) == pval(r@, (a.len() + 1) as nat));
        }
        BigNat { limbs: r }
    }

    /// The number times `base()` to the power `j`.
    fn shifted(&self, j: usize) -> (r: BigNat)
        ensures
            r@ == self@ * pw(j as nat),
    {
        let mut limbs: Vec<u32> = Vec::new();
        let mut k: usize = 0;
        while k < j
            invariant
                k <= j,
                limbs@ == Seq::new(k as nat, |q: int| 0u32),
            decreases j - k,
        {
            limbs.push(0);
            k = k + 1;
            assert(limbs@ =~= Seq::new(k as nat, |q: int| 0u32));
        }
        let mut i: usize = 0;
        while i < self.limbs.len()
            invariant
                i <= self.limbs.len(),
                limbs@ == Seq::new(j as nat, |q: int| 0u32) + self.limbs@.take(i as int),
            decreases self.limbs.len() - i,
        {
            limbs.push(self.limbs[i]);
            i = i + 1;
            assert(limbs@ =~= Seq::new(j as nat, |q: int| 0u32) + self.limbs@.take(i as int));
        }
        proof {
            assert(self.limbs@.take(i as int) =~= self.limbs@);
            lemma_pval_shift(self.limbs@, j as nat, self.limbs@.len());
            assert(self@ * pw(j as nat) == pw(j as nat) * self@) by (nonlinear_arith);
        }
        BigNat { limbs }
    }

    /// The product of two numbers.
    pub fn mul(&self, other: &BigNat) -> (r: BigNat)
        ensures
            r@ == self@ * other@,
    {
        let b = &other.limbs;
        let mut acc = BigNat::zero();
        let mut j: usize = 0;
        while j < b.len()
            invariant
                j <= b.len(),
                acc@ == self@ * pval(b@, j as nat),
            decreases b.len() - j,
        {
            let part = self.mul_digit(b[j]).shifted(j);
            acc = acc.add(&part);
            proof {
                let p = pw(j as nat);
                let d = b@[j as int] as nat;
                assert(limb(b@, j as int) == d);
                assert(pval(b@, (j + 1) as nat) == pval(b@, j as nat) + d * p);
                assert(self@ * pval(b@, j as nat) + (self@ * d) * p == self@ * (pval(b@, j as nat)
                    + d * p)) by (nonlinear_arith);
            }
            j = j + 1;
        }
        acc
    }

    /// Whether this number is less than `other`.
    pub fn lt(&self, other: &BigNat) -> (r: bool)
        ensures
            r == (self@ < other@),
    {
        let a = &self.limbs;
        let b = &other.limbs;
        let n: usize = if a.len() > b.len() {
            a.len()
        } else {
            b.len()
        };
        let mut i: usize = n;
        while i > 0
            invariant
                i <= n,
                n >= a.len(),
                n >= b.len(),
                forall|k: int| i <= k < n ==> limb(a@, k) == limb(b@, k),
                a@ == self.limbs@,
                b@ == other.limbs@,
            decreases i,
        {
            i = i - 1;
            let x: u32 = if i < a.len() {
                a[i]
            } else {
                0
            };
            let y: u32 = if i < b.len() {
                b[i]
            } else {
                0
            };
            if x != y {
                proof {
                    assert(x == limb(a@, i as int));
                    assert(y == limb(b@, i as int));
                    if x < y {
                        lemma_lt_at(a@, b@, i as nat, n as nat);
                        assert(val(a@) < val(b@));
                    } else {
                        lemma_lt_at(b@, a@, i as nat, n as nat);
                        assert(val(b@) < val(a@));
                    }
                    assert(self@ == val(a@));
                    assert(other@ == val(b@));
                }
                return x < y;
            }
        }
        proof {
            lemma_pval_diff(a@, b@, 0, n as nat);
            lemma_pval_extend(a@, n as nat);
            lemma_pval_extend(b@, n as nat);
        }
        false
    }

    /// Whether this number is zero.
    pub fn is_zero(&self) -> (r: bool)
        ensures
            r == (self@ == 0),
    {
        !BigNat::zero().lt(self)
    }
}

} // verus!
