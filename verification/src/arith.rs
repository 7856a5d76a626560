//! Arbitrary-width big-endian byte arithmetic.
//!
//! Every machine word, storage key and intermediate wide value in this crate
//! is a byte vector interpreted as a big-endian natural number. This module
//! defines that interpretation (`be_val`), the lemmas that relate it to
//! indexing, slicing and updating, and verified carry/borrow loops for
//! addition, subtraction, comparison, shifting, multiplication and long
//! division at any width.
use vstd::prelude::*;
use vstd::arithmetic::power::{
    pow, lemma_pow_adds, lemma_pow_multiplies, lemma_pow_positive, lemma_pow_division_inequality,
};
use vstd::arithmetic::div_mod::{
    lemma_fundamental_div_mod, lemma_fundamental_div_mod_converse, lemma_breakdown,
    lemma_div_denominator,
};
use vstd::arithmetic::mul::{
    lemma_mul_inequality, lemma_mul_strict_inequality, lemma_mul_is_distributive_add_other_way,
};

verus! {

/// The natural number denoted by a big-endian byte string.
pub open spec fn be_val(s: Seq<u8>) -> nat
    decreases s.len(),
{
    if s.len() == 0 {
        0
    } else {
        be_val(s.drop_last()) * 256 + s.last() as nat
    }
}

/// Numeric value of the bit `b`.
pub open spec fn bit_val(b: bool) -> nat {
    if b {
        1
    } else {
        0
    }
}

/// One unfolding of the power function at base 256.
pub proof fn lemma_pow256_step(e: nat)
    ensures
        pow(256, e + 1) == 256 * pow(256, e),
{
    reveal(pow);
}

/// One unfolding of the power function at base 2.
pub proof fn lemma_pow2_step(e: nat)
    ensures
        pow(2, e + 1) == 2 * pow(2, e),
{
    reveal(pow);
}

/// A big-endian string of n bytes denotes less than 256^n.
pub proof fn lemma_be_val_bound(s: Seq<u8>)
    ensures
        be_val(s) < pow(256, s.len() as nat),
    decreases s.len(),
{
    if s.len() == 0 {
        vstd::arithmetic::power::lemma_pow0(256);
    } else {
        lemma_be_val_bound(s.drop_last());
        lemma_pow256_step((s.len() - 1) as nat);
        assert(be_val(s.drop_last()) * 256 <= (pow(256, (s.len() - 1) as nat) - 1) * 256) by {
            lemma_mul_inequality(
                be_val(s.drop_last()) as int,
                pow(256, (s.len() - 1) as nat) - 1,
                256,
            );
        }
    }
}

/// Splitting a big-endian string at position k splits its value.
pub proof fn lemma_be_val_split(s: Seq<u8>, k: int)
    requires
        0 <= k <= s.len(),
    ensures
        be_val(s) == be_val(s.take(k)) * pow(256, (s.len() - k) as nat) + be_val(s.skip(k)),
    decreases s.len() - k,
{
    if k == s.len() {
        assert(s.take(k) =~= s);
        assert(s.skip(k) =~= Seq::<u8>::empty());
        vstd::arithmetic::power::lemma_pow0(256);
    } else {
        let dl = s.drop_last();
        lemma_be_val_split(dl, k);
        assert(dl.take(k) =~= s.take(k));
        assert(dl.skip(k) =~= s.skip(k).drop_last());
        assert(s.skip(k).last() == s.last());
        assert(s.skip(k).len() > 0);
        assert(be_val(s.skip(k)) == be_val(s.skip(k).drop_last()) * 256 + s.skip(k).last());
        let e = (s.len() - 1 - k) as nat;
        lemma_pow256_step(e);
        assert(be_val(s.take(k)) * pow(256, e) * 256 == be_val(s.take(k)) * (256 * pow(256, e)))
            by (nonlinear_arith);
        assert(be_val(s) == be_val(dl) * 256 + s.last());
        assert((be_val(s.take(k)) * pow(256, e) + be_val(dl.skip(k))) * 256 == be_val(s.take(k))
            * pow(256, e) * 256 + be_val(dl.skip(k)) * 256) by (nonlinear_arith);
    }
}

/// The value of a one-byte string is that byte.
pub proof fn lemma_be_val_single(s: Seq<u8>)
    requires
        s.len() == 1,
    ensures
        be_val(s) == s[0],
{
    assert(s.drop_last() =~= Seq::<u8>::empty());
    assert(be_val(s.drop_last()) == 0);
}

/// Peeling the leading byte off a suffix.
pub proof fn lemma_be_val_skip_front(s: Seq<u8>, i: int)
    requires
        0 <= i < s.len(),
    ensures
        be_val(s.skip(i)) == s[i] * pow(256, (s.len() - i - 1) as nat) + be_val(s.skip(i + 1)),
{
    let t = s.skip(i);
    lemma_be_val_split(t, 1);
    assert(t.take(1).len() == 1);
    lemma_be_val_single(t.take(1));
    assert(t.take(1)[0] == s[i]);
    assert(t.skip(1) =~= s.skip(i + 1));
}

/// Extending a prefix by one byte.
pub proof fn lemma_be_val_take_step(s: Seq<u8>, i: int)
    requires
        0 <= i < s.len(),
    ensures
        be_val(s.take(i + 1)) == be_val(s.take(i)) * 256 + s[i],
{
    assert(s.take(i + 1).drop_last() =~= s.take(i));
    assert(s.take(i + 1).last() == s[i]);
}

/// A big-endian string denotes zero exactly when every byte is zero.
pub proof fn lemma_be_val_zero(s: Seq<u8>)
    ensures
        (be_val(s) == 0) <==> (forall|i: int| 0 <= i < s.len() ==> s[i] == 0),
    decreases s.len(),
{
    if s.len() > 0 {
        lemma_be_val_zero(s.drop_last());
        assert(be_val(s) == be_val(s.drop_last()) * 256 + s.last());
        if be_val(s) == 0 {
            assert(be_val(s.drop_last()) == 0);
            assert forall|i: int| 0 <= i < s.len() implies s[i] == 0 by {
                if i < s.len() - 1 {
                    assert(s.drop_last()[i] == 0);
                } else {
                    assert(s[i] == s.last());
                }
            }
        }
        if forall|i: int| 0 <= i < s.len() ==> s[i] == 0 {
            assert forall|i: int| 0 <= i < s.len() - 1 implies #[trigger] s.drop_last()[i] == 0 by {
                assert(s[i] == 0);
            }
            assert(be_val(s.drop_last()) == 0);
            assert(s[s.len() - 1] == 0);
            assert(be_val(s) == 0);
        }
    }
}

/// If two equal-length strings agree on a prefix and differ next, the values
/// are ordered by the first differing byte.
pub proof fn lemma_be_val_digit_order(a: Seq<u8>, b: Seq<u8>, i: int)
    requires
        a.len() == b.len(),
        0 <= i < a.len(),
        a.take(i) == b.take(i),
        a[i] < b[i],
    ensures
        be_val(a) < be_val(b),
{
    let n = a.len();
    let e = (n - i - 1) as nat;
    lemma_be_val_split(a, i);
    lemma_be_val_split(b, i);
    lemma_be_val_skip_front(a, i);
    lemma_be_val_skip_front(b, i);
    lemma_be_val_bound(a.skip(i + 1));
    assert(a.skip(i + 1).len() == e);
    lemma_pow_positive(256, e);
    assert(a[i] * pow(256, e) + pow(256, e) <= b[i] * pow(256, e)) by {
        lemma_mul_is_distributive_add_other_way(pow(256, e), a[i] as int, 1);
        lemma_mul_inequality(a[i] + 1, b[i] as int, pow(256, e));
    }
}

/// 256^n == 2^(8n).
pub proof fn lemma_pow256_pow2(n: nat)
    ensures
        pow(256, n) == pow(2, 8 * n),
{
    assert(pow(2, 8) == 256) by {
        reveal_with_fuel(pow, 9);
    }
    lemma_pow_multiplies(2, 8, n);
}

/// Copies a byte vector.
pub fn be_copy(a: &Vec<u8>) -> (r: Vec<u8>)
    ensures
        r@ == a@,
{
    let r = a.clone();
    proof {
        assert forall|i: int| 0 <= i < a@.len() implies a@[i] == r@[i] by {
            assert(cloned::<u8>(a@[i], r@[i]));
        }
        assert(r@ =~= a@);
    }
    r
}

/// A vector of n zero bytes; its value is zero.
pub fn be_zeros(n: usize) -> (r: Vec<u8>)
    ensures
        r@.len() == n,
        be_val(r@) == 0,
        forall|i: int| 0 <= i < n ==> r@[i] == 0,
{
    let mut r: Vec<u8> = Vec::new();
    let mut k: usize = 0;
    while k < n
        invariant
            k <= n,
            r@.len() == k,
            forall|i: int| 0 <= i < k ==> r@[i] == 0,
        decreases n - k,
    {
        r.push(0);
        k += 1;
    }
    proof {
        lemma_be_val_zero(r@);
    }
    r
}

/// Prepends `extra` zero bytes, preserving the value.
pub fn be_zext(a: &Vec<u8>, extra: usize) -> (r: Vec<u8>)
    requires
        a@.len() + extra <= usize::MAX,
    ensures
        r@.len() == a@.len() + extra,
        be_val(r@) == be_val(a@),
        r@.skip(extra as int) == a@,
        forall|i: int| 0 <= i < extra ==> r@[i] == 0,
{
    let mut r = be_zeros(extra);
    let mut k: usize = 0;
    let n = a.len();
    while k < n
        invariant
            k <= n,
            n == a@.len(),
            r@.len() == extra + k,
            forall|i: int| 0 <= i < extra ==> r@[i] == 0,
            r@.skip(extra as int) =~= a@.take(k as int),
        decreases n - k,
    {
        r.push(a[k]);
        proof {
            assert(r@.skip(extra as int) =~= a@.take(k + 1));
        }
        k += 1;
    }
    proof {
        assert(r@.skip(extra as int) =~= a@);
        lemma_be_val_split(r@, extra as int);
        lemma_be_val_zero(r@.take(extra as int));
        assert(forall|i: int|
            0 <= i < extra ==> #[trigger] r@.take(extra as int)[i] == r@[i]);
    }
    r
}

/// Addition with carry-in: r + carry_out * 256^n == a + b + carry_in.
pub fn be_add_c(a: &Vec<u8>, b: &Vec<u8>, c0: bool) -> (res: (Vec<u8>, bool))
    requires
        a@.len() == b@.len(),
    ensures
        res.0@.len() == a@.len(),
        be_val(res.0@) + bit_val(res.1) * pow(256, a@.len() as nat) == be_val(a@) + be_val(b@)
            + bit_val(c0),
{
    let n = a.len();
    let mut r = be_zeros(n);
    let mut carry: bool = c0;
    let mut j: usize = 0;
    proof {
        assert(r@.skip(n as int) =~= Seq::<u8>::empty());
        assert(a@.skip(n as int) =~= Seq::<u8>::empty());
        assert(b@.skip(n as int) =~= Seq::<u8>::empty());
        vstd::arithmetic::power::lemma_pow0(256);
    }
    while j < n
        invariant
            j <= n,
            n == a@.len(),
            n == b@.len(),
            r@.len() == n,
            be_val(r@.skip(n - j)) + bit_val(carry) * pow(256, j as nat) == be_val(a@.skip(n - j))
                + be_val(b@.skip(n - j)) + bit_val(c0),
        decreases n - j,
    {
        let i = n - 1 - j;
        let cin: u16 = if carry {
            1
        } else {
            0
        };
        let t: u16 = a[i] as u16 + b[i] as u16 + cin;
        let (lo, cnew): (u8, bool) = if t >= 256 {
            ((t - 256) as u8, true)
        } else {
            (t as u8, false)
        };
        let ghost r_old = r@;
        let ghost carry_old = carry;
        r.set(i, lo);
        carry = cnew;
        proof {
            let ii = i as int;
            let jn = j as nat;
            assert(r@.skip(ii + 1) =~= r_old.skip(ii + 1));
            lemma_be_val_skip_front(r@, ii);
            lemma_be_val_skip_front(a@, ii);
            lemma_be_val_skip_front(b@, ii);
            lemma_pow256_step(jn);
            let p = pow(256, jn);
            lemma_pow_positive(256, jn);
            assert(lo + 256 * bit_val(cnew) == a@[ii] + b@[ii] + bit_val(carry_old));
            assert((lo as int) * p + (256 * bit_val(cnew)) * p == (a@[ii] as int) * p + (
            b@[ii] as int) * p + bit_val(carry_old) * p) by (nonlinear_arith)
                requires
                    lo + 256 * bit_val(cnew) == a@[ii] + b@[ii] + bit_val(carry_old),
                    p >= 0,
            ;
            assert((256 * bit_val(cnew)) * p == bit_val(cnew) * (256 * p)) by (nonlinear_arith);
        }
        j += 1;
    }
    proof {
        assert(r@.skip(0) =~= r@);
        assert(a@.skip(0) =~= a@);
        assert(b@.skip(0) =~= b@);
    }
    (r, carry)
}

/// Subtraction with borrow: r == a - b + borrow * 256^n, and the borrow bit
/// is set exactly when a < b.
pub fn be_sub_b(a: &Vec<u8>, b: &Vec<u8>) -> (res: (Vec<u8>, bool))
    requires
        a@.len() == b@.len(),
    ensures
        res.0@.len() == a@.len(),
        be_val(res.0@) as int == be_val(a@) - be_val(b@) + bit_val(res.1) * pow(
            256,
            a@.len() as nat,
        ),
        res.1 <==> be_val(a@) < be_val(b@),
{
    let n = a.len();
    let mut r = be_zeros(n);
    let mut borrow: bool = false;
    let mut j: usize = 0;
    proof {
        assert(r@.skip(n as int) =~= Seq::<u8>::empty());
        assert(a@.skip(n as int) =~= Seq::<u8>::empty());
        assert(b@.skip(n as int) =~= Seq::<u8>::empty());
        vstd::arithmetic::power::lemma_pow0(256);
    }
    while j < n
        invariant
            j <= n,
            n == a@.len(),
            n == b@.len(),
            r@.len() == n,
            be_val(r@.skip(n - j)) as int == be_val(a@.skip(n - j)) - be_val(b@.skip(n - j))
                + bit_val(borrow) * pow(256, j as nat),
        decreases n - j,
    {
        let i = n - 1 - j;
        let bin: i16 = if borrow {
            1
        } else {
            0
        };
        let t: i16 = a[i] as i16 - b[i] as i16 - bin;
        let (lo, bnew): (u8, bool) = if t < 0 {
            ((t + 256) as u8, true)
        } else {
            (t as u8, false)
        };
        let ghost r_old = r@;
        let ghost borrow_old = borrow;
        r.set(i, lo);
        borrow = bnew;
        proof {
            let ii = i as int;
            let jn = j as nat;
            assert(r@.skip(ii + 1) =~= r_old.skip(ii + 1));
            lemma_be_val_skip_front(r@, ii);
            lemma_be_val_skip_front(a@, ii);
            lemma_be_val_skip_front(b@, ii);
            lemma_pow_adds(256, jn, 1);
            assert(pow(256, 1) == 256) by {
                reveal_with_fuel(pow, 2);
            }
            let p = pow(256, jn);
            lemma_pow_positive(256, jn);
            assert(lo as int - 256 * bit_val(bnew) == a@[ii] - b@[ii] - bit_val(borrow_old));
            assert((lo as int) * p - (256 * bit_val(bnew)) * p == (a@[ii] as int) * p - (
            b@[ii] as int) * p - bit_val(borrow_old) * p) by (nonlinear_arith)
                requires
                    lo as int - 256 * bit_val(bnew) == a@[ii] - b@[ii] - bit_val(borrow_old),
                    p >= 0,
            ;
            assert((256 * bit_val(bnew)) * p == bit_val(bnew) * (256 * p)) by (nonlinear_arith);
        }
        j += 1;
    }
    proof {
        assert(r@.skip(0) =~= r@);
        assert(a@.skip(0) =~= a@);
        assert(b@.skip(0) =~= b@);
        lemma_be_val_bound(r@);
        lemma_be_val_bound(a@);
        lemma_be_val_bound(b@);
        lemma_pow_positive(256, n as nat);
    }
    (r, borrow)
}

/// Strict comparison of equal-length big-endian strings.
pub fn be_lt(a: &Vec<u8>, b: &Vec<u8>) -> (r: bool)
    requires
        a@.len() == b@.len(),
    ensures
        r <==> be_val(a@) < be_val(b@),
{
    let n = a.len();
    let mut i: usize = 0;
    while i < n
        invariant
            i <= n,
            n == a@.len(),
            n == b@.len(),
            a@.take(i as int) =~= b@.take(i as int),
        decreases n - i,
    {
        if a[i] < b[i] {
            proof {
                lemma_be_val_digit_order(a@, b@, i as int);
            }
            return true;
        }
        if a[i] > b[i] {
            proof {
                lemma_be_val_digit_order(b@, a@, i as int);
            }
            return false;
        }
        proof {
            assert(a@.take(i + 1) =~= b@.take(i + 1));
        }
        i += 1;
    }
    proof {
        assert(a@.take(n as int) =~= a@);
        assert(b@.take(n as int) =~= b@);
    }
    false
}

/// Byte-for-byte equality of equal-length strings.
pub fn be_eq(a: &Vec<u8>, b: &Vec<u8>) -> (r: bool)
    requires
        a@.len() == b@.len(),
    ensures
        r <==> a@ == b@,
{
    let n = a.len();
    let mut i: usize = 0;
    while i < n
        invariant
            i <= n,
            n == a@.len(),
            n == b@.len(),
            forall|t: int| 0 <= t < i ==> a@[t] == b@[t],
        decreases n - i,
    {
        if a[i] != b[i] {
            proof {
                assert(a@[i as int] != b@[i as int]);
            }
            return false;
        }
        i += 1;
    }
    proof {
        assert(a@ =~= b@);
    }
    true
}

/// Tests whether every byte is zero, i.e. the value is zero.
pub fn be_is_zero(a: &Vec<u8>) -> (r: bool)
    ensures
        r <==> be_val(a@) == 0,
{
    let n = a.len();
    let mut i: usize = 0;
    proof {
        lemma_be_val_zero(a@);
    }
    while i < n
        invariant
            i <= n,
            n == a@.len(),
            forall|t: int| 0 <= t < i ==> a@[t] == 0,
        decreases n - i,
    {
        if a[i] != 0 {
            proof {
                lemma_be_val_zero(a@);
            }
            return false;
        }
        i += 1;
    }
    true
}

/// Halves the value: r == a / 2.
pub fn be_shr1(a: &Vec<u8>) -> (r: Vec<u8>)
    ensures
        r@.len() == a@.len(),
        be_val(r@) == be_val(a@) / 2,
{
    let n = a.len();
    let mut r = be_zeros(n);
    let mut carry: bool = false;
    let mut j: usize = 0;
    proof {
        assert(r@.take(0) =~= Seq::<u8>::empty());
        assert(a@.take(0) =~= Seq::<u8>::empty());
    }
    while j < n
        invariant
            j <= n,
            n == a@.len(),
            r@.len() == n,
            be_val(a@.take(j as int)) == 2 * be_val(r@.take(j as int)) + bit_val(carry),
        decreases n - j,
    {
        let hi: u8 = if carry {
            128
        } else {
            0
        };
        let lo: u8 = hi + a[j] / 2;
        let ghost r_old = r@;
        let ghost carry_old = carry;
        r.set(j, lo);
        carry = a[j] % 2 == 1;
        proof {
            let jj = j as int;
            assert(r@.take(jj) =~= r_old.take(jj));
            lemma_be_val_take_step(r@, jj);
            lemma_be_val_take_step(a@, jj);
        }
        j += 1;
    }
    proof {
        assert(a@.take(n as int) =~= a@);
        assert(r@.take(n as int) =~= r@);
        lemma_fundamental_div_mod_converse(
            be_val(a@) as int,
            2,
            be_val(r@) as int,
            bit_val(carry) as int,
        );
    }
    r
}

/// 2^e as a natural number.
pub open spec fn p2(e: nat) -> nat {
    pow(2, e) as nat
}

/// Bit k of v (numbering from the least significant bit).
pub open spec fn nth_bit(v: nat, k: nat) -> nat {
    (v / p2(k)) % 2
}

/// Facts used by the shift-register loops: doubling a register holding
/// `(v mod 2^(k+1)) * 2^i` pushes bit k of v out at position 8n, and the
/// quotient prefix of v grows by that bit.
pub proof fn lemma_shift_step(v: nat, n: nat, i: nat)
    requires
        i < 8 * n,
        v < pow(256, n),
    ensures
        2 * ((v % p2((8 * n - i) as nat)) * p2(i)) == nth_bit(v, (8 * n - i - 1) as nat) * pow(
            256,
            n,
        ) + (v % p2((8 * n - i - 1) as nat)) * p2(i + 1),
        (v % p2((8 * n - i - 1) as nat)) * p2(i + 1) < pow(256, n),
        v / p2((8 * n - i - 1) as nat) == 2 * (v / p2((8 * n - i) as nat)) + nth_bit(
            v,
            (8 * n - i - 1) as nat,
        ),
        v / p2((8 * n - i) as nat) < p2(i),
        nth_bit(v, (8 * n - i - 1) as nat) <= 1,
{
    let k = (8 * n - i - 1) as nat;
    let b = nth_bit(v, k);
    lemma_pow_positive(2, k);
    lemma_pow_positive(2, (k + 1) as nat);
    lemma_pow_positive(2, i);
    lemma_pow_positive(2, (i + 1) as nat);
    lemma_pow2_step(k);
    lemma_pow2_step(i);
    lemma_pow256_pow2(n);
    lemma_pow_adds(2, k, i + 1);
    assert(k + (i + 1) == 8 * n);
    // Decompose v mod 2^(k+1) into the bit at k and the remainder below it.
    lemma_breakdown(v as int, p2(k) as int, 2);
    assert(v as int % (p2(k) as int * 2) == p2(k) as int * ((v as int / p2(k) as int) % 2)
        + v as int % p2(k) as int);
    assert(p2(k) * 2 == p2((k + 1) as nat));
    assert(v % p2((k + 1) as nat) == p2(k) * b + v % p2(k));
    // Multiply through by 2 * 2^i.
    let m = v % p2(k);
    let kk = p2(k);
    let ii = p2(i);
    assert(2 * ((kk * b + m) * ii) == b * (kk * (2 * ii)) + m * (2 * ii)) by (nonlinear_arith);
    assert(p2(k) * (2 * p2(i)) == p2(k) * p2((i + 1) as nat));
    assert(b * (p2(k) * p2((i + 1) as nat)) == b * pow(256, n));
    // The low part stays below 256^n.
    assert(v % p2(k) < p2(k)) by {
        vstd::arithmetic::div_mod::lemma_mod_division_less_than_divisor(v as int, p2(k) as int);
    }
    assert((v % p2(k)) * p2((i + 1) as nat) < p2(k) * p2((i + 1) as nat)) by {
        lemma_mul_strict_inequality(
            (v % p2(k)) as int,
            p2(k) as int,
            p2((i + 1) as nat) as int,
        );
    }
    // The quotient prefix doubles and gains the bit.
    assert((v / p2((k + 1) as nat)) == (v / p2(k)) / 2) by {
        lemma_div_denominator(v as int, p2(k) as int, 2);
        assert(p2(k) * 2 == p2((k + 1) as nat));
    }
    lemma_fundamental_div_mod((v / p2(k)) as int, 2);
    // The prefix is bounded by 2^i.
    assert(v / p2((k + 1) as nat) < p2(i)) by {
        lemma_pow_division_inequality(v, 2, 8 * n, (k + 1) as nat);
    }
    assert(b <= 1) by {
        vstd::arithmetic::div_mod::lemma_mod_division_less_than_divisor(
            (v / p2(k)) as int,
            2,
        );
    }
}


/// Uniqueness of the decomposition x + c*p == b*p + l when x and l lie in
/// [0, p) and c and b are bits.
pub proof fn lemma_unique_bit_decomp(x: int, c: int, b: int, l: int, p: int)
    requires
        x + c * p == b * p + l,
        0 <= x < p,
        0 <= l < p,
        0 <= c <= 1,
        0 <= b <= 1,
    ensures
        c == b,
        x == l,
{
    assert(c == b && x == l) by (nonlinear_arith)
        requires
            x + c * p == b * p + l,
            0 <= x < p,
            0 <= l < p,
            0 <= c <= 1,
            0 <= b <= 1,
    ;
}

/// Long division: quotient and remainder of equal-width strings.
pub fn be_div_rem(x: &Vec<u8>, y: &Vec<u8>) -> (res: (Vec<u8>, Vec<u8>))
    requires
        x@.len() == y@.len(),
        8 * x@.len() <= usize::MAX,
        x@.len() + 1 <= usize::MAX,
        be_val(y@) > 0,
    ensures
        res.0@.len() == x@.len(),
        res.1@.len() == x@.len(),
        be_val(res.0@) == be_val(x@) / be_val(y@),
        be_val(res.1@) == be_val(x@) % be_val(y@),
{
    let n = x.len();
    let ghost v = be_val(x@);
    let ghost yv = be_val(y@);
    let yy = be_zext(y, 1);
    let mut rr = be_zeros(n + 1);
    let mut q = be_zeros(n);
    let mut xs = be_copy(x);
    let mut i: usize = 0;
    let bits = 8 * n;
    proof {
        lemma_be_val_bound(x@);
        lemma_be_val_bound(y@);
        lemma_pow256_pow2(n as nat);
        lemma_pow_positive(2, (8 * n) as nat);
        vstd::arithmetic::div_mod::lemma_small_mod(v, p2((8 * n) as nat));
        vstd::arithmetic::power::lemma_pow0(2);
        assert(v * p2(0) == v) by (nonlinear_arith)
            requires
                p2(0) == 1,
        ;
        vstd::arithmetic::div_mod::lemma_basic_div(v as int, p2((8 * n) as nat) as int);
    }
    while i < bits
        invariant
            i <= bits,
            bits == 8 * n,
            n == x@.len(),
            n == y@.len(),
            xs@.len() == n,
            q@.len() == n,
            rr@.len() == n + 1,
            yy@.len() == n + 1,
            be_val(yy@) == yv,
            yv == be_val(y@),
            v == be_val(x@),
            v < pow(256, n as nat),
            yv < pow(256, n as nat),
            yv > 0,
            be_val(xs@) == (v % p2((8 * n - i) as nat)) * p2(i as nat),
            be_val(q@) * yv + be_val(rr@) == v / p2((8 * n - i) as nat),
            be_val(rr@) < yv,
        decreases bits - i,
    {
        let ghost px = v / p2((8 * n - i) as nat);
        let ghost b = nth_bit(v, (8 * n - i - 1) as nat);
        let ghost low = (v % p2((8 * n - i - 1) as nat)) * p2((i + 1) as nat);
        proof {
            lemma_shift_step(v, n as nat, i as nat);
            lemma_pow_positive(256, n as nat);
        }
        // Shift the next bit of the dividend out of the register.
        let ghost xsv = be_val(xs@);
        let (xs2, bit) = be_add_c(&xs, &xs, false);
        proof {
            lemma_be_val_bound(xs2@);
            assert(be_val(xs2@) + bit_val(bit) * pow(256, n as nat) == 2 * xsv);
            assert(2 * xsv == b * pow(256, n as nat) + low);
            assert(low < pow(256, n as nat));
            assert(be_val(xs2@) < pow(256, n as nat));
            assert(b <= 1);
            // 2 * xs == b * 256^n + low with both residues in range, so the
            // carry out of the doubling is exactly bit b of the dividend.
            lemma_unique_bit_decomp(
                be_val(xs2@) as int,
                bit_val(bit) as int,
                b as int,
                low as int,
                pow(256, n as nat),
            );
            assert(bit_val(bit) == b);
            assert(be_val(xs2@) == low);
        }
        xs = xs2;
        // Shift it into the remainder.
        let (rr2, c1) = be_add_c(&rr, &rr, bit);
        let ghost rv = be_val(rr@);
        proof {
            lemma_be_val_bound(rr2@);
            lemma_pow256_step(n as nat);
            assert(2 * rv + bit_val(bit) < pow(256, (n + 1) as nat)) by (nonlinear_arith)
                requires
                    rv < yv,
                    yv < pow(256, n as nat),
                    bit_val(bit) <= 1,
                    pow(256, (n + 1) as nat) == 256 * pow(256, n as nat),
                    pow(256, n as nat) > 0,
            ;
            lemma_unique_bit_decomp(
                be_val(rr2@) as int,
                bit_val(c1) as int,
                0,
                2 * rv + bit_val(bit) as int,
                pow(256, (n + 1) as nat),
            );
            assert(!c1);
            assert(be_val(rr2@) == 2 * rv + b);
        }
        // If the remainder now reaches the divisor, subtract it.
        let ghost qv = be_val(q@);
        let qbit: bool;
        if !be_lt(&rr2, &yy) {
            let (rr3, brw) = be_sub_b(&rr2, &yy);
            proof {
                assert(!brw);
                assert(be_val(rr3@) == 2 * rv + b - yv);
            }
            rr = rr3;
            qbit = true;
        } else {
            rr = rr2;
            qbit = false;
        }
        proof {
            // In either case the new remainder stays below the divisor.
            assert(be_val(rr@) < yv);
        }
        // Append the quotient bit.
        let (q2, cq) = be_add_c(&q, &q, qbit);
        proof {
            lemma_be_val_bound(q2@);
            assert(qv <= px) by (nonlinear_arith)
                requires
                    qv * yv + rv == px,
                    yv >= 1,
                    rv >= 0,
                    qv >= 0,
            ;
            lemma_pow2_step(i as nat);
            lemma_pow_positive(2, i as nat);
            lemma_pow_positive(2, (i + 1) as nat);
            lemma_pow_positive(2, (8 * n) as nat);
            lemma_pow256_pow2(n as nat);
            assert(p2((i + 1) as nat) <= p2((8 * n) as nat)) by {
                vstd::arithmetic::power::lemma_pow_increases(2, (i + 1) as nat, (8 * n) as nat);
                lemma_pow_positive(2, (i + 1) as nat);
                lemma_pow_positive(2, (8 * n) as nat);
            }
            assert(2 * qv + bit_val(qbit) < pow(256, n as nat)) by (nonlinear_arith)
                requires
                    qv <= px,
                    px < p2(i as nat),
                    bit_val(qbit) <= 1,
                    2 * p2(i as nat) == p2((i + 1) as nat),
                    p2((i + 1) as nat) <= pow(256, n as nat),
                    pow(256, n as nat) == p2((8 * n) as nat),
            ;
            lemma_unique_bit_decomp(
                be_val(q2@) as int,
                bit_val(cq) as int,
                0,
                2 * qv + bit_val(qbit) as int,
                pow(256, n as nat),
            );
            assert(!cq);
            assert(be_val(q2@) == 2 * qv + bit_val(qbit));
        }
        q = q2;
        proof {
            // Restore the division invariant for the extended prefix.
            assert(be_val(q@) * yv + be_val(rr@) == 2 * px + b) by (nonlinear_arith)
                requires
                    be_val(q@) == 2 * qv + bit_val(qbit),
                    be_val(rr@) == 2 * rv + b - (if qbit {
                        yv as int
                    } else {
                        0
                    }),
                    bit_val(qbit) == (if qbit {
                        1nat
                    } else {
                        0nat
                    }),
                    qv * yv + rv == px,
            ;
        }
        i += 1;
    }
    proof {
        vstd::arithmetic::power::lemma_pow0(2);
        assert(v / p2(0) == v);
        lemma_fundamental_div_mod_converse(
            v as int,
            yv as int,
            be_val(q@) as int,
            be_val(rr@) as int,
        );
    }
    // The remainder fits in n bytes: drop the leading zero byte.
    let ghost rr_full = rr@;
    proof {
        lemma_be_val_skip_front(rr_full, 0);
        assert(rr_full.skip(0) =~= rr_full);
        lemma_be_val_bound(y@);
        if rr_full[0] >= 1 {
            lemma_pow_positive(256, n as nat);
            assert(rr_full[0] * pow(256, n as nat) >= 1 * pow(256, n as nat)) by {
                lemma_mul_inequality(1, rr_full[0] as int, pow(256, n as nat));
            }
            assert(false);
        }
        assert(rr_full[0] == 0);
        assert(rr_full[0] * pow(256, n as nat) == 0) by (nonlinear_arith)
            requires
                rr_full[0] == 0,
        ;
        assert(be_val(rr_full) == be_val(rr_full.skip(1)));
    }
    let mut r = rr;
    let _ = r.remove(0);
    proof {
        assert(r@ =~= rr_full.skip(1));
        assert(be_val(r@) == v % yv);
    }
    (q, r)
}


/// Schoolbook-by-bits multiplication into a double-width result.
#[verifier::rlimit(60)]
pub fn be_mul_wide(a: &Vec<u8>, b: &Vec<u8>) -> (r: Vec<u8>)
    requires
        a@.len() == b@.len(),
        8 * a@.len() <= usize::MAX,
        2 * a@.len() <= usize::MAX,
    ensures
        r@.len() == 2 * a@.len(),
        be_val(r@) == be_val(a@) * be_val(b@),
{
    let n = a.len();
    let ghost av = be_val(a@);
    let ghost bv = be_val(b@);
    let bext = be_zext(b, n);
    let mut acc = be_zeros(2 * n);
    let mut xs = be_copy(a);
    let mut i: usize = 0;
    let bits = 8 * n;
    proof {
        lemma_be_val_bound(a@);
        lemma_be_val_bound(b@);
        lemma_pow256_pow2(n as nat);
        lemma_pow_positive(2, (8 * n) as nat);
        vstd::arithmetic::div_mod::lemma_small_mod(av, p2((8 * n) as nat));
        vstd::arithmetic::power::lemma_pow0(2);
        assert(av * p2(0) == av) by (nonlinear_arith)
            requires
                p2(0) == 1,
        ;
        vstd::arithmetic::div_mod::lemma_basic_div(av as int, p2((8 * n) as nat) as int);
        assert((av / p2((8 * n) as nat)) * bv == 0) by (nonlinear_arith)
            requires
                av / p2((8 * n) as nat) == 0,
        ;
        lemma_pow_adds(256, n as nat, n as nat);
    }
    while i < bits
        invariant
            i <= bits,
            bits == 8 * n,
            n == a@.len(),
            n == b@.len(),
            xs@.len() == n,
            acc@.len() == 2 * n,
            bext@.len() == 2 * n,
            be_val(bext@) == bv,
            av == be_val(a@),
            bv == be_val(b@),
            av < pow(256, n as nat),
            bv < pow(256, n as nat),
            pow(256, (2 * n) as nat) == pow(256, n as nat) * pow(256, n as nat),
            be_val(xs@) == (av % p2((8 * n - i) as nat)) * p2(i as nat),
            be_val(acc@) == (av / p2((8 * n - i) as nat)) * bv,
        decreases bits - i,
    {
        let ghost px = av / p2((8 * n - i) as nat);
        let ghost bb = nth_bit(av, (8 * n - i - 1) as nat);
        let ghost low = (av % p2((8 * n - i - 1) as nat)) * p2((i + 1) as nat);
        proof {
            lemma_shift_step(av, n as nat, i as nat);
            lemma_pow_positive(256, n as nat);
            lemma_pow_positive(256, (2 * n) as nat);
            lemma_pow_positive(2, i as nat);
            lemma_pow_positive(2, (i + 1) as nat);
            lemma_pow2_step(i as nat);
            lemma_pow_positive(2, (8 * n) as nat);
            assert(p2((i + 1) as nat) <= p2((8 * n) as nat)) by {
                vstd::arithmetic::power::lemma_pow_increases(2, (i + 1) as nat, (8 * n) as nat);
                lemma_pow_positive(2, (i + 1) as nat);
                lemma_pow_positive(2, (8 * n) as nat);
            }
        }
        // Shift the next bit of the multiplier out of the register.
        let (xs2, bit) = be_add_c(&xs, &xs, false);
        proof {
            lemma_be_val_bound(xs2@);
            lemma_unique_bit_decomp(
                be_val(xs2@) as int,
                bit_val(bit) as int,
                bb as int,
                low as int,
                pow(256, n as nat),
            );
        }
        xs = xs2;
        // Double the accumulator.
        let ghost accv = be_val(acc@);
        proof {
            lemma_pow256_pow2(n as nat);
            assert(p2((8 * n) as nat) == pow(256, n as nat));
            assert(2 * accv + bv < pow(256, (2 * n) as nat)) by (nonlinear_arith)
                requires
                    accv == px * bv,
                    px < p2(i as nat),
                    2 * p2(i as nat) == p2((i + 1) as nat),
                    p2((i + 1) as nat) <= p2((8 * n) as nat),
                    p2((8 * n) as nat) == pow(256, n as nat),
                    bv < pow(256, n as nat),
                    pow(256, (2 * n) as nat) == pow(256, n as nat) * pow(256, n as nat),
                    pow(256, n as nat) > 0,
            ;
        }
        let (acc2, c1) = be_add_c(&acc, &acc, false);
        proof {
            lemma_be_val_bound(acc2@);
            lemma_unique_bit_decomp(
                be_val(acc2@) as int,
                bit_val(c1) as int,
                0,
                (2 * accv) as int,
                pow(256, (2 * n) as nat),
            );
        }
        // Add the multiplicand if the bit was set.
        if bit {
            let (acc3, c2) = be_add_c(&acc2, &bext, false);
            proof {
                lemma_be_val_bound(acc3@);
                lemma_unique_bit_decomp(
                    be_val(acc3@) as int,
                    bit_val(c2) as int,
                    0,
                    2 * accv + bv as int,
                    pow(256, (2 * n) as nat),
                );
            }
            acc = acc3;
        } else {
            acc = acc2;
        }
        proof {
            assert(be_val(acc@) == (2 * px + bb) * bv) by (nonlinear_arith)
                requires
                    be_val(acc@) == 2 * (px * bv) + bit_val(bit) * bv,
                    bit_val(bit) == bb,
            ;
        }
        i += 1;
    }
    proof {
        vstd::arithmetic::power::lemma_pow0(2);
        assert(av / p2(0) == av);
    }
    acc
}


/// Bytewise conjunction of equal-length strings.
pub fn be_and(a: &Vec<u8>, b: &Vec<u8>) -> (r: Vec<u8>)
    requires
        a@.len() == b@.len(),
    ensures
        r@.len() == a@.len(),
        forall|i: int| 0 <= i < a@.len() ==> r@[i] == (a@[i] & b@[i]),
{
    let n = a.len();
    let mut r: Vec<u8> = Vec::new();
    let mut k: usize = 0;
    while k < n
        invariant
            k <= n,
            n == a@.len(),
            n == b@.len(),
            r@.len() == k,
            forall|i: int| 0 <= i < k ==> r@[i] == (a@[i] & b@[i]),
        decreases n - k,
    {
        r.push(a[k] & b[k]);
        k += 1;
    }
    r
}

/// Bytewise disjunction of equal-length strings.
pub fn be_or(a: &Vec<u8>, b: &Vec<u8>) -> (r: Vec<u8>)
    requires
        a@.len() == b@.len(),
    ensures
        r@.len() == a@.len(),
        forall|i: int| 0 <= i < a@.len() ==> r@[i] == (a@[i] | b@[i]),
{
    let n = a.len();
    let mut r: Vec<u8> = Vec::new();
    let mut k: usize = 0;
    while k < n
        invariant
            k <= n,
            n == a@.len(),
            n == b@.len(),
            r@.len() == k,
            forall|i: int| 0 <= i < k ==> r@[i] == (a@[i] | b@[i]),
        decreases n - k,
    {
        r.push(a[k] | b[k]);
        k += 1;
    }
    r
}

/// Bytewise exclusive or of equal-length strings.
pub fn be_xor(a: &Vec<u8>, b: &Vec<u8>) -> (r: Vec<u8>)
    requires
        a@.len() == b@.len(),
    ensures
        r@.len() == a@.len(),
        forall|i: int| 0 <= i < a@.len() ==> r@[i] == (a@[i] ^ b@[i]),
{
    let n = a.len();
    let mut r: Vec<u8> = Vec::new();
    let mut k: usize = 0;
    while k < n
        invariant
            k <= n,
            n == a@.len(),
            n == b@.len(),
            r@.len() == k,
            forall|i: int| 0 <= i < k ==> r@[i] == (a@[i] ^ b@[i]),
        decreases n - k,
    {
        r.push(a[k] ^ b[k]);
        k += 1;
    }
    r
}

/// Bytewise complement; the value becomes 256^n - 1 - a.
pub fn be_not(a: &Vec<u8>) -> (r: Vec<u8>)
    ensures
        r@.len() == a@.len(),
        forall|i: int| 0 <= i < a@.len() ==> r@[i] == !a@[i],
        be_val(r@) as int == pow(256, a@.len() as nat) - 1 - be_val(a@),
{
    let n = a.len();
    let mut r: Vec<u8> = Vec::new();
    let mut k: usize = 0;
    proof {
        assert(r@.take(0) =~= Seq::<u8>::empty());
        assert(a@.take(0) =~= Seq::<u8>::empty());
        vstd::arithmetic::power::lemma_pow0(256);
    }
    while k < n
        invariant
            k <= n,
            n == a@.len(),
            r@.len() == k,
            forall|i: int| 0 <= i < k ==> r@[i] == !a@[i],
            be_val(r@) as int == pow(256, k as nat) - 1 - be_val(a@.take(k as int)),
        decreases n - k,
    {
        let x: u8 = !a[k];
        proof {
            let ab = a@[k as int];
            assert(x == !ab);
            assert(x as int == 255 - ab) by (bit_vector)
                requires
                    x == !ab,
            ;
        }
        let ghost r_old = r@;
        r.push(x);
        proof {
            assert(r@.take(k as int) =~= r_old);
            assert(r@.take(k + 1) =~= r@);
            lemma_be_val_take_step(r@, k as int);
            lemma_be_val_take_step(a@, k as int);
            lemma_pow256_step(k as nat);
            assert(r@.take(k + 1).len() == k + 1);
        }
        k += 1;
    }
    proof {
        assert(a@.take(n as int) =~= a@);
    }
    r
}

/// The low k bytes of a string hold its value reduced mod 256^k.
pub proof fn lemma_be_val_low(s: Seq<u8>, k: int)
    requires
        0 <= k <= s.len(),
    ensures
        be_val(s.skip(s.len() - k)) == be_val(s) % (pow(256, k as nat) as nat),
{
    lemma_be_val_split(s, s.len() - k);
    lemma_be_val_bound(s.skip(s.len() - k));
    lemma_pow_positive(256, k as nat);
    lemma_fundamental_div_mod_converse(
        be_val(s) as int,
        pow(256, k as nat),
        be_val(s.take(s.len() - k)) as int,
        be_val(s.skip(s.len() - k)) as int,
    );
}

/// The value is below 128 * 256^(n-1) exactly when the top byte is below 128.
pub proof fn lemma_be_val_top_bit(s: Seq<u8>)
    requires
        s.len() >= 1,
    ensures
        (s[0] >= 128) <==> (be_val(s) >= 128 * pow(256, (s.len() - 1) as nat)),
{
    lemma_be_val_skip_front(s, 0);
    assert(s.skip(0) =~= s);
    lemma_be_val_bound(s.skip(1));
    lemma_pow_positive(256, (s.len() - 1) as nat);
    let p = pow(256, (s.len() - 1) as nat);
    if s[0] >= 128 {
        lemma_mul_inequality(128, s[0] as int, p);
    } else {
        lemma_mul_inequality(s[0] as int, 127, p);
        assert(127 * p + p == 128 * p) by (nonlinear_arith);
    }
}

/// The value as a `usize`, when it fits.
pub fn be_to_usize(v: &Vec<u8>) -> (r: Option<usize>)
    ensures
        r is Some <==> be_val(v@) <= usize::MAX,
        r is Some ==> r->0 == be_val(v@),
{
    let n = v.len();
    let start: usize = if n > 8 {
        n - 8
    } else {
        0
    };
    let mut k: usize = 0;
    while k < start
        invariant
            k <= start,
            n == v@.len(),
            start == (if n > 8 {
                n - 8
            } else {
                0
            }),
            forall|i: int| 0 <= i < k ==> v@[i] == 0,
        decreases start - k,
    {
        if v[k] != 0 {
            // A set byte above the low eight makes the value exceed u64.
            proof {
                lemma_be_val_split(v@, k as int);
                lemma_be_val_skip_front(v@, k as int);
                lemma_be_val_bound(v@.skip(k + 1));
                lemma_pow_positive(256, (n - k - 1) as nat);
                lemma_mul_inequality(1, v@[k as int] as int, pow(256, (n - k - 1) as nat));
                assert(pow(256, (n - k - 1) as nat) >= pow(256, 8)) by {
                    vstd::arithmetic::power::lemma_pow_increases(256, 8, (n - k - 1) as nat);
                }
                assert(pow(256, 8) > u64::MAX as int) by {
                    reveal_with_fuel(pow, 9);
                }
                assert(be_val(v@.skip(k as int)) >= v@[k as int] * pow(
                    256,
                    (n - k - 1) as nat,
                ));
                assert(be_val(v@) >= be_val(v@.skip(k as int))) by {
                    lemma_pow_positive(256, (n - k) as nat);
                    vstd::arithmetic::mul::lemma_mul_nonnegative(
                        be_val(v@.take(k as int)) as int,
                        pow(256, (n - k) as nat),
                    );
                }
                assert(usize::MAX <= u64::MAX);
            }
            return None;
        }
        k += 1;
    }
    let mut acc: u64 = 0;
    let mut j: usize = start;
    proof {
        assert(v@.subrange(start as int, start as int) =~= Seq::<u8>::empty());
        assert(be_val(v@.subrange(start as int, start as int)) == 0);
        vstd::arithmetic::power::lemma_pow0(256);
    }
    while j < n
        invariant
            start <= j <= n,
            n == v@.len(),
            n - start <= 8,
            start == (if n > 8 {
                n - 8
            } else {
                0
            }),
            acc == be_val(v@.subrange(start as int, j as int)),
            acc < pow(256, (j - start) as nat),
        decreases n - j,
    {
        proof {
            assert(pow(256, (j - start) as nat) <= pow(256, 7)) by {
                vstd::arithmetic::power::lemma_pow_increases(256, (j - start) as nat, 7);
            }
            assert(pow(256, 7) * 256 <= u64::MAX as int + 1) by {
                reveal_with_fuel(pow, 9);
            }
            lemma_mul_inequality(acc as int, pow(256, 7) - 1, 256);
            lemma_pow256_step((j - start) as nat);
        }
        acc = acc * 256 + v[j] as u64;
        proof {
            assert(v@.subrange(start as int, j + 1).drop_last() =~= v@.subrange(
                start as int,
                j as int,
            ));
            assert(v@.subrange(start as int, j + 1).last() == v@[j as int]);
            lemma_be_val_bound(v@.subrange(start as int, j + 1));
        }
        j += 1;
    }
    proof {
        assert(v@.subrange(start as int, n as int) =~= v@.skip(start as int));
        lemma_be_val_split(v@, start as int);
        lemma_be_val_zero(v@.take(start as int));
        assert(forall|i: int|
            0 <= i < start ==> #[trigger] v@.take(start as int)[i] == v@[i]);
        assert(be_val(v@.take(start as int)) == 0);
        assert(be_val(v@) == be_val(v@.skip(start as int)));
    }
    if acc <= usize::MAX as u64 {
        Some(acc as usize)
    } else {
        None
    }
}
} // verus!
