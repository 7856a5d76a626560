//! The machine's value types: `Bytes32` (a 256-bit big-endian word),
//! `Address` (a 160-bit account identifier) and `Bytes` (an arbitrary byte
//! buffer used for code, calldata and return data).
use vstd::prelude::*;
use vstd::arithmetic::power::{pow, lemma_pow_positive};
use crate::arith::{
    be_val, be_copy, be_zeros, be_eq, be_lt, be_is_zero, lemma_be_val_bound, lemma_be_val_low,
    lemma_be_val_zero, lemma_be_val_split, lemma_be_val_take_step, lemma_pow256_pow2,
};

verus! {

/// The modulus of the 256-bit word ring: 256^32.
pub open spec fn word_mod() -> nat {
    pow(256, 32) as nat
}

/// The boundary between non-negative and negative words: 2^255.
pub open spec fn word_half() -> nat {
    pow(2, 255) as nat
}

/// Two's-complement reading of a word value.
pub open spec fn word_signed(v: nat) -> int {
    if v < word_half() {
        v as int
    } else {
        v - word_mod()
    }
}

/// Basic facts about the word modulus.
pub proof fn lemma_word_mod_facts()
    ensures
        word_mod() == pow(256, 32),
        word_mod() == pow(2, 256),
        word_half() == pow(2, 255),
        word_mod() == 2 * word_half(),
        word_mod() > 1,
{
    lemma_pow256_pow2(32);
    lemma_pow_positive(2, 255);
    lemma_pow_positive(2, 256);
    lemma_pow_positive(256, 32);
    crate::arith::lemma_pow2_step(255);
    assert(pow(2, 256) >= 2) by {
        vstd::arithmetic::power::lemma_pow_increases(2, 1, 256);
        vstd::arithmetic::power::lemma_pow1(2);
    }
}

/// The 32-byte word right-aligned from an arbitrary byte string: short input
/// is padded with zeros on the left, long input keeps its last 32 bytes.
pub open spec fn word_bytes_of(s: Seq<u8>) -> Seq<u8> {
    if s.len() <= 32 {
        Seq::new(32, |i: int| if i < 32 - s.len() { 0u8 } else { s[i - (32 - s.len())] })
    } else {
        s.skip(s.len() - 32)
    }
}

/// A 256-bit word stored as exactly 32 big-endian bytes.
#[derive(Debug)]
pub struct Bytes32 {
    bytes: Vec<u8>,
}

/// An arbitrary-length byte buffer.
#[derive(Debug)]
pub struct Bytes {
    pub bytes: Vec<u8>,
}

/// A 160-bit account address stored as exactly 20 big-endian bytes.
#[derive(Debug)]
pub struct Address {
    bytes: Vec<u8>,
}

impl View for Bytes32 {
    type V = Seq<u8>;

    closed spec fn view(&self) -> Seq<u8> {
        self.bytes@
    }
}

impl View for Bytes {
    type V = Seq<u8>;

    open spec fn view(&self) -> Seq<u8> {
        self.bytes@
    }
}

impl View for Address {
    type V = Seq<u8>;

    closed spec fn view(&self) -> Seq<u8> {
        self.bytes@
    }
}

impl Bytes32 {
    #[verifier::type_invariant]
    spec fn type_inv(&self) -> bool {
        self.bytes@.len() == 32
    }

    /// The numeric value of the word.
    pub open spec fn val(&self) -> nat {
        be_val(self@)
    }

    /// Learns that the word is 32 bytes and its value is below the modulus.
    pub fn wf_facts(&self)
        ensures
            self@.len() == 32,
            self.val() < word_mod(),
    {
        proof {
            use_type_invariant(self);
            lemma_be_val_bound(self@);
        }
    }

    /// The all-zero word.
    pub fn zero() -> (r: Bytes32)
        ensures
            r@.len() == 32,
            r.val() == 0,
            forall|i: int| 0 <= i < 32 ==> r@[i] == 0,
    {
        Bytes32 { bytes: be_zeros(32) }
    }

    /// A fresh word; all bytes zero.
    pub fn new() -> (r: Bytes32)
        ensures
            r@.len() == 32,
            r.val() == 0,
    {
        Bytes32::zero()
    }

    /// The word of value one.
    pub fn one() -> (r: Bytes32)
        ensures
            r@.len() == 32,
            r.val() == 1,
    {
        let mut v = be_zeros(32);
        v.set(31, 1);
        proof {
            lemma_be_val_take_step(v@, 31);
            lemma_be_val_zero(v@.take(31));
            assert(v@.take(32) =~= v@);
            lemma_be_val_take_step(v@, 30);
        }
        let r = Bytes32 { bytes: v };
        proof {
            assert(r.val() == be_val(v@.take(31)) * 256 + 1);
        }
        r
    }

    /// Right-aligns an arbitrary byte vector into a word.
    pub fn from_vec(v: Vec<u8>) -> (r: Bytes32)
        ensures
            r@.len() == 32,
            r@ == word_bytes_of(v@),
            r.val() == be_val(v@) % word_mod(),
    {
        let n = v.len();
        let mut b: Vec<u8> = be_zeros(32);
        let mut k: usize = 0;
        let start: usize = if n <= 32 {
            32 - n
        } else {
            0
        };
        let src0: usize = if n <= 32 {
            0
        } else {
            n - 32
        };
        while k + start < 32
            invariant
                k + start <= 32,
                b@.len() == 32,
                v@.len() == n,
                start == (if n <= 32 {
                    32 - n
                } else {
                    0
                }),
                src0 == (if n <= 32 {
                    0
                } else {
                    n - 32
                }),
                forall|i: int| 0 <= i < start ==> b@[i] == 0,
                forall|i: int| start <= i < start + k ==> b@[i] == v@[src0 + (i - start)],
            decreases 32 - k - start,
        {
            b.set(start + k, v[src0 + k]);
            k += 1;
        }
        let r = Bytes32 { bytes: b };
        proof {
            if n <= 32 {
                assert(r@ =~= word_bytes_of(v@));
                // Value: split off the zero padding.
                lemma_be_val_split(r@, 32 - n);
                lemma_be_val_zero(r@.take(32 - n as int));
                assert(r@.skip(32 - n as int) =~= v@);
                lemma_be_val_bound(v@);
                assert(be_val(v@) < pow(256, n as nat));
                assert(pow(256, n as nat) <= pow(256, 32)) by {
                    vstd::arithmetic::power::lemma_pow_increases(256, n as nat, 32);
                }
                lemma_pow_positive(256, 32);
                vstd::arithmetic::div_mod::lemma_small_mod(be_val(v@), word_mod());
            } else {
                assert(r@ =~= v@.skip(n - 32));
                lemma_be_val_low(v@, 32);
            }
        }
        r
    }

    /// Right-aligns a byte slice into a word.
    pub fn from_slice(s: &[u8]) -> (r: Bytes32)
        ensures
            r@.len() == 32,
            r@ == word_bytes_of(s@),
            r.val() == be_val(s@) % word_mod(),
    {
        Bytes32::from_vec(slice_to_vec(s))
    }

    /// Builds a word from a buffer, right-aligning it.
    pub fn from_bytes(b: Bytes) -> (r: Bytes32)
        ensures
            r@.len() == 32,
            r@ == word_bytes_of(b@),
            r.val() == be_val(b@) % word_mod(),
    {
        Bytes32::from_vec(b.bytes)
    }

    /// The low 64 bits of a `u64`, as a word.
    pub fn from_u64(x: u64) -> (r: Bytes32)
        ensures
            r@.len() == 32,
            r.val() == x,
    {
        let mut b = be_zeros(32);
        let mut x2 = x;
        let mut k: usize = 0;
        proof {
            assert(b@.skip(32int) =~= Seq::<u8>::empty());
            assert(be_val(b@.skip(32int)) == 0);
            vstd::arithmetic::power::lemma_pow0(256);
            assert(x as nat * (pow(256, 0) as nat) == x) by (nonlinear_arith)
                requires
                    pow(256, 0) == 1,
            ;
        }
        while k < 8
            invariant
                k <= 8,
                b@.len() == 32,
                be_val(b@.skip(32 - k)) + x2 as nat * (pow(256, k as nat) as nat) == x,
                forall|i: int| 0 <= i < 32 - k ==> b@[i] == 0,
            decreases 8 - k,
        {
            let i = 31 - k;
            let lo: u8 = (x2 % 256) as u8;
            let ghost b_old = b@;
            let ghost x_old = x2 as nat;
            b.set(i, lo);
            x2 = x2 / 256;
            proof {
                assert(b@.skip(i + 1) =~= b_old.skip(i + 1));
                crate::arith::lemma_be_val_skip_front(b@, i as int);
                crate::arith::lemma_pow256_step(k as nat);
                let p = pow(256, k as nat);
                assert(x_old == 256 * (x_old / 256) + x_old % 256) by {
                    vstd::arithmetic::div_mod::lemma_fundamental_div_mod(x_old as int, 256);
                }
                lemma_pow_positive(256, k as nat);
                assert((lo as nat) * p + (x_old / 256) * (256 * p) == x_old * p)
                    by (nonlinear_arith)
                    requires
                        x_old == 256 * (x_old / 256) + lo,
                        p >= 0,
                ;
            }
            k += 1;
        }
        proof {
            assert(x2 == 0) by {
                assert(x2 as nat * (pow(256, 8) as nat) <= x as nat);
                lemma_pow_positive(256, 8);
                assert(pow(256, 8) > 65536) by {
                    reveal_with_fuel(pow, 9);
                }
                if x2 >= 1 {
                    vstd::arithmetic::mul::lemma_mul_inequality(
                        1,
                        x2 as int,
                        pow(256, 8),
                    );
                    assert(x2 as int * pow(256, 8) >= pow(256, 8));
                    assert(x as int >= pow(256, 8));
                    assert(x <= u64::MAX);
                    assert(pow(256, 8) > u64::MAX as int) by {
                        reveal_with_fuel(pow, 9);
                    }
                }
            }
            assert(be_val(b@.skip(24int)) == x);
            lemma_be_val_split(b@, 24);
            lemma_be_val_zero(b@.take(24));
            assert(forall|i: int| 0 <= i < 24 ==> #[trigger] b@.take(24)[i] == b@[i]);
            assert(be_val(b@.take(24)) == 0);
        }
        let r = Bytes32 { bytes: b };
        r
    }

    /// Length in bytes; always 32.
    pub fn len(&self) -> (r: usize)
        ensures
            r == self@.len(),
            r == 32,
    {
        proof {
            use_type_invariant(self);
        }
        self.bytes.len()
    }

    /// A word is never the empty buffer.
    pub fn is_empty(&self) -> (r: bool)
        ensures
            r == (self@.len() == 0),
    {
        self.len() == 0
    }

    /// The bytes of the word, most significant first.
    pub fn as_slice(&self) -> (r: &[u8])
        ensures
            r@ == self@,
    {
        self.bytes.as_slice()
    }

    /// Byte `index` counting from the most significant end; zero past the end.
    pub fn get_byte(&self, index: usize) -> (r: u8)
        ensures
            r == (if index < 32 {
                self@[index as int]
            } else {
                0
            }),
    {
        proof {
            use_type_invariant(self);
        }
        if index < 32 {
            self.bytes[index]
        } else {
            0
        }
    }

    /// The word as a byte buffer.
    pub fn as_bytes(&self) -> (r: Bytes)
        ensures
            r@ == self@,
    {
        Bytes { bytes: be_copy(&self.bytes) }
    }

    /// Copies the word.
    pub fn dup(&self) -> (r: Bytes32)
        ensures
            r@ == self@,
    {
        proof {
            use_type_invariant(self);
        }
        Bytes32 { bytes: be_copy(&self.bytes) }
    }

    /// True exactly when the word is zero.
    pub fn is_zero(&self) -> (r: bool)
        ensures
            r == (self.val() == 0),
    {
        be_is_zero(&self.bytes)
    }

    /// Word equality.
    pub fn eq_word(&self, other: &Bytes32) -> (r: bool)
        ensures
            r == (self@ == other@),
            r == (self.val() == other.val()),
    {
        proof {
            use_type_invariant(self);
            use_type_invariant(other);
            if self@ != other@ {
                if be_val(self@) == be_val(other@) {
                    lemma_be_val_injective(self@, other@);
                }
            }
        }
        be_eq(&self.bytes, &other.bytes)
    }

    /// The word value, if it fits a `usize`.
    pub fn as_usize(&self) -> (r: Option<usize>)
        ensures
            r is Some <==> self.val() <= usize::MAX,
            r is Some ==> r->0 == self.val(),
    {
        proof {
            use_type_invariant(self);
        }
        let mut k: usize = 0;
        while k < 24
            invariant
                k <= 24,
                self@.len() == 32,
                forall|i: int| 0 <= i < k ==> self@[i] == 0,
            decreases 24 - k,
        {
            if self.bytes[k] != 0 {
                // The value has a set byte above the low eight, so it
                // exceeds 2^64 - 1 and in particular any usize.
                proof {
                    lemma_be_val_split(self@, k as int);
                    crate::arith::lemma_be_val_skip_front(self@, k as int);
                    lemma_be_val_bound(self@.skip(k + 1));
                    lemma_pow_positive(256, (31 - k) as nat);
                    vstd::arithmetic::mul::lemma_mul_inequality(
                        1,
                        self@[k as int] as int,
                        pow(256, (31 - k) as nat),
                    );
                    assert(pow(256, (31 - k) as nat) >= pow(256, 8)) by {
                        vstd::arithmetic::power::lemma_pow_increases(
                            256,
                            8,
                            (31 - k) as nat,
                        );
                    }
                    assert(pow(256, 8) > u64::MAX as int) by {
                        reveal_with_fuel(pow, 9);
                    }
                    assert(be_val(self@.skip(k as int)) >= self@[k as int] * pow(
                        256,
                        (31 - k) as nat,
                    ));
                    lemma_be_val_split(self@, k as int);
                    assert(be_val(self@) >= be_val(self@.skip(k as int))) by {
                        lemma_pow_positive(256, (32 - k) as nat);
                        vstd::arithmetic::mul::lemma_mul_nonnegative(
                            be_val(self@.take(k as int)) as int,
                            pow(256, (32 - k) as nat),
                        );
                    }
                    assert(usize::MAX <= u64::MAX);
                }
                return None;
            }
            k += 1;
        }
        // Assemble the low eight bytes.
        let mut v: u64 = 0;
        let mut j: usize = 24;
        proof {
            assert(self@.subrange(24, 24) =~= Seq::<u8>::empty());
            assert(be_val(self@.subrange(24, 24)) == 0);
            vstd::arithmetic::power::lemma_pow0(256);
        }
        while j < 32
            invariant
                24 <= j <= 32,
                self@.len() == 32,
                v == be_val(self@.subrange(24, j as int)),
                v <= pow(256, (j - 24) as nat),
                be_val(self@.subrange(24, j as int)) < pow(256, (j - 24) as nat),
            decreases 32 - j,
        {
            proof {
                lemma_be_val_bound(self@.subrange(24, j as int));
                assert(pow(256, (j - 24) as nat) <= pow(256, 7)) by {
                    vstd::arithmetic::power::lemma_pow_increases(
                        256,
                        (j - 24) as nat,
                        7,
                    );
                }
                assert(pow(256, 7) * 256 <= u64::MAX as int + 1) by {
                    reveal_with_fuel(pow, 9);
                }
                vstd::arithmetic::mul::lemma_mul_inequality(
                    be_val(self@.subrange(24, j as int)) as int,
                    pow(256, 7) - 1,
                    256,
                );
                crate::arith::lemma_pow256_step((j - 24) as nat);
            }
            v = v * 256 + self.bytes[j] as u64;
            proof {
                assert(self@.subrange(24, j + 1).drop_last() =~= self@.subrange(
                    24,
                    j as int,
                ));
                assert(self@.subrange(24, j + 1).last() == self@[j as int]);
                lemma_be_val_bound(self@.subrange(24, j + 1));
            }
            j += 1;
        }
        proof {
            assert(self@.subrange(24, 32) =~= self@.skip(24int));
            lemma_be_val_split(self@, 24);
            lemma_be_val_zero(self@.take(24));
            assert(forall|i: int| 0 <= i < 24 ==> #[trigger] self@.take(24)[i] == self@[i]);
            assert(be_val(self@.take(24)) == 0);
            assert(be_val(self@) == be_val(self@.skip(24)));
        }
        if v <= usize::MAX as u64 {
            Some(v as usize)
        } else {
            None
        }
    }
}

impl Bytes32 {
    /// Sum modulo 2^256.
    pub fn wrapping_add(&self, other: &Bytes32) -> (r: Bytes32)
        ensures
            r@.len() == 32,
            r.val() == (self.val() + other.val()) % word_mod(),
    {
        proof {
            use_type_invariant(self);
            use_type_invariant(other);
        }
        let (v, c) = crate::arith::be_add_c(&self.bytes, &other.bytes, false);
        proof {
            lemma_be_val_bound(v@);
            lemma_word_mod_facts();
            vstd::arithmetic::div_mod::lemma_fundamental_div_mod_converse(
                (self.val() + other.val()) as int,
                word_mod() as int,
                crate::arith::bit_val(c) as int,
                be_val(v@) as int,
            );
        }
        Bytes32 { bytes: v }
    }

    /// Difference modulo 2^256.
    pub fn wrapping_sub(&self, other: &Bytes32) -> (r: Bytes32)
        ensures
            r@.len() == 32,
            r.val() == (if other.val() <= self.val() {
                self.val() - other.val()
            } else {
                self.val() + word_mod() - other.val()
            }),
    {
        proof {
            use_type_invariant(self);
            use_type_invariant(other);
            lemma_be_val_bound(self@);
            lemma_be_val_bound(other@);
            lemma_word_mod_facts();
        }
        let (v, b) = crate::arith::be_sub_b(&self.bytes, &other.bytes);
        proof {
            if b {
                assert(crate::arith::bit_val(b) == 1);
                assert(1 * pow(256, 32) == pow(256, 32)) by (nonlinear_arith);
            } else {
                assert(crate::arith::bit_val(b) == 0);
                assert(0 * pow(256, 32) == 0) by (nonlinear_arith);
            }
        }
        Bytes32 { bytes: v }
    }

    /// Product modulo 2^256.
    pub fn wrapping_mul(&self, other: &Bytes32) -> (r: Bytes32)
        ensures
            r@.len() == 32,
            r.val() == (self.val() * other.val()) % word_mod(),
    {
        proof {
            use_type_invariant(self);
            use_type_invariant(other);
        }
        let mut wide = crate::arith::be_mul_wide(&self.bytes, &other.bytes);
        let ghost prod = wide@;
        let low = wide.split_off(32);
        proof {
            lemma_word_mod_facts();
            crate::arith::lemma_be_val_low(prod, 32);
            assert(prod.skip(32) =~= low@);
        }
        let r = Bytes32 { bytes: low };
        r
    }

    /// Quotient, with division by zero yielding zero.
    pub fn div_or_zero(&self, other: &Bytes32) -> (r: Bytes32)
        ensures
            r@.len() == 32,
            r.val() == (if other.val() == 0 {
                0nat
            } else {
                self.val() / other.val()
            }),
    {
        proof {
            use_type_invariant(self);
            use_type_invariant(other);
        }
        if other.is_zero() {
            Bytes32::zero()
        } else {
            let (q, _rem) = crate::arith::be_div_rem(&self.bytes, &other.bytes);
            Bytes32 { bytes: q }
        }
    }

    /// Remainder, with modulus zero yielding zero.
    pub fn mod_or_zero(&self, other: &Bytes32) -> (r: Bytes32)
        ensures
            r@.len() == 32,
            r.val() == (if other.val() == 0 {
                0nat
            } else {
                self.val() % other.val()
            }),
    {
        proof {
            use_type_invariant(self);
            use_type_invariant(other);
        }
        if other.is_zero() {
            Bytes32::zero()
        } else {
            let (_q, rem) = crate::arith::be_div_rem(&self.bytes, &other.bytes);
            Bytes32 { bytes: rem }
        }
    }

    /// Two's-complement negation: 2^256 - v, reduced mod 2^256.
    pub fn neg(&self) -> (r: Bytes32)
        ensures
            r@.len() == 32,
            r.val() as int == (word_mod() - self.val()) % (word_mod() as int),
    {
        proof {
            use_type_invariant(self);
            lemma_be_val_bound(self@);
            lemma_word_mod_facts();
        }
        let flipped = Bytes32 { bytes: crate::arith::be_not(&self.bytes) };
        let one = Bytes32::one();
        let r = flipped.wrapping_add(&one);
        proof {
            if self.val() == 0 {
                vstd::arithmetic::div_mod::lemma_mod_self_0(word_mod() as int);
                vstd::arithmetic::div_mod::lemma_mod_self_0(word_mod() as int);
            } else {
                vstd::arithmetic::div_mod::lemma_small_mod(
                    (word_mod() - self.val()) as nat,
                    word_mod(),
                );
            }
        }
        r
    }

    /// Bytewise complement.
    pub fn bitnot(&self) -> (r: Bytes32)
        ensures
            r@.len() == 32,
            forall|i: int| 0 <= i < 32 ==> r@[i] == !self@[i],
            r.val() as int == word_mod() - 1 - self.val(),
    {
        proof {
            use_type_invariant(self);
        }
        Bytes32 { bytes: crate::arith::be_not(&self.bytes) }
    }

    /// Bytewise conjunction.
    pub fn bitand(&self, other: &Bytes32) -> (r: Bytes32)
        ensures
            r@.len() == 32,
            forall|i: int| 0 <= i < 32 ==> r@[i] == (self@[i] & other@[i]),
    {
        proof {
            use_type_invariant(self);
            use_type_invariant(other);
        }
        Bytes32 { bytes: crate::arith::be_and(&self.bytes, &other.bytes) }
    }

    /// Bytewise disjunction.
    pub fn bitor(&self, other: &Bytes32) -> (r: Bytes32)
        ensures
            r@.len() == 32,
            forall|i: int| 0 <= i < 32 ==> r@[i] == (self@[i] | other@[i]),
    {
        proof {
            use_type_invariant(self);
            use_type_invariant(other);
        }
        Bytes32 { bytes: crate::arith::be_or(&self.bytes, &other.bytes) }
    }

    /// Bytewise exclusive or.
    pub fn bitxor(&self, other: &Bytes32) -> (r: Bytes32)
        ensures
            r@.len() == 32,
            forall|i: int| 0 <= i < 32 ==> r@[i] == (self@[i] ^ other@[i]),
    {
        proof {
            use_type_invariant(self);
            use_type_invariant(other);
        }
        Bytes32 { bytes: crate::arith::be_xor(&self.bytes, &other.bytes) }
    }

    /// Unsigned strict comparison.
    pub fn lt_word(&self, other: &Bytes32) -> (r: bool)
        ensures
            r == (self.val() < other.val()),
    {
        proof {
            use_type_invariant(self);
            use_type_invariant(other);
        }
        be_lt(&self.bytes, &other.bytes)
    }

    /// The sign bit under the two's-complement reading.
    pub fn is_neg(&self) -> (r: bool)
        ensures
            r == (word_signed(self.val()) < 0),
            r == (self.val() >= word_half()),
    {
        proof {
            use_type_invariant(self);
            crate::arith::lemma_be_val_top_bit(self@);
            lemma_word_mod_facts();
            lemma_be_val_bound(self@);
            assert(128 * pow(256, 31) == pow(2, 255)) by {
                lemma_pow256_pow2(31);
                assert(pow(2, 7) == 128) by {
                    reveal_with_fuel(pow, 8);
                }
                vstd::arithmetic::power::lemma_pow_adds(2, 7, 248);
            }
        }
        self.bytes[0] >= 128
    }

    /// Signed strict comparison under two's complement.
    pub fn slt_word(&self, other: &Bytes32) -> (r: bool)
        ensures
            r == (word_signed(self.val()) < word_signed(other.val())),
    {
        let a_neg = self.is_neg();
        let b_neg = other.is_neg();
        if a_neg != b_neg {
            a_neg
        } else {
            self.lt_word(other)
        }
    }

    /// The absolute value of the two's-complement reading.
    pub fn abs_word(&self) -> (r: Bytes32)
        ensures
            r@.len() == 32,
            r.val() == abs_of(word_signed(self.val())),
    {
        proof {
            use_type_invariant(self);
            lemma_be_val_bound(self@);
            lemma_word_mod_facts();
        }
        if self.is_neg() {
            let r = self.neg();
            proof {
                vstd::arithmetic::div_mod::lemma_small_mod(
                    (word_mod() - self.val()) as nat,
                    word_mod(),
                );
            }
            r
        } else {
            self.dup()
        }
    }
}

impl Bytes32 {
    /// (a + b) mod m, computed at 33-byte width; zero when m is zero.
    pub fn add_mod(&self, other: &Bytes32, modulus: &Bytes32) -> (r: Bytes32)
        ensures
            r@.len() == 32,
            r.val() == (if modulus.val() == 0 {
                0nat
            } else {
                (self.val() + other.val()) % modulus.val()
            }),
    {
        proof {
            use_type_invariant(self);
            use_type_invariant(other);
            use_type_invariant(modulus);
        }
        if modulus.is_zero() {
            return Bytes32::zero();
        }
        let a33 = crate::arith::be_zext(&self.bytes, 1);
        let b33 = crate::arith::be_zext(&other.bytes, 1);
        let (s33, c) = crate::arith::be_add_c(&a33, &b33, false);
        proof {
            lemma_be_val_bound(self@);
            lemma_be_val_bound(other@);
            lemma_be_val_bound(s33@);
            crate::arith::lemma_pow256_step(32);
            lemma_word_mod_facts();
            crate::arith::lemma_unique_bit_decomp(
                be_val(s33@) as int,
                crate::arith::bit_val(c) as int,
                0,
                (self.val() + other.val()) as int,
                pow(256, 33),
            );
        }
        let m33 = crate::arith::be_zext(&modulus.bytes, 1);
        let (_q, rem) = crate::arith::be_div_rem(&s33, &m33);
        proof {
            lemma_be_val_bound(modulus@);
            vstd::arithmetic::div_mod::lemma_mod_division_less_than_divisor(
                be_val(s33@) as int,
                modulus.val() as int,
            );
            vstd::arithmetic::div_mod::lemma_small_mod(
                (self.val() + other.val()) % modulus.val(),
                word_mod(),
            );
        }
        let r = Bytes32::from_vec(rem);
        r
    }

    /// (a * b) mod m, computed at 64-byte width; zero when m is zero.
    pub fn mul_mod(&self, other: &Bytes32, modulus: &Bytes32) -> (r: Bytes32)
        ensures
            r@.len() == 32,
            r.val() == (if modulus.val() == 0 {
                0nat
            } else {
                (self.val() * other.val()) % modulus.val()
            }),
    {
        proof {
            use_type_invariant(self);
            use_type_invariant(other);
            use_type_invariant(modulus);
        }
        if modulus.is_zero() {
            return Bytes32::zero();
        }
        let wide = crate::arith::be_mul_wide(&self.bytes, &other.bytes);
        let m64 = crate::arith::be_zext(&modulus.bytes, 32);
        let (_q, rem) = crate::arith::be_div_rem(&wide, &m64);
        proof {
            lemma_word_mod_facts();
            vstd::arithmetic::div_mod::lemma_mod_division_less_than_divisor(
                be_val(wide@) as int,
                modulus.val() as int,
            );
            lemma_be_val_bound(modulus@);
            vstd::arithmetic::div_mod::lemma_small_mod(
                (self.val() * other.val()) % modulus.val(),
                word_mod(),
            );
        }
        let r = Bytes32::from_vec(rem);
        r
    }

    /// Exponentiation modulo 2^256 by square and multiply.
    pub fn exp_word(&self, exponent: &Bytes32) -> (r: Bytes32)
        ensures
            r@.len() == 32,
            r.val() as int == pow(self.val() as int, exponent.val()) % (word_mod() as int),
    {
        proof {
            use_type_invariant(self);
            use_type_invariant(exponent);
        }
        let ghost bv = self.val();
        let ghost ev = exponent.val();
        let ghost pm = word_mod() as int;
        let mut acc = Bytes32::one();
        let mut xs = be_copy(&exponent.bytes);
        let mut i: usize = 0;
        proof {
            lemma_be_val_bound(exponent@);
            lemma_word_mod_facts();
            lemma_pow256_pow2(32);
            lemma_pow_positive(2, 256);
            vstd::arithmetic::div_mod::lemma_small_mod(ev, crate::arith::p2(256));
            vstd::arithmetic::power::lemma_pow0(2);
            assert(ev * crate::arith::p2(0) == ev) by (nonlinear_arith)
                requires
                    crate::arith::p2(0) == 1,
            ;
            vstd::arithmetic::div_mod::lemma_basic_div(
                ev as int,
                crate::arith::p2(256) as int,
            );
            vstd::arithmetic::power::lemma_pow0(bv as int);
            vstd::arithmetic::div_mod::lemma_small_mod(1, word_mod());
        }
        while i < 256
            invariant
                i <= 256,
                xs@.len() == 32,
                acc@.len() == 32,
                self@.len() == 32,
                bv == self.val(),
                ev == exponent.val(),
                pm == word_mod() as int,
                pm == pow(256, 32),
                pm == crate::arith::p2(256),
                pm > 1,
                ev < crate::arith::p2(256),
                be_val(xs@) == (ev % crate::arith::p2((256 - i) as nat)) * crate::arith::p2(
                    i as nat,
                ),
                acc.val() as int == pow(bv as int, ev / crate::arith::p2((256 - i) as nat))
                    % pm,
            decreases 256 - i,
        {
            let ghost px = ev / crate::arith::p2((256 - i) as nat);
            let ghost bb = crate::arith::nth_bit(ev, (256 - i - 1) as nat);
            let ghost low = (ev % crate::arith::p2((256 - i - 1) as nat)) * crate::arith::p2(
                (i + 1) as nat,
            );
            proof {
                crate::arith::lemma_shift_step(ev, 32, i as nat);
            }
            let (xs2, bit) = crate::arith::be_add_c(&xs, &xs, false);
            proof {
                lemma_be_val_bound(xs2@);
                crate::arith::lemma_unique_bit_decomp(
                    be_val(xs2@) as int,
                    crate::arith::bit_val(bit) as int,
                    bb as int,
                    low as int,
                    pow(256, 32),
                );
            }
            xs = xs2;
            // Square.
            let ghost av = acc.val();
            let acc2 = acc.wrapping_mul(&acc);
            proof {
                vstd::arithmetic::div_mod::lemma_mul_mod_noop_general(
                    pow(bv as int, px),
                    pow(bv as int, px),
                    pm,
                );
                vstd::arithmetic::power::lemma_pow_adds(bv as int, px, px);
                assert(acc2.val() as int == pow(bv as int, px + px) % pm);
            }
            // Multiply by the base when the exponent bit is set.
            if bit {
                let acc3 = acc2.wrapping_mul(self);
                proof {
                    vstd::arithmetic::div_mod::lemma_mul_mod_noop_general(
                        pow(bv as int, px + px),
                        bv as int,
                        pm,
                    );
                    vstd::arithmetic::power::lemma_pow_adds(bv as int, px + px, 1);
                    vstd::arithmetic::power::lemma_pow1(bv as int);
                    lemma_be_val_bound(self@);
                    vstd::arithmetic::div_mod::lemma_small_mod(bv, pm as nat);
                    assert(acc3.val() as int == pow(bv as int, px + px + 1) % pm);
                    assert(px + px + 1 == 2 * px + bb);
                }
                acc = acc3;
            } else {
                acc = acc2;
                proof {
                    assert(px + px == 2 * px + bb);
                }
            }
            i += 1;
        }
        proof {
            vstd::arithmetic::power::lemma_pow0(2);
            assert(ev / crate::arith::p2(0) == ev);
        }
        acc
    }

    /// Doubles the value modulo 2^256.
    fn shl1(&self) -> (r: Bytes32)
        ensures
            r@.len() == 32,
            r.val() == (2 * self.val()) % word_mod(),
    {
        proof {
            use_type_invariant(self);
        }
        let r = self.wrapping_add(self);
        r
    }

    /// Left shift by a small count: value * 2^k mod 2^256.
    pub fn shl_by(&self, k: usize) -> (r: Bytes32)
        ensures
            r@.len() == 32,
            r.val() == (self.val() * crate::arith::p2(k as nat)) % word_mod(),
    {
        proof {
            use_type_invariant(self);
            lemma_be_val_bound(self@);
            lemma_word_mod_facts();
        }
        let ghost v = self.val();
        let mut r = self.dup();
        let mut j: usize = 0;
        proof {
            vstd::arithmetic::power::lemma_pow0(2);
            assert(v * crate::arith::p2(0) == v) by (nonlinear_arith)
                requires
                    crate::arith::p2(0) == 1,
            ;
            vstd::arithmetic::div_mod::lemma_small_mod(v, word_mod());
        }
        while j < k
            invariant
                j <= k,
                r@.len() == 32,
                v == self.val(),
                r.val() == (v * crate::arith::p2(j as nat)) % word_mod(),
            decreases k - j,
        {
            let r2 = r.shl1();
            proof {
                lemma_word_mod_facts();
                vstd::arithmetic::div_mod::lemma_mul_mod_noop_right(
                    2,
                    (v * crate::arith::p2(j as nat)) as int,
                    word_mod() as int,
                );
                crate::arith::lemma_pow2_step(j as nat);
                lemma_pow_positive(2, j as nat);
                assert(2 * (v * crate::arith::p2(j as nat)) == v * crate::arith::p2(
                    (j + 1) as nat,
                )) by (nonlinear_arith)
                    requires
                        crate::arith::p2((j + 1) as nat) == 2 * crate::arith::p2(j as nat),
                ;
            }
            r = r2;
            j += 1;
        }
        r
    }

    /// Right shift by a small count: value / 2^k.
    pub fn shr_by(&self, k: usize) -> (r: Bytes32)
        ensures
            r@.len() == 32,
            r.val() == self.val() / crate::arith::p2(k as nat),
    {
        proof {
            use_type_invariant(self);
        }
        let ghost v = self.val();
        let mut b = be_copy(&self.bytes);
        let mut j: usize = 0;
        proof {
            vstd::arithmetic::power::lemma_pow0(2);
            assert(crate::arith::p2(0) == 1);
            assert(v / 1 == v);
            assert(v / crate::arith::p2(0) == v);
        }
        while j < k
            invariant
                j <= k,
                b@.len() == 32,
                v == self.val(),
                be_val(b@) == v / crate::arith::p2(j as nat),
            decreases k - j,
        {
            let b2 = crate::arith::be_shr1(&b);
            proof {
                lemma_pow_positive(2, j as nat);
                crate::arith::lemma_pow2_step(j as nat);
                vstd::arithmetic::div_mod::lemma_div_denominator(
                    v as int,
                    crate::arith::p2(j as nat) as int,
                    2,
                );
            }
            b = b2;
            j += 1;
        }
        Bytes32 { bytes: b }
    }

    /// The word with every bit set: 2^256 - 1.
    pub fn ones() -> (r: Bytes32)
        ensures
            r@.len() == 32,
            r.val() as int == word_mod() - 1,
    {
        let z = Bytes32::zero();
        z.bitnot()
    }

    /// Logical left shift; a count of 256 or more clears the word.
    pub fn shl_word(&self, shift: &Bytes32) -> (r: Bytes32)
        ensures
            r@.len() == 32,
            r.val() == (if shift.val() >= 256 {
                0nat
            } else {
                (self.val() * crate::arith::p2(shift.val())) % word_mod()
            }),
    {
        proof {
            use_type_invariant(shift);
        }
        match shift.as_usize() {
            Some(k) => {
                if k < 256 {
                    self.shl_by(k)
                } else {
                    Bytes32::zero()
                }
            },
            None => {
                proof {
                    assert(usize::MAX >= 256);
                }
                Bytes32::zero()
            },
        }
    }

    /// Logical right shift; a count of 256 or more clears the word.
    pub fn shr_word(&self, shift: &Bytes32) -> (r: Bytes32)
        ensures
            r@.len() == 32,
            r.val() == (if shift.val() >= 256 {
                0nat
            } else {
                self.val() / crate::arith::p2(shift.val())
            }),
    {
        proof {
            use_type_invariant(shift);
        }
        match shift.as_usize() {
            Some(k) => {
                if k < 256 {
                    self.shr_by(k)
                } else {
                    Bytes32::zero()
                }
            },
            None => {
                proof {
                    assert(usize::MAX >= 256);
                }
                Bytes32::zero()
            },
        }
    }
}

impl Bytes32 {
    /// Arithmetic right shift: euclidean division of the signed reading by
    /// 2^shift, encoded back into the word ring. A count of 256 or more
    /// yields zero for non-negative words and all ones for negative ones.
    pub fn sar_word(&self, shift: &Bytes32) -> (r: Bytes32)
        ensures
            r@.len() == 32,
            r.val() as int == (if shift.val() >= 256 {
                if word_signed(self.val()) < 0 {
                    word_mod() - 1
                } else {
                    0int
                }
            } else {
                (word_signed(self.val()) / (crate::arith::p2(shift.val()) as int)) % (
                word_mod() as int)
            }),
    {
        proof {
            use_type_invariant(self);
            use_type_invariant(shift);
            lemma_be_val_bound(self@);
            lemma_word_mod_facts();
        }
        let neg = self.is_neg();
        let big: bool;
        let mut k: usize = 0;
        match shift.as_usize() {
            Some(kk) => {
                if kk < 256 {
                    big = false;
                    k = kk;
                } else {
                    big = true;
                }
            },
            None => {
                proof {
                    assert(usize::MAX >= 256);
                }
                big = true;
            },
        }
        if big {
            if neg {
                return Bytes32::ones();
            } else {
                return Bytes32::zero();
            }
        }
        let shifted = self.shr_by(k);
        if !neg {
            proof {
                // Non-negative: the euclidean quotient is the logical shift.
                lemma_pow_positive(2, k as nat);
                vstd::arithmetic::div_mod::lemma_div_pos_is_pos(
                    self.val() as int,
                    crate::arith::p2(k as nat) as int,
                );
                vstd::arithmetic::div_mod::lemma_div_nonincreasing(
                    self.val() as int,
                    crate::arith::p2(k as nat) as int,
                );
                vstd::arithmetic::div_mod::lemma_small_mod(
                    (self.val() / crate::arith::p2(k as nat)) as nat,
                    word_mod(),
                );
            }
            return shifted;
        }
        // Negative: fill the k vacated high bits with ones.
        let ones = Bytes32::ones();
        let mask = ones.shl_by(256 - k);
        proof {
            let pm = word_mod() as int;
            let pk = crate::arith::p2(k as nat) as int;
            let pmk = crate::arith::p2((256 - k) as nat) as int;
            lemma_pow_positive(2, k as nat);
            lemma_pow_positive(2, (256 - k) as nat);
            vstd::arithmetic::power::lemma_pow_adds(2, (256 - k) as nat, k as nat);
            assert(pmk * pk == pm);
            assert(pmk <= pm) by {
                vstd::arithmetic::power::lemma_pow_increases(2, (256 - k) as nat, 256);
            }
            // The mask value is 2^256 - 2^(256-k).
            assert((pm - 1) * pmk == (pmk - 1) * pm + (pm - pmk)) by (nonlinear_arith);
            vstd::arithmetic::div_mod::lemma_fundamental_div_mod_converse(
                (pm - 1) * pmk,
                pm,
                pmk - 1,
                pm - pmk,
            );
            assert(mask.val() as int == pm - pmk);
            // The logical shift keeps the quotient below 2^(256-k).
            assert(self.val() / crate::arith::p2(k as nat) < pmk) by {
                vstd::arithmetic::power::lemma_pow_division_inequality(
                    self.val(),
                    2,
                    256,
                    k as nat,
                );
            }
            // The sum does not wrap.
            vstd::arithmetic::div_mod::lemma_small_mod(
                (shifted.val() + mask.val()) as nat,
                word_mod(),
            );
            // And it equals the signed quotient, encoded mod 2^256.
            let ws = word_signed(self.val());
            assert(ws == self.val() - pm);
            vstd::arithmetic::div_mod::lemma_hoist_over_denominator(
                self.val() as int,
                -pmk,
                crate::arith::p2(k as nat),
            );
            assert(self.val() as int + (-pmk) * pk == ws) by (nonlinear_arith)
                requires
                    pmk * pk == pm,
                    ws == self.val() - pm,
            ;
            assert(ws / pk == self.val() as int / pk - pmk);
            vstd::arithmetic::div_mod::lemma_mod_add_multiples_vanish(ws / pk, pm);
            vstd::arithmetic::div_mod::lemma_small_mod(
                (ws / pk + pm) as nat,
                word_mod(),
            );
        }
        shifted.wrapping_add(&mask)
    }

    /// Sign-extends from byte index k (counted from the least significant
    /// byte): bytes above it are filled with the sign of byte k.
    pub fn sign_extend_at(&self, k: usize) -> (r: Bytes32)
        ensures
            r@.len() == 32,
            k >= 31 ==> r@ == self@,
            k < 31 ==> {
                let fill: u8 = if self@[31 - k] >= 128 {
                    255u8
                } else {
                    0u8
                };
                forall|i: int|
                    0 <= i < 32 ==> r@[i] == (if i < 31 - k {
                        fill
                    } else {
                        self@[i]
                    })
            },
    {
        proof {
            use_type_invariant(self);
        }
        if k >= 31 {
            let r = self.dup();
            proof {
                assert(r@ =~= self@);
            }
            return r;
        }
        let fill: u8 = if self.bytes[31 - k] >= 128 {
            255
        } else {
            0
        };
        let mut b = be_copy(&self.bytes);
        let mut i: usize = 0;
        while i < 31 - k
            invariant
                k < 31,
                i <= 31 - k,
                b@.len() == 32,
                self@.len() == 32,
                forall|t: int| 0 <= t < i ==> b@[t] == fill,
                forall|t: int| i <= t < 32 ==> b@[t] == self@[t],
            decreases 31 - k - i,
        {
            b.set(i, fill);
            i += 1;
        }
        Bytes32 { bytes: b }
    }

    /// Truncated signed division: |a|/|b| with the sign of the quotient,
    /// and zero when the divisor is zero. The most negative word divided
    /// by minus one wraps back to itself.
    pub fn sdiv_word(&self, other: &Bytes32) -> (r: Bytes32)
        ensures
            r@.len() == 32,
            r.val() == sdiv_val(self.val(), other.val()),
    {
        proof {
            use_type_invariant(self);
            use_type_invariant(other);
            lemma_word_mod_facts();
        }
        if other.is_zero() {
            return Bytes32::zero();
        }
        let a_neg = self.is_neg();
        let b_neg = other.is_neg();
        let aa = self.abs_word();
        let bb = other.abs_word();
        proof {
            if other.val() != 0 && word_signed(other.val()) < 0 {
                lemma_be_val_bound(other@);
                assert(abs_of(word_signed(other.val())) > 0);
            }
        }
        let q = aa.div_or_zero(&bb);
        if a_neg != b_neg {
            q.neg()
        } else {
            proof {
                vstd::arithmetic::div_mod::lemma_small_mod(q.val(), word_mod());
            }
            q
        }
    }

    /// Signed remainder: |a| mod |b|, negated when either operand is
    /// negative; zero when the divisor is zero.
    pub fn smod_word(&self, other: &Bytes32) -> (r: Bytes32)
        ensures
            r@.len() == 32,
            r.val() == smod_val(self.val(), other.val()),
    {
        proof {
            use_type_invariant(self);
            use_type_invariant(other);
            lemma_word_mod_facts();
        }
        if other.is_zero() {
            return Bytes32::zero();
        }
        let a_neg = self.is_neg();
        let b_neg = other.is_neg();
        let aa = self.abs_word();
        let bb = other.abs_word();
        proof {
            if other.val() != 0 && word_signed(other.val()) < 0 {
                lemma_be_val_bound(other@);
                assert(abs_of(word_signed(other.val())) > 0);
            }
        }
        let m = aa.mod_or_zero(&bb);
        if a_neg || b_neg {
            m.neg()
        } else {
            proof {
                vstd::arithmetic::div_mod::lemma_small_mod(m.val(), word_mod());
            }
            m
        }
    }

    /// The number of significant bytes of the value.
    pub fn byte_len(&self) -> (r: usize)
        ensures
            r == sig_bytes(self@),
    {
        proof {
            use_type_invariant(self);
        }
        let mut i: usize = 0;
        proof {
            assert(self@.skip(0) =~= self@);
        }
        while i < 32
            invariant
                i <= 32,
                self@.len() == 32,
                forall|t: int| 0 <= t < i ==> self@[t] == 0,
                sig_bytes(self@) == sig_bytes(self@.skip(i as int)),
            decreases 32 - i,
        {
            proof {
                vstd::arithmetic::power::lemma_pow0(2);
            }
            if self.bytes[i] != 0 {
                proof {
                    assert(self@.skip(i as int)[0] != 0);
                }
                return 32 - i;
            }
            proof {
                assert(self@.skip(i as int)[0] == 0);
                assert(self@.skip(i as int).skip(1) =~= self@.skip(i + 1));
            }
            i += 1;
        }
        proof {
            assert(self@.skip(32int) =~= Seq::<u8>::empty());
        }
        0
    }
}

/// Truncated signed division on word values: |a|/|b| with the product
/// sign, zero on a zero divisor, encoded in the word ring.
pub open spec fn sdiv_val(a: nat, b: nat) -> nat {
    if b == 0 {
        0
    } else {
        let q = abs_of(word_signed(a)) / abs_of(word_signed(b));
        if (word_signed(a) < 0) != (word_signed(b) < 0) {
            ((word_mod() - q) % (word_mod() as int)) as nat
        } else {
            q
        }
    }
}

/// Signed remainder on word values: |a| mod |b|, negated when either
/// operand reads negative, zero on a zero divisor.
pub open spec fn smod_val(a: nat, b: nat) -> nat {
    if b == 0 {
        0
    } else {
        let m = abs_of(word_signed(a)) % abs_of(word_signed(b));
        if (word_signed(a) < 0) || (word_signed(b) < 0) {
            ((word_mod() - m) % (word_mod() as int)) as nat
        } else {
            m
        }
    }
}

/// The number of significant bytes: the length with leading zeros dropped.
pub open spec fn sig_bytes(s: Seq<u8>) -> nat
    decreases s.len(),
{
    if s.len() == 0 {
        0
    } else if s[0] != 0 {
        s.len()
    } else {
        sig_bytes(s.skip(1))
    }
}

/// Absolute value of an integer, as a natural number.
pub open spec fn abs_of(x: int) -> nat {
    if x < 0 {
        (-x) as nat
    } else {
        x as nat
    }
}

/// Two words with equal values are byte-for-byte equal.
pub proof fn lemma_be_val_injective(a: Seq<u8>, b: Seq<u8>)
    requires
        a.len() == b.len(),
        be_val(a) == be_val(b),
    ensures
        a == b,
    decreases a.len(),
{
    if a.len() > 0 {
        lemma_be_val_bound(a.drop_last());
        lemma_be_val_bound(b.drop_last());
        assert(be_val(a.drop_last()) * 256 + a.last() == be_val(b.drop_last()) * 256
            + b.last());
        assert(a.last() == b.last() && be_val(a.drop_last()) == be_val(b.drop_last())) by {
            vstd::arithmetic::div_mod::lemma_fundamental_div_mod_converse(
                be_val(a) as int,
                256,
                be_val(a.drop_last()) as int,
                a.last() as int,
            );
            vstd::arithmetic::div_mod::lemma_fundamental_div_mod_converse(
                be_val(a) as int,
                256,
                be_val(b.drop_last()) as int,
                b.last() as int,
            );
        }
        lemma_be_val_injective(a.drop_last(), b.drop_last());
        assert(a =~= a.drop_last().push(a.last()));
        assert(b =~= b.drop_last().push(b.last()));
    } else {
        assert(a =~= b);
    }
}

impl Bytes {
    /// The empty buffer.
    pub fn new() -> (r: Bytes)
        ensures
            r@.len() == 0,
    {
        Bytes { bytes: Vec::new() }
    }

    /// Wraps a byte vector.
    pub fn from_vec(v: Vec<u8>) -> (r: Bytes)
        ensures
            r@ == v@,
    {
        Bytes { bytes: v }
    }

    /// Copies a slice into a buffer.
    pub fn from_slice(s: &[u8]) -> (r: Bytes)
        ensures
            r@ == s@,
    {
        Bytes { bytes: slice_to_vec(s) }
    }

    /// A one-byte buffer.
    pub fn from_byte(byte: u8) -> (r: Bytes)
        ensures
            r@ =~= seq![byte],
    {
        let mut v: Vec<u8> = Vec::new();
        v.push(byte);
        Bytes { bytes: v }
    }

    /// The buffer's bytes.
    pub fn as_slice(&self) -> (r: &[u8])
        ensures
            r@ == self@,
    {
        self.bytes.as_slice()
    }

    /// The buffer's value as a `usize`, when it fits.
    pub fn as_usize(&self) -> (r: Option<usize>)
        ensures
            r is Some <==> be_val(self@) <= usize::MAX,
            r is Some ==> r->0 == be_val(self@),
    {
        crate::arith::be_to_usize(&self.bytes)
    }

    /// Length in bytes.
    pub fn len(&self) -> (r: usize)
        ensures
            r == self@.len(),
    {
        self.bytes.len()
    }

    /// True when the buffer holds no bytes.
    pub fn is_empty(&self) -> (r: bool)
        ensures
            r == (self@.len() == 0),
    {
        self.bytes.len() == 0
    }

    /// Grows or shrinks the buffer to `new_size`, filling with `value`.
    pub fn resize(&mut self, new_size: usize, value: u8)
        ensures
            final(self)@.len() == new_size,
            forall|i: int|
                0 <= i < new_size ==> final(self)@[i] == (if i < old(self)@.len() {
                    old(self)@[i]
                } else {
                    value
                }),
    {
        self.bytes.resize(new_size, value);
        proof {
            assert forall|i: int|
                0 <= i < new_size && i >= old(self)@.len() implies self@[i] == value by {
                assert(cloned::<u8>(value, self@[i]));
            }
        }
    }

    /// A one-byte zero buffer.
    pub fn zero() -> (r: Bytes)
        ensures
            r@ =~= seq![0u8],
    {
        Bytes::from_byte(0)
    }

    /// A one-byte buffer holding one.
    pub fn one() -> (r: Bytes)
        ensures
            r@ =~= seq![1u8],
    {
        Bytes::from_byte(1)
    }

    /// True when every byte is zero.
    pub fn is_zero(&self) -> (r: bool)
        ensures
            r == (forall|i: int| 0 <= i < self@.len() ==> self@[i] == 0),
    {
        let r = crate::arith::be_is_zero(&self.bytes);
        proof {
            crate::arith::lemma_be_val_zero(self@);
        }
        r
    }

    /// Copies the buffer.
    pub fn dup(&self) -> (r: Bytes)
        ensures
            r@ == self@,
    {
        Bytes { bytes: be_copy(&self.bytes) }
    }

    /// Reads byte `i`, or zero past the end.
    pub fn read_byte(&self, i: usize) -> (r: u8)
        ensures
            r == (if i < self@.len() {
                self@[i as int]
            } else {
                0
            }),
    {
        if i < self.bytes.len() {
            self.bytes[i]
        } else {
            0
        }
    }

    /// The buffer as a word: left-aligned when shorter than 32 bytes,
    /// truncated to its last 32 bytes otherwise.
    pub fn as_bytes32(&self) -> (r: Bytes32)
        ensures
            r@.len() == 32,
            self@.len() < 32 ==> forall|i: int|
                0 <= i < 32 ==> r@[i] == (if i < self@.len() {
                    self@[i]
                } else {
                    0u8
                }),
            self@.len() >= 32 ==> r@ == self@.skip(self@.len() - 32),
    {
        let n = self.bytes.len();
        if n >= 32 {
            let w = Bytes32::from_slice(self.bytes.as_slice());
            proof {
                if n > 32 {
                    assert(w@ == self@.skip(self@.len() - 32));
                } else {
                    assert(word_bytes_of(self@) =~= self@.skip(0));
                    assert(self@.skip(0) =~= self@);
                }
            }
            w
        } else {
            let mut v = be_copy(&self.bytes);
            let mut k: usize = n;
            while k < 32
                invariant
                    n <= k <= 32,
                    v@.len() == k,
                    n == self@.len(),
                    forall|i: int| 0 <= i < n ==> v@[i] == self@[i],
                    forall|i: int| n <= i < k ==> v@[i] == 0,
                decreases 32 - k,
            {
                v.push(0);
                k += 1;
            }
            Bytes32 { bytes: v }
        }
    }

    /// Rebuilds a buffer from a word's 32 bytes.
    pub fn from_bytes32(w: Bytes32) -> (r: Bytes)
        ensures
            r@ == w@,
    {
        w.as_bytes()
    }
}

impl Address {
    #[verifier::type_invariant]
    spec fn type_inv(&self) -> bool {
        self.bytes@.len() == 20
    }

    /// The all-zero address.
    pub fn zero() -> (r: Address)
        ensures
            r@.len() == 20,
            forall|i: int| 0 <= i < 20 ==> r@[i] == 0,
    {
        Address { bytes: be_zeros(20) }
    }

    /// The low 20 bytes of a right-aligned slice.
    pub fn from_slice(s: &[u8]) -> (r: Address)
        ensures
            r@.len() == 20,
            r@ == word_bytes_of(s@).skip(12),
    {
        let w = Bytes32::from_slice(s);
        w.to_address()
    }

    /// Learns that the address is exactly 20 bytes.
    pub fn wf_facts(&self)
        ensures
            self@.len() == 20,
    {
        proof {
            use_type_invariant(self);
        }
    }

    /// The address bytes.
    pub fn as_slice(&self) -> (r: &[u8])
        ensures
            r@ == self@,
    {
        self.bytes.as_slice()
    }

    /// Copies the address.
    pub fn dup(&self) -> (r: Address)
        ensures
            r@ == self@,
    {
        proof {
            use_type_invariant(self);
        }
        Address { bytes: be_copy(&self.bytes) }
    }

    /// Address equality.
    pub fn eq_addr(&self, other: &Address) -> (r: bool)
        ensures
            r == (self@ == other@),
    {
        proof {
            use_type_invariant(self);
            use_type_invariant(other);
        }
        be_eq(&self.bytes, &other.bytes)
    }

    /// The address widened to a word, zero-padded on the left.
    pub fn as_bytes32(&self) -> (r: Bytes32)
        ensures
            r@.len() == 32,
            r@.skip(12) == self@,
            forall|i: int| 0 <= i < 12 ==> r@[i] == 0,
    {
        proof {
            use_type_invariant(self);
        }
        Bytes32 { bytes: crate::arith::be_zext(&self.bytes, 12) }
    }
}

impl Bytes32 {
    /// The low 20 bytes of the word, as an address.
    pub fn to_address(&self) -> (r: Address)
        ensures
            r@.len() == 20,
            r@ == self@.skip(12),
    {
        proof {
            use_type_invariant(self);
        }
        let s = self.bytes.as_slice();
        let mut v: Vec<u8> = Vec::new();
        let mut k: usize = 12;
        while k < 32
            invariant
                12 <= k <= 32,
                self@.len() == 32,
                s@ == self@,
                v@.len() == k - 12,
                forall|i: int| 0 <= i < k - 12 ==> v@[i] == self@[12 + i],
            decreases 32 - k,
        {
            v.push(s[k]);
            k += 1;
        }
        proof {
            assert(v@ =~= self@.skip(12));
        }
        Address { bytes: v }
    }

    /// Builds a word from an address, zero-padded on the left.
    pub fn from_address(a: &Address) -> (r: Bytes32)
        ensures
            r@.len() == 32,
            r@.skip(12) == a@,
            forall|i: int| 0 <= i < 12 ==> r@[i] == 0,
    {
        a.as_bytes32()
    }
}

/// Copies a slice into a fresh vector.
pub fn slice_to_vec(s: &[u8]) -> (r: Vec<u8>)
    ensures
        r@ == s@,
{
    let n = s.len();
    let mut r: Vec<u8> = Vec::new();
    let mut k: usize = 0;
    while k < n
        invariant
            k <= n,
            n == s@.len(),
            r@ =~= s@.take(k as int),
        decreases n - k,
    {
        r.push(s[k]);
        proof {
            assert(r@ =~= s@.take(k + 1));
        }
        k += 1;
    }
    proof {
        assert(r@ =~= s@);
    }
    r
}

} // verus!
