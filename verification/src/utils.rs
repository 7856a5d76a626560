//! Minimal RLP encoding of single byte strings, used to derive the address
//! of a created contract.
use vstd::prelude::*;

verus! {

/// The minimal big-endian byte string of a number: empty for zero,
/// no leading zeros otherwise.
pub open spec fn min_be(n: nat) -> Seq<u8>
    decreases n,
{
    if n == 0 {
        Seq::empty()
    } else {
        min_be(n / 256).push((n % 256) as u8)
    }
}

/// The RLP length prefix with the given offset byte.
pub open spec fn rlp_len_prefix(length: nat, offset: u8) -> Seq<u8> {
    if length < 56 {
        seq![(offset + length) as u8]
    } else {
        seq![(offset + 55 + min_be(length).len()) as u8] + min_be(length)
    }
}

/// The RLP encoding of one byte string: a single byte below 0x80 stands
/// for itself; anything else is prefixed with its length.
pub open spec fn rlp_of(s: Seq<u8>) -> Seq<u8> {
    if s.len() == 1 && s[0] < 0x80 {
        s
    } else {
        rlp_len_prefix(s.len() as nat, 0x80) + s
    }
}

/// The minimal big-endian bytes of `x`.
fn to_binary(x: usize) -> (r: Vec<u8>)
    ensures
        r@ == min_be(x as nat),
{
    let mut r: Vec<u8> = Vec::new();
    let mut y = x;
    while y > 0
        invariant
            min_be(x as nat) =~= min_be(y as nat) + r@,
        decreases y,
    {
        let ghost r_old = r@;
        let b: u8 = (y % 256) as u8;
        r.insert(0, b);
        proof {
            assert(r@ =~= seq![b] + r_old);
            assert(min_be(y as nat) == min_be((y as nat) / 256).push(b));
            assert(min_be((y as nat) / 256) + (seq![b] + r_old) =~= min_be(y as nat) + r_old);
        }
        y = y / 256;
    }
    proof {
        assert(min_be(0) =~= Seq::<u8>::empty());
        assert(Seq::<u8>::empty() + r@ =~= r@);
    }
    r
}

/// The RLP length prefix for a payload of `length` bytes. Payloads of
/// 2^56 bytes or more are not representable and are ruled out.
fn encode_length(length: usize, offset: u8) -> (r: Vec<u8>)
    requires
        offset <= 0xc0,
        (length as nat) < 72057594037927936,
    ensures
        r@ == rlp_len_prefix(length as nat, offset),
{
    if length < 56 {
        let mut r: Vec<u8> = Vec::new();
        r.push(offset + (length as u8));
        proof {
            assert(r@ =~= rlp_len_prefix(length as nat, offset));
        }
        r
    } else {
        let mut binary_length = to_binary(length);
        proof {
            assert(vstd::arithmetic::power::pow(256, 7) == 72057594037927936) by {
                reveal_with_fuel(vstd::arithmetic::power::pow, 8);
            }
            lemma_min_be_len(length as nat, 7);
        }
        let mut r: Vec<u8> = Vec::new();
        r.push(offset + 55 + (binary_length.len() as u8));
        let ghost first = r@;
        let mut k: usize = 0;
        let n = binary_length.len();
        while k < n
            invariant
                k <= n,
                n == binary_length@.len(),
                r@ =~= first + binary_length@.take(k as int),
            decreases n - k,
        {
            r.push(binary_length[k]);
            proof {
                assert(r@ =~= first + binary_length@.take(k + 1));
            }
            k += 1;
        }
        proof {
            assert(binary_length@.take(n as int) =~= binary_length@);
            assert(r@ =~= rlp_len_prefix(length as nat, offset));
        }
        r
    }
}

/// A number below 256^k has at most k minimal bytes.
proof fn lemma_min_be_len(n: nat, k: nat)
    requires
        n < vstd::arithmetic::power::pow(256, k),
    ensures
        min_be(n).len() <= k,
    decreases k,
{
    if n > 0 {
        if k == 0 {
            vstd::arithmetic::power::lemma_pow0(256);
        } else {
            crate::arith::lemma_pow256_step((k - 1) as nat);
            vstd::arithmetic::power::lemma_pow_positive(256, (k - 1) as nat);
            assert(n / 256 < vstd::arithmetic::power::pow(256, (k - 1) as nat)) by
                (nonlinear_arith)
                requires
                    n < 256 * vstd::arithmetic::power::pow(256, (k - 1) as nat),
                    vstd::arithmetic::power::pow(256, (k - 1) as nat) > 0,
            ;
            lemma_min_be_len(n / 256, (k - 1) as nat);
        }
    }
}

/// RLP-encodes one byte string.
pub fn rlp_encode(input: &[u8]) -> (r: Vec<u8>)
    requires
        input@.len() < 72057594037927936,
    ensures
        r@ == rlp_of(input@),
{
    if input.len() == 1 && input[0] < 0x80 {
        let mut r: Vec<u8> = Vec::new();
        r.push(input[0]);
        proof {
            assert(r@ =~= input@);
        }
        r
    } else {
        let mut r = encode_length(input.len(), 0x80);
        let ghost first = r@;
        let mut k: usize = 0;
        let n = input.len();
        while k < n
            invariant
                k <= n,
                n == input@.len(),
                r@ =~= first + input@.take(k as int),
            decreases n - k,
        {
            r.push(input[k]);
            proof {
                assert(r@ =~= first + input@.take(k + 1));
            }
            k += 1;
        }
        proof {
            assert(input@.take(n as int) =~= input@);
            assert(r@ =~= rlp_of(input@));
        }
        r
    }
}

} // verus!
