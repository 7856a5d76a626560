// Word arithmetic, conversions, and the value-level laws on concrete data.
use evm::{Bytes, Bytes32};

fn w(x: u64) -> Bytes32 {
    Bytes32::from_u64(x)
}

fn assert_word(a: &Bytes32, x: u64) {
    assert!(a.eq_word(&w(x)), "word mismatch");
}

#[test]
fn word_roundtrip_bytes() {
    let a = w(0xdead_beef_0042);
    let back = Bytes32::from_slice(a.as_slice());
    assert!(back.eq_word(&a));
    let ones = Bytes32::ones();
    let back2 = Bytes32::from_slice(ones.as_slice());
    assert!(back2.eq_word(&ones));
}

#[test]
fn add_wraps() {
    let max = Bytes32::ones();
    let r = max.wrapping_add(&w(1));
    assert!(r.is_zero());
    let r2 = w(2).wrapping_add(&w(3));
    assert_word(&r2, 5);
}

#[test]
fn sub_wraps_below_zero() {
    let r = w(2).wrapping_sub(&w(3));
    assert!(r.eq_word(&Bytes32::ones()));
    let r2 = w(10).wrapping_sub(&w(4));
    assert_word(&r2, 6);
}

#[test]
fn mul_exact_and_wrapping() {
    assert_word(&w(7).wrapping_mul(&w(6)), 42);
    let big = Bytes32::ones();
    let r = big.wrapping_mul(&w(2));
    // (2^256 - 1) * 2 mod 2^256 == 2^256 - 2
    let expected = Bytes32::ones().wrapping_sub(&w(1));
    assert!(r.eq_word(&expected));
}

#[test]
fn div_and_mod_by_zero_give_zero() {
    assert!(w(123).div_or_zero(&w(0)).is_zero());
    assert!(w(123).mod_or_zero(&w(0)).is_zero());
    assert_word(&w(123).div_or_zero(&w(10)), 12);
    assert_word(&w(123).mod_or_zero(&w(10)), 3);
}

#[test]
fn addmod_mulmod() {
    assert!(w(10).add_mod(&w(10), &w(0)).is_zero());
    assert!(w(10).mul_mod(&w(10), &w(0)).is_zero());
    assert_word(&w(10).add_mod(&w(10), &w(8)), 4);
    assert_word(&w(10).mul_mod(&w(10), &w(8)), 4);
    // The sum is taken at full width before reduction.
    let max = Bytes32::ones();
    let r = max.add_mod(&w(2), &w(2));
    // (2^256 - 1 + 2) mod 2 == 1
    assert_word(&r, 1);
}

#[test]
fn sdiv_most_negative_by_minus_one() {
    // The most negative word: 2^255.
    let mut bytes = [0u8; 32];
    bytes[0] = 0x80;
    let most_negative = Bytes32::from_slice(&bytes);
    let minus_one = Bytes32::ones();
    let r = most_negative.sdiv_word(&minus_one);
    assert!(r.eq_word(&most_negative));
}

#[test]
fn signed_div_and_mod() {
    let minus_six = w(6).neg();
    let r = minus_six.sdiv_word(&w(2));
    assert!(r.eq_word(&w(3).neg()));
    let m = minus_six.smod_word(&w(4));
    assert!(m.eq_word(&w(2).neg()));
}

#[test]
fn not_is_an_involution() {
    let a = w(0x1234_5678);
    let twice = a.bitnot().bitnot();
    assert!(twice.eq_word(&a));
    let z = Bytes32::zero();
    assert!(z.bitnot().eq_word(&Bytes32::ones()));
}

#[test]
fn bitwise_ops() {
    assert_word(&w(0b1100).bitand(&w(0b1010)), 0b1000);
    assert_word(&w(0b1100).bitor(&w(0b1010)), 0b1110);
    assert_word(&w(0b1100).bitxor(&w(0b1010)), 0b0110);
}

#[test]
fn shifts_at_and_past_the_width() {
    assert_word(&w(1).shl_word(&w(4)), 16);
    assert_word(&w(256).shr_word(&w(4)), 16);
    assert!(w(5).shl_word(&w(256)).is_zero());
    assert!(w(5).shr_word(&w(256)).is_zero());
    let pos = w(5);
    assert!(pos.sar_word(&w(256)).is_zero());
    let neg = w(5).neg();
    assert!(neg.sar_word(&w(256)).eq_word(&Bytes32::ones()));
    // Arithmetic shift of -8 by 2 is -2.
    let minus_eight = w(8).neg();
    assert!(minus_eight.sar_word(&w(2)).eq_word(&w(2).neg()));
}

#[test]
fn exp_exact() {
    assert_word(&w(2).exp_word(&w(10)), 1024);
    assert_word(&w(7).exp_word(&w(0)), 1);
    assert_word(&w(0).exp_word(&w(5)), 0);
}

#[test]
fn signextend_from_byte_zero() {
    let x = w(0xFF);
    let r = x.sign_extend_at(0);
    assert!(r.eq_word(&Bytes32::ones()));
    let y = w(0x7F);
    let r2 = y.sign_extend_at(0);
    assert!(r2.eq_word(&y));
}

#[test]
fn comparisons() {
    assert!(w(1).lt_word(&w(2)));
    assert!(!w(2).lt_word(&w(2)));
    let minus_one = Bytes32::ones();
    assert!(minus_one.slt_word(&w(0)));
    assert!(!w(0).slt_word(&minus_one));
    assert!(w(3).eq_word(&w(3)));
}

#[test]
fn byte_selection() {
    let a = w(0x0102);
    assert_eq!(a.get_byte(31), 0x02);
    assert_eq!(a.get_byte(30), 0x01);
    assert_eq!(a.get_byte(0), 0);
    assert_eq!(a.get_byte(99), 0);
}

#[test]
fn usize_conversion_bounds() {
    assert_eq!(w(77).as_usize(), Some(77));
    let big = Bytes32::ones();
    assert_eq!(big.as_usize(), None);
}

#[test]
fn buffer_conversions() {
    let b = Bytes::from_slice(&[1, 2, 3]);
    assert_eq!(b.len(), 3);
    assert!(!b.is_empty());
    let word = Bytes32::from_bytes(b);
    // Right-aligned: the low three bytes are 1, 2, 3.
    assert_eq!(word.get_byte(29), 1);
    assert_eq!(word.get_byte(30), 2);
    assert_eq!(word.get_byte(31), 3);
    assert_eq!(word.as_usize(), Some(0x010203));
}

#[test]
fn rlp_encoding() {
    assert_eq!(evm::rlp_encode(&[0x42]), vec![0x42]);
    assert_eq!(evm::rlp_encode(&[0x80]), vec![0x81, 0x80]);
    assert_eq!(evm::rlp_encode(&[1, 2, 3]), vec![0x83, 1, 2, 3]);
    let empty: Vec<u8> = Vec::new();
    assert_eq!(evm::rlp_encode(&empty), vec![0x80]);
}
