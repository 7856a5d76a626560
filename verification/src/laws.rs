//! The library's algebraic laws, stated and proved over the same spec
//! functions its contracts use.
use vstd::prelude::*;
use crate::types::{abs_of, sdiv_val, word_bytes_of, word_half, word_mod, word_signed};

verus! {

/// A 32-byte word is unchanged by right-alignment: serializing a word to
/// its big-endian bytes and rebuilding a word from them is the identity.
pub proof fn lemma_word_bytes_roundtrip(s: Seq<u8>)
    requires
        s.len() == 32,
    ensures
        word_bytes_of(s) == s,
{
    assert(word_bytes_of(s) =~= s);
}

/// Pushing a word and popping it hands the word back and restores the
/// stack below it.
pub proof fn lemma_stack_push_pop(s: Seq<Seq<u8>>, v: Seq<u8>)
    ensures
        s.push(v).last() == v,
        s.push(v).drop_last() == s,
{
    assert(s.push(v).drop_last() =~= s);
}

/// Complementing every byte twice restores the original word.
pub proof fn lemma_double_complement(a: Seq<u8>, b: Seq<u8>, c: Seq<u8>)
    requires
        a.len() == b.len(),
        b.len() == c.len(),
        forall|i: int| 0 <= i < a.len() ==> b[i] == !a[i],
        forall|i: int| 0 <= i < b.len() ==> c[i] == !b[i],
    ensures
        c == a,
{
    assert forall|i: int| 0 <= i < a.len() implies c[i] == a[i] by {
        let x = a[i];
        let y = b[i];
        let z = c[i];
        assert(z == x) by (bit_vector)
            requires
                y == !x,
                z == !y,
        ;
    }
    assert(c =~= a);
}

/// Signed division of the most negative word by minus one wraps back to
/// the most negative word.
pub proof fn lemma_sdiv_most_negative()
    ensures
        sdiv_val(word_half(), (word_mod() - 1) as nat) == word_half(),
{
    crate::types::lemma_word_mod_facts();
    let a = word_half();
    let b = (word_mod() - 1) as nat;
    assert(b != 0);
    assert(word_signed(a) == a - word_mod());
    assert(word_signed(b) == b - word_mod());
    assert(abs_of(word_signed(a)) == a);
    assert(abs_of(word_signed(b)) == 1);
    assert(a / 1 == a);
    assert((word_signed(a) < 0) == (word_signed(b) < 0));
}

} // verus!
