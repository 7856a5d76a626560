//! Byte-addressable execution memory: zero-initialized, grown on access to
//! a 32-byte boundary.
use vstd::prelude::*;
use crate::types::Bytes;

verus! {

/// Rounds up to the next multiple of 32.
pub open spec fn round32(n: nat) -> nat {
    ((n + 31) / 32) * 32
}

/// What memory looks like after an access touching `[0, end)`: unchanged if
/// it already covers `end`, otherwise zero-extended to `round32(end)`.
pub open spec fn mem_grown(m: Seq<u8>, end: nat) -> Seq<u8> {
    if end <= m.len() {
        m
    } else {
        m + Seq::new((round32(end) - m.len()) as nat, |i: int| 0u8)
    }
}

/// Rounding properties used to keep the size 32-aligned.
pub proof fn lemma_round32(n: nat)
    ensures
        round32(n) % 32 == 0,
        round32(n) >= n,
        n % 32 == 0 ==> round32(n) == n,
{
    let q = (n + 31) / 32;
    vstd::arithmetic::div_mod::lemma_mod_multiples_basic(q as int, 32);
    vstd::arithmetic::div_mod::lemma_fundamental_div_mod(n as int + 31, 32);
    if n % 32 == 0 {
        vstd::arithmetic::div_mod::lemma_fundamental_div_mod(n as int, 32);
        let k: int = n as int / 32;
        assert(n == 32 * k);
        vstd::arithmetic::div_mod::lemma_div_multiples_vanish_fancy(k, 31, 32);
        assert((32 * k + 31) / 32 == k);
        assert(n as int + 31 == 32 * k + 31);
        assert(round32(n) == k * 32);
        assert(k * 32 == n) by (nonlinear_arith)
            requires
                n == 32 * k,
        ;
    }
}

/// The execution memory of one frame. Its view is the raw byte contents;
/// well-formedness keeps the length a multiple of 32.
pub struct Memory {
    data: Vec<u8>,
}

impl View for Memory {
    type V = Seq<u8>;

    closed spec fn view(&self) -> Seq<u8> {
        self.data@
    }
}

impl Memory {
    /// The length is always a multiple of 32.
    pub closed spec fn wf(&self) -> bool {
        self.data@.len() % 32 == 0
    }

    /// Well-formedness seen on the view.
    pub proof fn lemma_wf(&self)
        requires
            self.wf(),
        ensures
            self@.len() % 32 == 0,
    {
    }

    /// Fresh empty memory.
    pub fn new() -> (r: Memory)
        ensures
            r@.len() == 0,
            r.wf(),
    {
        Memory { data: Vec::new() }
    }

    /// The physical length in bytes.
    pub fn len(&self) -> (r: usize)
        ensures
            r == self@.len(),
    {
        self.data.len()
    }

    /// True when nothing has been touched yet.
    pub fn is_empty(&self) -> (r: bool)
        ensures
            r == (self@.len() == 0),
    {
        self.data.len() == 0
    }

    /// The 32-byte-rounded size; equal to the length on well-formed memory.
    pub fn size(&self) -> (r: usize)
        requires
            self@.len() + 31 <= usize::MAX,
        ensures
            r == round32(self@.len() as nat),
            self.wf() ==> r == self@.len(),
    {
        proof {
            lemma_round32(self@.len() as nat);
            if self@.len() % 32 == 0 {
                assert(round32(self@.len() as nat) == self@.len());
            }
        }
        ((self.data.len() + 31) / 32) * 32
    }

    /// The extra bytes an access to `[offset, offset + size)` would touch
    /// beyond the current length; the basis for memory gas.
    pub fn expansion(&self, offset: usize, size: usize) -> (r: usize)
        requires
            offset + size <= usize::MAX,
        ensures
            r == (if offset + size > self@.len() {
                offset + size - self@.len()
            } else {
                0int
            }),
    {
        if offset + size > self.data.len() {
            offset + size - self.data.len()
        } else {
            0
        }
    }

    /// Reads `size` bytes at `offset`, first growing memory to cover the
    /// range with zero fill at 32-byte granularity.
    pub fn load(&mut self, offset: usize, size: usize) -> (r: Bytes)
        requires
            old(self).wf(),
            offset + size + 31 <= usize::MAX,
        ensures
            final(self).wf(),
            final(self)@ == mem_grown(old(self)@, (offset + size) as nat),
            r@.len() == size,
            forall|i: int| 0 <= i < size ==> r@[i] == final(self)@[offset + i],
    {
        self.grow(offset + size);
        let mut v: Vec<u8> = Vec::new();
        let mut k: usize = 0;
        while k < size
            invariant
                k <= size,
                offset + size <= usize::MAX,
                offset + size <= self@.len(),
                v@.len() == k,
                forall|i: int| 0 <= i < k ==> v@[i] == self@[offset + i],
            decreases size - k,
        {
            v.push(self.data[offset + k]);
            k += 1;
        }
        Bytes::from_vec(v)
    }

    /// Writes `data` at `offset`, first growing memory to cover the range
    /// with zero fill at 32-byte granularity.
    pub fn store(&mut self, offset: usize, data: &Bytes)
        requires
            old(self).wf(),
            offset + data@.len() + 31 <= usize::MAX,
        ensures
            final(self).wf(),
            final(self)@.len() == mem_grown(old(self)@, (offset + data@.len()) as nat).len(),
            forall|i: int|
                0 <= i < final(self)@.len() ==> final(self)@[i] == (if offset <= i < offset
                    + data@.len() {
                    data@[i - offset]
                } else {
                    mem_grown(old(self)@, (offset + data@.len()) as nat)[i]
                }),
    {
        let dlen = data.len();
        self.grow(offset + dlen);
        let mut k: usize = 0;
        while k < dlen
            invariant
                k <= dlen,
                dlen == data@.len(),
                offset + dlen <= usize::MAX,
                offset + dlen <= self@.len(),
                self@.len() == mem_grown(old(self)@, (offset + dlen) as nat).len(),
                self.wf(),
                forall|i: int|
                    0 <= i < self@.len() ==> self@[i] == (if offset <= i < offset + k {
                        data@[i - offset]
                    } else {
                        mem_grown(old(self)@, (offset + dlen) as nat)[i]
                    }),
            decreases dlen - k,
    {
            self.set_byte(offset + k, data.read_byte(k));
            k += 1;
        }
    }

    /// Writes one byte; the range must already be covered.
    fn set_byte(&mut self, i: usize, b: u8)
        requires
            i < old(self)@.len(),
        ensures
            final(self)@ == old(self)@.update(i as int, b),
            final(self).wf() == old(self).wf(),
    {
        self.data.set(i, b);
    }

    /// Grows memory to cover `end` bytes, zero-filled, 32-byte-rounded.
    fn grow(&mut self, end: usize)
        requires
            old(self).wf(),
            end + 31 <= usize::MAX,
        ensures
            final(self).wf(),
            final(self)@ == mem_grown(old(self)@, end as nat),
            end <= final(self)@.len(),
    {
        let cur = self.data.len();
        if end <= cur {
            return;
        }
        let target = ((end + 31) / 32) * 32;
        proof {
            lemma_round32(end as nat);
        }
        let mut k = cur;
        while k < target
            invariant
                cur <= k <= target,
                self@.len() == k,
                self@.take(cur as int) == old(self)@,
                forall|i: int| cur <= i < k ==> self@[i] == 0,
            decreases target - k,
        {
            let ghost pre = self@;
            self.data.push(0);
            proof {
                assert(self@.take(cur as int) =~= pre.take(cur as int));
            }
            k += 1;
        }
        proof {
            lemma_round32(end as nat);
            vstd::arithmetic::div_mod::lemma_mod_multiples_basic(
                (target / 32) as int,
                32,
            );
            assert(self@ =~= mem_grown(old(self)@, end as nat));
        }
    }
}

} // verus!
