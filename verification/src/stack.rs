//! The operand stack: at most 1024 words, last in first out.
use vstd::prelude::*;
use crate::types::Bytes32;
use crate::errors::VmError;

verus! {

/// The LIFO word stack of one execution frame. Its view is the sequence of
/// word values as byte strings, bottom first.
pub struct Stack {
    items: Vec<Bytes32>,
}

impl View for Stack {
    type V = Seq<Seq<u8>>;

    closed spec fn view(&self) -> Seq<Seq<u8>> {
        Seq::new(self.items@.len() as nat, |i: int| self.items@[i]@)
    }
}

impl Stack {
    /// Well-formedness: the depth never exceeds 1024 and every entry is a
    /// 32-byte word.
    pub closed spec fn wf(&self) -> bool {
        self.items@.len() <= 1024 && (forall|i: int|
            0 <= i < self.items@.len() ==> (#[trigger] self.items@[i]@).len() == 32)
    }

    /// What well-formedness means for the view.
    pub proof fn lemma_wf(&self)
        requires
            self.wf(),
        ensures
            self@.len() <= 1024,
            forall|i: int| 0 <= i < self@.len() ==> (#[trigger] self@[i]).len() == 32,
    {
    }

    /// An empty stack.
    pub fn new() -> (r: Stack)
        ensures
            r@.len() == 0,
            r.wf(),
    {
        Stack { items: Vec::new() }
    }

    /// The number of words on the stack.
    pub fn depth(&self) -> (r: usize)
        ensures
            r == self@.len(),
    {
        self.items.len()
    }

    /// The fixed capacity of the stack.
    pub fn max_depth(&self) -> (r: usize)
        ensures
            r == 1024,
    {
        1024
    }

    /// Pushes a word; fails with overflow when 1024 words are present.
    pub fn push(&mut self, value: Bytes32) -> (r: Result<(), VmError>)
        requires
            old(self).wf(),
        ensures
            final(self).wf(),
            r is Ok <==> old(self)@.len() < 1024,
            r is Ok ==> final(self)@ == old(self)@.push(value@),
            r is Err ==> final(self)@ == old(self)@ && r->Err_0 is StackOverflow,
    {
        if self.items.len() == 1024 {
            return Err(VmError::StackOverflow);
        }
        value.wf_facts();
        self.items.push(value);
        proof {
            assert(self@ =~= old(self)@.push(self.items@.last()@));
        }
        Ok(())
    }

    /// Pops the top word; fails with underflow on an empty stack.
    pub fn pop(&mut self) -> (r: Result<Bytes32, VmError>)
        requires
            old(self).wf(),
        ensures
            final(self).wf(),
            r is Ok <==> old(self)@.len() > 0,
            r is Ok ==> final(self)@ == old(self)@.drop_last() && r->Ok_0@ == old(
                self,
            )@.last() && r->Ok_0@.len() == 32,
            r is Err ==> final(self)@ == old(self)@ && r->Err_0 is StackUnderflow,
    {
        match self.items.pop() {
            Some(v) => {
                proof {
                    assert(self@ =~= old(self)@.drop_last());
                }
                Ok(v)
            },
            None => Err(VmError::StackUnderflow),
        }
    }

    /// Reads the word `n` places below the top (0 is the top itself);
    /// fails with underflow when the stack is shallower.
    pub fn peek_from_top(&self, n: usize) -> (r: Result<Bytes32, VmError>)
        requires
            self.wf(),
        ensures
            r is Ok <==> n < self@.len(),
            r is Ok ==> r->Ok_0@ == self@[self@.len() - 1 - n] && r->Ok_0@.len() == 32,
            r is Err ==> r->Err_0 is StackUnderflow,
    {
        let d = self.items.len();
        if n < d {
            Ok(self.items[d - 1 - n].dup())
        } else {
            Err(VmError::StackUnderflow)
        }
    }

    /// Swaps the top with the word `n` places below it; fails with
    /// underflow when the stack is shallower.
    pub fn swap_with_top(&mut self, n: usize) -> (r: Result<(), VmError>)
        requires
            old(self).wf(),
        ensures
            final(self).wf(),
            r is Ok <==> n < old(self)@.len(),
            r is Ok ==> final(self)@ == old(self)@.update(
                old(self)@.len() - 1,
                old(self)@[old(self)@.len() - 1 - n],
            ).update(old(self)@.len() - 1 - n, old(self)@[old(self)@.len() - 1]),
            r is Err ==> final(self)@ == old(self)@ && r->Err_0 is StackUnderflow,
    {
        let d = self.items.len();
        if n < d {
            let top = d - 1;
            let other = d - 1 - n;
            let a = self.items[top].dup();
            let b = self.items[other].dup();
            a.wf_facts();
            b.wf_facts();
            self.items.set(top, b);
            self.items.set(other, a);
            proof {
                assert(self@ =~= old(self)@.update(top as int, old(self)@[other as int]).update(
                    other as int,
                    old(self)@[top as int],
                ));
            }
            Ok(())
        } else {
            Err(VmError::StackUnderflow)
        }
    }

    /// The stack contents top-first, as the result serialization wants.
    pub fn deref_items(&self) -> (r: Vec<Bytes32>)
        ensures
            r@.len() == self@.len(),
            forall|i: int| 0 <= i < r@.len() ==> r@[i]@ == self@[self@.len() - 1 - i],
    {
        let d = self.items.len();
        let mut r: Vec<Bytes32> = Vec::new();
        let mut k: usize = 0;
        while k < d
            invariant
                k <= d,
                d == self@.len(),
                self.items@.len() == d,
                forall|i: int|
                    0 <= i < self.items@.len() ==> self.items@[i]@ == self@[i],
                r@.len() == k,
                forall|i: int| 0 <= i < k ==> r@[i]@ == self@[d - 1 - i],
            decreases d - k,
        {
            r.push(self.items[d - 1 - k].dup());
            k += 1;
        }
        r
    }
}

} // verus!
