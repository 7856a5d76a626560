//! Log records emitted by the LOG instructions.
use vstd::prelude::*;
use crate::types::{Address, Bytes, Bytes32};

verus! {

/// One log record: the emitting address, its payload, and up to four
/// topic words.
pub struct Log {
    pub address: Address,
    pub data: Bytes,
    pub topics: Vec<Bytes32>,
}

impl Log {
    /// A topicless record for `address` carrying `data`.
    pub fn new(address: Address, data: Bytes) -> (r: Log)
        ensures
            r.address@ == address@,
            r.data@ == data@,
            r.topics@.len() == 0,
    {
        Log { address, data, topics: Vec::new() }
    }

    /// Appends one topic; a record carries at most four.
    pub fn add_topic(&mut self, topic: Bytes32)
        requires
            old(self).topics@.len() < 4,
        ensures
            final(self).address@ == old(self).address@,
            final(self).data@ == old(self).data@,
            final(self).topics@ == old(self).topics@.push(topic),
    {
        self.topics.push(topic);
    }

    /// The number of topics.
    pub fn topic_count(&self) -> (r: usize)
        ensures
            r == self.topics@.len(),
    {
        self.topics.len()
    }

    /// Copies the record.
    pub fn dup(&self) -> (r: Log)
        ensures
            r.address@ == self.address@,
            r.data@ == self.data@,
            r.topics@.len() == self.topics@.len(),
            forall|i: int| 0 <= i < self.topics@.len() ==> r.topics@[i]@ == self.topics@[i]@,
    {
        let mut topics: Vec<Bytes32> = Vec::new();
        let n = self.topics.len();
        let mut k: usize = 0;
        while k < n
            invariant
                k <= n,
                n == self.topics@.len(),
                topics@.len() == k,
                forall|i: int| 0 <= i < k ==> topics@[i]@ == self.topics@[i]@,
            decreases n - k,
        {
            topics.push(self.topics[k].dup());
            k += 1;
        }
        Log { address: self.address.dup(), data: self.data.dup(), topics }
    }
}

/// Copies a list of log records, preserving each record's address, data
/// and topic words.
pub fn dup_logs(logs: &Vec<Log>) -> (r: Vec<Log>)
    ensures
        r@.len() == logs@.len(),
        forall|i: int|
            0 <= i < logs@.len() ==> (#[trigger] r@[i]).address@ == logs@[i].address@
                && r@[i].data@ == logs@[i].data@ && r@[i].topics@.len()
                == logs@[i].topics@.len(),
        forall|i: int, t: int|
            0 <= i < logs@.len() && 0 <= t < logs@[i].topics@.len() ==> (#[trigger] r@[i].topics@[t])@
                == logs@[i].topics@[t]@,
{
    let n = logs.len();
    let mut r: Vec<Log> = Vec::new();
    let mut k: usize = 0;
    while k < n
        invariant
            k <= n,
            n == logs@.len(),
            r@.len() == k,
            forall|i: int|
                0 <= i < k ==> (#[trigger] r@[i]).address@ == logs@[i].address@ && r@[i].data@
                    == logs@[i].data@ && r@[i].topics@.len() == logs@[i].topics@.len(),
            forall|i: int, t: int|
                0 <= i < k && 0 <= t < logs@[i].topics@.len() ==> (#[trigger] r@[i].topics@[t])@
                    == logs@[i].topics@[t]@,
        decreases n - k,
    {
        r.push(logs[k].dup());
        k += 1;
    }
    r
}

} // verus!
