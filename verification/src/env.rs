//! The execution environment: block metadata and the current call.
use vstd::prelude::*;
use crate::types::{Address, Bytes, Bytes32};

verus! {

/// Block-level metadata. Optional fields read as zero when absent.
pub struct Block {
    pub chain_id: u64,
    pub number: Option<u64>,
    pub gas_used: Bytes32,
    pub gas_limit: Bytes32,
    pub timestamp: Bytes32,
    pub prev_randao: Option<Bytes32>,
    pub difficulty: Option<Bytes32>,
    pub base_fee: Option<Bytes32>,
    pub beneficiary: Option<Address>,
}

impl Block {
    /// A block with every field defaulted.
    pub fn new() -> (r: Block)
        ensures
            r.chain_id == 0,
            r.number is None,
            r.gas_used.val() == 0,
            r.gas_limit.val() == 0,
            r.timestamp.val() == 0,
            r.prev_randao is None,
            r.difficulty is None,
            r.base_fee is None,
            r.beneficiary is None,
    {
        Block {
            chain_id: 0,
            number: None,
            gas_used: Bytes32::zero(),
            gas_limit: Bytes32::zero(),
            timestamp: Bytes32::zero(),
            prev_randao: None,
            difficulty: None,
            base_fee: None,
            beneficiary: None,
        }
    }
}

impl Block {
    /// Copies the block metadata.
    pub fn dup(&self) -> (r: Block)
        ensures
            r.chain_id == self.chain_id,
            r.number == self.number,
            r.gas_used@ == self.gas_used@,
            r.gas_limit@ == self.gas_limit@,
            r.timestamp@ == self.timestamp@,
            (r.prev_randao is Some) == (self.prev_randao is Some),
            r.prev_randao is Some ==> r.prev_randao->0@ == self.prev_randao->0@,
            (r.difficulty is Some) == (self.difficulty is Some),
            r.difficulty is Some ==> r.difficulty->0@ == self.difficulty->0@,
            (r.base_fee is Some) == (self.base_fee is Some),
            r.base_fee is Some ==> r.base_fee->0@ == self.base_fee->0@,
            (r.beneficiary is Some) == (self.beneficiary is Some),
            r.beneficiary is Some ==> r.beneficiary->0@ == self.beneficiary->0@,
    {
        Block {
            chain_id: self.chain_id,
            number: self.number,
            gas_used: self.gas_used.dup(),
            gas_limit: self.gas_limit.dup(),
            timestamp: self.timestamp.dup(),
            prev_randao: dup_opt_word(&self.prev_randao),
            difficulty: dup_opt_word(&self.difficulty),
            base_fee: dup_opt_word(&self.base_fee),
            beneficiary: match &self.beneficiary {
                Some(a) => Some(a.dup()),
                None => None,
            },
        }
    }
}

/// Copies an optional word, preserving the value.
fn dup_opt_word(w: &Option<Bytes32>) -> (r: Option<Bytes32>)
    ensures
        (r is Some) == (*w is Some),
        r is Some ==> r->0@ == (*w)->0@,
{
    match w {
        Some(v) => Some(v.dup()),
        None => None,
    }
}

/// One call: who calls whom, with which code, input and value.
pub struct Call {
    /// The immediate caller.
    pub sender: Address,
    /// The account whose storage and balance the frame works on.
    pub recipient: Address,
    /// The externally owned account that signed the transaction.
    pub originator: Address,
    /// The transaction's gas price.
    pub gas_price: Bytes32,
    /// The gas made available to this call.
    pub available_gas: Bytes32,
    /// The account whose code runs.
    pub code_target: Address,
    /// The calldata.
    pub data: Bytes,
    /// The value transferred with the call.
    pub value: Bytes32,
    /// Whether state mutation is forbidden.
    pub view_only: bool,
    /// The output buffer RETURN or REVERT filled.
    pub result: Bytes,
}

impl Call {
    /// Assembles a call with an empty result buffer.
    pub fn new(
        sender: Address,
        recipient: Address,
        originator: Address,
        gas_price: Bytes32,
        available_gas: Bytes32,
        code_target: Address,
        data: Bytes,
        value: Bytes32,
        view_only: bool,
    ) -> (r: Call)
        ensures
            r.sender@ == sender@,
            r.recipient@ == recipient@,
            r.originator@ == originator@,
            r.gas_price@ == gas_price@,
            r.available_gas@ == available_gas@,
            r.code_target@ == code_target@,
            r.data@ == data@,
            r.value@ == value@,
            r.view_only == view_only,
            r.result@.len() == 0,
    {
        Call {
            sender,
            recipient,
            originator,
            gas_price,
            available_gas,
            code_target,
            data,
            value,
            view_only,
            result: Bytes::new(),
        }
    }

    /// A call whose every field is defaulted.
    pub fn empty() -> (r: Call)
        ensures
            r.data@.len() == 0,
            r.value.val() == 0,
            r.view_only == false,
            r.result@.len() == 0,
    {
        Call::new(
            Address::zero(),
            Address::zero(),
            Address::zero(),
            Bytes32::zero(),
            Bytes32::zero(),
            Address::zero(),
            Bytes::new(),
            Bytes32::zero(),
            false,
        )
    }

    /// A copy of the calldata.
    pub fn data(&self) -> (r: Bytes)
        ensures
            r@ == self.data@,
    {
        self.data.dup()
    }

    /// The calldata size rounded up to a 32-byte boundary.
    pub fn data_size(&self) -> (r: usize)
        requires
            self.data@.len() + 31 <= usize::MAX,
        ensures
            r == crate::memory::round32(self.data@.len() as nat),
    {
        ((self.data.len() + 31) / 32) * 32
    }

    /// Whether the call runs in static mode.
    pub fn is_static(&self) -> (r: bool)
        ensures
            r == self.view_only,
    {
        self.view_only
    }

    /// Whether no value is attached.
    pub fn is_zero(&self) -> (r: bool)
        ensures
            r == (self.value.val() == 0),
    {
        self.value.is_zero()
    }

    /// A copy of the output buffer.
    pub fn result(&self) -> (r: Bytes)
        ensures
            r@ == self.result@,
    {
        self.result.dup()
    }

    /// Replaces the output buffer.
    pub fn set_result(&mut self, result: Bytes)
        ensures
            final(self).result@ == result@,
            *final(self) == (Call { result: final(self).result, ..*old(self) }),
            same_call_mod_result(*old(self), *final(self)),
    {
        self.result = result;
    }

    /// Copies the call record.
    pub fn dup(&self) -> (r: Call)
        ensures
            r.sender@ == self.sender@,
            r.recipient@ == self.recipient@,
            r.originator@ == self.originator@,
            r.gas_price@ == self.gas_price@,
            r.available_gas@ == self.available_gas@,
            r.code_target@ == self.code_target@,
            r.data@ == self.data@,
            r.value@ == self.value@,
            r.view_only == self.view_only,
            r.result@ == self.result@,
    {
        Call {
            sender: self.sender.dup(),
            recipient: self.recipient.dup(),
            originator: self.originator.dup(),
            gas_price: self.gas_price.dup(),
            available_gas: self.available_gas.dup(),
            code_target: self.code_target.dup(),
            data: self.data.dup(),
            value: self.value.dup(),
            view_only: self.view_only,
            result: self.result.dup(),
        }
    }
}

/// Whether two calls agree on everything but the output buffer.
pub open spec fn same_call_mod_result(a: Call, b: Call) -> bool {
    b.sender == a.sender && b.recipient == a.recipient && b.originator == a.originator
        && b.gas_price == a.gas_price && b.available_gas == a.available_gas && b.code_target
        == a.code_target && b.data == a.data && b.value == a.value && b.view_only == a.view_only
}

/// The pair a frame sees: its call and the block it runs in.
pub struct Env {
    pub call: Call,
    pub block: Block,
}

impl Env {
    /// Bundles a call and a block.
    pub fn new(call: Call, block: Block) -> (r: Env)
        ensures
            r.call == call,
            r.block == block,
    {
        Env { call, block }
    }
}

} // verus!
