// The machine: stack, memory, storage, state, jump validation, and whole
// bytecode programs run through the interpreter.
use evm::{
    Address, Block, Bytes, Bytes32, Call, ExecutionContext, Memory, Opcode, Stack, State,
    Storage, VmError,
};

fn w(x: u64) -> Bytes32 {
    Bytes32::from_u64(x)
}

fn addr(last: u8) -> Address {
    let mut b = [0u8; 20];
    b[19] = last;
    Address::from_slice(&b)
}

fn run_code(code: &[u8]) -> (evm::EvmResult, ExecutionContext) {
    let mut ctx = ExecutionContext::new(
        Call::empty(),
        Block::new(),
        State::new(),
        Bytes::from_slice(code),
    );
    let r = ctx.run(1_000_000);
    (r, ctx)
}

#[test]
fn stack_push_pop_roundtrip() {
    let mut s = Stack::new();
    assert_eq!(s.depth(), 0);
    s.push(w(42)).unwrap();
    assert_eq!(s.depth(), 1);
    let v = s.pop().unwrap();
    assert!(v.eq_word(&w(42)));
    assert_eq!(s.depth(), 0);
}

#[test]
fn stack_underflow_and_overflow() {
    let mut s = Stack::new();
    assert_eq!(s.pop().unwrap_err(), VmError::StackUnderflow);
    for _ in 0..1024 {
        s.push(w(1)).unwrap();
    }
    assert_eq!(s.depth(), 1024);
    assert_eq!(s.push(w(1)).unwrap_err(), VmError::StackOverflow);
    assert_eq!(s.depth(), 1024);
}

#[test]
fn memory_store_load_roundtrip() {
    let mut m = Memory::new();
    assert!(m.is_empty());
    m.store(10, &Bytes::from_slice(&[7, 8, 9]));
    let out = m.load(10, 3);
    assert_eq!(out.as_slice(), &[7, 8, 9]);
    // The size is 32-byte aligned after every operation.
    assert_eq!(m.len() % 32, 0);
    assert_eq!(m.size(), 32);
    let far = m.load(40, 4);
    assert_eq!(far.as_slice(), &[0, 0, 0, 0]);
    assert_eq!(m.size(), 64);
}

#[test]
fn storage_reads_zero_for_fresh_keys() {
    let s = Storage::new();
    let v = s.load(&w(99));
    assert!(v.is_zero());
}

#[test]
fn storage_store_load_roundtrip() {
    let mut s = Storage::new();
    s.store(&w(5), &w(1234));
    assert!(s.load(&w(5)).eq_word(&w(1234)));
    assert!(s.load(&w(6)).is_zero());
    s.store(&w(5), &w(4321));
    assert!(s.load(&w(5)).eq_word(&w(4321)));
}

#[test]
fn state_defaults_and_transfer() {
    let mut st = State::new();
    let a = addr(1);
    let b = addr(2);
    assert!(st.balance(&a).is_zero());
    assert!(st.nonce(&a).is_zero());
    assert_eq!(st.code(&a).len(), 0);
    // Funding and moving value around.
    let mut acct = evm::AccountState::new(a.dup());
    acct.balance = w(100);
    st.insert(acct);
    st.transfer(&a, &b, &w(30)).unwrap();
    assert!(st.balance(&a).eq_word(&w(70)));
    assert!(st.balance(&b).eq_word(&w(30)));
    let err = st.transfer(&a, &b, &w(1000)).unwrap_err();
    assert_eq!(err, VmError::InsufficientBalance);
    assert!(st.balance(&a).eq_word(&w(70)));
}

#[test]
fn state_storage_isolated_per_account() {
    let mut st = State::new();
    let a = addr(1);
    let b = addr(2);
    st.storage_store(&a, &w(1), &w(11));
    assert!(st.storage_load(&a, &w(1)).eq_word(&w(11)));
    assert!(st.storage_load(&b, &w(1)).is_zero());
}

#[test]
fn code_hash_of_empty_code_is_the_canonical_constant() {
    let st = State::new();
    let h = st.code_hash(&addr(9));
    let expected: [u8; 32] = [
        0xc5, 0xd2, 0x46, 0x01, 0x86, 0xf7, 0x23, 0x3c, 0x92, 0x7e, 0x7d, 0xb2, 0xdc, 0xc7,
        0x03, 0xc0, 0xe5, 0x00, 0xb6, 0x53, 0xca, 0x82, 0x27, 0x3b, 0x7b, 0xfa, 0xd8, 0x04,
        0x5d, 0x85, 0xa4, 0x70,
    ];
    assert_eq!(h.as_slice(), &expected);
}

#[test]
fn jumpdest_validation_skips_push_immediates() {
    // PUSH1 0x5B; JUMPDEST: offset 1 is an immediate, offset 2 is real.
    let code = Bytes::from_slice(&[0x60, 0x5B, 0x5B]);
    assert!(!evm::validate_jumpdest(&code, 1));
    assert!(evm::validate_jumpdest(&code, 2));
    assert!(!evm::validate_jumpdest(&code, 0));
    assert!(!evm::validate_jumpdest(&code, 7));
}

#[test]
fn program_push_push_add() {
    let (r, ctx) = run_code(&[0x60, 0x01, 0x60, 0x02, 0x01]);
    assert!(r.success);
    assert_eq!(r.stack.len(), 1);
    assert!(r.stack[0].eq_word(&w(3)));
    assert_eq!(r.result.len(), 0);
    // Two PUSH1 and one ADD, three gas each.
    assert_eq!(ctx.gas_left(), 9);
}

#[test]
fn program_sub_wraps_in_256_bits() {
    let (r, _) = run_code(&[0x60, 0x03, 0x60, 0x02, 0x03]);
    assert!(r.success);
    assert_eq!(r.stack.len(), 1);
    assert!(r.stack[0].eq_word(&Bytes32::ones()));
}

#[test]
fn program_revert_empties_nothing_and_fails() {
    let (r, _) = run_code(&[0x60, 0x00, 0x60, 0x00, 0xFD]);
    assert!(!r.success);
    assert_eq!(r.stack.len(), 0);
    assert_eq!(r.result.len(), 0);
}

#[test]
fn program_jump_to_jumpdest() {
    // PUSH1 3; JUMP; JUMPDEST; PUSH1 0x2A.
    let (r, _) = run_code(&[0x60, 0x03, 0x56, 0x5B, 0x60, 0x2A]);
    assert!(r.success);
    assert_eq!(r.stack.len(), 1);
    assert!(r.stack[0].eq_word(&w(0x2A)));
}

#[test]
fn program_jump_into_push_immediate_fails() {
    // PUSH1 4; JUMP; the byte at offset 4 sits inside a PUSH1 immediate.
    let (r, _) = run_code(&[0x60, 0x04, 0x56, 0x60, 0x2A, 0x5B]);
    assert!(!r.success);
}

#[test]
fn program_jumpi_taken_and_not_taken() {
    // PUSH1 1; PUSH1 6; JUMPI; STOP; JUMPDEST; PUSH1 7.
    let (r, _) = run_code(&[0x60, 0x01, 0x60, 0x06, 0x57, 0x00, 0x5B, 0x60, 0x07]);
    assert!(r.success);
    assert_eq!(r.stack.len(), 1);
    assert!(r.stack[0].eq_word(&w(7)));
    // A zero condition falls through to the STOP.
    let (r2, _) = run_code(&[0x60, 0x00, 0x60, 0x06, 0x57, 0x00, 0x5B, 0x60, 0x07]);
    assert!(r2.success);
    assert_eq!(r2.stack.len(), 0);
}

#[test]
fn program_truncated_push_reads_zero() {
    // A PUSH2 with only one immediate byte left: the missing byte is zero.
    let (r, _) = run_code(&[0x61, 0x01]);
    assert!(r.success);
    assert_eq!(r.stack.len(), 1);
    assert!(r.stack[0].eq_word(&w(0x0100)));
    // A PUSH1 with no immediate bytes at all pushes zero.
    let (r2, _) = run_code(&[0x60]);
    assert!(r2.success);
    assert!(r2.stack[0].is_zero());
}

#[test]
fn program_mstore_mload() {
    // PUSH1 0x2A; PUSH1 0; MSTORE; PUSH1 0; MLOAD.
    let (r, _) = run_code(&[0x60, 0x2A, 0x60, 0x00, 0x52, 0x60, 0x00, 0x51]);
    assert!(r.success);
    assert_eq!(r.stack.len(), 1);
    assert!(r.stack[0].eq_word(&w(0x2A)));
}

#[test]
fn program_msize_is_multiple_of_32() {
    // Touch one byte far into memory, then read MSIZE.
    let (r, _) = run_code(&[0x60, 0x01, 0x60, 0x21, 0x53, 0x59]);
    assert!(r.success);
    assert_eq!(r.stack.len(), 1);
    assert!(r.stack[0].eq_word(&w(64)));
}

#[test]
fn program_return_data() {
    // Store 0x2A at 0, return the 32-byte word.
    let (r, _) = run_code(&[0x60, 0x2A, 0x60, 0x00, 0x52, 0x60, 0x20, 0x60, 0x00, 0xF3]);
    assert!(r.success);
    assert_eq!(r.result.len(), 32);
    assert_eq!(r.result.as_slice()[31], 0x2A);
}

#[test]
fn program_sstore_sload() {
    // PUSH1 7; PUSH1 1; SSTORE; PUSH1 1; SLOAD.
    let (r, _) = run_code(&[0x60, 0x07, 0x60, 0x01, 0x55, 0x60, 0x01, 0x54]);
    assert!(r.success);
    assert_eq!(r.stack.len(), 1);
    assert!(r.stack[0].eq_word(&w(7)));
}

#[test]
fn program_sstore_in_static_frame_reverts() {
    let call = Call::new(
        addr(1),
        addr(2),
        addr(1),
        Bytes32::zero(),
        Bytes32::zero(),
        addr(2),
        Bytes::new(),
        Bytes32::zero(),
        true,
    );
    let mut ctx = ExecutionContext::new(
        call,
        Block::new(),
        State::new(),
        Bytes::from_slice(&[0x60, 0x07, 0x60, 0x01, 0x55]),
    );
    let r = ctx.run(1_000_000);
    assert!(!r.success);
}

#[test]
fn program_dup_swap_pop() {
    // PUSH1 1; PUSH1 2; DUP2; SWAP1; POP -> stack [1, 2, 1] top-first 1, 2, 1.
    let (r, _) = run_code(&[0x60, 0x01, 0x60, 0x02, 0x81, 0x90, 0x50]);
    assert!(r.success);
    assert_eq!(r.stack.len(), 2);
    assert!(r.stack[0].eq_word(&w(1)));
    assert!(r.stack[1].eq_word(&w(1)));
}

#[test]
fn program_stack_underflow_reverts() {
    let (r, _) = run_code(&[0x01]);
    assert!(!r.success);
}

#[test]
fn program_unknown_opcode_reverts() {
    let (r, _) = run_code(&[0x60, 0x01, 0x0C]);
    assert!(!r.success);
}

#[test]
fn program_invalid_opcode_reverts() {
    let (r, _) = run_code(&[0xFE]);
    assert!(!r.success);
}

#[test]
fn program_log0_records_address_and_data() {
    let call = Call::new(
        addr(1),
        addr(7),
        addr(1),
        Bytes32::zero(),
        Bytes32::zero(),
        addr(7),
        Bytes::new(),
        Bytes32::zero(),
        false,
    );
    let mut ctx = ExecutionContext::new(
        call,
        Block::new(),
        State::new(),
        // PUSH1 2 (size); PUSH1 0 (offset); LOG0.
        Bytes::from_slice(&[0x60, 0x02, 0x60, 0x00, 0xA0]),
    );
    let r = ctx.run(1_000_000);
    assert!(r.success);
    assert_eq!(r.logs.len(), 1);
    assert_eq!(r.logs[0].address.as_slice(), addr(7).as_slice());
    assert_eq!(r.logs[0].data.len(), 2);
    assert_eq!(r.logs[0].topics.len(), 0);
}

#[test]
fn program_keccak_of_empty_range() {
    // PUSH1 0 (size); PUSH1 0 (offset); SHA3.
    let (r, _) = run_code(&[0x60, 0x00, 0x60, 0x00, 0x20]);
    assert!(r.success);
    assert_eq!(r.stack.len(), 1);
    assert_eq!(r.stack[0].as_slice()[0], 0xc5);
    assert_eq!(r.stack[0].as_slice()[31], 0x70);
}

#[test]
fn call_to_empty_account_moves_value() {
    // Account A holds 100; calling empty-code B with value 10 succeeds at
    // once, leaving A with 90 and B with 10, and the parent sees flag one.
    let a = addr(0xAA);
    let b = addr(0xBB);
    let mut st = State::new();
    let mut acct = evm::AccountState::new(a.dup());
    acct.balance = w(100);
    st.insert(acct);
    let outer = Call::new(
        a.dup(),
        a.dup(),
        a.dup(),
        Bytes32::zero(),
        Bytes32::zero(),
        a.dup(),
        Bytes::new(),
        Bytes32::zero(),
        false,
    );
    let mut ctx = ExecutionContext::new(outer, Block::new(), st, Bytes::new());
    let inner = Call::new(
        a.dup(),
        b.dup(),
        a.dup(),
        Bytes32::zero(),
        Bytes32::zero(),
        b.dup(),
        Bytes::new(),
        w(10),
        false,
    );
    let res = ctx.execute_call(inner);
    assert!(res.success.eq_word(&w(1)));
    assert_eq!(res.result.len(), 0);
    assert!(ctx.state.balance(&a).eq_word(&w(90)));
    assert!(ctx.state.balance(&b).eq_word(&w(10)));
}

#[test]
fn reverted_subcall_leaves_parent_state_alone() {
    // The callee stores to its storage and then reverts; the parent's
    // state keeps its pre-call reads.
    let a = addr(0xAA);
    let b = addr(0xBB);
    let mut st = State::new();
    let mut acct = evm::AccountState::new(b.dup());
    // SSTORE 1 <- 7, then REVERT with empty data.
    acct.code = Bytes::from_slice(&[0x60, 0x07, 0x60, 0x01, 0x55, 0x60, 0x00, 0x60, 0x00, 0xFD]);
    st.insert(acct);
    let outer = Call::new(
        a.dup(),
        a.dup(),
        a.dup(),
        Bytes32::zero(),
        Bytes32::zero(),
        a.dup(),
        Bytes::new(),
        Bytes32::zero(),
        false,
    );
    let mut ctx = ExecutionContext::new(outer, Block::new(), st, Bytes::new());
    let inner = Call::new(
        a.dup(),
        b.dup(),
        a.dup(),
        Bytes32::zero(),
        Bytes32::zero(),
        b.dup(),
        Bytes::new(),
        Bytes32::zero(),
        false,
    );
    let res = ctx.execute_call(inner);
    assert!(res.success.is_zero());
    assert!(ctx.state.storage_load(&b, &w(1)).is_zero());
}

#[test]
fn successful_subcall_commits_storage_and_return_data() {
    let a = addr(0xAA);
    let b = addr(0xBB);
    let mut st = State::new();
    let mut acct = evm::AccountState::new(b.dup());
    // SSTORE 1 <- 7; store 0x2A in memory; RETURN 32 bytes.
    acct.code = Bytes::from_slice(&[
        0x60, 0x07, 0x60, 0x01, 0x55, 0x60, 0x2A, 0x60, 0x00, 0x52, 0x60, 0x20, 0x60, 0x00,
        0xF3,
    ]);
    st.insert(acct);
    let outer = Call::new(
        a.dup(),
        a.dup(),
        a.dup(),
        Bytes32::zero(),
        Bytes32::zero(),
        a.dup(),
        Bytes::new(),
        Bytes32::zero(),
        false,
    );
    let mut ctx = ExecutionContext::new(outer, Block::new(), st, Bytes::new());
    let inner = Call::new(
        a.dup(),
        b.dup(),
        a.dup(),
        Bytes32::zero(),
        Bytes32::zero(),
        b.dup(),
        Bytes::new(),
        Bytes32::zero(),
        false,
    );
    let res = ctx.execute_call(inner);
    assert!(res.success.eq_word(&w(1)));
    assert_eq!(res.result.len(), 32);
    assert_eq!(res.result.as_slice()[31], 0x2A);
    assert!(ctx.state.storage_load(&b, &w(1)).eq_word(&w(7)));
    assert_eq!(ctx.return_data().len(), 32);
}

#[test]
fn selfdestruct_moves_balance_and_clears_account() {
    let a = addr(0xAA);
    let b = addr(0xBB);
    let mut st = State::new();
    let mut acct = evm::AccountState::new(a.dup());
    acct.balance = w(5);
    // PUSH20 b; SELFDESTRUCT.
    let mut code: Vec<u8> = vec![0x73];
    code.extend_from_slice(b.as_slice());
    code.push(0xFF);
    acct.code = Bytes::from_slice(&code);
    let program = acct.code.dup();
    st.insert(acct);
    let call = Call::new(
        a.dup(),
        a.dup(),
        a.dup(),
        Bytes32::zero(),
        Bytes32::zero(),
        a.dup(),
        Bytes::new(),
        Bytes32::zero(),
        false,
    );
    let mut ctx = ExecutionContext::new(call, Block::new(), st, program);
    let r = ctx.run(1_000_000);
    assert!(r.success);
    assert!(ctx.state.balance(&b).eq_word(&w(5)));
    assert!(ctx.state.balance(&a).is_zero());
}

#[test]
fn opcode_decode_and_gas_tiers() {
    assert!(matches!(Opcode::try_from(0x01), Some(Opcode::ADD)));
    assert!(matches!(Opcode::try_from(0x5B), Some(Opcode::JUMPDEST)));
    assert!(Opcode::try_from(0x0C).is_none());
    assert_eq!(Opcode::ADD.fix_gas(), 3);
    assert_eq!(Opcode::MUL.fix_gas(), 5);
    assert_eq!(Opcode::ADDMOD.fix_gas(), 8);
    assert_eq!(Opcode::EXP.fix_gas(), 10);
    assert_eq!(Opcode::SHA3.fix_gas(), 30);
    assert_eq!(Opcode::JUMPDEST.fix_gas(), 1);
    assert_eq!(Opcode::STOP.fix_gas(), 0);
}

#[test]
fn calldata_reaches_the_program() {
    // CALLDATALOAD at offset 0 with two bytes of calldata: they arrive
    // left-aligned in the word.
    let call = Call::new(
        addr(1),
        addr(2),
        addr(1),
        Bytes32::zero(),
        Bytes32::zero(),
        addr(2),
        Bytes::from_slice(&[0xAB, 0xCD]),
        Bytes32::zero(),
        false,
    );
    let mut ctx = ExecutionContext::new(
        call,
        Block::new(),
        State::new(),
        Bytes::from_slice(&[0x60, 0x00, 0x35]),
    );
    let r = ctx.run(1_000_000);
    assert!(r.success);
    assert_eq!(r.stack[0].as_slice()[0], 0xAB);
    assert_eq!(r.stack[0].as_slice()[1], 0xCD);
    assert_eq!(r.stack[0].as_slice()[2], 0x00);
}

#[test]
fn call_opcode_failure_writes_revert_data_and_keeps_state() {
    // The callee writes 0x2A into its memory and reverts returning it.
    // The caller sees flag zero, its state untouched, and the callee's
    // revert data copied over the return area.
    let a = addr(0xAA);
    let b = addr(0xBB);
    let mut st = State::new();
    let mut callee = evm::AccountState::new(b.dup());
    callee.code = Bytes::from_slice(&[
        0x60, 0x2A, 0x60, 0x00, 0x52, 0x60, 0x20, 0x60, 0x00, 0xFD,
    ]);
    st.insert(callee);
    // Caller: push ret_size 32, ret_offset 0, args_size 0, args_offset 0,
    // value 0, the callee address, gas 0; CALL; then MLOAD 0.
    let mut code: Vec<u8> = vec![0x60, 0x20, 0x60, 0x00, 0x60, 0x00, 0x60, 0x00, 0x60, 0x00];
    code.push(0x73);
    code.extend_from_slice(b.as_slice());
    code.extend_from_slice(&[0x60, 0x00, 0xF1, 0x60, 0x00, 0x51]);
    let call = Call::new(
        a.dup(),
        a.dup(),
        a.dup(),
        Bytes32::zero(),
        Bytes32::zero(),
        a.dup(),
        Bytes::new(),
        Bytes32::zero(),
        false,
    );
    let mut ctx = ExecutionContext::new(call, Block::new(), st, Bytes::from_vec(code));
    let r = ctx.run(1_000_000);
    assert!(r.success);
    assert_eq!(r.stack.len(), 2);
    // Top of the stack: the word MLOAD read from the return area.
    assert!(r.stack[0].eq_word(&w(0x2A)));
    // Below it: the failure flag of the call.
    assert!(r.stack[1].is_zero());
    // The callee's storage writes were rolled back entirely.
    assert!(ctx.state.storage_load(&b, &w(0)).is_zero());
    // The callee's revert data is the caller's return-data buffer.
    assert_eq!(ctx.return_data().len(), 32);
}

#[test]
fn call_opcode_success_pushes_one() {
    // The callee stores into its storage and stops; the caller sees flag
    // one and the adopted state.
    let a = addr(0xAA);
    let b = addr(0xBB);
    let mut st = State::new();
    let mut callee = evm::AccountState::new(b.dup());
    callee.code = Bytes::from_slice(&[0x60, 0x07, 0x60, 0x01, 0x55, 0x00]);
    st.insert(callee);
    let mut code: Vec<u8> = vec![0x60, 0x00, 0x60, 0x00, 0x60, 0x00, 0x60, 0x00, 0x60, 0x00];
    code.push(0x73);
    code.extend_from_slice(b.as_slice());
    code.extend_from_slice(&[0x60, 0x00, 0xF1]);
    let call = Call::new(
        a.dup(),
        a.dup(),
        a.dup(),
        Bytes32::zero(),
        Bytes32::zero(),
        a.dup(),
        Bytes::new(),
        Bytes32::zero(),
        false,
    );
    let mut ctx = ExecutionContext::new(call, Block::new(), st, Bytes::from_vec(code));
    let r = ctx.run(1_000_000);
    assert!(r.success);
    assert_eq!(r.stack.len(), 1);
    assert!(r.stack[0].eq_word(&w(1)));
    assert!(ctx.state.storage_load(&b, &w(1)).eq_word(&w(7)));
}

#[test]
fn failed_frame_discards_its_logs() {
    // Emit a log, then revert: the result carries no log records.
    let (r, _) = run_code(&[0x60, 0x00, 0x60, 0x00, 0xA0, 0x60, 0x00, 0x60, 0x00, 0xFD]);
    assert!(!r.success);
    assert_eq!(r.logs.len(), 0);
}

#[test]
fn create_installs_returned_code() {
    // Init code that returns one byte 0xFE as the new account's code:
    // PUSH1 0xFE; PUSH1 0; MSTORE8; PUSH1 1; PUSH1 0; RETURN.
    // The creator runs CREATE with that init code placed in memory.
    let a = addr(0xAA);
    let mut st = State::new();
    let mut creator = evm::AccountState::new(a.dup());
    creator.balance = w(50);
    st.insert(creator);
    let init: [u8; 10] = [0x60, 0xFE, 0x60, 0x00, 0x53, 0x60, 0x01, 0x60, 0x00, 0xF3];
    // Store the init code into memory with MSTORE at offset 0: build a
    // 32-byte word whose first ten bytes are the init code.
    let mut word = [0u8; 32];
    word[..10].copy_from_slice(&init);
    let mut code: Vec<u8> = vec![0x7F];
    code.extend_from_slice(&word);
    code.extend_from_slice(&[0x60, 0x00, 0x52]);
    // CREATE with value 3, offset 0, size 10: push size, offset, value.
    code.extend_from_slice(&[0x60, 0x0A, 0x60, 0x00, 0x60, 0x03, 0xF0]);
    let call = Call::new(
        a.dup(),
        a.dup(),
        a.dup(),
        Bytes32::zero(),
        Bytes32::zero(),
        a.dup(),
        Bytes::new(),
        Bytes32::zero(),
        false,
    );
    let mut ctx = ExecutionContext::new(call, Block::new(), st, Bytes::from_vec(code));
    let r = ctx.run(1_000_000);
    assert!(r.success);
    assert_eq!(r.stack.len(), 1);
    // The pushed word is the created address; the account there holds the
    // returned byte as code and the attached value as balance.
    let created = r.stack[0].to_address();
    assert_eq!(ctx.state.code(&created).as_slice(), &[0xFE]);
    assert!(ctx.state.balance(&created).eq_word(&w(3)));
    assert!(ctx.state.balance(&a).eq_word(&w(47)));
}

#[test]
fn jump_to_unrepresentable_destination_reverts() {
    // PUSH32 of all ones, then JUMP: the destination exceeds the machine
    // range and can never be a JUMPDEST.
    let mut code: Vec<u8> = vec![0x7F];
    code.extend_from_slice(&[0xFF; 32]);
    code.push(0x56);
    let (r, _) = run_code(&code);
    assert!(!r.success);
}
