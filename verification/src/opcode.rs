//! The instruction set: the opcode enum, the byte decoder, the fixed gas
//! table, and the validation of jump destinations.
use vstd::prelude::*;
use crate::types::Bytes;

verus! {

/// One EVM instruction.
#[derive(Clone, Copy, PartialEq, Eq, Structural, Debug)]
pub enum Opcode {
    STOP,
    ADD,
    MUL,
    SUB,
    DIV,
    SDIV,
    MOD,
    SMOD,
    ADDMOD,
    MULMOD,
    EXP,
    SIGNEXTEND,
    LT,
    GT,
    SLT,
    SGT,
    EQ,
    ISZERO,
    AND,
    OR,
    XOR,
    NOT,
    BYTE,
    SHL,
    SHR,
    SAR,
    SHA3,
    ADDRESS,
    BALANCE,
    ORIGIN,
    CALLER,
    CALLVALUE,
    CALLDATALOAD,
    CALLDATASIZE,
    CALLDATACOPY,
    CODESIZE,
    CODECOPY,
    GASPRICE,
    EXTCODESIZE,
    EXTCODECOPY,
    RETURNDATASIZE,
    RETURNDATACOPY,
    EXTCODEHASH,
    BLOCKHASH,
    COINBASE,
    TIMESTAMP,
    NUMBER,
    PREVRANDAO,
    GASLIMIT,
    CHAINID,
    SELFBALANCE,
    BASEFEE,
    POP,
    MLOAD,
    MSTORE,
    MSTORE8,
    SLOAD,
    SSTORE,
    JUMP,
    JUMPI,
    PC,
    MSIZE,
    GAS,
    JUMPDEST,
    PUSH1,
    PUSH2,
    PUSH3,
    PUSH4,
    PUSH5,
    PUSH6,
    PUSH7,
    PUSH8,
    PUSH9,
    PUSH10,
    PUSH11,
    PUSH12,
    PUSH13,
    PUSH14,
    PUSH15,
    PUSH16,
    PUSH17,
    PUSH18,
    PUSH19,
    PUSH20,
    PUSH21,
    PUSH22,
    PUSH23,
    PUSH24,
    PUSH25,
    PUSH26,
    PUSH27,
    PUSH28,
    PUSH29,
    PUSH30,
    PUSH31,
    PUSH32,
    DUP1,
    DUP2,
    DUP3,
    DUP4,
    DUP5,
    DUP6,
    DUP7,
    DUP8,
    DUP9,
    DUP10,
    DUP11,
    DUP12,
    DUP13,
    DUP14,
    DUP15,
    DUP16,
    SWAP1,
    SWAP2,
    SWAP3,
    SWAP4,
    SWAP5,
    SWAP6,
    SWAP7,
    SWAP8,
    SWAP9,
    SWAP10,
    SWAP11,
    SWAP12,
    SWAP13,
    SWAP14,
    SWAP15,
    SWAP16,
    LOG0,
    LOG1,
    LOG2,
    LOG3,
    LOG4,
    CREATE,
    CALL,
    CALLCODE,
    RETURN,
    DELEGATECALL,
    CREATE2,
    STATICCALL,
    REVERT,
    INVALID,
    SELFDESTRUCT,
}

/// The instruction a byte decodes to, if any.
pub open spec fn spec_decode(value: u8) -> Option<Opcode> {
    match value {
        0x00 => Some(Opcode::STOP),
        0x01 => Some(Opcode::ADD),
        0x02 => Some(Opcode::MUL),
        0x03 => Some(Opcode::SUB),
        0x04 => Some(Opcode::DIV),
        0x05 => Some(Opcode::SDIV),
        0x06 => Some(Opcode::MOD),
        0x07 => Some(Opcode::SMOD),
        0x08 => Some(Opcode::ADDMOD),
        0x09 => Some(Opcode::MULMOD),
        0x0A => Some(Opcode::EXP),
        0x0B => Some(Opcode::SIGNEXTEND),
        0x10 => Some(Opcode::LT),
        0x11 => Some(Opcode::GT),
        0x12 => Some(Opcode::SLT),
        0x13 => Some(Opcode::SGT),
        0x14 => Some(Opcode::EQ),
        0x15 => Some(Opcode::ISZERO),
        0x16 => Some(Opcode::AND),
        0x17 => Some(Opcode::OR),
        0x18 => Some(Opcode::XOR),
        0x19 => Some(Opcode::NOT),
        0x1A => Some(Opcode::BYTE),
        0x1B => Some(Opcode::SHL),
        0x1C => Some(Opcode::SHR),
        0x1D => Some(Opcode::SAR),
        0x20 => Some(Opcode::SHA3),
        0x30 => Some(Opcode::ADDRESS),
        0x31 => Some(Opcode::BALANCE),
        0x32 => Some(Opcode::ORIGIN),
        0x33 => Some(Opcode::CALLER),
        0x34 => Some(Opcode::CALLVALUE),
        0x35 => Some(Opcode::CALLDATALOAD),
        0x36 => Some(Opcode::CALLDATASIZE),
        0x37 => Some(Opcode::CALLDATACOPY),
        0x38 => Some(Opcode::CODESIZE),
        0x39 => Some(Opcode::CODECOPY),
        0x3A => Some(Opcode::GASPRICE),
        0x3B => Some(Opcode::EXTCODESIZE),
        0x3C => Some(Opcode::EXTCODECOPY),
        0x3D => Some(Opcode::RETURNDATASIZE),
        0x3E => Some(Opcode::RETURNDATACOPY),
        0x3F => Some(Opcode::EXTCODEHASH),
        0x40 => Some(Opcode::BLOCKHASH),
        0x41 => Some(Opcode::COINBASE),
        0x42 => Some(Opcode::TIMESTAMP),
        0x43 => Some(Opcode::NUMBER),
        0x44 => Some(Opcode::PREVRANDAO),
        0x45 => Some(Opcode::GASLIMIT),
        0x46 => Some(Opcode::CHAINID),
        0x47 => Some(Opcode::SELFBALANCE),
        0x48 => Some(Opcode::BASEFEE),
        0x50 => Some(Opcode::POP),
        0x51 => Some(Opcode::MLOAD),
        0x52 => Some(Opcode::MSTORE),
        0x53 => Some(Opcode::MSTORE8),
        0x54 => Some(Opcode::SLOAD),
        0x55 => Some(Opcode::SSTORE),
        0x56 => Some(Opcode::JUMP),
        0x57 => Some(Opcode::JUMPI),
        0x58 => Some(Opcode::PC),
        0x59 => Some(Opcode::MSIZE),
        0x5A => Some(Opcode::GAS),
        0x5B => Some(Opcode::JUMPDEST),
        0x60 => Some(Opcode::PUSH1),
        0x61 => Some(Opcode::PUSH2),
        0x62 => Some(Opcode::PUSH3),
        0x63 => Some(Opcode::PUSH4),
        0x64 => Some(Opcode::PUSH5),
        0x65 => Some(Opcode::PUSH6),
        0x66 => Some(Opcode::PUSH7),
        0x67 => Some(Opcode::PUSH8),
        0x68 => Some(Opcode::PUSH9),
        0x69 => Some(Opcode::PUSH10),
        0x6A => Some(Opcode::PUSH11),
        0x6B => Some(Opcode::PUSH12),
        0x6C => Some(Opcode::PUSH13),
        0x6D => Some(Opcode::PUSH14),
        0x6E => Some(Opcode::PUSH15),
        0x6F => Some(Opcode::PUSH16),
        0x70 => Some(Opcode::PUSH17),
        0x71 => Some(Opcode::PUSH18),
        0x72 => Some(Opcode::PUSH19),
        0x73 => Some(Opcode::PUSH20),
        0x74 => Some(Opcode::PUSH21),
        0x75 => Some(Opcode::PUSH22),
        0x76 => Some(Opcode::PUSH23),
        0x77 => Some(Opcode::PUSH24),
        0x78 => Some(Opcode::PUSH25),
        0x79 => Some(Opcode::PUSH26),
        0x7A => Some(Opcode::PUSH27),
        0x7B => Some(Opcode::PUSH28),
        0x7C => Some(Opcode::PUSH29),
        0x7D => Some(Opcode::PUSH30),
        0x7E => Some(Opcode::PUSH31),
        0x7F => Some(Opcode::PUSH32),
        0x80 => Some(Opcode::DUP1),
        0x81 => Some(Opcode::DUP2),
        0x82 => Some(Opcode::DUP3),
        0x83 => Some(Opcode::DUP4),
        0x84 => Some(Opcode::DUP5),
        0x85 => Some(Opcode::DUP6),
        0x86 => Some(Opcode::DUP7),
        0x87 => Some(Opcode::DUP8),
        0x88 => Some(Opcode::DUP9),
        0x89 => Some(Opcode::DUP10),
        0x8A => Some(Opcode::DUP11),
        0x8B => Some(Opcode::DUP12),
        0x8C => Some(Opcode::DUP13),
        0x8D => Some(Opcode::DUP14),
        0x8E => Some(Opcode::DUP15),
        0x8F => Some(Opcode::DUP16),
        0x90 => Some(Opcode::SWAP1),
        0x91 => Some(Opcode::SWAP2),
        0x92 => Some(Opcode::SWAP3),
        0x93 => Some(Opcode::SWAP4),
        0x94 => Some(Opcode::SWAP5),
        0x95 => Some(Opcode::SWAP6),
        0x96 => Some(Opcode::SWAP7),
        0x97 => Some(Opcode::SWAP8),
        0x98 => Some(Opcode::SWAP9),
        0x99 => Some(Opcode::SWAP10),
        0x9A => Some(Opcode::SWAP11),
        0x9B => Some(Opcode::SWAP12),
        0x9C => Some(Opcode::SWAP13),
        0x9D => Some(Opcode::SWAP14),
        0x9E => Some(Opcode::SWAP15),
        0x9F => Some(Opcode::SWAP16),
        0xA0 => Some(Opcode::LOG0),
        0xA1 => Some(Opcode::LOG1),
        0xA2 => Some(Opcode::LOG2),
        0xA3 => Some(Opcode::LOG3),
        0xA4 => Some(Opcode::LOG4),
        0xF0 => Some(Opcode::CREATE),
        0xF1 => Some(Opcode::CALL),
        0xF2 => Some(Opcode::CALLCODE),
        0xF3 => Some(Opcode::RETURN),
        0xF4 => Some(Opcode::DELEGATECALL),
        0xF5 => Some(Opcode::CREATE2),
        0xFA => Some(Opcode::STATICCALL),
        0xFD => Some(Opcode::REVERT),
        0xFE => Some(Opcode::INVALID),
        0xFF => Some(Opcode::SELFDESTRUCT),
        _ => None,
    }
}

impl Opcode {
    /// Decodes one byte; an unassigned byte decodes to nothing.
    pub fn try_from(value: u8) -> (r: Option<Opcode>)
        ensures
            r == spec_decode(value),
    {
        match value {
            0x00 => Some(Opcode::STOP),
            0x01 => Some(Opcode::ADD),
            0x02 => Some(Opcode::MUL),
            0x03 => Some(Opcode::SUB),
            0x04 => Some(Opcode::DIV),
            0x05 => Some(Opcode::SDIV),
            0x06 => Some(Opcode::MOD),
            0x07 => Some(Opcode::SMOD),
            0x08 => Some(Opcode::ADDMOD),
            0x09 => Some(Opcode::MULMOD),
            0x0A => Some(Opcode::EXP),
            0x0B => Some(Opcode::SIGNEXTEND),
            0x10 => Some(Opcode::LT),
            0x11 => Some(Opcode::GT),
            0x12 => Some(Opcode::SLT),
            0x13 => Some(Opcode::SGT),
            0x14 => Some(Opcode::EQ),
            0x15 => Some(Opcode::ISZERO),
            0x16 => Some(Opcode::AND),
            0x17 => Some(Opcode::OR),
            0x18 => Some(Opcode::XOR),
            0x19 => Some(Opcode::NOT),
            0x1A => Some(Opcode::BYTE),
            0x1B => Some(Opcode::SHL),
            0x1C => Some(Opcode::SHR),
            0x1D => Some(Opcode::SAR),
            0x20 => Some(Opcode::SHA3),
            0x30 => Some(Opcode::ADDRESS),
            0x31 => Some(Opcode::BALANCE),
            0x32 => Some(Opcode::ORIGIN),
            0x33 => Some(Opcode::CALLER),
            0x34 => Some(Opcode::CALLVALUE),
            0x35 => Some(Opcode::CALLDATALOAD),
            0x36 => Some(Opcode::CALLDATASIZE),
            0x37 => Some(Opcode::CALLDATACOPY),
            0x38 => Some(Opcode::CODESIZE),
            0x39 => Some(Opcode::CODECOPY),
            0x3A => Some(Opcode::GASPRICE),
            0x3B => Some(Opcode::EXTCODESIZE),
            0x3C => Some(Opcode::EXTCODECOPY),
            0x3D => Some(Opcode::RETURNDATASIZE),
            0x3E => Some(Opcode::RETURNDATACOPY),
            0x3F => Some(Opcode::EXTCODEHASH),
            0x40 => Some(Opcode::BLOCKHASH),
            0x41 => Some(Opcode::COINBASE),
            0x42 => Some(Opcode::TIMESTAMP),
            0x43 => Some(Opcode::NUMBER),
            0x44 => Some(Opcode::PREVRANDAO),
            0x45 => Some(Opcode::GASLIMIT),
            0x46 => Some(Opcode::CHAINID),
            0x47 => Some(Opcode::SELFBALANCE),
            0x48 => Some(Opcode::BASEFEE),
            0x50 => Some(Opcode::POP),
            0x51 => Some(Opcode::MLOAD),
            0x52 => Some(Opcode::MSTORE),
            0x53 => Some(Opcode::MSTORE8),
            0x54 => Some(Opcode::SLOAD),
            0x55 => Some(Opcode::SSTORE),
            0x56 => Some(Opcode::JUMP),
            0x57 => Some(Opcode::JUMPI),
            0x58 => Some(Opcode::PC),
            0x59 => Some(Opcode::MSIZE),
            0x5A => Some(Opcode::GAS),
            0x5B => Some(Opcode::JUMPDEST),
            0x60 => Some(Opcode::PUSH1),
            0x61 => Some(Opcode::PUSH2),
            0x62 => Some(Opcode::PUSH3),
            0x63 => Some(Opcode::PUSH4),
            0x64 => Some(Opcode::PUSH5),
            0x65 => Some(Opcode::PUSH6),
            0x66 => Some(Opcode::PUSH7),
            0x67 => Some(Opcode::PUSH8),
            0x68 => Some(Opcode::PUSH9),
            0x69 => Some(Opcode::PUSH10),
            0x6A => Some(Opcode::PUSH11),
            0x6B => Some(Opcode::PUSH12),
            0x6C => Some(Opcode::PUSH13),
            0x6D => Some(Opcode::PUSH14),
            0x6E => Some(Opcode::PUSH15),
            0x6F => Some(Opcode::PUSH16),
            0x70 => Some(Opcode::PUSH17),
            0x71 => Some(Opcode::PUSH18),
            0x72 => Some(Opcode::PUSH19),
            0x73 => Some(Opcode::PUSH20),
            0x74 => Some(Opcode::PUSH21),
            0x75 => Some(Opcode::PUSH22),
            0x76 => Some(Opcode::PUSH23),
            0x77 => Some(Opcode::PUSH24),
            0x78 => Some(Opcode::PUSH25),
            0x79 => Some(Opcode::PUSH26),
            0x7A => Some(Opcode::PUSH27),
            0x7B => Some(Opcode::PUSH28),
            0x7C => Some(Opcode::PUSH29),
            0x7D => Some(Opcode::PUSH30),
            0x7E => Some(Opcode::PUSH31),
            0x7F => Some(Opcode::PUSH32),
            0x80 => Some(Opcode::DUP1),
            0x81 => Some(Opcode::DUP2),
            0x82 => Some(Opcode::DUP3),
            0x83 => Some(Opcode::DUP4),
            0x84 => Some(Opcode::DUP5),
            0x85 => Some(Opcode::DUP6),
            0x86 => Some(Opcode::DUP7),
            0x87 => Some(Opcode::DUP8),
            0x88 => Some(Opcode::DUP9),
            0x89 => Some(Opcode::DUP10),
            0x8A => Some(Opcode::DUP11),
            0x8B => Some(Opcode::DUP12),
            0x8C => Some(Opcode::DUP13),
            0x8D => Some(Opcode::DUP14),
            0x8E => Some(Opcode::DUP15),
            0x8F => Some(Opcode::DUP16),
            0x90 => Some(Opcode::SWAP1),
            0x91 => Some(Opcode::SWAP2),
            0x92 => Some(Opcode::SWAP3),
            0x93 => Some(Opcode::SWAP4),
            0x94 => Some(Opcode::SWAP5),
            0x95 => Some(Opcode::SWAP6),
            0x96 => Some(Opcode::SWAP7),
            0x97 => Some(Opcode::SWAP8),
            0x98 => Some(Opcode::SWAP9),
            0x99 => Some(Opcode::SWAP10),
            0x9A => Some(Opcode::SWAP11),
            0x9B => Some(Opcode::SWAP12),
            0x9C => Some(Opcode::SWAP13),
            0x9D => Some(Opcode::SWAP14),
            0x9E => Some(Opcode::SWAP15),
            0x9F => Some(Opcode::SWAP16),
            0xA0 => Some(Opcode::LOG0),
            0xA1 => Some(Opcode::LOG1),
            0xA2 => Some(Opcode::LOG2),
            0xA3 => Some(Opcode::LOG3),
            0xA4 => Some(Opcode::LOG4),
            0xF0 => Some(Opcode::CREATE),
            0xF1 => Some(Opcode::CALL),
            0xF2 => Some(Opcode::CALLCODE),
            0xF3 => Some(Opcode::RETURN),
            0xF4 => Some(Opcode::DELEGATECALL),
            0xF5 => Some(Opcode::CREATE2),
            0xFA => Some(Opcode::STATICCALL),
            0xFD => Some(Opcode::REVERT),
            0xFE => Some(Opcode::INVALID),
            0xFF => Some(Opcode::SELFDESTRUCT),
            _ => None,
        }
    }

    /// The fixed base gas of the instruction, by the canonical tiers.
    pub fn fix_gas(&self) -> (r: u64)
        ensures
            r == spec_fix_gas(*self),
    {
        match self {
            Opcode::STOP => 0,
            Opcode::ADD => 3,
            Opcode::MUL => 5,
            Opcode::SUB => 3,
            Opcode::DIV => 5,
            Opcode::SDIV => 5,
            Opcode::MOD => 5,
            Opcode::SMOD => 5,
            Opcode::ADDMOD => 8,
            Opcode::MULMOD => 8,
            Opcode::EXP => 10,
            Opcode::SIGNEXTEND => 5,
            Opcode::LT => 3,
            Opcode::GT => 3,
            Opcode::SLT => 3,
            Opcode::SGT => 3,
            Opcode::EQ => 3,
            Opcode::ISZERO => 3,
            Opcode::AND => 3,
            Opcode::OR => 3,
            Opcode::XOR => 3,
            Opcode::NOT => 3,
            Opcode::BYTE => 3,
            Opcode::SHL => 3,
            Opcode::SHR => 3,
            Opcode::SAR => 3,
            Opcode::SHA3 => 30,
            Opcode::ADDRESS => 2,
            Opcode::BALANCE => 0,
            Opcode::ORIGIN => 0,
            Opcode::CALLER => 0,
            Opcode::CALLVALUE => 0,
            Opcode::CALLDATALOAD => 0,
            Opcode::CALLDATASIZE => 0,
            Opcode::CALLDATACOPY => 0,
            Opcode::CODESIZE => 0,
            Opcode::CODECOPY => 0,
            Opcode::GASPRICE => 0,
            Opcode::EXTCODESIZE => 0,
            Opcode::EXTCODECOPY => 0,
            Opcode::RETURNDATASIZE => 0,
            Opcode::RETURNDATACOPY => 0,
            Opcode::EXTCODEHASH => 0,
            Opcode::BLOCKHASH => 0,
            Opcode::COINBASE => 0,
            Opcode::TIMESTAMP => 0,
            Opcode::NUMBER => 0,
            Opcode::PREVRANDAO => 0,
            Opcode::GASLIMIT => 0,
            Opcode::CHAINID => 0,
            Opcode::SELFBALANCE => 0,
            Opcode::BASEFEE => 0,
            Opcode::POP => 2,
            Opcode::MLOAD => 3,
            Opcode::MSTORE => 3,
            Opcode::MSTORE8 => 3,
            Opcode::SLOAD => 0,
            Opcode::SSTORE => 0,
            Opcode::JUMP => 8,
            Opcode::JUMPI => 10,
            Opcode::PC => 2,
            Opcode::MSIZE => 2,
            Opcode::GAS => 2,
            Opcode::JUMPDEST => 1,
            Opcode::PUSH1 => 3,
            Opcode::PUSH2 => 3,
            Opcode::PUSH3 => 3,
            Opcode::PUSH4 => 3,
            Opcode::PUSH5 => 3,
            Opcode::PUSH6 => 3,
            Opcode::PUSH7 => 3,
            Opcode::PUSH8 => 3,
            Opcode::PUSH9 => 3,
            Opcode::PUSH10 => 3,
            Opcode::PUSH11 => 3,
            Opcode::PUSH12 => 3,
            Opcode::PUSH13 => 3,
            Opcode::PUSH14 => 3,
            Opcode::PUSH15 => 3,
            Opcode::PUSH16 => 3,
            Opcode::PUSH17 => 3,
            Opcode::PUSH18 => 3,
            Opcode::PUSH19 => 3,
            Opcode::PUSH20 => 3,
            Opcode::PUSH21 => 3,
            Opcode::PUSH22 => 3,
            Opcode::PUSH23 => 3,
            Opcode::PUSH24 => 3,
            Opcode::PUSH25 => 3,
            Opcode::PUSH26 => 3,
            Opcode::PUSH27 => 3,
            Opcode::PUSH28 => 3,
            Opcode::PUSH29 => 3,
            Opcode::PUSH30 => 3,
            Opcode::PUSH31 => 3,
            Opcode::PUSH32 => 3,
            Opcode::DUP1 => 3,
            Opcode::DUP2 => 3,
            Opcode::DUP3 => 3,
            Opcode::DUP4 => 3,
            Opcode::DUP5 => 3,
            Opcode::DUP6 => 3,
            Opcode::DUP7 => 3,
            Opcode::DUP8 => 3,
            Opcode::DUP9 => 3,
            Opcode::DUP10 => 3,
            Opcode::DUP11 => 3,
            Opcode::DUP12 => 3,
            Opcode::DUP13 => 3,
            Opcode::DUP14 => 3,
            Opcode::DUP15 => 3,
            Opcode::DUP16 => 3,
            Opcode::SWAP1 => 3,
            Opcode::SWAP2 => 3,
            Opcode::SWAP3 => 3,
            Opcode::SWAP4 => 3,
            Opcode::SWAP5 => 3,
            Opcode::SWAP6 => 3,
            Opcode::SWAP7 => 3,
            Opcode::SWAP8 => 3,
            Opcode::SWAP9 => 3,
            Opcode::SWAP10 => 3,
            Opcode::SWAP11 => 3,
            Opcode::SWAP12 => 3,
            Opcode::SWAP13 => 3,
            Opcode::SWAP14 => 3,
            Opcode::SWAP15 => 3,
            Opcode::SWAP16 => 3,
            Opcode::LOG0 => 0,
            Opcode::LOG1 => 0,
            Opcode::LOG2 => 0,
            Opcode::LOG3 => 0,
            Opcode::LOG4 => 0,
            Opcode::CREATE => 0,
            Opcode::CALL => 0,
            Opcode::CALLCODE => 0,
            Opcode::RETURN => 0,
            Opcode::DELEGATECALL => 0,
            Opcode::CREATE2 => 0,
            Opcode::STATICCALL => 0,
            Opcode::REVERT => 0,
            Opcode::INVALID => 0,
            Opcode::SELFDESTRUCT => 0,
        }
    }
}

/// The fixed base gas of each instruction.
pub open spec fn spec_fix_gas(op: Opcode) -> u64 {
    match op {
        Opcode::STOP => 0,
        Opcode::ADD => 3,
        Opcode::MUL => 5,
        Opcode::SUB => 3,
        Opcode::DIV => 5,
        Opcode::SDIV => 5,
        Opcode::MOD => 5,
        Opcode::SMOD => 5,
        Opcode::ADDMOD => 8,
        Opcode::MULMOD => 8,
        Opcode::EXP => 10,
        Opcode::SIGNEXTEND => 5,
        Opcode::LT => 3,
        Opcode::GT => 3,
        Opcode::SLT => 3,
        Opcode::SGT => 3,
        Opcode::EQ => 3,
        Opcode::ISZERO => 3,
        Opcode::AND => 3,
        Opcode::OR => 3,
        Opcode::XOR => 3,
        Opcode::NOT => 3,
        Opcode::BYTE => 3,
        Opcode::SHL => 3,
        Opcode::SHR => 3,
        Opcode::SAR => 3,
        Opcode::SHA3 => 30,
        Opcode::ADDRESS => 2,
        Opcode::BALANCE => 0,
        Opcode::ORIGIN => 0,
        Opcode::CALLER => 0,
        Opcode::CALLVALUE => 0,
        Opcode::CALLDATALOAD => 0,
        Opcode::CALLDATASIZE => 0,
        Opcode::CALLDATACOPY => 0,
        Opcode::CODESIZE => 0,
        Opcode::CODECOPY => 0,
        Opcode::GASPRICE => 0,
        Opcode::EXTCODESIZE => 0,
        Opcode::EXTCODECOPY => 0,
        Opcode::RETURNDATASIZE => 0,
        Opcode::RETURNDATACOPY => 0,
        Opcode::EXTCODEHASH => 0,
        Opcode::BLOCKHASH => 0,
        Opcode::COINBASE => 0,
        Opcode::TIMESTAMP => 0,
        Opcode::NUMBER => 0,
        Opcode::PREVRANDAO => 0,
        Opcode::GASLIMIT => 0,
        Opcode::CHAINID => 0,
        Opcode::SELFBALANCE => 0,
        Opcode::BASEFEE => 0,
        Opcode::POP => 2,
        Opcode::MLOAD => 3,
        Opcode::MSTORE => 3,
        Opcode::MSTORE8 => 3,
        Opcode::SLOAD => 0,
        Opcode::SSTORE => 0,
        Opcode::JUMP => 8,
        Opcode::JUMPI => 10,
        Opcode::PC => 2,
        Opcode::MSIZE => 2,
        Opcode::GAS => 2,
        Opcode::JUMPDEST => 1,
        Opcode::PUSH1 => 3,
        Opcode::PUSH2 => 3,
        Opcode::PUSH3 => 3,
        Opcode::PUSH4 => 3,
        Opcode::PUSH5 => 3,
        Opcode::PUSH6 => 3,
        Opcode::PUSH7 => 3,
        Opcode::PUSH8 => 3,
        Opcode::PUSH9 => 3,
        Opcode::PUSH10 => 3,
        Opcode::PUSH11 => 3,
        Opcode::PUSH12 => 3,
        Opcode::PUSH13 => 3,
        Opcode::PUSH14 => 3,
        Opcode::PUSH15 => 3,
        Opcode::PUSH16 => 3,
        Opcode::PUSH17 => 3,
        Opcode::PUSH18 => 3,
        Opcode::PUSH19 => 3,
        Opcode::PUSH20 => 3,
        Opcode::PUSH21 => 3,
        Opcode::PUSH22 => 3,
        Opcode::PUSH23 => 3,
        Opcode::PUSH24 => 3,
        Opcode::PUSH25 => 3,
        Opcode::PUSH26 => 3,
        Opcode::PUSH27 => 3,
        Opcode::PUSH28 => 3,
        Opcode::PUSH29 => 3,
        Opcode::PUSH30 => 3,
        Opcode::PUSH31 => 3,
        Opcode::PUSH32 => 3,
        Opcode::DUP1 => 3,
        Opcode::DUP2 => 3,
        Opcode::DUP3 => 3,
        Opcode::DUP4 => 3,
        Opcode::DUP5 => 3,
        Opcode::DUP6 => 3,
        Opcode::DUP7 => 3,
        Opcode::DUP8 => 3,
        Opcode::DUP9 => 3,
        Opcode::DUP10 => 3,
        Opcode::DUP11 => 3,
        Opcode::DUP12 => 3,
        Opcode::DUP13 => 3,
        Opcode::DUP14 => 3,
        Opcode::DUP15 => 3,
        Opcode::DUP16 => 3,
        Opcode::SWAP1 => 3,
        Opcode::SWAP2 => 3,
        Opcode::SWAP3 => 3,
        Opcode::SWAP4 => 3,
        Opcode::SWAP5 => 3,
        Opcode::SWAP6 => 3,
        Opcode::SWAP7 => 3,
        Opcode::SWAP8 => 3,
        Opcode::SWAP9 => 3,
        Opcode::SWAP10 => 3,
        Opcode::SWAP11 => 3,
        Opcode::SWAP12 => 3,
        Opcode::SWAP13 => 3,
        Opcode::SWAP14 => 3,
        Opcode::SWAP15 => 3,
        Opcode::SWAP16 => 3,
        Opcode::LOG0 => 0,
        Opcode::LOG1 => 0,
        Opcode::LOG2 => 0,
        Opcode::LOG3 => 0,
        Opcode::LOG4 => 0,
        Opcode::CREATE => 0,
        Opcode::CALL => 0,
        Opcode::CALLCODE => 0,
        Opcode::RETURN => 0,
        Opcode::DELEGATECALL => 0,
        Opcode::CREATE2 => 0,
        Opcode::STATICCALL => 0,
        Opcode::REVERT => 0,
        Opcode::INVALID => 0,
        Opcode::SELFDESTRUCT => 0,
    }
}

/// How many immediate bytes follow the opcode byte: n for PUSHn, else zero.
pub open spec fn push_len(b: u8) -> nat {
    if 0x60 <= b < 0x80 {
        (b - 0x5f) as nat
    } else {
        0
    }
}

/// The set of legal jump targets of `code` from scan position `pc`: each
/// JUMPDEST byte that is reached by walking the code from `pc` while
/// skipping over PUSH immediates.
pub open spec fn valid_dests(code: Seq<u8>, pc: int) -> Set<int>
    decreases (if pc <= code.len() { code.len() - pc } else { 0int }),
{
    if pc < 0 || pc >= code.len() {
        Set::empty()
    } else if code[pc] == 0x5b {
        valid_dests(code, pc + 1).insert(pc)
    } else {
        valid_dests(code, pc + 1 + push_len(code[pc]))
    }
}

/// Every legal destination lies at or after the scan position.
proof fn lemma_valid_dests_lower(code: Seq<u8>, pc: int, d: int)
    requires
        valid_dests(code, pc).contains(d),
    ensures
        pc <= d < code.len(),
    decreases (if pc <= code.len() { code.len() - pc } else { 0int }),
{
    if 0 <= pc < code.len() {
        if code[pc] == 0x5b {
            if d != pc {
                lemma_valid_dests_lower(code, pc + 1, d);
            }
        } else {
            lemma_valid_dests_lower(code, pc + 1 + push_len(code[pc]), d);
        }
    }
}

/// Whether `dest` is a legal jump target: the byte there is JUMPDEST and
/// it is not hidden inside a PUSH immediate. The code is scanned from the
/// start, stepping over each instruction's immediates.
pub fn validate_jumpdest(code: &Bytes, dest: usize) -> (r: bool)
    requires
        code@.len() + 34 <= usize::MAX,
    ensures
        r == valid_dests(code@, 0).contains(dest as int),
{
    let n = code.len();
    let mut pc: usize = 0;
    while pc < n
        invariant
            n == code@.len(),
            n + 34 <= usize::MAX,
            valid_dests(code@, 0).contains(dest as int) == valid_dests(code@, pc as int).contains(
                dest as int,
            ),
            dest >= pc || !valid_dests(code@, pc as int).contains(dest as int),
        decreases (if pc <= n { n - pc } else { 0int }),
    {
        let b = code.read_byte(pc);
        if pc == dest {
            if b == 0x5b {
                return true;
            }
            proof {
                if valid_dests(code@, pc as int).contains(dest as int) {
                    lemma_valid_dests_lower(code@, pc + 1 + push_len(b), dest as int);
                }
            }
            return false;
        }
        let step: usize = if 0x60 <= b && b < 0x80 {
            1 + (b - 0x5f) as usize
        } else {
            1
        };
        proof {
            if valid_dests(code@, pc as int).contains(dest as int) && dest < pc + step {
                if code@[pc as int] == 0x5b {
                    lemma_valid_dests_lower(code@, pc + 1, dest as int);
                } else {
                    lemma_valid_dests_lower(code@, pc + 1 + push_len(code@[pc as int]), dest as int);
                }
            }
        }
        if dest < pc + step {
            return false;
        }
        pc = pc + step;
    }
    proof {
        if valid_dests(code@, pc as int).contains(dest as int) {
            lemma_valid_dests_lower(code@, pc as int, dest as int);
        }
    }
    false
}

} // verus!
