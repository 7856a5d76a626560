//! A verified interpreter for the Ethereum Virtual Machine: a stack-based
//! bytecode machine over 256-bit big-endian words, with byte-addressable
//! memory, per-account storage, and nested sub-calls with revert semantics.
pub mod arith;
pub mod env;
pub mod errors;
pub mod interpreter;
pub mod keccak;
pub mod laws;
pub mod logs;
pub mod memory;
pub mod opcode;
pub mod stack;
pub mod state;
pub mod types;
pub mod utils;

pub use env::Block;
pub use env::Call;
pub use env::Env;
pub use errors::VmError;
pub use interpreter::CallResult;
pub use interpreter::ControlFlow;
pub use interpreter::EvmResult;
pub use interpreter::ExecutionContext;
pub use logs::Log;
pub use memory::Memory;
pub use opcode::Opcode;
pub use opcode::validate_jumpdest;
pub use stack::Stack;
pub use state::AccountState;
pub use state::State;
pub use state::Storage;
pub use types::Address;
pub use types::Bytes;
pub use types::Bytes32;
pub use utils::rlp_encode;
