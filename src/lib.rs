//! Protocol core of a test harness for on-chain programs run on a simulated
//! ledger: program-derived addresses, instruction discriminators, the binary
//! argument layout of instruction payloads, and the classification of
//! execution outcomes.

pub mod address;
pub mod codec;
pub mod discriminator;
pub mod instruction;
pub mod text;
pub mod transaction;

pub use address::{derive_pda, get_pda, get_pda_with_bump, Address, DeriveError};
pub use codec::{decode_args, encode_args, Shape, Value};
pub use discriminator::{calculate_anchor_discriminator, discriminator};
pub use instruction::{
    build_anchor_instruction, AccountMeta, BuildError, Instruction, InstructionBuilder, Program,
};
pub use transaction::{
    classify_error, require_signers, ErrorKind, ExecutionMeta, TransactionError, TransactionResult,
};
