//! Instructions: a target program, an ordered list of account references and
//! a payload of a discriminator followed by the arguments' layout.

use crate::address::Address;
use crate::codec::{encode_all, encode_args, fits_all, models, Value, ValueModel};
use crate::discriminator::{discriminator, discriminator_of, GLOBAL_NAMESPACE};
use vstd::prelude::*;

verus! {

/// A reference to an account that an instruction reads or writes.
#[derive(Clone, Copy, Debug)]
pub struct AccountMeta {
    pub pubkey: Address,
    /// The account must sign the transaction.
    pub is_signer: bool,
    /// The instruction may change the account.
    pub is_writable: bool,
}

impl AccountMeta {
    /// A writable account reference.
    pub fn new(pubkey: Address, is_signer: bool) -> (r: AccountMeta)
        ensures
            r == (AccountMeta { pubkey, is_signer, is_writable: true }),
    {
        AccountMeta { pubkey, is_signer, is_writable: true }
    }

    /// A read-only account reference.
    pub fn new_readonly(pubkey: Address, is_signer: bool) -> (r: AccountMeta)
        ensures
            r == (AccountMeta { pubkey, is_signer, is_writable: false }),
    {
        AccountMeta { pubkey, is_signer, is_writable: false }
    }
}

/// What is handed to the ledger: the program, its accounts in the order it
/// reads them, and the payload.
#[derive(Clone, Debug)]
pub struct Instruction {
    pub program_id: Address,
    pub accounts: Vec<AccountMeta>,
    pub data: Vec<u8>,
}

/// Why an instruction cannot be built.
#[derive(Clone, Copy, Debug, PartialEq, Eq, Structural)]
pub enum BuildError {
    /// No arguments were attached.
    MissingPayload,
}

/// The payload of `name` in `namespace` with the given arguments.
pub open spec fn payload(namespace: Seq<char>, name: Seq<char>, args: Seq<ValueModel>) -> Seq<u8> {
    discriminator_of(namespace, name) + encode_all(args)
}

/// The payload of `name` in `namespace` with the given arguments.
fn put_payload(namespace: &str, name: &str, args: &Vec<Value>) -> (r: Vec<u8>)
    requires
        fits_all(models(args@)),
    ensures
        r@ == payload(namespace@, name@, models(args@)),
        r@.take(8) == discriminator_of(namespace@, name@),
{
    let d = discriminator(namespace, name);
    let mut data: Vec<u8> = Vec::new();
    crate::codec::put_all(&mut data, d.as_slice());
    let encoded = encode_args(args);
    crate::codec::put_all(&mut data, encoded.as_slice());
    assert(data@ =~= payload(namespace@, name@, models(args@)));
    assert(data@.take(8) =~= d@);
    data
}

/// Builds the instruction `instruction_name` of the program `program_id`.
pub fn build_anchor_instruction(
    program_id: &Address,
    instruction_name: &str,
    accounts: Vec<AccountMeta>,
    args: &Vec<Value>,
) -> (r: Instruction)
    requires
        fits_all(models(args@)),
    ensures
        r.program_id == *program_id,
        r.accounts@ == accounts@,
        r.data@ == payload(GLOBAL_NAMESPACE@, instruction_name@, models(args@)),
        r.data@.take(8) == discriminator_of(GLOBAL_NAMESPACE@, instruction_name@),
{
    Instruction {
        program_id: *program_id,
        accounts,
        data: put_payload(GLOBAL_NAMESPACE, instruction_name, args),
    }
}

/// A handle on a program, from which its instructions are built.
#[derive(Clone, Copy, Debug)]
pub struct Program {
    program_id: Address,
}

impl Program {
    pub fn new(program_id: Address) -> (r: Program)
        ensures
            r.id_spec() == program_id,
    {
        Program { program_id }
    }

    pub closed spec fn id_spec(&self) -> Address {
        self.program_id
    }

    /// Starts an instruction with its account references, in order.
    pub fn accounts(self, accounts: Vec<AccountMeta>) -> (r: InstructionBuilder)
        ensures
            r.program_id == self.id_spec(),
            r.accounts@ == accounts@,
            r.data@.len() == 0,
    {
        InstructionBuilder { program_id: self.program_id, accounts, data: Vec::new() }
    }

    /// The program's address.
    pub fn id(&self) -> (r: Address)
        ensures
            r == self.id_spec(),
    {
        self.program_id
    }
}

/// An instruction under construction.
pub struct InstructionBuilder {
    pub program_id: Address,
    pub accounts: Vec<AccountMeta>,
    pub data: Vec<u8>,
}

impl InstructionBuilder {
    /// Sets the payload: the discriminator of `name` in `namespace`, then the
    /// arguments' layout.
    pub fn args(self, namespace: &str, name: &str, args: &Vec<Value>) -> (r: InstructionBuilder)
        requires
            fits_all(models(args@)),
        ensures
            r.program_id == self.program_id,
            r.accounts@ == self.accounts@,
            r.data@ == payload(namespace@, name@, models(args@)),
            r.data@.take(8) == discriminator_of(namespace@, name@),
    {
        InstructionBuilder {
            program_id: self.program_id,
            accounts: self.accounts,
            data: put_payload(namespace, name, args),
        }
    }

    /// The instruction, once arguments have been attached.
    pub fn instruction(self) -> (r: Result<Instruction, BuildError>)
        ensures
            self.data@.len() == 0 ==> r == Err::<Instruction, BuildError>(BuildError::MissingPayload),
            self.data@.len() > 0 ==> (r matches Ok(ix) && ix.program_id == self.program_id
                && ix.accounts@ == self.accounts@ && ix.data@ == self.data@),
    {
        if self.data.len() == 0 {
            return Err(BuildError::MissingPayload);
        }
        Ok(Instruction { program_id: self.program_id, accounts: self.accounts, data: self.data })
    }
}

} // verus!
