//! Addresses and program-derived addresses.
//!
//! A program-derived address is found by a descending search over one "bump"
//! byte appended to the seeds: the first candidate, from 255 down, that is not
//! a point of the ed25519 curve is the canonical one.

use crate::discriminator::sha256_of;
use solana_program::pubkey::Pubkey;
use vstd::prelude::*;
use vstd::slice::slice_to_vec;

verus! {

/// The most seeds, the bump included, that a derivation takes.
pub const MAX_SEEDS: usize = 16;

/// The longest seed, in bytes.
pub const MAX_SEED_LEN: usize = 32;

/// A 32-byte account address.
#[derive(Clone, Copy, Debug, Eq)]
pub struct Address {
    pub bytes: [u8; 32],
}

impl View for Address {
    type V = Seq<u8>;

    open spec fn view(&self) -> Seq<u8> {
        self.bytes@
    }
}

impl PartialEq for Address {
    fn eq(&self, other: &Address) -> (r: bool) {
        let mut i: usize = 0;
        while i < 32
            invariant
                i <= 32,
                forall|j: int| 0 <= j < i ==> self.bytes@[j] == other.bytes@[j],
            decreases 32 - i,
        {
            if self.bytes[i] != other.bytes[i] {
                return false;
            }
            i = i + 1;
        }
        assert(self.bytes@ =~= other.bytes@);
        true
    }
}

impl vstd::std_specs::cmp::PartialEqSpecImpl for Address {
    open spec fn obeys_eq_spec() -> bool {
        true
    }

    open spec fn eq_spec(&self, other: &Address) -> bool {
        self.bytes@ == other.bytes@
    }
}

impl Address {
    pub fn new_from_array(bytes: [u8; 32]) -> (r: Address)
        ensures
            r.bytes == bytes,
    {
        Address { bytes }
    }

    pub fn to_bytes(&self) -> (r: [u8; 32])
        ensures
            r == self.bytes,
    {
        self.bytes
    }
}

/// Whether `bytes` decode to a point of the ed25519 curve, as the ledger's
/// `bytes_are_curve_point` decides it.
pub uninterp spec fn on_curve(bytes: Seq<u8>) -> bool;

/// The bytes of `seeds`, one after the other.
pub open spec fn concat_seeds(seeds: Seq<Seq<u8>>) -> Seq<u8>
    decreases seeds.len(),
{
    if seeds.len() == 0 {
        Seq::empty()
    } else {
        concat_seeds(seeds.drop_last()) + seeds.last()
    }
}

/// The marker that ends the input of a derivation: `"ProgramDerivedAddress"`.
pub open spec fn pda_marker() -> Seq<u8> {
    seq![
        0x50u8, 0x72, 0x6f, 0x67, 0x72, 0x61, 0x6d, 0x44, 0x65, 0x72, 0x69, 0x76, 0x65, 0x64,
        0x41, 0x64, 0x64, 0x72, 0x65, 0x73, 0x73,
    ]
}

/// The SHA-256 digest of the seeds, then the owner, then the marker: the
/// candidate address that `create_program_address` computes.
pub open spec fn program_address_hash(seeds: Seq<Seq<u8>>, owner: Seq<u8>) -> Seq<u8> {
    sha256_of(concat_seeds(seeds) + owner + pda_marker())
}

/// The byte strings of a list of seeds.
pub open spec fn seed_bytes(seeds: Seq<&[u8]>) -> Seq<Seq<u8>> {
    Seq::new(seeds.len(), |i: int| seeds[i]@)
}

/// Relies on `Pubkey::create_program_address`: for seeds within the limits it
/// takes the SHA-256 digest of the seeds, the owner and the marker, and returns
/// it unless it is a curve point.
#[verifier::external_body]
fn create_program_address(seeds: &[&[u8]], owner: &Address) -> (r: Option<Address>)
    requires
        seeds@.len() <= MAX_SEEDS,
        forall|i: int| 0 <= i < seeds@.len() ==> seeds@[i]@.len() <= MAX_SEED_LEN,
    ensures
        r is Some <==> !on_curve(program_address_hash(seed_bytes(seeds@), owner@)),
        r is Some ==> r->Some_0@ == program_address_hash(seed_bytes(seeds@), owner@),
{
    match Pubkey::create_program_address(seeds, &Pubkey::new_from_array(owner.bytes)) {
        Ok(a) => Some(Address { bytes: a.to_bytes() }),
        Err(_) => None,
    }
}

/// Why a derivation fails.
#[derive(Clone, Copy, Debug, PartialEq, Eq, Structural)]
pub enum DeriveError {
    /// Too many seeds, or a seed that is too long.
    InvalidSeeds,
    /// No bump gives an address off the curve.
    NoValidBump,
}

/// Seeds that leave room for the bump and that are each short enough.
pub open spec fn seeds_valid(seeds: Seq<Seq<u8>>) -> bool {
    &&& seeds.len() < MAX_SEEDS
    &&& forall|i: int| 0 <= i < seeds.len() ==> #[trigger] seeds[i].len() <= MAX_SEED_LEN
}

/// The candidate address for `bump`.
pub open spec fn candidate(seeds: Seq<Seq<u8>>, bump: u8, owner: Seq<u8>) -> Seq<u8> {
    program_address_hash(seeds.push(seq![bump]), owner)
}

/// The highest bump, at most `from`, whose candidate is off the curve.
pub open spec fn search(seeds: Seq<Seq<u8>>, owner: Seq<u8>, from: u8) -> Option<u8>
    decreases from,
{
    if !on_curve(candidate(seeds, from, owner)) {
        Some(from)
    } else if from == 0 {
        None
    } else {
        search(seeds, owner, (from - 1) as u8)
    }
}

/// The derivation of an address from `seeds` and an owning program: the
/// canonical bump's candidate and that bump.
pub open spec fn derive(seeds: Seq<Seq<u8>>, owner: Seq<u8>) -> Result<(Seq<u8>, u8), DeriveError> {
    if !seeds_valid(seeds) {
        Err(DeriveError::InvalidSeeds)
    } else {
        match search(seeds, owner, 255) {
            None => Err(DeriveError::NoValidBump),
            Some(b) => Ok((candidate(seeds, b, owner), b)),
        }
    }
}

/// A bump found by the search is the highest whose candidate is off the
/// curve; where none is found, every candidate is on it.
pub proof fn lemma_search_canonical(seeds: Seq<Seq<u8>>, owner: Seq<u8>, from: u8)
    ensures
        search(seeds, owner, from) matches Some(b) ==> b <= from && !on_curve(
            candidate(seeds, b, owner),
        ) && forall|c: u8| b < c <= from ==> on_curve(#[trigger] candidate(seeds, c, owner)),
        search(seeds, owner, from) is None ==> forall|c: u8|
            c <= from ==> on_curve(#[trigger] candidate(seeds, c, owner)),
    decreases from,
{
    if on_curve(candidate(seeds, from, owner)) && from > 0 {
        lemma_search_canonical(seeds, owner, (from - 1) as u8);
    }
}

/// A successful derivation gives an address off the curve: the candidate of
/// the bump it reports, with every higher bump's candidate on the curve.
pub proof fn lemma_derived_off_curve(seeds: Seq<Seq<u8>>, owner: Seq<u8>)
    ensures
        derive(seeds, owner) matches Ok((a, b)) ==> {
            &&& !on_curve(a)
            &&& a == candidate(seeds, b, owner)
            &&& forall|c: u8| b < c ==> on_curve(#[trigger] candidate(seeds, c, owner))
        },
{
    lemma_search_canonical(seeds, owner, 255);
}

/// Finds the program-derived address of `seeds` under `program_id`, and its
/// canonical bump.
pub fn derive_pda(seeds: &[&[u8]], program_id: &Address) -> (r: Result<(Address, u8), DeriveError>)
    ensures
        match derive(seed_bytes(seeds@), program_id@) {
            Ok((a, b)) => r matches Ok((ra, rb)) && ra@ == a && rb == b,
            Err(e) => r == Err::<(Address, u8), DeriveError>(e),
        },
        r matches Ok((a, b)) ==> !on_curve(a@),
{
    let ghost sb = seed_bytes(seeds@);
    if seeds.len() >= MAX_SEEDS {
        return Err(DeriveError::InvalidSeeds);
    }
    let mut i: usize = 0;
    while i < seeds.len()
        invariant
            i <= seeds@.len(),
            sb == seed_bytes(seeds@),
            forall|j: int| 0 <= j < i ==> sb[j].len() <= MAX_SEED_LEN,
        decreases seeds@.len() - i,
    {
        if seeds[i].len() > MAX_SEED_LEN {
            assert(sb[i as int] == seeds@[i as int]@);
            return Err(DeriveError::InvalidSeeds);
        }
        i = i + 1;
    }
    assert(seeds_valid(sb));
    let mut bump: u8 = 255;
    loop
        invariant
            sb == seed_bytes(seeds@),
            seeds_valid(sb),
            search(sb, program_id@, 255) == search(sb, program_id@, bump),
        decreases bump,
    {
        let bump_seed: [u8; 1] = [bump];
        let mut with_bump: Vec<&[u8]> = slice_to_vec(seeds);
        with_bump.push(bump_seed.as_slice());
        proof {
            assert(bump_seed@ =~= seq![bump]);
            assert(seed_bytes(with_bump@) =~= sb.push(seq![bump]));
            assert forall|j: int| 0 <= j < with_bump@.len() implies with_bump@[j]@.len()
                <= MAX_SEED_LEN by {
                assert(seed_bytes(with_bump@)[j] == with_bump@[j]@);
            }
        }
        match create_program_address(with_bump.as_slice(), program_id) {
            Some(a) => {
                return Ok((a, bump));
            },
            None => {},
        }
        if bump == 0 {
            return Err(DeriveError::NoValidBump);
        }
        bump = bump - 1;
    }
}

/// The program-derived address of `seeds` under `program_id`, without its bump.
pub fn get_pda(seeds: &[&[u8]], program_id: &Address) -> (r: Result<Address, DeriveError>)
    ensures
        match derive(seed_bytes(seeds@), program_id@) {
            Ok((a, _)) => r matches Ok(ra) && ra@ == a,
            Err(e) => r == Err::<Address, DeriveError>(e),
        },
{
    match derive_pda(seeds, program_id) {
        Ok((a, _)) => Ok(a),
        Err(e) => Err(e),
    }
}

/// The program-derived address of `seeds` under `program_id`, with its bump.
pub fn get_pda_with_bump(seeds: &[&[u8]], program_id: &Address) -> (r: Result<(Address, u8), DeriveError>)
    ensures
        match derive(seed_bytes(seeds@), program_id@) {
            Ok((a, b)) => r matches Ok((ra, rb)) && ra@ == a && rb == b,
            Err(e) => r == Err::<(Address, u8), DeriveError>(e),
        },
{
    derive_pda(seeds, program_id)
}

} // verus!
