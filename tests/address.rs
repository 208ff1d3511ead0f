use anchor_litesvm::{derive_pda, get_pda, get_pda_with_bump, Address, DeriveError};
use solana_keypair::Keypair;
use solana_program::pubkey::Pubkey;
use sha2::{Digest, Sha256};
use solana_signer::Signer;

fn program(n: u8) -> Address {
    Address::new_from_array([n; 32])
}

fn from(p: &Pubkey) -> Address {
    Address::new_from_array(p.to_bytes())
}

fn pubkey(a: &Address) -> Pubkey {
    Pubkey::new_from_array(a.to_bytes())
}

#[test]
fn test_derive_pda() {
    let program_id = program(7);
    let seeds: &[&[u8]] = &[b"test", b"seeds"];

    let (pda, bump) = derive_pda(seeds, &program_id).unwrap();

    assert!(!pubkey(&pda).is_on_curve());

    let expected_pda =
        Pubkey::create_program_address(&[seeds[0], seeds[1], &[bump]], &pubkey(&program_id))
            .unwrap();
    assert_eq!(pda.to_bytes(), expected_pda.to_bytes());
}

#[test]
fn test_get_pda() {
    let program_id = program(8);
    let seeds: &[&[u8]] = &[b"vault", b"test"];

    let pda = get_pda(seeds, &program_id).unwrap();

    let (expected_pda, _) = derive_pda(seeds, &program_id).unwrap();
    assert_eq!(pda, expected_pda);
}

#[test]
fn test_get_pda_with_bump() {
    let program_id = program(9);
    let seeds: &[&[u8]] = &[b"escrow"];

    let (pda, bump) = get_pda_with_bump(seeds, &program_id).unwrap();

    let (expected_pda, expected_bump) = derive_pda(seeds, &program_id).unwrap();
    assert_eq!(pda, expected_pda);
    assert_eq!(bump, expected_bump);
}

#[test]
fn derivation_matches_the_canonical_search() {
    for n in 0..20u8 {
        let program_id = program(n);
        let seeds: &[&[u8]] = &[b"escrow", &[n, 1, 2]];
        let (pda, bump) = derive_pda(seeds, &program_id).unwrap();
        let (expected, expected_bump) = Pubkey::find_program_address(seeds, &pubkey(&program_id));
        assert_eq!(pda.to_bytes(), expected.to_bytes());
        assert_eq!(bump, expected_bump);
        assert!(!pubkey(&pda).is_on_curve());
    }
}

#[test]
fn derivation_is_deterministic() {
    let program_id = program(3);
    let seeds: &[&[u8]] = &[b"a", b"b"];
    assert_eq!(derive_pda(seeds, &program_id), derive_pda(seeds, &program_id));
}

#[test]
fn seed_order_matters() {
    let program_id = program(4);
    let ab_seeds: &[&[u8]] = &[b"a", b"b"];
    let ba_seeds: &[&[u8]] = &[b"b", b"a"];
    let ab = derive_pda(ab_seeds, &program_id).unwrap();
    let ba = derive_pda(ba_seeds, &program_id).unwrap();
    assert_ne!(ab.0, ba.0);
}

#[test]
fn invalid_seeds_are_rejected() {
    let program_id = program(5);
    let long = [0u8; 33];
    assert_eq!(derive_pda(&[&long[..]], &program_id), Err(DeriveError::InvalidSeeds));
    let max = [0u8; 32];
    assert!(derive_pda(&[&max[..]], &program_id).is_ok());
    let many: Vec<&[u8]> = vec![&b"s"[..]; 16];
    assert_eq!(derive_pda(&many, &program_id), Err(DeriveError::InvalidSeeds));
    let fifteen: Vec<&[u8]> = vec![&b"s"[..]; 15];
    assert!(derive_pda(&fifteen, &program_id).is_ok());
    assert_eq!(get_pda(&[&long[..]], &program_id), Err(DeriveError::InvalidSeeds));
}

#[test]
fn derived_addresses_never_meet_signer_keys() {
    let signers: Vec<Pubkey> = (0..50).map(|_| Keypair::new().pubkey()).collect();
    for key in &signers {
        assert!(key.is_on_curve());
        let seeds: [&[u8]; 2] = [b"vault", key.as_ref()];
        let (pda, _) = derive_pda(&seeds, &from(key)).unwrap();
        assert!(!pubkey(&pda).is_on_curve());
        assert!(signers.iter().all(|s| s.to_bytes() != pda.to_bytes()));
    }
}

#[test]
fn no_seeds_derive_too() {
    let program_id = program(6);
    let none: &[&[u8]] = &[];
    let (pda, bump) = derive_pda(none, &program_id).unwrap();
    let (expected, expected_bump) = Pubkey::find_program_address(none, &pubkey(&program_id));
    assert_eq!(pda.to_bytes(), expected.to_bytes());
    assert_eq!(bump, expected_bump);
}

#[test]
fn derived_address_is_the_digest_of_seeds_owner_and_marker() {
    let program_id = program(12);
    let seeds: &[&[u8]] = &[b"vault", b"42"];
    let (pda, bump) = derive_pda(seeds, &program_id).unwrap();
    let mut input = Vec::new();
    input.extend_from_slice(b"vault");
    input.extend_from_slice(b"42");
    input.push(bump);
    input.extend_from_slice(&program_id.to_bytes());
    input.extend_from_slice(b"ProgramDerivedAddress");
    assert_eq!(pda.to_bytes()[..], Sha256::digest(&input)[..]);
}
