use anchor_litesvm::{calculate_anchor_discriminator, discriminator};
use sha2::{Digest, Sha256};
use std::collections::HashSet;

#[test]
fn test_discriminator_calculation() {
    let make_discriminator = calculate_anchor_discriminator("make");
    let expected_make = [0x8a, 0xe3, 0xe8, 0x4d, 0xdf, 0xa6, 0x60, 0xc5];
    assert_eq!(make_discriminator, expected_make);

    let test_discriminator = calculate_anchor_discriminator("test");
    assert_eq!(test_discriminator.len(), 8);
    assert_ne!(make_discriminator, test_discriminator);
}

#[test]
fn discriminator_is_the_digest_prefix() {
    let digest = Sha256::digest(b"account:Vault");
    assert_eq!(discriminator("account", "Vault")[..], digest[..8]);
    assert_ne!(discriminator("account", "Vault"), discriminator("global", "Vault"));
}

#[test]
fn global_namespace_is_the_default() {
    assert_eq!(discriminator("global", "make"), calculate_anchor_discriminator("make"));
    assert_eq!(discriminator("global", "make"), discriminator("global", "make"));
}

#[test]
fn empty_name_has_a_discriminator() {
    let digest = Sha256::digest(b"global:");
    assert_eq!(calculate_anchor_discriminator("")[..], digest[..8]);
}

#[test]
fn distinct_names_do_not_collide() {
    let mut seen = HashSet::new();
    for i in 0..1000 {
        let name = format!("instruction_{}", i);
        assert!(seen.insert(discriminator("global", &name)));
    }
    assert_eq!(seen.len(), 1000);
}
