use anchor_lang::prelude::Pubkey;
use escrow::address::{derive_authority, find_offer_address, u64_le_bytes};
use escrow::Key;

fn program() -> Key {
    Key::new([42u8; 32])
}

#[test]
fn le_bytes_of_u64() {
    assert_eq!(u64_le_bytes(0x0102_0304_0506_0708), vec![8, 7, 6, 5, 4, 3, 2, 1]);
    assert_eq!(u64_le_bytes(1), vec![1, 0, 0, 0, 0, 0, 0, 0]);
    assert_eq!(u64_le_bytes(u64::MAX), vec![255; 8]);
}

#[test]
fn find_offer_address_matches_host_derivation() {
    let maker = Key::new([9u8; 32]);
    let (k, b) = find_offer_address(&program(), &maker, 77).unwrap();
    let (pda, bump) = Pubkey::find_program_address(
        &[b"offer", &maker.bytes, &77u64.to_le_bytes()],
        &Pubkey::new_from_array(program().bytes),
    );
    assert_eq!(k.bytes, pda.to_bytes());
    assert_eq!(b, bump);
    assert_ne!(k, program());
    assert_ne!(k, maker);
}

#[test]
fn derive_authority_recomputes_address() {
    let maker = Key::new([5u8; 32]);
    let (k, b) = find_offer_address(&program(), &maker, 1).unwrap();
    assert_eq!(derive_authority(&program(), &maker, 1, b), Some(k));
    let expected = Pubkey::create_program_address(
        &[b"offer", &maker.bytes, &1u64.to_le_bytes(), &[b]],
        &Pubkey::new_from_array(program().bytes),
    )
    .unwrap();
    assert_eq!(k.bytes, expected.to_bytes());
    // a different id derives a different authority
    let (k2, _) = find_offer_address(&program(), &maker, 2).unwrap();
    assert_ne!(k, k2);
}

#[test]
fn keys_compare_by_bytes() {
    let mut b = [1u8; 32];
    assert!(Key::new(b).same(&Key::new(b)));
    b[31] = 2;
    assert!(!Key::new([1u8; 32]).same(&Key::new(b)));
}

#[test]
fn signer_seeds_layout() {
    let maker = Key::new([5u8; 32]);
    let seeds = escrow::address::offer_signer_seeds(&maker, 258, 254);
    assert_eq!(seeds.len(), 4);
    assert_eq!(seeds[0], b"offer".to_vec());
    assert_eq!(seeds[1], vec![5u8; 32]);
    assert_eq!(seeds[2], vec![2, 1, 0, 0, 0, 0, 0, 0]);
    assert_eq!(seeds[3], vec![254]);
}
