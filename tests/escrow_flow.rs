use anchor_lang::prelude::Pubkey;
use escrow::{make_offer, take_offer, Escrow, EscrowError, Key, Ledger, MakeOffer, TakeOffer};

fn key(b: u8) -> Key {
    Key::new([b; 32])
}

fn program() -> Key {
    let mut bytes = [0u8; 32];
    for (i, b) in bytes.iter_mut().enumerate() {
        *b = (i as u8).wrapping_mul(7).wrapping_add(3);
    }
    Key::new(bytes)
}

const MAKER: u8 = 1;
const TAKER: u8 = 2;
const OTHER_TAKER: u8 = 3;
const MINT_X: u8 = 10;
const MINT_Y: u8 = 11;
const MINT_Z: u8 = 12;

fn vault_of(maker: &Key, id: u64) -> Key {
    let (pda, _) = Pubkey::find_program_address(
        &[b"offer", &maker.bytes, &id.to_le_bytes()],
        &Pubkey::new_from_array(program().bytes),
    );
    Key::new(pda.to_bytes())
}

/// Maker holds 100 X; taker holds `taker_y` Y.
fn setup(taker_y: u64) -> Escrow {
    let mut ledger = Ledger::new();
    ledger.mint_to(&key(MAKER), &key(MINT_X), 100).unwrap();
    ledger.mint_to(&key(TAKER), &key(MINT_Y), taker_y).unwrap();
    Escrow::new(program(), ledger)
}

fn make_accounts() -> MakeOffer {
    MakeOffer { maker: key(MAKER), token_mint_a: key(MINT_X), token_mint_b: key(MINT_Y) }
}

fn take_accounts(taker: u8) -> TakeOffer {
    TakeOffer { taker: key(taker), maker: key(MAKER), token_mint_a: key(MINT_X), token_mint_b: key(MINT_Y) }
}

fn bal(e: &Escrow, owner: &Key, mint: u8) -> u64 {
    e.ledger().get_balance(owner, &key(mint))
}

#[test]
fn happy_path() {
    let mut e = setup(10);
    assert_eq!(make_offer(&mut e, &make_accounts(), 1, 100, 10), Ok(()));
    let vault = vault_of(&key(MAKER), 1);
    assert_eq!(bal(&e, &vault, MINT_X), 100);
    assert_eq!(bal(&e, &key(MAKER), MINT_X), 0);
    assert_eq!(e.offers().len(), 1);
    let o = e.offers()[0];
    assert_eq!((o.id, o.token_a_amount, o.token_b_wanted_amount), (1, 100, 10));
    assert_eq!(o.maker, key(MAKER));

    assert_eq!(take_offer(&mut e, &take_accounts(TAKER), 1), Ok(()));
    assert_eq!(bal(&e, &key(MAKER), MINT_Y), 10);
    assert_eq!(bal(&e, &key(TAKER), MINT_X), 100);
    assert_eq!(bal(&e, &key(TAKER), MINT_Y), 0);
    assert_eq!(bal(&e, &vault, MINT_X), 0);
    assert!(!e.ledger().account_exists(&vault, &key(MINT_X)));
    assert!(e.offers().is_empty());
}

#[test]
fn insufficient_taker_funds() {
    let mut e = setup(5);
    e.deposit(&key(OTHER_TAKER), &key(MINT_Y), 10).unwrap();
    make_offer(&mut e, &make_accounts(), 1, 100, 10).unwrap();
    let vault = vault_of(&key(MAKER), 1);
    assert_eq!(take_offer(&mut e, &take_accounts(TAKER), 1), Err(EscrowError::InsufficientFunds));
    assert_eq!(bal(&e, &vault, MINT_X), 100);
    assert_eq!(bal(&e, &key(TAKER), MINT_Y), 5);
    assert_eq!(bal(&e, &key(MAKER), MINT_Y), 0);
    assert_eq!(e.offers().len(), 1);
    // a properly funded taker can still take it
    assert_eq!(take_offer(&mut e, &take_accounts(OTHER_TAKER), 1), Ok(()));
    assert_eq!(bal(&e, &key(OTHER_TAKER), MINT_X), 100);
    assert_eq!(bal(&e, &key(MAKER), MINT_Y), 10);
}

#[test]
fn wrong_maker_binding() {
    let mut e = setup(10);
    make_offer(&mut e, &make_accounts(), 1, 100, 10).unwrap();
    let mut acc = take_accounts(TAKER);
    acc.maker = key(OTHER_TAKER);
    assert_eq!(take_offer(&mut e, &acc, 1), Err(EscrowError::OfferNotFound));
    assert_eq!(bal(&e, &key(TAKER), MINT_Y), 10);
    assert_eq!(bal(&e, &vault_of(&key(MAKER), 1), MINT_X), 100);
    assert_eq!(e.offers().len(), 1);
}

#[test]
fn duplicate_id() {
    let mut e = setup(10);
    e.deposit(&key(MAKER), &key(MINT_X), 50).unwrap();
    make_offer(&mut e, &make_accounts(), 1, 100, 10).unwrap();
    assert_eq!(make_offer(&mut e, &make_accounts(), 1, 50, 3), Err(EscrowError::AlreadyExists));
    assert_eq!(e.offers().len(), 1);
    assert_eq!(e.offers()[0].token_a_amount, 100);
    assert_eq!(bal(&e, &vault_of(&key(MAKER), 1), MINT_X), 100);
    assert_eq!(bal(&e, &key(MAKER), MINT_X), 50);
    // another id of the same maker is a different record
    assert_eq!(make_offer(&mut e, &make_accounts(), 2, 50, 3), Ok(()));
    assert_eq!(bal(&e, &vault_of(&key(MAKER), 2), MINT_X), 50);
}

#[test]
fn second_take_is_not_found() {
    let mut e = setup(20);
    make_offer(&mut e, &make_accounts(), 7, 100, 10).unwrap();
    assert_eq!(take_offer(&mut e, &take_accounts(TAKER), 7), Ok(()));
    assert_eq!(take_offer(&mut e, &take_accounts(TAKER), 7), Err(EscrowError::OfferNotFound));
    assert_eq!(bal(&e, &key(TAKER), MINT_Y), 10);
    assert_eq!(bal(&e, &key(TAKER), MINT_X), 100);
}

#[test]
fn make_then_take_conserves_totals() {
    let mut e = setup(30);
    let parties = [key(MAKER), key(TAKER), vault_of(&key(MAKER), 4)];
    let total = |e: &Escrow, mint: u8| -> u64 { parties.iter().map(|p| bal(e, p, mint)).sum() };
    let (x0, y0) = (total(&e, MINT_X), total(&e, MINT_Y));
    make_offer(&mut e, &make_accounts(), 4, 60, 25).unwrap();
    assert_eq!((total(&e, MINT_X), total(&e, MINT_Y)), (x0, y0));
    take_offer(&mut e, &take_accounts(TAKER), 4).unwrap();
    assert_eq!((total(&e, MINT_X), total(&e, MINT_Y)), (x0, y0));
    assert_eq!(bal(&e, &key(MAKER), MINT_X), 40);
    assert_eq!(bal(&e, &key(TAKER), MINT_X), 60);
    assert_eq!(bal(&e, &key(TAKER), MINT_Y), 5);
    assert_eq!(bal(&e, &key(MAKER), MINT_Y), 25);
}

#[test]
fn asset_mismatch_moves_nothing() {
    let mut e = setup(10);
    e.deposit(&key(TAKER), &key(MINT_Z), 10).unwrap();
    make_offer(&mut e, &make_accounts(), 1, 100, 10).unwrap();
    let mut acc = take_accounts(TAKER);
    acc.token_mint_b = key(MINT_Z);
    assert_eq!(take_offer(&mut e, &acc, 1), Err(EscrowError::AssetMismatch));
    let mut acc = take_accounts(TAKER);
    acc.token_mint_a = key(MINT_Z);
    assert_eq!(take_offer(&mut e, &acc, 1), Err(EscrowError::AssetMismatch));
    assert_eq!(bal(&e, &key(TAKER), MINT_Z), 10);
    assert_eq!(bal(&e, &key(TAKER), MINT_Y), 10);
    assert_eq!(e.offers().len(), 1);
}

#[test]
fn take_moves_only_recorded_kinds() {
    let mut e = setup(10);
    e.deposit(&key(TAKER), &key(MINT_Z), 9).unwrap();
    e.deposit(&key(MAKER), &key(MINT_Z), 4).unwrap();
    make_offer(&mut e, &make_accounts(), 1, 100, 10).unwrap();
    take_offer(&mut e, &take_accounts(TAKER), 1).unwrap();
    assert_eq!(bal(&e, &key(TAKER), MINT_Z), 9);
    assert_eq!(bal(&e, &key(MAKER), MINT_Z), 4);
}

#[test]
fn zero_amounts_are_refused() {
    let mut e = setup(10);
    assert_eq!(make_offer(&mut e, &make_accounts(), 1, 0, 10), Err(EscrowError::InvalidAmount));
    assert_eq!(make_offer(&mut e, &make_accounts(), 1, 100, 0), Err(EscrowError::InvalidAmount));
    assert!(e.offers().is_empty());
    assert_eq!(bal(&e, &key(MAKER), MINT_X), 100);
}

#[test]
fn maker_without_funds_is_refused() {
    let mut e = setup(10);
    assert_eq!(make_offer(&mut e, &make_accounts(), 1, 101, 10), Err(EscrowError::InsufficientFunds));
    assert!(e.offers().is_empty());
    assert_eq!(bal(&e, &key(MAKER), MINT_X), 100);
    assert!(!e.ledger().account_exists(&vault_of(&key(MAKER), 1), &key(MINT_X)));
}

#[test]
fn vault_already_funded_is_refused() {
    let mut e = setup(10);
    let vault = vault_of(&key(MAKER), 1);
    e.deposit(&vault, &key(MINT_X), 1).unwrap();
    assert_eq!(make_offer(&mut e, &make_accounts(), 1, 100, 10), Err(EscrowError::AlreadyExists));
    assert!(e.offers().is_empty());
}

#[test]
fn payment_overflow_is_refused() {
    let mut e = setup(10);
    make_offer(&mut e, &make_accounts(), 1, 100, 10).unwrap();
    e.deposit(&key(MAKER), &key(MINT_Y), u64::MAX - 5).unwrap();
    assert_eq!(take_offer(&mut e, &take_accounts(TAKER), 1), Err(EscrowError::Overflow));
    assert_eq!(bal(&e, &key(TAKER), MINT_Y), 10);
    assert_eq!(e.offers().len(), 1);
}

#[test]
fn release_overflow_rolls_back_payment() {
    let mut e = setup(10);
    make_offer(&mut e, &make_accounts(), 1, 100, 10).unwrap();
    e.deposit(&key(TAKER), &key(MINT_X), u64::MAX - 50).unwrap();
    assert_eq!(take_offer(&mut e, &take_accounts(TAKER), 1), Err(EscrowError::Overflow));
    assert_eq!(bal(&e, &key(TAKER), MINT_Y), 10);
    assert_eq!(bal(&e, &key(MAKER), MINT_Y), 0);
    assert_eq!(bal(&e, &vault_of(&key(MAKER), 1), MINT_X), 100);
    assert_eq!(e.offers().len(), 1);
}

#[test]
fn stored_bump_is_canonical() {
    let mut e = setup(10);
    make_offer(&mut e, &make_accounts(), 3, 100, 10).unwrap();
    let (_, bump) = Pubkey::find_program_address(
        &[b"offer", &key(MAKER).bytes, &3u64.to_le_bytes()],
        &Pubkey::new_from_array(program().bytes),
    );
    assert_eq!(e.offers()[0].bump, bump);
}

#[test]
fn vault_cannot_make_an_offer() {
    let mut e = setup(10);
    make_offer(&mut e, &make_accounts(), 1, 100, 10).unwrap();
    let vault = vault_of(&key(MAKER), 1);
    let acc = MakeOffer { maker: vault, token_mint_a: key(MINT_X), token_mint_b: key(MINT_Y) };
    assert_eq!(make_offer(&mut e, &acc, 5, 40, 1), Err(EscrowError::Unauthorized));
    assert_eq!(bal(&e, &vault, MINT_X), 100);
    assert_eq!(e.offers().len(), 1);
}

#[test]
fn vault_cannot_pay_for_a_take() {
    let mut e = setup(10);
    e.deposit(&key(OTHER_TAKER), &key(MINT_Y), 10).unwrap();
    make_offer(&mut e, &make_accounts(), 1, 100, 10).unwrap();
    let other = MakeOffer { maker: key(OTHER_TAKER), token_mint_a: key(MINT_Y), token_mint_b: key(MINT_Z) };
    make_offer(&mut e, &other, 2, 10, 1).unwrap();
    let vault2 = vault_of(&key(OTHER_TAKER), 2);
    assert_eq!(bal(&e, &vault2, MINT_Y), 10);
    let mut acc = take_accounts(TAKER);
    acc.taker = vault2;
    assert_eq!(take_offer(&mut e, &acc, 1), Err(EscrowError::Unauthorized));
    assert_eq!(bal(&e, &vault2, MINT_Y), 10);
    assert_eq!(bal(&e, &vault_of(&key(MAKER), 1), MINT_X), 100);
    assert_eq!(e.offers().len(), 2);
}
