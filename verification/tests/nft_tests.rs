use polkaexchange::errors::Error;
use polkaexchange::metadata::TokenMetadata;
use polkaexchange::primitives::{FixedString, NftClassId, NftTokenId};
use polkaexchange::state::Dex;

fn fs(s: &str) -> FixedString {
    FixedString::from_string(s)
}

fn class1() -> NftClassId {
    NftClassId::from_const_string("TEST_CLASS1")
}

fn token1() -> NftTokenId {
    NftTokenId::from_const_string("NftToken1")
}

fn token2() -> NftTokenId {
    NftTokenId::from_const_string("NftToken2")
}

#[test]
fn test_create_nft_class() {
    let mut dex = Dex::new();
    let alice = fs("ALICE");
    assert!(dex.create_nft_class(&alice, &class1(), Vec::new()).is_ok());
    assert_eq!(
        dex.create_nft_class(&alice, &class1(), Vec::new()),
        Err(Error::NftClassIdAlreadyExisted)
    );
}

#[test]
fn test_destroy_nft_class() {
    let mut dex = Dex::new();
    let alice = fs("ALICE");
    assert!(dex.create_nft_class(&alice, &class1(), Vec::new()).is_ok());
    assert!(dex.destroy_nft_class(&alice, &class1()).is_ok());
    assert_eq!(
        dex.destroy_nft_class(&alice, &class1()),
        Err(Error::NftClassIdNotExisted)
    );
}

#[test]
fn test_token() {
    let mut dex = Dex::new();
    let alice = fs("ALICE");
    let bob = fs("BOB");
    let metadata = TokenMetadata::default();
    assert!(dex.create_nft_class(&alice, &class1(), Vec::new()).is_ok());
    assert!(dex
        .mint_token(&alice, &class1(), &token1(), metadata.clone(), Vec::new())
        .is_ok());
    assert_eq!(
        dex.mint_token(&alice, &class1(), &token1(), metadata.clone(), Vec::new()),
        Err(Error::TokenIdAlreadyExisted)
    );
    assert_eq!(
        dex.destroy_nft_class(&alice, &class1()),
        Err(Error::CannotDestroyNftClass)
    );
    assert_eq!(
        dex.burn_token(&bob, &class1(), &token1()),
        Err(Error::InvalidTokenOwner)
    );
    assert!(dex.burn_token(&alice, &class1(), &token1()).is_ok());
    assert_eq!(
        dex.burn_token(&alice, &class1(), &token1()),
        Err(Error::TokenIdNotExisted)
    );
}

#[test]
fn test_transfer_nft() {
    let mut dex = Dex::new();
    let alice = fs("ALICE");
    let bob = fs("BOB");
    let metadata = TokenMetadata::default();
    assert!(dex.create_nft_class(&alice, &class1(), Vec::new()).is_ok());
    assert!(dex
        .mint_token(&alice, &class1(), &token1(), metadata.clone(), Vec::new())
        .is_ok());
    assert!(dex
        .mint_token(&alice, &class1(), &token2(), metadata.clone(), Vec::new())
        .is_ok());
    assert!(dex.transfer_token(&alice, &bob, &class1(), &token1()).is_ok());
    assert_eq!(
        dex.transfer_token(&alice, &bob, &class1(), &token1()),
        Err(Error::InvalidTokenOwner)
    );
    assert!(dex.is_owner(&alice, &class1(), &token2()));
    assert!(!dex.is_owner(&alice, &class1(), &token1()));
    assert!(dex.is_owner(&bob, &class1(), &token1()));
    assert!(dex.transfer_token(&bob, &alice, &class1(), &token1()).is_ok());
    assert!(dex.is_owner(&alice, &class1(), &token1()));
    assert!(!dex.is_owner(&bob, &class1(), &token1()));
}

#[test]
fn test_nft_class_permission_and_global_ids() {
    let mut dex = Dex::new();
    let alice = fs("ALICE");
    let bob = fs("BOB");
    let other = NftClassId::from_const_string("OTHER_CLASS");
    assert!(dex.create_nft_class(&alice, &class1(), Vec::new()).is_ok());
    assert!(dex.create_nft_class(&bob, &other, Vec::new()).is_ok());
    assert_eq!(
        dex.destroy_nft_class(&bob, &class1()),
        Err(Error::NoClassPermission)
    );
    assert!(dex
        .mint_token(&alice, &class1(), &token1(), TokenMetadata::default(), Vec::new())
        .is_ok());
    // token ids are globally unique across classes
    assert_eq!(
        dex.mint_token(&bob, &other, &token1(), TokenMetadata::default(), Vec::new()),
        Err(Error::TokenIdAlreadyExisted)
    );
    assert_eq!(
        dex.mint_token(&bob, &fs("NOCLASS"), &token2(), TokenMetadata::default(), Vec::new()),
        Err(Error::NftClassIdNotExisted)
    );
    assert!(dex.is_token_existed(&class1(), &token1()));
    assert!(!dex.is_token_existed(&class1(), &token2()));
    // transferring to oneself changes nothing and succeeds
    assert!(dex.transfer_token(&alice, &alice, &class1(), &token1()).is_ok());
    assert!(dex.is_owner(&alice, &class1(), &token1()));
    assert_eq!(
        dex.transfer_token(&alice, &bob, &fs("NOCLASS"), &token1()),
        Err(Error::NftClassIdNotExisted)
    );
    assert_eq!(
        dex.transfer_token(&alice, &bob, &class1(), &token2()),
        Err(Error::TokenIdNotExisted)
    );
}
