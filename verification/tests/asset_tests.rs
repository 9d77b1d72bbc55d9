use polkaexchange::errors::Error;
use polkaexchange::math::integer_sqrt;
use polkaexchange::metadata::default_symbol;
use polkaexchange::primitives::{AssetName, AssetSymbol, FixedString};
use polkaexchange::state::Dex;

fn fs(s: &str) -> FixedString {
    FixedString::from_string(s)
}

#[test]
fn test_register_asset() {
    let mut dex = Dex::new();
    let alice = fs("ALICE");
    let test_symbol: AssetSymbol = AssetSymbol::from_const_string("DOT");
    assert!(dex.ensure_asset_exists(&default_symbol()).is_err());
    assert!(dex
        .register_asset(
            &alice,
            &test_symbol,
            &AssetName::from_string("polkadot"),
            18,
            true,
            true,
            None,
            0,
        )
        .is_ok());
    assert_eq!(
        dex.register_asset(
            &alice,
            &test_symbol,
            &AssetName::from_string("polkadot"),
            18,
            true,
            true,
            None,
            0,
        ),
        Err(Error::AssetAlreadyExists)
    );
}

#[test]
fn test_asset_name() {
    // truncated to the fixed identifier size either way
    assert_eq!(
        AssetName::from_string("Thisislongnameexample"),
        AssetName::from_const_string("Thisislongnameexample"),
    );
}

#[test]
fn test_initial_supply() {
    let mut dex = Dex::new();
    let alice = fs("ALICE");
    let test_symbol = AssetSymbol::from_const_string("DOT");
    assert!(dex
        .register_asset(
            &alice,
            &test_symbol,
            &AssetName::from_string("dot"),
            18,
            true,
            true,
            None,
            256,
        )
        .is_ok());
    assert_eq!(dex.free_balance(&test_symbol, &alice), Ok(256));
    assert_eq!(dex.total_issuance(&test_symbol), Ok(256));
}

#[test]
fn test_mint_asset() {
    let mut dex = Dex::new();
    let alice = fs("ALICE");
    let bob = fs("BOB");
    let test_symbol = AssetSymbol::from_const_string("DOT");
    assert!(dex
        .register_asset(
            &alice,
            &test_symbol,
            &AssetName::from_string("polkadot"),
            18,
            true,
            true,
            None,
            0,
        )
        .is_ok());
    assert!(dex.mint_asset(&alice, &test_symbol, 10).is_ok());
    assert_eq!(dex.free_balance(&test_symbol, &alice), Ok(10));
    assert_eq!(
        dex.mint_asset(&bob, &test_symbol, 10),
        Err(Error::InvalidOwner)
    );
}

#[test]
fn test_burn_asset() {
    let mut dex = Dex::new();
    let alice = fs("ALICE");
    let test_symbol = AssetSymbol::from_const_string("DOT");
    assert!(dex
        .register_asset(
            &alice,
            &test_symbol,
            &AssetName::from_string("polkadot"),
            18,
            true,
            true,
            None,
            0,
        )
        .is_ok());
    assert!(dex.mint_asset(&alice, &test_symbol, 100).is_ok());
    assert!(dex.burn_asset(&alice, &test_symbol, 10).is_ok());
    assert_eq!(dex.free_balance(&test_symbol, &alice), Ok(90));
}

#[test]
fn test_transfer_asset() {
    let mut dex = Dex::new();
    let alice = fs("ALICE");
    let bob = fs("BOB");
    let test_symbol = AssetSymbol::from_const_string("DOT");
    assert!(dex
        .register_asset(
            &alice,
            &test_symbol,
            &AssetName::from_string("polkadot"),
            18,
            true,
            true,
            None,
            0,
        )
        .is_ok());
    assert_eq!(
        dex.transfer_asset(&alice, &test_symbol, &bob, 10),
        Err(Error::NoEnoughBalance)
    );
    assert!(dex.mint_asset(&alice, &test_symbol, 100).is_ok());
    assert!(dex.transfer_asset(&alice, &test_symbol, &bob, 10).is_ok());
    assert_eq!(dex.free_balance(&test_symbol, &alice), Ok(90));
    assert_eq!(dex.free_balance(&test_symbol, &bob), Ok(10));
}

#[test]
fn test_asset_validation_errors() {
    let mut dex = Dex::new();
    let alice = fs("ALICE");
    let name = AssetName::from_string("dot");
    // a symbol starting with punctuation is invalid
    assert_eq!(
        dex.register_asset(&alice, &fs("_DOT"), &name, 18, true, true, None, 0),
        Err(Error::InvalidAssetSymbol)
    );
    // a name with a non-letter byte is invalid
    assert_eq!(
        dex.register_asset(&alice, &fs("DOT"), &fs("a!b"), 18, true, true, None, 0),
        Err(Error::InvalidAssetName)
    );
    // precision above the maximum is rejected
    assert_eq!(
        dex.register_asset(&alice, &fs("DOT"), &name, 19, true, true, None, 0),
        Err(Error::InvalidPrecision)
    );
    // a false root gate blocks registration
    assert!(dex.set_asset_permission(&fs("DOT"), false).is_ok());
    assert_eq!(
        dex.register_asset(&alice, &fs("DOT"), &name, 18, true, true, None, 0),
        Err(Error::AssetNotAllowedToRegister)
    );
    assert!(dex.set_asset_permission(&fs("DOT"), true).is_ok());
    assert!(dex
        .register_asset(&alice, &fs("DOT"), &name, 18, true, true, None, 0)
        .is_ok());
    // gates only accept valid symbols
    assert_eq!(
        dex.set_asset_permission(&fs("_x"), true),
        Err(Error::InvalidAssetSymbol)
    );
}

#[test]
fn test_mint_burn_flags_and_overflow() {
    let mut dex = Dex::new();
    let alice = fs("ALICE");
    let sym = fs("FIX");
    assert!(dex
        .register_asset(&alice, &sym, &fs("fix"), 18, false, false, None, 5)
        .is_ok());
    assert_eq!(dex.mint_asset(&alice, &sym, 1), Err(Error::AssetIsNotMintable));
    assert_eq!(dex.burn_asset(&alice, &sym, 1), Err(Error::AssetIsNotBurnable));
    assert_eq!(dex.mint_asset(&alice, &fs("NONE"), 1), Err(Error::AssetNotExists));
    let big = fs("BIG");
    assert!(dex
        .register_asset(&alice, &big, &fs("big"), 18, true, true, None, u128::MAX)
        .is_ok());
    assert_eq!(dex.mint_asset(&alice, &big, 1), Err(Error::AmountOverflow));
    // burning more than the balance surfaces the ledger error
    let small = fs("SMALL");
    assert!(dex
        .register_asset(&alice, &small, &fs("small"), 18, true, true, None, 3)
        .is_ok());
    assert_eq!(dex.burn_asset(&alice, &small, 4), Err(Error::InsufficientBalance));
    // minting an amount and burning it back leaves the balance unchanged
    assert!(dex.mint_asset(&alice, &small, 7).is_ok());
    assert!(dex.burn_asset(&alice, &small, 7).is_ok());
    assert_eq!(dex.free_balance(&small, &alice), Ok(3));
    assert_eq!(dex.total_issuance(&small), Ok(3));
}

#[test]
fn test_update_balance_and_queries() {
    let mut dex = Dex::new();
    let alice = fs("ALICE");
    let sym = fs("DOT");
    assert!(dex
        .register_asset(&alice, &sym, &fs("dot"), 18, true, true, None, 50)
        .is_ok());
    assert!(dex.update_balance(&sym, &alice, 7).is_ok());
    assert_eq!(dex.free_balance(&sym, &alice), Ok(57));
    assert!(dex.update_balance(&sym, &alice, -17).is_ok());
    assert_eq!(dex.free_balance(&sym, &alice), Ok(40));
    assert_eq!(dex.total_issuance(&sym), Ok(40));
    assert_eq!(
        dex.update_balance(&sym, &alice, -41),
        Err(Error::InsufficientBalance)
    );
    assert!(dex.ensure_can_withdraw(&sym, &alice, 40).is_ok());
    assert_eq!(
        dex.ensure_can_withdraw(&sym, &alice, 41),
        Err(Error::InsufficientBalance)
    );
    assert_eq!(dex.total_balance(&sym, &alice), Ok(40));
    assert!(dex.is_asset_existed(&sym));
    assert!(dex.is_asset_owner(&sym, &alice));
    assert!(!dex.is_asset_owner(&sym, &fs("BOB")));
    assert_eq!(dex.get_asset_owner(&sym), Some(alice));
    let info = dex.get_asset_info(&sym);
    assert_eq!(info.symbol, sym);
    assert!(info.is_mintable);
    let symbols = dex.list_registered_asset_symbols();
    assert_eq!(symbols, vec![sym]);
    let infos = dex.list_registered_asset_info_data();
    assert_eq!(infos.len(), 1);
    assert_eq!(infos[0].precision, 18);
}

#[test]
fn test_fixed_string_basics() {
    let s = FixedString::from_string("AB");
    assert!(!s.is_empty());
    assert_eq!(s.size(), 16);
    assert_eq!(
        s.to_string(),
        "AB\0\0\0\0\0\0\0\0\0\0\0\0\0\0".to_string()
    );
    assert!(FixedString::from_string("").is_empty());
    assert_eq!(FixedString::get_default_asset_id(), fs("DEFAULT"));
    assert_eq!(FixedString::get_default_symbol(), fs("DEFAULT"));
    assert!(polkaexchange::primitives::is_valid_id(&fs("Polka.dot_X-y")));
    assert!(!polkaexchange::primitives::is_valid_id(&fs(".bad")));
    assert!(!polkaexchange::primitives::is_valid_id(&fs("has9digit")));
    assert!(polkaexchange::primitives::is_valid_symbol(&fs("DOT")));
    assert!(polkaexchange::primitives::is_valid_name(&fs("")));
    assert!(polkaexchange::primitives::is_valid_name(&fs("Name")));
    assert!(!polkaexchange::primitives::is_valid_name(&fs("a b")));
}

#[test]
fn test_integer_sqrt() {
    assert_eq!(integer_sqrt(0), 0);
    assert_eq!(integer_sqrt(1), 1);
    assert_eq!(integer_sqrt(2), 1);
    assert_eq!(integer_sqrt(3), 1);
    assert_eq!(integer_sqrt(4), 2);
    assert_eq!(integer_sqrt(99), 9);
    assert_eq!(integer_sqrt(100), 10);
    let v = 1u128 << 127;
    let r = integer_sqrt(v);
    assert!(r.checked_mul(r).map(|sq| sq <= v).unwrap_or(false));
    let r1 = r + 1;
    assert!(r1.checked_mul(r1).map(|sq| sq > v).unwrap_or(true));
    assert_eq!(integer_sqrt(u128::MAX), u64::MAX as u128);
}
