use polkaexchange::amm::INIT_SHARES_SUPPLY;
use polkaexchange::errors::Error;
use polkaexchange::metadata::{SymbolAmount, SymbolData, VolumeData};
use polkaexchange::primitives::{AssetSymbol, FixedString, PoolId};
use polkaexchange::state::Dex;

fn fs(s: &str) -> FixedString {
    FixedString::from_string(s)
}

fn symbol1() -> AssetSymbol {
    AssetSymbol::from_const_string("DOT")
}

fn symbol2() -> AssetSymbol {
    AssetSymbol::from_const_string("KSM")
}

fn pool_amm() -> PoolId {
    PoolId::from_const_string("pool_amm")
}

pub fn symbol_data_to_string(sd: &SymbolData) -> String {
    let mut s = format!("{{");
    for entry in sd {
        s += &format!("[{}: {}],", entry.symbol.to_string(), entry.amount);
    }
    s += &format!("}}");
    s
}

pub fn volume_data_to_string(sd: &VolumeData) -> String {
    let mut s = format!("{{");
    for entry in sd {
        s += &format!(
            "[{}: {}, {}],",
            entry.symbol.to_string(),
            entry.volume.input,
            entry.volume.output
        );
    }
    s += &format!("}}");
    s
}

/// Registers the two test assets to ALICE and the test pool over them with
/// fees (30, 10) and empty reserves, as the chain's genesis would.
fn setup(dex: &mut Dex) {
    let alice = fs("ALICE");
    assert!(dex
        .register_asset(&alice, &symbol1(), &fs("dot"), 18, true, true, None, 0)
        .is_ok());
    assert!(dex
        .register_asset(&alice, &symbol2(), &fs("ksm"), 18, true, true, None, 0)
        .is_ok());
    let symbol_data = vec![
        SymbolAmount { symbol: symbol1(), amount: 0 },
        SymbolAmount { symbol: symbol2(), amount: 0 },
    ];
    assert!(dex
        .register_pool(&alice, &pool_amm(), 30, 10, &symbol_data, None)
        .is_ok());
}

fn fund(dex: &mut Dex, who: &FixedString, amount1: u128, amount2: u128) {
    let alice = fs("ALICE");
    assert!(dex.mint_asset(&alice, &symbol1(), amount1).is_ok());
    assert!(dex.mint_asset(&alice, &symbol2(), amount2).is_ok());
    assert!(dex.transfer_asset(&alice, &symbol1(), who, amount1).is_ok());
    assert!(dex.transfer_asset(&alice, &symbol2(), who, amount2).is_ok());
}

fn test_add_liquidity(dex: &mut Dex, who: &FixedString, balance1: u128, balance2: u128) {
    let amounts = vec![
        SymbolAmount { symbol: symbol1(), amount: balance1 },
        SymbolAmount { symbol: symbol2(), amount: balance2 },
    ];
    assert!(dex.add_liquidity_to_pool(who, &pool_amm(), &amounts).is_ok());
}

#[test]
fn test_register_pool() {
    let mut dex = Dex::new();
    let alice = fs("ALICE");
    setup(&mut dex);
    let symbol_data = vec![
        SymbolAmount { symbol: symbol1(), amount: 0 },
        SymbolAmount { symbol: symbol2(), amount: 0 },
    ];
    assert_eq!(
        dex.register_pool(&alice, &pool_amm(), 30, 10, &symbol_data, None),
        Err(Error::PoolAlreadyExists)
    );
    assert!(dex.unregister_pool(&alice, &pool_amm()).is_ok());
    assert!(dex
        .register_pool(&alice, &pool_amm(), 30, 10, &symbol_data, None)
        .is_ok());
}

#[test]
fn test_liquidity() {
    let mut dex = Dex::new();
    let bob = fs("BOB");
    setup(&mut dex);
    fund(&mut dex, &bob, 100, 30);
    test_add_liquidity(&mut dex, &bob, 100, 30);

    let shares = dex.share_balance_of(&bob, &pool_amm());
    let total_shares = dex.share_total_balance(&pool_amm());
    assert_eq!(shares, INIT_SHARES_SUPPLY);
    assert_eq!(total_shares, INIT_SHARES_SUPPLY);
    let _ = symbol_data_to_string(&dex.get_symbol_data(&pool_amm()));

    let amounts = vec![
        SymbolAmount { symbol: symbol1(), amount: 5 },
        SymbolAmount { symbol: symbol2(), amount: 1 },
    ];
    assert!(dex
        .remove_liquidity_from_pool(&bob, &pool_amm(), shares / 10, &amounts)
        .is_ok());

    let shares = dex.share_balance_of(&bob, &pool_amm());
    let _ = symbol_data_to_string(&dex.get_symbol_data(&pool_amm()));
    assert!(dex
        .remove_liquidity_from_pool(&bob, &pool_amm(), shares, &amounts)
        .is_ok());

    assert_eq!(dex.share_balance_of(&bob, &pool_amm()), 0);
    assert_eq!(dex.share_total_balance(&pool_amm()), 0);
}

#[test]
fn test_swap() {
    let mut dex = Dex::new();
    let bob = fs("BOB");
    setup(&mut dex);
    fund(&mut dex, &bob, 200, 60);
    test_add_liquidity(&mut dex, &bob, 100, 30);

    assert_eq!(dex.free_balance(&symbol1(), &bob), Ok(100));
    assert_eq!(dex.free_balance(&symbol2(), &bob), Ok(30));

    let expected_asset_out1 = dex.get_swap_return_asset(&pool_amm(), &symbol2(), 10, &symbol1());
    assert!(dex
        .swap_asset(&bob, &pool_amm(), &symbol2(), 10, &symbol1(), 1)
        .is_ok());

    assert_eq!(
        dex.free_balance(&symbol1(), &bob),
        Ok(100 + expected_asset_out1)
    );
    assert_eq!(dex.free_balance(&symbol2(), &bob), Ok(30 - 10));

    let expected_asset_out2 = dex.get_swap_return_asset(&pool_amm(), &symbol2(), 10, &symbol1());
    assert!(expected_asset_out2 > 0);
}

#[test]
fn test_swap_and_shares() {
    let mut dex = Dex::new();
    let alice = fs("ALICE");
    let bob = fs("BOB");
    setup(&mut dex);
    assert!(dex.mint_asset(&alice, &symbol1(), 1400).is_ok());
    assert!(dex.mint_asset(&alice, &symbol2(), 870).is_ok());
    assert!(dex.transfer_asset(&alice, &symbol1(), &bob, 100).is_ok());
    assert!(dex.transfer_asset(&alice, &symbol2(), &bob, 40).is_ok());
    test_add_liquidity(&mut dex, &alice, 1000, 800);
    test_add_liquidity(&mut dex, &bob, 100, 30);

    let _ = dex.share_balance_of(&alice, &pool_amm());
    let _ = dex.share_total_balance(&pool_amm());
    let _ = symbol_data_to_string(&dex.get_symbol_data(&pool_amm()));
    let _ = volume_data_to_string(&dex.get_volume_data(&pool_amm()));

    assert!(dex
        .swap_asset(&alice, &pool_amm(), &symbol1(), 300, &symbol2(), 1)
        .is_ok());
    let _ = dex.share_balance_of(&alice, &pool_amm());
    let _ = symbol_data_to_string(&dex.get_symbol_data(&pool_amm()));
    let _ = volume_data_to_string(&dex.get_volume_data(&pool_amm()));

    assert!(dex
        .swap_asset(&bob, &pool_amm(), &symbol2(), 10, &symbol1(), 1)
        .is_ok());
    let _ = symbol_data_to_string(&dex.get_symbol_data(&pool_amm()));
    let _ = volume_data_to_string(&dex.get_volume_data(&pool_amm()));
    // conservation of shares: the holdings sum to the recorded total supply
    let alice_shares = dex.share_balance_of(&alice, &pool_amm());
    let bob_shares = dex.share_balance_of(&bob, &pool_amm());
    assert_eq!(
        alice_shares + bob_shares,
        dex.share_total_balance(&pool_amm())
    );
}

#[test]
fn test_pool_validation_errors() {
    let mut dex = Dex::new();
    let alice = fs("ALICE");
    let bob = fs("BOB");
    assert!(dex
        .register_asset(&alice, &symbol1(), &fs("dot"), 18, true, true, None, 100)
        .is_ok());
    let one = vec![SymbolAmount { symbol: symbol1(), amount: 0 }];
    assert_eq!(
        dex.register_pool(&alice, &fs("_bad"), 30, 10, &one, None),
        Err(Error::InvalidPoolId)
    );
    assert_eq!(
        dex.register_pool(&alice, &fs("pool"), 10000, 10, &one, None),
        Err(Error::TooLargeFee)
    );
    assert_eq!(
        dex.register_pool(&alice, &fs("pool"), 30, 31, &one, None),
        Err(Error::TooLargeFee)
    );
    assert_eq!(
        dex.register_pool(&alice, &fs("pool"), 30, 10, &Vec::new(), None),
        Err(Error::EmptySymbols)
    );
    let mut many = Vec::new();
    for i in 0..101u32 {
        many.push(SymbolAmount { symbol: fs(&format!("S{}x", i)), amount: 0 });
    }
    assert_eq!(
        dex.register_pool(&alice, &fs("pool"), 30, 10, &many, None),
        Err(Error::TooManySymbols)
    );
    let missing = vec![SymbolAmount { symbol: symbol2(), amount: 0 }];
    assert_eq!(
        dex.register_pool(&alice, &fs("pool"), 30, 10, &missing, None),
        Err(Error::AssetNotExists)
    );
    let empty_sym = vec![SymbolAmount { symbol: fs(""), amount: 0 }];
    assert_eq!(
        dex.register_pool(&alice, &fs("pool"), 30, 10, &empty_sym, None),
        Err(Error::InvalidAssetSymbol)
    );
    // a positive initial amount is deposited from the issuer's wallet
    let seeded = vec![SymbolAmount { symbol: symbol1(), amount: 3 }];
    assert!(dex.register_pool(&alice, &fs("pool"), 30, 10, &seeded, None).is_ok());
    assert_eq!(dex.free_balance(&symbol1(), &alice), Ok(97));
    assert_eq!(dex.share_total_balance(&fs("pool")), INIT_SHARES_SUPPLY);
    // liquidity errors
    assert_eq!(
        dex.add_liquidity_to_pool(&alice, &fs("nopool"), &seeded),
        Err(Error::PoolNotExists)
    );
    assert_eq!(
        dex.add_liquidity_to_pool(&alice, &fs("pool"), &Vec::new()),
        Err(Error::EmptySymbols)
    );
    let zero = vec![SymbolAmount { symbol: symbol1(), amount: 0 }];
    assert_eq!(
        dex.add_liquidity_to_pool(&alice, &fs("pool"), &zero),
        Err(Error::InvalidBalance)
    );
    assert!(dex
        .register_asset(&alice, &symbol2(), &fs("ksm"), 18, true, true, None, 10)
        .is_ok());
    let not_pooled = vec![SymbolAmount { symbol: symbol2(), amount: 5 }];
    assert_eq!(
        dex.add_liquidity_to_pool(&alice, &fs("pool"), &not_pooled),
        Err(Error::SymbolNotExistsInPool)
    );
    assert_eq!(
        dex.add_liquidity_to_pool(&bob, &fs("pool"), &seeded),
        Err(Error::InsufficientBalance)
    );
    // a too-small deposit into a deep pool rounds to nothing
    let tiny = vec![SymbolAmount { symbol: symbol1(), amount: 1 }];
    assert_eq!(
        dex.add_liquidity_to_pool(&alice, &fs("pool"), &tiny),
        Err(Error::ZeroAmount)
    );
    // share errors
    assert_eq!(
        dex.remove_liquidity_from_pool(&bob, &fs("pool"), 1, &Vec::new()),
        Err(Error::NoEnoughShares)
    );
    let greedy = vec![SymbolAmount { symbol: symbol1(), amount: 4 }];
    assert_eq!(
        dex.remove_liquidity_from_pool(&alice, &fs("pool"), INIT_SHARES_SUPPLY, &greedy),
        Err(Error::TooLessSharesAmount)
    );
    assert_eq!(
        dex.unregister_pool(&alice, &fs("pool")),
        Err(Error::HasRemainingShares)
    );
    assert_eq!(
        dex.unregister_pool(&bob, &pool_amm()),
        Err(Error::PoolNotExists)
    );
    assert_eq!(dex.get_pool_owner(&fs("pool")), Some(alice));
    assert!(dex.ensure_pool_exists(&fs("pool")).is_ok());
    assert_eq!(dex.get_total_fee(&fs("pool")), 30);
    assert_eq!(dex.get_all_symbols(&fs("pool")), vec![symbol1()]);
}

#[test]
fn test_swap_slippage_and_volume() {
    let mut dex = Dex::new();
    let bob = fs("BOB");
    setup(&mut dex);
    fund(&mut dex, &bob, 200, 60);
    test_add_liquidity(&mut dex, &bob, 100, 30);
    // the quoted return is below the requested minimum
    assert_eq!(
        dex.swap_asset(&bob, &pool_amm(), &symbol2(), 10, &symbol1(), 25),
        Err(Error::NoEnoughSwapAmount)
    );
    // the caller cannot pay the input
    assert_eq!(
        dex.swap_asset(&bob, &pool_amm(), &symbol2(), 31, &symbol1(), 1),
        Err(Error::InsufficientBalance)
    );
    // the square-root product invariant never shrinks across a swap
    let before = dex.get_symbol_data(&pool_amm());
    let prev_inv: u128 = before
        .iter()
        .map(|e| polkaexchange::math::integer_sqrt(e.amount))
        .product();
    assert!(dex
        .swap_asset(&bob, &pool_amm(), &symbol2(), 10, &symbol1(), 1)
        .is_ok());
    let after = dex.get_symbol_data(&pool_amm());
    let new_inv: u128 = after
        .iter()
        .map(|e| polkaexchange::math::integer_sqrt(e.amount))
        .product();
    assert!(new_inv >= prev_inv);
    let volumes = dex.get_volume_data(&pool_amm());
    let mut saw_in = false;
    let mut saw_out = false;
    for v in &volumes {
        if v.symbol == symbol2() {
            assert_eq!(v.volume.input, 10);
            saw_in = true;
        }
        if v.symbol == symbol1() {
            assert_eq!(v.volume.output, 24);
            saw_out = true;
        }
    }
    assert!(saw_in && saw_out);
}
