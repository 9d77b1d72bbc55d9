use polkaexchange::amm::INIT_SHARES_SUPPLY;
use polkaexchange::errors::Error;
use polkaexchange::metadata::{SymbolAmount, TokenMetadata};
use polkaexchange::primitives::{FixedString, PoolType};
use polkaexchange::state::Dex;

fn fs(s: &str) -> FixedString {
    FixedString::from_string(s)
}

#[test]
fn scenario_register_duplicate() {
    let mut dex = Dex::new();
    let alice = fs("ALICE");
    assert!(dex
        .register_asset(&alice, &fs("DOT"), &fs("polkadot"), 18, true, true, None, 0)
        .is_ok());
    assert_eq!(
        dex.register_asset(&alice, &fs("DOT"), &fs("polkadot"), 18, true, true, None, 0),
        Err(Error::AssetAlreadyExists)
    );
}

#[test]
fn scenario_mint_guard() {
    let mut dex = Dex::new();
    let alice = fs("ALICE");
    let bob = fs("BOB");
    assert!(dex
        .register_asset(&alice, &fs("DOT"), &fs("polkadot"), 18, true, true, None, 0)
        .is_ok());
    assert!(dex.mint_asset(&alice, &fs("DOT"), 100).is_ok());
    assert_eq!(dex.free_balance(&fs("DOT"), &alice), Ok(100));
    assert_eq!(dex.mint_asset(&bob, &fs("DOT"), 10), Err(Error::InvalidOwner));
}

#[test]
fn scenario_nft_transfer() {
    let mut dex = Dex::new();
    let alice = fs("ALICE");
    let bob = fs("BOB");
    let c1 = fs("C1");
    let t1 = fs("T1");
    assert!(dex.create_nft_class(&alice, &c1, Vec::new()).is_ok());
    assert!(dex
        .mint_token(&alice, &c1, &t1, TokenMetadata::default(), Vec::new())
        .is_ok());
    assert!(dex.transfer_token(&alice, &bob, &c1, &t1).is_ok());
    assert!(dex.is_owner(&bob, &c1, &t1));
    assert!(!dex.is_owner(&alice, &c1, &t1));
    assert_eq!(
        dex.transfer_token(&alice, &bob, &c1, &t1),
        Err(Error::InvalidTokenOwner)
    );
}

fn seed_pool(dex: &mut Dex) {
    let alice = fs("ALICE");
    let bob = fs("BOB");
    assert!(dex
        .register_asset(&alice, &fs("DOT"), &fs("polkadot"), 18, true, true, None, 0)
        .is_ok());
    assert!(dex
        .register_asset(&alice, &fs("KSM"), &fs("kusama"), 18, true, true, None, 0)
        .is_ok());
    let symbols = vec![
        SymbolAmount { symbol: fs("DOT"), amount: 0 },
        SymbolAmount { symbol: fs("KSM"), amount: 0 },
    ];
    assert!(dex.register_pool(&alice, &fs("P"), 30, 10, &symbols, None).is_ok());
    assert!(dex.mint_asset(&alice, &fs("DOT"), 100).is_ok());
    assert!(dex.mint_asset(&alice, &fs("KSM"), 30).is_ok());
    assert!(dex.transfer_asset(&alice, &fs("DOT"), &bob, 100).is_ok());
    assert!(dex.transfer_asset(&alice, &fs("KSM"), &bob, 30).is_ok());
    let amounts = vec![
        SymbolAmount { symbol: fs("DOT"), amount: 100 },
        SymbolAmount { symbol: fs("KSM"), amount: 30 },
    ];
    assert!(dex.add_liquidity_to_pool(&bob, &fs("P"), &amounts).is_ok());
}

#[test]
fn scenario_amm_seed() {
    let mut dex = Dex::new();
    seed_pool(&mut dex);
    assert_eq!(dex.share_total_balance(&fs("P")), INIT_SHARES_SUPPLY);
    assert_eq!(dex.share_balance_of(&fs("BOB"), &fs("P")), INIT_SHARES_SUPPLY);
}

#[test]
fn scenario_swap_formula() {
    let mut dex = Dex::new();
    seed_pool(&mut dex);
    // (10 * 9970 * 100) / (10000 * 30 + 10 * 9970) = 9970000 / 399700 = 24
    assert_eq!(
        dex.get_swap_return_asset(&fs("P"), &fs("KSM"), 10, &fs("DOT")),
        24
    );
}

#[test]
fn scenario_farm_ft_reward() {
    let mut dex = Dex::new();
    let alice = fs("ALICE");
    let bob = fs("BOB");
    let eve = fs("EVE");
    dex.set_block_number(1);
    assert!(dex
        .register_asset(&alice, &fs("KSM"), &fs("kusama"), 18, true, true, None, 100)
        .is_ok());
    assert!(dex
        .register_asset(&alice, &fs("DOT"), &fs("polkadot"), 18, true, true, None, 100)
        .is_ok());
    assert!(dex.transfer_asset(&alice, &fs("DOT"), &bob, 50).is_ok());
    assert!(dex.transfer_asset(&alice, &fs("DOT"), &eve, 50).is_ok());
    assert!(dex
        .create_farm(&alice, &fs("F1"), &fs("KSM"), Some(fs("DOT")), None, 10, 2)
        .is_ok());
    assert!(dex.stake_asset(&bob, &fs("F1"), Some(20)).is_ok());
    assert!(dex.stake_asset(&eve, &fs("F1"), Some(20)).is_ok());
    let now = dex.current_block();
    dex.set_block_number(now + 20);
    // 10 * 20 * 20 / 40 * 2 = 200 for each staker
    assert_eq!(dex.update_rewards(&bob, &fs("F1")), Ok(200));
    assert_eq!(dex.update_rewards(&eve, &fs("F1")), Ok(200));
}

#[test]
fn scenario_nft_farm_exclusivity() {
    let mut dex = Dex::new();
    let alice = fs("ALICE");
    let bob = fs("BOB");
    let eve = fs("EVE");
    dex.set_block_number(1);
    assert!(dex
        .register_asset(&alice, &fs("KSM"), &fs("kusama"), 18, true, true, None, 0)
        .is_ok());
    assert!(dex.create_nft_class(&alice, &fs("C1"), Vec::new()).is_ok());
    assert!(dex
        .mint_token(&alice, &fs("C1"), &fs("T1"), TokenMetadata::default(), Vec::new())
        .is_ok());
    assert!(dex.transfer_token(&alice, &bob, &fs("C1"), &fs("T1")).is_ok());
    assert!(dex
        .create_farm(&alice, &fs("F2"), &fs("KSM"), None, Some((fs("C1"), fs("T1"))), 10, 2)
        .is_ok());
    assert!(dex.stake_asset(&bob, &fs("F2"), None).is_ok());
    // a second stake on the farm, from anyone, is rejected
    assert_eq!(
        dex.stake_asset(&eve, &fs("F2"), None),
        Err(Error::NFTFarmerAlreadyInUse)
    );
    assert_eq!(
        dex.stake_asset(&bob, &fs("F2"), None),
        Err(Error::NFTFarmerAlreadyInUse)
    );
    assert_eq!(
        dex.stake_asset(&alice, &fs("F2"), None),
        Err(Error::NFTFarmerAlreadyInUse)
    );
}

#[test]
fn scenario_pool_manager() {
    let mut dex = Dex::new();
    let alice = fs("ALICE");
    assert!(dex
        .register_asset(&alice, &fs("DOT"), &fs("polkadot"), 18, true, true, None, 200)
        .is_ok());
    assert!(dex
        .register_asset(&alice, &fs("KSM"), &fs("kusama"), 18, true, true, None, 60)
        .is_ok());
    let symbols = vec![
        SymbolAmount { symbol: fs("DOT"), amount: 0 },
        SymbolAmount { symbol: fs("KSM"), amount: 0 },
    ];
    assert_eq!(dex.pool_instances(&fs("P")), PoolType::Unset);
    assert_eq!(
        dex.add_liquidity_to_managed_pool(&alice, &fs("P"), &symbols),
        Err(Error::PoolNotExists)
    );
    assert!(dex
        .create_amm_pool(&alice, &fs("P"), 30, 10, &symbols, None)
        .is_ok());
    assert_eq!(dex.pool_instances(&fs("P")), PoolType::AmmPool);
    assert_eq!(
        dex.create_amm_pool(&alice, &fs("P"), 30, 10, &symbols, None),
        Err(Error::PoolAlreadyExists)
    );
    let amounts = vec![
        SymbolAmount { symbol: fs("DOT"), amount: 100 },
        SymbolAmount { symbol: fs("KSM"), amount: 30 },
    ];
    assert!(dex
        .add_liquidity_to_managed_pool(&alice, &fs("P"), &amounts)
        .is_ok());
    assert_eq!(dex.share_total_balance_from_pool(&fs("P")), INIT_SHARES_SUPPLY);
    assert_eq!(
        dex.share_balance_of_pool(&alice, &fs("P")),
        INIT_SHARES_SUPPLY
    );
    assert_eq!(dex.get_total_fee_from_pool(&fs("P")), 30);
    assert_eq!(
        dex.get_swap_return_asset_from_pool(&fs("P"), &fs("KSM"), 10, &fs("DOT")),
        24
    );
    assert!(dex
        .swap_asset_in_pool(&alice, &fs("P"), &fs("KSM"), 10, &fs("DOT"), 1)
        .is_ok());
    let volumes = dex.get_volume_data_from_pool(&fs("P"));
    assert!(volumes.len() >= 1);
    let min_amounts = vec![
        SymbolAmount { symbol: fs("DOT"), amount: 1 },
        SymbolAmount { symbol: fs("KSM"), amount: 1 },
    ];
    let all_shares = dex.share_balance_of_pool(&alice, &fs("P"));
    assert!(dex
        .remove_liquidity_from_managed_pool(&alice, &fs("P"), all_shares, &min_amounts)
        .is_ok());
    assert!(dex.destroy_pool(&alice, &fs("P")).is_ok());
    assert_eq!(
        dex.destroy_pool(&alice, &fs("P")),
        Err(Error::PoolNotExists)
    );
    // the tag outlives the pool, so the id cannot be reused
    assert_eq!(dex.pool_instances(&fs("P")), PoolType::AmmPool);
    assert_eq!(
        dex.create_amm_pool(&alice, &fs("P"), 30, 10, &symbols, None),
        Err(Error::PoolAlreadyExists)
    );
}
