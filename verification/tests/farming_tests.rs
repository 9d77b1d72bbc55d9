use polkaexchange::errors::Error;
use polkaexchange::metadata::TokenMetadata;
use polkaexchange::primitives::{AssetSymbol, FarmId, FixedString, NftClassId, NftTokenId};
use polkaexchange::state::Dex;

fn fs(s: &str) -> FixedString {
    FixedString::from_string(s)
}

fn alice() -> FixedString {
    fs("ALICE")
}

fn bob() -> FixedString {
    fs("BOB")
}

fn eve() -> FixedString {
    fs("EVE")
}

fn farm1() -> FarmId {
    FarmId::from_const_string("TEST_FARM1")
}

fn farm2() -> FarmId {
    FarmId::from_const_string("TEST_FARM2")
}

fn shares_token() -> AssetSymbol {
    AssetSymbol::from_const_string("KSM")
}

fn stake_token() -> AssetSymbol {
    AssetSymbol::from_const_string("DOT")
}

fn stake_class() -> NftClassId {
    NftClassId::from_const_string("TEST_CLASS1")
}

fn stake_nft1() -> NftTokenId {
    NftTokenId::from_const_string("NftToken1")
}

fn stake_nft2() -> NftTokenId {
    NftTokenId::from_const_string("NftToken2")
}

fn init_test_env(dex: &mut Dex, shares_init_supply: u128, stake_init_supply: u128) {
    dex.set_block_number(1);
    assert!(dex
        .register_asset(
            &alice(),
            &shares_token(),
            &shares_token(),
            8,
            true,
            true,
            None,
            shares_init_supply,
        )
        .is_ok());
    assert!(dex
        .register_asset(
            &alice(),
            &stake_token(),
            &stake_token(),
            8,
            true,
            true,
            None,
            stake_init_supply,
        )
        .is_ok());
    // two NFTs minted by ALICE
    assert!(dex.create_nft_class(&alice(), &stake_class(), Vec::new()).is_ok());
    assert!(dex
        .mint_token(&alice(), &stake_class(), &stake_nft1(), TokenMetadata::default(), Vec::new())
        .is_ok());
    assert!(dex
        .mint_token(&alice(), &stake_class(), &stake_nft2(), TokenMetadata::default(), Vec::new())
        .is_ok());

    // hand them to BOB and EVE, the users in the tests
    assert!(dex
        .transfer_asset(&alice(), &stake_token(), &bob(), stake_init_supply / 2)
        .is_ok());
    assert!(dex
        .transfer_asset(&alice(), &stake_token(), &eve(), stake_init_supply / 2)
        .is_ok());
    assert!(dex
        .transfer_token(&alice(), &bob(), &stake_class(), &stake_nft1())
        .is_ok());
    assert!(dex
        .transfer_token(&alice(), &eve(), &stake_class(), &stake_nft2())
        .is_ok());

    assert_eq!(
        dex.free_balance(&stake_token(), &bob()),
        Ok(stake_init_supply / 2)
    );
    assert_eq!(
        dex.free_balance(&stake_token(), &eve()),
        Ok(stake_init_supply / 2)
    );
    assert!(dex.is_owner(&bob(), &stake_class(), &stake_nft1()));
    assert!(dex.is_owner(&eve(), &stake_class(), &stake_nft2()));

    assert!(dex
        .create_farm(&alice(), &farm1(), &shares_token(), Some(stake_token()), None, 10, 2)
        .is_ok());
    assert_eq!(
        dex.create_farm(&bob(), &farm1(), &shares_token(), Some(stake_token()), None, 10, 2),
        Err(Error::FarmIdAlreadyExisted)
    );
    assert!(dex
        .create_farm(
            &alice(),
            &farm2(),
            &shares_token(),
            None,
            Some((stake_class(), stake_nft1())),
            10,
            2,
        )
        .is_ok());
    assert_eq!(
        dex.create_farm(
            &bob(),
            &farm2(),
            &shares_token(),
            None,
            Some((stake_class(), stake_nft1())),
            10,
            2,
        ),
        Err(Error::FarmIdAlreadyExisted)
    );
}

fn advance(dex: &mut Dex, blocks: u64) {
    let now = dex.current_block();
    dex.set_block_number(now + blocks);
}

#[test]
fn test_farm() {
    let mut dex = Dex::new();
    init_test_env(&mut dex, 100, 100);

    assert!(dex.destroy_farm(&alice(), &farm1()).is_ok());
    assert_eq!(dex.destroy_farm(&bob(), &farm2()), Err(Error::NoPermission));
    assert!(dex.destroy_farm(&alice(), &farm2()).is_ok());
    assert_eq!(dex.destroy_farm(&alice(), &farm1()), Err(Error::FarmIdNotExisted));
}

#[test]
fn test_ft_stake() {
    let mut dex = Dex::new();
    init_test_env(&mut dex, 100, 100);

    assert!(dex.stake_asset(&bob(), &farm1(), Some(20)).is_ok());
    assert!(dex.stake_asset(&eve(), &farm1(), Some(20)).is_ok());
    advance(&mut dex, 20);
    let mut total_rewards1 = dex.update_rewards(&bob(), &farm1()).unwrap();
    let total_rewards2 = dex.update_rewards(&eve(), &farm1()).unwrap();
    assert_eq!(total_rewards1, 200);
    assert_eq!(total_rewards2, 200);

    assert!(dex.stake_asset(&bob(), &farm1(), Some(10)).is_ok());
    assert_eq!(dex.free_balance(&stake_token(), &bob()), Ok(50 - 30));
    advance(&mut dex, 30);
    total_rewards1 = dex.update_rewards(&bob(), &farm1()).unwrap();
    let _total_rewards2 = dex.update_rewards(&eve(), &farm1()).unwrap();

    // make sure total_rewards > 3
    assert!(dex.claim(&bob(), &farm1(), total_rewards1 - 3).is_ok());
    // shares should land in BOB's wallet
    assert_eq!(
        dex.free_balance(&shares_token(), &bob()),
        Ok(total_rewards1 - 3)
    );
    let remaining_total_rewards = dex.update_rewards(&bob(), &farm1()).unwrap();
    assert_eq!(remaining_total_rewards, 3);
    assert!(dex.claim(&bob(), &farm1(), remaining_total_rewards).is_ok());
    assert_eq!(dex.free_balance(&shares_token(), &bob()), Ok(total_rewards1));
    total_rewards1 = dex.update_rewards(&bob(), &farm1()).unwrap();
    assert_eq!(total_rewards1, 0);
}

#[test]
fn test_ft_unstake() {
    let mut dex = Dex::new();
    init_test_env(&mut dex, 100, 100);

    assert!(dex.stake_asset(&bob(), &farm1(), Some(20)).is_ok());
    assert!(dex.stake_asset(&eve(), &farm1(), Some(20)).is_ok());
    advance(&mut dex, 10);
    assert!(dex.unstake_asset(&bob(), &farm1(), Some(10)).is_ok());
    advance(&mut dex, 10);
    let _total_rewards1 = dex.update_rewards(&bob(), &farm1()).unwrap();
    let _total_rewards2 = dex.update_rewards(&eve(), &farm1()).unwrap();
    assert_eq!(dex.get_farmer_stake_amount(&bob(), &farm1()), Ok(10));
    assert_eq!(dex.get_farm_total_stake_amount(&farm1()), Ok(30));

    assert!(dex.stake_asset(&bob(), &farm1(), Some(10)).is_ok());
    advance(&mut dex, 20);
    let _total_rewards1 = dex.update_rewards(&bob(), &farm1()).unwrap();
    let _total_rewards2 = dex.update_rewards(&eve(), &farm1()).unwrap();

    assert!(dex.unstake_asset(&bob(), &farm1(), Some(5)).is_ok());
    advance(&mut dex, 10);
    let _total_rewards1 = dex.update_rewards(&bob(), &farm1()).unwrap();
    let _total_rewards2 = dex.update_rewards(&eve(), &farm1()).unwrap();

    // false cases
    assert_eq!(
        dex.unstake_asset(&alice(), &farm1(), Some(10)),
        Err(Error::FarmerNotExisted)
    );
    assert_eq!(
        dex.update_rewards(&alice(), &farm1()),
        Err(Error::FarmerNotExisted)
    );
}

#[test]
fn test_nft_stake() {
    let mut dex = Dex::new();
    init_test_env(&mut dex, 100, 100);

    assert_eq!(
        dex.stake_asset(&eve(), &farm2(), None),
        Err(Error::InvalidTokenOwner)
    );

    assert!(!dex.is_owner(&alice(), &stake_class(), &stake_nft1()));
    assert!(dex.stake_asset(&bob(), &farm2(), None).is_ok());
    assert!(dex.is_owner(&alice(), &stake_class(), &stake_nft1()));

    advance(&mut dex, 10);
    let mut total_rewards = dex.update_rewards(&bob(), &farm2()).unwrap();
    assert_eq!(total_rewards, 200);

    advance(&mut dex, 10);
    total_rewards = dex.update_rewards(&bob(), &farm2()).unwrap();
    assert_eq!(total_rewards, 400);
    assert!(dex.claim(&bob(), &farm2(), 0).is_ok());
    let free_balance = dex.free_balance(&shares_token(), &bob()).unwrap();
    assert_eq!(free_balance, total_rewards);
    assert_eq!(dex.update_rewards(&bob(), &farm2()), Ok(0));

    advance(&mut dex, 10);
    total_rewards = dex.update_rewards(&bob(), &farm2()).unwrap();
    assert_eq!(total_rewards, 200);
}

#[test]
fn test_nft_unstake() {
    let mut dex = Dex::new();
    init_test_env(&mut dex, 100, 100);

    assert!(dex.stake_asset(&bob(), &farm2(), None).is_ok());
    advance(&mut dex, 10);
    let total_rewards = dex.update_rewards(&bob(), &farm2()).unwrap();

    assert!(dex.unstake_asset(&bob(), &farm2(), None).is_ok());
    assert!(dex.is_owner(&bob(), &stake_class(), &stake_nft1()));
    assert_eq!(dex.get_farmer_stake_amount(&bob(), &farm2()), Ok(0));
    assert_eq!(dex.get_farm_total_stake_amount(&farm2()), Ok(0));
    assert!(dex.is_farmer_existed(&bob(), &farm2()));

    assert!(dex.claim(&bob(), &farm2(), 0).is_ok());
    assert!(!dex.is_farmer_existed(&bob(), &farm2()));
    let free_balance = dex.free_balance(&shares_token(), &bob()).unwrap();
    assert_eq!(free_balance, total_rewards);

    advance(&mut dex, 10);
    assert_eq!(
        dex.update_rewards(&bob(), &farm2()),
        Err(Error::FarmerNotExisted)
    );
}

#[test]
fn test_farm_validation_errors() {
    let mut dex = Dex::new();
    init_test_env(&mut dex, 100, 100);

    assert_eq!(
        dex.create_farm(&alice(), &fs("F3"), &shares_token(), Some(stake_token()), None, 10, 0),
        Err(Error::ZeroRewardWeight)
    );
    assert_eq!(
        dex.create_farm(&alice(), &fs("F3"), &fs("NONE"), Some(stake_token()), None, 10, 2),
        Err(Error::AssetIdNotFound)
    );
    let fixed = fs("FIXED");
    assert!(dex
        .register_asset(&alice(), &fixed, &fs("fx"), 8, false, false, None, 0)
        .is_ok());
    assert_eq!(
        dex.create_farm(&alice(), &fs("F3"), &fixed, Some(stake_token()), None, 10, 2),
        Err(Error::StakeAssetNotMintable)
    );
    assert_eq!(
        dex.create_farm(&bob(), &fs("F3"), &shares_token(), Some(stake_token()), None, 10, 2),
        Err(Error::StakeAssetNotOwner)
    );
    assert_eq!(
        dex.create_farm(&alice(), &fs("F3"), &shares_token(), Some(fs("NONE")), None, 10, 2),
        Err(Error::AssetIdNotFound)
    );
    assert_eq!(
        dex.create_farm(
            &alice(),
            &fs("F3"),
            &shares_token(),
            None,
            Some((stake_class(), fs("NOTOKEN"))),
            10,
            2,
        ),
        Err(Error::NftTokenNotFound)
    );
    // staking errors
    assert!(dex.stake_asset(&bob(), &farm1(), Some(20)).is_ok());
    assert_eq!(dex.stake_asset(&bob(), &farm1(), None), Err(Error::ZeroStakeAmount));
    assert_eq!(
        dex.stake_asset(&bob(), &fs("NOFARM"), Some(1)),
        Err(Error::FarmIdNotExisted)
    );
    assert_eq!(
        dex.stake_asset(&bob(), &farm1(), Some(1000)),
        Err(Error::NoEnoughBalance)
    );
    assert_eq!(
        dex.unstake_asset(&bob(), &farm1(), Some(21)),
        Err(Error::TooLargeStakeAmount)
    );
    assert_eq!(dex.destroy_farm(&alice(), &farm1()), Err(Error::FarmInStaking));
    // claiming more than accrued
    advance(&mut dex, 1);
    assert_eq!(dex.claim(&bob(), &farm1(), 1000), Err(Error::NoEnoughRewards));
    // a block running backwards is rejected
    dex.set_block_number(0);
    assert_eq!(
        dex.update_rewards(&bob(), &farm1()),
        Err(Error::InvalidLastRewardBlockNumber)
    );
}
