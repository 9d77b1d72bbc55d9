//! The closed set of errors the exchange surfaces.
//!
//! Every failed call returns one of these and leaves the state unchanged.

use vstd::prelude::*;

verus! {

/// Why a call was rejected.
#[derive(Clone, Copy, PartialEq, Eq, Debug)]
pub enum Error {
    // --- fungible assets ---
    /// A root-set gate forbids registering the symbol.
    AssetNotAllowedToRegister,
    /// The symbol is already registered.
    AssetAlreadyExists,
    /// The symbol is not a valid identifier.
    InvalidAssetSymbol,
    /// The name is neither empty nor a valid identifier.
    InvalidAssetName,
    /// The precision exceeds the maximum.
    InvalidPrecision,
    /// The caller does not own the asset.
    InvalidOwner,
    /// No asset is registered under the symbol.
    AssetNotExists,
    /// The asset was registered without mint authority.
    AssetIsNotMintable,
    /// The asset was registered without burn authority.
    AssetIsNotBurnable,
    /// The sender's free balance is below the transferred amount.
    NoEnoughBalance,
    // --- balance ledger ---
    /// A withdrawal exceeds the account's free balance.
    InsufficientBalance,
    /// A checked balance computation overflowed.
    AmountOverflow,
    // --- NFTs ---
    /// The class id is already taken.
    NftClassIdAlreadyExisted,
    /// No class exists under the id.
    NftClassIdNotExisted,
    /// The caller does not own the class.
    NoClassPermission,
    /// The caller does not own the token.
    InvalidTokenOwner,
    /// The owner index does not list the caller for the token.
    NoPermission,
    /// The class still holds tokens.
    CannotDestroyNftClass,
    /// The token id is already taken.
    TokenIdAlreadyExisted,
    /// No token exists under the id.
    TokenIdNotExisted,
    // --- liquidity pools ---
    /// The pool id is not a valid identifier.
    InvalidPoolId,
    /// The pool id is already taken.
    PoolAlreadyExists,
    /// No pool exists under the id.
    PoolNotExists,
    /// The fees are out of bounds.
    TooLargeFee,
    /// The pool would hold more symbols than allowed.
    TooManySymbols,
    /// No symbols were given.
    EmptySymbols,
    /// The pool still has shares outstanding.
    HasRemainingShares,
    /// A pooled symbol names no registered asset.
    SymbolNotExistsInAsset,
    /// A symbol is not pooled by the pool.
    SymbolNotExistsInPool,
    /// A supplied amount is zero.
    InvalidBalance,
    /// A computed deposit rounded down to zero.
    ZeroAmount,
    /// No shares would be minted.
    ZeroShares,
    /// The caller holds fewer shares than requested.
    NoEnoughShares,
    /// A computed withdrawal is below the requested minimum.
    TooLessSharesAmount,
    /// The swap would return less than the requested minimum.
    NoEnoughSwapAmount,
    /// The swap would shrink the pool invariant.
    WrongInvariant,
    // --- farming ---
    /// The staked NFT does not exist.
    NftTokenNotFound,
    /// A named asset id is not registered.
    AssetIdNotFound,
    /// The reward asset was registered without mint authority.
    StakeAssetNotMintable,
    /// The caller does not own the reward asset.
    StakeAssetNotOwner,
    /// The farm id is already taken.
    FarmIdAlreadyExisted,
    /// No farm exists under the id.
    FarmIdNotExisted,
    /// The reward weight is zero.
    ZeroRewardWeight,
    /// The farm still has stake outstanding.
    FarmInStaking,
    /// The caller has no stake record in the farm.
    FarmerNotExisted,
    /// The NFT farm is already occupied by a staker.
    NFTFarmerAlreadyInUse,
    /// The farm's stake target was never set.
    WrongStakeType,
    /// The current block is behind the last reward block.
    InvalidLastRewardBlockNumber,
    /// The unstaked amount exceeds the recorded stake.
    TooLargeStakeAmount,
    /// No stake amount was supplied to a fungible-asset farm.
    ZeroStakeAmount,
    /// The claimed amount exceeds the accrued rewards.
    NoEnoughRewards,
}

} // verus!
