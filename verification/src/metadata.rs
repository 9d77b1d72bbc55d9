//! Record types stored per asset, pool and NFT token.

use vstd::prelude::*;
use vstd::string::StrSliceExecFns;
use vstd::string::StringSliceAdditionalSpecFns;
use crate::primitives::{AccountId, AssetName, AssetSymbol, Balance, BalancePrecision, FixedString, PoolId, StdString, spec_fixed_from_bytes};

verus! {

/// The default number of decimal places of an asset.
pub const DEFAULT_BALANCE_PRECISION: BalancePrecision = 18;

/// The largest number of decimal places an asset may declare.
pub const MAX_PRECISION: u8 = 18;

/// The largest number of symbols a pool may pool.
pub const MAX_NUM_SYMBOLS: usize = 100;

/// The symbol reserved as the platform default.
pub fn default_symbol() -> (r: AssetSymbol)
    ensures
        r@ == spec_fixed_from_bytes("PEX".spec_bytes()),
{
    FixedString::from_const_string("PEX")
}

/// The pool id reserved as the platform default.
pub fn default_pool_id() -> (r: PoolId)
    ensures
        r@ == spec_fixed_from_bytes("ROOT".spec_bytes()),
{
    FixedString::from_const_string("ROOT")
}

/// What is recorded about a registered fungible asset.
#[derive(Clone, PartialEq, Eq, Debug)]
pub struct AssetInfo {
    /// The asset's symbol, its identity.
    pub symbol: AssetSymbol,
    /// The asset's display name; may be empty.
    pub name: AssetName,
    /// Decimal places, at most [`MAX_PRECISION`].
    pub precision: BalancePrecision,
    /// Whether the owner may mint new supply.
    pub is_mintable: bool,
    /// Whether the owner may burn supply.
    pub is_burnable: bool,
    /// Free-form description.
    pub description: Option<StdString>,
}

impl Default for AssetInfo {
    fn default() -> (r: Self)
        ensures
            r.symbol@ == spec_fixed_from_bytes("DEFAULT".spec_bytes()),
            r.name@ == Seq::new(16, |i: int| 0u8),
            r.precision == DEFAULT_BALANCE_PRECISION,
            !r.is_mintable,
            !r.is_burnable,
            r.description is None,
    {
        let name = FixedString([0, 0, 0, 0, 0, 0, 0, 0, 0, 0, 0, 0, 0, 0, 0, 0]);
        proof {
            assert(name@ =~= Seq::new(16, |i: int| 0u8));
        }
        AssetInfo {
            symbol: FixedString::get_default_symbol(),
            name,
            precision: DEFAULT_BALANCE_PRECISION,
            is_mintable: false,
            is_burnable: false,
            description: None,
        }
    }
}

/// Cumulative swap volume of one symbol in a pool.
#[derive(Clone, Copy, PartialEq, Eq, Hash, Debug)]
pub struct SwapVolume {
    /// Total amount ever swapped into the pool under this symbol.
    pub input: u128,
    /// Total amount ever swapped out of the pool under this symbol.
    pub output: u128,
}

impl Default for SwapVolume {
    fn default() -> (r: Self)
        ensures
            r.input == 0,
            r.output == 0,
    {
        SwapVolume { input: 0, output: 0 }
    }
}

/// A pooled reserve: the amount of one symbol a pool holds.
#[derive(Clone, Copy, PartialEq, Eq, Debug)]
pub struct SymbolAmount {
    /// The pooled asset's symbol.
    pub symbol: AssetSymbol,
    /// The pooled amount.
    pub amount: Balance,
}

/// The swap volume recorded for one symbol of a pool.
#[derive(Clone, Copy, PartialEq, Eq, Debug)]
pub struct SymbolVolume {
    /// The pooled asset's symbol.
    pub symbol: AssetSymbol,
    /// The symbol's cumulative volume.
    pub volume: SwapVolume,
}

/// A liquidity-share holding of one account in a pool.
#[derive(Clone, Copy, PartialEq, Eq, Debug)]
pub struct AccountBalance {
    /// The holding account.
    pub account: AccountId,
    /// The held amount.
    pub amount: Balance,
}

/// Per-symbol amounts, keyed by asset symbol.
pub type SymbolData = Vec<SymbolAmount>;

/// Per-account share balances, keyed by account.
pub type SharesData = Vec<AccountBalance>;

/// Per-symbol cumulative swap volumes, keyed by asset symbol.
pub type VolumeData = Vec<SymbolVolume>;

/// What is recorded about a liquidity pool.
#[derive(Clone, PartialEq, Eq, Debug)]
pub struct PoolInfo {
    /// The pool's id.
    pub pid: PoolId,
    /// Total fee on swaps, in units of 1/10000.
    pub total_fee: u32,
    /// The part of the fee minted to the protocol as shares, in units of
    /// 1/10000; at most `total_fee`.
    pub exchange_fee: u32,
    /// Total liquidity shares outstanding; the sum of `shares_data`.
    pub shares_total_supply: Balance,
    /// Each account's share balance.
    pub shares_data: SharesData,
    /// Each pooled symbol's reserve.
    pub symbol_data: SymbolData,
    /// Each pooled symbol's cumulative swap volume.
    pub volume_data: VolumeData,
    /// Free-form description.
    pub description: Option<StdString>,
}

impl Default for PoolInfo {
    fn default() -> (r: Self)
        ensures
            r.pid@ == spec_fixed_from_bytes("ROOT".spec_bytes()),
            r.total_fee == 0,
            r.exchange_fee == 0,
            r.shares_total_supply == 0,
            r.shares_data@.len() == 0,
            r.symbol_data@.len() == 0,
            r.volume_data@.len() == 0,
            r.description is None,
    {
        PoolInfo {
            pid: default_pool_id(),
            total_fee: 0,
            exchange_fee: 0,
            shares_total_supply: 0,
            shares_data: Vec::new(),
            symbol_data: Vec::new(),
            volume_data: Vec::new(),
            description: None,
        }
    }
}

/// Descriptive metadata of an NFT token.
#[derive(Clone, PartialEq, Eq, Debug)]
pub struct TokenMetadata {
    /// Title of the token.
    pub title: Option<StdString>,
    /// Free-form description.
    pub description: Option<StdString>,
    /// URL to associated media.
    pub media: Option<StdString>,
    /// Hash of the content referenced by `media`.
    pub media_hash: Option<StdString>,
    /// Number of copies of this token in existence.
    pub copies: Option<u64>,
    /// When the token was issued.
    pub issued_at: Option<StdString>,
    /// When the token expires.
    pub expires_at: Option<StdString>,
    /// When the token starts being valid.
    pub starts_at: Option<StdString>,
    /// When the token was last updated.
    pub updated_at: Option<StdString>,
    /// Anything extra to store.
    pub extra: Option<StdString>,
    /// URL to an off-chain JSON file with more info.
    pub reference: Option<StdString>,
    /// Hash of the content referenced by `reference`.
    pub reference_hash: Option<StdString>,
}

impl Default for TokenMetadata {
    fn default() -> (r: Self)
        ensures
            r.title matches Some(t) && t.0@ == "not set".spec_bytes(),
            r.copies == Some(1u64),
            r.description is None,
            r.media is None,
            r.media_hash is None,
            r.issued_at is None,
            r.expires_at is None,
            r.starts_at is None,
            r.updated_at is None,
            r.extra is None,
            r.reference is None,
            r.reference_hash is None,
    {
        TokenMetadata {
            title: Some(StdString("not set".as_bytes_vec())),
            description: None,
            media: None,
            media_hash: None,
            copies: Some(1),
            issued_at: None,
            expires_at: None,
            starts_at: None,
            updated_at: None,
            extra: None,
            reference: None,
            reference_hash: None,
        }
    }
}

} // verus!
