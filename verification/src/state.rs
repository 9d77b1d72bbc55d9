//! The exchange state: one value holding every module's records.

use vstd::prelude::*;
use crate::primitives::{AccountId, AssetSymbol, Balance, BlockNumber, FarmId, FixedString, NftClassId, NftTokenId, PoolId, PoolType};
use crate::metadata::{AccountBalance, AssetInfo, PoolInfo, SwapVolume, SymbolAmount, SymbolVolume, TokenMetadata, MAX_NUM_SYMBOLS};
use crate::farming::{FarmEntry, FarmerEntry};
use crate::keyed::{KeyedRec, ValuedRec, first_match, has_key, unique_keys, sum_vals, lemma_first_match_at, lemma_first_match_none};

verus! {

impl KeyedRec for FixedString {
    type K = Seq<u8>;

    open spec fn key(self) -> Seq<u8> {
        self@
    }
}

impl KeyedRec for AccountBalance {
    type K = Seq<u8>;

    open spec fn key(self) -> Seq<u8> {
        self.account@
    }
}

impl ValuedRec for AccountBalance {
    open spec fn val(self) -> int {
        self.amount as int
    }
}

impl KeyedRec for SymbolAmount {
    type K = Seq<u8>;

    open spec fn key(self) -> Seq<u8> {
        self.symbol@
    }
}

impl KeyedRec for SymbolVolume {
    type K = Seq<u8>;

    open spec fn key(self) -> Seq<u8> {
        self.symbol@
    }
}

/// A registered asset: its owner and its record, keyed by symbol.
#[derive(Clone, PartialEq, Eq, Debug)]
pub struct AssetEntry {
    /// The asset's symbol.
    pub symbol: AssetSymbol,
    /// The asset's owner, the only account allowed to mint or burn.
    pub owner: AccountId,
    /// The asset's record.
    pub info: AssetInfo,
}

impl KeyedRec for AssetEntry {
    type K = Seq<u8>;

    open spec fn key(self) -> Seq<u8> {
        self.symbol@
    }
}

/// A registration gate set by the chain root, keyed by symbol.
#[derive(Clone, Copy, PartialEq, Eq, Debug)]
pub struct PermissionEntry {
    /// The gated symbol.
    pub symbol: AssetSymbol,
    /// Whether registering the symbol is allowed.
    pub allow: bool,
}

impl KeyedRec for PermissionEntry {
    type K = Seq<u8>;

    open spec fn key(self) -> Seq<u8> {
        self.symbol@
    }
}

/// The balance ledger of one asset: total issuance and per-account balances.
#[derive(Clone, PartialEq, Eq, Debug)]
pub struct SymbolLedger {
    /// The asset's symbol.
    pub symbol: AssetSymbol,
    /// Total supply in circulation; equals the sum of `accounts`.
    pub issuance: Balance,
    /// Each account's free balance; accounts absent hold zero.
    pub accounts: Vec<AccountBalance>,
}

impl KeyedRec for SymbolLedger {
    type K = Seq<u8>;

    open spec fn key(self) -> Seq<u8> {
        self.symbol@
    }
}

/// An NFT class: its owner, an opaque data blob, and its token ids.
#[derive(Clone, PartialEq, Eq, Debug)]
pub struct NftClass {
    /// The class's owner.
    pub owner: AccountId,
    /// Opaque data attached at creation.
    pub data: Vec<u8>,
    /// The ids of the tokens minted in this class.
    pub tokens: Vec<NftTokenId>,
}

/// An NFT class, keyed by class id.
#[derive(Clone, PartialEq, Eq, Debug)]
pub struct ClassEntry {
    /// The class's id.
    pub class_id: NftClassId,
    /// The class's record.
    pub class: NftClass,
}

impl KeyedRec for ClassEntry {
    type K = Seq<u8>;

    open spec fn key(self) -> Seq<u8> {
        self.class_id@
    }
}

/// What is recorded about one NFT token.
#[derive(Clone, PartialEq, Eq, Debug)]
pub struct TokenInfo {
    /// The token's current owner.
    pub owner: AccountId,
    /// Descriptive metadata.
    pub metadata: TokenMetadata,
    /// Opaque data attached at mint.
    pub data: Vec<u8>,
}

/// An NFT token, keyed globally by token id.
#[derive(Clone, PartialEq, Eq, Debug)]
pub struct TokenEntry {
    /// The token's id, unique across all classes.
    pub token_id: NftTokenId,
    /// The class the token was minted in.
    pub class_id: NftClassId,
    /// The token's record.
    pub info: TokenInfo,
}

impl KeyedRec for TokenEntry {
    type K = Seq<u8>;

    open spec fn key(self) -> Seq<u8> {
        self.token_id@
    }
}

/// An entry of the NFT owner index, keyed by account, class and token.
#[derive(Clone, Copy, PartialEq, Eq, Debug)]
pub struct OwnerIndexEntry {
    /// The owning account.
    pub account: AccountId,
    /// The owned token's class.
    pub class_id: NftClassId,
    /// The owned token.
    pub token_id: NftTokenId,
}

impl KeyedRec for OwnerIndexEntry {
    type K = (Seq<u8>, Seq<u8>, Seq<u8>);

    open spec fn key(self) -> (Seq<u8>, Seq<u8>, Seq<u8>) {
        (self.account@, self.class_id@, self.token_id@)
    }
}

/// A liquidity pool: its owner and its record, keyed by pool id.
#[derive(Clone, PartialEq, Eq, Debug)]
pub struct PoolEntry {
    /// The pool's id.
    pub pid: PoolId,
    /// The account that registered the pool.
    pub owner: AccountId,
    /// The pool's record.
    pub info: PoolInfo,
}

impl KeyedRec for PoolEntry {
    type K = Seq<u8>;

    open spec fn key(self) -> Seq<u8> {
        self.pid@
    }
}

/// The pool manager's kind tag for a pool id.
#[derive(Clone, Copy, PartialEq, Eq, Debug)]
pub struct PoolKindEntry {
    /// The tagged pool id.
    pub pid: PoolId,
    /// The recorded kind.
    pub kind: PoolType,
}

impl KeyedRec for PoolKindEntry {
    type K = Seq<u8>;

    open spec fn key(self) -> Seq<u8> {
        self.pid@
    }
}

/// The whole exchange state.
///
/// Every operation of the library is a method on this type.  A failed call
/// returns its error and leaves the state exactly as it was.
#[derive(Clone, PartialEq, Eq, Debug)]
pub struct Dex {
    /// Registered assets, keyed by symbol.
    pub assets: Vec<AssetEntry>,
    /// Root-set registration gates, keyed by symbol.
    pub permissions: Vec<PermissionEntry>,
    /// The balance ledger, keyed by symbol.
    pub ledger: Vec<SymbolLedger>,
    /// NFT classes, keyed by class id.
    pub nft_classes: Vec<ClassEntry>,
    /// NFT tokens, keyed globally by token id.
    pub nft_tokens: Vec<TokenEntry>,
    /// The NFT owner index, keyed by account, class and token.
    pub nft_accounts: Vec<OwnerIndexEntry>,
    /// Liquidity pools, keyed by pool id.
    pub pools: Vec<PoolEntry>,
    /// The pool manager's kind tags, keyed by pool id.
    pub pool_kinds: Vec<PoolKindEntry>,
    /// Farms, keyed by farm id.
    pub farms: Vec<FarmEntry>,
    /// Stake records, keyed by farm id and account.
    pub farmers: Vec<FarmerEntry>,
    /// The current block height, supplied by the chain.
    pub block_number: BlockNumber,
}

// ---------------------------------------------------------------------------
// Observations: how the state reads as lookup structures.
// ---------------------------------------------------------------------------

/// The registered asset with symbol `sym`, if any.
pub open spec fn spec_asset(d: Dex, sym: Seq<u8>) -> Option<AssetEntry> {
    first_match(d.assets@, sym)
}

/// Whether an asset with symbol `sym` is registered.
pub open spec fn spec_asset_exists(d: Dex, sym: Seq<u8>) -> bool {
    spec_asset(d, sym) is Some
}

/// The registration gate recorded for `sym`, if any.
pub open spec fn spec_permission(d: Dex, sym: Seq<u8>) -> Option<PermissionEntry> {
    first_match(d.permissions@, sym)
}

/// The ledger of symbol `sym`, if any.
pub open spec fn spec_ledger(d: Dex, sym: Seq<u8>) -> Option<SymbolLedger> {
    first_match(d.ledger@, sym)
}

/// The total issuance of symbol `sym`; zero when no ledger exists.
pub open spec fn spec_issuance(d: Dex, sym: Seq<u8>) -> Balance {
    match spec_ledger(d, sym) {
        Some(l) => l.issuance,
        None => 0,
    }
}

/// The free balance of `who` in symbol `sym`; zero when absent.
pub open spec fn spec_balance(d: Dex, sym: Seq<u8>, who: Seq<u8>) -> Balance {
    match spec_ledger(d, sym) {
        Some(l) => match first_match(l.accounts@, who) {
            Some(ab) => ab.amount,
            None => 0,
        },
        None => 0,
    }
}

/// The NFT class with id `cid`, if any.
pub open spec fn spec_class(d: Dex, cid: Seq<u8>) -> Option<ClassEntry> {
    first_match(d.nft_classes@, cid)
}

/// The NFT token with id `tid`, if any.
pub open spec fn spec_token(d: Dex, tid: Seq<u8>) -> Option<TokenEntry> {
    first_match(d.nft_tokens@, tid)
}

/// Whether the owner index holds `(who, (cid, tid))`.
pub open spec fn spec_owner_index(d: Dex, who: Seq<u8>, cid: Seq<u8>, tid: Seq<u8>) -> bool {
    has_key(d.nft_accounts@, (who, cid, tid))
}

/// The pool with id `pid`, if any.
pub open spec fn spec_pool(d: Dex, pid: Seq<u8>) -> Option<PoolEntry> {
    first_match(d.pools@, pid)
}

/// The pooled reserve of symbol `sym` in pool record `info`; zero when the
/// symbol is not pooled.
pub open spec fn spec_reserve(info: PoolInfo, sym: Seq<u8>) -> Balance {
    match first_match(info.symbol_data@, sym) {
        Some(sa) => sa.amount,
        None => 0,
    }
}

/// Whether pool record `info` pools symbol `sym`.
pub open spec fn spec_pool_has_symbol(info: PoolInfo, sym: Seq<u8>) -> bool {
    has_key(info.symbol_data@, sym)
}

/// The share balance of `who` in pool record `info`; zero when absent.
pub open spec fn spec_shares(info: PoolInfo, who: Seq<u8>) -> Balance {
    match first_match(info.shares_data@, who) {
        Some(ab) => ab.amount,
        None => 0,
    }
}

/// The cumulative swap volume of symbol `sym` in pool record `info`.
pub open spec fn spec_volume(info: PoolInfo, sym: Seq<u8>) -> SwapVolume {
    match first_match(info.volume_data@, sym) {
        Some(sv) => sv.volume,
        None => SwapVolume { input: 0, output: 0 },
    }
}

/// The kind tag recorded for pool id `pid`; `Unset` when none is.
pub open spec fn spec_pool_kind(d: Dex, pid: Seq<u8>) -> PoolType {
    match first_match(d.pool_kinds@, pid) {
        Some(e) => e.kind,
        None => PoolType::Unset,
    }
}

/// The farm with id `fid`, if any.
pub open spec fn spec_farm(d: Dex, fid: Seq<u8>) -> Option<FarmEntry> {
    first_match(d.farms@, fid)
}

/// The stake record of `who` in farm `fid`, if any.
pub open spec fn spec_farmer(d: Dex, fid: Seq<u8>, who: Seq<u8>) -> Option<FarmerEntry> {
    first_match(d.farmers@, (fid, who))
}

// ---------------------------------------------------------------------------
// Well-formedness.
// ---------------------------------------------------------------------------

/// A well-formed per-symbol ledger: distinct accounts whose balances sum to
/// the recorded issuance.
pub open spec fn wf_symbol_ledger(l: SymbolLedger) -> bool {
    &&& unique_keys(l.accounts@)
    &&& l.issuance as int == sum_vals(l.accounts@)
}

/// A well-formed pool record: fee bounds, distinct keys, a bounded symbol
/// set, and shares that sum to the recorded total supply.
pub open spec fn wf_pool_info(info: PoolInfo) -> bool {
    &&& info.exchange_fee <= info.total_fee < 10000
    &&& unique_keys(info.shares_data@)
    &&& unique_keys(info.symbol_data@)
    &&& unique_keys(info.volume_data@)
    &&& 1 <= info.symbol_data@.len() <= MAX_NUM_SYMBOLS
    &&& info.shares_total_supply as int == sum_vals(info.shares_data@)
}

/// Well-formedness of the asset registry and ledger.
pub open spec fn wf_assets(d: Dex) -> bool {
    &&& unique_keys(d.assets@)
    &&& unique_keys(d.permissions@)
    &&& unique_keys(d.ledger@)
    &&& forall|i: int| 0 <= i < d.ledger@.len() ==> wf_symbol_ledger(#[trigger] d.ledger@[i])
    &&& forall|i: int|
        0 <= i < d.ledger@.len() ==> spec_asset_exists(d, (#[trigger] d.ledger@[i]).symbol@)
}

/// Well-formedness of the NFT store: distinct keys, every token linked to
/// the class that lists it, and the owner index in step with token owners.
pub open spec fn wf_nft(d: Dex) -> bool {
    &&& unique_keys(d.nft_classes@)
    &&& unique_keys(d.nft_tokens@)
    &&& unique_keys(d.nft_accounts@)
    &&& forall|i: int|
        0 <= i < d.nft_classes@.len() ==> unique_keys((#[trigger] d.nft_classes@[i]).class.tokens@)
    // every token record points at an existing class that lists it
    &&& forall|i: int|
        0 <= i < d.nft_tokens@.len() ==> {
            let t = #[trigger] d.nft_tokens@[i];
            spec_class(d, t.class_id@) matches Some(c) && has_key(c.class.tokens@, t.token_id@)
        }
    // every listed token id has a token record naming that class
    &&& forall|i: int, j: int|
        0 <= i < d.nft_classes@.len() && 0 <= j < d.nft_classes@[i].class.tokens@.len() ==> {
            let c = d.nft_classes@[i];
            spec_token(d, (#[trigger] d.nft_classes@[i].class.tokens@[j])@) matches Some(t)
                && t.class_id@ == c.class_id@
        }
    // every index entry names a token owned by that account in that class
    &&& forall|i: int|
        0 <= i < d.nft_accounts@.len() ==> {
            let a = #[trigger] d.nft_accounts@[i];
            spec_token(d, a.token_id@) matches Some(t) && t.info.owner@ == a.account@
                && t.class_id@ == a.class_id@
        }
    // every token has its index entry
    &&& forall|i: int|
        0 <= i < d.nft_tokens@.len() ==> {
            let t = #[trigger] d.nft_tokens@[i];
            spec_owner_index(d, t.info.owner@, t.class_id@, t.token_id@)
        }
}

/// Well-formedness of the pool store.
pub open spec fn wf_pools(d: Dex) -> bool {
    &&& unique_keys(d.pools@)
    &&& unique_keys(d.pool_kinds@)
    &&& forall|i: int|
        0 <= i < d.pools@.len() ==> wf_pool_info((#[trigger] d.pools@[i]).info)
    &&& forall|i: int|
        0 <= i < d.pools@.len() ==> (#[trigger] d.pools@[i]).info.pid@ == d.pools@[i].pid@
}

/// Well-formedness of the farming store.
pub open spec fn wf_farming(d: Dex) -> bool {
    &&& unique_keys(d.farms@)
    &&& unique_keys(d.farmers@)
    &&& forall|i: int|
        0 <= i < d.farms@.len() ==> !((#[trigger] d.farms@[i]).farm.stake_token_type is Notset)
    &&& forall|i: int| 0 <= i < d.farms@.len() ==> (#[trigger] d.farms@[i]).farm.reward_weight >= 1
}

impl Dex {
    /// The state invariant: every store is well-formed.
    pub open spec fn wf(self) -> bool {
        &&& wf_assets(self)
        &&& wf_nft(self)
        &&& wf_pools(self)
        &&& wf_farming(self)
    }

    /// A fresh, empty exchange at block zero.
    pub fn new() -> (r: Dex)
        ensures
            r.wf(),
            r.assets@.len() == 0,
            r.permissions@.len() == 0,
            r.ledger@.len() == 0,
            r.nft_classes@.len() == 0,
            r.nft_tokens@.len() == 0,
            r.nft_accounts@.len() == 0,
            r.pools@.len() == 0,
            r.pool_kinds@.len() == 0,
            r.farms@.len() == 0,
            r.farmers@.len() == 0,
            r.block_number == 0,
    {
        Dex {
            assets: Vec::new(),
            permissions: Vec::new(),
            ledger: Vec::new(),
            nft_classes: Vec::new(),
            nft_tokens: Vec::new(),
            nft_accounts: Vec::new(),
            pools: Vec::new(),
            pool_kinds: Vec::new(),
            farms: Vec::new(),
            farmers: Vec::new(),
            block_number: 0,
        }
    }

    /// Records the block height the chain has reached.
    pub fn set_block_number(&mut self, n: BlockNumber)
        ensures
            *final(self) == (Dex { block_number: n, ..*old(self) }),
    {
        self.block_number = n;
    }

    /// The block height last recorded.
    pub fn current_block(&self) -> (r: BlockNumber)
        ensures
            r == self.block_number,
    {
        self.block_number
    }
}

// ---------------------------------------------------------------------------
// Lookup helpers.
// ---------------------------------------------------------------------------

/// Finds the index of the asset with symbol `sym`.
pub(crate) fn find_asset(v: &Vec<AssetEntry>, sym: &AssetSymbol) -> (r: Option<usize>)
    ensures
        match r {
            Some(i) => i < v.len() && v@[i as int].key() == sym@ && first_match(v@, sym@) == Some(v@[i as int]),
            None => first_match::<AssetEntry>(v@, sym@) is None,
        },
{
    let mut i: usize = 0;
    while i < v.len()
        invariant
            i <= v.len(),
            forall|j: int| 0 <= j < i ==> (#[trigger] v@[j].key()) != sym@,
        decreases v.len() - i,
    {
        if v[i].symbol.eq_bytes(sym) {
            proof {
                lemma_first_match_at(v@, i as int, sym@);
            }
            return Some(i);
        }
        i += 1;
    }
    proof {
        lemma_first_match_none(v@, sym@);
    }
    None
}

/// Finds the index of the registration gate for `sym`.
pub(crate) fn find_permission(v: &Vec<PermissionEntry>, sym: &AssetSymbol) -> (r: Option<usize>)
    ensures
        match r {
            Some(i) => i < v.len() && v@[i as int].key() == sym@ && first_match(v@, sym@) == Some(v@[i as int]),
            None => first_match::<PermissionEntry>(v@, sym@) is None,
        },
{
    let mut i: usize = 0;
    while i < v.len()
        invariant
            i <= v.len(),
            forall|j: int| 0 <= j < i ==> (#[trigger] v@[j].key()) != sym@,
        decreases v.len() - i,
    {
        if v[i].symbol.eq_bytes(sym) {
            proof {
                lemma_first_match_at(v@, i as int, sym@);
            }
            return Some(i);
        }
        i += 1;
    }
    proof {
        lemma_first_match_none(v@, sym@);
    }
    None
}

/// Finds the index of the ledger of symbol `sym`.
pub(crate) fn find_ledger(v: &Vec<SymbolLedger>, sym: &AssetSymbol) -> (r: Option<usize>)
    ensures
        match r {
            Some(i) => i < v.len() && v@[i as int].key() == sym@ && first_match(v@, sym@) == Some(v@[i as int]),
            None => first_match::<SymbolLedger>(v@, sym@) is None,
        },
{
    let mut i: usize = 0;
    while i < v.len()
        invariant
            i <= v.len(),
            forall|j: int| 0 <= j < i ==> (#[trigger] v@[j].key()) != sym@,
        decreases v.len() - i,
    {
        if v[i].symbol.eq_bytes(sym) {
            proof {
                lemma_first_match_at(v@, i as int, sym@);
            }
            return Some(i);
        }
        i += 1;
    }
    proof {
        lemma_first_match_none(v@, sym@);
    }
    None
}

/// Finds the index of account `who` in a balance or share list.
pub(crate) fn find_account(v: &Vec<AccountBalance>, who: &AccountId) -> (r: Option<usize>)
    ensures
        match r {
            Some(i) => i < v.len() && v@[i as int].key() == who@ && first_match(v@, who@) == Some(v@[i as int]),
            None => first_match::<AccountBalance>(v@, who@) is None,
        },
{
    let mut i: usize = 0;
    while i < v.len()
        invariant
            i <= v.len(),
            forall|j: int| 0 <= j < i ==> (#[trigger] v@[j].key()) != who@,
        decreases v.len() - i,
    {
        if v[i].account.eq_bytes(who) {
            proof {
                lemma_first_match_at(v@, i as int, who@);
            }
            return Some(i);
        }
        i += 1;
    }
    proof {
        lemma_first_match_none(v@, who@);
    }
    None
}

/// Finds the index of symbol `sym` in a reserve list.
pub(crate) fn find_symbol_amount(v: &Vec<SymbolAmount>, sym: &AssetSymbol) -> (r: Option<usize>)
    ensures
        match r {
            Some(i) => i < v.len() && v@[i as int].key() == sym@ && first_match(v@, sym@) == Some(v@[i as int]),
            None => first_match::<SymbolAmount>(v@, sym@) is None,
        },
{
    let mut i: usize = 0;
    while i < v.len()
        invariant
            i <= v.len(),
            forall|j: int| 0 <= j < i ==> (#[trigger] v@[j].key()) != sym@,
        decreases v.len() - i,
    {
        if v[i].symbol.eq_bytes(sym) {
            proof {
                lemma_first_match_at(v@, i as int, sym@);
            }
            return Some(i);
        }
        i += 1;
    }
    proof {
        lemma_first_match_none(v@, sym@);
    }
    None
}

/// Finds the index of symbol `sym` in a volume list.
pub(crate) fn find_symbol_volume(v: &Vec<SymbolVolume>, sym: &AssetSymbol) -> (r: Option<usize>)
    ensures
        match r {
            Some(i) => i < v.len() && v@[i as int].key() == sym@ && first_match(v@, sym@) == Some(v@[i as int]),
            None => first_match::<SymbolVolume>(v@, sym@) is None,
        },
{
    let mut i: usize = 0;
    while i < v.len()
        invariant
            i <= v.len(),
            forall|j: int| 0 <= j < i ==> (#[trigger] v@[j].key()) != sym@,
        decreases v.len() - i,
    {
        if v[i].symbol.eq_bytes(sym) {
            proof {
                lemma_first_match_at(v@, i as int, sym@);
            }
            return Some(i);
        }
        i += 1;
    }
    proof {
        lemma_first_match_none(v@, sym@);
    }
    None
}

/// Finds the index of the class with id `cid`.
pub(crate) fn find_class(v: &Vec<ClassEntry>, cid: &NftClassId) -> (r: Option<usize>)
    ensures
        match r {
            Some(i) => i < v.len() && v@[i as int].key() == cid@ && first_match(v@, cid@) == Some(v@[i as int]),
            None => first_match::<ClassEntry>(v@, cid@) is None,
        },
{
    let mut i: usize = 0;
    while i < v.len()
        invariant
            i <= v.len(),
            forall|j: int| 0 <= j < i ==> (#[trigger] v@[j].key()) != cid@,
        decreases v.len() - i,
    {
        if v[i].class_id.eq_bytes(cid) {
            proof {
                lemma_first_match_at(v@, i as int, cid@);
            }
            return Some(i);
        }
        i += 1;
    }
    proof {
        lemma_first_match_none(v@, cid@);
    }
    None
}

/// Finds the index of the token with id `tid`.
pub(crate) fn find_token(v: &Vec<TokenEntry>, tid: &NftTokenId) -> (r: Option<usize>)
    ensures
        match r {
            Some(i) => i < v.len() && v@[i as int].key() == tid@ && first_match(v@, tid@) == Some(v@[i as int]),
            None => first_match::<TokenEntry>(v@, tid@) is None,
        },
{
    let mut i: usize = 0;
    while i < v.len()
        invariant
            i <= v.len(),
            forall|j: int| 0 <= j < i ==> (#[trigger] v@[j].key()) != tid@,
        decreases v.len() - i,
    {
        if v[i].token_id.eq_bytes(tid) {
            proof {
                lemma_first_match_at(v@, i as int, tid@);
            }
            return Some(i);
        }
        i += 1;
    }
    proof {
        lemma_first_match_none(v@, tid@);
    }
    None
}

/// Finds the index of token id `tid` in a class's token list.
pub(crate) fn find_token_id(v: &Vec<NftTokenId>, tid: &NftTokenId) -> (r: Option<usize>)
    ensures
        match r {
            Some(i) => i < v.len() && v@[i as int].key() == tid@ && first_match(v@, tid@) == Some(v@[i as int]),
            None => first_match::<NftTokenId>(v@, tid@) is None,
        },
{
    let mut i: usize = 0;
    while i < v.len()
        invariant
            i <= v.len(),
            forall|j: int| 0 <= j < i ==> (#[trigger] v@[j].key()) != tid@,
        decreases v.len() - i,
    {
        if v[i].eq_bytes(tid) {
            proof {
                lemma_first_match_at(v@, i as int, tid@);
            }
            return Some(i);
        }
        i += 1;
    }
    proof {
        lemma_first_match_none(v@, tid@);
    }
    None
}

/// Finds the index of the owner-index entry `(who, (cid, tid))`.
pub(crate) fn find_owner_index(
    v: &Vec<OwnerIndexEntry>,
    who: &AccountId,
    cid: &NftClassId,
    tid: &NftTokenId,
) -> (r: Option<usize>)
    ensures
        match r {
            Some(i) => i < v.len() && v@[i as int].key() == (who@, cid@, tid@) && first_match(v@, (who@, cid@, tid@)) == Some(v@[i as int]),
            None => first_match::<OwnerIndexEntry>(v@, (who@, cid@, tid@)) is None,
        },
{
    let mut i: usize = 0;
    while i < v.len()
        invariant
            i <= v.len(),
            forall|j: int| 0 <= j < i ==> (#[trigger] v@[j].key()) != (who@, cid@, tid@),
        decreases v.len() - i,
    {
        if v[i].account.eq_bytes(who) && v[i].class_id.eq_bytes(cid) && v[i].token_id.eq_bytes(
            tid,
        ) {
            proof {
                lemma_first_match_at(v@, i as int, (who@, cid@, tid@));
            }
            return Some(i);
        }
        i += 1;
    }
    proof {
        lemma_first_match_none(v@, (who@, cid@, tid@));
    }
    None
}

/// Finds the index of the pool with id `pid`.
pub(crate) fn find_pool(v: &Vec<PoolEntry>, pid: &PoolId) -> (r: Option<usize>)
    ensures
        match r {
            Some(i) => i < v.len() && v@[i as int].key() == pid@ && first_match(v@, pid@) == Some(v@[i as int]),
            None => first_match::<PoolEntry>(v@, pid@) is None,
        },
{
    let mut i: usize = 0;
    while i < v.len()
        invariant
            i <= v.len(),
            forall|j: int| 0 <= j < i ==> (#[trigger] v@[j].key()) != pid@,
        decreases v.len() - i,
    {
        if v[i].pid.eq_bytes(pid) {
            proof {
                lemma_first_match_at(v@, i as int, pid@);
            }
            return Some(i);
        }
        i += 1;
    }
    proof {
        lemma_first_match_none(v@, pid@);
    }
    None
}

/// Finds the index of the kind tag for pool id `pid`.
pub(crate) fn find_pool_kind(v: &Vec<PoolKindEntry>, pid: &PoolId) -> (r: Option<usize>)
    ensures
        match r {
            Some(i) => i < v.len() && v@[i as int].key() == pid@ && first_match(v@, pid@) == Some(v@[i as int]),
            None => first_match::<PoolKindEntry>(v@, pid@) is None,
        },
{
    let mut i: usize = 0;
    while i < v.len()
        invariant
            i <= v.len(),
            forall|j: int| 0 <= j < i ==> (#[trigger] v@[j].key()) != pid@,
        decreases v.len() - i,
    {
        if v[i].pid.eq_bytes(pid) {
            proof {
                lemma_first_match_at(v@, i as int, pid@);
            }
            return Some(i);
        }
        i += 1;
    }
    proof {
        lemma_first_match_none(v@, pid@);
    }
    None
}

/// Finds the index of the farm with id `fid`.
pub(crate) fn find_farm(v: &Vec<FarmEntry>, fid: &FarmId) -> (r: Option<usize>)
    ensures
        match r {
            Some(i) => i < v.len() && v@[i as int].key() == fid@ && first_match(v@, fid@) == Some(v@[i as int]),
            None => first_match::<FarmEntry>(v@, fid@) is None,
        },
{
    let mut i: usize = 0;
    while i < v.len()
        invariant
            i <= v.len(),
            forall|j: int| 0 <= j < i ==> (#[trigger] v@[j].key()) != fid@,
        decreases v.len() - i,
    {
        if v[i].farm_id.eq_bytes(fid) {
            proof {
                lemma_first_match_at(v@, i as int, fid@);
            }
            return Some(i);
        }
        i += 1;
    }
    proof {
        lemma_first_match_none(v@, fid@);
    }
    None
}

/// Finds the index of the stake record of `who` in farm `fid`.
pub(crate) fn find_farmer(v: &Vec<FarmerEntry>, fid: &FarmId, who: &AccountId) -> (r: Option<
    usize,
>)
    ensures
        match r {
            Some(i) => i < v.len() && v@[i as int].key() == (fid@, who@) && first_match(v@, (fid@, who@)) == Some(v@[i as int]),
            None => first_match::<FarmerEntry>(v@, (fid@, who@)) is None,
        },
{
    let mut i: usize = 0;
    while i < v.len()
        invariant
            i <= v.len(),
            forall|j: int| 0 <= j < i ==> (#[trigger] v@[j].key()) != (fid@, who@),
        decreases v.len() - i,
    {
        if v[i].farm_id.eq_bytes(fid) && v[i].account.eq_bytes(who) {
            proof {
                lemma_first_match_at(v@, i as int, (fid@, who@));
            }
            return Some(i);
        }
        i += 1;
    }
    proof {
        lemma_first_match_none(v@, (fid@, who@));
    }
    None
}

} // verus!
