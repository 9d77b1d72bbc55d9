//! Constant-product liquidity pools: registration, liquidity shares, and
//! swaps.

use vstd::prelude::*;
use crate::errors::Error;
use crate::keyed::{first_match, has_key, lemma_first_match_found, lemma_first_match_is_present,
    lemma_first_match_none, lemma_first_match_push, lemma_first_match_remove,
    lemma_first_match_update, lemma_sum_ge_element, lemma_sum_push, lemma_sum_remove,
    lemma_sum_update, sum_vals, unique_keys, KeyedRec, ValuedRec};
use crate::metadata::{AccountBalance, PoolInfo, SwapVolume, SymbolAmount, SymbolVolume,
    MAX_NUM_SYMBOLS};
use crate::primitives::{spec_valid_id, AccountId, AssetSymbol, Balance, PoolId, StdString};
use crate::state::{find_account, find_pool, find_symbol_amount, find_symbol_volume, spec_asset,
    spec_asset_exists, spec_balance, spec_issuance, spec_pool, spec_pool_has_symbol, spec_reserve,
    spec_shares, spec_volume, Dex, PoolEntry};

verus! {

/// Shares minted by the first liquidity deposit into an empty pool.
pub const INIT_SHARES_SUPPLY: u128 = 1_000_000_000_000_000_000_000_000;

/// The denominator against which pool fees are expressed.
pub const FEE_DIVISOR: u32 = 10_000;

/// Whether `new_d` and `old_d` agree on everything but the pool store.
pub open spec fn only_pools_changed(old_d: Dex, new_d: Dex) -> bool {
    &&& new_d.assets == old_d.assets
    &&& new_d.permissions == old_d.permissions
    &&& new_d.ledger == old_d.ledger
    &&& new_d.nft_classes == old_d.nft_classes
    &&& new_d.nft_tokens == old_d.nft_tokens
    &&& new_d.nft_accounts == old_d.nft_accounts
    &&& new_d.pool_kinds == old_d.pool_kinds
    &&& new_d.farms == old_d.farms
    &&& new_d.farmers == old_d.farmers
    &&& new_d.block_number == old_d.block_number
}

/// Lifts the pool-store invariant back to the whole-state invariant after a
/// change that touched nothing but the pool store.
proof fn lemma_wf_after_pools_change(old_d: Dex, new_d: Dex)
    requires
        old_d.wf(),
        only_pools_changed(old_d, new_d),
        unique_keys(new_d.pools@),
        forall|i: int|
            0 <= i < new_d.pools@.len() ==> crate::state::wf_pool_info(
                (#[trigger] new_d.pools@[i]).info,
            ),
        forall|i: int|
            0 <= i < new_d.pools@.len() ==> (#[trigger] new_d.pools@[i]).info.pid@
                == new_d.pools@[i].pid@,
    ensures
        new_d.wf(),
{
    assert forall|i: int| 0 <= i < new_d.ledger@.len() implies crate::state::spec_asset_exists(
        new_d,
        (#[trigger] new_d.ledger@[i]).symbol@,
    ) by {
        assert(crate::state::spec_asset_exists(old_d, old_d.ledger@[i].symbol@));
    }
}

/// Whether `pid` is a valid pool id; the same rule as for asset symbols.
pub fn is_valid_pool_id(pid: &PoolId) -> (r: bool)
    ensures
        r <==> spec_valid_id(pid@),
{
    crate::primitives::is_valid_id(pid)
}

/// The typed pool id of an identifier; the exchange identifies pools by the
/// identifier itself.
pub fn get_pool_id(pid: &PoolId) -> (r: PoolId)
    ensures
        r == *pid,
{
    crate::primitives::FixedString(pid.0)
}

/// The per-symbol validation `register_pool` runs, in list order: a symbol
/// must be non-empty and name a registered asset.
pub open spec fn spec_pool_symbols_check(d: Dex, entries: Seq<SymbolAmount>) -> Result<(), Error>
    decreases entries.len(),
{
    if entries.len() == 0 {
        Ok(())
    } else if entries[0].symbol@[0] == 0 {
        Err(Error::InvalidAssetSymbol)
    } else if !spec_asset_exists(d, entries[0].symbol@) {
        Err(Error::AssetNotExists)
    } else {
        spec_pool_symbols_check(d, entries.drop_first())
    }
}

/// The symbols check passes exactly when every entry passes.
pub proof fn lemma_pool_symbols_check_ok(d: Dex, entries: Seq<SymbolAmount>)
    ensures
        (spec_pool_symbols_check(d, entries) is Ok) <==> (forall|k: int|
            0 <= k < entries.len() ==> (#[trigger] entries[k]).symbol@[0] != 0
                && spec_asset_exists(d, entries[k].symbol@)),
    decreases entries.len(),
{
    if entries.len() > 0 {
        lemma_pool_symbols_check_ok(d, entries.drop_first());
        assert forall|k: int| 0 <= k < entries.drop_first().len() implies entries.drop_first()[k]
            == entries[k + 1] by {}
        if entries[0].symbol@[0] != 0 && spec_asset_exists(d, entries[0].symbol@) {
            if spec_pool_symbols_check(d, entries) is Ok {
                assert forall|k: int|
                    0 <= k < entries.len() implies (#[trigger] entries[k]).symbol@[0] != 0
                        && spec_asset_exists(d, entries[k].symbol@) by {
                    if k >= 1 {
                        assert(entries[k] == entries.drop_first()[k - 1]);
                    }
                }
            }
        }
    }
}

/// Whether `issuer` can cover every positive amount in `entries`.
pub open spec fn spec_covers_positive(d: Dex, issuer: Seq<u8>, entries: Seq<SymbolAmount>) -> bool {
    forall|k: int|
        0 <= k < entries.len() && (#[trigger] entries[k]).amount > 0 ==> spec_balance(
            d,
            entries[k].symbol@,
            issuer,
        ) >= entries[k].amount
}

/// The decision `register_pool` makes, in the order its checks run.
pub open spec fn spec_register_pool_result(
    d: Dex,
    issuer: Seq<u8>,
    pid: Seq<u8>,
    total_fee: u32,
    exchange_fee: u32,
    entries: Seq<SymbolAmount>,
) -> Result<(), Error> {
    if !spec_valid_id(pid) {
        Err(Error::InvalidPoolId)
    } else if spec_pool(d, pid) is Some {
        Err(Error::PoolAlreadyExists)
    } else if !(total_fee < 10000 && exchange_fee <= total_fee) {
        Err(Error::TooLargeFee)
    } else if entries.len() == 0 {
        Err(Error::EmptySymbols)
    } else if entries.len() > MAX_NUM_SYMBOLS {
        Err(Error::TooManySymbols)
    } else if spec_pool_symbols_check(d, entries) is Err {
        spec_pool_symbols_check(d, entries)
    } else if !spec_covers_positive(d, issuer, entries) {
        Err(Error::InsufficientBalance)
    } else {
        Ok(())
    }
}

impl Dex {
    /// The owner of pool `pid`, if the pool exists.
    pub fn get_pool_owner(&self, pid: &PoolId) -> (r: Option<AccountId>)
        ensures
            match r {
                Some(a) => spec_pool(*self, pid@) matches Some(p) && p.owner == a,
                None => spec_pool(*self, pid@) is None,
            },
    {
        match find_pool(&self.pools, pid) {
            None => None,
            Some(i) => Some(self.pools[i].owner),
        }
    }

    /// Fails with `PoolNotExists` unless pool `pid` exists.
    pub fn ensure_pool_exists(&self, pid: &PoolId) -> (r: Result<(), Error>)
        ensures
            r is Ok <==> spec_pool(*self, pid@) is Some,
            r is Err ==> r == Err::<(), Error>(Error::PoolNotExists),
    {
        if find_pool(&self.pools, pid).is_none() {
            Err(Error::PoolNotExists)
        } else {
            Ok(())
        }
    }

    /// The share balance of `who` in pool `pid`; zero when the pool does not
    /// exist.
    pub fn share_balance_of(&self, who: &AccountId, pid: &PoolId) -> (r: Balance)
        ensures
            r == (match spec_pool(*self, pid@) {
                Some(p) => spec_shares(p.info, who@),
                None => 0,
            }),
    {
        match find_pool(&self.pools, pid) {
            None => 0,
            Some(i) => match find_account(&self.pools[i].info.shares_data, who) {
                None => 0,
                Some(j) => self.pools[i].info.shares_data[j].amount,
            },
        }
    }

    /// The total shares outstanding of pool `pid`; zero when the pool does
    /// not exist.
    pub fn share_total_balance(&self, pid: &PoolId) -> (r: Balance)
        ensures
            r == (match spec_pool(*self, pid@) {
                Some(p) => p.info.shares_total_supply,
                None => 0,
            }),
    {
        match find_pool(&self.pools, pid) {
            None => 0,
            Some(i) => self.pools[i].info.shares_total_supply,
        }
    }

    /// The total swap fee of pool `pid`, in units of 1/10000; zero when the
    /// pool does not exist.
    pub fn get_total_fee(&self, pid: &PoolId) -> (r: u32)
        ensures
            r == (match spec_pool(*self, pid@) {
                Some(p) => p.info.total_fee,
                None => 0u32,
            }),
    {
        match find_pool(&self.pools, pid) {
            None => 0,
            Some(i) => self.pools[i].info.total_fee,
        }
    }

    /// Registers pool `pid` over the given symbols with the given fees, and
    /// deposits any positive initial amounts as the first liquidity.
    ///
    /// The pool starts with empty reserves and zero shares; positive entries
    /// are then deposited through `add_liquidity_to_pool`, so afterwards each
    /// entry's reserve equals the amount given for it.
    #[verifier::rlimit(100)]
    pub fn register_pool(
        &mut self,
        issuer: &AccountId,
        pid: &PoolId,
        total_fee: u32,
        exchange_fee: u32,
        symbol_data: &Vec<SymbolAmount>,
        description: Option<StdString>,
    ) -> (r: Result<(), Error>)
        requires
            old(self).wf(),
            unique_keys(symbol_data@),
        ensures
            final(self).wf(),
            r == spec_register_pool_result(
                *old(self),
                issuer@,
                pid@,
                total_fee,
                exchange_fee,
                symbol_data@,
            ),
            r is Err ==> *final(self) == *old(self),
            r is Ok ==> spec_register_pool_post(
                *old(self),
                *final(self),
                issuer@,
                pid@,
                total_fee,
                exchange_fee,
                symbol_data@,
                description,
            ),
    {
        let ghost old_d = *self;
        if !is_valid_pool_id(pid) {
            return Err(Error::InvalidPoolId);
        }
        if find_pool(&self.pools, pid).is_some() {
            return Err(Error::PoolAlreadyExists);
        }
        if !(total_fee < FEE_DIVISOR && exchange_fee <= total_fee) {
            return Err(Error::TooLargeFee);
        }
        if symbol_data.len() == 0 {
            return Err(Error::EmptySymbols);
        }
        if symbol_data.len() > MAX_NUM_SYMBOLS {
            return Err(Error::TooManySymbols);
        }
        // validate the symbols in list order
        let mut k: usize = 0;
        while k < symbol_data.len()
            invariant
                k <= symbol_data@.len(),
                self == old(self),
                old_d == *old(self),
                old(self).wf(),
                spec_valid_id(pid@),
                spec_pool(*old(self), pid@) is None,
                total_fee < 10000 && exchange_fee <= total_fee,
                0 < symbol_data@.len() <= MAX_NUM_SYMBOLS,
                forall|j: int|
                    0 <= j < k ==> (#[trigger] symbol_data@[j]).symbol@[0] != 0
                        && spec_asset_exists(*old(self), symbol_data@[j].symbol@),
            decreases symbol_data@.len() - k,
        {
            if symbol_data[k].symbol.is_empty() {
                proof {
                    lemma_pool_symbols_check_err_at(old_d, symbol_data@, k as int);
                }
                return Err(Error::InvalidAssetSymbol);
            }
            if !self.is_asset_existed(&symbol_data[k].symbol) {
                proof {
                    lemma_pool_symbols_check_err_at(old_d, symbol_data@, k as int);
                }
                return Err(Error::AssetNotExists);
            }
            k += 1;
        }
        proof {
            lemma_pool_symbols_check_ok(old_d, symbol_data@);
        }
        // the issuer must cover every positive initial amount
        let mut k: usize = 0;
        while k < symbol_data.len()
            invariant
                k <= symbol_data@.len(),
                self == old(self),
                old_d == *old(self),
                old(self).wf(),
                spec_valid_id(pid@),
                spec_pool(*old(self), pid@) is None,
                total_fee < 10000 && exchange_fee <= total_fee,
                0 < symbol_data@.len() <= MAX_NUM_SYMBOLS,
                spec_pool_symbols_check(*old(self), symbol_data@) is Ok,
                forall|j: int|
                    0 <= j < symbol_data@.len() ==> (#[trigger] symbol_data@[j]).symbol@[0] != 0
                        && spec_asset_exists(*old(self), symbol_data@[j].symbol@),
                forall|j: int|
                    0 <= j < k && (#[trigger] symbol_data@[j]).amount > 0 ==> spec_balance(
                        *old(self),
                        symbol_data@[j].symbol@,
                        issuer@,
                    ) >= symbol_data@[j].amount,
            decreases symbol_data@.len() - k,
        {
            if symbol_data[k].amount > 0 {
                let free = match self.free_balance(&symbol_data[k].symbol, issuer) {
                    Ok(b) => b,
                    Err(e) => {
                        proof {
                            assert(false);
                        }
                        return Err(e);
                    },
                };
                if free < symbol_data[k].amount {
                    return Err(Error::InsufficientBalance);
                }
            }
            k += 1;
        }
        // record the pool with zeroed reserves
        let mut reserves: Vec<SymbolAmount> = Vec::new();
        let mut positives: Vec<SymbolAmount> = Vec::new();
        let mut k: usize = 0;
        while k < symbol_data.len()
            invariant
                k <= symbol_data@.len(),
                self == old(self),
                unique_keys(symbol_data@),
                reserves@.len() == k,
                forall|j: int|
                    0 <= j < k ==> (#[trigger] reserves@[j]) == (SymbolAmount {
                        symbol: symbol_data@[j].symbol,
                        amount: 0,
                    }),
                forall|p: int|
                    0 <= p < positives@.len() ==> exists|q: int|
                        0 <= q < k && (#[trigger] positives@[p]) == symbol_data@[q],
                forall|p: int|
                    0 <= p < positives@.len() ==> (#[trigger] positives@[p]).amount > 0,
                forall|q: int|
                    0 <= q < k && (#[trigger] symbol_data@[q]).amount > 0 ==> exists|p: int|
                        0 <= p < positives@.len() && positives@[p] == symbol_data@[q],
                unique_keys(positives@),
            decreases symbol_data@.len() - k,
        {
            reserves.push(SymbolAmount { symbol: symbol_data[k].symbol, amount: 0 });
            let ghost prev_positives = positives@;
            if symbol_data[k].amount > 0 {
                proof {
                    assert forall|p: int|
                        0 <= p < positives@.len() implies (#[trigger] positives@[p]).key()
                        != symbol_data@[k as int].key() by {
                        let q = choose|q: int|
                            0 <= q < k && (#[trigger] positives@[p]) == symbol_data@[q];
                        assert(symbol_data@[q].key() != symbol_data@[k as int].key());
                    }
                }
                positives.push(symbol_data[k]);
            }
            proof {
                assert forall|q: int|
                    0 <= q < k + 1 && (#[trigger] symbol_data@[q]).amount > 0 implies exists|p: int|
                    0 <= p < positives@.len() && positives@[p] == symbol_data@[q] by {
                    if q < k {
                        let p0 = choose|p: int|
                            0 <= p < prev_positives.len() && (#[trigger] prev_positives[p])
                                == symbol_data@[q];
                        assert(positives@[p0] == symbol_data@[q]);
                    } else {
                        assert(positives@[positives@.len() - 1] == symbol_data@[q]);
                    }
                }
            }
            k += 1;
        }
        let entry = PoolEntry {
            pid: *pid,
            owner: *issuer,
            info: PoolInfo {
                pid: *pid,
                total_fee,
                exchange_fee,
                shares_total_supply: 0,
                shares_data: Vec::new(),
                symbol_data: reserves,
                volume_data: Vec::new(),
                description,
            },
        };
        proof {
            assert(unique_keys(entry.info.symbol_data@)) by {
                assert forall|p: int, q: int|
                    0 <= p < q < entry.info.symbol_data@.len() implies (
                #[trigger] entry.info.symbol_data@[p]).key() != (
                #[trigger] entry.info.symbol_data@[q]).key() by {
                    assert(symbol_data@[p].key() != symbol_data@[q].key());
                }
            }
            assert(wf_pool_entry(entry));
            lemma_first_match_push(old_d.pools@, entry, pid@);
            assert forall|q: Seq<u8>| true implies first_match(old_d.pools@.push(entry), q) == (
            if q == pid@ {
                Some(entry)
            } else {
                first_match(old_d.pools@, q)
            }) by {
                lemma_first_match_push(old_d.pools@, entry, q);
            }
        }
        self.pools.push(entry);
        proof {
            lemma_wf_after_pools_change(old_d, *self);
        }
        let ghost mid_d = *self;
        proof {
            // the fresh pool holds every listed symbol with a zero reserve
            assert forall|q: int| 0 <= q < symbol_data@.len() implies spec_reserve(
                entry.info,
                (#[trigger] symbol_data@[q]).symbol@,
            ) == 0 && spec_pool_has_symbol(entry.info, symbol_data@[q].symbol@) by {
                lemma_first_match_found(entry.info.symbol_data@, q);
                assert(entry.info.symbol_data@[q] == (SymbolAmount {
                    symbol: symbol_data@[q].symbol,
                    amount: 0,
                }));
            }
            // a symbol outside the listed set is not pooled
            assert forall|s: Seq<u8>| !has_key(symbol_data@, s) implies !spec_pool_has_symbol(
                entry.info,
                s,
            ) by {
                if spec_pool_has_symbol(entry.info, s) {
                    lemma_first_match_is_present(entry.info.symbol_data@, s);
                    let q = choose|q: int|
                        0 <= q < entry.info.symbol_data@.len() && entry.info.symbol_data@[q]
                            == first_match(entry.info.symbol_data@, s)->Some_0 && (
                        #[trigger] entry.info.symbol_data@[q].key()) == s;
                    assert(symbol_data@[q].key() == s);
                    crate::keyed::lemma_first_match_found(symbol_data@, q);
                    assert(false);
                }
            }
            // positive entries and the filtered list name the same symbols
            assert forall|p: int| 0 <= p < positives@.len() implies spec_reserve(
                entry.info,
                (#[trigger] positives@[p]).symbol@,
            ) == 0 && spec_pool_has_symbol(entry.info, positives@[p].symbol@)
                && spec_asset_exists(mid_d, positives@[p].symbol@) && positives@[p].amount > 0
                && spec_balance(mid_d, positives@[p].symbol@, issuer@) >= positives@[p].amount by {
                let q = choose|q: int|
                    0 <= q < symbol_data@.len() && (#[trigger] positives@[p]) == symbol_data@[q];
                assert(spec_reserve(entry.info, symbol_data@[q].symbol@) == 0);
                assert(spec_asset_exists(old_d, symbol_data@[q].symbol@));
                assert(spec_balance(old_d, symbol_data@[q].symbol@, issuer@)
                    >= symbol_data@[q].amount);
            }
            assert forall|s: Seq<u8>| !has_key(symbol_data@, s) implies !has_key(
                positives@,
                s,
            ) by {
                if has_key(positives@, s) {
                    lemma_first_match_is_present(positives@, s);
                    let p = choose|p: int|
                        0 <= p < positives@.len() && positives@[p] == first_match(
                            positives@,
                            s,
                        )->Some_0 && (#[trigger] positives@[p].key()) == s;
                    let q = choose|q: int|
                        0 <= q < symbol_data@.len() && (#[trigger] positives@[p])
                            == symbol_data@[q];
                    crate::keyed::lemma_first_match_found(symbol_data@, q);
                    assert(false);
                }
            }
        }
        if positives.len() > 0 {
            proof {
                lemma_add_entries_check_ok(mid_d, entry.info, positives@);
                assert(spec_add_liquidity_result(mid_d, issuer@, pid@, positives@) is Ok);
            }
            match self.add_liquidity_to_pool(issuer, pid, &positives) {
                Ok(()) => {},
                Err(e) => {
                    proof {
                        assert(false);
                    }
                    return Err(e);
                },
            }
            proof {
                let p2 = spec_pool(*self, pid@)->Some_0;
                assert forall|k2: int| 0 <= k2 < symbol_data@.len() implies spec_reserve(
                    p2.info,
                    (#[trigger] symbol_data@[k2]).symbol@,
                ) == symbol_data@[k2].amount && spec_pool_has_symbol(
                    p2.info,
                    symbol_data@[k2].symbol@,
                ) && spec_balance(*self, symbol_data@[k2].symbol@, issuer@) == spec_balance(
                    old_d,
                    symbol_data@[k2].symbol@,
                    issuer@,
                ) - symbol_data@[k2].amount by {
                    let s = symbol_data@[k2].symbol@;
                    if symbol_data@[k2].amount > 0 {
                        let p = choose|p: int|
                            0 <= p < positives@.len() && (#[trigger] positives@[p])
                                == symbol_data@[k2];
                        assert(spec_reserve(p2.info, positives@[p].symbol@) == spec_reserve(
                            entry.info,
                            positives@[p].symbol@,
                        ) + spec_deposit_amount(entry.info, positives@, p));
                        assert(spec_deposit_amount(entry.info, positives@, p)
                            == positives@[p].amount);
                        assert(spec_balance(*self, positives@[p].symbol@, issuer@)
                            == spec_balance(mid_d, positives@[p].symbol@, issuer@)
                            - spec_deposit_amount(entry.info, positives@, p));
                    } else {
                        if has_key(positives@, s) {
                            lemma_first_match_is_present(positives@, s);
                            let p = choose|p: int|
                                0 <= p < positives@.len() && positives@[p] == first_match(
                                    positives@,
                                    s,
                                )->Some_0 && (#[trigger] positives@[p].key()) == s;
                            let q = choose|q: int|
                                0 <= q < symbol_data@.len() && (#[trigger] positives@[p])
                                    == symbol_data@[q];
                            assert(symbol_data@[q].key() == symbol_data@[k2].key());
                            assert(q == k2);
                            assert(false);
                        }
                        assert(spec_reserve(p2.info, s) == spec_reserve(entry.info, s));
                    }
                }
                assert(exists|k2: int|
                    0 <= k2 < symbol_data@.len() && (#[trigger] symbol_data@[k2]).amount > 0) by {
                    let qq = choose|q: int|
                        0 <= q < symbol_data@.len() && (#[trigger] positives@[0])
                            == symbol_data@[q];
                    assert(symbol_data@[qq].amount > 0);
                }
                assert(spec_shares(entry.info, issuer@) == 0);
            }
        } else {
            proof {
                assert forall|k2: int| 0 <= k2 < symbol_data@.len() implies (
                #[trigger] symbol_data@[k2]).amount == 0 by {
                    if symbol_data@[k2].amount > 0 {
                        let p = choose|p: int|
                            0 <= p < positives@.len() && positives@[p] == symbol_data@[k2];
                        assert(false);
                    }
                }
                assert(spec_shares(entry.info, issuer@) == 0);
                assert(!(exists|k2: int|
                    0 <= k2 < symbol_data@.len() && (#[trigger] symbol_data@[k2]).amount > 0));
            }
        }
        Ok(())
    }

    /// Removes the empty pool `pid`; only its owner may, and only once no
    /// shares are outstanding.
    pub fn unregister_pool(&mut self, issuer: &AccountId, pid: &PoolId) -> (r: Result<(), Error>)
        requires
            old(self).wf(),
        ensures
            final(self).wf(),
            r == (match spec_pool(*old(self), pid@) {
                None => Err::<(), Error>(Error::PoolNotExists),
                Some(p) => if p.owner@ != issuer@ {
                    Err::<(), Error>(Error::InvalidOwner)
                } else if p.info.shares_total_supply != 0 {
                    Err::<(), Error>(Error::HasRemainingShares)
                } else {
                    Ok::<(), Error>(())
                },
            }),
            r is Err ==> *final(self) == *old(self),
            r is Ok ==> {
                &&& spec_pool(*final(self), pid@) is None
                &&& forall|q: Seq<u8>|
                    q != pid@ ==> spec_pool(*final(self), q) == spec_pool(*old(self), q)
                &&& only_pools_changed(*old(self), *final(self))
            },
    {
        let ghost old_d = *self;
        let i = match find_pool(&self.pools, pid) {
            None => {
                return Err(Error::PoolNotExists);
            },
            Some(i) => i,
        };
        if !self.pools[i].owner.eq_bytes(issuer) {
            return Err(Error::InvalidOwner);
        }
        if self.pools[i].info.shares_total_supply != 0 {
            return Err(Error::HasRemainingShares);
        }
        proof {
            lemma_first_match_remove(old_d.pools@, i as int, pid@);
            assert forall|q: Seq<u8>| true implies first_match(old_d.pools@.remove(i as int), q)
                == (if q == pid@ {
                None
            } else {
                first_match(old_d.pools@, q)
            }) by {
                lemma_first_match_remove(old_d.pools@, i as int, q);
            }
        }
        self.pools.remove(i);
        proof {
            assert forall|k: int| 0 <= k < self.pools@.len() implies crate::state::wf_pool_info(
                (#[trigger] self.pools@[k]).info,
            ) && self.pools@[k].info.pid@ == self.pools@[k].pid@ by {
                assert(self.pools@[k] == old_d.pools@[if k < i as int {
                    k
                } else {
                    k + 1
                }]);
            }
            lemma_wf_after_pools_change(old_d, *self);
        }
        Ok(())
    }
}

/// The smaller of two integers.
pub open spec fn min_int(a: int, b: int) -> int {
    if a < b {
        a
    } else {
        b
    }
}

/// Whether `new_d` and `old_d` agree on everything but the pool store and
/// the balance ledger.
pub open spec fn only_pools_and_ledger_changed(old_d: Dex, new_d: Dex) -> bool {
    &&& new_d.assets == old_d.assets
    &&& new_d.permissions == old_d.permissions
    &&& new_d.nft_classes == old_d.nft_classes
    &&& new_d.nft_tokens == old_d.nft_tokens
    &&& new_d.nft_accounts == old_d.nft_accounts
    &&& new_d.pool_kinds == old_d.pool_kinds
    &&& new_d.farms == old_d.farms
    &&& new_d.farmers == old_d.farmers
    &&& new_d.block_number == old_d.block_number
}

/// The fair share supply a deposit earns: the smallest
/// `amount * total_shares / reserve` over the deposited entries.
pub open spec fn spec_fair_supply(info: PoolInfo, entries: Seq<SymbolAmount>) -> int
    decreases entries.len(),
{
    if entries.len() == 0 {
        u128::MAX as int
    } else {
        min_int(
            entries[0].amount * info.shares_total_supply / (spec_reserve(info, entries[0].symbol@) as int),
            spec_fair_supply(info, entries.drop_first()),
        )
    }
}

/// What a non-empty pool takes of a symbol for the fair supply `fair`.
pub open spec fn spec_taken(info: PoolInfo, fair: int, sym: Seq<u8>) -> int {
    spec_reserve(info, sym) * fair / (info.shares_total_supply as int)
}

/// What `add_liquidity_to_pool` takes from the depositor for entry `k`: the
/// given amount into an empty pool, the recomputed fair amount otherwise.
pub open spec fn spec_deposit_amount(info: PoolInfo, entries: Seq<SymbolAmount>, k: int) -> int {
    if info.shares_total_supply == 0 {
        entries[k].amount as int
    } else {
        spec_taken(info, spec_fair_supply(info, entries), entries[k].symbol@)
    }
}

/// The per-entry validation `add_liquidity_to_pool` runs, in list order.
pub open spec fn spec_add_entries_check(d: Dex, info: PoolInfo, entries: Seq<SymbolAmount>)
    -> Result<(), Error>
    decreases entries.len(),
{
    if entries.len() == 0 {
        Ok(())
    } else if !spec_asset_exists(d, entries[0].symbol@) {
        Err(Error::SymbolNotExistsInAsset)
    } else if entries[0].amount == 0 {
        Err(Error::InvalidBalance)
    } else if !spec_pool_has_symbol(info, entries[0].symbol@) {
        Err(Error::SymbolNotExistsInPool)
    } else {
        spec_add_entries_check(d, info, entries.drop_first())
    }
}

/// The per-entry check passes exactly when every entry passes.
pub proof fn lemma_add_entries_check_ok(d: Dex, info: PoolInfo, entries: Seq<SymbolAmount>)
    ensures
        (spec_add_entries_check(d, info, entries) is Ok) <==> (forall|k: int|
            0 <= k < entries.len() ==> spec_asset_exists(d, (#[trigger] entries[k]).symbol@)
                && entries[k].amount > 0 && spec_pool_has_symbol(info, entries[k].symbol@)),
    decreases entries.len(),
{
    if entries.len() > 0 {
        lemma_add_entries_check_ok(d, info, entries.drop_first());
        assert forall|k: int| 0 <= k < entries.drop_first().len() implies entries.drop_first()[k]
            == entries[k + 1] by {}
        if spec_asset_exists(d, entries[0].symbol@) && entries[0].amount > 0
            && spec_pool_has_symbol(info, entries[0].symbol@) {
            if spec_add_entries_check(d, info, entries) is Ok {
                assert forall|k: int| 0 <= k < entries.len() implies spec_asset_exists(
                    d,
                    (#[trigger] entries[k]).symbol@,
                ) && entries[k].amount > 0 && spec_pool_has_symbol(info, entries[k].symbol@) by {
                    if k >= 1 {
                        assert(entries[k] == entries.drop_first()[k - 1]);
                    }
                }
            }
        }
    }
}

/// When entry `k` is the first failing entry, the per-entry check returns
/// that entry's error.
pub proof fn lemma_add_entries_check_err_at(
    d: Dex,
    info: PoolInfo,
    entries: Seq<SymbolAmount>,
    k: int,
)
    requires
        0 <= k < entries.len(),
        forall|j: int|
            0 <= j < k ==> spec_asset_exists(d, (#[trigger] entries[j]).symbol@)
                && entries[j].amount > 0 && spec_pool_has_symbol(info, entries[j].symbol@),
        !(spec_asset_exists(d, entries[k].symbol@) && entries[k].amount > 0
            && spec_pool_has_symbol(info, entries[k].symbol@)),
    ensures
        spec_add_entries_check(d, info, entries) == (if !spec_asset_exists(
            d,
            entries[k].symbol@,
        ) {
            Err::<(), Error>(Error::SymbolNotExistsInAsset)
        } else if entries[k].amount == 0 {
            Err::<(), Error>(Error::InvalidBalance)
        } else {
            Err::<(), Error>(Error::SymbolNotExistsInPool)
        }),
    decreases entries.len(),
{
    if k > 0 {
        assert forall|j: int| 0 <= j < k - 1 implies spec_asset_exists(
            d,
            (#[trigger] entries.drop_first()[j]).symbol@,
        ) && entries.drop_first()[j].amount > 0 && spec_pool_has_symbol(
            info,
            entries.drop_first()[j].symbol@,
        ) by {
            assert(entries.drop_first()[j] == entries[j + 1]);
        }
        assert(entries.drop_first()[k - 1] == entries[k]);
        lemma_add_entries_check_err_at(d, info, entries.drop_first(), k - 1);
    }
}

/// Whether `issuer` can cover what the pool would take for every entry.
pub open spec fn spec_covers_deposits(
    d: Dex,
    issuer: Seq<u8>,
    info: PoolInfo,
    entries: Seq<SymbolAmount>,
) -> bool {
    forall|k: int|
        0 <= k < entries.len() ==> spec_balance(d, (#[trigger] entries[k]).symbol@, issuer)
            >= spec_deposit_amount(info, entries, k)
}

/// The decision `add_liquidity_to_pool` makes, in the order its checks run.
pub open spec fn spec_add_liquidity_result(
    d: Dex,
    issuer: Seq<u8>,
    pid: Seq<u8>,
    entries: Seq<SymbolAmount>,
) -> Result<(), Error> {
    if entries.len() == 0 {
        Err(Error::EmptySymbols)
    } else {
        match spec_pool(d, pid) {
            None => Err(Error::PoolNotExists),
            Some(p) => {
                let info = p.info;
                if spec_add_entries_check(d, info, entries) is Err {
                    spec_add_entries_check(d, info, entries)
                } else if info.shares_total_supply > 0 && (exists|k: int|
                    0 <= k < entries.len() && #[trigger] spec_deposit_amount(info, entries, k)
                        == 0) {
                    Err(Error::ZeroAmount)
                } else if !spec_covers_deposits(d, issuer, info, entries) {
                    Err(Error::InsufficientBalance)
                } else {
                    Ok(())
                }
            },
        }
    }
}

/// The arithmetic room `add_liquidity_to_pool` needs on the success path.
pub open spec fn spec_add_liquidity_bounds(d: Dex, pid: Seq<u8>, entries: Seq<SymbolAmount>)
    -> bool {
    match spec_pool(d, pid) {
        None => true,
        Some(p) => {
            let info = p.info;
            if info.shares_total_supply == 0 {
                forall|k: int|
                    0 <= k < entries.len() ==> spec_reserve(info, (#[trigger] entries[k]).symbol@)
                        + entries[k].amount <= u128::MAX
            } else {
                let fair = spec_fair_supply(info, entries);
                &&& forall|k: int|
                    0 <= k < entries.len() ==> (#[trigger] entries[k]).amount
                        * info.shares_total_supply <= u128::MAX
                &&& forall|k: int|
                    0 <= k < entries.len() && spec_pool_has_symbol(
                        info,
                        (#[trigger] entries[k]).symbol@,
                    ) ==> spec_reserve(info, entries[k].symbol@) > 0
                &&& forall|k: int|
                    0 <= k < entries.len() ==> spec_reserve(info, (#[trigger] entries[k]).symbol@)
                        * fair <= u128::MAX
                &&& forall|k: int|
                    0 <= k < entries.len() ==> spec_reserve(info, (#[trigger] entries[k]).symbol@)
                        + spec_taken(info, fair, entries[k].symbol@) <= u128::MAX
                &&& info.shares_total_supply + fair <= u128::MAX
            }
        },
    }
}

/// Extending the entry prefix by one folds its quotient into the running
/// minimum.
pub proof fn lemma_fair_take_step(info: PoolInfo, s: Seq<SymbolAmount>, k: int)
    requires
        0 <= k < s.len(),
    ensures
        spec_fair_supply(info, s.take(k + 1)) == min_int(
            spec_fair_supply(info, s.take(k)),
            s[k].amount * info.shares_total_supply / (spec_reserve(info, s[k].symbol@) as int),
        ),
    decreases k,
{
    if k == 0 {
        assert(s.take(1).len() == 1);
        assert(s.take(1)[0] == s[0]);
        assert(s.take(1).drop_first() =~= Seq::<SymbolAmount>::empty());
        assert(s.take(0) =~= Seq::<SymbolAmount>::empty());
    } else {
        assert(s.take(k + 1)[0] == s[0]);
        assert(s.take(k)[0] == s[0]);
        assert(s.take(k + 1).drop_first() =~= s.drop_first().take(k));
        assert(s.take(k).drop_first() =~= s.drop_first().take(k - 1));
        assert(s.drop_first()[k - 1] == s[k]);
        lemma_fair_take_step(info, s.drop_first(), k - 1);
    }
}

/// A pool entry whose record is well-formed and carries its own id.
pub open spec fn wf_pool_entry(e: PoolEntry) -> bool {
    &&& crate::state::wf_pool_info(e.info)
    &&& e.info.pid@ == e.pid@
}

/// When some entry fails the symbols check at the first failing index, the
/// check returns that entry's error.
pub proof fn lemma_pool_symbols_check_err_at(d: Dex, entries: Seq<SymbolAmount>, k: int)
    requires
        0 <= k < entries.len(),
        forall|j: int|
            0 <= j < k ==> (#[trigger] entries[j]).symbol@[0] != 0 && spec_asset_exists(
                d,
                entries[j].symbol@,
            ),
        entries[k].symbol@[0] == 0 || !spec_asset_exists(d, entries[k].symbol@),
    ensures
        spec_pool_symbols_check(d, entries) == (if entries[k].symbol@[0] == 0 {
            Err::<(), Error>(Error::InvalidAssetSymbol)
        } else {
            Err::<(), Error>(Error::AssetNotExists)
        }),
    decreases entries.len(),
{
    if k > 0 {
        assert forall|j: int| 0 <= j < k - 1 implies (#[trigger] entries.drop_first()[j]).symbol@[0]
            != 0 && spec_asset_exists(d, entries.drop_first()[j].symbol@) by {
            assert(entries.drop_first()[j] == entries[j + 1]);
        }
        assert(entries.drop_first()[k - 1] == entries[k]);
        lemma_pool_symbols_check_err_at(d, entries.drop_first(), k - 1);
    }
}


impl Dex {
    /// Deposits liquidity into pool `pid`.
    ///
    /// Into an empty pool the given amounts are taken as they stand and
    /// `INIT_SHARES_SUPPLY` shares are minted.  Otherwise the fair supply is
    /// the smallest `amount * total_shares / reserve` over the entries, each
    /// entry's taken amount is recomputed as `reserve * fair / total_shares`,
    /// and `fair` shares are minted.  Taken amounts leave the depositor's
    /// wallet.
    pub fn add_liquidity_to_pool(
        &mut self,
        issuer: &AccountId,
        pid: &PoolId,
        amounts: &Vec<SymbolAmount>,
    ) -> (r: Result<(), Error>)
        requires
            old(self).wf(),
            unique_keys(amounts@),
            spec_add_liquidity_bounds(*old(self), pid@, amounts@),
        ensures
            final(self).wf(),
            r == spec_add_liquidity_result(*old(self), issuer@, pid@, amounts@),
            r is Err ==> *final(self) == *old(self),
            r is Ok ==> spec_add_liquidity_post(
                *old(self),
                *final(self),
                issuer@,
                pid@,
                amounts@,
            ),
    {
        let ghost old_d = *self;
        if amounts.len() == 0 {
            return Err(Error::EmptySymbols);
        }
        let i = match find_pool(&self.pools, pid) {
            None => {
                return Err(Error::PoolNotExists);
            },
            Some(i) => i,
        };
        let ghost info = old_d.pools@[i as int].info;
        // validate the entries in list order
        let mut k: usize = 0;
        while k < amounts.len()
            invariant
                k <= amounts@.len(),
                self == old(self),
                old_d == *old(self),
                old(self).wf(),
                i < old(self).pools@.len(),
                first_match(old(self).pools@, pid@) == Some(old(self).pools@[i as int]),
                info == old(self).pools@[i as int].info,
                forall|j: int|
                    0 <= j < k ==> spec_asset_exists(*old(self), (#[trigger] amounts@[j]).symbol@)
                        && amounts@[j].amount > 0 && spec_pool_has_symbol(
                        info,
                        amounts@[j].symbol@,
                    ),
            decreases amounts@.len() - k,
        {
            if !self.is_asset_existed(&amounts[k].symbol) {
                proof {
                    lemma_add_entries_check_err_at(old_d, info, amounts@, k as int);
                }
                return Err(Error::SymbolNotExistsInAsset);
            }
            if amounts[k].amount == 0 {
                proof {
                    lemma_add_entries_check_err_at(old_d, info, amounts@, k as int);
                }
                return Err(Error::InvalidBalance);
            }
            if find_symbol_amount(&self.pools[i].info.symbol_data, &amounts[k].symbol).is_none() {
                proof {
                    lemma_add_entries_check_err_at(old_d, info, amounts@, k as int);
                }
                return Err(Error::SymbolNotExistsInPool);
            }
            k += 1;
        }
        proof {
            lemma_add_entries_check_ok(old_d, info, amounts@);
        }
        let s_total = self.pools[i].info.shares_total_supply;
        // the shares to mint, and what each entry deposits
        let mut deposits: Vec<SymbolAmount> = Vec::new();
        let shares: u128;
        if s_total > 0 {
            let mut fair: u128 = u128::MAX;
            let mut k: usize = 0;
            while k < amounts.len()
                invariant
                    k <= amounts@.len(),
                    self == old(self),
                    old_d == *old(self),
                    old(self).wf(),
                    i < old(self).pools@.len(),
                    first_match(old(self).pools@, pid@) == Some(old(self).pools@[i as int]),
                    info == old(self).pools@[i as int].info,
                    s_total == info.shares_total_supply,
                    s_total > 0,
                    unique_keys(amounts@),
                    spec_add_liquidity_bounds(*old(self), pid@, amounts@),
                    forall|j: int|
                        0 <= j < amounts@.len() ==> spec_asset_exists(
                            *old(self),
                            (#[trigger] amounts@[j]).symbol@,
                        ) && amounts@[j].amount > 0 && spec_pool_has_symbol(
                            info,
                            amounts@[j].symbol@,
                        ),
                    fair as int == spec_fair_supply(info, amounts@.take(k as int)),
                decreases amounts@.len() - k,
            {
                let j = match find_symbol_amount(&self.pools[i].info.symbol_data, &amounts[k].symbol) {
                    None => {
                        proof {
                            assert(false);
                        }
                        return Err(Error::SymbolNotExistsInPool);
                    },
                    Some(j) => j,
                };
                let r0 = self.pools[i].info.symbol_data[j].amount;
                proof {
                    assert(r0 == spec_reserve(info, amounts@[k as int].symbol@));
                    assert(r0 > 0);
                    assert(amounts@[k as int].amount * info.shares_total_supply <= u128::MAX);
                }
                let prod = amounts[k].amount * s_total;
                let h = prod / r0;
                proof {
                    lemma_fair_take_step(info, amounts@, k as int);
                }
                if h < fair {
                    fair = h;
                }
                k += 1;
            }
            proof {
                assert(amounts@.take(amounts@.len() as int) =~= amounts@);
            }
            // recompute each entry's taken amount
            let mut k: usize = 0;
            while k < amounts.len()
                invariant
                    k <= amounts@.len(),
                    self == old(self),
                    old_d == *old(self),
                    old(self).wf(),
                    i < old(self).pools@.len(),
                    first_match(old(self).pools@, pid@) == Some(old(self).pools@[i as int]),
                    info == old(self).pools@[i as int].info,
                    s_total == info.shares_total_supply,
                    s_total > 0,
                    unique_keys(amounts@),
                    spec_add_liquidity_bounds(*old(self), pid@, amounts@),
                    fair as int == spec_fair_supply(info, amounts@),
                    forall|j: int|
                        0 <= j < amounts@.len() ==> spec_asset_exists(
                            *old(self),
                            (#[trigger] amounts@[j]).symbol@,
                        ) && amounts@[j].amount > 0 && spec_pool_has_symbol(
                            info,
                            amounts@[j].symbol@,
                        ),
                    deposits@.len() == k,
                    forall|j: int|
                        0 <= j < k ==> (#[trigger] deposits@[j]).symbol == amounts@[j].symbol
                            && deposits@[j].amount as int == spec_deposit_amount(
                            info,
                            amounts@,
                            j,
                        ) && deposits@[j].amount > 0,
                decreases amounts@.len() - k,
            {
                let j = match find_symbol_amount(&self.pools[i].info.symbol_data, &amounts[k].symbol) {
                    None => {
                        proof {
                            assert(false);
                        }
                        return Err(Error::SymbolNotExistsInPool);
                    },
                    Some(j) => j,
                };
                let r0 = self.pools[i].info.symbol_data[j].amount;
                proof {
                    assert(r0 == spec_reserve(info, amounts@[k as int].symbol@));
                    assert(spec_reserve(info, amounts@[k as int].symbol@) * (fair as int)
                        <= u128::MAX);
                }
                let taken = (r0 * fair) / s_total;
                if taken == 0 {
                    proof {
                        assert(spec_deposit_amount(info, amounts@, k as int) == 0);
                        lemma_add_entries_check_ok(old_d, info, amounts@);
                    }
                    return Err(Error::ZeroAmount);
                }
                deposits.push(SymbolAmount { symbol: amounts[k].symbol, amount: taken });
                k += 1;
            }
            if fair == 0 {
                proof {
                    assert(deposits@.len() > 0);
                    assert(deposits@[0].amount as int == spec_deposit_amount(info, amounts@, 0));
                    assert(spec_reserve(info, amounts@[0].symbol@) * 0 == 0);
                    vstd::arithmetic::div_mod::lemma_div_of0(s_total as int);
                    assert(false);
                }
                return Err(Error::ZeroShares);
            }
            shares = fair;
        } else {
            let mut k: usize = 0;
            while k < amounts.len()
                invariant
                    k <= amounts@.len(),
                    self == old(self),
                    s_total == info.shares_total_supply,
                    s_total == 0,
                    deposits@.len() == k,
                    forall|j: int|
                        0 <= j < amounts@.len() ==> (#[trigger] amounts@[j]).amount > 0,
                    forall|j: int|
                        0 <= j < k ==> (#[trigger] deposits@[j]).symbol == amounts@[j].symbol
                            && deposits@[j].amount as int == spec_deposit_amount(
                            info,
                            amounts@,
                            j,
                        ) && deposits@[j].amount > 0,
                decreases amounts@.len() - k,
            {
                deposits.push(SymbolAmount { symbol: amounts[k].symbol, amount: amounts[k].amount });
                k += 1;
            }
            shares = INIT_SHARES_SUPPLY;
        }
        proof {
            assert forall|j: int| 0 <= j < amounts@.len() implies #[trigger] spec_deposit_amount(
                info,
                amounts@,
                j,
            ) > 0 by {
                assert(deposits@[j].amount > 0);
            }
        }
        // the depositor must cover every taken amount
        let mut k: usize = 0;
        while k < amounts.len()
            invariant
                k <= amounts@.len(),
                self == old(self),
                old_d == *old(self),
                old(self).wf(),
                i < old(self).pools@.len(),
                first_match(old(self).pools@, pid@) == Some(old(self).pools@[i as int]),
                info == old(self).pools@[i as int].info,
                deposits@.len() == amounts@.len(),
                forall|j: int|
                    0 <= j < amounts@.len() ==> (#[trigger] deposits@[j]).amount > 0,
                forall|j: int|
                    0 <= j < amounts@.len() ==> #[trigger] spec_deposit_amount(info, amounts@, j)
                        > 0,
                forall|j: int|
                    0 <= j < amounts@.len() ==> spec_asset_exists(
                        *old(self),
                        (#[trigger] amounts@[j]).symbol@,
                    ) && amounts@[j].amount > 0 && spec_pool_has_symbol(
                        info,
                        amounts@[j].symbol@,
                    ),
                forall|j: int|
                    0 <= j < amounts@.len() ==> (#[trigger] deposits@[j]).symbol
                        == amounts@[j].symbol && deposits@[j].amount as int == spec_deposit_amount(
                        info,
                        amounts@,
                        j,
                    ),
                forall|j: int|
                    0 <= j < k ==> spec_balance(
                        *old(self),
                        (#[trigger] amounts@[j]).symbol@,
                        issuer@,
                    ) >= spec_deposit_amount(info, amounts@, j),
            decreases amounts@.len() - k,
        {
            let free = match self.free_balance(&deposits[k].symbol, issuer) {
                Ok(b) => b,
                Err(e) => {
                    proof {
                        assert(false);
                    }
                    return Err(e);
                },
            };
            if free < deposits[k].amount {
                proof {
                    lemma_add_entries_check_ok(old_d, info, amounts@);
                    assert(spec_balance(old_d, amounts@[k as int].symbol@, issuer@)
                        < spec_deposit_amount(info, amounts@, k as int));
                }
                return Err(Error::InsufficientBalance);
            }
            k += 1;
        }
        // take the pool out, update it, put it back
        proof {
            lemma_add_entries_check_ok(old_d, info, amounts@);
            lemma_first_match_remove(old_d.pools@, i as int, pid@);
            assert forall|q: Seq<u8>| true implies first_match(old_d.pools@.remove(i as int), q)
                == (if q == pid@ {
                None
            } else {
                first_match(old_d.pools@, q)
            }) by {
                lemma_first_match_remove(old_d.pools@, i as int, q);
            }
        }
        let mut entry = self.pools.remove(i);
        proof {
            assert forall|k2: int| 0 <= k2 < self.pools@.len() implies wf_pool_entry(
                #[trigger] self.pools@[k2],
            ) by {
                assert(self.pools@[k2] == old_d.pools@[if k2 < i as int {
                    k2
                } else {
                    k2 + 1
                }]);
            }
            lemma_wf_after_pools_change(old_d, *self);
        }
        let ghost mid_d = *self;
        let mut k: usize = 0;
        while k < amounts.len()
            invariant
                k <= amounts@.len(),
                unique_keys(amounts@),
                deposits@.len() == amounts@.len(),
                old_d.wf(),
                i < old_d.pools@.len(),
                first_match(old_d.pools@, pid@) == Some(old_d.pools@[i as int]),
                info == old_d.pools@[i as int].info,
                entry.pid == old_d.pools@[i as int].pid,
                entry.owner == old_d.pools@[i as int].owner,
                entry.info.pid == info.pid,
                entry.info.total_fee == info.total_fee,
                entry.info.exchange_fee == info.exchange_fee,
                entry.info.shares_total_supply == info.shares_total_supply,
                entry.info.shares_data == info.shares_data,
                entry.info.volume_data == info.volume_data,
                entry.info.description == info.description,
                unique_keys(entry.info.symbol_data@),
                entry.info.symbol_data@.len() == info.symbol_data@.len(),
                forall|j: int|
                    0 <= j < amounts@.len() ==> (#[trigger] deposits@[j]).symbol
                        == amounts@[j].symbol && deposits@[j].amount as int == spec_deposit_amount(
                        info,
                        amounts@,
                        j,
                    ),
                forall|j: int|
                    0 <= j < amounts@.len() ==> spec_pool_has_symbol(
                        info,
                        (#[trigger] amounts@[j]).symbol@,
                    ) && spec_reserve(info, amounts@[j].symbol@) + spec_deposit_amount(
                        info,
                        amounts@,
                        j,
                    ) <= u128::MAX,
                forall|s: Seq<u8>|
                    spec_pool_has_symbol(entry.info, s) == spec_pool_has_symbol(info, s),
                forall|j: int|
                    0 <= j < k ==> spec_reserve(entry.info, (#[trigger] amounts@[j]).symbol@)
                        as int == spec_reserve(info, amounts@[j].symbol@) + spec_deposit_amount(
                        info,
                        amounts@,
                        j,
                    ),
                forall|s: Seq<u8>|
                    (forall|j: int| 0 <= j < k ==> s != (#[trigger] amounts@[j]).symbol@)
                        ==> spec_reserve(entry.info, s) == spec_reserve(info, s),
            decreases amounts@.len() - k,
        {
            let j = match find_symbol_amount(&entry.info.symbol_data, &amounts[k].symbol) {
                None => {
                    proof {
                        assert(spec_pool_has_symbol(info, amounts@[k as int].symbol@));
                        assert(false);
                    }
                    return Err(Error::SymbolNotExistsInPool);
                },
                Some(j) => j,
            };
            let ghost old_sd = entry.info.symbol_data@;
            let r0 = entry.info.symbol_data[j].amount;
            proof {
                assert forall|j2: int| 0 <= j2 < k implies amounts@[k as int].symbol@ != (
                #[trigger] amounts@[j2]).symbol@ by {
                    assert(amounts@[j2].key() != amounts@[k as int].key());
                }
                assert(r0 == spec_reserve(entry.info, amounts@[k as int].symbol@));
                assert(r0 == spec_reserve(info, amounts@[k as int].symbol@));
            }
            let dep = deposits[k].amount;
            let mut sa = entry.info.symbol_data[j];
            sa.amount = r0 + dep;
            entry.info.symbol_data.set(j, sa);
            proof {
                lemma_first_match_update(old_sd, j as int, sa, amounts@[k as int].symbol@);
                assert forall|s: Seq<u8>| true implies first_match(entry.info.symbol_data@, s)
                    == (if s == amounts@[k as int].symbol@ {
                    Some(sa)
                } else {
                    first_match(old_sd, s)
                }) by {
                    lemma_first_match_update(old_sd, j as int, sa, s);
                }
            }
            k += 1;
        }
        // mint the shares
        proof {
            assert(info.shares_total_supply + shares <= u128::MAX);
        }
        entry.info.shares_total_supply = s_total + shares;
        let ghost old_shares_data = entry.info.shares_data@;
        match find_account(&entry.info.shares_data, issuer) {
            Some(j) => {
                let held = entry.info.shares_data[j].amount;
                proof {
                    assert forall|k2: int|
                        0 <= k2 < old_shares_data.len() implies (
                    #[trigger] old_shares_data[k2].val()) >= 0 by {}
                    lemma_sum_ge_element(old_shares_data, j as int);
                }
                let mut ab = entry.info.shares_data[j];
                ab.amount = held + shares;
                entry.info.shares_data.set(j, ab);
                proof {
                    lemma_sum_update(old_shares_data, j as int, ab);
                    lemma_first_match_update(old_shares_data, j as int, ab, issuer@);
                    assert forall|a: Seq<u8>| a != issuer@ implies first_match(
                        entry.info.shares_data@,
                        a,
                    ) == first_match(old_shares_data, a) by {
                        lemma_first_match_update(old_shares_data, j as int, ab, a);
                    }
                }
            },
            None => {
                let ab = AccountBalance { account: *issuer, amount: shares };
                entry.info.shares_data.push(ab);
                proof {
                    lemma_sum_push(old_shares_data, ab);
                    lemma_first_match_push(old_shares_data, ab, issuer@);
                    assert forall|a: Seq<u8>| a != issuer@ implies first_match(
                        entry.info.shares_data@,
                        a,
                    ) == first_match(old_shares_data, a) by {
                        lemma_first_match_push(old_shares_data, ab, a);
                    }
                }
            },
        }
        proof {
            assert(wf_pool_entry(entry));
            lemma_first_match_push(mid_d.pools@, entry, pid@);
            assert forall|q: Seq<u8>| true implies first_match(mid_d.pools@.push(entry), q) == (
            if q == pid@ {
                Some(entry)
            } else {
                first_match(mid_d.pools@, q)
            }) by {
                lemma_first_match_push(mid_d.pools@, entry, q);
            }
        }
        self.pools.push(entry);
        proof {
            assert forall|k2: int| 0 <= k2 < self.pools@.len() implies wf_pool_entry(
                #[trigger] self.pools@[k2],
            ) by {
                if k2 < mid_d.pools@.len() {
                    assert(self.pools@[k2] == mid_d.pools@[k2]);
                }
            }
            lemma_wf_after_pools_change(mid_d, *self);
        }
        let ghost pre_ledger_d = *self;
        // take the deposits from the issuer's wallet
        let mut k: usize = 0;
        while k < deposits.len()
            invariant
                k <= deposits@.len(),
                deposits@.len() == amounts@.len(),
                unique_keys(amounts@),
                self.wf(),
                crate::asset::only_ledger_changed(pre_ledger_d, *self),
                forall|j: int|
                    0 <= j < amounts@.len() ==> (#[trigger] deposits@[j]).symbol
                        == amounts@[j].symbol && deposits@[j].amount as int == spec_deposit_amount(
                        info,
                        amounts@,
                        j,
                    ),
                forall|j: int|
                    0 <= j < amounts@.len() ==> spec_balance(
                        old_d,
                        (#[trigger] amounts@[j]).symbol@,
                        issuer@,
                    ) >= spec_deposit_amount(info, amounts@, j),
                forall|j: int|
                    k <= j < amounts@.len() ==> spec_balance(
                        *self,
                        (#[trigger] amounts@[j]).symbol@,
                        issuer@,
                    ) == spec_balance(old_d, amounts@[j].symbol@, issuer@),
                forall|j: int|
                    0 <= j < k ==> spec_balance(
                        *self,
                        (#[trigger] amounts@[j]).symbol@,
                        issuer@,
                    ) == spec_balance(old_d, amounts@[j].symbol@, issuer@) - spec_deposit_amount(
                        info,
                        amounts@,
                        j,
                    ),
                forall|j: int|
                    k <= j < amounts@.len() ==> spec_issuance(
                        *self,
                        (#[trigger] amounts@[j]).symbol@,
                    ) == spec_issuance(old_d, amounts@[j].symbol@),
                forall|j: int|
                    0 <= j < k ==> spec_issuance(*self, (#[trigger] amounts@[j]).symbol@)
                        == spec_issuance(old_d, amounts@[j].symbol@) - spec_deposit_amount(
                        info,
                        amounts@,
                        j,
                    ),
                forall|s: Seq<u8>, a: Seq<u8>|
                    (a != issuer@ || !has_key(amounts@, s)) ==> spec_balance(*self, s, a)
                        == spec_balance(old_d, s, a),
                forall|s: Seq<u8>|
                    !has_key(amounts@, s) ==> spec_issuance(*self, s) == spec_issuance(old_d, s),
                forall|j: int|
                    0 <= j < amounts@.len() ==> #[trigger] spec_deposit_amount(info, amounts@, j)
                        > 0,
                spec_add_entries_check(old_d, info, amounts@) is Ok,
                forall|j: int|
                    0 <= j < amounts@.len() ==> spec_balance(
                        old_d,
                        (#[trigger] amounts@[j]).symbol@,
                        issuer@,
                    ) >= spec_deposit_amount(info, amounts@, j),
            decreases deposits@.len() - k,
        {
            match self.ledger_withdraw(&deposits[k].symbol, issuer, deposits[k].amount) {
                Ok(()) => {},
                Err(e) => {
                    proof {
                        assert(false);
                    }
                    return Err(e);
                },
            }
            proof {
                assert forall|j: int| 0 <= j < amounts@.len() && j != k as int implies (
                #[trigger] amounts@[j]).symbol@ != amounts@[k as int].symbol@ by {
                    assert(amounts@[j].key() != amounts@[k as int].key());
                }
                assert forall|s: Seq<u8>| !has_key(amounts@, s) implies s
                    != amounts@[k as int].symbol@ by {
                    if s == amounts@[k as int].symbol@ {
                        crate::keyed::lemma_first_match_at(amounts@, k as int, s);
                    }
                }
            }
            k += 1;
        }
        Ok(())
    }
}


/// What `remove_liquidity_from_pool` pays out of a reserve for burning
/// `shares` shares.
pub open spec fn spec_withdrawn(info: PoolInfo, shares: int, sym: Seq<u8>) -> int {
    spec_reserve(info, sym) * shares / (info.shares_total_supply as int)
}

impl Dex {
    /// Burns `shares` of the caller's pool shares and pays the proportional
    /// part of each listed reserve out of the pool.
    ///
    /// Each entry of `amounts` names a pooled symbol and the least amount the
    /// caller will accept for it; a symbol not listed is not withdrawn.
    pub fn remove_liquidity_from_pool(
        &mut self,
        issuer: &AccountId,
        pid: &PoolId,
        shares: Balance,
        amounts: &Vec<SymbolAmount>,
    ) -> (r: Result<(), Error>)
        requires
            old(self).wf(),
            unique_keys(amounts@),
            spec_pool(*old(self), pid@) matches Some(p) ==> forall|k: int|
                0 <= k < amounts@.len() ==> spec_pool_has_symbol(
                    p.info,
                    (#[trigger] amounts@[k]).symbol@,
                ) && spec_reserve(p.info, amounts@[k].symbol@) * shares <= u128::MAX,
        ensures
            final(self).wf(),
            r == (match spec_pool(*old(self), pid@) {
                None => Err::<(), Error>(Error::PoolNotExists),
                Some(p) => if !(shares > 0 && spec_shares(p.info, issuer@) >= shares
                    && p.info.shares_total_supply >= shares) {
                    Err::<(), Error>(Error::NoEnoughShares)
                } else if exists|k: int|
                    0 <= k < amounts@.len() && spec_withdrawn(
                        p.info,
                        shares as int,
                        (#[trigger] amounts@[k]).symbol@,
                    ) < amounts@[k].amount {
                    Err::<(), Error>(Error::TooLessSharesAmount)
                } else {
                    Ok::<(), Error>(())
                },
            }),
            r is Err ==> *final(self) == *old(self),
            r is Ok ==> spec_remove_liquidity_post(
                *old(self),
                *final(self),
                issuer@,
                pid@,
                shares as int,
                amounts@,
            ),
    {
        let ghost old_d = *self;
        let i = match find_pool(&self.pools, pid) {
            None => {
                return Err(Error::PoolNotExists);
            },
            Some(i) => i,
        };
        let ghost info = old_d.pools@[i as int].info;
        let s_total = self.pools[i].info.shares_total_supply;
        let held = match find_account(&self.pools[i].info.shares_data, issuer) {
            None => 0,
            Some(j) => self.pools[i].info.shares_data[j].amount,
        };
        if !(shares > 0 && held >= shares && s_total >= shares) {
            return Err(Error::NoEnoughShares);
        }
        // every listed symbol must yield at least the named minimum
        let mut k: usize = 0;
        while k < amounts.len()
            invariant
                k <= amounts@.len(),
                self == old(self),
                old_d == *old(self),
                old(self).wf(),
                i < old(self).pools@.len(),
                first_match(old(self).pools@, pid@) == Some(old(self).pools@[i as int]),
                info == old(self).pools@[i as int].info,
                s_total == info.shares_total_supply,
                shares > 0 && s_total >= shares,
                held as int == spec_shares(info, issuer@),
                held >= shares,
                unique_keys(amounts@),
                forall|j: int|
                    0 <= j < amounts@.len() ==> spec_pool_has_symbol(
                        info,
                        (#[trigger] amounts@[j]).symbol@,
                    ) && spec_reserve(info, amounts@[j].symbol@) * shares <= u128::MAX,
                forall|j: int|
                    0 <= j < k ==> spec_withdrawn(
                        info,
                        shares as int,
                        (#[trigger] amounts@[j]).symbol@,
                    ) >= amounts@[j].amount,
            decreases amounts@.len() - k,
        {
            let j = match find_symbol_amount(&self.pools[i].info.symbol_data, &amounts[k].symbol) {
                None => {
                    proof {
                        assert(false);
                    }
                    return Err(Error::SymbolNotExistsInPool);
                },
                Some(j) => j,
            };
            let r0 = self.pools[i].info.symbol_data[j].amount;
            proof {
                assert(r0 == spec_reserve(info, amounts@[k as int].symbol@));
            }
            let computed = (r0 * shares) / s_total;
            if computed < amounts[k].amount {
                proof {
                    assert(spec_withdrawn(info, shares as int, amounts@[k as int].symbol@)
                        < amounts@[k as int].amount);
                }
                return Err(Error::TooLessSharesAmount);
            }
            k += 1;
        }
        // take the pool out, update it, put it back
        proof {
            lemma_first_match_remove(old_d.pools@, i as int, pid@);
            assert forall|q: Seq<u8>| true implies first_match(old_d.pools@.remove(i as int), q)
                == (if q == pid@ {
                None
            } else {
                first_match(old_d.pools@, q)
            }) by {
                lemma_first_match_remove(old_d.pools@, i as int, q);
            }
        }
        let mut entry = self.pools.remove(i);
        proof {
            assert forall|k2: int| 0 <= k2 < self.pools@.len() implies wf_pool_entry(
                #[trigger] self.pools@[k2],
            ) by {
                assert(self.pools@[k2] == old_d.pools@[if k2 < i as int {
                    k2
                } else {
                    k2 + 1
                }]);
            }
            lemma_wf_after_pools_change(old_d, *self);
        }
        let ghost mid_d = *self;
        let mut k: usize = 0;
        while k < amounts.len()
            invariant
                k <= amounts@.len(),
                unique_keys(amounts@),
                old_d.wf(),
                i < old_d.pools@.len(),
                first_match(old_d.pools@, pid@) == Some(old_d.pools@[i as int]),
                info == old_d.pools@[i as int].info,
                s_total == info.shares_total_supply,
                shares > 0 && s_total >= shares,
                entry.pid == old_d.pools@[i as int].pid,
                entry.owner == old_d.pools@[i as int].owner,
                entry.info.pid == info.pid,
                entry.info.total_fee == info.total_fee,
                entry.info.exchange_fee == info.exchange_fee,
                entry.info.shares_total_supply == info.shares_total_supply,
                entry.info.shares_data == info.shares_data,
                entry.info.volume_data == info.volume_data,
                entry.info.description == info.description,
                unique_keys(entry.info.symbol_data@),
                entry.info.symbol_data@.len() == info.symbol_data@.len(),
                forall|j: int|
                    0 <= j < amounts@.len() ==> spec_pool_has_symbol(
                        info,
                        (#[trigger] amounts@[j]).symbol@,
                    ) && spec_reserve(info, amounts@[j].symbol@) * shares <= u128::MAX,
                forall|s: Seq<u8>|
                    spec_pool_has_symbol(entry.info, s) == spec_pool_has_symbol(info, s),
                forall|j: int|
                    0 <= j < k ==> spec_reserve(entry.info, (#[trigger] amounts@[j]).symbol@)
                        as int == spec_reserve(info, amounts@[j].symbol@) - spec_withdrawn(
                        info,
                        shares as int,
                        amounts@[j].symbol@,
                    ),
                forall|s: Seq<u8>|
                    (forall|j: int| 0 <= j < k ==> s != (#[trigger] amounts@[j]).symbol@)
                        ==> spec_reserve(entry.info, s) == spec_reserve(info, s),
            decreases amounts@.len() - k,
        {
            let j = match find_symbol_amount(&entry.info.symbol_data, &amounts[k].symbol) {
                None => {
                    proof {
                        assert(spec_pool_has_symbol(info, amounts@[k as int].symbol@));
                        assert(false);
                    }
                    return Err(Error::SymbolNotExistsInPool);
                },
                Some(j) => j,
            };
            let ghost old_sd = entry.info.symbol_data@;
            let r0 = entry.info.symbol_data[j].amount;
            proof {
                assert forall|j2: int| 0 <= j2 < k implies amounts@[k as int].symbol@ != (
                #[trigger] amounts@[j2]).symbol@ by {
                    assert(amounts@[j2].key() != amounts@[k as int].key());
                }
                assert(r0 == spec_reserve(entry.info, amounts@[k as int].symbol@));
                assert(r0 == spec_reserve(info, amounts@[k as int].symbol@));
            }
            let computed = (r0 * shares) / s_total;
            proof {
                // the computed payout never exceeds the reserve
                assert(r0 as int * shares as int <= r0 as int * s_total as int)
                    by (nonlinear_arith)
                    requires
                        shares as int <= s_total as int && r0 as int >= 0,
                ;
                vstd::arithmetic::div_mod::lemma_div_is_ordered(
                    r0 as int * shares as int,
                    r0 as int * s_total as int,
                    s_total as int,
                );
                vstd::arithmetic::div_mod::lemma_div_multiples_vanish(r0 as int, s_total as int);
            }
            let mut sa = entry.info.symbol_data[j];
            sa.amount = r0 - computed;
            entry.info.symbol_data.set(j, sa);
            proof {
                lemma_first_match_update(old_sd, j as int, sa, amounts@[k as int].symbol@);
                assert forall|s: Seq<u8>| true implies first_match(entry.info.symbol_data@, s)
                    == (if s == amounts@[k as int].symbol@ {
                    Some(sa)
                } else {
                    first_match(old_sd, s)
                }) by {
                    lemma_first_match_update(old_sd, j as int, sa, s);
                }
            }
            k += 1;
        }
        // burn the caller's shares
        let ghost old_shares_data = entry.info.shares_data@;
        match find_account(&entry.info.shares_data, issuer) {
            None => {
                proof {
                    assert(false);
                }
                return Err(Error::NoEnoughShares);
            },
            Some(j) => {
                let held2 = entry.info.shares_data[j].amount;
                proof {
                    assert(held2 == held);
                }
                if held2 == shares {
                    proof {
                        lemma_sum_remove(old_shares_data, j as int);
                        lemma_first_match_remove(old_shares_data, j as int, issuer@);
                        assert forall|a: Seq<u8>| a != issuer@ implies first_match(
                            old_shares_data.remove(j as int),
                            a,
                        ) == first_match(old_shares_data, a) by {
                            lemma_first_match_remove(old_shares_data, j as int, a);
                        }
                    }
                    entry.info.shares_data.remove(j);
                } else {
                    let mut ab = entry.info.shares_data[j];
                    ab.amount = held2 - shares;
                    entry.info.shares_data.set(j, ab);
                    proof {
                        lemma_sum_update(old_shares_data, j as int, ab);
                        lemma_first_match_update(old_shares_data, j as int, ab, issuer@);
                        assert forall|a: Seq<u8>| a != issuer@ implies first_match(
                            entry.info.shares_data@,
                            a,
                        ) == first_match(old_shares_data, a) by {
                            lemma_first_match_update(old_shares_data, j as int, ab, a);
                        }
                    }
                }
            },
        }
        proof {
            assert forall|k2: int|
                0 <= k2 < old_shares_data.len() implies (#[trigger] old_shares_data[k2].val())
                >= 0 by {}
            lemma_sum_ge_element(old_shares_data, choose|j2: int|
                0 <= j2 < old_shares_data.len() && old_shares_data[j2] == first_match(
                    old_shares_data,
                    issuer@,
                )->Some_0 && (#[trigger] old_shares_data[j2].key()) == issuer@);
        }
        entry.info.shares_total_supply = s_total - shares;
        proof {
            assert(wf_pool_entry(entry));
            lemma_first_match_push(mid_d.pools@, entry, pid@);
            assert forall|q: Seq<u8>| true implies first_match(mid_d.pools@.push(entry), q) == (
            if q == pid@ {
                Some(entry)
            } else {
                first_match(mid_d.pools@, q)
            }) by {
                lemma_first_match_push(mid_d.pools@, entry, q);
            }
        }
        self.pools.push(entry);
        proof {
            assert forall|k2: int| 0 <= k2 < self.pools@.len() implies wf_pool_entry(
                #[trigger] self.pools@[k2],
            ) by {
                if k2 < mid_d.pools@.len() {
                    assert(self.pools@[k2] == mid_d.pools@[k2]);
                }
            }
            lemma_wf_after_pools_change(mid_d, *self);
            assert forall|s: Seq<u8>| !has_key(amounts@, s) implies spec_reserve(entry.info, s)
                == spec_reserve(info, s) by {
                assert forall|j: int| 0 <= j < amounts@.len() implies s != (
                #[trigger] amounts@[j]).symbol@ by {
                    if s == amounts@[j].symbol@ {
                        crate::keyed::lemma_first_match_at(amounts@, j, s);
                    }
                }
            }
        }
        Ok(())
    }
}


/// The constant-product output formula with a proportional fee skim:
/// `amount_in * (10000 - fee) * r_out / (10000 * r_in + amount_in * (10000 - fee))`,
/// rounded down.
pub open spec fn spec_swap_output(total_fee: int, r_in: int, r_out: int, amount_in: int) -> int {
    let awf = amount_in * (10000 - total_fee);
    awf * r_out / (10000 * r_in + awf)
}

/// The swap output of a pool record for the given symbols.
pub open spec fn spec_pool_swap_output(
    info: PoolInfo,
    ain: Seq<u8>,
    aout: Seq<u8>,
    amount_in: int,
) -> int {
    spec_swap_output(
        info.total_fee as int,
        spec_reserve(info, ain) as int,
        spec_reserve(info, aout) as int,
        amount_in,
    )
}

/// What a swap asks of its caller: the pool exists, both reserves are
/// positive, the symbols differ, the input is positive, and the formula's
/// products fit in 128 bits.  Violating these is a caller bug, not a
/// recoverable error.
pub open spec fn spec_swap_ok(
    d: Dex,
    pid: Seq<u8>,
    ain: Seq<u8>,
    aout: Seq<u8>,
    amount_in: int,
) -> bool {
    match spec_pool(d, pid) {
        None => false,
        Some(p) => {
            let info = p.info;
            &&& spec_reserve(info, ain) > 0
            &&& spec_reserve(info, aout) > 0
            &&& ain != aout
            &&& amount_in > 0
            &&& amount_in * (10000 - info.total_fee) <= u128::MAX
            &&& amount_in * (10000 - info.total_fee) * spec_reserve(info, aout) <= u128::MAX
            &&& 10000 * spec_reserve(info, ain) + amount_in * (10000 - info.total_fee)
                <= u128::MAX
        },
    }
}

/// The pool invariant before a swap: the product of the floor square roots
/// of the two reserves.
pub open spec fn spec_prev_invariant(info: PoolInfo, ain: Seq<u8>, aout: Seq<u8>) -> int {
    crate::math::spec_sqrt(spec_reserve(info, ain) as int) * crate::math::spec_sqrt(
        spec_reserve(info, aout) as int,
    )
}

/// The pool invariant after a swap that grows both reserves.
pub open spec fn spec_new_invariant(
    info: PoolInfo,
    ain: Seq<u8>,
    aout: Seq<u8>,
    amount_in: int,
) -> int {
    crate::math::spec_sqrt(spec_reserve(info, ain) + amount_in) * crate::math::spec_sqrt(
        spec_reserve(info, aout) + spec_pool_swap_output(info, ain, aout, amount_in),
    )
}

/// The protocol shares minted from the fee skim when the invariant grows.
pub open spec fn spec_protocol_shares(info: PoolInfo, prev: int, newv: int) -> int {
    let numerator = (newv - prev) * info.shares_total_supply;
    if info.exchange_fee > 0 && numerator > 0 {
        numerator / (newv * info.total_fee / (info.exchange_fee as int))
    } else {
        0
    }
}

/// The arithmetic room `swap_asset` needs on the success path.
pub open spec fn spec_swap_bounds(
    d: Dex,
    pid: Seq<u8>,
    ain: Seq<u8>,
    aout: Seq<u8>,
    amount_in: int,
) -> bool {
    match spec_pool(d, pid) {
        None => true,
        Some(p) => {
            let info = p.info;
            let out = spec_pool_swap_output(info, ain, aout, amount_in);
            let prev = spec_prev_invariant(info, ain, aout);
            let newv = spec_new_invariant(info, ain, aout, amount_in);
            &&& spec_reserve(info, ain) + amount_in <= u128::MAX
            &&& spec_reserve(info, aout) + out <= u128::MAX
            &&& (newv >= prev ==> (newv - prev) * info.shares_total_supply <= u128::MAX)
            &&& newv * info.total_fee <= u128::MAX
            &&& (newv >= prev ==> info.shares_total_supply + spec_protocol_shares(
                info,
                prev,
                newv,
            ) <= u128::MAX)
            &&& spec_issuance(d, aout) + out <= u128::MAX
        },
    }
}

/// The decision `swap_asset` makes, in the order its checks run.
pub open spec fn spec_swap_result(
    d: Dex,
    who: Seq<u8>,
    pid: Seq<u8>,
    ain: Seq<u8>,
    amount_in: int,
    aout: Seq<u8>,
    min_amount_out: int,
) -> Result<(), Error> {
    let info = spec_pool(d, pid)->Some_0.info;
    let out = spec_pool_swap_output(info, ain, aout, amount_in);
    let prev = spec_prev_invariant(info, ain, aout);
    let newv = spec_new_invariant(info, ain, aout, amount_in);
    if out < min_amount_out {
        Err(Error::NoEnoughSwapAmount)
    } else if !spec_asset_exists(d, ain) {
        Err(Error::AssetNotExists)
    } else if spec_balance(d, ain, who) < amount_in {
        Err(Error::InsufficientBalance)
    } else if newv < prev {
        Err(Error::WrongInvariant)
    } else if !spec_asset_exists(d, aout) {
        Err(Error::AssetNotExists)
    } else {
        Ok(())
    }
}

/// Saturating 128-bit addition, as used by the volume accumulators.
pub open spec fn spec_sat_add(a: int, b: int) -> int {
    if a + b > u128::MAX {
        u128::MAX as int
    } else {
        a + b
    }
}

impl Dex {
    /// The amount of `asset_out` a swap of `amount_in` of `asset_in` through
    /// pool `pid` returns, by the constant-product formula with the pool's
    /// total fee skimmed from the input.
    pub fn get_swap_return_asset(
        &self,
        pid: &PoolId,
        asset_in: &AssetSymbol,
        amount_in: Balance,
        asset_out: &AssetSymbol,
    ) -> (r: Balance)
        requires
            self.wf(),
            spec_swap_ok(*self, pid@, asset_in@, asset_out@, amount_in as int),
        ensures
            r as int == spec_pool_swap_output(
                spec_pool(*self, pid@)->Some_0.info,
                asset_in@,
                asset_out@,
                amount_in as int,
            ),
    {
        let i = match find_pool(&self.pools, pid) {
            None => {
                proof {
                    assert(false);
                }
                return 0;
            },
            Some(i) => i,
        };
        let r_in = match find_symbol_amount(&self.pools[i].info.symbol_data, asset_in) {
            None => {
                proof {
                    assert(false);
                }
                return 0;
            },
            Some(j) => self.pools[i].info.symbol_data[j].amount,
        };
        let r_out = match find_symbol_amount(&self.pools[i].info.symbol_data, asset_out) {
            None => {
                proof {
                    assert(false);
                }
                return 0;
            },
            Some(j) => self.pools[i].info.symbol_data[j].amount,
        };
        let total_fee = self.pools[i].info.total_fee;
        let fee_factor: u128 = (FEE_DIVISOR - total_fee) as u128;
        let awf = amount_in * fee_factor;
        let num = awf * r_out;
        let den = 10000u128 * r_in + awf;
        num / den
    }

    /// Swaps `amount_in` of `asset_in` for at least `min_amount_out` of
    /// `asset_out` through pool `pid`.
    ///
    /// The computed output is credited to the caller and both reserves grow
    /// by what was moved; the square-root product invariant must not shrink,
    /// and when the pool takes an exchange fee the growth mints protocol
    /// shares to the caller.
    pub fn swap_asset(
        &mut self,
        who: &AccountId,
        pid: &PoolId,
        asset_in: &AssetSymbol,
        amount_in: Balance,
        asset_out: &AssetSymbol,
        min_amount_out: Balance,
    ) -> (r: Result<(), Error>)
        requires
            old(self).wf(),
            spec_swap_ok(*old(self), pid@, asset_in@, asset_out@, amount_in as int),
            spec_swap_bounds(*old(self), pid@, asset_in@, asset_out@, amount_in as int),
        ensures
            final(self).wf(),
            r == spec_swap_result(
                *old(self),
                who@,
                pid@,
                asset_in@,
                amount_in as int,
                asset_out@,
                min_amount_out as int,
            ),
            r is Err ==> *final(self) == *old(self),
            r is Ok ==> spec_swap_post(
                *old(self),
                *final(self),
                who@,
                pid@,
                asset_in@,
                amount_in as int,
                asset_out@,
                min_amount_out as int,
            ),
    {
        let ghost old_d = *self;
        let amount_out = self.get_swap_return_asset(pid, asset_in, amount_in, asset_out);
        if amount_out < min_amount_out {
            return Err(Error::NoEnoughSwapAmount);
        }
        match self.ensure_can_withdraw(asset_in, who, amount_in) {
            Ok(()) => {},
            Err(e) => {
                return Err(e);
            },
        }
        let i = match find_pool(&self.pools, pid) {
            None => {
                proof {
                    assert(false);
                }
                return Err(Error::PoolNotExists);
            },
            Some(i) => i,
        };
        let ghost info = old_d.pools@[i as int].info;
        let jin = match find_symbol_amount(&self.pools[i].info.symbol_data, asset_in) {
            None => {
                proof {
                    assert(false);
                }
                return Err(Error::SymbolNotExistsInPool);
            },
            Some(j) => j,
        };
        let jout = match find_symbol_amount(&self.pools[i].info.symbol_data, asset_out) {
            None => {
                proof {
                    assert(false);
                }
                return Err(Error::SymbolNotExistsInPool);
            },
            Some(j) => j,
        };
        let r_in = self.pools[i].info.symbol_data[jin].amount;
        let r_out = self.pools[i].info.symbol_data[jout].amount;
        let sq_in = crate::math::integer_sqrt(r_in);
        let sq_out = crate::math::integer_sqrt(r_out);
        proof {
            crate::math::lemma_sqrt_bound(r_in as int);
            crate::math::lemma_sqrt_bound(r_out as int);
            assert(sq_in as int * sq_out as int <= u128::MAX) by (nonlinear_arith)
                requires
                    0 <= sq_in as int && (sq_in as int) < 0x1_0000_0000_0000_0000 && 0 <= sq_out
                        as int && (sq_out as int) < 0x1_0000_0000_0000_0000,
            ;
        }
        let prev_invariant = sq_in * sq_out;
        let new_in = r_in + amount_in;
        let new_out = r_out + amount_out;
        let sq_new_in = crate::math::integer_sqrt(new_in);
        let sq_new_out = crate::math::integer_sqrt(new_out);
        proof {
            crate::math::lemma_sqrt_bound(new_in as int);
            crate::math::lemma_sqrt_bound(new_out as int);
            assert(sq_new_in as int * sq_new_out as int <= u128::MAX) by (nonlinear_arith)
                requires
                    0 <= sq_new_in as int && (sq_new_in as int) < 0x1_0000_0000_0000_0000 && 0
                        <= sq_new_out as int && (sq_new_out as int) < 0x1_0000_0000_0000_0000,
            ;
        }
        let new_invariant = sq_new_in * sq_new_out;
        if new_invariant < prev_invariant {
            return Err(Error::WrongInvariant);
        }
        if !self.is_asset_existed(asset_out) {
            return Err(Error::AssetNotExists);
        }
        let s_total = self.pools[i].info.shares_total_supply;
        let exchange_fee = self.pools[i].info.exchange_fee;
        let total_fee = self.pools[i].info.total_fee;
        let numerator = (new_invariant - prev_invariant) * s_total;
        let minted: u128;
        if exchange_fee > 0 && numerator > 0 {
            let denominator = new_invariant * (total_fee as u128) / (exchange_fee as u128);
            proof {
                crate::math::lemma_spec_sqrt_is_floor(new_in as int);
                crate::math::lemma_spec_sqrt_is_floor(new_out as int);
                assert(sq_new_in >= 1) by (nonlinear_arith)
                    requires
                        sq_new_in as int * sq_new_in as int <= new_in as int && (sq_new_in as int
                            + 1) * (sq_new_in as int + 1) > new_in as int && new_in as int >= 1
                            && sq_new_in as int >= 0,
                ;
                assert(sq_new_out >= 1) by (nonlinear_arith)
                    requires
                        sq_new_out as int * sq_new_out as int <= new_out as int && (sq_new_out
                            as int + 1) * (sq_new_out as int + 1) > new_out as int && new_out
                            as int >= 1 && sq_new_out as int >= 0,
                ;
                assert(new_invariant >= 1) by (nonlinear_arith)
                    requires
                        sq_new_in >= 1 && sq_new_out >= 1 && new_invariant == sq_new_in as int
                            * sq_new_out as int,
                ;
                assert(new_invariant as int * total_fee as int >= exchange_fee as int)
                    by (nonlinear_arith)
                    requires
                        new_invariant as int >= 1 && total_fee as int >= exchange_fee as int
                            && exchange_fee as int >= 1,
                ;
                vstd::arithmetic::div_mod::lemma_div_non_zero(
                    new_invariant as int * total_fee as int,
                    exchange_fee as int,
                );
            }
            minted = numerator / denominator;
            proof {
                vstd::arithmetic::div_mod::lemma_div_pos_is_pos(
                    numerator as int,
                    denominator as int,
                );
            }
        } else {
            minted = 0;
        }
        proof {
            assert(minted as int == spec_protocol_shares(
                info,
                prev_invariant as int,
                new_invariant as int,
            ));
        }
        // take the pool out, update it, put it back
        proof {
            lemma_first_match_remove(old_d.pools@, i as int, pid@);
            assert forall|q: Seq<u8>| true implies first_match(old_d.pools@.remove(i as int), q)
                == (if q == pid@ {
                None
            } else {
                first_match(old_d.pools@, q)
            }) by {
                lemma_first_match_remove(old_d.pools@, i as int, q);
            }
        }
        let mut entry = self.pools.remove(i);
        proof {
            assert forall|k2: int| 0 <= k2 < self.pools@.len() implies wf_pool_entry(
                #[trigger] self.pools@[k2],
            ) by {
                assert(self.pools@[k2] == old_d.pools@[if k2 < i as int {
                    k2
                } else {
                    k2 + 1
                }]);
            }
            lemma_wf_after_pools_change(old_d, *self);
        }
        let ghost mid_d = *self;
        // reserves grow on both sides
        let ghost sd0 = entry.info.symbol_data@;
        let mut sa_in = entry.info.symbol_data[jin];
        sa_in.amount = new_in;
        entry.info.symbol_data.set(jin, sa_in);
        proof {
            lemma_first_match_update(sd0, jin as int, sa_in, asset_in@);
            assert forall|s: Seq<u8>| true implies first_match(entry.info.symbol_data@, s) == (
            if s == asset_in@ {
                Some(sa_in)
            } else {
                first_match(sd0, s)
            }) by {
                lemma_first_match_update(sd0, jin as int, sa_in, s);
            }
        }
        let ghost sd1 = entry.info.symbol_data@;
        proof {
            assert(jin != jout);
            assert(sd1[jout as int] == sd0[jout as int]);
        }
        let mut sa_out = entry.info.symbol_data[jout];
        sa_out.amount = new_out;
        entry.info.symbol_data.set(jout, sa_out);
        proof {
            lemma_first_match_update(sd1, jout as int, sa_out, asset_out@);
            assert forall|s: Seq<u8>| true implies first_match(entry.info.symbol_data@, s) == (
            if s == asset_out@ {
                Some(sa_out)
            } else {
                first_match(sd1, s)
            }) by {
                lemma_first_match_update(sd1, jout as int, sa_out, s);
            }
        }
        // protocol shares from the fee skim
        let ghost shares0 = entry.info.shares_data@;
        if exchange_fee > 0 && numerator > 0 {
            entry.info.shares_total_supply = s_total + minted;
            match find_account(&entry.info.shares_data, who) {
                Some(j) => {
                    let held = entry.info.shares_data[j].amount;
                    proof {
                        assert forall|k2: int|
                            0 <= k2 < shares0.len() implies (#[trigger] shares0[k2].val())
                            >= 0 by {}
                        lemma_sum_ge_element(shares0, j as int);
                    }
                    let mut ab = entry.info.shares_data[j];
                    ab.amount = held + minted;
                    entry.info.shares_data.set(j, ab);
                    proof {
                        lemma_sum_update(shares0, j as int, ab);
                        lemma_first_match_update(shares0, j as int, ab, who@);
                        assert forall|a: Seq<u8>| a != who@ implies first_match(
                            entry.info.shares_data@,
                            a,
                        ) == first_match(shares0, a) by {
                            lemma_first_match_update(shares0, j as int, ab, a);
                        }
                    }
                },
                None => {
                    let ab = AccountBalance { account: *who, amount: minted };
                    entry.info.shares_data.push(ab);
                    proof {
                        lemma_sum_push(shares0, ab);
                        lemma_first_match_push(shares0, ab, who@);
                        assert forall|a: Seq<u8>| a != who@ implies first_match(
                            entry.info.shares_data@,
                            a,
                        ) == first_match(shares0, a) by {
                            lemma_first_match_push(shares0, ab, a);
                        }
                    }
                },
            }
        } else {
            proof {
                assert(minted == 0);
            }
        }
        // cumulative volumes, saturating
        let ghost vol0 = entry.info.volume_data@;
        match find_symbol_volume(&entry.info.volume_data, asset_in) {
            Some(j) => {
                let mut sv = entry.info.volume_data[j];
                sv.volume.input = if sv.volume.input > u128::MAX - amount_in {
                    u128::MAX
                } else {
                    sv.volume.input + amount_in
                };
                entry.info.volume_data.set(j, sv);
                proof {
                    lemma_first_match_update(vol0, j as int, sv, asset_in@);
                    assert forall|s: Seq<u8>| true implies first_match(entry.info.volume_data@, s)
                        == (if s == asset_in@ {
                        Some(sv)
                    } else {
                        first_match(vol0, s)
                    }) by {
                        lemma_first_match_update(vol0, j as int, sv, s);
                    }
                }
            },
            None => {
                let sv = SymbolVolume {
                    symbol: *asset_in,
                    volume: SwapVolume { input: amount_in, output: 0 },
                };
                entry.info.volume_data.push(sv);
                proof {
                    lemma_first_match_push(vol0, sv, asset_in@);
                    assert forall|s: Seq<u8>| true implies first_match(entry.info.volume_data@, s)
                        == (if s == asset_in@ {
                        Some(sv)
                    } else {
                        first_match(vol0, s)
                    }) by {
                        lemma_first_match_push(vol0, sv, s);
                    }
                }
            },
        }
        let ghost vol1 = entry.info.volume_data@;
        match find_symbol_volume(&entry.info.volume_data, asset_out) {
            Some(j) => {
                let mut sv = entry.info.volume_data[j];
                sv.volume.output = if sv.volume.output > u128::MAX - amount_out {
                    u128::MAX
                } else {
                    sv.volume.output + amount_out
                };
                entry.info.volume_data.set(j, sv);
                proof {
                    lemma_first_match_update(vol1, j as int, sv, asset_out@);
                    assert forall|s: Seq<u8>| true implies first_match(entry.info.volume_data@, s)
                        == (if s == asset_out@ {
                        Some(sv)
                    } else {
                        first_match(vol1, s)
                    }) by {
                        lemma_first_match_update(vol1, j as int, sv, s);
                    }
                }
            },
            None => {
                let sv = SymbolVolume {
                    symbol: *asset_out,
                    volume: SwapVolume { input: 0, output: amount_out },
                };
                entry.info.volume_data.push(sv);
                proof {
                    lemma_first_match_push(vol1, sv, asset_out@);
                    assert forall|s: Seq<u8>| true implies first_match(entry.info.volume_data@, s)
                        == (if s == asset_out@ {
                        Some(sv)
                    } else {
                        first_match(vol1, s)
                    }) by {
                        lemma_first_match_push(vol1, sv, s);
                    }
                }
            },
        }
        proof {
            assert(wf_pool_entry(entry));
            lemma_first_match_push(mid_d.pools@, entry, pid@);
            assert forall|q: Seq<u8>| true implies first_match(mid_d.pools@.push(entry), q) == (
            if q == pid@ {
                Some(entry)
            } else {
                first_match(mid_d.pools@, q)
            }) by {
                lemma_first_match_push(mid_d.pools@, entry, q);
            }
        }
        self.pools.push(entry);
        proof {
            assert forall|k2: int| 0 <= k2 < self.pools@.len() implies wf_pool_entry(
                #[trigger] self.pools@[k2],
            ) by {
                if k2 < mid_d.pools@.len() {
                    assert(self.pools@[k2] == mid_d.pools@[k2]);
                }
            }
            lemma_wf_after_pools_change(mid_d, *self);
        }
        // move the swapped amounts through the ledger
        match self.ledger_withdraw(asset_in, who, amount_in) {
            Ok(()) => {},
            Err(e) => {
                proof {
                    assert(false);
                }
                return Err(e);
            },
        }
        match self.ledger_deposit(asset_out, who, amount_out) {
            Ok(()) => {},
            Err(e) => {
                proof {
                    assert(false);
                }
                return Err(e);
            },
        }
        Ok(())
    }
}


/// What a successful `add_liquidity_to_pool` changes.
pub open spec fn spec_add_liquidity_post(
    old_d: Dex,
    new_d: Dex,
    issuer: Seq<u8>,
    pid: Seq<u8>,
    amounts: Seq<SymbolAmount>,
) -> bool {
                let info = spec_pool(old_d, pid)->Some_0.info;
                let shares: int = if info.shares_total_supply == 0 {
                    INIT_SHARES_SUPPLY as int
                } else {
                    spec_fair_supply(info, amounts)
                };
                &&& spec_pool(new_d, pid) matches Some(p2) && p2.owner == spec_pool(
                    old_d,
                    pid,
                )->Some_0.owner && p2.info.total_fee == info.total_fee && p2.info.exchange_fee
                    == info.exchange_fee && p2.info.volume_data == info.volume_data
                    && p2.info.description == info.description && (forall|k: int|
                    0 <= k < amounts.len() ==> spec_reserve(
                        p2.info,
                        (#[trigger] amounts[k]).symbol@,
                    ) == spec_reserve(info, amounts[k].symbol@) + spec_deposit_amount(
                        info,
                        amounts,
                        k,
                    )) && (forall|s: Seq<u8>|
                    !has_key(amounts, s) ==> spec_reserve(p2.info, s) == spec_reserve(info, s))
                    && (forall|s: Seq<u8>|
                    spec_pool_has_symbol(p2.info, s) == spec_pool_has_symbol(info, s))
                    && p2.info.symbol_data@.len() == info.symbol_data@.len()
                    && p2.info.shares_total_supply as int == info.shares_total_supply + shares
                    && spec_shares(p2.info, issuer) as int == spec_shares(info, issuer) + shares
                    && (forall|a: Seq<u8>|
                    a != issuer ==> spec_shares(p2.info, a) == spec_shares(info, a))
                &&& forall|q: Seq<u8>|
                    q != pid ==> spec_pool(new_d, q) == spec_pool(old_d, q)
                &&& forall|k: int|
                    0 <= k < amounts.len() ==> spec_balance(
                        new_d,
                        (#[trigger] amounts[k]).symbol@,
                        issuer,
                    ) == spec_balance(old_d, amounts[k].symbol@, issuer)
                        - spec_deposit_amount(
                        spec_pool(old_d, pid)->Some_0.info,
                        amounts,
                        k,
                    )
                &&& forall|k: int|
                    0 <= k < amounts.len() ==> spec_issuance(
                        new_d,
                        (#[trigger] amounts[k]).symbol@,
                    ) == spec_issuance(old_d, amounts[k].symbol@) - spec_deposit_amount(
                        spec_pool(old_d, pid)->Some_0.info,
                        amounts,
                        k,
                    )
                &&& forall|s: Seq<u8>, a: Seq<u8>|
                    (a != issuer || !has_key(amounts, s)) ==> spec_balance(new_d, s, a)
                        == spec_balance(old_d, s, a)
                &&& forall|s: Seq<u8>|
                    !has_key(amounts, s) ==> spec_issuance(new_d, s) == spec_issuance(
                        old_d,
                        s,
                    )
                &&& only_pools_and_ledger_changed(old_d, new_d)

}


/// What a successful `remove_liquidity_from_pool` changes.
pub open spec fn spec_remove_liquidity_post(
    old_d: Dex,
    new_d: Dex,
    issuer: Seq<u8>,
    pid: Seq<u8>,
    shares: int,
    amounts: Seq<SymbolAmount>,
) -> bool {
                let info = spec_pool(old_d, pid)->Some_0.info;
                &&& spec_pool(new_d, pid) matches Some(p2) && p2.owner == spec_pool(
                    old_d,
                    pid,
                )->Some_0.owner && p2.info.total_fee == info.total_fee && p2.info.exchange_fee
                    == info.exchange_fee && p2.info.volume_data == info.volume_data
                    && p2.info.description == info.description && p2.info.symbol_data@.len()
                    == info.symbol_data@.len() && (forall|k: int|
                    0 <= k < amounts.len() ==> spec_reserve(
                        p2.info,
                        (#[trigger] amounts[k]).symbol@,
                    ) == spec_reserve(info, amounts[k].symbol@) - spec_withdrawn(
                        info,
                        shares,
                        amounts[k].symbol@,
                    )) && (forall|s: Seq<u8>|
                    !has_key(amounts, s) ==> spec_reserve(p2.info, s) == spec_reserve(info, s))
                    && (forall|s: Seq<u8>|
                    spec_pool_has_symbol(p2.info, s) == spec_pool_has_symbol(info, s))
                    && p2.info.shares_total_supply as int == info.shares_total_supply - shares
                    && spec_shares(p2.info, issuer) as int == spec_shares(info, issuer) - shares
                    && (forall|a: Seq<u8>|
                    a != issuer ==> spec_shares(p2.info, a) == spec_shares(info, a))
                &&& forall|q: Seq<u8>|
                    q != pid ==> spec_pool(new_d, q) == spec_pool(old_d, q)
                &&& only_pools_changed(old_d, new_d)

}


/// What a successful `swap_asset` changes.
pub open spec fn spec_swap_post(
    old_d: Dex,
    new_d: Dex,
    who: Seq<u8>,
    pid: Seq<u8>,
    ain: Seq<u8>,
    amount_in: int,
    aout: Seq<u8>,
    min_amount_out: int,
) -> bool {
                let info = spec_pool(old_d, pid)->Some_0.info;
                let out = spec_pool_swap_output(info, ain, aout, amount_in);
                let prev = spec_prev_invariant(info, ain, aout);
                let newv = spec_new_invariant(info, ain, aout, amount_in);
                let sh = spec_protocol_shares(info, prev, newv);
                &&& out >= min_amount_out
                &&& newv >= prev
                &&& spec_pool(new_d, pid) matches Some(p2) && p2.owner == spec_pool(
                    old_d,
                    pid,
                )->Some_0.owner && p2.info.total_fee == info.total_fee && p2.info.exchange_fee
                    == info.exchange_fee && p2.info.description == info.description
                    && p2.info.symbol_data@.len() == info.symbol_data@.len() && spec_reserve(
                    p2.info,
                    ain,
                ) as int == spec_reserve(info, ain) + amount_in && spec_reserve(
                    p2.info,
                    aout,
                ) as int == spec_reserve(info, aout) + out && (forall|s: Seq<u8>|
                    s != ain && s != aout ==> spec_reserve(p2.info, s) == spec_reserve(
                        info,
                        s,
                    )) && (forall|s: Seq<u8>|
                    spec_pool_has_symbol(p2.info, s) == spec_pool_has_symbol(info, s))
                    && p2.info.shares_total_supply as int == info.shares_total_supply + sh
                    && spec_shares(p2.info, who) as int == spec_shares(info, who) + sh && (
                forall|a: Seq<u8>|
                    a != who ==> spec_shares(p2.info, a) == spec_shares(info, a)) && spec_volume(
                    p2.info,
                    ain,
                ).input as int == spec_sat_add(
                    spec_volume(info, ain).input as int,
                    amount_in,
                ) && spec_volume(p2.info, ain).output == spec_volume(info, ain).output
                    && spec_volume(p2.info, aout).output as int == spec_sat_add(
                    spec_volume(info, aout).output as int,
                    out,
                ) && spec_volume(p2.info, aout).input == spec_volume(info, aout).input
                    && (forall|s: Seq<u8>|
                    s != ain && s != aout ==> spec_volume(p2.info, s) == spec_volume(
                        info,
                        s,
                    ))
                &&& forall|q: Seq<u8>|
                    q != pid ==> spec_pool(new_d, q) == spec_pool(old_d, q)
                &&& spec_balance(new_d, ain, who) as int == spec_balance(
                    old_d,
                    ain,
                    who,
                ) - amount_in
                &&& spec_balance(new_d, aout, who) as int == spec_balance(
                    old_d,
                    aout,
                    who,
                ) + out
                &&& spec_issuance(new_d, ain) as int == spec_issuance(
                    old_d,
                    ain,
                ) - amount_in
                &&& spec_issuance(new_d, aout) as int == spec_issuance(
                    old_d,
                    aout,
                ) + out
                &&& forall|s: Seq<u8>, a: Seq<u8>|
                    (a != who || (s != ain && s != aout)) ==> spec_balance(
                        new_d,
                        s,
                        a,
                    ) == spec_balance(old_d, s, a)
                &&& forall|s: Seq<u8>|
                    s != ain && s != aout ==> spec_issuance(new_d, s)
                        == spec_issuance(old_d, s)
                &&& only_pools_and_ledger_changed(old_d, new_d)

}


/// What a successful `register_pool` changes.
pub open spec fn spec_register_pool_post(
    old_d: Dex,
    new_d: Dex,
    issuer: Seq<u8>,
    pid: Seq<u8>,
    total_fee: u32,
    exchange_fee: u32,
    entries: Seq<SymbolAmount>,
    description: Option<StdString>,
) -> bool {
                &&& spec_pool(new_d, pid) matches Some(p) && p.owner@ == issuer
                    && p.info.total_fee == total_fee && p.info.exchange_fee == exchange_fee
                    && p.info.description == description && p.info.symbol_data@.len()
                    == entries.len() && (forall|k: int|
                    0 <= k < entries.len() ==> spec_reserve(
                        p.info,
                        (#[trigger] entries[k]).symbol@,
                    ) == entries[k].amount && spec_pool_has_symbol(
                        p.info,
                        entries[k].symbol@,
                    )) && p.info.shares_total_supply == (if (exists|k: int|
                    0 <= k < entries.len() && (#[trigger] entries[k]).amount > 0) {
                    INIT_SHARES_SUPPLY
                } else {
                    0
                }) && spec_shares(p.info, issuer) == p.info.shares_total_supply
                &&& forall|q: Seq<u8>|
                    q != pid ==> spec_pool(new_d, q) == spec_pool(old_d, q)
                &&& forall|k: int|
                    0 <= k < entries.len() ==> spec_balance(
                        new_d,
                        (#[trigger] entries[k]).symbol@,
                        issuer,
                    ) == spec_balance(old_d, entries[k].symbol@, issuer)
                        - entries[k].amount
                &&& forall|s: Seq<u8>, a: Seq<u8>|
                    (a != issuer || !has_key(entries, s)) ==> spec_balance(
                        new_d,
                        s,
                        a,
                    ) == spec_balance(old_d, s, a)
                &&& only_pools_and_ledger_changed(old_d, new_d)

}

impl Dex {
    /// A copy of the pool's per-symbol reserves; empty when the pool does
    /// not exist.
    pub fn get_symbol_data(&self, pid: &PoolId) -> (r: Vec<SymbolAmount>)
        ensures
            r@ == (match spec_pool(*self, pid@) {
                Some(p) => p.info.symbol_data@,
                None => Seq::<SymbolAmount>::empty(),
            }),
    {
        match find_pool(&self.pools, pid) {
            None => Vec::new(),
            Some(i) => {
                let src = &self.pools[i].info.symbol_data;
                let mut out: Vec<SymbolAmount> = Vec::new();
                let mut k: usize = 0;
                while k < src.len()
                    invariant
                        k <= src@.len(),
                        out@ == src@.take(k as int),
                    decreases src@.len() - k,
                {
                    out.push(src[k]);
                    proof {
                        assert(out@ =~= src@.take(k as int + 1));
                    }
                    k += 1;
                }
                proof {
                    assert(src@.take(src@.len() as int) =~= src@);
                }
                out
            },
        }
    }

    /// The symbols the pool pools, in list order; empty when the pool does
    /// not exist.
    pub fn get_all_symbols(&self, pid: &PoolId) -> (r: Vec<AssetSymbol>)
        ensures
            r@ == (match spec_pool(*self, pid@) {
                Some(p) => p.info.symbol_data@.map_values(|e: SymbolAmount| e.symbol),
                None => Seq::<AssetSymbol>::empty(),
            }),
    {
        match find_pool(&self.pools, pid) {
            None => Vec::new(),
            Some(i) => {
                let src = &self.pools[i].info.symbol_data;
                let mut out: Vec<AssetSymbol> = Vec::new();
                let mut k: usize = 0;
                while k < src.len()
                    invariant
                        k <= src@.len(),
                        out@ == src@.take(k as int).map_values(|e: SymbolAmount| e.symbol),
                    decreases src@.len() - k,
                {
                    out.push(src[k].symbol);
                    proof {
                        assert(out@ =~= src@.take(k as int + 1).map_values(
                            |e: SymbolAmount| e.symbol,
                        ));
                    }
                    k += 1;
                }
                proof {
                    assert(src@.take(src@.len() as int) =~= src@);
                }
                out
            },
        }
    }

    /// A copy of the pool's cumulative swap volumes; empty when the pool
    /// does not exist.
    pub fn get_volume_data(&self, pid: &PoolId) -> (r: Vec<SymbolVolume>)
        ensures
            r@ == (match spec_pool(*self, pid@) {
                Some(p) => p.info.volume_data@,
                None => Seq::<SymbolVolume>::empty(),
            }),
    {
        match find_pool(&self.pools, pid) {
            None => Vec::new(),
            Some(i) => {
                let src = &self.pools[i].info.volume_data;
                let mut out: Vec<SymbolVolume> = Vec::new();
                let mut k: usize = 0;
                while k < src.len()
                    invariant
                        k <= src@.len(),
                        out@ == src@.take(k as int),
                    decreases src@.len() - k,
                {
                    out.push(src[k]);
                    proof {
                        assert(out@ =~= src@.take(k as int + 1));
                    }
                    k += 1;
                }
                proof {
                    assert(src@.take(src@.len() as int) =~= src@);
                }
                out
            },
        }
    }
}

} // verus!
