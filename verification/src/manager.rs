//! The pool manager: tags each pool id with its kind and forwards calls to
//! the matching pool implementation.

use vstd::prelude::*;
use crate::amm::{only_pools_and_ledger_changed, spec_add_liquidity_bounds, spec_add_liquidity_post, spec_add_liquidity_result,
    spec_pool_swap_output, spec_register_pool_post, spec_register_pool_result,
    spec_remove_liquidity_post, spec_swap_bounds, spec_swap_ok, spec_swap_post, spec_swap_result,
    spec_withdrawn};
use crate::errors::Error;
use crate::keyed::{first_match, lemma_first_match_push, lemma_first_match_update, unique_keys,
    KeyedRec};
use crate::metadata::{SymbolAmount, SymbolVolume};
use crate::primitives::{AccountId, AssetSymbol, Balance, PoolId, PoolType, StdString};
use crate::state::{find_pool_kind, spec_balance, spec_pool, spec_pool_kind, spec_shares, Dex,
    PoolKindEntry};

verus! {

impl Dex {
    /// The kind recorded for pool id `pid`; `Unset` when none is.
    pub fn pool_instances(&self, pid: &PoolId) -> (r: PoolType)
        ensures
            r == spec_pool_kind(*self, pid@),
    {
        match find_pool_kind(&self.pool_kinds, pid) {
            None => PoolType::Unset,
            Some(i) => self.pool_kinds[i].kind,
        }
    }

    /// Registers pool `pid` as a constant-product pool and tags it so.
    ///
    /// A pool id whose kind is already recorded is rejected, even if the
    /// pool itself was unregistered since.
    pub fn create_amm_pool(
        &mut self,
        issuer: &AccountId,
        pid: &PoolId,
        total_fee: u32,
        exchange_fee: u32,
        symbol_data: &Vec<SymbolAmount>,
        description: Option<StdString>,
    ) -> (r: Result<(), Error>)
        requires
            old(self).wf(),
            unique_keys(symbol_data@),
        ensures
            final(self).wf(),
            r == (if !(spec_pool_kind(*old(self), pid@) is Unset) {
                Err::<(), Error>(Error::PoolAlreadyExists)
            } else {
                spec_register_pool_result(
                    *old(self),
                    issuer@,
                    pid@,
                    total_fee,
                    exchange_fee,
                    symbol_data@,
                )
            }),
            r is Err ==> *final(self) == *old(self),
            r is Ok ==> {
                &&& spec_register_pool_post(
                    (Dex { pool_kinds: final(self).pool_kinds, ..*old(self) }),
                    *final(self),
                    issuer@,
                    pid@,
                    total_fee,
                    exchange_fee,
                    symbol_data@,
                    description,
                )
                &&& spec_pool_kind(*final(self), pid@) is AmmPool
                &&& forall|q: Seq<u8>|
                    q != pid@ ==> spec_pool_kind(*final(self), q) == spec_pool_kind(*old(self), q)
            },
    {
        let ghost old_d = *self;
        match self.pool_instances(pid) {
            PoolType::Unset => {},
            _ => {
                return Err(Error::PoolAlreadyExists);
            },
        }
        match self.register_pool(issuer, pid, total_fee, exchange_fee, symbol_data, description) {
            Ok(()) => {},
            Err(e) => {
                return Err(e);
            },
        }
        let ghost mid_d = *self;
        let entry = PoolKindEntry { pid: *pid, kind: PoolType::AmmPool };
        match find_pool_kind(&self.pool_kinds, pid) {
            Some(i) => {
                proof {
                    lemma_first_match_update(mid_d.pool_kinds@, i as int, entry, pid@);
                    assert forall|q: Seq<u8>| q != pid@ implies first_match(
                        mid_d.pool_kinds@.update(i as int, entry),
                        q,
                    ) == first_match(mid_d.pool_kinds@, q) by {
                        lemma_first_match_update(mid_d.pool_kinds@, i as int, entry, q);
                    }
                }
                self.pool_kinds.set(i, entry);
            },
            None => {
                proof {
                    lemma_first_match_push(mid_d.pool_kinds@, entry, pid@);
                    assert forall|q: Seq<u8>| q != pid@ implies first_match(
                        mid_d.pool_kinds@.push(entry),
                        q,
                    ) == first_match(mid_d.pool_kinds@, q) by {
                        lemma_first_match_push(mid_d.pool_kinds@, entry, q);
                    }
                }
                self.pool_kinds.push(entry);
            },
        }
        proof {
            assert forall|i: int| 0 <= i < self.ledger@.len() implies crate::state::spec_asset_exists(
                *self,
                (#[trigger] self.ledger@[i]).symbol@,
            ) by {
                assert(crate::state::spec_asset_exists(mid_d, mid_d.ledger@[i].symbol@));
            }
            assert(self.wf());
            let old2 = Dex { pool_kinds: self.pool_kinds, ..old_d };
            assert(only_pools_and_ledger_changed(old2, *self));
            assert(spec_pool(*self, pid@) == spec_pool(mid_d, pid@));
            assert forall|q: Seq<u8>| q != pid@ implies spec_pool(*self, q) == spec_pool(
                old2,
                q,
            ) by {
                assert(spec_pool(*self, q) == spec_pool(mid_d, q));
                assert(spec_pool(old_d, q) == spec_pool(old2, q));
            }
            assert forall|s: Seq<u8>, a: Seq<u8>| true implies spec_balance(*self, s, a)
                == spec_balance(mid_d, s, a) && spec_balance(old2, s, a) == spec_balance(
                old_d,
                s,
                a,
            ) by {}
            assert(spec_register_pool_post(
                old2,
                *self,
                issuer@,
                pid@,
                total_fee,
                exchange_fee,
                symbol_data@,
                description,
            ));
        }
        Ok(())
    }

    /// Unregisters the pool behind `pid`; the kind tag stays recorded.
    pub fn destroy_pool(&mut self, issuer: &AccountId, pid: &PoolId) -> (r: Result<(), Error>)
        requires
            old(self).wf(),
        ensures
            final(self).wf(),
            !(spec_pool_kind(*old(self), pid@) is AmmPool) ==> r == Err::<(), Error>(
                Error::PoolNotExists,
            ) && *final(self) == *old(self),
            spec_pool_kind(*old(self), pid@) is AmmPool ==> {
                &&& r == (match spec_pool(*old(self), pid@) {
                    None => Err::<(), Error>(Error::PoolNotExists),
                    Some(p) => if p.owner@ != issuer@ {
                        Err::<(), Error>(Error::InvalidOwner)
                    } else if p.info.shares_total_supply != 0 {
                        Err::<(), Error>(Error::HasRemainingShares)
                    } else {
                        Ok::<(), Error>(())
                    },
                })
                &&& r is Err ==> *final(self) == *old(self)
                &&& r is Ok ==> spec_pool(*final(self), pid@) is None && (forall|q: Seq<u8>|
                    q != pid@ ==> spec_pool(*final(self), q) == spec_pool(*old(self), q))
                    && crate::amm::only_pools_changed(*old(self), *final(self))
            },
    {
        match self.pool_instances(pid) {
            PoolType::AmmPool => self.unregister_pool(issuer, pid),
            PoolType::Unset => Err(Error::PoolNotExists),
        }
    }

    /// Deposits liquidity through the manager; see `add_liquidity_to_pool`.
    pub fn add_liquidity_to_managed_pool(
        &mut self,
        issuer: &AccountId,
        pid: &PoolId,
        amounts: &Vec<SymbolAmount>,
    ) -> (r: Result<(), Error>)
        requires
            old(self).wf(),
            unique_keys(amounts@),
            spec_add_liquidity_bounds(*old(self), pid@, amounts@),
        ensures
            final(self).wf(),
            !(spec_pool_kind(*old(self), pid@) is AmmPool) ==> r == Err::<(), Error>(
                Error::PoolNotExists,
            ) && *final(self) == *old(self),
            spec_pool_kind(*old(self), pid@) is AmmPool ==> {
                &&& r == spec_add_liquidity_result(*old(self), issuer@, pid@, amounts@)
                &&& r is Err ==> *final(self) == *old(self)
                &&& r is Ok ==> spec_add_liquidity_post(
                    *old(self),
                    *final(self),
                    issuer@,
                    pid@,
                    amounts@,
                )
            },
    {
        match self.pool_instances(pid) {
            PoolType::AmmPool => self.add_liquidity_to_pool(issuer, pid, amounts),
            PoolType::Unset => Err(Error::PoolNotExists),
        }
    }

    /// Withdraws liquidity through the manager; see
    /// `remove_liquidity_from_pool`.
    pub fn remove_liquidity_from_managed_pool(
        &mut self,
        issuer: &AccountId,
        pid: &PoolId,
        shares: Balance,
        amounts: &Vec<SymbolAmount>,
    ) -> (r: Result<(), Error>)
        requires
            old(self).wf(),
            unique_keys(amounts@),
            spec_pool(*old(self), pid@) matches Some(p) ==> forall|k: int|
                0 <= k < amounts@.len() ==> crate::state::spec_pool_has_symbol(
                    p.info,
                    (#[trigger] amounts@[k]).symbol@,
                ) && crate::state::spec_reserve(p.info, amounts@[k].symbol@) * shares
                    <= u128::MAX,
        ensures
            final(self).wf(),
            !(spec_pool_kind(*old(self), pid@) is AmmPool) ==> r == Err::<(), Error>(
                Error::PoolNotExists,
            ) && *final(self) == *old(self),
            spec_pool_kind(*old(self), pid@) is AmmPool ==> {
                &&& r == (match spec_pool(*old(self), pid@) {
                    None => Err::<(), Error>(Error::PoolNotExists),
                    Some(p) => if !(shares > 0 && spec_shares(p.info, issuer@) >= shares
                        && p.info.shares_total_supply >= shares) {
                        Err::<(), Error>(Error::NoEnoughShares)
                    } else if exists|k: int|
                        0 <= k < amounts@.len() && spec_withdrawn(
                            p.info,
                            shares as int,
                            (#[trigger] amounts@[k]).symbol@,
                        ) < amounts@[k].amount {
                        Err::<(), Error>(Error::TooLessSharesAmount)
                    } else {
                        Ok::<(), Error>(())
                    },
                })
                &&& r is Err ==> *final(self) == *old(self)
                &&& r is Ok ==> spec_remove_liquidity_post(
                    *old(self),
                    *final(self),
                    issuer@,
                    pid@,
                    shares as int,
                    amounts@,
                )
            },
    {
        match self.pool_instances(pid) {
            PoolType::AmmPool => self.remove_liquidity_from_pool(issuer, pid, shares, amounts),
            PoolType::Unset => Err(Error::PoolNotExists),
        }
    }

    /// The swap return through the manager; zero when the pool id carries no
    /// kind.
    pub fn get_swap_return_asset_from_pool(
        &self,
        pid: &PoolId,
        asset_in: &AssetSymbol,
        amount_in: Balance,
        asset_out: &AssetSymbol,
    ) -> (r: Balance)
        requires
            self.wf(),
            spec_pool_kind(*self, pid@) is AmmPool ==> spec_swap_ok(
                *self,
                pid@,
                asset_in@,
                asset_out@,
                amount_in as int,
            ),
        ensures
            r as int == (if spec_pool_kind(*self, pid@) is AmmPool {
                spec_pool_swap_output(
                    spec_pool(*self, pid@)->Some_0.info,
                    asset_in@,
                    asset_out@,
                    amount_in as int,
                )
            } else {
                0
            }),
    {
        match self.pool_instances(pid) {
            PoolType::AmmPool => self.get_swap_return_asset(pid, asset_in, amount_in, asset_out),
            PoolType::Unset => 0,
        }
    }

    /// Swaps through the manager; see `swap_asset`.
    pub fn swap_asset_in_pool(
        &mut self,
        who: &AccountId,
        pid: &PoolId,
        asset_in: &AssetSymbol,
        amount_in: Balance,
        asset_out: &AssetSymbol,
        min_amount_out: Balance,
    ) -> (r: Result<(), Error>)
        requires
            old(self).wf(),
            spec_pool_kind(*old(self), pid@) is AmmPool ==> spec_swap_ok(
                *old(self),
                pid@,
                asset_in@,
                asset_out@,
                amount_in as int,
            ) && spec_swap_bounds(*old(self), pid@, asset_in@, asset_out@, amount_in as int),
        ensures
            final(self).wf(),
            !(spec_pool_kind(*old(self), pid@) is AmmPool) ==> r == Err::<(), Error>(
                Error::PoolNotExists,
            ) && *final(self) == *old(self),
            spec_pool_kind(*old(self), pid@) is AmmPool ==> {
                &&& r == spec_swap_result(
                    *old(self),
                    who@,
                    pid@,
                    asset_in@,
                    amount_in as int,
                    asset_out@,
                    min_amount_out as int,
                )
                &&& r is Err ==> *final(self) == *old(self)
                &&& r is Ok ==> spec_swap_post(
                    *old(self),
                    *final(self),
                    who@,
                    pid@,
                    asset_in@,
                    amount_in as int,
                    asset_out@,
                    min_amount_out as int,
                )
            },
    {
        match self.pool_instances(pid) {
            PoolType::AmmPool => self.swap_asset(
                who,
                pid,
                asset_in,
                amount_in,
                asset_out,
                min_amount_out,
            ),
            PoolType::Unset => Err(Error::PoolNotExists),
        }
    }

    /// The caller's share balance through the manager; zero when the pool id
    /// carries no kind.
    pub fn share_balance_of_pool(&self, who: &AccountId, pid: &PoolId) -> (r: Balance)
        ensures
            r == (if spec_pool_kind(*self, pid@) is AmmPool {
                match spec_pool(*self, pid@) {
                    Some(p) => spec_shares(p.info, who@),
                    None => 0,
                }
            } else {
                0
            }),
    {
        match self.pool_instances(pid) {
            PoolType::AmmPool => self.share_balance_of(who, pid),
            PoolType::Unset => 0,
        }
    }

    /// The pool's total shares through the manager; zero when the pool id
    /// carries no kind.
    pub fn share_total_balance_from_pool(&self, pid: &PoolId) -> (r: Balance)
        ensures
            r == (if spec_pool_kind(*self, pid@) is AmmPool {
                match spec_pool(*self, pid@) {
                    Some(p) => p.info.shares_total_supply,
                    None => 0,
                }
            } else {
                0
            }),
    {
        match self.pool_instances(pid) {
            PoolType::AmmPool => self.share_total_balance(pid),
            PoolType::Unset => 0,
        }
    }

    /// The pool's total fee through the manager; zero when the pool id
    /// carries no kind.
    pub fn get_total_fee_from_pool(&self, pid: &PoolId) -> (r: u32)
        ensures
            r == (if spec_pool_kind(*self, pid@) is AmmPool {
                match spec_pool(*self, pid@) {
                    Some(p) => p.info.total_fee,
                    None => 0u32,
                }
            } else {
                0u32
            }),
    {
        match self.pool_instances(pid) {
            PoolType::AmmPool => self.get_total_fee(pid),
            PoolType::Unset => 0,
        }
    }

    /// The pool's cumulative volumes through the manager; empty when the
    /// pool id carries no kind.
    pub fn get_volume_data_from_pool(&self, pid: &PoolId) -> (r: Vec<SymbolVolume>)
        ensures
            r@ == (if spec_pool_kind(*self, pid@) is AmmPool {
                match spec_pool(*self, pid@) {
                    Some(p) => p.info.volume_data@,
                    None => Seq::<SymbolVolume>::empty(),
                }
            } else {
                Seq::<SymbolVolume>::empty()
            }),
    {
        match self.pool_instances(pid) {
            PoolType::AmmPool => self.get_volume_data(pid),
            PoolType::Unset => Vec::new(),
        }
    }
}

} // verus!
