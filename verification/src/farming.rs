//! Yield farms: stake a fungible amount or one NFT, accrue block-linear
//! rewards of a mintable reward asset.

use vstd::prelude::*;
use crate::errors::Error;
use crate::keyed::{first_match, has_key, lemma_first_match_at, lemma_first_match_found,
    lemma_first_match_none, lemma_first_match_push, lemma_first_match_remove,
    lemma_first_match_update, unique_keys, KeyedRec};
use crate::primitives::{AccountId, AssetId, Balance, BlockNumber, FarmId, FixedString,
    NftClassId, NftTokenId};
use crate::state::{find_farm, find_farmer, spec_asset, spec_asset_exists, spec_balance,
    spec_class, spec_farm, spec_farmer, spec_issuance, spec_owner_index, spec_token, Dex};

verus! {

/// What a farm accepts as stake.
#[derive(Clone, Copy, PartialEq, Eq, Debug)]
pub enum TokenType {
    /// No stake target; never stored by a well-formed exchange.
    Notset,
    /// A fungible asset, staked by amount.
    FT(AssetId),
    /// A single NFT, identified by class and token id.
    NFT(NftClassId, NftTokenId),
}

/// What is recorded about a farm.
#[derive(Clone, Copy, PartialEq, Eq, Debug)]
pub struct Farm {
    /// The account that created the farm; receives stakes and mints rewards.
    pub owner: AccountId,
    /// What the farm accepts as stake.
    pub stake_token_type: TokenType,
    /// The reward asset; registered, mintable, and owned by `owner`.
    pub shares_asset_id: AssetId,
    /// Reward minted per block, split pro rata among stakers.
    pub shares_per_block: Balance,
    /// Total amount currently staked; 1 for an occupied NFT farm.
    pub total_stake_amount: Balance,
    /// Positive multiplier on this farm's rewards.
    pub reward_weight: u8,
}

impl Default for Farm {
    fn default() -> (r: Self)
        ensures
            r.owner@ == Seq::new(16, |i: int| 0u8),
            r.stake_token_type is Notset,
            r.shares_asset_id@ == Seq::new(16, |i: int| 0u8),
            r.shares_per_block == 0,
            r.total_stake_amount == 0,
            r.reward_weight == 1,
    {
        let zero = FixedString([0, 0, 0, 0, 0, 0, 0, 0, 0, 0, 0, 0, 0, 0, 0, 0]);
        proof {
            assert(zero@ =~= Seq::new(16, |i: int| 0u8));
        }
        Farm {
            owner: zero,
            stake_token_type: TokenType::Notset,
            shares_asset_id: zero,
            shares_per_block: 0,
            total_stake_amount: 0,
            reward_weight: 1,
        }
    }
}

/// What is recorded about one account's stake in a farm.
#[derive(Clone, Copy, PartialEq, Eq, Debug)]
pub struct Farmer {
    /// The staking account.
    pub farmer_id: AccountId,
    /// The staked amount; 1 for an NFT stake.
    pub stake_amount: Balance,
    /// The block up to which rewards have been accrued.
    pub last_reward_block: BlockNumber,
    /// Accrued, unclaimed rewards.
    pub rewards: Balance,
}

impl Default for Farmer {
    fn default() -> (r: Self)
        ensures
            r.farmer_id@ == Seq::new(16, |i: int| 0u8),
            r.stake_amount == 0,
            r.last_reward_block == 0,
            r.rewards == 0,
    {
        let zero = FixedString([0, 0, 0, 0, 0, 0, 0, 0, 0, 0, 0, 0, 0, 0, 0, 0]);
        proof {
            assert(zero@ =~= Seq::new(16, |i: int| 0u8));
        }
        Farmer { farmer_id: zero, stake_amount: 0, last_reward_block: 0, rewards: 0 }
    }
}

/// A farm, keyed by its id.
#[derive(Clone, Copy, PartialEq, Eq, Debug)]
pub struct FarmEntry {
    /// The farm's id.
    pub farm_id: FarmId,
    /// The farm's record.
    pub farm: Farm,
}

impl KeyedRec for FarmEntry {
    type K = Seq<u8>;

    open spec fn key(self) -> Seq<u8> {
        self.farm_id@
    }
}

/// One account's stake record, keyed by farm id and account.
#[derive(Clone, Copy, PartialEq, Eq, Debug)]
pub struct FarmerEntry {
    /// The farm staked in.
    pub farm_id: FarmId,
    /// The staking account.
    pub account: AccountId,
    /// The stake record.
    pub farmer: Farmer,
}

impl KeyedRec for FarmerEntry {
    type K = (Seq<u8>, Seq<u8>);

    open spec fn key(self) -> (Seq<u8>, Seq<u8>) {
        (self.farm_id@, self.account@)
    }
}


/// Whether `new_d` and `old_d` agree on everything but the farming store.
pub open spec fn only_farming_changed(old_d: Dex, new_d: Dex) -> bool {
    &&& new_d.assets == old_d.assets
    &&& new_d.permissions == old_d.permissions
    &&& new_d.ledger == old_d.ledger
    &&& new_d.nft_classes == old_d.nft_classes
    &&& new_d.nft_tokens == old_d.nft_tokens
    &&& new_d.nft_accounts == old_d.nft_accounts
    &&& new_d.pools == old_d.pools
    &&& new_d.pool_kinds == old_d.pool_kinds
    &&& new_d.block_number == old_d.block_number
}

/// Lifts the farming-store invariant back to the whole-state invariant.
proof fn lemma_wf_after_farming_change(old_d: Dex, new_d: Dex)
    requires
        old_d.wf(),
        only_farming_changed(old_d, new_d),
        crate::state::wf_farming(new_d),
    ensures
        new_d.wf(),
{
    assert forall|i: int| 0 <= i < new_d.ledger@.len() implies crate::state::spec_asset_exists(
        new_d,
        (#[trigger] new_d.ledger@[i]).symbol@,
    ) by {
        assert(crate::state::spec_asset_exists(old_d, old_d.ledger@[i].symbol@));
    }
}

/// Whether any account at all has a stake record in farm `fid`.
pub open spec fn spec_farm_occupied(d: Dex, fid: Seq<u8>) -> bool {
    exists|k: int| 0 <= k < d.farmers@.len() && (#[trigger] d.farmers@[k]).farm_id@ == fid
}

/// Finds the index of any stake record of farm `fid`.
pub(crate) fn find_any_farmer(v: &Vec<FarmerEntry>, fid: &FarmId) -> (r: Option<usize>)
    ensures
        match r {
            Some(i) => i < v.len() && v@[i as int].farm_id@ == fid@,
            None => forall|k: int| 0 <= k < v@.len() ==> (#[trigger] v@[k]).farm_id@ != fid@,
        },
{
    let mut i: usize = 0;
    while i < v.len()
        invariant
            i <= v.len(),
            forall|k: int| 0 <= k < i ==> (#[trigger] v@[k]).farm_id@ != fid@,
        decreases v.len() - i,
    {
        if v[i].farm_id.eq_bytes(fid) {
            return Some(i);
        }
        i += 1;
    }
    None
}

/// The reward `calculate_reward` pays a farmer for the blocks since the last
/// accrual: `shares_per_block * blocks * stake / total_stake`, then scaled by
/// the farm's weight; any overflowing step collapses to zero, and when the
/// division floors to zero the weight is applied before dividing instead.
pub open spec fn spec_calculate_reward(farm: Farm, farmer: Farmer, block: u64) -> int {
    if block < farmer.last_reward_block {
        0
    } else if farm.total_stake_amount == 0 {
        0
    } else {
        let n = block - farmer.last_reward_block;
        let r1 = farm.shares_per_block * n;
        let r1c: int = if r1 > u128::MAX {
            0
        } else {
            r1
        };
        let r2 = r1c * farmer.stake_amount;
        let r2c: int = if r2 > u128::MAX {
            0
        } else {
            r2
        };
        let q = r2c / (farm.total_stake_amount as int);
        if q == 0 {
            let r3 = r2c * farm.reward_weight;
            let r3c: int = if r3 > u128::MAX {
                0
            } else {
                r3
            };
            r3c / (farm.total_stake_amount as int)
        } else {
            let r4 = q * farm.reward_weight;
            if r4 > u128::MAX {
                0
            } else {
                r4
            }
        }
    }
}

/// The decision `create_farm` makes, in the order its checks run.
pub open spec fn spec_create_farm_result(
    d: Dex,
    issuer: Seq<u8>,
    fid: Seq<u8>,
    shares_asset: Seq<u8>,
    stake_asset: Option<AssetId>,
    stake_nft: Option<(NftClassId, NftTokenId)>,
    reward_weight: u8,
) -> Result<(), Error> {
    if spec_farm(d, fid) is Some {
        Err(Error::FarmIdAlreadyExisted)
    } else if reward_weight == 0 {
        Err(Error::ZeroRewardWeight)
    } else if !spec_asset_exists(d, shares_asset) {
        Err(Error::AssetIdNotFound)
    } else if !(spec_asset(d, shares_asset)->Some_0.info.is_mintable) {
        Err(Error::StakeAssetNotMintable)
    } else if spec_asset(d, shares_asset)->Some_0.owner@ != issuer {
        Err(Error::StakeAssetNotOwner)
    } else if stake_asset is None {
        let ids = stake_nft->Some_0;
        if !(spec_class(d, ids.0@) is Some && spec_token(d, ids.1@) is Some) {
            Err(Error::NftTokenNotFound)
        } else {
            Ok(())
        }
    } else {
        if !spec_asset_exists(d, stake_asset->Some_0@) {
            Err(Error::AssetIdNotFound)
        } else {
            Ok(())
        }
    }
}

impl Dex {
    /// The reward accrued by `who` in farm `farm_id` up to `block_number`;
    /// zero when the farm or the stake record is missing.
    pub fn calculate_reward(&self, who: &AccountId, farm_id: &FarmId, block_number: u64) -> (r:
        Balance)
        ensures
            r as int == (match (spec_farm(*self, farm_id@), spec_farmer(*self, farm_id@, who@)) {
                (Some(fe), Some(fr)) => spec_calculate_reward(fe.farm, fr.farmer, block_number),
                _ => 0,
            }),
    {
        let fi = match find_farm(&self.farms, farm_id) {
            None => {
                return 0;
            },
            Some(fi) => fi,
        };
        let ki = match find_farmer(&self.farmers, farm_id, who) {
            None => {
                return 0;
            },
            Some(ki) => ki,
        };
        let farm = self.farms[fi].farm;
        let farmer = self.farmers[ki].farmer;
        if block_number < farmer.last_reward_block {
            return 0;
        }
        if farm.total_stake_amount == 0 {
            return 0;
        }
        let n_blocks: u128 = (block_number - farmer.last_reward_block) as u128;
        let r1 = match farm.shares_per_block.checked_mul(n_blocks) {
            Some(v) => v,
            None => 0,
        };
        let r2 = match r1.checked_mul(farmer.stake_amount) {
            Some(v) => v,
            None => 0,
        };
        let q = r2 / farm.total_stake_amount;
        if q == 0 {
            let r3 = match r2.checked_mul(farm.reward_weight as u128) {
                Some(v) => v,
                None => 0,
            };
            r3 / farm.total_stake_amount
        } else {
            match q.checked_mul(farm.reward_weight as u128) {
                Some(v) => v,
                None => 0,
            }
        }
    }

    /// Creates farm `farm_id` owned by `issuer`, rewarding stakers with the
    /// mintable asset `shares_asset_id` the issuer owns.  The stake target is
    /// the fungible asset when `stake_asset_id` is given, else the named NFT.
    pub fn create_farm(
        &mut self,
        issuer: &AccountId,
        farm_id: &FarmId,
        shares_asset_id: &AssetId,
        stake_asset_id: Option<AssetId>,
        stake_nft_ids: Option<(NftClassId, NftTokenId)>,
        shares_per_block: Balance,
        reward_weight: u8,
    ) -> (r: Result<(), Error>)
        requires
            old(self).wf(),
            stake_asset_id is Some || stake_nft_ids is Some,
        ensures
            final(self).wf(),
            r == spec_create_farm_result(
                *old(self),
                issuer@,
                farm_id@,
                shares_asset_id@,
                stake_asset_id,
                stake_nft_ids,
                reward_weight,
            ),
            r is Err ==> *final(self) == *old(self),
            r is Ok ==> {
                &&& spec_farm(*final(self), farm_id@) matches Some(fe) && fe.farm.owner == *issuer
                    && fe.farm.shares_asset_id == *shares_asset_id && fe.farm.shares_per_block
                    == shares_per_block && fe.farm.total_stake_amount == 0
                    && fe.farm.reward_weight == reward_weight && fe.farm.stake_token_type == (
                match stake_asset_id {
                    Some(aid) => TokenType::FT(aid),
                    None => TokenType::NFT(stake_nft_ids->Some_0.0, stake_nft_ids->Some_0.1),
                })
                &&& forall|q: Seq<u8>|
                    q != farm_id@ ==> spec_farm(*final(self), q) == spec_farm(*old(self), q)
                &&& final(self).farmers == old(self).farmers
                &&& only_farming_changed(*old(self), *final(self))
            },
    {
        let ghost old_d = *self;
        if find_farm(&self.farms, farm_id).is_some() {
            return Err(Error::FarmIdAlreadyExisted);
        }
        if reward_weight == 0 {
            return Err(Error::ZeroRewardWeight);
        }
        if !self.is_asset_existed(shares_asset_id) {
            return Err(Error::AssetIdNotFound);
        }
        let ai = match crate::state::find_asset(&self.assets, shares_asset_id) {
            None => {
                proof {
                    assert(false);
                }
                return Err(Error::AssetIdNotFound);
            },
            Some(ai) => ai,
        };
        if !self.assets[ai].info.is_mintable {
            return Err(Error::StakeAssetNotMintable);
        }
        if !self.assets[ai].owner.eq_bytes(issuer) {
            return Err(Error::StakeAssetNotOwner);
        }
        let stake_token_type: TokenType;
        match stake_asset_id {
            None => {
                let ids = match stake_nft_ids {
                    Some(ids) => ids,
                    None => {
                        proof {
                            assert(false);
                        }
                        return Err(Error::NftTokenNotFound);
                    },
                };
                if !self.is_token_existed(&ids.0, &ids.1) {
                    return Err(Error::NftTokenNotFound);
                }
                stake_token_type = TokenType::NFT(ids.0, ids.1);
            },
            Some(aid) => {
                if !self.is_asset_existed(&aid) {
                    return Err(Error::AssetIdNotFound);
                }
                stake_token_type = TokenType::FT(aid);
            },
        }
        let entry = FarmEntry {
            farm_id: *farm_id,
            farm: Farm {
                owner: *issuer,
                stake_token_type,
                shares_asset_id: *shares_asset_id,
                shares_per_block,
                total_stake_amount: 0,
                reward_weight,
            },
        };
        proof {
            lemma_first_match_push(old_d.farms@, entry, farm_id@);
            assert forall|q: Seq<u8>| true implies first_match(old_d.farms@.push(entry), q) == (
            if q == farm_id@ {
                Some(entry)
            } else {
                first_match(old_d.farms@, q)
            }) by {
                lemma_first_match_push(old_d.farms@, entry, q);
            }
        }
        self.farms.push(entry);
        proof {
            assert forall|k: int|
                0 <= k < self.farms@.len() implies !((#[trigger] self.farms@[k]).farm.stake_token_type
                is Notset) && self.farms@[k].farm.reward_weight >= 1 by {
                if k < old_d.farms@.len() {
                    assert(self.farms@[k] == old_d.farms@[k]);
                }
            }
            lemma_wf_after_farming_change(old_d, *self);
        }
        Ok(())
    }

    /// Destroys farm `farm_id`; only its owner may, and only once no stake
    /// remains.
    pub fn destroy_farm(&mut self, issuer: &AccountId, farm_id: &FarmId) -> (r: Result<(), Error>)
        requires
            old(self).wf(),
        ensures
            final(self).wf(),
            r == (match spec_farm(*old(self), farm_id@) {
                None => Err::<(), Error>(Error::FarmIdNotExisted),
                Some(fe) => if fe.farm.owner@ != issuer@ {
                    Err::<(), Error>(Error::NoPermission)
                } else if fe.farm.total_stake_amount != 0 {
                    Err::<(), Error>(Error::FarmInStaking)
                } else {
                    Ok::<(), Error>(())
                },
            }),
            r is Err ==> *final(self) == *old(self),
            r is Ok ==> {
                &&& spec_farm(*final(self), farm_id@) is None
                &&& forall|q: Seq<u8>|
                    q != farm_id@ ==> spec_farm(*final(self), q) == spec_farm(*old(self), q)
                &&& final(self).farmers == old(self).farmers
                &&& only_farming_changed(*old(self), *final(self))
            },
    {
        let ghost old_d = *self;
        let fi = match find_farm(&self.farms, farm_id) {
            None => {
                return Err(Error::FarmIdNotExisted);
            },
            Some(fi) => fi,
        };
        if !self.farms[fi].farm.owner.eq_bytes(issuer) {
            return Err(Error::NoPermission);
        }
        if self.farms[fi].farm.total_stake_amount != 0 {
            return Err(Error::FarmInStaking);
        }
        proof {
            lemma_first_match_remove(old_d.farms@, fi as int, farm_id@);
            assert forall|q: Seq<u8>| true implies first_match(old_d.farms@.remove(fi as int), q)
                == (if q == farm_id@ {
                None
            } else {
                first_match(old_d.farms@, q)
            }) by {
                lemma_first_match_remove(old_d.farms@, fi as int, q);
            }
        }
        self.farms.remove(fi);
        proof {
            assert forall|k: int|
                0 <= k < self.farms@.len() implies !((#[trigger] self.farms@[k]).farm.stake_token_type
                is Notset) && self.farms@[k].farm.reward_weight >= 1 by {
                assert(self.farms@[k] == old_d.farms@[if k < fi as int {
                    k
                } else {
                    k + 1
                }]);
            }
            lemma_wf_after_farming_change(old_d, *self);
        }
        Ok(())
    }

    /// Whether `who` has a stake record in farm `farm_id`.
    pub fn is_farmer_existed(&self, who: &AccountId, farm_id: &FarmId) -> (r: bool)
        ensures
            r <==> spec_farmer(*self, farm_id@, who@) is Some,
    {
        find_farmer(&self.farmers, farm_id, who).is_some()
    }

    /// The staked amount of `who` in farm `farm_id`.
    pub fn get_farmer_stake_amount(&self, who: &AccountId, farm_id: &FarmId) -> (r: Result<
        Balance,
        Error,
    >)
        ensures
            r == (match spec_farmer(*self, farm_id@, who@) {
                None => Err::<Balance, Error>(Error::FarmerNotExisted),
                Some(fr) => Ok::<Balance, Error>(fr.farmer.stake_amount),
            }),
    {
        match find_farmer(&self.farmers, farm_id, who) {
            None => Err(Error::FarmerNotExisted),
            Some(ki) => Ok(self.farmers[ki].farmer.stake_amount),
        }
    }

    /// The total staked amount of farm `farm_id`.
    pub fn get_farm_total_stake_amount(&self, farm_id: &FarmId) -> (r: Result<Balance, Error>)
        ensures
            r == (match spec_farm(*self, farm_id@) {
                None => Err::<Balance, Error>(Error::FarmIdNotExisted),
                Some(fe) => Ok::<Balance, Error>(fe.farm.total_stake_amount),
            }),
    {
        match find_farm(&self.farms, farm_id) {
            None => Err(Error::FarmIdNotExisted),
            Some(fi) => Ok(self.farms[fi].farm.total_stake_amount),
        }
    }

    /// Removes `who`'s stake record in farm `farm_id` when it carries no
    /// stake and no rewards; only NFT farms drop their records.
    pub fn remove_farmer(&mut self, who: &AccountId, farm_id: &FarmId) -> (r: bool)
        requires
            old(self).wf(),
        ensures
            final(self).wf(),
            r == ((spec_farmer(*old(self), farm_id@, who@) matches Some(fr)
                && fr.farmer.stake_amount == 0 && fr.farmer.rewards == 0) && (spec_farm(
                *old(self),
                farm_id@,
            ) matches Some(fe) && fe.farm.stake_token_type is NFT)),
            r ==> spec_farmer(*final(self), farm_id@, who@) is None && (forall|
                q: Seq<u8>,
                a: Seq<u8>,
            |
                q != farm_id@ || a != who@ ==> spec_farmer(*final(self), q, a) == spec_farmer(
                    *old(self),
                    q,
                    a,
                )) && final(self).farms == old(self).farms && only_farming_changed(
                *old(self),
                *final(self),
            ),
            !r ==> *final(self) == *old(self),
    {
        let ghost old_d = *self;
        let ki = match find_farmer(&self.farmers, farm_id, who) {
            None => {
                return false;
            },
            Some(ki) => ki,
        };
        let farmer = self.farmers[ki].farmer;
        if !(farmer.stake_amount == 0 && farmer.rewards == 0) {
            return false;
        }
        let fi = match find_farm(&self.farms, farm_id) {
            None => {
                return false;
            },
            Some(fi) => fi,
        };
        let is_nft = match self.farms[fi].farm.stake_token_type {
            TokenType::NFT(_, _) => true,
            _ => false,
        };
        if !is_nft {
            return false;
        }
        proof {
            lemma_first_match_remove(old_d.farmers@, ki as int, (farm_id@, who@));
            assert forall|q: Seq<u8>, a: Seq<u8>| true implies first_match(
                old_d.farmers@.remove(ki as int),
                (q, a),
            ) == (if (q, a) == (farm_id@, who@) {
                None
            } else {
                first_match(old_d.farmers@, (q, a))
            }) by {
                lemma_first_match_remove(old_d.farmers@, ki as int, (q, a));
            }
        }
        self.farmers.remove(ki);
        proof {
            lemma_wf_after_farming_change(old_d, *self);
        }
        true
    }
}


/// Whether `new_d` and `old_d` agree on everything but stake records and the
/// balance ledger.
pub open spec fn only_farmers_and_ledger_changed(old_d: Dex, new_d: Dex) -> bool {
    &&& new_d.assets == old_d.assets
    &&& new_d.permissions == old_d.permissions
    &&& new_d.nft_classes == old_d.nft_classes
    &&& new_d.nft_tokens == old_d.nft_tokens
    &&& new_d.nft_accounts == old_d.nft_accounts
    &&& new_d.pools == old_d.pools
    &&& new_d.pool_kinds == old_d.pool_kinds
    &&& new_d.farms == old_d.farms
    &&& new_d.block_number == old_d.block_number
}

/// The reward `update_rewards` would accrue for `who` in `fid` at the
/// current block; zero when the farm or record is missing.
pub open spec fn spec_pending_reward(d: Dex, who: Seq<u8>, fid: Seq<u8>) -> int {
    match (spec_farm(d, fid), spec_farmer(d, fid, who)) {
        (Some(fe), Some(fr)) => spec_calculate_reward(fe.farm, fr.farmer, d.block_number),
        _ => 0,
    }
}

/// The decision `update_rewards` makes, in the order its checks run, and the
/// total accrued rewards it returns on success.
pub open spec fn spec_update_rewards_result(d: Dex, who: Seq<u8>, fid: Seq<u8>) -> Result<
    Balance,
    Error,
> {
    match spec_farmer(d, fid, who) {
        None => Err(Error::FarmerNotExisted),
        Some(fr) => match spec_farm(d, fid) {
            None => Err(Error::FarmIdNotExisted),
            Some(fe) => if d.block_number < fr.farmer.last_reward_block {
                Err(Error::InvalidLastRewardBlockNumber)
            } else {
                let reward = spec_calculate_reward(fe.farm, fr.farmer, d.block_number);
                if fr.farmer.rewards + reward > u128::MAX {
                    Err(Error::AmountOverflow)
                } else if reward > 0 && (crate::asset::spec_mint_asset_result(
                    d,
                    fe.farm.owner@,
                    fe.farm.shares_asset_id@,
                    reward as u128,
                ) is Err) {
                    match crate::asset::spec_mint_asset_result(
                        d,
                        fe.farm.owner@,
                        fe.farm.shares_asset_id@,
                        reward as u128,
                    ) {
                        Err(e) => Err(e),
                        Ok(_) => Err(Error::AmountOverflow),
                    }
                } else {
                    Ok((fr.farmer.rewards + reward) as u128)
                }
            },
        },
    }
}

impl Dex {
    /// Accrues `who`'s pending reward in farm `farm_id` up to the current
    /// block, minting it to the farm owner, and returns the new accrued
    /// total.  Accrued rewards never decrease here.
    pub fn update_rewards(&mut self, who: &AccountId, farm_id: &FarmId) -> (r: Result<
        Balance,
        Error,
    >)
        requires
            old(self).wf(),
        ensures
            final(self).wf(),
            r == spec_update_rewards_result(*old(self), who@, farm_id@),
            r is Err ==> *final(self) == *old(self),
            r is Ok ==> ({
                let fr = spec_farmer(*old(self), farm_id@, who@)->Some_0;
                let fe = spec_farm(*old(self), farm_id@)->Some_0;
                let reward = spec_pending_reward(*old(self), who@, farm_id@);
                &&& spec_farmer(*final(self), farm_id@, who@) matches Some(fr2)
                    && fr2.farmer.rewards as int == fr.farmer.rewards + reward
                    && fr2.farmer.last_reward_block == old(self).block_number
                    && fr2.farmer.stake_amount == fr.farmer.stake_amount && fr2.farmer.farmer_id
                    == fr.farmer.farmer_id && fr2.farmer.rewards >= fr.farmer.rewards
                &&& forall|q: Seq<u8>, a: Seq<u8>|
                    q != farm_id@ || a != who@ ==> spec_farmer(*final(self), q, a) == spec_farmer(
                        *old(self),
                        q,
                        a,
                    )
                &&& forall|s: Seq<u8>, a: Seq<u8>|
                    spec_balance(*final(self), s, a) as int == spec_balance(*old(self), s, a) + (
                    if reward > 0 && s == fe.farm.shares_asset_id@ && a == fe.farm.owner@ {
                        reward
                    } else {
                        0
                    })
                &&& forall|s: Seq<u8>|
                    spec_issuance(*final(self), s) as int == spec_issuance(*old(self), s) + (
                    if reward > 0 && s == fe.farm.shares_asset_id@ {
                        reward
                    } else {
                        0
                    })
                &&& only_farmers_and_ledger_changed(*old(self), *final(self))
            }),
    {
        let ghost old_d = *self;
        let ki = match find_farmer(&self.farmers, farm_id, who) {
            None => {
                return Err(Error::FarmerNotExisted);
            },
            Some(ki) => ki,
        };
        let fi = match find_farm(&self.farms, farm_id) {
            None => {
                return Err(Error::FarmIdNotExisted);
            },
            Some(fi) => fi,
        };
        let farm = self.farms[fi].farm;
        let farmer = self.farmers[ki].farmer;
        let current_block = self.block_number;
        if current_block < farmer.last_reward_block {
            return Err(Error::InvalidLastRewardBlockNumber);
        }
        let reward = self.calculate_reward(who, farm_id, current_block);
        let new_rewards = match farmer.rewards.checked_add(reward) {
            Some(v) => v,
            None => {
                return Err(Error::AmountOverflow);
            },
        };
        if reward > 0 {
            match self.mint_asset(&farm.owner, &farm.shares_asset_id, reward) {
                Ok(()) => {},
                Err(e) => {
                    return Err(e);
                },
            }
        }
        let ghost mid_d = *self;
        let mut entry = self.farmers[ki];
        entry.farmer.rewards = new_rewards;
        entry.farmer.last_reward_block = current_block;
        self.farmers.set(ki, entry);
        proof {
            assert(mid_d.farmers@ == old_d.farmers@);
            lemma_first_match_update(mid_d.farmers@, ki as int, entry, (farm_id@, who@));
            assert forall|q: Seq<u8>, a: Seq<u8>| (q, a) != (farm_id@, who@) implies first_match(
                self.farmers@,
                (q, a),
            ) == first_match(old_d.farmers@, (q, a)) by {
                lemma_first_match_update(mid_d.farmers@, ki as int, entry, (q, a));
            }
            assert forall|k: int|
                0 <= k < self.farms@.len() implies !((#[trigger] self.farms@[k]).farm.stake_token_type
                is Notset) && self.farms@[k].farm.reward_weight >= 1 by {
                assert(self.farms@[k] == old_d.farms@[k]);
            }
            lemma_wf_after_farming_change(mid_d, *self);
        }
        Ok(new_rewards)
    }
}


/// Whether `new_d` and `old_d` agree on the stores staking never touches.
pub open spec fn only_staking_touched(old_d: Dex, new_d: Dex) -> bool {
    &&& new_d.assets == old_d.assets
    &&& new_d.permissions == old_d.permissions
    &&& new_d.pools == old_d.pools
    &&& new_d.pool_kinds == old_d.pool_kinds
    &&& new_d.block_number == old_d.block_number
}

/// The decision `stake_asset` makes, in the order its checks run.
pub open spec fn spec_stake_result(
    d: Dex,
    who: Seq<u8>,
    fid: Seq<u8>,
    stake_amount: Option<Balance>,
) -> Result<(), Error> {
    match spec_farm(d, fid) {
        None => Err(Error::FarmIdNotExisted),
        Some(fe) => if spec_farmer(d, fid, who) is Some && (spec_update_rewards_result(
            d,
            who,
            fid,
        ) is Err) {
            match spec_update_rewards_result(d, who, fid) {
                Err(e) => Err(e),
                Ok(_) => Err(Error::AmountOverflow),
            }
        } else {
            match fe.farm.stake_token_type {
                TokenType::Notset => Err(Error::WrongStakeType),
                TokenType::NFT(c, t) => if spec_farm_occupied(d, fid) {
                    Err(Error::NFTFarmerAlreadyInUse)
                } else {
                    match crate::nft::spec_transfer_token_result(d, who, c@, t@) {
                        Err(e) => Err(e),
                        Ok(_) => Ok(()),
                    }
                },
                TokenType::FT(aid) => match stake_amount {
                    None => Err(Error::ZeroStakeAmount),
                    Some(amt) => {
                        let reward = spec_pending_reward(d, who, fid);
                        let adj: int = if spec_farmer(d, fid, who) is Some && reward > 0 && who
                            == fe.farm.owner@ && aid@ == fe.farm.shares_asset_id@ {
                            reward
                        } else {
                            0
                        };
                        let old_stake: int = match spec_farmer(d, fid, who) {
                            Some(fr) => fr.farmer.stake_amount as int,
                            None => 0,
                        };
                        if !spec_asset_exists(d, aid@) {
                            Err(Error::AssetNotExists)
                        } else if spec_balance(d, aid@, who) + adj < amt {
                            Err(Error::NoEnoughBalance)
                        } else if old_stake + amt > u128::MAX {
                            Err(Error::AmountOverflow)
                        } else if fe.farm.total_stake_amount + amt > u128::MAX {
                            Err(Error::AmountOverflow)
                        } else {
                            Ok(())
                        }
                    },
                },
            }
        },
    }
}

impl Dex {
    /// Stakes into farm `farm_id`: the given amount of the stake asset for a
    /// fungible farm, or the farm's NFT for an NFT farm.  Any pending reward
    /// of an existing record is accrued first; accrued rewards never
    /// decrease here.
    pub fn stake_asset(&mut self, who: &AccountId, farm_id: &FarmId, stake_amount: Option<Balance>)
        -> (r: Result<(), Error>)
        requires
            old(self).wf(),
        ensures
            final(self).wf(),
            r == spec_stake_result(*old(self), who@, farm_id@, stake_amount),
            r is Err ==> *final(self) == *old(self),
            r is Ok ==> ({
                let fe = spec_farm(*old(self), farm_id@)->Some_0;
                let reward = spec_pending_reward(*old(self), who@, farm_id@);
                let old_rewards: int = match spec_farmer(*old(self), farm_id@, who@) {
                    Some(fr) => fr.farmer.rewards as int,
                    None => 0,
                };
                let old_stake: int = match spec_farmer(*old(self), farm_id@, who@) {
                    Some(fr) => fr.farmer.stake_amount as int,
                    None => 0,
                };
                &&& only_staking_touched(*old(self), *final(self))
                &&& spec_farmer(*final(self), farm_id@, who@) matches Some(fr2)
                    && fr2.farmer.last_reward_block == old(self).block_number
                    && fr2.farmer.farmer_id == (match spec_farmer(*old(self), farm_id@, who@) {
                    Some(fr) => fr.farmer.farmer_id,
                    None => *who,
                }) && fr2.farmer.rewards as int == old_rewards + reward && fr2.farmer.rewards
                    as int >= old_rewards
                &&& forall|q: Seq<u8>, a: Seq<u8>|
                    q != farm_id@ || a != who@ ==> spec_farmer(*final(self), q, a) == spec_farmer(
                        *old(self),
                        q,
                        a,
                    )
                &&& forall|q: Seq<u8>|
                    q != farm_id@ ==> spec_farm(*final(self), q) == spec_farm(*old(self), q)
                &&& spec_farm(*final(self), farm_id@) matches Some(fe2) && fe2.farm.owner
                    == fe.farm.owner && fe2.farm.stake_token_type == fe.farm.stake_token_type
                    && fe2.farm.shares_asset_id == fe.farm.shares_asset_id
                    && fe2.farm.shares_per_block == fe.farm.shares_per_block
                    && fe2.farm.reward_weight == fe.farm.reward_weight
                &&& match fe.farm.stake_token_type {
                    TokenType::NFT(c, t) => {
                        &&& spec_farmer(*final(self), farm_id@, who@)->Some_0.farmer.stake_amount
                            == 1
                        &&& spec_farm(*final(self), farm_id@)->Some_0.farm.total_stake_amount == 1
                        &&& final(self).ledger == old(self).ledger
                        &&& who@ == fe.farm.owner@ ==> final(self).nft_tokens == old(
                            self,
                        ).nft_tokens && final(self).nft_accounts == old(self).nft_accounts
                        &&& who@ != fe.farm.owner@ ==> (spec_token(*final(self), t@)
                            matches Some(te) && te.info.owner@ == fe.farm.owner@)
                            && spec_owner_index(*final(self), fe.farm.owner@, c@, t@)
                            && !spec_owner_index(*final(self), who@, c@, t@)
                        &&& final(self).nft_classes == old(self).nft_classes
                    },
                    TokenType::FT(aid) => {
                        let amt = stake_amount->Some_0 as int;
                        &&& spec_farmer(*final(self), farm_id@, who@)->Some_0.farmer.stake_amount
                            as int == old_stake + amt
                        &&& spec_farm(*final(self), farm_id@)->Some_0.farm.total_stake_amount
                            as int == fe.farm.total_stake_amount + amt
                        &&& final(self).nft_tokens == old(self).nft_tokens
                        &&& final(self).nft_accounts == old(self).nft_accounts
                        &&& final(self).nft_classes == old(self).nft_classes
                        &&& forall|s: Seq<u8>, a: Seq<u8>|
                            spec_balance(*final(self), s, a) as int == spec_balance(
                                *old(self),
                                s,
                                a,
                            ) + (if reward > 0 && s == fe.farm.shares_asset_id@ && a
                                == fe.farm.owner@ {
                                reward
                            } else {
                                0
                            }) + (if who@ == fe.farm.owner@ {
                                0
                            } else if s == aid@ && a == who@ {
                                -amt
                            } else if s == aid@ && a == fe.farm.owner@ {
                                amt
                            } else {
                                0
                            })
                        &&& forall|s: Seq<u8>|
                            spec_issuance(*final(self), s) as int == spec_issuance(*old(self), s)
                                + (if reward > 0 && s == fe.farm.shares_asset_id@ {
                                reward
                            } else {
                                0
                            })
                    },
                    TokenType::Notset => false,
                }
            }),
    {
        let ghost old_d = *self;
        let fi = match find_farm(&self.farms, farm_id) {
            None => {
                return Err(Error::FarmIdNotExisted);
            },
            Some(fi) => fi,
        };
        let farm = self.farms[fi].farm;
        let current_block = self.block_number;
        let existed_idx = find_farmer(&self.farmers, farm_id, who);
        let reward: u128;
        match existed_idx {
            Some(_) => {
                reward = match self.precheck_update_rewards(who, farm_id) {
                    Ok(rw) => rw,
                    Err(e) => {
                        return Err(e);
                    },
                };
            },
            None => {
                reward = 0;
            },
        }
        match farm.stake_token_type {
            TokenType::Notset => Err(Error::WrongStakeType),
            TokenType::NFT(c, t) => {
                match find_any_farmer(&self.farmers, farm_id) {
                    Some(_) => {
                        return Err(Error::NFTFarmerAlreadyInUse);
                    },
                    None => {},
                }
                proof {
                    if spec_farmer(old_d, farm_id@, who@) is Some {
                        crate::keyed::lemma_first_match_is_present(
                            old_d.farmers@,
                            (farm_id@, who@),
                        );
                        assert(false);
                    }
                }
                match self.transfer_token(who, &farm.owner, &c, &t) {
                    Ok(()) => {},
                    Err(e) => {
                        return Err(e);
                    },
                }
                let ghost mid_d = *self;
                let entry = FarmerEntry {
                    farm_id: *farm_id,
                    account: *who,
                    farmer: Farmer {
                        farmer_id: *who,
                        stake_amount: 1,
                        last_reward_block: current_block,
                        rewards: 0,
                    },
                };
                proof {
                    assert(mid_d.farmers@ == old_d.farmers@);
                    lemma_first_match_push(mid_d.farmers@, entry, (farm_id@, who@));
                    assert forall|q: Seq<u8>, a: Seq<u8>| (q, a) != (
                        farm_id@,
                        who@,
                    ) implies first_match(mid_d.farmers@.push(entry), (q, a)) == first_match(
                        old_d.farmers@,
                        (q, a),
                    ) by {
                        lemma_first_match_push(mid_d.farmers@, entry, (q, a));
                    }
                }
                self.farmers.push(entry);
                let mut fentry = self.farms[fi];
                fentry.farm.total_stake_amount = 1;
                proof {
                    lemma_first_match_update(old_d.farms@, fi as int, fentry, farm_id@);
                    assert forall|q: Seq<u8>| q != farm_id@ implies first_match(
                        old_d.farms@.update(fi as int, fentry),
                        q,
                    ) == first_match(old_d.farms@, q) by {
                        lemma_first_match_update(old_d.farms@, fi as int, fentry, q);
                    }
                }
                self.farms.set(fi, fentry);
                proof {
                    assert forall|k: int|
                        0 <= k < self.farms@.len() implies !((
                    #[trigger] self.farms@[k]).farm.stake_token_type is Notset)
                        && self.farms@[k].farm.reward_weight >= 1 by {
                        if k != fi as int {
                            assert(self.farms@[k] == old_d.farms@[k]);
                        }
                    }
                    lemma_wf_after_farming_change(mid_d, *self);
                }
                Ok(())
            },
            TokenType::FT(aid) => {
                let amt = match stake_amount {
                    None => {
                        return Err(Error::ZeroStakeAmount);
                    },
                    Some(a) => a,
                };
                if crate::state::find_asset(&self.assets, &aid).is_none() {
                    return Err(Error::AssetNotExists);
                }
                let bal = match self.free_balance(&aid, who) {
                    Ok(b) => b,
                    Err(e) => {
                        proof {
                            assert(false);
                        }
                        return Err(e);
                    },
                };
                let applies = existed_idx.is_some() && reward > 0 && who.eq_bytes(&farm.owner)
                    && aid.eq_bytes(&farm.shares_asset_id);
                let adj: u128 = if applies {
                    reward
                } else {
                    0
                };
                proof {
                    if applies {
                        crate::asset::lemma_balance_le_issuance(old_d, aid@, who@);
                    }
                }
                let mid_bal = bal + adj;
                if mid_bal < amt {
                    return Err(Error::NoEnoughBalance);
                }
                let old_stake: u128 = match existed_idx {
                    Some(ki) => self.farmers[ki].farmer.stake_amount,
                    None => 0,
                };
                let new_stake = match old_stake.checked_add(amt) {
                    Some(v) => v,
                    None => {
                        return Err(Error::AmountOverflow);
                    },
                };
                let new_total = match farm.total_stake_amount.checked_add(amt) {
                    Some(v) => v,
                    None => {
                        return Err(Error::AmountOverflow);
                    },
                };
                if existed_idx.is_some() {
                    match self.update_rewards(who, farm_id) {
                        Ok(_) => {},
                        Err(e) => {
                            proof {
                                assert(false);
                            }
                            return Err(e);
                        },
                    }
                }
                let ghost upd_d = *self;
                match self.transfer_asset(who, &aid, &farm.owner, amt) {
                    Ok(()) => {},
                    Err(e) => {
                        proof {
                            assert(false);
                        }
                        return Err(e);
                    },
                }
                let ghost mid_d = *self;
                match find_farmer(&self.farmers, farm_id, who) {
                    Some(ki) => {
                        let mut fr_entry = self.farmers[ki];
                        proof {
                            assert(mid_d.farmers@ == upd_d.farmers@);
                            lemma_first_match_found(mid_d.farmers@, ki as int);
                        }
                        fr_entry.farmer.stake_amount = new_stake;
                        fr_entry.farmer.last_reward_block = current_block;
                        proof {
                            lemma_first_match_update(
                                mid_d.farmers@,
                                ki as int,
                                fr_entry,
                                (farm_id@, who@),
                            );
                            assert forall|q: Seq<u8>, a: Seq<u8>| (q, a) != (
                                farm_id@,
                                who@,
                            ) implies first_match(
                                mid_d.farmers@.update(ki as int, fr_entry),
                                (q, a),
                            ) == first_match(mid_d.farmers@, (q, a)) by {
                                lemma_first_match_update(
                                    mid_d.farmers@,
                                    ki as int,
                                    fr_entry,
                                    (q, a),
                                );
                            }
                        }
                        self.farmers.set(ki, fr_entry);
                    },
                    None => {
                        let entry = FarmerEntry {
                            farm_id: *farm_id,
                            account: *who,
                            farmer: Farmer {
                                farmer_id: *who,
                                stake_amount: new_stake,
                                last_reward_block: current_block,
                                rewards: 0,
                            },
                        };
                        proof {
                            lemma_first_match_push(mid_d.farmers@, entry, (farm_id@, who@));
                            assert forall|q: Seq<u8>, a: Seq<u8>| (q, a) != (
                                farm_id@,
                                who@,
                            ) implies first_match(mid_d.farmers@.push(entry), (q, a))
                                == first_match(mid_d.farmers@, (q, a)) by {
                                lemma_first_match_push(mid_d.farmers@, entry, (q, a));
                            }
                        }
                        self.farmers.push(entry);
                    },
                }
                let ghost mid2_d = *self;
                let mut fentry = self.farms[fi];
                proof {
                    assert(mid2_d.farms@ == old_d.farms@);
                }
                fentry.farm.total_stake_amount = new_total;
                proof {
                    lemma_first_match_update(mid2_d.farms@, fi as int, fentry, farm_id@);
                    assert forall|q: Seq<u8>| q != farm_id@ implies first_match(
                        mid2_d.farms@.update(fi as int, fentry),
                        q,
                    ) == first_match(mid2_d.farms@, q) by {
                        lemma_first_match_update(mid2_d.farms@, fi as int, fentry, q);
                    }
                }
                self.farms.set(fi, fentry);
                proof {
                    assert forall|k: int|
                        0 <= k < self.farms@.len() implies !((
                    #[trigger] self.farms@[k]).farm.stake_token_type is Notset)
                        && self.farms@[k].farm.reward_weight >= 1 by {
                        if k != fi as int {
                            assert(self.farms@[k] == old_d.farms@[k]);
                        }
                    }
                    lemma_wf_after_farming_change(mid2_d, *self);
                    assert(self.ledger == mid_d.ledger);
                    if existed_idx is None {
                        assert(upd_d == old_d);
                    }
                    assert forall|s: Seq<u8>, a: Seq<u8>| true implies spec_balance(*self, s, a)
                        as int == spec_balance(old_d, s, a) + (if reward > 0 && s
                        == farm.shares_asset_id@ && a == farm.owner@ && existed_idx is Some {
                        reward as int
                    } else {
                        0
                    }) + (if who@ == farm.owner@ {
                        0
                    } else if s == aid@ && a == who@ {
                        -(amt as int)
                    } else if s == aid@ && a == farm.owner@ {
                        amt as int
                    } else {
                        0
                    }) by {
                        assert(spec_balance(*self, s, a) == spec_balance(mid_d, s, a));
                        if existed_idx is None {
                            assert(spec_balance(upd_d, s, a) == spec_balance(old_d, s, a));
                        }
                        if who@ == farm.owner@ {
                            assert(mid_d == upd_d);
                        }
                    }
                    assert forall|s: Seq<u8>| true implies spec_issuance(*self, s) as int
                        == spec_issuance(old_d, s) + (if reward > 0 && s == farm.shares_asset_id@
                        && existed_idx is Some {
                        reward as int
                    } else {
                        0
                    }) by {
                        assert(spec_issuance(*self, s) == spec_issuance(mid_d, s));
                        if who@ == farm.owner@ {
                            assert(mid_d == upd_d);
                        } else {
                            assert(spec_issuance(mid_d, s) == spec_issuance(upd_d, s));
                        }
                        if existed_idx is None {
                            assert(spec_issuance(upd_d, s) == spec_issuance(old_d, s));
                        }
                    }
                    assert(existed_idx is Some <==> spec_farmer(old_d, farm_id@, who@) is Some);
                    if existed_idx is None {
                        assert(spec_pending_reward(old_d, who@, farm_id@) == 0);
                    }
                }
                Ok(())
            },
        }
    }
}


/// The decision `unstake_asset` makes, in the order its checks run.
pub open spec fn spec_unstake_result(
    d: Dex,
    who: Seq<u8>,
    fid: Seq<u8>,
    unstake_amount: Option<Balance>,
) -> Result<(), Error> {
    match spec_farm(d, fid) {
        None => Err(Error::FarmIdNotExisted),
        Some(fe) => match spec_farmer(d, fid, who) {
            None => Err(Error::FarmerNotExisted),
            Some(fr) => if spec_update_rewards_result(d, who, fid) is Err {
                match spec_update_rewards_result(d, who, fid) {
                    Err(e) => Err(e),
                    Ok(_) => Err(Error::AmountOverflow),
                }
            } else {
                let amt: int = match unstake_amount {
                    None => fr.farmer.stake_amount as int,
                    Some(a) => a as int,
                };
                if amt > fr.farmer.stake_amount {
                    Err(Error::TooLargeStakeAmount)
                } else if amt > fe.farm.total_stake_amount {
                    Err(Error::TooLargeStakeAmount)
                } else if amt > 0 {
                    match fe.farm.stake_token_type {
                        TokenType::Notset => Err(Error::WrongStakeType),
                        TokenType::NFT(c, t) => match crate::nft::spec_transfer_token_result(
                            d,
                            fe.farm.owner@,
                            c@,
                            t@,
                        ) {
                            Err(e) => Err(e),
                            Ok(_) => Ok(()),
                        },
                        TokenType::FT(aid) => {
                            let reward = spec_pending_reward(d, who, fid);
                            let adj: int = if reward > 0 && aid@ == fe.farm.shares_asset_id@ {
                                reward
                            } else {
                                0
                            };
                            if !spec_asset_exists(d, aid@) {
                                Err(Error::AssetNotExists)
                            } else if spec_balance(d, aid@, fe.farm.owner@) + adj < amt {
                                Err(Error::NoEnoughBalance)
                            } else {
                                Ok(())
                            }
                        },
                    }
                } else {
                    Ok(())
                }
            },
        },
    }
}

/// The decision `claim` makes, in the order its checks run.
pub open spec fn spec_claim_result(
    d: Dex,
    who: Seq<u8>,
    fid: Seq<u8>,
    reward_to_claim: Balance,
) -> Result<(), Error> {
    if spec_update_rewards_result(d, who, fid) is Err {
        match spec_update_rewards_result(d, who, fid) {
            Err(e) => Err(e),
            Ok(_) => Err(Error::AmountOverflow),
        }
    } else {
        let fe = spec_farm(d, fid)->Some_0;
        let fr = spec_farmer(d, fid, who)->Some_0;
        let reward = spec_pending_reward(d, who, fid);
        let new_rewards = fr.farmer.rewards + reward;
        if reward_to_claim > new_rewards {
            Err(Error::NoEnoughRewards)
        } else {
            let to_claim: int = if reward_to_claim == 0 {
                new_rewards
            } else {
                reward_to_claim as int
            };
            let sym = fe.farm.shares_asset_id@;
            let adj: int = if reward > 0 {
                reward
            } else {
                0
            };
            if !spec_asset_exists(d, sym) {
                Err(Error::AssetNotExists)
            } else if spec_balance(d, sym, fe.farm.owner@) + adj < to_claim {
                Err(Error::NoEnoughBalance)
            } else {
                Ok(())
            }
        }
    }
}

impl Dex {
    /// Evaluates `update_rewards`'s checks without changing anything,
    /// returning the pending reward they would accrue.
    fn precheck_update_rewards(&self, who: &AccountId, farm_id: &FarmId) -> (r: Result<
        Balance,
        Error,
    >)
        requires
            self.wf(),
        ensures
            match r {
                Ok(rw) => spec_update_rewards_result(*self, who@, farm_id@) is Ok && rw as int
                    == spec_pending_reward(*self, who@, farm_id@),
                Err(e) => spec_update_rewards_result(*self, who@, farm_id@) == Err::<
                    Balance,
                    Error,
                >(e),
            },
    {
        let ki = match find_farmer(&self.farmers, farm_id, who) {
            None => {
                return Err(Error::FarmerNotExisted);
            },
            Some(ki) => ki,
        };
        let fi = match find_farm(&self.farms, farm_id) {
            None => {
                return Err(Error::FarmIdNotExisted);
            },
            Some(fi) => fi,
        };
        let farm = self.farms[fi].farm;
        let farmer = self.farmers[ki].farmer;
        if self.block_number < farmer.last_reward_block {
            return Err(Error::InvalidLastRewardBlockNumber);
        }
        let reward = self.calculate_reward(who, farm_id, self.block_number);
        if farmer.rewards.checked_add(reward).is_none() {
            return Err(Error::AmountOverflow);
        }
        if reward > 0 {
            match crate::state::find_asset(&self.assets, &farm.shares_asset_id) {
                None => {
                    return Err(Error::AssetNotExists);
                },
                Some(ai) => {
                    if !self.assets[ai].info.is_mintable {
                        return Err(Error::AssetIsNotMintable);
                    }
                    if !self.assets[ai].owner.eq_bytes(&farm.owner) {
                        return Err(Error::InvalidOwner);
                    }
                    let iss = match self.total_issuance(&farm.shares_asset_id) {
                        Ok(b) => b,
                        Err(e) => {
                            proof {
                                assert(false);
                            }
                            return Err(e);
                        },
                    };
                    if reward > u128::MAX - iss {
                        return Err(Error::AmountOverflow);
                    }
                },
            }
        }
        Ok(reward)
    }

    /// Unstakes `unstake_amount` (everything when `None`) from farm
    /// `farm_id`, accruing pending rewards first and handing the stake back
    /// from the farm owner.  An emptied NFT-farm record with no rewards left
    /// is dropped.  Accrued rewards never decrease here.
    #[verifier::rlimit(100)]
    pub fn unstake_asset(
        &mut self,
        who: &AccountId,
        farm_id: &FarmId,
        unstake_amount: Option<Balance>,
    ) -> (r: Result<(), Error>)
        requires
            old(self).wf(),
        ensures
            final(self).wf(),
            r == spec_unstake_result(*old(self), who@, farm_id@, unstake_amount),
            r is Err ==> *final(self) == *old(self),
            r is Ok ==> ({
                let fe = spec_farm(*old(self), farm_id@)->Some_0;
                let fr = spec_farmer(*old(self), farm_id@, who@)->Some_0;
                let reward = spec_pending_reward(*old(self), who@, farm_id@);
                let amt: int = match unstake_amount {
                    None => fr.farmer.stake_amount as int,
                    Some(a) => a as int,
                };
                let new_stake = fr.farmer.stake_amount - amt;
                let new_rewards = fr.farmer.rewards + reward;
                let removed = amt > 0 && fe.farm.stake_token_type is NFT && new_stake == 0
                    && new_rewards == 0;
                &&& only_staking_touched(*old(self), *final(self))
                &&& removed ==> spec_farmer(*final(self), farm_id@, who@) is None
                &&& !removed ==> (spec_farmer(*final(self), farm_id@, who@) matches Some(fr2)
                    && fr2.farmer.stake_amount as int == new_stake && fr2.farmer.rewards as int
                    == new_rewards && fr2.farmer.last_reward_block == old(self).block_number
                    && fr2.farmer.rewards as int >= fr.farmer.rewards)
                &&& forall|q: Seq<u8>, a: Seq<u8>|
                    q != farm_id@ || a != who@ ==> spec_farmer(*final(self), q, a) == spec_farmer(
                        *old(self),
                        q,
                        a,
                    )
                &&& forall|q: Seq<u8>|
                    q != farm_id@ ==> spec_farm(*final(self), q) == spec_farm(*old(self), q)
                &&& spec_farm(*final(self), farm_id@) matches Some(fe2) && fe2.farm.owner
                    == fe.farm.owner && fe2.farm.stake_token_type == fe.farm.stake_token_type
                    && fe2.farm.shares_asset_id == fe.farm.shares_asset_id
                    && fe2.farm.shares_per_block == fe.farm.shares_per_block
                    && fe2.farm.reward_weight == fe.farm.reward_weight
                    && fe2.farm.total_stake_amount as int == fe.farm.total_stake_amount - amt
                &&& match fe.farm.stake_token_type {
                    TokenType::NFT(c, t) => {
                        &&& forall|s: Seq<u8>, a: Seq<u8>|
                            spec_balance(*final(self), s, a) as int == spec_balance(
                                *old(self),
                                s,
                                a,
                            ) + (if reward > 0 && s == fe.farm.shares_asset_id@ && a
                                == fe.farm.owner@ {
                                reward
                            } else {
                                0
                            })
                        &&& amt > 0 && who@ != fe.farm.owner@ ==> (spec_token(*final(self), t@)
                            matches Some(te) && te.info.owner@ == who@) && spec_owner_index(
                            *final(self),
                            who@,
                            c@,
                            t@,
                        ) && !spec_owner_index(*final(self), fe.farm.owner@, c@, t@)
                        &&& (amt == 0 || who@ == fe.farm.owner@) ==> final(self).nft_tokens == old(
                            self,
                        ).nft_tokens && final(self).nft_accounts == old(self).nft_accounts
                        &&& final(self).nft_classes == old(self).nft_classes
                    },
                    TokenType::FT(aid) => {
                        &&& final(self).nft_tokens == old(self).nft_tokens
                        &&& final(self).nft_accounts == old(self).nft_accounts
                        &&& final(self).nft_classes == old(self).nft_classes
                        &&& forall|s: Seq<u8>, a: Seq<u8>|
                            spec_balance(*final(self), s, a) as int == spec_balance(
                                *old(self),
                                s,
                                a,
                            ) + (if reward > 0 && s == fe.farm.shares_asset_id@ && a
                                == fe.farm.owner@ {
                                reward
                            } else {
                                0
                            }) + (if amt == 0 || who@ == fe.farm.owner@ {
                                0
                            } else if s == aid@ && a == fe.farm.owner@ {
                                -amt
                            } else if s == aid@ && a == who@ {
                                amt
                            } else {
                                0
                            })
                    },
                    TokenType::Notset => amt == 0,
                }
                &&& forall|s: Seq<u8>|
                    spec_issuance(*final(self), s) as int == spec_issuance(*old(self), s) + (
                    if reward > 0 && s == fe.farm.shares_asset_id@ {
                        reward
                    } else {
                        0
                    })
            }),
    {
        let ghost old_d = *self;
        let fi = match find_farm(&self.farms, farm_id) {
            None => {
                return Err(Error::FarmIdNotExisted);
            },
            Some(fi) => fi,
        };
        let farm = self.farms[fi].farm;
        let ki = match find_farmer(&self.farmers, farm_id, who) {
            None => {
                return Err(Error::FarmerNotExisted);
            },
            Some(ki) => ki,
        };
        let farmer = self.farmers[ki].farmer;
        let current_block = self.block_number;
        let reward = match self.precheck_update_rewards(who, farm_id) {
            Ok(rw) => rw,
            Err(e) => {
                return Err(e);
            },
        };
        let amt = match unstake_amount {
            None => farmer.stake_amount,
            Some(a) => a,
        };
        if amt > farmer.stake_amount {
            return Err(Error::TooLargeStakeAmount);
        }
        if amt > farm.total_stake_amount {
            return Err(Error::TooLargeStakeAmount);
        }
        if amt > 0 {
            match farm.stake_token_type {
                TokenType::Notset => {
                    return Err(Error::WrongStakeType);
                },
                TokenType::NFT(c, t) => {
                    match self.transfer_token(&farm.owner, who, &c, &t) {
                        Ok(()) => {},
                        Err(e) => {
                            return Err(e);
                        },
                    }
                },
                TokenType::FT(aid) => {
                    if crate::state::find_asset(&self.assets, &aid).is_none() {
                        return Err(Error::AssetNotExists);
                    }
                    let bal = match self.free_balance(&aid, &farm.owner) {
                        Ok(b) => b,
                        Err(e) => {
                            proof {
                                assert(false);
                            }
                            return Err(e);
                        },
                    };
                    let applies = reward > 0 && aid.eq_bytes(&farm.shares_asset_id);
                    let adj: u128 = if applies {
                        reward
                    } else {
                        0
                    };
                    proof {
                        if applies {
                            crate::asset::lemma_balance_le_issuance(old_d, aid@, farm.owner@);
                        }
                    }
                    let mid_bal = bal + adj;
                    if mid_bal < amt {
                        return Err(Error::NoEnoughBalance);
                    }
                },
            }
        }
        // commit: an NFT hand-back already happened above; accrue, move the
        // fungible stake back, then shrink the records
        let ghost nft_done_d = *self;
        match self.update_rewards(who, farm_id) {
            Ok(_) => {},
            Err(e) => {
                proof {
                    assert(spec_update_rewards_result(nft_done_d, who@, farm_id@)
                        == spec_update_rewards_result(old_d, who@, farm_id@));
                    assert(false);
                }
                return Err(e);
            },
        }
        let ghost upd_d = *self;
        if amt > 0 {
            match farm.stake_token_type {
                TokenType::FT(aid) => {
                    match self.transfer_asset(&farm.owner, &aid, who, amt) {
                        Ok(()) => {},
                        Err(e) => {
                            proof {
                                assert(false);
                            }
                            return Err(e);
                        },
                    }
                },
                _ => {},
            }
        }
        let ghost mid_d = *self;
        // shrink the stake records
        let ki2 = match find_farmer(&self.farmers, farm_id, who) {
            None => {
                proof {
                    assert(false);
                }
                return Err(Error::FarmerNotExisted);
            },
            Some(ki2) => ki2,
        };
        let mut fr_entry = self.farmers[ki2];
        proof {
            lemma_first_match_found(mid_d.farmers@, ki2 as int);
        }
        fr_entry.farmer.stake_amount = fr_entry.farmer.stake_amount - amt;
        proof {
            lemma_first_match_update(mid_d.farmers@, ki2 as int, fr_entry, (farm_id@, who@));
            assert forall|q: Seq<u8>, a: Seq<u8>| (q, a) != (farm_id@, who@) implies first_match(
                mid_d.farmers@.update(ki2 as int, fr_entry),
                (q, a),
            ) == first_match(mid_d.farmers@, (q, a)) by {
                lemma_first_match_update(mid_d.farmers@, ki2 as int, fr_entry, (q, a));
            }
        }
        self.farmers.set(ki2, fr_entry);
        let ghost mid2_d = *self;
        let mut fentry = self.farms[fi];
        proof {
            assert(mid2_d.farms@ == old_d.farms@);
        }
        fentry.farm.total_stake_amount = fentry.farm.total_stake_amount - amt;
        proof {
            lemma_first_match_update(mid2_d.farms@, fi as int, fentry, farm_id@);
            assert forall|q: Seq<u8>| q != farm_id@ implies first_match(
                mid2_d.farms@.update(fi as int, fentry),
                q,
            ) == first_match(mid2_d.farms@, q) by {
                lemma_first_match_update(mid2_d.farms@, fi as int, fentry, q);
            }
        }
        self.farms.set(fi, fentry);
        proof {
            assert forall|k: int|
                0 <= k < self.farms@.len() implies !((#[trigger] self.farms@[k]).farm.stake_token_type
                is Notset) && self.farms@[k].farm.reward_weight >= 1 by {
                if k != fi as int {
                    assert(self.farms@[k] == old_d.farms@[k]);
                }
            }
            lemma_wf_after_farming_change(mid2_d, *self);
        }
        let ghost pre_rm_d = *self;
        if amt > 0 {
            self.remove_farmer(who, farm_id);
        }
        proof {
            assert forall|q: Seq<u8>, a: Seq<u8>| (q, a) != (farm_id@, who@) implies spec_farmer(
                *self,
                q,
                a,
            ) == spec_farmer(old_d, q, a) by {
                assert(spec_farmer(*self, q, a) == spec_farmer(pre_rm_d, q, a));
                assert(pre_rm_d.farmers@ == mid_d.farmers@.update(ki2 as int, fr_entry));
                assert(spec_farmer(pre_rm_d, q, a) == first_match(
                    mid_d.farmers@.update(ki2 as int, fr_entry),
                    (q, a),
                ));
                assert(mid_d.farmers == upd_d.farmers);
                assert(spec_farmer(upd_d, q, a) == spec_farmer(old_d, q, a));
            }
            assert(self.ledger == mid_d.ledger);
            assert(nft_done_d.ledger == old_d.ledger);
            assert forall|s: Seq<u8>, a: Seq<u8>| true implies spec_balance(nft_done_d, s, a)
                == spec_balance(old_d, s, a) && spec_issuance(nft_done_d, s) == spec_issuance(
                old_d,
                s,
            ) by {}
            let ghost is_ft_transfer = amt > 0 && (farm.stake_token_type matches TokenType::FT(_));
            assert forall|s: Seq<u8>, a: Seq<u8>| true implies spec_balance(*self, s, a) as int
                == spec_balance(old_d, s, a) + (if reward > 0 && s == farm.shares_asset_id@ && a
                == farm.owner@ {
                reward as int
            } else {
                0
            }) + (match farm.stake_token_type {
                TokenType::FT(aid) => if amt == 0 || who@ == farm.owner@ {
                    0
                } else if s == aid@ && a == farm.owner@ {
                    -(amt as int)
                } else if s == aid@ && a == who@ {
                    amt as int
                } else {
                    0
                },
                _ => 0,
            }) by {
                assert(spec_balance(*self, s, a) == spec_balance(mid_d, s, a));
                if !is_ft_transfer {
                    assert(mid_d == upd_d);
                } else {
                    if who@ == farm.owner@ {
                        assert(mid_d == upd_d);
                    }
                }
            }
            assert forall|s: Seq<u8>| true implies spec_issuance(*self, s) as int
                == spec_issuance(old_d, s) + (if reward > 0 && s == farm.shares_asset_id@ {
                reward as int
            } else {
                0
            }) by {
                assert(spec_issuance(*self, s) == spec_issuance(mid_d, s));
                if !is_ft_transfer {
                    assert(mid_d == upd_d);
                } else {
                    if who@ == farm.owner@ {
                        assert(mid_d == upd_d);
                    } else {
                        assert(spec_issuance(mid_d, s) == spec_issuance(upd_d, s));
                    }
                }
            }
        }
        Ok(())
    }

    /// Pays `reward_to_claim` (everything when zero) of `who`'s accrued
    /// rewards out of the farm owner's wallet, after accruing the pending
    /// reward.  An emptied NFT-farm record with no rewards left is dropped.
    pub fn claim(&mut self, who: &AccountId, farm_id: &FarmId, reward_to_claim: Balance) -> (r:
        Result<(), Error>)
        requires
            old(self).wf(),
        ensures
            final(self).wf(),
            r == spec_claim_result(*old(self), who@, farm_id@, reward_to_claim),
            r is Err ==> *final(self) == *old(self),
            r is Ok ==> ({
                let fe = spec_farm(*old(self), farm_id@)->Some_0;
                let fr = spec_farmer(*old(self), farm_id@, who@)->Some_0;
                let reward = spec_pending_reward(*old(self), who@, farm_id@);
                let new_rewards = fr.farmer.rewards + reward;
                let to_claim: int = if reward_to_claim == 0 {
                    new_rewards
                } else {
                    reward_to_claim as int
                };
                let rewards_left = new_rewards - to_claim;
                let removed = fe.farm.stake_token_type is NFT && fr.farmer.stake_amount == 0
                    && rewards_left == 0;
                &&& only_staking_touched(*old(self), *final(self))
                &&& final(self).nft_tokens == old(self).nft_tokens
                &&& final(self).nft_accounts == old(self).nft_accounts
                &&& final(self).nft_classes == old(self).nft_classes
                &&& final(self).farms == old(self).farms
                &&& removed ==> spec_farmer(*final(self), farm_id@, who@) is None
                &&& !removed ==> (spec_farmer(*final(self), farm_id@, who@) matches Some(fr2)
                    && fr2.farmer.stake_amount == fr.farmer.stake_amount && fr2.farmer.rewards
                    as int == rewards_left && fr2.farmer.last_reward_block == old(
                    self,
                ).block_number)
                &&& forall|q: Seq<u8>, a: Seq<u8>|
                    q != farm_id@ || a != who@ ==> spec_farmer(*final(self), q, a) == spec_farmer(
                        *old(self),
                        q,
                        a,
                    )
                &&& forall|s: Seq<u8>, a: Seq<u8>|
                    spec_balance(*final(self), s, a) as int == spec_balance(*old(self), s, a) + (
                    if reward > 0 && s == fe.farm.shares_asset_id@ && a == fe.farm.owner@ {
                        reward
                    } else {
                        0
                    }) + (if who@ == fe.farm.owner@ {
                        0
                    } else if s == fe.farm.shares_asset_id@ && a == fe.farm.owner@ {
                        -to_claim
                    } else if s == fe.farm.shares_asset_id@ && a == who@ {
                        to_claim
                    } else {
                        0
                    })
                &&& forall|s: Seq<u8>|
                    spec_issuance(*final(self), s) as int == spec_issuance(*old(self), s) + (
                    if reward > 0 && s == fe.farm.shares_asset_id@ {
                        reward
                    } else {
                        0
                    })
            }),
    {
        let ghost old_d = *self;
        let reward = match self.precheck_update_rewards(who, farm_id) {
            Ok(rw) => rw,
            Err(e) => {
                return Err(e);
            },
        };
        let ki = match find_farmer(&self.farmers, farm_id, who) {
            None => {
                proof {
                    assert(false);
                }
                return Err(Error::FarmerNotExisted);
            },
            Some(ki) => ki,
        };
        let fi = match find_farm(&self.farms, farm_id) {
            None => {
                proof {
                    assert(false);
                }
                return Err(Error::FarmIdNotExisted);
            },
            Some(fi) => fi,
        };
        let farm = self.farms[fi].farm;
        let farmer = self.farmers[ki].farmer;
        let new_rewards = farmer.rewards + reward;
        if reward_to_claim > new_rewards {
            return Err(Error::NoEnoughRewards);
        }
        let to_claim: u128 = if reward_to_claim == 0 {
            new_rewards
        } else {
            reward_to_claim
        };
        if crate::state::find_asset(&self.assets, &farm.shares_asset_id).is_none() {
            return Err(Error::AssetNotExists);
        }
        let bal = match self.free_balance(&farm.shares_asset_id, &farm.owner) {
            Ok(b) => b,
            Err(e) => {
                proof {
                    assert(false);
                }
                return Err(e);
            },
        };
        let adj: u128 = if reward > 0 {
            reward
        } else {
            0
        };
        proof {
            if reward > 0 {
                crate::asset::lemma_balance_le_issuance(old_d, farm.shares_asset_id@, farm.owner@);
            }
        }
        let mid_bal = bal + adj;
        if mid_bal < to_claim {
            return Err(Error::NoEnoughBalance);
        }
        // commit: accrue, pay out, shrink the record
        match self.update_rewards(who, farm_id) {
            Ok(_) => {},
            Err(e) => {
                proof {
                    assert(false);
                }
                return Err(e);
            },
        }
        let ghost upd_d = *self;
        match self.transfer_asset(&farm.owner, &farm.shares_asset_id, who, to_claim) {
            Ok(()) => {},
            Err(e) => {
                proof {
                    assert(false);
                }
                return Err(e);
            },
        }
        let ghost mid_d = *self;
        let ki2 = match find_farmer(&self.farmers, farm_id, who) {
            None => {
                proof {
                    assert(false);
                }
                return Err(Error::FarmerNotExisted);
            },
            Some(ki2) => ki2,
        };
        let mut fr_entry = self.farmers[ki2];
        proof {
            lemma_first_match_found(mid_d.farmers@, ki2 as int);
        }
        fr_entry.farmer.rewards = fr_entry.farmer.rewards - to_claim;
        proof {
            lemma_first_match_update(mid_d.farmers@, ki2 as int, fr_entry, (farm_id@, who@));
            assert forall|q: Seq<u8>, a: Seq<u8>| (q, a) != (farm_id@, who@) implies first_match(
                mid_d.farmers@.update(ki2 as int, fr_entry),
                (q, a),
            ) == first_match(mid_d.farmers@, (q, a)) by {
                lemma_first_match_update(mid_d.farmers@, ki2 as int, fr_entry, (q, a));
            }
        }
        self.farmers.set(ki2, fr_entry);
        proof {
            assert forall|k: int|
                0 <= k < self.farms@.len() implies !((#[trigger] self.farms@[k]).farm.stake_token_type
                is Notset) && self.farms@[k].farm.reward_weight >= 1 by {
                assert(self.farms@[k] == old_d.farms@[k]);
            }
            lemma_wf_after_farming_change(mid_d, *self);
        }
        let ghost pre_rm_d = *self;
        self.remove_farmer(who, farm_id);
        proof {
            assert(self.ledger == mid_d.ledger);
            assert forall|q: Seq<u8>, a: Seq<u8>| (q, a) != (farm_id@, who@) implies spec_farmer(
                *self,
                q,
                a,
            ) == spec_farmer(old_d, q, a) by {
                assert(spec_farmer(*self, q, a) == spec_farmer(pre_rm_d, q, a));
                assert(pre_rm_d.farmers@ == mid_d.farmers@.update(ki2 as int, fr_entry));
                assert(spec_farmer(pre_rm_d, q, a) == first_match(
                    mid_d.farmers@.update(ki2 as int, fr_entry),
                    (q, a),
                ));
                assert(mid_d.farmers == upd_d.farmers);
                assert(spec_farmer(upd_d, q, a) == spec_farmer(old_d, q, a));
            }
            assert forall|s: Seq<u8>, a: Seq<u8>| true implies spec_balance(*self, s, a) as int
                == spec_balance(old_d, s, a) + (if reward > 0 && s == farm.shares_asset_id@ && a
                == farm.owner@ {
                reward as int
            } else {
                0
            }) + (if who@ == farm.owner@ {
                0
            } else if s == farm.shares_asset_id@ && a == farm.owner@ {
                -(to_claim as int)
            } else if s == farm.shares_asset_id@ && a == who@ {
                to_claim as int
            } else {
                0
            }) by {
                assert(spec_balance(*self, s, a) == spec_balance(mid_d, s, a));
                if who@ == farm.owner@ {
                    assert(mid_d == upd_d);
                }
            }
            assert forall|s: Seq<u8>| true implies spec_issuance(*self, s) as int
                == spec_issuance(old_d, s) + (if reward > 0 && s == farm.shares_asset_id@ {
                reward as int
            } else {
                0
            }) by {
                assert(spec_issuance(*self, s) == spec_issuance(mid_d, s));
                if who@ == farm.owner@ {
                    assert(mid_d == upd_d);
                } else {
                    assert(spec_issuance(mid_d, s) == spec_issuance(upd_d, s));
                }
            }
        }
        Ok(())
    }
}

} // verus!
