//! Fungible assets: registration, mint and burn authority, and the balance
//! ledger.

use vstd::prelude::*;
use crate::errors::Error;
use crate::keyed::{first_match, lemma_first_match_found, lemma_first_match_is_present,
    lemma_first_match_none, lemma_first_match_push, lemma_first_match_update, lemma_sum_push,
    lemma_sum_update, lemma_sum_ge_element, lemma_sum_ge_two, unique_keys, KeyedRec, ValuedRec};
use crate::metadata::{AccountBalance, AssetInfo, MAX_PRECISION};
use crate::primitives::{spec_valid_id, AccountId, Amount, AssetId, AssetName, AssetSymbol,
    Balance, FixedString, StdString};
use crate::state::{find_account, find_asset, find_ledger, find_permission, spec_asset,
    spec_asset_exists, spec_balance, spec_issuance, spec_ledger, spec_permission, AssetEntry,
    Dex, PermissionEntry, SymbolLedger};

verus! {

/// Whether `new_d` and `old_d` agree on everything but the balance ledger.
pub open spec fn only_ledger_changed(old_d: Dex, new_d: Dex) -> bool {
    &&& new_d.assets == old_d.assets
    &&& new_d.permissions == old_d.permissions
    &&& new_d.nft_classes == old_d.nft_classes
    &&& new_d.nft_tokens == old_d.nft_tokens
    &&& new_d.nft_accounts == old_d.nft_accounts
    &&& new_d.pools == old_d.pools
    &&& new_d.pool_kinds == old_d.pool_kinds
    &&& new_d.farms == old_d.farms
    &&& new_d.farmers == old_d.farmers
    &&& new_d.block_number == old_d.block_number
}

/// Whether the issuance of every symbol but `sym` is the same in both states.
pub open spec fn issuance_except(old_d: Dex, new_d: Dex, sym: Seq<u8>) -> bool {
    forall|s: Seq<u8>| s != sym ==> spec_issuance(new_d, s) == spec_issuance(old_d, s)
}

/// Whether every balance except `who`'s balance of `sym` is the same in both
/// states.
pub open spec fn balances_except(old_d: Dex, new_d: Dex, sym: Seq<u8>, who: Seq<u8>) -> bool {
    forall|s: Seq<u8>, a: Seq<u8>|
        s != sym || a != who ==> spec_balance(new_d, s, a) == spec_balance(old_d, s, a)
}

/// In a well-formed state, a ledger's existence implies its asset's.
pub proof fn lemma_ledger_has_asset(d: Dex, sym: Seq<u8>)
    requires
        d.wf(),
        spec_ledger(d, sym) is Some,
    ensures
        spec_asset_exists(d, sym),
{
    lemma_first_match_is_present(d.ledger@, sym);
}

/// In a well-formed state, no account holds more of a symbol than its
/// issuance.
pub proof fn lemma_balance_le_issuance(d: Dex, sym: Seq<u8>, who: Seq<u8>)
    requires
        d.wf(),
    ensures
        spec_balance(d, sym, who) <= spec_issuance(d, sym),
{
    if spec_ledger(d, sym) is Some {
        lemma_first_match_is_present(d.ledger@, sym);
        let l = spec_ledger(d, sym)->Some_0;
        if first_match(l.accounts@, who) is Some {
            lemma_first_match_is_present(l.accounts@, who);
            let j = choose|j: int|
                0 <= j < l.accounts@.len() && l.accounts@[j] == first_match(l.accounts@, who)->Some_0
                    && (#[trigger] l.accounts@[j].key()) == who;
            assert forall|k: int| 0 <= k < l.accounts@.len() implies (#[trigger] l.accounts@[k].val())
                >= 0 by {}
            lemma_sum_ge_element(l.accounts@, j);
        }
    }
}

impl Dex {
    /// Adds `amount` to `who`'s balance of `sym` and to its issuance.
    ///
    /// Fails with `AmountOverflow` exactly when the new issuance would not
    /// fit; a fresh symbol starts from issuance zero.
    pub(crate) fn ledger_deposit(&mut self, sym: &AssetSymbol, who: &AccountId, amount: Balance)
        -> (r: Result<(), Error>)
        requires
            old(self).wf(),
            spec_asset_exists(*old(self), sym@),
        ensures
            final(self).wf(),
            r is Ok <==> spec_issuance(*old(self), sym@) + amount <= u128::MAX,
            r is Err ==> r == Err::<(), Error>(Error::AmountOverflow) && *final(self) == *old(
                self,
            ),
            r is Ok ==> {
                &&& spec_balance(*final(self), sym@, who@) == spec_balance(*old(self), sym@, who@)
                    + amount
                &&& spec_issuance(*final(self), sym@) == spec_issuance(*old(self), sym@) + amount
                &&& only_ledger_changed(*old(self), *final(self))
                &&& issuance_except(*old(self), *final(self), sym@)
                &&& balances_except(*old(self), *final(self), sym@, who@)
            },
    {
        let ghost old_d = *self;
        match find_ledger(&self.ledger, sym) {
            None => {
                let mut accounts: Vec<AccountBalance> = Vec::new();
                accounts.push(AccountBalance { account: *who, amount });
                let entry = SymbolLedger { symbol: *sym, issuance: amount, accounts };
                proof {
                    assert(entry.accounts@ =~= Seq::empty().push(
                        AccountBalance { account: *who, amount },
                    ));
                    lemma_sum_push(
                        Seq::<AccountBalance>::empty(),
                        AccountBalance { account: *who, amount },
                    );
                    assert(crate::state::wf_symbol_ledger(entry));
                    lemma_first_match_push(old_d.ledger@, entry, sym@);
                    assert(unique_keys(old_d.ledger@.push(entry)));
                    assert forall|s: Seq<u8>| true implies first_match(
                        old_d.ledger@.push(entry),
                        s,
                    ) == (if s == sym@ {
                        Some(entry)
                    } else {
                        first_match(old_d.ledger@, s)
                    }) by {
                        lemma_first_match_push(old_d.ledger@, entry, s);
                    }
                }
                self.ledger.push(entry);
                proof {
                    assert(first_match(entry.accounts@, who@) == Some(
                        AccountBalance { account: *who, amount },
                    )) by {
                        lemma_first_match_found(entry.accounts@, 0);
                    }
                    assert forall|a: Seq<u8>| a != who@ implies first_match(
                        entry.accounts@,
                        a,
                    ) is None by {
                        assert(entry.accounts@.drop_first() =~= Seq::<AccountBalance>::empty());
                        assert(first_match(Seq::<AccountBalance>::empty(), a) is None);
                    }
                    assert(self.wf()) by {
                        lemma_wf_after_ledger_only_change(old_d, *self);
                    }
                }
                Ok(())
            },
            Some(i) => {
                let iss = self.ledger[i].issuance;
                proof {
                    lemma_first_match_found(old_d.ledger@, i as int);
                }
                if amount > u128::MAX - iss {
                    return Err(Error::AmountOverflow);
                }
                let ghost old_entry = self.ledger@[i as int];
                let new_iss = iss + amount;
                match find_account(&self.ledger[i].accounts, who) {
                    Some(j) => {
                        let bal = self.ledger[i].accounts[j].amount;
                        proof {
                            assert forall|k: int|
                                0 <= k < old_entry.accounts@.len() implies (
                            #[trigger] old_entry.accounts@[k].val()) >= 0 by {}
                            lemma_sum_ge_element(old_entry.accounts@, j as int);
                        }
                        let mut acc = self.ledger[i].accounts[j];
                        acc.amount = bal + amount;
                        self.ledger[i].accounts.set(j, acc);
                        self.ledger[i].issuance = new_iss;
                        proof {
                            let new_entry = self.ledger@[i as int];
                            assert(new_entry.accounts@ == old_entry.accounts@.update(
                                j as int,
                                acc,
                            ));
                            lemma_sum_update(old_entry.accounts@, j as int, acc);
                            assert forall|a: Seq<u8>| true implies first_match(
                                new_entry.accounts@,
                                a,
                            ) == (if a == who@ {
                                Some(acc)
                            } else {
                                first_match(old_entry.accounts@, a)
                            }) by {
                                lemma_first_match_update(old_entry.accounts@, j as int, acc, a);
                            }
                            assert(self.ledger@ == old_d.ledger@.update(i as int, new_entry));
                            lemma_first_match_update(old_d.ledger@, i as int, new_entry, sym@);
                            assert(unique_keys(self.ledger@));
                            assert forall|s: Seq<u8>| true implies first_match(self.ledger@, s)
                                == (if s == sym@ {
                                Some(new_entry)
                            } else {
                                first_match(old_d.ledger@, s)
                            }) by {
                                lemma_first_match_update(old_d.ledger@, i as int, new_entry, s);
                            }
                            assert(crate::state::wf_symbol_ledger(new_entry));
                            assert forall|k: int|
                                0 <= k < self.ledger@.len() implies crate::state::wf_symbol_ledger(
                                #[trigger] self.ledger@[k],
                            ) by {
                                if k != i as int {
                                    assert(self.ledger@[k] == old_d.ledger@[k]);
                                }
                            }
                            assert forall|k: int|
                                0 <= k < self.ledger@.len() implies spec_asset_exists(
                                old_d,
                                (#[trigger] self.ledger@[k]).symbol@,
                            ) by {
                                if k != i as int {
                                    assert(self.ledger@[k] == old_d.ledger@[k]);
                                } else {
                                    assert(self.ledger@[k].symbol@ == sym@);
                                }
                            }
                            lemma_wf_after_ledger_only_change(old_d, *self);
                        }
                        Ok(())
                    },
                    None => {
                        let new_acc = AccountBalance { account: *who, amount };
                        self.ledger[i].accounts.push(new_acc);
                        self.ledger[i].issuance = new_iss;
                        proof {
                            let new_entry = self.ledger@[i as int];
                            assert(new_entry.accounts@ == old_entry.accounts@.push(new_acc));
                            lemma_sum_push(old_entry.accounts@, new_acc);
                            lemma_first_match_push(old_entry.accounts@, new_acc, who@);
                            assert(unique_keys(new_entry.accounts@));
                            assert forall|a: Seq<u8>| true implies first_match(
                                new_entry.accounts@,
                                a,
                            ) == (if a == who@ {
                                Some(new_acc)
                            } else {
                                first_match(old_entry.accounts@, a)
                            }) by {
                                lemma_first_match_push(old_entry.accounts@, new_acc, a);
                            }
                            assert(self.ledger@ == old_d.ledger@.update(i as int, new_entry));
                            lemma_first_match_update(old_d.ledger@, i as int, new_entry, sym@);
                            assert(unique_keys(self.ledger@));
                            assert forall|s: Seq<u8>| true implies first_match(self.ledger@, s)
                                == (if s == sym@ {
                                Some(new_entry)
                            } else {
                                first_match(old_d.ledger@, s)
                            }) by {
                                lemma_first_match_update(old_d.ledger@, i as int, new_entry, s);
                            }
                            assert(crate::state::wf_symbol_ledger(new_entry));
                            assert forall|k: int|
                                0 <= k < self.ledger@.len() implies crate::state::wf_symbol_ledger(
                                #[trigger] self.ledger@[k],
                            ) by {
                                if k != i as int {
                                    assert(self.ledger@[k] == old_d.ledger@[k]);
                                }
                            }
                            assert forall|k: int|
                                0 <= k < self.ledger@.len() implies spec_asset_exists(
                                old_d,
                                (#[trigger] self.ledger@[k]).symbol@,
                            ) by {
                                if k != i as int {
                                    assert(self.ledger@[k] == old_d.ledger@[k]);
                                } else {
                                    assert(self.ledger@[k].symbol@ == sym@);
                                }
                            }
                            lemma_wf_after_ledger_only_change(old_d, *self);
                        }
                        Ok(())
                    },
                }
            },
        }
    }
}

impl Dex {
    /// Removes `amount` from `who`'s balance of `sym` and from its issuance.
    ///
    /// Fails with `InsufficientBalance` exactly when the balance is below
    /// `amount`.
    pub(crate) fn ledger_withdraw(&mut self, sym: &AssetSymbol, who: &AccountId, amount: Balance)
        -> (r: Result<(), Error>)
        requires
            old(self).wf(),
        ensures
            final(self).wf(),
            r is Ok <==> spec_balance(*old(self), sym@, who@) >= amount,
            r is Err ==> r == Err::<(), Error>(Error::InsufficientBalance) && *final(self) == *old(
                self,
            ),
            r is Ok ==> {
                &&& spec_balance(*final(self), sym@, who@) == spec_balance(*old(self), sym@, who@)
                    - amount
                &&& spec_issuance(*final(self), sym@) == spec_issuance(*old(self), sym@) - amount
                &&& only_ledger_changed(*old(self), *final(self))
                &&& issuance_except(*old(self), *final(self), sym@)
                &&& balances_except(*old(self), *final(self), sym@, who@)
            },
    {
        let ghost old_d = *self;
        if amount == 0 {
            return Ok(());
        }
        match find_ledger(&self.ledger, sym) {
            None => Err(Error::InsufficientBalance),
            Some(i) => {
                let ghost old_entry = self.ledger@[i as int];
                match find_account(&self.ledger[i].accounts, who) {
                    None => Err(Error::InsufficientBalance),
                    Some(j) => {
                        let bal = self.ledger[i].accounts[j].amount;
                        if bal < amount {
                            return Err(Error::InsufficientBalance);
                        }
                        let iss = self.ledger[i].issuance;
                        proof {
                            assert forall|k: int|
                                0 <= k < old_entry.accounts@.len() implies (
                            #[trigger] old_entry.accounts@[k].val()) >= 0 by {}
                            lemma_sum_ge_element(old_entry.accounts@, j as int);
                        }
                        let mut acc = self.ledger[i].accounts[j];
                        acc.amount = bal - amount;
                        self.ledger[i].accounts.set(j, acc);
                        self.ledger[i].issuance = iss - amount;
                        proof {
                            let new_entry = self.ledger@[i as int];
                            assert(new_entry.accounts@ == old_entry.accounts@.update(
                                j as int,
                                acc,
                            ));
                            lemma_sum_update(old_entry.accounts@, j as int, acc);
                            assert forall|a: Seq<u8>| true implies first_match(
                                new_entry.accounts@,
                                a,
                            ) == (if a == who@ {
                                Some(acc)
                            } else {
                                first_match(old_entry.accounts@, a)
                            }) by {
                                lemma_first_match_update(old_entry.accounts@, j as int, acc, a);
                            }
                            assert(self.ledger@ == old_d.ledger@.update(i as int, new_entry));
                            lemma_first_match_update(old_d.ledger@, i as int, new_entry, sym@);
                            assert(unique_keys(self.ledger@));
                            assert forall|s: Seq<u8>| true implies first_match(self.ledger@, s)
                                == (if s == sym@ {
                                Some(new_entry)
                            } else {
                                first_match(old_d.ledger@, s)
                            }) by {
                                lemma_first_match_update(old_d.ledger@, i as int, new_entry, s);
                            }
                            assert(crate::state::wf_symbol_ledger(new_entry));
                            assert forall|k: int|
                                0 <= k < self.ledger@.len() implies crate::state::wf_symbol_ledger(
                                #[trigger] self.ledger@[k],
                            ) by {
                                if k != i as int {
                                    assert(self.ledger@[k] == old_d.ledger@[k]);
                                }
                            }
                            assert forall|k: int|
                                0 <= k < self.ledger@.len() implies spec_asset_exists(
                                old_d,
                                (#[trigger] self.ledger@[k]).symbol@,
                            ) by {
                                if k != i as int {
                                    assert(self.ledger@[k] == old_d.ledger@[k]);
                                } else {
                                    assert(self.ledger@[k].symbol@ == sym@);
                                    assert(old_d.ledger@[k] == old_entry);
                                    assert(spec_asset_exists(old_d, old_entry.symbol@));
                                }
                            }
                            lemma_wf_after_ledger_only_change(old_d, *self);
                        }
                        Ok(())
                    },
                }
            },
        }
    }

    /// Moves `amount` of `sym` from `from` to `to`, two distinct accounts;
    /// issuance is unchanged.
    ///
    /// Fails with `InsufficientBalance` exactly when `from`'s balance is
    /// below `amount`.
    pub(crate) fn ledger_transfer(
        &mut self,
        sym: &AssetSymbol,
        from: &AccountId,
        to: &AccountId,
        amount: Balance,
    ) -> (r: Result<(), Error>)
        requires
            old(self).wf(),
            from@ != to@,
        ensures
            final(self).wf(),
            r is Ok <==> spec_balance(*old(self), sym@, from@) >= amount,
            r is Err ==> r == Err::<(), Error>(Error::InsufficientBalance) && *final(self) == *old(
                self,
            ),
            r is Ok ==> {
                &&& spec_balance(*final(self), sym@, from@) == spec_balance(
                    *old(self),
                    sym@,
                    from@,
                ) - amount
                &&& spec_balance(*final(self), sym@, to@) == spec_balance(*old(self), sym@, to@)
                    + amount
                &&& forall|s: Seq<u8>| spec_issuance(*final(self), s) == spec_issuance(*old(self), s)
                &&& only_ledger_changed(*old(self), *final(self))
                &&& forall|s: Seq<u8>, a: Seq<u8>|
                    s != sym@ || (a != from@ && a != to@) ==> spec_balance(*final(self), s, a)
                        == spec_balance(*old(self), s, a)
            },
    {
        let ghost old_d = *self;
        if amount == 0 {
            return Ok(());
        }
        match find_ledger(&self.ledger, sym) {
            None => Err(Error::InsufficientBalance),
            Some(i) => {
                let ghost old_entry = self.ledger@[i as int];
                match find_account(&self.ledger[i].accounts, from) {
                    None => Err(Error::InsufficientBalance),
                    Some(jf) => {
                        let bal_from = self.ledger[i].accounts[jf].amount;
                        if bal_from < amount {
                            return Err(Error::InsufficientBalance);
                        }
                        proof {
                            assert forall|k: int|
                                0 <= k < old_entry.accounts@.len() implies (
                            #[trigger] old_entry.accounts@[k].val()) >= 0 by {}
                        }
                        let mut acc_from = self.ledger[i].accounts[jf];
                        acc_from.amount = bal_from - amount;
                        self.ledger[i].accounts.set(jf, acc_from);
                        let ghost mid_accounts = old_entry.accounts@.update(jf as int, acc_from);
                        proof {
                            lemma_sum_update(old_entry.accounts@, jf as int, acc_from);
                            assert forall|a: Seq<u8>| true implies first_match(mid_accounts, a)
                                == (if a == from@ {
                                Some(acc_from)
                            } else {
                                first_match(old_entry.accounts@, a)
                            }) by {
                                lemma_first_match_update(
                                    old_entry.accounts@,
                                    jf as int,
                                    acc_from,
                                    a,
                                );
                            }
                            assert forall|k: int|
                                0 <= k < mid_accounts.len() implies (
                            #[trigger] mid_accounts[k].val()) >= 0 by {
                                assert(mid_accounts[k] == if k == jf as int {
                                    acc_from
                                } else {
                                    old_entry.accounts@[k]
                                });
                            }
                        }
                        match find_account(&self.ledger[i].accounts, to) {
                            Some(jt) => {
                                let bal_to = self.ledger[i].accounts[jt].amount;
                                proof {
                                    assert(jt != jf);
                                    assert(mid_accounts[jt as int] == old_entry.accounts@[jt as int]);
                                    lemma_sum_ge_two(old_entry.accounts@, jf as int, jt as int);
                                }
                                let mut acc_to = self.ledger[i].accounts[jt];
                                acc_to.amount = bal_to + amount;
                                self.ledger[i].accounts.set(jt, acc_to);
                                proof {
                                    let new_entry = self.ledger@[i as int];
                                    assert(new_entry.accounts@ == mid_accounts.update(
                                        jt as int,
                                        acc_to,
                                    ));
                                    lemma_sum_update(mid_accounts, jt as int, acc_to);
                                    assert forall|a: Seq<u8>| true implies first_match(
                                        new_entry.accounts@,
                                        a,
                                    ) == (if a == to@ {
                                        Some(acc_to)
                                    } else {
                                        first_match(mid_accounts, a)
                                    }) by {
                                        lemma_first_match_update(mid_accounts, jt as int, acc_to, a);
                                    }
                                    assert(self.ledger@ =~= old_d.ledger@.update(
                                        i as int,
                                        new_entry,
                                    ));
                                    finish_transfer_proof(old_d, *self, i as int, old_entry, sym@);
                                }
                                Ok(())
                            },
                            None => {
                                let acc_to = AccountBalance { account: *to, amount };
                                self.ledger[i].accounts.push(acc_to);
                                proof {
                                    let new_entry = self.ledger@[i as int];
                                    assert(new_entry.accounts@ == mid_accounts.push(acc_to));
                                    lemma_sum_push(mid_accounts, acc_to);
                                    lemma_first_match_push(mid_accounts, acc_to, to@);
                                    assert forall|a: Seq<u8>| true implies first_match(
                                        new_entry.accounts@,
                                        a,
                                    ) == (if a == to@ {
                                        Some(acc_to)
                                    } else {
                                        first_match(mid_accounts, a)
                                    }) by {
                                        lemma_first_match_push(mid_accounts, acc_to, a);
                                    }
                                    assert(self.ledger@ =~= old_d.ledger@.update(
                                        i as int,
                                        new_entry,
                                    ));
                                    finish_transfer_proof(old_d, *self, i as int, old_entry, sym@);
                                }
                                Ok(())
                            },
                        }
                    },
                }
            },
        }
    }
}

/// Closes a ledger-entry replacement proof: given that the entry at `i` was
/// replaced by a well-formed one with the same symbol, re-establishes lookup
/// framing over symbols and the whole-state invariant.
proof fn finish_transfer_proof(old_d: Dex, new_d: Dex, i: int, old_entry: SymbolLedger, sym: Seq<u8>)
    requires
        old_d.wf(),
        only_ledger_changed(old_d, new_d),
        0 <= i < old_d.ledger@.len(),
        old_d.ledger@[i] == old_entry,
        old_entry.symbol@ == sym,
        new_d.ledger@ == old_d.ledger@.update(i, new_d.ledger@[i]),
        new_d.ledger@[i].symbol@ == sym,
        unique_keys(new_d.ledger@[i].accounts@),
        new_d.ledger@[i].issuance as int == crate::keyed::sum_vals(new_d.ledger@[i].accounts@),
    ensures
        new_d.wf(),
        forall|s: Seq<u8>|
            first_match(new_d.ledger@, s) == (if s == sym {
                Some(new_d.ledger@[i])
            } else {
                first_match(old_d.ledger@, s)
            }),
{
    let new_entry = new_d.ledger@[i];
    lemma_first_match_update(old_d.ledger@, i, new_entry, sym);
    assert(unique_keys(new_d.ledger@));
    assert forall|s: Seq<u8>| true implies first_match(new_d.ledger@, s) == (if s == sym {
        Some(new_entry)
    } else {
        first_match(old_d.ledger@, s)
    }) by {
        lemma_first_match_update(old_d.ledger@, i, new_entry, s);
    }
    assert forall|k: int| 0 <= k < new_d.ledger@.len() implies crate::state::wf_symbol_ledger(
        #[trigger] new_d.ledger@[k],
    ) by {
        if k != i {
            assert(new_d.ledger@[k] == old_d.ledger@[k]);
        }
    }
    assert forall|k: int| 0 <= k < new_d.ledger@.len() implies spec_asset_exists(
        old_d,
        (#[trigger] new_d.ledger@[k]).symbol@,
    ) by {
        if k != i {
            assert(new_d.ledger@[k] == old_d.ledger@[k]);
        } else {
            assert(spec_asset_exists(old_d, old_entry.symbol@));
        }
    }
    lemma_wf_after_ledger_only_change(old_d, new_d);
}

/// The decision `register_asset` makes, in the order its checks run.
pub open spec fn spec_register_asset_result(
    d: Dex,
    symbol: Seq<u8>,
    name: Seq<u8>,
    precision: u8,
) -> Result<(), Error> {
    if !spec_valid_id(symbol) {
        Err(Error::InvalidAssetSymbol)
    } else if !(name[0] == 0 || spec_valid_id(name)) {
        Err(Error::InvalidAssetName)
    } else if precision > MAX_PRECISION {
        Err(Error::InvalidPrecision)
    } else if spec_asset_exists(d, symbol) {
        Err(Error::AssetAlreadyExists)
    } else if spec_permission(d, symbol) matches Some(p) && !p.allow {
        Err(Error::AssetNotAllowedToRegister)
    } else {
        Ok(())
    }
}

/// The decision `mint_asset` makes, in the order its checks run.
pub open spec fn spec_mint_asset_result(
    d: Dex,
    issuer: Seq<u8>,
    symbol: Seq<u8>,
    amount: Balance,
) -> Result<(), Error> {
    match spec_asset(d, symbol) {
        None => Err(Error::AssetNotExists),
        Some(e) => if !e.info.is_mintable {
            Err(Error::AssetIsNotMintable)
        } else if e.owner@ != issuer {
            Err(Error::InvalidOwner)
        } else if spec_issuance(d, symbol) + amount > u128::MAX {
            Err(Error::AmountOverflow)
        } else {
            Ok(())
        },
    }
}

/// The decision `burn_asset` makes, in the order its checks run.
pub open spec fn spec_burn_asset_result(
    d: Dex,
    issuer: Seq<u8>,
    symbol: Seq<u8>,
    amount: Balance,
) -> Result<(), Error> {
    match spec_asset(d, symbol) {
        None => Err(Error::AssetNotExists),
        Some(e) => if !e.info.is_burnable {
            Err(Error::AssetIsNotBurnable)
        } else if e.owner@ != issuer {
            Err(Error::InvalidOwner)
        } else if spec_balance(d, symbol, issuer) < amount {
            Err(Error::InsufficientBalance)
        } else {
            Ok(())
        },
    }
}

/// The decision `transfer_asset` makes, in the order its checks run.
pub open spec fn spec_transfer_asset_result(
    d: Dex,
    from: Seq<u8>,
    symbol: Seq<u8>,
    amount: Balance,
) -> Result<(), Error> {
    if !spec_asset_exists(d, symbol) {
        Err(Error::AssetNotExists)
    } else if spec_balance(d, symbol, from) < amount {
        Err(Error::NoEnoughBalance)
    } else {
        Ok(())
    }
}

/// Whether `new_d` and `old_d` agree on everything but the asset registry
/// and the balance ledger.
pub open spec fn only_assets_and_ledger_changed(old_d: Dex, new_d: Dex) -> bool {
    &&& new_d.permissions == old_d.permissions
    &&& new_d.nft_classes == old_d.nft_classes
    &&& new_d.nft_tokens == old_d.nft_tokens
    &&& new_d.nft_accounts == old_d.nft_accounts
    &&& new_d.pools == old_d.pools
    &&& new_d.pool_kinds == old_d.pool_kinds
    &&& new_d.farms == old_d.farms
    &&& new_d.farmers == old_d.farmers
    &&& new_d.block_number == old_d.block_number
}

impl Dex {
    /// Registers the fungible asset `symbol` to `issuer` and deposits
    /// `initial_supply` to the issuer's wallet.
    ///
    /// Validation runs in this order: symbol, name, precision, prior
    /// registration, then the root-set registration gate.
    pub fn register_asset(
        &mut self,
        issuer: &AccountId,
        symbol: &AssetSymbol,
        name: &AssetName,
        precision: u8,
        is_mintable: bool,
        is_burnable: bool,
        description: Option<StdString>,
        initial_supply: Balance,
    ) -> (r: Result<(), Error>)
        requires
            old(self).wf(),
        ensures
            final(self).wf(),
            r == spec_register_asset_result(*old(self), symbol@, name@, precision),
            r is Err ==> *final(self) == *old(self),
            r is Ok ==> {
                &&& spec_asset(*final(self), symbol@) matches Some(e) && e.symbol == *symbol
                    && e.owner == *issuer && e.info.symbol == *symbol && e.info.name == *name
                    && e.info.precision == precision && e.info.is_mintable == is_mintable
                    && e.info.is_burnable == is_burnable && e.info.description == description
                &&& forall|s: Seq<u8>|
                    s != symbol@ ==> spec_asset(*final(self), s) == spec_asset(*old(self), s)
                &&& spec_issuance(*final(self), symbol@) == initial_supply
                &&& spec_balance(*final(self), symbol@, issuer@) == initial_supply
                &&& issuance_except(*old(self), *final(self), symbol@)
                &&& balances_except(*old(self), *final(self), symbol@, issuer@)
                &&& only_assets_and_ledger_changed(*old(self), *final(self))
            },
    {
        let ghost old_d = *self;
        if !crate::primitives::is_valid_symbol(symbol) {
            return Err(Error::InvalidAssetSymbol);
        }
        if !crate::primitives::is_valid_name(name) {
            return Err(Error::InvalidAssetName);
        }
        if precision > MAX_PRECISION {
            return Err(Error::InvalidPrecision);
        }
        if find_asset(&self.assets, symbol).is_some() {
            return Err(Error::AssetAlreadyExists);
        }
        match find_permission(&self.permissions, symbol) {
            Some(p) => {
                if !self.permissions[p].allow {
                    return Err(Error::AssetNotAllowedToRegister);
                }
            },
            None => {},
        }
        let info = AssetInfo {
            symbol: *symbol,
            name: *name,
            precision,
            is_mintable,
            is_burnable,
            description,
        };
        let entry = AssetEntry { symbol: *symbol, owner: *issuer, info };
        proof {
            lemma_first_match_push(old_d.assets@, entry, symbol@);
            assert forall|s: Seq<u8>| true implies first_match(old_d.assets@.push(entry), s) == (
            if s == symbol@ {
                Some(entry)
            } else {
                first_match(old_d.assets@, s)
            }) by {
                lemma_first_match_push(old_d.assets@, entry, s);
            }
            if spec_ledger(old_d, symbol@) is Some {
                lemma_ledger_has_asset(old_d, symbol@);
                assert(false);
            }
        }
        self.assets.push(entry);
        let ghost mid_d = *self;
        proof {
            assert forall|k: int| 0 <= k < self.ledger@.len() implies spec_asset_exists(
                *self,
                (#[trigger] self.ledger@[k]).symbol@,
            ) by {
                assert(spec_asset_exists(old_d, self.ledger@[k].symbol@));
            }
            assert(self.wf());
        }
        if initial_supply > 0 {
            match self.ledger_deposit(symbol, issuer, initial_supply) {
                Ok(()) => {},
                Err(e) => {
                    proof {
                        assert(false);
                    }
                    return Err(e);
                },
            }
        }
        Ok(())
    }

    /// Records the root's registration gate for `symbol`; future
    /// registrations of the symbol must satisfy it.
    ///
    /// The dispatch layer must ensure only the chain root reaches this call.
    pub fn set_asset_permission(&mut self, symbol: &AssetSymbol, allow_to_register: bool) -> (r:
        Result<(), Error>)
        requires
            old(self).wf(),
        ensures
            final(self).wf(),
            r is Ok <==> spec_valid_id(symbol@),
            r is Err ==> r == Err::<(), Error>(Error::InvalidAssetSymbol) && *final(self) == *old(
                self,
            ),
            r is Ok ==> {
                &&& spec_permission(*final(self), symbol@) matches Some(p) && p.allow
                    == allow_to_register
                &&& forall|s: Seq<u8>|
                    s != symbol@ ==> spec_permission(*final(self), s) == spec_permission(
                        *old(self),
                        s,
                    )
                &&& *final(self) == (Dex { permissions: final(self).permissions, ..*old(self) })
            },
    {
        let ghost old_d = *self;
        if !crate::primitives::is_valid_symbol(symbol) {
            return Err(Error::InvalidAssetSymbol);
        }
        let entry = PermissionEntry { symbol: *symbol, allow: allow_to_register };
        match find_permission(&self.permissions, symbol) {
            Some(i) => {
                self.permissions.set(i, entry);
                proof {
                    lemma_first_match_update(old_d.permissions@, i as int, entry, symbol@);
                    assert forall|s: Seq<u8>| s != symbol@ implies first_match(
                        self.permissions@,
                        s,
                    ) == first_match(old_d.permissions@, s) by {
                        lemma_first_match_update(old_d.permissions@, i as int, entry, s);
                    }
                }
            },
            None => {
                self.permissions.push(entry);
                proof {
                    lemma_first_match_push(old_d.permissions@, entry, symbol@);
                    assert forall|s: Seq<u8>| s != symbol@ implies first_match(
                        self.permissions@,
                        s,
                    ) == first_match(old_d.permissions@, s) by {
                        lemma_first_match_push(old_d.permissions@, entry, s);
                    }
                }
            },
        }
        proof {
            assert forall|k: int| 0 <= k < self.ledger@.len() implies spec_asset_exists(
                *self,
                (#[trigger] self.ledger@[k]).symbol@,
            ) by {
                assert(spec_asset_exists(old_d, self.ledger@[k].symbol@));
            }
        }
        Ok(())
    }

    /// Mints `amount` of `symbol` to its owner `issuer`.
    pub fn mint_asset(&mut self, issuer: &AccountId, symbol: &AssetSymbol, amount: Balance) -> (r:
        Result<(), Error>)
        requires
            old(self).wf(),
        ensures
            final(self).wf(),
            r == spec_mint_asset_result(*old(self), issuer@, symbol@, amount),
            r is Err ==> *final(self) == *old(self),
            r is Ok ==> {
                &&& spec_balance(*final(self), symbol@, issuer@) == spec_balance(
                    *old(self),
                    symbol@,
                    issuer@,
                ) + amount
                &&& spec_issuance(*final(self), symbol@) == spec_issuance(*old(self), symbol@)
                    + amount
                &&& only_ledger_changed(*old(self), *final(self))
                &&& issuance_except(*old(self), *final(self), symbol@)
                &&& balances_except(*old(self), *final(self), symbol@, issuer@)
            },
    {
        match find_asset(&self.assets, symbol) {
            None => Err(Error::AssetNotExists),
            Some(i) => {
                if !self.assets[i].info.is_mintable {
                    return Err(Error::AssetIsNotMintable);
                }
                if !self.assets[i].owner.eq_bytes(issuer) {
                    return Err(Error::InvalidOwner);
                }
                match self.ledger_deposit(symbol, issuer, amount) {
                    Ok(()) => Ok(()),
                    Err(e) => Err(e),
                }
            },
        }
    }

    /// Burns `amount` of `symbol` from its owner `issuer`'s balance.
    pub fn burn_asset(&mut self, issuer: &AccountId, symbol: &AssetSymbol, amount: Balance) -> (r:
        Result<(), Error>)
        requires
            old(self).wf(),
        ensures
            final(self).wf(),
            r == spec_burn_asset_result(*old(self), issuer@, symbol@, amount),
            r is Err ==> *final(self) == *old(self),
            r is Ok ==> {
                &&& spec_balance(*final(self), symbol@, issuer@) == spec_balance(
                    *old(self),
                    symbol@,
                    issuer@,
                ) - amount
                &&& spec_issuance(*final(self), symbol@) == spec_issuance(*old(self), symbol@)
                    - amount
                &&& only_ledger_changed(*old(self), *final(self))
                &&& issuance_except(*old(self), *final(self), symbol@)
                &&& balances_except(*old(self), *final(self), symbol@, issuer@)
            },
    {
        match find_asset(&self.assets, symbol) {
            None => Err(Error::AssetNotExists),
            Some(i) => {
                if !self.assets[i].info.is_burnable {
                    return Err(Error::AssetIsNotBurnable);
                }
                if !self.assets[i].owner.eq_bytes(issuer) {
                    return Err(Error::InvalidOwner);
                }
                match self.ledger_withdraw(symbol, issuer, amount) {
                    Ok(()) => Ok(()),
                    Err(e) => Err(e),
                }
            },
        }
    }

    /// Transfers `amount` of `symbol` from `from` to `to`; transferring to
    /// oneself is a successful no-op.
    pub fn transfer_asset(
        &mut self,
        from: &AccountId,
        symbol: &AssetSymbol,
        to: &AccountId,
        amount: Balance,
    ) -> (r: Result<(), Error>)
        requires
            old(self).wf(),
        ensures
            final(self).wf(),
            r == spec_transfer_asset_result(*old(self), from@, symbol@, amount),
            r is Err ==> *final(self) == *old(self),
            r is Ok && from@ == to@ ==> *final(self) == *old(self),
            r is Ok && from@ != to@ ==> {
                &&& spec_balance(*final(self), symbol@, from@) == spec_balance(
                    *old(self),
                    symbol@,
                    from@,
                ) - amount
                &&& spec_balance(*final(self), symbol@, to@) == spec_balance(*old(self), symbol@, to@)
                    + amount
                &&& forall|s: Seq<u8>| spec_issuance(*final(self), s) == spec_issuance(*old(self), s)
                &&& only_ledger_changed(*old(self), *final(self))
                &&& forall|s: Seq<u8>, a: Seq<u8>|
                    s != symbol@ || (a != from@ && a != to@) ==> spec_balance(*final(self), s, a)
                        == spec_balance(*old(self), s, a)
            },
    {
        if find_asset(&self.assets, symbol).is_none() {
            return Err(Error::AssetNotExists);
        }
        let free = match self.free_balance(symbol, from) {
            Ok(b) => b,
            Err(e) => {
                proof {
                    assert(false);
                }
                return Err(e);
            },
        };
        if free < amount {
            return Err(Error::NoEnoughBalance);
        }
        if from.eq_bytes(to) {
            return Ok(());
        }
        match self.ledger_transfer(symbol, from, to, amount) {
            Ok(()) => Ok(()),
            Err(e) => {
                proof {
                    assert(false);
                }
                Err(e)
            },
        }
    }

    /// The free balance of `who` in `symbol`; the asset must exist.
    pub fn free_balance(&self, symbol: &AssetSymbol, who: &AccountId) -> (r: Result<
        Balance,
        Error,
    >)
        ensures
            r matches Ok(b) ==> spec_asset_exists(*self, symbol@) && b == spec_balance(
                *self,
                symbol@,
                who@,
            ),
            r is Err <==> !spec_asset_exists(*self, symbol@),
            r is Err ==> r == Err::<Balance, Error>(Error::AssetNotExists),
    {
        if find_asset(&self.assets, symbol).is_none() {
            return Err(Error::AssetNotExists);
        }
        match find_ledger(&self.ledger, symbol) {
            None => Ok(0),
            Some(i) => match find_account(&self.ledger[i].accounts, who) {
                None => Ok(0),
                Some(j) => Ok(self.ledger[i].accounts[j].amount),
            },
        }
    }

    /// The total balance of `who` in `symbol`; the exchange holds no
    /// reserved funds, so this equals the free balance.
    pub fn total_balance(&self, symbol: &AssetSymbol, who: &AccountId) -> (r: Result<
        Balance,
        Error,
    >)
        ensures
            r matches Ok(b) ==> spec_asset_exists(*self, symbol@) && b == spec_balance(
                *self,
                symbol@,
                who@,
            ),
            r is Err <==> !spec_asset_exists(*self, symbol@),
            r is Err ==> r == Err::<Balance, Error>(Error::AssetNotExists),
    {
        self.free_balance(symbol, who)
    }

    /// The total issuance of `symbol`; the asset must exist.
    pub fn total_issuance(&self, symbol: &AssetSymbol) -> (r: Result<Balance, Error>)
        ensures
            r matches Ok(b) ==> spec_asset_exists(*self, symbol@) && b == spec_issuance(
                *self,
                symbol@,
            ),
            r is Err <==> !spec_asset_exists(*self, symbol@),
            r is Err ==> r == Err::<Balance, Error>(Error::AssetNotExists),
    {
        if find_asset(&self.assets, symbol).is_none() {
            return Err(Error::AssetNotExists);
        }
        match find_ledger(&self.ledger, symbol) {
            None => Ok(0),
            Some(i) => Ok(self.ledger[i].issuance),
        }
    }

    /// Adjusts `who`'s balance of `symbol` by the signed `amount`:
    /// a deposit when positive, a withdrawal when negative.
    pub fn update_balance(&mut self, symbol: &AssetSymbol, who: &AccountId, amount: Amount) -> (r:
        Result<(), Error>)
        requires
            old(self).wf(),
        ensures
            final(self).wf(),
            r is Ok <==> spec_asset_exists(*old(self), symbol@) && (if amount >= 0 {
                spec_issuance(*old(self), symbol@) + amount <= u128::MAX
            } else {
                spec_balance(*old(self), symbol@, who@) + amount >= 0
            }),
            r is Err ==> *final(self) == *old(self),
            !spec_asset_exists(*old(self), symbol@) ==> r == Err::<(), Error>(
                Error::AssetNotExists,
            ),
            spec_asset_exists(*old(self), symbol@) && r is Err ==> r == (if amount >= 0 {
                Err::<(), Error>(Error::AmountOverflow)
            } else {
                Err::<(), Error>(Error::InsufficientBalance)
            }),
            r is Ok ==> {
                &&& spec_balance(*final(self), symbol@, who@) == spec_balance(
                    *old(self),
                    symbol@,
                    who@,
                ) + amount
                &&& spec_issuance(*final(self), symbol@) == spec_issuance(*old(self), symbol@)
                    + amount
                &&& only_ledger_changed(*old(self), *final(self))
                &&& issuance_except(*old(self), *final(self), symbol@)
                &&& balances_except(*old(self), *final(self), symbol@, who@)
            },
    {
        if find_asset(&self.assets, symbol).is_none() {
            return Err(Error::AssetNotExists);
        }
        if amount >= 0 {
            self.ledger_deposit(symbol, who, amount as u128)
        } else {
            let magnitude: u128 = ((-(amount + 1)) as u128) + 1;
            proof {
                assert(magnitude as int == -(amount as int));
            }
            self.ledger_withdraw(symbol, who, magnitude)
        }
    }

    /// Checks that `who` could withdraw `amount` of `symbol`; reads only.
    pub fn ensure_can_withdraw(&self, symbol: &AssetSymbol, who: &AccountId, amount: Balance)
        -> (r: Result<(), Error>)
        ensures
            r is Ok <==> spec_asset_exists(*self, symbol@) && spec_balance(*self, symbol@, who@)
                >= amount,
            !spec_asset_exists(*self, symbol@) ==> r == Err::<(), Error>(Error::AssetNotExists),
            spec_asset_exists(*self, symbol@) && spec_balance(*self, symbol@, who@) < amount ==> r
                == Err::<(), Error>(Error::InsufficientBalance),
    {
        match self.free_balance(symbol, who) {
            Err(e) => Err(e),
            Ok(b) => {
                if b < amount {
                    Err(Error::InsufficientBalance)
                } else {
                    Ok(())
                }
            },
        }
    }

    /// Whether an asset is registered under `symbol`.
    pub fn is_asset_existed(&self, symbol: &AssetSymbol) -> (r: bool)
        ensures
            r <==> spec_asset_exists(*self, symbol@),
    {
        find_asset(&self.assets, symbol).is_some()
    }

    /// Whether `account_id` owns the asset registered under `symbol`.
    pub fn is_asset_owner(&self, symbol: &AssetSymbol, account_id: &AccountId) -> (r: bool)
        ensures
            r <==> (spec_asset(*self, symbol@) matches Some(e) && e.owner@ == account_id@),
    {
        match find_asset(&self.assets, symbol) {
            None => false,
            Some(i) => self.assets[i].owner.eq_bytes(account_id),
        }
    }

    /// The owner of the asset registered under `asset_id`, if any.
    pub fn get_asset_owner(&self, asset_id: &AssetId) -> (r: Option<AccountId>)
        ensures
            match r {
                Some(a) => spec_asset(*self, asset_id@) matches Some(e) && e.owner == a,
                None => !spec_asset_exists(*self, asset_id@),
            },
    {
        match find_asset(&self.assets, asset_id) {
            None => None,
            Some(i) => Some(self.assets[i].owner),
        }
    }

    /// Fails with `AssetNotExists` unless an asset is registered under
    /// `asset_id`.
    pub fn ensure_asset_exists(&self, asset_id: &AssetId) -> (r: Result<(), Error>)
        ensures
            r is Ok <==> spec_asset_exists(*self, asset_id@),
            r is Err ==> r == Err::<(), Error>(Error::AssetNotExists),
    {
        if find_asset(&self.assets, asset_id).is_none() {
            Err(Error::AssetNotExists)
        } else {
            Ok(())
        }
    }

    /// The asset id of a symbol; the exchange identifies assets by symbol.
    pub fn get_asset_id(symbol: &AssetSymbol) -> (r: AssetId)
        ensures
            r == *symbol,
    {
        *symbol
    }

    /// The symbol of an asset id; the exchange identifies assets by symbol.
    pub fn get_asset_symbol(asset_id: &AssetId) -> (r: AssetSymbol)
        ensures
            r == *asset_id,
    {
        FixedString(asset_id.0)
    }
}


/// A byte-for-byte copy of a byte string.
fn clone_std_string(s: &StdString) -> (r: StdString)
    ensures
        r.0@ == s.0@,
{
    let mut bytes: Vec<u8> = Vec::new();
    let mut i: usize = 0;
    while i < s.0.len()
        invariant
            i <= s.0@.len(),
            bytes@ == s.0@.take(i as int),
        decreases s.0@.len() - i,
    {
        bytes.push(s.0[i]);
        proof {
            assert(bytes@ =~= s.0@.take(i as int + 1));
        }
        i += 1;
    }
    proof {
        assert(s.0@.take(s.0@.len() as int) =~= s.0@);
    }
    StdString(bytes)
}

/// A copy of an optional byte string.
fn clone_opt_std_string(s: &Option<StdString>) -> (r: Option<StdString>)
    ensures
        r is Some <==> s is Some,
        s matches Some(x) ==> r->Some_0.0@ == x.0@,
{
    match s {
        None => None,
        Some(x) => Some(clone_std_string(x)),
    }
}

impl Dex {
    /// A copy of the record of the asset registered under `symbol`; the
    /// default record when no asset is.
    pub fn get_asset_info(&self, symbol: &AssetSymbol) -> (r: AssetInfo)
        ensures
            match spec_asset(*self, symbol@) {
                Some(e) => r.symbol == e.info.symbol && r.name == e.info.name && r.precision
                    == e.info.precision && r.is_mintable == e.info.is_mintable && r.is_burnable
                    == e.info.is_burnable && (r.description is Some <==> e.info.description
                    is Some) && (e.info.description matches Some(x) ==> r.description->Some_0.0@
                    == x.0@),
                None => r.precision == crate::metadata::DEFAULT_BALANCE_PRECISION
                    && !r.is_mintable && !r.is_burnable && r.description is None,
            },
    {
        match find_asset(&self.assets, symbol) {
            None => AssetInfo::default(),
            Some(i) => {
                let e = &self.assets[i];
                AssetInfo {
                    symbol: e.info.symbol,
                    name: e.info.name,
                    precision: e.info.precision,
                    is_mintable: e.info.is_mintable,
                    is_burnable: e.info.is_burnable,
                    description: clone_opt_std_string(&e.info.description),
                }
            },
        }
    }

    /// The symbols of all registered assets, in registration order.
    pub fn list_registered_asset_symbols(&self) -> (r: Vec<AssetSymbol>)
        ensures
            r@ == self.assets@.map_values(|e: AssetEntry| e.symbol),
    {
        let mut out: Vec<AssetSymbol> = Vec::new();
        let mut i: usize = 0;
        while i < self.assets.len()
            invariant
                i <= self.assets@.len(),
                out@ == self.assets@.take(i as int).map_values(|e: AssetEntry| e.symbol),
            decreases self.assets@.len() - i,
        {
            out.push(self.assets[i].symbol);
            proof {
                assert(out@ =~= self.assets@.take(i as int + 1).map_values(
                    |e: AssetEntry| e.symbol,
                ));
            }
            i += 1;
        }
        proof {
            assert(self.assets@.take(self.assets@.len() as int) =~= self.assets@);
        }
        out
    }

    /// Copies of all registered assets' records, in registration order.
    pub fn list_registered_asset_info_data(&self) -> (r: Vec<AssetInfo>)
        ensures
            r@.len() == self.assets@.len(),
            forall|k: int|
                0 <= k < r@.len() ==> {
                    let e = #[trigger] self.assets@[k];
                    r@[k].symbol == e.info.symbol && r@[k].name == e.info.name && r@[k].precision
                        == e.info.precision && r@[k].is_mintable == e.info.is_mintable
                        && r@[k].is_burnable == e.info.is_burnable
                },
    {
        let mut out: Vec<AssetInfo> = Vec::new();
        let mut i: usize = 0;
        while i < self.assets.len()
            invariant
                i <= self.assets@.len(),
                out@.len() == i,
                forall|k: int|
                    0 <= k < i ==> {
                        let e = #[trigger] self.assets@[k];
                        out@[k].symbol == e.info.symbol && out@[k].name == e.info.name
                            && out@[k].precision == e.info.precision && out@[k].is_mintable
                            == e.info.is_mintable && out@[k].is_burnable == e.info.is_burnable
                    },
            decreases self.assets@.len() - i,
        {
            let e = &self.assets[i];
            out.push(
                AssetInfo {
                    symbol: e.info.symbol,
                    name: e.info.name,
                    precision: e.info.precision,
                    is_mintable: e.info.is_mintable,
                    is_burnable: e.info.is_burnable,
                    description: clone_opt_std_string(&e.info.description),
                },
            );
            i += 1;
        }
        out
    }
}

/// Re-establishes the whole-state invariant after a change that touched only
/// the ledger, kept each per-symbol ledger well-formed, kept ledger keys
/// unique, and introduced no symbol without a registered asset.
pub proof fn lemma_wf_after_ledger_only_change(old_d: Dex, new_d: Dex)
    requires
        old_d.wf(),
        only_ledger_changed(old_d, new_d),
        unique_keys(new_d.ledger@),
        forall|i: int|
            0 <= i < new_d.ledger@.len() ==> crate::state::wf_symbol_ledger(
                #[trigger] new_d.ledger@[i],
            ),
        forall|i: int|
            0 <= i < new_d.ledger@.len() ==> spec_asset_exists(
                old_d,
                (#[trigger] new_d.ledger@[i]).symbol@,
            ),
    ensures
        new_d.wf(),
{
    assert(new_d.assets@ == old_d.assets@);
    assert forall|i: int| 0 <= i < new_d.ledger@.len() implies spec_asset_exists(
        new_d,
        (#[trigger] new_d.ledger@[i]).symbol@,
    ) by {
        assert(spec_asset_exists(old_d, new_d.ledger@[i].symbol@));
    }
}

} // verus!
