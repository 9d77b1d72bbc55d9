//! Non-fungible tokens: classes owning token sets, per-token owners, and an
//! owner index.

use vstd::prelude::*;
use crate::errors::Error;
use crate::keyed::{first_match, has_key, lemma_first_match_is_present, lemma_first_match_none,
    lemma_first_match_push, lemma_first_match_remove, lemma_first_match_update, unique_keys,
    KeyedRec};
use crate::metadata::TokenMetadata;
use crate::primitives::{AccountId, FixedString, NftClassId, NftTokenId};
use crate::state::{find_class, find_owner_index, find_token, find_token_id, spec_class,
    spec_owner_index, spec_token, ClassEntry, Dex, NftClass, OwnerIndexEntry, TokenEntry,
    TokenInfo};

verus! {

/// Whether `new_d` and `old_d` agree on everything but the NFT store.
pub open spec fn only_nft_changed(old_d: Dex, new_d: Dex) -> bool {
    &&& new_d.assets == old_d.assets
    &&& new_d.permissions == old_d.permissions
    &&& new_d.ledger == old_d.ledger
    &&& new_d.pools == old_d.pools
    &&& new_d.pool_kinds == old_d.pool_kinds
    &&& new_d.farms == old_d.farms
    &&& new_d.farmers == old_d.farmers
    &&& new_d.block_number == old_d.block_number
}

/// Lifts the NFT-store invariant back to the whole-state invariant after a
/// change that touched nothing but the NFT store.
proof fn lemma_wf_after_nft_change(old_d: Dex, new_d: Dex)
    requires
        old_d.wf(),
        only_nft_changed(old_d, new_d),
        crate::state::wf_nft(new_d),
    ensures
        new_d.wf(),
{
    assert forall|i: int| 0 <= i < new_d.ledger@.len() implies crate::state::spec_asset_exists(
        new_d,
        (#[trigger] new_d.ledger@[i]).symbol@,
    ) by {
        assert(crate::state::spec_asset_exists(old_d, old_d.ledger@[i].symbol@));
    }
}

/// The decision `create_nft_class` makes.
pub open spec fn spec_create_class_result(d: Dex, cid: Seq<u8>) -> Result<(), Error> {
    if spec_class(d, cid) is Some {
        Err(Error::NftClassIdAlreadyExisted)
    } else {
        Ok(())
    }
}

/// The decision `destroy_nft_class` makes, in the order its checks run.
pub open spec fn spec_destroy_class_result(d: Dex, owner: Seq<u8>, cid: Seq<u8>) -> Result<
    (),
    Error,
> {
    match spec_class(d, cid) {
        None => Err(Error::NftClassIdNotExisted),
        Some(c) => if c.class.owner@ != owner {
            Err(Error::NoClassPermission)
        } else if c.class.tokens@.len() != 0 {
            Err(Error::CannotDestroyNftClass)
        } else {
            Ok(())
        },
    }
}

/// The decision `mint_token` makes, in the order its checks run.  A token id
/// is rejected when it is taken anywhere, in this class or any other.
pub open spec fn spec_mint_token_result(d: Dex, cid: Seq<u8>, tid: Seq<u8>) -> Result<(), Error> {
    match spec_class(d, cid) {
        None => Err(Error::NftClassIdNotExisted),
        Some(c) => if has_key(c.class.tokens@, tid) || spec_token(d, tid) is Some {
            Err(Error::TokenIdAlreadyExisted)
        } else {
            Ok(())
        },
    }
}

/// The decision `burn_token` makes, in the order its checks run.
pub open spec fn spec_burn_token_result(d: Dex, owner: Seq<u8>, cid: Seq<u8>, tid: Seq<u8>)
    -> Result<(), Error> {
    match spec_token(d, tid) {
        None => Err(Error::TokenIdNotExisted),
        Some(t) => if t.info.owner@ != owner {
            Err(Error::InvalidTokenOwner)
        } else {
            match spec_class(d, cid) {
                None => Err(Error::NftClassIdNotExisted),
                Some(c) => if c.class.owner@ != owner {
                    Err(Error::NoClassPermission)
                } else if !has_key(c.class.tokens@, tid) {
                    Err(Error::TokenIdNotExisted)
                } else {
                    Ok(())
                },
            }
        },
    }
}

/// The decision `transfer_token` makes, in the order its checks run.
pub open spec fn spec_transfer_token_result(
    d: Dex,
    from: Seq<u8>,
    cid: Seq<u8>,
    tid: Seq<u8>,
) -> Result<(), Error> {
    if spec_class(d, cid) is None {
        Err(Error::NftClassIdNotExisted)
    } else {
        match spec_token(d, tid) {
            None => Err(Error::TokenIdNotExisted),
            Some(t) => if t.info.owner@ != from {
                Err(Error::InvalidTokenOwner)
            } else if !spec_owner_index(d, from, cid, tid) {
                Err(Error::NoPermission)
            } else if !has_key(spec_class(d, cid)->Some_0.class.tokens@, tid) {
                Err(Error::TokenIdNotExisted)
            } else {
                Ok(())
            },
        }
    }
}

impl Dex {
    /// Creates the empty NFT class `class_id` owned by `owner`.
    pub fn create_nft_class(&mut self, owner: &AccountId, class_id: &NftClassId, data: Vec<u8>)
        -> (r: Result<(), Error>)
        requires
            old(self).wf(),
        ensures
            final(self).wf(),
            r == spec_create_class_result(*old(self), class_id@),
            r is Err ==> *final(self) == *old(self),
            r is Ok ==> {
                &&& spec_class(*final(self), class_id@) matches Some(c) && c.class.owner == *owner
                    && c.class.data@ == data@ && c.class.tokens@.len() == 0
                &&& forall|c: Seq<u8>|
                    c != class_id@ ==> spec_class(*final(self), c) == spec_class(*old(self), c)
                &&& final(self).nft_tokens == old(self).nft_tokens
                &&& final(self).nft_accounts == old(self).nft_accounts
                &&& only_nft_changed(*old(self), *final(self))
            },
    {
        let ghost old_d = *self;
        if find_class(&self.nft_classes, class_id).is_some() {
            return Err(Error::NftClassIdAlreadyExisted);
        }
        let entry = ClassEntry {
            class_id: *class_id,
            class: NftClass { owner: *owner, data, tokens: Vec::new() },
        };
        proof {
            lemma_first_match_push(old_d.nft_classes@, entry, class_id@);
            assert forall|c: Seq<u8>| true implies first_match(old_d.nft_classes@.push(entry), c)
                == (if c == class_id@ {
                Some(entry)
            } else {
                first_match(old_d.nft_classes@, c)
            }) by {
                lemma_first_match_push(old_d.nft_classes@, entry, c);
            }
        }
        self.nft_classes.push(entry);
        proof {
            let new_d = *self;
            assert forall|i: int|
                0 <= i < new_d.nft_classes@.len() implies unique_keys(
                (#[trigger] new_d.nft_classes@[i]).class.tokens@,
            ) by {
                if i < old_d.nft_classes@.len() {
                    assert(new_d.nft_classes@[i] == old_d.nft_classes@[i]);
                }
            }
            assert forall|i: int| 0 <= i < new_d.nft_tokens@.len() implies {
                let t = #[trigger] new_d.nft_tokens@[i];
                spec_class(new_d, t.class_id@) matches Some(c) && has_key(
                    c.class.tokens@,
                    t.token_id@,
                )
            } by {
                let t = new_d.nft_tokens@[i];
                assert(spec_class(old_d, t.class_id@) matches Some(c) && has_key(
                    c.class.tokens@,
                    t.token_id@,
                ));
                assert(t.class_id@ != class_id@);
            }
            assert forall|i: int, j: int|
                0 <= i < new_d.nft_classes@.len() && 0 <= j
                    < new_d.nft_classes@[i].class.tokens@.len() implies {
                let c = new_d.nft_classes@[i];
                spec_token(new_d, (#[trigger] new_d.nft_classes@[i].class.tokens@[j])@)
                    matches Some(t) && t.class_id@ == c.class_id@
            } by {
                if i < old_d.nft_classes@.len() {
                    assert(new_d.nft_classes@[i] == old_d.nft_classes@[i]);
                    assert(spec_token(old_d, old_d.nft_classes@[i].class.tokens@[j]@)
                        matches Some(t) && t.class_id@ == old_d.nft_classes@[i].class_id@);
                }
            }
            assert(crate::state::wf_nft(new_d));
            lemma_wf_after_nft_change(old_d, new_d);
        }
        Ok(())
    }

    /// Destroys the class `class_id`; only its owner may, and only while the
    /// class holds no tokens.
    pub fn destroy_nft_class(&mut self, owner: &AccountId, class_id: &NftClassId) -> (r: Result<
        (),
        Error,
    >)
        requires
            old(self).wf(),
        ensures
            final(self).wf(),
            r == spec_destroy_class_result(*old(self), owner@, class_id@),
            r is Err ==> *final(self) == *old(self),
            r is Ok ==> {
                &&& spec_class(*final(self), class_id@) is None
                &&& forall|c: Seq<u8>|
                    c != class_id@ ==> spec_class(*final(self), c) == spec_class(*old(self), c)
                &&& final(self).nft_tokens == old(self).nft_tokens
                &&& final(self).nft_accounts == old(self).nft_accounts
                &&& only_nft_changed(*old(self), *final(self))
            },
    {
        let ghost old_d = *self;
        let i = match find_class(&self.nft_classes, class_id) {
            None => {
                return Err(Error::NftClassIdNotExisted);
            },
            Some(i) => i,
        };
        if !self.nft_classes[i].class.owner.eq_bytes(owner) {
            return Err(Error::NoClassPermission);
        }
        if self.nft_classes[i].class.tokens.len() != 0 {
            return Err(Error::CannotDestroyNftClass);
        }
        proof {
            lemma_first_match_remove(old_d.nft_classes@, i as int, class_id@);
            assert forall|c: Seq<u8>| true implies first_match(
                old_d.nft_classes@.remove(i as int),
                c,
            ) == (if c == class_id@ {
                None
            } else {
                first_match(old_d.nft_classes@, c)
            }) by {
                lemma_first_match_remove(old_d.nft_classes@, i as int, c);
            }
        }
        self.nft_classes.remove(i);
        proof {
            let new_d = *self;
            assert forall|k: int|
                0 <= k < new_d.nft_classes@.len() implies (#[trigger] new_d.nft_classes@[k])
                == (if k < i as int {
                old_d.nft_classes@[k]
            } else {
                old_d.nft_classes@[k + 1]
            }) by {}
            assert forall|k: int|
                0 <= k < new_d.nft_classes@.len() implies unique_keys(
                (#[trigger] new_d.nft_classes@[k]).class.tokens@,
            ) by {}
            assert forall|k: int| 0 <= k < new_d.nft_tokens@.len() implies {
                let t = #[trigger] new_d.nft_tokens@[k];
                spec_class(new_d, t.class_id@) matches Some(c) && has_key(
                    c.class.tokens@,
                    t.token_id@,
                )
            } by {
                let t = new_d.nft_tokens@[k];
                assert(spec_class(old_d, t.class_id@) matches Some(c) && has_key(
                    c.class.tokens@,
                    t.token_id@,
                ));
                if t.class_id@ == class_id@ {
                    assert(spec_class(old_d, class_id@)->Some_0 == old_d.nft_classes@[i as int]);
                    assert(old_d.nft_classes@[i as int].class.tokens@.len() == 0);
                    lemma_first_match_is_present(
                        old_d.nft_classes@[i as int].class.tokens@,
                        t.token_id@,
                    );
                    assert(false);
                }
            }
            assert forall|k: int, j: int|
                0 <= k < new_d.nft_classes@.len() && 0 <= j
                    < new_d.nft_classes@[k].class.tokens@.len() implies {
                let c = new_d.nft_classes@[k];
                spec_token(new_d, (#[trigger] new_d.nft_classes@[k].class.tokens@[j])@)
                    matches Some(t) && t.class_id@ == c.class_id@
            } by {
                let k0: int = if k < i as int {
                    k
                } else {
                    k + 1
                };
                assert(new_d.nft_classes@[k] == old_d.nft_classes@[k0]);
                assert(spec_token(old_d, old_d.nft_classes@[k0].class.tokens@[j]@) matches Some(t)
                    && t.class_id@ == old_d.nft_classes@[k0].class_id@);
            }
            assert(crate::state::wf_nft(new_d));
            lemma_wf_after_nft_change(old_d, new_d);
        }
        Ok(())
    }

    /// Mints token `token_id` into class `class_id`, owned by `owner`.
    /// Token ids are globally unique: an id taken in any class is rejected.
    pub fn mint_token(
        &mut self,
        owner: &AccountId,
        class_id: &NftClassId,
        token_id: &NftTokenId,
        metadata: TokenMetadata,
        data: Vec<u8>,
    ) -> (r: Result<(), Error>)
        requires
            old(self).wf(),
        ensures
            final(self).wf(),
            r == spec_mint_token_result(*old(self), class_id@, token_id@),
            r is Err ==> *final(self) == *old(self),
            r is Ok ==> {
                &&& spec_token(*final(self), token_id@) matches Some(t) && t.info.owner == *owner
                    && t.class_id == *class_id && t.info.metadata == metadata && t.info.data@
                    == data@
                &&& forall|x: Seq<u8>|
                    x != token_id@ ==> spec_token(*final(self), x) == spec_token(*old(self), x)
                &&& spec_class(*final(self), class_id@) matches Some(c) && has_key(
                    c.class.tokens@,
                    token_id@,
                ) && c.class.owner == spec_class(*old(self), class_id@)->Some_0.class.owner
                &&& forall|c: Seq<u8>|
                    c != class_id@ ==> spec_class(*final(self), c) == spec_class(*old(self), c)
                &&& spec_owner_index(*final(self), owner@, class_id@, token_id@)
                &&& forall|k: (Seq<u8>, Seq<u8>, Seq<u8>)|
                    k != (owner@, class_id@, token_id@) ==> has_key(final(self).nft_accounts@, k)
                        == has_key(old(self).nft_accounts@, k)
                &&& only_nft_changed(*old(self), *final(self))
            },
    {
        let ghost old_d = *self;
        let i = match find_class(&self.nft_classes, class_id) {
            None => {
                return Err(Error::NftClassIdNotExisted);
            },
            Some(i) => i,
        };
        if find_token_id(&self.nft_classes[i].class.tokens, token_id).is_some() {
            return Err(Error::TokenIdAlreadyExisted);
        }
        if find_token(&self.nft_tokens, token_id).is_some() {
            return Err(Error::TokenIdAlreadyExisted);
        }
        let ghost old_class = old_d.nft_classes@[i as int];
        self.nft_classes[i].class.tokens.push(*token_id);
        let token_entry = TokenEntry {
            token_id: *token_id,
            class_id: *class_id,
            info: TokenInfo { owner: *owner, metadata, data },
        };
        self.nft_tokens.push(token_entry);
        let index_entry = OwnerIndexEntry {
            account: *owner,
            class_id: *class_id,
            token_id: *token_id,
        };
        proof {
            lemma_first_match_none(old_d.nft_accounts@, index_entry.key());
            if first_match(old_d.nft_accounts@, index_entry.key()) is Some {
                lemma_first_match_is_present(old_d.nft_accounts@, index_entry.key());
                let k = choose|k: int|
                    0 <= k < old_d.nft_accounts@.len() && old_d.nft_accounts@[k] == first_match(
                        old_d.nft_accounts@,
                        index_entry.key(),
                    )->Some_0 && (#[trigger] old_d.nft_accounts@[k].key()) == index_entry.key();
                assert(spec_token(old_d, old_d.nft_accounts@[k].token_id@) is Some);
                assert(false);
            }
        }
        self.nft_accounts.push(index_entry);
        proof {
            let new_d = *self;
            let new_class = new_d.nft_classes@[i as int];
            assert(new_class.class.tokens@ == old_class.class.tokens@.push(*token_id));
            assert(new_d.nft_classes@ == old_d.nft_classes@.update(i as int, new_class));
            lemma_first_match_update(old_d.nft_classes@, i as int, new_class, class_id@);
            assert forall|c: Seq<u8>| true implies first_match(new_d.nft_classes@, c) == (if c
                == class_id@ {
                Some(new_class)
            } else {
                first_match(old_d.nft_classes@, c)
            }) by {
                lemma_first_match_update(old_d.nft_classes@, i as int, new_class, c);
            }
            lemma_first_match_push(old_class.class.tokens@, *token_id, token_id@);
            assert forall|x: Seq<u8>| true implies first_match(new_class.class.tokens@, x) == (
            if x == token_id@ {
                Some(*token_id)
            } else {
                first_match(old_class.class.tokens@, x)
            }) by {
                lemma_first_match_push(old_class.class.tokens@, *token_id, x);
            }
            lemma_first_match_push(old_d.nft_tokens@, token_entry, token_id@);
            assert forall|x: Seq<u8>| true implies first_match(new_d.nft_tokens@, x) == (if x
                == token_id@ {
                Some(token_entry)
            } else {
                first_match(old_d.nft_tokens@, x)
            }) by {
                lemma_first_match_push(old_d.nft_tokens@, token_entry, x);
            }
            lemma_first_match_push(old_d.nft_accounts@, index_entry, index_entry.key());
            assert forall|k: (Seq<u8>, Seq<u8>, Seq<u8>)| true implies first_match(
                new_d.nft_accounts@,
                k,
            ) == (if k == index_entry.key() {
                Some(index_entry)
            } else {
                first_match(old_d.nft_accounts@, k)
            }) by {
                lemma_first_match_push(old_d.nft_accounts@, index_entry, k);
            }
            // classes' token lists stay duplicate-free
            assert forall|k: int|
                0 <= k < new_d.nft_classes@.len() implies unique_keys(
                (#[trigger] new_d.nft_classes@[k]).class.tokens@,
            ) by {
                if k != i as int {
                    assert(new_d.nft_classes@[k] == old_d.nft_classes@[k]);
                }
            }
            // every token record is listed by its class
            assert forall|k: int| 0 <= k < new_d.nft_tokens@.len() implies {
                let t = #[trigger] new_d.nft_tokens@[k];
                spec_class(new_d, t.class_id@) matches Some(c) && has_key(
                    c.class.tokens@,
                    t.token_id@,
                )
            } by {
                let t = new_d.nft_tokens@[k];
                if k < old_d.nft_tokens@.len() {
                    assert(t == old_d.nft_tokens@[k]);
                    assert(spec_class(old_d, t.class_id@) matches Some(c) && has_key(
                        c.class.tokens@,
                        t.token_id@,
                    ));
                    if t.token_id@ == token_id@ {
                        assert(spec_token(old_d, old_d.nft_tokens@[k].token_id@) is Some) by {
                            crate::keyed::lemma_first_match_found(old_d.nft_tokens@, k);
                        }
                        assert(false);
                    }
                }
            }
            // every listed token id has a record naming that class
            assert forall|k: int, j: int|
                0 <= k < new_d.nft_classes@.len() && 0 <= j
                    < new_d.nft_classes@[k].class.tokens@.len() implies {
                let c = new_d.nft_classes@[k];
                spec_token(new_d, (#[trigger] new_d.nft_classes@[k].class.tokens@[j])@)
                    matches Some(t) && t.class_id@ == c.class_id@
            } by {
                let c = new_d.nft_classes@[k];
                if k == i as int && j == old_class.class.tokens@.len() {
                    assert(c.class.tokens@[j] == *token_id);
                } else {
                    let m = if k == i as int {
                        old_class.class.tokens@[j]
                    } else {
                        old_d.nft_classes@[k].class.tokens@[j]
                    };
                    assert(c.class.tokens@[j] == m);
                    assert(spec_token(old_d, m@) matches Some(t) && t.class_id@
                        == old_d.nft_classes@[k].class_id@);
                    if m@ == token_id@ {
                        assert(false);
                    }
                }
            }
            // index entries name real tokens, and every token is indexed
            assert forall|k: int| 0 <= k < new_d.nft_accounts@.len() implies {
                let a = #[trigger] new_d.nft_accounts@[k];
                spec_token(new_d, a.token_id@) matches Some(t) && t.info.owner@ == a.account@
                    && t.class_id@ == a.class_id@
            } by {
                let a = new_d.nft_accounts@[k];
                if k < old_d.nft_accounts@.len() {
                    assert(a == old_d.nft_accounts@[k]);
                    assert(spec_token(old_d, a.token_id@) matches Some(t) && t.info.owner@
                        == a.account@ && t.class_id@ == a.class_id@);
                    if a.token_id@ == token_id@ {
                        assert(false);
                    }
                }
            }
            assert forall|k: int| 0 <= k < new_d.nft_tokens@.len() implies {
                let t = #[trigger] new_d.nft_tokens@[k];
                spec_owner_index(new_d, t.info.owner@, t.class_id@, t.token_id@)
            } by {
                let t = new_d.nft_tokens@[k];
                if k < old_d.nft_tokens@.len() {
                    assert(t == old_d.nft_tokens@[k]);
                    assert(spec_owner_index(old_d, t.info.owner@, t.class_id@, t.token_id@));
                    if (t.info.owner@, t.class_id@, t.token_id@) == index_entry.key() {
                        assert(spec_token(old_d, t.token_id@) is Some) by {
                            crate::keyed::lemma_first_match_found(old_d.nft_tokens@, k);
                        }
                        assert(false);
                    }
                }
            }
            assert(crate::state::wf_nft(new_d));
            lemma_wf_after_nft_change(old_d, new_d);
        }
        Ok(())
    }

    /// Burns token `token_id` of class `class_id`; the caller must own both
    /// the token and its class.
    pub fn burn_token(&mut self, owner: &AccountId, class_id: &NftClassId, token_id: &NftTokenId)
        -> (r: Result<(), Error>)
        requires
            old(self).wf(),
        ensures
            final(self).wf(),
            r == spec_burn_token_result(*old(self), owner@, class_id@, token_id@),
            r is Err ==> *final(self) == *old(self),
            r is Ok ==> {
                &&& spec_token(*final(self), token_id@) is None
                &&& forall|x: Seq<u8>|
                    x != token_id@ ==> spec_token(*final(self), x) == spec_token(*old(self), x)
                &&& spec_class(*final(self), class_id@) matches Some(c) && !has_key(
                    c.class.tokens@,
                    token_id@,
                )
                &&& forall|c: Seq<u8>|
                    c != class_id@ ==> spec_class(*final(self), c) == spec_class(*old(self), c)
                &&& !spec_owner_index(*final(self), owner@, class_id@, token_id@)
                &&& forall|k: (Seq<u8>, Seq<u8>, Seq<u8>)|
                    k != (owner@, class_id@, token_id@) ==> has_key(final(self).nft_accounts@, k)
                        == has_key(old(self).nft_accounts@, k)
                &&& only_nft_changed(*old(self), *final(self))
            },
    {
        let ghost old_d = *self;
        let kt = match find_token(&self.nft_tokens, token_id) {
            None => {
                return Err(Error::TokenIdNotExisted);
            },
            Some(kt) => kt,
        };
        if !self.nft_tokens[kt].info.owner.eq_bytes(owner) {
            return Err(Error::InvalidTokenOwner);
        }
        let i = match find_class(&self.nft_classes, class_id) {
            None => {
                return Err(Error::NftClassIdNotExisted);
            },
            Some(i) => i,
        };
        if !self.nft_classes[i].class.owner.eq_bytes(owner) {
            return Err(Error::NoClassPermission);
        }
        let jt = match find_token_id(&self.nft_classes[i].class.tokens, token_id) {
            None => {
                return Err(Error::TokenIdNotExisted);
            },
            Some(jt) => jt,
        };
        let ghost t = old_d.nft_tokens@[kt as int];
        let ghost old_class = old_d.nft_classes@[i as int];
        proof {
            // the listed token's record names this class
            assert(spec_token(old_d, old_class.class.tokens@[jt as int]@) matches Some(tt)
                && tt.class_id@ == old_class.class_id@);
            assert(t.class_id@ == class_id@);
        }
        let ka = match find_owner_index(&self.nft_accounts, owner, class_id, token_id) {
            None => {
                proof {
                    assert(spec_owner_index(old_d, t.info.owner@, t.class_id@, t.token_id@));
                    assert(false);
                }
                return Err(Error::NoPermission);
            },
            Some(ka) => ka,
        };
        self.nft_classes[i].class.tokens.remove(jt);
        self.nft_tokens.remove(kt);
        self.nft_accounts.remove(ka);
        proof {
            let new_d = *self;
            let new_class = new_d.nft_classes@[i as int];
            assert(new_class.class.tokens@ == old_class.class.tokens@.remove(jt as int));
            assert(new_d.nft_classes@ == old_d.nft_classes@.update(i as int, new_class));
            lemma_first_match_update(old_d.nft_classes@, i as int, new_class, class_id@);
            assert forall|c: Seq<u8>| true implies first_match(new_d.nft_classes@, c) == (if c
                == class_id@ {
                Some(new_class)
            } else {
                first_match(old_d.nft_classes@, c)
            }) by {
                lemma_first_match_update(old_d.nft_classes@, i as int, new_class, c);
            }
            lemma_first_match_remove(old_class.class.tokens@, jt as int, token_id@);
            assert forall|x: Seq<u8>| true implies first_match(new_class.class.tokens@, x) == (
            if x == token_id@ {
                None
            } else {
                first_match(old_class.class.tokens@, x)
            }) by {
                lemma_first_match_remove(old_class.class.tokens@, jt as int, x);
            }
            lemma_first_match_remove(old_d.nft_tokens@, kt as int, token_id@);
            assert forall|x: Seq<u8>| true implies first_match(new_d.nft_tokens@, x) == (if x
                == token_id@ {
                None
            } else {
                first_match(old_d.nft_tokens@, x)
            }) by {
                lemma_first_match_remove(old_d.nft_tokens@, kt as int, x);
            }
            let rkey = (owner@, class_id@, token_id@);
            lemma_first_match_remove(old_d.nft_accounts@, ka as int, rkey);
            assert forall|k: (Seq<u8>, Seq<u8>, Seq<u8>)| true implies first_match(
                new_d.nft_accounts@,
                k,
            ) == (if k == rkey {
                None
            } else {
                first_match(old_d.nft_accounts@, k)
            }) by {
                lemma_first_match_remove(old_d.nft_accounts@, ka as int, k);
            }
            // remaining token records no longer carry the burned id
            assert forall|k: int|
                0 <= k < new_d.nft_tokens@.len() implies (#[trigger] new_d.nft_tokens@[k])
                == old_d.nft_tokens@[if k < kt as int {
                k
            } else {
                k + 1
            }] && new_d.nft_tokens@[k].token_id@ != token_id@ by {
                let k0: int = if k < kt as int {
                    k
                } else {
                    k + 1
                };
                assert(new_d.nft_tokens@[k] == old_d.nft_tokens@[k0]);
                if old_d.nft_tokens@[k0].token_id@ == token_id@ {
                    assert(old_d.nft_tokens@[k0].key() == old_d.nft_tokens@[kt as int].key());
                    assert(false);
                }
            }
            assert forall|k: int|
                0 <= k < new_d.nft_classes@.len() implies unique_keys(
                (#[trigger] new_d.nft_classes@[k]).class.tokens@,
            ) by {
                if k != i as int {
                    assert(new_d.nft_classes@[k] == old_d.nft_classes@[k]);
                }
            }
            // every remaining token record is listed by its class
            assert forall|k: int| 0 <= k < new_d.nft_tokens@.len() implies {
                let tt = #[trigger] new_d.nft_tokens@[k];
                spec_class(new_d, tt.class_id@) matches Some(c) && has_key(
                    c.class.tokens@,
                    tt.token_id@,
                )
            } by {
                let tt = new_d.nft_tokens@[k];
                assert(spec_class(old_d, tt.class_id@) matches Some(c) && has_key(
                    c.class.tokens@,
                    tt.token_id@,
                ));
            }
            // every listed token id still has its record
            assert forall|k: int, j: int|
                0 <= k < new_d.nft_classes@.len() && 0 <= j
                    < new_d.nft_classes@[k].class.tokens@.len() implies {
                let c = new_d.nft_classes@[k];
                spec_token(new_d, (#[trigger] new_d.nft_classes@[k].class.tokens@[j])@)
                    matches Some(tt) && tt.class_id@ == c.class_id@
            } by {
                let c = new_d.nft_classes@[k];
                let m = c.class.tokens@[j];
                if k == i as int {
                    let j0: int = if j < jt as int {
                        j
                    } else {
                        j + 1
                    };
                    assert(m == old_class.class.tokens@[j0]);
                    assert(spec_token(old_d, m@) matches Some(tt) && tt.class_id@
                        == old_class.class_id@);
                    if m@ == token_id@ {
                        assert(old_class.class.tokens@[j0].key()
                            == old_class.class.tokens@[jt as int].key());
                        assert(false);
                    }
                } else {
                    assert(c == old_d.nft_classes@[k]);
                    assert(spec_token(old_d, m@) matches Some(tt) && tt.class_id@ == c.class_id@);
                    if m@ == token_id@ {
                        assert(t.class_id@ == c.class_id@);
                        assert(old_d.nft_classes@[k].key() == old_d.nft_classes@[i as int].key());
                        assert(false);
                    }
                }
            }
            // remaining index entries name remaining tokens
            assert forall|k: int| 0 <= k < new_d.nft_accounts@.len() implies {
                let a = #[trigger] new_d.nft_accounts@[k];
                spec_token(new_d, a.token_id@) matches Some(tt) && tt.info.owner@ == a.account@
                    && tt.class_id@ == a.class_id@
            } by {
                let a = new_d.nft_accounts@[k];
                let k0: int = if k < ka as int {
                    k
                } else {
                    k + 1
                };
                assert(a == old_d.nft_accounts@[k0]);
                assert(spec_token(old_d, a.token_id@) matches Some(tt) && tt.info.owner@
                    == a.account@ && tt.class_id@ == a.class_id@);
                if a.token_id@ == token_id@ {
                    assert(a.account@ == t.info.owner@ && a.class_id@ == t.class_id@);
                    assert(old_d.nft_accounts@[k0].key() == old_d.nft_accounts@[ka as int].key());
                    assert(false);
                }
            }
            // remaining tokens keep their index entries
            assert forall|k: int| 0 <= k < new_d.nft_tokens@.len() implies {
                let tt = #[trigger] new_d.nft_tokens@[k];
                spec_owner_index(new_d, tt.info.owner@, tt.class_id@, tt.token_id@)
            } by {
                let tt = new_d.nft_tokens@[k];
                assert(spec_owner_index(old_d, tt.info.owner@, tt.class_id@, tt.token_id@));
                assert(tt.token_id@ != token_id@);
            }
            assert(crate::state::wf_nft(new_d));
            lemma_wf_after_nft_change(old_d, new_d);
        }
        Ok(())
    }

    /// Transfers token `token_id` of class `class_id` from `from` to `to`;
    /// a transfer to oneself is a successful no-op.
    pub fn transfer_token(
        &mut self,
        from: &AccountId,
        to: &AccountId,
        class_id: &NftClassId,
        token_id: &NftTokenId,
    ) -> (r: Result<(), Error>)
        requires
            old(self).wf(),
        ensures
            final(self).wf(),
            r == spec_transfer_token_result(*old(self), from@, class_id@, token_id@),
            r is Err ==> *final(self) == *old(self),
            r is Ok && from@ == to@ ==> *final(self) == *old(self),
            r is Ok && from@ != to@ ==> {
                &&& spec_token(*final(self), token_id@) matches Some(t) && t.info.owner == *to
                    && t.class_id@ == class_id@ && t.info.metadata == spec_token(
                    *old(self),
                    token_id@,
                )->Some_0.info.metadata && t.info.data == spec_token(
                    *old(self),
                    token_id@,
                )->Some_0.info.data
                &&& forall|x: Seq<u8>|
                    x != token_id@ ==> spec_token(*final(self), x) == spec_token(*old(self), x)
                &&& final(self).nft_classes == old(self).nft_classes
                &&& spec_owner_index(*final(self), to@, class_id@, token_id@)
                &&& !spec_owner_index(*final(self), from@, class_id@, token_id@)
                &&& forall|k: (Seq<u8>, Seq<u8>, Seq<u8>)|
                    k != (from@, class_id@, token_id@) && k != (to@, class_id@, token_id@)
                        ==> has_key(final(self).nft_accounts@, k) == has_key(
                        old(self).nft_accounts@,
                        k,
                    )
                &&& only_nft_changed(*old(self), *final(self))
            },
    {
        let ghost old_d = *self;
        let i = match find_class(&self.nft_classes, class_id) {
            None => {
                return Err(Error::NftClassIdNotExisted);
            },
            Some(i) => i,
        };
        let kt = match find_token(&self.nft_tokens, token_id) {
            None => {
                return Err(Error::TokenIdNotExisted);
            },
            Some(kt) => kt,
        };
        if !self.nft_tokens[kt].info.owner.eq_bytes(from) {
            return Err(Error::InvalidTokenOwner);
        }
        let ka = match find_owner_index(&self.nft_accounts, from, class_id, token_id) {
            None => {
                return Err(Error::NoPermission);
            },
            Some(ka) => ka,
        };
        if find_token_id(&self.nft_classes[i].class.tokens, token_id).is_none() {
            return Err(Error::TokenIdNotExisted);
        }
        if from.eq_bytes(to) {
            return Ok(());
        }
        let ghost t = old_d.nft_tokens@[kt as int];
        proof {
            // the listed token's record names this class
            assert(spec_token(old_d, t.token_id@) matches Some(tt) && tt.class_id@
                == old_d.nft_classes@[i as int].class_id@);
            assert(t.class_id@ == class_id@);
        }
        self.nft_tokens[kt].info.owner = FixedString(to.0);
        self.nft_accounts.remove(ka);
        let new_index = OwnerIndexEntry { account: *to, class_id: *class_id, token_id: *token_id };
        let ghost mid_accounts = old_d.nft_accounts@.remove(ka as int);
        proof {
            let rkey = (from@, class_id@, token_id@);
            lemma_first_match_remove(old_d.nft_accounts@, ka as int, rkey);
            assert forall|k: (Seq<u8>, Seq<u8>, Seq<u8>)| true implies first_match(
                mid_accounts,
                k,
            ) == (if k == rkey {
                None
            } else {
                first_match(old_d.nft_accounts@, k)
            }) by {
                lemma_first_match_remove(old_d.nft_accounts@, ka as int, k);
            }
            assert forall|k: int|
                0 <= k < mid_accounts.len() implies (#[trigger] mid_accounts[k])
                == old_d.nft_accounts@[if k < ka as int {
                k
            } else {
                k + 1
            }] && mid_accounts[k].token_id@ != token_id@ by {
                let k0: int = if k < ka as int {
                    k
                } else {
                    k + 1
                };
                assert(mid_accounts[k] == old_d.nft_accounts@[k0]);
                let a = old_d.nft_accounts@[k0];
                assert(spec_token(old_d, a.token_id@) matches Some(tt) && tt.info.owner@
                    == a.account@ && tt.class_id@ == a.class_id@);
                if a.token_id@ == token_id@ {
                    assert(a.account@ == from@ && a.class_id@ == class_id@);
                    assert(old_d.nft_accounts@[k0].key() == old_d.nft_accounts@[ka as int].key());
                    assert(false);
                }
            }
            lemma_first_match_none(mid_accounts, new_index.key());
            assert(first_match(mid_accounts, new_index.key()) is None) by {
                if first_match(mid_accounts, new_index.key()) is Some {
                    lemma_first_match_is_present(mid_accounts, new_index.key());
                    assert(false);
                }
            }
        }
        self.nft_accounts.push(new_index);
        proof {
            let new_d = *self;
            let new_token = new_d.nft_tokens@[kt as int];
            assert(new_token.token_id == t.token_id && new_token.class_id == t.class_id
                && new_token.info.metadata == t.info.metadata && new_token.info.data
                == t.info.data && new_token.info.owner@ == to@);
            assert(new_d.nft_tokens@ == old_d.nft_tokens@.update(kt as int, new_token));
            lemma_first_match_update(old_d.nft_tokens@, kt as int, new_token, token_id@);
            assert forall|x: Seq<u8>| true implies first_match(new_d.nft_tokens@, x) == (if x
                == token_id@ {
                Some(new_token)
            } else {
                first_match(old_d.nft_tokens@, x)
            }) by {
                lemma_first_match_update(old_d.nft_tokens@, kt as int, new_token, x);
            }
            lemma_first_match_push(mid_accounts, new_index, new_index.key());
            assert forall|k: (Seq<u8>, Seq<u8>, Seq<u8>)| true implies first_match(
                new_d.nft_accounts@,
                k,
            ) == (if k == new_index.key() {
                Some(new_index)
            } else if k == (from@, class_id@, token_id@) {
                None
            } else {
                first_match(old_d.nft_accounts@, k)
            }) by {
                lemma_first_match_push(mid_accounts, new_index, k);
            }
            // class token lists are untouched
            assert(new_d.nft_classes == old_d.nft_classes);
            assert forall|k: int| 0 <= k < new_d.nft_tokens@.len() implies {
                let tt = #[trigger] new_d.nft_tokens@[k];
                spec_class(new_d, tt.class_id@) matches Some(c) && has_key(
                    c.class.tokens@,
                    tt.token_id@,
                )
            } by {
                let tt = new_d.nft_tokens@[k];
                let t0 = old_d.nft_tokens@[k];
                assert(tt == if k == kt as int {
                    new_token
                } else {
                    t0
                });
                assert(spec_class(old_d, t0.class_id@) matches Some(c) && has_key(
                    c.class.tokens@,
                    t0.token_id@,
                ));
            }
            assert forall|k: int, j: int|
                0 <= k < new_d.nft_classes@.len() && 0 <= j
                    < new_d.nft_classes@[k].class.tokens@.len() implies {
                let c = new_d.nft_classes@[k];
                spec_token(new_d, (#[trigger] new_d.nft_classes@[k].class.tokens@[j])@)
                    matches Some(tt) && tt.class_id@ == c.class_id@
            } by {
                let c = new_d.nft_classes@[k];
                let m = c.class.tokens@[j];
                assert(c == old_d.nft_classes@[k]);
                assert(spec_token(old_d, m@) matches Some(tt) && tt.class_id@ == c.class_id@);
                if m@ == token_id@ {
                    assert(t.class_id@ == c.class_id@);
                }
            }
            // index entries name real tokens
            assert forall|k: int| 0 <= k < new_d.nft_accounts@.len() implies {
                let a = #[trigger] new_d.nft_accounts@[k];
                spec_token(new_d, a.token_id@) matches Some(tt) && tt.info.owner@ == a.account@
                    && tt.class_id@ == a.class_id@
            } by {
                let a = new_d.nft_accounts@[k];
                if k < mid_accounts.len() {
                    assert(a == mid_accounts[k]);
                    assert(a.token_id@ != token_id@);
                    assert(spec_token(old_d, a.token_id@) matches Some(tt) && tt.info.owner@
                        == a.account@ && tt.class_id@ == a.class_id@);
                } else {
                    assert(a == new_index);
                }
            }
            // every token keeps an index entry
            assert forall|k: int| 0 <= k < new_d.nft_tokens@.len() implies {
                let tt = #[trigger] new_d.nft_tokens@[k];
                spec_owner_index(new_d, tt.info.owner@, tt.class_id@, tt.token_id@)
            } by {
                let tt = new_d.nft_tokens@[k];
                if k == kt as int {
                    assert(tt == new_token);
                } else {
                    let t0 = old_d.nft_tokens@[k];
                    assert(tt == t0);
                    assert(spec_owner_index(old_d, t0.info.owner@, t0.class_id@, t0.token_id@));
                    if t0.token_id@ == token_id@ {
                        assert(old_d.nft_tokens@[k].key() == old_d.nft_tokens@[kt as int].key());
                        assert(false);
                    }
                    assert((t0.info.owner@, t0.class_id@, t0.token_id@) != (
                        from@,
                        class_id@,
                        token_id@,
                    ));
                    assert((t0.info.owner@, t0.class_id@, t0.token_id@) != new_index.key());
                }
            }
            assert(unique_keys(new_d.nft_accounts@)) by {
                lemma_first_match_none(mid_accounts, new_index.key());
                assert forall|k: int| 0 <= k < mid_accounts.len() implies (
                #[trigger] mid_accounts[k].key()) != new_index.key() by {
                    assert(mid_accounts[k].token_id@ != token_id@);
                }
                lemma_first_match_push(mid_accounts, new_index, new_index.key());
            }
            assert(crate::state::wf_nft(new_d));
            lemma_wf_after_nft_change(old_d, new_d);
        }
        Ok(())
    }

    /// Whether the owner index lists `account` as owner of token `token_id`
    /// of class `class_id`.
    pub fn is_owner(&self, account: &AccountId, class_id: &NftClassId, token_id: &NftTokenId)
        -> (r: bool)
        ensures
            r <==> spec_owner_index(*self, account@, class_id@, token_id@),
    {
        find_owner_index(&self.nft_accounts, account, class_id, token_id).is_some()
    }

    /// Whether class `class_id` exists and a token is recorded under
    /// `token_id`.
    pub fn is_token_existed(&self, class_id: &NftClassId, token_id: &NftTokenId) -> (r: bool)
        ensures
            r <==> (spec_class(*self, class_id@) is Some && spec_token(*self, token_id@) is Some),
    {
        find_class(&self.nft_classes, class_id).is_some() && find_token(
            &self.nft_tokens,
            token_id,
        ).is_some()
    }
}

/// Ownership is exclusive: in a well-formed state, every existing token has
/// exactly one owner-index entry, and it names the token's recorded owner
/// and class.
pub proof fn lemma_nft_owner_exclusive(d: Dex, tid: Seq<u8>)
    requires
        d.wf(),
        spec_token(d, tid) is Some,
    ensures
        exists|i: int|
            0 <= i < d.nft_accounts@.len() && (#[trigger] d.nft_accounts@[i]).token_id@ == tid,
        forall|i: int|
            0 <= i < d.nft_accounts@.len() && (#[trigger] d.nft_accounts@[i]).token_id@ == tid
                ==> d.nft_accounts@[i].account@ == spec_token(d, tid)->Some_0.info.owner@
                && d.nft_accounts@[i].class_id@ == spec_token(d, tid)->Some_0.class_id@,
        forall|i: int, j: int|
            0 <= i < d.nft_accounts@.len() && 0 <= j < d.nft_accounts@.len() && (
            #[trigger] d.nft_accounts@[i]).token_id@ == tid && (
            #[trigger] d.nft_accounts@[j]).token_id@ == tid ==> i == j,
{
    let t = spec_token(d, tid)->Some_0;
    lemma_first_match_is_present(d.nft_tokens@, tid);
    let kt = choose|kt: int|
        0 <= kt < d.nft_tokens@.len() && d.nft_tokens@[kt] == t && (
        #[trigger] d.nft_tokens@[kt].key()) == tid;
    assert(spec_owner_index(d, t.info.owner@, t.class_id@, t.token_id@));
    lemma_first_match_is_present(d.nft_accounts@, (t.info.owner@, t.class_id@, t.token_id@));
    let w = choose|w: int|
        0 <= w < d.nft_accounts@.len() && d.nft_accounts@[w] == first_match(
            d.nft_accounts@,
            (t.info.owner@, t.class_id@, t.token_id@),
        )->Some_0 && (#[trigger] d.nft_accounts@[w].key()) == (
            t.info.owner@,
            t.class_id@,
            t.token_id@,
        );
    assert(d.nft_accounts@[w].token_id@ == tid);
    assert forall|i: int|
        0 <= i < d.nft_accounts@.len() && (#[trigger] d.nft_accounts@[i]).token_id@
            == tid implies d.nft_accounts@[i].account@ == t.info.owner@ && d.nft_accounts@[i].class_id@
        == t.class_id@ by {
        let a = d.nft_accounts@[i];
        assert(spec_token(d, a.token_id@) matches Some(tt) && tt.info.owner@ == a.account@
            && tt.class_id@ == a.class_id@);
    }
    assert forall|i: int, j: int|
        0 <= i < d.nft_accounts@.len() && 0 <= j < d.nft_accounts@.len() && (
        #[trigger] d.nft_accounts@[i]).token_id@ == tid && (
        #[trigger] d.nft_accounts@[j]).token_id@ == tid implies i == j by {
        assert(d.nft_accounts@[i].key() == d.nft_accounts@[j].key());
        if i != j {
            assert(false);
        }
    }
}

} // verus!
