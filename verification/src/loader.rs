//! The account loader: a local cache of accounts that the transaction
//! processor reads accounts from.

use vstd::prelude::*;
use crate::bytes::{Pubkey, key_eq};
use crate::keymap::KeyMap;
use crate::types::Account;

verus! {

/// Accounts loaded into the rollup, by key.
pub struct RollupAccountLoader {
    cache: KeyMap<Account>,
}

/// The first position of `owner` in `owners`, if any.
pub open spec fn first_position(owners: Seq<Pubkey>, owner: Pubkey) -> Option<usize> {
    if exists|i: int| 0 <= i < owners.len() && owners[i] == owner {
        Some(
            (choose|i: int|
                0 <= i < owners.len() && owners[i] == owner && forall|j: int| 0 <= j < i ==> owners[j] != owner) as usize,
        )
    } else {
        None
    }
}

/// The cache after asking for `pubkey`: a cached account stays; otherwise
/// the fetched account, if any, is added.
pub open spec fn cache_after_load(cache: Map<Pubkey, Account>, pubkey: Pubkey, fetched: Option<Account>) -> Map<Pubkey, Account> {
    if cache.dom().contains(pubkey) {
        cache
    } else {
        match fetched {
            Some(a) => cache.insert(pubkey, a),
            None => cache,
        }
    }
}

impl View for RollupAccountLoader {
    type V = Map<Pubkey, Account>;

    closed spec fn view(&self) -> Map<Pubkey, Account> {
        self.cache@
    }
}

impl RollupAccountLoader {
    pub closed spec fn wf(&self) -> bool {
        self.cache.wf()
    }

    /// A loader with an empty cache.
    pub fn new() -> (r: Self)
        ensures
            r.wf(),
            r@ == Map::<Pubkey, Account>::empty(),
    {
        RollupAccountLoader { cache: KeyMap::new() }
    }

    /// Stores `modified_or_new_account` under `pubkey`, replacing any
    /// account cached there.
    pub fn add_account(&mut self, pubkey: Pubkey, modified_or_new_account: Account)
        requires
            old(self).wf(),
        ensures
            final(self).wf(),
            final(self)@ == old(self)@.insert(pubkey, modified_or_new_account),
    {
        self.cache.insert(pubkey, modified_or_new_account);
    }

    /// Whether an account is cached under `pubkey`; when it is not, the
    /// caller reads it from the base chain before asking for it.
    pub fn is_cached(&self, pubkey: &Pubkey) -> (r: bool)
        requires
            self.wf(),
        ensures
            r == self@.dom().contains(*pubkey),
    {
        self.cache.contains_key(pubkey)
    }

    /// The account under `pubkey`: the cached one if there is one;
    /// otherwise `fetched`, what the base chain holds at `pubkey` (`None`
    /// when it holds nothing or the read failed), which is then cached so
    /// that it is read only once.
    pub fn get_account_shared_data(&mut self, pubkey: &Pubkey, fetched: Option<Account>) -> (r: Option<Account>)
        requires
            old(self).wf(),
        ensures
            final(self).wf(),
            final(self)@ == cache_after_load(old(self)@, *pubkey, fetched),
            match r {
                Some(a) => final(self)@.dom().contains(*pubkey) && a@ == final(self)@[*pubkey]@,
                None => !final(self)@.dom().contains(*pubkey),
            },
    {
        match self.cache.get(pubkey) {
            Some(a) => Some(a.duplicate()),
            None => match fetched {
                Some(account) => {
                    let copy = account.duplicate();
                    self.cache.insert(*pubkey, account);
                    Some(copy)
                },
                None => None,
            },
        }
    }

    /// The position in `owners` of the owner of the account under
    /// `account`, loaded as `get_account_shared_data` does; `None` when
    /// there is no such account or its owner is not listed.
    pub fn account_matches_owners(&mut self, account: &Pubkey, owners: &[Pubkey], fetched: Option<Account>) -> (r: Option<usize>)
        requires
            old(self).wf(),
        ensures
            final(self).wf(),
            final(self)@ == cache_after_load(old(self)@, *account, fetched),
            r == (if final(self)@.dom().contains(*account) {
                first_position(owners@, final(self)@[*account].owner)
            } else {
                None
            }),
    {
        match self.get_account_shared_data(account, fetched) {
            Some(a) => {
                let mut i: usize = 0;
                while i < owners.len()
                    invariant
                        0 <= i <= owners@.len(),
                        self.wf(),
                        self@ == cache_after_load(old(self)@, *account, fetched),
                        self@.dom().contains(*account),
                        a@ == self@[*account]@,
                        forall|j: int| 0 <= j < i ==> owners@[j] != a.owner,
                    decreases owners@.len() - i,
                {
                    if key_eq(&owners[i], &a.owner) {
                        proof {
                            let o = a.owner;
                            assert(0 <= i < owners@.len() && owners@[i as int] == o && forall|j: int| 0 <= j < i ==> owners@[j] != o);
                            assert(exists|k: int| 0 <= k < owners@.len() && owners@[k] == o);
                            assert(exists|k: int|
                                0 <= k < owners@.len() && owners@[k] == o && forall|j: int| 0 <= j < k ==> owners@[j] != o);
                            let w = choose|k: int|
                                0 <= k < owners@.len() && owners@[k] == o && forall|j: int| 0 <= j < k ==> owners@[j] != o;
                            if w < i {
                            } else if w > i {
                                assert(owners@[i as int] != o);
                            }
                            assert(first_position(owners@, o) == Some(i));
                        }
                        return Some(i);
                    }
                    i = i + 1;
                }
                None
            },
            None => None,
        }
    }
}

/// Reading the cache after `add_account` gives back the account just
/// stored under its key, and what was cached under any other key.
pub proof fn lemma_cache_read_after_write(cache: Map<Pubkey, Account>, pubkey: Pubkey, account: Account, other: Pubkey)
    ensures
        cache.insert(pubkey, account).dom().contains(pubkey),
        cache.insert(pubkey, account)[pubkey] == account,
        other != pubkey ==> cache.insert(pubkey, account).dom().contains(other) == cache.dom().contains(other),
        other != pubkey && cache.dom().contains(other) ==> cache.insert(pubkey, account)[other] == cache[other],
{
}

/// An account is read from the base chain at most once: after it has
/// been loaded, asking again keeps the cache as it is, whatever a new read
/// would give.
pub proof fn lemma_loaded_once(cache: Map<Pubkey, Account>, pubkey: Pubkey, fetched: Option<Account>, again: Option<Account>)
    ensures
        cache_after_load(cache, pubkey, fetched).dom().contains(pubkey) ==> cache_after_load(
            cache_after_load(cache, pubkey, fetched),
            pubkey,
            again,
        ) == cache_after_load(cache, pubkey, fetched),
{
}

} // verus!
