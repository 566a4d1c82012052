//! The rollup's in-memory store of accounts, locked accounts and
//! processed transactions, and how it answers the messages it receives.

use vstd::prelude::*;
use crate::bytes::{Hash32, Pubkey};
use crate::frontend::FrontendMessage;
use crate::keymap::KeyMap;
use crate::sdk::{hash_message, message_encodable, message_hash};
use crate::types::{Account, Message, Transaction, copy_keys};

verus! {

/// A request to the store. The store acts on the first field that is set,
/// in the order `lock_accounts`, `frontend_get_tx`,
/// `add_processed_transaction`, `unlock_accounts`, `add_new_data`; a
/// settlement proof alone changes nothing.
pub struct RollupDBMessage {
    pub lock_accounts: Option<Vec<Pubkey>>,
    pub add_processed_transaction: Option<Transaction>,
    pub frontend_get_tx: Option<Hash32>,
    pub add_settle_proof: Option<String>,
    pub unlock_accounts: Option<Vec<Pubkey>>,
    pub add_new_data: Option<Vec<(Pubkey, Account)>>,
}

/// The store: open accounts, the accounts locked by transactions in
/// flight, and processed transactions by the hash of their message.
pub struct RollupDB {
    accounts_db: KeyMap<Account>,
    locked_accounts: KeyMap<Account>,
    transactions: KeyMap<Transaction>,
}

/// The store's state.
pub struct StoreView {
    pub accounts: Map<Pubkey, Account>,
    pub locked: Map<Pubkey, Account>,
    pub transactions: Map<Hash32, Transaction>,
}

/// The accounts of `accounts` whose keys are listed in `keys`.
pub open spec fn accounts_with_keys(accounts: Map<Pubkey, Account>, keys: Seq<Pubkey>) -> Map<Pubkey, Account> {
    Map::new(|k: Pubkey| keys.contains(k) && accounts.dom().contains(k), |k: Pubkey| accounts[k])
}

/// Moving the accounts listed in `keys` from `from` to `to`; keys that
/// `from` lacks are skipped.
pub open spec fn move_spec(
    from: Map<Pubkey, Account>,
    to: Map<Pubkey, Account>,
    keys: Seq<Pubkey>,
) -> (Map<Pubkey, Account>, Map<Pubkey, Account>) {
    (from.remove_keys(keys.to_set()), to.union_prefer_right(accounts_with_keys(from, keys)))
}

/// The map `accounts` with the listed entries added from the last to the
/// first, so that an earlier entry for a key wins.
pub open spec fn with_entries(accounts: Map<Pubkey, Account>, entries: Seq<(Pubkey, Account)>) -> Map<Pubkey, Account>
    decreases entries.len(),
{
    if entries.len() == 0 {
        accounts
    } else {
        with_entries(accounts.insert(entries.last().0, entries.last().1), entries.drop_last())
    }
}

/// What the store holds after acting on `m`.
pub open spec fn store_after(s: StoreView, m: RollupDBMessage) -> StoreView {
    if m.lock_accounts is Some {
        let (a, l) = move_spec(s.accounts, s.locked, m.lock_accounts->0@);
        StoreView { accounts: a, locked: l, transactions: s.transactions }
    } else if m.frontend_get_tx is Some {
        s
    } else if m.add_processed_transaction is Some {
        let tx = m.add_processed_transaction->0;
        let (l, a) = move_spec(s.locked, s.accounts, tx@.message.account_keys);
        StoreView { accounts: a, locked: l, transactions: s.transactions.insert(message_hash(tx@.message), tx) }
    } else if m.unlock_accounts is Some {
        let (l, a) = move_spec(s.locked, s.accounts, m.unlock_accounts->0@);
        StoreView { accounts: a, locked: l, transactions: s.transactions }
    } else if m.add_new_data is Some {
        StoreView { accounts: with_entries(s.accounts, m.add_new_data->0@), locked: s.locked, transactions: s.transactions }
    } else {
        s
    }
}

/// The store can act on `m`: a requested transaction is stored, and a
/// processed transaction's message fits Solana's encoding.
pub open spec fn serviceable(s: StoreView, m: RollupDBMessage) -> bool {
    if m.lock_accounts is Some {
        true
    } else if m.frontend_get_tx is Some {
        s.transactions.dom().contains(m.frontend_get_tx->0)
    } else if m.add_processed_transaction is Some {
        message_encodable(m.add_processed_transaction->0@.message)
    } else {
        true
    }
}

/// Moves the accounts listed in `keys` from `from` to `to`, skipping keys
/// `from` lacks.
fn move_accounts(from: &mut KeyMap<Account>, to: &mut KeyMap<Account>, keys: &Vec<Pubkey>)
    requires
        old(from).wf(),
        old(to).wf(),
    ensures
        final(from).wf(),
        final(to).wf(),
        (final(from)@, final(to)@) == move_spec(old(from)@, old(to)@, keys@),
{
    let ghost a0 = from@;
    let ghost l0 = to@;
    let mut i: usize = 0;
    proof {
        assert(a0.remove_keys(keys@.subrange(0, 0).to_set()) =~= a0);
        assert(l0.union_prefer_right(accounts_with_keys(a0, keys@.subrange(0, 0))) =~= l0);
    }
    while i < keys.len()
        invariant
            0 <= i <= keys@.len(),
            from.wf(),
            to.wf(),
            from@ == a0.remove_keys(keys@.subrange(0, i as int).to_set()),
            to@ == l0.union_prefer_right(accounts_with_keys(a0, keys@.subrange(0, i as int))),
        decreases keys@.len() - i,
    {
        let k = keys[i];
        let ghost pre = keys@.subrange(0, i as int);
        let ghost post = keys@.subrange(0, i + 1);
        proof {
            assert(post =~= pre.push(k));
            assert forall|q: Pubkey| post.contains(q) <==> (pre.contains(q) || q == k) by {
                if post.contains(q) {
                    let j = choose|j: int| 0 <= j < post.len() && post[j] == q;
                    if j < pre.len() {
                        assert(pre[j] == q);
                    }
                }
                if pre.contains(q) {
                    let j = choose|j: int| 0 <= j < pre.len() && pre[j] == q;
                    assert(post[j] == q);
                }
                if q == k {
                    assert(post[i as int] == q);
                }
            }
            assert(post.to_set() =~= pre.to_set().insert(k));
        }
        let removed = from.remove(&k);
        match removed {
            Some(account) => {
                to.insert(k, account);
                proof {
                    assert(!pre.contains(k));
                    assert(from@ =~= a0.remove_keys(post.to_set()));
                    assert(to@ =~= l0.union_prefer_right(accounts_with_keys(a0, post)));
                }
            },
            None => {
                proof {
                    assert(pre.contains(k) || !a0.dom().contains(k));
                    assert(from@ =~= a0.remove_keys(post.to_set()));
                    assert(accounts_with_keys(a0, post) =~= accounts_with_keys(a0, pre));
                }
            },
        }
        i = i + 1;
    }
    proof {
        assert(keys@.subrange(0, keys@.len() as int) =~= keys@);
    }
}

/// Whether `message` fits Solana's compact length prefixes.
pub fn is_encodable(message: &Message) -> (r: bool)
    ensures
        r == message_encodable(message@),
{
    if message.account_keys.len() > 65535 || message.instructions.len() > 65535 {
        return false;
    }
    let mut i: usize = 0;
    while i < message.instructions.len()
        invariant
            0 <= i <= message.instructions@.len(),
            message@.account_keys.len() <= u16::MAX,
            message@.instructions.len() <= u16::MAX,
            forall|j: int|
                0 <= j < i ==> (#[trigger] message@.instructions[j]).accounts.len() <= u16::MAX
                    && message@.instructions[j].data.len() <= u16::MAX,
        decreases message.instructions@.len() - i,
    {
        let ix = &message.instructions[i];
        assert(message@.instructions[i as int] == ix@);
        if ix.accounts.len() > 65535 || ix.data.len() > 65535 {
            return false;
        }
        i = i + 1;
    }
    true
}

impl View for RollupDB {
    type V = StoreView;

    closed spec fn view(&self) -> StoreView {
        StoreView {
            accounts: self.accounts_db@,
            locked: self.locked_accounts@,
            transactions: self.transactions@,
        }
    }
}

impl RollupDB {
    pub closed spec fn wf(&self) -> bool {
        &&& self.accounts_db.wf()
        &&& self.locked_accounts.wf()
        &&& self.transactions.wf()
    }

    /// An empty store.
    pub fn new() -> (r: Self)
        ensures
            r.wf(),
            r@.accounts == Map::<Pubkey, Account>::empty(),
            r@.locked == Map::<Pubkey, Account>::empty(),
            r@.transactions == Map::<Hash32, Transaction>::empty(),
    {
        RollupDB { accounts_db: KeyMap::new(), locked_accounts: KeyMap::new(), transactions: KeyMap::new() }
    }

    /// Whether `handle_message` can act on `message` in this state.
    pub fn can_handle(&self, message: &RollupDBMessage) -> (r: bool)
        requires
            self.wf(),
        ensures
            r == serviceable(self@, *message),
    {
        if message.lock_accounts.is_some() {
            true
        } else if let Some(h) = &message.frontend_get_tx {
            self.transactions.contains_key(h)
        } else if let Some(tx) = &message.add_processed_transaction {
            is_encodable(&tx.message)
        } else {
            true
        }
    }

    /// Acts on one message: locking moves the listed open accounts to the
    /// locked ones; a request for a transaction is answered with it; a
    /// processed transaction is stored under the hash of its message and
    /// its accounts are unlocked; unlocking moves locked accounts back;
    /// new account data is added to the open accounts.
    pub fn handle_message(&mut self, message: RollupDBMessage) -> (r: Option<FrontendMessage>)
        requires
            old(self).wf(),
            serviceable(old(self)@, message),
        ensures
            final(self).wf(),
            final(self)@ == store_after(old(self)@, message),
            message.lock_accounts is None && message.frontend_get_tx is Some ==> {
                &&& r is Some
                &&& r->0.get_tx is None
                &&& r->0.transaction is Some
                &&& r->0.transaction->0@ == old(self)@.transactions[message.frontend_get_tx->0]@
            },
            !(message.lock_accounts is None && message.frontend_get_tx is Some) ==> r is None,
    {
        if let Some(keys) = message.lock_accounts {
            move_accounts(&mut self.accounts_db, &mut self.locked_accounts, &keys);
            None
        } else if let Some(h) = message.frontend_get_tx {
            let tx = self.transactions.get(&h).unwrap();
            Some(FrontendMessage { get_tx: None, transaction: Some(tx.duplicate()) })
        } else if let Some(tx) = message.add_processed_transaction {
            let id = hash_message(&tx.message);
            let keys = copy_keys(&tx.message.account_keys);
            move_accounts(&mut self.locked_accounts, &mut self.accounts_db, &keys);
            self.transactions.insert(id, tx);
            None
        } else if let Some(keys) = message.unlock_accounts {
            move_accounts(&mut self.locked_accounts, &mut self.accounts_db, &keys);
            None
        } else if let Some(entries) = message.add_new_data {
            self.add_accounts(entries);
            None
        } else {
            None
        }
    }

    fn add_accounts(&mut self, entries: Vec<(Pubkey, Account)>)
        requires
            old(self).wf(),
        ensures
            final(self).wf(),
            final(self)@ == (StoreView {
                accounts: with_entries(old(self)@.accounts, entries@),
                locked: old(self)@.locked,
                transactions: old(self)@.transactions,
            }),
    {
        let ghost target = with_entries(self@.accounts, entries@);
        let mut rest = entries;
        while rest.len() > 0
            invariant
                self.wf(),
                self@.locked == old(self)@.locked,
                self@.transactions == old(self)@.transactions,
                with_entries(self@.accounts, rest@) == target,
            decreases rest@.len(),
        {
            let ghost before = rest@;
            let (k, a) = rest.pop().unwrap();
            proof {
                assert(before.drop_last() =~= rest@);
            }
            self.accounts_db.insert(k, a);
        }
    }
}

/// Locking loses no account: every account is open or locked afterwards
/// exactly when it was before, the listed open accounts are locked with
/// their state, and the others stay open unchanged.
pub proof fn lemma_lock_keeps_accounts(
    accounts: Map<Pubkey, Account>,
    locked: Map<Pubkey, Account>,
    keys: Seq<Pubkey>,
)
    ensures
        ({
            let (a1, l1) = move_spec(accounts, locked, keys);
            &&& a1.dom() + l1.dom() == accounts.dom() + locked.dom()
            &&& forall|k: Pubkey| keys.contains(k) && accounts.dom().contains(k) ==> !a1.dom().contains(k) && l1.dom().contains(k) && l1[k] == accounts[k]
            &&& forall|k: Pubkey| !keys.contains(k) && accounts.dom().contains(k) ==> a1.dom().contains(k) && a1[k] == accounts[k]
        }),
{
    let (a1, l1) = move_spec(accounts, locked, keys);
    assert(a1.dom() + l1.dom() =~= accounts.dom() + locked.dom());
}

/// Unlocking undoes locking: locking accounts that none of which is
/// locked yet and then unlocking the same keys gives back both maps.
pub proof fn lemma_unlock_undoes_lock(
    accounts: Map<Pubkey, Account>,
    locked: Map<Pubkey, Account>,
    keys: Seq<Pubkey>,
)
    requires
        forall|k: Pubkey| keys.contains(k) ==> !locked.dom().contains(k),
    ensures
        ({
            let (a1, l1) = move_spec(accounts, locked, keys);
            let (l2, a2) = move_spec(l1, a1, keys);
            a2 == accounts && l2 == locked
        }),
{
    let (a1, l1) = move_spec(accounts, locked, keys);
    let (l2, a2) = move_spec(l1, a1, keys);
    assert(a2 =~= accounts);
    assert(l2 =~= locked);
}

/// A processed transaction the store has taken in is what a later request
/// for its message hash is answered with.
pub proof fn lemma_stored_transaction_is_served(s: StoreView, tx: Transaction)
    ensures
        ({
            let message = RollupDBMessage {
                lock_accounts: None,
                add_processed_transaction: Some(tx),
                frontend_get_tx: None,
                add_settle_proof: None,
                unlock_accounts: None,
                add_new_data: None,
            };
            let after = store_after(s, message);
            &&& after.transactions.dom().contains(message_hash(tx@.message))
            &&& after.transactions[message_hash(tx@.message)]@ == tx@
        }),
{
}

/// A lock request loses no account: afterwards every key is open or
/// locked exactly when it was before, each listed open account is locked
/// with its state and no longer open, every other open account stays open
/// unchanged, accounts already locked stay locked, and the transactions
/// are untouched.
pub proof fn lemma_store_lock_keeps_accounts(s: StoreView, m: RollupDBMessage)
    requires
        m.lock_accounts is Some,
    ensures
        ({
            let after = store_after(s, m);
            let keys = m.lock_accounts->0@;
            &&& after.accounts.dom() + after.locked.dom() == s.accounts.dom() + s.locked.dom()
            &&& forall|k: Pubkey| keys.contains(k) && s.accounts.dom().contains(k) ==> {
                &&& !after.accounts.dom().contains(k)
                &&& after.locked.dom().contains(k)
                &&& after.locked[k] == s.accounts[k]
            }
            &&& forall|k: Pubkey| !keys.contains(k) && s.accounts.dom().contains(k) ==> after.accounts.dom().contains(k) && after.accounts[k] == s.accounts[k]
            &&& forall|k: Pubkey| !(keys.contains(k) && s.accounts.dom().contains(k)) && s.locked.dom().contains(k) ==> after.locked.dom().contains(k) && after.locked[k] == s.locked[k]
            &&& after.transactions == s.transactions
        }),
{
    let after = store_after(s, m);
    let keys = m.lock_accounts->0@;
    assert(after.accounts.dom() + after.locked.dom() =~= s.accounts.dom() + s.locked.dom());
}

/// An unlock request loses no account: afterwards every key is open or
/// locked exactly when it was before, and each listed locked account is
/// open again with its state.
pub proof fn lemma_store_unlock_keeps_accounts(s: StoreView, m: RollupDBMessage)
    requires
        m.lock_accounts is None,
        m.frontend_get_tx is None,
        m.add_processed_transaction is None,
        m.unlock_accounts is Some,
    ensures
        ({
            let after = store_after(s, m);
            let keys = m.unlock_accounts->0@;
            &&& after.accounts.dom() + after.locked.dom() == s.accounts.dom() + s.locked.dom()
            &&& forall|k: Pubkey| keys.contains(k) && s.locked.dom().contains(k) ==> {
                &&& !after.locked.dom().contains(k)
                &&& after.accounts.dom().contains(k)
                &&& after.accounts[k] == s.locked[k]
            }
            &&& after.transactions == s.transactions
        }),
{
    let after = store_after(s, m);
    assert(after.accounts.dom() + after.locked.dom() =~= s.accounts.dom() + s.locked.dom());
}

/// Locking accounts none of which is locked yet and then unlocking the
/// same keys gives the store back as it was.
pub proof fn lemma_store_unlock_undoes_lock(s: StoreView, lock: RollupDBMessage, unlock: RollupDBMessage)
    requires
        lock.lock_accounts is Some,
        unlock.lock_accounts is None,
        unlock.frontend_get_tx is None,
        unlock.add_processed_transaction is None,
        unlock.unlock_accounts == lock.lock_accounts,
        forall|k: Pubkey| lock.lock_accounts->0@.contains(k) ==> !s.locked.dom().contains(k),
    ensures
        store_after(store_after(s, lock), unlock) == s,
{
    let keys = lock.lock_accounts->0@;
    let mid = store_after(s, lock);
    let end = store_after(mid, unlock);
    assert(end.accounts =~= s.accounts);
    assert(end.locked =~= s.locked);
}

/// A request for a transaction changes nothing in the store.
pub proof fn lemma_store_get_changes_nothing(s: StoreView, m: RollupDBMessage)
    requires
        m.lock_accounts is None,
        m.frontend_get_tx is Some,
    ensures
        store_after(s, m) == s,
{
}

/// Taking in a processed transaction stores it under its message's hash,
/// keeps every other stored transaction, and unlocks its accounts: each of
/// its locked accounts is open again with its state, and no account is
/// lost or gained.
pub proof fn lemma_store_processed_transaction(s: StoreView, m: RollupDBMessage)
    requires
        m.lock_accounts is None,
        m.frontend_get_tx is None,
        m.add_processed_transaction is Some,
    ensures
        ({
            let tx = m.add_processed_transaction->0;
            let h = message_hash(tx@.message);
            let after = store_after(s, m);
            &&& after.transactions.dom() == s.transactions.dom().insert(h)
            &&& after.transactions[h] == tx
            &&& forall|g: Hash32| g != h && s.transactions.dom().contains(g) ==> after.transactions[g] == s.transactions[g]
            &&& after.accounts.dom() + after.locked.dom() == s.accounts.dom() + s.locked.dom()
            &&& forall|k: Pubkey| tx@.message.account_keys.contains(k) && s.locked.dom().contains(k) ==> {
                &&& !after.locked.dom().contains(k)
                &&& after.accounts.dom().contains(k)
                &&& after.accounts[k] == s.locked[k]
            }
        }),
{
    let after = store_after(s, m);
    let tx = m.add_processed_transaction->0;
    assert(after.transactions.dom() =~= s.transactions.dom().insert(message_hash(tx@.message)));
    assert(after.accounts.dom() + after.locked.dom() =~= s.accounts.dom() + s.locked.dom());
}

/// Some entry of `e` names key `k`.
pub open spec fn names_key(e: Seq<(Pubkey, Account)>, k: Pubkey) -> bool {
    exists|i: int| 0 <= i < e.len() && (#[trigger] e[i]).0 == k
}

/// Entry `i` is the first of `e` that names its key.
pub open spec fn first_for_key(e: Seq<(Pubkey, Account)>, i: int) -> bool {
    &&& 0 <= i < e.len()
    &&& forall|j: int| 0 <= j < i ==> (#[trigger] e[j]).0 != e[i].0
}

/// What adding entries gives for one key: the first entry for the key,
/// or what was there when no entry names it.
proof fn lemma_with_entries_key(acc: Map<Pubkey, Account>, e: Seq<(Pubkey, Account)>, k: Pubkey)
    ensures
        forall|i: int| #[trigger] first_for_key(e, i) && e[i].0 == k ==> {
            &&& with_entries(acc, e).dom().contains(k)
            &&& with_entries(acc, e)[k] == e[i].1
        },
        !names_key(e, k) ==> {
            &&& with_entries(acc, e).dom().contains(k) == acc.dom().contains(k)
            &&& acc.dom().contains(k) ==> with_entries(acc, e)[k] == acc[k]
        },
    decreases e.len(),
{
    if e.len() > 0 {
        let d = e.drop_last();
        let acc2 = acc.insert(e.last().0, e.last().1);
        lemma_with_entries_key(acc2, d, k);
        assert forall|i: int| #[trigger] first_for_key(e, i) && e[i].0 == k implies {
            &&& with_entries(acc, e).dom().contains(k)
            &&& with_entries(acc, e)[k] == e[i].1
        } by {
            if i < e.len() - 1 {
                assert(d[i] == e[i]);
                assert forall|j: int| 0 <= j < i implies (#[trigger] d[j]).0 != d[i].0 by {
                    assert(d[j] == e[j]);
                }
                assert(first_for_key(d, i));
            } else {
                if names_key(d, k) {
                    let j = choose|j: int| 0 <= j < d.len() && (#[trigger] d[j]).0 == k;
                    assert(d[j] == e[j]);
                }
            }
        }
        if !names_key(e, k) {
            assert(e[e.len() - 1].0 != k);
            if names_key(d, k) {
                let j = choose|j: int| 0 <= j < d.len() && (#[trigger] d[j]).0 == k;
                assert(d[j] == e[j]);
            }
        }
    }
}

/// New account data opens each listed account with the first state given
/// for its key, leaves the accounts not listed as they were, and touches
/// neither the locked accounts nor the transactions.
pub proof fn lemma_store_adds_new_data(s: StoreView, m: RollupDBMessage)
    requires
        m.lock_accounts is None,
        m.frontend_get_tx is None,
        m.add_processed_transaction is None,
        m.unlock_accounts is None,
        m.add_new_data is Some,
    ensures
        ({
            let e = m.add_new_data->0@;
            let after = store_after(s, m);
            &&& forall|i: int| #[trigger] first_for_key(e, i) ==> {
                &&& after.accounts.dom().contains(e[i].0)
                &&& after.accounts[e[i].0] == e[i].1
            }
            &&& forall|k: Pubkey| !names_key(e, k) ==> {
                &&& (#[trigger] after.accounts.dom().contains(k)) == s.accounts.dom().contains(k)
                &&& s.accounts.dom().contains(k) ==> after.accounts[k] == s.accounts[k]
            }
            &&& after.locked == s.locked
            &&& after.transactions == s.transactions
        }),
{
    let e = m.add_new_data->0@;
    let after = store_after(s, m);
    assert forall|i: int| #[trigger] first_for_key(e, i) implies {
        &&& after.accounts.dom().contains(e[i].0)
        &&& after.accounts[e[i].0] == e[i].1
    } by {
        lemma_with_entries_key(s.accounts, e, e[i].0);
    }
    assert forall|k: Pubkey| !names_key(e, k) implies {
        &&& (#[trigger] after.accounts.dom().contains(k)) == s.accounts.dom().contains(k)
        &&& s.accounts.dom().contains(k) ==> after.accounts[k] == s.accounts[k]
    } by {
        lemma_with_entries_key(s.accounts, e, k);
    }
}

} // verus!
