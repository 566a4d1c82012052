//! The sequencer's decisions for each incoming transaction: lock its
//! accounts, store it once its signatures verify and the runtime has run
//! it (or release its accounts when either fails), and settle after every
//! tenth transaction.

use vstd::prelude::*;
use crate::rollupdb::{RollupDBMessage, is_encodable};
use crate::sdk::{message_encodable, signatures_valid, signatures_verify};
use crate::types::{Transaction, TransactionView, copy_keys};

verus! {

/// Transactions per settlement batch.
pub const SETTLE_THRESHOLD: u32 = 10;

/// What the sequencer does once the runtime has run a transaction: the
/// request to send to the store, and whether the batch is complete and
/// state should be settled.
pub struct SequencerStep {
    pub store_message: RollupDBMessage,
    pub settle: bool,
}

/// The sequencer's state: transactions seen since the last settlement.
pub struct Sequencer {
    tx_counter: u32,
    seen: Ghost<nat>,
    settled: Ghost<nat>,
}

/// The counter after one more transaction.
pub open spec fn next_counter(c: nat) -> nat {
    if c + 1 >= SETTLE_THRESHOLD {
        0
    } else {
        c + 1
    }
}

/// The counter after `n` transactions from a fresh sequencer.
pub open spec fn counter_after(n: nat) -> nat
    decreases n,
{
    if n == 0 {
        0
    } else {
        next_counter(counter_after((n - 1) as nat))
    }
}

/// Whether the `n`-th transaction (counting from one) completes a batch.
pub open spec fn settles_at(n: nat) -> bool {
    n > 0 && counter_after((n - 1) as nat) + 1 >= SETTLE_THRESHOLD
}

/// How many settlements the first `n` transactions trigger.
pub open spec fn settlements_after(n: nat) -> nat
    decreases n,
{
    if n == 0 {
        0
    } else {
        settlements_after((n - 1) as nat) + if settles_at(n) { 1nat } else { 0nat }
    }
}

/// The store request that locks the accounts of `tx`.
pub open spec fn is_lock_request(m: RollupDBMessage, tx: Transaction) -> bool {
    &&& m.lock_accounts is Some
    &&& m.lock_accounts->0@ == tx@.message.account_keys
    &&& m.add_processed_transaction is None
    &&& m.frontend_get_tx is None
    &&& m.add_settle_proof is None
    &&& m.unlock_accounts is None
    &&& m.add_new_data is None
}

/// Whether a transaction is stored as processed: its message can be
/// encoded, its signatures verify, and the runtime ran it without error.
pub open spec fn transaction_accepted(tx: TransactionView, runtime_ok: bool) -> bool {
    &&& runtime_ok
    &&& message_encodable(tx.message)
    &&& signatures_valid(tx)
}

impl Sequencer {
    /// Transactions seen since the last settlement.
    pub closed spec fn counter(&self) -> nat {
        self.tx_counter as nat
    }

    /// Transactions seen since the sequencer was made.
    pub closed spec fn seen(&self) -> nat {
        self.seen@
    }

    /// Settlements decided since the sequencer was made.
    pub closed spec fn settlements(&self) -> nat {
        self.settled@
    }

    pub closed spec fn wf(&self) -> bool {
        &&& self.tx_counter < SETTLE_THRESHOLD
        &&& self.tx_counter == counter_after(self.seen@)
        &&& self.settled@ == settlements_after(self.seen@)
    }

    /// A sequencer that has seen no transaction.
    pub fn new() -> (r: Self)
        ensures
            r.wf(),
            r.counter() == 0,
            r.seen() == 0,
            r.settlements() == 0,
    {
        Sequencer { tx_counter: 0, seen: Ghost(0), settled: Ghost(0) }
    }

    /// The counters a well-formed sequencer keeps: since the last
    /// settlement it has seen the remainder of its transactions by ten,
    /// and it has settled once for every ten.
    pub proof fn lemma_counts(&self)
        requires
            self.wf(),
        ensures
            self.counter() == self.seen() % (SETTLE_THRESHOLD as nat),
            self.settlements() == self.seen() / (SETTLE_THRESHOLD as nat),
            self.counter() == self.seen() % 10,
            self.settlements() == self.seen() / 10,
    {
        lemma_settles_every_tenth(self.seen@);
    }

    /// The request that locks the accounts of `transaction` in the store,
    /// sent before the runtime runs it.
    pub fn lock_request(transaction: &Transaction) -> (r: RollupDBMessage)
        ensures
            is_lock_request(r, *transaction),
    {
        RollupDBMessage {
            lock_accounts: Some(copy_keys(&transaction.message.account_keys)),
            frontend_get_tx: None,
            add_settle_proof: None,
            add_processed_transaction: None,
            unlock_accounts: None,
            add_new_data: None,
        }
    }

    /// Decides what follows the runtime's run of `transaction`;
    /// `runtime_ok` tells whether the runtime sanitized it and ran its
    /// message without error. An accepted transaction (see
    /// `transaction_accepted`, which also checks its signatures) goes to
    /// the store as processed, which also unlocks its accounts; otherwise
    /// only its accounts are unlocked. Every transaction counts towards
    /// the batch, and every tenth one completes it.
    pub fn on_transaction(&mut self, transaction: Transaction, runtime_ok: bool) -> (r: SequencerStep)
        requires
            old(self).wf(),
        ensures
            final(self).wf(),
            final(self).counter() == next_counter(old(self).counter()),
            final(self).seen() == old(self).seen() + 1,
            r.settle == (old(self).counter() + 1 >= SETTLE_THRESHOLD),
            r.settle == settles_at(final(self).seen()),
            r.settle <==> final(self).seen() % (SETTLE_THRESHOLD as nat) == 0,
            final(self).settlements() == old(self).settlements() + if r.settle { 1nat } else { 0nat },
            r.store_message.lock_accounts is None,
            r.store_message.frontend_get_tx is None,
            r.store_message.add_settle_proof is None,
            r.store_message.add_new_data is None,
            transaction_accepted(transaction@, runtime_ok) ==> r.store_message.add_processed_transaction is Some
                && r.store_message.add_processed_transaction->0@ == transaction@
                && r.store_message.unlock_accounts is None,
            !transaction_accepted(transaction@, runtime_ok) ==> r.store_message.add_processed_transaction is None
                && r.store_message.unlock_accounts is Some
                && r.store_message.unlock_accounts->0@ == transaction@.message.account_keys,
    {
        let accepted = runtime_ok && is_encodable(&transaction.message) && signatures_verify(&transaction);
        proof {
            lemma_settles_every_tenth((self.seen@ + 1) as nat);
            self.seen@ = self.seen@ + 1;
        }
        self.tx_counter = self.tx_counter + 1;
        let store_message = if accepted {
            RollupDBMessage {
                lock_accounts: None,
                add_processed_transaction: Some(transaction),
                frontend_get_tx: None,
                add_settle_proof: None,
                unlock_accounts: None,
                add_new_data: None,
            }
        } else {
            RollupDBMessage {
                lock_accounts: None,
                add_processed_transaction: None,
                frontend_get_tx: None,
                add_settle_proof: None,
                unlock_accounts: Some(copy_keys(&transaction.message.account_keys)),
                add_new_data: None,
            }
        };
        let mut settle = false;
        if self.tx_counter >= SETTLE_THRESHOLD {
            settle = true;
            self.tx_counter = 0;
        }
        proof {
            if settle {
                self.settled@ = self.settled@ + 1;
            }
        }
        SequencerStep { store_message, settle }
    }
}

/// Settlement comes every tenth transaction: after `n` transactions the
/// counter is `n % 10`, the `n`-th transaction completes a batch exactly
/// when `n` is a multiple of ten, and `n` transactions trigger `n / 10`
/// settlements.
pub proof fn lemma_settles_every_tenth(n: nat)
    ensures
        counter_after(n) == n % (SETTLE_THRESHOLD as nat),
        n > 0 ==> (settles_at(n) <==> n % (SETTLE_THRESHOLD as nat) == 0),
        settlements_after(n) == n / (SETTLE_THRESHOLD as nat),
    decreases n,
{
    if n > 0 {
        lemma_settles_every_tenth((n - 1) as nat);
    }
}

} // verus!
