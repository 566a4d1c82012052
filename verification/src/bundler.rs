//! Bundling of system-program transfers: the transfers of many
//! transactions are netted per pair of accounts, and one transfer per pair
//! with a non-zero balance is emitted at settlement.

use vstd::prelude::*;
use vstd::multiset::Multiset;
use crate::bytes::{Pubkey, bytes_lt, key_eq, key_lt, lemma_bytes_lt_asymmetric, lemma_bytes_lt_total};
use crate::codec::{le_value, lemma_le_bytes_len, lemma_le_roundtrip, lemma_le_value_bound, lemma_pow256_8, read_u64_le, u64_le};
use crate::sdk::{
    decodes_as_transfer, is_transfer_data, system_program_id, system_program_key, system_transfer,
    transfer_instruction,
};
use crate::types::{CompiledInstruction, CompiledInstructionView, Instruction, InstructionView, Transaction, TransactionView, copy_instructions};

verus! {

/// A transfer: payer, recipient and amount.
pub type TransferSpec = (Pubkey, Pubkey, int);

/// The compiled instructions of a transaction.
pub fn get_transaction_instructions(tx: &Transaction) -> (r: Vec<CompiledInstruction>)
    ensures
        r@.map_values(|c: CompiledInstruction| c@) == tx@.message.instructions,
{
    copy_instructions(&tx.message.instructions)
}

/// `cix` calls the system program and its data decodes as `Transfer`.
pub open spec fn is_transfer_spec(cix: CompiledInstructionView, keys: Seq<Pubkey>) -> bool {
    &&& (cix.program_id_index as int) < keys.len()
    &&& keys[cix.program_id_index as int] == system_program_key()
    &&& is_transfer_data(cix.data)
}

/// Is `cix` a system-program transfer?
pub fn is_transfer_ix(cix: &CompiledInstruction, account_keys: &[Pubkey]) -> (r: bool)
    ensures
        r == is_transfer_spec(cix@, account_keys@),
{
    if cix.program_id_index as usize >= account_keys.len() {
        return false;
    }
    let program_id = account_keys[cix.program_id_index as usize];
    let system = system_program_id();
    if !key_eq(&program_id, &system) {
        return false;
    }
    decodes_as_transfer(cix.data.as_slice())
}

/// The amount stored after the four-byte instruction tag.
pub open spec fn transfer_amount(data: Seq<u8>) -> int {
    le_value(data.subrange(4, 12)) as int
}

/// What `parse_compiled_instruction` returns.
pub open spec fn parse_compiled_spec(ix: CompiledInstructionView, keys: Seq<Pubkey>) -> Option<(Pubkey, Pubkey, i128)> {
    if !((ix.program_id_index as int) < keys.len() && keys[ix.program_id_index as int] == system_program_key()) {
        None
    } else if ix.accounts.len() < 2 || ix.data.len() < 12 {
        None
    } else {
        Some((keys[ix.accounts[0] as int], keys[ix.accounts[1] as int], transfer_amount(ix.data) as i128))
    }
}

/// The inputs on which parsing a compiled transfer reads outside the key
/// list: an account index past its end.
pub open spec fn parse_compiled_out_of_bounds(ix: CompiledInstructionView, keys: Seq<Pubkey>) -> bool {
    &&& (ix.program_id_index as int) < keys.len()
    &&& keys[ix.program_id_index as int] == system_program_key()
    &&& ix.accounts.len() >= 2
    &&& ix.data.len() >= 8
    &&& (ix.accounts[0] as int >= keys.len() || ix.accounts[1] as int >= keys.len())
}

/// What `parse_instruction` returns.
pub open spec fn parse_instruction_spec(ix: InstructionView) -> Option<(Pubkey, Pubkey, i128)> {
    if ix.program_id != system_program_key() || ix.accounts.len() < 2 || ix.data.len() != 12 {
        None
    } else {
        Some((ix.accounts[0].pubkey, ix.accounts[1].pubkey, transfer_amount(ix.data) as i128))
    }
}

/// The two keys of a transfer in ascending order.
pub open spec fn ordered_pair(from: Pubkey, to: Pubkey) -> (Pubkey, Pubkey) {
    if bytes_lt(to@, from@) {
        (to, from)
    } else {
        (from, to)
    }
}

/// The transfer's amount, signed as seen from the lower key of its pair:
/// positive when the lower key pays.
pub open spec fn signed_amount(from: Pubkey, to: Pubkey, amount: int) -> int {
    if from == ordered_pair(from, to).0 {
        amount
    } else {
        -amount
    }
}

/// The last position of the entry for pair `(lo, hi)`, or -1.
pub open spec fn pair_index(s: Seq<(Pubkey, Pubkey, i128)>, lo: Pubkey, hi: Pubkey) -> int
    decreases s.len(),
{
    if s.len() == 0 {
        -1
    } else if s.last().0 == lo && s.last().1 == hi {
        s.len() - 1
    } else {
        pair_index(s.drop_last(), lo, hi)
    }
}

/// The net balance of pair `(lo, hi)` before a transfer.
pub open spec fn pair_balance(s: Seq<(Pubkey, Pubkey, i128)>, lo: Pubkey, hi: Pubkey) -> int {
    let i = pair_index(s, lo, hi);
    if i >= 0 {
        s[i].2 as int
    } else {
        0
    }
}

/// The pair's net balance after adding transfer `t`.
pub open spec fn balance_after(s: Seq<(Pubkey, Pubkey, i128)>, t: TransferSpec) -> int {
    let (lo, hi) = ordered_pair(t.0, t.1);
    pair_balance(s, lo, hi) + signed_amount(t.0, t.1, t.2)
}

/// Adds one transfer to the table of net balances.
pub open spec fn apply_transfer(s: Seq<(Pubkey, Pubkey, i128)>, t: TransferSpec) -> Seq<(Pubkey, Pubkey, i128)> {
    let (lo, hi) = ordered_pair(t.0, t.1);
    let i = pair_index(s, lo, hi);
    if i >= 0 {
        s.update(i, (lo, hi, balance_after(s, t) as i128))
    } else {
        s.push((lo, hi, balance_after(s, t) as i128))
    }
}

/// Adds transfers in order.
pub open spec fn apply_transfers(s: Seq<(Pubkey, Pubkey, i128)>, ts: Seq<TransferSpec>) -> Seq<(Pubkey, Pubkey, i128)>
    decreases ts.len(),
{
    if ts.len() == 0 {
        s
    } else {
        apply_transfer(apply_transfers(s, ts.drop_last()), ts.last())
    }
}

/// Every intermediate net balance while adding `ts` fits in an `i128`.
pub open spec fn balances_fit(s: Seq<(Pubkey, Pubkey, i128)>, ts: Seq<TransferSpec>) -> bool
    decreases ts.len(),
{
    if ts.len() == 0 {
        true
    } else {
        &&& balances_fit(s, ts.drop_last())
        &&& i128::MIN <= balance_after(apply_transfers(s, ts.drop_last()), ts.last()) <= i128::MAX
    }
}

/// The transfers among compiled instructions, in order.
pub open spec fn transfers_of(ixs: Seq<CompiledInstructionView>, keys: Seq<Pubkey>) -> Seq<TransferSpec>
    decreases ixs.len(),
{
    if ixs.len() == 0 {
        Seq::empty()
    } else {
        let prev = transfers_of(ixs.drop_last(), keys);
        let ix = ixs.last();
        if is_transfer_spec(ix, keys) {
            prev.push((keys[ix.accounts[0] as int], keys[ix.accounts[1] as int], transfer_amount(ix.data)))
        } else {
            prev
        }
    }
}

/// The transfers of a transaction.
pub open spec fn transaction_transfers(tx: TransactionView) -> Seq<TransferSpec> {
    transfers_of(tx.message.instructions, tx.message.account_keys)
}

/// Every transfer instruction of `tx` names two accounts that exist in its key list.
pub open spec fn transfers_well_formed(tx: TransactionView) -> bool {
    forall|i: int|
        0 <= i < tx.message.instructions.len() && is_transfer_spec(
            #[trigger] tx.message.instructions[i],
            tx.message.account_keys,
        ) ==> {
            &&& tx.message.instructions[i].accounts.len() >= 2
            &&& (tx.message.instructions[i].accounts[0] as int) < tx.message.account_keys.len()
            &&& (tx.message.instructions[i].accounts[1] as int) < tx.message.account_keys.len()
        }
}

/// The transfer that settles one net balance, as (payer, recipient, amount).
pub open spec fn settling_transfer(e: (Pubkey, Pubkey, i128)) -> TransferSpec {
    if e.2 < 0 {
        (e.1, e.0, -(e.2 as int))
    } else {
        (e.0, e.1, e.2 as int)
    }
}

/// The transfers that settle all non-zero balances, in table order.
pub open spec fn settling_transfers(s: Seq<(Pubkey, Pubkey, i128)>) -> Seq<TransferSpec>
    decreases s.len(),
{
    if s.len() == 0 {
        Seq::empty()
    } else if s.last().2 == 0 {
        settling_transfers(s.drop_last())
    } else {
        settling_transfers(s.drop_last()).push(settling_transfer(s.last()))
    }
}

/// The instruction that carries a settling transfer; its lamports are the
/// amount truncated to 64 bits.
pub open spec fn settling_instruction(t: TransferSpec) -> InstructionView {
    transfer_instruction(t.0, t.1, t.2 as u64)
}

/// Accumulates the net balance between each pair of accounts over the
/// transfers of the transactions it is given.
pub struct TransferBundler {
    transfers: Vec<(Pubkey, Pubkey, i128)>,
    history: Ghost<Seq<TransactionView>>,
}

impl View for TransferBundler {
    type V = Seq<(Pubkey, Pubkey, i128)>;

    closed spec fn view(&self) -> Seq<(Pubkey, Pubkey, i128)> {
        self.transfers@
    }
}

/// No pair appears twice in the table.
pub open spec fn pairs_distinct(s: Seq<(Pubkey, Pubkey, i128)>) -> bool {
    forall|i: int, j: int|
        0 <= i < j < s.len() ==> !(#[trigger] s[i].0 == #[trigger] s[j].0 && s[i].1 == s[j].1)
}

/// Each entry's keys are in ascending order.
pub open spec fn pairs_canonical(s: Seq<(Pubkey, Pubkey, i128)>) -> bool {
    forall|i: int| 0 <= i < s.len() ==> !bytes_lt((#[trigger] s[i]).1@, s[i].0@)
}

proof fn lemma_apply_keeps_canonical(s: Seq<(Pubkey, Pubkey, i128)>, t: TransferSpec)
    requires
        pairs_canonical(s),
    ensures
        pairs_canonical(apply_transfer(s, t)),
{
    let (lo, hi) = ordered_pair(t.0, t.1);
    lemma_bytes_lt_asymmetric(t.0@, t.1@);
    assert(!bytes_lt(hi@, lo@));
    lemma_pair_index(s, lo, hi);
    let r = apply_transfer(s, t);
    assert forall|i: int| 0 <= i < r.len() implies !bytes_lt((#[trigger] r[i]).1@, r[i].0@) by {
        if i < s.len() && r[i] == s[i] {
        }
    }
}

proof fn lemma_pair_index(s: Seq<(Pubkey, Pubkey, i128)>, lo: Pubkey, hi: Pubkey)
    ensures
        -1 <= pair_index(s, lo, hi) < s.len(),
        pair_index(s, lo, hi) >= 0 ==> s[pair_index(s, lo, hi)].0 == lo && s[pair_index(s, lo, hi)].1 == hi,
        pair_index(s, lo, hi) < 0 ==> forall|k: int| 0 <= k < s.len() ==> !(#[trigger] s[k].0 == lo && s[k].1 == hi),
        forall|k: int| pair_index(s, lo, hi) < k < s.len() ==> !(#[trigger] s[k].0 == lo && s[k].1 == hi),
    decreases s.len(),
{
    if s.len() > 0 && !(s.last().0 == lo && s.last().1 == hi) {
        lemma_pair_index(s.drop_last(), lo, hi);
        assert forall|k: int| pair_index(s, lo, hi) < k < s.len() implies !(#[trigger] s[k].0 == lo && s[k].1 == hi) by {
            if k < s.len() - 1 {
                assert(s[k] == s.drop_last()[k]);
            }
        }
        assert forall|k: int| pair_index(s, lo, hi) < 0 && 0 <= k < s.len() implies !(#[trigger] s[k].0 == lo && s[k].1 == hi) by {
            if k < s.len() - 1 {
                assert(s[k] == s.drop_last()[k]);
            }
        }
    }
}

proof fn lemma_apply_keeps_distinct(s: Seq<(Pubkey, Pubkey, i128)>, t: TransferSpec)
    requires
        pairs_distinct(s),
    ensures
        pairs_distinct(apply_transfer(s, t)),
{
    let (lo, hi) = ordered_pair(t.0, t.1);
    lemma_pair_index(s, lo, hi);
    let r = apply_transfer(s, t);
    assert forall|i: int, j: int| 0 <= i < j < r.len() implies !(#[trigger] r[i].0 == #[trigger] r[j].0 && r[i].1 == r[j].1) by {
        if pair_index(s, lo, hi) < 0 && j == s.len() {
            assert(!(s[i].0 == lo && s[i].1 == hi));
        }
    }
}

impl TransferBundler {
    /// The transactions given to `bundle` since the bundler was made, in order.
    pub closed spec fn bundled_transactions(&self) -> Seq<TransactionView> {
        self.history@
    }

    /// The table is well formed: each pair has at most one entry, in
    /// ascending key order.
    pub open spec fn table_wf(&self) -> bool {
        &&& pairs_distinct(self@)
        &&& pairs_canonical(self@)
    }

    /// The table is well formed, and it is what bundling the transactions
    /// given so far makes of an empty table, each net balance fitting in
    /// an `i128` on the way.
    pub open spec fn wf(&self) -> bool {
        &&& self.table_wf()
        &&& self@ == bundled(Seq::empty(), self.bundled_transactions())
        &&& balances_fit(Seq::empty(), all_transfers(self.bundled_transactions()))
    }

    /// An empty bundler.
    pub fn new() -> (r: Self)
        ensures
            r@ == Seq::<(Pubkey, Pubkey, i128)>::empty(),
            r.bundled_transactions() == Seq::<TransactionView>::empty(),
            r.wf(),
    {
        TransferBundler { transfers: Vec::new(), history: Ghost(Seq::empty()) }
    }

    /// Reads the payer, recipient and amount of a compiled system-program
    /// instruction; `None` when it does not call the system program, has
    /// fewer than two accounts, or has too little data to hold the amount
    /// (fewer than twelve bytes).
    pub fn parse_compiled_instruction(ix: &CompiledInstruction, account_keys: &[Pubkey]) -> (r: Option<(Pubkey, Pubkey, i128)>)
        requires
            !parse_compiled_out_of_bounds(ix@, account_keys@),
        ensures
            r == parse_compiled_spec(ix@, account_keys@),
    {
        if ix.program_id_index as usize >= account_keys.len() {
            return None;
        }
        let system = system_program_id();
        if !key_eq(&account_keys[ix.program_id_index as usize], &system) {
            return None;
        }
        if ix.accounts.len() < 2 || ix.data.len() < 8 {
            return None;
        }
        let from = account_keys[ix.accounts[0] as usize];
        let to = account_keys[ix.accounts[1] as usize];
        if ix.data.len() < 12 {
            return None;
        }
        let amount: u64 = read_u64_le(ix.data.as_slice(), 4);
        proof {
            assert(ix.data@.subrange(4, 12) == ix.data@.subrange(4int, 4int + 8));
        }
        Some((from, to, amount as i128))
    }

    /// Reads the payer, recipient and amount of a system-program
    /// instruction; `None` when it does not call the system program, has
    /// fewer than two accounts, or its data is not twelve bytes long.
    pub fn parse_instruction(ix: &Instruction) -> (r: Option<(Pubkey, Pubkey, i128)>)
        requires
            ix@.program_id == system_program_key() && ix@.accounts.len() >= 2 ==> ix@.data.len() >= 4,
        ensures
            r == parse_instruction_spec(ix@),
    {
        let system = system_program_id();
        if !key_eq(&ix.program_id, &system) {
            return None;
        }
        if ix.accounts.len() < 2 {
            return None;
        }
        let from = ix.accounts[0].pubkey;
        let to = ix.accounts[1].pubkey;
        if ix.data.len() != 12 {
            return None;
        }
        let amount: u64 = read_u64_le(ix.data.as_slice(), 4);
        Some((from, to, amount as i128))
    }

    /// Adds one transfer to the net balance of its pair.
    fn add_transfer(&mut self, from: Pubkey, to: Pubkey, amount: i128)
        requires
            old(self).table_wf(),
            0 <= amount <= u64::MAX,
            i128::MIN <= balance_after(old(self)@, (from, to, amount as int)) <= i128::MAX,
        ensures
            final(self).table_wf(),
            final(self)@ == apply_transfer(old(self)@, (from, to, amount as int)),
            final(self).bundled_transactions() == old(self).bundled_transactions(),
    {
        let mut keys = [from, to];
        if key_lt(&to, &from) {
            keys = [to, from];
        }
        let lo = keys[0];
        let hi = keys[1];
        assert((lo, hi) == ordered_pair(from, to));
        let signed: i128 = if key_eq(&from, &lo) { amount } else { -amount };
        proof {
            lemma_pair_index(self.transfers@, lo, hi);
            lemma_apply_keeps_distinct(self.transfers@, (from, to, amount as int));
            lemma_apply_keeps_canonical(self.transfers@, (from, to, amount as int));
        }
        let mut i: usize = self.transfers.len();
        while i > 0
            invariant
                0 <= i <= self.transfers@.len(),
                self.transfers@ == old(self)@,
                self.history@ == old(self).history@,
                (lo, hi) == ordered_pair(from, to),
                signed as int == signed_amount(from, to, amount as int),
                i128::MIN <= balance_after(old(self)@, (from, to, amount as int)) <= i128::MAX,
                pairs_distinct(apply_transfer(old(self)@, (from, to, amount as int))),
                pairs_canonical(apply_transfer(old(self)@, (from, to, amount as int))),
                forall|k: int| i <= k < self.transfers@.len() ==> !(#[trigger] self.transfers@[k].0 == lo && self.transfers@[k].1 == hi),
            decreases i,
        {
            let e = self.transfers[i - 1];
            assert(e == self.transfers@[i - 1]);
            if key_eq(&e.0, &lo) && key_eq(&e.1, &hi) {
                proof {
                    lemma_pair_index(old(self)@, lo, hi);
                    let p = pair_index(old(self)@, lo, hi);
                    assert(self.transfers@[i - 1].0 == lo && self.transfers@[i - 1].1 == hi);
                    if p < i - 1 {
                        assert(!(self.transfers@[i - 1].0 == lo && self.transfers@[i - 1].1 == hi));
                    }
                    if p >= i {
                        assert(self.transfers@[p].0 == lo && self.transfers@[p].1 == hi);
                    }
                    assert(p == i - 1);
                }
                let v: i128 = e.2 + signed;
                self.transfers.set(i - 1, (lo, hi, v));
                return;
            }
            i = i - 1;
        }
        proof {
            assert(pair_index(old(self)@, lo, hi) < 0);
        }
        self.transfers.push((lo, hi, signed));
    }

    /// Adds every system-program transfer of `transaction` to the net
    /// balance of its pair of accounts.
    pub fn bundle(&mut self, transaction: Transaction)
        requires
            old(self).wf(),
            transfers_well_formed(transaction@),
            balances_fit(old(self)@, transaction_transfers(transaction@)),
        ensures
            final(self).wf(),
            final(self)@ == apply_transfers(old(self)@, transaction_transfers(transaction@)),
            final(self).bundled_transactions() == old(self).bundled_transactions().push(transaction@),
    {
        let ghost tv = transaction@;
        let ghost h = self.history@;
        let ixs = get_transaction_instructions(&transaction);
        let account_keys: &[Pubkey] = transaction.message.account_keys.as_slice();
        let ghost keys = transaction@.message.account_keys;
        let ghost all = transaction@.message.instructions;
        let ghost total = transaction_transfers(transaction@);
        let mut i: usize = 0;
        proof {
            assert(all.take(0) =~= Seq::<CompiledInstructionView>::empty());
        }
        while i < ixs.len()
            invariant
                0 <= i <= ixs@.len(),
                ixs@.len() == all.len(),
                forall|k: int| 0 <= k < all.len() ==> #[trigger] ixs@[k]@ == all[k],
                account_keys@ == keys,
                keys == transaction@.message.account_keys,
                all == transaction@.message.instructions,
                total == transfers_of(all, keys),
                transfers_well_formed(transaction@),
                self.table_wf(),
                self.history@ == h,
                tv == transaction@,
                balances_fit(old(self)@, total),
                self@ == apply_transfers(old(self)@, transfers_of(all.take(i as int), keys)),
            decreases ixs@.len() - i,
        {
            let ghost before = transfers_of(all.take(i as int), keys);
            proof {
                assert(all.take(i + 1).drop_last() =~= all.take(i as int));
                lemma_transfers_prefix(all, keys, (i + 1) as nat);
            }
            let ix = &ixs[i];
            assert(ix@ == all[i as int]);
            if is_transfer_ix(ix, account_keys) {
                assert(is_transfer_spec(all[i as int], keys));
                assert(all.take(i + 1).last() == all[i as int]);
                proof {
                    lemma_le_value_bound(all[i as int].data.subrange(4, 12));
                    lemma_pow256_8();
                }
                let parsed = Self::parse_compiled_instruction(ix, account_keys);
                let (from, to, amount) = parsed.unwrap();
                proof {
                    let t = (from, to, amount as int);
                    assert(transfers_of(all.take(i + 1), keys) == before.push(t));
                    lemma_fit_prefix(old(self)@, total, (before.len() + 1) as nat);
                    assert(total.take(before.len() + 1int).drop_last() =~= before);
                }
                self.add_transfer(from, to, amount);
                proof {
                    let t = (from, to, amount as int);
                    assert(before.push(t).drop_last() =~= before);
                }
            } else {
                assert(all.take(i + 1).last() == all[i as int]);
                assert(transfers_of(all.take(i + 1), keys) == before);
            }
            i = i + 1;
        }
        proof {
            assert(all.take(all.len() as int) =~= all);
            let h2 = h.push(tv);
            assert(h2.drop_last() =~= h);
            lemma_bundled_is_all_transfers(Seq::empty(), h);
            lemma_fit_concat(Seq::empty(), all_transfers(h), transaction_transfers(tv));
            self.history@ = h2;
        }
    }

    /// One system-program transfer per pair with a non-zero net balance,
    /// from the account that owes to the one that is owed.
    pub fn generate_final(self) -> (r: Vec<Instruction>)
        requires
            self.wf(),
        ensures
            r@.map_values(|ix: Instruction| ix@) == settling_transfers(self@).map_values(
                |t: TransferSpec| settling_instruction(t),
            ),
            forall|a: Pubkey|
                #[trigger] transfer_delta(settling_transfers(self@), a) == transfer_delta(
                    all_transfers(self.bundled_transactions()),
                    a,
                ),
            forall|k: int| 0 <= k < settling_transfers(self@).len() ==> #[trigger] settling_transfers(self@)[k].2 > 0,
            forall|i: int, j: int|
                0 <= i < j < settling_transfers(self@).len() ==> !same_accounts(
                    #[trigger] settling_transfers(self@)[i],
                    #[trigger] settling_transfers(self@)[j],
                ),
            (forall|k: int| 0 <= k < self@.len() ==> -(u64::MAX as int) <= #[trigger] self@[k].2 <= u64::MAX) ==> forall|k: int|
                0 <= k < settling_transfers(self@).len() ==> (#[trigger] settling_transfers(self@)[k].2 as u64) as int == settling_transfers(self@)[k].2,
    {
        proof {
            assert forall|a: Pubkey| #[trigger] transfer_delta(settling_transfers(self@), a) == transfer_delta(
                all_transfers(self.bundled_transactions()),
                a,
            ) by {
                lemma_bundle_calls_conserve_balances(self.bundled_transactions(), a);
            }
            lemma_settlement_matches_balances(self@, arbitrary());
            lemma_one_settlement_per_pair(self@);
            if forall|k: int| 0 <= k < self@.len() ==> -(u64::MAX as int) <= #[trigger] self@[k].2 <= u64::MAX {
                lemma_settling_amounts_exact(self@);
            }
        }
        let mut out: Vec<Instruction> = Vec::new();
        let mut i: usize = 0;
        while i < self.transfers.len()
            invariant
                0 <= i <= self.transfers@.len(),
                out@.map_values(|ix: Instruction| ix@) == settling_transfers(self.transfers@.take(i as int)).map_values(
                    |t: TransferSpec| settling_instruction(t),
                ),
            decreases self.transfers@.len() - i,
        {
            let (lo, hi, val) = self.transfers[i];
            let ghost s = self.transfers@.take(i + 1);
            proof {
                assert(s.drop_last() =~= self.transfers@.take(i as int));
                assert(s.last() == (lo, hi, val));
            }
            let ghost prev_out = out@;
            if val < 0 {
                let magnitude: u128 = ((0 - (val + 1)) as u128) + 1;
                let ix = system_transfer(&hi, &lo, #[verifier::truncate] (magnitude as u64));
                proof {
                    let t = settling_transfer(s.last());
                    assert(t == (hi, lo, magnitude as int));
                    assert(ix@ == settling_instruction(t));
                    assert(settling_transfers(s) == settling_transfers(s.drop_last()).push(t));
                }
                out.push(ix);
                proof {
                    let t = settling_transfer(s.last());
                    assert(out@.map_values(|ix: Instruction| ix@) =~= prev_out.map_values(|ix: Instruction| ix@).push(ix@));
                    assert(settling_transfers(s).map_values(|t: TransferSpec| settling_instruction(t)) =~= settling_transfers(s.drop_last()).map_values(|t: TransferSpec| settling_instruction(t)).push(settling_instruction(t)));
                }
            } else if val > 0 {
                let ix = system_transfer(&lo, &hi, #[verifier::truncate] (val as u64));
                proof {
                    let t = settling_transfer(s.last());
                    assert(t == (lo, hi, val as int));
                    assert(ix@ == settling_instruction(t));
                    assert(settling_transfers(s) == settling_transfers(s.drop_last()).push(t));
                }
                out.push(ix);
                proof {
                    let t = settling_transfer(s.last());
                    assert(out@.map_values(|ix: Instruction| ix@) =~= prev_out.map_values(|ix: Instruction| ix@).push(ix@));
                    assert(settling_transfers(s).map_values(|t: TransferSpec| settling_instruction(t)) =~= settling_transfers(s.drop_last()).map_values(|t: TransferSpec| settling_instruction(t)).push(settling_instruction(t)));
                }
            } else {
                assert(settling_transfers(s) == settling_transfers(s.drop_last()));
            }
            i = i + 1;
        }
        proof {
            assert(self.transfers@.take(self.transfers@.len() as int) =~= self.transfers@);
        }
        out
    }
}

/// The transfers of a prefix of instructions are a prefix of the transfers of all.
proof fn lemma_transfers_prefix(all: Seq<CompiledInstructionView>, keys: Seq<Pubkey>, n: nat)
    requires
        n <= all.len(),
    ensures
        transfers_of(all.take(n as int), keys).len() <= transfers_of(all, keys).len(),
        transfers_of(all, keys).take(transfers_of(all.take(n as int), keys).len() as int) == transfers_of(all.take(n as int), keys),
    decreases all.len(),
{
    if n == all.len() {
        assert(all.take(n as int) =~= all);
        assert(transfers_of(all, keys).take(transfers_of(all, keys).len() as int) =~= transfers_of(all, keys));
    } else {
        assert(all.drop_last().take(n as int) =~= all.take(n as int));
        lemma_transfers_prefix(all.drop_last(), keys, n);
        let p = transfers_of(all.take(n as int), keys);
        let d = transfers_of(all.drop_last(), keys);
        assert(transfers_of(all, keys).take(p.len() as int) =~= d.take(p.len() as int));
    }
}

/// Intermediate balances fit for every prefix of transfers whose balances fit.
proof fn lemma_fit_prefix(s: Seq<(Pubkey, Pubkey, i128)>, ts: Seq<TransferSpec>, n: nat)
    requires
        balances_fit(s, ts),
        n <= ts.len(),
    ensures
        balances_fit(s, ts.take(n as int)),
    decreases ts.len(),
{
    if n == ts.len() {
        assert(ts.take(n as int) =~= ts);
    } else {
        assert(ts.drop_last().take(n as int) =~= ts.take(n as int));
        lemma_fit_prefix(s, ts.drop_last(), n);
    }
}


/// How much account `a` gains over a sequence of transfers.
pub open spec fn transfer_delta(ts: Seq<TransferSpec>, a: Pubkey) -> int
    decreases ts.len(),
{
    if ts.len() == 0 {
        0
    } else {
        let t = ts.last();
        transfer_delta(ts.drop_last(), a) + (if t.1 == a { t.2 } else { 0 }) - (if t.0 == a { t.2 } else { 0 })
    }
}

/// How much account `a` gains from one net balance: the higher key of the
/// pair gains what the lower key pays.
pub open spec fn entry_delta(e: (Pubkey, Pubkey, i128), a: Pubkey) -> int {
    (if e.1 == a { e.2 as int } else { 0 }) - (if e.0 == a { e.2 as int } else { 0 })
}

/// How much account `a` gains from a table of net balances.
pub open spec fn balances_delta(s: Seq<(Pubkey, Pubkey, i128)>, a: Pubkey) -> int
    decreases s.len(),
{
    if s.len() == 0 {
        0
    } else {
        balances_delta(s.drop_last(), a) + entry_delta(s.last(), a)
    }
}

proof fn lemma_bytes_lt_irreflexive(x: Seq<u8>)
    ensures
        !bytes_lt(x, x),
{
}

proof fn lemma_balances_delta_update(s: Seq<(Pubkey, Pubkey, i128)>, i: int, e: (Pubkey, Pubkey, i128), a: Pubkey)
    requires
        0 <= i < s.len(),
    ensures
        balances_delta(s.update(i, e), a) == balances_delta(s, a) - entry_delta(s[i], a) + entry_delta(e, a),
    decreases s.len(),
{
    let u = s.update(i, e);
    if i == s.len() - 1 {
        assert(u.drop_last() =~= s.drop_last());
    } else {
        lemma_balances_delta_update(s.drop_last(), i, e, a);
        assert(u.drop_last() =~= s.drop_last().update(i, e));
    }
}

proof fn lemma_apply_transfer_delta(s: Seq<(Pubkey, Pubkey, i128)>, t: TransferSpec, a: Pubkey)
    requires
        i128::MIN <= balance_after(s, t) <= i128::MAX,
    ensures
        balances_delta(apply_transfer(s, t), a) == balances_delta(s, a) + (if t.1 == a { t.2 } else { 0 }) - (if t.0 == a { t.2 } else { 0 }),
{
    let (lo, hi) = ordered_pair(t.0, t.1);
    lemma_pair_index(s, lo, hi);
    lemma_bytes_lt_irreflexive(t.0@);
    let i = pair_index(s, lo, hi);
    if i >= 0 {
        lemma_balances_delta_update(s, i, (lo, hi, balance_after(s, t) as i128), a);
    } else {
        assert(apply_transfer(s, t).drop_last() =~= s);
    }
}

/// Netting transfers preserves what every account gains: the gains the
/// table of net balances implies grow by exactly the gains of the
/// transfers added to it.
pub proof fn lemma_bundling_preserves_gains(s: Seq<(Pubkey, Pubkey, i128)>, ts: Seq<TransferSpec>, a: Pubkey)
    requires
        balances_fit(s, ts),
    ensures
        balances_delta(apply_transfers(s, ts), a) == balances_delta(s, a) + transfer_delta(ts, a),
    decreases ts.len(),
{
    if ts.len() > 0 {
        lemma_bundling_preserves_gains(s, ts.drop_last(), a);
        lemma_apply_transfer_delta(apply_transfers(s, ts.drop_last()), ts.last(), a);
    }
}

/// The settling transfers move positive amounts, and every account gains
/// from them exactly what the table of net balances says it is owed.
pub proof fn lemma_settlement_matches_balances(s: Seq<(Pubkey, Pubkey, i128)>, a: Pubkey)
    ensures
        transfer_delta(settling_transfers(s), a) == balances_delta(s, a),
        forall|k: int| 0 <= k < settling_transfers(s).len() ==> #[trigger] settling_transfers(s)[k].2 > 0,
        settling_transfers(s).len() <= s.len(),
    decreases s.len(),
{
    if s.len() > 0 {
        lemma_settlement_matches_balances(s.drop_last(), a);
        let prev = settling_transfers(s.drop_last());
        if s.last().2 != 0 {
            let r = prev.push(settling_transfer(s.last()));
            assert(r.drop_last() =~= prev);
            assert forall|k: int| 0 <= k < r.len() implies #[trigger] r[k].2 > 0 by {
                if k < prev.len() {
                    assert(r[k] == prev[k]);
                }
            }
        }
    }
}

/// Adding the transfers of one transaction and then of another is adding
/// all of them in order.
pub proof fn lemma_apply_transfers_concat(s: Seq<(Pubkey, Pubkey, i128)>, t1: Seq<TransferSpec>, t2: Seq<TransferSpec>)
    ensures
        apply_transfers(apply_transfers(s, t1), t2) == apply_transfers(s, t1 + t2),
    decreases t2.len(),
{
    if t2.len() == 0 {
        assert(t1 + t2 =~= t1);
    } else {
        lemma_apply_transfers_concat(s, t1, t2.drop_last());
        assert((t1 + t2).drop_last() =~= t1 + t2.drop_last());
    }
}

/// What a bundler that started empty pays out at settlement moves, for
/// every account, exactly the net of all the transfers it was given.
pub proof fn lemma_settlement_conserves_transfers(ts: Seq<TransferSpec>, a: Pubkey)
    requires
        balances_fit(Seq::empty(), ts),
    ensures
        transfer_delta(settling_transfers(apply_transfers(Seq::empty(), ts)), a) == transfer_delta(ts, a),
{
    lemma_bundling_preserves_gains(Seq::empty(), ts, a);
    lemma_settlement_matches_balances(apply_transfers(Seq::empty(), ts), a);
}

/// When every net balance is at most `u64::MAX` in size, each settling
/// instruction carries its amount without truncation.
pub proof fn lemma_settling_amounts_exact(s: Seq<(Pubkey, Pubkey, i128)>)
    requires
        forall|k: int| 0 <= k < s.len() ==> -(u64::MAX as int) <= #[trigger] s[k].2 <= u64::MAX,
    ensures
        forall|k: int| 0 <= k < settling_transfers(s).len() ==> (#[trigger] settling_transfers(s)[k].2 as u64) as int == settling_transfers(s)[k].2,
    decreases s.len(),
{
    if s.len() > 0 {
        let d = s.drop_last();
        assert forall|k: int| 0 <= k < d.len() implies -(u64::MAX as int) <= #[trigger] d[k].2 <= u64::MAX by {
            assert(d[k] == s[k]);
        }
        lemma_settling_amounts_exact(d);
        let prev = settling_transfers(d);
        if s.last().2 != 0 {
            let r = prev.push(settling_transfer(s.last()));
            assert forall|k: int| 0 <= k < r.len() implies (#[trigger] r[k].2 as u64) as int == r[k].2 by {
                if k < prev.len() {
                    assert(r[k] == prev[k]);
                }
            }
        }
    }
}

/// Two transfers between the same two accounts, in either direction.
pub open spec fn same_accounts(a: TransferSpec, b: TransferSpec) -> bool {
    (a.0 == b.0 && a.1 == b.1) || (a.0 == b.1 && a.1 == b.0)
}

proof fn lemma_settling_members(s: Seq<(Pubkey, Pubkey, i128)>, k: int)
    requires
        0 <= k < settling_transfers(s).len(),
    ensures
        exists|m: int| 0 <= m < s.len() && settling_transfers(s)[k] == settling_transfer(#[trigger] s[m]),
    decreases s.len(),
{
    let d = s.drop_last();
    let prev = settling_transfers(d);
    if k < prev.len() {
        lemma_settling_members(d, k);
        let m = choose|m: int| 0 <= m < d.len() && prev[k] == settling_transfer(#[trigger] d[m]);
        if s.last().2 != 0 {
            assert(settling_transfers(s)[k] == prev[k]);
        }
        assert(s[m] == d[m]);
    } else {
        assert(settling_transfers(s)[k] == settling_transfer(s[s.len() - 1]));
    }
}

/// A table built by bundling settles each pair of accounts with at most
/// one transfer.
pub proof fn lemma_one_settlement_per_pair(s: Seq<(Pubkey, Pubkey, i128)>)
    requires
        pairs_distinct(s),
        pairs_canonical(s),
    ensures
        forall|i: int, j: int|
            0 <= i < j < settling_transfers(s).len() ==> !same_accounts(
                #[trigger] settling_transfers(s)[i],
                #[trigger] settling_transfers(s)[j],
            ),
    decreases s.len(),
{
    if s.len() > 0 {
        let d = s.drop_last();
        assert(pairs_distinct(d)) by {
            assert forall|i: int, j: int| 0 <= i < j < d.len() implies !(#[trigger] d[i].0 == #[trigger] d[j].0 && d[i].1 == d[j].1) by {
                assert(d[i] == s[i] && d[j] == s[j]);
            }
        }
        assert(pairs_canonical(d)) by {
            assert forall|i: int| 0 <= i < d.len() implies !bytes_lt((#[trigger] d[i]).1@, d[i].0@) by {
                assert(d[i] == s[i]);
            }
        }
        lemma_one_settlement_per_pair(d);
        let prev = settling_transfers(d);
        let e = s.last();
        if e.2 != 0 {
            let r = settling_transfers(s);
            assert(r == prev.push(settling_transfer(e)));
            assert forall|i: int, j: int| 0 <= i < j < r.len() implies !same_accounts(#[trigger] r[i], #[trigger] r[j]) by {
                if j < prev.len() {
                    assert(r[i] == prev[i] && r[j] == prev[j]);
                } else {
                    lemma_settling_members(d, i);
                    let m = choose|m: int| 0 <= m < d.len() && prev[i] == settling_transfer(#[trigger] d[m]);
                    let f = d[m];
                    assert(f == s[m]);
                    assert(r[i] == prev[i]);
                    assert(r[j] == settling_transfer(e));
                    if same_accounts(r[i], r[j]) {
                        assert(!bytes_lt(f.1@, f.0@));
                        assert(!bytes_lt(e.1@, e.0@));
                        if f.0 == e.0 && f.1 == e.1 {
                            assert(!(s[m].0 == s[s.len() - 1].0 && s[m].1 == s[s.len() - 1].1));
                        } else {
                            assert(f.0 == e.1 && f.1 == e.0);
                            if f.0@ == f.1@ {
                                assert(f.0 =~= f.1);
                            } else {
                                lemma_bytes_lt_total(f.0@, f.1@);
                            }
                            assert(s[m].0 == s[s.len() - 1].0 && s[m].1 == s[s.len() - 1].1);
                        }
                    }
                }
            }
        }
    }
}

/// The table after bundling `txs` one after the other.
pub open spec fn bundled(s: Seq<(Pubkey, Pubkey, i128)>, txs: Seq<TransactionView>) -> Seq<(Pubkey, Pubkey, i128)>
    decreases txs.len(),
{
    if txs.len() == 0 {
        s
    } else {
        apply_transfers(bundled(s, txs.drop_last()), transaction_transfers(txs.last()))
    }
}

/// All the transfers of `txs`, in order.
pub open spec fn all_transfers(txs: Seq<TransactionView>) -> Seq<TransferSpec>
    decreases txs.len(),
{
    if txs.len() == 0 {
        Seq::empty()
    } else {
        all_transfers(txs.drop_last()) + transaction_transfers(txs.last())
    }
}

/// Bundling transactions one after the other is adding all their
/// transfers in order.
pub proof fn lemma_bundled_is_all_transfers(s: Seq<(Pubkey, Pubkey, i128)>, txs: Seq<TransactionView>)
    ensures
        bundled(s, txs) == apply_transfers(s, all_transfers(txs)),
    decreases txs.len(),
{
    if txs.len() > 0 {
        lemma_bundled_is_all_transfers(s, txs.drop_last());
        lemma_apply_transfers_concat(s, all_transfers(txs.drop_last()), transaction_transfers(txs.last()));
    }
}

/// For a bundler made with `new` and given `txs` through `bundle`, the
/// transfers `generate_final` settles with move, for every account, exactly
/// the net of all the transfers of `txs`.
pub proof fn lemma_bundle_calls_conserve_balances(txs: Seq<TransactionView>, a: Pubkey)
    requires
        balances_fit(Seq::empty(), all_transfers(txs)),
    ensures
        transfer_delta(settling_transfers(bundled(Seq::empty(), txs)), a) == transfer_delta(all_transfers(txs), a),
{
    lemma_bundled_is_all_transfers(Seq::empty(), txs);
    lemma_settlement_conserves_transfers(all_transfers(txs), a);
}

/// Adding two runs of transfers one after the other keeps every net
/// balance in range when each run does.
proof fn lemma_fit_concat(s: Seq<(Pubkey, Pubkey, i128)>, t1: Seq<TransferSpec>, t2: Seq<TransferSpec>)
    requires
        balances_fit(s, t1),
        balances_fit(apply_transfers(s, t1), t2),
    ensures
        balances_fit(s, t1 + t2),
    decreases t2.len(),
{
    if t2.len() == 0 {
        assert(t1 + t2 =~= t1);
    } else {
        lemma_fit_concat(s, t1, t2.drop_last());
        assert((t1 + t2).drop_last() =~= t1 + t2.drop_last());
        lemma_apply_transfers_concat(s, t1, t2.drop_last());
    }
}

/// The sum of `f` over the elements of `s`.
pub open spec fn seq_sum<A>(s: Seq<A>, f: spec_fn(A) -> int) -> int
    decreases s.len(),
{
    if s.len() == 0 {
        0
    } else {
        seq_sum(s.drop_last(), f) + f(s.last())
    }
}

/// The multiset sum of `g` over the elements of `s`.
pub open spec fn seq_msum<A, B>(s: Seq<A>, g: spec_fn(A) -> Multiset<B>) -> Multiset<B>
    decreases s.len(),
{
    if s.len() == 0 {
        Multiset::empty()
    } else {
        seq_msum(s.drop_last(), g).add(g(s.last()))
    }
}

proof fn lemma_seq_sum_remove<A>(s: Seq<A>, f: spec_fn(A) -> int, i: int)
    requires
        0 <= i < s.len(),
    ensures
        seq_sum(s, f) == seq_sum(s.remove(i), f) + f(s[i]),
    decreases s.len(),
{
    if i < s.len() - 1 {
        lemma_seq_sum_remove(s.drop_last(), f, i);
        assert(s.remove(i).drop_last() =~= s.drop_last().remove(i));
        assert(s.remove(i).last() == s.last());
    } else {
        assert(s.remove(i) =~= s.drop_last());
    }
}

proof fn lemma_seq_msum_remove<A, B>(s: Seq<A>, g: spec_fn(A) -> Multiset<B>, i: int)
    requires
        0 <= i < s.len(),
    ensures
        seq_msum(s, g) == seq_msum(s.remove(i), g).add(g(s[i])),
    decreases s.len(),
{
    broadcast use vstd::multiset::group_multiset_axioms;
    if i < s.len() - 1 {
        lemma_seq_msum_remove(s.drop_last(), g, i);
        assert(s.remove(i).drop_last() =~= s.drop_last().remove(i));
        assert(s.remove(i).last() == s.last());
        assert(seq_msum(s, g) =~= seq_msum(s.remove(i), g).add(g(s[i])));
    } else {
        assert(s.remove(i) =~= s.drop_last());
    }
}

/// Sums over sequences with the same elements are equal.
pub proof fn lemma_seq_sum_permutation<A>(s1: Seq<A>, s2: Seq<A>, f: spec_fn(A) -> int)
    requires
        s1.to_multiset() == s2.to_multiset(),
    ensures
        seq_sum(s1, f) == seq_sum(s2, f),
    decreases s1.len(),
{
    broadcast use vstd::seq_lib::group_to_multiset_ensures;
    broadcast use vstd::multiset::group_multiset_axioms;
    if s1.len() == 0 {
        assert(s2.to_multiset().len() == 0);
        assert(s2.len() == 0);
    } else {
        let x = s1.last();
        let d = s1.drop_last();
        assert(d.push(x) =~= s1);
        assert(s1.to_multiset() =~= d.to_multiset().insert(x));
        assert(s2.to_multiset().count(x) > 0);
        assert(s2.contains(x));
        let k = choose|k: int| 0 <= k < s2.len() && s2[k] == x;
        assert(s2.remove(k).to_multiset() =~= s2.to_multiset().remove(x));
        assert(d.to_multiset() =~= s2.to_multiset().remove(x));
        lemma_seq_sum_permutation(d, s2.remove(k), f);
        lemma_seq_sum_remove(s2, f, k);
    }
}

/// Multiset sums over sequences with the same elements are equal.
pub proof fn lemma_seq_msum_permutation<A, B>(s1: Seq<A>, s2: Seq<A>, g: spec_fn(A) -> Multiset<B>)
    requires
        s1.to_multiset() == s2.to_multiset(),
    ensures
        seq_msum(s1, g) == seq_msum(s2, g),
    decreases s1.len(),
{
    broadcast use vstd::seq_lib::group_to_multiset_ensures;
    broadcast use vstd::multiset::group_multiset_axioms;
    if s1.len() == 0 {
        assert(s2.to_multiset().len() == 0);
        assert(s2.len() == 0);
    } else {
        let x = s1.last();
        let d = s1.drop_last();
        assert(d.push(x) =~= s1);
        assert(s1.to_multiset() =~= d.to_multiset().insert(x));
        assert(s2.to_multiset().count(x) > 0);
        assert(s2.contains(x));
        let k = choose|k: int| 0 <= k < s2.len() && s2[k] == x;
        assert(s2.remove(k).to_multiset() =~= s2.to_multiset().remove(x));
        assert(d.to_multiset() =~= s2.to_multiset().remove(x));
        lemma_seq_msum_permutation(d, s2.remove(k), g);
        lemma_seq_msum_remove(s2, g, k);
    }
}

/// What a transfer adds to the net balance of pair `(lo, hi)`.
pub open spec fn pair_part(lo: Pubkey, hi: Pubkey) -> spec_fn(TransferSpec) -> int {
    |t: TransferSpec| if ordered_pair(t.0, t.1) == (lo, hi) { signed_amount(t.0, t.1, t.2) } else { 0 }
}

/// Some transfer of `ts` is between the accounts of pair `(lo, hi)`.
pub open spec fn touches(ts: Seq<TransferSpec>, lo: Pubkey, hi: Pubkey) -> bool {
    exists|i: int| 0 <= i < ts.len() && #[trigger] ordered_pair(ts[i].0, ts[i].1) == (lo, hi)
}

proof fn lemma_untouched_sum(ts: Seq<TransferSpec>, lo: Pubkey, hi: Pubkey)
    requires
        !touches(ts, lo, hi),
    ensures
        seq_sum(ts, pair_part(lo, hi)) == 0,
    decreases ts.len(),
{
    if ts.len() > 0 {
        let d = ts.drop_last();
        assert(!touches(d, lo, hi)) by {
            if touches(d, lo, hi) {
                let i = choose|i: int| 0 <= i < d.len() && #[trigger] ordered_pair(d[i].0, d[i].1) == (lo, hi);
                assert(ts[i] == d[i]);
                assert(ordered_pair(ts[i].0, ts[i].1) == (lo, hi));
            }
        }
        lemma_untouched_sum(d, lo, hi);
        assert(ordered_pair(ts[ts.len() - 1].0, ts[ts.len() - 1].1) != (lo, hi));
    }
}

/// The table built from an empty one holds one entry per pair the
/// transfers touch, with the pair's net sum as value.
proof fn lemma_table_from_transfers(ts: Seq<TransferSpec>)
    requires
        balances_fit(Seq::empty(), ts),
    ensures
        pairs_distinct(apply_transfers(Seq::empty(), ts)),
        forall|k: int|
            0 <= k < apply_transfers(Seq::empty(), ts).len() ==> {
                let e = #[trigger] apply_transfers(Seq::empty(), ts)[k];
                &&& e.2 as int == seq_sum(ts, pair_part(e.0, e.1))
                &&& touches(ts, e.0, e.1)
            },
        forall|lo: Pubkey, hi: Pubkey|
            #[trigger] touches(ts, lo, hi) ==> exists|k: int|
                0 <= k < apply_transfers(Seq::empty(), ts).len() && (#[trigger] apply_transfers(Seq::empty(), ts)[k]).0 == lo
                    && apply_transfers(Seq::empty(), ts)[k].1 == hi,
    decreases ts.len(),
{
    let s = apply_transfers(Seq::empty(), ts);
    if ts.len() == 0 {
        assert forall|lo: Pubkey, hi: Pubkey| #[trigger] touches(ts, lo, hi) implies false by {}
    } else {
        let d = ts.drop_last();
        let t = ts.last();
        let sd = apply_transfers(Seq::empty(), d);
        lemma_table_from_transfers(d);
        let (lo, hi) = ordered_pair(t.0, t.1);
        lemma_pair_index(sd, lo, hi);
        lemma_apply_keeps_distinct(sd, t);
        let i = pair_index(sd, lo, hi);
        let n = ts.len() - 1;
        assert(ts[n] == t);
        assert(touches(ts, lo, hi));
        assert(seq_sum(ts, pair_part(lo, hi)) == seq_sum(d, pair_part(lo, hi)) + signed_amount(t.0, t.1, t.2));
        if i < 0 {
            assert(!touches(d, lo, hi));
            lemma_untouched_sum(d, lo, hi);
        } else {
            assert(sd[i].0 == lo && sd[i].1 == hi);
        }
        assert forall|k: int| 0 <= k < s.len() implies {
            let e = #[trigger] s[k];
            &&& e.2 as int == seq_sum(ts, pair_part(e.0, e.1))
            &&& touches(ts, e.0, e.1)
        } by {
            let e = s[k];
            if (i >= 0 && k == i) || (i < 0 && k == sd.len()) {
                assert(e.0 == lo && e.1 == hi);
            } else {
                assert(e == sd[k]);
                assert(ordered_pair(t.0, t.1) != (e.0, e.1));
                let j = choose|j: int| 0 <= j < d.len() && #[trigger] ordered_pair(d[j].0, d[j].1) == (e.0, e.1);
                assert(ts[j] == d[j]);
                assert(ordered_pair(ts[j].0, ts[j].1) == (e.0, e.1));
            }
        }
        assert forall|a: Pubkey, b: Pubkey| #[trigger] touches(ts, a, b) implies exists|k: int|
            0 <= k < s.len() && (#[trigger] s[k]).0 == a && s[k].1 == b by {
            if (a, b) == (lo, hi) {
                if i >= 0 {
                    assert(s[i].0 == a && s[i].1 == b);
                } else {
                    assert(s[sd.len() as int].0 == a && s[sd.len() as int].1 == b);
                }
            } else {
                let j = choose|j: int| 0 <= j < ts.len() && #[trigger] ordered_pair(ts[j].0, ts[j].1) == (a, b);
                assert(j != n);
                assert(d[j] == ts[j]);
                assert(touches(d, a, b));
                let k = choose|k: int| 0 <= k < sd.len() && (#[trigger] sd[k]).0 == a && sd[k].1 == b;
                assert(k != i);
                assert(s[k] == sd[k]);
            }
        }
    }
}

/// One settling transfer per entry with a non-zero balance.
pub open spec fn settling_part(e: (Pubkey, Pubkey, i128)) -> Multiset<TransferSpec> {
    if e.2 == 0 {
        Multiset::empty()
    } else {
        Multiset::singleton(settling_transfer(e))
    }
}

proof fn lemma_settling_msum(s: Seq<(Pubkey, Pubkey, i128)>)
    ensures
        settling_transfers(s).to_multiset() == seq_msum(s, |e: (Pubkey, Pubkey, i128)| settling_part(e)),
    decreases s.len(),
{
    broadcast use vstd::seq_lib::group_to_multiset_ensures;
    broadcast use vstd::multiset::group_multiset_axioms;
    if s.len() == 0 {
        assert(settling_transfers(s).to_multiset() =~= Multiset::empty());
    } else {
        lemma_settling_msum(s.drop_last());
        let g = |e: (Pubkey, Pubkey, i128)| settling_part(e);
        assert(seq_msum(s, g) == seq_msum(s.drop_last(), g).add(settling_part(s.last())));
        if s.last().2 == 0 {
            assert(seq_msum(s, g) =~= seq_msum(s.drop_last(), g));
        } else {
            assert(settling_transfers(s).to_multiset() =~= settling_transfers(s.drop_last()).to_multiset().insert(settling_transfer(s.last())));
            assert(seq_msum(s, g) =~= seq_msum(s.drop_last(), g).insert(settling_transfer(s.last())));
        }
    }
}

/// The order of the transfers does not matter: bundling the same
/// transfers in any order settles with the same transfers, counted as a
/// multiset.
pub proof fn lemma_bundling_order_irrelevant(ts1: Seq<TransferSpec>, ts2: Seq<TransferSpec>)
    requires
        ts1.to_multiset() == ts2.to_multiset(),
        balances_fit(Seq::empty(), ts1),
        balances_fit(Seq::empty(), ts2),
    ensures
        settling_transfers(apply_transfers(Seq::empty(), ts1)).to_multiset() == settling_transfers(
            apply_transfers(Seq::empty(), ts2),
        ).to_multiset(),
{
    broadcast use vstd::seq_lib::group_to_multiset_ensures;
    broadcast use vstd::multiset::group_multiset_axioms;
    let s1 = apply_transfers(Seq::empty(), ts1);
    let s2 = apply_transfers(Seq::empty(), ts2);
    lemma_table_from_transfers(ts1);
    lemma_table_from_transfers(ts2);
    assert forall|a: Pubkey, b: Pubkey| #[trigger] touches(ts1, a, b) implies touches(ts2, a, b) by {
        let j = choose|j: int| 0 <= j < ts1.len() && #[trigger] ordered_pair(ts1[j].0, ts1[j].1) == (a, b);
        assert(ts1.contains(ts1[j]));
        assert(ts2.to_multiset().count(ts1[j]) > 0);
        assert(ts2.contains(ts1[j]));
        let k = choose|k: int| 0 <= k < ts2.len() && ts2[k] == ts1[j];
        assert(ordered_pair(ts2[k].0, ts2[k].1) == (a, b));
    }
    assert forall|a: Pubkey, b: Pubkey| #[trigger] touches(ts2, a, b) implies touches(ts1, a, b) by {
        let j = choose|j: int| 0 <= j < ts2.len() && #[trigger] ordered_pair(ts2[j].0, ts2[j].1) == (a, b);
        assert(ts2.contains(ts2[j]));
        assert(ts1.to_multiset().count(ts2[j]) > 0);
        assert(ts1.contains(ts2[j]));
        let k = choose|k: int| 0 <= k < ts1.len() && ts1[k] == ts2[j];
        assert(ordered_pair(ts1[k].0, ts1[k].1) == (a, b));
    }
    assert forall|e: (Pubkey, Pubkey, i128)| s1.contains(e) implies s2.contains(e) by {
        let k = choose|k: int| 0 <= k < s1.len() && s1[k] == e;
        assert(touches(ts1, e.0, e.1));
        assert(touches(ts2, e.0, e.1));
        let k2 = choose|k2: int| 0 <= k2 < s2.len() && (#[trigger] s2[k2]).0 == e.0 && s2[k2].1 == e.1;
        lemma_seq_sum_permutation(ts1, ts2, pair_part(e.0, e.1));
        assert(s2[k2] == e);
    }
    assert forall|e: (Pubkey, Pubkey, i128)| s2.contains(e) implies s1.contains(e) by {
        let k = choose|k: int| 0 <= k < s2.len() && s2[k] == e;
        assert(touches(ts2, e.0, e.1));
        assert(touches(ts1, e.0, e.1));
        let k1 = choose|k1: int| 0 <= k1 < s1.len() && (#[trigger] s1[k1]).0 == e.0 && s1[k1].1 == e.1;
        lemma_seq_sum_permutation(ts1, ts2, pair_part(e.0, e.1));
        assert(s1[k1] == e);
    }
    assert(s1.no_duplicates()) by {
        assert forall|i: int, j: int| 0 <= i < s1.len() && 0 <= j < s1.len() && i != j implies s1[i] != s1[j] by {
            if i < j {
                assert(!(s1[i].0 == s1[j].0 && s1[i].1 == s1[j].1));
            } else {
                assert(!(s1[j].0 == s1[i].0 && s1[j].1 == s1[i].1));
            }
        }
    }
    assert(s2.no_duplicates()) by {
        assert forall|i: int, j: int| 0 <= i < s2.len() && 0 <= j < s2.len() && i != j implies s2[i] != s2[j] by {
            if i < j {
                assert(!(s2[i].0 == s2[j].0 && s2[i].1 == s2[j].1));
            } else {
                assert(!(s2[j].0 == s2[i].0 && s2[j].1 == s2[i].1));
            }
        }
    }
    s1.lemma_multiset_has_no_duplicates();
    s2.lemma_multiset_has_no_duplicates();
    assert(s1.to_multiset() =~= s2.to_multiset()) by {
        assert forall|e: (Pubkey, Pubkey, i128)| s1.to_multiset().count(e) == s2.to_multiset().count(e) by {
            if s1.contains(e) {
                assert(s2.contains(e));
            } else {
                assert(!s2.contains(e));
            }
        }
    }
    lemma_settling_msum(s1);
    lemma_settling_msum(s2);
    lemma_seq_msum_permutation(s1, s2, |e: (Pubkey, Pubkey, i128)| settling_part(e));
}

proof fn lemma_all_transfers_msum(txs: Seq<TransactionView>)
    ensures
        all_transfers(txs).to_multiset() == seq_msum(txs, |tx: TransactionView| transaction_transfers(tx).to_multiset()),
    decreases txs.len(),
{
    broadcast use vstd::seq_lib::group_to_multiset_ensures;
    if txs.len() == 0 {
        assert(all_transfers(txs).to_multiset() =~= Multiset::empty());
    } else {
        lemma_all_transfers_msum(txs.drop_last());
        vstd::seq_lib::lemma_multiset_commutative(all_transfers(txs.drop_last()), transaction_transfers(txs.last()));
    }
}

/// Bundling the same transactions in any order settles with the same
/// transfers, counted as a multiset.
pub proof fn lemma_transaction_order_irrelevant(txs1: Seq<TransactionView>, txs2: Seq<TransactionView>)
    requires
        txs1.to_multiset() == txs2.to_multiset(),
        balances_fit(Seq::empty(), all_transfers(txs1)),
        balances_fit(Seq::empty(), all_transfers(txs2)),
    ensures
        settling_transfers(bundled(Seq::empty(), txs1)).to_multiset() == settling_transfers(
            bundled(Seq::empty(), txs2),
        ).to_multiset(),
{
    lemma_all_transfers_msum(txs1);
    lemma_all_transfers_msum(txs2);
    lemma_seq_msum_permutation(txs1, txs2, |tx: TransactionView| transaction_transfers(tx).to_multiset());
    lemma_bundled_is_all_transfers(Seq::empty(), txs1);
    lemma_bundled_is_all_transfers(Seq::empty(), txs2);
    lemma_bundling_order_irrelevant(all_transfers(txs1), all_transfers(txs2));
}

/// Two bundlers given the same transactions, in any order, settle with
/// the same transfers, counted as a multiset.
pub proof fn lemma_bundlers_settle_alike(b1: &TransferBundler, b2: &TransferBundler)
    requires
        b1.wf(),
        b2.wf(),
        b1.bundled_transactions().to_multiset() == b2.bundled_transactions().to_multiset(),
    ensures
        settling_transfers(b1@).to_multiset() == settling_transfers(b2@).to_multiset(),
{
    lemma_transaction_order_irrelevant(b1.bundled_transactions(), b2.bundled_transactions());
}

/// Whether a compiled instruction is a system-program transfer, as a predicate.
pub open spec fn is_transfer_in(keys: Seq<Pubkey>) -> spec_fn(CompiledInstructionView) -> bool {
    |ix: CompiledInstructionView| is_transfer_spec(ix, keys)
}

/// The transfer a compiled system-program transfer makes: its first two
/// accounts, by key, and the little-endian `u64` after the four-byte tag.
pub open spec fn compiled_transfer(keys: Seq<Pubkey>) -> spec_fn(CompiledInstructionView) -> TransferSpec {
    |ix: CompiledInstructionView| (keys[ix.accounts[0] as int], keys[ix.accounts[1] as int], le_value(ix.data.subrange(4, 12)) as int)
}

/// The transfers of a list of instructions are one per transfer
/// instruction, in their order: the instructions that are transfers, each
/// read as (payer, recipient, amount).
pub proof fn lemma_transfers_are_transfer_instructions(ixs: Seq<CompiledInstructionView>, keys: Seq<Pubkey>)
    ensures
        transfers_of(ixs, keys) == ixs.filter(is_transfer_in(keys)).map_values(compiled_transfer(keys)),
        transfers_of(ixs, keys).len() == ixs.filter(is_transfer_in(keys)).len(),
    decreases ixs.len(),
{
    reveal(Seq::filter);
    if ixs.len() > 0 {
        lemma_transfers_are_transfer_instructions(ixs.drop_last(), keys);
        let prev = ixs.drop_last().filter(is_transfer_in(keys));
        if is_transfer_spec(ixs.last(), keys) {
            assert(prev.push(ixs.last()).map_values(compiled_transfer(keys)) =~= prev.map_values(compiled_transfer(keys)).push(
                compiled_transfer(keys)(ixs.last()),
            ));
        }
    }
}

/// Bundling one transaction nets exactly the transfer instructions it
/// holds, each once and in order.
pub proof fn lemma_bundle_nets_every_transfer(tx: TransactionView)
    ensures
        transaction_transfers(tx) == tx.message.instructions.filter(is_transfer_in(tx.message.account_keys)).map_values(
            compiled_transfer(tx.message.account_keys),
        ),
{
    lemma_transfers_are_transfer_instructions(tx.message.instructions, tx.message.account_keys);
}

/// Parsing the instruction the system program's `transfer` builds gives
/// back its payer, recipient and full amount.
pub proof fn lemma_parse_transfer_roundtrip(from: Pubkey, to: Pubkey, lamports: u64)
    ensures
        parse_instruction_spec(transfer_instruction(from, to, lamports)) == Some((from, to, lamports as i128)),
{
    let ix = transfer_instruction(from, to, lamports);
    lemma_pow256_8();
    lemma_le_roundtrip(lamports as nat, 8);
    lemma_le_bytes_len(lamports as nat, 8);
    assert(ix.data.subrange(4, 12) =~= u64_le(lamports));
}

/// A parsed plain instruction carries the full little-endian `u64` after
/// the tag, and its first two accounts.
pub proof fn lemma_parse_instruction_amount(ix: InstructionView)
    ensures
        parse_instruction_spec(ix) matches Some(t) ==> {
            &&& t.0 == ix.accounts[0].pubkey
            &&& t.1 == ix.accounts[1].pubkey
            &&& t.2 == le_value(ix.data.subrange(4, 12))
        },
{
    lemma_pow256_8();
    lemma_le_value_bound(ix.data.subrange(4, 12));
}

/// A parsed compiled instruction carries the full little-endian `u64`
/// after the tag, and the keys of its first two accounts.
pub proof fn lemma_parse_compiled_amount(ix: CompiledInstructionView, keys: Seq<Pubkey>)
    ensures
        parse_compiled_spec(ix, keys) matches Some(t) ==> t == (
            keys[ix.accounts[0] as int],
            keys[ix.accounts[1] as int],
            le_value(ix.data.subrange(4, 12)) as i128,
        ) && t.2 == le_value(ix.data.subrange(4, 12)),
{
    lemma_pow256_8();
    lemma_le_value_bound(ix.data.subrange(4, 12));
}

/// A settlement instruction pays its transfer's full amount: its data
/// holds the amount as a little-endian `u64`, and parsing it gives the
/// transfer back.
pub proof fn lemma_settling_instruction_parses(t: TransferSpec)
    requires
        0 <= t.2 <= u64::MAX,
    ensures
        le_value(settling_instruction(t).data.subrange(4, 12)) == t.2,
        parse_instruction_spec(settling_instruction(t)) == Some((t.0, t.1, t.2 as i128)),
{
    let v = t.2 as u64;
    lemma_parse_transfer_roundtrip(t.0, t.1, v);
    lemma_pow256_8();
    lemma_le_roundtrip(v as nat, 8);
    lemma_le_bytes_len(v as nat, 8);
    assert(settling_instruction(t).data.subrange(4, 12) =~= u64_le(v));
}

/// When every net balance is at most `u64::MAX` in size, each settlement
/// instruction `generate_final` makes parses back to its settling transfer:
/// the payer, the recipient and the whole net amount.
pub proof fn lemma_settlement_pays_full_amounts(b: &TransferBundler)
    requires
        b.wf(),
        forall|k: int| 0 <= k < b@.len() ==> -(u64::MAX as int) <= #[trigger] b@[k].2 <= u64::MAX,
    ensures
        forall|k: int|
            0 <= k < settling_transfers(b@).len() ==> parse_instruction_spec(
                settling_instruction(#[trigger] settling_transfers(b@)[k]),
            ) == Some((settling_transfers(b@)[k].0, settling_transfers(b@)[k].1, settling_transfers(b@)[k].2 as i128)),
{
    lemma_settling_amounts_exact(b@);
    lemma_settlement_matches_balances(b@, arbitrary());
    assert forall|k: int| 0 <= k < settling_transfers(b@).len() implies parse_instruction_spec(
        settling_instruction(#[trigger] settling_transfers(b@)[k]),
    ) == Some((settling_transfers(b@)[k].0, settling_transfers(b@)[k].1, settling_transfers(b@)[k].2 as i128)) by {
        lemma_settling_instruction_parses(settling_transfers(b@)[k]);
    }
}

/// A compiled instruction that calls the system program with the data of
/// a `transfer` is taken for a transfer, and one whose data does not start
/// with the `Transfer` tag 2 is not.
pub proof fn lemma_transfer_recognized(ix: CompiledInstructionView, keys: Seq<Pubkey>, from: Pubkey, to: Pubkey, lamports: u64)
    requires
        (ix.program_id_index as int) < keys.len(),
        keys[ix.program_id_index as int] == system_program_key(),
    ensures
        ix.data == transfer_instruction(from, to, lamports).data ==> is_transfer_spec(ix, keys),
        ix.data.len() > 0 && ix.data[0] != 2 ==> !is_transfer_spec(ix, keys),
{
    lemma_le_bytes_len(lamports as nat, 8);
}

} // verus!
