//! The delegation service: the signers it acts for, a cache of the
//! delegation accounts it has seen on chain, and the signed delegation and
//! withdrawal transactions it prepares.

use vstd::prelude::*;
use crate::bytes::{Hash32, Keypair, Pubkey, keypair_pubkey};
use crate::delegation::{
    DelegatedAccount, create_delegation_instruction, delegated_account_bytes, lemma_delegated_account_roundtrip, lemma_delegated_bytes_nonempty, create_topup_instruction, create_withdrawal_instruction,
    decode_delegated_account, delegation_instruction, delegation_pda, delegation_program_key, discriminator,
    find_delegation_pda, try_find_delegation_pda, try_get_delegation_program_id,
};
use crate::keymap::KeyMap;
use crate::client::sign_as_payer;
use crate::codec::lemma_le_bytes_len;
use crate::sdk::{base58_text, only_signer, pubkey_text, signed_transaction};
use crate::types::{Account, InstructionView};

verus! {

/// Why a delegation transaction could not be prepared.
pub enum DelegationError {
    /// The program's address does not parse, or no delegation account
    /// address exists for the owner.
    NoProgramAddress,
    /// No signer is registered for this owner.
    NoDelegationSigner(Pubkey),
}

impl DelegationError {
    /// The error's text; a missing signer is named in base58.
    pub fn to_string(&self) -> (r: String)
        ensures
            match self {
                DelegationError::NoProgramAddress => r@ == "No delegation address found"@,
                DelegationError::NoDelegationSigner(user) => r@ == "No delegation signer found for "@ + base58_text(*user),
            },
    {
        match self {
            DelegationError::NoProgramAddress => String::from_str("No delegation address found"),
            DelegationError::NoDelegationSigner(user) => {
                let text = pubkey_text(user);
                String::from_str("No delegation signer found for ").concat(text.as_str())
            },
        }
    }
}

/// The delegation state decoded from a fetched delegation account: its
/// data past the eight-byte tag, when that decodes.
pub open spec fn fetched_delegation(fetched: Option<Account>) -> Option<DelegatedAccount> {
    match fetched {
        Some(acc) => if acc.data@.len() > 8 {
            decode_delegated_account(acc.data@.subrange(8, acc.data@.len() as int))
        } else {
            None
        },
        None => None,
    }
}

/// The cache after a fetch of delegation account `pda`: a decodable
/// account is stored, a missing one is dropped, anything else leaves the
/// cache as it was.
pub open spec fn cache_after_fetch(cache: Map<Pubkey, Account>, pda: Pubkey, fetched: Option<Account>) -> Map<Pubkey, Account> {
    match fetched {
        Some(acc) => if fetched_delegation(fetched) is Some {
            cache.insert(pda, acc)
        } else {
            cache
        },
        None => cache.remove(pda),
    }
}

/// The instruction a delegation request turns into: a top-up when the
/// owner's delegation account already exists, an opening otherwise.
pub open spec fn delegation_request_instruction(user: Pubkey, amount: u64, existing: bool) -> InstructionView {
    delegation_instruction(
        delegation_program_key()->0,
        user,
        (delegation_pda(user)->0).0,
        if existing {
            discriminator("global:top_up"@)
        } else {
            discriminator("global:initialize_delegate"@)
        },
        amount,
    )
}

/// Signing succeeded, with the bytes of the transaction that carries
/// `ix`, paid for and signed by `signer` with `blockhash`.
pub open spec fn signing_outcome(ix: InstructionView, signer: Keypair, blockhash: Hash32, r: Result<Vec<u8>, DelegationError>) -> bool {
    r is Ok && signed_transaction(ix, signer@, blockhash) == Some(r->Ok_0@)
}

/// Prepares delegation transactions for the owners whose keypairs it holds.
pub struct DelegationService {
    pda_cache: KeyMap<Account>,
    signers: KeyMap<Keypair>,
    first_signer: Ghost<Keypair>,
    added_signers: Ghost<Seq<Keypair>>,
}

impl DelegationService {
    pub closed spec fn wf(&self) -> bool {
        &&& self.pda_cache.wf()
        &&& self.signers.wf()
        &&& forall|k: Pubkey| #[trigger] self.signers@.dom().contains(k) ==> keypair_pubkey(self.signers@[k]@) == k@
        &&& self.signers@ == signers_after(self.first_signer@, self.added_signers@)
    }

    /// The keypair the service was made with.
    pub closed spec fn initial_signer(&self) -> Keypair {
        self.first_signer@
    }

    /// The keypairs given to `add_signer` since, in order.
    pub closed spec fn added_signers(&self) -> Seq<Keypair> {
        self.added_signers@
    }

    /// Delegation accounts seen on chain, by address.
    pub closed spec fn pda_cache(&self) -> Map<Pubkey, Account> {
        self.pda_cache@
    }

    /// Registered signers, by public key.
    pub closed spec fn signers(&self) -> Map<Pubkey, Keypair> {
        self.signers@
    }

    /// A service that signs for `initial_signer`.
    pub fn new(initial_signer: Keypair) -> (r: Self)
        ensures
            r.wf(),
            r.pda_cache() == Map::<Pubkey, Account>::empty(),
            r.signers() == Map::<Pubkey, Keypair>::empty().insert(initial_signer.pubkey_spec(), initial_signer),
            r.initial_signer() == initial_signer,
            r.added_signers() == Seq::<Keypair>::empty(),
    {
        let ghost first = initial_signer;
        let mut signers = KeyMap::new();
        let k = initial_signer.pubkey();
        signers.insert(k, initial_signer);
        proof {
            assert(k =~= initial_signer.pubkey_spec());
        }
        DelegationService { pda_cache: KeyMap::new(), signers, first_signer: Ghost(first), added_signers: Ghost(Seq::empty()) }
    }

    /// Registers `signer` under its public key.
    pub fn add_signer(&mut self, signer: Keypair)
        requires
            old(self).wf(),
        ensures
            final(self).wf(),
            final(self).signers() == old(self).signers().insert(signer.pubkey_spec(), signer),
            final(self).pda_cache() == old(self).pda_cache(),
            final(self).initial_signer() == old(self).initial_signer(),
            final(self).added_signers() == old(self).added_signers().push(signer),
    {
        let k = signer.pubkey();
        let ghost added = self.added_signers@.push(signer);
        proof {
            assert(k =~= signer.pubkey_spec());
            assert(added.drop_last() =~= self.added_signers@);
        }
        self.signers.insert(k, signer);
        proof {
            self.added_signers@ = added;
        }
    }

    /// Takes in what was fetched from chain for `user`'s delegation
    /// account (`None` when the fetch failed), updates the cache, and
    /// returns the account's address and decoded state when it decodes.
    pub fn get_or_fetch_pda(&mut self, user: &Pubkey, fetched: Option<Account>) -> (r: Option<(Pubkey, DelegatedAccount)>)
        requires
            old(self).wf(),
            delegation_pda(*user) is Some,
        ensures
            final(self).wf(),
            final(self).signers() == old(self).signers(),
            final(self).pda_cache() == cache_after_fetch(old(self).pda_cache(), (delegation_pda(*user)->0).0, fetched),
            match fetched_delegation(fetched) {
                Some(d) => r == Some(((delegation_pda(*user)->0).0, d)),
                None => r is None,
            },
    {
        let (pda, _) = find_delegation_pda(user);
        match fetched {
            Some(account) => {
                if account.data.len() > 8 {
                    let tail = slice_from(&account.data, 8);
                    match DelegatedAccount::try_from_slice(tail.as_slice()) {
                        Some(delegation) => {
                            self.pda_cache.insert(pda, account);
                            Some((pda, delegation))
                        },
                        None => None,
                    }
                } else {
                    None
                }
            },
            None => {
                self.pda_cache.remove(&pda);
                None
            },
        }
    }

    /// The signed transaction that delegates `amount` lamports for
    /// `user`: a top-up when the fetched delegation account decodes, an
    /// opening otherwise, signed by `user`'s registered keypair with
    /// `recent_blockhash`.
    pub fn create_delegation_transaction(
        &mut self,
        user: &Pubkey,
        amount: u64,
        fetched: Option<Account>,
        recent_blockhash: &Hash32,
    ) -> (r: Result<Vec<u8>, DelegationError>)
        requires
            old(self).wf(),
        ensures
            final(self).wf(),
            final(self).signers() == old(self).signers(),
            delegation_pda(*user) is None ==> r is Err && r->Err_0 is NoProgramAddress && final(self).pda_cache() == old(self).pda_cache(),
            delegation_pda(*user) is Some ==> {
                &&& final(self).pda_cache() == cache_after_fetch(old(self).pda_cache(), (delegation_pda(*user)->0).0, fetched)
                &&& !old(self).signers().dom().contains(*user) ==> r is Err && r->Err_0 == DelegationError::NoDelegationSigner(*user)
                &&& old(self).signers().dom().contains(*user) ==> signing_outcome(
                    delegation_request_instruction(*user, amount, fetched_delegation(fetched) is Some),
                    old(self).signers()[*user],
                    *recent_blockhash,
                    r,
                )
            },
    {
        if try_find_delegation_pda(user).is_none() {
            return Err(DelegationError::NoProgramAddress);
        }
        let has_existing = self.get_or_fetch_pda(user, fetched).is_some();
        let signer = match self.signers.get(user) {
            Some(s) => s,
            None => {
                return Err(DelegationError::NoDelegationSigner(*user));
            },
        };
        let instruction = if has_existing {
            create_topup_instruction(user, amount)
        } else {
            create_delegation_instruction(user, amount)
        };
        proof {
            lemma_le_bytes_len(amount as nat, 8);
            assert(only_signer(instruction@, keypair_pubkey(signer@)));
        }
        Ok(sign_as_payer(&instruction, signer, recent_blockhash))
    }

    /// Stores `account` as the cached state of delegation account `pda`.
    pub fn update_pda_state(&mut self, pda: Pubkey, account: Account)
        requires
            old(self).wf(),
        ensures
            final(self).wf(),
            final(self).pda_cache() == old(self).pda_cache().insert(pda, account),
            final(self).signers() == old(self).signers(),
    {
        self.pda_cache.insert(pda, account);
    }

    /// The signed transaction that withdraws `amount` lamports from
    /// delegation account `pda` to `owner`, signed by `owner`'s registered
    /// keypair with `recent_blockhash`.
    pub fn create_withdrawal_transaction(
        &self,
        pda: &Pubkey,
        owner: &Pubkey,
        amount: u64,
        recent_blockhash: &Hash32,
    ) -> (r: Result<Vec<u8>, DelegationError>)
        requires
            self.wf(),
        ensures
            delegation_program_key() is None ==> r is Err && r->Err_0 is NoProgramAddress,
            delegation_program_key() is Some ==> {
                &&& !self.signers().dom().contains(*owner) ==> r is Err && r->Err_0 == DelegationError::NoDelegationSigner(*owner)
                &&& self.signers().dom().contains(*owner) ==> signing_outcome(
                    delegation_instruction(delegation_program_key()->0, *owner, *pda, discriminator("global:withdraw"@), amount),
                    self.signers()[*owner],
                    *recent_blockhash,
                    r,
                )
            },
    {
        if try_get_delegation_program_id().is_none() {
            return Err(DelegationError::NoProgramAddress);
        }
        let instruction = create_withdrawal_instruction(pda, owner, amount);
        let signer = match self.signers.get(owner) {
            Some(s) => s,
            None => {
                return Err(DelegationError::NoDelegationSigner(*owner));
            },
        };
        proof {
            lemma_le_bytes_len(amount as nat, 8);
            assert(only_signer(instruction@, keypair_pubkey(signer@)));
        }
        Ok(sign_as_payer(&instruction, signer, recent_blockhash))
    }

    /// The keypair registered for `user`, if any; its public key is `user`.
    pub fn get_keypair(&self, user: &Pubkey) -> (r: Option<&Keypair>)
        requires
            self.wf(),
        ensures
            match r {
                Some(k) => self.signers().dom().contains(*user) && *k == self.signers()[*user] && keypair_pubkey(k@) == user@,
                None => !self.signers().dom().contains(*user),
            },
    {
        self.signers.get(user)
    }
}

/// The bytes of `v` from position `start` on.
fn slice_from(v: &Vec<u8>, start: usize) -> (r: Vec<u8>)
    requires
        start <= v@.len(),
    ensures
        r@ == v@.subrange(start as int, v@.len() as int),
{
    let mut out: Vec<u8> = Vec::new();
    let mut i: usize = start;
    while i < v.len()
        invariant
            start <= i <= v@.len(),
            out@ == v@.subrange(start as int, i as int),
        decreases v@.len() - i,
    {
        out.push(v[i]);
        i = i + 1;
        assert(out@ =~= v@.subrange(start as int, i as int));
    }
    out
}

/// The signers of a service made with `first` and then given `added`, in order.
pub open spec fn signers_after(first: Keypair, added: Seq<Keypair>) -> Map<Pubkey, Keypair>
    decreases added.len(),
{
    if added.len() == 0 {
        Map::empty().insert(first.pubkey_spec(), first)
    } else {
        signers_after(first, added.drop_last()).insert(added.last().pubkey_spec(), added.last())
    }
}

/// After `new(first)` and `add_signer` of each of `added`, a keypair is
/// registered for `user` exactly when `user` is the public key of `first`
/// or of one of `added`; the registered keypair has `user` as its public
/// key, and a keypair just added replaces any earlier one for its key.
pub proof fn lemma_registered_signers(first: Keypair, added: Seq<Keypair>, user: Pubkey)
    ensures
        signers_after(first, added).dom().contains(user) <==> (user == first.pubkey_spec() || exists|i: int|
            0 <= i < added.len() && (#[trigger] added[i]).pubkey_spec() == user),
        signers_after(first, added).dom().contains(user) ==> signers_after(first, added)[user].pubkey_spec() == user,
        added.len() > 0 && added.last().pubkey_spec() == user ==> signers_after(first, added)[user] == added.last(),
    decreases added.len(),
{
    if added.len() > 0 {
        let d = added.drop_last();
        lemma_registered_signers(first, d, user);
        assert forall|i: int| 0 <= i < d.len() && (#[trigger] d[i]).pubkey_spec() == user implies exists|k: int|
            0 <= k < added.len() && (#[trigger] added[k]).pubkey_spec() == user by {
            assert(added[i] == d[i]);
        }
        if exists|i: int| 0 <= i < added.len() && (#[trigger] added[i]).pubkey_spec() == user {
            let w = choose|i: int| 0 <= i < added.len() && (#[trigger] added[i]).pubkey_spec() == user;
            if w < added.len() - 1 {
                assert(d[w] == added[w]);
            }
        }
    }
}

/// For a service made with `new` and given keypairs through
/// `add_signer`, a keypair is registered for `user` exactly when `user` is
/// the public key of the first keypair or of one added; the registered
/// keypair has `user` as its public key, and the one added last replaces
/// any earlier one for its key.
pub proof fn lemma_service_signers(service: &DelegationService, user: Pubkey)
    requires
        service.wf(),
    ensures
        service.signers().dom().contains(user) <==> (user == service.initial_signer().pubkey_spec() || exists|i: int|
            0 <= i < service.added_signers().len() && (#[trigger] service.added_signers()[i]).pubkey_spec() == user),
        service.signers().dom().contains(user) ==> service.signers()[user].pubkey_spec() == user,
        service.added_signers().len() > 0 && service.added_signers().last().pubkey_spec() == user
            ==> service.signers()[user] == service.added_signers().last(),
{
    lemma_registered_signers(service.initial_signer(), service.added_signers(), user);
}

/// A fetched delegation account is read whatever it holds: when its data
/// is an eight-byte tag followed by the encoding of a delegation state,
/// that state is what the fetch yields, the account goes into the cache,
/// and a delegation request for the owner becomes a top-up.
pub proof fn lemma_fetched_delegation_decodes(acc: Account, tag: Seq<u8>, d: DelegatedAccount, pda: Pubkey, cache: Map<Pubkey, Account>)
    requires
        tag.len() == 8,
        acc.data@ == tag + delegated_account_bytes(d),
    ensures
        fetched_delegation(Some(acc)) == Some(d),
        cache_after_fetch(cache, pda, Some(acc)) == cache.insert(pda, acc),
        forall|user: Pubkey, amount: u64|
            #[trigger] delegation_request_instruction(user, amount, fetched_delegation(Some(acc)) is Some)
                == delegation_request_instruction(user, amount, true),
{
    lemma_delegated_account_roundtrip(d);
    lemma_delegated_bytes_nonempty(d);
    assert(acc.data@.subrange(8, acc.data@.len() as int) =~= delegated_account_bytes(d));
}

} // verus!
