//! Byte-level helpers: 32-byte keys, their lexicographic order, and
//! little-endian integer encoding.

use vstd::prelude::*;
use crate::sdk::{keypair_accepted, keypair_bytes_accepted};

verus! {

/// A 32-byte account address.
pub type Pubkey = [u8; 32];

/// A 32-byte hash (block hash, transaction id).
pub type Hash32 = [u8; 32];

/// Strict lexicographic order on byte strings of equal length.
pub open spec fn bytes_lt(a: Seq<u8>, b: Seq<u8>) -> bool {
    exists|i: int|
        0 <= i < a.len() && i < b.len() && a[i] < b[i] && (forall|j: int| 0 <= j < i ==> a[j] == b[j])
}

/// The order is asymmetric.
pub proof fn lemma_bytes_lt_asymmetric(a: Seq<u8>, b: Seq<u8>)
    ensures
        !(bytes_lt(a, b) && bytes_lt(b, a)),
{
    if bytes_lt(a, b) && bytes_lt(b, a) {
        let i = choose|i: int|
            0 <= i < a.len() && i < b.len() && a[i] < b[i] && (forall|j: int| 0 <= j < i ==> a[j] == b[j]);
        let k = choose|k: int|
            0 <= k < b.len() && k < a.len() && b[k] < a[k] && (forall|j: int| 0 <= j < k ==> b[j] == a[j]);
        if i < k {
            assert(b[i] == a[i]);
        } else if k < i {
            assert(a[k] == b[k]);
        }
    }
}

/// The order is total on byte strings of equal length.
pub proof fn lemma_bytes_lt_total(a: Seq<u8>, b: Seq<u8>)
    requires
        a.len() == b.len(),
        a != b,
    ensures
        bytes_lt(a, b) || bytes_lt(b, a),
    decreases a.len(),
{
    if a.len() == 0 {
        assert(a =~= b);
    } else if a[0] != b[0] {
        if a[0] < b[0] {
            assert(0 <= 0 < a.len() && a[0] < b[0] && (forall|j: int| 0 <= j < 0 ==> a[j] == b[j]));
        } else {
            assert(0 <= 0 < b.len() && b[0] < a[0] && (forall|j: int| 0 <= j < 0 ==> b[j] == a[j]));
        }
    } else {
        let a1 = a.drop_first();
        let b1 = b.drop_first();
        if a1 == b1 {
            assert(a =~= b) by {
                assert forall|j: int| 0 <= j < a.len() implies a[j] == b[j] by {
                    if j > 0 {
                        assert(a1[j - 1] == b1[j - 1]);
                    }
                }
            }
        }
        lemma_bytes_lt_total(a1, b1);
        if bytes_lt(a1, b1) {
            let i = choose|i: int|
                0 <= i < a1.len() && i < b1.len() && a1[i] < b1[i] && (forall|j: int| 0 <= j < i ==> a1[j] == b1[j]);
            assert forall|j: int| 0 <= j < i + 1 implies a[j] == b[j] by {
                if j > 0 {
                    assert(a1[j - 1] == b1[j - 1]);
                }
            }
            assert(a[i + 1] < b[i + 1]);
        } else {
            let i = choose|i: int|
                0 <= i < b1.len() && i < a1.len() && b1[i] < a1[i] && (forall|j: int| 0 <= j < i ==> b1[j] == a1[j]);
            assert forall|j: int| 0 <= j < i + 1 implies b[j] == a[j] by {
                if j > 0 {
                    assert(b1[j - 1] == a1[j - 1]);
                }
            }
            assert(b[i + 1] < a[i + 1]);
        }
    }
}

/// Compares two keys byte by byte.
pub fn key_eq(a: &Pubkey, b: &Pubkey) -> (r: bool)
    ensures
        r == (a@ == b@),
        r == (*a == *b),
{
    let mut i: usize = 0;
    while i < 32
        invariant
            0 <= i <= 32,
            a@.len() == 32,
            b@.len() == 32,
            forall|j: int| 0 <= j < i ==> a@[j] == b@[j],
        decreases 32 - i,
    {
        if a[i] != b[i] {
            return false;
        }
        i = i + 1;
    }
    assert(a@ =~= b@);
    assert(*a =~= *b);
    true
}

/// Is `a` ordered strictly before `b`?
pub fn key_lt(a: &Pubkey, b: &Pubkey) -> (r: bool)
    ensures
        r == bytes_lt(a@, b@),
{
    let mut i: usize = 0;
    while i < 32
        invariant
            0 <= i <= 32,
            a@.len() == 32,
            b@.len() == 32,
            forall|j: int| 0 <= j < i ==> a@[j] == b@[j],
        decreases 32 - i,
    {
        if a[i] != b[i] {
            if a[i] < b[i] {
                assert(0 <= i < a@.len() && a@[i as int] < b@[i as int]);
                return true;
            } else {
                assert forall|k: int|
                    !(0 <= k < a@.len() && k < b@.len() && a@[k] < b@[k] && (forall|j: int|
                        0 <= j < k ==> a@[j] == b@[j])) by {
                    if 0 <= k < a@.len() && k < b@.len() && a@[k] < b@[k] && (forall|j: int|
                        0 <= j < k ==> a@[j] == b@[j]) {
                        if k < i {
                        } else if k > i {
                            assert(a@[i as int] == b@[i as int]);
                        }
                    }
                }
                return false;
            }
        }
        i = i + 1;
    }
    false
}

} // verus!

verus! {

/// An ed25519 keypair as its 64 bytes: the secret key, then the public
/// key derived from it.
pub struct Keypair {
    bytes: [u8; 64],
}

impl Keypair {
    /// Only bytes the SDK accepts as a keypair make one.
    #[verifier::type_invariant]
    pub open spec fn accepted(self) -> bool {
        keypair_accepted(self@)
    }
}

impl View for Keypair {
    type V = Seq<u8>;

    closed spec fn view(&self) -> Seq<u8> {
        self.bytes@
    }
}

/// The public half of keypair bytes.
pub open spec fn keypair_pubkey(bytes: Seq<u8>) -> Seq<u8> {
    bytes.subrange(32, 64)
}

impl Keypair {
    /// The keypair with these 64 bytes, or `None` when they are not a
    /// keypair: the public half is not the key derived from the secret half.
    pub fn from_array(bytes: [u8; 64]) -> (r: Option<Keypair>)
        ensures
            r is Some <==> keypair_accepted(bytes@),
            r matches Some(k) ==> k@ == bytes@,
    {
        if keypair_bytes_accepted(&bytes) {
            Some(Keypair { bytes })
        } else {
            None
        }
    }

    /// The keypair's 64 bytes.
    pub fn to_bytes(&self) -> (r: [u8; 64])
        ensures
            r@ == self@,
    {
        self.bytes
    }

    /// The public key as a key value.
    pub closed spec fn pubkey_spec(&self) -> Pubkey {
        choose|k: Pubkey| k@ == keypair_pubkey(self@)
    }

    /// The keypair's public key, the last 32 of its bytes.
    pub fn pubkey(&self) -> (r: Pubkey)
        ensures
            r@ == keypair_pubkey(self@),
            r == self.pubkey_spec(),
    {
        let mut out: Pubkey = [0u8; 32];
        let mut i: usize = 0;
        while i < 32
            invariant
                0 <= i <= 32,
                self@.len() == 64,
                forall|j: int| 0 <= j < i ==> out@[j] == self@[32 + j],
            decreases 32 - i,
        {
            out[i] = self.bytes[32 + i];
            i = i + 1;
        }
        assert(out@ =~= keypair_pubkey(self@));
        proof {
            let k = self.pubkey_spec();
            assert(k@ == keypair_pubkey(self@));
            assert(k =~= out);
        }
        out
    }
}

} // verus!
