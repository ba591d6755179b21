//! Account addresses.
use vstd::prelude::*;

verus! {

/// A 32-byte account address.
#[derive(Debug, Clone, Copy, PartialEq, Eq, Hash, PartialOrd, Ord)]
pub struct Pubkey(pub [u8; 32]);

/// The base58 text of a byte string, as the `bs58` crate encodes it.
pub uninterp spec fn base58(bytes: Seq<u8>) -> Seq<char>;

/// Calls `bs58::encode(bytes).into_string()`: the base58 text of `bytes`, a function of the bytes alone.
#[verifier::external_body]
fn base58_encode(bytes: &[u8]) -> (s: String)
    ensures
        s@ == base58(bytes@),
{
    bs58::encode(bytes).into_string()
}

/// The base58 text of a byte string.
pub fn base58_string(bytes: &[u8]) -> (s: String)
    ensures
        s@ == base58(bytes@),
{
    base58_encode(bytes)
}

impl View for Pubkey {
    type V = Pubkey;

    open spec fn view(&self) -> Pubkey {
        *self
    }
}

impl crate::collections::KeyEq for Pubkey {
    fn eq_key(&self, other: &Self) -> (r: bool) {
        Pubkey::eq_key(self, other)
    }
}

impl Pubkey {
    /// The address with the given bytes.
    pub fn new_from_array(bytes: [u8; 32]) -> (pk: Pubkey)
        ensures
            pk.0 == bytes,
    {
        Pubkey(bytes)
    }

    /// The address made of a 32-byte slice; none for a slice of another length.
    pub fn try_from_slice(bytes: &[u8]) -> (r: Option<Pubkey>)
        ensures
            r is Some <==> bytes@.len() == 32,
            r matches Some(pk) ==> pk.0@ == bytes@,
    {
        if bytes.len() != 32 {
            return None;
        }
        let mut a = [0u8; 32];
        let mut i: usize = 0;
        while i < 32
            invariant
                bytes@.len() == 32,
                0 <= i <= 32,
                a@.len() == 32,
                forall|j: int| 0 <= j < i ==> a@[j] == bytes@[j],
            decreases 32 - i,
        {
            a[i] = bytes[i];
            i = i + 1;
        }
        assert(a@ =~= bytes@);
        Some(Pubkey(a))
    }

    /// The address bytes.
    pub fn to_bytes(&self) -> (b: [u8; 32])
        ensures
            b == self.0,
    {
        self.0
    }

    /// The all-zero address.
    pub fn default() -> (pk: Pubkey)
        ensures
            pk.0@ == Seq::new(32, |i: int| 0u8),
    {
        let pk = Pubkey([0u8; 32]);
        assert(pk.0@ =~= Seq::new(32, |i: int| 0u8));
        pk
    }

    /// The base58 text of the address.
    pub fn to_string(&self) -> (s: String)
        ensures
            s@ == base58(self.0@),
    {
        base58_encode(self.0.as_slice())
    }

    /// Address equality, byte by byte.
    pub fn eq_key(&self, other: &Pubkey) -> (r: bool)
        ensures
            r == (*self == *other),
    {
        let mut i: usize = 0;
        while i < 32
            invariant
                0 <= i <= 32,
                forall|j: int| 0 <= j < i ==> self.0@[j] == other.0@[j],
            decreases 32 - i,
        {
            if self.0[i] != other.0[i] {
                assert(self.0@[i as int] != other.0@[i as int]);
                return false;
            }
            i = i + 1;
        }
        proof {
            broadcast use vstd::array::group_array_axioms;
            assert(self.0 =~= other.0);
        }
        true
    }
}

} // verus!
