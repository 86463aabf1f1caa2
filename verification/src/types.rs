use vstd::prelude::*;
use vstd::string::StringSliceAdditionalSpecFns;
use zeroize::Zeroize;

verus! {

/// Opaque handle to key material; the backend decides where it lives.
#[derive(Debug, Clone, PartialEq, Eq)]
pub struct KeyHandle(pub Vec<u8>);

/// A signature produced by a crypto provider.
#[derive(Debug, Clone, PartialEq, Eq)]
pub struct Signature(pub Vec<u8>);

/// Key under which secure storage keeps a value.
#[derive(Debug, Clone, PartialEq, Eq, Hash)]
pub struct StorageKey(pub Vec<u8>);

/// A minimal resident credential.
#[derive(Debug, Clone, PartialEq, Eq)]
pub struct Credential {
    pub id: Vec<u8>,
    pub rp_id: String,
    pub user_handle: Vec<u8>,
    pub private_key: KeyHandle,
    pub counter: u32,
}

#[derive(Debug, Clone, PartialEq, Eq)]
pub struct MakeCredentialRequest {
    pub client_data_hash: [u8; 32],
    pub rp_id: String,
    pub user_id: Vec<u8>,
    pub user_name: Option<String>,
    pub require_resident_key: bool,
    pub require_user_presence: bool,
    pub require_user_verification: bool,
}

#[derive(Debug, Clone, PartialEq, Eq)]
pub struct MakeCredentialResponse {
    pub credential_id: Vec<u8>,
    pub counter: u32,
}

#[derive(Debug, Clone, PartialEq, Eq)]
pub struct GetAssertionRequest {
    pub rp_id: String,
    pub client_data_hash: [u8; 32],
    pub allow_list: Vec<Vec<u8>>,
    pub require_user_presence: bool,
    pub require_user_verification: bool,
}

#[derive(Debug, Clone, PartialEq, Eq)]
pub struct GetAssertionResponse {
    pub credential_id: Vec<u8>,
    pub counter: u32,
    pub signature: Signature,
}

/// `Zeroize::zeroize` on a byte slice (zeroize crate): overwrites every byte
/// with 0 using volatile writes; the slice keeps its length.
#[verifier::external_body]
fn zeroize_slice(buf: &mut [u8])
    ensures
        final(buf)@ == Seq::new(old(buf)@.len(), |_i: int| 0u8),
{
    buf.zeroize();
}

/// `Zeroize::zeroize` on a byte vector (zeroize crate): overwrites the
/// contents and spare capacity with 0, then clears the vector.
#[verifier::external_body]
fn zeroize_vec(v: &mut Vec<u8>)
    ensures
        final(v)@ == Seq::<u8>::empty(),
{
    v.zeroize();
}

/// Wipes a sensitive buffer (a client data hash, a PIN token) after use.
pub fn sensitive_zeroize(buf: &mut [u8])
    ensures
        final(buf)@.len() == old(buf)@.len(),
        forall|i: int| 0 <= i < final(buf)@.len() ==> final(buf)@[i] == 0u8,
{
    zeroize_slice(buf);
}

impl KeyHandle {
    /// Wipes the key material and leaves the handle empty.
    pub fn zeroize(&mut self)
        ensures
            final(self).0@ == Seq::<u8>::empty(),
    {
        zeroize_vec(&mut self.0);
    }
}

impl Signature {
    /// Wipes the signature bytes and leaves it empty.
    pub fn zeroize(&mut self)
        ensures
            final(self).0@ == Seq::<u8>::empty(),
    {
        zeroize_vec(&mut self.0);
    }
}

impl StorageKey {
    pub fn new(bytes: Vec<u8>) -> (k: Self)
        ensures
            k.0@ == bytes@,
    {
        StorageKey(bytes)
    }
}

impl<'a> From<&'a str> for StorageKey {
    /// The key made of the UTF-8 bytes of `s`.
    fn from(s: &'a str) -> (k: Self)
        ensures
            k.0@ == s.spec_bytes(),
    {
        StorageKey(vstd::slice::slice_to_vec(s.as_bytes()))
    }
}

impl<'a> vstd::std_specs::convert::FromSpecImpl<&'a str> for StorageKey {
    open spec fn obeys_from_spec() -> bool {
        false
    }

    open spec fn from_spec(s: &'a str) -> StorageKey {
        arbitrary()
    }
}

} // verus!
