//! The interfaces through which the protocol reaches the device: each one is
//! implemented by a backend (a board, a secure element, the simulator).

use crate::algorithm::Algorithm;
use crate::info::AuthenticatorInfo;
use crate::types::{
    GetAssertionRequest, GetAssertionResponse, KeyHandle, MakeCredentialRequest,
    MakeCredentialResponse, Signature, StorageKey,
};
use vstd::prelude::*;

verus! {

/// The protocol's only source of randomness; production backends use the
/// hardware TRNG.
pub trait RandomSource {
    type Error;

    fn fill_bytes(&mut self, out: &mut [u8]) -> Result<(), Self::Error>;
}

/// User presence (a button, a touch).
pub trait UserPresence {
    type Error;

    fn check(&mut self) -> Result<bool, Self::Error>;
}

/// A persistent monotonic signature counter.
pub trait MonotonicCounter {
    type Error;

    fn next(&mut self) -> Result<u32, Self::Error>;
}

/// Key generation and signing, delegated to a mature library.
pub trait CryptoProvider {
    type Error;

    fn generate_key(&mut self, algorithm: Algorithm) -> Result<KeyHandle, Self::Error>;

    fn sign(&mut self, key: &KeyHandle, message: &[u8]) -> Result<Signature, Self::Error>;
}

/// Secure storage (protected flash, a secure element).
pub trait SecureStorage {
    type Error;

    fn read(&mut self, key: &StorageKey) -> Result<Option<Vec<u8>>, Self::Error>;

    fn write(&mut self, key: StorageKey, value: &[u8]) -> Result<(), Self::Error>;

    fn remove(&mut self, key: &StorageKey) -> Result<bool, Self::Error>;

    fn clear(&mut self) -> Result<(), Self::Error>;
}

/// The environment the CTAP2 dispatcher runs in: randomness and user presence.
/// Each backend says, through the two predicates, which outcomes of its
/// operations are possible; a backend that says nothing allows every outcome.
pub trait SecureEnvironment: Sized {
    type Error;

    /// Whether `random`, run on the environment `before` with `out` holding
    /// `out_before`, may leave the environment as `after`, `out` holding
    /// `out_after`, and return `r`.
    open spec fn random_outcome(
        before: Self,
        after: Self,
        out_before: Seq<u8>,
        out_after: Seq<u8>,
        r: Result<(), Self::Error>,
    ) -> bool {
        true
    }

    /// Whether `user_presence`, run on the environment `before`, may leave it
    /// as `after` and return `r`.
    open spec fn presence_outcome(before: Self, after: Self, r: Result<bool, Self::Error>) -> bool {
        true
    }

    fn random(&mut self, out: &mut [u8]) -> (r: Result<(), Self::Error>)
        ensures
            Self::random_outcome(*old(self), *final(self), old(out)@, final(out)@, r),
    ;

    fn user_presence(&mut self) -> (r: Result<bool, Self::Error>)
        ensures
            Self::presence_outcome(*old(self), *final(self), r),
    ;
}

impl<T: SecureEnvironment> RandomSource for T {
    type Error = T::Error;

    /// Fills `out` as the environment's `random` does: the outcome is one
    /// that `random` may have.
    fn fill_bytes(&mut self, out: &mut [u8]) -> (r: Result<(), Self::Error>)
        ensures
            T::random_outcome(*old(self), *final(self), old(out)@, final(out)@, r),
    {
        self.random(out)
    }
}

impl<T: SecureEnvironment> UserPresence for T {
    type Error = T::Error;

    /// Asks for user presence as the environment's `user_presence` does: the
    /// outcome is one that `user_presence` may have.
    fn check(&mut self) -> (r: Result<bool, Self::Error>)
        ensures
            T::presence_outcome(*old(self), *final(self), r),
    {
        self.user_presence()
    }
}

/// The conceptual authenticator interface.
pub trait Authenticator {
    type Error;

    fn get_info(&self) -> &AuthenticatorInfo;

    fn make_credential(&mut self, request: MakeCredentialRequest) -> Result<
        MakeCredentialResponse,
        Self::Error,
    >;

    fn get_assertion(&mut self, request: GetAssertionRequest) -> Result<
        GetAssertionResponse,
        Self::Error,
    >;

    fn reset(&mut self) -> Result<(), Self::Error>;
}

} // verus!
