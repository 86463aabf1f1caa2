//! Vendor-neutral building blocks for a CTAP2 security-key authenticator:
//! status codes and COSE identifiers, a strict canonical CBOR codec, an
//! in-memory transport, and a CTAP2 command dispatcher whose behaviour is
//! stated and proved against specifications.

pub mod algorithm;
pub mod cbor;
pub mod ctap2;
pub mod env;
pub mod info;
pub mod status;
pub mod transport;
pub mod types;

pub use algorithm::Algorithm;
pub use ctap2::payload::{build_get_assertion_payload, build_make_credential_payload};
pub use ctap2::{
    Ctap2, CtapError, CMD_CLIENT_PIN, CMD_GET_ASSERTION, CMD_GET_INFO, CMD_GET_NEXT_ASSERTION,
    CMD_MAKE_CREDENTIAL, CMD_RESET,
};
pub use env::{
    Authenticator, CryptoProvider, MonotonicCounter, RandomSource, SecureEnvironment,
    SecureStorage, UserPresence,
};
pub use info::{AuthenticatorInfo, Options};
pub use status::CtapStatusCode;
pub use transport::{InMemoryTransport, InMemoryTransportError, Transport};
pub use types::{
    sensitive_zeroize, Credential, GetAssertionRequest, GetAssertionResponse, KeyHandle,
    MakeCredentialRequest, MakeCredentialResponse, Signature, StorageKey,
};
