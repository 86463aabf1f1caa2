use crate::algorithm::Algorithm;
use vstd::prelude::*;

verus! {

/// The options an authenticator reports in `getInfo`.
#[derive(Debug, Clone, Copy, PartialEq, Eq, Structural)]
pub struct Options {
    pub rk: bool,
    pub up: bool,
    pub uv: bool,
    /// alwaysUv (CTAP 2.1)
    pub always_uv: bool,
    pub plat: bool,
    pub client_pin: Option<bool>,
}

impl Default for Options {
    fn default() -> (o: Self)
        ensures
            o == (Options {
                rk: false,
                up: false,
                uv: false,
                always_uv: false,
                plat: false,
                client_pin: None,
            }),
    {
        Options { rk: false, up: false, uv: false, always_uv: false, plat: false, client_pin: None }
    }
}

impl Options {
    /// Options with the given `rk`, `up` and `uv`, everything else off or absent.
    pub fn new(rk: bool, up: bool, uv: bool) -> (o: Self)
        ensures
            o == (Options { rk, up, uv, always_uv: false, plat: false, client_pin: None }),
    {
        Options { rk, up, uv, always_uv: false, plat: false, client_pin: None }
    }
}

/// What `getInfo` reports about the authenticator.
#[derive(Debug, Clone, PartialEq, Eq)]
pub struct AuthenticatorInfo {
    pub versions: Vec<&'static str>,
    pub extensions: Vec<&'static str>,
    pub aaguid: [u8; 16],
    pub options: Options,
    pub max_msg_size: u32,
    pub pin_uv_auth_protocols: Vec<u32>,
    pub max_credential_count_in_list: Option<u32>,
    pub max_credential_id_length: Option<u32>,
    pub transports: Vec<&'static str>,
    pub algorithms: Vec<Algorithm>,
    pub max_serialized_large_blob_array: Option<u32>,
    pub force_pin_change: bool,
    pub min_pin_length: Option<u32>,
    pub firmware_version: Option<u32>,
    pub max_cred_blob_length: Option<u32>,
    pub remaining_discoverable_credentials: Option<u32>,
    pub vendor_prototype_config_commands: Option<Vec<u32>>,
}

/// The default information, whatever the AAGUID: FIDO_2_0 and FIDO_2_1,
/// no extensions, default options, 1200-byte messages, PIN/UV protocol 1,
/// at most 8 credentials in a list and 128-byte credential ids, USB, ES256,
/// a minimum PIN length of 4 and room for 25 discoverable credentials.
pub open spec fn is_default_info(i: AuthenticatorInfo) -> bool {
    &&& i.versions@ == seq!["FIDO_2_0", "FIDO_2_1"]
    &&& i.extensions@ == Seq::<&'static str>::empty()
    &&& i.options == (Options { rk: false, up: false, uv: false, always_uv: false, plat: false, client_pin: None })
    &&& i.max_msg_size == 1200
    &&& i.pin_uv_auth_protocols@ == seq![1u32]
    &&& i.max_credential_count_in_list == Some(8u32)
    &&& i.max_credential_id_length == Some(128u32)
    &&& i.transports@ == seq!["usb"]
    &&& i.algorithms@ == seq![Algorithm::Es256]
    &&& i.max_serialized_large_blob_array is None
    &&& !i.force_pin_change
    &&& i.min_pin_length == Some(4u32)
    &&& i.firmware_version is None
    &&& i.max_cred_blob_length is None
    &&& i.remaining_discoverable_credentials == Some(25u32)
    &&& i.vendor_prototype_config_commands is None
}

impl Default for AuthenticatorInfo {
    fn default() -> (i: Self)
        ensures
            is_default_info(i),
            i.aaguid@ == Seq::new(16, |_j: int| 0u8),
    {
        let i = AuthenticatorInfo::new([0u8; 16]);
        assert(i.aaguid@ =~= Seq::new(16, |_j: int| 0u8));
        i
    }
}

impl AuthenticatorInfo {
    pub fn new(aaguid: [u8; 16]) -> (i: Self)
        ensures
            is_default_info(i),
            i.aaguid == aaguid,
    {
        let i = AuthenticatorInfo {
            versions: vec!["FIDO_2_0", "FIDO_2_1"],
            extensions: Vec::new(),
            aaguid,
            options: Options::default(),
            max_msg_size: 1200,
            pin_uv_auth_protocols: vec![1],
            max_credential_count_in_list: Some(8),
            max_credential_id_length: Some(128),
            transports: vec!["usb"],
            algorithms: vec![Algorithm::Es256],
            max_serialized_large_blob_array: None,
            force_pin_change: false,
            min_pin_length: Some(4),
            firmware_version: None,
            max_cred_blob_length: None,
            remaining_discoverable_credentials: Some(25),
            vendor_prototype_config_commands: None,
        };
        assert(i.versions@ =~= seq!["FIDO_2_0", "FIDO_2_1"]);
        assert(i.extensions@ =~= Seq::<&'static str>::empty());
        assert(i.pin_uv_auth_protocols@ =~= seq![1u32]);
        assert(i.transports@ =~= seq!["usb"]);
        assert(i.algorithms@ =~= seq![Algorithm::Es256]);
        i
    }
}

} // verus!
