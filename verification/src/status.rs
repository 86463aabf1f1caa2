use vstd::prelude::*;
use vstd::string::StrSliceExecFns;

verus! {

/// CTAP2 status codes: each value is the status byte that opens a response.
/// `Other` carries any byte that has no name here.
#[derive(Debug, Clone, Copy, PartialEq, Eq, Structural)]
#[non_exhaustive]
pub enum CtapStatusCode {
    Success,
    InvalidCommand,
    InvalidParameter,
    InvalidLength,
    InvalidSeq,
    Timeout,
    ChannelBusy,
    LockRequired,
    InvalidChannel,
    CborUnexpectedType,
    InvalidCbor,
    MissingParameter,
    LimitExceeded,
    UnsupportedExtension,
    CredentialExcluded,
    Processing,
    InvalidCredential,
    UserActionPending,
    OperationPending,
    NoOperations,
    UnsupportedAlgorithm,
    OperationDenied,
    KeyStoreFull,
    NoOperationPending,
    UnsupportedOption,
    InvalidOption,
    KeepAliveCancel,
    NoCredentials,
    UserActionTimeout,
    NotAllowed,
    PinInvalid,
    PinBlocked,
    PinAuthInvalid,
    PinAuthBlocked,
    PinNotSet,
    PinRequired,
    PinPolicyViolation,
    PinTokenExpired,
    RequestTooLarge,
    ActionTimeout,
    UpRequired,
    UvBlocked,
    IntegrityFailure,
    InvalidSubcommand,
    UvInvalid,
    UnauthorizedPermission,
    Other(u8),
}

/// The status byte of a code.
pub open spec fn status_byte(c: CtapStatusCode) -> u8 {
    match c {
        CtapStatusCode::Success => 0x00u8,
        CtapStatusCode::InvalidCommand => 0x01u8,
        CtapStatusCode::InvalidParameter => 0x02u8,
        CtapStatusCode::InvalidLength => 0x03u8,
        CtapStatusCode::InvalidSeq => 0x04u8,
        CtapStatusCode::Timeout => 0x05u8,
        CtapStatusCode::ChannelBusy => 0x06u8,
        CtapStatusCode::LockRequired => 0x0Au8,
        CtapStatusCode::InvalidChannel => 0x0Bu8,
        CtapStatusCode::CborUnexpectedType => 0x11u8,
        CtapStatusCode::InvalidCbor => 0x12u8,
        CtapStatusCode::MissingParameter => 0x14u8,
        CtapStatusCode::LimitExceeded => 0x15u8,
        CtapStatusCode::UnsupportedExtension => 0x16u8,
        CtapStatusCode::CredentialExcluded => 0x19u8,
        CtapStatusCode::Processing => 0x21u8,
        CtapStatusCode::InvalidCredential => 0x22u8,
        CtapStatusCode::UserActionPending => 0x23u8,
        CtapStatusCode::OperationPending => 0x24u8,
        CtapStatusCode::NoOperations => 0x25u8,
        CtapStatusCode::UnsupportedAlgorithm => 0x26u8,
        CtapStatusCode::OperationDenied => 0x27u8,
        CtapStatusCode::KeyStoreFull => 0x28u8,
        CtapStatusCode::NoOperationPending => 0x2Au8,
        CtapStatusCode::UnsupportedOption => 0x2Bu8,
        CtapStatusCode::InvalidOption => 0x2Cu8,
        CtapStatusCode::KeepAliveCancel => 0x2Du8,
        CtapStatusCode::NoCredentials => 0x2Eu8,
        CtapStatusCode::UserActionTimeout => 0x2Fu8,
        CtapStatusCode::NotAllowed => 0x30u8,
        CtapStatusCode::PinInvalid => 0x31u8,
        CtapStatusCode::PinBlocked => 0x32u8,
        CtapStatusCode::PinAuthInvalid => 0x33u8,
        CtapStatusCode::PinAuthBlocked => 0x34u8,
        CtapStatusCode::PinNotSet => 0x35u8,
        CtapStatusCode::PinRequired => 0x36u8,
        CtapStatusCode::PinPolicyViolation => 0x37u8,
        CtapStatusCode::PinTokenExpired => 0x38u8,
        CtapStatusCode::RequestTooLarge => 0x39u8,
        CtapStatusCode::ActionTimeout => 0x3Au8,
        CtapStatusCode::UpRequired => 0x3Bu8,
        CtapStatusCode::UvBlocked => 0x3Cu8,
        CtapStatusCode::IntegrityFailure => 0x3Du8,
        CtapStatusCode::InvalidSubcommand => 0x3Eu8,
        CtapStatusCode::UvInvalid => 0x3Fu8,
        CtapStatusCode::UnauthorizedPermission => 0x40u8,
        CtapStatusCode::Other(b) => b,
    }
}

/// The code that a status byte stands for.
pub open spec fn status_from_byte(b: u8) -> CtapStatusCode {
    if b == 0x00 {
        CtapStatusCode::Success
    } else     if b == 0x01 {
        CtapStatusCode::InvalidCommand
    } else     if b == 0x02 {
        CtapStatusCode::InvalidParameter
    } else     if b == 0x03 {
        CtapStatusCode::InvalidLength
    } else     if b == 0x04 {
        CtapStatusCode::InvalidSeq
    } else     if b == 0x05 {
        CtapStatusCode::Timeout
    } else     if b == 0x06 {
        CtapStatusCode::ChannelBusy
    } else     if b == 0x0A {
        CtapStatusCode::LockRequired
    } else     if b == 0x0B {
        CtapStatusCode::InvalidChannel
    } else     if b == 0x11 {
        CtapStatusCode::CborUnexpectedType
    } else     if b == 0x12 {
        CtapStatusCode::InvalidCbor
    } else     if b == 0x14 {
        CtapStatusCode::MissingParameter
    } else     if b == 0x15 {
        CtapStatusCode::LimitExceeded
    } else     if b == 0x16 {
        CtapStatusCode::UnsupportedExtension
    } else     if b == 0x19 {
        CtapStatusCode::CredentialExcluded
    } else     if b == 0x21 {
        CtapStatusCode::Processing
    } else     if b == 0x22 {
        CtapStatusCode::InvalidCredential
    } else     if b == 0x23 {
        CtapStatusCode::UserActionPending
    } else     if b == 0x24 {
        CtapStatusCode::OperationPending
    } else     if b == 0x25 {
        CtapStatusCode::NoOperations
    } else     if b == 0x26 {
        CtapStatusCode::UnsupportedAlgorithm
    } else     if b == 0x27 {
        CtapStatusCode::OperationDenied
    } else     if b == 0x28 {
        CtapStatusCode::KeyStoreFull
    } else     if b == 0x2A {
        CtapStatusCode::NoOperationPending
    } else     if b == 0x2B {
        CtapStatusCode::UnsupportedOption
    } else     if b == 0x2C {
        CtapStatusCode::InvalidOption
    } else     if b == 0x2D {
        CtapStatusCode::KeepAliveCancel
    } else     if b == 0x2E {
        CtapStatusCode::NoCredentials
    } else     if b == 0x2F {
        CtapStatusCode::UserActionTimeout
    } else     if b == 0x30 {
        CtapStatusCode::NotAllowed
    } else     if b == 0x31 {
        CtapStatusCode::PinInvalid
    } else     if b == 0x32 {
        CtapStatusCode::PinBlocked
    } else     if b == 0x33 {
        CtapStatusCode::PinAuthInvalid
    } else     if b == 0x34 {
        CtapStatusCode::PinAuthBlocked
    } else     if b == 0x35 {
        CtapStatusCode::PinNotSet
    } else     if b == 0x36 {
        CtapStatusCode::PinRequired
    } else     if b == 0x37 {
        CtapStatusCode::PinPolicyViolation
    } else     if b == 0x38 {
        CtapStatusCode::PinTokenExpired
    } else     if b == 0x39 {
        CtapStatusCode::RequestTooLarge
    } else     if b == 0x3A {
        CtapStatusCode::ActionTimeout
    } else     if b == 0x3B {
        CtapStatusCode::UpRequired
    } else     if b == 0x3C {
        CtapStatusCode::UvBlocked
    } else     if b == 0x3D {
        CtapStatusCode::IntegrityFailure
    } else     if b == 0x3E {
        CtapStatusCode::InvalidSubcommand
    } else     if b == 0x3F {
        CtapStatusCode::UvInvalid
    } else     if b == 0x40 {
        CtapStatusCode::UnauthorizedPermission
    } else {
        CtapStatusCode::Other(b)
    }
}

/// A byte that has a name among the codes.
pub open spec fn is_named_byte(b: u8) -> bool {
    status_from_byte(b) != CtapStatusCode::Other(b)
}

/// A code in its canonical form: `Other` only ever carries a byte without a name.
pub open spec fn is_canonical(c: CtapStatusCode) -> bool {
    match c {
        CtapStatusCode::Other(b) => !is_named_byte(b),
        _ => true,
    }
}

impl CtapStatusCode {
    pub fn as_u8(self) -> (b: u8)
        ensures
            b == status_byte(self),
    {
        match self {
            CtapStatusCode::Success => 0x00,
            CtapStatusCode::InvalidCommand => 0x01,
            CtapStatusCode::InvalidParameter => 0x02,
            CtapStatusCode::InvalidLength => 0x03,
            CtapStatusCode::InvalidSeq => 0x04,
            CtapStatusCode::Timeout => 0x05,
            CtapStatusCode::ChannelBusy => 0x06,
            CtapStatusCode::LockRequired => 0x0A,
            CtapStatusCode::InvalidChannel => 0x0B,
            CtapStatusCode::CborUnexpectedType => 0x11,
            CtapStatusCode::InvalidCbor => 0x12,
            CtapStatusCode::MissingParameter => 0x14,
            CtapStatusCode::LimitExceeded => 0x15,
            CtapStatusCode::UnsupportedExtension => 0x16,
            CtapStatusCode::CredentialExcluded => 0x19,
            CtapStatusCode::Processing => 0x21,
            CtapStatusCode::InvalidCredential => 0x22,
            CtapStatusCode::UserActionPending => 0x23,
            CtapStatusCode::OperationPending => 0x24,
            CtapStatusCode::NoOperations => 0x25,
            CtapStatusCode::UnsupportedAlgorithm => 0x26,
            CtapStatusCode::OperationDenied => 0x27,
            CtapStatusCode::KeyStoreFull => 0x28,
            CtapStatusCode::NoOperationPending => 0x2A,
            CtapStatusCode::UnsupportedOption => 0x2B,
            CtapStatusCode::InvalidOption => 0x2C,
            CtapStatusCode::KeepAliveCancel => 0x2D,
            CtapStatusCode::NoCredentials => 0x2E,
            CtapStatusCode::UserActionTimeout => 0x2F,
            CtapStatusCode::NotAllowed => 0x30,
            CtapStatusCode::PinInvalid => 0x31,
            CtapStatusCode::PinBlocked => 0x32,
            CtapStatusCode::PinAuthInvalid => 0x33,
            CtapStatusCode::PinAuthBlocked => 0x34,
            CtapStatusCode::PinNotSet => 0x35,
            CtapStatusCode::PinRequired => 0x36,
            CtapStatusCode::PinPolicyViolation => 0x37,
            CtapStatusCode::PinTokenExpired => 0x38,
            CtapStatusCode::RequestTooLarge => 0x39,
            CtapStatusCode::ActionTimeout => 0x3A,
            CtapStatusCode::UpRequired => 0x3B,
            CtapStatusCode::UvBlocked => 0x3C,
            CtapStatusCode::IntegrityFailure => 0x3D,
            CtapStatusCode::InvalidSubcommand => 0x3E,
            CtapStatusCode::UvInvalid => 0x3F,
            CtapStatusCode::UnauthorizedPermission => 0x40,
            CtapStatusCode::Other(b) => b,
        }
    }

    pub fn from_u8(b: u8) -> (c: CtapStatusCode)
        ensures
            c == status_from_byte(b),
    {
        match b {
            0x00 => CtapStatusCode::Success,
            0x01 => CtapStatusCode::InvalidCommand,
            0x02 => CtapStatusCode::InvalidParameter,
            0x03 => CtapStatusCode::InvalidLength,
            0x04 => CtapStatusCode::InvalidSeq,
            0x05 => CtapStatusCode::Timeout,
            0x06 => CtapStatusCode::ChannelBusy,
            0x0A => CtapStatusCode::LockRequired,
            0x0B => CtapStatusCode::InvalidChannel,
            0x11 => CtapStatusCode::CborUnexpectedType,
            0x12 => CtapStatusCode::InvalidCbor,
            0x14 => CtapStatusCode::MissingParameter,
            0x15 => CtapStatusCode::LimitExceeded,
            0x16 => CtapStatusCode::UnsupportedExtension,
            0x19 => CtapStatusCode::CredentialExcluded,
            0x21 => CtapStatusCode::Processing,
            0x22 => CtapStatusCode::InvalidCredential,
            0x23 => CtapStatusCode::UserActionPending,
            0x24 => CtapStatusCode::OperationPending,
            0x25 => CtapStatusCode::NoOperations,
            0x26 => CtapStatusCode::UnsupportedAlgorithm,
            0x27 => CtapStatusCode::OperationDenied,
            0x28 => CtapStatusCode::KeyStoreFull,
            0x2A => CtapStatusCode::NoOperationPending,
            0x2B => CtapStatusCode::UnsupportedOption,
            0x2C => CtapStatusCode::InvalidOption,
            0x2D => CtapStatusCode::KeepAliveCancel,
            0x2E => CtapStatusCode::NoCredentials,
            0x2F => CtapStatusCode::UserActionTimeout,
            0x30 => CtapStatusCode::NotAllowed,
            0x31 => CtapStatusCode::PinInvalid,
            0x32 => CtapStatusCode::PinBlocked,
            0x33 => CtapStatusCode::PinAuthInvalid,
            0x34 => CtapStatusCode::PinAuthBlocked,
            0x35 => CtapStatusCode::PinNotSet,
            0x36 => CtapStatusCode::PinRequired,
            0x37 => CtapStatusCode::PinPolicyViolation,
            0x38 => CtapStatusCode::PinTokenExpired,
            0x39 => CtapStatusCode::RequestTooLarge,
            0x3A => CtapStatusCode::ActionTimeout,
            0x3B => CtapStatusCode::UpRequired,
            0x3C => CtapStatusCode::UvBlocked,
            0x3D => CtapStatusCode::IntegrityFailure,
            0x3E => CtapStatusCode::InvalidSubcommand,
            0x3F => CtapStatusCode::UvInvalid,
            0x40 => CtapStatusCode::UnauthorizedPermission,
            other => CtapStatusCode::Other(other),
        }
    }
}

/// The lower-case hexadecimal digit of a value below sixteen.
pub open spec fn hex_digit(n: int) -> char {
    if n < 10 {
        ('0' as int + n) as char
    } else {
        ('a' as int + n - 10) as char
    }
}

/// The text a user is shown for a status: `CTAP 0x` and the status byte in
/// two lower-case hexadecimal digits.
pub open spec fn status_message(c: CtapStatusCode) -> Seq<char> {
    "CTAP 0x"@ + seq![hex_digit((status_byte(c) / 16) as int), hex_digit((status_byte(c) % 16) as int)]
}

fn hex_digit_str(n: u8) -> (s: &'static str)
    requires
        n < 16,
    ensures
        s@ == seq![hex_digit(n as int)],
{
    proof {
        reveal_strlit("0");
        reveal_strlit("1");
        reveal_strlit("2");
        reveal_strlit("3");
        reveal_strlit("4");
        reveal_strlit("5");
        reveal_strlit("6");
        reveal_strlit("7");
        reveal_strlit("8");
        reveal_strlit("9");
        reveal_strlit("a");
        reveal_strlit("b");
        reveal_strlit("c");
        reveal_strlit("d");
        reveal_strlit("e");
        reveal_strlit("f");
    }
    match n {
        0 => "0",
        1 => "1",
        2 => "2",
        3 => "3",
        4 => "4",
        5 => "5",
        6 => "6",
        7 => "7",
        8 => "8",
        9 => "9",
        10 => "a",
        11 => "b",
        12 => "c",
        13 => "d",
        14 => "e",
        _ => "f",
    }
}

impl CtapStatusCode {
    /// The text a user is shown for this status.
    pub fn message(self) -> (s: String)
        ensures
            s@ == status_message(self),
    {
        let b = self.as_u8();
        let mut s = String::from_str("CTAP 0x");
        s.append(hex_digit_str(b / 16));
        s.append(hex_digit_str(b % 16));
        s
    }
}

/// Every status byte survives a trip through its code.
pub proof fn law_byte_roundtrip(b: u8)
    ensures
        status_byte(status_from_byte(b)) == b,
        is_canonical(status_from_byte(b)),
{
}

/// Every canonical code survives a trip through its status byte.
pub proof fn law_code_roundtrip(c: CtapStatusCode)
    requires
        is_canonical(c),
    ensures
        status_from_byte(status_byte(c)) == c,
{
}


/// The status bytes are those that the CTAP2 specification assigns: each
/// named code of its list is sent as the byte the list gives it, and that
/// byte is read back as that code.
pub proof fn law_ctap2_status_bytes()
    ensures
        ({
            let list = seq![
                (CtapStatusCode::Success, 0x00u8),
                (CtapStatusCode::InvalidCommand, 0x01u8),
                (CtapStatusCode::InvalidParameter, 0x02u8),
                (CtapStatusCode::InvalidLength, 0x03u8),
                (CtapStatusCode::InvalidSeq, 0x04u8),
                (CtapStatusCode::Timeout, 0x05u8),
                (CtapStatusCode::ChannelBusy, 0x06u8),
                (CtapStatusCode::LockRequired, 0x0Au8),
                (CtapStatusCode::InvalidChannel, 0x0Bu8),
                (CtapStatusCode::CborUnexpectedType, 0x11u8),
                (CtapStatusCode::InvalidCbor, 0x12u8),
                (CtapStatusCode::MissingParameter, 0x14u8),
                (CtapStatusCode::LimitExceeded, 0x15u8),
                (CtapStatusCode::UnsupportedExtension, 0x16u8),
                (CtapStatusCode::CredentialExcluded, 0x19u8),
                (CtapStatusCode::Processing, 0x21u8),
                (CtapStatusCode::InvalidCredential, 0x22u8),
                (CtapStatusCode::UserActionPending, 0x23u8),
                (CtapStatusCode::OperationPending, 0x24u8),
                (CtapStatusCode::NoOperations, 0x25u8),
                (CtapStatusCode::UnsupportedAlgorithm, 0x26u8),
                (CtapStatusCode::OperationDenied, 0x27u8),
                (CtapStatusCode::KeyStoreFull, 0x28u8),
                (CtapStatusCode::NoOperationPending, 0x2Au8),
                (CtapStatusCode::UnsupportedOption, 0x2Bu8),
                (CtapStatusCode::InvalidOption, 0x2Cu8),
                (CtapStatusCode::KeepAliveCancel, 0x2Du8),
                (CtapStatusCode::NoCredentials, 0x2Eu8),
                (CtapStatusCode::UserActionTimeout, 0x2Fu8),
                (CtapStatusCode::NotAllowed, 0x30u8),
                (CtapStatusCode::PinInvalid, 0x31u8),
                (CtapStatusCode::PinBlocked, 0x32u8),
                (CtapStatusCode::PinAuthInvalid, 0x33u8),
                (CtapStatusCode::PinAuthBlocked, 0x34u8),
                (CtapStatusCode::PinNotSet, 0x35u8),
                (CtapStatusCode::PinRequired, 0x36u8),
                (CtapStatusCode::PinPolicyViolation, 0x37u8),
                (CtapStatusCode::PinTokenExpired, 0x38u8),
                (CtapStatusCode::RequestTooLarge, 0x39u8),
                (CtapStatusCode::ActionTimeout, 0x3Au8),
                (CtapStatusCode::UpRequired, 0x3Bu8),
                (CtapStatusCode::UvBlocked, 0x3Cu8),
                (CtapStatusCode::IntegrityFailure, 0x3Du8),
                (CtapStatusCode::InvalidSubcommand, 0x3Eu8),
                (CtapStatusCode::UvInvalid, 0x3Fu8),
                (CtapStatusCode::UnauthorizedPermission, 0x40u8)
            ];
            forall|k: int|
                0 <= k < list.len() ==> status_byte(#[trigger] list[k].0) == list[k].1 && status_from_byte(
                    list[k].1,
                ) == list[k].0
        }),
{
}

} // verus!
