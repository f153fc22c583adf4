use crate::text::{append_decimal, append_fixed, decimal, fixed_digits};
use vstd::prelude::*;
use vstd::string::StringExecFns;

verus! {

/// Everything that can go wrong while talking to the OATH applet.
#[derive(Debug, Clone, Copy, PartialEq, Eq, Structural)]
pub enum Error {
    /// No reader whose name marks it as a YubiKey.
    NoDevice,
    /// A frame or a TLV ended before the bytes it announced.
    InsufficientData,
    /// A TLV carried another tag than the grammar expects at that point.
    UnexpectedTag(u8),
    /// A TLV value had a length that the grammar does not allow.
    UnexpectedLength(u8),
    /// A status word outside the table of known codes.
    Unknown(u16),
    NoSpace,
    NoSuchObject,
    AuthRequired,
    WrongSyntax,
    GenericError,
}

/// The message shown to a user for an error.
pub open spec fn error_message(e: Error) -> Seq<char> {
    match e {
        Error::NoDevice => "No Yubikey found"@,
        Error::InsufficientData => "Received data does not have enough length"@,
        Error::UnexpectedTag(tag) => "Unexpected tag (0x"@ + fixed_digits(tag as nat, 2, 16) + ")"@,
        Error::UnexpectedLength(len) => "Unexpected length ("@ + decimal(len as nat) + ")"@,
        Error::Unknown(code) => "Unknown response code (0x"@ + fixed_digits(code as nat, 4, 16)
            + ")"@,
        Error::NoSpace => "No space"@,
        Error::NoSuchObject => "No such object"@,
        Error::AuthRequired => "Auth required"@,
        Error::WrongSyntax => "Wrong syntax"@,
        Error::GenericError => "Generic error"@,
    }
}

impl Error {
    /// The message shown to a user for this error.
    pub fn message(&self) -> (r: String)
        ensures
            r@ == error_message(*self),
    {
        match self {
            Error::NoDevice => String::from_str("No Yubikey found"),
            Error::InsufficientData => String::from_str("Received data does not have enough length"),
            Error::UnexpectedTag(tag) => {
                let mut s = String::from_str("Unexpected tag (0x");
                append_fixed(&mut s, *tag as u32, 2, 16);
                s.append(")");
                s
            },
            Error::UnexpectedLength(len) => {
                let mut s = String::from_str("Unexpected length (");
                append_decimal(&mut s, *len as u32);
                s.append(")");
                s
            },
            Error::Unknown(code) => {
                let mut s = String::from_str("Unknown response code (0x");
                append_fixed(&mut s, *code as u32, 4, 16);
                s.append(")");
                s
            },
            Error::NoSpace => String::from_str("No space"),
            Error::NoSuchObject => String::from_str("No such object"),
            Error::AuthRequired => String::from_str("Auth required"),
            Error::WrongSyntax => String::from_str("Wrong syntax"),
            Error::GenericError => String::from_str("Generic error"),
        }
    }
}

/// Status word of a completed exchange.
pub const SW_OK: u16 = 0x9000;

/// The status word formed by the two trailing bytes of a response frame.
pub open spec fn status_word(sw1: u8, sw2: u8) -> u16 {
    (sw1 as int * 256 + sw2 as int) as u16
}

/// What a status word means: `Ok(false)` when the exchange is complete, `Ok(true)` when
/// more data waits behind a GET-RESPONSE, otherwise the error it stands for.
pub open spec fn status_meaning(code: u16) -> Result<bool, Error> {
    if code == SW_OK {
        Ok(false)
    } else if 0x6100 <= code <= 0x61ff {
        Ok(true)
    } else if code == 0x6a84 {
        Err(Error::NoSpace)
    } else if code == 0x6984 {
        Err(Error::NoSuchObject)
    } else if code == 0x6982 {
        Err(Error::AuthRequired)
    } else if code == 0x6a80 {
        Err(Error::WrongSyntax)
    } else if code == 0x6581 {
        Err(Error::GenericError)
    } else {
        Err(Error::Unknown(code))
    }
}

/// Classifies a status word: whether the reply is complete, continues, or failed.
pub fn check_code(code: u16) -> (r: Result<bool, Error>)
    ensures
        r == status_meaning(code),
{
    match code {
        0x9000 => Ok(false),
        0x6100..=0x61ff => Ok(true),
        0x6a84 => Err(Error::NoSpace),
        0x6984 => Err(Error::NoSuchObject),
        0x6982 => Err(Error::AuthRequired),
        0x6a80 => Err(Error::WrongSyntax),
        0x6581 => Err(Error::GenericError),
        _ => Err(Error::Unknown(code)),
    }
}

/// The status word formed by two bytes, the first one the high byte.
pub fn status_word_of(sw1: u8, sw2: u8) -> (r: u16)
    ensures
        r == status_word(sw1, sw2),
        r as int == sw1 as int * 256 + sw2 as int,
{
    (sw1 as u16) * 256 + (sw2 as u16)
}

/// `9000` completes an exchange, and every `61xx` asks for the rest of the reply.
pub proof fn lemma_status_classes(xx: u8)
    ensures
        status_meaning(0x9000) == Ok::<bool, Error>(false),
        status_meaning(0x6100u16 | (xx as u16)) == Ok::<bool, Error>(true),
{
    let x = xx as u16;
    assert(0x6100u16 <= (0x6100u16 | x) && (0x6100u16 | x) <= 0x61ffu16) by (bit_vector)
        requires
            x < 256,
    ;
}

} // verus!
