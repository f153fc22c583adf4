//! Client for the OATH application of a YubiKey, spoken over ISO 7816 APDUs.
//!
//! The library frames commands, decodes status words, follows chained replies and parses
//! the TLV grammars of the applet. The card itself is reached by the caller: it sends the
//! bytes that an [`Exchange`] names and hands each reply frame back to it.
pub mod account;
pub mod error;
pub mod oath;
pub mod request;
pub mod response;
pub mod text;
pub mod token;

pub use error::{check_code, Error};
pub use oath::{
    calculate_all_request, calculate_request, parse_calculate, parse_select,
    pop_response_with_digits, select_request, CalculateAll, CalculateAllResponse,
    CalculateResponse, ChallengeWithAlgorithm, ResponseWithDigits, ResponseWithTag,
    SelectResponse,
};
pub use request::{Exchange, Request, GET_RESPONSE};
pub use response::Response;
pub use token::{find_reader, format_code, hmac_token_code, token_code, totp_challenge};
