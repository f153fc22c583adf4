use ykoath::token::{be_u32, is_yubikey_reader, truncate_hmac};
use ykoath::{format_code, hmac_token_code, token_code, totp_challenge, Error};

#[test]
fn challenge_is_time_step_big_endian() {
    assert_eq!(
        totp_challenge(1234567890),
        vec![0x00, 0x00, 0x00, 0x00, 0x02, 0x73, 0xef, 0x07]
    );
    assert_eq!(totp_challenge(0), vec![0; 8]);
    assert_eq!(totp_challenge(59), vec![0, 0, 0, 0, 0, 0, 0, 1]);
    assert_eq!(
        totp_challenge(u64::MAX),
        (u64::MAX / 30).to_be_bytes().to_vec()
    );
}

#[test]
fn be_u32_reads_big_endian() {
    assert_eq!(be_u32(&[0x1a, 0x2b, 0x3c, 0x4d]), 0x1a2b3c4d);
    assert_eq!(be_u32(&[0xff, 0xff, 0xff, 0xff]), u32::MAX);
}

#[test]
fn truncated_code_six_digits() {
    // 0x1a2b3c4d = 439041101
    assert_eq!(token_code(6, &[0x1a, 0x2b, 0x3c, 0x4d]), Ok("041101".to_string()));
    assert_eq!(token_code(8, &[0x1a, 0x2b, 0x3c, 0x4d]), Ok("39041101".to_string()));
    assert_eq!(token_code(6, &[0x00, 0x00, 0x00, 0x01]), Ok("000001".to_string()));
}

#[test]
fn truncated_code_keeps_top_bit() {
    // The card has already cleared the top bit; a set bit is taken as it comes.
    assert_eq!(token_code(8, &[0x80, 0x00, 0x00, 0x00]), Ok("47483648".to_string()));
}

#[test]
fn truncated_code_needs_four_bytes() {
    assert_eq!(token_code(6, &[0x01, 0x02, 0x03]), Err(Error::UnexpectedLength(3)));
    assert_eq!(token_code(6, &[]), Err(Error::UnexpectedLength(0)));
}

#[test]
fn format_code_pads_and_reduces() {
    assert_eq!(format_code(439041101, 6), "041101");
    assert_eq!(format_code(7, 7), "0000007");
    assert_eq!(format_code(123, 0), "");
    assert_eq!(format_code(u32::MAX, 10), "4294967295");
    assert_eq!(format_code(42, 12), "000000000042");
}

#[test]
fn hmac_truncation_rfc4226_example() {
    let hmac = [
        0x1f, 0x86, 0x98, 0x69, 0x0e, 0x02, 0xca, 0x16, 0x61, 0x85, 0x50, 0xef, 0x7f, 0x19, 0xda,
        0x8e, 0x94, 0x5b, 0x55, 0x5a,
    ];
    assert_eq!(truncate_hmac(&hmac), Ok(0x50ef7f19));
    assert_eq!(hmac_token_code(6, &hmac), Ok("872921".to_string()));
}

#[test]
fn hmac_truncation_clears_top_bit() {
    let hmac = [0xff, 0xff, 0xff, 0xff, 0x00];
    assert_eq!(truncate_hmac(&hmac), Ok(0x7fffffff));
}

#[test]
fn hmac_truncation_too_short() {
    assert_eq!(truncate_hmac(&[]), Err(Error::InsufficientData));
    assert_eq!(truncate_hmac(&[0x01, 0x02, 0x03, 0x01]), Err(Error::InsufficientData));
    assert_eq!(truncate_hmac(&[0x01, 0x02, 0x03, 0x00]), Ok(0x01020300));
    assert_eq!(hmac_token_code(6, &[0x01, 0x02, 0x03, 0x04, 0x0f]), Err(Error::InsufficientData));
}

#[test]
fn reader_name_prefix() {
    assert!(is_yubikey_reader(b"Yubico YubiKey OTP+FIDO+CCID 00 00"));
    assert!(is_yubikey_reader(b"yubico yubikey"));
    assert!(!is_yubikey_reader(b"yubico yubike"));
    assert!(!is_yubikey_reader(b" Yubico YubiKey"));
    assert!(!is_yubikey_reader(b"Acme Smart 1"));
}
