use ykoath::{check_code, Error, Exchange, Request, Response, GET_RESPONSE};

/// Plays the card: answers each command with the next scripted reply and records
/// what was sent.
fn run<'a>(mut ex: Exchange<'a>, replies: &[&[u8]]) -> (Vec<Vec<u8>>, Result<Response<'a>, Error>) {
    let mut sent = Vec::new();
    for reply in replies {
        sent.push(ex.next_command().to_vec());
        match ex.receive(reply) {
            Ok(true) => continue,
            Ok(false) => return (sent, Ok(ex.into_response())),
            Err(e) => return (sent, Err(e)),
        }
    }
    panic!("the script ran out of replies");
}

#[test]
fn status_word_done() {
    assert_eq!(check_code(0x9000), Ok(false));
}

#[test]
fn status_word_more_for_every_low_byte() {
    for xx in 0x00u16..=0xff {
        assert_eq!(check_code(0x6100 | xx), Ok(true));
    }
}

#[test]
fn status_word_errors() {
    assert_eq!(check_code(0x6a84), Err(Error::NoSpace));
    assert_eq!(check_code(0x6984), Err(Error::NoSuchObject));
    assert_eq!(check_code(0x6982), Err(Error::AuthRequired));
    assert_eq!(check_code(0x6a80), Err(Error::WrongSyntax));
    assert_eq!(check_code(0x6581), Err(Error::GenericError));
    assert_eq!(check_code(0x6d00), Err(Error::Unknown(0x6d00)));
    assert_eq!(check_code(0x6200), Err(Error::Unknown(0x6200)));
}

#[test]
fn error_messages() {
    assert_eq!(Error::NoDevice.message(), "No Yubikey found");
    assert_eq!(
        Error::InsufficientData.message(),
        "Received data does not have enough length"
    );
    assert_eq!(Error::UnexpectedTag(0x7b).message(), "Unexpected tag (0x7b)");
    assert_eq!(Error::UnexpectedTag(0x05).message(), "Unexpected tag (0x05)");
    assert_eq!(Error::UnexpectedLength(2).message(), "Unexpected length (2)");
    assert_eq!(Error::UnexpectedLength(200).message(), "Unexpected length (200)");
    assert_eq!(Error::Unknown(0x6d00).message(), "Unknown response code (0x6d00)");
    assert_eq!(Error::Unknown(0x0a0b).message(), "Unknown response code (0x0a0b)");
    assert_eq!(Error::NoSpace.message(), "No space");
    assert_eq!(Error::NoSuchObject.message(), "No such object");
    assert_eq!(Error::AuthRequired.message(), "Auth required");
    assert_eq!(Error::WrongSyntax.message(), "Wrong syntax");
    assert_eq!(Error::GenericError.message(), "Generic error");
}

#[test]
fn cursor_pops_tlvs_in_order() {
    let payload = [0x79, 0x03, 0x05, 0x02, 0x04, 0x71, 0x00, 0x74, 0x01, 0xaa];
    let mut res = Response(&payload);
    assert!(!res.is_empty());
    assert_eq!(res.pop(0x79), Ok(&[0x05u8, 0x02, 0x04][..]));
    assert_eq!(res.pop(0x71), Ok(&[][..]));
    let value = res.pop(0x74).unwrap();
    assert_eq!(value.len(), 1);
    assert_eq!(value, &[0xaa]);
    assert!(res.is_empty());
}

#[test]
fn cursor_rejects_other_tag_and_stays() {
    let payload = [0x71, 0x01, 0x41];
    let mut res = Response(&payload);
    assert_eq!(res.pop(0x79), Err(Error::UnexpectedTag(0x71)));
    assert_eq!(res.0, &payload[..]);
    assert_eq!(res.pop(0x71), Ok(&[0x41u8][..]));
}

#[test]
fn cursor_residues_are_insufficient() {
    let mut empty = Response(&[]);
    assert!(empty.is_empty());
    assert_eq!(empty.pop(0x71), Err(Error::InsufficientData));
    let mut tag_only = Response(&[0x71]);
    assert_eq!(tag_only.pop(0x71), Err(Error::InsufficientData));
    let mut short_value = Response(&[0x71, 0x03, 0x41, 0x42]);
    assert_eq!(short_value.pop(0x71), Err(Error::InsufficientData));
    assert_eq!(short_value.0.len(), 4);
}

#[test]
fn parse_status_word_only_is_empty() {
    let res = Response::parse(&[0x90, 0x00]).unwrap();
    assert!(res.is_empty());
    let res = Response::parse(&[0x61, 0x10]).unwrap();
    assert!(res.is_empty());
}

#[test]
fn parse_short_reply_is_insufficient() {
    assert!(matches!(Response::parse(&[]), Err(Error::InsufficientData)));
    assert!(matches!(Response::parse(&[0x90]), Err(Error::InsufficientData)));
}

#[test]
fn parse_strips_status_word() {
    let res = Response::parse(&[0x71, 0x01, 0x41, 0x90, 0x00]).unwrap();
    assert_eq!(res.0, &[0x71, 0x01, 0x41]);
    assert!(matches!(
        Response::parse(&[0x71, 0x01, 0x41, 0x69, 0x82]),
        Err(Error::AuthRequired)
    ));
}

#[test]
fn request_header_only() {
    let mut buf = vec![0xee; 9];
    let ex = Request::new(0x00, 0xa5, 0x00, 0x00, &mut buf).exchange();
    assert_eq!(ex.next_command(), &GET_RESPONSE);
}

#[test]
fn request_push_writes_lc() {
    let mut buf = Vec::new();
    let ex = Request::new(0x00, 0xa2, 0x00, 0x01, &mut buf)
        .push(0x71, b"issuer")
        .push(0x74, &[1, 2, 3])
        .exchange();
    let cmd = ex.next_command();
    assert_eq!(
        cmd,
        &[0x00, 0xa2, 0x00, 0x01, 0x0d, 0x71, 0x06, b'i', b's', b's', b'u', b'e', b'r', 0x74, 0x03, 1, 2, 3]
    );
    assert_eq!(cmd[4] as usize, cmd.len() - 5);
}

#[test]
fn request_push_aid() {
    let mut buf = Vec::new();
    let ex = Request::new(0x00, 0xa4, 0x04, 0x00, &mut buf)
        .push_aid(&[0xa0, 0x00, 0x00, 0x05, 0x27, 0x21, 0x01])
        .exchange();
    assert_eq!(
        ex.next_command(),
        &[0x00, 0xa4, 0x04, 0x00, 0x07, 0xa0, 0x00, 0x00, 0x05, 0x27, 0x21, 0x01]
    );
}

#[test]
fn request_empty_value_still_counts() {
    let mut buf = Vec::new();
    let ex = Request::new(0x00, 0xa4, 0x00, 0x00, &mut buf).push(0x74, &[]).exchange();
    assert_eq!(ex.next_command(), &[0x00, 0xa4, 0x00, 0x00, 0x02, 0x74, 0x00]);
}

#[test]
fn push_then_pop_round_trip() {
    let mut buf = Vec::new();
    let ex = Request::new(0x00, 0xa2, 0x00, 0x00, &mut buf)
        .push(0x71, b"name")
        .push(0x74, &[9, 8, 7, 6])
        .exchange();
    let cmd = ex.next_command().to_vec();
    let mut res = Response(&cmd[5..]);
    assert_eq!(res.pop(0x71), Ok(&b"name"[..]));
    assert_eq!(res.pop(0x74), Ok(&[9u8, 8, 7, 6][..]));
    assert!(res.is_empty());
}

#[test]
fn chained_reply_is_concatenated() {
    let mut buf = Vec::new();
    let ex = Request::new(0x00, 0xa4, 0x00, 0x01, &mut buf).push(0x74, &[1, 2]).exchange();
    let (sent, res) = run(
        ex,
        &[&[0x11, 0x12, 0x61, 0x10], &[0x21, 0x61, 0x05], &[0x31, 0x32, 0x33, 0x90, 0x00]],
    );
    assert_eq!(res.unwrap().0, &[0x11, 0x12, 0x21, 0x31, 0x32, 0x33]);
    assert_eq!(sent.len(), 3);
    assert_eq!(sent[0], vec![0x00, 0xa4, 0x00, 0x01, 0x04, 0x74, 0x02, 1, 2]);
    assert_eq!(sent[1], GET_RESPONSE.to_vec());
    assert_eq!(sent[2], GET_RESPONSE.to_vec());
}

#[test]
fn chained_reply_with_empty_first_frame_asks_for_more() {
    let mut buf = Vec::new();
    let ex = Request::new(0x00, 0xa4, 0x00, 0x00, &mut buf).exchange();
    let (sent, res) = run(ex, &[&[0x61, 0x02], &[0xab, 0xcd, 0x90, 0x00]]);
    assert_eq!(res.unwrap().0, &[0xab, 0xcd]);
    assert_eq!(sent[1], GET_RESPONSE.to_vec());
}

#[test]
fn status_only_reply_gives_empty_payload() {
    let mut buf = Vec::new();
    let ex = Request::new(0x00, 0xa4, 0x00, 0x00, &mut buf).exchange();
    let (_, res) = run(ex, &[&[0x90, 0x00]]);
    assert!(res.unwrap().is_empty());
}

#[test]
fn error_status_stops_the_exchange() {
    let mut buf = Vec::new();
    let ex = Request::new(0x00, 0xa4, 0x00, 0x00, &mut buf).exchange();
    let (sent, res) = run(ex, &[&[0x01, 0x02, 0x61, 0x02], &[0x03, 0x6a, 0x80]]);
    assert!(matches!(res, Err(Error::WrongSyntax)));
    assert_eq!(sent.len(), 2);
}

#[test]
fn short_frame_is_insufficient() {
    let mut buf = Vec::new();
    let ex = Request::new(0x00, 0xa4, 0x00, 0x00, &mut buf).exchange();
    let (_, res) = run(ex, &[&[0x90]]);
    assert!(matches!(res, Err(Error::InsufficientData)));
}

#[test]
fn failed_frame_adds_nothing() {
    let mut buf = Vec::new();
    let mut ex = Request::new(0x00, 0xa4, 0x00, 0x00, &mut buf).exchange();
    assert_eq!(ex.receive(&[0x01, 0x61, 0x00]), Ok(true));
    assert_eq!(ex.receive(&[0x02, 0x03, 0x69, 0x84]), Err(Error::NoSuchObject));
    assert_eq!(ex.receive(&[0x04, 0x90, 0x00]), Ok(false));
    assert_eq!(ex.into_response().0, &[0x01, 0x04]);
}

#[test]
fn request_largest_body_that_fits_lc() {
    let mut buf = Vec::new();
    let value = [0x5a; 253];
    let ex = Request::new(0x00, 0xa4, 0x00, 0x00, &mut buf).push(0x74, &value).exchange();
    let cmd = ex.next_command();
    assert_eq!(cmd.len(), 260);
    assert_eq!(cmd[4], 255);
    assert_eq!(cmd[6], 253);
}

#[test]
fn request_longer_body_wraps_lc() {
    let mut buf = Vec::new();
    let value = [0x5a; 255];
    let ex = Request::new(0x00, 0xa4, 0x00, 0x00, &mut buf).push(0x74, &value).exchange();
    let cmd = ex.next_command();
    assert_eq!(cmd.len(), 262);
    assert_eq!(cmd[4], 1);
    assert_eq!(cmd[6], 255);
}
