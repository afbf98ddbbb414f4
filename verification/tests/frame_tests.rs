use cardgame::frame::{decode_frame, parse_frame_len, ErrorKind};
use cardgame::message::Message;

#[test]
fn encode_prefixes_the_byte_length() {
    assert_eq!("10\r\ndeposit 50", Message::Deposit(50).encode().as_str());
    assert_eq!("4\r\nexit", Message::Exit.encode().as_str());
    assert_eq!("9\r\nlogin Bob", Message::Login("Bob".to_string()).encode().as_str());
}

#[test]
fn encode_counts_bytes_not_characters() {
    // A two-byte character in the name: the length counts UTF-8 bytes.
    let frame = Message::Login("bé".to_string()).encode();
    assert_eq!("9\r\nlogin bé", frame.as_str());
}

#[test]
fn parse_frame_len_reads_the_length_line() {
    assert_eq!(10, parse_frame_len("10\r\n").unwrap());
    assert_eq!(0, parse_frame_len("0").unwrap());
    assert_eq!(7, parse_frame_len("7\n").unwrap());
    let e = parse_frame_len("ten\r\n").unwrap_err();
    assert_eq!(ErrorKind::InvalidBytesRead, e.kind());
    let e = parse_frame_len(" 7").unwrap_err();
    assert_eq!(ErrorKind::InvalidBytesRead, e.kind());
}

#[test]
fn decode_frame_returns_the_body() {
    let frame = Message::Deposit(50).encode();
    let bytes: Vec<u8> = frame.into_bytes();
    let body = decode_frame(&bytes).unwrap();
    assert_eq!("deposit 50", body.as_str());
    assert_eq!(Message::Deposit(50), body.parse().unwrap());
}

#[test]
fn decode_frame_roundtrips_non_ascii() {
    let frame = Message::Login("zoë".to_string()).encode();
    let bytes: Vec<u8> = frame.into_bytes();
    let body = decode_frame(&bytes).unwrap();
    assert_eq!("login zoë", body.as_str());
}

#[test]
fn decode_frame_accepts_short_bodies() {
    let bytes: Vec<u8> = b"10\r\nabc".to_vec();
    let body = decode_frame(&bytes).unwrap();
    assert_eq!("abc", body.as_str());
}

#[test]
fn decode_frame_reports_connection_loss_and_bad_lengths() {
    let empty: Vec<u8> = Vec::new();
    let e = decode_frame(&empty).unwrap_err();
    assert_eq!(ErrorKind::ConnectionLost, e.kind());

    let bytes: Vec<u8> = b"ten\r\nabc".to_vec();
    let e = decode_frame(&bytes).unwrap_err();
    assert_eq!(ErrorKind::InvalidBytesRead, e.kind());
}

#[test]
fn wire_roundtrip_recovers_the_message() {
    for text in ["DEPOSIT 50", "login  Bob  Smith", "  STAND  "] {
        let m = Message::parse(text).unwrap();
        let frame = m.encode();
        let body = decode_frame(&frame.into_bytes()).unwrap();
        assert_eq!(m, body.parse().unwrap());
    }
}
