//! The frame codec against concrete lines, both modes.
use udp_relay::frame::{
    encode_frame, encode_plain, parse_frame, parse_payloads, split_tokens, FrameError,
};

#[test]
fn encode_frame_exact() {
    assert_eq!(encode_frame(0, b"hello"), b"0:aGVsbG8=\n".to_vec());
    assert_eq!(encode_frame(1, b""), b"1:\n".to_vec());
    assert_eq!(encode_frame(12, b"hi"), b"12:aGk=\n".to_vec());
    assert_eq!(
        encode_frame(u64::MAX, b"A"),
        b"18446744073709551615:QQ==\n".to_vec()
    );
}

#[test]
fn frame_round_trip() {
    let payloads: Vec<&[u8]> = vec![b"", b"h", b"hi", b"hel", b"hell", b"hello", b"\x00\xff\x10"];
    for (i, p) in payloads.iter().enumerate() {
        let line = encode_frame(i as u64, p);
        let (id, back) = parse_frame(&line).expect("a built frame parses");
        assert_eq!(id, i as u64);
        assert_eq!(back, p.to_vec());
    }
}

#[test]
fn parse_frame_basic() {
    let (id, p) = parse_frame(b"0:aGVsbG8=\n").unwrap();
    assert_eq!(id, 0);
    assert_eq!(p, b"hello".to_vec());
}

#[test]
fn parse_frame_strips_blanks() {
    let (id, p) = parse_frame(b" 1 2 : aGk= \n").unwrap();
    assert_eq!(id, 12);
    assert_eq!(p, b"hi".to_vec());
}

#[test]
fn parse_frame_empty_payload() {
    let (id, p) = parse_frame(b"3:\n").unwrap();
    assert_eq!(id, 3);
    assert_eq!(p, Vec::<u8>::new());
}

#[test]
fn parse_frame_format_errors() {
    assert_eq!(parse_frame(b"nocolonhere\n"), Err(FrameError::Format));
    assert_eq!(parse_frame(b"1:aGk=:extra\n"), Err(FrameError::Format));
    assert_eq!(parse_frame(b"\n"), Err(FrameError::Format));
}

#[test]
fn parse_frame_bad_ids() {
    assert_eq!(parse_frame(b"notanid:aGk=\n"), Err(FrameError::BadId));
    assert_eq!(parse_frame(b":aGk=\n"), Err(FrameError::BadId));
    assert_eq!(parse_frame(b"-1:aGk=\n"), Err(FrameError::BadId));
    // one past u64::MAX
    assert_eq!(
        parse_frame(b"18446744073709551616:aGk=\n"),
        Err(FrameError::BadId)
    );
    // exactly u64::MAX still parses
    assert!(parse_frame(b"18446744073709551615:aGk=\n").is_ok());
}

#[test]
fn parse_frame_bad_base64() {
    assert_eq!(parse_frame(b"7:!!!\n"), Err(FrameError::BadBase64));
    // non-canonical padding is rejected
    assert_eq!(parse_frame(b"7:aGk\n"), Err(FrameError::BadBase64));
    // non-zero trailing bits are rejected
    assert_eq!(parse_frame(b"7:QR==\n"), Err(FrameError::BadBase64));
}

#[test]
fn malformed_line_rejected_in_both_modes() {
    // the relay treats any decode error as fatal; this line fails in
    // multiplexed mode (bad id) and in single-target mode (bad base64)
    assert_eq!(parse_frame(b"notanid:!!!invalid\n"), Err(FrameError::BadId));
    assert_eq!(
        parse_payloads(b"notanid:!!!invalid\n"),
        Err(FrameError::BadBase64)
    );
}

#[test]
fn split_tokens_runs() {
    let toks = split_tokens(b"  aGk= \t aGVsbG8=\r\n");
    assert_eq!(toks, vec![b"aGk=".to_vec(), b"aGVsbG8=".to_vec()]);
    assert_eq!(split_tokens(b"\n"), Vec::<Vec<u8>>::new());
    assert_eq!(split_tokens(b""), Vec::<Vec<u8>>::new());
}

#[test]
fn parse_payloads_basic() {
    let ps = parse_payloads(b"aGVsbG8= aGk=\n").unwrap();
    assert_eq!(ps, vec![b"hello".to_vec(), b"hi".to_vec()]);
    assert_eq!(parse_payloads(b"\n").unwrap(), Vec::<Vec<u8>>::new());
    assert_eq!(parse_payloads(b"aGk= !!!\n"), Err(FrameError::BadBase64));
}

#[test]
fn encode_plain_exact() {
    assert_eq!(encode_plain(b"hi"), b"aGk=\n".to_vec());
    let line = encode_plain(b"hello");
    let ps = parse_payloads(&line).unwrap();
    assert_eq!(ps, vec![b"hello".to_vec()]);
}
