use kambo_hive::discovery::{
    is_discovery_request, make_discovery_response, make_discovery_token, parse_discovery_response,
    DISCOVERY_PORT,
};
use kambo_hive::framing::{frame_message, take_frame};

#[test]
fn discovery_round_trip_yields_a_parseable_address() {
    let token = make_discovery_token();
    assert!(is_discovery_request(&token));
    let response = make_discovery_response("192.168.0.5:4077");
    let addr_bytes = parse_discovery_response(&response).expect("prefixed response must parse");
    let addr = String::from_utf8(addr_bytes).expect("address is utf-8");
    // stripped of the prefix, the payload is a valid address:port
    let (host, port) = addr.split_once(':').expect("address has a port");
    assert!(!host.is_empty());
    let port: u16 = port.parse().expect("port is numeric");
    assert_eq!(port, 4077);
    assert_eq!(addr, "192.168.0.5:4077");
}

#[test]
fn wrong_token_gets_no_response() {
    // the host answers only the exact token; anything else is ignored
    assert!(!is_discovery_request(b"KAMBO_HIVE_WORKER_DISCOVERY?"));
    assert!(!is_discovery_request(b"KAMBO_HIVE_WORKER_DISCOVER"));
    assert!(!is_discovery_request(b""));
    let mut token = make_discovery_token();
    token[0] ^= 1;
    assert!(!is_discovery_request(&token));
}

#[test]
fn responses_without_the_prefix_are_rejected() {
    assert!(parse_discovery_response(b"HELLO:1.2.3.4:5").is_none());
    assert!(parse_discovery_response(b"").is_none());
    assert!(parse_discovery_response(b"KAMBO_HIVE_HOST_RESPONSE").is_none());
    // the bare prefix parses to an empty address
    let bare = make_discovery_response("");
    assert_eq!(parse_discovery_response(&bare), Some(Vec::new()));
}

#[test]
fn discovery_port_is_the_well_known_one() {
    assert_eq!(DISCOVERY_PORT, 2901);
}

#[test]
fn framing_prefixes_the_big_endian_length() {
    let framed = frame_message(b"hello");
    assert_eq!(framed, vec![0, 0, 0, 5, b'h', b'e', b'l', b'l', b'o']);
    let empty = frame_message(b"");
    assert_eq!(empty, vec![0, 0, 0, 0]);
    let long = frame_message(&[7u8; 300]);
    assert_eq!(&long[0..4], &[0, 0, 1, 44]);
}

#[test]
fn take_frame_splits_exactly_one_message() {
    let mut stream = frame_message(b"first");
    stream.extend_from_slice(&frame_message(b"second"));
    let (payload, consumed) = take_frame(&stream).expect("first frame is complete");
    assert_eq!(payload, b"first");
    assert_eq!(consumed, 9);
    let (payload2, consumed2) = take_frame(&stream[consumed..]).expect("second frame is complete");
    assert_eq!(payload2, b"second");
    assert_eq!(consumed2, 10);
    assert_eq!(consumed + consumed2, stream.len());
}

#[test]
fn incomplete_frames_are_not_taken() {
    assert!(take_frame(b"").is_none());
    assert!(take_frame(&[0, 0, 0]).is_none());
    assert!(take_frame(&[0, 0, 0, 5, b'h', b'i']).is_none());
    // exactly complete
    assert!(take_frame(&[0, 0, 0, 2, 1, 2]).is_some());
}
