use gt::codec::{decode_operation, encode_operation, finish_stream, frame_operation, take_line};
use gt::errors::TunnelError;
use gt::ops::{ConfigData, ControlOperation};
use gt::routes::RouteEntry;

fn sample_config() -> ControlOperation {
    ControlOperation::Config(ConfigData {
        stun_servers: vec![b"stun:stun.l.google.com:19302".to_vec()],
        http_routes: vec![RouteEntry {
            key: b"www".to_vec(),
            origin: b"http://example.test".to_vec(),
        }],
    })
}

#[test]
fn encode_offer_exact() {
    let op = ControlOperation::Offer(b"v=0 sdp".to_vec());
    assert_eq!(encode_operation(&op), b"{\"OfferSDP\":\"v=0 sdp\"}".to_vec());
}

#[test]
fn encode_answer_exact() {
    let op = ControlOperation::Answer(b"v=0".to_vec());
    assert_eq!(encode_operation(&op), b"{\"AnswerSDP\":\"v=0\"}".to_vec());
}

#[test]
fn encode_empty_candidate_exact() {
    let op = ControlOperation::Candidate(Vec::new());
    assert_eq!(encode_operation(&op), b"{\"Candidate\":\"\"}".to_vec());
}

#[test]
fn encode_request_offer_exact() {
    let op = ControlOperation::RequestOffer(b"www/session1".to_vec());
    assert_eq!(
        encode_operation(&op),
        b"{\"GetOfferSDP\":{\"channel_name\":\"www/session1\"}}".to_vec()
    );
}

#[test]
fn encode_config_exact() {
    let expected = b"{\"Config\":{\"stun_servers\":[\"stun:stun.l.google.com:19302\"],\"http_routes\":{\"www\":\"http://example.test\"}}}".to_vec();
    assert_eq!(encode_operation(&sample_config()), expected);
}

#[test]
fn encode_config_empty_collections() {
    let op = ControlOperation::Config(ConfigData { stun_servers: vec![], http_routes: vec![] });
    assert_eq!(
        encode_operation(&op),
        b"{\"Config\":{\"stun_servers\":[],\"http_routes\":{}}}".to_vec()
    );
}

#[test]
fn encode_escapes_specials() {
    let op = ControlOperation::Candidate(b"a\"b\\c\nd\re\tf".to_vec());
    assert_eq!(
        encode_operation(&op),
        b"{\"Candidate\":\"a\\\"b\\\\c\\nd\\re\\tf\"}".to_vec()
    );
}

#[test]
fn encode_escapes_control_byte() {
    let op = ControlOperation::Candidate(vec![1u8, 31u8]);
    assert_eq!(
        encode_operation(&op),
        b"{\"Candidate\":\"\\u0001\\u001f\"}".to_vec()
    );
}

#[test]
fn decode_round_trips_every_variant() {
    let ops = vec![
        ControlOperation::Offer(b"o=-; lines\r\n".to_vec()),
        ControlOperation::Answer(b"a".to_vec()),
        ControlOperation::Candidate(Vec::new()),
        ControlOperation::Candidate(b"{\"candidate\":\"cand 1\"}".to_vec()),
        ControlOperation::RequestOffer(b"@www/uuid".to_vec()),
        sample_config(),
        ControlOperation::Config(ConfigData { stun_servers: vec![], http_routes: vec![] }),
    ];
    for op in ops {
        let line = encode_operation(&op);
        let back = decode_operation(&line).expect("decode");
        assert_eq!(back, op);
    }
}

#[test]
fn decode_rejects_malformed() {
    let bad: Vec<&[u8]> = vec![
        b"",
        b"{",
        b"not json",
        b"{\"OfferSDP\":\"unterminated}",
        b"{\"OfferSDP\":\"x\"} ",
        b"{\"OfferSDP\":\"x\"}}",
        b"{\"Unknown\":\"x\"}",
        b"{\"GetOfferSDP\":{\"wrong_field\":\"x\"}}",
        b"{\"Config\":{\"stun_servers\":[],\"http_routes\":{}}",
        b"{\"OfferSDP\": \"x\"}",
    ];
    for line in bad {
        match decode_operation(&line.to_vec()) {
            Err(TunnelError::MalformedMessage) => {},
            other => panic!("expected malformed, got {:?}", other),
        }
    }
}

#[test]
fn decode_rejects_raw_control_byte_in_string() {
    let mut line = b"{\"Candidate\":\"a".to_vec();
    line.push(7);
    line.extend_from_slice(b"\"}");
    assert_eq!(
        decode_operation(&line),
        Err(TunnelError::MalformedMessage)
    );
}

#[test]
fn frame_appends_one_newline() {
    let op = ControlOperation::Candidate(b"c".to_vec());
    let framed = frame_operation(&op);
    assert_eq!(framed, b"{\"Candidate\":\"c\"}\n".to_vec());
}

#[test]
fn take_line_splits_at_first_newline() {
    let buf = b"first\nsecond\nrest".to_vec();
    let (line, rest) = take_line(&buf).expect("line");
    assert_eq!(line, b"first".to_vec());
    assert_eq!(rest, b"second\nrest".to_vec());
    assert_eq!(take_line(&b"no terminator".to_vec()), None);
}

#[test]
fn framed_operations_read_back_in_order() {
    let first = sample_config();
    let second = ControlOperation::RequestOffer(b"www/s".to_vec());
    let mut buf = frame_operation(&first);
    buf.extend_from_slice(&frame_operation(&second));
    let (l1, rest) = take_line(&buf).expect("first line");
    assert_eq!(decode_operation(&l1).expect("first"), first);
    let (l2, rest2) = take_line(&rest).expect("second line");
    assert_eq!(decode_operation(&l2).expect("second"), second);
    assert!(finish_stream(&rest2).is_ok());
}

#[test]
fn stream_end_mid_line_is_stream_closed() {
    assert!(finish_stream(&Vec::new()).is_ok());
    assert_eq!(
        finish_stream(&b"partial".to_vec()),
        Err(TunnelError::StreamClosed)
    );
}
