use vfriend::codec::{
    decode_request, decode_response, decode_share, encode_request, encode_response, encode_share,
};
use vfriend::data::{CompactSlot, ShareData};

fn sample_share_data() -> ShareData {
    ShareData {
        u: "alice".to_string(),
        r: "alice_reg".to_string(),
        s: 5,
        h: vec!["chess".to_string(), "hiking".to_string()],
        q: vec!["carpe diem".to_string()],
        t: "2025-06-14T13:10:21+00:00".to_string(),
        o: vec![
            CompactSlot {
                d: 1,
                s: "t".to_string(),
                p: 3,
                f: "A2-BMAT201L-TH-AB3-206-ALL".to_string(),
            },
            CompactSlot {
                d: 5,
                s: "l".to_string(),
                p: 12,
                f: "lab block".to_string(),
            },
        ],
    }
}

#[test]
fn request_bytes_are_canonical_json() {
    let bytes = encode_request("alice_reg", "alice");
    assert_eq!(bytes, b"{\"from\":\"alice_reg\",\"name\":\"alice\"}".to_vec());
}

#[test]
fn request_round_trip() {
    let bytes = encode_request("alice_reg", "alice");
    let (from, name) = decode_request(&bytes).expect("canonical request must decode");
    assert_eq!(from, "alice_reg");
    assert_eq!(name, "alice");
}

#[test]
fn request_round_trip_with_escapes() {
    let bytes = encode_request("a\"b\\c", "line\nbreak\ttab");
    let (from, name) = decode_request(&bytes).expect("escaped request must decode");
    assert_eq!(from, "a\"b\\c");
    assert_eq!(name, "line\nbreak\ttab");
}

#[test]
fn request_round_trip_with_unicode() {
    let bytes = encode_request("rég-α", "ツ name");
    let (from, name) = decode_request(&bytes).expect("unicode request must decode");
    assert_eq!(from, "rég-α");
    assert_eq!(name, "ツ name");
}

#[test]
fn malformed_request_is_rejected() {
    assert!(decode_request(b"not json at all").is_none());
    assert!(decode_request(b"{}").is_none());
    assert!(decode_request(b"{\"from\":\"a\"}").is_none());
    assert!(decode_request(b"{\"from\":\"a\",\"name\":\"b\"} ").is_none());
    assert!(decode_request(b"").is_none());
}

#[test]
fn response_bytes_are_canonical_json() {
    assert_eq!(encode_response(true), b"{\"accepted\":true}".to_vec());
    assert_eq!(encode_response(false), b"{\"accepted\":false}".to_vec());
}

#[test]
fn response_round_trip() {
    assert_eq!(decode_response(&encode_response(true)), Some(true));
    assert_eq!(decode_response(&encode_response(false)), Some(false));
}

#[test]
fn malformed_response_is_rejected() {
    assert!(decode_response(b"{\"accepted\":maybe}").is_none());
    assert!(decode_response(b"{\"accepted\":true}x").is_none());
    assert!(decode_response(b"true").is_none());
}

#[test]
fn share_data_round_trip() {
    let d = sample_share_data();
    let bytes = encode_share(&d);
    let back = decode_share(&bytes).expect("canonical profile must decode");
    assert_eq!(back, d);
}

#[test]
fn share_data_round_trip_empty_lists() {
    let d = ShareData {
        u: "bob".to_string(),
        r: String::new(),
        s: 0,
        h: vec![],
        q: vec![],
        t: String::new(),
        o: vec![],
    };
    let bytes = encode_share(&d);
    assert_eq!(
        bytes,
        b"{\"u\":\"bob\",\"r\":\"\",\"s\":0,\"h\":[],\"q\":[],\"t\":\"\",\"o\":[]}".to_vec()
    );
    let back = decode_share(&bytes).expect("empty profile must decode");
    assert_eq!(back, d);
}

#[test]
fn share_data_round_trip_max_term() {
    let mut d = sample_share_data();
    d.s = u32::MAX;
    let back = decode_share(&encode_share(&d)).expect("max term must decode");
    assert_eq!(back.s, u32::MAX);
}

#[test]
fn malformed_share_data_is_rejected() {
    assert!(decode_share(b"{}").is_none());
    assert!(decode_share(b"\x00\x01\x02").is_none());
    // a leading zero is not canonical
    assert!(decode_share(b"{\"u\":\"a\",\"r\":\"b\",\"s\":007,\"h\":[],\"q\":[],\"t\":\"\",\"o\":[]}").is_none());
    // a term beyond u32 is rejected
    assert!(decode_share(b"{\"u\":\"a\",\"r\":\"b\",\"s\":4294967296,\"h\":[],\"q\":[],\"t\":\"\",\"o\":[]}").is_none());
    // string content must escape its control bytes
    assert!(decode_share(b"{\"u\":\"a\nb\",\"r\":\"b\",\"s\":1,\"h\":[],\"q\":[],\"t\":\"\",\"o\":[]}").is_none());
}

#[test]
fn share_data_rejects_invalid_utf8() {
    // a raw 0xFF byte inside a string is not UTF-8
    let bytes = b"{\"u\":\"a\xffb\",\"r\":\"b\",\"s\":1,\"h\":[],\"q\":[],\"t\":\"\",\"o\":[]}";
    assert!(decode_share(bytes).is_none());
}

#[test]
fn a_large_profile_survives_the_round_trip() {
    let mut d = sample_share_data();
    d.q = vec!["x".repeat(50_000)];
    let bytes = encode_share(&d);
    assert!(bytes.len() <= 102_400, "stays within the protocol's read bound");
    let back = decode_share(&bytes).expect("large profile must decode");
    assert_eq!(back, d);
}
