use header_sync::codec::{
    decode_request, decode_response, encode_request, headers_request, receive_req, response_len, send,
    Action, HeadersRequest, REQUEST_SIZE,
};

#[test]
fn encode_request_is_big_endian() {
    let body = encode_request(0x0102030405060708, 0x0a0b0c0d);
    assert_eq!(body, vec![1, 2, 3, 4, 5, 6, 7, 8, 0x0a, 0x0b, 0x0c, 0x0d]);
}

#[test]
fn request_round_trip() {
    for &(from, count) in &[(0u64, 0u32), (1, 1), (1480, 48), (u64::MAX, u32::MAX), (97, 64)] {
        let body = encode_request(from, count);
        let req = decode_request(&body);
        assert_eq!(req, HeadersRequest { from, count });
    }
}

#[test]
fn short_request_defaults_to_one() {
    assert_eq!(decode_request(&[]), HeadersRequest { from: 1, count: 1 });
    assert_eq!(decode_request(&[0, 0, 0, 9]), HeadersRequest { from: 1, count: 1 });
    assert_eq!(decode_request(&[0, 0, 0, 0, 0, 0, 0, 9]), HeadersRequest { from: 9, count: 1 });
    assert_eq!(decode_request(&[0, 0, 0, 0, 0, 0, 0, 9, 0, 0, 1]), HeadersRequest { from: 9, count: 1 });
}

#[test]
fn longer_request_reads_first_twelve_bytes() {
    let req = decode_request(&[0, 0, 0, 0, 0, 0, 1, 0, 0, 0, 0, 7, 0xff, 0xff]);
    assert_eq!(req, HeadersRequest { from: 256, count: 7 });
}

#[test]
fn send_uses_default_size() {
    let e = send(300);
    assert_eq!(e.action, Action::HeadersReq);
    assert_eq!(e.len, 12);
    assert_eq!(e.body, encode_request(300, REQUEST_SIZE));
    assert_eq!(e.body[11], 64);
}

#[test]
fn headers_request_carries_size() {
    let e = headers_request(1480, 48);
    assert_eq!(e.body, vec![0, 0, 0, 0, 0, 0, 0x05, 0xc8, 0, 0, 0, 48]);
}

#[test]
fn response_len_stops_at_head() {
    assert_eq!(response_len(HeadersRequest { from: 10, count: 64 }, 20), 11);
    assert_eq!(response_len(HeadersRequest { from: 10, count: 5 }, 20), 5);
    assert_eq!(response_len(HeadersRequest { from: 21, count: 5 }, 20), 0);
    assert_eq!(response_len(HeadersRequest { from: 20, count: 5 }, 20), 1);
    assert_eq!(response_len(HeadersRequest { from: 0, count: u32::MAX }, u64::MAX), u32::MAX as u64);
    assert_eq!(response_len(HeadersRequest { from: 5, count: 0 }, 20), 0);
}

#[test]
fn response_without_headers_is_empty() {
    let e = receive_req(&vec![None, None]);
    assert_eq!(e.action, Action::HeadersRes);
    assert_eq!(e.len, 0);
    assert!(e.body.is_empty());
    assert!(receive_req(&vec![]).body.is_empty());
}

#[test]
fn response_skips_missing_headers() {
    let e = receive_req(&vec![Some(vec![0xc1, 0x01]), None, Some(vec![0xc1, 0x02])]);
    assert_eq!(e.body, vec![0xc4, 0xc1, 0x01, 0xc1, 0x02]);
    assert_eq!(e.len, 5);
}

#[test]
fn long_response_has_long_prefix() {
    let item: Vec<u8> = std::iter::once(0xb8u8).chain(std::iter::once(60u8)).chain(std::iter::repeat(7u8).take(60)).collect();
    let e = receive_req(&vec![Some(item.clone())]);
    assert_eq!(&e.body[..2], &[0xf8, 62]);
    assert_eq!(&e.body[2..], &item[..]);
    let big: Vec<u8> = std::iter::once(0xb9u8).chain([1u8, 0u8]).chain(std::iter::repeat(1u8).take(256)).collect();
    let e = receive_req(&vec![Some(big.clone())]);
    assert_eq!(&e.body[..3], &[0xf9, 1, 3]);
    assert_eq!(e.len as usize, 3 + 259);
}

#[test]
fn decode_response_splits_items() {
    let e = receive_req(&vec![Some(vec![0xc1, 0x01]), Some(vec![0x82, 0xaa, 0xbb])]);
    let items = decode_response(&e.body);
    assert_eq!(items, vec![vec![0xc1, 0x01], vec![0x82, 0xaa, 0xbb]]);
}

#[test]
fn decode_response_of_nothing() {
    assert!(decode_response(&[]).is_empty());
    assert!(decode_response(&[0x05]).is_empty());
    assert!(decode_response(&[0xc0]).is_empty());
}
