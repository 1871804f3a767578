use rusteria::h3::Header;
use rusteria::proto::{
    has_readable_rx, read_varint, write_varint, AuthRequest, AuthResponse, HysteriaTCPResponse,
    HysteriaTCPResponseStatus, HysteriaTcpRequest, VARINT_LIMIT,
};

fn header(name: &str, value: &str) -> Header {
    Header::new(name.as_bytes(), value.as_bytes())
}

fn complete() -> Vec<Header> {
    vec![
        header("hysteria-auth", "password"),
        header("hysteria-cc-rx", "1000"),
        header("hysteria-padding", "xyz"),
    ]
}

#[test]
fn complete_request_is_read() {
    let headers = complete();
    assert!(has_readable_rx(&headers));
    let request = AuthRequest::from_event_header(&headers).ok().unwrap();
    assert_eq!(request.auth_token, "password");
    assert_eq!(request.client_rx, 1000);
    assert_eq!(request.padding, "xyz");
}

#[test]
fn any_missing_header_makes_the_request_incomplete() {
    for missing in 0..3 {
        let mut headers = complete();
        headers.remove(missing);
        let error = AuthRequest::from_event_header(&headers).err();
        assert_eq!(error, Some("Incomplete auth headers"));
    }
    assert!(AuthRequest::from_event_header(&[]).is_err());
}

#[test]
fn last_header_of_a_name_counts() {
    let mut headers = complete();
    headers.push(header("hysteria-auth", "other"));
    headers.push(header("hysteria-cc-rx", "7"));
    headers.push(header("user-agent", "curl"));
    let request = AuthRequest::from_event_header(&headers).ok().unwrap();
    assert_eq!(request.auth_token, "other");
    assert_eq!(request.client_rx, 7);
    assert_eq!(request.padding, "xyz");
}

#[test]
fn token_that_is_no_text_is_passed_over() {
    let mut headers = complete();
    headers.push(Header::new(b"hysteria-auth", &[0xff, 0xfe]));
    headers.push(Header::new(b"hysteria-padding", &[0xc0]));
    headers.push(Header::new(&[0xff], b"value"));
    let request = AuthRequest::from_event_header(&headers).ok().unwrap();
    assert_eq!(request.auth_token, "password");
    assert_eq!(request.padding, "xyz");
}

#[test]
fn header_names_are_told_apart_by_case() {
    let headers = vec![
        header("Hysteria-Auth", "password"),
        header("hysteria-cc-rx", "0"),
        header("hysteria-padding", ""),
    ];
    assert!(AuthRequest::from_event_header(&headers).is_err());
}

#[test]
fn unreadable_receive_rates_are_found() {
    for value in ["", "auto", "-1", "18446744073709551616"] {
        let headers = vec![header("hysteria-cc-rx", value)];
        assert!(!has_readable_rx(&headers), "{:?}", value);
    }
    assert!(!has_readable_rx(&[Header::new(b"hysteria-cc-rx", &[0xff])]));
    assert!(has_readable_rx(&[header("hysteria-cc-rx", "18446744073709551615")]));
    assert!(has_readable_rx(&[header("other", "auto")]));
    assert!(has_readable_rx(&[]));
}

#[test]
fn response_headers_with_a_rate() {
    let response = AuthResponse {
        status: 233,
        udp_supported: true,
        server_rx: 1048576,
        rx_auto: false,
        padding: "pad",
    };
    let headers = response.to_headers();
    let pairs: Vec<(&[u8], &[u8])> =
        headers.iter().map(|h| (h.name.as_slice(), h.value.as_slice())).collect();
    assert_eq!(
        pairs,
        vec![
            (&b":status"[..], &b"233"[..]),
            (&b"Hysteria-UDP"[..], &b"true"[..]),
            (&b"Hysteria-CC-RX"[..], &b"1048576"[..]),
            (&b"Hysteria-Padding"[..], &b"pad"[..]),
        ]
    );
}

#[test]
fn response_headers_without_a_rate() {
    let response = AuthResponse {
        status: 233,
        udp_supported: false,
        server_rx: 9,
        rx_auto: true,
        padding: "",
    };
    let headers = response.to_headers();
    assert_eq!(headers.len(), 4);
    assert_eq!(headers[1].value, b"false");
    assert_eq!(headers[2].value, b"auto");
    assert_eq!(headers[3].value, b"");
}

fn varint(n: usize) -> Vec<u8> {
    if n < 64 {
        vec![n as u8]
    } else if n < 16384 {
        (0x4000u16 | n as u16).to_be_bytes().to_vec()
    } else {
        (0x8000_0000u32 | n as u32).to_be_bytes().to_vec()
    }
}

fn request_bytes(id: usize, url: &[u8], padding: &[u8]) -> Vec<u8> {
    let mut bytes = varint(id);
    bytes.extend_from_slice(&varint(url.len()));
    bytes.extend_from_slice(url);
    bytes.extend_from_slice(&varint(padding.len()));
    bytes.extend_from_slice(padding);
    bytes
}

#[test]
fn varints_are_read() {
    assert_eq!(read_varint(&[0x25], 0), Some((37, 1)));
    assert_eq!(read_varint(&[0x40, 0x25], 0), Some((37, 2)));
    assert_eq!(read_varint(&[9, 0x7b, 0xbd, 9], 1), Some((15293, 3)));
    assert_eq!(read_varint(&[0x9d, 0x7f, 0x3e, 0x7d], 0), Some((494878333, 4)));
    let long = [0xc2, 0x19, 0x7c, 0x5e, 0xff, 0x14, 0xe8, 0x8c];
    assert_eq!(read_varint(&long, 0), Some((151288809941952652, 8)));
    assert_eq!(read_varint(&[0xff; 8], 0), Some((0x3fff_ffff_ffff_ffff, 8)));
    assert_eq!(read_varint(&[], 0), None);
    assert_eq!(read_varint(&[1], 1), None);
    assert_eq!(read_varint(&[0x40], 0), None);
    assert_eq!(read_varint(&[0x80, 0, 0], 0), None);
    assert_eq!(read_varint(&long[..7], 0), None);
}

#[test]
fn varints_are_written_in_shortest_form_and_read_back() {
    let cases = [
        (0, 1), (63, 1), (64, 2), (0x401, 2), (16383, 2), (16384, 4), (0x3fff_ffff, 4),
        (0x4000_0000, 8), (VARINT_LIMIT - 1, 8),
    ];
    for (n, width) in cases {
        let mut bytes = vec![7];
        write_varint(&mut bytes, n);
        assert_eq!(bytes.len(), 1 + width, "{}", n);
        assert_eq!(read_varint(&bytes, 1), Some((n, 1 + width)));
    }
    let mut bytes = Vec::new();
    write_varint(&mut bytes, 15293);
    assert_eq!(bytes, [0x7b, 0xbd]);
}

#[test]
fn tcp_request_is_read() {
    let request = HysteriaTcpRequest::from_bytes(&[0x44, 0x01, 3, b'a', b':', b'1', 2, 9, 9]);
    let request = request.unwrap();
    assert_eq!(request.reqest_id, 0x401);
    assert_eq!(request.url, "a:1");
    assert_eq!(request.url_len, 3);
    assert_eq!(request.padding, [9, 9]);
    assert_eq!(request.padding_len, 2);
    let bytes = request_bytes(0x401, b"example.com:443", b"pad");
    assert_eq!(HysteriaTcpRequest::from_bytes(&bytes).unwrap().url, "example.com:443");
}

#[test]
fn tcp_request_with_long_parts_is_read() {
    let mut bytes = vec![0x44, 0x01, 0x40, 0x40];
    bytes.extend_from_slice(&[b'a'; 64]);
    bytes.push(0);
    let request = HysteriaTcpRequest::from_bytes(&bytes).unwrap();
    assert_eq!(request.url, "a".repeat(64));
    assert!(request.padding.is_empty());
    let bytes = request_bytes(0x401, &[b'a'; 253], &[0; 20000]);
    let request = HysteriaTcpRequest::from_bytes(&bytes).unwrap();
    assert_eq!(request.url_len, 253);
    assert_eq!(request.padding_len, 20000);
    assert_eq!(request.padding.len(), 20000);
}

#[test]
fn address_has_at_most_253_bytes() {
    for len in [254, 255, 256, 1000] {
        let bytes = request_bytes(0x401, &vec![b'a'; len], b"");
        assert!(HysteriaTcpRequest::from_bytes(&bytes).is_none(), "{}", len);
    }
}

#[test]
fn only_the_tcp_request_id_is_taken() {
    assert!(HysteriaTcpRequest::from_bytes(&[0x44, 0x02, 1, b'a', 0]).is_none());
    assert!(HysteriaTcpRequest::from_bytes(&[0x04, 0x01, 1, b'a', 0]).is_none());
    assert!(HysteriaTcpRequest::from_bytes(&[0, 0, 0, 0]).is_none());
    // The same number in four bytes.
    assert!(HysteriaTcpRequest::from_bytes(&[0x80, 0, 0x04, 0x01, 1, b'a', 0]).is_some());
}

#[test]
fn what_follows_a_tcp_request_is_passed_over() {
    let mut bytes = request_bytes(0x401, b"a:1", b"");
    bytes.extend_from_slice(b"GET / HTTP/1.1");
    let request = HysteriaTcpRequest::from_bytes(&bytes).unwrap();
    assert_eq!(request.url, "a:1");
    assert!(request.padding.is_empty());
}

#[test]
fn cut_off_tcp_request_is_none() {
    let bytes = request_bytes(0x401, &[b'a'; 70], b"pq");
    for end in 0..bytes.len() {
        assert!(HysteriaTcpRequest::from_bytes(&bytes[..end]).is_none(), "{}", end);
    }
    assert!(HysteriaTcpRequest::from_bytes(&bytes).is_some());
    // A length that is beyond anything that can follow.
    let mut bytes = vec![0x44, 0x01, 0];
    bytes.extend_from_slice(&[0xff; 8]);
    assert!(HysteriaTcpRequest::from_bytes(&bytes).is_none());
}

#[test]
fn tcp_request_with_an_address_that_is_no_text_is_none() {
    assert!(HysteriaTcpRequest::from_bytes(&request_bytes(0x401, &[0xff, b':'], b"")).is_none());
}

#[test]
fn tcp_response_is_written() {
    let success = HysteriaTCPResponseStatus::Success;
    let bytes = HysteriaTCPResponse::new(success, "Hi", "p").into_bytes();
    assert_eq!(bytes, [0x00, 0x02, b'H', b'i', 0x01, b'p']);
    let bytes = HysteriaTCPResponse::new(success, "Hello World!", "padding").into_bytes();
    assert_eq!(bytes, b"\x00\x0cHello World!\x07padding");
    let bytes = HysteriaTCPResponse::new(HysteriaTCPResponseStatus::Error, "", "").into_bytes();
    assert_eq!(bytes, [1, 0, 0]);
}

#[test]
fn tcp_response_lengths_are_the_real_ones() {
    for len in [63, 64, 300, 16383, 16384, 65536] {
        let msg = "m".repeat(len);
        let response = HysteriaTCPResponse::new(HysteriaTCPResponseStatus::Success, &msg, "p");
        assert_eq!(response.msg_len, len as u64);
        let bytes = response.into_bytes();
        let (n, start) = read_varint(&bytes, 1).unwrap();
        assert_eq!(n, len as u64);
        assert_eq!(&bytes[start..start + len], msg.as_bytes());
        assert_eq!(bytes[start + len..], [1, b'p']);
    }
}
