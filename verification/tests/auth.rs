use rusteria::auth::{authenticate, masquerade, verify};
use rusteria::h3::{Header, OutboundFrame};
use rusteria::rusteria_server;
use rusteria::rustiera_server;

fn request(token: &str) -> Vec<Header> {
    vec![
        Header::new(b":method", b"POST"),
        Header::new(b"hysteria-auth", token.as_bytes()),
        Header::new(b"hysteria-cc-rx", b"0"),
        Header::new(b"hysteria-padding", b"abc"),
    ]
}

fn headers_of(frame: &OutboundFrame) -> Vec<(String, String)> {
    match frame {
        OutboundFrame::Headers(list) => list
            .iter()
            .map(|h| {
                (
                    String::from_utf8(h.name.clone()).unwrap(),
                    String::from_utf8(h.value.clone()).unwrap(),
                )
            })
            .collect(),
        _ => panic!("no headers"),
    }
}

fn assert_page(frames: &[OutboundFrame]) {
    assert_eq!(frames.len(), 2);
    assert_eq!(headers_of(&frames[0]), vec![(":status".to_string(), "200".to_string())]);
    match &frames[1] {
        OutboundFrame::Body(body, fin) => {
            assert_eq!(body, b"Hello World!");
            assert!(*fin);
        }
        _ => panic!("no body"),
    }
}

fn assert_welcome(frames: &[OutboundFrame], padding: &str) {
    assert_eq!(frames.len(), 1);
    assert_eq!(
        headers_of(&frames[0]),
        vec![
            (":status".to_string(), "233".to_string()),
            ("Hysteria-UDP".to_string(), "false".to_string()),
            ("Hysteria-CC-RX".to_string(), "auto".to_string()),
            ("Hysteria-Padding".to_string(), padding.to_string()),
        ]
    );
}

#[test]
fn right_token_is_welcomed() {
    let (let_in, frames) = rusteria_server::auth::auth(request("password"), "password");
    assert!(let_in);
    assert_welcome(&frames, "padding");
}

#[test]
fn wrong_token_sees_the_page() {
    for token in ["", "Password", "password ", "passwor", "8964"] {
        let (let_in, frames) = rusteria_server::auth::auth(request(token), "password");
        assert!(!let_in);
        assert_page(&frames);
    }
}

#[test]
fn incomplete_request_sees_the_page() {
    let mut headers = request("password");
    headers.pop();
    let (let_in, frames) = rusteria_server::auth::auth(headers, "password");
    assert!(!let_in);
    assert_page(&frames);
    let (let_in, frames) = rusteria_server::auth::auth(Vec::new(), "password");
    assert!(!let_in);
    assert_page(&frames);
}

#[test]
fn fixed_token_is_welcomed() {
    let (let_in, frames) = rustiera_server::auth::auth(request("8964"));
    assert!(let_in);
    assert_welcome(&frames, "8964");
    let (let_in, frames) = rustiera_server::auth::auth(request("password"));
    assert!(!let_in);
    assert_page(&frames);
}

#[test]
fn tokens_are_verified() {
    assert!(verify("secret", "secret"));
    assert!(!verify("secret", "Secret"));
    assert!(rustiera_server::auth::verify("8964"));
    assert!(!rustiera_server::auth::verify("8965"));
}

#[test]
fn page_is_shown() {
    assert_page(&masquerade());
}

#[test]
fn empty_token_can_be_right() {
    let (let_in, frames) = authenticate(&request(""), "", "p");
    assert!(let_in);
    assert_welcome(&frames, "p");
}

#[test]
fn unreadable_receive_rate_sees_the_page() {
    let rate = vec![Header::new(b"hysteria-cc-rx", b"abc")];
    let (let_in, frames) = rusteria_server::auth::auth(rate, "password");
    assert!(!let_in);
    assert_page(&frames);
    for value in [&b"abc"[..], &b""[..], &[0xff][..]] {
        let mut headers = request("password");
        headers.insert(0, Header::new(b"hysteria-cc-rx", value));
        let (let_in, frames) = rusteria_server::auth::auth(headers, "password");
        assert!(!let_in);
        assert_page(&frames);
        let mut headers = request("8964");
        headers.push(Header::new(b"hysteria-cc-rx", value));
        let (let_in, frames) = rustiera_server::auth::auth(headers);
        assert!(!let_in);
        assert_page(&frames);
    }
}
