use wormhole::hello::ClientHello;
use wormhole::hello::HandshakeError;
use wormhole::hello::ServerHello;
use wormhole::hello::decode_server_hello;
use wormhole::hello::handshake_reply;
use wormhole::hello::interpret_server_hello;
use wormhole::hello::terminates_process;

#[test]
fn encode_plain_hello() {
    let (hello, shown) = ClientHello::generate(
        Some(String::from("cid")),
        &String::from("sekrit"),
        Some(String::from("abc")),
        0x0123456789abcdef,
    );
    assert_eq!(shown, "cid");
    assert_eq!(hello.key, "sekrit:0123456789abcdef");
    let out = hello.encode();
    assert_eq!(
        out,
        "{\"id\":\"cid\",\"key\":\"sekrit:0123456789abcdef\",\"sub_domain\":\"abc\"}"
            .as_bytes()
            .to_vec()
    );
}

#[test]
fn fresh_nonce_gives_fresh_proof() {
    let (h1, _) = ClientHello::generate(None, &String::from("sekrit"), None, 1);
    let (h2, _) = ClientHello::generate(None, &String::from("sekrit"), None, 2);
    assert_ne!(h1.key, h2.key);
    assert_ne!(h1.encode(), h2.encode());
}

#[test]
fn encode_without_identity_or_sub_domain() {
    let (hello, shown) = ClientHello::generate(None, &String::from("k"), None, 0);
    assert_eq!(shown, "");
    let out = hello.encode();
    assert_eq!(
        out,
        "{\"id\":\"\",\"key\":\"k:0000000000000000\",\"sub_domain\":null}".as_bytes().to_vec()
    );
}

#[test]
fn encode_escapes_specials_and_controls() {
    let (hello, _) = ClientHello::generate(
        Some(String::from("a\"b\\c\nd")),
        &String::from("k"),
        None,
        0,
    );
    let out = hello.encode();
    assert_eq!(
        out,
        "{\"id\":\"a\\\"b\\\\c\\u000ad\",\"key\":\"k:0000000000000000\",\"sub_domain\":null}"
            .as_bytes()
            .to_vec()
    );
}

#[test]
fn decode_auth_failed() {
    let r = decode_server_hello(&"\"AuthFailed\"".as_bytes().to_vec());
    assert!(matches!(r, Ok(ServerHello::AuthFailed)));
}

#[test]
fn decode_invalid_sub_domain() {
    let r = decode_server_hello(&"\"InvalidSubDomain\"".as_bytes().to_vec());
    assert!(matches!(r, Ok(ServerHello::InvalidSubDomain)));
}

#[test]
fn decode_sub_domain_in_use() {
    let r = decode_server_hello(&"\"SubDomainInUse\"".as_bytes().to_vec());
    assert!(matches!(r, Ok(ServerHello::SubDomainInUse)));
}

#[test]
fn decode_success() {
    let r = decode_server_hello(&"{\"Success\":{\"sub_domain\":\"abc\"}}".as_bytes().to_vec());
    match r {
        Ok(ServerHello::Success { sub_domain }) => assert_eq!(sub_domain, "abc"),
        other => panic!("expected success, got {:?}", other.is_ok()),
    }
}

#[test]
fn decode_success_empty_sub_domain() {
    let r = decode_server_hello(&"{\"Success\":{\"sub_domain\":\"\"}}".as_bytes().to_vec());
    match r {
        Ok(ServerHello::Success { sub_domain }) => assert_eq!(sub_domain, ""),
        _ => panic!("expected success"),
    }
}

#[test]
fn decode_success_with_escapes() {
    let r = decode_server_hello(
        &"{\"Success\":{\"sub_domain\":\"a\\\"b\\\\c\\/d\\ne\"}}".as_bytes().to_vec(),
    );
    match r {
        Ok(ServerHello::Success { sub_domain }) => assert_eq!(sub_domain, "a\"b\\c/d\ne"),
        _ => panic!("expected success"),
    }
}

#[test]
fn decode_rejects_malformed_replies() {
    let cases: Vec<&str> = vec![
        "",
        "\"AuthFailed",
        "\"NoSuchVariant\"",
        "{\"Success\":{\"sub_domain\":\"abc\"}",
        "{\"Success\":{\"sub_domain\":\"abc}}",
        "{\"Success\":{\"subdomain\":\"abc\"}}",
        "{\"Success\":{\"sub_domain\":\"a\\x\"}}",
        "{\"Success\":{\"sub_domain\":\"a\\u0141\"}}",
        "{\"Success\":{\"sub_domain\":\"a\\u00g1\"}}",
        "{\"Success\":{\"sub_domain\":\"a\\u00\"}}",
        "{\"Success\":{\"sub_domain\":\"a\\uD834\"}}",
        "{\"Success\":{\"sub_domain\":\"a\"b\"}}",
        "not json at all",
    ];
    for c in cases {
        let r = decode_server_hello(&c.as_bytes().to_vec());
        assert!(matches!(r, Err(HandshakeError::MalformedReply)));
    }
}

#[test]
fn decode_accepts_u_escapes_of_seven_bit_values() {
    let r = decode_server_hello(
        &"{\"Success\":{\"sub_domain\":\"a\\u0041b\\u001bc\"}}".as_bytes().to_vec(),
    );
    match r {
        Ok(ServerHello::Success { sub_domain }) => assert_eq!(sub_domain, "aAb\u{1b}c"),
        _ => panic!("expected success"),
    }
}

#[test]
fn decode_rejects_invalid_utf8_sub_domain() {
    let mut bytes = "{\"Success\":{\"sub_domain\":\"".as_bytes().to_vec();
    bytes.push(0xFF);
    bytes.extend_from_slice("\"}}".as_bytes());
    let r = decode_server_hello(&bytes);
    assert!(matches!(r, Err(HandshakeError::MalformedReply)));
}

#[test]
fn interpret_each_variant() {
    assert_eq!(
        interpret_server_hello(ServerHello::Success { sub_domain: String::from("abc") }),
        Ok(String::from("abc"))
    );
    assert_eq!(
        interpret_server_hello(ServerHello::AuthFailed),
        Err(HandshakeError::AuthFailed)
    );
    assert_eq!(
        interpret_server_hello(ServerHello::InvalidSubDomain),
        Err(HandshakeError::InvalidSubDomain)
    );
    assert_eq!(
        interpret_server_hello(ServerHello::SubDomainInUse),
        Err(HandshakeError::SubDomainInUse)
    );
}

#[test]
fn auth_rejection_is_terminal() {
    let r = handshake_reply(&"\"AuthFailed\"".as_bytes().to_vec());
    assert_eq!(r, Err(HandshakeError::AuthFailed));
    let e = r.unwrap_err();
    assert!(terminates_process(&e));
}

#[test]
fn only_configuration_failures_are_terminal() {
    assert!(!terminates_process(&HandshakeError::TransportFailed));
    assert!(!terminates_process(&HandshakeError::SubDomainInUse));
    assert!(terminates_process(&HandshakeError::AuthFailed));
    assert!(terminates_process(&HandshakeError::MalformedReply));
    assert!(terminates_process(&HandshakeError::EmptyReply));
    assert!(terminates_process(&HandshakeError::InvalidSubDomain));
}

#[test]
fn handshake_reply_success_path() {
    let r = handshake_reply(&"{\"Success\":{\"sub_domain\":\"host42\"}}".as_bytes().to_vec());
    assert_eq!(r, Ok(String::from("host42")));
}
