use collab_mode::number::NumberError;
use collab_mode::signaling::key_store::{current_unix_epoch_in_secs, key_of, Lookup};
use collab_mode::signaling::{
    clone_texts, decode_trusted_header, encode_trusted_header, parse_identity_header,
    split_identity_header, Base64Error, CommaInId, Identity, IdentityError, SignalingError,
    SignalingMsg, Signature, SocketFailure,
};

fn ids(v: &[&str]) -> Vec<String> {
    v.iter().map(|s| s.to_string()).collect()
}

#[test]
fn trust_list_round_trip() {
    let list = ids(&["alice::AB", "bob::CD", ""]);
    let header = encode_trusted_header(&list).unwrap();
    assert_eq!(header, "alice::AB,bob::CD,");
    assert_eq!(decode_trusted_header(&header).unwrap(), list);
    assert_eq!(encode_trusted_header(&[]).unwrap(), "");
    assert_eq!(decode_trusted_header("").unwrap(), ids(&[]));
    assert_eq!(decode_trusted_header("x").unwrap(), ids(&["x"]));
}

#[test]
fn trust_list_refuses_commas() {
    let e = encode_trusted_header(&ids(&["a", "b,\"c", "d,e"])).unwrap_err();
    assert_eq!(e, CommaInId("b,\"c".to_string()));
    assert_eq!(
        e.message(),
        "endpoint id \"b,\\\"c\" contains a comma; cannot encode in header"
    );
}

#[test]
fn identity_round_trip() {
    let id = Identity::from_cert_der(1700000000, &[0, 1, 254, 255]);
    assert_eq!(id.to_text(), "1700000000:AAH+/w==");
    assert_eq!(parse_identity_header(&id.to_text()).unwrap(), id);
    assert_eq!(id.to_bytes(), b"1700000000:AAH+/w==".to_vec());
    let other = Identity::from_cert_der(1700000000, &[0, 1, 254, 254]);
    assert_ne!(id.to_bytes(), other.to_bytes());
}

#[test]
fn identity_that_cannot_be_read() {
    assert_eq!(
        parse_identity_header("17"),
        Err(IdentityError::MissingSeparator)
    );
    assert_eq!(
        parse_identity_header("x:AAAA"),
        Err(IdentityError::Timestamp(NumberError::InvalidDigit))
    );
    assert_eq!(
        parse_identity_header("18446744073709551616:AAAA"),
        Err(IdentityError::Timestamp(NumberError::TooLarge))
    );
    assert_eq!(
        parse_identity_header("1:AA!A"),
        Err(IdentityError::Cert(Base64Error::InvalidByte(2, b'!')))
    );
    assert_eq!(
        IdentityError::MissingSeparator.message(),
        "Identity missing ':' separator"
    );
    assert_eq!(
        IdentityError::Cert(Base64Error::InvalidPadding).message(),
        "cert base64: Invalid padding"
    );
    assert_eq!(
        IdentityError::Cert(Base64Error::InvalidPadding).field_message(),
        "Failed to parse cert: Invalid padding"
    );
    assert_eq!(
        IdentityError::Timestamp(NumberError::Empty).field_message(),
        "Failed to parse identity timestamp: cannot parse integer from empty string"
    );
    assert_eq!(
        split_identity_header("12:ab:c"),
        Ok((12, "ab:c".to_string()))
    );
}

#[test]
fn base64_errors() {
    let bad = |s: &str| Signature(s.to_string()).to_bytes().unwrap_err();
    assert_eq!(bad("A"), Base64Error::InvalidLength(1));
    assert_eq!(bad("AB=="), Base64Error::InvalidLastSymbol(1, b'B'));
    assert_eq!(bad("AA"), Base64Error::InvalidPadding);
    assert_eq!(bad("A*AA"), Base64Error::InvalidByte(1, b'*'));
    assert_eq!(Base64Error::InvalidByte(1, b'*').message(), "Invalid symbol 42, offset 1.");
    assert_eq!(Base64Error::InvalidPadding.message(), "Invalid padding");
}

#[test]
fn signature_round_trip() {
    let sig = Signature::from_bytes(&[1, 2, 3]);
    assert_eq!(sig, Signature("AQID".to_string()));
    assert_eq!(sig.to_bytes().unwrap(), vec![1, 2, 3]);
}

#[test]
fn socket_failures() {
    assert_eq!(
        SignalingError::from_socket(SocketFailure::ConnectionClosed),
        SignalingError::ConnectionBroke
    );
    assert_eq!(
        SignalingError::from_socket(SocketFailure::AlreadyClosed),
        SignalingError::ConnectionBroke
    );
    assert_eq!(
        SignalingError::from_socket(SocketFailure::Other("io".to_string())),
        SignalingError::OtherError("Websocket error: io".to_string())
    );
    assert_eq!(SignalingError::ConnectionBroke.message(), "Connection broke");
    assert_eq!(SignalingError::OtherError("x".to_string()).message(), "Error: x");
}

#[test]
fn messages_are_written_out() {
    let all = vec![
        SignalingMsg::Bound { id: "a".to_string(), trusted: ids(&[]) },
        SignalingMsg::Connect {
            sender: "a\"".to_string(),
            receiver: "b".to_string(),
            initiator: true,
        },
        SignalingMsg::Connect {
            sender: "a".to_string(),
            receiver: "b".to_string(),
            initiator: false,
        },
        SignalingMsg::SDP {
            sender: "a".to_string(),
            receiver: "b".to_string(),
            sdp: "line\nline".to_string(),
        },
        SignalingMsg::Candidate {
            sender: "a".to_string(),
            receiver: "b".to_string(),
            candidate: "c".to_string(),
        },
        SignalingMsg::Trust { sender: "a".to_string(), trusted: ids(&["x"]) },
        SignalingMsg::Trusted { id: "a".to_string(), trusted: ids(&["x", "y", "z"]) },
        SignalingMsg::IdNotFound { id: "a".to_string(), reason: "r".to_string() },
        SignalingMsg::Rejected { id: "a".to_string(), reason: "r".to_string() },
        SignalingMsg::Ping,
        SignalingMsg::Pong,
        SignalingMsg::Terminate { reason: "over".to_string() },
    ];
    for m in &all {
        assert_eq!(m.to_text(), format!("{:?}", m));
        assert_eq!(m.clone().to_text(), m.to_text());
    }
    assert_eq!(all[4].route(), Some(("a".to_string(), "b".to_string())));
    assert_eq!(all[9].route(), None);
    assert_eq!(clone_texts(&ids(&["p", "q"])), ids(&["p", "q"]));
}

#[test]
fn lookups() {
    assert_eq!(key_of(Lookup::NoRows), Ok(None));
    assert_eq!(key_of(Lookup::Row("k".to_string())), Ok(Some("k".to_string())));
    assert_eq!(
        key_of(Lookup::Failed("locked".to_string())),
        Err(SignalingError::OtherError("locked".to_string()))
    );
    assert!(current_unix_epoch_in_secs().unwrap() > 1_600_000_000);
}
