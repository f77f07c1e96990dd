use collab_mode::signaling::auth::{
    colon_hex_text, hash_der, judge, same_key, sign_identity, sign_identity_at, signed_identity,
    verify_identity, verify_identity_at, AuthError, KeyCert, SignFailure, MAX_TIMESTAMP_OFFSET,
};
use collab_mode::signaling::{Base64Error, Identity, Signature};
use ring::rand::SystemRandom;
use ring::signature::{EcdsaKeyPair, ECDSA_P256_SHA256_FIXED_SIGNING};

fn create_key_cert(name: &str) -> KeyCert {
    let made = rcgen::generate_simple_self_signed(vec![name.to_string()]).unwrap();
    KeyCert {
        key_der: made.key_pair.serialize_der(),
        cert_der: made.cert.der().to_vec(),
    }
}

#[test]
fn round_trip() {
    let key_cert = create_key_cert("alice");
    let (id, sig) = sign_identity(&key_cert).unwrap();
    let hash = verify_identity(&id, &sig).unwrap();
    assert_eq!(hash, key_cert.cert_der_hash());
}

/// Sign `id` directly with `key_cert`'s private key
fn resign(id: &Identity, key_cert: &KeyCert) -> Signature {
    let rng = SystemRandom::new();
    let key = EcdsaKeyPair::from_pkcs8(&ECDSA_P256_SHA256_FIXED_SIGNING, &key_cert.key_der, &rng)
        .unwrap();
    Signature::from_bytes(key.sign(&rng, &id.to_bytes()).unwrap().as_ref())
}

#[test]
fn tampered_cert() {
    let key_cert = create_key_cert("alice");
    let (mut id, sig) = sign_identity(&key_cert).unwrap();
    // Flip the last byte of the cert; signature is over the
    // original bytes, so verification must fail.
    let last = id.cert.len() - 1;
    id.cert[last] ^= 0x01;
    assert!(verify_identity(&id, &sig).is_err());
}

#[test]
fn tampered_timestamp() {
    let key_cert = create_key_cert("alice");
    let (mut id, sig) = sign_identity(&key_cert).unwrap();
    id.timestamp = id.timestamp.wrapping_add(1);
    assert!(verify_identity(&id, &sig).is_err());
}

#[test]
fn stale_timestamp() {
    let key_cert = create_key_cert("alice");
    let (mut id, _sig) = sign_identity(&key_cert).unwrap();
    id.timestamp = id.timestamp.saturating_sub(MAX_TIMESTAMP_OFFSET + 1);
    let sig = resign(&id, &key_cert);
    assert!(verify_identity(&id, &sig).is_err());
}

#[test]
fn wrong_key() {
    // Sign with alice's private key but present bob's cert in the
    // identity. Verification must fail because bob's pubkey
    // doesn't match alice's signature.
    let alice = create_key_cert("alice");
    let bob = create_key_cert("bob");
    let (mut id, sig) = sign_identity(&alice).unwrap();
    id.cert = bob.cert_der.clone();
    assert!(verify_identity(&id, &sig).is_err());
}

#[test]
fn signed_identity_is_good_for_half_a_minute() {
    let key_cert = create_key_cert("alice");
    let (id, sig) = sign_identity_at(&key_cert, 1_000_000).unwrap();
    assert_eq!(id.timestamp, 1_000_000);
    for now in [999_970u64, 999_999, 1_000_000, 1_000_030] {
        assert_eq!(verify_identity_at(&id, &sig, now), Ok(key_cert.cert_der_hash()));
    }
    let late = verify_identity_at(&id, &sig, 1_000_031).unwrap_err();
    assert_eq!(late, AuthError::Timestamp { timestamp: 1_000_000, now: 1_000_031 });
    assert_eq!(
        late.message(),
        "Identity timestamp 1000000 outside max allowed 30s offset (now=1000031)"
    );
    assert!(verify_identity_at(&id, &sig, 999_969).is_err());
}

#[test]
fn objections_come_in_order() {
    let good = Ok(vec![1u8]);
    let key = Ok(vec![2u8]);
    assert_eq!(judge(10, 10, &good, &key, false, true), Ok(()));
    assert_eq!(judge(10, 10, &good, &key, false, false), Err(AuthError::Verification));
    assert_eq!(judge(10, 10, &good, &key, true, true), Err(AuthError::TooLong));
    let bad_key: Result<Vec<u8>, String> = Err("oops".to_string());
    assert_eq!(judge(10, 10, &good, &bad_key, true, true), Err(AuthError::Cert("oops".to_string())));
    let bad_sig = Err(Base64Error::InvalidPadding);
    let e = judge(10, 10, &bad_sig, &bad_key, true, false).unwrap_err();
    assert_eq!(e, AuthError::Signature(Base64Error::InvalidPadding));
    assert_eq!(e.message(), "Signature base64: Invalid padding");
    assert_eq!(
        judge(10, 41, &bad_sig, &bad_key, true, false),
        Err(AuthError::Timestamp { timestamp: 10, now: 41 })
    );
}

#[test]
fn bad_certificate_and_bad_signature() {
    let key_cert = create_key_cert("alice");
    let (mut id, sig) = sign_identity_at(&key_cert, 50).unwrap();
    let bad = Signature("not base64!".to_string());
    assert!(matches!(
        verify_identity_at(&id, &bad, 50),
        Err(AuthError::Signature(Base64Error::InvalidByte(3, 32)))
    ));
    id.cert = vec![1, 2, 3];
    match verify_identity_at(&id, &sig, 50) {
        Err(AuthError::Cert(text)) => assert!(!text.is_empty()),
        other => panic!("{:?}", other),
    }
}

#[test]
fn unusable_key_is_reported() {
    let mut key_cert = create_key_cert("alice");
    key_cert.key_der = vec![0, 1, 2];
    match sign_identity_at(&key_cert, 5) {
        Err(e) => {
            assert!(matches!(e, AuthError::Key(_)));
            assert!(e.message().starts_with("Loading signing key: "));
        }
        Ok(_) => panic!("signed with a broken key"),
    }
}

#[test]
fn hash_is_colon_separated_upper_hex() {
    assert_eq!(
        hash_der(b"abc"),
        "BA:78:16:BF:8F:01:CF:EA:41:41:40:DE:5D:AE:22:23:B0:03:61:A3:96:17:7A:9C:B4:10:FF:61:F2:00:15:AD"
    );
    assert_eq!(colon_hex_text(&[0x00, 0x0f, 0xa0]), "00:0F:A0");
    assert_eq!(colon_hex_text(&[]), "");
}

#[test]
fn key_and_certificate_belong_together() {
    let alice = create_key_cert("alice");
    let bob = create_key_cert("bob");
    assert_eq!(alice.is_pair(), Ok(true));
    let mixed = KeyCert { key_der: alice.key_der.clone(), cert_der: bob.cert_der.clone() };
    assert_eq!(mixed.is_pair(), Ok(false));
    let no_cert = KeyCert { key_der: vec![0, 1, 2], cert_der: vec![1, 2, 3] };
    assert_eq!(no_cert.is_pair(), Ok(false));
    let no_key = KeyCert { key_der: vec![0, 1, 2], cert_der: bob.cert_der };
    assert!(matches!(no_key.is_pair(), Err(AuthError::Key(_))));
    let failed = Err("oops".to_string());
    assert_eq!(same_key(&Ok(vec![1]), &Ok(vec![1])), Ok(true));
    assert_eq!(same_key(&Ok(vec![1]), &Ok(vec![1, 2])), Ok(false));
    assert_eq!(same_key(&failed, &failed), Ok(false));
    assert_eq!(same_key(&Ok(vec![1]), &failed), Err(AuthError::Key("oops".to_string())));
}

#[test]
fn outcome_of_signing() {
    let id = Identity { timestamp: 7, cert: vec![1, 2] };
    let (same, sig) = signed_identity(id.clone(), Ok(b"sig".to_vec())).unwrap();
    assert_eq!(same, id);
    assert_eq!(sig.0, "c2ln");
    let failed = signed_identity(id.clone(), Err(SignFailure::Key("k".to_string())));
    assert_eq!(failed.err(), Some(AuthError::Key("k".to_string())));
    let failed = signed_identity(id, Err(SignFailure::Sign("s".to_string())));
    assert_eq!(failed.err(), Some(AuthError::Sign("s".to_string())));
}
