use streams_core::crypto_ops::{
    ed25519_public_key, x25519_diffie_hellman, x25519_public_key, x25519_secret_from_ed25519,
};
use streams_core::error::Error;
use streams_core::identifier::Identifier;
use streams_core::identity::{content_decrypt, ed_sign, ed_verify, Ed25519, Identity, IdentityKind};
use streams_core::linkstore::LinkStore;
use streams_core::msgid::MsgId;
use streams_core::sponge::Spongos;
use streams_core::topic::{Topic, TopicHash};
use streams_core::unwrapctx::UnwrapCtx;
use streams_core::unwrapped::UnwrappedMessage;
use streams_core::wrapctx::WrapCtx;

#[test]
fn identity_identifier_is_the_public_key() {
    let seed = [0x05u8; 32];
    let key = Ed25519::new(seed.to_vec()).unwrap();
    let identity = Identity::new(IdentityKind::Ed25519(key));
    let expected = ed25519_public_key(&seed);
    assert!(identity
        .identifier()
        .eq_id(&Identifier::Ed25519PublicKey(expected)));
}

#[test]
fn exchange_key_is_derived_not_copied() {
    let seed = [0x05u8; 32];
    let key = Ed25519::new(seed.to_vec()).unwrap();
    let kind = IdentityKind::Ed25519(key);
    let xsk = kind.ke_sk();
    assert_eq!(xsk.len(), 32);
    assert_ne!(xsk, seed.to_vec());
    assert_eq!(xsk, x25519_secret_from_ed25519(&seed));
}

#[test]
fn diffie_hellman_agrees_for_both_parties() {
    let a = [0x21u8; 32];
    let b = [0x42u8; 32];
    let shared_ab = x25519_diffie_hellman(&a, x25519_public_key(&b).as_slice());
    let shared_ba = x25519_diffie_hellman(&b, x25519_public_key(&a).as_slice());
    assert_eq!(shared_ab, shared_ba);
    assert_ne!(shared_ab, a.to_vec());
}

#[test]
fn identifier_codec_round_trips_each_variant() {
    let cases = vec![
        Identifier::Ed25519PublicKey(vec![0x33; 32]),
        Identifier::PskId(vec![0x44; 16]),
        Identifier::DID(b"did:example:bob#key".to_vec()),
    ];
    for id in cases {
        let mut w = WrapCtx::new();
        id.wrap(&mut w);
        let (bytes, _) = w.into_parts();
        let mut u = UnwrapCtx::new(bytes);
        let back = Identifier::unwrap_from(&mut u).unwrap();
        assert!(back.eq_id(&id));
    }
}

#[test]
fn identifier_codec_rejects_unknown_tags() {
    let mut w = WrapCtx::new();
    w.mask(&[5u8]);
    let (bytes, _) = w.into_parts();
    let mut u = UnwrapCtx::new(bytes);
    assert_eq!(
        Identifier::unwrap_from(&mut u).err(),
        Some(Error::UnknownVariant(5))
    );
}

#[test]
fn identity_codec_round_trips() {
    let seed = [0x61u8; 32];
    let identity = Identity::new(IdentityKind::Ed25519(Ed25519::new(seed.to_vec()).unwrap()));
    let mut w = WrapCtx::new();
    identity.wrap(&mut w);
    let (bytes, _) = w.into_parts();
    let mut u = UnwrapCtx::new(bytes);
    let back = Identity::unwrap_from(&mut u).unwrap();
    assert!(back.identifier().eq_id(identity.identifier()));
    assert_eq!(back.kind().secret_bytes(), &seed);
}

#[test]
fn signature_block_round_trips_and_binds_the_state() {
    let seed = [0x51u8; 32];
    let identity = Identity::new(IdentityKind::Ed25519(Ed25519::new(seed.to_vec()).unwrap()));
    let pk = ed25519_public_key(&seed);

    let mut w = WrapCtx::new();
    w.absorb(&[1u8, 2, 3]);
    identity.sign(&mut w);
    let (bytes, _) = w.into_parts();

    let mut u = UnwrapCtx::new(bytes.clone());
    u.absorb_n(3).unwrap();
    assert!(Identity::verify(&mut u, pk.as_slice()).is_ok());

    // the signature covers the squeezed digest: a different transcript fails
    let mut u2 = UnwrapCtx::new(bytes.clone());
    u2.absorb_n(2).unwrap();
    u2.absorb_n(1).unwrap();
    // same bytes, same order: still fine
    assert!(Identity::verify(&mut u2, pk.as_slice()).is_ok());

    let mut u3 = UnwrapCtx::new(bytes);
    u3.absorb_ext(&[9u8]);
    u3.absorb_n(3).unwrap();
    assert_eq!(
        Identity::verify(&mut u3, pk.as_slice()),
        Err(Error::SignatureInvalid)
    );
}

#[test]
fn bare_signature_verifies_under_the_signer_only() {
    let sk = [0x71u8; 32];
    let other = [0x72u8; 32];
    let mut w = WrapCtx::new();
    w.absorb(&[7u8; 8]);
    ed_sign(&mut w, &sk);
    let (bytes, _) = w.into_parts();

    let mut u = UnwrapCtx::new(bytes.clone());
    u.absorb_n(8).unwrap();
    assert!(ed_verify(&mut u, ed25519_public_key(&sk).as_slice()).is_ok());

    let mut u2 = UnwrapCtx::new(bytes);
    u2.absorb_n(8).unwrap();
    assert_eq!(
        ed_verify(&mut u2, ed25519_public_key(&other).as_slice()),
        Err(Error::SignatureInvalid)
    );
}

#[test]
fn key_encapsulation_decrypts_with_the_exchange_secret() {
    let recipient_sk = [0x31u8; 32];
    let recipient_pk = x25519_public_key(&recipient_sk);
    let ephemeral_sk = [0x32u8; 32];
    let session = [0x99u8; 32];

    let mut w = WrapCtx::new();
    w.x25519(&ephemeral_sk, recipient_pk.as_slice(), &session);
    let (bytes, _) = w.into_parts();

    let mut u = UnwrapCtx::new(bytes.clone());
    let key = content_decrypt(&mut u, &recipient_sk).unwrap();
    assert_eq!(key, session.to_vec());

    let mut u2 = UnwrapCtx::new(bytes);
    assert_eq!(
        content_decrypt(&mut u2, &recipient_sk[..16]).err(),
        Some(Error::GuardFailed)
    );
}

#[test]
fn signing_key_needs_thirty_two_bytes() {
    assert!(Ed25519::new(vec![0u8; 32]).is_ok());
    assert_eq!(Ed25519::new(vec![0u8; 31]).err(), Some(Error::GuardFailed));
}

#[test]
fn topic_hash_is_a_digest_of_the_name() {
    let t = Topic::new(String::from("t"));
    let h1 = TopicHash::of_topic(&t);
    let h2 = TopicHash::of_topic(&Topic::new(String::from("t")));
    let h3 = TopicHash::of_topic(&Topic::new(String::from("u")));
    assert_eq!(h1.as_bytes(), h2.as_bytes());
    assert_ne!(h1.as_bytes(), h3.as_bytes());
    assert_eq!(h1.as_bytes().len(), 16);
}

#[test]
fn topic_accepts_only_utf8_bytes() {
    assert!(Topic::try_from_bytes(b"branch".to_vec()).is_ok());
    assert_eq!(
        Topic::try_from_bytes(vec![0xFF, 0xFE]).err(),
        Some(Error::GuardFailed)
    );
}

#[test]
fn msgid_needs_twelve_bytes() {
    assert!(MsgId::new(vec![0u8; 12]).is_ok());
    assert_eq!(MsgId::new(vec![0u8; 11]).err(), Some(Error::GuardFailed));
}

#[test]
fn committing_stores_the_sponge_for_the_link() {
    let link = MsgId::new(vec![0x77; 12]).unwrap();
    let mut sponge = Spongos::init();
    sponge.absorb(&[1u8, 2, 3]);
    let msg = UnwrappedMessage { link: link.duplicate(), content: 42u8, spongos: sponge };
    let mut store = LinkStore::new();
    let content = msg.commit(&mut store);
    assert_eq!(content, 42u8);
    assert!(store.lookup(&link).is_some());
    assert!(store.lookup(&MsgId::new(vec![0x78; 12]).unwrap()).is_none());
}
