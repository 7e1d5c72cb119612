use streams_core::crypto_ops::{ed25519_public_key, x25519_public_key};
use streams_core::hdf::HDF;
use streams_core::topic::Topic;
use streams_core::error::Error;
use streams_core::identifier::Identifier;
use streams_core::keyload::{ContentUnwrap, ContentWrap, IdStore};
use streams_core::linkstore::LinkStore;
use streams_core::msgid::MsgId;
use streams_core::sizeofctx::SizeofCtx;
use streams_core::sponge::Spongos;
use streams_core::unwrapctx::UnwrapCtx;
use streams_core::wrapctx::WrapCtx;

const PSK: [u8; 32] = [0x01; 32];
const PSKID: [u8; 16] = [0xAA; 16];
const XSK: [u8; 32] = [0x02; 32];
const NONCE: [u8; 16] = [0x03; 16];
const SESSION_KEY: [u8; 32] = [0x04; 32];
const AUTHOR_SK: [u8; 32] = [0x05; 32];

fn link() -> MsgId {
    MsgId::new(vec![0x11; 12]).unwrap()
}

fn link_store() -> LinkStore {
    let mut store = LinkStore::new();
    store.update(link(), Spongos::init());
    store
}

fn psk_identifier() -> Identifier {
    Identifier::PskId(PSKID.to_vec())
}

fn x25519_identifier(secret: &[u8]) -> Identifier {
    Identifier::Ed25519PublicKey(x25519_public_key(secret))
}

fn author_pk() -> Vec<u8> {
    ed25519_public_key(&AUTHOR_SK)
}

fn two_recipient_keyload() -> ContentWrap {
    let keys = vec![
        (psk_identifier(), PSK.to_vec()),
        (x25519_identifier(&XSK), x25519_public_key(&XSK)),
    ];
    ContentWrap::new(
        link(),
        NONCE.to_vec(),
        SESSION_KEY.to_vec(),
        keys,
        AUTHOR_SK.to_vec(),
    )
    .unwrap()
}

fn wrap_bytes(content: &ContentWrap, store: &LinkStore) -> Vec<u8> {
    let mut ctx = WrapCtx::new();
    content.wrap(store, &mut ctx).unwrap();
    ctx.into_parts().0
}

fn psk_only_unwrapper() -> ContentUnwrap {
    let mut psks = IdStore::new();
    psks.insert(psk_identifier(), PSK.to_vec());
    ContentUnwrap::new(psks, IdStore::new(), author_pk()).unwrap()
}

fn x25519_only_unwrapper() -> ContentUnwrap {
    let mut sks = IdStore::new();
    sks.insert(x25519_identifier(&XSK), XSK.to_vec());
    ContentUnwrap::new(IdStore::new(), sks, author_pk()).unwrap()
}

#[test]
fn keyload_recovers_the_key_from_either_store() {
    let store = link_store();
    let content = two_recipient_keyload();
    let bytes = wrap_bytes(&content, &store);

    let mut by_psk = psk_only_unwrapper();
    let mut ctx = UnwrapCtx::new(bytes.clone());
    by_psk.unwrap(&store, &link(), &mut ctx).unwrap();
    assert_eq!(by_psk.key, Some(SESSION_KEY.to_vec()));
    assert_eq!(by_psk.nonce, NONCE.to_vec());
    assert_eq!(by_psk.key_ids.len(), 2);
    assert!(by_psk.key_ids[0].eq_id(&psk_identifier()));
    assert!(by_psk.key_ids[1].eq_id(&x25519_identifier(&XSK)));

    let mut by_xsk = x25519_only_unwrapper();
    let mut ctx2 = UnwrapCtx::new(bytes);
    by_xsk.unwrap(&store, &link(), &mut ctx2).unwrap();
    assert_eq!(by_xsk.key, Some(SESSION_KEY.to_vec()));
    assert_eq!(by_xsk.ke_pk, x25519_public_key(&XSK));
}

#[test]
fn keyload_with_an_unknown_recipient_still_recovers() {
    let store = link_store();
    let stranger: [u8; 32] = [0x06; 32];
    let keys = vec![
        (psk_identifier(), PSK.to_vec()),
        (x25519_identifier(&XSK), x25519_public_key(&XSK)),
        (x25519_identifier(&stranger), x25519_public_key(&stranger)),
    ];
    let content = ContentWrap::new(
        link(),
        NONCE.to_vec(),
        SESSION_KEY.to_vec(),
        keys,
        AUTHOR_SK.to_vec(),
    )
    .unwrap();
    let bytes = wrap_bytes(&content, &store);

    let mut by_psk = psk_only_unwrapper();
    let mut ctx = UnwrapCtx::new(bytes.clone());
    by_psk.unwrap(&store, &link(), &mut ctx).unwrap();
    assert_eq!(by_psk.key, Some(SESSION_KEY.to_vec()));
    assert_eq!(by_psk.key_ids.len(), 3);

    let mut by_xsk = x25519_only_unwrapper();
    let mut ctx2 = UnwrapCtx::new(bytes);
    by_xsk.unwrap(&store, &link(), &mut ctx2).unwrap();
    assert_eq!(by_xsk.key, Some(SESSION_KEY.to_vec()));
    assert_eq!(by_xsk.key_ids.len(), 3);
}

#[test]
fn keyload_without_any_material_leaves_no_key() {
    let store = link_store();
    let content = two_recipient_keyload();
    let bytes = wrap_bytes(&content, &store);

    let mut empty = ContentUnwrap::new(IdStore::new(), IdStore::new(), author_pk()).unwrap();
    let mut ctx = UnwrapCtx::new(bytes);
    empty.unwrap(&store, &link(), &mut ctx).unwrap();
    assert_eq!(empty.key, None);
    assert_eq!(empty.key_ids.len(), 2);
}

#[test]
fn keyload_signature_forgery_is_rejected() {
    let store = link_store();
    let content = two_recipient_keyload();
    let mut bytes = wrap_bytes(&content, &store);
    let last = bytes.len() - 1;
    bytes[last] ^= 0x80;

    let mut by_psk = psk_only_unwrapper();
    let mut ctx = UnwrapCtx::new(bytes);
    assert_eq!(
        by_psk.unwrap(&store, &link(), &mut ctx),
        Err(Error::SignatureInvalid)
    );
}

#[test]
fn keyload_sizeof_matches_the_wire() {
    let store = link_store();
    let content = two_recipient_keyload();
    let bytes = wrap_bytes(&content, &store);
    let mut sizeof = SizeofCtx::new();
    content.sizeof(&mut sizeof);
    assert_eq!(sizeof.size(), bytes.len() as u64);
}

#[test]
fn keyload_wrap_is_deterministic_under_fixed_ephemerals() {
    let store = link_store();
    let content = two_recipient_keyload();
    let ephs = vec![vec![0x07u8; 32], vec![0x08u8; 32]];
    let mut a = WrapCtx::new();
    content.wrap_with(&store, &ephs, &mut a).unwrap();
    let mut b = WrapCtx::new();
    content.wrap_with(&store, &ephs, &mut b).unwrap();
    assert_eq!(a.into_parts().0, b.into_parts().0);
}

#[test]
fn keyload_needs_the_stored_link() {
    let empty_store = LinkStore::new();
    let content = two_recipient_keyload();
    let mut ctx = WrapCtx::new();
    assert_eq!(
        content.wrap(&empty_store, &mut ctx),
        Err(Error::GuardFailed)
    );
}

#[test]
fn fresh_unwrapper_starts_zeroed() {
    let c = ContentUnwrap::new(IdStore::new(), IdStore::new(), author_pk()).unwrap();
    assert_eq!(c.link.as_bytes(), &[0u8; 12]);
    assert_eq!(c.nonce, vec![0u8; 16]);
    assert_eq!(c.ke_pk, vec![0u8; 32]);
    assert!(c.key.is_none());
    assert!(c.key_ids.is_empty());
}

#[test]
fn psk_branch_leaves_the_recipient_key_untouched() {
    // only an X25519 branch fills ke_pk; a pre-shared-key recovery leaves it
    // at its initial zeros, and the link is recorded either way
    let store = link_store();
    let content = two_recipient_keyload();
    let bytes = wrap_bytes(&content, &store);
    let mut by_psk = psk_only_unwrapper();
    let mut ctx = UnwrapCtx::new(bytes);
    by_psk.unwrap(&store, &link(), &mut ctx).unwrap();
    assert_eq!(by_psk.ke_pk, vec![0u8; 32]);
    assert_eq!(by_psk.link.as_bytes(), link().as_bytes());
}

#[test]
fn unwrapper_rejects_a_short_author_key() {
    assert_eq!(
        ContentUnwrap::new(IdStore::new(), IdStore::new(), vec![0u8; 31]).err(),
        Some(Error::GuardFailed)
    );
}

#[test]
fn header_and_keyload_share_one_wire_buffer() {
    // a whole message: the header frame, then the keyload content, emitted
    // into one buffer and parsed back in sequence
    let store = link_store();
    let topic = Topic::new(String::from("branch"));
    let author_id = Identifier::Ed25519PublicKey(author_pk());
    let header = HDF::new(4, 2, author_id, &topic)
        .unwrap()
        .with_linked_msg_address(link());
    let content = two_recipient_keyload();

    let mut w = WrapCtx::new();
    header.wrap(&mut w);
    content.wrap(&store, &mut w).unwrap();
    let (wire, _) = w.into_parts();

    let mut u = UnwrapCtx::new(wire);
    let parsed_header = HDF::unwrap_from(&mut u).unwrap();
    assert_eq!(parsed_header.message_type(), 4);
    let mut by_psk = psk_only_unwrapper();
    by_psk.unwrap(&store, &link(), &mut u).unwrap();
    assert_eq!(by_psk.key, Some(SESSION_KEY.to_vec()));
}

#[test]
fn keyload_tampered_identifier_is_noticed() {
    // flipping a bit in the first masked identifier derails the parse: the
    // tag byte decrypts to an unknown variant, or a later check fails
    let store = link_store();
    let content = two_recipient_keyload();
    let mut bytes = wrap_bytes(&content, &store);
    bytes[16] ^= 0xFF;
    let mut by_psk = psk_only_unwrapper();
    let mut ctx = UnwrapCtx::new(bytes);
    assert!(by_psk.unwrap(&store, &link(), &mut ctx).is_err());
}
