use streams_core::error::Error;
use streams_core::hdf::{HDF, MAC_SIZE};
use streams_core::identifier::Identifier;
use streams_core::msgid::MsgId;
use streams_core::sizeofctx::SizeofCtx;
use streams_core::topic::Topic;
use streams_core::unwrapctx::UnwrapCtx;
use streams_core::wrapctx::WrapCtx;

fn zero_publisher() -> Identifier {
    Identifier::Ed25519PublicKey(vec![0u8; 32])
}

fn wrap_header(hdf: &HDF) -> Vec<u8> {
    let mut ctx = WrapCtx::new();
    hdf.wrap(&mut ctx);
    ctx.into_parts().0
}

#[test]
fn header_minimum_round_trips() {
    let topic = Topic::new(String::from("t"));
    let hdf = HDF::new(0x3, 0, zero_publisher(), &topic).unwrap();
    let bytes = wrap_header(&hdf);

    let mut sizeof = SizeofCtx::new();
    hdf.sizeof(&mut sizeof);
    assert_eq!(sizeof.size(), bytes.len() as u64);

    let mut ctx = UnwrapCtx::new(bytes.clone());
    let back = HDF::unwrap_from(&mut ctx).unwrap();
    assert_eq!(back.message_type(), 0x3);
    assert_eq!(back.payload_length(), 0);
    assert_eq!(back.payload_frame_count(), 0);
    assert_eq!(back.sequence(), 0);
    assert!(back.linked_msg_address().is_none());
    assert!(back.publisher().eq_id(hdf.publisher()));
    assert_eq!(back.topic_hash().as_bytes(), hdf.topic_hash().as_bytes());
    // the tag is the last 32 bytes, and the parse consumed everything
    assert_eq!(ctx.consumed(), bytes.len());
    assert!(bytes.len() > MAC_SIZE);
}

#[test]
fn header_packs_the_payload_length_boundary() {
    let topic = Topic::new(String::from("t"));
    let hdf = HDF::new(0x3, 0, zero_publisher(), &topic)
        .unwrap()
        .with_payload_length(1023)
        .unwrap();
    let bytes = wrap_header(&hdf);
    // bytes 0 and 1 are encoding and version; the packed pair follows
    assert_eq!(bytes[2], (0x3u8 << 4) | 0x03);
    assert_eq!(bytes[3], 0xFF);

    let mut ctx = UnwrapCtx::new(bytes);
    let back = HDF::unwrap_from(&mut ctx).unwrap();
    assert_eq!(back.payload_length(), 1023);
}

#[test]
fn header_rejects_reserved_bits_before_the_tag() {
    let topic = Topic::new(String::from("t"));
    let hdf = HDF::new(0x3, 0, zero_publisher(), &topic).unwrap();
    let mut bytes = wrap_header(&hdf);
    bytes[2] |= 0b0000_0100;
    let mut ctx = UnwrapCtx::new(bytes);
    assert_eq!(HDF::unwrap_from(&mut ctx).err(), Some(Error::ReservedBitsSet));
}

#[test]
fn header_rejects_wrong_encoding() {
    let topic = Topic::new(String::from("t"));
    let hdf = HDF::new(0x3, 0, zero_publisher(), &topic).unwrap();
    let mut bytes = wrap_header(&hdf);
    bytes[0] = 1;
    let mut ctx = UnwrapCtx::new(bytes);
    assert_eq!(HDF::unwrap_from(&mut ctx).err(), Some(Error::GuardFailed));
}

#[test]
fn header_rejects_unknown_version() {
    let topic = Topic::new(String::from("t"));
    let hdf = HDF::new(0x3, 0, zero_publisher(), &topic).unwrap();
    let mut bytes = wrap_header(&hdf);
    bytes[1] = 7;
    let mut ctx = UnwrapCtx::new(bytes);
    assert_eq!(HDF::unwrap_from(&mut ctx).err(), Some(Error::VersionMismatch));
}

#[test]
fn header_rejects_unknown_frame_type() {
    let topic = Topic::new(String::from("t"));
    let hdf = HDF::new(0x3, 0, zero_publisher(), &topic).unwrap();
    let mut bytes = wrap_header(&hdf);
    bytes[4] = 1;
    let mut ctx = UnwrapCtx::new(bytes);
    assert_eq!(HDF::unwrap_from(&mut ctx).err(), Some(Error::FrameTypeMismatch));
}

#[test]
fn header_tampering_fails_the_tag() {
    let topic = Topic::new(String::from("t"));
    let hdf = HDF::new(0x3, 5, zero_publisher(), &topic).unwrap();
    let bytes = wrap_header(&hdf);
    // flip one bit in the masked topic hash
    let mut tampered = bytes.clone();
    let idx = 8;
    tampered[idx] ^= 0x01;
    let mut ctx = UnwrapCtx::new(tampered);
    let r = HDF::unwrap_from(&mut ctx);
    assert!(r.is_err());
    // flipping a tag bit itself also fails
    let mut tail = bytes.clone();
    let last = tail.len() - 1;
    tail[last] ^= 0x80;
    let mut ctx2 = UnwrapCtx::new(tail);
    assert_eq!(HDF::unwrap_from(&mut ctx2).err(), Some(Error::MacMismatch));
}

#[test]
fn header_with_link_and_sequence_round_trips() {
    let topic = Topic::new(String::from("branch"));
    let link = MsgId::new(vec![0xAB; 12]).unwrap();
    let hdf = HDF::new(0xF, 123456, zero_publisher(), &topic)
        .unwrap()
        .with_linked_msg_address(link);
    let bytes = wrap_header(&hdf);

    let mut sizeof = SizeofCtx::new();
    hdf.sizeof(&mut sizeof);
    assert_eq!(sizeof.size(), bytes.len() as u64);

    let mut ctx = UnwrapCtx::new(bytes);
    let back = HDF::unwrap_from(&mut ctx).unwrap();
    assert_eq!(back.sequence(), 123456);
    match back.linked_msg_address() {
        Some(l) => assert_eq!(l.as_bytes(), &[0xAB; 12]),
        None => panic!("link lost"),
    }
}

#[test]
fn header_rejects_wide_message_type() {
    let topic = Topic::new(String::from("t"));
    assert_eq!(
        HDF::new(16, 0, zero_publisher(), &topic).err(),
        Some(Error::GuardFailed)
    );
    let hdf = HDF::new(1, 0, zero_publisher(), &topic).unwrap();
    assert_eq!(hdf.with_payload_length(1024).err(), Some(Error::GuardFailed));
}

#[test]
fn header_parse_stops_on_short_input() {
    let mut ctx = UnwrapCtx::new(vec![0u8; 3]);
    assert_eq!(HDF::unwrap_from(&mut ctx).err(), Some(Error::StreamExhausted));
}

#[test]
fn header_round_trips_a_did_publisher() {
    let topic = Topic::new(String::from("t"));
    let publisher = Identifier::DID(b"did:example:alice".to_vec());
    let hdf = HDF::new(2, 9, publisher, &topic).unwrap();
    let bytes = wrap_header(&hdf);
    let mut ctx = UnwrapCtx::new(bytes);
    let back = HDF::unwrap_from(&mut ctx).unwrap();
    assert!(back.publisher().eq_id(hdf.publisher()));
}
