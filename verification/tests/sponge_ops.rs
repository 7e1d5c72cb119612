use streams_core::error::Error;
use streams_core::sponge::Spongos;
use streams_core::unwrapctx::UnwrapCtx;
use streams_core::wrapctx::WrapCtx;

#[test]
fn permutation_changes_the_outer_part() {
    let mut s = Spongos::init();
    let before = s.squeeze(16);
    let mut t = Spongos::init();
    t.absorb(&[1u8, 2, 3]);
    let after = t.squeeze(16);
    assert_ne!(before, after);
}

#[test]
fn encrypt_then_decrypt_from_equal_states_round_trips() {
    let plain = vec![10u8, 20, 30, 40, 50];
    let mut a = Spongos::init();
    a.absorb(&[7u8; 4]);
    a.commit();
    let mut b = a.fork();
    let cipher = a.encrypt(plain.as_slice());
    assert_ne!(cipher, plain);
    let recovered = b.decrypt(cipher.as_slice());
    assert_eq!(recovered, plain);
    // both sponges hold the plaintext afterwards: their streams agree
    assert_eq!(a.squeeze(8), b.squeeze(8));
}

#[test]
fn fork_isolation_leaves_the_parent_untouched() {
    // a sponge that absorbed x, then forked and absorbed y inside the fork,
    // stands where absorbing x alone leaves it
    let x = [1u8; 10];
    let y = [2u8; 10];
    let mut parent = Spongos::init();
    parent.absorb(&x);
    let mut fork = parent.fork();
    fork.absorb(&y);
    let mut plain = Spongos::init();
    plain.absorb(&x);
    assert_eq!(parent.squeeze(32), plain.squeeze(32));
    let mut with_y = Spongos::init();
    with_y.absorb(&x);
    with_y.absorb(&y);
    assert_ne!(fork.squeeze(32), {
        let mut p2 = Spongos::init();
        p2.absorb(&x);
        p2.squeeze(32)
    });
    let _ = with_y;
}

#[test]
fn operator_order_decides_the_tag() {
    // swapping an operator that feeds the sponge with one that bypasses it
    // desynchronizes the tag
    let mut w = WrapCtx::new();
    w.absorb(&[0x55u8; 4]);
    w.commit();
    w.absorb(&[1u8, 2, 3]);
    w.skip(&[4u8, 5, 6]);
    w.commit();
    w.squeeze_emit(32);
    let (bytes, _) = w.into_parts();

    let mut good = UnwrapCtx::new(bytes.clone());
    good.absorb_n(4).unwrap();
    good.commit();
    good.absorb_n(3).unwrap();
    good.skip_n(3).unwrap();
    good.commit();
    assert!(good.squeeze_check(32).is_ok());

    let mut swapped = UnwrapCtx::new(bytes);
    swapped.absorb_n(4).unwrap();
    swapped.commit();
    swapped.skip_n(3).unwrap();
    swapped.absorb_n(3).unwrap();
    swapped.commit();
    assert_eq!(swapped.squeeze_check(32), Err(Error::MacMismatch));
}

#[test]
fn absorb_and_mask_read_to_the_same_state() {
    // the duplex keeps the reader's state a function of the wire alone: a
    // reader that masks where the writer absorbed still lands on the same
    // sponge, and only the recovered value differs
    let mut w = WrapCtx::new();
    w.absorb(&[0x55u8; 4]);
    w.commit();
    w.absorb(&[1u8, 2, 3]);
    w.commit();
    w.squeeze_emit(32);
    let (bytes, _) = w.into_parts();

    let mut reader = UnwrapCtx::new(bytes);
    reader.absorb_n(4).unwrap();
    reader.commit();
    let decrypted = reader.mask_n(3).unwrap();
    assert_ne!(decrypted, vec![1u8, 2, 3]);
    reader.commit();
    assert!(reader.squeeze_check(32).is_ok());
}

#[test]
fn masked_fields_decrypt_in_lockstep() {
    let mut w = WrapCtx::new();
    w.mask(&[9u8; 5]);
    w.mask_size(300);
    w.mask(&[8u8; 2]);
    let (bytes, _) = w.into_parts();

    let mut u = UnwrapCtx::new(bytes);
    assert_eq!(u.mask_n(5).unwrap(), vec![9u8; 5]);
    assert_eq!(u.mask_size().unwrap(), 300);
    assert_eq!(u.mask_n(2).unwrap(), vec![8u8; 2]);
}

#[test]
fn stream_exhaustion_is_reported() {
    let mut u = UnwrapCtx::new(vec![1u8, 2]);
    assert_eq!(u.absorb_n(3), Err(Error::StreamExhausted));
}
