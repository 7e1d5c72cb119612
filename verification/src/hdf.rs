//! The Header Data Frame: the fixed-schema, bit-packed prefix of every
//! message, authenticated by a 32-byte squeezed tag.

use vstd::prelude::*;
use crate::error::Error;
use crate::identifier::{id_parse, id_sizeof, id_wire, idv_wf, IdV, Identifier};
use crate::msgid::{MsgId, MSGID_SIZE};
use crate::size::{pow256, size_num_bytes};
use crate::sizeofctx::SizeofCtx;
use crate::topic::{TopicHash, TOPIC_HASH_SIZE};
use crate::unwrapctx::{
    um_absorb, um_absorb_ext, um_commit, um_mask, um_skip, um_skip_size, um_squeeze_check,
    UnwrapCtx, UnwrapM,
};
use crate::wrapctx::{
    wm_absorb, wm_absorb_ext, wm_commit, wm_mask, wm_skip, wm_skip_size, wm_squeeze, WrapCtx,
    WrapM,
};

verus! {

/// The UTF-8 payload-encoding sentinel.
pub const UTF8: u8 = 0;

/// The protocol version this codec speaks.
pub const STREAMS_1_VER: u8 = 0;

/// The frame type of a header frame.
pub const HDF_ID: u8 = 0;

/// Width of the header's authentication tag in bytes.
pub const MAC_SIZE: usize = 32;

/// What a header looks like to the model.
pub ghost struct HdfV {
    pub encoding: u8,
    pub version: u8,
    pub message_type: u8,
    pub payload_length: u16,
    pub frame_type: u8,
    pub payload_frame_count: u32,
    pub linked_msg_address: Option<Seq<u8>>,
    pub sequence: nat,
    pub publisher: IdV,
    pub topic_hash: Seq<u8>,
}

pub open spec fn hdf_wf(h: HdfV) -> bool {
    &&& h.encoding == UTF8
    &&& h.version == STREAMS_1_VER
    &&& h.frame_type == HDF_ID
    &&& h.message_type <= 15
    &&& h.payload_length <= 1023
    &&& h.payload_frame_count < 0x40_0000
    &&& match h.linked_msg_address {
        Some(link) => link.len() == MSGID_SIZE,
        None => true,
    }
    &&& idv_wf(h.publisher)
    &&& h.topic_hash.len() == TOPIC_HASH_SIZE
    &&& h.sequence <= usize::MAX
}

/// The two skipped bytes packing the message type and the payload length:
/// four type bits, two reserved zero bits, ten length bits.
pub open spec fn mtpl_bytes(h: HdfV) -> Seq<u8> {
    seq![
        (h.message_type << 4) | (((h.payload_length >> 8) as u8) & 0b0000_0011),
        h.payload_length as u8,
    ]
}

/// The three skipped bytes carrying the low 24 bits of the frame count; the
/// top two bits of the first byte are reserved zero.
pub open spec fn pfc_bytes(h: HdfV) -> Seq<u8> {
    seq![
        ((h.payload_frame_count >> 16) as u8) & 0b0011_1111,
        (h.payload_frame_count >> 8) as u8,
        h.payload_frame_count as u8,
    ]
}

/// The absorbed form of an optional link: a presence byte, then the bytes.
pub open spec fn maybe_wire(link: Option<Seq<u8>>) -> Seq<u8> {
    match link {
        None => seq![0u8],
        Some(l) => seq![1u8] + l,
    }
}

/// One header, as the wrap interpreter runs it.
pub open spec fn hdf_wrap_m(m: WrapM, h: HdfV) -> WrapM {
    let m1 = wm_absorb(m, seq![h.encoding]);
    let m2 = wm_absorb(m1, seq![h.version]);
    let m3 = wm_skip(m2, mtpl_bytes(h));
    let m4 = wm_absorb_ext(m3, seq![h.message_type << 4]);
    let m5 = wm_absorb(m4, seq![h.frame_type]);
    let m6 = wm_skip(m5, pfc_bytes(h));
    let m7 = wm_absorb(m6, maybe_wire(h.linked_msg_address));
    let m8 = wm_mask(m7, h.topic_hash);
    let m9 = wm_mask(m8, id_wire(h.publisher));
    let m10 = wm_skip_size(m9, h.sequence);
    wm_squeeze(wm_commit(m10), MAC_SIZE as nat)
}

/// How many bytes a header takes on the wire.
pub open spec fn hdf_sizeof(h: HdfV) -> nat {
    (8 as nat) + maybe_wire(h.linked_msg_address).len() + (TOPIC_HASH_SIZE as nat) + id_sizeof(
        h.publisher,
    ) + 1 + size_num_bytes(h.sequence) + (MAC_SIZE as nat)
}

/// Parse an optional link.
pub open spec fn maybe_msgid_parse(m: UnwrapM) -> Result<(UnwrapM, Option<Seq<u8>>), Error> {
    match um_absorb(m, 1) {
        Err(e) => Err(e),
        Ok(t) => {
            if t.1[0] == 0u8 {
                Ok((t.0, None))
            } else if t.1[0] == 1u8 {
                match um_absorb(t.0, MSGID_SIZE as nat) {
                    Err(e) => Err(e),
                    Ok(t2) => Ok((t2.0, Some(t2.1))),
                }
            } else {
                Err(Error::UnknownVariant(t.1[0]))
            }
        },
    }
}

/// One header, as the unwrap interpreter runs it: the encoding sentinel,
/// version, reserved bits and frame type are guarded before the tag is
/// checked.
pub open spec fn hdf_parse(m: UnwrapM) -> Result<(UnwrapM, HdfV), Error> {
    match um_absorb(m, 1) {
        Err(e) => Err(e),
        Ok(t_enc) => {
            if t_enc.1[0] != UTF8 {
                Err(Error::GuardFailed)
            } else {
                match um_absorb(t_enc.0, 1) {
                    Err(e) => Err(e),
                    Ok(t_ver) => {
                        if t_ver.1[0] != STREAMS_1_VER {
                            Err(Error::VersionMismatch)
                        } else {
                            match um_skip(t_ver.0, 2) {
                                Err(e) => Err(e),
                                Ok(t_mtpl) => {
                                    if t_mtpl.1[0] & 0b0000_1100 != 0 {
                                        Err(Error::ReservedBitsSet)
                                    } else {
                                        let m4 = um_absorb_ext(
                                            t_mtpl.0,
                                            seq![t_mtpl.1[0] & 0b1111_0000],
                                        );
                                        match um_absorb(m4, 1) {
                                            Err(e) => Err(e),
                                            Ok(t_ft) => {
                                                if t_ft.1[0] != HDF_ID {
                                                    Err(Error::FrameTypeMismatch)
                                                } else {
                                                    hdf_parse_tail(
                                                        t_ft.0,
                                                        t_enc.1[0],
                                                        t_mtpl.1,
                                                    )
                                                }
                                            },
                                        }
                                    }
                                },
                            }
                        }
                    },
                }
            }
        },
    }
}

/// The rest of a header parse, after the guarded fixed bytes.
pub open spec fn hdf_parse_tail(m: UnwrapM, encoding: u8, mtpl: Seq<u8>) -> Result<
    (UnwrapM, HdfV),
    Error,
> {
    match um_skip(m, 3) {
        Err(e) => Err(e),
        Ok(t_pfc) => {
            if t_pfc.1[0] & 0b1100_0000 != 0 {
                Err(Error::ReservedBitsSet)
            } else {
                match maybe_msgid_parse(t_pfc.0) {
                    Err(e) => Err(e),
                    Ok(t_link) => match um_mask(t_link.0, TOPIC_HASH_SIZE as nat) {
                        Err(e) => Err(e),
                        Ok(t_th) => match id_parse(t_th.0) {
                            Err(e) => Err(e),
                            Ok(t_pub) => match um_skip_size(t_pub.0) {
                                Err(e) => Err(e),
                                Ok(t_seq) => {
                                    if t_seq.1 > usize::MAX {
                                        Err(Error::GuardFailed)
                                    } else {
                                        match um_squeeze_check(
                                            um_commit(t_seq.0),
                                            MAC_SIZE as nat,
                                        ) {
                                            Err(e) => Err(e),
                                            Ok(m_end) => Ok(
                                                (
                                                    m_end,
                                                    HdfV {
                                                        encoding,
                                                        version: STREAMS_1_VER,
                                                        message_type: mtpl[0] >> 4,
                                                        payload_length: (((mtpl[0]
                                                            & 0b0000_0011) as u16) << 8) | (
                                                        mtpl[1] as u16),
                                                        frame_type: HDF_ID,
                                                        payload_frame_count: (((t_pfc.1[0]
                                                            as u32) << 16) | ((t_pfc.1[1]
                                                            as u32) << 8)) | (t_pfc.1[2] as u32),
                                                        linked_msg_address: t_link.1,
                                                        sequence: t_seq.1,
                                                        publisher: t_pub.1,
                                                        topic_hash: t_th.1,
                                                    },
                                                ),
                                            ),
                                        }
                                    }
                                },
                            },
                        },
                    },
                }
            }
        },
    }
}

/// The bytes one header puts on the wire, as a function of the sponge state
/// the wrap starts from.
pub open spec fn hdf_wire(s: crate::sponge::SpState, h: HdfV) -> Seq<u8> {
    hdf_wrap_m(WrapM { sp: s, out: Seq::<u8>::empty() }, h).out
}

/// Wrapping appends the header's wire bytes to whatever was emitted before,
/// and drives the sponge independently of it.
pub proof fn lemma_hdf_wrap_out(m: WrapM, h: HdfV)
    ensures
        hdf_wrap_m(m, h).sp == hdf_wrap_m(WrapM { sp: m.sp, out: Seq::<u8>::empty() }, h).sp,
        hdf_wrap_m(m, h).out == m.out + hdf_wire(m.sp, h),
{
    let a0 = WrapM { sp: m.sp, out: Seq::<u8>::empty() };
    let b1 = wm_absorb(m, seq![h.encoding]);
    let a1 = wm_absorb(a0, seq![h.encoding]);
    assert(b1.out =~= m.out + a1.out);
    let b2 = wm_absorb(b1, seq![h.version]);
    let a2 = wm_absorb(a1, seq![h.version]);
    assert(b2.out =~= m.out + a2.out);
    let b3 = wm_skip(b2, mtpl_bytes(h));
    let a3 = wm_skip(a2, mtpl_bytes(h));
    assert(b3.out =~= m.out + a3.out);
    let b4 = wm_absorb_ext(b3, seq![h.message_type << 4]);
    let a4 = wm_absorb_ext(a3, seq![h.message_type << 4]);
    let b5 = wm_absorb(b4, seq![h.frame_type]);
    let a5 = wm_absorb(a4, seq![h.frame_type]);
    assert(b5.out =~= m.out + a5.out);
    let b6 = wm_skip(b5, pfc_bytes(h));
    let a6 = wm_skip(a5, pfc_bytes(h));
    assert(b6.out =~= m.out + a6.out);
    let b7 = wm_absorb(b6, maybe_wire(h.linked_msg_address));
    let a7 = wm_absorb(a6, maybe_wire(h.linked_msg_address));
    assert(b7.out =~= m.out + a7.out);
    let b8 = wm_mask(b7, h.topic_hash);
    let a8 = wm_mask(a7, h.topic_hash);
    assert(b8.out =~= m.out + a8.out);
    let b9 = wm_mask(b8, id_wire(h.publisher));
    let a9 = wm_mask(a8, id_wire(h.publisher));
    assert(b9.out =~= m.out + a9.out);
    let b10 = wm_skip_size(b9, h.sequence);
    let a10 = wm_skip_size(a9, h.sequence);
    assert(b10.out =~= m.out + a10.out);
    let b11 = wm_squeeze(wm_commit(b10), MAC_SIZE as nat);
    let a11 = wm_squeeze(wm_commit(a10), MAC_SIZE as nat);
    assert(b11.out =~= m.out + a11.out);
}

/// Sizeof exactness for the header: the counter's budget equals the number of
/// bytes the wrap emits, whatever sponge state it starts from.
pub proof fn lemma_hdf_sizeof_exact(s: crate::sponge::SpState, h: HdfV)
    requires
        hdf_wf(h),
    ensures
        hdf_wire(s, h).len() == hdf_sizeof(h),
{
    let a0 = WrapM { sp: s, out: Seq::<u8>::empty() };
    let a1 = wm_absorb(a0, seq![h.encoding]);
    let a2 = wm_absorb(a1, seq![h.version]);
    let a3 = wm_skip(a2, mtpl_bytes(h));
    let a4 = wm_absorb_ext(a3, seq![h.message_type << 4]);
    let a5 = wm_absorb(a4, seq![h.frame_type]);
    let a6 = wm_skip(a5, pfc_bytes(h));
    let a7 = wm_absorb(a6, maybe_wire(h.linked_msg_address));
    let a8 = wm_mask(a7, h.topic_hash);
    let a9 = wm_mask(a8, id_wire(h.publisher));
    let a10 = wm_skip_size(a9, h.sequence);
    let a11 = wm_squeeze(wm_commit(a10), MAC_SIZE as nat);
    crate::sponge::lemma_sp_encrypt_len(a7.sp, h.topic_hash);
    crate::sponge::lemma_sp_encrypt_len(a8.sp, id_wire(h.publisher));
    crate::identifier::lemma_id_wire_len(h.publisher);
    crate::size::lemma_pow256_8();
    crate::size::lemma_num_bytes_le(h.sequence, 8);
    crate::size::lemma_be_bytes_len(h.sequence, size_num_bytes(h.sequence));
    crate::sponge::lemma_sp_squeeze_raw_len(
        crate::sponge::sp_commit(wm_commit(a10).sp),
        MAC_SIZE as nat,
    );
    assert(hdf_wire(s, h).len() == a11.out.len());
}

/// Round trip for the header: parsing what a wrap emitted, from the same
/// sponge state, passes every guard, checks the tag, and gives back the
/// header and the wrap's final sponge.
#[verifier::rlimit(60)]
pub proof fn lemma_hdf_round_trip(m: UnwrapM, h: HdfV)
    requires
        hdf_wf(h),
        0 <= m.cur,
        m.cur + hdf_wire(m.sp, h).len() <= m.inp.len(),
        m.inp.subrange(m.cur, m.cur + hdf_wire(m.sp, h).len()) == hdf_wire(m.sp, h),
    ensures
        hdf_parse(m) == Ok::<(UnwrapM, HdfV), Error>(
            (
                UnwrapM {
                    sp: hdf_wrap_m(WrapM { sp: m.sp, out: Seq::<u8>::empty() }, h).sp,
                    inp: m.inp,
                    cur: m.cur + hdf_wire(m.sp, h).len(),
                },
                h,
            ),
        ),
{
    let a0 = WrapM { sp: m.sp, out: Seq::<u8>::empty() };
    let a1 = wm_absorb(a0, seq![h.encoding]);
    let a2 = wm_absorb(a1, seq![h.version]);
    let a3 = wm_skip(a2, mtpl_bytes(h));
    let a4 = wm_absorb_ext(a3, seq![h.message_type << 4]);
    let a5 = wm_absorb(a4, seq![h.frame_type]);
    let a6 = wm_skip(a5, pfc_bytes(h));
    let a7 = wm_absorb(a6, maybe_wire(h.linked_msg_address));
    let a8 = wm_mask(a7, h.topic_hash);
    let a9 = wm_mask(a8, id_wire(h.publisher));
    let a10 = wm_skip_size(a9, h.sequence);
    let a11 = wm_squeeze(wm_commit(a10), MAC_SIZE as nat);

    // segment values, in wire order
    let s1 = seq![h.encoding];
    let s2 = seq![h.version];
    let s3 = mtpl_bytes(h);
    let s5 = seq![h.frame_type];
    let s6 = pfc_bytes(h);
    let s7 = maybe_wire(h.linked_msg_address);
    let s8 = crate::sponge::sp_encrypt(a7.sp, h.topic_hash).1;
    let s9 = crate::sponge::sp_encrypt(a8.sp, id_wire(h.publisher)).1;
    let s10 = crate::size::size_wire(h.sequence);
    let s11 = crate::sponge::sp_squeeze(wm_commit(a10).sp, MAC_SIZE as nat).1;

    crate::sponge::lemma_sp_encrypt_len(a7.sp, h.topic_hash);
    crate::sponge::lemma_sp_encrypt_len(a8.sp, id_wire(h.publisher));
    crate::identifier::lemma_id_wire_len(h.publisher);
    crate::size::lemma_pow256_8();
    assert(h.sequence < crate::size::pow256(8));
    crate::size::lemma_num_bytes_le(h.sequence, 8);
    crate::size::lemma_be_bytes_len(h.sequence, size_num_bytes(h.sequence));
    crate::sponge::lemma_sp_squeeze_raw_len(
        crate::sponge::sp_commit(wm_commit(a10).sp),
        MAC_SIZE as nat,
    );

    let w = hdf_wire(m.sp, h);
    assert(w =~= s1 + (s2 + (s3 + (s5 + (s6 + (s7 + (s8 + (s9 + (s10 + s11)))))))));

    // walk the parse, splitting one segment off the front each time
    let m0 = m;
    crate::unwrapctx::lemma_plain_segments(m0, s1, s2 + (s3 + (s5 + (s6 + (s7 + (s8 + (s9 + (s10
        + s11))))))));
    crate::unwrapctx::lemma_absorb_step(m0, s1);
    let m1 = UnwrapM { sp: a1.sp, inp: m.inp, cur: m0.cur + 1 };
    crate::unwrapctx::lemma_plain_segments(m1, s2, s3 + (s5 + (s6 + (s7 + (s8 + (s9 + (s10
        + s11)))))));
    crate::unwrapctx::lemma_absorb_step(m1, s2);
    let m2 = UnwrapM { sp: a2.sp, inp: m.inp, cur: m1.cur + 1 };
    crate::unwrapctx::lemma_plain_segments(m2, s3, s5 + (s6 + (s7 + (s8 + (s9 + (s10 + s11))))));
    crate::unwrapctx::lemma_skip_step(m2, s3);
    let m3 = UnwrapM { sp: a2.sp, inp: m.inp, cur: m2.cur + 2 };

    // the guarded bits of the packed bytes, and the fields they unpack to
    let mt = h.message_type;
    let pl = h.payload_length;
    let b0 = s3[0];
    assert(b0 == (mt << 4) | (((pl >> 8) as u8) & 0b0000_0011));
    assert(mt <= 15 && pl <= 1023 ==> ((mt << 4) | (((pl >> 8) as u8) & 0b0000_0011))
        & 0b0000_1100 == 0) by (bit_vector);
    assert(mt <= 15 && pl <= 1023 ==> ((mt << 4) | (((pl >> 8) as u8) & 0b0000_0011))
        & 0b1111_0000 == mt << 4) by (bit_vector);
    assert(mt <= 15 && pl <= 1023 ==> ((mt << 4) | (((pl >> 8) as u8) & 0b0000_0011)) >> 4 == mt)
        by (bit_vector);
    assert(mt <= 15 && pl <= 1023 ==> ((((((mt << 4) | (((pl >> 8) as u8) & 0b0000_0011))
        & 0b0000_0011) as u16) << 8) | ((pl as u8) as u16)) == pl) by (bit_vector);

    let m4 = um_absorb_ext(m3, seq![b0 & 0b1111_0000]);
    assert(m4.sp == a4.sp);
    crate::unwrapctx::lemma_plain_segments(m4, s5, s6 + (s7 + (s8 + (s9 + (s10 + s11)))));
    crate::unwrapctx::lemma_absorb_step(m4, s5);
    let m5 = UnwrapM { sp: a5.sp, inp: m.inp, cur: m4.cur + 1 };
    crate::unwrapctx::lemma_plain_segments(m5, s6, s7 + (s8 + (s9 + (s10 + s11))));
    crate::unwrapctx::lemma_skip_step(m5, s6);
    let m6 = UnwrapM { sp: a5.sp, inp: m.inp, cur: m5.cur + 3 };

    let fc = h.payload_frame_count;
    assert(fc < 0x40_0000 ==> (((fc >> 16) as u8) & 0b0011_1111) & 0b1100_0000 == 0)
        by (bit_vector);
    assert(fc < 0x40_0000 ==> (((((((fc >> 16) as u8) & 0b0011_1111) as u32) << 16) | ((((fc
        >> 8) as u8) as u32) << 8)) | ((fc as u8) as u32)) == fc) by (bit_vector);

    crate::unwrapctx::lemma_plain_segments(m6, s7, s8 + (s9 + (s10 + s11)));
    match h.linked_msg_address {
        None => {
            crate::unwrapctx::lemma_absorb_step(m6, s7);
        },
        Some(link) => {
            crate::unwrapctx::lemma_plain_segments(m6, seq![1u8], link);
            crate::unwrapctx::lemma_absorb_step(m6, seq![1u8]);
            let m6b = UnwrapM {
                sp: crate::sponge::sp_absorb(m6.sp, seq![1u8]),
                inp: m.inp,
                cur: m6.cur + 1,
            };
            crate::unwrapctx::lemma_absorb_step(m6b, link);
            crate::sponge::lemma_sp_absorb_append(m6.sp, seq![1u8], link);
        },
    }
    let m7 = UnwrapM { sp: a7.sp, inp: m.inp, cur: m6.cur + s7.len() };
    assert(maybe_msgid_parse(m6) == Ok::<(UnwrapM, Option<Seq<u8>>), Error>(
        (m7, h.linked_msg_address),
    ));

    crate::unwrapctx::lemma_plain_segments(m7, s8, s9 + (s10 + s11));
    crate::unwrapctx::lemma_mask_step(m7, h.topic_hash);
    let m8 = UnwrapM { sp: a8.sp, inp: m.inp, cur: m7.cur + TOPIC_HASH_SIZE as int };
    crate::unwrapctx::lemma_plain_segments(m8, s9, s10 + s11);
    crate::identifier::lemma_id_round_trip(m8, h.publisher);
    let m9 = UnwrapM { sp: a9.sp, inp: m.inp, cur: m8.cur + id_wire(h.publisher).len() };
    crate::unwrapctx::lemma_plain_segments(m9, s10, s11);
    crate::unwrapctx::lemma_skip_size_step(m9, h.sequence);
    let m10 = UnwrapM { sp: a9.sp, inp: m.inp, cur: m9.cur + s10.len() };
    assert(m10.sp == a10.sp);
    let m10c = um_commit(m10);
    assert(m10c.sp == wm_commit(a10).sp);
    crate::unwrapctx::lemma_squeeze_check_step(m10c, MAC_SIZE as nat);
    let m11 = UnwrapM {
        sp: crate::sponge::sp_squeeze(m10c.sp, MAC_SIZE as nat).0,
        inp: m.inp,
        cur: m10c.cur + MAC_SIZE,
    };
    assert(m11.sp == a11.sp);
    assert(m11.cur == m.cur + w.len());
}

/// The header of a message.
pub struct HDF {
    encoding: u8,
    pub version: u8,
    pub message_type: u8,
    payload_length: u16,
    frame_type: u8,
    payload_frame_count: u32,
    pub linked_msg_address: Option<MsgId>,
    pub sequence: usize,
    pub publisher: Identifier,
    pub topic_hash: TopicHash,
}

impl View for HDF {
    type V = HdfV;

    closed spec fn view(&self) -> HdfV {
        HdfV {
            encoding: self.encoding,
            version: self.version,
            message_type: self.message_type,
            payload_length: self.payload_length,
            frame_type: self.frame_type,
            payload_frame_count: self.payload_frame_count,
            linked_msg_address: match self.linked_msg_address {
                Some(l) => Some(l@),
                None => None,
            },
            sequence: self.sequence as nat,
            publisher: self.publisher@,
            topic_hash: self.topic_hash@,
        }
    }
}

impl HDF {
    pub open spec fn wf(&self) -> bool {
        hdf_wf(self@)
    }

    /// A header for a message of the given type, sequence number, publisher
    /// and branch topic. The message type must fit its four bits.
    pub fn new(message_type: u8, sequence: usize, publisher: Identifier, topic: &crate::topic::Topic) -> (r: Result<
        HDF,
        Error,
    >)
        requires
            publisher.wf(),
        ensures
            match r {
                Ok(h) => {
                    &&& message_type <= 15
                    &&& h.wf()
                    &&& h@.message_type == message_type
                    &&& h@.sequence == sequence
                    &&& h@.publisher == publisher@
                    &&& h@.topic_hash == crate::topic::topic_hash_of(topic.spec_bytes())
                    &&& h@.payload_length == 0
                    &&& h@.payload_frame_count == 0
                    &&& h@.linked_msg_address is None
                },
                Err(e) => message_type > 15 && e == Error::GuardFailed,
            },
    {
        if message_type >> 4 != 0 {
            proof {
                assert(message_type >> 4 != 0 ==> message_type > 15) by (bit_vector);
            }
            return Err(Error::GuardFailed);
        }
        proof {
            assert(message_type >> 4 == 0 ==> message_type <= 15) by (bit_vector);
        }
        Ok(
            HDF {
                encoding: UTF8,
                version: STREAMS_1_VER,
                message_type,
                payload_length: 0,
                frame_type: HDF_ID,
                payload_frame_count: 0,
                linked_msg_address: None,
                sequence,
                publisher,
                topic_hash: TopicHash::of_topic(topic),
            },
        )
    }

    /// Link this header to a previous message.
    pub fn with_linked_msg_address(self, address: MsgId) -> (r: HDF)
        ensures
            r@ == (HdfV { linked_msg_address: Some(address@), ..self@ }),
    {
        HDF { linked_msg_address: Some(address), ..self }
    }

    /// Set the payload length, which must fit its ten bits.
    pub fn with_payload_length(self, payload_length: u16) -> (r: Result<HDF, Error>)
        ensures
            match r {
                Ok(h) => payload_length <= 1023 && h@ == (HdfV {
                    payload_length,
                    ..self@
                }),
                Err(e) => payload_length > 1023 && e == Error::GuardFailed,
            },
    {
        if payload_length >> 10 != 0 {
            proof {
                assert(payload_length >> 10 != 0 ==> payload_length > 1023) by (bit_vector);
            }
            return Err(Error::GuardFailed);
        }
        proof {
            assert(payload_length >> 10 == 0 ==> payload_length <= 1023) by (bit_vector);
        }
        Ok(HDF { payload_length, ..self })
    }

    pub fn message_type(&self) -> (r: u8)
        ensures
            r == self@.message_type,
    {
        self.message_type
    }

    pub fn payload_length(&self) -> (r: u16)
        ensures
            r == self@.payload_length,
    {
        self.payload_length
    }

    pub fn payload_frame_count(&self) -> (r: u32)
        ensures
            r == self@.payload_frame_count,
    {
        self.payload_frame_count
    }

    pub fn publisher(&self) -> (r: &Identifier)
        ensures
            r@ == self@.publisher,
    {
        &self.publisher
    }

    pub fn sequence(&self) -> (r: usize)
        ensures
            r == self@.sequence,
    {
        self.sequence
    }

    pub fn linked_msg_address(&self) -> (r: &Option<MsgId>)
        ensures
            match r {
                Some(l) => self@.linked_msg_address == Some(l@),
                None => self@.linked_msg_address is None,
            },
    {
        &self.linked_msg_address
    }

    pub fn topic_hash(&self) -> (r: &TopicHash)
        ensures
            r@ == self@.topic_hash,
    {
        &self.topic_hash
    }

    /// Count the header's wire bytes.
    pub fn sizeof(&self, ctx: &mut SizeofCtx)
        requires
            self.wf(),
            old(ctx)@ + hdf_sizeof(self@) <= u64::MAX,
        ensures
            final(ctx)@ == old(ctx)@ + hdf_sizeof(self@),
    {
        proof {
            crate::identifier::lemma_id_wire_len(self@.publisher);
        }
        ctx.absorb_u8();
        ctx.absorb_u8();
        let mtpl = [0u8; 2];
        ctx.skip(mtpl.as_slice());
        ctx.absorb_ext();
        ctx.absorb_u8();
        let pfc = [0u8; 3];
        ctx.skip(pfc.as_slice());
        match &self.linked_msg_address {
            Some(link) => {
                ctx.absorb_u8();
                ctx.absorb(link.as_bytes());
            },
            None => {
                ctx.absorb_u8();
            },
        }
        ctx.mask(self.topic_hash.as_bytes());
        self.publisher.sizeof(ctx);
        ctx.size_field(self.sequence as u64);
        ctx.commit();
        ctx.squeeze_emit(MAC_SIZE);
    }

    /// Serialize the header and its tag.
    pub fn wrap(&self, ctx: &mut WrapCtx)
        requires
            self.wf(),
            old(ctx).wf(),
        ensures
            final(ctx).wf(),
            final(ctx)@ == hdf_wrap_m(old(ctx)@, self@),
    {
        let byte0: u8 = (self.message_type << 4) | (((self.payload_length >> 8) as u8)
            & 0b0000_0011);
        let byte1: u8 = self.payload_length as u8;
        let mtpl = [byte0, byte1];
        let pfc0: u8 = ((self.payload_frame_count >> 16) as u8) & 0b0011_1111;
        let pfc1: u8 = (self.payload_frame_count >> 8) as u8;
        let pfc2: u8 = self.payload_frame_count as u8;
        let pfc = [pfc0, pfc1, pfc2];
        proof {
            assert(mtpl@ =~= mtpl_bytes(self@));
            assert(pfc@ =~= pfc_bytes(self@));
        }
        ctx.absorb_u8(self.encoding);
        ctx.absorb_u8(self.version);
        ctx.skip(mtpl.as_slice());
        ctx.absorb_ext_u8(self.message_type << 4);
        ctx.absorb_u8(self.frame_type);
        ctx.skip(pfc.as_slice());
        let ghost m6 = ctx@;
        match &self.linked_msg_address {
            Some(link) => {
                ctx.absorb_u8(1u8);
                ctx.absorb(link.as_bytes());
                proof {
                    crate::wrapctx::lemma_wm_absorb_append(m6, seq![1u8], link@);
                }
            },
            None => {
                ctx.absorb_u8(0u8);
            },
        }
        ctx.mask(self.topic_hash.as_bytes());
        self.publisher.wrap(ctx);
        ctx.skip_size(self.sequence as u64);
        ctx.commit();
        ctx.squeeze_emit(MAC_SIZE);
    }

    /// Parse a header off the stream and check its tag.
    pub fn unwrap_from(ctx: &mut UnwrapCtx) -> (r: Result<HDF, Error>)
        requires
            old(ctx).wf(),
        ensures
            final(ctx).wf(),
            final(ctx)@.inp == old(ctx)@.inp,
            match r {
                Ok(h) => hdf_parse(old(ctx)@) == Ok::<(UnwrapM, HdfV), Error>((final(ctx)@, h@))
                    && h.wf(),
                Err(e) => hdf_parse(old(ctx)@) == Err::<(UnwrapM, HdfV), Error>(e),
            },
    {
        let encoding = match ctx.absorb_u8() {
            Ok(b) => b,
            Err(e) => {
                return Err(e);
            },
        };
        if encoding != UTF8 {
            return Err(Error::GuardFailed);
        }
        let version = match ctx.absorb_u8() {
            Ok(b) => b,
            Err(e) => {
                return Err(e);
            },
        };
        if version != STREAMS_1_VER {
            return Err(Error::VersionMismatch);
        }
        let ghost m2 = ctx@;
        let mtpl = match ctx.skip_n(2) {
            Ok(v) => v,
            Err(e) => {
                return Err(e);
            },
        };
        let byte0 = mtpl[0];
        let byte1 = mtpl[1];
        proof {
            assert(mtpl@ =~= seq![byte0, byte1]);
        }
        if byte0 & 0b0000_1100 != 0 {
            return Err(Error::ReservedBitsSet);
        }
        ctx.absorb_ext_u8(byte0 & 0b1111_0000);
        let frame_type = match ctx.absorb_u8() {
            Ok(b) => b,
            Err(e) => {
                return Err(e);
            },
        };
        if frame_type != HDF_ID {
            return Err(Error::FrameTypeMismatch);
        }
        let pfc = match ctx.skip_n(3) {
            Ok(v) => v,
            Err(e) => {
                return Err(e);
            },
        };
        let pfc0 = pfc[0];
        let pfc1 = pfc[1];
        let pfc2 = pfc[2];
        proof {
            assert(pfc@ =~= seq![pfc0, pfc1, pfc2]);
        }
        if pfc0 & 0b1100_0000 != 0 {
            return Err(Error::ReservedBitsSet);
        }
        let oneof = match ctx.absorb_u8() {
            Ok(b) => b,
            Err(e) => {
                return Err(e);
            },
        };
        let linked_msg_address = if oneof == 0 {
            None
        } else if oneof == 1 {
            let ghost m_l = ctx@;
            match ctx.absorb_n(MSGID_SIZE) {
                Ok(bytes) => match MsgId::new(bytes) {
                    Ok(link) => Some(link),
                    Err(e) => {
                        proof {
                            assert(false);
                        }
                        return Err(e);
                    },
                },
                Err(e) => {
                    return Err(e);
                },
            }
        } else {
            return Err(Error::UnknownVariant(oneof));
        };
        let ghost m7 = ctx@;
        let topic_hash = match ctx.mask_n(TOPIC_HASH_SIZE) {
            Ok(bytes) => {
                proof {
                    crate::sponge::lemma_sp_decrypt_len(
                        m7.sp,
                        m7.inp.subrange(m7.cur, m7.cur + TOPIC_HASH_SIZE as int),
                    );
                }
                match TopicHash::from_bytes(bytes) {
                    Ok(h) => h,
                    Err(e) => {
                        proof {
                            assert(false);
                        }
                        return Err(e);
                    },
                }
            },
            Err(e) => {
                return Err(e);
            },
        };
        let publisher = match Identifier::unwrap_from(ctx) {
            Ok(id) => id,
            Err(e) => {
                return Err(e);
            },
        };
        let seqno = match ctx.skip_size() {
            Ok(v) => v,
            Err(e) => {
                return Err(e);
            },
        };
        if seqno > usize::MAX as u64 {
            return Err(Error::GuardFailed);
        }
        ctx.commit();
        match ctx.squeeze_check(MAC_SIZE) {
            Ok(u) => {},
            Err(e) => {
                return Err(e);
            },
        }
        let h = HDF {
            encoding,
            version: STREAMS_1_VER,
            message_type: byte0 >> 4,
            payload_length: (((byte0 & 0b0000_0011) as u16) << 8) | (byte1 as u16),
            frame_type: HDF_ID,
            payload_frame_count: (((pfc0 as u32) << 16) | ((pfc1 as u32) << 8)) | (pfc2 as u32),
            linked_msg_address,
            sequence: seqno as usize,
            publisher,
            topic_hash,
        };
        proof {
            let b0 = byte0;
            assert(b0 >> 4 <= 15) by (bit_vector);
            let p0 = pfc0;
            let p1 = pfc1;
            let p2 = pfc2;
            assert(p0 & 0b1100_0000 == 0 ==> ((((p0 as u32) << 16) | ((p1 as u32) << 8)) | (
            p2 as u32)) < 0x40_0000) by (bit_vector);
            assert((((b0 & 0b0000_0011) as u16) << 8) | (byte1 as u16) <= 1023) by (bit_vector);
            crate::size::lemma_pow256_8();
        }
        Ok(h)
    }
}

} // verus!
