//! The framed stream engine: splits buffered bytes into length-prefixed
//! frames, strips the optional compression header, decodes bodies against
//! the protocol state, intercepts the protocol-critical packets
//! (SetCompression, LoginSuccess, KeepAlive) and queues outbound frames.
//!
//! The whole inbound path is specified by the `drain` model: what
//! `read_packets` returns, how the state and the compression threshold
//! move, which echoes are queued, and what stays in the buffer.

use vstd::prelude::*;

use crate::error::Error;
use crate::packets::{
    dec_body, decode_body, enc_body, encode_body, known_id, packet_id, packet_id_of, packet_wf,
    state_le, DecodedPacket, Origin, Packet, PacketV, State,
};
use crate::varint::{lemma_vi_term_bounds, vi_enc, vi_incomplete};
use crate::wire::{dec_svi, dec_vi, lemma_dec_svi_enc, lemma_dec_vi_enc, rd_svi, rd_vi, subvec,
    wr_svi, wr_vi};

verus! {

// ---------------------------------------------------------------------------
// zlib, behind trusted wrappers
// ---------------------------------------------------------------------------
/// The zlib stream that compression produces for the given bytes.
pub uninterp spec fn deflate_of(data: Seq<u8>) -> Seq<u8>;

/// The bytes a zlib stream decompresses to, if it is well-formed.
pub uninterp spec fn inflate_of(data: Seq<u8>) -> Option<Seq<u8>>;

/// Relies on `miniz_oxide::deflate::compress_to_vec_zlib` (level fixed at
/// 6): the result depends on the input bytes alone, and decompressing it
/// yields the input again.
#[verifier::external_body]
fn zlib_compress(data: &[u8]) -> (r: Vec<u8>)
    ensures
        r@ == deflate_of(data@),
        inflate_of(r@) == Some(data@),
{
    miniz_oxide::deflate::compress_to_vec_zlib(data, 6)
}

/// Relies on `miniz_oxide::inflate::decompress_to_vec_zlib`: the bytes the
/// zlib stream decodes to, or nothing when it is not a valid zlib stream.
#[verifier::external_body]
fn zlib_decompress(data: &[u8]) -> (r: Option<Vec<u8>>)
    ensures
        r is Some <==> inflate_of(data@) is Some,
        r matches Some(v) ==> inflate_of(data@) == Some(v@),
{
    miniz_oxide::inflate::decompress_to_vec_zlib(data).ok()
}

// ---------------------------------------------------------------------------
// frame format, spec level
// ---------------------------------------------------------------------------
/// A packet id followed by its body.
pub open spec fn id_body(data: Seq<u8>) -> Option<(u32, Seq<u8>)> {
    match dec_vi(data, 0) {
        Some((id, p)) => Some((id, data.subrange(p, data.len() as int))),
        None => None,
    }
}

/// Strip the compression header of one frame payload and return the packet
/// id and body, or nothing if the payload is malformed.
pub open spec fn payload_packet(threshold: int, payload: Seq<u8>) -> Option<(u32, Seq<u8>)> {
    if threshold >= 0 {
        match dec_svi(payload, 0) {
            Some((dl, p)) => {
                if dl == 0 {
                    id_body(payload.subrange(p, payload.len() as int))
                } else if dl > 0 {
                    match inflate_of(payload.subrange(p, payload.len() as int)) {
                        Some(d) => if d.len() == dl {
                            id_body(d)
                        } else {
                            None
                        },
                        None => None,
                    }
                } else {
                    None
                }
            },
            None => None,
        }
    } else {
        id_body(payload)
    }
}

/// Packet id VarInt followed by the encoded body.
pub open spec fn full_body(pv: PacketV) -> Seq<u8> {
    vi_enc(packet_id(pv)) + enc_body(pv)
}

/// One frame payload for a packet under the given threshold: plain when
/// compression is off; data-length 0 plus the plain bytes when the body is
/// under the threshold; data-length plus the zlib stream otherwise.
pub open spec fn spec_payload(threshold: int, pv: PacketV) -> Seq<u8> {
    if threshold >= 0 {
        if full_body(pv).len() < threshold {
            crate::wire::enc_svi(0) + full_body(pv)
        } else {
            crate::wire::enc_svi(full_body(pv).len() as i32) + deflate_of(full_body(pv))
        }
    } else {
        full_body(pv)
    }
}

/// The packet can be framed: it is well-formed and its payload fits a
/// non-negative VarInt length.
pub open spec fn frame_fits(threshold: int, pv: PacketV) -> bool {
    packet_wf(pv) && full_body(pv).len() <= 0x7FFF_FFFF && spec_payload(threshold, pv).len()
        <= 0x7FFF_FFFF
}

/// One whole frame: length prefix plus payload.
pub open spec fn spec_frame(threshold: int, pv: PacketV) -> Seq<u8> {
    vi_enc(spec_payload(threshold, pv).len() as u32) + spec_payload(threshold, pv)
}

/// What interception does with one decoded server packet: SetCompression
/// fixes the threshold for every later frame, LoginSuccess moves the state
/// to Play for every later frame, and KeepAlive queues an echo with the
/// same id, serialized under the current threshold.
pub open spec fn apply_intercept(state: State, threshold: i32, pv: PacketV) -> (
    State,
    i32,
    Seq<Seq<u8>>,
) {
    match pv {
        PacketV::SetCompression { threshold: t } => (state, t, Seq::empty()),
        PacketV::LoginSuccess { .. } => (State::Play, threshold, Seq::empty()),
        PacketV::KeepAlive { id } => (
            state,
            threshold,
            if frame_fits(threshold as int, PacketV::ClientKeepAlive { id }) {
                seq![spec_frame(threshold as int, PacketV::ClientKeepAlive { id })]
            } else {
                Seq::empty()
            },
        ),
        _ => (state, threshold, Seq::empty()),
    }
}

/// What one frame payload does to the engine.
pub struct FrameStep {
    pub packet: Option<PacketV>,
    pub state: State,
    pub threshold: i32,
    pub echoes: Seq<Seq<u8>>,
}

/// Process one frame payload: parse the compression header, decode the
/// body against the current state, and intercept. A payload that does not
/// parse, or whose id is unknown, yields no packet and changes nothing.
#[verifier::opaque]
pub open spec fn frame_step(state: State, threshold: i32, payload: Seq<u8>) -> FrameStep {
    match payload_packet(threshold as int, payload) {
        None => FrameStep { packet: None, state, threshold, echoes: Seq::empty() },
        Some((id, body)) => match dec_body(state, Origin::Server, id, body) {
            None => FrameStep { packet: None, state, threshold, echoes: Seq::empty() },
            Some(pv) => {
                let (s2, t2, e) = apply_intercept(state, threshold, pv);
                FrameStep { packet: Some(pv), state: s2, threshold: t2, echoes: e }
            },
        },
    }
}

/// The outcome of draining every whole frame out of a buffer.
pub struct DrainResult {
    /// Decoded packets, in frame order.
    pub packets: Seq<PacketV>,
    /// Outbound frames queued by interception (KeepAlive echoes), in order.
    pub echoes: Seq<Seq<u8>>,
    /// The protocol state after the last drained frame.
    pub state: State,
    /// The compression threshold after the last drained frame.
    pub threshold: i32,
    /// The bytes left in the buffer: a strict prefix of the next frame.
    pub buffer: Seq<u8>,
    /// A malformed length VarInt or a negative length was met: the stream
    /// cannot resynchronize.
    pub failed: bool,
}

/// The inbound model: repeatedly split one length-prefixed frame off the
/// buffer and feed it through `frame_step`, threading state and threshold,
/// until the buffer holds no whole frame.
#[verifier::opaque]
pub open spec fn drain(state: State, threshold: i32, buf: Seq<u8>) -> DrainResult
    decreases buf.len(),
    via drain_decreases
{
    match dec_vi(buf, 0) {
        None => {
            if vi_incomplete(buf) {
                DrainResult {
                    packets: Seq::empty(),
                    echoes: Seq::empty(),
                    state,
                    threshold,
                    buffer: buf,
                    failed: false,
                }
            } else {
                DrainResult {
                    packets: Seq::empty(),
                    echoes: Seq::empty(),
                    state,
                    threshold,
                    buffer: buf,
                    failed: true,
                }
            }
        },
        Some((l, p)) => {
            if l > 0x7FFF_FFFF {
                DrainResult {
                    packets: Seq::empty(),
                    echoes: Seq::empty(),
                    state,
                    threshold,
                    buffer: buf,
                    failed: true,
                }
            } else if p + l > buf.len() {
                DrainResult {
                    packets: Seq::empty(),
                    echoes: Seq::empty(),
                    state,
                    threshold,
                    buffer: buf,
                    failed: false,
                }
            } else {
                let payload = buf.subrange(p, p + l);
                let rest = buf.subrange(p + l, buf.len() as int);
                let st = frame_step(state, threshold, payload);
                let d = drain(st.state, st.threshold, rest);
                DrainResult {
                    packets: (match st.packet {
                        Some(pv) => seq![pv],
                        None => Seq::empty(),
                    }) + d.packets,
                    echoes: st.echoes + d.echoes,
                    state: d.state,
                    threshold: d.threshold,
                    buffer: d.buffer,
                    failed: d.failed,
                }
            }
        },
    }
}

#[via_fn]
proof fn drain_decreases(state: State, threshold: i32, buf: Seq<u8>) {
    match dec_vi(buf, 0) {
        Some((l, p)) => {
            lemma_vi_term_bounds(buf.subrange(0, buf.len() as int));
        },
        None => {},
    }
}

/// The buffer holds no whole frame: its length VarInt is still incomplete,
/// or the frame's bytes have not all arrived.
pub open spec fn no_full_frame(buf: Seq<u8>) -> bool {
    match dec_vi(buf, 0) {
        Some((l, p)) => l <= 0x7FFF_FFFF && p + l > buf.len(),
        None => vi_incomplete(buf),
    }
}

/// A drain that does not fail leaves no whole frame in the buffer.
pub proof fn lemma_drain_no_full_frame(state: State, threshold: i32, buf: Seq<u8>)
    ensures
        !drain(state, threshold, buf).failed ==> no_full_frame(drain(state, threshold, buf).buffer),
    decreases buf.len(),
{
    reveal(drain);
    match dec_vi(buf, 0) {
        None => {},
        Some((l, p)) => {
            if l <= 0x7FFF_FFFF && p + l <= buf.len() {
                lemma_vi_term_bounds(buf.subrange(0, buf.len() as int));
                let payload = buf.subrange(p, p + l);
                let rest = buf.subrange(p + l, buf.len() as int);
                let st = frame_step(state, threshold, payload);
                lemma_drain_no_full_frame(st.state, st.threshold, rest);
            }
        },
    }
}

/// Protocol state transitions are monotone: draining never moves the state
/// backwards.
pub proof fn lemma_drain_state_monotone(state: State, threshold: i32, buf: Seq<u8>)
    ensures
        state_le(state, drain(state, threshold, buf).state),
    decreases buf.len(),
{
    reveal(drain);
    reveal(frame_step);
    match dec_vi(buf, 0) {
        None => {},
        Some((l, p)) => {
            if l <= 0x7FFF_FFFF && p + l <= buf.len() {
                lemma_vi_term_bounds(buf.subrange(0, buf.len() as int));
                let payload = buf.subrange(p, p + l);
                let rest = buf.subrange(p + l, buf.len() as int);
                let st = frame_step(state, threshold, payload);
                assert(state_le(state, st.state));
                lemma_drain_state_monotone(st.state, st.threshold, rest);
            }
        },
    }
}

/// One KeepAlive, one echo: a frame that decodes to KeepAlive queues
/// exactly one echo frame, carrying the same id and serialized under the
/// threshold in force for that frame; no other packet queues anything.
pub proof fn lemma_frame_step_echo(state: State, threshold: i32, payload: Seq<u8>)
    ensures
        ({
            let st = frame_step(state, threshold, payload);
            match st.packet {
                Some(PacketV::KeepAlive { id }) => st.echoes == (if frame_fits(
                    threshold as int,
                    PacketV::ClientKeepAlive { id },
                ) {
                    seq![spec_frame(threshold as int, PacketV::ClientKeepAlive { id })]
                } else {
                    Seq::<Seq<u8>>::empty()
                }),
                _ => st.echoes == Seq::<Seq<u8>>::empty(),
            }
        }),
{
    reveal(frame_step);
    match payload_packet(threshold as int, payload) {
        None => {},
        Some((id, body)) => {
            match dec_body(state, Origin::Server, id, body) {
                None => {},
                Some(pv) => {
                    match pv {
                        PacketV::KeepAlive { .. } => {},
                        PacketV::SetCompression { .. } => {},
                        PacketV::LoginSuccess { .. } => {},
                        _ => {},
                    }
                },
            }
        },
    }
}

/// A buffer without a whole frame drains to itself: nothing is decoded,
/// nothing is queued, nothing changes.
pub proof fn lemma_drain_stop(state: State, threshold: i32, buf: Seq<u8>)
    requires
        no_full_frame(buf),
    ensures
        (drain(state, threshold, buf) == DrainResult {
            packets: Seq::<PacketV>::empty(),
            echoes: Seq::<Seq<u8>>::empty(),
            state,
            threshold,
            buffer: buf,
            failed: false,
        }),
{
    reveal(drain);
}

/// A buffer whose head is not a frame boundary (five continuation bytes,
/// or a length beyond the 31-bit range) fails the drain at once.
pub proof fn lemma_drain_failed(state: State, threshold: i32, buf: Seq<u8>)
    requires
        (match dec_vi(buf, 0) {
            Some((l, p)) => l > 0x7FFF_FFFF,
            None => !vi_incomplete(buf),
        }),
    ensures
        (drain(state, threshold, buf) == DrainResult {
            packets: Seq::<PacketV>::empty(),
            echoes: Seq::<Seq<u8>>::empty(),
            state,
            threshold,
            buffer: buf,
            failed: true,
        }),
{
    reveal(drain);
}

/// Reading in pieces equals reading whole: if draining `buf` did not
/// fail, then draining `buf + ext` yields the packets and echoes of
/// draining `buf` followed by those of draining the leftover bytes plus
/// `ext`, from the state and threshold `buf` left behind. With
/// `read_packets` draining `inbuf + chunk` on every call, a byte sequence
/// split across reads at any point, even mid-VarInt, produces the same
/// concatenated batches as an unsplit arrival.
pub proof fn lemma_drain_concat(state: State, threshold: i32, buf: Seq<u8>, ext: Seq<u8>)
    requires
        !drain(state, threshold, buf).failed,
    ensures
        ({
            let d1 = drain(state, threshold, buf);
            let d2 = drain(d1.state, d1.threshold, d1.buffer + ext);
            drain(state, threshold, buf + ext) == DrainResult {
                packets: d1.packets + d2.packets,
                echoes: d1.echoes + d2.echoes,
                state: d2.state,
                threshold: d2.threshold,
                buffer: d2.buffer,
                failed: d2.failed,
            }
        }),
    decreases buf.len(),
{
    reveal(drain);
    let whole = buf + ext;
    let d1 = drain(state, threshold, buf);
    match dec_vi(buf, 0) {
        None => {
            assert(d1.buffer =~= buf);
            let d2 = drain(state, threshold, whole);
            assert(Seq::<PacketV>::empty() + d2.packets =~= d2.packets);
            assert(Seq::<Seq<u8>>::empty() + d2.echoes =~= d2.echoes);
        },
        Some((l, p)) => {
            lemma_vi_term_bounds(buf.subrange(0, buf.len() as int));
            if p + l > buf.len() {
                assert(d1.buffer =~= buf);
                let d2 = drain(state, threshold, whole);
                assert(Seq::<PacketV>::empty() + d2.packets =~= d2.packets);
                assert(Seq::<Seq<u8>>::empty() + d2.echoes =~= d2.echoes);
            } else {
                assert(buf.subrange(0, buf.len() as int) =~= buf);
                assert(whole.subrange(0, buf.len() as int) =~= buf);
                assert(whole.subrange(0, whole.len() as int) =~= whole);
                crate::varint::lemma_vi_prefix_stable(buf, whole);
                assert(dec_vi(whole, 0) == Some((l, p)));
                let payload = buf.subrange(p, p + l);
                let rest = buf.subrange(p + l, buf.len() as int);
                assert(whole.subrange(p, p + l) =~= payload);
                assert(whole.subrange(p + l, whole.len() as int) =~= rest + ext);
                let st = frame_step(state, threshold, payload);
                let i1 = drain(st.state, st.threshold, rest);
                lemma_drain_concat(st.state, st.threshold, rest, ext);
                let i2 = drain(i1.state, i1.threshold, i1.buffer + ext);
                let stp = (match st.packet {
                    Some(pv) => seq![pv],
                    None => Seq::<PacketV>::empty(),
                });
                assert(stp + (i1.packets + i2.packets) =~= (stp + i1.packets) + i2.packets);
                assert(st.echoes + (i1.echoes + i2.echoes) =~= (st.echoes + i1.echoes)
                    + i2.echoes);
            }
        },
    }
}

/// One step of the drain, spelled out: when a whole frame heads the
/// buffer, the engine processes exactly that frame first — its packet (if
/// any) comes before every later packet, its KeepAlive echo (if any) is
/// queued before any later echo, and the state and threshold it leaves
/// behind (LoginSuccess moving to Play, SetCompression fixing the
/// threshold) govern every later frame.
pub proof fn lemma_drain_step(state: State, threshold: i32, buf: Seq<u8>)
    requires
        dec_vi(buf, 0) is Some,
        dec_vi(buf, 0) matches Some((l, p)) && l <= 0x7FFF_FFFF && p + l <= buf.len(),
    ensures
        ({
            let (l, p) = dec_vi(buf, 0).unwrap();
            let st = frame_step(state, threshold, buf.subrange(p, p + l));
            let d = drain(st.state, st.threshold, buf.subrange(p + l, buf.len() as int));
            drain(state, threshold, buf) == DrainResult {
                packets: (match st.packet {
                    Some(pv) => seq![pv],
                    None => Seq::empty(),
                }) + d.packets,
                echoes: st.echoes + d.echoes,
                state: d.state,
                threshold: d.threshold,
                buffer: d.buffer,
                failed: d.failed,
            }
        }),
{
    reveal(drain);
}

/// Views of a packet list and of the outbound queue.
pub open spec fn pkts_view(s: Seq<Packet>) -> Seq<PacketV> {
    s.map_values(|p: Packet| p@)
}

pub open spec fn outq_view(s: Seq<Vec<u8>>) -> Seq<Seq<u8>> {
    s.map_values(|v: Vec<u8>| v@)
}

/// `id_body` of a well-formed packet's id-plus-body bytes gives the id and
/// body back.
pub proof fn lemma_id_body_full(pv: PacketV)
    ensures
        id_body(full_body(pv)) == Some((packet_id(pv), enc_body(pv))),
{
    let e = vi_enc(packet_id(pv));
    let full = full_body(pv);
    assert(full.subrange(0, full.len() as int) =~= full);
    crate::packets::lemma_split(full, 0, e, enc_body(pv));
    lemma_dec_vi_enc(full, 0, packet_id(pv));
    assert(full.subrange(e.len() as int, full.len() as int) =~= enc_body(pv));
}

/// Round trip of the frame payload when no zlib stream is involved: with
/// compression off, or with a body below the threshold, the payload parses
/// back to the packet's id and body.
pub proof fn lemma_frame_round_trip_plain(threshold: int, pv: PacketV)
    requires
        threshold < 0 || full_body(pv).len() < threshold,
    ensures
        payload_packet(threshold, spec_payload(threshold, pv)) == Some(
            (packet_id(pv), enc_body(pv)),
        ),
{
    lemma_id_body_full(pv);
    if threshold >= 0 {
        let pl = spec_payload(threshold, pv);
        let e0 = crate::wire::enc_svi(0);
        assert(pl.subrange(0, e0.len() as int) =~= e0);
        lemma_dec_svi_enc(pl, 0, 0);
        assert(pl.subrange(e0.len() as int, pl.len() as int) =~= full_body(pv));
    }
}

/// Build one outbound frame for a packet under the given threshold.
/// Fails exactly when the packet is not well-formed or too large for its
/// length prefixes; on success the frame is `spec_frame`, and its payload
/// parses back to the packet's id and body (the serialize/deserialize
/// round trip, including the compressed form).
pub fn serialize_packet(p: &Packet, threshold: i32) -> (r: Result<Vec<u8>, Error>)
    ensures
        r is Ok <==> frame_fits(threshold as int, p@),
        r matches Ok(v) ==> v@ == spec_frame(threshold as int, p@),
        r is Ok ==> payload_packet(threshold as int, spec_payload(threshold as int, p@)) == Some(
            (packet_id(p@), enc_body(p@)),
        ),
{
    let id = packet_id_of(p);
    let mut full: Vec<u8> = Vec::new();
    wr_vi(&mut full, id);
    match encode_body(p) {
        None => {
            return Err(Error::Decode);
        },
        Some(mut b) => {
            full.append(&mut b);
        },
    }
    proof {
        assert(full@ =~= full_body(p@));
    }
    if threshold >= 0 {
        if (full.len() as u64) < (threshold as u64) {
            proof {
                lemma_frame_round_trip_plain(threshold as int, p@);
            }
            let mut pl: Vec<u8> = Vec::new();
            wr_svi(&mut pl, 0);
            pl.append(&mut full);
            proof {
                assert(pl@ =~= spec_payload(threshold as int, p@));
            }
            finish_frame(pl)
        } else {
            if full.len() as u64 > 0x7FFF_FFFFu64 {
                return Err(Error::Decode);
            }
            let comp = zlib_compress(full.as_slice());
            let ghost compv = comp@;
            let mut pl: Vec<u8> = Vec::new();
            wr_svi(&mut pl, full.len() as i32);
            let ghost n = full.len() as i32;
            let mut c = comp;
            let ghost fullv = full@;
            pl.append(&mut c);
            proof {
                assert(pl@ =~= spec_payload(threshold as int, p@));
                let plv = pl@;
                let e = crate::wire::enc_svi(n);
                assert(plv.subrange(0, e.len() as int) =~= e);
                lemma_dec_svi_enc(plv, 0, n);
                assert(plv.subrange(e.len() as int, plv.len() as int) =~= compv);
                lemma_id_body_full(p@);
            }
            finish_frame(pl)
        }
    } else {
        proof {
            lemma_frame_round_trip_plain(threshold as int, p@);
        }
        finish_frame(full)
    }
}

/// Prefix a payload with its VarInt length.
fn finish_frame(pl: Vec<u8>) -> (r: Result<Vec<u8>, Error>)
    ensures
        r is Ok <==> pl@.len() <= 0x7FFF_FFFF,
        r matches Ok(v) ==> v@ == vi_enc(pl@.len() as u32) + pl@,
{
    if pl.len() as u64 > 0x7FFF_FFFFu64 {
        return Err(Error::Decode);
    }
    let mut out: Vec<u8> = Vec::new();
    wr_vi(&mut out, pl.len() as u32);
    let mut pl2 = pl;
    out.append(&mut pl2);
    Ok(out)
}

/// A packet id followed by its body, executable.
fn id_body_exec(data: &Vec<u8>) -> (r: Option<(u32, Vec<u8>)>)
    ensures
        r is Some <==> id_body(data@) is Some,
        r matches Some(x) ==> id_body(data@) == Some((x.0, x.1@)),
{
    match rd_vi(data, 0) {
        Some((id, p)) => {
            proof {
                lemma_vi_term_bounds(data@.subrange(0, data@.len() as int));
            }
            Some((id, subvec(data, p, data.len())))
        },
        None => None,
    }
}

/// Strip one payload's compression header, executable.
fn parse_payload(threshold: i32, payload: &Vec<u8>) -> (r: Option<(u32, Vec<u8>)>)
    ensures
        r is Some <==> payload_packet(threshold as int, payload@) is Some,
        r matches Some(x) ==> payload_packet(threshold as int, payload@) == Some((x.0, x.1@)),
{
    if threshold >= 0 {
        match rd_svi(payload, 0) {
            None => None,
            Some((dl, p)) => {
                proof {
                    lemma_vi_term_bounds(payload@.subrange(0, payload@.len() as int));
                }
                if dl == 0 {
                    let data = subvec(payload, p, payload.len());
                    id_body_exec(&data)
                } else if dl > 0 {
                    let data = subvec(payload, p, payload.len());
                    match zlib_decompress(data.as_slice()) {
                        Some(d) => {
                            if d.len() as u64 == dl as u64 {
                                id_body_exec(&d)
                            } else {
                                None
                            }
                        },
                        None => None,
                    }
                } else {
                    None
                }
            },
        }
    } else {
        id_body_exec(payload)
    }
}

/// The framed stream engine. It owns the inbound accumulation buffer, the
/// protocol state, the compression threshold, and the queue of serialized
/// outbound frames that the I/O shell drains to the socket's writer.
pub struct Stream {
    /// Compression threshold: -1 disabled, 0 everything compressed, n > 0
    /// compress bodies of at least n bytes.
    pub compression_threshold: i32,
    /// Current protocol state for inbound decoding.
    pub state: State,
    /// Bytes accumulated and not yet consumed by framing.
    pub buffer: Vec<u8>,
    /// Serialized outbound frames not yet handed to the writer.
    pub outbound: Vec<Vec<u8>>,
}

impl Stream {
    /// The bytes accumulated and not yet consumed by framing.
    pub open spec fn inbuf(self) -> Seq<u8> {
        self.buffer@
    }

    /// The serialized outbound frames not yet handed to the writer.
    pub open spec fn out_queue(self) -> Seq<Seq<u8>> {
        outq_view(self.outbound@)
    }

    /// A fresh engine: Login state (the handshake is written before the
    /// stream exists), compression off, empty buffers.
    pub fn new() -> (s: Stream)
        ensures
            s.state == State::Login,
            s.compression_threshold == -1,
            s.inbuf() == Seq::<u8>::empty(),
            s.out_queue() == Seq::<Seq<u8>>::empty(),
    {
        let s = Stream {
            compression_threshold: -1,
            state: State::Login,
            buffer: Vec::new(),
            outbound: Vec::new(),
        };
        proof {
            assert(s.out_queue() =~= Seq::<Seq<u8>>::empty());
        }
        s
    }

    /// Serialize a packet under the current threshold and queue it for the
    /// writer. Fails (leaving the queue unchanged) exactly when the packet
    /// cannot be framed.
    pub fn send_packet(&mut self, p: &Packet) -> (r: Result<(), Error>)
        ensures
            r is Ok <==> frame_fits(old(self).compression_threshold as int, p@),
            final(self).state == old(self).state,
            final(self).compression_threshold == old(self).compression_threshold,
            final(self).inbuf() == old(self).inbuf(),
            r is Ok ==> final(self).out_queue() == old(self).out_queue().push(
                spec_frame(old(self).compression_threshold as int, p@),
            ),
            r is Err ==> final(self).out_queue() == old(self).out_queue(),
    {
        match serialize_packet(p, self.compression_threshold) {
            Ok(f) => {
                let ghost fv = f@;
                self.outbound.push(f);
                proof {
                    assert(self.out_queue() =~= old(self).out_queue().push(fv));
                }
                Ok(())
            },
            Err(e) => Err(e),
        }
    }

    /// The fire-and-forget entry point: in this engine both entry points
    /// queue the frame; the I/O shell decides how the queue reaches the
    /// writer task.
    pub fn send_packet_sync(&mut self, p: &Packet) -> (r: Result<(), Error>)
        ensures
            r is Ok <==> frame_fits(old(self).compression_threshold as int, p@),
            final(self).state == old(self).state,
            final(self).compression_threshold == old(self).compression_threshold,
            final(self).inbuf() == old(self).inbuf(),
            r is Ok ==> final(self).out_queue() == old(self).out_queue().push(
                spec_frame(old(self).compression_threshold as int, p@),
            ),
            r is Err ==> final(self).out_queue() == old(self).out_queue(),
    {
        self.send_packet(p)
    }

    /// Hand the queued outbound frames to the writer, in order, emptying
    /// the queue.
    pub fn take_outbound(&mut self) -> (r: Vec<Vec<u8>>)
        ensures
            outq_view(r@) == old(self).out_queue(),
            final(self).out_queue() == Seq::<Seq<u8>>::empty(),
            final(self).state == old(self).state,
            final(self).compression_threshold == old(self).compression_threshold,
            final(self).inbuf() == old(self).inbuf(),
    {
        let mut tmp: Vec<Vec<u8>> = Vec::new();
        core::mem::swap(&mut tmp, &mut self.outbound);
        proof {
            assert(self.out_queue() =~= Seq::<Seq<u8>>::empty());
        }
        tmp
    }

    /// Process one frame payload against the current state and threshold,
    /// per `frame_step`: parse the compression header, decode, intercept
    /// (SetCompression, LoginSuccess, KeepAlive echo), and return the
    /// decoded packet if the body was known and well-formed.
    #[verifier::rlimit(100)]
    fn apply_frame(&mut self, payload: Vec<u8>) -> (r: Option<Packet>)
        ensures
            ({
                let st = frame_step(
                    old(self).state,
                    old(self).compression_threshold,
                    payload@,
                );
                &&& final(self).state == st.state
                &&& final(self).compression_threshold == st.threshold
                &&& final(self).inbuf() == old(self).inbuf()
                &&& final(self).out_queue() == old(self).out_queue() + st.echoes
                &&& (match r {
                    Some(p) => st.packet == Some(p@),
                    None => st.packet is None,
                })
                &&& state_le(old(self).state, final(self).state)
            }),
    {
        proof {
            reveal(frame_step);
        }
        let thr = self.compression_threshold;
        let ghost st_pre = self.state;
        let ghost stepg = frame_step(st_pre, thr, payload@);
        let ghost outs_pre = self.out_queue();
        match parse_payload(thr, &payload) {
            None => {
                proof {
                    assert(outs_pre + stepg.echoes =~= outs_pre);
                }
                None
            },
            Some((id, body)) => {
                match decode_body(self.state, Origin::Server, id, &body) {
                    DecodedPacket::Unknown => {
                        proof {
                            crate::packets::lemma_unknown_dec_none(
                                st_pre,
                                Origin::Server,
                                id,
                                body@,
                            );
                            assert(outs_pre + stepg.echoes =~= outs_pre);
                        }
                        None
                    },
                    DecodedPacket::Malformed => {
                        proof {
                            assert(outs_pre + stepg.echoes =~= outs_pre);
                        }
                        None
                    },
                    DecodedPacket::Known(pkt) => {
                        match &pkt {
                            Packet::SetCompression { threshold: t } => {
                                self.compression_threshold = *t;
                                proof {
                                    assert(outs_pre + stepg.echoes =~= outs_pre);
                                }
                            },
                            Packet::LoginSuccess { .. } => {
                                self.state = State::Play;
                                proof {
                                    assert(outs_pre + stepg.echoes =~= outs_pre);
                                }
                            },
                            Packet::KeepAlive { id: kid } => {
                                let reply = Packet::ClientKeepAlive { id: *kid };
                                match serialize_packet(&reply, thr) {
                                    Ok(f) => {
                                        let ghost fv = f@;
                                        self.outbound.push(f);
                                        proof {
                                            assert(self.out_queue() =~= outs_pre + seq![fv]);
                                            assert(stepg.echoes =~= seq![fv]);
                                        }
                                    },
                                    Err(_) => {
                                        proof {
                                            assert(outs_pre + stepg.echoes =~= outs_pre);
                                        }
                                    },
                                }
                            },
                            _ => {
                                proof {
                                    assert(outs_pre + stepg.echoes =~= outs_pre);
                                }
                            },
                        }
                        Some(pkt)
                    },
                }
            },
        }
    }

    /// Feed one read's bytes and drain every whole frame, per the `drain`
    /// model: returns the decoded packets in frame order; applies
    /// SetCompression and LoginSuccess before any later frame is parsed;
    /// queues one KeepAlive echo per KeepAlive, before the next frame is
    /// processed; leaves only a strict frame prefix buffered; fails only
    /// on an unrecoverable framing error. An empty read returns an empty
    /// batch and changes nothing.
    #[verifier::rlimit(100)]
    pub fn read_packets(&mut self, chunk: &[u8]) -> (r: Result<Vec<Packet>, Error>)
        ensures
            chunk@.len() == 0 ==> (r matches Ok(v) && v@.len() == 0 && *final(self) == *old(self)),
            chunk@.len() > 0 ==> ({
                let m = drain(
                    old(self).state,
                    old(self).compression_threshold,
                    old(self).inbuf() + chunk@,
                );
                &&& final(self).state == m.state
                &&& final(self).compression_threshold == m.threshold
                &&& final(self).inbuf() == m.buffer
                &&& final(self).out_queue() == old(self).out_queue() + m.echoes
                &&& (r is Ok <==> !m.failed)
                &&& (r matches Ok(v) ==> pkts_view(v@) == m.packets)
                &&& (r matches Err(e) ==> e is Decode)
            }),
            r is Ok && chunk@.len() > 0 ==> no_full_frame(final(self).inbuf()),
            state_le(old(self).state, final(self).state),
    {
        if chunk.len() == 0 {
            proof {
                lemma_vi_term_bounds(self.inbuf());
            }
            return Ok(Vec::new());
        }
        let ghost st0 = self.state;
        let ghost thr0 = self.compression_threshold;
        let ghost outs0 = self.out_queue();
        self.buffer.extend_from_slice(chunk);
        let ghost buf0 = self.buffer@;
        let ghost m0 = drain(st0, thr0, buf0);
        let mut pkts: Vec<Packet> = Vec::new();
        let ghost mut echoes: Seq<Seq<u8>> = Seq::empty();
        proof {
            assert(pkts_view(pkts@) =~= Seq::<PacketV>::empty());
            assert(outs0 + echoes =~= outs0);
            assert(pkts_view(pkts@) + m0.packets =~= m0.packets);
            assert(echoes + m0.echoes =~= m0.echoes);
        }
        loop
            invariant
                chunk@.len() > 0,
                st0 == old(self).state,
                thr0 == old(self).compression_threshold,
                outs0 == old(self).out_queue(),
                buf0 == old(self).inbuf() + chunk@,
                m0 == drain(st0, thr0, buf0),
                self.out_queue() == outs0 + echoes,
                m0.packets == pkts_view(pkts@) + drain(
                    self.state,
                    self.compression_threshold,
                    self.inbuf(),
                ).packets,
                m0.echoes == echoes + drain(
                    self.state,
                    self.compression_threshold,
                    self.inbuf(),
                ).echoes,
                m0.state == drain(self.state, self.compression_threshold, self.inbuf()).state,
                m0.threshold == drain(
                    self.state,
                    self.compression_threshold,
                    self.inbuf(),
                ).threshold,
                m0.buffer == drain(self.state, self.compression_threshold, self.inbuf()).buffer,
                m0.failed == drain(self.state, self.compression_threshold, self.inbuf()).failed,
                state_le(st0, self.state),
            ensures
                self.out_queue() == outs0 + echoes,
                !m0.failed,
                m0.packets == pkts_view(pkts@),
                m0.echoes == echoes,
                m0.state == self.state,
                m0.threshold == self.compression_threshold,
                m0.buffer == self.inbuf(),
                no_full_frame(self.inbuf()),
                state_le(st0, self.state),
            decreases self.inbuf().len(),
        {
            let ghost buf_it = self.buffer@;
            let ghost st_pre = self.state;
            let thr = self.compression_threshold;
            proof {
                assert(buf_it.subrange(0, buf_it.len() as int) =~= buf_it);
            }
            match crate::varint::varint_peek(&self.buffer, 0) {
                crate::varint::VarIntPeek::More => {
                    proof {
                        lemma_drain_stop(st_pre, thr, buf_it);
                        assert(m0.packets =~= pkts_view(pkts@));
                        assert(m0.echoes =~= echoes);
                    }
                    break;
                },
                crate::varint::VarIntPeek::Bad => {
                    proof {
                        lemma_vi_term_bounds(buf_it);
                        lemma_drain_failed(st_pre, thr, buf_it);
                        assert(m0.failed);
                        assert(m0.packets =~= pkts_view(pkts@));
                        assert(m0.echoes =~= echoes);
                    }
                    return Err(Error::Decode);
                },
                crate::varint::VarIntPeek::Done(lv, vs) => {
                    proof {
                        lemma_vi_term_bounds(buf_it);
                    }
                    if lv > 0x7FFF_FFFF {
                        proof {
                            lemma_drain_failed(st_pre, thr, buf_it);
                            assert(m0.failed);
                            assert(m0.packets =~= pkts_view(pkts@));
                            assert(m0.echoes =~= echoes);
                        }
                        return Err(Error::Decode);
                    }
                    if (vs as u64) + (lv as u64) > self.buffer.len() as u64 {
                        proof {
                            lemma_drain_stop(st_pre, thr, buf_it);
                            assert(m0.packets =~= pkts_view(pkts@));
                            assert(m0.echoes =~= echoes);
                        }
                        break;
                    }
                    let len = lv as usize;
                    let end = vs + len;
                    let payload = subvec(&self.buffer, vs, end);
                    let rest = subvec(&self.buffer, end, self.buffer.len());
                    self.buffer = rest;
                    let ghost stepg = frame_step(st_pre, thr, payload@);
                    let ghost echoes_pre = echoes;
                    let ghost pktsv = pkts@;
                    proof {
                        lemma_drain_step(st_pre, thr, buf_it);
                    }
                    let r = self.apply_frame(payload);
                    proof {
                        echoes = echoes + stepg.echoes;
                        assert(self.out_queue() =~= outs0 + echoes);
                        let dnew = drain(self.state, self.compression_threshold, self.inbuf());
                        assert(echoes_pre + (stepg.echoes + dnew.echoes) =~= echoes
                            + dnew.echoes);
                    }
                    match r {
                        Some(pkt) => {
                            pkts.push(pkt);
                            proof {
                                assert(stepg.packet == Some(pkt@));
                                assert(pkts_view(pkts@) =~= pkts_view(pktsv).push(pkt@));
                                let dnew = drain(
                                    self.state,
                                    self.compression_threshold,
                                    self.inbuf(),
                                );
                                assert(pkts_view(pktsv) + (seq![pkt@] + dnew.packets)
                                    =~= pkts_view(pkts@) + dnew.packets);
                            }
                        },
                        None => {
                            proof {
                                let dnew = drain(
                                    self.state,
                                    self.compression_threshold,
                                    self.inbuf(),
                                );
                                assert(pkts_view(pktsv) + (Seq::<PacketV>::empty()
                                    + dnew.packets) =~= pkts_view(pkts@) + dnew.packets);
                            }
                        },
                    }
                },
            }
        }
        Ok(pkts)
    }

}

} // verus!
