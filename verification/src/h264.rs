//! H.264 over RTP: from packets back to Annex-B access units.
use vstd::prelude::*;

use crate::encoder::nal_type;

verus! {

/// The depacketizer of the `rtp` crate. It holds the fragments of a NAL unit whose end has not
/// come yet.
#[verifier::external_type_specification]
#[verifier::external_body]
pub struct ExH264Packet(webrtc::rtp::codecs::h264::H264Packet);

/// The fragments that a depacketizer holds, one after the other.
pub uninterp spec fn fragments_of(p: webrtc::rtp::codecs::h264::H264Packet) -> Seq<u8>;

/// The depacketizer writes start codes, not lengths, before NAL units.
pub uninterp spec fn writes_start_codes(p: webrtc::rtp::codecs::h264::H264Packet) -> bool;

/// A NAL unit behind a start code.
pub open spec fn annex_b(nal: Seq<u8>) -> Seq<u8> {
    seq![0u8, 0u8, 0u8, 1u8] + nal
}

/// The length that stands at `at`.
pub open spec fn length_at(payload: Seq<u8>, at: int) -> int {
    payload[at] * 256 + payload[at + 1]
}

/// The NAL units of an aggregate from `at` on, each behind its length, now each behind a start
/// code; nothing where a length reaches beyond the end.
pub open spec fn split_aggregate(payload: Seq<u8>, at: int) -> Option<Seq<u8>>
    decreases payload.len() - at,
{
    if at >= payload.len() {
        Some(seq![])
    } else {
        let end = at + 2 + length_at(payload, at);
        if end > payload.len() {
            None
        } else {
            match split_aggregate(payload, end) {
                Some(rest) => Some(annex_b(payload.subrange(at + 2, end)) + rest),
                None => None,
            }
        }
    }
}

/// An aggregate ends in the middle of a length, after NAL units that are all there.
pub open spec fn is_cut_aggregate(payload: Seq<u8>, at: int) -> bool
    decreases payload.len() - at,
{
    if at >= payload.len() {
        false
    } else if at + 1 == payload.len() {
        true
    } else {
        let end = at + 2 + length_at(payload, at);
        end <= payload.len() && is_cut_aggregate(payload, end)
    }
}

/// A payload that can be depacketized: it is no aggregate that ends in the middle of a length.
pub open spec fn is_readable(payload: Seq<u8>) -> bool {
    payload.len() > 2 && nal_type(payload[0]) == 24 ==> !is_cut_aggregate(payload, 1)
}

/// The payload is the last fragment of its NAL unit.
pub open spec fn is_last_fragment(payload: Seq<u8>) -> bool {
    payload[1] & 0x40 != 0
}

/// What a payload gives, after these fragments: a single NAL unit (types 1 to 23), the NAL units
/// of an aggregate (type 24), or, with the last fragment (type 28), the NAL unit put together.
/// Other payloads, and those of at most two bytes, are refused.
pub open spec fn depacketized(fragments: Seq<u8>, payload: Seq<u8>) -> Option<Seq<u8>> {
    if payload.len() <= 2 {
        None
    } else if 1 <= nal_type(payload[0]) <= 23 {
        Some(annex_b(payload))
    } else if nal_type(payload[0]) == 24 {
        split_aggregate(payload, 1)
    } else if nal_type(payload[0]) == 28 {
        if is_last_fragment(payload) {
            let header = (payload[0] & 0x60) | nal_type(payload[1]);
            Some(annex_b(seq![header] + fragments + payload.skip(2)))
        } else {
            Some(seq![])
        }
    } else {
        None
    }
}

/// The fragments held after a payload.
pub open spec fn fragments_after(fragments: Seq<u8>, payload: Seq<u8>) -> Seq<u8> {
    if payload.len() > 2 && nal_type(payload[0]) == 28 {
        if is_last_fragment(payload) {
            seq![]
        } else {
            fragments + payload.skip(2)
        }
    } else {
        fragments
    }
}

/// Bytes, where there are any, as a sequence.
pub open spec fn bytes_view(r: Option<Vec<u8>>) -> Option<Seq<u8>> {
    match r {
        Some(v) => Some(v@),
        None => None,
    }
}

/// `H264Packet::default`: no fragments, and start codes in the output.
#[verifier::external_body]
fn new_depacketizer() -> (p: webrtc::rtp::codecs::h264::H264Packet)
    ensures
        fragments_of(p) == Seq::<u8>::empty(),
        writes_start_codes(p),
{
    webrtc::rtp::codecs::h264::H264Packet::default()
}

/// `Depacketizer::depacketize` of `H264Packet`: what the payload gives after the fragments held,
/// and the fragments held after it. The error is dropped. An aggregate that ends in the middle of
/// a length makes it panic.
#[verifier::external_body]
fn depacketize(p: &mut webrtc::rtp::codecs::h264::H264Packet, payload: &[u8]) -> (r: Option<
    Vec<u8>,
>)
    requires
        writes_start_codes(*old(p)),
        is_readable(payload@),
    ensures
        writes_start_codes(*final(p)),
        fragments_of(*final(p)) == fragments_after(fragments_of(*old(p)), payload@),
        bytes_view(r) == depacketized(fragments_of(*old(p)), payload@),
{
    webrtc::rtp::packetizer::Depacketizer::depacketize(
        p,
        &bytes::Bytes::copy_from_slice(payload),
    ).ok().map(|nal| nal.to_vec())
}

/// What the base64 encoder of the standard alphabet, with padding, makes of some bytes.
pub uninterp spec fn base64_encoded(bytes: Seq<u8>) -> Seq<char>;

/// `base64::Engine::encode` of the engine `STANDARD`: the bytes as text.
#[verifier::external_body]
fn base64_encode(bytes: &[u8]) -> (s: String)
    ensures
        s@ == base64_encoded(bytes@),
{
    base64::Engine::encode(&base64::engine::general_purpose::STANDARD, bytes)
}

/// Whether a payload can be depacketized.
pub fn is_depacketizable(payload: &[u8]) -> (r: bool)
    ensures
        r == is_readable(payload@),
{
    let len: usize = payload.len();
    if len <= 2 || payload[0] & 0x1F != 24 {
        return true;
    }
    let mut at: usize = 1;
    while at < len
        invariant
            at <= len == payload@.len(),
            is_cut_aggregate(payload@, 1) == is_cut_aggregate(payload@, at as int),
            len > 2,
            nal_type(payload@[0]) == 24,
        decreases len - at,
    {
        if len - at == 1 {
            return false;
        }
        let size: usize = payload[at] as usize * 256 + payload[at + 1] as usize;
        if size > len - at - 2 {
            return true;
        }
        at = at + 2 + size;
    }
    true
}

/// The frame being put together.
pub struct AccessUnit {
    pub bytes: Vec<u8>,
}

impl AccessUnit {
    /// A frame of which nothing has come.
    pub fn new() -> (u: Self)
        ensures
            u.bytes@.len() == 0,
    {
        AccessUnit { bytes: Vec::new() }
    }

    /// Adds what the depacketizer gave for a packet. Where the packet is the last one of its
    /// frame (`marker`), the frame is handed out, unless it is empty.
    pub fn add_nal(&mut self, nal: &Option<Vec<u8>>, marker: bool) -> (frame: Option<Vec<u8>>)
        ensures
            ({
                let unit = grown(old(self).bytes@, bytes_view(*nal));
                if marker && unit.len() > 0 {
                    final(self).bytes@.len() == 0 && bytes_view(frame) == Some(unit)
                } else {
                    final(self).bytes@ == unit && frame is None
                }
            }),
            // What was held, what came, and nothing else is handed out or still held.
            ({
                let came = match *nal {
                    Some(bytes) => old(self).bytes@ + bytes@,
                    None => old(self).bytes@,
                };
                match frame {
                    Some(out) => marker && out@ == came && out@.len() > 0 && final(self).bytes@
                        == Seq::<u8>::empty(),
                    None => final(self).bytes@ == came && (marker ==> came.len() == 0),
                }
            }),
    {
        if let Some(nal) = nal {
            let mut more = nal.clone();
            assert(more@ =~= nal@);
            self.bytes.append(&mut more);
        }
        assert(self.bytes@ =~= grown(old(self).bytes@, bytes_view(*nal)));
        if marker && self.bytes.len() > 0 {
            let mut frame: Vec<u8> = Vec::new();
            std::mem::swap(&mut frame, &mut self.bytes);
            Some(frame)
        } else {
            None
        }
    }
}

/// A frame with what one more packet gave.
pub open spec fn grown(unit: Seq<u8>, nal: Option<Seq<u8>>) -> Seq<u8> {
    match nal {
        Some(bytes) => unit + bytes,
        None => unit,
    }
}

/// The receiver of a video track.
pub struct VideoTrack {
    pub depacketizer: webrtc::rtp::codecs::h264::H264Packet,
    pub unit: AccessUnit,
}

/// A receiver: whether its depacketizer writes start codes, the fragments that it holds, and the
/// frame being put together.
pub struct TrackState {
    pub start_codes: bool,
    pub fragments: Seq<u8>,
    pub unit: Seq<u8>,
}

/// An RTP packet: its payload, and whether it is the last one of its frame.
pub struct Packet {
    pub payload: Seq<u8>,
    pub marker: bool,
}

/// The frame that a packet completes, where it completes one.
pub open spec fn completed(s: TrackState, packet: Packet) -> Option<Seq<u8>> {
    let unit = grown(s.unit, nal_of(s, packet));
    if packet.marker && unit.len() > 0 {
        Some(unit)
    } else {
        None
    }
}

/// What the depacketizer gives for a packet. An empty one is not shown to it.
pub open spec fn nal_of(s: TrackState, packet: Packet) -> Option<Seq<u8>> {
    if packet.payload.len() == 0 {
        None
    } else {
        depacketized(s.fragments, packet.payload)
    }
}

/// The receiver after a packet.
pub open spec fn received(s: TrackState, packet: Packet) -> TrackState {
    TrackState {
        start_codes: s.start_codes,
        fragments: fragments_after(s.fragments, packet.payload),
        unit: if completed(s, packet) is Some {
            seq![]
        } else {
            grown(s.unit, nal_of(s, packet))
        },
    }
}

impl View for VideoTrack {
    type V = TrackState;

    open spec fn view(&self) -> TrackState {
        TrackState {
            start_codes: writes_start_codes(self.depacketizer),
            fragments: fragments_of(self.depacketizer),
            unit: self.unit.bytes@,
        }
    }
}

impl VideoTrack {
    /// The receiver writes start codes.
    pub open spec fn is_valid(self) -> bool {
        self@.start_codes
    }

    /// A receiver to which nothing has come.
    pub fn new() -> (t: Self)
        ensures
            t.is_valid(),
            t@ == (TrackState { start_codes: true, fragments: seq![], unit: seq![] }),
    {
        let t = VideoTrack { depacketizer: new_depacketizer(), unit: AccessUnit::new() };
        assert(t@.fragments =~= seq![]);
        assert(t@.unit =~= seq![]);
        t
    }

    /// Takes a packet. Where it completes a frame, the frame is handed out in base64.
    pub fn receive(&mut self, payload: &[u8], marker: bool) -> (frame: Option<String>)
        requires
            old(self).is_valid(),
            is_readable(payload@),
        ensures
            final(self).is_valid(),
            final(self)@ == received(old(self)@, (Packet { payload: payload@, marker })),
            match completed(old(self)@, (Packet { payload: payload@, marker })) {
                Some(unit) => frame matches Some(s) && s@ == base64_encoded(unit),
                None => frame is None,
            },
    {
        let nal: Option<Vec<u8>> = if payload.len() == 0 {
            None
        } else {
            depacketize(&mut self.depacketizer, payload)
        };
        let frame = self.unit.add_nal(&nal, marker);
        assert(self@.unit =~= received(old(self)@, Packet { payload: payload@, marker }).unit);
        match frame {
            Some(bytes) => Some(base64_encode(bytes.as_slice())),
            None => None,
        }
    }
}

/// The event for an audio packet: its payload, which is a whole Opus frame, in base64; none for
/// an empty one.
pub fn forward_opus(payload: &[u8]) -> (frame: Option<String>)
    ensures
        if payload@.len() == 0 {
            frame is None
        } else {
            frame matches Some(s) && s@ == base64_encoded(payload@)
        },
{
    if payload.len() == 0 {
        None
    } else {
        Some(base64_encode(payload))
    }
}

// ---- What reaches the decoder ----

/// The pieces one after the other.
pub open spec fn joined(pieces: Seq<Seq<u8>>) -> Seq<u8>
    decreases pieces.len(),
{
    if pieces.len() == 0 {
        seq![]
    } else {
        joined(pieces.drop_last()) + pieces.last()
    }
}

/// What a depacketizer that holds `fragments` gives for `payloads` in all, and the fragments that
/// it holds in the end.
pub open spec fn fed(fragments: Seq<u8>, payloads: Seq<Seq<u8>>) -> (Seq<u8>, Seq<u8>)
    decreases payloads.len(),
{
    if payloads.len() == 0 {
        (fragments, seq![])
    } else {
        let (held, out) = fed(fragments, payloads.drop_last());
        (
            fragments_after(held, payloads.last()),
            grown(out, depacketized(held, payloads.last())),
        )
    }
}

/// The payload that carries one fragment of a NAL unit with this header.
pub open spec fn fragment_payload(header: u8, piece: Seq<u8>, first: bool, last: bool) -> Seq<u8> {
    let start: u8 = if first {
        0x80
    } else {
        0
    };
    let end: u8 = if last {
        0x40
    } else {
        0
    };
    seq![(header & 0x60) | 28, (header & 0x1F) | start | end] + piece
}

/// The payloads that carry a NAL unit, with this header and with its body in these pieces.
pub open spec fn fragment_payloads(header: u8, pieces: Seq<Seq<u8>>) -> Seq<Seq<u8>> {
    Seq::new(
        pieces.len(),
        |i: int| fragment_payload(header, pieces[i], i == 0, i == pieces.len() - 1),
    )
}

proof fn lemma_fragment_header(header: u8, start: u8, end: u8)
    requires
        start == 0 || start == 0x80,
        end == 0 || end == 0x40,
    ensures
        ((header & 0x60) | 28) & 0x1F == 28,
        ((header & 0x1F) | start | end) & 0x40 == end,
        header & 0x80 == 0 ==> (((header & 0x60) | 28) & 0x60) | (((header & 0x1F) | start | end)
            & 0x1F) == header,
{
    assert(((header & 0x60) | 28) & 0x1F == 28) by (bit_vector);
    assert(((header & 0x1F) | start | end) & 0x40 == end) by (bit_vector)
        requires
            start == 0 || start == 0x80,
            end == 0 || end == 0x40,
    ;
    assert(header & 0x80 == 0 ==> (((header & 0x60) | 28) & 0x60) | (((header & 0x1F) | start | end)
        & 0x1F) == header) by (bit_vector)
        requires
            start == 0 || start == 0x80,
            end == 0 || end == 0x40,
    ;
}

proof fn lemma_fragments_collect(header: u8, pieces: Seq<Seq<u8>>, k: int)
    requires
        forall|i: int| 0 <= i < pieces.len() ==> (#[trigger] pieces[i]).len() > 0,
        0 <= k < pieces.len(),
    ensures
        fed(seq![], fragment_payloads(header, pieces).take(k)) == (
            joined(pieces.take(k)),
            Seq::<u8>::empty(),
        ),
    decreases k,
{
    let payloads = fragment_payloads(header, pieces);
    if k > 0 {
        lemma_fragments_collect(header, pieces, k - 1);
        assert(payloads.take(k).drop_last() =~= payloads.take(k - 1));
        assert(pieces.take(k).drop_last() =~= pieces.take(k - 1));
        let first = k == 1;
        let payload = payloads[k - 1];
        assert(payload == fragment_payload(header, pieces[k - 1], first, false));
        lemma_fragment_header(
            header,
            if first {
                0x80
            } else {
                0
            },
            0,
        );
        assert(payload.skip(2) =~= pieces[k - 1]);
        assert(payloads.take(k).last() == payload);
        assert(pieces.take(k).last() == pieces[k - 1]);
        assert(Seq::<u8>::empty() + seq![] =~= Seq::<u8>::empty());
    }
}

/// Fragments are put together again: however a NAL unit was cut into pieces, the depacketizer
/// gives it whole, behind a start code, and holds nothing back.
pub proof fn fragments_become_the_unit(header: u8, pieces: Seq<Seq<u8>>)
    requires
        header & 0x80 == 0,
        pieces.len() > 0,
        forall|i: int| 0 <= i < pieces.len() ==> (#[trigger] pieces[i]).len() > 0,
    ensures
        fed(seq![], fragment_payloads(header, pieces)) == (
            Seq::<u8>::empty(),
            annex_b(seq![header] + joined(pieces)),
        ),
{
    let payloads = fragment_payloads(header, pieces);
    let n = pieces.len() as int;
    lemma_fragments_collect(header, pieces, n - 1);
    assert(payloads.drop_last() =~= payloads.take(n - 1));
    assert(pieces.drop_last() =~= pieces.take(n - 1));
    let first = n == 1;
    let payload = payloads[n - 1];
    assert(payload == fragment_payload(header, pieces[n - 1], first, true));
    lemma_fragment_header(
        header,
        if first {
            0x80
        } else {
            0
        },
        0x40,
    );
    assert(payload.skip(2) =~= pieces[n - 1]);
    assert(payloads.last() == payload);
    assert(0x40u8 != 0);
    assert(seq![header] + joined(pieces.drop_last()) + pieces.last() =~= seq![header] + joined(
        pieces,
    ));
    assert(Seq::<u8>::empty() + annex_b(seq![header] + joined(pieces)) =~= annex_b(
        seq![header] + joined(pieces),
    ));
}

/// NAL units, each behind its length.
pub open spec fn with_lengths(nals: Seq<Seq<u8>>) -> Seq<u8>
    decreases nals.len(),
{
    if nals.len() == 0 {
        seq![]
    } else {
        seq![(nals[0].len() / 256) as u8, (nals[0].len() % 256) as u8] + nals[0] + with_lengths(
            nals.drop_first(),
        )
    }
}

/// NAL units, each behind a start code.
pub open spec fn with_start_codes(nals: Seq<Seq<u8>>) -> Seq<u8>
    decreases nals.len(),
{
    if nals.len() == 0 {
        seq![]
    } else {
        annex_b(nals[0]) + with_start_codes(nals.drop_first())
    }
}

proof fn lemma_split_aggregate(prefix: Seq<u8>, nals: Seq<Seq<u8>>)
    requires
        forall|i: int| 0 <= i < nals.len() ==> (#[trigger] nals[i]).len() <= 0xFFFF,
    ensures
        split_aggregate(prefix + with_lengths(nals), prefix.len() as int) == Some(
            with_start_codes(nals),
        ),
        !is_cut_aggregate(prefix + with_lengths(nals), prefix.len() as int),
    decreases nals.len(),
{
    let payload = prefix + with_lengths(nals);
    let at = prefix.len() as int;
    if nals.len() > 0 {
        let nal = nals[0];
        let rest = nals.drop_first();
        let length = seq![(nal.len() / 256) as u8, (nal.len() % 256) as u8];
        let longer = prefix + length + nal;
        assert forall|i: int| 0 <= i < rest.len() implies (#[trigger] rest[i]).len() <= 0xFFFF by {
            assert(rest[i] == nals[i + 1]);
        }
        lemma_split_aggregate(longer, rest);
        assert(payload =~= longer + with_lengths(rest));
        assert(payload[at] == length[0] && payload[at + 1] == length[1]);
        assert(length_at(payload, at) == nal.len());
        assert(longer.len() == at + 2 + nal.len());
        assert(payload.subrange(at + 2, at + 2 + nal.len()) =~= nal);
    }
}

/// Aggregates are split: the depacketizer gives the NAL units that were packed together, in
/// order, each behind a start code.
pub proof fn aggregates_are_split(header: u8, nals: Seq<Seq<u8>>, fragments: Seq<u8>)
    requires
        nal_type(header) == 24,
        nals.len() > 0,
        forall|i: int| 0 <= i < nals.len() ==> (#[trigger] nals[i]).len() <= 0xFFFF,
    ensures
        is_readable(seq![header] + with_lengths(nals)),
        depacketized(fragments, seq![header] + with_lengths(nals)) == Some(with_start_codes(nals)),
{
    lemma_split_aggregate(seq![header], nals);
}

/// The receiver after all of these packets, and the frames that it handed out.
pub open spec fn received_all(s: TrackState, packets: Seq<Packet>) -> (TrackState, Seq<Seq<u8>>)
    decreases packets.len(),
{
    if packets.len() == 0 {
        (s, seq![])
    } else {
        let (before, frames) = received_all(s, packets.drop_last());
        (
            received(before, packets.last()),
            match completed(before, packets.last()) {
                Some(unit) => frames.push(unit),
                None => frames,
            },
        )
    }
}

/// The payloads of packets.
pub open spec fn payloads_of(packets: Seq<Packet>) -> Seq<Seq<u8>> {
    packets.map_values(|p: Packet| p.payload)
}

proof fn lemma_unmarked_packets(s: TrackState, packets: Seq<Packet>)
    requires
        s.unit.len() == 0,
        forall|i: int|
            0 <= i < packets.len() ==> !(#[trigger] packets[i]).marker,
    ensures
        received_all(s, packets).1.len() == 0,
        received_all(s, packets).0 == (TrackState {
            start_codes: s.start_codes,
            fragments: fed(s.fragments, payloads_of(packets)).0,
            unit: fed(s.fragments, payloads_of(packets)).1,
        }),
    decreases packets.len(),
{
    if packets.len() == 0 {
        assert(payloads_of(packets).len() == 0);
        assert(s.unit =~= seq![]);
    } else {
        lemma_unmarked_packets(s, packets.drop_last());
        assert(payloads_of(packets).drop_last() =~= payloads_of(packets.drop_last()));
        assert(payloads_of(packets).last() == packets.last().payload);
        assert(!packets[packets.len() - 1].marker);
    }
}

/// A frame is what came since the last one: where of some packets only the last has its marker
/// set, the receiver hands out exactly one frame, made of everything that the depacketizer gave
/// for them, and begins the next one empty; it hands out none where that is nothing.
pub proof fn a_frame_ends_at_the_marker(s: TrackState, packets: Seq<Packet>)
    requires
        s.unit.len() == 0,
        packets.len() > 0,
        packets.last().marker,
        forall|i: int| 0 <= i < packets.len() - 1 ==> !(#[trigger] packets[i]).marker,
    ensures
        ({
            let (held, out) = fed(s.fragments, payloads_of(packets));
            let (after, frames) = received_all(s, packets);
            &&& after.start_codes == s.start_codes
            &&& after.fragments == held
            &&& after.unit.len() == 0
            &&& frames == (if out.len() > 0 {
                seq![out]
            } else {
                seq![]
            })
        }),
{
    let front = packets.drop_last();
    assert forall|i: int| 0 <= i < front.len() implies !(#[trigger] front[i]).marker by {
        assert(front[i] == packets[i]);
    }
    lemma_unmarked_packets(s, front);
    assert(payloads_of(packets).drop_last() =~= payloads_of(front));
    assert(payloads_of(packets).last() == packets.last().payload);
    let (before, frames) = received_all(s, front);
    assert(frames =~= seq![]);
    let (held, out) = fed(s.fragments, payloads_of(packets));
    if out.len() > 0 {
        assert(frames.push(out) =~= seq![out]);
    }
}

// ---- Whole frames ----

/// What a depacketizer that holds `fragments` gives for each of `payloads`, one after the other:
/// no bytes for one that is refused.
pub open spec fn given(fragments: Seq<u8>, payloads: Seq<Seq<u8>>) -> Seq<Seq<u8>>
    decreases payloads.len(),
{
    if payloads.len() == 0 {
        seq![]
    } else {
        let front = payloads.drop_last();
        given(fragments, front).push(
            match depacketized(fed(fragments, front).0, payloads.last()) {
                Some(bytes) => bytes,
                None => seq![],
            },
        )
    }
}

/// What came before a marker is all held, in order, and nothing is handed out.
proof fn lemma_unmarked_is_held(s: TrackState, packets: Seq<Packet>)
    requires
        forall|i: int| 0 <= i < packets.len() ==> !(#[trigger] packets[i]).marker,
    ensures
        received_all(s, packets).1 == Seq::<Seq<u8>>::empty(),
        received_all(s, packets).0.fragments == fed(s.fragments, payloads_of(packets)).0,
        received_all(s, packets).0.unit == s.unit + given(
            s.fragments,
            payloads_of(packets),
        ).flatten(),
    decreases packets.len(),
{
    let payloads = payloads_of(packets);
    if packets.len() == 0 {
        assert(payloads =~= seq![]);
        assert(given(s.fragments, payloads).flatten() =~= seq![]);
        assert(s.unit + given(s.fragments, payloads).flatten() =~= s.unit);
    } else {
        let front = packets.drop_last();
        lemma_unmarked_is_held(s, front);
        assert(payloads.drop_last() =~= payloads_of(front));
        assert(payloads.last() == packets.last().payload);
        assert(!packets[packets.len() - 1].marker);
        let before = received_all(s, front).0;
        let bytes = given(s.fragments, payloads).last();
        given(s.fragments, payloads.drop_last()).lemma_flatten_push(bytes);
        assert(received_all(s, packets).0.unit =~= before.unit + bytes);
        assert(before.unit + bytes =~= s.unit + (given(
            s.fragments,
            payloads.drop_last(),
        ).flatten() + bytes));
    }
}

/// A frame is all that came since the last one, whatever its size: where of some packets only the
/// last has its marker set, the frame handed out is what was held before, followed by what the
/// depacketizer gave for each of the packets, in order, and nothing is held afterwards. There is
/// none where that is nothing at all.
pub proof fn a_frame_is_all_that_came(s: TrackState, packets: Seq<Packet>)
    requires
        packets.len() > 0,
        packets.last().marker,
        forall|i: int| 0 <= i < packets.len() - 1 ==> !(#[trigger] packets[i]).marker,
    ensures
        ({
            let all = s.unit + given(s.fragments, payloads_of(packets)).flatten();
            let (after, frames) = received_all(s, packets);
            &&& after.unit == Seq::<u8>::empty()
            &&& all.len() > 0 ==> frames == seq![all]
            &&& all.len() == 0 ==> frames == Seq::<Seq<u8>>::empty()
        }),
{
    let payloads = payloads_of(packets);
    let front = packets.drop_last();
    assert forall|i: int| 0 <= i < front.len() implies !(#[trigger] front[i]).marker by {
        assert(front[i] == packets[i]);
    }
    lemma_unmarked_is_held(s, front);
    assert(payloads.drop_last() =~= payloads_of(front));
    assert(payloads.last() == packets.last().payload);
    let all = s.unit + given(s.fragments, payloads).flatten();
    let (before, frames) = received_all(s, front);
    let bytes = given(s.fragments, payloads).last();
    given(s.fragments, payloads.drop_last()).lemma_flatten_push(bytes);
    assert(all =~= before.unit + bytes);
    assert(frames.push(all) =~= seq![all]);
    assert(grown(before.unit, nal_of(before, packets.last())) =~= all);
    assert(received_all(s, packets).0.unit =~= seq![]);
}

/// No byte is lost, doubled or moved: wherever the markers stand, the frames handed out and what
/// is still held are, one after the other, what was held before and what the depacketizer gave.
pub proof fn no_byte_is_lost(s: TrackState, packets: Seq<Packet>)
    ensures
        received_all(s, packets).1.flatten() + received_all(s, packets).0.unit == s.unit + given(
            s.fragments,
            payloads_of(packets),
        ).flatten(),
        received_all(s, packets).0.fragments == fed(s.fragments, payloads_of(packets)).0,
        packets.len() > 0 && packets.last().marker ==> received_all(s, packets).0.unit.len() == 0,
    decreases packets.len(),
{
    let payloads = payloads_of(packets);
    if packets.len() == 0 {
        assert(payloads =~= seq![]);
        assert(given(s.fragments, payloads).flatten() =~= seq![]);
        assert(received_all(s, packets).1.flatten() =~= seq![]);
        assert(seq![] + s.unit =~= s.unit + seq![]);
    } else {
        let front = packets.drop_last();
        no_byte_is_lost(s, front);
        assert(payloads.drop_last() =~= payloads_of(front));
        assert(payloads.last() == packets.last().payload);
        let (before, frames) = received_all(s, front);
        let bytes = given(s.fragments, payloads).last();
        let out = given(s.fragments, payloads.drop_last());
        out.lemma_flatten_push(bytes);
        let unit = before.unit + bytes;
        assert(grown(before.unit, nal_of(before, packets.last())) =~= unit);
        frames.lemma_flatten_push(unit);
        assert(frames.flatten() + unit =~= (frames.flatten() + before.unit) + bytes);
        assert(s.unit + (out.flatten() + bytes) =~= (s.unit + out.flatten()) + bytes);
        assert((frames.flatten() + unit) + Seq::<u8>::empty() =~= frames.flatten() + unit);
    }
}

/// A slice is added whole, whatever its size and whatever is held already: behind the bytes 0, 0,
/// 0, 1, after what is held. With the marker the frame is handed out with it; without, it is held.
pub proof fn a_slice_is_added_whole(s: TrackState, packet: Packet)
    requires
        packet.payload.len() > 2,
        1 <= packet.payload[0] & 0x1F <= 23,
    ensures
        ({
            let unit = s.unit + seq![0u8, 0u8, 0u8, 1u8] + packet.payload;
            &&& packet.marker ==> completed(s, packet) == Some(unit) && received(s, packet).unit
                == Seq::<u8>::empty()
            &&& !packet.marker ==> completed(s, packet) is None && received(s, packet).unit == unit
            &&& received(s, packet).fragments == s.fragments
        }),
{
    let unit = s.unit + seq![0u8, 0u8, 0u8, 1u8] + packet.payload;
    assert(grown(s.unit, nal_of(s, packet)) =~= unit);
    assert(packet.marker ==> received(s, packet).unit =~= seq![]);
}

/// The slices of a picture reach the decoder whole: where each comes in a packet of its own and
/// only the last packet is marked, one frame is handed out: the slices one after the other, each
/// behind the bytes 0, 0, 0, 1.
pub proof fn slices_become_one_frame(s: TrackState, packets: Seq<Packet>)
    requires
        s.unit.len() == 0,
        packets.len() > 0,
        forall|i: int|
            0 <= i < packets.len() ==> {
                let packet = #[trigger] packets[i];
                &&& packet.marker == (i == packets.len() - 1)
                &&& packet.payload.len() > 2
                &&& 1 <= packet.payload[0] & 0x1F <= 23
            },
    ensures
        received_all(s, packets).1 == seq![
            packets.map_values(
                |p: Packet| seq![0u8, 0u8, 0u8, 1u8] + p.payload,
            ).flatten(),
        ],
        received_all(s, packets).0.unit.len() == 0,
{
    let pieces = packets.map_values(|p: Packet| seq![0u8, 0u8, 0u8, 1u8] + p.payload);
    assert forall|i: int| 0 <= i < packets.len() - 1 implies !(#[trigger] packets[i]).marker by {}
    assert(packets[packets.len() - 1].marker);
    a_frame_is_all_that_came(s, packets);
    lemma_slices_are_given(s.fragments, packets);
    assert(given(s.fragments, payloads_of(packets)) =~= pieces);
    assert(s.unit + pieces.flatten() =~= pieces.flatten());
    assert(pieces.flatten().len() > 0) by {
        assert(pieces[0].len() > 0);
        assert(pieces.flatten() == pieces.first() + pieces.drop_first().flatten());
    }
}

proof fn lemma_slices_are_given(fragments: Seq<u8>, packets: Seq<Packet>)
    requires
        forall|i: int|
            0 <= i < packets.len() ==> (#[trigger] packets[i]).payload.len() > 2 && 1
                <= packets[i].payload[0] & 0x1F <= 23,
    ensures
        given(fragments, payloads_of(packets)) == packets.map_values(
            |p: Packet| seq![0u8, 0u8, 0u8, 1u8] + p.payload,
        ),
        fed(fragments, payloads_of(packets)).0 == fragments,
    decreases packets.len(),
{
    let payloads = payloads_of(packets);
    let pieces = packets.map_values(|p: Packet| seq![0u8, 0u8, 0u8, 1u8] + p.payload);
    if packets.len() == 0 {
        assert(given(fragments, payloads) =~= pieces);
    } else {
        let front = packets.drop_last();
        assert forall|i: int| 0 <= i < front.len() implies (#[trigger] front[i]).payload.len() > 2
            && 1 <= front[i].payload[0] & 0x1F <= 23 by {
            assert(front[i] == packets[i]);
        }
        lemma_slices_are_given(fragments, front);
        assert(payloads.drop_last() =~= payloads_of(front));
        assert(payloads.last() == packets.last().payload);
        assert(packets[packets.len() - 1] == packets.last());
        assert(given(fragments, payloads) =~= pieces);
    }
}

/// A picture that was cut into fragments reaches the decoder whole: one frame is handed out, which
/// is the bytes 0, 0, 0, 1, the header and all pieces, in order.
pub proof fn fragments_become_one_frame(
    s: TrackState,
    header: u8,
    pieces: Seq<Seq<u8>>,
    packets: Seq<Packet>,
)
    requires
        s.unit.len() == 0,
        s.fragments.len() == 0,
        header & 0x80 == 0,
        pieces.len() > 0,
        forall|i: int| 0 <= i < pieces.len() ==> (#[trigger] pieces[i]).len() > 0,
        payloads_of(packets) == fragment_payloads(header, pieces),
        forall|i: int|
            0 <= i < packets.len() ==> (#[trigger] packets[i]).marker == (i == packets.len() - 1),
    ensures
        received_all(s, packets).1 == seq![
            seq![0u8, 0u8, 0u8, 1u8, header] + pieces.flatten(),
        ],
        received_all(s, packets).0.unit.len() == 0,
        received_all(s, packets).0.fragments.len() == 0,
{
    let payloads = fragment_payloads(header, pieces);
    assert(payloads_of(packets).len() == packets.len());
    assert(packets[packets.len() - 1].marker);
    a_frame_is_all_that_came(s, packets);
    no_byte_is_lost(s, packets);
    fragments_become_the_unit(header, pieces);
    lemma_given_is_fed(s.fragments, payloads);
    lemma_joined_is_flat(pieces);
    assert(s.fragments =~= seq![]);
    let frame = seq![0u8, 0u8, 0u8, 1u8, header] + pieces.flatten();
    assert(annex_b(seq![header] + joined(pieces)) =~= frame);
    assert(s.unit + frame =~= frame);
}

/// What is given for payloads, in all.
proof fn lemma_given_is_fed(fragments: Seq<u8>, payloads: Seq<Seq<u8>>)
    ensures
        given(fragments, payloads).flatten() == fed(fragments, payloads).1,
    decreases payloads.len(),
{
    if payloads.len() == 0 {
        assert(given(fragments, payloads).flatten() =~= seq![]);
    } else {
        let front = payloads.drop_last();
        lemma_given_is_fed(fragments, front);
        let bytes = given(fragments, payloads).last();
        given(fragments, front).lemma_flatten_push(bytes);
        assert(fed(fragments, payloads).1 =~= fed(fragments, front).1 + bytes);
    }
}

proof fn lemma_joined_is_flat(pieces: Seq<Seq<u8>>)
    ensures
        joined(pieces) == pieces.flatten(),
    decreases pieces.len(),
{
    pieces.lemma_flatten_and_flatten_alt_are_equivalent();
    if pieces.len() > 0 {
        lemma_joined_is_flat(pieces.drop_last());
        pieces.drop_last().lemma_flatten_and_flatten_alt_are_equivalent();
    }
}

/// Only an aggregate that breaks off in the middle of a length cannot be depacketized: whatever is
/// no aggregate can be, and so can every aggregate whose NAL units are all there or whose last one
/// is cut short; one byte more than whole NAL units cannot.
pub proof fn only_cut_aggregates_are_refused(
    payload: Seq<u8>,
    header: u8,
    nals: Seq<Seq<u8>>,
    length: u16,
    piece: Seq<u8>,
)
    requires
        header & 0x1F == 24,
        nals.len() > 0,
        forall|i: int| 0 <= i < nals.len() ==> (#[trigger] nals[i]).len() <= 0xFFFF,
        piece.len() < length,
    ensures
        payload.len() == 0 || payload[0] & 0x1F != 24 ==> is_readable(payload),
        is_readable(seq![header] + with_lengths(nals)),
        is_readable(
            seq![header] + with_lengths(nals) + seq![
                (length / 256) as u8,
                (length % 256) as u8,
            ] + piece,
        ),
        !is_readable((seq![header] + with_lengths(nals)).push(0)),
{
    let whole = seq![header] + with_lengths(nals);
    let size = seq![(length / 256) as u8, (length % 256) as u8];
    lemma_split_aggregate(seq![header], nals);
    lemma_cut_after_units(seq![header], nals, size + piece);
    lemma_cut_after_units(seq![header], nals, seq![0u8]);
    assert(whole + (size + piece) =~= whole + size + piece);
    assert(whole + seq![0u8] =~= whole.push(0));
    let short = whole + size + piece;
    let at = whole.len() as int;
    assert(short[at] == size[0] && short[at + 1] == size[1]);
    assert(length_at(short, at) == length);
    assert(with_lengths(nals).len() >= 2);
}

/// Whether an aggregate is cut is decided by what follows its whole NAL units.
proof fn lemma_cut_after_units(prefix: Seq<u8>, nals: Seq<Seq<u8>>, tail: Seq<u8>)
    requires
        forall|i: int| 0 <= i < nals.len() ==> (#[trigger] nals[i]).len() <= 0xFFFF,
    ensures
        ({
            let whole = prefix + with_lengths(nals);
            is_cut_aggregate(whole + tail, prefix.len() as int) == is_cut_aggregate(
                whole + tail,
                whole.len() as int,
            )
        }),
    decreases nals.len(),
{
    let payload = prefix + with_lengths(nals) + tail;
    let at = prefix.len() as int;
    if nals.len() > 0 {
        let nal = nals[0];
        let rest = nals.drop_first();
        let length = seq![(nal.len() / 256) as u8, (nal.len() % 256) as u8];
        let longer = prefix + length + nal;
        assert forall|i: int| 0 <= i < rest.len() implies (#[trigger] rest[i]).len() <= 0xFFFF by {
            assert(rest[i] == nals[i + 1]);
        }
        lemma_cut_after_units(longer, rest, tail);
        assert(prefix + with_lengths(nals) =~= longer + with_lengths(rest));
        assert(payload[at] == length[0] && payload[at + 1] == length[1]);
        assert(length_at(payload, at) == nal.len());
        assert(longer.len() == at + 2 + nal.len());
    } else {
        assert(prefix + with_lengths(nals) =~= prefix);
    }
}

} // verus!
