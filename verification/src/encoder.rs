//! Encoder: packets, configuration, the choice of a hardware encoder and the stub.
use std::sync::Arc;
use vstd::prelude::*;

use crate::capture::VideoFrame;
use crate::mf_encoder::{
    answers, encode_opens, flush_opens, is_encodable, mf_step, probed, DeviceProbe, MfAction,
    MfEncoder, MfEvent, Signal,
};
use crate::text::{
    contains, lowercase, occurs_in, parts_occur, text_from_utf16, to_lowercase, utf16_lossy,
};

verus! {

/// Encoded video packet (H.264 NAL unit stream).
#[derive(Debug, Clone)]
pub struct EncodedPacket {
    /// H.264 Annex-B byte stream (starts with `00 00 00 01`).
    pub data: Arc<Vec<u8>>,
    /// Presentation timestamp in microseconds.
    pub pts_us: u64,
    /// Whether this packet holds an IDR picture (a keyframe).
    pub is_keyframe: bool,
}

/// What an [`EncodedPacket`] holds.
pub struct PacketView {
    pub data: Seq<u8>,
    pub pts_us: u64,
    pub is_keyframe: bool,
}

impl View for EncodedPacket {
    type V = PacketView;

    open spec fn view(&self) -> PacketView {
        PacketView { data: self.data@, pts_us: self.pts_us, is_keyframe: self.is_keyframe }
    }
}

/// What a list of packets holds.
pub open spec fn packet_views(packets: Seq<EncodedPacket>) -> Seq<PacketView> {
    packets.map_values(|p: EncodedPacket| p@)
}

/// Which hardware encoder is in use.
#[derive(Debug, Clone, Copy, PartialEq, Eq, Structural)]
pub enum EncoderKind {
    Nvenc,
    Amf,
    QuickSync,
    /// Stub for development without a hardware encoder.
    Stub,
}

impl EncoderKind {
    /// The name that a user reads.
    pub open spec fn text(self) -> Seq<char> {
        match self {
            EncoderKind::Nvenc => "NVENC H264"@,
            EncoderKind::Amf => "AMF H264"@,
            EncoderKind::QuickSync => "QuickSync H264"@,
            EncoderKind::Stub => "Stub (test)"@,
        }
    }

    /// The name that a user reads.
    pub fn to_string(&self) -> (s: String)
        ensures
            s@ == self.text(),
    {
        match self {
            EncoderKind::Nvenc => "NVENC H264".to_string(),
            EncoderKind::Amf => "AMF H264".to_string(),
            EncoderKind::QuickSync => "QuickSync H264".to_string(),
            EncoderKind::Stub => "Stub (test)".to_string(),
        }
    }
}

/// The encoder that a device's name in lower case speaks of. One that it says nothing of is
/// taken for QuickSync.
pub open spec fn kind_of_name(name: Seq<char>) -> EncoderKind {
    if occurs_in(name, "nvidia"@) || occurs_in(name, "nvenc"@) {
        EncoderKind::Nvenc
    } else if occurs_in(name, "amd"@) || occurs_in(name, "amf"@) || occurs_in(
        name,
        "advanced micro"@,
    ) {
        EncoderKind::Amf
    } else {
        EncoderKind::QuickSync
    }
}

/// The encoder that a device's name, in lower case, speaks of.
pub fn classify_name(name: &str) -> (kind: EncoderKind)
    ensures
        kind == kind_of_name(name@),
{
    if contains(name, "nvidia") || contains(name, "nvenc") {
        EncoderKind::Nvenc
    } else if contains(name, "amd") || contains(name, "amf") || contains(name, "advanced micro") {
        EncoderKind::Amf
    } else {
        EncoderKind::QuickSync
    }
}

/// A device is known by a word in its name, wherever the word stands: `nvidia` or `nvenc`; else
/// `amd`, `amf` or `advanced micro`; and one that has none of them is QuickSync.
pub proof fn devices_are_known_by_a_word(a: Seq<char>, b: Seq<char>, name: Seq<char>)
    ensures
        kind_of_name(a + "nvidia"@ + b) is Nvenc,
        kind_of_name(a + "nvenc"@ + b) is Nvenc,
        ({
            let amd = name == a + "amd"@ + b || name == a + "amf"@ + b || name == a
                + "advanced micro"@ + b;
            let nvidia = occurs_in(name, "nvidia"@) || occurs_in(name, "nvenc"@);
            &&& amd && !nvidia ==> kind_of_name(name) is Amf
            &&& kind_of_name(name) is Nvenc ==> nvidia
            &&& kind_of_name(name) is Amf ==> occurs_in(name, "amd"@) || occurs_in(name, "amf"@)
                || occurs_in(name, "advanced micro"@)
            &&& kind_of_name(name) !is Stub
        }),
{
    parts_occur(a, "nvidia"@, b);
    parts_occur(a, "nvenc"@, b);
    parts_occur(a, "amd"@, b);
    parts_occur(a, "amf"@, b);
    parts_occur(a, "advanced micro"@, b);
}

/// The encoder behind a device: by its friendly name, in any case; QuickSync where it has none.
pub open spec fn device_kind(friendly_name: Option<Vec<u16>>) -> EncoderKind {
    match friendly_name {
        Some(units) => kind_of_name(lowercase(utf16_lossy(units@))),
        None => EncoderKind::QuickSync,
    }
}

/// The encoder behind a device with this friendly name.
pub fn classify_device(friendly_name: &Option<Vec<u16>>) -> (kind: EncoderKind)
    ensures
        kind == device_kind(*friendly_name),
{
    match friendly_name {
        Some(units) => {
            let name = text_from_utf16(units.as_slice());
            classify_name(to_lowercase(name.as_str()).as_str())
        },
        None => EncoderKind::QuickSync,
    }
}

/// A device goes by what its name says in lower case, and by nothing else: the same words give the
/// same kind, however they are written, and a device without a name is QuickSync.
pub proof fn devices_go_by_their_name(
    one: Vec<u16>,
    other: Vec<u16>,
    a: Seq<char>,
    b: Seq<char>,
)
    ensures
        ({
            let name = lowercase(utf16_lossy(one@));
            let kind = device_kind(Some(one));
            &&& name == lowercase(utf16_lossy(other@)) ==> kind == device_kind(Some(other))
            &&& name == a + "nvidia"@ + b || name == a + "nvenc"@ + b ==> kind is Nvenc
            &&& occurs_in(name, "nvidia"@) || occurs_in(name, "nvenc"@) <==> kind is Nvenc
            &&& kind is QuickSync ==> !occurs_in(name, "amd"@) && !occurs_in(name, "amf"@)
                && !occurs_in(name, "advanced micro"@)
            &&& kind is Amf ==> occurs_in(name, "amd"@) || occurs_in(name, "amf"@) || occurs_in(
                name,
                "advanced micro"@,
            )
            &&& kind !is Stub
        }),
        device_kind(None) is QuickSync,
{
    parts_occur(a, "nvidia"@, b);
    parts_occur(a, "nvenc"@, b);
}

/// Encoder configuration.
#[derive(Debug, Clone, Copy, PartialEq, Eq, Structural)]
pub struct EncoderConfig {
    pub width: u32,
    pub height: u32,
    pub fps: u32,
    /// Target bitrate in bits per second.
    pub bitrate_bps: u32,
    /// Upper bound of the bitrate.
    pub max_bitrate_bps: u32,
    /// Keyframe interval in seconds.
    pub keyframe_interval_secs: u32,
}

impl Default for EncoderConfig {
    fn default() -> (config: Self)
        ensures
            config.width == 1920,
            config.height == 1080,
            config.fps == 60,
            config.bitrate_bps == 20_000_000,
            config.max_bitrate_bps == 35_000_000,
            config.keyframe_interval_secs == 2,
    {
        EncoderConfig {
            width: 1920,
            height: 1080,
            fps: 60,
            bitrate_bps: 20_000_000,
            max_bitrate_bps: 35_000_000,
            keyframe_interval_secs: 2,
        }
    }
}

/// Packs two 32-bit halves into one 64-bit attribute value.
pub fn pack_u32_u32(hi: u32, lo: u32) -> (packed: u64)
    ensures
        packed == hi * 0x1_0000_0000 + lo,
{
    assert(((hi as u64) << 32) | lo as u64 == hi * 0x1_0000_0000 + lo) by (bit_vector);
    ((hi as u64) << 32) | lo as u64
}

/// Both halves can be read back from a packed value.
pub proof fn packed_halves_read_back(hi: u32, lo: u32)
    ensures
        (hi * 0x1_0000_0000 + lo) / 0x1_0000_0000 == hi,
        (hi * 0x1_0000_0000 + lo) % 0x1_0000_0000 == lo,
{
}

/// The four bytes that open a NAL unit stand at `i`.
pub open spec fn start_code_at(data: Seq<u8>, i: int) -> bool {
    &&& 0 <= i
    &&& i + 4 <= data.len()
    &&& data[i] == 0 && data[i + 1] == 0 && data[i + 2] == 0 && data[i + 3] == 1
}

/// The type of the NAL unit with this first byte.
pub open spec fn nal_type(header: u8) -> u8 {
    header & 0x1F
}

/// An IDR slice (NAL unit type 5) opens at `i`.
pub open spec fn idr_at(data: Seq<u8>, i: int) -> bool {
    start_code_at(data, i) && i + 4 < data.len() && nal_type(data[i + 4]) == 5
}

/// The stream holds an IDR slice.
pub open spec fn has_idr(data: Seq<u8>) -> bool {
    exists|i: int| idr_at(data, i)
}

/// Whether an Annex-B stream holds an IDR slice.
pub fn is_idr_nal(data: &[u8]) -> (r: bool)
    ensures
        r == has_idr(data@),
        r <==> exists|i: int|
            0 <= i && i + 4 < data@.len() && #[trigger] data@[i] == 0 && data@[i + 1] == 0 && data@[i
                + 2] == 0 && data@[i + 3] == 1 && data@[i + 4] & 0x1F == 5,
{
    let len: usize = data.len();
    let mut i: usize = 0;
    while i < len && len - i > 4
        invariant
            i <= len == data@.len(),
            forall|j: int| 0 <= j < i ==> !idr_at(data@, j),
        decreases len - i,
    {
        if data[i] == 0 && data[i + 1] == 0 && data[i + 2] == 0 && data[i + 3] == 1 {
            if data[i + 4] & 0x1F == 5 {
                assert(idr_at(data@, i as int));
                assert(data@[i as int] == 0);
                return true;
            }
            // Start codes do not overlap.
            assert(data@[i + 3] == 1);
            i += 4;
        } else {
            i += 1;
        }
    }
    assert forall|k: int|
        0 <= k && k + 4 < data@.len() && #[trigger] data@[k] == 0 && data@[k + 1] == 0 && data@[k
            + 2] == 0 && data@[k + 3] == 1 implies data@[k + 4] & 0x1F != 5 by {
        assert(!idr_at(data@, k));
    }
    false
}

/// A keyframe is known wherever it stands: a stream holds an IDR slice exactly where the bytes 0,
/// 0, 0, 1 and the header of one stand next to each other in it.
pub proof fn keyframes_are_known_anywhere(before: Seq<u8>, header: u8, rest: Seq<u8>)
    ensures
        header & 0x1F == 5 ==> has_idr(before + seq![0u8, 0u8, 0u8, 1u8, header] + rest),
        has_idr(rest) ==> exists|i: int|
            0 <= i && i + 4 < rest.len() && #[trigger] rest[i] == 0 && rest[i + 1] == 0 && rest[i
                + 2] == 0 && rest[i + 3] == 1 && rest[i + 4] & 0x1F == 5,
{
    let data = before + seq![0u8, 0u8, 0u8, 1u8, header] + rest;
    let n = before.len() as int;
    if header & 0x1F == 5 {
        assert(data[n] == 0 && data[n + 1] == 0 && data[n + 2] == 0 && data[n + 3] == 1 && data[n
            + 4] == header);
        assert(idr_at(data, n));
    }
    if has_idr(rest) {
        let i = choose|i: int| idr_at(rest, i);
        assert(rest[i] == 0);
    }
}

/// An encoder that makes no pictures, only the headers of NAL units, at the pace of a real one.
#[derive(Debug, Clone, Copy)]
pub struct StubEncoder {
    pub config: EncoderConfig,
    pub frame_count: u64,
}

/// How many frames there are from one keyframe to the next.
pub open spec fn keyframe_interval(config: EncoderConfig) -> int {
    config.fps * config.keyframe_interval_secs
}

/// The packet that the stub makes of its frame number `n`, counted from 1.
pub open spec fn stub_packet(config: EncoderConfig, n: int, pts_us: u64) -> PacketView {
    let key = (n - 1) % keyframe_interval(config) == 0;
    PacketView {
        data: seq![
            0u8,
            0u8,
            0u8,
            1u8,
            if key {
                0x65u8
            } else {
                0x41u8
            },
        ],
        pts_us,
        is_keyframe: key,
    }
}

impl StubEncoder {
    /// A stub that has seen no frame.
    pub fn new(config: EncoderConfig) -> (stub: Self)
        ensures
            stub.config == config,
            stub.frame_count == 0,
    {
        StubEncoder { config, frame_count: 0 }
    }

    /// One packet for each frame.
    pub fn encode(&mut self, frame: &VideoFrame) -> (r: Result<Vec<EncodedPacket>, String>)
        requires
            keyframe_interval(old(self).config) > 0,
            old(self).frame_count < u64::MAX,
        ensures
            final(self).config == old(self).config,
            final(self).frame_count == old(self).frame_count + 1,
            r matches Ok(packets) && packet_views(packets@) == seq![
                stub_packet(old(self).config, old(self).frame_count + 1, frame.pts_us),
            ],
            r matches Ok(packets) && packets@.len() == 1 && packets@[0].pts_us == frame.pts_us,
    {
        self.frame_count = self.frame_count + 1;
        assert(self.config.fps * self.config.keyframe_interval_secs <= u32::MAX * u32::MAX)
            by (nonlinear_arith)
            requires
                0 <= self.config.fps <= u32::MAX,
                0 <= self.config.keyframe_interval_secs <= u32::MAX,
        ;
        let interval: u64 = self.config.fps as u64 * self.config.keyframe_interval_secs as u64;
        let is_keyframe = (self.frame_count - 1) % interval == 0;
        let header: u8 = if is_keyframe {
            0x65
        } else {
            0x41
        };
        let data: Vec<u8> = vec![0, 0, 0, 1, header];
        let ghost expected = stub_packet(self.config, self.frame_count as int, frame.pts_us);
        assert(data@ =~= expected.data);
        let packet = EncodedPacket { data: Arc::new(data), pts_us: frame.pts_us, is_keyframe };
        assert(packet@ == expected);
        let packets: Vec<EncodedPacket> = vec![packet];
        assert(packet_views(packets@) =~= seq![expected]);
        assert(packet_views(packets@)[0] == packets@[0]@);
        Ok(packets)
    }

    /// The stub holds nothing back.
    pub fn flush(&mut self) -> (r: Result<Vec<EncodedPacket>, String>)
        ensures
            *final(self) == *old(self),
            r matches Ok(packets) && packets@.len() == 0,
    {
        Ok(Vec::new())
    }
}

/// Where packets come from.
pub enum EncoderInner {
    MediaFoundation(MfEncoder),
    Stub(StubEncoder),
}

/// What an encoder is to be made of.
pub enum EncoderBackend {
    /// The result of the search for a hardware encoder.
    MediaFoundation(DeviceProbe),
    /// No hardware encoder can be had on this platform.
    Stub,
}

/// Active encoder instance.
pub struct Encoder {
    pub kind: EncoderKind,
    pub inner: EncoderInner,
}

/// The encoder can take this frame now.
pub open spec fn can_encode(encoder: Encoder, frame: VideoFrame) -> bool {
    match encoder.inner {
        EncoderInner::MediaFoundation(mf) => mf.phase is Idle && mf.config.fps > 0 && is_encodable(
            frame,
        ),
        EncoderInner::Stub(stub) => keyframe_interval(stub.config) > 0 && stub.frame_count
            < u64::MAX,
    }
}

impl Encoder {
    /// The encoder for a backend. Where hardware is looked for and not found, there is none:
    /// nothing is encoded in software.
    pub fn new(config: EncoderConfig, backend: &EncoderBackend) -> (r: Result<Self, String>)
        ensures
            match backend {
                EncoderBackend::Stub => r matches Ok(encoder) && encoder.kind is Stub
                    && encoder.inner == EncoderInner::Stub(StubEncoder { config, frame_count: 0 }),
                EncoderBackend::MediaFoundation(probe) => exists|mf: Result<
                    (MfEncoder, EncoderKind),
                    String,
                >| #[trigger]
                    probed(config, *probe, mf) && match mf {
                        Ok((inner, kind)) => r == Ok::<Encoder, String>(
                            Encoder { kind, inner: EncoderInner::MediaFoundation(inner) },
                        ),
                        Err(e) => r matches Err(text) && text@
                            == "No compatible hardware encoder found. NVENC/AMF/QuickSync required.\nDetail: "@
                            + e@,
                    },
            },
    {
        match backend {
            EncoderBackend::Stub => Ok(
                Encoder {
                    kind: EncoderKind::Stub,
                    inner: EncoderInner::Stub(StubEncoder::new(config)),
                },
            ),
            EncoderBackend::MediaFoundation(probe) => {
                let mf = MfEncoder::new(config, probe);
                assert(probed(config, *probe, mf));
                match mf {
                    Ok((inner, kind)) => Ok(
                        Encoder { kind, inner: EncoderInner::MediaFoundation(inner) },
                    ),
                    Err(e) => Err(
                        "No compatible hardware encoder found. NVENC/AMF/QuickSync required.\nDetail: ".to_string().concat(
                        e.as_str()),
                    ),
                }
            },
        }
    }

    /// Begins to encode a frame. The stub is done at once; hardware asks for calls first.
    pub fn encode(&mut self, frame: &VideoFrame) -> (action: MfAction)
        requires
            can_encode(*old(self), *frame),
        ensures
            final(self).kind == old(self).kind,
            match (old(self).inner, final(self).inner) {
                (
                    EncoderInner::MediaFoundation(before),
                    EncoderInner::MediaFoundation(after),
                ) => encode_opens(before, *frame, after, action),
                (EncoderInner::Stub(before), EncoderInner::Stub(after)) => {
                    &&& after.config == before.config
                    &&& after.frame_count == before.frame_count + 1
                    &&& action matches MfAction::Finish(Ok(packets))
                    &&& packet_views(packets@) == seq![
                        stub_packet(before.config, before.frame_count + 1, frame.pts_us),
                    ]
                },
                _ => false,
            },
    {
        match &mut self.inner {
            EncoderInner::MediaFoundation(mf) => mf.encode(frame),
            EncoderInner::Stub(stub) => MfAction::Finish(stub.encode(frame)),
        }
    }

    /// Begins to flush what the encoder holds back.
    pub fn flush(&mut self) -> (action: MfAction)
        requires
            old(self).inner matches EncoderInner::MediaFoundation(mf) ==> mf.phase is Idle,
        ensures
            final(self).kind == old(self).kind,
            match (old(self).inner, final(self).inner) {
                (
                    EncoderInner::MediaFoundation(before),
                    EncoderInner::MediaFoundation(after),
                ) => flush_opens(before, after, action),
                (EncoderInner::Stub(before), EncoderInner::Stub(after)) => {
                    &&& after == before
                    &&& action matches MfAction::Finish(Ok(packets))
                    &&& packets@.len() == 0
                },
                _ => false,
            },
    {
        match &mut self.inner {
            EncoderInner::MediaFoundation(mf) => mf.flush(),
            EncoderInner::Stub(stub) => MfAction::Finish(stub.flush()),
        }
    }

    /// Takes one step of what was begun. The stub begins nothing that needs one.
    pub fn resume(&mut self, event: MfEvent) -> (action: MfAction)
        requires
            old(self).inner matches EncoderInner::MediaFoundation(mf) && {
                &&& answers(mf.phase, event)
                &&& event is Submitted ==> mf.sample_count < u64::MAX
                &&& mf.phase is Draining && event == MfEvent::Signal(Signal::NeedInput)
                    ==> mf.pending_need_input < u32::MAX
            },
        ensures
            final(self).kind == old(self).kind,
            match (old(self).inner, final(self).inner) {
                (
                    EncoderInner::MediaFoundation(before),
                    EncoderInner::MediaFoundation(after),
                ) => mf_step(before, event, after, action),
                _ => false,
            },
    {
        match &mut self.inner {
            EncoderInner::MediaFoundation(mf) => mf.resume(event),
            EncoderInner::Stub(stub) => MfAction::Finish(stub.flush()),
        }
    }
}

/// The flag of a stub packet tells the truth about its bytes.
pub proof fn stub_flag_matches_stream(config: EncoderConfig, n: int, pts_us: u64)
    ensures
        stub_packet(config, n, pts_us).is_keyframe <==> has_idr(
            stub_packet(config, n, pts_us).data,
        ),
        start_code_at(stub_packet(config, n, pts_us).data, 0),
{
    let p = stub_packet(config, n, pts_us);
    assert(0x65u8 & 0x1F == 5 && 0x41u8 & 0x1F == 1) by (bit_vector);
    if p.is_keyframe {
        assert(idr_at(p.data, 0));
    } else {
        assert forall|i: int| !idr_at(p.data, i) by {
            if start_code_at(p.data, i) {
                assert(i == 0);
            }
        }
    }
}

/// The first frame is a keyframe, and from each keyframe to the next there are as many frames as
/// the configured seconds hold.
pub proof fn stub_keyframes_come_at_the_interval(config: EncoderConfig, n: int, k: int)
    requires
        keyframe_interval(config) > 0,
        n >= 1,
        0 <= k < keyframe_interval(config),
        stub_packet(config, n, 0).is_keyframe,
    ensures
        stub_packet(config, 1, 0).is_keyframe,
        stub_packet(config, n + k, 0).is_keyframe <==> k == 0,
        stub_packet(config, n + keyframe_interval(config), 0).is_keyframe,
{
    let m = keyframe_interval(config);
    let q = (n - 1) / m;
    vstd::arithmetic::div_mod::lemma_small_mod(0, m as nat);
    vstd::arithmetic::div_mod::lemma_mod_add_multiples_vanish(n - 1, m);
    vstd::arithmetic::div_mod::lemma_fundamental_div_mod(n - 1, m);
    assert(q * m == m * q) by (nonlinear_arith);
    vstd::arithmetic::div_mod::lemma_fundamental_div_mod_converse(n - 1 + k, m, q, k);
}

/// A stub packet is a start code and one header, at the time of its frame: the header of an IDR
/// slice with the first frame and with every one that comes a whole number of keyframe intervals
/// after it, and that of another slice in between.
pub proof fn stub_packets_tell_their_kind(config: EncoderConfig, n: int, pts_us: u64)
    requires
        config.fps > 0,
        config.keyframe_interval_secs > 0,
        n >= 1,
    ensures
        ({
            let p = stub_packet(config, n, pts_us);
            let interval = config.fps * config.keyframe_interval_secs;
            &&& p.pts_us == pts_us
            &&& p.data.len() == 5
            &&& p.data.take(4) == seq![0u8, 0u8, 0u8, 1u8]
            &&& p.data[4] & 0x1F == (if p.is_keyframe {
                5u8
            } else {
                1u8
            })
            &&& p.is_keyframe <==> exists|k: int| k >= 0 && n == 1 + #[trigger] (k * interval)
        }),
{
    let p = stub_packet(config, n, pts_us);
    let m = keyframe_interval(config);
    assert(m > 0) by (nonlinear_arith)
        requires
            m == config.fps * config.keyframe_interval_secs,
            config.fps > 0,
            config.keyframe_interval_secs > 0,
    ;
    assert(0x65u8 & 0x1F == 5 && 0x41u8 & 0x1F == 1) by (bit_vector);
    assert(p.data.take(4) =~= seq![0u8, 0u8, 0u8, 1u8]);
    vstd::arithmetic::div_mod::lemma_fundamental_div_mod(n - 1, m);
    vstd::arithmetic::div_mod::lemma_div_pos_is_pos(n - 1, m);
    if p.is_keyframe {
        let k = (n - 1) / m;
        assert(k * m == m * k) by (nonlinear_arith);
        assert(n == 1 + k * m);
    }
    if exists|k: int| k >= 0 && n == 1 + #[trigger] (k * m) {
        let k = choose|k: int| k >= 0 && n == 1 + #[trigger] (k * m);
        vstd::arithmetic::div_mod::lemma_fundamental_div_mod_converse(n - 1, m, k, 0);
    }
}

} // verus!
