//! WebRTC sessions: how packets are timed, what is negotiated, and the descriptions that host and
//! viewer exchange.
use vstd::prelude::*;
use webrtc::peer_connection::sdp::session_description::RTCSessionDescription;

use crate::text::{contains, lowercase, occurs_in, parts_occur, to_lowercase};

verus! {

// ---- Timing ----

/// When a packet is played: how long it lasts, and its RTP timestamp.
#[derive(Debug, Clone, Copy, PartialEq, Eq, Structural)]
pub struct SampleTiming {
    pub duration_us: u64,
    pub packet_timestamp: u32,
}

/// The low 32 bits of `n`.
pub open spec fn low32(n: int) -> int {
    n % 0x1_0000_0000
}

/// The low 32 bits of `n`.
fn truncated(n: u64) -> (r: u32)
    ensures
        r == low32(n as int),
{
    assert(n as u32 == n % 0x1_0000_0000u64) by (bit_vector);
    #[verifier::truncate]
    let r: u32 = n as u32;
    r
}

/// The RTP timestamp of a video packet: 90 ticks for each millisecond.
pub open spec fn video_ticks(pts_us: int) -> int {
    low32(pts_us * 90 / 1000)
}

/// How a video packet is timed: it lasts one sixtieth of a second.
pub fn video_timing(pts_us: u64) -> (t: SampleTiming)
    ensures
        t.duration_us == 16_667,
        t.packet_timestamp == video_ticks(pts_us as int),
        t.packet_timestamp == (pts_us * 90 / 1000) % 0x1_0000_0000,
{
    let ticks: u128 = pts_us as u128 * 90 / 1000;
    SampleTiming {
        duration_us: 16_667,
        packet_timestamp: truncated((ticks % 0x1_0000_0000) as u64),
    }
}

/// The video clock runs at 90 kHz, the rate with which the codec is registered: packets that are
/// `ms` milliseconds apart are `90 * ms` ticks apart, modulo the width of a timestamp.
pub proof fn video_clock_runs_at_90_khz(pts_us: int, ms: int)
    requires
        0 <= pts_us,
        0 <= ms,
    ensures
        video_ticks(pts_us + 1000 * ms) == low32(video_ticks(pts_us) + 90 * ms),
        clock_rate_of(Codec::H264) == 90 * 1000,
{
    assert((pts_us + 1000 * ms) * 90 / 1000 == pts_us * 90 / 1000 + 90 * ms);
}

/// The RTP timestamp of an audio packet: 48 ticks for each full millisecond.
pub open spec fn audio_ticks(pts_us: int) -> int {
    low32(pts_us / 1000 * 48)
}

/// How an audio packet is timed.
pub fn audio_timing(pts_us: u64, duration_us: u64) -> (t: SampleTiming)
    ensures
        t.duration_us == duration_us,
        t.packet_timestamp == audio_ticks(pts_us as int),
        t.packet_timestamp == (pts_us as int / 1000 * 48) % 0x1_0000_0000,
{
    SampleTiming { duration_us, packet_timestamp: truncated(pts_us / 1000 * 48) }
}

/// The audio clock runs at 48 kHz: packets that are `ms` milliseconds apart are `48 * ms` ticks
/// apart, modulo the width of a timestamp.
pub proof fn audio_clock_runs_at_48_khz(pts_us: int, ms: int)
    requires
        0 <= pts_us,
        0 <= ms,
    ensures
        audio_ticks(pts_us + 1000 * ms) == low32(audio_ticks(pts_us) + 48 * ms),
        clock_rate_of(Codec::Opus) == 48 * 1000,
{
    assert((pts_us + 1000 * ms) / 1000 == pts_us / 1000 + ms);
}

/// Both clocks begin at 0 with the stream, and tell the time: until a timestamp is full, a video
/// timestamp is the count of ninetieths of a millisecond that have passed, and an audio timestamp
/// that of forty-eighths in the full milliseconds. Later packets never have an earlier one.
pub proof fn timestamps_tell_the_time(pts_us: int, later_us: int)
    requires
        0 <= pts_us <= later_us,
        later_us * 90 / 1000 < 0x1_0000_0000,
    ensures
        1000 * video_ticks(pts_us) <= 90 * pts_us < 1000 * (video_ticks(pts_us) + 1),
        exists|ms: int|
            1000 * ms <= pts_us < 1000 * (ms + 1) && audio_ticks(pts_us) == #[trigger] (48 * ms),
        video_ticks(pts_us) <= video_ticks(later_us),
        audio_ticks(pts_us) <= audio_ticks(later_us),
{
    let ms = pts_us / 1000;
    assert(audio_ticks(pts_us) == 48 * ms);
}

// ---- Negotiation ----

/// The codecs in use.
#[derive(Debug, Clone, Copy, PartialEq, Eq, Structural)]
pub enum Codec {
    H264,
    Opus,
}

/// A codec as it is registered.
#[derive(Debug, Clone)]
pub struct CodecPlan {
    pub codec: Codec,
    pub clock_rate: u32,
    pub channels: u16,
    pub sdp_fmtp_line: String,
    pub payload_type: u8,
}

/// A track as it is created.
#[derive(Debug, Clone)]
pub struct TrackPlan {
    pub codec: Codec,
    pub clock_rate: u32,
    pub channels: u16,
    pub id: String,
    pub stream_id: String,
}

/// What a peer does with its media lines.
#[derive(Debug, Clone, Copy, PartialEq, Eq, Structural)]
pub enum Direction {
    /// The tracks are added, and sent.
    SendTracks,
    /// One receiver each for video and audio, and nothing is sent.
    ReceiveOnly,
}

/// Ticks per second of a codec's clock.
pub open spec fn clock_rate_of(codec: Codec) -> u32 {
    match codec {
        Codec::H264 => 90_000,
        Codec::Opus => 48_000,
    }
}

/// How many channels a codec has; none for video.
pub open spec fn channels_of(codec: Codec) -> u16 {
    match codec {
        Codec::H264 => 0,
        Codec::Opus => 2,
    }
}

/// How a codec is registered: H.264 as Annex-B video, Opus as stereo audio.
pub fn codec_plan(codec: Codec) -> (plan: CodecPlan)
    ensures
        plan.codec == codec,
        plan.clock_rate == clock_rate_of(codec),
        plan.channels == channels_of(codec),
        codec is H264 ==> plan.clock_rate == 90_000 && plan.channels == 0,
        codec is Opus ==> plan.clock_rate == 48_000 && plan.channels == 2,
        match codec {
            Codec::H264 => plan.payload_type == 96 && plan.sdp_fmtp_line@
                == "level-asymmetry-allowed=1;packetization-mode=1;profile-level-id=42e01f"@,
            Codec::Opus => plan.payload_type == 111 && plan.sdp_fmtp_line@
                == "minptime=10;useinbandfec=1;stereo=1"@,
        },
{
    match codec {
        Codec::H264 => CodecPlan {
            codec,
            clock_rate: 90_000,
            channels: 0,
            sdp_fmtp_line:
                "level-asymmetry-allowed=1;packetization-mode=1;profile-level-id=42e01f".to_string(),
            payload_type: 96,
        },
        Codec::Opus => CodecPlan {
            codec,
            clock_rate: 48_000,
            channels: 2,
            sdp_fmtp_line: "minptime=10;useinbandfec=1;stereo=1".to_string(),
            payload_type: 111,
        },
    }
}

/// The track of a codec: `video` or `audio`, on a stream of its own.
pub fn track_plan(codec: Codec) -> (plan: TrackPlan)
    ensures
        plan.codec == codec,
        plan.clock_rate == clock_rate_of(codec),
        plan.channels == channels_of(codec),
        codec is H264 ==> plan.clock_rate == 90_000 && plan.channels == 0,
        codec is Opus ==> plan.clock_rate == 48_000 && plan.channels == 2,
        match codec {
            Codec::H264 => plan.id@ == "video"@ && plan.stream_id@ == "gameshare-video"@,
            Codec::Opus => plan.id@ == "audio"@ && plan.stream_id@ == "gameshare-audio"@,
        },
{
    match codec {
        Codec::H264 => TrackPlan {
            codec,
            clock_rate: 90_000,
            channels: 0,
            id: "video".to_string(),
            stream_id: "gameshare-video".to_string(),
        },
        Codec::Opus => TrackPlan {
            codec,
            clock_rate: 48_000,
            channels: 2,
            id: "audio".to_string(),
            stream_id: "gameshare-audio".to_string(),
        },
    }
}

/// The host sends, the viewer only receives.
pub fn direction_of(is_host: bool) -> (direction: Direction)
    ensures
        direction == if is_host {
            Direction::SendTracks
        } else {
            Direction::ReceiveOnly
        },
{
    if is_host {
        Direction::SendTracks
    } else {
        Direction::ReceiveOnly
    }
}

/// A server that helps two peers to find each other.
#[derive(Debug, Clone)]
pub struct IceServer {
    pub url: String,
    pub username: String,
    pub credential: String,
}

/// An [`IceServer`], with its texts as characters.
pub struct IceServerView {
    pub url: Seq<char>,
    pub username: Seq<char>,
    pub credential: Seq<char>,
}

impl View for IceServer {
    type V = IceServerView;

    open spec fn view(&self) -> IceServerView {
        IceServerView {
            url: self.url@,
            username: self.username@,
            credential: self.credential@,
        }
    }
}

/// The public STUN server, which needs no account.
pub open spec fn stun_server() -> IceServerView {
    IceServerView {
        url: "stun:stun.l.google.com:19302"@,
        username: Seq::empty(),
        credential: Seq::empty(),
    }
}

/// The servers in use: the public STUN server, and then the TURN server where one is set. An
/// empty name switches TURN off.
pub fn ice_servers(turn_server: &str, turn_username: &str, turn_credential: &str) -> (servers: Vec<
    IceServer,
>)
    ensures
        servers@.len() == (if turn_server@.len() == 0 {
            1int
        } else {
            2int
        }),
        servers@[0]@ == stun_server(),
        servers@[0].url@ == "stun:stun.l.google.com:19302"@,
        servers@[0].username@.len() == 0,
        servers@[0].credential@.len() == 0,
        turn_server@.len() > 0 ==> servers@[1]@ == (IceServerView {
            url: turn_server@,
            username: turn_username@,
            credential: turn_credential@,
        }),
{
    let mut servers: Vec<IceServer> = Vec::new();
    let stun = IceServer {
        url: "stun:stun.l.google.com:19302".to_string(),
        username: String::new(),
        credential: String::new(),
    };
    servers.push(stun);
    if !turn_server.is_empty() {
        servers.push(
            IceServer {
                url: turn_server.to_string(),
                username: turn_username.to_string(),
                credential: turn_credential.to_string(),
            },
        );
    }
    servers
}

/// What a remote track carries.
#[derive(Debug, Clone, Copy, PartialEq, Eq, Structural)]
pub enum TrackKind {
    Video,
    Audio,
    /// A codec that is not in use: the track is left alone.
    Unknown,
}

/// The kind of a track whose MIME type, in lower case, is `mime`.
pub open spec fn kind_of_mime(mime: Seq<char>) -> TrackKind {
    if occurs_in(mime, "h264"@) {
        TrackKind::Video
    } else if occurs_in(mime, "opus"@) {
        TrackKind::Audio
    } else {
        TrackKind::Unknown
    }
}

/// A track is known by a word in its MIME type, wherever the word stands: `h264` for video, else
/// `opus` for audio; and one that has neither is left alone.
pub proof fn tracks_are_known_by_a_word(a: Seq<char>, b: Seq<char>, mime: Seq<char>)
    ensures
        kind_of_mime(a + "h264"@ + b) is Video,
        mime == a + "opus"@ + b && !occurs_in(mime, "h264"@) ==> kind_of_mime(mime) is Audio,
        kind_of_mime(mime) is Video ==> occurs_in(mime, "h264"@),
        kind_of_mime(mime) is Audio ==> occurs_in(mime, "opus"@),
{
    parts_occur(a, "h264"@, b);
    parts_occur(a, "opus"@, b);
}

/// The kind of a track, by its MIME type in lower case.
pub fn classify_mime(mime: &str) -> (kind: TrackKind)
    ensures
        kind == kind_of_mime(mime@),
{
    if contains(mime, "h264") {
        TrackKind::Video
    } else if contains(mime, "opus") {
        TrackKind::Audio
    } else {
        TrackKind::Unknown
    }
}

/// The kind of a track, by its MIME type in any case.
pub fn classify_track(mime: &str) -> (kind: TrackKind)
    ensures
        kind == kind_of_mime(lowercase(mime@)),
{
    classify_mime(to_lowercase(mime).as_str())
}

// ---- Session descriptions ----

/// `RTCSessionDescription` of the `webrtc` crate: an offer or an answer that has been parsed.
#[verifier::external_type_specification]
#[verifier::external_body]
pub struct ExRTCSessionDescription(RTCSessionDescription);

/// The fields `sdp_type` and `sdp` of a description: whether it is an answer (and not an offer),
/// and its text.
pub uninterp spec fn description_of(d: RTCSessionDescription) -> (bool, Seq<char>);

/// What the parser says of an answer that it refuses; nothing where it accepts it.
pub uninterp spec fn answer_fault(sdp: Seq<char>) -> Option<Seq<char>>;

/// What the parser says of an offer that it refuses; nothing where it accepts it.
pub uninterp spec fn offer_fault(sdp: Seq<char>) -> Option<Seq<char>>;

/// The sentence of a refusal, as characters.
pub open spec fn fault_of(r: Result<RTCSessionDescription, String>) -> Option<Seq<char>> {
    match r {
        Ok(_) => None,
        Err(e) => Some(e@),
    }
}

/// `RTCSessionDescription::answer` of the `webrtc` crate: a description of the type answer that
/// holds the text as it is, or the parser's error in its own words. What the parser accepts is
/// not said here.
#[verifier::external_body]
fn read_answer(sdp: String) -> (r: Result<RTCSessionDescription, String>)
    ensures
        fault_of(r) == answer_fault(sdp@),
        r is Ok ==> description_of(r->Ok_0) == (true, sdp@),
{
    RTCSessionDescription::answer(sdp).map_err(|e| e.to_string())
}

/// `RTCSessionDescription::offer` of the `webrtc` crate: a description of the type offer that
/// holds the text as it is, or the parser's error in its own words. What the parser accepts is
/// not said here.
#[verifier::external_body]
fn read_offer(sdp: String) -> (r: Result<RTCSessionDescription, String>)
    ensures
        fault_of(r) == offer_fault(sdp@),
        r is Ok ==> description_of(r->Ok_0) == (false, sdp@),
{
    RTCSessionDescription::offer(sdp).map_err(|e| e.to_string())
}

/// What came of a parse, with `prefix` in front of the parser's words where it failed.
pub fn explained(r: Result<RTCSessionDescription, String>, prefix: &str) -> (e: Result<
    RTCSessionDescription,
    String,
>)
    ensures
        match r {
            Ok(d) => e == Ok::<RTCSessionDescription, String>(d),
            Err(text) => e matches Err(t) && t@ == prefix@ + text@,
        },
{
    match r {
        Ok(d) => Ok(d),
        Err(text) => Err(prefix.to_string().concat(text.as_str())),
    }
}

/// The viewer's answer, parsed.
pub fn answer_description(sdp: String) -> (r: Result<RTCSessionDescription, String>)
    ensures
        match answer_fault(sdp@) {
            None => r matches Ok(d) && description_of(d) == (true, sdp@),
            Some(text) => r matches Err(e) && e@ == "answer SDP parse: "@ + text,
        },
{
    explained(read_answer(sdp), "answer SDP parse: ")
}

/// The host's offer, parsed.
pub fn offer_description(sdp: String) -> (r: Result<RTCSessionDescription, String>)
    ensures
        match offer_fault(sdp@) {
            None => r matches Ok(d) && description_of(d) == (false, sdp@),
            Some(text) => r matches Err(e) && e@ == "offer parse: "@ + text,
        },
{
    explained(read_offer(sdp), "offer parse: ")
}

} // verus!
