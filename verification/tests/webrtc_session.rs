use gameshare::webrtc_session::{
    answer_description, audio_timing, classify_mime, classify_track, codec_plan, direction_of,
    explained, ice_servers, offer_description, track_plan, video_timing, Codec, Direction,
    TrackKind,
};
use webrtc::peer_connection::sdp::sdp_type::RTCSdpType;

const SDP: &str = "v=0\r\no=- 1 2 IN IP4 127.0.0.1\r\ns=-\r\nt=0 0\r\n";

#[test]
fn video_packets_last_a_sixtieth_of_a_second() {
    assert_eq!(video_timing(0).duration_us, 16_667);
    assert_eq!(video_timing(1_000_000).duration_us, 16_667);
}

#[test]
fn video_clock_runs_at_90_khz() {
    assert_eq!(video_timing(0).packet_timestamp, 0);
    assert_eq!(video_timing(11).packet_timestamp, 0);
    assert_eq!(video_timing(12).packet_timestamp, 1);
    assert_eq!(video_timing(16_667).packet_timestamp, 1_500);
    assert_eq!(video_timing(1_000_000).packet_timestamp, 90_000);
    assert_eq!(
        video_timing(u64::MAX).packet_timestamp,
        (u64::MAX as u128 * 90 / 1000) as u32
    );
    for pts_us in [0u64, 123_456, 47_721_858_000, 10_000_000_000_001] {
        let before = video_timing(pts_us).packet_timestamp;
        let after = video_timing(pts_us + 20_000).packet_timestamp;
        assert_eq!(after, before.wrapping_add(1_800));
    }
}

#[test]
fn audio_clock_runs_at_48_khz() {
    let t = audio_timing(20_000, 20_000);
    assert_eq!((t.duration_us, t.packet_timestamp), (20_000, 960));
    assert_eq!(audio_timing(20_999, 1).packet_timestamp, 960);
    assert_eq!(audio_timing(u64::MAX, 1).packet_timestamp, (u64::MAX / 1000 * 48) as u32);
    for n in [0u64, 123, 89_478_485, 10_000_000_000] {
        let before = audio_timing(n * 1000, 20_000).packet_timestamp;
        let after = audio_timing(n * 1000 + 20_000, 20_000).packet_timestamp;
        assert_eq!(after, before.wrapping_add(960));
    }
}

#[test]
fn codecs_as_they_are_registered() {
    let video = codec_plan(Codec::H264);
    assert_eq!((video.clock_rate, video.channels, video.payload_type), (90_000, 0, 96));
    assert_eq!(
        video.sdp_fmtp_line,
        "level-asymmetry-allowed=1;packetization-mode=1;profile-level-id=42e01f"
    );
    let audio = codec_plan(Codec::Opus);
    assert_eq!((audio.clock_rate, audio.channels, audio.payload_type), (48_000, 2, 111));
    assert_eq!(audio.sdp_fmtp_line, "minptime=10;useinbandfec=1;stereo=1");
}

#[test]
fn tracks_as_they_are_created() {
    let video = track_plan(Codec::H264);
    assert_eq!((video.clock_rate, video.channels), (90_000, 0));
    assert_eq!((video.id.as_str(), video.stream_id.as_str()), ("video", "gameshare-video"));
    let audio = track_plan(Codec::Opus);
    assert_eq!((audio.clock_rate, audio.channels), (48_000, 2));
    assert_eq!((audio.id.as_str(), audio.stream_id.as_str()), ("audio", "gameshare-audio"));
    assert_eq!(direction_of(true), Direction::SendTracks);
    assert_eq!(direction_of(false), Direction::ReceiveOnly);
}

#[test]
fn turn_is_used_where_it_is_set() {
    let servers = ice_servers("", "user", "password");
    assert_eq!(servers.len(), 1);
    assert_eq!(servers[0].url, "stun:stun.l.google.com:19302");
    assert!(servers[0].username.is_empty() && servers[0].credential.is_empty());
    let servers = ice_servers("turn:your.server.com:3478", "user", "password");
    assert_eq!(servers.len(), 2);
    assert_eq!(servers[0].url, "stun:stun.l.google.com:19302");
    assert_eq!(servers[1].url, "turn:your.server.com:3478");
    assert_eq!((servers[1].username.as_str(), servers[1].credential.as_str()), ("user", "password"));
}

#[test]
fn tracks_are_told_by_their_mime_type() {
    assert_eq!(classify_track("video/H264"), TrackKind::Video);
    assert_eq!(classify_track("audio/opus"), TrackKind::Audio);
    assert_eq!(classify_track("AUDIO/OPUS"), TrackKind::Audio);
    assert_eq!(classify_track("video/VP8"), TrackKind::Unknown);
    assert_eq!(classify_track(""), TrackKind::Unknown);
    assert_eq!(classify_mime("video/H264"), TrackKind::Unknown);
    assert_eq!(classify_mime("x-opus-h264"), TrackKind::Video);
}

#[test]
fn descriptions_keep_their_text() {
    let answer = answer_description(SDP.to_string()).unwrap();
    assert_eq!((answer.sdp_type, answer.sdp.as_str()), (RTCSdpType::Answer, SDP));
    let offer = offer_description(SDP.to_string()).unwrap();
    assert_eq!((offer.sdp_type, offer.sdp.as_str()), (RTCSdpType::Offer, SDP));
}

#[test]
fn bad_descriptions_are_refused_in_the_words_of_the_parser() {
    let e = answer_description("hello".to_string()).unwrap_err();
    assert_eq!(e, "answer SDP parse: SdpInvalidSyntax: hello");
    let e = offer_description("v=1\r\n".to_string()).unwrap_err();
    assert_eq!(e, "offer parse: SdpInvalidSyntax: 1");
}

#[test]
fn failures_are_explained() {
    assert_eq!(explained(Err("why".to_string()), "so: ").unwrap_err(), "so: why");
    let offer = offer_description(SDP.to_string());
    assert_eq!(explained(offer, "so: ").unwrap().sdp, SDP);
}
