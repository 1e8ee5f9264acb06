use std::sync::Arc;

use gameshare::capture::VideoFrame;
use gameshare::encoder::{
    classify_device, classify_name, is_idr_nal, pack_u32_u32, Encoder, EncoderBackend,
    EncoderConfig, EncoderInner, EncoderKind, StubEncoder,
};
use gameshare::mf_encoder::{
    build_sample, packet_from_output, pick_device, DeviceFault, DeviceProbe, FoundDevice, MfAction,
    MfEncoder, MfEvent, MfPhase, OutputSample, Signal, MF_E_NO_EVENTS_AVAILABLE,
    MF_E_TRANSFORM_NEED_MORE_INPUT,
};

fn frame(pts_us: u64) -> VideoFrame {
    VideoFrame { data: Arc::new(vec![0u8; 16]), width: 2, height: 2, pts_us }
}

fn utf16(s: &str) -> Vec<u16> {
    s.encode_utf16().collect()
}

fn working(name: Option<&str>) -> FoundDevice {
    FoundDevice { name: name.map(utf16), fault: None }
}

fn broken(name: &str, why: &str) -> FoundDevice {
    FoundDevice { name: Some(utf16(name)), fault: Some(DeviceFault::SetUp(why.into())) }
}

fn null(name: &str) -> FoundDevice {
    FoundDevice { name: Some(utf16(name)), fault: Some(DeviceFault::Null) }
}

fn found(devices: Vec<FoundDevice>) -> DeviceProbe {
    DeviceProbe { startup_error: None, searched: true, devices }
}

fn probe(name: Option<&str>) -> DeviceProbe {
    found(vec![working(name)])
}

fn hardware() -> MfEncoder {
    MfEncoder::new(EncoderConfig::default(), &probe(None)).unwrap().0
}

fn refused(probe: DeviceProbe) -> String {
    match Encoder::new(EncoderConfig::default(), &EncoderBackend::MediaFoundation(probe)) {
        Ok(_) => panic!("no error"),
        Err(e) => e,
    }
}

#[test]
fn default_config() {
    let config = EncoderConfig::default();
    assert_eq!((config.width, config.height, config.fps), (1920, 1080, 60));
    assert_eq!(config.bitrate_bps, 20_000_000);
    assert_eq!(config.max_bitrate_bps, 35_000_000);
    assert_eq!(config.keyframe_interval_secs, 2);
}

#[test]
fn kinds_have_names() {
    assert_eq!(EncoderKind::Nvenc.to_string(), "NVENC H264");
    assert_eq!(EncoderKind::Amf.to_string(), "AMF H264");
    assert_eq!(EncoderKind::QuickSync.to_string(), "QuickSync H264");
    assert_eq!(EncoderKind::Stub.to_string(), "Stub (test)");
}

#[test]
fn devices_are_told_by_their_names() {
    assert_eq!(classify_name("nvidia h.264 encoder mft"), EncoderKind::Nvenc);
    assert_eq!(classify_name("some nvenc"), EncoderKind::Nvenc);
    assert_eq!(classify_name("amdh264encoder"), EncoderKind::Amf);
    assert_eq!(classify_name("amf"), EncoderKind::Amf);
    assert_eq!(classify_name("advanced micro devices"), EncoderKind::Amf);
    assert_eq!(classify_name("intel quick sync"), EncoderKind::QuickSync);
    assert_eq!(classify_name("something else"), EncoderKind::QuickSync);
    assert_eq!(classify_name("NVIDIA"), EncoderKind::QuickSync);
    assert_eq!(classify_device(&Some(utf16("NVIDIA H.264 Encoder MFT"))), EncoderKind::Nvenc);
    assert_eq!(classify_device(&Some(utf16("AMDh264Encoder"))), EncoderKind::Amf);
    assert_eq!(classify_device(&Some(vec![0xd800, 0x41, 0x4d, 0x44])), EncoderKind::Amf);
    assert_eq!(classify_device(&Some(vec![])), EncoderKind::QuickSync);
    assert_eq!(classify_device(&None), EncoderKind::QuickSync);
}

#[test]
fn halves_are_packed() {
    assert_eq!(pack_u32_u32(1920, 1080), (1920u64 << 32) | 1080);
    let packed = pack_u32_u32(u32::MAX, 7);
    assert_eq!((packed >> 32, packed as u32), (u32::MAX as u64, 7));
}

#[test]
fn idr_slices_are_found() {
    assert!(is_idr_nal(&[0, 0, 0, 1, 0x65]));
    assert!(is_idr_nal(&[0, 0, 0, 1, 0x67, 9, 0, 0, 0, 1, 0x65, 1]));
    assert!(is_idr_nal(&[0, 0, 0, 0, 1, 0x25]));
    assert!(!is_idr_nal(&[0, 0, 0, 1, 0x41]));
    assert!(!is_idr_nal(&[0, 0, 0, 1]));
    assert!(!is_idr_nal(&[0, 0, 1, 0x65, 0]));
    assert!(!is_idr_nal(&[]));
    assert!(!is_idr_nal(&[0, 0, 0, 1, 0, 0, 0, 1]));
}

#[test]
fn stub_sends_keyframes_at_the_interval() {
    let config = EncoderConfig { fps: 3, keyframe_interval_secs: 2, ..EncoderConfig::default() };
    let mut stub = StubEncoder::new(config);
    for n in 1..=20u64 {
        let packets = stub.encode(&frame(n * 1000)).unwrap();
        assert_eq!(packets.len(), 1);
        let key = n % 6 == 1;
        assert_eq!(packets[0].is_keyframe, key);
        assert_eq!(*packets[0].data, vec![0, 0, 0, 1, if key { 0x65 } else { 0x41 }]);
        assert_eq!(is_idr_nal(&packets[0].data), key);
        assert_eq!(packets[0].pts_us, n * 1000);
    }
    assert!(stub.flush().unwrap().is_empty());
    assert_eq!(stub.frame_count, 20);
}

#[test]
fn stub_with_an_interval_of_one_frame_sends_keyframes_only() {
    let config = EncoderConfig { fps: 1, keyframe_interval_secs: 1, ..EncoderConfig::default() };
    let mut stub = StubEncoder::new(config);
    for _ in 0..3 {
        let packets = stub.encode(&frame(0)).unwrap();
        assert!(packets[0].is_keyframe);
        assert_eq!(*packets[0].data, vec![0, 0, 0, 1, 0x65]);
    }
}

#[test]
fn encoder_over_the_stub() {
    let mut encoder = Encoder::new(EncoderConfig::default(), &EncoderBackend::Stub).unwrap();
    assert_eq!(encoder.kind, EncoderKind::Stub);
    match encoder.encode(&frame(5)) {
        MfAction::Finish(Ok(packets)) => {
            assert_eq!(packets.len(), 1);
            assert!(packets[0].is_keyframe);
            assert_eq!(packets[0].pts_us, 5);
        }
        _ => unreachable!(),
    }
    assert!(matches!(encoder.flush(), MfAction::Finish(Ok(packets)) if packets.is_empty()));
}

#[test]
fn no_encoder_without_hardware() {
    let head = "No compatible hardware encoder found. NVENC/AMF/QuickSync required.\nDetail: ";
    assert_eq!(
        refused(found(vec![])),
        format!("{head}No hardware H.264 MFT encoders found (count=0)")
    );
    let three = vec![working(None), working(None), working(None)];
    let unsearched = DeviceProbe { searched: false, ..found(three) };
    assert_eq!(
        refused(unsearched),
        format!("{head}No hardware H.264 MFT encoders found (count=3)")
    );
    assert_eq!(refused(found(vec![null("NVIDIA")])), format!("{head}Null IMFActivate"));
    let dead = DeviceProbe { startup_error: Some("MFStartup".into()), ..probe(None) };
    assert_eq!(refused(dead), format!("{head}MFStartup"));
    let stuck = found(vec![broken("NVIDIA", "SetOutputType")]);
    assert_eq!(refused(stuck), format!("{head}SetOutputType"));
}

#[test]
fn devices_of_no_use_are_passed_over() {
    let kind = |devices: Vec<FoundDevice>| {
        MfEncoder::new(EncoderConfig::default(), &found(devices)).map(|(_, kind)| kind)
    };
    let (intel, amd, nvidia) = (working(Some("Intel")), working(Some("AMD")), null("NVIDIA"));
    assert_eq!(kind(vec![intel, nvidia]), Ok(EncoderKind::QuickSync));
    let intel = working(Some("Intel"));
    let nvidia = broken("NVIDIA", "SetInputType");
    assert_eq!(kind(vec![intel, nvidia, amd]), Ok(EncoderKind::Amf));
    let second = vec![broken("NVIDIA", "no device"), working(Some("NVIDIA"))];
    assert_eq!(pick_device(&second), Some(1));
    assert_eq!(kind(second), Ok(EncoderKind::Nvenc));
    // Where none is left, the first one's fault is told.
    let all = vec![broken("Intel", "first"), null("AMD"), broken("NVIDIA", "last")];
    assert_eq!(pick_device(&all), None);
    assert_eq!(kind(all), Err("first".to_string()));
    assert_eq!(kind(vec![null("AMD"), broken("NVIDIA", "last")]), Err("Null IMFActivate".into()));
}

#[test]
fn devices_are_tried_in_the_order_of_preference() {
    let names = ["Intel", "AMD", "NVIDIA", "AMD", "NVIDIA"];
    let mut devices: Vec<FoundDevice> = names.iter().map(|n| working(Some(n))).collect();
    let mut tried = Vec::new();
    while let Some(i) = pick_device(&devices) {
        tried.push(i);
        devices[i].fault = Some(DeviceFault::Null);
    }
    assert_eq!(tried, vec![2, 4, 1, 3, 0]);
}

#[test]
fn hardware_encoder_is_told_its_settings() {
    let config = EncoderConfig {
        width: 1280,
        height: 720,
        fps: 30,
        bitrate_bps: 9_000_000,
        ..EncoderConfig::default()
    };
    let (encoder, kind) = MfEncoder::new(config, &probe(Some("AMD"))).unwrap();
    assert_eq!(kind, EncoderKind::Amf);
    let settings = encoder.settings();
    assert_eq!(settings.avg_bitrate, 9_000_000);
    assert_eq!(settings.frame_size, (1280u64 << 32) | 720);
    assert_eq!(settings.frame_rate, (30u64 << 32) | 1);
    assert_eq!(settings.gop_size, 60);
    assert_eq!((settings.b_frames, settings.low_latency), (0, 1));
    assert_eq!(settings.input_format.to_le_bytes(), *b"NV12");
    assert_eq!(settings.output_format.to_le_bytes(), *b"H264");
    assert_eq!((settings.profile, settings.interlace_mode, settings.rate_control), (100, 2, 0));
}

#[test]
fn the_preferred_device_is_picked() {
    let picked = |names: &[&str]| {
        pick_device(&names.iter().map(|name| working(Some(name))).collect::<Vec<_>>())
    };
    let (intel, amd, nvidia) = ("Intel Quick Sync Video H.264 Encoder MFT", "AMD", "NVIDIA");
    assert_eq!(picked(&[intel, nvidia]), Some(1));
    assert_eq!(picked(&[intel, amd, nvidia, nvidia]), Some(2));
    assert_eq!(picked(&[intel, amd, intel]), Some(1));
    assert_eq!(picked(&[intel, intel]), Some(0));
    assert_eq!(picked(&[nvidia, amd]), Some(0));
    assert_eq!(picked(&[]), None);
    assert_eq!(pick_device(&vec![working(None), working(Some(amd))]), Some(1));
    let both = found(vec![working(Some(intel)), working(Some("NVIDIA H.264 Encoder MFT"))]);
    let (_, kind) = MfEncoder::new(EncoderConfig::default(), &both).unwrap();
    assert_eq!(kind, EncoderKind::Nvenc);
}

#[test]
fn samples_carry_picture_and_time() {
    let sample = build_sample(&frame(1_000_003), 60);
    assert_eq!(sample.nv12, vec![16, 16, 16, 16, 128, 128]);
    assert_eq!(sample.time_100ns, 10_000_030);
    assert_eq!(sample.duration_100ns, 166_666);
    assert_eq!(build_sample(&frame(u64::MAX / 10), 1).time_100ns, -6);
}

#[test]
fn packets_take_time_and_flag_from_the_output() {
    let output = |t| OutputSample { data: vec![0, 0, 0, 1, 0x65], sample_time: t };
    let packet = packet_from_output(output(Some(166_667)), 9);
    assert_eq!((packet.pts_us, packet.is_keyframe), (16_666, true));
    assert_eq!(packet_from_output(output(None), 9).pts_us, 9);
    assert_eq!(packet_from_output(output(Some(-1)), 9).pts_us, u64::MAX / 10);
}

#[test]
fn a_frame_waits_for_a_slot() {
    let mut mf = hardware();
    assert!(matches!(mf.encode(&frame(7)), MfAction::BuildSample(_)));
    assert!(matches!(mf.resume(MfEvent::Built), MfAction::WaitEvent));
    assert!(matches!(mf.resume(MfEvent::Signal(Signal::Other)), MfAction::WaitEvent));
    // Output of an earlier frame comes first.
    assert!(matches!(mf.resume(MfEvent::Signal(Signal::HaveOutput)), MfAction::PullOutput));
    let early = OutputSample { data: vec![0, 0, 0, 1, 0x41], sample_time: None };
    assert!(matches!(mf.resume(MfEvent::Output(Some(early))), MfAction::WaitEvent));
    assert!(matches!(mf.resume(MfEvent::Signal(Signal::NeedInput)), MfAction::Submit));
    assert!(matches!(mf.resume(MfEvent::Submitted), MfAction::PollEvent));
    assert_eq!((mf.sample_count, mf.pending_need_input), (1, 0));
    // Two slots come, and one piece of output.
    assert!(matches!(mf.resume(MfEvent::Signal(Signal::NeedInput)), MfAction::PollEvent));
    assert!(matches!(mf.resume(MfEvent::Signal(Signal::NeedInput)), MfAction::PollEvent));
    assert!(matches!(mf.resume(MfEvent::Signal(Signal::HaveOutput)), MfAction::PullOutput));
    let late = OutputSample { data: vec![0, 0, 0, 1, 0x65], sample_time: None };
    assert!(matches!(mf.resume(MfEvent::Output(Some(late))), MfAction::PollEvent));
    assert!(matches!(mf.resume(MfEvent::Signal(Signal::Other)), MfAction::PollEvent));
    let end = MfEvent::PollFailed { code: MF_E_NO_EVENTS_AVAILABLE, text: String::new() };
    match mf.resume(end) {
        MfAction::Finish(Ok(packets)) => {
            assert_eq!(packets.len(), 2);
            assert_eq!((packets[0].pts_us, packets[0].is_keyframe), (0, false));
            assert_eq!((packets[1].pts_us, packets[1].is_keyframe), (7, true));
        }
        _ => unreachable!(),
    }
    assert_eq!((mf.sample_count, mf.pending_need_input), (1, 2));
    // The next frame uses a slot in store.
    assert!(matches!(mf.encode(&frame(8)), MfAction::BuildSample(_)));
    assert!(matches!(mf.resume(MfEvent::Built), MfAction::Submit));
    assert_eq!(mf.pending_need_input, 1);
    match mf.resume(MfEvent::Failed("ProcessInput".into())) {
        MfAction::Finish(Err(e)) => assert_eq!(e, "ProcessInput"),
        _ => unreachable!(),
    }
    assert_eq!((mf.sample_count, mf.pending_need_input), (1, 1));
    assert_eq!(mf.phase, MfPhase::Idle);
}

#[test]
fn failures_of_the_hardware_have_words() {
    let finish = |action: MfAction| match action {
        MfAction::Finish(Err(e)) => e,
        _ => panic!("no failure"),
    };
    let mut mf = hardware();
    mf.encode(&frame(0));
    mf.resume(MfEvent::Built);
    assert_eq!(finish(mf.resume(MfEvent::WaitFailed)), "GetEvent (await NeedInput)");
    mf.encode(&frame(0));
    mf.resume(MfEvent::Built);
    mf.resume(MfEvent::Signal(Signal::NeedInput));
    mf.resume(MfEvent::Submitted);
    let failed = MfEvent::PollFailed { code: 5, text: "denied".into() };
    assert_eq!(finish(mf.resume(failed)), "GetEvent (drain): denied");
    mf.flush();
    mf.resume(MfEvent::DrainStarted);
    mf.resume(MfEvent::Signal(Signal::HaveOutput));
    let failed = MfEvent::OutputFailed { code: 5, text: "denied".into() };
    assert_eq!(finish(mf.resume(failed)), "ProcessOutput: denied");
    mf.flush();
    mf.resume(MfEvent::DrainStarted);
    assert_eq!(finish(mf.resume(MfEvent::WaitFailed)), "GetEvent (flush)");
}

#[test]
fn a_flush_collects_until_the_drain_is_complete() {
    let backend = EncoderBackend::MediaFoundation(probe(Some("Intel")));
    let mut encoder = Encoder::new(EncoderConfig::default(), &backend).unwrap();
    assert_eq!(encoder.kind, EncoderKind::QuickSync);
    assert!(matches!(encoder.flush(), MfAction::StartDrain));
    assert!(matches!(encoder.resume(MfEvent::DrainStarted), MfAction::WaitEvent));
    assert!(matches!(encoder.resume(MfEvent::Signal(Signal::HaveOutput)), MfAction::PullOutput));
    let none = MfEvent::OutputFailed { code: MF_E_TRANSFORM_NEED_MORE_INPUT, text: String::new() };
    assert!(matches!(encoder.resume(none), MfAction::WaitEvent));
    assert!(matches!(encoder.resume(MfEvent::Signal(Signal::HaveOutput)), MfAction::PullOutput));
    assert!(matches!(encoder.resume(MfEvent::Output(None)), MfAction::WaitEvent));
    assert!(matches!(encoder.resume(MfEvent::Signal(Signal::HaveOutput)), MfAction::PullOutput));
    let held = OutputSample { data: vec![0, 0, 0, 1, 0x65], sample_time: Some(50) };
    assert!(matches!(encoder.resume(MfEvent::Output(Some(held))), MfAction::WaitEvent));
    assert!(matches!(encoder.resume(MfEvent::Signal(Signal::NeedInput)), MfAction::WaitEvent));
    match encoder.resume(MfEvent::Signal(Signal::DrainComplete)) {
        MfAction::Finish(Ok(packets)) => {
            assert_eq!(packets.len(), 1);
            assert_eq!((packets[0].pts_us, packets[0].is_keyframe), (5, true));
        }
        _ => unreachable!(),
    }
    match encoder.inner {
        EncoderInner::MediaFoundation(mf) => assert_eq!(mf.phase, MfPhase::Idle),
        EncoderInner::Stub(_) => unreachable!(),
    }
}

#[test]
fn a_full_store_of_slots_does_not_stop_a_frame() {
    let mut mf = hardware();
    mf.pending_need_input = u32::MAX;
    mf.phase = MfPhase::AwaitingInput;
    assert!(matches!(mf.resume(MfEvent::Signal(Signal::NeedInput)), MfAction::Submit));
    assert_eq!(mf.pending_need_input, u32::MAX);
}
