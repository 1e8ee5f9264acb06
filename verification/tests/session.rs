use gameshare::capture::{CaptureMethod, CaptureSession, CaptureTarget};
use gameshare::encoder::EncoderKind;
use gameshare::session::{
    connect_error, encoder_config, encoder_error, host_address, host_request, open_session,
    publish_invite, stop_session, HostManager, ManagerEvent, ManagerPhase, Notice, SessionRole,
    SessionState, Status, ViewerPolicy,
};
use gameshare::setup::{HostSetup, OpenHost, SetupAction, SetupEvent, SetupPhase};
use gameshare::signaling::{decode_invite, encode_invite};

/// A notice as one line.
fn line(notice: &Notice) -> String {
    match notice {
        Notice::Status { status, invite: None } => status.to_string(),
        Notice::Status { status, invite: Some(code) } => format!("{} {code}", status.to_string()),
        Notice::Error(text) => format!("! {text}"),
    }
}

fn lines(notices: Vec<Notice>) -> Vec<String> {
    notices.iter().map(line).collect()
}

fn opened() -> Option<SessionState> {
    let mut session = None;
    let method = CaptureMethod::WindowsGraphicsCapture;
    open_session(&mut session, method, EncoderKind::Stub, 1920, 1080);
    session
}

fn manager(policy: ViewerPolicy) -> HostManager {
    HostManager::new(policy, "10.0.0.7".to_string())
}

#[test]
fn statuses_have_names() {
    let names = [
        (Status::GeneratingToken, "generating_token"),
        (Status::WaitingForViewer, "waiting_for_viewer"),
        (Status::Connecting, "connecting"),
        (Status::Streaming, "streaming"),
        (Status::Disconnected, "disconnected"),
    ];
    for (status, name) in names {
        assert_eq!(status.to_string(), name);
    }
}

#[test]
fn requests_are_brought_within_limits() {
    for (fps, mbps, want) in [
        (0, 0, (30, 5_000_000)),
        (30, 5, (30, 5_000_000)),
        (45, 20, (45, 20_000_000)),
        (60, 35, (60, 35_000_000)),
        (u32::MAX, u32::MAX, (60, 35_000_000)),
    ] {
        let request = host_request("monitor:1", fps, mbps).unwrap();
        assert_eq!(request.target, CaptureTarget::Monitor { index: 1 });
        assert_eq!((request.fps, request.bitrate_bps), want);
        let config = encoder_config(&request, 640, 480);
        assert_eq!((config.width, config.height, config.fps), (640, 480, request.fps));
        assert_eq!(config.max_bitrate_bps, 35_000_000);
        assert_eq!(config.keyframe_interval_secs, 2);
        assert!(config.bitrate_bps <= config.max_bitrate_bps);
    }
    let refused = host_request("screen", 60, 20);
    assert!(matches!(refused, Err(e) if e == "Unknown source id format: screen"));
}

#[test]
fn texts_for_the_user() {
    assert_eq!(host_address(Some("1.2.3.4".into())), "1.2.3.4");
    assert_eq!(host_address(None), "127.0.0.1");
    assert_eq!(encoder_error("x"), "Encoder error: x");
    assert_eq!(connect_error("x"), "Cannot reach host: x");
}

#[test]
fn sessions_open_and_stop() {
    let mut session = opened();
    {
        let s = session.as_ref().unwrap();
        assert_eq!((s.role, s.status.as_str()), (SessionRole::Host, "waiting_for_viewer"));
        assert_eq!(s.invite_code, None);
        assert_eq!(s.capture_method.as_deref(), Some("WindowsGraphicsCapture"));
        assert_eq!(s.encoder_kind.as_deref(), Some("Stub (test)"));
        assert_eq!((s.width, s.height), (Some(1920), Some(1080)));
    }
    let invite = publish_invite(&mut session, "10.0.0.7", 9001, "ABCD2345");
    assert_eq!(invite, encode_invite("10.0.0.7", 9001, "ABCD2345"));
    assert_eq!(session.as_ref().unwrap().invite_code.as_ref(), Some(&invite));
    stop_session(&mut session);
    assert!(session.is_none());
    publish_invite(&mut session, "10.0.0.7", 9001, "ABCD2345");
    assert!(session.is_none());
}

#[test]
fn host_opens_step_by_step() {
    let (mut setup, notice, action) = HostSetup::new("window:9", 144, 20).unwrap();
    assert_eq!(line(&notice), "generating_token");
    match action {
        SetupAction::StartCapture { target, fps } => {
            assert_eq!((target, fps), (CaptureTarget::Window { hwnd: 9 }, 60));
        }
        _ => unreachable!(),
    }
    let mut session = None;
    let capture = CaptureSession {
        method: CaptureMethod::DxgiDesktopDuplication,
        width: 2560,
        height: 1440,
    };
    let (notices, action) = setup.step(&mut session, SetupEvent::CaptureStarted(capture));
    assert!(notices.is_empty() && session.is_none());
    match action {
        SetupAction::MakeEncoder(config) => {
            assert_eq!((config.width, config.height, config.fps), (2560, 1440, 60));
            assert_eq!((config.bitrate_bps, config.max_bitrate_bps), (20_000_000, 35_000_000));
        }
        _ => unreachable!(),
    }
    let (notices, action) = setup.step(&mut session, SetupEvent::EncoderMade(EncoderKind::Nvenc));
    assert!(notices.is_empty() && session.is_none());
    assert!(matches!(action, SetupAction::StartAudio));
    let (notices, action) = setup.step(&mut session, SetupEvent::AudioStarted);
    assert!(notices.is_empty());
    assert!(matches!(action, SetupAction::OpenSignaling { port: 9001 }));
    {
        let s = session.as_ref().unwrap();
        assert_eq!((s.status.as_str(), s.invite_code.as_ref()), ("waiting_for_viewer", None));
        assert_eq!(s.capture_method.as_deref(), Some("DxgiDesktopDuplication"));
        assert_eq!(s.encoder_kind.as_deref(), Some("NVENC H264"));
        assert_eq!((s.width, s.height), (Some(2560), Some(1440)));
    }
    let event = SetupEvent::SignalingOpened {
        local_ip: Some("10.0.0.7".into()),
        port: 9001,
        token: "ABCD2345".into(),
    };
    let (notices, action) = setup.step(&mut session, event);
    let host: OpenHost = match action {
        SetupAction::Finish(Ok(host)) => host,
        _ => unreachable!(),
    };
    assert_eq!(host.host_ip, "10.0.0.7");
    assert_eq!(lines(notices), vec![format!("waiting_for_viewer {}", host.invite)]);
    assert_eq!(session.unwrap().invite_code.as_ref(), Some(&host.invite));
    assert_eq!(
        decode_invite(&host.invite).unwrap(),
        ("10.0.0.7".to_string(), 9001, "ABCD2345".to_string())
    );
    assert_eq!(setup.phase, SetupPhase::Done);
}

#[test]
fn host_that_cannot_open_says_why() {
    assert!(matches!(HostSetup::new("x", 1, 1), Err(e) if e == "Unknown source id format: x"));
    let (mut setup, _, _) = HostSetup::new("monitor:0", 60, 20).unwrap();
    let mut session = None;
    let (notices, action) = setup.step(&mut session, SetupEvent::Failed("no capture".into()));
    assert!(notices.is_empty() && session.is_none());
    assert!(matches!(action, SetupAction::Finish(Err(e)) if e == "no capture"));
}

#[test]
fn host_without_an_address_uses_its_own() {
    let (mut setup, _, _) = HostSetup::new("monitor:0", 60, 20).unwrap();
    setup.phase = SetupPhase::OpeningSignaling;
    let event =
        SetupEvent::SignalingOpened { local_ip: None, port: 1, token: "T".to_string() };
    match setup.step(&mut None, event) {
        (_, SetupAction::Finish(Ok(host))) => {
            assert_eq!(host.host_ip, "127.0.0.1");
            assert_eq!(host.invite, encode_invite("127.0.0.1", 1, "T"));
        }
        _ => unreachable!(),
    }
}

#[test]
fn host_opens_again_after_every_viewer() {
    let mut m = manager(ViewerPolicy::OneAfterTheOther);
    let mut session = opened();
    assert_eq!(m.phase, ManagerPhase::Waiting);
    assert_eq!(lines(m.step(&mut session, ManagerEvent::Viewer)), vec!["connecting"]);
    assert_eq!(session.as_ref().unwrap().status, "connecting");
    assert_eq!(m.phase, ManagerPhase::Running);
    assert!(m.step(&mut session, ManagerEvent::StreamEnded).is_empty());
    assert_eq!(m.phase, ManagerPhase::Restarting);
    let again = ManagerEvent::Restarted { port: 4242, token: "EFGH6789".into() };
    let invite = encode_invite("10.0.0.7", 4242, "EFGH6789");
    assert_eq!(lines(m.step(&mut session, again)), vec![format!("waiting_for_viewer {invite}")]);
    assert_eq!(m.phase, ManagerPhase::Waiting);
    assert_eq!(session.as_ref().unwrap().status, "waiting_for_viewer");
    assert_eq!(session.as_ref().unwrap().invite_code.as_ref(), Some(&invite));
    m.step(&mut session, ManagerEvent::Viewer);
    let failed = ManagerEvent::StreamFailed("pc.close: x".into());
    assert_eq!(lines(m.step(&mut session, failed)), vec!["! pc.close: x"]);
    assert_eq!(m.phase, ManagerPhase::Restarting);
    m.step(&mut session, ManagerEvent::Restarted { port: 1, token: "A".into() });
    let failed = ManagerEvent::AcceptFailed("Signaling accept error: x".into());
    assert_eq!(
        lines(m.step(&mut session, failed)),
        vec!["! Signaling error: Signaling accept error: x"]
    );
    assert_eq!(m.phase, ManagerPhase::Restarting);
    let failed = ManagerEvent::RestartFailed("port taken".into());
    assert_eq!(
        lines(m.step(&mut session, failed)),
        vec!["! Cannot restart signaling: port taken", "disconnected"]
    );
    assert_eq!(m.phase, ManagerPhase::Done);
    assert!(session.is_none());
}

#[test]
fn host_stops_when_it_is_told_to() {
    for policy in [ViewerPolicy::OneAfterTheOther, ViewerPolicy::OnlyOne] {
        for phase in [ManagerPhase::Waiting, ManagerPhase::Running, ManagerPhase::Restarting] {
            let mut m = manager(policy);
            m.phase = phase;
            let mut session = opened();
            assert_eq!(lines(m.step(&mut session, ManagerEvent::Stop)), vec!["disconnected"]);
            assert_eq!(m.phase, ManagerPhase::Done);
            assert!(session.is_none());
        }
    }
}

#[test]
fn host_ends_when_nobody_accepts_viewers() {
    let mut m = manager(ViewerPolicy::OneAfterTheOther);
    let mut session = opened();
    assert_eq!(
        lines(m.step(&mut session, ManagerEvent::AcceptLost)),
        vec!["! Signaling task panicked", "disconnected"]
    );
    assert_eq!(m.phase, ManagerPhase::Done);
    assert!(session.is_none());
}

#[test]
fn stopped_session_is_not_brought_back() {
    let mut m = manager(ViewerPolicy::OneAfterTheOther);
    let mut session = None;
    m.step(&mut session, ManagerEvent::Viewer);
    m.step(&mut session, ManagerEvent::StreamEnded);
    m.step(&mut session, ManagerEvent::Restarted { port: 1, token: "A".into() });
    assert!(session.is_none());
}

#[test]
fn host_for_only_one_viewer() {
    let mut m = manager(ViewerPolicy::OnlyOne);
    let mut session = opened();
    assert_eq!(lines(m.step(&mut session, ManagerEvent::Viewer)), vec!["connecting"]);
    assert_eq!(lines(m.step(&mut session, ManagerEvent::StreamEnded)), vec!["disconnected"]);
    assert_eq!(m.phase, ManagerPhase::Done);
    assert_eq!(session.as_ref().unwrap().status, "connecting");
    let mut m = manager(ViewerPolicy::OnlyOne);
    m.step(&mut session, ManagerEvent::Viewer);
    let failed = ManagerEvent::StreamFailed("x".into());
    assert_eq!(lines(m.step(&mut session, failed)), vec!["! x", "disconnected"]);
    let mut m = manager(ViewerPolicy::OnlyOne);
    let failed = ManagerEvent::AcceptFailed("x".into());
    assert_eq!(lines(m.step(&mut session, failed)), vec!["! Signaling error: x"]);
    assert_eq!(m.phase, ManagerPhase::Done);
    let mut m = manager(ViewerPolicy::OnlyOne);
    assert_eq!(
        lines(m.step(&mut session, ManagerEvent::AcceptLost)),
        vec!["! Signaling channel closed unexpectedly"]
    );
    assert_eq!(m.phase, ManagerPhase::Done);
    assert!(session.is_some());
}
