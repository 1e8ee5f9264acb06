use gameshare::session::Status;
use gameshare::signaling::SignalMessage;
use gameshare::stream::{
    HostAction, HostEvent, HostPhase, HostStream, ViewerAction, ViewerEvent, ViewerPhase,
    ViewerStream,
};

fn candidate(text: &str) -> SignalMessage {
    SignalMessage::IceCandidate {
        candidate: text.to_string(),
        sdp_mid: "0".to_string(),
        sdp_mline_index: 0,
    }
}

fn awaiting_answer() -> HostStream {
    let (mut s, action) = HostStream::new();
    assert!(matches!(action, HostAction::Report(Status::Connecting)));
    assert!(matches!(s.step(HostEvent::Reported), HostAction::MakeOffer));
    match s.step(HostEvent::OfferMade("offer".into())) {
        HostAction::SendOffer(sdp) => assert_eq!(sdp, "offer"),
        _ => unreachable!(),
    }
    assert!(matches!(s.step(HostEvent::Sent), HostAction::Receive));
    s
}

fn streaming() -> HostStream {
    let mut s = awaiting_answer();
    let answer = SignalMessage::Answer { sdp: "answer".into() };
    match s.step(HostEvent::Message(answer)) {
        HostAction::SetAnswer(sdp) => assert_eq!(sdp, "answer"),
        _ => unreachable!(),
    }
    assert!(matches!(s.step(HostEvent::AnswerSet), HostAction::Report(Status::Streaming)));
    assert!(matches!(s.step(HostEvent::Reported), HostAction::Await));
    s
}

fn host_error(action: HostAction) -> String {
    match action {
        HostAction::Finish(Err(e)) => e,
        _ => panic!("no failure"),
    }
}

#[test]
fn host_streams_and_counts() {
    let mut s = streaming();
    assert!(s.can_count(1_500_000));
    assert!(matches!(s.step(HostEvent::Video(1_500_000)), HostAction::SendVideo));
    assert!(matches!(s.step(HostEvent::PacketSent), HostAction::Await));
    assert!(matches!(s.step(HostEvent::Audio(2_999)), HostAction::SendAudio));
    assert!(matches!(s.step(HostEvent::PacketSent), HostAction::Await));
    assert!(matches!(s.step(HostEvent::Video(500_001)), HostAction::SendVideo));
    assert!(matches!(s.step(HostEvent::PacketSent), HostAction::Await));
    assert_eq!((s.video_bytes, s.audio_bytes), (2_000_001, 2_999));
    assert_eq!(s.summary(), "Session ended. Video sent: 2 MB, Audio sent: 2 KB");
    assert!(matches!(s.step(HostEvent::Message(SignalMessage::Bye)), HostAction::Close));
    assert!(matches!(s.step(HostEvent::Closed), HostAction::Finish(Ok(()))));
    assert_eq!(s.phase, HostPhase::Ended);
}

#[test]
fn host_adds_candidates_whenever_they_come() {
    let mut s = awaiting_answer();
    match s.step(HostEvent::Message(candidate("early"))) {
        HostAction::AddCandidate(c) => assert_eq!(c, "early"),
        _ => unreachable!(),
    }
    assert!(matches!(s.step(HostEvent::Added), HostAction::Receive));
    let mut s = streaming();
    match s.step(HostEvent::Message(candidate("late"))) {
        HostAction::AddCandidate(c) => assert_eq!(c, "late"),
        _ => unreachable!(),
    }
    assert!(matches!(s.step(HostEvent::Added), HostAction::Await));
}

#[test]
fn host_passes_over_other_messages() {
    let others = || {
        vec![SignalMessage::SessionReady, SignalMessage::Offer { sdp: String::new() }]
    };
    let mut s = awaiting_answer();
    for message in others() {
        assert!(matches!(s.step(HostEvent::Message(message)), HostAction::Receive));
    }
    let mut s = streaming();
    for message in others() {
        assert!(matches!(s.step(HostEvent::Message(message)), HostAction::Await));
    }
    let again = SignalMessage::Answer { sdp: String::new() };
    assert!(matches!(s.step(HostEvent::Message(again)), HostAction::Await));
}

#[test]
fn host_fails_before_the_answer() {
    let (mut s, _) = HostStream::new();
    s.step(HostEvent::Reported);
    assert_eq!(host_error(s.step(HostEvent::Failed("create_offer: x".into()))), "create_offer: x");
    let (mut s, _) = HostStream::new();
    s.step(HostEvent::Reported);
    s.step(HostEvent::OfferMade(String::new()));
    assert_eq!(host_error(s.step(HostEvent::SendFailed("gone".into()))), "send offer: gone");
    let bye = HostEvent::Message(SignalMessage::Bye);
    assert_eq!(host_error(awaiting_answer().step(bye)), "Viewer sent Bye before answer");
    assert_eq!(
        host_error(awaiting_answer().step(HostEvent::SignalingClosed)),
        "Signaling channel closed before answer"
    );
    let mut s = awaiting_answer();
    s.step(HostEvent::Message(SignalMessage::Answer { sdp: String::new() }));
    assert_eq!(
        host_error(s.step(HostEvent::Failed("answer SDP parse: x".into()))),
        "answer SDP parse: x"
    );
}

#[test]
fn host_ends_with_signaling() {
    let mut s = streaming();
    assert!(matches!(s.step(HostEvent::SignalingClosed), HostAction::Close));
    assert_eq!(host_error(s.step(HostEvent::Failed("pc.close: x".into()))), "pc.close: x");
}

#[test]
fn host_does_not_count_beyond_its_counters() {
    let s = HostStream { video_bytes: u64::MAX - 5, ..streaming() };
    assert!(s.can_count(5));
    assert!(!s.can_count(6));
}

fn watching(awaits_connection: bool) -> ViewerStream {
    let (mut s, action) = ViewerStream::new(awaits_connection);
    assert!(matches!(action, ViewerAction::Receive));
    let offer = SignalMessage::Offer { sdp: "offer".into() };
    match s.step(ViewerEvent::Message(offer)) {
        ViewerAction::MakeAnswer(sdp) => assert_eq!(sdp, "offer"),
        _ => unreachable!(),
    }
    match s.step(ViewerEvent::AnswerMade("answer".into())) {
        ViewerAction::SendAnswer(sdp) => assert_eq!(sdp, "answer"),
        _ => unreachable!(),
    }
    let sent = s.step(ViewerEvent::Sent);
    if awaits_connection {
        assert!(matches!(sent, ViewerAction::WaitForConnection));
        assert!(matches!(s.step(ViewerEvent::Linked), ViewerAction::Report(Status::Streaming)));
    } else {
        assert!(matches!(sent, ViewerAction::Report(Status::Streaming)));
    }
    assert!(matches!(s.step(ViewerEvent::Reported), ViewerAction::Receive));
    s
}

fn complains(s: &mut ViewerStream, event: ViewerEvent, words: &str) {
    match s.step(event) {
        ViewerAction::ShowError(e) => assert_eq!(e, words),
        _ => panic!("no failure"),
    }
    assert!(matches!(s.step(ViewerEvent::Reported), ViewerAction::Report(Status::Disconnected)));
    assert!(matches!(s.step(ViewerEvent::Reported), ViewerAction::End));
    assert_eq!(s.phase, ViewerPhase::Ended);
}

#[test]
fn viewer_watches_until_the_host_hangs_up() {
    for awaits_connection in [false, true] {
        let mut s = watching(awaits_connection);
        match s.step(ViewerEvent::Message(candidate("c"))) {
            ViewerAction::AddCandidate(c) => assert_eq!(c, "c"),
            _ => unreachable!(),
        }
        assert!(matches!(s.step(ViewerEvent::Added), ViewerAction::Receive));
        let other = ViewerEvent::Message(SignalMessage::SessionReady);
        assert!(matches!(s.step(other), ViewerAction::Receive));
        let end = if awaits_connection {
            ViewerEvent::SignalingClosed
        } else {
            ViewerEvent::Message(SignalMessage::Bye)
        };
        assert!(matches!(s.step(end), ViewerAction::Close));
        assert!(matches!(s.step(ViewerEvent::Closed), ViewerAction::Report(Status::Disconnected)));
        assert!(matches!(s.step(ViewerEvent::Reported), ViewerAction::End));
    }
}

#[test]
fn viewer_passes_over_what_comes_before_the_offer() {
    let (mut s, _) = ViewerStream::new(false);
    for message in [SignalMessage::Bye, SignalMessage::SessionReady] {
        assert!(matches!(s.step(ViewerEvent::Message(message)), ViewerAction::Receive));
    }
    assert_eq!(s.phase, ViewerPhase::AwaitingOffer);
    assert!(s.early.is_empty());
}

#[test]
fn viewer_keeps_early_candidates_until_the_answer_is_sent() {
    for awaits_connection in [false, true] {
        let (mut s, _) = ViewerStream::new(awaits_connection);
        for c in ["a", "b"] {
            let action = s.step(ViewerEvent::Message(candidate(c)));
            assert!(matches!(action, ViewerAction::Receive));
        }
        s.step(ViewerEvent::Message(SignalMessage::Offer { sdp: String::new() }));
        s.step(ViewerEvent::AnswerMade(String::new()));
        let mut action = s.step(ViewerEvent::Sent);
        for c in ["a", "b"] {
            match action {
                ViewerAction::AddCandidate(added) => assert_eq!(added, c),
                _ => unreachable!(),
            }
            action = s.step(ViewerEvent::Added);
        }
        if awaits_connection {
            assert!(matches!(action, ViewerAction::WaitForConnection));
        } else {
            assert!(matches!(action, ViewerAction::Report(Status::Streaming)));
        }
        assert!(s.early.is_empty());
    }
}

#[test]
fn viewer_can_be_stopped() {
    let (early, _) = ViewerStream::new(true);
    for mut s in [early, watching(false), watching(true)] {
        assert!(matches!(s.step(ViewerEvent::Stop), ViewerAction::Close));
        let closed = s.step(ViewerEvent::Closed);
        assert!(matches!(closed, ViewerAction::Report(Status::Disconnected)));
        assert!(matches!(s.step(ViewerEvent::Reported), ViewerAction::End));
    }
}

#[test]
fn host_can_be_stopped() {
    for mut s in [HostStream::new().0, awaiting_answer(), streaming()] {
        assert!(matches!(s.step(HostEvent::Stop), HostAction::Close));
        assert!(matches!(s.step(HostEvent::Closed), HostAction::Finish(Ok(()))));
        assert_eq!(s.phase, HostPhase::Ended);
    }
}

#[test]
fn viewer_shows_its_failures_and_leaves() {
    let (mut s, _) = ViewerStream::new(false);
    complains(&mut s, ViewerEvent::SignalingClosed, "Signaling closed before offer");
    let offer = || ViewerEvent::Message(SignalMessage::Offer { sdp: String::new() });
    let (mut s, _) = ViewerStream::new(false);
    s.step(offer());
    complains(&mut s, ViewerEvent::Failed("offer parse: x".into()), "offer parse: x");
    let (mut s, _) = ViewerStream::new(false);
    s.step(offer());
    s.step(ViewerEvent::AnswerMade(String::new()));
    complains(&mut s, ViewerEvent::SendFailed("gone".into()), "send answer: gone");
    let (mut s, _) = ViewerStream::new(true);
    s.step(offer());
    s.step(ViewerEvent::AnswerMade(String::new()));
    s.step(ViewerEvent::Sent);
    complains(&mut s, ViewerEvent::Failed("no link".into()), "no link");
    let mut s = watching(false);
    s.step(ViewerEvent::SignalingClosed);
    complains(&mut s, ViewerEvent::Failed("close".into()), "close");
}
