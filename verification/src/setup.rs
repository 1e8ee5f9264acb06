//! How a host opens: from what the user asks for to the first invite code.
use vstd::prelude::*;

use crate::capture::{source_target, CaptureSession, CaptureTarget};
use crate::encoder::{EncoderConfig, EncoderKind};
use crate::session::{
    address_of, bare, encoder_config, host_address, host_request, is_within_limits, names_the_host,
    notice_views, open_session, publish_invite, shown, with_invite, within, HostRequest, Notice,
    NoticeView, SessionRole, SessionState, SessionView, Status,
};
use crate::signaling::{invite_code, SIGNALING_PORT};

verus! {

/// Which call is open while a host opens.
#[derive(Debug, Clone, Copy, PartialEq, Eq, Structural)]
pub enum SetupPhase {
    /// The capture is being started.
    StartingCapture,
    /// The encoder for this capture is being made.
    MakingEncoder(CaptureSession),
    /// The audio capture is being started; this capture and this encoder are there.
    StartingAudio(CaptureSession, EncoderKind),
    /// Signaling is being opened.
    OpeningSignaling,
    /// No call is open: the host is open, or could not be opened.
    Done,
}

/// What became of the call that was open.
pub enum SetupEvent {
    /// The capture runs.
    CaptureStarted(CaptureSession),
    /// The encoder is there.
    EncoderMade(EncoderKind),
    /// The audio capture runs.
    AudioStarted,
    /// Signaling is open on this port and with this token; and the address of this machine, if
    /// it could be found.
    SignalingOpened { local_ip: Option<String>, port: u16, token: String },
    /// The call has failed; the reason.
    Failed(String),
}

/// A host that is open.
pub struct OpenHost {
    /// The first invite code.
    pub invite: String,
    /// The address in it, and in those to come.
    pub host_ip: String,
}

/// The next call.
pub enum SetupAction {
    /// Start to capture this, at this rate.
    StartCapture { target: CaptureTarget, fps: u32 },
    /// Make an encoder.
    MakeEncoder(EncoderConfig),
    /// Start the audio capture.
    StartAudio,
    /// Open signaling on this port.
    OpenSignaling { port: u16 },
    /// Done: the host is open, or could not be opened for this reason.
    Finish(Result<OpenHost, String>),
}

/// A host that is being opened.
pub struct HostSetup {
    pub phase: SetupPhase,
    pub request: HostRequest,
}

/// `event` answers the call that is open.
pub open spec fn setup_answers(phase: SetupPhase, event: SetupEvent) -> bool {
    match phase {
        SetupPhase::StartingCapture => event is CaptureStarted || event is Failed,
        SetupPhase::MakingEncoder(_) => event is EncoderMade || event is Failed,
        SetupPhase::StartingAudio(_, _) => event is AudioStarted || event is Failed,
        SetupPhase::OpeningSignaling => event is SignalingOpened || event is Failed,
        SetupPhase::Done => false,
    }
}

/// The session of a host with this capture and this encoder that has no invite code yet.
pub open spec fn fresh_session(capture: CaptureSession, kind: EncoderKind) -> SessionView {
    SessionView {
        role: SessionRole::Host,
        status: Status::WaitingForViewer.text(),
        invite_code: None,
        capture_method: Some(capture.method.text()),
        encoder_kind: Some(kind.text()),
        width: Some(capture.width),
        height: Some(capture.height),
    }
}

/// The settings of the encoder for this capture.
pub open spec fn wanted_config(request: HostRequest, capture: CaptureSession) -> EncoderConfig {
    EncoderConfig {
        width: capture.width,
        height: capture.height,
        fps: request.fps,
        bitrate_bps: request.bitrate_bps,
        max_bitrate_bps: 35_000_000,
        keyframe_interval_secs: 2,
    }
}

/// What a step comes to: the next phase, the session, and what is shown.
///
/// The session appears once capture, encoder and audio are there, and gets its invite code with
/// signaling. A failure leaves it as it is.
pub open spec fn setup_outcome(
    phase: SetupPhase,
    session: Option<SessionView>,
    event: SetupEvent,
) -> (SetupPhase, Option<SessionView>, Seq<NoticeView>) {
    match (phase, event) {
        (SetupPhase::StartingCapture, SetupEvent::CaptureStarted(capture)) => (
            SetupPhase::MakingEncoder(capture),
            session,
            seq![],
        ),
        (SetupPhase::MakingEncoder(capture), SetupEvent::EncoderMade(kind)) => (
            SetupPhase::StartingAudio(capture, kind),
            session,
            seq![],
        ),
        (SetupPhase::StartingAudio(capture, kind), SetupEvent::AudioStarted) => (
            SetupPhase::OpeningSignaling,
            Some(fresh_session(capture, kind)),
            seq![],
        ),
        (SetupPhase::OpeningSignaling, SetupEvent::SignalingOpened { local_ip, port, token }) => {
            let invite = invite_code(address_of(local_ip), port, token@);
            (
                SetupPhase::Done,
                with_invite(session, invite),
                seq![
                    NoticeView::Status { status: Status::WaitingForViewer, invite: Some(invite) },
                ],
            )
        },
        _ => (SetupPhase::Done, session, seq![]),
    }
}

/// The next call is the one that belongs to what has happened.
pub open spec fn setup_goes_on(
    request: HostRequest,
    event: SetupEvent,
    action: SetupAction,
) -> bool {
    match event {
        SetupEvent::CaptureStarted(capture) => action == SetupAction::MakeEncoder(
            wanted_config(request, capture),
        ),
        SetupEvent::EncoderMade(_) => action is StartAudio,
        SetupEvent::AudioStarted => action == (SetupAction::OpenSignaling {
            port: SIGNALING_PORT,
        }),
        SetupEvent::SignalingOpened { local_ip, port, token } => {
            &&& action matches SetupAction::Finish(Ok(host))
            &&& host.host_ip@ == address_of(local_ip)
            &&& host.invite@ == invite_code(address_of(local_ip), port, token@)
        },
        SetupEvent::Failed(e) => action == SetupAction::Finish(Err(e)),
    }
}

impl HostSetup {
    /// Begins to open a host, unless the source that it is asked to share has no meaning.
    pub fn new(source_id: &str, fps: u32, bitrate_mbps: u32) -> (r: Result<
        (Self, Notice, SetupAction),
        String,
    >)
        ensures
            match source_target(source_id@) {
                Ok(target) => {
                    &&& r matches Ok((setup, notice, action))
                    &&& setup.phase is StartingCapture
                    &&& setup.request == (HostRequest {
                        target,
                        fps: within(fps, 30, 60),
                        bitrate_bps: (within(bitrate_mbps, 5, 35) * 1_000_000) as u32,
                    })
                    &&& is_within_limits(setup.request)
                    &&& 30 <= fps <= 60 ==> setup.request.fps == fps
                    &&& 5 <= bitrate_mbps <= 35 ==> setup.request.bitrate_bps == bitrate_mbps
                        * 1_000_000
                    &&& notice@ == bare(Status::GeneratingToken)
                    &&& action == (SetupAction::StartCapture { target, fps: setup.request.fps })
                },
                Err(text) => r matches Err(e) && e@ == text,
            },
    {
        match host_request(source_id, fps, bitrate_mbps) {
            Ok(request) => {
                let action = SetupAction::StartCapture { target: request.target, fps: request.fps };
                let notice = Notice::Status { status: Status::GeneratingToken, invite: None };
                Ok((HostSetup { phase: SetupPhase::StartingCapture, request }, notice, action))
            },
            Err(e) => Err(e),
        }
    }

    /// Takes what became of the open call: updates the session, and gives what is to be shown
    /// and the next call. The invite code that comes of it leads back to this host.
    pub fn step(&mut self, session: &mut Option<SessionState>, event: SetupEvent) -> (r: (
        Vec<Notice>,
        SetupAction,
    ))
        requires
            setup_answers(old(self).phase, event),
        ensures
            final(self).request == old(self).request,
            (final(self).phase, shown(*final(session)), notice_views(r.0@)) == setup_outcome(
                old(self).phase,
                shown(*old(session)),
                event,
            ),
            setup_goes_on(old(self).request, event, r.1),
            event matches SetupEvent::SignalingOpened { local_ip, port, token } ==> names_the_host(
                address_of(local_ip),
                port,
                token@,
            ),
    {
        let mut notices: Vec<Notice> = Vec::new();
        let phase: SetupPhase = self.phase;
        self.phase = SetupPhase::Done;
        let action = match (phase, event) {
            (_, SetupEvent::Failed(e)) => SetupAction::Finish(Err(e)),
            (_, SetupEvent::CaptureStarted(capture)) => {
                self.phase = SetupPhase::MakingEncoder(capture);
                SetupAction::MakeEncoder(
                    encoder_config(&self.request, capture.width, capture.height),
                )
            },
            (SetupPhase::MakingEncoder(capture), SetupEvent::EncoderMade(kind)) => {
                self.phase = SetupPhase::StartingAudio(capture, kind);
                SetupAction::StartAudio
            },
            (SetupPhase::StartingAudio(capture, kind), SetupEvent::AudioStarted) => {
                open_session(session, capture.method, kind, capture.width, capture.height);
                self.phase = SetupPhase::OpeningSignaling;
                SetupAction::OpenSignaling { port: SIGNALING_PORT }
            },
            (_, SetupEvent::SignalingOpened { local_ip, port, token }) => {
                let host_ip = host_address(local_ip);
                let invite = publish_invite(session, host_ip.as_str(), port, token.as_str());
                notices.push(
                    Notice::Status {
                        status: Status::WaitingForViewer,
                        invite: Some(invite.as_str().to_string()),
                    },
                );
                SetupAction::Finish(Ok(OpenHost { invite, host_ip }))
            },
            (_, SetupEvent::EncoderMade(_)) | (_, SetupEvent::AudioStarted) => {
                SetupAction::StartAudio
            },
        };
        assert(notice_views(notices@) =~= setup_outcome(
            old(self).phase,
            shown(*old(session)),
            event,
        ).2);
        (notices, action)
    }
}

/// A host that opens shows the very invite code that it returns: where the session was not
/// stopped meanwhile, it waits for a viewer and holds that code, and so does what is shown.
pub proof fn the_first_invite_is_shown(
    request: HostRequest,
    session: SessionView,
    event: SetupEvent,
    host: OpenHost,
)
    requires
        setup_answers(SetupPhase::OpeningSignaling, event),
        setup_goes_on(request, event, SetupAction::Finish(Ok(host))),
    ensures
        ({
            let (phase, opened, notices) = setup_outcome(
                SetupPhase::OpeningSignaling,
                Some(session),
                event,
            );
            &&& phase is Done
            &&& opened == Some(SessionView { invite_code: Some(host.invite@), ..session })
            &&& notices == seq![
                NoticeView::Status {
                    status: Status::WaitingForViewer,
                    invite: Some(host.invite@),
                },
            ]
        }),
{
}

/// A host opens in order: the encoder is made for the very size that the capture has and for the
/// rate and quality that were asked for; then comes the sound, then signaling on its port; and the
/// session that is shown at the end names the capture and the encoder that are in use, their
/// size, and the invite code that is returned.
pub proof fn a_host_opens_in_order(
    request: HostRequest,
    session: Option<SessionView>,
    capture: CaptureSession,
    kind: EncoderKind,
    local_ip: Option<String>,
    port: u16,
    token: String,
    first: SetupAction,
    second: SetupAction,
    third: SetupAction,
    last: SetupAction,
)
    requires
        setup_goes_on(request, SetupEvent::CaptureStarted(capture), first),
        setup_goes_on(request, SetupEvent::EncoderMade(kind), second),
        setup_goes_on(request, SetupEvent::AudioStarted, third),
        setup_goes_on(request, SetupEvent::SignalingOpened { local_ip, port, token }, last),
    ensures
        first matches SetupAction::MakeEncoder(config) && {
            &&& config.width == capture.width
            &&& config.height == capture.height
            &&& config.fps == request.fps
            &&& config.bitrate_bps == request.bitrate_bps
            &&& config.max_bitrate_bps == 35_000_000
            &&& config.keyframe_interval_secs == 2
        },
        second is StartAudio,
        third == (SetupAction::OpenSignaling { port: 9001 }),
        ({
            let (p1, s1, n1) = setup_outcome(
                SetupPhase::StartingCapture,
                session,
                SetupEvent::CaptureStarted(capture),
            );
            let (p2, s2, n2) = setup_outcome(p1, s1, SetupEvent::EncoderMade(kind));
            let (p3, s3, n3) = setup_outcome(p2, s2, SetupEvent::AudioStarted);
            let (p4, s4, n4) = setup_outcome(
                p3,
                s3,
                SetupEvent::SignalingOpened { local_ip, port, token },
            );
            &&& setup_answers(p1, SetupEvent::EncoderMade(kind))
            &&& setup_answers(p2, SetupEvent::AudioStarted)
            &&& setup_answers(p3, SetupEvent::SignalingOpened { local_ip, port, token })
            &&& p4 is Done
            &&& s1 == session
            &&& s2 == session
            &&& n1.len() == 0
            &&& n2.len() == 0
            &&& n3.len() == 0
            &&& last matches SetupAction::Finish(Ok(host))
            &&& host.host_ip@ == match local_ip {
                Some(ip) => ip@,
                None => "127.0.0.1"@,
            }
            &&& host.invite@ == invite_code(host.host_ip@, port, token@)
            &&& s4 == Some(
                SessionView {
                    role: SessionRole::Host,
                    status: Status::WaitingForViewer.text(),
                    invite_code: Some(host.invite@),
                    capture_method: Some(capture.method.text()),
                    encoder_kind: Some(kind.text()),
                    width: Some(capture.width),
                    height: Some(capture.height),
                },
            )
            &&& n4 == seq![
                NoticeView::Status {
                    status: Status::WaitingForViewer,
                    invite: Some(host.invite@),
                },
            ]
        }),
{
}

/// A host that cannot be opened says why, in the words of what failed, whichever call it was; the
/// session stays as it is and nothing is shown.
pub proof fn a_host_that_cannot_open_says_why(
    request: HostRequest,
    phase: SetupPhase,
    session: Option<SessionView>,
    text: String,
    action: SetupAction,
)
    requires
        phase !is Done,
        setup_goes_on(request, SetupEvent::Failed(text), action),
    ensures
        setup_answers(phase, SetupEvent::Failed(text)),
        action matches SetupAction::Finish(Err(e)) && e@ == text@,
        setup_outcome(phase, session, SetupEvent::Failed(text)) == (
            SetupPhase::Done,
            session,
            Seq::<NoticeView>::empty(),
        ),
{
}

} // verus!
