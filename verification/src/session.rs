//! The session as the user sees it: its status, its invite code, and the manager that keeps a
//! host open for one viewer after the other.
use vstd::prelude::*;

use crate::capture::{parse_source_id, source_target, CaptureMethod, CaptureTarget};
use crate::encoder::{EncoderConfig, EncoderKind};
use crate::signaling::{encode_invite, invite_code, read_invite_code, InviteFault};

verus! {

/// What a session is doing.
#[derive(Debug, Clone, Copy, PartialEq, Eq, Structural)]
pub enum Status {
    GeneratingToken,
    WaitingForViewer,
    Connecting,
    Streaming,
    Disconnected,
}

impl Status {
    /// The name under which the user interface knows the status.
    pub open spec fn text(self) -> Seq<char> {
        match self {
            Status::GeneratingToken => "generating_token"@,
            Status::WaitingForViewer => "waiting_for_viewer"@,
            Status::Connecting => "connecting"@,
            Status::Streaming => "streaming"@,
            Status::Disconnected => "disconnected"@,
        }
    }

    /// The name under which the user interface knows the status.
    pub fn to_string(&self) -> (s: String)
        ensures
            s@ == self.text(),
    {
        match self {
            Status::GeneratingToken => "generating_token".to_string(),
            Status::WaitingForViewer => "waiting_for_viewer".to_string(),
            Status::Connecting => "connecting".to_string(),
            Status::Streaming => "streaming".to_string(),
            Status::Disconnected => "disconnected".to_string(),
        }
    }
}

/// Which end of a session this is.
#[derive(Debug, Clone, Copy, PartialEq, Eq, Structural)]
pub enum SessionRole {
    Host,
    Viewer,
}

/// A session, as the user interface shows it.
#[derive(Debug, Clone)]
pub struct SessionState {
    pub role: SessionRole,
    pub status: String,
    pub invite_code: Option<String>,
    pub capture_method: Option<String>,
    pub encoder_kind: Option<String>,
    pub width: Option<u32>,
    pub height: Option<u32>,
}

/// A [`SessionState`], with its texts as characters.
pub struct SessionView {
    pub role: SessionRole,
    pub status: Seq<char>,
    pub invite_code: Option<Seq<char>>,
    pub capture_method: Option<Seq<char>>,
    pub encoder_kind: Option<Seq<char>>,
    pub width: Option<u32>,
    pub height: Option<u32>,
}

/// The characters of a text that may be missing.
pub open spec fn chars_in(text: Option<String>) -> Option<Seq<char>> {
    match text {
        Some(s) => Some(s@),
        None => None,
    }
}

impl View for SessionState {
    type V = SessionView;

    open spec fn view(&self) -> SessionView {
        SessionView {
            role: self.role,
            status: self.status@,
            invite_code: chars_in(self.invite_code),
            capture_method: chars_in(self.capture_method),
            encoder_kind: chars_in(self.encoder_kind),
            width: self.width,
            height: self.height,
        }
    }
}

/// The view of a session that may not be there.
pub open spec fn shown(session: Option<SessionState>) -> Option<SessionView> {
    match session {
        Some(s) => Some(s@),
        None => None,
    }
}

// ---- What a host asks for ----

/// What a host wants to share, within the limits.
pub struct HostRequest {
    pub target: CaptureTarget,
    pub fps: u32,
    pub bitrate_bps: u32,
}

/// `n`, brought into the range from `lo` to `hi`.
pub open spec fn within(n: u32, lo: u32, hi: u32) -> u32 {
    if n < lo {
        lo
    } else if n > hi {
        hi
    } else {
        n
    }
}

/// `n`, brought into the range from `lo` to `hi`.
fn brought_within(n: u32, lo: u32, hi: u32) -> (r: u32)
    requires
        lo <= hi,
    ensures
        r == within(n, lo, hi),
        lo <= r <= hi,
{
    if n < lo {
        lo
    } else if n > hi {
        hi
    } else {
        n
    }
}

/// A limit changes as little as it can: what is in the range stays, what is outside goes to its
/// nearer end, and more stays more, or the same.
pub proof fn limits_change_as_little_as_they_can(n: u32, m: u32, lo: u32, hi: u32)
    requires
        lo <= hi,
        n <= m,
    ensures
        lo <= within(n, lo, hi) <= hi,
        lo <= n <= hi ==> within(n, lo, hi) == n,
        n < lo ==> within(n, lo, hi) == lo,
        n > hi ==> within(n, lo, hi) == hi,
        within(n, lo, hi) <= within(m, lo, hi),
{
}

/// The request is within the limits.
pub open spec fn is_within_limits(request: HostRequest) -> bool {
    30 <= request.fps <= 60 && 5_000_000 <= request.bitrate_bps <= 35_000_000
}

/// Reads what a host wants to share. Rate and quality are brought within their limits: 30 to 60
/// pictures and 5 to 35 megabits per second.
pub fn host_request(source_id: &str, fps: u32, bitrate_mbps: u32) -> (r: Result<
    HostRequest,
    String,
>)
    ensures
        match source_target(source_id@) {
            Ok(target) => r matches Ok(request) && request.target == target && request.fps
                == within(fps, 30, 60) && request.bitrate_bps == within(bitrate_mbps, 5, 35)
                * 1_000_000,
            Err(text) => r matches Err(e) && e@ == text,
        },
        r matches Ok(request) ==> is_within_limits(request),
        // What is within the limits is left as it is, and the rest ends at them.
        r matches Ok(request) ==> {
            &&& 30 <= fps <= 60 ==> request.fps == fps
            &&& fps < 30 ==> request.fps == 30
            &&& fps > 60 ==> request.fps == 60
            &&& 5 <= bitrate_mbps <= 35 ==> request.bitrate_bps == bitrate_mbps * 1_000_000
            &&& bitrate_mbps < 5 ==> request.bitrate_bps == 5_000_000
            &&& bitrate_mbps > 35 ==> request.bitrate_bps == 35_000_000
        },
{
    let fps: u32 = brought_within(fps, 30, 60);
    let bitrate_bps: u32 = brought_within(bitrate_mbps, 5, 35) * 1_000_000;
    match parse_source_id(source_id) {
        Ok(target) => Ok(HostRequest { target, fps, bitrate_bps }),
        Err(e) => Err(e),
    }
}

/// The encoder's settings for pictures of this size: a keyframe every two seconds, and never
/// more than 35 megabits per second.
pub fn encoder_config(request: &HostRequest, width: u32, height: u32) -> (config: EncoderConfig)
    ensures
        config == (EncoderConfig {
            width,
            height,
            fps: request.fps,
            bitrate_bps: request.bitrate_bps,
            max_bitrate_bps: 35_000_000,
            keyframe_interval_secs: 2,
        }),
        is_within_limits(*request) ==> config.bitrate_bps <= config.max_bitrate_bps,
{
    EncoderConfig {
        width,
        height,
        fps: request.fps,
        bitrate_bps: request.bitrate_bps,
        max_bitrate_bps: 35_000_000,
        keyframe_interval_secs: 2,
    }
}

/// The address that goes into an invite: the one that was found, or else this machine's own.
pub open spec fn address_of(found: Option<String>) -> Seq<char> {
    match found {
        Some(s) => s@,
        None => "127.0.0.1"@,
    }
}

/// The address that goes into an invite.
pub fn host_address(found: Option<String>) -> (ip: String)
    ensures
        ip@ == address_of(found),
        found matches Some(s) ==> ip@ == s@,
        found is None ==> ip@ == "127.0.0.1"@,
{
    match found {
        Some(s) => s,
        None => "127.0.0.1".to_string(),
    }
}

/// The text for a picture that could not be encoded.
pub fn encoder_error(e: &str) -> (text: String)
    ensures
        text@ == "Encoder error: "@ + e@,
{
    "Encoder error: ".to_string().concat(e)
}

/// The text for a host that cannot be reached.
pub fn connect_error(e: &str) -> (text: String)
    ensures
        text@ == "Cannot reach host: "@ + e@,
{
    "Cannot reach host: ".to_string().concat(e)
}

// ---- The state that is shown ----

/// Opens a host's session: it waits for a viewer, and has no invite code yet.
pub fn open_session(
    session: &mut Option<SessionState>,
    method: CaptureMethod,
    kind: EncoderKind,
    width: u32,
    height: u32,
)
    ensures
        shown(*final(session)) == Some(
            SessionView {
                role: SessionRole::Host,
                status: Status::WaitingForViewer.text(),
                invite_code: None,
                capture_method: Some(method.text()),
                encoder_kind: Some(kind.text()),
                width: Some(width),
                height: Some(height),
            },
        ),
        *final(session) matches Some(s) && {
            &&& s.role is Host
            &&& s.status@ == "waiting_for_viewer"@
            &&& s.invite_code is None
            &&& s.width == Some(width)
            &&& s.height == Some(height)
        },
{
    *session = Some(
        SessionState {
            role: SessionRole::Host,
            status: Status::WaitingForViewer.to_string(),
            invite_code: None,
            capture_method: Some(method.to_string()),
            encoder_kind: Some(kind.to_string()),
            width: Some(width),
            height: Some(height),
        },
    );
}

/// The session with another status; nothing where there is none.
pub open spec fn with_status(session: Option<SessionView>, status: Status) -> Option<SessionView> {
    match session {
        Some(s) => Some(SessionView { status: status.text(), ..s }),
        None => None,
    }
}

/// The session with another invite code; nothing where there is none.
pub open spec fn with_invite(session: Option<SessionView>, invite: Seq<char>) -> Option<
    SessionView,
> {
    match session {
        Some(s) => Some(SessionView { invite_code: Some(invite), ..s }),
        None => None,
    }
}

/// A new status or a new invite code is all that changes: the rest of the session stays, each
/// replaces the one before it, and where there is no session none appears.
pub proof fn updates_change_one_thing(
    session: SessionView,
    status: Status,
    newer: Status,
    invite: Seq<char>,
)
    ensures
        ({
            let s = with_status(Some(session), status);
            &&& s matches Some(t) && {
                &&& t.status == status.text()
                &&& t.role == session.role
                &&& t.invite_code == session.invite_code
                &&& t.capture_method == session.capture_method
                &&& t.encoder_kind == session.encoder_kind
                &&& t.width == session.width
                &&& t.height == session.height
            }
            &&& with_status(s, newer) == with_status(Some(session), newer)
        }),
        with_invite(Some(session), invite) matches Some(t) && {
            &&& t.invite_code == Some(invite)
            &&& t.role == session.role
            &&& t.status == session.status
            &&& t.capture_method == session.capture_method
            &&& t.encoder_kind == session.encoder_kind
            &&& t.width == session.width
            &&& t.height == session.height
        },
        with_status(with_invite(Some(session), invite), status) == with_invite(
            with_status(Some(session), status),
            invite,
        ),
        with_status(None, status) is None,
        with_invite(None, invite) is None,
{
}

/// Gives the session, if there is one, another status.
fn set_status(session: &mut Option<SessionState>, status: Status)
    ensures
        shown(*final(session)) == with_status(shown(*old(session)), status),
{
    match session.take() {
        Some(s) => {
            let mut s = s;
            s.status = status.to_string();
            *session = Some(s);
        },
        None => {
            *session = None;
        },
    }
}

/// The invite code for this address, port and token says just these three things to whoever
/// reads it. An address with a `:` in it cannot be told from the port.
pub open spec fn names_the_host(host_ip: Seq<char>, port: u16, token: Seq<char>) -> bool {
    !host_ip.contains(':') ==> read_invite_code(invite_code(host_ip, port, token)) == Ok::<
        _,
        InviteFault,
    >((host_ip, port, token))
}

/// Makes the invite code for this address, port and token, puts it into the session if there is
/// one, and returns it.
pub fn publish_invite(
    session: &mut Option<SessionState>,
    host_ip: &str,
    port: u16,
    token: &str,
) -> (invite: String)
    ensures
        invite@ == invite_code(host_ip@, port, token@),
        shown(*final(session)) == with_invite(shown(*old(session)), invite@),
        *final(session) is Some <==> *old(session) is Some,
        *final(session) matches Some(s) ==> s.invite_code matches Some(code) && code@ == invite@,
        names_the_host(host_ip@, port, token@),
{
    let invite = encode_invite(host_ip, port, token);
    match session.take() {
        Some(s) => {
            let mut s = s;
            s.invite_code = Some(invite.as_str().to_string());
            *session = Some(s);
        },
        None => {
            *session = None;
        },
    }
    invite
}

/// Takes the session away that is shown, of either role. What runs is stopped by the events
/// `Stop` of [`HostManager`] and of the two streams.
pub fn stop_session(session: &mut Option<SessionState>)
    ensures
        *final(session) is None,
{
    *session = None;
}

// ---- The host's manager ----

/// What becomes of a host once its viewer is gone.
#[derive(Debug, Clone, Copy, PartialEq, Eq, Structural)]
pub enum ViewerPolicy {
    /// It opens again, with a new invite code, until it is stopped.
    OneAfterTheOther,
    /// It is done.
    OnlyOne,
}

/// What the manager waits for.
#[derive(Debug, Clone, Copy, PartialEq, Eq, Structural)]
pub enum ManagerPhase {
    /// A viewer.
    Waiting,
    /// The end of a viewer's stream.
    Running,
    /// Signaling that opens again.
    Restarting,
    /// Nothing: the manager is done.
    Done,
}

/// What has happened.
pub enum ManagerEvent {
    /// A viewer has connected.
    Viewer,
    /// Accepting a viewer has failed; the reason.
    AcceptFailed(String),
    /// The task that accepts viewers is gone.
    AcceptLost,
    /// The user has stopped the session; a stream that ran is closed.
    Stop,
    /// The viewer's stream has ended.
    StreamEnded,
    /// The viewer's stream has failed; the reason.
    StreamFailed(String),
    /// Signaling is open again, on this port and with this token.
    Restarted { port: u16, token: String },
    /// Signaling cannot be opened again; the reason.
    RestartFailed(String),
}

/// What the user gets to see.
pub enum Notice {
    /// The session's status, and the invite code where there is one to be shared.
    Status { status: Status, invite: Option<String> },
    /// A failure.
    Error(String),
}

/// A [`Notice`], with its texts as characters.
pub enum NoticeView {
    Status { status: Status, invite: Option<Seq<char>> },
    Error(Seq<char>),
}

impl View for Notice {
    type V = NoticeView;

    open spec fn view(&self) -> NoticeView {
        match self {
            Notice::Status { status, invite } => NoticeView::Status {
                status: *status,
                invite: chars_in(*invite),
            },
            Notice::Error(text) => NoticeView::Error(text@),
        }
    }
}

/// The views of some notices, in order.
pub open spec fn notice_views(notices: Seq<Notice>) -> Seq<NoticeView> {
    Seq::new(notices.len(), |i: int| notices[i]@)
}

/// The manager of a host.
pub struct HostManager {
    pub policy: ViewerPolicy,
    pub phase: ManagerPhase,
    /// The address in the invite codes.
    pub host_ip: String,
}

/// `event` is one that the manager waits for. The order to stop reaches it at any time, as long
/// as it is not done.
pub open spec fn is_awaited(manager: HostManager, event: ManagerEvent) -> bool {
    match manager.phase {
        ManagerPhase::Waiting => event is Viewer || event is AcceptFailed || event is AcceptLost
            || event is Stop,
        ManagerPhase::Running => event is StreamEnded || event is StreamFailed || event is Stop,
        ManagerPhase::Restarting => event is Restarted || event is RestartFailed || event is Stop,
        ManagerPhase::Done => false,
    }
}

/// A status without an invite code, as a notice.
pub open spec fn bare(status: Status) -> NoticeView {
    NoticeView::Status { status, invite: None }
}

/// What a step comes to: the manager's next phase, the session, and what is shown.
pub open spec fn manager_outcome(
    manager: HostManager,
    session: Option<SessionView>,
    event: ManagerEvent,
) -> (ManagerPhase, Option<SessionView>, Seq<NoticeView>) {
    match event {
        ManagerEvent::Viewer => (
            ManagerPhase::Running,
            with_status(session, Status::Connecting),
            seq![bare(Status::Connecting)],
        ),
        ManagerEvent::Stop => (ManagerPhase::Done, None, seq![bare(Status::Disconnected)]),
        ManagerEvent::Restarted { port, token } => {
            let invite = invite_code(manager.host_ip@, port, token@);
            (
                ManagerPhase::Waiting,
                with_status(with_invite(session, invite), Status::WaitingForViewer),
                seq![
                    NoticeView::Status { status: Status::WaitingForViewer, invite: Some(invite) },
                ],
            )
        },
        ManagerEvent::RestartFailed(e) => (
            ManagerPhase::Done,
            None,
            seq![
                NoticeView::Error("Cannot restart signaling: "@ + e@),
                bare(Status::Disconnected),
            ],
        ),
        ManagerEvent::AcceptFailed(e) => {
            let notices = seq![NoticeView::Error("Signaling error: "@ + e@)];
            match manager.policy {
                ViewerPolicy::OneAfterTheOther => (ManagerPhase::Restarting, session, notices),
                ViewerPolicy::OnlyOne => (ManagerPhase::Done, session, notices),
            }
        },
        ManagerEvent::AcceptLost => match manager.policy {
            ViewerPolicy::OneAfterTheOther => (
                ManagerPhase::Done,
                None,
                seq![
                    NoticeView::Error("Signaling task panicked"@),
                    bare(Status::Disconnected),
                ],
            ),
            ViewerPolicy::OnlyOne => (
                ManagerPhase::Done,
                session,
                seq![NoticeView::Error("Signaling channel closed unexpectedly"@)],
            ),
        },
        ManagerEvent::StreamEnded => match manager.policy {
            ViewerPolicy::OneAfterTheOther => (ManagerPhase::Restarting, session, seq![]),
            ViewerPolicy::OnlyOne => (
                ManagerPhase::Done,
                session,
                seq![bare(Status::Disconnected)],
            ),
        },
        ManagerEvent::StreamFailed(e) => match manager.policy {
            ViewerPolicy::OneAfterTheOther => (
                ManagerPhase::Restarting,
                session,
                seq![NoticeView::Error(e@)],
            ),
            ViewerPolicy::OnlyOne => (
                ManagerPhase::Done,
                session,
                seq![NoticeView::Error(e@), bare(Status::Disconnected)],
            ),
        },
    }
}

/// One notice: a status without an invite code.
fn bare_notice(status: Status) -> (n: Notice)
    ensures
        n@ == bare(status),
{
    Notice::Status { status, invite: None }
}

impl HostManager {
    /// A manager whose first invite code is out already: it waits for the first viewer.
    pub fn new(policy: ViewerPolicy, host_ip: String) -> (manager: Self)
        ensures
            manager == (HostManager { policy, phase: ManagerPhase::Waiting, host_ip }),
    {
        HostManager { policy, phase: ManagerPhase::Waiting, host_ip }
    }

    /// Takes what has happened: updates the session, moves on, and returns what is to be shown,
    /// in this order. What the manager does next goes by its phase. A new invite code leads back
    /// to this host.
    pub fn step(&mut self, session: &mut Option<SessionState>, event: ManagerEvent) -> (notices:
        Vec<Notice>)
        requires
            is_awaited(*old(self), event),
        ensures
            final(self).policy == old(self).policy,
            final(self).host_ip@ == old(self).host_ip@,
            (final(self).phase, shown(*final(session)), notice_views(notices@)) == manager_outcome(
                *old(self),
                shown(*old(session)),
                event,
            ),
            event matches ManagerEvent::Restarted { port, token } ==> names_the_host(
                old(self).host_ip@,
                port,
                token@,
            ),
    {
        let mut notices: Vec<Notice> = Vec::new();
        let again: bool = match self.policy {
            ViewerPolicy::OneAfterTheOther => true,
            ViewerPolicy::OnlyOne => false,
        };
        match event {
            ManagerEvent::Viewer => {
                set_status(session, Status::Connecting);
                notices.push(bare_notice(Status::Connecting));
                self.phase = ManagerPhase::Running;
            },
            ManagerEvent::Stop => {
                stop_session(session);
                notices.push(bare_notice(Status::Disconnected));
                self.phase = ManagerPhase::Done;
            },
            ManagerEvent::Restarted { port, token } => {
                let invite = publish_invite(
                    session,
                    self.host_ip.as_str(),
                    port,
                    token.as_str(),
                );
                set_status(session, Status::WaitingForViewer);
                notices.push(
                    Notice::Status { status: Status::WaitingForViewer, invite: Some(invite) },
                );
                self.phase = ManagerPhase::Waiting;
            },
            ManagerEvent::RestartFailed(e) => {
                notices.push(
                    Notice::Error("Cannot restart signaling: ".to_string().concat(e.as_str())),
                );
                stop_session(session);
                notices.push(bare_notice(Status::Disconnected));
                self.phase = ManagerPhase::Done;
            },
            ManagerEvent::AcceptFailed(e) => {
                notices.push(Notice::Error("Signaling error: ".to_string().concat(e.as_str())));
                self.phase = if again {
                    ManagerPhase::Restarting
                } else {
                    ManagerPhase::Done
                };
            },
            ManagerEvent::AcceptLost => {
                if again {
                    notices.push(Notice::Error("Signaling task panicked".to_string()));
                    stop_session(session);
                    notices.push(bare_notice(Status::Disconnected));
                } else {
                    notices.push(
                        Notice::Error("Signaling channel closed unexpectedly".to_string()),
                    );
                }
                self.phase = ManagerPhase::Done;
            },
            ManagerEvent::StreamEnded => {
                if again {
                    self.phase = ManagerPhase::Restarting;
                } else {
                    notices.push(bare_notice(Status::Disconnected));
                    self.phase = ManagerPhase::Done;
                }
            },
            ManagerEvent::StreamFailed(e) => {
                notices.push(Notice::Error(e));
                if again {
                    self.phase = ManagerPhase::Restarting;
                } else {
                    notices.push(bare_notice(Status::Disconnected));
                    self.phase = ManagerPhase::Done;
                }
            },
        }
        assert(notice_views(notices@) =~= manager_outcome(
            *old(self),
            shown(*old(session)),
            event,
        ).2);
        notices
    }
}

/// A host that takes one viewer after the other opens again after every viewer, whether the
/// stream ended or failed, and after every one that could not be accepted: signaling starts
/// anew, and once it has, the new invite code is shown, stands in the session, and the host
/// waits again.
pub proof fn every_viewer_is_followed_by_a_new_invite(
    manager: HostManager,
    session: Option<SessionView>,
    event: ManagerEvent,
    restarting: HostManager,
    port: u16,
    token: String,
)
    requires
        manager.policy is OneAfterTheOther,
        is_awaited(manager, event),
        event is StreamEnded || event is StreamFailed || event is AcceptFailed,
        restarting == (HostManager {
            phase: manager_outcome(manager, session, event).0,
            ..manager
        }),
    ensures
        is_awaited(restarting, ManagerEvent::Restarted { port, token }),
        ({
            let kept = manager_outcome(manager, session, event).1;
            let (phase, opened, notices) = manager_outcome(
                restarting,
                kept,
                ManagerEvent::Restarted { port, token },
            );
            let invite = invite_code(manager.host_ip@, port, token@);
            &&& kept == session
            &&& phase is Waiting
            &&& notices == seq![
                NoticeView::Status { status: Status::WaitingForViewer, invite: Some(invite) },
            ]
            &&& session matches Some(s) ==> opened == Some(
                SessionView {
                    status: Status::WaitingForViewer.text(),
                    invite_code: Some(invite),
                    ..s
                },
            )
        }),
{
}

/// When a host that takes one viewer after the other is done, no session is left and
/// `disconnected` is the last thing shown.
pub proof fn the_end_is_shown(
    manager: HostManager,
    session: Option<SessionView>,
    event: ManagerEvent,
)
    requires
        manager.policy is OneAfterTheOther,
        is_awaited(manager, event),
        manager_outcome(manager, session, event).0 is Done,
    ensures
        manager_outcome(manager, session, event).1 is None,
        manager_outcome(manager, session, event).2.last() == bare(Status::Disconnected),
{
}

/// A host can be stopped in every phase, whatever becomes of it after a viewer: it is done, no
/// session is left, and `disconnected` is shown.
pub proof fn the_order_to_stop_ends_the_host(manager: HostManager, session: Option<SessionView>)
    requires
        manager.phase !is Done,
    ensures
        is_awaited(manager, ManagerEvent::Stop),
        manager_outcome(manager, session, ManagerEvent::Stop) == (
            ManagerPhase::Done,
            None::<SessionView>,
            seq![bare(Status::Disconnected)],
        ),
{
}

/// A session that was stopped stays stopped: no later step of the manager brings it back.
pub proof fn a_stopped_session_stays_stopped(manager: HostManager, event: ManagerEvent)
    requires
        is_awaited(manager, event),
    ensures
        manager_outcome(manager, None, event).1 is None,
{
}

/// Every failure is shown, and first of all, with its reason in full; and nothing is shown as a
/// failure that is none.
pub proof fn every_failure_is_shown(
    manager: HostManager,
    session: Option<SessionView>,
    event: ManagerEvent,
)
    requires
        is_awaited(manager, event),
    ensures
        ({
            let notices = manager_outcome(manager, session, event).2;
            match event {
                ManagerEvent::StreamFailed(e) => notices.len() > 0 && notices[0]
                    == NoticeView::Error(e@),
                ManagerEvent::AcceptFailed(e) => notices.len() > 0 && notices[0]
                    == NoticeView::Error("Signaling error: "@ + e@),
                ManagerEvent::RestartFailed(e) => notices.len() > 0 && notices[0]
                    == NoticeView::Error("Cannot restart signaling: "@ + e@),
                ManagerEvent::AcceptLost => notices.len() > 0 && notices[0] is Error,
                _ => forall|i: int| 0 <= i < notices.len() ==> #[trigger] notices[i] is Status,
            }
        }),
        ({
            let notices = manager_outcome(manager, session, event).2;
            forall|i: int| 0 < i < notices.len() ==> #[trigger] notices[i] is Status
        }),
{
}

/// While a host goes on, the session says what was shown last: the same status, and the same invite
/// code where one was shown. Nothing else of the session ever changes, and what was not shown to
/// change stays.
pub proof fn the_session_says_what_was_shown(
    manager: HostManager,
    session: SessionView,
    event: ManagerEvent,
)
    requires
        is_awaited(manager, event),
        manager_outcome(manager, Some(session), event).0 !is Done,
    ensures
        ({
            let (phase, after, notices) = manager_outcome(manager, Some(session), event);
            &&& after matches Some(s) && {
                &&& s.role == session.role
                &&& s.capture_method == session.capture_method
                &&& s.encoder_kind == session.encoder_kind
                &&& s.width == session.width
                &&& s.height == session.height
                &&& match event {
                    ManagerEvent::Viewer => {
                        &&& notices == seq![
                            NoticeView::Status { status: Status::Connecting, invite: None },
                        ]
                        &&& s.status == Status::Connecting.text()
                        &&& s.invite_code == session.invite_code
                    },
                    ManagerEvent::Restarted { .. } => {
                        &&& notices.len() == 1
                        &&& notices[0] matches NoticeView::Status { status, invite }
                        &&& status is WaitingForViewer
                        &&& invite is Some
                        &&& s.invite_code == invite
                        &&& s.status == Status::WaitingForViewer.text()
                    },
                    _ => s.status == session.status && s.invite_code == session.invite_code,
                }
            }
        }),
{
}

/// A host goes through its phases in order: a viewer that connects is served, a host that opened
/// again waits, and one that takes one viewer after the other is done only when it is stopped,
/// cannot open again, or has lost the task that accepts viewers. One that takes only one is done
/// with the first that comes to an end.
pub proof fn a_host_is_done_only_for_a_reason(
    manager: HostManager,
    session: Option<SessionView>,
    event: ManagerEvent,
)
    requires
        is_awaited(manager, event),
    ensures
        ({
            let phase = manager_outcome(manager, session, event).0;
            &&& event is Viewer <==> phase is Running
            &&& event is Restarted <==> phase is Waiting
            &&& manager.policy is OneAfterTheOther ==> (phase is Done <==> event is Stop || event
                is RestartFailed || event is AcceptLost)
            &&& manager.policy is OnlyOne ==> (phase is Done <==> event !is Viewer && event
                !is Restarted)
        }),
{
}

/// A host that takes only one viewer shows `disconnected` when its stream is over or when it is
/// stopped, and leaves the session that is shown alone unless it was stopped.
pub proof fn a_host_for_one_viewer_ends_with_it(
    manager: HostManager,
    session: Option<SessionView>,
    event: ManagerEvent,
)
    requires
        manager.policy is OnlyOne,
        is_awaited(manager, event),
        event is StreamEnded || event is StreamFailed || event is Stop,
    ensures
        ({
            let (phase, after, notices) = manager_outcome(manager, session, event);
            &&& phase is Done
            &&& notices.len() > 0
            &&& notices.last() == (NoticeView::Status {
                status: Status::Disconnected,
                invite: None,
            })
            &&& event !is Stop ==> after == session
            &&& event is Stop ==> after is None
        }),
{
}

} // verus!
