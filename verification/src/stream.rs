//! The course of one stream: from the offer to the end, on the host's side and on the viewer's.
use vstd::prelude::*;

use crate::session::Status;
use crate::signaling::SignalMessage;
use crate::text::{decimal, decimal_text};

verus! {

// ---- The host's side ----

/// Which call of a host's stream is open.
#[derive(Debug, Clone, Copy, PartialEq, Eq, Structural)]
pub enum HostPhase {
    /// `connecting` is being reported.
    Opening,
    /// The offer is being made.
    Offering,
    /// The offer is being sent.
    SendingOffer,
    /// The viewer's answer is awaited.
    AwaitingAnswer,
    /// A candidate that came before the answer is being added.
    AddingEarly,
    /// The answer is being set.
    SettingAnswer,
    /// `streaming` is being reported.
    Announcing,
    /// Packets and messages are awaited.
    Streaming,
    /// A candidate that came while streaming is being added.
    AddingLate,
    /// A packet is being sent.
    Sending,
    /// The connection is being closed.
    Closing,
    /// No call is open: the stream is over.
    Ended,
}

/// What became of the call that was open.
pub enum HostEvent {
    /// The status has been reported, or nobody listens any more.
    Reported,
    /// The offer, as SDP.
    OfferMade(String),
    /// The offer is on its way.
    Sent,
    /// The offer could not be sent; the reason.
    SendFailed(String),
    /// A message from the viewer.
    Message(SignalMessage),
    /// The viewer's messages have come to their end.
    SignalingClosed,
    /// The candidate has been added, or refused.
    Added,
    /// The answer is set.
    AnswerSet,
    /// An encoded picture of this many bytes.
    Video(usize),
    /// An encoded piece of sound of this many bytes.
    Audio(usize),
    /// The packet has been sent, or was lost.
    PacketSent,
    /// The user has stopped the session, whatever the open call was for.
    Stop,
    /// The connection is closed.
    Closed,
    /// Making the offer, setting the answer or closing has failed; the reason.
    Failed(String),
}

/// The next call.
pub enum HostAction {
    /// Report this status.
    Report(Status),
    /// Make the connection and its offer.
    MakeOffer,
    /// Send this offer to the viewer.
    SendOffer(String),
    /// Wait for the viewer's next message.
    Receive,
    /// Add this candidate.
    AddCandidate(String),
    /// Set this answer.
    SetAnswer(String),
    /// Wait for whatever comes first: a picture, a piece of sound, or a message.
    Await,
    /// Send the picture that has just come.
    SendVideo,
    /// Send the piece of sound that has just come.
    SendAudio,
    /// Close the connection.
    Close,
    /// The stream is over: it ended well, or failed for this reason.
    Finish(Result<(), String>),
}

/// One stream of a host.
#[derive(Debug, Clone, Copy, PartialEq, Eq, Structural)]
pub struct HostStream {
    pub phase: HostPhase,
    /// The bytes of all pictures so far.
    pub video_bytes: u64,
    /// The bytes of all sound so far.
    pub audio_bytes: u64,
}

/// `event` can come now: the order to stop does as long as the connection is not being closed
/// already, and everything else answers the call that is open.
pub open spec fn host_answers(stream: HostStream, event: HostEvent) -> bool {
    if event is Stop {
        stream.phase !is Closing && stream.phase !is Ended
    } else {
        host_call_answers(stream, event)
    }
}

/// `event` tells what became of the call that is open, and what it adds can be counted.
pub open spec fn host_call_answers(stream: HostStream, event: HostEvent) -> bool {
    match stream.phase {
        HostPhase::Opening | HostPhase::Announcing => event is Reported,
        HostPhase::Offering => event is OfferMade || event is Failed,
        HostPhase::SendingOffer => event is Sent || event is SendFailed,
        HostPhase::AwaitingAnswer => event is Message || event is SignalingClosed,
        HostPhase::AddingEarly | HostPhase::AddingLate => event is Added,
        HostPhase::SettingAnswer => event is AnswerSet || event is Failed,
        HostPhase::Streaming => match event {
            HostEvent::Video(len) => stream.video_bytes + len <= u64::MAX,
            HostEvent::Audio(len) => stream.audio_bytes + len <= u64::MAX,
            HostEvent::Message(_) | HostEvent::SignalingClosed => true,
            _ => false,
        },
        HostPhase::Sending => event is PacketSent,
        HostPhase::Closing => event is Closed || event is Failed,
        HostPhase::Ended => false,
    }
}

/// The stream in another phase.
pub open spec fn host_in(before: HostStream, phase: HostPhase) -> HostStream {
    HostStream { phase, ..before }
}

/// The stream has failed with `text`.
pub open spec fn host_fails(
    before: HostStream,
    after: HostStream,
    action: HostAction,
    text: Seq<char>,
) -> bool {
    &&& after == host_in(before, HostPhase::Ended)
    &&& action matches HostAction::Finish(Err(e))
    &&& e@ == text
}

/// One step of a host's stream.
///
/// Until the answer is there, a hangup is a failure; afterwards it is the regular end.
/// Candidates are added whenever they come, and what cannot be added, sent or reported does not
/// end the stream. The order to stop closes the connection at any time.
pub open spec fn host_step(
    before: HostStream,
    event: HostEvent,
    after: HostStream,
    action: HostAction,
) -> bool {
    match event {
        HostEvent::Reported => if before.phase is Opening {
            after == host_in(before, HostPhase::Offering) && action is MakeOffer
        } else {
            after == host_in(before, HostPhase::Streaming) && action is Await
        },
        HostEvent::OfferMade(sdp) => after == host_in(before, HostPhase::SendingOffer) && action
            == HostAction::SendOffer(sdp),
        HostEvent::Sent => after == host_in(before, HostPhase::AwaitingAnswer) && action
            is Receive,
        HostEvent::SendFailed(text) => host_fails(
            before,
            after,
            action,
            "send offer: "@ + text@,
        ),
        HostEvent::Message(message) => if before.phase is AwaitingAnswer {
            match message {
                SignalMessage::Answer { sdp } => after == host_in(before, HostPhase::SettingAnswer)
                    && action == HostAction::SetAnswer(sdp),
                SignalMessage::IceCandidate { candidate, .. } => after == host_in(
                    before,
                    HostPhase::AddingEarly,
                ) && action == HostAction::AddCandidate(candidate),
                SignalMessage::Bye => host_fails(
                    before,
                    after,
                    action,
                    "Viewer sent Bye before answer"@,
                ),
                _ => after == before && action is Receive,
            }
        } else {
            match message {
                SignalMessage::IceCandidate { candidate, .. } => after == host_in(
                    before,
                    HostPhase::AddingLate,
                ) && action == HostAction::AddCandidate(candidate),
                SignalMessage::Bye => after == host_in(before, HostPhase::Closing) && action
                    is Close,
                _ => after == before && action is Await,
            }
        },
        HostEvent::SignalingClosed => if before.phase is AwaitingAnswer {
            host_fails(before, after, action, "Signaling channel closed before answer"@)
        } else {
            after == host_in(before, HostPhase::Closing) && action is Close
        },
        HostEvent::Added => if before.phase is AddingEarly {
            after == host_in(before, HostPhase::AwaitingAnswer) && action is Receive
        } else {
            after == host_in(before, HostPhase::Streaming) && action is Await
        },
        HostEvent::AnswerSet => after == host_in(before, HostPhase::Announcing) && action
            == HostAction::Report(Status::Streaming),
        HostEvent::Video(len) => after == (HostStream {
            phase: HostPhase::Sending,
            video_bytes: (before.video_bytes + len) as u64,
            ..before
        }) && action is SendVideo,
        HostEvent::Audio(len) => after == (HostStream {
            phase: HostPhase::Sending,
            audio_bytes: (before.audio_bytes + len) as u64,
            ..before
        }) && action is SendAudio,
        HostEvent::PacketSent => after == host_in(before, HostPhase::Streaming) && action is Await,
        HostEvent::Stop => after == host_in(before, HostPhase::Closing) && action is Close,
        HostEvent::Closed => after == host_in(before, HostPhase::Ended) && action
            == HostAction::Finish(Ok(())),
        HostEvent::Failed(text) => host_fails(before, after, action, text@),
    }
}

/// The last line of a stream's log.
pub open spec fn host_summary(video_bytes: u64, audio_bytes: u64) -> Seq<char> {
    "Session ended. Video sent: "@ + decimal(video_bytes as nat / 1_000_000) + " MB, Audio sent: "@
        + decimal(audio_bytes as nat / 1_000) + " KB"@
}

impl HostStream {
    /// A new stream, and its first call.
    pub fn new() -> (r: (Self, HostAction))
        ensures
            r.0 == (HostStream { phase: HostPhase::Opening, video_bytes: 0, audio_bytes: 0 }),
            r.1 == HostAction::Report(Status::Connecting),
    {
        (
            HostStream { phase: HostPhase::Opening, video_bytes: 0, audio_bytes: 0 },
            HostAction::Report(Status::Connecting),
        )
    }

    /// Ends the stream with a failure.
    fn fail(&mut self, text: String) -> (action: HostAction)
        ensures
            host_fails(*old(self), *final(self), action, text@),
    {
        self.phase = HostPhase::Ended;
        HostAction::Finish(Err(text))
    }

    /// Takes what became of the open call, and gives the next one.
    pub fn step(&mut self, event: HostEvent) -> (action: HostAction)
        requires
            host_answers(*old(self), event),
        ensures
            host_step(*old(self), event, *final(self), action),
    {
        match event {
            HostEvent::Reported => match self.phase {
                HostPhase::Opening => {
                    self.phase = HostPhase::Offering;
                    HostAction::MakeOffer
                },
                _ => {
                    self.phase = HostPhase::Streaming;
                    HostAction::Await
                },
            },
            HostEvent::OfferMade(sdp) => {
                self.phase = HostPhase::SendingOffer;
                HostAction::SendOffer(sdp)
            },
            HostEvent::Sent => {
                self.phase = HostPhase::AwaitingAnswer;
                HostAction::Receive
            },
            HostEvent::SendFailed(text) => {
                self.fail("send offer: ".to_string().concat(text.as_str()))
            },
            HostEvent::Message(message) => match self.phase {
                HostPhase::AwaitingAnswer => self.before_answer(message),
                _ => self.while_streaming(message),
            },
            HostEvent::SignalingClosed => match self.phase {
                HostPhase::AwaitingAnswer => {
                    self.fail("Signaling channel closed before answer".to_string())
                },
                _ => {
                    self.phase = HostPhase::Closing;
                    HostAction::Close
                },
            },
            HostEvent::Added => match self.phase {
                HostPhase::AddingEarly => {
                    self.phase = HostPhase::AwaitingAnswer;
                    HostAction::Receive
                },
                _ => {
                    self.phase = HostPhase::Streaming;
                    HostAction::Await
                },
            },
            HostEvent::AnswerSet => {
                self.phase = HostPhase::Announcing;
                HostAction::Report(Status::Streaming)
            },
            HostEvent::Video(len) => {
                self.video_bytes = self.video_bytes + len as u64;
                self.phase = HostPhase::Sending;
                HostAction::SendVideo
            },
            HostEvent::Audio(len) => {
                self.audio_bytes = self.audio_bytes + len as u64;
                self.phase = HostPhase::Sending;
                HostAction::SendAudio
            },
            HostEvent::PacketSent => {
                self.phase = HostPhase::Streaming;
                HostAction::Await
            },
            HostEvent::Stop => {
                self.phase = HostPhase::Closing;
                HostAction::Close
            },
            HostEvent::Closed => {
                self.phase = HostPhase::Ended;
                HostAction::Finish(Ok(()))
            },
            HostEvent::Failed(text) => self.fail(text),
        }
    }

    /// Takes a message that came before the answer, or is it.
    fn before_answer(&mut self, message: SignalMessage) -> (action: HostAction)
        requires
            old(self).phase is AwaitingAnswer,
        ensures
            host_step(*old(self), HostEvent::Message(message), *final(self), action),
    {
        match message {
            SignalMessage::Answer { sdp } => {
                self.phase = HostPhase::SettingAnswer;
                HostAction::SetAnswer(sdp)
            },
            SignalMessage::IceCandidate { candidate, .. } => {
                self.phase = HostPhase::AddingEarly;
                HostAction::AddCandidate(candidate)
            },
            SignalMessage::Bye => self.fail("Viewer sent Bye before answer".to_string()),
            _ => HostAction::Receive,
        }
    }

    /// Takes a message that came during the stream.
    fn while_streaming(&mut self, message: SignalMessage) -> (action: HostAction)
        requires
            old(self).phase is Streaming,
        ensures
            host_step(*old(self), HostEvent::Message(message), *final(self), action),
    {
        match message {
            SignalMessage::IceCandidate { candidate, .. } => {
                self.phase = HostPhase::AddingLate;
                HostAction::AddCandidate(candidate)
            },
            SignalMessage::Bye => {
                self.phase = HostPhase::Closing;
                HostAction::Close
            },
            _ => HostAction::Await,
        }
    }

    /// Whether a packet of `len` bytes can still be counted.
    pub fn can_count(&self, len: usize) -> (r: bool)
        ensures
            r == (self.video_bytes + len <= u64::MAX && self.audio_bytes + len <= u64::MAX),
    {
        self.video_bytes <= u64::MAX - len as u64 && self.audio_bytes <= u64::MAX - len as u64
    }

    /// The last line of the stream's log.
    pub fn summary(&self) -> (s: String)
        ensures
            s@ == host_summary(self.video_bytes, self.audio_bytes),
            s@ == "Session ended. Video sent: "@ + decimal(self.video_bytes as nat / 1_000_000)
                + " MB, Audio sent: "@ + decimal(self.audio_bytes as nat / 1_000) + " KB"@,
    {
        let mut s = "Session ended. Video sent: ".to_string();
        s.append(decimal_text(self.video_bytes / 1_000_000).as_str());
        s.append(" MB, Audio sent: ");
        s.append(decimal_text(self.audio_bytes / 1_000).as_str());
        s.append(" KB");
        s
    }
}

/// The bytes of pictures in a run of events.
pub open spec fn video_total(events: Seq<HostEvent>) -> int
    decreases events.len(),
{
    if events.len() == 0 {
        0
    } else {
        video_total(events.drop_last()) + match events.last() {
            HostEvent::Video(len) => len as int,
            _ => 0,
        }
    }
}

/// The bytes of sound in a run of events.
pub open spec fn audio_total(events: Seq<HostEvent>) -> int
    decreases events.len(),
{
    if events.len() == 0 {
        0
    } else {
        audio_total(events.drop_last()) + match events.last() {
            HostEvent::Audio(len) => len as int,
            _ => 0,
        }
    }
}

/// `states` and `actions` are a course that `events` make a new stream take.
pub open spec fn is_host_course(
    states: Seq<HostStream>,
    events: Seq<HostEvent>,
    actions: Seq<HostAction>,
) -> bool {
    &&& states.len() == events.len() + 1
    &&& actions.len() == events.len()
    &&& states[0] == (HostStream { phase: HostPhase::Opening, video_bytes: 0, audio_bytes: 0 })
    &&& forall|i: int|
        #![trigger events[i]]
        0 <= i < events.len() ==> host_answers(states[i], events[i]) && host_step(
            states[i],
            events[i],
            states[i + 1],
            actions[i],
        )
}

/// A stream counts every byte that it is given, and no other.
pub proof fn host_counts_its_bytes(
    states: Seq<HostStream>,
    events: Seq<HostEvent>,
    actions: Seq<HostAction>,
)
    requires
        is_host_course(states, events, actions),
    ensures
        states.last().video_bytes == video_total(events),
        states.last().audio_bytes == audio_total(events),
    decreases events.len(),
{
    if events.len() > 0 {
        let n = events.len() - 1;
        let s = states.drop_last();
        let e = events.drop_last();
        let a = actions.drop_last();
        assert forall|i: int| #![trigger e[i]] 0 <= i < e.len() implies host_answers(s[i], e[i])
            && host_step(s[i], e[i], s[i + 1], a[i]) by {
            assert(e[i] == events[i]);
        }
        host_counts_its_bytes(s, e, a);
        assert(events[n] == events.last());
        assert(states[n + 1] == states.last());
        assert(s.last() == states[n]);
    }
}

/// The phases that a stream reaches only once the answer has been set.
pub open spec fn is_answered(phase: HostPhase) -> bool {
    phase is Announcing || phase is Streaming || phase is AddingLate || phase is Sending
}

/// No packet is sent, and `streaming` is not reported, before the answer has been set.
pub proof fn host_streams_only_when_answered(
    states: Seq<HostStream>,
    events: Seq<HostEvent>,
    actions: Seq<HostAction>,
    n: int,
)
    requires
        is_host_course(states, events, actions),
        0 <= n < events.len(),
        actions[n] is SendVideo || actions[n] is SendAudio || actions[n] == HostAction::Report(
            Status::Streaming,
        ),
    ensures
        exists|i: int| 0 <= i <= n && #[trigger] events[i] is AnswerSet,
{
    assert(host_step(states[n], events[n], states[n + 1], actions[n]));
    if !(events[n] is AnswerSet) {
        lemma_answered(states, events, actions, n);
    }
}

/// A course is in an answered phase only after the answer has been set.
proof fn lemma_answered(
    states: Seq<HostStream>,
    events: Seq<HostEvent>,
    actions: Seq<HostAction>,
    n: int,
)
    requires
        is_host_course(states, events, actions),
        0 <= n <= events.len(),
        is_answered(states[n].phase),
    ensures
        exists|i: int| 0 <= i < n && #[trigger] events[i] is AnswerSet,
    decreases n,
{
    assert(n > 0);
    assert(host_answers(states[n - 1], events[n - 1]));
    assert(host_step(states[n - 1], events[n - 1], states[n], actions[n - 1]));
    if !(events[n - 1] is AnswerSet) {
        lemma_answered(states, events, actions, n - 1);
    }
}

/// A host's stream can be stopped until it closes by itself: the order closes the connection, and
/// once it is closed the stream has ended well.
pub proof fn a_stopped_host_closes(
    before: HostStream,
    closing: HostStream,
    close: HostAction,
    ended: HostStream,
    finish: HostAction,
)
    requires
        before.phase !is Closing,
        before.phase !is Ended,
        host_step(before, HostEvent::Stop, closing, close),
        host_step(closing, HostEvent::Closed, ended, finish),
    ensures
        host_answers(before, HostEvent::Stop),
        close is Close,
        host_answers(closing, HostEvent::Closed),
        ended.phase is Ended,
        finish == HostAction::Finish(Ok(())),
{
}

/// Every packet that comes is sent, whatever its size, and nothing else is: pictures as pictures
/// and sound as sound, one for one.
pub proof fn every_packet_is_sent(
    states: Seq<HostStream>,
    events: Seq<HostEvent>,
    actions: Seq<HostAction>,
)
    requires
        is_host_course(states, events, actions),
    ensures
        forall|i: int|
            #![trigger events[i]]
            0 <= i < events.len() ==> {
                &&& events[i] is Video <==> actions[i] is SendVideo
                &&& events[i] is Audio <==> actions[i] is SendAudio
            },
        events.filter(|e: HostEvent| e is Video).len() == actions.filter(
            |a: HostAction| a is SendVideo,
        ).len(),
        events.filter(|e: HostEvent| e is Audio).len() == actions.filter(
            |a: HostAction| a is SendAudio,
        ).len(),
    decreases events.len(),
{
    reveal(Seq::filter);
    assert forall|i: int| #![trigger events[i]] 0 <= i < events.len() implies {
        &&& events[i] is Video <==> actions[i] is SendVideo
        &&& events[i] is Audio <==> actions[i] is SendAudio
    } by {
        assert(host_step(states[i], events[i], states[i + 1], actions[i]));
    }
    if events.len() > 0 {
        let n = events.len() - 1;
        let s = states.drop_last();
        let e = events.drop_last();
        let a = actions.drop_last();
        assert forall|i: int| #![trigger e[i]] 0 <= i < e.len() implies host_answers(s[i], e[i])
            && host_step(s[i], e[i], s[i + 1], a[i]) by {
            assert(e[i] == events[i]);
        }
        every_packet_is_sent(s, e, a);
        assert(events[n] == events.last() && actions[n] == actions.last());
    }
}

/// A stream goes on until it is stopped or the viewer hangs up: once the offer is out the answer
/// is waited for, once the stream runs the next packet is, and so it is after every packet and
/// every candidate.
pub proof fn a_stream_goes_on(
    states: Seq<HostStream>,
    events: Seq<HostEvent>,
    actions: Seq<HostAction>,
    i: int,
)
    requires
        is_host_course(states, events, actions),
        0 <= i < events.len(),
    ensures
        events[i] is PacketSent ==> actions[i] is Await,
        events[i] is Reported && i > 0 ==> actions[i] is Await,
        events[i] is Sent ==> actions[i] is Receive,
        events[i] is Added && is_unanswered(actions, i) ==> actions[i] is Receive,
        events[i] is Added && !is_unanswered(actions, i) ==> actions[i] is Await,
        actions[i] is Receive ==> states[i + 1].phase is AwaitingAnswer,
        actions[i] is Await ==> states[i + 1].phase is Streaming,
        states[i + 1].phase is Streaming ==> forall|len: usize|
            states[i + 1].video_bytes + len <= u64::MAX ==> #[trigger] host_answers(
                states[i + 1],
                HostEvent::Video(len),
            ),
        states[i + 1].phase is Streaming ==> forall|len: usize|
            states[i + 1].audio_bytes + len <= u64::MAX ==> #[trigger] host_answers(
                states[i + 1],
                HostEvent::Audio(len),
            ),
        actions[i] is Close ==> {
            ||| events[i] is Stop
            ||| events[i] is SignalingClosed
            ||| events[i] == HostEvent::Message(SignalMessage::Bye)
        },
        actions[i] == HostAction::Finish(Ok(())) <==> events[i] is Closed,
{
    assert(host_answers(states[i], events[i]));
    assert(host_step(states[i], events[i], states[i + 1], actions[i]));
    lemma_unanswered(states, events, actions, i);
}

/// Every candidate of the viewer is added as it comes, before the answer and after it, and nothing
/// else is added.
pub proof fn host_adds_every_candidate(
    states: Seq<HostStream>,
    events: Seq<HostEvent>,
    actions: Seq<HostAction>,
    i: int,
)
    requires
        is_host_course(states, events, actions),
        0 <= i < events.len(),
    ensures
        match events[i] {
            HostEvent::Message(SignalMessage::IceCandidate { candidate, .. }) => actions[i]
                == HostAction::AddCandidate(candidate),
            _ => actions[i] !is AddCandidate,
        },
{
    assert(host_answers(states[i], events[i]));
    assert(host_step(states[i], events[i], states[i + 1], actions[i]));
}

/// Up to place `n`, no answer was handed to the connection.
pub open spec fn is_unanswered(actions: Seq<HostAction>, n: int) -> bool {
    forall|j: int| 0 <= j < n ==> !(#[trigger] actions[j] is SetAnswer)
}

/// Until an answer is handed over, a stream is in one of the phases that lead to it, or ends.
proof fn lemma_unanswered(
    states: Seq<HostStream>,
    events: Seq<HostEvent>,
    actions: Seq<HostAction>,
    n: int,
)
    requires
        is_host_course(states, events, actions),
        0 <= n <= events.len(),
    ensures
        ({
            let p = states[n].phase;
            let early = p is Opening || p is Offering || p is SendingOffer || p is AwaitingAnswer
                || p is AddingEarly;
            &&& is_unanswered(actions, n) ==> early || p is Closing || p is Ended
            &&& !is_unanswered(actions, n) ==> !early
            &&& p is Opening <==> n == 0
        }),
    decreases n,
{
    if n > 0 {
        lemma_unanswered(states, events, actions, n - 1);
        assert(host_answers(states[n - 1], events[n - 1]));
        assert(host_step(states[n - 1], events[n - 1], states[n], actions[n - 1]));
        if is_unanswered(actions, n) {
            assert(is_unanswered(actions, n - 1));
        } else {
            let j = choose|j: int| 0 <= j < n && #[trigger] actions[j] is SetAnswer;
            if j < n - 1 {
                assert(!is_unanswered(actions, n - 1));
            }
        }
    }
}

/// Offer and answer are passed on as they are: the offer that was made is the one that is sent,
/// the first answer of the viewer is the one that is set, and no other is.
pub proof fn offer_and_answer_are_passed_on(
    states: Seq<HostStream>,
    events: Seq<HostEvent>,
    actions: Seq<HostAction>,
    i: int,
)
    requires
        is_host_course(states, events, actions),
        0 <= i < events.len(),
    ensures
        i == 0 && events[0] is Reported <==> actions[i] is MakeOffer,
        match events[i] {
            HostEvent::OfferMade(sdp) => actions[i] == HostAction::SendOffer(sdp),
            _ => actions[i] !is SendOffer,
        },
        match events[i] {
            HostEvent::Message(SignalMessage::Answer { sdp }) if is_unanswered(
                actions,
                i,
            ) => actions[i] == HostAction::SetAnswer(sdp),
            _ => actions[i] !is SetAnswer,
        },
        events[i] is AnswerSet <==> actions[i] == HostAction::Report(Status::Streaming),
        actions[i] is Report ==> actions[i] == HostAction::Report(Status::Streaming),
{
    assert(host_answers(states[i], events[i]));
    assert(host_step(states[i], events[i], states[i + 1], actions[i]));
    lemma_unanswered(states, events, actions, i);
}

/// A hangup of the viewer is a failure before the answer, and the regular end after it. Every
/// other failure ends the stream with its own reason, and nothing else does.
pub proof fn host_tells_why_it_failed(
    states: Seq<HostStream>,
    events: Seq<HostEvent>,
    actions: Seq<HostAction>,
    i: int,
)
    requires
        is_host_course(states, events, actions),
        0 <= i < events.len(),
    ensures
        match events[i] {
            HostEvent::Failed(text) => actions[i] matches HostAction::Finish(Err(e)) && e@ == text@,
            HostEvent::SendFailed(text) => actions[i] matches HostAction::Finish(Err(e)) && e@
                == "send offer: "@ + text@,
            HostEvent::Message(SignalMessage::Bye) => if is_unanswered(actions, i) {
                actions[i] matches HostAction::Finish(Err(e)) && e@
                    == "Viewer sent Bye before answer"@
            } else {
                actions[i] is Close
            },
            HostEvent::SignalingClosed => if is_unanswered(actions, i) {
                actions[i] matches HostAction::Finish(Err(e)) && e@
                    == "Signaling channel closed before answer"@
            } else {
                actions[i] is Close
            },
            HostEvent::Closed => actions[i] == HostAction::Finish(Ok(())),
            HostEvent::Stop => actions[i] is Close,
            _ => actions[i] !is Finish && actions[i] !is Close,
        },
        actions[i] is Finish <==> states[i + 1].phase is Ended,
{
    assert(host_answers(states[i], events[i]));
    assert(host_step(states[i], events[i], states[i + 1], actions[i]));
    lemma_unanswered(states, events, actions, i);
}

/// Messages that are neither candidate, answer nor hangup change nothing, and so does an answer
/// once there is one: the stream waits on, and counts nothing.
pub proof fn other_messages_change_nothing(
    states: Seq<HostStream>,
    events: Seq<HostEvent>,
    actions: Seq<HostAction>,
    i: int,
)
    requires
        is_host_course(states, events, actions),
        0 <= i < events.len(),
        ({
            ||| events[i] matches HostEvent::Message(SignalMessage::Offer { .. })
            ||| events[i] == HostEvent::Message(SignalMessage::SessionReady)
            ||| (events[i] matches HostEvent::Message(SignalMessage::Answer { .. })
                && !is_unanswered(actions, i))
        }),
    ensures
        states[i + 1] == states[i],
        actions[i] is Receive <==> is_unanswered(actions, i),
        actions[i] is Await <==> !is_unanswered(actions, i),
{
    assert(host_answers(states[i], events[i]));
    assert(host_step(states[i], events[i], states[i + 1], actions[i]));
    lemma_unanswered(states, events, actions, i);
}

// ---- The viewer's side ----

/// Which call of a viewer's stream is open.
#[derive(Debug, Clone, Copy, PartialEq, Eq, Structural)]
pub enum ViewerPhase {
    /// The host's offer is awaited.
    AwaitingOffer,
    /// The answer is being made.
    Answering,
    /// The answer is being sent.
    SendingAnswer,
    /// A candidate that came before the offer is being added.
    AddingEarly,
    /// The connection is awaited.
    Linking,
    /// `streaming` is being reported.
    Announcing,
    /// Messages are awaited, while the pictures come in by themselves.
    Watching,
    /// A candidate is being added.
    Adding,
    /// The connection is being closed.
    Closing,
    /// A failure is being shown.
    Complaining,
    /// `disconnected` is being reported.
    Leaving,
    /// No call is open: the stream is over.
    Ended,
}

/// What became of the call that was open.
pub enum ViewerEvent {
    /// A message from the host.
    Message(SignalMessage),
    /// The host's messages have come to their end.
    SignalingClosed,
    /// The answer, as SDP.
    AnswerMade(String),
    /// The answer is on its way.
    Sent,
    /// The answer could not be sent; the reason.
    SendFailed(String),
    /// The connection stands.
    Linked,
    /// The candidate has been added, or refused.
    Added,
    /// The user has stopped the session, whatever the open call was for.
    Stop,
    /// The connection is closed.
    Closed,
    /// The status or the failure has been shown, or nobody listens any more.
    Reported,
    /// Making the answer, waiting for the connection or closing it has failed; the reason.
    Failed(String),
}

/// The next call.
pub enum ViewerAction {
    /// Wait for the host's next message.
    Receive,
    /// Make the connection, and an answer to this offer.
    MakeAnswer(String),
    /// Send this answer to the host.
    SendAnswer(String),
    /// Wait until the connection stands.
    WaitForConnection,
    /// Report this status.
    Report(Status),
    /// Add this candidate.
    AddCandidate(String),
    /// Close the connection, if there is one.
    Close,
    /// Show this failure.
    ShowError(String),
    /// The stream is over.
    End,
}

/// One stream of a viewer.
#[derive(Debug, Clone)]
pub struct ViewerStream {
    pub phase: ViewerPhase,
    /// Whether `streaming` is reported only once the connection stands, and not as soon as the
    /// answer is sent.
    pub awaits_connection: bool,
    /// The candidates that came before the offer and have not been added yet, in order.
    pub early: Vec<String>,
}

/// A [`ViewerStream`], with its candidates as characters.
#[verifier::ext_equal]
pub struct ViewerState {
    pub phase: ViewerPhase,
    pub awaits_connection: bool,
    pub early: Seq<Seq<char>>,
}

impl View for ViewerStream {
    type V = ViewerState;

    open spec fn view(&self) -> ViewerState {
        ViewerState {
            phase: self.phase,
            awaits_connection: self.awaits_connection,
            early: self.early@.map_values(|c: String| c@),
        }
    }
}

/// `event` can come now: the order to stop does as long as the stream is not ending already, and
/// everything else answers the call that is open.
pub open spec fn viewer_answers(phase: ViewerPhase, event: ViewerEvent) -> bool {
    if event is Stop {
        phase !is Closing && phase !is Complaining && phase !is Leaving && phase !is Ended
    } else {
        match phase {
            ViewerPhase::AwaitingOffer | ViewerPhase::Watching => event is Message || event
                is SignalingClosed,
            ViewerPhase::Answering => event is AnswerMade || event is Failed,
            ViewerPhase::SendingAnswer => event is Sent || event is SendFailed,
            ViewerPhase::Linking => event is Linked || event is Failed,
            ViewerPhase::Adding | ViewerPhase::AddingEarly => event is Added,
            ViewerPhase::Closing => event is Closed || event is Failed,
            ViewerPhase::Announcing | ViewerPhase::Complaining | ViewerPhase::Leaving => event
                is Reported,
            ViewerPhase::Ended => false,
        }
    }
}

/// The stream in another phase.
pub open spec fn viewer_in(before: ViewerState, phase: ViewerPhase) -> ViewerState {
    ViewerState { phase, ..before }
}

/// The stream has failed with `text`, which is shown before it ends.
pub open spec fn viewer_fails(
    before: ViewerState,
    after: ViewerState,
    action: ViewerAction,
    text: Seq<char>,
) -> bool {
    &&& after == viewer_in(before, ViewerPhase::Complaining)
    &&& action matches ViewerAction::ShowError(e)
    &&& e@ == text
}

/// The answer is out: the first of the candidates that came before the offer is added; where none
/// is left, the connection is awaited, or the stream announced.
pub open spec fn viewer_is_answered(
    before: ViewerState,
    after: ViewerState,
    action: ViewerAction,
) -> bool {
    if before.early.len() > 0 {
        &&& after == (ViewerState {
            phase: ViewerPhase::AddingEarly,
            early: before.early.drop_first(),
            ..before
        })
        &&& action matches ViewerAction::AddCandidate(c)
        &&& c@ == before.early[0]
    } else if before.awaits_connection {
        after == viewer_in(before, ViewerPhase::Linking) && action is WaitForConnection
    } else {
        after == viewer_in(before, ViewerPhase::Announcing) && action == ViewerAction::Report(
            Status::Streaming,
        )
    }
}

/// One step of a viewer's stream.
///
/// Of what comes before the offer, candidates are kept until the answer is sent, and the rest is
/// passed over. Afterwards candidates are added as they come, and a hangup is the regular end.
/// The order to stop closes the connection at any time.
pub open spec fn viewer_step(
    before: ViewerState,
    event: ViewerEvent,
    after: ViewerState,
    action: ViewerAction,
) -> bool {
    match event {
        ViewerEvent::Message(message) => if before.phase is AwaitingOffer {
            match message {
                SignalMessage::Offer { sdp } => after == viewer_in(before, ViewerPhase::Answering)
                    && action == ViewerAction::MakeAnswer(sdp),
                SignalMessage::IceCandidate { candidate, .. } => after == (ViewerState {
                    early: before.early.push(candidate@),
                    ..before
                }) && action is Receive,
                _ => after == before && action is Receive,
            }
        } else {
            match message {
                SignalMessage::IceCandidate { candidate, .. } => after == viewer_in(
                    before,
                    ViewerPhase::Adding,
                ) && action == ViewerAction::AddCandidate(candidate),
                SignalMessage::Bye => after == viewer_in(before, ViewerPhase::Closing) && action
                    is Close,
                _ => after == before && action is Receive,
            }
        },
        ViewerEvent::SignalingClosed => if before.phase is AwaitingOffer {
            viewer_fails(before, after, action, "Signaling closed before offer"@)
        } else {
            after == viewer_in(before, ViewerPhase::Closing) && action is Close
        },
        ViewerEvent::AnswerMade(sdp) => after == viewer_in(before, ViewerPhase::SendingAnswer)
            && action == ViewerAction::SendAnswer(sdp),
        ViewerEvent::Sent => viewer_is_answered(before, after, action),
        ViewerEvent::SendFailed(text) => viewer_fails(
            before,
            after,
            action,
            "send answer: "@ + text@,
        ),
        ViewerEvent::Linked => after == viewer_in(before, ViewerPhase::Announcing) && action
            == ViewerAction::Report(Status::Streaming),
        ViewerEvent::Added => if before.phase is AddingEarly {
            viewer_is_answered(before, after, action)
        } else {
            after == viewer_in(before, ViewerPhase::Watching) && action is Receive
        },
        ViewerEvent::Stop => after == viewer_in(before, ViewerPhase::Closing) && action is Close,
        ViewerEvent::Closed => after == viewer_in(before, ViewerPhase::Leaving) && action
            == ViewerAction::Report(Status::Disconnected),
        ViewerEvent::Reported => match before.phase {
            ViewerPhase::Announcing => after == viewer_in(before, ViewerPhase::Watching) && action
                is Receive,
            ViewerPhase::Complaining => after == viewer_in(before, ViewerPhase::Leaving) && action
                == ViewerAction::Report(Status::Disconnected),
            _ => after == viewer_in(before, ViewerPhase::Ended) && action is End,
        },
        ViewerEvent::Failed(text) => viewer_fails(before, after, action, text@),
    }
}

impl ViewerStream {
    /// A new stream, and its first call.
    pub fn new(awaits_connection: bool) -> (r: (Self, ViewerAction))
        ensures
            r.0@ == (ViewerState {
                phase: ViewerPhase::AwaitingOffer,
                awaits_connection,
                early: seq![],
            }),
            r.1 is Receive,
    {
        let stream = ViewerStream {
            phase: ViewerPhase::AwaitingOffer,
            awaits_connection,
            early: Vec::new(),
        };
        assert(stream@.early =~= seq![]);
        (stream, ViewerAction::Receive)
    }

    /// Fails: the reason is shown next.
    fn fail(&mut self, text: String) -> (action: ViewerAction)
        ensures
            viewer_fails(old(self)@, final(self)@, action, text@),
    {
        self.phase = ViewerPhase::Complaining;
        ViewerAction::ShowError(text)
    }

    /// Goes on once the answer is out.
    fn go_on(&mut self) -> (action: ViewerAction)
        ensures
            viewer_is_answered(old(self)@, final(self)@, action),
    {
        if self.early.len() > 0 {
            let candidate = self.early.remove(0);
            self.phase = ViewerPhase::AddingEarly;
            assert(self@.early =~= old(self)@.early.drop_first());
            ViewerAction::AddCandidate(candidate)
        } else if self.awaits_connection {
            self.phase = ViewerPhase::Linking;
            ViewerAction::WaitForConnection
        } else {
            self.phase = ViewerPhase::Announcing;
            ViewerAction::Report(Status::Streaming)
        }
    }

    /// Takes what became of the open call, and gives the next one.
    pub fn step(&mut self, event: ViewerEvent) -> (action: ViewerAction)
        requires
            viewer_answers(old(self).phase, event),
        ensures
            viewer_step(old(self)@, event, final(self)@, action),
    {
        match event {
            ViewerEvent::Message(message) => match self.phase {
                ViewerPhase::AwaitingOffer => match message {
                    SignalMessage::Offer { sdp } => {
                        self.phase = ViewerPhase::Answering;
                        ViewerAction::MakeAnswer(sdp)
                    },
                    SignalMessage::IceCandidate { candidate, .. } => {
                        self.early.push(candidate);
                        assert(self@.early =~= old(self)@.early.push(candidate@));
                        ViewerAction::Receive
                    },
                    _ => ViewerAction::Receive,
                },
                _ => match message {
                    SignalMessage::IceCandidate { candidate, .. } => {
                        self.phase = ViewerPhase::Adding;
                        ViewerAction::AddCandidate(candidate)
                    },
                    SignalMessage::Bye => {
                        self.phase = ViewerPhase::Closing;
                        ViewerAction::Close
                    },
                    _ => ViewerAction::Receive,
                },
            },
            ViewerEvent::SignalingClosed => match self.phase {
                ViewerPhase::AwaitingOffer => {
                    self.fail("Signaling closed before offer".to_string())
                },
                _ => {
                    self.phase = ViewerPhase::Closing;
                    ViewerAction::Close
                },
            },
            ViewerEvent::AnswerMade(sdp) => {
                self.phase = ViewerPhase::SendingAnswer;
                ViewerAction::SendAnswer(sdp)
            },
            ViewerEvent::Sent => self.go_on(),
            ViewerEvent::SendFailed(text) => {
                self.fail("send answer: ".to_string().concat(text.as_str()))
            },
            ViewerEvent::Linked => {
                self.phase = ViewerPhase::Announcing;
                ViewerAction::Report(Status::Streaming)
            },
            ViewerEvent::Added => match self.phase {
                ViewerPhase::AddingEarly => self.go_on(),
                _ => {
                    self.phase = ViewerPhase::Watching;
                    ViewerAction::Receive
                },
            },
            ViewerEvent::Stop => {
                self.phase = ViewerPhase::Closing;
                ViewerAction::Close
            },
            ViewerEvent::Closed => {
                self.phase = ViewerPhase::Leaving;
                ViewerAction::Report(Status::Disconnected)
            },
            ViewerEvent::Reported => match self.phase {
                ViewerPhase::Announcing => {
                    self.phase = ViewerPhase::Watching;
                    ViewerAction::Receive
                },
                ViewerPhase::Complaining => {
                    self.phase = ViewerPhase::Leaving;
                    ViewerAction::Report(Status::Disconnected)
                },
                _ => {
                    self.phase = ViewerPhase::Ended;
                    ViewerAction::End
                },
            },
            ViewerEvent::Failed(text) => self.fail(text),
        }
    }
}

/// `states` and `actions` are a course that `events` make a new stream take.
pub open spec fn is_viewer_course(
    states: Seq<ViewerState>,
    events: Seq<ViewerEvent>,
    actions: Seq<ViewerAction>,
) -> bool {
    &&& states.len() == events.len() + 1
    &&& actions.len() == events.len()
    &&& states[0].phase is AwaitingOffer
    &&& states[0].early.len() == 0
    &&& forall|i: int|
        #![trigger events[i]]
        0 <= i < events.len() ==> viewer_answers(states[i].phase, events[i]) && viewer_step(
            states[i],
            events[i],
            states[i + 1],
            actions[i],
        )
}

/// However a viewer's stream ends, `disconnected` has been reported just before.
pub proof fn viewer_leaves_disconnected(
    states: Seq<ViewerState>,
    events: Seq<ViewerEvent>,
    actions: Seq<ViewerAction>,
    n: int,
)
    requires
        is_viewer_course(states, events, actions),
        0 <= n < events.len(),
        actions[n] is End,
    ensures
        n > 0,
        actions[n - 1] == ViewerAction::Report(Status::Disconnected),
{
    assert(viewer_answers(states[n].phase, events[n]));
    assert(viewer_step(states[n], events[n], states[n + 1], actions[n]));
    assert(states[n].phase is Leaving);
    assert(n > 0);
    assert(viewer_answers(states[n - 1].phase, events[n - 1]));
    assert(viewer_step(states[n - 1], events[n - 1], states[n], actions[n - 1]));
}

/// The candidates that the first `n` events bring, in order.
pub open spec fn candidates_in(events: Seq<ViewerEvent>, n: int) -> Seq<Seq<char>>
    decreases n,
{
    if n <= 0 {
        seq![]
    } else {
        match events[n - 1] {
            ViewerEvent::Message(SignalMessage::IceCandidate { candidate, .. }) => candidates_in(
                events,
                n - 1,
            ).push(candidate@),
            _ => candidates_in(events, n - 1),
        }
    }
}

/// The candidates that the first `n` actions add, in order.
pub open spec fn candidates_added(actions: Seq<ViewerAction>, n: int) -> Seq<Seq<char>>
    decreases n,
{
    if n <= 0 {
        seq![]
    } else {
        match actions[n - 1] {
            ViewerAction::AddCandidate(candidate) => candidates_added(actions, n - 1).push(
                candidate@,
            ),
            _ => candidates_added(actions, n - 1),
        }
    }
}

/// The phases in which nothing is left of the candidates that came before the offer.
pub open spec fn is_caught_up(phase: ViewerPhase) -> bool {
    phase is Linking || phase is Announcing || phase is Watching || phase is Adding
}

/// No candidate of the host is lost, doubled or moved: at any time, those that were added and
/// those that are kept are, in order, those that came; and once the viewer waits for the
/// connection or watches, none is kept any more.
pub proof fn no_candidate_is_lost(
    states: Seq<ViewerState>,
    events: Seq<ViewerEvent>,
    actions: Seq<ViewerAction>,
    n: int,
)
    requires
        is_viewer_course(states, events, actions),
        0 <= n <= events.len(),
    ensures
        candidates_added(actions, n) + states[n].early == candidates_in(events, n),
        is_caught_up(states[n].phase) ==> states[n].early.len() == 0,
    decreases n,
{
    if n > 0 {
        no_candidate_is_lost(states, events, actions, n - 1);
        assert(viewer_answers(states[n - 1].phase, events[n - 1]));
        assert(viewer_step(states[n - 1], events[n - 1], states[n], actions[n - 1]));
        let added = candidates_added(actions, n - 1);
        let early = states[n - 1].early;
        match actions[n - 1] {
            ViewerAction::AddCandidate(candidate) => {
                if early.len() > 0 && states[n].phase is AddingEarly {
                    assert(added.push(candidate@) + early.drop_first() =~= added + early);
                } else {
                    assert(added.push(candidate@) + early =~= (added + early).push(candidate@));
                }
            },
            _ => {
                match events[n - 1] {
                    ViewerEvent::Message(SignalMessage::IceCandidate { candidate, .. }) => {
                        assert(added + early.push(candidate@) =~= (added + early).push(candidate@));
                    },
                    _ => {},
                }
            },
        }
        assert(candidates_added(actions, n) + states[n].early =~= candidates_in(events, n));
    } else {
        assert(candidates_added(actions, n) + states[n].early =~= candidates_in(events, n));
    }
}

/// The phases that a viewer's stream reaches only once its answer is sent.
pub open spec fn has_answered(phase: ViewerPhase) -> bool {
    is_caught_up(phase) || phase is AddingEarly
}

/// No candidate is added before the answer is sent.
pub proof fn candidates_wait_for_the_answer(
    states: Seq<ViewerState>,
    events: Seq<ViewerEvent>,
    actions: Seq<ViewerAction>,
    n: int,
)
    requires
        is_viewer_course(states, events, actions),
        0 <= n < events.len(),
        actions[n] is AddCandidate,
    ensures
        exists|i: int| 0 <= i <= n && #[trigger] events[i] is Sent,
{
    assert(viewer_answers(states[n].phase, events[n]));
    assert(viewer_step(states[n], events[n], states[n + 1], actions[n]));
    if !(events[n] is Sent) {
        lemma_has_answered(states, events, actions, n);
    }
}

/// A course is in such a phase only after the answer was sent.
proof fn lemma_has_answered(
    states: Seq<ViewerState>,
    events: Seq<ViewerEvent>,
    actions: Seq<ViewerAction>,
    n: int,
)
    requires
        is_viewer_course(states, events, actions),
        0 <= n <= events.len(),
        has_answered(states[n].phase),
    ensures
        exists|i: int| 0 <= i < n && #[trigger] events[i] is Sent,
    decreases n,
{
    assert(n > 0);
    assert(viewer_answers(states[n - 1].phase, events[n - 1]));
    assert(viewer_step(states[n - 1], events[n - 1], states[n], actions[n - 1]));
    if !(events[n - 1] is Sent) {
        lemma_has_answered(states, events, actions, n - 1);
    }
}

/// A viewer's stream can be stopped until it ends by itself: the order closes the connection, and
/// once it is closed `disconnected` is reported.
pub proof fn a_stopped_viewer_closes(
    before: ViewerState,
    closing: ViewerState,
    close: ViewerAction,
    leaving: ViewerState,
    report: ViewerAction,
)
    requires
        before.phase !is Closing,
        before.phase !is Complaining,
        before.phase !is Leaving,
        before.phase !is Ended,
        viewer_step(before, ViewerEvent::Stop, closing, close),
        viewer_step(closing, ViewerEvent::Closed, leaving, report),
    ensures
        viewer_answers(before.phase, ViewerEvent::Stop),
        close is Close,
        viewer_answers(closing.phase, ViewerEvent::Closed),
        report == ViewerAction::Report(Status::Disconnected),
{
}

/// Up to place `n`, no offer was answered.
pub open spec fn is_without_offer(actions: Seq<ViewerAction>, n: int) -> bool {
    forall|j: int| 0 <= j < n ==> !(#[trigger] actions[j] is MakeAnswer)
}

/// Whether a viewer still waits for an offer goes by whether it has answered one; and whether it
/// waits for the connection never changes.
proof fn lemma_without_offer(
    states: Seq<ViewerState>,
    events: Seq<ViewerEvent>,
    actions: Seq<ViewerAction>,
    n: int,
)
    requires
        is_viewer_course(states, events, actions),
        0 <= n <= events.len(),
    ensures
        ({
            let p = states[n].phase;
            let ending = p is Closing || p is Complaining || p is Leaving || p is Ended;
            &&& is_without_offer(actions, n) ==> p is AwaitingOffer || ending
            &&& !is_without_offer(actions, n) ==> p !is AwaitingOffer
        }),
        states[n].awaits_connection == states[0].awaits_connection,
    decreases n,
{
    if n > 0 {
        lemma_without_offer(states, events, actions, n - 1);
        assert(viewer_answers(states[n - 1].phase, events[n - 1]));
        assert(viewer_step(states[n - 1], events[n - 1], states[n], actions[n - 1]));
        if is_without_offer(actions, n) {
            assert(is_without_offer(actions, n - 1));
        } else {
            let j = choose|j: int| 0 <= j < n && #[trigger] actions[j] is MakeAnswer;
            if j < n - 1 {
                assert(!is_without_offer(actions, n - 1));
            }
        }
    }
}

/// The first offer of the host is the one that is answered, and no other is; the answer that was
/// made is the one that is sent.
pub proof fn the_first_offer_is_answered(
    states: Seq<ViewerState>,
    events: Seq<ViewerEvent>,
    actions: Seq<ViewerAction>,
    i: int,
)
    requires
        is_viewer_course(states, events, actions),
        0 <= i < events.len(),
    ensures
        match events[i] {
            ViewerEvent::Message(SignalMessage::Offer { sdp }) if is_without_offer(
                actions,
                i,
            ) => actions[i] == ViewerAction::MakeAnswer(sdp),
            _ => actions[i] !is MakeAnswer,
        },
        match events[i] {
            ViewerEvent::AnswerMade(sdp) => actions[i] == ViewerAction::SendAnswer(sdp),
            _ => actions[i] !is SendAnswer,
        },
{
    assert(viewer_answers(states[i].phase, events[i]));
    assert(viewer_step(states[i], events[i], states[i + 1], actions[i]));
    lemma_without_offer(states, events, actions, i);
}

/// `streaming` is reported once there is something to see: where the connection is awaited, when
/// it stands and not before; otherwise as soon as the answer is sent and the candidates that came
/// before the offer are added.
pub proof fn streaming_is_reported_in_time(
    states: Seq<ViewerState>,
    events: Seq<ViewerEvent>,
    actions: Seq<ViewerAction>,
    i: int,
)
    requires
        is_viewer_course(states, events, actions),
        0 <= i < events.len(),
    ensures
        ({
            let out = events[i] is Sent || (events[i] is Added && states[i].phase is AddingEarly);
            let done = out && states[i].early.len() == 0;
            let waits = states[0].awaits_connection;
            &&& actions[i] is WaitForConnection <==> done && waits
            &&& actions[i] == ViewerAction::Report(Status::Streaming) <==> events[i] is Linked || (
            done && !waits)
            &&& events[i] is Linked ==> waits
        }),
        actions[i] is Report && actions[i] != ViewerAction::Report(Status::Streaming)
            ==> actions[i] == ViewerAction::Report(Status::Disconnected),
{
    assert(viewer_answers(states[i].phase, events[i]));
    assert(viewer_step(states[i], events[i], states[i + 1], actions[i]));
    lemma_without_offer(states, events, actions, i);
    if events[i] is Linked {
        lemma_linking_is_awaited(states, events, actions, i);
    }
}

/// A viewer waits for the connection only where it is told to.
proof fn lemma_linking_is_awaited(
    states: Seq<ViewerState>,
    events: Seq<ViewerEvent>,
    actions: Seq<ViewerAction>,
    n: int,
)
    requires
        is_viewer_course(states, events, actions),
        0 <= n <= events.len(),
        states[n].phase is Linking,
    ensures
        states[n].awaits_connection,
{
    assert(n > 0);
    assert(viewer_answers(states[n - 1].phase, events[n - 1]));
    assert(viewer_step(states[n - 1], events[n - 1], states[n], actions[n - 1]));
}

/// Every failure is shown, in its own words, and nothing else is shown as one: a channel that
/// closes before the offer, an answer that cannot be sent, and whatever else fails. A hangup after
/// the offer closes the connection; before it, it is passed over.
pub proof fn viewer_shows_why_it_failed(
    states: Seq<ViewerState>,
    events: Seq<ViewerEvent>,
    actions: Seq<ViewerAction>,
    i: int,
)
    requires
        is_viewer_course(states, events, actions),
        0 <= i < events.len(),
    ensures
        match events[i] {
            ViewerEvent::Failed(text) => actions[i] matches ViewerAction::ShowError(e) && e@
                == text@,
            ViewerEvent::SendFailed(text) => actions[i] matches ViewerAction::ShowError(e) && e@
                == "send answer: "@ + text@,
            ViewerEvent::SignalingClosed => if is_without_offer(actions, i) {
                actions[i] matches ViewerAction::ShowError(e) && e@
                    == "Signaling closed before offer"@
            } else {
                actions[i] is Close
            },
            ViewerEvent::Message(SignalMessage::Bye) => if is_without_offer(actions, i) {
                actions[i] is Receive && states[i + 1] == states[i]
            } else {
                actions[i] is Close
            },
            ViewerEvent::Stop => actions[i] is Close,
            _ => actions[i] !is ShowError && actions[i] !is Close,
        },
        actions[i] is ShowError && i + 1 < events.len() ==> actions[i + 1] == ViewerAction::Report(
            Status::Disconnected,
        ),
        events[i] is Closed ==> actions[i] == ViewerAction::Report(Status::Disconnected),
        actions[i] == ViewerAction::Report(Status::Disconnected) && i + 1 < events.len()
            ==> actions[i + 1] is End,
{
    assert(viewer_answers(states[i].phase, events[i]));
    assert(viewer_step(states[i], events[i], states[i + 1], actions[i]));
    lemma_without_offer(states, events, actions, i);
    if i + 1 < events.len() {
        assert(viewer_answers(states[i + 1].phase, events[i + 1]));
        assert(viewer_step(states[i + 1], events[i + 1], states[i + 2], actions[i + 1]));
    }
}

/// A viewer that watches takes every candidate as it comes, passes over what is no candidate and
/// no hangup, and waits for the next message.
pub proof fn a_viewer_watches_on(
    states: Seq<ViewerState>,
    events: Seq<ViewerEvent>,
    actions: Seq<ViewerAction>,
    i: int,
)
    requires
        is_viewer_course(states, events, actions),
        0 <= i < events.len(),
    ensures
        match events[i] {
            ViewerEvent::Message(SignalMessage::IceCandidate { candidate, .. }) => {
                &&& is_without_offer(actions, i) ==> actions[i] is Receive && states[i + 1].early
                    == states[i].early.push(candidate@)
                &&& !is_without_offer(actions, i) ==> actions[i] == ViewerAction::AddCandidate(
                    candidate,
                )
            },
            ViewerEvent::Message(SignalMessage::Offer { .. }) => !is_without_offer(actions, i)
                ==> actions[i] is Receive && states[i + 1] == states[i],
            ViewerEvent::Message(SignalMessage::Answer { .. }) => actions[i] is Receive && states[i
                + 1] == states[i],
            ViewerEvent::Message(SignalMessage::SessionReady) => actions[i] is Receive && states[i
                + 1] == states[i],
            _ => true,
        },
        actions[i] == ViewerAction::Report(Status::Streaming) && i + 1 < events.len() && events[i
            + 1] is Reported ==> actions[i + 1] is Receive,
        states[i].phase is Adding && events[i] is Added ==> actions[i] is Receive,
        actions[i] is Receive ==> states[i + 1].phase is AwaitingOffer || states[i + 1].phase
            is Watching,
{
    assert(viewer_answers(states[i].phase, events[i]));
    assert(viewer_step(states[i], events[i], states[i + 1], actions[i]));
    lemma_without_offer(states, events, actions, i);
    if i + 1 < events.len() {
        assert(viewer_answers(states[i + 1].phase, events[i + 1]));
        assert(viewer_step(states[i + 1], events[i + 1], states[i + 2], actions[i + 1]));
    }
}

} // verus!
