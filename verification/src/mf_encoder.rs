//! The hardware encoder as a state machine: which call on the Media Foundation transform comes
//! next, given what the last one gave.
use std::sync::Arc;
use vstd::prelude::*;

use crate::capture::VideoFrame;
use crate::encoder::{
    classify_device, device_kind, has_idr, is_idr_nal, keyframe_interval, pack_u32_u32,
    packet_views, EncodedPacket, EncoderConfig, EncoderKind, PacketView,
};
use crate::pixels::{bgra_to_nv12, is_nv12_size, luma_shows_every_pixel, nv12_of};
use crate::text::{decimal, decimal_text};

verus! {

/// The code of the error that says that the event queue is empty.
pub const MF_E_NO_EVENTS_AVAILABLE: u32 = 0xC00D_3E80;

/// The code of the error that says that there is no output yet.
pub const MF_E_TRANSFORM_NEED_MORE_INPUT: u32 = 0xC00D_6D72;

/// The four-character code `NV12`.
pub const FORMAT_NV12: u32 = 0x3231_564E;

/// The four-character code `H264`.
pub const FORMAT_H264: u32 = 0x3436_3248;

/// The High profile of H.264.
pub const PROFILE_HIGH: u32 = 100;

/// Whole pictures, not fields.
pub const INTERLACE_PROGRESSIVE: u32 = 2;

/// A constant bitrate.
pub const RATE_CONTROL_CBR: u32 = 0;

/// Why an encoder that was found is of no use.
pub enum DeviceFault {
    /// There is nothing to activate.
    Null,
    /// It could not be activated or set up; the text says why.
    SetUp(String),
}

/// An encoder that was found.
pub struct FoundDevice {
    /// Its friendly name, in UTF-16, where it has one.
    pub name: Option<Vec<u16>>,
    /// Why it is passed over, where it was tried and is of no use.
    pub fault: Option<DeviceFault>,
}

/// What the search for hardware H.264 encoders gave.
pub struct DeviceProbe {
    /// Why Media Foundation could not be started, where it could not.
    pub startup_error: Option<String>,
    /// The search itself succeeded.
    pub searched: bool,
    /// The encoders that it found, in order.
    pub devices: Vec<FoundDevice>,
}

/// The place of a kind in the order of preference: NVENC, then AMF, then QuickSync.
pub open spec fn preference(kind: EncoderKind) -> int {
    match kind {
        EncoderKind::Nvenc => 0,
        EncoderKind::Amf => 1,
        EncoderKind::QuickSync => 2,
        EncoderKind::Stub => 3,
    }
}

/// Device `i` is the one to be used: it has no fault, no other device without one has a kind that
/// is preferred to its own, and none before it has the same kind.
pub open spec fn is_pick(devices: Seq<FoundDevice>, i: int) -> bool {
    &&& 0 <= i < devices.len()
    &&& devices[i].fault is None
    &&& forall|j: int|
        0 <= j < devices.len() && (#[trigger] devices[j]).fault is None ==> preference(
            device_kind(devices[i].name),
        ) <= preference(device_kind(devices[j].name))
    &&& forall|j: int|
        0 <= j < i && (#[trigger] devices[j]).fault is None ==> device_kind(devices[j].name)
            != device_kind(devices[i].name)
}

/// Every device has a fault.
pub open spec fn none_is_left(devices: Seq<FoundDevice>) -> bool {
    forall|j: int| 0 <= j < devices.len() ==> (#[trigger] devices[j]).fault is Some
}

/// The place of a kind in the order of preference.
fn preference_of(kind: EncoderKind) -> (n: u8)
    ensures
        n == preference(kind),
{
    match kind {
        EncoderKind::Nvenc => 0,
        EncoderKind::Amf => 1,
        EncoderKind::QuickSync => 2,
        EncoderKind::Stub => 3,
    }
}

/// Picks the device to be used among those without a fault, where one is left.
pub fn pick_device(devices: &Vec<FoundDevice>) -> (pick: Option<usize>)
    ensures
        match pick {
            Some(i) => is_pick(devices@, i as int),
            None => none_is_left(devices@),
        },
{
    let mut best: Option<usize> = None;
    let mut least: u8 = 4;
    let mut k: usize = 0;
    while k < devices.len()
        invariant
            k <= devices@.len(),
            match best {
                Some(i) => {
                    &&& i < k
                    &&& devices@[i as int].fault is None
                    &&& least == preference(device_kind(devices@[i as int].name))
                    &&& forall|j: int|
                        0 <= j < i && (#[trigger] devices@[j]).fault is None ==> least < preference(
                            device_kind(devices@[j].name),
                        )
                },
                None => least == 4,
            },
            forall|j: int|
                0 <= j < k && (#[trigger] devices@[j]).fault is None ==> best is Some && least
                    <= preference(device_kind(devices@[j].name)),
        decreases devices@.len() - k,
    {
        if devices[k].fault.is_none() {
            let n: u8 = preference_of(classify_device(&devices[k].name));
            if n < least {
                best = Some(k);
                least = n;
            }
        }
        k += 1;
    }
    best
}

/// What the transform is told before the first frame.
#[derive(Debug, Clone, Copy, PartialEq, Eq, Structural)]
pub struct MfSettings {
    /// The format of what goes in, as a four-character code.
    pub input_format: u32,
    /// The format of what comes out, as a four-character code.
    pub output_format: u32,
    /// The profile of the H.264 stream.
    pub profile: u32,
    pub interlace_mode: u32,
    /// How the bitrate is kept.
    pub rate_control: u32,
    pub avg_bitrate: u32,
    /// Width in the upper half, height in the lower one.
    pub frame_size: u64,
    /// Frames in the upper half, seconds in the lower one.
    pub frame_rate: u64,
    /// Frames from one keyframe to the next.
    pub gop_size: u32,
    /// B-frames between two reference frames.
    pub b_frames: u32,
    pub low_latency: u32,
}

/// An event of the transform.
#[derive(Debug, Clone, Copy, PartialEq, Eq, Structural)]
pub enum Signal {
    /// It takes one more frame.
    NeedInput,
    /// It has output.
    HaveOutput,
    /// Everything that it held back is out.
    DrainComplete,
    /// Anything else.
    Other,
}

/// Output of the transform.
pub struct OutputSample {
    pub data: Vec<u8>,
    /// Its time in units of 100 ns, where it has one.
    pub sample_time: Option<i64>,
}

/// Input for the transform.
pub struct InputSample {
    pub nv12: Vec<u8>,
    /// Its time in units of 100 ns.
    pub time_100ns: i64,
    /// Its duration in units of 100 ns.
    pub duration_100ns: i64,
}

/// What the last call gave.
pub enum MfEvent {
    /// The sample is there.
    Built,
    /// An event came.
    Signal(Signal),
    /// Waiting for an event failed.
    WaitFailed,
    /// Asking for an event without waiting failed.
    PollFailed { code: u32, text: String },
    /// The transform took the sample.
    Submitted,
    /// The transform gave its output, if it had any.
    Output(Option<OutputSample>),
    /// The transform refused to give output.
    OutputFailed { code: u32, text: String },
    /// The transform was told that the stream ends.
    DrainStarted,
    /// Any other call failed.
    Failed(String),
}

/// Which call comes next.
pub enum MfAction {
    /// Build a sample for the transform.
    BuildSample(InputSample),
    /// Wait for an event.
    WaitEvent,
    /// Ask for an event without waiting.
    PollEvent,
    /// Fetch the output.
    PullOutput,
    /// Submit the sample.
    Submit,
    /// Tell the transform that the stream ends.
    StartDrain,
    /// Done: the packets, or why there are none.
    Finish(Result<Vec<EncodedPacket>, String>),
}

/// What the encoder is waiting for.
#[derive(Debug, Clone, Copy, PartialEq, Eq, Structural)]
pub enum MfPhase {
    /// Nothing: no call is open.
    Idle,
    /// The sample of the frame.
    Building,
    /// A slot for the frame.
    AwaitingInput,
    /// Output that came before the slot.
    PullingEarly,
    /// That the transform takes the frame.
    Submitting,
    /// The end of the events that follow the frame.
    Draining,
    /// Output that follows the frame.
    PullingLate,
    /// That the transform learns of the end.
    StartingDrain,
    /// The end of what the transform held back.
    Flushing,
    /// Output that the transform held back.
    PullingFlushed,
}

/// A hardware encoder.
pub struct MfEncoder {
    pub config: EncoderConfig,
    /// Frames that the transform has taken.
    pub sample_count: u64,
    /// Slots that the transform has offered and no frame has used.
    pub pending_need_input: u32,
    pub phase: MfPhase,
    /// The time of the frame at hand.
    pub pts_us: u64,
    /// The packets of the call at hand.
    pub packets: Vec<EncodedPacket>,
}

/// `x` read as a signed number of 64 bits.
pub open spec fn signed64(x: int) -> int {
    if x < 0x8000_0000_0000_0000 {
        x
    } else {
        x - 0x1_0000_0000_0000_0000
    }
}

/// `x` read as an unsigned number of 64 bits.
pub open spec fn unsigned64(x: int) -> int {
    if x < 0 {
        x + 0x1_0000_0000_0000_0000
    } else {
        x
    }
}

/// The time in microseconds of output with this time in units of 100 ns; `hint` where it has
/// none.
pub open spec fn output_pts(sample_time: Option<i64>, hint: u64) -> int {
    match sample_time {
        Some(t) => unsigned64(t as int) / 10,
        None => hint as int,
    }
}

/// The packet that output becomes.
pub open spec fn output_packet(sample: OutputSample, hint: u64) -> PacketView {
    PacketView {
        data: sample.data@,
        pts_us: output_pts(sample.sample_time, hint) as u64,
        is_keyframe: has_idr(sample.data@),
    }
}

/// Makes a packet of output.
pub fn packet_from_output(sample: OutputSample, pts_hint: u64) -> (packet: EncodedPacket)
    ensures
        packet@ == output_packet(sample, pts_hint),
        packet.data@ == sample.data@,
        packet.is_keyframe == has_idr(sample.data@),
        sample.sample_time matches Some(t) ==> t >= 0 ==> packet.pts_us == t as int / 10,
        sample.sample_time is None ==> packet.pts_us == pts_hint,
{
    let pts_us: u64 = match sample.sample_time {
        Some(t) => if t < 0 {
            (t as i128 + 0x1_0000_0000_0000_0000) as u64 / 10
        } else {
            t as u64 / 10
        },
        None => pts_hint,
    };
    let is_keyframe = is_idr_nal(sample.data.as_slice());
    EncodedPacket { data: Arc::new(sample.data), pts_us, is_keyframe }
}

/// A frame can be made a sample: its sides are even, the colours of its pixels are all there and
/// its time can be counted in units of 100 ns.
pub open spec fn is_encodable(frame: VideoFrame) -> bool {
    &&& is_nv12_size(frame.width, frame.height)
    &&& 4 * (frame.width * frame.height) <= frame.data@.len() + 1
    &&& frame.pts_us * 10 <= u64::MAX
}

/// The sample of a frame.
pub fn build_sample(frame: &VideoFrame, fps: u32) -> (sample: InputSample)
    requires
        is_encodable(*frame),
        fps > 0,
    ensures
        sample.nv12@ == nv12_of(frame.data@, frame.width as int, frame.height as int),
        sample.time_100ns == signed64(frame.pts_us * 10),
        sample.duration_100ns == 10_000_000int / fps as int,
        frame.pts_us * 10 <= i64::MAX ==> sample.time_100ns == frame.pts_us * 10,
{
    let nv12 = bgra_to_nv12(frame.data.as_slice(), frame.width, frame.height);
    let t: u64 = frame.pts_us * 10;
    let time_100ns: i64 = if t < 0x8000_0000_0000_0000 {
        t as i64
    } else {
        (t as i128 - 0x1_0000_0000_0000_0000) as i64
    };
    InputSample { nv12, time_100ns, duration_100ns: 10_000_000 / fps as i64 }
}

/// `event` answers the call that is open in `phase`.
pub open spec fn answers(phase: MfPhase, event: MfEvent) -> bool {
    match phase {
        MfPhase::Idle => false,
        MfPhase::Building => event is Built || event is Failed,
        MfPhase::AwaitingInput => event is Signal || event is WaitFailed || event is Failed,
        MfPhase::PullingEarly | MfPhase::PullingLate | MfPhase::PullingFlushed => event is Output
            || event is OutputFailed || event is Failed,
        MfPhase::Submitting => event is Submitted || event is Failed,
        MfPhase::Draining => event is Signal || event is PollFailed || event is Failed,
        MfPhase::StartingDrain => event is DrainStarted || event is Failed,
        MfPhase::Flushing => event is Signal || event is WaitFailed || event is Failed,
    }
}

/// The encoder goes on in `phase` with these counts and packets.
pub open spec fn goes_on(
    before: MfEncoder,
    after: MfEncoder,
    phase: MfPhase,
    pending: int,
    count: int,
    packets: Seq<PacketView>,
) -> bool {
    &&& after.config == before.config
    &&& after.pts_us == before.pts_us
    &&& after.phase == phase
    &&& after.pending_need_input == pending
    &&& after.sample_count == count
    &&& packet_views(after.packets@) == packets
}

/// The encoder goes on in `phase` with nothing else changed.
pub open spec fn moves_to(before: MfEncoder, after: MfEncoder, phase: MfPhase) -> bool {
    goes_on(
        before,
        after,
        phase,
        before.pending_need_input as int,
        before.sample_count as int,
        packet_views(before.packets@),
    )
}

/// The call ends with an error; the counts stay.
pub open spec fn fails(
    before: MfEncoder,
    after: MfEncoder,
    action: MfAction,
    text: Seq<char>,
) -> bool {
    &&& goes_on(
        before,
        after,
        MfPhase::Idle,
        before.pending_need_input as int,
        before.sample_count as int,
        seq![],
    )
    &&& action matches MfAction::Finish(Err(e)) && e@ == text
}

/// The call ends with the packets collected so far; the counts stay.
pub open spec fn succeeds(before: MfEncoder, after: MfEncoder, action: MfAction) -> bool {
    &&& goes_on(
        before,
        after,
        MfPhase::Idle,
        before.pending_need_input as int,
        before.sample_count as int,
        seq![],
    )
    &&& action matches MfAction::Finish(Ok(packets)) && packet_views(packets@) == packet_views(
        before.packets@,
    )
}

/// Output has come, or there is none: the encoder goes back to `phase`, with one packet more
/// where there is output.
pub open spec fn collects(
    before: MfEncoder,
    event: MfEvent,
    after: MfEncoder,
    phase: MfPhase,
    hint: u64,
) -> bool {
    goes_on(
        before,
        after,
        phase,
        before.pending_need_input as int,
        before.sample_count as int,
        match event {
            MfEvent::Output(Some(sample)) => packet_views(before.packets@).push(
                output_packet(sample, hint),
            ),
            _ => packet_views(before.packets@),
        },
    )
}

/// One step of a call: what `event` makes of the encoder, and which call comes next.
///
/// A frame needs a slot. It takes one that was offered before, or waits for one and collects the
/// output that comes meanwhile. Once the transform has the frame, all further events are read
/// without waiting: output is collected and slots are kept for the frames to come. A flush
/// collects output until the transform says that there is no more.
pub open spec fn mf_step(
    before: MfEncoder,
    event: MfEvent,
    after: MfEncoder,
    action: MfAction,
) -> bool {
    let pending = before.pending_need_input as int;
    let count = before.sample_count as int;
    let packets = packet_views(before.packets@);
    match event {
        MfEvent::Failed(text) => fails(before, after, action, text@),
        MfEvent::Built => if pending > 0 {
            goes_on(before, after, MfPhase::Submitting, pending - 1, count, packets) && action
                is Submit
        } else {
            moves_to(before, after, MfPhase::AwaitingInput) && action is WaitEvent
        },
        MfEvent::Submitted => goes_on(before, after, MfPhase::Draining, pending, count + 1, packets)
            && action is PollEvent,
        MfEvent::DrainStarted => moves_to(before, after, MfPhase::Flushing) && action is WaitEvent,
        MfEvent::WaitFailed => if before.phase is Flushing {
            fails(before, after, action, "GetEvent (flush)"@)
        } else {
            fails(before, after, action, "GetEvent (await NeedInput)"@)
        },
        MfEvent::PollFailed { code, text } => if code == MF_E_NO_EVENTS_AVAILABLE {
            succeeds(before, after, action)
        } else {
            fails(before, after, action, "GetEvent (drain): "@ + text@)
        },
        MfEvent::Signal(signal) => match before.phase {
            MfPhase::AwaitingInput => match signal {
                Signal::NeedInput => moves_to(before, after, MfPhase::Submitting) && action
                    is Submit,
                Signal::HaveOutput => moves_to(before, after, MfPhase::PullingEarly) && action
                    is PullOutput,
                _ => moves_to(before, after, MfPhase::AwaitingInput) && action is WaitEvent,
            },
            MfPhase::Draining => match signal {
                Signal::NeedInput => goes_on(
                    before,
                    after,
                    MfPhase::Draining,
                    pending + 1,
                    count,
                    packets,
                ) && action is PollEvent,
                Signal::HaveOutput => moves_to(before, after, MfPhase::PullingLate) && action
                    is PullOutput,
                _ => moves_to(before, after, MfPhase::Draining) && action is PollEvent,
            },
            _ => match signal {
                Signal::HaveOutput => moves_to(before, after, MfPhase::PullingFlushed) && action
                    is PullOutput,
                Signal::DrainComplete => succeeds(before, after, action),
                _ => moves_to(before, after, MfPhase::Flushing) && action is WaitEvent,
            },
        },
        MfEvent::OutputFailed { code, text } if code != MF_E_TRANSFORM_NEED_MORE_INPUT => fails(
            before,
            after,
            action,
            "ProcessOutput: "@ + text@,
        ),
        _ => match before.phase {
            MfPhase::PullingEarly => collects(before, event, after, MfPhase::AwaitingInput, 0)
                && action is WaitEvent,
            MfPhase::PullingLate => collects(
                before,
                event,
                after,
                MfPhase::Draining,
                before.pts_us,
            ) && action is PollEvent,
            _ => collects(before, event, after, MfPhase::Flushing, 0) && action is WaitEvent,
        },
    }
}

/// The encoding of a frame begins with building its sample.
pub open spec fn encode_opens(
    before: MfEncoder,
    frame: VideoFrame,
    after: MfEncoder,
    action: MfAction,
) -> bool {
    &&& after.config == before.config
    &&& after.sample_count == before.sample_count
    &&& after.pending_need_input == before.pending_need_input
    &&& after.phase is Building
    &&& after.pts_us == frame.pts_us
    &&& after.packets@.len() == 0
    &&& action matches MfAction::BuildSample(sample)
    &&& sample.nv12@ == nv12_of(frame.data@, frame.width as int, frame.height as int)
    &&& sample.time_100ns == signed64(frame.pts_us * 10)
    &&& sample.duration_100ns == 10_000_000int / before.config.fps as int
}

/// A flush begins with telling the transform that the stream ends.
pub open spec fn flush_opens(before: MfEncoder, after: MfEncoder, action: MfAction) -> bool {
    &&& after.config == before.config
    &&& after.sample_count == before.sample_count
    &&& after.pending_need_input == before.pending_need_input
    &&& after.phase is StartingDrain
    &&& after.pts_us == before.pts_us
    &&& after.packets@.len() == 0
    &&& action is StartDrain
}

/// What is said of a device that is of no use.
pub open spec fn fault_text(fault: DeviceFault) -> Seq<char> {
    match fault {
        DeviceFault::Null => "Null IMFActivate"@,
        DeviceFault::SetUp(text) => text@,
    }
}

/// The encoder for a probe is fresh, and of the kind of the device that is preferred among those
/// without a fault. There is none where Media Foundation could not be started, where the search
/// failed or found nothing, or where every device has a fault: then the first one's is told.
pub open spec fn probed(
    config: EncoderConfig,
    probe: DeviceProbe,
    r: Result<(MfEncoder, EncoderKind), String>,
) -> bool {
    if probe.startup_error is Some {
        r matches Err(e) && e@ == probe.startup_error->0@
    } else if !probe.searched || probe.devices@.len() == 0 {
        r matches Err(e) && e@ == "No hardware H.264 MFT encoders found (count="@ + decimal(
            probe.devices@.len(),
        ) + ")"@
    } else if none_is_left(probe.devices@) {
        r matches Err(e) && e@ == fault_text(probe.devices@[0].fault->0)
    } else {
        &&& r matches Ok((encoder, kind))
        &&& is_fresh(encoder, config)
        &&& exists|i: int| #[trigger]
            is_pick(probe.devices@, i) && kind == device_kind(probe.devices@[i].name)
    }
}

/// The encoder has seen no frame and no event.
pub open spec fn is_fresh(encoder: MfEncoder, config: EncoderConfig) -> bool {
    &&& encoder.config == config
    &&& encoder.sample_count == 0
    &&& encoder.pending_need_input == 0
    &&& encoder.phase is Idle
    &&& encoder.pts_us == 0
    &&& encoder.packets@.len() == 0
}

impl MfEncoder {
    /// The encoder for the preferred device among those without a fault, and its kind; or why there
    /// is none.
    pub fn new(config: EncoderConfig, probe: &DeviceProbe) -> (r: Result<
        (Self, EncoderKind),
        String,
    >)
        ensures
            probed(config, *probe, r),
    {
        if let Some(e) = &probe.startup_error {
            return Err(e.as_str().to_string());
        }
        if !probe.searched || probe.devices.len() == 0 {
            let mut e = "No hardware H.264 MFT encoders found (count=".to_string();
            e.append(decimal_text(probe.devices.len() as u64).as_str());
            e.append(")");
            return Err(e);
        }
        let i: usize = match pick_device(&probe.devices) {
            Some(i) => i,
            None => {
                proof {
                    assert(probe.devices@[0].fault is Some);
                }
                return Err(
                    match &probe.devices[0].fault {
                        Some(DeviceFault::SetUp(text)) => text.as_str().to_string(),
                        _ => "Null IMFActivate".to_string(),
                    },
                );
            },
        };
        let kind = classify_device(&probe.devices[i].name);
        let encoder = MfEncoder {
            config,
            sample_count: 0,
            pending_need_input: 0,
            phase: MfPhase::Idle,
            pts_us: 0,
            packets: Vec::new(),
        };
        Ok((encoder, kind))
    }

    /// What the transform is told before the first frame: NV12 in, H.264 of the High profile out,
    /// progressive, at a constant bitrate, without B-frames.
    pub fn settings(&self) -> (s: MfSettings)
        requires
            keyframe_interval(self.config) <= u32::MAX,
        ensures
            s.input_format == FORMAT_NV12,
            s.output_format == FORMAT_H264,
            s.profile == PROFILE_HIGH,
            s.interlace_mode == INTERLACE_PROGRESSIVE,
            s.rate_control == RATE_CONTROL_CBR,
            s.avg_bitrate == self.config.bitrate_bps,
            s.frame_size == self.config.width * 0x1_0000_0000 + self.config.height,
            s.frame_rate == self.config.fps * 0x1_0000_0000 + 1,
            s.gop_size == keyframe_interval(self.config),
            s.b_frames == 0,
            s.low_latency == 1,
    {
        assert(0 <= self.config.fps * self.config.keyframe_interval_secs) by (nonlinear_arith);
        MfSettings {
            input_format: FORMAT_NV12,
            output_format: FORMAT_H264,
            profile: PROFILE_HIGH,
            interlace_mode: INTERLACE_PROGRESSIVE,
            rate_control: RATE_CONTROL_CBR,
            avg_bitrate: self.config.bitrate_bps,
            frame_size: pack_u32_u32(self.config.width, self.config.height),
            frame_rate: pack_u32_u32(self.config.fps, 1),
            gop_size: self.config.fps * self.config.keyframe_interval_secs,
            b_frames: 0,
            low_latency: 1,
        }
    }

    /// Opens the encoding of one frame.
    pub fn encode(&mut self, frame: &VideoFrame) -> (action: MfAction)
        requires
            old(self).phase is Idle,
            old(self).config.fps > 0,
            is_encodable(*frame),
        ensures
            encode_opens(*old(self), *frame, *final(self), action),
    {
        let sample = build_sample(frame, self.config.fps);
        self.phase = MfPhase::Building;
        self.pts_us = frame.pts_us;
        self.packets = Vec::new();
        MfAction::BuildSample(sample)
    }

    /// Opens a flush of what the transform holds back.
    pub fn flush(&mut self) -> (action: MfAction)
        requires
            old(self).phase is Idle,
        ensures
            flush_opens(*old(self), *final(self), action),
    {
        self.phase = MfPhase::StartingDrain;
        self.packets = Vec::new();
        MfAction::StartDrain
    }

    /// Takes the packets collected so far.
    fn take_packets(&mut self) -> (packets: Vec<EncodedPacket>)
        ensures
            packets@ == old(self).packets@,
            goes_on(
                *old(self),
                *final(self),
                MfPhase::Idle,
                old(self).pending_need_input as int,
                old(self).sample_count as int,
                seq![],
            ),
    {
        let mut packets: Vec<EncodedPacket> = Vec::new();
        std::mem::swap(&mut packets, &mut self.packets);
        self.phase = MfPhase::Idle;
        assert(packet_views(self.packets@) =~= seq![]);
        packets
    }

    /// Ends the call with an error.
    fn fail(&mut self, text: String) -> (action: MfAction)
        ensures
            fails(*old(self), *final(self), action, text@),
    {
        let _ = self.take_packets();
        MfAction::Finish(Err(text))
    }

    /// Ends the call with the packets collected so far.
    fn succeed(&mut self) -> (action: MfAction)
        ensures
            succeeds(*old(self), *final(self), action),
    {
        MfAction::Finish(Ok(self.take_packets()))
    }

    /// Keeps output as a packet.
    fn collect(&mut self, sample: OutputSample, hint: u64)
        ensures
            goes_on(
                *old(self),
                *final(self),
                old(self).phase,
                old(self).pending_need_input as int,
                old(self).sample_count as int,
                packet_views(old(self).packets@).push(output_packet(sample, hint)),
            ),
    {
        let packet = packet_from_output(sample, hint);
        self.packets.push(packet);
        assert(packet_views(self.packets@) =~= packet_views(old(self).packets@).push(
            output_packet(sample, hint),
        ));
    }

    /// Takes one step of the open call.
    pub fn resume(&mut self, event: MfEvent) -> (action: MfAction)
        requires
            answers(old(self).phase, event),
            event is Submitted ==> old(self).sample_count < u64::MAX,
            old(self).phase is Draining && event == MfEvent::Signal(Signal::NeedInput) ==> old(
                self,
            ).pending_need_input < u32::MAX,
        ensures
            mf_step(*old(self), event, *final(self), action),
    {
        match event {
            MfEvent::Failed(text) => self.fail(text),
            MfEvent::Built => if self.pending_need_input > 0 {
                self.pending_need_input = self.pending_need_input - 1;
                self.phase = MfPhase::Submitting;
                MfAction::Submit
            } else {
                self.phase = MfPhase::AwaitingInput;
                MfAction::WaitEvent
            },
            MfEvent::Submitted => {
                self.sample_count = self.sample_count + 1;
                self.phase = MfPhase::Draining;
                MfAction::PollEvent
            },
            MfEvent::DrainStarted => {
                self.phase = MfPhase::Flushing;
                MfAction::WaitEvent
            },
            MfEvent::WaitFailed => match self.phase {
                MfPhase::Flushing => self.fail("GetEvent (flush)".to_string()),
                _ => self.fail("GetEvent (await NeedInput)".to_string()),
            },
            MfEvent::PollFailed { code, text } => if code == MF_E_NO_EVENTS_AVAILABLE {
                self.succeed()
            } else {
                self.fail("GetEvent (drain): ".to_string().concat(text.as_str()))
            },
            MfEvent::Signal(signal) => match self.phase {
                MfPhase::AwaitingInput => match signal {
                    Signal::NeedInput => {
                        self.phase = MfPhase::Submitting;
                        MfAction::Submit
                    },
                    Signal::HaveOutput => {
                        self.phase = MfPhase::PullingEarly;
                        MfAction::PullOutput
                    },
                    _ => MfAction::WaitEvent,
                },
                MfPhase::Draining => match signal {
                    Signal::NeedInput => {
                        self.pending_need_input = self.pending_need_input + 1;
                        MfAction::PollEvent
                    },
                    Signal::HaveOutput => {
                        self.phase = MfPhase::PullingLate;
                        MfAction::PullOutput
                    },
                    _ => MfAction::PollEvent,
                },
                _ => match signal {
                    Signal::HaveOutput => {
                        self.phase = MfPhase::PullingFlushed;
                        MfAction::PullOutput
                    },
                    Signal::DrainComplete => self.succeed(),
                    _ => MfAction::WaitEvent,
                },
            },
            MfEvent::OutputFailed { code, text } => if code == MF_E_TRANSFORM_NEED_MORE_INPUT {
                self.after_pull()
            } else {
                self.fail("ProcessOutput: ".to_string().concat(text.as_str()))
            },
            MfEvent::Output(None) => self.after_pull(),
            MfEvent::Output(Some(sample)) => {
                let hint: u64 = match self.phase {
                    MfPhase::PullingLate => self.pts_us,
                    _ => 0,
                };
                self.collect(sample, hint);
                self.after_pull()
            },
        }
    }

    /// Goes back to the events after output was fetched.
    fn after_pull(&mut self) -> (action: MfAction)
        ensures
            match old(self).phase {
                MfPhase::PullingEarly => moves_to(
                    *old(self),
                    *final(self),
                    MfPhase::AwaitingInput,
                ) && action is WaitEvent,
                MfPhase::PullingLate => moves_to(*old(self), *final(self), MfPhase::Draining)
                    && action is PollEvent,
                _ => moves_to(*old(self), *final(self), MfPhase::Flushing) && action is WaitEvent,
            },
    {
        match self.phase {
            MfPhase::PullingEarly => {
                self.phase = MfPhase::AwaitingInput;
                MfAction::WaitEvent
            },
            MfPhase::PullingLate => {
                self.phase = MfPhase::Draining;
                MfAction::PollEvent
            },
            _ => {
                self.phase = MfPhase::Flushing;
                MfAction::WaitEvent
            },
        }
    }
}

/// There is one device to be used, and it is of the best kind that is left: NVENC before AMF, and
/// AMF before QuickSync. Of several of this kind it is the first.
pub proof fn the_best_kind_is_picked(devices: Seq<FoundDevice>, i: int, j: int, k: int)
    requires
        is_pick(devices, i),
        is_pick(devices, j),
        0 <= k < devices.len(),
        devices[k].fault is None,
    ensures
        i == j,
        0 <= i < devices.len(),
        devices[i].fault is None,
        device_kind(devices[k].name) == device_kind(devices[i].name) ==> i <= k,
        device_kind(devices[k].name) is Nvenc ==> device_kind(devices[i].name) is Nvenc,
        device_kind(devices[k].name) is Amf ==> device_kind(devices[i].name) !is QuickSync,
{
    assert(preference(device_kind(devices[i].name)) <= preference(device_kind(devices[j].name)));
    assert(preference(device_kind(devices[j].name)) <= preference(device_kind(devices[i].name)));
    assert(preference(device_kind(devices[i].name)) <= preference(device_kind(devices[k].name)));
}

/// A device that works is enough: where the search succeeded and one of the devices has no fault,
/// there is an encoder, whatever became of the others.
pub proof fn one_working_device_is_enough(
    config: EncoderConfig,
    probe: DeviceProbe,
    r: Result<(MfEncoder, EncoderKind), String>,
    k: int,
)
    requires
        probed(config, probe, r),
        probe.startup_error is None,
        probe.searched,
        0 <= k < probe.devices@.len(),
        probe.devices@[k].fault is None,
    ensures
        r matches Ok((encoder, kind)) && is_fresh(encoder, config) && preference(kind)
            <= preference(device_kind(probe.devices@[k].name)),
{
}

/// Where there is no encoder, the reason is told in its own words: why Media Foundation could not
/// be started, that nothing was found, or what is wrong with the first device.
pub proof fn a_missing_encoder_is_explained(
    config: EncoderConfig,
    probe: DeviceProbe,
    r: Result<(MfEncoder, EncoderKind), String>,
)
    requires
        probed(config, probe, r),
    ensures
        probe.startup_error matches Some(text) ==> (r matches Err(e) && e@ == text@),
        probe.startup_error is None && (!probe.searched || probe.devices@.len() == 0) ==> r is Err,
        r matches Err(e) ==> probe.startup_error is None && probe.searched && probe.devices@.len()
            > 0 ==> {
            &&& forall|k: int|
                0 <= k < probe.devices@.len() ==> (#[trigger] probe.devices@[k]).fault is Some
            &&& probe.devices@[0].fault matches Some(DeviceFault::SetUp(text)) ==> e@ == text@
            &&& probe.devices@[0].fault matches Some(DeviceFault::Null) ==> e@
                == "Null IMFActivate"@
        },
        r matches Ok((_, kind)) ==> exists|i: int|
            0 <= i < probe.devices@.len() && (#[trigger] probe.devices@[i]).fault is None && kind
                == device_kind(probe.devices@[i].name),
{
    if probe.startup_error is None && probe.searched && probe.devices@.len() > 0 && r is Ok {
        let i = choose|i: int| #[trigger]
            is_pick(probe.devices@, i) && r->Ok_0.1 == device_kind(probe.devices@[i].name);
        assert(probe.devices@[i].fault is None);
    }
}

/// A device with a fault is passed over: once the one that was picked has turned out to be of no
/// use, another is picked, and the rest stay as they were.
pub proof fn a_device_of_no_use_is_passed_over(
    before: Seq<FoundDevice>,
    after: Seq<FoundDevice>,
    i: int,
    j: int,
)
    requires
        is_pick(before, i),
        after == before.update(i, after[i]),
        after[i].fault is Some,
        is_pick(after, j),
    ensures
        i != j,
        preference(device_kind(before[i].name)) <= preference(device_kind(before[j].name)),
{
    assert(after[j] == before[j]);
}

/// Slots that the transform has offered so far and that were not lost: those in store, those that
/// frames have used, and the one of the frame being submitted.
pub open spec fn slots(encoder: MfEncoder) -> int {
    encoder.pending_need_input + encoder.sample_count + if encoder.phase is Submitting {
        1int
    } else {
        0int
    }
}

/// The event offers a slot for a frame.
pub open spec fn offers_slot(encoder: MfEncoder, event: MfEvent) -> bool {
    &&& event == MfEvent::Signal(Signal::NeedInput)
    &&& encoder.phase is AwaitingInput || encoder.phase is Draining
}

/// A step keeps the books on slots: each offer adds one, and one is lost only where the transform
/// refuses the frame that was to use it.
pub proof fn step_keeps_slots(before: MfEncoder, event: MfEvent, after: MfEncoder, action: MfAction)
    requires
        answers(before.phase, event),
        mf_step(before, event, after, action),
    ensures
        slots(after) == slots(before) + (if offers_slot(before, event) {
            1int
        } else if before.phase is Submitting && event is Failed {
            -1int
        } else {
            0int
        }),
        event is Submitted ==> before.phase is Submitting,
        after.sample_count == before.sample_count + (if event is Submitted {
            1int
        } else {
            0int
        }),
{
}

/// A call is opened: nothing is counted.
pub open spec fn opens(before: MfEncoder, after: MfEncoder) -> bool {
    &&& before.phase is Idle
    &&& after.phase is Building || after.phase is StartingDrain
    &&& after.sample_count == before.sample_count
    &&& after.pending_need_input == before.pending_need_input
}

/// `states` is what an encoder goes through: at each place either a call is opened (`None`) or a
/// step is taken.
pub open spec fn is_run(
    states: Seq<MfEncoder>,
    events: Seq<Option<MfEvent>>,
    actions: Seq<MfAction>,
) -> bool {
    &&& states.len() == events.len() + 1
    &&& actions.len() == events.len()
    &&& forall|i: int|
        #![trigger events[i]]
        0 <= i < events.len() ==> match events[i] {
            None => opens(states[i], states[i + 1]),
            Some(event) => answers(states[i].phase, event) && mf_step(
                states[i],
                event,
                states[i + 1],
                actions[i],
            ),
        }
}

/// How many slots were offered in the first `n` places of a run.
pub open spec fn offered(states: Seq<MfEncoder>, events: Seq<Option<MfEvent>>, n: int) -> int
    decreases n,
{
    if n <= 0 {
        0
    } else {
        offered(states, events, n - 1) + match events[n - 1] {
            Some(event) => if offers_slot(states[n - 1], event) {
                1int
            } else {
                0int
            },
            None => 0int,
        }
    }
}

/// The transform never gets more frames than it has asked for: in every run of a fresh encoder,
/// frames taken and slots in store are no more than the slots offered.
pub proof fn frames_wait_for_slots(
    states: Seq<MfEncoder>,
    events: Seq<Option<MfEvent>>,
    actions: Seq<MfAction>,
    n: int,
)
    requires
        is_run(states, events, actions),
        states[0].phase is Idle,
        states[0].sample_count == 0,
        states[0].pending_need_input == 0,
        0 <= n <= events.len(),
    ensures
        states[n].sample_count + states[n].pending_need_input <= slots(states[n]) <= offered(
            states,
            events,
            n,
        ),
    decreases n,
{
    if n > 0 {
        frames_wait_for_slots(states, events, actions, n - 1);
        match events[n - 1] {
            None => {},
            Some(event) => {
                step_keeps_slots(states[n - 1], event, states[n], actions[n - 1]);
            },
        }
    }
}

/// Every packet's flag says whether its bytes hold an IDR slice.
pub open spec fn flags_are_true(packets: Seq<PacketView>) -> bool {
    forall|i: int|
        0 <= i < packets.len() ==> (#[trigger] packets[i]).is_keyframe == has_idr(packets[i].data)
}

/// The flags of packets stay true through every step, and so hold of what a call gives.
pub proof fn step_keeps_flags_true(
    before: MfEncoder,
    event: MfEvent,
    after: MfEncoder,
    action: MfAction,
)
    requires
        answers(before.phase, event),
        mf_step(before, event, after, action),
        flags_are_true(packet_views(before.packets@)),
    ensures
        flags_are_true(packet_views(after.packets@)),
        action matches MfAction::Finish(Ok(packets)) ==> flags_are_true(packet_views(packets@)),
{
}

// ---- What a call gives ----

/// A frame keeps its time on the way through the transform: a packet whose output carries the time
/// that its frame was given has the time of the frame, to the microsecond.
pub proof fn time_survives_the_transform(pts_us: u64, hint: u64, data: Vec<u8>)
    requires
        pts_us * 10 <= u64::MAX,
    ensures
        ({
            let time = signed64(pts_us * 10);
            &&& i64::MIN <= time <= i64::MAX
            &&& output_packet(
                OutputSample { data, sample_time: Some(time as i64) },
                hint,
            ).pts_us == pts_us
        }),
{
}

/// A packet holds the very bytes of its output, and its flag tells whether they hold an IDR slice.
/// Its time is that of the output, counted in microseconds; where the output has none, it is the
/// one that is given for it.
pub proof fn packets_hold_their_output(sample: OutputSample, hint: u64)
    ensures
        output_packet(sample, hint).data == sample.data@,
        output_packet(sample, hint).is_keyframe == has_idr(sample.data@),
        sample.sample_time matches Some(t) ==> t >= 0 ==> output_packet(sample, hint).pts_us == t
            as int / 10,
        sample.sample_time is None ==> output_packet(sample, hint).pts_us == hint,
{
}

/// A call of an encoder: opened without packets, for a frame or for a flush, and then driven on by
/// what the calls on the transform gave.
pub open spec fn is_call(
    states: Seq<MfEncoder>,
    events: Seq<MfEvent>,
    actions: Seq<MfAction>,
) -> bool {
    &&& states.len() == events.len() + 1
    &&& actions.len() == events.len()
    &&& states[0].phase is Building || states[0].phase is StartingDrain
    &&& states[0].packets@.len() == 0
    &&& forall|i: int|
        #![trigger events[i]]
        0 <= i < events.len() ==> answers(states[i].phase, events[i]) && mf_step(
            states[i],
            events[i],
            states[i + 1],
            actions[i],
        )
}

/// The output that events bring, in order.
pub open spec fn outputs_in(events: Seq<MfEvent>) -> Seq<OutputSample> {
    events.filter_map(
        |e: MfEvent|
            match e {
                MfEvent::Output(Some(sample)) => Some(sample),
                _ => None,
            },
    )
}

/// `packets` are those of `samples`, one for one: the same bytes, and the same times where there
/// are any.
pub open spec fn are_packets_of(packets: Seq<PacketView>, samples: Seq<OutputSample>) -> bool {
    &&& packets.len() == samples.len()
    &&& forall|k: int|
        0 <= k < packets.len() ==> {
            &&& (#[trigger] packets[k]).data == samples[k].data@
            &&& packets[k].is_keyframe == has_idr(samples[k].data@)
            &&& samples[k].sample_time matches Some(t) ==> t >= 0 ==> packets[k].pts_us == t as int
                / 10
        }
}

/// Whether a phase belongs to the encoding of a frame, before or after it was submitted.
spec fn belongs_to_frame(phase: MfPhase) -> bool {
    phase is Building || phase is AwaitingInput || phase is PullingEarly || phase is Submitting
        || phase is Draining || phase is PullingLate
}

/// How often a frame was submitted by the time a call is in this phase.
spec fn submitted_by(phase: MfPhase) -> int {
    if phase is Draining || phase is PullingLate {
        1
    } else {
        0
    }
}

/// Up to place `n` of a call that is still open, the packets are those of all output so far.
proof fn lemma_call_collects(
    states: Seq<MfEncoder>,
    events: Seq<MfEvent>,
    actions: Seq<MfAction>,
    n: int,
)
    requires
        is_call(states, events, actions),
        0 <= n <= events.len(),
        states[n].phase !is Idle,
    ensures
        are_packets_of(packet_views(states[n].packets@), outputs_in(events.take(n))),
        belongs_to_frame(states[n].phase) <==> states[0].phase is Building,
        events.take(n).filter(|e: MfEvent| e is Submitted).len() == submitted_by(states[n].phase),
    decreases n,
{
    reveal(Seq::filter);
    let before = events.take(n);
    if n == 0 {
        assert(before =~= seq![]);
        assert(packet_views(states[0].packets@) =~= seq![]);
    } else {
        assert(answers(states[n - 1].phase, events[n - 1]));
        assert(mf_step(states[n - 1], events[n - 1], states[n], actions[n - 1]));
        lemma_call_collects(states, events, actions, n - 1);
        assert(before.drop_last() =~= events.take(n - 1));
        assert(before.last() == events[n - 1]);
        let old = packet_views(states[n - 1].packets@);
        match events[n - 1] {
            MfEvent::Output(Some(sample)) => {
                let hint = if states[n - 1].phase is PullingLate {
                    states[n - 1].pts_us
                } else {
                    0
                };
                packets_hold_their_output(sample, hint);
                assert(packet_views(states[n].packets@) == old.push(output_packet(sample, hint)));
                assert(outputs_in(before) =~= outputs_in(events.take(n - 1)).push(sample));
            },
            _ => {
                assert(packet_views(states[n].packets@) == old);
                assert(outputs_in(before) =~= outputs_in(events.take(n - 1)));
            },
        }
    }
}

/// A call gives all output that came during it, in order, byte for byte, and nothing else. A call
/// for a frame that succeeds has submitted the frame exactly once, and a flush submits nothing.
pub proof fn a_call_gives_all_its_output(
    states: Seq<MfEncoder>,
    events: Seq<MfEvent>,
    actions: Seq<MfAction>,
    n: int,
)
    requires
        is_call(states, events, actions),
        0 <= n < events.len(),
        actions[n] is Finish,
    ensures
        n == events.len() - 1,
        actions[n] matches MfAction::Finish(Ok(packets)) ==> {
            &&& are_packets_of(packet_views(packets@), outputs_in(events))
            &&& events.filter(|e: MfEvent| e is Submitted).len() == (if states[0].phase
                is Building {
                1int
            } else {
                0int
            })
        },
{
    reveal(Seq::filter);
    assert(answers(states[n].phase, events[n]));
    assert(mf_step(states[n], events[n], states[n + 1], actions[n]));
    if n + 1 < events.len() {
        assert(answers(states[n + 1].phase, events[n + 1]));
    }
    lemma_call_collects(states, events, actions, n);
    assert(events.drop_last() =~= events.take(n));
    assert(events.last() == events[n]);
    assert(outputs_in(events) =~= outputs_in(events.take(n)));
}

/// All output is fetched: whenever the transform says that it has some, the encoder asks for it,
/// and then for the next event.
pub proof fn every_output_is_fetched(
    before: MfEncoder,
    event: MfEvent,
    after: MfEncoder,
    action: MfAction,
)
    requires
        answers(before.phase, event),
        mf_step(before, event, after, action),
    ensures
        event == MfEvent::Signal(Signal::HaveOutput) <==> action is PullOutput,
        event is Output ==> (action is PollEvent <==> before.phase is PullingLate) && (action
            is WaitEvent <==> before.phase !is PullingLate),
        event matches MfEvent::OutputFailed { code, .. } ==> (code == 0xC00D_6D72 <==> action
            !is Finish),
        event == MfEvent::Output(None) ==> packet_views(after.packets@) == packet_views(
            before.packets@,
        ),
{
}

/// Events that say nothing to the encoder are passed over, and it asks for the next one.
pub proof fn other_events_are_passed_over(
    before: MfEncoder,
    signal: Signal,
    after: MfEncoder,
    action: MfAction,
)
    requires
        answers(before.phase, MfEvent::Signal(signal)),
        mf_step(before, MfEvent::Signal(signal), after, action),
        signal is Other || (signal is DrainComplete && before.phase !is Flushing) || (signal
            is NeedInput && before.phase is Flushing),
    ensures
        after.phase == before.phase,
        after.pending_need_input == before.pending_need_input,
        after.sample_count == before.sample_count,
        packet_views(after.packets@) == packet_views(before.packets@),
        before.phase is Draining ==> action is PollEvent,
        before.phase !is Draining ==> action is WaitEvent,
{
}

/// A flush tells the transform that the stream ends, and then waits for what it held back; it
/// begins without packets and changes neither the settings nor the counts.
pub proof fn a_flush_asks_for_what_is_held_back(
    idle: MfEncoder,
    opened: MfEncoder,
    start: MfAction,
    waiting: MfEncoder,
    wait: MfAction,
)
    requires
        flush_opens(idle, opened, start),
        mf_step(opened, MfEvent::DrainStarted, waiting, wait),
    ensures
        start is StartDrain,
        answers(opened.phase, MfEvent::DrainStarted),
        wait is WaitEvent,
        answers(waiting.phase, MfEvent::Signal(Signal::HaveOutput)),
        answers(waiting.phase, MfEvent::Signal(Signal::DrainComplete)),
        packet_views(waiting.packets@).len() == 0,
        waiting.config == idle.config,
        waiting.sample_count == idle.sample_count,
        waiting.pending_need_input == idle.pending_need_input,
{
}

/// Output without a time of its own that follows a frame has the time of that frame; other output
/// without a time has the time 0.
pub proof fn untimed_output_goes_with_its_frame(
    before: MfEncoder,
    sample: OutputSample,
    after: MfEncoder,
    action: MfAction,
)
    requires
        answers(before.phase, MfEvent::Output(Some(sample))),
        mf_step(before, MfEvent::Output(Some(sample)), after, action),
        sample.sample_time is None,
    ensures
        packet_views(after.packets@).len() == packet_views(before.packets@).len() + 1,
        packet_views(after.packets@).last().pts_us == (if before.phase is PullingLate {
            before.pts_us
        } else {
            0
        }),
{
}

/// A slot is used as soon as there is a frame for it: one in store when the sample is built, and
/// otherwise the next one that is offered. Without one the frame waits, and a frame is submitted
/// in no other way.
pub proof fn a_slot_is_used_at_once(
    before: MfEncoder,
    event: MfEvent,
    after: MfEncoder,
    action: MfAction,
)
    requires
        answers(before.phase, event),
        mf_step(before, event, after, action),
    ensures
        event is Built && before.pending_need_input > 0 ==> action is Submit
            && after.pending_need_input == before.pending_need_input - 1,
        event is Built && before.pending_need_input == 0 ==> action is WaitEvent,
        before.phase is AwaitingInput && event == MfEvent::Signal(Signal::NeedInput) ==> action
            is Submit && after.pending_need_input == before.pending_need_input,
        before.phase is Draining && event == MfEvent::Signal(Signal::NeedInput) ==> action
            is PollEvent && after.pending_need_input == before.pending_need_input + 1,
        action is Submit ==> event is Built || (before.phase is AwaitingInput && event
            == MfEvent::Signal(Signal::NeedInput)),
        event is Submitted || event is DrainStarted ==> action is PollEvent || action is WaitEvent,
        event is Submitted ==> action is PollEvent,
{
}

/// A call succeeds when there is nothing left to wait for, and not before: for a frame, once it
/// was submitted and the queue of events is empty; for a flush, once the transform says that
/// everything is out. It fails when a call on the transform fails, in its words.
pub proof fn a_call_ends_when_all_is_out(
    before: MfEncoder,
    event: MfEvent,
    after: MfEncoder,
    action: MfAction,
)
    requires
        answers(before.phase, event),
        mf_step(before, event, after, action),
    ensures
        action matches MfAction::Finish(Ok(_)) <==> {
            ||| before.phase is Draining && (event matches MfEvent::PollFailed { code, .. } && code
                == 0xC00D_3E80)
            ||| before.phase is Flushing && event == MfEvent::Signal(Signal::DrainComplete)
        },
        action matches MfAction::Finish(Err(_)) <==> {
            ||| event is Failed
            ||| event is WaitFailed
            ||| (event matches MfEvent::PollFailed { code, .. } && code != 0xC00D_3E80)
            ||| (event matches MfEvent::OutputFailed { code, .. } && code != 0xC00D_6D72)
        },
        action matches MfAction::Finish(Err(e)) ==> match event {
            MfEvent::Failed(text) => e@ == text@,
            MfEvent::PollFailed { text, .. } => e@ == "GetEvent (drain): "@ + text@,
            MfEvent::OutputFailed { text, .. } => e@ == "ProcessOutput: "@ + text@,
            _ => before.phase is AwaitingInput && e@ == "GetEvent (await NeedInput)"@
                || before.phase is Flushing && e@ == "GetEvent (flush)"@,
        },
        action is Finish <==> after.phase is Idle,
        after.config == before.config,
        after.pts_us == before.pts_us,
{
}

/// A frame is handed over as it is: its sample shows its pixels, luma first, at its own time in
/// units of 100 ns and for as long as a frame lasts; and the encoder keeps its settings.
pub proof fn a_frame_is_handed_over_as_it_is(
    before: MfEncoder,
    frame: VideoFrame,
    after: MfEncoder,
    action: MfAction,
    x: int,
    y: int,
)
    requires
        encode_opens(before, frame, after, action),
        before.config.fps > 0,
        frame.pts_us * 10 <= i64::MAX,
        0 <= x < frame.width,
        0 <= y < frame.height,
    ensures
        action matches MfAction::BuildSample(sample) && {
            let at = 4 * (y * frame.width + x);
            let (b, g, r) = (frame.data@[at], frame.data@[at + 1], frame.data@[at + 2]);
            &&& sample.time_100ns == frame.pts_us * 10
            &&& before.config.fps * sample.duration_100ns <= 10_000_000 < before.config.fps * (
            sample.duration_100ns + 1)
            &&& 0 <= y * frame.width + x < sample.nv12@.len()
            &&& sample.nv12@[y * frame.width + x] == (66 * r + 129 * g + 25 * b + 128) / 256 + 16
        },
        after.config == before.config,
        after.pts_us == frame.pts_us,
        after.packets@.len() == 0,
{
    luma_shows_every_pixel(frame.data@, frame.width as int, frame.height as int, x, y);
    let fps = before.config.fps as int;
    vstd::arithmetic::div_mod::lemma_fundamental_div_mod(10_000_000, fps);
    vstd::arithmetic::div_mod::lemma_mod_bound(10_000_000, fps);
    let d = 10_000_000int / fps;
    assert(fps * (d + 1) == fps * d + fps) by (nonlinear_arith);
}

} // verus!
