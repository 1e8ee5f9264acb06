//! Audio on Windows: the wave format, and the loop that turns captured samples into packets.
//!
//! A sample is an IEEE 754 number of 32 bits; here it is carried as those bits.
use std::sync::Arc;
use vstd::prelude::*;

use crate::audio::{AudioPacket, PACKET_US};
use crate::text::{decimal_int, decimal_int_text};

verus! {

pub const TARGET_SAMPLE_RATE: u32 = 48_000;

pub const TARGET_CHANNELS: u16 = 2;

/// 128 kbit/s.
pub const OPUS_BITRATE_BPS: i32 = 128_000;

/// Samples of one channel in a packet of 20 ms.
pub const SAMPLES_PER_FRAME: usize = 960;

/// Samples of both channels in a packet.
pub const FRAME_SAMPLES: usize = 1920;

/// The flag of a captured buffer that says that it is silent, whatever it holds.
pub const BUFFERFLAGS_SILENT: u32 = 0x2;

/// A wave format.
#[derive(Debug, Clone, Copy, PartialEq, Eq, Structural)]
pub struct WaveFormat {
    pub format_tag: u16,
    pub channels: u16,
    pub samples_per_sec: u32,
    pub avg_bytes_per_sec: u32,
    pub block_align: u16,
    pub bits_per_sample: u16,
    /// How many bytes follow the fields of the plain format.
    pub extension_size: u16,
    pub valid_bits_per_sample: u16,
    /// Front left and front right.
    pub channel_mask: u32,
    /// What a sample is, as a GUID.
    pub sub_format: u128,
}

/// The tag of a format that is described by a GUID.
pub const FORMAT_EXTENSIBLE: u16 = 0xFFFE;

/// The GUID of samples that are IEEE 754 numbers.
pub const SUBFORMAT_IEEE_FLOAT: u128 = 0x00000003_0000_0010_8000_00AA00389B71;

/// The format of 48 kHz, two channels and 32-bit floats: a block holds one sample of each
/// channel, and a second holds as many blocks as there are samples.
pub fn build_f32_wave_format() -> (f: WaveFormat)
    ensures
        f.format_tag == FORMAT_EXTENSIBLE,
        f.sub_format == SUBFORMAT_IEEE_FLOAT,
        // Valid bits, channel mask and GUID.
        f.extension_size == 2 + 4 + 16,
        f.channels == 2,
        f.samples_per_sec == 48_000,
        f.bits_per_sample == 32,
        f.valid_bits_per_sample == 32,
        f.block_align == f.channels * f.bits_per_sample / 8,
        f.avg_bytes_per_sec == f.samples_per_sec * f.block_align,
        f.channel_mask == 3,
{
    WaveFormat {
        format_tag: FORMAT_EXTENSIBLE,
        extension_size: 22,
        sub_format: SUBFORMAT_IEEE_FLOAT,
        channels: TARGET_CHANNELS,
        samples_per_sec: TARGET_SAMPLE_RATE,
        avg_bytes_per_sec: TARGET_SAMPLE_RATE * 8,
        block_align: TARGET_CHANNELS * 4,
        bits_per_sample: 32,
        valid_bits_per_sample: 32,
        channel_mask: 0x3,
    }
}

/// Whether the device's own format can be used as it is; otherwise the wanted one is asked for.
pub fn is_native_format(samples_per_sec: u32, channels: u16) -> (r: bool)
    ensures
        r == (samples_per_sec == 48_000 && channels == 2),
{
    samples_per_sec == TARGET_SAMPLE_RATE && channels == TARGET_CHANNELS
}

/// The code with which the Opus library reports success.
pub const OPUS_OK: i32 = 0;

/// The outcome of creating an Opus encoder, from its error code and whether there is one.
pub fn opus_created(error: i32, is_null: bool) -> (r: Result<(), String>)
    ensures
        if error != 0 || is_null {
            r matches Err(e) && e@ == "opus_encoder_create failed with code "@ + decimal_int(
                error as int,
            )
        } else {
            r is Ok
        },
{
    if error != OPUS_OK || is_null {
        Err(
            "opus_encoder_create failed with code ".to_string().concat(
                decimal_int_text(error as i64).as_str(),
            ),
        )
    } else {
        Ok(())
    }
}

/// The outcome of setting the bitrate, from its code.
pub fn opus_bitrate_set(code: i32) -> (r: Result<(), String>)
    ensures
        if code != 0 {
            r matches Err(e) && e@ == "OPUS_SET_BITRATE failed with code "@ + decimal_int(
                code as int,
            )
        } else {
            r is Ok
        },
{
    if code != OPUS_OK {
        Err(
            "OPUS_SET_BITRATE failed with code ".to_string().concat(
                decimal_int_text(code as i64).as_str(),
            ),
        )
    } else {
        Ok(())
    }
}

/// The outcome of encoding: how many bytes were written, or the error.
pub fn opus_encoded(code: i32) -> (r: Result<usize, String>)
    ensures
        if code < 0 {
            r matches Err(e) && e@ == "opus_encode_float error "@ + decimal_int(code as int)
        } else {
            r matches Ok(len) && len == code
        },
{
    if code < 0 {
        Err(
            "opus_encode_float error ".to_string().concat(decimal_int_text(code as i64).as_str()),
        )
    } else {
        Ok(code as usize)
    }
}

/// The outcome of starting the capture, from the report of its thread; there is none where the
/// thread died.
pub fn start_wasapi_capture(ready: Option<Result<(), String>>) -> (r: Result<(), String>)
    ensures
        match ready {
            Some(report) => r == report,
            None => r matches Err(e) && e@ == "WASAPI thread panicked before signalling ready"@,
        },
{
    match ready {
        Some(report) => report,
        None => Err("WASAPI thread panicked before signalling ready".to_string()),
    }
}

/// The loop that turns samples into packets.
pub struct AudioLoop {
    /// Samples of both channels, in turn, that wait for a full packet.
    pub samples: Vec<u32>,
    /// The time of the next packet.
    pub pts_us: u64,
}

/// What the loop has just seen.
pub enum AudioEvent {
    /// The wait for captured audio is over; it came, or it did not.
    Waited { signaled: bool },
    /// A captured buffer: its frames of one sample per channel, its flags and its samples.
    Buffer { num_frames: u32, flags: u32, samples: Vec<u32> },
    /// There is no buffer.
    BufferFailed,
    /// A packet was encoded; it is empty where there is nothing to send.
    Encoded(Vec<u8>),
    /// A packet could not be encoded.
    EncodeFailed,
    /// The packet was sent.
    Sent,
    /// Nobody takes packets any more.
    ReceiverGone,
}

/// What the loop does next.
pub enum AudioAction {
    /// Wait for captured audio.
    Wait,
    /// Fetch the next captured buffer.
    GetBuffer,
    /// Encode one packet of these samples.
    Encode(Vec<u32>),
    /// Send the packet.
    Send(AudioPacket),
    /// Stop the capture.
    Exit,
}

/// A buffer with these flags is silent.
pub open spec fn is_silent(flags: u32) -> bool {
    flags & BUFFERFLAGS_SILENT != 0
}

/// The samples that a captured buffer stands for: zeros where it is silent.
pub open spec fn heard(num_frames: u32, flags: u32, samples: Seq<u32>) -> Seq<u32> {
    if is_silent(flags) {
        Seq::new((2 * num_frames) as nat, |i: int| 0u32)
    } else {
        samples
    }
}

/// The first full packet of the waiting samples is encoded; where there is none, the next buffer
/// is fetched.
pub open spec fn goes_on(
    waiting: Seq<u32>,
    pts_us: int,
    after: AudioLoop,
    action: AudioAction,
) -> bool {
    &&& after.pts_us == pts_us
    &&& if waiting.len() >= FRAME_SAMPLES {
        &&& action matches AudioAction::Encode(frame)
        &&& frame@ == waiting.take(FRAME_SAMPLES as int)
        &&& after.samples@ == waiting.skip(FRAME_SAMPLES as int)
    } else {
        &&& action is GetBuffer
        &&& after.samples@ == waiting
    }
}

/// One step of the loop: samples are collected until there is a packet of them, and the time goes
/// on with each packet that was sent.
pub open spec fn audio_step(
    before: AudioLoop,
    event: AudioEvent,
    after: AudioLoop,
    action: AudioAction,
) -> bool {
    match event {
        AudioEvent::Waited { signaled } => after == before && if signaled {
            action is GetBuffer
        } else {
            action is Wait
        },
        AudioEvent::Buffer { num_frames, flags, samples } => if num_frames == 0 {
            after == before && action is Wait
        } else {
            goes_on(
                before.samples@ + heard(num_frames, flags, samples@),
                before.pts_us as int,
                after,
                action,
            )
        },
        AudioEvent::BufferFailed => after == before && action is Wait,
        AudioEvent::Encoded(data) => if data@.len() > 0 {
            &&& after == before
            &&& action matches AudioAction::Send(packet)
            &&& packet.data@ == data@
            &&& packet.pts_us == before.pts_us
            &&& packet.duration_us == PACKET_US
        } else {
            goes_on(before.samples@, before.pts_us as int, after, action)
        },
        AudioEvent::EncodeFailed => goes_on(before.samples@, before.pts_us as int, after, action),
        AudioEvent::Sent => goes_on(before.samples@, before.pts_us + PACKET_US, after, action),
        AudioEvent::ReceiverGone => after == before && action is Exit,
    }
}

impl AudioLoop {
    /// A loop without samples, at time 0.
    pub fn new() -> (l: Self)
        ensures
            l.samples@.len() == 0,
            l.pts_us == 0,
    {
        AudioLoop { samples: Vec::new(), pts_us: 0 }
    }

    fn go_on(&mut self) -> (action: AudioAction)
        ensures
            goes_on(old(self).samples@, old(self).pts_us as int, *final(self), action),
    {
        if self.samples.len() >= FRAME_SAMPLES {
            let mut rest = self.samples.split_off(FRAME_SAMPLES);
            std::mem::swap(&mut rest, &mut self.samples);
            assert(rest@ =~= old(self).samples@.take(FRAME_SAMPLES as int));
            assert(self.samples@ =~= old(self).samples@.skip(FRAME_SAMPLES as int));
            AudioAction::Encode(rest)
        } else {
            AudioAction::GetBuffer
        }
    }

    fn collect(&mut self, num_frames: u32, flags: u32, samples: Vec<u32>)
        requires
            is_silent(flags) || samples@.len() == 2 * num_frames,
        ensures
            final(self).samples@ == old(self).samples@ + heard(num_frames, flags, samples@),
            final(self).pts_us == old(self).pts_us,
    {
        if flags & BUFFERFLAGS_SILENT != 0 {
            let total: u64 = 2 * num_frames as u64;
            let mut i: u64 = 0;
            while i < total
                invariant
                    i <= total,
                    self.samples@ == old(self).samples@ + Seq::new(i as nat, |j: int| 0u32),
                    self.pts_us == old(self).pts_us,
                decreases total - i,
            {
                self.samples.push(0);
                i += 1;
                assert(self.samples@ =~= old(self).samples@ + Seq::new(i as nat, |j: int| 0u32));
            }
        } else {
            let mut more = samples;
            self.samples.append(&mut more);
        }
    }

    /// Takes one step of the loop.
    pub fn step(&mut self, event: AudioEvent) -> (action: AudioAction)
        requires
            event matches AudioEvent::Buffer { num_frames, flags, samples } ==> is_silent(flags)
                || samples@.len() == 2 * num_frames,
            event is Sent ==> old(self).pts_us + PACKET_US <= u64::MAX,
        ensures
            audio_step(*old(self), event, *final(self), action),
    {
        match event {
            AudioEvent::Waited { signaled } => if signaled {
                AudioAction::GetBuffer
            } else {
                AudioAction::Wait
            },
            AudioEvent::Buffer { num_frames, flags, samples } => if num_frames == 0 {
                AudioAction::Wait
            } else {
                self.collect(num_frames, flags, samples);
                self.go_on()
            },
            AudioEvent::BufferFailed => AudioAction::Wait,
            AudioEvent::Encoded(data) => if data.len() > 0 {
                AudioAction::Send(
                    AudioPacket {
                        data: Arc::new(data),
                        pts_us: self.pts_us,
                        duration_us: PACKET_US,
                    },
                )
            } else {
                self.go_on()
            },
            AudioEvent::EncodeFailed => self.go_on(),
            AudioEvent::Sent => {
                self.pts_us = self.pts_us + PACKET_US;
                self.go_on()
            },
            AudioEvent::ReceiverGone => AudioAction::Exit,
        }
    }
}

/// The samples that an event brings.
pub open spec fn brought(event: AudioEvent) -> Seq<u32> {
    match event {
        AudioEvent::Buffer { num_frames, flags, samples } => if num_frames == 0 {
            seq![]
        } else if flags & 0x2 != 0 {
            Seq::new((2 * num_frames) as nat, |i: int| 0u32)
        } else {
            samples@
        },
        _ => seq![],
    }
}

/// The samples that an action hands to the encoder.
pub open spec fn handed_on(action: AudioAction) -> Seq<u32> {
    match action {
        AudioAction::Encode(frame) => frame@,
        _ => seq![],
    }
}

/// No sample is lost, doubled or moved: what a step hands to the encoder and what it leaves
/// waiting is, in order, what waited before and what the event brought; and packets are always
/// full.
pub proof fn samples_stay_in_order(
    before: AudioLoop,
    event: AudioEvent,
    after: AudioLoop,
    action: AudioAction,
)
    requires
        audio_step(before, event, after, action),
    ensures
        handed_on(action) + after.samples@ == before.samples@ + brought(event),
        action matches AudioAction::Encode(frame) ==> frame@.len() == FRAME_SAMPLES,
{
    assert(handed_on(action) + after.samples@ =~= before.samples@ + brought(event));
}

/// Sound is passed on bit for bit: where a buffer is not silent, what waits, after what is handed
/// to the encoder, grows by the very samples of the buffer; where it is silent, by a zero for
/// each of its samples, whatever it holds. Nothing else brings or takes samples.
pub proof fn sound_is_passed_on_bit_for_bit(
    before: AudioLoop,
    event: AudioEvent,
    after: AudioLoop,
    action: AudioAction,
)
    requires
        audio_step(before, event, after, action),
    ensures
        ({
            let out = match action {
                AudioAction::Encode(frame) => frame@ + after.samples@,
                _ => after.samples@,
            };
            match event {
                AudioEvent::Buffer { num_frames, flags, samples } if num_frames > 0 => {
                    &&& flags & 0x2 == 0 ==> out == before.samples@ + samples@
                    &&& flags & 0x2 != 0 ==> {
                        &&& out.len() == before.samples@.len() + 2 * num_frames
                        &&& out.take(before.samples@.len() as int) == before.samples@
                        &&& forall|i: int|
                            before.samples@.len() <= i < out.len() ==> #[trigger] out[i] == 0
                    }
                },
                _ => out == before.samples@,
            }
        }),
        action matches AudioAction::Encode(frame) ==> frame@.len() == 1920,
{
    let out = match action {
        AudioAction::Encode(frame) => frame@ + after.samples@,
        _ => after.samples@,
    };
    match event {
        AudioEvent::Buffer { num_frames, flags, samples } if num_frames > 0 => {
            assert(out =~= before.samples@ + heard(num_frames, flags, samples@));
            if flags & 0x2 != 0 {
                assert(out.take(before.samples@.len() as int) =~= before.samples@);
            }
        },
        _ => {
            assert(out =~= before.samples@);
        },
    }
}

/// The clock counts packets: it moves on by the length of a packet with each one that was sent,
/// and with nothing else, so that the packets that are sent follow each other without a gap.
pub proof fn time_goes_on_with_packets(
    before: AudioLoop,
    event: AudioEvent,
    after: AudioLoop,
    action: AudioAction,
)
    requires
        audio_step(before, event, after, action),
    ensures
        after.pts_us == before.pts_us + (if event is Sent {
            PACKET_US as int
        } else {
            0int
        }),
        action matches AudioAction::Send(packet) ==> packet.pts_us + packet.duration_us
            == before.pts_us + PACKET_US,
{
}

/// When captured audio is fetched or waited for, less than a packet of it waits here.
pub open spec fn is_settled(l: AudioLoop) -> bool {
    l.samples@.len() < FRAME_SAMPLES
}

/// Full packets do not pile up: whenever the loop turns to the device again it holds less than a
/// packet, given that it did so when it last turned to it.
pub proof fn full_packets_do_not_wait(
    before: AudioLoop,
    event: AudioEvent,
    after: AudioLoop,
    action: AudioAction,
)
    requires
        audio_step(before, event, after, action),
        event is Waited || event is Buffer || event is BufferFailed ==> is_settled(before),
    ensures
        action is GetBuffer || action is Wait ==> is_settled(after),
{
}

/// `event` tells what became of `action`.
pub open spec fn audio_follows(action: AudioAction, event: AudioEvent) -> bool {
    match action {
        AudioAction::Wait => event is Waited,
        AudioAction::GetBuffer => event is Buffer || event is BufferFailed,
        AudioAction::Encode(_) => event is Encoded || event is EncodeFailed,
        AudioAction::Send(_) => event is Sent || event is ReceiverGone,
        AudioAction::Exit => false,
    }
}

/// `states` and `actions` are a course that `events` make a loop take that [`AudioLoop::new`]
/// made; it begins with waiting for captured audio.
pub open spec fn is_audio_course(
    states: Seq<AudioLoop>,
    events: Seq<AudioEvent>,
    actions: Seq<AudioAction>,
) -> bool {
    &&& states.len() == events.len() + 1
    &&& actions.len() == events.len()
    &&& states[0].samples@.len() == 0
    &&& states[0].pts_us == 0
    &&& events.len() > 0 ==> events[0] is Waited
    &&& forall|i: int|
        #![trigger events[i]]
        0 <= i < events.len() ==> audio_step(states[i], events[i], states[i + 1], actions[i])
    &&& forall|i: int|
        #![trigger actions[i]]
        0 <= i < events.len() - 1 ==> audio_follows(actions[i], events[i + 1])
}

/// All samples that were captured, in order.
pub open spec fn captured(events: Seq<AudioEvent>) -> Seq<u32>
    decreases events.len(),
{
    if events.len() == 0 {
        seq![]
    } else {
        captured(events.drop_last()) + brought(events.last())
    }
}

/// The blocks of samples that were handed to the encoder, in order.
pub open spec fn blocks(actions: Seq<AudioAction>) -> Seq<Seq<u32>>
    decreases actions.len(),
{
    if actions.len() == 0 {
        seq![]
    } else {
        match actions.last() {
            AudioAction::Encode(frame) => blocks(actions.drop_last()).push(frame@),
            _ => blocks(actions.drop_last()),
        }
    }
}

/// The packets that were sent, in order.
pub open spec fn packets(actions: Seq<AudioAction>) -> Seq<AudioPacket>
    decreases actions.len(),
{
    if actions.len() == 0 {
        seq![]
    } else {
        match actions.last() {
            AudioAction::Send(packet) => packets(actions.drop_last()).push(packet),
            _ => packets(actions.drop_last()),
        }
    }
}

/// Where block `k` begins in what was captured.
pub open spec fn block_start(k: int) -> int {
    1920 * k
}

/// The first steps of a course are a course.
proof fn lemma_audio_prefix(
    states: Seq<AudioLoop>,
    events: Seq<AudioEvent>,
    actions: Seq<AudioAction>,
)
    requires
        is_audio_course(states, events, actions),
        events.len() > 0,
    ensures
        is_audio_course(states.drop_last(), events.drop_last(), actions.drop_last()),
{
    let t = states.drop_last();
    let e = events.drop_last();
    let a = actions.drop_last();
    assert forall|i: int| #![trigger e[i]] 0 <= i < e.len() implies audio_step(
        t[i],
        e[i],
        t[i + 1],
        a[i],
    ) by {
        assert(e[i] == events[i]);
    }
    assert forall|i: int| #![trigger a[i]] 0 <= i < e.len() - 1 implies audio_follows(
        a[i],
        e[i + 1],
    ) by {
        assert(a[i] == actions[i]);
        assert(e[i + 1] == events[i + 1]);
    }
    if e.len() > 0 {
        assert(e[0] == events[0]);
    }
}

/// Captured audio reaches the encoder as it came: block after block, each of a packet's length,
/// without a gap, an overlap or a change, from the first sample on; what is left waits. Whenever
/// the loop turns to the device, every full block has been handed on.
pub proof fn blocks_follow_each_other(
    states: Seq<AudioLoop>,
    events: Seq<AudioEvent>,
    actions: Seq<AudioAction>,
)
    requires
        is_audio_course(states, events, actions),
    ensures
        block_start(blocks(actions).len() as int) <= captured(events).len(),
        forall|k: int|
            0 <= k < blocks(actions).len() ==> #[trigger] blocks(actions)[k] == captured(
                events,
            ).subrange(block_start(k), block_start(k + 1)),
        states.last().samples@ == captured(events).skip(block_start(blocks(actions).len() as int)),
        actions.len() == 0 || actions.last() is Wait || actions.last() is GetBuffer ==> blocks(
            actions,
        ).len() == captured(events).len() / 1920,
    decreases events.len(),
{
    let all = captured(events);
    let done = blocks(actions);
    if events.len() == 0 {
        assert(states.last().samples@ =~= all.skip(0));
    } else {
        let n = events.len() - 1;
        let t = states.drop_last();
        let e = events.drop_last();
        let a = actions.drop_last();
        lemma_audio_prefix(states, events, actions);
        blocks_follow_each_other(t, e, a);
        assert(audio_step(states[n], events[n], states[n + 1], actions[n]));
        samples_stay_in_order(states[n], events[n], states[n + 1], actions[n]);
        if n > 0 {
            assert(audio_follows(actions[n - 1], events[n]));
            assert(a.last() == actions[n - 1]);
        }
        let old_all = captured(e);
        let old_done = blocks(a);
        let start = block_start(old_done.len() as int);
        assert(t.last() == states[n]);
        assert(all == old_all + brought(events[n]));
        assert(states[n].samples@ + brought(events[n]) =~= all.skip(start));
        assert forall|k: int| 0 <= k < old_done.len() implies old_done[k] == all.subrange(
            block_start(k),
            block_start(k + 1),
        ) by {
            assert(old_all.subrange(block_start(k), block_start(k + 1)) =~= all.subrange(
                block_start(k),
                block_start(k + 1),
            ));
        }
        match actions[n] {
            AudioAction::Encode(frame) => {
                assert(done == old_done.push(frame@));
                assert(frame@ + states[n + 1].samples@ == all.skip(start));
                assert(frame@ =~= all.skip(start).take(1920));
                assert(frame@ =~= all.subrange(start, start + 1920));
                assert(states[n + 1].samples@ =~= all.skip(start).skip(1920));
                assert(states[n + 1].samples@ =~= all.skip(start + 1920));
            },
            _ => {
                assert(done == old_done);
                assert(states[n + 1].samples@ =~= all.skip(start));
            },
        }
    }
}

/// The packets that are sent follow each other in time: packet `k` begins `k` packets' lengths
/// after the first, which begins at 0.
pub proof fn packets_follow_each_other(
    states: Seq<AudioLoop>,
    events: Seq<AudioEvent>,
    actions: Seq<AudioAction>,
)
    requires
        is_audio_course(states, events, actions),
    ensures
        forall|k: int|
            0 <= k < packets(actions).len() ==> (#[trigger] packets(actions)[k]).pts_us == 20_000
                * k && packets(actions)[k].duration_us == 20_000,
        actions.len() == 0 || !(actions.last() is Send || actions.last() is Exit)
            ==> states.last().pts_us == 20_000 * packets(actions).len(),
        actions.len() > 0 && actions.last() is Send ==> states.last().pts_us == 20_000 * (packets(
            actions,
        ).len() - 1),
    decreases events.len(),
{
    if events.len() > 0 {
        let n = events.len() - 1;
        lemma_audio_prefix(states, events, actions);
        packets_follow_each_other(states.drop_last(), events.drop_last(), actions.drop_last());
        assert(audio_step(states[n], events[n], states[n + 1], actions[n]));
        if n > 0 {
            assert(audio_follows(actions[n - 1], events[n]));
            assert(actions.drop_last().last() == actions[n - 1]);
        }
    }
}

/// Every packet is sent as the encoder made it: the packets that are sent hold, in order, what the
/// encoder gave, byte for byte, save for what was empty.
pub proof fn packets_carry_what_was_encoded(
    states: Seq<AudioLoop>,
    events: Seq<AudioEvent>,
    actions: Seq<AudioAction>,
)
    requires
        is_audio_course(states, events, actions),
    ensures
        packets(actions).map_values(|p: AudioPacket| p.data@) == events.filter_map(
            |e: AudioEvent|
                match e {
                    AudioEvent::Encoded(data) => if data@.len() > 0 {
                        Some(data@)
                    } else {
                        None
                    },
                    _ => None,
                },
        ),
    decreases events.len(),
{
    let data_of = |p: AudioPacket| p.data@;
    let made = |e: AudioEvent|
        match e {
            AudioEvent::Encoded(data) => if data@.len() > 0 {
                Some(data@)
            } else {
                None
            },
            _ => None,
        };
    if events.len() == 0 {
        assert(packets(actions).map_values(data_of) =~= events.filter_map(made));
    } else {
        let n = events.len() - 1;
        lemma_audio_prefix(states, events, actions);
        packets_carry_what_was_encoded(
            states.drop_last(),
            events.drop_last(),
            actions.drop_last(),
        );
        assert(audio_step(states[n], events[n], states[n + 1], actions[n]));
        assert(packets(actions).map_values(data_of) =~= events.filter_map(made));
    }
}

/// Every block that is handed to the encoder is answered for: its packet is sent before the next
/// block is handed over, or it could not be encoded, or there was nothing to send. The loop ends
/// only when nobody takes packets any more.
pub proof fn no_block_is_passed_over(
    states: Seq<AudioLoop>,
    events: Seq<AudioEvent>,
    actions: Seq<AudioAction>,
    i: int,
)
    requires
        is_audio_course(states, events, actions),
        0 <= i < events.len(),
    ensures
        events[i] matches AudioEvent::Encoded(data) ==> (data@.len() > 0 <==> actions[i] is Send),
        actions[i] is Send ==> events[i] is Encoded,
        actions[i] is Exit <==> events[i] is ReceiverGone,
        events[i] == (AudioEvent::Waited { signaled: true }) ==> actions[i] is GetBuffer,
        events[i] == (AudioEvent::Waited { signaled: false }) ==> actions[i] is Wait,
        events[i] is BufferFailed ==> actions[i] is Wait,
        events[i] matches AudioEvent::Buffer { num_frames, .. } ==> (num_frames == 0
            <==> actions[i] is Wait),
{
    assert(audio_step(states[i], events[i], states[i + 1], actions[i]));
}

} // verus!
