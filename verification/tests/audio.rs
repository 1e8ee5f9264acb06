use gameshare::audio::SilentSource;
use gameshare::audio_win::{
    build_f32_wave_format, is_native_format, opus_bitrate_set, opus_created, opus_encoded,
    start_wasapi_capture, AudioAction, AudioEvent, AudioLoop, FRAME_SAMPLES, OPUS_BITRATE_BPS,
    SAMPLES_PER_FRAME, TARGET_CHANNELS, TARGET_SAMPLE_RATE,
};

fn buffer(from: u32, num_frames: u32) -> AudioEvent {
    AudioEvent::Buffer { num_frames, flags: 0, samples: (from..from + 2 * num_frames).collect() }
}

fn encoded(action: AudioAction) -> Vec<u32> {
    match action {
        AudioAction::Encode(frame) => frame,
        _ => panic!("nothing to encode"),
    }
}

#[test]
fn silence_every_twenty_milliseconds() {
    let mut source = SilentSource::new();
    for n in 0..5u64 {
        let packet = source.next_packet();
        assert_eq!(*packet.data, vec![0xF8, 0xFF, 0xFE]);
        assert_eq!((packet.pts_us, packet.duration_us), (n * 20_000, 20_000));
    }
}

#[test]
fn wanted_format() {
    let f = build_f32_wave_format();
    assert_eq!((f.format_tag, f.extension_size), (0xFFFE, 22));
    assert_eq!(f.sub_format, 0x00000003_0000_0010_8000_00aa00389b71);
    assert_eq!((f.channels, f.samples_per_sec), (2, 48_000));
    assert_eq!((f.block_align, f.avg_bytes_per_sec), (8, 384_000));
    assert_eq!((f.bits_per_sample, f.valid_bits_per_sample, f.channel_mask), (32, 32, 3));
    assert_eq!((TARGET_SAMPLE_RATE, TARGET_CHANNELS, OPUS_BITRATE_BPS), (48_000, 2, 128_000));
    assert_eq!(SAMPLES_PER_FRAME * 2, FRAME_SAMPLES);
    assert!(is_native_format(48_000, 2));
    assert!(!is_native_format(44_100, 2));
    assert!(!is_native_format(48_000, 6));
}

#[test]
fn codes_of_the_opus_library() {
    assert_eq!(opus_created(0, false), Ok(()));
    assert_eq!(
        opus_created(-1, true),
        Err("opus_encoder_create failed with code -1".to_string())
    );
    assert_eq!(
        opus_created(0, true),
        Err("opus_encoder_create failed with code 0".to_string())
    );
    assert_eq!(opus_bitrate_set(0), Ok(()));
    assert_eq!(opus_bitrate_set(-5), Err("OPUS_SET_BITRATE failed with code -5".to_string()));
    assert_eq!(opus_encoded(0), Ok(0));
    assert_eq!(opus_encoded(317), Ok(317));
    assert_eq!(opus_encoded(-2), Err("opus_encode_float error -2".to_string()));
}

#[test]
fn report_of_the_capture_thread() {
    assert_eq!(start_wasapi_capture(Some(Ok(()))), Ok(()));
    assert_eq!(start_wasapi_capture(Some(Err("why".into()))), Err("why".to_string()));
    assert_eq!(
        start_wasapi_capture(None),
        Err("WASAPI thread panicked before signalling ready".to_string())
    );
}

#[test]
fn samples_become_full_packets_in_order() {
    let mut l = AudioLoop::new();
    assert!(matches!(l.step(AudioEvent::Waited { signaled: false }), AudioAction::Wait));
    assert!(matches!(l.step(AudioEvent::Waited { signaled: true }), AudioAction::GetBuffer));
    assert!(matches!(l.step(buffer(0, 480)), AudioAction::GetBuffer));
    // 3000 samples in all: one packet, and 1080 samples that wait.
    assert_eq!(encoded(l.step(buffer(960, 1020))), (0..1920).collect::<Vec<u32>>());
    assert_eq!(l.samples, (1920..3000).collect::<Vec<u32>>());
    match l.step(AudioEvent::Encoded(vec![1, 2, 3])) {
        AudioAction::Send(packet) => {
            assert_eq!(*packet.data, vec![1, 2, 3]);
            assert_eq!((packet.pts_us, packet.duration_us), (0, 20_000));
        }
        _ => unreachable!(),
    }
    assert!(matches!(l.step(AudioEvent::Sent), AudioAction::GetBuffer));
    assert_eq!(l.pts_us, 20_000);
    // Two packets at once.
    assert_eq!(encoded(l.step(buffer(3000, 1380))), (1920..3840).collect::<Vec<u32>>());
    assert_eq!(
        encoded(l.step(AudioEvent::EncodeFailed)),
        (3840..5760).collect::<Vec<u32>>()
    );
    assert_eq!(l.pts_us, 20_000);
    assert!(matches!(l.step(AudioEvent::Encoded(vec![])), AudioAction::GetBuffer));
    assert_eq!(l.pts_us, 20_000);
    assert!(l.samples.is_empty());
    assert!(matches!(l.step(buffer(0, 0)), AudioAction::Wait));
    assert!(matches!(l.step(AudioEvent::BufferFailed), AudioAction::Wait));
    assert!(matches!(l.step(AudioEvent::ReceiverGone), AudioAction::Exit));
}

#[test]
fn silent_buffers_are_zeros() {
    let mut l = AudioLoop::new();
    let silent = AudioEvent::Buffer { num_frames: 2, flags: 0x6, samples: vec![7, 7, 7, 7] };
    assert!(matches!(l.step(silent), AudioAction::GetBuffer));
    assert_eq!(l.samples, vec![0, 0, 0, 0]);
    let loud = AudioEvent::Buffer { num_frames: 1, flags: 0x5, samples: vec![7, 8] };
    assert!(matches!(l.step(loud), AudioAction::GetBuffer));
    assert_eq!(l.samples, vec![0, 0, 0, 0, 7, 8]);
}

#[test]
fn a_run_of_buffers_becomes_packets_that_follow_each_other() {
    let mut sizes = [700u32, 1, 5000, 0, 959, 960, 961, 3].into_iter();
    let mut total = 0;
    let mut blocks: Vec<Vec<u32>> = Vec::new();
    let mut times = Vec::new();
    let mut l = AudioLoop::new();
    let mut event = AudioEvent::Waited { signaled: true };
    loop {
        event = match l.step(event) {
            AudioAction::Wait => AudioEvent::Waited { signaled: true },
            AudioAction::GetBuffer => match sizes.next() {
                Some(n) => {
                    total += 2 * n;
                    buffer(total - 2 * n, n)
                }
                None => break,
            },
            AudioAction::Encode(block) => {
                blocks.push(block);
                // Every third packet cannot be encoded.
                match blocks.len() % 3 {
                    0 => AudioEvent::EncodeFailed,
                    _ => AudioEvent::Encoded(vec![1]),
                }
            }
            AudioAction::Send(packet) => {
                times.push(packet.pts_us);
                AudioEvent::Sent
            }
            AudioAction::Exit => unreachable!(),
        };
    }
    assert_eq!(blocks.len(), total as usize / 1920);
    assert!(blocks.iter().all(|block| block.len() == 1920));
    let mut all: Vec<u32> = blocks.concat();
    all.extend(&l.samples);
    assert_eq!(all, (0..total).collect::<Vec<u32>>());
    let sent = (blocks.len() - blocks.len() / 3) as u64;
    assert_eq!(times, (0..sent).map(|k| 20_000 * k).collect::<Vec<u64>>());
}
