use std::sync::Arc;

use gameshare::capture::{
    enumerate_sources, frame_interval_us, parse_source_id, start_capture, synthetic_frame,
    synthetic_session, CaptureMethod, CaptureSession, CaptureSource, CaptureStep, CaptureTarget,
    VideoFrame,
};
use gameshare::capture_win::{
    acquire_timeout_ms, capture_item_for_monitor, dxgi_monitor, enumerate_sources_win,
    frame_from_mapped, has_title, measured_sources_win, qpc_frequency, qpc_to_us, try_dxgi, try_wgc,
    window_to_source, DxgiAction, DxgiEvent, DxgiLoop, Rect, WgcAction, WgcEvent, WgcLoop,
    WindowInfo,
};
use gameshare::pixels::test_pattern;

fn rect(left: i32, top: i32, right: i32, bottom: i32) -> Rect {
    Rect { left, top, right, bottom }
}

fn window(hwnd: isize, title: &str, r: Rect) -> WindowInfo {
    WindowInfo { hwnd, visible: true, title: title.encode_utf16().collect(), rect: r }
}

fn small_frame() -> VideoFrame {
    VideoFrame { data: Arc::new(vec![1, 2, 3, 4]), width: 1, height: 1, pts_us: 9 }
}

#[test]
fn source_ids_name_targets() {
    assert_eq!(parse_source_id("monitor:0"), Ok(CaptureTarget::Monitor { index: 0 }));
    assert_eq!(
        parse_source_id("monitor:4294967295"),
        Ok(CaptureTarget::Monitor { index: u32::MAX })
    );
    assert_eq!(parse_source_id("window:-5"), Ok(CaptureTarget::Window { hwnd: -5 }));
    assert_eq!(parse_source_id("window:+65552"), Ok(CaptureTarget::Window { hwnd: 65552 }));
}

#[test]
fn bad_source_ids_are_refused() {
    let refused = [
        ("monitor:", "Invalid monitor index: monitor:"),
        ("monitor:-1", "Invalid monitor index: monitor:-1"),
        ("monitor:4294967296", "Invalid monitor index: monitor:4294967296"),
        ("window:fake1", "Invalid hwnd: window:fake1"),
        ("window:9223372036854775808", "Invalid hwnd: window:9223372036854775808"),
        ("Monitor:0", "Unknown source id format: Monitor:0"),
        ("", "Unknown source id format: "),
    ];
    for (id, words) in refused {
        assert_eq!(parse_source_id(id), Err(words.to_string()));
    }
}

#[test]
fn made_up_sources() {
    let sources = enumerate_sources();
    assert_eq!(sources.len(), 2);
    assert_eq!(sources[0].id, "monitor:0");
    assert_eq!(sources[0].name, "Primary Monitor (1920×1080)");
    assert_eq!(sources[0].kind, "monitor");
    assert_eq!((sources[0].hwnd, sources[0].monitor_index), (None, Some(0)));
    assert_eq!((sources[0].width, sources[0].height), (1920, 1080));
    assert_eq!(sources[1].id, "window:1");
    assert_eq!(sources[1].name, "Test Window — Synthetic");
    assert_eq!(sources[1].kind, "window");
    assert_eq!((sources[1].hwnd, sources[1].monitor_index), (None, None));
    assert_eq!((sources[1].width, sources[1].height), (1280, 720));
    assert!(sources.iter().all(|s| s.thumbnail_b64.is_none()));
    assert_eq!(parse_source_id(&sources[0].id), Ok(CaptureTarget::Monitor { index: 0 }));
    assert_eq!(parse_source_id(&sources[1].id), Ok(CaptureTarget::Window { hwnd: 1 }));
}

#[test]
fn frame_intervals() {
    assert_eq!(frame_interval_us(60), 16_666);
    assert_eq!(frame_interval_us(30), 33_333);
    assert_eq!(frame_interval_us(1), 1_000_000);
    assert_eq!(frame_interval_us(0), 1_000_000);
    assert_eq!(frame_interval_us(59), 16_949);
    for limit in [61, 144, 240, u32::MAX] {
        assert_eq!(frame_interval_us(limit), 16_666);
        assert_eq!(WgcLoop::new(limit).frame_us, 16_666);
    }
    assert_eq!(DxgiLoop::new().frame_us, 16_666);
}

#[test]
fn synthetic_capture() {
    let frame = synthetic_frame(40_000);
    assert_eq!((frame.width, frame.height, frame.pts_us), (1920, 1080, 40_000));
    assert!(*frame.data == test_pattern(40_000));
    let session = synthetic_session();
    assert_eq!(session.method, CaptureMethod::WindowsGraphicsCapture);
    assert_eq!((session.width, session.height), (1920, 1080));
}

#[test]
fn methods_have_names() {
    for method in [CaptureMethod::WindowsGraphicsCapture, CaptureMethod::DxgiDesktopDuplication] {
        assert_eq!(method.to_string(), format!("{method:?}"));
    }
}

#[test]
fn capture_falls_back_once() {
    let session = |method| CaptureSession { method, width: 3, height: 2 };
    let wgc = session(CaptureMethod::WindowsGraphicsCapture);
    let dxgi = session(CaptureMethod::DxgiDesktopDuplication);
    assert!(matches!(start_capture(None, None), CaptureStep::TryWgc));
    assert!(matches!(start_capture(Some(Ok(wgc)), None), CaptureStep::Started(s) if s == wgc));
    assert!(matches!(start_capture(Some(Err("w".into())), None), CaptureStep::TryDxgi));
    assert!(matches!(
        start_capture(Some(Err("w".into())), Some(Ok(dxgi))),
        CaptureStep::Started(s) if s == dxgi
    ));
    match start_capture(Some(Err("w".into())), Some(Err("d".into()))) {
        CaptureStep::Failed(e) => {
            assert_eq!(e, "All capture methods failed. WGC: w. DXGI: d");
        }
        _ => unreachable!(),
    }
}

#[test]
fn reports_of_capture_threads() {
    let wgc = try_wgc(Some(Ok((5, 6)))).unwrap();
    assert_eq!((wgc.method, wgc.width, wgc.height), (CaptureMethod::WindowsGraphicsCapture, 5, 6));
    assert_eq!(try_wgc(Some(Err("why".into()))), Err("why".to_string()));
    assert_eq!(try_wgc(None), Err("WGC setup thread panicked".to_string()));
    let dxgi = try_dxgi(Some(Ok((7, 8)))).unwrap();
    assert_eq!(
        (dxgi.method, dxgi.width, dxgi.height),
        (CaptureMethod::DxgiDesktopDuplication, 7, 8)
    );
    assert_eq!(try_dxgi(Some(Err("why".into()))), Err("why".to_string()));
    assert_eq!(try_dxgi(None), Err("DXGI setup thread panicked".to_string()));
}

#[test]
fn performance_counter_in_microseconds() {
    assert_eq!(qpc_frequency(0), 10_000_000);
    assert_eq!(qpc_frequency(3_579_545), 3_579_545);
    assert_eq!(qpc_to_us(123_456_789, 10_000_000), 12_345_678);
    assert_eq!(qpc_to_us(i64::MAX, 10_000_000), 922_337_203_685_477_580);
    assert_eq!(qpc_to_us(i64::MAX, 1), (i64::MAX as u128 * 1_000_000) as u64);
    assert_eq!(qpc_to_us(i64::MAX, -1), 0);
    let times: Vec<u64> = (0..1000i64).map(|n| qpc_to_us(n * 77_777, 3_579_545)).collect();
    assert!(times.windows(2).all(|pair| pair[0] <= pair[1]));
}

#[test]
fn monitors_are_counted_through() {
    let outputs = vec![2, 0, 3];
    let found: Vec<_> = (0..5).map(|i| capture_item_for_monitor(&outputs, i).unwrap()).collect();
    assert_eq!(found, vec![(0, 0), (0, 1), (2, 0), (2, 1), (2, 2)]);
    assert_eq!(
        capture_item_for_monitor(&outputs, 5),
        Err("Monitor index 5 not found".to_string())
    );
    assert_eq!(
        capture_item_for_monitor(&vec![], 0),
        Err("Monitor index 0 not found".to_string())
    );
}

#[test]
fn windows_are_listed_where_they_can_be_shared() {
    let big = rect(10, 20, 110, 120);
    let source = window_to_source(&window(77, "Game — ⚔", big)).unwrap();
    assert_eq!(source.id, "window:77");
    assert_eq!(source.name, "Game — ⚔");
    assert_eq!(source.kind, "window");
    assert_eq!((source.hwnd, source.monitor_index), (Some(77), None));
    assert_eq!((source.width, source.height), (100, 100));
    assert!(window_to_source(&WindowInfo { visible: false, ..window(1, "a", big) }).is_none());
    assert!(window_to_source(&window(1, "", big)).is_none());
    assert!(window_to_source(&window(1, " \t\u{3000}", big)).is_none());
    assert!(window_to_source(&window(1, "a", rect(0, 0, 99, 500))).is_none());
    assert!(window_to_source(&window(1, "a", rect(0, 0, 500, 99))).is_none());
    assert!(window_to_source(&window(1, "a", rect(500, 500, 0, 0))).is_none());
    let lone = WindowInfo { title: vec![0xd800, 0x41], ..window(-3, "", big) };
    let source = window_to_source(&lone).unwrap();
    assert_eq!((source.id.as_str(), source.name.as_str()), ("window:-3", "\u{fffd}A"));
}

#[test]
fn sources_are_monitors_and_then_windows() {
    let outputs = Some(vec![
        Some(rect(0, 0, 1920, 1080)),
        None,
        Some(rect(1920, 0, 1910, 10)),
    ]);
    let windows = vec![
        window(5, "One", rect(0, 0, 300, 200)),
        window(6, "", rect(0, 0, 300, 200)),
        window(7, "Two", rect(0, 0, 300, 200)),
    ];
    let sources = enumerate_sources_win(&outputs, &windows);
    let ids: Vec<_> = sources.iter().map(|s| s.id.as_str()).collect();
    assert_eq!(ids, vec!["monitor:0", "monitor:1", "window:5", "window:7"]);
    assert_eq!(sources[0].name, "Display 1 (1920×1080)");
    assert_eq!(sources[1].name, "Display 2 (4294967286×10)");
    assert_eq!(sources[1].monitor_index, Some(1));
    for source in &sources {
        assert_eq!(
            parse_source_id(&source.id),
            Ok(match (source.monitor_index, source.hwnd) {
                (Some(index), None) => CaptureTarget::Monitor { index },
                (None, Some(hwnd)) => CaptureTarget::Window { hwnd },
                _ => unreachable!(),
            })
        );
    }
    for (i, source) in sources.iter().enumerate() {
        assert_eq!(source.kind == "monitor", source.monitor_index.is_some());
        assert_eq!(source.kind == "window", source.hwnd.is_some());
        assert_eq!(source.kind == "monitor", i < 2);
        assert!(sources[..i].iter().all(|other| other.id != source.id));
    }
    assert!(enumerate_sources_win(&None, &windows).is_empty());
    assert_eq!(enumerate_sources_win(&Some(vec![]), &windows).len(), 2);
}

#[test]
fn only_sizes_that_matter_are_measured() {
    let endless = rect(i32::MIN, 0, i32::MAX, 200);
    let hidden = WindowInfo { visible: false, ..window(1, "Hidden", endless) };
    let listed = window(4, "Seen", rect(0, 0, 300, 200));
    let windows = vec![hidden, window(2, "", endless), window(3, " \t", endless), listed];
    for w in &windows[..3] {
        assert!(!has_title(w));
        assert!(window_to_source(w).is_none());
    }
    assert!(has_title(&windows[3]));
    let outputs = Some(vec![Some(rect(0, 0, 800, 600)), None]);
    let ids = |sources: Vec<CaptureSource>| sources.into_iter().map(|s| s.id).collect::<Vec<_>>();
    let both = vec!["monitor:0".to_string(), "window:4".to_string()];
    assert_eq!(ids(enumerate_sources_win(&outputs, &windows)), both);
    assert_eq!(measured_sources_win(&outputs, &windows).map(ids), Some(both));
    let titled = vec![window(5, "Endless", endless)];
    assert!(measured_sources_win(&outputs, &titled).is_none());
    assert_eq!(measured_sources_win(&None, &titled).map(ids), Some(vec![]));
    assert!(measured_sources_win(&Some(vec![Some(endless)]), &vec![]).is_none());
    assert_eq!(measured_sources_win(&Some(vec![]), &vec![]).map(ids), Some(vec![]));
}

#[test]
fn mapped_textures_become_frames() {
    let raw: Vec<u8> = (0..32).collect();
    let frame = frame_from_mapped(&raw, 16, 2, 2, 99);
    assert_eq!(*frame.data, vec![0, 1, 2, 3, 4, 5, 6, 7, 16, 17, 18, 19, 20, 21, 22, 23]);
    assert_eq!((frame.width, frame.height, frame.pts_us), (2, 2, 99));
}

#[test]
fn duplication_captures_whole_outputs() {
    assert_eq!(dxgi_monitor(&CaptureTarget::Monitor { index: 3 }), 3);
    assert_eq!(dxgi_monitor(&CaptureTarget::Window { hwnd: 3 }), 0);
    assert_eq!(acquire_timeout_ms(60), 21);
    assert_eq!(acquire_timeout_ms(30), 38);
    assert_eq!(acquire_timeout_ms(23), 48);
    assert_eq!(acquire_timeout_ms(22), 50);
    assert_eq!(acquire_timeout_ms(0), 50);
    assert_eq!(acquire_timeout_ms(2000), 5);
}

#[test]
fn capture_loop_is_paced() {
    let mut l = WgcLoop::new(60);
    assert_eq!(l.frame_us, 16_666);
    assert!(matches!(l.step(WgcEvent::Top { now_us: 100 }), WgcAction::Grab));
    assert_eq!(l.next_frame_us, 16_766);
    match l.step(WgcEvent::Top { now_us: 1_000 }) {
        WgcAction::Sleep { us } => assert_eq!(us, 15_766),
        _ => unreachable!(),
    }
    assert!(matches!(l.step(WgcEvent::Woke { now_us: 16_800 }), WgcAction::Grab));
    assert_eq!(l.next_frame_us, 33_466);
    assert!(matches!(l.step(WgcEvent::NoFrame), WgcAction::Again));
    // 17 ms after the last look, and no earlier, the stop signal is looked at.
    assert!(matches!(l.step(WgcEvent::Top { now_us: 16_999 }), WgcAction::Sleep { .. }));
    assert!(matches!(l.step(WgcEvent::Top { now_us: 17_000 }), WgcAction::CheckStop));
    let looked = WgcEvent::StopChecked { stopped: false, now_us: 17_010 };
    match l.step(looked) {
        WgcAction::Sleep { us } => assert_eq!(us, 16_456),
        _ => unreachable!(),
    }
    assert_eq!(l.last_stop_check_us, 17_010);
    let stop = WgcEvent::StopChecked { stopped: true, now_us: 40_000 };
    assert!(matches!(l.step(stop), WgcAction::Exit));
}

#[test]
fn capture_loop_drops_frames_and_ends_with_its_encoder() {
    let mut l = WgcLoop::new(0);
    match l.step(WgcEvent::Frame(small_frame())) {
        WgcAction::Offer(frame) => assert_eq!(*frame.data, vec![1, 2, 3, 4]),
        _ => unreachable!(),
    }
    let offered = |taken, closed| WgcEvent::Offered { taken, closed };
    assert!(matches!(l.step(offered(true, false)), WgcAction::Again));
    assert!(matches!(l.step(offered(true, true)), WgcAction::Again));
    assert!(matches!(l.step(offered(false, false)), WgcAction::Again));
    assert!(matches!(l.step(offered(false, true)), WgcAction::Exit));
}

#[test]
fn duplication_loop() {
    let mut l = DxgiLoop::new();
    let checked = |stopped, now_us| DxgiEvent::StopChecked { stopped, now_us };
    assert!(matches!(l.step(checked(true, 0)), DxgiAction::Exit));
    assert!(matches!(l.step(checked(false, 0)), DxgiAction::Acquire));
    let acquired = |last_present_time, is_texture| DxgiEvent::Acquired {
        last_present_time,
        is_texture,
        now_us: 100,
    };
    assert!(matches!(l.step(acquired(0, true)), DxgiAction::Skip));
    assert!(matches!(l.step(acquired(5, false)), DxgiAction::Skip));
    assert!(matches!(l.step(DxgiEvent::Skipped), DxgiAction::Again));
    assert_eq!(l.next_frame_us, 0);
    assert!(matches!(l.step(acquired(5, true)), DxgiAction::Read));
    assert!(matches!(l.step(DxgiEvent::TimedOut), DxgiAction::Again));
    assert!(matches!(l.step(DxgiEvent::MapFailed), DxgiAction::Again));
    assert!(matches!(l.step(DxgiEvent::AcquireFailed), DxgiAction::Exit));
    assert!(matches!(l.step(DxgiEvent::Frame(small_frame())), DxgiAction::Offer(_)));
    let offered = |taken, closed| DxgiEvent::Offered { taken, closed };
    assert!(matches!(l.step(offered(false, true)), DxgiAction::Exit));
    assert!(matches!(l.step(offered(false, false)), DxgiAction::Again));
    assert!(matches!(l.step(offered(true, true)), DxgiAction::Again));
}

#[test]
fn duplication_is_paced() {
    let mut l = DxgiLoop::new();
    let presented = |now_us| DxgiEvent::Acquired { last_present_time: 1, is_texture: true, now_us };
    let checked = |now_us| DxgiEvent::StopChecked { stopped: false, now_us };
    assert!(matches!(l.step(checked(0)), DxgiAction::Acquire));
    assert!(matches!(l.step(presented(1_000)), DxgiAction::Read));
    assert_eq!(l.next_frame_us, 17_666);
    match l.step(checked(2_000)) {
        DxgiAction::Sleep { us } => assert_eq!(us, 15_666),
        _ => unreachable!(),
    }
    assert!(matches!(l.step(DxgiEvent::Woke { now_us: 17_700 }), DxgiAction::Acquire));
    assert!(matches!(l.step(presented(18_000)), DxgiAction::Read));
    assert_eq!(l.next_frame_us, 34_666);
    assert!(matches!(l.step(checked(34_666)), DxgiAction::Acquire));
}

#[test]
fn the_monitor_that_is_shown_is_the_one_that_is_found() {
    let adapters = [vec![rect(0, 0, 800, 600)], vec![], vec![rect(0, 0, 640, 480); 2]];
    let outputs: Vec<Option<Rect>> = adapters.iter().flatten().copied().map(Some).collect();
    let counts: Vec<u32> = adapters.iter().map(|a| a.len() as u32).collect();
    for source in enumerate_sources_win(&Some(outputs), &vec![]) {
        let index = source.monitor_index.unwrap();
        let (adapter, output) = capture_item_for_monitor(&counts, index).unwrap();
        let found = adapters[adapter][output as usize];
        assert_eq!((source.width, source.height), (found.right as u32, found.bottom as u32));
    }
}
