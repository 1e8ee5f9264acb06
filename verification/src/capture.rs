//! Capture: frames, targets and sources, and the steps that begin a capture.
use std::sync::Arc;
use vstd::prelude::*;

use crate::pixels::{pattern, test_pattern, PATTERN_HEIGHT, PATTERN_WIDTH};
use crate::text::{
    chars_of, decimal_int, decimal_reads_back, matches_at, occurs_at, parse_int, read_int,
    read_int_in_range,
};

verus! {

/// A single captured video frame.
#[derive(Debug, Clone)]
pub struct VideoFrame {
    /// Raw BGRA pixels, row by row, `width * 4` bytes each.
    pub data: Arc<Vec<u8>>,
    pub width: u32,
    pub height: u32,
    /// Capture timestamp in microseconds.
    pub pts_us: u64,
}

/// Describes what to capture.
#[derive(Debug, Clone, Copy, PartialEq, Eq, Structural)]
pub enum CaptureTarget {
    /// A monitor by its index (0 is the primary one).
    Monitor { index: u32 },
    /// A window by its native handle.
    Window { hwnd: isize },
}

/// Which API was actually used for capture.
#[derive(Debug, Clone, Copy, PartialEq, Eq, Structural)]
pub enum CaptureMethod {
    /// Windows Graphics Capture.
    WindowsGraphicsCapture,
    /// DXGI Desktop Duplication.
    DxgiDesktopDuplication,
}

impl CaptureMethod {
    /// The name of the method.
    pub open spec fn text(self) -> Seq<char> {
        match self {
            CaptureMethod::WindowsGraphicsCapture => "WindowsGraphicsCapture"@,
            CaptureMethod::DxgiDesktopDuplication => "DxgiDesktopDuplication"@,
        }
    }

    /// The name of the method.
    pub fn to_string(&self) -> (s: String)
        ensures
            s@ == self.text(),
    {
        match self {
            CaptureMethod::WindowsGraphicsCapture => "WindowsGraphicsCapture".to_string(),
            CaptureMethod::DxgiDesktopDuplication => "DxgiDesktopDuplication".to_string(),
        }
    }
}

/// A running capture.
#[derive(Debug, Clone, Copy, PartialEq, Eq, Structural)]
pub struct CaptureSession {
    pub method: CaptureMethod,
    pub width: u32,
    pub height: u32,
}

/// A window or monitor for the picker.
#[derive(Debug, Clone)]
pub struct CaptureSource {
    pub id: String,
    pub name: String,
    /// `monitor` or `window`.
    pub kind: String,
    pub hwnd: Option<isize>,
    pub monitor_index: Option<u32>,
    pub width: u32,
    pub height: u32,
    /// A PNG in base64, where there is one.
    pub thumbnail_b64: Option<String>,
}

/// What a [`CaptureSource`] holds.
pub struct SourceView {
    pub id: Seq<char>,
    pub name: Seq<char>,
    pub kind: Seq<char>,
    pub hwnd: Option<isize>,
    pub monitor_index: Option<u32>,
    pub width: u32,
    pub height: u32,
    pub thumbnail_b64: Option<Seq<char>>,
}

impl View for CaptureSource {
    type V = SourceView;

    open spec fn view(&self) -> SourceView {
        SourceView {
            id: self.id@,
            name: self.name@,
            kind: self.kind@,
            hwnd: self.hwnd,
            monitor_index: self.monitor_index,
            width: self.width,
            height: self.height,
            thumbnail_b64: match self.thumbnail_b64 {
                Some(s) => Some(s@),
                None => None,
            },
        }
    }
}

/// What a list of sources holds.
pub open spec fn source_views(sources: Seq<CaptureSource>) -> Seq<SourceView> {
    sources.map_values(|s: CaptureSource| s@)
}

/// The id of a source names a target of the source's own kind: it can be captured.
pub open spec fn can_be_opened(source: SourceView) -> bool {
    match source_target(source.id) {
        Ok(CaptureTarget::Monitor { index }) => source.kind == "monitor"@ && source.monitor_index
            == Some(index),
        Ok(CaptureTarget::Window { hwnd: _ }) => source.kind == "window"@ && source.monitor_index
            is None,
        Err(_) => false,
    }
}

/// A source says the same thing with all of its parts: a monitor has an index, no handle, and
/// the id of that index; a window has no index and, where it has a handle, the id of that handle.
pub open spec fn is_consistent(source: SourceView) -> bool {
    &&& can_be_opened(source)
    &&& source.kind == "monitor"@ || source.kind == "window"@
    &&& source.kind == "monitor"@ <==> source.monitor_index is Some
    &&& source.monitor_index matches Some(index) ==> source.id == monitor_id(index) && source.hwnd
        is None
    &&& source.hwnd matches Some(hwnd) ==> source.kind == "window"@ && source.id == window_id(hwnd)
}

/// A list for the picker: every source is consistent, no two have the same id, and all monitors
/// come before all windows.
pub open spec fn is_well_listed(sources: Seq<SourceView>) -> bool {
    &&& forall|i: int| 0 <= i < sources.len() ==> is_consistent(#[trigger] sources[i])
    &&& forall|i: int, j: int|
        0 <= i < j < sources.len() ==> (#[trigger] sources[i]).id != (#[trigger] sources[j]).id
    &&& forall|i: int, j: int|
        0 <= i < j < sources.len() && (#[trigger] sources[j]).kind == "monitor"@ ==> (
        #[trigger] sources[i]).kind == "monitor"@
}

/// The sources on a platform without screen capture: one made-up monitor and one made-up window.
pub fn enumerate_sources() -> (sources: Vec<CaptureSource>)
    ensures
        is_well_listed(source_views(sources@)),
        source_views(sources@) == seq![
            SourceView {
                id: "monitor:0"@,
                name: "Primary Monitor (1920×1080)"@,
                kind: "monitor"@,
                hwnd: None,
                monitor_index: Some(0),
                width: 1920,
                height: 1080,
                thumbnail_b64: None,
            },
            SourceView {
                id: "window:1"@,
                name: "Test Window — Synthetic"@,
                kind: "window"@,
                hwnd: None,
                monitor_index: None,
                width: 1280,
                height: 720,
                thumbnail_b64: None,
            },
        ],
{
    let monitor = CaptureSource {
        id: "monitor:0".to_string(),
        name: "Primary Monitor (1920×1080)".to_string(),
        kind: "monitor".to_string(),
        hwnd: None,
        monitor_index: Some(0),
        width: 1920,
        height: 1080,
        thumbnail_b64: None,
    };
    let window = CaptureSource {
        id: "window:1".to_string(),
        name: "Test Window — Synthetic".to_string(),
        kind: "window".to_string(),
        hwnd: None,
        monitor_index: None,
        width: 1280,
        height: 720,
        thumbnail_b64: None,
    };
    let sources: Vec<CaptureSource> = vec![monitor, window];
    assert(source_views(sources@) =~= seq![monitor@, window@]);
    proof {
        reveal_strlit("monitor:0");
        reveal_strlit("window:1");
        reveal_strlit("monitor");
        reveal_strlit("window");
        assert("monitor:0"@ =~= monitor_id(0));
        assert("window:1"@ =~= window_id(1));
        source_ids_name_their_target(0, 1);
        assert("monitor"@[0] == 'm' && "window"@[0] == 'w');
        assert("monitor:0"@[0] == 'm' && "window:1"@[0] == 'w');
    }
    sources
}

/// The id of a monitor.
pub open spec fn monitor_id(index: u32) -> Seq<char> {
    seq!['m', 'o', 'n', 'i', 't', 'o', 'r', ':'] + decimal_int(index as int)
}

/// The id of a window.
pub open spec fn window_id(hwnd: isize) -> Seq<char> {
    seq!['w', 'i', 'n', 'd', 'o', 'w', ':'] + decimal_int(hwnd as int)
}

/// The target that a source id names, or the sentence that refuses it.
pub open spec fn source_target(id: Seq<char>) -> Result<CaptureTarget, Seq<char>> {
    if occurs_at(id, seq!['m', 'o', 'n', 'i', 't', 'o', 'r', ':'], 0) {
        match read_int(id.skip(8), 0, u32::MAX as int) {
            Ok(index) => Ok(CaptureTarget::Monitor { index: index as u32 }),
            Err(_) => Err("Invalid monitor index: "@ + id),
        }
    } else if occurs_at(id, seq!['w', 'i', 'n', 'd', 'o', 'w', ':'], 0) {
        match read_int(id.skip(7), isize::MIN as int, isize::MAX as int) {
            Ok(hwnd) => Ok(CaptureTarget::Window { hwnd: hwnd as isize }),
            Err(_) => Err("Invalid hwnd: "@ + id),
        }
    } else {
        Err("Unknown source id format: "@ + id)
    }
}

/// A target or a sentence, with its characters.
pub open spec fn target_view(r: Result<CaptureTarget, String>) -> Result<CaptureTarget, Seq<char>> {
    match r {
        Ok(target) => Ok(target),
        Err(e) => Err(e@),
    }
}

/// Reads the id of a source from the picker.
pub fn parse_source_id(id: &str) -> (r: Result<CaptureTarget, String>)
    ensures
        target_view(r) == source_target(id@),
{
    let v = chars_of(id);
    let monitor: Vec<char> = vec!['m', 'o', 'n', 'i', 't', 'o', 'r', ':'];
    let window: Vec<char> = vec!['w', 'i', 'n', 'd', 'o', 'w', ':'];
    assert(monitor@ =~= seq!['m', 'o', 'n', 'i', 't', 'o', 'r', ':']);
    assert(window@ =~= seq!['w', 'i', 'n', 'd', 'o', 'w', ':']);
    if matches_at(&v, &monitor, 0) {
        assert(v@.subrange(8, v@.len() as int) =~= id@.skip(8));
        match parse_int(&v, 8, v.len(), 0, u32::MAX as i128) {
            Ok(index) => {
                proof {
                    read_int_in_range(id@.skip(8), 0, u32::MAX as int);
                }
                Ok(CaptureTarget::Monitor { index: index as u32 })
            },
            Err(_) => Err("Invalid monitor index: ".to_string().concat(id)),
        }
    } else if matches_at(&v, &window, 0) {
        assert(v@.subrange(7, v@.len() as int) =~= id@.skip(7));
        match parse_int(&v, 7, v.len(), isize::MIN as i128, isize::MAX as i128) {
            Ok(hwnd) => {
                proof {
                    read_int_in_range(id@.skip(7), isize::MIN as int, isize::MAX as int);
                }
                Ok(CaptureTarget::Window { hwnd: hwnd as isize })
            },
            Err(_) => Err("Invalid hwnd: ".to_string().concat(id)),
        }
    } else {
        Err("Unknown source id format: ".to_string().concat(id))
    }
}

/// The id of a monitor names that monitor, and the id of a window that window.
pub proof fn source_ids_name_their_target(index: u32, hwnd: isize)
    ensures
        source_target(monitor_id(index)) == Ok::<_, Seq<char>>(CaptureTarget::Monitor { index }),
        source_target(window_id(hwnd)) == Ok::<_, Seq<char>>(CaptureTarget::Window { hwnd }),
{
    let m = seq!['m', 'o', 'n', 'i', 't', 'o', 'r', ':'];
    let w = seq!['w', 'i', 'n', 'd', 'o', 'w', ':'];
    decimal_reads_back(index as int, 0, u32::MAX as int);
    decimal_reads_back(hwnd as int, isize::MIN as int, isize::MAX as int);
    assert(monitor_id(index).subrange(0, 8) =~= m);
    assert(monitor_id(index).skip(8) =~= decimal_int(index as int));
    assert(window_id(hwnd).subrange(0, 7) =~= w);
    assert(window_id(hwnd).skip(7) =~= decimal_int(hwnd as int));
    assert(window_id(hwnd)[0] == 'w');
    if occurs_at(window_id(hwnd), m, 0) {
        assert(window_id(hwnd).subrange(0, 8)[0] == m[0]);
    }
}

/// Ids are read by what they begin with: `monitor:` or `window:`, and a number behind it that must
/// be all the rest. What is refused is told in full.
pub proof fn ids_are_read_by_their_prefix(id: Seq<char>, rest: Seq<char>)
    ensures
        id == seq!['m', 'o', 'n', 'i', 't', 'o', 'r', ':'] + rest ==> match read_int(
            rest,
            0,
            u32::MAX as int,
        ) {
            Ok(n) => source_target(id) matches Ok(CaptureTarget::Monitor { index }) && index == n,
            Err(_) => source_target(id) == Err::<CaptureTarget, _>("Invalid monitor index: "@ + id),
        },
        id == seq!['w', 'i', 'n', 'd', 'o', 'w', ':'] + rest ==> match read_int(
            rest,
            isize::MIN as int,
            isize::MAX as int,
        ) {
            Ok(n) => source_target(id) matches Ok(CaptureTarget::Window { hwnd }) && hwnd == n,
            Err(_) => source_target(id) == Err::<CaptureTarget, _>("Invalid hwnd: "@ + id),
        },
        !seq!['m', 'o', 'n', 'i', 't', 'o', 'r', ':'].is_prefix_of(id) && !seq![
            'w',
            'i',
            'n',
            'd',
            'o',
            'w',
            ':',
        ].is_prefix_of(id) ==> source_target(id) == Err::<CaptureTarget, _>(
            "Unknown source id format: "@ + id,
        ),
{
    let m = seq!['m', 'o', 'n', 'i', 't', 'o', 'r', ':'];
    let w = seq!['w', 'i', 'n', 'd', 'o', 'w', ':'];
    read_int_in_range(rest, 0, u32::MAX as int);
    read_int_in_range(rest, isize::MIN as int, isize::MAX as int);
    if id == m + rest {
        assert(id.subrange(0, 8) =~= m);
        assert(id.skip(8) =~= rest);
    }
    if id == w + rest {
        assert(id.subrange(0, 7) =~= w);
        assert(id.skip(7) =~= rest);
        assert(id[0] == 'w');
        if occurs_at(id, m, 0) {
            assert(id.subrange(0, 8)[0] == m[0]);
        }
    }
    if occurs_at(id, m, 0) {
        assert(id.subrange(0, m.len() as int) == m);
        assert(m.is_prefix_of(id));
    }
    if occurs_at(id, w, 0) {
        assert(id.subrange(0, w.len() as int) == w);
        assert(w.is_prefix_of(id));
    }
}

/// The larger of `fps` and 1.
pub open spec fn at_least_one(fps: u32) -> int {
    if fps == 0 {
        1
    } else {
        fps as int
    }
}

/// How many frames a second are captured at most: the limit, but at least 1 and never more than
/// 60.
pub open spec fn capped_fps(fps_limit: u32) -> int {
    if fps_limit > 60 {
        60
    } else {
        at_least_one(fps_limit)
    }
}

/// A limit from 1 to 60 is kept: as many intervals as it asks for fit into a second, and it could
/// not be more of them. A higher limit counts as 60, and none at all as 1.
pub proof fn every_limit_is_kept(fps_limit: u32)
    ensures
        ({
            let us = 1_000_000int / capped_fps(fps_limit);
            &&& 1 <= fps_limit <= 60 ==> fps_limit * us <= 1_000_000 < fps_limit * (us + 1)
            &&& fps_limit > 60 ==> us == 16_666
            &&& fps_limit == 0 ==> us == 1_000_000
        }),
{
    let fps = capped_fps(fps_limit);
    vstd::arithmetic::div_mod::lemma_fundamental_div_mod(1_000_000, fps);
    vstd::arithmetic::div_mod::lemma_mod_bound(1_000_000, fps);
    let us = 1_000_000int / fps;
    assert(fps * (us + 1) == fps * us + fps) by (nonlinear_arith);
}

/// The time from one frame to the next, in microseconds: never less than a sixtieth of a second.
pub fn frame_interval_us(fps_limit: u32) -> (us: u64)
    ensures
        us == 1_000_000int / capped_fps(fps_limit),
        us >= 1_000_000int / 60,
        us <= 1_000_000,
        // As many intervals as the limit asks for fit into a second, and longer ones would not.
        1 <= fps_limit <= 60 ==> fps_limit * us <= 1_000_000 < fps_limit * (us + 1),
        fps_limit > 60 ==> us == 16_666,
        fps_limit == 0 ==> us == 1_000_000,
{
    let fps: u64 = if fps_limit == 0 {
        1
    } else if fps_limit > 60 {
        60
    } else {
        fps_limit as u64
    };
    proof {
        vstd::arithmetic::div_mod::lemma_div_is_ordered_by_denominator(1_000_000, fps as int, 60);
        vstd::arithmetic::div_mod::lemma_div_is_ordered_by_denominator(1_000_000, 1, fps as int);
        every_limit_is_kept(fps_limit);
    }
    1_000_000 / fps
}

/// The test frame at time `pts_us`.
pub fn synthetic_frame(pts_us: u64) -> (frame: VideoFrame)
    ensures
        frame.width == 1920,
        frame.height == 1080,
        frame.pts_us == pts_us,
        frame.data@ == pattern(pts_us),
{
    VideoFrame {
        data: Arc::new(test_pattern(pts_us)),
        width: PATTERN_WIDTH,
        height: PATTERN_HEIGHT,
        pts_us,
    }
}

/// The session of a platform without screen capture. It is reported as Windows Graphics Capture.
pub fn synthetic_session() -> (session: CaptureSession)
    ensures
        session == (CaptureSession {
            method: CaptureMethod::WindowsGraphicsCapture,
            width: 1920,
            height: 1080,
        }),
{
    CaptureSession {
        method: CaptureMethod::WindowsGraphicsCapture,
        width: PATTERN_WIDTH,
        height: PATTERN_HEIGHT,
    }
}

/// What to do next to begin a capture.
pub enum CaptureStep {
    /// Try Windows Graphics Capture.
    TryWgc,
    /// Try DXGI Desktop Duplication.
    TryDxgi,
    /// The capture runs.
    Started(CaptureSession),
    /// Nothing works.
    Failed(String),
}

/// The step that follows from what was tried so far: Windows Graphics Capture first, Desktop
/// Duplication only where that fails, and an error only where both fail.
pub fn start_capture(
    wgc: Option<Result<CaptureSession, String>>,
    dxgi: Option<Result<CaptureSession, String>>,
) -> (step: CaptureStep)
    ensures
        match (wgc, dxgi) {
            (None, _) => step is TryWgc,
            (Some(Ok(session)), _) => step == CaptureStep::Started(session),
            (Some(Err(_)), None) => step is TryDxgi,
            (Some(Err(_)), Some(Ok(session))) => step == CaptureStep::Started(session),
            (Some(Err(w)), Some(Err(d))) => step matches CaptureStep::Failed(e) && e@
                == "All capture methods failed. WGC: "@ + w@ + ". DXGI: "@ + d@,
        },
{
    match wgc {
        None => CaptureStep::TryWgc,
        Some(Ok(session)) => CaptureStep::Started(session),
        Some(Err(w)) => match dxgi {
            None => CaptureStep::TryDxgi,
            Some(Ok(session)) => CaptureStep::Started(session),
            Some(Err(d)) => {
                let mut e = "All capture methods failed. WGC: ".to_string();
                e.append(w.as_str());
                e.append(". DXGI: ");
                e.append(d.as_str());
                CaptureStep::Failed(e)
            },
        },
    }
}

} // verus!
