//! Capture on Windows: clocks, monitors and windows, and the loops that deliver frames.
use std::sync::Arc;
use vstd::arithmetic::div_mod::{
    lemma_div_is_ordered, lemma_div_is_ordered_by_denominator, lemma_div_pos_is_pos,
    lemma_fundamental_div_mod, lemma_mod_bound, lemma_small_mod,
};
use vstd::prelude::*;

use crate::capture::{
    at_least_one, capped_fps, frame_interval_us, is_consistent, is_well_listed, monitor_id,
    source_ids_name_their_target, source_target, source_views, window_id, CaptureMethod,
    CaptureSession, CaptureSource, CaptureTarget, SourceView, VideoFrame,
};
use crate::pixels::{copy_rows, packed_rows};
use crate::text::{
    decimal, decimal_int_text, decimal_text, is_blank, text_from_utf16, trim,
    trimmed_empty_iff_blank, utf16_lossy,
};

verus! {

// ---- The performance counter ----

/// The frequency of the performance counter. One that could not be asked for is taken as 10 MHz.
pub fn qpc_frequency(raw: i64) -> (freq: i64)
    ensures
        freq == (if raw == 0 {
            10_000_000
        } else {
            raw as int
        }),
{
    if raw == 0 {
        10_000_000
    } else {
        raw
    }
}

/// The time of a counter value in microseconds, modulo 2 to the 64th.
pub open spec fn counter_us(counter: int, freq: int) -> int {
    (counter * 1_000_000 / freq) % 0x1_0000_0000_0000_0000
}

/// The time of a counter value in microseconds, modulo 2 to the 64th. A negative frequency, read
/// as unsigned, is so large that nothing is left.
pub fn qpc_to_us(counter: i64, freq: i64) -> (us: u64)
    requires
        0 <= counter,
        freq != 0,
    ensures
        freq > 0 ==> us == (counter * 1_000_000 / freq as int) % 0x1_0000_0000_0000_0000,
        freq > 0 ==> us == counter_us(counter as int, freq as int),
        freq < 0 ==> us == 0,
{
    if freq < 0 {
        return 0;
    }
    let us: u128 = counter as u128 * 1_000_000 / freq as u128;
    (us % 0x1_0000_0000_0000_0000) as u64
}

/// Time follows the counter: a later count is never an earlier time, as long as the time fits
/// into 64 bits.
pub proof fn time_follows_the_counter(earlier: int, later: int, freq: int)
    requires
        0 <= earlier <= later,
        0 < freq,
        later * 1_000_000 / freq < 0x1_0000_0000_0000_0000,
    ensures
        (earlier * 1_000_000 / freq) % 0x1_0000_0000_0000_0000 <= (later * 1_000_000 / freq)
            % 0x1_0000_0000_0000_0000,
        counter_us(earlier, freq) <= counter_us(later, freq),
{
    lemma_div_is_ordered(earlier * 1_000_000, later * 1_000_000, freq);
    lemma_div_pos_is_pos(earlier * 1_000_000, freq);
    lemma_small_mod(
        (earlier * 1_000_000 / freq) as nat,
        0x1_0000_0000_0000_0000,
    );
    lemma_small_mod((later * 1_000_000 / freq) as nat, 0x1_0000_0000_0000_0000);
}

/// As many counts as the counter makes in a second are a second, and the time is told to the
/// microsecond: it is the largest whole number of them that the counts reach, as long as it fits
/// into 64 bits.
pub proof fn the_counter_is_told_in_microseconds(counter: int, freq: int)
    requires
        0 <= counter,
        0 < freq,
        counter * 1_000_000 / freq < 0x1_0000_0000_0000_0000,
    ensures
        freq * counter_us(counter, freq) <= counter * 1_000_000 < freq * (counter_us(counter, freq)
            + 1),
        counter == freq ==> counter_us(counter, freq) == 1_000_000,
{
    let us = counter * 1_000_000 / freq;
    lemma_div_pos_is_pos(counter * 1_000_000, freq);
    lemma_small_mod(us as nat, 0x1_0000_0000_0000_0000);
    lemma_fundamental_div_mod(counter * 1_000_000, freq);
    lemma_mod_bound(counter * 1_000_000, freq);
    assert(freq * (us + 1) == freq * us + freq) by (nonlinear_arith);
    if counter == freq {
        assert(us == 1_000_000) by (nonlinear_arith)
            requires
                freq * us <= freq * 1_000_000 < freq * us + freq,
                0 < freq,
        ;
    }
}

// ---- Monitors ----

/// Where the monitor with number `index` is, when the outputs of all adapters are counted
/// through: the adapter, and the output of that adapter.
pub open spec fn monitor_at(outputs: Seq<u32>, index: int) -> Option<(int, int)>
    decreases outputs.len(),
{
    if outputs.len() == 0 {
        None
    } else if index < outputs[0] {
        Some((0, index))
    } else {
        match monitor_at(outputs.drop_first(), index - outputs[0]) {
            Some((adapter, output)) => Some((adapter + 1, output)),
            None => None,
        }
    }
}

/// How many outputs the first `n` adapters have.
pub open spec fn outputs_before(outputs: Seq<u32>, n: int) -> int
    decreases outputs.len(),
{
    if n <= 0 || outputs.len() == 0 {
        0
    } else {
        outputs[0] + outputs_before(outputs.drop_first(), n - 1)
    }
}

/// Finds the monitor with number `index`, given how many outputs each adapter has.
pub fn capture_item_for_monitor(outputs: &Vec<u32>, index: u32) -> (r: Result<
    (usize, u32),
    String,
>)
    ensures
        match monitor_at(outputs@, index as int) {
            Some((adapter, output)) => r matches Ok((a, o)) && a == adapter && o == output,
            None => r matches Err(e) && e@ == "Monitor index "@ + decimal(index as nat)
                + " not found"@,
        },
{
    let mut left: u32 = index;
    let mut a: usize = 0;
    assert(outputs@.skip(0) =~= outputs@);
    while a < outputs.len()
        invariant
            a <= outputs@.len(),
            monitor_at(outputs@, index as int) == (match monitor_at(
                outputs@.skip(a as int),
                left as int,
            ) {
                Some((adapter, output)) => Some((adapter + a, output)),
                None => None,
            }),
        decreases outputs@.len() - a,
    {
        assert(outputs@.skip(a as int)[0] == outputs@[a as int]);
        assert(outputs@.skip(a as int).drop_first() =~= outputs@.skip(a + 1));
        if left < outputs[a] {
            return Ok((a, left));
        }
        left = left - outputs[a];
        a += 1;
    }
    let mut e = "Monitor index ".to_string();
    e.append(decimal_text(index as u64).as_str());
    e.append(" not found");
    Err(e)
}

/// Monitors are numbered through: output `output` of adapter `adapter` has the number of outputs
/// that come before it, and no number beyond the last output is found.
pub proof fn monitors_are_numbered_through(outputs: Seq<u32>, adapter: int, output: int)
    ensures
        0 <= adapter < outputs.len() && 0 <= output < outputs[adapter] ==> monitor_at(
            outputs,
            outputs_before(outputs, adapter) + output,
        ) == Some((adapter, output)),
        forall|index: int|
            index >= outputs_before(outputs, outputs.len() as int) ==> #[trigger] monitor_at(
                outputs,
                index,
            ) is None,
    decreases outputs.len(),
{
    if outputs.len() > 0 {
        let rest = outputs.drop_first();
        monitors_are_numbered_through(rest, adapter - 1, output);
        if 0 < adapter < outputs.len() && 0 <= output < outputs[adapter] {
            assert(rest[adapter - 1] == outputs[adapter]);
            lemma_outputs_before_is_natural(rest, adapter - 1);
        }
        assert forall|index: int|
            index >= outputs_before(outputs, outputs.len() as int) implies #[trigger] monitor_at(
            outputs,
            index,
        ) is None by {
            lemma_outputs_before_is_natural(rest, rest.len() as int);
            assert(monitor_at(rest, index - outputs[0]) is None);
        }
    }
}

proof fn lemma_outputs_before_is_natural(outputs: Seq<u32>, n: int)
    ensures
        outputs_before(outputs, n) >= 0,
    decreases outputs.len(),
{
    if n > 0 && outputs.len() > 0 {
        lemma_outputs_before_is_natural(outputs.drop_first(), n - 1);
    }
}

// ---- Sources ----

/// A rectangle on the desktop.
#[derive(Debug, Clone, Copy, PartialEq, Eq, Structural)]
pub struct Rect {
    pub left: i32,
    pub top: i32,
    pub right: i32,
    pub bottom: i32,
}

/// The sides of a rectangle can be computed.
pub open spec fn is_measurable(rect: Rect) -> bool {
    &&& i32::MIN <= rect.right - rect.left <= i32::MAX
    &&& i32::MIN <= rect.bottom - rect.top <= i32::MAX
}

/// A top-level window.
pub struct WindowInfo {
    pub hwnd: isize,
    pub visible: bool,
    /// Its title in UTF-16.
    pub title: Vec<u16>,
    pub rect: Rect,
}

/// `x` read as an unsigned number of 32 bits.
pub open spec fn unsigned32(x: int) -> u32 {
    if x < 0 {
        (x + 0x1_0000_0000) as u32
    } else {
        x as u32
    }
}

fn to_unsigned32(x: i32) -> (u: u32)
    ensures
        u == unsigned32(x as int),
{
    if x < 0 {
        (x as i64 + 0x1_0000_0000) as u32
    } else {
        x as u32
    }
}

/// `x`, or 0 where it is negative.
pub open spec fn not_negative(x: int) -> u32 {
    if x < 0 {
        0
    } else {
        x as u32
    }
}

fn to_not_negative(x: i32) -> (u: u32)
    ensures
        u == not_negative(x as int),
{
    if x < 0 {
        0
    } else {
        x as u32
    }
}

/// The source for monitor `index` on this part of the desktop.
pub open spec fn monitor_source(index: u32, rect: Rect) -> SourceView {
    let w = unsigned32(rect.right - rect.left);
    let h = unsigned32(rect.bottom - rect.top);
    SourceView {
        id: monitor_id(index),
        name: "Display "@ + decimal((index + 1) as nat) + " ("@ + decimal(w as nat) + "×"@ + decimal(
            h as nat,
        ) + ")"@,
        kind: "monitor"@,
        hwnd: None,
        monitor_index: Some(index),
        width: w,
        height: h,
        thumbnail_b64: None,
    }
}

/// The sources for the outputs of all adapters, in order. An output whose place on the desktop is
/// not known is passed over and gets no number.
pub open spec fn monitor_sources(outputs: Seq<Option<Rect>>) -> Seq<SourceView>
    decreases outputs.len(),
{
    if outputs.len() == 0 {
        seq![]
    } else {
        let before = monitor_sources(outputs.drop_last());
        match outputs.last() {
            Some(rect) => before.push(monitor_source(before.len() as u32, rect)),
            None => before,
        }
    }
}

/// A window can be seen and has a title that is not blank. The size of no other window matters.
pub open spec fn is_titled(window: WindowInfo) -> bool {
    &&& window.visible
    &&& window.title@.len() > 0
    &&& !is_blank(utf16_lossy(window.title@))
}

/// A window is offered where it can be seen, has a title that is not blank and is at least 100
/// pixels wide and high.
pub open spec fn is_listed(window: WindowInfo) -> bool {
    &&& is_titled(window)
    &&& not_negative(window.rect.right - window.rect.left) >= 100
    &&& not_negative(window.rect.bottom - window.rect.top) >= 100
}

/// The source for a window.
pub open spec fn window_source(window: WindowInfo) -> SourceView {
    SourceView {
        id: window_id(window.hwnd),
        name: utf16_lossy(window.title@),
        kind: "window"@,
        hwnd: Some(window.hwnd),
        monitor_index: None,
        width: not_negative(window.rect.right - window.rect.left),
        height: not_negative(window.rect.bottom - window.rect.top),
        thumbnail_b64: None,
    }
}

/// The sources for the windows that are offered, in order.
pub open spec fn window_sources(windows: Seq<WindowInfo>) -> Seq<SourceView>
    decreases windows.len(),
{
    if windows.len() == 0 {
        seq![]
    } else {
        let before = window_sources(windows.drop_last());
        if is_listed(windows.last()) {
            before.push(window_source(windows.last()))
        } else {
            before
        }
    }
}

/// The source for monitor `index`.
fn make_monitor_source(index: u32, rect: Rect) -> (source: CaptureSource)
    requires
        index < u32::MAX,
        is_measurable(rect),
    ensures
        source@ == monitor_source(index, rect),
{
    let w = to_unsigned32(rect.right - rect.left);
    let h = to_unsigned32(rect.bottom - rect.top);
    let mut id = "monitor:".to_string();
    id.append(decimal_text(index as u64).as_str());
    let mut name = "Display ".to_string();
    name.append(decimal_text(index as u64 + 1).as_str());
    name.append(" (");
    name.append(decimal_text(w as u64).as_str());
    name.append("×");
    name.append(decimal_text(h as u64).as_str());
    name.append(")");
    proof {
        reveal_strlit("monitor:");
        assert(id@ =~= monitor_id(index));
    }
    CaptureSource {
        id,
        name,
        kind: "monitor".to_string(),
        hwnd: None,
        monitor_index: Some(index),
        width: w,
        height: h,
        thumbnail_b64: None,
    }
}

/// Whether a rectangle's width and height can be measured.
fn has_size(rect: &Rect) -> (b: bool)
    ensures
        b == is_measurable(*rect),
{
    rect.right.checked_sub(rect.left).is_some() && rect.bottom.checked_sub(rect.top).is_some()
}

/// Whether a window can be seen and has a title that is not blank.
pub fn has_title(window: &WindowInfo) -> (b: bool)
    ensures
        b == is_titled(*window),
{
    if !window.visible || window.title.len() == 0 {
        return false;
    }
    let name = text_from_utf16(window.title.as_slice());
    let words = trim(name.as_str());
    proof {
        trimmed_empty_iff_blank(name@);
    }
    !words.as_str().is_empty()
}

/// The source for a window, where it is offered.
pub fn window_to_source(window: &WindowInfo) -> (source: Option<CaptureSource>)
    requires
        is_titled(*window) ==> is_measurable(window.rect),
    ensures
        match source {
            Some(s) => is_listed(*window) && s@ == window_source(*window),
            None => !is_listed(*window),
        },
        // In terms of the window's own sides, title and handle.
        source is Some <==> {
            &&& window.visible
            &&& window.title@.len() > 0
            &&& !is_blank(utf16_lossy(window.title@))
            &&& window.rect.right - window.rect.left >= 100
            &&& window.rect.bottom - window.rect.top >= 100
        },
        source matches Some(s) ==> {
            &&& s.width == window.rect.right - window.rect.left
            &&& s.height == window.rect.bottom - window.rect.top
            &&& s.name@ == utf16_lossy(window.title@)
            &&& s.hwnd == Some(window.hwnd)
            &&& s.monitor_index is None
            &&& s.kind@ == "window"@
            &&& s.thumbnail_b64 is None
        },
{
    if !has_title(window) {
        return None;
    }
    let name = text_from_utf16(window.title.as_slice());
    let w = to_not_negative(window.rect.right - window.rect.left);
    let h = to_not_negative(window.rect.bottom - window.rect.top);
    if w < 100 || h < 100 {
        return None;
    }
    let mut id = "window:".to_string();
    id.append(decimal_int_text(window.hwnd as i64).as_str());
    proof {
        reveal_strlit("window:");
        assert(id@ =~= window_id(window.hwnd));
    }
    Some(
        CaptureSource {
            id,
            name,
            kind: "window".to_string(),
            hwnd: Some(window.hwnd),
            monitor_index: None,
            width: w,
            height: h,
            thumbnail_b64: None,
        },
    )
}

/// The outputs can be numbered, and each that has a place on the desktop has a size.
pub open spec fn outputs_fit(outputs: Option<Vec<Option<Rect>>>) -> bool {
    outputs matches Some(list) ==> list@.len() < u32::MAX && forall|i: int|
        0 <= i < list@.len() ==> (#[trigger] list@[i] matches Some(rect) ==> is_measurable(rect))
}

/// Each window that can be seen and has a title that is not blank has a size.
pub open spec fn windows_fit(windows: Seq<WindowInfo>) -> bool {
    forall|i: int|
        0 <= i < windows.len() && is_titled(#[trigger] windows[i]) ==> is_measurable(
            windows[i].rect,
        )
}

/// All sources: the monitors first, then the windows. Where the outputs cannot be listed at all,
/// there are none.
pub open spec fn sources_win(
    outputs: Option<Vec<Option<Rect>>>,
    windows: Seq<WindowInfo>,
) -> Seq<SourceView> {
    match outputs {
        Some(list) => monitor_sources(list@) + window_sources(windows),
        None => seq![],
    }
}

/// All sources, in order.
pub fn enumerate_sources_win(
    outputs: &Option<Vec<Option<Rect>>>,
    windows: &Vec<WindowInfo>,
) -> (sources: Vec<CaptureSource>)
    requires
        outputs_fit(*outputs),
        outputs is Some ==> windows_fit(windows@),
    ensures
        source_views(sources@) == sources_win(*outputs, windows@),
        forall|i: int|
            #![trigger sources@[i]]
            0 <= i < sources@.len() ==> {
                let shown = sources_win(*outputs, windows@)[i];
                &&& sources@[i].id@ == shown.id
                &&& sources@[i].name@ == shown.name
                &&& sources@[i].kind@ == shown.kind
                &&& sources@[i].hwnd == shown.hwnd
                &&& sources@[i].monitor_index == shown.monitor_index
                &&& sources@[i].width == shown.width
                &&& sources@[i].height == shown.height
            },
{
    let mut sources: Vec<CaptureSource> = Vec::new();
    match outputs {
        None => {
            assert(source_views(sources@) =~= seq![]);
        },
        Some(list) => {
            let mut i: usize = 0;
            assert(list@.take(0) =~= seq![]);
            assert(source_views(sources@) =~= monitor_sources(list@.take(0)));
            while i < list.len()
                invariant
                    i <= list@.len() < u32::MAX,
                    forall|j: int|
                        0 <= j < list@.len() ==> (#[trigger] list@[j] matches Some(rect)
                            ==> is_measurable(rect)),
                    sources@.len() <= i,
                    source_views(sources@) == monitor_sources(list@.take(i as int)),
                decreases list@.len() - i,
            {
                assert(list@.take(i + 1).drop_last() =~= list@.take(i as int));
                assert(list@.take(i + 1).last() == list@[i as int]);
                if let Some(rect) = list[i] {
                    let ghost before = source_views(sources@);
                    let source = make_monitor_source(sources.len() as u32, rect);
                    let ghost view = source@;
                    sources.push(source);
                    assert(source_views(sources@) =~= before.push(view));
                }
                i += 1;
            }
            assert(list@.take(i as int) =~= list@);
            let ghost monitors = source_views(sources@);
            i = 0;
            assert(windows@.take(0) =~= seq![]);
            assert(source_views(sources@) =~= monitors + window_sources(windows@.take(0)));
            while i < windows.len()
                invariant
                    i <= windows@.len(),
                    windows_fit(windows@),
                    source_views(sources@) == monitors + window_sources(windows@.take(i as int)),
                decreases windows@.len() - i,
            {
                assert(windows@.take(i + 1).drop_last() =~= windows@.take(i as int));
                assert(windows@.take(i + 1).last() == windows@[i as int]);
                let ghost before = source_views(sources@);
                if let Some(source) = window_to_source(&windows[i]) {
                    let ghost view = source@;
                    sources.push(source);
                    assert(source_views(sources@) =~= before.push(view));
                    assert(before.push(view) =~= monitors + window_sources(
                        windows@.take(i as int),
                    ).push(view));
                }
                i += 1;
            }
            assert(windows@.take(i as int) =~= windows@);
        },
    }
    assert forall|i: int| #![trigger sources@[i]] 0 <= i < sources@.len() implies sources_win(
        *outputs,
        windows@,
    )[i] == sources@[i]@ by {
        assert(source_views(sources@)[i] == sources@[i]@);
    }
    sources
}

/// All sources, where every rectangle that matters has a size.
pub fn measured_sources_win(
    outputs: &Option<Vec<Option<Rect>>>,
    windows: &Vec<WindowInfo>,
) -> (sources: Option<Vec<CaptureSource>>)
    ensures
        match sources {
            Some(list) => {
                &&& outputs_fit(*outputs)
                &&& outputs is Some ==> windows_fit(windows@)
                &&& source_views(list@) == sources_win(*outputs, windows@)
            },
            None => !outputs_fit(*outputs) || (outputs is Some && !windows_fit(windows@)),
        },
{
    if let Some(list) = outputs {
        if list.len() >= u32::MAX as usize {
            return None;
        }
        let mut i: usize = 0;
        while i < list.len()
            invariant
                i <= list@.len() < u32::MAX,
                *outputs == Some(*list),
                forall|j: int|
                    0 <= j < i ==> (#[trigger] list@[j] matches Some(rect) ==> is_measurable(rect)),
            decreases list@.len() - i,
        {
            if let Some(rect) = &list[i] {
                if !has_size(rect) {
                    assert(list@[i as int] is Some);
                    return None;
                }
            }
            i += 1;
        }
        i = 0;
        while i < windows.len()
            invariant
                i <= windows@.len(),
                *outputs == Some(*list),
                forall|j: int|
                    0 <= j < i && is_titled(#[trigger] windows@[j]) ==> is_measurable(
                        windows@[j].rect,
                    ),
            decreases windows@.len() - i,
        {
            if !has_size(&windows[i].rect) && has_title(&windows[i]) {
                assert(is_titled(windows@[i as int]));
                return None;
            }
            i += 1;
        }
    }
    Some(enumerate_sources_win(outputs, windows))
}

/// Every monitor that is offered stands at the place of its own number, and its id names it;
/// every window that is offered has an id that names it.
pub proof fn offered_sources_can_be_opened(
    outputs: Seq<Option<Rect>>,
    windows: Seq<WindowInfo>,
    i: int,
)
    requires
        outputs.len() < u32::MAX,
    ensures
        0 <= i < monitor_sources(outputs).len() ==> {
            let source = monitor_sources(outputs)[i];
            &&& source.monitor_index == Some(i as u32)
            &&& source_target(source.id) == Ok::<_, Seq<char>>(
                CaptureTarget::Monitor { index: i as u32 },
            )
        },
        0 <= i < window_sources(windows).len() ==> {
            let source = window_sources(windows)[i];
            &&& source.hwnd matches Some(hwnd)
            &&& source_target(source.id) == Ok::<_, Seq<char>>(
                CaptureTarget::Window { hwnd },
            )
        },
        monitor_sources(outputs).len() <= outputs.len(),
    decreases outputs.len() + windows.len(),
{
    if outputs.len() > 0 {
        offered_sources_can_be_opened(outputs.drop_last(), windows, i);
        source_ids_name_their_target(i as u32, 0);
    } else if windows.len() > 0 {
        offered_sources_can_be_opened(outputs, windows.drop_last(), i);
        source_ids_name_their_target(0, windows.last().hwnd);
    }
}

/// Every ordinary desktop can be listed: rectangles can be measured wherever their sides fit into
/// 32 bits, and that is all that is asked of outputs and windows, besides a number for each output.
pub proof fn every_ordinary_desktop_can_be_listed(
    outputs: Option<Vec<Option<Rect>>>,
    windows: Seq<WindowInfo>,
    rect: Rect,
)
    requires
        outputs matches Some(list) ==> list@.len() < u32::MAX && forall|i: int|
            0 <= i < list@.len() ==> (#[trigger] list@[i] matches Some(r) ==> -0x8000_0000 <= r.right
                - r.left <= 0x7FFF_FFFF && -0x8000_0000 <= r.bottom - r.top <= 0x7FFF_FFFF),
        forall|i: int|
            0 <= i < windows.len() && is_titled(#[trigger] windows[i]) ==> -0x8000_0000
                <= windows[i].rect.right - windows[i].rect.left <= 0x7FFF_FFFF && -0x8000_0000
                <= windows[i].rect.bottom - windows[i].rect.top <= 0x7FFF_FFFF,
    ensures
        outputs_fit(outputs),
        windows_fit(windows),
        -0x8000_0000 <= rect.right - rect.left <= 0x7FFF_FFFF && -0x8000_0000 <= rect.bottom
            - rect.top <= 0x7FFF_FFFF <==> is_measurable(rect),
{
}

/// A window is shown as it is: it is offered exactly where it can be seen, has a title that is not
/// blank and is at least 100 pixels wide and high; and it is offered under its title and with its
/// own width and height.
pub proof fn a_window_is_shown_as_it_is(window: WindowInfo)
    requires
        is_measurable(window.rect),
    ensures
        ({
            let width = window.rect.right - window.rect.left;
            let height = window.rect.bottom - window.rect.top;
            let source = window_source(window);
            &&& is_listed(window) <==> {
                &&& window.visible
                &&& window.title@.len() > 0
                &&& !is_blank(utf16_lossy(window.title@))
                &&& width >= 100
                &&& height >= 100
            }
            &&& is_listed(window) ==> {
                &&& source.width == width
                &&& source.height == height
                &&& source.name == utf16_lossy(window.title@)
                &&& source.hwnd == Some(window.hwnd)
                &&& source.thumbnail_b64 is None
            }
        }),
{
}

/// A monitor is shown as it is: with the width and height of its part of the desktop, and under a
/// name that tells its number, counted from 1, and its size. Sides that are negative are counted
/// modulo 2 to the 32nd.
pub proof fn a_monitor_is_shown_as_it_is(index: u32, rect: Rect)
    requires
        is_measurable(rect),
    ensures
        ({
            let width = (rect.right - rect.left) % 0x1_0000_0000;
            let height = (rect.bottom - rect.top) % 0x1_0000_0000;
            let source = monitor_source(index, rect);
            &&& source.width == width
            &&& source.height == height
            &&& source.name == "Display "@ + decimal((index + 1) as nat) + " ("@ + decimal(
                width as nat,
            ) + "×"@ + decimal(height as nat) + ")"@
            &&& source.monitor_index == Some(index)
            &&& source.hwnd is None
            &&& source.thumbnail_b64 is None
        }),
{
}

/// The sides of a rectangle are told apart: turning it on its side exchanges width and height of
/// the source, and moving it changes neither.
pub proof fn sources_turn_with_their_rectangle(
    window: WindowInfo,
    turned: WindowInfo,
    moved: WindowInfo,
    dx: int,
    dy: int,
)
    requires
        is_measurable(window.rect),
        is_measurable(turned.rect),
        is_measurable(moved.rect),
        turned.rect.right - turned.rect.left == window.rect.bottom - window.rect.top,
        turned.rect.bottom - turned.rect.top == window.rect.right - window.rect.left,
        moved.rect.left == window.rect.left + dx,
        moved.rect.right == window.rect.right + dx,
        moved.rect.top == window.rect.top + dy,
        moved.rect.bottom == window.rect.bottom + dy,
    ensures
        window_source(turned).width == window_source(window).height,
        window_source(turned).height == window_source(window).width,
        window_source(moved).width == window_source(window).width,
        window_source(moved).height == window_source(window).height,
{
}

/// No window that is to be offered is left out, none is offered that is not, and their order
/// stays: the sources are those of the listed windows, one for one.
pub proof fn every_listed_window_is_offered(windows: Seq<WindowInfo>)
    ensures
        window_sources(windows) == windows.filter(|w: WindowInfo| is_listed(w)).map_values(
            |w: WindowInfo| window_source(w),
        ),
    decreases windows.len(),
{
    reveal(Seq::filter);
    let listed = windows.filter(|w: WindowInfo| is_listed(w));
    if windows.len() > 0 {
        every_listed_window_is_offered(windows.drop_last());
    }
    assert(window_sources(windows) =~= listed.map_values(|w: WindowInfo| window_source(w)));
}

/// No output that can be described is left out, and their order stays: the sources are those of
/// the described outputs, one for one, numbered through from 0.
pub proof fn every_described_output_is_offered(outputs: Seq<Option<Rect>>)
    requires
        outputs.len() < u32::MAX,
    ensures
        ({
            let described = outputs.filter(|o: Option<Rect>| o is Some);
            &&& monitor_sources(outputs).len() == described.len()
            &&& forall|i: int|
                0 <= i < described.len() ==> #[trigger] monitor_sources(outputs)[i]
                    == monitor_source(i as u32, described[i]->0)
        }),
    decreases outputs.len(),
{
    reveal(Seq::filter);
    if outputs.len() > 0 {
        let front = outputs.drop_last();
        every_described_output_is_offered(front);
        let described = outputs.filter(|o: Option<Rect>| o is Some);
        let before = front.filter(|o: Option<Rect>| o is Some);
        assert forall|i: int| 0 <= i < described.len() implies #[trigger] monitor_sources(
            outputs,
        )[i] == monitor_source(i as u32, described[i]->0) by {
            if i < before.len() {
                assert(monitor_sources(front)[i] == monitor_source(i as u32, before[i]->0));
            }
        }
    }
}

/// Every source of the lists is consistent, and so is the index of every monitor.
proof fn lemma_sources_are_consistent(
    outputs: Seq<Option<Rect>>,
    windows: Seq<WindowInfo>,
    i: int,
)
    requires
        outputs.len() < u32::MAX,
    ensures
        0 <= i < monitor_sources(outputs).len() ==> is_consistent(monitor_sources(outputs)[i])
            && monitor_sources(outputs)[i].monitor_index == Some(i as u32),
        0 <= i < window_sources(windows).len() ==> is_consistent(window_sources(windows)[i])
            && window_sources(windows)[i].hwnd is Some,
        monitor_sources(outputs).len() <= outputs.len(),
    decreases outputs.len() + windows.len(),
{
    reveal_strlit("monitor");
    reveal_strlit("window");
    assert("monitor"@[0] == 'm' && "window"@[0] == 'w');
    if outputs.len() > 0 {
        lemma_sources_are_consistent(outputs.drop_last(), windows, i);
        source_ids_name_their_target(i as u32, 0);
    } else if windows.len() > 0 {
        lemma_sources_are_consistent(outputs, windows.drop_last(), i);
        source_ids_name_their_target(0, windows.last().hwnd);
    }
}

/// No two windows have the same handle.
pub open spec fn are_distinct(windows: Seq<WindowInfo>) -> bool {
    forall|i: int, j: int|
        0 <= i < j < windows.len() ==> (#[trigger] windows[i]).hwnd != (#[trigger] windows[j]).hwnd
}

/// The windows that are offered come from windows of the list.
proof fn lemma_offered_window(windows: Seq<WindowInfo>, i: int)
    requires
        0 <= i < window_sources(windows).len(),
    ensures
        exists|k: int|
            0 <= k < windows.len() && window_sources(windows)[i].hwnd == Some(
                (#[trigger] windows[k]).hwnd,
            ),
    decreases windows.len(),
{
    let front = windows.drop_last();
    if i < window_sources(front).len() {
        lemma_offered_window(front, i);
        let k = choose|k: int|
            0 <= k < front.len() && window_sources(front)[i].hwnd == Some(
                (#[trigger] front[k]).hwnd,
            );
        assert(windows[k].hwnd == front[k].hwnd);
    } else {
        assert(windows[windows.len() - 1] == windows.last());
    }
}

/// Offered windows have different handles where the windows have.
proof fn lemma_offered_windows_differ(windows: Seq<WindowInfo>, i: int, j: int)
    requires
        are_distinct(windows),
        0 <= i < j < window_sources(windows).len(),
    ensures
        window_sources(windows)[i].hwnd != window_sources(windows)[j].hwnd,
    decreases windows.len(),
{
    let front = windows.drop_last();
    assert(are_distinct(front)) by {
        assert forall|a: int, b: int| 0 <= a < b < front.len() implies (#[trigger] front[a]).hwnd
            != (#[trigger] front[b]).hwnd by {
            assert(front[a] == windows[a] && front[b] == windows[b]);
        }
    }
    if j < window_sources(front).len() {
        lemma_offered_windows_differ(front, i, j);
    } else {
        lemma_offered_window(front, i);
        let k = choose|k: int|
            0 <= k < front.len() && window_sources(front)[i].hwnd == Some(
                (#[trigger] front[k]).hwnd,
            );
        assert(windows[k].hwnd == front[k].hwnd);
        assert(windows[windows.len() - 1] == windows.last());
    }
}

/// The list of sources is fit for the picker: every source can be opened and says the same with
/// all of its parts, no two have the same id, and the monitors come first. The system gives every
/// window a handle of its own.
pub proof fn the_sources_are_well_listed(outputs: Seq<Option<Rect>>, windows: Seq<WindowInfo>)
    requires
        outputs.len() < u32::MAX,
        are_distinct(windows),
    ensures
        is_well_listed(monitor_sources(outputs) + window_sources(windows)),
{
    let monitors = monitor_sources(outputs);
    let all = monitors + window_sources(windows);
    let n = monitors.len() as int;
    reveal_strlit("monitor");
    reveal_strlit("window");
    assert("monitor"@[0] == 'm' && "window"@[0] == 'w');
    assert forall|i: int| 0 <= i < all.len() implies is_consistent(#[trigger] all[i]) && (if i < n {
        all[i].monitor_index == Some(i as u32) && all[i].kind == "monitor"@
    } else {
        all[i].kind == "window"@ && all[i].hwnd is Some
    }) by {
        lemma_sources_are_consistent(outputs, windows, i);
        lemma_sources_are_consistent(outputs, windows, i - n);
    }
    lemma_sources_are_consistent(outputs, windows, 0);
    assert forall|i: int, j: int| 0 <= i < j < all.len() implies (#[trigger] all[i]).id != (
    #[trigger] all[j]).id by {
        assert(is_consistent(all[i]) && is_consistent(all[j]));
        if j < n {
            source_ids_name_their_target(i as u32, 0);
            source_ids_name_their_target(j as u32, 0);
        } else if i < n {
            assert(source_target(all[i].id) is Ok);
        } else {
            lemma_offered_windows_differ(windows, i - n, j - n);
            source_ids_name_their_target(0, all[i].hwnd->0);
            source_ids_name_their_target(0, all[j].hwnd->0);
        }
    }
}

/// The outputs of all adapters, one adapter after the other.
pub open spec fn all_outputs(adapters: Seq<Seq<Option<Rect>>>) -> Seq<Option<Rect>>
    decreases adapters.len(),
{
    if adapters.len() == 0 {
        seq![]
    } else {
        adapters[0] + all_outputs(adapters.drop_first())
    }
}

/// How many outputs each adapter has.
pub open spec fn output_counts(adapters: Seq<Seq<Option<Rect>>>) -> Seq<u32> {
    Seq::new(adapters.len(), |i: int| adapters[i].len() as u32)
}

/// Every monitor of the list stands for the output at its place, where all can be described.
proof fn lemma_described_outputs(outputs: Seq<Option<Rect>>)
    requires
        forall|i: int| 0 <= i < outputs.len() ==> #[trigger] outputs[i] is Some,
    ensures
        monitor_sources(outputs).len() == outputs.len(),
        forall|i: int|
            0 <= i < outputs.len() ==> #[trigger] monitor_sources(outputs)[i] == monitor_source(
                i as u32,
                outputs[i]->0,
            ),
    decreases outputs.len(),
{
    if outputs.len() > 0 {
        let front = outputs.drop_last();
        assert forall|i: int| 0 <= i < front.len() implies #[trigger] front[i] is Some by {
            assert(front[i] == outputs[i]);
        }
        lemma_described_outputs(front);
        assert(outputs[outputs.len() - 1] == outputs.last());
        assert(outputs.last() is Some);
        assert forall|i: int| 0 <= i < outputs.len() implies #[trigger] monitor_sources(outputs)[i]
            == monitor_source(i as u32, outputs[i]->0) by {
            if i < front.len() {
                assert(front[i] == outputs[i]);
                assert(monitor_sources(front)[i] == monitor_source(i as u32, front[i]->0));
            }
        }
    }
}

/// The output with number `index`, counted through, is found at the adapter and the place that
/// [`monitor_at`] names.
proof fn lemma_found_output(adapters: Seq<Seq<Option<Rect>>>, index: int)
    requires
        forall|i: int| 0 <= i < adapters.len() ==> (#[trigger] adapters[i]).len() <= u32::MAX,
        0 <= index < all_outputs(adapters).len(),
    ensures
        monitor_at(output_counts(adapters), index) matches Some((a, o)) && 0 <= a < adapters.len()
            && 0 <= o < adapters[a].len() && adapters[a][o] == all_outputs(adapters)[index],
    decreases adapters.len(),
{
    let counts = output_counts(adapters);
    let rest = adapters.drop_first();
    assert(counts[0] == adapters[0].len());
    if index >= adapters[0].len() {
        assert forall|i: int| 0 <= i < rest.len() implies (#[trigger] rest[i]).len()
            <= u32::MAX by {
            assert(rest[i] == adapters[i + 1]);
        }
        assert(counts.drop_first() =~= output_counts(rest));
        lemma_found_output(rest, index - adapters[0].len());
    }
}

/// What the picker shows is what is captured: where every output can be described, the monitor
/// with number `index` in the list shows the very output that is found for this number.
pub proof fn the_chosen_monitor_is_captured(adapters: Seq<Seq<Option<Rect>>>, index: int)
    requires
        forall|i: int| 0 <= i < adapters.len() ==> (#[trigger] adapters[i]).len() <= u32::MAX,
        forall|i: int|
            0 <= i < all_outputs(adapters).len() ==> #[trigger] all_outputs(adapters)[i] is Some,
        0 <= index < monitor_sources(all_outputs(adapters)).len(),
    ensures
        ({
            &&& monitor_at(output_counts(adapters), index) matches Some((a, o))
            &&& 0 <= a < adapters.len()
            &&& 0 <= o < adapters[a].len()
            &&& adapters[a][o] matches Some(rect)
            &&& monitor_sources(all_outputs(adapters))[index] == monitor_source(
                index as u32,
                rect,
            )
        }),
{
    lemma_described_outputs(all_outputs(adapters));
    lemma_found_output(adapters, index);
    assert(all_outputs(adapters)[index] is Some);
}

// ---- Frames ----

/// The frame in a mapped texture whose rows start `row_pitch` bytes apart.
pub fn frame_from_mapped(
    raw: &[u8],
    row_pitch: usize,
    width: u32,
    height: u32,
    pts_us: u64,
) -> (frame: VideoFrame)
    requires
        4 * width <= u32::MAX,
        4 * width * height <= u32::MAX,
        height > 0 ==> (height - 1) * row_pitch + 4 * width <= raw@.len(),
    ensures
        frame.data@ == packed_rows(raw@, row_pitch as int, width as int, height as int),
        frame.width == width,
        frame.height == height,
        frame.pts_us == pts_us,
{
    VideoFrame { data: Arc::new(copy_rows(raw, row_pitch, width, height)), width, height, pts_us }
}

/// What the thread of a capture reports before its first frame: the size, or why there is none;
/// nothing where it died.
pub type Ready = Option<Result<(u32, u32), String>>;

/// The session that the report of a capture thread stands for.
pub open spec fn session_of(
    ready: Ready,
    method: CaptureMethod,
    died: Seq<char>,
    r: Result<CaptureSession, String>,
) -> bool {
    match ready {
        Some(Ok((width, height))) => r == Ok::<CaptureSession, String>(
            CaptureSession { method, width, height },
        ),
        Some(Err(e)) => r == Err::<CaptureSession, String>(e),
        None => r matches Err(e) && e@ == died,
    }
}

/// A capture is reported in its own size and under its own method, a failure in its own words, and
/// a thread that died as such.
pub proof fn a_capture_is_reported_as_it_is(
    ready: Ready,
    method: CaptureMethod,
    died: Seq<char>,
    r: Result<CaptureSession, String>,
)
    requires
        session_of(ready, method, died, r),
    ensures
        ready matches Some(Ok((width, height))) ==> {
            &&& r matches Ok(session)
            &&& session.method == method
            &&& session.width == width
            &&& session.height == height
        },
        ready matches Some(Err(text)) ==> (r matches Err(e) && e@ == text@),
        ready is None ==> (r matches Err(e) && e@ == died),
{
}

/// The outcome of trying Windows Graphics Capture.
pub fn try_wgc(ready: Ready) -> (r: Result<CaptureSession, String>)
    ensures
        session_of(
            ready,
            CaptureMethod::WindowsGraphicsCapture,
            "WGC setup thread panicked"@,
            r,
        ),
        ready matches Some(Ok((width, height))) ==> {
            &&& r matches Ok(session)
            &&& session.method is WindowsGraphicsCapture
            &&& session.width == width
            &&& session.height == height
        },
        r is Ok <==> ready matches Some(Ok(_)),
{
    match ready {
        Some(Ok((width, height))) => Ok(
            CaptureSession { method: CaptureMethod::WindowsGraphicsCapture, width, height },
        ),
        Some(Err(e)) => Err(e),
        None => Err("WGC setup thread panicked".to_string()),
    }
}

/// The outcome of trying Desktop Duplication.
pub fn try_dxgi(ready: Ready) -> (r: Result<CaptureSession, String>)
    ensures
        session_of(
            ready,
            CaptureMethod::DxgiDesktopDuplication,
            "DXGI setup thread panicked"@,
            r,
        ),
        ready matches Some(Ok((width, height))) ==> {
            &&& r matches Ok(session)
            &&& session.method is DxgiDesktopDuplication
            &&& session.width == width
            &&& session.height == height
        },
        r is Ok <==> ready matches Some(Ok(_)),
{
    match ready {
        Some(Ok((width, height))) => Ok(
            CaptureSession { method: CaptureMethod::DxgiDesktopDuplication, width, height },
        ),
        Some(Err(e)) => Err(e),
        None => Err("DXGI setup thread panicked".to_string()),
    }
}

/// The output that Desktop Duplication captures: a window cannot be captured alone, so the first
/// output stands in for it.
pub fn dxgi_monitor(target: &CaptureTarget) -> (index: u32)
    ensures
        index == (match target {
            CaptureTarget::Monitor { index: i } => *i,
            CaptureTarget::Window { hwnd: _ } => 0,
        }),
{
    match target {
        CaptureTarget::Monitor { index } => *index,
        CaptureTarget::Window { hwnd: _ } => 0,
    }
}

// ---- The loop of Windows Graphics Capture ----

/// The times of a capture loop, in microseconds since it began.
#[derive(Debug, Clone, Copy, PartialEq, Eq, Structural)]
pub struct WgcLoop {
    /// From one frame to the next.
    pub frame_us: u64,
    /// When the next frame is due.
    pub next_frame_us: u64,
    /// When the stop signal was last looked at.
    pub last_stop_check_us: u64,
}

/// What the capture loop has just seen.
pub enum WgcEvent {
    /// A turn of the loop begins.
    Top { now_us: u64 },
    /// The stop signal was looked at.
    StopChecked { stopped: bool, now_us: u64 },
    /// The pause is over.
    Woke { now_us: u64 },
    /// No frame is ready, or it could not be read.
    NoFrame,
    /// A frame was read.
    Frame(VideoFrame),
    /// The frame was offered to the encoder, which took it or did not, and may be gone.
    Offered { taken: bool, closed: bool },
}

/// What the capture loop does next.
pub enum WgcAction {
    /// Look at the stop signal.
    CheckStop,
    /// Pause for so many microseconds.
    Sleep { us: u64 },
    /// Ask for a frame.
    Grab,
    /// Offer the frame to the encoder, without waiting.
    Offer(VideoFrame),
    /// Begin the next turn.
    Again,
    /// Close the capture.
    Exit,
}

/// The frame is asked for as soon as it is due.
pub open spec fn paces(before: WgcLoop, now_us: u64, after: WgcLoop, action: WgcAction) -> bool {
    if now_us < before.next_frame_us {
        after == before && action == (WgcAction::Sleep {
            us: (before.next_frame_us - now_us) as u64,
        })
    } else {
        grabs(before, now_us, after, action)
    }
}

/// The frame is asked for, and the next one is due an interval later.
pub open spec fn grabs(before: WgcLoop, now_us: u64, after: WgcLoop, action: WgcAction) -> bool {
    &&& after == WgcLoop { next_frame_us: (now_us + before.frame_us) as u64, ..before }
    &&& action is Grab
}

/// One turn of the loop, step by step: the stop signal is looked at when more than 16 ms have
/// passed, frames are paced, one that the encoder does not take is dropped, and the loop ends
/// when it is stopped or the encoder is gone.
pub open spec fn wgc_step(
    before: WgcLoop,
    event: WgcEvent,
    after: WgcLoop,
    action: WgcAction,
) -> bool {
    match event {
        WgcEvent::Top { now_us } => if now_us - before.last_stop_check_us >= 17_000 {
            after == before && action is CheckStop
        } else {
            paces(before, now_us, after, action)
        },
        WgcEvent::StopChecked { stopped, now_us } => if stopped {
            after == before && action is Exit
        } else {
            paces(WgcLoop { last_stop_check_us: now_us, ..before }, now_us, after, action)
        },
        WgcEvent::Woke { now_us } => grabs(before, now_us, after, action),
        WgcEvent::NoFrame => after == before && action is Again,
        WgcEvent::Frame(frame) => after == before && action == WgcAction::Offer(frame),
        WgcEvent::Offered { taken, closed } => after == before && if !taken && closed {
            action is Exit
        } else {
            action is Again
        },
    }
}

/// The clock reading that an event carries can still be counted on.
pub open spec fn in_time(before: WgcLoop, event: WgcEvent) -> bool {
    match event {
        WgcEvent::Top { now_us } | WgcEvent::StopChecked { stopped: _, now_us }
        | WgcEvent::Woke { now_us } => now_us + before.frame_us <= u64::MAX,
        _ => true,
    }
}

impl WgcLoop {
    /// A loop that begins now, with a frame due at once.
    pub fn new(fps_limit: u32) -> (l: Self)
        ensures
            l.frame_us == 1_000_000int / capped_fps(fps_limit),
            l.frame_us >= 1_000_000int / 60,
            1 <= fps_limit <= 60 ==> fps_limit * l.frame_us <= 1_000_000 < fps_limit * (l.frame_us
                + 1),
            l.next_frame_us == 0,
            l.last_stop_check_us == 0,
    {
        WgcLoop {
            frame_us: frame_interval_us(fps_limit),
            next_frame_us: 0,
            last_stop_check_us: 0,
        }
    }

    fn grab(&mut self, now_us: u64) -> (action: WgcAction)
        requires
            now_us + old(self).frame_us <= u64::MAX,
        ensures
            grabs(*old(self), now_us, *final(self), action),
    {
        self.next_frame_us = now_us + self.frame_us;
        WgcAction::Grab
    }

    fn pace(&mut self, now_us: u64) -> (action: WgcAction)
        requires
            now_us + old(self).frame_us <= u64::MAX,
        ensures
            paces(*old(self), now_us, *final(self), action),
    {
        if now_us < self.next_frame_us {
            WgcAction::Sleep { us: self.next_frame_us - now_us }
        } else {
            self.grab(now_us)
        }
    }

    /// Takes one step of the loop.
    pub fn step(&mut self, event: WgcEvent) -> (action: WgcAction)
        requires
            in_time(*old(self), event),
        ensures
            wgc_step(*old(self), event, *final(self), action),
    {
        match event {
            WgcEvent::Top { now_us } => if now_us >= self.last_stop_check_us && (now_us
                - self.last_stop_check_us) / 1000 > 16 {
                WgcAction::CheckStop
            } else {
                self.pace(now_us)
            },
            WgcEvent::StopChecked { stopped, now_us } => if stopped {
                WgcAction::Exit
            } else {
                self.last_stop_check_us = now_us;
                self.pace(now_us)
            },
            WgcEvent::Woke { now_us } => self.grab(now_us),
            WgcEvent::NoFrame => WgcAction::Again,
            WgcEvent::Frame(frame) => WgcAction::Offer(frame),
            WgcEvent::Offered { taken, closed } => if !taken && closed {
                WgcAction::Exit
            } else {
                WgcAction::Again
            },
        }
    }
}

/// The clock reading that an event carries, where it carries one.
pub open spec fn wgc_clock(event: WgcEvent) -> Option<u64> {
    match event {
        WgcEvent::Top { now_us } => Some(now_us),
        WgcEvent::StopChecked { stopped: _, now_us } => Some(now_us),
        WgcEvent::Woke { now_us } => Some(now_us),
        _ => None,
    }
}

/// `event` tells what became of `action`, which the loop decided on after `before`. A pause lasts
/// at least as long as it was asked for.
pub open spec fn wgc_follows(before: WgcEvent, action: WgcAction, event: WgcEvent) -> bool {
    match action {
        WgcAction::CheckStop => event is StopChecked,
        WgcAction::Sleep { us } => {
            &&& event matches WgcEvent::Woke { now_us }
            &&& wgc_clock(before) matches Some(t)
            &&& now_us >= t + us
        },
        WgcAction::Grab => event is NoFrame || event is Frame,
        WgcAction::Offer(_) => event is Offered,
        WgcAction::Again => event is Top,
        WgcAction::Exit => false,
    }
}

/// `states` and `actions` are a course that `events` make the loop take, from the top of a turn.
pub open spec fn is_wgc_course(
    states: Seq<WgcLoop>,
    events: Seq<WgcEvent>,
    actions: Seq<WgcAction>,
) -> bool {
    &&& states.len() == events.len() + 1
    &&& actions.len() == events.len()
    &&& events.len() > 0 ==> events[0] is Top
    &&& forall|i: int|
        #![trigger events[i]]
        0 <= i < events.len() ==> in_time(states[i], events[i]) && wgc_step(
            states[i],
            events[i],
            states[i + 1],
            actions[i],
        )
    &&& forall|i: int|
        #![trigger actions[i]]
        0 <= i < events.len() - 1 ==> wgc_follows(events[i], actions[i], events[i + 1])
}

/// After a frame was asked for, the next one is due no earlier than an interval later.
proof fn lemma_wgc_due(
    states: Seq<WgcLoop>,
    events: Seq<WgcEvent>,
    actions: Seq<WgcAction>,
    i: int,
    k: int,
)
    requires
        is_wgc_course(states, events, actions),
        0 <= i < k <= events.len(),
        actions[i] is Grab,
    ensures
        states[k].frame_us == states[i].frame_us,
        wgc_clock(events[i]) matches Some(t) && states[k].next_frame_us >= t + states[i].frame_us,
    decreases k,
{
    assert(wgc_step(states[k - 1], events[k - 1], states[k], actions[k - 1]));
    assert(in_time(states[k - 1], events[k - 1]));
    if k - 1 > i {
        lemma_wgc_due(states, events, actions, i, k - 1);
        if events[k - 1] is Woke {
            lemma_wgc_woke(states, events, actions, k - 1);
        }
    }
}

/// The loop wakes up only when a frame is due.
proof fn lemma_wgc_woke(
    states: Seq<WgcLoop>,
    events: Seq<WgcEvent>,
    actions: Seq<WgcAction>,
    k: int,
)
    requires
        is_wgc_course(states, events, actions),
        0 <= k < events.len(),
        events[k] is Woke,
    ensures
        wgc_clock(events[k]) matches Some(t) && t >= states[k].next_frame_us,
{
    assert(k > 0);
    assert(wgc_follows(events[k - 1], actions[k - 1], events[k]));
    assert(wgc_step(states[k - 1], events[k - 1], states[k], actions[k - 1]));
}

/// Frames keep their distance: between any two of them that the loop asks for, at least an
/// interval passes. A loop made by [`WgcLoop::new`] has an interval of a sixtieth of a second or
/// more, so that it gives at most 60 frames a second.
pub proof fn frames_keep_their_distance(
    states: Seq<WgcLoop>,
    events: Seq<WgcEvent>,
    actions: Seq<WgcAction>,
    i: int,
    j: int,
)
    requires
        is_wgc_course(states, events, actions),
        0 <= i < j < events.len(),
        actions[i] is Grab,
        actions[j] is Grab,
    ensures
        ({
            &&& wgc_clock(events[i]) matches Some(t)
            &&& wgc_clock(events[j]) matches Some(u)
            &&& u >= t + states[0].frame_us
        }),
{
    lemma_wgc_due(states, events, actions, i, j);
    lemma_wgc_interval(states, events, actions, i);
    assert(wgc_step(states[j], events[j], states[j + 1], actions[j]));
    if events[j] is Woke {
        lemma_wgc_woke(states, events, actions, j);
    }
}

/// The interval of a loop never changes.
proof fn lemma_wgc_interval(
    states: Seq<WgcLoop>,
    events: Seq<WgcEvent>,
    actions: Seq<WgcAction>,
    k: int,
)
    requires
        is_wgc_course(states, events, actions),
        0 <= k <= events.len(),
    ensures
        states[k].frame_us == states[0].frame_us,
    decreases k,
{
    if k > 0 {
        lemma_wgc_interval(states, events, actions, k - 1);
        assert(wgc_step(states[k - 1], events[k - 1], states[k], actions[k - 1]));
    }
}

/// Every frame that is read is offered to the encoder, as it is, and nothing else is.
pub proof fn every_frame_is_offered(
    states: Seq<WgcLoop>,
    events: Seq<WgcEvent>,
    actions: Seq<WgcAction>,
    i: int,
)
    requires
        is_wgc_course(states, events, actions),
        0 <= i < events.len(),
    ensures
        match events[i] {
            WgcEvent::Frame(frame) => actions[i] == WgcAction::Offer(frame),
            _ => actions[i] !is Offer,
        },
{
    assert(wgc_step(states[i], events[i], states[i + 1], actions[i]));
}

/// The loop ends when it is told to stop, or when the encoder is gone and did not take its frame,
/// and never otherwise: a frame that is not taken by an encoder that is there is only dropped.
pub proof fn the_loop_ends_only_when_told(
    states: Seq<WgcLoop>,
    events: Seq<WgcEvent>,
    actions: Seq<WgcAction>,
    i: int,
)
    requires
        is_wgc_course(states, events, actions),
        0 <= i < events.len(),
    ensures
        actions[i] is Exit <==> {
            ||| events[i] matches WgcEvent::StopChecked { stopped, .. } && stopped
            ||| events[i] == (WgcEvent::Offered { taken: false, closed: true })
        },
        events[i] is Offered && actions[i] !is Exit ==> actions[i] is Again,
        events[i] is NoFrame ==> actions[i] is Again,
{
    assert(wgc_step(states[i], events[i], states[i + 1], actions[i]));
}

/// What a loop remembers: when the next frame is due, which is an interval after the last one was
/// asked for, and when the stop signal was last looked at.
proof fn lemma_wgc_remembers(
    states: Seq<WgcLoop>,
    events: Seq<WgcEvent>,
    actions: Seq<WgcAction>,
    i: int,
    k: int,
)
    requires
        is_wgc_course(states, events, actions),
        0 <= i < k <= events.len(),
    ensures
        actions[i] is Grab && (forall|j: int| i < j < k ==> !(#[trigger] actions[j] is Grab)) ==> (
        wgc_clock(events[i]) matches Some(t) && states[k].next_frame_us == t + states[0].frame_us),
        events[i] is StopChecked && actions[i] !is Exit && (forall|j: int|
            i < j < k ==> !(#[trigger] events[j] is StopChecked)) ==> (wgc_clock(
            events[i],
        ) matches Some(t) && states[k].last_stop_check_us == t),
    decreases k,
{
    assert(wgc_step(states[k - 1], events[k - 1], states[k], actions[k - 1]));
    assert(in_time(states[k - 1], events[k - 1]));
    lemma_wgc_interval(states, events, actions, k - 1);
    if k - 1 > i {
        lemma_wgc_remembers(states, events, actions, i, k - 1);
        if forall|j: int| i < j < k ==> !(#[trigger] actions[j] is Grab) {
            assert(!(actions[k - 1] is Grab));
        }
        if forall|j: int| i < j < k ==> !(#[trigger] events[j] is StopChecked) {
            assert(!(events[k - 1] is StopChecked));
        }
    }
}

/// Frames are not held back either: after one was asked for, the loop pauses until the interval is
/// over and not a moment longer, and the next one is asked for as soon as it is.
pub proof fn a_due_frame_is_asked_for(
    states: Seq<WgcLoop>,
    events: Seq<WgcEvent>,
    actions: Seq<WgcAction>,
    i: int,
    j: int,
)
    requires
        is_wgc_course(states, events, actions),
        0 <= i < j < events.len(),
        actions[i] is Grab,
        forall|k: int| i < k < j ==> !(#[trigger] actions[k] is Grab),
        wgc_clock(events[j]) is Some,
        actions[j] !is Exit,
        actions[j] !is CheckStop,
    ensures
        ({
            let due = wgc_clock(events[i])->0 + states[0].frame_us;
            let now = wgc_clock(events[j])->0;
            &&& now >= due ==> actions[j] is Grab
            &&& now < due ==> (actions[j] matches WgcAction::Sleep { us } && now + us == due)
        }),
{
    lemma_wgc_remembers(states, events, actions, i, j);
    assert(wgc_step(states[j], events[j], states[j + 1], actions[j]));
    if events[j] is Woke {
        lemma_wgc_woke(states, events, actions, j);
    }
}

/// A pause ends with a frame that is asked for.
pub proof fn a_pause_ends_with_a_frame(
    states: Seq<WgcLoop>,
    events: Seq<WgcEvent>,
    actions: Seq<WgcAction>,
    i: int,
)
    requires
        is_wgc_course(states, events, actions),
        0 <= i < events.len() - 1,
        actions[i] is Sleep,
    ensures
        actions[i + 1] is Grab,
{
    assert(wgc_follows(events[i], actions[i], events[i + 1]));
    assert(wgc_step(states[i + 1], events[i + 1], states[i + 2], actions[i + 1]));
}

/// The first frame is asked for at once, unless the stop signal is to be looked at first.
pub proof fn the_first_frame_is_asked_for(
    states: Seq<WgcLoop>,
    events: Seq<WgcEvent>,
    actions: Seq<WgcAction>,
)
    requires
        is_wgc_course(states, events, actions),
        events.len() > 0,
        states[0].next_frame_us == 0,
    ensures
        actions[0] is Grab || actions[0] is CheckStop,
{
    assert(wgc_step(states[0], events[0], states[1], actions[0]));
}

/// The stop signal is looked at in time: at the top of a turn, as soon as 17 ms have passed since
/// it was last looked at, and not before.
pub proof fn the_stop_signal_is_looked_at(
    states: Seq<WgcLoop>,
    events: Seq<WgcEvent>,
    actions: Seq<WgcAction>,
    i: int,
    j: int,
)
    requires
        is_wgc_course(states, events, actions),
        0 <= i < j < events.len(),
        events[i] is StopChecked,
        actions[i] !is Exit,
        forall|k: int| i < k < j ==> !(#[trigger] events[k] is StopChecked),
        events[j] is Top,
    ensures
        actions[j] is CheckStop <==> wgc_clock(events[j])->0 >= wgc_clock(events[i])->0 + 17_000,
{
    lemma_wgc_remembers(states, events, actions, i, j);
    assert(wgc_step(states[j], events[j], states[j + 1], actions[j]));
}

// ---- The loop of Desktop Duplication ----

/// How long Desktop Duplication waits for a frame, in milliseconds.
pub fn acquire_timeout_ms(fps_limit: u32) -> (ms: u32)
    ensures
        ms == (if 1000int / at_least_one(fps_limit) + 5 < 50 {
            1000int / at_least_one(fps_limit) + 5
        } else {
            50
        }),
        // The time of a frame and 5 ms more, and never more than 50 ms.
        fps_limit >= 23 ==> ms == 1000int / fps_limit as int + 5,
        fps_limit < 23 ==> ms == 50,
{
    let fps: u32 = if fps_limit == 0 {
        1
    } else {
        fps_limit
    };
    proof {
        if fps >= 23 {
            lemma_div_is_ordered_by_denominator(1000, 23, fps as int);
        } else {
            lemma_div_is_ordered_by_denominator(1000, fps as int, 22);
        }
    }
    let ms: u32 = 1000 / fps + 5;
    if ms < 50 {
        ms
    } else {
        50
    }
}

/// The times of a duplication loop, in microseconds since it began.
#[derive(Debug, Clone, Copy, PartialEq, Eq, Structural)]
pub struct DxgiLoop {
    /// From one frame to the next, at least.
    pub frame_us: u64,
    /// When the next frame is due.
    pub next_frame_us: u64,
}

/// What the duplication loop has just seen.
pub enum DxgiEvent {
    /// The stop signal was looked at, at the top of a turn.
    StopChecked { stopped: bool, now_us: u64 },
    /// The pause is over.
    Woke { now_us: u64 },
    /// A frame came: when it was last presented (0 where only the cursor moved), and whether it
    /// is a texture.
    Acquired { last_present_time: i64, is_texture: bool, now_us: u64 },
    /// No frame came in time.
    TimedOut,
    /// The output can no longer be duplicated, or something else failed.
    AcquireFailed,
    /// The frame was given back unread.
    Skipped,
    /// The copy of the frame could not be read.
    MapFailed,
    /// A frame was read.
    Frame(VideoFrame),
    /// The frame was offered to the encoder, which took it or did not, and may be gone.
    Offered { taken: bool, closed: bool },
}

/// What the duplication loop does next.
pub enum DxgiAction {
    /// Pause for so many microseconds.
    Sleep { us: u64 },
    /// Wait for a frame.
    Acquire,
    /// Give the frame back unread.
    Skip,
    /// Copy the frame, give it back and read the copy.
    Read,
    /// Offer the frame to the encoder, without waiting.
    Offer(VideoFrame),
    /// Begin the next turn.
    Again,
    /// End.
    Exit,
}

/// One step of the duplication loop: a frame is waited for once it is due, turns without a new
/// picture are passed over, a frame that the encoder does not take is dropped, and the loop ends
/// when it is stopped, when the output is lost or when the encoder is gone.
pub open spec fn dxgi_step(
    before: DxgiLoop,
    event: DxgiEvent,
    after: DxgiLoop,
    action: DxgiAction,
) -> bool {
    match event {
        DxgiEvent::StopChecked { stopped, now_us } => after == before && if stopped {
            action is Exit
        } else if now_us < before.next_frame_us {
            action == (DxgiAction::Sleep { us: (before.next_frame_us - now_us) as u64 })
        } else {
            action is Acquire
        },
        DxgiEvent::Woke { now_us: _ } => after == before && action is Acquire,
        DxgiEvent::Acquired { last_present_time, is_texture, now_us } => if last_present_time == 0
            || !is_texture {
            after == before && action is Skip
        } else {
            &&& after == DxgiLoop { next_frame_us: (now_us + before.frame_us) as u64, ..before }
            &&& action is Read
        },
        DxgiEvent::TimedOut | DxgiEvent::Skipped | DxgiEvent::MapFailed => after == before
            && action is Again,
        DxgiEvent::AcquireFailed => after == before && action is Exit,
        DxgiEvent::Frame(frame) => after == before && action == DxgiAction::Offer(frame),
        DxgiEvent::Offered { taken, closed } => after == before && if !taken && closed {
            action is Exit
        } else {
            action is Again
        },
    }
}

/// The clock reading of a frame can still be counted on.
pub open spec fn dxgi_fits(before: DxgiLoop, event: DxgiEvent) -> bool {
    event matches DxgiEvent::Acquired { last_present_time: _, is_texture: _, now_us } ==> now_us
        + before.frame_us <= u64::MAX
}

impl DxgiLoop {
    /// A loop that begins now, with a frame due at once. Frames are taken as the output presents
    /// them, up to 60 a second.
    pub fn new() -> (l: Self)
        ensures
            l.frame_us == 1_000_000int / 60,
            l.next_frame_us == 0,
    {
        DxgiLoop { frame_us: frame_interval_us(60), next_frame_us: 0 }
    }

    /// Takes one step of the loop.
    pub fn step(&mut self, event: DxgiEvent) -> (action: DxgiAction)
        requires
            dxgi_fits(*old(self), event),
        ensures
            dxgi_step(*old(self), event, *final(self), action),
    {
        match event {
            DxgiEvent::StopChecked { stopped, now_us } => if stopped {
                DxgiAction::Exit
            } else if now_us < self.next_frame_us {
                DxgiAction::Sleep { us: self.next_frame_us - now_us }
            } else {
                DxgiAction::Acquire
            },
            DxgiEvent::Woke { now_us: _ } => DxgiAction::Acquire,
            DxgiEvent::Acquired { last_present_time, is_texture, now_us } => {
                if last_present_time == 0 || !is_texture {
                    DxgiAction::Skip
                } else {
                    self.next_frame_us = now_us + self.frame_us;
                    DxgiAction::Read
                }
            },
            DxgiEvent::TimedOut | DxgiEvent::Skipped | DxgiEvent::MapFailed => DxgiAction::Again,
            DxgiEvent::AcquireFailed => DxgiAction::Exit,
            DxgiEvent::Frame(frame) => DxgiAction::Offer(frame),
            DxgiEvent::Offered { taken, closed } => if !taken && closed {
                DxgiAction::Exit
            } else {
                DxgiAction::Again
            },
        }
    }
}

/// The clock reading that an event carries, where it carries one.
pub open spec fn dxgi_clock(event: DxgiEvent) -> Option<u64> {
    match event {
        DxgiEvent::StopChecked { stopped: _, now_us } => Some(now_us),
        DxgiEvent::Woke { now_us } => Some(now_us),
        DxgiEvent::Acquired { last_present_time: _, is_texture: _, now_us } => Some(now_us),
        _ => None,
    }
}

/// `event` tells what became of `action`, which the loop decided on after `before`. A pause lasts
/// at least as long as it was asked for, and the clock does not run backwards while a frame is
/// waited for.
pub open spec fn dxgi_follows(before: DxgiEvent, action: DxgiAction, event: DxgiEvent) -> bool {
    match action {
        DxgiAction::Sleep { us } => {
            &&& event matches DxgiEvent::Woke { now_us }
            &&& dxgi_clock(before) matches Some(t)
            &&& now_us >= t + us
        },
        DxgiAction::Acquire => {
            ||| event is TimedOut
            ||| event is AcquireFailed
            ||| {
                &&& event matches DxgiEvent::Acquired { last_present_time: _, is_texture: _, now_us }
                &&& dxgi_clock(before) matches Some(t)
                &&& now_us >= t
            }
        },
        DxgiAction::Skip => event is Skipped,
        DxgiAction::Read => event is Frame || event is MapFailed,
        DxgiAction::Offer(_) => event is Offered,
        DxgiAction::Again => event is StopChecked,
        DxgiAction::Exit => false,
    }
}

/// `states` and `actions` are a course that `events` make the loop take, from the top of a turn.
pub open spec fn is_dxgi_course(
    states: Seq<DxgiLoop>,
    events: Seq<DxgiEvent>,
    actions: Seq<DxgiAction>,
) -> bool {
    &&& states.len() == events.len() + 1
    &&& actions.len() == events.len()
    &&& events.len() > 0 ==> events[0] is StopChecked
    &&& forall|i: int|
        #![trigger events[i]]
        0 <= i < events.len() ==> dxgi_fits(states[i], events[i]) && dxgi_step(
            states[i],
            events[i],
            states[i + 1],
            actions[i],
        )
    &&& forall|i: int|
        #![trigger actions[i]]
        0 <= i < events.len() - 1 ==> dxgi_follows(events[i], actions[i], events[i + 1])
}

/// A frame comes only once it is due.
proof fn lemma_dxgi_due(
    states: Seq<DxgiLoop>,
    events: Seq<DxgiEvent>,
    actions: Seq<DxgiAction>,
    k: int,
)
    requires
        is_dxgi_course(states, events, actions),
        0 <= k < events.len(),
        events[k] is Acquired || events[k] is Woke,
    ensures
        dxgi_clock(events[k]) matches Some(t) && t >= states[k].next_frame_us,
    decreases k,
{
    assert(k > 0);
    assert(dxgi_follows(events[k - 1], actions[k - 1], events[k]));
    assert(dxgi_step(states[k - 1], events[k - 1], states[k], actions[k - 1]));
    if events[k - 1] is Woke {
        lemma_dxgi_due(states, events, actions, k - 1);
    }
}

/// After a frame was read, the next one is due no earlier than an interval later.
proof fn lemma_dxgi_next(
    states: Seq<DxgiLoop>,
    events: Seq<DxgiEvent>,
    actions: Seq<DxgiAction>,
    i: int,
    k: int,
)
    requires
        is_dxgi_course(states, events, actions),
        0 <= i < k <= events.len(),
        actions[i] is Read,
    ensures
        states[k].frame_us == states[i].frame_us,
        dxgi_clock(events[i]) matches Some(t) && states[k].next_frame_us >= t + states[i].frame_us,
    decreases k,
{
    assert(dxgi_fits(states[k - 1], events[k - 1]));
    assert(dxgi_step(states[k - 1], events[k - 1], states[k], actions[k - 1]));
    if k - 1 > i {
        lemma_dxgi_next(states, events, actions, i, k - 1);
        if events[k - 1] is Acquired {
            lemma_dxgi_due(states, events, actions, k - 1);
        }
    }
}

/// The interval of a loop never changes.
proof fn lemma_dxgi_interval(
    states: Seq<DxgiLoop>,
    events: Seq<DxgiEvent>,
    actions: Seq<DxgiAction>,
    k: int,
)
    requires
        is_dxgi_course(states, events, actions),
        0 <= k <= events.len(),
    ensures
        states[k].frame_us == states[0].frame_us,
    decreases k,
{
    if k > 0 {
        lemma_dxgi_interval(states, events, actions, k - 1);
        assert(dxgi_step(states[k - 1], events[k - 1], states[k], actions[k - 1]));
    }
}

/// Duplicated frames keep their distance: however fast the output is, at least an interval passes
/// between any two frames that are read. A loop made by [`DxgiLoop::new`] has an interval of a
/// sixtieth of a second, so that it gives at most 60 frames a second.
pub proof fn duplicated_frames_keep_their_distance(
    states: Seq<DxgiLoop>,
    events: Seq<DxgiEvent>,
    actions: Seq<DxgiAction>,
    i: int,
    j: int,
)
    requires
        is_dxgi_course(states, events, actions),
        0 <= i < j < events.len(),
        actions[i] is Read,
        actions[j] is Read,
    ensures
        ({
            &&& dxgi_clock(events[i]) matches Some(t)
            &&& dxgi_clock(events[j]) matches Some(u)
            &&& u >= t + states[0].frame_us
        }),
{
    lemma_dxgi_next(states, events, actions, i, j);
    lemma_dxgi_interval(states, events, actions, i);
    assert(dxgi_step(states[j], events[j], states[j + 1], actions[j]));
    lemma_dxgi_due(states, events, actions, j);
}

/// Every frame that is read is offered to the encoder, as it is, and nothing else is; and a frame
/// with a new picture is read.
pub proof fn every_duplicated_frame_is_offered(
    states: Seq<DxgiLoop>,
    events: Seq<DxgiEvent>,
    actions: Seq<DxgiAction>,
    i: int,
)
    requires
        is_dxgi_course(states, events, actions),
        0 <= i < events.len(),
    ensures
        match events[i] {
            DxgiEvent::Frame(frame) => actions[i] == DxgiAction::Offer(frame),
            _ => actions[i] !is Offer,
        },
        match events[i] {
            DxgiEvent::Acquired { last_present_time, is_texture, .. } => {
                &&& actions[i] is Read <==> last_present_time != 0 && is_texture
                &&& actions[i] is Skip <==> !(last_present_time != 0 && is_texture)
            },
            _ => actions[i] !is Read && actions[i] !is Skip,
        },
{
    assert(dxgi_step(states[i], events[i], states[i + 1], actions[i]));
}

/// The loop ends when it is told to stop, when the output is lost, or when the encoder is gone and
/// did not take its frame, and never otherwise.
pub proof fn duplication_ends_only_when_told(
    states: Seq<DxgiLoop>,
    events: Seq<DxgiEvent>,
    actions: Seq<DxgiAction>,
    i: int,
)
    requires
        is_dxgi_course(states, events, actions),
        0 <= i < events.len(),
    ensures
        actions[i] is Exit <==> {
            ||| events[i] matches DxgiEvent::StopChecked { stopped, .. } && stopped
            ||| events[i] is AcquireFailed
            ||| events[i] == (DxgiEvent::Offered { taken: false, closed: true })
        },
        events[i] is Offered && actions[i] !is Exit ==> actions[i] is Again,
        events[i] is TimedOut || events[i] is Skipped || events[i] is MapFailed ==> actions[i]
            is Again,
{
    assert(dxgi_step(states[i], events[i], states[i + 1], actions[i]));
}

/// The next frame is due exactly an interval after the last one was read.
proof fn lemma_dxgi_remembers(
    states: Seq<DxgiLoop>,
    events: Seq<DxgiEvent>,
    actions: Seq<DxgiAction>,
    i: int,
    k: int,
)
    requires
        is_dxgi_course(states, events, actions),
        0 <= i < k <= events.len(),
        actions[i] is Read,
        forall|j: int| i < j < k ==> !(#[trigger] actions[j] is Read),
    ensures
        dxgi_clock(events[i]) matches Some(t) && states[k].next_frame_us == t + states[0].frame_us,
    decreases k,
{
    assert(dxgi_fits(states[k - 1], events[k - 1]));
    assert(dxgi_step(states[k - 1], events[k - 1], states[k], actions[k - 1]));
    lemma_dxgi_interval(states, events, actions, k - 1);
    if k - 1 > i {
        lemma_dxgi_remembers(states, events, actions, i, k - 1);
        assert(!(actions[k - 1] is Read));
    }
}

/// Duplicated frames are not held back either: after one was read, the loop pauses until the
/// interval is over and not a moment longer, and waits for the next one as soon as it is.
pub proof fn a_due_duplicate_is_waited_for(
    states: Seq<DxgiLoop>,
    events: Seq<DxgiEvent>,
    actions: Seq<DxgiAction>,
    i: int,
    j: int,
)
    requires
        is_dxgi_course(states, events, actions),
        0 <= i < j < events.len(),
        actions[i] is Read,
        forall|k: int| i < k < j ==> !(#[trigger] actions[k] is Read),
        events[j] is StopChecked,
        actions[j] !is Exit,
    ensures
        ({
            let due = dxgi_clock(events[i])->0 + states[0].frame_us;
            let now = dxgi_clock(events[j])->0;
            &&& now >= due ==> actions[j] is Acquire
            &&& now < due ==> (actions[j] matches DxgiAction::Sleep { us } && now + us == due)
            &&& actions[j] is Sleep && j + 1 < events.len() ==> actions[j + 1] is Acquire
        }),
{
    lemma_dxgi_remembers(states, events, actions, i, j);
    assert(dxgi_step(states[j], events[j], states[j + 1], actions[j]));
    if j + 1 < events.len() {
        assert(dxgi_follows(events[j], actions[j], events[j + 1]));
        assert(dxgi_step(states[j + 1], events[j + 1], states[j + 2], actions[j + 1]));
    }
}

/// Until a frame is read, none is held back: a frame is waited for at once.
pub proof fn the_first_duplicate_is_waited_for(
    states: Seq<DxgiLoop>,
    events: Seq<DxgiEvent>,
    actions: Seq<DxgiAction>,
    n: int,
)
    requires
        is_dxgi_course(states, events, actions),
        states[0].next_frame_us == 0,
        0 <= n < events.len(),
        forall|k: int| 0 <= k < n ==> !(#[trigger] actions[k] is Read),
    ensures
        states[n].next_frame_us == 0,
        events[n] is StopChecked && actions[n] !is Exit ==> actions[n] is Acquire,
    decreases n,
{
    assert(dxgi_step(states[n], events[n], states[n + 1], actions[n]));
    if n > 0 {
        the_first_duplicate_is_waited_for(states, events, actions, n - 1);
        assert(dxgi_step(states[n - 1], events[n - 1], states[n], actions[n - 1]));
        assert(!(actions[n - 1] is Read));
    }
}

} // verus!
