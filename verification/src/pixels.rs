//! Pixels: conversion to NV12, copies out of padded rows, and the test pattern.
use vstd::arithmetic::div_mod::lemma_fundamental_div_mod_converse;
use vstd::prelude::*;

verus! {

/// The luma of a pixel, in video range.
pub open spec fn luma(b: u8, g: u8, r: u8) -> u8 {
    ((66 * r + 129 * g + 25 * b + 128) / 256 + 16) as u8
}

/// The blue-difference chroma of a pixel, in video range.
pub open spec fn chroma_u(b: u8, g: u8, r: u8) -> u8 {
    ((-38 * r - 74 * g + 112 * b + 128) / 256 + 128) as u8
}

/// The red-difference chroma of a pixel, in video range.
pub open spec fn chroma_v(b: u8, g: u8, r: u8) -> u8 {
    ((112 * r - 94 * g - 18 * b + 128) / 256 + 128) as u8
}

/// The byte at `i` of the NV12 picture: first a luma byte for each pixel, then rows of
/// interleaved chroma, each pair taken from the upper left pixel of a two-by-two block.
pub open spec fn nv12_byte(bgra: Seq<u8>, w: int, h: int, i: int) -> u8 {
    if i < w * h {
        luma(bgra[4 * i], bgra[4 * i + 1], bgra[4 * i + 2])
    } else {
        let row = (i - w * h) / w;
        let col = (i - w * h) % w;
        let p = 2 * row * w + col - col % 2;
        if col % 2 == 0 {
            chroma_u(bgra[4 * p], bgra[4 * p + 1], bgra[4 * p + 2])
        } else {
            chroma_v(bgra[4 * p], bgra[4 * p + 1], bgra[4 * p + 2])
        }
    }
}

/// The NV12 picture of a BGRA picture of `w` times `h` pixels.
pub open spec fn nv12_of(bgra: Seq<u8>, w: int, h: int) -> Seq<u8> {
    Seq::new((w * h + w * h / 2) as nat, |i: int| nv12_byte(bgra, w, h, i))
}

/// Both sides are even, or there is no pixel: chroma comes in two-by-two blocks.
pub open spec fn is_nv12_size(w: u32, h: u32) -> bool {
    w == 0 || h == 0 || (w % 2 == 0 && h % 2 == 0)
}

fn luma_of(b: u8, g: u8, r: u8) -> (y: u8)
    ensures
        y == luma(b, g, r),
{
    ((66 * r as i32 + 129 * g as i32 + 25 * b as i32 + 128) / 256 + 16) as u8
}

fn chroma_u_of(b: u8, g: u8, r: u8) -> (u: u8)
    ensures
        u == chroma_u(b, g, r),
{
    ((32896 - 38 * r as i32 - 74 * g as i32 + 112 * b as i32) / 256) as u8
}

fn chroma_v_of(b: u8, g: u8, r: u8) -> (v: u8)
    ensures
        v == chroma_v(b, g, r),
{
    ((32896 + 112 * r as i32 - 94 * g as i32 - 18 * b as i32) / 256) as u8
}

/// The chroma pair of the block in block row `row` and column `x`.
proof fn lemma_chroma_pair(bgra: Seq<u8>, w: int, h: int, row: int, x: int)
    requires
        0 <= row,
        0 <= x,
        x % 2 == 0,
        x + 1 < w,
        w % 2 == 0,
    ensures
        ({
            let i = w * h + row * w + x;
            let p = 2 * row * w + x;
            &&& nv12_byte(bgra, w, h, i) == chroma_u(bgra[4 * p], bgra[4 * p + 1], bgra[4 * p + 2])
            &&& nv12_byte(bgra, w, h, i + 1) == chroma_v(
                bgra[4 * p],
                bgra[4 * p + 1],
                bgra[4 * p + 2],
            )
        }),
{
    let i = w * h + row * w + x;
    lemma_fundamental_div_mod_converse(i - w * h, w, row, x);
    lemma_fundamental_div_mod_converse(i + 1 - w * h, w, row, x + 1);
    assert(row * w >= 0) by (nonlinear_arith)
        requires
            row >= 0,
            w > 0,
    ;
}

/// BGRA to NV12. The alpha byte of the last pixel may be missing: alpha is not looked at.
pub fn bgra_to_nv12(bgra: &[u8], width: u32, height: u32) -> (nv12: Vec<u8>)
    requires
        is_nv12_size(width, height),
        4 * (width * height) <= bgra@.len() + 1,
    ensures
        nv12@ == nv12_of(bgra@, width as int, height as int),
{
    let mut nv12: Vec<u8> = Vec::new();
    let ghost w = width as int;
    let ghost h = height as int;
    let len: usize = bgra.len();
    assert(w * h >= 0) by (nonlinear_arith)
        requires
            w >= 0,
            h >= 0,
    ;
    if width == 0 || height == 0 {
        assert(w * h == 0) by (nonlinear_arith)
            requires
                w == 0 || h == 0,
        ;
        assert(nv12@ =~= nv12_of(bgra@, w, h));
        return nv12;
    }
    let area: usize = {
        assert(w * h <= usize::MAX);
        width as usize * height as usize
    };
    let mut p: usize = 0;
    while p < area
        invariant
            p <= area == w * h,
            4 * area <= len + 1,
            len == bgra@.len(),
            nv12@.len() == p,
            forall|i: int| 0 <= i < p ==> nv12@[i] == #[trigger] nv12_byte(bgra@, w, h, i),
        decreases area - p,
    {
        let y = luma_of(bgra[4 * p], bgra[4 * p + 1], bgra[4 * p + 2]);
        assert(y == nv12_byte(bgra@, w, h, p as int));
        nv12.push(y);
        p += 1;
    }
    let rows: usize = (height / 2) as usize;
    let mut row: usize = 0;
    assert(0 * w == 0);
    while row < rows
        invariant
            row <= rows,
            w == width,
            h == height,
            h == 2 * rows,
            w % 2 == 0,
            w > 0,
            area == w * h,
            4 * area <= len + 1,
            len == bgra@.len(),
            nv12@.len() == area + row * w,
            forall|i: int|
                0 <= i < nv12@.len() ==> nv12@[i] == #[trigger] nv12_byte(bgra@, w, h, i),
        decreases rows - row,
    {
        let ghost base = area + row * w;
        proof {
            // The block row lies inside the picture.
            assert(2 * row * w + 2 * w <= w * h) by (nonlinear_arith)
                requires
                    row + 1 <= rows,
                    h == 2 * rows,
                    w > 0,
            ;
            assert(0 <= 2 * row * w) by (nonlinear_arith)
                requires
                    0 <= row,
                    w > 0,
            ;
            assert(2 * row * w == row * 2 * w) by (nonlinear_arith);
        }
        let start: usize = row * 2 * width as usize;
        let mut x: usize = 0;
        while x < width as usize
            invariant
                x <= width,
                x % 2 == 0,
                w == width,
                w % 2 == 0,
                w > 0,
                row < rows,
                area == w * h,
                start == 2 * row * w,
                start + 2 * w <= area,
                4 * area <= len + 1,
            len == bgra@.len(),
                base == area + row * w,
                nv12@.len() == base + x,
                forall|i: int|
                    0 <= i < nv12@.len() ==> nv12@[i] == #[trigger] nv12_byte(bgra@, w, h, i),
            decreases width - x,
        {
            let q: usize = 4 * (start + x);
            let u = chroma_u_of(bgra[q], bgra[q + 1], bgra[q + 2]);
            let v = chroma_v_of(bgra[q], bgra[q + 1], bgra[q + 2]);
            proof {
                lemma_chroma_pair(bgra@, w, h, row as int, x as int);
            }
            nv12.push(u);
            nv12.push(v);
            x += 2;
        }
        assert(row * w + w == (row + 1) * w) by (nonlinear_arith);
        row += 1;
    }
    assert(2 * (rows * w) == w * h) by (nonlinear_arith)
        requires
            h == 2 * rows,
    ;
    assert(nv12@ =~= nv12_of(bgra@, w, h));
    nv12
}

/// The pixel in column `x` and row `y` lies in the picture.
proof fn lemma_pixel_is_inside(w: int, h: int, x: int, y: int)
    requires
        0 <= x < w,
        0 <= y < h,
    ensures
        0 <= y * w + x < w * h,
{
    assert(0 <= y * w && y * w + w <= w * h) by (nonlinear_arith)
        requires
            0 <= y < h,
            0 < w,
    ;
}

/// The luma plane shows the picture, pixel by pixel: it comes first, row by row, and its byte in
/// column `x` and row `y` is `((66 r + 129 g + 25 b + 128) >> 8) + 16` of the blue, green and red
/// that stand in column `x` and row `y` of the picture.
pub proof fn luma_shows_every_pixel(bgra: Seq<u8>, w: int, h: int, x: int, y: int)
    requires
        0 <= x < w,
        0 <= y < h,
    ensures
        0 <= y * w + x < nv12_of(bgra, w, h).len(),
        ({
            let at = 4 * (y * w + x);
            let (b, g, r) = (bgra[at], bgra[at + 1], bgra[at + 2]);
            nv12_of(bgra, w, h)[y * w + x] == (66 * r + 129 * g + 25 * b + 128) / 256 + 16
        }),
{
    lemma_pixel_is_inside(w, h, x, y);
}

/// The chroma plane follows, at half the height and half the width, with a pair of bytes for each
/// block of two by two pixels: the pair for block column `x` and block row `y` is the blue and
/// the red difference of the block's upper left pixel.
pub proof fn chroma_shows_every_block(bgra: Seq<u8>, w: int, h: int, x: int, y: int)
    requires
        0 <= 2 * x,
        2 * x + 1 < w,
        w % 2 == 0,
        0 <= 2 * y,
        2 * y + 1 < h,
        h % 2 == 0,
    ensures
        nv12_of(bgra, w, h).len() == w * h + w * h / 2,
        0 <= w * h + y * w + 2 * x,
        w * h + y * w + 2 * x + 1 < nv12_of(bgra, w, h).len(),
        ({
            let at = 4 * (2 * y * w + 2 * x);
            let (b, g, r) = (bgra[at], bgra[at + 1], bgra[at + 2]);
            let pair = w * h + y * w + 2 * x;
            &&& nv12_of(bgra, w, h)[pair] == (112 * b - 74 * g - 38 * r + 128) / 256 + 128
            &&& nv12_of(bgra, w, h)[pair + 1] == (112 * r - 94 * g - 18 * b + 128) / 256 + 128
        }),
{
    lemma_chroma_pair(bgra, w, h, y, 2 * x);
    assert(0 <= y * w && 2 * (y * w) + 2 * w <= w * h) by (nonlinear_arith)
        requires
            0 <= y,
            2 * y + 2 <= h,
            0 < w,
    ;
    let at = 4 * (2 * y * w + 2 * x);
    nv12_is_video_range(bgra[at], bgra[at + 1], bgra[at + 2]);
}

/// A change stays where it is: two pictures that have the same colours in column `x` and row `y`
/// have the same luma there, whatever the rest of them looks like; and where red, green and blue
/// differ by one and the same step of at least 2, they have not.
pub proof fn a_pixel_is_seen_in_its_place_only(
    one: Seq<u8>,
    other: Seq<u8>,
    w: int,
    h: int,
    x: int,
    y: int,
)
    requires
        0 <= x < w,
        0 <= y < h,
    ensures
        ({
            let at = 4 * (y * w + x);
            let same = forall|c: int| 0 <= c < 3 ==> #[trigger] one[at + c] == other[at + c];
            let brighter = forall|c: int|
                0 <= c < 3 ==> #[trigger] one[at + c] + 2 <= other[at + c];
            let (a, b) = (nv12_of(one, w, h)[y * w + x], nv12_of(other, w, h)[y * w + x]);
            &&& same ==> a == b
            &&& brighter ==> a < b
        }),
{
    luma_shows_every_pixel(one, w, h, x, y);
    luma_shows_every_pixel(other, w, h, x, y);
    let at = 4 * (y * w + x);
    assert(at + 0 == at);
    if forall|c: int| 0 <= c < 3 ==> #[trigger] one[at + c] == other[at + c] {
        assert(one[at + 0] == other[at + 0] && one[at + 1] == other[at + 1] && one[at + 2]
            == other[at + 2]);
    }
    if forall|c: int| 0 <= c < 3 ==> #[trigger] one[at + c] + 2 <= other[at + c] {
        assert(one[at + 0] + 2 <= other[at + 0] && one[at + 1] + 2 <= other[at + 1] && one[at + 2]
            + 2 <= other[at + 2]);
    }
}

/// Luma lies in 16 to 235 and chroma in 16 to 240, whatever the pixel.
pub proof fn nv12_is_video_range(b: u8, g: u8, r: u8)
    ensures
        16 <= luma(b, g, r) <= 235,
        16 <= chroma_u(b, g, r) <= 240,
        16 <= chroma_v(b, g, r) <= 240,
{
}

/// A grey pixel has no colour: both of its chroma values are 128; and luma follows brightness.
pub proof fn grey_is_neutral(v: u8, brighter: u8)
    requires
        v <= brighter,
    ensures
        chroma_u(v, v, v) == 128,
        chroma_v(v, v, v) == 128,
        luma(v, v, v) <= luma(brighter, brighter, brighter),
{
}

/// The pixels of `h` rows of `w` pixels that start `row_pitch` bytes apart in `raw`, without the
/// bytes between the rows.
pub open spec fn packed_rows(raw: Seq<u8>, row_pitch: int, w: int, h: int) -> Seq<u8> {
    Seq::new(
        (4 * w * h) as nat,
        |i: int| raw[(i / (4 * w)) * row_pitch + i % (4 * w)],
    )
}

/// Copies a mapped picture row by row, dropping what lies between the rows.
pub fn copy_rows(raw: &[u8], row_pitch: usize, width: u32, height: u32) -> (pixels: Vec<u8>)
    requires
        4 * width <= u32::MAX,
        4 * width * height <= u32::MAX,
        height > 0 ==> (height - 1) * row_pitch + 4 * width <= raw@.len(),
    ensures
        pixels@ == packed_rows(raw@, row_pitch as int, width as int, height as int),
{
    let mut pixels: Vec<u8> = Vec::new();
    let stride: usize = (width * 4) as usize;
    let len: usize = raw.len();
    let ghost all = packed_rows(raw@, row_pitch as int, width as int, height as int);
    let mut row: u32 = 0;
    assert(0 * stride == 0);
    while row < height
        invariant
            row <= height,
            stride == 4 * width,
            4 * width * height <= u32::MAX,
            height > 0 ==> (height - 1) * row_pitch + stride <= len == raw@.len(),
            all == packed_rows(raw@, row_pitch as int, width as int, height as int),
            pixels@.len() == row * stride,
            forall|i: int| 0 <= i < pixels@.len() ==> pixels@[i] == #[trigger] all[i],
        decreases height - row,
    {
        assert(0 <= row * row_pitch <= (height - 1) * row_pitch) by (nonlinear_arith)
            requires
                0 <= row <= height - 1,
                0 <= row_pitch,
        ;
        assert(0 <= row * stride && row * stride + stride <= stride * height) by (nonlinear_arith)
            requires
                0 <= row <= height - 1,
                0 <= stride,
        ;
        let start: usize = row as usize * row_pitch;
        let mut x: usize = 0;
        while x < stride
            invariant
                x <= stride,
                row < height,
                stride == 4 * width,
                start == row * row_pitch,
                start + stride <= len == raw@.len(),
                row * stride + stride <= stride * height,
                0 <= row * stride,
                all == packed_rows(raw@, row_pitch as int, width as int, height as int),
                pixels@.len() == row * stride + x,
                forall|i: int| 0 <= i < pixels@.len() ==> pixels@[i] == #[trigger] all[i],
            decreases stride - x,
        {
            proof {
                let i = row * stride + x;
                lemma_fundamental_div_mod_converse(i, stride as int, row as int, x as int);
                assert(all.len() == stride * height);
                assert(all[i] == raw@[start + x]);
            }
            pixels.push(raw[start + x]);
            x += 1;
        }
        assert(row * stride + stride == (row + 1) * stride) by (nonlinear_arith);
        row += 1;
    }
    assert(height * stride == stride * height) by (nonlinear_arith);
    assert(pixels@ =~= all);
    pixels
}

/// A copy is row-major without gaps: byte `c` of the pixel in column `x` and row `y` stands at
/// `4 * (y * w + x) + c`, and it comes from row `y` of the source.
pub proof fn copies_are_row_major(
    raw: Seq<u8>,
    row_pitch: int,
    w: int,
    h: int,
    x: int,
    y: int,
    c: int,
)
    requires
        0 <= x < w,
        0 <= y < h,
        0 <= c < 4,
    ensures
        packed_rows(raw, row_pitch, w, h).len() == 4 * w * h,
        0 <= 4 * (y * w + x) + c < 4 * w * h,
        packed_rows(raw, row_pitch, w, h)[4 * (y * w + x) + c] == raw[y * row_pitch + 4 * x + c],
{
    let i = 4 * (y * w + x) + c;
    assert(i == y * (4 * w) + (4 * x + c)) by (nonlinear_arith)
        requires
            i == 4 * (y * w + x) + c,
    ;
    assert(0 <= y * (4 * w) && y * (4 * w) + 4 * w <= 4 * w * h) by (nonlinear_arith)
        requires
            0 <= y < h,
            0 < w,
    ;
    lemma_fundamental_div_mod_converse(i, 4 * w, y, 4 * x + c);
}

/// Width of the test pattern.
pub const PATTERN_WIDTH: u32 = 1920;

/// Height of the test pattern.
pub const PATTERN_HEIGHT: u32 = 1080;

/// The count of sixtieths of a second in `pts_us`, modulo 256.
pub open spec fn pattern_phase(pts_us: u64) -> int {
    (pts_us / 16_667) as int % 256
}

/// The pixel of the test pattern at column `x` and row `y`, as blue, green, red and alpha:
/// red grows to the right and green downwards, and all of it moves with the time.
pub open spec fn pattern_pixel(pts_us: u64, x: int, y: int) -> Seq<u8> {
    let t = pattern_phase(pts_us);
    seq![
        t as u8,
        ((y * 255 / 1080 + t / 2) % 256) as u8,
        ((x * 255 / 1920 + t) % 256) as u8,
        255u8,
    ]
}

/// The test pattern at time `pts_us`, row by row.
pub open spec fn pattern(pts_us: u64) -> Seq<u8> {
    Seq::new(
        8_294_400,
        |i: int| pattern_pixel(pts_us, (i / 4) % 1920, (i / 4) / 1920)[i % 4],
    )
}

/// The test pattern is 1920 pixels wide and 1080 high, row by row: in column `x` and row `y` red
/// grows to the right and green downwards, blue is the same everywhere, nothing is transparent,
/// and every sixtieth of a second red and blue move on by one and green by half of that.
pub proof fn the_pattern_shows_place_and_time(pts_us: u64, x: int, y: int)
    requires
        0 <= x < 1920,
        0 <= y < 1080,
    ensures
        pattern(pts_us).len() == 4 * 1920 * 1080,
        ({
            let at = 4 * (y * 1920 + x);
            let t = (pts_us as int / 16_667) % 256;
            &&& pattern(pts_us)[at] == t
            &&& pattern(pts_us)[at + 1] == (255 * y / 1080 + t / 2) % 256
            &&& pattern(pts_us)[at + 2] == (255 * x / 1920 + t) % 256
            &&& pattern(pts_us)[at + 3] == 255
        }),
{
    let i = 4 * (y * 1920 + x);
    assert((i / 4) % 1920 == x && (i / 4) / 1920 == y && i % 4 == 0);
    assert(((i + 1) / 4) % 1920 == x && ((i + 1) / 4) / 1920 == y && (i + 1) % 4 == 1);
    assert(((i + 2) / 4) % 1920 == x && ((i + 2) / 4) / 1920 == y && (i + 2) % 4 == 2);
    assert(((i + 3) / 4) % 1920 == x && ((i + 3) / 4) / 1920 == y && (i + 3) % 4 == 3);
}

/// The animated test pattern at time `pts_us`.
pub fn test_pattern(pts_us: u64) -> (pixels: Vec<u8>)
    ensures
        pixels@ == pattern(pts_us),
{
    let t: u32 = ((pts_us / 16_667) % 256) as u32;
    let mut pixels: Vec<u8> = Vec::new();
    let ghost all = pattern(pts_us);
    let mut y: u32 = 0;
    while y < PATTERN_HEIGHT
        invariant
            y <= 1080,
            t == pattern_phase(pts_us),
            all == pattern(pts_us),
            pixels@.len() == y * 7680,
            forall|i: int| 0 <= i < pixels@.len() ==> pixels@[i] == #[trigger] all[i],
        decreases 1080 - y,
    {
        let mut x: u32 = 0;
        while x < PATTERN_WIDTH
            invariant
                x <= 1920,
                y < 1080,
                t == pattern_phase(pts_us),
                all == pattern(pts_us),
                pixels@.len() == y * 7680 + x * 4,
                forall|i: int| 0 <= i < pixels@.len() ==> pixels@[i] == #[trigger] all[i],
            decreases 1920 - x,
        {
            let b: u8 = t as u8;
            let g: u8 = ((y * 255 / 1080 + t / 2) % 256) as u8;
            let r: u8 = ((x * 255 / 1920 + t) % 256) as u8;
            proof {
                the_pattern_shows_place_and_time(pts_us, x as int, y as int);
                assert(4 * (y * 1920 + x) == y * 7680 + x * 4);
            }
            pixels.push(b);
            pixels.push(g);
            pixels.push(r);
            pixels.push(255);
            x += 1;
        }
        y += 1;
    }
    assert(pixels@ =~= all);
    pixels
}

} // verus!
