//! BGRA to planar YUV 4:2:0 conversion with fixed-point BT.601 coefficients.
//!
//! The coefficients are scaled by 256:
//!
//! ```text
//! Y =  (77*R + 150*G + 29*B) >> 8
//! U = (-43*R - 85*G + 128*B + 32768) >> 8
//! V = (128*R - 107*G - 21*B + 32768) >> 8
//! ```
//!
//! U and V are taken from the average colour of each 2x2 block of pixels.

use vstd::prelude::*;

verus! {

/// Luma of a pixel.
pub open spec fn luma(b: int, g: int, r: int) -> int {
    (77 * r + 150 * g + 29 * b) / 256
}

/// Blue-difference chroma of a colour.
pub open spec fn chroma_u(b: int, g: int, r: int) -> int {
    (-43 * r - 85 * g + 128 * b + 32768) / 256
}

/// Red-difference chroma of a colour.
pub open spec fn chroma_v(b: int, g: int, r: int) -> int {
    (128 * r - 107 * g - 21 * b + 32768) / 256
}

/// Channel `c` (0 = blue, 1 = green, 2 = red) of the pixel at `row`, `col` of
/// a packed BGRA image `w` pixels wide.
pub open spec fn channel(bgra: Seq<u8>, w: int, row: int, col: int, c: int) -> int {
    bgra[(row * w + col) * 4 + c] as int
}

/// Luma of the pixel at `row`, `col`.
pub open spec fn luma_at(bgra: Seq<u8>, w: int, row: int, col: int) -> int {
    luma(channel(bgra, w, row, col, 0), channel(bgra, w, row, col, 1), channel(bgra, w, row, col, 2))
}

/// Channel `c` averaged (rounding down) over the 2x2 block `rp`, `cp`.
pub open spec fn block_average(bgra: Seq<u8>, w: int, rp: int, cp: int, c: int) -> int {
    (channel(bgra, w, 2 * rp, 2 * cp, c) + channel(bgra, w, 2 * rp, 2 * cp + 1, c) + channel(
        bgra,
        w,
        2 * rp + 1,
        2 * cp,
        c,
    ) + channel(bgra, w, 2 * rp + 1, 2 * cp + 1, c)) / 4
}

/// U of the 2x2 block `rp`, `cp`.
pub open spec fn u_at(bgra: Seq<u8>, w: int, rp: int, cp: int) -> int {
    chroma_u(block_average(bgra, w, rp, cp, 0), block_average(bgra, w, rp, cp, 1), block_average(bgra, w, rp, cp, 2))
}

/// V of the 2x2 block `rp`, `cp`.
pub open spec fn v_at(bgra: Seq<u8>, w: int, rp: int, cp: int) -> int {
    chroma_v(block_average(bgra, w, rp, cp, 0), block_average(bgra, w, rp, cp, 1), block_average(bgra, w, rp, cp, 2))
}

/// Offset in the output of the Y sample of pixel `row`, `col`.
pub open spec fn y_pos(w: int, row: int, col: int) -> int {
    row * w + col
}

/// Offset in the output of the U sample of block `rp`, `cp`.
pub open spec fn u_pos(w: int, h: int, rp: int, cp: int) -> int {
    w * h + rp * (w / 2) + cp
}

/// Offset in the output of the V sample of block `rp`, `cp`.
pub open spec fn v_pos(w: int, h: int, rp: int, cp: int) -> int {
    w * h + (w * h) / 4 + rp * (w / 2) + cp
}

/// Whether `rp`, `cp` is one of the 2x2 blocks converted: the rows and columns
/// of an odd-sized image past the last full block are left alone.
pub open spec fn is_block(w: int, h: int, rp: int, cp: int) -> bool {
    0 <= rp < h / 2 && 0 <= cp < w / 2
}

/// Whether output offset `i` is one of the six samples written for block `rp`, `cp`.
pub open spec fn touches(w: int, h: int, rp: int, cp: int, i: int) -> bool {
    ||| i == y_pos(w, 2 * rp, 2 * cp)
    ||| i == y_pos(w, 2 * rp, 2 * cp + 1)
    ||| i == y_pos(w, 2 * rp + 1, 2 * cp)
    ||| i == y_pos(w, 2 * rp + 1, 2 * cp + 1)
    ||| i == u_pos(w, h, rp, cp)
    ||| i == v_pos(w, h, rp, cp)
}

/// The six samples of block `rp`, `cp` in `out` hold its conversion.
pub open spec fn block_converted(out: Seq<u8>, bgra: Seq<u8>, w: int, h: int, rp: int, cp: int) -> bool {
    &&& out[y_pos(w, 2 * rp, 2 * cp)] as int == luma_at(bgra, w, 2 * rp, 2 * cp)
    &&& out[y_pos(w, 2 * rp, 2 * cp + 1)] as int == luma_at(bgra, w, 2 * rp, 2 * cp + 1)
    &&& out[y_pos(w, 2 * rp + 1, 2 * cp)] as int == luma_at(bgra, w, 2 * rp + 1, 2 * cp)
    &&& out[y_pos(w, 2 * rp + 1, 2 * cp + 1)] as int == luma_at(bgra, w, 2 * rp + 1, 2 * cp + 1)
    &&& out[u_pos(w, h, rp, cp)] as int == u_at(bgra, w, rp, cp)
    &&& out[v_pos(w, h, rp, cp)] as int == v_at(bgra, w, rp, cp)
}

/// Number of bytes of the BGRA input that the conversion reads: up to and
/// including the red byte of the last pixel of the last full 2x2 block.
pub open spec fn bgra_needed(w: int, h: int) -> int {
    if w / 2 == 0 || h / 2 == 0 {
        0
    } else {
        ((2 * (h / 2) - 1) * w + 2 * (w / 2) - 1) * 4 + 3
    }
}

/// Number of bytes of the output that the conversion needs: the Y plane, the
/// U plane, and the part of the V plane that is written.
pub open spec fn yuv_needed(w: int, h: int) -> int {
    w * h + (w * h) / 4 + (h / 2) * (w / 2)
}

/// Row-major offsets are unique.
proof fn lemma_row_major_unique(w: int, r1: int, c1: int, r2: int, c2: int)
    requires
        0 <= r1,
        0 <= r2,
        0 <= c1 < w,
        0 <= c2 < w,
        r1 * w + c1 == r2 * w + c2,
    ensures
        r1 == r2,
        c1 == c2,
{
    if r1 < r2 {
        assert(r1 * w + w <= r2 * w) by (nonlinear_arith)
            requires
                r1 < r2,
                0 <= w,
        ;
    } else if r2 < r1 {
        assert(r2 * w + w <= r1 * w) by (nonlinear_arith)
            requires
                r2 < r1,
                0 <= w,
        ;
    }
}

/// Offsets of a pixel of the first `h` rows lie in the Y plane.
proof fn lemma_row_major_bound(w: int, h: int, row: int, col: int)
    requires
        0 <= row < h,
        0 <= col < w,
    ensures
        0 <= row * w + col < w * h,
{
    assert(row * w + w <= h * w) by (nonlinear_arith)
        requires
            row < h,
            0 <= w,
    ;
    assert(0 <= row * w) by (nonlinear_arith)
        requires
            0 <= row,
            0 <= w,
    ;
    assert(h * w == w * h) by (nonlinear_arith);
}

/// Offsets of a block in a chroma plane lie within the written part of it,
/// which is no bigger than a quarter of the Y plane.
proof fn lemma_chroma_bound(w: int, h: int, rp: int, cp: int)
    requires
        is_block(w, h, rp, cp),
    ensures
        0 <= rp * (w / 2) + cp < (h / 2) * (w / 2),
        (h / 2) * (w / 2) <= (w * h) / 4,
{
    lemma_row_major_bound(w / 2, h / 2, rp, cp);
    assert((h / 2) * (w / 2) == (w / 2) * (h / 2)) by (nonlinear_arith);
    assert(4 * ((w / 2) * (h / 2)) <= w * h) by (nonlinear_arith)
        requires
            0 <= w,
            0 <= h,
    {
        assert(2 * (w / 2) <= w);
        assert(2 * (h / 2) <= h);
        assert((2 * (w / 2)) * (2 * (h / 2)) <= w * h);
    }
}

/// Two distinct blocks write no common sample.
proof fn lemma_blocks_disjoint(w: int, h: int, rp1: int, cp1: int, rp2: int, cp2: int, i: int)
    requires
        is_block(w, h, rp1, cp1),
        is_block(w, h, rp2, cp2),
        touches(w, h, rp1, cp1, i),
        touches(w, h, rp2, cp2, i),
    ensures
        rp1 == rp2,
        cp1 == cp2,
{
    let ys = w * h;
    let us = ys / 4;
    lemma_chroma_bound(w, h, rp1, cp1);
    lemma_chroma_bound(w, h, rp2, cp2);
    lemma_row_major_bound(w, h, 2 * rp1 + 1, 2 * cp1 + 1);
    lemma_row_major_bound(w, h, 2 * rp2 + 1, 2 * cp2 + 1);
    lemma_row_major_bound(w, h, 2 * rp1, 2 * cp1);
    lemma_row_major_bound(w, h, 2 * rp2, 2 * cp2);
    lemma_row_major_bound(w, h, 2 * rp1 + 1, 2 * cp1);
    lemma_row_major_bound(w, h, 2 * rp2 + 1, 2 * cp2);
    lemma_row_major_bound(w, h, 2 * rp1, 2 * cp1 + 1);
    lemma_row_major_bound(w, h, 2 * rp2, 2 * cp2 + 1);
    if i < ys {
        // Both writes are Y samples.
        let (r1, c1) = if i == y_pos(w, 2 * rp1, 2 * cp1) {
            (2 * rp1, 2 * cp1)
        } else if i == y_pos(w, 2 * rp1, 2 * cp1 + 1) {
            (2 * rp1, 2 * cp1 + 1)
        } else if i == y_pos(w, 2 * rp1 + 1, 2 * cp1) {
            (2 * rp1 + 1, 2 * cp1)
        } else {
            (2 * rp1 + 1, 2 * cp1 + 1)
        };
        let (r2, c2) = if i == y_pos(w, 2 * rp2, 2 * cp2) {
            (2 * rp2, 2 * cp2)
        } else if i == y_pos(w, 2 * rp2, 2 * cp2 + 1) {
            (2 * rp2, 2 * cp2 + 1)
        } else if i == y_pos(w, 2 * rp2 + 1, 2 * cp2) {
            (2 * rp2 + 1, 2 * cp2)
        } else {
            (2 * rp2 + 1, 2 * cp2 + 1)
        };
        lemma_row_major_unique(w, r1, c1, r2, c2);
    } else if i < ys + us {
        lemma_row_major_unique(w / 2, rp1, cp1, rp2, cp2);
    } else {
        lemma_row_major_unique(w / 2, rp1, cp1, rp2, cp2);
    }
}

} // verus!

verus! {

/// Reads of a pixel of a full block stay within the bytes the conversion needs.
proof fn lemma_pixel_read_bound(w: int, h: int, row: int, col: int)
    requires
        0 <= row < 2 * (h / 2),
        0 <= col < 2 * (w / 2),
    ensures
        0 <= (row * w + col) * 4,
        (row * w + col) * 4 + 3 <= bgra_needed(w, h),
        row * w * 4 == (row * w) * 4,
{
    assert(row * w <= (2 * (h / 2) - 1) * w) by (nonlinear_arith)
        requires
            row <= 2 * (h / 2) - 1,
            0 <= w,
    ;
    assert(0 <= row * w) by (nonlinear_arith)
        requires
            0 <= row,
            0 <= w,
    ;
}

/// `x >> 8` is `x / 256` for the non-negative values the conversion shifts.
proof fn lemma_shift8(x: i32)
    requires
        0 <= x < 0x10000,
    ensures
        x >> 8 == x / 256,
        0 <= x >> 8 < 256,
{
    assert(0 <= x < 0x10000 ==> x >> 8 == x / 256) by (bit_vector);
}

/// `x >> 2` is `x / 4` for the non-negative sums the conversion averages.
proof fn lemma_shift2(x: i32)
    requires
        0 <= x < 1024,
    ensures
        x >> 2 == x / 4,
        0 <= x >> 2 < 256,
{
    assert(0 <= x < 1024 ==> x >> 2 == x / 4) by (bit_vector);
}

/// Luma of a pixel, as a byte.
fn luma_byte(b: i32, g: i32, r: i32) -> (y: u8)
    requires
        0 <= b < 256,
        0 <= g < 256,
        0 <= r < 256,
    ensures
        y as int == luma(b as int, g as int, r as int),
{
    let x = 77 * r + 150 * g + 29 * b;
    proof {
        lemma_shift8(x);
    }
    (x >> 8) as u8
}

/// The four Y samples, U and V of block `rp`, `cp`.
fn convert_block(bgra: &[u8], width: usize, height: usize, rp: usize, cp: usize) -> (vals: (
    u8,
    u8,
    u8,
    u8,
    u8,
    u8,
))
    requires
        is_block(width as int, height as int, rp as int, cp as int),
        bgra.len() >= bgra_needed(width as int, height as int),
    ensures
        vals.0 as int == luma_at(bgra@, width as int, 2 * rp, 2 * cp),
        vals.1 as int == luma_at(bgra@, width as int, 2 * rp, 2 * cp + 1),
        vals.2 as int == luma_at(bgra@, width as int, 2 * rp + 1, 2 * cp),
        vals.3 as int == luma_at(bgra@, width as int, 2 * rp + 1, 2 * cp + 1),
        vals.4 as int == u_at(bgra@, width as int, rp as int, cp as int),
        vals.5 as int == v_at(bgra@, width as int, rp as int, cp as int),
{
    let ghost w = width as int;
    let ghost h = height as int;
    let row0 = rp * 2;
    let row1 = row0 + 1;
    let col0 = cp * 2;
    let col1 = col0 + 1;
    proof {
        lemma_pixel_read_bound(w, h, row0 as int, col0 as int);
        lemma_pixel_read_bound(w, h, row0 as int, col1 as int);
        lemma_pixel_read_bound(w, h, row1 as int, col0 as int);
        lemma_pixel_read_bound(w, h, row1 as int, col1 as int);
    }
    let bgra_row0 = row0 * width * 4;
    let bgra_row1 = row1 * width * 4;

    let px00 = bgra_row0 + col0 * 4;
    let px01 = bgra_row0 + col1 * 4;
    let px10 = bgra_row1 + col0 * 4;
    let px11 = bgra_row1 + col1 * 4;

    let (b00, g00, r00) = (bgra[px00] as i32, bgra[px00 + 1] as i32, bgra[px00 + 2] as i32);
    let (b01, g01, r01) = (bgra[px01] as i32, bgra[px01 + 1] as i32, bgra[px01 + 2] as i32);
    let (b10, g10, r10) = (bgra[px10] as i32, bgra[px10 + 1] as i32, bgra[px10 + 2] as i32);
    let (b11, g11, r11) = (bgra[px11] as i32, bgra[px11 + 1] as i32, bgra[px11 + 2] as i32);

    let y00 = luma_byte(b00, g00, r00);
    let y01 = luma_byte(b01, g01, r01);
    let y10 = luma_byte(b10, g10, r10);
    let y11 = luma_byte(b11, g11, r11);

    let r_sum = r00 + r01 + r10 + r11;
    let g_sum = g00 + g01 + g10 + g11;
    let b_sum = b00 + b01 + b10 + b11;
    proof {
        lemma_shift2(r_sum);
        lemma_shift2(g_sum);
        lemma_shift2(b_sum);
    }
    let r_avg = r_sum >> 2;
    let g_avg = g_sum >> 2;
    let b_avg = b_sum >> 2;

    let u_num = 128 * b_avg + 32768 - 43 * r_avg - 85 * g_avg;
    let v_num = 128 * r_avg + 32768 - 107 * g_avg - 21 * b_avg;
    proof {
        lemma_shift8(u_num);
        lemma_shift8(v_num);
    }
    let u = (u_num >> 8) as u8;
    let v = (v_num >> 8) as u8;
    (y00, y01, y10, y11, u, v)
}

} // verus!

verus! {

/// Blocks before `rp`, `cp` in row-major block order.
pub open spec fn block_done(rp: int, cp: int, rp2: int, cp2: int) -> bool {
    rp2 < rp || (rp2 == rp && cp2 < cp)
}

/// The conversion has handled the blocks before `rp`, `cp`, and left every
/// other byte as it was.
#[verifier::opaque]
spec fn progress(out: Seq<u8>, initial: Seq<u8>, bgra: Seq<u8>, w: int, h: int, rp: int, cp: int) -> bool {
    &&& out.len() == initial.len()
    &&& forall|rp2: int, cp2: int|
        is_block(w, h, rp2, cp2) && block_done(rp, cp, rp2, cp2) ==> #[trigger] block_converted(
            out,
            bgra,
            w,
            h,
            rp2,
            cp2,
        )
    &&& forall|i: int|
        0 <= i < initial.len() && (forall|rp2: int, cp2: int|
            is_block(w, h, rp2, cp2) && block_done(rp, cp, rp2, cp2) ==> !#[trigger] touches(
                w,
                h,
                rp2,
                cp2,
                i,
            )) ==> out[i] == initial[i]
}

proof fn lemma_progress_start(initial: Seq<u8>, bgra: Seq<u8>, w: int, h: int)
    ensures
        progress(initial, initial, bgra, w, h, 0, 0),
{
    reveal(progress);
}

/// Writing block `rp`, `cp` moves the conversion on by one block.
proof fn lemma_progress_step(
    before: Seq<u8>,
    after: Seq<u8>,
    initial: Seq<u8>,
    bgra: Seq<u8>,
    w: int,
    h: int,
    rp: int,
    cp: int,
)
    requires
        progress(before, initial, bgra, w, h, rp, cp),
        is_block(w, h, rp, cp),
        after.len() == before.len(),
        block_converted(after, bgra, w, h, rp, cp),
        forall|i: int| 0 <= i < before.len() && !touches(w, h, rp, cp, i) ==> after[i] == before[i],
        before.len() >= yuv_needed(w, h),
    ensures
        progress(after, initial, bgra, w, h, rp, cp + 1),
{
    reveal(progress);
    lemma_chroma_bound(w, h, rp, cp);
    assert forall|rp2: int, cp2: int|
        is_block(w, h, rp2, cp2) && block_done(rp, cp + 1, rp2, cp2) implies #[trigger] block_converted(
        after,
        bgra,
        w,
        h,
        rp2,
        cp2,
    ) by {
        if rp2 != rp || cp2 != cp {
            assert(block_converted(before, bgra, w, h, rp2, cp2));
            lemma_chroma_bound(w, h, rp2, cp2);
            lemma_row_major_bound(w, h, 2 * rp2 + 1, 2 * cp2 + 1);
            lemma_row_major_bound(w, h, 2 * rp2 + 1, 2 * cp2);
            lemma_row_major_bound(w, h, 2 * rp2, 2 * cp2 + 1);
            lemma_row_major_bound(w, h, 2 * rp2, 2 * cp2);
            assert forall|i: int| #[trigger] touches(w, h, rp2, cp2, i) implies after[i] == before[i] by {
                if touches(w, h, rp, cp, i) {
                    lemma_blocks_disjoint(w, h, rp2, cp2, rp, cp, i);
                }
            }
            assert(touches(w, h, rp2, cp2, y_pos(w, 2 * rp2, 2 * cp2)));
            assert(touches(w, h, rp2, cp2, y_pos(w, 2 * rp2, 2 * cp2 + 1)));
            assert(touches(w, h, rp2, cp2, y_pos(w, 2 * rp2 + 1, 2 * cp2)));
            assert(touches(w, h, rp2, cp2, y_pos(w, 2 * rp2 + 1, 2 * cp2 + 1)));
            assert(touches(w, h, rp2, cp2, u_pos(w, h, rp2, cp2)));
            assert(touches(w, h, rp2, cp2, v_pos(w, h, rp2, cp2)));
        }
    }
    assert forall|i: int|
        0 <= i < initial.len() && (forall|rp2: int, cp2: int|
            is_block(w, h, rp2, cp2) && block_done(rp, cp + 1, rp2, cp2) ==> !#[trigger] touches(
                w,
                h,
                rp2,
                cp2,
                i,
            )) implies after[i] == initial[i] by {
        assert(!touches(w, h, rp, cp, i));
    }
}

/// Finishing a row of blocks is starting the next one.
proof fn lemma_progress_row(out: Seq<u8>, initial: Seq<u8>, bgra: Seq<u8>, w: int, h: int, rp: int)
    requires
        progress(out, initial, bgra, w, h, rp, w / 2),
    ensures
        progress(out, initial, bgra, w, h, rp + 1, 0),
{
    reveal(progress);
    assert forall|i: int|
        0 <= i < initial.len() && (forall|rp2: int, cp2: int|
            is_block(w, h, rp2, cp2) && block_done(rp + 1, 0, rp2, cp2) ==> !#[trigger] touches(
                w,
                h,
                rp2,
                cp2,
                i,
            )) implies out[i] == initial[i] by {
        assert forall|rp2: int, cp2: int|
            is_block(w, h, rp2, cp2) && block_done(rp, w / 2, rp2, cp2) implies !#[trigger] touches(
            w,
            h,
            rp2,
            cp2,
            i,
        ) by {
            assert(block_done(rp + 1, 0, rp2, cp2));
        }
    }
}

/// Writes the six samples of block `rp`, `cp`.
#[verifier::spinoff_prover]
fn write_block(
    yuv: &mut [u8],
    bgra: &[u8],
    width: usize,
    height: usize,
    rp: usize,
    cp: usize,
)
    requires
        width * height <= usize::MAX,
        is_block(width as int, height as int, rp as int, cp as int),
        bgra.len() >= bgra_needed(width as int, height as int),
        old(yuv).len() >= yuv_needed(width as int, height as int),
    ensures
        final(yuv)@.len() == old(yuv)@.len(),
        block_converted(final(yuv)@, bgra@, width as int, height as int, rp as int, cp as int),
        forall|i: int|
            0 <= i < old(yuv)@.len() && !touches(width as int, height as int, rp as int, cp as int, i)
                ==> final(yuv)@[i] == old(yuv)@[i],
{
    let ghost w = width as int;
    let ghost h = height as int;
    let (y00, y01, y10, y11, u, v) = convert_block(bgra, width, height, rp, cp);
    let row0 = rp * 2;
    let row1 = row0 + 1;
    let col0 = cp * 2;
    let col1 = col0 + 1;
    proof {
        lemma_row_major_bound(w, h, row1 as int, col1 as int);
        lemma_row_major_bound(w, h, row1 as int, col0 as int);
        lemma_row_major_bound(w, h, row0 as int, col1 as int);
        lemma_row_major_bound(w, h, row0 as int, col0 as int);
        lemma_chroma_bound(w, h, rp as int, cp as int);
    }
    let y_size = width * height;
    let uv_size = y_size / 4;
    let uv_width = width / 2;
    let y_row0 = row0 * width;
    let y_row1 = row1 * width;
    let uv_row = rp * uv_width;
    assert(y_row1 == y_row0 + width) by (nonlinear_arith)
        requires
            y_row0 == row0 * width,
            y_row1 == row1 * width,
            row1 == row0 + 1,
    ;
    let p00 = y_row0 + col0;
    let p01 = y_row0 + col1;
    let p10 = y_row1 + col0;
    let p11 = y_row1 + col1;
    let pu = y_size + uv_row + cp;
    let pv = y_size + uv_size + uv_row + cp;
    assert(p00 == y_pos(w, 2 * rp, 2 * cp) && p01 == y_pos(w, 2 * rp, 2 * cp + 1) && p10 == y_pos(
        w,
        2 * rp + 1,
        2 * cp,
    ) && p11 == y_pos(w, 2 * rp + 1, 2 * cp + 1) && pu == u_pos(w, h, rp as int, cp as int) && pv
        == v_pos(w, h, rp as int, cp as int));
    assert(p00 < p01 < p10 < p11 < pu < pv);
    let ghost before = yuv@;
    yuv[p00] = y00;
    yuv[p01] = y01;
    yuv[p10] = y10;
    yuv[p11] = y11;
    yuv[pu] = u;
    yuv[pv] = v;
    assert forall|i: int|
        0 <= i < before.len() && !touches(w, h, rp as int, cp as int, i) implies yuv@[i] == before[i] by {
        assert(i != p00 && i != p01 && i != p10 && i != p11 && i != pu && i != pv);
    }
    assert(yuv@[p00 as int] == y00 && yuv@[p01 as int] == y01 && yuv@[p10 as int] == y10
        && yuv@[p11 as int] == y11 && yuv@[pu as int] == u && yuv@[pv as int] == v);
}

/// Fast BGRA to YUV420p conversion using fixed-point integer arithmetic.
///
/// `bgra` is a packed image of `width` x `height` pixels; `yuv` receives the
/// Y plane (`width * height` bytes), then the U plane and the V plane, each a
/// quarter of the Y plane. Every full 2x2 block of pixels gets its four Y
/// samples, and one U and one V sample from the block's average colour; no
/// other byte of `yuv` is touched.
pub fn bgra_to_yuv420_fast(bgra: &[u8], yuv: &mut [u8], width: usize, height: usize)
    requires
        width * height <= usize::MAX,
        bgra.len() >= bgra_needed(width as int, height as int),
        old(yuv).len() >= yuv_needed(width as int, height as int),
    ensures
        final(yuv)@.len() == old(yuv)@.len(),
        forall|rp: int, cp: int|
            is_block(width as int, height as int, rp, cp) ==> #[trigger] block_converted(
                final(yuv)@,
                bgra@,
                width as int,
                height as int,
                rp,
                cp,
            ),
        forall|i: int|
            0 <= i < old(yuv)@.len() && !(exists|rp: int, cp: int|
                is_block(width as int, height as int, rp, cp) && #[trigger] touches(
                    width as int,
                    height as int,
                    rp,
                    cp,
                    i,
                )) ==> final(yuv)@[i] == old(yuv)@[i],
{
    let ghost w = width as int;
    let ghost h = height as int;
    let ghost initial = yuv@;
    proof {
        lemma_progress_start(initial, bgra@, w, h);
    }
    let uv_width = width / 2;
    let mut row_pair: usize = 0;
    while row_pair < height / 2
        invariant
            w == width,
            h == height,
            uv_width == w / 2,
            width * height <= usize::MAX,
            bgra.len() >= bgra_needed(w, h),
            yuv@.len() == initial.len(),
            initial.len() >= yuv_needed(w, h),
            row_pair <= height / 2,
            progress(yuv@, initial, bgra@, w, h, row_pair as int, 0),
        decreases height / 2 - row_pair,
    {
        let mut col_pair: usize = 0;
        while col_pair < uv_width
            invariant
                w == width,
                h == height,
                uv_width == w / 2,
                width * height <= usize::MAX,
                bgra.len() >= bgra_needed(w, h),
                yuv@.len() == initial.len(),
                initial.len() >= yuv_needed(w, h),
                row_pair < height / 2,
                col_pair <= uv_width,
                progress(yuv@, initial, bgra@, w, h, row_pair as int, col_pair as int),
            decreases uv_width - col_pair,
        {
            let ghost before = yuv@;
            write_block(yuv, bgra, width, height, row_pair, col_pair);
            proof {
                lemma_progress_step(
                    before,
                    yuv@,
                    initial,
                    bgra@,
                    w,
                    h,
                    row_pair as int,
                    col_pair as int,
                );
            }
            col_pair = col_pair + 1;
        }
        proof {
            lemma_progress_row(yuv@, initial, bgra@, w, h, row_pair as int);
        }
        row_pair = row_pair + 1;
    }
    proof {
        reveal(progress);
        assert forall|i: int|
            0 <= i < initial.len() && !(exists|rp: int, cp: int|
                is_block(w, h, rp, cp) && #[trigger] touches(w, h, rp, cp, i)) implies yuv@[i]
            == initial[i] by {
            assert forall|rp: int, cp: int|
                is_block(w, h, rp, cp) && block_done(row_pair as int, 0, rp, cp) implies !#[trigger] touches(
                w,
                h,
                rp,
                cp,
                i,
            ) by {
                if touches(w, h, rp, cp, i) {
                    assert(exists|rp: int, cp: int|
                        is_block(w, h, rp, cp) && #[trigger] touches(w, h, rp, cp, i));
                }
            }
        }
        assert forall|rp: int, cp: int| is_block(w, h, rp, cp) implies #[trigger] block_converted(
            yuv@,
            bgra@,
            w,
            h,
            rp,
            cp,
        ) by {
            assert(block_done(row_pair as int, 0, rp, cp));
        }
    }
}

} // verus!

verus! {

/// Per pixel: when every block is converted, the Y sample of each pixel of
/// the full blocks is that pixel's luma.
pub proof fn lemma_luma_per_pixel(out: Seq<u8>, bgra: Seq<u8>, w: int, h: int, row: int, col: int)
    requires
        forall|rp: int, cp: int| is_block(w, h, rp, cp) ==> #[trigger] block_converted(out, bgra, w, h, rp, cp),
        0 <= row < 2 * (h / 2),
        0 <= col < 2 * (w / 2),
    ensures
        out[y_pos(w, row, col)] as int == luma_at(bgra, w, row, col),
{
    let rp = row / 2;
    let cp = col / 2;
    assert(block_converted(out, bgra, w, h, rp, cp));
}

/// For even dimensions the conversion writes every byte of the YUV buffer:
/// each offset below `w * h * 3 / 2` is a sample of some full block.
pub proof fn lemma_even_frame_covered(w: int, h: int, i: int)
    requires
        w >= 0,
        h >= 0,
        w % 2 == 0,
        h % 2 == 0,
        0 <= i < w * h + 2 * ((w * h) / 4),
    ensures
        exists|rp: int, cp: int| is_block(w, h, rp, cp) && #[trigger] touches(w, h, rp, cp, i),
{
    let cw = w / 2;
    let ch = h / 2;
    assert(w * h == 4 * (cw * ch)) by (nonlinear_arith)
        requires
            w == 2 * cw,
            h == 2 * ch,
    ;
    assert((w * h) / 4 == cw * ch);
    if i < w * h {
        assert(w > 0) by (nonlinear_arith)
            requires
                0 <= i < w * h,
                w >= 0,
                h >= 0,
        ;
        let row = i / w;
        let col = i % w;
        vstd::arithmetic::div_mod::lemma_fundamental_div_mod(i, w);
        assert(row * w == w * row) by (nonlinear_arith);
        assert(0 <= row < h) by (nonlinear_arith)
            requires
                i == w * row + col,
                0 <= col < w,
                0 <= i < w * h,
                w > 0,
        ;
        let rp = row / 2;
        let cp = col / 2;
        assert(is_block(w, h, rp, cp));
        assert(touches(w, h, rp, cp, i));
    } else {
        let j = if i < w * h + cw * ch { i - w * h } else { i - w * h - cw * ch };
        assert(0 <= j < cw * ch);
        assert(cw > 0) by (nonlinear_arith)
            requires
                0 <= j < cw * ch,
                cw >= 0,
                ch >= 0,
        ;
        let rp = j / cw;
        let cp = j % cw;
        vstd::arithmetic::div_mod::lemma_fundamental_div_mod(j, cw);
        assert(rp * cw == cw * rp) by (nonlinear_arith);
        assert(0 <= rp < ch) by (nonlinear_arith)
            requires
                j == cw * rp + cp,
                0 <= cp < cw,
                0 <= j < cw * ch,
                cw > 0,
        ;
        assert(is_block(w, h, rp, cp));
        assert(touches(w, h, rp, cp, i));
    }
}

} // verus!

verus! {

/// Two BGRA images of the same length that differ at most in their alpha
/// bytes.
pub open spec fn same_colours(bgra1: Seq<u8>, bgra2: Seq<u8>) -> bool {
    &&& bgra1.len() == bgra2.len()
    &&& forall|i: int| 0 <= i < bgra1.len() && i % 4 != 3 ==> #[trigger] bgra1[i] == bgra2[i]
}

/// What `bgra_to_yuv420_fast` makes of `initial` given `bgra`.
pub open spec fn conversion_of(initial: Seq<u8>, bgra: Seq<u8>, w: int, h: int, out: Seq<u8>) -> bool {
    &&& out.len() == initial.len()
    &&& forall|rp: int, cp: int| is_block(w, h, rp, cp) ==> #[trigger] block_converted(out, bgra, w, h, rp, cp)
    &&& forall|i: int|
        0 <= i < initial.len() && !(exists|rp: int, cp: int|
            is_block(w, h, rp, cp) && #[trigger] touches(w, h, rp, cp, i)) ==> out[i] == initial[i]
}

proof fn lemma_same_pixel(bgra1: Seq<u8>, bgra2: Seq<u8>, w: int, h: int, row: int, col: int)
    requires
        same_colours(bgra1, bgra2),
        bgra1.len() >= bgra_needed(w, h),
        0 <= row < 2 * (h / 2),
        0 <= col < 2 * (w / 2),
    ensures
        channel(bgra1, w, row, col, 0) == channel(bgra2, w, row, col, 0),
        channel(bgra1, w, row, col, 1) == channel(bgra2, w, row, col, 1),
        channel(bgra1, w, row, col, 2) == channel(bgra2, w, row, col, 2),
{
    lemma_pixel_read_bound(w, h, row, col);
    let p = (row * w + col) * 4;
    assert(p % 4 == 0);
    assert((p + 1) % 4 == 1);
    assert((p + 2) % 4 == 2);
    assert(bgra1[p] == bgra2[p]);
    assert(bgra1[p + 1] == bgra2[p + 1]);
    assert(bgra1[p + 2] == bgra2[p + 2]);
}

/// The alpha byte of a pixel never affects the conversion: converting two
/// images that differ only in alpha into the same buffer gives the same
/// result.
pub proof fn lemma_alpha_ignored(
    initial: Seq<u8>,
    bgra1: Seq<u8>,
    bgra2: Seq<u8>,
    w: int,
    h: int,
    out1: Seq<u8>,
    out2: Seq<u8>,
)
    requires
        same_colours(bgra1, bgra2),
        bgra1.len() >= bgra_needed(w, h),
        conversion_of(initial, bgra1, w, h, out1),
        conversion_of(initial, bgra2, w, h, out2),
    ensures
        out1 == out2,
{
    assert forall|i: int| 0 <= i < out1.len() implies out1[i] == out2[i] by {
        if exists|rp: int, cp: int| is_block(w, h, rp, cp) && #[trigger] touches(w, h, rp, cp, i) {
            let (rp, cp) = choose|rp: int, cp: int|
                is_block(w, h, rp, cp) && #[trigger] touches(w, h, rp, cp, i);
            assert(block_converted(out1, bgra1, w, h, rp, cp));
            assert(block_converted(out2, bgra2, w, h, rp, cp));
            lemma_same_pixel(bgra1, bgra2, w, h, 2 * rp, 2 * cp);
            lemma_same_pixel(bgra1, bgra2, w, h, 2 * rp, 2 * cp + 1);
            lemma_same_pixel(bgra1, bgra2, w, h, 2 * rp + 1, 2 * cp);
            lemma_same_pixel(bgra1, bgra2, w, h, 2 * rp + 1, 2 * cp + 1);
        }
    }
    assert(out1 =~= out2);
}

} // verus!
