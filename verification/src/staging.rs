//! Staging layout for texture uploads.
//!
//! A texture write stages its bytes in a buffer whose row pitch is the
//! natural row size rounded up to the least common multiple of the device's
//! optimal copy-pitch alignment and the format's block byte size.  When the
//! caller's rows are already that wide the payload is staged in one pass;
//! otherwise it is re-strided row by row.  Either way the staged bytes are
//! the same function of the input, stated once below.

use vstd::prelude::*;
use crate::align::{align_to, get_lowest_common_denom, spec_lcm};
use crate::error::TransferError;
use crate::id::Id;

verus! {

/// Size of a texture or of a copy region, in texels.
#[derive(Clone, Copy, PartialEq, Eq, Structural, Debug)]
pub struct Extent3d {
    pub width: u32,
    pub height: u32,
    pub depth: u32,
}

/// Texel origin of a copy inside a texture.
#[derive(Clone, Copy, PartialEq, Eq, Structural, Debug)]
pub struct Origin3d {
    pub x: u32,
    pub y: u32,
    pub z: u32,
}

/// Destination of a texture write.
#[derive(Clone, Copy, PartialEq, Eq, Structural, Debug)]
pub struct TextureCopyView {
    pub texture: Id,
    pub mip_level: u32,
    pub origin: Origin3d,
}

/// Caller-declared linear layout of the supplied bytes: the distance between
/// rows and between whole images, both in the caller's buffer.
#[derive(Clone, Copy, PartialEq, Eq, Structural, Debug)]
pub struct TextureDataLayout {
    pub bytes_per_row: u32,
    pub rows_per_image: u32,
}

/// What the staging path needs of a texture format: the byte size of one
/// texel block and the block's dimensions in texels.
#[derive(Clone, Copy, PartialEq, Eq, Structural, Debug)]
pub struct TextureFormatInfo {
    pub bytes_per_block: u32,
    pub block_width: u32,
    pub block_height: u32,
}

impl TextureFormatInfo {
    /// Block sizes of real formats are small and positive.
    pub open spec fn wf(self) -> bool {
        &&& 0 < self.bytes_per_block <= 256
        &&& 0 < self.block_width <= 16
        &&& 0 < self.block_height <= 16
    }
}

/// The device limits the staging path reads.
#[derive(Clone, Copy, PartialEq, Eq, Structural, Debug)]
pub struct DeviceLimits {
    pub optimal_buffer_copy_pitch_alignment: u32,
}

impl DeviceLimits {
    pub open spec fn wf(self) -> bool {
        0 < self.optimal_buffer_copy_pitch_alignment <= 65536
    }
}

/// Row pitches at or above this bound are rejected, so that the staged pitch
/// can be computed without overflowing a 32-bit size.
pub const MAX_ROW_PITCH: u32 = 2147483648 - 16777216;

pub open spec fn spec_width_blocks(size: Extent3d, fmt: TextureFormatInfo) -> nat {
    (size.width as nat) / (fmt.block_width as nat)
}

pub open spec fn spec_height_blocks(size: Extent3d, fmt: TextureFormatInfo) -> nat {
    (size.height as nat) / (fmt.block_height as nat)
}

/// Number of block rows the copy covers: full images for all but the last
/// depth layer, then the copied rows of the last one.
pub open spec fn spec_block_rows_in_copy(
    layout: TextureDataLayout,
    fmt: TextureFormatInfo,
    size: Extent3d,
) -> nat {
    ((size.depth - 1) as nat) * ((layout.rows_per_image as nat) / (fmt.block_height as nat))
        + spec_height_blocks(size, fmt)
}

/// Bytes the declared layout requires of the payload.
pub open spec fn spec_required_bytes(
    layout: TextureDataLayout,
    fmt: TextureFormatInfo,
    size: Extent3d,
) -> nat {
    spec_block_rows_in_copy(layout, fmt, size) * (layout.bytes_per_row as nat)
}

/// The copy extent covers whole texel blocks.
pub open spec fn extent_block_aligned(size: Extent3d, fmt: TextureFormatInfo) -> bool {
    size.width % fmt.block_width == 0 && size.height % fmt.block_height == 0
}

/// The declared row and image pitches describe whole blocks and are wide
/// enough for the copy.
pub open spec fn layout_pitch_valid(
    layout: TextureDataLayout,
    fmt: TextureFormatInfo,
    size: Extent3d,
) -> bool {
    &&& layout.bytes_per_row % fmt.bytes_per_block == 0
    &&& layout.bytes_per_row >= (fmt.bytes_per_block as nat) * spec_width_blocks(size, fmt)
    &&& layout.bytes_per_row < MAX_ROW_PITCH
    &&& layout.rows_per_image % fmt.block_height == 0
    &&& layout.rows_per_image >= size.height
}

/// Validates a linear texture payload against the declared layout: the
/// extent must cover whole blocks, the pitches must describe whole blocks
/// and span the copy, and the payload must hold every declared row.
pub fn validate_linear_texture_data(
    layout: &TextureDataLayout,
    fmt: &TextureFormatInfo,
    data_len: u64,
    size: &Extent3d,
) -> (r: Result<(), TransferError>)
    requires
        fmt.wf(),
        size.width > 0,
        size.height > 0,
        size.depth > 0,
    ensures
        r matches Ok(_) <==> {
            &&& extent_block_aligned(*size, *fmt)
            &&& layout_pitch_valid(*layout, *fmt, *size)
            &&& data_len >= spec_required_bytes(*layout, *fmt, *size)
        },
        !extent_block_aligned(*size, *fmt) ==> r == Result::<(), TransferError>::Err(
            TransferError::InvalidExtent,
        ),
        extent_block_aligned(*size, *fmt) && !layout_pitch_valid(*layout, *fmt, *size)
            ==> r == Result::<(), TransferError>::Err(
            TransferError::UnalignedRowPitch(layout.bytes_per_row),
        ),
        extent_block_aligned(*size, *fmt) && layout_pitch_valid(*layout, *fmt, *size)
            && data_len < spec_required_bytes(*layout, *fmt, *size) ==> r == Result::<
            (),
            TransferError,
        >::Err(TransferError::InsufficientDataSize),
{
    if size.width % fmt.block_width != 0 || size.height % fmt.block_height != 0 {
        return Err(TransferError::InvalidExtent);
    }
    let width_blocks = size.width / fmt.block_width;
    proof {
        assert((fmt.bytes_per_block as u64) as int * (width_blocks as u64) as int
            <= 256 * 0xffff_ffff) by (nonlinear_arith)
            requires
                fmt.bytes_per_block as u64 <= 256,
                width_blocks as u64 <= 0xffff_ffffu64,
        ;
    }
    let min_row = (fmt.bytes_per_block as u64) * (width_blocks as u64);
    if layout.bytes_per_row % fmt.bytes_per_block != 0 || (layout.bytes_per_row as u64)
        < min_row || layout.bytes_per_row >= MAX_ROW_PITCH || layout.rows_per_image
        % fmt.block_height != 0 || layout.rows_per_image < size.height {
        return Err(TransferError::UnalignedRowPitch(layout.bytes_per_row));
    }
    let block_rows_per_image = layout.rows_per_image / fmt.block_height;
    let height_blocks = size.height / fmt.block_height;
    proof {
        assert((((size.depth - 1) as u64) as int * (block_rows_per_image as u64) as int
            + (height_blocks as u64) as int) < 0xffff_ffff_ffff_ffff) by (nonlinear_arith)
            requires
                (size.depth - 1) as u64 <= 0xffff_ffffu64,
                block_rows_per_image as u64 <= 0xffff_ffffu64,
                height_blocks as u64 <= 0xffff_ffffu64,
        ;
    }
    let block_rows: u64 = ((size.depth - 1) as u64) * (block_rows_per_image as u64)
        + (height_blocks as u64);
    proof {
        assert(block_rows * (layout.bytes_per_row as u64) == spec_required_bytes(
            *layout,
            *fmt,
            *size,
        ));
        assert(block_rows <= 0x1_0000_0001_0000_0000u128 - 1) by (nonlinear_arith)
            requires
                block_rows == ((size.depth - 1) as u64) as int * (block_rows_per_image
                    as u64) as int + (height_blocks as u64) as int,
                (size.depth - 1) as u64 <= 0xffff_ffffu64,
                block_rows_per_image as u64 <= 0xffff_ffffu64,
                height_blocks as u64 <= 0xffff_ffffu64,
        ;
    }
    // `data_len >= rows * pitch` exactly when `data_len / pitch >= rows`.
    if layout.bytes_per_row == 0 {
        // A zero pitch passed the minimum-width check only if the copy is
        // empty per row, which a positive extent rules out.
        proof {
            assert(width_blocks >= 1) by {
                if size.width < fmt.block_width {
                    vstd::arithmetic::div_mod::lemma_small_mod(
                        size.width as nat,
                        fmt.block_width as nat,
                    );
                }
                vstd::arithmetic::div_mod::lemma_div_non_zero(
                    size.width as int,
                    fmt.block_width as int,
                );
            }
            assert(min_row >= 1) by (nonlinear_arith)
                requires
                    min_row == (fmt.bytes_per_block as u64) as int * (width_blocks
                        as u64) as int,
                    fmt.bytes_per_block >= 1,
                    width_blocks as u64 >= 1,
            ;
        }
        return Err(TransferError::InsufficientDataSize);
    }
    if data_len / (layout.bytes_per_row as u64) < block_rows {
        proof {
            lemma_div_under(data_len as int, layout.bytes_per_row as int, block_rows as int);
        }
        return Err(TransferError::InsufficientDataSize);
    }
    proof {
        lemma_div_over(data_len as int, layout.bytes_per_row as int, block_rows as int);
    }
    Ok(())
}

/// `x / d < n` implies `x < n * d` for positive `d`.
proof fn lemma_div_under(x: int, d: int, n: int)
    requires
        d > 0,
        x >= 0,
        n >= 0,
        x / d < n,
    ensures
        x < n * d,
{
    vstd::arithmetic::div_mod::lemma_fundamental_div_mod(x, d);
    assert(x < n * d) by (nonlinear_arith)
        requires
            x == d * (x / d) + x % d,
            x % d < d,
            x / d < n,
            d > 0,
    ;
}

/// `x / d >= n` implies `x >= n * d` for positive `d`.
proof fn lemma_div_over(x: int, d: int, n: int)
    requires
        d > 0,
        x >= 0,
        n >= 0,
        x / d >= n,
    ensures
        x >= n * d,
{
    vstd::arithmetic::div_mod::lemma_fundamental_div_mod(x, d);
    assert(x >= n * d) by (nonlinear_arith)
        requires
            x == d * (x / d) + x % d,
            x % d >= 0,
            x / d >= n,
            d > 0,
    ;
}

/// `n <= x / d` exactly when `n * d <= x`, for positive `d`.
pub proof fn lemma_mul_div_bounds(x: int, d: int, n: int)
    requires
        d > 0,
        x >= 0,
        n >= 0,
    ensures
        n <= x / d ==> n * d <= x,
        n > x / d ==> n * d > x,
{
    if n <= x / d {
        lemma_div_over(x, d, n);
    } else {
        lemma_div_under(x, d, n);
    }
}

/// The staged row pitch: the natural row size rounded up to the least common
/// multiple of the device's copy-pitch alignment and the block byte size.
pub open spec fn spec_stage_bytes_per_row(
    limits: DeviceLimits,
    fmt: TextureFormatInfo,
    size: Extent3d,
) -> nat {
    let alignment = spec_lcm(
        limits.optimal_buffer_copy_pitch_alignment as nat,
        fmt.bytes_per_block as nat,
    );
    let natural = (fmt.bytes_per_block as nat) * spec_width_blocks(size, fmt);
    if natural % alignment == 0 {
        natural
    } else {
        (natural + alignment - natural % alignment) as nat
    }
}

/// Computes the staged row pitch.  The result is a multiple of both the
/// device's copy-pitch alignment and the block byte size, and is the least
/// such multiple at or above the natural row size.
pub fn compute_stage_bytes_per_row(
    limits: &DeviceLimits,
    fmt: &TextureFormatInfo,
    size: &Extent3d,
) -> (r: u32)
    requires
        limits.wf(),
        fmt.wf(),
        (fmt.bytes_per_block as nat) * spec_width_blocks(*size, *fmt) < MAX_ROW_PITCH,
    ensures
        r == spec_stage_bytes_per_row(*limits, *fmt, *size),
        r % limits.optimal_buffer_copy_pitch_alignment == 0,
        r % fmt.bytes_per_block == 0,
        r >= (fmt.bytes_per_block as nat) * spec_width_blocks(*size, *fmt),
        r < MAX_ROW_PITCH + 16777216,
{
    let opt = limits.optimal_buffer_copy_pitch_alignment;
    let bpb = fmt.bytes_per_block;
    proof {
        assert(opt as int * bpb as int <= 65536 * 256) by (nonlinear_arith)
            requires
                0 < opt <= 65536,
                0 < bpb <= 256,
        ;
    }
    let alignment = get_lowest_common_denom(opt, bpb);
    let width_blocks = size.width / fmt.block_width;
    proof {
        crate::align::lemma_lcm_props(opt as nat, bpb as nat);
        assert(bpb as int * width_blocks as int == (fmt.bytes_per_block as nat)
            * spec_width_blocks(*size, *fmt));
    }
    let natural = bpb * width_blocks;
    let r = align_to(natural, alignment);
    proof {
        let a = alignment as nat;
        let n = natural as nat;
        if n % a == 0 {
            assert(r >= n && r < n + a && (r as nat) % a == 0);
            vstd::arithmetic::div_mod::lemma_fundamental_div_mod(r as int, a as int);
            vstd::arithmetic::div_mod::lemma_fundamental_div_mod(n as int, a as int);
            assert(r == n) by (nonlinear_arith)
                requires
                    r as int == a as int * (r as int / a as int),
                    n as int == a as int * (n as int / a as int),
                    n <= r,
                    r < n + a,
                    a > 0,
            ;
        } else {
            vstd::arithmetic::div_mod::lemma_fundamental_div_mod(n as int, a as int);
            vstd::arithmetic::div_mod::lemma_fundamental_div_mod(r as int, a as int);
            assert(r == n + a - n % a) by (nonlinear_arith)
                requires
                    r as int == a as int * (r as int / a as int),
                    n as int == a as int * (n as int / a as int) + n as int % a as int,
                    0 < n as int % a as int,
                    (n as int % a as int) < a,
                    n <= r,
                    r < n + a,
                    a > 0,
            ;
        }
        lemma_mod_of_multiple(r as int, alignment as int, opt as int);
        lemma_mod_of_multiple(r as int, alignment as int, bpb as int);
    }
    r
}

/// A multiple of `a` is a multiple of every divisor of `a`.
proof fn lemma_mod_of_multiple(x: int, a: int, d: int)
    requires
        a > 0,
        d > 0,
        x >= 0,
        x % a == 0,
        a % d == 0,
    ensures
        x % d == 0,
{
    vstd::arithmetic::div_mod::lemma_fundamental_div_mod(x, a);
    vstd::arithmetic::div_mod::lemma_fundamental_div_mod(a, d);
    let q = x / a;
    let p = a / d;
    assert(x == d * (p * q)) by (nonlinear_arith)
        requires
            x == a * q,
            a == d * p,
    ;
    vstd::arithmetic::div_mod::lemma_mod_multiples_basic(p * q, d);
    assert(d * (p * q) == (p * q) * d) by (nonlinear_arith);
}

/// One byte of the staged image: staging row `i / stage_pitch` holds the
/// first `copy_bytes` bytes of source row `i / stage_pitch`, then zero
/// padding up to the staged pitch.
pub open spec fn staged_byte(
    data: Seq<u8>,
    data_pitch: nat,
    stage_pitch: nat,
    copy_bytes: nat,
    i: int,
) -> u8 {
    let row = i / stage_pitch as int;
    let off = i % stage_pitch as int;
    if off < copy_bytes {
        data[row * data_pitch as int + off]
    } else {
        0
    }
}

/// The whole staged image, the reference row-by-row re-striding of the
/// caller's rows into the staged pitch.
pub open spec fn staged_contents(
    data: Seq<u8>,
    data_pitch: nat,
    stage_pitch: nat,
    copy_bytes: nat,
    rows: nat,
) -> Seq<u8> {
    Seq::new(
        rows * stage_pitch,
        |i: int| staged_byte(data, data_pitch, stage_pitch, copy_bytes, i),
    )
}

/// Law: when the caller's rows are exactly as wide as the staged pitch, the
/// staged image is byte-identical to the leading bytes of the payload, so a
/// single whole-payload copy and the reference row-by-row copy agree.
pub proof fn lemma_staged_fast_path(data: Seq<u8>, pitch: nat, rows: nat)
    requires
        pitch > 0,
        rows * pitch <= data.len(),
    ensures
        staged_contents(data, pitch, pitch, pitch, rows) =~= data.take((rows * pitch) as int),
{
    let s = staged_contents(data, pitch, pitch, pitch, rows);
    assert forall|i: int| 0 <= i < s.len() implies s[i] == data.take((rows * pitch) as int)[i]
        by {
        vstd::arithmetic::div_mod::lemma_fundamental_div_mod(i, pitch as int);
        assert((i / pitch as int) * pitch as int + i % pitch as int == i)
            by (nonlinear_arith)
            requires
                i == pitch as int * (i / pitch as int) + i % pitch as int,
        ;
    }
}

/// Copies the payload into a staging buffer of the given pitch.  The fast
/// path stages the whole payload in one pass when the pitches agree; the
/// slow path re-strides row by row.  Both produce the staged image stated by
/// `staged_contents`.
pub fn fill_staging(
    data: &Vec<u8>,
    data_pitch: usize,
    stage_pitch: usize,
    copy_bytes: usize,
    rows: usize,
) -> (r: Vec<u8>)
    requires
        0 < stage_pitch,
        copy_bytes <= stage_pitch,
        copy_bytes <= data_pitch,
        rows * stage_pitch <= usize::MAX,
        rows > 0 ==> (rows - 1) * data_pitch + copy_bytes <= data.len(),
        rows * data_pitch <= usize::MAX,
    ensures
        r@ == staged_contents(
            data@,
            data_pitch as nat,
            stage_pitch as nat,
            copy_bytes as nat,
            rows as nat,
        ),
{
    let mut out: Vec<u8> = Vec::new();
    if data_pitch == stage_pitch && copy_bytes == stage_pitch {
        // Fast path: the payload already has the staged layout.
        let total = rows * stage_pitch;
        proof {
            assert(rows > 0 ==> (rows - 1) * data_pitch + copy_bytes == rows * data_pitch)
                by (nonlinear_arith)
                requires
                    data_pitch == copy_bytes,
            ;
        }
        let mut i: usize = 0;
        while i < total
            invariant
                total == rows * stage_pitch,
                total <= data@.len(),
                i <= total,
                out@ =~= data@.take(i as int),
            decreases total - i,
        {
            let b = data[i];
            out.push(b);
            proof {
                assert(out@ =~= data@.take(i + 1));
            }
            i = i + 1;
        }
        proof {
            lemma_staged_fast_path(data@, stage_pitch as nat, rows as nat);
        }
    } else {
        // Slow path: copy each source row to its staged position and pad.
        let mut row: usize = 0;
        while row < rows
            invariant
                0 < stage_pitch,
                copy_bytes <= stage_pitch,
                copy_bytes <= data_pitch,
                rows * stage_pitch <= usize::MAX,
                rows * data_pitch <= usize::MAX,
                rows > 0 ==> (rows - 1) * data_pitch + copy_bytes <= data@.len(),
                row <= rows,
                out@.len() == row * stage_pitch,
                forall|i: int|
                    0 <= i < out@.len() ==> out@[i] == staged_byte(
                        data@,
                        data_pitch as nat,
                        stage_pitch as nat,
                        copy_bytes as nat,
                        i,
                    ),
            decreases rows - row,
        {
            proof {
                assert(row * data_pitch <= (rows - 1) * data_pitch && row * stage_pitch <= (
                rows - 1) * stage_pitch) by (nonlinear_arith)
                    requires
                        row < rows,
                        data_pitch >= 0,
                        stage_pitch >= 0,
                ;
                assert((rows - 1) * stage_pitch + stage_pitch == rows * stage_pitch)
                    by (nonlinear_arith);
                assert((rows - 1) * data_pitch + data_pitch == rows * data_pitch)
                    by (nonlinear_arith);
            }
            let data_offset = row * data_pitch;
            let mut j: usize = 0;
            while j < stage_pitch
                invariant
                    0 < stage_pitch,
                    copy_bytes <= stage_pitch,
                    copy_bytes <= data_pitch,
                    row < rows,
                    rows * stage_pitch <= usize::MAX,
                    rows > 0 ==> (rows - 1) * data_pitch + copy_bytes <= data@.len(),
                    data_offset == row * data_pitch,
                    data_offset <= (rows - 1) * data_pitch,
                    (rows - 1) * data_pitch + copy_bytes <= usize::MAX,
                    row * stage_pitch <= (rows - 1) * stage_pitch,
                    j <= stage_pitch,
                    out@.len() == row * stage_pitch + j,
                    forall|i: int|
                        0 <= i < out@.len() ==> out@[i] == staged_byte(
                            data@,
                            data_pitch as nat,
                            stage_pitch as nat,
                            copy_bytes as nat,
                            i,
                        ),
                decreases stage_pitch - j,
            {
                let b = if j < copy_bytes {
                    data[data_offset + j]
                } else {
                    0
                };
                out.push(b);
                proof {
                    let i = out@.len() - 1;
                    assert(i == row * stage_pitch + j);
                    vstd::arithmetic::div_mod::lemma_fundamental_div_mod_converse(
                        i as int,
                        stage_pitch as int,
                        row as int,
                        j as int,
                    );
                    assert(i / stage_pitch as int == row && i % stage_pitch as int == j);
                }
                j = j + 1;
            }
            proof {
                assert(row * stage_pitch + stage_pitch == (row + 1) * stage_pitch)
                    by (nonlinear_arith);
            }
            row = row + 1;
        }
        proof {
            assert(out@ =~= staged_contents(
                data@,
                data_pitch as nat,
                stage_pitch as nat,
                copy_bytes as nat,
                rows as nat,
            ));
        }
    }
    out
}

} // verus!
