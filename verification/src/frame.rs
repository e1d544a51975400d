//! Captured frames, and the removal of row padding from raw buffers.
//!
//! The capture mechanism hands over images whose rows are padded: each row
//! occupies `stride` pixels of which only the first `width` belong to the
//! image. A pixel is four bytes. [`normalize`] copies the real pixels into
//! a tightly packed buffer.

use crate::window::WindowHandle;
use vstd::arithmetic::mul::lemma_mul_inequality;
use vstd::prelude::*;
use vstd::slice::slice_subrange;

verus! {

/// Raw rows are padded to a multiple of this many pixels.
pub const ROW_ALIGNMENT: u32 = 32;

/// One image of one window, tightly packed.
#[derive(Clone, Debug, PartialEq, Eq)]
pub struct CapturedFrame {
    pub hwnd: WindowHandle,
    pub width: u32,
    pub height: u32,
    pub bytes: Vec<u8>,
}

/// What a [`CapturedFrame`] holds, as mathematical values.
pub struct FrameView {
    pub hwnd: WindowHandle,
    pub width: nat,
    pub height: nat,
    pub bytes: Seq<u8>,
}

impl FrameView {
    /// The pixel data has exactly the size that the dimensions call for.
    pub open spec fn wf(self) -> bool {
        self.bytes.len() == self.width * self.height * 4
    }
}

impl View for CapturedFrame {
    type V = FrameView;

    open spec fn view(&self) -> FrameView {
        FrameView {
            hwnd: self.hwnd,
            width: self.width as nat,
            height: self.height as nat,
            bytes: self.bytes@,
        }
    }
}

/// The width of a row of `width` pixels after padding to [`ROW_ALIGNMENT`].
pub open spec fn padded_width(width: nat) -> nat {
    ((width + (ROW_ALIGNMENT - 1)) / (ROW_ALIGNMENT as int) * ROW_ALIGNMENT) as nat
}

/// A raw buffer of `len` bytes holds `height` rows at `stride` pixels apart,
/// each with `width` pixels to read.
pub open spec fn covers(len: nat, width: nat, height: nat, stride: nat) -> bool {
    height > 0 ==> ((height - 1) * stride + width) * 4 <= len
}

/// The real pixels of row `row` of a raw buffer.
pub open spec fn raw_row(src: Seq<u8>, width: nat, stride: nat, row: int) -> Seq<u8> {
    src.subrange(row * stride * 4, row * stride * 4 + width * 4)
}

/// The first `rows` rows of a raw buffer without their padding, one after the other.
pub open spec fn packed_rows(src: Seq<u8>, width: nat, stride: nat, rows: nat) -> Seq<u8>
    decreases rows,
{
    if rows == 0 {
        Seq::empty()
    } else {
        packed_rows(src, width, stride, (rows - 1) as nat) + raw_row(src, width, stride, rows - 1)
    }
}

/// Every row that `covers` promises lies inside the buffer.
pub proof fn lemma_row_in_bounds(len: nat, width: nat, height: nat, stride: nat, row: int)
    requires
        covers(len, width, height, stride),
        0 <= row < height,
    ensures
        0 <= row * stride * 4,
        row * stride * 4 + width * 4 <= len,
{
    lemma_mul_inequality(row, height - 1, stride as int);
    assert(0 <= row * stride) by (nonlinear_arith)
        requires
            0 <= row,
            0 <= stride,
    ;
}

/// Packing `rows` rows of `width` pixels yields `rows * width * 4` bytes.
pub proof fn lemma_packed_len(src: Seq<u8>, width: nat, stride: nat, rows: nat)
    requires
        covers(src.len(), width, rows, stride),
    ensures
        packed_rows(src, width, stride, rows).len() == rows * width * 4,
    decreases rows,
{
    if rows > 0 {
        let prev = (rows - 1) as nat;
        lemma_covers_fewer_rows(src.len(), width, rows, stride, prev);
        lemma_packed_len(src, width, stride, prev);
        lemma_row_in_bounds(src.len(), width, rows, stride, rows - 1);
        let last = raw_row(src, width, stride, rows - 1);
        assert(last.len() == width * 4);
        assert(packed_rows(src, width, stride, rows) == packed_rows(src, width, stride, prev)
            + last);
        assert(rows * width * 4 == prev * width * 4 + width * 4) by (nonlinear_arith)
            requires
                rows == prev + 1,
        ;
    } else {
        assert(rows * width * 4 == 0) by (nonlinear_arith)
            requires
                rows == 0,
        ;
    }
}

/// A buffer that covers `height` rows covers any smaller number of them.
pub proof fn lemma_covers_fewer_rows(len: nat, width: nat, height: nat, stride: nat, fewer: nat)
    requires
        covers(len, width, height, stride),
        fewer <= height,
    ensures
        covers(len, width, fewer, stride),
{
    if fewer > 0 {
        lemma_mul_inequality(fewer - 1, height - 1, stride as int);
    }
}

/// Byte `offset` of pixel row `row` in the packed image is the byte at the
/// same offset of that row in the raw buffer: real pixels are kept as they
/// are, and nothing else is read.
pub proof fn lemma_packed_byte(
    src: Seq<u8>,
    width: nat,
    stride: nat,
    rows: nat,
    row: int,
    offset: int,
)
    requires
        covers(src.len(), width, rows, stride),
        0 <= row < rows,
        0 <= offset < width * 4,
    ensures
        0 <= row * width * 4 + offset < packed_rows(src, width, stride, rows).len(),
        0 <= row * stride * 4 + offset < src.len(),
        packed_rows(src, width, stride, rows)[row * width * 4 + offset] == src[row * stride * 4
            + offset],
    decreases rows,
{
    let prev = (rows - 1) as nat;
    lemma_covers_fewer_rows(src.len(), width, rows, stride, prev);
    lemma_packed_len(src, width, stride, prev);
    lemma_packed_len(src, width, stride, rows);
    lemma_row_in_bounds(src.len(), width, rows, stride, row);
    assert(0 <= row * width * 4) by (nonlinear_arith)
        requires
            0 <= row,
            0 <= width,
    ;
    assert(row * width * 4 + width * 4 <= rows * width * 4) by (nonlinear_arith)
        requires
            row < rows,
            0 <= width,
    ;
    if row < prev {
        lemma_packed_byte(src, width, stride, prev, row, offset);
    } else {
        lemma_row_in_bounds(src.len(), width, rows, stride, rows - 1);
    }
}

/// Packing an image whose rows are not padded returns the image itself.
pub proof fn lemma_packed_of_packed(src: Seq<u8>, width: nat, rows: nat)
    requires
        src.len() == rows * width * 4,
    ensures
        covers(src.len(), width, rows, width),
        packed_rows(src, width, width, rows) == src,
{
    assert(covers(src.len(), width, rows, width)) by (nonlinear_arith)
        requires
            src.len() == rows * width * 4,
    ;
    lemma_packed_prefix(src, width, rows, rows);
    assert(src.subrange(0, src.len() as int) =~= src);
}

/// Packing the first `rows` unpadded rows returns the first `rows * width * 4` bytes.
proof fn lemma_packed_prefix(src: Seq<u8>, width: nat, height: nat, rows: nat)
    requires
        src.len() == height * width * 4,
        rows <= height,
    ensures
        0 <= rows * width * 4 <= src.len(),
        packed_rows(src, width, width, rows) == src.subrange(0, (rows * width * 4) as int),
    decreases rows,
{
    assert(0 <= rows * width * 4 <= height * width * 4) by (nonlinear_arith)
        requires
            0 <= rows <= height,
            0 <= width,
    ;
    if rows == 0 {
        assert(rows * width * 4 == 0) by (nonlinear_arith)
            requires
                rows == 0,
        ;
        assert(packed_rows(src, width, width, rows) =~= src.subrange(0, 0));
    } else {
        let prev = (rows - 1) as nat;
        lemma_packed_prefix(src, width, height, prev);
        assert(rows * width * 4 == prev * width * 4 + width * 4) by (nonlinear_arith)
            requires
                rows == prev + 1,
        ;
        assert(packed_rows(src, width, width, rows) =~= src.subrange(0, (rows * width * 4) as int));
    }
}

/// The row stride, in pixels, of a raw buffer whose image is `width` pixels wide.
pub fn aligned_stride(width: u32) -> (stride: u64)
    ensures
        stride == padded_width(width as nat),
        width <= stride < width + 32,
        stride % 32 == 0,
{
    let wide: u64 = width as u64;
    let alignment: u64 = ROW_ALIGNMENT as u64;
    (wide + (alignment - 1)) / alignment * alignment
}

/// Whether a raw buffer of `len` bytes is large enough for the image described.
pub fn buffer_covers(len: usize, width: u32, height: u32, stride: u64) -> (ok: bool)
    ensures
        ok == covers(len as nat, width as nat, height as nat, stride as nat),
{
    if height == 0 {
        return true;
    }
    let last_row: u128 = (height - 1) as u128;
    assert(last_row * stride <= 0x1_0000_0000 * 0x1_0000_0000_0000_0000) by (nonlinear_arith)
        requires
            last_row <= 0x1_0000_0000,
            stride <= 0x1_0000_0000_0000_0000,
    ;
    let pixels: u128 = last_row * (stride as u128) + width as u128;
    pixels * 4 <= len as u128
}

/// Copies the real pixels of a raw buffer into a tightly packed one.
///
/// Row `r` of the image starts `r * stride` pixels into `src`; its first
/// `width` pixels are kept and the rest of the row is skipped.
pub fn normalize(src: &[u8], width: u32, height: u32, stride: u64) -> (out: Vec<u8>)
    requires
        covers(src@.len(), width as nat, height as nat, stride as nat),
    ensures
        out@ == packed_rows(src@, width as nat, stride as nat, height as nat),
        out@.len() == width * height * 4,
        forall|row: int, offset: int|
            0 <= row < height && 0 <= offset < width * 4 ==> #[trigger] out@[row * width * 4
                + offset] == src@[row * stride * 4 + offset],
        stride == width && src@.len() == height * width * 4 ==> out@ == src@,
{
    let len = src.len();
    let mut out: Vec<u8> = Vec::new();
    let mut row: u32 = 0;
    while row < height
        invariant
            row <= height,
            len == src@.len(),
            covers(src@.len(), width as nat, height as nat, stride as nat),
            out@ == packed_rows(src@, width as nat, stride as nat, row as nat),
        decreases height - row,
    {
        proof {
            lemma_row_in_bounds(
                src@.len(),
                width as nat,
                height as nat,
                stride as nat,
                row as int,
            );
            assert(0 <= row * stride <= row * stride * 4) by (nonlinear_arith)
                requires
                    0 <= row,
                    0 <= stride,
            ;
            assert(row * stride * 4 == (row * stride) * 4);
        }
        let start: usize = (row as u64 * stride * 4) as usize;
        let end: usize = start + width as usize * 4;
        let pixels = slice_subrange(src, start, end);
        let ghost before = out@;
        out.extend_from_slice(pixels);
        assert(out@ =~= before + raw_row(src@, width as nat, stride as nat, row as int));
        row = row + 1;
    }
    proof {
        lemma_packed_len(src@, width as nat, stride as nat, height as nat);
        assert(height * width * 4 == width * height * 4) by (nonlinear_arith);
        if stride == width && src@.len() == height * width * 4 {
            lemma_packed_of_packed(src@, width as nat, height as nat);
        }
        assert forall|r: int, offset: int| 0 <= r < height && 0 <= offset < width * 4 implies
            #[trigger] out@[r * width * 4 + offset] == src@[r * stride * 4 + offset] by {
            lemma_packed_byte(src@, width as nat, stride as nat, height as nat, r, offset);
        }
    }
    out
}

/// [`normalize`] for a buffer that may be too short: `None` exactly when it is.
pub fn try_normalize(src: &[u8], width: u32, height: u32, stride: u64) -> (out: Option<Vec<u8>>)
    ensures
        out is Some <==> covers(src@.len(), width as nat, height as nat, stride as nat),
        out matches Some(bytes) ==> bytes@ == packed_rows(
            src@,
            width as nat,
            stride as nat,
            height as nat,
        ),
{
    if buffer_covers(src.len(), width, height, stride) {
        Some(normalize(src, width, height, stride))
    } else {
        None
    }
}

} // verus!
