//! Device-independent bitmaps: the clipboard's bitmap format on Windows.
//!
//! Bitmaps are written with a V5 header, 32 bits for a pixel in the order blue,
//! green, red, alpha, rows from the top. They are read with 24 or 32 bits for a
//! pixel, rows from either end.

use crate::number::{le_bytes, le_value2, le_value4, lemma_le_bytes2, lemma_le_bytes4};
use vstd::prelude::*;

verus! {

/// Pixels without compression.
pub const BI_RGB: u32 = 0;

/// Pixels without compression, whose colour masks are given.
pub const BI_BITFIELDS: u32 = 3;

/// Why bytes are no bitmap that can be read.
#[derive(Clone, Copy, Debug, PartialEq, Eq, Structural)]
pub enum DibError {
    /// Shorter than the smallest header.
    TooSmall,
    /// The header's size is smaller than the smallest header or larger than the data.
    HeaderSize(u32),
    /// No width or no height.
    Dimensions,
    /// Not one plane.
    Planes(u16),
    /// The colour masks reach past the end.
    Masks,
    /// A compression that is not supported.
    Compression(u32),
    /// The pixels reach past the end.
    Pixels,
    /// A number of bits for a pixel that is not supported.
    BitCount(u16),
}

/// What a bitmap's header says.
pub struct Layout {
    pub width: nat,
    pub height: nat,
    pub top_down: bool,
    pub bits: nat,
    /// Where the pixels start.
    pub start: nat,
    /// The bytes from one row to the next.
    pub stride: nat,
}

/// The size of a 32-bit number that stands for a signed one.
pub open spec fn magnitude(v: nat) -> nat {
    if v >= 0x8000_0000 {
        (0x1_0000_0000 - v) as nat
    } else {
        v
    }
}

/// The bytes of a row: full bytes, then rounded up to a multiple of four.
pub open spec fn row_stride(width: nat, bits: nat) -> nat {
    ((width * bits + 7) / 8 + 3) / 4 * 4
}

/// What the header of `d` says; it has at least 40 bytes.
pub open spec fn layout(d: Seq<u8>) -> Layout {
    let size = le_value4(d, 0);
    let width = magnitude(le_value4(d, 4));
    let bits = le_value2(d, 14);
    Layout {
        width,
        height: magnitude(le_value4(d, 8)),
        top_down: le_value4(d, 8) >= 0x8000_0000,
        bits,
        start: if size == 40 && le_value4(d, 16) == BI_BITFIELDS {
            52
        } else {
            size
        },
        stride: row_stride(width, bits),
    }
}

/// Why `d` cannot be read; nothing where it can.
pub open spec fn dib_error(d: Seq<u8>) -> Option<DibError> {
    let l = layout(d);
    if d.len() < 40 {
        Some(DibError::TooSmall)
    } else if le_value4(d, 0) < 40 || le_value4(d, 0) > d.len() {
        Some(DibError::HeaderSize(le_value4(d, 0) as u32))
    } else if l.width == 0 || l.height == 0 {
        Some(DibError::Dimensions)
    } else if le_value2(d, 12) != 1 {
        Some(DibError::Planes(le_value2(d, 12) as u16))
    } else if l.start > d.len() {
        Some(DibError::Masks)
    } else if le_value4(d, 16) != BI_RGB && le_value4(d, 16) != BI_BITFIELDS {
        Some(DibError::Compression(le_value4(d, 16) as u32))
    } else if l.start + l.stride * l.height > d.len() {
        Some(DibError::Pixels)
    } else if l.bits != 24 && l.bits != 32 {
        Some(DibError::BitCount(l.bits as u16))
    } else {
        None
    }
}

/// The row of the data that holds row `y` of the picture.
pub open spec fn source_row(l: Layout, y: int) -> int {
    if l.top_down {
        y
    } else {
        l.height - 1 - y
    }
}

/// Where the pixel in column `x` of row `y` stands.
pub open spec fn pixel_at(l: Layout, y: int, x: int) -> int {
    l.start + source_row(l, y) * l.stride + x * (l.bits / 8)
}

/// One channel of a pixel: red, green, blue, alpha. Without alpha a pixel is opaque.
pub open spec fn channel(d: Seq<u8>, l: Layout, y: int, x: int, c: int) -> u8 {
    let at = pixel_at(l, y, x);
    if c == 0 {
        d[at + 2]
    } else if c == 1 {
        d[at + 1]
    } else if c == 2 {
        d[at]
    } else if l.bits == 32 {
        d[at + 3]
    } else {
        255
    }
}

/// The picture: four bytes for a pixel, row after row from the top.
pub open spec fn pixels(d: Seq<u8>, l: Layout) -> Seq<u8> {
    Seq::new(
        l.width * l.height * 4,
        |i: int| channel(d, l, i / 4 / (l.width as int), i / 4 % (l.width as int), i % 4),
    )
}

fn read_u16(b: &[u8], at: usize) -> (res: u16)
    requires
        at + 2 <= b@.len(),
    ensures
        res == le_value2(b@, at as int),
{
    b[at] as u16 + 0x100 * b[at + 1] as u16
}

fn read_u32(b: &[u8], at: usize) -> (res: u32)
    requires
        at + 4 <= b@.len(),
    ensures
        res == le_value4(b@, at as int),
{
    b[at] as u32 + 0x100 * b[at + 1] as u32 + 0x1_0000 * b[at + 2] as u32 + 0x100_0000 * b[at
        + 3] as u32
}

fn magnitude_of(v: u32) -> (res: u32)
    ensures
        res == magnitude(v as nat),
{
    if v >= 0x8000_0000 {
        (0xFFFF_FFFF - v) + 1
    } else {
        v
    }
}

/// The bytes of a row.
fn row_stride_padded(width: u32, bits: u16) -> (res: u64)
    ensures
        res == row_stride(width as nat, bits as nat),
        res <= 0x8_0000_0000_0000,
{
    assert(width * bits <= 0xFFFF_FFFF * 0xFFFF) by (nonlinear_arith)
        requires
            0 <= width <= 0xFFFF_FFFF,
            0 <= bits <= 0xFFFF,
    ;
    let per_row: u64 = width as u64 * bits as u64;
    ((per_row + 7) / 8 + 3) / 4 * 4
}

/// Position `(y * w + x) * 4 + c` belongs to channel `c` of column `x` of row `y`.
proof fn lemma_position(w: int, y: int, x: int, c: int)
    requires
        0 <= x < w,
        0 <= y,
        0 <= c < 4,
    ensures
        ((y * w + x) * 4 + c) / 4 == y * w + x,
        ((y * w + x) * 4 + c) % 4 == c,
        (y * w + x) / w == y,
        (y * w + x) % w == x,
{
    assert(0 <= y * w) by (nonlinear_arith)
        requires
            0 <= y,
            0 < w,
    ;
    vstd::arithmetic::div_mod::lemma_fundamental_div_mod_converse(y * w + x, w, y, x);
}

/// A pixel's bytes lie within the data, and the product that finds its row is
/// small.
proof fn lemma_in_range(d: Seq<u8>, y: int, x: int)
    requires
        dib_error(d) is None,
        0 <= y < layout(d).height,
        0 <= x < layout(d).width,
    ensures
        ({
            let l = layout(d);
            let r = source_row(l, y);
            &&& 0 <= r < l.height
            &&& 0 <= r * l.stride <= d.len()
            &&& 0 <= l.start + r * l.stride <= pixel_at(l, y, x)
            &&& pixel_at(l, y, x) + l.bits / 8 <= d.len()
        }),
{
    let l = layout(d);
    let r = source_row(l, y);
    let n = l.bits / 8;
    assert(l.width * l.bits == 8 * (l.width * n)) by (nonlinear_arith)
        requires
            l.bits == 8 * n,
    ;
    assert(l.width * n <= l.stride);
    assert(r * l.stride + l.stride <= l.stride * l.height) by (nonlinear_arith)
        requires
            0 <= r < l.height,
            0 <= l.stride,
    ;
    assert(0 <= r * l.stride) by (nonlinear_arith)
        requires
            0 <= r,
            0 <= l.stride,
    ;
    assert(x * n + n <= l.width * n) by (nonlinear_arith)
        requires
            0 <= x < l.width,
            0 <= n,
    ;
    assert(0 <= x * n) by (nonlinear_arith)
        requires
            0 <= x,
            0 <= n,
    ;
}

/// Reads a bitmap: its width, its height, and four bytes (red, green, blue, alpha)
/// for each pixel, row after row from the top.
pub fn dib_to_rgba(dib: &[u8]) -> (res: Result<(u32, u32, Vec<u8>), DibError>)
    ensures
        match res {
            Ok(t) => dib_error(dib@) is None && t.0 == layout(dib@).width && t.1 == layout(
                dib@,
            ).height && t.2@ == pixels(dib@, layout(dib@)),
            Err(e) => dib_error(dib@) == Some(e),
        },
{
    let len: usize = dib.len();
    if len < 40 {
        return Err(DibError::TooSmall);
    }
    let ghost l = layout(dib@);
    let header_size = read_u32(dib, 0);
    if header_size < 40 || header_size as usize > len {
        return Err(DibError::HeaderSize(header_size));
    }
    let height_raw = read_u32(dib, 8);
    let width = magnitude_of(read_u32(dib, 4));
    let height = magnitude_of(height_raw);
    if width == 0 || height == 0 {
        return Err(DibError::Dimensions);
    }
    let planes = read_u16(dib, 12);
    if planes != 1 {
        return Err(DibError::Planes(planes));
    }
    let bits = read_u16(dib, 14);
    let compression = read_u32(dib, 16);
    let start: usize = if header_size == 40 && compression == BI_BITFIELDS {
        52
    } else {
        header_size as usize
    };
    if start > len {
        return Err(DibError::Masks);
    }
    if compression != BI_RGB && compression != BI_BITFIELDS {
        return Err(DibError::Compression(compression));
    }
    let stride = row_stride_padded(width, bits);
    assert(stride * height <= 0x8_0000_0000_0000 * 0xFFFF_FFFF) by (nonlinear_arith)
        requires
            0 <= stride <= 0x8_0000_0000_0000,
            0 <= height <= 0xFFFF_FFFF,
    ;
    let needed: u128 = start as u128 + stride as u128 * height as u128;
    if needed > len as u128 {
        return Err(DibError::Pixels);
    }
    if bits != 24 && bits != 32 {
        return Err(DibError::BitCount(bits));
    }
    assert(dib_error(dib@) is None);
    assert(stride <= stride * height) by (nonlinear_arith)
        requires
            height >= 1,
            stride >= 0,
    ;
    let stride: usize = stride as usize;
    let top_down = height_raw >= 0x8000_0000;
    let step: usize = if bits == 32 {
        4
    } else {
        3
    };
    let ghost want = pixels(dib@, l);
    let ghost w = width as int;
    let mut out: Vec<u8> = Vec::new();
    let mut y: usize = 0;
    assert(want.take(0) =~= Seq::<u8>::empty());
    assert(w * height * 4 == want.len());
    while y < height as usize
        invariant
            dib@.len() == len,
            dib_error(dib@) is None,
            l == layout(dib@),
            want == pixels(dib@, l),
            w == width,
            width == l.width,
            height == l.height,
            start == l.start,
            stride == l.stride,
            bits == l.bits,
            bits == 24 || bits == 32,
            step == l.bits / 8,
            top_down == l.top_down,
            want.len() == w * height * 4,
            y <= height,
            out@.len() == (y * w) * 4,
            out@.len() <= want.len(),
            out@ == want.take((y * w) * 4),
        decreases height - y,
    {
        let row: usize = if top_down {
            y
        } else {
            height as usize - 1 - y
        };
        proof {
            lemma_in_range(dib@, y as int, 0);
        }
        let row_at: usize = start + row * stride;
        let mut x: usize = 0;
        let mut at: usize = row_at;
        assert(y * w + w <= w * height) by (nonlinear_arith)
            requires
                0 <= y < height,
                0 <= w,
        ;
        while x < width as usize
            invariant
                dib@.len() == len,
                dib_error(dib@) is None,
                l == layout(dib@),
                want == pixels(dib@, l),
                w == width,
                width == l.width,
                height == l.height,
                bits == l.bits,
                bits == 24 || bits == 32,
                step == l.bits / 8,
                want.len() == w * height * 4,
                y < height,
                x <= width,
                y * w + w <= w * height,
                row_at == l.start + source_row(l, y as int) * l.stride,
                at == row_at + x * step,
                at <= dib@.len(),
                out@.len() == (y * w + x) * 4,
                out@ == want.take((y * w + x) * 4),
            decreases width - x,
        {
            proof {
                lemma_in_range(dib@, y as int, x as int);
                lemma_position(w, y as int, x as int, 0);
                lemma_position(w, y as int, x as int, 1);
                lemma_position(w, y as int, x as int, 2);
                lemma_position(w, y as int, x as int, 3);
                assert((x + 1) * step == x * step + step) by (nonlinear_arith);
            }
            let ghost k = (y * w + x) * 4;
            assert(at == pixel_at(l, y as int, x as int));
            out.push(dib[at + 2]);
            out.push(dib[at + 1]);
            out.push(dib[at]);
            if bits == 32 {
                out.push(dib[at + 3]);
            } else {
                out.push(255);
            }
            assert(want[k] == channel(dib@, l, y as int, x as int, 0));
            assert(want[k + 1] == channel(dib@, l, y as int, x as int, 1));
            assert(want[k + 2] == channel(dib@, l, y as int, x as int, 2));
            assert(want[k + 3] == channel(dib@, l, y as int, x as int, 3));
            assert(out@ =~= want.take(k + 4));
            x += 1;
            at += step;
        }
        assert(y * w + w == (y + 1) * w) by (nonlinear_arith);
        y += 1;
    }
    assert(want.take(want.len() as int) =~= want) by {
        assert(height * w == w * height) by (nonlinear_arith);
    }
    Ok((width, height, out))
}

/// Why pixels cannot be written as a bitmap: there are not four bytes for each.
#[derive(Clone, Copy, Debug, PartialEq, Eq, Structural)]
pub enum RgbaError {
    Length,
}

/// `n` zero bytes.
pub open spec fn zeros(n: nat) -> Seq<u8> {
    Seq::new(n, |i: int| 0u8)
}

/// The header of a bitmap with its rows from the top: a negative height.
pub open spec fn v5_header(width: nat, height: nat) -> Seq<u8> {
    le_bytes(124, 4) + le_bytes(width, 4) + le_bytes(
        ((0x1_0000_0000 - height) % 0x1_0000_0000) as nat,
        4,
    ) + le_bytes(1, 2) + le_bytes(32, 2) + le_bytes(BI_BITFIELDS as nat, 4) + le_bytes(
        (width * height * 4) % 0x1_0000_0000,
        4,
    ) + zeros(16) + le_bytes(0x00FF_0000, 4) + le_bytes(0x0000_FF00, 4) + le_bytes(
        0x0000_00FF,
        4,
    ) + le_bytes(0xFF00_0000, 4) + zeros(68)
}

/// Pixels with red and blue exchanged.
pub open spec fn swapped(p: Seq<u8>) -> Seq<u8> {
    Seq::new(
        p.len(),
        |i: int|
            if i % 4 == 0 {
                p[i + 2]
            } else if i % 4 == 2 {
                p[i - 2]
            } else {
                p[i]
            },
    )
}

/// A bitmap of the given pixels.
pub open spec fn v5_bytes(width: nat, height: nat, rgba: Seq<u8>) -> Seq<u8> {
    v5_header(width, height) + swapped(rgba)
}

fn push_zeros(out: &mut Vec<u8>, n: usize)
    ensures
        final(out)@ == old(out)@ + zeros(n as nat),
{
    let ghost before = out@;
    let mut i: usize = 0;
    while i < n
        invariant
            i <= n,
            out@ == before + zeros(i as nat),
        decreases n - i,
    {
        out.push(0u8);
        assert(out@ =~= before + zeros((i + 1) as nat));
        i += 1;
    }
}

fn header(width: u32, height: u32, size: u32) -> (res: Vec<u8>)
    requires
        size == (width * height * 4) % 0x1_0000_0000,
    ensures
        res@ == v5_header(width as nat, height as nat),
{
    let mut out: Vec<u8> = Vec::new();
    let negated: u32 = if height == 0 {
        0
    } else {
        (0xFFFF_FFFF - height) + 1
    };
    crate::number::push_u32(&mut out, 124);
    crate::number::push_u32(&mut out, width);
    crate::number::push_u32(&mut out, negated);
    crate::number::push_u16(&mut out, 1);
    crate::number::push_u16(&mut out, 32);
    crate::number::push_u32(&mut out, BI_BITFIELDS);
    crate::number::push_u32(&mut out, size);
    push_zeros(&mut out, 16);
    crate::number::push_u32(&mut out, 0x00FF_0000);
    crate::number::push_u32(&mut out, 0x0000_FF00);
    crate::number::push_u32(&mut out, 0x0000_00FF);
    crate::number::push_u32(&mut out, 0xFF00_0000);
    push_zeros(&mut out, 68);
    assert(out@ =~= v5_header(width as nat, height as nat));
    out
}

/// Writes pixels, four bytes (red, green, blue, alpha) each, as a bitmap.
pub fn rgba_to_dibv5(width: u32, height: u32, rgba: &[u8]) -> (res: Result<Vec<u8>, RgbaError>)
    ensures
        match res {
            Ok(d) => rgba@.len() == width * height * 4 && d@ == v5_bytes(
                width as nat,
                height as nat,
                rgba@,
            ),
            Err(RgbaError::Length) => rgba@.len() != width * height * 4,
        },
{
    assert(width * height * 4 <= 0xFFFF_FFFF * 0xFFFF_FFFF * 4) by (nonlinear_arith)
        requires
            0 <= width <= 0xFFFF_FFFF,
            0 <= height <= 0xFFFF_FFFF,
    ;
    assert(width * height <= width * height * 4) by (nonlinear_arith)
        requires
            0 <= width,
            0 <= height,
    ;
    let expected: u128 = width as u128 * height as u128 * 4;
    if rgba.len() as u128 != expected {
        return Err(RgbaError::Length);
    }
    let mut out = header(width, height, (expected % 0x1_0000_0000u128) as u32);
    let ghost head = out@;
    let ghost want = swapped(rgba@);
    assert(rgba@.len() % 4 == 0);
    let mut i: usize = 0;
    while i < rgba.len()
        invariant
            want == swapped(rgba@),
            rgba@.len() % 4 == 0,
            i % 4 == 0,
            i <= rgba@.len(),
            out@ == head + want.take(i as int),
        decreases rgba@.len() - i,
    {
        out.push(rgba[i + 2]);
        out.push(rgba[i + 1]);
        out.push(rgba[i]);
        out.push(rgba[i + 3]);
        assert(want[i as int] == rgba@[i + 2]);
        assert(want[i + 1] == rgba@[i + 1]);
        assert(want[i + 2] == rgba@[i as int]);
        assert(want[i + 3] == rgba@[i + 3]);
        assert(out@ =~= head + want.take(i + 4));
        i += 4;
    }
    assert(want.take(i as int) =~= want);
    Ok(out)
}

#[verifier::rlimit(60)]
proof fn lemma_header_fields(width: nat, height: nat, rgba: Seq<u8>)
    requires
        width < 0x1_0000_0000,
        height < 0x1_0000_0000,
    ensures
        ({
            let d = v5_bytes(width, height, rgba);
            &&& v5_header(width, height).len() == 124
            &&& le_value4(d, 0) == 124
            &&& le_value4(d, 4) == width
            &&& le_value4(d, 8) == (0x1_0000_0000 - height) % 0x1_0000_0000
            &&& le_value2(d, 12) == 1
            &&& le_value2(d, 14) == 32
            &&& le_value4(d, 16) == 3
            &&& d.len() == 124 + rgba.len()
            &&& d.skip(124) == swapped(rgba)
        }),
{
    let n = ((0x1_0000_0000 - height) % 0x1_0000_0000) as nat;
    lemma_le_bytes4(124);
    lemma_le_bytes4(width);
    lemma_le_bytes4(n);
    lemma_le_bytes2(1);
    lemma_le_bytes2(32);
    lemma_le_bytes4(3);
    lemma_le_bytes4((width * height * 4) % 0x1_0000_0000);
    lemma_le_bytes4(0x00FF_0000);
    lemma_le_bytes4(0x0000_FF00);
    lemma_le_bytes4(0x0000_00FF);
    lemma_le_bytes4(0xFF00_0000);
    lemma_join4(width);
    lemma_join4(n);
    let d = v5_bytes(width, height, rgba);
    assert(d.subrange(0, 4) =~= le_bytes(124, 4));
    assert(d.subrange(4, 8) =~= le_bytes(width, 4));
    assert(d.subrange(8, 12) =~= le_bytes(n, 4));
    assert(d.subrange(12, 14) =~= le_bytes(1, 2));
    assert(d.subrange(14, 16) =~= le_bytes(32, 2));
    assert(d.subrange(16, 20) =~= le_bytes(3, 4));
    assert(forall|i: int| 0 <= i < 4 ==> d[i] == #[trigger] d.subrange(0, 4)[i]);
    assert(le_value4(d, 0) == le_value4(d.subrange(0, 4), 0));
    assert(le_value4(d, 4) == le_value4(d.subrange(4, 8), 0));
    assert(le_value4(d, 8) == le_value4(d.subrange(8, 12), 0));
    assert(le_value2(d, 12) == le_value2(d.subrange(12, 14), 0));
    assert(le_value2(d, 14) == le_value2(d.subrange(14, 16), 0));
    assert(le_value4(d, 16) == le_value4(d.subrange(16, 20), 0));
    assert(d.skip(124) =~= swapped(rgba));
}

proof fn lemma_join4(n: nat)
    requires
        n < 0x1_0000_0000,
    ensures
        le_value4(le_bytes(n, 4), 0) == n,
{
    lemma_le_bytes4(n);
    assert(n / 0x100 == 256 * (n / 0x1_0000) + n / 0x100 % 256) by (nonlinear_arith);
    assert(n / 0x1_0000 == 256 * (n / 0x100_0000) + n / 0x1_0000 % 256) by (nonlinear_arith);
}

proof fn lemma_stride(width: nat)
    ensures
        row_stride(width, 32) == 4 * width,
{
    let n = width * 32 + 7;
    assert(n / 8 == 4 * width);
}

proof fn lemma_pixel(d: Seq<u8>, l: Layout, w: int, rgba: Seq<u8>, i: int)
    requires
        w >= 1,
        l.width == w,
        l.stride == 4 * w,
        l.start == 124,
        l.bits == 32,
        l.top_down,
        d.len() == 124 + rgba.len(),
        d.skip(124) == swapped(rgba),
        rgba.len() % 4 == 0,
        0 <= i < rgba.len(),
    ensures
        channel(d, l, i / 4 / w, i / 4 % w, i % 4) == rgba[i],
{
    let p = i / 4;
    let c = i % 4;
    let y = p / w;
    let x = p % w;
    vstd::arithmetic::div_mod::lemma_fundamental_div_mod(p, w);
    assert(p == y * w + x) by (nonlinear_arith)
        requires
            p == w * y + x,
    ;
    let at = pixel_at(l, y, x);
    assert(y * l.stride == 4 * (y * w)) by (nonlinear_arith)
        requires
            l.stride == 4 * w,
    ;
    let n = l.bits / 8;
    assert(x * n == 4 * x) by (nonlinear_arith)
        requires
            n == 4,
    ;
    assert(at == 124 + 4 * p);
    assert(i == 4 * p + c);
    assert(0 <= 4 * p && 4 * p + 4 <= rgba.len());
    assert(d[at] == d.skip(124)[4 * p]);
    assert(d[at + 1] == d.skip(124)[4 * p + 1]);
    assert(d[at + 2] == d.skip(124)[4 * p + 2]);
    assert(d[at + 3] == d.skip(124)[4 * p + 3]);
}

proof fn lemma_reads(d: Seq<u8>, width: nat, height: nat, rgba: Seq<u8>)
    requires
        1 <= width <= 0x8000_0000,
        1 <= height <= 0x8000_0000,
        rgba.len() == width * height * 4,
        le_value4(d, 0) == 124,
        le_value4(d, 4) == width,
        le_value4(d, 8) == (0x1_0000_0000 - height) % 0x1_0000_0000,
        le_value2(d, 12) == 1,
        le_value2(d, 14) == 32,
        le_value4(d, 16) == 3,
        d.len() == 124 + rgba.len(),
        d.skip(124) == swapped(rgba),
    ensures
        dib_error(d) is None,
        layout(d).width == width,
        layout(d).height == height,
        pixels(d, layout(d)) == rgba,
{
    let l = layout(d);
    lemma_stride(width);
    assert(l.stride * height == width * height * 4) by (nonlinear_arith)
        requires
            l.stride == 4 * width,
    ;
    assert forall|i: int| 0 <= i < rgba.len() implies pixels(d, l)[i] == rgba[i] by {
        lemma_pixel(d, l, width as int, rgba, i);
    }
    assert(pixels(d, l) =~= rgba);
}

/// Reading a bitmap back gives the picture that was written: the same width, height
/// and pixels.
pub proof fn law_write_then_read(width: nat, height: nat, rgba: Seq<u8>)
    requires
        1 <= width <= 0x8000_0000,
        1 <= height <= 0x8000_0000,
        rgba.len() == width * height * 4,
    ensures
        ({
            let d = v5_bytes(width, height, rgba);
            &&& dib_error(d) is None
            &&& layout(d).width == width
            &&& layout(d).height == height
            &&& pixels(d, layout(d)) == rgba
        }),
{
    lemma_header_fields(width, height, rgba);
    lemma_reads(v5_bytes(width, height, rgba), width, height, rgba);
}

/// Two bytes of a header as a number, the least significant first.
pub open spec fn short_at(d: Seq<u8>, at: int) -> int {
    d[at] + 256 * d[at + 1]
}

/// Four bytes of a header as a number, the least significant first.
pub open spec fn long_at(d: Seq<u8>, at: int) -> int {
    d[at] + 256 * d[at + 1] + 65536 * d[at + 2] + 16777216 * d[at + 3]
}

/// The signed number that 32 bits stand for.
pub open spec fn signed(v: int) -> int {
    if v < 2147483648 {
        v
    } else {
        v - 4294967296
    }
}

/// A number without its sign.
pub open spec fn unsigned(v: int) -> int {
    if v < 0 {
        -v
    } else {
        v
    }
}

/// Where the pixels of a bitmap start: after its header, and after three masks where a header
/// of the smallest size says that masks follow it.
pub open spec fn data_start(d: Seq<u8>) -> int {
    if long_at(d, 0) == 40 && long_at(d, 16) == 3 {
        52
    } else {
        long_at(d, 0)
    }
}

/// A row of so many bits takes this many bytes: enough of them, in fours, and no four too many.
pub open spec fn is_row_length(stride: int, bits: int) -> bool {
    stride % 4 == 0 && bits <= 8 * stride && 8 * stride < bits + 32
}

proof fn lemma_row_length(width: nat, bits: nat, stride: int)
    requires
        is_row_length(stride, (width * bits) as int),
    ensures
        stride == row_stride(width, bits),
{
    let n = (width * bits) as int;
    let s = row_stride(width, bits) as int;
    assert(n >= 0);
    assert(s == ((n + 7) / 8 + 3) / 4 * 4);
}

/// What a bitmap that can be read shows: as wide and as high as its header says, a negative
/// height being that of rows from the top and a positive one that of rows from below; each
/// pixel red, green, blue and alpha, stored as blue, green, red, and alpha where there are 32
/// bits for a pixel. With 24 bits a pixel is opaque.
pub proof fn law_what_a_bitmap_shows(d: Seq<u8>, stride: int, y: int, x: int)
    requires
        dib_error(d) is None,
        is_row_length(stride, unsigned(signed(long_at(d, 4))) * short_at(d, 14)),
        0 <= y < unsigned(signed(long_at(d, 8))),
        0 <= x < unsigned(signed(long_at(d, 4))),
    ensures
        ({
            let w = unsigned(signed(long_at(d, 4)));
            let h = unsigned(signed(long_at(d, 8)));
            let bytes = short_at(d, 14) / 8;
            let row = if signed(long_at(d, 8)) < 0 {
                y
            } else {
                h - 1 - y
            };
            let at = data_start(d) + row * stride + x * bytes;
            let p = pixels(d, layout(d));
            let k = 4 * (y * w + x);
            &&& layout(d).width == w
            &&& layout(d).height == h
            &&& p.len() == 4 * w * h
            &&& 0 <= k && k + 4 <= p.len()
            &&& 0 <= at && at + bytes <= d.len()
            &&& p[k] == d[at + 2]
            &&& p[k + 1] == d[at + 1]
            &&& p[k + 2] == d[at]
            &&& short_at(d, 14) == 32 ==> p[k + 3] == d[at + 3]
            &&& short_at(d, 14) == 24 ==> p[k + 3] == 255
            &&& short_at(d, 14) == 24 || short_at(d, 14) == 32
        }),
{
    let l = layout(d);
    let w = l.width as int;
    let h = l.height as int;
    lemma_row_length(l.width, l.bits, stride);
    lemma_in_range(d, y, x);
    lemma_position(w, y, x, 0);
    lemma_position(w, y, x, 1);
    lemma_position(w, y, x, 2);
    lemma_position(w, y, x, 3);
    let k = 4 * (y * w + x);
    assert(0 <= y * w && y * w + x + 1 <= w * h) by (nonlinear_arith)
        requires
            0 <= y < h,
            0 <= x < w,
    ;
    assert(w * h * 4 == 4 * w * h) by (nonlinear_arith);
    let p = pixels(d, l);
    assert(p[k] == channel(d, l, y, x, 0));
    assert(p[k + 1] == channel(d, l, y, x, 1));
    assert(p[k + 2] == channel(d, l, y, x, 2));
    assert(p[k + 3] == channel(d, l, y, x, 3));
}

/// Two bitmaps with the same rows, one stored from the top and the other from below, show the
/// same picture.
pub proof fn law_rows_from_either_end(a: Seq<u8>, b: Seq<u8>, stride: int)
    requires
        dib_error(a) is None,
        dib_error(b) is None,
        long_at(a, 4) == long_at(b, 4),
        short_at(a, 14) == short_at(b, 14),
        signed(long_at(a, 8)) < 0,
        signed(long_at(b, 8)) == -signed(long_at(a, 8)),
        is_row_length(stride, unsigned(signed(long_at(a, 4))) * short_at(a, 14)),
        forall|y: int, i: int|
            0 <= y < signed(long_at(b, 8)) && 0 <= i < stride ==> #[trigger] a[data_start(a) + y
                * stride + i] == b[data_start(b) + (signed(long_at(b, 8)) - 1 - y) * stride + i],
    ensures
        pixels(a, layout(a)) == pixels(b, layout(b)),
{
    let w = unsigned(signed(long_at(a, 4)));
    let h = signed(long_at(b, 8));
    let bits = short_at(a, 14);
    let n = bits / 8;
    let p = pixels(a, layout(a));
    let q = pixels(b, layout(b));
    assert(p.len() == q.len());
    assert forall|k: int| 0 <= k < p.len() implies p[k] == q[k] by {
        let m = k / 4;
        let y = m / w;
        let x = m % w;
        assert(w > 0);
        assert(m < w * h) by (nonlinear_arith)
            requires
                k < w * h * 4,
                m == k / 4,
        ;
        vstd::arithmetic::div_mod::lemma_fundamental_div_mod(m, w);
        vstd::arithmetic::div_mod::lemma_mod_bound(m, w);
        assert(0 <= y < h) by (nonlinear_arith)
            requires
                0 <= m < w * h,
                m == w * y + x,
                0 <= x < w,
        ;
        assert(m == y * w + x) by (nonlinear_arith)
            requires
                m == w * y + x,
        ;
        law_what_a_bitmap_shows(a, stride, y, x);
        law_what_a_bitmap_shows(b, stride, y, x);
        assert(w * bits == 8 * (w * n)) by (nonlinear_arith)
            requires
                bits == 8 * n,
        ;
        assert(0 <= x * n && x * n + n <= w * n) by (nonlinear_arith)
            requires
                0 <= x < w,
                0 <= n,
        ;
        let i = x * n;
        assert(i + n <= stride);
        let fa = data_start(a) + y * stride;
        let fb = data_start(b) + (h - 1 - y) * stride;
        assert(a[fa + i] == b[fb + i]);
        assert(a[data_start(a) + y * stride + (i + 1)] == b[data_start(b) + (h - 1 - y) * stride + (
        i + 1)]);
        assert(a[data_start(a) + y * stride + (i + 2)] == b[data_start(b) + (h - 1 - y) * stride + (
        i + 2)]);
        if bits == 32 {
            assert(a[data_start(a) + y * stride + (i + 3)] == b[data_start(b) + (h - 1 - y) * stride
                + (i + 3)]);
        }
        assert(k == 4 * m + k % 4);
    }
    assert(p =~= q);
}

/// A bitmap can be read exactly where its header is whole, has a width, a height, one plane, 24
/// or 32 bits for a pixel and no compression, and all its rows are there.
pub proof fn law_which_bitmaps_can_be_read(d: Seq<u8>, stride: int)
    requires
        d.len() >= 40 ==> is_row_length(
            stride,
            unsigned(signed(long_at(d, 4))) * short_at(d, 14),
        ),
    ensures
        dib_error(d) is None <==> d.len() >= 40 && 40 <= long_at(d, 0) <= d.len() && long_at(d, 4)
            != 0 && long_at(d, 8) != 0 && short_at(d, 12) == 1 && (short_at(d, 14) == 24
            || short_at(d, 14) == 32) && (long_at(d, 16) == 0 || long_at(d, 16) == 3) && data_start(
            d,
        ) + stride * unsigned(signed(long_at(d, 8))) <= d.len(),
        match dib_error(d) {
            Some(DibError::TooSmall) => d.len() < 40,
            Some(DibError::HeaderSize(n)) => n == long_at(d, 0) && (n < 40 || n > d.len()),
            Some(DibError::Dimensions) => long_at(d, 4) == 0 || long_at(d, 8) == 0,
            Some(DibError::Planes(n)) => n == short_at(d, 12) && n != 1,
            Some(DibError::Masks) => data_start(d) > d.len(),
            Some(DibError::Compression(n)) => n == long_at(d, 16) && n != 0 && n != 3,
            Some(DibError::Pixels) => data_start(d) + stride * unsigned(signed(long_at(d, 8)))
                > d.len(),
            Some(DibError::BitCount(n)) => n == short_at(d, 14) && n != 24 && n != 32,
            None => true,
        },
{
    if d.len() >= 40 {
        let l = layout(d);
        lemma_row_length(l.width, l.bits, stride);
        assert(l.width == unsigned(signed(long_at(d, 4))));
        assert(l.height == unsigned(signed(long_at(d, 8))));
        assert(0 <= stride * l.height) by (nonlinear_arith)
            requires
                0 <= stride,
        ;
    }
}

/// What the header of a bitmap says that is stored from the top, with 32 bits for a pixel and
/// the masks of the four colours.
pub open spec fn says_written(d: Seq<u8>, width: int, height: int) -> bool {
    &&& long_at(d, 0) == 124
    &&& long_at(d, 4) == width
    &&& signed(long_at(d, 8)) == -height
    &&& short_at(d, 12) == 1
    &&& short_at(d, 14) == 32
    &&& long_at(d, 16) == 3
    &&& long_at(d, 20) == (width * height * 4) % 4294967296
    &&& long_at(d, 40) == 0x00ff0000
    &&& long_at(d, 44) == 0x0000ff00
    &&& long_at(d, 48) == 0x000000ff
    &&& long_at(d, 52) == 0xff000000
}

/// The pixel at `i` of the picture follows the header, as blue, green, red, alpha.
pub open spec fn stores_pixel(d: Seq<u8>, rgba: Seq<u8>, i: int) -> bool {
    &&& d[124 + i] == rgba[i + 2]
    &&& d[125 + i] == rgba[i + 1]
    &&& d[126 + i] == rgba[i]
    &&& d[127 + i] == rgba[i + 3]
}

/// The pixels after the header, in the order of the picture.
pub open spec fn stores_pixels(d: Seq<u8>, rgba: Seq<u8>) -> bool {
    &&& d.len() == 124 + rgba.len()
    &&& forall|i: int|
        0 <= i && i + 4 <= rgba.len() && i % 4 == 0 ==> #[trigger] stores_pixel(d, rgba, i)
}

/// A bitmap that is written has a header of 124 bytes and then the pixels.
pub proof fn law_what_is_written(width: nat, height: nat, rgba: Seq<u8>)
    requires
        width < 4294967296,
        0 < height <= 2147483648,
    ensures
        says_written(v5_bytes(width, height, rgba), width as int, height as int),
        stores_pixels(v5_bytes(width, height, rgba), rgba),
{
    let d = v5_bytes(width, height, rgba);
    lemma_header_fields(width, height, rgba);
    lemma_header_rest(width, height, rgba);
    lemma_says_written(d, width as int, height as int);
    lemma_stores_pixels(d, rgba);
}

proof fn lemma_says_written(d: Seq<u8>, width: int, height: int)
    requires
        0 < height <= 2147483648,
        le_value4(d, 0) == 124,
        le_value4(d, 4) == width,
        le_value4(d, 8) == (0x1_0000_0000 - height) % 0x1_0000_0000,
        le_value2(d, 12) == 1,
        le_value2(d, 14) == 32,
        le_value4(d, 16) == 3,
        long_at(d, 20) == (width * height * 4) % 0x1_0000_0000,
        long_at(d, 40) == 0x00FF_0000,
        long_at(d, 44) == 0x0000_FF00,
        long_at(d, 48) == 0x0000_00FF,
        long_at(d, 52) == 0xFF00_0000,
    ensures
        says_written(d, width, height),
{
}

proof fn lemma_stores_pixels(d: Seq<u8>, rgba: Seq<u8>)
    requires
        d.len() == 124 + rgba.len(),
        d.skip(124) == swapped(rgba),
    ensures
        stores_pixels(d, rgba),
{
    assert forall|i: int| 0 <= i && i + 4 <= rgba.len() && i % 4
        == 0 implies #[trigger] stores_pixel(d, rgba, i) by {
        lemma_swapped_at(d, rgba, i / 4);
    }
}

proof fn lemma_swapped_at(d: Seq<u8>, rgba: Seq<u8>, k: int)
    requires
        d.len() == 124 + rgba.len(),
        d.skip(124) == swapped(rgba),
        0 <= k,
        4 * k + 4 <= rgba.len(),
    ensures
        d[124 + 4 * k] == rgba[4 * k + 2],
        d[124 + 4 * k + 1] == rgba[4 * k + 1],
        d[124 + 4 * k + 2] == rgba[4 * k],
        d[124 + 4 * k + 3] == rgba[4 * k + 3],
{
    let t = d.skip(124);
    assert(d[124 + 4 * k] == t[4 * k]);
    assert(d[124 + 4 * k + 1] == t[4 * k + 1]);
    assert(d[124 + 4 * k + 2] == t[4 * k + 2]);
    assert(d[124 + 4 * k + 3] == t[4 * k + 3]);
}

proof fn lemma_header_rest(width: nat, height: nat, rgba: Seq<u8>)
    ensures
        ({
            let d = v5_bytes(width, height, rgba);
            &&& long_at(d, 20) == (width * height * 4) % 0x1_0000_0000
            &&& long_at(d, 40) == 0x00FF_0000
            &&& long_at(d, 44) == 0x0000_FF00
            &&& long_at(d, 48) == 0x0000_00FF
            &&& long_at(d, 52) == 0xFF00_0000
        }),
{
    let d = v5_bytes(width, height, rgba);
    let size = ((width * height * 4) % 0x1_0000_0000) as nat;
    let neg = ((0x1_0000_0000 - height) % 0x1_0000_0000) as nat;
    let head = le_bytes(124, 4) + le_bytes(width, 4) + le_bytes(neg, 4) + le_bytes(1, 2) + le_bytes(
        32,
        2,
    ) + le_bytes(BI_BITFIELDS as nat, 4);
    lemma_le_bytes4(124);
    lemma_le_bytes4(width);
    lemma_le_bytes4(neg);
    lemma_le_bytes2(1);
    lemma_le_bytes2(32);
    lemma_le_bytes4(3);
    assert(head.len() == 20);
    lemma_join4(size);
    lemma_join4(0x00FF_0000);
    lemma_join4(0x0000_FF00);
    lemma_join4(0x0000_00FF);
    lemma_join4(0xFF00_0000);
    let s = le_bytes(size, 4);
    let m1 = le_bytes(0x00FF_0000, 4);
    let m2 = le_bytes(0x0000_FF00, 4);
    let m3 = le_bytes(0x0000_00FF, 4);
    let m4 = le_bytes(0xFF00_0000, 4);
    lemma_le_len4(size);
    lemma_le_len4(0x00FF_0000);
    lemma_le_len4(0x0000_FF00);
    lemma_le_len4(0x0000_00FF);
    lemma_le_len4(0xFF00_0000);
    let rest = zeros(68) + swapped(rgba);
    assert(d =~= head + s + zeros(16) + m1 + m2 + m3 + m4 + rest);
    lemma_long_in(head, s, zeros(16) + m1 + m2 + m3 + m4 + rest, d);
    lemma_long_in(head + s + zeros(16), m1, m2 + m3 + m4 + rest, d);
    lemma_long_in(head + s + zeros(16) + m1, m2, m3 + m4 + rest, d);
    lemma_long_in(head + s + zeros(16) + m1 + m2, m3, m4 + rest, d);
    lemma_long_in(head + s + zeros(16) + m1 + m2 + m3, m4, rest, d);
}

proof fn lemma_le_len4(n: nat)
    ensures
        le_bytes(n, 4).len() == 4,
{
    lemma_le_bytes4(n);
}

/// A number that stands between two parts of the data is read there.
proof fn lemma_long_in(a: Seq<u8>, n: Seq<u8>, b: Seq<u8>, d: Seq<u8>)
    requires
        n.len() == 4,
        d =~= a + n + b,
    ensures
        long_at(d, a.len() as int) == le_value4(n, 0),
{
}

/// Of several faults the first that is found is told: the length, the header's size, the
/// dimensions, the planes, the masks, the compression, the pixels, and the bits of a pixel.
pub proof fn law_which_fault_is_told(d: Seq<u8>, stride: int)
    requires
        d.len() >= 40 ==> is_row_length(
            stride,
            unsigned(signed(long_at(d, 4))) * short_at(d, 14),
        ),
    ensures
        ({
            let size = 40 <= long_at(d, 0) <= d.len();
            let dims = long_at(d, 4) != 0 && long_at(d, 8) != 0;
            let planes = short_at(d, 12) == 1;
            let masks = data_start(d) <= d.len();
            let known = long_at(d, 16) == 0 || long_at(d, 16) == 3;
            let full = data_start(d) + stride * unsigned(signed(long_at(d, 8))) <= d.len();
            &&& d.len() < 40 ==> dib_error(d) == Some(DibError::TooSmall)
            &&& d.len() >= 40 && !size ==> (dib_error(d) matches Some(
                DibError::HeaderSize(_),
            ))
            &&& d.len() >= 40 && size && !dims ==> dib_error(d) == Some(DibError::Dimensions)
            &&& d.len() >= 40 && size && dims && !planes ==> (dib_error(d) matches Some(
                DibError::Planes(_),
            ))
            &&& d.len() >= 40 && size && dims && planes && !masks ==> dib_error(d) == Some(
                DibError::Masks,
            )
            &&& d.len() >= 40 && size && dims && planes && masks && !known ==> (dib_error(
                d,
            ) matches Some(DibError::Compression(_)))
            &&& d.len() >= 40 && size && dims && planes && masks && known && !full ==> dib_error(d)
                == Some(DibError::Pixels)
        }),
{
    if d.len() >= 40 {
        let l = layout(d);
        lemma_row_length(l.width, l.bits, stride);
        assert(l.width == unsigned(signed(long_at(d, 4))));
        assert(l.height == unsigned(signed(long_at(d, 8))));
    }
}

/// Filling consists of zeros, as many as asked for.
pub proof fn law_filling_is_zero(n: nat, i: int)
    requires
        0 <= i < n,
    ensures
        zeros(n).len() == n,
        zeros(n)[i] == 0,
{
}

} // verus!
