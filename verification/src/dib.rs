//! Conversion between packed device-independent bitmaps (as `CF_DIB` carries
//! them) and top-down RGBA8 images.
use crate::bytes::{le16, le32, le32_bytes, push_le16, push_le32, read_le16, read_le32};
use vstd::arithmetic::div_mod::lemma_fundamental_div_mod_converse;
use vstd::prelude::*;

verus! {

/// Anything larger is a transfer, not a clipboard paste.
pub const MAX_CLIP: usize = 33554432;

/// Why a bitmap or an image could not be converted.
#[derive(Clone, Copy, Debug, PartialEq, Eq, Structural)]
pub enum DibError {
    /// Fewer than 40 bytes.
    TooShort,
    /// The header size is outside 40..=124 or not followed by data.
    Header,
    /// Neither 24 nor 32 bits per pixel.
    Depth,
    /// Compressed pixel data (neither BI_RGB nor BI_BITFIELDS).
    Compressed,
    /// The width has no absolute value in `i32`.
    Width,
    /// The height has no absolute value in `i32`.
    Height,
    /// A dimension is zero or larger than 32768.
    Size,
    /// The pixel rows extend past the data.
    Incomplete,
    /// An image to encode has a zero dimension.
    ImageSize,
    /// An image to encode has fewer bytes than its dimensions need.
    ImageIncomplete,
    /// An image to encode exceeds the clipboard limit.
    ImageTooLarge,
}

pub open spec fn spec_dib_message(e: DibError) -> Seq<char> {
    match e {
        DibError::TooShort => "位图数据过短"@,
        DibError::Header => "不支持的位图头"@,
        DibError::Depth => "仅支持 24/32 位位图"@,
        DibError::Compressed => "不支持压缩位图"@,
        DibError::Width => "位图宽度无效"@,
        DibError::Height => "位图高度无效"@,
        DibError::Size => "位图尺寸无效"@,
        DibError::Incomplete => "位图数据不完整"@,
        DibError::ImageSize => "图片尺寸无效"@,
        DibError::ImageIncomplete => "图片数据不完整"@,
        DibError::ImageTooLarge => "图片过大"@,
    }
}

impl DibError {
    pub fn message(&self) -> (m: &'static str)
        ensures
            m@ == spec_dib_message(*self),
    {
        match self {
            DibError::TooShort => "位图数据过短",
            DibError::Header => "不支持的位图头",
            DibError::Depth => "仅支持 24/32 位位图",
            DibError::Compressed => "不支持压缩位图",
            DibError::Width => "位图宽度无效",
            DibError::Height => "位图高度无效",
            DibError::Size => "位图尺寸无效",
            DibError::Incomplete => "位图数据不完整",
            DibError::ImageSize => "图片尺寸无效",
            DibError::ImageIncomplete => "图片数据不完整",
            DibError::ImageTooLarge => "图片过大",
        }
    }
}

/// Two's-complement reading of a 32-bit field.
pub open spec fn signed32(v: int) -> int {
    if v >= 0x8000_0000 {
        v - 0x1_0000_0000
    } else {
        v
    }
}

pub open spec fn abs(v: int) -> int {
    if v < 0 {
        -v
    } else {
        v
    }
}

/// Row size in bytes: `width * bytes` rounded up to a multiple of four.
pub open spec fn row_stride(width: int, bytes: int) -> int {
    (width * bytes + 3) / 4 * 4
}

/// Byte `i` of the top-down RGBA image read from the pixel rows that start at
/// `start`; rows are stored bottom-up when `bottom_up`.
pub open spec fn dib_channel(
    dib: Seq<u8>,
    start: int,
    stride: int,
    bytes: int,
    width: int,
    height: int,
    bottom_up: bool,
    i: int,
) -> u8 {
    let k = i / 4;
    let row = k / width;
    let column = k % width;
    let source = if bottom_up {
        height - 1 - row
    } else {
        row
    };
    let p = start + source * stride + column * bytes;
    if i % 4 == 0 {
        dib[p + 2]
    } else if i % 4 == 1 {
        dib[p + 1]
    } else if i % 4 == 2 {
        dib[p]
    } else if bytes == 4 {
        dib[p + 3]
    } else {
        255u8
    }
}

pub open spec fn dib_raw_pixels(
    dib: Seq<u8>,
    start: int,
    stride: int,
    bytes: int,
    width: int,
    height: int,
    bottom_up: bool,
) -> Seq<u8> {
    Seq::new(
        (width * height * 4) as nat,
        |i: int| dib_channel(dib, start, stride, bytes, width, height, bottom_up, i),
    )
}

/// Every alpha byte (each fourth byte, from index 3) is zero.
pub open spec fn all_alpha_zero(rgba: Seq<u8>) -> bool {
    forall|i: int| 0 <= i < rgba.len() && i % 4 == 3 ==> rgba[i] == 0
}

/// The image with every alpha byte set to 255.
pub open spec fn opaque(rgba: Seq<u8>) -> Seq<u8> {
    Seq::new(
        rgba.len(),
        |i: int|
            if i % 4 == 3 {
                255u8
            } else {
                rgba[i]
            },
    )
}

/// A 32-bit bitmap whose alpha channel is entirely zero is opaque in practice.
pub open spec fn fix_alpha(rgba: Seq<u8>, bytes: int) -> Seq<u8> {
    if bytes == 4 && all_alpha_zero(rgba) {
        opaque(rgba)
    } else {
        rgba
    }
}

/// What a packed bitmap decodes to: `(width, height, rgba)` with `rgba`
/// top-down RGBA8, or the first check the bitmap fails.
pub open spec fn spec_dib_to_rgba(dib: Seq<u8>) -> Result<(u32, u32, Seq<u8>), DibError> {
    if dib.len() < 40 {
        Err(DibError::TooShort)
    } else {
        let header = le32(dib, 0);
        let width = signed32(le32(dib, 4));
        let height = signed32(le32(dib, 8));
        let depth = le16(dib, 14);
        let compression = le32(dib, 16);
        if !(40 <= header <= 124 && dib.len() > header) {
            Err(DibError::Header)
        } else if !(depth == 32 || depth == 24) {
            Err(DibError::Depth)
        } else if !(compression == 0 || compression == 3) {
            Err(DibError::Compressed)
        } else if width == -0x8000_0000 {
            Err(DibError::Width)
        } else if height == -0x8000_0000 {
            Err(DibError::Height)
        } else {
            let w = abs(width);
            let h = abs(height);
            if !(w > 0 && h > 0 && w <= 32768 && h <= 32768) {
                Err(DibError::Size)
            } else {
                let bytes = depth / 8;
                let stride = row_stride(w, bytes);
                let start = header + if compression == 3 {
                    12int
                } else {
                    0int
                };
                if dib.len() < start + stride * h {
                    Err(DibError::Incomplete)
                } else {
                    Ok(
                        (
                            w as u32,
                            h as u32,
                            fix_alpha(
                                dib_raw_pixels(dib, start, stride, bytes, w, h, height > 0),
                                bytes,
                            ),
                        ),
                    )
                }
            }
        }
    }
}

proof fn lemma_div_mod(x: int, d: int, q: int, r: int)
    requires
        d > 0,
        0 <= r < d,
        x == q * d + r,
    ensures
        x / d == q,
        x % d == r,
{
    lemma_fundamental_div_mod_converse(x, d, q, r);
}

proof fn lemma_stride(width: int, bytes: int)
    requires
        width >= 0,
        bytes >= 0,
    ensures
        row_stride(width, bytes) >= width * bytes,
        row_stride(width, bytes) <= width * bytes + 3,
{
    let x = width * bytes + 3;
    lemma_div_mod(x, 4, x / 4, x % 4);
}

proof fn lemma_pixel_bounds(start: int, stride: int, bytes: int, w: int, h: int, s: int, c: int)
    by (nonlinear_arith)
    requires
        0 <= s < h,
        0 <= c < w,
        bytes >= 0,
        stride >= w * bytes,
        start >= 0,
    ensures
        start + s * stride + c * bytes + bytes <= start + h * stride,
        0 <= s * stride,
        s * stride + stride <= h * stride,
        0 <= c * bytes,
        c * bytes + bytes <= w * bytes,
        h * stride == stride * h,
{
}

proof fn lemma_pixel_index(w: int, h: int, row: int, column: int)
    requires
        0 <= row < h,
        0 <= column < w,
    ensures
        (row * w + column) / w == row,
        (row * w + column) % w == column,
        0 <= row * w + column < w * h,
        (row * w + column + 1) * 4 <= w * h * 4,
{
    lemma_div_mod(row * w + column, w, row, column);
    assert((row + 1) * w == row * w + w) by (nonlinear_arith);
    assert((row + 1) * w <= h * w) by (nonlinear_arith)
        requires
            row + 1 <= h,
            w > 0,
    ;
    assert((row * w + column + 1) * 4 <= w * h * 4) by (nonlinear_arith)
        requires
            row * w + column + 1 <= (row + 1) * w,
            (row + 1) * w <= h * w,
    ;
    assert(0 <= row * w) by (nonlinear_arith)
        requires
            row >= 0,
            w >= 0,
    ;
}

fn all_alpha_zero_exec(rgba: &Vec<u8>) -> (b: bool)
    ensures
        b == all_alpha_zero(rgba@),
{
    let mut i: usize = 3;
    while i < rgba.len()
        invariant
            i % 4 == 3,
            forall|j: int| 0 <= j < i && j < rgba@.len() && j % 4 == 3 ==> rgba@[j] == 0,
        decreases rgba@.len() - i,
    {
        if rgba[i] != 0 {
            return false;
        }
        if rgba.len() - i <= 4 {
            i = rgba.len();
            assert(forall|j: int| 0 <= j < rgba@.len() && j % 4 == 3 ==> rgba@[j] == 0);
            return true;
        }
        i += 4;
    }
    true
}

fn make_opaque(rgba: &mut Vec<u8>)
    ensures
        final(rgba)@ == opaque(old(rgba)@),
{
    let ghost original = rgba@;
    let mut i: usize = 0;
    while i < rgba.len()
        invariant
            rgba@.len() == original.len(),
            forall|j: int| 0 <= j < rgba@.len() ==> rgba@[j] == (if j < i && j % 4 == 3 {
                255u8
            } else {
                original[j]
            }),
        decreases rgba@.len() - i,
    {
        if i % 4 == 3 {
            rgba.set(i, 255);
        }
        i += 1;
    }
    assert(rgba@ =~= opaque(original));
}

/// Decodes a packed device-independent bitmap into `(width, height, rgba)`,
/// top-down RGBA8. Rows are stored bottom-up when the height is positive.
/// BI_RGB and BI_BITFIELDS (the masks follow the header) are read alike.
pub fn dib_to_rgba(dib: &[u8]) -> (r: Result<(u32, u32, Vec<u8>), DibError>)
    ensures
        match (r, spec_dib_to_rgba(dib@)) {
            (Ok((w, h, rgba)), Ok((sw, sh, srgba))) => w == sw && h == sh && rgba@ == srgba,
            (Err(e), Err(se)) => e == se,
            _ => false,
        },
{
    if dib.len() < 40 {
        return Err(DibError::TooShort);
    }
    let header = read_le32(dib, 0) as usize;
    if !(40 <= header && header <= 124 && dib.len() > header) {
        return Err(DibError::Header);
    }
    let width_field = read_le32(dib, 4);
    let height_field = read_le32(dib, 8);
    let depth = read_le16(dib, 14);
    let compression = read_le32(dib, 16);
    if !(depth == 32 || depth == 24) {
        return Err(DibError::Depth);
    }
    if !(compression == 0 || compression == 3) {
        return Err(DibError::Compressed);
    }
    if width_field == 0x8000_0000 {
        return Err(DibError::Width);
    }
    if height_field == 0x8000_0000 {
        return Err(DibError::Height);
    }
    let bottom_up = 0 < height_field && height_field < 0x8000_0000;
    let width: u32 = if width_field >= 0x8000_0000 {
        (0x1_0000_0000u64 - width_field as u64) as u32
    } else {
        width_field
    };
    let height: u32 = if height_field >= 0x8000_0000 {
        (0x1_0000_0000u64 - height_field as u64) as u32
    } else {
        height_field
    };
    if !(width > 0 && height > 0 && width <= 32768 && height <= 32768) {
        return Err(DibError::Size);
    }
    let bytes: usize = (depth / 8) as usize;
    let w = width as usize;
    let h = height as usize;
    assert(w * bytes <= 131072) by (nonlinear_arith)
        requires
            w <= 32768,
            bytes <= 4,
    ;
    let stride: usize = (w * bytes + 3) / 4 * 4;
    proof {
        lemma_stride(w as int, bytes as int);
    }
    let masks: usize = if compression == 3 {
        12
    } else {
        0
    };
    let start = header + masks;
    let total = dib.len();
    assert(stride as u64 * h as u64 <= 131075 * 32768) by (nonlinear_arith)
        requires
            stride <= 131075,
            h <= 32768,
    ;
    if (total as u64) < start as u64 + stride as u64 * h as u64 {
        return Err(DibError::Incomplete);
    }
    let ghost raw = dib_raw_pixels(
        dib@,
        start as int,
        stride as int,
        bytes as int,
        w as int,
        h as int,
        bottom_up,
    );
    let mut rgba: Vec<u8> = Vec::new();
    let mut row: usize = 0;
    while row < h
        invariant
            row <= h,
            0 < w <= 32768,
            0 < h <= 32768,
            bytes == 3 || bytes == 4,
            stride as int == row_stride(w as int, bytes as int),
            stride >= w * bytes,
            start <= 136,
            start + stride * h <= dib@.len(),
            dib@.len() == total,
            raw == dib_raw_pixels(
                dib@,
                start as int,
                stride as int,
                bytes as int,
                w as int,
                h as int,
                bottom_up,
            ),
            rgba@ == raw.take(row * w * 4),
        decreases h - row,
    {
        let source = if bottom_up {
            h - 1 - row
        } else {
            row
        };
        proof {
            lemma_pixel_bounds(
                start as int,
                stride as int,
                bytes as int,
                w as int,
                h as int,
                source as int,
                0,
            );
        }
        let line = start + source * stride;
        let mut column: usize = 0;
        while column < w
            invariant
                row < h,
                column <= w,
                0 < w <= 32768,
                0 < h <= 32768,
                bytes == 3 || bytes == 4,
                stride >= w * bytes,
                start <= 136,
                start + stride * h <= dib@.len(),
            dib@.len() == total,
                source == (if bottom_up {
                    h - 1 - row
                } else {
                    row as int
                }),
                line == start + source * stride,
                raw == dib_raw_pixels(
                    dib@,
                    start as int,
                    stride as int,
                    bytes as int,
                    w as int,
                    h as int,
                    bottom_up,
                ),
                rgba@ == raw.take((row * w + column) * 4),
            decreases w - column,
        {
            proof {
                lemma_pixel_bounds(
                    start as int,
                    stride as int,
                    bytes as int,
                    w as int,
                    h as int,
                    source as int,
                    column as int,
                );
                lemma_pixel_index(w as int, h as int, row as int, column as int);
            }
            let p = line + column * bytes;
            let ghost k = row * w + column;
            let ghost before = rgba@;
            rgba.push(dib[p + 2]);
            rgba.push(dib[p + 1]);
            rgba.push(dib[p]);
            rgba.push(
                if bytes == 4 {
                    dib[p + 3]
                } else {
                    255
                },
            );
            proof {
                lemma_div_mod(k * 4, 4, k, 0);
                lemma_div_mod(k * 4 + 1, 4, k, 1);
                lemma_div_mod(k * 4 + 2, 4, k, 2);
                lemma_div_mod(k * 4 + 3, 4, k, 3);
                assert(rgba@[k * 4] == raw[k * 4]);
                assert(rgba@[k * 4 + 1] == raw[k * 4 + 1]);
                assert(rgba@[k * 4 + 2] == raw[k * 4 + 2]);
                assert(rgba@[k * 4 + 3] == raw[k * 4 + 3]);
                assert(rgba@ =~= raw.take((k + 1) * 4));
            }
            column += 1;
        }
        row += 1;
        assert(row * w * 4 == (((row - 1) * w) + w) * 4) by (nonlinear_arith);
    }
    assert(raw.take(h * w * 4) =~= raw) by {
        assert(h * w * 4 == w * h * 4) by (nonlinear_arith);
    }
    if bytes == 4 && all_alpha_zero_exec(&rgba) {
        make_opaque(&mut rgba);
    }
    proof {
        assert(signed32(height_field as int) > 0 <==> bottom_up);
        assert(width as int == abs(signed32(width_field as int)));
        assert(height as int == abs(signed32(height_field as int)));
    }
    Ok((width, height, rgba))
}


/// The 40-byte BITMAPINFOHEADER of a 32-bit, uncompressed, bottom-up bitmap.
pub open spec fn dib_header(width: u32, height: u32, image_size: u32) -> Seq<u8> {
    le32_bytes(40) + le32_bytes(width) + le32_bytes(height) + seq![1u8, 0u8] + seq![32u8, 0u8]
        + le32_bytes(0) + le32_bytes(image_size) + le32_bytes(0) + le32_bytes(0) + le32_bytes(0)
        + le32_bytes(0)
}

/// Byte `i` of the bottom-up BGRA rows encoding the top-down RGBA `rgba`.
pub open spec fn dib_body_byte(rgba: Seq<u8>, width: int, height: int, i: int) -> u8 {
    let k = i / 4;
    let source = (height - 1 - k / width) * width + k % width;
    if i % 4 == 0 {
        rgba[source * 4 + 2]
    } else if i % 4 == 1 {
        rgba[source * 4 + 1]
    } else if i % 4 == 2 {
        rgba[source * 4]
    } else {
        rgba[source * 4 + 3]
    }
}

pub open spec fn dib_body(rgba: Seq<u8>, width: int, height: int) -> Seq<u8> {
    Seq::new((width * height * 4) as nat, |i: int| dib_body_byte(rgba, width, height, i))
}

/// What encoding a top-down RGBA image as a packed 32-bit bitmap gives, or the
/// first check the image fails.
pub open spec fn spec_rgba_to_dib(width: u32, height: u32, rgba: Seq<u8>) -> Result<
    Seq<u8>,
    DibError,
> {
    let pixels = width * height;
    if !(width > 0 && height > 0) {
        Err(DibError::ImageSize)
    } else if rgba.len() < pixels * 4 {
        Err(DibError::ImageIncomplete)
    } else if pixels * 4 > MAX_CLIP {
        Err(DibError::ImageTooLarge)
    } else {
        Ok(
            dib_header(width, height, (pixels * 4) as u32) + dib_body(
                rgba,
                width as int,
                height as int,
            ),
        )
    }
}

/// Encodes a top-down RGBA image as a packed 32-bit bitmap with a positive
/// height, so rows are stored bottom-up as Windows applications expect.
pub fn rgba_to_dib(width: u32, height: u32, rgba: &[u8]) -> (r: Result<Vec<u8>, DibError>)
    ensures
        match (r, spec_rgba_to_dib(width, height, rgba@)) {
            (Ok(dib), Ok(spec)) => dib@ == spec,
            (Err(e), Err(se)) => e == se,
            _ => false,
        },
{
    if !(width > 0 && height > 0) {
        return Err(DibError::ImageSize);
    }
    assert(width as u64 * height as u64 <= 0xffff_ffff * 0xffff_ffff) by (nonlinear_arith)
        requires
            width <= 0xffff_ffff,
            height <= 0xffff_ffff,
    ;
    let pixels: u64 = width as u64 * height as u64;
    if (rgba.len() as u64) / 4 < pixels {
        return Err(DibError::ImageIncomplete);
    }
    if pixels > (MAX_CLIP / 4) as u64 {
        return Err(DibError::ImageTooLarge);
    }
    let size: u32 = (pixels * 4) as u32;
    let mut dib: Vec<u8> = Vec::new();
    push_le32(&mut dib, 40);
    push_le32(&mut dib, width);
    push_le32(&mut dib, height);
    push_le16(&mut dib, 1);
    push_le16(&mut dib, 32);
    push_le32(&mut dib, 0);
    push_le32(&mut dib, size);
    push_le32(&mut dib, 0);
    push_le32(&mut dib, 0);
    push_le32(&mut dib, 0);
    push_le32(&mut dib, 0);
    assert(dib@ =~= dib_header(width, height, size));
    let ghost header = dib@;
    let ghost body = dib_body(rgba@, width as int, height as int);
    let w = width as usize;
    let h = height as usize;
    let mut out_row: usize = 0;
    while out_row < h
        invariant
            out_row <= h,
            0 < w,
            0 < h,
            w * h <= MAX_CLIP / 4,
            w * h * 4 <= rgba@.len(),
            w == width,
            h == height,
            body == dib_body(rgba@, width as int, height as int),
            dib@ == header + body.take(out_row * w * 4),
        decreases h - out_row,
    {
        let source_row = h - 1 - out_row;
        let mut column: usize = 0;
        while column < w
            invariant
                out_row < h,
                column <= w,
                0 < w,
                0 < h,
                w * h <= MAX_CLIP / 4,
                w * h * 4 <= rgba@.len(),
                source_row == h - 1 - out_row,
                body == dib_body(rgba@, width as int, height as int),
                w == width,
                h == height,
                dib@ == header + body.take((out_row * w + column) * 4),
            decreases w - column,
        {
            proof {
                lemma_pixel_index(w as int, h as int, source_row as int, column as int);
                lemma_pixel_index(w as int, h as int, out_row as int, column as int);
            }
            let base = (source_row * w + column) * 4;
            let ghost k = out_row * w + column;
            let ghost before = dib@;
            dib.push(rgba[base + 2]);
            dib.push(rgba[base + 1]);
            dib.push(rgba[base]);
            dib.push(rgba[base + 3]);
            proof {
                lemma_div_mod(k * 4, 4, k, 0);
                lemma_div_mod(k * 4 + 1, 4, k, 1);
                lemma_div_mod(k * 4 + 2, 4, k, 2);
                lemma_div_mod(k * 4 + 3, 4, k, 3);
                assert(dib@ =~= header + body.take((k + 1) * 4));
            }
            column += 1;
        }
        out_row += 1;
        assert(out_row * w * 4 == (((out_row - 1) * w) + w) * 4) by (nonlinear_arith);
    }
    assert(body.take(h * w * 4) =~= body) by {
        assert(h * w * 4 == w * h * 4) by (nonlinear_arith);
    }
    Ok(dib)
}


proof fn lemma_roundtrip_byte(rgba: Seq<u8>, w: int, h: int, i: int)
    requires
        0 < w,
        0 < h,
        0 <= i < w * h * 4,
    ensures
        ({
            let k = i / 4;
            let row = k / w;
            let column = k % w;
            let source = h - 1 - row;
            let j = source * (w * 4) + column * 4 + i % 4;
            &&& 0 <= j < w * h * 4
            &&& j / 4 == source * w + column
            &&& j % 4 == i % 4
            &&& (j / 4) / w == source
            &&& (j / 4) % w == column
            &&& (h - 1 - source) * w + column == k
        }),
{
    let k = i / 4;
    let row = k / w;
    let column = k % w;
    let ch = i % 4;
    lemma_div_mod(i, 4, k, ch);
    assert(0 <= k < w * h) by (nonlinear_arith)
        requires
            i == k * 4 + ch,
            0 <= ch < 4,
            0 <= i < w * h * 4,
    ;
    assert(k == row * w + column) by {
        vstd::arithmetic::div_mod::lemma_fundamental_div_mod(k, w);
        assert(k == w * row + column);
        assert(w * row == row * w) by (nonlinear_arith);
    }
    assert(0 <= column < w) by {
        vstd::arithmetic::div_mod::lemma_mod_bound(k, w);
    }
    assert(0 <= row < h) by (nonlinear_arith)
        requires
            k == row * w + column,
            0 <= column < w,
            0 <= k < w * h,
            0 < w,
    ;
    let source = h - 1 - row;
    lemma_pixel_index(w, h, source, column);
    let j = source * (w * 4) + column * 4 + ch;
    assert(source * (w * 4) == (source * w) * 4) by (nonlinear_arith);
    lemma_div_mod(j, 4, source * w + column, ch);
}

/// Reading back a bitmap encoded from an image gives the image: the same
/// dimensions and the same RGBA bytes, except that an image whose alpha
/// channel is entirely zero comes back opaque.
pub proof fn lemma_dib_roundtrip(width: u32, height: u32, rgba: Seq<u8>)
    requires
        0 < width <= 32768,
        0 < height <= 32768,
        rgba.len() >= width * height * 4,
        width * height * 4 <= MAX_CLIP,
    ensures
        spec_rgba_to_dib(width, height, rgba) is Ok,
        spec_dib_to_rgba(spec_rgba_to_dib(width, height, rgba)->Ok_0) == Ok::<
            (u32, u32, Seq<u8>),
            DibError,
        >((width, height, fix_alpha(rgba.take(width * height * 4), 4))),
{
    let w = width as int;
    let h = height as int;
    let n = w * h * 4;
    let size = (width * height * 4) as u32;
    let header = dib_header(width, height, size);
    let body = dib_body(rgba, w, h);
    let dib = header + body;
    assert(spec_rgba_to_dib(width, height, rgba) == Ok::<Seq<u8>, DibError>(dib));
    assert(header.len() == 40);
    assert(n >= 4) by (nonlinear_arith)
        requires
            n == w * h * 4,
            w >= 1,
            h >= 1,
    ;
    crate::bytes::lemma_le32_bytes(40);
    crate::bytes::lemma_le32_bytes(width);
    crate::bytes::lemma_le32_bytes(height);
    crate::bytes::lemma_le32_bytes(0);
    assert(le32(dib, 0) == 40);
    assert(le32(dib, 4) == width);
    assert(le32(dib, 8) == height);
    assert(le16(dib, 14) == 32);
    assert(le32(dib, 16) == 0);
    let stride = row_stride(w, 4);
    lemma_div_mod(w * 4 + 3, 4, w, 3);
    assert(stride == w * 4);
    assert(dib.len() == 40 + n);
    assert(stride * h == n) by (nonlinear_arith)
        requires
            stride == w * 4,
            n == w * h * 4,
    ;
    let raw = dib_raw_pixels(dib, 40, stride, 4, w, h, true);
    let prefix = rgba.take(n);
    assert forall|i: int| 0 <= i < n implies raw[i] == prefix[i] by {
        lemma_roundtrip_byte(rgba, w, h, i);
        let k = i / 4;
        let row = k / w;
        let column = k % w;
        let source = h - 1 - row;
        let p = 40 + source * stride + column * 4;
        let j = source * (w * 4) + column * 4 + i % 4;
        assert(p - 40 + i % 4 == j);
        assert(dib[40 + j] == body[j]);
        lemma_div_mod(j - j % 4, 4, j / 4, 0);
        lemma_div_mod(j - j % 4 + 1, 4, j / 4, 1);
        lemma_div_mod(j - j % 4 + 2, 4, j / 4, 2);
        lemma_div_mod(j - j % 4 + 3, 4, j / 4, 3);
        lemma_div_mod(k * 4, 4, k, 0);
        assert(k * 4 + i % 4 == i) by {
            vstd::arithmetic::div_mod::lemma_fundamental_div_mod(i, 4);
        }
    }
    assert(raw =~= prefix);
}

} // verus!
