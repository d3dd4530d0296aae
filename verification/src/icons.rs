//! The program's icons, drawn in code: a round badge with an `S` glyph, stored as a Windows ICO
//! file holding 16, 32 and 48 pixel images.
use vstd::prelude::*;

use crate::engine::{le_u32_value, lemma_le_bytes_roundtrip, u32_bits, u32_le_bytes};

verus! {

/// A colour: red, green, blue and alpha.
#[derive(Debug, Clone, Copy, PartialEq, Eq, Structural)]
pub struct Rgba(pub u8, pub u8, pub u8, pub u8);

/// The fill and glyph colours of the program icon and of the tray icon while the server runs:
/// orange with a near-black glyph.
pub fn active_colors() -> (res: (Rgba, Rgba))
    ensures
        res == (Rgba(255, 145, 0, 255), Rgba(24, 24, 24, 255)),
{
    (Rgba(255, 145, 0, 255), Rgba(24, 24, 24, 255))
}

/// The fill and glyph colours of the tray icon while the server is stopped: near white with a
/// grey glyph.
pub fn stopped_colors() -> (res: (Rgba, Rgba))
    ensures
        res == (Rgba(250, 250, 250, 255), Rgba(72, 72, 72, 255)),
{
    (Rgba(250, 250, 250, 255), Rgba(72, 72, 72, 255))
}

/// The colour of pixel (`x`, `y`), counted from the top left, of the badge of side `size`: clear
/// outside a disc of radius 44% of the side, the glyph colour on the five strokes of the `S`,
/// the fill colour elsewhere.
pub open spec fn pixel_at(size: int, x: int, y: int, fill: Rgba, glyph: Rgba) -> Rgba {
    let cx = (size - 1) / 2;
    let cy = cx;
    let dx = x - cx;
    let dy = y - cy;
    let radius = (size * 44) / 100;
    if dx * dx + dy * dy > radius * radius {
        Rgba(0, 0, 0, 0)
    } else {
        let sx0 = size * 10 / 32;
        let sx1 = size * 22 / 32;
        let top = size * 8 / 32;
        let mid = size * 15 / 32;
        let bot = size * 23 / 32;
        let t = if size / 8 > 1 {
            size / 8
        } else {
            1
        };
        let top_bar = top <= y < top + t && sx0 <= x <= sx1;
        let mid_bar = mid <= y < mid + t && sx0 <= x <= sx1;
        let bot_bar = bot <= y < bot + t && sx0 <= x <= sx1;
        let left = sx0 <= x < sx0 + t && top <= y <= mid;
        let right = x + t > sx1 && x <= sx1 && mid <= y <= bot;
        if top_bar || mid_bar || bot_bar || left || right {
            glyph
        } else {
            fill
        }
    }
}

/// The colour of pixel (`x`, `y`) of the badge of side `size`, for every side whose arithmetic
/// fits in 32-bit integers (up to 65535).
pub fn icon_pixel(size: u32, x: u32, y: u32, fill: Rgba, glyph: Rgba) -> (res: Rgba)
    requires
        size <= 65535,
        x < size,
        y < size,
    ensures
        res == pixel_at(size as int, x as int, y as int, fill, glyph),
{
    let cx: i32 = (size as i32 - 1) / 2;
    let cy: i32 = cx;
    let dx: i32 = x as i32 - cx;
    let dy: i32 = y as i32 - cy;
    let radius: i32 = (size as i32 * 44) / 100;
    assert(-32767 <= dx <= 32767 && -32767 <= dy <= 32767 && 0 <= radius <= 28835);
    assert(dx * dx <= 1073676289 && dy * dy <= 1073676289 && radius * radius <= 831457225)
        by (nonlinear_arith)
        requires
            -32767 <= dx <= 32767,
            -32767 <= dy <= 32767,
            0 <= radius <= 28835,
    ;
    assert(dx * dx >= 0 && dy * dy >= 0) by (nonlinear_arith);
    if dx * dx + dy * dy > radius * radius {
        return Rgba(0, 0, 0, 0);
    }
    let sx0: u32 = size * 10 / 32;
    let sx1: u32 = size * 22 / 32;
    let top: u32 = size * 8 / 32;
    let mid: u32 = size * 15 / 32;
    let bot: u32 = size * 23 / 32;
    let t: u32 = if size / 8 > 1 {
        size / 8
    } else {
        1
    };
    let top_bar = y >= top && y < top + t && x >= sx0 && x <= sx1;
    let mid_bar = y >= mid && y < mid + t && x >= sx0 && x <= sx1;
    let bot_bar = y >= bot && y < bot + t && x >= sx0 && x <= sx1;
    let left = x >= sx0 && x < sx0 + t && y >= top && y <= mid;
    let right = x + t > sx1 && x <= sx1 && y >= mid && y <= bot;
    if top_bar || mid_bar || bot_bar || left || right {
        glyph
    } else {
        fill
    }
}

/// `value` as two little-endian bytes.
pub open spec fn u16_le_bytes(value: nat) -> Seq<u8> {
    seq![(value % 256) as u8, ((value / 256) % 256) as u8]
}

/// The four little-endian bytes of a signed 32-bit number.
pub open spec fn i32_le_bytes(value: int) -> Seq<u8> {
    u32_le_bytes(u32_bits(value))
}

/// Appends `value` as two little-endian bytes.
pub fn push_u16(out: &mut Vec<u8>, value: u16)
    ensures
        final(out)@ == old(out)@ + u16_le_bytes(value as nat),
{
    out.push((value % 256) as u8);
    out.push((value / 256) as u8);
    assert(final(out)@ =~= old(out)@ + u16_le_bytes(value as nat));
}

/// Appends `value` as four little-endian bytes.
pub fn push_u32(out: &mut Vec<u8>, value: u32)
    ensures
        final(out)@ == old(out)@ + u32_le_bytes(value as nat),
{
    out.push((value % 256) as u8);
    out.push(((value / 256) % 256) as u8);
    out.push(((value / 65536) % 256) as u8);
    out.push(((value / 16777216) % 256) as u8);
    assert(final(out)@ =~= old(out)@ + u32_le_bytes(value as nat));
}

/// Appends a signed 32-bit number as four little-endian bytes (two's complement).
pub fn push_i32(out: &mut Vec<u8>, value: i32)
    ensures
        final(out)@ == old(out)@ + i32_le_bytes(value as int),
{
    let bits: u32 = if value < 0 {
        ((value as i64) + 4294967296) as u32
    } else {
        value as u32
    };
    push_u32(out, bits);
}

/// The bytes of one pixel in an icon image: blue, green, red, alpha.
pub open spec fn pixel_quad(p: Rgba) -> Seq<u8> {
    seq![p.2, p.1, p.0, p.3]
}

/// The first `n` pixels of the badge of side `size` in the order an icon image stores them:
/// rows from the bottom up, each row from left to right.
pub open spec fn pixel_rows(size: nat, fill: Rgba, glyph: Rgba, n: nat) -> Seq<u8>
    decreases n,
{
    if n == 0 || size == 0 {
        Seq::empty()
    } else {
        let p = (n - 1) as nat;
        pixel_rows(size, fill, glyph, p) + pixel_quad(
            pixel_at(size as int, (p % size) as int, size - 1 - p / size, fill, glyph),
        )
    }
}

/// The length of the transparency mask of an image of side `size`: one bit a pixel, rows padded
/// to whole 32-bit words.
pub open spec fn mask_len(size: nat) -> nat {
    ((size + 31) / 32) * 4 * size
}

/// The header of an icon image of side `size`: a 40-byte bitmap header with twice the height
/// (colour and mask), one plane, 32 bits a pixel, no compression, and the colour data length.
pub open spec fn dib_header(size: nat) -> Seq<u8> {
    u32_le_bytes(40) + i32_le_bytes(size as int) + i32_le_bytes((2 * size) as int) + u16_le_bytes(1)
        + u16_le_bytes(32) + u32_le_bytes(0) + u32_le_bytes(size * size * 4) + i32_le_bytes(0)
        + i32_le_bytes(0) + u32_le_bytes(0) + u32_le_bytes(0)
}

/// The icon image of side `size`: its header, its pixels and a mask of zeros.
#[verifier::opaque]
pub open spec fn dib_bytes(size: nat, fill: Rgba, glyph: Rgba) -> Seq<u8> {
    dib_header(size) + pixel_rows(size, fill, glyph, size * size) + Seq::new(
        mask_len(size),
        |i: int| 0u8,
    )
}

/// The stored pixels of the badge of side `size` have four bytes each.
pub proof fn lemma_pixel_rows_len(size: nat, fill: Rgba, glyph: Rgba, n: nat)
    requires
        size > 0 || n == 0,
    ensures
        pixel_rows(size, fill, glyph, n).len() == 4 * n,
    decreases n,
{
    if n > 0 {
        lemma_pixel_rows_len(size, fill, glyph, (n - 1) as nat);
    }
}

/// An icon image of side `size` is its 40-byte header, four bytes a pixel and its mask.
pub proof fn lemma_dib_len(size: nat, fill: Rgba, glyph: Rgba)
    ensures
        dib_bytes(size, fill, glyph).len() == 40 + 4 * (size * size) + mask_len(size),
{
    reveal(dib_bytes);
    if size == 0 {
        assert(size * size == 0);
    }
    lemma_pixel_rows_len(size, fill, glyph, size * size);
}

/// Pixel number `row * size + x` is pixel `x` of row `row`.
proof fn lemma_pixel_position(size: nat, row: nat, x: nat)
    requires
        x < size,
    ensures
        (row * size + x) % size == x,
        (row * size + x) / size == row,
{
    vstd::arithmetic::div_mod::lemma_fundamental_div_mod_converse(
        (row * size + x) as int,
        size as int,
        row as int,
        x as int,
    );
}

/// Byte `c` of stored pixel number `p` is byte `c` of that pixel's quad.
proof fn lemma_pixel_rows_index(size: nat, fill: Rgba, glyph: Rgba, n: nat, p: nat, c: int)
    requires
        size > 0,
        p < n,
        0 <= c < 4,
    ensures
        pixel_rows(size, fill, glyph, n)[4 * p + c] == pixel_quad(
            pixel_at(size as int, (p % size) as int, size - 1 - p / size, fill, glyph),
        )[c],
    decreases n,
{
    let m = (n - 1) as nat;
    lemma_pixel_rows_len(size, fill, glyph, m);
    if p < m {
        lemma_pixel_rows_index(size, fill, glyph, m, p, c);
    }
}

/// In the icon image of side `size`, pixel `x` of row `row` (rows counted from the bottom of
/// the badge, as the image stores them) is the four bytes at `40 + 4 * (row * size + x)`:
/// blue, green, red and alpha of the badge's pixel at column `x`, line `size - 1 - row`.
pub proof fn lemma_dib_pixel(size: nat, fill: Rgba, glyph: Rgba, row: nat, x: nat)
    requires
        row < size,
        x < size,
    ensures
        dib_bytes(size, fill, glyph).subrange(
            40 + 4 * (row * size + x) as int,
            44 + 4 * (row * size + x) as int,
        ) == pixel_quad(pixel_at(size as int, x as int, size - 1 - row, fill, glyph)),
{
    reveal(dib_bytes);
    let p = row * size + x;
    assert(p < size * size) by (nonlinear_arith)
        requires
            row < size,
            x < size,
            p == row * size + x,
    ;
    lemma_pixel_position(size, row, x);
    lemma_pixel_rows_len(size, fill, glyph, size * size);
    let header = dib_header(size);
    assert(header.len() == 40);
    let rows = pixel_rows(size, fill, glyph, size * size);
    let quad = pixel_quad(pixel_at(size as int, x as int, size - 1 - row, fill, glyph));
    let bytes = dib_bytes(size, fill, glyph);
    assert forall|c: int| 0 <= c < 4 implies bytes[40 + 4 * p + c] == quad[c] by {
        lemma_pixel_rows_index(size, fill, glyph, size * size, p, c);
        assert(bytes[40 + 4 * p + c] == rows[4 * p + c]);
    }
    assert(bytes.subrange(40 + 4 * p as int, 44 + 4 * p as int) =~= quad);
}

/// The icon image of the badge of side `size`: a bitmap header, the pixels from the bottom row
/// up, and a mask of zeros. Any side is accepted whose colour data length fits in 32 bits (up to
/// 32767) and whose image length fits in memory.
pub fn build_dib(size: u32, fill: Rgba, glyph: Rgba) -> (res: Vec<u8>)
    requires
        4 * size * size <= u32::MAX,
        40 + 4 * size * size + mask_len(size as nat) <= usize::MAX,
    ensures
        res@ == dib_bytes(size as nat, fill, glyph),
{
    assert(size <= 32767) by (nonlinear_arith)
        requires
            4 * size * size <= u32::MAX,
    ;
    assert(size * size * 4 <= u32::MAX && size * size <= u32::MAX && size * size * 4 == 4 * size
        * size) by (nonlinear_arith)
        requires
            4 * size * size <= u32::MAX,
    ;
    let xor_len: u32 = size * size * 4;
    let mask_stride: u32 = ((size + 31) / 32) * 4;
    assert(mask_stride * size <= 4100 * 32767) by (nonlinear_arith)
        requires
            mask_stride <= 4100,
            size <= 32767,
    ;
    let mask: u32 = mask_stride * size;
    assert(mask == mask_len(size as nat)) by (nonlinear_arith)
        requires
            mask == ((size + 31) / 32) * 4 * size,
    ;
    let mut dib: Vec<u8> = Vec::new();
    push_u32(&mut dib, 40);
    push_i32(&mut dib, size as i32);
    push_i32(&mut dib, (size * 2) as i32);
    push_u16(&mut dib, 1);
    push_u16(&mut dib, 32);
    push_u32(&mut dib, 0);
    push_u32(&mut dib, xor_len);
    push_i32(&mut dib, 0);
    push_i32(&mut dib, 0);
    push_u32(&mut dib, 0);
    push_u32(&mut dib, 0);
    let ghost header = dib@;
    assert(header =~= dib_header(size as nat));
    let mut y_bottom: u32 = 0;
    while y_bottom < size
        invariant
            size <= 32767,
            y_bottom <= size,
            dib@ == header + pixel_rows(size as nat, fill, glyph, (y_bottom * size) as nat),
        decreases size - y_bottom,
    {
        let y: u32 = size - 1 - y_bottom;
        let mut x: u32 = 0;
        while x < size
            invariant
                size <= 32767,
                y_bottom < size,
                y == size - 1 - y_bottom,
                x <= size,
                dib@ == header + pixel_rows(size as nat, fill, glyph, (y_bottom * size + x) as nat),
            decreases size - x,
        {
            let pixel = icon_pixel(size, x, y, fill, glyph);
            dib.push(pixel.2);
            dib.push(pixel.1);
            dib.push(pixel.0);
            dib.push(pixel.3);
            proof {
                lemma_pixel_position(size as nat, y_bottom as nat, x as nat);
                let n = (y_bottom * size + x) as nat;
                assert(pixel_rows(size as nat, fill, glyph, n + 1) == pixel_rows(
                    size as nat,
                    fill,
                    glyph,
                    n,
                ) + pixel_quad(pixel));
                assert(dib@ =~= header + pixel_rows(size as nat, fill, glyph, n + 1));
            }
            x = x + 1;
        }
        assert((y_bottom * size + size) == (y_bottom + 1) * size) by (nonlinear_arith);
        y_bottom = y_bottom + 1;
    }
    let total: usize = 40 + xor_len as usize + mask as usize;
    proof {
        lemma_pixel_rows_len(size as nat, fill, glyph, (size * size) as nat);
        assert(dib@.len() == 40 + xor_len);
    }
    let ghost body = dib@;
    while dib.len() < total
        invariant
            40 + xor_len <= dib@.len() <= total,
            total == 40 + xor_len + mask,
            dib@.take(40 + xor_len) == body,
            forall|i: int| 40 + xor_len <= i < dib@.len() ==> dib@[i] == 0u8,
        decreases total - dib@.len(),
    {
        dib.push(0u8);
    }
    proof {
        reveal(dib_bytes);
        assert(dib@ =~= dib_bytes(size as nat, fill, glyph));
    }
    dib
}

/// The sides of the images an icon file holds, in order.
pub open spec fn icon_image_sizes() -> Seq<nat> {
    seq![16, 32, 48]
}

/// The byte an icon directory gives for a side: the side, or zero for 256 and more.
pub open spec fn dimension_byte(size: nat) -> u8 {
    if size >= 256 {
        0
    } else {
        size as u8
    }
}

/// The directory entry of an image of side `size`, `len` bytes long, stored at `offset`: width,
/// height, no palette, one plane, 32 bits a pixel, the length and the offset.
pub open spec fn ico_entry(size: nat, len: nat, offset: nat) -> Seq<u8> {
    seq![dimension_byte(size), dimension_byte(size), 0u8, 0u8] + u16_le_bytes(1) + u16_le_bytes(32)
        + u32_le_bytes(len) + u32_le_bytes(offset)
}

/// An icon file holding three images of sides 16, 32 and 48: a header (reserved, type 1 for
/// icons, three images), the three directory entries, then the images.
pub open spec fn ico_layout(d0: Seq<u8>, d1: Seq<u8>, d2: Seq<u8>) -> Seq<u8> {
    u16_le_bytes(0) + u16_le_bytes(1) + u16_le_bytes(3) + ico_entry(16, d0.len(), 54) + ico_entry(
        32,
        d1.len(),
        54 + d0.len(),
    ) + ico_entry(48, d2.len(), 54 + d0.len() + d1.len()) + d0 + d1 + d2
}

/// The icon file of the badge: its 16, 32 and 48 pixel images.
pub open spec fn ico_bytes(fill: Rgba, glyph: Rgba) -> Seq<u8> {
    ico_layout(dib_bytes(16, fill, glyph), dib_bytes(32, fill, glyph), dib_bytes(48, fill, glyph))
}

/// The lengths of the three images.
proof fn lemma_image_lengths(fill: Rgba, glyph: Rgba)
    ensures
        dib_bytes(16, fill, glyph).len() == 1128,
        dib_bytes(32, fill, glyph).len() == 4264,
        dib_bytes(48, fill, glyph).len() == 9640,
{
    lemma_dib_len(16, fill, glyph);
    lemma_dib_len(32, fill, glyph);
    lemma_dib_len(48, fill, glyph);
}

/// In an icon file of three images, each directory entry gives the side of its image, and its
/// length and offset point exactly at that image.
#[verifier::spinoff_prover]
#[verifier::rlimit(40)]
proof fn lemma_layout_entries(d0: Seq<u8>, d1: Seq<u8>, d2: Seq<u8>, k: int)
    requires
        0 <= k < 3,
        d0.len() == 1128,
        d1.len() == 4264,
        d2.len() == 9640,
    ensures
        ({
            let ico = ico_layout(d0, d1, d2);
            let entry = ico.subrange(6 + 16 * k, 22 + 16 * k);
            let len = le_u32_value(entry.subrange(8, 12));
            let offset = le_u32_value(entry.subrange(12, 16));
            let image = if k == 0 {
                d0
            } else if k == 1 {
                d1
            } else {
                d2
            };
            &&& entry[0] as nat == icon_image_sizes()[k]
            &&& entry[1] as nat == icon_image_sizes()[k]
            &&& offset + len <= ico.len()
            &&& ico.subrange(offset as int, (offset + len) as int) == image
        }),
{
    let ico = ico_layout(d0, d1, d2);
    let head = u16_le_bytes(0) + u16_le_bytes(1) + u16_le_bytes(3);
    let e0 = ico_entry(16, 1128, 54);
    let e1 = ico_entry(32, 4264, 1182);
    let e2 = ico_entry(48, 9640, 5446);
    assert(ico =~= head + e0 + e1 + e2 + d0 + d1 + d2);
    if k == 0 {
        lemma_le_bytes_roundtrip(1128);
        lemma_le_bytes_roundtrip(54);
        assert(ico.subrange(6, 22) =~= e0);
        assert(e0.subrange(8, 12) =~= u32_le_bytes(1128));
        assert(e0.subrange(12, 16) =~= u32_le_bytes(54));
        assert(ico.subrange(54, 1182) =~= d0);
    } else if k == 1 {
        lemma_le_bytes_roundtrip(4264);
        lemma_le_bytes_roundtrip(1182);
        assert(ico.subrange(22, 38) =~= e1);
        assert(e1.subrange(8, 12) =~= u32_le_bytes(4264));
        assert(e1.subrange(12, 16) =~= u32_le_bytes(1182));
        assert(ico.subrange(1182, 5446) =~= d1);
    } else {
        lemma_le_bytes_roundtrip(9640);
        lemma_le_bytes_roundtrip(5446);
        assert(ico.subrange(38, 54) =~= e2);
        assert(e2.subrange(8, 12) =~= u32_le_bytes(9640));
        assert(e2.subrange(12, 16) =~= u32_le_bytes(5446));
        assert(ico.subrange(5446, 15086) =~= d2);
    }
}

/// Every directory entry of the icon file names the side of its image, and its length and
/// offset point exactly at that image's bytes.
pub proof fn lemma_ico_entries_locate_images(fill: Rgba, glyph: Rgba, k: int)
    requires
        0 <= k < 3,
    ensures
        ({
            let ico = ico_bytes(fill, glyph);
            let entry = ico.subrange(6 + 16 * k, 22 + 16 * k);
            let size = icon_image_sizes()[k];
            let len = le_u32_value(entry.subrange(8, 12));
            let offset = le_u32_value(entry.subrange(12, 16));
            &&& entry[0] as nat == size
            &&& entry[1] as nat == size
            &&& offset + len <= ico.len()
            &&& ico.subrange(offset as int, (offset + len) as int) == dib_bytes(size, fill, glyph)
        }),
{
    let d0 = dib_bytes(16, fill, glyph);
    let d1 = dib_bytes(32, fill, glyph);
    let d2 = dib_bytes(48, fill, glyph);
    lemma_image_lengths(fill, glyph);
    lemma_layout_entries(d0, d1, d2, k);
    assert(icon_image_sizes()[0] == 16 && icon_image_sizes()[1] == 32 && icon_image_sizes()[2] == 48);
}

/// Appends the directory entry of an image.
fn push_entry(out: &mut Vec<u8>, size: u32, len: u32, offset: u32)
    ensures
        final(out)@ == old(out)@ + ico_entry(size as nat, len as nat, offset as nat),
{
    let dim: u8 = if size >= 256 {
        0
    } else {
        size as u8
    };
    out.push(dim);
    out.push(dim);
    out.push(0);
    out.push(0);
    push_u16(out, 1);
    push_u16(out, 32);
    push_u32(out, len);
    push_u32(out, offset);
    assert(final(out)@ =~= old(out)@ + ico_entry(size as nat, len as nat, offset as nat));
}

/// Appends all of `bytes`.
fn append_bytes(out: &mut Vec<u8>, bytes: &Vec<u8>)
    ensures
        final(out)@ == old(out)@ + bytes@,
{
    let mut i: usize = 0;
    while i < bytes.len()
        invariant
            i <= bytes@.len(),
            out@ == old(out)@ + bytes@.take(i as int),
        decreases bytes@.len() - i,
    {
        out.push(bytes[i]);
        i = i + 1;
        assert(out@ =~= old(out)@ + bytes@.take(i as int));
    }
    assert(bytes@.take(i as int) =~= bytes@);
}

/// The icon file of the badge in the colours `fill` and `glyph`.
pub fn build_ico(fill: Rgba, glyph: Rgba) -> (res: Vec<u8>)
    ensures
        res@ == ico_bytes(fill, glyph),
{
    let d0 = build_dib(16, fill, glyph);
    let d1 = build_dib(32, fill, glyph);
    let d2 = build_dib(48, fill, glyph);
    proof {
        lemma_image_lengths(fill, glyph);
    }
    let mut out: Vec<u8> = Vec::new();
    push_u16(&mut out, 0);
    push_u16(&mut out, 1);
    push_u16(&mut out, 3);
    let mut offset: u32 = 54;
    push_entry(&mut out, 16, d0.len() as u32, offset);
    offset = offset + d0.len() as u32;
    push_entry(&mut out, 32, d1.len() as u32, offset);
    offset = offset + d1.len() as u32;
    push_entry(&mut out, 48, d2.len() as u32, offset);
    append_bytes(&mut out, &d0);
    append_bytes(&mut out, &d1);
    append_bytes(&mut out, &d2);
    assert(out@ =~= ico_layout(d0@, d1@, d2@));
    out
}

} // verus!
