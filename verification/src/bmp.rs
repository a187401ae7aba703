use vstd::prelude::*;

verus! {

/// A pixel of the monochrome display.
#[derive(Clone, Copy, Debug, PartialEq, Eq, Structural)]
pub enum Pixel {
    Black,
    White,
}

/// The pixel as the panel shows it: inverted in dark mode.
pub fn shown_pixel(pixel: Pixel, dark_mode: bool) -> (p: Pixel)
    ensures
        p == (if !dark_mode {
            pixel
        } else if pixel == Pixel::Black {
            Pixel::White
        } else {
            Pixel::Black
        }),
{
    if dark_mode {
        match pixel {
            Pixel::Black => Pixel::White,
            Pixel::White => Pixel::Black,
        }
    } else {
        pixel
    }
}

/// Which shade of a colour image becomes black on the display.
#[derive(Clone, Copy, Debug, PartialEq, Eq, Structural)]
pub enum Ink {
    /// Dark areas are drawn black (pictures, sprites).
    Dark,
    /// Bright areas are drawn black (fonts stored light on dark).
    Light,
}

/// Little-endian 16-bit value at byte `at`.
pub open spec fn le_u16(d: Seq<u8>, at: int) -> int {
    d[at] as int + 256 * d[at + 1] as int
}

/// Little-endian 32-bit value at byte `at`.
pub open spec fn le_u32(d: Seq<u8>, at: int) -> int {
    le_u16(d, at) + 65536 * le_u16(d, at + 2)
}

/// The file is long enough for the headers and starts with "BM".
pub open spec fn has_signature(d: Seq<u8>) -> bool {
    d.len() >= 54 && d[0] == 0x42u8 && d[1] == 0x4Du8
}

pub open spec fn bmp_width(d: Seq<u8>) -> int {
    le_u32(d, 18)
}

pub open spec fn bmp_height(d: Seq<u8>) -> int {
    le_u32(d, 22)
}

pub open spec fn bmp_depth(d: Seq<u8>) -> int {
    le_u16(d, 28)
}

pub open spec fn bmp_offset(d: Seq<u8>) -> int {
    le_u32(d, 10)
}

/// One of the pixel depths the decoder knows: 32, 24 or 1 bits.
pub open spec fn known_depth(depth: int) -> bool {
    depth == 32 || depth == 24 || depth == 1
}

/// Bytes per stored row: 4 per pixel at 32 bits; rows padded to a multiple
/// of 4 bytes at 24 and 1 bits.
pub open spec fn row_bytes(depth: int, width: int) -> int {
    if depth == 32 {
        width * 4
    } else if depth == 24 {
        ((width * 3 + 3) / 4) * 4
    } else {
        ((width + 31) / 32) * 4
    }
}

/// Perceived brightness of a colour, 0 to 255.
pub open spec fn luminance(r: u8, g: u8, b: u8) -> int {
    (r as int * 299 + g as int * 587 + b as int * 114) / 1000
}

/// The display pixel for a colour of brightness `lum`.
pub open spec fn shade(lum: int, ink: Ink) -> Pixel {
    match ink {
        Ink::Dark => if lum > 128 {
            Pixel::White
        } else {
            Pixel::Black
        },
        Ink::Light => if lum > 128 {
            Pixel::Black
        } else {
            Pixel::White
        },
    }
}

/// Bit `bit` (0 is the least significant) of `byte` is set.
pub open spec fn bit_set(byte: u8, bit: u8) -> bool {
    (byte >> bit) & 1u8 == 1u8
}

/// Where row `y` (0 at the top) starts: rows are stored bottom-up.
pub open spec fn row_start(d: Seq<u8>, y: int) -> int {
    bmp_offset(d) + (bmp_height(d) - 1 - y) * row_bytes(bmp_depth(d), bmp_width(d))
}

/// The display pixel at column `x` and row `y` of the image `d`. A pixel
/// whose bytes lie past the end of the file is white; so is a transparent
/// one (alpha below 128). In a 1-bit image a set bit is black.
pub open spec fn pixel_at(d: Seq<u8>, ink: Ink, x: int, y: int) -> Pixel {
    let start = row_start(d, y);
    if bmp_depth(d) == 32 {
        let p = start + 4 * x;
        if p + 3 >= d.len() {
            Pixel::White
        } else if d[p + 3] < 128 {
            Pixel::White
        } else {
            shade(luminance(d[p + 2], d[p + 1], d[p]), ink)
        }
    } else if bmp_depth(d) == 24 {
        let p = start + 3 * x;
        if p + 2 >= d.len() {
            Pixel::White
        } else {
            shade(luminance(d[p + 2], d[p + 1], d[p]), ink)
        }
    } else {
        let p = start + x / 8;
        if p >= d.len() {
            Pixel::White
        } else if bit_set(d[p], (7 - x % 8) as u8) {
            Pixel::Black
        } else {
            Pixel::White
        }
    }
}

/// The first `n` pixels of the image, row by row from the top.
pub open spec fn decoded_prefix(d: Seq<u8>, ink: Ink, n: int) -> Seq<Pixel> {
    Seq::new(n as nat, |k: int| pixel_at(d, ink, k % bmp_width(d), k / bmp_width(d)))
}

/// All pixels of the image, row by row from the top.
pub open spec fn decoded(d: Seq<u8>, ink: Ink) -> Seq<Pixel> {
    decoded_prefix(d, ink, bmp_width(d) * bmp_height(d))
}

proof fn lemma_msb_first(b: u8, k: u8)
    requires
        k < 8,
    ensures
        ((b >> ((7 - k) as u8)) & 1u8 == 1u8) == (b & (0x80u8 >> k) != 0u8),
{
    assert(((b >> ((7 - k) as u8)) & 1u8 == 1u8) == (b & (0x80u8 >> k) != 0u8)) by (bit_vector)
        requires
            k < 8,
    ;
}

/// In a 1-bit image the leftmost pixel of each group of eight is the most
/// significant bit of its byte: pixel `x` of row `y` is black exactly when
/// the byte `x / 8` of the row, masked with `0x80 >> (x % 8)`, is not zero
/// (and white where that byte lies past the end of the file).
pub proof fn lemma_one_bit_pixels(d: Seq<u8>, ink: Ink, x: int, y: int)
    requires
        bmp_depth(d) == 1,
        0 <= x < bmp_width(d),
        0 <= y < bmp_height(d),
    ensures
        ({
            let p = row_start(d, y) + x / 8;
            &&& decoded(d, ink)[y * bmp_width(d) + x] == (if 0 <= p < d.len() && d[p] & (0x80u8 >> (x % 8) as u8)
                != 0u8 {
                Pixel::Black
            } else {
                Pixel::White
            })
        }),
{
    let w = bmp_width(d);
    let k = y * w + x;
    assert(k % w == x && k / w == y) by (nonlinear_arith)
        requires
            k == y * w + x,
            0 <= x < w,
            0 <= y,
    ;
    assert(0 <= k < w * bmp_height(d)) by (nonlinear_arith)
        requires
            k == y * w + x,
            0 <= x < w,
            0 <= y < bmp_height(d),
    ;
    let p = row_start(d, y) + x / 8;
    if 0 <= p < d.len() {
        lemma_msb_first(d[p], (x % 8) as u8);
        assert((7 - x % 8) as u8 == (7 - ((x % 8) as u8)) as u8);
    }
}

/// In a 24- or 32-bit image rows are stored bottom row first, each colour
/// as blue, green, red (then alpha at 32 bits), 24-bit rows padded to a
/// multiple of four bytes. With dark ink a pixel is white exactly when its
/// brightness `(299 R + 587 G + 114 B) / 1000` exceeds 128 (and, at 32
/// bits, its alpha is at least 128); a pixel past the end of the file is
/// white.
pub proof fn lemma_colour_pixels(d: Seq<u8>, x: int, y: int)
    requires
        bmp_depth(d) == 24 || bmp_depth(d) == 32,
        0 <= x < bmp_width(d),
        0 <= y < bmp_height(d),
    ensures
        ({
            let w = bmp_width(d);
            let bpp = if bmp_depth(d) == 32 { 4int } else { 3int };
            let stride = if bmp_depth(d) == 32 { 4 * w } else { (3 * w + 3) / 4 * 4 };
            let p = bmp_offset(d) + (bmp_height(d) - 1 - y) * stride + bpp * x;
            let bright = (299 * d[p + 2] as int + 587 * d[p + 1] as int + 114 * d[p] as int) / 1000;
            &&& decoded(d, Ink::Dark)[y * w + x] == (if p + bpp - 1 >= d.len() {
                Pixel::White
            } else if bpp == 4 && d[p + 3] < 128 {
                Pixel::White
            } else if bright > 128 {
                Pixel::White
            } else {
                Pixel::Black
            })
        }),
{
    let w = bmp_width(d);
    let k = y * w + x;
    assert(k % w == x && k / w == y) by (nonlinear_arith)
        requires
            k == y * w + x,
            0 <= x < w,
            0 <= y,
    ;
    assert(0 <= k < w * bmp_height(d)) by (nonlinear_arith)
        requires
            k == y * w + x,
            0 <= x < w,
            0 <= y < bmp_height(d),
    ;
}

fn read_u16_le(data: &[u8], at: usize) -> (v: u128)
    requires
        at + 2 <= data@.len(),
    ensures
        v == le_u16(data@, at as int),
        v <= 0xffff,
{
    (data[at] as u128) + 256 * (data[at + 1] as u128)
}

fn read_u32_le(data: &[u8], at: usize) -> (v: u128)
    requires
        at + 4 <= data@.len(),
        at <= 64,
    ensures
        v == le_u32(data@, at as int),
        v <= 0xffff_ffff,
{
    let lo = read_u16_le(data, at);
    let hi = read_u16_le(data, at + 2);
    lo + 65536 * hi
}

fn luma(r: u8, g: u8, b: u8) -> (l: u32)
    ensures
        l == luminance(r, g, b),
{
    ((r as u32) * 299 + (g as u32) * 587 + (b as u32) * 114) / 1000
}

fn shade_of(lum: u32, ink: Ink) -> (p: Pixel)
    ensures
        p == shade(lum as int, ink),
{
    match ink {
        Ink::Dark => if lum > 128 {
            Pixel::White
        } else {
            Pixel::Black
        },
        Ink::Light => if lum > 128 {
            Pixel::Black
        } else {
            Pixel::White
        },
    }
}

/// The header fields that the decoder reads, as plain numbers.
struct Layout {
    width: u128,
    height: u128,
    depth: u128,
    offset: u128,
    row: u128,
}

impl Layout {
    spec fn of(&self, d: Seq<u8>) -> bool {
        &&& self.width == bmp_width(d)
        &&& self.height == bmp_height(d)
        &&& self.depth == bmp_depth(d)
        &&& self.offset == bmp_offset(d)
        &&& self.row == row_bytes(bmp_depth(d), bmp_width(d))
        &&& self.width <= 0xffff_ffff
        &&& self.height <= 0xffff_ffff
        &&& self.offset <= 0xffff_ffff
        &&& self.row <= 0x4_0000_0000
    }
}

fn read_layout(data: &[u8]) -> (l: Layout)
    requires
        has_signature(data@),
    ensures
        l.of(data@),
{
    let width = read_u32_le(data, 18);
    let height = read_u32_le(data, 22);
    let depth = read_u16_le(data, 28);
    let offset = read_u32_le(data, 10);
    let row = if depth == 32 {
        width * 4
    } else if depth == 24 {
        ((width * 3 + 3) / 4) * 4
    } else {
        ((width + 31) / 32) * 4
    };
    Layout { width, height, depth, offset, row }
}

fn pixel_of(data: &[u8], l: &Layout, ink: Ink, x: u128, y: u128) -> (p: Pixel)
    requires
        l.of(data@),
        x < l.width,
        y < l.height,
    ensures
        p == pixel_at(data@, ink, x as int, y as int),
{
    let len = data.len() as u128;
    assert((l.height - 1 - y) * l.row <= 0xffff_ffff * 0x4_0000_0000) by (nonlinear_arith)
        requires
            l.height <= 0xffff_ffff,
            y < l.height,
            l.row <= 0x4_0000_0000,
    ;
    let start = l.offset + (l.height - 1 - y) * l.row;
    if l.depth == 32 {
        let p = start + 4 * x;
        if p + 3 >= len {
            Pixel::White
        } else {
            let i = p as usize;
            if data[i + 3] < 128 {
                Pixel::White
            } else {
                shade_of(luma(data[i + 2], data[i + 1], data[i]), ink)
            }
        }
    } else if l.depth == 24 {
        let p = start + 3 * x;
        if p + 2 >= len {
            Pixel::White
        } else {
            let i = p as usize;
            shade_of(luma(data[i + 2], data[i + 1], data[i]), ink)
        }
    } else {
        let p = start + x / 8;
        if p >= len {
            Pixel::White
        } else {
            let bit = (7 - x % 8) as u8;
            if (data[p as usize] >> bit) & 1 == 1 {
                Pixel::Black
            } else {
                Pixel::White
            }
        }
    }
}

proof fn lemma_row_major(w: int, x: int, y: int)
    requires
        0 <= x < w,
        0 <= y,
    ensures
        (y * w + x) % w == x,
        (y * w + x) / w == y,
{
    vstd::arithmetic::div_mod::lemma_fundamental_div_mod_converse(y * w + x, w, y, x);
}

/// Decodes every pixel of the image, row by row from the top.
fn decode_pixels(data: &[u8], l: &Layout, ink: Ink) -> (pixels: Vec<Pixel>)
    requires
        l.of(data@),
    ensures
        pixels@ == decoded(data@, ink),
{
    let mut pixels: Vec<Pixel> = Vec::new();
    let mut y: u128 = 0;
    proof {
        assert(pixels@ =~= decoded_prefix(data@, ink, 0));
    }
    while y < l.height
        invariant
            l.of(data@),
            y <= l.height,
            pixels@ == decoded_prefix(data@, ink, y * l.width),
        decreases l.height - y,
    {
        let mut x: u128 = 0;
        while x < l.width
            invariant
                l.of(data@),
                y < l.height,
                x <= l.width,
                pixels@ == decoded_prefix(data@, ink, y * l.width + x),
            decreases l.width - x,
        {
            let p = pixel_of(data, l, ink, x, y);
            proof {
                lemma_row_major(l.width as int, x as int, y as int);
            }
            pixels.push(p);
            proof {
                assert(pixels@ =~= decoded_prefix(data@, ink, y * l.width + x + 1));
            }
            x = x + 1;
        }
        proof {
            assert(y * l.width + l.width == (y + 1) * l.width) by (nonlinear_arith);
        }
        y = y + 1;
    }
    proof {
        assert(y * l.width == l.width * l.height) by (nonlinear_arith)
            requires
                y == l.height,
        ;
    }
    pixels
}

fn header_ok(data: &[u8]) -> (b: bool)
    ensures
        b == has_signature(data@),
{
    data.len() >= 54 && data[0] == 0x42 && data[1] == 0x4D
}

/// Decodes a 32-, 24- or 1-bit BMP image for the display, dark areas black.
/// Gives the pixels row by row from the top, the width and the height; `None`
/// when the signature is missing, the pixel data would start past the end of
/// the file, or the depth is another.
pub fn parse_bmp(data: &[u8]) -> (r: Option<(Vec<Pixel>, usize, usize)>)
    ensures
        r is Some <==> (has_signature(data@) && bmp_offset(data@) < data@.len() && known_depth(
            bmp_depth(data@),
        )),
        r matches Some((px, w, h)) ==> px@ == decoded(data@, Ink::Dark) && w == bmp_width(data@)
            && h == bmp_height(data@),
{
    if !header_ok(data) {
        return None;
    }
    let l = read_layout(data);
    if l.offset >= data.len() as u128 {
        return None;
    }
    if l.depth != 32 && l.depth != 24 && l.depth != 1 {
        return None;
    }
    let pixels = decode_pixels(data, &l, Ink::Dark);
    Some((pixels, l.width as usize, l.height as usize))
}

/// Decodes a sprite image that must measure `expected_width` by
/// `expected_height`, as `parse_bmp` does; `None` also when the size differs.
pub fn parse_sprite_bmp(data: &[u8], expected_width: usize, expected_height: usize) -> (r: Option<
    Vec<Pixel>,
>)
    ensures
        r is Some <==> (has_signature(data@) && bmp_width(data@) == expected_width && bmp_height(
            data@,
        ) == expected_height && bmp_offset(data@) < data@.len() && known_depth(bmp_depth(data@))),
        r matches Some(px) ==> px@ == decoded(data@, Ink::Dark),
{
    if !header_ok(data) {
        return None;
    }
    let l = read_layout(data);
    if l.width != expected_width as u128 || l.height != expected_height as u128 {
        return None;
    }
    if l.offset >= data.len() as u128 {
        return None;
    }
    if l.depth != 32 && l.depth != 24 && l.depth != 1 {
        return None;
    }
    Some(decode_pixels(data, &l, Ink::Dark))
}

/// Decodes a 32- or 24-bit font sheet drawn light on dark: bright pixels
/// become black. `None` when the signature is missing, the pixel data would
/// start past the end of the file, or the depth is another.
pub fn parse_font_bmp(data: &[u8]) -> (r: Option<(Vec<Pixel>, usize, usize)>)
    ensures
        r is Some <==> (has_signature(data@) && bmp_offset(data@) < data@.len() && (bmp_depth(data@)
            == 32 || bmp_depth(data@) == 24)),
        r matches Some((px, w, h)) ==> px@ == decoded(data@, Ink::Light) && w == bmp_width(data@)
            && h == bmp_height(data@),
{
    if !header_ok(data) {
        return None;
    }
    let l = read_layout(data);
    if l.offset >= data.len() as u128 {
        return None;
    }
    if l.depth != 32 && l.depth != 24 {
        return None;
    }
    let pixels = decode_pixels(data, &l, Ink::Light);
    Some((pixels, l.width as usize, l.height as usize))
}

/// Decodes a 32-bit image with the given ink. `None` when the signature is
/// missing, the pixel data would start past the end of the file, or the
/// depth is another.
pub fn parse_rgba_bmp(data: &[u8], ink: Ink) -> (r: Option<(Vec<Pixel>, usize, usize)>)
    ensures
        r is Some <==> (has_signature(data@) && bmp_offset(data@) < data@.len() && bmp_depth(data@)
            == 32),
        r matches Some((px, w, h)) ==> px@ == decoded(data@, ink) && w == bmp_width(data@) && h
            == bmp_height(data@),
{
    if !header_ok(data) {
        return None;
    }
    let l = read_layout(data);
    if l.offset >= data.len() as u128 {
        return None;
    }
    if l.depth != 32 {
        return None;
    }
    let pixels = decode_pixels(data, &l, ink);
    Some((pixels, l.width as usize, l.height as usize))
}

/// Every pixel of a 32-bit image lies inside the file: the last byte of the
/// top row's last pixel, the farthest of all, is before the end.
pub open spec fn rgba_pixels_inside(d: Seq<u8>) -> bool {
    bmp_width(d) > 0 && bmp_height(d) > 0 ==> bmp_offset(d) + (bmp_height(d) - 1) * bmp_width(d)
        * 4 + (bmp_width(d) - 1) * 4 + 3 < d.len()
}

/// Tests `rgba_pixels_inside` for a file with a valid signature.
pub fn rgba_bmp_fits(data: &[u8]) -> (b: bool)
    requires
        has_signature(data@),
    ensures
        b == rgba_pixels_inside(data@),
{
    let l = read_layout(data);
    if l.width == 0 || l.height == 0 {
        return true;
    }
    assert((l.height - 1) * l.width * 4 <= 0xffff_ffff * 0xffff_ffff * 4) by (nonlinear_arith)
        requires
            l.height <= 0xffff_ffff,
            l.width <= 0xffff_ffff,
            l.height > 0,
    ;
    l.offset + (l.height - 1) * l.width * 4 + (l.width - 1) * 4 + 3 < data.len() as u128
}

/// Decodes a 32-bit image whose pixels all lie inside the file, dark areas
/// black. `None` when the signature is missing or the depth is another.
pub fn parse_rgba_bmp_inside(data: &[u8]) -> (r: Option<(Vec<Pixel>, usize, usize)>)
    requires
        has_signature(data@) && bmp_depth(data@) == 32 ==> rgba_pixels_inside(data@),
    ensures
        r is Some <==> (has_signature(data@) && bmp_depth(data@) == 32),
        r matches Some((px, w, h)) ==> px@ == decoded(data@, Ink::Dark) && w == bmp_width(data@)
            && h == bmp_height(data@),
{
    if !header_ok(data) {
        return None;
    }
    let l = read_layout(data);
    if l.depth != 32 {
        return None;
    }
    let pixels = decode_pixels(data, &l, Ink::Dark);
    Some((pixels, l.width as usize, l.height as usize))
}

} // verus!
