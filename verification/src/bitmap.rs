use vstd::prelude::*;
use crate::bmp::{Pixel, bit_set, bmp_depth, bmp_height, bmp_offset, bmp_width, has_signature, row_bytes};

verus! {

/// Row `y` (counted from the bottom, as stored) lies wholly inside the file.
pub open spec fn stored_row_fits(d: Seq<u8>, y: int) -> bool {
    bmp_offset(d) + y * row_bytes(1, bmp_width(d)) + row_bytes(1, bmp_width(d)) <= d.len()
}

/// The pixels of stored row `y` of a 1-bit image: a set bit is white.
pub open spec fn stored_row(d: Seq<u8>, y: int) -> Seq<Pixel> {
    Seq::new(
        bmp_width(d) as nat,
        |x: int|
            if bit_set(d[bmp_offset(d) + y * row_bytes(1, bmp_width(d)) + x / 8], (7 - x % 8) as u8) {
                Pixel::White
            } else {
                Pixel::Black
            },
    )
}

/// The pixels of the `n` top rows, from the top; a row that does not lie
/// wholly inside the file is left out.
pub open spec fn top_rows(d: Seq<u8>, n: int) -> Seq<Pixel>
    decreases n,
{
    if n <= 0 {
        Seq::empty()
    } else {
        let y = bmp_height(d) - n;
        top_rows(d, n - 1) + if stored_row_fits(d, y) {
            stored_row(d, y)
        } else {
            Seq::empty()
        }
    }
}

/// A decoded 1-bit image.
pub struct Bitmap {
    pub width: usize,
    pub height: usize,
    pub pixels: Vec<Pixel>,
}

fn read_u32_at(data: &[u8], at: usize) -> (v: u128)
    requires
        at + 4 <= data@.len(),
        at <= 64,
    ensures
        v == crate::bmp::le_u32(data@, at as int),
        v <= 0xffff_ffff,
{
    (data[at] as u128) + 256 * (data[at + 1] as u128) + 65536 * ((data[at + 2] as u128) + 256 * (
    data[at + 3] as u128))
}

impl Bitmap {
    /// Decodes a 1-bit BMP image, top row first, a set bit white. Rows whose
    /// bytes do not all lie inside the file are skipped. `None` when the
    /// signature is missing or the depth is not 1.
    pub fn parse(data: &[u8]) -> (r: Option<Self>)
        ensures
            r is Some <==> (has_signature(data@) && bmp_depth(data@) == 1),
            r matches Some(b) ==> b.width == bmp_width(data@) && b.height == bmp_height(data@)
                && b.pixels@ == top_rows(data@, bmp_height(data@)),
    {
        if !(data.len() >= 54 && data[0] == 0x42 && data[1] == 0x4D) {
            return None;
        }
        let offset = read_u32_at(data, 10);
        let width = read_u32_at(data, 18);
        let height = read_u32_at(data, 22);
        let depth = (data[28] as u128) + 256 * (data[29] as u128);
        if depth != 1 {
            return None;
        }
        let row = (width + 31) / 32 * 4;
        let len = data.len() as u128;
        let mut pixels: Vec<Pixel> = Vec::new();
        let mut n: u128 = 0;
        while n < height
            invariant
                has_signature(data@),
                bmp_depth(data@) == 1,
                offset == bmp_offset(data@),
                width == bmp_width(data@),
                height == bmp_height(data@),
                row == row_bytes(1, bmp_width(data@)),
                width <= 0xffff_ffff,
                height <= 0xffff_ffff,
                offset <= 0xffff_ffff,
                len == data@.len(),
                n <= height,
                pixels@ == top_rows(data@, n as int),
            decreases height - n,
        {
            let y = height - 1 - n;
            assert(y * row <= 0xffff_ffff * 0x2_0000_0000) by (nonlinear_arith)
                requires
                    y < 0xffff_ffff,
                    row <= 0x2_0000_0000,
            ;
            let start = offset + y * row;
            let ghost before = pixels@;
            if start + row <= len {
                let mut x: u128 = 0;
                while x < width
                    invariant
                        width == bmp_width(data@),
                        row == row_bytes(1, bmp_width(data@)),
                        start == bmp_offset(data@) + y * row,
                        start + row <= len,
                        len == data@.len(),
                        x <= width,
                        pixels@ == before + stored_row(data@, y as int).take(x as int),
                    decreases width - x,
                {
                    assert(x / 8 < row) by (nonlinear_arith)
                        requires
                            x < width,
                            row == (width + 31) / 32 * 4,
                    ;
                    let byte = data[(start + x / 8) as usize];
                    let bit = (7 - x % 8) as u8;
                    let p = if (byte >> bit) & 1 == 1 {
                        Pixel::White
                    } else {
                        Pixel::Black
                    };
                    pixels.push(p);
                    proof {
                        assert(pixels@ =~= before + stored_row(data@, y as int).take(x + 1));
                    }
                    x = x + 1;
                }
                proof {
                    assert(stored_row(data@, y as int).take(width as int) =~= stored_row(
                        data@,
                        y as int,
                    ));
                }
            } else {
                proof {
                    assert(pixels@ =~= before + Seq::<Pixel>::empty());
                }
            }
            n = n + 1;
        }
        Some(Bitmap { width: width as usize, height: height as usize, pixels })
    }
}

} // verus!
