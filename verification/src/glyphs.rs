use vstd::prelude::*;
use crate::bmp::Pixel;
use crate::utf8_text::{byte_len, prefix_byte_len};
use crate::char_class::{blank_line, is_whitespace, trim_end, trim_start, whitespace};

verus! {

/// Number of glyphs on a font sheet: the printable ASCII characters from
/// the space to the tilde, in code order.
pub const GLYPH_COUNT: usize = 95;

/// Horizontal gap between two characters, in pixels.
pub const LETTER_SPACING: usize = 2;

/// Widest line that wrapping allows, in pixels.
pub const MAX_LINE_WIDTH: usize = 380;

/// The character is one of the glyphs on the sheet (space to tilde).
pub open spec fn printable(c: char) -> bool {
    ' ' <= c && c <= '~'
}

/// The glyph of `c`: its place among the printable characters, or the
/// space (0) for any other character.
pub open spec fn glyph_index(c: char) -> int {
    if printable(c) {
        (c as u32) - 32
    } else {
        0
    }
}

/// Where `c` stands on the font sheet, or 0 for a character that is not
/// on it.
pub fn get_char_index(c: char) -> (i: usize)
    ensures
        i == glyph_index(c),
        i < GLYPH_COUNT,
{
    if ' ' <= c && c <= '~' {
        ((c as u32) - 32) as usize
    } else {
        0
    }
}

/// Where `c` stands on the font sheet, or `None` for a character that is
/// not on it.
pub fn find_glyph(c: char) -> (i: Option<usize>)
    ensures
        i == (if printable(c) {
            Some(glyph_index(c) as usize)
        } else {
            None::<usize>
        }),
{
    if ' ' <= c && c <= '~' {
        Some(((c as u32) - 32) as usize)
    } else {
        None
    }
}

/// Index into the sheet's pixels of column `dx`, row `dy` of the cell of
/// glyph `i`, on a sheet `fw` pixels wide with `cpr` cells of `cw` by `ch`
/// pixels per row.
pub open spec fn cell_pixel(fw: int, cw: int, ch: int, cpr: int, i: int, dx: int, dy: int) -> int {
    ((i / cpr) * ch + dy) * fw + (i % cpr) * cw + dx
}

/// Column `dx` of the cell of glyph `i` holds a black pixel.
pub open spec fn column_inked(
    p: Seq<Pixel>,
    fw: int,
    cw: int,
    ch: int,
    cpr: int,
    i: int,
    dx: int,
) -> bool {
    exists|dy: int|
        0 <= dy < ch && #[trigger] cell_pixel(fw, cw, ch, cpr, i, dx, dy) < p.len() && p[cell_pixel(
            fw,
            cw,
            ch,
            cpr,
            i,
            dx,
            dy,
        )] == Pixel::Black
}

/// The leftmost and rightmost inked columns among the first `n` columns of
/// the cell of glyph `i`, if any is inked.
pub open spec fn ink_span(
    p: Seq<Pixel>,
    fw: int,
    cw: int,
    ch: int,
    cpr: int,
    i: int,
    n: int,
) -> Option<(int, int)>
    decreases n,
{
    if n <= 0 {
        None
    } else {
        let s = ink_span(p, fw, cw, ch, cpr, i, n - 1);
        if column_inked(p, fw, cw, ch, cpr, i, n - 1) {
            match s {
                Some((l, _)) => Some((l, n - 1)),
                None => Some((n - 1, n - 1)),
            }
        } else {
            s
        }
    }
}

/// The measured width of glyph `i`: from its leftmost to its rightmost
/// inked column (at most the cell's width), or `blank` where no column is
/// inked. A cell of width 0 measures 0.
pub open spec fn measured_width(
    p: Seq<Pixel>,
    fw: int,
    cw: int,
    ch: int,
    cpr: int,
    i: int,
    blank: int,
) -> int {
    match ink_span(p, fw, cw, ch, cpr, i, cw) {
        Some((l, r)) => if r - l + 1 < cw {
            r - l + 1
        } else {
            cw
        },
        None => if cw == 0 {
            0
        } else {
            blank
        },
    }
}

/// The sheet's geometry keeps every pixel index within `usize`.
pub open spec fn sheet_fits(fw: int, cw: int, ch: int, cpr: int) -> bool {
    &&& 0 <= fw
    &&& 0 <= cw
    &&& 0 <= ch
    &&& 0 < cpr
    &&& (94int / cpr + 1) * ch <= usize::MAX
    &&& (94int / cpr + 1) * ch * fw + cpr * cw <= usize::MAX
}

proof fn lemma_cell_pixel_fits(fw: int, cw: int, ch: int, cpr: int, i: int, dx: int, dy: int)
    requires
        sheet_fits(fw, cw, ch, cpr),
        0 <= i < 95,
        0 <= dx < cw,
        0 <= dy < ch,
    ensures
        0 <= cell_pixel(fw, cw, ch, cpr, i, dx, dy) < (94int / cpr + 1) * ch * fw + cpr * cw,
        (i / cpr) * ch + dy < (94int / cpr + 1) * ch,
{
    vstd::arithmetic::div_mod::lemma_div_is_ordered(i, 94, cpr);
    vstd::arithmetic::div_mod::lemma_mod_pos_bound(i, cpr);
    vstd::arithmetic::div_mod::lemma_div_pos_is_pos(i, cpr);
    let g = i / cpr;
    let gm = 94int / cpr;
    let r = i % cpr;
    assert(g * ch + dy < (gm + 1) * ch) by (nonlinear_arith)
        requires
            0 <= g <= gm,
            0 <= dy < ch,
    ;
    assert(0 <= (g * ch + dy) * fw <= ((gm + 1) * ch) * fw) by (nonlinear_arith)
        requires
            0 <= g * ch + dy < (gm + 1) * ch,
            0 <= fw,
    ;
    assert(0 <= r * cw + dx < cpr * cw) by (nonlinear_arith)
        requires
            0 <= r < cpr,
            0 <= dx < cw,
    ;
    assert(((gm + 1) * ch) * fw == (gm + 1) * ch * fw) by (nonlinear_arith);
}

/// The leftmost and rightmost inked columns of the cell of glyph `i`;
/// (`char_width`, 0) where no column is inked.
pub fn glyph_span(
    pixels: &[Pixel],
    font_width: usize,
    char_width: usize,
    char_height: usize,
    chars_per_row: usize,
    i: usize,
) -> (r: (usize, usize))
    requires
        sheet_fits(font_width as int, char_width as int, char_height as int, chars_per_row as int),
        i < GLYPH_COUNT,
    ensures
        (r.0 as int, r.1 as int) == match ink_span(
            pixels@,
            font_width as int,
            char_width as int,
            char_height as int,
            chars_per_row as int,
            i as int,
            char_width as int,
        ) {
            Some((l, rr)) => (l, rr),
            None => (char_width as int, 0),
        },
        match ink_span(
            pixels@,
            font_width as int,
            char_width as int,
            char_height as int,
            chars_per_row as int,
            i as int,
            char_width as int,
        ) {
            Some((l, rr)) => 0 <= l <= rr < char_width,
            None => true,
        },
{
    let ghost p = pixels@;
    let ghost fw = font_width as int;
    let ghost cw = char_width as int;
    let ghost ch = char_height as int;
    let ghost cpr = chars_per_row as int;
    let grid_x = i % chars_per_row;
    let grid_y = i / chars_per_row;
    proof {
        if cw > 0 && ch > 0 {
            lemma_cell_pixel_fits(fw, cw, ch, cpr, i as int, 0, 0);
        }
        vstd::arithmetic::div_mod::lemma_mod_pos_bound(i as int, cpr);
        vstd::arithmetic::div_mod::lemma_div_is_ordered(i as int, 94, cpr);
        assert(grid_x * cw <= cpr * cw) by (nonlinear_arith)
            requires
                0 <= grid_x < cpr,
                0 <= cw,
        ;
        assert(grid_y * ch <= (94int / cpr + 1) * ch) by (nonlinear_arith)
            requires
                0 <= grid_y <= 94int / cpr,
                0 <= ch,
        ;
        assert((94int / cpr + 1) * ch <= (94int / cpr + 1) * ch * fw || fw == 0) by (nonlinear_arith)
            requires
                0 <= ch,
                0 <= fw,
                0 <= 94int / cpr,
        ;
    }
    let mut leftmost: usize = char_width;
    let mut rightmost: usize = 0;
    let mut dx: usize = 0;
    while dx < char_width
        invariant
            p == pixels@,
            fw == font_width,
            cw == char_width,
            ch == char_height,
            cpr == chars_per_row,
            sheet_fits(fw, cw, ch, cpr),
            i < GLYPH_COUNT,
            grid_x == i % chars_per_row,
            grid_y == i / chars_per_row,
            dx <= char_width,
            (leftmost as int, rightmost as int) == match ink_span(p, fw, cw, ch, cpr, i as int, dx as int) {
                Some((l, r)) => (l, r),
                None => (cw, 0),
            },
            match ink_span(p, fw, cw, ch, cpr, i as int, dx as int) {
                Some((l, r)) => 0 <= l <= r < dx,
                None => true,
            },
        decreases char_width - dx,
    {
        let ghost span = ink_span(p, fw, cw, ch, cpr, i as int, dx as int);
        let mut dy: usize = 0;
        while dy < char_height
            invariant
                p == pixels@,
                fw == font_width,
                cw == char_width,
                ch == char_height,
                cpr == chars_per_row,
                sheet_fits(fw, cw, ch, cpr),
                i < GLYPH_COUNT,
                grid_x == i % chars_per_row,
                grid_y == i / chars_per_row,
                dx < char_width,
                dy <= char_height,
                span == ink_span(p, fw, cw, ch, cpr, i as int, dx as int),
                match span {
                    Some((l, r)) => 0 <= l <= r < dx,
                    None => true,
                },
                (leftmost as int, rightmost as int) == if exists|d: int|
                    0 <= d < dy && #[trigger] cell_pixel(fw, cw, ch, cpr, i as int, dx as int, d)
                        < p.len() && p[cell_pixel(fw, cw, ch, cpr, i as int, dx as int, d)]
                        == Pixel::Black {
                    match span {
                        Some((l, _)) => (l, dx as int),
                        None => (dx as int, dx as int),
                    }
                } else {
                    match span {
                        Some((l, r)) => (l, r),
                        None => (cw, 0),
                    }
                },
            decreases char_height - dy,
        {
            proof {
                lemma_cell_pixel_fits(fw, cw, ch, cpr, i as int, dx as int, dy as int);
            }
            let index = (grid_y * char_height + dy) * font_width + grid_x * char_width + dx;
            if index < pixels.len() && pixels[index] == Pixel::Black {
                if dx < leftmost {
                    leftmost = dx;
                }
                if dx > rightmost {
                    rightmost = dx;
                }
                proof {
                    assert(cell_pixel(fw, cw, ch, cpr, i as int, dx as int, dy as int) == index);
                }
            }
            dy = dy + 1;
        }
        dx = dx + 1;
    }
    (leftmost, rightmost)
}

proof fn lemma_cell_pixel_le(fw: int, cw: int, ch: int, cpr: int, i: int, dx: int, dy: int)
    requires
        sheet_fits(fw, cw, ch, cpr),
        0 <= i < 95,
        0 <= dx <= cw,
        0 <= dy < ch,
    ensures
        0 <= cell_pixel(fw, cw, ch, cpr, i, dx, dy) <= usize::MAX,
{
    vstd::arithmetic::div_mod::lemma_div_is_ordered(i, 94, cpr);
    vstd::arithmetic::div_mod::lemma_mod_pos_bound(i, cpr);
    vstd::arithmetic::div_mod::lemma_div_pos_is_pos(i, cpr);
    let g = i / cpr;
    let gm = 94int / cpr;
    let r = i % cpr;
    assert(0 <= (g * ch + dy) * fw <= (gm + 1) * ch * fw) by (nonlinear_arith)
        requires
            0 <= g <= gm,
            0 <= dy < ch,
            0 <= fw,
    ;
    assert(0 <= r * cw + dx <= cpr * cw) by (nonlinear_arith)
        requires
            0 <= r < cpr,
            0 <= dx <= cw,
    ;
}

/// The span that drawing uses: the inked columns, or (`cw`, 0) where no
/// column is inked.
pub open spec fn drawn_span(p: Seq<Pixel>, fw: int, cw: int, ch: int, cpr: int, i: int) -> (int, int) {
    match ink_span(p, fw, cw, ch, cpr, i, cw) {
        Some((l, r)) => (l, r),
        None => (cw, 0),
    }
}

/// Glyph `i` drawn at a point paints offset (`ox`, `oy`) from it: where
/// its span is not empty, the pixels equal to `want` of its cell from the
/// span's left edge to its right edge (with `crop`, to no more than `crop`
/// columns), moved left so that the span starts at offset 0.
pub open spec fn glyph_paints(
    p: Seq<Pixel>,
    fw: int,
    cw: int,
    ch: int,
    cpr: int,
    i: int,
    crop: Option<usize>,
    want: Pixel,
    ox: int,
    oy: int,
) -> bool {
    let (l, r) = drawn_span(p, fw, cw, ch, cpr, i);
    let hi = match crop {
        Some(w) => if l + w - 1 < r {
            l + w - 1
        } else {
            r
        },
        None => r,
    };
    &&& r >= l
    &&& 0 <= oy < ch
    &&& 0 <= ox
    &&& l + ox <= hi
    &&& cell_pixel(fw, cw, ch, cpr, i, l + ox, oy) < p.len()
    &&& p[cell_pixel(fw, cw, ch, cpr, i, l + ox, oy)] == want
}

/// The offsets that glyph `i` paints; see `glyph_paints`.
pub fn glyph_points(
    pixels: &[Pixel],
    font_width: usize,
    char_width: usize,
    char_height: usize,
    chars_per_row: usize,
    i: usize,
    crop: Option<usize>,
    want: Pixel,
) -> (pts: Vec<(usize, usize)>)
    requires
        sheet_fits(font_width as int, char_width as int, char_height as int, chars_per_row as int),
        i < GLYPH_COUNT,
        crop matches Some(w) ==> ({
            let (l, r) = drawn_span(
                pixels@,
                font_width as int,
                char_width as int,
                char_height as int,
                chars_per_row as int,
                i as int,
            );
            r >= l ==> l + w >= 1
        }),
    ensures
        forall|k: int|
            0 <= k < pts@.len() ==> glyph_paints(
                pixels@,
                font_width as int,
                char_width as int,
                char_height as int,
                chars_per_row as int,
                i as int,
                crop,
                want,
                (#[trigger] pts@[k]).0 as int,
                pts@[k].1 as int,
            ),
        forall|ox: int, oy: int|
            #[trigger] glyph_paints(
                pixels@,
                font_width as int,
                char_width as int,
                char_height as int,
                chars_per_row as int,
                i as int,
                crop,
                want,
                ox,
                oy,
            ) ==> pts@.contains((ox as usize, oy as usize)),
{
    let ghost p = pixels@;
    let ghost fw = font_width as int;
    let ghost cw = char_width as int;
    let ghost ch = char_height as int;
    let ghost cpr = chars_per_row as int;
    let (l, r) = glyph_span(pixels, font_width, char_width, char_height, chars_per_row, i);
    let mut pts: Vec<(usize, usize)> = Vec::new();
    if r < l {
        return pts;
    }
    let hi = match crop {
        Some(w) => if w <= r - l {
            l + w - 1
        } else {
            r
        },
        None => r,
    };
    let grid_x = i % chars_per_row;
    let grid_y = i / chars_per_row;
    proof {
        vstd::arithmetic::div_mod::lemma_mod_pos_bound(i as int, cpr);
        vstd::arithmetic::div_mod::lemma_div_is_ordered(i as int, 94, cpr);
        assert(hi <= r && (r < cw || (r == 0 && l == cw)));
    }
    let mut dy: usize = 0;
    while dy < char_height
        invariant
            p == pixels@,
            fw == font_width,
            cw == char_width,
            ch == char_height,
            cpr == chars_per_row,
            sheet_fits(fw, cw, ch, cpr),
            i < GLYPH_COUNT,
            grid_x == i % chars_per_row,
            grid_y == i / chars_per_row,
            (l as int, r as int) == drawn_span(p, fw, cw, ch, cpr, i as int),
            r >= l,
            hi as int == (match crop {
                Some(w) => if l + w - 1 < r {
                    l + w - 1
                } else {
                    r as int
                },
                None => r as int,
            }),
            hi <= r,
            r < cw || (r == 0 && l == cw),
            dy <= char_height,
            forall|k: int|
                0 <= k < pts@.len() ==> glyph_paints(p, fw, cw, ch, cpr, i as int, crop, want, (#[trigger] pts@[k]).0 as int, pts@[k].1 as int),
            forall|ox: int, oy: int|
                #[trigger] glyph_paints(p, fw, cw, ch, cpr, i as int, crop, want, ox, oy) && oy < dy ==> pts@.contains(
                    (ox as usize, oy as usize),
                ),
        decreases char_height - dy,
    {
        let mut dx: usize = l;
        while dx <= hi
            invariant
                p == pixels@,
                fw == font_width,
                cw == char_width,
                ch == char_height,
                cpr == chars_per_row,
                sheet_fits(fw, cw, ch, cpr),
                i < GLYPH_COUNT,
                grid_x == i % chars_per_row,
                grid_y == i / chars_per_row,
                (l as int, r as int) == drawn_span(p, fw, cw, ch, cpr, i as int),
                r >= l,
                hi as int == (match crop {
                    Some(w) => if l + w - 1 < r {
                        l + w - 1
                    } else {
                        r as int
                    },
                    None => r as int,
                }),
                hi <= r,
                r < cw || (r == 0 && l == cw),
                dy < char_height,
                l <= dx <= hi + 1,
                forall|k: int|
                    0 <= k < pts@.len() ==> glyph_paints(p, fw, cw, ch, cpr, i as int, crop, want, (#[trigger] pts@[k]).0 as int, pts@[k].1 as int),
                forall|ox: int, oy: int|
                    #[trigger] glyph_paints(p, fw, cw, ch, cpr, i as int, crop, want, ox, oy) && (oy < dy || (oy == dy
                        && l + ox < dx)) ==> pts@.contains((ox as usize, oy as usize)),
            decreases hi + 1 - dx,
        {
            proof {
                lemma_cell_pixel_le(fw, cw, ch, cpr, i as int, dx as int, dy as int);
                vstd::arithmetic::div_mod::lemma_mod_pos_bound(i as int, cpr);
                vstd::arithmetic::div_mod::lemma_div_is_ordered(i as int, 94, cpr);
                let gx = grid_x as int;
                let gy = grid_y as int;
                let x = dx as int;
                let y = dy as int;
                let gm = 94int / cpr;
                assert(0 <= gx < cpr);
                assert(0 <= gy <= gm);
                assert(0 <= gx * cw + x <= cpr * cw) by (nonlinear_arith)
                    requires
                        0 <= gx < cpr,
                        0 <= x <= cw,
                ;
                assert(0 <= gy * ch + y <= (gm + 1) * ch) by (nonlinear_arith)
                    requires
                        0 <= gy <= gm,
                        0 <= y < ch,
                ;
                assert(0 <= (gy * ch + y) * fw <= (gm + 1) * ch * fw) by (nonlinear_arith)
                    requires
                        0 <= gy * ch + y <= (gm + 1) * ch,
                        0 <= fw,
                ;
                assert(0 <= (gm + 1) * ch * fw) by (nonlinear_arith)
                    requires
                        0 <= gm,
                        0 <= ch,
                        0 <= fw,
                ;
                assert(0 <= gy * ch) by (nonlinear_arith)
                    requires
                        0 <= gy,
                        0 <= ch,
                ;
                assert(0 <= gx * cw) by (nonlinear_arith)
                    requires
                        0 <= gx,
                        0 <= cw,
                ;
            }
            let index = (grid_y * char_height + dy) * font_width + grid_x * char_width + dx;
            let ghost before = pts@;
            if index < pixels.len() && pixels[index] == want {
                pts.push((dx - l, dy));
                proof {
                    assert(cell_pixel(fw, cw, ch, cpr, i as int, dx as int, dy as int) == index);
                    assert(pts@[pts@.len() - 1] == (((dx - l) as usize), dy));
                    assert forall|k: int| 0 <= k < pts@.len() implies glyph_paints(p, fw, cw, ch, cpr, i as int, crop, want, (#[trigger] pts@[k]).0 as int, pts@[k].1 as int) by {
                        if k < before.len() {
                            assert(pts@[k] == before[k]);
                        }
                    }
                    assert forall|ox: int, oy: int| #[trigger] glyph_paints(p, fw, cw, ch, cpr, i as int, crop, want, ox, oy) && (oy < dy || (oy == dy
                        && l + ox < dx + 1)) implies pts@.contains((ox as usize, oy as usize)) by {
                        if oy == dy && l + ox == dx {
                            assert(pts@[pts@.len() - 1] == (ox as usize, oy as usize));
                        } else {
                            assert(before.contains((ox as usize, oy as usize)));
                            let k = choose|k: int| 0 <= k < before.len() && before[k] == (ox as usize, oy as usize);
                            assert(pts@[k] == before[k]);
                        }
                    }
                }
            } else {
                proof {
                    assert(cell_pixel(fw, cw, ch, cpr, i as int, dx as int, dy as int) == index);
                }
            }
            dx = dx + 1;
        }
        dy = dy + 1;
    }
    pts
}

/// Measures each glyph of a font sheet: the span of its inked columns, or
/// `blank` for a glyph with no ink.
pub fn measure_char_widths(
    pixels: &[Pixel],
    font_width: usize,
    char_width: usize,
    char_height: usize,
    chars_per_row: usize,
    blank: usize,
) -> (widths: Vec<usize>)
    requires
        sheet_fits(font_width as int, char_width as int, char_height as int, chars_per_row as int),
    ensures
        widths@.len() == GLYPH_COUNT,
        forall|i: int|
            0 <= i < GLYPH_COUNT ==> #[trigger] widths@[i] == measured_width(
                pixels@,
                font_width as int,
                char_width as int,
                char_height as int,
                chars_per_row as int,
                i,
                blank as int,
            ),
{
    let ghost p = pixels@;
    let ghost fw = font_width as int;
    let ghost cw = char_width as int;
    let ghost ch = char_height as int;
    let ghost cpr = chars_per_row as int;
    let mut widths: Vec<usize> = Vec::new();
    let mut i: usize = 0;
    while i < GLYPH_COUNT
        invariant
            p == pixels@,
            fw == font_width,
            cw == char_width,
            ch == char_height,
            cpr == chars_per_row,
            sheet_fits(fw, cw, ch, cpr),
            i <= GLYPH_COUNT,
            widths@.len() == i,
            forall|j: int|
                0 <= j < i ==> #[trigger] widths@[j] == measured_width(p, fw, cw, ch, cpr, j, blank as int),
        decreases GLYPH_COUNT - i,
    {
        let (leftmost, rightmost) = glyph_span(pixels, font_width, char_width, char_height, chars_per_row, i);
        let w = if rightmost >= leftmost {
            let span_width = rightmost - leftmost + 1;
            if span_width < char_width {
                span_width
            } else {
                char_width
            }
        } else {
            blank
        };
        widths.push(w);
        i = i + 1;
    }
    widths
}

/// Width of `c` in pixels: its glyph's measured width, or `fallback` where
/// the glyph was not measured.
pub open spec fn width_of(widths: Seq<usize>, fallback: int, c: char) -> int {
    if glyph_index(c) < widths.len() {
        widths[glyph_index(c)] as int
    } else {
        fallback
    }
}

/// Total advance of `s`: each character's width plus the letter spacing.
pub open spec fn advance(widths: Seq<usize>, fallback: int, s: Seq<char>) -> int
    decreases s.len(),
{
    if s.len() == 0 {
        0
    } else {
        advance(widths, fallback, s.drop_last()) + width_of(widths, fallback, s.last()) + 2
    }
}

/// Width of `s` drawn on one line: the advances without the spacing after
/// the last character.
pub open spec fn text_width_of(widths: Seq<usize>, fallback: int, s: Seq<char>) -> int {
    if advance(widths, fallback, s) > 0 {
        advance(widths, fallback, s) - 2
    } else {
        0
    }
}

pub proof fn lemma_advance_concat(widths: Seq<usize>, fallback: int, a: Seq<char>, b: Seq<char>)
    requires
        fallback >= 0,
    ensures
        advance(widths, fallback, a + b) == advance(widths, fallback, a) + advance(widths, fallback, b),
        advance(widths, fallback, a) >= 2 * a.len(),
    decreases b.len(),
{
    if b.len() == 0 {
        assert(a + b =~= a);
        lemma_advance_lower(widths, fallback, a);
    } else {
        assert((a + b).drop_last() =~= a + b.drop_last());
        lemma_advance_concat(widths, fallback, a, b.drop_last());
    }
}

proof fn lemma_advance_lower(widths: Seq<usize>, fallback: int, a: Seq<char>)
    requires
        fallback >= 0,
    ensures
        advance(widths, fallback, a) >= 2 * a.len(),
    decreases a.len(),
{
    if a.len() > 0 {
        lemma_advance_lower(widths, fallback, a.drop_last());
    }
}

/// A part of `s` that ends where `s` ends advances no more than `s`.
proof fn lemma_advance_suffix(widths: Seq<usize>, fallback: int, s: Seq<char>, k: int)
    requires
        fallback >= 0,
        0 <= k <= s.len(),
    ensures
        advance(widths, fallback, s.skip(k)) <= advance(widths, fallback, s),
{
    assert(s =~= s.take(k) + s.skip(k));
    lemma_advance_concat(widths, fallback, s.take(k), s.skip(k));
}

pub(crate) fn glyph_width(widths: &[usize], fallback: usize, c: char) -> (w: usize)
    ensures
        w == width_of(widths@, fallback as int, c),
{
    let i = get_char_index(c);
    if i < widths.len() {
        widths[i]
    } else {
        fallback
    }
}

/// Width in pixels of `text` drawn on one line: each character's width
/// (`fallback` for one whose glyph was not measured) with the letter
/// spacing between characters.
pub fn text_width(widths: &[usize], fallback: usize, text: &[char]) -> (w: usize)
    requires
        advance(widths@, fallback as int, text@) <= usize::MAX,
    ensures
        w == text_width_of(widths@, fallback as int, text@),
{
    let mut total: usize = 0;
    let mut i: usize = 0;
    while i < text.len()
        invariant
            i <= text@.len(),
            total == advance(widths@, fallback as int, text@.take(i as int)),
            advance(widths@, fallback as int, text@) <= usize::MAX,
        decreases text@.len() - i,
    {
        proof {
            assert(text@.take(i + 1).drop_last() =~= text@.take(i as int));
            assert(text@ =~= text@.take(i + 1) + text@.skip(i + 1));
            lemma_advance_concat(widths@, fallback as int, text@.take(i + 1), text@.skip(i + 1));
            lemma_advance_lower(widths@, fallback as int, text@.skip(i + 1));
        }
        total = total + glyph_width(widths, fallback, text[i]) + LETTER_SPACING;
        i = i + 1;
    }
    proof {
        assert(text@.take(i as int) =~= text@);
        lemma_advance_lower(widths@, fallback as int, text@);
    }
    if total > 0 {
        total - LETTER_SPACING
    } else {
        0
    }
}

/// Where wrapping stands after some characters: the finished lines, the
/// line being filled, its width so far, and the length of its part up to
/// and including its last whitespace (0 for none).
pub struct WrapState {
    pub done: Seq<Seq<char>>,
    pub cur: Seq<char>,
    pub width: int,
    pub split: int,
}

/// Wrapping takes character `c`. Where it would make the line wider than
/// `MAX_LINE_WIDTH`, the line is broken after its last whitespace (the
/// finished part loses its trailing whitespace, the carried part its
/// leading whitespace), or just before `c` where it has none.
pub open spec fn wrap_step(widths: Seq<usize>, st: WrapState, c: char) -> WrapState {
    let w = width_of(widths, 8, c) + 2;
    if st.width + w > MAX_LINE_WIDTH && st.cur.len() > 0 {
        if st.split > 0 {
            let rest = trim_start(st.cur.skip(st.split));
            WrapState {
                done: st.done.push(trim_end(st.cur.take(st.split))),
                cur: rest.push(c),
                width: text_width_of(widths, 8, rest) + 2 + w,
                split: 0,
            }
        } else {
            WrapState { done: st.done.push(st.cur), cur: seq![c], width: w, split: 0 }
        }
    } else {
        WrapState {
            done: st.done,
            cur: st.cur.push(c),
            width: st.width + w,
            split: if whitespace(c) {
                st.cur.len() + 1int
            } else {
                st.split
            },
        }
    }
}

/// Wrapping after every character of `s`.
pub open spec fn wrap_fold(widths: Seq<usize>, s: Seq<char>) -> WrapState
    decreases s.len(),
{
    if s.len() == 0 {
        WrapState { done: Seq::empty(), cur: Seq::empty(), width: 0, split: 0 }
    } else {
        wrap_step(widths, wrap_fold(widths, s.drop_last()), s.last())
    }
}

/// The display lines of `line`: one empty line for a blank one, else the
/// finished lines of wrapping and the last line being filled.
pub open spec fn wrapped(widths: Seq<usize>, line: Seq<char>) -> Seq<Seq<char>> {
    if blank_line(line) {
        seq![Seq::<char>::empty()]
    } else {
        let st = wrap_fold(widths, line);
        if st.cur.len() > 0 {
            st.done.push(st.cur)
        } else {
            st.done
        }
    }
}

proof fn lemma_trim_start_suffix(s: Seq<char>)
    ensures
        trim_start(s).len() <= s.len(),
        trim_start(s) == s.skip(s.len() - trim_start(s).len()),
    decreases s.len(),
{
    if s.len() > 0 && whitespace(s[0]) {
        lemma_trim_start_suffix(s.drop_first());
        assert(s.drop_first().skip(s.drop_first().len() - trim_start(s).len()) =~= s.skip(
            s.len() - trim_start(s).len(),
        ));
    } else {
        assert(s.skip(0) =~= s);
    }
}

/// The part of `s` from `from` on, without its leading whitespace.
fn trimmed_tail(s: &Vec<char>, from: usize) -> (r: Vec<char>)
    requires
        from <= s@.len(),
    ensures
        r@ == trim_start(s@.skip(from as int)),
{
    let mut k = from;
    while k < s.len() && is_whitespace(s[k])
        invariant
            from <= k <= s@.len(),
            trim_start(s@.skip(from as int)) == trim_start(s@.skip(k as int)),
        decreases s@.len() - k,
    {
        proof {
            assert(s@.skip(k as int).drop_first() =~= s@.skip(k + 1));
        }
        k = k + 1;
    }
    let mut r: Vec<char> = Vec::new();
    let mut j = k;
    while j < s.len()
        invariant
            k <= j <= s@.len(),
            r@ == s@.subrange(k as int, j as int),
        decreases s@.len() - j,
    {
        r.push(s[j]);
        proof {
            assert(r@ =~= s@.subrange(k as int, j + 1));
        }
        j = j + 1;
    }
    proof {
        assert(r@ =~= s@.skip(k as int));
    }
    r
}

/// The first `upto` characters of `s`, without their trailing whitespace.
fn trimmed_head(s: &Vec<char>, upto: usize) -> (r: Vec<char>)
    requires
        upto <= s@.len(),
    ensures
        r@ == trim_end(s@.take(upto as int)),
{
    let mut e = upto;
    while e > 0 && is_whitespace(s[e - 1])
        invariant
            e <= upto <= s@.len(),
            trim_end(s@.take(upto as int)) == trim_end(s@.take(e as int)),
        decreases e,
    {
        proof {
            assert(s@.take(e as int).drop_last() =~= s@.take(e - 1));
        }
        e = e - 1;
    }
    let mut r: Vec<char> = Vec::new();
    let mut j: usize = 0;
    while j < e
        invariant
            j <= e <= s@.len(),
            r@ == s@.take(j as int),
        decreases e - j,
    {
        r.push(s[j]);
        proof {
            assert(r@ =~= s@.take(j + 1));
        }
        j = j + 1;
    }
    r
}

fn all_whitespace(line: &[char]) -> (b: bool)
    ensures
        b == blank_line(line@),
{
    let mut i: usize = 0;
    while i < line.len()
        invariant
            i <= line@.len(),
            forall|j: int| 0 <= j < i ==> whitespace(#[trigger] line@[j]),
        decreases line@.len() - i,
    {
        if !is_whitespace(line[i]) {
            return false;
        }
        i = i + 1;
    }
    true
}

/// Breaks `line` into display lines no wider than `MAX_LINE_WIDTH` where it
/// can, at whitespace where there is some (characters without a measured
/// glyph count 8 pixels wide).
pub fn wrap_line(widths: &[usize], line: &[char]) -> (lines: Vec<Vec<char>>)
    requires
        advance(widths@, 8, line@) + 2 <= usize::MAX,
    ensures
        lines@.map_values(|l: Vec<char>| l@) == wrapped(widths@, line@),
{
    if all_whitespace(line) {
        let mut one: Vec<Vec<char>> = Vec::new();
        one.push(Vec::new());
        proof {
            assert(one@.map_values(|l: Vec<char>| l@) =~= seq![Seq::<char>::empty()]);
        }
        return one;
    }
    let mut result: Vec<Vec<char>> = Vec::new();
    let mut cur: Vec<char> = Vec::new();
    let mut width: usize = 0;
    let mut split: usize = 0;
    let mut i: usize = 0;
    proof {
        assert(line@.take(0) =~= Seq::<char>::empty());
        assert(result@.map_values(|l: Vec<char>| l@) =~= Seq::<Seq<char>>::empty());
    }
    while i < line.len()
        invariant
            i <= line@.len(),
            advance(widths@, 8, line@) + 2 <= usize::MAX,
            wrap_fold(widths@, line@.take(i as int)) == (WrapState {
                done: result@.map_values(|l: Vec<char>| l@),
                cur: cur@,
                width: width as int,
                split: split as int,
            }),
            cur@.len() <= i,
            cur@ == line@.take(i as int).skip(i - cur@.len()),
            width <= advance(widths@, 8, cur@) + 2,
            split <= cur@.len(),
        decreases line@.len() - i,
    {
        let c = line[i];
        let ghost prefix = line@.take(i + 1);
        proof {
            assert(prefix.drop_last() =~= line@.take(i as int));
            assert(prefix.last() == c);
            assert(cur@.push(c) =~= prefix.skip(i + 1 - (cur@.len() + 1)));
            lemma_advance_suffix(widths@, 8, prefix, i + 1 - (cur@.len() + 1));
            assert(line@ =~= prefix + line@.skip(i + 1));
            lemma_advance_concat(widths@, 8, prefix, line@.skip(i + 1));
            lemma_advance_concat(widths@, 8, prefix.drop_last(), seq![c]);
            assert(prefix.drop_last() + seq![c] =~= prefix);
            assert(cur@.push(c).drop_last() =~= cur@);
            lemma_advance_lower(widths@, 8, line@.skip(i + 1));
        }
        let w = glyph_width(widths, 8, c) + LETTER_SPACING;
        if width + w > MAX_LINE_WIDTH && cur.len() > 0 {
            if split > 0 {
                let keep = trimmed_head(&cur, split);
                let rest = trimmed_tail(&cur, split);
                proof {
                    lemma_trim_start_suffix(cur@.skip(split as int));
                    assert(rest@ =~= cur@.skip(cur@.len() - rest@.len()));
                    lemma_advance_suffix(widths@, 8, cur@, cur@.len() - rest@.len());
                    assert(rest@.push(c) =~= prefix.skip(i + 1 - (rest@.len() + 1)));
                    lemma_advance_concat(widths@, 8, rest@, seq![c]);
                    assert(rest@.push(c) =~= rest@ + seq![c]);
                    lemma_advance_lower(widths@, 8, rest@);
                    assert(seq![c].drop_last() =~= Seq::<char>::empty());
                }
                let rest_width = text_width(widths, 8, rest.as_slice());
                result.push(keep);
                cur = rest;
                width = rest_width + LETTER_SPACING;
                cur.push(c);
                width = width + w;
            } else {
                let done = cur;
                result.push(done);
                cur = Vec::new();
                cur.push(c);
                width = w;
                proof {
                    assert(cur@ =~= seq![c]);
                    assert(cur@ =~= prefix.skip(i + 1 - 1));
                    assert(seq![c].drop_last() =~= Seq::<char>::empty());
                }
            }
            split = 0;
        } else {
            cur.push(c);
            width = width + w;
            if is_whitespace(c) {
                split = cur.len();
            }
        }
        proof {
            assert(wrap_fold(widths@, prefix) == wrap_step(widths@, wrap_fold(widths@, prefix.drop_last()), c));
            assert(result@.map_values(|l: Vec<char>| l@) =~= wrap_fold(widths@, prefix).done);
        }
        i = i + 1;
    }
    proof {
        assert(line@.take(i as int) =~= line@);
    }
    if cur.len() > 0 {
        let last = cur;
        result.push(last);
        proof {
            assert(result@.map_values(|l: Vec<char>| l@) =~= wrap_fold(widths@, line@).done.push(
                wrap_fold(widths@, line@).cur,
            ));
        }
    }
    result
}

/// `x` occurs in `s` as a run of consecutive characters.
pub open spec fn is_piece(x: Seq<char>, s: Seq<char>) -> bool {
    exists|a: int| 0 <= a && a + x.len() <= s.len() && #[trigger] s.subrange(a, a + x.len()) == x
}

/// Total number of characters of the lines `ls`.
pub open spec fn total_len(ls: Seq<Seq<char>>) -> int
    decreases ls.len(),
{
    if ls.len() == 0 {
        0
    } else {
        total_len(ls.drop_last()) + ls.last().len()
    }
}

proof fn lemma_trim_end_prefix(s: Seq<char>)
    ensures
        trim_end(s).len() <= s.len(),
        trim_end(s) == s.take(trim_end(s).len() as int),
    decreases s.len(),
{
    if s.len() > 0 && whitespace(s.last()) {
        lemma_trim_end_prefix(s.drop_last());
        assert(s.drop_last().take(trim_end(s).len() as int) =~= s.take(trim_end(s).len() as int));
    } else {
        assert(s.take(s.len() as int) =~= s);
    }
}

proof fn lemma_piece_grows(x: Seq<char>, s: Seq<char>, c: char)
    requires
        is_piece(x, s),
    ensures
        is_piece(x, s.push(c)),
{
    let a = choose|a: int| 0 <= a && a + x.len() <= s.len() && #[trigger] s.subrange(a, a + x.len()) == x;
    assert(s.push(c).subrange(a, a + x.len()) =~= x);
}

proof fn lemma_piece_of_suffix(x: Seq<char>, s: Seq<char>, k: int)
    requires
        0 <= k <= s.len(),
        x == s.skip(k),
    ensures
        is_piece(x, s),
{
    assert(s.subrange(k, k + x.len()) =~= x);
}

/// What wrapping keeps of a text: the line being filled ends the text,
/// every finished line is a run of the text's characters, and together they
/// hold no more characters than the text.
pub proof fn lemma_wrap_fold_pieces(widths: Seq<usize>, s: Seq<char>)
    ensures
        wrap_fold(widths, s).cur.len() <= s.len(),
        wrap_fold(widths, s).cur == s.skip(s.len() - wrap_fold(widths, s).cur.len()),
        forall|k: int|
            0 <= k < wrap_fold(widths, s).done.len() ==> is_piece(
                #[trigger] wrap_fold(widths, s).done[k],
                s,
            ),
        total_len(wrap_fold(widths, s).done) + wrap_fold(widths, s).cur.len() <= s.len(),
        0 <= wrap_fold(widths, s).split <= wrap_fold(widths, s).cur.len(),
    decreases s.len(),
{
    if s.len() == 0 {
        assert(s.skip(0) =~= s);
    } else {
        let p = s.drop_last();
        let c = s.last();
        let st = wrap_fold(widths, p);
        lemma_wrap_fold_pieces(widths, p);
        let nx = wrap_step(widths, st, c);
        assert(nx == wrap_fold(widths, s));
        assert(s =~= p.push(c));
        assert forall|k: int| 0 <= k < st.done.len() implies is_piece(#[trigger] st.done[k], s) by {
            lemma_piece_grows(st.done[k], p, c);
        }
        let start = p.len() - st.cur.len();
        let w = width_of(widths, 8, c) + 2;
        if st.width + w > MAX_LINE_WIDTH && st.cur.len() > 0 {
            if st.split > 0 {
                let head = st.cur.take(st.split);
                let tail = st.cur.skip(st.split);
                let keep = trim_end(head);
                let rest = trim_start(tail);
                lemma_trim_end_prefix(head);
                lemma_trim_start_suffix(tail);
                assert(s.subrange(start, start + keep.len()) =~= keep);
                assert(nx.done =~= st.done.push(keep));
                assert forall|k: int| 0 <= k < nx.done.len() implies is_piece(#[trigger] nx.done[k], s) by {
                    if k < st.done.len() {
                        assert(nx.done[k] == st.done[k]);
                    }
                }
                assert(nx.done.drop_last() =~= st.done);
                assert(rest.push(c) =~= s.skip(s.len() - (rest.len() + 1)));
            } else {
                assert(nx.done =~= st.done.push(st.cur));
                assert(s.subrange(start, start + st.cur.len()) =~= st.cur);
                assert forall|k: int| 0 <= k < nx.done.len() implies is_piece(#[trigger] nx.done[k], s) by {
                    if k < st.done.len() {
                        assert(nx.done[k] == st.done[k]);
                    }
                }
                assert(nx.done.drop_last() =~= st.done);
                assert(seq![c] =~= s.skip(s.len() - 1));
            }
        } else {
            assert(st.cur.push(c) =~= s.skip(s.len() - (st.cur.len() + 1)));
        }
    }
}

/// What wrapping gives: every display line is a run of the line's
/// characters, and together they hold no more characters than the line.
pub proof fn lemma_wrapped_pieces(widths: Seq<usize>, line: Seq<char>)
    ensures
        forall|k: int|
            0 <= k < wrapped(widths, line).len() ==> is_piece(#[trigger] wrapped(widths, line)[k], line),
        total_len(wrapped(widths, line)) <= line.len(),
        wrapped(widths, line).len() >= 1,
{
    if blank_line(line) {
        let e = Seq::<char>::empty();
        assert(line.subrange(0, 0int + e.len()) =~= e);
        assert(is_piece(e, line));
        assert(wrapped(widths, line)[0] == e);
        assert(wrapped(widths, line).drop_last() =~= Seq::<Seq<char>>::empty());
        assert(total_len(Seq::<Seq<char>>::empty()) == 0);
        assert(total_len(wrapped(widths, line)) == 0);
    } else {
        lemma_wrap_fold_pieces(widths, line);
        let st = wrap_fold(widths, line);
        if st.cur.len() > 0 {
            lemma_piece_of_suffix(st.cur, line, line.len() - st.cur.len());
            assert(st.done.push(st.cur).drop_last() =~= st.done);
            assert forall|k: int| 0 <= k < st.done.push(st.cur).len() implies is_piece(
                #[trigger] st.done.push(st.cur)[k],
                line,
            ) by {
                if k < st.done.len() {
                    assert(st.done.push(st.cur)[k] == st.done[k]);
                }
            }
        } else {
            assert(line.len() > 0);
            lemma_wrap_nonempty(widths, line);
        }
    }
}

proof fn lemma_wrap_nonempty(widths: Seq<usize>, s: Seq<char>)
    requires
        s.len() > 0,
    ensures
        wrap_fold(widths, s).cur.len() > 0,
{
}

/// A run of a text's characters advances no more than the text.
pub proof fn lemma_piece_advance(widths: Seq<usize>, fallback: int, x: Seq<char>, s: Seq<char>)
    requires
        fallback >= 0,
        is_piece(x, s),
    ensures
        advance(widths, fallback, x) <= advance(widths, fallback, s),
{
    let a = choose|a: int| 0 <= a && a + x.len() <= s.len() && #[trigger] s.subrange(a, a + x.len()) == x;
    let b = a + x.len();
    assert(s =~= s.take(a) + (x + s.skip(b)));
    lemma_advance_concat(widths, fallback, s.take(a), x + s.skip(b));
    lemma_advance_concat(widths, fallback, x, s.skip(b));
    lemma_advance_lower(widths, fallback, s.take(a));
    lemma_advance_lower(widths, fallback, s.skip(b));
}

/// The running width that wrapping keeps is the advance of the line being
/// filled: exactly that, or two more right after a break whose carried
/// part was empty (the letter spacing of that empty part).
pub proof fn lemma_wrap_width_tracks(widths: Seq<usize>, s: Seq<char>)
    ensures
        advance(widths, 8, wrap_fold(widths, s).cur) <= wrap_fold(widths, s).width <= advance(
            widths,
            8,
            wrap_fold(widths, s).cur,
        ) + 2,
    decreases s.len(),
{
    if s.len() > 0 {
        let p = s.drop_last();
        let c = s.last();
        let st = wrap_fold(widths, p);
        lemma_wrap_width_tracks(widths, p);
        lemma_wrap_fold_pieces(widths, p);
        let w = width_of(widths, 8, c) + 2;
        let nx = wrap_step(widths, st, c);
        assert(nx == wrap_fold(widths, s));
        if st.width + w > MAX_LINE_WIDTH && st.cur.len() > 0 {
            if st.split > 0 {
                let rest = trim_start(st.cur.skip(st.split));
                assert(rest.push(c).drop_last() =~= rest);
                assert(advance(widths, 8, rest.push(c)) == advance(widths, 8, rest) + w);
                if rest.len() > 0 {
                    lemma_advance_lower(widths, 8, rest);
                    assert(text_width_of(widths, 8, rest) == advance(widths, 8, rest) - 2);
                } else {
                    assert(advance(widths, 8, rest) == 0);
                }
            } else {
                assert(seq![c].drop_last() =~= Seq::<char>::empty());
                assert(advance(widths, 8, Seq::<char>::empty()) == 0);
                assert(advance(widths, 8, seq![c]) == w);
            }
        } else {
            assert(st.cur.push(c).drop_last() =~= st.cur);
            assert(advance(widths, 8, st.cur.push(c)) == advance(widths, 8, st.cur) + w);
        }
    }
}

/// Every character of `x` is `k` pixels wide.
pub open spec fn uniform(widths: Seq<usize>, x: Seq<char>, k: int) -> bool {
    forall|j: int| 0 <= j < x.len() ==> width_of(widths, 8, #[trigger] x[j]) == k
}

proof fn lemma_uniform_advance(widths: Seq<usize>, x: Seq<char>, k: int)
    requires
        uniform(widths, x, k),
    ensures
        advance(widths, 8, x) == (k + 2) * x.len(),
    decreases x.len(),
{
    if x.len() > 0 {
        assert(uniform(widths, x.drop_last(), k)) by {
            assert forall|j: int| 0 <= j < x.drop_last().len() implies width_of(
                widths,
                8,
                #[trigger] x.drop_last()[j],
            ) == k by {
                assert(x.drop_last()[j] == x[j]);
            }
        }
        lemma_uniform_advance(widths, x.drop_last(), k);
        assert((k + 2) * x.len() == (k + 2) * (x.len() - 1) + (k + 2)) by (nonlinear_arith);
    }
}

proof fn lemma_uniform_suffix(widths: Seq<usize>, x: Seq<char>, k: int, m: int)
    requires
        uniform(widths, x, k),
        0 <= m <= x.len(),
    ensures
        uniform(widths, x.skip(m), k),
{
    assert forall|j: int| 0 <= j < x.skip(m).len() implies width_of(widths, 8, #[trigger] x.skip(m)[j]) == k by {
        assert(x.skip(m)[j] == x[m + j]);
    }
}

proof fn lemma_wrap_uniform_fold(widths: Seq<usize>, s: Seq<char>, k: int)
    requires
        uniform(widths, s, k),
        0 <= k,
        k + 4 <= MAX_LINE_WIDTH,
    ensures
        wrap_fold(widths, s).width <= MAX_LINE_WIDTH,
        forall|i: int|
            0 <= i < wrap_fold(widths, s).done.len() ==> advance(widths, 8, #[trigger] wrap_fold(widths, s).done[i])
                <= MAX_LINE_WIDTH,
    decreases s.len(),
{
    if s.len() > 0 {
        let p = s.drop_last();
        let c = s.last();
        assert(uniform(widths, p, k)) by {
            assert forall|j: int| 0 <= j < p.len() implies width_of(widths, 8, #[trigger] p[j]) == k by {
                assert(p[j] == s[j]);
            }
        }
        assert(width_of(widths, 8, c) == k) by {
            assert(c == s[s.len() - 1]);
        }
        let st = wrap_fold(widths, p);
        lemma_wrap_uniform_fold(widths, p, k);
        lemma_wrap_width_tracks(widths, p);
        lemma_wrap_fold_pieces(widths, p);
        let w = k + 2;
        let nx = wrap_step(widths, st, c);
        assert(nx == wrap_fold(widths, s));
        lemma_uniform_suffix(widths, p, k, p.len() - st.cur.len());
        let cur = st.cur;
        assert(uniform(widths, cur, k));
        lemma_uniform_advance(widths, cur, k);
        if st.width + w > MAX_LINE_WIDTH && cur.len() > 0 {
            if st.split > 0 {
                let head = cur.take(st.split);
                let tail = cur.skip(st.split);
                let keep = trim_end(head);
                let rest = trim_start(tail);
                lemma_trim_end_prefix(head);
                lemma_trim_start_suffix(tail);
                assert(is_piece(keep, cur)) by {
                    assert(cur.subrange(0, 0int + keep.len()) =~= keep);
                }
                lemma_piece_advance(widths, 8, keep, cur);
                assert(nx.done =~= st.done.push(keep));
                assert forall|i: int| 0 <= i < nx.done.len() implies advance(widths, 8, #[trigger] nx.done[i])
                    <= MAX_LINE_WIDTH by {
                    if i < st.done.len() {
                        assert(nx.done[i] == st.done[i]);
                    }
                }
                if rest.len() > 0 {
                    assert(rest =~= cur.skip(cur.len() - rest.len()));
                    lemma_uniform_suffix(widths, cur, k, cur.len() - rest.len());
                    lemma_uniform_advance(widths, rest, k);
                    lemma_advance_lower(widths, 8, rest);
                    assert(rest.len() + 1 <= cur.len());
                    assert((k + 2) * rest.len() + (k + 2) <= (k + 2) * cur.len()) by (nonlinear_arith)
                        requires
                            rest.len() + 1 <= cur.len(),
                            k >= 0,
                    ;
                }
            } else {
                assert(nx.done =~= st.done.push(cur));
                assert forall|i: int| 0 <= i < nx.done.len() implies advance(widths, 8, #[trigger] nx.done[i])
                    <= MAX_LINE_WIDTH by {
                    if i < st.done.len() {
                        assert(nx.done[i] == st.done[i]);
                    }
                }
            }
        }
    }
}

/// Where every character of a line is equally wide (at most 376 pixels),
/// each display line that wrapping gives is at most `MAX_LINE_WIDTH` wide.
pub proof fn lemma_wrapped_fit(widths: Seq<usize>, line: Seq<char>, k: int)
    requires
        uniform(widths, line, k),
        0 <= k,
        k + 4 <= MAX_LINE_WIDTH,
    ensures
        forall|i: int|
            0 <= i < wrapped(widths, line).len() ==> text_width_of(widths, 8, #[trigger] wrapped(widths, line)[i])
                <= MAX_LINE_WIDTH,
{
    if !blank_line(line) {
        let st = wrap_fold(widths, line);
        lemma_wrap_uniform_fold(widths, line, k);
        lemma_wrap_width_tracks(widths, line);
        let ws = wrapped(widths, line);
        assert forall|i: int| 0 <= i < ws.len() implies text_width_of(widths, 8, #[trigger] ws[i])
            <= MAX_LINE_WIDTH by {
            if st.cur.len() > 0 && i == ws.len() - 1 {
                assert(ws[i] == st.cur);
            } else {
                assert(ws[i] == st.done[i]);
            }
        }
    } else {
        assert(advance(widths, 8, Seq::<char>::empty()) == 0);
    }
}

/// Width of `c` in the file list: its glyph's measured width, or 8 for a
/// character without a glyph or without a measure.
pub open spec fn label_width_of(widths: Seq<usize>, c: char) -> int {
    if printable(c) {
        width_of(widths, 8, c)
    } else {
        8
    }
}

/// Total advance of `s` in the file list.
pub open spec fn label_advance(widths: Seq<usize>, s: Seq<char>) -> int
    decreases s.len(),
{
    if s.len() == 0 {
        0
    } else {
        label_advance(widths, s.drop_last()) + label_width_of(widths, s.last()) + 2
    }
}

proof fn lemma_label_advance_split(widths: Seq<usize>, a: Seq<char>, b: Seq<char>)
    ensures
        label_advance(widths, a + b) == label_advance(widths, a) + label_advance(widths, b),
        label_advance(widths, b) >= 2 * b.len(),
    decreases b.len(),
{
    if b.len() == 0 {
        assert(a + b =~= a);
    } else {
        assert((a + b).drop_last() =~= a + b.drop_last());
        lemma_label_advance_split(widths, a, b.drop_last());
    }
}

/// Width in pixels of `text` in the file list: each character's width
/// (see `label_width_of`) with the letter spacing between characters.
pub fn label_text_width(widths: &[usize], text: &[char]) -> (w: usize)
    requires
        label_advance(widths@, text@) <= usize::MAX,
    ensures
        w == (if label_advance(widths@, text@) > 0 {
            label_advance(widths@, text@) - 2
        } else {
            0
        }),
{
    let mut total: usize = 0;
    let mut i: usize = 0;
    while i < text.len()
        invariant
            i <= text@.len(),
            total == label_advance(widths@, text@.take(i as int)),
            label_advance(widths@, text@) <= usize::MAX,
        decreases text@.len() - i,
    {
        proof {
            assert(text@.take(i + 1).drop_last() =~= text@.take(i as int));
            assert(text@ =~= text@.take(i + 1) + text@.skip(i + 1));
            lemma_label_advance_split(widths@, text@.take(i + 1), text@.skip(i + 1));
        }
        let c = text[i];
        let w = match find_glyph(c) {
            Some(idx) => if idx < widths.len() {
                widths[idx]
            } else {
                8
            },
            None => 8,
        };
        total = total + w + LETTER_SPACING;
        i = i + 1;
    }
    proof {
        assert(text@.take(i as int) =~= text@);
        lemma_label_advance_split(widths@, Seq::<char>::empty(), text@);
        assert(Seq::<char>::empty() + text@ =~= text@);
    }
    if total > 0 {
        total - LETTER_SPACING
    } else {
        0
    }
}

/// Where the cursor, `col` places into a line, falls among the line's
/// display lines `segs`: the first display line whose length in bytes is
/// not below what is left of `col`, and the place within it.
pub open spec fn cursor_segment_of(segs: Seq<Seq<char>>, col: int) -> Option<(int, int)>
    decreases segs.len(),
{
    if segs.len() == 0 {
        None
    } else if col <= byte_len(segs[0]) {
        Some((0, col))
    } else {
        match cursor_segment_of(segs.drop_first(), col - byte_len(segs[0])) {
            Some((k, c)) => Some((k + 1, c)),
            None => None,
        }
    }
}

/// Where the cursor falls among display lines; see `cursor_segment_of`.
pub fn cursor_segment(segs: &Vec<Vec<char>>, col: usize) -> (r: Option<(usize, usize)>)
    requires
        forall|k: int| 0 <= k < segs@.len() ==> byte_len(#[trigger] segs@[k]@) <= usize::MAX,
    ensures
        match cursor_segment_of(segs@.map_values(|v: Vec<char>| v@), col as int) {
            Some((k, c)) => r == Some((k as usize, c as usize)),
            None => r is None,
        },
{
    let ghost sv = segs@.map_values(|v: Vec<char>| v@);
    let mut remaining = col;
    let mut k: usize = 0;
    proof {
        assert(sv.skip(0) =~= sv);
    }
    while k < segs.len()
        invariant
            sv == segs@.map_values(|v: Vec<char>| v@),
            forall|q: int| 0 <= q < segs@.len() ==> byte_len(#[trigger] segs@[q]@) <= usize::MAX,
            k <= sv.len(),
            cursor_segment_of(sv, col as int) == match cursor_segment_of(sv.skip(k as int), remaining as int) {
                Some((j, c)) => Some((j + k, c)),
                None => None::<(int, int)>,
            },
        decreases sv.len() - k,
    {
        let seg = &segs[k];
        proof {
            assert(seg@ == sv[k as int]);
            assert(sv.skip(k as int)[0] == sv[k as int]);
            assert(sv.skip(k as int).drop_first() =~= sv.skip(k + 1));
            assert(seg@.take(seg@.len() as int) =~= seg@);
        }
        let n = prefix_byte_len(seg, seg.len());
        if remaining <= n {
            return Some((k, remaining));
        }
        remaining = remaining - n;
        k = k + 1;
    }
    proof {
        assert(sv.skip(k as int) =~= Seq::<Seq<char>>::empty());
    }
    None
}

} // verus!
