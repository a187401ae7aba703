use kramwriter::sprites::BlockSprites;
use kramwriter::bitmap::Bitmap;
use kramwriter::bmp::{
    parse_bmp, parse_font_bmp, parse_rgba_bmp, parse_rgba_bmp_inside, parse_sprite_bmp,
    rgba_bmp_fits, shown_pixel, Ink, Pixel,
};

fn header(width: u32, height: u32, bpp: u16, offset: u32, total: usize) -> Vec<u8> {
    let mut d = vec![0u8; total.max(54)];
    d[0] = b'B';
    d[1] = b'M';
    d[10..14].copy_from_slice(&offset.to_le_bytes());
    d[18..22].copy_from_slice(&width.to_le_bytes());
    d[22..26].copy_from_slice(&height.to_le_bytes());
    d[28..30].copy_from_slice(&bpp.to_le_bytes());
    d
}

fn rgba_2x1() -> Vec<u8> {
    let mut d = header(2, 1, 32, 54, 62);
    d[54..58].copy_from_slice(&[0, 0, 0, 255]);
    d[58..62].copy_from_slice(&[255, 255, 255, 255]);
    d
}

#[test]
fn bmp_rgba_dark_ink() {
    let (px, w, h) = parse_bmp(&rgba_2x1()).unwrap();
    assert_eq!((w, h), (2, 1));
    assert_eq!(px, vec![Pixel::Black, Pixel::White]);
}

#[test]
fn bmp_transparent_is_white() {
    let mut d = rgba_2x1();
    d[57] = 10;
    let (px, _, _) = parse_bmp(&d).unwrap();
    assert_eq!(px, vec![Pixel::White, Pixel::White]);
}

#[test]
fn bmp_missing_bytes_are_white() {
    let mut d = rgba_2x1();
    d.truncate(60);
    let (px, _, _) = parse_bmp(&d).unwrap();
    assert_eq!(px, vec![Pixel::Black, Pixel::White]);
    assert!(!rgba_bmp_fits(&d));
    assert!(rgba_bmp_fits(&rgba_2x1()));
}

#[test]
fn bmp_rows_are_stored_bottom_up() {
    let mut d = header(1, 2, 24, 54, 62);
    d[54..57].copy_from_slice(&[255, 255, 255]);
    d[58..61].copy_from_slice(&[0, 0, 0]);
    let (px, w, h) = parse_bmp(&d).unwrap();
    assert_eq!((w, h), (1, 2));
    assert_eq!(px, vec![Pixel::Black, Pixel::White]);
}

#[test]
fn bmp_luminance_threshold() {
    let mut d = header(2, 1, 24, 54, 62);
    d[54..57].copy_from_slice(&[129, 129, 129]);
    d[57..60].copy_from_slice(&[128, 128, 128]);
    let (px, _, _) = parse_bmp(&d).unwrap();
    assert_eq!(px, vec![Pixel::White, Pixel::Black]);
}

#[test]
fn bmp_one_bit_set_is_black() {
    let mut d = header(8, 1, 1, 54, 58);
    d[54] = 0b1000_0001;
    let (px, _, _) = parse_bmp(&d).unwrap();
    let mut expected = vec![Pixel::White; 8];
    expected[0] = Pixel::Black;
    expected[7] = Pixel::Black;
    assert_eq!(px, expected);
}

#[test]
fn bmp_refusals() {
    let mut bad = rgba_2x1();
    bad[0] = b'X';
    assert!(parse_bmp(&bad).is_none());
    assert!(parse_bmp(&rgba_2x1()[..50]).is_none());
    let far = header(2, 1, 32, 100, 62);
    assert!(parse_bmp(&far).is_none());
    let sixteen = header(2, 1, 16, 54, 62);
    assert!(parse_bmp(&sixteen).is_none());
}

#[test]
fn sprite_needs_its_size() {
    assert_eq!(parse_sprite_bmp(&rgba_2x1(), 2, 1), Some(vec![Pixel::Black, Pixel::White]));
    assert!(parse_sprite_bmp(&rgba_2x1(), 12, 12).is_none());
}

#[test]
fn font_sheet_bright_is_ink() {
    let (px, _, _) = parse_font_bmp(&rgba_2x1()).unwrap();
    assert_eq!(px, vec![Pixel::White, Pixel::Black]);
    let one_bit = header(8, 1, 1, 54, 58);
    assert!(parse_font_bmp(&one_bit).is_none());
}

#[test]
fn rgba_only_decoders() {
    let (px, _, _) = parse_rgba_bmp(&rgba_2x1(), Ink::Light).unwrap();
    assert_eq!(px, vec![Pixel::White, Pixel::Black]);
    let (px, _, _) = parse_rgba_bmp(&rgba_2x1(), Ink::Dark).unwrap();
    assert_eq!(px, vec![Pixel::Black, Pixel::White]);
    let d24 = header(1, 1, 24, 54, 58);
    assert!(parse_rgba_bmp(&d24, Ink::Dark).is_none());
    let (px, _, _) = parse_rgba_bmp_inside(&rgba_2x1()).unwrap();
    assert_eq!(px, vec![Pixel::Black, Pixel::White]);
    assert!(parse_rgba_bmp_inside(&d24).is_none());
}

#[test]
fn bitmap_set_bit_is_white() {
    let mut d = header(8, 2, 1, 54, 62);
    d[54] = 0xFF;
    d[58] = 0x00;
    let b = Bitmap::parse(&d).unwrap();
    assert_eq!((b.width, b.height), (8, 2));
    let mut expected = vec![Pixel::Black; 8];
    expected.extend(vec![Pixel::White; 8]);
    assert_eq!(b.pixels, expected);
}

#[test]
fn bitmap_skips_rows_past_the_end() {
    let mut d = header(8, 2, 1, 54, 58);
    d[54] = 0xFF;
    let b = Bitmap::parse(&d).unwrap();
    assert_eq!(b.pixels, vec![Pixel::White; 8]);
    let rgba = rgba_2x1();
    assert!(Bitmap::parse(&rgba).is_none());
}

#[test]
fn sprites_need_block_size() {
    let mut d = header(12, 12, 32, 54, 54 + 12 * 12 * 4);
    for i in 0..144 {
        d[54 + i * 4 + 3] = 255;
    }
    let files = vec![Some(d), None, Some(rgba_2x1()), None, None, None, None];
    let s = BlockSprites::from_files(&files);
    assert!(s.has_sprites());
    assert_eq!(s.get_sprite(0).map(|v| v.len()), Some(144));
    assert!(s.get_sprite(0).unwrap().iter().all(|p| *p == Pixel::Black));
    assert!(s.get_sprite(2).is_none());
    assert!(s.get_sprite(9).is_none());
    assert_eq!(s.sprite_size(), (12, 12));
    let none = BlockSprites::from_files(&vec![None, None, None, None, None, None, None]);
    assert!(!none.has_sprites());
}

#[test]
fn dark_mode_inverts_pixels() {
    assert_eq!(shown_pixel(Pixel::Black, false), Pixel::Black);
    assert_eq!(shown_pixel(Pixel::White, false), Pixel::White);
    assert_eq!(shown_pixel(Pixel::Black, true), Pixel::White);
    assert_eq!(shown_pixel(Pixel::White, true), Pixel::Black);
}
