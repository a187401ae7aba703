use kramwriter::glyphs::label_text_width;
use kramwriter::bmp::Pixel;
use kramwriter::glyphs::{
    find_glyph, get_char_index, glyph_points, glyph_span, measure_char_widths, text_width, wrap_line,
};
use kramwriter::keys::Key;
use kramwriter::page_id::PageId;
use kramwriter::utf8_text::{
    boundary_index, byte_len_exceeds, chars_of, insert_at_byte, remove_at_byte, split_chars,
    string_of, tail_start,
};
use kramwriter::write_menu::WriteMenuPage;
use kramwriter::writing_document::WritingDocument;
use kramwriter::writing_page::{WritingPage, WritingStep};

fn typed(doc: &mut WritingDocument, s: &str) {
    for c in s.chars() {
        doc.insert_char(c);
    }
}

fn chars(s: &str) -> Vec<char> {
    s.chars().collect()
}

fn text_of(v: &Vec<Vec<char>>) -> Vec<String> {
    v.iter().map(|l| l.iter().collect()).collect()
}

#[test]
fn document_starts_empty() {
    let d = WritingDocument::new();
    assert_eq!(d.get_text(), "");
    assert_eq!(d.get_lines().to_vec(), vec![String::new()]);
    assert_eq!(d.get_cursor_position(), 0);
    assert_eq!(d.get_scroll_offset(), 0);
    assert!(!d.is_dirty());
    assert_eq!(d.get_file_path(), None);
}

#[test]
fn document_typing_splits_lines() {
    let mut d = WritingDocument::new();
    typed(&mut d, "ab\ncd");
    assert_eq!(d.get_text(), "ab\ncd");
    assert_eq!(d.get_lines().to_vec(), vec!["ab".to_string(), "cd".to_string()]);
    assert_eq!(d.get_current_line_index(), 1);
    assert_eq!(d.get_cursor_column(), 2);
    assert_eq!(d.get_cursor_position(), 5);
    assert!(d.is_dirty());
}

#[test]
fn document_cursor_counts_bytes() {
    let mut d = WritingDocument::new();
    typed(&mut d, "é€");
    assert_eq!(d.get_cursor_position(), 5);
    d.move_cursor_left();
    assert_eq!(d.get_cursor_position(), 2);
    d.move_cursor_left();
    d.move_cursor_left();
    assert_eq!(d.get_cursor_position(), 0);
    d.move_cursor_right();
    assert_eq!(d.get_cursor_position(), 2);
}

#[test]
fn document_vertical_moves_keep_column() {
    let mut d = WritingDocument::new();
    typed(&mut d, "abcd\nxy\nlonger");
    d.move_cursor_up();
    assert_eq!(d.get_current_line_index(), 1);
    assert_eq!(d.get_cursor_column(), 2);
    d.move_cursor_up();
    assert_eq!(d.get_current_line_index(), 0);
    assert_eq!(d.get_cursor_column(), 2);
    d.move_cursor_up();
    assert_eq!(d.get_current_line_index(), 0);
    d.move_cursor_end();
    assert_eq!(d.get_cursor_column(), 4);
    d.move_cursor_down();
    assert_eq!(d.get_current_line_index(), 1);
    assert_eq!(d.get_cursor_column(), 2);
    d.move_cursor_home();
    assert_eq!(d.get_cursor_column(), 0);
    assert_eq!(d.get_cursor_position(), 5);
}

#[test]
fn document_backspace_removes_previous() {
    let mut d = WritingDocument::new();
    d.load_text("ab".to_string());
    d.move_cursor_end();
    d.delete_char();
    assert_eq!(d.get_text(), "a");
    assert_eq!(d.get_cursor_position(), 1);
    assert_eq!(d.get_lines().to_vec(), vec!["a".to_string()]);
    assert!(d.is_dirty());
    let mut e = WritingDocument::new();
    typed(&mut e, "x\n€");
    e.delete_char();
    assert_eq!(e.get_text(), "x\n");
    assert_eq!(e.get_cursor_position(), 2);
    e.delete_char();
    assert_eq!(e.get_text(), "x");
    assert_eq!(e.get_lines().to_vec(), vec!["x".to_string()]);
    e.move_cursor_home();
    e.mark_saved();
    e.delete_char();
    assert_eq!(e.get_text(), "x");
    assert!(!e.is_dirty());
}

#[test]
fn document_insert_then_backspace_restores() {
    let mut d = WritingDocument::new();
    d.load_text("héllo".to_string());
    d.move_cursor_right();
    d.move_cursor_right();
    d.insert_char('€');
    d.delete_char();
    assert_eq!(d.get_text(), "héllo");
    assert_eq!(d.get_cursor_position(), 3);
}

#[test]
fn document_delete_forward_removes_next() {
    let mut d = WritingDocument::new();
    typed(&mut d, "a\nb");
    d.move_cursor_left();
    d.move_cursor_left();
    d.delete_forward();
    assert_eq!(d.get_text(), "ab");
    assert_eq!(d.get_lines().to_vec(), vec!["ab".to_string()]);
    d.move_cursor_end();
    d.delete_forward();
    assert_eq!(d.get_text(), "ab");
}

#[test]
fn document_insert_then_delete_restores() {
    let mut d = WritingDocument::new();
    typed(&mut d, "hello");
    d.move_cursor_left();
    d.move_cursor_left();
    d.insert_char('X');
    d.move_cursor_left();
    d.delete_forward();
    assert_eq!(d.get_text(), "hello");
}

#[test]
fn document_scrolls_to_cursor() {
    let mut d = WritingDocument::new();
    d.set_visible_lines(2);
    typed(&mut d, "1\n2\n3\n4");
    d.ensure_cursor_visible();
    assert_eq!(d.get_scroll_offset(), 2);
    d.move_cursor_up();
    d.move_cursor_up();
    d.move_cursor_up();
    d.ensure_cursor_visible();
    assert_eq!(d.get_scroll_offset(), 0);
}

#[test]
fn document_load_and_save_flags() {
    let mut d = WritingDocument::new();
    d.load_text("x\ny".to_string());
    assert_eq!(d.get_lines().len(), 2);
    assert_eq!(d.get_cursor_position(), 0);
    assert!(!d.is_dirty());
    d.set_file_path("/tmp/a.txt".to_string());
    assert_eq!(d.get_file_path(), Some("/tmp/a.txt"));
    d.insert_char('z');
    assert!(d.is_dirty());
    d.mark_saved();
    assert!(!d.is_dirty());
}

#[test]
fn writing_page_keys() {
    let mut p = WritingPage::new();
    assert!(matches!(p.handle_key(Key::Char('x')), WritingStep::Done(None)));
    assert_eq!(p.document_ref().get_text(), "x");
    assert!(matches!(p.handle_key(Key::Ctrl('s')), WritingStep::Done(None)));
    p.load_file("/tmp/n.txt".to_string(), "abc".to_string());
    assert!(matches!(p.handle_key(Key::Ctrl('s')), WritingStep::Save));
    assert!(matches!(p.handle_key(Key::Esc), WritingStep::Done(Some(PageId::Menu))));
    assert!(matches!(p.handle_key(Key::Ctrl('q')), WritingStep::Done(Some(PageId::Menu))));
    p.handle_key(Key::End);
    p.handle_key(Key::Char('d'));
    assert_eq!(p.document_ref().get_text(), "abcd");
    p.handle_key(Key::Backspace);
    assert_eq!(p.document_ref().get_text(), "abc");
    assert_eq!(p.document_ref().get_cursor_position(), 3);
    p.handle_key(Key::Char('d'));
    p.handle_key(Key::Ctrl('n'));
    assert_eq!(p.document_ref().get_text(), "");
    p.saved();
    assert!(!p.document_ref().is_dirty());
}

#[test]
fn glyph_index_of_printable() {
    assert_eq!(get_char_index(' '), 0);
    assert_eq!(get_char_index('A'), 33);
    assert_eq!(get_char_index('~'), 94);
    assert_eq!(get_char_index('é'), 0);
    assert_eq!(find_glyph('é'), None);
    assert_eq!(find_glyph('!'), Some(1));
}

#[test]
fn text_width_sums_advances() {
    let widths = vec![5usize; 95];
    assert_eq!(text_width(&widths, 8, &chars("abc")), 19);
    assert_eq!(text_width(&widths, 8, &[]), 0);
    let short = vec![4usize; 10];
    assert_eq!(text_width(&short, 8, &chars("a")), 8);
    assert_eq!(text_width(&short, 8, &chars("!")), 4);
}

#[test]
fn measured_glyph_widths() {
    let cw = 3;
    let fw = 95 * cw;
    let mut pixels = vec![Pixel::White; fw];
    pixels[cw + 1] = Pixel::Black;
    pixels[2 * cw] = Pixel::Black;
    pixels[2 * cw + 2] = Pixel::Black;
    let w = measure_char_widths(&pixels, fw, cw, 1, 95, 8);
    assert_eq!(w.len(), 95);
    assert_eq!(w[0], 8);
    assert_eq!(w[1], 1);
    assert_eq!(w[2], 3);
}

#[test]
fn wrap_keeps_short_lines_whole() {
    let widths = vec![10usize; 95];
    assert_eq!(text_of(&wrap_line(&widths, &chars("hello world"))), vec!["hello world".to_string()]);
    assert_eq!(text_of(&wrap_line(&widths, &chars("   "))), vec![String::new()]);
    assert_eq!(text_of(&wrap_line(&widths, &[])), vec![String::new()]);
}

#[test]
fn wrap_breaks_at_whitespace() {
    let widths = vec![10usize; 95];
    let line = "aaaaaaaaaa bbbbbbbbbb cccccccccc dddd";
    let out = text_of(&wrap_line(&widths, &chars(line)));
    assert_eq!(
        out,
        vec!["aaaaaaaaaa bbbbbbbbbb".to_string(), "cccccccccc dddd".to_string()]
    );
}

#[test]
fn wrap_breaks_long_words() {
    let widths = vec![10usize; 95];
    let line: String = std::iter::repeat('x').take(40).collect();
    let out = text_of(&wrap_line(&widths, &chars(&line)));
    assert_eq!(out.len(), 2);
    assert_eq!(out[0].len(), 31);
    assert_eq!(out[1].len(), 9);
}

#[test]
fn write_menu_typing_and_words() {
    let mut p = WriteMenuPage::new(vec![10; 95], vec![6; 95]);
    for c in "hello big world".chars() {
        assert!(p.has_room_for(Key::Char(c)));
        assert_eq!(p.handle_key(Key::Char(c)), None);
    }
    assert_eq!(p.word_count(), 3);
    assert_eq!(text_of(p.lines()), vec!["hello big world".to_string()]);
    assert_eq!(p.cursor(), (0, 15));
}

#[test]
fn write_menu_enter_and_backspace_join() {
    let mut p = WriteMenuPage::new(vec![10; 95], vec![6; 95]);
    for c in "abcd".chars() {
        p.handle_key(Key::Char(c));
    }
    p.handle_key(Key::Left);
    p.handle_key(Key::Left);
    p.handle_key(Key::Char('\n'));
    assert_eq!(text_of(p.lines()), vec!["ab".to_string(), "cd".to_string()]);
    assert_eq!(p.cursor(), (1, 0));
    p.handle_key(Key::Backspace);
    assert_eq!(text_of(p.lines()), vec!["abcd".to_string()]);
    assert_eq!(p.cursor(), (0, 2));
    p.handle_key(Key::Delete);
    assert_eq!(text_of(p.lines()), vec!["abd".to_string()]);
}

#[test]
fn write_menu_type_then_erase() {
    let mut p = WriteMenuPage::new(vec![10; 95], vec![6; 95]);
    for c in "xyz".chars() {
        p.handle_key(Key::Char(c));
    }
    p.handle_key(Key::Left);
    p.handle_key(Key::Char('Q'));
    p.handle_key(Key::Backspace);
    assert_eq!(text_of(p.lines()), vec!["xyz".to_string()]);
    assert_eq!(p.cursor(), (0, 2));
}

#[test]
fn write_menu_leaves_to_menu() {
    let mut p = WriteMenuPage::new(vec![10; 95], vec![6; 95]);
    assert_eq!(p.handle_key(Key::Esc), Some(PageId::Menu));
    assert_eq!(p.handle_key(Key::Ctrl('x')), Some(PageId::Menu));
    assert_eq!(p.handle_key(Key::Ctrl('s')), None);
}

#[test]
fn write_menu_wraps_and_scrolls() {
    let mut p = WriteMenuPage::new(vec![10; 95], vec![6; 95]);
    for _ in 0..8 {
        for c in "word ".chars() {
            p.handle_key(Key::Char(c));
        }
        p.handle_key(Key::Char('\n'));
    }
    assert_eq!(p.get_all_wrapped_lines().len(), 9);
    assert_eq!(p.find_wrapped_line_for_cursor(), 8);
    assert_eq!(p.scroll_offset(), 3);
    p.handle_key(Key::Up);
    assert_eq!(p.cursor().0, 7);
    p.handle_key(Key::PageUp);
    assert!(p.scroll_offset() <= 3);
}

#[test]
fn utf8_helpers() {
    let v = chars("aé€");
    assert_eq!(boundary_index(&v, 1), Some(1));
    assert_eq!(boundary_index(&v, 2), None);
    assert_eq!(boundary_index(&v, 3), Some(2));
    assert_eq!(tail_start(&v, 3), Some(2));
    assert_eq!(tail_start(&v, 2), None);
    assert!(byte_len_exceeds(&v, 5));
    assert!(!byte_len_exceeds(&v, 6));
    let mut w = v.clone();
    insert_at_byte(&mut w, 3, 'x');
    assert_eq!(string_of(&w), "aéx€");
    remove_at_byte(&mut w, 1);
    assert_eq!(string_of(&w), "ax€");
    assert_eq!(chars_of("ab"), vec!['a', 'b']);
    let parts = split_chars(&chars("a,,b"), ',');
    assert_eq!(text_of(&parts), vec!["a".to_string(), String::new(), "b".to_string()]);
}

#[test]
fn label_width_counts_unknown_as_eight() {
    let widths = vec![5usize; 95];
    assert_eq!(label_text_width(&widths, &chars("ab")), 12);
    assert_eq!(label_text_width(&widths, &chars("é")), 8);
    assert_eq!(label_text_width(&widths, &[]), 0);
    assert_eq!(text_width(&widths, 8, &chars("é")), 5);
}

#[test]
fn glyph_points_shift_and_crop() {
    let cw = 4;
    let fw = 95 * cw;
    let mut pixels = vec![Pixel::White; fw * 2];
    pixels[cw + 1] = Pixel::Black;
    pixels[cw + 3] = Pixel::Black;
    pixels[fw + cw + 2] = Pixel::Black;
    assert_eq!(glyph_span(&pixels, fw, cw, 2, 95, 1), (1, 3));
    assert_eq!(glyph_span(&pixels, fw, cw, 2, 95, 0), (4, 0));
    let mut all = glyph_points(&pixels, fw, cw, 2, 95, 1, None, Pixel::Black);
    all.sort();
    assert_eq!(all, vec![(0, 0), (1, 1), (2, 0)]);
    let mut cropped = glyph_points(&pixels, fw, cw, 2, 95, 1, Some(2), Pixel::Black);
    cropped.sort();
    assert_eq!(cropped, vec![(0, 0), (1, 1)]);
    let mut paper = glyph_points(&pixels, fw, cw, 2, 95, 1, None, Pixel::White);
    paper.sort();
    assert_eq!(paper, vec![(0, 1), (1, 0), (2, 1)]);
    assert!(glyph_points(&pixels, fw, cw, 2, 95, 0, None, Pixel::Black).is_empty());
}

#[test]
fn cursor_finds_its_display_line() {
    let segs = vec![chars("ab "), chars("cd")];
    assert_eq!(kramwriter::glyphs::cursor_segment(&segs, 0), Some((0, 0)));
    assert_eq!(kramwriter::glyphs::cursor_segment(&segs, 3), Some((0, 3)));
    assert_eq!(kramwriter::glyphs::cursor_segment(&segs, 4), Some((1, 1)));
    assert_eq!(kramwriter::glyphs::cursor_segment(&segs, 6), None);
    let wide = vec![chars("é"), chars("x")];
    assert_eq!(kramwriter::glyphs::cursor_segment(&wide, 3), Some((1, 1)));
}

#[test]
fn document_dirty_only_after_text_changes() {
    let mut d = WritingDocument::new();
    d.move_cursor_left();
    d.move_cursor_right();
    d.move_cursor_up();
    d.move_cursor_down();
    d.move_cursor_home();
    d.move_cursor_end();
    d.ensure_cursor_visible();
    d.set_visible_lines(3);
    d.set_file_path("notes.txt".to_string());
    d.delete_char();
    d.delete_forward();
    assert!(!d.is_dirty());
    d.load_text("xy".to_string());
    d.move_cursor_right();
    d.delete_char();
    assert!(d.is_dirty());
    assert_eq!(d.get_text(), "y");
    d.load_text("abc".to_string());
    d.move_cursor_end();
    d.delete_forward();
    assert!(!d.is_dirty());
    d.move_cursor_home();
    d.delete_forward();
    assert!(d.is_dirty());
    assert_eq!(d.get_text(), "bc");
    d.mark_saved();
    d.move_cursor_right();
    assert!(!d.is_dirty());
    d.insert_newline();
    assert!(d.is_dirty());
}

#[test]
fn document_insert_left_delete_forward_restores() {
    let mut d = WritingDocument::new();
    d.load_text("héllo\nwörld".to_string());
    d.move_cursor_down();
    d.move_cursor_right();
    let text = d.get_text().to_string();
    let lines = d.get_lines().to_vec();
    let pos = d.get_cursor_position();
    d.insert_char('€');
    d.move_cursor_left();
    d.delete_forward();
    assert_eq!(d.get_text(), text);
    assert_eq!(d.get_lines().to_vec(), lines);
    assert_eq!(d.get_cursor_position(), pos);
}

#[test]
fn write_menu_rows_count_characters() {
    let mut p = WriteMenuPage::new(vec![10; 95], vec![6; 95]);
    for _ in 0..30 {
        for c in "éa ".chars() {
            p.handle_key(Key::Char(c));
        }
    }
    let rows = p.get_all_wrapped_lines();
    assert!(rows.len() >= 2);
    assert_eq!(rows[0].2, 0);
    assert_eq!(rows[1].2, rows[0].0.len());
    assert_eq!(p.find_wrapped_line_for_cursor(), rows.len() - 1);
    p.handle_key(Key::Up);
    let (line, pos) = p.cursor();
    assert_eq!(line, 0);
    assert!(pos <= rows[rows.len() - 2].2 + rows[rows.len() - 2].0.len());
    assert!(pos >= rows[rows.len() - 2].2);
}

#[test]
fn document_scrolls_with_a_huge_window() {
    let mut d = WritingDocument::new();
    d.load_text("a\nb\nc".to_string());
    d.set_visible_lines(usize::MAX);
    d.move_cursor_down();
    d.move_cursor_down();
    d.ensure_cursor_visible();
    assert_eq!(d.get_scroll_offset(), 0);
    d.set_visible_lines(1);
    d.ensure_cursor_visible();
    assert_eq!(d.get_scroll_offset(), 2);
}
