use kramwriter::action::{Action, Screen};
use kramwriter::browser::{get_display_name, FileBrowser, FileItem};
use kramwriter::context::{Context, KeyboardLayout};
use kramwriter::editor::{closest_offset, EditorPage, EditorStep, LayoutBuilder, VisualLine};
use kramwriter::utf8_text::{split_chars, split_inclusive_chars, split_words};
use kramwriter::file_browser::{
    arrange_entries, format_header_path, header_cut_fits, try_format_header_path, BrowserFocus, BrowserMode, BrowserStep,
    FileBrowserPage, FileEntry,
};
use kramwriter::highscores::{score_table_from_lines, ZeugtrisHighscoresPage};
use kramwriter::keys::Key;
use kramwriter::kram_menus::{
    tz_label_str, CreditsPage, LearnMenuPage, LogoPage, MenuPage, SettingsPage, TimezonePage,
    WriteMenuPage, ZeugtrisMenuPage,
};
use kramwriter::learn::{card_from_fields, clean_html, deck_from_rows, keep_card, Flashcard, LearnPage, LearnState, WrapBuilder};
use kramwriter::learn_create::{is_control, CreateStep, EditSide, LearnCreatePage, SaveNotice};
use kramwriter::name_entry::{CreateResult, EntryError, EntryFocus, EntryStep, NameEntryPage};
use kramwriter::screen_stack::{route, settle, Input, StackChange};
use kramwriter::simplenote::{SetupError, SetupStep, SetupStepReply, SimpleNoteSetupPage};

fn strings(v: &[&str]) -> Vec<String> {
    v.iter().map(|s| s.to_string()).collect()
}

fn entry(name: &str, is_dir: bool) -> FileEntry {
    FileEntry { name: name.to_string(), is_dir, size_kb: 1, path: format!("/home/kramwriter/folder/{}", name) }
}

#[test]
fn context_defaults() {
    let c = Context::new();
    assert!(!c.dark_mode);
    assert_eq!(c.layout, KeyboardLayout::Qwerty);
    assert_eq!(c.status.time_str, "00:00");
    assert_eq!(c.status.wifi_strength, 0);
    assert_eq!(c.timezone, "UTC");
}

#[test]
fn kram_menu_moves_and_stops() {
    let mut m = MenuPage::new();
    for _ in 0..10 {
        assert!(matches!(m.update(Key::Down), Action::Nothing));
    }
    assert_eq!(m.selected(), 4);
    m.update(Key::Up);
    assert_eq!(m.selected(), 3);
    assert!(matches!(m.update(Key::Char('\n')), Action::Nothing));
    assert!(matches!(m.update(Key::Esc), Action::Replace(Screen::Logo)));
    let mut l = LogoPage::new();
    assert!(matches!(l.update(Key::Char('\n')), Action::Replace(Screen::Menu)));
    let mut c = CreditsPage::new();
    assert!(matches!(c.update(Key::Char('\n')), Action::Nothing));
    assert!(matches!(c.update(Key::Esc), Action::Pop));
}

#[test]
fn kram_sub_menus() {
    let mut w = WriteMenuPage::new();
    w.update(Key::Down);
    assert_eq!(w.selected(), 1);
    assert!(matches!(w.update(Key::Char('\n')), Action::Nothing));
    assert!(matches!(w.update(Key::Esc), Action::Pop));
    let mut z = ZeugtrisMenuPage::new();
    assert!(matches!(z.update(Key::Char('\n')), Action::Push(Screen::Zeugtris)));
    z.update(Key::Up);
    assert_eq!(z.selected(), 1);
    assert!(matches!(z.update(Key::Char('\n')), Action::Push(Screen::Highscores)));
    let mut learn = LearnMenuPage::new();
    assert!(matches!(learn.update(Key::Char('\n')), Action::Push(Screen::LearnBrowser(BrowserMode::OpenFile))));
    learn.update(Key::Down);
    assert!(matches!(learn.update(Key::Char('\n')), Action::Push(Screen::LearnBrowser(BrowserMode::Full))));
}

#[test]
fn settings_toggle_dark_mode_and_layout() {
    let mut ctx = Context::new();
    let mut s = SettingsPage::new();
    assert!(matches!(s.update(Key::Char('\n'), &mut ctx), Action::Push(Screen::Timezone)));
    s.update(Key::Down, &mut ctx);
    s.update(Key::Down, &mut ctx);
    s.update(Key::Char('\n'), &mut ctx);
    assert!(ctx.dark_mode);
    s.update(Key::Down, &mut ctx);
    assert!(matches!(s.update(Key::Char('\n'), &mut ctx), Action::Push(Screen::SimpleNoteSetup)));
    s.update(Key::Down, &mut ctx);
    s.update(Key::Char('\n'), &mut ctx);
    assert_eq!(ctx.layout, KeyboardLayout::Qwertz);
    s.update(Key::Char('\n'), &mut ctx);
    assert_eq!(ctx.layout, KeyboardLayout::Qwerty);
    assert!(matches!(s.update(Key::Esc, &mut ctx), Action::Pop));
}

#[test]
fn timezone_wraps_and_saves() {
    let mut ctx = Context::new();
    let mut t = TimezonePage::new();
    assert_eq!(t.selected(), 12);
    t.update(Key::Right, &mut ctx);
    assert!(matches!(t.update(Key::Char('\n'), &mut ctx), Action::Pop));
    assert_eq!(ctx.timezone, "1");
    let mut t = TimezonePage::new();
    for _ in 0..13 {
        t.update(Key::Left, &mut ctx);
    }
    assert_eq!(t.selected(), 30);
    t.update(Key::Right, &mut ctx);
    assert_eq!(t.selected(), 0);
    assert_eq!(tz_label_str(8), "-3.5");
    assert!(matches!(t.update(Key::Esc, &mut ctx), Action::Pop));
    assert_eq!(ctx.timezone, "1");
}

#[test]
fn highscore_table_sorts_and_pads() {
    let lines = strings(&["100", "  42 ", "abc", "+7", "-3", "99999999999", "", "500"]);
    assert_eq!(score_table_from_lines(&lines), vec![500, 100, 42, 7, 0, 0, 0, 0, 0, 0]);
    let many: Vec<String> = (1..=12).map(|i| i.to_string()).collect();
    assert_eq!(score_table_from_lines(&many), vec![12, 11, 10, 9, 8, 7, 6, 5, 4, 3]);
    let mut p = ZeugtrisHighscoresPage::new(&lines);
    assert_eq!(p.scores()[0], 500);
    assert!(matches!(p.update(Key::Char('a')), Action::Nothing));
    assert!(matches!(p.update(Key::Esc), Action::Pop));
}

#[test]
fn name_entry_types_upper_case() {
    let mut p = NameEntryPage::new("/home/kramwriter/folder".to_string(), true);
    p.update(Key::Char('a'));
    p.update(Key::Char('b'));
    assert_eq!(p.input_text().clone(), vec!['A', 'B']);
    p.update(Key::Left);
    p.update(Key::Backspace);
    assert_eq!(p.input_text().clone(), vec!['B']);
    assert_eq!(p.cursor_pos(), 0);
    p.update(Key::Char('\n'));
    assert_eq!(p.focus(), EntryFocus::BottomBar);
    match p.update(Key::Char('\n')) {
        EntryStep::Create(path) => assert_eq!(path, "/home/kramwriter/folder/B"),
        _ => panic!("expected a creation"),
    }
    assert!(matches!(p.creation_finished(CreateResult::AlreadyExists), Action::Nothing));
    assert_eq!(p.error(), Some(EntryError::Exists));
    assert!(matches!(p.creation_finished(CreateResult::Created), Action::Pop));
    p.update(Key::Left);
    assert!(matches!(p.update(Key::Char('\n')), EntryStep::Done(Action::Pop)));
}

#[test]
fn name_entry_refuses_blank_and_long() {
    let mut p = NameEntryPage::new("/tmp".to_string(), false);
    p.update(Key::Char(' '));
    p.update(Key::Down);
    assert!(matches!(p.update(Key::Char('\n')), EntryStep::Done(Action::Nothing)));
    assert_eq!(p.error(), Some(EntryError::Empty));
    assert_eq!(EntryError::Empty.message(), "NAME CANNOT BE EMPTY");
    assert_eq!(EntryError::System.message(), "SYSTEM ERROR");
    p.update(Key::Up);
    for _ in 0..30 {
        p.update(Key::Char('x'));
    }
    assert_eq!(p.input_text().len(), 24);
    assert_eq!(p.error(), None);
}

#[test]
fn clean_html_lists_and_breaks() {
    assert_eq!(clean_html("<ul><li>One</li><li>Two</li></ul>"), "• One\n• Two");
    assert_eq!(clean_html("<b>Bold</b>&nbsp;text<br>next"), "Bold text\nnext");
    assert_eq!(clean_html("  plain  "), "plain");
    assert_eq!(clean_html("<br/><br>"), "");
}

#[test]
fn clean_html_tags_removed_leftmost_first() {
    assert_eq!(clean_html("a<b>c"), "ac");
    assert_eq!(clean_html("x<y"), "x<y");
    assert_eq!(clean_html("<a<b>c"), "c");
    assert_eq!(clean_html("a<b>c>d"), "ac>d");
    assert_eq!(clean_html("1 < 2 <i>ok</i>"), "1 ok");
    assert_eq!(clean_html("\u{3000} x\u{a0}y \t"), "x\u{a0}y");
}

#[test]
fn cards_from_note_fields() {
    let c = card_from_fields("Q<br>\u{1f}<i>A</i>");
    assert_eq!(c.question, "Q");
    assert_eq!(c.answer, "A");
    let only = card_from_fields("only");
    assert_eq!(only.answer, "Empty A");
    let update = Flashcard { question: "Please UPDATE to the latest Anki".to_string(), answer: String::new() };
    assert!(!keep_card(&update));
    assert!(keep_card(&c));
    let deck = deck_from_rows(&strings(&["a\u{1f}b", "Update to the latest Anki\u{1f}x", "<br>\u{1f}y", "c\u{1f}d"]));
    assert_eq!(deck.len(), 2);
    assert_eq!(deck[1].question, "c");
}

#[test]
fn learning_flips_and_rates() {
    let deck = vec![
        Flashcard { question: "q1".to_string(), answer: "a1".to_string() },
        Flashcard { question: "q2".to_string(), answer: "a2".to_string() },
    ];
    let mut p = LearnPage::new(deck);
    p.update(Key::Char('1'));
    assert_eq!(p.current_index(), 0);
    p.update(Key::Char(' '));
    assert_eq!(p.state(), LearnState::Answer);
    assert!(p.answer_revealed());
    p.update(Key::Char(' '));
    assert_eq!(p.state(), LearnState::Question);
    p.update(Key::Char('3'));
    assert_eq!(p.current_index(), 1);
    assert!(!p.answer_revealed());
    p.update(Key::Char(' '));
    p.update(Key::Char('4'));
    assert_eq!(p.current_index(), 0);
    assert!(matches!(p.update(Key::Esc), Action::Pop));
}

#[test]
fn deck_writing_and_saving() {
    let mut p = LearnCreatePage::new("/tmp/deck.apkg".to_string());
    p.update(Key::Char(' '));
    p.update(Key::Char('a'));
    p.update(Key::Char('\u{7}'));
    p.update(Key::Ctrl('t'));
    assert_eq!(p.side(), EditSide::Back);
    p.update(Key::Char('b'));
    p.update(Key::Ctrl('n'));
    assert_eq!(p.current_index(), 1);
    assert_eq!(p.cards().len(), 2);
    match p.update(Key::Ctrl('s')) {
        CreateStep::Save(notes) => assert_eq!(notes, vec!["a\u{1f}b".to_string()]),
        _ => panic!("expected a save"),
    }
    p.save_finished(SaveNotice::Saved);
    assert_eq!(p.message(), Some(SaveNotice::Saved));
    assert_eq!(SaveNotice::Saved.message(), "SAVED AS APKG!");
    p.update(Key::Ctrl('d'));
    assert_eq!(p.cards().len(), 1);
    assert_eq!(p.current_index(), 0);
    p.update(Key::Ctrl('d'));
    assert_eq!(p.cards()[0].front.len(), 0);
    assert!(is_control('\n'));
    assert!(!is_control('a'));
    assert!(matches!(p.update(Key::Esc), CreateStep::Done(Action::Pop)));
}

#[test]
fn note_setup_flow() {
    let mut p = SimpleNoteSetupPage::new(false);
    assert_eq!(p.step(), SetupStep::Email);
    for c in "ab".chars() {
        p.update(Key::Char(c));
    }
    p.update(Key::Char('\n'));
    p.update(Key::Char('\n'));
    assert_eq!(p.error(), Some(SetupError::InvalidEmail));
    p.update(Key::Up);
    for c in "@b.c".chars() {
        p.update(Key::Char(c));
    }
    p.update(Key::Down);
    p.update(Key::Char('\n'));
    assert_eq!(p.step(), SetupStep::Password);
    p.update(Key::Char('\n'));
    p.update(Key::Char('\n'));
    assert_eq!(p.error(), Some(SetupError::PasswordRequired));
    p.update(Key::Up);
    p.update(Key::Char('p'));
    p.update(Key::Char('\n'));
    match p.update(Key::Char('\n')) {
        SetupStepReply::WriteCreds(c) => assert_eq!(c, "ab@b.c\np"),
        _ => panic!("expected credentials"),
    }
    p.creds_written(true);
    assert_eq!(p.step(), SetupStep::ReadyToSync);
    assert_eq!(p.status().map(|s| s.as_str()), Some("LOGIN SAVED"));
    assert!(matches!(p.update(Key::Char('\n')), SetupStepReply::StartSync));
    assert!(p.is_listening());
    p.tick(&strings(&["Syncing... 3 notes"]));
    assert_eq!(p.status().map(|s| s.as_str()), Some("3 NOTES"));
    p.tick(&strings(&["__FINISHED_SUCCESS__", "ignored"]));
    assert!(!p.is_listening());
    assert_eq!(p.status().map(|s| s.as_str()), Some("SYNC COMPLETE"));
    assert_eq!(SetupError::SyncFailed.message(), "SYNC FAILED. CHECK WIFI.");
}

#[test]
fn note_setup_sync_failure() {
    let mut p = SimpleNoteSetupPage::new(true);
    assert_eq!(p.step(), SetupStep::ReadyToSync);
    p.update(Key::Char('\n'));
    p.tick(&strings(&["__FINISHED_ERROR__"]));
    assert_eq!(p.error(), Some(SetupError::SyncFailed));
    assert_eq!(p.step(), SetupStep::ReadyToSync);
    assert!(matches!(p.update(Key::Left), SetupStepReply::Done(Action::Nothing)));
    assert!(matches!(p.update(Key::Char('\n')), SetupStepReply::Done(Action::Pop)));
}

#[test]
fn entries_listed_in_order() {
    let up = FileEntry { name: "..".to_string(), is_dir: true, size_kb: 0, path: "/home".to_string() };
    let sorted = arrange_entries(vec![entry("b.txt", false), entry("Zed", true), up, entry("a.txt", false), entry("alpha", true)]);
    let names: Vec<&str> = sorted.iter().map(|e| e.name.as_str()).collect();
    assert_eq!(names, vec!["..", "alpha", "Zed", "a.txt", "b.txt"]);
}

#[test]
fn header_paths() {
    assert_eq!(format_header_path("/home/kramwriter/docs"), "/DOCS");
    assert_eq!(format_header_path("/home/kramwriter"), "");
    assert_eq!(format_header_path("/home/kramwriter/"), "");
    assert_eq!(format_header_path("/etc"), "/ETC");
    let long = "/home/kramwriter/a/very/long/path/that/goes/on/and/on";
    assert!(header_cut_fits(long));
    let h = format_header_path(long);
    assert!(h.starts_with("..."));
    assert_eq!(h.len(), 33);
    assert!(h.ends_with("/THAT/GOES/ON/AND/ON"));
    assert_eq!(try_format_header_path("/home/kramwriter/docs"), Some("/DOCS".to_string()));
    let cut_inside = "/home/kramwriter/€€€€€€€€€€é";
    assert!(!header_cut_fits(cut_inside));
    assert_eq!(try_format_header_path(cut_inside), None);
}

#[test]
fn kram_browser_navigation() {
    let mut b = FileBrowserPage::new(BrowserMode::Full, "/home/kramwriter/folder".to_string());
    assert!(b.needs_refresh());
    b.load_entries(vec![entry("b.txt", false), entry("A", true)]);
    assert!(!b.needs_refresh());
    let names: Vec<String> = b.entries().iter().map(|e| e.name.clone()).collect();
    assert_eq!(names, strings(&["..", "A", "b.txt"]));
    assert_eq!(b.entries()[0].path, "/home/kramwriter/folder/..".trim_end_matches("/folder/..").to_string());
    b.update(Key::Down);
    b.update(Key::Down);
    assert_eq!(b.selected_index(), 2);
    assert!(matches!(b.update(Key::Char('\n')), BrowserStep::Done(Action::Nothing)));
    b.update(Key::Up);
    assert!(matches!(b.update(Key::Char('\n')), BrowserStep::Refresh));
    assert_eq!(b.current_directory().as_str(), "/home/kramwriter/folder/A");
    assert_eq!(b.selected_index(), 0);
    b.load_entries(vec![]);
    assert_eq!(b.entries()[0].path, "/home/kramwriter/folder");
    b.update(Key::Right);
    assert_eq!(b.focus(), BrowserFocus::Footer);
    match b.update(Key::Char('\n')) {
        BrowserStep::Done(Action::Push(Screen::NameEntry(dir, folder))) => {
            assert_eq!(dir, "/home/kramwriter/folder/A");
            assert!(folder);
        },
        _ => panic!("expected a new folder"),
    }
    assert!(b.needs_refresh());
    b.update(Key::Right);
    b.update(Key::Right);
    assert_eq!(b.footer_index(), 2);
    b.update(Key::Up);
    assert!(matches!(b.update(Key::Esc), BrowserStep::Done(Action::Pop)));
}

#[test]
fn kram_browser_opens_files() {
    let mut b = FileBrowserPage::new(BrowserMode::OpenFile, "/home/kramwriter".to_string());
    b.load_entries(vec![entry("note.txt", false)]);
    assert_eq!(b.entries().len(), 1);
    assert!(matches!(b.update(Key::Char('\n')), BrowserStep::Done(Action::Pop)));
    b.update(Key::Right);
    b.update(Key::Right);
    assert_eq!(b.footer_index(), 1);
    assert!(matches!(b.update(Key::Char('\n')), BrowserStep::Done(Action::Pop)));
}

#[test]
fn sharp_browser_lists_and_climbs() {
    let mut b = FileBrowser::new("/tmp/x".to_string());
    b.refresh_items(strings(&["/tmp/x/b", "/tmp/x/a"]), strings(&["/tmp/x/z.txt"]));
    let names: Vec<String> = b.items().iter().map(|i| get_display_name(i)).collect();
    assert_eq!(names, strings(&["..", "a", "b", "z.txt"]));
    b.move_selection_down();
    b.move_selection_down();
    b.move_selection_down();
    b.move_selection_down();
    assert_eq!(b.selected_index(), 3);
    assert!(matches!(b.get_selected_item(), Some(FileItem::File(_))));
    assert!(!b.navigate_into());
    b.move_selection_up();
    b.move_selection_up();
    b.move_selection_up();
    assert!(b.navigate_into());
    assert_eq!(b.get_current_path().as_str(), "/tmp");
    assert_eq!(b.items().len(), 0);
}

#[test]
fn editor_edits_bytes() {
    let mut e = EditorPage::new("/tmp/f.txt".to_string(), vec!['a', 'b']);
    assert_eq!(e.cursor_pos(), 2);
    assert_eq!(e.update(Key::Left), EditorStep::Stay);
    e.update(Key::Char('X'));
    assert_eq!(e.content().clone(), vec!['a', 'X', 'b']);
    assert!(e.is_dirty());
    e.update(Key::Backspace);
    assert_eq!(e.content().clone(), vec!['a', 'b']);
    assert_eq!(e.update(Key::Ctrl('s')), EditorStep::Save);
    assert!(!e.is_dirty());
    assert_eq!(e.update(Key::Up), EditorStep::Vertical(-1));
    assert_eq!(e.update(Key::Esc), EditorStep::Leave);
}

#[test]
fn editor_font_size_steps() {
    let mut e = EditorPage::new("f".to_string(), vec![]);
    assert_eq!(e.font_size(), 22);
    assert_eq!(e.visible_line_count(), 7);
    e.update(Key::Alt('+'));
    assert_eq!(e.font_size(), 24);
    for _ in 0..30 {
        e.update(Key::Alt('='));
    }
    assert_eq!(e.font_size(), 60);
    for _ in 0..30 {
        e.update(Key::Alt('-'));
    }
    assert_eq!(e.font_size(), 10);
    assert_eq!(e.visible_line_count(), 16);
}

#[test]
fn editor_layout_helpers() {
    let e = EditorPage::new("f".to_string(), "one two\n  three ".chars().collect());
    assert_eq!(e.get_word_count(), 3);
    let line = VisualLine { text: "one two".to_string(), start_index: 0, len: 7, is_hard_break: true };
    assert_eq!(line.end_index(), 7);
    assert!(!e.cursor_is_on_this_line(&line));
    let last = VisualLine { text: "  three ".to_string(), start_index: 8, len: 8, is_hard_break: false };
    assert!(e.cursor_is_on_this_line(&last));
    assert_eq!(e.cursor_line_index(&vec![line, last]), Some(1));
    assert_eq!(closest_offset(&vec![0, 5, 10, 15], 9), 2);
    assert_eq!(closest_offset(&vec![0, 4, 6], 5), 1);
    assert_eq!(closest_offset(&vec![], 5), 0);
}

#[test]
fn editor_vertical_and_scroll() {
    let mut e = EditorPage::new("f".to_string(), "abcdef".chars().collect());
    e.move_vertical(0, &vec![0, 10, 20, 30], 18);
    assert_eq!(e.cursor_pos(), 2);
    e.move_vertical(1, &vec![0, 10, 20], 0);
    assert_eq!(e.cursor_pos(), 3);
    e.scroll_to_cursor(20);
    assert_eq!(e.scroll_line_offset(), 14);
    e.scroll_to_cursor(3);
    assert_eq!(e.scroll_line_offset(), 3);
}

#[test]
fn learning_flip_twice_keeps_side() {
    let mut p = LearnPage::new(vec![Flashcard { question: "q".to_string(), answer: "a".to_string() }]);
    p.update(Key::Char(' '));
    p.update(Key::Char(' '));
    assert_eq!(p.state(), LearnState::Question);
    assert!(p.answer_revealed());
    p.update(Key::Char('2'));
    assert_eq!(p.current_index(), 0);
    assert!(!p.answer_revealed());
}

#[test]
fn stack_routing_and_outcomes() {
    assert!(matches!(route(Some(Key::Ctrl('x'))), Input::Quit));
    assert!(matches!(route(Some(Key::Char('a'))), Input::Press(Key::Char('a'))));
    assert!(matches!(route(None), Input::Tick));
    let o = settle(Action::Pop, true, 1);
    assert!(matches!(o.change, StackChange::Pop) && o.stop);
    let o = settle(Action::Pop, false, 2);
    assert!(o.render && !o.stop);
    let o = settle(Action::Nothing, false, 2);
    assert!(!o.render && !o.stop);
    let o = settle(Action::Nothing, true, 2);
    assert!(o.render);
    let o = settle(Action::Push(Screen::Highscores), false, 1);
    assert!(matches!(o.change, StackChange::Push(Screen::Highscores)) && o.render);
    let o = settle(Action::Replace(Screen::Menu), true, 1);
    assert!(matches!(o.change, StackChange::Replace(Screen::Menu)) && !o.stop);
    assert!(settle(Action::Exit, true, 3).stop);
    assert!(settle(Action::Redraw, false, 1).render);
}

#[test]
fn deck_notice_expires_after_two_seconds() {
    let mut p = LearnCreatePage::new("/tmp/d.apkg".to_string());
    p.save_finished(SaveNotice::DbError);
    p.expire_after(1999);
    assert_eq!(p.message(), Some(SaveNotice::DbError));
    p.expire_message();
    assert_eq!(p.message(), Some(SaveNotice::DbError));
    p.expire_after(2000);
    assert_eq!(p.message(), None);
}

fn cv(s: &str) -> Vec<char> {
    s.chars().collect()
}

fn texts(v: &[Vec<char>]) -> Vec<String> {
    v.iter().map(|l| l.iter().collect()).collect()
}

#[test]
fn splitting_helpers() {
    assert_eq!(texts(&split_inclusive_chars(&cv("ab cd  e"), ' ')), vec!["ab ", "cd ", " ", "e"]);
    assert_eq!(texts(&split_inclusive_chars(&cv("ab "), ' ')), vec!["ab "]);
    assert!(split_inclusive_chars(&cv(""), ' ').is_empty());
    let spaced: String = ["  one", "two  three "].join("\t");
    assert_eq!(texts(&split_words(&cv(&spaced))), vec!["one", "two", "three"]);
    assert!(split_words(&cv(" \u{3000} ")).is_empty());
    let newline = '\n';
    let three = cv("a\n\nb");
    assert_eq!(texts(&split_chars(&three, newline)), vec!["a", "", "b"]);
}

#[test]
fn layout_breaks_where_the_measure_says() {
    // Each character counts ten pixels; lines are at most 50 wide.
    let content = cv("aa bb cc\n\nd");
    let paragraphs = split_chars(&content, '\n');
    let total = paragraphs.len();
    let mut b = LayoutBuilder::new();
    for (i, para) in paragraphs.iter().enumerate() {
        let last = i == total - 1;
        if para.is_empty() {
            b.empty_paragraph(last);
            continue;
        }
        for word in split_inclusive_chars(para, ' ') {
            let w = 10 * b.candidate(&word).len() as i32;
            b.add_word(&word, w, 50);
        }
        b.end_paragraph(para.len(), last);
    }
    let lines: Vec<(String, usize, usize, bool)> =
        b.finish().into_iter().map(|l: VisualLine| (l.text, l.start_index, l.len, l.is_hard_break)).collect();
    assert_eq!(
        lines,
        vec![
            ("aa ".to_string(), 0, 3, false),
            ("bb cc".to_string(), 3, 5, true),
            ("".to_string(), 9, 0, true),
            ("d".to_string(), 10, 1, false),
        ]
    );
}

#[test]
fn layout_counts_bytes_of_wide_characters() {
    let mut b = LayoutBuilder::new();
    let word = cv("é€ ");
    b.add_word(&word, 10, 50);
    b.add_word(&cv("x"), 100, 50);
    b.end_paragraph(7, true);
    let lines: Vec<(String, usize, usize)> =
        b.finish().into_iter().map(|l| (l.text, l.start_index, l.len)).collect();
    assert_eq!(lines, vec![("é€ ".to_string(), 0, 6), ("x".to_string(), 6, 1)]);
}

#[test]
fn card_text_wraps_by_words() {
    let mut b = WrapBuilder::new();
    assert_eq!(b.candidate(&cv("one")), cv("one"));
    b.add_word(&cv("one"), 30, 360);
    assert_eq!(b.candidate(&cv("two")), cv("one two"));
    b.add_word(&cv("two"), 70, 360);
    b.add_word(&cv("three"), 400, 360);
    b.end_paragraph();
    b.end_paragraph();
    b.add_word(&cv("huge"), 500, 360);
    b.end_paragraph();
    assert_eq!(texts(&b.finish()), vec!["one two", "three", "", "huge"]);
}
