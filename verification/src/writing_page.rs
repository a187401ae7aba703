use vstd::prelude::*;
use crate::keys::Key;
use crate::page_id::PageId;
use crate::utf8_text::{byte_len, count_newlines};
use crate::writing_document::{
    DocCall, DocumentState, WritingDocument, doc_step, edited, inserted, line_end, line_start, moved_to,
    position_above, position_below, scrolled_to,
};

verus! {

/// Lines of text shown at once.
pub const MAX_VISIBLE_LINES: usize = 6;

/// The document scrolled so that the cursor's line is in view.
pub open spec fn in_view(d: DocumentState) -> DocumentState {
    DocumentState {
        scroll_offset: scrolled_to(
            d.scroll_offset as int,
            d.visible_lines as int,
            count_newlines(d.text.take(d.cursor as int)) as int,
        ) as usize,
        ..d
    }
}

/// An empty document: one empty line, six lines shown, no file.
pub open spec fn fresh_document(d: DocumentState) -> bool {
    &&& d.text == Seq::<char>::empty()
    &&& d.cursor == 0
    &&& d.cursor_bytes == 0
    &&& d.scroll_offset == 0
    &&& !d.dirty
    &&& d.lines == seq![Seq::<char>::empty()]
    &&& d.visible_lines == 6
    &&& d.file_path is None
}

/// What an editing or moving key does to the document (the cursor is then
/// brought into view); `None` for the keys that do not edit or move.
pub open spec fn edit_of(d: DocumentState, key: Key) -> Option<DocumentState> {
    let k = d.cursor as int;
    match key {
        Key::Char(c) => Some(in_view(edited(d, inserted(d.text, k, c), d.cursor + 1, true))),
        Key::Backspace => Some(in_view(
            if k > 0 {
                edited(d, d.text.remove(k - 1), (k - 1) as nat, true)
            } else {
                d
            },
        )),
        Key::Delete => Some(in_view(
            if k < d.text.len() {
                edited(d, d.text.remove(k), d.cursor, true)
            } else {
                d
            },
        )),
        Key::Left => Some(in_view(
            if k > 0 {
                moved_to(d, (k - 1) as nat)
            } else {
                d
            },
        )),
        Key::Right => Some(in_view(
            if k < d.text.len() {
                moved_to(d, (k + 1) as nat)
            } else {
                d
            },
        )),
        Key::Up => Some(in_view(moved_to(d, position_above(d.text, k) as nat))),
        Key::Down => Some(in_view(moved_to(d, position_below(d.text, k) as nat))),
        Key::Home => Some(in_view(moved_to(d, line_start(d.text, k) as nat))),
        Key::End => Some(in_view(moved_to(d, line_end(d.text, k) as nat))),
        Key::PageUp => Some(
            if d.scroll_offset > 0 {
                in_view(d)
            } else {
                d
            },
        ),
        Key::PageDown => Some(
            if d.scroll_offset + MAX_VISIBLE_LINES < d.lines.len() {
                in_view(d)
            } else {
                d
            },
        ),
        _ => None,
    }
}

/// The document call that an editing or moving key makes.
pub open spec fn call_of(key: Key) -> Option<DocCall> {
    match key {
        Key::Char(c) => Some(DocCall::InsertChar(c)),
        Key::Backspace => Some(DocCall::DeleteChar),
        Key::Delete => Some(DocCall::DeleteForward),
        Key::Left => Some(DocCall::MoveLeft),
        Key::Right => Some(DocCall::MoveRight),
        Key::Up => Some(DocCall::MoveUp),
        Key::Down => Some(DocCall::MoveDown),
        Key::Home => Some(DocCall::MoveHome),
        Key::End => Some(DocCall::MoveEnd),
        _ => None,
    }
}

/// An editing or moving key does to the document what its document call
/// followed by `ensure_cursor_visible` does; a typed newline is
/// `insert_newline`.
pub proof fn lemma_key_is_document_call(d: DocumentState, key: Key)
    ensures
        call_of(key) matches Some(call) ==> edit_of(d, key) == Some(
            doc_step(doc_step(d, call), DocCall::EnsureCursorVisible),
        ),
        key == Key::Char('\n') ==> edit_of(d, key) == Some(
            doc_step(doc_step(d, DocCall::InsertNewline), DocCall::EnsureCursorVisible),
        ),
{
    reveal(doc_step);
}

/// What a key asks of the writing page beyond editing.
pub enum WritingStep {
    /// Stay, or go to the screen named.
    Done(Option<PageId>),
    /// Write the document's text to its file, then report with `saved`.
    Save,
}

/// The writing screen's state: the document and whether the status bar is
/// shown.
pub struct WritingState {
    pub document: DocumentState,
    pub show_status_bar: bool,
}

/// A typed character keeps the text's byte count within `usize`.
pub open spec fn writing_key_ok(d: DocumentState, key: Key) -> bool {
    key is Char ==> byte_len(d.text) + 4 < usize::MAX
}

/// The writing screen.
pub struct WritingPage {
    document: WritingDocument,
    show_status_bar: bool,
}

impl View for WritingPage {
    type V = WritingState;

    closed spec fn view(&self) -> WritingState {
        WritingState { document: self.document@, show_status_bar: self.show_status_bar }
    }
}

impl WritingPage {
    pub open spec fn wf(&self) -> bool {
        self.document().wf()
    }

    /// The document, for the specification.
    pub closed spec fn document(&self) -> WritingDocument {
        self.document
    }

    /// An empty document with the status bar shown.
    pub fn new() -> (p: Self)
        ensures
            p.wf(),
            fresh_document(p@.document),
            p@.show_status_bar,
    {
        WritingPage { document: WritingDocument::new(), show_status_bar: true }
    }

    /// Puts the text of the file at `path` into the document.
    pub fn load_file(&mut self, path: String, content: String)
        requires
            old(self).wf(),
            byte_len(content@) < usize::MAX,
        ensures
            final(self).wf(),
            final(self)@.show_status_bar == old(self)@.show_status_bar,
            final(self)@.document == (DocumentState {
                text: content@,
                cursor: 0,
                cursor_bytes: 0,
                scroll_offset: 0,
                dirty: false,
                lines: crate::utf8_text::split_lines(content@),
                file_path: Some(path@),
                ..old(self)@.document
            }),
    {
        self.document.load_text(content);
        self.document.set_file_path(path);
    }

    /// The file was written: the document is clean.
    pub fn saved(&mut self)
        requires
            old(self).wf(),
        ensures
            final(self).wf(),
            final(self)@ == (WritingState {
                document: DocumentState { dirty: false, ..old(self)@.document },
                ..old(self)@
            }),
    {
        self.document.mark_saved();
    }

    /// The status bar is shown.
    pub fn status_bar_shown(&self) -> (b: bool)
        ensures
            b == self@.show_status_bar,
    {
        self.show_status_bar
    }

    /// The document.
    pub fn document_ref(&self) -> (d: &WritingDocument)
        ensures
            d@ == self@.document,
            d.wf() == self.wf(),
    {
        &self.document
    }

    /// A key press. Esc and Ctrl-Q go to the menu; editing and moving keys
    /// act on the document (see `edit_of`); Ctrl-S asks for the document to
    /// be written where it has a file; Ctrl-N starts an empty document; F1
    /// shows or hides the status bar.
    pub fn handle_key(&mut self, key: Key) -> (r: WritingStep)
        requires
            old(self).wf(),
            writing_key_ok(old(self)@.document, key),
        ensures
            final(self).wf(),
            match edit_of(old(self)@.document, key) {
                Some(d) => key != Key::Esc && final(self)@ == (WritingState { document: d, ..old(self)@ })
                    && r == WritingStep::Done(None),
                None => true,
            },
            key == Key::Esc ==> final(self)@ == old(self)@ && r == WritingStep::Done(Some(PageId::Menu)),
            key == Key::Ctrl('q') ==> final(self)@ == old(self)@ && r == WritingStep::Done(Some(PageId::Menu)),
            key == Key::Ctrl('s') ==> final(self)@ == old(self)@ && r == (if old(self)@.document.file_path is Some {
                WritingStep::Save
            } else {
                WritingStep::Done(None)
            }),
            key == Key::Ctrl('n') ==> fresh_document(final(self)@.document) && final(self)@.show_status_bar
                == old(self)@.show_status_bar && r == WritingStep::Done(None),
            key == Key::F(1) ==> final(self)@ == (WritingState {
                show_status_bar: !old(self)@.show_status_bar,
                ..old(self)@
            }) && r == WritingStep::Done(None),
            (edit_of(old(self)@.document, key) is None && key != Key::Esc && key != Key::Ctrl('q') && key
                != Key::Ctrl('s') && key != Key::Ctrl('n') && key != Key::F(1)) ==> final(self)@ == old(
                self,
            )@ && r == WritingStep::Done(None),
    {
        proof {
            self.document.lemma_wf();
        }
        match key {
            Key::Esc => {
                return WritingStep::Done(Some(PageId::Menu));
            },
            _ => {},
        }
        match key {
            Key::Char(c) => {
                self.document.insert_char(c);
                self.document.ensure_cursor_visible();
            },
            Key::Backspace => {
                self.document.delete_char();
                self.document.ensure_cursor_visible();
            },
            Key::Delete => {
                self.document.delete_forward();
                self.document.ensure_cursor_visible();
            },
            Key::Left => {
                self.document.move_cursor_left();
                self.document.ensure_cursor_visible();
            },
            Key::Right => {
                self.document.move_cursor_right();
                self.document.ensure_cursor_visible();
            },
            Key::Up => {
                self.document.move_cursor_up();
                self.document.ensure_cursor_visible();
            },
            Key::Down => {
                self.document.move_cursor_down();
                self.document.ensure_cursor_visible();
            },
            Key::Home => {
                self.document.move_cursor_home();
                self.document.ensure_cursor_visible();
            },
            Key::End => {
                self.document.move_cursor_end();
                self.document.ensure_cursor_visible();
            },
            Key::PageUp => {
                if self.document.get_scroll_offset() > 0 {
                    self.document.ensure_cursor_visible();
                }
            },
            Key::PageDown => {
                let n = self.document.get_lines().len();
                let scroll = self.document.get_scroll_offset();
                if n > MAX_VISIBLE_LINES && scroll < n - MAX_VISIBLE_LINES {
                    self.document.ensure_cursor_visible();
                }
            },
            Key::Ctrl(c) => {
                if c == 's' {
                    if self.document.get_file_path().is_some() {
                        return WritingStep::Save;
                    }
                } else if c == 'n' {
                    self.document = WritingDocument::new();
                } else if c == 'q' {
                    return WritingStep::Done(Some(PageId::Menu));
                }
            },
            Key::F(n) => {
                if n == 1 {
                    self.show_status_bar = !self.show_status_bar;
                }
            },
            _ => {},
        }
        WritingStep::Done(None)
    }
}

} // verus!
