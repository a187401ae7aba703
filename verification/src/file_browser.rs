use vstd::prelude::*;
use crate::action::{Action, Screen};
use crate::browser::{parent_of, path_parent};
use crate::keys::Key;
use crate::char_class::{lowercased, to_lowercase, to_uppercase, uppercased};
use crate::utf8_text::{at_boundary, byte_len, byte_len_exceeds, chars_of, index_at, lemma_byte_len_split, lemma_index_unique, string_of, tail_start};

verus! {

/// Which part of the file browser has the keyboard.
#[derive(Clone, Copy, Debug, PartialEq, Eq, Structural)]
pub enum BrowserFocus {
    List,
    Footer,
}

/// How the file browser was opened.
#[derive(Clone, Copy, Debug, PartialEq, Eq, Structural)]
pub enum BrowserMode {
    /// Normal browsing (new folder, new file, ...).
    Full,
    /// Picking a file to open (cancel, open).
    OpenFile,
}

/// Rows of the list shown at once.
pub const ROWS_SHOWN: usize = 8;

/// Bytes of the home base's path, "/home/kramwriter".
pub const HOME_BASE_BYTES: usize = 16;

/// Longest header path shown, in bytes.
pub const MAX_HEADER_BYTES: usize = 30;

/// An entry of a directory listing.
pub struct FileEntry {
    pub name: String,
    pub is_dir: bool,
    pub size_kb: u64,
    pub path: String,
}

impl FileEntry {
    /// A copy of the entry.
    pub fn duplicate(&self) -> (e: FileEntry)
        ensures
            e.name@ == self.name@,
            e.is_dir == self.is_dir,
            e.size_kb == self.size_kb,
            e.path@ == self.path@,
    {
        FileEntry {
            name: self.name.clone(),
            is_dir: self.is_dir,
            size_kb: self.size_kb,
            path: self.path.clone(),
        }
    }
}

/// An entry as a mathematical value: name, whether a directory, size in
/// KiB, path.
pub open spec fn entry_view(e: FileEntry) -> (Seq<char>, bool, u64, Seq<char>) {
    (e.name@, e.is_dir, e.size_kb, e.path@)
}

pub open spec fn entries_view(es: Seq<FileEntry>) -> Seq<(Seq<char>, bool, u64, Seq<char>)> {
    es.map_values(|e: FileEntry| entry_view(e))
}

/// The name of the way up.
pub open spec fn parent_name() -> Seq<char> {
    seq!['.', '.']
}

/// The directory above which the browser does not offer a way up.
pub open spec fn home_base() -> Seq<char> {
    "/home/kramwriter"@
}

/// `a` comes before `b` in code-point order (a proper prefix first).
pub open spec fn text_less(a: Seq<char>, b: Seq<char>) -> bool
    decreases a.len(),
{
    if a.len() == 0 {
        b.len() > 0
    } else if b.len() == 0 {
        false
    } else if a[0] != b[0] {
        (a[0] as u32) < (b[0] as u32)
    } else {
        text_less(a.drop_first(), b.drop_first())
    }
}

/// Entry `a` is listed before entry `b`: the way up first, then
/// directories, then by name in lower case.
pub open spec fn listed_before(
    a: (Seq<char>, bool, u64, Seq<char>),
    b: (Seq<char>, bool, u64, Seq<char>),
) -> bool {
    if a.0 == parent_name() {
        true
    } else if b.0 == parent_name() {
        false
    } else if a.1 != b.1 {
        a.1
    } else {
        text_less(lowercased(a.0), lowercased(b.0))
    }
}

/// Where `x` goes in the listing `s`: before the first entry it is listed
/// before, after all others.
pub open spec fn listing_pos(s: Seq<(Seq<char>, bool, u64, Seq<char>)>, x: (Seq<char>, bool, u64, Seq<char>)) -> int
    decreases s.len(),
{
    if s.len() == 0 {
        0
    } else if listed_before(x, s[0]) {
        0
    } else {
        1 + listing_pos(s.drop_first(), x)
    }
}

/// The entries in listing order, entries that compare equal keeping their
/// order (a stable sort).
pub open spec fn arranged(s: Seq<(Seq<char>, bool, u64, Seq<char>)>) -> Seq<(Seq<char>, bool, u64, Seq<char>)>
    decreases s.len(),
{
    if s.len() == 0 {
        Seq::empty()
    } else {
        let r = arranged(s.drop_last());
        r.insert(listing_pos(r, s.last()), s.last())
    }
}


/// `a` comes before `b` in code-point order.
pub(crate) fn text_less_exec(a: &Vec<char>, b: &Vec<char>) -> (r: bool)
    ensures
        r == text_less(a@, b@),
{
    let mut i: usize = 0;
    proof {
        assert(a@.skip(0) =~= a@);
        assert(b@.skip(0) =~= b@);
    }
    while i < a.len() && i < b.len() && a[i] == b[i]
        invariant
            i <= a@.len(),
            i <= b@.len(),
            text_less(a@, b@) == text_less(a@.skip(i as int), b@.skip(i as int)),
        decreases a@.len() - i,
    {
        proof {
            assert(a@.skip(i as int).drop_first() =~= a@.skip(i + 1));
            assert(b@.skip(i as int).drop_first() =~= b@.skip(i + 1));
        }
        i = i + 1;
    }
    proof {
        if i < a@.len() {
            assert(a@.skip(i as int)[0] == a@[i as int]);
        }
        if i < b@.len() {
            assert(b@.skip(i as int)[0] == b@[i as int]);
        }
    }
    if i == a.len() {
        i < b.len()
    } else if i == b.len() {
        false
    } else {
        (a[i] as u32) < (b[i] as u32)
    }
}

/// Calls `str::to_lowercase` on an entry's name.
fn lower_name(name: &String) -> (r: Vec<char>)
    ensures
        r@ == lowercased(name@),
{
    let l = to_lowercase(name.as_str());
    chars_of(l.as_str())
}

fn is_parent_name(name: &String) -> (b: bool)
    ensures
        b == (name@ == parent_name()),
{
    let c = chars_of(name.as_str());
    let r = c.len() == 2 && c[0] == '.' && c[1] == '.';
    proof {
        if c@.len() == 2 && c@[0] == '.' && c@[1] == '.' {
            assert(c@ =~= parent_name());
        }
    }
    r
}

/// Entry `a` is listed before entry `b`.
fn listed_before_exec(a: &FileEntry, b: &FileEntry) -> (r: bool)
    ensures
        r == listed_before(entry_view(*a), entry_view(*b)),
{
    if is_parent_name(&a.name) {
        true
    } else if is_parent_name(&b.name) {
        false
    } else if a.is_dir != b.is_dir {
        a.is_dir
    } else {
        let la = lower_name(&a.name);
        let lb = lower_name(&b.name);
        text_less_exec(&la, &lb)
    }
}

/// The entries in listing order; see `arranged`.
pub fn arrange_entries(entries: Vec<FileEntry>) -> (r: Vec<FileEntry>)
    ensures
        entries_view(r@) == arranged(entries_view(entries@)),
{
    let ghost ev = entries_view(entries@);
    let mut r: Vec<FileEntry> = Vec::new();
    let mut i: usize = 0;
    proof {
        assert(ev.take(0) =~= Seq::empty());
        assert(entries_view(r@) =~= arranged(ev.take(0)));
    }
    while i < entries.len()
        invariant
            ev == entries_view(entries@),
            i <= entries@.len(),
            entries_view(r@) == arranged(ev.take(i as int)),
        decreases entries@.len() - i,
    {
        let x = entries[i].duplicate();
        let ghost rv = entries_view(r@);
        let ghost xv = entry_view(x);
        proof {
            assert(ev.take(i + 1).drop_last() =~= ev.take(i as int));
            assert(ev.take(i + 1).last() == ev[i as int]);
            assert(xv == ev[i as int]);
        }
        let mut k: usize = 0;
        proof {
            assert(rv.skip(0) =~= rv);
        }
        while k < r.len() && !listed_before_exec(&x, &r[k])
            invariant
                k <= r@.len(),
                rv == entries_view(r@),
                xv == entry_view(x),
                listing_pos(rv, xv) == k + listing_pos(rv.skip(k as int), xv),
            decreases r@.len() - k,
        {
            proof {
                assert(rv.skip(k as int)[0] == rv[k as int]);
                assert(rv.skip(k as int).drop_first() =~= rv.skip(k + 1));
            }
            k = k + 1;
        }
        proof {
            assert(rv.skip(0) =~= rv);
            if k < r@.len() {
                assert(rv.skip(k as int)[0] == rv[k as int]);
            }
        }
        r.insert(k, x);
        proof {
            assert(entries_view(r@) =~= rv.insert(k as int, xv));
        }
        i = i + 1;
    }
    proof {
        assert(ev.take(i as int) =~= ev);
    }
    r
}

/// `s` starts with `p`.
pub open spec fn starts_with(s: Seq<char>, p: Seq<char>) -> bool {
    s.len() >= p.len() && s.take(p.len() as int) == p
}

/// The header's path before it is shortened: the directory below the home
/// base, in upper case; nothing for the home base itself or the root.
pub open spec fn header_text(dir: Seq<char>) -> Seq<char> {
    let d = if starts_with(dir, home_base()) {
        dir.skip(home_base().len() as int)
    } else {
        dir
    };
    let d = if d.len() == 0 || d == seq!['/'] {
        Seq::empty()
    } else {
        d
    };
    uppercased(d)
}

/// The header's path: `header_text`, or "..." and its last
/// `MAX_HEADER_BYTES` bytes where it is longer.
pub open spec fn header_path(dir: Seq<char>) -> Seq<char> {
    let u = header_text(dir);
    if byte_len(u) > MAX_HEADER_BYTES {
        seq!['.', '.', '.'] + u.skip(index_at(u, byte_len(u) - MAX_HEADER_BYTES))
    } else {
        u
    }
}

/// Shortening the header cuts at a character boundary.
pub open spec fn header_cut_ok(dir: Seq<char>) -> bool {
    let u = header_text(dir);
    byte_len(u) > MAX_HEADER_BYTES ==> at_boundary(u, byte_len(u) - MAX_HEADER_BYTES)
}

/// Tests `header_cut_ok`.
pub fn header_cut_fits(dir: &str) -> (b: bool)
    ensures
        b == header_cut_ok(dir@),
{
    let u = header_chars(dir);
    if byte_len_exceeds(&u, MAX_HEADER_BYTES) {
        let t = tail_start(&u, MAX_HEADER_BYTES);
        proof {
            match t {
                Some(k) => {
                    lemma_byte_len_split(u@, k as int);
                    assert(byte_len(#[trigger] u@.take(k as int)) == byte_len(u@) - MAX_HEADER_BYTES);
                },
                None => {
                    assert forall|k: int| 0 <= k <= u@.len() implies byte_len(#[trigger] u@.take(k)) != byte_len(u@) - MAX_HEADER_BYTES by {
                        lemma_byte_len_split(u@, k);
                        assert(byte_len(u@.skip(k)) != MAX_HEADER_BYTES);
                    }
                },
            }
        }
        t.is_some()
    } else {
        true
    }
}

fn header_chars(dir: &str) -> (u: Vec<char>)
    ensures
        u@ == header_text(dir@),
{
    let d = chars_of(dir);
    let home = chars_of("/home/kramwriter");
    let mut starts = d.len() >= home.len();
    let mut i: usize = 0;
    while starts && i < home.len()
        invariant
            d@ == dir@,
            home@ == home_base(),
            i <= home@.len(),
            starts ==> d@.len() >= home@.len() && forall|q: int| 0 <= q < i ==> d@[q] == home@[q],
            !starts ==> !starts_with(d@, home@),
        decreases home@.len() - i + (if starts { 1int } else { 0int }),
    {
        if d[i] != home[i] {
            starts = false;
            proof {
                if starts_with(d@, home@) {
                    assert(d@.take(home@.len() as int)[i as int] == d@[i as int]);
                }
            }
        } else {
            i = i + 1;
        }
    }
    proof {
        if starts {
            assert(d@.take(home@.len() as int) =~= home@);
        }
    }
    let rest: Vec<char> = if starts {
        let mut r: Vec<char> = Vec::new();
        let mut j: usize = home.len();
        while j < d.len()
            invariant
                home@.len() <= j <= d@.len(),
                r@ == d@.subrange(home@.len() as int, j as int),
            decreases d@.len() - j,
        {
            r.push(d[j]);
            proof {
                assert(r@ =~= d@.subrange(home@.len() as int, j + 1));
            }
            j = j + 1;
        }
        proof {
            assert(r@ =~= d@.skip(home@.len() as int));
        }
        r
    } else {
        d
    };
    let empty = rest.len() == 0 || (rest.len() == 1 && rest[0] == '/');
    proof {
        if rest@.len() == 1 && rest@[0] == '/' {
            assert(rest@ =~= seq!['/']);
        }
    }
    let kept: Vec<char> = if empty {
        Vec::new()
    } else {
        rest
    };
    let ks = string_of(&kept);
    let up = to_uppercase(ks.as_str());
    chars_of(up.as_str())
}

/// The header's path; see `header_path`.
pub fn format_header_path(dir: &str) -> (r: String)
    requires
        header_cut_ok(dir@),
    ensures
        r@ == header_path(dir@),
{
    let u = header_chars(dir);
    if byte_len_exceeds(&u, MAX_HEADER_BYTES) {
        match tail_start(&u, MAX_HEADER_BYTES) {
            Some(k) => {
                proof {
                    lemma_byte_len_split(u@, k as int);
                    lemma_index_unique(u@, k as int, byte_len(u@) - MAX_HEADER_BYTES);
                }
                let mut out: Vec<char> = vec!['.', '.', '.'];
                let mut j: usize = k;
                let ghost out0 = out@;
                proof {
                    assert(out0 =~= seq!['.', '.', '.']);
                    assert(out@ =~= out0 + u@.subrange(k as int, k as int));
                }
                while j < u.len()
                    invariant
                        k <= j <= u@.len(),
                        out0 == seq!['.', '.', '.'],
                        out@ == out0 + u@.subrange(k as int, j as int),
                    decreases u@.len() - j,
                {
                    out.push(u[j]);
                    proof {
                        assert(out@ =~= out0 + u@.subrange(k as int, j + 1));
                    }
                    j = j + 1;
                }
                proof {
                    assert(out@ =~= seq!['.', '.', '.'] + u@.skip(k as int));
                }
                string_of(&out)
            },
            None => {
                proof {
                    let k = index_at(u@, byte_len(u@) - MAX_HEADER_BYTES);
                    lemma_byte_len_split(u@, k);
                }
                string_of(&u)
            },
        }
    } else {
        string_of(&u)
    }
}

/// The header's path where shortening it cuts at a character boundary
/// (see `header_cut_ok`); `None` where it would cut inside a character.
pub fn try_format_header_path(dir: &str) -> (r: Option<String>)
    ensures
        r is Some <==> header_cut_ok(dir@),
        r matches Some(h) ==> h@ == header_path(dir@),
{
    if header_cut_fits(dir) {
        Some(format_header_path(dir))
    } else {
        None
    }
}

/// What a key asks of the browser: an action, or that the directory now
/// current be listed (see `FileBrowserPage::load_entries`).
pub enum BrowserStep {
    Done(Action),
    Refresh,
}

/// The browser's state: the directory shown, its entries in listing order,
/// the selected row and the first row shown, the focus, the mode, the
/// footer button, and whether the listing is stale.
pub struct BrowserState {
    pub current_directory: Seq<char>,
    pub entries: Seq<(Seq<char>, bool, u64, Seq<char>)>,
    pub selected_index: int,
    pub scroll_offset: int,
    pub focus: BrowserFocus,
    pub mode: BrowserMode,
    pub footer_index: int,
    pub needs_refresh: bool,
}

/// The listing of a directory: the way up where the directory lies below
/// the home base and has a parent, and the directory's entries, in listing
/// order.
pub open spec fn listing(
    dir: Seq<char>,
    parent: Option<Seq<char>>,
    listed: Seq<(Seq<char>, bool, u64, Seq<char>)>,
) -> Seq<(Seq<char>, bool, u64, Seq<char>)> {
    let up: Seq<(Seq<char>, bool, u64, Seq<char>)> = match parent {
        Some(p) => if byte_len(dir) > HOME_BASE_BYTES {
            seq![(parent_name(), true, 0u64, p)]
        } else {
            Seq::empty()
        },
        None => Seq::empty(),
    };
    arranged(up + listed)
}

/// What a key asks of the browser, as a mathematical value: an action,
/// a new folder (`true`) or file named in a directory, or a new listing.
pub enum Reply {
    Act(Action),
    NewName(Seq<char>, bool),
    Refresh,
}

/// The reply that a step gives.
pub open spec fn reply_of(r: BrowserStep) -> Reply {
    match r {
        BrowserStep::Done(Action::Push(Screen::NameEntry(d, f))) => Reply::NewName(d@, f),
        BrowserStep::Done(a) => Reply::Act(a),
        BrowserStep::Refresh => Reply::Refresh,
    }
}

/// What a key does. In the list: up and down move the selection (the view
/// follows, eight rows tall), left and right go to the footer's first or
/// second button, Enter opens a directory (from its first row) or, when
/// picking a file, takes the file, Esc leaves. In the footer: up and down
/// go back to the list, left and right pick a button; Enter cancels, or
/// asks for a new folder or file (the listing is then stale), or takes the
/// selected file.
pub open spec fn browser_after_key(st: BrowserState, key: Key) -> (BrowserState, Reply) {
    let n = st.entries.len() as int;
    let sel = st.selected_index;
    match st.focus {
        BrowserFocus::List => match key {
            Key::Up => (if sel > 0 {
                BrowserState {
                    selected_index: sel - 1,
                    scroll_offset: if sel - 1 < st.scroll_offset {
                        sel - 1
                    } else {
                        st.scroll_offset
                    },
                    ..st
                }
            } else {
                st
            }, Reply::Act(Action::Nothing)),
            Key::Down => (if sel < n - 1 {
                BrowserState {
                    selected_index: sel + 1,
                    scroll_offset: if sel + 1 >= st.scroll_offset + ROWS_SHOWN {
                        sel + 1 - (ROWS_SHOWN - 1)
                    } else {
                        st.scroll_offset
                    },
                    ..st
                }
            } else {
                st
            }, Reply::Act(Action::Nothing)),
            Key::Left => (BrowserState { focus: BrowserFocus::Footer, footer_index: 0, ..st }, Reply::Act(Action::Nothing)),
            Key::Right => (BrowserState { focus: BrowserFocus::Footer, footer_index: 1, ..st }, Reply::Act(Action::Nothing)),
            Key::Char(c) => if c == '\n' && 0 <= sel < n {
                if st.entries[sel].1 {
                    (
                        BrowserState {
                            current_directory: st.entries[sel].3,
                            entries: Seq::empty(),
                            selected_index: 0,
                            scroll_offset: 0,
                            needs_refresh: true,
                            ..st
                        },
                        Reply::Refresh,
                    )
                } else if st.mode == BrowserMode::OpenFile {
                    (st, Reply::Act(Action::Pop))
                } else {
                    (st, Reply::Act(Action::Nothing))
                }
            } else {
                (st, Reply::Act(Action::Nothing))
            },
            Key::Esc => (st, Reply::Act(Action::Pop)),
            _ => (st, Reply::Act(Action::Nothing)),
        },
        BrowserFocus::Footer => match key {
            Key::Up => (BrowserState { focus: BrowserFocus::List, ..st }, Reply::Act(Action::Nothing)),
            Key::Down => (BrowserState { focus: BrowserFocus::List, ..st }, Reply::Act(Action::Nothing)),
            Key::Left => (if st.footer_index > 0 {
                BrowserState { footer_index: st.footer_index - 1, ..st }
            } else {
                st
            }, Reply::Act(Action::Nothing)),
            Key::Right => {
                let max = if st.mode == BrowserMode::Full {
                    2int
                } else {
                    1int
                };
                (if st.footer_index < max {
                    BrowserState { footer_index: st.footer_index + 1, ..st }
                } else {
                    st
                }, Reply::Act(Action::Nothing))
            },
            Key::Char(c) => if c != '\n' {
                (st, Reply::Act(Action::Nothing))
            } else if st.footer_index == 0 {
                (st, Reply::Act(Action::Pop))
            } else if st.mode == BrowserMode::Full {
                if st.footer_index == 1 || st.footer_index == 2 {
                    (
                        BrowserState { needs_refresh: true, ..st },
                        Reply::NewName(st.current_directory, st.footer_index == 1),
                    )
                } else {
                    (st, Reply::Act(Action::Nothing))
                }
            } else if st.footer_index == 1 && 0 <= sel < n && !st.entries[sel].1 {
                (st, Reply::Act(Action::Pop))
            } else {
                (st, Reply::Act(Action::Nothing))
            },
            _ => (st, Reply::Act(Action::Nothing)),
        },
    }
}

/// A key cannot make the browser fail: moving down needs a row.
pub open spec fn browser_key_ok(st: BrowserState, key: Key) -> bool {
    (st.focus == BrowserFocus::List && key == Key::Down) ==> st.entries.len() > 0
}

/// The directory browser of the device's documents.
pub struct FileBrowserPage {
    current_directory: String,
    entries: Vec<FileEntry>,
    selected_index: usize,
    scroll_offset: usize,
    focus: BrowserFocus,
    mode: BrowserMode,
    footer_index: usize,
    needs_refresh: bool,
}

impl View for FileBrowserPage {
    type V = BrowserState;

    closed spec fn view(&self) -> BrowserState {
        BrowserState {
            current_directory: self.current_directory@,
            entries: entries_view(self.entries@),
            selected_index: self.selected_index as int,
            scroll_offset: self.scroll_offset as int,
            focus: self.focus,
            mode: self.mode,
            footer_index: self.footer_index as int,
            needs_refresh: self.needs_refresh,
        }
    }
}

impl FileBrowserPage {
    /// The browser's invariant: the first row shown is not below the
    /// selected one.
    pub open spec fn wf(&self) -> bool {
        0 <= self@.scroll_offset <= self@.selected_index
    }

    /// A browser on `directory`, whose listing is still to be loaded.
    pub fn new(mode: BrowserMode, directory: String) -> (p: Self)
        ensures
            p.wf(),
            p@ == (BrowserState {
                current_directory: directory@,
                entries: Seq::empty(),
                selected_index: 0,
                scroll_offset: 0,
                focus: BrowserFocus::List,
                mode: mode,
                footer_index: 0,
                needs_refresh: true,
            }),
    {
        let p = FileBrowserPage {
            current_directory: directory,
            entries: Vec::new(),
            selected_index: 0,
            scroll_offset: 0,
            focus: BrowserFocus::List,
            mode,
            footer_index: 0,
            needs_refresh: true,
        };
        proof {
            assert(entries_view(p.entries@) =~= Seq::empty());
        }
        p
    }

    /// Puts in the listing of the current directory: its parent (if it has
    /// one, and the directory lies below the home folder) and its entries
    /// as read. The listing is then fresh.
    pub fn load_entries(&mut self, listed: Vec<FileEntry>)
        requires
            old(self).wf(),
        ensures
            final(self).wf(),
            final(self)@ == (BrowserState {
                entries: listing(
                    old(self)@.current_directory,
                    path_parent(old(self)@.current_directory),
                    entries_view(listed@),
                ),
                needs_refresh: false,
                ..old(self)@
            }),
    {
        let parent = parent_of(self.current_directory.as_str());
        let ghost pv: Option<Seq<char>> = match &parent {
            Some(p) => Some(p@),
            None => None,
        };
        proof {
            assert(pv == path_parent(self.current_directory@));
        }
        let dir = chars_of(self.current_directory.as_str());
        let below = byte_len_exceeds(&dir, HOME_BASE_BYTES);
        let mut all: Vec<FileEntry> = Vec::new();
        match parent {
            Some(p) => {
                if below {
                    let dots: Vec<char> = vec!['.', '.'];
                    proof {
                        assert(dots@ =~= parent_name());
                    }
                    let name = string_of(&dots);
                    all.push(FileEntry { name, is_dir: true, size_kb: 0, path: p });
                }
            },
            None => {},
        }
        let ghost up = entries_view(all@);
        proof {
            let spec_up: Seq<(Seq<char>, bool, u64, Seq<char>)> = match pv {
                Some(p) => if byte_len(dir@) > HOME_BASE_BYTES {
                    seq![(parent_name(), true, 0u64, p)]
                } else {
                    Seq::empty()
                },
                None => Seq::empty(),
            };
            assert(up =~= spec_up);
        }
        let mut rest = listed;
        let ghost lv = entries_view(rest@);
        all.append(&mut rest);
        proof {
            assert(entries_view(all@) =~= up + lv);
        }
        self.entries = arrange_entries(all);
        self.needs_refresh = false;
    }

    /// A key press; see `browser_after_key`.
    pub fn update(&mut self, key: Key) -> (r: BrowserStep)
        requires
            old(self).wf(),
            browser_key_ok(old(self)@, key),
        ensures
            final(self).wf(),
            (final(self)@, reply_of(r)) == browser_after_key(old(self)@, key),
    {
        let n = self.entries.len();
        match self.focus {
            BrowserFocus::List => match key {
                Key::Up => {
                    if self.selected_index > 0 {
                        self.selected_index = self.selected_index - 1;
                        if self.selected_index < self.scroll_offset {
                            self.scroll_offset = self.selected_index;
                        }
                    }
                    BrowserStep::Done(Action::Nothing)
                },
                Key::Down => {
                    if self.selected_index < n - 1 {
                        self.selected_index = self.selected_index + 1;
                        if self.selected_index - self.scroll_offset >= ROWS_SHOWN {
                            self.scroll_offset = self.selected_index - (ROWS_SHOWN - 1);
                        }
                    }
                    BrowserStep::Done(Action::Nothing)
                },
                Key::Left => {
                    self.focus = BrowserFocus::Footer;
                    self.footer_index = 0;
                    BrowserStep::Done(Action::Nothing)
                },
                Key::Right => {
                    self.focus = BrowserFocus::Footer;
                    self.footer_index = 1;
                    BrowserStep::Done(Action::Nothing)
                },
                Key::Char(c) => {
                    if c == '\n' && self.selected_index < n {
                        let is_dir = self.entries[self.selected_index].is_dir;
                        if is_dir {
                            let path = self.entries[self.selected_index].path.clone();
                            self.current_directory = path;
                            self.entries = Vec::new();
                            self.selected_index = 0;
                            self.scroll_offset = 0;
                            self.needs_refresh = true;
                            proof {
                                assert(entries_view(self.entries@) =~= Seq::empty());
                            }
                            BrowserStep::Refresh
                        } else if self.mode == BrowserMode::OpenFile {
                            BrowserStep::Done(Action::Pop)
                        } else {
                            BrowserStep::Done(Action::Nothing)
                        }
                    } else {
                        BrowserStep::Done(Action::Nothing)
                    }
                },
                Key::Esc => BrowserStep::Done(Action::Pop),
                _ => BrowserStep::Done(Action::Nothing),
            },
            BrowserFocus::Footer => match key {
                Key::Up | Key::Down => {
                    self.focus = BrowserFocus::List;
                    BrowserStep::Done(Action::Nothing)
                },
                Key::Left => {
                    if self.footer_index > 0 {
                        self.footer_index = self.footer_index - 1;
                    }
                    BrowserStep::Done(Action::Nothing)
                },
                Key::Right => {
                    let max: usize = if self.mode == BrowserMode::Full {
                        2
                    } else {
                        1
                    };
                    if self.footer_index < max {
                        self.footer_index = self.footer_index + 1;
                    }
                    BrowserStep::Done(Action::Nothing)
                },
                Key::Char(c) => {
                    if c != '\n' {
                        BrowserStep::Done(Action::Nothing)
                    } else if self.footer_index == 0 {
                        BrowserStep::Done(Action::Pop)
                    } else if self.mode == BrowserMode::Full {
                        if self.footer_index == 1 || self.footer_index == 2 {
                            self.needs_refresh = true;
                            let dir = self.current_directory.clone();
                            let is_folder = self.footer_index == 1;
                            BrowserStep::Done(Action::Push(Screen::NameEntry(dir, is_folder)))
                        } else {
                            BrowserStep::Done(Action::Nothing)
                        }
                    } else if self.footer_index == 1 && self.selected_index < n
                        && !self.entries[self.selected_index].is_dir {
                        BrowserStep::Done(Action::Pop)
                    } else {
                        BrowserStep::Done(Action::Nothing)
                    }
                },
                _ => BrowserStep::Done(Action::Nothing),
            },
        }
    }

    /// The directory shown.
    pub fn current_directory(&self) -> (d: &String)
        ensures
            d@ == self@.current_directory,
    {
        &self.current_directory
    }

    /// The entries, in listing order.
    pub fn entries(&self) -> (e: &Vec<FileEntry>)
        ensures
            entries_view(e@) == self@.entries,
    {
        &self.entries
    }

    pub fn selected_index(&self) -> (i: usize)
        ensures
            i == self@.selected_index,
    {
        self.selected_index
    }

    pub fn scroll_offset(&self) -> (i: usize)
        ensures
            i == self@.scroll_offset,
    {
        self.scroll_offset
    }

    pub fn focus(&self) -> (f: BrowserFocus)
        ensures
            f == self@.focus,
    {
        self.focus
    }

    pub fn mode(&self) -> (m: BrowserMode)
        ensures
            m == self@.mode,
    {
        self.mode
    }

    pub fn footer_index(&self) -> (i: usize)
        ensures
            i == self@.footer_index,
    {
        self.footer_index
    }

    /// The listing is stale and is to be loaded before the next key.
    pub fn needs_refresh(&self) -> (b: bool)
        ensures
            b == self@.needs_refresh,
    {
        self.needs_refresh
    }
}

pub(crate) proof fn lemma_text_less_trans(a: Seq<char>, b: Seq<char>, c: Seq<char>)
    requires
        text_less(a, b),
        text_less(b, c),
    ensures
        text_less(a, c),
    decreases a.len(),
{
    if a.len() > 0 && b.len() > 0 && c.len() > 0 && a[0] == b[0] && b[0] == c[0] {
        lemma_text_less_trans(a.drop_first(), b.drop_first(), c.drop_first());
    }
}

pub(crate) proof fn lemma_text_less_asym(a: Seq<char>, b: Seq<char>)
    ensures
        !(text_less(a, b) && text_less(b, a)),
    decreases a.len(),
{
    if a.len() > 0 && b.len() > 0 && a[0] == b[0] {
        lemma_text_less_asym(a.drop_first(), b.drop_first());
    }
}

proof fn lemma_listed_before_trans(
    a: (Seq<char>, bool, u64, Seq<char>),
    b: (Seq<char>, bool, u64, Seq<char>),
    c: (Seq<char>, bool, u64, Seq<char>),
)
    requires
        listed_before(a, b),
        listed_before(b, c),
    ensures
        listed_before(a, c),
{
    if a.0 != parent_name() && b.0 != parent_name() && c.0 != parent_name() && a.1 == b.1 && b.1 == c.1 {
        lemma_text_less_trans(lowercased(a.0), lowercased(b.0), lowercased(c.0));
    }
}

proof fn lemma_listed_before_asym(a: (Seq<char>, bool, u64, Seq<char>), b: (Seq<char>, bool, u64, Seq<char>))
    requires
        !(a.0 == parent_name() && b.0 == parent_name()),
    ensures
        !(listed_before(a, b) && listed_before(b, a)),
{
    lemma_text_less_asym(lowercased(a.0), lowercased(b.0));
}

/// No entry of the listing comes after one that it is listed before.
pub open spec fn in_listing_order(s: Seq<(Seq<char>, bool, u64, Seq<char>)>) -> bool {
    forall|i: int, j: int| 0 <= i < j < s.len() ==> !listed_before(#[trigger] s[j], #[trigger] s[i])
}

/// At most one entry is the way up.
pub open spec fn one_way_up(s: Seq<(Seq<char>, bool, u64, Seq<char>)>) -> bool {
    forall|i: int, j: int|
        0 <= i < j < s.len() ==> !((#[trigger] s[i]).0 == parent_name() && (#[trigger] s[j]).0 == parent_name())
}

proof fn lemma_arranged_keeps(s: Seq<(Seq<char>, bool, u64, Seq<char>)>)
    ensures
        arranged(s).len() == s.len(),
        forall|k: int| 0 <= k < arranged(s).len() ==> s.contains(#[trigger] arranged(s)[k]),
    decreases s.len(),
{
    if s.len() > 0 {
        let p = s.drop_last();
        lemma_arranged_keeps(p);
        let r = arranged(p);
        let x = s.last();
        let pos = listing_pos(r, x);
        lemma_listing_pos_range(r, x);
        assert forall|k: int| 0 <= k < arranged(s).len() implies s.contains(#[trigger] arranged(s)[k]) by {
            let t = arranged(s);
            assert(t == r.insert(pos, x));
            if k < pos {
                assert(t[k] == r[k]);
                assert(p.contains(r[k]));
                let q = choose|q: int| 0 <= q < p.len() && p[q] == r[k];
                assert(s[q] == p[q]);
            } else if k == pos {
                assert(t[k] == x);
                assert(s[s.len() - 1] == x);
            } else {
                assert(t[k] == r[k - 1]);
                assert(p.contains(r[k - 1]));
                let q = choose|q: int| 0 <= q < p.len() && p[q] == r[k - 1];
                assert(s[q] == p[q]);
            }
        }
    }
}

proof fn lemma_listing_pos_range(s: Seq<(Seq<char>, bool, u64, Seq<char>)>, x: (Seq<char>, bool, u64, Seq<char>))
    ensures
        0 <= listing_pos(s, x) <= s.len(),
        forall|k: int| 0 <= k < listing_pos(s, x) ==> !listed_before(x, #[trigger] s[k]),
        listing_pos(s, x) < s.len() ==> listed_before(x, s[listing_pos(s, x)]),
    decreases s.len(),
{
    if s.len() > 0 && !listed_before(x, s[0]) {
        lemma_listing_pos_range(s.drop_first(), x);
        assert forall|k: int| 0 <= k < listing_pos(s, x) implies !listed_before(x, #[trigger] s[k]) by {
            if k > 0 {
                assert(s[k] == s.drop_first()[k - 1]);
            }
        }
    }
}

/// The listing comes in order (the way up, then directories, then files,
/// each group by name in lower case) where at most one entry is the way
/// up, and it holds the entries it was given.
pub proof fn lemma_listing_in_order(s: Seq<(Seq<char>, bool, u64, Seq<char>)>)
    requires
        one_way_up(s),
    ensures
        in_listing_order(arranged(s)),
        arranged(s).len() == s.len(),
        forall|k: int| 0 <= k < arranged(s).len() ==> s.contains(#[trigger] arranged(s)[k]),
    decreases s.len(),
{
    lemma_arranged_keeps(s);
    if s.len() > 0 {
        let p = s.drop_last();
        assert(one_way_up(p)) by {
            assert forall|i: int, j: int| 0 <= i < j < p.len() implies !((#[trigger] p[i]).0 == parent_name()
                && (#[trigger] p[j]).0 == parent_name()) by {
                assert(p[i] == s[i] && p[j] == s[j]);
            }
        }
        lemma_listing_in_order(p);
        let r = arranged(p);
        let x = s.last();
        let pos = listing_pos(r, x);
        lemma_listing_pos_range(r, x);
        let t = arranged(s);
        assert(t == r.insert(pos, x));
        assert forall|i: int, j: int| 0 <= i < j < t.len() implies !listed_before(#[trigger] t[j], #[trigger] t[i]) by {
            if j < pos {
                assert(t[i] == r[i] && t[j] == r[j]);
            } else if j == pos {
                assert(t[i] == r[i]);
                assert(t[j] == x);
            } else if i > pos {
                assert(t[i] == r[i - 1] && t[j] == r[j - 1]);
            } else if i == pos {
                assert(t[i] == x);
                assert(t[j] == r[j - 1]);
                let y = r[j - 1];
                if listed_before(y, x) {
                    let z = r[pos];
                    assert(listed_before(x, z));
                    if j - 1 == pos {
                        assert(y == z);
                        lemma_one_way_up_pair(s, r, x, y);
                        lemma_listed_before_asym(x, y);
                    } else {
                        lemma_listed_before_trans(y, x, z);
                        assert(!listed_before(r[j - 1], r[pos]));
                    }
                }
            } else {
                assert(t[i] == r[i]);
                assert(t[j] == r[j - 1]);
            }
        }
    }
}

/// The entry last given and an entry listed before it are not both the
/// way up.
proof fn lemma_one_way_up_pair(
    s: Seq<(Seq<char>, bool, u64, Seq<char>)>,
    r: Seq<(Seq<char>, bool, u64, Seq<char>)>,
    x: (Seq<char>, bool, u64, Seq<char>),
    y: (Seq<char>, bool, u64, Seq<char>),
)
    requires
        s.len() > 0,
        one_way_up(s),
        x == s.last(),
        r == arranged(s.drop_last()),
        r.contains(y),
    ensures
        !(x.0 == parent_name() && y.0 == parent_name()),
{
    lemma_arranged_keeps(s.drop_last());
    let k = choose|k: int| 0 <= k < r.len() && r[k] == y;
    assert(s.drop_last().contains(r[k]));
    let q = choose|q: int| 0 <= q < s.drop_last().len() && s.drop_last()[q] == y;
    assert(s[q] == y);
    assert(q < s.len() - 1);
}

} // verus!
