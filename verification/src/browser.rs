use vstd::prelude::*;
use crate::file_browser::{lemma_text_less_asym, lemma_text_less_trans, text_less, text_less_exec};
use crate::utf8_text::chars_of;

verus! {

/// Rows of the list shown at once.
pub const ITEMS_PER_PAGE: usize = 8;

/// The last component of `path`, as `std::path::Path::file_name` gives it
/// (none for a path that ends in "..").
pub uninterp spec fn path_file_name(path: Seq<char>) -> Option<Seq<char>>;

/// Calls `std::path::Path::file_name` and reads the name as text. Claimed:
/// the answer depends on the path alone.
#[verifier::external_body]
pub(crate) fn file_name_of(path: &str) -> (r: Option<String>)
    ensures
        r matches Some(n) ==> path_file_name(path@) == Some(n@),
        r is None ==> path_file_name(path@) is None,
{
    match std::path::Path::new(path).file_name() {
        Some(n) => n.to_str().map(|s| s.to_owned()),
        None => None,
    }
}

/// The directory above `path`, as `std::path::Path::parent` gives it (none
/// at the root).
pub uninterp spec fn path_parent(path: Seq<char>) -> Option<Seq<char>>;

/// Calls `std::path::Path::parent`. Claimed: the answer depends on the
/// path alone.
#[verifier::external_body]
pub(crate) fn parent_of(path: &str) -> (r: Option<String>)
    ensures
        r matches Some(p) ==> path_parent(path@) == Some(p@),
        r is None ==> path_parent(path@) is None,
{
    match std::path::Path::new(path).parent() {
        Some(p) => p.to_str().map(|s| s.to_owned()),
        None => None,
    }
}

/// The path of `name` inside directory `dir`, as `std::path::Path::join`
/// gives it.
pub uninterp spec fn path_joined(dir: Seq<char>, name: Seq<char>) -> Seq<char>;

/// Calls `std::path::Path::join` and reads the result as text (a join of
/// two texts is text). Claimed: the answer depends on the two alone.
#[verifier::external_body]
pub(crate) fn join_path(dir: &str, name: &str) -> (r: String)
    ensures
        r@ == path_joined(dir@, name@),
{
    std::path::Path::new(dir).join(name).to_string_lossy().into_owned()
}

/// An entry of the browser's list.
pub enum FileItem {
    Directory(String),
    File(String),
    ParentDirectory,
}

/// An entry as a mathematical value: 0 for a directory, 1 for a file, 2
/// for the way up, with its path.
pub open spec fn item_view(i: FileItem) -> (int, Seq<char>) {
    match i {
        FileItem::Directory(p) => (0, p@),
        FileItem::File(p) => (1, p@),
        FileItem::ParentDirectory => (2, Seq::empty()),
    }
}

pub open spec fn items_view(items: Seq<FileItem>) -> Seq<(int, Seq<char>)> {
    items.map_values(|i: FileItem| item_view(i))
}

/// The name shown for a path: its last component, or "Unknown" where it
/// has none that is text.
pub open spec fn shown_name(path: Seq<char>) -> Seq<char> {
    match path_file_name(path) {
        Some(n) => n,
        None => "Unknown"@,
    }
}

/// The name shown for an entry: ".." for the way up.
pub open spec fn item_name(i: (int, Seq<char>)) -> Seq<char> {
    if i.0 == 2 {
        seq!['.', '.']
    } else {
        shown_name(i.1)
    }
}

/// The name shown for an entry.
pub fn get_display_name(item: &FileItem) -> (n: String)
    ensures
        n@ == item_name(item_view(*item)),
{
    match item {
        FileItem::Directory(p) => match file_name_of(p.as_str()) {
            Some(n) => n,
            None => "Unknown".to_owned(),
        },
        FileItem::File(p) => match file_name_of(p.as_str()) {
            Some(n) => n,
            None => "Unknown".to_owned(),
        },
        FileItem::ParentDirectory => {
            let n = "..".to_owned();
            proof {
                reveal_strlit("..");
            }
            n
        },
    }
}

/// Where `p` goes among the paths `s` sorted by shown name: after every
/// path whose name is not greater.
pub open spec fn name_pos(s: Seq<Seq<char>>, p: Seq<char>) -> int
    decreases s.len(),
{
    if s.len() == 0 {
        0
    } else if text_less(shown_name(p), shown_name(s[0])) {
        0
    } else {
        1 + name_pos(s.drop_first(), p)
    }
}

/// The paths sorted by shown name in code-point order, paths of equal
/// name keeping their order (a stable sort).
pub open spec fn by_name(s: Seq<Seq<char>>) -> Seq<Seq<char>>
    decreases s.len(),
{
    if s.len() == 0 {
        Seq::empty()
    } else {
        let r = by_name(s.drop_last());
        r.insert(name_pos(r, s.last()), s.last())
    }
}

fn sort_by_name(paths: &Vec<String>) -> (r: Vec<String>)
    ensures
        r@.map_values(|p: String| p@) == by_name(paths@.map_values(|p: String| p@)),
{
    let ghost pv = paths@.map_values(|p: String| p@);
    let mut r: Vec<String> = Vec::new();
    let mut names: Vec<Vec<char>> = Vec::new();
    let mut i: usize = 0;
    proof {
        assert(pv.take(0) =~= Seq::<Seq<char>>::empty());
        assert(r@.map_values(|p: String| p@) =~= by_name(pv.take(0)));
    }
    while i < paths.len()
        invariant
            pv == paths@.map_values(|p: String| p@),
            i <= pv.len(),
            r@.map_values(|p: String| p@) == by_name(pv.take(i as int)),
            names@.len() == r@.len(),
            forall|k: int| 0 <= k < r@.len() ==> (#[trigger] names@[k])@ == shown_name(r@[k]@),
        decreases pv.len() - i,
    {
        let p = paths[i].clone();
        let name = get_display_name(&FileItem::File(p.clone()));
        let nc = chars_of(name.as_str());
        let ghost rv = r@.map_values(|p: String| p@);
        proof {
            assert(pv.take(i + 1).drop_last() =~= pv.take(i as int));
            assert(pv.take(i + 1).last() == pv[i as int]);
            assert(rv.skip(0) =~= rv);
        }
        let mut k: usize = 0;
        while k < r.len() && !text_less_exec(&nc, &names[k])
            invariant
                k <= r@.len(),
                rv == r@.map_values(|p: String| p@),
                names@.len() == r@.len(),
                forall|q: int| 0 <= q < r@.len() ==> (#[trigger] names@[q])@ == shown_name(r@[q]@),
                nc@ == shown_name(p@),
                name_pos(rv, p@) == k + name_pos(rv.skip(k as int), p@),
            decreases r@.len() - k,
        {
            proof {
                assert(rv.skip(k as int)[0] == rv[k as int]);
                assert(rv.skip(k as int).drop_first() =~= rv.skip(k + 1));
            }
            k = k + 1;
        }
        proof {
            if k < r@.len() {
                assert(rv.skip(k as int)[0] == rv[k as int]);
            }
        }
        let ghost names0 = names@;
        let ghost r0 = r@;
        r.insert(k, p);
        names.insert(k, nc);
        proof {
            assert(r@.map_values(|p: String| p@) =~= rv.insert(k as int, pv[i as int]));
            assert forall|q: int| 0 <= q < r@.len() implies (#[trigger] names@[q])@ == shown_name(r@[q]@) by {
                if q > k {
                    assert(names@[q] == names0[q - 1]);
                    assert(r@[q] == r0[q - 1]);
                } else if q < k {
                    assert(names@[q] == names0[q]);
                    assert(r@[q] == r0[q]);
                }
            }
        }
        i = i + 1;
    }
    proof {
        assert(pv.take(i as int) =~= pv);
    }
    r
}

/// The browser's state: the directory shown, its entries, the selected
/// row and the first row shown.
pub struct BrowserView {
    pub current_path: Seq<char>,
    pub items: Seq<(int, Seq<char>)>,
    pub selected_index: int,
    pub scroll_offset: int,
}

/// The entries of a directory: the way up where it has a parent, then its
/// directories, then its files, each sorted by shown name.
pub open spec fn listed_items(path: Seq<char>, dirs: Seq<Seq<char>>, files: Seq<Seq<char>>) -> Seq<
    (int, Seq<char>),
> {
    let up: Seq<(int, Seq<char>)> = if path_parent(path) is Some {
        seq![(2int, Seq::<char>::empty())]
    } else {
        Seq::empty()
    };
    up + by_name(dirs).map_values(|p: Seq<char>| (0int, p)) + by_name(files).map_values(
        |p: Seq<char>| (1int, p),
    )
}

/// A browser over the directories and files below a start directory.
pub struct FileBrowser {
    current_path: String,
    items: Vec<FileItem>,
    selected_index: usize,
    scroll_offset: usize,
}

impl View for FileBrowser {
    type V = BrowserView;

    closed spec fn view(&self) -> BrowserView {
        BrowserView {
            current_path: self.current_path@,
            items: items_view(self.items@),
            selected_index: self.selected_index as int,
            scroll_offset: self.scroll_offset as int,
        }
    }
}

impl FileBrowser {
    /// The browser's invariant: the first row shown is not below the
    /// selected one.
    pub open spec fn wf(&self) -> bool {
        0 <= self@.scroll_offset <= self@.selected_index
    }

    /// A browser on `start_path`, whose entries are still to be loaded.
    pub fn new(start_path: String) -> (b: Self)
        ensures
            b.wf(),
            b@ == (BrowserView {
                current_path: start_path@,
                items: Seq::empty(),
                selected_index: 0,
                scroll_offset: 0,
            }),
    {
        let b = FileBrowser { current_path: start_path, items: Vec::new(), selected_index: 0, scroll_offset: 0 };
        proof {
            assert(items_view(b.items@) =~= Seq::empty());
        }
        b
    }

    /// Puts in the entries of the current directory, as read: see
    /// `listed_items`. The selection goes to the first row.
    pub fn refresh_items(&mut self, dirs: Vec<String>, files: Vec<String>)
        ensures
            final(self).wf(),
            final(self)@ == (BrowserView {
                items: listed_items(
                    old(self)@.current_path,
                    dirs@.map_values(|p: String| p@),
                    files@.map_values(|p: String| p@),
                ),
                selected_index: 0,
                scroll_offset: 0,
                ..old(self)@
            }),
    {
        let mut items: Vec<FileItem> = Vec::new();
        if parent_of(self.current_path.as_str()).is_some() {
            items.push(FileItem::ParentDirectory);
        }
        let ghost up = items_view(items@);
        let sd = sort_by_name(&dirs);
        let sf = sort_by_name(&files);
        let ghost sdv = sd@.map_values(|p: String| p@);
        let ghost sfv = sf@.map_values(|p: String| p@);
        let mut i: usize = 0;
        while i < sd.len()
            invariant
                i <= sd@.len(),
                sdv == sd@.map_values(|p: String| p@),
                items_view(items@) == up + sdv.take(i as int).map_values(|p: Seq<char>| (0int, p)),
            decreases sd@.len() - i,
        {
            let ghost before = items_view(items@);
            items.push(FileItem::Directory(sd[i].clone()));
            proof {
                assert(items_view(items@) =~= before.push((0int, sdv[i as int])));
                assert(sdv.take(i + 1).map_values(|p: Seq<char>| (0int, p)) =~= sdv.take(i as int).map_values(
                    |p: Seq<char>| (0int, p),
                ).push((0int, sdv[i as int])));
            }
            i = i + 1;
        }
        proof {
            assert(sdv.take(i as int) =~= sdv);
        }
        let ghost mid = items_view(items@);
        let mut j: usize = 0;
        while j < sf.len()
            invariant
                j <= sf@.len(),
                sfv == sf@.map_values(|p: String| p@),
                items_view(items@) == mid + sfv.take(j as int).map_values(|p: Seq<char>| (1int, p)),
            decreases sf@.len() - j,
        {
            let ghost before = items_view(items@);
            items.push(FileItem::File(sf[j].clone()));
            proof {
                assert(items_view(items@) =~= before.push((1int, sfv[j as int])));
                assert(sfv.take(j + 1).map_values(|p: Seq<char>| (1int, p)) =~= sfv.take(j as int).map_values(
                    |p: Seq<char>| (1int, p),
                ).push((1int, sfv[j as int])));
            }
            j = j + 1;
        }
        proof {
            assert(sfv.take(j as int) =~= sfv);
            if path_parent(self@.current_path) is Some {
                assert(up =~= seq![(2int, Seq::<char>::empty())]);
            } else {
                assert(up =~= Seq::<(int, Seq<char>)>::empty());
            }
        }
        self.items = items;
        self.selected_index = 0;
        self.scroll_offset = 0;
    }

    /// The directory shown.
    pub fn get_current_path(&self) -> (p: &String)
        ensures
            p@ == self@.current_path,
    {
        &self.current_path
    }

    /// The selected entry, if the list has one there.
    pub fn get_selected_item(&self) -> (i: Option<&FileItem>)
        ensures
            match i {
                Some(it) => 0 <= self@.selected_index < self@.items.len() && item_view(*it)
                    == self@.items[self@.selected_index],
                None => self@.selected_index >= self@.items.len(),
            },
    {
        if self.selected_index < self.items.len() {
            Some(&self.items[self.selected_index])
        } else {
            None
        }
    }

    /// Enters the selected directory, or goes up from the way up where the
    /// directory has a parent: the entries are then to be loaded anew
    /// (`true`). A file, or no selection, leaves everything as it is.
    pub fn navigate_into(&mut self) -> (entered: bool)
        requires
            old(self).wf(),
        ensures
            final(self).wf(),
            ({
                let s = old(self)@;
                let sel = s.selected_index;
                if 0 <= sel < s.items.len() && s.items[sel].0 == 0 {
                    entered && final(self)@ == (BrowserView {
                        current_path: s.items[sel].1,
                        items: Seq::empty(),
                        selected_index: 0,
                        scroll_offset: 0,
                    })
                } else if 0 <= sel < s.items.len() && s.items[sel].0 == 2 && path_parent(s.current_path) is Some {
                    entered && final(self)@ == (BrowserView {
                        current_path: path_parent(s.current_path).unwrap(),
                        items: Seq::empty(),
                        selected_index: 0,
                        scroll_offset: 0,
                    })
                } else {
                    !entered && final(self)@ == s
                }
            }),
    {
        if self.selected_index >= self.items.len() {
            return false;
        }
        let target: Option<String> = match &self.items[self.selected_index] {
            FileItem::Directory(p) => Some(p.clone()),
            FileItem::ParentDirectory => parent_of(self.current_path.as_str()),
            FileItem::File(_) => None,
        };
        match target {
            Some(t) => {
                self.current_path = t;
                self.items = Vec::new();
                self.selected_index = 0;
                self.scroll_offset = 0;
                proof {
                    assert(items_view(self.items@) =~= Seq::empty());
                }
                true
            },
            None => false,
        }
    }

    /// Moves the selection up a row; the view follows.
    pub fn move_selection_up(&mut self)
        requires
            old(self).wf(),
        ensures
            final(self).wf(),
            final(self)@ == (if old(self)@.selected_index > 0 {
                BrowserView {
                    selected_index: old(self)@.selected_index - 1,
                    scroll_offset: if old(self)@.selected_index - 1 < old(self)@.scroll_offset {
                        old(self)@.selected_index - 1
                    } else {
                        old(self)@.scroll_offset
                    },
                    ..old(self)@
                }
            } else {
                old(self)@
            }),
    {
        if self.selected_index > 0 {
            self.selected_index = self.selected_index - 1;
            if self.selected_index < self.scroll_offset {
                self.scroll_offset = self.selected_index;
            }
        }
    }

    /// Moves the selection down a row; the view follows, a page tall.
    pub fn move_selection_down(&mut self)
        requires
            old(self).wf(),
            old(self)@.items.len() > 0,
        ensures
            final(self).wf(),
            final(self)@ == (if old(self)@.selected_index < old(self)@.items.len() - 1 {
                BrowserView {
                    selected_index: old(self)@.selected_index + 1,
                    scroll_offset: if old(self)@.selected_index + 1 >= old(self)@.scroll_offset
                        + ITEMS_PER_PAGE {
                        old(self)@.selected_index + 1 - ITEMS_PER_PAGE + 1
                    } else {
                        old(self)@.scroll_offset
                    },
                    ..old(self)@
                }
            } else {
                old(self)@
            }),
    {
        if self.selected_index < self.items.len() - 1 {
            self.selected_index = self.selected_index + 1;
            if self.selected_index - self.scroll_offset >= ITEMS_PER_PAGE {
                self.scroll_offset = self.selected_index - ITEMS_PER_PAGE + 1;
            }
        }
    }

    /// The entries.
    pub fn items(&self) -> (i: &Vec<FileItem>)
        ensures
            items_view(i@) == self@.items,
    {
        &self.items
    }

    pub fn selected_index(&self) -> (i: usize)
        ensures
            i == self@.selected_index,
    {
        self.selected_index
    }

    pub fn scroll_offset(&self) -> (i: usize)
        ensures
            i == self@.scroll_offset,
    {
        self.scroll_offset
    }
}

proof fn lemma_name_pos_range(s: Seq<Seq<char>>, p: Seq<char>)
    ensures
        0 <= name_pos(s, p) <= s.len(),
        forall|k: int| 0 <= k < name_pos(s, p) ==> !text_less(shown_name(p), shown_name(#[trigger] s[k])),
        name_pos(s, p) < s.len() ==> text_less(shown_name(p), shown_name(s[name_pos(s, p)])),
    decreases s.len(),
{
    if s.len() > 0 && !text_less(shown_name(p), shown_name(s[0])) {
        lemma_name_pos_range(s.drop_first(), p);
        assert forall|k: int| 0 <= k < name_pos(s, p) implies !text_less(shown_name(p), shown_name(#[trigger] s[k])) by {
            if k > 0 {
                assert(s[k] == s.drop_first()[k - 1]);
            }
        }
    }
}

/// Sorting by name leaves no path after one whose name comes later, and
/// keeps the number of paths.
pub proof fn lemma_by_name_sorted(s: Seq<Seq<char>>)
    ensures
        by_name(s).len() == s.len(),
        forall|i: int, j: int|
            0 <= i < j < by_name(s).len() ==> !text_less(shown_name(#[trigger] by_name(s)[j]), shown_name(#[trigger] by_name(s)[i])),
    decreases s.len(),
{
    if s.len() > 0 {
        let r = by_name(s.drop_last());
        let x = s.last();
        let pos = name_pos(r, x);
        lemma_by_name_sorted(s.drop_last());
        lemma_name_pos_range(r, x);
        let t = by_name(s);
        assert(t == r.insert(pos, x));
        assert forall|i: int, j: int| 0 <= i < j < t.len() implies !text_less(shown_name(#[trigger] t[j]), shown_name(#[trigger] t[i])) by {
            if j < pos {
                assert(t[i] == r[i] && t[j] == r[j]);
            } else if j == pos {
                assert(t[i] == r[i] && t[j] == x);
            } else if i > pos {
                assert(t[i] == r[i - 1] && t[j] == r[j - 1]);
            } else if i == pos {
                assert(t[i] == x && t[j] == r[j - 1]);
                let y = r[j - 1];
                if text_less(shown_name(y), shown_name(x)) {
                    let z = r[pos];
                    if j - 1 == pos {
                        lemma_text_less_asym(shown_name(x), shown_name(y));
                    } else {
                        lemma_text_less_trans(shown_name(y), shown_name(x), shown_name(z));
                    }
                }
            } else {
                assert(t[i] == r[i] && t[j] == r[j - 1]);
            }
        }
    }
}

} // verus!
