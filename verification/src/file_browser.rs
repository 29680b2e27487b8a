//! The file browser of the open and save dialogs: a directory listing with
//! a selection that stays in view, going into directories and up to the
//! parent, and the file name typed when saving.

use vstd::prelude::*;
use crate::text::{spec_is_whitespace, is_whitespace, chars_of, concat_str, string_of, lowercase, spec_lowercase};
use crate::app::AppMode;

verus! {

/// One entry of a directory listing.
#[derive(Debug, Clone)]
pub struct DirEntry {
    pub name: String,
    pub is_dir: bool,
    pub path: String,
}

/// The rows of the browser kept in view when the selection moves by key.
pub const DEFAULT_VISIBLE_ROWS: usize = 20;

/// A directory listing with a selection; in save mode, with a file name.
pub struct FileBrowser {
    pub current_dir: String,
    pub entries: Vec<DirEntry>,
    pub selected: usize,
    pub scroll_offset: usize,
    /// The file name typed, in save mode.
    pub filename_input: Option<String>,
}

/// The path `Path::join` makes of a base and a relative part.
pub uninterp spec fn spec_path_join(base: Seq<char>, part: Seq<char>) -> Seq<char>;

/// `std::path::Path::join`, on paths given as text and converted back with
/// `to_string_lossy`. Joining depends on the two texts alone, so the result
/// is named `spec_path_join`; nothing more of it is stated here.
#[verifier::external_body]
pub(crate) fn path_join(base: &str, part: &str) -> (r: String)
    ensures
        r@ == spec_path_join(base@, part@),
{
    std::path::Path::new(base).join(part).to_string_lossy().to_string()
}

/// The parent `Path::parent` gives of a path; none at a root.
pub uninterp spec fn spec_parent(path: Seq<char>) -> Option<Seq<char>>;

/// `std::path::Path::parent`, on a path given as text and converted back
/// with `to_string_lossy`. The parent depends on the text alone, so the
/// result is named `spec_parent`; nothing more of it is stated here.
#[verifier::external_body]
pub(crate) fn path_parent(path: &str) -> (r: Option<String>)
    ensures
        spec_parent(path@) == match r {
            Some(p) => Some(p@),
            None => None::<Seq<char>>,
        },
{
    std::path::Path::new(path).parent().map(|p| p.to_string_lossy().to_string())
}

/// The text without the white space at its start and at its end.
pub open spec fn trimmed(s: Seq<char>) -> Seq<char> {
    let a = first_non_ws(s, 0);
    let b = last_non_ws_end(s, s.len() as int);
    if a < b {
        s.subrange(a, b)
    } else {
        seq![]
    }
}

/// The first position from `i` on that holds no white space (the end when
/// there is none).
pub open spec fn first_non_ws(s: Seq<char>, i: int) -> int
    decreases s.len() - i,
{
    if i < 0 || i >= s.len() || !spec_is_whitespace(s[i]) {
        i
    } else {
        first_non_ws(s, i + 1)
    }
}

/// The end of the text before position `j` once its trailing white space
/// is left out.
pub open spec fn last_non_ws_end(s: Seq<char>, j: int) -> int
    decreases j,
{
    if j <= 0 || j > s.len() || !spec_is_whitespace(s[j - 1]) {
        j
    } else {
        last_non_ws_end(s, j - 1)
    }
}

/// Trims white space from both ends of a text.
pub fn trim_whitespace(s: &str) -> (r: String)
    ensures
        r@ == trimmed(s@),
{
    let cs = chars_of(s);
    let mut a: usize = 0;
    while a < cs.len() && is_whitespace(cs[a])
        invariant
            a <= cs@.len(),
            cs@ == s@,
            first_non_ws(s@, 0) == first_non_ws(s@, a as int),
        decreases cs@.len() - a,
    {
        a = a + 1;
    }
    let mut b: usize = cs.len();
    while b > 0 && is_whitespace(cs[b - 1])
        invariant
            b <= cs@.len(),
            cs@ == s@,
            last_non_ws_end(s@, s@.len() as int) == last_non_ws_end(s@, b as int),
        decreases b,
    {
        b = b - 1;
    }
    let mut out: Vec<char> = Vec::new();
    if a < b {
        let mut k: usize = a;
        while k < b
            invariant
                a <= k <= b <= cs@.len(),
                out@ == cs@.subrange(a as int, k as int),
            decreases b - k,
        {
            out.push(cs[k]);
            k = k + 1;
            proof {
                assert(out@ =~= cs@.subrange(a as int, k as int));
            }
        }
    } else {
        proof {
            assert(out@ =~= Seq::<char>::empty());
        }
    }
    string_of(out.as_slice())
}

/// Where the view starts so that the selected row shows among
/// `visible_height` rows: unmoved when it already shows.
pub open spec fn scroll_for(selected: int, scroll: int, visible_height: int) -> int {
    if visible_height == 0 {
        scroll
    } else if selected < scroll {
        selected
    } else if selected >= scroll + visible_height {
        selected - visible_height + 1
    } else {
        scroll
    }
}

/// Opens the selected entry: a directory becomes the current one (its
/// listing to be read anew, so the listing is cleared) and nothing is
/// returned; a file's path is returned.
pub open spec fn entered(before: FileBrowser, after: FileBrowser, r: Option<String>) -> bool {
    &&& ((before.selected as int) < before.entries@.len() && before.entries@[before.selected as int].is_dir ==> {
        &&& r is None
        &&& after.current_dir == before.entries@[before.selected as int].path
        &&& after.entries@.len() == 0
        &&& after.selected == 0
        &&& after.scroll_offset == 0
        &&& after.filename_input == before.filename_input
    })
    &&& ((before.selected as int) < before.entries@.len() && !before.entries@[before.selected as int].is_dir ==> {
        &&& r == Some(before.entries@[before.selected as int].path)
        &&& after == before
    })
    &&& ((before.selected as int) >= before.entries@.len() ==> r is None && after == before)
}

/// Goes up to the parent directory, unless at the root (see
/// `FileBrowser::go_parent`).
pub open spec fn went_up(before: FileBrowser, after: FileBrowser, moved: bool) -> bool {
    match spec_parent(before.current_dir@) {
        None => !moved && after == before,
        Some(p) => {
            &&& moved
            &&& after.current_dir@ == p
            &&& after.entries@.len() == 0
            &&& after.selected == 0
            &&& after.scroll_offset == 0
            &&& after.filename_input == before.filename_input
        },
    }
}

/// Selects the entry above, keeping it in view.
pub open spec fn moved_up(before: FileBrowser, after: FileBrowser) -> bool {
    &&& (before.selected > 0 ==> {
        &&& after.selected == before.selected - 1
        &&& after.scroll_offset == scroll_for(after.selected as int, before.scroll_offset as int, DEFAULT_VISIBLE_ROWS as int)
    })
    &&& (before.selected == 0 ==> after == before)
    &&& after.entries == before.entries
    &&& after.current_dir == before.current_dir
    &&& after.filename_input == before.filename_input
}

/// Selects the entry below, when there is one, keeping it in view.
pub open spec fn moved_down(before: FileBrowser, after: FileBrowser) -> bool {
    &&& ((before.selected as int) + 1 < before.entries@.len() ==> {
        &&& after.selected == before.selected + 1
        &&& after.scroll_offset == scroll_for(after.selected as int, before.scroll_offset as int, DEFAULT_VISIBLE_ROWS as int)
    })
    &&& ((before.selected as int) + 1 >= before.entries@.len() ==> after == before)
    &&& after.entries == before.entries
    &&& after.current_dir == before.current_dir
    &&& after.filename_input == before.filename_input
}

/// Moves the selection a page up, stopping at the first entry, keeping
/// it in view.
pub open spec fn paged_up(before: FileBrowser, after: FileBrowser, page_size: usize) -> bool {
    &&& after.selected == if before.selected >= page_size { before.selected - page_size } else { 0 }
    &&& after.scroll_offset == scroll_for(after.selected as int, before.scroll_offset as int, DEFAULT_VISIBLE_ROWS as int)
    &&& after.entries == before.entries
    &&& after.current_dir == before.current_dir
    &&& after.filename_input == before.filename_input
}

/// Moves the selection a page down, stopping at the last entry, keeping
/// it in view; an empty listing stays as it is.
pub open spec fn paged_down(before: FileBrowser, after: FileBrowser, page_size: usize) -> bool {
    &&& (before.entries@.len() == 0 ==> after == before)
    &&& (before.entries@.len() > 0 ==> {
        let last = before.entries@.len() - 1;
        let target = before.selected + page_size;
        &&& after.selected == if target < last { target } else { last }
        &&& after.scroll_offset == scroll_for(after.selected as int, before.scroll_offset as int, DEFAULT_VISIBLE_ROWS as int)
    })
    &&& after.entries == before.entries
    &&& after.current_dir == before.current_dir
    &&& after.filename_input == before.filename_input
}

impl FileBrowser {
    /// A browser of `current_dir` with nothing listed yet; with a file name
    /// to save under in save mode.
    pub fn at(current_dir: String, filename_input: Option<String>) -> (b: FileBrowser)
        ensures
            b.current_dir == current_dir,
            b.entries@.len() == 0,
            b.selected == 0,
            b.scroll_offset == 0,
            b.filename_input == filename_input,
    {
        FileBrowser { current_dir, entries: Vec::new(), selected: 0, scroll_offset: 0, filename_input }
    }

    /// A browser of `current_dir` showing the entries read of it, arranged
    /// (see `show_listing`); with a file name to save under in save mode.
    pub fn listed(current_dir: String, filename_input: Option<String>, raw: Vec<DirEntry>) -> (b: FileBrowser)
        ensures
            b.current_dir == current_dir,
            is_listing(spec_parent(current_dir@), raw@, b.entries@),
            b.selected == 0,
            b.scroll_offset == 0,
            b.filename_input == filename_input,
    {
        let mut b = FileBrowser::at(current_dir, filename_input);
        b.show_listing(raw);
        b
    }

    /// Shows a new listing, selecting its first entry.
    pub fn set_entries(&mut self, entries: Vec<DirEntry>)
        ensures
            final(self).entries == entries,
            final(self).selected == 0,
            final(self).scroll_offset == 0,
            final(self).current_dir == old(self).current_dir,
            final(self).filename_input == old(self).filename_input,
    {
        self.entries = entries;
        self.selected = 0;
        self.scroll_offset = 0;
    }

    /// Shows the entries read of the current directory, arranged for the
    /// browser (see `is_listing`, with the parent `Path::parent` gives),
    /// selecting the first.
    pub fn show_listing(&mut self, raw: Vec<DirEntry>)
        ensures
            is_listing(spec_parent(old(self).current_dir@), raw@, final(self).entries@),
            final(self).selected == 0,
            final(self).scroll_offset == 0,
            final(self).current_dir == old(self).current_dir,
            final(self).filename_input == old(self).filename_input,
    {
        let parent = path_parent(self.current_dir.as_str());
        let entries = arrange_listing(parent, raw);
        self.set_entries(entries);
    }

    /// Whether the browser picks a place to save to.
    pub fn is_save_mode(&self) -> (b: bool)
        ensures
            b == self.filename_input is Some,
    {
        self.filename_input.is_some()
    }

    /// The path to save to: the typed file name, trimmed, joined to the
    /// current directory; none when nothing but white space was typed or
    /// the browser is not in save mode.
    pub fn save_path(&self) -> (r: Option<String>)
        ensures
            match self.filename_input {
                None => r is None,
                Some(name) => if trimmed(name@).len() == 0 {
                    r is None
                } else {
                    r matches Some(p) && p@ == spec_path_join(self.current_dir@, trimmed(name@))
                },
            },
    {
        match &self.filename_input {
            None => None,
            Some(name) => {
                let t = trim_whitespace(name.as_str());
                if t.unicode_len() == 0 {
                    None
                } else {
                    Some(path_join(self.current_dir.as_str(), t.as_str()))
                }
            },
        }
    }

    /// Opens the selected entry: a directory becomes the current one (its
    /// listing to be read anew, so the listing is cleared) and nothing is
    /// returned; a file's path is returned.
    pub fn enter(&mut self) -> (r: Option<String>)
        ensures
            entered(*old(self), *final(self), r),
    {
        if self.selected < self.entries.len() {
            if self.entries[self.selected].is_dir {
                let p = self.entries[self.selected].path.clone();
                self.current_dir = p;
                self.set_entries(Vec::new());
                None
            } else {
                Some(self.entries[self.selected].path.clone())
            }
        } else {
            None
        }
    }

    /// Goes up to the parent directory, unless at the root; its listing is
    /// to be read anew, so the listing is cleared. Says whether it moved.
    pub fn go_parent(&mut self) -> (moved: bool)
        ensures
            went_up(*old(self), *final(self), moved),
    {
        match path_parent(self.current_dir.as_str()) {
            Some(p) => {
                self.current_dir = p;
                self.set_entries(Vec::new());
                true
            },
            None => false,
        }
    }

    /// Selects the entry above, keeping it in view.
    pub fn move_up(&mut self)
        ensures
            moved_up(*old(self), *final(self)),
    {
        if self.selected > 0 {
            self.selected = self.selected - 1;
            self.adjust_scroll_with_height(DEFAULT_VISIBLE_ROWS);
        }
    }

    /// Selects the entry below, when there is one, keeping it in view.
    pub fn move_down(&mut self)
        ensures
            moved_down(*old(self), *final(self)),
    {
        if self.entries.len() > 0 && self.selected < self.entries.len() - 1 {
            self.selected = self.selected + 1;
            self.adjust_scroll_with_height(DEFAULT_VISIBLE_ROWS);
        }
    }

    /// Moves the selection a page up, stopping at the first entry, keeping
    /// it in view.
    pub fn page_up(&mut self, page_size: usize)
        ensures
            paged_up(*old(self), *final(self), page_size),
    {
        self.selected = self.selected.saturating_sub(page_size);
        self.adjust_scroll_with_height(DEFAULT_VISIBLE_ROWS);
    }

    /// Moves the selection a page down, stopping at the last entry, keeping
    /// it in view; an empty listing stays as it is.
    pub fn page_down(&mut self, page_size: usize)
        requires
            old(self).selected + page_size <= usize::MAX,
        ensures
            paged_down(*old(self), *final(self), page_size),
    {
        if self.entries.len() > 0 {
            let last = self.entries.len() - 1;
            let target = self.selected + page_size;
            self.selected = if target < last { target } else { last };
            self.adjust_scroll_with_height(DEFAULT_VISIBLE_ROWS);
        }
    }

    /// Scrolls so that the selected entry shows among `visible_height`
    /// rows.
    pub fn adjust_scroll_with_height(&mut self, visible_height: usize)
        ensures
            final(self).scroll_offset == scroll_for(old(self).selected as int, old(self).scroll_offset as int, visible_height as int),
            final(self).selected == old(self).selected,
            final(self).entries == old(self).entries,
            final(self).current_dir == old(self).current_dir,
            final(self).filename_input == old(self).filename_input,
    {
        if visible_height == 0 {
            return;
        }
        if self.selected < self.scroll_offset {
            self.scroll_offset = self.selected;
        } else if self.selected - self.scroll_offset >= visible_height {
            self.scroll_offset = self.selected - visible_height + 1;
        }
    }
}

/// An entry as its name, kind and path.
pub open spec fn entry_view(e: DirEntry) -> (Seq<char>, bool, Seq<char>) {
    (e.name@, e.is_dir, e.path@)
}

/// Entries as their names, kinds and paths.
pub open spec fn entries_view(s: Seq<DirEntry>) -> Seq<(Seq<char>, bool, Seq<char>)> {
    s.map_values(|e: DirEntry| entry_view(e))
}

/// The entries of `raw` at the positions `idx`, as names, kinds and paths.
pub open spec fn chosen_view(raw: Seq<DirEntry>, idx: Seq<int>) -> Seq<(Seq<char>, bool, Seq<char>)> {
    idx.map_values(|i: int| entry_view(raw[i]))
}

/// Positions as integers.
pub open spec fn as_ints(v: Seq<usize>) -> Seq<int> {
    v.map_values(|i: usize| i as int)
}

/// An entry shows in the browser unless its name starts with a dot.
pub open spec fn shown_entry(e: DirEntry) -> bool {
    !(e.name@.len() > 0 && e.name@[0] == '.')
}

/// Texts in the order of their characters' code points, a prefix first.
pub open spec fn text_le(a: Seq<char>, b: Seq<char>) -> bool
    decreases a.len(),
{
    if a.len() == 0 {
        true
    } else if b.len() == 0 {
        false
    } else if a[0] != b[0] {
        (a[0] as u32) < (b[0] as u32)
    } else {
        text_le(a.drop_first(), b.drop_first())
    }
}

proof fn lemma_text_le_reflexive(a: Seq<char>)
    ensures
        text_le(a, a),
    decreases a.len(),
{
    if a.len() > 0 {
        lemma_text_le_reflexive(a.drop_first());
    }
}

proof fn lemma_text_le_total(a: Seq<char>, b: Seq<char>)
    ensures
        text_le(a, b) || text_le(b, a),
    decreases a.len(),
{
    if a.len() > 0 && b.len() > 0 {
        if a[0] == b[0] {
            lemma_text_le_total(a.drop_first(), b.drop_first());
        } else {
            vstd::utf8::char_u32_cast(a[0], a[0] as u32);
            vstd::utf8::char_u32_cast(b[0], b[0] as u32);
        }
    }
}

proof fn lemma_text_le_transitive(a: Seq<char>, b: Seq<char>, c: Seq<char>)
    requires
        text_le(a, b),
        text_le(b, c),
    ensures
        text_le(a, c),
    decreases a.len(),
{
    if a.len() > 0 && b.len() > 0 && c.len() > 0 {
        if a[0] == b[0] && b[0] == c[0] {
            lemma_text_le_transitive(a.drop_first(), b.drop_first(), c.drop_first());
        }
    }
}

/// The key the browser sorts an entry by: its name in lower case.
pub open spec fn name_key(e: DirEntry) -> Seq<char> {
    spec_lowercase(e.name@)
}

/// `order` lists, once each, the entries of `raw` that show and are
/// directories (or files, without `dirs`), sorted by `name_key`, entries
/// with equal keys in the order of `raw`.
pub open spec fn sorted_group(raw: Seq<DirEntry>, dirs: bool, order: Seq<int>) -> bool {
    &&& order.no_duplicates()
    &&& forall|k: int| 0 <= k < order.len() ==> 0 <= #[trigger] order[k] < raw.len() && raw[order[k]].is_dir == dirs
        && shown_entry(raw[order[k]])
    &&& forall|i: int| 0 <= i < raw.len() && raw[i].is_dir == dirs && shown_entry(raw[i]) ==> #[trigger] order.contains(i)
    &&& forall|a: int, b: int| 0 <= a < b < order.len() ==> {
        &&& text_le(name_key(raw[order[a]]), name_key(raw[order[b]]))
        &&& name_key(raw[order[a]]) == name_key(raw[order[b]]) ==> order[a] < order[b]
    }
}

/// What the browser lists of a directory: the parent first (named "..")
/// unless at the root, then the directories that show, then the files
/// that show, each group sorted by lower-case name.
pub open spec fn is_listing(parent: Option<Seq<char>>, raw: Seq<DirEntry>, out: Seq<DirEntry>) -> bool {
    let head: Seq<(Seq<char>, bool, Seq<char>)> = match parent {
        Some(p) => seq![(".."@, true, p)],
        None => seq![],
    };
    exists|dirs: Seq<int>, files: Seq<int>| #[trigger] sorted_group(raw, true, dirs) && #[trigger] sorted_group(raw, false, files)
        && entries_view(out) == head + chosen_view(raw, dirs)
            + chosen_view(raw, files)
}

/// Whether `a` comes no later than `b` (see `text_le`).
fn text_le_exec(a: &Vec<char>, b: &Vec<char>) -> (r: bool)
    ensures
        r == text_le(a@, b@),
{
    let mut i: usize = 0;
    proof {
        assert(a@.skip(0) =~= a@);
        assert(b@.skip(0) =~= b@);
    }
    while i < a.len() && i < b.len() && a[i] == b[i]
        invariant
            i <= a@.len(),
            i <= b@.len(),
            text_le(a@, b@) == text_le(a@.skip(i as int), b@.skip(i as int)),
        decreases a@.len() - i,
    {
        proof {
            assert(a@.skip(i as int).drop_first() =~= a@.skip(i + 1));
            assert(b@.skip(i as int).drop_first() =~= b@.skip(i + 1));
        }
        i = i + 1;
    }
    if i == a.len() {
        true
    } else if i == b.len() {
        false
    } else {
        proof {
            assert(a@.skip(i as int)[0] == a@[i as int]);
            assert(b@.skip(i as int)[0] == b@[i as int]);
        }
        (a[i] as u32) < (b[i] as u32)
    }
}

/// The entries of `raw` that show and are directories (or files), sorted
/// stably by lower-case name (see `sorted_group`).
fn sort_group(raw: &Vec<DirEntry>, keys: &Vec<Vec<char>>, dirs: bool) -> (order: Vec<usize>)
    requires
        keys@.len() == raw@.len(),
        forall|i: int| 0 <= i < raw@.len() ==> #[trigger] keys@[i]@ == name_key(raw@[i]),
    ensures
        sorted_group(raw@, dirs, as_ints(order@)),
{
    let mut order: Vec<usize> = Vec::new();
    let mut i: usize = 0;
    while i < raw.len()
        invariant
            i <= raw@.len(),
            keys@.len() == raw@.len(),
            forall|j: int| 0 <= j < raw@.len() ==> #[trigger] keys@[j]@ == name_key(raw@[j]),
            forall|k: int| 0 <= k < order@.len() ==> #[trigger] order@[k] < i,
            forall|a: int, b: int| 0 <= a < b < order@.len() ==> order@[a] != order@[b],
            forall|k: int| 0 <= k < order@.len() ==> raw@[#[trigger] order@[k] as int].is_dir == dirs
                && shown_entry(raw@[order@[k] as int]),
            forall|j: int| 0 <= j < i && raw@[j].is_dir == dirs && shown_entry(raw@[j]) ==> exists|k: int|
                0 <= k < order@.len() && #[trigger] order@[k] == j,
            forall|a: int, b: int| 0 <= a < b < order@.len() ==> {
                &&& text_le(name_key(raw@[#[trigger] order@[a] as int]), name_key(raw@[#[trigger] order@[b] as int]))
                &&& name_key(raw@[order@[a] as int]) == name_key(raw@[order@[b] as int]) ==> order@[a] < order@[b]
            },
        decreases raw@.len() - i,
    {
        let e = &raw[i];
        let shows = !(e.name.unicode_len() > 0 && e.name.get_char(0) == '.');
        if e.is_dir == dirs && shows {
            let mut p: usize = order.len();
            while p > 0 && !text_le_exec(&keys[order[p - 1]], &keys[i])
                invariant
                    p <= order@.len(),
                    keys@.len() == raw@.len(),
                    i < raw@.len(),
                    forall|k: int| 0 <= k < order@.len() ==> #[trigger] order@[k] < i,
                    forall|q: int| p <= q < order@.len() ==> !text_le(keys@[#[trigger] order@[q] as int]@, keys@[i as int]@),
                decreases p,
            {
                p = p - 1;
            }
            let ghost old_order = order@;
            order.insert(p, i);
            proof {
                let ki = name_key(raw@[i as int]);
                assert(keys@[i as int]@ == ki);
                assert forall|q: int| p <= q < old_order.len() implies !text_le(name_key(raw@[#[trigger] old_order[q] as int]), ki) by {
                    assert(keys@[old_order[q] as int]@ == name_key(raw@[old_order[q] as int]));
                }
                if p > 0 {
                    assert(keys@[old_order[p - 1] as int]@ == name_key(raw@[old_order[p - 1] as int]));
                    assert(text_le(name_key(raw@[old_order[p - 1] as int]), ki));
                }
                assert forall|a: int, b: int| 0 <= a < b < order@.len() implies {
                    &&& text_le(name_key(raw@[#[trigger] order@[a] as int]), name_key(raw@[#[trigger] order@[b] as int]))
                    &&& name_key(raw@[order@[a] as int]) == name_key(raw@[order@[b] as int]) ==> order@[a] < order@[b]
                } by {
                    let ka = name_key(raw@[order@[a] as int]);
                    let kb = name_key(raw@[order@[b] as int]);
                    if a < p && b < p {
                        assert(order@[a] == old_order[a] && order@[b] == old_order[b]);
                    } else if a > p && b > p {
                        assert(order@[a] == old_order[a - 1] && order@[b] == old_order[b - 1]);
                    } else if a < p && b == p {
                        assert(order@[a] == old_order[a]);
                        if a < p - 1 {
                            lemma_text_le_transitive(ka, name_key(raw@[old_order[p - 1] as int]), ki);
                        }
                    } else if a < p && b > p {
                        assert(order@[a] == old_order[a] && order@[b] == old_order[b - 1]);
                    } else {
                        assert(a == p && b > p);
                        assert(order@[b] == old_order[b - 1]);
                        lemma_text_le_total(kb, ki);
                        lemma_text_le_reflexive(ki);
                    }
                }
                assert forall|j: int| 0 <= j < i + 1 && raw@[j].is_dir == dirs && shown_entry(raw@[j]) implies exists|k: int|
                    0 <= k < order@.len() && #[trigger] order@[k] == j by {
                    if j == i {
                        assert(order@[p as int] == j);
                    } else {
                        let k0 = choose|k: int| 0 <= k < old_order.len() && #[trigger] old_order[k] == j;
                        if k0 < p {
                            assert(order@[k0] == j);
                        } else {
                            assert(order@[k0 + 1] == j);
                        }
                    }
                }
                assert forall|k: int| 0 <= k < order@.len() implies raw@[#[trigger] order@[k] as int].is_dir == dirs
                    && shown_entry(raw@[order@[k] as int]) by {
                    if k < p {
                        assert(order@[k] == old_order[k]);
                    } else if k > p {
                        assert(order@[k] == old_order[k - 1]);
                    }
                }
            }
        }
        i = i + 1;
    }
    proof {
        let ov = as_ints(order@);
        assert forall|a: int, b: int| 0 <= a < b < ov.len() implies ov[a] != ov[b] by {}
        assert(ov.no_duplicates());
        assert forall|j: int| 0 <= j < raw@.len() && raw@[j].is_dir == dirs && shown_entry(raw@[j]) implies #[trigger] ov.contains(j) by {
            let k = choose|k: int| 0 <= k < order@.len() && #[trigger] order@[k] == j;
            assert(ov[k] == j);
        }
    }
    order
}

/// Arranges the entries read of a directory for the browser (see
/// `is_listing`), given the path of its parent (none at the root).
pub fn arrange_listing(parent: Option<String>, raw: Vec<DirEntry>) -> (out: Vec<DirEntry>)
    ensures
        is_listing(
            match parent {
                Some(p) => Some(p@),
                None => None,
            },
            raw@,
            out@,
        ),
{
    let mut keys: Vec<Vec<char>> = Vec::new();
    let mut k: usize = 0;
    while k < raw.len()
        invariant
            k <= raw@.len(),
            keys@.len() == k,
            forall|i: int| 0 <= i < k ==> #[trigger] keys@[i]@ == name_key(raw@[i]),
        decreases raw@.len() - k,
    {
        let low = lowercase(raw[k].name.as_str());
        keys.push(chars_of(low.as_str()));
        k = k + 1;
    }
    let dirs = sort_group(&raw, &keys, true);
    let files = sort_group(&raw, &keys, false);
    let ghost pv = if parent is Some { Some(parent->0@) } else { None::<Seq<char>> };
    let ghost head: Seq<(Seq<char>, bool, Seq<char>)> = match pv {
        Some(p) => seq![(".."@, true, p)],
        None => seq![],
    };
    let mut out: Vec<DirEntry> = Vec::new();
    match parent {
        Some(p) => {
            out.push(DirEntry { name: string_of(chars_of("..").as_slice()), is_dir: true, path: p });
        },
        None => {},
    }
    proof {
        assert(entries_view(out@) =~= head);
    }
    let ghost dv = as_ints(dirs@);
    let ghost fv = as_ints(files@);
    let mut j: usize = 0;
    proof {
        assert forall|q: int| 0 <= q < dirs@.len() implies #[trigger] dirs@[q] < raw@.len() by {
            assert(dv[q] == dirs@[q] as int);
        }
        assert(chosen_view(raw@, dv.take(0)) =~= Seq::<(Seq<char>, bool, Seq<char>)>::empty());
        assert(entries_view(out@) =~= head + chosen_view(raw@, dv.take(0)));
    }
    while j < dirs.len()
        invariant
            j <= dirs@.len(),
            dv == as_ints(dirs@),
            forall|q: int| 0 <= q < dirs@.len() ==> #[trigger] dirs@[q] < raw@.len(),
            entries_view(out@) == head + chosen_view(raw@, dv.take(j as int)),
        decreases dirs@.len() - j,
    {
        let e = &raw[dirs[j]];
        let ghost before = out@;
        out.push(DirEntry { name: string_of(chars_of(e.name.as_str()).as_slice()), is_dir: e.is_dir, path: string_of(chars_of(e.path.as_str()).as_slice()) });
        proof {
            assert(dv[j as int] == dirs@[j as int] as int);
            assert(entry_view(out@[out@.len() - 1]) == entry_view(raw@[dv[j as int]]));
            assert(dv.take(j + 1) =~= dv.take(j as int).push(dv[j as int]));
            assert(out@ =~= before.push(out@[out@.len() - 1]));
            let v = entry_view(raw@[dv[j as int]]);
            assert(entries_view(out@) =~= entries_view(before).push(v));
            assert(chosen_view(raw@, dv.take(j + 1)) =~= chosen_view(raw@, dv.take(j as int)).push(v));
            assert((head + chosen_view(raw@, dv.take(j as int))).push(v) =~= head + chosen_view(raw@, dv.take(j as int)).push(v));
        }
        j = j + 1;
        proof {
            assert(entries_view(out@) =~= head + chosen_view(raw@, dv.take(j as int)));
        }
    }
    proof {
        assert(dv.take(dirs@.len() as int) =~= dv);
    }
    let ghost mid = entries_view(out@);
    let mut j: usize = 0;
    proof {
        assert forall|q: int| 0 <= q < files@.len() implies #[trigger] files@[q] < raw@.len() by {
            assert(fv[q] == files@[q] as int);
        }
        assert(chosen_view(raw@, fv.take(0)) =~= Seq::<(Seq<char>, bool, Seq<char>)>::empty());
        assert(entries_view(out@) =~= mid + chosen_view(raw@, fv.take(0)));
    }
    while j < files.len()
        invariant
            j <= files@.len(),
            fv == as_ints(files@),
            forall|q: int| 0 <= q < files@.len() ==> #[trigger] files@[q] < raw@.len(),
            entries_view(out@) == mid + chosen_view(raw@, fv.take(j as int)),
        decreases files@.len() - j,
    {
        let e = &raw[files[j]];
        let ghost before = out@;
        out.push(DirEntry { name: string_of(chars_of(e.name.as_str()).as_slice()), is_dir: e.is_dir, path: string_of(chars_of(e.path.as_str()).as_slice()) });
        proof {
            assert(fv[j as int] == files@[j as int] as int);
            assert(entry_view(out@[out@.len() - 1]) == entry_view(raw@[fv[j as int]]));
            assert(fv.take(j + 1) =~= fv.take(j as int).push(fv[j as int]));
            assert(out@ =~= before.push(out@[out@.len() - 1]));
            let v = entry_view(raw@[fv[j as int]]);
            assert(entries_view(out@) =~= entries_view(before).push(v));
            assert(chosen_view(raw@, fv.take(j + 1)) =~= chosen_view(raw@, fv.take(j as int)).push(v));
            assert((mid + chosen_view(raw@, fv.take(j as int))).push(v) =~= mid + chosen_view(raw@, fv.take(j as int)).push(v));
        }
        j = j + 1;
        proof {
            assert(entries_view(out@) =~= mid + chosen_view(raw@, fv.take(j as int)));
        }
    }
    proof {
        assert(fv.take(files@.len() as int) =~= fv);
        assert(sorted_group(raw@, true, dv));
        assert(sorted_group(raw@, false, fv));
    }
    out
}

/// The title of the file dialog in a mode: which file is picked or saved.
pub open spec fn dialog_title(mode: AppMode) -> Seq<char> {
    match mode {
        AppMode::OpenLeft => " Select left file "@,
        AppMode::OpenRight => " Select right file "@,
        AppMode::OpenBase => " Select base file "@,
        AppMode::SaveLeft => " Save left file "@,
        AppMode::SaveRight => " Save right file "@,
        _ => ""@,
    }
}

/// The title of the file dialog in a mode (see `dialog_title`).
pub fn browser_title(mode: AppMode) -> (r: &'static str)
    ensures
        r@ == dialog_title(mode),
{
    match mode {
        AppMode::OpenLeft => " Select left file ",
        AppMode::OpenRight => " Select right file ",
        AppMode::OpenBase => " Select base file ",
        AppMode::SaveLeft => " Save left file ",
        AppMode::SaveRight => " Save right file ",
        _ => "",
    }
}

/// How a row of the file dialog is drawn.
#[derive(Debug, Clone, Copy, PartialEq, Eq, Structural)]
pub enum EntryLook {
    /// A file.
    Plain,
    /// A directory.
    Folder,
    /// The selected file.
    Selected,
    /// The selected directory.
    SelectedFolder,
}

/// How a row of the file dialog is drawn: by whether it is a directory and
/// whether it is selected.
pub open spec fn spec_entry_look(is_dir: bool, selected: bool) -> EntryLook {
    if is_dir {
        if selected { EntryLook::SelectedFolder } else { EntryLook::Folder }
    } else if selected {
        EntryLook::Selected
    } else {
        EntryLook::Plain
    }
}

/// How a row of the file dialog is drawn (see `spec_entry_look`).
pub fn entry_look(is_dir: bool, selected: bool) -> (r: EntryLook)
    ensures
        r == spec_entry_look(is_dir, selected),
{
    if is_dir {
        if selected { EntryLook::SelectedFolder } else { EntryLook::Folder }
    } else if selected {
        EntryLook::Selected
    } else {
        EntryLook::Plain
    }
}

/// The text of a row of the file dialog: a folder mark before a
/// directory's name, spaces of the same width before a file's.
pub fn entry_text(e: &DirEntry) -> (r: String)
    ensures
        r@ == (if e.is_dir { "\u{1F4C1} "@ } else { "   "@ }) + e.name@,
{
    if e.is_dir {
        concat_str("\u{1F4C1} ", e.name.as_str())
    } else {
        concat_str("   ", e.name.as_str())
    }
}

} // verus!
