//! Comparing two directory trees: the files of both, by relative path in
//! path order, each marked as present on one side only, equal, or
//! changed.

use vstd::prelude::*;
use crate::models::{DirCompareResult, DirEntry, DirEntryStatus};
use crate::text::{chars_of, lines_of};
use vstd::utf8::char_u32_cast;

verus! {

/// The rank of a character when ordering relative paths: the separator
/// comes before every other character, so that paths order component by
/// component.
pub open spec fn char_rank(c: char) -> int {
    if c == '/' {
        -1
    } else {
        (c as u32) as int
    }
}

/// Path order on relative paths in normal form (components joined by single
/// separators): lexicographic by `char_rank`, a proper prefix first.
pub open spec fn path_lt(a: Seq<char>, b: Seq<char>) -> bool
    decreases a.len(),
{
    if a.len() == 0 {
        b.len() > 0
    } else if b.len() == 0 {
        false
    } else if char_rank(a[0]) != char_rank(b[0]) {
        char_rank(a[0]) < char_rank(b[0])
    } else {
        path_lt(a.drop_first(), b.drop_first())
    }
}

proof fn lemma_rank_injective(x: char, y: char)
    ensures
        char_rank(x) == char_rank(y) ==> x == y,
{
    if char_rank(x) == char_rank(y) {
        if x != '/' && y != '/' {
            char_u32_cast(x, x as u32);
            char_u32_cast(y, y as u32);
        }
    }
}

proof fn lemma_lt_irreflexive(a: Seq<char>)
    ensures
        !path_lt(a, a),
    decreases a.len(),
{
    if a.len() > 0 {
        lemma_lt_irreflexive(a.drop_first());
    }
}

proof fn lemma_lt_asymmetric(a: Seq<char>, b: Seq<char>)
    ensures
        path_lt(a, b) ==> !path_lt(b, a),
    decreases a.len(),
{
    if a.len() > 0 && b.len() > 0 {
        lemma_lt_asymmetric(a.drop_first(), b.drop_first());
    }
}

proof fn lemma_lt_total(a: Seq<char>, b: Seq<char>)
    ensures
        a != b ==> path_lt(a, b) || path_lt(b, a),
    decreases a.len(),
{
    if a.len() > 0 && b.len() > 0 {
        lemma_rank_injective(a[0], b[0]);
        lemma_lt_total(a.drop_first(), b.drop_first());
        if a != b && a[0] == b[0] {
            assert(a.drop_first() != b.drop_first()) by {
                if a.drop_first() == b.drop_first() {
                    assert(a =~= seq![a[0]] + a.drop_first());
                    assert(b =~= seq![b[0]] + b.drop_first());
                }
            }
        }
    } else if a.len() == 0 && b.len() == 0 {
        assert(a =~= b);
    }
}

proof fn lemma_lt_transitive(a: Seq<char>, b: Seq<char>, c: Seq<char>)
    ensures
        path_lt(a, b) && path_lt(b, c) ==> path_lt(a, c),
    decreases a.len(),
{
    if a.len() > 0 && b.len() > 0 && c.len() > 0 {
        lemma_lt_transitive(a.drop_first(), b.drop_first(), c.drop_first());
    }
}

/// Path order is a strict total order.
pub proof fn lemma_path_order(a: Seq<char>, b: Seq<char>, c: Seq<char>)
    ensures
        !path_lt(a, a),
        path_lt(a, b) ==> !path_lt(b, a),
        a != b ==> path_lt(a, b) || path_lt(b, a),
        path_lt(a, b) && path_lt(b, c) ==> path_lt(a, c),
{
    lemma_lt_irreflexive(a);
    lemma_lt_asymmetric(a, b);
    lemma_lt_total(a, b);
    lemma_lt_transitive(a, b, c);
}

/// Whether one relative path comes before another in path order.
pub fn path_less(a: &str, b: &str) -> (r: bool)
    ensures
        r == path_lt(a@, b@),
{
    let x = chars_of(a);
    let y = chars_of(b);
    let mut i: usize = 0;
    proof {
        assert(a@.skip(0) =~= a@);
        assert(b@.skip(0) =~= b@);
    }
    while i < x.len() && i < y.len() && x[i] == y[i]
        invariant
            i <= x@.len(),
            i <= y@.len(),
            x@ == a@,
            y@ == b@,
            path_lt(a@, b@) == path_lt(a@.skip(i as int), b@.skip(i as int)),
        decreases x@.len() - i,
    {
        proof {
            assert(a@.skip(i as int).drop_first() =~= a@.skip(i + 1));
            assert(b@.skip(i as int).drop_first() =~= b@.skip(i + 1));
        }
        i = i + 1;
    }
    let sa = Ghost(a@.skip(i as int));
    let sb = Ghost(b@.skip(i as int));
    if i == x.len() {
        proof {
            assert(sa@.len() == 0);
        }
        i < y.len()
    } else if i == y.len() {
        proof {
            assert(sb@.len() == 0 && sa@.len() > 0);
        }
        false
    } else {
        let cx = x[i];
        let cy = y[i];
        proof {
            assert(sa@[0] == cx);
            assert(sb@[0] == cy);
            lemma_rank_injective(cx, cy);
            assert(char_rank(cx) != char_rank(cy));
            assert(path_lt(sa@, sb@) == (char_rank(cx) < char_rank(cy)));
        }
        if cx == '/' {
            true
        } else if cy == '/' {
            false
        } else {
            (cx as u32) < (cy as u32)
        }
    }
}

/// The paths in strictly increasing path order.
pub open spec fn strictly_sorted(keys: Seq<Seq<char>>) -> bool {
    forall|i: int, j: int| 0 <= i < j < keys.len() ==> path_lt(#[trigger] keys[i], #[trigger] keys[j])
}

/// The paths of a merged listing.
pub open spec fn listing_paths(listing: Seq<(String, bool, bool)>) -> Seq<Seq<char>> {
    listing.map_values(|e: (String, bool, bool)| e.0@)
}

/// `listing` holds each path of `left` and `right` once and no other, in
/// path order, marked by the sides it is found on.
pub open spec fn is_merged_listing(listing: Seq<(String, bool, bool)>, left: Seq<Seq<char>>, right: Seq<Seq<char>>) -> bool {
    let keys = listing_paths(listing);
    &&& strictly_sorted(keys)
    &&& forall|k: int| 0 <= k < listing.len() ==> (#[trigger] listing[k]).1 == left.contains(keys[k])
    &&& forall|k: int| 0 <= k < listing.len() ==> (#[trigger] listing[k]).2 == right.contains(keys[k])
    &&& forall|p: Seq<char>| #[trigger] keys.contains(p) <==> (left.contains(p) || right.contains(p))
}

/// The listing holds exactly the paths seen so far on either side, in
/// path order, each marked by the sides it was seen on.
pub open spec fn listing_of_seen(listing: Seq<(String, bool, bool)>, lp: Seq<Seq<char>>, rp: Seq<Seq<char>>) -> bool {
    let keys = listing_paths(listing);
    &&& strictly_sorted(keys)
    &&& forall|k: int| 0 <= k < listing.len() ==> (#[trigger] listing[k]).1 == lp.contains(keys[k])
    &&& forall|k: int| 0 <= k < listing.len() ==> (#[trigger] listing[k]).2 == rp.contains(keys[k])
    &&& forall|p: Seq<char>| #[trigger] keys.contains(p) <==> (lp.contains(p) || rp.contains(p))
}

/// Adds a path seen on one side to a listing (see `listing_of_seen`).
fn add_path(
    listing: &mut Vec<(String, bool, bool)>,
    path: &String,
    on_left: bool,
    Ghost(lp): Ghost<Seq<Seq<char>>>,
    Ghost(rp): Ghost<Seq<Seq<char>>>,
)
    requires
        listing_of_seen(old(listing)@, lp, rp),
    ensures
        listing_of_seen(
            final(listing)@,
            if on_left { lp.push(path@) } else { lp },
            if on_left { rp } else { rp.push(path@) },
        ),
{
    let ghost keys = listing_paths(listing@);
    let ghost lp2 = if on_left { lp.push(path@) } else { lp };
    let ghost rp2 = if on_left { rp } else { rp.push(path@) };
    proof {
        assert forall|p: Seq<char>| lp2.contains(p) <==> (lp.contains(p) || (on_left && p == path@)) by {
            if on_left {
                if lp2.contains(p) {
                    let j = choose|j: int| 0 <= j < lp2.len() && lp2[j] == p;
                    if j < lp.len() {
                        assert(lp[j] == p);
                    }
                }
                if lp.contains(p) {
                    let j = choose|j: int| 0 <= j < lp.len() && lp[j] == p;
                    assert(lp2[j] == p);
                }
                if p == path@ {
                    assert(lp2[lp.len() as int] == p);
                }
            }
        }
        assert forall|p: Seq<char>| rp2.contains(p) <==> (rp.contains(p) || (!on_left && p == path@)) by {
            if !on_left {
                if rp2.contains(p) {
                    let j = choose|j: int| 0 <= j < rp2.len() && rp2[j] == p;
                    if j < rp.len() {
                        assert(rp[j] == p);
                    }
                }
                if rp.contains(p) {
                    let j = choose|j: int| 0 <= j < rp.len() && rp[j] == p;
                    assert(rp2[j] == p);
                }
                if p == path@ {
                    assert(rp2[rp.len() as int] == p);
                }
            }
        }
    }
    let mut i: usize = 0;
    while i < listing.len() && path_less(listing[i].0.as_str(), path.as_str())
        invariant
            i <= listing@.len(),
            keys == listing_paths(listing@),
            forall|j: int| 0 <= j < i ==> path_lt(#[trigger] keys[j], path@),
        decreases listing@.len() - i,
    {
        proof {
            assert(keys[i as int] == listing@[i as int].0@);
        }
        i = i + 1;
    }
    if i < listing.len() && listing[i].0 == *path {
        proof {
            assert(keys[i as int] == path@);
        }
        let (p, l, r) = listing.remove(i);
        let entry = if on_left { (p, true, r) } else { (p, l, true) };
        listing.insert(i, entry);
        proof {
            assert(listing_paths(listing@) =~= keys);
            assert forall|k: int| 0 <= k < listing@.len() implies (#[trigger] listing@[k]).1 == lp2.contains(keys[k]) by {
                if k != i {
                    assert(listing@[k] == old(listing)@[k]);
                }
            }
            assert forall|k: int| 0 <= k < listing@.len() implies (#[trigger] listing@[k]).2 == rp2.contains(keys[k]) by {
                if k != i {
                    assert(listing@[k] == old(listing)@[k]);
                }
            }
            assert forall|p: Seq<char>| #[trigger] keys.contains(p) <==> (lp2.contains(p) || rp2.contains(p)) by {
                if p == path@ {
                    assert(keys[i as int] == p);
                }
            }
        }
    } else {
        proof {
            if i < listing@.len() {
                assert(keys[i as int] == listing@[i as int].0@);
                lemma_path_order(keys[i as int], path@, path@);
            }
            assert forall|j: int| 0 <= j < keys.len() implies keys[j] != path@ by {
                if j < i {
                    assert(path_lt(keys[j], path@));
                    lemma_path_order(keys[j], keys[j], keys[j]);
                } else {
                    if j > i {
                        assert(path_lt(keys[i as int], keys[j]));
                        lemma_path_order(path@, keys[i as int], keys[j]);
                        lemma_path_order(keys[j], keys[j], keys[j]);
                    } else {
                        lemma_path_order(path@, path@, path@);
                    }
                }
            }
            assert(!keys.contains(path@));
        }
        let entry = (path.clone(), on_left, !on_left);
        listing.insert(i, entry);
        proof {
            let nk = listing_paths(listing@);
            assert(nk =~= keys.insert(i as int, path@));
            assert forall|a: int, b: int| 0 <= a < b < nk.len() implies path_lt(#[trigger] nk[a], #[trigger] nk[b]) by {
                if b < i {
                    assert(nk[a] == keys[a] && nk[b] == keys[b]);
                } else if b == i {
                    assert(nk[a] == keys[a]);
                } else if a < i {
                    assert(nk[a] == keys[a] && nk[b] == keys[b - 1]);
                    lemma_path_order(keys[a], path@, keys[b - 1]);
                    if b - 1 > i {
                        assert(path_lt(keys[i as int], keys[b - 1]));
                        lemma_path_order(path@, keys[i as int], keys[b - 1]);
                    }
                } else if a == i {
                    assert(nk[b] == keys[b - 1]);
                    if b - 1 > i {
                        assert(path_lt(keys[i as int], keys[b - 1]));
                        lemma_path_order(path@, keys[i as int], keys[b - 1]);
                    }
                } else {
                    assert(nk[a] == keys[a - 1] && nk[b] == keys[b - 1]);
                }
            }
            assert forall|k: int| 0 <= k < listing@.len() implies (#[trigger] listing@[k]).1 == lp2.contains(nk[k]) by {
                if k < i {
                    assert(listing@[k] == old(listing)@[k]);
                } else if k > i {
                    assert(listing@[k] == old(listing)@[k - 1]);
                }
            }
            assert forall|k: int| 0 <= k < listing@.len() implies (#[trigger] listing@[k]).2 == rp2.contains(nk[k]) by {
                if k < i {
                    assert(listing@[k] == old(listing)@[k]);
                } else if k > i {
                    assert(listing@[k] == old(listing)@[k - 1]);
                }
            }
            assert forall|p: Seq<char>| #[trigger] nk.contains(p) <==> (lp2.contains(p) || rp2.contains(p)) by {
                if nk.contains(p) {
                    let j = choose|j: int| 0 <= j < nk.len() && nk[j] == p;
                    if j < i {
                        assert(keys[j] == p);
                    } else if j > i {
                        assert(keys[j - 1] == p);
                    }
                }
                if keys.contains(p) {
                    let j = choose|j: int| 0 <= j < keys.len() && keys[j] == p;
                    if j < i {
                        assert(nk[j] == p);
                    } else {
                        assert(nk[j + 1] == p);
                    }
                }
                if p == path@ {
                    assert(nk[i as int] == p);
                }
            }
        }
    }
}

/// The files of both sides, each once, in path order, marked by the sides
/// they are found on.
pub fn merge_file_lists(left_files: &Vec<String>, right_files: &Vec<String>) -> (r: Vec<(String, bool, bool)>)
    ensures
        is_merged_listing(r@, lines_of(left_files@), lines_of(right_files@)),
{
    let mut listing: Vec<(String, bool, bool)> = Vec::new();
    let ghost lv = lines_of(left_files@);
    let ghost rv = lines_of(right_files@);
    proof {
        assert(listing_paths(listing@) =~= Seq::<Seq<char>>::empty());
        assert(lv.take(0) =~= Seq::<Seq<char>>::empty());
        assert(rv.take(0) =~= Seq::<Seq<char>>::empty());
    }
    let mut i: usize = 0;
    while i < left_files.len()
        invariant
            i <= left_files@.len(),
            lv == lines_of(left_files@),
            listing_of_seen(listing@, lv.take(i as int), Seq::<Seq<char>>::empty()),
        decreases left_files@.len() - i,
    {
        add_path(&mut listing, &left_files[i], true, Ghost(lv.take(i as int)), Ghost(Seq::<Seq<char>>::empty()));
        proof {
            assert(lv.take(i as int).push(left_files@[i as int]@) =~= lv.take(i + 1));
        }
        i = i + 1;
    }
    proof {
        assert(lv.take(left_files@.len() as int) =~= lv);
    }
    let mut j: usize = 0;
    while j < right_files.len()
        invariant
            j <= right_files@.len(),
            rv == lines_of(right_files@),
            listing_of_seen(listing@, lv, rv.take(j as int)),
        decreases right_files@.len() - j,
    {
        add_path(&mut listing, &right_files[j], false, Ghost(lv), Ghost(rv.take(j as int)));
        proof {
            assert(rv.take(j as int).push(right_files@[j as int]@) =~= rv.take(j + 1));
        }
        j = j + 1;
    }
    proof {
        assert(rv.take(right_files@.len() as int) =~= rv);
    }
    listing
}

/// The status of a file of a merged listing: on one side only, or, on
/// both, equal or changed by whether the two files hold the same bytes.
pub open spec fn entry_status(in_left: bool, in_right: bool, same_content: bool) -> DirEntryStatus {
    if in_left && !in_right {
        DirEntryStatus::LeftOnly
    } else if !in_left && in_right {
        DirEntryStatus::RightOnly
    } else if same_content {
        DirEntryStatus::Equal
    } else {
        DirEntryStatus::Changed
    }
}

/// The comparison of the directories `left` and `right`, given the merged
/// listing of their files (see `merge_file_lists`) and, for each entry,
/// whether the files on both sides hold the same bytes (read only for
/// files on both sides).
pub fn scan_dirs(left: String, right: String, listing: &Vec<(String, bool, bool)>, same_content: &Vec<bool>) -> (r: DirCompareResult)
    requires
        same_content@.len() == listing@.len(),
    ensures
        r.left_dir == left,
        r.right_dir == right,
        r.entries@.len() == listing@.len(),
        forall|k: int| 0 <= k < listing@.len() ==> {
            let e = #[trigger] r.entries@[k];
            &&& e.rel_path@ == listing@[k].0@
            &&& e.status == entry_status(listing@[k].1, listing@[k].2, same_content@[k])
            &&& e.left_modified is None && e.right_modified is None
            &&& e.left_size is None && e.right_size is None
        },
        r.selected == 0,
        r.scroll_offset == 0,
        r.git_context is None,
{
    let mut entries: Vec<DirEntry> = Vec::new();
    let mut k: usize = 0;
    while k < listing.len()
        invariant
            k <= listing@.len(),
            same_content@.len() == listing@.len(),
            entries@.len() == k,
            forall|j: int| 0 <= j < k ==> {
                let e = #[trigger] entries@[j];
                &&& e.rel_path@ == listing@[j].0@
                &&& e.status == entry_status(listing@[j].1, listing@[j].2, same_content@[j])
                &&& e.left_modified is None && e.right_modified is None
                &&& e.left_size is None && e.right_size is None
            },
        decreases listing@.len() - k,
    {
        let (l, r) = (listing[k].1, listing[k].2);
        let status = if l && !r {
            DirEntryStatus::LeftOnly
        } else if !l && r {
            DirEntryStatus::RightOnly
        } else if same_content[k] {
            DirEntryStatus::Equal
        } else {
            DirEntryStatus::Changed
        };
        entries.push(DirEntry {
            rel_path: listing[k].0.clone(),
            status,
            left_modified: None,
            right_modified: None,
            left_size: None,
            right_size: None,
        });
        k = k + 1;
    }
    DirCompareResult { left_dir: left, right_dir: right, entries, selected: 0, scroll_offset: 0, git_context: None }
}

} // verus!
