//! Comparing two git revisions as a directory listing: the range asked of
//! `git diff --name-status`, and the listing read from its output.

use vstd::prelude::*;
use crate::models::{DirCompareResult, DirEntry, DirEntryStatus, GitContext};
use crate::text::{chars_of, concat_str, push_range, spec_lines, string_of, text_lines};

verus! {

/// The revision range asked of git: `ref1..ref2`, or `ref1` alone to
/// compare with the working tree.
pub fn git_range(ref1: &str, ref2: Option<&str>) -> (r: String)
    ensures
        r@ == match ref2 {
            Some(r2) => ref1@ + ".."@ + r2@,
            None => ref1@,
        },
{
    match ref2 {
        Some(r2) => {
            let dots = "..";
            let a = concat_str(ref1, dots);
            concat_str(a.as_str(), r2)
        },
        None => String::from_str(ref1),
    }
}

/// The first tab at or after position `i`, or the end.
pub open spec fn tab_from(s: Seq<char>, i: int) -> int
    decreases s.len() - i,
{
    if i < 0 || i >= s.len() || s[i] == '\t' {
        i
    } else {
        tab_from(s, i + 1)
    }
}

/// A line split at its first two tabs, as `str::splitn(3, '\t')` splits
/// it: up to three parts, the last holding the rest of the line.
pub open spec fn split_tab3(s: Seq<char>) -> Seq<Seq<char>> {
    let t1 = tab_from(s, 0);
    if t1 >= s.len() {
        seq![s]
    } else {
        let t2 = tab_from(s, t1 + 1);
        if t2 >= s.len() {
            seq![s.take(t1), s.skip(t1 + 1)]
        } else {
            seq![s.take(t1), s.subrange(t1 + 1, t2), s.skip(t2 + 1)]
        }
    }
}

/// The files one line of `git diff --name-status` lists: a modified file
/// is changed; an added one is on the right only; a deleted one on the
/// left only; a renamed one is its old path on the left and its new path on
/// the right; a copied one its new path on the right. Other lines list
/// nothing.
pub open spec fn name_status_entries(line: Seq<char>) -> Seq<(Seq<char>, DirEntryStatus)> {
    let parts = split_tab3(line);
    let c = if parts[0].len() > 0 { parts[0][0] } else { ' ' };
    if c == 'M' && parts.len() >= 2 {
        seq![(parts[1], DirEntryStatus::Changed)]
    } else if c == 'A' && parts.len() >= 2 {
        seq![(parts[1], DirEntryStatus::RightOnly)]
    } else if c == 'D' && parts.len() >= 2 {
        seq![(parts[1], DirEntryStatus::LeftOnly)]
    } else if c == 'R' && parts.len() >= 3 {
        seq![(parts[1], DirEntryStatus::LeftOnly), (parts[2], DirEntryStatus::RightOnly)]
    } else if c == 'C' && parts.len() >= 3 {
        seq![(parts[2], DirEntryStatus::RightOnly)]
    } else {
        seq![]
    }
}

/// The files all lines list, in order.
pub open spec fn name_status_listing(lines: Seq<Seq<char>>) -> Seq<(Seq<char>, DirEntryStatus)>
    decreases lines.len(),
{
    if lines.len() == 0 {
        seq![]
    } else {
        name_status_listing(lines.drop_last()) + name_status_entries(lines.last())
    }
}

/// The entries as paths with statuses.
pub open spec fn entries_view(v: Seq<DirEntry>) -> Seq<(Seq<char>, DirEntryStatus)> {
    v.map_values(|e: DirEntry| (e.rel_path@, e.status))
}

/// An entry listed by git: no times or sizes are known.
fn make_entry(path: String, status: DirEntryStatus) -> (e: DirEntry)
    ensures
        e.rel_path == path,
        e.status == status,
        e.left_modified is None && e.right_modified is None,
        e.left_size is None && e.right_size is None,
{
    DirEntry { rel_path: path, status, left_modified: None, right_modified: None, left_size: None, right_size: None }
}

/// The first tab at or after position `i` of some characters, or the end.
fn find_tab(cs: &Vec<char>, i: usize) -> (t: usize)
    requires
        i <= cs@.len(),
    ensures
        t as int == tab_from(cs@, i as int),
        i <= t <= cs@.len(),
{
    let mut t = i;
    while t < cs.len() && cs[t] != '\t'
        invariant
            i <= t <= cs@.len(),
            tab_from(cs@, i as int) == tab_from(cs@, t as int),
        decreases cs@.len() - t,
    {
        t = t + 1;
    }
    t
}

/// The text of `cs[from..to]`.
fn text_of(cs: &Vec<char>, from: usize, to: usize) -> (r: String)
    requires
        from <= to <= cs@.len(),
    ensures
        r@ == cs@.subrange(from as int, to as int),
{
    let mut v: Vec<char> = Vec::new();
    push_range(&mut v, cs, from, to);
    proof {
        assert(v@ =~= cs@.subrange(from as int, to as int));
    }
    string_of(v.as_slice())
}

/// The files one line of `git diff --name-status` lists.
fn line_entries(line: &str, out: &mut Vec<DirEntry>)
    ensures
        entries_view(final(out)@) == entries_view(old(out)@) + name_status_entries(line@),
        forall|k: int| 0 <= k < final(out)@.len() ==> #[trigger] no_times(final(out)@[k]) || k < old(out)@.len(),
        forall|k: int| 0 <= k < old(out)@.len() ==> final(out)@[k] == old(out)@[k],
{
    let cs = chars_of(line);
    let ghost s = line@;
    let n = cs.len();
    let t1 = find_tab(&cs, 0);
    let ghost parts = split_tab3(s);
    let p1: Option<String>;
    let p2: Option<String>;
    if t1 >= n {
        p1 = None;
        p2 = None;
    } else {
        let t2 = find_tab(&cs, t1 + 1);
        if t2 >= n {
            p1 = Some(text_of(&cs, t1 + 1, n));
            p2 = None;
        } else {
            p1 = Some(text_of(&cs, t1 + 1, t2));
            p2 = Some(text_of(&cs, t2 + 1, n));
        }
    }
    proof {
        assert(cs@ == s);
        if t1 < n {
            assert(s.take(t1 as int).len() == t1);
            assert(s.skip(t1 as int + 1) =~= s.subrange(t1 + 1, n as int));
            let t2 = tab_from(s, t1 + 1);
            if t2 < n {
                assert(s.skip(t2 + 1) =~= s.subrange(t2 + 1, n as int));
            }
        }
    }
    let c = if t1 > 0 { cs[0] } else { ' ' };
    proof {
        if t1 > 0 {
            assert(parts[0].len() > 0 && parts[0][0] == cs@[0]);
        } else {
            assert(parts[0].len() == 0);
        }
    }
    let ghost before = out@;
    let np: usize = if p2.is_some() { 3 } else if p1.is_some() { 2 } else { 1 };
    assert(np == parts.len());
    if c == 'M' && np >= 2 {
        if let Some(a) = p1 {
            out.push(make_entry(a, DirEntryStatus::Changed));
        }
    } else if c == 'A' && np >= 2 {
        if let Some(a) = p1 {
            out.push(make_entry(a, DirEntryStatus::RightOnly));
        }
    } else if c == 'D' && np >= 2 {
        if let Some(a) = p1 {
            out.push(make_entry(a, DirEntryStatus::LeftOnly));
        }
    } else if c == 'R' && np >= 3 {
        if let (Some(a), Some(b)) = (p1, p2) {
            out.push(make_entry(a, DirEntryStatus::LeftOnly));
            out.push(make_entry(b, DirEntryStatus::RightOnly));
        }
    } else if c == 'C' && np >= 3 {
        if let Some(b) = p2 {
            out.push(make_entry(b, DirEntryStatus::RightOnly));
        }
    }
    proof {
        assert(entries_view(out@) =~= entries_view(before) + name_status_entries(s));
    }
}

/// No times or sizes are known of an entry.
pub open spec fn no_times(e: DirEntry) -> bool {
    &&& e.left_modified is None && e.right_modified is None
    &&& e.left_size is None && e.right_size is None
}

/// The files the output of `git diff --name-status` lists, in order (see
/// `name_status_entries`); no times or sizes are known of them.
pub fn parse_name_status(output: &str) -> (r: Vec<DirEntry>)
    ensures
        entries_view(r@) == name_status_listing(spec_lines(output@)),
        forall|k: int| 0 <= k < r@.len() ==> #[trigger] no_times(r@[k]),
{
    let lines = text_lines(output);
    let ghost ls = spec_lines(output@);
    let mut out: Vec<DirEntry> = Vec::new();
    let mut i: usize = 0;
    proof {
        assert(ls.take(0) =~= Seq::<Seq<char>>::empty());
        assert(entries_view(out@) =~= Seq::<(Seq<char>, DirEntryStatus)>::empty());
    }
    while i < lines.len()
        invariant
            i <= lines@.len(),
            lines.deep_view() == ls,
            entries_view(out@) == name_status_listing(ls.take(i as int)),
            forall|k: int| 0 <= k < out@.len() ==> #[trigger] no_times(out@[k]),
        decreases lines@.len() - i,
    {
        proof {
            assert(ls[i as int] == lines@[i as int]@);
            assert(ls.take(i + 1).drop_last() =~= ls.take(i as int));
        }
        let ghost before = out@;
        line_entries(lines[i].as_str(), &mut out);
        proof {
            assert forall|k: int| 0 <= k < out@.len() implies #[trigger] no_times(out@[k]) by {
                if k < before.len() {
                    assert(out@[k] == before[k]);
                }
            }
        }
        i = i + 1;
    }
    proof {
        assert(ls.take(lines@.len() as int) =~= ls);
    }
    out
}

/// The comparison of two revisions of a repository: both sides are the
/// repository, with the listed files and the revisions compared.
pub fn git_compare_result(repo: String, ref1: String, ref2: Option<String>, entries: Vec<DirEntry>) -> (r: DirCompareResult)
    ensures
        r.left_dir@ == repo@,
        r.right_dir@ == repo@,
        r.entries == entries,
        r.selected == 0,
        r.scroll_offset == 0,
        r.git_context matches Some(g) && g.repo@ == repo@ && g.ref1 == ref1 && g.ref2 == ref2,
{
    let left = repo.clone();
    let right = repo.clone();
    DirCompareResult {
        left_dir: left,
        right_dir: right,
        entries,
        selected: 0,
        scroll_offset: 0,
        git_context: Some(GitContext { repo, ref1, ref2 }),
    }
}

} // verus!
