//! The tab bar: each tab's label and close button laid out left to right,
//! and which of them a click hits.

use vstd::prelude::*;
use crate::text::concat_str;

verus! {

/// What a click on the tab bar does.
#[derive(Debug, Clone, Copy, PartialEq, Eq, Structural)]
pub enum TabBarAction {
    SwitchTab(usize),
    CloseTab(usize),
}

/// The most click regions the bar keeps.
pub const MAX_REGIONS: usize = 64;

/// The click regions of the bar, on row `y`: columns `start..end` and the
/// action of each.
pub struct TabBarLayout {
    pub y: u16,
    pub regions: Vec<(u128, u128, TabBarAction)>,
}

/// The columns a text takes in a terminal.
pub uninterp spec fn spec_str_width(s: Seq<char>) -> usize;

/// `unicode_width::UnicodeWidthStr::width`: the columns a text takes in a
/// terminal. It depends on the text alone, so it is named
/// `spec_str_width`; nothing more of it is stated here.
#[verifier::external_body]
pub(crate) fn str_width(s: &str) -> (w: usize)
    ensures
        w == spec_str_width(s@),
{
    unicode_width::UnicodeWidthStr::width(s)
}

/// A tab's label: its title between spaces, marked `*` when it has unsaved
/// changes.
pub open spec fn spec_tab_label(title: Seq<char>, unsaved: bool) -> Seq<char> {
    seq![' '] + (if unsaved { seq!['*'] } else { seq![] }) + title + seq![' ']
}

/// A tab's label (see `spec_tab_label`).
pub fn tab_label(title: &str, unsaved: bool) -> (r: String)
    ensures
        r@ == spec_tab_label(title@, unsaved),
{
    proof {
        reveal_strlit(" ");
        reveal_strlit(" *");
    }
    let head = if unsaved { " *" } else { " " };
    let a = concat_str(head, title);
    let r = concat_str(a.as_str(), " ");
    proof {
        assert(r@ =~= spec_tab_label(title@, unsaved));
    }
    r
}

/// The separator between tabs.
pub open spec fn separator() -> Seq<char> {
    seq![' ', '\u{2502}', ' ']
}

/// The close button of a tab.
pub open spec fn close_button() -> Seq<char> {
    seq!['[', 'x', ']']
}

/// The click regions of tabs `i..` with the given labels, laid out from
/// column `x`: each tab's label switches to it and its close button
/// closes it; a separator stands between tabs.
pub open spec fn regions_from(labels: Seq<Seq<char>>, i: int, x: int) -> Seq<(int, int, TabBarAction)>
    decreases labels.len() - i,
{
    if i < 0 || i >= labels.len() {
        seq![]
    } else {
        let x1 = if i > 0 { x + spec_str_width(separator()) } else { x };
        let lw = spec_str_width(labels[i]) as int;
        let cw = spec_str_width(close_button()) as int;
        seq![(x1, x1 + lw, TabBarAction::SwitchTab(i as usize)), (x1 + lw, x1 + lw + cw, TabBarAction::CloseTab(i as usize))]
            + regions_from(labels, i + 1, x1 + lw + cw)
    }
}

/// The regions as mathematical integers.
pub open spec fn regions_view(v: Seq<(u128, u128, TabBarAction)>) -> Seq<(int, int, TabBarAction)> {
    v.map_values(|r: (u128, u128, TabBarAction)| (r.0 as int, r.1 as int, r.2))
}

/// The first `MAX_REGIONS` of some regions.
pub open spec fn capped(v: Seq<(int, int, TabBarAction)>) -> Seq<(int, int, TabBarAction)> {
    if v.len() <= MAX_REGIONS {
        v
    } else {
        v.take(MAX_REGIONS as int)
    }
}

/// Lays out the tab bar on row `y` from column `x`, keeping the first
/// `MAX_REGIONS` click regions.
pub fn layout_tab_bar(labels: &Vec<String>, x: u16, y: u16) -> (r: TabBarLayout)
    requires
        labels@.len() <= MAX_REGIONS,
    ensures
        r.y == y,
        regions_view(r.regions@) == capped(regions_from(labels@.map_values(|l: String| l@), 0, x as int)),
{
    let ghost ls = labels@.map_values(|l: String| l@);
    let sep_w = str_width(" \u{2502} ");
    let close_w = str_width("[x]");
    proof {
        reveal_strlit(" \u{2502} ");
        reveal_strlit("[x]");
        assert(" \u{2502} "@ =~= separator());
        assert("[x]"@ =~= close_button());
    }
    let mut regions: Vec<(u128, u128, TabBarAction)> = Vec::new();
    let mut pos: u128 = x as u128;
    let mut i: usize = 0;
    let ghost all = regions_from(ls, 0, x as int);
    let ghost mut prefix: Seq<(int, int, TabBarAction)> = seq![];
    proof {
        assert(all =~= prefix + regions_from(ls, 0, pos as int));
        assert(regions_view(regions@) =~= capped(prefix));
    }
    while i < labels.len()
        invariant
            i <= labels@.len() <= MAX_REGIONS,
            ls == labels@.map_values(|l: String| l@),
            all == regions_from(ls, 0, x as int),
            sep_w == spec_str_width(separator()),
            close_w == spec_str_width(close_button()),
            pos <= x + i * 3 * (usize::MAX as int),
            prefix.len() == 2 * i,
            all == prefix + regions_from(ls, i as int, pos as int),
            regions_view(regions@) == capped(prefix),
        decreases labels@.len() - i,
    {
        let lw = str_width(labels[i].as_str());
        proof {
            assert(ls[i as int] == labels@[i as int]@);
            assert(i * 3 * (usize::MAX as int) + 3 * (usize::MAX as int) == (i + 1) * 3 * (usize::MAX as int)) by (nonlinear_arith);
            assert(x + (i + 1) * 3 * (usize::MAX as int) < 0x1_0000_0000_0000_0000_0000_0000_0000) by (nonlinear_arith)
                requires
                    i + 1 <= 64,
                    x <= 0xffff,
                    usize::MAX <= 0xffff_ffff_ffff_ffff,
            ;
        }
        let x1: u128 = if i > 0 { pos + (sep_w as u128) } else { pos };
        let x2: u128 = x1 + (lw as u128);
        let x3: u128 = x2 + (close_w as u128);
        let ghost step = seq![(x1 as int, x2 as int, TabBarAction::SwitchTab(i)), (x2 as int, x3 as int, TabBarAction::CloseTab(i))];
        proof {
            assert(regions_from(ls, i as int, pos as int) == step + regions_from(ls, i + 1, x3 as int));
        }
        let ghost before = regions@;
        if regions.len() < MAX_REGIONS {
            regions.push((x1, x2, TabBarAction::SwitchTab(i)));
        }
        if regions.len() < MAX_REGIONS {
            regions.push((x2, x3, TabBarAction::CloseTab(i)));
        }
        proof {
            let np = prefix + step;
            assert(all =~= np + regions_from(ls, i + 1, x3 as int));
            if prefix.len() + 2 <= MAX_REGIONS {
                assert(before.len() == prefix.len());
                assert(regions_view(regions@) =~= np);
            } else {
                assert(prefix.len() >= MAX_REGIONS);
                assert(regions_view(before) =~= prefix.take(MAX_REGIONS as int));
                assert(np.take(MAX_REGIONS as int) =~= prefix.take(MAX_REGIONS as int));
                assert(regions@ == before);
            }
            assert(regions_view(regions@) =~= capped(np));
            prefix = np;
        }
        pos = x3;
        i = i + 1;
    }
    proof {
        assert(prefix + regions_from(ls, i as int, pos as int) =~= prefix);
    }
    TabBarLayout { y, regions }
}

/// The action of the first region holding column `x`.
pub open spec fn region_hit(regions: Seq<(int, int, TabBarAction)>, x: int) -> Option<TabBarAction>
    decreases regions.len(),
{
    if regions.len() == 0 {
        None
    } else if regions[0].0 <= x < regions[0].1 {
        Some(regions[0].2)
    } else {
        region_hit(regions.drop_first(), x)
    }
}

/// The action a click at column `x`, row `y` hits: none off the bar's row.
pub fn hit_test(layout: &TabBarLayout, x: u16, y: u16) -> (r: Option<TabBarAction>)
    ensures
        r == if y != layout.y { None } else { region_hit(regions_view(layout.regions@), x as int) },
{
    if y != layout.y {
        return None;
    }
    let ghost rv = regions_view(layout.regions@);
    let mut k: usize = 0;
    proof {
        assert(rv.skip(0) =~= rv);
    }
    while k < layout.regions.len()
        invariant
            k <= layout.regions@.len(),
            y == layout.y,
            rv == regions_view(layout.regions@),
            region_hit(rv, x as int) == region_hit(rv.skip(k as int), x as int),
        decreases layout.regions@.len() - k,
    {
        let (start, end, action) = layout.regions[k];
        proof {
            assert(rv[k as int] == (start as int, end as int, action));
            assert(rv.skip(k as int)[0] == rv[k as int]);
            assert(rv.skip(k as int).drop_first() =~= rv.skip(k + 1));
        }
        if (x as u128) >= start && (x as u128) < end {
            return Some(action);
        }
        k = k + 1;
    }
    None
}

} // verus!
