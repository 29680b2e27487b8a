//! The menu bar: its items, and which action a click on a column hits.

use vstd::prelude::*;
use crate::text::chars_of;
pub use crate::events::MenuAction;

verus! {

/// One item of the menu bar: its label and, unless it is a spacer, its
/// action.
#[derive(Debug, Clone, Copy)]
pub struct MenuItem {
    pub label: &'static str,
    pub action: Option<MenuAction>,
}

/// The items of the menu bar, left to right.
pub open spec fn menu_layout() -> Seq<(Seq<char>, Option<MenuAction>)> {
    seq![
        (" "@, None),
        ("\u{1F4C4}"@, Some(MenuAction::New)),
        (" "@, None),
        ("\u{1F4C2}"@, Some(MenuAction::Open)),
        (" "@, None),
        ("\u{1F4BE}"@, Some(MenuAction::Save)),
        (" "@, None),
        ("\u{1F504}"@, Some(MenuAction::Refresh)),
        (" \u{2502} "@, None),
        ("|<"@, Some(MenuAction::FirstDiff)),
        (" "@, None),
        ("<"@, Some(MenuAction::PrevDiff)),
        (" "@, None),
        (">"@, Some(MenuAction::NextDiff)),
        (" "@, None),
        (">|"@, Some(MenuAction::LastDiff)),
        (" \u{2502} "@, None),
        ("->"@, Some(MenuAction::CopyLeftToRight)),
        (" "@, None),
        ("<-"@, Some(MenuAction::CopyRightToLeft)),
        (" \u{2502} "@, None),
        ("->|"@, Some(MenuAction::CopyLeftToRightNext)),
        (" "@, None),
        ("|<-"@, Some(MenuAction::CopyRightToLeftNext)),
        (" \u{2502} "@, None),
        ("=>>"@, Some(MenuAction::CopyAllLR)),
        (" "@, None),
        ("<<="@, Some(MenuAction::CopyAllRL)),
        (" \u{2502} "@, None),
        ("ws"@, Some(MenuAction::ToggleWhitespace)),
        (" "@, None),
        ("Aa"@, Some(MenuAction::ToggleCase)),
        (" "@, None)
    ]
}

/// The items of the menu bar, left to right (see `menu_layout`).
pub fn menu_items() -> (items: Vec<MenuItem>)
    ensures
        items@.map_values(|i: MenuItem| (i.label@, i.action)) == menu_layout(),
{
    let mut items: Vec<MenuItem> = Vec::new();
    items.push(MenuItem { label: " ", action: None });
    items.push(MenuItem { label: "\u{1F4C4}", action: Some(MenuAction::New) });
    items.push(MenuItem { label: " ", action: None });
    items.push(MenuItem { label: "\u{1F4C2}", action: Some(MenuAction::Open) });
    items.push(MenuItem { label: " ", action: None });
    items.push(MenuItem { label: "\u{1F4BE}", action: Some(MenuAction::Save) });
    items.push(MenuItem { label: " ", action: None });
    items.push(MenuItem { label: "\u{1F504}", action: Some(MenuAction::Refresh) });
    items.push(MenuItem { label: " \u{2502} ", action: None });
    items.push(MenuItem { label: "|<", action: Some(MenuAction::FirstDiff) });
    items.push(MenuItem { label: " ", action: None });
    items.push(MenuItem { label: "<", action: Some(MenuAction::PrevDiff) });
    items.push(MenuItem { label: " ", action: None });
    items.push(MenuItem { label: ">", action: Some(MenuAction::NextDiff) });
    items.push(MenuItem { label: " ", action: None });
    items.push(MenuItem { label: ">|", action: Some(MenuAction::LastDiff) });
    items.push(MenuItem { label: " \u{2502} ", action: None });
    items.push(MenuItem { label: "->", action: Some(MenuAction::CopyLeftToRight) });
    items.push(MenuItem { label: " ", action: None });
    items.push(MenuItem { label: "<-", action: Some(MenuAction::CopyRightToLeft) });
    items.push(MenuItem { label: " \u{2502} ", action: None });
    items.push(MenuItem { label: "->|", action: Some(MenuAction::CopyLeftToRightNext) });
    items.push(MenuItem { label: " ", action: None });
    items.push(MenuItem { label: "|<-", action: Some(MenuAction::CopyRightToLeftNext) });
    items.push(MenuItem { label: " \u{2502} ", action: None });
    items.push(MenuItem { label: "=>>", action: Some(MenuAction::CopyAllLR) });
    items.push(MenuItem { label: " ", action: None });
    items.push(MenuItem { label: "<<=", action: Some(MenuAction::CopyAllRL) });
    items.push(MenuItem { label: " \u{2502} ", action: None });
    items.push(MenuItem { label: "ws", action: Some(MenuAction::ToggleWhitespace) });
    items.push(MenuItem { label: " ", action: None });
    items.push(MenuItem { label: "Aa", action: Some(MenuAction::ToggleCase) });
    items.push(MenuItem { label: " ", action: None });
    proof {
        assert(items@.map_values(|i: MenuItem| (i.label@, i.action)) =~= menu_layout());
    }
    items
}

/// The width ratatui gives a span of the text, in terminal columns.
pub uninterp spec fn spec_span_width(s: Seq<char>) -> usize;

/// `ratatui::text::Span::width` of a raw span of the text: the columns it
/// takes when drawn. It depends on the text alone, so it is named
/// `spec_span_width`; nothing more of it is stated here.
#[verifier::external_body]
fn span_width(s: &str) -> (w: usize)
    ensures
        w == spec_span_width(s@),
{
    ratatui::text::Span::raw(s).width()
}

/// The columns a label takes on the bar, as a terminal column count.
pub open spec fn label_width(label: Seq<char>) -> int {
    (#[verifier::truncate] (spec_span_width(label) as u16)) as int
}

/// The action of the item under column `x`, the items being laid out left
/// to right from column `pos`; spacers and columns past the items hit
/// nothing.
pub open spec fn menu_hit(items: Seq<(Seq<char>, Option<MenuAction>)>, x: int, pos: int) -> Option<MenuAction>
    decreases items.len(),
{
    if items.len() == 0 {
        None
    } else {
        let w = label_width(items[0].0);
        if pos <= x < pos + w {
            items[0].1
        } else {
            menu_hit(items.drop_first(), x, pos + w)
        }
    }
}

/// The action a click on column `x` of the menu bar hits.
pub fn hit_test(x: u16) -> (r: Option<MenuAction>)
    ensures
        r == menu_hit(menu_layout(), x as int, 0),
{
    let items = menu_items();
    let ghost layout = menu_layout();
    let mut pos: u64 = 0;
    let mut k: usize = 0;
    proof {
        assert(layout.skip(0) =~= layout);
    }
    while k < items.len()
        invariant
            k <= items@.len(),
            items@.map_values(|i: MenuItem| (i.label@, i.action)) == layout,
            layout == menu_layout(),
            pos <= k * 0x10000,
            menu_hit(layout, x as int, 0) == menu_hit(layout.skip(k as int), x as int, pos as int),
        decreases items@.len() - k,
    {
        let item = items[k];
        let w = #[verifier::truncate] (span_width(item.label) as u16);
        proof {
            assert(layout[k as int] == (item.label@, item.action));
            assert(layout.skip(k as int).drop_first() =~= layout.skip(k + 1));
            assert(layout.skip(k as int)[0] == layout[k as int]);
        }
        if (x as u64) >= pos && (x as u64) < pos + (w as u64) {
            return item.action;
        }
        pos = pos + (w as u64);
        k = k + 1;
    }
    None
}

/// How a menu item is drawn.
#[derive(Debug, Clone, Copy, PartialEq, Eq, Structural)]
pub enum MenuLook {
    /// An action that can be taken.
    Active,
    /// A switch that is on, or a save that is due.
    ToggledOn,
    /// A divider between groups.
    Separator,
    /// A space.
    Background,
    /// An action on differences when there are none.
    Disabled,
}

/// How a menu item is drawn: dividers and spaces as such; saving lit while
/// there are unsaved changes; the switches lit while on; new, open and
/// refresh always active; the actions on differences only with some.
pub open spec fn menu_look(
    label: Seq<char>,
    action: Option<MenuAction>,
    unsaved: bool,
    ignore_whitespace: bool,
    ignore_case: bool,
    has_diff: bool,
) -> MenuLook {
    match action {
        None => if label.contains('\u{2502}') { MenuLook::Separator } else { MenuLook::Background },
        Some(MenuAction::Save) => if unsaved { MenuLook::ToggledOn } else { MenuLook::Active },
        Some(MenuAction::ToggleWhitespace) => if ignore_whitespace { MenuLook::ToggledOn } else { MenuLook::Active },
        Some(MenuAction::ToggleCase) => if ignore_case { MenuLook::ToggledOn } else { MenuLook::Active },
        Some(MenuAction::New) | Some(MenuAction::Open) | Some(MenuAction::Refresh) => MenuLook::Active,
        Some(_) => if has_diff { MenuLook::Active } else { MenuLook::Disabled },
    }
}

/// How a menu item is drawn (see `menu_look`).
pub fn item_look(item: &MenuItem, unsaved: bool, ignore_whitespace: bool, ignore_case: bool, has_diff: bool) -> (r: MenuLook)
    ensures
        r == menu_look(item.label@, item.action, unsaved, ignore_whitespace, ignore_case, has_diff),
{
    match item.action {
        None => {
            let cs = chars_of(item.label);
            let mut k: usize = 0;
            while k < cs.len()
                invariant
                    k <= cs@.len(),
                    cs@ == item.label@,
                    item.action is None,
                    forall|j: int| 0 <= j < k ==> cs@[j] != '\u{2502}',
                decreases cs@.len() - k,
            {
                if cs[k] == '\u{2502}' {
                    assert(item.label@[k as int] == '\u{2502}');
                    return MenuLook::Separator;
                }
                k = k + 1;
            }
            MenuLook::Background
        },
        Some(MenuAction::Save) => if unsaved { MenuLook::ToggledOn } else { MenuLook::Active },
        Some(MenuAction::ToggleWhitespace) => if ignore_whitespace { MenuLook::ToggledOn } else { MenuLook::Active },
        Some(MenuAction::ToggleCase) => if ignore_case { MenuLook::ToggledOn } else { MenuLook::Active },
        Some(MenuAction::New) | Some(MenuAction::Open) | Some(MenuAction::Refresh) => MenuLook::Active,
        Some(_) => if has_diff { MenuLook::Active } else { MenuLook::Disabled },
    }
}

} // verus!
