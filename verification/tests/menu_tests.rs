use txmerge::events::MenuAction;
use txmerge::menu::{hit_test, item_look, menu_items, MenuItem, MenuLook};

fn display_width(s: &str) -> u16 {
    ratatui::text::Span::raw(s).width() as u16
}

#[test]
fn test_emoji_display_widths() {
    let items = menu_items();
    let mut pos = 0u16;
    for item in &items {
        let w = display_width(item.label);
        println!("pos={:3} w={} label={:?} action={:?}", pos, w, item.label, item.action);
        if w > 0 {
            assert_eq!(hit_test(pos), item.action);
            assert_eq!(hit_test(pos + w - 1), item.action);
        }
        pos += w;
    }
    assert_eq!(hit_test(pos), None);
}

#[test]
fn menu_item_looks() {
    let bar = MenuItem { label: " \u{2502} ", action: None };
    let space = MenuItem { label: " ", action: None };
    let save = MenuItem { label: "s", action: Some(MenuAction::Save) };
    let next = MenuItem { label: ">", action: Some(MenuAction::NextDiff) };
    let ws = MenuItem { label: "ws", action: Some(MenuAction::ToggleWhitespace) };
    let open = MenuItem { label: "o", action: Some(MenuAction::Open) };
    assert_eq!(item_look(&bar, false, false, false, false), MenuLook::Separator);
    assert_eq!(item_look(&space, true, true, true, true), MenuLook::Background);
    assert_eq!(item_look(&save, true, false, false, false), MenuLook::ToggledOn);
    assert_eq!(item_look(&save, false, false, false, false), MenuLook::Active);
    assert_eq!(item_look(&next, false, false, false, false), MenuLook::Disabled);
    assert_eq!(item_look(&next, false, false, false, true), MenuLook::Active);
    assert_eq!(item_look(&ws, false, true, false, false), MenuLook::ToggledOn);
    assert_eq!(item_look(&open, false, false, false, false), MenuLook::Active);
}
