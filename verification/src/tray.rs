//! The tray menu: its items and how a clicked item id maps to an action.

use crate::text::{eq_str, to_chars, to_owned_string};
use vstd::prelude::*;

verus! {

/// What a tray menu item does.
#[derive(Debug, Clone, Copy, PartialEq, Eq)]
pub enum TrayMenuAction {
    Show,
    Hide,
    Quit,
    Ignore,
}

/// A tray menu item: its id, its label and its action.
#[derive(Debug, Clone, PartialEq, Eq)]
pub struct TrayMenuItemSpec {
    pub id: String,
    pub label: String,
    pub action: TrayMenuAction,
}

/// The menu, in display order: show the window, hide it to the tray, quit.
pub open spec fn tray_menu() -> Seq<(Seq<char>, Seq<char>, TrayMenuAction)> {
    seq![
        ("show-main"@, "显示窗口"@, TrayMenuAction::Show),
        ("hide-main"@, "隐藏到托盘"@, TrayMenuAction::Hide),
        ("quit-app"@, "退出 net-power"@, TrayMenuAction::Quit),
    ]
}

/// The view of an item.
pub open spec fn item_view(i: TrayMenuItemSpec) -> (Seq<char>, Seq<char>, TrayMenuAction) {
    (i.id@, i.label@, i.action)
}

/// The action of the first item with the given id; unknown ids are ignored.
pub open spec fn action_for(id: Seq<char>) -> TrayMenuAction {
    if id == "show-main"@ {
        TrayMenuAction::Show
    } else if id == "hide-main"@ {
        TrayMenuAction::Hide
    } else if id == "quit-app"@ {
        TrayMenuAction::Quit
    } else {
        TrayMenuAction::Ignore
    }
}

fn item(id: &str, label: &str, action: TrayMenuAction) -> (r: TrayMenuItemSpec)
    ensures
        item_view(r) == (id@, label@, action),
{
    TrayMenuItemSpec { id: to_owned_string(id), label: to_owned_string(label), action }
}

/// The tray menu items.
pub fn tray_menu_items() -> (r: Vec<TrayMenuItemSpec>)
    ensures
        r@.len() == tray_menu().len(),
        forall|i: int| 0 <= i < r@.len() ==> item_view(#[trigger] r@[i]) == tray_menu()[i],
{
    let mut r: Vec<TrayMenuItemSpec> = Vec::new();
    r.push(item("show-main", "显示窗口", TrayMenuAction::Show));
    r.push(item("hide-main", "隐藏到托盘", TrayMenuAction::Hide));
    r.push(item("quit-app", "退出 net-power", TrayMenuAction::Quit));
    r
}

/// The action for a clicked menu item id.
pub fn tray_menu_action(id: &str) -> (r: TrayMenuAction)
    ensures
        r == action_for(id@),
{
    let items = tray_menu_items();
    let v = to_chars(id);
    let mut i: usize = 0;
    while i < items.len()
        invariant
            v@ == id@,
            items@.len() == tray_menu().len(),
            forall|k: int| 0 <= k < items@.len() ==> item_view(#[trigger] items@[k]) == tray_menu()[k],
            i <= items@.len(),
            forall|k: int| 0 <= k < i ==> tray_menu()[k].0 != id@,
        decreases items.len() - i,
    {
        assert(item_view(items@[i as int]) == tray_menu()[i as int]);
        if eq_str(v.as_slice(), items[i].id.as_str()) {
            assert(tray_menu()[i as int].0 == id@);
            if i >= 1 {
                assert(tray_menu()[0].0 != id@);
            }
            if i >= 2 {
                assert(tray_menu()[1].0 != id@);
            }
            return items[i].action;
        }
        i = i + 1;
    }
    assert(tray_menu()[0].0 != id@);
    assert(tray_menu()[1].0 != id@);
    assert(tray_menu()[2].0 != id@);
    TrayMenuAction::Ignore
}

/// A mouse button on the tray icon.
#[derive(Debug, Clone, Copy, PartialEq, Eq)]
pub enum TrayMouseButton {
    Left,
    Right,
    Middle,
}

/// Whether a button went down or came up.
#[derive(Debug, Clone, Copy, PartialEq, Eq)]
pub enum TrayButtonState {
    Up,
    Down,
}

/// What happened on the tray icon.
#[derive(Debug, Clone, Copy, PartialEq, Eq)]
pub enum TrayEvent {
    Click { button: TrayMouseButton, state: TrayButtonState },
    DoubleClick { button: TrayMouseButton },
    /// The pointer entered, moved over or left the icon.
    Hover,
}

/// The main window is shown by a left double click, or by a left click
/// when the button comes up.
pub fn should_show_window_from_tray(event: &TrayEvent) -> (r: bool)
    ensures
        r == (event matches TrayEvent::DoubleClick { button: TrayMouseButton::Left } || event matches TrayEvent::Click {
            button: TrayMouseButton::Left,
            state: TrayButtonState::Up,
        }),
{
    match event {
        TrayEvent::DoubleClick { button: TrayMouseButton::Left } => true,
        TrayEvent::Click { button: TrayMouseButton::Left, state: TrayButtonState::Up } => true,
        _ => false,
    }
}

} // verus!
