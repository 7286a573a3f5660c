//! What the keys of the small window do.

use crate::signals::{after_key, key_action, ActionView, Key, Shown, SignalsView};
use vstd::prelude::*;

verus! {

/// With a line selected its article is opened, marked as read while it is unread
/// and as unread while it is read, and starred while it has no star.
pub proof fn law_keys_act_on_the_selected_line(window: SignalsView, row: int)
    requires
        0 <= row < window.items.len(),
    ensures
        ({
            let item = window.items[row];
            let selected = Some(row);
            &&& window.shown == Shown::Articles ==> key_action(window, Key::Enter, selected)
                == ActionView::Preview { id: item.stable_id, unread: item.is_unread }
            &&& key_action(window, Key::Read, selected) == ActionView::SetRead {
                id: item.stable_id,
                read: item.is_unread,
            }
            &&& key_action(window, Key::Star, selected) == ActionView::SetStarred {
                id: item.stable_id,
                starred: !item.is_starred,
            }
            &&& window.original is Some ==> key_action(window, Key::Original, selected)
                == ActionView::OpenOriginal(window.original->0)
            &&& window.original is None && item.article_url is Some ==> key_action(
                window,
                Key::Original,
                selected,
            ) == ActionView::OpenOriginal(item.article_url->0)
            &&& window.shown == Shown::Articles && row + 1 < window.items.len() ==> key_action(
                window,
                Key::Down,
                selected,
            ) == ActionView::Select(row + 1)
            &&& window.shown == Shown::Articles && row > 0 ==> key_action(
                window,
                Key::Up,
                selected,
            ) == ActionView::Select(row - 1)
        }),
{
}

/// Asking for help twice shows it and takes it away; no key changes the lines.
pub proof fn law_help_comes_and_goes(window: SignalsView, key: Key, selected: Option<int>)
    ensures
        after_key(after_key(window, Key::Help, selected), Key::Help, selected) == window,
        after_key(window, Key::Help, selected).help == !window.help,
        after_key(window, key, selected).items == window.items,
        after_key(window, key, selected).original == window.original,
{
}

} // verus!
