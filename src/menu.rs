//! The decisions of the start menu: which option is highlighted after each key.
use vstd::prelude::*;

verus! {

/// The keys that the menu reacts to.
pub enum MenuKey {
    Up,
    Down,
    Enter,
    Other,
}

/// What the menu does after a key.
#[derive(PartialEq, Eq, Structural)]
pub enum MenuStep {
    /// The option now highlighted.
    Highlight(usize),
    /// The option chosen.
    Choose(usize),
}

/// The step that `key` makes from option `selected` of `len`: up and down move the
/// highlight, wrapping round at either end; enter chooses the highlighted option.
pub fn menu_step(selected: usize, len: usize, key: MenuKey) -> (r: MenuStep)
    requires
        selected < len,
    ensures
        r == match key {
            MenuKey::Up => MenuStep::Highlight(if selected > 0 { (selected - 1) as usize } else { (len - 1) as usize }),
            MenuKey::Down => MenuStep::Highlight(if selected < len - 1 { (selected + 1) as usize } else { 0 }),
            MenuKey::Enter => MenuStep::Choose(selected),
            MenuKey::Other => MenuStep::Highlight(selected),
        },
{
    match key {
        MenuKey::Up => {
            if selected > 0 {
                MenuStep::Highlight(selected - 1)
            } else {
                MenuStep::Highlight(len - 1)
            }
        },
        MenuKey::Down => {
            if selected < len - 1 {
                MenuStep::Highlight(selected + 1)
            } else {
                MenuStep::Highlight(0)
            }
        },
        MenuKey::Enter => MenuStep::Choose(selected),
        MenuKey::Other => MenuStep::Highlight(selected),
    }
}

} // verus!
