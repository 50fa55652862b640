//! The choice menu that opens documents: where its highlight goes on each
//! key, and when the choice is made.
use vstd::prelude::*;

verus! {

/// A key or wheel event, as the menu sees it.
#[derive(Debug, Clone, Copy, PartialEq, Eq, Structural)]
pub enum MenuKey {
    Up,
    Down,
    WheelUp,
    WheelDown,
    Enter,
    Quit,
    Other,
}

/// What one event does to the menu.
#[derive(Debug, Clone, Copy, PartialEq, Eq, Structural)]
pub enum MenuOutcome {
    /// The highlight is now on this option.
    Moved(usize),
    /// This option was chosen.
    Chosen(usize),
    /// The menu was left without a choice.
    Cancelled,
    /// The event means nothing here; the highlight stays.
    Unrecognised,
}

/// The outcome of `key` with the highlight on option `cur` of `len`.
/// The arrow keys wrap around; the wheel stops at either end.
pub open spec fn menu_outcome(cur: usize, len: usize, key: MenuKey) -> MenuOutcome {
    match key {
        MenuKey::Up => MenuOutcome::Moved(if cur > 0 { (cur - 1) as usize } else { (len - 1) as usize }),
        MenuKey::Down => MenuOutcome::Moved(if cur + 1 < len { (cur + 1) as usize } else { 0 }),
        MenuKey::WheelUp => MenuOutcome::Moved(if cur > 0 { (cur - 1) as usize } else { 0 }),
        MenuKey::WheelDown => MenuOutcome::Moved(if cur + 1 < len { (cur + 1) as usize } else { (len - 1) as usize }),
        MenuKey::Enter => MenuOutcome::Chosen(cur),
        MenuKey::Quit => MenuOutcome::Cancelled,
        MenuKey::Other => MenuOutcome::Unrecognised,
    }
}

/// Applies one event to a menu of `len` options highlighted at `cur`.
pub fn select_step(cur: usize, len: usize, key: MenuKey) -> (r: MenuOutcome)
    requires
        cur < len,
    ensures
        r == menu_outcome(cur, len, key),
{
    match key {
        MenuKey::Up => MenuOutcome::Moved(if cur > 0 { cur - 1 } else { len - 1 }),
        MenuKey::Down => MenuOutcome::Moved(if cur < len - 1 { cur + 1 } else { 0 }),
        MenuKey::WheelUp => MenuOutcome::Moved(if cur > 0 { cur - 1 } else { 0 }),
        MenuKey::WheelDown => MenuOutcome::Moved(if cur < len - 1 { cur + 1 } else { len - 1 }),
        MenuKey::Enter => MenuOutcome::Chosen(cur),
        MenuKey::Quit => MenuOutcome::Cancelled,
        MenuKey::Other => MenuOutcome::Unrecognised,
    }
}

/// What an entry of the document picker stands for. The picker lists the
/// documents found, then an entry to create a new one, then one to open a
/// document elsewhere.
#[derive(Debug, Clone, Copy, PartialEq, Eq, Structural)]
pub enum PickerChoice {
    /// The document listed at this position.
    Listed(usize),
    /// Create a new document.
    NewList,
    /// Open a document by its path.
    OtherList,
}

/// The meaning of entry `choice` of a picker that lists `listed` documents.
pub fn picker_choice(choice: usize, listed: usize) -> (r: PickerChoice)
    requires
        choice < listed + 2,
    ensures
        choice < listed ==> r == PickerChoice::Listed(choice),
        choice == listed ==> r == PickerChoice::NewList,
        choice == listed + 1 ==> r == PickerChoice::OtherList,
{
    if choice < listed {
        PickerChoice::Listed(choice)
    } else if choice == listed {
        PickerChoice::NewList
    } else {
        PickerChoice::OtherList
    }
}

} // verus!
