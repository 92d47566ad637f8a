//! The step function of the terminal patient list: a highlighted row moved by keys.
use vstd::prelude::*;

verus! {

/// A key read while the list is shown.
#[derive(PartialEq, Eq, Structural, Clone, Copy, Debug)]
pub enum ListKey {
    Up,
    Down,
    Enter,
    Quit,
    Other,
}

/// What the list does after a key.
#[derive(PartialEq, Eq, Structural, Clone, Copy, Debug)]
pub enum ListAction {
    /// Show the list with this row highlighted.
    Show(usize),
    /// Show the details of this row.
    Open(usize),
    /// Leave the list.
    Leave,
}

/// The next action of a list of `len` rows with row `selected` highlighted:
/// up and down move by one row and stop at the ends.
pub fn list_step(selected: usize, len: usize, key: ListKey) -> (r: ListAction)
    requires
        selected < len,
    ensures
        key == ListKey::Up ==> r == ListAction::Show(if selected > 0 { (selected - 1) as usize } else { selected }),
        key == ListKey::Down ==> r == ListAction::Show(if selected + 1 < len { (selected + 1) as usize } else { selected }),
        key == ListKey::Enter ==> r == ListAction::Open(selected),
        key == ListKey::Quit ==> r == ListAction::Leave,
        key == ListKey::Other ==> r == ListAction::Show(selected),
{
    match key {
        ListKey::Up => ListAction::Show(if selected > 0 { selected - 1 } else { selected }),
        ListKey::Down => ListAction::Show(if selected < len - 1 { selected + 1 } else { selected }),
        ListKey::Enter => ListAction::Open(selected),
        ListKey::Quit => ListAction::Leave,
        ListKey::Other => ListAction::Show(selected),
    }
}

} // verus!
