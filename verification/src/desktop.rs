//! The decisions of the desktop shell around the daemon.

use crate::text::same;
use vstd::prelude::*;

verus! {

/// What a menu entry of the tray icon does.
#[derive(Debug, Clone, Copy)]
pub enum TrayAction {
    Quit,
    /// Show the main window and give it the focus.
    Show,
    Nothing,
}

/// What the menu entry with an id does.
pub open spec fn action_of(id: Seq<char>) -> TrayAction {
    if id == "quit"@ {
        TrayAction::Quit
    } else if id == "show"@ {
        TrayAction::Show
    } else {
        TrayAction::Nothing
    }
}

/// What the menu entry with an id does.
pub fn tray_action(id: &str) -> (r: TrayAction)
    ensures
        r == action_of(id@),
{
    if same(id, "quit") {
        TrayAction::Quit
    } else if same(id, "show") {
        TrayAction::Show
    } else {
        TrayAction::Nothing
    }
}

/// The status of the daemon, as the desktop shell reports it.
pub fn get_daemon_status() -> (r: String)
    ensures
        r@ == "running"@,
{
    "running".to_owned()
}

} // verus!
