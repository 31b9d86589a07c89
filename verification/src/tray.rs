use vstd::prelude::*;

use crate::gui::ExternalMsg;

verus! {

/// A choice made in the tray icon's menu (or by clicking the icon).
#[derive(Debug, Clone, Copy, PartialEq, Eq, Structural)]
pub enum TrayCmd {
    ShowPreferences,
    Quit,
}

/// What the preferences window is told for a tray command.
pub fn external_msg_for(cmd: TrayCmd) -> (m: ExternalMsg)
    ensures
        cmd == TrayCmd::ShowPreferences ==> m == ExternalMsg::Show,
        cmd == TrayCmd::Quit ==> m == ExternalMsg::Quit,
{
    match cmd {
        TrayCmd::ShowPreferences => ExternalMsg::Show,
        TrayCmd::Quit => ExternalMsg::Quit,
    }
}

} // verus!
