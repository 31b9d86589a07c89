use vstd::prelude::*;

use crate::config::{config_home, config_home_from};
use crate::text::{join_path, owned, path_join};

verus! {

/// Where the autostart entry lives: `autostart/arcglyph.desktop` in the per-user
/// configuration directory.
pub open spec fn autostart_path_spec(xdg: Option<Seq<char>>, home: Option<Seq<char>>) -> Seq<char> {
    path_join(path_join(config_home(xdg, home), "autostart"@), "arcglyph.desktop"@)
}

/// The autostart entry's path, from the values of `XDG_CONFIG_HOME` and `HOME`.
pub fn autostart_path_from(xdg: Option<String>, home: Option<String>) -> (r: String)
    ensures
        r@ == autostart_path_spec(xdg.deep_view(), home.deep_view()),
{
    let base = config_home_from(xdg, home);
    join_path(join_path(base, "autostart"), "arcglyph.desktop")
}

/// The command started at login: the packaged binary when it is installed, else the running
/// executable, else the bare program name.
pub fn exec_path_from(packaged_exists: bool, current_exe: Option<String>) -> (r: String)
    ensures
        packaged_exists ==> r@ == "/usr/bin/arcglyph"@,
        !packaged_exists ==> r@ == match current_exe {
            Some(p) => p@,
            None => "arcglyph"@,
        },
{
    if packaged_exists {
        owned("/usr/bin/arcglyph")
    } else {
        match current_exe {
            Some(p) => p,
            None => owned("arcglyph"),
        }
    }
}

/// The lines of the desktop entry before the command.
pub const ENTRY_HEAD: &'static str = "[Desktop Entry]\nType=Application\nName=Arcglyph\nGenericName=Mouse Gestures\nComment=Right-click drag mouse gesture daemon for Wayland\nExec=";

/// The lines of the desktop entry after the command.
pub const ENTRY_TAIL: &'static str = "\nIcon=input-mouse\nTerminal=false\nCategories=Utility;Settings;\nX-GNOME-Autostart-enabled=true\nX-KDE-autostart-after=panel\nX-KDE-StartupNotify=false\n";

/// The XDG desktop entry that starts `exec` at login.
pub fn desktop_entry(exec: &str) -> (r: String)
    ensures
        r@ == ENTRY_HEAD@ + exec@ + ENTRY_TAIL@,
{
    let mut r = owned(ENTRY_HEAD);
    r.append(exec);
    r.append(ENTRY_TAIL);
    r
}

} // verus!
