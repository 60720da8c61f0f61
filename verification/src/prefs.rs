//! Autostart integration.
//!
//! Enabling autostart installs a desktop entry that launches the given
//! executable at login; disabling removes it.  This module computes the
//! entry's content; creating, writing and removing the file is the
//! surrounding application's job.

use vstd::prelude::*;
use vstd::string::StringExecFns;

verus! {

/// The desktop entry installed for autostart, around the quoted executable
/// path.
pub open spec fn spec_desktop_entry(exe: Seq<char>) -> Seq<char> {
    "[Desktop Entry]\nType=Application\nName=ClipVault\nX-KDE-autostart-after=panel\nX-KDE-StartupNotify=false\nX-KDE-UniqueApplet=true\nX-GNOME-Autostart-Delay=3\nOnlyShowIn=GNOME;KDE;XFCE;LXQt;Unity;\nGenericName=Clipboard Manager\nComment=An encrypted clipboard manager\nTerminal=false\nExec=\""@
        + exe + "\"\nHidden=false\nX-GNOME-Autostart-enabled=true\n"@
}

/// The autostart decision: the desktop-entry content to install when
/// enabling, nothing when disabling (the caller then removes the installed
/// file).
pub fn set_autostart(enabled: bool, exe_path: &str) -> (r: Option<String>)
    ensures
        enabled ==> r is Some && r->Some_0@ == spec_desktop_entry(exe_path@),
        !enabled ==> r is None,
{
    if enabled {
        let mut s = String::from_str(
            "[Desktop Entry]\nType=Application\nName=ClipVault\nX-KDE-autostart-after=panel\nX-KDE-StartupNotify=false\nX-KDE-UniqueApplet=true\nX-GNOME-Autostart-Delay=3\nOnlyShowIn=GNOME;KDE;XFCE;LXQt;Unity;\nGenericName=Clipboard Manager\nComment=An encrypted clipboard manager\nTerminal=false\nExec=\"",
        );
        s.append(exe_path);
        s.append("\"\nHidden=false\nX-GNOME-Autostart-enabled=true\n");
        Some(s)
    } else {
        None
    }
}

} // verus!
