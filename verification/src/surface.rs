//! The command surface: the only entry point by which the presentation layer
//! reaches into the shell.

use vstd::prelude::*;

use crate::tray::TrayController;

verus! {

/// Update the tray title to exactly the supplied text.
///
/// This is the single command the presentation layer may invoke. It delegates
/// to the tray controller and never errors: if the tray icon does not exist
/// (called before initialization or after teardown) the call is a silent
/// no-op, observable only as a stale title.
pub fn update_tray_title(tray: &mut TrayController, title: &str)
    ensures
        final(tray).is_initialized() == old(tray).is_initialized(),
        old(tray).is_initialized() ==> final(tray).title_text() == Some(title@),
        !old(tray).is_initialized() ==> *final(tray) == *old(tray),
{
    tray.set_title(title);
}

} // verus!
