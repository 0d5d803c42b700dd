//! Window visibility: one owned state cell behind a single toggle operation.
//!
//! Both the tray controller and the host event loop reach the main window's
//! visibility only through the coordinator defined here, which keeps the
//! "shown or hidden" decision in exactly one place.

use vstd::prelude::*;

verus! {

/// What the coordinator asks the operating system to do with the main window.
#[derive(Clone, Copy, PartialEq, Eq, Structural, Debug)]
pub enum WindowAction {
    /// Show the window and give it input focus.
    Show,
    /// Hide the window.
    Hide,
}

/// Single authority for whether the main window is currently shown.
///
/// The window starts shown; every change of state goes through a toggle. The
/// coordinator never exposes a direct setter, so even though several event
/// sources (tray clicks, the host loop) may trigger a toggle, there is only
/// one writer.
pub struct VisibilityCoordinator {
    visible: bool,
}

impl VisibilityCoordinator {
    /// True when the coordinator holds the window to be visible.
    pub closed spec fn is_visible(self) -> bool {
        self.visible
    }

    /// A fresh process starts with the window shown.
    pub fn new() -> (c: Self)
        ensures
            c.is_visible(),
    {
        VisibilityCoordinator { visible: true }
    }

    /// Whether the coordinator currently holds the window to be shown.
    pub fn shown(&self) -> (b: bool)
        ensures
            b == self.is_visible(),
    {
        self.visible
    }

    /// The one user-facing operation: hide a visible window, show a hidden
    /// one (and give it focus). The returned action is what the caller must
    /// perform on the real window.
    pub fn toggle(&mut self) -> (a: WindowAction)
        ensures
            final(self).is_visible() == !old(self).is_visible(),
            a == (if old(self).is_visible() {
                WindowAction::Hide
            } else {
                WindowAction::Show
            }),
    {
        if self.visible {
            self.visible = false;
            WindowAction::Hide
        } else {
            self.visible = true;
            WindowAction::Show
        }
    }

    /// Toggle driven by what the operating system reports about the window.
    ///
    /// `None` stands for a failed visibility query. A failure counts as "not
    /// visible", so the window is shown rather than left permanently hidden
    /// (fail-safe), and no error is surfaced: the operation is best-effort.
    /// The coordinator adopts the outcome as the new state of truth.
    pub fn toggle_reported(&mut self, reported: Option<bool>) -> (a: WindowAction)
        ensures
            a == (if reported == Some(true) {
                WindowAction::Hide
            } else {
                WindowAction::Show
            }),
            final(self).is_visible() == (a == WindowAction::Show),
    {
        let observed_visible = match reported {
            Some(v) => v,
            None => false,
        };
        if observed_visible {
            self.visible = false;
            WindowAction::Hide
        } else {
            self.visible = true;
            WindowAction::Show
        }
    }
}

} // verus!
