//! The tray controller: icon lifecycle, mutable title, click interpretation.
//!
//! The controller owns the tray icon's title and turns raw tray input into at
//! most one action: toggling the window. Only a click *release* toggles;
//! press-down events are ignored so a single physical click never fires twice.

use vstd::prelude::*;

use crate::visibility::{VisibilityCoordinator, WindowAction};

verus! {

/// State of the mouse button in a tray click, as the operating system
/// reports it.
#[derive(Clone, Copy, PartialEq, Eq, Structural, Debug)]
pub enum TrayButtonState {
    /// The button was released.
    Up,
    /// The button was pressed down.
    Down,
}

/// One tray interaction, reduced to what the click handler reads.
#[derive(Clone, Copy, PartialEq, Eq, Structural, Debug)]
pub enum TrayInput {
    /// A click carrying the reported button state.
    Click { button_state: TrayButtonState },
    /// Any other tray interaction (hover, move, leave, ...): never acted on.
    Other,
}

/// A click release: the only tray input that toggles the window.
pub open spec fn is_release_click(input: TrayInput) -> bool {
    input == (TrayInput::Click { button_state: TrayButtonState::Up })
}

/// How many toggles a sequence of tray inputs causes: one per release click,
/// none for presses or other interactions.
pub open spec fn release_clicks(inputs: Seq<TrayInput>) -> nat
    decreases inputs.len(),
{
    if inputs.len() == 0 {
        0
    } else {
        release_clicks(inputs.drop_last()) + (if is_release_click(inputs.last()) {
            1nat
        } else {
            0nat
        })
    }
}

/// Window visibility after a sequence of tray inputs has been handled, one at
/// a time, starting from `initial`.
pub open spec fn visibility_after(initial: bool, inputs: Seq<TrayInput>) -> bool
    decreases inputs.len(),
{
    if inputs.len() == 0 {
        initial
    } else if is_release_click(inputs.last()) {
        !visibility_after(initial, inputs.drop_last())
    } else {
        visibility_after(initial, inputs.drop_last())
    }
}

/// Law: the toggle is its own inverse. After any sequence of tray inputs the
/// window is back in its initial state when the number of release clicks is
/// even, and in the opposite state when it is odd; presses and other
/// interactions change nothing.
pub proof fn lemma_toggle_parity(initial: bool, inputs: Seq<TrayInput>)
    ensures
        visibility_after(initial, inputs) == (if release_clicks(inputs) % 2 == 0 {
            initial
        } else {
            !initial
        }),
    decreases inputs.len(),
{
    if inputs.len() > 0 {
        lemma_toggle_parity(initial, inputs.drop_last());
    }
}

/// Interpret one tray input: a release click toggles the window through the
/// coordinator and yields the action to perform; everything else is ignored.
pub fn handle_tray_input(coordinator: &mut VisibilityCoordinator, input: TrayInput) -> (a: Option<
    WindowAction,
>)
    ensures
        final(coordinator).is_visible() == visibility_after(
            old(coordinator).is_visible(),
            seq![input],
        ),
        a == (if is_release_click(input) {
            Some(
                if old(coordinator).is_visible() {
                    WindowAction::Hide
                } else {
                    WindowAction::Show
                },
            )
        } else {
            None::<WindowAction>
        }),
{
    proof {
        assert(seq![input].drop_last() =~= Seq::<TrayInput>::empty());
        assert(seq![input].last() == input);
        assert(visibility_after(old(coordinator).is_visible(), Seq::<TrayInput>::empty()) == old(
            coordinator,
        ).is_visible());
    }
    match input {
        TrayInput::Click { button_state: TrayButtonState::Up } => Some(coordinator.toggle()),
        _ => None,
    }
}

/// Handle a sequence of tray inputs, oldest first, as the host event loop
/// delivers them one at a time.
pub fn handle_tray_inputs(coordinator: &mut VisibilityCoordinator, inputs: &Vec<TrayInput>)
    ensures
        final(coordinator).is_visible() == visibility_after(
            old(coordinator).is_visible(),
            inputs@,
        ),
{
    let n = inputs.len();
    let mut i: usize = 0;
    proof {
        assert(inputs@.take(0) =~= Seq::<TrayInput>::empty());
    }
    while i < n
        invariant
            n == inputs@.len(),
            i <= n,
            coordinator.is_visible() == visibility_after(
                old(coordinator).is_visible(),
                inputs@.take(i as int),
            ),
        decreases n - i,
    {
        let ghost prev = coordinator.is_visible();
        proof {
            assert(inputs@.take(i as int + 1).drop_last() =~= inputs@.take(i as int));
            assert(inputs@.take(i as int + 1).last() == inputs@[i as int]);
            assert(seq![inputs@[i as int]].drop_last() =~= Seq::<TrayInput>::empty());
            assert(seq![inputs@[i as int]].last() == inputs@[i as int]);
            assert(visibility_after(prev, Seq::<TrayInput>::empty()) == prev);
        }
        let _ = handle_tray_input(coordinator, inputs[i]);
        i += 1;
    }
    proof {
        assert(inputs@.take(n as int) =~= inputs@);
    }
}

/// Owns the tray icon's title. `None` models "no icon": before
/// initialization (or after teardown) there is nothing to write a title on.
pub struct TrayController {
    title: Option<String>,
}

impl TrayController {
    /// True once the tray icon has been created.
    pub closed spec fn is_initialized(self) -> bool {
        self.title is Some
    }

    /// The title currently carried by the icon, `None` while no icon exists.
    pub closed spec fn title_text(self) -> Option<Seq<char>> {
        match self.title {
            Some(t) => Some(t@),
            None => None,
        }
    }

    /// Before startup: no icon yet.
    pub fn new() -> (t: Self)
        ensures
            !t.is_initialized(),
    {
        TrayController { title: None }
    }

    /// Record the creation of the tray icon with its initial title. The icon
    /// is created exactly once at process startup; if the operating system
    /// fails to create it, startup as a whole fails and this is never called.
    pub fn initialize(&mut self, initial_title: &str)
        requires
            !old(self).is_initialized(),
        ensures
            final(self).is_initialized(),
            final(self).title_text() == Some(initial_title@),
    {
        self.title = Some(initial_title.to_owned());
    }

    /// The title as currently shown, `None` while no icon exists.
    pub fn current_title(&self) -> (t: Option<&str>)
        ensures
            t is Some <==> self.is_initialized(),
            t matches Some(s) ==> self.title_text() == Some(s@),
    {
        match &self.title {
            Some(s) => Some(s.as_str()),
            None => None,
        }
    }

    /// Overwrite the title. With no icon to write on this is a silent no-op
    /// rather than an error: a best-effort cosmetic update.
    pub fn set_title(&mut self, text: &str)
        ensures
            final(self).is_initialized() == old(self).is_initialized(),
            old(self).is_initialized() ==> final(self).title_text() == Some(text@),
            !old(self).is_initialized() ==> *final(self) == *old(self),
    {
        if self.title.is_some() {
            self.title = Some(text.to_owned());
        }
    }
}

} // verus!
