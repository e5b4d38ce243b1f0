//! Which parts of the window are shown.
use vstd::prelude::*;

verus! {

/// How wide the panel of the player is beside the panel of the folders.
pub const PLAYER_WIDTH: i32 = 450;

/// From which width of the window on the buttons of the panels are shown.
pub const BUTTON_WIDTH: i32 = 770;

/// From which width of the window on both panels fit.
pub const BOTH_WIDTH: i32 = 900;

/// Whether the panel of the folders is shown, and whether it was closed by hand.
#[derive(Debug, Clone, Copy, PartialEq, Eq, Structural)]
pub struct Panel {
    pub browse_visible: bool,
    pub manual_closed: bool,
}

/// What follows from the width of the window.
#[derive(Debug, Clone, Copy, PartialEq, Eq, Structural)]
pub struct Fit {
    pub dock_visible: bool,
    pub locate_visible: bool,
    /// Whether the panel of the folders is to be shown or hidden.
    pub browse: Option<bool>,
}

/// The panel after it was shown or hidden, by hand or not.
pub open spec fn toggled(panel: Panel, auto: bool) -> Panel {
    Panel {
        browse_visible: !panel.browse_visible,
        manual_closed: if auto {
            panel.manual_closed
        } else {
            panel.browse_visible
        },
    }
}

/// Whether the panel must change at a width: it is hidden where both do not fit,
/// and comes back where they do, unless it was closed by hand.
pub open spec fn must_toggle(panel: Panel, width: int) -> bool {
    if width < BOTH_WIDTH {
        panel.browse_visible
    } else {
        !panel.browse_visible && !panel.manual_closed
    }
}

/// The panel after it was fitted to a width.
pub open spec fn fitted(panel: Panel, width: int) -> Panel {
    if width > 0 && must_toggle(panel, width) {
        toggled(panel, true)
    } else {
        panel
    }
}

/// A panel that fits is left as it is.
pub proof fn fitting_is_settled(panel: Panel, width: int)
    ensures
        fitted(fitted(panel, width), width) == fitted(panel, width),
{
}

/// A panel that was closed by hand does not come back by itself.
pub proof fn closed_by_hand_stays_closed(panel: Panel, width: int)
    requires
        panel.browse_visible,
    ensures
        fitted(toggled(panel, false), width) == toggled(panel, false),
        !toggled(panel, false).browse_visible,
{
}

/// A panel that was hidden because it did not fit comes back where it fits, unless
/// it was closed by hand before.
pub proof fn hidden_panel_comes_back(panel: Panel, narrow: int, wide: int)
    requires
        panel.browse_visible,
        !panel.manual_closed,
        0 < narrow < BOTH_WIDTH <= wide,
    ensures
        !fitted(panel, narrow).browse_visible,
        fitted(fitted(panel, narrow), wide) == panel,
{
}

/// Showing and hiding by hand undo each other.
pub proof fn toggling_undoes_itself(panel: Panel)
    ensures
        toggled(toggled(panel, true), true) == panel,
        toggled(toggled(panel, false), false).browse_visible == panel.browse_visible,
        toggled(panel, false).browse_visible ==> !toggled(panel, false).manual_closed,
{
}

impl Panel {
    /// Both panels are shown.
    pub fn new() -> (r: Panel)
        ensures
            r == (Panel { browse_visible: true, manual_closed: false }),
    {
        Panel { browse_visible: true, manual_closed: false }
    }

    /// Shows or hides the panel of the folders, by hand or not, and tells whether
    /// it is shown then.
    pub fn on_toggle_browse(&mut self, auto: bool) -> (visible: bool)
        ensures
            *final(self) == toggled(*old(self), auto),
            visible == final(self).browse_visible,
    {
        let was = self.browse_visible;
        self.browse_visible = !was;
        if !auto {
            self.manual_closed = was;
        }
        self.browse_visible
    }

    /// Fits the panels to a width of the window. `has_song` tells whether there is
    /// a current song. A window without width is left alone.
    pub fn check_auto_hide(&mut self, width: i32, has_song: bool) -> (r: Option<Fit>)
        ensures
            *final(self) == fitted(*old(self), width as int),
            match r {
                Some(fit) => {
                    &&& width > 0
                    &&& fit.dock_visible == (width >= 770)
                    &&& fit.locate_visible == (width >= 770 && has_song)
                    &&& fit.browse == if must_toggle(*old(self), width as int) {
                        Some(!old(self).browse_visible)
                    } else {
                        None
                    }
                },
                None => width <= 0,
            },
    {
        if width <= 0 {
            return None;
        }
        let change = if width < BOTH_WIDTH {
            self.browse_visible
        } else {
            !self.browse_visible && !self.manual_closed
        };
        let browse: Option<bool> = if change {
            Some(self.on_toggle_browse(true))
        } else {
            None
        };
        Some(
            Fit {
                dock_visible: width >= BUTTON_WIDTH,
                locate_visible: width >= BUTTON_WIDTH && has_song,
                browse,
            },
        )
    }
}

/// Whether the button to find the song that is played is shown when a song
/// begins. For a file that was opened from outside it stays as it is.
pub fn locate_on_start(external: bool, width: i32) -> (r: Option<bool>)
    ensures
        r == if external {
            None
        } else {
            Some(width >= 770)
        },
{
    if external {
        None
    } else {
        Some(width >= BUTTON_WIDTH)
    }
}

} // verus!
