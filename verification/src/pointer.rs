//! What the pointer shows in a frame.
use cursor_icon::CursorIcon;
use vstd::prelude::*;

verus! {

/// What the seat asks the pointer to show.
#[derive(Clone, Copy, Debug)]
pub enum CursorStatus {
    Hidden,
    Named(CursorIcon),
    /// A client's cursor surface, which may have been destroyed.
    Surface { alive: bool },
}

/// How the pointer is drawn.
#[derive(Clone, Copy, Debug)]
pub enum PointerDraw {
    /// Nothing themed is drawn; the cursor animation stops.
    Suspend,
    /// The themed cursor for this icon.
    Icon(CursorIcon),
    /// The client's cursor surface; the cursor animation stops.
    Surface,
}

/// The pointer's part of a frame.
#[derive(Clone, Copy, Debug)]
pub struct PointerPlan {
    pub draw: PointerDraw,
    /// The seat's status pointed at a destroyed surface and is reset to the
    /// default named cursor.
    pub reset_status: bool,
    /// A drag-and-drop icon, if one is alive, is drawn over the pointer.
    pub drag_icon: bool,
}

pub open spec fn pointer_plan_of(
    on_output: bool,
    screenshot: bool,
    switcher: bool,
    status: CursorStatus,
    crosshair: CursorIcon,
    default: CursorIcon,
) -> PointerPlan {
    if !on_output {
        PointerPlan { draw: PointerDraw::Suspend, reset_status: false, drag_icon: false }
    } else if screenshot {
        PointerPlan { draw: PointerDraw::Icon(crosshair), reset_status: false, drag_icon: false }
    } else if switcher {
        PointerPlan { draw: PointerDraw::Icon(default), reset_status: false, drag_icon: false }
    } else {
        match status {
            CursorStatus::Hidden => PointerPlan { draw: PointerDraw::Suspend, reset_status: false, drag_icon: true },
            CursorStatus::Named(icon) => PointerPlan { draw: PointerDraw::Icon(icon), reset_status: false, drag_icon: true },
            CursorStatus::Surface { alive } => if alive {
                PointerPlan { draw: PointerDraw::Surface, reset_status: false, drag_icon: true }
            } else {
                PointerPlan { draw: PointerDraw::Icon(default), reset_status: true, drag_icon: true }
            },
        }
    }
}

/// The pointer of a frame on an output (or none when the output is not
/// mapped): a crosshair while a screenshot selects, the default cursor over
/// the window switcher, else what the seat asks for, with a destroyed
/// cursor surface replaced by the default cursor.
pub fn pointer_plan(
    on_output: bool,
    screenshot: bool,
    switcher: bool,
    status: CursorStatus,
    crosshair: CursorIcon,
    default: CursorIcon,
) -> (r: PointerPlan)
    ensures
        r == pointer_plan_of(on_output, screenshot, switcher, status, crosshair, default),
{
    if !on_output {
        return PointerPlan { draw: PointerDraw::Suspend, reset_status: false, drag_icon: false };
    }
    if screenshot {
        return PointerPlan { draw: PointerDraw::Icon(crosshair), reset_status: false, drag_icon: false };
    }
    if switcher {
        return PointerPlan { draw: PointerDraw::Icon(default), reset_status: false, drag_icon: false };
    }
    match status {
        CursorStatus::Hidden => PointerPlan { draw: PointerDraw::Suspend, reset_status: false, drag_icon: true },
        CursorStatus::Named(icon) => PointerPlan { draw: PointerDraw::Icon(icon), reset_status: false, drag_icon: true },
        CursorStatus::Surface { alive } => {
            if alive {
                PointerPlan { draw: PointerDraw::Surface, reset_status: false, drag_icon: true }
            } else {
                PointerPlan { draw: PointerDraw::Icon(default), reset_status: true, drag_icon: true }
            }
        },
    }
}

} // verus!
