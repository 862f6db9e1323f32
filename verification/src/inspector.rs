//! The inspector: which entity the user looks at, if any.
use vstd::prelude::*;
use crate::environment_thread::LocalEntityData;
use crate::frame::UIRect;

verus! {

/// What the inspector shows.
#[derive(Debug, Clone, Copy, PartialEq, Eq, Structural)]
pub enum InspectorFocus {
    Nothing,
    Entity(LocalEntityData),
}

/// The inspector.
pub struct Inspector {
    pub focus: InspectorFocus,
}

impl Inspector {
    /// An inspector that shows nothing.
    pub fn new() -> (r: Self)
        ensures
            r.focus == InspectorFocus::Nothing,
    {
        Inspector { focus: InspectorFocus::Nothing }
    }

    /// Where the inspector's window stands on a screen of `screen` pixels: a
    /// 380 by 175 area ten pixels from the bottom right corner; `None` while
    /// it shows nothing.
    pub fn window_area(&self, screen: (u32, u32)) -> (r: Option<UIRect>)
        requires
            screen.0 <= i32::MAX,
            screen.1 <= i32::MAX,
        ensures
            self.focus is Nothing ==> r is None,
            self.focus is Entity ==> r == Some(
                UIRect { x: (screen.0 - 390) as i32, y: (screen.1 - 185) as i32, w: 380u32, h: 175u32 },
            ),
    {
        match self.focus {
            InspectorFocus::Nothing => None,
            InspectorFocus::Entity(_) => Some(
                UIRect { x: screen.0 as i32 - 390, y: screen.1 as i32 - 185, w: 380, h: 175 },
            ),
        }
    }

    /// The inspector after its window was shown: closing the window clears the focus.
    pub fn shown(&mut self, still_open: bool)
        ensures
            final(self).focus == (if still_open { old(self).focus } else { InspectorFocus::Nothing }),
    {
        if !still_open {
            self.focus = InspectorFocus::Nothing;
        }
    }
}

} // verus!
