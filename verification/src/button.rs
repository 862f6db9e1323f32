//! A button of the user interface: a black square that announces its message
//! when clicked with the left button.
use vstd::prelude::*;
use crate::broadcaster::Broadcaster;
use crate::window::UiEvent;

verus! {

/// A button, with the broadcaster it announces through.
pub struct Button<B> {
    pub color: (u8, u8, u8),
    pub bcast: B,
}

impl<B: Broadcaster> Button<B> {
    /// A black button.
    pub fn new(bcast: B) -> (r: Self)
        ensures
            r.color == (0u8, 0u8, 0u8),
            r.bcast == bcast,
    {
        Button { color: (0, 0, 0), bcast: bcast }
    }

    /// A press of the left mouse button broadcasts; returns whether it did.
    pub fn handle_event(&mut self, ev: UiEvent) -> (r: bool)
        ensures
            r == (ev matches UiEvent::MouseButtonDown { left, .. } && left),
            final(self).color == old(self).color,
    {
        match ev {
            UiEvent::MouseButtonDown { left, .. } => {
                if left {
                    self.bcast.broadcast();
                    true
                } else {
                    false
                }
            },
            _ => false,
        }
    }
}

} // verus!
