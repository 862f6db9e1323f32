//! What pixels do: set a pixel, move themselves, or go inactive.
use vstd::prelude::*;
use crate::engine::universe::{GridKey, Pixel, UniverseError, StorageEngine, derive_pos_spec, pixel_at};
use crate::engine::gamerules::{Position, ReactivationRule};
use crate::engine::physics::{PhysicsHooks, StandardPhysics, written, not_loaded};

verus! {

/// Writes a pixel at a position.
pub struct SetPixel {
    src: Position,
    p: Pixel,
}

/// Moves the pixel at `src` to `dst`.
pub struct MoveSelf {
    src: Position,
    dst: Position,
}

/// Makes the pixel at `src` inactive until one of its rules wakes it.
pub struct DeactivateSelf {
    src: Position,
    rules: Vec<ReactivationRule>,
}

/// A behavior.
pub enum Behavior {
    SetPixel(SetPixel),
    MoveSelf(MoveSelf),
    DeactivateSelf(DeactivateSelf),
}

impl SetPixel {
    pub closed spec fn src(&self) -> Position {
        self.src
    }

    pub closed spec fn pixel(&self) -> Pixel {
        self.p
    }

    /// Writing `p` at `src`.
    pub fn new(src: Position, p: Pixel) -> (r: Behavior)
        ensures
            r matches Behavior::SetPixel(s) && s.src() == src && s.pixel() == p,
    {
        Behavior::SetPixel(SetPixel { src: src, p: p })
    }
}

impl MoveSelf {
    pub closed spec fn src(&self) -> Position {
        self.src
    }

    pub closed spec fn dst(&self) -> Position {
        self.dst
    }

    /// Moving the pixel at `src` to `dst`.
    pub fn new(src: Position, dst: Position) -> (r: Behavior)
        ensures
            r matches Behavior::MoveSelf(m) && m.src() == src && m.dst() == dst,
    {
        Behavior::MoveSelf(MoveSelf { src: src, dst: dst })
    }
}

impl DeactivateSelf {
    pub closed spec fn src(&self) -> Position {
        self.src
    }

    pub closed spec fn rules(&self) -> Seq<ReactivationRule> {
        self.rules@
    }

    /// Making the pixel at `src` inactive until one of `rules` wakes it.
    pub fn new(src: Position, rules: Vec<ReactivationRule>) -> (r: Behavior)
        ensures
            r matches Behavior::DeactivateSelf(d) && d.src() == src && d.rules() == rules@,
    {
        Behavior::DeactivateSelf(DeactivateSelf { src: src, rules: rules })
    }
}

impl Behavior {
    /// The storage cells a behavior needs: for a `SetPixel`, the cell of its position.
    /// Only `SetPixel` can tell.
    pub fn get_lock_requirements<H: PhysicsHooks>(&self, phys: &H) -> (r: Vec<GridKey>)
        requires
            self is SetPixel,
            phys.ready(),
        ensures
            self matches Behavior::SetPixel(s) ==> r@ == seq![derive_pos_spec(s.src().x, s.src().y).2],
    {
        match self {
            Behavior::SetPixel(s) => {
                let univ = phys.borrow_universe();
                let key = univ.grid.derive_pos(s.src.x, s.src.y).2;
                let mut v = Vec::new();
                v.push(key);
                v
            },
            _ => Vec::new(),
        }
    }

    /// Carries the behavior out on the physics. Only `SetPixel` can: it writes its
    /// pixel at its position.
    pub fn perform<T: StorageEngine>(&self, phys: &mut StandardPhysics<T>) -> (r: Result<(), UniverseError>)
        requires
            self is SetPixel,
            old(phys).wf(),
        ensures
            final(phys).wf(),
            final(phys).queue() == old(phys).queue(),
            final(phys).rule_calls() == old(phys).rule_calls(),
            self matches Behavior::SetPixel(s) ==> (r is Ok ==> {
                &&& pixel_at(final(phys).universe().grid.cells(), s.src().x, s.src().y) == Some(s.pixel()@)
                &&& final(phys).active().contains(s.src())
            }),
            self matches Behavior::SetPixel(s) ==> (old(phys).universe().grid.loaded().dom().contains(
                derive_pos_spec(s.src().x, s.src().y).2,
            ) ==> r is Ok),
            self matches Behavior::SetPixel(s) ==> (r is Err ==> final(phys).active() == old(phys).active()
                && final(phys).universe().grid.loaded() == old(phys).universe().grid.loaded()),
            self matches Behavior::SetPixel(s) ==> (r is Ok ==> written(
                old(phys).world(),
                s.src(),
                s.pixel()@,
                final(phys).world(),
            )),
            self matches Behavior::SetPixel(s) ==> (r is Err ==> final(phys).world() == old(phys).world()
                && not_loaded(old(phys).world(), s.src())),
    {
        match self {
            Behavior::SetPixel(s) => phys.set_pixel(&s.src, s.p.clone()),
            _ => Ok(()),
        }
    }
}

} // verus!
