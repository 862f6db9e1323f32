//! A small game: one pixel of sand at the origin.
use vstd::prelude::*;
use crate::engine::universe::{Pixel, UniverseError};
use crate::engine::gamerules::{GameRules, PhysicsKind, Position, ReactivationRule};
use crate::engine::physics::RichPixel;
use crate::engine::behavior::{Behavior, SetPixel, MoveSelf, DeactivateSelf};

verus! {

/// The rules of the small game.
pub struct GameRulesTest {
    arbitrary: bool,
}

impl GameRulesTest {
    /// The flag the rules are made with.
    pub closed spec fn flag(&self) -> bool {
        self.arbitrary
    }

    /// The rules, made with the flag set; they read nothing of their own state.
    pub fn new() -> (r: Self)
        ensures
            r.flag(),
    {
        GameRulesTest { arbitrary: true }
    }
}

impl GameRules for GameRulesTest {
    type Kind = KindSand;

    /// A new game sets one pixel of sand at the origin.
    fn new_game(&mut self) -> (r: Result<Vec<Behavior>, UniverseError>)
        ensures
            r matches Ok(v) && v@.len() == 1 && (v@[0] matches Behavior::SetPixel(s) && s.src()
                == Position::new_spec(0, 0) && s.pixel()@ == ("sand"@, Seq::<char>::empty())),
    {
        let mut v = Vec::new();
        v.push(SetPixel::new(Position::new(0, 0), KindSand::new_pixel()));
        Ok(v)
    }

    fn load_game(&mut self) -> (r: Result<Vec<Behavior>, UniverseError>)
        ensures
            r matches Ok(v) && v@.len() == 0,
    {
        Ok(Vec::new())
    }

    fn pre_tick(&mut self) -> (r: Result<Vec<Behavior>, UniverseError>)
        ensures
            r matches Ok(v) && v@.len() == 0,
    {
        Ok(Vec::new())
    }

    fn post_tick(&mut self) -> (r: Result<Vec<Behavior>, UniverseError>)
        ensures
            r matches Ok(v) && v@.len() == 0,
    {
        Ok(Vec::new())
    }

    /// Sand is the only kind.
    fn get_kinds(&mut self) -> (r: Vec<KindSand>)
        ensures
            r@.len() == 1,
    {
        let mut v = Vec::new();
        v.push(KindSand);
        v
    }
}

/// Sand: falls one step down, then rests until a pixel next to it moves.
pub struct KindSand;

impl KindSand {
    /// A pixel of sand.
    pub fn new_pixel() -> (r: Pixel)
        ensures
            r@ == ("sand"@, Seq::<char>::empty()),
    {
        let mut k = KindSand;
        Pixel::new(k.kind())
    }
}

impl PhysicsKind for KindSand {
    open spec fn name(&self) -> Seq<char> {
        "sand"@
    }

    fn kind(&mut self) -> (r: String)
        ensures
            r@ == "sand"@,
    {
        "sand".to_string()
    }

    /// Moves the pixel one step down, then deactivates it until a pixel next
    /// to it moves.
    fn handle_pixel(&mut self, pixel: &RichPixel) -> (r: Result<Vec<Behavior>, UniverseError>)
        ensures
            r matches Ok(v) && v@.len() == 2 && (v@[0] matches Behavior::MoveSelf(m) && m.src()
                == Position::new_spec(pixel.x, pixel.y) && m.dst() == Position::new_spec(pixel.x, (pixel.y - 1) as i64))
                && (v@[1] matches Behavior::DeactivateSelf(d) && d.src() == Position::new_spec(pixel.x, pixel.y)
                && d.rules() == seq![ReactivationRule::OnEdgeChange]),
    {
        let mut v = Vec::new();
        v.push(MoveSelf::new(pixel.pos(), pixel.relative_pos(0, -1)));
        let mut rules = Vec::new();
        rules.push(ReactivationRule::OnEdgeChange);
        v.push(DeactivateSelf::new(pixel.pos(), rules));
        Ok(v)
    }
}

} // verus!
