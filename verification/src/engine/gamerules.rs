//! The rules of a game: the behaviors that start, load and tick it, and the
//! kinds of pixel it knows.
use vstd::prelude::*;
use crate::engine::universe::UniverseError;
use crate::engine::physics::{PhysicsHooks, RichPixel, grows};
use crate::engine::behavior::Behavior;

verus! {

/// A position in the universe.
#[derive(Debug, Clone, Copy, PartialEq, Eq, Structural)]
pub struct Position {
    pub x: i64,
    pub y: i64,
}

impl Position {
    pub open spec fn new_spec(x: i64, y: i64) -> Position {
        Position { x, y }
    }

    pub fn new(x: i64, y: i64) -> (r: Position)
        ensures
            r == (Position { x, y }),
    {
        Position { x: x, y: y }
    }
}

/// When a deactivated pixel becomes active again.
#[derive(Debug, Clone, Copy, PartialEq, Eq, Structural)]
pub enum ReactivationRule {
    /// When a pixel next to it (one step in any direction) moves itself.
    OnEdgeChange,
}

/// A kind of pixel, and what a pixel of that kind does in a tick.
pub trait PhysicsKind {
    /// The name of the kind.
    spec fn name(&self) -> Seq<char>;

    /// The name of the kind, as pixels of the kind carry it; a kind keeps its name.
    fn kind(&mut self) -> (r: String)
        ensures
            r@ == old(self).name(),
            final(self).name() == old(self).name(),
    ;

    /// The behaviors of `pixel` in a tick; kinds may look at the pixels around it.
    fn handle_pixel(&mut self, pixel: &RichPixel) -> Result<Vec<Behavior>, UniverseError>
        requires
            i64::MIN < pixel.x < i64::MAX,
            i64::MIN < pixel.y < i64::MAX,
    ;
}

/// The index of the first kind named `name` in `kinds`, if any; the kinds keep
/// their names.
pub fn find_kind<K: PhysicsKind>(kinds: &mut Vec<K>, name: &String) -> (r: Option<usize>)
    ensures
        final(kinds)@.len() == old(kinds)@.len(),
        forall|j: int| 0 <= j < old(kinds)@.len() ==> #[trigger] final(kinds)@[j].name() == old(kinds)@[j].name(),
        r matches Some(i) ==> {
            &&& i < old(kinds)@.len()
            &&& old(kinds)@[i as int].name() == name@
            &&& forall|j: int| 0 <= j < i ==> #[trigger] old(kinds)@[j].name() != name@
        },
        r is None ==> forall|j: int| 0 <= j < old(kinds)@.len() ==> #[trigger] old(kinds)@[j].name() != name@,
{
    let mut i: usize = 0;
    while i < kinds.len()
        invariant
            i <= kinds@.len(),
            kinds@.len() == old(kinds)@.len(),
            forall|j: int| 0 <= j < kinds@.len() ==> #[trigger] kinds@[j].name() == old(kinds)@[j].name(),
            forall|j: int| 0 <= j < i ==> #[trigger] old(kinds)@[j].name() != name@,
        decreases kinds@.len() - i,
    {
        let ghost before = kinds@;
        let k = kinds[i].kind();
        assert(kinds@ == before.update(i as int, kinds@[i as int]));
        assert(forall|j: int| 0 <= j < kinds@.len() && j != i ==> kinds@[j] == before[j]);
        if k == *name {
            return Some(i);
        }
        i = i + 1;
    }
    None
}

/// The rules of a game.
pub trait GameRules {
    type Kind: PhysicsKind;

    /// The behaviors that start a new game.
    fn new_game(&mut self) -> Result<Vec<Behavior>, UniverseError>;

    /// The behaviors that resume a saved game.
    fn load_game(&mut self) -> Result<Vec<Behavior>, UniverseError>;

    /// The behaviors before a tick.
    fn pre_tick(&mut self) -> Result<Vec<Behavior>, UniverseError>;

    /// The behaviors after a tick.
    fn post_tick(&mut self) -> Result<Vec<Behavior>, UniverseError>;

    /// The kinds of pixel of the game.
    fn get_kinds(&mut self) -> Vec<Self::Kind>;

    /// The behaviors of the active pixel at `pos` in a tick; the work waiting
    /// in `hooks` stays as it is. By default: reads the pixel, failing with the
    /// universe's error, and looks up its kind; no behavior.
    fn handle_pixel_tick<H: PhysicsHooks>(&mut self, hooks: &mut H, pos: &Position) -> (r: Result<
        Vec<Behavior>,
        UniverseError,
    >)
        requires
            old(hooks).ready(),
        ensures
            final(hooks).ready(),
            final(hooks).pending() == old(hooks).pending(),
            final(hooks).rule_calls() == old(hooks).rule_calls(),
            grows(old(hooks).world(), final(hooks).world()),
        default_ensures
            final(hooks).ready(),
            final(hooks).pending() == old(hooks).pending(),
            final(hooks).rule_calls() == old(hooks).rule_calls(),
            grows(old(hooks).world(), final(hooks).world()),
            old(hooks).readable(*pos) ==> r is Ok,
            r matches Ok(v) ==> v@.len() == 0,
    {
        let mut kinds = self.get_kinds();
        let pixel = match hooks.get_pixel(pos) {
            Ok(p) => p,
            Err(e) => {
                return Err(e);
            },
        };
        let _kind = find_kind(&mut kinds, &pixel.kind);
        Ok(Vec::new())
    }
}

} // verus!
