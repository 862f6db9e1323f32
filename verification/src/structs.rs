//! Data shared by every component: map cells, positions, entity records.
use vstd::prelude::*;

verus! {

/// One tile of the world map.
#[derive(Debug, Clone, Copy, PartialEq, Eq, Structural, Hash)]
pub struct Cell {
    pub terrain: u64,
    pub ground: u64,
    pub structure_id: u64,
    pub is_structure_center: bool,
}

/// The cell every field of which is zero / false.
pub open spec fn default_cell() -> Cell {
    Cell { terrain: 0, ground: 0, structure_id: 0, is_structure_center: false }
}

impl Default for Cell {
    fn default() -> (c: Cell)
        ensures
            c == default_cell(),
    {
        Cell { terrain: 0, ground: 0, structure_id: 0, is_structure_center: false }
    }
}

pub type EntityId = u64;

/// A position on the (unbounded) tile grid.
#[derive(Debug, Clone, Copy, PartialEq, Eq, Structural, Hash)]
pub struct Position {
    pub x: i64,
    pub y: i64,
}

impl Default for Position {
    fn default() -> (p: Position)
        ensures
            p == (Position { x: 0, y: 0 }),
    {
        Position { x: 0, y: 0 }
    }
}

/// `p` moved by `(dx, dy)`, over the integers.
pub open spec fn shifted(p: Position, dx: int, dy: int) -> (int, int) {
    (p.x + dx, p.y + dy)
}

/// Whether `p` moved by `(dx, dy)` is still a position.
pub open spec fn can_shift(p: Position, dx: int, dy: int) -> bool {
    &&& i64::MIN <= p.x + dx <= i64::MAX
    &&& i64::MIN <= p.y + dy <= i64::MAX
}

/// The position `p` moved by `(dx, dy)`; meaningful when `can_shift(p, dx, dy)`.
pub open spec fn rel_spec(p: Position, dx: int, dy: int) -> Position {
    Position { x: (p.x + dx) as i64, y: (p.y + dy) as i64 }
}

/// Whether all eight neighbours of `p` are positions.
pub open spec fn has_all_neighbors(p: Position) -> bool {
    &&& i64::MIN < p.x < i64::MAX
    &&& i64::MIN < p.y < i64::MAX
}

/// The eight neighbours of `p` with the cost of the step to each:
/// the four along the axes cost 1, the four diagonal ones cost 2.
pub open spec fn neighbors_spec(p: Position) -> Seq<(Position, usize)> {
    seq![
        (rel_spec(p, -1, 0), 1usize),
        (rel_spec(p, 1, 0), 1usize),
        (rel_spec(p, 0, -1), 1usize),
        (rel_spec(p, 0, 1), 1usize),
        (rel_spec(p, -1, -1), 2usize),
        (rel_spec(p, -1, 1), 2usize),
        (rel_spec(p, 1, -1), 2usize),
        (rel_spec(p, 1, 1), 2usize),
    ]
}

impl Position {
    /// The position moved by `(x, y)`.
    pub fn rel(self, x: i64, y: i64) -> (r: Position)
        requires
            can_shift(self, x as int, y as int),
        ensures
            r == rel_spec(self, x as int, y as int),
            r.x == self.x + x,
            r.y == self.y + y,
    {
        let mut p = self;
        p.x = p.x + x;
        p.y = p.y + y;
        p
    }

    /// The eight surrounding positions, axes first, each with its step cost.
    pub fn neighbors(&self) -> (r: Vec<(Position, usize)>)
        requires
            has_all_neighbors(*self),
        ensures
            r@ == neighbors_spec(*self),
    {
        let v = vec![
            (self.rel(-1, 0), 1usize),
            (self.rel(1, 0), 1usize),
            (self.rel(0, -1), 1usize),
            (self.rel(0, 1), 1usize),
            (self.rel(-1, -1), 2usize),
            (self.rel(-1, 1), 2usize),
            (self.rel(1, -1), 2usize),
            (self.rel(1, 1), 2usize),
        ];
        assert(v@ =~= neighbors_spec(*self));
        v
    }

    /// The position of a pair of 32-bit coordinates.
    pub fn from_pair(i: (i32, i32)) -> (r: Position)
        ensures
            r.x == i.0,
            r.y == i.1,
    {
        Position { x: i.0 as i64, y: i.1 as i64 }
    }
}

impl From<(i32, i32)> for Position {
    fn from(i: (i32, i32)) -> (r: Position) {
        Position::from_pair(i)
    }
}

impl vstd::std_specs::convert::FromSpecImpl<(i32, i32)> for Position {
    open spec fn obeys_from_spec() -> bool {
        true
    }

    open spec fn from_spec(i: (i32, i32)) -> Position {
        Position { x: i.0 as i64, y: i.1 as i64 }
    }
}

/// A change to an entity's record.
#[derive(Debug, Clone, Copy, PartialEq, Eq, Structural)]
pub enum EntityDataMutation {
    LastTickEventFailed,
    UpdatePosition(Position),
}

/// What the world knows of one entity.
#[derive(Debug, Clone)]
pub struct EntityData {
    pub id: EntityId,
    pub last_pos: Position,
    pub pos: Position,
    pub kind: String,
    pub data: String,
    pub last_tick_failed: bool,
}

/// The record after one mutation.
pub open spec fn apply_mutation(d: EntityData, m: EntityDataMutation) -> EntityData {
    match m {
        EntityDataMutation::LastTickEventFailed => EntityData { last_tick_failed: true, ..d },
        EntityDataMutation::UpdatePosition(p) => EntityData { last_pos: d.pos, pos: p, ..d },
    }
}

/// The record after the mutations, applied in order.
pub open spec fn apply_all(d: EntityData, ms: Seq<EntityDataMutation>) -> EntityData
    decreases ms.len(),
{
    if ms.len() == 0 {
        d
    } else {
        apply_all(apply_mutation(d, ms[0]), ms.drop_first())
    }
}

impl EntityData {
    /// Applies the mutations in order.
    pub fn apply(&mut self, changes: Vec<EntityDataMutation>)
        ensures
            *final(self) == apply_all(*old(self), changes@),
    {
        let mut i: usize = 0;
        let ghost start = *self;
        assert(changes@.skip(0) =~= changes@);
        while i < changes.len()
            invariant
                i <= changes.len(),
                apply_all(start, changes@) == apply_all(*self, changes@.skip(i as int)),
            decreases changes.len() - i,
        {
            let ghost before = *self;
            match changes[i] {
                EntityDataMutation::LastTickEventFailed => {
                    self.last_tick_failed = true;
                },
                EntityDataMutation::UpdatePosition(position) => {
                    self.last_pos = self.pos;
                    self.pos = position;
                },
            }
            assert(changes@.skip(i as int).drop_first() =~= changes@.skip(i + 1));
            assert(*self == apply_mutation(before, changes@[i as int]));
            i = i + 1;
        }
        assert(changes@.skip(i as int) =~= Seq::<EntityDataMutation>::empty());
    }
}

/// Applying a concatenation of mutation lists is applying one list after the other.
pub proof fn lemma_apply_all_concat(d: EntityData, a: Seq<EntityDataMutation>, b: Seq<EntityDataMutation>)
    ensures
        apply_all(d, a + b) == apply_all(apply_all(d, a), b),
    decreases a.len(),
{
    if a.len() == 0 {
        assert(a + b =~= b);
    } else {
        assert((a + b).drop_first() =~= a.drop_first() + b);
        lemma_apply_all_concat(apply_mutation(d, a[0]), a.drop_first(), b);
    }
}

/// Key of one loaded grid of cells.
#[derive(Debug, Clone, Copy, Eq, Hash)]
pub struct GridKey {
    pub x: i64,
    pub y: i64,
}

impl PartialEq for GridKey {
    fn eq(&self, other: &GridKey) -> (r: bool) {
        self.x == other.x && self.y == other.y
    }
}

impl vstd::std_specs::cmp::PartialEqSpecImpl for GridKey {
    open spec fn obeys_eq_spec() -> bool {
        true
    }

    open spec fn eq_spec(&self, other: &GridKey) -> bool {
        self.x == other.x && self.y == other.y
    }
}

/// Grid keys compare in executable code as they do in specifications.
pub proof fn lemma_grid_key_model()
    ensures
        crate::usage::key_model::<GridKey>(),
{
    reveal(vstd::laws_eq::obeys_concrete_eq);
}

pub type DataKey = String;

/// Key of one cell inside a grid.
#[derive(Debug, Clone, Copy, PartialEq, Eq, Structural, Hash)]
pub struct CellKey {
    pub x: u64,
    pub y: u64,
}

/// Failure of a channel operation, with the name of the message.
#[derive(Debug, Clone, Copy)]
pub enum ChanError {
    SendError(&'static str),
    RecvError(&'static str),
}

} // verus!
