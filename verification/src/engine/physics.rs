//! The standard physics: a queue of behavior lists carried out at each tick,
//! and the set of active pixels that the game rules look at.
use vstd::prelude::*;
use crate::engine::universe::{Universe, StorageEngine, Pixel, PixelView, UniverseError, GridKey, CellKey,
    derive_pos_spec, pixel_at};
use crate::engine::gamerules::{GameRules, Position};
use crate::engine::behavior::Behavior;

verus! {

/// A pixel with its position.
pub struct RichPixel {
    pub x: i64,
    pub y: i64,
    pub pixel: Pixel,
}

impl RichPixel {
    /// Its position.
    pub fn pos(&self) -> (r: Position)
        ensures
            r == (Position { x: self.x, y: self.y }),
    {
        Position { x: self.x, y: self.y }
    }

    /// The position `(d_x, d_y)` away from it.
    pub fn relative_pos(&self, d_x: i64, d_y: i64) -> (r: Position)
        requires
            i64::MIN <= self.x + d_x <= i64::MAX,
            i64::MIN <= self.y + d_y <= i64::MAX,
        ensures
            r == (Position { x: (self.x + d_x) as i64, y: (self.y + d_y) as i64 }),
    {
        Position { x: self.x + d_x, y: self.y + d_y }
    }
}

/// Access of behaviors and game rules to the pixels of the universe.
pub trait PhysicsHooks {
    type Engine: StorageEngine;

    /// Whether pixels can be read and written.
    spec fn ready(&self) -> bool;

    /// The behavior lists waiting to be carried out; reading and writing
    /// pixels leaves them as they are.
    spec fn pending(&self) -> Seq<Seq<Behavior>>;

    /// Whether the pixel at `pos` can be read without loading anything.
    spec fn readable(&self, pos: Position) -> bool;

    /// The pixels of the loaded storage cells and the active positions; reading
    /// and writing pixels keeps the active positions and the loaded cells.
    spec fn world(&self) -> PhysView;

    /// The calls made to the game rules so far; reading and writing pixels
    /// leaves them as they are.
    spec fn rule_calls(&self) -> Seq<RuleCall>;

    fn borrow_universe(&self) -> (r: &Universe<Self::Engine>)
        ensures
            self.ready() ==> r.grid.wf(),
    ;

    fn set_pixel(&mut self, pos: &Position, pixel: Pixel) -> (r: Result<(), UniverseError>)
        requires
            old(self).ready(),
        ensures
            final(self).ready(),
            final(self).pending() == old(self).pending(),
            final(self).rule_calls() == old(self).rule_calls(),
            grows(old(self).world(), final(self).world()),
    ;

    fn get_pixel(&mut self, pos: &Position) -> (r: Result<Pixel, UniverseError>)
        requires
            old(self).ready(),
        ensures
            final(self).ready(),
            final(self).pending() == old(self).pending(),
            old(self).readable(*pos) ==> r is Ok,
            final(self).rule_calls() == old(self).rule_calls(),
            grows(old(self).world(), final(self).world()),
    ;
}

/// Whether no position occurs twice in `s`.
pub open spec fn distinct_positions(s: Seq<Position>) -> bool {
    forall|i: int, j: int| 0 <= i < s.len() && 0 <= j < s.len() && i != j ==> s[i] != s[j]
}

/// Whether every behavior list in `q` can be carried out: none is empty, and
/// every behavior in them is a `SetPixel`.
pub open spec fn performable(q: Seq<Seq<Behavior>>) -> bool {
    forall|i: int| 0 <= i < q.len() ==> {
        &&& #[trigger] q[i].len() > 0
        &&& forall|j: int| 0 <= j < q[i].len() ==> #[trigger] q[i][j] is SetPixel
    }
}

/// What the pixels of a physics show: the pixels of each loaded storage cell,
/// and the active positions in the order they became active.
pub type PhysView = (Map<GridKey, Map<CellKey, PixelView>>, Seq<Position>);

/// The active positions once `p` is active: `p` is added at the end unless it
/// already is active.
pub open spec fn with_active(a: Seq<Position>, p: Position) -> Seq<Position> {
    if a.contains(p) {
        a
    } else {
        a.push(p)
    }
}

/// A successful write of pixel `v` at `p`: the storage cell of `p` is loaded
/// if it was not (with the pixels the storage engine gave), `v` is written at
/// `p`, the other loaded cells are as they were, and `p` is active.
pub open spec fn written(before: PhysView, p: Position, v: PixelView, after: PhysView) -> bool {
    let (cx, cy, key) = derive_pos_spec(p.x, p.y);
    &&& after.1 == with_active(before.1, p)
    &&& after.0.dom() == before.0.dom().insert(key)
    &&& forall|k: GridKey| k != key && #[trigger] before.0.dom().contains(k) ==> after.0[k] == before.0[k]
    &&& before.0.dom().contains(key) ==> after.0[key] == before.0[key].insert(CellKey { x: cx, y: cy }, v)
    &&& pixel_at(after.0, p.x, p.y) == Some(v)
}

/// Whether the storage cell of `p` is not loaded, so that a write at `p` can fail.
pub open spec fn not_loaded(before: PhysView, p: Position) -> bool {
    !before.0.dom().contains(derive_pos_spec(p.x, p.y).2)
}

/// Carrying out a behavior list from its `j`-th behavior on, from the state
/// `before` to `after`: each `SetPixel` is tried in turn; one that fails
/// (its cell was not loaded and could not be) leaves everything as it was,
/// and the first that succeeds is written and ends the list. When every one
/// fails, nothing changes.
pub open spec fn list_done_from(before: PhysView, list: Seq<Behavior>, j: int, after: PhysView) -> bool
    decreases list.len() - j,
{
    if j < 0 || j >= list.len() {
        after == before
    } else {
        match list[j] {
            Behavior::SetPixel(s) => written(before, s.src(), s.pixel()@, after) || (not_loaded(before, s.src())
                && list_done_from(before, list, j + 1, after)),
            _ => after == before,
        }
    }
}

/// Carrying out a whole behavior list (see `list_done_from`).
pub open spec fn list_done(before: PhysView, list: Seq<Behavior>, after: PhysView) -> bool {
    list_done_from(before, list, 0, after)
}

/// Whether `chain` is the run of states through which the lists of `q` are
/// carried out in order, from `before` to `after`.
pub open spec fn flush_chain(chain: Seq<PhysView>, before: PhysView, q: Seq<Seq<Behavior>>, after: PhysView) -> bool {
    &&& chain.len() == q.len() + 1
    &&& chain[0] == before
    &&& chain[q.len() as int] == after
    &&& forall|i: int| 0 <= i < q.len() ==> #[trigger] list_done(chain[i], q[i], chain[i + 1])
}

/// Carrying out the lists of `q` in order takes the state `before` to `after`.
pub open spec fn flushed(before: PhysView, q: Seq<Seq<Behavior>>, after: PhysView) -> bool {
    exists|chain: Seq<PhysView>| #[trigger] flush_chain(chain, before, q, after)
}

/// The active positions of `before` stay active, in order, at the front, and
/// the loaded storage cells stay loaded.
pub open spec fn grows(before: PhysView, after: PhysView) -> bool {
    &&& before.1.len() <= after.1.len()
    &&& forall|i: int| 0 <= i < before.1.len() ==> #[trigger] after.1[i] == before.1[i]
    &&& forall|k: GridKey| #[trigger] before.0.dom().contains(k) ==> after.0.dom().contains(k)
}

/// A call of the physics to the game rules: before a tick, for an active
/// pixel at its position, after a tick.
#[derive(Debug, Clone, Copy, PartialEq, Eq, Structural)]
pub enum RuleCall {
    PreTick,
    PixelTick(Position),
    PostTick,
}

/// The calls of a whole tick whose active positions are `active`: before the
/// tick, one for each active position in order, after the tick.
pub open spec fn tick_calls(active: Seq<Position>) -> Seq<RuleCall> {
    seq![RuleCall::PreTick] + active.map_values(|p: Position| RuleCall::PixelTick(p)) + seq![RuleCall::PostTick]
}

/// A tick from `before`: the lists of `q` are carried out (see `flushed`),
/// then the rules are called with `calls`, the first calls of `tick_calls` on
/// the positions active after that, all of them when the tick succeeded (`ok`);
/// meanwhile the rules only add active positions and load storage cells (see
/// `grows`), ending at `after`.
pub open spec fn tick_ran(before: PhysView, q: Seq<Seq<Behavior>>, after: PhysView, calls: Seq<RuleCall>, ok: bool) -> bool {
    exists|mid: PhysView|
        #[trigger] flushed(before, q, mid) && grows(mid, after) && 0 < calls.len() <= tick_calls(mid.1).len()
            && calls == tick_calls(mid.1).take(calls.len() as int) && (ok ==> calls == tick_calls(mid.1))
}

/// Every behavior before `j` was a `SetPixel` whose write failed, and the one
/// at `j` was written: the list is done.
proof fn lemma_list_written(before: PhysView, list: Seq<Behavior>, k: int, j: int, after: PhysView)
    requires
        0 <= k <= j < list.len(),
        forall|b: int| k <= b < j ==> (#[trigger] list[b] matches Behavior::SetPixel(s) && not_loaded(before, s.src())),
        list[j] matches Behavior::SetPixel(s) && written(before, s.src(), s.pixel()@, after),
    ensures
        list_done_from(before, list, k, after),
    decreases j - k,
{
    if k < j {
        lemma_list_written(before, list, k + 1, j, after);
        assert(list[k] matches Behavior::SetPixel(s) && not_loaded(before, s.src()));
    }
}

/// Every behavior from `k` on was a `SetPixel` whose write failed: the list is
/// done and nothing changed.
proof fn lemma_list_all_failed(before: PhysView, list: Seq<Behavior>, k: int)
    requires
        0 <= k <= list.len(),
        forall|b: int| k <= b < list.len() ==> (#[trigger] list[b] matches Behavior::SetPixel(s) && not_loaded(
            before,
            s.src(),
        )),
    ensures
        list_done_from(before, list, k, before),
    decreases list.len() - k,
{
    if k < list.len() {
        lemma_list_all_failed(before, list, k + 1);
        assert(list[k] matches Behavior::SetPixel(s) && not_loaded(before, s.src()));
    }
}

/// A write grows the state.
proof fn lemma_written_grows(before: PhysView, p: Position, v: PixelView, after: PhysView)
    requires
        written(before, p, v, after),
    ensures
        grows(before, after),
{
}

/// The active pixels, and the behavior lists still to carry out.
pub struct StandardPhysicsData {
    active_pixels: Vec<Position>,
    work_queue: Vec<Vec<Behavior>>,
}

impl StandardPhysicsData {
    pub closed spec fn active(&self) -> Seq<Position> {
        self.active_pixels@
    }

    pub closed spec fn queue(&self) -> Seq<Seq<Behavior>> {
        self.work_queue@.map_values(|l: Vec<Behavior>| l@)
    }

    /// No pixel is active twice.
    pub closed spec fn wf(&self) -> bool {
        distinct_positions(self.active_pixels@)
    }

    /// No active pixel and no work.
    pub fn new() -> (r: Self)
        ensures
            r.wf(),
            r.active() == Seq::<Position>::empty(),
            r.queue() == Seq::<Seq<Behavior>>::empty(),
    {
        let r = StandardPhysicsData { active_pixels: Vec::new(), work_queue: Vec::new() };
        assert(r.queue() =~= Seq::<Seq<Behavior>>::empty());
        r
    }

    /// The active positions, in the order they became active.
    pub fn active_pixels(&self) -> (r: &Vec<Position>)
        ensures
            r@ == self.active(),
    {
        &self.active_pixels
    }

    /// Makes the pixel's position active, unless it already is.
    pub fn push_active_pixel(&mut self, pixel: RichPixel) -> (r: Result<(), UniverseError>)
        requires
            old(self).wf(),
        ensures
            r is Ok,
            final(self).wf(),
            final(self).queue() == old(self).queue(),
            final(self).active() == (if old(self).active().contains(Position { x: pixel.x, y: pixel.y }) {
                old(self).active()
            } else {
                old(self).active().push(Position { x: pixel.x, y: pixel.y })
            }),
    {
        let pos = pixel.pos();
        let mut i: usize = 0;
        let mut found = false;
        while i < self.active_pixels.len() && !found
            invariant
                i <= self.active_pixels@.len(),
                self.active_pixels@ == old(self).active_pixels@,
                self.work_queue@ == old(self).work_queue@,
                found ==> self.active_pixels@.contains(pos),
                !found ==> forall|j: int| 0 <= j < i ==> self.active_pixels@[j] != pos,
            decreases self.active_pixels@.len() - i + (if found { 0int } else { 1int }),
        {
            if self.active_pixels[i] == pos {
                assert(self.active_pixels@[i as int] == pos);
                found = true;
            } else {
                i = i + 1;
            }
        }
        if !found {
            assert(!old(self).active_pixels@.contains(pos));
            self.active_pixels.push(pos);
            proof {
                assert forall|a: int, b: int|
                    0 <= a < self.active_pixels@.len() && 0 <= b < self.active_pixels@.len() && a != b implies
                    self.active_pixels@[a] != self.active_pixels@[b] by {
                    if a < old(self).active_pixels@.len() && b < old(self).active_pixels@.len() {
                    } else if a == old(self).active_pixels@.len() {
                        assert(self.active_pixels@[b] == old(self).active_pixels@[b]);
                    } else {
                        assert(self.active_pixels@[a] == old(self).active_pixels@[a]);
                    }
                }
            }
        }
        Ok(())
    }
}

/// The standard physics over a universe.
pub struct StandardPhysics<T: StorageEngine> {
    univ: Universe<T>,
    data: StandardPhysicsData,
    calls: Ghost<Seq<RuleCall>>,
}

impl<T: StorageEngine> StandardPhysics<T> {
    pub closed spec fn universe(&self) -> Universe<T> {
        self.univ
    }

    pub closed spec fn active(&self) -> Seq<Position> {
        self.data.active()
    }

    /// The calls made to the game rules so far.
    pub closed spec fn calls_made(&self) -> Seq<RuleCall> {
        self.calls@
    }

    pub closed spec fn queue(&self) -> Seq<Seq<Behavior>> {
        self.data.queue()
    }

    /// The universe can be read and written, and no pixel is active twice.
    pub closed spec fn wf(&self) -> bool {
        self.univ.grid.wf() && self.data.wf()
    }
}

impl<T: StorageEngine> PhysicsHooks for StandardPhysics<T> {
    type Engine = T;

    open spec fn ready(&self) -> bool {
        self.wf()
    }

    open spec fn pending(&self) -> Seq<Seq<Behavior>> {
        self.queue()
    }

    /// The storage cell of `pos` is loaded.
    open spec fn readable(&self, pos: Position) -> bool {
        self.universe().grid.loaded().dom().contains(derive_pos_spec(pos.x, pos.y).2)
    }

    open spec fn world(&self) -> PhysView {
        (self.universe().grid.cells(), self.active())
    }

    open spec fn rule_calls(&self) -> Seq<RuleCall> {
        self.calls_made()
    }

    fn borrow_universe(&self) -> (r: &Universe<T>) {
        &self.univ
    }

    /// Writes `pixel` at `pos` and makes `pos` active.
    fn set_pixel(&mut self, pos: &Position, pixel: Pixel) -> (r: Result<(), UniverseError>)
        ensures
            final(self).queue() == old(self).queue(),
            r is Ok ==> pixel_at(final(self).universe().grid.cells(), pos.x, pos.y) == Some(pixel@),
            r is Ok ==> final(self).active().contains(*pos),
            old(self).universe().grid.loaded().dom().contains(derive_pos_spec(pos.x, pos.y).2) ==> {
                &&& r is Ok
                &&& final(self).universe().grid.cells() == old(self).universe().grid.cells().insert(
                    derive_pos_spec(pos.x, pos.y).2,
                    old(self).universe().grid.cells()[derive_pos_spec(pos.x, pos.y).2].insert(
                        CellKey { x: derive_pos_spec(pos.x, pos.y).0, y: derive_pos_spec(pos.x, pos.y).1 },
                        pixel@,
                    ),
                )
            },
            r is Ok ==> final(self).active() == (if old(self).active().contains(*pos) {
                old(self).active()
            } else {
                old(self).active().push(*pos)
            }),
            r is Err ==> final(self).active() == old(self).active() && final(self).universe().grid.loaded()
                == old(self).universe().grid.loaded(),
            r is Ok ==> written(old(self).world(), *pos, pixel@, final(self).world()),
            r is Err ==> final(self).world() == old(self).world() && not_loaded(old(self).world(), *pos),
    {
        let copy = pixel.clone();
        match self.univ.set_pixel(pos.x, pos.y, copy) {
            Ok(()) => {},
            Err(e) => {
                return Err(e);
            },
        }
        proof {
            let key = derive_pos_spec(pos.x, pos.y).2;
            let oc = old(self).universe().grid.cells();
            let nc = self.univ.grid.cells();
            assert(nc.dom() =~= oc.dom().insert(key));
            assert forall|k: GridKey| k != key && #[trigger] oc.dom().contains(k) implies nc[k] == oc[k] by {
                assert(self.univ.grid.loaded()[k] == old(self).universe().grid.loaded()[k]);
            }
        }
        let r = self.data.push_active_pixel(RichPixel { x: pos.x, y: pos.y, pixel: pixel });
        proof {
            if !old(self).active().contains(*pos) {
                assert(self.active()[self.active().len() - 1] == *pos);
            }
        }
        r
    }

    /// The pixel at `pos`.
    fn get_pixel(&mut self, pos: &Position) -> (r: Result<Pixel, UniverseError>)
        ensures
            final(self).queue() == old(self).queue(),
            final(self).active() == old(self).active(),
            r matches Ok(p) ==> Some(p@) == pixel_at(final(self).universe().grid.cells(), pos.x, pos.y),
            old(self).universe().grid.loaded().dom().contains(derive_pos_spec(pos.x, pos.y).2) ==> r is Ok,
    {
        self.univ.get_pixel(pos.x, pos.y)
    }
}

impl<T: StorageEngine> StandardPhysics<T> {
    /// A game over `universe` with the physics `data`, once the rules have
    /// answered: their behaviors are queued after those of `data`; their error
    /// is the result as it is.
    pub fn with_behaviors(
        universe: Universe<T>,
        data: StandardPhysicsData,
        behaviors: Result<Vec<Behavior>, UniverseError>,
    ) -> (r: Result<Self, UniverseError>)
        requires
            universe.grid.wf(),
            data.wf(),
        ensures
            match behaviors {
                Ok(b) => r matches Ok(p) && {
                    &&& p.wf()
                    &&& p.rule_calls() == Seq::<RuleCall>::empty()
                    &&& p.universe() == universe
                    &&& p.active() == data.active()
                    &&& p.queue() == data.queue().push(b@)
                },
                Err(e) => r matches Err(e2) && e2 == e,
            },
    {
        let mut res = StandardPhysics { data: data, univ: universe, calls: Ghost(Seq::empty()) };
        match behaviors {
            Ok(b) => {
                match res.handle_rich_behaviors(b) {
                    Ok(()) => {},
                    Err(e) => {
                        return Err(e);
                    },
                }
                Ok(res)
            },
            Err(e) => Err(e),
        }
    }

    /// A new game over `universe`: its start behaviors, from the rules, are
    /// queued; no pixel is active. The rules' error when they fail (see
    /// `with_behaviors`).
    pub fn create<R: GameRules>(universe: Universe<T>, rules: &mut R) -> (r: Result<Self, UniverseError>)
        requires
            universe.grid.wf(),
        ensures
            r matches Ok(p) ==> {
                &&& p.wf()
                &&& p.universe() == universe
                &&& p.active() == Seq::<Position>::empty()
                &&& p.queue().len() == 1
            },
    {
        let data = StandardPhysicsData::new();
        let behaviors = rules.new_game();
        let r = Self::with_behaviors(universe, data, behaviors);
        proof {
            if let Ok(p) = &r {
                assert(p.queue().len() == 1);
            }
        }
        r
    }

    /// A saved game over `universe`, with its saved physics data: the rules'
    /// behaviors for resuming it are queued after the saved ones. The rules'
    /// error when they fail (see `with_behaviors`).
    pub fn load<R: GameRules>(universe: Universe<T>, data: StandardPhysicsData, rules: &mut R) -> (r: Result<
        Self,
        UniverseError,
    >)
        requires
            universe.grid.wf(),
            data.wf(),
        ensures
            r matches Ok(p) ==> {
                &&& p.wf()
                &&& p.universe() == universe
                &&& p.active() == data.active()
                &&& p.queue().len() == data.queue().len() + 1
                &&& p.queue().take(data.queue().len() as int) == data.queue()
            },
    {
        let ghost dq = data.queue();
        let behaviors = rules.load_game();
        let r = Self::with_behaviors(universe, data, behaviors);
        proof {
            if let Ok(p) = &r {
                assert(p.queue().take(dq.len() as int) =~= dq);
            }
        }
        r
    }

    /// The physics data: the active positions and the queued behavior lists.
    pub fn data(&self) -> (r: &StandardPhysicsData)
        ensures
            r.active() == self.active(),
            r.queue() == self.queue(),
    {
        &self.data
    }

    /// Queues a list of behaviors, to be tried in order at the next tick.
    pub fn handle_rich_behaviors(&mut self, behaviors: Vec<Behavior>) -> (r: Result<(), UniverseError>)
        ensures
            r is Ok,
            final(self).queue() == old(self).queue().push(behaviors@),
            final(self).active() == old(self).active(),
            final(self).universe() == old(self).universe(),
            final(self).wf() == old(self).wf(),
            final(self).rule_calls() == old(self).rule_calls(),
    {
        let ghost b = behaviors@;
        self.data.work_queue.push(behaviors);
        assert(self.queue() =~= old(self).queue().push(b));
        Ok(())
    }

    /// Whether every queued list can be carried out.
    pub fn is_performable(&self) -> (r: bool)
        ensures
            r == performable(self.queue()),
    {
        let mut i: usize = 0;
        while i < self.data.work_queue.len()
            invariant
                i <= self.data.work_queue@.len(),
                forall|a: int| 0 <= a < i ==> {
                    &&& #[trigger] self.queue()[a].len() > 0
                    &&& forall|j: int| 0 <= j < self.queue()[a].len() ==> #[trigger] self.queue()[a][j] is SetPixel
                },
            decreases self.data.work_queue@.len() - i,
        {
            let list = &self.data.work_queue[i];
            assert(self.queue()[i as int] == list@);
            if list.len() == 0 {
                assert(self.queue()[i as int].len() == 0);
                return false;
            }
            let mut j: usize = 0;
            while j < list.len()
                invariant
                    j <= list@.len(),
                    i < self.data.work_queue@.len(),
                    list@ == self.queue()[i as int],
                    forall|b: int| 0 <= b < j ==> #[trigger] list@[b] is SetPixel,
                decreases list@.len() - j,
            {
                match &list[j] {
                    Behavior::SetPixel(_) => {},
                    _ => {
                        assert(!(list@[j as int] is SetPixel));
                        return false;
                    },
                }
                j = j + 1;
            }
            i = i + 1;
        }
        true
    }

    /// Carries out the queued lists, in order, and empties the queue: of each
    /// list, behaviors are tried in order until one succeeds (see `flushed`).
    pub fn flush_queue(&mut self)
        requires
            old(self).wf(),
            performable(old(self).queue()),
        ensures
            final(self).wf(),
            final(self).queue() == Seq::<Seq<Behavior>>::empty(),
            flushed(old(self).world(), old(self).queue(), final(self).world()),
            final(self).rule_calls() == old(self).rule_calls(),
    {
        let ghost start = self.world();
        let mut drain: Vec<Vec<Behavior>> = Vec::new();
        std::mem::swap(&mut drain, &mut self.data.work_queue);
        let ghost q = old(self).queue();
        assert(drain@.map_values(|l: Vec<Behavior>| l@) == q);
        assert forall|a: int| 0 <= a < drain@.len() implies drain@[a]@ == q[a] by {
            assert(drain@.map_values(|l: Vec<Behavior>| l@)[a] == drain@[a]@);
        }
        assert(self.world() == start);
        let ghost mut chain: Seq<PhysView> = seq![start];
        let mut i: usize = 0;
        while i < drain.len()
            invariant
                i <= drain@.len(),
                self.wf(),
                self.queue().len() == 0,
                q == old(self).queue(),
                drain@.len() == q.len(),
                performable(q),
                forall|a: int| 0 <= a < drain@.len() ==> #[trigger] drain@[a]@ == q[a],
                chain.len() == i + 1,
                self.rule_calls() == old(self).rule_calls(),
                chain[0] == start,
                chain[i as int] == self.world(),
                forall|a: int| 0 <= a < i ==> #[trigger] list_done(chain[a], q[a], chain[a + 1]),
            decreases drain@.len() - i,
        {
            let list = &drain[i];
            let ghost from = self.world();
            assert(list@ == q[i as int]);
            assert(q[i as int].len() > 0);
            let mut j: usize = 0;
            let mut done = false;
            while j < list.len() && !done
                invariant
                    j <= list@.len(),
                    self.wf(),
                    self.queue().len() == 0,
                    self.rule_calls() == old(self).rule_calls(),
                    forall|b: int| 0 <= b < list@.len() ==> #[trigger] list@[b] is SetPixel,
                    !done ==> self.world() == from,
                    !done ==> forall|b: int| 0 <= b < j ==> (#[trigger] list@[b] matches Behavior::SetPixel(s)
                        && not_loaded(from, s.src())),
                    done ==> list_done(from, list@, self.world()),
                decreases list@.len() - j,
            {
                let result = list[j].perform(self);
                if result.is_ok() {
                    proof {
                        lemma_list_written(from, list@, 0, j as int, self.world());
                    }
                    done = true;
                }
                j = j + 1;
            }
            proof {
                if !done {
                    lemma_list_all_failed(from, list@, 0);
                }
                chain = chain.push(self.world());
                assert forall|a: int| 0 <= a < i + 1 implies #[trigger] list_done(chain[a], q[a], chain[a + 1]) by {
                    if a == i {
                        assert(chain[a] == from);
                    }
                }
            }
            i = i + 1;
        }
        proof {
            assert(flush_chain(chain, start, q, self.world()));
        }
        assert(self.queue() =~= Seq::<Seq<Behavior>>::empty());
    }

    /// One tick: carries out the queue, then runs the rules before the tick,
    /// for each active pixel, and after the tick; the first error of the rules
    /// ends the tick.
    pub fn run_tick<R: GameRules>(&mut self, rules: &mut R) -> (r: Result<(), UniverseError>)
        requires
            old(self).wf(),
            performable(old(self).queue()),
        ensures
            final(self).wf(),
            final(self).queue() == Seq::<Seq<Behavior>>::empty(),
            old(self).rule_calls().len() <= final(self).rule_calls().len(),
            final(self).rule_calls().take(old(self).rule_calls().len() as int) == old(self).rule_calls(),
            tick_ran(
                old(self).world(),
                old(self).queue(),
                final(self).world(),
                final(self).rule_calls().skip(old(self).rule_calls().len() as int),
                r is Ok,
            ),
    {
        let ghost c0 = self.rule_calls();
        self.flush_queue();
        let ghost mid = self.world();
        let ghost all = tick_calls(mid.1);
        assert(flushed(old(self).world(), old(self).queue(), mid) && grows(mid, self.world()));
        proof {
            self.calls@ = self.calls@.push(RuleCall::PreTick);
            assert(self.rule_calls().skip(c0.len() as int) =~= all.take(1));
            assert(self.rule_calls().take(c0.len() as int) =~= c0);
        }
        match rules.pre_tick() {
            Ok(_) => {},
            Err(e) => {
                assert(flushed(old(self).world(), old(self).queue(), mid) && grows(mid, self.world()));
                return Err(e);
            },
        }
        let mut positions: Vec<Position> = Vec::new();
        let mut i: usize = 0;
        while i < self.data.active_pixels.len()
            invariant
                i <= self.data.active_pixels@.len(),
                positions@ == self.data.active_pixels@.take(i as int),
            decreases self.data.active_pixels@.len() - i,
        {
            positions.push(self.data.active_pixels[i]);
            i = i + 1;
            assert(positions@ =~= self.data.active_pixels@.take(i as int));
        }
        assert(positions@ =~= mid.1);
        let mut k: usize = 0;
        while k < positions.len()
            invariant
                k <= positions@.len(),
                positions@ == mid.1,
                all == tick_calls(mid.1),
                self.wf(),
                self.queue() == Seq::<Seq<Behavior>>::empty(),
                flushed(old(self).world(), old(self).queue(), mid),
                grows(mid, self.world()),
                c0 == old(self).rule_calls(),
                self.rule_calls().take(c0.len() as int) == c0,
                self.rule_calls().len() == c0.len() + 1 + k,
                self.rule_calls().skip(c0.len() as int) == all.take(1 + k),
            decreases positions@.len() - k,
        {
            let pos = positions[k];
            proof {
                let before = self.rule_calls();
                self.calls@ = self.calls@.push(RuleCall::PixelTick(pos));
                assert(all[1 + k] == RuleCall::PixelTick(pos));
                assert(self.rule_calls().skip(c0.len() as int) =~= all.take(1 + k + 1));
                assert(self.rule_calls().take(c0.len() as int) =~= before.take(c0.len() as int));
            }
            let ghost calls_before = self.rule_calls();
            let res = rules.handle_pixel_tick(self, &pos);
            assert(self.rule_calls() == calls_before);
            match res {
                Ok(_) => {},
                Err(e) => {
                    assert(flushed(old(self).world(), old(self).queue(), mid) && grows(mid, self.world()));
                    return Err(e);
                },
            }
            k = k + 1;
        }
        proof {
            let before = self.rule_calls();
            self.calls@ = self.calls@.push(RuleCall::PostTick);
            assert(all.len() == k + 2);
            assert(all[k + 1] == RuleCall::PostTick);
            assert(self.rule_calls().skip(c0.len() as int) =~= all.take(1 + k).push(RuleCall::PostTick));
            assert(all.take(1 + k).push(RuleCall::PostTick) =~= all);
            assert(self.rule_calls().take(c0.len() as int) =~= before.take(c0.len() as int));
        }
        let res = rules.post_tick();
        assert(flushed(old(self).world(), old(self).queue(), mid) && grows(mid, self.world()));
        assert(all.take(all.len() as int) =~= all);
        match res {
            Ok(_) => {},
            Err(e) => {
                return Err(e);
            },
        }
        Ok(())
    }

    /// Saving the physics is not supported.
    pub fn save(&mut self) -> (r: Result<(), UniverseError>)
        ensures
            r matches Err(UniverseError::Unimplemented(m)) && m@ == "StandardPhysics.save"@,
            *final(self) == *old(self),
    {
        proof {
            reveal_strlit("StandardPhysics.save");
        }
        Err(UniverseError::Unimplemented("StandardPhysics.save"))
    }
}

} // verus!
