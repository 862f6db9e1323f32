//! The environment: where the entities stand, how their moves are resolved
//! in one tick, and which entities lie in an area.
use vstd::prelude::*;
use crate::structs::{Position, EntityId, EntityDataMutation, ChanError};
use crate::entity_thread::{TickEvent, EntityThreadNews};

verus! {

/// Errors of the environment component.
#[derive(Debug)]
pub enum Error {
    Unimplemented(&'static str),
    SendError(&'static str),
    RecvError(&'static str),
}

impl From<ChanError> for Error {
    fn from(err: ChanError) -> (r: Error) {
        match err {
            ChanError::SendError(e) => Error::SendError(e),
            ChanError::RecvError(e) => Error::RecvError(e),
        }
    }
}

impl vstd::std_specs::convert::FromSpecImpl<ChanError> for Error {
    open spec fn obeys_from_spec() -> bool {
        true
    }

    open spec fn from_spec(err: ChanError) -> Error {
        match err {
            ChanError::SendError(e) => Error::SendError(e),
            ChanError::RecvError(e) => Error::RecvError(e),
        }
    }
}

/// Where the environment has an entity.
#[derive(Debug, Clone, Copy, PartialEq, Eq, Structural)]
pub struct LocalEntityData {
    pub id: EntityId,
    pub pos: Position,
    pub last_pos: Position,
}

/// Whether some entity stands at `p`.
pub open spec fn occupied(ents: Seq<LocalEntityData>, p: Position) -> bool {
    exists|i: int| 0 <= i < ents.len() && ents[i].pos == p
}

/// Whether some entity has id `id`.
pub open spec fn registered(ents: Seq<LocalEntityData>, id: EntityId) -> bool {
    exists|i: int| 0 <= i < ents.len() && ents[i].id == id
}

/// The index of the first entity with id `id`.
pub open spec fn first_with_id(ents: Seq<LocalEntityData>, id: EntityId) -> int {
    choose|i: int| 0 <= i < ents.len() && ents[i].id == id && forall|j: int| 0 <= j < i ==> ents[j].id != id
}

/// The entities after the first one with id `id` moved to `p`.
pub open spec fn moved(ents: Seq<LocalEntityData>, id: EntityId, p: Position) -> Seq<LocalEntityData> {
    let i = first_with_id(ents, id);
    ents.update(i, LocalEntityData { id: ents[i].id, pos: p, last_pos: ents[i].pos })
}

/// The entities after one event, and the outcome of a move event.
pub open spec fn tick_step(e: Seq<LocalEntityData>, ev: (EntityId, TickEvent)) -> (Seq<LocalEntityData>, Option<
    (EntityId, Option<Position>),
>) {
    match ev.1 {
        TickEvent::Idle => (e, None),
        TickEvent::Move(p) => if occupied(e, p) {
            (e, Some((ev.0, None)))
        } else {
            (moved(e, ev.0, p), Some((ev.0, Some(p))))
        },
    }
}

/// The entities after a tick's events, and per move event its outcome:
/// `None` where the target was occupied, `Some(p)` where the entity moved to `p`.
pub open spec fn tick_results(ents: Seq<LocalEntityData>, evs: Seq<(EntityId, TickEvent)>) -> (Seq<
    LocalEntityData,
>, Seq<(EntityId, Option<Position>)>)
    decreases evs.len(),
{
    if evs.len() == 0 {
        (ents, Seq::empty())
    } else {
        let (e, r) = tick_results(ents, evs.drop_last());
        let (e2, o) = tick_step(e, evs.last());
        match o {
            None => (e2, r),
            Some(x) => (e2, r.push(x)),
        }
    }
}

/// Whether every move of the tick that finds its target free is made by a
/// registered entity (the others are refused before the entity is looked up).
pub open spec fn tick_defined(ents: Seq<LocalEntityData>, evs: Seq<(EntityId, TickEvent)>) -> bool
    decreases evs.len(),
{
    if evs.len() == 0 {
        true
    } else {
        let e = tick_results(ents, evs.drop_last()).0;
        let ev = evs.last();
        &&& tick_defined(ents, evs.drop_last())
        &&& (ev.1 matches TickEvent::Move(p) && !occupied(e, p) ==> registered(e, ev.0))
    }
}

/// The news that stands for an outcome.
pub open spec fn news_is(n: (EntityId, Vec<EntityThreadNews>), r: (EntityId, Option<Position>)) -> bool {
    &&& n.0 == r.0
    &&& match r.1 {
        None => n.1@ == seq![EntityThreadNews::LastTickEventFailed],
        Some(p) => n.1@.len() == 1 && (n.1@[0] matches EntityThreadNews::UpdateEntityData(m) && m@ == seq![
            EntityDataMutation::UpdatePosition(p),
        ]),
    }
}

/// Whether the entity lies in the rectangle spanned by `a` and `b`, edges included.
pub open spec fn in_area(e: LocalEntityData, a: Position, b: Position) -> bool {
    &&& (a.x <= e.pos.x <= b.x || b.x <= e.pos.x <= a.x)
    &&& (a.y <= e.pos.y <= b.y || b.y <= e.pos.y <= a.y)
}

/// The entities that the environment manages.
#[derive(Debug)]
pub struct EnvironmentState {
    entities: Vec<LocalEntityData>,
}

impl EnvironmentState {
    /// The entities, in the order they were added.
    pub closed spec fn view(&self) -> Seq<LocalEntityData> {
        self.entities@
    }

    /// An environment without entities.
    pub fn new() -> (r: Self)
        ensures
            r@ == Seq::<LocalEntityData>::empty(),
    {
        EnvironmentState { entities: Vec::new() }
    }

    /// Adds an entity standing at `pos`.
    pub fn add_entity(&mut self, id: EntityId, pos: Position)
        ensures
            final(self)@ == old(self)@.push(LocalEntityData { id: id, pos: pos, last_pos: pos }),
    {
        self.entities.push(LocalEntityData { id: id, pos: pos, last_pos: pos });
    }

    /// The entities, in the order they were added.
    pub fn entities(&self) -> (r: &Vec<LocalEntityData>)
        ensures
            r@ == self@,
    {
        &self.entities
    }

    /// The index of the first entity with id `id`, if there is one.
    pub fn find_entity(&self, id: EntityId) -> (r: Option<usize>)
        ensures
            r is None <==> !registered(self@, id),
            r matches Some(i) ==> i < self@.len() && self@[i as int].id == id && i == first_with_id(self@, id),
    {
        let mut i: usize = 0;
        while i < self.entities.len()
            invariant
                i <= self.entities@.len(),
                forall|j: int| 0 <= j < i ==> self.entities@[j].id != id,
            decreases self.entities@.len() - i,
        {
            if self.entities[i].id == id {
                assert(self.entities@[i as int].id == id && forall|j: int| 0 <= j < i ==> self.entities@[j].id != id);
                let ghost c = first_with_id(self@, id);
                assert(c == i) by {
                    if c < i {
                        assert(self.entities@[c].id != id);
                    }
                    if c > i {
                        assert(self.entities@[i as int].id != id);
                    }
                }
                return Some(i);
            }
            i = i + 1;
        }
        None
    }

    /// Whether some entity stands at `p`.
    pub fn is_occupied(&self, p: Position) -> (r: bool)
        ensures
            r == occupied(self@, p),
    {
        let mut j: usize = 0;
        while j < self.entities.len()
            invariant
                j <= self.entities@.len(),
                forall|q: int| 0 <= q < j ==> self.entities@[q].pos != p,
            decreases self.entities@.len() - j,
        {
            if self.entities[j].pos == p {
                return true;
            }
            j = j + 1;
        }
        false
    }

    /// Resolves one event; returns the news for its entity, if any.
    #[verifier::spinoff_prover]
    #[verifier::rlimit(40)]
    fn apply_tick_event(&mut self, id: EntityId, event: TickEvent) -> (r: Option<Vec<EntityThreadNews>>)
        requires
            (event matches TickEvent::Move(p) && !occupied(old(self)@, p) ==> registered(old(self)@, id)),
        ensures
            final(self)@ == tick_step(old(self)@, (id, event)).0,
            r is Some <==> tick_step(old(self)@, (id, event)).1 is Some,
            r matches Some(n) ==> news_is((id, n), tick_step(old(self)@, (id, event)).1->Some_0),
    {
        match event {
            TickEvent::Idle => None,
            TickEvent::Move(position) => {
                let conflict = self.is_occupied(position);
                if conflict {
                    let news = vec![EntityThreadNews::LastTickEventFailed];
                    assert(news@ =~= seq![EntityThreadNews::LastTickEventFailed]);
                    Some(news)
                } else {
                    let found = self.find_entity(id);
                    let i = found.unwrap();
                    let updating = self.entities[i];
                    let ghost e0 = self@;
                    self.entities.set(i, LocalEntityData { id: updating.id, pos: position, last_pos: updating.pos });
                    assert(self@ == moved(e0, id, position));
                    let muts = vec![EntityDataMutation::UpdatePosition(position)];
                    assert(muts@ =~= seq![EntityDataMutation::UpdatePosition(position)]);
                    let news = vec![EntityThreadNews::UpdateEntityData(muts)];
                    Some(news)
                }
            },
        }
    }

    /// Resolves the events of one tick in order. A move onto a position where an
    /// entity stands fails, and its entity gets `LastTickEventFailed`; any other
    /// move is made, and its entity gets its new position. Idle events change nothing.
    pub fn apply_tick_events(&mut self, all_events: Vec<(EntityId, TickEvent)>) -> (r: Vec<
        (EntityId, Vec<EntityThreadNews>),
    >)
        requires
            tick_defined(old(self)@, all_events@),
        ensures
            final(self)@ == tick_results(old(self)@, all_events@).0,
            r@.len() == tick_results(old(self)@, all_events@).1.len(),
            forall|i: int| 0 <= i < r@.len() ==> news_is(#[trigger] r@[i], tick_results(old(self)@, all_events@).1[i]),
    {
        let mut output: Vec<(EntityId, Vec<EntityThreadNews>)> = Vec::new();
        let ghost ents0 = self@;
        let mut k: usize = 0;
        while k < all_events.len()
            invariant
                k <= all_events@.len(),
                tick_defined(ents0, all_events@),
                (self@, output@.len()) == (tick_results(ents0, all_events@.take(k as int)).0, tick_results(
                    ents0,
                    all_events@.take(k as int),
                ).1.len()),
                forall|i: int|
                    0 <= i < output@.len() ==> news_is(
                        #[trigger] output@[i],
                        tick_results(ents0, all_events@.take(k as int)).1[i],
                    ),
            decreases all_events@.len() - k,
        {
            let ghost pre = all_events@.take(k as int);
            let ghost post = all_events@.take(k + 1);
            assert(post.drop_last() =~= pre);
            assert(post.last() == all_events@[k as int]);
            proof {
                lemma_tick_defined_prefix(ents0, all_events@, k + 1);
            }
            let ghost out0 = output@;
            let (id, event) = all_events[k];
            let res = self.apply_tick_event(id, event);
            match res {
                Some(news) => {
                    output.push((id, news));
                },
                None => {},
            }
            proof {
                let rs = tick_results(ents0, post).1;
                assert forall|i: int| 0 <= i < output@.len() implies news_is(#[trigger] output@[i], rs[i]) by {
                    if i < out0.len() {
                        assert(output@[i] == out0[i]);
                    }
                }
            }
            k = k + 1;
        }
        assert(all_events@.take(k as int) =~= all_events@);
        output
    }
}

/// A tick that is defined is defined on every prefix.
pub proof fn lemma_tick_defined_prefix(ents: Seq<LocalEntityData>, evs: Seq<(EntityId, TickEvent)>, n: int)
    requires
        tick_defined(ents, evs),
        0 <= n <= evs.len(),
    ensures
        tick_defined(ents, evs.take(n)),
    decreases evs.len() - n,
{
    if n < evs.len() {
        lemma_tick_defined_prefix(ents, evs, n + 1);
        assert(evs.take(n + 1).drop_last() =~= evs.take(n));
    } else {
        assert(evs.take(n) =~= evs);
    }
}

/// The entities that lie in the rectangle spanned by `a` and `b`, in order.
pub open spec fn entities_in_area(ents: Seq<LocalEntityData>, a: Position, b: Position) -> Seq<LocalEntityData> {
    ents.filter(|e: LocalEntityData| in_area(e, a, b))
}

impl EnvironmentState {
    /// The entities that lie in the rectangle with corners `pos1` and `pos2`,
    /// edges included, in any order of the corners.
    pub fn get_entities_by_area(&self, pos1: Position, pos2: Position) -> (r: Vec<LocalEntityData>)
        ensures
            r@ == entities_in_area(self@, pos1, pos2),
    {
        let mut pos1 = pos1;
        let mut pos2 = pos2;
        let ghost a = pos1;
        let ghost b = pos2;
        if pos1.x > pos2.x {
            let swp = pos1.x;
            pos1.x = pos2.x;
            pos2.x = swp;
        }
        if pos1.y > pos2.y {
            let swp = pos1.y;
            pos1.y = pos2.y;
            pos2.y = swp;
        }
        let mut result: Vec<LocalEntityData> = Vec::new();
        let mut i: usize = 0;
        while i < self.entities.len()
            invariant
                i <= self.entities@.len(),
                pos1.x <= pos2.x,
                pos1.y <= pos2.y,
                forall|e: LocalEntityData|
                    in_area(e, a, b) <==> (pos1.x <= e.pos.x <= pos2.x && pos1.y <= e.pos.y <= pos2.y),
                result@ == self.entities@.take(i as int).filter(|e: LocalEntityData| in_area(e, a, b)),
            decreases self.entities@.len() - i,
        {
            let tent = self.entities[i];
            proof {
                reveal_with_fuel(Seq::<LocalEntityData>::filter, 1);
                assert(self.entities@.take(i + 1).drop_last() =~= self.entities@.take(i as int));
            }
            if pos1.x <= tent.pos.x && pos2.x >= tent.pos.x && pos1.y <= tent.pos.y && pos2.y >= tent.pos.y {
                result.push(tent);
            }
            i = i + 1;
        }
        assert(self.entities@.take(i as int) =~= self.entities@);
        result
    }
}

/// Which corners span the rectangle does not matter: the same entities lie in
/// it, in the same order.
pub proof fn lemma_area_corners(ents: Seq<LocalEntityData>, a: Position, b: Position)
    ensures
        entities_in_area(ents, a, b) == entities_in_area(ents, b, a),
        entities_in_area(ents, a, b) == entities_in_area(ents, Position { x: a.x, y: b.y }, Position { x: b.x, y: a.y }),
{
    let c = Position { x: a.x, y: b.y };
    let d = Position { x: b.x, y: a.y };
    assert((|e: LocalEntityData| in_area(e, a, b)) =~= (|e: LocalEntityData| in_area(e, b, a)));
    assert((|e: LocalEntityData| in_area(e, a, b)) =~= (|e: LocalEntityData| in_area(e, c, d)));
}

/// The entity that comes first with a given id is well defined where the id is registered.
pub proof fn lemma_first_with_id(ents: Seq<LocalEntityData>, id: EntityId)
    requires
        registered(ents, id),
    ensures
        0 <= first_with_id(ents, id) < ents.len(),
        ents[first_with_id(ents, id)].id == id,
        forall|j: int| 0 <= j < first_with_id(ents, id) ==> ents[j].id != id,
{
    let k = choose|k: int| 0 <= k < ents.len() && ents[k].id == id;
    lemma_min_index_below(ents, id, k);
}

proof fn lemma_min_index_below(ents: Seq<LocalEntityData>, id: EntityId, k: int)
    requires
        0 <= k < ents.len(),
        ents[k].id == id,
    ensures
        exists|i: int| 0 <= i <= k && ents[i].id == id && forall|j: int| 0 <= j < i ==> ents[j].id != id,
    decreases k,
{
    if exists|j: int| 0 <= j < k && ents[j].id == id {
        let j = choose|j: int| 0 <= j < k && ents[j].id == id;
        lemma_min_index_below(ents, id, j);
    } else {
        assert(forall|j: int| 0 <= j < k ==> ents[j].id != id);
    }
}

/// No two entities stand at the same position.
pub open spec fn positions_distinct(ents: Seq<LocalEntityData>) -> bool {
    forall|i: int, j: int| 0 <= i < ents.len() && 0 <= j < ents.len() && i != j ==> ents[i].pos != ents[j].pos
}

/// A tick neither adds nor removes entities nor changes their ids, and where no
/// two entities stood at the same position before it, none do after it.
pub proof fn lemma_tick_keeps_entities_apart(ents: Seq<LocalEntityData>, evs: Seq<(EntityId, TickEvent)>)
    requires
        tick_defined(ents, evs),
    ensures
        tick_results(ents, evs).0.len() == ents.len(),
        forall|i: int| 0 <= i < ents.len() ==> #[trigger] tick_results(ents, evs).0[i].id == ents[i].id,
        positions_distinct(ents) ==> positions_distinct(tick_results(ents, evs).0),
    decreases evs.len(),
{
    if evs.len() > 0 {
        lemma_tick_keeps_entities_apart(ents, evs.drop_last());
        let e = tick_results(ents, evs.drop_last()).0;
        let ev = evs.last();
        if let TickEvent::Move(p) = ev.1 {
            if !occupied(e, p) {
                lemma_first_with_id(e, ev.0);
                let f = first_with_id(e, ev.0);
                let e2 = moved(e, ev.0, p);
                assert forall|i: int| 0 <= i < ents.len() implies #[trigger] e2[i].id == ents[i].id by {
                    assert(e[i].id == ents[i].id);
                }
                if positions_distinct(ents) {
                    assert forall|i: int, j: int|
                        0 <= i < e2.len() && 0 <= j < e2.len() && i != j implies e2[i].pos != e2[j].pos by {
                        if i == f {
                            assert(e[j].pos != p);
                        } else if j == f {
                            assert(e[i].pos != p);
                        }
                    }
                }
            }
        }
    }
}


/// Events whose moves all come from registered entities can always be
/// resolved: moves never change which entities there are.
pub proof fn lemma_registered_events_defined(ents: Seq<LocalEntityData>, evs: Seq<(EntityId, TickEvent)>)
    requires
        forall|i: int| 0 <= i < evs.len() && (#[trigger] evs[i]).1 is Move ==> registered(ents, evs[i].0),
    ensures
        tick_defined(ents, evs),
    decreases evs.len(),
{
    if evs.len() > 0 {
        let init = evs.drop_last();
        assert forall|i: int| 0 <= i < init.len() && (#[trigger] init[i]).1 is Move implies registered(ents, init[i].0) by {
            assert(init[i] == evs[i]);
        }
        lemma_registered_events_defined(ents, init);
        lemma_tick_keeps_entities_apart(ents, init);
        let e = tick_results(ents, init).0;
        let id = evs.last().0;
        if evs.last().1 is Move {
            assert(evs[evs.len() - 1] == evs.last());
            assert(registered(ents, evs[evs.len() - 1].0));
            let i = choose|i: int| 0 <= i < ents.len() && ents[i].id == id;
            assert(e[i].id == ents[i].id);
            assert(registered(e, id));
        }
    }
}

impl EnvironmentState {
    /// Whether every move comes from a registered entity; such events can be
    /// resolved by `apply_tick_events` (an idle event needs no entity).
    pub fn events_registered(&self, events: &Vec<(EntityId, TickEvent)>) -> (r: bool)
        ensures
            r == forall|i: int| 0 <= i < events@.len() && (#[trigger] events@[i]).1 is Move ==> registered(self@, events@[i].0),
            r ==> tick_defined(self@, events@),
    {
        let mut i: usize = 0;
        while i < events.len()
            invariant
                i <= events@.len(),
                forall|j: int| 0 <= j < i && (#[trigger] events@[j]).1 is Move ==> registered(self@, events@[j].0),
            decreases events@.len() - i,
        {
            let is_move = match events[i].1 {
                TickEvent::Move(_) => true,
                TickEvent::Idle => false,
            };
            if is_move && self.find_entity(events[i].0).is_none() {
                return false;
            }
            i = i + 1;
        }
        proof {
            lemma_registered_events_defined(self@, events@);
        }
        true
    }
}

/// Collects the answers of the entities to one tick: an entity answers once;
/// on a time-out the entities that did not answer count as idle.
pub struct TickCollector {
    pending: Vec<EntityId>,
    events: Vec<(EntityId, TickEvent)>,
}

impl TickCollector {
    /// The entities that have not answered yet.
    pub closed spec fn pending(&self) -> Seq<EntityId> {
        self.pending@
    }

    /// The answers so far, in the order they came.
    pub closed spec fn events(&self) -> Seq<(EntityId, TickEvent)> {
        self.events@
    }

    /// A collector that waits for every entity of the environment, in order.
    pub fn new(state: &EnvironmentState) -> (r: Self)
        ensures
            r.pending() == state@.map_values(|e: LocalEntityData| e.id),
            r.events() == Seq::<(EntityId, TickEvent)>::empty(),
    {
        let mut pending: Vec<EntityId> = Vec::new();
        let mut i: usize = 0;
        while i < state.entities.len()
            invariant
                i <= state.entities@.len(),
                pending@ == state.entities@.take(i as int).map_values(|e: LocalEntityData| e.id),
            decreases state.entities@.len() - i,
        {
            pending.push(state.entities[i].id);
            assert(state.entities@.take(i + 1).map_values(|e: LocalEntityData| e.id) =~= pending@);
            i = i + 1;
        }
        assert(state.entities@.take(i as int) =~= state@);
        let r = TickCollector { pending: pending, events: Vec::new() };
        assert(r.events() =~= Seq::<(EntityId, TickEvent)>::empty());
        r
    }

    /// Whether every entity has answered.
    pub fn is_done(&self) -> (r: bool)
        ensures
            r == (self.pending().len() == 0),
    {
        self.pending.len() == 0
    }

    /// Records the answer of entity `id`: it no longer is pending.
    pub fn receive(&mut self, id: EntityId, event: TickEvent)
        ensures
            final(self).pending() == old(self).pending().filter(|t: EntityId| t != id),
            final(self).events() == old(self).events().push((id, event)),
    {
        let mut rest: Vec<EntityId> = Vec::new();
        let mut i: usize = 0;
        while i < self.pending.len()
            invariant
                i <= self.pending@.len(),
                self.pending@ == old(self).pending@,
                rest@ == self.pending@.take(i as int).filter(|t: EntityId| t != id),
            decreases self.pending@.len() - i,
        {
            let t = self.pending[i];
            proof {
                reveal_with_fuel(Seq::<EntityId>::filter, 1);
                assert(self.pending@.take(i + 1).drop_last() =~= self.pending@.take(i as int));
            }
            if !(id == t) {
                rest.push(t);
            }
            i = i + 1;
        }
        assert(self.pending@.take(i as int) =~= self.pending@);
        self.pending = rest;
        self.events.push((id, event));
    }

    /// Gives up waiting: every pending entity counts as idle.
    pub fn time_out(&mut self)
        ensures
            final(self).pending() == Seq::<EntityId>::empty(),
            final(self).events() == old(self).events() + old(self).pending().map_values(
                |id: EntityId| (id, TickEvent::Idle),
            ),
    {
        let mut i: usize = 0;
        while i < self.pending.len()
            invariant
                i <= self.pending@.len(),
                self.pending@ == old(self).pending@,
                self.events@ == old(self).events@ + self.pending@.take(i as int).map_values(
                    |id: EntityId| (id, TickEvent::Idle),
                ),
            decreases self.pending@.len() - i,
        {
            let id = self.pending[i];
            self.events.push((id, TickEvent::Idle));
            assert(self.events@ =~= old(self).events@ + self.pending@.take(i + 1).map_values(
                |id: EntityId| (id, TickEvent::Idle),
            ));
            i = i + 1;
        }
        assert(self.pending@.take(i as int) =~= self.pending@);
        self.pending = Vec::new();
    }

    /// The answers collected, in the order they came.
    pub fn into_events(self) -> (r: Vec<(EntityId, TickEvent)>)
        ensures
            r@ == self.events(),
    {
        self.events
    }
}

} // verus!
