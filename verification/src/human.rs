//! The behaviour of a human entity: a stack of states, where the bottom state
//! is idling and exploring is pushed on top of it.
use vstd::prelude::*;
use rand::Rng;
use crate::structs::{Position, EntityData, can_shift, rel_spec};
use crate::mapmemory::{MapMemory, RoutingInstructions, route_reaches, next_toward};

verus! {

/// A stack that always holds at least one state: the bottom one is never popped.
pub struct StateStack<T> {
    stack: Vec<T>,
}

/// The stack after a pop: the top state goes, unless it is the only one.
pub open spec fn stack_pop<T>(s: Seq<T>) -> (Seq<T>, Option<T>) {
    if s.len() >= 2 {
        (s.drop_last(), Some(s.last()))
    } else {
        (s, None)
    }
}

impl<T> StateStack<T> {
    /// The stack holds at least one state.
    pub closed spec fn wf(&self) -> bool {
        self.stack@.len() >= 1
    }

    /// A well-formed stack is never empty.
    pub proof fn lemma_wf_nonempty(&self)
        requires
            self.wf(),
        ensures
            self@.len() >= 1,
    {
    }

    /// The states, bottom first.
    pub closed spec fn view(&self) -> Seq<T> {
        self.stack@
    }

    /// A stack holding `init` alone.
    pub fn new(init: T) -> (r: Self)
        ensures
            r.wf(),
            r@ == seq![init],
    {
        let mut stack = Vec::new();
        stack.push(init);
        assert(stack@ =~= seq![init]);
        StateStack { stack: stack }
    }

    /// Puts `new` on top.
    pub fn push(&mut self, new: T)
        requires
            old(self).wf(),
        ensures
            final(self).wf(),
            final(self)@ == old(self)@.push(new),
            final(self)@.len() >= 2,
            final(self)@[0] == old(self)@[0],
    {
        self.stack.push(new);
    }

    /// Takes the top state off, unless it is the only one.
    pub fn pop(&mut self) -> (r: Option<T>)
        requires
            old(self).wf(),
        ensures
            final(self).wf(),
            (final(self)@, r) == stack_pop(old(self)@),
            final(self)@.len() >= 1,
            final(self)@[0] == old(self)@[0],
    {
        if self.stack.len() >= 2 {
            self.stack.pop()
        } else {
            None
        }
    }

    /// Replaces the top state; returns the one replaced.
    pub fn replace_current(&mut self, new: T) -> (r: T)
        requires
            old(self).wf(),
        ensures
            final(self).wf(),
            r == old(self)@.last(),
            final(self)@ == old(self)@.drop_last().push(new),
    {
        let mut stack = Vec::new();
        std::mem::swap(&mut stack, &mut self.stack);
        let ret = stack.pop().unwrap();
        stack.push(new);
        self.stack = stack;
        ret
    }

    /// Replaces the bottom state; returns the one replaced.
    pub fn replace_first(&mut self, new: T) -> (r: T)
        requires
            old(self).wf(),
        ensures
            final(self).wf(),
            r == old(self)@[0],
            final(self)@ == old(self)@.update(0, new),
    {
        let mut stack = Vec::new();
        std::mem::swap(&mut stack, &mut self.stack);
        let ret = stack.remove(0);
        stack.insert(0, new);
        assert(stack@ =~= old(self)@.update(0, new));
        self.stack = stack;
        ret
    }

    /// The top state, for change in place.
    pub fn get_current(&mut self) -> (r: &mut T)
        requires
            old(self).wf(),
        ensures
            final(self).wf(),
            *r == old(self)@.last(),
            final(self)@ == old(self)@.update(old(self)@.len() - 1, *final(r)),
    {
        let len = self.stack.len() - 1;
        &mut self.stack[len]
    }
}


/// Popping right after a push gives back the state pushed and the stack as it was.
pub proof fn lemma_pop_undoes_push<T>(s: Seq<T>, x: T)
    requires
        s.len() >= 1,
    ensures
        stack_pop(s.push(x)) == (s, Some(x)),
{
    assert(s.push(x).drop_last() =~= s);
}

/// However many times a stack is popped, it keeps its bottom state and is never empty.
pub proof fn lemma_pops_keep_bottom<T>(s: Seq<T>, k: nat)
    requires
        s.len() >= 1,
    ensures
        pop_times(s, k).len() >= 1,
        pop_times(s, k)[0] == s[0],
    decreases k,
{
    if k > 0 {
        lemma_pops_keep_bottom(stack_pop(s).0, (k - 1) as nat);
    }
}

/// The stack after `k` pops.
pub open spec fn pop_times<T>(s: Seq<T>, k: nat) -> Seq<T>
    decreases k,
{
    if k == 0 {
        s
    } else {
        pop_times(stack_pop(s).0, (k - 1) as nat)
    }
}

} // verus!

verus! {

/// Draws a number in `low..high` from the thread's random generator.
///
/// Calls `rand::Rng::gen_range` on `rand::thread_rng()`; its documentation
/// promises a value in the half-open range, and a panic only for an empty range.
#[verifier::external_body]
fn sample_offset(low: i64, high: i64) -> (r: i64)
    requires
        low < high,
    ensures
        low <= r < high,
{
    rand::thread_rng().gen_range(low..high)
}

/// What a human is doing.
#[derive(Debug)]
pub enum HumanState {
    Idle,
    Explore(Position, RoutingInstructions),
}

/// What a human asks its environment for after a tick.
#[derive(Debug, Clone, Copy, PartialEq, Eq, Structural)]
pub enum HumanAction {
    /// Plan a route from `origin` to `target`, then hand it to `start_explore`.
    PlanRoute { origin: Position, target: Position },
    /// Move to the position.
    Move(Position),
    /// Nothing to do this tick.
    Wait,
}

/// Whether a human in state `s` can take a tick at `pos`: an idle one needs
/// room around `pos` for its random target, an exploring one needs a route
/// that leads back to `pos`.
pub open spec fn tick_ok(s: HumanState, pos: Position) -> bool {
    match s {
        HumanState::Idle => can_shift(pos, -10, -10) && can_shift(pos, 9, 9),
        HumanState::Explore(_, ri) => route_reaches(ri.instructions@, ri.target, pos),
    }
}

/// A human entity: its states and its memory of the map.
pub struct Human {
    state: StateStack<HumanState>,
    map: MapMemory,
}

impl Human {
    /// The states, bottom first.
    pub closed spec fn states(&self) -> Seq<HumanState> {
        self.state@
    }

    /// What the human knows of the map.
    pub closed spec fn memory(&self) -> MapMemory {
        self.map
    }

    pub closed spec fn wf(&self) -> bool {
        self.state.wf() && self.map.wf()
    }

    /// An idle human that knows nothing of the map.
    pub fn new() -> (r: Self)
        ensures
            r.wf(),
            r.states() == seq![HumanState::Idle],
            r.memory().cells() == Map::<crate::structs::Position, crate::structs::Cell>::empty(),
            r.memory().latest() == Seq::<(crate::structs::Position, crate::structs::Cell)>::empty(),
    {
        Human { state: StateStack::new(HumanState::Idle), map: MapMemory::new() }
    }

    /// Whether the human can take a tick at `pos` (see `tick_ok`).
    pub fn can_tick(&mut self, pos: Position) -> (r: bool)
        requires
            old(self).wf(),
        ensures
            final(self).wf(),
            final(self).states() == old(self).states(),
            final(self).memory() == old(self).memory(),
            r == tick_ok(old(self).states().last(), pos),
    {
        let cur = self.state.get_current();
        match cur {
            HumanState::Idle => {
                i64::MIN + 10 <= pos.x && pos.x <= i64::MAX - 9 && i64::MIN + 10 <= pos.y && pos.y <= i64::MAX - 9
            },
            HumanState::Explore(_, ri) => ri.reaches(pos),
        }
    }

    /// One tick of the human at the position of `data`. An idle human picks a
    /// random target less than ten steps away on each axis and asks for a route
    /// to it; an exploring human asks to move one step along its route, and goes
    /// back to its former state once it stands at the end of the route.
    pub fn tick(&mut self, data: &EntityData) -> (r: HumanAction)
        requires
            old(self).wf(),
            tick_ok(old(self).states().last(), data.pos),
        ensures
            final(self).wf(),
            final(self).memory() == old(self).memory(),
            match old(self).states().last() {
                HumanState::Idle => final(self).states() == old(self).states() && (r matches HumanAction::PlanRoute {
                    origin,
                    target,
                } && origin == data.pos && -10 <= target.x - data.pos.x < 10 && -10 <= target.y - data.pos.y
                    < 10),
                HumanState::Explore(_, ri) => match next_toward(ri.instructions@, ri.target, data.pos) {
                    None => r == HumanAction::Wait && final(self).states() == stack_pop(old(self).states()).0,
                    Some(n) => r == HumanAction::Move(n) && final(self).states() == old(self).states(),
                },
            },
    {
        let cur = self.state.get_current();
        let next = match cur {
            HumanState::Idle => {
                let dx = sample_offset(-10, 10);
                let dy = sample_offset(-10, 10);
                let target_pos = data.pos.rel(dx, dy);
                return HumanAction::PlanRoute { origin: data.pos, target: target_pos };
            },
            HumanState::Explore(_, routing_instructions) => routing_instructions.get_next(data.pos),
        };
        match next {
            None => {
                self.state.pop();
                HumanAction::Wait
            },
            Some(n) => HumanAction::Move(n),
        }
    }

    /// Starts exploring toward `target` along `route`.
    pub fn start_explore(&mut self, target: Position, route: RoutingInstructions)
        requires
            old(self).wf(),
        ensures
            final(self).wf(),
            final(self).memory() == old(self).memory(),
            final(self).states() == old(self).states().push(HumanState::Explore(target, route)),
    {
        self.state.push(HumanState::Explore(target, route));
    }

    /// The human's memory of the map, for change in place.
    pub fn get_memory(&mut self) -> (r: &mut MapMemory)
        requires
            old(self).wf(),
        ensures
            *r == old(self).memory(),
            final(self).states() == old(self).states(),
            final(self).memory() == *final(r),
            final(r).wf() ==> final(self).wf(),
    {
        &mut self.map
    }
}

} // verus!
