//! What an entity remembers of the map, and how it follows a planned route.
use vstd::prelude::*;
use crate::structs::{Position, Cell, has_all_neighbors, neighbors_spec};
use crate::usage::{distinct_keys, pairs_to_map, lemma_pairs_to_map_index, lemma_pairs_to_map_update, lemma_pairs_to_map_push};
use crate::entity_thread::EntityThreadArea;
use crate::storage_thread::{area_positions, area_row, lemma_area_len};

verus! {

/// The map after the pairs are written in order, later pairs overwriting earlier ones.
pub open spec fn push_all(m: Map<Position, Cell>, s: Seq<(Position, Cell)>) -> Map<Position, Cell>
    decreases s.len(),
{
    if s.len() == 0 {
        m
    } else {
        push_all(m, s.drop_last()).insert(s.last().0, s.last().1)
    }
}

/// The cell that the last pair for `p` in `s` carries, if any.
pub open spec fn last_for(s: Seq<(Position, Cell)>, p: Position) -> Option<Cell>
    decreases s.len(),
{
    if s.len() == 0 {
        None
    } else if s.last().0 == p {
        Some(s.last().1)
    } else {
        last_for(s.drop_last(), p)
    }
}

/// After a push, a position holds the cell of its last pair in the push, or,
/// without one, what it held before.
pub proof fn lemma_push_all_latest(m: Map<Position, Cell>, s: Seq<(Position, Cell)>, p: Position)
    ensures
        push_all(m, s).dom().contains(p) == (last_for(s, p) is Some || m.dom().contains(p)),
        last_for(s, p) matches Some(c) ==> push_all(m, s)[p] == c,
        last_for(s, p) is None && m.dom().contains(p) ==> push_all(m, s)[p] == m[p],
    decreases s.len(),
{
    if s.len() > 0 {
        lemma_push_all_latest(m, s.drop_last(), p);
    }
}

/// The cells seen so far, by position.
pub struct MapGrid {
    data: Vec<(Position, Cell)>,
}

impl MapGrid {
    /// The cells by position.
    pub closed spec fn view(&self) -> Map<Position, Cell> {
        pairs_to_map(self.data@)
    }

    /// No position is stored twice.
    pub closed spec fn wf(&self) -> bool {
        distinct_keys(self.data@)
    }

    /// A grid with no cell.
    pub fn new() -> (r: Self)
        ensures
            r.wf(),
            r@ == Map::<Position, Cell>::empty(),
    {
        let r = MapGrid { data: Vec::new() };
        assert(r@ =~= Map::<Position, Cell>::empty());
        r
    }

    fn find(&self, pos: &Position) -> (r: Option<usize>)
        requires
            self.wf(),
        ensures
            r is None <==> !self@.dom().contains(*pos),
            r matches Some(i) ==> i < self.data@.len() && self.data@[i as int].0 == *pos,
    {
        let mut i: usize = 0;
        while i < self.data.len()
            invariant
                i <= self.data@.len(),
                forall|j: int| 0 <= j < i ==> self.data@[j].0 != *pos,
            decreases self.data@.len() - i,
        {
            if self.data[i].0 == *pos {
                return Some(i);
            }
            i = i + 1;
        }
        proof {
            if self@.dom().contains(*pos) {
                let j = choose|j: int| 0 <= j < self.data@.len() && self.data@[j].0 == *pos;
                assert(self.data@[j].0 != *pos);
            }
        }
        None
    }

    /// The cell seen at `pos`, if any.
    pub fn get_cell(&mut self, pos: &Position) -> (r: Option<Cell>)
        requires
            old(self).wf(),
        ensures
            *final(self) == *old(self),
            r == (if old(self)@.dom().contains(*pos) {
                Some(old(self)@[*pos])
            } else {
                None
            }),
    {
        match self.find(pos) {
            Some(i) => {
                proof {
                    lemma_pairs_to_map_index(self.data@, i as int);
                }
                Some(self.data[i].1)
            },
            None => None,
        }
    }

    /// Records the cells, later ones overwriting earlier ones at the same position.
    pub fn push(&mut self, data: Vec<(Position, Cell)>)
        requires
            old(self).wf(),
        ensures
            final(self).wf(),
            final(self)@ == push_all(old(self)@, data@),
    {
        let mut k: usize = 0;
        while k < data.len()
            invariant
                k <= data@.len(),
                self.wf(),
                self@ == push_all(old(self)@, data@.take(k as int)),
            decreases data@.len() - k,
        {
            let (pos, cell) = data[k];
            assert(data@.take(k + 1).drop_last() =~= data@.take(k as int));
            match self.find(&pos) {
                Some(i) => {
                    proof {
                        lemma_pairs_to_map_index(self.data@, i as int);
                        lemma_pairs_to_map_update(self.data@, i as int, cell);
                    }
                    self.data.set(i, (pos, cell));
                },
                None => {
                    proof {
                        lemma_pairs_to_map_push(self.data@, pos, cell);
                    }
                    self.data.push((pos, cell));
                },
            }
            k = k + 1;
        }
        assert(data@.take(k as int) =~= data@);
    }
}

/// What a memory answers for one position: nothing where no cell is known; else
/// the cell, marked as remembered unless the latest push held its position.
pub open spec fn area_entry(m: Map<Position, Cell>, latest: Seq<(Position, Cell)>, p: Position) -> Option<
    EntityThreadArea,
> {
    if m.dom().contains(p) {
        Some(
            EntityThreadArea {
                pos: p,
                cell: m[p],
                is_from_memory: !(exists|i: int| 0 <= i < latest.len() && latest[i].0 == p),
            },
        )
    } else {
        None
    }
}

/// What a memory answers for the positions, in order.
pub open spec fn area_entries(m: Map<Position, Cell>, latest: Seq<(Position, Cell)>, ps: Seq<Position>) -> Seq<
    EntityThreadArea,
>
    decreases ps.len(),
{
    if ps.len() == 0 {
        Seq::empty()
    } else {
        let r = area_entries(m, latest, ps.drop_last());
        match area_entry(m, latest, ps.last()) {
            Some(a) => r.push(a),
            None => r,
        }
    }
}

/// What an entity knows of the map: every cell it was told of, and which
/// cells it was told of last.
pub struct MapMemory {
    grid: MapGrid,
    latest_push: Vec<(Position, Cell)>,
}

impl MapMemory {
    /// The known cells by position.
    pub closed spec fn cells(&self) -> Map<Position, Cell> {
        self.grid@
    }

    /// The cells of the latest push, in order.
    pub closed spec fn latest(&self) -> Seq<(Position, Cell)> {
        self.latest_push@
    }

    pub closed spec fn wf(&self) -> bool {
        self.grid.wf()
    }

    /// A memory that knows no cell.
    pub fn new() -> (r: Self)
        ensures
            r.wf(),
            r.cells() == Map::<Position, Cell>::empty(),
            r.latest() == Seq::<(Position, Cell)>::empty(),
    {
        MapMemory { grid: MapGrid::new(), latest_push: Vec::new() }
    }

    /// Learns the cells; they become the latest push.
    pub fn push(&mut self, data: Vec<(Position, Cell)>)
        requires
            old(self).wf(),
        ensures
            final(self).wf(),
            final(self).cells() == push_all(old(self).cells(), data@),
            final(self).latest() == data@,
    {
        let mut copy: Vec<(Position, Cell)> = Vec::new();
        let mut k: usize = 0;
        while k < data.len()
            invariant
                k <= data@.len(),
                copy@ == data@.take(k as int),
            decreases data@.len() - k,
        {
            copy.push(data[k]);
            assert(copy@ =~= data@.take(k + 1));
            k = k + 1;
        }
        assert(copy@ =~= data@);
        self.latest_push = copy;
        self.grid.push(data);
    }

    /// Whether a cell of the latest push lies at `pos`.
    fn in_latest_push(&self, pos: &Position) -> (r: bool)
        ensures
            r == exists|i: int| 0 <= i < self.latest().len() && self.latest()[i].0 == *pos,
    {
        let mut i: usize = 0;
        while i < self.latest_push.len()
            invariant
                i <= self.latest_push@.len(),
                forall|j: int| 0 <= j < i ==> self.latest_push@[j].0 != *pos,
            decreases self.latest_push@.len() - i,
        {
            if self.latest_push[i].0 == *pos {
                assert(self.latest()[i as int].0 == *pos);
                return true;
            }
            i = i + 1;
        }
        false
    }

    /// The known cells of the area from `pos_1` up to, not including, `pos_2`,
    /// row after row, each marked as remembered unless the latest push held it.
    pub fn get_area(&mut self, pos_1: Position, pos_2: Position) -> (r: Vec<EntityThreadArea>)
        requires
            old(self).wf(),
            i64::MIN <= pos_2.x - pos_1.x <= i64::MAX,
            i64::MIN <= pos_2.y - pos_1.y <= i64::MAX,
            0 <= (pos_2.x - pos_1.x) * (pos_2.y - pos_1.y) <= i64::MAX,
        ensures
            *final(self) == *old(self),
            r@ == area_entries(
                old(self).cells(),
                old(self).latest(),
                area_positions(pos_1.x as int, pos_2.x as int, pos_1.y as int, pos_2.y as int),
            ),
    {
        let size = ((pos_2.x - pos_1.x) * (pos_2.y - pos_1.y)) as usize;
        let mut ret: Vec<EntityThreadArea> = Vec::with_capacity(size);
        let ghost m = self.cells();
        let ghost latest = self.latest();
        let mut t_x = pos_1.x;
        while t_x < pos_2.x
            invariant
                pos_1.x <= t_x,
                pos_1.x < pos_2.x ==> t_x <= pos_2.x,
                pos_2.x <= pos_1.x ==> t_x == pos_1.x,
                self.wf(),
                *self == *old(self),
                m == self.cells(),
                latest == self.latest(),
                ret@ == area_entries(m, latest, area_positions(pos_1.x as int, t_x as int, pos_1.y as int, pos_2.y as int)),
            decreases pos_2.x - t_x,
        {
            let ghost rows_done = area_positions(pos_1.x as int, t_x as int, pos_1.y as int, pos_2.y as int);
            let mut t_y = pos_1.y;
            while t_y < pos_2.y
                invariant
                    pos_1.x <= t_x < pos_2.x,
                    pos_1.y <= t_y,
                    pos_1.y < pos_2.y ==> t_y <= pos_2.y,
                    pos_2.y <= pos_1.y ==> t_y == pos_1.y,
                    self.wf(),
                    *self == *old(self),
                    m == self.cells(),
                    latest == self.latest(),
                    rows_done == area_positions(pos_1.x as int, t_x as int, pos_1.y as int, pos_2.y as int),
                    ret@ == area_entries(m, latest, rows_done + area_row(t_x as int, pos_1.y as int, t_y as int)),
                decreases pos_2.y - t_y,
            {
                let tpos = Position { x: t_x, y: t_y };
                let ghost done = rows_done + area_row(t_x as int, pos_1.y as int, t_y as int);
                let ghost done2 = rows_done + area_row(t_x as int, pos_1.y as int, t_y + 1);
                assert(done2 =~= done.push(tpos));
                assert(done2.drop_last() =~= done);
                if let Some(cell) = self.grid.get_cell(&tpos) {
                    let from_memory = !self.in_latest_push(&tpos);
                    ret.push(EntityThreadArea { pos: tpos, cell: cell, is_from_memory: from_memory });
                }
                t_y = t_y + 1;
            }
            assert(area_row(t_x as int, pos_1.y as int, t_y as int) =~= area_row(t_x as int, pos_1.y as int, pos_2.y as int));
            t_x = t_x + 1;
        }
        ret
    }
}

/// The cost the route gives position `p`: that of the first entry for `p`.
pub open spec fn route_cost(instr: Seq<(Position, usize)>, p: Position) -> Option<usize>
    decreases instr.len(),
{
    if instr.len() == 0 {
        None
    } else if instr[0].0 == p {
        Some(instr[0].1)
    } else {
        route_cost(instr.drop_first(), p)
    }
}

/// The cost of `p`, zero where the route does not know it.
pub open spec fn cost_or_zero(instr: Seq<(Position, usize)>, p: Position) -> int {
    match route_cost(instr, p) {
        Some(c) => c as int,
        None => 0,
    }
}

/// Scanning the neighbours in order, the last one seen so far whose known cost
/// is below the best cost so far replaces the best position.
pub open spec fn scan(instr: Seq<(Position, usize)>, ns: Seq<(Position, usize)>, best: Position, cost: int) -> (
    Position,
    int,
)
    decreases ns.len(),
{
    if ns.len() == 0 {
        (best, cost)
    } else {
        let n = ns[0].0;
        match route_cost(instr, n) {
            Some(c) => if (c as int) < cost {
                scan(instr, ns.drop_first(), n, c as int)
            } else {
                scan(instr, ns.drop_first(), best, cost)
            },
            None => scan(instr, ns.drop_first(), best, cost),
        }
    }
}

/// One step back along the route from `p`: the neighbour with the lowest known
/// cost below that of `p`, or `p` itself where there is none.
pub open spec fn step_back(instr: Seq<(Position, usize)>, p: Position) -> Position {
    scan(instr, neighbors_spec(p), p, cost_or_zero(instr, p)).0
}

/// The position after `k` steps back from the target.
pub open spec fn walk(instr: Seq<(Position, usize)>, target: Position, k: nat) -> Position
    decreases k,
{
    if k == 0 {
        target
    } else {
        step_back(instr, walk(instr, target, (k - 1) as nat))
    }
}

/// Whether walking back from the target reaches `cur` after exactly `k` steps,
/// and not before, through positions whose neighbours all exist.
pub open spec fn hits_after(instr: Seq<(Position, usize)>, target: Position, cur: Position, k: nat) -> bool {
    &&& walk(instr, target, k) == cur
    &&& forall|j: nat| j < k ==> #[trigger] walk(instr, target, j) != cur && has_all_neighbors(walk(instr, target, j))
}

/// Whether walking back from the target reaches `cur`.
pub open spec fn route_reaches(instr: Seq<(Position, usize)>, target: Position, cur: Position) -> bool {
    exists|k: nat| hits_after(instr, target, cur, k)
}

/// The next position from `cur` toward the target: the one walked through just
/// before `cur`; `None` when `cur` is the target.
pub open spec fn next_toward(instr: Seq<(Position, usize)>, target: Position, cur: Position) -> Option<Position> {
    let k = choose|k: nat| hits_after(instr, target, cur, k);
    if k == 0 {
        None
    } else {
        Some(walk(instr, target, (k - 1) as nat))
    }
}

/// The scan never raises the cost; a new best position has a known cost equal to the result cost.
proof fn lemma_scan(instr: Seq<(Position, usize)>, ns: Seq<(Position, usize)>, best: Position, cost: int)
    ensures
        scan(instr, ns, best, cost).1 <= cost,
        scan(instr, ns, best, cost).0 == best ==> scan(instr, ns, best, cost).1 == cost || (route_cost(instr, best)
            == Some(scan(instr, ns, best, cost).1 as usize) && scan(instr, ns, best, cost).1 >= 0),
        scan(instr, ns, best, cost).0 != best ==> route_cost(instr, scan(instr, ns, best, cost).0) == Some(
            scan(instr, ns, best, cost).1 as usize,
        ) && scan(instr, ns, best, cost).1 < cost && scan(instr, ns, best, cost).1 >= 0,
    decreases ns.len(),
{
    if ns.len() > 0 {
        let n = ns[0].0;
        match route_cost(instr, n) {
            Some(c) => if (c as int) < cost {
                lemma_scan(instr, ns.drop_first(), n, c as int);
            } else {
                lemma_scan(instr, ns.drop_first(), best, cost);
            },
            None => lemma_scan(instr, ns.drop_first(), best, cost),
        }
    }
}

/// The scan ends on the position it started from or on one of the scanned ones.
proof fn lemma_scan_origin(instr: Seq<(Position, usize)>, ns: Seq<(Position, usize)>, best: Position, cost: int)
    ensures
        scan(instr, ns, best, cost).0 == best || exists|i: int|
            0 <= i < ns.len() && ns[i].0 == scan(instr, ns, best, cost).0,
    decreases ns.len(),
{
    if ns.len() > 0 {
        let n = ns[0].0;
        let rest = ns.drop_first();
        match route_cost(instr, n) {
            Some(c) => if (c as int) < cost {
                lemma_scan_origin(instr, rest, n, c as int);
                let r = scan(instr, rest, n, c as int).0;
                if r == n {
                    assert(ns[0].0 == r);
                } else {
                    let i = choose|i: int| 0 <= i < rest.len() && rest[i].0 == r;
                    assert(ns[i + 1].0 == r);
                }
            } else {
                lemma_scan_origin(instr, rest, best, cost);
                let r = scan(instr, rest, best, cost).0;
                if r != best {
                    let i = choose|i: int| 0 <= i < rest.len() && rest[i].0 == r;
                    assert(ns[i + 1].0 == r);
                }
            },
            None => {
                lemma_scan_origin(instr, rest, best, cost);
                let r = scan(instr, rest, best, cost).0;
                if r != best {
                    let i = choose|i: int| 0 <= i < rest.len() && rest[i].0 == r;
                    assert(ns[i + 1].0 == r);
                }
            },
        }
    }
}

/// The next step toward the target is always one of the eight positions
/// around the current one.
pub proof fn lemma_next_is_adjacent(instr: Seq<(Position, usize)>, target: Position, cur: Position)
    requires
        route_reaches(instr, target, cur),
    ensures
        next_toward(instr, target, cur) matches Some(n) ==> {
            &&& n != cur
            &&& -1 <= n.x - cur.x <= 1
            &&& -1 <= n.y - cur.y <= 1
        },
{
    let k = choose|k: nat| hits_after(instr, target, cur, k);
    if k > 0 {
        let n = walk(instr, target, (k - 1) as nat);
        assert(walk(instr, target, (k - 1) as nat) != cur && has_all_neighbors(walk(instr, target, (k - 1) as nat)));
        assert(walk(instr, target, k) == step_back(instr, n));
        lemma_scan_origin(instr, neighbors_spec(n), n, cost_or_zero(instr, n));
        let ns = neighbors_spec(n);
        let i = choose|i: int| 0 <= i < ns.len() && ns[i].0 == cur;
        assert(0 <= i < 8);
    }
}

/// A planned route: for positions, their cost from the start; the entity walks
/// toward the target.
#[derive(Debug, Clone)]
pub struct RoutingInstructions {
    pub instructions: Vec<(Position, usize)>,
    pub target: Position,
}

/// With no position given twice, the cost the route gives a position is the
/// one given with it.
pub proof fn lemma_route_cost_of_entry(instr: Seq<(Position, usize)>, i: int)
    requires
        distinct_keys(instr),
        0 <= i < instr.len(),
    ensures
        route_cost(instr, instr[i].0) == Some(instr[i].1),
    decreases i,
{
    if i > 0 {
        let rest = instr.drop_first();
        assert(instr[0].0 != instr[i].0);
        assert(rest[i - 1] == instr[i]);
        assert(distinct_keys(rest)) by {
            assert forall|a: int, b: int| 0 <= a < rest.len() && 0 <= b < rest.len() && a != b implies rest[a].0
                != rest[b].0 by {
                assert(rest[a] == instr[a + 1]);
                assert(rest[b] == instr[b + 1]);
            }
        }
        lemma_route_cost_of_entry(rest, i - 1);
    }
}

/// Whether no position occurs twice among `instructions`.
pub fn positions_distinct(instructions: &Vec<(Position, usize)>) -> (r: bool)
    ensures
        r == distinct_keys(instructions@),
{
    let mut i: usize = 0;
    while i < instructions.len()
        invariant
            i <= instructions@.len(),
            forall|a: int, b: int| 0 <= a < i && 0 <= b < instructions@.len() && a != b ==> instructions@[a].0
                != instructions@[b].0,
        decreases instructions@.len() - i,
    {
        let mut j: usize = 0;
        while j < instructions.len()
            invariant
                i < instructions@.len(),
                j <= instructions@.len(),
                forall|a: int, b: int| 0 <= a < i && 0 <= b < instructions@.len() && a != b ==> instructions@[a].0
                    != instructions@[b].0,
                forall|b: int| 0 <= b < j && b != i ==> instructions@[i as int].0 != instructions@[b].0,
            decreases instructions@.len() - j,
        {
            if j != i && instructions[i].0 == instructions[j].0 {
                return false;
            }
            j = j + 1;
        }
        i = i + 1;
    }
    true
}

impl RoutingInstructions {
    /// No position is given twice.
    pub open spec fn wf(&self) -> bool {
        distinct_keys(self.instructions@)
    }

    /// A route through `instructions`, which give each position at most once,
    /// toward `target`.
    pub fn new(instructions: Vec<(Position, usize)>, target: Position) -> (r: Self)
        requires
            distinct_keys(instructions@),
        ensures
            r.wf(),
            r.instructions@ == instructions@,
            r.target == target,
    {
        RoutingInstructions { instructions: instructions, target: target }
    }

    /// The cost of `p`, if the route knows it.
    fn cost_of(&self, p: &Position) -> (r: Option<usize>)
        ensures
            r == route_cost(self.instructions@, *p),
    {
        let mut i: usize = 0;
        assert(self.instructions@.skip(0) =~= self.instructions@);
        while i < self.instructions.len()
            invariant
                i <= self.instructions@.len(),
                route_cost(self.instructions@, *p) == route_cost(self.instructions@.skip(i as int), *p),
            decreases self.instructions@.len() - i,
        {
            assert(self.instructions@.skip(i as int).drop_first() =~= self.instructions@.skip(i + 1));
            if self.instructions[i].0 == *p {
                return Some(self.instructions[i].1);
            }
            i = i + 1;
        }
        None
    }

    /// One step back along the route from `end`.
    fn step_back(&self, end: Position) -> (r: Position)
        requires
            has_all_neighbors(end),
        ensures
            r == step_back(self.instructions@, end),
    {
        let mut end_cost: usize = match self.cost_of(&end) {
            Some(c) => c,
            None => 0,
        };
        let mut best = end;
        let ns = end.neighbors();
        let ghost all = ns@;
        let mut i: usize = 0;
        assert(ns@.skip(0) =~= ns@);
        while i < ns.len()
            invariant
                i <= ns@.len(),
                ns@ == all,
                all == neighbors_spec(end),
                scan(self.instructions@, all, end, cost_or_zero(self.instructions@, end)) == scan(
                    self.instructions@,
                    all.skip(i as int),
                    best,
                    end_cost as int,
                ),
            decreases ns@.len() - i,
        {
            let (t_end, _) = ns[i];
            assert(all.skip(i as int).drop_first() =~= all.skip(i + 1));
            match self.cost_of(&t_end) {
                Some(t_end_cost) => {
                    if t_end_cost < end_cost {
                        end_cost = t_end_cost;
                        best = t_end;
                    }
                },
                None => {},
            }
            i = i + 1;
        }
        assert(all.skip(i as int) =~= Seq::<(Position, usize)>::empty());
        best
    }

    /// Whether walking back from the target reaches `cur`; stops where a step
    /// finds no lower cost.
    pub fn reaches(&self, cur: Position) -> (r: bool)
        ensures
            r == route_reaches(self.instructions@, self.target, cur),
    {
        let mut end = self.target;
        let ghost mut k: nat = 0;
        while !(end == cur)
            invariant
                end == walk(self.instructions@, self.target, k),
                forall|j: nat| j < k ==> #[trigger] walk(self.instructions@, self.target, j) != cur && has_all_neighbors(
                    walk(self.instructions@, self.target, j),
                ),
                k > 0 ==> route_cost(self.instructions@, end) is Some,
            decreases cost_or_zero(self.instructions@, end),
        {
            if !(i64::MIN < end.x && end.x < i64::MAX && i64::MIN < end.y && end.y < i64::MAX) {
                proof {
                    assert forall|k2: nat| !hits_after(self.instructions@, self.target, cur, k2) by {
                        if hits_after(self.instructions@, self.target, cur, k2) {
                            if k2 > k {
                                assert(has_all_neighbors(walk(self.instructions@, self.target, k)));
                            } else if k2 < k {
                                assert(walk(self.instructions@, self.target, k2) != cur);
                            }
                        }
                    }
                }
                return false;
            }
            let next = self.step_back(end);
            proof {
                lemma_scan(self.instructions@, neighbors_spec(end), end, cost_or_zero(self.instructions@, end));
            }
            if next == end {
                proof {
                    lemma_walk_stuck(self.instructions@, self.target, k);
                    assert forall|k2: nat| !hits_after(self.instructions@, self.target, cur, k2) by {
                        if hits_after(self.instructions@, self.target, cur, k2) {
                            if k2 < k {
                                assert(walk(self.instructions@, self.target, k2) != cur);
                            }
                        }
                    }
                }
                return false;
            }
            end = next;
            proof {
                k = k + 1;
            }
        }
        assert(hits_after(self.instructions@, self.target, cur, k));
        true
    }

    /// The next position from `cur` toward the target, found by walking back
    /// from the target until `cur`; `None` when `cur` is the target.
    pub fn get_next(&self, cur: Position) -> (r: Option<Position>)
        requires
            route_reaches(self.instructions@, self.target, cur),
        ensures
            r == next_toward(self.instructions@, self.target, cur),
    {
        let ghost kmax = choose|k: nat| hits_after(self.instructions@, self.target, cur, k);
        let mut path: Vec<Position> = Vec::new();
        let mut end = self.target;
        let ghost mut k: nat = 0;
        while !(end == cur)
            invariant
                hits_after(self.instructions@, self.target, cur, kmax),
                k <= kmax,
                end == walk(self.instructions@, self.target, k),
                path@.len() == k,
                k > 0 ==> path@.last() == walk(self.instructions@, self.target, (k - 1) as nat),
            decreases kmax - k,
        {
            proof {
                if k == kmax {
                    assert(false);
                }
                assert(has_all_neighbors(walk(self.instructions@, self.target, k)));
            }
            path.push(end);
            end = self.step_back(end);
            proof {
                k = k + 1;
            }
        }
        proof {
            if k < kmax {
                assert(walk(self.instructions@, self.target, k) != cur);
            }
        }
        path.pop()
    }
}

/// Once a step back stays in place, every later step does.
proof fn lemma_walk_stuck(instr: Seq<(Position, usize)>, target: Position, k: nat)
    requires
        step_back(instr, walk(instr, target, k)) == walk(instr, target, k),
    ensures
        forall|j: nat| j >= k ==> #[trigger] walk(instr, target, j) == walk(instr, target, k),
{
    assert forall|j: nat| j >= k implies #[trigger] walk(instr, target, j) == walk(instr, target, k) by {
        lemma_walk_stuck_at(instr, target, k, j);
    }
}

proof fn lemma_walk_stuck_at(instr: Seq<(Position, usize)>, target: Position, k: nat, j: nat)
    requires
        step_back(instr, walk(instr, target, k)) == walk(instr, target, k),
        j >= k,
    ensures
        walk(instr, target, j) == walk(instr, target, k),
    decreases j,
{
    if j > k {
        lemma_walk_stuck_at(instr, target, k, (j - 1) as nat);
    }
}

} // verus!
