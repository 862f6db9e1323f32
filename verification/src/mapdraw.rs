//! What a map view draws: the tiles and the entities in view, gathered into
//! batches by what they show, so that each batch is drawn with one texture.
use vstd::prelude::*;
use crate::environment_thread::LocalEntityData;
use crate::structs::{Cell, EntityId, Position};

verus! {

/// What the squares of a batch show: a kind of terrain, or one entity.
#[derive(Debug, Clone, Copy, PartialEq, Eq, Structural)]
pub enum DrawKind {
    Terrain(u64),
    Entity(EntityId),
}

/// The tiles on which squares showing `kind` are drawn, in drawing order.
#[derive(Debug)]
pub struct DrawBatch {
    pub kind: DrawKind,
    pub tiles: Vec<Position>,
}

/// The squares to draw, in order: each cell in view with its terrain, then
/// each entity in view.
pub open spec fn draw_items(cells: Seq<(Position, Cell)>, ents: Seq<LocalEntityData>) -> Seq<(DrawKind, Position)> {
    cells.map_values(|c: (Position, Cell)| (DrawKind::Terrain(c.1.terrain), c.0)) + ents.map_values(
        |e: LocalEntityData| (DrawKind::Entity(e.id), e.pos),
    )
}

/// The kinds that occur among the items, each once, in the order of their
/// first occurrence.
pub open spec fn kinds_in_order(items: Seq<(DrawKind, Position)>) -> Seq<DrawKind>
    decreases items.len(),
{
    if items.len() == 0 {
        Seq::empty()
    } else {
        let prev = kinds_in_order(items.drop_last());
        if prev.contains(items.last().0) {
            prev
        } else {
            prev.push(items.last().0)
        }
    }
}

/// Whether an item shows `k`.
pub open spec fn shows(k: DrawKind) -> spec_fn((DrawKind, Position)) -> bool {
    |it: (DrawKind, Position)| it.0 == k
}

/// The tiles of the items that show `k`, in order.
pub open spec fn tiles_of(items: Seq<(DrawKind, Position)>, k: DrawKind) -> Seq<Position> {
    items.filter(shows(k)).map_values(|it: (DrawKind, Position)| it.1)
}

/// The kinds of the batches, in order.
pub open spec fn batch_kinds(bs: Seq<DrawBatch>) -> Seq<DrawKind> {
    bs.map_values(|b: DrawBatch| b.kind)
}

/// Whether the batches gather the items: one batch per kind, in the order in
/// which the kinds first occur, each with the tiles of its kind in order.
pub open spec fn batched(bs: Seq<DrawBatch>, items: Seq<(DrawKind, Position)>) -> bool {
    &&& batch_kinds(bs) == kinds_in_order(items)
    &&& forall|i: int| 0 <= i < bs.len() ==> #[trigger] bs[i].tiles@ == tiles_of(items, bs[i].kind)
}

/// A kind that does not occur among the items has no tiles.
proof fn lemma_absent_kind(items: Seq<(DrawKind, Position)>, k: DrawKind)
    requires
        !kinds_in_order(items).contains(k),
    ensures
        items.filter(shows(k)).len() == 0,
    decreases items.len(),
{
    reveal(Seq::filter);
    if items.len() > 0 {
        let prev = kinds_in_order(items.drop_last());
        let x = items.last().0;
        if !prev.contains(x) {
            assert(kinds_in_order(items)[prev.len() as int] == x);
        }
        if prev.contains(k) {
            let j = choose|j: int| 0 <= j < prev.len() && prev[j] == k;
            if !prev.contains(x) {
                assert(kinds_in_order(items)[j] == k);
            }
        }
        lemma_absent_kind(items.drop_last(), k);
    }
}

/// No kind is listed twice.
proof fn lemma_kinds_distinct(items: Seq<(DrawKind, Position)>)
    ensures
        kinds_in_order(items).no_duplicates(),
    decreases items.len(),
{
    if items.len() > 0 {
        lemma_kinds_distinct(items.drop_last());
    }
}

/// One more item goes to the tiles of its own kind only.
proof fn lemma_tiles_push(items: Seq<(DrawKind, Position)>, it: (DrawKind, Position), k: DrawKind)
    ensures
        tiles_of(items.push(it), k) == if it.0 == k {
            tiles_of(items, k).push(it.1)
        } else {
            tiles_of(items, k)
        },
{
    reveal(Seq::filter);
    assert(items.push(it).drop_last() =~= items);
    assert(items.push(it).filter(shows(k)) == if (shows(k))(it) {
        items.filter(shows(k)).push(it)
    } else {
        items.filter(shows(k))
    });
    if it.0 == k {
        assert(tiles_of(items.push(it), k) =~= tiles_of(items, k).push(it.1));
    }
}

/// Puts one more item in its batch, opening a new batch for a new kind.
fn add_item(batches: &mut Vec<DrawBatch>, kind: DrawKind, pos: Position, Ghost(items): Ghost<Seq<(DrawKind, Position)>>)
    requires
        batched(old(batches)@, items),
    ensures
        batched(final(batches)@, items.push((kind, pos))),
{
    let ghost it = (kind, pos);
    let ghost all = items.push(it);
    assert(all.drop_last() =~= items);
    let mut j: usize = 0;
    while j < batches.len()
        invariant
            j <= batches@.len(),
            batches@ == old(batches)@,
            forall|i: int| 0 <= i < j ==> batches@[i].kind != kind,
        ensures
            j <= batches@.len(),
            batches@ == old(batches)@,
            forall|i: int| 0 <= i < j ==> batches@[i].kind != kind,
            j < batches@.len() ==> batches@[j as int].kind == kind,
        decreases batches@.len() - j,
    {
        if batches[j].kind == kind {
            break;
        }
        j = j + 1;
    }
    proof {
        assert forall|i: int| 0 <= i < batches@.len() && batches@[i].kind != kind implies #[trigger] tiles_of(
            all,
            batches@[i].kind,
        ) == tiles_of(items, batches@[i].kind) by {
            lemma_tiles_push(items, it, batches@[i].kind);
        }
        lemma_tiles_push(items, it, kind);
    }
    if j < batches.len() {
        let ghost before = batches@;
        assert(batch_kinds(before)[j as int] == kind);
        assert(kinds_in_order(items).contains(kind));
        proof {
            lemma_kinds_distinct(items);
        }
        batches[j].tiles.push(pos);
        assert(batch_kinds(batches@) =~= batch_kinds(before));
        assert forall|i: int| 0 <= i < batches@.len() implies #[trigger] batches@[i].tiles@ == tiles_of(
            all,
            batches@[i].kind,
        ) by {
            if i != j {
                assert(batches@[i] == before[i]);
                assert(batch_kinds(before)[i] == before[i].kind);
            }
        }
    } else {
        proof {
            if kinds_in_order(items).contains(kind) {
                let m = choose|m: int| 0 <= m < kinds_in_order(items).len() && kinds_in_order(items)[m] == kind;
                assert(batch_kinds(batches@)[m] == kind);
            }
            lemma_absent_kind(items, kind);
            assert(tiles_of(items, kind) =~= Seq::<Position>::empty());
        }
        let mut tiles: Vec<Position> = Vec::new();
        tiles.push(pos);
        let ghost before = batches@;
        batches.push(DrawBatch { kind: kind, tiles: tiles });
        assert(batch_kinds(batches@) =~= batch_kinds(before).push(kind));
        assert forall|i: int| 0 <= i < batches@.len() implies #[trigger] batches@[i].tiles@ == tiles_of(
            all,
            batches@[i].kind,
        ) by {
            if i < before.len() {
                assert(batches@[i] == before[i]);
            }
        }
    }
}

/// Gathers the squares a map view draws into batches, one per thing shown:
/// a batch for each kind of terrain among the cells and one for each entity,
/// in the order in which they first occur, the cells before the entities;
/// each batch holds the tiles of its squares in the same order.
pub fn draw_batches(cells: &Vec<(Position, Cell)>, entities: &Vec<LocalEntityData>) -> (r: Vec<DrawBatch>)
    ensures
        batched(r@, draw_items(cells@, entities@)),
        forall|i: int, j: int| 0 <= i < j < r@.len() ==> r@[i].kind != r@[j].kind,
{
    let ghost all = draw_items(cells@, entities@);
    let mut batches: Vec<DrawBatch> = Vec::new();
    proof {
        assert(all.take(0) =~= Seq::<(DrawKind, Position)>::empty());
        assert(batch_kinds(batches@) =~= Seq::<DrawKind>::empty());
    }
    let mut i: usize = 0;
    while i < cells.len()
        invariant
            i <= cells@.len(),
            all == draw_items(cells@, entities@),
            batched(batches@, all.take(i as int)),
        decreases cells@.len() - i,
    {
        let (pos, cell) = cells[i];
        assert(all.take(i + 1) =~= all.take(i as int).push((DrawKind::Terrain(cell.terrain), pos)));
        add_item(&mut batches, DrawKind::Terrain(cell.terrain), pos, Ghost(all.take(i as int)));
        i = i + 1;
    }
    let mut k: usize = 0;
    while k < entities.len()
        invariant
            i == cells@.len(),
            k <= entities@.len(),
            all == draw_items(cells@, entities@),
            batched(batches@, all.take(i + k)),
        decreases entities@.len() - k,
    {
        let ent = entities[k];
        assert(all.take(i + k + 1) =~= all.take(i + k).push((DrawKind::Entity(ent.id), ent.pos)));
        add_item(&mut batches, DrawKind::Entity(ent.id), ent.pos, Ghost(all.take(i + k)));
        k = k + 1;
    }
    proof {
        assert(all.take(i + k) =~= all);
        lemma_kinds_distinct(all);
        assert forall|a: int, b: int| 0 <= a < b < batches@.len() implies batches@[a].kind != batches@[b].kind by {
            assert(batch_kinds(batches@)[a] == batches@[a].kind);
            assert(batch_kinds(batches@)[b] == batches@[b].kind);
        }
    }
    batches
}

} // verus!
