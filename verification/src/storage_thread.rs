//! The storage component: grids of map cells, the default map generator,
//! and the manager that loads grids on demand and answers cell requests.
use vstd::prelude::*;
use crate::structs::{Cell, GridKey, CellKey, Position, EntityData, ChanError, default_cell};
use crate::usage::{Usage, UsageData};

verus! {

/// Makes the channel to a new storage thread, which it starts.
pub trait StorageThreadFactory: Sized {
    fn new() -> Self;
}


broadcast use crate::usage::group_usage_data;

/// Errors of the storage component.
#[derive(Debug)]
pub enum Error {
    Unimplemented(&'static str),
    InternalParseError(String),
    NotFound(String),
    SendError(&'static str),
    RecvError(&'static str),
}

impl From<ChanError> for Error {
    fn from(err: ChanError) -> (r: Error) {
        match err {
            ChanError::SendError(e) => Error::SendError(e),
            ChanError::RecvError(e) => Error::RecvError(e),
        }
    }
}

impl vstd::std_specs::convert::FromSpecImpl<ChanError> for Error {
    open spec fn obeys_from_spec() -> bool {
        true
    }

    open spec fn from_spec(err: ChanError) -> Error {
        match err {
            ChanError::SendError(e) => Error::SendError(e),
            ChanError::RecvError(e) => Error::RecvError(e),
        }
    }
}

/// The row index that a cell coordinate selects.
pub open spec fn idx(k: u64) -> int {
    (k as usize) as int
}

/// The cell at row `x`, column `y`, or the default cell where there is none.
pub open spec fn cell_at(rows: Seq<Seq<Cell>>, x: int, y: int) -> Cell {
    if 0 <= x < rows.len() && 0 <= y < rows[x].len() {
        rows[x][y]
    } else {
        default_cell()
    }
}

/// The rows, with empty rows appended until row `x` exists.
pub open spec fn grown_rows(rows: Seq<Seq<Cell>>, x: int) -> Seq<Seq<Cell>> {
    if x < rows.len() {
        rows
    } else {
        rows + Seq::new((x + 1 - rows.len()) as nat, |i: int| Seq::<Cell>::empty())
    }
}

/// The row, with default cells appended until column `y` exists.
pub open spec fn grown_row(row: Seq<Cell>, y: int) -> Seq<Cell> {
    if y < row.len() {
        row
    } else {
        row + Seq::new((y + 1 - row.len()) as nat, |i: int| default_cell())
    }
}

/// The rows after cell `(x, y)` is set to `c`.
pub open spec fn set_rows(rows: Seq<Seq<Cell>>, x: int, y: int, c: Cell) -> Seq<Seq<Cell>> {
    let g = grown_rows(rows, x);
    g.update(x, grown_row(g[x], y).update(y, c))
}

/// A grid of cells, stored row by row; rows grow as cells are set.
pub struct StorageGridData {
    size: usize,
    data: Vec<Vec<Cell>>,
}

impl StorageGridData {
    /// The cells, row by row.
    pub closed spec fn rows(&self) -> Seq<Seq<Cell>> {
        self.data@.map_values(|r: Vec<Cell>| r@)
    }

    /// The capacity that new rows are made with.
    pub closed spec fn row_capacity(&self) -> usize {
        self.size
    }

    /// An empty grid meant for `size.0` rows of `size.1` cells.
    pub fn new(size: (u64, u64)) -> (r: Self)
        requires
            size.0 <= usize::MAX,
            size.1 <= usize::MAX,
        ensures
            r.rows() == Seq::<Seq<Cell>>::empty(),
            r.row_capacity() == size.1,
    {
        let r = StorageGridData { size: size.1 as usize, data: Vec::with_capacity(size.0 as usize) };
        assert(r.rows() =~= Seq::<Seq<Cell>>::empty());
        r
    }

    /// The cell at `key`, or the default cell where none was set.
    pub fn get_cell(&self, key: CellKey) -> (r: Result<Cell, Error>)
        ensures
            r == Ok::<Cell, Error>(cell_at(self.rows(), idx(key.x), idx(key.y))),
    {
        let x = key.x as usize;
        let y = key.y as usize;
        if x < self.data.len() {
            let row = &self.data[x];
            if y < row.len() {
                return Ok(row[y]);
            }
        }
        Ok(Cell::default())
    }

    /// Sets the cell at `key`, growing the rows as needed.
    pub fn set_cell(&mut self, key: CellKey, pix: Cell) -> (r: Result<(), Error>)
        requires
            idx(key.x) < usize::MAX,
            idx(key.y) < usize::MAX,
        ensures
            r is Ok,
            final(self).rows() == set_rows(old(self).rows(), idx(key.x), idx(key.y), pix),
            final(self).row_capacity() == old(self).row_capacity(),
    {
        let x = key.x as usize;
        let y = key.y as usize;
        let ghost rows0 = self.rows();
        while self.data.len() <= x
            invariant
                x < usize::MAX,
                rows0.len() <= self.data@.len(),
                self.data@.len() <= x + 1 || self.data@.len() == rows0.len(),
                self.size == old(self).size,
                self.rows() == rows0 + Seq::new((self.data@.len() - rows0.len()) as nat, |i: int| Seq::<Cell>::empty()),
            decreases x + 1 - self.data@.len(),
        {
            let ghost before = self.rows();
            self.data.push(Vec::with_capacity(self.size));
            assert(self.rows() =~= before.push(Seq::<Cell>::empty()));
            assert(self.rows() =~= rows0 + Seq::new((self.data@.len() - rows0.len()) as nat, |i: int| Seq::<Cell>::empty()));
        }
        assert(self.rows() =~= grown_rows(rows0, x as int));
        let ghost g = self.rows();
        let mut row: Vec<Cell> = Vec::new();
        std::mem::swap(&mut row, &mut self.data[x]);
        let ghost row0 = row@;
        assert(row0 == g[x as int]);
        while row.len() <= y
            invariant
                y < usize::MAX,
                row0.len() <= row@.len(),
                row@.len() <= y + 1 || row@.len() == row0.len(),
                row@ == row0 + Seq::new((row@.len() - row0.len()) as nat, |i: int| default_cell()),
            decreases y + 1 - row@.len(),
        {
            let ghost before = row@;
            row.push(Cell::default());
            assert(row@ =~= row0 + Seq::new((row@.len() - row0.len()) as nat, |i: int| default_cell()));
        }
        assert(row@ =~= grown_row(row0, y as int));
        row.set(y, pix);
        self.data.set(x, row);
        assert(self.rows() =~= set_rows(rows0, x as int, y as int, pix));
        Ok(())
    }
}

/// Reading a cell after setting one gives the set cell at its place and the
/// earlier cell everywhere else.
pub proof fn lemma_set_then_get(rows: Seq<Seq<Cell>>, x: int, y: int, c: Cell, x2: int, y2: int)
    requires
        0 <= x,
        0 <= y,
    ensures
        cell_at(set_rows(rows, x, y, c), x2, y2) == (if x2 == x && y2 == y {
            c
        } else {
            cell_at(rows, x2, y2)
        }),
{
    let g = grown_rows(rows, x);
    let r = grown_row(g[x], y);
    assert(g.len() > x);
    if 0 <= x2 < rows.len() {
        assert(g[x2] == rows[x2]);
    }
    if x2 == x {
        if 0 <= y2 < g[x].len() {
            assert(r[y2] == g[x][y2]);
        }
        if y2 >= g[x].len() && y2 < r.len() && y2 != y {
            assert(r[y2] == default_cell());
        }
    } else if rows.len() <= x2 < g.len() {
        assert(g[x2] == Seq::<Cell>::empty());
    }
}

/// Something that produces the grids of the parts of the map that are not
/// stored yet.
pub trait GridFactory {
    /// The grid `grid_key`, of the given size.
    fn gen(&mut self, grid_key: GridKey, size: (u64, u64)) -> (r: StorageGridData)
        requires
            can_generate(grid_key, size),
    ;
}

/// Produces the grid of a not yet stored part of the map.
pub struct DefaultMapFactory;

/// Terrain of the generated map at `(rx, ry)`: 1 on both axes and on every
/// point whose coordinates are both multiples of ten, 0 elsewhere.
pub open spec fn default_terrain(rx: int, ry: int) -> u64 {
    if (rx % 10 == 0 && ry % 10 == 0) || rx == 0 || ry == 0 {
        1
    } else {
        0
    }
}

/// The generated cell at offset `(tx, ty)` of grid `key` of the given size.
pub open spec fn default_map_cell(key: GridKey, size: (u64, u64), tx: int, ty: int) -> Cell {
    Cell {
        terrain: default_terrain(key.x * size.0 + tx, key.y * size.1 + ty),
        ground: 0,
        structure_id: 0,
        is_structure_center: false,
    }
}

/// The first `tx` complete generated rows, then the first `ty` cells of row `tx`.
pub open spec fn default_rows_upto(key: GridKey, size: (u64, u64), tx: int, ty: int) -> Seq<Seq<Cell>> {
    Seq::new(tx as nat, |i: int| Seq::new(size.1 as nat, |j: int| default_map_cell(key, size, i, j)))
        + (if ty > 0 {
        seq![Seq::new(ty as nat, |j: int| default_map_cell(key, size, tx, j))]
    } else {
        Seq::<Seq<Cell>>::empty()
    })
}

/// The rows of the generated grid: `size.0` rows of `size.1` cells, or none at all
/// when rows would be empty.
pub open spec fn default_map_rows(key: GridKey, size: (u64, u64)) -> Seq<Seq<Cell>> {
    if size.1 == 0 {
        Seq::<Seq<Cell>>::empty()
    } else {
        default_rows_upto(key, size, size.0 as int, 0)
    }
}

/// Whether a grid of the given size at `key` can be generated without leaving
/// the range of the integer types.
pub open spec fn can_generate(key: GridKey, size: (u64, u64)) -> bool {
    &&& size.0 <= i64::MAX
    &&& size.1 <= i64::MAX
    &&& size.0 < usize::MAX
    &&& size.1 < usize::MAX
    &&& i64::MIN <= key.x * size.0
    &&& key.x * size.0 + size.0 <= i64::MAX
    &&& i64::MIN <= key.y * size.1
    &&& key.y * size.1 + size.1 <= i64::MAX
}

/// Setting the next generated cell extends the generated rows by that cell.
proof fn lemma_default_rows_step(key: GridKey, size: (u64, u64), tx: int, ty: int)
    requires
        0 <= tx,
        0 <= ty < size.1,
    ensures
        set_rows(default_rows_upto(key, size, tx, ty), tx, ty, default_map_cell(key, size, tx, ty))
            == default_rows_upto(key, size, tx, ty + 1),
{
    let rows = default_rows_upto(key, size, tx, ty);
    let c = default_map_cell(key, size, tx, ty);
    let full = Seq::new(tx as nat, |i: int| Seq::new(size.1 as nat, |j: int| default_map_cell(key, size, i, j)));
    let g = grown_rows(rows, tx);
    let newrow = Seq::new((ty + 1) as nat, |j: int| default_map_cell(key, size, tx, j));
    if ty == 0 {
        assert(rows =~= full);
        assert(g =~= full.push(Seq::<Cell>::empty()));
    } else {
        assert(g =~= rows);
    }
    assert(g[tx].len() == ty);
    assert(grown_row(g[tx], ty).update(ty, c) =~= newrow);
    assert(set_rows(rows, tx, ty, c) =~= full.push(newrow));
    assert(default_rows_upto(key, size, tx, ty + 1) =~= full.push(newrow));
}

/// A completed row joins the complete rows.
proof fn lemma_default_rows_row_done(key: GridKey, size: (u64, u64), tx: int)
    requires
        0 <= tx,
        size.1 > 0,
    ensures
        default_rows_upto(key, size, tx, size.1 as int) == default_rows_upto(key, size, tx + 1, 0),
{
    let a = default_rows_upto(key, size, tx, size.1 as int);
    let b = default_rows_upto(key, size, tx + 1, 0);
    assert(a.len() == b.len());
    assert forall|i: int| 0 <= i < a.len() implies a[i] =~= b[i] by {}
    assert(a =~= b);
}

impl DefaultMapFactory {
    /// The generator; it holds no state.
    pub fn new() -> (r: Self) {
        DefaultMapFactory
    }
}

impl GridFactory for DefaultMapFactory {
    /// The generated grid `grid_key` of the given size.
    fn gen(&mut self, grid_key: GridKey, size: (u64, u64)) -> (r: StorageGridData)
        ensures
            r.rows() == default_map_rows(grid_key, size),
            r.row_capacity() == size.1,
    {
        let mut data = StorageGridData::new(size);
        let mut t_x: u64 = 0;
        while t_x < size.0
            invariant
                can_generate(grid_key, size),
                t_x <= size.0,
                data.row_capacity() == size.1,
                size.1 > 0 ==> data.rows() == default_rows_upto(grid_key, size, t_x as int, 0),
                size.1 == 0 ==> data.rows() == Seq::<Seq<Cell>>::empty(),
            decreases size.0 - t_x,
        {
            let mut t_y: u64 = 0;
            while t_y < size.1
                invariant
                    can_generate(grid_key, size),
                    t_x < size.0,
                    t_y <= size.1,
                    data.row_capacity() == size.1,
                    size.1 > 0 ==> data.rows() == default_rows_upto(grid_key, size, t_x as int, t_y as int),
                    size.1 == 0 ==> data.rows() == Seq::<Seq<Cell>>::empty(),
                decreases size.1 - t_y,
            {
                let mut t_cell = Cell { terrain: 0, ground: 0, structure_id: 0, is_structure_center: false };
                proof {
                    assert(grid_key.x * size.0 <= grid_key.x * size.0 + t_x);
                    assert(grid_key.y * size.1 <= grid_key.y * size.1 + t_y);
                }
                let real_x: i64 = grid_key.x * (size.0 as i64) + (t_x as i64);
                let real_y: i64 = grid_key.y * (size.1 as i64) + (t_y as i64);
                if real_x % 10 == 0 && real_y % 10 == 0 || real_x == 0 || real_y == 0 {
                    t_cell.terrain = 1;
                }
                assert(t_cell == default_map_cell(grid_key, size, t_x as int, t_y as int));
                proof {
                    lemma_default_rows_step(grid_key, size, t_x as int, t_y as int);
                }
                data.set_cell(CellKey { x: t_x, y: t_y }, t_cell);
                t_y = t_y + 1;
            }
            proof {
                if size.1 > 0 {
                    lemma_default_rows_row_done(grid_key, size, t_x as int);
                }
            }
            t_x = t_x + 1;
        }
        proof {
            if size.1 == 0 {
                assert(default_map_rows(grid_key, size) =~= Seq::<Seq<Cell>>::empty());
            }
        }
        data
    }
}

} // verus!

verus! {

/// Division of `a` by `b > 0` rounded toward zero, as the machine divides.
pub open spec fn trunc_div(a: int, b: int) -> int {
    if a >= 0 {
        a / b
    } else {
        -((-a) / b)
    }
}

/// The grid coordinate that the storage manager files coordinate `a` under,
/// for grids `cs` cells wide: the quotient rounded toward zero, one less
/// for negative coordinates.
pub open spec fn grid_coord(a: int, cs: int) -> int {
    trunc_div(a, cs) - (if a < 0 {
        1int
    } else {
        0int
    })
}

/// The distance of coordinate `a` from the start of its grid.
pub open spec fn cell_coord(a: int, cs: int) -> int {
    let d = a - grid_coord(a, cs) * cs;
    if d < 0 {
        -d
    } else {
        d
    }
}

/// The grid key under which position `p` is filed.
pub open spec fn grid_key_of(p: Position, cs: (u64, u64)) -> GridKey {
    GridKey { x: grid_coord(p.x as int, cs.0 as int) as i64, y: grid_coord(p.y as int, cs.1 as int) as i64 }
}

/// The key of position `p` inside its grid.
pub open spec fn cell_key_of(p: Position, cs: (u64, u64)) -> CellKey {
    CellKey { x: cell_coord(p.x as int, cs.0 as int) as u64, y: cell_coord(p.y as int, cs.1 as int) as u64 }
}

/// A grid coordinate times the grid width, plus the cell coordinate, gives
/// back the coordinate; the cell coordinate lies in `0..=cs`, and equals `cs`
/// exactly for negative multiples of `cs`.
pub proof fn lemma_keys_reconstruct(a: int, cs: int)
    requires
        cs > 0,
    ensures
        grid_coord(a, cs) * cs + cell_coord(a, cs) == a,
        0 <= cell_coord(a, cs) <= cs,
        cell_coord(a, cs) == cs <==> (a < 0 && a % cs == 0),
        a < 0 ==> cell_coord(a, cs) > 0,
{
    if a >= 0 {
        assert(a / cs * cs + a % cs == a) by (nonlinear_arith)
            requires
                cs > 0,
        ;
        assert(0 <= a % cs < cs) by (nonlinear_arith)
            requires
                cs > 0,
        ;
    } else {
        let b = -a;
        let q = b / cs;
        assert(q * cs + b % cs == b) by (nonlinear_arith)
            requires
                cs > 0,
                q == b / cs,
        ;
        assert(0 <= b % cs < cs) by (nonlinear_arith)
            requires
                cs > 0,
        ;
        assert((-q - 1) * cs == -(q * cs) - cs) by (nonlinear_arith);
        assert((-q) * cs == -(q * cs)) by (nonlinear_arith);
        if b % cs == 0 {
            vstd::arithmetic::div_mod::lemma_fundamental_div_mod_converse(a, cs, -q, 0);
        } else {
            vstd::arithmetic::div_mod::lemma_fundamental_div_mod_converse(a, cs, -q - 1, cs - b % cs);
        }
    }
}

/// Whether the start of the grid that coordinate `a` is filed under is an
/// `i64`, so that its keys can be computed.
pub open spec fn coord_fileable(a: int, cs: int) -> bool {
    i64::MIN <= grid_coord(a, cs) * cs
}

/// Whether, moreover, the grid ends inside the range of `i64`, so that it can
/// be generated.
pub open spec fn coord_storable(a: int, cs: int) -> bool {
    &&& i64::MIN <= grid_coord(a, cs) * cs
    &&& grid_coord(a, cs) * cs + cs <= i64::MAX
}

/// Whether the keys of position `p` can be computed for grids `cs` wide: the
/// start of its grid is an `i64` on both axes. Only positions within one grid
/// of the low end of `i64` fail.
pub open spec fn fileable(p: Position, cs: (u64, u64)) -> bool {
    &&& 0 < cs.0 <= 0x10000
    &&& 0 < cs.1 <= 0x10000
    &&& coord_fileable(p.x as int, cs.0 as int)
    &&& coord_fileable(p.y as int, cs.1 as int)
}

/// Whether position `p` can be filed, and its grid be generated, without
/// leaving the range of the integer types: its grid starts and ends inside
/// the range of `i64` on both axes. Only positions in the grids at the two
/// ends of `i64` fail.
pub open spec fn storable(p: Position, cs: (u64, u64)) -> bool {
    &&& 0 < cs.0 <= 0x10000
    &&& 0 < cs.1 <= 0x10000
    &&& coord_storable(p.x as int, cs.0 as int)
    &&& coord_storable(p.y as int, cs.1 as int)
}

/// Whether every position of the area from `pos_1` up to, not including,
/// `pos_2` is storable: its first and its last position are (the positions
/// between them then are too).
pub open spec fn area_storable(pos_1: Position, pos_2: Position, cs: (u64, u64)) -> bool {
    pos_1.x < pos_2.x && pos_1.y < pos_2.y ==> storable(pos_1, cs) && storable(
        Position { x: (pos_2.x - 1) as i64, y: (pos_2.y - 1) as i64 },
        cs,
    )
}

/// Every position of an area whose first and last positions are storable is
/// storable.
pub proof fn lemma_area_positions_storable(pos_1: Position, pos_2: Position, cs: (u64, u64), p: Position)
    requires
        area_storable(pos_1, pos_2, cs),
        pos_1.x <= p.x < pos_2.x,
        pos_1.y <= p.y < pos_2.y,
    ensures
        storable(p, cs),
{
    lemma_coord_storable_between(pos_1.x as int, p.x as int, pos_2.x - 1, cs.0 as int);
    lemma_coord_storable_between(pos_1.y as int, p.y as int, pos_2.y - 1, cs.1 as int);
}

/// The keys of a fileable coordinate: it is above the low end of `i64`, its grid
/// coordinate is an `i64`, and the start of its grid lies at most one grid
/// width below it.
proof fn lemma_fileable_coord(a: int, cs: int)
    requires
        0 < cs <= 0x10000,
        i64::MIN <= a <= i64::MAX,
        coord_fileable(a, cs),
    ensures
        i64::MIN < a,
        i64::MIN <= grid_coord(a, cs) <= i64::MAX,
        a - cs <= grid_coord(a, cs) * cs <= a,
        0 <= cell_coord(a, cs) <= cs,
{
    lemma_keys_reconstruct(a, cs);
    let g = grid_coord(a, cs);
    assert(i64::MIN <= g <= i64::MAX) by (nonlinear_arith)
        requires
            g * cs <= a,
            g * cs >= i64::MIN,
            0 < cs,
            a <= i64::MAX,
    ;
}

/// Grid coordinates grow with the coordinate.
proof fn lemma_grid_coord_monotone(a: int, b: int, cs: int)
    requires
        cs > 0,
        a <= b,
    ensures
        grid_coord(a, cs) <= grid_coord(b, cs),
        grid_coord(a, cs) * cs <= grid_coord(b, cs) * cs,
{
    lemma_keys_reconstruct(a, cs);
    lemma_keys_reconstruct(b, cs);
    let ga = grid_coord(a, cs);
    let gb = grid_coord(b, cs);
    if ga > gb {
        assert(ga * cs >= gb * cs + cs) by (nonlinear_arith)
            requires
                ga >= gb + 1,
                cs > 0,
        ;
        assert(false);
    }
    assert(ga * cs <= gb * cs) by (nonlinear_arith)
        requires
            ga <= gb,
            cs > 0,
    ;
}

/// A coordinate between two storable ones is storable.
proof fn lemma_coord_storable_between(a: int, b: int, c: int, cs: int)
    requires
        cs > 0,
        a <= b <= c,
        coord_storable(a, cs),
        coord_storable(c, cs),
    ensures
        coord_storable(b, cs),
{
    lemma_grid_coord_monotone(a, b, cs);
    lemma_grid_coord_monotone(b, c, cs);
}

/// What the manager stores for grid `key` when it was not loaded yet: what the
/// loader gave, or, where the loader failed, the generated grid.
pub open spec fn fresh_grid<F: Fn(GridKey) -> Result<StorageGridData, Error>>(
    load: F,
    key: GridKey,
    cs: (u64, u64),
    g: StorageGridData,
) -> bool {
    ||| call_ensures(load, (key,), Ok::<StorageGridData, Error>(g))
    ||| (exists|e: Error| call_ensures(load, (key,), Err::<StorageGridData, Error>(e))) && g.rows()
        == default_map_rows(key, cs) && g.row_capacity() == cs.1
}

/// Loads grids of map cells on demand and answers cell requests.
pub struct StorageManager {
    cell_size: (u64, u64),
    loaded: Usage<GridKey, StorageGridData>,
    grid_factory: DefaultMapFactory,
}

impl StorageManager {
    /// The width and height of one grid.
    pub closed spec fn cell_size(&self) -> (u64, u64) {
        self.cell_size
    }

    /// The loaded grids by key, with their request counters.
    pub closed spec fn loaded(&self) -> Map<GridKey, UsageData<StorageGridData>> {
        self.loaded.view()
    }

    /// The grids are 100 by 100 cells and no grid is loaded twice.
    pub closed spec fn wf(&self) -> bool {
        &&& self.cell_size == (100u64, 100u64)
        &&& self.loaded.wf()
    }


    /// A manager with no grid loaded, for grids of 100 by 100 cells. Its store
    /// is asked to track 1000 request cycles; the count is kept in eight bits,
    /// which leave 232 of them.
    pub fn new() -> (r: Self)
        ensures
            r.wf(),
            r.cell_size() == (100u64, 100u64),
            r.loaded() == Map::<GridKey, UsageData<StorageGridData>>::empty(),
    {
        StorageManager {
            cell_size: (100, 100),
            loaded: Usage::new(232),
            grid_factory: DefaultMapFactory::new(),
        }
    }

    /// The grid key and the key inside that grid under which `pos` is filed.
    pub fn get_keys(&self, pos: Position) -> (r: (GridKey, CellKey))
        requires
            self.wf(),
            fileable(pos, self.cell_size()),
        ensures
            r.0 == grid_key_of(pos, self.cell_size()),
            r.1 == cell_key_of(pos, self.cell_size()),
    {
        let cw = self.cell_size.0 as i64;
        let ch = self.cell_size.1 as i64;
        proof {
            lemma_fileable_coord(pos.x as int, cw as int);
            lemma_fileable_coord(pos.y as int, ch as int);
            lemma_trunc_div(pos.x as int, cw as int);
            lemma_trunc_div(pos.y as int, ch as int);
            lemma_keys_reconstruct(pos.x as int, cw as int);
            lemma_keys_reconstruct(pos.y as int, ch as int);
        }
        let mut gridkey = GridKey { x: pos.x / cw, y: pos.y / ch };
        if pos.x < 0 {
            gridkey.x = gridkey.x - 1;
        }
        if pos.y < 0 {
            gridkey.y = gridkey.y - 1;
        }
        let dx: i64 = pos.x - gridkey.x * cw;
        let dy: i64 = pos.y - gridkey.y * ch;
        let cellkey = CellKey {
            x: (if dx < 0 { -dx } else { dx }) as u64,
            y: (if dy < 0 { -dy } else { dy }) as u64,
        };
        (gridkey, cellkey)
    }
}

/// The grid that grid `key` holds before a request, given the loaded grids before
/// it: the loaded one, or else a fresh one from the loader or the generator.
pub open spec fn grid_before<F: Fn(GridKey) -> Result<StorageGridData, Error>>(
    loaded: Map<GridKey, UsageData<StorageGridData>>,
    load: F,
    key: GridKey,
    cs: (u64, u64),
    g: StorageGridData,
) -> bool {
    if loaded.dom().contains(key) {
        g == loaded[key].value()
    } else {
        fresh_grid(load, key, cs, g)
    }
}

/// The request counter of grid `key` before a request.
pub open spec fn requests_before(loaded: Map<GridKey, UsageData<StorageGridData>>, key: GridKey) -> int {
    if loaded.dom().contains(key) {
        loaded[key].in_progress() as int
    } else {
        0
    }
}

/// The request counter of grid `key` after one more request; a counter that
/// has reached the largest `u64` stays there.
pub open spec fn requests_after(loaded: Map<GridKey, UsageData<StorageGridData>>, key: GridKey) -> int {
    if requests_before(loaded, key) == u64::MAX {
        u64::MAX as int
    } else {
        requests_before(loaded, key) + 1
    }
}

/// The last-cycle counter of grid `key` before a request.
pub open spec fn last_cycle_before(loaded: Map<GridKey, UsageData<StorageGridData>>, key: GridKey) -> int {
    if loaded.dom().contains(key) {
        loaded[key].last_cycle() as int
    } else {
        0
    }
}

/// The positions of row `x` from column `y1` up to, not including, `y2`.
pub open spec fn area_row(x: int, y1: int, y2: int) -> Seq<Position> {
    Seq::new(
        (if y2 > y1 {
            y2 - y1
        } else {
            0
        }) as nat,
        |j: int| Position { x: x as i64, y: (y1 + j) as i64 },
    )
}

/// The positions of the area `x1..x2` by `y1..y2`, row after row.
pub open spec fn area_positions(x1: int, x2: int, y1: int, y2: int) -> Seq<Position>
    decreases x2 - x1,
{
    if x2 <= x1 {
        Seq::empty()
    } else {
        area_positions(x1, x2 - 1, y1, y2) + area_row(x2 - 1, y1, y2)
    }
}

impl StorageManager {
    /// The cell that position `p` holds in the loaded grids.
    pub open spec fn cell_of(&self, p: Position) -> Cell {
        let ck = cell_key_of(p, self.cell_size());
        cell_at(self.loaded()[grid_key_of(p, self.cell_size())].value().rows(), idx(ck.x), idx(ck.y))
    }

    /// The grid that `pos` is filed under, loaded from `load` or generated if it
    /// was not loaded yet; counts one request for it.
    fn get_grid_data<F: Fn(GridKey) -> Result<StorageGridData, Error>>(
        &mut self,
        grid_key: GridKey,
        load: &F,
    ) -> (r: &mut StorageGridData)
        requires
            old(self).wf(),
            forall|k: GridKey| load.requires((k,)),
            can_generate(grid_key, old(self).cell_size()),
        ensures
            final(self).wf(),
            final(self).cell_size() == old(self).cell_size(),
            grid_before(old(self).loaded(), *load, grid_key, old(self).cell_size(), *r),
            final(self).loaded().dom() == old(self).loaded().dom().insert(grid_key),
            final(self).loaded()[grid_key].value() == *final(r),
            final(self).loaded()[grid_key].in_progress() == requests_after(old(self).loaded(), grid_key),
            final(self).loaded()[grid_key].last_cycle() == last_cycle_before(old(self).loaded(), grid_key),
            forall|k: GridKey|
                k != grid_key && #[trigger] old(self).loaded().dom().contains(k) ==> final(self).loaded()[k]
                    == old(self).loaded()[k],
    {
        proof {
            crate::structs::lemma_grid_key_model();
        }
        if !self.loaded.contains_key(&grid_key) {
            let res = load(grid_key);
            let new = match res {
                Ok(g) => g,
                Err(e) => {
                    let g = self.grid_factory.gen(grid_key, self.cell_size);
                    assert(call_ensures(*load, (grid_key,), Err::<StorageGridData, Error>(e)));
                    g
                },
            };
            self.loaded.insert(grid_key, new);
        }
        assert(self.loaded.view().dom().contains(grid_key));
        self.loaded.get_mut(&grid_key).unwrap()
    }
}

/// A storable position can be filed, its grid can be generated, and its cell
/// key lies inside the grid.
proof fn lemma_storable_keys(p: Position, cs: (u64, u64))
    requires
        storable(p, cs),
    ensures
        fileable(p, cs),
        can_generate(grid_key_of(p, cs), cs),
        0 <= cell_key_of(p, cs).x <= cs.0,
        0 <= cell_key_of(p, cs).y <= cs.1,
        idx(cell_key_of(p, cs).x) == cell_key_of(p, cs).x,
        idx(cell_key_of(p, cs).y) == cell_key_of(p, cs).y,
{
    lemma_fileable_coord(p.x as int, cs.0 as int);
    lemma_fileable_coord(p.y as int, cs.1 as int);
}

impl StorageManager {
    /// The cell at `pos`; loads (or generates) its grid first if needed, and counts
    /// one request for the grid.
    pub fn get_cell<F: Fn(GridKey) -> Result<StorageGridData, Error>>(&mut self, pos: Position, load: &F) -> (r:
        Result<Cell, Error>)
        requires
            old(self).wf(),
            storable(pos, old(self).cell_size()),
            forall|k: GridKey| load.requires((k,)),
        ensures
            final(self).wf(),
            final(self).cell_size() == old(self).cell_size(),
            ({
                let key = grid_key_of(pos, old(self).cell_size());
                &&& final(self).loaded().dom() == old(self).loaded().dom().insert(key)
                &&& grid_before(old(self).loaded(), *load, key, old(self).cell_size(), final(self).loaded()[key].value())
                &&& final(self).loaded()[key].in_progress() == requests_after(old(self).loaded(), key)
                &&& final(self).loaded()[key].last_cycle() == last_cycle_before(old(self).loaded(), key)
                &&& forall|k: GridKey|
                    k != key && #[trigger] old(self).loaded().dom().contains(k) ==> final(self).loaded()[k]
                        == old(self).loaded()[k]
            }),
            r == Ok::<Cell, Error>(final(self).cell_of(pos)),
    {
        proof {
            lemma_storable_keys(pos, self.cell_size);
        }
        let (grid_key, cell_key) = self.get_keys(pos);
        let grid_cell = self.get_grid_data(grid_key, load);
        grid_cell.get_cell(cell_key)
    }

    /// Sets the cell at `pos`; loads (or generates) its grid first if needed, and
    /// counts one request for the grid.
    pub fn set_cell<F: Fn(GridKey) -> Result<StorageGridData, Error>>(
        &mut self,
        pos: Position,
        pix: Cell,
        load: &F,
    ) -> (r: Result<(), Error>)
        requires
            old(self).wf(),
            storable(pos, old(self).cell_size()),
            forall|k: GridKey| load.requires((k,)),
        ensures
            final(self).wf(),
            final(self).cell_size() == old(self).cell_size(),
            r is Ok,
            ({
                let key = grid_key_of(pos, old(self).cell_size());
                let ck = cell_key_of(pos, old(self).cell_size());
                &&& final(self).loaded().dom() == old(self).loaded().dom().insert(key)
                &&& exists|g: StorageGridData|
                    #[trigger] grid_before(old(self).loaded(), *load, key, old(self).cell_size(), g)
                        && final(self).loaded()[key].value().rows() == set_rows(g.rows(), idx(ck.x), idx(ck.y), pix)
                        && final(self).loaded()[key].value().row_capacity() == g.row_capacity()
                &&& final(self).loaded()[key].in_progress() == requests_after(old(self).loaded(), key)
                &&& final(self).loaded()[key].last_cycle() == last_cycle_before(old(self).loaded(), key)
                &&& forall|k: GridKey|
                    k != key && #[trigger] old(self).loaded().dom().contains(k) ==> final(self).loaded()[k]
                        == old(self).loaded()[k]
            }),
    {
        proof {
            lemma_storable_keys(pos, self.cell_size);
        }
        let (grid_key, cell_key) = self.get_keys(pos);
        let grid_cell = self.get_grid_data(grid_key, load);
        let ghost g = *grid_cell;
        let res = grid_cell.set_cell(cell_key, pix);
        assert(grid_before(old(self).loaded(), *load, grid_key, old(self).cell_size(), g));
        res
    }

    /// The entities that the world starts with.
    pub fn get_all_entities() -> (r: Vec<EntityData>)
        ensures
            r@.len() == 1,
            r@[0].id == 1,
            r@[0].pos == (Position { x: 0, y: 0 }),
            r@[0].last_pos == (Position { x: 0, y: 0 }),
            r@[0].kind@ == "human"@,
            r@[0].data@ == "{}"@,
            !r@[0].last_tick_failed,
    {
        vec![
            EntityData {
                id: 1,
                pos: Position { x: 0, y: 0 },
                last_pos: Position { x: 0, y: 0 },
                kind: "human".to_owned(),
                data: "{}".to_owned(),
                last_tick_failed: false,
            },
        ]
    }
}

/// The number of positions of an area is its width times its height.
pub proof fn lemma_area_len(x1: int, x2: int, y1: int, y2: int)
    ensures
        area_positions(x1, x2, y1, y2).len() == (if x2 > x1 {
            x2 - x1
        } else {
            0
        }) * (if y2 > y1 {
            y2 - y1
        } else {
            0
        }),
    decreases x2 - x1,
{
    if x2 > x1 {
        lemma_area_len(x1, x2 - 1, y1, y2);
        let h = if y2 > y1 {
            y2 - y1
        } else {
            0
        };
        assert((x2 - 1 - x1) * h + h == (x2 - x1) * h) by (nonlinear_arith);
    }
}

/// How many of the positions are filed under grid `k`.
pub open spec fn reads_of(done: Seq<Position>, k: GridKey, cs: (u64, u64)) -> int
    decreases done.len(),
{
    if done.len() == 0 {
        0
    } else {
        reads_of(done.drop_last(), k, cs) + if grid_key_of(done.last(), cs) == k {
            1int
        } else {
            0int
        }
    }
}

/// A request counter `c` after `n` more requests; it stops at the largest `u64`.
pub open spec fn counter_plus(c: int, n: int) -> int {
    if c + n >= u64::MAX {
        u64::MAX as int
    } else {
        c + n
    }
}

/// A grid none of the positions is filed under has no reads among them.
proof fn lemma_no_reads(done: Seq<Position>, k: GridKey, cs: (u64, u64))
    requires
        forall|i: int| 0 <= i < done.len() ==> grid_key_of(#[trigger] done[i], cs) != k,
    ensures
        reads_of(done, k, cs) == 0,
    decreases done.len(),
{
    if done.len() > 0 {
        assert forall|i: int| 0 <= i < done.drop_last().len() implies grid_key_of(#[trigger] done.drop_last()[i], cs) != k by {
            assert(done.drop_last()[i] == done[i]);
        }
        lemma_no_reads(done.drop_last(), k, cs);
    }
}

/// The state of the loaded grids while an area is read: the cells read so far
/// are those the grids hold, every grid is one that was loaded before or a
/// fresh one, and each counts one request for each read of it.
pub open spec fn area_progress<F: Fn(GridKey) -> Result<StorageGridData, Error>>(
    m: StorageManager,
    before: Map<GridKey, UsageData<StorageGridData>>,
    load: F,
    done: Seq<Position>,
    ret: Seq<(Position, Cell)>,
) -> bool {
    let cs = m.cell_size();
    &&& m.wf()
    &&& ret.len() == done.len()
    &&& forall|i: int| 0 <= i < done.len() ==> #[trigger] ret[i] == (done[i], m.cell_of(done[i]))
    &&& forall|i: int| 0 <= i < done.len() ==> m.loaded().dom().contains(#[trigger] grid_key_of(done[i], cs))
    &&& forall|k: GridKey| #[trigger] before.dom().contains(k) ==> m.loaded().dom().contains(k)
    &&& forall|k: GridKey| #[trigger]
        m.loaded().dom().contains(k) ==> (before.dom().contains(k) || exists|i: int|
            0 <= i < done.len() && grid_key_of(done[i], cs) == k)
    &&& forall|k: GridKey| #[trigger]
        m.loaded().dom().contains(k) ==> {
            &&& grid_before(before, load, k, cs, m.loaded()[k].value())
            &&& m.loaded()[k].last_cycle() == last_cycle_before(before, k)
            &&& m.loaded()[k].in_progress() == counter_plus(requests_before(before, k), reads_of(done, k, cs))
        }
}

/// Whether coordinate `a` is storable in grids 100 wide (see `coord_storable`).
fn coord_ok(a: i64) -> (r: bool)
    ensures
        r == coord_storable(a as int, 100),
{
    let g: i128 = if a >= 0 {
        (a as i128) / 100
    } else {
        -((-(a as i128)) / 100) - 1
    };
    assert(g == grid_coord(a as int, 100));
    assert(-0x8000_0000_0000_0000 <= g <= 0x8000_0000_0000_0000) by (nonlinear_arith)
        requires
            g == (if a >= 0 { a / 100 } else { -((-a) / 100) - 1 }),
            -0x8000_0000_0000_0000 <= a <= 0x7fff_ffff_ffff_ffff,
    ;
    let start: i128 = g * 100;
    start >= i64::MIN as i128 && start + 100 <= i64::MAX as i128
}

impl StorageManager {
    /// Whether `pos` lies far enough from the ends of the coordinate range to be
    /// filed (see `storable`).
    pub fn storable_pos(&self, pos: Position) -> (r: bool)
        requires
            self.wf(),
        ensures
            r == storable(pos, self.cell_size()),
    {
        coord_ok(pos.x) && coord_ok(pos.y)
    }

    /// Whether the area from `pos_1` to `pos_2` can be read by `get_area`: its
    /// first and last positions are storable (see `area_storable`), and the
    /// number of cells is a 64-bit number that is not negative.
    pub fn can_get_area(&self, pos_1: Position, pos_2: Position) -> (r: bool)
        requires
            self.wf(),
        ensures
            r == {
                &&& area_storable(pos_1, pos_2, self.cell_size())
                &&& i64::MIN <= pos_2.x - pos_1.x <= i64::MAX
                &&& i64::MIN <= pos_2.y - pos_1.y <= i64::MAX
                &&& 0 <= (pos_2.x - pos_1.x) * (pos_2.y - pos_1.y) <= i64::MAX
            },
    {
        if pos_1.x < pos_2.x && pos_1.y < pos_2.y {
            let last = Position { x: pos_2.x - 1, y: pos_2.y - 1 };
            if !self.storable_pos(pos_1) || !self.storable_pos(last) {
                return false;
            }
        }
        let dx: i128 = pos_2.x as i128 - pos_1.x as i128;
        let dy: i128 = pos_2.y as i128 - pos_1.y as i128;
        if dx < i64::MIN as i128 || dx > i64::MAX as i128 || dy < i64::MIN as i128 || dy > i64::MAX as i128 {
            return false;
        }
        assert(-0x8000_0000_0000_0000 * 0x8000_0000_0000_0000 <= dx * dy <= 0x8000_0000_0000_0000
            * 0x8000_0000_0000_0000) by (nonlinear_arith)
            requires
                -0x8000_0000_0000_0000 <= dx <= 0x8000_0000_0000_0000,
                -0x8000_0000_0000_0000 <= dy <= 0x8000_0000_0000_0000,
        ;
        let area: i128 = dx * dy;
        0 <= area && area <= i64::MAX as i128
    }

    /// The cells of the area from `pos_1` up to, not including, `pos_2`, row
    /// after row; loads (or generates) the grids it needs, and counts one
    /// request for each cell read.
    pub fn get_area<F: Fn(GridKey) -> Result<StorageGridData, Error>>(
        &mut self,
        pos_1: Position,
        pos_2: Position,
        load: &F,
    ) -> (r: Vec<(Position, Cell)>)
        requires
            old(self).wf(),
            area_storable(pos_1, pos_2, old(self).cell_size()),
            i64::MIN <= pos_2.x - pos_1.x <= i64::MAX,
            i64::MIN <= pos_2.y - pos_1.y <= i64::MAX,
            0 <= (pos_2.x - pos_1.x) * (pos_2.y - pos_1.y) <= i64::MAX,
            forall|k: GridKey| load.requires((k,)),
        ensures
            final(self).cell_size() == old(self).cell_size(),
            area_progress(
                *final(self),
                old(self).loaded(),
                *load,
                area_positions(pos_1.x as int, pos_2.x as int, pos_1.y as int, pos_2.y as int),
                r@,
            ),
    {
        let ghost total = area_positions(pos_1.x as int, pos_2.x as int, pos_1.y as int, pos_2.y as int).len() as int;
        let ghost before = self.loaded();
        let ghost cs = self.cell_size();
        let size = ((pos_2.x - pos_1.x) * (pos_2.y - pos_1.y)) as usize;
        let mut ret: Vec<(Position, Cell)> = Vec::with_capacity(size);
        let mut t_x = pos_1.x;
        proof {
            lemma_area_len(pos_1.x as int, pos_2.x as int, pos_1.y as int, pos_2.y as int);
        }
        while t_x < pos_2.x
            invariant
                pos_1.x <= t_x,
                pos_1.x < pos_2.x ==> t_x <= pos_2.x,
                pos_2.x <= pos_1.x ==> t_x == pos_1.x,
                area_storable(pos_1, pos_2, cs),
                self.cell_size() == cs,
                forall|k: GridKey| load.requires((k,)),
                total == area_positions(pos_1.x as int, pos_2.x as int, pos_1.y as int, pos_2.y as int).len(),
                0 <= total <= i64::MAX,
                area_progress(
                    *self,
                    before,
                    *load,
                    area_positions(pos_1.x as int, t_x as int, pos_1.y as int, pos_2.y as int),
                    ret@,
                ),
                ret@.len() <= total,
            decreases pos_2.x - t_x,
        {
            let ghost rows_done = area_positions(pos_1.x as int, t_x as int, pos_1.y as int, pos_2.y as int);
            proof {
                lemma_area_len(pos_1.x as int, t_x as int, pos_1.y as int, pos_2.y as int);
                lemma_area_len(pos_1.x as int, t_x + 1, pos_1.y as int, pos_2.y as int);
                lemma_area_len(pos_1.x as int, pos_2.x as int, pos_1.y as int, pos_2.y as int);
                assert(area_positions(pos_1.x as int, t_x + 1, pos_1.y as int, pos_2.y as int).len() <= total)
                    by (nonlinear_arith)
                    requires
                        t_x + 1 <= pos_2.x,
                        pos_1.x <= t_x,
                        area_positions(pos_1.x as int, t_x + 1, pos_1.y as int, pos_2.y as int).len() == (t_x + 1
                            - pos_1.x) * (if pos_2.y > pos_1.y {
                            pos_2.y - pos_1.y
                        } else {
                            0
                        }),
                        total == (pos_2.x - pos_1.x) * (if pos_2.y > pos_1.y {
                            pos_2.y - pos_1.y
                        } else {
                            0
                        }),
                ;
            }
            let mut t_y = pos_1.y;
            while t_y < pos_2.y
                invariant
                    pos_1.x <= t_x < pos_2.x,
                    pos_1.y <= t_y,
                    pos_1.y < pos_2.y ==> t_y <= pos_2.y,
                    pos_2.y <= pos_1.y ==> t_y == pos_1.y,
                    area_storable(pos_1, pos_2, cs),
                    self.cell_size() == cs,
                    forall|k: GridKey| load.requires((k,)),
                    rows_done == area_positions(pos_1.x as int, t_x as int, pos_1.y as int, pos_2.y as int),
                    rows_done.len() + area_row(t_x as int, pos_1.y as int, pos_2.y as int).len() <= total,
                    0 <= total <= i64::MAX,
                    area_progress(
                        *self,
                        before,
                        *load,
                        rows_done + area_row(t_x as int, pos_1.y as int, t_y as int),
                        ret@,
                    ),
                decreases pos_2.y - t_y,
            {
                let tpos = Position { x: t_x, y: t_y };
                let ghost done = rows_done + area_row(t_x as int, pos_1.y as int, t_y as int);
                let ghost prev = *self;
                proof {
                    lemma_coord_storable_between(pos_1.x as int, t_x as int, pos_2.x - 1, cs.0 as int);
                    lemma_coord_storable_between(pos_1.y as int, t_y as int, pos_2.y - 1, cs.1 as int);
                    assert(storable(tpos, cs));
                    assert(area_row(t_x as int, pos_1.y as int, t_y as int).len() < area_row(t_x as int, pos_1.y as int, pos_2.y as int).len());
                }
                let data = self.get_cell(tpos, load);
                match data {
                    Ok(cell) => {
                        ret.push((tpos, cell));
                    },
                    Err(_) => {},
                }
                let ghost done2 = rows_done + area_row(t_x as int, pos_1.y as int, t_y + 1);
                proof {
                    assert(done2 =~= done.push(tpos));
                    let key = grid_key_of(tpos, cs);
                    assert forall|i: int| 0 <= i < done.len() implies #[trigger] ret@[i] == (done2[i], self.cell_of(done2[i])) by {
                        assert(prev.loaded().dom().contains(grid_key_of(done[i], cs)));
                    }
                    assert forall|k: GridKey| #[trigger]
                        self.loaded().dom().contains(k) implies (before.dom().contains(k) || exists|i: int|
                            0 <= i < done2.len() && grid_key_of(done2[i], cs) == k) by {
                        if k == key {
                            assert(grid_key_of(done2[done.len() as int], cs) == k);
                        } else {
                            assert(prev.loaded().dom().contains(k));
                            if !before.dom().contains(k) {
                                let i = choose|i: int| 0 <= i < done.len() && grid_key_of(done[i], cs) == k;
                                assert(grid_key_of(done2[i], cs) == k);
                            }
                        }
                    }
                    assert forall|k: GridKey| #[trigger]
                        self.loaded().dom().contains(k) implies {
                            &&& grid_before(before, *load, k, cs, self.loaded()[k].value())
                            &&& self.loaded()[k].last_cycle() == last_cycle_before(before, k)
                            &&& self.loaded()[k].in_progress() == counter_plus(requests_before(before, k), reads_of(done2, k, cs))
                        } by {
                        assert(done2.drop_last() =~= done);
                        if k == key && !prev.loaded().dom().contains(k) {
                            if before.dom().contains(k) {
                                assert(prev.loaded().dom().contains(k));
                            }
                            assert forall|i: int| 0 <= i < done.len() implies grid_key_of(#[trigger] done[i], cs) != k by {
                                assert(prev.loaded().dom().contains(grid_key_of(done[i], cs)));
                            }
                            lemma_no_reads(done, k, cs);
                        }
                    }
                    assert(ret@.len() == done2.len());
                    assert(ret@[done.len() as int] == (done2[done.len() as int], self.cell_of(done2[done.len() as int])));
                    assert(forall|k: GridKey| #[trigger] before.dom().contains(k) ==> self.loaded().dom().contains(k));
                    assert forall|i: int| 0 <= i < done2.len() implies self.loaded().dom().contains(#[trigger] grid_key_of(done2[i], cs)) by {
                        if i < done.len() {
                            assert(prev.loaded().dom().contains(grid_key_of(done[i], cs)));
                        }
                    }
                }
                t_y = t_y + 1;
            }
            proof {
                assert(area_row(t_x as int, pos_1.y as int, t_y as int) =~= area_row(t_x as int, pos_1.y as int, pos_2.y as int));
            }
            t_x = t_x + 1;
        }
        ret
    }
}

/// Machine division of an in-range value by a positive divisor rounds toward zero.
proof fn lemma_trunc_div(a: int, b: int)
    requires
        0 < b <= 0x10000,
        i64::MIN < a <= i64::MAX,
    ensures
        -0x8000_0000_0000_0000 <= trunc_div(a, b) <= 0x7fff_ffff_ffff_ffff,
        trunc_div(a, b) * b <= a || a < 0,
        (a < 0 ==> trunc_div(a, b) * b >= a),
        -0x8000_0000_0000_0000 <= trunc_div(a, b) * b <= 0x7fff_ffff_ffff_ffff,
{
    if a >= 0 {
        assert(a / b * b <= a) by (nonlinear_arith)
            requires
                b > 0,
                a >= 0,
        ;
        assert(0 <= a / b <= a) by (nonlinear_arith)
            requires
                b > 0,
                a >= 0,
        ;
    } else {
        let c = -a;
        assert(c / b * b <= c) by (nonlinear_arith)
            requires
                b > 0,
                c >= 0,
        ;
        assert(0 <= c / b <= c) by (nonlinear_arith)
            requires
                b > 0,
                c >= 0,
        ;
        assert(0 <= c / b * b) by (nonlinear_arith)
            requires
                b > 0,
                c >= 0,
        ;
        assert((-(c / b)) * b == -(c / b * b)) by (nonlinear_arith);
    }
}

} // verus!
