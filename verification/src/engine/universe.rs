//! The pixel universe: pixels filed in storage cells of 10 by 10, each cell
//! loaded from a storage engine the first time it is needed.
use vstd::prelude::*;
use crate::usage::{Usage, UsageData, distinct_keys, pairs_to_map, lemma_pairs_to_map_index,
    lemma_pairs_to_map_update, lemma_pairs_to_map_push, key_model};
use crate::storage_thread::trunc_div;

verus! {

#[verifier::external_type_specification]
#[verifier::external_body]
pub struct ExIoError(std::io::Error);

#[verifier::external_type_specification]
#[verifier::external_body]
pub struct ExUtf8Error(core::str::Utf8Error);

#[verifier::external_type_specification]
#[verifier::external_body]
pub struct ExDecoderError(rustc_serialize::json::DecoderError);

#[verifier::external_type_specification]
#[verifier::external_body]
pub struct ExEncoderError(rustc_serialize::json::EncoderError);

/// Errors of the universe.
#[derive(Debug)]
pub enum UniverseError {
    IOError(std::io::Error),
    JsonDecoderError(rustc_serialize::json::DecoderError),
    JsonEncoderError(rustc_serialize::json::EncoderError),
    Utf8Error(core::str::Utf8Error),
    GridNotLoaded,
    Unimplemented(&'static str),
}

impl From<std::io::Error> for UniverseError {
    fn from(err: std::io::Error) -> (r: UniverseError) {
        UniverseError::IOError(err)
    }
}

impl vstd::std_specs::convert::FromSpecImpl<std::io::Error> for UniverseError {
    open spec fn obeys_from_spec() -> bool {
        true
    }

    open spec fn from_spec(err: std::io::Error) -> UniverseError {
        UniverseError::IOError(err)
    }
}

impl From<rustc_serialize::json::DecoderError> for UniverseError {
    fn from(err: rustc_serialize::json::DecoderError) -> (r: UniverseError) {
        UniverseError::JsonDecoderError(err)
    }
}

impl vstd::std_specs::convert::FromSpecImpl<rustc_serialize::json::DecoderError> for UniverseError {
    open spec fn obeys_from_spec() -> bool {
        true
    }

    open spec fn from_spec(err: rustc_serialize::json::DecoderError) -> UniverseError {
        UniverseError::JsonDecoderError(err)
    }
}

impl From<rustc_serialize::json::EncoderError> for UniverseError {
    fn from(err: rustc_serialize::json::EncoderError) -> (r: UniverseError) {
        UniverseError::JsonEncoderError(err)
    }
}

impl vstd::std_specs::convert::FromSpecImpl<rustc_serialize::json::EncoderError> for UniverseError {
    open spec fn obeys_from_spec() -> bool {
        true
    }

    open spec fn from_spec(err: rustc_serialize::json::EncoderError) -> UniverseError {
        UniverseError::JsonEncoderError(err)
    }
}

impl From<core::str::Utf8Error> for UniverseError {
    fn from(err: core::str::Utf8Error) -> (r: UniverseError) {
        UniverseError::Utf8Error(err)
    }
}

impl vstd::std_specs::convert::FromSpecImpl<core::str::Utf8Error> for UniverseError {
    open spec fn obeys_from_spec() -> bool {
        true
    }

    open spec fn from_spec(err: core::str::Utf8Error) -> UniverseError {
        UniverseError::Utf8Error(err)
    }
}

/// Key of one storage cell of the universe.
#[derive(Debug, Clone, Copy, Eq, Hash)]
pub struct GridKey {
    pub x: i64,
    pub y: i64,
}

impl PartialEq for GridKey {
    fn eq(&self, other: &GridKey) -> (r: bool) {
        self.x == other.x && self.y == other.y
    }
}

impl vstd::std_specs::cmp::PartialEqSpecImpl for GridKey {
    open spec fn obeys_eq_spec() -> bool {
        true
    }

    open spec fn eq_spec(&self, other: &GridKey) -> bool {
        self.x == other.x && self.y == other.y
    }
}

/// Keys of storage cells compare in executable code as they do in specifications.
pub proof fn lemma_grid_key_model()
    ensures
        key_model::<GridKey>(),
{
    reveal(vstd::laws_eq::obeys_concrete_eq);
}

/// Key of one pixel inside a storage cell.
#[derive(Debug, Clone, Copy, PartialEq, Eq, Structural, Hash)]
pub struct CellKey {
    pub x: u64,
    pub y: u64,
}

/// A pixel: its kind, and data that the kind may use.
#[derive(Debug)]
pub struct Pixel {
    pub kind: String,
    pub data: String,
}

impl Clone for Pixel {
    fn clone(&self) -> (r: Self)
        ensures
            r == *self,
    {
        Pixel { kind: self.kind.clone(), data: self.data.clone() }
    }
}

/// What a pixel holds: its kind and its data, as text.
pub type PixelView = (Seq<char>, Seq<char>);

impl View for Pixel {
    type V = PixelView;

    open spec fn view(&self) -> PixelView {
        (self.kind@, self.data@)
    }
}

impl Pixel {
    /// A pixel of the given kind, with no data.
    pub fn new(kind: String) -> (r: Self)
        ensures
            r@ == (kind@, Seq::<char>::empty()),
    {
        Pixel { kind: kind, data: String::new() }
    }
}

/// The pixel read at a key of a cell: the one stored there, or else a pixel of
/// no kind and no data.
pub open spec fn cell_pixel(c: Map<CellKey, PixelView>, k: CellKey) -> PixelView {
    if c.dom().contains(k) {
        c[k]
    } else {
        (Seq::<char>::empty(), Seq::<char>::empty())
    }
}

/// Pairs of keys and pixels, as what they hold.
pub open spec fn pixel_pairs(s: Seq<(CellKey, Pixel)>) -> Seq<(CellKey, PixelView)> {
    s.map_values(|e: (CellKey, Pixel)| (e.0, e.1@))
}

/// A storage cell that keeps its pixels by key.
pub struct DiskStorageCell {
    data: Vec<(CellKey, Pixel)>,
}

impl DiskStorageCell {
    /// No key is stored twice.
    #[verifier::type_invariant]
    spec fn inv(self) -> bool {
        distinct_keys(self.data@)
    }

    /// The stored pixels by key.
    pub closed spec fn view(&self) -> Map<CellKey, PixelView> {
        pairs_to_map(pixel_pairs(self.data@))
    }

    /// A cell with no pixel stored.
    pub fn new() -> (r: Self)
        ensures
            r@ == Map::<CellKey, PixelView>::empty(),
    {
        let r = DiskStorageCell { data: Vec::new() };
        assert(r@ =~= Map::<CellKey, PixelView>::empty());
        r
    }

    /// The index of `key` in the pixels, if it is stored.
    fn find(&self, key: CellKey) -> (r: Option<usize>)
        ensures
            r is None <==> !self@.dom().contains(key),
            r matches Some(i) ==> i < self.data@.len() && self.data@[i as int].0 == key
                && self@[key] == self.data@[i as int].1@,
    {
        proof {
            use_type_invariant(self);
            lemma_pixel_pairs_distinct(self.data@);
        }
        let ghost ps = pixel_pairs(self.data@);
        let mut i: usize = 0;
        while i < self.data.len()
            invariant
                i <= self.data@.len(),
                ps == pixel_pairs(self.data@),
                distinct_keys(ps),
                forall|j: int| 0 <= j < i ==> self.data@[j].0 != key,
            decreases self.data@.len() - i,
        {
            if self.data[i].0 == key {
                proof {
                    lemma_pairs_to_map_index(ps, i as int);
                }
                return Some(i);
            }
            i = i + 1;
        }
        proof {
            if self@.dom().contains(key) {
                let j = choose|j: int| 0 <= j < ps.len() && ps[j].0 == key;
                assert(self.data@[j].0 == key);
            }
        }
        None
    }

    /// Stores `pixel` at `key`, in place of the pixel stored there.
    fn put(&mut self, key: CellKey, pixel: Pixel)
        ensures
            final(self)@ == old(self)@.insert(key, pixel@),
    {
        proof {
            use_type_invariant(&*self);
            lemma_pixel_pairs_distinct(self.data@);
        }
        let ghost pv = pixel@;
        match self.find(key) {
            Some(i) => {
                let ghost ps = pixel_pairs(self.data@);
                proof {
                    lemma_pairs_to_map_update(ps, i as int, pv);
                }
                let mut data = Vec::new();
                std::mem::swap(&mut data, &mut self.data);
                let _ = data.remove(i);
                data.insert(i, (key, pixel));
                assert(pixel_pairs(data@) =~= ps.update(i as int, (ps[i as int].0, pv)));
                assert(distinct_keys(data@)) by {
                    assert forall|a: int, b: int| 0 <= a < data@.len() && 0 <= b < data@.len() && a != b
                        implies data@[a].0 != data@[b].0 by {
                        assert(pixel_pairs(data@)[a].0 == data@[a].0);
                        assert(pixel_pairs(data@)[b].0 == data@[b].0);
                    }
                }
                self.data = data;
            },
            None => {
                let ghost ps = pixel_pairs(self.data@);
                proof {
                    lemma_pairs_to_map_push(ps, key, pv);
                }
                let mut data = Vec::new();
                std::mem::swap(&mut data, &mut self.data);
                data.push((key, pixel));
                assert(pixel_pairs(data@) =~= ps.push((key, pv)));
                assert(distinct_keys(data@)) by {
                    assert forall|a: int, b: int| 0 <= a < data@.len() && 0 <= b < data@.len() && a != b
                        implies data@[a].0 != data@[b].0 by {
                        assert(pixel_pairs(data@)[a].0 == data@[a].0);
                        assert(pixel_pairs(data@)[b].0 == data@[b].0);
                    }
                }
                self.data = data;
            },
        }
    }
}

/// Keys stay distinct when the pixels are viewed as what they hold.
proof fn lemma_pixel_pairs_distinct(s: Seq<(CellKey, Pixel)>)
    requires
        distinct_keys(s),
    ensures
        distinct_keys(pixel_pairs(s)),
        pixel_pairs(s).len() == s.len(),
        forall|i: int| 0 <= i < s.len() ==> #[trigger] pixel_pairs(s)[i] == (s[i].0, s[i].1@),
{
}

/// A storage cell of the universe: where pixels are read and written.
pub trait StorageCell {
    fn save(self) -> Result<(), UniverseError>;

    fn get_pixel(&self, x: u64, y: u64) -> Result<Pixel, UniverseError>;

    fn set_pixel(&mut self, x: u64, y: u64, pixel: Pixel) -> Result<(), UniverseError>;
}

impl StorageCell for DiskStorageCell {
    /// Saving a cell is not supported.
    fn save(self) -> (r: Result<(), UniverseError>)
        ensures
            r matches Err(UniverseError::Unimplemented(m)) && m@ == "DiskStorageCell.save"@,
    {
        proof {
            reveal_strlit("DiskStorageCell.save");
        }
        Err(UniverseError::Unimplemented("DiskStorageCell.save"))
    }

    /// The pixel at `(x, y)`: the stored one, or a pixel of no kind.
    fn get_pixel(&self, x: u64, y: u64) -> (r: Result<Pixel, UniverseError>)
        ensures
            r matches Ok(p) && p@ == cell_pixel(self@, CellKey { x, y }),
    {
        let key = CellKey { x: x, y: y };
        match self.find(key) {
            Some(i) => Ok(self.data[i].1.clone()),
            None => Ok(Pixel::new(String::new())),
        }
    }

    /// Stores `pixel` at `(x, y)`.
    fn set_pixel(&mut self, x: u64, y: u64, pixel: Pixel) -> (r: Result<(), UniverseError>)
        ensures
            r is Ok,
            final(self)@ == old(self)@.insert(CellKey { x, y }, pixel@),
    {
        self.put(CellKey { x: x, y: y }, pixel);
        Ok(())
    }
}

/// The cell a storage engine hands out: the one it read, or an empty cell when
/// it read none.
pub fn load_or_empty(read: Option<DiskStorageCell>) -> (r: DiskStorageCell)
    ensures
        read matches Some(c) ==> r@ == c@,
        read is None ==> r@ == Map::<CellKey, PixelView>::empty(),
{
    match read {
        Some(c) => c,
        None => DiskStorageCell::new(),
    }
}

/// Where storage cells come from.
pub trait StorageEngine {
    /// The storage cell of key `k`.
    fn load(&mut self, k: GridKey) -> Result<DiskStorageCell, UniverseError>;
}

/// Where a disk storage engine keeps its files.
pub struct DiskStorageEngineParams {
    pub dir: String,
}

/// A storage engine that keeps each storage cell in a file of its directory.
pub struct DiskStorageEngine {
    params: DiskStorageEngineParams,
}

impl DiskStorageEngine {
    pub closed spec fn dir(&self) -> Seq<char> {
        self.params.dir@
    }

    pub fn new(params: DiskStorageEngineParams) -> (r: Self)
        ensures
            r.dir() == params.dir@,
    {
        DiskStorageEngine { params: params }
    }

    /// The directory of the files.
    pub fn dir_path(&self) -> (r: &String)
        ensures
            r@ == self.dir(),
    {
        &self.params.dir
    }
}

/// Width and height of a storage cell, in pixels.
pub const TILE_SIZE: u32 = 10;

/// The key of the storage cell that coordinates `(x, y)` are filed in, and
/// the key inside it: the quotient by the tile size rounded toward zero, and
/// the distance from the tile's corner. Coordinates of opposite sign with the
/// same distance share a key.
pub open spec fn derive_pos_spec(x: i64, y: i64) -> (u64, u64, GridKey) {
    let kx = trunc_div(x as int, TILE_SIZE as int);
    let ky = trunc_div(y as int, TILE_SIZE as int);
    let dx = x - kx * TILE_SIZE;
    let dy = y - ky * TILE_SIZE;
    (
        (if dx < 0 { -dx } else { dx }) as u64,
        (if dy < 0 { -dy } else { dy }) as u64,
        GridKey { x: kx as i64, y: ky as i64 },
    )
}

/// The pixels of each loaded storage cell.
pub open spec fn cells_of(l: Map<GridKey, UsageData<DiskStorageCell>>) -> Map<GridKey, Map<CellKey, PixelView>> {
    l.map_values(|u: UsageData<DiskStorageCell>| u.value()@)
}

/// The pixel at `(x, y)`, if its storage cell is loaded.
pub open spec fn pixel_at(cells: Map<GridKey, Map<CellKey, PixelView>>, x: i64, y: i64) -> Option<PixelView> {
    let (cx, cy, key) = derive_pos_spec(x, y);
    if cells.dom().contains(key) {
        Some(cell_pixel(cells[key], CellKey { x: cx, y: cy }))
    } else {
        None
    }
}

/// The quotient rounded toward zero stays in range, and the remainder is less
/// than the divisor.
proof fn lemma_trunc_div_small(a: int)
    requires
        i64::MIN <= a <= i64::MAX,
    ensures
        i64::MIN <= trunc_div(a, 10) <= i64::MAX,
        i64::MIN <= trunc_div(a, 10) * 10 <= i64::MAX,
        -10 < a - trunc_div(a, 10) * 10 < 10,
{
    if a >= 0 {
        assert(0 <= a / 10 <= a && a / 10 * 10 <= a && a - a / 10 * 10 < 10) by (nonlinear_arith)
            requires
                a >= 0,
        ;
    } else {
        let c = -a;
        assert(0 <= c / 10 <= c && c / 10 * 10 <= c && c - c / 10 * 10 < 10) by (nonlinear_arith)
            requires
                c >= 0,
        ;
        assert((-(c / 10)) * 10 == -(c / 10 * 10)) by (nonlinear_arith);
    }
}

/// The storage cells of a universe, loaded on demand from a storage engine,
/// each with request counters.
pub struct Grid<T: StorageEngine> {
    tile_width: u32,
    tile_height: u32,
    loaded: Usage<GridKey, DiskStorageCell>,
    se: T,
}

impl<T: StorageEngine> Grid<T> {
    /// Tiles are 10 by 10 and no cell is loaded twice.
    pub closed spec fn wf(&self) -> bool {
        &&& self.tile_width == TILE_SIZE
        &&& self.tile_height == TILE_SIZE
        &&& self.loaded.wf()
    }

    /// The loaded storage cells with their request counters.
    pub closed spec fn loaded(&self) -> Map<GridKey, UsageData<DiskStorageCell>> {
        self.loaded@
    }

    /// The pixels of the loaded storage cells.
    pub open spec fn cells(&self) -> Map<GridKey, Map<CellKey, PixelView>> {
        cells_of(self.loaded())
    }

    /// A grid over storage engine `se`, with no cell loaded.
    pub fn new(se: T) -> (r: Self)
        ensures
            r.wf(),
            r.loaded() == Map::<GridKey, UsageData<DiskStorageCell>>::empty(),
    {
        Grid { tile_width: TILE_SIZE, tile_height: TILE_SIZE, loaded: Usage::new(232), se: se }
    }

    /// The key inside its storage cell, and the key of the cell, of `(x, y)`.
    pub fn derive_pos(&self, x: i64, y: i64) -> (r: (u64, u64, GridKey))
        requires
            self.wf(),
        ensures
            r == derive_pos_spec(x, y),
    {
        proof {
            lemma_trunc_div_small(x as int);
            lemma_trunc_div_small(y as int);
        }
        let key = GridKey { x: x / (self.tile_width as i64), y: y / (self.tile_height as i64) };
        let dx: i64 = x - key.x * (self.tile_width as i64);
        let dy: i64 = y - key.y * (self.tile_height as i64);
        ((if dx < 0 { -dx } else { dx }) as u64, (if dy < 0 { -dy } else { dy }) as u64, key)
    }

    /// Makes sure the cell of `key` is loaded, loading it from the storage
    /// engine if it is not; the engine's error when that fails.
    fn ensure_loaded(&mut self, key: GridKey) -> (r: Result<(), UniverseError>)
        requires
            old(self).wf(),
        ensures
            final(self).wf(),
            old(self).loaded().dom().contains(key) ==> r is Ok && final(self).loaded() == old(self).loaded(),
            r is Err ==> final(self).loaded() == old(self).loaded(),
            !old(self).loaded().dom().contains(key) && r is Ok ==> {
                &&& final(self).loaded().dom() == old(self).loaded().dom().insert(key)
                &&& final(self).loaded()[key].in_progress() == 0
                &&& final(self).loaded()[key].last_cycle() == 0
                &&& forall|k: GridKey| #[trigger] old(self).loaded().dom().contains(k) ==> final(self).loaded()[k]
                    == old(self).loaded()[k]
            },
    {
        proof {
            lemma_grid_key_model();
            broadcast use crate::usage::group_usage_data;
        }
        if !self.loaded.contains_key(&key) {
            let new = match self.se.load(key) {
                Ok(c) => c,
                Err(e) => {
                    return Err(e);
                },
            };
            self.loaded.insert(key, new);
        }
        Ok(())
    }

    /// The storage cell of `key`, for change in place, loading it from the
    /// storage engine if needed; counts one request for the cell. When the
    /// cell has to be loaded and the storage engine fails, its error, and
    /// nothing changes.
    pub fn get_storage_cell(&mut self, key: GridKey) -> (r: Result<&mut DiskStorageCell, UniverseError>)
        requires
            old(self).wf(),
        ensures
            r is Err ==> !old(self).loaded().dom().contains(key) && final(self).loaded() == old(self).loaded()
                && final(self).wf(),
            r matches Ok(c) ==> {
                &&& final(self).loaded().dom() == old(self).loaded().dom().insert(key)
                &&& final(self).loaded()[key].value() == *final(c)
                &&& old(self).loaded().dom().contains(key) ==> {
                    &&& *c == old(self).loaded()[key].value()
                    &&& final(self).loaded()[key] == old(self).loaded()[key].requested().with_value(*final(c))
                }
                &&& !old(self).loaded().dom().contains(key) ==> final(self).loaded()[key].in_progress() == 1
                    && final(self).loaded()[key].last_cycle() == 0
                &&& forall|k: GridKey| k != key && #[trigger] old(self).loaded().dom().contains(k)
                    ==> final(self).loaded()[k] == old(self).loaded()[k]
                &&& final(self).wf()
            },
    {
        proof {
            lemma_grid_key_model();
            broadcast use crate::usage::group_usage_data;
        }
        match self.ensure_loaded(key) {
            Ok(()) => {},
            Err(e) => {
                return Err(e);
            },
        }
        match self.loaded.get_mut(&key) {
            Some(c) => Ok(c),
            None => Err(UniverseError::GridNotLoaded),
        }
    }

    /// The pixel at `(x, y)`, loading its storage cell if needed; counts one
    /// request for the cell. When the cell has to be loaded and the storage
    /// engine fails, its error, and nothing changes.
    pub fn get_pixel(&mut self, x: i64, y: i64) -> (r: Result<Pixel, UniverseError>)
        requires
            old(self).wf(),
        ensures
            final(self).wf(),
            ({
                let key = derive_pos_spec(x, y).2;
                &&& old(self).loaded().dom().contains(key) ==> {
                    &&& r matches Ok(p) && Some(p@) == pixel_at(old(self).cells(), x, y)
                    &&& final(self).loaded() == old(self).loaded().insert(key, old(self).loaded()[key].requested())
                }
                &&& r is Err ==> !old(self).loaded().dom().contains(key) && final(self).loaded() == old(self).loaded()
                &&& r matches Ok(p) ==> {
                    &&& Some(p@) == pixel_at(final(self).cells(), x, y)
                    &&& final(self).loaded().dom() == old(self).loaded().dom().insert(key)
                    &&& forall|k: GridKey| k != key && #[trigger] old(self).loaded().dom().contains(k)
                        ==> final(self).loaded()[k] == old(self).loaded()[k]
                }
            }),
    {
        proof {
            lemma_grid_key_model();
            broadcast use crate::usage::group_usage_data;
        }
        let args = self.derive_pos(x, y);
        let key = args.2;
        match self.ensure_loaded(key) {
            Ok(()) => {},
            Err(e) => {
                return Err(e);
            },
        }
        let ghost mid = self.loaded();
        match self.loaded.get(&key) {
            Some(storage) => {
                let r = storage.get_pixel(args.0, args.1);
                proof {
                    assert(cells_of(self.loaded())[key] == mid[key].value()@);
                    assert(cells_of(mid)[key] == mid[key].value()@);
                }
                r
            },
            None => Err(UniverseError::GridNotLoaded),
        }
    }

    /// Writes `pixel` at `(x, y)`, loading its storage cell if needed; counts
    /// one request for the cell. When the cell has to be loaded and the storage
    /// engine fails, its error, and nothing changes.
    pub fn set_pixel(&mut self, x: i64, y: i64, pixel: Pixel) -> (r: Result<(), UniverseError>)
        requires
            old(self).wf(),
        ensures
            final(self).wf(),
            ({
                let (cx, cy, key) = derive_pos_spec(x, y);
                &&& old(self).loaded().dom().contains(key) ==> {
                    &&& r is Ok
                    &&& final(self).cells() == old(self).cells().insert(
                        key,
                        old(self).cells()[key].insert(CellKey { x: cx, y: cy }, pixel@),
                    )
                    &&& final(self).loaded()[key].in_progress() == old(self).loaded()[key].requested().in_progress()
                }
                &&& r is Err ==> !old(self).loaded().dom().contains(key) && final(self).loaded() == old(self).loaded()
                &&& r is Ok ==> cells_after_write(old(self).cells(), x, y, pixel@, final(self).cells())
                &&& r is Ok ==> {
                    &&& pixel_at(final(self).cells(), x, y) == Some(pixel@)
                    &&& final(self).loaded().dom() == old(self).loaded().dom().insert(key)
                    &&& forall|k: GridKey| k != key && #[trigger] old(self).loaded().dom().contains(k)
                        ==> final(self).loaded()[k] == old(self).loaded()[k]
                }
            }),
    {
        proof {
            lemma_grid_key_model();
            broadcast use crate::usage::group_usage_data;
        }
        let args = self.derive_pos(x, y);
        let key = args.2;
        match self.ensure_loaded(key) {
            Ok(()) => {},
            Err(e) => {
                return Err(e);
            },
        }
        let ghost mid = self.loaded();
        let ghost pv = pixel@;
        match self.loaded.get_mut(&key) {
            Some(storage) => {
                let r = storage.set_pixel(args.0, args.1, pixel);
                proof {
                    assert(self.loaded() == mid.insert(key, mid[key].requested().with_value(*storage)));
                    assert(cells_of(self.loaded()) =~= cells_of(mid).insert(
                        key,
                        cells_of(mid)[key].insert(CellKey { x: args.0, y: args.1 }, pv),
                    ));
                    let oc = old(self).cells();
                    let nc = cells_of(self.loaded());
                    assert(nc.dom() =~= oc.dom().insert(key));
                    assert forall|k: GridKey| k != key && #[trigger] oc.dom().contains(k) implies nc[k] == oc[k] by {
                        assert(mid[k] == old(self).loaded()[k]);
                        assert(self.loaded()[k] == mid[k]);
                    }
                }
                r
            },
            None => Err(UniverseError::GridNotLoaded),
        }
    }
}

/// The universe: its grid of storage cells.
pub struct Universe<T: StorageEngine> {
    pub grid: Grid<T>,
}

impl<T: StorageEngine> Universe<T> {
    pub fn new(grid: Grid<T>) -> (r: Self)
        ensures
            r.grid == grid,
    {
        Universe { grid: grid }
    }

    /// The pixel at `(x, y)`; see `Grid::get_pixel`.
    pub fn get_pixel(&mut self, x: i64, y: i64) -> (r: Result<Pixel, UniverseError>)
        requires
            old(self).grid.wf(),
        ensures
            final(self).grid.wf(),
            ({
                let key = derive_pos_spec(x, y).2;
                &&& old(self).grid.loaded().dom().contains(key) ==> {
                    &&& r matches Ok(p) && Some(p@) == pixel_at(old(self).grid.cells(), x, y)
                    &&& final(self).grid.loaded() == old(self).grid.loaded().insert(
                        key,
                        old(self).grid.loaded()[key].requested(),
                    )
                }
                &&& r is Err ==> !old(self).grid.loaded().dom().contains(key) && final(self).grid.loaded()
                    == old(self).grid.loaded()
                &&& r matches Ok(p) ==> {
                    &&& Some(p@) == pixel_at(final(self).grid.cells(), x, y)
                    &&& final(self).grid.loaded().dom() == old(self).grid.loaded().dom().insert(key)
                    &&& forall|k: GridKey| k != key && #[trigger] old(self).grid.loaded().dom().contains(k)
                        ==> final(self).grid.loaded()[k] == old(self).grid.loaded()[k]
                }
            }),
    {
        self.grid.get_pixel(x, y)
    }

    /// Writes `pixel` at `(x, y)`; see `Grid::set_pixel`.
    pub fn set_pixel(&mut self, x: i64, y: i64, pixel: Pixel) -> (r: Result<(), UniverseError>)
        requires
            old(self).grid.wf(),
        ensures
            final(self).grid.wf(),
            ({
                let (cx, cy, key) = derive_pos_spec(x, y);
                &&& old(self).grid.loaded().dom().contains(key) ==> {
                    &&& r is Ok
                    &&& final(self).grid.cells() == old(self).grid.cells().insert(
                        key,
                        old(self).grid.cells()[key].insert(CellKey { x: cx, y: cy }, pixel@),
                    )
                    &&& final(self).grid.loaded()[key].in_progress() == old(self).grid.loaded()[key].requested().in_progress()
                }
                &&& r is Err ==> !old(self).grid.loaded().dom().contains(key) && final(self).grid.loaded()
                    == old(self).grid.loaded()
                &&& r is Ok ==> cells_after_write(old(self).grid.cells(), x, y, pixel@, final(self).grid.cells())
                &&& r is Ok ==> {
                    &&& pixel_at(final(self).grid.cells(), x, y) == Some(pixel@)
                    &&& final(self).grid.loaded().dom() == old(self).grid.loaded().dom().insert(key)
                    &&& forall|k: GridKey| k != key && #[trigger] old(self).grid.loaded().dom().contains(k)
                        ==> final(self).grid.loaded()[k] == old(self).grid.loaded()[k]
                }
            }),
    {
        self.grid.set_pixel(x, y, pixel)
    }
}


/// A pixel written at a key of a storage cell is what a read at that key gives;
/// reads at other keys give what they gave before.
pub proof fn lemma_cell_read_after_write(c: Map<CellKey, PixelView>, k: CellKey, v: PixelView, other: CellKey)
    ensures
        cell_pixel(c.insert(k, v), k) == v,
        other != k ==> cell_pixel(c.insert(k, v), other) == cell_pixel(c, other),
{
}

/// In the universe, a pixel written at `(x, y)` is what a read at `(x, y)`
/// gives; a read at a position filed under another key gives what it gave before.
pub proof fn lemma_write_isolated(
    cells: Map<GridKey, Map<CellKey, PixelView>>,
    x: i64,
    y: i64,
    v: PixelView,
    x2: i64,
    y2: i64,
)
    requires
        cells.dom().contains(derive_pos_spec(x, y).2),
    ensures
        ({
            let (cx, cy, key) = derive_pos_spec(x, y);
            let after = cells.insert(key, cells[key].insert(CellKey { x: cx, y: cy }, v));
            &&& pixel_at(after, x, y) == Some(v)
            &&& derive_pos_spec(x2, y2) != derive_pos_spec(x, y) ==> pixel_at(after, x2, y2) == pixel_at(cells, x2, y2)
        }),
{
}

/// A coordinate is given back by its storage key and its distance from the
/// tile corner, toward zero: `x == key * 10 + d` for `x >= 0`, `x == key * 10 - d`
/// for `x < 0`.
proof fn lemma_coord_reconstruct(a: i64)
    ensures
        ({
            let k = trunc_div(a as int, TILE_SIZE as int);
            let d = a - k * TILE_SIZE;
            &&& a >= 0 ==> 0 <= d && a == k * TILE_SIZE + d
            &&& a < 0 ==> d <= 0 && a == k * TILE_SIZE - (-d)
        }),
{
    lemma_trunc_div_small(a as int);
    if a < 0 {
        let c = -(a as int);
        assert(c / 10 * 10 <= c) by (nonlinear_arith)
            requires
                c >= 0,
        ;
        assert((-(c / 10)) * 10 == -(c / 10 * 10)) by (nonlinear_arith);
    } else {
        assert((a as int) / 10 * 10 <= a) by (nonlinear_arith)
            requires
                a >= 0,
        ;
    }
}

/// Two different positions whose coordinates have the same signs are filed at
/// different places: a write at one never shows at the other.
pub proof fn lemma_derive_pos_distinct(x1: i64, y1: i64, x2: i64, y2: i64)
    requires
        (x1, y1) != (x2, y2),
        (x1 >= 0) == (x2 >= 0),
        (y1 >= 0) == (y2 >= 0),
    ensures
        derive_pos_spec(x1, y1) != derive_pos_spec(x2, y2),
{
    lemma_coord_reconstruct(x1);
    lemma_coord_reconstruct(x2);
    lemma_coord_reconstruct(y1);
    lemma_coord_reconstruct(y2);
    lemma_trunc_div_small(x1 as int);
    lemma_trunc_div_small(x2 as int);
    lemma_trunc_div_small(y1 as int);
    lemma_trunc_div_small(y2 as int);
}

/// What a successful write of `v` at `(x, y)` does to the pixels of the loaded
/// cells (as `Grid::set_pixel` ensures): the cell of `(x, y)` is loaded if it
/// was not, `v` is written at its key, the other loaded cells are unchanged,
/// and a read at `(x, y)` gives `v`.
pub open spec fn cells_after_write(
    before: Map<GridKey, Map<CellKey, PixelView>>,
    x: i64,
    y: i64,
    v: PixelView,
    after: Map<GridKey, Map<CellKey, PixelView>>,
) -> bool {
    let (cx, cy, key) = derive_pos_spec(x, y);
    &&& after.dom() == before.dom().insert(key)
    &&& forall|k: GridKey| k != key && #[trigger] before.dom().contains(k) ==> after[k] == before[k]
    &&& before.dom().contains(key) ==> after[key] == before[key].insert(CellKey { x: cx, y: cy }, v)
    &&& pixel_at(after, x, y) == Some(v)
}

/// A write at `(x2, y2)` leaves the pixel at another position `(x, y)`, whose
/// coordinates have the same signs and whose cell was loaded, as it was; that
/// cell stays loaded.
pub proof fn lemma_set_keeps_other_pixels(
    before: Map<GridKey, Map<CellKey, PixelView>>,
    x2: i64,
    y2: i64,
    v2: PixelView,
    after: Map<GridKey, Map<CellKey, PixelView>>,
    x: i64,
    y: i64,
)
    requires
        cells_after_write(before, x2, y2, v2, after),
        (x, y) != (x2, y2),
        (x >= 0) == (x2 >= 0),
        (y >= 0) == (y2 >= 0),
        before.dom().contains(derive_pos_spec(x, y).2),
    ensures
        after.dom().contains(derive_pos_spec(x, y).2),
        pixel_at(after, x, y) == pixel_at(before, x, y),
{
    lemma_derive_pos_distinct(x, y, x2, y2);
    let (cx, cy, key) = derive_pos_spec(x, y);
    let (cx2, cy2, key2) = derive_pos_spec(x2, y2);
    if key2 == key {
        assert(CellKey { x: cx, y: cy } != CellKey { x: cx2, y: cy2 });
        assert(after[key] == before[key].insert(CellKey { x: cx2, y: cy2 }, v2));
    } else {
        assert(after[key] == before[key]);
    }
}

/// A pixel written at `(x, y)` is read back there after a later write at
/// another position whose coordinates have the same signs, whatever cells
/// that write loaded; the cell of `(x, y)` stays loaded, so a read of it does
/// not load it again (see `Grid::get_pixel`).
pub proof fn lemma_get_after_set(
    before: Map<GridKey, Map<CellKey, PixelView>>,
    x: i64,
    y: i64,
    v: PixelView,
    mid: Map<GridKey, Map<CellKey, PixelView>>,
    x2: i64,
    y2: i64,
    v2: PixelView,
    after: Map<GridKey, Map<CellKey, PixelView>>,
)
    requires
        cells_after_write(before, x, y, v, mid),
        cells_after_write(mid, x2, y2, v2, after),
        (x, y) != (x2, y2),
        (x >= 0) == (x2 >= 0),
        (y >= 0) == (y2 >= 0),
    ensures
        after.dom().contains(derive_pos_spec(x, y).2),
        pixel_at(after, x, y) == Some(v),
{
    assert(mid.dom().contains(derive_pos_spec(x, y).2));
    lemma_set_keeps_other_pixels(mid, x2, y2, v2, after, x, y);
}

} // verus!
