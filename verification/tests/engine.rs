use colony::engine::universe::{
    DiskStorageCell, DiskStorageEngine, DiskStorageEngineParams, Grid, GridKey, Pixel, StorageCell,
    StorageEngine, Universe, UniverseError, load_or_empty,
};
use colony::engine::physics::{RichPixel, StandardPhysics, StandardPhysicsData, PhysicsHooks};
use colony::engine::gamerules::{find_kind, GameRules, Position, PhysicsKind, ReactivationRule};
use colony::engine::gamerules_test::{GameRulesTest, KindSand};
use colony::engine::behavior::{Behavior, SetPixel};

/// A disk storage engine whose directory holds no cell files: every cell it
/// loads is empty.
struct EmptyDirEngine {
    disk: DiskStorageEngine,
    loads: usize,
}

impl StorageEngine for EmptyDirEngine {
    fn load(&mut self, _k: GridKey) -> Result<DiskStorageCell, UniverseError> {
        self.loads += 1;
        Ok(load_or_empty(None))
    }
}

/// An engine that cannot load anything.
struct FailingEngine;

impl StorageEngine for FailingEngine {
    fn load(&mut self, _k: GridKey) -> Result<DiskStorageCell, UniverseError> {
        Err(UniverseError::Unimplemented("no storage"))
    }
}

fn empty_engine() -> EmptyDirEngine {
    let params = DiskStorageEngineParams { dir: "/tmp/data/".to_string() };
    EmptyDirEngine { disk: DiskStorageEngine::new(params), loads: 0 }
}

#[test]
fn it_works() {
    let params = DiskStorageEngineParams { dir: "/tmp/data/".to_string() };
    let univ = Universe::new(Grid::new(EmptyDirEngine { disk: DiskStorageEngine::new(params), loads: 0 }));
    let mut rules = GameRulesTest::new();
    let mut phys = StandardPhysics::create(univ, &mut rules).unwrap();
    match phys.run_tick(&mut rules) {
        Ok(_) => {}
        Err(e) => {
            panic!("err: {:?}", e);
        }
    }
}

#[test]
fn engine_tick_sets_the_sand_pixel() {
    let univ = Universe::new(Grid::new(empty_engine()));
    let mut rules = GameRulesTest::new();
    let mut phys = StandardPhysics::create(univ, &mut rules).unwrap();
    assert!(phys.is_performable());
    phys.run_tick(&mut rules).unwrap();
    let p = phys.get_pixel(&Position::new(0, 0)).unwrap();
    assert_eq!(p.kind, "sand");
    assert_eq!(p.data, "");
    assert_eq!(phys.borrow_universe().grid.derive_pos(0, 0), (0, 0, GridKey { x: 0, y: 0 }));
}

#[test]
fn engine_disk_engine_keeps_its_dir() {
    let e = empty_engine();
    assert_eq!(e.disk.dir_path(), "/tmp/data/");
}

#[test]
fn engine_derive_pos_truncates_toward_zero() {
    let g = Grid::new(empty_engine());
    assert_eq!(g.derive_pos(23, 7), (3, 7, GridKey { x: 2, y: 0 }));
    assert_eq!(g.derive_pos(-23, -7), (3, 7, GridKey { x: -2, y: 0 }));
    assert_eq!(g.derive_pos(-10, 10), (0, 0, GridKey { x: -1, y: 1 }));
    // Opposite signs with the same distance share a place.
    assert_eq!(g.derive_pos(5, 0), g.derive_pos(-5, 0));
    assert_eq!(g.derive_pos(i64::MIN, i64::MAX), (8, 7, GridKey { x: -922337203685477580, y: 922337203685477580 }));
}

#[test]
fn engine_grid_read_after_write() {
    let mut g = Grid::new(empty_engine());
    assert_eq!(g.get_pixel(12, 34).unwrap().kind, "");
    g.set_pixel(12, 34, Pixel::new("water".to_string())).unwrap();
    g.set_pixel(13, 34, Pixel::new("sand".to_string())).unwrap();
    assert_eq!(g.get_pixel(12, 34).unwrap().kind, "water");
    assert_eq!(g.get_pixel(13, 34).unwrap().kind, "sand");
    assert_eq!(g.get_pixel(14, 34).unwrap().kind, "");
    // a write in another storage cell leaves both pixels as they were
    g.set_pixel(250, 1034, Pixel::new("rock".to_string())).unwrap();
    assert_eq!(g.get_pixel(12, 34).unwrap().kind, "water");
    assert_eq!(g.get_pixel(13, 34).unwrap().kind, "sand");
    assert_eq!(g.get_pixel(250, 1034).unwrap().kind, "rock");
}

#[test]
fn engine_grid_load_failure_is_reported() {
    let mut g = Grid::new(FailingEngine);
    match g.get_pixel(1, 1) {
        Err(UniverseError::Unimplemented(m)) => assert_eq!(m, "no storage"),
        other => panic!("unexpected: {:?}", other),
    }
    assert!(g.set_pixel(1, 1, Pixel::new("sand".to_string())).is_err());
}

#[test]
fn engine_cell_get_set_save() {
    let mut c = DiskStorageCell::new();
    assert_eq!(c.get_pixel(3, 4).unwrap().kind, "");
    c.set_pixel(3, 4, Pixel::new("rock".to_string())).unwrap();
    c.set_pixel(3, 4, Pixel::new("sand".to_string())).unwrap();
    assert_eq!(c.get_pixel(3, 4).unwrap().kind, "sand");
    assert_eq!(c.get_pixel(4, 3).unwrap().kind, "");
    match c.save() {
        Err(UniverseError::Unimplemented(m)) => assert_eq!(m, "DiskStorageCell.save"),
        _ => panic!("save must fail"),
    }
}

#[test]
fn engine_load_or_empty_keeps_what_was_read() {
    let mut c = DiskStorageCell::new();
    c.set_pixel(1, 2, Pixel::new("sand".to_string())).unwrap();
    let r = load_or_empty(Some(c));
    assert_eq!(r.get_pixel(1, 2).unwrap().kind, "sand");
    let e = load_or_empty(None);
    assert_eq!(e.get_pixel(1, 2).unwrap().kind, "");
}

#[test]
fn engine_active_pixels_are_not_repeated() {
    let mut d = StandardPhysicsData::new();
    let px = |x: i64| RichPixel { x, y: 2, pixel: Pixel::new("sand".to_string()) };
    d.push_active_pixel(px(1)).unwrap();
    d.push_active_pixel(px(1)).unwrap();
    d.push_active_pixel(px(3)).unwrap();
    assert_eq!(d.active_pixels(), &vec![Position::new(1, 2), Position::new(3, 2)]);

    let univ = Universe::new(Grid::new(empty_engine()));
    let mut rules = GameRulesTest::new();
    let mut phys = StandardPhysics::create(univ, &mut rules).unwrap();
    let again = SetPixel::new(Position::new(0, 0), KindSand::new_pixel());
    phys.handle_rich_behaviors(vec![again]).unwrap();
    phys.run_tick(&mut rules).unwrap();
    assert_eq!(phys.data().active_pixels(), &vec![Position::new(0, 0)]);
    assert!(phys.data().active_pixels().len() == 1);
}

#[test]
fn engine_loading_queues_an_empty_list() {
    // The rules resume a game with no behavior; an empty list cannot be carried out.
    let d = StandardPhysicsData::new();
    let univ = Universe::new(Grid::new(empty_engine()));
    let mut rules = GameRulesTest::new();
    let phys = StandardPhysics::load(univ, d, &mut rules).unwrap();
    assert!(!phys.is_performable());
}

#[test]
fn engine_rich_pixel_positions() {
    let p = RichPixel { x: 5, y: -3, pixel: Pixel::new("sand".to_string()) };
    assert_eq!(p.pos(), Position::new(5, -3));
    assert_eq!(p.relative_pos(2, -1), Position::new(7, -4));
}

#[test]
fn engine_sand_falls_then_rests() {
    let mut k = KindSand;
    assert_eq!(k.kind(), "sand");
    assert_eq!(KindSand::new_pixel().kind, "sand");
    let p = RichPixel { x: 4, y: 9, pixel: KindSand::new_pixel() };
    let v = k.handle_pixel(&p).unwrap();
    assert_eq!(v.len(), 2);
    assert!(matches!(v[0], Behavior::MoveSelf(_)));
    assert!(matches!(v[1], Behavior::DeactivateSelf(_)));
    let _ = ReactivationRule::OnEdgeChange;
}

#[test]
fn engine_unperformable_queue_is_detected() {
    let univ = Universe::new(Grid::new(empty_engine()));
    let mut rules = GameRulesTest::new();
    let mut phys = StandardPhysics::create(univ, &mut rules).unwrap();
    phys.handle_rich_behaviors(vec![]).unwrap();
    assert!(!phys.is_performable());
    let univ2 = Universe::new(Grid::new(empty_engine()));
    let mut phys2 = StandardPhysics::create(univ2, &mut rules).unwrap();
    let sand = RichPixel { x: 0, y: 1, pixel: KindSand::new_pixel() };
    phys2.handle_rich_behaviors(KindSand.handle_pixel(&sand).unwrap()).unwrap();
    assert!(!phys2.is_performable());
}

#[test]
fn engine_save_is_unsupported() {
    let univ = Universe::new(Grid::new(empty_engine()));
    let mut rules = GameRulesTest::new();
    let mut phys = StandardPhysics::create(univ, &mut rules).unwrap();
    match phys.save() {
        Err(UniverseError::Unimplemented(m)) => assert_eq!(m, "StandardPhysics.save"),
        _ => panic!("save must fail"),
    }
    assert!(rules.load_game().unwrap().is_empty());
    assert!(matches!(rules.new_game().unwrap()[0], Behavior::SetPixel(_)));
    let b = SetPixel::new(Position::new(3, 3), Pixel::new("sand".to_string()));
    assert_eq!(b.get_lock_requirements(&phys), vec![GridKey { x: 0, y: 0 }]);
}

#[test]
fn engine_storage_cell_in_place() {
    let mut g = Grid::new(empty_engine());
    {
        let c = g.get_storage_cell(GridKey { x: 3, y: -1 }).unwrap();
        c.set_pixel(4, 5, Pixel::new("rock".to_string())).unwrap();
    }
    // (34, -15) is filed in cell (3, -1) at (4, 5)
    assert_eq!(g.get_pixel(34, -15).unwrap().kind, "rock");
    assert!(Grid::new(FailingEngine).get_storage_cell(GridKey { x: 0, y: 0 }).is_err());
}

#[test]
fn engine_find_kind_by_name() {
    let mut kinds = vec![KindSand, KindSand];
    assert_eq!(find_kind(&mut kinds, &"sand".to_string()), Some(0));
    assert_eq!(find_kind(&mut kinds, &"rock".to_string()), None);
    let mut none: Vec<KindSand> = vec![];
    assert_eq!(find_kind(&mut none, &"sand".to_string()), None);
}

#[test]
fn engine_with_behaviors_queues_or_fails() {
    let univ = Universe::new(Grid::new(empty_engine()));
    let b = vec![SetPixel::new(Position::new(1, 2), KindSand::new_pixel())];
    let mut phys = StandardPhysics::with_behaviors(univ, StandardPhysicsData::new(), Ok(b)).unwrap();
    assert!(phys.is_performable());
    assert!(phys.data().active_pixels().is_empty());
    phys.flush_queue();
    assert_eq!(phys.data().active_pixels(), &vec![Position::new(1, 2)]);
    let univ2 = Universe::new(Grid::new(empty_engine()));
    match StandardPhysics::with_behaviors(univ2, StandardPhysicsData::new(), Err(UniverseError::GridNotLoaded)) {
        Err(UniverseError::GridNotLoaded) => {}
        _ => panic!("the rules' error must come back"),
    }
}

#[test]
fn engine_set_pixel_in_loaded_cell_succeeds() {
    let mut phys = StandardPhysics::create(Universe::new(Grid::new(FailingEngine)), &mut GameRulesTest::new()).unwrap();
    // nothing can be loaded: the write fails and nothing becomes active
    assert!(phys.set_pixel(&Position::new(5, 5), KindSand::new_pixel()).is_err());
    assert!(phys.data().active_pixels().is_empty());
    let mut rules = GameRulesTest::new();
    let mut ok = StandardPhysics::create(Universe::new(Grid::new(empty_engine())), &mut rules).unwrap();
    ok.run_tick(&mut rules).unwrap();
    assert!(ok.set_pixel(&Position::new(3, 4), KindSand::new_pixel()).is_ok());
    assert_eq!(ok.get_pixel(&Position::new(3, 4)).unwrap().kind, "sand");
}

#[test]
fn engine_flush_writes_the_first_behavior_that_succeeds() {
    let univ = Universe::new(Grid::new(empty_engine()));
    let mut phys = StandardPhysics::with_behaviors(univ, StandardPhysicsData::new(), Ok(vec![])).unwrap();
    phys.flush_queue();
    phys.handle_rich_behaviors(vec![
        SetPixel::new(Position::new(1, 1), Pixel::new("rock".to_string())),
        SetPixel::new(Position::new(2, 2), Pixel::new("sand".to_string())),
    ])
    .unwrap();
    phys.flush_queue();
    assert_eq!(phys.data().active_pixels(), &vec![Position::new(1, 1)]);
    assert_eq!(phys.get_pixel(&Position::new(1, 1)).unwrap().kind, "rock");
    assert_eq!(phys.get_pixel(&Position::new(2, 2)).unwrap().kind, "");
    // with a storage engine that loads nothing, every behavior fails and nothing changes
    let mut none = StandardPhysics::with_behaviors(
        Universe::new(Grid::new(FailingEngine)),
        StandardPhysicsData::new(),
        Ok(vec![SetPixel::new(Position::new(1, 1), Pixel::new("rock".to_string()))]),
    )
    .unwrap();
    none.flush_queue();
    assert!(none.data().active_pixels().is_empty());
}
