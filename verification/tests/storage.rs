use colony::storage_thread::{DefaultMapFactory, Error, GridFactory, StorageGridData, StorageManager};
use colony::structs::{Cell, CellKey, ChanError, GridKey, Position};

fn no_files(_k: GridKey) -> Result<StorageGridData, Error> {
    Err(Error::NotFound("no grid files".to_string()))
}

fn cell(terrain: u64) -> Cell {
    Cell { terrain, ground: 0, structure_id: 0, is_structure_center: false }
}

#[test]
fn grid_data_grows_on_set() {
    let mut g = StorageGridData::new((3, 3));
    assert_eq!(g.get_cell(CellKey { x: 2, y: 1 }).unwrap(), Cell::default());
    g.set_cell(CellKey { x: 2, y: 1 }, cell(5)).unwrap();
    assert_eq!(g.get_cell(CellKey { x: 2, y: 1 }).unwrap(), cell(5));
    assert_eq!(g.get_cell(CellKey { x: 2, y: 0 }).unwrap(), Cell::default());
    assert_eq!(g.get_cell(CellKey { x: 0, y: 0 }).unwrap(), Cell::default());
    assert_eq!(g.get_cell(CellKey { x: 9, y: 9 }).unwrap(), Cell::default());
}

#[test]
fn default_map_is_a_checkerboard_of_lines() {
    let mut f = DefaultMapFactory::new();
    let g = f.gen(GridKey { x: 0, y: 0 }, (12, 12));
    assert_eq!(g.get_cell(CellKey { x: 0, y: 5 }).unwrap().terrain, 1);
    assert_eq!(g.get_cell(CellKey { x: 5, y: 0 }).unwrap().terrain, 1);
    assert_eq!(g.get_cell(CellKey { x: 10, y: 10 }).unwrap().terrain, 1);
    assert_eq!(g.get_cell(CellKey { x: 10, y: 5 }).unwrap().terrain, 0);
    assert_eq!(g.get_cell(CellKey { x: 3, y: 4 }).unwrap().terrain, 0);
    let g2 = f.gen(GridKey { x: -1, y: 2 }, (10, 10));
    // real coordinates (-10 + x, 20 + y): multiples of ten on both axes at x = 0, y = 0
    assert_eq!(g2.get_cell(CellKey { x: 0, y: 0 }).unwrap().terrain, 1);
    assert_eq!(g2.get_cell(CellKey { x: 0, y: 3 }).unwrap().terrain, 0);
}

#[test]
fn manager_files_positions_under_grid_keys() {
    let m = StorageManager::new();
    assert_eq!(m.get_keys(Position { x: 0, y: 0 }), (GridKey { x: 0, y: 0 }, CellKey { x: 0, y: 0 }));
    assert_eq!(m.get_keys(Position { x: 250, y: 99 }), (GridKey { x: 2, y: 0 }, CellKey { x: 50, y: 99 }));
    assert_eq!(m.get_keys(Position { x: -1, y: -150 }), (GridKey { x: -1, y: -2 }, CellKey { x: 99, y: 50 }));
    // a negative multiple of the grid size lands at the far edge of the grid before it
    assert_eq!(m.get_keys(Position { x: -100, y: 0 }), (GridKey { x: -2, y: 0 }, CellKey { x: 100, y: 0 }));
}

#[test]
fn manager_generates_missing_grids() {
    let mut m = StorageManager::new();
    assert_eq!(m.get_cell(Position { x: 0, y: 0 }, &no_files).unwrap().terrain, 1);
    assert_eq!(m.get_cell(Position { x: 0, y: 1 }, &no_files).unwrap().terrain, 1);
    assert_eq!(m.get_cell(Position { x: 3, y: 4 }, &no_files).unwrap().terrain, 0);
    assert_eq!(m.get_cell(Position { x: 30, y: 40 }, &no_files).unwrap().terrain, 1);
}

#[test]
fn manager_set_then_get() {
    let mut m = StorageManager::new();
    m.set_cell(Position { x: 7, y: -3 }, cell(9), &no_files).unwrap();
    assert_eq!(m.get_cell(Position { x: 7, y: -3 }, &no_files).unwrap(), cell(9));
    assert_eq!(m.get_cell(Position { x: 8, y: -3 }, &no_files).unwrap().terrain, 0);
}

#[test]
fn manager_uses_loaded_grids() {
    let mut m = StorageManager::new();
    let loader = |_k: GridKey| -> Result<StorageGridData, Error> {
        let mut g = StorageGridData::new((100, 100));
        g.set_cell(CellKey { x: 1, y: 2 }, cell(42)).unwrap();
        Ok(g)
    };
    assert_eq!(m.get_cell(Position { x: 1, y: 2 }, &loader).unwrap(), cell(42));
    assert_eq!(m.get_cell(Position { x: 0, y: 0 }, &loader).unwrap(), Cell::default());
}

#[test]
fn manager_area_row_by_row() {
    let mut m = StorageManager::new();
    let area = m.get_area(Position { x: -1, y: 9 }, Position { x: 1, y: 11 }, &no_files);
    let positions: Vec<Position> = area.iter().map(|(p, _)| *p).collect();
    assert_eq!(
        positions,
        vec![Position { x: -1, y: 9 }, Position { x: -1, y: 10 }, Position { x: 0, y: 9 }, Position { x: 0, y: 10 }]
    );
    assert_eq!(area[0].1.terrain, 0);
    assert_eq!(area[1].1.terrain, 0);
    assert_eq!(area[2].1.terrain, 1);
    assert!(m.get_area(Position { x: 3, y: 3 }, Position { x: 3, y: 9 }, &no_files).is_empty());
    assert!(m.get_area(Position { x: 5, y: 5 }, Position { x: 2, y: 2 }, &no_files).is_empty());
}

#[test]
fn manager_range_checks() {
    let m = StorageManager::new();
    assert!(m.storable_pos(Position { x: 0, y: 0 }));
    assert!(!m.storable_pos(Position { x: i64::MAX, y: 0 }));
    assert!(!m.storable_pos(Position { x: 0, y: i64::MIN + 5 }));
    assert!(m.can_get_area(Position { x: 0, y: 0 }, Position { x: 10, y: 10 }));
    assert!(m.can_get_area(Position { x: 5, y: 5 }, Position { x: 2, y: 2 }));
    assert!(!m.can_get_area(Position { x: 5, y: 0 }, Position { x: 2, y: 2 }));
    assert!(!m.can_get_area(Position { x: 0, y: 0 }, Position { x: 1 << 40, y: 1 << 40 }));
}

#[test]
fn manager_starting_entities() {
    let ents = StorageManager::get_all_entities();
    assert_eq!(ents.len(), 1);
    assert_eq!(ents[0].id, 1);
    assert_eq!(ents[0].pos, Position { x: 0, y: 0 });
    assert_eq!(ents[0].kind, "human");
    assert_eq!(ents[0].data, "{}");
}

#[test]
fn storage_errors_from_channel_errors() {
    match Error::from(ChanError::SendError("GetCell")) {
        Error::SendError(p) => assert_eq!(p, "GetCell"),
        _ => panic!("expected a send error"),
    }
    match Error::from(ChanError::RecvError("GetArea")) {
        Error::RecvError(p) => assert_eq!(p, "GetArea"),
        _ => panic!("expected a receive error"),
    }
    let _ = (Error::Unimplemented("x"), Error::InternalParseError("y".to_string()));
}

#[test]
fn storage_refuses_only_the_grids_at_the_ends() {
    let m = StorageManager::new();
    // the grid starting at ...700 ends inside i64; the one starting at ...800 does not
    assert!(m.storable_pos(Position { x: i64::MAX - 107, y: 0 }));
    assert!(!m.storable_pos(Position { x: i64::MAX - 7, y: 0 }));
    // the lowest grid whose start is an i64 starts at -...800
    assert!(m.storable_pos(Position { x: 0, y: i64::MIN + 9 }));
    assert!(!m.storable_pos(Position { x: 0, y: i64::MIN + 8 }));
    // an area is readable when its first and last positions are
    let hi = i64::MAX - 107;
    assert!(m.can_get_area(Position { x: hi - 10, y: 0 }, Position { x: hi + 1, y: 2 }));
    // the last position read, MAX - 7, lies in the top grid
    assert!(!m.can_get_area(Position { x: hi - 10, y: 0 }, Position { x: i64::MAX - 6, y: 2 }));
}
