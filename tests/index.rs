use pixel_cells::cells::{Cell2d, IVec2};
use pixel_cells::cells::coord_key;
use pixel_cells::map::{CellMap, Entity, Map2D};
use pixel_cells::systems::{handle_new_pixels, handle_removed_pixels, Conflict};

#[test]
fn insert_evicts_previous_occupant() {
    let mut m = Map2D::new();
    let c = IVec2::new(3, 4);
    assert_eq!(m.insert_cell(c, Entity(1)), None);
    assert_eq!(m.insert_cell(c, Entity(2)), Some(Entity(1)));
    assert_eq!(m.get_cell(&c), Some(Entity(2)));
}

#[test]
fn lookup_of_absent_coordinate_is_none() {
    let mut m = Map2D::new();
    m.insert_cell(IVec2::new(0, 0), Entity(1));
    assert_eq!(m.get_cell(&IVec2::new(0, 1)), None);
    assert_eq!(m.remove_cell(&IVec2::new(0, 1)), None);
    assert_eq!(m.remove_cell(&IVec2::new(0, 0)), Some(Entity(1)));
    assert_eq!(m.get_cell(&IVec2::new(0, 0)), None);
}

#[test]
fn distinct_coordinates_do_not_collide() {
    let mut m = Map2D::new();
    m.insert_cell(IVec2::new(0, -1), Entity(1));
    m.insert_cell(IVec2::new(-1, 0), Entity(2));
    m.insert_cell(IVec2::new(i32::MIN, i32::MAX), Entity(3));
    m.insert_cell(IVec2::new(i32::MAX, i32::MIN), Entity(4));
    assert_eq!(m.get_cell(&IVec2::new(0, -1)), Some(Entity(1)));
    assert_eq!(m.get_cell(&IVec2::new(-1, 0)), Some(Entity(2)));
    assert_eq!(m.get_cell(&IVec2::new(i32::MIN, i32::MAX)), Some(Entity(3)));
    assert_eq!(m.get_cell(&IVec2::new(i32::MAX, i32::MIN)), Some(Entity(4)));
    assert_ne!(coord_key(&IVec2::new(0, -1)), coord_key(&IVec2::new(-1, 0)));
}

#[test]
fn lookup_many_skips_absent() {
    let mut m = Map2D::new();
    m.insert_cell(IVec2::new(1, 1), Entity(7));
    m.insert_cell(IVec2::new(2, 2), Entity(8));
    let found = m.get_cell_entities(&vec![IVec2::new(2, 2), IVec2::new(5, 5), IVec2::new(1, 1)]);
    assert_eq!(found, vec![Entity(8), Entity(7)]);
}

#[test]
fn remove_entities_with_empty_set_changes_nothing() {
    let mut m = Map2D::new();
    m.insert_cell(IVec2::new(1, 1), Entity(7));
    m.remove_entities(&vec![]);
    assert_eq!(m.get_cell(&IVec2::new(1, 1)), Some(Entity(7)));
}

#[test]
fn remove_entities_removes_only_present() {
    let mut m = Map2D::new();
    m.insert_cell(IVec2::new(1, 1), Entity(7));
    m.insert_cell(IVec2::new(2, 2), Entity(8));
    m.insert_cell(IVec2::new(3, 3), Entity(9));
    m.remove_entities(&vec![Entity(8), Entity(100), Entity(9)]);
    assert_eq!(m.get_cell(&IVec2::new(1, 1)), Some(Entity(7)));
    assert_eq!(m.get_cell(&IVec2::new(2, 2)), None);
    assert_eq!(m.get_cell(&IVec2::new(3, 3)), None);
}

#[test]
fn clear_empties_the_index() {
    let mut m = Map2D::new();
    m.insert_cell(IVec2::new(1, 1), Entity(7));
    m.clear();
    assert_eq!(m.get_cell(&IVec2::new(1, 1)), None);
}

#[test]
fn new_cells_are_registered_and_conflicts_reported() {
    let mut m = Map2D::new();
    let added = vec![
        (Entity(1), Cell2d(IVec2::new(0, 0))),
        (Entity(2), Cell2d(IVec2::new(1, 0))),
        (Entity(3), Cell2d(IVec2::new(0, 0))),
        (Entity(3), Cell2d(IVec2::new(0, 0))),
    ];
    let conflicts = handle_new_pixels(&added, &mut m);
    assert_eq!(
        conflicts,
        vec![Conflict { entity: Entity(3), replaced: Entity(1), coords: IVec2::new(0, 0) }]
    );
    assert_eq!(m.get_cell(&IVec2::new(0, 0)), Some(Entity(3)));
    assert_eq!(m.get_cell(&IVec2::new(1, 0)), Some(Entity(2)));
}

#[test]
fn removed_cells_leave_the_index() {
    let mut m = Map2D::new();
    m.insert_cell(IVec2::new(0, 0), Entity(1));
    m.insert_cell(IVec2::new(1, 0), Entity(2));
    handle_removed_pixels(&vec![], &mut m);
    assert_eq!(m.get_cell(&IVec2::new(0, 0)), Some(Entity(1)));
    handle_removed_pixels(&vec![Entity(1)], &mut m);
    assert_eq!(m.get_cell(&IVec2::new(0, 0)), None);
    assert_eq!(m.get_cell(&IVec2::new(1, 0)), Some(Entity(2)));
}

#[test]
fn default_index_is_empty() {
    let m: CellMap<Cell2d> = CellMap::default();
    assert_eq!(m.get_cell(&IVec2::new(0, 0)), None);
}
