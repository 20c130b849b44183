use pixel_cells::cells::{BwPixel, Cell2d, Color, IVec2, Pixel};
use pixel_cells::map::Entity;
use pixel_cells::systems::{
    color_sprites, handle_pixel, handle_pixels, SimulationBatch, SimulationPause, Snapshot, Sprite,
    Visibility,
};

fn grid(n: i32, alive_every: i32) -> Vec<(Entity, Cell2d, BwPixel)> {
    let mut cells = Vec::new();
    for i in 0..n {
        cells.push((Entity(i as u64), Cell2d(IVec2::new(i % 10, i / 10)), BwPixel(i % alive_every == 0)));
    }
    cells
}

#[test]
fn unchanged_cells_are_not_written() {
    let cells = grid(150, 3);
    let snap = Snapshot::build(&cells);
    assert!(handle_pixels(&cells, &snap, None, None).is_empty());
    assert!(handle_pixels(&cells, &snap, None, Some(&SimulationBatch)).is_empty());
}

#[test]
fn changed_and_unknown_cells_are_written() {
    let before = grid(5, 2);
    let snap = Snapshot::build(&before);
    let mut after = before.clone();
    after[1].2 = BwPixel(true);
    after.push((Entity(99), Cell2d(IVec2::new(50, 50)), BwPixel(false)));
    let writes = handle_pixels(&after, &snap, None, None);
    assert_eq!(writes, vec![(Entity(1), BwPixel(true)), (Entity(99), BwPixel(false))]);
}

#[test]
fn sequential_and_batched_passes_agree() {
    let before = grid(200, 2);
    let snap = Snapshot::build(&before);
    let after = grid(200, 3);
    let seq = handle_pixels(&after, &snap, None, None);
    let bat = handle_pixels(&after, &snap, None, Some(&SimulationBatch));
    assert!(!seq.is_empty());
    assert_eq!(seq, bat);
}

#[test]
fn paused_pass_writes_nothing() {
    let before = grid(20, 2);
    let snap = Snapshot::build(&before);
    let after = grid(20, 3);
    assert!(handle_pixels(&after, &snap, Some(&SimulationPause), None).is_empty());
    assert!(handle_pixels(&after, &snap, Some(&SimulationPause), Some(&SimulationBatch)).is_empty());
}

#[test]
fn single_cell_decision() {
    let cells = vec![(Entity(1), Cell2d(IVec2::new(0, 0)), BwPixel(true))];
    let snap = Snapshot::build(&cells);
    assert_eq!(snap.get(&IVec2::new(0, 0)), Some(BwPixel(true)));
    assert_eq!(snap.get(&IVec2::new(1, 0)), None);
    assert_eq!(handle_pixel(&Cell2d(IVec2::new(0, 0)), &BwPixel(true), &snap), None);
    assert_eq!(handle_pixel(&Cell2d(IVec2::new(0, 0)), &BwPixel(false), &snap), Some(BwPixel(false)));
    assert_eq!(handle_pixel(&Cell2d(IVec2::new(1, 0)), &BwPixel(true), &snap), Some(BwPixel(true)));
}

#[test]
fn later_cell_wins_in_snapshot() {
    let cells = vec![
        (Entity(1), Cell2d(IVec2::new(0, 0)), BwPixel(true)),
        (Entity(2), Cell2d(IVec2::new(0, 0)), BwPixel(false)),
    ];
    let snap = Snapshot::build(&cells);
    assert_eq!(snap.get(&IVec2::new(0, 0)), Some(BwPixel(false)));
}

#[test]
fn changed_values_are_repainted_and_shown() {
    let grey = Color { r: 9, g: 9, b: 9, a: 9 };
    let mut q = vec![
        (BwPixel(true), Visibility::Hidden, Sprite { color: grey }),
        (BwPixel(false), Visibility::Inherited, Sprite { color: grey }),
    ];
    color_sprites(&mut q, None);
    assert_eq!(q[0], (BwPixel(true), Visibility::Inherited, Sprite { color: BwPixel(true).color() }));
    assert_eq!(q[1], (BwPixel(false), Visibility::Inherited, Sprite { color: Color::black() }));
    let mut q2 = vec![(BwPixel(true), Visibility::Visible, Sprite { color: grey })];
    color_sprites(&mut q2, Some(&SimulationBatch));
    assert_eq!(q2[0].1, Visibility::Inherited);
    assert_eq!(q2[0].2.color, Color::white());
}
