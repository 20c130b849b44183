use pixel_cells::cells::{BwPixel, Cell, Cell2d, Color, ColorPixel, IVec2, Pixel};

#[test]
fn moore_neighbours_in_fixed_order() {
    let cell = Cell2d(IVec2::new(0, 0));
    let expected = vec![
        IVec2::new(-1, 0),
        IVec2::new(-1, 1),
        IVec2::new(0, 1),
        IVec2::new(1, 1),
        IVec2::new(1, 0),
        IVec2::new(1, -1),
        IVec2::new(0, -1),
        IVec2::new(-1, -1),
    ];
    assert_eq!(cell.neighbour_coords(), expected);
}

#[test]
fn moore_neighbours_are_offsets_of_the_cell() {
    let cell = Cell2d(IVec2::new(5, -3));
    let n = cell.neighbour_coords();
    assert_eq!(n.len(), 8);
    assert_eq!(n[0], IVec2::new(4, -3));
    assert_eq!(n[3], IVec2::new(6, -2));
    assert_eq!(n[7], IVec2::new(4, -4));
    assert_eq!(*cell.coords(), IVec2::new(5, -3));
}

#[test]
fn moore_neighbours_wrap_at_grid_edge() {
    let cell = Cell2d(IVec2::new(i32::MAX, i32::MIN));
    let n = cell.neighbour_coords();
    assert_eq!(n[4], IVec2::new(i32::MIN, i32::MIN));
    assert_eq!(n[6], IVec2::new(i32::MAX, i32::MAX));
}

#[test]
fn bw_appearance_distinguishes_values() {
    let alive = BwPixel(true);
    let dead = BwPixel(false);
    assert_ne!(alive.color(), dead.color());
    assert_eq!(alive.color(), Color::white());
    assert_eq!(dead.color(), Color::black());
    assert_eq!(alive.color(), alive.color());
    assert!(alive.same_value(&BwPixel::from(true)));
    assert!(!alive.same_value(&dead));
}

#[test]
fn color_pixel_appearance_is_its_color() {
    let c = Color { r: 10, g: 20, b: 30, a: 40 };
    let p = ColorPixel::from(c);
    assert_eq!(p.color(), c);
    assert!(!p.same_value(&ColorPixel(Color::black())));
}
