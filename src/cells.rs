//! Cell coordinates, neighbourhood topology and pixel values.
use vstd::prelude::*;

verus! {

/// A 2-D integer grid coordinate.
#[derive(Clone, Copy, Debug, PartialEq, Eq, Hash, Structural)]
pub struct IVec2 {
    pub x: i32,
    pub y: i32,
}

impl IVec2 {
    pub fn new(x: i32, y: i32) -> (r: IVec2)
        ensures
            r.x == x,
            r.y == y,
    {
        IVec2 { x, y }
    }

    /// Component-wise sum, wrapping at the bounds of `i32` so that the
    /// neighbourhood is total over the whole grid.
    pub open spec fn offset_spec(self, dx: i32, dy: i32) -> IVec2 {
        IVec2 { x: self.x.wrapping_add(dx), y: self.y.wrapping_add(dy) }
    }

    pub fn offset(&self, dx: i32, dy: i32) -> (r: IVec2)
        ensures
            r == self.offset_spec(dx, dy),
    {
        IVec2 { x: self.x.wrapping_add(dx), y: self.y.wrapping_add(dy) }
    }
}

/// An addressable cell: an identity (its coordinate) and a neighbourhood
/// computed from that identity alone. Coordinates are indexed through an
/// injective integer key.
pub trait Cell: Sized {
    type Coords: Copy;

    spec fn coords_spec(&self) -> Self::Coords;

    spec fn neighbours_spec(&self) -> Seq<Self::Coords>;

    spec fn key_spec(c: Self::Coords) -> i64;

    /// Distinct coordinates have distinct keys.
    proof fn lemma_key_injective(a: Self::Coords, b: Self::Coords)
        ensures
            Self::key_spec(a) == Self::key_spec(b) ==> a == b,
    ;

    /// The cell's coordinate.
    fn coords(&self) -> (r: &Self::Coords)
        ensures
            *r == self.coords_spec(),
    ;

    /// The coordinates of the neighbouring cells, in a fixed order.
    fn neighbour_coords(&self) -> (r: Vec<Self::Coords>)
        ensures
            r@ == self.neighbours_spec(),
    ;

    /// The index key of a coordinate.
    fn key(c: &Self::Coords) -> (k: i64)
        ensures
            k == Self::key_spec(*c),
    ;
}

/// The integer that a grid coordinate packs into: `x` in the high half, `y`
/// shifted to be non-negative in the low half.
pub open spec fn key_int(c: IVec2) -> int {
    c.x as int * 0x1_0000_0000 + (c.y as int + 0x8000_0000)
}

pub open spec fn key_of(c: IVec2) -> i64 {
    key_int(c) as i64
}

pub proof fn lemma_key_range(c: IVec2)
    ensures
        i64::MIN <= key_int(c) <= i64::MAX,
        key_of(c) as int == key_int(c),
{
}

/// Distinct grid coordinates pack into distinct keys.
pub proof fn lemma_grid_key_injective(a: IVec2, b: IVec2)
    ensures
        key_of(a) == key_of(b) <==> a == b,
{
    lemma_key_range(a);
    lemma_key_range(b);
    if key_of(a) == key_of(b) {
        let ya = a.y as int + 0x8000_0000;
        let yb = b.y as int + 0x8000_0000;
        assert(a.x == b.x) by (nonlinear_arith)
            requires
                a.x as int * 0x1_0000_0000 + ya == b.x as int * 0x1_0000_0000 + yb,
                0 <= ya < 0x1_0000_0000,
                0 <= yb < 0x1_0000_0000,
        ;
    }
}

/// Packs a grid coordinate into its key.
pub fn coord_key(c: &IVec2) -> (k: i64)
    ensures
        k == key_of(*c),
{
    proof {
        lemma_key_range(*c);
    }
    (c.x as i64) * 0x1_0000_0000i64 + ((c.y as i64) + 0x8000_0000i64)
}

/// The eight Moore neighbours of `c`, in order: left, top left, top,
/// top right, right, bottom right, bottom, bottom left.
pub open spec fn moore_neighbours(c: IVec2) -> Seq<IVec2> {
    seq![
        c.offset_spec(-1i32, 0i32),
        c.offset_spec(-1i32, 1i32),
        c.offset_spec(0i32, 1i32),
        c.offset_spec(1i32, 1i32),
        c.offset_spec(1i32, 0i32),
        c.offset_spec(1i32, -1i32),
        c.offset_spec(0i32, -1i32),
        c.offset_spec(-1i32, -1i32),
    ]
}

/// A cell of the 2-D grid with the 8-connected (Moore) neighbourhood.
#[derive(Clone, Copy, Debug, PartialEq, Eq, Structural)]
pub struct Cell2d(pub IVec2);

impl Cell for Cell2d {
    type Coords = IVec2;

    open spec fn key_spec(c: IVec2) -> i64 {
        key_of(c)
    }

    proof fn lemma_key_injective(a: IVec2, b: IVec2) {
        lemma_grid_key_injective(a, b);
    }

    fn key(c: &IVec2) -> (k: i64) {
        coord_key(c)
    }

    open spec fn coords_spec(&self) -> IVec2 {
        self.0
    }

    open spec fn neighbours_spec(&self) -> Seq<IVec2> {
        moore_neighbours(self.0)
    }

    fn coords(&self) -> (r: &IVec2) {
        &self.0
    }

    fn neighbour_coords(&self) -> (r: Vec<IVec2>) {
        let c = &self.0;
        let mut v: Vec<IVec2> = Vec::with_capacity(8);
        v.push(c.offset(-1, 0));
        v.push(c.offset(-1, 1));
        v.push(c.offset(0, 1));
        v.push(c.offset(1, 1));
        v.push(c.offset(1, 0));
        v.push(c.offset(1, -1));
        v.push(c.offset(0, -1));
        v.push(c.offset(-1, -1));
        assert(v@ =~= moore_neighbours(self.0));
        v
    }
}

/// An 8-bit RGBA colour.
#[derive(Clone, Copy, Debug, PartialEq, Eq, Hash, Structural)]
pub struct Color {
    pub r: u8,
    pub g: u8,
    pub b: u8,
    pub a: u8,
}

impl Color {
    pub open spec fn white_spec() -> Color {
        Color { r: 255, g: 255, b: 255, a: 255 }
    }

    pub open spec fn black_spec() -> Color {
        Color { r: 0, g: 0, b: 0, a: 255 }
    }

    /// Opaque white, the brightest appearance.
    pub fn white() -> (c: Color)
        ensures
            c == Color::white_spec(),
    {
        Color { r: 255, g: 255, b: 255, a: 255 }
    }

    /// Opaque black, the darkest appearance.
    pub fn black() -> (c: Color)
        ensures
            c == Color::black_spec(),
    {
        Color { r: 0, g: 0, b: 0, a: 255 }
    }
}

/// The value carried by a cell, with an appearance derived from the value
/// alone.
pub trait Pixel: Sized + Copy {
    spec fn appearance(&self) -> Color;

    /// The display colour of this value.
    fn color(&self) -> (r: Color)
        ensures
            r == self.appearance(),
    ;

    /// Structural equality of two values.
    fn same_value(&self, other: &Self) -> (r: bool)
        ensures
            r == (*self == *other),
    ;
}

/// An alive (`true`) or dead (`false`) value.
#[derive(Clone, Copy, Debug, PartialEq, Eq, Structural)]
pub struct BwPixel(pub bool);

impl Pixel for BwPixel {
    open spec fn appearance(&self) -> Color {
        if self.0 {
            Color::white_spec()
        } else {
            Color::black_spec()
        }
    }

    fn color(&self) -> (r: Color) {
        if self.0 {
            Color::white()
        } else {
            Color::black()
        }
    }

    fn same_value(&self, other: &Self) -> (r: bool) {
        self.0 == other.0
    }
}

impl From<bool> for BwPixel {
    fn from(val: bool) -> (r: BwPixel) {
        BwPixel(val)
    }
}

impl vstd::std_specs::convert::FromSpecImpl<bool> for BwPixel {
    open spec fn obeys_from_spec() -> bool {
        true
    }

    open spec fn from_spec(v: bool) -> BwPixel {
        BwPixel(v)
    }
}

/// A value that carries its own colour.
#[derive(Clone, Copy, Debug, PartialEq, Eq, Structural)]
pub struct ColorPixel(pub Color);

impl Pixel for ColorPixel {
    open spec fn appearance(&self) -> Color {
        self.0
    }

    fn color(&self) -> (r: Color) {
        self.0
    }

    fn same_value(&self, other: &Self) -> (r: bool) {
        self.0 == other.0
    }
}

impl From<Color> for ColorPixel {
    fn from(val: Color) -> (r: ColorPixel) {
        ColorPixel(val)
    }
}

impl vstd::std_specs::convert::FromSpecImpl<Color> for ColorPixel {
    open spec fn obeys_from_spec() -> bool {
        true
    }

    open spec fn from_spec(v: Color) -> ColorPixel {
        ColorPixel(v)
    }
}

/// Two alive/dead values look different exactly when they differ, and a
/// value always looks the same.
pub proof fn lemma_bw_appearance_pure(v: BwPixel, w: BwPixel)
    ensures
        BwPixel(true).appearance() != BwPixel(false).appearance(),
        v == w ==> v.appearance() == w.appearance(),
        v.appearance() == w.appearance() ==> v == w,
{
}

} // verus!
