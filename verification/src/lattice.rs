//! The fuel assembly and the hexagonal core that the lattice runs work on.

use crate::region::{holds, Region};
use vstd::arithmetic::div_mod::lemma_fundamental_div_mod_converse;
use vstd::prelude::*;

verus! {

/// Places along each side of the assembly.
pub const ASSEMBLY_SHAPE: usize = 17;

/// The universe that holds everything.
pub const ROOT_UNIVERSE: u32 = 0;

/// The universe of a fuel pin.
pub const PIN_UNIVERSE: u32 = 1;

/// The universe of a guide tube, or of the water round a hexagonal core.
pub const WATER_UNIVERSE: u32 = 2;

/// A guide tube or the instrument tube stands in this row and column: five
/// tubes in each of the three middle rows, and the corner tubes moved inwards.
pub open spec fn is_tube(row: int, col: int) -> bool {
    let outer = row == 2 || row == 14;
    let corner = row == 3 || row == 13;
    let middle = row == 5 || row == 8 || row == 11;
    let three = col == 5 || col == 8 || col == 11;
    ||| (outer && three)
    ||| (corner && (col == 3 || col == 13))
    ||| (middle && (three || col == 2 || col == 14))
}

fn tube_at(row: usize, col: usize) -> (r: bool)
    ensures
        r == is_tube(row as int, col as int),
{
    let three = col == 5 || col == 8 || col == 11;
    if row == 2 || row == 14 {
        three
    } else if row == 3 || row == 13 {
        col == 3 || col == 13
    } else if row == 5 || row == 8 || row == 11 {
        three || col == 2 || col == 14
    } else {
        false
    }
}

/// The rows of the assembly; `true` where a tube stands, `false` for a pin.
pub fn westinghouse_layout() -> (r: Vec<Vec<bool>>)
    ensures
        r@.len() == ASSEMBLY_SHAPE,
        forall|row: int|
            0 <= row < ASSEMBLY_SHAPE ==> (#[trigger] r@[row])@ == Seq::new(
                ASSEMBLY_SHAPE as nat,
                |col: int| is_tube(row, col),
            ),
{
    let mut out: Vec<Vec<bool>> = Vec::new();
    let mut row: usize = 0;
    while row < ASSEMBLY_SHAPE
        invariant
            row <= ASSEMBLY_SHAPE,
            out@.len() == row,
            forall|k: int|
                0 <= k < row ==> (#[trigger] out@[k])@ == Seq::new(
                    ASSEMBLY_SHAPE as nat,
                    |col: int| is_tube(k, col),
                ),
        decreases ASSEMBLY_SHAPE - row,
    {
        let mut line: Vec<bool> = Vec::new();
        let mut col: usize = 0;
        while col < ASSEMBLY_SHAPE
            invariant
                col <= ASSEMBLY_SHAPE,
                line@ == Seq::new(col as nat, |c: int| is_tube(row as int, c)),
            decreases ASSEMBLY_SHAPE - col,
        {
            line.push(tube_at(row, col));
            col += 1;
        }
        out.push(line);
        row += 1;
    }
    out
}

/// How the tubes of an assembly are taken.
#[derive(Clone, Copy, Debug, PartialEq, Eq, Structural)]
pub struct TubeChoice {
    /// Put a pin in the place of every tube.
    pub no_tubes: bool,
    /// Put a tube in the place of every pin; wins over `no_tubes`.
    pub all_tubes: bool,
}

/// The universe at a place of the assembly.
pub open spec fn assembly_universe(choice: TubeChoice, row: int, col: int) -> u32 {
    if choice.all_tubes || (is_tube(row, col) && !choice.no_tubes) {
        WATER_UNIVERSE
    } else {
        PIN_UNIVERSE
    }
}

/// The universes of the assembly, row by row.
pub fn assembly_universes(choice: TubeChoice) -> (r: Vec<u32>)
    ensures
        r@ == Seq::new(
            (ASSEMBLY_SHAPE * ASSEMBLY_SHAPE) as nat,
            |k: int| assembly_universe(choice, k / 17, k % 17),
        ),
{
    let layout = westinghouse_layout();
    let mut out: Vec<u32> = Vec::new();
    let mut row: usize = 0;
    while row < ASSEMBLY_SHAPE
        invariant
            row <= ASSEMBLY_SHAPE,
            layout@.len() == ASSEMBLY_SHAPE,
            forall|k: int|
                0 <= k < ASSEMBLY_SHAPE ==> (#[trigger] layout@[k])@ == Seq::new(
                    ASSEMBLY_SHAPE as nat,
                    |col: int| is_tube(k, col),
                ),
            out@ == Seq::new((row * 17) as nat, |k: int| assembly_universe(choice, k / 17, k % 17)),
        decreases ASSEMBLY_SHAPE - row,
    {
        let mut col: usize = 0;
        while col < ASSEMBLY_SHAPE
            invariant
                row < ASSEMBLY_SHAPE,
                col <= ASSEMBLY_SHAPE,
                layout@.len() == ASSEMBLY_SHAPE,
                layout@[row as int]@ == Seq::new(ASSEMBLY_SHAPE as nat, |c: int| is_tube(row as int, c)),
                out@ == Seq::new(
                    (row * 17 + col) as nat,
                    |k: int| assembly_universe(choice, k / 17, k % 17),
                ),
            decreases ASSEMBLY_SHAPE - col,
        {
            let mut tube = layout[row][col];
            if choice.no_tubes {
                tube = false;
            }
            if choice.all_tubes {
                tube = true;
            }
            out.push(if tube { WATER_UNIVERSE } else { PIN_UNIVERSE });
            col += 1;
        }
        row += 1;
    }
    out
}

/// How many of the first `n` places of the assembly hold a tube.
pub open spec fn tubes_below(n: nat) -> nat
    decreases n,
{
    if n == 0 {
        0
    } else {
        let k = (n - 1) as int;
        tubes_below((n - 1) as nat) + if is_tube(k / 17, k % 17) {
            1nat
        } else {
            0nat
        }
    }
}

proof fn lemma_tubes_in_row(row: int)
    requires
        0 <= row < 17,
    ensures
        tubes_below((17 * row + 17) as nat) == tubes_below((17 * row) as nat) + (if row == 2 || row == 14 {
            3nat
        } else if row == 3 || row == 13 {
            2nat
        } else if row == 5 || row == 8 || row == 11 {
            5nat
        } else {
            0nat
        }),
{
    let a = (17 * row) as nat;
    let t = |c: int| is_tube(row, c);
    assert forall|c: int| 0 <= c < 17 implies #[trigger] tubes_below((a + c + 1) as nat) == tubes_below(
        (a + c) as nat,
    ) + (if t(c) {
        1nat
    } else {
        0nat
    }) by {
        assert((a + c) / 17 == row && (a + c) % 17 == c);
    }
    assert(tubes_below((a + 0 + 1) as nat) == tubes_below(a));
    assert(tubes_below((a + 1 + 1) as nat) == tubes_below((a + 1) as nat));
    assert(tubes_below((a + 2 + 1) as nat) >= tubes_below((a + 2) as nat));
    assert(tubes_below((a + 3 + 1) as nat) >= tubes_below((a + 3) as nat));
    assert(tubes_below((a + 4 + 1) as nat) == tubes_below((a + 4) as nat));
    assert(tubes_below((a + 5 + 1) as nat) >= tubes_below((a + 5) as nat));
    assert(tubes_below((a + 6 + 1) as nat) == tubes_below((a + 6) as nat));
    assert(tubes_below((a + 7 + 1) as nat) == tubes_below((a + 7) as nat));
    assert(tubes_below((a + 8 + 1) as nat) >= tubes_below((a + 8) as nat));
    assert(tubes_below((a + 9 + 1) as nat) == tubes_below((a + 9) as nat));
    assert(tubes_below((a + 10 + 1) as nat) == tubes_below((a + 10) as nat));
    assert(tubes_below((a + 11 + 1) as nat) >= tubes_below((a + 11) as nat));
    assert(tubes_below((a + 12 + 1) as nat) == tubes_below((a + 12) as nat));
    assert(tubes_below((a + 13 + 1) as nat) >= tubes_below((a + 13) as nat));
    assert(tubes_below((a + 14 + 1) as nat) >= tubes_below((a + 14) as nat));
    assert(tubes_below((a + 15 + 1) as nat) == tubes_below((a + 15) as nat));
    assert(tubes_below((a + 16 + 1) as nat) == tubes_below((a + 16) as nat));
}

/// The assembly holds 25 tubes, so 264 of its 289 places are pins.
pub proof fn law_assembly_holds_25_tubes()
    ensures
        tubes_below((ASSEMBLY_SHAPE * ASSEMBLY_SHAPE) as nat) == 25,
{
    lemma_tubes_in_row(0);
    lemma_tubes_in_row(1);
    lemma_tubes_in_row(2);
    lemma_tubes_in_row(3);
    lemma_tubes_in_row(4);
    lemma_tubes_in_row(5);
    lemma_tubes_in_row(6);
    lemma_tubes_in_row(7);
    lemma_tubes_in_row(8);
    lemma_tubes_in_row(9);
    lemma_tubes_in_row(10);
    lemma_tubes_in_row(11);
    lemma_tubes_in_row(12);
    lemma_tubes_in_row(13);
    lemma_tubes_in_row(14);
    lemma_tubes_in_row(15);
    lemma_tubes_in_row(16);
}

/// A quarter turn and a mirror leave the layout as it is.
pub proof fn law_layout_is_symmetric(row: int, col: int)
    requires
        0 <= row < ASSEMBLY_SHAPE,
        0 <= col < ASSEMBLY_SHAPE,
    ensures
        is_tube(row, col) == is_tube(col, row),
        is_tube(row, col) == is_tube(16 - row, col),
        is_tube(row, col) == is_tube(row, 16 - col),
{
}

pub open spec fn magnitude(x: int) -> int {
    if x < 0 {
        -x
    } else {
        x
    }
}

pub open spec fn larger(a: int, b: int) -> int {
    if a < b {
        b
    } else {
        a
    }
}

/// The ring, counted from the centre, that a hexagon of axial coordinates
/// `(q, r)` lies in.
pub open spec fn hex_ring(q: int, r: int) -> int {
    larger(larger(magnitude(q), magnitude(r)), magnitude(q + r))
}

/// How many hexagons a square grid that holds the core and one more ring has
/// along each side.
pub open spec fn hex_stride(rings: int) -> int {
    2 * (rings + 1) + 1
}

/// The universe at a column and a row of that grid.
pub open spec fn hex_universe(rings: int, qi: int, ri: int) -> u32 {
    if hex_ring(qi - (rings + 1), ri - (rings + 1)) <= rings {
        PIN_UNIVERSE
    } else {
        WATER_UNIVERSE
    }
}

/// The universes of a hexagonal core and how many of them are pins.
#[derive(Clone, Debug)]
pub struct HexCore {
    pub stride: usize,
    pub universes: Vec<u32>,
    pub pins: usize,
}

/// Pins among the first `n` columns of row `r`, in closed form.
spec fn pins_in_row(rings: int, r: int, n: int) -> int {
    let first = if r < 0 {
        1 - r
    } else {
        1
    };
    let count = 2 * rings + 1 - magnitude(r);
    if magnitude(r) > rings || n <= first {
        0
    } else if n - first >= count {
        count
    } else {
        n - first
    }
}

/// Pins in the first `m` rows.
spec fn pins_in_rows(rings: int, m: nat) -> int
    decreases m,
{
    if m == 0 {
        0
    } else {
        pins_in_rows(rings, (m - 1) as nat) + pins_in_row(rings, m - 1 - (rings + 1), hex_stride(rings))
    }
}

proof fn lemma_pins_in_rows(rings: int, m: nat)
    requires
        rings >= 0,
        1 <= m <= hex_stride(rings),
    ensures
        0 <= pins_in_rows(rings, m),
        m <= rings + 2 ==> 2 * pins_in_rows(rings, m) == (m - 1) * (2 * rings + m),
        rings + 2 <= m < hex_stride(rings) ==> 2 * pins_in_rows(rings, m) == (rings + 1) * (3 * rings + 2) + (m
            - rings - 2) * (5 * rings + 3 - m),
        m == hex_stride(rings) ==> pins_in_rows(rings, m) == 3 * rings * (rings + 1) + 1,
    decreases m,
{
    reveal_with_fuel(pins_in_rows, 2);
    if m > 1 {
        lemma_pins_in_rows(rings, (m - 1) as nat);
        let r = m - 1 - (rings + 1);
        let n = m as int;
        assert((m - 1 - 1) * (2 * rings + (m - 1)) + 2 * (rings + m - 1) == (m - 1) * (2 * rings + m))
            by (nonlinear_arith)
            requires
                n == m,
        ;
        assert((rings + 2 - 1) * (2 * rings + (rings + 2)) == (rings + 1) * (3 * rings + 2)) by (nonlinear_arith);
        assert((n - 1 - rings - 2) * (5 * rings + 3 - (n - 1)) + 2 * (3 * rings + 3 - n) == (n - rings - 2) * (5
            * rings + 3 - n)) by (nonlinear_arith);
        assert(n == rings + 2 ==> (n - rings - 2) * (5 * rings + 3 - n) == 0) by (nonlinear_arith);
        assert(n - 1 == rings + 2 ==> (n - 1 - rings - 2) * (5 * rings + 3 - (n - 1)) == 0) by (nonlinear_arith);
        if m == hex_stride(rings) {
            let k = n - 1;
            assert(k == 2 * rings + 2);
            if rings > 0 {
                assert((rings + 1) * (3 * rings + 2) + (k - rings - 2) * (5 * rings + 3 - k) == 2 * (3 * rings * (
                rings + 1) + 1)) by (nonlinear_arith)
                    requires
                        k == 2 * rings + 2,
                ;
            } else {
                assert((rings + 1) * (3 * rings + 2) == 2 && 3 * rings * (rings + 1) == 0) by (nonlinear_arith)
                    requires
                        rings == 0,
                ;
            }
        }
    }
}

/// Lays out a hexagonal core of the given number of rings round its centre,
/// with one more ring of water to round the edge off.
pub fn hex_core(rings: usize) -> (r: HexCore)
    requires
        2 * (rings + 1) <= i32::MAX,
        hex_stride(rings as int) * hex_stride(rings as int) <= usize::MAX,
    ensures
        r.stride == hex_stride(rings as int),
        r.universes@ == Seq::new(
            (r.stride * r.stride) as nat,
            |k: int| hex_universe(rings as int, k % r.stride as int, k / r.stride as int),
        ),
        r.pins == 3 * rings * (rings + 1) + 1,
{
    let n: i64 = rings as i64 + 1;
    let stride: usize = 2 * (rings + 1) + 1;
    let ghost v = rings as int;
    let mut universes: Vec<u32> = Vec::new();
    let mut pins: usize = 0;
    let mut ri: usize = 0;
    while ri < stride
        invariant
            v == rings,
            n == v + 1,
            n <= i32::MAX,
            stride == hex_stride(v),
            stride * stride <= usize::MAX,
            ri <= stride,
            universes@ == Seq::new(
                (ri * stride) as nat,
                |k: int| hex_universe(v, k % stride as int, k / stride as int),
            ),
            pins == pins_in_rows(v, ri as nat),
            pins <= ri * stride,
        decreases stride - ri,
    {
        let r: i64 = ri as i64 - n;
        let mut qi: usize = 0;
        assert(ri * stride + stride <= stride * stride) by (nonlinear_arith)
            requires
                ri < stride,
        ;
        while qi < stride
            invariant
                v == rings,
                n == v + 1,
                n <= i32::MAX,
                stride == hex_stride(v),
                ri < stride,
                ri * stride + stride <= usize::MAX,
                r == ri - n,
                qi <= stride,
                universes@ == Seq::new(
                    (ri * stride + qi) as nat,
                    |k: int| hex_universe(v, k % stride as int, k / stride as int),
                ),
                pins == pins_in_rows(v, ri as nat) + pins_in_row(v, r as int, qi as int),
                pins <= ri * stride + qi,
            decreases stride - qi,
        {
            let q: i64 = qi as i64 - n;
            let s: i64 = q + r;
            let inside = -n < q && q < n && -n < r && r < n && -n < s && s < n;
            assert(inside == (hex_ring(q as int, r as int) <= v));
            proof {
                lemma_fundamental_div_mod_converse(ri * stride + qi, stride as int, ri as int, qi as int);
            }
            if inside {
                pins += 1;
                universes.push(PIN_UNIVERSE);
            } else {
                universes.push(WATER_UNIVERSE);
            }
            qi += 1;
        }
        assert(ri * stride + stride == (ri + 1) * stride) by (nonlinear_arith);
        ri += 1;
    }
    proof {
        lemma_pins_in_rows(v, stride as nat);
    }
    HexCore { stride, universes, pins }
}

/// What fills a cell.
#[derive(Clone, Copy, Debug, PartialEq, Eq, Structural)]
pub enum LatticeFill {
    Void,
    Material(usize),
    Lattice(usize),
    HexLattice(usize),
}

/// A cell of a lattice geometry.
#[derive(Debug)]
pub struct LatticeCell {
    pub region: Region,
    pub fill: LatticeFill,
    /// Temperature, where the cell sets one.
    pub kelvin: Option<u32>,
}

/// On which sides of the surfaces a point lies.
pub type Sides = spec_fn(int, bool) -> bool;

/// Every point lies on one side of every surface.
pub open spec fn two_sided(sides: Sides) -> bool {
    forall|i: int| #[trigger] sides(i, true) == !sides(i, false)
}

/// A cell has this fill and temperature, and holds the points that `meaning` names.
pub open spec fn cell_is(
    c: LatticeCell,
    fill: LatticeFill,
    kelvin: Option<u32>,
    meaning: spec_fn(Sides) -> bool,
) -> bool {
    &&& c.fill == fill
    &&& c.kelvin == kelvin
    &&& forall|sides: Sides| #[trigger] holds(c.region, sides) == meaning(sides)
}

/// The points of cell `k` of a fuel pin: fuel, gap, clad and water, between the
/// cylinders 0, 1 and 2.
pub open spec fn in_pin_cell(k: int, sides: Sides) -> bool {
    if k == 0 {
        sides(0, false)
    } else if k == 1 {
        sides(0, true) && sides(1, false)
    } else if k == 2 {
        sides(1, true) && sides(2, false)
    } else {
        sides(2, true)
    }
}

/// The points of cell `k` of a guide tube: water, clad and water.
pub open spec fn in_tube_cell(k: int, sides: Sides) -> bool {
    if k == 0 {
        sides(1, false)
    } else if k == 1 {
        sides(1, true) && sides(2, false)
    } else {
        sides(2, true)
    }
}

/// The points between three pairs of planes that stand from `first` on.
pub open spec fn in_box(first: int, sides: Sides) -> bool {
    &&& sides(first, true)
    &&& sides(first + 1, false)
    &&& sides(first + 2, true)
    &&& sides(first + 3, false)
    &&& sides(first + 4, true)
    &&& sides(first + 5, false)
}

/// The points beside the first two pairs of those planes.
pub open spec fn beside_box(first: int, sides: Sides) -> bool {
    ||| sides(first, false)
    ||| sides(first + 1, true)
    ||| sides(first + 2, false)
    ||| sides(first + 3, true)
}

/// The points within a hexagonal prism whose six sides and two ends stand from
/// `first` on.
pub open spec fn in_prism(first: int, sides: Sides) -> bool {
    &&& forall|i: int| first <= i < first + 6 ==> #[trigger] sides(i, false)
    &&& sides(first + 6, true)
    &&& sides(first + 7, false)
}

fn between(inner: usize, outer: usize) -> (r: Region)
    ensures
        forall|sides: Sides| #[trigger]
            holds(r, sides) == (sides(inner as int, true) && sides(outer as int, false)),
{
    let r = Region::Intersection(Box::new(Region::Outside(inner)), Box::new(Region::Inside(outer)));
    proof {
        reveal_with_fuel(holds, 3);
    }
    r
}

fn box_region(first: usize) -> (r: Region)
    requires
        first + 5 <= usize::MAX,
    ensures
        forall|sides: Sides| #[trigger] holds(r, sides) == in_box(first as int, sides),
{
    let x = between(first, first + 1);
    let y = between(first + 2, first + 3);
    let z = between(first + 4, first + 5);
    let xy = Region::Intersection(Box::new(x), Box::new(y));
    let r = Region::Intersection(Box::new(xy), Box::new(z));
    proof {
        reveal_with_fuel(holds, 3);
        assert forall|sides: Sides| #[trigger] holds(r, sides) == in_box(first as int, sides) by {
            assert(holds(r, sides) == (holds(x, sides) && holds(y, sides) && holds(z, sides)));
        }
    }
    r
}

fn outside_of(inner: Region) -> (r: Region)
    ensures
        forall|sides: Sides| #[trigger] holds(r, sides) == !holds(inner, sides),
{
    Region::Complement(Box::new(inner))
}

fn beside_region(first: usize) -> (r: Region)
    requires
        first + 5 <= usize::MAX,
    ensures
        forall|sides: Sides| #[trigger] holds(r, sides) == beside_box(first as int, sides),
{
    let x = Region::Union(Box::new(Region::Inside(first)), Box::new(Region::Outside(first + 1)));
    let y = Region::Union(Box::new(Region::Inside(first + 2)), Box::new(Region::Outside(first + 3)));
    let r = Region::Union(Box::new(x), Box::new(y));
    proof {
        reveal_with_fuel(holds, 4);
    }
    r
}

fn prism_region(first: usize) -> (r: Region)
    requires
        first + 7 <= usize::MAX,
    ensures
        forall|sides: Sides| #[trigger] holds(r, sides) == in_prism(first as int, sides),
{
    let mut r = Region::Inside(first);
    let mut i: usize = 1;
    while i < 6
        invariant
            first + 7 <= usize::MAX,
            1 <= i <= 6,
            forall|sides: Sides| #[trigger]
                holds(r, sides) == (forall|k: int| first <= k < first + i ==> #[trigger] sides(k, false)),
        decreases 6 - i,
    {
        let ghost before = r;
        r = Region::Intersection(Box::new(r), Box::new(Region::Inside(first + i)));
        proof {
            reveal_with_fuel(holds, 2);
            assert forall|sides: Sides| #[trigger]
                holds(r, sides) == (forall|k: int| first <= k < first + i + 1 ==> #[trigger] sides(k, false)) by {
                assert(holds(r, sides) == (holds(before, sides) && sides(first + i, false)));
            }
        }
        i += 1;
    }
    let ends = between(first + 6, first + 7);
    let whole = Region::Intersection(Box::new(r), Box::new(ends));
    proof {
        assert forall|sides: Sides| #[trigger] holds(whole, sides) == in_prism(first as int, sides) by {
            assert(holds(whole, sides) == (holds(r, sides) && holds(ends, sides)));
        }
    }
    whole
}

fn pin_cells(heated: bool) -> (r: Vec<LatticeCell>)
    ensures
        r@.len() == 4,
        are_pin_cells(r@, heated),
{
    let hot: Option<u32> = if heated { Some(900) } else { None };
    let warm: Option<u32> = if heated { Some(600) } else { None };
    let mut out: Vec<LatticeCell> = Vec::new();
    out.push(LatticeCell { region: Region::Inside(0), fill: LatticeFill::Material(0), kelvin: hot });
    out.push(LatticeCell { region: between(0, 1), fill: LatticeFill::Void, kelvin: None });
    out.push(LatticeCell { region: between(1, 2), fill: LatticeFill::Material(1), kelvin: warm });
    out.push(LatticeCell { region: Region::Outside(2), fill: LatticeFill::Material(2), kelvin: warm });
    out
}

/// The temperature that a heated cell sets.
pub open spec fn set_kelvin(heated: bool, kelvin: u32) -> Option<u32> {
    if heated {
        Some(kelvin)
    } else {
        None
    }
}

/// The first four cells are those of a pin.
pub open spec fn are_pin_cells(cells: Seq<LatticeCell>, heated: bool) -> bool {
    let warm = set_kelvin(heated, 600);
    &&& cell_is(cells[0], LatticeFill::Material(0), set_kelvin(heated, 900), |s: Sides| in_pin_cell(0, s))
    &&& cell_is(cells[1], LatticeFill::Void, None, |s: Sides| in_pin_cell(1, s))
    &&& cell_is(cells[2], LatticeFill::Material(1), warm, |s: Sides| in_pin_cell(2, s))
    &&& cell_is(cells[3], LatticeFill::Material(2), warm, |s: Sides| in_pin_cell(3, s))
}

/// What surrounds an assembly.
#[derive(Clone, Copy, Debug, PartialEq, Eq, Structural)]
pub enum Surroundings {
    /// All points outside the box.
    Everything,
    /// The points beside the box, not those above and below it.
    Sides,
}

/// The cells of the assembly: those of a pin, those of a guide tube, the box
/// that the lattice fills and what surrounds it. Surfaces 0 to 2 are the
/// cylinders of a pin, 3 to 8 the planes of the box.
pub fn assembly_cells(heated: bool, around: Surroundings) -> (r: Vec<LatticeCell>)
    ensures
        r@.len() == 9,
        are_pin_cells(r@, heated),
        ({
            let warm = set_kelvin(heated, 600);
            &&& cell_is(r@[4], LatticeFill::Material(2), warm, |s: Sides| in_tube_cell(0, s))
            &&& cell_is(r@[5], LatticeFill::Material(1), warm, |s: Sides| in_tube_cell(1, s))
            &&& cell_is(r@[6], LatticeFill::Material(2), warm, |s: Sides| in_tube_cell(2, s))
        }),
        cell_is(r@[7], LatticeFill::Lattice(0), None, |s: Sides| in_box(3, s)),
        cell_is(
            r@[8],
            LatticeFill::Void,
            None,
            |s: Sides|
                match around {
                    Surroundings::Everything => !in_box(3, s),
                    Surroundings::Sides => beside_box(3, s),
                },
        ),
{
    let warm: Option<u32> = if heated { Some(600) } else { None };
    let mut out = pin_cells(heated);
    out.push(LatticeCell { region: Region::Inside(1), fill: LatticeFill::Material(2), kelvin: warm });
    out.push(LatticeCell { region: between(1, 2), fill: LatticeFill::Material(1), kelvin: warm });
    out.push(LatticeCell { region: Region::Outside(2), fill: LatticeFill::Material(2), kelvin: warm });
    out.push(LatticeCell { region: box_region(3), fill: LatticeFill::Lattice(0), kelvin: None });
    let outside = match around {
        Surroundings::Everything => outside_of(box_region(3)),
        Surroundings::Sides => beside_region(3),
    };
    out.push(LatticeCell { region: outside, fill: LatticeFill::Void, kelvin: None });
    out
}

/// The cells of each universe of the assembly, by universe number.
pub fn assembly_universe_cells() -> (r: Vec<Vec<usize>>)
    ensures
        r@.len() == 3,
        r@[ROOT_UNIVERSE as int]@ == seq![7usize, 8],
        r@[PIN_UNIVERSE as int]@ == seq![0usize, 1, 2, 3],
        r@[WATER_UNIVERSE as int]@ == seq![4usize, 5, 6],
{
    vec![vec![7, 8], vec![0, 1, 2, 3], vec![4, 5, 6]]
}

/// The cells of a two-by-two lattice of bare pins: fuel, water, the box and what
/// surrounds it. Surface 0 is the cylinder, 1 to 6 are the planes.
fn bare_pin_cells(outside: Region) -> (r: Vec<LatticeCell>)
    ensures
        r@.len() == 4,
        cell_is(r@[0], LatticeFill::Material(0), None, |s: Sides| s(0, false)),
        cell_is(r@[1], LatticeFill::Material(1), None, |s: Sides| s(0, true)),
        cell_is(r@[2], LatticeFill::Lattice(0), None, |s: Sides| in_box(1, s)),
        r@[3] == (LatticeCell { region: outside, fill: LatticeFill::Void, kelvin: None }),
{
    let mut out: Vec<LatticeCell> = Vec::new();
    out.push(LatticeCell { region: Region::Inside(0), fill: LatticeFill::Material(0), kelvin: None });
    out.push(LatticeCell { region: Region::Outside(0), fill: LatticeFill::Material(1), kelvin: None });
    out.push(LatticeCell { region: box_region(1), fill: LatticeFill::Lattice(0), kelvin: None });
    out.push(LatticeCell { region: outside, fill: LatticeFill::Void, kelvin: None });
    out
}

/// The cells of the lattice on which two ways of tracing a ray are compared: the
/// last one holds the points beside the box.
pub fn small_lattice_cells() -> (r: Vec<LatticeCell>)
    ensures
        r@.len() == 4,
        cell_is(r@[0], LatticeFill::Material(0), None, |s: Sides| s(0, false)),
        cell_is(r@[1], LatticeFill::Material(1), None, |s: Sides| s(0, true)),
        cell_is(r@[2], LatticeFill::Lattice(0), None, |s: Sides| in_box(1, s)),
        cell_is(r@[3], LatticeFill::Void, None, |s: Sides| beside_box(1, s)),
{
    bare_pin_cells(beside_region(1))
}

/// The cells of the same lattice for transport with constant cross sections: the
/// last one holds every point outside the box.
pub fn const_xs_cells() -> (r: Vec<LatticeCell>)
    ensures
        r@.len() == 4,
        cell_is(r@[0], LatticeFill::Material(0), None, |s: Sides| s(0, false)),
        cell_is(r@[1], LatticeFill::Material(1), None, |s: Sides| s(0, true)),
        cell_is(r@[2], LatticeFill::Lattice(0), None, |s: Sides| in_box(1, s)),
        cell_is(r@[3], LatticeFill::Void, None, |s: Sides| !in_box(1, s)),
{
    bare_pin_cells(outside_of(box_region(1)))
}

/// The cells of each universe of that lattice, by universe number.
pub fn small_lattice_universe_cells() -> (r: Vec<Vec<usize>>)
    ensures
        r@.len() == 2,
        r@[ROOT_UNIVERSE as int]@ == seq![2usize, 3],
        r@[PIN_UNIVERSE as int]@ == seq![0usize, 1],
{
    vec![vec![2, 3], vec![0, 1]]
}

/// The cells of the hexagonal core: those of a pin, the prism that the lattice
/// fills, what lies outside it, and water everywhere for the outermost ring.
/// Surfaces 0 to 2 are the cylinders of a pin, 3 to 10 the sides of the prism.
pub fn hex_cells() -> (r: Vec<LatticeCell>)
    ensures
        r@.len() == 7,
        are_pin_cells(r@, true),
        cell_is(r@[4], LatticeFill::HexLattice(0), None, |s: Sides| in_prism(3, s)),
        cell_is(r@[5], LatticeFill::Void, None, |s: Sides| !in_prism(3, s)),
        cell_is(r@[6], LatticeFill::Material(2), Some(600), |s: Sides| s(0, false) || s(0, true)),
{
    let mut out = pin_cells(true);
    out.push(LatticeCell { region: prism_region(3), fill: LatticeFill::HexLattice(0), kelvin: None });
    out.push(LatticeCell { region: outside_of(prism_region(3)), fill: LatticeFill::Void, kelvin: None });
    let anywhere = Region::Union(Box::new(Region::Inside(0)), Box::new(Region::Outside(0)));
    proof {
        reveal_with_fuel(holds, 3);
    }
    out.push(LatticeCell { region: anywhere, fill: LatticeFill::Material(2), kelvin: Some(600) });
    out
}

/// The cells of each universe of the hexagonal core, by universe number.
pub fn hex_universe_cells() -> (r: Vec<Vec<usize>>)
    ensures
        r@.len() == 3,
        r@[ROOT_UNIVERSE as int]@ == seq![4usize, 5],
        r@[PIN_UNIVERSE as int]@ == seq![0usize, 1, 2, 3],
        r@[WATER_UNIVERSE as int]@ == seq![6usize],
{
    vec![vec![4, 5], vec![0, 1, 2, 3], vec![6]]
}

/// The cylinders of a pin lie within each other.
pub open spec fn nested_cylinders(sides: Sides) -> bool {
    &&& sides(0, false) ==> sides(1, false)
    &&& sides(1, false) ==> sides(2, false)
}

/// Every point lies in exactly one cell of a pin and in exactly one cell of a
/// guide tube.
pub proof fn law_every_point_lies_in_one_cell(sides: Sides)
    requires
        two_sided(sides),
        nested_cylinders(sides),
    ensures
        exists|k: int| 0 <= k < 4 && #[trigger] in_pin_cell(k, sides),
        forall|j: int, k: int|
            0 <= j < k < 4 && #[trigger] in_pin_cell(j, sides) ==> !#[trigger] in_pin_cell(k, sides),
        exists|k: int| 0 <= k < 3 && #[trigger] in_tube_cell(k, sides),
        forall|j: int, k: int|
            0 <= j < k < 3 && #[trigger] in_tube_cell(j, sides) ==> !#[trigger] in_tube_cell(k, sides),
{
    assert(in_pin_cell(0, sides) || in_pin_cell(1, sides) || in_pin_cell(2, sides) || in_pin_cell(3, sides));
    assert(in_tube_cell(0, sides) || in_tube_cell(1, sides) || in_tube_cell(2, sides));
    assert(sides(0, true) == !sides(0, false));
    assert(sides(1, true) == !sides(1, false));
    assert(sides(2, true) == !sides(2, false));
}

/// No point lies both in a box and beside it, and every point between the
/// planes that close the box lies in one of the two.
pub proof fn law_box_and_sides_are_apart(first: int, sides: Sides)
    requires
        two_sided(sides),
    ensures
        !(in_box(first, sides) && beside_box(first, sides)),
        sides(first + 4, true) && sides(first + 5, false) ==> in_box(first, sides) || beside_box(first, sides),
{
    assert(sides(first, true) == !sides(first, false));
    assert(sides(first + 1, true) == !sides(first + 1, false));
    assert(sides(first + 2, true) == !sides(first + 2, false));
    assert(sides(first + 3, true) == !sides(first + 3, false));
}

/// The tubes of the assembly stand in the rows that the layout has them in, five in
/// each of the three middle rows, three in the outer and two in the corner ones, at
/// least three places apart and not within two places of the edge; the tube for the
/// instrument is in the middle.
pub proof fn law_tubes_stand_apart(layout: Vec<Vec<bool>>, row: int, a: int, b: int)
    requires
        call_ensures(westinghouse_layout, (), layout),
        0 <= row < 17,
        0 <= a < b < 17,
    ensures
        layout@.len() == 17 && layout@[row]@.len() == 17,
        layout@[row]@[a] && layout@[row]@[b] ==> b - a >= 3,
        layout@[row]@[a] ==> 2 <= row <= 14 && 2 <= a <= 14,
        layout@[8]@[8],
        layout@[row]@[8] <==> row == 2 || row == 5 || row == 8 || row == 11 || row == 14,
        layout@[row]@[5] <==> row == 2 || row == 5 || row == 8 || row == 11 || row == 14,
        layout@[row]@[2] <==> row == 5 || row == 8 || row == 11,
        layout@[row]@[3] <==> row == 3 || row == 13,
{
    assert(layout@[row]@ == Seq::new(ASSEMBLY_SHAPE as nat, |col: int| is_tube(row, col)));
    assert(layout@[8]@ == Seq::new(ASSEMBLY_SHAPE as nat, |col: int| is_tube(8, col)));
}

/// The places of the assembly hold water where the layout has a tube and a pin
/// elsewhere; without tubes they are all pins, and all water where everything is a
/// tube.
pub proof fn law_assembly_follows_the_layout(choice: TubeChoice, r: Vec<u32>, layout: Vec<Vec<bool>>, row: int, col: int)
    requires
        call_ensures(assembly_universes, (choice,), r),
        call_ensures(westinghouse_layout, (), layout),
        0 <= row < 17,
        0 <= col < 17,
    ensures
        r@.len() == 289,
        choice.all_tubes ==> r@[17 * row + col] == 2,
        choice.no_tubes && !choice.all_tubes ==> r@[17 * row + col] == 1,
        !choice.no_tubes && !choice.all_tubes ==> r@[17 * row + col] == if layout@[row]@[col] {
            2u32
        } else {
            1u32
        },
{
    assert(layout@[row]@ == Seq::new(ASSEMBLY_SHAPE as nat, |c: int| is_tube(row, c)));
    let k = 17 * row + col;
    assert(k / 17 == row && k % 17 == col) by (nonlinear_arith)
        requires
            k == 17 * row + col,
            0 <= col < 17,
    ;
}

/// A place of the hexagonal core holds a pin exactly where it is within as many steps
/// of the middle as there are rings, and water elsewhere; the core has room for one
/// ring more, and one pin, and six more for each ring than for the one inside it.
pub proof fn law_core_is_a_hexagon(rings: usize, core: HexCore, q: int, r: int, inner: HexCore)
    requires
        call_ensures(hex_core, (rings,), core),
        rings >= 1 ==> call_ensures(hex_core, ((rings - 1) as usize,), inner),
        -(rings + 1) <= q <= rings + 1,
        -(rings + 1) <= r <= rings + 1,
    ensures
        core.stride == 2 * rings + 3,
        core.universes@.len() == core.stride * core.stride,
        core.universes@[(r + rings + 1) * core.stride + (q + rings + 1)] == if -rings <= q <= rings && -rings <= r
            <= rings && -rings <= q + r <= rings {
            1u32
        } else {
            2u32
        },
        rings == 0 ==> core.pins == 1,
        rings >= 1 ==> core.pins == inner.pins + 6 * rings,
{
    let s = core.stride as int;
    let (row, col) = (r + rings + 1, q + rings + 1);
    let k = row * s + col;
    vstd::arithmetic::div_mod::lemma_fundamental_div_mod_converse(k, s, row, col);
    assert(0 <= k < s * s) by (nonlinear_arith)
        requires
            k == row * s + col,
            0 <= row < s,
            0 <= col < s,
    ;
    assert(core.universes@[k] == hex_universe(rings as int, k % s, k / s));
    if rings >= 1 {
        let n = rings as int;
        assert(3 * n * (n + 1) + 1 == 3 * (n - 1) * n + 1 + 6 * n) by (nonlinear_arith);
        assert(inner.pins == 3 * (n - 1) * (n - 1 + 1) + 1);
    } else {
        assert(3 * rings * (rings + 1) == 0) by (nonlinear_arith)
            requires
                rings == 0,
        ;
    }
}

/// The cells of a pin from the inside out: fuel, an empty gap, clad and water, each
/// between its own cylinders, the fuel hotter than what surrounds it.
pub open spec fn is_pin(cells: Seq<LatticeCell>, heated: bool, sides: Sides) -> bool {
    &&& cells[0].fill == LatticeFill::Material(0) && (holds(cells[0].region, sides) <==> sides(0, false))
    &&& cells[1].fill == LatticeFill::Void && (holds(cells[1].region, sides) <==> sides(0, true) && sides(1, false))
    &&& cells[2].fill == LatticeFill::Material(1) && (holds(cells[2].region, sides) <==> sides(1, true) && sides(
        2,
        false,
    ))
    &&& cells[3].fill == LatticeFill::Material(2) && (holds(cells[3].region, sides) <==> sides(2, true))
    &&& heated ==> cells[0].kelvin == Some(900u32) && cells[2].kelvin == Some(600u32) && cells[3].kelvin == Some(600u32)
    &&& !heated ==> cells[0].kelvin is None && cells[2].kelvin is None && cells[3].kelvin is None
    &&& cells[1].kelvin is None
}

/// The cells of the assembly are those of a pin, those of a tube with water inside and
/// outside its clad, the box that the lattice fills, and what lies outside or beside
/// the box; every universe lists its own cells.
pub proof fn law_assembly_is_built_of_pins_and_tubes(
    heated: bool,
    around: Surroundings,
    r: Vec<LatticeCell>,
    universes: Vec<Vec<usize>>,
    s: Sides,
)
    requires
        call_ensures(assembly_cells, (heated, around), r),
        call_ensures(assembly_universe_cells, (), universes),
        two_sided(s),
    ensures
        is_pin(r@, heated, s),
        r@[4].fill == LatticeFill::Material(2) && (holds(r@[4].region, s) <==> s(1, false)),
        r@[5].fill == LatticeFill::Material(1) && (holds(r@[5].region, s) <==> s(1, true) && s(2, false)),
        r@[6].fill == LatticeFill::Material(2) && (holds(r@[6].region, s) <==> s(2, true)),
        ({
            let across = s(3, true) && s(4, false) && s(5, true) && s(6, false);
            &&& r@[7].fill == LatticeFill::Lattice(0)
            &&& holds(r@[7].region, s) <==> across && s(7, true) && s(8, false)
            &&& r@[8].fill == LatticeFill::Void
            &&& around == Surroundings::Everything ==> (holds(r@[8].region, s) <==> !holds(r@[7].region, s))
            &&& around == Surroundings::Sides ==> (holds(r@[8].region, s) <==> !across)
        }),
        universes@.len() == 3 && universes@[0]@ == seq![7usize, 8] && universes@[1]@ == seq![0usize, 1, 2, 3]
            && universes@[2]@ == seq![4usize, 5, 6],
{
    assert(holds(r@[0].region, s) == in_pin_cell(0, s));
    assert(holds(r@[1].region, s) == in_pin_cell(1, s));
    assert(holds(r@[2].region, s) == in_pin_cell(2, s));
    assert(holds(r@[3].region, s) == in_pin_cell(3, s));
    assert(holds(r@[4].region, s) == in_tube_cell(0, s));
    assert(holds(r@[5].region, s) == in_tube_cell(1, s));
    assert(holds(r@[6].region, s) == in_tube_cell(2, s));
    assert(holds(r@[7].region, s) == in_box(3, s));
    assert(s(3, true) == !s(3, false) && s(4, true) == !s(4, false) && s(5, true) == !s(5, false) && s(6, true) == !s(
        6,
        false,
    ));
    assert(around == Surroundings::Everything ==> holds(r@[8].region, s) == !in_box(3, s));
    assert(around == Surroundings::Sides ==> holds(r@[8].region, s) == beside_box(3, s));
}

/// Both small lattices have fuel in the cylinder and water around it in a box; beyond
/// the box one is empty everywhere, the other at the sides alone.
pub proof fn law_small_lattices_differ_above_the_box(
    parity: Vec<LatticeCell>,
    constant: Vec<LatticeCell>,
    universes: Vec<Vec<usize>>,
    s: Sides,
)
    requires
        call_ensures(small_lattice_cells, (), parity),
        call_ensures(const_xs_cells, (), constant),
        call_ensures(small_lattice_universe_cells, (), universes),
        two_sided(s),
    ensures
        parity@.len() == 4 && constant@.len() == 4,
        parity@[0].fill == LatticeFill::Material(0) && constant@[0].fill == LatticeFill::Material(0),
        parity@[1].fill == LatticeFill::Material(1) && constant@[1].fill == LatticeFill::Material(1),
        parity@[2].fill == LatticeFill::Lattice(0) && constant@[2].fill == LatticeFill::Lattice(0),
        parity@[3].fill == LatticeFill::Void && constant@[3].fill == LatticeFill::Void,
        holds(parity@[0].region, s) <==> s(0, false),
        holds(constant@[0].region, s) <==> s(0, false),
        holds(parity@[1].region, s) <==> s(0, true),
        holds(constant@[1].region, s) <==> s(0, true),
        ({
            let across = s(1, true) && s(2, false) && s(3, true) && s(4, false);
            &&& holds(parity@[2].region, s) <==> across && s(5, true) && s(6, false)
            &&& holds(constant@[2].region, s) <==> across && s(5, true) && s(6, false)
            &&& holds(parity@[3].region, s) <==> !across
            &&& holds(constant@[3].region, s) <==> !holds(constant@[2].region, s)
        }),
        universes@.len() == 2 && universes@[0]@ == seq![2usize, 3] && universes@[1]@ == seq![0usize, 1],
{
    assert(holds(parity@[2].region, s) == in_box(1, s) && holds(constant@[2].region, s) == in_box(1, s));
    assert(holds(parity@[3].region, s) == beside_box(1, s) && holds(constant@[3].region, s) == !in_box(1, s));
    assert(s(1, true) == !s(1, false) && s(2, true) == !s(2, false) && s(3, true) == !s(3, false) && s(4, true) == !s(
        4,
        false,
    ));
}

/// The cells of the hexagonal core are those of a heated pin, the prism that the
/// lattice fills, everything outside it, and water wherever else a universe asks for
/// it.
pub proof fn law_hexagonal_core_is_built_of_pins(r: Vec<LatticeCell>, universes: Vec<Vec<usize>>, s: Sides)
    requires
        call_ensures(hex_cells, (), r),
        call_ensures(hex_universe_cells, (), universes),
        two_sided(s),
    ensures
        is_pin(r@, true, s),
        r@[4].fill == LatticeFill::HexLattice(0) && (holds(r@[4].region, s) <==> s(3, false) && s(4, false) && s(
            5,
            false,
        ) && s(6, false) && s(7, false) && s(8, false) && s(9, true) && s(10, false)),
        r@[5].fill == LatticeFill::Void && (holds(r@[5].region, s) <==> !holds(r@[4].region, s)),
        r@[6].fill == LatticeFill::Material(2) && r@[6].kelvin == Some(600u32) && holds(r@[6].region, s),
        universes@.len() == 3 && universes@[0]@ == seq![4usize, 5] && universes@[1]@ == seq![0usize, 1, 2, 3]
            && universes@[2]@ == seq![6usize],
{
    assert(holds(r@[0].region, s) == in_pin_cell(0, s));
    assert(holds(r@[1].region, s) == in_pin_cell(1, s));
    assert(holds(r@[2].region, s) == in_pin_cell(2, s));
    assert(holds(r@[3].region, s) == in_pin_cell(3, s));
    assert(holds(r@[4].region, s) == in_prism(3, s));
    assert(holds(r@[5].region, s) == !in_prism(3, s));
    assert(holds(r@[6].region, s) == (s(0, false) || s(0, true)));
    assert(s(0, true) == !s(0, false));
}

} // verus!
