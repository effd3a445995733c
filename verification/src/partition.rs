//! The partition selector: which transforms cover each square region.
//!
//! For every candidate transform the device computes one cost per block of
//! the image. From those cost grids the selector picks, per 16x16, 32x32 or
//! 64x64 region, the partition of lowest cost. Among equal costs it keeps the
//! larger transform, which takes fewer bits to signal.
//!
//! A transform's name gives its height first: a DCT16x8 block is 16 pixels
//! tall and 8 wide. Cost grids are row-major.

use crate::float::{sum, Float32, INFINITY_MAGNITUDE};
use vstd::prelude::*;

verus! {

/// How a 16x16 region is covered.
#[derive(Clone, Copy, Debug, PartialEq, Eq)]
pub enum Partition16x16 {
    /// One DCT16x16.
    Dct16x16,
    /// Two DCT16x8 side by side.
    TwoDct16x8Horizontal,
    /// Two DCT8x16, one above the other.
    TwoDct8x16Vertical,
    /// Four DCT8x8.
    FourDct8x8,
    /// Four 8x8 blocks, each with a transform of its own: top left, top
    /// right, bottom left, bottom right.
    FourSubBlocks([SubStrategy; 4]),
}

/// The transform of one 8x8 block.
#[derive(Clone, Copy, Debug, PartialEq, Eq, Structural)]
pub enum SubStrategy {
    Dct8,
    Dct4x4,
    Dct4x8,
    Dct8x4,
    Identity,
    Dct2x2,
    Afv0,
    Afv1,
    Afv2,
    Afv3,
}

/// Cost grids of the 8x8-block transforms other than the DCT8, one entry per
/// 8x8 block of the image. A transform whose grid is absent is not considered.
#[derive(Clone, Copy)]
pub struct SubBlockCostGrids<'a> {
    pub dct4x4: Option<&'a [Float32]>,
    pub dct4x8: Option<&'a [Float32]>,
    pub dct8x4: Option<&'a [Float32]>,
    pub identity: Option<&'a [Float32]>,
    pub dct2x2: Option<&'a [Float32]>,
    pub afv0: Option<&'a [Float32]>,
    pub afv1: Option<&'a [Float32]>,
    pub afv2: Option<&'a [Float32]>,
    pub afv3: Option<&'a [Float32]>,
}

/// The contents of a grid, where there is one.
pub open spec fn grid_contents(grid: Option<&[Float32]>) -> Option<Seq<Float32>> {
    match grid {
        Some(g) => Some(g@),
        None => None,
    }
}

/// What [`SubBlockCostGrids`] hold.
pub struct SubBlockGrids {
    pub dct4x4: Option<Seq<Float32>>,
    pub dct4x8: Option<Seq<Float32>>,
    pub dct8x4: Option<Seq<Float32>>,
    pub identity: Option<Seq<Float32>>,
    pub dct2x2: Option<Seq<Float32>>,
    pub afv0: Option<Seq<Float32>>,
    pub afv1: Option<Seq<Float32>>,
    pub afv2: Option<Seq<Float32>>,
    pub afv3: Option<Seq<Float32>>,
}

impl<'a> View for SubBlockCostGrids<'a> {
    type V = SubBlockGrids;

    open spec fn view(&self) -> SubBlockGrids {
        SubBlockGrids {
            dct4x4: grid_contents(self.dct4x4),
            dct4x8: grid_contents(self.dct4x8),
            dct8x4: grid_contents(self.dct8x4),
            identity: grid_contents(self.identity),
            dct2x2: grid_contents(self.dct2x2),
            afv0: grid_contents(self.afv0),
            afv1: grid_contents(self.afv1),
            afv2: grid_contents(self.afv2),
            afv3: grid_contents(self.afv3),
        }
    }
}

impl<'a> Default for SubBlockCostGrids<'a> {
    fn default() -> (r: Self)
        ensures
            r@ == no_sub_blocks(),
    {
        SubBlockCostGrids {
            dct4x4: None,
            dct4x8: None,
            dct8x4: None,
            identity: None,
            dct2x2: None,
            afv0: None,
            afv1: None,
            afv2: None,
            afv3: None,
        }
    }
}

/// No grid at all.
pub open spec fn no_sub_blocks() -> SubBlockGrids {
    SubBlockGrids {
        dct4x4: None,
        dct4x8: None,
        dct8x4: None,
        identity: None,
        dct2x2: None,
        afv0: None,
        afv1: None,
        afv2: None,
        afv3: None,
    }
}

/// Cost grids of the rectangular 16-pixel transforms and of the 8x8-block
/// transforms. What is absent is not considered.
#[derive(Clone, Copy)]
pub struct CostGrids16x16<'a> {
    /// One entry per DCT16x8 block: as many columns as the image has 8x8
    /// columns, half as many rows.
    pub dct_16x8: Option<&'a [Float32]>,
    /// One entry per DCT8x16 block: half as many columns as the image has 8x8
    /// columns, as many rows.
    pub dct_8x16: Option<&'a [Float32]>,
    pub sub_blocks: SubBlockCostGrids<'a>,
}

/// What [`CostGrids16x16`] hold.
pub struct Grids16 {
    pub dct_16x8: Option<Seq<Float32>>,
    pub dct_8x16: Option<Seq<Float32>>,
    pub sub_blocks: SubBlockGrids,
}

impl<'a> View for CostGrids16x16<'a> {
    type V = Grids16;

    open spec fn view(&self) -> Grids16 {
        Grids16 {
            dct_16x8: grid_contents(self.dct_16x8),
            dct_8x16: grid_contents(self.dct_8x16),
            sub_blocks: self.sub_blocks@,
        }
    }
}

impl<'a> Default for CostGrids16x16<'a> {
    fn default() -> (r: Self)
        ensures
            r@ == no_extras16(),
    {
        CostGrids16x16 { dct_16x8: None, dct_8x16: None, sub_blocks: SubBlockCostGrids::default() }
    }
}

/// No grid at all.
pub open spec fn no_extras16() -> Grids16 {
    Grids16 { dct_16x8: None, dct_8x16: None, sub_blocks: no_sub_blocks() }
}

/// Of two costed choices the first, unless the second costs less.
pub open spec fn better<T>(best: (Float32, T), other: (Float32, T)) -> (Float32, T) {
    if other.0.less(best.0) {
        other
    } else {
        best
    }
}

/// As [`better`], where the second choice may be absent.
pub open spec fn better_if<T>(best: (Float32, T), cost: Option<Float32>, what: T) -> (Float32, T) {
    match cost {
        Some(c) => better(best, (c, what)),
        None => best,
    }
}

/// The sum of four costs, from left to right.
pub open spec fn sum4(a: Float32, b: Float32, c: Float32, d: Float32) -> Float32 {
    sum(sum(sum(a, b), c), d)
}

/// An entry of a grid, where there is one.
pub open spec fn entry(grid: Option<Seq<Float32>>, i: int) -> Option<Float32> {
    match grid {
        Some(g) => Some(g[i]),
        None => None,
    }
}

/// An entry of a grid, and infinity where the grid is absent.
pub open spec fn entry_or_infinity(grid: Option<Seq<Float32>>, i: int) -> Float32 {
    match grid {
        Some(g) => g[i],
        None => infinity(),
    }
}

/// Positive infinity.
pub open spec fn infinity() -> Float32 {
    Float32 { bits: INFINITY_MAGNITUDE }
}

/// The cost of the two blocks side by side in the region at (`rx`, `ry`), of
/// a grid with `xs` columns.
pub open spec fn pair_across(
    grid: Option<Seq<Float32>>,
    xs: int,
    rx: int,
    ry: int,
) -> Option<Float32> {
    match grid {
        Some(g) => Some(sum(g[ry * xs + 2 * rx], g[ry * xs + 2 * rx + 1])),
        None => None,
    }
}

/// The cost of the two blocks, one above the other, in the region at
/// (`rx`, `ry`), of a grid with `xs` columns.
pub open spec fn pair_down(
    grid: Option<Seq<Float32>>,
    xs: int,
    rx: int,
    ry: int,
) -> Option<Float32> {
    match grid {
        Some(g) => Some(sum(g[2 * ry * xs + rx], g[(2 * ry + 1) * xs + rx])),
        None => None,
    }
}

/// The four blocks of the region at (`rx`, `ry`), of a grid with `xs`
/// columns: top left, top right, bottom left, bottom right.
pub open spec fn corner(xs: int, rx: int, ry: int, k: int) -> int {
    (2 * ry + k / 2) * xs + 2 * rx + k % 2
}

impl SubBlockGrids {
    /// Whether any grid is present.
    pub open spec fn some(self) -> bool {
        self.dct4x4 is Some || self.dct4x8 is Some || self.dct8x4 is Some || self.identity is Some
            || self.dct2x2 is Some || self.afv0 is Some || self.afv1 is Some || self.afv2 is Some
            || self.afv3 is Some
    }

    /// Whether every grid that is present has at least `n` entries.
    pub open spec fn reaches(self, n: int) -> bool {
        &&& self.dct4x4 matches Some(g) ==> g.len() >= n
        &&& self.dct4x8 matches Some(g) ==> g.len() >= n
        &&& self.dct8x4 matches Some(g) ==> g.len() >= n
        &&& self.identity matches Some(g) ==> g.len() >= n
        &&& self.dct2x2 matches Some(g) ==> g.len() >= n
        &&& self.afv0 matches Some(g) ==> g.len() >= n
        &&& self.afv1 matches Some(g) ==> g.len() >= n
        &&& self.afv2 matches Some(g) ==> g.len() >= n
        &&& self.afv3 matches Some(g) ==> g.len() >= n
    }

    /// The cost of a transform at block `i`; infinite where its grid is
    /// absent.
    pub open spec fn cost(self, dct8: Seq<Float32>, s: SubStrategy, i: int) -> Float32 {
        match s {
            SubStrategy::Dct8 => dct8[i],
            SubStrategy::Dct4x4 => entry_or_infinity(self.dct4x4, i),
            SubStrategy::Dct4x8 => entry_or_infinity(self.dct4x8, i),
            SubStrategy::Dct8x4 => entry_or_infinity(self.dct8x4, i),
            SubStrategy::Identity => entry_or_infinity(self.identity, i),
            SubStrategy::Dct2x2 => entry_or_infinity(self.dct2x2, i),
            SubStrategy::Afv0 => entry_or_infinity(self.afv0, i),
            SubStrategy::Afv1 => entry_or_infinity(self.afv1, i),
            SubStrategy::Afv2 => entry_or_infinity(self.afv2, i),
            SubStrategy::Afv3 => entry_or_infinity(self.afv3, i),
        }
    }

    /// Whether a transform is considered.
    pub open spec fn considers(self, s: SubStrategy) -> bool {
        match s {
            SubStrategy::Dct8 => true,
            SubStrategy::Dct4x4 => self.dct4x4 is Some,
            SubStrategy::Dct4x8 => self.dct4x8 is Some,
            SubStrategy::Dct8x4 => self.dct8x4 is Some,
            SubStrategy::Identity => self.identity is Some,
            SubStrategy::Dct2x2 => self.dct2x2 is Some,
            SubStrategy::Afv0 => self.afv0 is Some,
            SubStrategy::Afv1 => self.afv1 is Some,
            SubStrategy::Afv2 => self.afv2 is Some,
            SubStrategy::Afv3 => self.afv3 is Some,
        }
    }

    /// The transform of lowest cost for block `i`, with its cost.
    pub open spec fn cell_choice(self, dct8: Seq<Float32>, i: int) -> (Float32, SubStrategy) {
        let c0 = (dct8[i], SubStrategy::Dct8);
        let c1 = better_if(c0, entry(self.dct4x4, i), SubStrategy::Dct4x4);
        let c2 = better_if(c1, entry(self.dct4x8, i), SubStrategy::Dct4x8);
        let c3 = better_if(c2, entry(self.dct8x4, i), SubStrategy::Dct8x4);
        let c4 = better_if(c3, entry(self.identity, i), SubStrategy::Identity);
        let c5 = better_if(c4, entry(self.dct2x2, i), SubStrategy::Dct2x2);
        let c6 = better_if(c5, entry(self.afv0, i), SubStrategy::Afv0);
        let c7 = better_if(c6, entry(self.afv1, i), SubStrategy::Afv1);
        let c8 = better_if(c7, entry(self.afv2, i), SubStrategy::Afv2);
        better_if(c8, entry(self.afv3, i), SubStrategy::Afv3)
    }
}

impl<'a> SubBlockCostGrids<'a> {
    fn any_present(&self) -> (r: bool)
        ensures
            r == self@.some(),
    {
        self.dct4x4.is_some() || self.dct4x8.is_some() || self.dct8x4.is_some()
            || self.identity.is_some() || self.dct2x2.is_some() || self.afv0.is_some()
            || self.afv1.is_some() || self.afv2.is_some() || self.afv3.is_some()
    }

    fn pick_cell(&self, cost_dct8: &[Float32], i: usize) -> (r: (Float32, SubStrategy))
        requires
            i < cost_dct8@.len(),
            self@.reaches(i + 1),
        ensures
            r == self@.cell_choice(cost_dct8@, i as int),
    {
        let c0: (Float32, SubStrategy) = (cost_dct8[i], SubStrategy::Dct8);
        let c1: (Float32, SubStrategy) = improve_from(c0, self.dct4x4, i, SubStrategy::Dct4x4);
        let c2: (Float32, SubStrategy) = improve_from(c1, self.dct4x8, i, SubStrategy::Dct4x8);
        let c3: (Float32, SubStrategy) = improve_from(c2, self.dct8x4, i, SubStrategy::Dct8x4);
        let c4: (Float32, SubStrategy) = improve_from(c3, self.identity, i, SubStrategy::Identity);
        let c5: (Float32, SubStrategy) = improve_from(c4, self.dct2x2, i, SubStrategy::Dct2x2);
        let c6: (Float32, SubStrategy) = improve_from(c5, self.afv0, i, SubStrategy::Afv0);
        let c7: (Float32, SubStrategy) = improve_from(c6, self.afv1, i, SubStrategy::Afv1);
        let c8: (Float32, SubStrategy) = improve_from(c7, self.afv2, i, SubStrategy::Afv2);
        improve_from(c8, self.afv3, i, SubStrategy::Afv3)
    }

    fn cell_cost(&self, cost_dct8: &[Float32], s: SubStrategy, i: usize) -> (r: Float32)
        requires
            i < cost_dct8@.len(),
            self@.reaches(i + 1),
        ensures
            r == self@.cost(cost_dct8@, s, i as int),
    {
        match s {
            SubStrategy::Dct8 => cost_dct8[i],
            SubStrategy::Dct4x4 => grid_cost(self.dct4x4, i),
            SubStrategy::Dct4x8 => grid_cost(self.dct4x8, i),
            SubStrategy::Dct8x4 => grid_cost(self.dct8x4, i),
            SubStrategy::Identity => grid_cost(self.identity, i),
            SubStrategy::Dct2x2 => grid_cost(self.dct2x2, i),
            SubStrategy::Afv0 => grid_cost(self.afv0, i),
            SubStrategy::Afv1 => grid_cost(self.afv1, i),
            SubStrategy::Afv2 => grid_cost(self.afv2, i),
            SubStrategy::Afv3 => grid_cost(self.afv3, i),
        }
    }
}

fn grid_cost(grid: Option<&[Float32]>, i: usize) -> (r: Float32)
    requires
        grid matches Some(g) ==> i < g@.len(),
    ensures
        r == entry_or_infinity(grid_contents(grid), i as int),
{
    match grid {
        Some(g) => g[i],
        None => Float32::from_bits(INFINITY_MAGNITUDE),
    }
}

fn improve<T>(best: (Float32, T), cost: Float32, what: T) -> (r: (Float32, T))
    ensures
        r == better(best, (cost, what)),
{
    if cost.lt(best.0) {
        (cost, what)
    } else {
        best
    }
}

fn improve_from<T>(best: (Float32, T), grid: Option<&[Float32]>, i: usize, what: T) -> (r: (
    Float32,
    T,
))
    requires
        grid matches Some(g) ==> i < g@.len(),
    ensures
        r == better_if(best, entry(grid_contents(grid), i as int), what),
{
    match grid {
        Some(g) => improve(best, g[i], what),
        None => best,
    }
}

fn add4(a: Float32, b: Float32, c: Float32, d: Float32) -> (r: Float32)
    ensures
        r == sum4(a, b, c, d),
{
    a.plus(b).plus(c).plus(d)
}

/// The choices for the four 8x8 blocks of the 16x16 region at (`rx`, `ry`),
/// with their total cost.
pub open spec fn cells_choice(
    dct8: Seq<Float32>,
    extra: SubBlockGrids,
    xs8: int,
    rx: int,
    ry: int,
) -> (Float32, [SubStrategy; 4]) {
    let c0 = extra.cell_choice(dct8, corner(xs8, rx, ry, 0));
    let c1 = extra.cell_choice(dct8, corner(xs8, rx, ry, 1));
    let c2 = extra.cell_choice(dct8, corner(xs8, rx, ry, 2));
    let c3 = extra.cell_choice(dct8, corner(xs8, rx, ry, 3));
    (sum4(c0.0, c1.0, c2.0, c3.0), [c0.1, c1.1, c2.1, c3.1])
}

/// Picks the transform of lowest cost for each of the four 8x8 blocks whose
/// top left one is at block (`bx0`, `by0`). Returns the total cost and the
/// choices: top left, top right, bottom left, bottom right.
pub fn pick_subblock_strategies(
    cost_dct8: &[Float32],
    extra: SubBlockCostGrids<'_>,
    xsize_blocks_8: usize,
    bx0: usize,
    by0: usize,
) -> (r: (Float32, [SubStrategy; 4]))
    requires
        (by0 + 1) * xsize_blocks_8 + bx0 + 1 < cost_dct8@.len(),
        extra@.reaches((by0 + 1) * xsize_blocks_8 + bx0 + 2),
    ensures
        ({
            let i = by0 * xsize_blocks_8 + bx0;
            let j = (by0 + 1) * xsize_blocks_8 + bx0;
            let c0 = extra@.cell_choice(cost_dct8@, i);
            let c1 = extra@.cell_choice(cost_dct8@, i + 1);
            let c2 = extra@.cell_choice(cost_dct8@, j);
            let c3 = extra@.cell_choice(cost_dct8@, j + 1);
            r == (sum4(c0.0, c1.0, c2.0, c3.0), [c0.1, c1.1, c2.1, c3.1])
        }),
{
    assert((by0 + 1) * xsize_blocks_8 == by0 * xsize_blocks_8 + xsize_blocks_8 && by0
        * xsize_blocks_8 >= 0) by (nonlinear_arith);
    let n: usize = cost_dct8.len();
    assert(by0 * xsize_blocks_8 + bx0 + xsize_blocks_8 + 1 < n);
    let i: usize = by0 * xsize_blocks_8 + bx0;
    let j: usize = i + xsize_blocks_8;
    let c0: (Float32, SubStrategy) = extra.pick_cell(cost_dct8, i);
    let c1: (Float32, SubStrategy) = extra.pick_cell(cost_dct8, i + 1);
    let c2: (Float32, SubStrategy) = extra.pick_cell(cost_dct8, j);
    let c3: (Float32, SubStrategy) = extra.pick_cell(cost_dct8, j + 1);
    (add4(c0.0, c1.0, c2.0, c3.0), [c0.1, c1.1, c2.1, c3.1])
}

impl Grids16 {
    /// Whether the grids have the sizes that an image of `xs8` by `ys8` 8x8
    /// blocks calls for.
    pub open spec fn fits(self, xs8: int, ys8: int) -> bool {
        &&& self.dct_16x8 matches Some(g) ==> g.len() == xs8 * (ys8 / 2)
        &&& self.dct_8x16 matches Some(g) ==> g.len() == (xs8 / 2) * ys8
        &&& self.sub_blocks.reaches(xs8 * ys8)
    }
}

/// The cost of the four DCT8 blocks of the 16x16 region at (`rx`, `ry`).
pub open spec fn four_dct8_cost(dct8: Seq<Float32>, xs8: int, rx: int, ry: int) -> Float32 {
    sum4(
        dct8[corner(xs8, rx, ry, 0)],
        dct8[corner(xs8, rx, ry, 1)],
        dct8[corner(xs8, rx, ry, 2)],
        dct8[corner(xs8, rx, ry, 3)],
    )
}

/// Four blocks with transforms of their own, or plainly four DCT8 where that
/// is what they are.
pub open spec fn sub_block_partition(subs: [SubStrategy; 4]) -> Partition16x16 {
    if subs@[0] == SubStrategy::Dct8 && subs@[1] == SubStrategy::Dct8 && subs@[2]
        == SubStrategy::Dct8 && subs@[3] == SubStrategy::Dct8 {
        Partition16x16::FourDct8x8
    } else {
        Partition16x16::FourSubBlocks(subs)
    }
}

/// The partition of lowest cost for the 16x16 region at (`rx`, `ry`), with
/// its cost.
#[verifier::opaque]
pub open spec fn choice16(
    dct8: Seq<Float32>,
    dct16: Seq<Float32>,
    extra: Grids16,
    xs8: int,
    rx: int,
    ry: int,
) -> (Float32, Partition16x16) {
    let xs16 = xs8 / 2;
    let c0 = (dct16[ry * xs16 + rx], Partition16x16::Dct16x16);
    let c1 = better_if(
        c0,
        pair_across(extra.dct_16x8, xs8, rx, ry),
        Partition16x16::TwoDct16x8Horizontal,
    );
    let c2 = better_if(
        c1,
        pair_down(extra.dct_8x16, xs16, rx, ry),
        Partition16x16::TwoDct8x16Vertical,
    );
    let c3 = better(c2, (four_dct8_cost(dct8, xs8, rx, ry), Partition16x16::FourDct8x8));
    if extra.sub_blocks.some() {
        let cells = cells_choice(dct8, extra.sub_blocks, xs8, rx, ry);
        better(c3, (cells.0, sub_block_partition(cells.1)))
    } else {
        c3
    }
}

/// The cost of a partition of the 16x16 region at (`rx`, `ry`); infinite
/// where it needs a grid that is absent.
#[verifier::opaque]
pub open spec fn partition16_cost(
    p: Partition16x16,
    dct8: Seq<Float32>,
    dct16: Seq<Float32>,
    extra: Grids16,
    xs8: int,
    rx: int,
    ry: int,
) -> Float32 {
    match p {
        Partition16x16::Dct16x16 => dct16[ry * (xs8 / 2) + rx],
        Partition16x16::TwoDct16x8Horizontal => match pair_across(extra.dct_16x8, xs8, rx, ry) {
            Some(c) => c,
            None => infinity(),
        },
        Partition16x16::TwoDct8x16Vertical => match pair_down(extra.dct_8x16, xs8 / 2, rx, ry) {
            Some(c) => c,
            None => infinity(),
        },
        Partition16x16::FourDct8x8 => four_dct8_cost(dct8, xs8, rx, ry),
        Partition16x16::FourSubBlocks(subs) => sum4(
            extra.sub_blocks.cost(dct8, subs@[0], corner(xs8, rx, ry, 0)),
            extra.sub_blocks.cost(dct8, subs@[1], corner(xs8, rx, ry, 1)),
            extra.sub_blocks.cost(dct8, subs@[2], corner(xs8, rx, ry, 2)),
            extra.sub_blocks.cost(dct8, subs@[3], corner(xs8, rx, ry, 3)),
        ),
    }
}

/// Whether every transform of a partition is among those considered.
pub open spec fn legal16(p: Partition16x16, extra: Grids16) -> bool {
    match p {
        Partition16x16::Dct16x16 => true,
        Partition16x16::TwoDct16x8Horizontal => extra.dct_16x8 is Some,
        Partition16x16::TwoDct8x16Vertical => extra.dct_8x16 is Some,
        Partition16x16::FourDct8x8 => true,
        Partition16x16::FourSubBlocks(subs) => extra.sub_blocks.considers(subs@[0])
            && extra.sub_blocks.considers(subs@[1]) && extra.sub_blocks.considers(subs@[2])
            && extra.sub_blocks.considers(subs@[3]),
    }
}

/// A cell of a row-major grid of `xs` columns and `ys` rows.
proof fn lemma_cell(xs: int, ys: int, x: int, y: int)
    requires
        0 <= x < xs,
        0 <= y < ys,
    ensures
        0 <= y * xs,
        y * xs + x < xs * ys,
        y * xs + xs <= xs * ys,
{
    assert(y * xs >= 0 && y * xs + xs <= xs * ys) by (nonlinear_arith)
        requires
            0 <= y < ys,
            xs > 0,
    ;
}

fn pair_cost(grid: &[Float32], i: usize, j: usize) -> (r: Float32)
    requires
        i < grid@.len(),
        j < grid@.len(),
    ensures
        r == sum(grid@[i as int], grid@[j as int]),
{
    grid[i].plus(grid[j])
}

/// The partition of lowest cost for one 16x16 region, with its cost.
fn choose16(
    cost_dct8: &[Float32],
    cost_dct16x16: &[Float32],
    extra: CostGrids16x16<'_>,
    xs16: usize,
    ys16: usize,
    rx: usize,
    ry: usize,
) -> (r: (Float32, Partition16x16))
    requires
        rx < xs16,
        ry < ys16,
        cost_dct8@.len() == (2 * xs16) * (2 * ys16),
        cost_dct16x16@.len() == xs16 * ys16,
        extra@.fits(2 * xs16, 2 * ys16),
    ensures
        r == choice16(cost_dct8@, cost_dct16x16@, extra@, 2 * xs16, rx as int, ry as int),
{
    proof {
        reveal(choice16);
    }
    let n: usize = cost_dct8.len();
    let m: usize = cost_dct16x16.len();
    proof {
        lemma_region(xs16 as int, ys16 as int, rx as int, ry as int);
    }
    assert((2 * xs16) / 2 == xs16 && (2 * ys16) / 2 == ys16);
    let xs8: usize = 2 * xs16;
    let i0: usize = (2 * ry) * xs8 + 2 * rx;
    let i2: usize = (2 * ry + 1) * xs8 + 2 * rx;
    let best: (Float32, Partition16x16) = (
        cost_dct16x16[ry * xs16 + rx],
        Partition16x16::Dct16x16,
    );
    let best: (Float32, Partition16x16) = match extra.dct_16x8 {
        Some(g) => {
            let i: usize = ry * xs8 + 2 * rx;
            improve(best, pair_cost(g, i, i + 1), Partition16x16::TwoDct16x8Horizontal)
        },
        None => best,
    };
    let best: (Float32, Partition16x16) = match extra.dct_8x16 {
        Some(g) => {
            let i: usize = (2 * ry) * xs16 + rx;
            let j: usize = (2 * ry + 1) * xs16 + rx;
            improve(best, pair_cost(g, i, j), Partition16x16::TwoDct8x16Vertical)
        },
        None => best,
    };
    let four: Float32 = add4(
        cost_dct8[i0],
        cost_dct8[i0 + 1],
        cost_dct8[i2],
        cost_dct8[i2 + 1],
    );
    let best: (Float32, Partition16x16) = improve(best, four, Partition16x16::FourDct8x8);
    if extra.sub_blocks.any_present() {
        let cells: (Float32, [SubStrategy; 4]) = pick_subblock_strategies(
            cost_dct8,
            extra.sub_blocks,
            xs8,
            2 * rx,
            2 * ry,
        );
        let subs: [SubStrategy; 4] = cells.1;
        let what: Partition16x16 = if subs[0] == SubStrategy::Dct8 && subs[1] == SubStrategy::Dct8
            && subs[2] == SubStrategy::Dct8 && subs[3] == SubStrategy::Dct8 {
            Partition16x16::FourDct8x8
        } else {
            Partition16x16::FourSubBlocks(subs)
        };
        improve(best, cells.0, what)
    } else {
        best
    }
}

/// The cell with index `k` of a grid of `xs` columns and `ys` rows.
pub proof fn lemma_cell_of_index(xs: int, ys: int, k: int)
    requires
        0 <= k < xs * ys,
        xs >= 0,
        ys >= 0,
    ensures
        0 <= k % xs < xs,
        0 <= k / xs < ys,
        k == (k / xs) * xs + k % xs,
{
    assert(xs > 0) by (nonlinear_arith)
        requires
            0 < xs * ys,
            xs >= 0,
            ys >= 0,
    ;
    vstd::arithmetic::div_mod::lemma_fundamental_div_mod(k, xs);
    let q = k / xs;
    assert(0 <= q) by (nonlinear_arith)
        requires
            k >= 0,
            xs > 0,
            q == k / xs,
    ;
    assert(q < ys) by (nonlinear_arith)
        requires
            xs * q + k % xs == k,
            k % xs >= 0,
            k < xs * ys,
            xs > 0,
    ;
    assert(xs * q == q * xs) by (nonlinear_arith);
}

/// The index of the cell (`x`, `y`) of a grid of `xs` columns.
proof fn lemma_index_of_cell(xs: int, x: int, y: int)
    requires
        0 <= x < xs,
    ensures
        (y * xs + x) % xs == x,
        (y * xs + x) / xs == y,
{
    vstd::arithmetic::div_mod::lemma_fundamental_div_mod_converse(y * xs + x, xs, y, x);
}

/// Picks the partition of lowest cost for each 16x16 region, from DCT16x16
/// and DCT8x8 alone.
pub fn select_partitions_16x16(
    cost_dct8: &[Float32],
    cost_dct16x16: &[Float32],
    xsize_blocks_8: usize,
    ysize_blocks_8: usize,
) -> (r: Vec<Partition16x16>)
    requires
        xsize_blocks_8 % 2 == 0,
        ysize_blocks_8 % 2 == 0,
        cost_dct8@.len() == xsize_blocks_8 * ysize_blocks_8,
        cost_dct16x16@.len() == (xsize_blocks_8 / 2) * (ysize_blocks_8 / 2),
    ensures
        r@.len() == (xsize_blocks_8 / 2) * (ysize_blocks_8 / 2),
        forall|k: int|
            0 <= k < r@.len() ==> #[trigger] r@[k] == choice16(
                cost_dct8@,
                cost_dct16x16@,
                no_extras16(),
                xsize_blocks_8 as int,
                k % (xsize_blocks_8 as int / 2),
                k / (xsize_blocks_8 as int / 2),
            ).1,
{
    select_partitions_16x16_full(
        cost_dct8,
        cost_dct16x16,
        CostGrids16x16::default(),
        xsize_blocks_8,
        ysize_blocks_8,
    )
}

/// Picks the partition of lowest cost for each 16x16 region, in row-major
/// order of the regions. `cost_dct8` has one entry per 8x8 block,
/// `cost_dct16x16` one per region.
pub fn select_partitions_16x16_full(
    cost_dct8: &[Float32],
    cost_dct16x16: &[Float32],
    extra: CostGrids16x16<'_>,
    xsize_blocks_8: usize,
    ysize_blocks_8: usize,
) -> (r: Vec<Partition16x16>)
    requires
        xsize_blocks_8 % 2 == 0,
        ysize_blocks_8 % 2 == 0,
        cost_dct8@.len() == xsize_blocks_8 * ysize_blocks_8,
        cost_dct16x16@.len() == (xsize_blocks_8 / 2) * (ysize_blocks_8 / 2),
        extra@.fits(xsize_blocks_8 as int, ysize_blocks_8 as int),
    ensures
        r@.len() == (xsize_blocks_8 / 2) * (ysize_blocks_8 / 2),
        forall|k: int|
            0 <= k < r@.len() ==> #[trigger] r@[k] == choice16(
                cost_dct8@,
                cost_dct16x16@,
                extra@,
                xsize_blocks_8 as int,
                k % (xsize_blocks_8 as int / 2),
                k / (xsize_blocks_8 as int / 2),
            ).1,
{
    let xs16: usize = xsize_blocks_8 / 2;
    let ys16: usize = ysize_blocks_8 / 2;
    let n: usize = cost_dct16x16.len();
    let mut partitions: Vec<Partition16x16> = Vec::new();
    let mut k: usize = 0;
    assert(2 * xs16 == xsize_blocks_8 && 2 * ys16 == ysize_blocks_8);
    while k < n
        invariant
            n == xs16 * ys16,
            2 * xs16 == xsize_blocks_8,
            2 * ys16 == ysize_blocks_8,
            cost_dct8@.len() == (2 * xs16) * (2 * ys16),
            cost_dct16x16@.len() == xs16 * ys16,
            extra@.fits(2 * xs16, 2 * ys16),
            k <= n,
            partitions@.len() == k,
            forall|j: int|
                0 <= j < k ==> #[trigger] partitions@[j] == choice16(
                    cost_dct8@,
                    cost_dct16x16@,
                    extra@,
                    2 * xs16,
                    j % (xs16 as int),
                    j / (xs16 as int),
                ).1,
        decreases n - k,
    {
        proof {
            lemma_cell_of_index(xs16 as int, ys16 as int, k as int);
        }
        let choice: (Float32, Partition16x16) = choose16(
            cost_dct8,
            cost_dct16x16,
            extra,
            xs16,
            ys16,
            k % xs16,
            k / xs16,
        );
        partitions.push(choice.1);
        k = k + 1;
    }
    partitions
}

/// The cost of a partition of the 16x16 region at (`rx16`, `ry16`), which is
/// infinite where it needs a grid that is absent.
pub fn partition_16x16_cost_with_extras(
    p: Partition16x16,
    cost_dct8: &[Float32],
    cost_dct16x16: &[Float32],
    extra: CostGrids16x16<'_>,
    xsize_blocks_8: usize,
    ysize_blocks_8: usize,
    rx16: usize,
    ry16: usize,
) -> (r: Float32)
    requires
        xsize_blocks_8 % 2 == 0,
        ysize_blocks_8 % 2 == 0,
        rx16 < xsize_blocks_8 / 2,
        ry16 < ysize_blocks_8 / 2,
        cost_dct8@.len() == xsize_blocks_8 * ysize_blocks_8,
        cost_dct16x16@.len() == (xsize_blocks_8 / 2) * (ysize_blocks_8 / 2),
        extra@.fits(xsize_blocks_8 as int, ysize_blocks_8 as int),
    ensures
        r == partition16_cost(
            p,
            cost_dct8@,
            cost_dct16x16@,
            extra@,
            xsize_blocks_8 as int,
            rx16 as int,
            ry16 as int,
        ),
{
    proof {
        reveal(partition16_cost);
    }
    let n: usize = cost_dct8.len();
    let m: usize = cost_dct16x16.len();
    let xs8: usize = xsize_blocks_8;
    let xs16: usize = xsize_blocks_8 / 2;
    let ys16: usize = ysize_blocks_8 / 2;
    assert(xs8 == 2 * xs16 && ysize_blocks_8 == 2 * ys16);
    proof {
        lemma_region(xs16 as int, ys16 as int, rx16 as int, ry16 as int);
    }
    let i0: usize = (2 * ry16) * xs8 + 2 * rx16;
    let i2: usize = (2 * ry16 + 1) * xs8 + 2 * rx16;
    match p {
        Partition16x16::Dct16x16 => cost_dct16x16[ry16 * xs16 + rx16],
        Partition16x16::FourDct8x8 => add4(
            cost_dct8[i0],
            cost_dct8[i0 + 1],
            cost_dct8[i2],
            cost_dct8[i2 + 1],
        ),
        Partition16x16::TwoDct16x8Horizontal => match extra.dct_16x8 {
            Some(g) => {
                let i: usize = ry16 * xs8 + 2 * rx16;
                pair_cost(g, i, i + 1)
            },
            None => Float32::from_bits(INFINITY_MAGNITUDE),
        },
        Partition16x16::TwoDct8x16Vertical => match extra.dct_8x16 {
            Some(g) => pair_cost(g, (2 * ry16) * xs16 + rx16, (2 * ry16 + 1) * xs16 + rx16),
            None => Float32::from_bits(INFINITY_MAGNITUDE),
        },
        Partition16x16::FourSubBlocks(subs) => add4(
            extra.sub_blocks.cell_cost(cost_dct8, subs[0], i0),
            extra.sub_blocks.cell_cost(cost_dct8, subs[1], i0 + 1),
            extra.sub_blocks.cell_cost(cost_dct8, subs[2], i2),
            extra.sub_blocks.cell_cost(cost_dct8, subs[3], i2 + 1),
        ),
    }
}

/// How a 32x32 region is covered.
#[derive(Clone, Copy, Debug, PartialEq, Eq)]
pub enum Partition32x32 {
    /// One DCT32x32.
    Dct32x32,
    /// Two DCT32x16 side by side.
    TwoDct32x16Horizontal,
    /// Two DCT16x32, one above the other.
    TwoDct16x32Vertical,
    /// Four 16x16 regions, each with a partition of its own: top left, top
    /// right, bottom left, bottom right.
    Sub16x16([Partition16x16; 4]),
}

/// Cost grids of the rectangular 32-pixel transforms. What is absent is not
/// considered.
#[derive(Clone, Copy)]
pub struct CostGrids32x32<'a> {
    /// One entry per DCT32x16 block: half as many columns as the image has
    /// 8x8 columns, a quarter as many rows.
    pub dct_32x16: Option<&'a [Float32]>,
    /// One entry per DCT16x32 block: a quarter as many columns as the image
    /// has 8x8 columns, half as many rows.
    pub dct_16x32: Option<&'a [Float32]>,
}

/// What [`CostGrids32x32`] hold.
pub struct Grids32 {
    pub dct_32x16: Option<Seq<Float32>>,
    pub dct_16x32: Option<Seq<Float32>>,
}

impl<'a> View for CostGrids32x32<'a> {
    type V = Grids32;

    open spec fn view(&self) -> Grids32 {
        Grids32 {
            dct_32x16: grid_contents(self.dct_32x16),
            dct_16x32: grid_contents(self.dct_16x32),
        }
    }
}

impl<'a> Default for CostGrids32x32<'a> {
    fn default() -> (r: Self)
        ensures
            r@ == no_extras32(),
    {
        CostGrids32x32 { dct_32x16: None, dct_16x32: None }
    }
}

/// No grid at all.
pub open spec fn no_extras32() -> Grids32 {
    Grids32 { dct_32x16: None, dct_16x32: None }
}

impl Grids32 {
    /// Whether the grids have the sizes that an image of `xs8` by `ys8` 8x8
    /// blocks calls for.
    pub open spec fn fits(self, xs8: int, ys8: int) -> bool {
        &&& self.dct_32x16 matches Some(g) ==> g.len() == (xs8 / 2) * (ys8 / 4)
        &&& self.dct_16x32 matches Some(g) ==> g.len() == (xs8 / 4) * (ys8 / 2)
    }
}

/// The choice for the 16x16 region `k` (top left, top right, bottom left,
/// bottom right) of the 32x32 region at (`rx`, `ry`).
pub open spec fn sub_choice16(
    dct8: Seq<Float32>,
    dct16: Seq<Float32>,
    extra16: Grids16,
    xs8: int,
    rx: int,
    ry: int,
    k: int,
) -> Partition16x16 {
    choice16(dct8, dct16, extra16, xs8, 2 * rx + k % 2, 2 * ry + k / 2).1
}

/// The cost of a partition for the 16x16 region `k` of the 32x32 region at
/// (`rx`, `ry`).
pub open spec fn sub_cost16(
    p: Partition16x16,
    dct8: Seq<Float32>,
    dct16: Seq<Float32>,
    extra16: Grids16,
    xs8: int,
    rx: int,
    ry: int,
    k: int,
) -> Float32 {
    partition16_cost(p, dct8, dct16, extra16, xs8, 2 * rx + k % 2, 2 * ry + k / 2)
}

/// The cost of four partitions for the 16x16 regions of the 32x32 region at
/// (`rx`, `ry`).
pub open spec fn four_regions16_cost(
    subs: [Partition16x16; 4],
    dct8: Seq<Float32>,
    dct16: Seq<Float32>,
    extra16: Grids16,
    xs8: int,
    rx: int,
    ry: int,
) -> Float32 {
    sum4(
        sub_cost16(subs@[0], dct8, dct16, extra16, xs8, rx, ry, 0),
        sub_cost16(subs@[1], dct8, dct16, extra16, xs8, rx, ry, 1),
        sub_cost16(subs@[2], dct8, dct16, extra16, xs8, rx, ry, 2),
        sub_cost16(subs@[3], dct8, dct16, extra16, xs8, rx, ry, 3),
    )
}

/// The choices for the 16x16 regions of the 32x32 region at (`rx`, `ry`).
pub open spec fn region_choices(
    dct8: Seq<Float32>,
    dct16: Seq<Float32>,
    extra16: Grids16,
    xs8: int,
    rx: int,
    ry: int,
) -> [Partition16x16; 4] {
    [
        sub_choice16(dct8, dct16, extra16, xs8, rx, ry, 0),
        sub_choice16(dct8, dct16, extra16, xs8, rx, ry, 1),
        sub_choice16(dct8, dct16, extra16, xs8, rx, ry, 2),
        sub_choice16(dct8, dct16, extra16, xs8, rx, ry, 3),
    ]
}

/// The partition of lowest cost for the 32x32 region at (`rx`, `ry`), with
/// its cost.
#[verifier::opaque]
pub open spec fn choice32(
    dct8: Seq<Float32>,
    dct16: Seq<Float32>,
    dct32: Seq<Float32>,
    extra: Grids32,
    extra16: Grids16,
    xs8: int,
    rx: int,
    ry: int,
) -> (Float32, Partition32x32) {
    let subs = region_choices(dct8, dct16, extra16, xs8, rx, ry);
    let c0 = (dct32[ry * (xs8 / 4) + rx], Partition32x32::Dct32x32);
    let c1 = better_if(
        c0,
        pair_across(extra.dct_32x16, xs8 / 2, rx, ry),
        Partition32x32::TwoDct32x16Horizontal,
    );
    let c2 = better_if(
        c1,
        pair_down(extra.dct_16x32, xs8 / 4, rx, ry),
        Partition32x32::TwoDct16x32Vertical,
    );
    better(
        c2,
        (
            four_regions16_cost(subs, dct8, dct16, extra16, xs8, rx, ry),
            Partition32x32::Sub16x16(subs),
        ),
    )
}

/// The partition of lowest cost for the 32x32 region at (`rx`, `ry`) where
/// DCT32x32 is not considered, with its cost.
#[verifier::opaque]
pub open spec fn choice32_of_parts(
    dct8: Seq<Float32>,
    dct16: Seq<Float32>,
    extra: Grids32,
    extra16: Grids16,
    xs8: int,
    rx: int,
    ry: int,
) -> (Float32, Partition32x32) {
    let subs = region_choices(dct8, dct16, extra16, xs8, rx, ry);
    let c0 = (
        four_regions16_cost(subs, dct8, dct16, extra16, xs8, rx, ry),
        Partition32x32::Sub16x16(subs),
    );
    let c1 = better_if(
        c0,
        pair_across(extra.dct_32x16, xs8 / 2, rx, ry),
        Partition32x32::TwoDct32x16Horizontal,
    );
    better_if(
        c1,
        pair_down(extra.dct_16x32, xs8 / 4, rx, ry),
        Partition32x32::TwoDct16x32Vertical,
    )
}

/// Picks the partition of lowest cost for each 32x32 region, without the
/// rectangular transforms.
pub fn select_partitions_32x32(
    cost_dct8: &[Float32],
    cost_dct16x16: &[Float32],
    cost_dct32x32: &[Float32],
    xsize_blocks_8: usize,
    ysize_blocks_8: usize,
) -> (r: Vec<Partition32x32>)
    requires
        xsize_blocks_8 % 4 == 0,
        ysize_blocks_8 % 4 == 0,
        cost_dct8@.len() == xsize_blocks_8 * ysize_blocks_8,
        cost_dct16x16@.len() == (xsize_blocks_8 / 2) * (ysize_blocks_8 / 2),
        cost_dct32x32@.len() == (xsize_blocks_8 / 4) * (ysize_blocks_8 / 4),
    ensures
        r@.len() == (xsize_blocks_8 / 4) * (ysize_blocks_8 / 4),
        forall|k: int|
            0 <= k < r@.len() ==> #[trigger] r@[k] == choice32(
                cost_dct8@,
                cost_dct16x16@,
                cost_dct32x32@,
                no_extras32(),
                no_extras16(),
                xsize_blocks_8 as int,
                k % (xsize_blocks_8 as int / 4),
                k / (xsize_blocks_8 as int / 4),
            ).1,
{
    select_partitions_32x32_full(
        cost_dct8,
        cost_dct16x16,
        cost_dct32x32,
        CostGrids32x32::default(),
        xsize_blocks_8,
        ysize_blocks_8,
    )
}

/// Picks the partition of lowest cost for each 32x32 region, with the
/// rectangular 32-pixel transforms whose grids are present.
pub fn select_partitions_32x32_full(
    cost_dct8: &[Float32],
    cost_dct16x16: &[Float32],
    cost_dct32x32: &[Float32],
    extra: CostGrids32x32<'_>,
    xsize_blocks_8: usize,
    ysize_blocks_8: usize,
) -> (r: Vec<Partition32x32>)
    requires
        xsize_blocks_8 % 4 == 0,
        ysize_blocks_8 % 4 == 0,
        cost_dct8@.len() == xsize_blocks_8 * ysize_blocks_8,
        cost_dct16x16@.len() == (xsize_blocks_8 / 2) * (ysize_blocks_8 / 2),
        cost_dct32x32@.len() == (xsize_blocks_8 / 4) * (ysize_blocks_8 / 4),
        extra@.fits(xsize_blocks_8 as int, ysize_blocks_8 as int),
    ensures
        r@.len() == (xsize_blocks_8 / 4) * (ysize_blocks_8 / 4),
        forall|k: int|
            0 <= k < r@.len() ==> #[trigger] r@[k] == choice32(
                cost_dct8@,
                cost_dct16x16@,
                cost_dct32x32@,
                extra@,
                no_extras16(),
                xsize_blocks_8 as int,
                k % (xsize_blocks_8 as int / 4),
                k / (xsize_blocks_8 as int / 4),
            ).1,
{
    select_partitions_32x32_with_extras16(
        cost_dct8,
        cost_dct16x16,
        cost_dct32x32,
        extra,
        CostGrids16x16::default(),
        xsize_blocks_8,
        ysize_blocks_8,
    )
}

/// Picks the partition of lowest cost for each 32x32 region, in row-major
/// order of the regions, from all the grids that are present. A region that
/// is split takes for each 16x16 quarter the quarter's own best partition.
pub fn select_partitions_32x32_with_extras16(
    cost_dct8: &[Float32],
    cost_dct16x16: &[Float32],
    cost_dct32x32: &[Float32],
    extra: CostGrids32x32<'_>,
    extra16: CostGrids16x16<'_>,
    xsize_blocks_8: usize,
    ysize_blocks_8: usize,
) -> (r: Vec<Partition32x32>)
    requires
        xsize_blocks_8 % 4 == 0,
        ysize_blocks_8 % 4 == 0,
        cost_dct8@.len() == xsize_blocks_8 * ysize_blocks_8,
        cost_dct16x16@.len() == (xsize_blocks_8 / 2) * (ysize_blocks_8 / 2),
        cost_dct32x32@.len() == (xsize_blocks_8 / 4) * (ysize_blocks_8 / 4),
        extra@.fits(xsize_blocks_8 as int, ysize_blocks_8 as int),
        extra16@.fits(xsize_blocks_8 as int, ysize_blocks_8 as int),
    ensures
        r@.len() == (xsize_blocks_8 / 4) * (ysize_blocks_8 / 4),
        forall|k: int|
            0 <= k < r@.len() ==> #[trigger] r@[k] == choice32(
                cost_dct8@,
                cost_dct16x16@,
                cost_dct32x32@,
                extra@,
                extra16@,
                xsize_blocks_8 as int,
                k % (xsize_blocks_8 as int / 4),
                k / (xsize_blocks_8 as int / 4),
            ).1,
{
    let xs32: usize = xsize_blocks_8 / 4;
    let ys32: usize = ysize_blocks_8 / 4;
    let n: usize = cost_dct32x32.len();
    let sub16: Vec<Partition16x16> = select_partitions_16x16_full(
        cost_dct8,
        cost_dct16x16,
        extra16,
        xsize_blocks_8,
        ysize_blocks_8,
    );
    let mut partitions: Vec<Partition32x32> = Vec::new();
    let mut k: usize = 0;
    assert(4 * xs32 == xsize_blocks_8 && 4 * ys32 == ysize_blocks_8);
    assert(xsize_blocks_8 / 2 == 2 * xs32 && ysize_blocks_8 / 2 == 2 * ys32);
    while k < n
        invariant
            n == xs32 * ys32,
            4 * xs32 == xsize_blocks_8,
            4 * ys32 == ysize_blocks_8,
            cost_dct8@.len() == (4 * xs32) * (4 * ys32),
            cost_dct16x16@.len() == (2 * xs32) * (2 * ys32),
            cost_dct32x32@.len() == xs32 * ys32,
            extra@.fits(4 * xs32, 4 * ys32),
            extra16@.fits(4 * xs32, 4 * ys32),
            sub16@.len() == (2 * xs32) * (2 * ys32),
            forall|j: int|
                0 <= j < sub16@.len() ==> #[trigger] sub16@[j] == choice16(
                    cost_dct8@,
                    cost_dct16x16@,
                    extra16@,
                    4 * xs32,
                    j % (2 * xs32),
                    j / (2 * xs32),
                ).1,
            k <= n,
            partitions@.len() == k,
            forall|j: int|
                0 <= j < k ==> #[trigger] partitions@[j] == choice32(
                    cost_dct8@,
                    cost_dct16x16@,
                    cost_dct32x32@,
                    extra@,
                    extra16@,
                    4 * xs32,
                    j % (xs32 as int),
                    j / (xs32 as int),
                ).1,
        decreases n - k,
    {
        proof {
            lemma_cell_of_index(xs32 as int, ys32 as int, k as int);
        }
        let choice: (Float32, Partition32x32) = choose32(
            cost_dct8,
            cost_dct16x16,
            cost_dct32x32,
            extra,
            extra16,
            &sub16,
            xs32,
            ys32,
            k % xs32,
            k / xs32,
        );
        partitions.push(choice.1);
        k = k + 1;
    }
    partitions
}

/// Picks the partition of lowest cost for each 32x32 region, in row-major
/// order of the regions, where DCT32x32 is not considered. A region that is
/// split takes for each 16x16 quarter the quarter's own best partition.
pub fn select_partitions_32x32_of_parts(
    cost_dct8: &[Float32],
    cost_dct16x16: &[Float32],
    extra: CostGrids32x32<'_>,
    extra16: CostGrids16x16<'_>,
    xsize_blocks_8: usize,
    ysize_blocks_8: usize,
) -> (r: Vec<Partition32x32>)
    requires
        xsize_blocks_8 % 4 == 0,
        ysize_blocks_8 % 4 == 0,
        cost_dct8@.len() == xsize_blocks_8 * ysize_blocks_8,
        cost_dct16x16@.len() == (xsize_blocks_8 / 2) * (ysize_blocks_8 / 2),
        extra@.fits(xsize_blocks_8 as int, ysize_blocks_8 as int),
        extra16@.fits(xsize_blocks_8 as int, ysize_blocks_8 as int),
    ensures
        r@.len() == (xsize_blocks_8 / 4) * (ysize_blocks_8 / 4),
        forall|k: int|
            0 <= k < r@.len() ==> #[trigger] r@[k] == choice32_of_parts(
                cost_dct8@,
                cost_dct16x16@,
                extra@,
                extra16@,
                xsize_blocks_8 as int,
                k % (xsize_blocks_8 as int / 4),
                k / (xsize_blocks_8 as int / 4),
            ).1,
{
    let xs32: usize = xsize_blocks_8 / 4;
    let ys32: usize = ysize_blocks_8 / 4;
    let sub16: Vec<Partition16x16> = select_partitions_16x16_full(
        cost_dct8,
        cost_dct16x16,
        extra16,
        xsize_blocks_8,
        ysize_blocks_8,
    );
    let mut partitions: Vec<Partition32x32> = Vec::new();
    let mut k: usize = 0;
    assert(4 * xs32 == xsize_blocks_8 && 4 * ys32 == ysize_blocks_8);
    assert(xsize_blocks_8 / 2 == 2 * xs32 && ysize_blocks_8 / 2 == 2 * ys32);
    let quarters: usize = cost_dct16x16.len();
    assert(xs32 * ys32 <= (2 * xs32) * (2 * ys32)) by (nonlinear_arith)
        requires
            xs32 >= 0,
            ys32 >= 0,
    ;
    let n: usize = xs32 * ys32;
    while k < n
        invariant
            n == xs32 * ys32,
            4 * xs32 == xsize_blocks_8,
            4 * ys32 == ysize_blocks_8,
            cost_dct8@.len() == (4 * xs32) * (4 * ys32),
            cost_dct16x16@.len() == (2 * xs32) * (2 * ys32),
            extra@.fits(4 * xs32, 4 * ys32),
            extra16@.fits(4 * xs32, 4 * ys32),
            sub16@.len() == (2 * xs32) * (2 * ys32),
            forall|j: int|
                0 <= j < sub16@.len() ==> #[trigger] sub16@[j] == choice16(
                    cost_dct8@,
                    cost_dct16x16@,
                    extra16@,
                    4 * xs32,
                    j % (2 * xs32),
                    j / (2 * xs32),
                ).1,
            k <= n,
            partitions@.len() == k,
            forall|j: int|
                0 <= j < k ==> #[trigger] partitions@[j] == choice32_of_parts(
                    cost_dct8@,
                    cost_dct16x16@,
                        extra@,
                    extra16@,
                    4 * xs32,
                    j % (xs32 as int),
                    j / (xs32 as int),
                ).1,
        decreases n - k,
    {
        proof {
            lemma_cell_of_index(xs32 as int, ys32 as int, k as int);
        }
        let choice: (Float32, Partition32x32) = choose32_of_parts(
            cost_dct8,
            cost_dct16x16,
            extra,
            extra16,
            &sub16,
            xs32,
            ys32,
            k % xs32,
            k / xs32,
        );
        partitions.push(choice.1);
        k = k + 1;
    }
    partitions
}

/// Where the parts of the region at (`rx`, `ry`) lie, among `xr` by `yr`
/// regions: in a grid with two columns and two rows per region, with two
/// columns per region, with two rows per region, and with one entry per
/// region.
pub proof fn lemma_region(xr: int, yr: int, rx: int, ry: int)
    requires
        0 <= rx < xr,
        0 <= ry < yr,
    ensures
        0 <= (2 * ry) * (2 * xr),
        (2 * ry) * (2 * xr) + 2 * rx + 1 < (2 * xr) * (2 * yr),
        0 <= (2 * ry + 1) * (2 * xr),
        (2 * ry + 1) * (2 * xr) + 2 * rx + 1 < (2 * xr) * (2 * yr),
        0 <= ry * (2 * xr),
        ry * (2 * xr) + 2 * rx + 1 < (2 * xr) * yr <= (2 * xr) * (2 * yr),
        0 <= (2 * ry) * xr,
        (2 * ry) * xr + rx < xr * (2 * yr) <= (2 * xr) * (2 * yr),
        0 <= (2 * ry + 1) * xr,
        (2 * ry + 1) * xr + rx < xr * (2 * yr),
        0 <= ry * xr,
        ry * xr + rx < xr * yr <= (2 * xr) * yr,
        2 * xr <= (2 * xr) * (2 * yr),
        2 * yr <= (2 * xr) * (2 * yr),
{
    lemma_cell(xr, yr, rx, ry);
    lemma_cell(2 * xr, 2 * yr, 2 * rx + 1, 2 * ry);
    lemma_cell(2 * xr, 2 * yr, 2 * rx + 1, 2 * ry + 1);
    lemma_cell(2 * xr, yr, 2 * rx + 1, ry);
    lemma_cell(xr, 2 * yr, rx, 2 * ry);
    lemma_cell(xr, 2 * yr, rx, 2 * ry + 1);
    assert((2 * xr) * yr <= (2 * xr) * (2 * yr)) by (nonlinear_arith)
        requires
            xr >= 1,
            yr >= 1,
    ;
    assert(xr * (2 * yr) <= (2 * xr) * (2 * yr)) by (nonlinear_arith)
        requires
            xr >= 1,
            yr >= 1,
    ;
    assert(xr * yr <= (2 * xr) * yr) by (nonlinear_arith)
        requires
            xr >= 1,
            yr >= 1,
    ;
    assert(2 * yr <= (2 * xr) * (2 * yr)) by (nonlinear_arith)
        requires
            xr >= 1,
            yr >= 1,
    ;
    assert(2 * xr <= (2 * xr) * (2 * yr)) by (nonlinear_arith)
        requires
            xr >= 1,
            yr >= 1,
    ;
}

/// The cost of four partitions for the 16x16 regions of one 32x32 region.
fn four_regions_cost(
    subs: [Partition16x16; 4],
    cost_dct8: &[Float32],
    cost_dct16x16: &[Float32],
    extra16: CostGrids16x16<'_>,
    xs32: usize,
    ys32: usize,
    rx: usize,
    ry: usize,
) -> (r: Float32)
    requires
        rx < xs32,
        ry < ys32,
        cost_dct8@.len() == (4 * xs32) * (4 * ys32),
        cost_dct16x16@.len() == (2 * xs32) * (2 * ys32),
        extra16@.fits(4 * xs32, 4 * ys32),
    ensures
        r == four_regions16_cost(
            subs,
            cost_dct8@,
            cost_dct16x16@,
            extra16@,
            4 * xs32,
            rx as int,
            ry as int,
        ),
{
    let n: usize = cost_dct16x16.len();
    proof {
        lemma_region(xs32 as int, ys32 as int, rx as int, ry as int);
        lemma_region(2 * xs32, 2 * ys32, 2 * rx, 2 * ry);
    }
    let m: usize = cost_dct8.len();
    let xs8: usize = 4 * xs32;
    let ys8: usize = 4 * ys32;
    let x: usize = 2 * rx;
    let y: usize = 2 * ry;
    let s0: Float32 = partition_16x16_cost_with_extras(
        subs[0],
        cost_dct8,
        cost_dct16x16,
        extra16,
        xs8,
        ys8,
        x,
        y,
    );
    let s1: Float32 = partition_16x16_cost_with_extras(
        subs[1],
        cost_dct8,
        cost_dct16x16,
        extra16,
        xs8,
        ys8,
        x + 1,
        y,
    );
    let s2: Float32 = partition_16x16_cost_with_extras(
        subs[2],
        cost_dct8,
        cost_dct16x16,
        extra16,
        xs8,
        ys8,
        x,
        y + 1,
    );
    let s3: Float32 = partition_16x16_cost_with_extras(
        subs[3],
        cost_dct8,
        cost_dct16x16,
        extra16,
        xs8,
        ys8,
        x + 1,
        y + 1,
    );
    add4(s0, s1, s2, s3)
}

/// The choices for the 16x16 regions of one 32x32 region, with their cost.
fn split32(
    cost_dct8: &[Float32],
    cost_dct16x16: &[Float32],
    extra16: CostGrids16x16<'_>,
    sub16: &Vec<Partition16x16>,
    xs32: usize,
    ys32: usize,
    rx: usize,
    ry: usize,
) -> (r: (Float32, [Partition16x16; 4]))
    requires
        rx < xs32,
        ry < ys32,
        cost_dct8@.len() == (4 * xs32) * (4 * ys32),
        cost_dct16x16@.len() == (2 * xs32) * (2 * ys32),
        extra16@.fits(4 * xs32, 4 * ys32),
        sub16@.len() == (2 * xs32) * (2 * ys32),
        forall|j: int|
            0 <= j < sub16@.len() ==> #[trigger] sub16@[j] == choice16(
                cost_dct8@,
                cost_dct16x16@,
                extra16@,
                4 * xs32,
                j % (2 * xs32),
                j / (2 * xs32),
            ).1,
    ensures
        r.1 == region_choices(
            cost_dct8@,
            cost_dct16x16@,
            extra16@,
            4 * xs32,
            rx as int,
            ry as int,
        ),
        r.0 == four_regions16_cost(
            r.1,
            cost_dct8@,
            cost_dct16x16@,
            extra16@,
            4 * xs32,
            rx as int,
            ry as int,
        ),
{
    let n: usize = cost_dct16x16.len();
    proof {
        lemma_region(xs32 as int, ys32 as int, rx as int, ry as int);
        lemma_index_of_cell(2 * xs32, 2 * rx as int, 2 * ry as int);
        lemma_index_of_cell(2 * xs32, 2 * rx + 1, 2 * ry as int);
        lemma_index_of_cell(2 * xs32, 2 * rx as int, 2 * ry + 1);
        lemma_index_of_cell(2 * xs32, 2 * rx + 1, 2 * ry + 1);
    }
    let xs16: usize = 2 * xs32;
    let x: usize = 2 * rx;
    let y: usize = 2 * ry;
    let i0: usize = y * xs16 + x;
    let i2: usize = (y + 1) * xs16 + x;
    let subs: [Partition16x16; 4] = [sub16[i0], sub16[i0 + 1], sub16[i2], sub16[i2 + 1]];
    let cost: Float32 = four_regions_cost(
        subs,
        cost_dct8,
        cost_dct16x16,
        extra16,
        xs32,
        ys32,
        rx,
        ry,
    );
    (cost, subs)
}

/// The partition of lowest cost for one 32x32 region, with its cost.
fn choose32(
    cost_dct8: &[Float32],
    cost_dct16x16: &[Float32],
    cost_dct32x32: &[Float32],
    extra: CostGrids32x32<'_>,
    extra16: CostGrids16x16<'_>,
    sub16: &Vec<Partition16x16>,
    xs32: usize,
    ys32: usize,
    rx: usize,
    ry: usize,
) -> (r: (Float32, Partition32x32))
    requires
        rx < xs32,
        ry < ys32,
        cost_dct8@.len() == (4 * xs32) * (4 * ys32),
        cost_dct16x16@.len() == (2 * xs32) * (2 * ys32),
        cost_dct32x32@.len() == xs32 * ys32,
        extra@.fits(4 * xs32, 4 * ys32),
        extra16@.fits(4 * xs32, 4 * ys32),
        sub16@.len() == (2 * xs32) * (2 * ys32),
        forall|j: int|
            0 <= j < sub16@.len() ==> #[trigger] sub16@[j] == choice16(
                cost_dct8@,
                cost_dct16x16@,
                extra16@,
                4 * xs32,
                j % (2 * xs32),
                j / (2 * xs32),
            ).1,
    ensures
        r == choice32(
            cost_dct8@,
            cost_dct16x16@,
            cost_dct32x32@,
            extra@,
            extra16@,
            4 * xs32,
            rx as int,
            ry as int,
        ),
{
    proof {
        reveal(choice32);
    }
    let n: usize = cost_dct16x16.len();
    proof {
        lemma_region(xs32 as int, ys32 as int, rx as int, ry as int);
    }
    assert((4 * xs32) / 2 == 2 * xs32 && (4 * xs32) / 4 == xs32);
    assert((4 * ys32) / 2 == 2 * ys32 && (4 * ys32) / 4 == ys32);
    let xs16: usize = 2 * xs32;
    let split: (Float32, [Partition16x16; 4]) = split32(
        cost_dct8,
        cost_dct16x16,
        extra16,
        sub16,
        xs32,
        ys32,
        rx,
        ry,
    );
    let best: (Float32, Partition32x32) = (cost_dct32x32[ry * xs32 + rx], Partition32x32::Dct32x32);
    let best: (Float32, Partition32x32) = match extra.dct_32x16 {
        Some(g) => {
            let i: usize = ry * xs16 + 2 * rx;
            improve(best, pair_cost(g, i, i + 1), Partition32x32::TwoDct32x16Horizontal)
        },
        None => best,
    };
    let best: (Float32, Partition32x32) = match extra.dct_16x32 {
        Some(g) => {
            let i: usize = (2 * ry) * xs32 + rx;
            let j: usize = (2 * ry + 1) * xs32 + rx;
            improve(best, pair_cost(g, i, j), Partition32x32::TwoDct16x32Vertical)
        },
        None => best,
    };
    improve(best, split.0, Partition32x32::Sub16x16(split.1))
}

/// The partition of lowest cost for one 32x32 region where DCT32x32 is not
/// considered, with its cost.
fn choose32_of_parts(
    cost_dct8: &[Float32],
    cost_dct16x16: &[Float32],
    extra: CostGrids32x32<'_>,
    extra16: CostGrids16x16<'_>,
    sub16: &Vec<Partition16x16>,
    xs32: usize,
    ys32: usize,
    rx: usize,
    ry: usize,
) -> (r: (Float32, Partition32x32))
    requires
        rx < xs32,
        ry < ys32,
        cost_dct8@.len() == (4 * xs32) * (4 * ys32),
        cost_dct16x16@.len() == (2 * xs32) * (2 * ys32),
        extra@.fits(4 * xs32, 4 * ys32),
        extra16@.fits(4 * xs32, 4 * ys32),
        sub16@.len() == (2 * xs32) * (2 * ys32),
        forall|j: int|
            0 <= j < sub16@.len() ==> #[trigger] sub16@[j] == choice16(
                cost_dct8@,
                cost_dct16x16@,
                extra16@,
                4 * xs32,
                j % (2 * xs32),
                j / (2 * xs32),
            ).1,
    ensures
        r == choice32_of_parts(
            cost_dct8@,
            cost_dct16x16@,
            extra@,
            extra16@,
            4 * xs32,
            rx as int,
            ry as int,
        ),
{
    proof {
        reveal(choice32_of_parts);
    }
    let n: usize = cost_dct16x16.len();
    proof {
        lemma_region(xs32 as int, ys32 as int, rx as int, ry as int);
    }
    assert((4 * xs32) / 2 == 2 * xs32 && (4 * xs32) / 4 == xs32);
    assert((4 * ys32) / 2 == 2 * ys32 && (4 * ys32) / 4 == ys32);
    let xs16: usize = 2 * xs32;
    let split: (Float32, [Partition16x16; 4]) = split32(
        cost_dct8,
        cost_dct16x16,
        extra16,
        sub16,
        xs32,
        ys32,
        rx,
        ry,
    );
    let best: (Float32, Partition32x32) = (split.0, Partition32x32::Sub16x16(split.1));
    let best: (Float32, Partition32x32) = match extra.dct_32x16 {
        Some(g) => {
            let i: usize = ry * xs16 + 2 * rx;
            improve(best, pair_cost(g, i, i + 1), Partition32x32::TwoDct32x16Horizontal)
        },
        None => best,
    };
    match extra.dct_16x32 {
        Some(g) => {
            let i: usize = (2 * ry) * xs32 + rx;
            let j: usize = (2 * ry + 1) * xs32 + rx;
            improve(best, pair_cost(g, i, j), Partition32x32::TwoDct16x32Vertical)
        },
        None => best,
    }
}

/// How a 64x64 region is covered.
#[derive(Clone, Copy, Debug, PartialEq, Eq)]
pub enum Partition64x64 {
    /// One DCT64x64.
    Dct64x64,
    /// Two DCT64x32 side by side.
    TwoDct64x32Horizontal,
    /// Two DCT32x64, one above the other.
    TwoDct32x64Vertical,
    /// Four 32x32 regions, each with a partition of its own: top left, top
    /// right, bottom left, bottom right.
    Sub32x32([Partition32x32; 4]),
}

/// Cost grids of the rectangular 64-pixel transforms. What is absent is not
/// considered.
#[derive(Clone, Copy)]
pub struct CostGrids64x64<'a> {
    /// One entry per DCT64x32 block: a quarter as many columns as the image
    /// has 8x8 columns, an eighth as many rows.
    pub dct_64x32: Option<&'a [Float32]>,
    /// One entry per DCT32x64 block: an eighth as many columns as the image
    /// has 8x8 columns, a quarter as many rows.
    pub dct_32x64: Option<&'a [Float32]>,
}

/// What [`CostGrids64x64`] hold.
pub struct Grids64 {
    pub dct_64x32: Option<Seq<Float32>>,
    pub dct_32x64: Option<Seq<Float32>>,
}

impl<'a> View for CostGrids64x64<'a> {
    type V = Grids64;

    open spec fn view(&self) -> Grids64 {
        Grids64 {
            dct_64x32: grid_contents(self.dct_64x32),
            dct_32x64: grid_contents(self.dct_32x64),
        }
    }
}

impl<'a> Default for CostGrids64x64<'a> {
    fn default() -> (r: Self)
        ensures
            r@ == no_extras64(),
    {
        CostGrids64x64 { dct_64x32: None, dct_32x64: None }
    }
}

/// No grid at all.
pub open spec fn no_extras64() -> Grids64 {
    Grids64 { dct_64x32: None, dct_32x64: None }
}

impl Grids64 {
    /// Whether the grids have the sizes that an image of `xs8` by `ys8` 8x8
    /// blocks calls for.
    pub open spec fn fits(self, xs8: int, ys8: int) -> bool {
        &&& self.dct_64x32 matches Some(g) ==> g.len() == (xs8 / 4) * (ys8 / 8)
        &&& self.dct_32x64 matches Some(g) ==> g.len() == (xs8 / 8) * (ys8 / 4)
    }
}

/// The cost of a partition of the 32x32 region at (`rx`, `ry`); infinite
/// where it needs a grid that is absent.
pub open spec fn partition32_cost(
    p: Partition32x32,
    dct8: Seq<Float32>,
    dct16: Seq<Float32>,
    dct32: Seq<Float32>,
    extra: Grids32,
    extra16: Grids16,
    xs8: int,
    rx: int,
    ry: int,
) -> Float32 {
    match p {
        Partition32x32::Dct32x32 => dct32[ry * (xs8 / 4) + rx],
        Partition32x32::TwoDct32x16Horizontal => match pair_across(
            extra.dct_32x16,
            xs8 / 2,
            rx,
            ry,
        ) {
            Some(c) => c,
            None => infinity(),
        },
        Partition32x32::TwoDct16x32Vertical => match pair_down(extra.dct_16x32, xs8 / 4, rx, ry) {
            Some(c) => c,
            None => infinity(),
        },
        Partition32x32::Sub16x16(subs) => four_regions16_cost(
            subs,
            dct8,
            dct16,
            extra16,
            xs8,
            rx,
            ry,
        ),
    }
}

/// The choice for the 32x32 region `k` of the 64x64 region at (`rx`, `ry`).
pub open spec fn sub_choice32(
    dct8: Seq<Float32>,
    dct16: Seq<Float32>,
    dct32: Seq<Float32>,
    extra32: Grids32,
    extra16: Grids16,
    xs8: int,
    rx: int,
    ry: int,
    k: int,
) -> Partition32x32 {
    choice32(dct8, dct16, dct32, extra32, extra16, xs8, 2 * rx + k % 2, 2 * ry + k / 2).1
}

/// The quarters' own choices in the 64x64 region at (`rx`, `ry`).
pub open spec fn quarter_choices(
    dct8: Seq<Float32>,
    dct16: Seq<Float32>,
    dct32: Seq<Float32>,
    extra32: Grids32,
    extra16: Grids16,
    xs8: int,
    rx: int,
    ry: int,
) -> [Partition32x32; 4] {
    [
        sub_choice32(dct8, dct16, dct32, extra32, extra16, xs8, rx, ry, 0),
        sub_choice32(dct8, dct16, dct32, extra32, extra16, xs8, rx, ry, 1),
        sub_choice32(dct8, dct16, dct32, extra32, extra16, xs8, rx, ry, 2),
        sub_choice32(dct8, dct16, dct32, extra32, extra16, xs8, rx, ry, 3),
    ]
}

/// The cost of a partition for the 32x32 region `k` of the 64x64 region at
/// (`rx`, `ry`).
pub open spec fn sub_cost32(
    p: Partition32x32,
    dct8: Seq<Float32>,
    dct16: Seq<Float32>,
    dct32: Seq<Float32>,
    extra32: Grids32,
    extra16: Grids16,
    xs8: int,
    rx: int,
    ry: int,
    k: int,
) -> Float32 {
    partition32_cost(
        p,
        dct8,
        dct16,
        dct32,
        extra32,
        extra16,
        xs8,
        2 * rx + k % 2,
        2 * ry + k / 2,
    )
}

/// The cost of four partitions for the 32x32 regions of the 64x64 region at
/// (`rx`, `ry`).
pub open spec fn split64_cost(
    subs: [Partition32x32; 4],
    dct8: Seq<Float32>,
    dct16: Seq<Float32>,
    dct32: Seq<Float32>,
    extra32: Grids32,
    extra16: Grids16,
    xs8: int,
    rx: int,
    ry: int,
) -> Float32 {
    sum4(
        sub_cost32(subs@[0], dct8, dct16, dct32, extra32, extra16, xs8, rx, ry, 0),
        sub_cost32(subs@[1], dct8, dct16, dct32, extra32, extra16, xs8, rx, ry, 1),
        sub_cost32(subs@[2], dct8, dct16, dct32, extra32, extra16, xs8, rx, ry, 2),
        sub_cost32(subs@[3], dct8, dct16, dct32, extra32, extra16, xs8, rx, ry, 3),
    )
}

/// The partition of lowest cost for the 64x64 region at (`rx`, `ry`), with
/// its cost.
#[verifier::opaque]
pub open spec fn choice64(
    dct8: Seq<Float32>,
    dct16: Seq<Float32>,
    dct32: Seq<Float32>,
    dct64: Seq<Float32>,
    extra32: Grids32,
    extra64: Grids64,
    extra16: Grids16,
    xs8: int,
    rx: int,
    ry: int,
) -> (Float32, Partition64x64) {
    let subs = quarter_choices(dct8, dct16, dct32, extra32, extra16, xs8, rx, ry);
    let c0 = (dct64[ry * (xs8 / 8) + rx], Partition64x64::Dct64x64);
    let c1 = better_if(
        c0,
        pair_across(extra64.dct_64x32, xs8 / 4, rx, ry),
        Partition64x64::TwoDct64x32Horizontal,
    );
    let c2 = better_if(
        c1,
        pair_down(extra64.dct_32x64, xs8 / 8, rx, ry),
        Partition64x64::TwoDct32x64Vertical,
    );
    better(
        c2,
        (
            split64_cost(subs, dct8, dct16, dct32, extra32, extra16, xs8, rx, ry),
            Partition64x64::Sub32x32(subs),
        ),
    )
}

/// Picks the partition of lowest cost for each 64x64 region, without the rectangular
/// 16-pixel transforms and the 8x8-block transforms other than the DCT8.
pub fn select_partitions_64x64(
    cost_dct8: &[Float32],
    cost_dct16x16: &[Float32],
    cost_dct32x32: &[Float32],
    cost_dct64x64: &[Float32],
    extra32: CostGrids32x32<'_>,
    extra64: CostGrids64x64<'_>,
    xsize_blocks_8: usize,
    ysize_blocks_8: usize,
) -> (r: Vec<Partition64x64>)
    requires
        xsize_blocks_8 % 8 == 0,
        ysize_blocks_8 % 8 == 0,
        cost_dct8@.len() == xsize_blocks_8 * ysize_blocks_8,
        cost_dct16x16@.len() == (xsize_blocks_8 / 2) * (ysize_blocks_8 / 2),
        cost_dct32x32@.len() == (xsize_blocks_8 / 4) * (ysize_blocks_8 / 4),
        cost_dct64x64@.len() == (xsize_blocks_8 / 8) * (ysize_blocks_8 / 8),
        extra32@.fits(xsize_blocks_8 as int, ysize_blocks_8 as int),
        extra64@.fits(xsize_blocks_8 as int, ysize_blocks_8 as int),
    ensures
        r@.len() == (xsize_blocks_8 / 8) * (ysize_blocks_8 / 8),
        forall|k: int|
            0 <= k < r@.len() ==> #[trigger] r@[k] == choice64(
                cost_dct8@,
                cost_dct16x16@,
                cost_dct32x32@,
                cost_dct64x64@,
                extra32@,
                extra64@,
                no_extras16(),
                xsize_blocks_8 as int,
                k % (xsize_blocks_8 as int / 8),
                k / (xsize_blocks_8 as int / 8),
            ).1,
{
    select_partitions_64x64_with_extras16(
        cost_dct8,
        cost_dct16x16,
        cost_dct32x32,
        cost_dct64x64,
        extra32,
        extra64,
        CostGrids16x16::default(),
        xsize_blocks_8,
        ysize_blocks_8,
    )
}

/// Picks the partition of lowest cost for each 64x64 region, in row-major
/// order of the regions, from all the grids that are present. A region that
/// is split takes for each 32x32 quarter the quarter's own best partition.
pub fn select_partitions_64x64_with_extras16(
    cost_dct8: &[Float32],
    cost_dct16x16: &[Float32],
    cost_dct32x32: &[Float32],
    cost_dct64x64: &[Float32],
    extra32: CostGrids32x32<'_>,
    extra64: CostGrids64x64<'_>,
    extra16: CostGrids16x16<'_>,
    xsize_blocks_8: usize,
    ysize_blocks_8: usize,
) -> (r: Vec<Partition64x64>)
    requires
        xsize_blocks_8 % 8 == 0,
        ysize_blocks_8 % 8 == 0,
        cost_dct8@.len() == xsize_blocks_8 * ysize_blocks_8,
        cost_dct16x16@.len() == (xsize_blocks_8 / 2) * (ysize_blocks_8 / 2),
        cost_dct32x32@.len() == (xsize_blocks_8 / 4) * (ysize_blocks_8 / 4),
        cost_dct64x64@.len() == (xsize_blocks_8 / 8) * (ysize_blocks_8 / 8),
        extra32@.fits(xsize_blocks_8 as int, ysize_blocks_8 as int),
        extra64@.fits(xsize_blocks_8 as int, ysize_blocks_8 as int),
        extra16@.fits(xsize_blocks_8 as int, ysize_blocks_8 as int),
    ensures
        r@.len() == (xsize_blocks_8 / 8) * (ysize_blocks_8 / 8),
        forall|k: int|
            0 <= k < r@.len() ==> #[trigger] r@[k] == choice64(
                cost_dct8@,
                cost_dct16x16@,
                cost_dct32x32@,
                cost_dct64x64@,
                extra32@,
                extra64@,
                extra16@,
                xsize_blocks_8 as int,
                k % (xsize_blocks_8 as int / 8),
                k / (xsize_blocks_8 as int / 8),
            ).1,
{
    let xs64: usize = xsize_blocks_8 / 8;
    let ys64: usize = ysize_blocks_8 / 8;
    let n: usize = cost_dct64x64.len();
    assert(8 * xs64 == xsize_blocks_8 && 8 * ys64 == ysize_blocks_8);
    assert(xsize_blocks_8 / 4 == 2 * xs64 && ysize_blocks_8 / 4 == 2 * ys64);
    assert(xsize_blocks_8 / 2 == 4 * xs64 && ysize_blocks_8 / 2 == 4 * ys64);
    let sub32: Vec<Partition32x32> = select_partitions_32x32_with_extras16(
        cost_dct8,
        cost_dct16x16,
        cost_dct32x32,
        extra32,
        extra16,
        xsize_blocks_8,
        ysize_blocks_8,
    );
    let mut partitions: Vec<Partition64x64> = Vec::new();
    let mut k: usize = 0;
    while k < n
        invariant
            n == xs64 * ys64,
            8 * xs64 == xsize_blocks_8,
            8 * ys64 == ysize_blocks_8,
            cost_dct8@.len() == (8 * xs64) * (8 * ys64),
            cost_dct16x16@.len() == (4 * xs64) * (4 * ys64),
            cost_dct32x32@.len() == (2 * xs64) * (2 * ys64),
            cost_dct64x64@.len() == xs64 * ys64,
            extra32@.fits(8 * xs64, 8 * ys64),
            extra64@.fits(8 * xs64, 8 * ys64),
            extra16@.fits(8 * xs64, 8 * ys64),
            sub32@.len() == (2 * xs64) * (2 * ys64),
            forall|j: int|
                0 <= j < sub32@.len() ==> #[trigger] sub32@[j] == choice32(
                    cost_dct8@,
                    cost_dct16x16@,
                    cost_dct32x32@,
                    extra32@,
                    extra16@,
                    8 * xs64,
                    j % (2 * xs64),
                    j / (2 * xs64),
                ).1,
            k <= n,
            partitions@.len() == k,
            forall|j: int|
                0 <= j < k ==> #[trigger] partitions@[j] == choice64(
                    cost_dct8@,
                    cost_dct16x16@,
                    cost_dct32x32@,
                    cost_dct64x64@,
                    extra32@,
                    extra64@,
                    extra16@,
                    8 * xs64,
                    j % (xs64 as int),
                    j / (xs64 as int),
                ).1,
        decreases n - k,
    {
        proof {
            lemma_cell_of_index(xs64 as int, ys64 as int, k as int);
        }
        let choice: (Float32, Partition64x64) = choose64(
            cost_dct8,
            cost_dct16x16,
            cost_dct32x32,
            cost_dct64x64,
            extra32,
            extra64,
            extra16,
            &sub32,
            xs64,
            ys64,
            k % xs64,
            k / xs64,
        );
        partitions.push(choice.1);
        k = k + 1;
    }
    partitions
}

/// The partition of lowest cost for one 64x64 region, with its cost.
fn choose64(
    cost_dct8: &[Float32],
    cost_dct16x16: &[Float32],
    cost_dct32x32: &[Float32],
    cost_dct64x64: &[Float32],
    extra32: CostGrids32x32<'_>,
    extra64: CostGrids64x64<'_>,
    extra16: CostGrids16x16<'_>,
    sub32: &Vec<Partition32x32>,
    xs64: usize,
    ys64: usize,
    rx: usize,
    ry: usize,
) -> (r: (Float32, Partition64x64))
    requires
        rx < xs64,
        ry < ys64,
        cost_dct8@.len() == (8 * xs64) * (8 * ys64),
        cost_dct16x16@.len() == (4 * xs64) * (4 * ys64),
        cost_dct32x32@.len() == (2 * xs64) * (2 * ys64),
        cost_dct64x64@.len() == xs64 * ys64,
        extra32@.fits(8 * xs64, 8 * ys64),
        extra64@.fits(8 * xs64, 8 * ys64),
        extra16@.fits(8 * xs64, 8 * ys64),
        sub32@.len() == (2 * xs64) * (2 * ys64),
        forall|j: int|
            0 <= j < sub32@.len() ==> #[trigger] sub32@[j] == choice32(
                cost_dct8@,
                cost_dct16x16@,
                cost_dct32x32@,
                extra32@,
                extra16@,
                8 * xs64,
                j % (2 * xs64),
                j / (2 * xs64),
            ).1,
    ensures
        r == choice64(
            cost_dct8@,
            cost_dct16x16@,
            cost_dct32x32@,
            cost_dct64x64@,
            extra32@,
            extra64@,
            extra16@,
            8 * xs64,
            rx as int,
            ry as int,
        ),
{
    proof {
        reveal(choice64);
    }
    let n: usize = cost_dct32x32.len();
    proof {
        lemma_region(xs64 as int, ys64 as int, rx as int, ry as int);
        lemma_index_of_cell(2 * xs64, 2 * rx as int, 2 * ry as int);
        lemma_index_of_cell(2 * xs64, 2 * rx + 1, 2 * ry as int);
        lemma_index_of_cell(2 * xs64, 2 * rx as int, 2 * ry + 1);
        lemma_index_of_cell(2 * xs64, 2 * rx + 1, 2 * ry + 1);
    }
    assert((8 * xs64) / 4 == 2 * xs64 && (8 * xs64) / 8 == xs64);
    assert((8 * ys64) / 4 == 2 * ys64 && (8 * ys64) / 8 == ys64);
    let xs32: usize = 2 * xs64;
    let ys32: usize = 2 * ys64;
    let x: usize = 2 * rx;
    let y: usize = 2 * ry;
    let i0: usize = y * xs32 + x;
    let i2: usize = (y + 1) * xs32 + x;
    let subs: [Partition32x32; 4] = [sub32[i0], sub32[i0 + 1], sub32[i2], sub32[i2 + 1]];
    let s0: Float32 = partition_32x32_cost(
        subs[0],
        cost_dct8,
        cost_dct16x16,
        cost_dct32x32,
        extra32,
        extra16,
        xs32,
        ys32,
        x,
        y,
    );
    let s1: Float32 = partition_32x32_cost(
        subs[1],
        cost_dct8,
        cost_dct16x16,
        cost_dct32x32,
        extra32,
        extra16,
        xs32,
        ys32,
        x + 1,
        y,
    );
    let s2: Float32 = partition_32x32_cost(
        subs[2],
        cost_dct8,
        cost_dct16x16,
        cost_dct32x32,
        extra32,
        extra16,
        xs32,
        ys32,
        x,
        y + 1,
    );
    let s3: Float32 = partition_32x32_cost(
        subs[3],
        cost_dct8,
        cost_dct16x16,
        cost_dct32x32,
        extra32,
        extra16,
        xs32,
        ys32,
        x + 1,
        y + 1,
    );
    let best: (Float32, Partition64x64) = (cost_dct64x64[ry * xs64 + rx], Partition64x64::Dct64x64);
    let best: (Float32, Partition64x64) = match extra64.dct_64x32 {
        Some(g) => {
            let i: usize = ry * xs32 + 2 * rx;
            improve(best, pair_cost(g, i, i + 1), Partition64x64::TwoDct64x32Horizontal)
        },
        None => best,
    };
    let best: (Float32, Partition64x64) = match extra64.dct_32x64 {
        Some(g) => {
            let i: usize = (2 * ry) * xs64 + rx;
            let j: usize = (2 * ry + 1) * xs64 + rx;
            improve(best, pair_cost(g, i, j), Partition64x64::TwoDct32x64Vertical)
        },
        None => best,
    };
    improve(best, add4(s0, s1, s2, s3), Partition64x64::Sub32x32(subs))
}

/// The cost of a partition of the 32x32 region at (`rx32`, `ry32`).
fn partition_32x32_cost(
    p: Partition32x32,
    cost_dct8: &[Float32],
    cost_dct16x16: &[Float32],
    cost_dct32x32: &[Float32],
    extra: CostGrids32x32<'_>,
    extra16: CostGrids16x16<'_>,
    xs32: usize,
    ys32: usize,
    rx32: usize,
    ry32: usize,
) -> (r: Float32)
    requires
        rx32 < xs32,
        ry32 < ys32,
        cost_dct8@.len() == (4 * xs32) * (4 * ys32),
        cost_dct16x16@.len() == (2 * xs32) * (2 * ys32),
        cost_dct32x32@.len() == xs32 * ys32,
        extra@.fits(4 * xs32, 4 * ys32),
        extra16@.fits(4 * xs32, 4 * ys32),
    ensures
        r == partition32_cost(
            p,
            cost_dct8@,
            cost_dct16x16@,
            cost_dct32x32@,
            extra@,
            extra16@,
            4 * xs32,
            rx32 as int,
            ry32 as int,
        ),
{
    let n: usize = cost_dct16x16.len();
    proof {
        lemma_region(xs32 as int, ys32 as int, rx32 as int, ry32 as int);
    }
    assert((4 * xs32) / 2 == 2 * xs32 && (4 * xs32) / 4 == xs32);
    assert((4 * ys32) / 2 == 2 * ys32 && (4 * ys32) / 4 == ys32);
    match p {
        Partition32x32::Dct32x32 => cost_dct32x32[ry32 * xs32 + rx32],
        Partition32x32::Sub16x16(subs) => four_regions_cost(
            subs,
            cost_dct8,
            cost_dct16x16,
            extra16,
            xs32,
            ys32,
            rx32,
            ry32,
        ),
        Partition32x32::TwoDct32x16Horizontal => match extra.dct_32x16 {
            Some(g) => {
                let i: usize = ry32 * (2 * xs32) + 2 * rx32;
                pair_cost(g, i, i + 1)
            },
            None => Float32::from_bits(INFINITY_MAGNITUDE),
        },
        Partition32x32::TwoDct16x32Vertical => match extra.dct_16x32 {
            Some(g) => {
                let i: usize = (2 * ry32) * xs32 + rx32;
                let j: usize = (2 * ry32 + 1) * xs32 + rx32;
                pair_cost(g, i, j)
            },
            None => Float32::from_bits(INFINITY_MAGNITUDE),
        },
    }
}

} // verus!
