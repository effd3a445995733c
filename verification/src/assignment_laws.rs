//! What holds of assignments and groups as a whole.

use crate::assignment::{
    has_group, layout, positions, region16, region32, region64, shifted, Placement,
    StrategyAssignment,
};
use crate::partition::{Partition16x16, Partition32x32, Partition64x64};
use crate::strategy::blocks_covered;
use vstd::prelude::*;

verus! {

/// Whether a transform covers the block in column `x` and row `y`.
pub open spec fn covers(p: Placement, x: int, y: int) -> bool {
    &&& p.0 <= x < p.0 + blocks_covered(p.2).0
    &&& p.1 <= y < p.1 + blocks_covered(p.2).1
}

/// How many of the transforms cover the block in column `x` and row `y`.
pub open spec fn cover_count(s: Seq<Placement>, x: int, y: int) -> nat
    decreases s.len(),
{
    if s.len() == 0 {
        0
    } else {
        cover_count(s.drop_last(), x, y) + if covers(s.last(), x, y) {
            1nat
        } else {
            0nat
        }
    }
}

/// Whether the transforms cover each of `w` by `h` blocks once, and nothing
/// else.
pub open spec fn tiles(s: Seq<Placement>, w: int, h: int) -> bool {
    forall|x: int, y: int| #[trigger]
        cover_count(s, x, y) == if 0 <= x < w && 0 <= y < h {
            1nat
        } else {
            0nat
        }
}

proof fn lemma_count_add(s: Seq<Placement>, t: Seq<Placement>, x: int, y: int)
    ensures
        cover_count(s + t, x, y) == cover_count(s, x, y) + cover_count(t, x, y),
    decreases t.len(),
{
    if t.len() == 0 {
        assert(s + t =~= s);
    } else {
        assert((s + t).drop_last() =~= s + t.drop_last());
        lemma_count_add(s, t.drop_last(), x, y);
    }
}

proof fn lemma_count_shifted(s: Seq<Placement>, dx: int, dy: int, x: int, y: int)
    ensures
        cover_count(shifted(s, dx, dy), x, y) == cover_count(s, x - dx, y - dy),
    decreases s.len(),
{
    if s.len() > 0 {
        assert(shifted(s, dx, dy).drop_last() =~= shifted(s.drop_last(), dx, dy));
        lemma_count_shifted(s.drop_last(), dx, dy, x, y);
    }
}

/// `a` is the quotient of `x` by `size` exactly if `x` lies in the range that
/// belongs to `a`.
proof fn lemma_quotient(x: int, size: int, a: int)
    requires
        size > 0,
    ensures
        (a * size <= x < a * size + size) <==> x / size == a,
        0 <= x - a * size < size <==> x / size == a,
{
    vstd::arithmetic::div_mod::lemma_fundamental_div_mod(x, size);
    let q = x / size;
    assert(size * q == q * size) by (nonlinear_arith);
    if a * size <= x < a * size + size {
        assert(q == a) by (nonlinear_arith)
            requires
                a * size <= x < a * size + size,
                q * size <= x < q * size + size,
                size > 0,
        ;
    }
}

proof fn lemma_layout_count(regions: Seq<Seq<Placement>>, xs: int, size: int, x: int, y: int)
    requires
        size > 0,
        xs > 0,
        forall|i: int| 0 <= i < regions.len() ==> tiles(#[trigger] regions[i], size, size),
    ensures
        cover_count(layout(regions, xs, size), x, y) == if 0 <= x / size < xs && 0 <= y / size && (y
            / size) * xs + x / size < regions.len() {
            1nat
        } else {
            0nat
        },
    decreases regions.len(),
{
    let cx = x / size;
    let cy = y / size;
    if regions.len() == 0 {
        if 0 <= cx && 0 <= cy {
            assert(cy * xs >= 0) by (nonlinear_arith)
                requires
                    cy >= 0,
                    xs > 0,
            ;
        }
    } else {
        let k = regions.len() - 1;
        let before = regions.drop_last();
        assert forall|i: int| 0 <= i < before.len() implies tiles(
            #[trigger] before[i],
            size,
            size,
        ) by {
            assert(before[i] == regions[i]);
        }
        lemma_layout_count(before, xs, size, x, y);
        let dx = (k % xs) * size;
        let dy = (k / xs) * size;
        let last = regions.last();
        assert(tiles(regions[k], size, size));
        lemma_count_add(layout(before, xs, size), shifted(last, dx, dy), x, y);
        lemma_count_shifted(last, dx, dy, x, y);
        lemma_quotient(x, size, k % xs);
        lemma_quotient(y, size, k / xs);
        vstd::arithmetic::div_mod::lemma_fundamental_div_mod(k, xs);
        let a = k % xs;
        let b = k / xs;
        assert(xs * b == b * xs) by (nonlinear_arith);
        assert(b >= 0) by (nonlinear_arith)
            requires
                k >= 0,
                xs > 0,
                b == k / xs,
        ;
        if 0 <= cx < xs && cy * xs + cx == k {
            assert(cy == b && cx == a) by (nonlinear_arith)
                requires
                    0 <= cx < xs,
                    0 <= a < xs,
                    cy * xs + cx == b * xs + a,
            ;
        }
    }
}

proof fn lemma_layout_tiles(regions: Seq<Seq<Placement>>, xs: int, ys: int, size: int)
    requires
        size > 0,
        xs >= 0,
        ys >= 0,
        regions.len() == xs * ys,
        forall|i: int| 0 <= i < regions.len() ==> tiles(#[trigger] regions[i], size, size),
    ensures
        tiles(layout(regions, xs, size), xs * size, ys * size),
{
    assert forall|x: int, y: int| #[trigger]
        cover_count(layout(regions, xs, size), x, y) == if 0 <= x < xs * size && 0 <= y < ys
            * size {
            1nat
        } else {
            0nat
        } by {
        if xs == 0 {
            assert(regions.len() == 0) by (nonlinear_arith)
                requires
                    regions.len() == xs * ys,
                    xs == 0,
            ;
            assert(xs * size == 0) by (nonlinear_arith)
                requires
                    xs == 0,
            ;
        } else {
            lemma_layout_count(regions, xs, size, x, y);
            lemma_grid_quotient(x, size, xs);
            lemma_grid_quotient(y, size, ys);
            let cx = x / size;
            let cy = y / size;
            if 0 <= cx < xs && 0 <= cy {
                assert(cy < ys <==> cy * xs + cx < xs * ys) by (nonlinear_arith)
                    requires
                        0 <= cx < xs,
                ;
            }
        }
    }
}

proof fn lemma_grid_quotient(x: int, size: int, xs: int)
    requires
        size > 0,
    ensures
        0 <= x < xs * size <==> 0 <= x / size < xs,
{
    vstd::arithmetic::div_mod::lemma_fundamental_div_mod(x, size);
    let q = x / size;
    let r = x % size;
    assert(x == size * q + r && 0 <= r < size);
    assert(0 <= x <==> 0 <= q) by (nonlinear_arith)
        requires
            x == size * q + r,
            0 <= r < size,
    ;
    assert(x < xs * size <==> q < xs) by (nonlinear_arith)
        requires
            x == size * q + r,
            0 <= r < size,
    ;
}

proof fn lemma_region16_tiles(p: Partition16x16)
    ensures
        tiles(region16(p), 2, 2),
{
    reveal_with_fuel(cover_count, 5);
    let s = region16(p);
    assert(s.len() >= 1);
    assert(s.drop_last().len() == s.len() - 1);
}

proof fn lemma_region32_tiles(p: Partition32x32)
    ensures
        tiles(region32(p), 4, 4),
{
    reveal_with_fuel(cover_count, 3);
    if let Partition32x32::Sub16x16(subs) = p {
        let regions = Seq::new(4, |i: int| region16(subs@[i]));
        assert forall|i: int| 0 <= i < regions.len() implies tiles(#[trigger] regions[i], 2, 2) by {
            lemma_region16_tiles(subs@[i]);
        }
        lemma_layout_tiles(regions, 2, 2, 2);
    }
}

proof fn lemma_region64_tiles(p: Partition64x64)
    ensures
        tiles(region64(p), 8, 8),
{
    reveal_with_fuel(cover_count, 3);
    if let Partition64x64::Sub32x32(subs) = p {
        let regions = Seq::new(4, |i: int| region32(subs@[i]));
        assert forall|i: int| 0 <= i < regions.len() implies tiles(#[trigger] regions[i], 4, 4) by {
            lemma_region32_tiles(subs@[i]);
        }
        lemma_layout_tiles(regions, 2, 2, 4);
    }
}

/// The transforms of an image split into 16x16 regions cover every 8x8 block
/// of the image once, and none outside it.
pub proof fn law_regions16_tile(partitions: Seq<Partition16x16>, xs8: int, ys8: int)
    requires
        xs8 >= 0,
        ys8 >= 0,
        xs8 % 2 == 0,
        ys8 % 2 == 0,
        partitions.len() == (xs8 / 2) * (ys8 / 2),
    ensures
        tiles(
            layout(Seq::new(partitions.len(), |i: int| region16(partitions[i])), xs8 / 2, 2),
            xs8,
            ys8,
        ),
{
    let regions = Seq::new(partitions.len(), |i: int| region16(partitions[i]));
    assert forall|i: int| 0 <= i < regions.len() implies tiles(#[trigger] regions[i], 2, 2) by {
        lemma_region16_tiles(partitions[i]);
    }
    lemma_layout_tiles(regions, xs8 / 2, ys8 / 2, 2);
}

/// The transforms of an image split into 32x32 regions cover every 8x8 block
/// of the image once, and none outside it.
pub proof fn law_regions32_tile(partitions: Seq<Partition32x32>, xs8: int, ys8: int)
    requires
        xs8 >= 0,
        ys8 >= 0,
        xs8 % 4 == 0,
        ys8 % 4 == 0,
        partitions.len() == (xs8 / 4) * (ys8 / 4),
    ensures
        tiles(
            layout(Seq::new(partitions.len(), |i: int| region32(partitions[i])), xs8 / 4, 4),
            xs8,
            ys8,
        ),
{
    let regions = Seq::new(partitions.len(), |i: int| region32(partitions[i]));
    assert forall|i: int| 0 <= i < regions.len() implies tiles(#[trigger] regions[i], 4, 4) by {
        lemma_region32_tiles(partitions[i]);
    }
    lemma_layout_tiles(regions, xs8 / 4, ys8 / 4, 4);
}

/// The transforms of an image split into 64x64 regions cover every 8x8 block
/// of the image once, and none outside it.
pub proof fn law_regions64_tile(partitions: Seq<Partition64x64>, xs8: int, ys8: int)
    requires
        xs8 >= 0,
        ys8 >= 0,
        xs8 % 8 == 0,
        ys8 % 8 == 0,
        partitions.len() == (xs8 / 8) * (ys8 / 8),
    ensures
        tiles(
            layout(Seq::new(partitions.len(), |i: int| region64(partitions[i])), xs8 / 8, 8),
            xs8,
            ys8,
        ),
{
    let regions = Seq::new(partitions.len(), |i: int| region64(partitions[i]));
    assert forall|i: int| 0 <= i < regions.len() implies tiles(#[trigger] regions[i], 8, 8) by {
        lemma_region64_tiles(partitions[i]);
    }
    lemma_layout_tiles(regions, xs8 / 8, ys8 / 8, 8);
}

/// How many positions the groups hold together.
pub open spec fn total_positions(groups: Seq<(u8, Vec<(usize, usize)>)>) -> nat
    decreases groups.len(),
{
    if groups.len() == 0 {
        0
    } else {
        total_positions(groups.drop_last()) + groups.last().1@.len()
    }
}

/// How many assignments have a code below `n`.
spec fn count_below(assignments: Seq<StrategyAssignment>, n: int) -> nat
    decreases n,
{
    if n <= 0 {
        0
    } else {
        count_below(assignments, n - 1) + positions(assignments, (n - 1) as u8).len()
    }
}

proof fn lemma_count_below_push(assignments: Seq<StrategyAssignment>, n: int)
    requires
        assignments.len() > 0,
        0 <= n <= 256,
    ensures
        count_below(assignments, n) == count_below(assignments.drop_last(), n) + if (
        assignments.last().raw_strategy as int) < n {
            1nat
        } else {
            0nat
        },
    decreases n,
{
    if n > 0 {
        lemma_count_below_push(assignments, n - 1);
        assert(((n - 1) as u8) as int == n - 1);
    }
}

proof fn lemma_count_below_empty(n: int)
    ensures
        count_below(Seq::<StrategyAssignment>::empty(), n) == 0,
    decreases n,
{
    if n > 0 {
        lemma_count_below_empty(n - 1);
    }
}

proof fn lemma_count_all(assignments: Seq<StrategyAssignment>)
    ensures
        count_below(assignments, 256) == assignments.len(),
    decreases assignments.len(),
{
    if assignments.len() == 0 {
        assert(assignments =~= Seq::<StrategyAssignment>::empty());
        lemma_count_below_empty(256);
    } else {
        lemma_count_all(assignments.drop_last());
        lemma_count_below_push(assignments, 256);
    }
}

/// Codes that do not occur add nothing.
proof fn lemma_count_gap(assignments: Seq<StrategyAssignment>, low: int, high: int)
    requires
        0 <= low <= high <= 256,
        forall|c: int| low <= c < high ==> positions(assignments, #[trigger] (c as u8)).len() == 0,
    ensures
        count_below(assignments, high) == count_below(assignments, low),
    decreases high - low,
{
    if low < high {
        assert(positions(assignments, ((high - 1) as u8)).len() == 0);
        lemma_count_gap(assignments, low, high - 1);
    }
}

proof fn lemma_groups_prefix(
    assignments: Seq<StrategyAssignment>,
    groups: Seq<(u8, Vec<(usize, usize)>)>,
    n: int,
)
    requires
        0 <= n <= groups.len(),
        forall|i: int, j: int|
            0 <= i < j < groups.len() ==> (#[trigger] groups[i]).0 < (#[trigger] groups[j]).0,
        forall|i: int|
            0 <= i < groups.len() ==> (#[trigger] groups[i]).1@ == positions(
                assignments,
                groups[i].0,
            ),
        forall|c: u8| !has_group(groups, c) ==> (#[trigger] positions(assignments, c)).len() == 0,
    ensures
        total_positions(groups.take(n)) == count_below(
            assignments,
            if n < groups.len() {
                groups[n].0 as int
            } else {
                256
            },
        ),
    decreases n,
{
    let low: int = if n == 0 {
        0
    } else {
        groups[n - 1].0 + 1
    };
    let high: int = if n < groups.len() {
        groups[n].0 as int
    } else {
        256
    };
    assert(low <= high) by {
        if 0 < n < groups.len() {
            assert(groups[n - 1].0 < groups[n].0);
        }
    }
    assert forall|c: int| low <= c < high implies positions(assignments, #[trigger] (c as u8)).len()
        == 0 by {
        if has_group(groups, c as u8) {
            let i = choose|i: int| 0 <= i < groups.len() && (#[trigger] groups[i]).0 == c as u8;
            if i < n - 1 {
                assert(groups[i].0 < groups[n - 1].0);
            }
            if n < i {
                assert(groups[n].0 < groups[i].0);
            }
            assert(false);
        }
    }
    lemma_count_gap(assignments, low, high);
    if n > 0 {
        lemma_groups_prefix(assignments, groups, n - 1);
        assert(groups.take(n).drop_last() =~= groups.take(n - 1));
        assert(groups.take(n).last() == groups[n - 1]);
        assert(((low - 1) as u8) == groups[n - 1].0);
    }
}

/// Grouping loses and repeats nothing: the groups hold as many positions as
/// there are assignments.
pub proof fn law_groups_hold_every_assignment(
    assignments: Seq<StrategyAssignment>,
    groups: Seq<(u8, Vec<(usize, usize)>)>,
)
    requires
        forall|i: int, j: int|
            0 <= i < j < groups.len() ==> (#[trigger] groups[i]).0 < (#[trigger] groups[j]).0,
        forall|i: int|
            0 <= i < groups.len() ==> (#[trigger] groups[i]).1@ == positions(
                assignments,
                groups[i].0,
            ) && groups[i].1@.len() > 0,
        forall|k: int|
            0 <= k < assignments.len() ==> has_group(
                groups,
                (#[trigger] assignments[k]).raw_strategy,
            ),
    ensures
        total_positions(groups) == assignments.len(),
{
    assert forall|c: u8| !has_group(groups, c) implies (#[trigger] positions(assignments, c)).len()
        == 0 by {
        lemma_absent(assignments, c, groups);
    }
    lemma_groups_prefix(assignments, groups, groups.len() as int);
    assert(groups.take(groups.len() as int) =~= groups);
    lemma_count_all(assignments);
}

proof fn lemma_absent(
    assignments: Seq<StrategyAssignment>,
    c: u8,
    groups: Seq<(u8, Vec<(usize, usize)>)>,
)
    requires
        !has_group(groups, c),
        forall|k: int|
            0 <= k < assignments.len() ==> has_group(
                groups,
                (#[trigger] assignments[k]).raw_strategy,
            ),
    ensures
        positions(assignments, c).len() == 0,
    decreases assignments.len(),
{
    if assignments.len() > 0 {
        let before = assignments.drop_last();
        assert forall|k: int| 0 <= k < before.len() implies has_group(
            groups,
            (#[trigger] before[k]).raw_strategy,
        ) by {
            assert(before[k] == assignments[k]);
        }
        lemma_absent(before, c, groups);
        assert(has_group(groups, assignments[assignments.len() - 1].raw_strategy));
    }
}

} // verus!
