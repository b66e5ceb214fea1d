//! Laws of the scan.
//!
//! [`crate::compute_fov`] marks exactly the cells of [`fov_cells`], so
//! each law is stated and proved of that set: the origin is always among
//! the cells, no cell beyond the range bound ever is, no out-of-bounds
//! cell ever is, and the set is a function of the map's opacity and
//! bounds alone.

use vstd::prelude::*;
use crate::model::{ScanEnv, local_to_abs, env_blocked, within_range, spec_top_y, spec_bottom_y,
    spec_rows, spec_scan, octant_cells, octants_prefix, fov_cells};
use crate::slope::{slope_gt, slope_ge};

verus! {

/// The squared Euclidean distance between `(ox, oy)` and `(a, b)`.
pub open spec fn dist_squared(ox: int, oy: int, a: int, b: int) -> int {
    (a - ox) * (a - ox) + (b - oy) * (b - oy)
}

/// The octant transform preserves distance from the origin: a local cell
/// `(x, y)` lands at squared distance `x * x + y * y`, whichever octant
/// carries it; an out-of-range octant label leaves the origin in place.
proof fn lemma_abs_dist2(octant: int, ox: int, oy: int, x: int, y: int)
    ensures
        ({
            let a = local_to_abs(octant, ox, oy, x, y);
            dist_squared(ox, oy, a.0, a.1) == if 0 <= octant < 8 {
                x * x + y * y
            } else {
                0
            }
        }),
{
    let a = local_to_abs(octant, ox, oy, x, y);
    if 0 <= octant < 8 {
        assert(dist_squared(ox, oy, a.0, a.1) == x * x + y * y) by (nonlinear_arith)
            requires
                (a.0 - ox == x || a.0 - ox == -x || a.0 - ox == y || a.0 - ox == -y),
                (a.1 - oy == x || a.1 - oy == -x || a.1 - oy == y || a.1 - oy == -y),
                ((a.0 - ox == x || a.0 - ox == -x) <==> (a.1 - oy == y || a.1 - oy == -y)),
        ;
    } else {
        assert(dist_squared(ox, oy, ox, oy) == 0) by (nonlinear_arith);
    }
}

/// What holds of every cell the scan can put in its set: it lies in
/// bounds, and, under a finite range, within that range of the origin.
spec fn good_cell(e: ScanEnv, c: (int, int)) -> bool {
    (e.inb)(c.0, c.1) && (e.range >= 0 ==> dist_squared(e.ox, e.oy, c.0, c.1) <= e.range
        * e.range)
}

/// Any cell the row walk gathers is a good cell.
proof fn lemma_rows_cells(
    e: ScanEnv,
    x: int,
    top_y: int,
    bottom_y: int,
    y: int,
    ty: int,
    tx: int,
    by: int,
    bx: int,
    was: int,
    c: (int, int),
)
    requires
        spec_rows(e, x, top_y, bottom_y, y, ty, tx, by, bx, was).cells.contains(c),
    ensures
        good_cell(e, c),
    decreases e.range + 1 - x, 0int, y - bottom_y + 1,
{
    if y < bottom_y {
        assert(false);
    } else if !within_range(e.range, x, y) {
        lemma_rows_cells(e, x, top_y, bottom_y, y - 1, ty, tx, by, bx, was, c);
    } else {
        let a = local_to_abs(e.octant, e.ox, e.oy, x, y);
        let op = env_blocked(e, x, y);
        if c == a && (e.inb)(a.0, a.1) {
            lemma_abs_dist2(e.octant, e.ox, e.oy, x, y);
            if e.range >= 0 {
                assert(x * x + y * y <= e.range * e.range);
                assert(e.range * e.range >= 0) by (nonlinear_arith)
                    requires
                        e.range >= 0,
                ;
            }
        } else {
            if x < e.range {
                if op {
                    if was == 0 {
                        let ny = y * 2 + 1;
                        let nx = if env_blocked(e, x, y + 1) {
                            x * 2 - 1
                        } else {
                            x * 2
                        };
                        if slope_gt(ty, tx, ny, nx) {
                            if y == bottom_y {
                                assert(false);
                            } else {
                                if spec_scan(e, x + 1, ty, tx, ny, nx).contains(c) {
                                    lemma_scan_cells(e, x + 1, ty, tx, ny, nx, c);
                                } else {
                                    lemma_rows_cells(
                                        e,
                                        x,
                                        top_y,
                                        bottom_y,
                                        y - 1,
                                        ty,
                                        tx,
                                        by,
                                        bx,
                                        1,
                                        c,
                                    );
                                }
                            }
                        } else if y == bottom_y {
                            assert(false);
                        } else {
                            lemma_rows_cells(e, x, top_y, bottom_y, y - 1, ty, tx, by, bx, 1, c);
                        }
                    } else {
                        lemma_rows_cells(e, x, top_y, bottom_y, y - 1, ty, tx, by, bx, 1, c);
                    }
                } else {
                    if was > 0 {
                        let ny = y * 2 + 1;
                        let nx = if env_blocked(e, x + 1, y + 1) {
                            x * 2 + 1
                        } else {
                            x * 2
                        };
                        if slope_ge(by, bx, ny, nx) {
                            assert(false);
                        } else {
                            lemma_rows_cells(e, x, top_y, bottom_y, y - 1, ny, nx, by, bx, 0, c);
                        }
                    } else {
                        lemma_rows_cells(e, x, top_y, bottom_y, y - 1, ty, tx, by, bx, 0, c);
                    }
                }
            } else {
                lemma_rows_cells(e, x, top_y, bottom_y, y - 1, ty, tx, by, bx, was, c);
            }
        }
    }
}

/// Any cell the column sweep gathers is a good cell.
proof fn lemma_scan_cells(e: ScanEnv, x: int, ty: int, tx: int, by: int, bx: int, c: (int, int))
    requires
        spec_scan(e, x, ty, tx, by, bx).contains(c),
    ensures
        good_cell(e, c),
    decreases e.range + 1 - x, 1int, 0int,
{
    if x > e.range {
        assert(false);
    } else {
        let t = spec_top_y(e, ty, tx, x);
        let b = spec_bottom_y(e, by, bx, x);
        let r = spec_rows(e, x, t, b, t, ty, tx, by, bx, -1);
        if r.cells.contains(c) {
            lemma_rows_cells(e, x, t, b, t, ty, tx, by, bx, -1, c);
        } else {
            lemma_scan_cells(e, x + 1, r.ty, r.tx, r.by, r.bx, c);
        }
    }
}

/// Any cell any of the octants `0 .. k` gathers is in bounds and, under a
/// finite range, within range.
proof fn lemma_prefix_cells(
    opq: spec_fn(int, int) -> bool,
    inb: spec_fn(int, int) -> bool,
    ox: int,
    oy: int,
    range: int,
    k: int,
    c: (int, int),
)
    requires
        octants_prefix(opq, inb, ox, oy, range, k).contains(c),
    ensures
        inb(c.0, c.1),
        range >= 0 ==> dist_squared(ox, oy, c.0, c.1) <= range * range,
    decreases k,
{
    if k <= 0 {
        assert(false);
    } else {
        if octants_prefix(opq, inb, ox, oy, range, k - 1).contains(c) {
            lemma_prefix_cells(opq, inb, ox, oy, range, k - 1, c);
        } else {
            let e = ScanEnv { opq, inb, octant: k - 1, ox, oy, range };
            assert(octant_cells(opq, inb, k - 1, ox, oy, range) == spec_scan(e, 1, 1, 1, 0, 1));
            lemma_scan_cells(e, 1, 1, 1, 0, 1, c);
        }
    }
}

/// Self-visibility: an in-bounds origin is always among the computed
/// cells, whatever the range — zero, positive or unbounded.
pub proof fn lemma_origin_visible(
    opq: spec_fn(int, int) -> bool,
    inb: spec_fn(int, int) -> bool,
    ox: int,
    oy: int,
    range: int,
)
    requires
        inb(ox, oy),
    ensures
        fov_cells(opq, inb, ox, oy, range).contains((ox, oy)),
{
}

/// Range cutoff: under a finite non-negative range, no computed cell lies
/// farther from the origin than the range.
pub proof fn lemma_range_cutoff(
    opq: spec_fn(int, int) -> bool,
    inb: spec_fn(int, int) -> bool,
    ox: int,
    oy: int,
    range: int,
    a: int,
    b: int,
)
    requires
        range >= 0,
        fov_cells(opq, inb, ox, oy, range).contains((a, b)),
    ensures
        dist_squared(ox, oy, a, b) <= range * range,
{
    if (a, b) == (ox, oy) {
        assert(dist_squared(ox, oy, ox, oy) == 0) by (nonlinear_arith);
        assert(range * range >= 0) by (nonlinear_arith)
            requires
                range >= 0,
        ;
    } else {
        lemma_prefix_cells(opq, inb, ox, oy, range, 8, (a, b));
    }
}

/// Bounds safety: every computed cell lies in bounds; equally, the scan
/// never marks outside the map.
pub proof fn lemma_bounds_safety(
    opq: spec_fn(int, int) -> bool,
    inb: spec_fn(int, int) -> bool,
    ox: int,
    oy: int,
    range: int,
    a: int,
    b: int,
)
    requires
        fov_cells(opq, inb, ox, oy, range).contains((a, b)),
    ensures
        inb(a, b),
{
    if (a, b) == (ox, oy) && inb(ox, oy) {
    } else {
        lemma_prefix_cells(opq, inb, ox, oy, range, 8, (a, b));
    }
}

/// Determinism: the computed set is a function of the map's opacity and
/// bounds, the origin and the range alone — two maps that agree pointwise
/// yield the same set, so repeated runs over unchanged state mark the
/// same cells.
pub proof fn lemma_determinism(
    opq1: spec_fn(int, int) -> bool,
    inb1: spec_fn(int, int) -> bool,
    opq2: spec_fn(int, int) -> bool,
    inb2: spec_fn(int, int) -> bool,
    ox: int,
    oy: int,
    range: int,
)
    requires
        forall|a: int, b: int| #[trigger] opq1(a, b) == opq2(a, b),
        forall|a: int, b: int| #[trigger] inb1(a, b) == inb2(a, b),
    ensures
        fov_cells(opq1, inb1, ox, oy, range) == fov_cells(opq2, inb2, ox, oy, range),
{
    assert(opq1 =~= opq2);
    assert(inb1 =~= inb2);
}

} // verus!
