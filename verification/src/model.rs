//! The mathematical model of the scan.
//!
//! Everything the executable scan does is mirrored here as spec functions
//! over unbounded integers: the octant transform, the range test, the
//! column boundary rows, the top-to-bottom row walk with its shadow
//! splitting, and the column-by-column sweep. The executable functions in
//! [`crate::fov`] carry `ensures` clauses equating their effect on the map
//! with these functions, so the set of cells `compute_fov` marks is pinned,
//! cell for cell, by [`fov_cells`].
//!
//! The map enters the model as two predicates, `opq` (the cell blocks
//! sight) and `inb` (the cell lies in bounds), taken over absolute
//! coordinates; everything else is local octant coordinates: `x` along the
//! sweep axis, `y` along the perpendicular, both non-negative.

use vstd::prelude::*;
use crate::slope::{slope_gt, slope_ge, slope_le};

verus! {

/// The fixed surroundings of one octant's scan: the map predicates, the
/// octant label, the absolute origin, and the range bound.
#[verifier::ext_equal]
pub struct ScanEnv {
    /// Whether the cell at these absolute coordinates blocks sight.
    pub opq: spec_fn(int, int) -> bool,
    /// Whether the cell at these absolute coordinates lies in bounds.
    pub inb: spec_fn(int, int) -> bool,
    /// The octant label, 0 through 7.
    pub octant: int,
    /// The absolute x coordinate of the origin.
    pub ox: int,
    /// The absolute y coordinate of the origin.
    pub oy: int,
    /// The range bound; negative means unbounded.
    pub range: int,
}

/// The eight reflection formulas from octant-local `(x, y)` to absolute
/// grid coordinates.
pub open spec fn local_to_abs(octant: int, ox: int, oy: int, x: int, y: int) -> (int, int) {
    if octant == 0 {
        (ox + x, oy - y)
    } else if octant == 1 {
        (ox + y, oy - x)
    } else if octant == 2 {
        (ox - y, oy - x)
    } else if octant == 3 {
        (ox - x, oy - y)
    } else if octant == 4 {
        (ox - x, oy + y)
    } else if octant == 5 {
        (ox - y, oy + x)
    } else if octant == 6 {
        (ox + y, oy + x)
    } else if octant == 7 {
        (ox + x, oy + y)
    } else {
        (ox, oy)
    }
}

/// Whether the local cell `(x, y)` blocks light: out-of-bounds cells count
/// as opaque.
pub open spec fn env_blocked(e: ScanEnv, x: int, y: int) -> bool {
    let a = local_to_abs(e.octant, e.ox, e.oy, x, y);
    !(e.inb)(a.0, a.1) || (e.opq)(a.0, a.1)
}

/// Whether the local cell `(x, y)` lies within the range bound: within
/// Euclidean distance `range` of the origin, or any distance when the
/// range is negative (unbounded).
pub open spec fn within_range(range: int, x: int, y: int) -> bool {
    range < 0 || x * x + y * y <= range * range
}

/// The top boundary row of column `x` under top slope `ty / tx`: the row
/// nearest the slope by truncating integer rounding, with a one-cell
/// correction where a wall edge would otherwise open a gap or a leak.
pub open spec fn spec_top_y(e: ScanEnv, ty: int, tx: int, x: int) -> int {
    if tx == 1 {
        x
    } else {
        let t0 = ((x * 2 - 1) * ty + tx) / (tx * 2);
        if env_blocked(e, x, t0) {
            if slope_ge(ty, tx, t0 * 2 + 1, x * 2) && !env_blocked(e, x, t0 + 1) {
                t0 + 1
            } else {
                t0
            }
        } else {
            let ax = if env_blocked(e, x + 1, t0 + 1) {
                x * 2 + 1
            } else {
                x * 2
            };
            if slope_gt(ty, tx, t0 * 2 + 1, ax) {
                t0 + 1
            } else {
                t0
            }
        }
    }
}

/// The bottom boundary row of column `x` under bottom slope `by / bx`:
/// zero on the axis, otherwise the same rounding with its own one-cell
/// correction.
pub open spec fn spec_bottom_y(e: ScanEnv, by: int, bx: int, x: int) -> int {
    if by == 0 {
        0
    } else {
        let b0 = ((x * 2 - 1) * by + bx) / (bx * 2);
        if slope_ge(by, bx, b0 * 2 + 1, x * 2) && env_blocked(e, x, b0) && !env_blocked(
            e,
            x,
            b0 + 1,
        ) {
            b0 + 1
        } else {
            b0
        }
    }
}

/// What one column's row walk leaves behind: the absolute cells it marked
/// (its own and those of any scan it spawned), the top and bottom slopes
/// as they stand at the end, and whether the sweep goes on to the next
/// column.
#[verifier::ext_equal]
pub struct RowScan {
    /// The absolute coordinates of every cell marked visible.
    pub cells: Set<(int, int)>,
    /// Top slope numerator after the walk.
    pub ty: int,
    /// Top slope denominator after the walk.
    pub tx: int,
    /// Bottom slope numerator after the walk.
    pub by: int,
    /// Bottom slope denominator after the walk.
    pub bx: int,
    /// Whether the sweep continues with the next column.
    pub cont: bool,
}

/// The row walk of column `x` from row `y` down to row `bottom_y`,
/// carrying the opacity of the previously examined row in `was`: unknown
/// (-1), transparent (0) or opaque (1).
///
/// A row beyond the range bound is skipped whole. Otherwise the row is
/// marked visible if it is opaque or lies strictly inside the slope
/// wedge; then, short of the last column, an opacity change against the
/// previous row narrows the wedge: a newly opaque row either ends the
/// walk or spawns a scan of the later columns under the shrunken wedge,
/// and a newly transparent row lowers the top slope or ends the whole
/// sweep.
pub open spec fn spec_rows(
    e: ScanEnv,
    x: int,
    top_y: int,
    bottom_y: int,
    y: int,
    ty: int,
    tx: int,
    by: int,
    bx: int,
    was: int,
) -> RowScan
    decreases e.range + 1 - x, 0int, y - bottom_y + 1,
{
    if y < bottom_y {
        RowScan { cells: Set::empty(), ty, tx, by, bx, cont: was == 0 }
    } else if !within_range(e.range, x, y) {
        spec_rows(e, x, top_y, bottom_y, y - 1, ty, tx, by, bx, was)
    } else {
        let op = env_blocked(e, x, y);
        let viscell = op || ((y != top_y || slope_ge(ty, tx, y, x)) && (y != bottom_y || slope_le(
            by,
            bx,
            y,
            x,
        )));
        let a = local_to_abs(e.octant, e.ox, e.oy, x, y);
        let marked: Set<(int, int)> = if viscell && (e.inb)(a.0, a.1) {
            Set::empty().insert(a)
        } else {
            Set::empty()
        };
        if x < e.range {
            if op {
                if was == 0 {
                    let ny = y * 2 + 1;
                    let nx = if env_blocked(e, x, y + 1) {
                        x * 2 - 1
                    } else {
                        x * 2
                    };
                    if slope_gt(ty, tx, ny, nx) {
                        if y == bottom_y {
                            RowScan { cells: marked, ty, tx, by: ny, bx: nx, cont: true }
                        } else {
                            let spawned = spec_scan(e, x + 1, ty, tx, ny, nx);
                            let rest = spec_rows(e, x, top_y, bottom_y, y - 1, ty, tx, by, bx, 1);
                            RowScan {
                                cells: marked.union(spawned).union(rest.cells),
                                ty: rest.ty,
                                tx: rest.tx,
                                by: rest.by,
                                bx: rest.bx,
                                cont: rest.cont,
                            }
                        }
                    } else if y == bottom_y {
                        RowScan { cells: marked, ty, tx, by, bx, cont: false }
                    } else {
                        let rest = spec_rows(e, x, top_y, bottom_y, y - 1, ty, tx, by, bx, 1);
                        RowScan {
                            cells: marked.union(rest.cells),
                            ty: rest.ty,
                            tx: rest.tx,
                            by: rest.by,
                            bx: rest.bx,
                            cont: rest.cont,
                        }
                    }
                } else {
                    let rest = spec_rows(e, x, top_y, bottom_y, y - 1, ty, tx, by, bx, 1);
                    RowScan {
                        cells: marked.union(rest.cells),
                        ty: rest.ty,
                        tx: rest.tx,
                        by: rest.by,
                        bx: rest.bx,
                        cont: rest.cont,
                    }
                }
            } else {
                if was > 0 {
                    let ny = y * 2 + 1;
                    let nx = if env_blocked(e, x + 1, y + 1) {
                        x * 2 + 1
                    } else {
                        x * 2
                    };
                    if slope_ge(by, bx, ny, nx) {
                        RowScan { cells: marked, ty, tx, by, bx, cont: false }
                    } else {
                        let rest = spec_rows(e, x, top_y, bottom_y, y - 1, ny, nx, by, bx, 0);
                        RowScan {
                            cells: marked.union(rest.cells),
                            ty: rest.ty,
                            tx: rest.tx,
                            by: rest.by,
                            bx: rest.bx,
                            cont: rest.cont,
                        }
                    }
                } else {
                    let rest = spec_rows(e, x, top_y, bottom_y, y - 1, ty, tx, by, bx, 0);
                    RowScan {
                        cells: marked.union(rest.cells),
                        ty: rest.ty,
                        tx: rest.tx,
                        by: rest.by,
                        bx: rest.bx,
                        cont: rest.cont,
                    }
                }
            }
        } else {
            let rest = spec_rows(e, x, top_y, bottom_y, y - 1, ty, tx, by, bx, was);
            RowScan {
                cells: marked.union(rest.cells),
                ty: rest.ty,
                tx: rest.tx,
                by: rest.by,
                bx: rest.bx,
                cont: rest.cont,
            }
        }
    }
}

/// The column sweep from column `x` outward under the wedge
/// `bottom = by / bx` up to `top = ty / tx`: each column's boundary rows
/// are computed from the current slopes, its rows are walked, and the
/// sweep goes on with the walked slopes while the walk allows.
pub open spec fn spec_scan(e: ScanEnv, x: int, ty: int, tx: int, by: int, bx: int) -> Set<
    (int, int),
>
    decreases e.range + 1 - x, 1int, 0int,
{
    if x > e.range {
        Set::empty()
    } else {
        let t = spec_top_y(e, ty, tx, x);
        let b = spec_bottom_y(e, by, bx, x);
        let r = spec_rows(e, x, t, b, t, ty, tx, by, bx, -1);
        if r.cont {
            r.cells.union(spec_scan(e, x + 1, r.ty, r.tx, r.by, r.bx))
        } else {
            r.cells
        }
    }
}

/// The cells one octant's scan marks, beginning at column 1 under the
/// full wedge from 0/1 to 1/1.
pub open spec fn octant_cells(
    opq: spec_fn(int, int) -> bool,
    inb: spec_fn(int, int) -> bool,
    octant: int,
    ox: int,
    oy: int,
    range: int,
) -> Set<(int, int)> {
    spec_scan(ScanEnv { opq, inb, octant, ox, oy, range }, 1, 1, 1, 0, 1)
}

/// The union of the scans of octants `0 .. k`.
pub open spec fn octants_prefix(
    opq: spec_fn(int, int) -> bool,
    inb: spec_fn(int, int) -> bool,
    ox: int,
    oy: int,
    range: int,
    k: int,
) -> Set<(int, int)>
    decreases k,
{
    if k <= 0 {
        Set::empty()
    } else {
        octants_prefix(opq, inb, ox, oy, range, k - 1).union(
            octant_cells(opq, inb, k - 1, ox, oy, range),
        )
    }
}

/// Every cell the whole computation marks visible: the origin, when it
/// lies in bounds, together with the scans of all eight octants.
pub open spec fn fov_cells(
    opq: spec_fn(int, int) -> bool,
    inb: spec_fn(int, int) -> bool,
    ox: int,
    oy: int,
    range: int,
) -> Set<(int, int)> {
    let base: Set<(int, int)> = if inb(ox, oy) {
        Set::empty().insert((ox, oy))
    } else {
        Set::empty()
    };
    base.union(octants_prefix(opq, inb, ox, oy, range, 8))
}

} // verus!
