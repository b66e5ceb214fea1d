//! The executable scan.
//!
//! These functions carry out the sweep the model in [`crate::model`]
//! describes, against any [`VisionMap`]. Every function's effect on the
//! map is equated by its `ensures` with the corresponding model function,
//! so [`compute_fov`] marks exactly the cells of
//! [`crate::model::fov_cells`] — no more, no fewer.
//!
//! The only inputs ruled out are those the machine rules out: the range
//! and the origin must leave the 32-bit coordinate arithmetic room, as
//! [`origin_fits`] states. All products and the boundary division are
//! taken at 64 bits.

use vstd::prelude::*;
use vstd::arithmetic::div_mod::{lemma_div_is_ordered, lemma_div_multiples_vanish};
use crate::map::{Point, VisionMap, opacity_of, bounds_of};
use crate::slope::{Slope, slope_wf, slope_gt, slope_ge, lemma_i32_prod_fits};
use crate::model::{
    ScanEnv,
    local_to_abs,
    env_blocked,
    within_range,
    spec_top_y,
    spec_bottom_y,
    spec_rows,
    spec_scan,
    octant_cells,
    octants_prefix,
    fov_cells,
};

verus! {

/// The machine-limit precondition of the scan: the range bound leaves
/// room to double a coordinate, and cells up to `range + 1` steps from
/// the origin have 32-bit coordinates.
pub open spec fn origin_fits(origin: Point, range: int) -> bool {
    range >= 0 ==> (origin.x - range - 2 >= i32::MIN && origin.x + range + 2 <= i32::MAX
        && origin.y - range - 2 >= i32::MIN && origin.y + range + 2 <= i32::MAX)
}

/// Local offsets `x` and `y` can be added to and subtracted from both
/// origin coordinates without leaving the 32-bit range.
spec fn offsets_ok(origin: Point, x: int, y: int) -> bool {
    &&& origin.x - x >= i32::MIN && origin.x + x <= i32::MAX
    &&& origin.x - y >= i32::MIN && origin.x + y <= i32::MAX
    &&& origin.y - x >= i32::MIN && origin.y + x <= i32::MAX
    &&& origin.y - y >= i32::MIN && origin.y + y <= i32::MAX
}

/// The ghost environment speaks for the map: its two predicates agree
/// with the map's opacity and bounds at every cell.
spec fn env_matches<M: VisionMap>(env: ScanEnv, m: &M) -> bool {
    &&& forall|a: int, b: int| #[trigger] (env.opq)(a, b) == m.opq(a, b)
    &&& forall|a: int, b: int| #[trigger] (env.inb)(a, b) == m.inb(a, b)
}

/// Whether the local cell `(x, y)` blocks light: its absolute position is
/// taken through the octant transform, out-of-bounds cells count as
/// opaque, and in-bounds cells answer the map's opacity query.
fn blocks_light<M: VisionMap>(
    Ghost(env): Ghost<ScanEnv>,
    x: i32,
    y: i32,
    octant: i32,
    origin: Point,
    map: &M,
) -> (r: bool)
    requires
        env_matches(env, map),
        env.octant == octant as int,
        env.ox == origin.x as int,
        env.oy == origin.y as int,
        0 <= octant < 8,
        0 <= x,
        0 <= y,
        offsets_ok(origin, x as int, y as int),
    ensures
        r == env_blocked(env, x as int, y as int),
{
    let mut nx = origin.x;
    let mut ny = origin.y;
    if octant == 0 {
        nx = nx + x;
        ny = ny - y;
    } else if octant == 1 {
        nx = nx + y;
        ny = ny - x;
    } else if octant == 2 {
        nx = nx - y;
        ny = ny - x;
    } else if octant == 3 {
        nx = nx - x;
        ny = ny - y;
    } else if octant == 4 {
        nx = nx - x;
        ny = ny + y;
    } else if octant == 5 {
        nx = nx - y;
        ny = ny + x;
    } else if octant == 6 {
        nx = nx + y;
        ny = ny + x;
    } else {
        nx = nx + x;
        ny = ny + y;
    }
    let p = Point { x: nx, y: ny };
    proof {
        assert((nx as int, ny as int) == local_to_abs(
            env.octant,
            env.ox,
            env.oy,
            x as int,
            y as int,
        ));
    }
    if !map.is_in_bounds(p) {
        true
    } else {
        map.is_opaque(p)
    }
}

/// Mark the local cell `(x, y)` visible at its absolute position, if that
/// position lies in bounds; out-of-bounds cells are left alone.
fn set_visible<M: VisionMap>(
    Ghost(env): Ghost<ScanEnv>,
    x: i32,
    y: i32,
    octant: i32,
    origin: Point,
    map: &mut M,
)
    requires
        env_matches(env, old(map)),
        env.octant == octant as int,
        env.ox == origin.x as int,
        env.oy == origin.y as int,
        0 <= octant < 8,
        0 <= x,
        0 <= y,
        offsets_ok(origin, x as int, y as int),
    ensures
        env_matches(env, final(map)),
        forall|a: int, b: int|
            #[trigger] final(map).vis(a, b) == (old(map).vis(a, b) || ((a, b) == local_to_abs(
                env.octant,
                env.ox,
                env.oy,
                x as int,
                y as int,
            ) && (env.inb)(a, b))),
        forall|a: int, b: int| #[trigger] final(map).opq(a, b) == old(map).opq(a, b),
        forall|a: int, b: int| #[trigger] final(map).inb(a, b) == old(map).inb(a, b),
{
    let mut nx = origin.x;
    let mut ny = origin.y;
    if octant == 0 {
        nx = nx + x;
        ny = ny - y;
    } else if octant == 1 {
        nx = nx + y;
        ny = ny - x;
    } else if octant == 2 {
        nx = nx - y;
        ny = ny - x;
    } else if octant == 3 {
        nx = nx - x;
        ny = ny - y;
    } else if octant == 4 {
        nx = nx - x;
        ny = ny + y;
    } else if octant == 5 {
        nx = nx - y;
        ny = ny + x;
    } else if octant == 6 {
        nx = nx + y;
        ny = ny + x;
    } else {
        nx = nx + x;
        ny = ny + y;
    }
    let p = Point { x: nx, y: ny };
    proof {
        assert((nx as int, ny as int) == local_to_abs(
            env.octant,
            env.ox,
            env.oy,
            x as int,
            y as int,
        ));
    }
    if map.is_in_bounds(p) {
        map.mark_visible(p);
    }
}

/// A slope no steeper than the diagonal lies under the ray to the row
/// just above the column's diagonal, so a boundary row already at the
/// diagonal admits no upward correction.
proof fn lemma_no_corr_ge(ty: int, tx: int, x: int)
    requires
        1 <= tx,
        0 <= ty <= tx,
        1 <= x,
    ensures
        !slope_ge(ty, tx, x * 2 + 1, x * 2),
{
    assert(!(ty * (x * 2) >= tx * (x * 2 + 1))) by (nonlinear_arith)
        requires
            1 <= tx,
            0 <= ty <= tx,
            1 <= x,
    ;
}

/// The same, for the strict comparison against the corrected run length.
proof fn lemma_no_corr_gt(ty: int, tx: int, x: int, ax: int)
    requires
        1 <= tx,
        0 <= ty <= tx,
        1 <= x,
        x * 2 <= ax <= x * 2 + 1,
    ensures
        !slope_gt(ty, tx, x * 2 + 1, ax),
{
    assert(!(ty * ax > tx * (x * 2 + 1))) by (nonlinear_arith)
        requires
            1 <= tx,
            0 <= ty <= tx,
            1 <= x,
            x * 2 <= ax <= x * 2 + 1,
    ;
}

/// The truncating rounding of a boundary row: `((2x - 1) n + d) / 2d`,
/// computed at 64 bits; the quotient lies between 0 and `x`.
fn boundary_row(n: i32, d: i32, x: i32) -> (q: i32)
    requires
        1 <= d,
        0 <= n <= d,
        1 <= x < 0x4000_0000,
    ensures
        q as int == ((x as int * 2 - 1) * n as int + d as int) / (d as int * 2),
        0 <= q <= x,
{
    let xl: i64 = x as i64;
    let nl: i64 = n as i64;
    let dl: i64 = d as i64;
    proof {
        lemma_i32_prod_fits(x as int * 2 - 1, n as int);
    }
    let num: i64 = (xl * 2 - 1) * nl + dl;
    let den: i64 = dl * 2;
    proof {
        assert(num >= 0) by (nonlinear_arith)
            requires
                num == (xl * 2 - 1) * nl + dl,
                xl >= 1,
                nl >= 0,
                dl >= 1,
        ;
        assert(num as int <= (x as int * 2) * (d as int)) by (nonlinear_arith)
            requires
                num == (xl * 2 - 1) * nl + dl,
                xl == x as int,
                nl == n as int,
                dl == d as int,
                xl >= 1,
                0 <= nl <= dl,
        ;
        lemma_div_is_ordered(num as int, (x as int * 2) * d as int, den as int);
        assert((x as int * 2) * d as int == (d as int * 2) * x as int) by (nonlinear_arith);
        lemma_div_multiples_vanish(x as int, d as int * 2);
    }
    let q64: u64 = (num as u64) / (den as u64);
    q64 as i32
}

/// The boundary rows of column `x`: the row nearest the top slope and the
/// row nearest the bottom slope, each with the one-cell correction that
/// keeps diagonal walls from opening gaps or leaks.
fn compute_y_coordinate<M: VisionMap>(
    Ghost(env): Ghost<ScanEnv>,
    octant: i32,
    origin: Point,
    range: i32,
    x: i32,
    top: &Slope,
    bottom: &Slope,
    map: &M,
) -> (r: (i32, i32))
    requires
        env_matches(env, map),
        env.octant == octant as int,
        env.ox == origin.x as int,
        env.oy == origin.y as int,
        0 <= octant < 8,
        1 <= x <= range,
        range < 0x4000_0000,
        origin_fits(origin, range as int),
        slope_wf(*top),
        slope_wf(*bottom),
    ensures
        r.0 as int == spec_top_y(env, top.y as int, top.x as int, x as int),
        r.1 as int == spec_bottom_y(env, bottom.y as int, bottom.x as int, x as int),
        0 <= r.0 <= x,
        0 <= r.1 <= x + 1,
{
    let mut top_y: i32;
    if top.x == 1 {
        top_y = x;
    } else {
        top_y = boundary_row(top.y, top.x, x);
        if blocks_light(Ghost(env), x, top_y, octant, origin, map) {
            if top.greater_or_equal(top_y * 2 + 1, x * 2) && !blocks_light(
                Ghost(env),
                x,
                top_y + 1,
                octant,
                origin,
                map,
            ) {
                proof {
                    if top_y == x {
                        lemma_no_corr_ge(top.y as int, top.x as int, x as int);
                    }
                }
                top_y = top_y + 1;
            }
        } else {
            let mut ax = x * 2;
            if blocks_light(Ghost(env), x + 1, top_y + 1, octant, origin, map) {
                ax = ax + 1;
            }
            if top.greater(top_y * 2 + 1, ax) {
                proof {
                    if top_y == x {
                        lemma_no_corr_gt(top.y as int, top.x as int, x as int, ax as int);
                    }
                }
                top_y = top_y + 1;
            }
        }
    }
    let mut bottom_y: i32;
    if bottom.y == 0 {
        bottom_y = 0;
    } else {
        bottom_y = boundary_row(bottom.y, bottom.x, x);
        if bottom.greater_or_equal(bottom_y * 2 + 1, x * 2) && blocks_light(
            Ghost(env),
            x,
            bottom_y,
            octant,
            origin,
            map,
        ) && !blocks_light(Ghost(env), x, bottom_y + 1, octant, origin, map) {
            bottom_y = bottom_y + 1;
        }
    }
    (top_y, bottom_y)
}

/// The row walk of one column, from row `y` down to `bottom_y`, exactly
/// as [`spec_rows`] describes it: each row in range is marked when opaque
/// or inside the wedge, and an opacity change against the previous row
/// narrows the wedge, ends the walk, or spawns a scan of the later
/// columns.
fn scan_row<M: VisionMap>(
    Ghost(env): Ghost<ScanEnv>,
    octant: i32,
    origin: Point,
    range: i32,
    x: i32,
    top_y: i32,
    bottom_y: i32,
    y: i32,
    was_opaque: i32,
    top: &mut Slope,
    bottom: &mut Slope,
    map: &mut M,
) -> (cont: bool)
    requires
        env_matches(env, old(map)),
        env.octant == octant as int,
        env.ox == origin.x as int,
        env.oy == origin.y as int,
        env.range == range as int,
        0 <= octant < 8,
        1 <= x <= range,
        range < 0x4000_0000,
        origin_fits(origin, range as int),
        slope_wf(*old(top)),
        slope_wf(*old(bottom)),
        0 <= bottom_y,
        top_y <= x,
        y <= top_y,
        was_opaque == -1 || was_opaque == 0 || was_opaque == 1,
        was_opaque != -1 ==> y < top_y,
    ensures
        ({
            let r = spec_rows(
                env,
                x as int,
                top_y as int,
                bottom_y as int,
                y as int,
                old(top).y as int,
                old(top).x as int,
                old(bottom).y as int,
                old(bottom).x as int,
                was_opaque as int,
            );
            &&& cont == r.cont
            &&& final(top).y as int == r.ty
            &&& final(top).x as int == r.tx
            &&& final(bottom).y as int == r.by
            &&& final(bottom).x as int == r.bx
            &&& slope_wf(*final(top))
            &&& slope_wf(*final(bottom))
            &&& forall|a: int, b: int|
                #[trigger] final(map).vis(a, b) == (old(map).vis(a, b) || r.cells.contains(
                    (a, b),
                ))
            &&& env_matches(env, final(map))
            &&& forall|a: int, b: int| #[trigger] final(map).opq(a, b) == old(map).opq(a, b)
            &&& forall|a: int, b: int| #[trigger] final(map).inb(a, b) == old(map).inb(a, b)
        }),
    decreases range + 1 - x, 0int, y - bottom_y + 1,
{
    if y < bottom_y {
        return was_opaque == 0;
    }
    let xl: i64 = x as i64;
    let yl: i64 = y as i64;
    let rl: i64 = range as i64;
    proof {
        assert(0 <= xl * xl < 0x1000_0000_0000_0000 && 0 <= yl * yl < 0x1000_0000_0000_0000 && 0
            <= rl * rl < 0x1000_0000_0000_0000) by (nonlinear_arith)
            requires
                0 <= xl < 0x4000_0000,
                0 <= yl < 0x4000_0000,
                0 <= rl < 0x4000_0000,
        ;
    }
    let inr = range < 0 || xl * xl + yl * yl <= rl * rl;
    proof {
        assert(inr == within_range(range as int, x as int, y as int));
    }
    if !inr {
        return scan_row(
            Ghost(env),
            octant,
            origin,
            range,
            x,
            top_y,
            bottom_y,
            y - 1,
            was_opaque,
            top,
            bottom,
            map,
        );
    }
    let op = blocks_light(Ghost(env), x, y, octant, origin, map);
    let isvis = op || ((y != top_y || top.greater_or_equal(y, x)) && (y != bottom_y
        || bottom.less_or_equal(y, x)));
    if isvis {
        set_visible(Ghost(env), x, y, octant, origin, map);
    }
    if x != range {
        if op {
            if was_opaque == 0 {
                let ny = y * 2 + 1;
                let mut nxx = x * 2;
                if blocks_light(Ghost(env), x, y + 1, octant, origin, map) {
                    nxx = nxx - 1;
                }
                if top.greater(ny, nxx) {
                    if y == bottom_y {
                        *bottom = Slope { y: ny, x: nxx };
                        return true;
                    } else {
                        compute_octant(
                            Ghost(env),
                            octant,
                            origin,
                            range,
                            x + 1,
                            *top,
                            Slope { y: ny, x: nxx },
                            map,
                        );
                        return scan_row(
                            Ghost(env),
                            octant,
                            origin,
                            range,
                            x,
                            top_y,
                            bottom_y,
                            y - 1,
                            1,
                            top,
                            bottom,
                            map,
                        );
                    }
                } else if y == bottom_y {
                    return false;
                } else {
                    return scan_row(
                        Ghost(env),
                        octant,
                        origin,
                        range,
                        x,
                        top_y,
                        bottom_y,
                        y - 1,
                        1,
                        top,
                        bottom,
                        map,
                    );
                }
            } else {
                return scan_row(
                    Ghost(env),
                    octant,
                    origin,
                    range,
                    x,
                    top_y,
                    bottom_y,
                    y - 1,
                    1,
                    top,
                    bottom,
                    map,
                );
            }
        } else {
            if was_opaque > 0 {
                let ny = y * 2 + 1;
                let mut nxx = x * 2;
                if blocks_light(Ghost(env), x + 1, y + 1, octant, origin, map) {
                    nxx = nxx + 1;
                }
                if bottom.greater_or_equal(ny, nxx) {
                    return false;
                }
                *top = Slope { y: ny, x: nxx };
                return scan_row(
                    Ghost(env),
                    octant,
                    origin,
                    range,
                    x,
                    top_y,
                    bottom_y,
                    y - 1,
                    0,
                    top,
                    bottom,
                    map,
                );
            } else {
                return scan_row(
                    Ghost(env),
                    octant,
                    origin,
                    range,
                    x,
                    top_y,
                    bottom_y,
                    y - 1,
                    0,
                    top,
                    bottom,
                    map,
                );
            }
        }
    } else {
        return scan_row(
            Ghost(env),
            octant,
            origin,
            range,
            x,
            top_y,
            bottom_y,
            y - 1,
            was_opaque,
            top,
            bottom,
            map,
        );
    }
}

/// The visibility resolution of one whole column: the row walk from the
/// top boundary row down, beginning with the previous opacity unknown.
fn compute_visiblity<M: VisionMap>(
    Ghost(env): Ghost<ScanEnv>,
    top_y: i32,
    bottom_y: i32,
    range: i32,
    octant: i32,
    origin: Point,
    x: i32,
    top: &mut Slope,
    bottom: &mut Slope,
    map: &mut M,
) -> (cont: bool)
    requires
        env_matches(env, old(map)),
        env.octant == octant as int,
        env.ox == origin.x as int,
        env.oy == origin.y as int,
        env.range == range as int,
        0 <= octant < 8,
        1 <= x <= range,
        range < 0x4000_0000,
        origin_fits(origin, range as int),
        slope_wf(*old(top)),
        slope_wf(*old(bottom)),
        0 <= bottom_y,
        top_y <= x,
    ensures
        ({
            let r = spec_rows(
                env,
                x as int,
                top_y as int,
                bottom_y as int,
                top_y as int,
                old(top).y as int,
                old(top).x as int,
                old(bottom).y as int,
                old(bottom).x as int,
                -1,
            );
            &&& cont == r.cont
            &&& final(top).y as int == r.ty
            &&& final(top).x as int == r.tx
            &&& final(bottom).y as int == r.by
            &&& final(bottom).x as int == r.bx
            &&& slope_wf(*final(top))
            &&& slope_wf(*final(bottom))
            &&& forall|a: int, b: int|
                #[trigger] final(map).vis(a, b) == (old(map).vis(a, b) || r.cells.contains(
                    (a, b),
                ))
            &&& env_matches(env, final(map))
            &&& forall|a: int, b: int| #[trigger] final(map).opq(a, b) == old(map).opq(a, b)
            &&& forall|a: int, b: int| #[trigger] final(map).inb(a, b) == old(map).inb(a, b)
        }),
    decreases range + 1 - x, 1int, 0int,
{
    scan_row(
        Ghost(env),
        octant,
        origin,
        range,
        x,
        top_y,
        bottom_y,
        top_y,
        -1,
        top,
        bottom,
        map,
    )
}

/// The column sweep of one octant from column `x` outward, exactly as
/// [`spec_scan`] describes it: boundary rows from the current slopes, the
/// row walk, and on to the next column while the walk allows.
fn compute_octant<M: VisionMap>(
    Ghost(env): Ghost<ScanEnv>,
    octant: i32,
    origin: Point,
    range: i32,
    x: i32,
    top: Slope,
    bottom: Slope,
    map: &mut M,
)
    requires
        env_matches(env, old(map)),
        env.octant == octant as int,
        env.ox == origin.x as int,
        env.oy == origin.y as int,
        env.range == range as int,
        0 <= octant < 8,
        1 <= x,
        range < 0x4000_0000,
        origin_fits(origin, range as int),
        slope_wf(top),
        slope_wf(bottom),
    ensures
        forall|a: int, b: int|
            #[trigger] final(map).vis(a, b) == (old(map).vis(a, b) || spec_scan(
                env,
                x as int,
                top.y as int,
                top.x as int,
                bottom.y as int,
                bottom.x as int,
            ).contains((a, b))),
        env_matches(env, final(map)),
        forall|a: int, b: int| #[trigger] final(map).opq(a, b) == old(map).opq(a, b),
        forall|a: int, b: int| #[trigger] final(map).inb(a, b) == old(map).inb(a, b),
    decreases range + 1 - x, 2int, 0int,
{
    if x > range {
        return;
    }
    let yc = compute_y_coordinate(Ghost(env), octant, origin, range, x, &top, &bottom, map);
    let mut t = top;
    let mut b = bottom;
    let cont = compute_visiblity(
        Ghost(env),
        yc.0,
        yc.1,
        range,
        octant,
        origin,
        x,
        &mut t,
        &mut b,
        map,
    );
    if cont {
        compute_octant(Ghost(env), octant, origin, range, x + 1, t, b, map);
    }
}

/// Compute the field of view from `origin` out to `range` on the given
/// map.
///
/// The origin itself is marked visible whenever it lies in bounds, and
/// each of the eight octants around it is scanned; a negative range
/// confines the scan to the origin. The cells marked are exactly those of
/// [`fov_cells`] for the map's opacity and bounds as they stand at the
/// call — opacity and bounds themselves are never changed, and marking is
/// idempotent, so a cell already visible stays so. The one precondition
/// is the machine's: the range bound and the origin must leave the
/// 32-bit coordinate arithmetic room.
#[verifier::loop_isolation(false)]
pub fn compute_fov<M: VisionMap>(origin: Point, range: i32, map: &mut M)
    requires
        range < 0x4000_0000,
        origin_fits(origin, range as int),
    ensures
        forall|a: int, b: int|
            #[trigger] final(map).vis(a, b) == (old(map).vis(a, b) || fov_cells(
                opacity_of(*old(map)),
                bounds_of(*old(map)),
                origin.x as int,
                origin.y as int,
                range as int,
            ).contains((a, b))),
        forall|a: int, b: int| #[trigger] final(map).opq(a, b) == old(map).opq(a, b),
        forall|a: int, b: int| #[trigger] final(map).inb(a, b) == old(map).inb(a, b),
        old(map).inb(origin.x as int, origin.y as int) ==> final(map).vis(
            origin.x as int,
            origin.y as int,
        ),
{
    let ghost m0 = *map;
    let ghost opq0 = opacity_of(m0);
    let ghost inb0 = bounds_of(m0);
    let ghost ox = origin.x as int;
    let ghost oy = origin.y as int;
    let ghost base: Set<(int, int)> = if m0.inb(ox, oy) {
        Set::empty().insert((ox, oy))
    } else {
        Set::empty()
    };

    if map.is_in_bounds(origin) {
        map.mark_visible(origin);
    }

    let mut octant: i32 = 0;
    while octant < 8
        invariant
            0 <= octant <= 8,
            forall|a: int, b: int| #[trigger] map.opq(a, b) == m0.opq(a, b),
            forall|a: int, b: int| #[trigger] map.inb(a, b) == m0.inb(a, b),
            forall|a: int, b: int|
                #[trigger] map.vis(a, b) == (m0.vis(a, b) || base.contains((a, b))
                    || octants_prefix(opq0, inb0, ox, oy, range as int, octant as int).contains(
                    (a, b),
                )),
        decreases 8 - octant,
    {
        let ghost env = ScanEnv {
            opq: opq0,
            inb: inb0,
            octant: octant as int,
            ox: ox,
            oy: oy,
            range: range as int,
        };
        let ghost prev = *map;
        compute_octant(
            Ghost(env),
            octant,
            origin,
            range,
            1,
            Slope { x: 1, y: 1 },
            Slope { x: 1, y: 0 },
            map,
        );
        proof {
            assert(octant_cells(opq0, inb0, octant as int, ox, oy, range as int) == spec_scan(
                env,
                1,
                1,
                1,
                0,
                1,
            ));
            assert(octants_prefix(opq0, inb0, ox, oy, range as int, octant as int + 1)
                == octants_prefix(opq0, inb0, ox, oy, range as int, octant as int).union(
                octant_cells(opq0, inb0, octant as int, ox, oy, range as int),
            ));
        }
        octant = octant + 1;
    }
    proof {
        assert(fov_cells(opq0, inb0, ox, oy, range as int) == base.union(
            octants_prefix(opq0, inb0, ox, oy, range as int, 8),
        ));
        assert(m0 == *old(map));
    }
}

} // verus!
