//! Symmetric shadowcasting field of view for 2-D tile grids.
//!
//! The library computes, for a grid whose cells either block sight or let it
//! through, the set of cells visible from an origin cell within a given range.
//! The scan walks the eight octants around the origin, bounding each wedge by
//! exact rational slopes and splitting the wedge whenever a run of opaque
//! cells begins or ends, so that visibility is mutually symmetric between
//! unobstructed cells.
//!
//! The map is supplied through the [`VisionMap`] trait: an opacity query, a
//! bounds query and a mark-visible sink; [`GridMap`] is a dense row-major
//! implementation of it. The whole computation is pinned by `ensures`
//! clauses to the mathematical model in [`model`], and the laws that hold
//! of that model — self-visibility, range cutoff, bounds safety,
//! determinism — are proved in [`laws`].

mod slope;
mod map;
mod model;
mod fov;
mod laws;

pub use slope::{Slope, slope_gt, slope_ge, slope_le, slope_wf};
pub use map::{Point, VisionMap, GridMap, opacity_of, bounds_of};
pub use model::{
    ScanEnv,
    RowScan,
    local_to_abs,
    env_blocked,
    within_range,
    spec_top_y,
    spec_bottom_y,
    spec_rows,
    spec_scan,
    octant_cells,
    octants_prefix,
    fov_cells,
};
pub use fov::{compute_fov, origin_fits};
pub use laws::{
    dist_squared,
    lemma_origin_visible,
    lemma_range_cutoff,
    lemma_bounds_safety,
    lemma_determinism,
};
