use adam_fov_rs::{compute_fov, GridMap, Point, Slope};

/// Build a `width` x `height` map with the given cells opaque.
fn build_map(width: usize, height: usize, blockers: &[(i32, i32)]) -> GridMap {
    let mut map = GridMap::new(width, height);
    for &(x, y) in blockers {
        map.set_opaque(x, y, true);
    }
    map
}

/// Whether `to` is visible from `from` on a fresh map with the given
/// blockers.
fn sees(
    width: usize,
    height: usize,
    blockers: &[(i32, i32)],
    from: (i32, i32),
    to: (i32, i32),
    range: i32,
) -> bool {
    let mut map = build_map(width, height, blockers);
    compute_fov(Point { x: from.0, y: from.1 }, range, &mut map);
    map.is_visible(to.0, to.1)
}

#[test]
fn testfov() {
    let width = 50;
    let height = 50;
    let mut map = GridMap::new(width, height);
    // One vision blocker just above the origin.
    map.set_opaque(15, 16, true);
    compute_fov(Point { x: 15, y: 15 }, 5, &mut map);
    assert!(!map.is_visible(15, 17));
    assert!(map.is_visible(17, 15));
}

#[test]
fn shadow_completeness_reference_scenario() {
    // Blockers at (0,1) and (1,0), origin (0,0), range 5: each blocker is
    // itself visible, and hides exactly the cell directly behind it.
    let mut map = build_map(8, 8, &[(0, 1), (1, 0)]);
    compute_fov(Point { x: 0, y: 0 }, 5, &mut map);
    assert!(map.is_visible(0, 0));
    assert!(map.is_visible(0, 1));
    assert!(!map.is_visible(0, 2));
    assert!(map.is_visible(1, 0));
    assert!(!map.is_visible(2, 0));
}

#[test]
fn origin_visible_at_range_zero() {
    let mut map = build_map(5, 5, &[]);
    compute_fov(Point { x: 2, y: 2 }, 0, &mut map);
    assert!(map.is_visible(2, 2));
    for x in 0..5 {
        for y in 0..5 {
            if (x, y) != (2, 2) {
                assert!(!map.is_visible(x, y));
            }
        }
    }
}

#[test]
fn origin_visible_at_negative_range() {
    // A negative range is the unbounded sentinel for the cutoff, but the
    // column sweep has nowhere to go, so only the origin is marked.
    let mut map = build_map(5, 5, &[]);
    compute_fov(Point { x: 2, y: 2 }, -1, &mut map);
    assert!(map.is_visible(2, 2));
}

#[test]
fn origin_visible_even_when_walled_in() {
    let mut map = build_map(5, 5, &[(1, 1), (1, 2), (1, 3), (2, 1), (2, 3), (3, 1), (3, 2), (3, 3)]);
    compute_fov(Point { x: 2, y: 2 }, 2, &mut map);
    assert!(map.is_visible(2, 2));
}

#[test]
fn range_cutoff_euclidean() {
    // Nothing farther than the range is ever marked, on an open map.
    let mut map = build_map(21, 21, &[]);
    let range = 3;
    compute_fov(Point { x: 10, y: 10 }, range, &mut map);
    for x in 0..21i32 {
        for y in 0..21i32 {
            let d2 = (x - 10) * (x - 10) + (y - 10) * (y - 10);
            if d2 > range * range {
                assert!(!map.is_visible(x, y), "({}, {}) beyond range was marked", x, y);
            } else {
                assert!(map.is_visible(x, y), "({}, {}) within range was not marked", x, y);
            }
        }
    }
}

#[test]
fn bounds_safety_origin_at_corner() {
    // An origin on the map edge scans without touching anything outside.
    let mut map = build_map(4, 4, &[(1, 1)]);
    compute_fov(Point { x: 0, y: 0 }, 6, &mut map);
    assert!(map.is_visible(0, 0));
    assert!(map.is_visible(1, 1));
}

#[test]
fn out_of_bounds_origin_is_accepted() {
    // An origin outside the map is accepted silently; no out-of-bounds
    // mark can exist, and the query for it answers false.
    let mut map = build_map(4, 4, &[]);
    compute_fov(Point { x: -3, y: -3 }, 2, &mut map);
    assert!(!map.is_visible(-3, -3));
}

#[test]
fn symmetry_across_open_lines() {
    // A pair with a clear straight line between them sees each other both
    // ways; a pair separated by a blocker sees each other neither way.
    let blockers = [(3, 3)];
    // Clear diagonal-adjacent pair.
    assert!(sees(7, 7, &blockers, (1, 1), (5, 2), 10));
    assert!(sees(7, 7, &blockers, (5, 2), (1, 1), 10));
    // Pair on the blocked vertical line through the wall.
    assert!(!sees(7, 7, &blockers, (3, 1), (3, 5), 10));
    assert!(!sees(7, 7, &blockers, (3, 5), (3, 1), 10));
    // Pair on the blocked diagonal through the wall.
    assert!(!sees(7, 7, &blockers, (1, 1), (5, 5), 10));
    assert!(!sees(7, 7, &blockers, (5, 5), (1, 1), 10));
}

#[test]
fn symmetry_between_transparent_cells() {
    // Visibility between transparent cells is mutual, here over every
    // pair of a small map with one wall cell.
    let width = 7usize;
    let height = 7usize;
    let blockers = [(3, 3)];
    let cells: Vec<(i32, i32)> = (0..7i32)
        .flat_map(|x| (0..7i32).map(move |y| (x, y)))
        .filter(|&c| c != (3, 3))
        .collect();
    let mut sees_from: Vec<Vec<bool>> = Vec::new();
    for &from in &cells {
        let mut map = build_map(width, height, &blockers);
        compute_fov(Point { x: from.0, y: from.1 }, 20, &mut map);
        sees_from.push(cells.iter().map(|&to| map.is_visible(to.0, to.1)).collect());
    }
    for i in 0..cells.len() {
        for j in 0..cells.len() {
            assert_eq!(
                sees_from[i][j], sees_from[j][i],
                "asymmetry between {:?} and {:?}",
                cells[i], cells[j]
            );
        }
    }
}

#[test]
fn monotonic_blocking() {
    // Adding a blocker never enlarges the visible set.
    let width = 9usize;
    let height = 9usize;
    let origin = Point { x: 4, y: 4 };
    let range = 6;
    let mut before = build_map(width, height, &[(5, 4), (2, 6)]);
    compute_fov(origin, range, &mut before);
    let mut after = build_map(width, height, &[(5, 4), (2, 6), (3, 4), (5, 5)]);
    compute_fov(origin, range, &mut after);
    for x in 0..9i32 {
        for y in 0..9i32 {
            if after.is_visible(x, y) {
                assert!(
                    before.is_visible(x, y),
                    "({}, {}) became visible after adding blockers",
                    x,
                    y
                );
            }
        }
    }
}

#[test]
fn determinism_repeated_runs() {
    let width = 9usize;
    let height = 9usize;
    let blockers = [(2, 2), (5, 4), (6, 6)];
    let origin = Point { x: 4, y: 4 };
    let mut first = build_map(width, height, &blockers);
    compute_fov(origin, 5, &mut first);
    let mut second = build_map(width, height, &blockers);
    compute_fov(origin, 5, &mut second);
    // A repeated run on the same map adds nothing new either.
    compute_fov(origin, 5, &mut second);
    for x in 0..9i32 {
        for y in 0..9i32 {
            assert_eq!(first.is_visible(x, y), second.is_visible(x, y));
        }
    }
}

#[test]
fn clear_visible_resets_marks_only() {
    let mut map = build_map(6, 6, &[(3, 3)]);
    compute_fov(Point { x: 1, y: 1 }, 8, &mut map);
    assert!(map.is_visible(1, 1));
    map.clear_visible();
    for x in 0..6i32 {
        for y in 0..6i32 {
            assert!(!map.is_visible(x, y));
        }
    }
    // Opacity survived the reset: the wall still casts its shadow.
    compute_fov(Point { x: 3, y: 1 }, 8, &mut map);
    assert!(!map.is_visible(3, 5));
}

#[test]
fn grid_map_bounds_and_opacity() {
    let mut map = GridMap::new(3, 2);
    assert!(!map.is_visible(-1, 0));
    assert!(!map.is_visible(0, -1));
    assert!(!map.is_visible(3, 0));
    assert!(!map.is_visible(0, 2));
    // Out-of-bounds opacity writes are ignored.
    map.set_opaque(17, 17, true);
    compute_fov(Point { x: 0, y: 0 }, 10, &mut map);
    assert!(map.is_visible(2, 1));
}

#[test]
fn slope_comparisons_are_exact() {
    let s = Slope { y: 1, x: 3 };
    // 1/3 against 333/1000 and 334/1000, cross-multiplied exactly.
    assert!(s.greater(333, 1000));
    assert!(!s.greater(334, 1000));
    assert!(s.greater_or_equal(333, 1000));
    assert!(!s.greater_or_equal(334, 1000));
    assert!(!s.less_or_equal(333, 1000));
    assert!(s.less_or_equal(334, 1000));
    // Equality sits on the boundary of both non-strict comparisons.
    let half = Slope { y: 1, x: 2 };
    assert!(half.greater_or_equal(2, 4));
    assert!(half.less_or_equal(2, 4));
    assert!(!half.greater(2, 4));
    // Large magnitudes do not overflow the comparison.
    let big = Slope { y: i32::MAX, x: i32::MAX };
    assert!(big.greater(i32::MAX - 1, i32::MAX));
    assert!(big.less_or_equal(i32::MAX, i32::MAX));
}

#[test]
fn closed_room_shows_walls_and_nothing_beyond() {
    // From inside a closed room, every wall cell and every floor cell of
    // the room is visible, and nothing outside the walls is.
    let mut blockers: Vec<(i32, i32)> = Vec::new();
    for i in 1..=5i32 {
        blockers.push((i, 1));
        blockers.push((i, 5));
        blockers.push((1, i));
        blockers.push((5, i));
    }
    let mut map = build_map(9, 9, &blockers);
    compute_fov(Point { x: 3, y: 3 }, 10, &mut map);
    for x in 0..9i32 {
        for y in 0..9i32 {
            let inside_or_wall = 1 <= x && x <= 5 && 1 <= y && y <= 5;
            assert_eq!(
                map.is_visible(x, y),
                inside_or_wall,
                "({}, {}) visibility out of place",
                x,
                y
            );
        }
    }
}

#[test]
fn walls_are_seen_but_not_through() {
    // A wall cell is itself visible once the scan reaches it, but the
    // cells behind it stay dark.
    let mut map = build_map(9, 9, &[(4, 6)]);
    compute_fov(Point { x: 4, y: 4 }, 8, &mut map);
    assert!(map.is_visible(4, 6));
    assert!(!map.is_visible(4, 7));
    assert!(!map.is_visible(4, 8));
}
