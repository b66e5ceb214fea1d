//! The map capability.
//!
//! The scan touches the world only through [`VisionMap`]: an opacity query,
//! a bounds query, and a mark-visible sink. Each exec method is tied to a
//! spec-level view of the map (`opq`, `inb`, `vis`), so the scan's own
//! contracts can speak of the map as three predicates over integer
//! coordinates. [`GridMap`] is a dense row-major implementation.

use vstd::prelude::*;

verus! {

/// An integer 2-D grid coordinate.
#[derive(Clone, Copy, Debug, PartialEq, Eq, Structural)]
pub struct Point {
    pub x: i32,
    pub y: i32,
}

impl Point {
    pub fn new(x: i32, y: i32) -> (p: Point)
        ensures
            p.x == x && p.y == y,
    {
        Point { x, y }
    }
}

/// The three capabilities a map owner supplies to the scan.
///
/// `opq`, `inb` and `vis` are the map's ghost state: which cells block
/// sight, which cells lie in bounds, and which cells have been marked
/// visible. The exec methods answer exactly according to that state, and
/// `mark_visible` changes nothing but the visibility of the one cell given
/// to it. Opacity queries carry a bounds precondition: the scan treats
/// out-of-bounds cells as opaque on its own and never asks about them.
pub trait VisionMap: Sized {
    /// Whether the cell at `(x, y)` blocks sight.
    spec fn opq(&self, x: int, y: int) -> bool;

    /// Whether the cell at `(x, y)` lies in bounds.
    spec fn inb(&self, x: int, y: int) -> bool;

    /// Whether the cell at `(x, y)` has been marked visible.
    spec fn vis(&self, x: int, y: int) -> bool;

    fn is_in_bounds(&self, p: Point) -> (r: bool)
        ensures
            r == self.inb(p.x as int, p.y as int),
    ;

    fn is_opaque(&self, p: Point) -> (r: bool)
        requires
            self.inb(p.x as int, p.y as int),
        ensures
            r == self.opq(p.x as int, p.y as int),
    ;

    fn mark_visible(&mut self, p: Point)
        requires
            old(self).inb(p.x as int, p.y as int),
        ensures
            forall|a: int, b: int|
                #[trigger] final(self).vis(a, b) == (old(self).vis(a, b) || (a == p.x as int
                    && b == p.y as int)),
            forall|a: int, b: int| #[trigger] final(self).opq(a, b) == old(self).opq(a, b),
            forall|a: int, b: int| #[trigger] final(self).inb(a, b) == old(self).inb(a, b),
    ;
}

/// A dense row-major grid map: one opacity bit and one visibility bit per
/// cell.
pub struct GridMap {
    width: usize,
    height: usize,
    opaque: Vec<bool>,
    visible: Vec<bool>,
}

/// A row-major index stays within the grid's cell count.
proof fn lemma_row_major_index(x: int, y: int, w: int, h: int)
    requires
        0 <= x < w,
        0 <= y < h,
    ensures
        0 <= y * w + x < w * h,
{
    assert(0 <= y * w + x < w * h) by (nonlinear_arith)
        requires
            0 <= x < w,
            0 <= y < h,
    ;
}

impl GridMap {
    #[verifier::type_invariant]
    spec fn well_formed(self) -> bool {
        self.opaque.len() == self.width * self.height && self.visible.len() == self.width
            * self.height
    }

    /// A fresh all-transparent, all-unmarked map of the given size.
    pub fn new(width: usize, height: usize) -> (m: GridMap)
        requires
            width * height <= usize::MAX,
        ensures
            forall|a: int, b: int|
                #[trigger] m.inb(a, b) == (0 <= a < width as int && 0 <= b < height as int),
            forall|a: int, b: int| !(#[trigger] m.opq(a, b)),
            forall|a: int, b: int| !(#[trigger] m.vis(a, b)),
    {
        let n = width * height;
        let mut opaque: Vec<bool> = Vec::new();
        let mut i: usize = 0;
        while i < n
            invariant
                i <= n,
                opaque.len() == i,
                forall|j: int| 0 <= j < i ==> !(#[trigger] opaque@[j]),
            decreases n - i,
        {
            opaque.push(false);
            i = i + 1;
        }
        let mut visible: Vec<bool> = Vec::new();
        let mut i: usize = 0;
        while i < n
            invariant
                i <= n,
                visible.len() == i,
                forall|j: int| 0 <= j < i ==> !(#[trigger] visible@[j]),
            decreases n - i,
        {
            visible.push(false);
            i = i + 1;
        }
        let m = GridMap { width, height, opaque, visible };
        proof {
            assert forall|a: int, b: int| !(#[trigger] m.opq(a, b)) by {
                if m.inb(a, b) {
                    lemma_row_major_index(a, b, width as int, height as int);
                }
            }
            assert forall|a: int, b: int| !(#[trigger] m.vis(a, b)) by {
                if m.inb(a, b) {
                    lemma_row_major_index(a, b, width as int, height as int);
                }
            }
        }
        m
    }

    /// Set or clear the opacity of one cell; out-of-bounds requests do
    /// nothing.
    pub fn set_opaque(&mut self, x: i32, y: i32, val: bool)
        ensures
            forall|a: int, b: int|
                #[trigger] final(self).opq(a, b) == (if a == x as int && b == y as int
                    && old(self).inb(a, b) {
                    val
                } else {
                    old(self).opq(a, b)
                }),
            forall|a: int, b: int| #[trigger] final(self).inb(a, b) == old(self).inb(a, b),
            forall|a: int, b: int| #[trigger] final(self).vis(a, b) == old(self).vis(a, b),
    {
        proof {
            use_type_invariant(&*self);
        }
        if x >= 0 && y >= 0 && (x as usize) < self.width && (y as usize) < self.height {
            proof {
                lemma_row_major_index(x as int, y as int, self.width as int, self.height as int);
            }
            let idx = (y as usize) * self.width + (x as usize);
            self.opaque[idx] = val;
            proof {
                assert forall|a: int, b: int|
                    #[trigger] self.opq(a, b) == (if a == x as int && b == y as int && old(
                        self,
                    ).inb(a, b) {
                        val
                    } else {
                        old(self).opq(a, b)
                    }) by {
                    if self.inb(a, b) {
                        lemma_row_major_index(a, b, self.width as int, self.height as int);
                        if !(a == x as int && b == y as int) {
                            index_distinct(a, b, x as int, y as int, self.width as int);
                        }
                    }
                }
            }
        }
    }

    /// Whether one cell is currently marked visible; false out of bounds.
    pub fn is_visible(&self, x: i32, y: i32) -> (r: bool)
        ensures
            r == self.vis(x as int, y as int),
    {
        proof {
            use_type_invariant(&*self);
        }
        if x >= 0 && y >= 0 && (x as usize) < self.width && (y as usize) < self.height {
            proof {
                lemma_row_major_index(x as int, y as int, self.width as int, self.height as int);
            }
            let idx = (y as usize) * self.width + (x as usize);
            self.visible[idx]
        } else {
            false
        }
    }

    /// Clear every visibility mark, keeping opacity as it is.
    pub fn clear_visible(&mut self)
        ensures
            forall|a: int, b: int| !(#[trigger] final(self).vis(a, b)),
            forall|a: int, b: int| #[trigger] final(self).opq(a, b) == old(self).opq(a, b),
            forall|a: int, b: int| #[trigger] final(self).inb(a, b) == old(self).inb(a, b),
    {
        proof {
            use_type_invariant(&*self);
        }
        let n = self.visible.len();
        let mut i: usize = 0;
        while i < n
            invariant
                i <= n,
                self.visible.len() == n,
                self.width == old(self).width,
                self.height == old(self).height,
                self.opaque == old(self).opaque,
                self.opaque.len() == n,
                n == self.width * self.height,
                forall|j: int| 0 <= j < i ==> !(#[trigger] self.visible@[j]),
            decreases n - i,
        {
            self.visible[i] = false;
            i = i + 1;
        }
        proof {
            assert forall|a: int, b: int| !(#[trigger] self.vis(a, b)) by {
                if self.inb(a, b) {
                    lemma_row_major_index(a, b, self.width as int, self.height as int);
                }
            }
        }
    }
}

/// Distinct in-bounds cells have distinct row-major indices.
proof fn index_distinct(a: int, b: int, x: int, y: int, w: int)
    requires
        0 <= a < w,
        0 <= x < w,
        !(a == x && b == y),
    ensures
        b * w + a != y * w + x,
{
    assert(b * w + a != y * w + x) by (nonlinear_arith)
        requires
            0 <= a < w,
            0 <= x < w,
            !(a == x && b == y),
    ;
}

impl VisionMap for GridMap {
    closed spec fn opq(&self, x: int, y: int) -> bool {
        self.inb(x, y) && self.opaque@[y * self.width + x]
    }

    closed spec fn inb(&self, x: int, y: int) -> bool {
        0 <= x < self.width && 0 <= y < self.height
    }

    closed spec fn vis(&self, x: int, y: int) -> bool {
        self.inb(x, y) && self.visible@[y * self.width + x]
    }

    fn is_in_bounds(&self, p: Point) -> (r: bool) {
        p.x >= 0 && p.y >= 0 && (p.x as usize) < self.width && (p.y as usize) < self.height
    }

    fn is_opaque(&self, p: Point) -> (r: bool) {
        proof {
            use_type_invariant(&*self);
            lemma_row_major_index(p.x as int, p.y as int, self.width as int, self.height as int);
        }
        let idx = (p.y as usize) * self.width + (p.x as usize);
        self.opaque[idx]
    }

    fn mark_visible(&mut self, p: Point) {
        proof {
            use_type_invariant(&*self);
            lemma_row_major_index(p.x as int, p.y as int, self.width as int, self.height as int);
        }
        let idx = (p.y as usize) * self.width + (p.x as usize);
        self.visible[idx] = true;
        proof {
            assert forall|a: int, b: int|
                #[trigger] self.vis(a, b) == (old(self).vis(a, b) || (a == p.x as int && b
                    == p.y as int)) by {
                if self.inb(a, b) {
                    lemma_row_major_index(a, b, self.width as int, self.height as int);
                    if !(a == p.x as int && b == p.y as int) {
                        index_distinct(a, b, p.x as int, p.y as int, self.width as int);
                    }
                }
            }
        }
    }
}

/// The map's opacity, as one predicate over absolute coordinates.
pub open spec fn opacity_of<M: VisionMap>(m: M) -> spec_fn(int, int) -> bool {
    |a: int, b: int| m.opq(a, b)
}

/// The map's bounds, as one predicate over absolute coordinates.
pub open spec fn bounds_of<M: VisionMap>(m: M) -> spec_fn(int, int) -> bool {
    |a: int, b: int| m.inb(a, b)
}

} // verus!
