use vstd::prelude::*;

verus! {

/// Coordinates live on a fixed-point grid (see `PX` in the crate root); this
/// bound keeps every product and sum in the crate far from `i64` overflow.
pub const COORD_MAX: i64 = 10_000_000_000_000;

/// A 2-D point or vector on the fixed-point grid.
#[derive(Clone, Copy, PartialEq, Eq, Structural, Debug)]
pub struct Vec2i {
    pub x: i64,
    pub y: i64,
}

/// An axis-aligned rectangle: origin at its top-left corner, extending right
/// and down (screen coordinates).
#[derive(Clone, Copy, PartialEq, Eq, Structural, Debug)]
pub struct Rect {
    pub x: i64,
    pub y: i64,
    pub w: i64,
    pub h: i64,
}

/// A circle, kept as its centre and radius.
#[derive(Clone, Copy, PartialEq, Eq, Structural, Debug)]
pub struct Circle {
    pub x: i64,
    pub y: i64,
    pub r: i64,
}

pub open spec fn rect_wf(r: Rect) -> bool {
    &&& -COORD_MAX <= r.x <= COORD_MAX
    &&& -COORD_MAX <= r.y <= COORD_MAX
    &&& 0 <= r.w <= COORD_MAX
    &&& 0 <= r.h <= COORD_MAX
}

pub open spec fn imax(a: int, b: int) -> int {
    if a >= b {
        a
    } else {
        b
    }
}

pub open spec fn imin(a: int, b: int) -> int {
    if a <= b {
        a
    } else {
        b
    }
}

/// Per-axis sign, the tie-break primitive of the collision resolver.
pub open spec fn sgn(a: int) -> int {
    if a > 0 {
        1int
    } else if a < 0 {
        -1int
    } else {
        0int
    }
}

/// Two rectangles overlap only where the shared region has strictly positive
/// width and height on both axes; mere edge contact does not count.
pub open spec fn rects_overlap(a: Rect, b: Rect) -> bool {
    &&& imin(a.x + a.w, b.x + b.w) > imax(a.x as int, b.x as int)
    &&& imin(a.y + a.h, b.y + b.h) > imax(a.y as int, b.y as int)
}

/// The shared region of two overlapping rectangles.
pub open spec fn overlap_rect(a: Rect, b: Rect) -> Rect {
    let left = imax(a.x as int, b.x as int);
    let top = imax(a.y as int, b.y as int);
    let right = imin(a.x + a.w, b.x + b.w);
    let bottom = imin(a.y + a.h, b.y + b.h);
    Rect { x: left as i64, y: top as i64, w: (right - left) as i64, h: (bottom - top) as i64 }
}

/// Overlap test and shared region of two axis-aligned rectangles.
pub fn rect_intersection(a: &Rect, b: &Rect) -> (res: Option<Rect>)
    requires
        rect_wf(*a),
        rect_wf(*b),
    ensures
        res == if rects_overlap(*a, *b) {
            Some(overlap_rect(*a, *b))
        } else {
            None::<Rect>
        },
{
    let left: i64 = if a.x >= b.x {
        a.x
    } else {
        b.x
    };
    let top: i64 = if a.y >= b.y {
        a.y
    } else {
        b.y
    };
    let ar: i64 = a.x + a.w;
    let br: i64 = b.x + b.w;
    let right: i64 = if ar <= br {
        ar
    } else {
        br
    };
    let ab: i64 = a.y + a.h;
    let bb: i64 = b.y + b.h;
    let bottom: i64 = if ab <= bb {
        ab
    } else {
        bb
    };
    if right > left && bottom > top {
        Some(Rect { x: left, y: top, w: right - left, h: bottom - top })
    } else {
        None
    }
}

} // verus!
