use vstd::prelude::*;

verus! {

/// Number of coordinate steps in one scene tile: positions and sizes are
/// fixed-point values with this many steps per tile.
pub const UNIT: i32 = 1000;

/// `v` brought into the range of `i32`.
pub open spec fn clamp_i32(v: int) -> int {
    if v < i32::MIN {
        i32::MIN as int
    } else if v > i32::MAX {
        i32::MAX as int
    } else {
        v
    }
}

pub open spec fn min_int(a: int, b: int) -> int {
    if a <= b {
        a
    } else {
        b
    }
}

pub open spec fn max_int(a: int, b: int) -> int {
    if a >= b {
        a
    } else {
        b
    }
}

/// Saturating conversion of a wide coordinate into the coordinate range.
pub fn clamp_coord(v: i64) -> (r: i32)
    ensures
        r == clamp_i32(v as int),
{
    if v < i32::MIN as i64 {
        i32::MIN
    } else if v > i32::MAX as i64 {
        i32::MAX
    } else {
        v as i32
    }
}

/// A point of the scene, in coordinate steps.
#[derive(Clone, Copy, Debug, PartialEq, Eq, Structural)]
pub struct ScenePoint {
    pub x: i32,
    pub y: i32,
}

/// An axis-aligned rectangle of the scene. Its width and height may be
/// negative while a sprite is being resized past its opposite edge.
#[derive(Clone, Copy, Debug, PartialEq, Eq, Structural)]
pub struct Rect {
    pub x: i32,
    pub y: i32,
    pub w: i32,
    pub h: i32,
}

impl ScenePoint {
    pub open spec fn plus(self, o: ScenePoint) -> ScenePoint {
        ScenePoint { x: clamp_i32(self.x + o.x) as i32, y: clamp_i32(self.y + o.y) as i32 }
    }

    pub open spec fn minus(self, o: ScenePoint) -> ScenePoint {
        ScenePoint { x: clamp_i32(self.x - o.x) as i32, y: clamp_i32(self.y - o.y) as i32 }
    }

    pub open spec fn spanned(self, o: ScenePoint) -> Rect {
        Rect {
            x: self.x,
            y: self.y,
            w: clamp_i32(o.x - self.x) as i32,
            h: clamp_i32(o.y - self.y) as i32,
        }
    }

    pub fn new(x: i32, y: i32) -> (r: ScenePoint)
        ensures
            r == (ScenePoint { x, y }),
    {
        ScenePoint { x, y }
    }

    /// Componentwise sum, saturating at the ends of the coordinate range.
    pub fn offset(self, o: ScenePoint) -> (r: ScenePoint)
        ensures
            r == self.plus(o),
    {
        ScenePoint {
            x: clamp_coord(self.x as i64 + o.x as i64),
            y: clamp_coord(self.y as i64 + o.y as i64),
        }
    }

    /// Componentwise difference, saturating at the ends of the coordinate range.
    pub fn delta(self, o: ScenePoint) -> (r: ScenePoint)
        ensures
            r == self.minus(o),
    {
        ScenePoint {
            x: clamp_coord(self.x as i64 - o.x as i64),
            y: clamp_coord(self.y as i64 - o.y as i64),
        }
    }

    /// The rectangle with one corner at this point and the opposite one at `o`.
    pub fn rect(&self, o: ScenePoint) -> (r: Rect)
        ensures
            r == self.spanned(o),
    {
        Rect {
            x: self.x,
            y: self.y,
            w: clamp_coord(o.x as i64 - self.x as i64),
            h: clamp_coord(o.y as i64 - self.y as i64),
        }
    }
}

impl Rect {
    pub open spec fn left(self) -> int {
        min_int(self.x as int, self.x + self.w)
    }

    pub open spec fn right(self) -> int {
        max_int(self.x as int, self.x + self.w)
    }

    pub open spec fn top(self) -> int {
        min_int(self.y as int, self.y + self.h)
    }

    pub open spec fn bottom(self) -> int {
        max_int(self.y as int, self.y + self.h)
    }

    /// The point lies in the rectangle, edges included.
    pub open spec fn holds(self, p: ScenePoint) -> bool {
        self.left() <= p.x <= self.right() && self.top() <= p.y <= self.bottom()
    }

    /// `o` lies wholly in this rectangle.
    pub open spec fn encloses(self, o: Rect) -> bool {
        self.left() <= o.left() && o.right() <= self.right() && self.top() <= o.top()
            && o.bottom() <= self.bottom()
    }

    /// Left, right, top and bottom edges, widened so that they cannot overflow.
    pub fn edges(&self) -> (r: (i64, i64, i64, i64))
        ensures
            r.0 == self.left(),
            r.1 == self.right(),
            r.2 == self.top(),
            r.3 == self.bottom(),
    {
        let x2 = self.x as i64 + self.w as i64;
        let y2 = self.y as i64 + self.h as i64;
        let (l, rt) = if self.w >= 0 { (self.x as i64, x2) } else { (x2, self.x as i64) };
        let (t, b) = if self.h >= 0 { (self.y as i64, y2) } else { (y2, self.y as i64) };
        (l, rt, t, b)
    }

    pub fn contains_point(&self, p: ScenePoint) -> (r: bool)
        ensures
            r == self.holds(p),
    {
        let (l, rt, t, b) = self.edges();
        l <= p.x as i64 && p.x as i64 <= rt && t <= p.y as i64 && p.y as i64 <= b
    }

    pub fn contains_rect(&self, o: &Rect) -> (r: bool)
        ensures
            r == self.encloses(*o),
    {
        let (l, rt, t, b) = self.edges();
        let (ol, ort, ot, ob) = o.edges();
        l <= ol && ort <= rt && t <= ot && ob <= b
    }

    pub fn top_left(&self) -> (r: ScenePoint)
        ensures
            r == (ScenePoint { x: self.x, y: self.y }),
    {
        ScenePoint { x: self.x, y: self.y }
    }
}

} // verus!
