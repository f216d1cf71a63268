use vstd::prelude::*;

use crate::geom::{clamp_i32, Rect, ScenePoint};
use crate::sprite::{abs_int, anchor_offset, Sprite, SpriteEdit};
use crate::Id;

verus! {

/// What is held while the pointer is down.
#[derive(Clone, Copy, Debug, PartialEq, Eq, Structural)]
pub enum HeldObject {
    /// A resize anchor of a sprite: sprite, and the anchor's side in x and y.
    Anchor(Id, i32, i32),
    /// A selection marquee, from this corner.
    Marquee(ScenePoint),
    Nothing,
    /// The selected sprites, last dragged to this point.
    Selection(ScenePoint),
    /// A sprite, and where it was grabbed relative to its top left corner.
    Sprite(Id, ScenePoint),
}

/// Distance in coordinate steps within which an anchor of a sprite can be grabbed.
pub const ANCHOR_RADIUS: i64 = 200;

/// A hundred times the square of the radius within which an anchor of a
/// sprite at `r` can be grabbed. The radius is the anchor radius, or a
/// fifth of the sprite's smaller side where that is less, so that small
/// sprites can still be grabbed to move; scaled so, no division rounds.
pub open spec fn anchor_limit(r: Rect) -> int {
    let w = abs_int(r.w as int);
    let h = abs_int(r.h as int);
    let m = if w <= h { w } else { h };
    if 4 * m * m <= 100 * ANCHOR_RADIUS * ANCHOR_RADIUS {
        4 * m * m
    } else {
        100 * ANCHOR_RADIUS * ANCHOR_RADIUS
    }
}

/// The side in x and y of the `k`th anchor, counted over x then y from -1 to 1.
pub open spec fn anchor_of(k: int) -> (int, int) {
    (k / 3 - 1, k % 3 - 1)
}

/// A hundred times the square of the distance from `at` to the anchor of
/// `r` on sides (`dx`, `dy`): its corner, or the exact middle of a side.
pub open spec fn anchor_dist2(r: Rect, at: ScenePoint, dx: int, dy: int) -> int {
    let ax = 2 * r.x + (dx + 1) * r.w - 2 * at.x;
    let ay = 2 * r.y + (dy + 1) * r.h - 2 * at.y;
    25 * (ax * ax + ay * ay)
}

/// The anchor chosen from the `k`th on, the best so far at square
/// distance `best`: the nearest within the radius, the later of equals.
pub open spec fn anchor_scan(r: Rect, at: ScenePoint, k: int, best: int, choice: Option<(int, int)>) -> Option<(int, int)>
    decreases 9 - k,
{
    if k >= 9 {
        choice
    } else if k == 4 {
        anchor_scan(r, at, k + 1, best, choice)
    } else {
        let (dx, dy) = anchor_of(k);
        let d = anchor_dist2(r, at, dx, dy);
        if d <= best {
            anchor_scan(r, at, k + 1, d, Some((dx, dy)))
        } else {
            anchor_scan(r, at, k + 1, best, choice)
        }
    }
}

/// The anchor of `r` grabbed at `at`, if any.
pub open spec fn anchor_pick(r: Rect, at: ScenePoint) -> Option<(int, int)> {
    anchor_scan(r, at, 0, anchor_limit(r), None)
}

/// What grabbing `sp` at `at` holds: an anchor near it, else the sprite.
pub open spec fn grab_of(sp: Sprite, at: ScenePoint) -> HeldObject {
    match anchor_pick(sp.rect, at) {
        Some((dx, dy)) => HeldObject::Anchor(sp.local_id, dx as i32, dy as i32),
        None => HeldObject::Sprite(sp.local_id, at.minus(ScenePoint { x: sp.rect.x, y: sp.rect.y })),
    }
}

/// The rectangle after the anchor on sides (`dx`, `dy`) of `r` is dragged
/// to `at`: the sides it is on follow the pointer and the opposite sides stay.
pub open spec fn anchor_resized(r: Rect, at: ScenePoint, dx: int, dy: int) -> Rect {
    let ax = clamp_i32(r.x + anchor_offset(r.w as int, dx));
    let ay = clamp_i32(r.y + anchor_offset(r.h as int, dy));
    let ddx = clamp_i32(at.x - ax);
    let ddy = clamp_i32(at.y - ay);
    Rect {
        x: clamp_i32(r.x + if dx == -1 { ddx } else { 0 }) as i32,
        y: clamp_i32(r.y + if dy == -1 { ddy } else { 0 }) as i32,
        w: clamp_i32(ddx * dx + r.w) as i32,
        h: clamp_i32(ddy * dy + r.h) as i32,
    }
}

/// The edit that dragging the held object to `at` makes to the sprite `sp`
/// it holds: a held sprite moves so that the grab point follows the
/// pointer, a held anchor resizes it.
pub open spec fn held_edit(h: HeldObject, sp: Sprite, at: ScenePoint) -> Option<SpriteEdit> {
    match h {
        HeldObject::Sprite(_, offset) => Some(SpriteEdit::Pos(at.minus(offset))),
        HeldObject::Anchor(_, dx, dy) => if -1 <= dx <= 1 && -1 <= dy <= 1 {
            Some(SpriteEdit::Rect(anchor_resized(sp.rect, at, dx as int, dy as int)))
        } else {
            None
        },
        _ => None,
    }
}

/// The edit a sprite gets when it is let go of: snapped to the grid, or
/// only brought to the smallest size allowed.
pub open spec fn release_edit(snap_to_grid: bool) -> SpriteEdit {
    if snap_to_grid {
        SpriteEdit::Snap
    } else {
        SpriteEdit::MinSize
    }
}

pub(crate) fn anchor_offset_wide(len: i32, d: i64) -> (r: i64)
    requires
        -1 <= d <= 1,
    ensures
        r == anchor_offset(len as int, d as int),
{
    if d < 0 {
        0
    } else if d == 0 {
        if len >= 0 {
            (len / 2) as i64
        } else {
            -((-(len as i64)) / 2)
        }
    } else {
        len as i64
    }
}

impl HeldObject {
    pub open spec fn spec_is_sprite(&self) -> bool {
        self is Sprite || self is Anchor || self is Selection
    }

    /// Whether a sprite, an anchor of one, or the selection is held.
    pub fn is_sprite(&self) -> (r: bool)
        ensures
            r == self.spec_is_sprite(),
    {
        matches!(self, HeldObject::Sprite(..) | HeldObject::Anchor(..) | HeldObject::Selection(..))
    }

    pub fn is_none(&self) -> (r: bool)
        ensures
            r == (*self is Nothing),
    {
        matches!(self, HeldObject::Nothing)
    }

    /// The anchor of `sprite` grabbed at `at`: the nearest within the
    /// anchor radius, if any.
    pub fn grab_sprite_anchor(sprite: &Sprite, at: ScenePoint) -> (r: Option<HeldObject>)
        ensures
            r == match anchor_pick(sprite.rect, at) {
                Some((dx, dy)) => Some(HeldObject::Anchor(sprite.local_id, dx as i32, dy as i32)),
                None => None,
            },
    {
        let rect = sprite.rect;
        let w: i64 = if rect.w < 0 { -(rect.w as i64) } else { rect.w as i64 };
        let h: i64 = if rect.h < 0 { -(rect.h as i64) } else { rect.h as i64 };
        let m = if w <= h { w } else { h };
        assert(0 <= 4 * m * m <= 4 * 0x1_0000_0000 * 0x1_0000_0000) by (nonlinear_arith)
            requires
                0 <= m <= 0x1_0000_0000,
        ;
        let m2: i128 = 4 * m as i128 * m as i128;
        let limit: i128 = 100 * ANCHOR_RADIUS as i128 * ANCHOR_RADIUS as i128;
        let mut best: i128 = if m2 <= limit { m2 } else { limit };
        let mut choice: Option<(i64, i64)> = None;
        let ghost target = anchor_pick(rect, at);
        let mut k: i64 = 0;
        while k < 9
            invariant
                0 <= k <= 9,
                target == anchor_scan(rect, at, k as int, best as int, match choice {
                    Some((a, b)) => Some((a as int, b as int)),
                    None => None,
                }),
                choice matches Some((a, b)) ==> -1 <= a <= 1 && -1 <= b <= 1,
            decreases 9 - k,
        {
            if k != 4 {
                let dx = k / 3 - 1;
                let dy = k % 3 - 1;
                assert(-0x2_0000_0000 <= (dx + 1) * rect.w <= 0x2_0000_0000) by (nonlinear_arith)
                    requires
                        0 <= dx + 1 <= 2,
                        -0x8000_0000 <= rect.w < 0x8000_0000,
                ;
                assert(-0x2_0000_0000 <= (dy + 1) * rect.h <= 0x2_0000_0000) by (nonlinear_arith)
                    requires
                        0 <= dy + 1 <= 2,
                        -0x8000_0000 <= rect.h < 0x8000_0000,
                ;
                let ax = 2 * rect.x as i64 + (dx + 1) * rect.w as i64 - 2 * at.x as i64;
                let ay = 2 * rect.y as i64 + (dy + 1) * rect.h as i64 - 2 * at.y as i64;
                assert(0 <= ax * ax <= 0x100_0000_0000_0000_0000) by (nonlinear_arith)
                    requires
                        -0x10_0000_0000 <= ax <= 0x10_0000_0000,
                ;
                assert(0 <= ay * ay <= 0x100_0000_0000_0000_0000) by (nonlinear_arith)
                    requires
                        -0x10_0000_0000 <= ay <= 0x10_0000_0000,
                ;
                let d = 25 * (ax as i128 * ax as i128 + ay as i128 * ay as i128);
                if d <= best {
                    best = d;
                    choice = Some((dx, dy));
                }
            }
            k += 1;
        }
        match choice {
            Some((dx, dy)) => Some(HeldObject::Anchor(sprite.local_id, dx as i32, dy as i32)),
            None => None,
        }
    }

    /// What grabbing `sprite` at `at` holds: an anchor near it, or the
    /// sprite itself with the offset of `at` from its top left corner.
    pub fn grab_sprite(sprite: &Sprite, at: ScenePoint) -> (r: HeldObject)
        ensures
            r == grab_of(*sprite, at),
    {
        match Self::grab_sprite_anchor(sprite, at) {
            Some(a) => a,
            None => HeldObject::Sprite(sprite.local_id, at.delta(sprite.rect.top_left())),
        }
    }
}

} // verus!
