use vstd::prelude::*;

use crate::event::SceneEvent;
use crate::geom::{clamp_coord, clamp_i32, Rect, ScenePoint, UNIT};
use crate::Id;

verus! {

/// Smallest width or height a sprite is left with when it is released.
pub const MIN_SIZE: i32 = 100;

/// Outline in which a sprite's visual is drawn.
#[derive(Clone, Copy, Debug, PartialEq, Eq, Structural)]
pub enum SpriteShape {
    Ellipse,
    Hexagon,
    Rectangle,
    Triangle,
}

/// One of the four values of a sprite's rectangle.
#[derive(Clone, Copy, Debug, PartialEq, Eq, Structural)]
pub enum Dimension {
    X,
    Y,
    W,
    H,
}

/// A positioned visual of the scene, with its local and canonical identity.
#[derive(Clone, Copy, Debug, PartialEq, Eq, Structural)]
pub struct Sprite {
    pub local_id: Id,
    pub canonical_id: Option<Id>,
    /// The local id its creator gave it. Unwinding the creation of a sprite
    /// that had no canonical id removes the sprite made last under it.
    pub origin: Id,
    pub rect: Rect,
    pub z: i32,
    pub texture: Id,
    pub shape: SpriteShape,
}

/// The event that records moving a sprite from its rectangle to `to`: by
/// canonical id, or by local id while the sprite has none, as no other
/// process knows it yet.
pub open spec fn move_event(s: Sprite, to: Rect) -> Option<SceneEvent> {
    match s.canonical_id {
        Some(c) => Some(SceneEvent::SpriteMove(c, s.rect, to)),
        None => Some(SceneEvent::LocalSpriteMove(s.local_id, s.rect, to)),
    }
}

/// `v` rounded to the nearest multiple of a tile, halves rounding up.
pub open spec fn snap(v: int) -> int {
    ((v + UNIT / 2) / (UNIT as int)) * UNIT
}

pub open spec fn abs_int(v: int) -> int {
    if v < 0 {
        -v
    } else {
        v
    }
}

/// The rectangle turned so that its width and height are not negative.
pub open spec fn normalized(r: Rect) -> Rect {
    Rect {
        x: clamp_i32(r.left()) as i32,
        y: clamp_i32(r.top()) as i32,
        w: clamp_i32(abs_int(r.w as int)) as i32,
        h: clamp_i32(abs_int(r.h as int)) as i32,
    }
}

/// The rectangle aligned to whole tiles, at least one tile in each direction.
pub open spec fn snapped(r: Rect) -> Rect {
    let n = normalized(r);
    Rect {
        x: clamp_i32(snap(n.x as int)) as i32,
        y: clamp_i32(snap(n.y as int)) as i32,
        w: clamp_i32(if snap(n.w as int) < UNIT { UNIT as int } else { snap(n.w as int) }) as i32,
        h: clamp_i32(if snap(n.h as int) < UNIT { UNIT as int } else { snap(n.h as int) }) as i32,
    }
}

/// The rectangle normalised, and grown to at least `MIN_SIZE` in each direction.
pub open spec fn min_sized(r: Rect) -> Rect {
    let n = normalized(r);
    Rect {
        x: n.x,
        y: n.y,
        w: if n.w < MIN_SIZE { MIN_SIZE } else { n.w },
        h: if n.h < MIN_SIZE { MIN_SIZE } else { n.h },
    }
}

/// Offset from the left (top) edge of the anchor at `d` in -1, 0, 1, for a
/// side of length `len`: the near edge, the middle or the far edge.
pub open spec fn anchor_offset(len: int, d: int) -> int {
    if d < 0 {
        0
    } else if d == 0 {
        if len >= 0 {
            len / 2
        } else {
            -((-len) / 2)
        }
    } else {
        len
    }
}

/// The rectangle with one dimension replaced by `v`.
pub open spec fn with_dimension(r: Rect, d: Dimension, v: i32) -> Rect {
    match d {
        Dimension::X => Rect { x: v, ..r },
        Dimension::Y => Rect { y: v, ..r },
        Dimension::W => Rect { w: v, ..r },
        Dimension::H => Rect { h: v, ..r },
    }
}

fn snap_coord(v: i32) -> (r: i32)
    ensures
        r == clamp_i32(snap(v as int)),
{
    let a: i64 = v as i64 + 500 + 3_000_000_000;
    let q: i64 = a / 1000;
    proof {
        let b = v as int + 500;
        let x = a as int / 1000;
        let m = a as int % 1000;
        vstd::arithmetic::div_mod::lemma_fundamental_div_mod(a as int, 1000);
        vstd::arithmetic::div_mod::lemma_mod_pos_bound(a as int, 1000);
        vstd::arithmetic::div_mod::lemma_div_multiples_vanish_fancy(x - 3_000_000, m, 1000);
        assert(1000 * (x - 3_000_000) + m == b) by (nonlinear_arith)
            requires
                a == 1000 * x + m,
                a == b + 3_000_000_000,
        ;
    }
    let s: i64 = (q - 3_000_000) * 1000;
    clamp_coord(s)
}

/// A change of a sprite that a user makes.
#[derive(Clone, Copy, Debug, PartialEq, Eq, Structural)]
pub enum SpriteEdit {
    /// Move to this rectangle.
    Rect(Rect),
    /// Move the top left corner here.
    Pos(ScenePoint),
    /// Translate by this much.
    By(ScenePoint),
    /// Set one value of the rectangle.
    Dimension(Dimension, i32),
    /// Align to whole tiles.
    Snap,
    /// Normalise and grow to the smallest size allowed.
    MinSize,
    /// Show this texture.
    Texture(Id),
}

/// The rectangle a sprite at `r` gets from an edit that moves it.
pub open spec fn edited_rect(r: Rect, e: SpriteEdit) -> Rect {
    match e {
        SpriteEdit::Rect(to) => to,
        SpriteEdit::Pos(at) => Rect { x: at.x, y: at.y, ..r },
        SpriteEdit::By(d) => {
            let p = ScenePoint { x: r.x, y: r.y }.plus(d);
            Rect { x: p.x, y: p.y, ..r }
        },
        SpriteEdit::Dimension(d, v) => with_dimension(r, d, v),
        SpriteEdit::Snap => snapped(r),
        SpriteEdit::MinSize => min_sized(r),
        SpriteEdit::Texture(_) => r,
    }
}

/// The sprite after an edit.
pub open spec fn edited(s: Sprite, e: SpriteEdit) -> Sprite {
    match e {
        SpriteEdit::Texture(t) => Sprite { texture: t, ..s },
        _ => Sprite { rect: edited_rect(s.rect, e), ..s },
    }
}

/// The event that records an edit of `s`.
pub open spec fn edit_event(s: Sprite, e: SpriteEdit) -> Option<SceneEvent> {
    match e {
        SpriteEdit::Texture(t) => match s.canonical_id {
            Some(c) => Some(SceneEvent::SpriteTextureChange(c, s.texture, t)),
            None => None,
        },
        SpriteEdit::MinSize => if min_sized(s.rect) == s.rect {
            None
        } else {
            move_event(s, min_sized(s.rect))
        },
        _ => move_event(s, edited_rect(s.rect, e)),
    }
}

impl Sprite {
    pub open spec fn new_spec(local_id: Id, texture: Id) -> Sprite {
        Sprite {
            local_id,
            canonical_id: None,
            origin: local_id,
            rect: Rect { x: 0, y: 0, w: UNIT, h: UNIT },
            z: 1,
            texture,
            shape: SpriteShape::Rectangle,
        }
    }

    /// A one-tile sprite at the origin showing `texture`.
    pub fn new(local_id: Id, texture: Id) -> (r: Sprite)
        ensures
            r == Sprite::new_spec(local_id, texture),
    {
        Sprite {
            local_id,
            canonical_id: None,
            origin: local_id,
            rect: Rect { x: 0, y: 0, w: UNIT, h: UNIT },
            z: 1,
            texture,
            shape: SpriteShape::Rectangle,
        }
    }

    /// A copy of a sprite received from elsewhere, under a local id of this process.
    pub fn from_remote(other: &Sprite, local_id: Id) -> (r: Sprite)
        ensures
            r == (Sprite { local_id, ..*other }),
    {
        Sprite { local_id, ..*other }
    }

    /// Moves the sprite to `rect`, returning the event that records it.
    pub fn set_rect(&mut self, rect: Rect) -> (e: Option<SceneEvent>)
        ensures
            *final(self) == (Sprite { rect, ..*old(self) }),
            e == move_event(*old(self), rect),
    {
        let from = self.rect;
        self.rect = rect;
        match self.canonical_id {
            Some(c) => Some(SceneEvent::SpriteMove(c, from, rect)),
            None => Some(SceneEvent::LocalSpriteMove(self.local_id, from, rect)),
        }
    }

    /// Moves the sprite's top left corner to `at`, keeping its size.
    pub fn set_pos(&mut self, at: ScenePoint) -> (e: Option<SceneEvent>)
        ensures
            *final(self) == (Sprite { rect: Rect { x: at.x, y: at.y, ..old(self).rect }, ..*old(self) }),
            e == move_event(*old(self), Rect { x: at.x, y: at.y, ..old(self).rect }),
    {
        let r = Rect { x: at.x, y: at.y, ..self.rect };
        self.set_rect(r)
    }

    /// Translates the sprite by `delta`.
    pub fn move_by(&mut self, delta: ScenePoint) -> (e: Option<SceneEvent>)
        ensures
            ({
                let p = ScenePoint { x: old(self).rect.x, y: old(self).rect.y }.plus(delta);
                let r = Rect { x: p.x, y: p.y, ..old(self).rect };
                *final(self) == (Sprite { rect: r, ..*old(self) }) && e == move_event(*old(self), r)
            }),
    {
        let p = self.rect.top_left().offset(delta);
        self.set_pos(p)
    }

    /// Sets one value of the sprite's rectangle.
    pub fn set_dimension(&mut self, dimension: Dimension, value: i32) -> (e: Option<SceneEvent>)
        ensures
            *final(self) == (Sprite { rect: with_dimension(old(self).rect, dimension, value), ..*old(self) }),
            e == move_event(*old(self), with_dimension(old(self).rect, dimension, value)),
    {
        let r = match dimension {
            Dimension::X => Rect { x: value, ..self.rect },
            Dimension::Y => Rect { y: value, ..self.rect },
            Dimension::W => Rect { w: value, ..self.rect },
            Dimension::H => Rect { h: value, ..self.rect },
        };
        self.set_rect(r)
    }

    /// The sprite's rectangle with its width and height made non-negative.
    pub fn normalized_rect(&self) -> (r: Rect)
        ensures
            r == normalized(self.rect),
    {
        let (l, _, t, _) = self.rect.edges();
        let w: i64 = if self.rect.w < 0 { -(self.rect.w as i64) } else { self.rect.w as i64 };
        let h: i64 = if self.rect.h < 0 { -(self.rect.h as i64) } else { self.rect.h as i64 };
        Rect { x: clamp_coord(l), y: clamp_coord(t), w: clamp_coord(w), h: clamp_coord(h) }
    }

    /// Aligns the sprite to whole tiles.
    pub fn snap_to_grid(&mut self) -> (e: Option<SceneEvent>)
        ensures
            *final(self) == (Sprite { rect: snapped(old(self).rect), ..*old(self) }),
            e == move_event(*old(self), snapped(old(self).rect)),
    {
        let n = self.normalized_rect();
        let w = snap_coord(n.w);
        let h = snap_coord(n.h);
        let r = Rect {
            x: snap_coord(n.x),
            y: snap_coord(n.y),
            w: if w < UNIT { UNIT } else { w },
            h: if h < UNIT { UNIT } else { h },
        };
        self.set_rect(r)
    }

    /// Normalises the sprite's rectangle and grows it to the smallest size
    /// allowed; returns an event only where that changed the rectangle.
    pub fn enforce_min_size(&mut self) -> (e: Option<SceneEvent>)
        ensures
            *final(self) == (Sprite { rect: min_sized(old(self).rect), ..*old(self) }),
            e == if min_sized(old(self).rect) == old(self).rect {
                None
            } else {
                move_event(*old(self), min_sized(old(self).rect))
            },
    {
        let n = self.normalized_rect();
        let r = Rect {
            w: if n.w < MIN_SIZE { MIN_SIZE } else { n.w },
            h: if n.h < MIN_SIZE { MIN_SIZE } else { n.h },
            ..n
        };
        if r == self.rect {
            None
        } else {
            self.set_rect(r)
        }
    }

    /// Shows `texture` on the sprite, returning the event that records it.
    pub fn set_texture(&mut self, texture: Id) -> (e: Option<SceneEvent>)
        ensures
            *final(self) == (Sprite { texture, ..*old(self) }),
            e == match old(self).canonical_id {
                Some(c) => Some(SceneEvent::SpriteTextureChange(c, old(self).texture, texture)),
                None => None,
            },
    {
        let old_texture = self.texture;
        self.texture = texture;
        match self.canonical_id {
            Some(c) => Some(SceneEvent::SpriteTextureChange(c, old_texture, texture)),
            None => None,
        }
    }

    /// The anchor at (`dx`, `dy`), each in -1, 0, 1: a corner, the middle of
    /// an edge or the centre.
    pub fn anchor_point(&self, dx: i32, dy: i32) -> (p: ScenePoint)
        requires
            -1 <= dx <= 1,
            -1 <= dy <= 1,
        ensures
            p.x == clamp_i32(self.rect.x + anchor_offset(self.rect.w as int, dx as int)),
            p.y == clamp_i32(self.rect.y + anchor_offset(self.rect.h as int, dy as int)),
    {
        let ox = anchor_offset_exec(self.rect.w, dx);
        let oy = anchor_offset_exec(self.rect.h, dy);
        ScenePoint {
            x: clamp_coord(self.rect.x as i64 + ox),
            y: clamp_coord(self.rect.y as i64 + oy),
        }
    }

    /// Applies an edit, returning the event that records it.
    pub fn edit(&mut self, edit: SpriteEdit) -> (e: Option<SceneEvent>)
        ensures
            *final(self) == edited(*old(self), edit),
            e == edit_event(*old(self), edit),
    {
        match edit {
            SpriteEdit::Rect(r) => self.set_rect(r),
            SpriteEdit::Pos(at) => self.set_pos(at),
            SpriteEdit::By(d) => self.move_by(d),
            SpriteEdit::Dimension(d, v) => self.set_dimension(d, v),
            SpriteEdit::Snap => self.snap_to_grid(),
            SpriteEdit::MinSize => self.enforce_min_size(),
            SpriteEdit::Texture(t) => self.set_texture(t),
        }
    }
}

fn anchor_offset_exec(len: i32, d: i32) -> (r: i64)
    ensures
        r == anchor_offset(len as int, d as int),
{
    if d < 0 {
        0
    } else if d == 0 {
        if len >= 0 {
            (len / 2) as i64
        } else {
            -((-(len as i64)) / 2)
        }
    } else {
        len as i64
    }
}

} // verus!
