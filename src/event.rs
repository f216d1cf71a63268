use vstd::prelude::*;

use crate::geom::Rect;
use crate::sprite::Sprite;
use crate::Id;

verus! {

/// A mutation of a scene, carrying what is needed to invert it. Layers and
/// sprites are named by canonical id, except in `LayerNew`, which carries
/// the creator's local id.
#[derive(Debug)]
pub enum SceneEvent {
    /// No change; marks the start of a group in a history.
    Dummy,
    /// Several events applied as one.
    EventSet(Vec<SceneEvent>),
    /// Layer, locked flag before, locked flag after.
    LayerLockedChange(Id, bool, bool),
    /// Layer, its z when the move was made, upwards or not.
    LayerMove(Id, i32, bool),
    /// Creator's local id, title, z.
    LayerNew(Id, String, i32),
    LayerRemove(Id),
    /// Layer, title before, title after.
    LayerRename(Id, String, String),
    /// Layer, visibility before, visibility after.
    LayerVisibilityChange(Id, bool, bool),
    /// The sprite as created, the canonical id of its layer.
    SpriteNew(Sprite, Id),
    /// The sprite as removed, the canonical id of its layer.
    SpriteRemove(Sprite, Id),
    /// Sprite, rectangle before, rectangle after.
    SpriteMove(Id, Rect, Rect),
    /// A move of a sprite that has no canonical id yet, by its local id:
    /// rectangle before, rectangle after. It is kept in its maker's history
    /// so that it can be undone, and never sent; applied elsewhere it
    /// changes nothing.
    LocalSpriteMove(Id, Rect, Rect),
    /// Sprite, texture before, texture after.
    SpriteTextureChange(Id, Id, Id),
}

/// The answer of a scene to an applied event.
#[derive(Clone, Copy, Debug, PartialEq, Eq, Structural)]
pub enum SceneEventAck {
    Approval,
    Rejection,
    /// The requester's local id of a new layer, and its canonical id.
    LayerNew(Id, Option<Id>),
    /// The requester's local id of a new sprite, and its canonical id.
    SpriteNew(Id, Option<Id>),
}

impl SceneEventAck {
    pub fn from_bool(approved: bool) -> (r: SceneEventAck)
        ensures
            r == if approved { SceneEventAck::Approval } else { SceneEventAck::Rejection },
    {
        if approved {
            SceneEventAck::Approval
        } else {
            SceneEventAck::Rejection
        }
    }

    pub fn is_rejection(&self) -> (r: bool)
        ensures
            r == (*self is Rejection),
    {
        matches!(self, SceneEventAck::Rejection)
    }
}

/// `a` is a copy of `b`: equal, or for a set, a set of as many members
/// in which each member that is not a set is equal.
pub open spec fn copy_of(a: SceneEvent, b: SceneEvent) -> bool {
    &&& !(b is EventSet) ==> a == b
    &&& b is EventSet ==> a is EventSet && a->EventSet_0@.len() == b->EventSet_0@.len() && forall|i: int|
        0 <= i < b->EventSet_0@.len() && !(b->EventSet_0@[i] is EventSet) ==> #[trigger] a->EventSet_0@[i]
            == b->EventSet_0@[i]
}

impl SceneEvent {
    /// The event changes a layer itself rather than a sprite.
    pub open spec fn spec_is_layer(&self) -> bool {
        ||| self.flat_is_layer()
        ||| (*self is EventSet && exists|i: int|
            0 <= i < self->EventSet_0@.len() && (#[trigger] self->EventSet_0@[i]).flat_is_layer())
    }

    /// `spec_is_layer`, not looking into nested sets.
    pub open spec fn flat_is_layer(&self) -> bool {
        match self {
            SceneEvent::LayerLockedChange(..) | SceneEvent::LayerMove(..) | SceneEvent::LayerNew(
                ..,
            ) | SceneEvent::LayerRemove(..) | SceneEvent::LayerRename(..)
            | SceneEvent::LayerVisibilityChange(..) => true,
            _ => false,
        }
    }

    fn flat_layer(&self) -> (r: bool)
        ensures
            r == self.flat_is_layer(),
    {
        match self {
            SceneEvent::LayerLockedChange(..) | SceneEvent::LayerMove(..) | SceneEvent::LayerNew(
                ..,
            ) | SceneEvent::LayerRemove(..) | SceneEvent::LayerRename(..)
            | SceneEvent::LayerVisibilityChange(..) => true,
            _ => false,
        }
    }

    /// Whether the event changes a layer, so that a list of layers must be redrawn.
    pub fn is_layer(&self) -> (r: bool)
        ensures
            r == self.spec_is_layer(),
    {
        match self {
            SceneEvent::EventSet(v) => {
                let mut i: usize = 0;
                while i < v.len()
                    invariant
                        0 <= i <= v@.len(),
                        *self == SceneEvent::EventSet(*v),
                        forall|j: int| 0 <= j < i ==> !(#[trigger] v@[j]).flat_is_layer(),
                    decreases v@.len() - i,
                {
                    if v[i].flat_layer() {
                        assert(self->EventSet_0@[i as int].flat_is_layer());
                        return true;
                    }
                    i += 1;
                }
                false
            },
            _ => self.flat_layer(),
        }
    }

    /// The canonical id of the sprite the event is about, if it is about one.
    pub open spec fn spec_item(&self) -> Option<Id> {
        match self {
            SceneEvent::SpriteMove(id, _, _) => Some(*id),
            SceneEvent::SpriteTextureChange(id, _, _) => Some(*id),
            SceneEvent::SpriteNew(s, _) => s.canonical_id,
            SceneEvent::SpriteRemove(s, _) => s.canonical_id,
            _ => None,
        }
    }

    pub fn item(&self) -> (r: Option<Id>)
        ensures
            r == self.spec_item(),
    {
        match self {
            SceneEvent::SpriteMove(id, _, _) => Some(*id),
            SceneEvent::SpriteTextureChange(id, _, _) => Some(*id),
            SceneEvent::SpriteNew(s, _) => s.canonical_id,
            SceneEvent::SpriteRemove(s, _) => s.canonical_id,
            _ => None,
        }
    }

    /// A copy of the event. A set's members that are not sets themselves
    /// are copied exactly.
    pub fn duplicate(&self) -> (r: SceneEvent)
        ensures
            copy_of(r, *self),
        decreases self,
    {
        match self {
            SceneEvent::EventSet(v) => {
                let mut w: Vec<SceneEvent> = Vec::new();
                let mut i: usize = 0;
                while i < v.len()
                    invariant
                        0 <= i <= v@.len(),
                        *self == SceneEvent::EventSet(*v),
                        w@.len() == i,
                        forall|j: int| 0 <= j < i && !(v@[j] is EventSet) ==> #[trigger] w@[j] == v@[j],
                    decreases v@.len() - i,
                {
                    proof {
                        vstd::std_specs::vec::axiom_vec_index_decreases(*v, i as int);
                        assert(self->EventSet_0 == *v);
                        assert(decreases_to!(*self => self->EventSet_0));
                        assert(decreases_to!(*self => v[i as int]));
                    }
                    let d = v[i].duplicate();
                    w.push(d);
                    i += 1;
                }
                SceneEvent::EventSet(w)
            },
            SceneEvent::Dummy => SceneEvent::Dummy,
            SceneEvent::LayerLockedChange(c, a, b) => SceneEvent::LayerLockedChange(*c, *a, *b),
            SceneEvent::LayerMove(c, z, up) => SceneEvent::LayerMove(*c, *z, *up),
            SceneEvent::LayerNew(id, t, z) => SceneEvent::LayerNew(*id, t.clone(), *z),
            SceneEvent::LayerRemove(c) => SceneEvent::LayerRemove(*c),
            SceneEvent::LayerRename(c, a, b) => SceneEvent::LayerRename(*c, a.clone(), b.clone()),
            SceneEvent::LayerVisibilityChange(c, a, b) => SceneEvent::LayerVisibilityChange(*c, *a, *b),
            SceneEvent::SpriteNew(s, l) => SceneEvent::SpriteNew(*s, *l),
            SceneEvent::SpriteRemove(s, l) => SceneEvent::SpriteRemove(*s, *l),
            SceneEvent::SpriteMove(c, a, b) => SceneEvent::SpriteMove(*c, *a, *b),
            SceneEvent::LocalSpriteMove(c, a, b) => SceneEvent::LocalSpriteMove(*c, *a, *b),
            SceneEvent::SpriteTextureChange(c, a, b) => SceneEvent::SpriteTextureChange(*c, *a, *b),
        }
    }
}

} // verus!
