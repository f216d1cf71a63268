use vstd::prelude::*;

use crate::event::{SceneEvent, SceneEventAck};
use crate::layer::{layer_with, lemma_layer_with_ok, Layer, LayerView};
use crate::scene::{
    lemma_ok_grow, lemma_stack_add_ok, lemma_update_ok,
    find_layer, find_sprite_canon, find_sprite_local, layer_canon, set_layer, set_sprite,
    stack_add, stack_insert, stack_move, stack_remove, Scene, SceneView,
};
use crate::search::{
    as_int, first_index, is_first, last_index, lemma_first_index_is, lemma_first_index_none,
};
use crate::sprite::Sprite;
use crate::Id;

verus! {

/// The greatest local id among the layers of `s` that a creation under `id`
/// made, or -1: the layer made last, as local ids only grow.
pub open spec fn latest_layer(s: Seq<LayerView>, id: Id) -> int
    decreases s.len(),
{
    if s.len() == 0 {
        -1
    } else {
        let m = latest_layer(s.drop_last(), id);
        if s.last().origin == id && s.last().local_id > m {
            s.last().local_id as int
        } else {
            m
        }
    }
}

/// The layer made last by a creation under `id`, its local id being `m`.
pub open spec fn layer_origin(id: Id, m: int) -> spec_fn(LayerView) -> bool {
    |l: LayerView| l.origin == id && l.local_id == m
}

/// The greatest local id among the sprites of `s` created with origin
/// `origin`, or -1.
pub open spec fn latest_sprite(s: Seq<Sprite>, origin: Id) -> int
    decreases s.len(),
{
    if s.len() == 0 {
        -1
    } else {
        let m = latest_sprite(s.drop_last(), origin);
        if s.last().origin == origin && s.last().local_id > m {
            s.last().local_id as int
        } else {
            m
        }
    }
}

/// The sprite that creating `sp` made: the one with its canonical id or,
/// where it had none, the one with its origin made last, its local id
/// being `m`.
pub open spec fn sprite_created(sp: Sprite, m: int) -> spec_fn(Sprite) -> bool {
    |t: Sprite| match sp.canonical_id {
        Some(c) => t.canonical_id == Some(c),
        None => t.origin == sp.origin && t.local_id == m,
    }
}

/// A layer as a creation event makes it.
pub open spec fn created_layer(local_id: Id, canonical_id: Id, origin: Id, title: Seq<char>, z: i32) -> LayerView {
    LayerView {
        local_id,
        canonical_id: Some(canonical_id),
        origin,
        title,
        z,
        visible: true,
        locked: false,
        sprites: Seq::empty(),
        z_min: 0,
        z_max: 0,
    }
}

/// The scene after one event that is not a set, and the answer to it. A
/// rejected event leaves the scene as it was.
pub open spec fn apply_one(s: SceneView, e: SceneEvent) -> (SceneView, SceneEventAck) {
    match e {
        SceneEvent::Dummy => (s, SceneEventAck::Approval),
        SceneEvent::EventSet(_) => (s, SceneEventAck::Rejection),
        SceneEvent::LayerLockedChange(c, _, v) => match first_index(s.layers, layer_canon(c)) {
            Some(i) => (set_layer(s, i, LayerView { locked: v, ..s.layers[i] }), SceneEventAck::Approval),
            None => (s, SceneEventAck::Approval),
        },
        SceneEvent::LayerVisibilityChange(c, _, v) => match first_index(s.layers, layer_canon(c)) {
            Some(i) => (set_layer(s, i, LayerView { visible: v, ..s.layers[i] }), SceneEventAck::Approval),
            None => (s, SceneEventAck::Approval),
        },
        SceneEvent::LayerMove(c, z0, up) => match first_index(s.layers, layer_canon(c)) {
            Some(i) => if s.layers[i].z != z0 {
                (s, SceneEventAck::Rejection)
            } else {
                match stack_move(s.layers, i, up) {
                    Some(t) => (SceneView { layers: t, ..s }, SceneEventAck::Approval),
                    None => (s, SceneEventAck::Rejection),
                }
            },
            None => (s, SceneEventAck::Rejection),
        },
        SceneEvent::LayerNew(id, title, z) => if s.next_id == Id::MAX || s.layers.len() + 1
            >= i32::MAX || (!s.canon && first_index(s.layers, layer_canon(id)) is Some) {
            (s, SceneEventAck::Rejection)
        } else {
            let c = if s.canon { s.next_id } else { id };
            (
                SceneView {
                    layers: stack_add(s.layers, created_layer(s.next_id, c, id, title@, z)),
                    next_id: (s.next_id + 1) as Id,
                    ..s
                },
                SceneEventAck::LayerNew(id, Some(c)),
            )
        },
        SceneEvent::LayerRemove(c) => match first_index(s.layers, layer_canon(c)) {
            Some(i) => (
                SceneView {
                    layers: stack_remove(s.layers, i),
                    removed_layers: s.removed_layers.push(s.layers[i]),
                    ..s
                },
                SceneEventAck::Approval,
            ),
            None => (s, SceneEventAck::Rejection),
        },
        SceneEvent::LayerRename(c, from, to) => match first_index(s.layers, layer_canon(c)) {
            Some(i) => if s.layers[i].title == from@ {
                (set_layer(s, i, LayerView { title: to@, ..s.layers[i] }), SceneEventAck::Approval)
            } else {
                (s, SceneEventAck::Rejection)
            },
            None => (s, SceneEventAck::Rejection),
        },
        SceneEvent::SpriteNew(sp, lc) => match first_index(s.layers, layer_canon(lc)) {
            Some(i) => if s.next_id == Id::MAX {
                (s, SceneEventAck::Rejection)
            } else {
                match sp.canonical_id {
                    Some(cid) => if find_sprite_canon(s.layers, cid) is Some {
                        (s, SceneEventAck::Rejection)
                    } else {
                        (
                            SceneView {
                                layers: s.layers.update(
                                    i,
                                    layer_with(s.layers[i], Sprite { local_id: s.next_id, ..sp }),
                                ),
                                next_id: (s.next_id + 1) as Id,
                                ..s
                            },
                            SceneEventAck::SpriteNew(sp.local_id, Some(cid)),
                        )
                    },
                    None => {
                        let cc = if s.canon { Some(s.next_id) } else { None };
                        (
                            SceneView {
                                layers: s.layers.update(
                                    i,
                                    layer_with(
                                        s.layers[i],
                                        Sprite { local_id: s.next_id, canonical_id: cc, ..sp },
                                    ),
                                ),
                                next_id: (s.next_id + 1) as Id,
                                ..s
                            },
                            SceneEventAck::SpriteNew(sp.local_id, cc),
                        )
                    },
                }
            },
            None => (s, SceneEventAck::Rejection),
        },
        SceneEvent::SpriteRemove(sp, _) => match sp.canonical_id {
            Some(c) => match find_sprite_canon(s.layers, c) {
                Some((i, k)) => (
                    set_layer(s, i, LayerView { sprites: s.layers[i].sprites.remove(k), ..s.layers[i] }),
                    SceneEventAck::Approval,
                ),
                None => (s, SceneEventAck::Rejection),
            },
            None => (s, SceneEventAck::Rejection),
        },
        SceneEvent::LocalSpriteMove(..) => (s, SceneEventAck::Approval),
        SceneEvent::SpriteMove(c, from, to) => match find_sprite_canon(s.layers, c) {
            Some((i, k)) => if !s.canon || s.layers[i].sprites[k].rect == from {
                (
                    set_sprite(s, i, k, Sprite { rect: to, ..s.layers[i].sprites[k] }),
                    SceneEventAck::Approval,
                )
            } else {
                (s, SceneEventAck::Rejection)
            },
            None => (s, SceneEventAck::Rejection),
        },
        SceneEvent::SpriteTextureChange(c, old, new) => match find_sprite_canon(s.layers, c) {
            Some((i, k)) => if !s.canon || s.layers[i].sprites[k].texture == old {
                (
                    set_sprite(s, i, k, Sprite { texture: new, ..s.layers[i].sprites[k] }),
                    SceneEventAck::Approval,
                )
            } else {
                (s, SceneEventAck::Rejection)
            },
            None => (s, SceneEventAck::Rejection),
        },
    }
}

/// The members of a set applied in order; the first rejection rejects the
/// whole set and leaves the scene as it was.
pub open spec fn apply_set(s: SceneView, v: Seq<SceneEvent>) -> (SceneView, SceneEventAck)
    decreases v.len(),
{
    if v.len() == 0 {
        (s, SceneEventAck::Approval)
    } else {
        let (s1, a1) = apply_one(s, v[0]);
        if a1 is Rejection {
            (s, SceneEventAck::Rejection)
        } else {
            let (s2, a2) = apply_set(s1, v.drop_first());
            if a2 is Rejection {
                (s, SceneEventAck::Rejection)
            } else {
                (s2, SceneEventAck::Approval)
            }
        }
    }
}

/// The scene after an event, and the answer to it.
pub open spec fn apply_result(s: SceneView, e: SceneEvent) -> (SceneView, SceneEventAck) {
    match e {
        SceneEvent::EventSet(v) => apply_set(s, v@),
        _ => apply_one(s, e),
    }
}

/// The scene after the inverse of one event that is not a set is applied
/// to it. Creations are undone by removal, removals by restoring the kept
/// layer, and changes by setting back the value the event started from.
pub open spec fn unwind_one(s: SceneView, e: SceneEvent) -> SceneView {
    match e {
        SceneEvent::Dummy => s,
        SceneEvent::EventSet(_) => s,
        SceneEvent::LayerLockedChange(c, from, _) => match first_index(s.layers, layer_canon(c)) {
            Some(i) => set_layer(s, i, LayerView { locked: from, ..s.layers[i] }),
            None => s,
        },
        SceneEvent::LayerVisibilityChange(c, from, _) => match first_index(s.layers, layer_canon(c)) {
            Some(i) => set_layer(s, i, LayerView { visible: from, ..s.layers[i] }),
            None => s,
        },
        SceneEvent::LayerMove(c, _, up) => match first_index(s.layers, layer_canon(c)) {
            Some(i) => match stack_move(s.layers, i, !up) {
                Some(t) => SceneView { layers: t, ..s },
                None => s,
            },
            None => s,
        },
        SceneEvent::LayerNew(id, _, _) => match first_index(s.layers, layer_origin(id, latest_layer(s.layers, id))) {
            Some(i) => SceneView {
                layers: stack_remove(s.layers, i),
                removed_layers: if s.layers[i].canonical_id is Some {
                    s.removed_layers.push(s.layers[i])
                } else {
                    s.removed_layers
                },
                ..s
            },
            None => s,
        },
        SceneEvent::LayerRemove(c) => match last_index(s.removed_layers, layer_canon(c)) {
            Some(j) => if s.layers.len() + 1 < i32::MAX {
                SceneView {
                    layers: stack_insert(s.layers, s.removed_layers[j]),
                    removed_layers: s.removed_layers.remove(j),
                    ..s
                }
            } else {
                s
            },
            None => s,
        },
        SceneEvent::LayerRename(c, from, _) => match first_index(s.layers, layer_canon(c)) {
            Some(i) => set_layer(s, i, LayerView { title: from@, ..s.layers[i] }),
            None => s,
        },
        SceneEvent::SpriteNew(sp, lc) => match first_index(s.layers, layer_canon(lc)) {
            Some(i) => match first_index(s.layers[i].sprites, sprite_created(sp, latest_sprite(s.layers[i].sprites, sp.origin))) {
                Some(k) => set_layer(
                    s,
                    i,
                    LayerView { sprites: s.layers[i].sprites.remove(k), ..s.layers[i] },
                ),
                None => s,
            },
            None => s,
        },
        SceneEvent::SpriteRemove(sp, lc) => match first_index(s.layers, layer_canon(lc)) {
            Some(i) => if s.next_id < Id::MAX {
                SceneView {
                    layers: s.layers.update(i, layer_with(s.layers[i], Sprite { local_id: s.next_id, ..sp })),
                    next_id: (s.next_id + 1) as Id,
                    ..s
                }
            } else {
                s
            },
            None => s,
        },
        SceneEvent::LocalSpriteMove(l, from, _) => match find_sprite_local(s.layers, l) {
            Some((i, k)) => set_sprite(s, i, k, Sprite { rect: from, ..s.layers[i].sprites[k] }),
            None => s,
        },
        SceneEvent::SpriteMove(c, from, _) => match find_sprite_canon(s.layers, c) {
            Some((i, k)) => set_sprite(s, i, k, Sprite { rect: from, ..s.layers[i].sprites[k] }),
            None => s,
        },
        SceneEvent::SpriteTextureChange(c, old, _) => match find_sprite_canon(s.layers, c) {
            Some((i, k)) => set_sprite(s, i, k, Sprite { texture: old, ..s.layers[i].sprites[k] }),
            None => s,
        },
    }
}

/// `r` is the event that records what unwinding `e` on `s` did, or none
/// where that changed nothing that other processes know of.
pub open spec fn inverse_of(s: SceneView, e: SceneEvent, r: Option<SceneEvent>) -> bool {
    match e {
        SceneEvent::LayerLockedChange(c, from, _) => r == match first_index(s.layers, layer_canon(c)) {
            Some(i) => Some(SceneEvent::LayerLockedChange(c, s.layers[i].locked, from)),
            None => None,
        },
        SceneEvent::LayerVisibilityChange(c, from, _) => r == match first_index(s.layers, layer_canon(c)) {
            Some(i) => Some(SceneEvent::LayerVisibilityChange(c, s.layers[i].visible, from)),
            None => None,
        },
        SceneEvent::LayerMove(c, _, up) => r == match first_index(s.layers, layer_canon(c)) {
            Some(i) => if stack_move(s.layers, i, !up) is Some {
                Some(SceneEvent::LayerMove(c, s.layers[i].z, !up))
            } else {
                None
            },
            None => None,
        },
        SceneEvent::LayerNew(id, _, _) => r == match first_index(s.layers, layer_origin(id, latest_layer(s.layers, id))) {
            Some(i) => match s.layers[i].canonical_id {
                Some(cc) => Some(SceneEvent::LayerRemove(cc)),
                None => None,
            },
            None => None,
        },
        SceneEvent::LayerRemove(c) => match last_index(s.removed_layers, layer_canon(c)) {
            Some(j) => if s.layers.len() + 1 < i32::MAX {
                r matches Some(SceneEvent::LayerNew(lid, t, z)) && lid == s.removed_layers[j].local_id
                    && t@ == s.removed_layers[j].title && z == s.removed_layers[j].z
            } else {
                r is None
            },
            None => r is None,
        },
        SceneEvent::LayerRename(c, from, _) => match first_index(s.layers, layer_canon(c)) {
            Some(i) => r matches Some(SceneEvent::LayerRename(id, a, b)) && id == c && a@
                == s.layers[i].title && b@ == from@,
            None => r is None,
        },
        SceneEvent::SpriteNew(sp, lc) => r == match first_index(s.layers, layer_canon(lc)) {
            Some(i) => match first_index(s.layers[i].sprites, sprite_created(sp, latest_sprite(s.layers[i].sprites, sp.origin))) {
                Some(k) => if s.layers[i].sprites[k].canonical_id is Some {
                    Some(SceneEvent::SpriteRemove(s.layers[i].sprites[k], lc))
                } else {
                    None
                },
                None => None,
            },
            None => None,
        },
        SceneEvent::SpriteRemove(sp, lc) => r == if first_index(s.layers, layer_canon(lc)) is Some && s.next_id < Id::MAX {
            Some(SceneEvent::SpriteNew(Sprite { local_id: s.next_id, ..sp }, lc))
        } else {
            None
        },
        SceneEvent::LocalSpriteMove(l, from, _) => r == match find_sprite_local(s.layers, l) {
            Some((i, k)) => Some(SceneEvent::LocalSpriteMove(l, s.layers[i].sprites[k].rect, from)),
            None => None,
        },
        SceneEvent::SpriteMove(c, from, _) => r == match find_sprite_canon(s.layers, c) {
            Some((i, k)) => Some(SceneEvent::SpriteMove(c, s.layers[i].sprites[k].rect, from)),
            None => None,
        },
        SceneEvent::SpriteTextureChange(c, old, _) => r == match find_sprite_canon(s.layers, c) {
            Some((i, k)) => Some(
                SceneEvent::SpriteTextureChange(c, s.layers[i].sprites[k].texture, old),
            ),
            None => None,
        },
        _ => r is None,
    }
}

/// The scene after the members of a set are unwound, the last one first.
pub open spec fn unwind_set(s: SceneView, v: Seq<SceneEvent>) -> SceneView
    decreases v.len(),
{
    if v.len() == 0 {
        s
    } else {
        unwind_set(unwind_one(s, v.last()), v.drop_last())
    }
}

/// `w` holds, in the order they were made, the events that record the
/// unwinding of the members of `v` on `s`, the last member first.
pub open spec fn inverses_of(s: SceneView, v: Seq<SceneEvent>, w: Seq<SceneEvent>) -> bool
    decreases v.len(),
{
    if v.len() == 0 {
        w.len() == 0
    } else {
        let s1 = unwind_one(s, v.last());
        ||| inverse_of(s, v.last(), None) && inverses_of(s1, v.drop_last(), w)
        ||| w.len() > 0 && inverse_of(s, v.last(), Some(w[0])) && inverses_of(
            s1,
            v.drop_last(),
            w.drop_first(),
        )
    }
}

/// The scene after an event is unwound.
pub open spec fn unwind_result(s: SceneView, e: SceneEvent) -> SceneView {
    match e {
        SceneEvent::EventSet(v) => unwind_set(s, v@),
        _ => unwind_one(s, e),
    }
}

/// `r` is what unwinding `e` on `s` returns: for a set, a set of the
/// events of its members' unwinding, or none where there are none.
pub open spec fn unwound_event(s: SceneView, e: SceneEvent, r: Option<SceneEvent>) -> bool {
    match e {
        SceneEvent::EventSet(v) => match r {
            Some(SceneEvent::EventSet(w)) => w@.len() > 0 && inverses_of(s, v@, w@),
            None => inverses_of(s, v@, Seq::empty()),
            _ => false,
        },
        _ => inverse_of(s, e, r),
    }
}

/// The scene after the first sprite with local id `id` is removed, and the
/// event that records it where the sprite and its layer have canonical ids.
pub open spec fn sprite_removal(s: SceneView, id: Id) -> (SceneView, Option<SceneEvent>) {
    match find_sprite_local(s.layers, id) {
        Some((i, k)) => {
            let l = s.layers[i];
            (
                set_layer(s, i, LayerView { sprites: l.sprites.remove(k), ..l }),
                if l.sprites[k].canonical_id is Some && l.canonical_id is Some {
                    Some(SceneEvent::SpriteRemove(l.sprites[k], l.canonical_id->Some_0))
                } else {
                    None
                },
            )
        },
        None => (s, None),
    }
}

/// The scene after the first sprite with local id `id` moved to the layer
/// that `layer` names.
pub open spec fn reparented(s: SceneView, id: Id, layer: Id) -> SceneView {
    match (find_sprite_local(s.layers, id), find_layer(s.layers, layer)) {
        (Some((i, k)), Some(j)) => {
            let l = s.layers[i];
            let mid = set_layer(s, i, LayerView { sprites: l.sprites.remove(k), ..l });
            set_layer(mid, j, layer_with(mid.layers[j], l.sprites[k]))
        },
        _ => s,
    }
}

/// `e` records that move: a set that removes the sprite from its layer and
/// creates it on the other, where the sprite and both layers have canonical ids.
pub open spec fn reparent_event(s: SceneView, id: Id, layer: Id, e: Option<SceneEvent>) -> bool {
    match (find_sprite_local(s.layers, id), find_layer(s.layers, layer)) {
        (Some((i, k)), Some(j)) => {
            let l = s.layers[i];
            let sp = l.sprites[k];
            if sp.canonical_id is Some && l.canonical_id is Some && s.layers[j].canonical_id is Some {
                e matches Some(SceneEvent::EventSet(v)) && v@ == seq![
                    SceneEvent::SpriteRemove(sp, l.canonical_id->Some_0),
                    SceneEvent::SpriteNew(sp, s.layers[j].canonical_id->Some_0),
                ]
            } else {
                e is None
            }
        },
        _ => e is None,
    }
}

/// The members of the set that records moving the first sprite with local
/// id `id` to the layer `layer` names; none where it is not recorded.
pub open spec fn reparent_members(s: SceneView, id: Id, layer: Id) -> Seq<SceneEvent> {
    match (find_sprite_local(s.layers, id), find_layer(s.layers, layer)) {
        (Some((i, k)), Some(j)) => {
            let l = s.layers[i];
            let sp = l.sprites[k];
            if sp.canonical_id is Some && l.canonical_id is Some && s.layers[j].canonical_id is Some {
                seq![
                    SceneEvent::SpriteRemove(sp, l.canonical_id->Some_0),
                    SceneEvent::SpriteNew(sp, s.layers[j].canonical_id->Some_0),
                ]
            } else {
                Seq::empty()
            }
        },
        _ => Seq::empty(),
    }
}

/// The scene after each sprite of `ids` in turn is removed, and the events
/// that record it.
pub open spec fn selection_removal(s: SceneView, ids: Seq<Id>) -> (SceneView, Seq<SceneEvent>)
    decreases ids.len(),
{
    if ids.len() == 0 {
        (s, Seq::empty())
    } else {
        let (s1, ev) = selection_removal(s, ids.drop_last());
        let (s2, e) = sprite_removal(s1, ids.last());
        (s2, match e {
            Some(e) => ev.push(e),
            None => ev,
        })
    }
}

/// The scene after each sprite of `ids` in turn moves to the layer `layer`
/// names, and the members of the sets that record it.
pub open spec fn selection_reparent(s: SceneView, ids: Seq<Id>, layer: Id) -> (SceneView, Seq<SceneEvent>)
    decreases ids.len(),
{
    if ids.len() == 0 {
        (s, Seq::empty())
    } else {
        let (s1, ev) = selection_reparent(s, ids.drop_last(), layer);
        (reparented(s1, ids.last(), layer), ev + reparent_members(s1, ids.last(), layer))
    }
}

impl Scene {
    fn apply_simple(&mut self, event: &SceneEvent) -> (ack: SceneEventAck)
        requires
            old(self).wf(),
        ensures
            final(self).wf(),
            (final(self)@, ack) == apply_one(old(self)@, *event),
    {
        let ghost s = self@;
        match event {
            SceneEvent::Dummy => SceneEventAck::Approval,
            SceneEvent::EventSet(_) => SceneEventAck::Rejection,
            SceneEvent::LayerLockedChange(c, _, v) => {
                if let Some(i) = self.layer_index_canonical(*c) {
                    assert(s.layers[i as int] == self.layers@[i as int]@);
                    self.layers[i].locked = *v;
                    assert(self@.layers =~= s.layers.update(i as int, LayerView { locked: *v, ..s.layers[i as int] }));
                }
                SceneEventAck::Approval
            },
            SceneEvent::LayerVisibilityChange(c, _, v) => {
                if let Some(i) = self.layer_index_canonical(*c) {
                    assert(s.layers[i as int] == self.layers@[i as int]@);
                    self.layers[i].visible = *v;
                    assert(self@.layers =~= s.layers.update(i as int, LayerView { visible: *v, ..s.layers[i as int] }));
                }
                SceneEventAck::Approval
            },
            SceneEvent::LayerMove(c, z0, up) => {
                match self.layer_index_canonical(*c) {
                    Some(i) => {
                        assert(s.layers[i as int] == self.layers@[i as int]@);
                        if self.layers[i].z != *z0 {
                            SceneEventAck::Rejection
                        } else {
                            let moved = self.move_layer_at(i, *up);
                            SceneEventAck::from_bool(moved)
                        }
                    },
                    None => SceneEventAck::Rejection,
                }
            },
            SceneEvent::LayerNew(..) => self.apply_layer_creation(event),
            SceneEvent::LayerRemove(c) => {
                match self.layer_index_canonical(*c) {
                    Some(i) => {
                        let l = self.take_layer(i);
                        let ghost mid = self@;
                        self.removed_layers.push(l);
                        assert(self@.removed_layers =~= mid.removed_layers.push(l@));
                        SceneEventAck::Approval
                    },
                    None => SceneEventAck::Rejection,
                }
            },
            SceneEvent::LayerRename(c, from, to) => {
                match self.layer_index_canonical(*c) {
                    Some(i) => {
                        assert(s.layers[i as int] == self.layers@[i as int]@);
                        if self.layers[i].title == *from {
                            self.layers[i].title = to.clone();
                            assert(self@.layers =~= s.layers.update(i as int, LayerView { title: to@, ..s.layers[i as int] }));
                            SceneEventAck::Approval
                        } else {
                            SceneEventAck::Rejection
                        }
                    },
                    None => SceneEventAck::Rejection,
                }
            },
            SceneEvent::SpriteNew(..) => self.apply_sprite_creation(event),
            SceneEvent::SpriteRemove(sp, _) => {
                let c = match sp.canonical_id {
                    Some(c) => c,
                    None => return SceneEventAck::Rejection,
                };
                match self.sprite_loc_canonical(c) {
                    Some((i, k)) => {
                        self.take_sprite_at(i, k);
                        SceneEventAck::Approval
                    },
                    None => SceneEventAck::Rejection,
                }
            },
            SceneEvent::LocalSpriteMove(..) => SceneEventAck::Approval,
            SceneEvent::SpriteMove(c, from, to) => {
                match self.sprite_loc_canonical(*c) {
                    Some((i, k)) => {
                        assert(s.layers[i as int] == self.layers@[i as int]@);
                        let cur = self.layers[i].sprites[k];
                        if !self.canon || cur.rect == *from {
                            self.put_sprite(i, k, Sprite { rect: *to, ..cur });
                            SceneEventAck::Approval
                        } else {
                            SceneEventAck::Rejection
                        }
                    },
                    None => SceneEventAck::Rejection,
                }
            },
            SceneEvent::SpriteTextureChange(c, old, new) => {
                match self.sprite_loc_canonical(*c) {
                    Some((i, k)) => {
                        assert(s.layers[i as int] == self.layers@[i as int]@);
                        let cur = self.layers[i].sprites[k];
                        if !self.canon || cur.texture == *old {
                            self.put_sprite(i, k, Sprite { texture: *new, ..cur });
                            SceneEventAck::Approval
                        } else {
                            SceneEventAck::Rejection
                        }
                    },
                    None => SceneEventAck::Rejection,
                }
            },
        }
    }

    fn apply_layer_creation(&mut self, event: &SceneEvent) -> (ack: SceneEventAck)
        requires
            old(self).wf(),
            event is LayerNew,
        ensures
            final(self).wf(),
            (final(self)@, ack) == apply_one(old(self)@, *event),
    {
        let ghost s0 = self@;
        let (id, title, z) = match event {
            SceneEvent::LayerNew(id, title, z) => (id, title, z),
            _ => return SceneEventAck::Rejection,
        };
        if self.next_id == Id::MAX || self.layers.len() + 1 >= i32::MAX as usize || (!self.canon
            && self.layer_index_canonical(*id).is_some()) {
            return SceneEventAck::Rejection;
        }
        let local = self.next_id;
        let c = if self.canon { local } else { *id };
        self.next_id = local + 1;
        let l = Layer {
            local_id: local,
            canonical_id: Some(c),
            origin: *id,
            title: title.clone(),
            z: *z,
            visible: true,
            locked: false,
            sprites: Vec::new(),
            z_min: 0,
            z_max: 0,
        };
        assert(l@ == created_layer(local, c, *id, title@, *z));
        proof {
            lemma_ok_grow(s0.layers, local as int, self.next_id as int);
            lemma_ok_grow(s0.removed_layers, local as int, self.next_id as int);
            lemma_stack_add_ok(s0.layers, l@, self.next_id as int);
        }
        self.insert_layer(l, true);
        SceneEventAck::LayerNew(*id, Some(c))
    }

    fn apply_sprite_creation(&mut self, event: &SceneEvent) -> (ack: SceneEventAck)
        requires
            old(self).wf(),
            event is SpriteNew,
        ensures
            final(self).wf(),
            (final(self)@, ack) == apply_one(old(self)@, *event),
    {
        let ghost s = self@;
        let (sp, lc) = match event {
            SceneEvent::SpriteNew(sp, lc) => (sp, lc),
            _ => return SceneEventAck::Rejection,
        };
        let i = match self.layer_index_canonical(*lc) {
            Some(i) => i,
            None => return SceneEventAck::Rejection,
        };
        if self.next_id == Id::MAX {
            return SceneEventAck::Rejection;
        }
        let local = self.next_id;
        let (sprite, ack) = match sp.canonical_id {
            Some(cid) => {
                if self.sprite_loc_canonical(cid).is_some() {
                    return SceneEventAck::Rejection;
                }
                (Sprite { local_id: local, ..*sp }, SceneEventAck::SpriteNew(sp.local_id, Some(cid)))
            },
            None => {
                let cc = if self.canon { Some(local) } else { None };
                (Sprite { local_id: local, canonical_id: cc, ..*sp }, SceneEventAck::SpriteNew(sp.local_id, cc))
            },
        };
        self.next_id = local + 1;
        assert(s.layers[i as int] == self.layers@[i as int]@);
        proof {
            lemma_ok_grow(s.layers, local as int, self.next_id as int);
            lemma_ok_grow(s.removed_layers, local as int, self.next_id as int);
            lemma_layer_with_ok(s.layers[i as int], sprite, self.next_id as int);
            lemma_update_ok(s.layers, i as int, layer_with(s.layers[i as int], sprite), self.next_id as int);
        }
        self.layers[i].add_sprite(sprite);
        assert(self@.layers =~= s.layers.update(i as int, layer_with(s.layers[i as int], sprite)));
        ack
    }

    fn apply_members(&mut self, v: &Vec<SceneEvent>, k: usize) -> (ack: SceneEventAck)
        requires
            old(self).wf(),
            k <= v@.len(),
        ensures
            final(self).wf(),
            ack is Approval || ack is Rejection,
            ack == apply_set(old(self)@, v@.skip(k as int)).1,
            ack is Approval ==> final(self)@ == apply_set(old(self)@, v@.skip(k as int)).0,
        decreases v@.len() - k,
    {
        if k == v.len() {
            return SceneEventAck::Approval;
        }
        let ghost s = self@;
        proof {
            assert(v@.skip(k as int)[0] == v@[k as int]);
            assert(v@.skip(k as int).drop_first() =~= v@.skip(k + 1));
        }
        let a1 = self.apply_simple(&v[k]);
        if a1.is_rejection() {
            return SceneEventAck::Rejection;
        }
        self.apply_members(v, k + 1)
    }

    /// Applies an event and answers it. The authoritative scene checks that
    /// a sprite's rectangle or texture is still what the event started from;
    /// other copies trust their own edits. A set is applied whole or not at all.
    pub fn apply_event(&mut self, event: SceneEvent) -> (ack: SceneEventAck)
        requires
            old(self).wf(),
        ensures
            final(self).wf(),
            (final(self)@, ack) == apply_result(old(self)@, event),
    {
        match &event {
            SceneEvent::EventSet(v) => {
                let backup = self.duplicate();
                let ack = self.apply_members(v, 0);
                proof {
                    assert(v@.skip(0) =~= v@);
                }
                if ack.is_rejection() {
                    *self = backup;
                }
                ack
            },
            _ => self.apply_simple(&event),
        }
    }

    /// Takes the sprite at (`i`, `k`) out of its layer.
    pub(crate) fn take_sprite_at(&mut self, i: usize, k: usize) -> (sp: Sprite)
        requires
            old(self).wf(),
            i < old(self)@.layers.len(),
            k < old(self)@.layers[i as int].sprites.len(),
        ensures
            final(self).wf(),
            sp == old(self)@.layers[i as int].sprites[k as int],
            final(self)@ == set_layer(
                old(self)@,
                i as int,
                LayerView {
                    sprites: old(self)@.layers[i as int].sprites.remove(k as int),
                    ..old(self)@.layers[i as int]
                },
            ),
    {
        let ghost s = self@;
        assert(s.layers[i as int] == self.layers@[i as int]@);
        let sp = self.layers[i].sprites.remove(k);
        assert(self@.layers =~= s.layers.update(i as int, LayerView { sprites: s.layers[i as int].sprites.remove(k as int), ..s.layers[i as int] }));
        sp
    }

    #[verifier::rlimit(40)]
    fn unwind_simple(&mut self, event: &SceneEvent) -> (r: Option<SceneEvent>)
        requires
            old(self).wf(),
        ensures
            final(self).wf(),
            final(self)@ == unwind_one(old(self)@, *event),
            inverse_of(old(self)@, *event, r),
    {
        let ghost s = self@;
        match event {
            SceneEvent::Dummy => None,
            SceneEvent::EventSet(_) => None,
            SceneEvent::LayerLockedChange(c, from, _) => {
                match self.layer_index_canonical(*c) {
                    Some(i) => {
                        assert(s.layers[i as int] == self.layers@[i as int]@);
                        let current = self.layers[i].locked;
                        self.layers[i].locked = *from;
                        assert(self@.layers =~= s.layers.update(i as int, LayerView { locked: *from, ..s.layers[i as int] }));
                        Some(SceneEvent::LayerLockedChange(*c, current, *from))
                    },
                    None => None,
                }
            },
            SceneEvent::LayerVisibilityChange(c, from, _) => {
                match self.layer_index_canonical(*c) {
                    Some(i) => {
                        assert(s.layers[i as int] == self.layers@[i as int]@);
                        let current = self.layers[i].visible;
                        self.layers[i].visible = *from;
                        assert(self@.layers =~= s.layers.update(i as int, LayerView { visible: *from, ..s.layers[i as int] }));
                        Some(SceneEvent::LayerVisibilityChange(*c, current, *from))
                    },
                    None => None,
                }
            },
            SceneEvent::LayerMove(c, _, up) => {
                match self.layer_index_canonical(*c) {
                    Some(i) => {
                        assert(s.layers[i as int] == self.layers@[i as int]@);
                        let z = self.layers[i].z;
                        if self.move_layer_at(i, !*up) {
                            Some(SceneEvent::LayerMove(*c, z, !*up))
                        } else {
                            None
                        }
                    },
                    None => None,
                }
            },
            SceneEvent::LayerNew(id, _, _) => self.unwind_layer_creation(event, *id),
            SceneEvent::LayerRemove(c) => self.restore_layer(*c),
            SceneEvent::LayerRename(c, from, _) => {
                match self.layer_index_canonical(*c) {
                    Some(i) => {
                        assert(s.layers[i as int] == self.layers@[i as int]@);
                        let current = self.layers[i].title.clone();
                        self.layers[i].title = from.clone();
                        assert(self@.layers =~= s.layers.update(i as int, LayerView { title: from@, ..s.layers[i as int] }));
                        Some(SceneEvent::LayerRename(*c, current, from.clone()))
                    },
                    None => None,
                }
            },
            SceneEvent::SpriteNew(sp, lc) => self.unwind_sprite_creation(sp, *lc),
            SceneEvent::SpriteRemove(sp, lc) => self.unwind_sprite_removal(event, sp, *lc),
            SceneEvent::LocalSpriteMove(l, from, _) => {
                match self.sprite_loc_local(*l) {
                    Some((i, k)) => {
                        assert(s.layers[i as int] == self.layers@[i as int]@);
                        let cur = self.layers[i].sprites[k];
                        self.put_sprite(i, k, Sprite { rect: *from, ..cur });
                        Some(SceneEvent::LocalSpriteMove(*l, cur.rect, *from))
                    },
                    None => None,
                }
            },
            SceneEvent::SpriteMove(c, from, _) => {
                match self.sprite_loc_canonical(*c) {
                    Some((i, k)) => {
                        assert(s.layers[i as int] == self.layers@[i as int]@);
                        let cur = self.layers[i].sprites[k];
                        self.put_sprite(i, k, Sprite { rect: *from, ..cur });
                        Some(SceneEvent::SpriteMove(*c, cur.rect, *from))
                    },
                    None => None,
                }
            },
            SceneEvent::SpriteTextureChange(c, old, _) => {
                match self.sprite_loc_canonical(*c) {
                    Some((i, k)) => {
                        assert(s.layers[i as int] == self.layers@[i as int]@);
                        let cur = self.layers[i].sprites[k];
                        self.put_sprite(i, k, Sprite { texture: *old, ..cur });
                        Some(SceneEvent::SpriteTextureChange(*c, cur.texture, *old))
                    },
                    None => None,
                }
            },
        }
    }

    fn unwind_members(&mut self, v: &Vec<SceneEvent>, k: usize, acc: &mut Vec<SceneEvent>)
        requires
            old(self).wf(),
            k <= v@.len(),
        ensures
            final(self).wf(),
            final(self)@ == unwind_set(old(self)@, v@.take(k as int)),
            final(acc)@.len() >= old(acc)@.len(),
            final(acc)@.take(old(acc)@.len() as int) == old(acc)@,
            inverses_of(old(self)@, v@.take(k as int), final(acc)@.skip(old(acc)@.len() as int)),
        decreases k,
    {
        let ghost s = self@;
        let ghost a0 = acc@;
        if k == 0 {
            assert(acc@.skip(acc@.len() as int) =~= Seq::<SceneEvent>::empty());
            assert(acc@.take(acc@.len() as int) =~= acc@);
            return;
        }
        proof {
            assert(v@.take(k as int).last() == v@[k - 1]);
            assert(v@.take(k as int).drop_last() =~= v@.take(k - 1));
        }
        let r = self.unwind_simple(&v[k - 1]);
        let ghost s1 = self@;
        match r {
            Some(x) => {
                acc.push(x);
                let ghost a1 = acc@;
                self.unwind_members(v, k - 1, acc);
                proof {
                    assert(acc@.take(a1.len() as int) == a1);
                    assert(acc@[a0.len() as int] == a1[a0.len() as int]);
                    assert(acc@.skip(a0.len() as int)[0] == x);
                    assert(acc@.skip(a0.len() as int).drop_first() =~= acc@.skip(a1.len() as int));
                    assert(acc@.take(a0.len() as int) =~= a1.take(a0.len() as int));
                    assert(a1.take(a0.len() as int) =~= a0);
                }
            },
            None => {
                self.unwind_members(v, k - 1, acc);
            },
        }
    }

    /// Applies the inverse of an event and returns the event that records
    /// what that did, which undoing or redoing hands on in its turn.
    pub fn unwind_event(&mut self, event: SceneEvent) -> (r: Option<SceneEvent>)
        requires
            old(self).wf(),
        ensures
            final(self).wf(),
            final(self)@ == unwind_result(old(self)@, event),
            unwound_event(old(self)@, event, r),
    {
        match &event {
            SceneEvent::EventSet(v) => {
                let mut acc: Vec<SceneEvent> = Vec::new();
                self.unwind_members(v, v.len(), &mut acc);
                proof {
                    assert(v@.take(v@.len() as int) =~= v@);
                    assert(acc@.skip(0) =~= acc@);
                }
                if acc.len() == 0 {
                    proof {
                        assert(acc@ =~= Seq::<SceneEvent>::empty());
                    }
                    None
                } else {
                    Some(SceneEvent::EventSet(acc))
                }
            },
            _ => self.unwind_simple(&event),
        }
    }

    /// Removes the first sprite with local id `local_id`. Returns the event
    /// that records it where the sprite and its layer have canonical ids.
    pub fn remove_sprite(&mut self, local_id: Id) -> (e: Option<SceneEvent>)
        requires
            old(self).wf(),
        ensures
            final(self).wf(),
            (final(self)@, e) == sprite_removal(old(self)@, local_id),
    {
        match self.sprite_loc_local(local_id) {
            Some((i, k)) => {
                assert(self@.layers[i as int] == self.layers@[i as int]@);
                let layer_canonical = self.layers[i].canonical_id;
                let sp = self.take_sprite_at(i, k);
                match (sp.canonical_id, layer_canonical) {
                    (Some(_), Some(lc)) => Some(SceneEvent::SpriteRemove(sp, lc)),
                    _ => None,
                }
            },
            None => None,
        }
    }

    /// Moves the first sprite with local id `local_id` to the layer with
    /// local id `layer` (the top layer for 0). The move is recorded as a set
    /// that removes the sprite from its layer and creates it on the other,
    /// where the sprite and both layers have canonical ids.
    pub fn sprite_layer(&mut self, local_id: Id, layer: Id) -> (e: Option<SceneEvent>)
        requires
            old(self).wf(),
        ensures
            final(self).wf(),
            final(self)@ == reparented(old(self)@, local_id, layer),
            reparent_event(old(self)@, local_id, layer, e),
    {
        let (i, k) = match self.sprite_loc_local(local_id) {
            Some(loc) => loc,
            None => return None,
        };
        let j = match self.layer_index(layer) {
            Some(j) => j,
            None => return None,
        };
        assert(self@.layers[i as int] == self.layers@[i as int]@);
        assert(self@.layers[j as int] == self.layers@[j as int]@);
        let from = self.layers[i].canonical_id;
        let to = self.layers[j].canonical_id;
        let sp = self.take_sprite_at(i, k);
        let ghost mid = self@;
        assert(mid.layers[j as int] == self.layers@[j as int]@);
        self.layers[j].add_sprite(sp);
        assert(self@.layers =~= mid.layers.update(j as int, layer_with(mid.layers[j as int], sp)));
        match (sp.canonical_id, from, to) {
            (Some(_), Some(fc), Some(tc)) => {
                let v = vec![SceneEvent::SpriteRemove(sp, fc), SceneEvent::SpriteNew(sp, tc)];
                assert(v@ =~= seq![SceneEvent::SpriteRemove(sp, fc), SceneEvent::SpriteNew(sp, tc)]);
                Some(SceneEvent::EventSet(v))
            },
            _ => None,
        }
    }

    /// Removes the layer that a creation with id `id` made, keeping it
    /// aside where it has a canonical id.
    fn unwind_layer_creation(&mut self, event: &SceneEvent, id: Id) -> (r: Option<SceneEvent>)
        requires
            old(self).wf(),
            event is LayerNew && event->LayerNew_0 == id,
        ensures
            final(self).wf(),
            final(self)@ == unwind_one(old(self)@, *event),
            inverse_of(old(self)@, *event, r),
    {
        let i = match self.layer_index_origin(id) {
            Some(i) => i,
            None => return None,
        };
        let l = self.take_layer(i);
        match l.canonical_id {
            Some(c) => {
                let ghost mid = self@;
                self.removed_layers.push(l);
                assert(self@.removed_layers =~= mid.removed_layers.push(l@));
                Some(SceneEvent::LayerRemove(c))
            },
            None => None,
        }
    }

    /// Removes the sprite that creating `sp` on the layer with canonical id
    /// `lc` made.
    fn unwind_sprite_creation(&mut self, sp: &Sprite, lc: Id) -> (r: Option<SceneEvent>)
        requires
            old(self).wf(),
        ensures
            final(self).wf(),
            final(self)@ == unwind_one(old(self)@, SceneEvent::SpriteNew(*sp, lc)),
            inverse_of(old(self)@, SceneEvent::SpriteNew(*sp, lc), r),
    {
        let ghost s = self@;
        let i = match self.layer_index_canonical(lc) {
            Some(i) => i,
            None => return None,
        };
        assert(s.layers[i as int] == self.layers@[i as int]@);
        let k = match created_index(&self.layers[i].sprites, sp) {
            Some(k) => k,
            None => return None,
        };
        let removed = self.take_sprite_at(i, k);
        if removed.canonical_id.is_some() {
            Some(SceneEvent::SpriteRemove(removed, lc))
        } else {
            None
        }
    }

    /// Puts back a removed sprite, under a new local id, on the layer with
    /// canonical id `lc`.
    fn unwind_sprite_removal(&mut self, event: &SceneEvent, sp: &Sprite, lc: Id) -> (r: Option<SceneEvent>)
        requires
            old(self).wf(),
            *event == SceneEvent::SpriteRemove(*sp, lc),
        ensures
            final(self).wf(),
            final(self)@ == unwind_one(old(self)@, *event),
            inverse_of(old(self)@, *event, r),
    {
        let ghost s = self@;
        match self.layer_index_canonical(lc) {
            Some(i) => {
                if self.next_id == Id::MAX {
                    return None;
                }
                let local = self.next_id;
                let sprite = Sprite { local_id: local, ..*sp };
                self.next_id = local + 1;
                assert(s.layers[i as int] == self.layers@[i as int]@);
                proof {
                    lemma_ok_grow(s.layers, local as int, self.next_id as int);
                    lemma_ok_grow(s.removed_layers, local as int, self.next_id as int);
                    lemma_layer_with_ok(s.layers[i as int], sprite, self.next_id as int);
                    lemma_update_ok(s.layers, i as int, layer_with(s.layers[i as int], sprite), self.next_id as int);
                }
                self.layers[i].add_sprite(sprite);
                assert(self@.layers =~= s.layers.update(i as int, layer_with(s.layers[i as int], sprite)));
                Some(SceneEvent::SpriteNew(sprite, lc))
            },
            None => None,
        }
    }

    fn layer_index_origin(&self, id: Id) -> (r: Option<usize>)
        ensures
            r matches Some(i) ==> i < self@.layers.len(),
            as_int(r) == first_index(self@.layers, layer_origin(id, latest_layer(self@.layers, id))),
    {
        let mut m: i64 = -1;
        let mut i: usize = 0;
        while i < self.layers.len()
            invariant
                0 <= i <= self@.layers.len(),
                m == latest_layer(self@.layers.take(i as int), id),
            decreases self@.layers.len() - i,
        {
            assert(self@.layers.take(i + 1).drop_last() =~= self@.layers.take(i as int));
            assert(self@.layers[i as int] == self.layers@[i as int]@);
            if self.layers[i].origin == id && self.layers[i].local_id > m {
                m = self.layers[i].local_id;
            }
            i += 1;
        }
        assert(self@.layers.take(i as int) =~= self@.layers);
        let ghost p = layer_origin(id, m as int);
        let mut j: usize = 0;
        while j < self.layers.len()
            invariant
                0 <= j <= self@.layers.len(),
                p == layer_origin(id, m as int),
                m == latest_layer(self@.layers, id),
                forall|k: int| 0 <= k < j ==> !p(#[trigger] self@.layers[k]),
            decreases self@.layers.len() - j,
        {
            assert(self@.layers[j as int] == self.layers@[j as int]@);
            if self.layers[j].origin == id && self.layers[j].local_id == m {
                proof {
                    assert(is_first(self@.layers, p, j as int));
                    lemma_first_index_is(self@.layers, p, j as int);
                }
                return Some(j);
            }
            j += 1;
        }
        proof {
            lemma_first_index_none(self@.layers, p);
        }
        None
    }
}

/// Position of the sprite that creating `sp` made, among `sprites`.
fn created_index(sprites: &Vec<Sprite>, sp: &Sprite) -> (r: Option<usize>)
    ensures
        r matches Some(k) ==> k < sprites@.len(),
        as_int(r) == first_index(sprites@, sprite_created(*sp, latest_sprite(sprites@, sp.origin))),
{
    let mut m: i64 = -1;
    let mut i: usize = 0;
    while i < sprites.len()
        invariant
            0 <= i <= sprites@.len(),
            m == latest_sprite(sprites@.take(i as int), sp.origin),
        decreases sprites@.len() - i,
    {
        assert(sprites@.take(i + 1).drop_last() =~= sprites@.take(i as int));
        if sprites[i].origin == sp.origin && sprites[i].local_id > m {
            m = sprites[i].local_id;
        }
        i += 1;
    }
    assert(sprites@.take(i as int) =~= sprites@);
    let ghost p = sprite_created(*sp, m as int);
    let mut k: usize = 0;
    while k < sprites.len()
        invariant
            0 <= k <= sprites@.len(),
            p == sprite_created(*sp, m as int),
            m == latest_sprite(sprites@, sp.origin),
            forall|j: int| 0 <= j < k ==> !p(#[trigger] sprites@[j]),
        decreases sprites@.len() - k,
    {
        let t = sprites[k];
        let found = match sp.canonical_id {
            Some(c) => t.canonical_id == Some(c),
            None => t.origin == sp.origin && t.local_id == m,
        };
        if found {
            proof {
                assert(is_first(sprites@, p, k as int));
                lemma_first_index_is(sprites@, p, k as int);
            }
            return Some(k);
        }
        k += 1;
    }
    proof {
        lemma_first_index_none(sprites@, p);
    }
    None
}

} // verus!
