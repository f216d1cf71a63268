use vstd::prelude::*;

use crate::event::SceneEvent;
use crate::geom::{Rect, ScenePoint};
use crate::search::{
    as_int, first_index, is_first, is_last, item_at, last_index, lemma_first_index_facts,
    lemma_first_index_is, lemma_first_index_none, lemma_last_index_is, lemma_last_index_none,
};
use crate::sprite::Sprite;
use crate::Id;

verus! {

/// A z-ranked group of sprites, kept in ascending order of sprite z.
pub struct Layer {
    pub local_id: Id,
    pub canonical_id: Option<Id>,
    /// The id the event that created the layer named it by: its creator's
    /// local id for it. Unwinding the creation removes the layer made last
    /// under that id, the one with the greatest local id.
    pub origin: Id,
    pub title: String,
    pub z: i32,
    pub visible: bool,
    pub locked: bool,
    pub sprites: Vec<Sprite>,
    pub z_min: i32,
    pub z_max: i32,
}

/// The mathematical value of a layer.
pub ghost struct LayerView {
    pub local_id: Id,
    pub canonical_id: Option<Id>,
    pub origin: Id,
    pub title: Seq<char>,
    pub z: i32,
    pub visible: bool,
    pub locked: bool,
    pub sprites: Seq<Sprite>,
    pub z_min: i32,
    pub z_max: i32,
}

impl View for Layer {
    type V = LayerView;

    open spec fn view(&self) -> LayerView {
        LayerView {
            local_id: self.local_id,
            canonical_id: self.canonical_id,
            origin: self.origin,
            title: self.title@,
            z: self.z,
            visible: self.visible,
            locked: self.locked,
            sprites: self.sprites@,
            z_min: self.z_min,
            z_max: self.z_max,
        }
    }
}

pub open spec fn sprite_local(id: Id) -> spec_fn(Sprite) -> bool {
    |s: Sprite| s.local_id == id
}

pub open spec fn sprite_canon(id: Id) -> spec_fn(Sprite) -> bool {
    |s: Sprite| s.canonical_id == Some(id)
}

pub open spec fn sprite_other(id: Id) -> spec_fn(Sprite) -> bool {
    |s: Sprite| s.local_id != id
}

pub open spec fn sprite_above(z: i32) -> spec_fn(Sprite) -> bool {
    |s: Sprite| s.z > z
}

pub open spec fn sprite_holds(p: ScenePoint) -> spec_fn(Sprite) -> bool {
    |s: Sprite| s.rect.holds(p)
}

/// The sprites are in ascending order of z.
pub open spec fn sprites_sorted(s: Seq<Sprite>) -> bool {
    forall|a: int, b: int| 0 <= a < b < s.len() ==> #[trigger] s[a].z <= #[trigger] s[b].z
}

/// The layer's local id and those of its sprites are below `n`, and its
/// sprites are in ascending order of z.
pub open spec fn layer_ok(l: LayerView, n: int) -> bool {
    &&& l.local_id < n
    &&& forall|k: int| 0 <= k < l.sprites.len() ==> (#[trigger] l.sprites[k]).local_id < n
    &&& sprites_sorted(l.sprites)
}

pub open spec fn layers_ok(s: Seq<LayerView>, n: int) -> bool {
    forall|j: int| 0 <= j < s.len() ==> layer_ok(#[trigger] s[j], n)
}

/// Where a sprite of height `z` goes: after every sprite that is not above it.
pub open spec fn sprite_slot(s: Seq<Sprite>, z: i32) -> int {
    match first_index(s, sprite_above(z)) {
        Some(i) => i,
        None => s.len() as int,
    }
}

/// The sprites with `sprite` added in its place.
pub open spec fn sprites_with(s: Seq<Sprite>, sprite: Sprite) -> Seq<Sprite> {
    s.insert(sprite_slot(s, sprite.z), sprite)
}

/// The sprites with each of `more` added in turn.
pub open spec fn sprites_with_all(s: Seq<Sprite>, more: Seq<Sprite>) -> Seq<Sprite>
    decreases more.len(),
{
    if more.len() == 0 {
        s
    } else {
        sprites_with(sprites_with_all(s, more.drop_last()), more.last())
    }
}

/// The bounds of sprite z after `z` is seen.
pub open spec fn bounds_with(l: LayerView, z: i32) -> (i32, i32) {
    if z > l.z_max {
        (l.z_min, z)
    } else if z < l.z_min {
        (z, l.z_max)
    } else {
        (l.z_min, l.z_max)
    }
}

/// Adding a sprite in its place keeps sorted sprites sorted.
pub proof fn lemma_layer_with_sorted(s: Seq<Sprite>, sprite: Sprite)
    ensures
        sprites_sorted(s) ==> sprites_sorted(sprites_with(s, sprite)),
        0 <= sprite_slot(s, sprite.z) <= s.len(),
{
    let i = sprite_slot(s, sprite.z);
    lemma_first_index_facts(s, sprite_above(sprite.z));
    if sprites_sorted(s) {
        let t = s.insert(i, sprite);
        assert forall|a: int, b: int| 0 <= a < b < t.len() implies #[trigger] t[a].z <= #[trigger] t[b].z by {
            if b < i {
            } else if a < i && b == i {
                assert(!sprite_above(sprite.z)(s[a]));
            } else if a < i {
                assert(s[a].z <= s[b - 1].z);
            } else if a == i {
                assert(sprite_above(sprite.z)(s[i]));
                assert(s[i].z <= s[b - 1].z);
            } else {
                assert(s[a - 1].z <= s[b - 1].z);
            }
        }
    }
}

/// Adding a sprite whose local id is below `n` keeps a layer in order with
/// its ids below `n`.
pub proof fn lemma_layer_with_ok(l: LayerView, sprite: Sprite, n: int)
    requires
        layer_ok(l, n),
        sprite.local_id < n,
    ensures
        layer_ok(layer_with(l, sprite), n),
{
    lemma_layer_with_sorted(l.sprites, sprite);
    let s = l.sprites;
    let i = sprite_slot(s, sprite.z);
    assert forall|k: int| 0 <= k < s.insert(i, sprite).len() implies (#[trigger] s.insert(i, sprite)[k]).local_id < n by {
        if k < i {
            assert(s[k].local_id < n);
        } else if k > i {
            assert(s[k - 1].local_id < n);
        }
    }
}

/// Adding sprites whose local ids are below `n` keeps a layer in order with
/// its ids below `n`.
pub proof fn lemma_layer_with_all_ok(l: LayerView, more: Seq<Sprite>, n: int)
    requires
        layer_ok(l, n),
        forall|k: int| 0 <= k < more.len() ==> (#[trigger] more[k]).local_id < n,
    ensures
        layer_ok(layer_with_all(l, more), n),
    decreases more.len(),
{
    if more.len() > 0 {
        lemma_layer_with_all_ok(l, more.drop_last(), n);
        lemma_layer_with_ok(layer_with_all(l, more.drop_last()), more.last(), n);
    }
}

/// The layer with `sprite` added.
pub open spec fn layer_with(l: LayerView, sprite: Sprite) -> LayerView {
    LayerView {
        sprites: sprites_with(l.sprites, sprite),
        z_min: bounds_with(l, sprite.z).0,
        z_max: bounds_with(l, sprite.z).1,
        ..l
    }
}

pub open spec fn layer_with_all(l: LayerView, more: Seq<Sprite>) -> LayerView
    decreases more.len(),
{
    if more.len() == 0 {
        l
    } else {
        layer_with(layer_with_all(l, more.drop_last()), more.last())
    }
}

/// Adding sprites changes nothing of a layer but its sprites and their bounds.
pub proof fn lemma_layer_with_all_keeps(l: LayerView, more: Seq<Sprite>)
    ensures
        ({
            let r = layer_with_all(l, more);
            r == LayerView { sprites: r.sprites, z_min: r.z_min, z_max: r.z_max, ..l }
        }),
    decreases more.len(),
{
    if more.len() > 0 {
        lemma_layer_with_all_keeps(l, more.drop_last());
    }
}

/// Local ids of the sprites of `s` that lie wholly in `region`, in order.
pub open spec fn ids_in(s: Seq<Sprite>, region: Rect) -> Seq<Id>
    decreases s.len(),
{
    if s.len() == 0 {
        Seq::empty()
    } else if region.encloses(s.last().rect) {
        ids_in(s.drop_last(), region).push(s.last().local_id)
    } else {
        ids_in(s.drop_last(), region)
    }
}

impl LayerView {
    pub open spec fn selectable(self) -> bool {
        self.visible && !self.locked
    }

    /// The event that records a change of this layer, once it has a canonical id.
    pub open spec fn visibility_event(self, visible: bool) -> Option<SceneEvent> {
        match self.canonical_id {
            Some(c) => Some(SceneEvent::LayerVisibilityChange(c, self.visible, visible)),
            None => None,
        }
    }

    pub open spec fn locked_event(self, locked: bool) -> Option<SceneEvent> {
        match self.canonical_id {
            Some(c) => Some(SceneEvent::LayerLockedChange(c, self.locked, locked)),
            None => None,
        }
    }
}

impl Layer {
    /// An empty, visible, unlocked layer.
    pub fn new(local_id: Id, title: &str, z: i32) -> (r: Layer)
        ensures
            r@ == (LayerView {
                local_id,
                canonical_id: None,
                origin: local_id,
                title: title@,
                z,
                visible: true,
                locked: false,
                sprites: Seq::empty(),
                z_min: 0,
                z_max: 0,
            }),
    {
        Layer {
            local_id,
            canonical_id: None,
            origin: local_id,
            title: title.to_owned(),
            z,
            visible: true,
            locked: false,
            sprites: Vec::new(),
            z_min: 0,
            z_max: 0,
        }
    }

    /// A copy of the layer.
    pub fn duplicate(&self) -> (r: Layer)
        ensures
            r@ == self@,
    {
        let sprites = self.sprites.clone();
        assert(sprites@ =~= self.sprites@);
        Layer {
            local_id: self.local_id,
            canonical_id: self.canonical_id,
            origin: self.origin,
            title: self.title.clone(),
            z: self.z,
            visible: self.visible,
            locked: self.locked,
            sprites,
            z_min: self.z_min,
            z_max: self.z_max,
        }
    }

    /// Gives the layer and then each of its sprites a local id counted up
    /// from `first`, and returns the next unused one. Canonical ids stay.
    pub fn refresh_local_ids(&mut self, first: Id) -> (next: Id)
        requires
            first + old(self).sprites@.len() < Id::MAX,
        ensures
            next == first + 1 + old(self).sprites@.len(),
            final(self)@ == (LayerView {
                local_id: first,
                sprites: final(self)@.sprites,
                ..old(self)@
            }),
            final(self)@.sprites.len() == old(self)@.sprites.len(),
            forall|i: int|
                0 <= i < old(self)@.sprites.len() ==> #[trigger] final(self)@.sprites[i] == (Sprite {
                    local_id: (first + 1 + i) as Id,
                    ..old(self)@.sprites[i]
                }),
    {
        self.local_id = first;
        let mut next = first + 1;
        let mut i: usize = 0;
        while i < self.sprites.len()
            invariant
                0 <= i <= self.sprites@.len(),
                self.sprites@.len() == old(self).sprites@.len(),
                next == first + 1 + i,
                first + old(self).sprites@.len() < Id::MAX,
                self@ == (LayerView { local_id: first, sprites: self@.sprites, ..old(self)@ }),
                forall|j: int|
                    0 <= j < i ==> #[trigger] self.sprites@[j] == (Sprite {
                        local_id: (first + 1 + j) as Id,
                        ..old(self)@.sprites[j]
                    }),
                forall|j: int| i <= j < self.sprites@.len() ==> #[trigger] self.sprites@[j] == old(self)@.sprites[j],
            decreases self.sprites@.len() - i,
        {
            let s = Sprite::from_remote(&self.sprites[i], next);
            self.sprites.set(i, s);
            next = next + 1;
            i += 1;
        }
        next
    }

    /// Index of the first sprite with local id `local_id`.
    pub fn sprite_index(&self, local_id: Id) -> (r: Option<usize>)
        ensures
            r matches Some(i) ==> i < self.sprites@.len(),
            as_int(r) == first_index(self.sprites@, sprite_local(local_id)),
    {
        let mut i: usize = 0;
        while i < self.sprites.len()
            invariant
                0 <= i <= self.sprites@.len(),
                forall|j: int| 0 <= j < i ==> !sprite_local(local_id)(#[trigger] self.sprites@[j]),
            decreases self.sprites@.len() - i,
        {
            if self.sprites[i].local_id == local_id {
                proof {
                    assert(is_first(self.sprites@, sprite_local(local_id), i as int));
                    lemma_first_index_is(self.sprites@, sprite_local(local_id), i as int);
                }
                return Some(i);
            }
            i += 1;
        }
        proof {
            lemma_first_index_none(self.sprites@, sprite_local(local_id));
        }
        None
    }

    /// Index of the first sprite with canonical id `canonical_id`.
    pub fn sprite_canonical(&self, canonical_id: Id) -> (r: Option<usize>)
        ensures
            r matches Some(i) ==> i < self.sprites@.len(),
            as_int(r) == first_index(self.sprites@, sprite_canon(canonical_id)),
    {
        let mut i: usize = 0;
        while i < self.sprites.len()
            invariant
                0 <= i <= self.sprites@.len(),
                forall|j: int|
                    0 <= j < i ==> !sprite_canon(canonical_id)(#[trigger] self.sprites@[j]),
            decreases self.sprites@.len() - i,
        {
            if self.sprites[i].canonical_id == Some(canonical_id) {
                proof {
                    assert(is_first(self.sprites@, sprite_canon(canonical_id), i as int));
                    lemma_first_index_is(self.sprites@, sprite_canon(canonical_id), i as int);
                }
                return Some(i);
            }
            i += 1;
        }
        proof {
            lemma_first_index_none(self.sprites@, sprite_canon(canonical_id));
        }
        None
    }

    /// The first sprite with local id `local_id`.
    pub fn sprite(&self, local_id: Id) -> (r: Option<Sprite>)
        ensures
            r == item_at(self.sprites@, first_index(self.sprites@, sprite_local(local_id))),
    {
        match self.sprite_index(local_id) {
            Some(i) => Some(self.sprites[i]),
            None => None,
        }
    }

    /// The first sprite with canonical id `canonical_id`.
    pub fn sprite_canonical_ref(&self, canonical_id: Id) -> (r: Option<Sprite>)
        ensures
            r == item_at(self.sprites@, first_index(self.sprites@, sprite_canon(canonical_id))),
    {
        match self.sprite_canonical(canonical_id) {
            Some(i) => Some(self.sprites[i]),
            None => None,
        }
    }

    /// The topmost sprite under `at`: the last in order whose rectangle holds it.
    pub fn sprite_at(&self, at: ScenePoint) -> (r: Option<Sprite>)
        ensures
            r == item_at(self.sprites@, last_index(self.sprites@, sprite_holds(at))),
    {
        let mut i: usize = self.sprites.len();
        while i > 0
            invariant
                0 <= i <= self.sprites@.len(),
                forall|j: int|
                    i <= j < self.sprites@.len() ==> !sprite_holds(at)(#[trigger] self.sprites@[j]),
            decreases i,
        {
            i -= 1;
            if self.sprites[i].rect.contains_point(at) {
                proof {
                    assert(is_last(self.sprites@, sprite_holds(at), i as int));
                    lemma_last_index_is(self.sprites@, sprite_holds(at), i as int);
                }
                return Some(self.sprites[i]);
            }
        }
        proof {
            lemma_last_index_none(self.sprites@, sprite_holds(at));
        }
        None
    }

    fn update_z_bounds(&mut self, sprite: &Sprite)
        ensures
            final(self)@ == (LayerView {
                z_min: bounds_with(old(self)@, sprite.z).0,
                z_max: bounds_with(old(self)@, sprite.z).1,
                ..old(self)@
            }),
    {
        if sprite.z > self.z_max {
            self.z_max = sprite.z;
        } else if sprite.z < self.z_min {
            self.z_min = sprite.z;
        }
    }

    fn sprite_slot(&self, z: i32) -> (r: usize)
        ensures
            r == sprite_slot(self.sprites@, z),
    {
        let mut i: usize = 0;
        while i < self.sprites.len()
            invariant
                0 <= i <= self.sprites@.len(),
                forall|j: int| 0 <= j < i ==> !sprite_above(z)(#[trigger] self.sprites@[j]),
            decreases self.sprites@.len() - i,
        {
            if self.sprites[i].z > z {
                proof {
                    assert(is_first(self.sprites@, sprite_above(z), i as int));
                    lemma_first_index_is(self.sprites@, sprite_above(z), i as int);
                }
                return i;
            }
            i += 1;
        }
        proof {
            lemma_first_index_none(self.sprites@, sprite_above(z));
        }
        i
    }

    /// Adds a sprite after every sprite that is not above it, which keeps
    /// sorted sprites sorted.
    pub fn add_sprite(&mut self, sprite: Sprite)
        ensures
            final(self)@ == layer_with(old(self)@, sprite),
            sprites_sorted(old(self)@.sprites) ==> sprites_sorted(final(self)@.sprites),
    {
        self.update_z_bounds(&sprite);
        let i = self.sprite_slot(sprite.z);
        proof {
            lemma_layer_with_sorted(self@.sprites, sprite);
        }
        self.sprites.insert(i, sprite);
    }

    /// Adds each sprite of `sprites` in turn, leaving `sprites` empty.
    pub fn add_sprites(&mut self, sprites: &mut Vec<Sprite>)
        ensures
            final(self)@ == layer_with_all(old(self)@, old(sprites)@),
            final(sprites)@ == Seq::<Sprite>::empty(),
    {
        let mut i: usize = 0;
        while i < sprites.len()
            invariant
                0 <= i <= sprites@.len(),
                sprites@ == old(sprites)@,
                self@ == layer_with_all(old(self)@, sprites@.take(i as int)),
            decreases sprites@.len() - i,
        {
            let s = sprites[i];
            self.add_sprite(s);
            assert(sprites@.take(i + 1).drop_last() =~= sprites@.take(i as int));
            i += 1;
        }
        assert(sprites@.take(i as int) =~= sprites@);
        sprites.clear();
    }

    /// Removes every sprite with local id `local_id`.
    pub fn remove_sprite(&mut self, local_id: Id)
        ensures
            final(self)@ == (LayerView {
                sprites: old(self)@.sprites.filter(sprite_other(local_id)),
                ..old(self)@
            }),
    {
        let ghost keep = sprite_other(local_id);
        let mut kept: Vec<Sprite> = Vec::new();
        let mut i: usize = 0;
        while i < self.sprites.len()
            invariant
                0 <= i <= self.sprites@.len(),
                keep == sprite_other(local_id),
                kept@ == self.sprites@.take(i as int).filter(keep),
            decreases self.sprites@.len() - i,
        {
            proof {
                reveal(Seq::filter);
                assert(self.sprites@.take(i + 1).drop_last() =~= self.sprites@.take(i as int));
                assert(self.sprites@.take(i + 1).last() == self.sprites@[i as int]);
            }
            if self.sprites[i].local_id != local_id {
                kept.push(self.sprites[i]);
            }
            proof {
                reveal(Seq::filter);
                let t = self.sprites@.take(i + 1);
                assert(t.len() > 0);
                assert(t.filter(keep) == if keep(t.last()) {
                    t.drop_last().filter(keep).push(t.last())
                } else {
                    t.drop_last().filter(keep)
                });
            }
            i += 1;
        }
        assert(self.sprites@.take(i as int) =~= self.sprites@);
        self.sprites = kept;
    }

    /// Local ids of the sprites that lie wholly in `region`, in order.
    pub fn sprites_in(&self, region: Rect) -> (r: Vec<Id>)
        ensures
            r@ == ids_in(self.sprites@, region),
    {
        let mut ids: Vec<Id> = Vec::new();
        let mut i: usize = 0;
        while i < self.sprites.len()
            invariant
                0 <= i <= self.sprites@.len(),
                ids@ == ids_in(self.sprites@.take(i as int), region),
            decreases self.sprites@.len() - i,
        {
            assert(self.sprites@.take(i + 1).drop_last() =~= self.sprites@.take(i as int));
            if region.contains_rect(&self.sprites[i].rect) {
                ids.push(self.sprites[i].local_id);
            }
            i += 1;
        }
        assert(self.sprites@.take(i as int) =~= self.sprites@);
        ids
    }

    /// Sprites of the layer can be grabbed and selected.
    pub fn selectable(&self) -> (r: bool)
        ensures
            r == self@.selectable(),
    {
        self.visible && !self.locked
    }

    /// Shows or hides the layer, returning the event that records it.
    pub fn set_visible(&mut self, visible: bool) -> (e: Option<SceneEvent>)
        ensures
            final(self)@ == (LayerView { visible, ..old(self)@ }),
            e == old(self)@.visibility_event(visible),
    {
        let before = self.visible;
        self.visible = visible;
        match self.canonical_id {
            Some(c) => Some(SceneEvent::LayerVisibilityChange(c, before, visible)),
            None => None,
        }
    }

    /// Locks or unlocks the layer, returning the event that records it.
    pub fn set_locked(&mut self, locked: bool) -> (e: Option<SceneEvent>)
        ensures
            final(self)@ == (LayerView { locked, ..old(self)@ }),
            e == old(self)@.locked_event(locked),
    {
        let before = self.locked;
        self.locked = locked;
        match self.canonical_id {
            Some(c) => Some(SceneEvent::LayerLockedChange(c, before, locked)),
            None => None,
        }
    }

    /// Gives the layer a new title, returning the event that records it.
    pub fn rename(&mut self, title: String) -> (e: Option<SceneEvent>)
        ensures
            final(self)@ == (LayerView { title: title@, ..old(self)@ }),
            match old(self)@.canonical_id {
                Some(c) => e matches Some(SceneEvent::LayerRename(id, from, to)) && id == c
                    && from@ == old(self)@.title && to@ == title@,
                None => e is None,
            },
    {
        match self.canonical_id {
            Some(c) => {
                let to = title.clone();
                let from = self.title.clone();
                self.title = title;
                Some(SceneEvent::LayerRename(c, from, to))
            },
            None => {
                self.title = title;
                None
            },
        }
    }

    /// Whether the layer's local id and its sprites' are below `n` and its
    /// sprites are in ascending order of z.
    pub fn is_ok(&self, n: Id) -> (r: bool)
        ensures
            r == layer_ok(self@, n as int),
    {
        if self.local_id >= n {
            return false;
        }
        let mut k: usize = 0;
        while k < self.sprites.len()
            invariant
                0 <= k <= self.sprites@.len(),
                forall|j: int| 0 <= j < k ==> (#[trigger] self.sprites@[j]).local_id < n,
                forall|a: int, b: int| 0 <= a < b < k ==> #[trigger] self.sprites@[a].z <= #[trigger] self.sprites@[b].z,
            decreases self.sprites@.len() - k,
        {
            if self.sprites[k].local_id >= n {
                return false;
            }
            if k > 0 && self.sprites[k - 1].z > self.sprites[k].z {
                return false;
            }
            proof {
                assert forall|a: int, b: int| 0 <= a < b < k + 1 implies #[trigger] self.sprites@[a].z <= #[trigger] self.sprites@[b].z by {
                    if b == k && a < k - 1 {
                        assert(self.sprites@[a].z <= self.sprites@[k - 1].z);
                    }
                }
            }
            k += 1;
        }
        true
    }
}

} // verus!
