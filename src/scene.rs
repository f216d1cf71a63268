use vstd::prelude::*;

use crate::event::{SceneEvent, SceneEventAck};
use crate::geom::{Rect, ScenePoint};
use crate::layer::{lemma_layer_with_all_ok, lemma_layer_with_ok, layer_ok, layers_ok, sprites_sorted, ids_in, lemma_layer_with_all_keeps, layer_with, layer_with_all, sprite_canon, sprite_holds, sprite_local, Layer, LayerView};
use crate::search::{
    as_int, first_index, is_first, is_last, last_index, lemma_first_index_facts,
    lemma_first_index_is, lemma_first_index_none, lemma_last_index_is, lemma_last_index_none,
};
use crate::sprite::{edit_event, edited, Sprite, SpriteEdit};
use crate::Id;

verus! {

/// The mathematical value of a scene.
pub ghost struct SceneView {
    pub id: Option<Id>,
    pub canon: bool,
    pub layers: Seq<LayerView>,
    pub removed_layers: Seq<LayerView>,
    pub title: Option<Seq<char>>,
    pub project: Option<Id>,
    pub w: u32,
    pub h: u32,
    pub next_id: Id,
}

/// Views of a sequence of layers.
pub open spec fn views(s: Seq<Layer>) -> Seq<LayerView> {
    s.map_values(|l: Layer| l@)
}

/// Number of foreground layers of a stack: those at z 0 and above.
pub open spec fn fg_count(s: Seq<LayerView>) -> int {
    if s.len() == 0 {
        0
    } else {
        s[0].z + 1
    }
}

/// The layers are ordered from the top down and their z values are
/// `f - 1, ..., 0` for the `f` foreground layers, then `-1, -2, ...` for
/// the background layers: no gaps, no repeats.
pub open spec fn stacked(s: Seq<LayerView>) -> bool {
    &&& s.len() < i32::MAX
    &&& 0 <= fg_count(s) <= s.len()
    &&& forall|j: int| 0 <= j < s.len() ==> (#[trigger] s[j]).z == fg_count(s) - 1 - j
}

pub open spec fn with_z(l: LayerView, z: int) -> LayerView {
    LayerView { z: z as i32, ..l }
}

/// The layer stack is well formed, the layers and kept layers are in
/// order, and every local id in use is below the next one handed out.
pub open spec fn well_formed(s: SceneView) -> bool {
    &&& stacked(s.layers)
    &&& s.next_id >= 1
    &&& layers_ok(s.layers, s.next_id as int)
    &&& layers_ok(s.removed_layers, s.next_id as int)
}

/// A scene received whole can be taken in: its layers can be numbered, it
/// hands out ids, and its layers are in order with ids below the next one.
pub open spec fn acceptable(s: SceneView) -> bool {
    &&& s.layers.len() < i32::MAX
    &&& s.next_id >= 1
    &&& layers_ok(s.layers, s.next_id as int)
    &&& layers_ok(s.removed_layers, s.next_id as int)
}

/// The layers in the same order, numbered for `f` foreground layers.
pub open spec fn renumber(s: Seq<LayerView>, f: int) -> Seq<LayerView> {
    Seq::new(s.len(), |j: int| with_z(s[j], f - 1 - j))
}

/// Where a layer of height `z` goes in a stack of `n` layers with `f` in
/// the foreground: it takes height `z`, and the layers from there outwards
/// on its side of the grid move one step away from it.
pub open spec fn layer_slot(n: int, f: int, z: int) -> int {
    if z >= 0 {
        if f - z >= 0 {
            f - z
        } else {
            0
        }
    } else if f - 1 - z <= n {
        f - 1 - z
    } else {
        n
    }
}

/// The stack with `l` added in its place.
pub open spec fn stack_insert(s: Seq<LayerView>, l: LayerView) -> Seq<LayerView> {
    let f = fg_count(s);
    renumber(
        s.insert(layer_slot(s.len() as int, f, l.z as int), l),
        if l.z >= 0 { f + 1 } else { f },
    )
}

/// Where a layer of height `z` is added to a stack of `n` layers with `f`
/// in the foreground: after every layer at `z` or above, as a stable sort
/// from the highest z down would place it.
pub open spec fn sorted_slot(n: int, f: int, z: int) -> int {
    if z >= 0 {
        if f - z >= 0 {
            f - z
        } else {
            0
        }
    } else if f - z <= n {
        f - z
    } else {
        n
    }
}

/// The stack with `l` added after every layer at its height or above.
pub open spec fn stack_add(s: Seq<LayerView>, l: LayerView) -> Seq<LayerView> {
    let f = fg_count(s);
    renumber(
        s.insert(sorted_slot(s.len() as int, f, l.z as int), l),
        if l.z >= 0 { f + 1 } else { f },
    )
}

/// The z a layer of height `z` has once added to the stack `s`.
pub open spec fn added_z(s: Seq<LayerView>, z: int) -> int {
    let f = fg_count(s);
    let nf = if z >= 0 { f + 1 } else { f };
    nf - 1 - sorted_slot(s.len() as int, f, z)
}

/// The stack without its layer at `i`.
pub open spec fn stack_remove(s: Seq<LayerView>, i: int) -> Seq<LayerView> {
    let f = fg_count(s);
    renumber(s.remove(i), if i < f { f - 1 } else { f })
}

pub open spec fn swapped(s: Seq<LayerView>, a: int, b: int) -> Seq<LayerView> {
    s.update(a, s[b]).update(b, s[a])
}

/// The stack after moving its layer at `i` one step up or down, or none
/// where the layer cannot move that way. A layer next to the grid crosses
/// it and keeps its place in the order; otherwise it trades places with
/// its neighbour.
pub open spec fn stack_move(s: Seq<LayerView>, i: int, up: bool) -> Option<Seq<LayerView>> {
    let f = fg_count(s);
    if up {
        if i == f {
            Some(renumber(s, f + 1))
        } else if i == 0 {
            None
        } else {
            Some(renumber(swapped(s, i - 1, i), f))
        }
    } else {
        if i + 1 == f {
            Some(renumber(s, f - 1))
        } else if i + 1 == s.len() {
            None
        } else {
            Some(renumber(swapped(s, i, i + 1), f))
        }
    }
}

pub open spec fn layer_below(z: int) -> spec_fn(LayerView) -> bool {
    |l: LayerView| l.z < z
}

/// Position of the first layer below height `z`, or the end.
pub open spec fn first_below(s: Seq<LayerView>, z: int) -> int {
    match first_index(s, layer_below(z)) {
        Some(i) => i,
        None => s.len() as int,
    }
}

/// Layers sorted from the highest z down, layers of equal z in the
/// order they were given in.
pub open spec fn sort_desc(s: Seq<LayerView>) -> Seq<LayerView>
    decreases s.len(),
{
    if s.len() == 0 {
        s
    } else {
        let t = sort_desc(s.drop_last());
        t.insert(first_below(t, s.last().z as int), s.last())
    }
}

/// The layers sorted and renumbered.
pub open spec fn sorted_stack(s: Seq<LayerView>) -> Seq<LayerView> {
    let t = sort_desc(s);
    renumber(t, first_below(t, 0))
}

pub proof fn lemma_renumber_stacked(s: Seq<LayerView>, f: int)
    requires
        0 <= f <= s.len(),
        s.len() < i32::MAX,
    ensures
        stacked(renumber(s, f)),
        renumber(s, f).len() == s.len(),
        fg_count(renumber(s, f)) == f,
{
    if s.len() > 0 {
        assert(renumber(s, f)[0].z == f - 1);
    }
}

/// Renumbering, adding a layer, removing one or trading two keep every
/// layer in order and its ids below `n`.
pub proof fn lemma_renumber_ok(s: Seq<LayerView>, f: int, n: int)
    requires
        layers_ok(s, n),
    ensures
        layers_ok(renumber(s, f), n),
{
    assert forall|j: int| 0 <= j < renumber(s, f).len() implies layer_ok(#[trigger] renumber(s, f)[j], n) by {
        assert(layer_ok(s[j], n));
    }
}

pub proof fn lemma_ok_grow(s: Seq<LayerView>, n: int, m: int)
    requires
        layers_ok(s, n),
        n <= m,
    ensures
        layers_ok(s, m),
{
    assert forall|j: int| 0 <= j < s.len() implies layer_ok(#[trigger] s[j], m) by {
        assert(layer_ok(s[j], n));
    }
}

pub proof fn lemma_update_ok(s: Seq<LayerView>, i: int, l: LayerView, n: int)
    requires
        layers_ok(s, n),
        layer_ok(l, n),
        0 <= i < s.len(),
    ensures
        layers_ok(s.update(i, l), n),
{
    assert forall|j: int| 0 <= j < s.len() implies layer_ok(#[trigger] s.update(i, l)[j], n) by {
        if j != i {
            assert(layer_ok(s[j], n));
        }
    }
}

pub proof fn lemma_insert_ok(s: Seq<LayerView>, p: int, l: LayerView, n: int)
    requires
        layers_ok(s, n),
        layer_ok(l, n),
        0 <= p <= s.len(),
    ensures
        layers_ok(s.insert(p, l), n),
{
    assert forall|j: int| 0 <= j < s.insert(p, l).len() implies layer_ok(#[trigger] s.insert(p, l)[j], n) by {
        if j < p {
            assert(layer_ok(s[j], n));
        } else if j > p {
            assert(layer_ok(s[j - 1], n));
        }
    }
}

pub proof fn lemma_remove_ok(s: Seq<LayerView>, i: int, n: int)
    requires
        layers_ok(s, n),
        0 <= i < s.len(),
    ensures
        layers_ok(s.remove(i), n),
{
    assert forall|j: int| 0 <= j < s.remove(i).len() implies layer_ok(#[trigger] s.remove(i)[j], n) by {
        if j < i {
            assert(layer_ok(s[j], n));
        } else {
            assert(layer_ok(s[j + 1], n));
        }
    }
}

pub proof fn lemma_stack_add_ok(s: Seq<LayerView>, l: LayerView, n: int)
    requires
        stacked(s),
        layers_ok(s, n),
        layer_ok(l, n),
    ensures
        layers_ok(stack_add(s, l), n),
        layers_ok(stack_insert(s, l), n),
{
    let f = fg_count(s);
    let nf = if l.z >= 0 { f + 1 } else { f };
    lemma_insert_ok(s, sorted_slot(s.len() as int, f, l.z as int), l, n);
    lemma_renumber_ok(s.insert(sorted_slot(s.len() as int, f, l.z as int), l), nf, n);
    lemma_insert_ok(s, layer_slot(s.len() as int, f, l.z as int), l, n);
    lemma_renumber_ok(s.insert(layer_slot(s.len() as int, f, l.z as int), l), nf, n);
}

pub proof fn lemma_stack_remove_ok(s: Seq<LayerView>, i: int, n: int)
    requires
        stacked(s),
        layers_ok(s, n),
        0 <= i < s.len(),
    ensures
        layers_ok(stack_remove(s, i), n),
{
    let f = fg_count(s);
    lemma_remove_ok(s, i, n);
    lemma_renumber_ok(s.remove(i), if i < f { f - 1 } else { f }, n);
}

pub proof fn lemma_sort_desc_ok(s: Seq<LayerView>, n: int)
    requires
        layers_ok(s, n),
    ensures
        layers_ok(sort_desc(s), n),
        sort_desc(s).len() == s.len(),
    decreases s.len(),
{
    if s.len() > 0 {
        assert forall|j: int| 0 <= j < s.drop_last().len() implies layer_ok(#[trigger] s.drop_last()[j], n) by {
            assert(layer_ok(s[j], n));
        }
        lemma_sort_desc_ok(s.drop_last(), n);
        let t = sort_desc(s.drop_last());
        lemma_first_index_facts(t, layer_below(s.last().z as int));
        assert(layer_ok(s[s.len() - 1], n));
        lemma_insert_ok(t, first_below(t, s.last().z as int), s.last(), n);
    }
}

proof fn lemma_sort_desc_len(s: Seq<LayerView>)
    ensures
        sort_desc(s).len() == s.len(),
    decreases s.len(),
{
    if s.len() > 0 {
        lemma_sort_desc_len(s.drop_last());
        let t = sort_desc(s.drop_last());
        lemma_first_index_facts(t, layer_below(s.last().z as int));
    }
}

pub open spec fn layer_local(id: Id) -> spec_fn(LayerView) -> bool {
    |l: LayerView| l.local_id == id
}

pub open spec fn layer_canon(id: Id) -> spec_fn(LayerView) -> bool {
    |l: LayerView| l.canonical_id == Some(id)
}

pub open spec fn layer_not_canon(id: Id) -> spec_fn(LayerView) -> bool {
    |l: LayerView| l.canonical_id != Some(id)
}

/// The layer a local id names: the top layer for 0, else the first with that id.
pub open spec fn find_layer(s: Seq<LayerView>, id: Id) -> Option<int> {
    if id == 0 {
        if s.len() > 0 {
            Some(0)
        } else {
            None
        }
    } else {
        first_index(s, layer_local(id))
    }
}

/// The layer that `l` names, if any.
pub open spec fn layer_ref_at(s: Seq<LayerView>, o: Option<int>, l: Option<&Layer>) -> bool {
    match o {
        Some(i) => l matches Some(x) && x@ == s[i],
        None => l is None,
    }
}

pub open spec fn has_sprite_local(id: Id) -> spec_fn(LayerView) -> bool {
    |l: LayerView| first_index(l.sprites, sprite_local(id)) is Some
}

pub open spec fn has_sprite_canon(id: Id) -> spec_fn(LayerView) -> bool {
    |l: LayerView| first_index(l.sprites, sprite_canon(id)) is Some
}

/// Layer and position of the first sprite with local id `id`, searching
/// the layers from the top.
pub open spec fn find_sprite_local(s: Seq<LayerView>, id: Id) -> Option<(int, int)> {
    match first_index(s, has_sprite_local(id)) {
        Some(i) => Some((i, first_index(s[i].sprites, sprite_local(id))->Some_0)),
        None => None,
    }
}

/// Layer and position of the first sprite with canonical id `id`.
pub open spec fn find_sprite_canon(s: Seq<LayerView>, id: Id) -> Option<(int, int)> {
    match first_index(s, has_sprite_canon(id)) {
        Some(i) => Some((i, first_index(s[i].sprites, sprite_canon(id))->Some_0)),
        None => None,
    }
}

pub open spec fn sprite_at_loc(s: Seq<LayerView>, o: Option<(int, int)>) -> Option<Sprite> {
    match o {
        Some((i, k)) => Some(s[i].sprites[k]),
        None => None,
    }
}

/// A layer whose sprites can be grabbed, with a sprite under `at`.
pub open spec fn grabbable_at(at: ScenePoint) -> spec_fn(LayerView) -> bool {
    |l: LayerView| l.selectable() && last_index(l.sprites, sprite_holds(at)) is Some
}

/// The topmost sprite under `at` on a layer whose sprites can be grabbed.
pub open spec fn scene_sprite_at(s: Seq<LayerView>, at: ScenePoint) -> Option<Sprite> {
    match first_index(s, grabbable_at(at)) {
        Some(i) => Some(s[i].sprites[last_index(s[i].sprites, sprite_holds(at))->Some_0]),
        None => None,
    }
}

/// Local ids of the sprites wholly in `region`, over the layers whose
/// sprites can be selected, from the top layer down.
pub open spec fn scene_ids_in(s: Seq<LayerView>, region: Rect) -> Seq<Id>
    decreases s.len(),
{
    if s.len() == 0 {
        Seq::empty()
    } else if s.last().selectable() {
        scene_ids_in(s.drop_last(), region) + ids_in(s.last().sprites, region)
    } else {
        scene_ids_in(s.drop_last(), region)
    }
}

/// The scene with the sprite at (`i`, `k`) replaced.
pub open spec fn set_sprite(s: SceneView, i: int, k: int, sp: Sprite) -> SceneView {
    SceneView {
        layers: s.layers.update(i, LayerView { sprites: s.layers[i].sprites.update(k, sp), ..s.layers[i] }),
        ..s
    }
}

/// The scene with the layer at `i` replaced.
pub open spec fn set_layer(s: SceneView, i: int, l: LayerView) -> SceneView {
    SceneView { layers: s.layers.update(i, l), ..s }
}

/// Width and height of a new scene, in tiles.
pub const DEFAULT_SIZE: u32 = 32;

/// An empty, visible, unlocked layer without a canonical id.
pub open spec fn empty_layer(local_id: Id, title: Seq<char>, z: i32) -> LayerView {
    LayerView {
        local_id,
        canonical_id: None,
        origin: local_id,
        title,
        z,
        visible: true,
        locked: false,
        sprites: Seq::empty(),
        z_min: 0,
        z_max: 0,
    }
}

/// The scene a session starts with: a foreground layer over two
/// background layers.
pub open spec fn default_scene() -> SceneView {
    SceneView {
        id: None,
        canon: false,
        layers: seq![
            empty_layer(1, "Foreground"@, 0),
            empty_layer(2, "Scenery"@, -1i32),
            empty_layer(3, "Background"@, -2i32),
        ],
        removed_layers: Seq::empty(),
        title: None,
        project: None,
        w: DEFAULT_SIZE,
        h: DEFAULT_SIZE,
        next_id: 4,
    }
}

/// The scene after an acknowledgement is applied to it: the canonical id
/// is bound to the object the requester created, unless an object of its
/// kind already has that canonical id.
pub open spec fn ack_result(s: SceneView, ack: SceneEventAck) -> SceneView {
    match ack {
        SceneEventAck::SpriteNew(local_id, Some(c)) => if find_sprite_canon(s.layers, c) is Some {
            s
        } else {
            match find_sprite_local(s.layers, local_id) {
                Some((i, k)) => set_sprite(s, i, k, Sprite { canonical_id: Some(c), ..s.layers[i].sprites[k] }),
                None => s,
            }
        },
        SceneEventAck::LayerNew(local_id, Some(c)) => if first_index(s.layers, layer_canon(c)) is Some {
            s
        } else {
            match find_layer(s.layers, local_id) {
                Some(i) => set_layer(s, i, LayerView { canonical_id: Some(c), ..s.layers[i] }),
                None => s,
            }
        },
        _ => s,
    }
}

/// The layer an event is about: the layer it names, or the layer of the
/// sprite it names.
pub open spec fn event_layer_index(s: Seq<LayerView>, e: SceneEvent) -> Option<int> {
    match e {
        SceneEvent::LayerLockedChange(c, _, _) => first_index(s, layer_canon(c)),
        SceneEvent::LayerMove(c, _, _) => first_index(s, layer_canon(c)),
        SceneEvent::LayerRemove(c) => first_index(s, layer_canon(c)),
        SceneEvent::LayerRename(c, _, _) => first_index(s, layer_canon(c)),
        SceneEvent::LayerVisibilityChange(c, _, _) => first_index(s, layer_canon(c)),
        SceneEvent::SpriteNew(_, lc) => first_index(s, layer_canon(lc)),
        SceneEvent::SpriteRemove(_, lc) => first_index(s, layer_canon(lc)),
        SceneEvent::SpriteMove(c, _, _) => first_index(s, has_sprite_canon(c)),
        SceneEvent::LocalSpriteMove(l, _, _) => first_index(s, has_sprite_local(l)),
        SceneEvent::SpriteTextureChange(c, _, _) => first_index(s, has_sprite_canon(c)),
        _ => None,
    }
}

/// Local ids needed to give each layer of `s` and each of its sprites a new one.
pub open spec fn id_demand(s: Seq<LayerView>) -> int
    decreases s.len(),
{
    if s.len() == 0 {
        0
    } else {
        id_demand(s.drop_last()) + 1 + s.last().sprites.len()
    }
}

/// The layer with local ids counted up from `first`, itself first.
pub open spec fn refreshed(l: LayerView, first: int) -> LayerView {
    LayerView {
        local_id: first as Id,
        sprites: Seq::new(
            l.sprites.len(),
            |k: int| Sprite { local_id: (first + 1 + k) as Id, ..l.sprites[k] },
        ),
        ..l
    }
}

proof fn lemma_id_demand_nonneg(s: Seq<LayerView>)
    ensures
        id_demand(s) >= 0,
    decreases s.len(),
{
    if s.len() > 0 {
        lemma_id_demand_nonneg(s.drop_last());
    }
}

proof fn lemma_id_demand_take(s: Seq<LayerView>, i: int)
    requires
        0 <= i < s.len(),
    ensures
        id_demand(s.take(i)) + 1 + s[i].sprites.len() == id_demand(s.take(i + 1)),
        id_demand(s.take(i + 1)) <= id_demand(s),
    decreases s.len(),
{
    assert(s.take(i + 1).drop_last() =~= s.take(i));
    if i + 1 < s.len() {
        lemma_id_demand_take(s.drop_last(), i);
        assert(s.drop_last().take(i + 1) =~= s.take(i + 1));
    } else {
        assert(s.take(i + 1) =~= s);
    }
}

impl View for Scene {
    type V = SceneView;

    open spec fn view(&self) -> SceneView {
        SceneView {
            id: self.id,
            canon: self.canon,
            layers: views(self.layers@),
            removed_layers: views(self.removed_layers@),
            title: match self.title {
                Some(t) => Some(t@),
                None => None,
            },
            project: self.project,
            w: self.w,
            h: self.h,
            next_id: self.next_id,
        }
    }
}

/// A set of layers with the operations that change it as events.
pub struct Scene {
    pub id: Option<Id>,
    /// Set on the one authoritative copy of the scene.
    pub canon: bool,
    /// From the top layer down.
    pub layers: Vec<Layer>,
    /// Removed layers kept until their removal is confirmed.
    pub removed_layers: Vec<Layer>,
    pub title: Option<String>,
    pub project: Option<Id>,
    pub w: u32,
    pub h: u32,
    /// The next local id to hand out.
    pub next_id: Id,
}

impl Scene {
    /// The layer stack is well formed.
    /// The layer stack is well formed, the layers and kept layers are in
    /// order, and every local id in use is below the next one handed out.
    pub open spec fn wf(&self) -> bool {
        well_formed(self@)
    }

    pub(crate) fn renumber_layers(&mut self, f: usize)
        requires
            f <= old(self).layers@.len() < i32::MAX,
        ensures
            final(self)@ == (SceneView { layers: renumber(old(self)@.layers, f as int), ..old(self)@ }),
    {
        let n = self.layers.len();
        let mut j: usize = 0;
        while j < n
            invariant
                n == self.layers@.len() == old(self).layers@.len(),
                f <= n < i32::MAX,
                0 <= j <= n,
                self@ == (SceneView { layers: self@.layers, ..old(self)@ }),
                forall|k: int| 0 <= k < j ==> #[trigger] self.layers@[k]@ == with_z(old(self).layers@[k]@, f - 1 - k),
                forall|k: int| j <= k < n ==> #[trigger] self.layers@[k]@ == old(self).layers@[k]@,
            decreases n - j,
        {
            let z = f as i64 - 1 - j as i64;
            let ghost before = self.layers@[j as int];
            self.layers[j].z = z as i32;
            assert(before@ == old(self).layers@[j as int]@);
            j += 1;
        }
        assert(self@.layers =~= renumber(old(self)@.layers, f as int));
    }

    /// The z that the top layer of a stacked list has, plus one.
    pub(crate) fn fg(&self) -> (f: usize)
        requires
            stacked(self@.layers),
        ensures
            f == fg_count(self@.layers),
    {
        if self.layers.len() == 0 {
            0
        } else {
            assert(self@.layers[0] == self.layers@[0]@);
            (self.layers[0].z as i64 + 1) as usize
        }
    }

    /// Adds a layer to a stacked list in the place its z gives it: after
    /// the layers at its height or above for `stable`, else taking exactly
    /// that height.
    pub(crate) fn insert_layer(&mut self, layer: Layer, stable: bool)
        requires
            stacked(old(self)@.layers),
            old(self)@.layers.len() + 1 < i32::MAX,
        ensures
            final(self)@ == (SceneView {
                layers: if stable {
                    stack_add(old(self)@.layers, layer@)
                } else {
                    stack_insert(old(self)@.layers, layer@)
                },
                ..old(self)@
            }),
            stacked(final(self)@.layers),
    {
        let n = self.layers.len();
        let f = self.fg();
        let z = layer.z as i64;
        let fi = f as i64;
        let below: i64 = if stable { fi - z } else { fi - 1 - z };
        let p: i64 = if z >= 0 {
            if fi - z >= 0 { fi - z } else { 0 }
        } else if below <= n as i64 {
            below
        } else {
            n as i64
        };
        let nf: usize = if z >= 0 { f + 1 } else { f };
        let ghost before = self@;
        self.layers.insert(p as usize, layer);
        assert(self@.layers =~= before.layers.insert(p as int, layer@));
        self.renumber_layers(nf);
        proof {
            lemma_renumber_stacked(before.layers.insert(p as int, layer@), nf as int);
        }
    }

    /// Takes the layer at `i` out of a stacked list.
    pub(crate) fn take_layer(&mut self, i: usize) -> (l: Layer)
        requires
            stacked(old(self)@.layers),
            i < old(self)@.layers.len(),
        ensures
            l@ == old(self)@.layers[i as int],
            final(self)@ == (SceneView { layers: stack_remove(old(self)@.layers, i as int), ..old(self)@ }),
            stacked(final(self)@.layers),
    {
        let f = self.fg();
        let ghost before = self@;
        let l = self.layers.remove(i);
        assert(self@.layers =~= before.layers.remove(i as int));
        let nf = if i < f { f - 1 } else { f };
        self.renumber_layers(nf);
        proof {
            lemma_renumber_stacked(before.layers.remove(i as int), nf as int);
        }
        l
    }

    /// Moves the layer at `i` one step; false where it cannot move that way.
    pub(crate) fn move_layer_at(&mut self, i: usize, up: bool) -> (moved: bool)
        requires
            stacked(old(self)@.layers),
            i < old(self)@.layers.len(),
        ensures
            match stack_move(old(self)@.layers, i as int, up) {
                Some(t) => moved && final(self)@ == (SceneView { layers: t, ..old(self)@ }),
                None => !moved && final(self)@ == old(self)@,
            },
            stacked(final(self)@.layers),
    {
        let n = self.layers.len();
        let f = self.fg();
        let ghost before = self@;
        if up {
            if i == f {
                self.renumber_layers(f + 1);
                proof { lemma_renumber_stacked(before.layers, f + 1); }
                true
            } else if i == 0 {
                false
            } else {
                let l = self.layers.remove(i - 1);
                self.layers.insert(i, l);
                assert(self@.layers =~= swapped(before.layers, i - 1, i as int));
                self.renumber_layers(f);
                proof { lemma_renumber_stacked(swapped(before.layers, i - 1, i as int), f as int); }
                true
            }
        } else {
            if i + 1 == f {
                self.renumber_layers(f - 1);
                proof { lemma_renumber_stacked(before.layers, f - 1); }
                true
            } else if i + 1 == n {
                false
            } else {
                let l = self.layers.remove(i);
                self.layers.insert(i + 1, l);
                assert(self@.layers =~= swapped(before.layers, i as int, i + 1));
                self.renumber_layers(f);
                proof { lemma_renumber_stacked(swapped(before.layers, i as int, i + 1), f as int); }
                true
            }
        }
    }

    pub(crate) fn layer_index_local(&self, local_id: Id) -> (r: Option<usize>)
        ensures
            r matches Some(i) ==> i < self@.layers.len(),
            as_int(r) == first_index(self@.layers, layer_local(local_id)),
    {
        let mut i: usize = 0;
        while i < self.layers.len()
            invariant
                0 <= i <= self@.layers.len(),
                forall|j: int| 0 <= j < i ==> !layer_local(local_id)(#[trigger] self@.layers[j]),
            decreases self@.layers.len() - i,
        {
            if self.layers[i].local_id == local_id {
                proof {
                    assert(is_first(self@.layers, layer_local(local_id), i as int));
                    lemma_first_index_is(self@.layers, layer_local(local_id), i as int);
                }
                return Some(i);
            }
            i += 1;
        }
        proof {
            lemma_first_index_none(self@.layers, layer_local(local_id));
        }
        None
    }

    pub(crate) fn layer_index_canonical(&self, canonical_id: Id) -> (r: Option<usize>)
        ensures
            r matches Some(i) ==> i < self@.layers.len(),
            as_int(r) == first_index(self@.layers, layer_canon(canonical_id)),
    {
        let mut i: usize = 0;
        while i < self.layers.len()
            invariant
                0 <= i <= self@.layers.len(),
                forall|j: int| 0 <= j < i ==> !layer_canon(canonical_id)(#[trigger] self@.layers[j]),
            decreases self@.layers.len() - i,
        {
            if self.layers[i].canonical_id == Some(canonical_id) {
                proof {
                    assert(is_first(self@.layers, layer_canon(canonical_id), i as int));
                    lemma_first_index_is(self@.layers, layer_canon(canonical_id), i as int);
                }
                return Some(i);
            }
            i += 1;
        }
        proof {
            lemma_first_index_none(self@.layers, layer_canon(canonical_id));
        }
        None
    }

    pub(crate) fn layer_index(&self, layer: Id) -> (r: Option<usize>)
        ensures
            r matches Some(i) ==> i < self@.layers.len(),
            as_int(r) == find_layer(self@.layers, layer),
    {
        if layer == 0 {
            if self.layers.len() > 0 {
                Some(0)
            } else {
                None
            }
        } else {
            self.layer_index_local(layer)
        }
    }

    /// The layer with local id `layer`, or the top layer for 0.
    pub fn layer(&self, layer: Id) -> (r: Option<&Layer>)
        ensures
            layer_ref_at(self@.layers, find_layer(self@.layers, layer), r),
    {
        match self.layer_index(layer) {
            Some(i) => Some(&self.layers[i]),
            None => None,
        }
    }

    /// The first layer with canonical id `layer_canonical`.
    pub fn layer_canonical_ref(&self, layer_canonical: Id) -> (r: Option<&Layer>)
        ensures
            layer_ref_at(self@.layers, first_index(self@.layers, layer_canon(layer_canonical)), r),
    {
        match self.layer_index_canonical(layer_canonical) {
            Some(i) => Some(&self.layers[i]),
            None => None,
        }
    }

    /// Hands out the next local id, if any is left.
    pub(crate) fn allocate_id(&mut self) -> (r: Option<Id>)
        ensures
            old(self).next_id < Id::MAX ==> r == Some(old(self).next_id) && final(self)@ == (SceneView {
                next_id: (old(self).next_id + 1) as Id,
                ..old(self)@
            }),
            old(self).next_id == Id::MAX ==> r is None && final(self)@ == old(self)@,
    {
        if self.next_id < Id::MAX {
            let id = self.next_id;
            self.next_id = id + 1;
            Some(id)
        } else {
            None
        }
    }

    /// Adds a layer after every layer at its height or above, unless one
    /// with its local id is there already, the stack is full, or the layer
    /// holds a local id this scene has not handed out yet or unordered
    /// sprites; returns the event that records it.
    pub fn add_layer(&mut self, layer: Layer) -> (e: Option<SceneEvent>)
        requires
            old(self).wf(),
        ensures
            final(self).wf(),
            if find_layer(old(self)@.layers, layer.local_id) is None && old(self)@.layers.len() + 1
                < i32::MAX && layer_ok(layer@, old(self).next_id as int) {
                &&& final(self)@ == (SceneView {
                    layers: stack_add(old(self)@.layers, layer@),
                    ..old(self)@
                })
                &&& e matches Some(SceneEvent::LayerNew(id, t, z)) && id == layer.local_id && t@
                    == layer@.title && z == added_z(old(self)@.layers, layer.z as int)
            } else {
                final(self)@ == old(self)@ && e is None
            },
    {
        if self.layer_index(layer.local_id).is_some() || self.layers.len() + 1 >= i32::MAX as usize
            || !layer.is_ok(self.next_id) {
            return None;
        }
        proof {
            lemma_stack_add_ok(self@.layers, layer@, self.next_id as int);
        }
        let id = layer.local_id;
        let title = layer.title.clone();
        let n = self.layers.len();
        let f = self.fg() as i64;
        let z = layer.z as i64;
        let p: i64 = if z >= 0 {
            if f - z >= 0 { f - z } else { 0 }
        } else if f - z <= n as i64 {
            f - z
        } else {
            n as i64
        };
        let nf: i64 = if z >= 0 { f + 1 } else { f };
        self.insert_layer(layer, true);
        Some(SceneEvent::LayerNew(id, title, (nf - 1 - p) as i32))
    }

    /// A new empty layer, under the next local id.
    pub fn new_layer(&mut self, title: &str, z: i32) -> (e: Option<SceneEvent>)
        requires
            old(self).wf(),
        ensures
            final(self).wf(),
            if old(self).next_id < Id::MAX && old(self)@.layers.len() + 1 < i32::MAX && find_layer(
                old(self)@.layers,
                old(self).next_id,
            ) is None {
                let l = LayerView {
                    local_id: old(self).next_id,
                    canonical_id: None,
                    origin: old(self).next_id,
                    title: title@,
                    z,
                    visible: true,
                    locked: false,
                    sprites: Seq::empty(),
                    z_min: 0,
                    z_max: 0,
                };
                &&& final(self)@ == (SceneView {
                    layers: stack_add(old(self)@.layers, l),
                    next_id: (old(self).next_id + 1) as Id,
                    ..old(self)@
                })
                &&& e matches Some(SceneEvent::LayerNew(id, t, nz)) && id == old(self).next_id
                    && t@ == title@ && nz == added_z(old(self)@.layers, z as int)
            } else {
                final(self)@ == old(self)@ && e is None
            },
    {
        if self.layers.len() + 1 >= i32::MAX as usize || self.next_id == Id::MAX
            || self.layer_index(self.next_id).is_some() {
            return None;
        }
        let id = match self.allocate_id() {
            Some(id) => id,
            None => return None,
        };
        self.add_layer(Layer::new(id, title, z))
    }

    /// Removes the first layer with local id `layer`. Where the layer has a
    /// canonical id it is kept aside, so that the removal can be undone, and
    /// the event that records the removal is returned.
    pub fn remove_layer(&mut self, layer: Id) -> (e: Option<SceneEvent>)
        requires
            old(self).wf(),
        ensures
            final(self).wf(),
            match first_index(old(self)@.layers, layer_local(layer)) {
                Some(i) => {
                    let l = old(self)@.layers[i];
                    &&& final(self)@ == (SceneView {
                        layers: stack_remove(old(self)@.layers, i),
                        removed_layers: if l.canonical_id is Some {
                            old(self)@.removed_layers.push(l)
                        } else {
                            old(self)@.removed_layers
                        },
                        ..old(self)@
                    })
                    &&& e == match l.canonical_id {
                        Some(c) => Some(SceneEvent::LayerRemove(c)),
                        None => None,
                    }
                },
                None => final(self)@ == old(self)@ && e is None,
            },
    {
        let i = match self.layer_index_local(layer) {
            Some(i) => i,
            None => return None,
        };
        let l = self.take_layer(i);
        match l.canonical_id {
            Some(c) => {
                let ghost before = self@;
                self.removed_layers.push(l);
                assert(self@.removed_layers =~= before.removed_layers.push(l@));
                Some(SceneEvent::LayerRemove(c))
            },
            None => None,
        }
    }

    pub(crate) fn tombstone_index(&self, layer_canonical: Id) -> (r: Option<usize>)
        ensures
            r matches Some(i) ==> i < self@.removed_layers.len(),
            as_int(r) == last_index(self@.removed_layers, layer_canon(layer_canonical)),
    {
        let mut i: usize = self.removed_layers.len();
        while i > 0
            invariant
                0 <= i <= self@.removed_layers.len(),
                forall|j: int|
                    i <= j < self@.removed_layers.len() ==> !layer_canon(layer_canonical)(
                        #[trigger] self@.removed_layers[j],
                    ),
            decreases i,
        {
            i -= 1;
            if self.removed_layers[i].canonical_id == Some(layer_canonical) {
                proof {
                    assert(is_last(self@.removed_layers, layer_canon(layer_canonical), i as int));
                    lemma_last_index_is(self@.removed_layers, layer_canon(layer_canonical), i as int);
                }
                return Some(i);
            }
        }
        proof {
            lemma_last_index_none(self@.removed_layers, layer_canon(layer_canonical));
        }
        None
    }

    /// Puts back the last removed layer with canonical id `layer_canonical`;
    /// returns the event that records its return.
    pub(crate) fn restore_layer(&mut self, layer_canonical: Id) -> (e: Option<SceneEvent>)
        requires
            old(self).wf(),
        ensures
            final(self).wf(),
            match last_index(old(self)@.removed_layers, layer_canon(layer_canonical)) {
                Some(j) => if old(self)@.layers.len() + 1 < i32::MAX {
                    let l = old(self)@.removed_layers[j];
                    &&& final(self)@ == (SceneView {
                        layers: stack_insert(old(self)@.layers, l),
                        removed_layers: old(self)@.removed_layers.remove(j),
                        ..old(self)@
                    })
                    &&& e matches Some(SceneEvent::LayerNew(id, t, z)) && id == l.local_id && t@
                        == l.title && z == l.z
                } else {
                    final(self)@ == old(self)@ && e is None
                },
                None => final(self)@ == old(self)@ && e is None,
            },
    {
        let j = match self.tombstone_index(layer_canonical) {
            Some(j) => j,
            None => return None,
        };
        if self.layers.len() + 1 >= i32::MAX as usize {
            return None;
        }
        let ghost before = self@;
        let l = self.removed_layers.remove(j);
        assert(self@.removed_layers =~= before.removed_layers.remove(j as int));
        let e = SceneEvent::LayerNew(l.local_id, l.title.clone(), l.z);
        self.insert_layer(l, false);
        Some(e)
    }

    /// Gives the layer with local id `layer` (the top layer for 0) a new title.
    pub fn rename_layer(&mut self, layer: Id, new_name: String) -> (e: Option<SceneEvent>)
        requires
            old(self).wf(),
        ensures
            final(self).wf(),
            match find_layer(old(self)@.layers, layer) {
                Some(i) => {
                    let l = old(self)@.layers[i];
                    &&& final(self)@ == (SceneView {
                        layers: old(self)@.layers.update(i, LayerView { title: new_name@, ..l }),
                        ..old(self)@
                    })
                    &&& match l.canonical_id {
                        Some(c) => e matches Some(SceneEvent::LayerRename(id, from, to)) && id == c
                            && from@ == l.title && to@ == new_name@,
                        None => e is None,
                    }
                },
                None => final(self)@ == old(self)@ && e is None,
            },
    {
        match self.layer_index(layer) {
            Some(i) => {
                let ghost before = self@;
                let e = self.layers[i].rename(new_name);
                assert(self@.layers =~= before.layers.update(i as int, LayerView { title: new_name@, ..before.layers[i as int] }));
                e
            },
            None => None,
        }
    }

    /// Moves the first layer with local id `layer` one step up or down the
    /// stack. Returns the event that records the move where the layer moved
    /// and has a canonical id.
    pub fn move_layer(&mut self, layer: Id, up: bool) -> (e: Option<SceneEvent>)
        requires
            old(self).wf(),
        ensures
            final(self).wf(),
            match first_index(old(self)@.layers, layer_local(layer)) {
                Some(i) => match stack_move(old(self)@.layers, i, up) {
                    Some(t) => final(self)@ == (SceneView { layers: t, ..old(self)@ }) && e == match old(
                        self,
                    )@.layers[i].canonical_id {
                        Some(c) => Some(SceneEvent::LayerMove(c, old(self)@.layers[i].z, up)),
                        None => None,
                    },
                    None => final(self)@ == old(self)@ && e is None,
                },
                None => final(self)@ == old(self)@ && e is None,
            },
    {
        let i = match self.layer_index_local(layer) {
            Some(i) => i,
            None => return None,
        };
        let z = self.layers[i].z;
        let c = self.layers[i].canonical_id;
        if self.move_layer_at(i, up) {
            match c {
                Some(c) => Some(SceneEvent::LayerMove(c, z, up)),
                None => None,
            }
        } else {
            None
        }
    }

    pub(crate) fn sprite_loc_local(&self, local_id: Id) -> (r: Option<(usize, usize)>)
        ensures
            match r {
                Some((i, k)) => find_sprite_local(self@.layers, local_id) == Some((i as int, k as int))
                    && i < self@.layers.len() && k < self@.layers[i as int].sprites.len(),
                None => find_sprite_local(self@.layers, local_id) is None,
            },
    {
        let mut i: usize = 0;
        while i < self.layers.len()
            invariant
                0 <= i <= self@.layers.len(),
                forall|j: int| 0 <= j < i ==> !has_sprite_local(local_id)(#[trigger] self@.layers[j]),
            decreases self@.layers.len() - i,
        {
            match self.layers[i].sprite_index(local_id) {
                Some(k) => {
                    proof {
                        assert(self@.layers[i as int] == self.layers@[i as int]@);
                        assert(is_first(self@.layers, has_sprite_local(local_id), i as int));
                        lemma_first_index_is(self@.layers, has_sprite_local(local_id), i as int);
                    }
                    return Some((i, k));
                },
                None => {
                    assert(self@.layers[i as int] == self.layers@[i as int]@);
                },
            }
            i += 1;
        }
        proof {
            lemma_first_index_none(self@.layers, has_sprite_local(local_id));
        }
        None
    }

    pub(crate) fn sprite_loc_canonical(&self, canonical_id: Id) -> (r: Option<(usize, usize)>)
        ensures
            match r {
                Some((i, k)) => find_sprite_canon(self@.layers, canonical_id) == Some((i as int, k as int))
                    && i < self@.layers.len() && k < self@.layers[i as int].sprites.len(),
                None => find_sprite_canon(self@.layers, canonical_id) is None,
            },
    {
        let mut i: usize = 0;
        while i < self.layers.len()
            invariant
                0 <= i <= self@.layers.len(),
                forall|j: int| 0 <= j < i ==> !has_sprite_canon(canonical_id)(#[trigger] self@.layers[j]),
            decreases self@.layers.len() - i,
        {
            match self.layers[i].sprite_canonical(canonical_id) {
                Some(k) => {
                    proof {
                        assert(self@.layers[i as int] == self.layers@[i as int]@);
                        assert(is_first(self@.layers, has_sprite_canon(canonical_id), i as int));
                        lemma_first_index_is(self@.layers, has_sprite_canon(canonical_id), i as int);
                    }
                    return Some((i, k));
                },
                None => {
                    assert(self@.layers[i as int] == self.layers@[i as int]@);
                },
            }
            i += 1;
        }
        proof {
            lemma_first_index_none(self@.layers, has_sprite_canon(canonical_id));
        }
        None
    }

    /// The first sprite with local id `local_id`, searching from the top layer.
    pub fn sprite(&self, local_id: Id) -> (r: Option<Sprite>)
        ensures
            r == sprite_at_loc(self@.layers, find_sprite_local(self@.layers, local_id)),
    {
        match self.sprite_loc_local(local_id) {
            Some((i, k)) => {
                assert(self@.layers[i as int] == self.layers@[i as int]@);
                Some(self.layers[i].sprites[k])
            },
            None => None,
        }
    }

    /// The first sprite with canonical id `canonical_id`.
    pub fn sprite_canonical_ref(&self, canonical_id: Id) -> (r: Option<Sprite>)
        ensures
            r == sprite_at_loc(self@.layers, find_sprite_canon(self@.layers, canonical_id)),
    {
        match self.sprite_loc_canonical(canonical_id) {
            Some((i, k)) => {
                assert(self@.layers[i as int] == self.layers@[i as int]@);
                Some(self.layers[i].sprites[k])
            },
            None => None,
        }
    }

    /// Replaces the sprite at (`i`, `k`).
    pub(crate) fn put_sprite(&mut self, i: usize, k: usize, sprite: Sprite)
        requires
            i < old(self)@.layers.len(),
            k < old(self)@.layers[i as int].sprites.len(),
        ensures
            final(self)@ == set_sprite(old(self)@, i as int, k as int, sprite),
    {
        let ghost before = self@;
        assert(before.layers[i as int] == self.layers@[i as int]@);
        self.layers[i].sprites.set(k, sprite);
        assert(self@.layers =~= set_sprite(before, i as int, k as int, sprite).layers);
    }

    /// The topmost sprite under `at` that can be grabbed: sprites of locked
    /// or hidden layers cannot.
    pub fn sprite_at(&self, at: ScenePoint) -> (r: Option<Sprite>)
        ensures
            r == scene_sprite_at(self@.layers, at),
    {
        let mut i: usize = 0;
        while i < self.layers.len()
            invariant
                0 <= i <= self@.layers.len(),
                forall|j: int| 0 <= j < i ==> !grabbable_at(at)(#[trigger] self@.layers[j]),
            decreases self@.layers.len() - i,
        {
            assert(self@.layers[i as int] == self.layers@[i as int]@);
            if self.layers[i].selectable() {
                match self.layers[i].sprite_at(at) {
                    Some(s) => {
                        proof {
                            assert(is_first(self@.layers, grabbable_at(at), i as int));
                            lemma_first_index_is(self@.layers, grabbable_at(at), i as int);
                        }
                        return Some(s);
                    },
                    None => {},
                }
            }
            i += 1;
        }
        proof {
            lemma_first_index_none(self@.layers, grabbable_at(at));
        }
        None
    }

    /// Local ids of the sprites wholly in `region` on layers whose sprites
    /// can be selected.
    pub fn sprites_in(&self, region: Rect) -> (r: Vec<Id>)
        ensures
            r@ == scene_ids_in(self@.layers, region),
    {
        let mut ids: Vec<Id> = Vec::new();
        let mut i: usize = 0;
        while i < self.layers.len()
            invariant
                0 <= i <= self@.layers.len(),
                ids@ == scene_ids_in(self@.layers.take(i as int), region),
            decreases self@.layers.len() - i,
        {
            assert(self@.layers.take(i + 1).drop_last() =~= self@.layers.take(i as int));
            assert(self@.layers[i as int] == self.layers@[i as int]@);
            if self.layers[i].selectable() {
                let mut more = self.layers[i].sprites_in(region);
                let ghost before = ids@;
                ids.append(&mut more);
                assert(ids@ =~= before + ids_in(self@.layers[i as int].sprites, region));
            }
            i += 1;
        }
        assert(self@.layers.take(i as int) =~= self@.layers);
        ids
    }

    /// Adds a sprite to the layer with local id `layer` (the top layer for
    /// 0). Returns the event that records it where the layer has a canonical
    /// id; false in the first place where there is no such layer, or where
    /// the sprite's local id is not one this scene has handed out.
    pub fn add_sprite(&mut self, sprite: Sprite, layer: Id) -> (r: (bool, Option<SceneEvent>))
        requires
            old(self).wf(),
        ensures
            final(self).wf(),
            match find_layer(old(self)@.layers, layer) {
                Some(i) if sprite.local_id < old(self).next_id => {
                    &&& r.0
                    &&& final(self)@ == set_layer(old(self)@, i, layer_with(old(self)@.layers[i], sprite))
                    &&& r.1 == match old(self)@.layers[i].canonical_id {
                        Some(c) => Some(SceneEvent::SpriteNew(sprite, c)),
                        None => None,
                    }
                },
                _ => !r.0 && r.1 is None && final(self)@ == old(self)@,
            },
    {
        if sprite.local_id >= self.next_id {
            return (false, None);
        }
        match self.layer_index(layer) {
            Some(i) => {
                let ghost before = self@;
                assert(before.layers[i as int] == self.layers@[i as int]@);
                proof {
                    lemma_layer_with_ok(before.layers[i as int], sprite, self.next_id as int);
                }
                self.layers[i].add_sprite(sprite);
                assert(self@.layers =~= before.layers.update(i as int, layer_with(before.layers[i as int], sprite)));
                let e = match self.layers[i].canonical_id {
                    Some(c) => Some(SceneEvent::SpriteNew(sprite, c)),
                    None => None,
                };
                (true, e)
            },
            None => (false, None),
        }
    }

    /// Adds each sprite of `sprites` in turn to the layer with local id
    /// `layer` (the top layer for 0), if there is one and every sprite's
    /// local id is one this scene has handed out.
    pub fn add_sprites(&mut self, sprites: Vec<Sprite>, layer: Id)
        requires
            old(self).wf(),
        ensures
            final(self).wf(),
            if forall|k: int| 0 <= k < sprites@.len() ==> (#[trigger] sprites@[k]).local_id < old(self).next_id {
                match find_layer(old(self)@.layers, layer) {
                    Some(i) => final(self)@ == set_layer(
                        old(self)@,
                        i,
                        layer_with_all(old(self)@.layers[i], sprites@),
                    ),
                    None => final(self)@ == old(self)@,
                }
            } else {
                final(self)@ == old(self)@
            },
    {
        if !ids_below(&sprites, self.next_id) {
            return;
        }
        let mut more = sprites;
        match self.layer_index(layer) {
            Some(i) => {
                let ghost before = self@;
                let ghost given = more@;
                assert(before.layers[i as int] == self.layers@[i as int]@);
                proof {
                    lemma_layer_with_all_ok(before.layers[i as int], given, self.next_id as int);
                }
                self.layers[i].add_sprites(&mut more);
                assert(self@.layers =~= before.layers.update(i as int, layer_with_all(before.layers[i as int], given)));
                proof {
                    lemma_layer_with_all_keeps(before.layers[i as int], given);
                }
            },
            None => {},
        }
    }

    fn first_below_index(&self, z: i64) -> (r: usize)
        ensures
            r == first_below(self@.layers, z as int),
    {
        let mut i: usize = 0;
        while i < self.layers.len()
            invariant
                0 <= i <= self@.layers.len(),
                forall|j: int| 0 <= j < i ==> !layer_below(z as int)(#[trigger] self@.layers[j]),
            decreases self@.layers.len() - i,
        {
            assert(self@.layers[i as int] == self.layers@[i as int]@);
            if (self.layers[i].z as i64) < z {
                proof {
                    assert(is_first(self@.layers, layer_below(z as int), i as int));
                    lemma_first_index_is(self@.layers, layer_below(z as int), i as int);
                }
                return i;
            }
            i += 1;
        }
        proof {
            lemma_first_index_none(self@.layers, layer_below(z as int));
        }
        i
    }

    /// Sorts the layers from the highest z down, keeping the order of layers
    /// of equal z, and renumbers them so that z is `f - 1` down to 0 over
    /// the `f` layers that were at 0 or above, and -1 downwards below them.
    pub fn sort_layers(&mut self)
        requires
            old(self)@.layers.len() < i32::MAX,
        ensures
            final(self)@ == (SceneView { layers: sorted_stack(old(self)@.layers), ..old(self)@ }),
            stacked(final(self)@.layers),
    {
        let ghost orig = self@.layers;
        let mut rest: Vec<Layer> = Vec::new();
        std::mem::swap(&mut rest, &mut self.layers);
        let ghost base = self@;
        let mut k: usize = 0;
        while rest.len() > 0
            invariant
                orig.len() < i32::MAX,
                k <= orig.len(),
                views(rest@) == orig.skip(k as int),
                self@.layers == sort_desc(orig.take(k as int)),
                self@ == (SceneView { layers: self@.layers, ..base }),
            decreases rest@.len(),
        {
            assert(views(rest@).len() == rest@.len());
            let ghost prev = rest@;
            let l = rest.remove(0);
            proof {
                assert(orig.skip(k as int)[0] == orig[k as int]);
                assert(views(prev)[0] == prev[0]@);
                assert forall|m: int| 0 <= m < rest@.len() implies views(rest@)[m] == orig.skip(k + 1)[m] by {
                    assert(views(prev)[m + 1] == orig.skip(k as int)[m + 1]);
                }
                assert(views(rest@) =~= orig.skip(k + 1));
                assert(orig.take(k + 1).drop_last() =~= orig.take(k as int));
                lemma_sort_desc_len(orig.take(k as int));
            }
            let p = self.first_below_index(l.z as i64);
            let ghost before = self@.layers;
            self.layers.insert(p, l);
            assert(self@.layers =~= before.insert(p as int, l@));
            k += 1;
        }
        proof {
            assert(orig.skip(k as int).len() == 0);
            assert(orig.take(k as int) =~= orig);
            lemma_sort_desc_len(orig);
        }
        let f = self.first_below_index(0);
        self.renumber_layers(f);
        proof {
            lemma_renumber_stacked(sort_desc(orig), f as int);
        }
    }

    /// A scene of the given layers, sorted and renumbered, that hands out
    /// local ids from `next_id`.
    pub fn new_with_layers(layers: Vec<Layer>, next_id: Id) -> (r: Scene)
        requires
            layers@.len() < i32::MAX,
            next_id >= 1,
            layers_ok(views(layers@), next_id as int),
        ensures
            r.wf(),
            r@ == (SceneView {
                id: None,
                canon: false,
                layers: sorted_stack(views(layers@)),
                removed_layers: Seq::empty(),
                title: None,
                project: None,
                w: DEFAULT_SIZE,
                h: DEFAULT_SIZE,
                next_id,
            }),
    {
        let mut scene = Scene {
            id: None,
            canon: false,
            layers,
            removed_layers: Vec::new(),
            title: None,
            project: None,
            w: DEFAULT_SIZE,
            h: DEFAULT_SIZE,
            next_id,
        };
        assert(scene@.removed_layers =~= Seq::empty());
        proof {
            lemma_sort_desc_ok(views(layers@), next_id as int);
            let t = sort_desc(views(layers@));
            lemma_renumber_ok(t, first_below(t, 0), next_id as int);
        }
        scene.sort_layers();
        scene
    }

    /// A scene with a foreground layer over two background layers.
    pub fn new() -> (r: Scene)
        ensures
            r.wf(),
            r@ == default_scene(),
    {
        let layers = vec![
            Layer::new(1, "Foreground", 0),
            Layer::new(2, "Scenery", -1),
            Layer::new(3, "Background", -2),
        ];
        let r = Scene {
            id: None,
            canon: false,
            layers,
            removed_layers: Vec::new(),
            title: None,
            project: None,
            w: DEFAULT_SIZE,
            h: DEFAULT_SIZE,
            next_id: 4,
        };
        assert(r@.layers[0] == r.layers@[0]@);
        assert(r@.layers[1] == r.layers@[1]@);
        assert(r@.layers[2] == r.layers@[2]@);
        assert(r@.layers =~= default_scene().layers);
        assert(r@.removed_layers =~= Seq::<LayerView>::empty());
        r
    }

    /// A copy of the scene.
    pub fn duplicate(&self) -> (r: Scene)
        ensures
            r@ == self@,
    {
        let mut layers: Vec<Layer> = Vec::new();
        let mut i: usize = 0;
        while i < self.layers.len()
            invariant
                0 <= i <= self.layers@.len(),
                layers@.len() == i,
                views(layers@) == views(self.layers@).take(i as int),
            decreases self.layers@.len() - i,
        {
            let ghost prev = layers@;
            layers.push(self.layers[i].duplicate());
            assert forall|m: int| 0 <= m < i + 1 implies views(layers@)[m] == views(self.layers@).take(i + 1)[m] by {
                if m < i {
                    assert(views(prev)[m] == views(self.layers@).take(i as int)[m]);
                    assert(layers@[m] == prev[m]);
                } else {
                    assert(views(self.layers@)[m] == self.layers@[m]@);
                }
            }
            assert(views(layers@) =~= views(self.layers@).take(i + 1));
            i += 1;
        }
        let mut removed: Vec<Layer> = Vec::new();
        let mut j: usize = 0;
        while j < self.removed_layers.len()
            invariant
                0 <= j <= self.removed_layers@.len(),
                removed@.len() == j,
                views(removed@) == views(self.removed_layers@).take(j as int),
            decreases self.removed_layers@.len() - j,
        {
            let ghost prev = removed@;
            removed.push(self.removed_layers[j].duplicate());
            assert forall|m: int| 0 <= m < j + 1 implies views(removed@)[m] == views(self.removed_layers@).take(j + 1)[m] by {
                if m < j {
                    assert(views(prev)[m] == views(self.removed_layers@).take(j as int)[m]);
                    assert(removed@[m] == prev[m]);
                } else {
                    assert(views(self.removed_layers@)[m] == self.removed_layers@[m]@);
                }
            }
            assert(views(removed@) =~= views(self.removed_layers@).take(j + 1));
            j += 1;
        }
        assert(views(layers@) =~= views(self.layers@));
        assert(views(removed@) =~= views(self.removed_layers@));
        let title = match &self.title {
            Some(t) => Some(t.clone()),
            None => None,
        };
        Scene {
            id: self.id,
            canon: self.canon,
            layers,
            removed_layers: removed,
            title,
            project: self.project,
            w: self.w,
            h: self.h,
            next_id: self.next_id,
        }
    }

    /// A copy of the scene that is not the authoritative one.
    pub fn non_canon(&self) -> (r: Scene)
        ensures
            r@ == (SceneView { canon: false, ..self@ }),
    {
        let mut r = self.duplicate();
        r.canon = false;
        r
    }

    /// Binds the first sprite with local id `local_id` to `canonical_id`.
    fn set_canonical_id(&mut self, local_id: Id, canonical_id: Id)
        ensures
            final(self)@ == match find_sprite_local(old(self)@.layers, local_id) {
                Some((i, k)) => set_sprite(old(self)@, i, k, Sprite {
                    canonical_id: Some(canonical_id),
                    ..old(self)@.layers[i].sprites[k]
                }),
                None => old(self)@,
            },
    {
        match self.sprite_loc_local(local_id) {
            Some((i, k)) => {
                assert(self@.layers[i as int] == self.layers@[i as int]@);
                let s = Sprite { canonical_id: Some(canonical_id), ..self.layers[i].sprites[k] };
                self.put_sprite(i, k, s);
            },
            None => {},
        }
    }

    /// Binds the layer with local id `local_id` (the top layer for 0) to `canonical_id`.
    fn set_canonical_layer_id(&mut self, local_id: Id, canonical_id: Id)
        ensures
            final(self)@ == match find_layer(old(self)@.layers, local_id) {
                Some(i) => set_layer(old(self)@, i, LayerView {
                    canonical_id: Some(canonical_id),
                    ..old(self)@.layers[i]
                }),
                None => old(self)@,
            },
    {
        match self.layer_index(local_id) {
            Some(i) => {
                let ghost before = self@;
                self.layers[i].canonical_id = Some(canonical_id);
                assert(self@.layers =~= before.layers.update(i as int, LayerView { canonical_id: Some(canonical_id), ..before.layers[i as int] }));
            },
            None => {},
        }
    }

    /// Binds the canonical id that an acknowledgement of a creation carries
    /// to the object the requester created; other acknowledgements change nothing.
    pub fn apply_ack(&mut self, ack: &SceneEventAck)
        requires
            old(self).wf(),
        ensures
            final(self).wf(),
            final(self)@ == ack_result(old(self)@, *ack),
    {
        match *ack {
            SceneEventAck::SpriteNew(local_id, Some(canonical_id)) => {
                if self.sprite_loc_canonical(canonical_id).is_none() {
                    self.set_canonical_id(local_id, canonical_id);
                }
            },
            SceneEventAck::LayerNew(local_id, Some(canonical_id)) => {
                if self.layer_index_canonical(canonical_id).is_none() {
                    self.set_canonical_layer_id(local_id, canonical_id);
                }
            },
            _ => {},
        }
    }

    /// Applies an edit to the first sprite with local id `local_id`,
    /// returning the event that records it.
    pub fn edit_sprite(&mut self, local_id: Id, edit: SpriteEdit) -> (e: Option<SceneEvent>)
        requires
            old(self).wf(),
        ensures
            final(self).wf(),
            match find_sprite_local(old(self)@.layers, local_id) {
                Some((i, k)) => {
                    let sp = old(self)@.layers[i].sprites[k];
                    final(self)@ == set_sprite(old(self)@, i, k, edited(sp, edit)) && e == edit_event(sp, edit)
                },
                None => final(self)@ == old(self)@ && e is None,
            },
    {
        match self.sprite_loc_local(local_id) {
            Some((i, k)) => {
                assert(self@.layers[i as int] == self.layers@[i as int]@);
                let mut sp = self.layers[i].sprites[k];
                let e = sp.edit(edit);
                self.put_sprite(i, k, sp);
                e
            },
            None => None,
        }
    }

    /// The layer an event is about, if the scene has it.
    pub fn event_layer(&self, event: &SceneEvent) -> (r: Option<&Layer>)
        ensures
            layer_ref_at(self@.layers, event_layer_index(self@.layers, *event), r),
    {
        let i = match event {
            SceneEvent::LayerLockedChange(c, _, _) => self.layer_index_canonical(*c),
            SceneEvent::LayerMove(c, _, _) => self.layer_index_canonical(*c),
            SceneEvent::LayerRemove(c) => self.layer_index_canonical(*c),
            SceneEvent::LayerRename(c, _, _) => self.layer_index_canonical(*c),
            SceneEvent::LayerVisibilityChange(c, _, _) => self.layer_index_canonical(*c),
            SceneEvent::SpriteNew(_, lc) => self.layer_index_canonical(*lc),
            SceneEvent::SpriteRemove(_, lc) => self.layer_index_canonical(*lc),
            SceneEvent::LocalSpriteMove(l, _, _) => match self.sprite_loc_local(*l) {
                Some((i, _)) => Some(i),
                None => None,
            },
            SceneEvent::SpriteMove(c, _, _) => match self.sprite_loc_canonical(*c) {
                Some((i, _)) => Some(i),
                None => None,
            },
            SceneEvent::SpriteTextureChange(c, _, _) => match self.sprite_loc_canonical(*c) {
                Some((i, _)) => Some(i),
                None => None,
            },
            _ => None,
        };
        match i {
            Some(i) => Some(&self.layers[i]),
            None => None,
        }
    }

    /// A one-tile sprite showing `texture`, under the next local id, on the
    /// layer with local id `layer` (the top layer for 0). Returns the event
    /// that records it where the layer has a canonical id.
    pub fn new_sprite(&mut self, texture: Id, layer: Id) -> (e: Option<SceneEvent>)
        requires
            old(self).wf(),
        ensures
            final(self).wf(),
            match find_layer(old(self)@.layers, layer) {
                Some(i) => if old(self).next_id < Id::MAX {
                    let sp = Sprite::new_spec(old(self).next_id, texture);
                    &&& final(self)@ == SceneView {
                        layers: old(self)@.layers.update(i, layer_with(old(self)@.layers[i], sp)),
                        next_id: (old(self).next_id + 1) as Id,
                        ..old(self)@
                    }
                    &&& e == match old(self)@.layers[i].canonical_id {
                        Some(c) => Some(SceneEvent::SpriteNew(sp, c)),
                        None => None,
                    }
                } else {
                    final(self)@ == old(self)@ && e is None
                },
                None => final(self)@ == old(self)@ && e is None,
            },
    {
        if self.layer_index(layer).is_none() {
            return None;
        }
        let id = match self.allocate_id() {
            Some(id) => id,
            None => return None,
        };
        let (_, e) = self.add_sprite(Sprite::new(id, texture), layer);
        e
    }

    /// Gives every layer and sprite a new local id from this scene's
    /// supply, layer by layer from the top, each layer before its sprites.
    /// Canonical ids stay.
    pub fn refresh_local_ids(&mut self)
        requires
            old(self).wf(),
            old(self).next_id + id_demand(old(self)@.layers) < Id::MAX,
        ensures
            final(self).wf(),
            final(self).next_id == old(self).next_id + id_demand(old(self)@.layers),
            final(self)@ == (SceneView {
                layers: final(self)@.layers,
                next_id: final(self).next_id,
                ..old(self)@
            }),
            final(self)@.layers.len() == old(self)@.layers.len(),
            forall|j: int|
                0 <= j < old(self)@.layers.len() ==> #[trigger] final(self)@.layers[j] == refreshed(
                    old(self)@.layers[j],
                    old(self).next_id + id_demand(old(self)@.layers.take(j)),
                ),
    {
        let ghost s = self@;
        let mut i: usize = 0;
        while i < self.layers.len()
            invariant
                0 <= i <= s.layers.len(),
                self@.layers.len() == s.layers.len(),
                stacked(s.layers),
                s.next_id >= 1,
                s.next_id + id_demand(s.layers) < Id::MAX,
                self.next_id == s.next_id + id_demand(s.layers.take(i as int)),
                self@ == (SceneView { layers: self@.layers, next_id: self.next_id, ..s }),
                forall|j: int| 0 <= j < i ==> #[trigger] self@.layers[j] == refreshed(s.layers[j], s.next_id + id_demand(s.layers.take(j))),
                forall|j: int| i <= j < s.layers.len() ==> #[trigger] self@.layers[j] == s.layers[j],
            decreases s.layers.len() - i,
        {
            proof {
                lemma_id_demand_take(s.layers, i as int);
                lemma_id_demand_nonneg(s.layers.take(i as int));
            }
            let ghost before = self@;
            assert(self@.layers[i as int] == self.layers@[i as int]@);
            let first = self.next_id;
            let next = self.layers[i].refresh_local_ids(first);
            assert(self@.layers[i as int].sprites =~= refreshed(s.layers[i as int], first as int).sprites);
            assert(self@.layers[i as int] == refreshed(s.layers[i as int], first as int));
            assert(self@.layers =~= before.layers.update(i as int, refreshed(s.layers[i as int], first as int)));
            self.next_id = next;
            i += 1;
        }
        proof {
            assert(s.layers.take(i as int) =~= s.layers);
            lemma_id_demand_nonneg(s.layers);
            assert forall|j: int| 0 <= j < self@.layers.len() implies layer_ok(#[trigger] self@.layers[j], self.next_id as int) by {
                let first = s.next_id + id_demand(s.layers.take(j));
                lemma_id_demand_take(s.layers, j);
                assert(layer_ok(s.layers[j], s.next_id as int));
                let r = self@.layers[j];
                assert(r == refreshed(s.layers[j], first));
                lemma_id_demand_nonneg(s.layers.take(j));
                assert(first + 1 + s.layers[j].sprites.len() <= self.next_id);
                assert(r.local_id < self.next_id);
                assert forall|k: int| 0 <= k < r.sprites.len() implies (#[trigger] r.sprites[k]).local_id < self.next_id by {
                    assert(r.sprites[k].local_id == first + 1 + k);
                }
                assert forall|a: int, b: int| 0 <= a < b < r.sprites.len() implies #[trigger] r.sprites[a].z <= #[trigger] r.sprites[b].z by {
                    assert(s.layers[j].sprites[a].z <= s.layers[j].sprites[b].z);
                }
            }
            assert forall|j: int| 0 <= j < self@.removed_layers.len() implies layer_ok(#[trigger] self@.removed_layers[j], self.next_id as int) by {
                assert(layer_ok(s.removed_layers[j], s.next_id as int));
            }
            assert forall|j: int| 0 <= j < self@.layers.len() implies (#[trigger] self@.layers[j]).z == s.layers[j].z by {}
            if s.layers.len() > 0 {
                assert(self@.layers[0].z == s.layers[0].z);
            }
            assert(fg_count(self@.layers) == fg_count(s.layers));
            assert forall|j: int| 0 <= j < self@.layers.len() implies (#[trigger] self@.layers[j]).z == fg_count(self@.layers) - 1 - j by {
                assert(s.layers[j].z == fg_count(s.layers) - 1 - j);
            }
        }
    }

    /// Drops the kept copies of the layer with canonical id
    /// `layer_canonical`, once its removal is confirmed.
    pub fn purge_removed_layer(&mut self, layer_canonical: Id)
        requires
            old(self).wf(),
        ensures
            final(self).wf(),
            final(self)@ == (SceneView {
                removed_layers: old(self)@.removed_layers.filter(layer_not_canon(layer_canonical)),
                ..old(self)@
            }),
    {
        let ghost orig = self@.removed_layers;
        let ghost keep = layer_not_canon(layer_canonical);
        let ghost base = self@;
        let n = self.removed_layers.len();
        let mut rest: Vec<Layer> = Vec::new();
        std::mem::swap(&mut rest, &mut self.removed_layers);
        proof {
            reveal(Seq::filter);
            assert(orig.take(0).len() == 0);
            assert(self@.removed_layers =~= orig.take(0).filter(keep));
            assert(views(rest@) =~= orig.skip(0));
        }
        let mut k: usize = 0;
        while rest.len() > 0
            invariant
                k <= orig.len(),
                k + rest@.len() == orig.len(),
                orig.len() == n,
                keep == layer_not_canon(layer_canonical),
                views(rest@) == orig.skip(k as int),
                self@ == (SceneView { removed_layers: orig.take(k as int).filter(keep), ..base }),
            decreases rest@.len(),
        {
            assert(views(rest@).len() == rest@.len());
            let ghost prev = rest@;
            let l = rest.remove(0);
            proof {
                reveal(Seq::filter);
                assert(orig.skip(k as int)[0] == orig[k as int]);
                assert(views(prev)[0] == prev[0]@);
                assert forall|m: int| 0 <= m < rest@.len() implies views(rest@)[m] == orig.skip(k + 1)[m] by {
                    assert(views(prev)[m + 1] == orig.skip(k as int)[m + 1]);
                }
                assert(views(rest@) =~= orig.skip(k + 1));
                let t = orig.take(k + 1);
                assert(t.drop_last() =~= orig.take(k as int));
                assert(t.last() == orig[k as int]);
                assert(t.filter(keep) == if keep(t.last()) {
                    t.drop_last().filter(keep).push(t.last())
                } else {
                    t.drop_last().filter(keep)
                });
            }
            if l.canonical_id != Some(layer_canonical) {
                let ghost before = self@.removed_layers;
                self.removed_layers.push(l);
                assert(self@.removed_layers =~= before.push(l@));
            }
            k += 1;
        }
        proof {
            assert(orig.skip(k as int).len() == 0);
            assert(orig.take(k as int) =~= orig);
            assert forall|j: int| 0 <= j < self@.removed_layers.len() implies layer_ok(#[trigger] self@.removed_layers[j], self.next_id as int) by {
                assert(orig.filter(keep).contains(self@.removed_layers[j]));
                orig.lemma_filter_contains_rev(keep, self@.removed_layers[j]);
            }
        }
    }

    /// Whether a scene received whole can be taken in.
    pub fn is_acceptable(&self) -> (r: bool)
        ensures
            r == acceptable(self@),
    {
        if self.layers.len() >= i32::MAX as usize || self.next_id < 1 {
            return false;
        }
        all_ok(&self.layers, self.next_id) && all_ok(&self.removed_layers, self.next_id)
    }
}

/// Whether every layer of `v` is in order with ids below `n`.
fn all_ok(v: &Vec<Layer>, n: Id) -> (r: bool)
    ensures
        r == layers_ok(views(v@), n as int),
{
    let mut j: usize = 0;
    while j < v.len()
        invariant
            0 <= j <= v@.len(),
            forall|k: int| 0 <= k < j ==> layer_ok(#[trigger] views(v@)[k], n as int),
        decreases v@.len() - j,
    {
        assert(views(v@)[j as int] == v@[j as int]@);
        if !v[j].is_ok(n) {
            return false;
        }
        j += 1;
    }
    true
}

/// Whether every sprite of `v` has a local id below `n`.
fn ids_below(v: &Vec<Sprite>, n: Id) -> (r: bool)
    ensures
        r == forall|k: int| 0 <= k < v@.len() ==> (#[trigger] v@[k]).local_id < n,
{
    let mut k: usize = 0;
    while k < v.len()
        invariant
            0 <= k <= v@.len(),
            forall|j: int| 0 <= j < k ==> (#[trigger] v@[j]).local_id < n,
        decreases v@.len() - k,
    {
        if v[k].local_id >= n {
            assert(!(v@[k as int].local_id < n));
            return false;
        }
        k += 1;
    }
    true
}

} // verus!
