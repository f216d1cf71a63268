use vstd::prelude::*;

use crate::apply::{latest_layer, latest_sprite, layer_origin, sprite_created, apply_one, apply_result, apply_set, unwind_one, unwind_result, unwind_set};
use crate::event::{SceneEvent, SceneEventAck};
use crate::geom::{Rect, ScenePoint};
use crate::interactor::{approved_scene, message_is, message_other, ClientMessage};
use crate::layer::{layer_ok, sprite_canon, LayerView};
use crate::pointer::{anchor_dist2, anchor_of, anchor_limit, anchor_pick, anchor_scan};
use crate::scene::{
    well_formed, fg_count, find_sprite_canon, find_sprite_local, has_sprite_canon, layer_canon, layer_slot, lemma_renumber_stacked, sorted_slot, stack_add,
    renumber, set_sprite, stack_insert, stack_move, stack_remove, stacked, swapped, with_z,
    SceneView,
};
use crate::search::{
    first_index, is_first, is_last, lemma_first_index_agree, lemma_first_index_facts,
    lemma_first_index_is, lemma_first_index_none, lemma_last_index_is,
};
use crate::sprite::Sprite;
use crate::Id;

verus! {

proof fn lemma_with_own_z(l: LayerView)
    ensures
        with_z(l, l.z as int) == l,
{
}

/// Renumbering a stack for the number of foreground layers it has changes nothing.
proof fn lemma_renumber_same(s: Seq<LayerView>)
    requires
        stacked(s),
    ensures
        renumber(s, fg_count(s)) == s,
{
    assert forall|j: int| 0 <= j < s.len() implies #[trigger] renumber(s, fg_count(s))[j] == s[j] by {
        lemma_with_own_z(s[j]);
    }
    assert(renumber(s, fg_count(s)) =~= s);
}

/// Where the layer at `i` stands after it moved.
pub open spec fn moved_index(s: Seq<LayerView>, i: int, up: bool) -> int {
    let f = fg_count(s);
    if up {
        if i == f { i } else { i - 1 }
    } else {
        if i + 1 == f { i } else { i + 1 }
    }
}

/// A move of a layer, followed by the opposite move of the same layer,
/// leaves the stack as it was.
proof fn lemma_stack_move_back(s: Seq<LayerView>, i: int, up: bool)
    requires
        stacked(s),
        0 <= i < s.len(),
        stack_move(s, i, up) is Some,
    ensures
        ({
            let t = stack_move(s, i, up)->Some_0;
            let j = moved_index(s, i, up);
            &&& t.len() == s.len()
            &&& 0 <= j < t.len()
            &&& stacked(t)
            &&& t[j] == with_z(s[i], t[j].z as int)
            &&& stack_move(t, j, !up) == Some(s)
            &&& forall|m: int| 0 <= m < t.len() && m != j ==> exists|q: int| 0 <= q < s.len() && q != i && #[trigger] t[m] == with_z(s[q], t[m].z as int)
        }),
{
    let f = fg_count(s);
    let n = s.len() as int;
    let t = stack_move(s, i, up)->Some_0;
    if up {
        if i == f {
            lemma_renumber_stacked(s, f + 1);
            assert(renumber(t, f) =~= s);
            assert forall|m: int| 0 <= m < t.len() && m != i implies exists|q: int| 0 <= q < s.len() && q != i && #[trigger] t[m] == with_z(s[q], t[m].z as int) by {
                assert(t[m] == with_z(s[m], t[m].z as int));
            }
        } else {
            let w = swapped(s, i - 1, i);
            lemma_renumber_stacked(w, f);
            assert(renumber(swapped(t, i - 1, i), f) =~= s);
            assert forall|m: int| 0 <= m < t.len() && m != i - 1 implies exists|q: int| 0 <= q < s.len() && q != i && #[trigger] t[m] == with_z(s[q], t[m].z as int) by {
                if m == i {
                    assert(t[m] == with_z(s[i - 1], t[m].z as int));
                } else {
                    assert(t[m] == with_z(s[m], t[m].z as int));
                }
            }
        }
    } else {
        if i + 1 == f {
            lemma_renumber_stacked(s, f - 1);
            assert(renumber(t, f) =~= s);
            assert forall|m: int| 0 <= m < t.len() && m != i implies exists|q: int| 0 <= q < s.len() && q != i && #[trigger] t[m] == with_z(s[q], t[m].z as int) by {
                assert(t[m] == with_z(s[m], t[m].z as int));
            }
        } else {
            let w = swapped(s, i, i + 1);
            lemma_renumber_stacked(w, f);
            assert(renumber(swapped(t, i, i + 1), f) =~= s);
            assert forall|m: int| 0 <= m < t.len() && m != i + 1 implies exists|q: int| 0 <= q < s.len() && q != i && #[trigger] t[m] == with_z(s[q], t[m].z as int) by {
                if m == i {
                    assert(t[m] == with_z(s[i + 1], t[m].z as int));
                } else {
                    assert(t[m] == with_z(s[m], t[m].z as int));
                }
            }
        }
    }
}

/// Putting back a removed layer with the z it had restores the stack.
proof fn lemma_remove_insert(s: Seq<LayerView>, i: int)
    requires
        stacked(s),
        0 <= i < s.len(),
    ensures
        stack_insert(stack_remove(s, i), s[i]) == s,
{
    let f = fg_count(s);
    let nf = if i < f { f - 1 } else { f };
    let u = s.remove(i);
    let t = stack_remove(s, i);
    lemma_renumber_stacked(u, nf);
    assert(fg_count(t) == nf);
    assert(layer_slot(t.len() as int, nf, s[i].z as int) == i);
    let v = t.insert(i, s[i]);
    assert forall|j: int| 0 <= j < s.len() implies #[trigger] renumber(v, f)[j] == s[j] by {
        lemma_with_own_z(s[j]);
    }
    assert(renumber(v, f) =~= s);
}

/// On the authoritative scene, a move of a sprite that starts from a
/// rectangle other than the sprite's own is rejected and changes nothing.
pub proof fn lemma_stale_move_rejected(s: SceneView, c: Id, from: Rect, to: Rect)
    requires
        s.canon,
        find_sprite_canon(s.layers, c) matches Some((i, k)) && s.layers[i].sprites[k].rect != from,
    ensures
        apply_result(s, SceneEvent::SpriteMove(c, from, to)) == (s, SceneEventAck::Rejection),
{
}

/// Changing a sprite in place, canonical id kept, leaves where each
/// canonical id is found as it was.
proof fn lemma_find_sprite_after_set(s: SceneView, i: int, k: int, sp: Sprite, c: Id)
    requires
        0 <= i < s.layers.len(),
        0 <= k < s.layers[i].sprites.len(),
        sp.canonical_id == s.layers[i].sprites[k].canonical_id,
    ensures
        find_sprite_canon(set_sprite(s, i, k, sp).layers, c) == find_sprite_canon(s.layers, c),
{
    let t = set_sprite(s, i, k, sp).layers;
    assert forall|j: int| 0 <= j < s.layers.len() implies has_sprite_canon(c)(#[trigger] s.layers[j])
        == has_sprite_canon(c)(t[j]) by {
        if j == i {
            assert forall|m: int| 0 <= m < s.layers[i].sprites.len() implies sprite_canon(c)(
                #[trigger] s.layers[i].sprites[m],
            ) == sprite_canon(c)(t[i].sprites[m]) by {}
            lemma_first_index_agree(s.layers[i].sprites, sprite_canon(c), t[i].sprites, sprite_canon(c));
        }
    }
    lemma_first_index_agree(s.layers, has_sprite_canon(c), t, has_sprite_canon(c));
    match first_index(s.layers, has_sprite_canon(c)) {
        Some(j) => {
            assert forall|m: int| 0 <= m < s.layers[j].sprites.len() implies sprite_canon(c)(
                #[trigger] s.layers[j].sprites[m],
            ) == sprite_canon(c)(t[j].sprites[m]) by {}
            lemma_first_index_agree(s.layers[j].sprites, sprite_canon(c), t[j].sprites, sprite_canon(c));
        },
        None => {},
    }
}

/// Changing a layer in place, canonical id kept, leaves where each
/// canonical id is found as it was.
proof fn lemma_find_layer_after_set(s: Seq<LayerView>, i: int, l: LayerView, c: Id)
    requires
        0 <= i < s.len(),
        l.canonical_id == s[i].canonical_id,
    ensures
        first_index(s.update(i, l), layer_canon(c)) == first_index(s, layer_canon(c)),
{
    let t = s.update(i, l);
    assert forall|j: int| 0 <= j < s.len() implies layer_canon(c)(#[trigger] s[j]) == layer_canon(c)(t[j]) by {}
    lemma_first_index_agree(s, layer_canon(c), t, layer_canon(c));
}

/// `e` is a change whose unwinding undoes it on `s`: not a set, a creation
/// or a removal of a sprite; a change of a flag, a rectangle or a texture
/// (also of a sprite known only here) that starts from the value the scene
/// has; and for a layer move, one whose canonical id no other layer shares.
pub open spec fn invertible_change(s: SceneView, e: SceneEvent) -> bool {
    &&& !(e is EventSet || e is LayerNew || e is SpriteNew || e is SpriteRemove)
    &&& e matches SceneEvent::LayerLockedChange(c, from, _) ==> (first_index(s.layers, layer_canon(c)) matches Some(i) ==> s.layers[i].locked == from)
    &&& e matches SceneEvent::LayerVisibilityChange(c, from, _) ==> (first_index(s.layers, layer_canon(c)) matches Some(i) ==> s.layers[i].visible == from)
    &&& e matches SceneEvent::SpriteMove(c, from, _) ==> (find_sprite_canon(s.layers, c) matches Some((i, k)) ==> s.layers[i].sprites[k].rect == from)
    &&& e matches SceneEvent::LocalSpriteMove(l, from, _) ==> (find_sprite_local(s.layers, l) matches Some((i, k)) ==> s.layers[i].sprites[k].rect == from)
    &&& e matches SceneEvent::SpriteTextureChange(c, old, _) ==> (find_sprite_canon(s.layers, c) matches Some((i, k)) ==> s.layers[i].sprites[k].texture == old)
    &&& e matches SceneEvent::LayerMove(c, _, _) ==> forall|a: int, b: int|
        0 <= a < b < s.layers.len() && #[trigger] s.layers[a].canonical_id == Some(c) ==> #[trigger] s.layers[b].canonical_id != Some(c)
}

/// Each member of `v` is invertible on the scene the members before it leave.
pub open spec fn set_invertible(s: SceneView, v: Seq<SceneEvent>) -> bool
    decreases v.len(),
{
    if v.len() == 0 {
        true
    } else {
        invertible_change(s, v[0]) && set_invertible(apply_one(s, v[0]).0, v.drop_first())
    }
}

proof fn lemma_unwind_undoes_change(s: SceneView, e: SceneEvent)
    requires
        stacked(s.layers),
        invertible_change(s, e),
        !(apply_result(s, e).1 is Rejection),
    ensures
        unwind_result(apply_result(s, e).0, e) == s,
{
    let s1 = apply_result(s, e).0;
    match e {
        SceneEvent::LayerLockedChange(c, from, v) => {
            if let Some(i) = first_index(s.layers, layer_canon(c)) {
                lemma_first_index_facts(s.layers, layer_canon(c));
                lemma_find_layer_after_set(s.layers, i, LayerView { locked: v, ..s.layers[i] }, c);
                assert(s1.layers.update(i, LayerView { locked: from, ..s1.layers[i] }) =~= s.layers);
            }
        },
        SceneEvent::LayerVisibilityChange(c, from, v) => {
            if let Some(i) = first_index(s.layers, layer_canon(c)) {
                lemma_first_index_facts(s.layers, layer_canon(c));
                lemma_find_layer_after_set(s.layers, i, LayerView { visible: v, ..s.layers[i] }, c);
                assert(s1.layers.update(i, LayerView { visible: from, ..s1.layers[i] }) =~= s.layers);
            }
        },
        SceneEvent::LayerRename(c, from, to) => {
            let i = first_index(s.layers, layer_canon(c))->Some_0;
            lemma_first_index_facts(s.layers, layer_canon(c));
            lemma_find_layer_after_set(s.layers, i, LayerView { title: to@, ..s.layers[i] }, c);
            assert(s1.layers.update(i, LayerView { title: from@, ..s1.layers[i] }) =~= s.layers);
        },
        SceneEvent::LayerMove(c, z0, up) => {
            let i = first_index(s.layers, layer_canon(c))->Some_0;
            lemma_first_index_facts(s.layers, layer_canon(c));
            lemma_stack_move_back(s.layers, i, up);
            let t = s1.layers;
            let j = moved_index(s.layers, i, up);
            assert forall|m: int| 0 <= m < j implies !layer_canon(c)(#[trigger] t[m]) by {
                let q = choose|q: int| 0 <= q < s.layers.len() && q != i && #[trigger] t[m] == with_z(s.layers[q], t[m].z as int);
                if q < i {
                    assert(!layer_canon(c)(s.layers[q]));
                } else {
                    assert(s.layers[q].canonical_id != Some(c));
                }
            }
            assert(is_first(t, layer_canon(c), j));
            lemma_first_index_is(t, layer_canon(c), j);
            assert(SceneView { layers: s.layers, ..s1 } == s);
        },
        SceneEvent::LayerRemove(c) => {
            let i = first_index(s.layers, layer_canon(c))->Some_0;
            lemma_first_index_facts(s.layers, layer_canon(c));
            let r = s.removed_layers.push(s.layers[i]);
            assert(is_last(r, layer_canon(c), r.len() - 1));
            lemma_last_index_is(r, layer_canon(c), r.len() - 1);
            lemma_remove_insert(s.layers, i);
            assert(r.remove(r.len() - 1) =~= s.removed_layers);
        },
        SceneEvent::LocalSpriteMove(l, from, _) => {
            if let Some((i, k)) = find_sprite_local(s.layers, l) {
                lemma_first_index_facts(s.layers, crate::scene::has_sprite_local(l));
                lemma_first_index_facts(s.layers[i].sprites, crate::layer::sprite_local(l));
                assert(s.layers[i].sprites.update(k, Sprite { rect: from, ..s.layers[i].sprites[k] }) =~= s.layers[i].sprites);
                assert(set_sprite(s, i, k, Sprite { rect: from, ..s.layers[i].sprites[k] }).layers =~= s.layers);
            }
        },
        SceneEvent::SpriteMove(c, from, to) => {
            let (i, k) = find_sprite_canon(s.layers, c)->Some_0;
            lemma_first_index_facts(s.layers, has_sprite_canon(c));
            lemma_first_index_facts(s.layers[i].sprites, sprite_canon(c));
            let cur = s.layers[i].sprites[k];
            lemma_find_sprite_after_set(s, i, k, Sprite { rect: to, ..cur }, c);
            assert(s1.layers[i].sprites.update(k, Sprite { rect: from, ..s1.layers[i].sprites[k] }) =~= s.layers[i].sprites);
            assert(set_sprite(s1, i, k, Sprite { rect: from, ..s1.layers[i].sprites[k] }).layers =~= s.layers);
        },
        SceneEvent::SpriteTextureChange(c, old, new) => {
            let (i, k) = find_sprite_canon(s.layers, c)->Some_0;
            lemma_first_index_facts(s.layers, has_sprite_canon(c));
            lemma_first_index_facts(s.layers[i].sprites, sprite_canon(c));
            let cur = s.layers[i].sprites[k];
            lemma_find_sprite_after_set(s, i, k, Sprite { texture: new, ..cur }, c);
            assert(s1.layers[i].sprites.update(k, Sprite { texture: old, ..s1.layers[i].sprites[k] }) =~= s.layers[i].sprites);
            assert(set_sprite(s1, i, k, Sprite { texture: old, ..s1.layers[i].sprites[k] }).layers =~= s.layers);
        },
        _ => {},
    }
}

/// Filtering by a test every item already meets changes nothing.
proof fn lemma_filter_all<T>(s: Seq<T>, p: spec_fn(T) -> bool)
    requires
        forall|i: int| 0 <= i < s.len() ==> p(#[trigger] s[i]),
    ensures
        s.filter(p) == s,
    decreases s.len(),
{
    reveal(Seq::filter);
    if s.len() > 0 {
        lemma_filter_all(s.drop_last(), p);
        assert(p(s.last()));
        assert(s.drop_last().push(s.last()) =~= s);
    }
}

/// An approval takes every request with its id out of those awaiting an
/// answer, so a second approval of the same id changes nothing: neither the
/// requests awaiting an answer nor the scene.
pub proof fn lemma_approval_idempotent(s: Seq<ClientMessage>, id: Id, scene: SceneView)
    ensures
        forall|i: int| 0 <= i < s.filter(message_other(id)).len() ==> (#[trigger] s.filter(message_other(id))[i]).id != id,
        s.filter(message_other(id)).filter(message_other(id)) == s.filter(message_other(id)),
        approved_scene(scene, s.filter(message_other(id)), id) == scene,
{
    let t = s.filter(message_other(id));
    assert forall|i: int| 0 <= i < t.len() implies message_other(id)(#[trigger] t[i]) by {
        s.lemma_filter_pred(message_other(id), i);
    }
    lemma_filter_all(t, message_other(id));
    assert forall|i: int| 0 <= i < t.len() implies !message_is(id)(#[trigger] t[i]) by {
        assert(message_other(id)(t[i]));
    }
    lemma_first_index_none(t, message_is(id));
}

/// Some layer of `s` is at height `z`.
pub open spec fn has_z(s: Seq<LayerView>, z: int) -> bool {
    exists|j: int| 0 <= j < s.len() && #[trigger] s[j].z == z
}

/// The z values of the layers of a well-formed scene, the form that every
/// move of a layer keeps: with `k` layers in the background they are
/// exactly -k, ..., -1 and 0, ..., n - k - 1, with no gaps and no repeats.
pub proof fn lemma_stacked_z_values(s: Seq<LayerView>)
    requires
        stacked(s),
    ensures
        ({
            let k = s.len() - fg_count(s);
            &&& 0 <= k <= s.len()
            &&& forall|z: int| #[trigger] has_z(s, z) <==> -k <= z < s.len() - k
            &&& forall|a: int, b: int| 0 <= a < b < s.len() ==> #[trigger] s[a].z != #[trigger] s[b].z
            &&& forall|j: int| 0 <= j < s.len() ==> ((#[trigger] s[j]).z >= 0 <==> j < s.len() - k)
        }),
{
    let n = s.len() as int;
    let f = fg_count(s);
    let k = n - f;
    assert forall|z: int| #[trigger] has_z(s, z) <==> -k <= z < n - k by {
        if -k <= z < n - k {
            let j = f - 1 - z;
            assert(0 <= j < n);
            assert(s[j].z == z);
        }
    }
}

proof fn lemma_scan_keeps_choice(r: Rect, at: ScenePoint, k: int, best: int, choice: Option<(int, int)>)
    requires
        choice is Some,
    ensures
        anchor_scan(r, at, k, best, choice) is Some,
    decreases 9 - k,
{
    if k < 9 {
        if k == 4 {
            lemma_scan_keeps_choice(r, at, k + 1, best, choice);
        } else {
            let (dx, dy) = anchor_of(k);
            let d = anchor_dist2(r, at, dx, dy);
            if d <= best {
                lemma_scan_keeps_choice(r, at, k + 1, d, Some((dx, dy)));
            } else {
                lemma_scan_keeps_choice(r, at, k + 1, best, choice);
            }
        }
    }
}

proof fn lemma_scan_finds(r: Rect, at: ScenePoint, k: int, best: int, choice: Option<(int, int)>, j: int)
    requires
        0 <= k <= j < 9,
        j != 4,
        0 <= best,
        anchor_dist2(r, at, anchor_of(j).0, anchor_of(j).1) == 0,
    ensures
        anchor_scan(r, at, k, best, choice) is Some,
    decreases 9 - k,
{
    if k == 4 {
        lemma_scan_finds(r, at, k + 1, best, choice, j);
    } else {
        let (dx, dy) = anchor_of(k);
        let d = anchor_dist2(r, at, dx, dy);
        let ax = 2 * r.x + (dx + 1) * r.w - 2 * at.x;
        let ay = 2 * r.y + (dy + 1) * r.h - 2 * at.y;
        assert(d >= 0) by (nonlinear_arith)
            requires
                d == 25 * (ax * ax + ay * ay),
        ;
        if k == j {
            lemma_scan_keeps_choice(r, at, k + 1, d, Some((dx, dy)));
        } else if d <= best {
            lemma_scan_finds(r, at, k + 1, d, Some((dx, dy)), j);
        } else {
            lemma_scan_finds(r, at, k + 1, best, choice, j);
        }
    }
}

/// A sprite grabbed exactly on one of its corners or edge midpoints is
/// grabbed by an anchor, however small it is: the radius within which an
/// anchor is taken shrinks with the sprite but never below zero.
pub proof fn lemma_grab_on_anchor(r: Rect, at: ScenePoint, j: int)
    requires
        0 <= j < 9,
        j != 4,
        anchor_dist2(r, at, anchor_of(j).0, anchor_of(j).1) == 0,
    ensures
        anchor_pick(r, at) is Some,
{
    let w = crate::sprite::abs_int(r.w as int);
    let h = crate::sprite::abs_int(r.h as int);
    let m = if w <= h { w } else { h };
    assert(4 * m * m >= 0) by (nonlinear_arith);
    lemma_scan_finds(r, at, 0, anchor_limit(r), None, j);
}

/// `e` is an event whose unwinding undoes it on `s`: a creation, or an
/// invertible change.
pub open spec fn invertible(s: SceneView, e: SceneEvent) -> bool {
    match e {
        SceneEvent::LayerNew(..) | SceneEvent::SpriteNew(..) => true,
        _ => invertible_change(s, e),
    }
}

/// The layer with its bounds of sprite z left out, which only ever widen.
pub open spec fn without_bounds(l: LayerView) -> LayerView {
    LayerView { z_min: 0, z_max: 0, ..l }
}

/// `a` and `b` have the same layers, in order, with the same sprites,
/// titles, z values, flags and ids.
pub open spec fn observably_same(a: SceneView, b: SceneView) -> bool {
    &&& a.layers.len() == b.layers.len()
    &&& forall|j: int| 0 <= j < a.layers.len() ==> without_bounds(#[trigger] a.layers[j]) == without_bounds(b.layers[j])
}

/// Adding a layer to a stack and taking it out again leaves the stack as it was.
proof fn lemma_insert_remove(s: Seq<LayerView>, l: LayerView)
    requires
        stacked(s),
        s.len() + 1 < i32::MAX,
    ensures
        ({
            let p = sorted_slot(s.len() as int, fg_count(s), l.z as int);
            &&& 0 <= p <= s.len()
            &&& stack_add(s, l)[p] == with_z(l, stack_add(s, l)[p].z as int)
            &&& forall|j: int| 0 <= j < p ==> #[trigger] stack_add(s, l)[j] == with_z(s[j], stack_add(s, l)[j].z as int)
            &&& stack_remove(stack_add(s, l), p) == s
        }),
{
    let f = fg_count(s);
    let n = s.len() as int;
    let p = sorted_slot(n, f, l.z as int);
    let nf = if l.z >= 0 { f + 1 } else { f };
    let u = s.insert(p, l);
    let t = stack_add(s, l);
    lemma_renumber_stacked(u, nf);
    assert(fg_count(t) == nf);
    assert((if p < nf { nf - 1 } else { nf }) == f);
    let w = t.remove(p);
    assert forall|j: int| 0 <= j < n implies #[trigger] renumber(w, f)[j] == s[j] by {
        lemma_with_own_z(s[j]);
    }
    assert(renumber(w, f) =~= s);
}

/// The layer made last under `id` is the one at `p` where every other
/// layer has a lower local id.
proof fn lemma_latest_layer_is(t: Seq<LayerView>, id: Id, p: int)
    requires
        0 <= p < t.len(),
        t[p].origin == id,
        t[p].local_id >= 0,
        forall|j: int| 0 <= j < t.len() && j != p ==> (#[trigger] t[j]).local_id < t[p].local_id,
    ensures
        latest_layer(t, id) == t[p].local_id,
    decreases t.len(),
{
    let u = t.drop_last();
    if p == t.len() - 1 {
        lemma_latest_layer_below(u, id, t[p].local_id as int);
    } else {
        lemma_latest_layer_is(u, id, p);
    }
}

proof fn lemma_latest_layer_below(t: Seq<LayerView>, id: Id, x: int)
    requires
        x >= 0,
        forall|j: int| 0 <= j < t.len() ==> (#[trigger] t[j]).local_id < x,
    ensures
        latest_layer(t, id) < x,
    decreases t.len(),
{
    if t.len() > 0 {
        lemma_latest_layer_below(t.drop_last(), id, x);
    }
}

proof fn lemma_latest_sprite_is(t: Seq<Sprite>, origin: Id, p: int)
    requires
        0 <= p < t.len(),
        t[p].origin == origin,
        t[p].local_id >= 0,
        forall|j: int| 0 <= j < t.len() && j != p ==> (#[trigger] t[j]).local_id < t[p].local_id,
    ensures
        latest_sprite(t, origin) == t[p].local_id,
    decreases t.len(),
{
    let u = t.drop_last();
    if p == t.len() - 1 {
        lemma_latest_sprite_below(u, origin, t[p].local_id as int);
    } else {
        lemma_latest_sprite_is(u, origin, p);
    }
}

proof fn lemma_latest_sprite_below(t: Seq<Sprite>, origin: Id, x: int)
    requires
        x >= 0,
        forall|j: int| 0 <= j < t.len() ==> (#[trigger] t[j]).local_id < x,
    ensures
        latest_sprite(t, origin) < x,
    decreases t.len(),
{
    if t.len() > 0 {
        lemma_latest_sprite_below(t.drop_last(), origin, x);
    }
}

#[verifier::rlimit(80)]
proof fn lemma_unwind_undoes_layer_creation(s: SceneView, e: SceneEvent)
    requires
        well_formed(s),
        e is LayerNew,
        !(apply_result(s, e).1 is Rejection),
    ensures
        observably_same(unwind_result(apply_result(s, e).0, e), s),
{
    let s1 = apply_result(s, e).0;
    let r = unwind_result(s1, e);
    match e {
        SceneEvent::LayerNew(id, title, z) => {
            let c = if s.canon { s.next_id } else { id };
            let l = crate::apply::created_layer(s.next_id, c, id, title@, z);
            lemma_insert_remove(s.layers, l);
            let p = sorted_slot(s.layers.len() as int, fg_count(s.layers), l.z as int);
            let t = s1.layers;
            assert forall|j: int| 0 <= j < t.len() && j != p implies (#[trigger] t[j]).local_id < t[p].local_id by {
                if j < p {
                    assert(t[j].local_id == s.layers[j].local_id);
                    assert(layer_ok(s.layers[j], s.next_id as int));
                } else {
                    assert(t[j].local_id == s.layers[j - 1].local_id);
                    assert(layer_ok(s.layers[j - 1], s.next_id as int));
                }
            }
            lemma_latest_layer_is(t, id, p);
            let m = latest_layer(t, id);
            assert forall|j: int| 0 <= j < p implies !layer_origin(id, m)(#[trigger] t[j]) by {}
            assert(is_first(t, layer_origin(id, m), p));
            lemma_first_index_is(t, layer_origin(id, m), p);
            assert(r.layers == s.layers);
        },
        _ => {},
    }
}

proof fn lemma_unwind_undoes_sprite_creation(s: SceneView, e: SceneEvent)
    requires
        well_formed(s),
        e is SpriteNew,
        !(apply_result(s, e).1 is Rejection),
    ensures
        observably_same(unwind_result(apply_result(s, e).0, e), s),
{
    let s1 = apply_result(s, e).0;
    let r = unwind_result(s1, e);
    match e {
        SceneEvent::SpriteNew(sp, lc) => {
            let i = first_index(s.layers, layer_canon(lc))->Some_0;
            lemma_first_index_facts(s.layers, layer_canon(lc));
            let old_l = s.layers[i];
            let t = s1.layers[i];
            lemma_find_layer_after_set(s.layers, i, t, lc);
            lemma_first_index_facts(old_l.sprites, crate::layer::sprite_above(sprite_z(s, e)));
            let k = crate::layer::sprite_slot(old_l.sprites, sprite_z(s, e));
            assert(0 <= k <= old_l.sprites.len());
            assert(layer_ok(old_l, s.next_id as int));
            assert forall|j: int| 0 <= j < t.sprites.len() && j != k implies (#[trigger] t.sprites[j]).local_id < t.sprites[k].local_id by {
                if j < k {
                    assert(t.sprites[j] == old_l.sprites[j]);
                } else {
                    assert(t.sprites[j] == old_l.sprites[j - 1]);
                }
            }
            let m = latest_sprite(t.sprites, sp.origin);
            if sp.canonical_id is None {
                lemma_latest_sprite_is(t.sprites, sp.origin, k);
            } else {
                let cid = sp.canonical_id->Some_0;
                lemma_first_index_facts(s.layers, has_sprite_canon(cid));
                assert(!has_sprite_canon(cid)(old_l));
                lemma_first_index_facts(old_l.sprites, sprite_canon(cid));
            }
            assert forall|q: int| 0 <= q < k implies !sprite_created(sp, m)(#[trigger] t.sprites[q]) by {
                assert(t.sprites[q] == old_l.sprites[q]);
                if sp.canonical_id is Some {
                    assert(!sprite_canon(sp.canonical_id->Some_0)(old_l.sprites[q]));
                }
            }
            assert(sprite_created(sp, m)(t.sprites[k]));
            assert(is_first(t.sprites, sprite_created(sp, m), k));
            lemma_first_index_is(t.sprites, sprite_created(sp, m), k);
            assert(t.sprites.remove(k) =~= old_l.sprites);
            assert forall|j: int| 0 <= j < s.layers.len() implies without_bounds(#[trigger] r.layers[j]) == without_bounds(s.layers[j]) by {
                if j == i {
                    assert(r.layers[j].sprites == old_l.sprites);
                }
            }
        },
        _ => {},
    }
}

proof fn lemma_unwind_undoes_creation(s: SceneView, e: SceneEvent)
    requires
        well_formed(s),
        e is LayerNew || e is SpriteNew,
        !(apply_result(s, e).1 is Rejection),
    ensures
        observably_same(unwind_result(apply_result(s, e).0, e), s),
{
    if e is LayerNew {
        lemma_unwind_undoes_layer_creation(s, e);
    } else {
        lemma_unwind_undoes_sprite_creation(s, e);
    }
}

/// The z of the sprite a sprite creation carries.
spec fn sprite_z(s: SceneView, e: SceneEvent) -> i32 {
    e->SpriteNew_0.z
}

/// An event that was applied, and not rejected, is undone by unwinding it:
/// the layers, their titles, z values, flags and sprites are as they were
/// before, and for an event other than a creation the whole scene is (for
/// sets, see `lemma_unwind_inverts_set`). A creation leaves the id counter
/// advanced, the removed layer kept aside, and a layer's bounds of sprite z
/// widened. Left out are the events on which it fails: removals of sprites,
/// which put back the sprite the event carries, under a new local id and
/// after any sprites of equal z; a change whose starting value is not the
/// scene's (unwinding sets the value the event started from, where the
/// authority approved a flag change or a move known only here without
/// checking it); and a layer move where another layer shares the moved
/// layer's canonical id.
pub proof fn lemma_unwind_inverts(s: SceneView, e: SceneEvent)
    requires
        well_formed(s),
        invertible(s, e),
        !(apply_result(s, e).1 is Rejection),
    ensures
        observably_same(unwind_result(apply_result(s, e).0, e), s),
        !(e is LayerNew || e is SpriteNew) ==> unwind_result(apply_result(s, e).0, e) == s,
{
    if e is LayerNew || e is SpriteNew {
        lemma_unwind_undoes_creation(s, e);
    } else {
        lemma_unwind_undoes_change(s, e);
        let r = unwind_result(apply_result(s, e).0, e);
        assert forall|j: int| 0 <= j < r.layers.len() implies without_bounds(#[trigger] r.layers[j]) == without_bounds(s.layers[j]) by {}
    }
}

proof fn lemma_set_layer_stacked(s: Seq<LayerView>, i: int, l: LayerView)
    requires
        stacked(s),
        0 <= i < s.len(),
        l.z == s[i].z,
    ensures
        stacked(s.update(i, l)),
{
    let t = s.update(i, l);
    assert(fg_count(t) == fg_count(s));
    assert forall|j: int| 0 <= j < t.len() implies (#[trigger] t[j]).z == fg_count(t) - 1 - j by {
        assert(s[j].z == fg_count(s) - 1 - j);
    }
}

/// Applying an event that is not a set keeps the layers stacked.
proof fn lemma_apply_one_stacked(s: SceneView, e: SceneEvent)
    requires
        stacked(s.layers),
    ensures
        stacked(apply_one(s, e).0.layers),
{
    let f = fg_count(s.layers);
    let n = s.layers.len() as int;
    match e {
        SceneEvent::LayerLockedChange(c, _, v) => {
            if let Some(i) = first_index(s.layers, layer_canon(c)) {
                lemma_first_index_facts(s.layers, layer_canon(c));
                lemma_set_layer_stacked(s.layers, i, LayerView { locked: v, ..s.layers[i] });
            }
        },
        SceneEvent::LayerVisibilityChange(c, _, v) => {
            if let Some(i) = first_index(s.layers, layer_canon(c)) {
                lemma_first_index_facts(s.layers, layer_canon(c));
                lemma_set_layer_stacked(s.layers, i, LayerView { visible: v, ..s.layers[i] });
            }
        },
        SceneEvent::LayerRename(c, from, to) => {
            if let Some(i) = first_index(s.layers, layer_canon(c)) {
                lemma_first_index_facts(s.layers, layer_canon(c));
                lemma_set_layer_stacked(s.layers, i, LayerView { title: to@, ..s.layers[i] });
            }
        },
        SceneEvent::LayerMove(c, z0, up) => {
            if let Some(i) = first_index(s.layers, layer_canon(c)) {
                lemma_first_index_facts(s.layers, layer_canon(c));
                if stack_move(s.layers, i, up) is Some {
                    lemma_stack_move_back(s.layers, i, up);
                }
            }
        },
        SceneEvent::LayerNew(id, title, z) => {
            if !(apply_one(s, e).1 is Rejection) {
                let c = if s.canon { s.next_id } else { id };
                let l = crate::apply::created_layer(s.next_id, c, id, title@, z);
                let nf = if l.z >= 0 { f + 1 } else { f };
                let p = sorted_slot(n, f, l.z as int);
                lemma_renumber_stacked(s.layers.insert(p, l), nf);
            }
        },
        SceneEvent::LayerRemove(c) => {
            if let Some(i) = first_index(s.layers, layer_canon(c)) {
                lemma_first_index_facts(s.layers, layer_canon(c));
                let nf = if i < f { f - 1 } else { f };
                lemma_renumber_stacked(s.layers.remove(i), nf);
            }
        },
        SceneEvent::SpriteNew(sp, lc) => {
            if !(apply_one(s, e).1 is Rejection) {
                let i = first_index(s.layers, layer_canon(lc))->Some_0;
                lemma_first_index_facts(s.layers, layer_canon(lc));
                lemma_set_layer_stacked(s.layers, i, apply_one(s, e).0.layers[i]);
                assert(apply_one(s, e).0.layers =~= s.layers.update(i, apply_one(s, e).0.layers[i]));
            }
        },
        SceneEvent::SpriteRemove(sp, _) => {
            if !(apply_one(s, e).1 is Rejection) {
                let (i, k) = find_sprite_canon(s.layers, sp.canonical_id->Some_0)->Some_0;
                lemma_first_index_facts(s.layers, has_sprite_canon(sp.canonical_id->Some_0));
                lemma_set_layer_stacked(s.layers, i, apply_one(s, e).0.layers[i]);
            }
        },
        SceneEvent::SpriteMove(c, _, _) => {
            if !(apply_one(s, e).1 is Rejection) {
                let (i, k) = find_sprite_canon(s.layers, c)->Some_0;
                lemma_first_index_facts(s.layers, has_sprite_canon(c));
                lemma_set_layer_stacked(s.layers, i, apply_one(s, e).0.layers[i]);
            }
        },
        SceneEvent::SpriteTextureChange(c, _, _) => {
            if !(apply_one(s, e).1 is Rejection) {
                let (i, k) = find_sprite_canon(s.layers, c)->Some_0;
                lemma_first_index_facts(s.layers, has_sprite_canon(c));
                lemma_set_layer_stacked(s.layers, i, apply_one(s, e).0.layers[i]);
            }
        },
        _ => {},
    }
}

/// Unwinding a set unwinds its first member last.
proof fn lemma_unwind_set_first(t: SceneView, v: Seq<SceneEvent>)
    requires
        v.len() > 0,
    ensures
        unwind_set(t, v) == unwind_one(unwind_set(t, v.drop_first()), v[0]),
    decreases v.len(),
{
    if v.len() == 1 {
        assert(v.drop_last().len() == 0);
        assert(v.drop_first().len() == 0);
    } else {
        lemma_unwind_set_first(unwind_one(t, v.last()), v.drop_last());
        assert(v.drop_first().last() == v.last());
        assert(v.drop_first().drop_last() =~= v.drop_last().drop_first());
        assert(v.drop_last()[0] == v[0]);
    }
}

proof fn lemma_unwind_set_inverts(s: SceneView, v: Seq<SceneEvent>)
    requires
        stacked(s.layers),
        set_invertible(s, v),
        !(apply_set(s, v).1 is Rejection),
    ensures
        unwind_set(apply_set(s, v).0, v) == s,
    decreases v.len(),
{
    if v.len() > 0 {
        let s1 = apply_one(s, v[0]).0;
        lemma_apply_one_stacked(s, v[0]);
        lemma_unwind_set_inverts(s1, v.drop_first());
        lemma_unwind_set_first(apply_set(s, v).0, v);
        lemma_unwind_undoes_change(s, v[0]);
    }
}

/// A set of events that was applied, and not rejected, is undone by
/// unwinding it, where each member is one that unwinding undoes on the
/// scene the members before it leave.
pub proof fn lemma_unwind_inverts_set(s: SceneView, v: Vec<SceneEvent>)
    requires
        stacked(s.layers),
        set_invertible(s, v@),
        !(apply_result(s, SceneEvent::EventSet(v)).1 is Rejection),
    ensures
        unwind_result(apply_result(s, SceneEvent::EventSet(v)).0, SceneEvent::EventSet(v)) == s,
{
    lemma_unwind_set_inverts(s, v@);
}

/// Where the layer at `q` of `s` stands after the layer at `i` moved.
pub open spec fn place_after_move(s: Seq<LayerView>, i: int, up: bool, q: int) -> int {
    let f = fg_count(s);
    if up && i != f && q == i - 1 {
        i
    } else if !up && i + 1 != f && q == i + 1 {
        i
    } else {
        q
    }
}

/// A move of one layer keeps every other layer on its side of the grid:
/// foreground layers stay at z 0 and above, background layers below.
pub proof fn lemma_move_keeps_sides(s: Seq<LayerView>, i: int, up: bool)
    requires
        stacked(s),
        0 <= i < s.len(),
        stack_move(s, i, up) is Some,
    ensures
        forall|q: int| 0 <= q < s.len() && q != i ==> {
            let t = stack_move(s, i, up)->Some_0;
            let m = #[trigger] place_after_move(s, i, up, q);
            &&& 0 <= m < t.len()
            &&& t[m] == with_z(s[q], t[m].z as int)
            &&& (t[m].z >= 0 <==> s[q].z >= 0)
        },
{
    let f = fg_count(s);
    let t = stack_move(s, i, up)->Some_0;
    if up {
        if i == f {
            lemma_renumber_stacked(s, f + 1);
        } else {
            lemma_renumber_stacked(swapped(s, i - 1, i), f);
        }
    } else {
        if i + 1 == f {
            lemma_renumber_stacked(s, f - 1);
        } else {
            lemma_renumber_stacked(swapped(s, i, i + 1), f);
        }
    }
    assert forall|q: int| 0 <= q < s.len() && q != i implies {
        let m = #[trigger] place_after_move(s, i, up, q);
        &&& 0 <= m < t.len()
        &&& t[m] == with_z(s[q], t[m].z as int)
        &&& (t[m].z >= 0 <==> s[q].z >= 0)
    } by {
        assert(s[q].z == f - 1 - q);
    }
}

/// Once an acknowledgement binds canonical id `c` to the sprite that a
/// request created under local id `l`, an event naming `c` resolves to that
/// sprite, where no sprite had `c` before.
pub proof fn lemma_binding_resolves(s: SceneView, l: Id, c: Id)
    requires
        find_sprite_canon(s.layers, c) is None,
        find_sprite_local(s.layers, l) is Some,
    ensures
        ({
            let (i, k) = find_sprite_local(s.layers, l)->Some_0;
            let t = crate::scene::ack_result(s, SceneEventAck::SpriteNew(l, Some(c)));
            &&& find_sprite_canon(t.layers, c) == Some((i, k))
            &&& t.layers[i].sprites[k] == (Sprite { canonical_id: Some(c), ..s.layers[i].sprites[k] })
            &&& t.layers[i].sprites[k].local_id == l
        }),
{
    let (i, k) = find_sprite_local(s.layers, l)->Some_0;
    lemma_first_index_facts(s.layers, crate::scene::has_sprite_local(l));
    lemma_first_index_facts(s.layers[i].sprites, crate::layer::sprite_local(l));
    lemma_first_index_facts(s.layers, has_sprite_canon(c));
    let t = crate::scene::ack_result(s, SceneEventAck::SpriteNew(l, Some(c)));
    assert forall|j: int| 0 <= j < i implies !has_sprite_canon(c)(#[trigger] t.layers[j]) by {
        assert(t.layers[j] == s.layers[j]);
    }
    assert forall|m: int| 0 <= m < k implies !sprite_canon(c)(#[trigger] t.layers[i].sprites[m]) by {
        assert(t.layers[i].sprites[m] == s.layers[i].sprites[m]);
        assert(!has_sprite_canon(c)(s.layers[i]));
        lemma_first_index_facts(s.layers[i].sprites, sprite_canon(c));
    }
    assert(is_first(t.layers[i].sprites, sprite_canon(c), k));
    lemma_first_index_is(t.layers[i].sprites, sprite_canon(c), k);
    assert(is_first(t.layers, has_sprite_canon(c), i));
    lemma_first_index_is(t.layers, has_sprite_canon(c), i);
}

/// The layers are in descending order of z.
pub open spec fn sorted_desc(s: Seq<LayerView>) -> bool {
    forall|a: int, b: int| 0 <= a < b < s.len() ==> #[trigger] s[a].z >= #[trigger] s[b].z
}

/// Sorting puts the layers in descending order of z, each layer of equal z
/// after those that came before it.
pub proof fn lemma_sort_desc_sorted(s: Seq<LayerView>)
    ensures
        sorted_desc(crate::scene::sort_desc(s)),
    decreases s.len(),
{
    if s.len() > 0 {
        lemma_sort_desc_sorted(s.drop_last());
        let t = crate::scene::sort_desc(s.drop_last());
        let l = s.last();
        let p = crate::scene::first_below(t, l.z as int);
        lemma_first_index_facts(t, crate::scene::layer_below(l.z as int));
        let u = t.insert(p, l);
        assert forall|a: int, b: int| 0 <= a < b < u.len() implies #[trigger] u[a].z >= #[trigger] u[b].z by {
            if b < p {
            } else if a < p && b == p {
                assert(!crate::scene::layer_below(l.z as int)(t[a]));
            } else if a < p {
                assert(t[a].z >= t[b - 1].z);
            } else if a == p {
                assert(crate::scene::layer_below(l.z as int)(t[p]));
                assert(t[p].z >= t[b - 1].z);
            } else {
                assert(t[a - 1].z >= t[b - 1].z);
            }
        }
    }
}

} // verus!
