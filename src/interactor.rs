use vstd::prelude::*;

use crate::apply::{unwind_result, unwound_event};
use crate::changes::Changes;
use crate::event::{copy_of, SceneEvent, SceneEventAck};
use crate::geom::{clamp_coord, clamp_i32, Rect, ScenePoint};
use crate::history::{
    coalesce_sets, coalesce_single, grouped, lemma_strip_dummies, merge_all, merge_earlier,
    move_of, moves_as_events, set_moves, strip_dummies,
};
use crate::layer::{layer_with, Layer, LayerView};
use crate::perms::{allows, Perms, PermsEvent, CANONICAL_UPDATER};
use crate::pointer::{anchor_offset_wide, grab_of, held_edit, release_edit, HeldObject};
use crate::scene::{
    acceptable, find_sprite_canon,    ack_result, event_layer_index, find_layer, find_sprite_local, layer_local, scene_ids_in,
    scene_sprite_at, set_sprite, sprite_at_loc, stack_move, stack_remove, Scene, SceneView,
};
use crate::search::{as_int, first_index, is_first, lemma_first_index_is, lemma_first_index_none};
use crate::sprite::{edit_event, edited, Sprite, SpriteEdit};
use crate::Id;

verus! {

/// A request sent to the authority: a scene event under a request id.
pub struct ClientMessage {
    pub id: Id,
    pub event: SceneEvent,
}

/// What the authority sends a client.
pub enum ServerEvent {
    /// The request with this id was applied.
    Approval(Id),
    /// The request with this id was refused.
    Rejection(Id),
    PermsChange(Perms),
    PermsUpdate(PermsEvent),
    /// The whole scene, replacing the client's.
    SceneChange(Scene),
    /// Another client's event.
    SceneUpdate(SceneEvent),
    /// The id under which this client acts.
    UserId(Id),
}

pub open spec fn message_other(id: Id) -> spec_fn(ClientMessage) -> bool {
    |c: ClientMessage| c.id != id
}

pub open spec fn message_is(id: Id) -> spec_fn(ClientMessage) -> bool {
    |c: ClientMessage| c.id == id
}

/// The scene once the request `id` among `issued` is approved: a confirmed
/// removal of a layer drops the copy kept to undo it.
pub open spec fn approved_scene(s: SceneView, issued: Seq<ClientMessage>, id: Id) -> SceneView {
    match first_index(issued, message_is(id)) {
        Some(i) => match issued[i].event {
            SceneEvent::LayerRemove(c) => SceneView {
                removed_layers: s.removed_layers.filter(crate::scene::layer_not_canon(c)),
                ..s
            },
            _ => s,
        },
        None => s,
    }
}

/// The requests' ids rise along the sequence.
pub open spec fn ids_rising(s: Seq<ClientMessage>) -> bool {
    forall|a: int, b: int| 0 <= a < b < s.len() ==> #[trigger] s[a].id < #[trigger] s[b].id
}

/// Keeping some of the requests keeps their ids rising.
pub proof fn lemma_filter_rising(s: Seq<ClientMessage>, p: spec_fn(ClientMessage) -> bool)
    requires
        ids_rising(s),
    ensures
        ids_rising(s.filter(p)),
    decreases s.len(),
{
    reveal(Seq::filter);
    if s.len() > 0 {
        let u = s.drop_last();
        assert(ids_rising(u)) by {
            assert forall|a: int, b: int| 0 <= a < b < u.len() implies #[trigger] u[a].id < #[trigger] u[b].id by {
                assert(s[a].id < s[b].id);
            }
        }
        lemma_filter_rising(u, p);
        if p(s.last()) {
            let f = u.filter(p);
            assert forall|a: int| 0 <= a < f.len() implies (#[trigger] f[a]).id < s.last().id by {
                assert(f.contains(f[a]));
                u.lemma_filter_contains_rev(p, f[a]);
                let q = choose|q: int| 0 <= q < u.len() && u[q] == f[a];
                assert(s[q].id < s[s.len() - 1].id);
            }
            let g = f.push(s.last());
            assert forall|a: int, b: int| 0 <= a < b < g.len() implies #[trigger] g[a].id < #[trigger] g[b].id by {
                if b == g.len() - 1 {
                    assert(g[a] == f[a]);
                } else {
                    assert(f[a].id < f[b].id);
                }
            }
        }
    }
}

/// `e` with a move of the sprite with local id `l` made to name it by its
/// canonical id `c`.
pub open spec fn rebind(e: SceneEvent, l: Id, c: Id) -> SceneEvent {
    match e {
        SceneEvent::LocalSpriteMove(id, from, to) => if id == l {
            SceneEvent::SpriteMove(c, from, to)
        } else {
            e
        },
        _ => e,
    }
}

pub open spec fn rebound(h: Seq<SceneEvent>, l: Id, c: Id) -> Seq<SceneEvent> {
    Seq::new(h.len(), |j: int| rebind(h[j], l, c))
}

/// An acknowledgement binds `c` to the sprite with local id `l`: no sprite
/// has `c` yet, and there is one with local id `l`.
pub open spec fn bound_now(s: SceneView, l: Id, c: Id) -> bool {
    find_sprite_canon(s.layers, c) is None && find_sprite_local(s.layers, l) is Some
}

/// The state of a layer at a found position.
pub open spec fn layer_view_at(s: Seq<LayerView>, o: Option<int>) -> Option<LayerView> {
    match o {
        Some(i) => Some(s[i]),
        None => None,
    }
}

/// Whether `user` may apply `e` to the scene `s`, each event judged
/// against the layer it is about; the members of a set each on their own.
pub open spec fn permitted_in(r: Seq<(Id, crate::perms::Role)>, user: Id, s: SceneView, e: SceneEvent) -> bool {
    match e {
        SceneEvent::EventSet(v) => forall|i: int|
            0 <= i < v@.len() ==> allows(
                r,
                user,
                #[trigger] v@[i],
                layer_view_at(s.layers, event_layer_index(s.layers, v@[i])),
            ),
        _ => allows(r, user, e, layer_view_at(s.layers, event_layer_index(s.layers, e))),
    }
}

/// The id of the sprite held, if a sprite is.
pub open spec fn held_sprite_id(h: HeldObject) -> Option<Id> {
    match h {
        HeldObject::Sprite(id, _) => Some(id),
        HeldObject::Anchor(id, _, _) => Some(id),
        _ => None,
    }
}

/// The canonical id of the sprite held, if a sprite with one is.
pub open spec fn held_canonical(s: SceneView, h: HeldObject) -> Option<Id> {
    match held_sprite_id(h) {
        Some(id) => match sprite_at_loc(s.layers, find_sprite_local(s.layers, id)) {
            Some(sp) => sp.canonical_id,
            None => None,
        },
        None => None,
    }
}

/// The scene after `edit` is applied to each of the sprites `ids` in turn,
/// and the events that record it.
pub open spec fn selection_edit(s: SceneView, ids: Seq<Id>, edit: SpriteEdit) -> (SceneView, Seq<SceneEvent>)
    decreases ids.len(),
{
    if ids.len() == 0 {
        (s, Seq::empty())
    } else {
        let (s1, ev) = selection_edit(s, ids.drop_last(), edit);
        match find_sprite_local(s1.layers, ids.last()) {
            Some((i, k)) => {
                let sp = s1.layers[i].sprites[k];
                (
                    set_sprite(s1, i, k, edited(sp, edit)),
                    match edit_event(sp, edit) {
                        Some(e) => ev.push(e),
                        None => ev,
                    },
                )
            },
            None => (s1, ev),
        }
    }
}

/// The scene and event after the sprite with local id `id` gets `edit`.
pub open spec fn sprite_edit(s: SceneView, id: Id, edit: Option<SpriteEdit>) -> (SceneView, Option<SceneEvent>) {
    match edit {
        Some(edit) => match find_sprite_local(s.layers, id) {
            Some((i, k)) => {
                let sp = s.layers[i].sprites[k];
                (set_sprite(s, i, k, edited(sp, edit)), edit_event(sp, edit))
            },
            None => (s, None),
        },
        None => (s, None),
    }
}

/// What the selected sprites have in common, for a sprite menu: a value is
/// none where the sprites differ in it.
#[derive(Clone, Copy, Debug, PartialEq, Eq, Structural)]
pub struct SpriteDetails {
    pub id: Id,
    pub x: Option<i32>,
    pub y: Option<i32>,
    pub w: Option<i32>,
    pub h: Option<i32>,
    pub texture: Option<Id>,
}

pub open spec fn same_or_none<T>(v: Option<T>, w: T) -> Option<T> {
    if v == Some(w) {
        v
    } else {
        None
    }
}

/// The details of `sp` alone, under `id`.
pub open spec fn details_of(id: Id, sp: Sprite) -> SpriteDetails {
    SpriteDetails {
        id,
        x: Some(sp.rect.x),
        y: Some(sp.rect.y),
        w: Some(sp.rect.w),
        h: Some(sp.rect.h),
        texture: Some(sp.texture),
    }
}

/// The details kept where they agree with `sp`.
pub open spec fn details_common(d: SpriteDetails, sp: Sprite) -> SpriteDetails {
    SpriteDetails {
        id: d.id,
        x: same_or_none(d.x, sp.rect.x),
        y: same_or_none(d.y, sp.rect.y),
        w: same_or_none(d.w, sp.rect.w),
        h: same_or_none(d.h, sp.rect.h),
        texture: same_or_none(d.texture, sp.texture),
    }
}

/// The details narrowed by each sprite of `ids` that the scene has.
pub open spec fn details_over(s: Seq<LayerView>, d: SpriteDetails, ids: Seq<Id>) -> SpriteDetails
    decreases ids.len(),
{
    if ids.len() == 0 {
        d
    } else {
        let e = details_over(s, d, ids.drop_last());
        match sprite_at_loc(s, find_sprite_local(s, ids.last())) {
            Some(sp) => details_common(e, sp),
            None => e,
        }
    }
}

/// `a` followed by the ids of `b` that are not already there, each once.
pub open spec fn union_ids(a: Seq<Id>, b: Seq<Id>) -> Seq<Id>
    decreases b.len(),
{
    if b.len() == 0 {
        a
    } else {
        let u = union_ids(a, b.drop_last());
        if u.contains(b.last()) {
            u
        } else {
            u.push(b.last())
        }
    }
}

/// Rectangles of the sprites of `ids` that the scene has, in order.
pub open spec fn rects_of(s: Seq<LayerView>, ids: Seq<Id>) -> Seq<Rect>
    decreases ids.len(),
{
    if ids.len() == 0 {
        Seq::empty()
    } else {
        let r = rects_of(s, ids.drop_last());
        match sprite_at_loc(s, find_sprite_local(s, ids.last())) {
            Some(sp) => r.push(sp.rect),
            None => r,
        }
    }
}

/// The z a new layer is given: one above the top layer, in the foreground.
pub open spec fn new_layer_z(s: Seq<LayerView>) -> int {
    if s.len() > 0 && s[0].z + 1 > 0 {
        s[0].z + 1
    } else {
        0
    }
}

/// A client's session: its copy of the scene, the permissions, the undo
/// and redo histories, the requests that await an answer and the state
/// of the pointer.
pub struct Interactor {
    pub changes: Changes,
    /// Whether requests are sent to an authority.
    pub online: bool,
    pub holding: HeldObject,
    pub history: Vec<SceneEvent>,
    pub redo_history: Vec<Option<SceneEvent>>,
    pub issued_events: Vec<ClientMessage>,
    /// Requests to hand to the transport.
    pub outgoing: Vec<ClientMessage>,
    /// The id of the next request.
    pub next_event_id: Id,
    pub perms: Perms,
    pub scene: Scene,
    pub selected_sprites: Option<Vec<Id>>,
    pub selection_marquee: Option<Rect>,
    pub user: Id,
}

impl Interactor {
    /// The identifier that stands for the whole selection.
    pub const SELECTION_ID: Id = -1;

    /// The scene is well formed, and the requests awaiting an answer have
    /// ids that rise in the order they were sent, all below the next one:
    /// so no two share an id, and each new request id is fresh and greater
    /// than those before it.
    pub open spec fn wf(&self) -> bool {
        &&& self.scene.wf()
        &&& forall|i: int| 0 <= i < self.issued_events@.len() ==> (#[trigger] self.issued_events@[i]).id < self.next_event_id
        &&& ids_rising(self.issued_events@)
    }

    /// `n` is this session after `e` was issued: sent, and awaiting an
    /// answer under a fresh request id, where the session is online and has
    /// ids left, and `e` is not a move known only here.
    pub open spec fn issued(&self, n: &Interactor, e: SceneEvent) -> bool {
        if self.online && self.next_event_id < Id::MAX && !(e is LocalSpriteMove) {
            &&& n.next_event_id == self.next_event_id + 1
            &&& n.outgoing@.len() == self.outgoing@.len() + 1
            &&& n.outgoing@.drop_last() == self.outgoing@
            &&& n.outgoing@.last().id == self.next_event_id
            &&& copy_of(n.outgoing@.last().event, e)
            &&& n.issued_events@.len() == self.issued_events@.len() + 1
            &&& n.issued_events@.drop_last() == self.issued_events@
            &&& n.issued_events@.last().id == self.next_event_id
            &&& copy_of(n.issued_events@.last().event, e)
        } else {
            &&& n.next_event_id == self.next_event_id
            &&& n.outgoing@ == self.outgoing@
            &&& n.issued_events@ == self.issued_events@
        }
    }

    /// `n` is this session after it took the event `e` (if any) that an
    /// edit produced, the edit having left the scene at `mid`: a permitted
    /// event is sent and pushed onto the history, clearing the redo
    /// history; a refused one is unwound.
    pub open spec fn took(&self, mid: SceneView, e: Option<SceneEvent>, n: &Interactor) -> bool {
        match e {
            None => {
                &&& n.scene@ == mid
                &&& n.history@ == self.history@
                &&& n.redo_history@ == self.redo_history@
                &&& n.issued_events@ == self.issued_events@
                &&& n.outgoing@ == self.outgoing@
                &&& n.next_event_id == self.next_event_id
            },
            Some(e) => if permitted_in(self.perms.roles@, self.user, mid, e) {
                &&& self.issued(n, e)
                &&& n.history@ == self.history@.push(e)
                &&& n.redo_history@.len() == 0
                &&& n.scene@ == mid
            } else {
                &&& n.scene@ == unwind_result(mid, e)
                &&& n.history@ == self.history@
                &&& n.redo_history@ == self.redo_history@
                &&& n.issued_events@ == self.issued_events@
                &&& n.outgoing@ == self.outgoing@
                &&& n.next_event_id == self.next_event_id
            },
        }
    }

    /// `f` is this session after the held sprite was let go of and the
    /// group of moves closed, `n` the session between the two.
    pub open spec fn released_through(&self, n: &Interactor, alt: bool, f: &Interactor) -> bool {
        let (mid, e) = sprite_edit(self.scene@, held_sprite_id(self.holding)->Some_0, Some(release_edit(!alt)));
        &&& self.took(mid, e, n)
        &&& grouped(n.history@, f.history@)
        &&& f.scene@ == n.scene@
        &&& f.issued_events@ == n.issued_events@
        &&& f.redo_history@ == n.redo_history@
        &&& f.outgoing@ == n.outgoing@
        &&& f.next_event_id == n.next_event_id
        &&& f.selected_sprites == self.selected_sprites
    }

    /// `n` is this session after `edit` was applied to each selected sprite
    /// and the events that record it were taken as one set.
    pub open spec fn edited_selection(&self, edit: SpriteEdit, n: &Interactor) -> bool {
        match self.selected_sprites {
            Some(ids) => {
                let (mid, ev) = selection_edit(self.scene@, ids@, edit);
                if ev.len() == 0 {
                    self.took(mid, None, n)
                } else {
                    exists|e: SceneEvent| e is EventSet && e->EventSet_0@ == ev && #[trigger] self.took(mid, Some(e), n)
                }
            },
            None => self.took(self.scene@, None, n),
        }
    }

    /// `f` is this session after the held selection was let go of and the
    /// group of moves closed, `n` the session between the two.
    pub open spec fn selection_released_through(&self, n: &Interactor, alt: bool, f: &Interactor) -> bool {
        &&& self.edited_selection(release_edit(!alt), n)
        &&& grouped(n.history@, f.history@)
        &&& f.scene@ == n.scene@
        &&& f.issued_events@ == n.issued_events@
        &&& f.redo_history@ == n.redo_history@
        &&& f.outgoing@ == n.outgoing@
        &&& f.next_event_id == n.next_event_id
        &&& f.selected_sprites == self.selected_sprites
    }

    /// `n` is this session after the events `ev` that an edit of the
    /// selection produced, the edit having left the scene at `mid`, were
    /// taken as one set (nothing where there are none).
    pub open spec fn took_set(&self, mid: SceneView, ev: Seq<SceneEvent>, n: &Interactor) -> bool {
        if ev.len() == 0 {
            self.took(mid, None, n)
        } else {
            exists|e: SceneEvent| e is EventSet && e->EventSet_0@ == ev && #[trigger] self.took(mid, Some(e), n)
        }
    }

    /// `n` has sent nothing more than this session and awaits the same answers.
    pub open spec fn unsent(&self, n: &Interactor) -> bool {
        &&& n.issued_events@ == self.issued_events@
        &&& n.outgoing@ == self.outgoing@
        &&& n.next_event_id == self.next_event_id
    }

    /// A session with the default scene, acting as the authority's updater
    /// until it is told its user id.
    pub fn new(online: bool) -> (r: Interactor)
        ensures
            r.wf(),
            r.scene@ == crate::scene::default_scene(),
            r.online == online,
            r.holding == HeldObject::Nothing,
            r.history@.len() == 0,
            r.redo_history@.len() == 0,
            r.issued_events@.len() == 0,
            r.outgoing@.len() == 0,
            r.next_event_id == 1,
            r.user == CANONICAL_UPDATER,
            r.selected_sprites is None,
            r.selection_marquee is None,
    {
        Interactor {
            changes: Changes::new(),
            online,
            holding: HeldObject::Nothing,
            history: Vec::new(),
            redo_history: Vec::new(),
            issued_events: Vec::new(),
            outgoing: Vec::new(),
            next_event_id: 1,
            perms: Perms::new(),
            scene: Scene::new(),
            selected_sprites: None,
            selection_marquee: None,
            user: CANONICAL_UPDATER,
        }
    }

    /// Hands over the requests waiting to be sent.
    pub fn take_outgoing(&mut self) -> (r: Vec<ClientMessage>)
        ensures
            r@ == old(self).outgoing@,
            final(self).outgoing@.len() == 0,
            final(self).scene@ == old(self).scene@,
            final(self).wf() == old(self).wf(),
    {
        let mut r: Vec<ClientMessage> = Vec::new();
        std::mem::swap(&mut r, &mut self.outgoing);
        r
    }

    /// Sends an event to the authority and records it as awaiting an answer.
    fn issue_client_event(&mut self, event: &SceneEvent)
        ensures
            old(self).issued(final(self), *event),
            final(self).scene == old(self).scene,
            final(self).history == old(self).history,
            final(self).redo_history == old(self).redo_history,
            final(self).holding == old(self).holding,
            final(self).changes == old(self).changes,
            final(self).selected_sprites == old(self).selected_sprites,
            final(self).perms == old(self).perms,
            final(self).user == old(self).user,
            final(self).online == old(self).online,
            final(self).selection_marquee == old(self).selection_marquee,
            old(self).wf() ==> final(self).wf(),
    {
        if self.online && self.next_event_id < Id::MAX && !matches!(event, SceneEvent::LocalSpriteMove(..)) {
            let id = self.next_event_id;
            self.next_event_id = id + 1;
            let ghost issued = self.issued_events@;
            let ghost outgoing = self.outgoing@;
            self.issued_events.push(ClientMessage { id, event: event.duplicate() });
            self.outgoing.push(ClientMessage { id, event: event.duplicate() });
            assert(self.issued_events@.drop_last() =~= issued);
            assert(self.outgoing@.drop_last() =~= outgoing);
            assert forall|i: int| 0 <= i < issued.len() implies self.issued_events@[i] == issued[i] by {}
        }
    }

    /// Whether the user may apply `event` to this session's scene.
    fn event_permitted(&self, event: &SceneEvent) -> (r: bool)
        ensures
            r == permitted_in(self.perms.roles@, self.user, self.scene@, *event),
    {
        match event {
            SceneEvent::EventSet(v) => {
                let mut i: usize = 0;
                while i < v.len()
                    invariant
                        0 <= i <= v@.len(),
                        *event == SceneEvent::EventSet(*v),
                        forall|j: int|
                            0 <= j < i ==> allows(
                                self.perms.roles@,
                                self.user,
                                #[trigger] v@[j],
                                layer_view_at(self.scene@.layers, event_layer_index(self.scene@.layers, v@[j])),
                            ),
                    decreases v@.len() - i,
                {
                    let l = self.scene.event_layer(&v[i]);
                    if !self.perms.permitted(self.user, &v[i], l) {
                        assert(event->EventSet_0@ == v@);
                        return false;
                    }
                    i += 1;
                }
                true
            },
            _ => {
                let l = self.scene.event_layer(event);
                self.perms.permitted(self.user, event, l)
            },
        }
    }

    /// Takes an event the user made, already applied to the scene: where
    /// it is permitted it is sent, pushed onto the history, and the redo
    /// history is cleared; otherwise it is unwound and not sent.
    pub fn scene_event(&mut self, event: SceneEvent)
        requires
            old(self).wf(),
        ensures
            final(self).wf(),
            final(self).holding == old(self).holding,
            final(self).selected_sprites == old(self).selected_sprites,
            final(self).online == old(self).online,
            final(self).selection_marquee == old(self).selection_marquee,
            final(self).perms == old(self).perms,
            final(self).user == old(self).user,
            old(self).took(old(self).scene@, Some(event), final(self)),
    {
        if self.event_permitted(&event) {
            self.issue_client_event(&event);
            self.redo_history.clear();
            self.history.push(event);
        } else {
            let _ = self.scene.unwind_event(event);
        }
    }

    /// Drops the request with id `id` from those awaiting an answer. Where
    /// it removed a layer, the copy of the layer kept to undo that is dropped.
    fn approve_event(&mut self, id: Id)
        requires
            old(self).wf(),
        ensures
            final(self).wf(),
            final(self).issued_events@ == old(self).issued_events@.filter(message_other(id)),
            final(self).scene@ == approved_scene(old(self).scene@, old(self).issued_events@, id),
            *final(self) == (Interactor {
                issued_events: final(self).issued_events,
                scene: final(self).scene,
                ..*old(self)
            }),
    {
        if let Some(i) = self.message_index(id) {
            if let SceneEvent::LayerRemove(c) = self.issued_events[i].event {
                self.scene.purge_removed_layer(c);
            }
        }
        let ghost orig = self.issued_events@;
        let ghost keep = message_other(id);
        let n = self.issued_events.len();
        let mut rest: Vec<ClientMessage> = Vec::new();
        std::mem::swap(&mut rest, &mut self.issued_events);
        let mut k: usize = 0;
        while rest.len() > 0
            invariant
                k <= orig.len(),
                k + rest@.len() == orig.len(),
                orig.len() == n,
                keep == message_other(id),
                self.scene@ == approved_scene(old(self).scene@, old(self).issued_events@, id),
                self.scene.wf(),
                *self == (Interactor { issued_events: self.issued_events, scene: self.scene, ..*old(self) }),
                rest@ == orig.skip(k as int),
                self.issued_events@ == orig.take(k as int).filter(keep),
            decreases rest@.len(),
        {
            let m = rest.remove(0);
            proof {
                reveal(Seq::filter);
                assert(orig.skip(k as int)[0] == orig[k as int]);
                assert(rest@ =~= orig.skip(k + 1));
                let t = orig.take(k + 1);
                assert(t.drop_last() =~= orig.take(k as int));
                assert(t.last() == orig[k as int]);
                assert(t.filter(keep) == if keep(t.last()) {
                    t.drop_last().filter(keep).push(t.last())
                } else {
                    t.drop_last().filter(keep)
                });
            }
            if m.id != id {
                self.issued_events.push(m);
            }
            k += 1;
        }
        proof {
            assert(orig.skip(k as int).len() == 0);
            assert(orig.take(k as int) =~= orig);
            lemma_filter_rising(orig, keep);
            assert forall|i: int| 0 <= i < self.issued_events@.len() implies (#[trigger] self.issued_events@[i]).id < self.next_event_id by {
                assert(orig.filter(keep).contains(self.issued_events@[i]));
                orig.lemma_filter_contains_rev(keep, self.issued_events@[i]);
            }
        }
    }

    fn message_index(&self, id: Id) -> (r: Option<usize>)
        ensures
            r matches Some(i) ==> i < self.issued_events@.len(),
            as_int(r) == first_index(self.issued_events@, message_is(id)),
    {
        let mut i: usize = 0;
        while i < self.issued_events.len()
            invariant
                0 <= i <= self.issued_events@.len(),
                forall|j: int| 0 <= j < i ==> !message_is(id)(#[trigger] self.issued_events@[j]),
            decreases self.issued_events@.len() - i,
        {
            if self.issued_events[i].id == id {
                proof {
                    assert(is_first(self.issued_events@, message_is(id), i as int));
                    lemma_first_index_is(self.issued_events@, message_is(id), i as int);
                }
                return Some(i);
            }
            i += 1;
        }
        proof {
            lemma_first_index_none(self.issued_events@, message_is(id));
        }
        None
    }

    fn held_id(&self) -> (r: Option<Id>)
        ensures
            r == held_sprite_id(self.holding),
    {
        match self.holding {
            HeldObject::Sprite(id, _) => Some(id),
            HeldObject::Anchor(id, _, _) => Some(id),
            _ => None,
        }
    }

    fn held_canonical_id(&self) -> (r: Option<Id>)
        ensures
            r == held_canonical(self.scene@, self.holding),
    {
        match self.held_id() {
            Some(id) => match self.scene.sprite(id) {
                Some(sp) => sp.canonical_id,
                None => None,
            },
            None => None,
        }
    }

    /// Takes back the request with id `id`, which the authority refused:
    /// its event is unwound, and a drag of the sprite it moved is dropped.
    fn unwind_event(&mut self, id: Id)
        requires
            old(self).wf(),
        ensures
            final(self).wf(),
            *final(self) == (Interactor {
                issued_events: final(self).issued_events,
                scene: final(self).scene,
                holding: final(self).holding,
                changes: final(self).changes,
                ..*old(self)
            }),
            match first_index(old(self).issued_events@, message_is(id)) {
                Some(i) => {
                    let e = old(self).issued_events@[i].event;
                    &&& final(self).issued_events@ == old(self).issued_events@.remove(i)
                    &&& final(self).scene@ == unwind_result(old(self).scene@, e)
                    &&& final(self).holding == if held_canonical(old(self).scene@, old(self).holding) == e.spec_item() {
                        HeldObject::Nothing
                    } else {
                        old(self).holding
                    }
                },
                None => final(self).scene@ == old(self).scene@ && final(self).issued_events@
                    == old(self).issued_events@ && final(self).holding == old(self).holding,
            },
    {
        if let Some(i) = self.message_index(id) {
            let m = self.issued_events.remove(i);
            let e = m.event;
            if self.held_canonical_id() == e.item() {
                self.holding = HeldObject::Nothing;
            }
            let layers = e.is_layer();
            self.changes.layer_change_if(layers);
            self.changes.sprite_selected_change();
            let _ = self.scene.unwind_event(e);
        }
    }

    /// Binds the canonical id that the authority gave an object this
    /// session created. Once a sprite is bound, the moves of it that the
    /// history kept by local id name it by its canonical id, and each is
    /// sent, so that the authority follows them.
    pub fn apply_ack(&mut self, ack: &SceneEventAck)
        requires
            old(self).wf(),
        ensures
            final(self).wf(),
            final(self).scene@ == ack_result(old(self).scene@, *ack),
            final(self).redo_history == old(self).redo_history,
            final(self).holding == old(self).holding,
            final(self).selected_sprites == old(self).selected_sprites,
            final(self).outgoing@.len() >= old(self).outgoing@.len(),
            final(self).outgoing@.take(old(self).outgoing@.len() as int) == old(self).outgoing@,
            match *ack {
                SceneEventAck::SpriteNew(l, Some(c)) => if bound_now(old(self).scene@, l, c) {
                    &&& final(self).history@ == rebound(old(self).history@, l, c)
                    &&& forall|j: int| old(self).outgoing@.len() <= j < final(self).outgoing@.len()
                        ==> (#[trigger] final(self).outgoing@[j]).event is SpriteMove
                            && final(self).outgoing@[j].event->SpriteMove_0 == c
                } else {
                    final(self).history == old(self).history && old(self).unsent(final(self))
                },
                _ => final(self).history == old(self).history && old(self).unsent(final(self)),
            },
    {
        let bind = match *ack {
            SceneEventAck::SpriteNew(l, Some(c)) => {
                if self.scene.sprite_loc_canonical(c).is_none() && self.scene.sprite(l).is_some() {
                    Some((l, c))
                } else {
                    None
                }
            },
            _ => None,
        };
        self.scene.apply_ack(ack);
        self.changes.sprite_change();
        let (l, c) = match bind {
            Some(b) => b,
            None => return,
        };
        let ghost h0 = self.history@;
        let ghost o0 = self.outgoing@;
        let mut i: usize = 0;
        while i < self.history.len()
            invariant
                0 <= i <= h0.len(),
                self.history@.len() == h0.len(),
                self.wf(),
                self.scene@ == ack_result(old(self).scene@, *ack),
                self.redo_history == old(self).redo_history,
                self.holding == old(self).holding,
                self.selected_sprites == old(self).selected_sprites,
                forall|j: int| 0 <= j < i ==> #[trigger] self.history@[j] == rebind(h0[j], l, c),
                forall|j: int| i <= j < h0.len() ==> #[trigger] self.history@[j] == h0[j],
                self.outgoing@.len() >= o0.len(),
                self.outgoing@.take(o0.len() as int) == o0,
                o0 == old(self).outgoing@,
                forall|j: int| o0.len() <= j < self.outgoing@.len() ==> (#[trigger] self.outgoing@[j]).event is SpriteMove
                    && self.outgoing@[j].event->SpriteMove_0 == c,
            decreases h0.len() - i,
        {
            let moved = match &self.history[i] {
                SceneEvent::LocalSpriteMove(id, from, to) => if *id == l {
                    Some((*from, *to))
                } else {
                    None
                },
                _ => None,
            };
            if let Some((from, to)) = moved {
                let e = SceneEvent::SpriteMove(c, from, to);
                let ghost before = self.outgoing@;
                self.issue_client_event(&e);
                proof {
                    if self.outgoing@.len() > before.len() {
                        assert(self.outgoing@.drop_last() == before);
                        assert forall|j: int| o0.len() <= j < self.outgoing@.len() implies (#[trigger] self.outgoing@[j]).event is SpriteMove
                            && self.outgoing@[j].event->SpriteMove_0 == c by {
                            if j < before.len() {
                                assert(self.outgoing@[j] == before[j]);
                            }
                        }
                        assert(self.outgoing@.take(o0.len() as int) =~= before.take(o0.len() as int));
                    }
                }
                let ghost hb = self.history@;
                self.history.set(i, e);
                assert forall|j: int| 0 <= j < h0.len() && j != i implies #[trigger] self.history@[j] == hb[j] by {}
            }
            i += 1;
        }
        assert(self.history@ =~= rebound(h0, l, c));
    }

    /// Replaces the scene wholesale, sorting and renumbering its layers;
    /// a scene with more layers than z can number is ignored.
    pub fn replace_scene(&mut self, new: Scene)
        requires
            old(self).wf(),
        ensures
            final(self).wf(),
            acceptable(new@) ==> final(self).scene@ == (SceneView {
                layers: crate::scene::sorted_stack(new@.layers),
                ..new@
            }),
            !acceptable(new@) ==> final(self).scene@ == old(self).scene@,
            *final(self) == (Interactor { scene: final(self).scene, changes: final(self).changes, ..*old(self) }),
    {
        let mut new = new;
        if !new.is_acceptable() {
            return;
        }
        proof {
            crate::scene::lemma_sort_desc_ok(new@.layers, new.next_id as int);
            let t = crate::scene::sort_desc(new@.layers);
            crate::scene::lemma_renumber_ok(t, crate::scene::first_below(t, 0), new.next_id as int);
        }
        new.sort_layers();
        self.scene = new;
        self.changes.all_change();
    }

    fn replace_perms(&mut self, new: Perms)
        requires
            old(self).wf(),
        ensures
            final(self).wf(),
            *final(self) == (Interactor { perms: new, ..*old(self) }),
    {
        self.perms = new;
    }

    /// Acts on what the authority sent.
    pub fn process_server_event(&mut self, event: ServerEvent)
        requires
            old(self).wf(),
        ensures
            final(self).wf(),
            final(self).history == old(self).history,
            final(self).redo_history == old(self).redo_history,
            final(self).outgoing == old(self).outgoing,
            final(self).next_event_id == old(self).next_event_id,
            final(self).online == old(self).online,
            final(self).selected_sprites == old(self).selected_sprites,
            final(self).selection_marquee == old(self).selection_marquee,
            !(event is Rejection) ==> final(self).holding == old(self).holding,
            !(event is Approval || event is Rejection) ==> final(self).issued_events == old(self).issued_events,
            !(event is UserId) ==> final(self).user == old(self).user,
            !(event is PermsChange || event is PermsUpdate) ==> final(self).perms == old(self).perms,
            (event is PermsChange || event is PermsUpdate || event is UserId) ==> final(self).scene == old(self).scene,
            event matches ServerEvent::Approval(id) ==> final(self).issued_events@
                == old(self).issued_events@.filter(message_other(id)) && final(self).scene@
                == approved_scene(old(self).scene@, old(self).issued_events@, id),
            event matches ServerEvent::Rejection(id) ==> match first_index(old(self).issued_events@, message_is(id)) {
                Some(i) => {
                    let e = old(self).issued_events@[i].event;
                    &&& final(self).issued_events@ == old(self).issued_events@.remove(i)
                    &&& final(self).scene@ == unwind_result(old(self).scene@, e)
                    &&& final(self).holding == if held_canonical(old(self).scene@, old(self).holding) == e.spec_item() {
                        HeldObject::Nothing
                    } else {
                        old(self).holding
                    }
                },
                None => final(self).issued_events@ == old(self).issued_events@ && final(self).scene@
                    == old(self).scene@ && final(self).holding == old(self).holding,
            },
            event matches ServerEvent::SceneChange(new) ==> (acceptable(new@) ==> final(self).scene@ == (SceneView {
                layers: crate::scene::sorted_stack(new@.layers),
                ..new@
            })) && (!acceptable(new@) ==> final(self).scene@ == old(self).scene@),
            event matches ServerEvent::SceneUpdate(e) ==> final(self).scene@ == crate::apply::apply_result(old(self).scene@, e).0,
            event matches ServerEvent::UserId(id) ==> final(self).user == id,
            event matches ServerEvent::PermsChange(p) ==> final(self).perms == p,
            event matches ServerEvent::PermsUpdate(pe) ==> final(self).perms.roles@ == crate::perms::roles_after(old(self).perms.roles@, CANONICAL_UPDATER, pe),
    {
        match event {
            ServerEvent::Approval(id) => self.approve_event(id),
            ServerEvent::Rejection(id) => self.unwind_event(id),
            ServerEvent::PermsChange(perms) => self.replace_perms(perms),
            ServerEvent::PermsUpdate(perms_event) => {
                self.perms.handle_event(CANONICAL_UPDATER, perms_event);
            },
            ServerEvent::SceneChange(scene) => self.replace_scene(scene),
            ServerEvent::SceneUpdate(scene_event) => {
                let layers = scene_event.is_layer();
                self.changes.layer_change_if(layers);
                let _ = self.scene.apply_event(scene_event);
            },
            ServerEvent::UserId(id) => {
                self.user = id;
            },
        }
    }

    fn start_move_group(&mut self)
        ensures
            final(self).history@ == old(self).history@.push(SceneEvent::Dummy),
            final(self).scene == old(self).scene,
            final(self).redo_history == old(self).redo_history,
            final(self).issued_events == old(self).issued_events,
            final(self).outgoing == old(self).outgoing,
            final(self).next_event_id == old(self).next_event_id,
            final(self).holding == old(self).holding,
            final(self).selected_sprites == old(self).selected_sprites,
            final(self).selection_marquee == old(self).selection_marquee,
    {
        self.history.push(SceneEvent::Dummy);
    }

    fn group_moves_single(&mut self, local: bool, sprite: Id, start: Rect, finish: Rect)
        ensures
            ({
                let (rest, first) = coalesce_single(old(self).history@, local, sprite, start);
                final(self).history@ == rest.push(if local {
                    SceneEvent::LocalSpriteMove(sprite, first, finish)
                } else {
                    SceneEvent::SpriteMove(sprite, first, finish)
                })
            }),
            final(self).scene == old(self).scene,
            final(self).redo_history == old(self).redo_history,
            final(self).issued_events == old(self).issued_events,
            final(self).outgoing == old(self).outgoing,
            final(self).next_event_id == old(self).next_event_id,
            final(self).holding == old(self).holding,
            final(self).selected_sprites == old(self).selected_sprites,
            final(self).selection_marquee == old(self).selection_marquee,
    {
        let ghost target = coalesce_single(old(self).history@, local, sprite, start);
        let mut start = start;
        loop
            invariant_except_break
                coalesce_single(self.history@, local, sprite, start) == target,
            invariant
                self.scene == old(self).scene,
                self.redo_history == old(self).redo_history,
                self.issued_events == old(self).issued_events,
                self.outgoing == old(self).outgoing,
                self.next_event_id == old(self).next_event_id,
                self.holding == old(self).holding,
                self.selected_sprites == old(self).selected_sprites,
                self.selection_marquee == old(self).selection_marquee,
            ensures
                self.history@ == target.0,
                start == target.1,
            decreases self.history@.len(),
        {
            let ghost h = self.history@;
            match self.history.pop() {
                None => {
                    break;
                },
                Some(e) => {
                    assert(h.drop_last() =~= self.history@);
                    match e {
                        SceneEvent::SpriteMove(id, from, _) => {
                            if !local && id == sprite {
                                start = from;
                                continue;
                            }
                        },
                        SceneEvent::LocalSpriteMove(id, from, _) => {
                            if local && id == sprite {
                                start = from;
                                continue;
                            }
                        },
                        _ => {},
                    }
                    if !matches!(e, SceneEvent::Dummy) {
                        self.history.push(e);
                        assert(self.history@ =~= h);
                    }
                    break;
                },
            }
        }
        if local {
            self.history.push(SceneEvent::LocalSpriteMove(sprite, start, finish));
        } else {
            self.history.push(SceneEvent::SpriteMove(sprite, start, finish));
        }
    }

    /// Position of the entry of `moves` for the sprite `id`.
    fn find_move(moves: &Vec<(Id, Rect, Rect)>, id: Id) -> (r: Option<usize>)
        ensures
            r matches Some(j) ==> j < moves@.len(),
            as_int(r) == first_index(moves@, move_of(id)),
    {
        let mut j: usize = 0;
        while j < moves.len()
            invariant
                0 <= j <= moves@.len(),
                forall|q: int| 0 <= q < j ==> !move_of(id)(#[trigger] moves@[q]),
            decreases moves@.len() - j,
        {
            if moves[j].0 == id {
                proof {
                    assert(is_first(moves@, move_of(id), j as int));
                    lemma_first_index_is(moves@, move_of(id), j as int);
                }
                return Some(j);
            }
            j += 1;
        }
        proof {
            lemma_first_index_none(moves@, move_of(id));
        }
        None
    }

    /// Merges the moves of the set `v`, which came before those already in
    /// `moves`. The moves are kept in a `Vec` in the order the sprites first
    /// appear, so that the set they make up comes out the same on every run;
    /// a hash map would hand them out in an order that varies.
    fn merge_set(moves: &mut Vec<(Id, Rect, Rect)>, v: &Vec<SceneEvent>)
        ensures
            final(moves)@ == merge_all(old(moves)@, v@),
    {
        let mut own: Vec<(Id, Rect, Rect)> = Vec::new();
        let mut i: usize = 0;
        assert(own@ =~= set_moves(v@.take(0)));
        while i < v.len()
            invariant
                0 <= i <= v@.len(),
                own@ == set_moves(v@.take(i as int)),
            decreases v@.len() - i,
        {
            assert(v@.take(i + 1).drop_last() =~= v@.take(i as int));
            if let SceneEvent::SpriteMove(id, from, to) = &v[i] {
                match Self::find_move(&own, *id) {
                    Some(j) => {
                        let start = own[j].1;
                        own.set(j, (*id, start, *to));
                    },
                    None => {
                        own.push((*id, *from, *to));
                    },
                }
            }
            i += 1;
        }
        assert(v@.take(i as int) =~= v@);
        let ghost base = moves@;
        let mut k: usize = 0;
        assert(own@.take(0).len() == 0);
        while k < own.len()
            invariant
                0 <= k <= own@.len(),
                own@ == set_moves(v@),
                moves@ == merge_earlier(base, own@.take(k as int)),
            decreases own@.len() - k,
        {
            assert(own@.take(k + 1).drop_last() =~= own@.take(k as int));
            let (id, from, _) = own[k];
            match Self::find_move(moves, id) {
                Some(j) => {
                    let end = moves[j].2;
                    moves.set(j, (id, from, end));
                },
                None => {
                    moves.push(own[k]);
                },
            }
            k += 1;
        }
        assert(own@.take(k as int) =~= own@);
    }

    fn group_moves_set(&mut self, last: SceneEvent)
        requires
            last is EventSet,
        ensures
            ({
                let (rest, moves) = coalesce_sets(old(self).history@.push(last), Seq::empty());
                &&& final(self).history@.len() == rest.len() + 1
                &&& final(self).history@.drop_last() == rest
                &&& final(self).history@.last() is EventSet
                &&& final(self).history@.last()->EventSet_0@ == moves_as_events(moves)
            }),
            final(self).scene == old(self).scene,
            final(self).redo_history == old(self).redo_history,
            final(self).issued_events == old(self).issued_events,
            final(self).outgoing == old(self).outgoing,
            final(self).next_event_id == old(self).next_event_id,
            final(self).holding == old(self).holding,
            final(self).selected_sprites == old(self).selected_sprites,
            final(self).selection_marquee == old(self).selection_marquee,
    {
        self.history.push(last);
        let ghost target = coalesce_sets(self.history@, Seq::empty());
        let mut moves: Vec<(Id, Rect, Rect)> = Vec::new();
        assert(moves@ =~= Seq::<(Id, Rect, Rect)>::empty());
        loop
            invariant_except_break
                coalesce_sets(self.history@, moves@) == target,
            invariant
                self.scene == old(self).scene,
                self.redo_history == old(self).redo_history,
                self.issued_events == old(self).issued_events,
                self.outgoing == old(self).outgoing,
                self.next_event_id == old(self).next_event_id,
                self.holding == old(self).holding,
                self.selected_sprites == old(self).selected_sprites,
                self.selection_marquee == old(self).selection_marquee,
            ensures
                self.history@ == target.0,
                moves@ == target.1,
            decreases self.history@.len(),
        {
            let ghost h = self.history@;
            match self.history.pop() {
                None => {
                    break;
                },
                Some(e) => {
                    assert(h.drop_last() =~= self.history@);
                    if let SceneEvent::EventSet(v) = &e {
                        Self::merge_set(&mut moves, v);
                        continue;
                    }
                    if !matches!(e, SceneEvent::Dummy) {
                        self.history.push(e);
                        assert(self.history@ =~= h);
                    }
                    break;
                },
            }
        }
        let mut events: Vec<SceneEvent> = Vec::new();
        let mut i: usize = 0;
        while i < moves.len()
            invariant
                0 <= i <= moves@.len(),
                events@ == moves_as_events(moves@.take(i as int)),
            decreases moves@.len() - i,
        {
            let (id, from, to) = moves[i];
            events.push(SceneEvent::SpriteMove(id, from, to));
            assert(events@ =~= moves_as_events(moves@.take(i + 1)));
            i += 1;
        }
        assert(moves@.take(i as int) =~= moves@);
        let ghost rest = self.history@;
        self.history.push(SceneEvent::EventSet(events));
        assert(self.history@.drop_last() =~= rest);
    }

    /// Ends a drag: the moves made since its group opened become one entry
    /// of the history, so that one undo takes back the whole drag.
    fn end_move_group(&mut self)
        ensures
            grouped(old(self).history@, final(self).history@),
            final(self).scene == old(self).scene,
            final(self).redo_history == old(self).redo_history,
            final(self).issued_events == old(self).issued_events,
            final(self).outgoing == old(self).outgoing,
            final(self).next_event_id == old(self).next_event_id,
            final(self).holding == old(self).holding,
            final(self).selected_sprites == old(self).selected_sprites,
            final(self).selection_marquee == old(self).selection_marquee,
    {
        let ghost h = self.history@;
        match self.history.pop() {
            Some(event) => {
                assert(h.drop_last() =~= self.history@);
                match event {
                    SceneEvent::SpriteMove(id, from, to) => {
                        self.history.push(SceneEvent::SpriteMove(id, from, to));
                        assert(self.history@ =~= h);
                        self.group_moves_single(false, id, from, to);
                    },
                    SceneEvent::LocalSpriteMove(id, from, to) => {
                        self.history.push(SceneEvent::LocalSpriteMove(id, from, to));
                        assert(self.history@ =~= h);
                        self.group_moves_single(true, id, from, to);
                    },
                    SceneEvent::EventSet(v) => {
                        assert(self.history@.push(SceneEvent::EventSet(v)) =~= h);
                        self.group_moves_set(SceneEvent::EventSet(v));
                    },
                    _ => {
                        self.history.push(event);
                        assert(self.history@ =~= h);
                    },
                }
            },
            None => {},
        }
    }

    /// Takes back the last entry of the history (past any `Dummy` markers):
    /// its event is unwound, the event that records that is sent, and it
    /// goes onto the redo history, none included.
    pub fn undo(&mut self)
        requires
            old(self).wf(),
        ensures
            final(self).wf(),
            ({
                let h = strip_dummies(old(self).history@);
                if h.len() == 0 {
                    &&& final(self).history@ == h
                    &&& final(self).scene@ == old(self).scene@
                    &&& final(self).redo_history@ == old(self).redo_history@
                    &&& old(self).unsent(final(self))
                } else {
                    let r = final(self).redo_history@.last();
                    &&& final(self).history@ == h.drop_last()
                    &&& final(self).scene@ == unwind_result(old(self).scene@, h.last())
                    &&& final(self).redo_history@ == old(self).redo_history@.push(r)
                    &&& unwound_event(old(self).scene@, h.last(), r)
                    &&& match r {
                        Some(x) => old(self).issued(final(self), x),
                        None => old(self).unsent(final(self)),
                    }
                }
            }),
    {
        proof {
            lemma_strip_dummies(old(self).history@);
        }
        loop
            invariant
                self.wf(),
                strip_dummies(self.history@) == strip_dummies(old(self).history@),
                self.scene == old(self).scene,
                self.redo_history == old(self).redo_history,
                old(self).unsent(self),
                self.online == old(self).online,
            decreases self.history@.len(),
        {
            let ghost h = self.history@;
            match self.history.pop() {
                None => {
                    return;
                },
                Some(event) => {
                    assert(h.drop_last() =~= self.history@);
                    if matches!(event, SceneEvent::Dummy) {
                        continue;
                    }
                    let opt = self.scene.unwind_event(event);
                    if let Some(inverse) = &opt {
                        let layers = inverse.is_layer();
                        self.issue_client_event(inverse);
                        self.changes.layer_change_if(layers);
                        self.changes.sprite_selected_change();
                    }
                    self.redo_history.push(opt);
                    return;
                },
            }
        }
    }

    /// Takes back the last undo: the event it recorded is unwound in turn,
    /// sent, and pushed onto the history.
    pub fn redo(&mut self)
        requires
            old(self).wf(),
        ensures
            final(self).wf(),
            old(self).redo_history@.len() == 0 ==> final(self).redo_history@ == old(self).redo_history@
                && final(self).history@ == old(self).history@ && final(self).scene@ == old(self).scene@,
            old(self).redo_history@.len() > 0 ==> final(self).redo_history@ == old(self).redo_history@.drop_last(),
            old(self).redo_history@.len() > 0 && old(self).redo_history@.last() is None ==> final(self).history@
                == old(self).history@ && final(self).scene@ == old(self).scene@,
            old(self).redo_history@.len() > 0 ==> (old(self).redo_history@.last() matches Some(e) ==> {
                &&& final(self).scene@ == unwind_result(old(self).scene@, e)
                &&& final(self).history@.len() <= old(self).history@.len() + 1
                &&& final(self).history@.take(old(self).history@.len() as int) == old(self).history@
                &&& unwound_event(
                    old(self).scene@,
                    e,
                    if final(self).history@.len() > old(self).history@.len() {
                        Some(final(self).history@.last())
                    } else {
                        None
                    },
                )
                &&& if final(self).history@.len() > old(self).history@.len() {
                    old(self).issued(final(self), final(self).history@.last())
                } else {
                    old(self).unsent(final(self))
                }
            }),
            !(old(self).redo_history@.len() > 0 && old(self).redo_history@.last() is Some) ==> old(self).unsent(final(self)),
    {
        let ghost rh = self.redo_history@;
        let ghost h = self.history@;
        if let Some(Some(event)) = self.redo_history.pop() {
            assert(rh.drop_last() =~= self.redo_history@);
            if let Some(event) = self.scene.unwind_event(event) {
                let layers = event.is_layer();
                self.issue_client_event(&event);
                self.history.push(event);
                assert(self.history@.take(h.len() as int) =~= h);
                self.changes.layer_change_if(layers);
                self.changes.sprite_selected_change();
            } else {
                assert(self.history@.take(h.len() as int) =~= h);
            }
        } else {
            proof {
                if rh.len() > 0 {
                    assert(rh.drop_last() =~= self.redo_history@);
                }
            }
        }
    }

    fn scene_option(&mut self, event_option: Option<SceneEvent>)
        requires
            old(self).wf(),
        ensures
            final(self).wf(),
            old(self).took(old(self).scene@, event_option, final(self)),
            final(self).holding == old(self).holding,
            final(self).selected_sprites == old(self).selected_sprites,
            final(self).selection_marquee == old(self).selection_marquee,
            final(self).online == old(self).online,
            final(self).perms == old(self).perms,
            final(self).user == old(self).user,
    {
        if let Some(event) = event_option {
            self.scene_event(event);
        }
    }

    /// Applies `edit` to each selected sprite and takes the events that
    /// record it as one set.
    fn selection_effect(&mut self, edit: SpriteEdit)
        requires
            old(self).wf(),
        ensures
            final(self).wf(),
            final(self).holding == old(self).holding,
            final(self).selected_sprites == old(self).selected_sprites,
            final(self).selection_marquee == old(self).selection_marquee,
            old(self).edited_selection(edit, final(self)),
    {
        let ids = match &self.selected_sprites {
            Some(ids) => ids.clone(),
            None => return,
        };
        assert(ids@ =~= self.selected_sprites->Some_0@);
        let ghost start = *self;
        let mut events: Vec<SceneEvent> = Vec::new();
        let mut i: usize = 0;
        while i < ids.len()
            invariant
                0 <= i <= ids@.len(),
                self.wf(),
                (self.scene@, events@) == selection_edit(start.scene@, ids@.take(i as int), edit),
                self.history == start.history,
                self.redo_history == start.redo_history,
                self.issued_events == start.issued_events,
                self.outgoing == start.outgoing,
                self.next_event_id == start.next_event_id,
                self.holding == start.holding,
                self.selected_sprites == start.selected_sprites,
                self.selection_marquee == start.selection_marquee,
                self.perms == start.perms,
                self.user == start.user,
                self.online == start.online,
            decreases ids@.len() - i,
        {
            assert(ids@.take(i + 1).drop_last() =~= ids@.take(i as int));
            if let Some(e) = self.scene.edit_sprite(ids[i], edit) {
                events.push(e);
            }
            i += 1;
        }
        assert(ids@.take(i as int) =~= ids@);
        if events.len() > 0 {
            let ghost ev = events@;
            let set = SceneEvent::EventSet(events);
            let ghost g = set;
            let ghost mid = *self;
            self.scene_event(set);
            self.changes.sprite_selected_change();
            assert(start.took(mid.scene@, Some(g), self));
        }
        proof {
            if start.selected_sprites is Some {
                let (m, ev) = selection_edit(start.scene@, ids@, edit);
                if ev.len() == 0 {
                    assert(start.took(m, None, self));
                }
            }
        }
    }

    /// Grabs what is at `at`: the topmost sprite that can be grabbed, which
    /// becomes the selection (or joins it with `ctrl`, or moves the whole
    /// selection where it is selected already); a marquee where there is
    /// none. Grabbing a sprite opens a group of moves.
    pub fn grab(&mut self, at: ScenePoint, ctrl: bool)
        requires
            old(self).wf(),
        ensures
            final(self).wf(),
            final(self).scene@ == old(self).scene@,
            match scene_sprite_at(old(self).scene@.layers, at) {
                Some(sp) => match old(self).selected_sprites {
                    Some(sel) => if sel@.contains(sp.local_id) || ctrl {
                        &&& final(self).holding == HeldObject::Selection(at)
                        &&& final(self).selected_sprites matches Some(n) && n@ == if sel@.contains(sp.local_id) {
                            sel@
                        } else {
                            sel@.push(sp.local_id)
                        }
                        &&& final(self).history@ == old(self).history@.push(SceneEvent::Dummy)
                    } else {
                        &&& final(self).holding == grab_of(sp, at)
                        &&& final(self).selected_sprites matches Some(n) && n@ == seq![sp.local_id]
                        &&& final(self).history@ == old(self).history@.push(SceneEvent::Dummy)
                    },
                    None => {
                        &&& final(self).holding == grab_of(sp, at)
                        &&& final(self).selected_sprites matches Some(n) && n@ == seq![sp.local_id]
                        &&& final(self).history@ == old(self).history@.push(SceneEvent::Dummy)
                    },
                },
                None => {
                    &&& final(self).holding == HeldObject::Marquee(at)
                    &&& final(self).selected_sprites == old(self).selected_sprites
                    &&& final(self).history@ == old(self).history@
                },
            },
    {
        self.holding = match self.scene.sprite_at(at) {
            Some(s) => {
                self.changes.selected_change();
                let id = s.local_id;
                match &mut self.selected_sprites {
                    Some(selected) => {
                        let already = contains_id(selected, id);
                        if already || ctrl {
                            if !already && ctrl {
                                selected.push(id);
                            }
                            HeldObject::Selection(at)
                        } else {
                            selected.clear();
                            selected.push(id);
                            assert(selected@ =~= seq![id]);
                            HeldObject::grab_sprite(&s, at)
                        }
                    },
                    None => {
                        let v = vec![id];
                        assert(v@ =~= seq![id]);
                        self.selected_sprites = Some(v);
                        HeldObject::grab_sprite(&s, at)
                    },
                }
            },
            None => HeldObject::Marquee(at),
        };
        if self.holding.is_sprite() {
            self.start_move_group();
        }
        self.changes.sprite_change();
    }

    fn update_held_sprite(&mut self, at: ScenePoint)
        requires
            old(self).wf(),
        ensures
            final(self).wf(),
            final(self).holding == old(self).holding,
            final(self).selected_sprites == old(self).selected_sprites,
            final(self).selection_marquee == old(self).selection_marquee,
            match held_sprite_id(old(self).holding) {
                Some(id) => match sprite_at_loc(old(self).scene@.layers, find_sprite_local(old(self).scene@.layers, id)) {
                    Some(sp) => {
                        let (mid, e) = sprite_edit(old(self).scene@, id, held_edit(old(self).holding, sp, at));
                        old(self).took(mid, e, final(self))
                    },
                    None => old(self).took(old(self).scene@, None, final(self)),
                },
                None => old(self).took(old(self).scene@, None, final(self)),
            },
    {
        let holding = self.holding;
        let id = match self.held_id() {
            Some(id) => id,
            None => return,
        };
        let sp = match self.scene.sprite(id) {
            Some(s) => s,
            None => return,
        };
        let edit = match holding {
            HeldObject::Sprite(_, offset) => SpriteEdit::Pos(at.delta(offset)),
            HeldObject::Anchor(_, dx, dy) => {
                if dx < -1 || dx > 1 || dy < -1 || dy > 1 {
                    return;
                }
                let r = sp.rect;
                let ax = clamp_coord(r.x as i64 + anchor_offset_wide(r.w, dx as i64));
                let ay = clamp_coord(r.y as i64 + anchor_offset_wide(r.h, dy as i64));
                let ddx = clamp_coord(at.x as i64 - ax as i64) as i64;
                let ddy = clamp_coord(at.y as i64 - ay as i64) as i64;
                assert(-0x8000_0000 <= ddx * dx <= 0x8000_0000) by (nonlinear_arith)
                    requires
                        -0x8000_0000 <= ddx < 0x8000_0000,
                        -1 <= dx <= 1,
                ;
                assert(-0x8000_0000 <= ddy * dy <= 0x8000_0000) by (nonlinear_arith)
                    requires
                        -0x8000_0000 <= ddy < 0x8000_0000,
                        -1 <= dy <= 1,
                ;
                SpriteEdit::Rect(
                    Rect {
                        x: clamp_coord(r.x as i64 + if dx == -1 { ddx } else { 0 }),
                        y: clamp_coord(r.y as i64 + if dy == -1 { ddy } else { 0 }),
                        w: clamp_coord(ddx * dx as i64 + r.w as i64),
                        h: clamp_coord(ddy * dy as i64 + r.h as i64),
                    },
                )
            },
            _ => return,
        };
        let e = self.scene.edit_sprite(id, edit);
        self.scene_option(e);
        self.changes.sprite_change();
    }

    fn drag_selection(&mut self, to: ScenePoint)
        requires
            old(self).wf(),
            old(self).holding is Selection,
        ensures
            final(self).wf(),
            final(self).holding == HeldObject::Selection(to),
            final(self).selected_sprites == old(self).selected_sprites,
            final(self).selection_marquee == old(self).selection_marquee,
            match old(self).selected_sprites {
                Some(ids) => {
                    let (mid, ev) = selection_edit(
                        old(self).scene@,
                        ids@,
                        SpriteEdit::By(to.minus(old(self).holding->Selection_0)),
                    );
                    if ev.len() == 0 {
                        old(self).took(mid, None, final(self))
                    } else {
                        exists|e: SceneEvent| e is EventSet && e->EventSet_0@ == ev && #[trigger] old(self).took(mid, Some(e), final(self))
                    }
                },
                None => old(self).took(old(self).scene@, None, final(self)),
            },
    {
        let delta = if let HeldObject::Selection(from) = self.holding {
            to.delta(from)
        } else {
            return;
        };
        let ghost start = *self;
        self.selection_effect(SpriteEdit::By(delta));
        let ghost after = *self;
        self.holding = HeldObject::Selection(to);
        proof {
            match start.selected_sprites {
                Some(ids) => {
                    let (mid, ev) = selection_edit(start.scene@, ids@, SpriteEdit::By(delta));
                    if ev.len() != 0 {
                        let e = choose|e: SceneEvent| e is EventSet && e->EventSet_0@ == ev && #[trigger] start.took(mid, Some(e), &after);
                        assert(start.took(mid, Some(e), &after));
                        assert(start.took(mid, Some(e), self));
                    }
                },
                None => {},
            }
        }
    }

    /// Drags what is held to `at`: a marquee grows, the selection moves by
    /// the pointer's movement, a sprite moves or an anchor resizes it.
    pub fn drag(&mut self, at: ScenePoint)
        requires
            old(self).wf(),
        ensures
            final(self).wf(),
            final(self).selected_sprites == old(self).selected_sprites,
            match old(self).holding {
                HeldObject::Marquee(from) => {
                    &&& final(self).selection_marquee == Some(from.spanned(at))
                    &&& old(self).took(old(self).scene@, None, final(self))
                    &&& final(self).holding == old(self).holding
                },
                HeldObject::Nothing => {
                    &&& final(self).selection_marquee == old(self).selection_marquee
                    &&& old(self).took(old(self).scene@, None, final(self))
                    &&& final(self).holding == old(self).holding
                },
                HeldObject::Selection(from) => {
                    &&& final(self).selection_marquee == old(self).selection_marquee
                    &&& final(self).holding == HeldObject::Selection(at)
                    &&& match old(self).selected_sprites {
                        Some(ids) => {
                            let (mid, ev) = selection_edit(old(self).scene@, ids@, SpriteEdit::By(at.minus(from)));
                            if ev.len() == 0 {
                                old(self).took(mid, None, final(self))
                            } else {
                                exists|e: SceneEvent| e is EventSet && e->EventSet_0@ == ev && #[trigger] old(self).took(mid, Some(e), final(self))
                            }
                        },
                        None => old(self).took(old(self).scene@, None, final(self)),
                    }
                },
                _ => {
                    &&& final(self).selection_marquee == old(self).selection_marquee
                    &&& final(self).holding == old(self).holding
                    &&& match held_sprite_id(old(self).holding) {
                        Some(id) => match sprite_at_loc(old(self).scene@.layers, find_sprite_local(old(self).scene@.layers, id)) {
                            Some(sp) => {
                                let (mid, e) = sprite_edit(old(self).scene@, id, held_edit(old(self).holding, sp, at));
                                old(self).took(mid, e, final(self))
                            },
                            None => old(self).took(old(self).scene@, None, final(self)),
                        },
                        None => old(self).took(old(self).scene@, None, final(self)),
                    }
                },
            },
    {
        match self.holding {
            HeldObject::Marquee(from) => {
                self.selection_marquee = Some(from.rect(at));
                self.changes.sprite_selected_change();
            },
            HeldObject::Nothing => {},
            HeldObject::Selection(_) => self.drag_selection(at),
            HeldObject::Sprite(_, _) | HeldObject::Anchor(_, _, _) => self.update_held_sprite(at),
        }
    }

    fn release_held_sprite(&mut self, id: Id, snap_to_grid: bool)
        requires
            old(self).wf(),
        ensures
            final(self).wf(),
            final(self).holding == old(self).holding,
            final(self).selected_sprites == old(self).selected_sprites,
            final(self).selection_marquee == old(self).selection_marquee,
            ({
                let (mid, e) = sprite_edit(old(self).scene@, id, Some(release_edit(snap_to_grid)));
                old(self).took(mid, e, final(self))
            }),
    {
        let edit = if snap_to_grid { SpriteEdit::Snap } else { SpriteEdit::MinSize };
        let opt = self.scene.edit_sprite(id, edit);
        self.scene_option(opt);
        self.changes.sprite_selected_change();
    }

    /// Lets go of what is held. A marquee selects the sprites wholly inside
    /// it (added to the selection with `ctrl`); held sprites are snapped to
    /// the grid, unless `alt` is held, and the group of moves is closed.
    pub fn release(&mut self, alt: bool, ctrl: bool)
        requires
            old(self).wf(),
        ensures
            final(self).wf(),
            final(self).holding == HeldObject::Nothing,
            final(self).selection_marquee == if old(self).holding is Marquee {
                None
            } else {
                old(self).selection_marquee
            },
            old(self).holding is Marquee ==> {
                &&& old(self).took(old(self).scene@, None, final(self))
                &&& match old(self).selection_marquee {
                    Some(region) => {
                        let found = scene_ids_in(old(self).scene@.layers, region);
                        final(self).selected_sprites matches Some(n) && n@ == union_ids(
                            if ctrl && old(self).selected_sprites is Some {
                                old(self).selected_sprites->Some_0@
                            } else {
                                Seq::empty()
                            },
                            found,
                        )
                    },
                    None => final(self).selected_sprites == if ctrl {
                        old(self).selected_sprites
                    } else {
                        None
                    },
                }
            },
            old(self).holding is Nothing ==> old(self).took(old(self).scene@, None, final(self))
                && final(self).selected_sprites == old(self).selected_sprites,
            (old(self).holding is Sprite || old(self).holding is Anchor) ==> exists|n: Interactor|
                #[trigger] old(self).released_through(&n, alt, final(self)),
            old(self).holding is Selection ==> exists|n: Interactor|
                #[trigger] old(self).selection_released_through(&n, alt, final(self)),
    {
        let ghost start = *self;
        match self.holding {
            HeldObject::Marquee(_) => {
                if !ctrl {
                    self.selected_sprites = None;
                }
                if let Some(region) = self.selection_marquee {
                    let found = self.scene.sprites_in(region);
                    let mut selected = if ctrl && self.selected_sprites.is_some() {
                        match self.selected_sprites.take() {
                            Some(v) => v,
                            None => Vec::new(),
                        }
                    } else {
                        Vec::new()
                    };
                    add_ids(&mut selected, &found);
                    self.selected_sprites = Some(selected);
                }
                self.selection_marquee = None;
                self.changes.sprite_selected_change();
            },
            HeldObject::Nothing => {},
            HeldObject::Selection(_) => self.release_selection(!alt),
            HeldObject::Sprite(id, _) | HeldObject::Anchor(id, _, _) => {
                self.release_held_sprite(id, !alt);
            },
        }
        let ghost n = *self;
        if self.holding.is_sprite() {
            self.end_move_group();
        }
        self.holding = HeldObject::Nothing;
        proof {
            if start.holding is Sprite || start.holding is Anchor {
                let (mid, e) = sprite_edit(start.scene@, held_sprite_id(start.holding)->Some_0, Some(release_edit(!alt)));
                assert(start.took(mid, e, &n));
                assert(start.released_through(&n, alt, self));
            }
            if start.holding is Selection {
                assert(start.selection_released_through(&n, alt, self));
            }
        }
    }

    fn release_selection(&mut self, snap_to_grid: bool)
        requires
            old(self).wf(),
        ensures
            final(self).wf(),
            final(self).holding == old(self).holding,
            final(self).selected_sprites == old(self).selected_sprites,
            final(self).selection_marquee == old(self).selection_marquee,
            old(self).edited_selection(release_edit(snap_to_grid), final(self)),
    {
        let edit = if snap_to_grid { SpriteEdit::Snap } else { SpriteEdit::MinSize };
        self.selection_effect(edit);
    }

    /// The layers, from the top down.
    pub fn layers(&self) -> (r: &Vec<Layer>)
        ensures
            crate::scene::views(r@) == self.scene@.layers,
    {
        &self.scene.layers
    }

    /// The scene's extent in coordinate steps.
    pub fn dimensions(&self) -> (r: Rect)
        ensures
            r == (Rect {
                x: 0,
                y: 0,
                w: clamp_i32(self.scene.w * crate::geom::UNIT) as i32,
                h: clamp_i32(self.scene.h * crate::geom::UNIT) as i32,
            }),
    {
        let w = self.scene.w as i64;
        let h = self.scene.h as i64;
        assert(0 <= w * 1000 <= 0xFFFF_FFFF * 1000) by (nonlinear_arith)
            requires
                0 <= w <= 0xFFFF_FFFF,
        ;
        assert(0 <= h * 1000 <= 0xFFFF_FFFF * 1000) by (nonlinear_arith)
            requires
                0 <= h <= 0xFFFF_FFFF,
        ;
        Rect {
            x: 0,
            y: 0,
            w: clamp_coord(self.scene.w as i64 * crate::geom::UNIT as i64),
            h: clamp_coord(self.scene.h as i64 * crate::geom::UNIT as i64),
        }
    }

    /// The single selected sprite's id, `SELECTION_ID` for several, none
    /// for none.
    pub fn selected_id(&self) -> (r: Option<Id>)
        ensures
            r == match self.selected_sprites {
                Some(v) => if v@.len() == 1 {
                    Some(v@[0])
                } else if v@.len() >= 2 {
                    Some(Self::SELECTION_ID)
                } else {
                    None
                },
                None => None,
            },
    {
        match &self.selected_sprites {
            Some(selected) => {
                if selected.len() == 1 {
                    Some(selected[0])
                } else if selected.len() >= 2 {
                    Some(Self::SELECTION_ID)
                } else {
                    None
                }
            },
            None => None,
        }
    }

    /// The first sprite with local id `id`.
    pub fn sprite_ref(&self, id: Id) -> (r: Option<Sprite>)
        ensures
            r == sprite_at_loc(self.scene@.layers, find_sprite_local(self.scene@.layers, id)),
    {
        self.scene.sprite(id)
    }

    /// The id of the sprite at `at` that a grab would take; `SELECTION_ID`
    /// where it is selected.
    pub fn sprite_at(&self, at: ScenePoint) -> (r: Option<Id>)
        ensures
            r == match scene_sprite_at(self.scene@.layers, at) {
                Some(sp) => if self.selected_sprites matches Some(v) && v@.contains(sp.local_id) {
                    Some(Self::SELECTION_ID)
                } else {
                    Some(sp.local_id)
                },
                None => None,
            },
    {
        match self.scene.sprite_at(at) {
            Some(s) => {
                if let Some(ids) = &self.selected_sprites {
                    if contains_id(ids, s.local_id) {
                        return Some(Self::SELECTION_ID);
                    }
                }
                Some(s.local_id)
            },
            None => None,
        }
    }

    /// Starts a new scene of the project `id` (none for 0), where the
    /// current scene has been saved under an id.
    pub fn new_scene(&mut self, id: Id)
        requires
            old(self).wf(),
        ensures
            final(self).wf(),
            old(self).scene.id is None ==> final(self).scene@ == old(self).scene@,
            old(self).scene.id is Some ==> final(self).scene@ == (SceneView {
                project: if id != 0 { Some(id) } else { None },
                ..crate::scene::default_scene()
            }),
    {
        if self.scene.id.is_some() {
            self.scene = Scene::new();
            if id != 0 {
                self.scene.project = Some(id);
            }
            self.changes.all_change();
        }
    }

    /// Adds an empty layer on top of the others.
    pub fn new_layer(&mut self)
        requires
            old(self).wf(),
        ensures
            final(self).wf(),
            ({
                let s = old(self).scene@;
                let z = new_layer_z(s.layers);
                if old(self).scene.next_id < Id::MAX && s.layers.len() + 1 < i32::MAX && find_layer(
                    s.layers,
                    old(self).scene.next_id,
                ) is None {
                    let l = LayerView {
                        local_id: old(self).scene.next_id,
                        canonical_id: None,
                        origin: old(self).scene.next_id,
                        title: "Untitled"@,
                        z: z as i32,
                        visible: true,
                        locked: false,
                        sprites: Seq::empty(),
                        z_min: 0,
                        z_max: 0,
                    };
                    let mid = SceneView {
                        layers: crate::scene::stack_add(s.layers, l),
                        next_id: (old(self).scene.next_id + 1) as Id,
                        ..s
                    };
                    exists|e: SceneEvent|
                        e matches SceneEvent::LayerNew(id, t, nz) && id == old(self).scene.next_id && t@
                            == "Untitled"@ && nz == crate::scene::added_z(s.layers, z)
                            && #[trigger] old(self).took(mid, Some(e), final(self))
                } else {
                    old(self).took(s, None, final(self))
                }
            }),
    {
        let z: i32 = if self.scene.layers.len() > 0 {
            let top = self.scene.layers[0].z;
            proof {
                assert(self.scene@.layers[0] == self.scene.layers@[0]@);
            }
            if top + 1 > 0 { top + 1 } else { 0 }
        } else {
            0
        };
        let ghost start = *self;
        let opt = self.scene.new_layer("Untitled", z);
        let ghost mid = self.scene@;
        let ghost made = opt;
        self.scene_option(opt);
        self.changes.layer_change();
        proof {
            if made is Some {
                assert(start.took(mid, made, self));
            }
        }
    }

    /// Removes the layer with local id `layer`.
    pub fn remove_layer(&mut self, layer: Id)
        requires
            old(self).wf(),
        ensures
            final(self).wf(),
            match first_index(old(self).scene@.layers, layer_local(layer)) {
                Some(i) => {
                    let l = old(self).scene@.layers[i];
                    let mid = SceneView {
                        layers: stack_remove(old(self).scene@.layers, i),
                        removed_layers: if l.canonical_id is Some {
                            old(self).scene@.removed_layers.push(l)
                        } else {
                            old(self).scene@.removed_layers
                        },
                        ..old(self).scene@
                    };
                    old(self).took(mid, match l.canonical_id {
                        Some(c) => Some(SceneEvent::LayerRemove(c)),
                        None => None,
                    }, final(self))
                },
                None => old(self).took(old(self).scene@, None, final(self)),
            },
    {
        let opt = self.scene.remove_layer(layer);
        self.scene_option(opt);
        self.changes.all_change();
    }

    /// Gives the layer with local id `layer` (the top layer for 0) a new title.
    pub fn rename_layer(&mut self, layer: Id, title: String)
        requires
            old(self).wf(),
        ensures
            final(self).wf(),
            match find_layer(old(self).scene@.layers, layer) {
                Some(i) => {
                    let l = old(self).scene@.layers[i];
                    let mid = SceneView {
                        layers: old(self).scene@.layers.update(i, LayerView { title: title@, ..l }),
                        ..old(self).scene@
                    };
                    match l.canonical_id {
                        Some(c) => exists|e: SceneEvent|
                            e matches SceneEvent::LayerRename(id, from, to) && id == c && from@ == l.title
                                && to@ == title@ && #[trigger] old(self).took(mid, Some(e), final(self)),
                        None => old(self).took(mid, None, final(self)),
                    }
                },
                None => old(self).took(old(self).scene@, None, final(self)),
            },
    {
        let ghost start = *self;
        let ghost t = title@;
        let opt = self.scene.rename_layer(layer, title);
        let ghost mid = self.scene@;
        let ghost made = opt;
        self.scene_option(opt);
        self.changes.layer_change();
        proof {
            if made is Some {
                assert(start.took(mid, made, self));
            }
        }
    }

    /// Shows or hides the layer with local id `layer` (the top layer for 0).
    pub fn set_layer_visible(&mut self, layer: Id, visible: bool)
        requires
            old(self).wf(),
        ensures
            final(self).wf(),
            match find_layer(old(self).scene@.layers, layer) {
                Some(i) => old(self).took(
                    SceneView {
                        layers: old(self).scene@.layers.update(i, LayerView { visible, ..old(self).scene@.layers[i] }),
                        ..old(self).scene@
                    },
                    old(self).scene@.layers[i].visibility_event(visible),
                    final(self),
                ),
                None => old(self).took(old(self).scene@, None, final(self)),
            },
    {
        if let Some(i) = self.scene.layer_index(layer) {
            let ghost s = self.scene@;
            let opt = self.scene.layers[i].set_visible(visible);
            assert(self.scene@.layers =~= s.layers.update(i as int, LayerView { visible, ..s.layers[i as int] }));
            let changed = self.scene.layers[i].sprites.len() > 0;
            self.changes.sprite_change_if(changed);
            self.scene_option(opt);
        }
    }

    /// Locks or unlocks the layer with local id `layer` (the top layer for 0).
    pub fn set_layer_locked(&mut self, layer: Id, locked: bool)
        requires
            old(self).wf(),
        ensures
            final(self).wf(),
            match find_layer(old(self).scene@.layers, layer) {
                Some(i) => old(self).took(
                    SceneView {
                        layers: old(self).scene@.layers.update(i, LayerView { locked, ..old(self).scene@.layers[i] }),
                        ..old(self).scene@
                    },
                    old(self).scene@.layers[i].locked_event(locked),
                    final(self),
                ),
                None => old(self).took(old(self).scene@, None, final(self)),
            },
    {
        if let Some(i) = self.scene.layer_index(layer) {
            let ghost s = self.scene@;
            let opt = self.scene.layers[i].set_locked(locked);
            assert(self.scene@.layers =~= s.layers.update(i as int, LayerView { locked, ..s.layers[i as int] }));
            self.scene_option(opt);
        }
    }

    /// Moves the layer with local id `layer` one step up or down.
    pub fn move_layer(&mut self, layer: Id, up: bool)
        requires
            old(self).wf(),
        ensures
            final(self).wf(),
            match first_index(old(self).scene@.layers, layer_local(layer)) {
                Some(i) => match stack_move(old(self).scene@.layers, i, up) {
                    Some(t) => old(self).took(
                        SceneView { layers: t, ..old(self).scene@ },
                        match old(self).scene@.layers[i].canonical_id {
                            Some(c) => Some(SceneEvent::LayerMove(c, old(self).scene@.layers[i].z, up)),
                            None => None,
                        },
                        final(self),
                    ),
                    None => old(self).took(old(self).scene@, None, final(self)),
                },
                None => old(self).took(old(self).scene@, None, final(self)),
            },
    {
        let opt = self.scene.move_layer(layer, up);
        self.scene_option(opt);
        self.changes.all_change();
    }

    /// Adds a one-tile sprite showing `texture` to the layer with local id
    /// `layer` (the top layer for 0).
    pub fn new_sprite(&mut self, texture: Id, layer: Id)
        requires
            old(self).wf(),
        ensures
            final(self).wf(),
            match find_layer(old(self).scene@.layers, layer) {
                Some(i) => if old(self).scene.next_id < Id::MAX {
                    let sp = Sprite::new_spec(old(self).scene.next_id, texture);
                    old(self).took(
                        SceneView {
                            layers: old(self).scene@.layers.update(i, layer_with(old(self).scene@.layers[i], sp)),
                            next_id: (old(self).scene.next_id + 1) as Id,
                            ..old(self).scene@
                        },
                        match old(self).scene@.layers[i].canonical_id {
                            Some(c) => Some(SceneEvent::SpriteNew(sp, c)),
                            None => None,
                        },
                        final(self),
                    )
                } else {
                    old(self).took(old(self).scene@, None, final(self))
                },
                None => old(self).took(old(self).scene@, None, final(self)),
            },
    {
        let opt = self.scene.new_sprite(texture, layer);
        self.scene_option(opt);
        self.changes.sprite_change();
    }

    /// Moves the sprite with local id `sprite` to `rect`.
    pub fn sprite_rect(&mut self, sprite: Id, rect: Rect)
        requires
            old(self).wf(),
        ensures
            final(self).wf(),
            ({
                let (mid, e) = sprite_edit(old(self).scene@, sprite, Some(SpriteEdit::Rect(rect)));
                old(self).took(mid, e, final(self))
            }),
    {
        let opt = self.scene.edit_sprite(sprite, SpriteEdit::Rect(rect));
        self.scene_option(opt);
        self.changes.sprite_change();
    }

    /// Sets one value of the rectangle of the sprite with local id `sprite`,
    /// or of each selected sprite for `SELECTION_ID`.
    pub fn sprite_dimension(&mut self, sprite: Id, dimension: crate::sprite::Dimension, value: i32)
        requires
            old(self).wf(),
        ensures
            final(self).wf(),
            sprite != Self::SELECTION_ID ==> ({
                let (mid, e) = sprite_edit(old(self).scene@, sprite, Some(SpriteEdit::Dimension(dimension, value)));
                old(self).took(mid, e, final(self))
            }),
            sprite == Self::SELECTION_ID ==> old(self).edited_selection(SpriteEdit::Dimension(dimension, value), final(self)),
    {
        if sprite == Self::SELECTION_ID {
            let ghost start = *self;
            self.selection_effect(SpriteEdit::Dimension(dimension, value));
            let ghost after = *self;
            self.changes.sprite_selected_change();
            proof {
                lemma_edited_selection_changes(start, SpriteEdit::Dimension(dimension, value), after, *self);
            }
        } else {
            let opt = self.scene.edit_sprite(sprite, SpriteEdit::Dimension(dimension, value));
            self.scene_option(opt);
            self.changes.sprite_selected_change();
        }
    }

    /// Outlines to draw: the selected sprites, the held sprite and the marquee.
    pub fn selections(&self) -> (r: Vec<Rect>)
        ensures
            r@ == rects_of(self.scene@.layers, match self.selected_sprites {
                Some(v) => v@,
                None => Seq::empty(),
            }) + match held_sprite_id(self.holding) {
                Some(id) => match sprite_at_loc(self.scene@.layers, find_sprite_local(self.scene@.layers, id)) {
                    Some(sp) => seq![sp.rect],
                    None => Seq::empty(),
                },
                None => Seq::empty(),
            } + match self.selection_marquee {
                Some(m) => seq![m],
                None => Seq::empty(),
            },
    {
        let mut selections: Vec<Rect> = Vec::new();
        if let Some(ids) = &self.selected_sprites {
            let mut i: usize = 0;
            while i < ids.len()
                invariant
                    0 <= i <= ids@.len(),
                    self.selected_sprites == Some(*ids),
                    selections@ == rects_of(self.scene@.layers, ids@.take(i as int)),
                decreases ids@.len() - i,
            {
                assert(ids@.take(i + 1).drop_last() =~= ids@.take(i as int));
                if let Some(s) = self.scene.sprite(ids[i]) {
                    selections.push(s.rect);
                }
                i += 1;
            }
            assert(ids@.take(i as int) =~= ids@);
        } else {
            assert(selections@ =~= rects_of(self.scene@.layers, Seq::empty()));
        }
        let ghost a = selections@;
        if let Some(id) = self.held_id() {
            if let Some(s) = self.scene.sprite(id) {
                selections.push(s.rect);
                assert(selections@ =~= a + seq![s.rect]);
            } else {
                assert(selections@ =~= a + Seq::<Rect>::empty());
            }
        } else {
            assert(selections@ =~= a + Seq::<Rect>::empty());
        }
        let ghost b = selections@;
        if let Some(rect) = self.selection_marquee {
            selections.push(rect);
            assert(selections@ =~= b + seq![rect]);
        } else {
            assert(selections@ =~= b + Seq::<Rect>::empty());
        }
        selections
    }

    /// Details of the selection: of the one selected sprite, or what all
    /// the selected sprites that exist share, the first of them existing.
    pub fn selected_details(&self) -> (r: Option<SpriteDetails>)
        ensures
            r == match self.selected_sprites {
                Some(v) => if v@.len() == 1 {
                    match sprite_at_loc(self.scene@.layers, find_sprite_local(self.scene@.layers, v@[0])) {
                        Some(sp) => Some(details_of(v@[0], sp)),
                        None => None,
                    }
                } else if v@.len() >= 2 {
                    match sprite_at_loc(self.scene@.layers, find_sprite_local(self.scene@.layers, v@[0])) {
                        Some(sp) => Some(details_over(
                            self.scene@.layers,
                            details_of(Self::SELECTION_ID, sp),
                            v@.skip(1),
                        )),
                        None => None,
                    }
                } else {
                    None
                },
                None => None,
            },
    {
        let ids = match &self.selected_sprites {
            Some(ids) => ids,
            None => return None,
        };
        if ids.len() == 0 {
            return None;
        }
        let id = if ids.len() == 1 { ids[0] } else { Self::SELECTION_ID };
        let first = match self.scene.sprite(ids[0]) {
            Some(s) => s,
            None => return None,
        };
        let mut d = SpriteDetails {
            id,
            x: Some(first.rect.x),
            y: Some(first.rect.y),
            w: Some(first.rect.w),
            h: Some(first.rect.h),
            texture: Some(first.texture),
        };
        if ids.len() == 1 {
            return Some(d);
        }
        let ghost start = d;
        let mut i: usize = 1;
        while i < ids.len()
            invariant
                1 <= i <= ids@.len(),
                d == details_over(self.scene@.layers, start, ids@.subrange(1, i as int)),
            decreases ids@.len() - i,
        {
            assert(ids@.subrange(1, i + 1).drop_last() =~= ids@.subrange(1, i as int));
            if let Some(s) = self.scene.sprite(ids[i]) {
                if d.x != Some(s.rect.x) {
                    d.x = None;
                }
                if d.y != Some(s.rect.y) {
                    d.y = None;
                }
                if d.w != Some(s.rect.w) {
                    d.w = None;
                }
                if d.h != Some(s.rect.h) {
                    d.h = None;
                }
                if d.texture != Some(s.texture) {
                    d.texture = None;
                }
            }
            i += 1;
        }
        assert(ids@.subrange(1, i as int) =~= ids@.skip(1));
        Some(d)
    }

    /// Removes the sprite with local id `sprite`, or each selected sprite
    /// for `SELECTION_ID`, the removals taken as one set.
    pub fn remove_sprite(&mut self, sprite: Id)
        requires
            old(self).wf(),
        ensures
            final(self).wf(),
            sprite != Self::SELECTION_ID ==> ({
                let (mid, e) = crate::apply::sprite_removal(old(self).scene@, sprite);
                old(self).took(mid, e, final(self))
            }),
            sprite == Self::SELECTION_ID ==> match old(self).selected_sprites {
                Some(ids) => {
                    let (mid, ev) = crate::apply::selection_removal(old(self).scene@, ids@);
                    old(self).took_set(mid, ev, final(self))
                },
                None => old(self).took(old(self).scene@, None, final(self)),
            },
    {
        if sprite == Self::SELECTION_ID {
            let ids = match &self.selected_sprites {
                Some(ids) => ids.clone(),
                None => return,
            };
            assert(ids@ =~= self.selected_sprites->Some_0@);
            let ghost start = *self;
            let mut events: Vec<SceneEvent> = Vec::new();
            let mut i: usize = 0;
            while i < ids.len()
                invariant
                    0 <= i <= ids@.len(),
                    self.wf(),
                    (self.scene@, events@) == crate::apply::selection_removal(start.scene@, ids@.take(i as int)),
                    self.history == start.history,
                    self.redo_history == start.redo_history,
                    self.issued_events == start.issued_events,
                    self.outgoing == start.outgoing,
                    self.next_event_id == start.next_event_id,
                    self.perms == start.perms,
                    self.user == start.user,
                    self.online == start.online,
                decreases ids@.len() - i,
            {
                assert(ids@.take(i + 1).drop_last() =~= ids@.take(i as int));
                if let Some(e) = self.scene.remove_sprite(ids[i]) {
                    events.push(e);
                }
                i += 1;
            }
            assert(ids@.take(i as int) =~= ids@);
            let ghost mid = self.scene@;
            if events.len() > 0 {
                let ghost ev = events@;
                let set = SceneEvent::EventSet(events);
                let ghost g = set;
                self.scene_event(set);
                assert(start.took(mid, Some(g), self));
            }
            let ghost after = *self;
            self.changes.sprite_selected_change();
            proof {
                lemma_took_set_changes(start, mid, crate::apply::selection_removal(start.scene@, ids@).1, after, *self);
            }
        } else {
            let opt = self.scene.remove_sprite(sprite);
            self.scene_option(opt);
            self.changes.sprite_change();
        }
    }

    /// Moves the sprite with local id `sprite`, or each selected sprite for
    /// `SELECTION_ID`, to the layer with local id `layer`.
    pub fn sprite_layer(&mut self, sprite: Id, layer: Id)
        requires
            old(self).wf(),
        ensures
            final(self).wf(),
            sprite != Self::SELECTION_ID ==> exists|e: Option<SceneEvent>|
                crate::apply::reparent_event(old(self).scene@, sprite, layer, e) && #[trigger] old(self).took(
                    crate::apply::reparented(old(self).scene@, sprite, layer),
                    e,
                    final(self),
                ),
            sprite == Self::SELECTION_ID ==> match old(self).selected_sprites {
                Some(ids) => {
                    let (mid, ev) = crate::apply::selection_reparent(old(self).scene@, ids@, layer);
                    old(self).took_set(mid, ev, final(self))
                },
                None => old(self).took(old(self).scene@, None, final(self)),
            },
    {
        if sprite == Self::SELECTION_ID {
            let ids = match &self.selected_sprites {
                Some(ids) => ids.clone(),
                None => return,
            };
            assert(ids@ =~= self.selected_sprites->Some_0@);
            let ghost start = *self;
            let mut events: Vec<SceneEvent> = Vec::new();
            let mut i: usize = 0;
            while i < ids.len()
                invariant
                    0 <= i <= ids@.len(),
                    self.wf(),
                    (self.scene@, events@) == crate::apply::selection_reparent(start.scene@, ids@.take(i as int), layer),
                    self.history == start.history,
                    self.redo_history == start.redo_history,
                    self.issued_events == start.issued_events,
                    self.outgoing == start.outgoing,
                    self.next_event_id == start.next_event_id,
                    self.perms == start.perms,
                    self.user == start.user,
                    self.online == start.online,
                decreases ids@.len() - i,
            {
                assert(ids@.take(i + 1).drop_last() =~= ids@.take(i as int));
                let ghost s1 = self.scene@;
                let ghost before = events@;
                match self.scene.sprite_layer(ids[i], layer) {
                    Some(SceneEvent::EventSet(mut pair)) => {
                        let ghost p = pair@;
                        events.append(&mut pair);
                        assert(events@ =~= before + p);
                    },
                    _ => {
                        assert(events@ =~= before + Seq::<SceneEvent>::empty());
                    },
                }
                i += 1;
            }
            assert(ids@.take(i as int) =~= ids@);
            let ghost mid = self.scene@;
            if events.len() > 0 {
                let set = SceneEvent::EventSet(events);
                let ghost g = set;
                self.scene_event(set);
                assert(start.took(mid, Some(g), self));
            }
            let ghost after = *self;
            self.changes.sprite_selected_change();
            proof {
                lemma_took_set_changes(start, mid, crate::apply::selection_reparent(start.scene@, ids@, layer).1, after, *self);
            }
        } else {
            let ghost start = *self;
            let opt = self.scene.sprite_layer(sprite, layer);
            let ghost made = opt;
            self.scene_option(opt);
            self.changes.sprite_change();
            assert(start.took(crate::apply::reparented(start.scene@, sprite, layer), made, self));
        }
    }
}

/// What `edited_selection` says of a session holds as well of one that
/// differs from it only in its change flags.
proof fn lemma_edited_selection_changes(a: Interactor, edit: SpriteEdit, n: Interactor, m: Interactor)
    requires
        a.edited_selection(edit, &n),
        m.scene == n.scene,
        m.history == n.history,
        m.redo_history == n.redo_history,
        m.issued_events == n.issued_events,
        m.outgoing == n.outgoing,
        m.next_event_id == n.next_event_id,
    ensures
        a.edited_selection(edit, &m),
{
    match a.selected_sprites {
        Some(ids) => {
            let (mid, ev) = selection_edit(a.scene@, ids@, edit);
            if ev.len() != 0 {
                let e = choose|e: SceneEvent| e is EventSet && e->EventSet_0@ == ev && #[trigger] a.took(mid, Some(e), &n);
                assert(a.took(mid, Some(e), &m));
            }
        },
        None => {},
    }
}

/// What `took_set` says of a session holds as well of one that differs
/// from it only in its change flags.
proof fn lemma_took_set_changes(a: Interactor, mid: SceneView, ev: Seq<SceneEvent>, n: Interactor, m: Interactor)
    requires
        a.took_set(mid, ev, &n),
        m.scene == n.scene,
        m.history == n.history,
        m.redo_history == n.redo_history,
        m.issued_events == n.issued_events,
        m.outgoing == n.outgoing,
        m.next_event_id == n.next_event_id,
    ensures
        a.took_set(mid, ev, &m),
{
    if ev.len() != 0 {
        let e = choose|e: SceneEvent| e is EventSet && e->EventSet_0@ == ev && #[trigger] a.took(mid, Some(e), &n);
        assert(a.took(mid, Some(e), &m));
    }
}

/// Adds each id of `more` that `ids` does not hold yet, in order.
fn add_ids(ids: &mut Vec<Id>, more: &Vec<Id>)
    ensures
        final(ids)@ == union_ids(old(ids)@, more@),
{
    let mut i: usize = 0;
    while i < more.len()
        invariant
            0 <= i <= more@.len(),
            ids@ == union_ids(old(ids)@, more@.take(i as int)),
        decreases more@.len() - i,
    {
        assert(more@.take(i + 1).drop_last() =~= more@.take(i as int));
        if !contains_id(ids, more[i]) {
            ids.push(more[i]);
        }
        i += 1;
    }
    assert(more@.take(i as int) =~= more@);
}

/// Whether `id` is among `ids`.
fn contains_id(ids: &Vec<Id>, id: Id) -> (r: bool)
    ensures
        r == ids@.contains(id),
{
    let mut i: usize = 0;
    while i < ids.len()
        invariant
            0 <= i <= ids@.len(),
            forall|j: int| 0 <= j < i ==> ids@[j] != id,
        decreases ids@.len() - i,
    {
        if ids[i] == id {
            assert(ids@[i as int] == id);
            return true;
        }
        i += 1;
    }
    false
}

} // verus!
