use vstd::prelude::*;

use crate::event::SceneEvent;
use crate::geom::Rect;
use crate::search::first_index;
use crate::Id;

verus! {

/// The history with the `Dummy` markers at its end taken off.
pub open spec fn strip_dummies(h: Seq<SceneEvent>) -> Seq<SceneEvent>
    decreases h.len(),
{
    if h.len() > 0 && h.last() is Dummy {
        strip_dummies(h.drop_last())
    } else {
        h
    }
}

pub proof fn lemma_strip_dummies(h: Seq<SceneEvent>)
    ensures
        strip_dummies(h).len() <= h.len(),
        strip_dummies(h) == h.take(strip_dummies(h).len() as int),
        strip_dummies(h).len() > 0 ==> !(strip_dummies(h).last() is Dummy),
    decreases h.len(),
{
    if h.len() > 0 && h.last() is Dummy {
        lemma_strip_dummies(h.drop_last());
        let n = strip_dummies(h).len() as int;
        assert(h.drop_last().take(n) =~= h.take(n));
    } else {
        assert(h.take(h.len() as int) =~= h);
    }
}

/// The history after the moves of one sprite at its end are taken off,
/// down to the `Dummy` that opened the group (taken off too) or another
/// event (kept); and the rectangle the first of those moves started from.
pub open spec fn coalesce_single(h: Seq<SceneEvent>, local: bool, id: Id, start: Rect) -> (Seq<SceneEvent>, Rect)
    decreases h.len(),
{
    if h.len() == 0 {
        (h, start)
    } else if moves_sprite(h.last(), local, id) {
        coalesce_single(h.drop_last(), local, id, move_start(h.last()))
    } else if h.last() is Dummy {
        (h.drop_last(), start)
    } else {
        (h, start)
    }
}

/// `e` moves the sprite `id`: by canonical id, or for `local` by local id.
pub open spec fn moves_sprite(e: SceneEvent, local: bool, id: Id) -> bool {
    match e {
        SceneEvent::SpriteMove(i, _, _) => !local && i == id,
        SceneEvent::LocalSpriteMove(i, _, _) => local && i == id,
        _ => false,
    }
}

/// Where a move starts.
pub open spec fn move_start(e: SceneEvent) -> Rect {
    match e {
        SceneEvent::SpriteMove(_, from, _) => from,
        SceneEvent::LocalSpriteMove(_, from, _) => from,
        _ => Rect { x: 0, y: 0, w: 0, h: 0 },
    }
}

pub open spec fn move_of(id: Id) -> spec_fn((Id, Rect, Rect)) -> bool {
    |m: (Id, Rect, Rect)| m.0 == id
}

/// The moves of one set, one entry per sprite in the order the sprites
/// first appear: a sprite moved more than once in the set starts where its
/// first move started and ends where its last move ended.
pub open spec fn set_moves(v: Seq<SceneEvent>) -> Seq<(Id, Rect, Rect)>
    decreases v.len(),
{
    if v.len() == 0 {
        Seq::empty()
    } else {
        let m = set_moves(v.drop_last());
        match v.last() {
            SceneEvent::SpriteMove(id, from, to) => match first_index(m, move_of(id)) {
                Some(i) => m.update(i, (id, m[i].1, to)),
                None => m.push((id, from, to)),
            },
            _ => m,
        }
    }
}

/// The moves of later sets with the moves `m` of an earlier set merged
/// in: a sprite already there now starts where its earlier move started.
pub open spec fn merge_earlier(acc: Seq<(Id, Rect, Rect)>, m: Seq<(Id, Rect, Rect)>) -> Seq<(Id, Rect, Rect)>
    decreases m.len(),
{
    if m.len() == 0 {
        acc
    } else {
        let a = merge_earlier(acc, m.drop_last());
        let e = m.last();
        match first_index(a, move_of(e.0)) {
            Some(i) => a.update(i, (e.0, e.1, a[i].2)),
            None => a.push(e),
        }
    }
}

/// The moves of later sets with an earlier set `v` merged in.
pub open spec fn merge_all(acc: Seq<(Id, Rect, Rect)>, v: Seq<SceneEvent>) -> Seq<(Id, Rect, Rect)> {
    merge_earlier(acc, set_moves(v))
}

/// The history after the sets at its end are taken off, down to the
/// `Dummy` that opened the group (taken off too) or another event (kept);
/// and the moves of those sets merged, one per sprite.
pub open spec fn coalesce_sets(h: Seq<SceneEvent>, acc: Seq<(Id, Rect, Rect)>) -> (Seq<SceneEvent>, Seq<(Id, Rect, Rect)>)
    decreases h.len(),
{
    if h.len() == 0 {
        (h, acc)
    } else if h.last() is EventSet {
        coalesce_sets(h.drop_last(), merge_all(acc, h.last()->EventSet_0@))
    } else if h.last() is Dummy {
        (h.drop_last(), acc)
    } else {
        (h, acc)
    }
}

pub open spec fn moves_as_events(m: Seq<(Id, Rect, Rect)>) -> Seq<SceneEvent> {
    Seq::new(m.len(), |i: int| SceneEvent::SpriteMove(m[i].0, m[i].1, m[i].2))
}

/// The history after a drag ends: the moves made since the group opened
/// become one entry.
pub open spec fn grouped(h: Seq<SceneEvent>, n: Seq<SceneEvent>) -> bool {
    if h.len() == 0 {
        n == h
    } else {
        match h.last() {
            SceneEvent::SpriteMove(id, from, to) => {
                let (rest, start) = coalesce_single(h, false, id, from);
                n == rest.push(SceneEvent::SpriteMove(id, start, to))
            },
            SceneEvent::LocalSpriteMove(id, from, to) => {
                let (rest, start) = coalesce_single(h, true, id, from);
                n == rest.push(SceneEvent::LocalSpriteMove(id, start, to))
            },
            SceneEvent::EventSet(_) => {
                let (rest, moves) = coalesce_sets(h, Seq::empty());
                &&& n.len() == rest.len() + 1
                &&& n.drop_last() == rest
                &&& n.last() is EventSet
                &&& n.last()->EventSet_0@ == moves_as_events(moves)
            },
            _ => n == h,
        }
    }
}

} // verus!
