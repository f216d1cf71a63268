use tabletop::event::{SceneEvent, SceneEventAck};
use tabletop::geom::{Rect, ScenePoint};
use tabletop::interactor::{Interactor, ServerEvent};
use tabletop::pointer::HeldObject;
use tabletop::perms::{Perms, PermsEvent, Role};
use tabletop::scene::Scene;
use tabletop::sprite::Sprite;

/// A session whose layers have canonical ids and whose sprite 4 is bound
/// to canonical id 7.
fn session() -> Interactor {
    let mut it = Interactor::new(true);
    let mut scene = Scene::new();
    for l in scene.layers.iter_mut() {
        l.canonical_id = Some(l.local_id + 100);
    }
    it.replace_scene(scene);
    it.new_sprite(1, 0);
    it.apply_ack(&SceneEventAck::SpriteNew(4, Some(7)));
    it
}

fn pt(x: i32, y: i32) -> ScenePoint {
    ScenePoint { x, y }
}

#[test]
fn drag_is_undone_in_one_step() {
    let mut it = session();
    assert_eq!(it.sprite_ref(4).unwrap().rect, Rect { x: 0, y: 0, w: 1000, h: 1000 });
    it.grab(pt(500, 500), false);
    assert!(matches!(it.holding, HeldObject::Sprite(4, ScenePoint { x: 500, y: 500 })));
    for k in 1..=5 {
        it.drag(pt(500 + 600 * k, 500 + 600 * k));
    }
    it.release(false, false);
    assert_eq!(it.sprite_ref(4).unwrap().rect, Rect { x: 3000, y: 3000, w: 1000, h: 1000 });
    assert!(matches!(it.holding, HeldObject::Nothing));
    it.undo();
    assert_eq!(it.sprite_ref(4).unwrap().rect, Rect { x: 0, y: 0, w: 1000, h: 1000 });
    it.redo();
    assert_eq!(it.sprite_ref(4).unwrap().rect, Rect { x: 3000, y: 3000, w: 1000, h: 1000 });
}

#[test]
fn small_sprite_is_grabbed_by_its_anchor() {
    let sprite = Sprite { rect: Rect { x: 0, y: 0, w: 100, h: 100 }, ..Sprite::new(9, 1) };
    assert_eq!(HeldObject::grab_sprite(&sprite, pt(0, 0)), HeldObject::Anchor(9, -1, -1));
    assert_eq!(HeldObject::grab_sprite(&sprite, pt(100, 50)), HeldObject::Anchor(9, 1, 0));
    assert_eq!(HeldObject::grab_sprite(&sprite, pt(30, 30)), HeldObject::Sprite(9, pt(30, 30)));
    let big = Sprite { rect: Rect { x: 0, y: 0, w: 2000, h: 2000 }, ..Sprite::new(9, 1) };
    assert_eq!(HeldObject::grab_sprite(&big, pt(100, 100)), HeldObject::Anchor(9, -1, -1));
    assert_eq!(HeldObject::grab_sprite(&big, pt(150, 150)), HeldObject::Sprite(9, pt(150, 150)));
}

#[test]
fn small_sprite_resizes_from_its_corner() {
    let mut it = session();
    it.sprite_rect(4, Rect { x: 0, y: 0, w: 100, h: 100 });
    it.grab(pt(100, 100), false);
    assert!(matches!(it.holding, HeldObject::Anchor(4, 1, 1)));
    it.drag(pt(300, 400));
    assert_eq!(it.sprite_ref(4).unwrap().rect, Rect { x: 0, y: 0, w: 300, h: 400 });
    it.release(true, false);
    assert_eq!(it.sprite_ref(4).unwrap().rect, Rect { x: 0, y: 0, w: 300, h: 400 });
}

#[test]
fn approval_twice_is_a_no_op() {
    let mut it = session();
    it.set_layer_visible(0, false);
    it.set_layer_locked(0, true);
    let sent = it.take_outgoing();
    assert_eq!(sent.len(), 3);
    assert_eq!(it.issued_events.len(), 3);
    let id = sent[1].id;
    it.process_server_event(ServerEvent::Approval(id));
    assert_eq!(it.issued_events.len(), 2);
    assert!(it.issued_events.iter().all(|m| m.id != id));
    it.process_server_event(ServerEvent::Approval(id));
    assert_eq!(it.issued_events.len(), 2);
}

#[test]
fn rejection_unwinds_the_event() {
    let mut it = session();
    it.set_layer_visible(0, false);
    assert!(!it.layers()[0].visible);
    let sent = it.take_outgoing();
    let id = sent.last().unwrap().id;
    it.process_server_event(ServerEvent::Rejection(id));
    assert!(it.layers()[0].visible);
    assert_eq!(it.issued_events.len(), 1);
}

#[test]
fn rejection_drops_a_drag_of_that_sprite() {
    let mut it = session();
    it.grab(pt(500, 500), false);
    it.drag(pt(700, 700));
    let id = it.issued_events.last().unwrap().id;
    it.process_server_event(ServerEvent::Rejection(id));
    assert!(matches!(it.holding, HeldObject::Nothing));
    assert_eq!(it.sprite_ref(4).unwrap().rect, Rect { x: 0, y: 0, w: 1000, h: 1000 });
}

#[test]
fn refused_edit_is_unwound_and_not_sent() {
    let mut it = session();
    it.process_server_event(ServerEvent::UserId(5));
    let mut perms = Perms::new();
    perms.handle_event(0, PermsEvent::RoleChange(5, Role::Spectator));
    it.process_server_event(ServerEvent::PermsChange(perms));
    let before = it.issued_events.len();
    it.sprite_rect(4, Rect { x: 1, y: 1, w: 10, h: 10 });
    assert_eq!(it.sprite_ref(4).unwrap().rect, Rect { x: 0, y: 0, w: 1000, h: 1000 });
    assert_eq!(it.issued_events.len(), before);
}

#[test]
fn marquee_selects_sprites_inside() {
    let mut it = session();
    it.grab(pt(-100, -100), false);
    assert!(matches!(it.holding, HeldObject::Marquee(_)));
    it.drag(pt(1100, 1100));
    it.release(false, false);
    assert_eq!(it.selected_id(), Some(4));
    assert_eq!(it.sprite_at(pt(10, 10)), Some(Interactor::SELECTION_ID));
    it.grab(pt(5000, 5000), false);
    it.drag(pt(6000, 6000));
    it.release(false, false);
    assert_eq!(it.selected_id(), None);
}

#[test]
fn selection_moves_as_a_set() {
    let mut it = session();
    it.grab(pt(500, 500), false);
    it.release(true, false);
    it.grab(pt(500, 500), false);
    assert!(matches!(it.holding, HeldObject::Selection(_)));
    it.drag(pt(1500, 500));
    it.drag(pt(2500, 500));
    it.release(false, false);
    assert_eq!(it.sprite_ref(4).unwrap().rect, Rect { x: 2000, y: 0, w: 1000, h: 1000 });
    it.undo();
    assert_eq!(it.sprite_ref(4).unwrap().rect, Rect { x: 0, y: 0, w: 1000, h: 1000 });
}

#[test]
fn incoming_update_is_applied() {
    let mut it = session();
    it.process_server_event(ServerEvent::SceneUpdate(SceneEvent::SpriteTextureChange(7, 1, 8)));
    assert_eq!(it.sprite_ref(4).unwrap().texture, 8);
    it.process_server_event(ServerEvent::SceneUpdate(SceneEvent::LayerRename(
        101,
        "Foreground".to_string(),
        "Front".to_string(),
    )));
    assert_eq!(it.layers()[0].title, "Front");
}

#[test]
fn layer_moves_are_undone() {
    let mut it = session();
    it.move_layer(1, false);
    assert_eq!(it.layers()[0].z, -1);
    it.undo();
    assert_eq!(it.layers()[0].z, 0);
    assert_eq!(it.layers()[0].local_id, 1);
}

#[test]
fn removed_sprite_comes_back_on_undo() {
    let mut it = session();
    it.remove_sprite(4);
    assert!(it.sprite_ref(4).is_none());
    assert!(matches!(
        it.outgoing.last().map(|m| &m.event),
        Some(SceneEvent::SpriteRemove(Sprite { local_id: 4, canonical_id: Some(7), .. }, 101))
    ));
    it.undo();
    // The sprite comes back under a new local id, with its canonical id.
    let back = it.scene.sprite_canonical_ref(7).unwrap();
    assert_ne!(back.local_id, 4);
    assert!(matches!(it.outgoing.last().map(|m| &m.event), Some(SceneEvent::SpriteNew(_, 101))));
    it.redo();
    assert!(it.scene.sprite_canonical_ref(7).is_none());
}

#[test]
fn sprite_moves_to_another_layer() {
    let mut it = session();
    it.sprite_layer(4, 2);
    assert!(it.layers()[0].sprites.is_empty());
    assert_eq!(it.layers()[1].sprites[0].local_id, 4);
    it.undo();
    assert_eq!(it.layers()[0].sprites[0].canonical_id, Some(7));
    assert!(it.layers()[1].sprites.is_empty());
}

#[test]
fn details_of_the_selection() {
    let mut it = session();
    it.new_sprite(2, 0);
    it.grab(pt(-100, -100), false);
    it.drag(pt(1100, 1100));
    it.release(false, false);
    let d = it.selected_details().unwrap();
    assert_eq!(d.id, Interactor::SELECTION_ID);
    assert_eq!((d.x, d.y, d.w, d.h, d.texture), (Some(0), Some(0), Some(1000), Some(1000), None));
    it.sprite_rect(5, Rect { x: 0, y: 0, w: 800, h: 800 });
    let d = it.selected_details().unwrap();
    assert_eq!((d.x, d.w), (Some(0), None));
    it.grab(pt(900, 900), false);
    it.release(true, false);
    let d = it.selected_details().unwrap();
    assert_eq!(d.id, Interactor::SELECTION_ID);
}

#[test]
fn confirmed_layer_removal_drops_the_kept_copy() {
    let mut it = session();
    it.remove_layer(2);
    assert_eq!(it.scene.removed_layers.len(), 1);
    let id = it.issued_events.last().unwrap().id;
    it.process_server_event(ServerEvent::Approval(id));
    assert!(it.scene.removed_layers.is_empty());
    it.process_server_event(ServerEvent::Approval(id));
    assert!(it.scene.removed_layers.is_empty());
    assert_eq!(it.layers().len(), 2);
}

#[test]
fn repeated_sprite_in_a_set_groups_to_its_whole_move() {
    let mut it = session();
    // Select sprite 4 twice: with ctrl, a marquee adds only sprites not yet selected.
    it.grab(pt(-100, -100), false);
    it.drag(pt(1100, 1100));
    it.release(false, false);
    it.grab(pt(-100, -100), false);
    it.drag(pt(1100, 1100));
    it.release(false, true);
    assert_eq!(it.selected_id(), Some(4));
    it.grab(pt(500, 500), false);
    it.drag(pt(1500, 500));
    it.release(false, false);
    assert_eq!(it.sprite_ref(4).unwrap().rect, Rect { x: 1000, y: 0, w: 1000, h: 1000 });
    it.undo();
    assert_eq!(it.sprite_ref(4).unwrap().rect, Rect { x: 0, y: 0, w: 1000, h: 1000 });
}

#[test]
fn a_set_moving_one_sprite_twice_is_merged() {
    let mut it = session();
    let a = Rect { x: 0, y: 0, w: 1000, h: 1000 };
    let b = Rect { x: 1000, y: 0, w: 1000, h: 1000 };
    let c = Rect { x: 2000, y: 0, w: 1000, h: 1000 };
    let d = Rect { x: 3000, y: 0, w: 1000, h: 1000 };
    it.history.push(SceneEvent::Dummy);
    it.history.push(SceneEvent::EventSet(vec![SceneEvent::SpriteMove(7, a, b), SceneEvent::SpriteMove(7, b, c)]));
    it.history.push(SceneEvent::EventSet(vec![SceneEvent::SpriteMove(7, c, d)]));
    it.selected_sprites = None;
    it.holding = HeldObject::Selection(pt(0, 0));
    it.release(true, false);
    match it.history.last() {
        Some(SceneEvent::EventSet(v)) => {
            assert_eq!(v.len(), 1);
            assert!(matches!(v[0], SceneEvent::SpriteMove(7, from, to) if from == a && to == d));
        }
        _ => panic!("not grouped"),
    }
}

#[test]
fn anchor_radius_is_not_rounded_down() {
    let sprite = Sprite { rect: Rect { x: 0, y: 0, w: 99, h: 99 }, ..Sprite::new(9, 1) };
    assert_eq!(HeldObject::grab_sprite(&sprite, pt(14, 14)), HeldObject::Anchor(9, -1, -1));
    assert_eq!(HeldObject::grab_sprite(&sprite, pt(15, 15)), HeldObject::Sprite(9, pt(15, 15)));
}

#[test]
fn drag_of_an_unbound_sprite_is_undone_in_one_step() {
    let mut it = Interactor::new(true);
    it.new_sprite(1, 0);
    assert_eq!(it.sprite_ref(4).unwrap().canonical_id, None);
    it.grab(pt(500, 500), false);
    for k in 1..=5 {
        it.drag(pt(500 + 600 * k, 500 + 600 * k));
    }
    it.release(false, false);
    assert_eq!(it.sprite_ref(4).unwrap().rect, Rect { x: 3000, y: 3000, w: 1000, h: 1000 });
    // Moves of a sprite no other process knows are not sent.
    assert!(it.outgoing.is_empty());
    it.undo();
    assert_eq!(it.sprite_ref(4).unwrap().rect, Rect { x: 0, y: 0, w: 1000, h: 1000 });
}

#[test]
fn moves_kept_locally_are_sent_once_the_sprite_is_bound() {
    let mut it = Interactor::new(true);
    let mut scene = Scene::new();
    for l in scene.layers.iter_mut() {
        l.canonical_id = Some(l.local_id + 100);
    }
    it.replace_scene(scene);
    it.new_sprite(1, 0);
    let sent_before = it.take_outgoing().len();
    assert_eq!(sent_before, 1);
    it.grab(pt(500, 500), false);
    it.drag(pt(1500, 1500));
    it.release(false, false);
    assert!(it.outgoing.is_empty());
    it.apply_ack(&SceneEventAck::SpriteNew(4, Some(7)));
    assert_eq!(it.outgoing.len(), 1);
    assert!(matches!(it.outgoing[0].event, SceneEvent::SpriteMove(7, from, to)
        if from == Rect { x: 0, y: 0, w: 1000, h: 1000 } && to == Rect { x: 1000, y: 1000, w: 1000, h: 1000 }));
    it.undo();
    assert_eq!(it.sprite_ref(4).unwrap().rect, Rect { x: 0, y: 0, w: 1000, h: 1000 });
    assert!(matches!(it.outgoing.last().map(|m| &m.event), Some(SceneEvent::SpriteMove(7, _, _))));
}
