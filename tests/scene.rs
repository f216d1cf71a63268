use tabletop::event::{SceneEvent, SceneEventAck};
use tabletop::geom::Rect;
use tabletop::layer::Layer;
use tabletop::scene::Scene;
use tabletop::sprite::Sprite;

fn canon_layer(id: i64, title: &str, z: i32) -> Layer {
    let mut l = Layer::new(id, title, z);
    l.canonical_id = Some(id);
    l
}

fn zs(scene: &Scene) -> Vec<i32> {
    scene.layers.iter().map(|l| l.z).collect()
}

fn ids(scene: &Scene) -> Vec<i64> {
    scene.layers.iter().map(|l| l.local_id).collect()
}

fn three_layer_scene() -> Scene {
    Scene::new_with_layers(
        vec![canon_layer(1, "A", 1), canon_layer(2, "B", 0), canon_layer(3, "C", -1)],
        10,
    )
}

#[test]
fn new_scene_has_contiguous_layers() {
    let s = Scene::new();
    assert_eq!(zs(&s), vec![0, -1, -2]);
    assert_eq!(ids(&s), vec![1, 2, 3]);
    assert_eq!(s.next_id, 4);
    assert_eq!(s.w, 32);
}

#[test]
fn sort_layers_orders_and_renumbers() {
    let s = Scene::new_with_layers(
        vec![
            Layer::new(1, "low", -5),
            Layer::new(2, "high", 7),
            Layer::new(3, "mid", 2),
            Layer::new(4, "mid too", 2),
            Layer::new(5, "under", -1),
        ],
        10,
    );
    assert_eq!(ids(&s), vec![2, 3, 4, 5, 1]);
    assert_eq!(zs(&s), vec![2, 1, 0, -1, -2]);
}

#[test]
fn move_layer_keeps_z_contiguous() {
    let mut s = three_layer_scene();
    assert_eq!(zs(&s), vec![1, 0, -1]);
    let moves = [(3, true), (3, true), (1, false), (2, false), (2, false), (3, false), (1, true)];
    for (id, up) in moves {
        s.move_layer(id, up);
        let z = zs(&s);
        let fg = z.iter().filter(|z| **z >= 0).count() as i32;
        let expected: Vec<i32> = (0..z.len() as i32).map(|j| fg - 1 - j).collect();
        assert_eq!(z, expected);
    }
}

#[test]
fn move_layer_across_grid_keeps_order() {
    let mut s = three_layer_scene();
    // C is the top background layer: moving it up makes it the lowest foreground layer.
    let e = s.move_layer(3, true);
    assert!(matches!(e, Some(SceneEvent::LayerMove(3, -1, true))));
    assert_eq!(ids(&s), vec![1, 2, 3]);
    assert_eq!(zs(&s), vec![2, 1, 0]);
    // At the top of the foreground, A cannot move further up.
    assert!(s.move_layer(1, true).is_none());
    assert_eq!(zs(&s), vec![2, 1, 0]);
    // Within one side two layers trade places.
    s.move_layer(1, false);
    assert_eq!(ids(&s), vec![2, 1, 3]);
    assert_eq!(zs(&s), vec![2, 1, 0]);
}

#[test]
fn stale_sprite_move_is_rejected_by_authority() {
    let mut s = three_layer_scene();
    s.canon = true;
    let sprite = Sprite { canonical_id: Some(50), ..Sprite::new(0, 9) };
    let ack = s.apply_event(SceneEvent::SpriteNew(sprite, 1));
    assert_eq!(ack, SceneEventAck::SpriteNew(0, Some(50)));
    let r = Rect { x: 0, y: 0, w: 1000, h: 1000 };
    let stale = Rect { x: 5, y: 5, w: 1000, h: 1000 };
    let to = Rect { x: 2000, y: 0, w: 1000, h: 1000 };
    assert_eq!(s.apply_event(SceneEvent::SpriteMove(50, stale, to)), SceneEventAck::Rejection);
    assert_eq!(s.sprite_canonical_ref(50).unwrap().rect, r);
    // A copy that is not the authority trusts the edit.
    let mut copy = s.non_canon();
    assert_eq!(copy.apply_event(SceneEvent::SpriteMove(50, stale, to)), SceneEventAck::Approval);
    assert_eq!(copy.sprite_canonical_ref(50).unwrap().rect, to);
    // The authority takes a move from the sprite's own rectangle.
    assert_eq!(s.apply_event(SceneEvent::SpriteMove(50, r, to)), SceneEventAck::Approval);
    assert_eq!(s.sprite_canonical_ref(50).unwrap().rect, to);
}

#[test]
fn duplicate_creation_is_rejected() {
    let mut s = three_layer_scene();
    let sprite = Sprite { canonical_id: Some(50), ..Sprite::new(0, 9) };
    assert_eq!(s.apply_event(SceneEvent::SpriteNew(sprite, 1)), SceneEventAck::SpriteNew(0, Some(50)));
    assert_eq!(s.apply_event(SceneEvent::SpriteNew(sprite, 1)), SceneEventAck::Rejection);
    assert_eq!(s.layers[0].sprites.len(), 1);
    // Creation on a layer the scene does not know.
    assert_eq!(
        s.apply_event(SceneEvent::SpriteNew(Sprite { canonical_id: Some(51), ..sprite }, 99)),
        SceneEventAck::Rejection
    );
}

#[test]
fn authority_takes_local_id_as_canonical() {
    let mut s = three_layer_scene();
    s.canon = true;
    let ack = s.apply_event(SceneEvent::LayerNew(77, "new".to_string(), 5));
    assert_eq!(ack, SceneEventAck::LayerNew(77, Some(10)));
    assert_eq!(s.layers[0].local_id, 10);
    assert_eq!(s.layers[0].canonical_id, Some(10));
    assert_eq!(zs(&s), vec![2, 1, 0, -1]);
    // A copy takes the carried id as canonical, and refuses it twice.
    let mut c = three_layer_scene();
    assert_eq!(c.apply_event(SceneEvent::LayerNew(10, "new".to_string(), 5)), SceneEventAck::LayerNew(10, Some(10)));
    assert_eq!(c.apply_event(SceneEvent::LayerNew(10, "new".to_string(), 5)), SceneEventAck::Rejection);
}

#[test]
fn rename_is_compare_and_swap() {
    let mut s = three_layer_scene();
    let stale = SceneEvent::LayerRename(2, "X".to_string(), "Y".to_string());
    assert_eq!(s.apply_event(stale), SceneEventAck::Rejection);
    assert_eq!(s.layers[1].title, "B");
    let ok = SceneEvent::LayerRename(2, "B".to_string(), "Y".to_string());
    assert_eq!(s.apply_event(ok), SceneEventAck::Approval);
    assert_eq!(s.layers[1].title, "Y");
    let back = s.unwind_event(SceneEvent::LayerRename(2, "B".to_string(), "Y".to_string()));
    assert_eq!(s.layers[1].title, "B");
    match back {
        Some(SceneEvent::LayerRename(2, from, to)) => {
            assert_eq!(from, "Y");
            assert_eq!(to, "B");
        }
        _ => panic!("wrong inverse"),
    }
}

fn snapshot(s: &Scene) -> Vec<(i64, Option<i64>, String, i32, bool, bool, Vec<Sprite>)> {
    s.layers
        .iter()
        .map(|l| (l.local_id, l.canonical_id, l.title.clone(), l.z, l.visible, l.locked, l.sprites.clone()))
        .collect()
}

#[test]
fn unwind_restores_state() {
    let mut s = three_layer_scene();
    let sprite = Sprite { canonical_id: Some(50), ..Sprite::new(0, 9) };
    s.apply_event(SceneEvent::SpriteNew(sprite, 2));
    let events = vec![
        SceneEvent::LayerVisibilityChange(1, true, false),
        SceneEvent::LayerLockedChange(3, false, true),
        SceneEvent::LayerMove(3, -1, true),
        SceneEvent::LayerMove(2, 0, false),
        SceneEvent::LayerRemove(2),
        SceneEvent::LayerRemove(1),
        SceneEvent::LayerRemove(3),
        SceneEvent::LayerRename(1, "A".to_string(), "Z".to_string()),
        SceneEvent::SpriteMove(50, Rect { x: 0, y: 0, w: 1000, h: 1000 }, Rect { x: 1, y: 2, w: 3, h: 4 }),
        SceneEvent::SpriteTextureChange(50, 9, 11),
    ];
    for e in events {
        let before = snapshot(&s);
        let removed = s.removed_layers.len();
        let copy = e.duplicate();
        let ack = s.apply_event(e);
        assert_ne!(ack, SceneEventAck::Rejection);
        assert_ne!(snapshot(&s), before);
        s.unwind_event(copy);
        assert_eq!(snapshot(&s), before);
        assert_eq!(s.removed_layers.len(), removed);
    }
}

#[test]
fn event_set_applies_whole_or_not_at_all() {
    let mut s = three_layer_scene();
    let sprite = Sprite { canonical_id: Some(50), ..Sprite::new(0, 9) };
    s.apply_event(SceneEvent::SpriteNew(sprite, 2));
    s.canon = true;
    let before = snapshot(&s);
    let bad = SceneEvent::EventSet(vec![
        SceneEvent::LayerVisibilityChange(1, true, false),
        SceneEvent::SpriteTextureChange(50, 1, 2),
    ]);
    assert_eq!(s.apply_event(bad), SceneEventAck::Rejection);
    assert_eq!(snapshot(&s), before);
    let good = SceneEvent::EventSet(vec![
        SceneEvent::LayerVisibilityChange(1, true, false),
        SceneEvent::SpriteTextureChange(50, 9, 2),
    ]);
    assert_eq!(s.apply_event(good), SceneEventAck::Approval);
    assert!(!s.layers[0].visible);
    assert_eq!(s.sprite_canonical_ref(50).unwrap().texture, 2);
    let inverse = s.unwind_event(SceneEvent::EventSet(vec![
        SceneEvent::LayerVisibilityChange(1, true, false),
        SceneEvent::SpriteTextureChange(50, 9, 2),
    ]));
    assert_eq!(snapshot(&s), before);
    match inverse {
        Some(SceneEvent::EventSet(v)) => {
            assert_eq!(v.len(), 2);
            assert!(matches!(v[0], SceneEvent::SpriteTextureChange(50, 2, 9)));
            assert!(matches!(v[1], SceneEvent::LayerVisibilityChange(1, false, true)));
        }
        _ => panic!("wrong inverse"),
    }
}

#[test]
fn canonical_binding_resolves_later_events() {
    let layers = || vec![canon_layer(1, "L", 0)];
    let mut client = Scene::new_with_layers(layers(), 42);
    let mut authority = Scene::new_with_layers(layers(), 7);
    authority.canon = true;
    let event = client.new_sprite(3, 1).unwrap();
    let sprite = client.sprite(42).unwrap();
    assert_eq!(sprite.canonical_id, None);
    let ack = authority.apply_event(event);
    assert_eq!(ack, SceneEventAck::SpriteNew(42, Some(7)));
    client.apply_ack(&ack);
    assert_eq!(client.sprite(42).unwrap().canonical_id, Some(7));
    let to = Rect { x: 4000, y: 0, w: 1000, h: 1000 };
    assert_eq!(
        client.apply_event(SceneEvent::SpriteMove(7, sprite.rect, to)),
        SceneEventAck::Approval
    );
    assert_eq!(client.sprite(42).unwrap().rect, to);
    assert_eq!(client.sprite_canonical_ref(7).unwrap().local_id, 42);
}

#[test]
fn remove_and_restore_layer() {
    let mut s = three_layer_scene();
    let e = s.remove_layer(3);
    assert!(matches!(e, Some(SceneEvent::LayerRemove(3))));
    assert_eq!(ids(&s), vec![1, 2]);
    assert_eq!(s.removed_layers.len(), 1);
    let back = s.unwind_event(SceneEvent::LayerRemove(3));
    assert!(matches!(back, Some(SceneEvent::LayerNew(3, _, -1))));
    assert_eq!(ids(&s), vec![1, 2, 3]);
    assert_eq!(zs(&s), vec![1, 0, -1]);
    assert!(s.removed_layers.is_empty());
    // A layer without a canonical id is not kept.
    let mut t = Scene::new();
    assert!(t.remove_layer(1).is_none());
    assert!(t.removed_layers.is_empty());
    assert_eq!(zs(&t), vec![-1, -2]);
}

#[test]
fn add_layer_goes_after_layers_at_its_height() {
    let mut s = three_layer_scene();
    let e = s.add_layer(Layer::new(8, "between", 0));
    assert!(matches!(e, Some(SceneEvent::LayerNew(8, _, 0))));
    assert_eq!(ids(&s), vec![1, 2, 8, 3]);
    assert_eq!(zs(&s), vec![2, 1, 0, -1]);
    let e = s.add_layer(Layer::new(9, "deep", -1));
    assert!(matches!(e, Some(SceneEvent::LayerNew(9, _, -2))));
    assert_eq!(ids(&s), vec![1, 2, 8, 3, 9]);
    assert!(s.add_layer(Layer::new(9, "again", 0)).is_none());
    // A local id the scene has not handed out is refused.
    assert!(s.add_layer(Layer::new(20, "stranger", 0)).is_none());
    let mut d = Scene::new();
    d.new_layer("tie", -1);
    assert_eq!(ids(&d), vec![1, 2, 4, 3]);
    assert_eq!(zs(&d), vec![0, -1, -2, -3]);
}

#[test]
fn sprites_found_and_hit() {
    let mut s = three_layer_scene();
    let a = Sprite { rect: Rect { x: 0, y: 0, w: 2000, h: 2000 }, z: 1, ..Sprite::new(5, 1) };
    let b = Sprite { rect: Rect { x: 1000, y: 1000, w: 2000, h: 2000 }, z: 2, ..Sprite::new(6, 1) };
    let (found, _) = s.add_sprite(b, 1);
    assert!(found);
    s.add_sprite(a, 1);
    assert_eq!(s.layers[0].sprites[0].local_id, 5);
    let p = tabletop::geom::ScenePoint { x: 1500, y: 1500 };
    assert_eq!(s.sprite_at(p).unwrap().local_id, 6);
    let region = Rect { x: -10, y: -10, w: 2100, h: 2100 };
    assert_eq!(s.sprites_in(region), vec![5]);
    assert!(!s.add_sprite(Sprite::new(99, 1), 1).0);
    s.layers[0].locked = true;
    assert!(s.sprite_at(p).is_none());
    assert_eq!(s.sprites_in(region), Vec::<i64>::new());
}

#[test]
fn refresh_gives_new_local_ids() {
    let mut s = three_layer_scene();
    let sprite = Sprite { canonical_id: Some(50), ..Sprite::new(0, 9) };
    s.apply_event(SceneEvent::SpriteNew(sprite, 2));
    assert_eq!(s.next_id, 11);
    s.refresh_local_ids();
    assert_eq!(ids(&s), vec![11, 12, 14]);
    assert_eq!(s.layers[1].sprites[0].local_id, 13);
    assert_eq!(s.layers[1].sprites[0].canonical_id, Some(50));
    assert_eq!(s.next_id, 15);
    assert_eq!(zs(&s), vec![1, 0, -1]);
}

#[test]
fn layer_lookups() {
    let mut l = Layer::new(1, "L", 0);
    l.add_sprite(Sprite { canonical_id: Some(8), z: 3, ..Sprite::new(5, 1) });
    l.add_sprite(Sprite { z: 3, ..Sprite::new(6, 1) });
    l.add_sprite(Sprite { z: -2, ..Sprite::new(7, 1) });
    let order: Vec<i64> = l.sprites.iter().map(|s| s.local_id).collect();
    assert_eq!(order, vec![7, 5, 6]);
    assert_eq!((l.z_min, l.z_max), (-2, 3));
    assert_eq!(l.sprite(6).unwrap().local_id, 6);
    assert_eq!(l.sprite_canonical_ref(8).unwrap().local_id, 5);
    assert_eq!(l.sprite_canonical(8), Some(1));
    let mut more = vec![Sprite { z: 0, ..Sprite::new(9, 1) }];
    l.add_sprites(&mut more);
    assert!(more.is_empty());
    assert_eq!(l.sprites[1].local_id, 9);
    l.remove_sprite(5);
    assert!(l.sprite(5).is_none());
    assert_eq!(l.sprites.len(), 3);
    let next = l.refresh_local_ids(20);
    assert_eq!(next, 24);
    assert_eq!(l.local_id, 20);
    assert_eq!(l.sprites[2].local_id, 23);
}

#[test]
fn no_op_flag_change_is_undone() {
    let mut s = three_layer_scene();
    let before = snapshot(&s);
    let e = SceneEvent::LayerVisibilityChange(1, true, true);
    assert_eq!(s.apply_event(e.duplicate()), SceneEventAck::Approval);
    s.unwind_event(e);
    assert_eq!(snapshot(&s), before);
    let set = SceneEvent::EventSet(vec![SceneEvent::LayerLockedChange(2, false, false)]);
    assert_eq!(s.apply_event(set.duplicate()), SceneEventAck::Approval);
    s.unwind_event(set);
    assert_eq!(snapshot(&s), before);
    // Flag changes are approved whatever they started from.
    s.canon = true;
    assert_eq!(s.apply_event(SceneEvent::LayerVisibilityChange(1, false, true)), SceneEventAck::Approval);
}

#[test]
fn unwinding_a_creation_removes_what_it_made() {
    let mut s = three_layer_scene();
    s.canon = true;
    let before = snapshot(&s);
    let e = SceneEvent::LayerNew(42, "new".to_string(), 0);
    assert_eq!(s.apply_event(e.duplicate()), SceneEventAck::LayerNew(42, Some(10)));
    assert_eq!(s.layers.len(), 4);
    let inverse = s.unwind_event(e);
    assert!(matches!(inverse, Some(SceneEvent::LayerRemove(10))));
    assert_eq!(snapshot(&s), before);
    let sprite = Sprite::new(42, 3);
    let e = SceneEvent::SpriteNew(sprite, 2);
    assert_eq!(s.apply_event(e.duplicate()), SceneEventAck::SpriteNew(42, Some(11)));
    assert_eq!(s.sprite(11).unwrap().canonical_id, Some(11));
    let inverse = s.unwind_event(e);
    assert!(matches!(inverse, Some(SceneEvent::SpriteRemove(Sprite { local_id: 11, .. }, 2))));
    assert_eq!(snapshot(&s), before);
}

#[test]
fn unwinding_a_creation_leaves_older_objects_of_the_same_origin() {
    let mut s = Scene::new();
    let before = snapshot(&s);
    let e = SceneEvent::LayerNew(1, String::new(), -5);
    assert_ne!(s.apply_event(e.duplicate()), SceneEventAck::Rejection);
    s.unwind_event(e);
    assert_eq!(snapshot(&s), before);
    let mut t = three_layer_scene();
    let older = Sprite::new(4, 1);
    t.add_sprite(Sprite { origin: 42, ..older }, 1);
    let before = snapshot(&t);
    let e = SceneEvent::SpriteNew(Sprite { origin: 42, ..Sprite::new(42, 2) }, 1);
    assert_ne!(t.apply_event(e.duplicate()), SceneEventAck::Rejection);
    t.unwind_event(e);
    assert_eq!(snapshot(&t), before);
}
