use tabletop::changes::Changes;
use tabletop::event::SceneEvent;
use tabletop::geom::{Rect, ScenePoint};
use tabletop::layer::Layer;
use tabletop::media::parse_media_key;
use tabletop::perms::{Perms, PermsEvent, Role, CANONICAL_UPDATER};
use tabletop::sprite::{Dimension, Sprite, SpriteEdit};

#[test]
fn media_keys() {
    assert_eq!(parse_media_key("00000000000000ff"), 255);
    assert_eq!(parse_media_key("0000000000000100"), 256);
    assert_eq!(parse_media_key("ffffffffffffffff"), -1);
    assert_eq!(parse_media_key("8000000000000000"), i64::MIN);
    assert_eq!(parse_media_key("7FFFFFFFFFFFFFFF"), i64::MAX);
    assert_eq!(parse_media_key("00000000000000+f"), 0);
    assert_eq!(parse_media_key("+100000000000000"), 0);
    assert_eq!(parse_media_key("0000000000000001"), 1);
    assert_eq!(parse_media_key("00000000000000fg"), 0);
    assert_eq!(parse_media_key("00ff"), 0);
    assert_eq!(parse_media_key(""), 0);
}

#[test]
fn changes_are_handled_once() {
    let mut c = Changes::new();
    assert!(c.handle_layer_change());
    assert!(!c.handle_layer_change());
    assert!(c.handle_sprite_change());
    assert!(!c.handle_sprite_change());
    assert!(c.handle_selected_change());
    c.all_change_if(false);
    assert!(!c.handle_selected_change());
    c.sprite_selected_change();
    assert!(c.handle_selected_change());
    assert!(c.handle_sprite_change());
    assert!(!c.handle_layer_change());
}

#[test]
fn rectangles() {
    let r = Rect { x: 10, y: 10, w: -10, h: 20 };
    assert!(r.contains_point(ScenePoint { x: 0, y: 30 }));
    assert!(!r.contains_point(ScenePoint { x: 11, y: 10 }));
    assert!(r.contains_rect(&Rect { x: 2, y: 12, w: 3, h: 3 }));
    let p = ScenePoint { x: i32::MAX, y: 0 }.offset(ScenePoint { x: 5, y: -5 });
    assert_eq!(p, ScenePoint { x: i32::MAX, y: -5 });
    assert_eq!(ScenePoint { x: 1, y: 2 }.rect(ScenePoint { x: 4, y: 0 }), Rect { x: 1, y: 2, w: 3, h: -2 });
}

#[test]
fn sprite_edits() {
    let mut s = Sprite { canonical_id: Some(3), ..Sprite::new(1, 1) };
    s.rect = Rect { x: 1400, y: -600, w: 1600, h: 300 };
    let e = s.snap_to_grid();
    assert_eq!(s.rect, Rect { x: 1000, y: -1000, w: 2000, h: 1000 });
    assert!(matches!(e, Some(SceneEvent::SpriteMove(3, _, _))));
    s.rect = Rect { x: 100, y: 100, w: -50, h: 500 };
    s.enforce_min_size();
    assert_eq!(s.rect, Rect { x: 50, y: 100, w: 100, h: 500 });
    assert!(s.enforce_min_size().is_none());
    s.edit(SpriteEdit::Dimension(Dimension::W, 700));
    assert_eq!(s.rect.w, 700);
    let e = s.set_texture(5);
    assert!(matches!(e, Some(SceneEvent::SpriteTextureChange(3, 1, 5))));
    assert_eq!(s.anchor_point(0, 1), ScenePoint { x: 400, y: 600 });
    let mut u = Sprite::new(2, 1);
    assert!(matches!(u.move_by(ScenePoint { x: 5, y: 5 }), Some(SceneEvent::LocalSpriteMove(2, _, _))));
    assert_eq!(u.rect.x, 5);
}

#[test]
fn permissions() {
    let mut p = Perms::new();
    let mut layer = Layer::new(1, "L", 0);
    layer.canonical_id = Some(1);
    let mv = SceneEvent::SpriteMove(3, Rect { x: 0, y: 0, w: 1, h: 1 }, Rect { x: 1, y: 1, w: 1, h: 1 });
    let rename = SceneEvent::LayerRename(1, "L".to_string(), "M".to_string());
    assert!(p.permitted(9, &mv, Some(&layer)));
    assert!(!p.permitted(9, &mv, None));
    assert!(!p.permitted(9, &rename, Some(&layer)));
    assert!(p.permitted(CANONICAL_UPDATER, &rename, None));
    layer.locked = true;
    assert!(!p.permitted(9, &mv, Some(&layer)));
    p.handle_event(9, PermsEvent::RoleChange(9, Role::Owner));
    assert_eq!(p.role(9), Role::Player);
    p.handle_event(CANONICAL_UPDATER, PermsEvent::RoleChange(9, Role::Owner));
    assert_eq!(p.role(9), Role::Owner);
    assert!(p.permitted(9, &rename, Some(&layer)));
    p.handle_event(9, PermsEvent::RoleChange(4, Role::Spectator));
    assert_eq!(p.role(4), Role::Spectator);
    layer.locked = false;
    assert!(!p.permitted(4, &mv, Some(&layer)));
    let set = SceneEvent::EventSet(vec![mv.duplicate(), rename.duplicate()]);
    assert!(!p.permitted(1, &set, Some(&layer)));
    assert!(p.permitted(9, &set, Some(&layer)));
}
