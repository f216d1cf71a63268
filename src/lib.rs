use vstd::prelude::*;

pub mod apply;
pub mod changes;
pub mod event;
pub mod geom;
pub mod history;
pub mod interactor;
pub mod laws;
pub mod layer;
pub mod media;
pub mod perms;
pub mod pointer;
pub mod scene;
pub mod search;
pub mod sprite;

pub use event::{SceneEvent, SceneEventAck};
pub use geom::{Rect, ScenePoint};
pub use interactor::Interactor;
pub use layer::{Layer, LayerView};
pub use pointer::HeldObject;
pub use scene::Scene;
pub use sprite::{Dimension, Sprite, SpriteShape};

verus! {

/// Identifier of a layer, a sprite or a scene.
pub type Id = i64;

} // verus!
