use vstd::prelude::*;

use crate::event::SceneEvent;
use crate::layer::{Layer, LayerView};
use crate::search::{as_int, first_index, is_first, lemma_first_index_is, lemma_first_index_none};
use crate::Id;

verus! {

/// The user id under which the authority's own updates are made; it may do anything.
pub const CANONICAL_UPDATER: Id = 0;

/// What a user may do in a scene.
#[derive(Clone, Copy, Debug, PartialEq, Eq, Structural)]
pub enum Role {
    /// May change layers and sprites, and give roles.
    Owner,
    /// May change layers and sprites.
    Editor,
    /// May change sprites on unlocked layers.
    Player,
    /// May change nothing.
    Spectator,
}

/// A change of the permissions.
#[derive(Clone, Copy, Debug, PartialEq, Eq, Structural)]
pub enum PermsEvent {
    /// User, role given.
    RoleChange(Id, Role),
}

/// The roles given to users; a user without one is a player.
pub struct Perms {
    pub roles: Vec<(Id, Role)>,
}

pub open spec fn role_entry(user: Id) -> spec_fn((Id, Role)) -> bool {
    |e: (Id, Role)| e.0 == user
}

/// The role of `user` under the entries `r`.
pub open spec fn role_of(r: Seq<(Id, Role)>, user: Id) -> Role {
    match first_index(r, role_entry(user)) {
        Some(i) => r[i].1,
        None => Role::Player,
    }
}

/// Whether `role` lets its user apply `e`, a single event, to a layer in
/// the state `layer` (none where the event names no existing layer).
pub open spec fn role_allows(role: Role, e: SceneEvent, layer: Option<LayerView>) -> bool {
    match e {
        SceneEvent::Dummy => true,
        SceneEvent::EventSet(_) => false,
        SceneEvent::SpriteNew(..) | SceneEvent::SpriteRemove(..) | SceneEvent::SpriteMove(..) | SceneEvent::LocalSpriteMove(..)
        | SceneEvent::SpriteTextureChange(..) => {
            role != Role::Spectator && (layer matches Some(l) && !l.locked)
        },
        _ => role == Role::Owner || role == Role::Editor,
    }
}

/// Whether `user` may apply `e` to a layer in the state `layer`: the
/// authority may do anything; the members of a set are each judged
/// against that layer.
pub open spec fn allows(r: Seq<(Id, Role)>, user: Id, e: SceneEvent, layer: Option<LayerView>) -> bool {
    if user == CANONICAL_UPDATER {
        true
    } else {
        match e {
            SceneEvent::EventSet(v) => forall|i: int|
                0 <= i < v@.len() ==> role_allows(role_of(r, user), #[trigger] v@[i], layer),
            _ => role_allows(role_of(r, user), e, layer),
        }
    }
}

pub open spec fn layer_state(l: Option<&Layer>) -> Option<LayerView> {
    match l {
        Some(x) => Some(x@),
        None => None,
    }
}

/// The entries after `updater` applies `e`: only the authority and owners
/// give roles.
pub open spec fn roles_after(r: Seq<(Id, Role)>, updater: Id, e: PermsEvent) -> Seq<(Id, Role)> {
    match e {
        PermsEvent::RoleChange(user, role) => if updater == CANONICAL_UPDATER || role_of(r, updater)
            == Role::Owner {
            match first_index(r, role_entry(user)) {
                Some(i) => r.update(i, (user, role)),
                None => r.push((user, role)),
            }
        } else {
            r
        },
    }
}

impl Perms {
    pub fn new() -> (r: Perms)
        ensures
            r.roles@ == Seq::<(Id, Role)>::empty(),
    {
        Perms { roles: Vec::new() }
    }

    fn entry(&self, user: Id) -> (r: Option<usize>)
        ensures
            r matches Some(i) ==> i < self.roles@.len(),
            as_int(r) == first_index(self.roles@, role_entry(user)),
    {
        let mut i: usize = 0;
        while i < self.roles.len()
            invariant
                0 <= i <= self.roles@.len(),
                forall|j: int| 0 <= j < i ==> !role_entry(user)(#[trigger] self.roles@[j]),
            decreases self.roles@.len() - i,
        {
            if self.roles[i].0 == user {
                proof {
                    assert(is_first(self.roles@, role_entry(user), i as int));
                    lemma_first_index_is(self.roles@, role_entry(user), i as int);
                }
                return Some(i);
            }
            i += 1;
        }
        proof {
            lemma_first_index_none(self.roles@, role_entry(user));
        }
        None
    }

    /// The role of `user`.
    pub fn role(&self, user: Id) -> (r: Role)
        ensures
            r == role_of(self.roles@, user),
    {
        match self.entry(user) {
            Some(i) => self.roles[i].1,
            None => Role::Player,
        }
    }

    fn role_permits(role: Role, event: &SceneEvent, layer: Option<&Layer>) -> (r: bool)
        ensures
            r == role_allows(role, *event, layer_state(layer)),
    {
        match event {
            SceneEvent::Dummy => true,
            SceneEvent::EventSet(_) => false,
            SceneEvent::SpriteNew(..) | SceneEvent::SpriteRemove(..) | SceneEvent::SpriteMove(..) | SceneEvent::LocalSpriteMove(..)
        | SceneEvent::SpriteTextureChange(..) => {
                match role {
                    Role::Spectator => false,
                    _ => match layer {
                        Some(l) => !l.locked,
                        None => false,
                    },
                }
            },
            _ => match role {
                Role::Owner | Role::Editor => true,
                _ => false,
            },
        }
    }

    /// Whether `user` may apply `event` to `layer`, the layer it names.
    pub fn permitted(&self, user: Id, event: &SceneEvent, layer: Option<&Layer>) -> (r: bool)
        ensures
            r == allows(self.roles@, user, *event, layer_state(layer)),
    {
        if user == CANONICAL_UPDATER {
            return true;
        }
        let role = self.role(user);
        match event {
            SceneEvent::EventSet(v) => {
                let mut i: usize = 0;
                while i < v.len()
                    invariant
                        0 <= i <= v@.len(),
                        *event == SceneEvent::EventSet(*v),
                        user != CANONICAL_UPDATER,
                        role == role_of(self.roles@, user),
                        forall|j: int| 0 <= j < i ==> role_allows(role, #[trigger] v@[j], layer_state(layer)),
                    decreases v@.len() - i,
                {
                    if !Self::role_permits(role, &v[i], layer) {
                        assert(!role_allows(role, v@[i as int], layer_state(layer)));
                        assert(event->EventSet_0@ == v@);
                        assert(!role_allows(role, event->EventSet_0@[i as int], layer_state(layer)));
                        return false;
                    }
                    i += 1;
                }
                true
            },
            _ => Self::role_permits(role, event, layer),
        }
    }

    /// Applies a change of the permissions made by `updater`; one that
    /// `updater` may not make changes nothing.
    pub fn handle_event(&mut self, updater: Id, event: PermsEvent)
        ensures
            final(self).roles@ == roles_after(old(self).roles@, updater, event),
    {
        match event {
            PermsEvent::RoleChange(user, role) => {
                if updater != CANONICAL_UPDATER && !matches!(self.role(updater), Role::Owner) {
                    return;
                }
                match self.entry(user) {
                    Some(i) => {
                        self.roles.set(i, (user, role));
                    },
                    None => {
                        self.roles.push((user, role));
                    },
                }
            },
        }
    }
}

} // verus!
