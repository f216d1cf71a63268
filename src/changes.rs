use vstd::prelude::*;

verus! {

/// What has changed since the user interface last looked.
pub struct Changes {
    /// A layer's title, visibility, lock or place: the list of layers is stale.
    pub layer: bool,
    /// A sprite: the scene must be drawn again.
    pub sprite: bool,
    /// The selection: the details of the selected sprites are stale.
    pub selected: bool,
}

impl Changes {
    /// Everything counts as changed at first.
    pub fn new() -> (r: Changes)
        ensures
            r.layer && r.sprite && r.selected,
    {
        Changes { layer: true, sprite: true, selected: true }
    }

    pub fn all_change(&mut self)
        ensures
            final(self).layer && final(self).sprite && final(self).selected,
    {
        self.layer = true;
        self.sprite = true;
        self.selected = true;
    }

    pub fn all_change_if(&mut self, changed: bool)
        ensures
            final(self).layer == (old(self).layer || changed),
            final(self).sprite == (old(self).sprite || changed),
            final(self).selected == (old(self).selected || changed),
    {
        self.layer_change_if(changed);
        self.sprite_change_if(changed);
        self.selected_change_if(changed);
    }

    pub fn layer_change(&mut self)
        ensures
            *final(self) == (Changes { layer: true, ..*old(self) }),
    {
        self.layer = true;
    }

    pub fn layer_change_if(&mut self, changed: bool)
        ensures
            *final(self) == (Changes { layer: old(self).layer || changed, ..*old(self) }),
    {
        self.layer = self.layer || changed;
    }

    /// Whether the layers changed since the last call.
    pub fn handle_layer_change(&mut self) -> (r: bool)
        ensures
            r == old(self).layer,
            *final(self) == (Changes { layer: false, ..*old(self) }),
    {
        let ret = self.layer;
        self.layer = false;
        ret
    }

    pub fn sprite_change(&mut self)
        ensures
            *final(self) == (Changes { sprite: true, ..*old(self) }),
    {
        self.sprite = true;
    }

    pub fn sprite_change_if(&mut self, changed: bool)
        ensures
            *final(self) == (Changes { sprite: old(self).sprite || changed, ..*old(self) }),
    {
        self.sprite = self.sprite || changed;
    }

    /// Whether any sprite changed since the last call.
    pub fn handle_sprite_change(&mut self) -> (r: bool)
        ensures
            r == old(self).sprite,
            *final(self) == (Changes { sprite: false, ..*old(self) }),
    {
        let ret = self.sprite;
        self.sprite = false;
        ret
    }

    pub fn selected_change(&mut self)
        ensures
            *final(self) == (Changes { selected: true, ..*old(self) }),
    {
        self.selected = true;
    }

    pub fn selected_change_if(&mut self, changed: bool)
        ensures
            *final(self) == (Changes { selected: old(self).selected || changed, ..*old(self) }),
    {
        self.selected = self.selected || changed;
    }

    /// Whether the selection changed since the last call.
    pub fn handle_selected_change(&mut self) -> (r: bool)
        ensures
            r == old(self).selected,
            *final(self) == (Changes { selected: false, ..*old(self) }),
    {
        let ret = self.selected;
        self.selected = false;
        ret
    }

    pub fn sprite_selected_change(&mut self)
        ensures
            *final(self) == (Changes { sprite: true, selected: true, ..*old(self) }),
    {
        self.sprite = true;
        self.selected = true;
    }
}

} // verus!
