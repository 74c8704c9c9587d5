//! Layers: titled stacks of sprites, drawn one above another.

use vstd::prelude::*;
use vstd::string::*;

use crate::comms::SceneEvent;
use crate::sprite::Sprite;
use crate::Id;

verus! {

#[derive(Debug)]
pub struct Layer {
    pub id: Id,
    pub title: String,
    /// Height of the layer: positive layers are drawn above the grid,
    /// negative ones below it.
    pub z: i32,
    pub visible: bool,
    pub locked: bool,
    /// The sprites of the layer, lowest first.
    pub sprites: Vec<Sprite>,
    /// Sprites removed from the layer, kept so that they can be restored.
    pub removed_sprites: Vec<Sprite>,
    pub z_min: i32,
    pub z_max: i32,
}

/// What a layer holds, with its title and sprites as sequences.
pub struct LayerModel {
    pub id: Id,
    pub title: Seq<char>,
    pub z: i32,
    pub visible: bool,
    pub locked: bool,
    pub sprites: Seq<Sprite>,
    pub removed_sprites: Seq<Sprite>,
    pub z_min: i32,
    pub z_max: i32,
}

impl View for Layer {
    type V = LayerModel;

    open spec fn view(&self) -> LayerModel {
        LayerModel {
            id: self.id,
            title: self.title@,
            z: self.z,
            visible: self.visible,
            locked: self.locked,
            sprites: self.sprites@,
            removed_sprites: self.removed_sprites@,
            z_min: self.z_min,
            z_max: self.z_max,
        }
    }
}

impl Clone for Layer {
    fn clone(&self) -> (l: Layer)
        ensures
            l@ == self@,
    {
        let sprites = self.sprites.clone();
        let removed_sprites = self.removed_sprites.clone();
        proof {
            assert(sprites@ =~= self.sprites@);
            assert(removed_sprites@ =~= self.removed_sprites@);
        }
        Layer {
            id: self.id,
            title: self.title.clone(),
            z: self.z,
            visible: self.visible,
            locked: self.locked,
            sprites,
            removed_sprites,
            z_min: self.z_min,
            z_max: self.z_max,
        }
    }
}

/// A fresh layer: visible, unlocked and empty.
pub open spec fn new_layer_model(id: Id, title: Seq<char>, z: i32) -> LayerModel {
    LayerModel {
        id,
        title,
        z,
        visible: true,
        locked: false,
        sprites: Seq::empty(),
        removed_sprites: Seq::empty(),
        z_min: 0,
        z_max: 0,
    }
}

/// The layer after `sprite` is added.
pub open spec fn add_sprite_model(l: LayerModel, sprite: Sprite) -> LayerModel {
    LayerModel {
        sprites: sort_sprites_spec(l.sprites.push(sprite)),
        z_min: bounds_after(l.z_min, l.z_max, sprite.z).0,
        z_max: bounds_after(l.z_min, l.z_max, sprite.z).1,
        ..l
    }
}

/// The layer after the sprites with the given id are removed; the last of
/// them is kept among the removed sprites.
pub open spec fn remove_sprite_model(l: LayerModel, id: Id) -> LayerModel {
    if sprites_with(l.sprites, id).len() == 0 {
        l
    } else {
        LayerModel {
            sprites: sprites_without(l.sprites, id),
            removed_sprites: l.removed_sprites.push(sprites_with(l.sprites, id).last()),
            ..l
        }
    }
}

/// The layer after the last removed sprite with the given id comes back.
pub open spec fn restore_sprite_model(l: LayerModel, id: Id) -> LayerModel {
    let back = LayerModel { removed_sprites: sprites_without(l.removed_sprites, id), ..l };
    if sprites_with(l.removed_sprites, id).len() == 0 {
        back
    } else {
        add_sprite_model(back, sprites_with(l.removed_sprites, id).last())
    }
}

/// The layer after the sprites are added one after another.
pub open spec fn add_sprites_model(l: LayerModel, sprites: Seq<Sprite>) -> LayerModel
    decreases sprites.len(),
{
    if sprites.len() == 0 {
        l
    } else {
        add_sprite_model(add_sprites_model(l, sprites.drop_last()), sprites.last())
    }
}

/// The first position in `s` of a sprite with the given id.
pub open spec fn sprite_pos(s: Seq<Sprite>, id: Id) -> Option<int>
    decreases s.len(),
{
    if s.len() == 0 {
        None
    } else {
        match sprite_pos(s.drop_last(), id) {
            Some(i) => Some(i),
            None => if s.last().id == id {
                Some(s.len() - 1)
            } else {
                None
            },
        }
    }
}

/// The sprites of `s` other than those with the given id, in order.
pub open spec fn sprites_without(s: Seq<Sprite>, id: Id) -> Seq<Sprite> {
    s.filter(|x: Sprite| x.id != id)
}

/// The sprites of `s` with the given id, in order.
pub open spec fn sprites_with(s: Seq<Sprite>, id: Id) -> Seq<Sprite> {
    s.filter(|x: Sprite| x.id == id)
}

/// The first position in `s` at which `key` is lower than the height there.
pub open spec fn insert_pos_asc(s: Seq<Sprite>, key: i32) -> int
    decreases s.len(),
{
    if s.len() == 0 {
        0
    } else if s[0].z > key {
        0
    } else {
        1 + insert_pos_asc(s.drop_first(), key)
    }
}

/// `s` sorted by height, lowest first, sprites of equal height keeping
/// their order: each sprite in turn goes after every sprite at its height
/// or lower.
pub open spec fn sort_sprites_spec(s: Seq<Sprite>) -> Seq<Sprite>
    decreases s.len(),
{
    if s.len() == 0 {
        s
    } else {
        let rest = sort_sprites_spec(s.drop_last());
        rest.insert(insert_pos_asc(rest, s.last().z), s.last())
    }
}

/// The height bounds after a sprite at height `z` is added.
pub open spec fn bounds_after(z_min: i32, z_max: i32, z: i32) -> (i32, i32) {
    if z > z_max {
        (z_min, z)
    } else if z < z_min {
        (z, z_max)
    } else {
        (z_min, z_max)
    }
}

pub proof fn lemma_insert_pos_asc_bound(s: Seq<Sprite>, key: i32)
    ensures
        0 <= insert_pos_asc(s, key) <= s.len(),
    decreases s.len(),
{
    if s.len() > 0 && s[0].z <= key {
        lemma_insert_pos_asc_bound(s.drop_first(), key);
    }
}

pub proof fn lemma_sort_sprites_len(s: Seq<Sprite>)
    ensures
        sort_sprites_spec(s).len() == s.len(),
    decreases s.len(),
{
    if s.len() > 0 {
        lemma_sort_sprites_len(s.drop_last());
        lemma_insert_pos_asc_bound(sort_sprites_spec(s.drop_last()), s.last().z);
    }
}

/// Position of the first sprite in `s` higher than `key`.
fn find_insert_pos_asc(s: &Vec<Sprite>, key: i32) -> (p: usize)
    ensures
        p == insert_pos_asc(s@, key),
{
    let mut i: usize = 0;
    assert(s@.skip(0) =~= s@);
    while i < s.len()
        invariant
            0 <= i <= s@.len(),
            forall|j: int| 0 <= j < i ==> s@[j].z <= key,
            insert_pos_asc(s@, key) == i + insert_pos_asc(s@.skip(i as int), key),
        decreases s@.len() - i,
    {
        if s[i].z > key {
            return i;
        }
        proof {
            assert(s@.skip(i as int).drop_first() =~= s@.skip(i + 1));
        }
        i += 1;
    }
    i
}

/// Sorts sprites by height, lowest first, keeping sprites of equal height
/// in their order.
pub fn sort_sprites_vec(v: &mut Vec<Sprite>)
    ensures
        final(v)@ == sort_sprites_spec(old(v)@),
{
    let ghost orig = v@;
    let mut out: Vec<Sprite> = Vec::new();
    let mut i: usize = 0;
    while i < v.len()
        invariant
            v@ == orig,
            0 <= i <= orig.len(),
            out@ == sort_sprites_spec(orig.take(i as int)),
        decreases orig.len() - i,
    {
        let s = v[i];
        proof {
            assert(orig.take(i + 1).drop_last() =~= orig.take(i as int));
            lemma_sort_sprites_len(orig.take(i as int));
        }
        let p = find_insert_pos_asc(&out, s.z);
        proof {
            lemma_insert_pos_asc_bound(out@, s.z);
        }
        out.insert(p, s);
        i += 1;
    }
    assert(orig.take(orig.len() as int) =~= orig);
    *v = out;
}

impl Layer {
    pub fn new(id: Id, title: &str, z: i32) -> (l: Layer)
        ensures
            l@ == new_layer_model(id, title@, z),
    {
        Layer {
            id,
            title: title.to_owned(),
            z,
            visible: true,
            locked: false,
            sprites: Vec::new(),
            removed_sprites: Vec::new(),
            z_min: 0,
            z_max: 0,
        }
    }

    /// Gives the layer a new title, returning the event from the old title
    /// to the new.
    pub fn rename(&mut self, new_title: String) -> (e: SceneEvent)
        ensures
            final(self)@ == (LayerModel { title: new_title@, ..old(self)@ }),
            e == SceneEvent::LayerRename(old(self).id, old(self).title, new_title),
    {
        let mut old_title = new_title;
        std::mem::swap(&mut old_title, &mut self.title);
        SceneEvent::LayerRename(self.id, old_title, self.title.clone())
    }

    pub fn set_visible(&mut self, visible: bool) -> (e: Option<SceneEvent>)
        ensures
            final(self)@ == (LayerModel { visible, ..old(self)@ }),
            e == (if old(self).visible != visible {
                Some(SceneEvent::LayerVisibility(old(self).id, visible))
            } else {
                None
            }),
    {
        if self.visible != visible {
            self.visible = visible;
            Some(SceneEvent::LayerVisibility(self.id, visible))
        } else {
            None
        }
    }

    pub fn set_locked(&mut self, locked: bool) -> (e: Option<SceneEvent>)
        ensures
            final(self)@ == (LayerModel { locked, ..old(self)@ }),
            e == (if old(self).locked != locked {
                Some(SceneEvent::LayerLocked(old(self).id, locked))
            } else {
                None
            }),
    {
        if self.locked != locked {
            self.locked = locked;
            Some(SceneEvent::LayerLocked(self.id, locked))
        } else {
            None
        }
    }

    /// Sprites can be selected from a layer that is visible and unlocked.
    pub fn selectable(&self) -> (b: bool)
        ensures
            b == (self.visible && !self.locked),
    {
        self.visible && !self.locked
    }

    /// Position of the first sprite with the given id.
    pub fn sprite_index(&self, id: Id) -> (i: Option<usize>)
        ensures
            match sprite_pos(self.sprites@, id) {
                Some(p) => i matches Some(j) && j as int == p,
                None => i is None,
            },
    {
        position_of(&self.sprites, id)
    }

    pub fn sprite_ref(&self, id: Id) -> (s: Option<&Sprite>)
        ensures
            match sprite_pos(self.sprites@, id) {
                Some(p) => s matches Some(r) && *r == self.sprites@[p],
                None => s is None,
            },
    {
        match self.sprite_index(id) {
            Some(i) => {
                proof {
                    lemma_sprite_pos_bound(self.sprites@, id);
                }
                let r = &self.sprites[i];
                assert(*r == self.sprites@[i as int]);
                Some(r)
            },
            None => None,
        }
    }

    /// Sorts the sprites by height, lowest first.
    pub fn sort_sprites(&mut self)
        ensures
            final(self)@ == (LayerModel { sprites: sort_sprites_spec(old(self).sprites@), ..old(self)@ }),
    {
        sort_sprites_vec(&mut self.sprites);
    }

    /// Widens the height bounds of the layer to take in `sprite`.
    pub fn update_z_bounds(&mut self, sprite: &Sprite)
        ensures
            final(self)@ == (LayerModel {
                z_min: bounds_after(old(self).z_min, old(self).z_max, sprite.z).0,
                z_max: bounds_after(old(self).z_min, old(self).z_max, sprite.z).1,
                ..old(self)@
            }),
    {
        if sprite.z > self.z_max {
            self.z_max = sprite.z;
        } else if sprite.z < self.z_min {
            self.z_min = sprite.z;
        }
    }

    /// Adds a sprite, keeping the sprites sorted by height.
    pub fn add_sprite(&mut self, sprite: Sprite) -> (e: SceneEvent)
        ensures
            final(self)@ == add_sprite_model(old(self)@, sprite),
            e == SceneEvent::SpriteNew(sprite, old(self).id),
    {
        self.update_z_bounds(&sprite);
        self.sprites.push(sprite);
        self.sort_sprites();
        SceneEvent::SpriteNew(sprite, self.id)
    }

    /// Takes every sprite with the given id out of the layer, returning the
    /// last of them.
    pub fn take_sprite(&mut self, id: Id) -> (s: Option<Sprite>)
        ensures
            final(self)@ == (LayerModel { sprites: sprites_without(old(self).sprites@, id), ..old(self)@ }),
            s == (if sprites_with(old(self).sprites@, id).len() == 0 {
                None
            } else {
                Some(sprites_with(old(self).sprites@, id).last())
            }),
    {
        let (kept, taken) = extract_sprites(&self.sprites, id);
        self.sprites = kept;
        taken
    }

    /// Moves every sprite with the given id to the removed sprites; the
    /// last of them is kept there.
    pub fn remove_sprite(&mut self, id: Id) -> (e: Option<SceneEvent>)
        ensures
            final(self)@ == remove_sprite_model(old(self)@, id),
            e == (if sprites_with(old(self).sprites@, id).len() == 0 {
                None
            } else {
                Some(SceneEvent::SpriteRemove(id, old(self).id))
            }),
    {
        proof {
            lemma_without_absent(old(self).sprites@, id);
        }
        match self.take_sprite(id) {
            Some(s) => {
                self.removed_sprites.push(s);
                Some(SceneEvent::SpriteRemove(id, self.id))
            },
            None => None,
        }
    }

    /// Brings back the last removed sprite with the given id; every removed
    /// sprite with that id leaves the removed sprites.
    pub fn restore_sprite(&mut self, id: Id) -> (b: bool)
        ensures
            final(self)@ == restore_sprite_model(old(self)@, id),
            b == (sprites_with(old(self).removed_sprites@, id).len() > 0),
    {
        let (kept, taken) = extract_sprites(&self.removed_sprites, id);
        self.removed_sprites = kept;
        match taken {
            Some(s) => {
                self.add_sprite(s);
                true
            },
            None => false,
        }
    }

    /// Adds sprites one after another, returning the set of their events.
    pub fn add_sprites(&mut self, sprites: Vec<Sprite>) -> (e: SceneEvent)
        ensures
            final(self)@ == add_sprites_model(old(self)@, sprites@),
            e matches SceneEvent::EventSet(events) && events@.len() == sprites@.len() && forall|i: int|
                0 <= i < sprites@.len() ==> #[trigger] events@[i] == SceneEvent::SpriteNew(
                    sprites@[i],
                    old(self).id,
                ),
    {
        let mut events: Vec<SceneEvent> = Vec::new();
        let mut i: usize = 0;
        while i < sprites.len()
            invariant
                0 <= i <= sprites@.len(),
                self@ == add_sprites_model(old(self)@, sprites@.take(i as int)),
                self.id == old(self).id,
                events@.len() == i,
                forall|j: int| 0 <= j < i ==> #[trigger] events@[j] == SceneEvent::SpriteNew(
                    sprites@[j],
                    old(self).id,
                ),
            decreases sprites@.len() - i,
        {
            proof {
                assert(sprites@.take(i + 1).drop_last() =~= sprites@.take(i as int));
            }
            let e = self.add_sprite(sprites[i]);
            events.push(e);
            i += 1;
        }
        assert(sprites@.take(sprites@.len() as int) =~= sprites@);
        SceneEvent::EventSet(events)
    }
}

/// Position of the first sprite in `v` with the given id.
pub fn position_of(v: &Vec<Sprite>, id: Id) -> (i: Option<usize>)
    ensures
        match sprite_pos(v@, id) {
            Some(p) => i matches Some(j) && j as int == p,
            None => i is None,
        },
{
    let mut i: usize = 0;
    while i < v.len()
        invariant
            0 <= i <= v@.len(),
            sprite_pos(v@.take(i as int), id) is None,
        decreases v@.len() - i,
    {
        proof {
            assert(v@.take(i + 1).drop_last() =~= v@.take(i as int));
        }
        if v[i].id == id {
            proof {
                lemma_sprite_pos_prefix(v@, i + 1, id);
            }
            return Some(i);
        }
        i += 1;
    }
    proof {
        assert(v@.take(i as int) =~= v@);
    }
    None
}

/// Splits sprites into those without the given id and the last of those
/// with it.
pub fn extract_sprites(v: &Vec<Sprite>, id: Id) -> (r: (Vec<Sprite>, Option<Sprite>))
    ensures
        r.0@ == sprites_without(v@, id),
        r.1 == (if sprites_with(v@, id).len() == 0 {
            None
        } else {
            Some(sprites_with(v@, id).last())
        }),
{
    let mut kept: Vec<Sprite> = Vec::new();
    let mut taken: Option<Sprite> = None;
    let mut i: usize = 0;
    while i < v.len()
        invariant
            0 <= i <= v@.len(),
            kept@ == sprites_without(v@.take(i as int), id),
            taken == (if sprites_with(v@.take(i as int), id).len() == 0 {
                None
            } else {
                Some(sprites_with(v@.take(i as int), id).last())
            }),
        decreases v@.len() - i,
    {
        proof {
            reveal_with_fuel(Seq::<_>::filter, 1);
            assert(v@.take(i + 1).drop_last() =~= v@.take(i as int));
        }
        let s = v[i];
        if s.id == id {
            taken = Some(s);
        } else {
            kept.push(s);
        }
        i += 1;
    }
    assert(v@.take(v@.len() as int) =~= v@);
    (kept, taken)
}

/// With no sprite of the given id, removing that id changes nothing.
pub proof fn lemma_without_absent(s: Seq<Sprite>, id: Id)
    ensures
        sprites_with(s, id).len() == 0 ==> sprites_without(s, id) == s,
    decreases s.len(),
{
    reveal_with_fuel(Seq::<_>::filter, 1);
    if s.len() > 0 {
        lemma_without_absent(s.drop_last(), id);
        if sprites_with(s, id).len() == 0 {
            assert(s.drop_last().push(s.last()) =~= s);
        }
    }
}

proof fn lemma_sprite_pos_prefix(s: Seq<Sprite>, k: int, id: Id)
    requires
        0 < k <= s.len(),
        sprite_pos(s.take(k - 1), id) is None,
        s[k - 1].id == id,
    ensures
        sprite_pos(s, id) == Some(k - 1),
    decreases s.len() - k,
{
    assert(s.take(k).drop_last() =~= s.take(k - 1));
    if k < s.len() {
        lemma_sprite_pos_extend(s, k, id);
    } else {
        assert(s.take(k) =~= s);
    }
}

proof fn lemma_sprite_pos_extend(s: Seq<Sprite>, k: int, id: Id)
    requires
        0 < k <= s.len(),
        sprite_pos(s.take(k), id) is Some,
    ensures
        sprite_pos(s, id) == sprite_pos(s.take(k), id),
    decreases s.len() - k,
{
    if k < s.len() {
        assert(s.take(k + 1).drop_last() =~= s.take(k));
        lemma_sprite_pos_extend(s, k + 1, id);
    } else {
        assert(s.take(k) =~= s);
    }
}

/// A layer holds a sprite with a given id exactly when filtering for that
/// id finds one.
pub proof fn lemma_sprite_pos_iff_with(s: Seq<Sprite>, id: Id)
    ensures
        (sprite_pos(s, id) is Some) == (sprites_with(s, id).len() > 0),
        sprites_with(s, id).len() > 0 ==> sprites_with(s, id).last().id == id,
    decreases s.len(),
{
    reveal_with_fuel(Seq::<_>::filter, 1);
    if s.len() > 0 {
        lemma_sprite_pos_iff_with(s.drop_last(), id);
    }
}

pub proof fn lemma_sprite_pos_bound(s: Seq<Sprite>, id: Id)
    ensures
        sprite_pos(s, id) matches Some(p) ==> 0 <= p < s.len() && s[p].id == id,
        sprite_pos(s, id) is None ==> forall|j: int| 0 <= j < s.len() ==> s[j].id != id,
    decreases s.len(),
{
    if s.len() > 0 {
        lemma_sprite_pos_bound(s.drop_last(), id);
        assert forall|j: int| 0 <= j < s.len() - 1 implies s.drop_last()[j] == s[j] by {}
    }
}

} // verus!
