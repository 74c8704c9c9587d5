//! Sprites on a scene: finding them on their layers, adding, removing and
//! restoring them, and moving them from one layer to another.

use vstd::prelude::*;

use crate::comms::{event_is_layer, event_is_sprite, event_item, SceneEvent};
use crate::geom::Rect;
use crate::layer::{
    add_sprite_model, add_sprites_model, lemma_sprite_pos_bound, lemma_sprite_pos_iff_with,
    lemma_without_absent, position_of, remove_sprite_model, restore_sprite_model, sprite_pos,
    sprites_with, sprites_without, Layer, LayerModel,
};
use crate::scene::{
    first_where, holds_removed, holds_sprite, layer_index, layer_pos, lemma_first_where,
    lemma_first_where_prefix, lemma_layer_pos, lemma_models_update, models, Scene, SceneModel,
};
use crate::sprite::{new_sprite_spec, Sprite, Visual};
use crate::Id;

verus! {

/// Where the sprite with the given id is: the first layer holding one, and
/// the position of the first such sprite on it.
pub open spec fn sprite_place(s: Seq<LayerModel>, id: Id) -> Option<(int, int)> {
    match first_where(s, holds_sprite(id)) {
        None => None,
        Some(k) => Some((k, sprite_pos(s[k].sprites, id).unwrap())),
    }
}

/// The sprite with the given id, as found by `sprite_place`.
pub open spec fn find_sprite(s: Seq<LayerModel>, id: Id) -> Option<Sprite> {
    match sprite_place(s, id) {
        None => None,
        Some((k, j)) => Some(s[k].sprites[j]),
    }
}

/// The id of the first layer holding a sprite with the given id.
pub open spec fn sprite_layer_of(s: Seq<LayerModel>, id: Id) -> Option<Id> {
    match first_where(s, holds_sprite(id)) {
        None => None,
        Some(k) => Some(s[k].id),
    }
}

/// The layers with the sprite at position `j` of layer `k` replaced.
pub open spec fn replace_sprite(s: Seq<LayerModel>, k: int, j: int, sprite: Sprite) -> Seq<LayerModel> {
    s.update(k, LayerModel { sprites: s[k].sprites.update(j, sprite), ..s[k] })
}

/// The layers after `sprite` is added to the first layer with id `layer`.
pub open spec fn add_sprite_result(s: Seq<LayerModel>, sprite: Sprite, layer: Id) -> Seq<LayerModel> {
    match layer_pos(s, layer) {
        None => s,
        Some(k) => s.update(k, add_sprite_model(s[k], sprite)),
    }
}

/// The layers after the sprites with id `id` are removed from the first
/// layer that holds one.
pub open spec fn remove_sprite_result(s: Seq<LayerModel>, id: Id) -> Seq<LayerModel> {
    match first_where(s, holds_sprite(id)) {
        None => s,
        Some(k) => s.update(k, remove_sprite_model(s[k], id)),
    }
}

/// The event that removing the sprite with id `id` gives.
pub open spec fn remove_sprite_event(s: Seq<LayerModel>, id: Id) -> Option<SceneEvent> {
    match first_where(s, holds_sprite(id)) {
        None => None,
        Some(k) => Some(SceneEvent::SpriteRemove(id, s[k].id)),
    }
}

/// The layers, and the events, after the sprites with the given ids are
/// removed one after another.
pub open spec fn remove_sprites_result(s: Seq<LayerModel>, ids: Seq<Id>) -> (Seq<LayerModel>, Seq<SceneEvent>)
    decreases ids.len(),
{
    if ids.len() == 0 {
        (s, Seq::empty())
    } else {
        let before = remove_sprites_result(s, ids.drop_last());
        let id = ids.last();
        match remove_sprite_event(before.0, id) {
            None => before,
            Some(e) => (remove_sprite_result(before.0, id), before.1.push(e)),
        }
    }
}

/// The layers after the last removed sprite with id `id` comes back on the
/// first layer that removed one.
pub open spec fn restore_sprite_result(s: Seq<LayerModel>, id: Id) -> Seq<LayerModel> {
    match first_where(s, holds_removed(id)) {
        None => s,
        Some(k) => s.update(k, restore_sprite_model(s[k], id)),
    }
}

/// The layers after the sprites with id `id` leave the first layer holding
/// one and the last of them joins the first layer with id `layer`, with the
/// event that records the move. The sprite is lost when there is no layer
/// `layer`.
pub open spec fn sprite_layer_result(s: Seq<LayerModel>, id: Id, layer: Id) -> (Seq<LayerModel>, Option<SceneEvent>) {
    match first_where(s, holds_sprite(id)) {
        None => (s, None),
        Some(k) => {
            let t = s.update(k, LayerModel { sprites: sprites_without(s[k].sprites, id), ..s[k] });
            let moving = sprites_with(s[k].sprites, id).last();
            (
                add_sprite_result(t, moving, layer),
                if layer_pos(t, layer) is Some {
                    Some(SceneEvent::SpriteLayer(id, s[k].id, layer))
                } else {
                    None
                },
            )
        },
    }
}

/// The layers, and the events, after the sprites with the given ids move
/// one after another to the layer with id `layer`.
pub open spec fn sprites_layer_result(s: Seq<LayerModel>, ids: Seq<Id>, layer: Id) -> (Seq<LayerModel>, Seq<SceneEvent>)
    decreases ids.len(),
{
    if ids.len() == 0 {
        (s, Seq::empty())
    } else {
        let before = sprites_layer_result(s, ids.drop_last(), layer);
        let step = sprite_layer_result(before.0, ids.last(), layer);
        match step.1 {
            None => (step.0, before.1),
            Some(e) => (step.0, before.1.push(e)),
        }
    }
}

/// The layer an event is about: the layer itself for a layer event, the
/// layer holding the sprite for a sprite event.
pub open spec fn event_layer_spec(s: Seq<LayerModel>, e: SceneEvent) -> Option<Id> {
    if event_is_layer(e) {
        event_item(e)
    } else if event_is_sprite(e) {
        match event_item(e) {
            None => None,
            Some(id) => sprite_layer_of(s, id),
        }
    } else {
        None
    }
}

/// Whether `inside` finds a rectangle within the region it stands for.
pub open spec fn within<F: Fn(Rect) -> bool>(inside: F, r: Rect) -> bool {
    choose|b: bool| inside.ensures((r,), b)
}

/// The ids of the sprites, in order, whose rectangles lie within the
/// region.
pub open spec fn ids_within<F: Fn(Rect) -> bool>(s: Seq<Sprite>, inside: F) -> Seq<Id>
    decreases s.len(),
{
    if s.len() == 0 {
        Seq::empty()
    } else {
        let rest = ids_within(s.drop_last(), inside);
        if within(inside, s.last().rect) {
            rest.push(s.last().id)
        } else {
            rest
        }
    }
}

/// The ids of the sprites within the region on the visible, unlocked
/// layers, layer after layer. Unless `all_layers`, the first layer that has
/// any gives them alone.
pub open spec fn sprites_in_spec<F: Fn(Rect) -> bool>(
    s: Seq<LayerModel>,
    inside: F,
    all_layers: bool,
) -> Seq<Id>
    decreases s.len(),
{
    if s.len() == 0 {
        Seq::empty()
    } else {
        let prev = sprites_in_spec(s.drop_last(), inside, all_layers);
        if !all_layers && prev.len() > 0 {
            prev
        } else if s.last().visible && !s.last().locked {
            prev + ids_within(s.last().sprites, inside)
        } else {
            prev
        }
    }
}

/// The ids of the sprites of `v`, in order, whose rectangles lie within the
/// region.
pub fn sprites_within<F: Fn(Rect) -> bool + Copy>(v: &Vec<Sprite>, inside: F) -> (ids: Vec<Id>)
    requires
        forall|r: Rect| inside.requires((r,)),
        forall|r: Rect, x: bool, y: bool| inside.ensures((r,), x) && inside.ensures((r,), y) ==> x == y,
    ensures
        ids@ == ids_within(v@, inside),
{
    let mut ids: Vec<Id> = Vec::new();
    let mut i: usize = 0;
    while i < v.len()
        invariant
            0 <= i <= v@.len(),
            forall|r: Rect| inside.requires((r,)),
            forall|r: Rect, x: bool, y: bool| inside.ensures((r,), x) && inside.ensures((r,), y) ==> x == y,
            ids@ == ids_within(v@.take(i as int), inside),
        decreases v@.len() - i,
    {
        proof {
            assert(v@.take(i + 1).drop_last() =~= v@.take(i as int));
        }
        let s = v[i];
        let b = inside(s.rect);
        proof {
            assert(inside.ensures((s.rect,), within(inside, s.rect)));
        }
        if b {
            ids.push(s.id);
        }
        i += 1;
    }
    proof {
        assert(v@.take(i as int) =~= v@);
    }
    ids
}

/// Once some layer has given sprites, and not all layers are asked for,
/// the later layers add nothing.
proof fn lemma_sprites_in_stays<F: Fn(Rect) -> bool>(s: Seq<LayerModel>, inside: F, k: int)
    requires
        0 < k <= s.len(),
        sprites_in_spec(s.take(k), inside, false).len() > 0,
    ensures
        sprites_in_spec(s, inside, false) == sprites_in_spec(s.take(k), inside, false),
    decreases s.len() - k,
{
    if k < s.len() {
        assert(s.take(k + 1).drop_last() =~= s.take(k));
        lemma_sprites_in_stays(s, inside, k + 1);
    } else {
        assert(s.take(k) =~= s);
    }
}

/// Position of the first layer holding a sprite with the given id.
pub fn holding_layer(v: &Vec<Layer>, id: Id) -> (k: Option<usize>)
    ensures
        match first_where(models(v@), holds_sprite(id)) {
            Some(p) => k matches Some(j) && j as int == p,
            None => k is None,
        },
{
    let ghost m = models(v@);
    let mut i: usize = 0;
    while i < v.len()
        invariant
            m == models(v@),
            0 <= i <= v@.len(),
            first_where(m.take(i as int), holds_sprite(id)) is None,
        decreases v@.len() - i,
    {
        proof {
            assert(m.take(i + 1).drop_last() =~= m.take(i as int));
            assert(m.take(i + 1).last() == v@[i as int]@);
        }
        if position_of(&v[i].sprites, id).is_some() {
            proof {
                lemma_first_where_prefix(m, holds_sprite(id), i + 1);
            }
            return Some(i);
        }
        i += 1;
    }
    proof {
        assert(m.take(i as int) =~= m);
    }
    None
}

/// Position of the first layer with a removed sprite of the given id.
pub fn removed_holding_layer(v: &Vec<Layer>, id: Id) -> (k: Option<usize>)
    ensures
        match first_where(models(v@), holds_removed(id)) {
            Some(p) => k matches Some(j) && j as int == p,
            None => k is None,
        },
{
    let ghost m = models(v@);
    let mut i: usize = 0;
    while i < v.len()
        invariant
            m == models(v@),
            0 <= i <= v@.len(),
            first_where(m.take(i as int), holds_removed(id)) is None,
        decreases v@.len() - i,
    {
        proof {
            assert(m.take(i + 1).drop_last() =~= m.take(i as int));
            assert(m.take(i + 1).last() == v@[i as int]@);
        }
        if position_of(&v[i].removed_sprites, id).is_some() {
            proof {
                lemma_first_where_prefix(m, holds_removed(id), i + 1);
            }
            return Some(i);
        }
        i += 1;
    }
    proof {
        assert(m.take(i as int) =~= m);
    }
    None
}

impl Layer {
    /// The ids of the layer's sprites, in order, whose rectangles lie within
    /// a region; `inside` says whether a rectangle does.
    pub fn sprites_in<F: Fn(Rect) -> bool + Copy>(&self, inside: F) -> (ids: Vec<Id>)
        requires
            forall|r: Rect| inside.requires((r,)),
            forall|r: Rect, x: bool, y: bool| inside.ensures((r,), x) && inside.ensures((r,), y) ==> x == y,
        ensures
            ids@ == ids_within(self.sprites@, inside),
    {
        sprites_within(&self.sprites, inside)
    }
}

impl Scene {
    /// The first sprite with the given id, on the first layer holding one.
    pub fn sprite_ref(&self, id: Id) -> (r: Option<&Sprite>)
        ensures
            match find_sprite(self@.layers, id) {
                Some(s) => r matches Some(x) && *x == s,
                None => r is None,
            },
    {
        match holding_layer(&self.layers, id) {
            None => None,
            Some(k) => {
                proof {
                    lemma_first_where(self@.layers, holds_sprite(id));
                }
                let l = &self.layers[k];
                proof {
                    assert(self@.layers[k as int] == l@);
                    lemma_sprite_pos_bound(l.sprites@, id);
                }
                match position_of(&l.sprites, id) {
                    Some(j) => {
                        proof {
                            lemma_sprite_pos_bound(l.sprites@, id);
                        }
                        Some(&l.sprites[j])
                    },
                    None => None,
                }
            },
        }
    }

    /// Where the sprite with the given id is: the position of its layer and
    /// its position on that layer.
    pub fn sprite_position(&self, id: Id) -> (r: Option<(usize, usize)>)
        ensures
            match sprite_place(self@.layers, id) {
                Some((k, j)) => r matches Some((a, b)) && a as int == k && b as int == j
                    && k < self@.layers.len() && j < self@.layers[k].sprites.len(),
                None => r is None,
            },
    {
        match holding_layer(&self.layers, id) {
            None => None,
            Some(k) => {
                proof {
                    lemma_first_where(self@.layers, holds_sprite(id));
                }
                let l = &self.layers[k];
                proof {
                    assert(self@.layers[k as int] == l@);
                    lemma_sprite_pos_bound(l.sprites@, id);
                }
                match position_of(&l.sprites, id) {
                    Some(j) => {
                        proof {
                            lemma_sprite_pos_bound(l.sprites@, id);
                        }
                        Some((k, j))
                    },
                    None => None,
                }
            },
        }
    }

    /// Puts `sprite` in the place of the sprite at position `j` of layer `k`.
    pub fn replace_sprite_at(&mut self, k: usize, j: usize, sprite: Sprite)
        requires
            k < old(self)@.layers.len(),
            j < old(self)@.layers[k as int].sprites.len(),
        ensures
            final(self)@ == (SceneModel {
                layers: replace_sprite(old(self)@.layers, k as int, j as int, sprite),
                ..old(self)@
            }),
    {
        let ghost before = self.layers@;
        let mut l = self.layers.remove(k);
        proof {
            assert(models(before)[k as int] == l@);
        }
        l.sprites.set(j, sprite);
        self.layers.insert(k, l);
        proof {
            lemma_models_update(before, self.layers@, k as int, l);
        }
    }

    /// The ids of the sprites within a region on the layers that can be
    /// selected from, layer after layer; unless `all_layers`, those of the
    /// first layer that has any. `inside` says whether a rectangle lies
    /// within the region.
    pub fn sprites_in<F: Fn(Rect) -> bool + Copy>(&self, inside: F, all_layers: bool) -> (ids: Vec<Id>)
        requires
            forall|r: Rect| inside.requires((r,)),
            forall|r: Rect, x: bool, y: bool| inside.ensures((r,), x) && inside.ensures((r,), y) ==> x == y,
        ensures
            ids@ == sprites_in_spec(self@.layers, inside, all_layers),
    {
        let ghost m = self@.layers;
        let mut ids: Vec<Id> = Vec::new();
        let mut i: usize = 0;
        while i < self.layers.len()
            invariant
                m == self@.layers,
                0 <= i <= m.len(),
                forall|r: Rect| inside.requires((r,)),
                forall|r: Rect, x: bool, y: bool| inside.ensures((r,), x) && inside.ensures((r,), y) ==> x == y,
                ids@ == sprites_in_spec(m.take(i as int), inside, all_layers),
                !all_layers ==> ids@.len() == 0,
            decreases m.len() - i,
        {
            proof {
                assert(m.take(i + 1).drop_last() =~= m.take(i as int));
                assert(m.take(i + 1).last() == self.layers@[i as int]@);
            }
            let l = &self.layers[i];
            if l.selectable() {
                let mut found = l.sprites_in(inside);
                ids.append(&mut found);
                if ids.len() > 0 && !all_layers {
                    proof {
                        lemma_sprites_in_stays(m, inside, i + 1);
                    }
                    return ids;
                }
            }
            i += 1;
        }
        proof {
            assert(m.take(i as int) =~= m);
        }
        ids
    }

    /// The id of the first layer holding a sprite with the given id.
    pub fn get_sprite_layer(&self, sprite: Id) -> (l: Option<Id>)
        ensures
            l == sprite_layer_of(self@.layers, sprite),
    {
        match holding_layer(&self.layers, sprite) {
            None => None,
            Some(k) => {
                proof {
                    lemma_first_where(self@.layers, holds_sprite(sprite));
                }
                Some(self.layers[k].id)
            },
        }
    }

    /// The layer an event is about: the layer itself for a layer event, the
    /// layer holding the sprite for a sprite event, none otherwise.
    pub fn event_layer(&self, event: &SceneEvent) -> (l: Option<Id>)
        ensures
            l == event_layer_spec(self@.layers, *event),
    {
        if event.is_layer() {
            event.item()
        } else if event.is_sprite() {
            match event.item() {
                Some(id) => self.get_sprite_layer(id),
                None => None,
            }
        } else {
            None
        }
    }

    /// Adds a sprite to the first layer with the given id.
    pub fn add_sprite(&mut self, sprite: Sprite, layer: Id) -> (e: Option<SceneEvent>)
        ensures
            final(self)@ == (SceneModel {
                layers: add_sprite_result(old(self)@.layers, sprite, layer),
                ..old(self)@
            }),
            e == (if layer_pos(old(self)@.layers, layer) is Some {
                Some(SceneEvent::SpriteNew(sprite, layer))
            } else {
                None
            }),
    {
        match layer_index(&self.layers, layer) {
            None => None,
            Some(k) => {
                proof {
                    lemma_layer_pos(self@.layers, layer);
                }
                let ghost before = self.layers@;
                let mut l = self.layers.remove(k);
                proof {
                    assert(models(before)[k as int] == l@);
                }
                let e = l.add_sprite(sprite);
                self.layers.insert(k, l);
                proof {
                    lemma_models_update(before, self.layers@, k as int, l);
                }
                Some(e)
            },
        }
    }

    /// Makes a sprite with the next id, drawn as `visual`, on the first
    /// layer with the given id.
    pub fn new_sprite(&mut self, visual: Option<Visual>, layer: Id) -> (e: Option<SceneEvent>)
        requires
            old(self).next_id < i64::MAX,
        ensures
            final(self)@ == (SceneModel {
                layers: add_sprite_result(
                    old(self)@.layers,
                    new_sprite_spec(old(self).next_id, visual),
                    layer,
                ),
                next_id: (old(self).next_id + 1) as i64,
                ..old(self)@
            }),
            e == (if layer_pos(old(self)@.layers, layer) is Some {
                Some(SceneEvent::SpriteNew(new_sprite_spec(old(self).next_id, visual), layer))
            } else {
                None
            }),
    {
        let id = self.next_id();
        self.add_sprite(Sprite::new(id, visual), layer)
    }

    /// A copy of the sprite with the given id, with the next id and the
    /// given rectangle, on the layer of the sprite copied. The caller works
    /// out the rectangle: that of the sprite copied, moved right and down by
    /// its own size.
    pub fn clone_sprite(&mut self, sprite: Id, rect: Rect) -> (e: Option<SceneEvent>)
        requires
            old(self).next_id < i64::MAX,
        ensures
            match find_sprite(old(self)@.layers, sprite) {
                None => final(self)@ == old(self)@ && e is None,
                Some(s) => {
                    let copy = Sprite { id: old(self).next_id, rect, ..s };
                    let l = sprite_layer_of(old(self)@.layers, sprite).unwrap();
                    &&& final(self)@ == (SceneModel {
                        layers: add_sprite_result(old(self)@.layers, copy, l),
                        next_id: (old(self).next_id + 1) as i64,
                        ..old(self)@
                    })
                    &&& e == Some(SceneEvent::SpriteNew(copy, l))
                },
            },
    {
        let l = match self.get_sprite_layer(sprite) {
            Some(l) => l,
            None => return None,
        };
        let s = match self.sprite_ref(sprite) {
            Some(s) => *s,
            None => return None,
        };
        proof {
            lemma_first_where(self@.layers, holds_sprite(sprite));
            let k = first_where(self@.layers, holds_sprite(sprite)).unwrap();
            lemma_layer_pos(self@.layers, l);
            assert(self@.layers[k].id == l);
        }
        let id = self.next_id();
        let copy = Sprite { id, rect, ..s };
        self.add_sprite(copy, l)
    }

    /// Adds sprites one after another to the first layer with the given id.
    pub fn add_sprites(&mut self, sprites: Vec<Sprite>, layer: Id) -> (e: Option<SceneEvent>)
        ensures
            match layer_pos(old(self)@.layers, layer) {
                None => final(self)@ == old(self)@ && e is None,
                Some(k) => {
                    &&& final(self)@ == (SceneModel {
                        layers: old(self)@.layers.update(k, add_sprites_model(old(self)@.layers[k], sprites@)),
                        ..old(self)@
                    })
                    &&& e matches Some(SceneEvent::EventSet(events))
                    &&& events@.len() == sprites@.len()
                    &&& forall|i: int|
                        0 <= i < sprites@.len() ==> #[trigger] events@[i] == SceneEvent::SpriteNew(sprites@[i], layer)
                },
            },
    {
        match layer_index(&self.layers, layer) {
            None => None,
            Some(k) => {
                proof {
                    lemma_layer_pos(self@.layers, layer);
                }
                let ghost before = self.layers@;
                let mut l = self.layers.remove(k);
                proof {
                    assert(models(before)[k as int] == l@);
                }
                let e = l.add_sprites(sprites);
                self.layers.insert(k, l);
                proof {
                    lemma_models_update(before, self.layers@, k as int, l);
                }
                Some(e)
            },
        }
    }

    /// Removes the sprites with the given id from the first layer holding
    /// one; the last of them is kept among that layer's removed sprites.
    pub fn remove_sprite(&mut self, id: Id) -> (e: Option<SceneEvent>)
        ensures
            final(self)@ == (SceneModel { layers: remove_sprite_result(old(self)@.layers, id), ..old(self)@ }),
            e == remove_sprite_event(old(self)@.layers, id),
    {
        match holding_layer(&self.layers, id) {
            None => None,
            Some(k) => {
                proof {
                    lemma_first_where(self@.layers, holds_sprite(id));
                }
                let ghost before = self.layers@;
                let mut l = self.layers.remove(k);
                proof {
                    assert(models(before)[k as int] == l@);
                    lemma_sprite_pos_iff_with(l.sprites@, id);
                }
                let e = l.remove_sprite(id);
                self.layers.insert(k, l);
                proof {
                    lemma_models_update(before, self.layers@, k as int, l);
                }
                e
            },
        }
    }

    /// Removes the sprites with the given ids one after another, gathering
    /// the events of those that were there.
    pub fn remove_sprites(&mut self, ids: &[Id]) -> (e: SceneEvent)
        ensures
            final(self)@ == (SceneModel {
                layers: remove_sprites_result(old(self)@.layers, ids@).0,
                ..old(self)@
            }),
            e matches SceneEvent::EventSet(events) && events@ == remove_sprites_result(old(self)@.layers, ids@).1,
    {
        let mut events: Vec<SceneEvent> = Vec::new();
        let mut i: usize = 0;
        while i < ids.len()
            invariant
                0 <= i <= ids@.len(),
                self@ == (SceneModel {
                    layers: remove_sprites_result(old(self)@.layers, ids@.take(i as int)).0,
                    ..old(self)@
                }),
                events@ == remove_sprites_result(old(self)@.layers, ids@.take(i as int)).1,
            decreases ids@.len() - i,
        {
            proof {
                assert(ids@.take(i + 1).drop_last() =~= ids@.take(i as int));
            }
            match self.remove_sprite(ids[i]) {
                Some(e) => events.push(e),
                None => {},
            }
            i += 1;
        }
        proof {
            assert(ids@.take(i as int) =~= ids@);
        }
        SceneEvent::EventSet(events)
    }

    /// Brings back the last removed sprite with the given id on the first
    /// layer that removed one.
    pub fn restore_sprite(&mut self, sprite: Id) -> (e: Option<SceneEvent>)
        ensures
            final(self)@ == (SceneModel { layers: restore_sprite_result(old(self)@.layers, sprite), ..old(self)@ }),
            e == (if first_where(old(self)@.layers, holds_removed(sprite)) is Some {
                Some(SceneEvent::SpriteRestore(sprite))
            } else {
                None
            }),
    {
        match removed_holding_layer(&self.layers, sprite) {
            None => None,
            Some(k) => {
                proof {
                    lemma_first_where(self@.layers, holds_removed(sprite));
                }
                let ghost before = self.layers@;
                let mut l = self.layers.remove(k);
                proof {
                    assert(models(before)[k as int] == l@);
                    lemma_sprite_pos_iff_with(l.removed_sprites@, sprite);
                }
                l.restore_sprite(sprite);
                self.layers.insert(k, l);
                proof {
                    lemma_models_update(before, self.layers@, k as int, l);
                }
                Some(SceneEvent::SpriteRestore(sprite))
            },
        }
    }

    /// Moves the sprite with the given id from its layer to the first layer
    /// with id `layer`. With no such layer the sprite is taken off its layer
    /// and lost, and there is no event.
    pub fn sprite_layer(&mut self, sprite: Id, layer: Id) -> (e: Option<SceneEvent>)
        ensures
            final(self)@ == (SceneModel {
                layers: sprite_layer_result(old(self)@.layers, sprite, layer).0,
                ..old(self)@
            }),
            e == sprite_layer_result(old(self)@.layers, sprite, layer).1,
    {
        let k = match holding_layer(&self.layers, sprite) {
            None => return None,
            Some(k) => k,
        };
        proof {
            lemma_first_where(self@.layers, holds_sprite(sprite));
        }
        let ghost before = self.layers@;
        let mut l = self.layers.remove(k);
        proof {
            assert(models(before)[k as int] == l@);
            lemma_sprite_pos_iff_with(l.sprites@, sprite);
        }
        let from_id = l.id;
        let taken = l.take_sprite(sprite);
        self.layers.insert(k, l);
        proof {
            lemma_models_update(before, self.layers@, k as int, l);
        }
        match taken {
            Some(moving) => match self.add_sprite(moving, layer) {
                Some(_) => Some(SceneEvent::SpriteLayer(sprite, from_id, layer)),
                None => None,
            },
            None => None,
        }
    }

    /// Moves the sprites with the given ids one after another to the first
    /// layer with id `layer`, gathering the events of the moves.
    pub fn sprites_layer(&mut self, sprites: &[Id], layer: Id) -> (e: SceneEvent)
        ensures
            final(self)@ == (SceneModel {
                layers: sprites_layer_result(old(self)@.layers, sprites@, layer).0,
                ..old(self)@
            }),
            e matches SceneEvent::EventSet(events) && events@ == sprites_layer_result(
                old(self)@.layers,
                sprites@,
                layer,
            ).1,
    {
        let mut events: Vec<SceneEvent> = Vec::new();
        let mut i: usize = 0;
        while i < sprites.len()
            invariant
                0 <= i <= sprites@.len(),
                self@ == (SceneModel {
                    layers: sprites_layer_result(old(self)@.layers, sprites@.take(i as int), layer).0,
                    ..old(self)@
                }),
                events@ == sprites_layer_result(old(self)@.layers, sprites@.take(i as int), layer).1,
            decreases sprites@.len() - i,
        {
            proof {
                assert(sprites@.take(i + 1).drop_last() =~= sprites@.take(i as int));
            }
            match self.sprite_layer(sprites[i], layer) {
                Some(e) => events.push(e),
                None => {},
            }
            i += 1;
        }
        proof {
            assert(sprites@.take(i as int) =~= sprites@);
        }
        SceneEvent::EventSet(events)
    }
}

} // verus!
