//! Applying scene events, as a client or the server receives them, and
//! unwinding them, as a client does when the server rejects one.

use vstd::prelude::*;

use crate::comms::{lemma_set_member_decreases, SceneEvent};
use crate::geom::{rect_eq, Rect};
use crate::layer::{
    add_sprite_model, insert_pos_asc, lemma_insert_pos_asc_bound, lemma_sort_sprites_len, lemma_sprite_pos_bound,
    lemma_sprite_pos_iff_with, lemma_without_absent, new_layer_model, position_of, sort_sprites_spec,
    sprite_pos, sprites_with, sprites_without, Layer, LayerModel,
};
use crate::placement::{
    add_sprite_result, find_sprite, remove_sprite_event, remove_sprite_result,
    restore_sprite_result, replace_sprite, sprite_layer_result, sprite_place,
};
use crate::scene::{
    add_layer_result, first_where, holds_removed, holds_sprite, layer_index, layer_pos,
    lemma_first_where, lemma_layer_pos, lemma_normalise_keeps_unique,
    move_layer_result, move_layer_safe, remove_layer_result, restore_layer_result,
    restore_layer_safe, Scene, SceneModel,
};
use crate::sprite::{visual_eq, Sprite, Visual};
use crate::Id;

verus! {

/// The scene with other layers.
pub open spec fn with_layers(m: SceneModel, layers: Seq<LayerModel>) -> SceneModel {
    SceneModel { layers, ..m }
}

/// What applying one event that is not a set does to a scene, and whether
/// the scene takes it; `None` where applying it would overflow a height or
/// a count of layers.
///
/// Events about the fog, groups and drawings are not the scene's to apply:
/// it refuses them and stays as it is.
pub open spec fn apply_step(m: SceneModel, e: SceneEvent) -> Option<(SceneModel, bool)> {
    let s = m.layers;
    match e {
        SceneEvent::Dummy => Some((m, true)),
        SceneEvent::LayerLocked(l, locked) => Some(
            (
                match layer_pos(s, l) {
                    None => m,
                    Some(k) => with_layers(m, s.update(k, LayerModel { locked, ..s[k] })),
                },
                true,
            ),
        ),
        SceneEvent::LayerMove(l, starting_z, up) => match layer_pos(s, l) {
            None => Some((m, false)),
            Some(k) => if s[k].z != starting_z {
                Some((m, false))
            } else if !move_layer_safe(s, l, up) {
                None
            } else {
                match move_layer_result(s, l, up) {
                    None => Some((m, false)),
                    Some(r) => Some((with_layers(m, r.0), true)),
                }
            },
        },
        SceneEvent::LayerNew(id, title, z) => if layer_pos(s, id) is None && s.len() >= i32::MAX {
            None
        } else {
            Some((with_layers(m, add_layer_result(s, new_layer_model(id, title@, z)).0), true))
        },
        SceneEvent::LayerRemove(l) => Some(remove_layer_result(m, l)),
        SceneEvent::LayerRestore(l) => if restore_layer_safe(m, l) {
            Some(restore_layer_result(m, l))
        } else {
            None
        },
        SceneEvent::LayerRename(id, old_title, new_title) => match layer_pos(s, id) {
            Some(k) => if s[k].title == old_title@ {
                Some((with_layers(m, s.update(k, LayerModel { title: new_title@, ..s[k] })), true))
            } else {
                Some((m, false))
            },
            None => Some((m, false)),
        },
        SceneEvent::LayerVisibility(l, visible) => Some(
            (
                match layer_pos(s, l) {
                    None => m,
                    Some(k) => with_layers(m, s.update(k, LayerModel { visible, ..s[k] })),
                },
                true,
            ),
        ),
        SceneEvent::SceneDimensions(old_w, old_h, new_w, new_h) => if m.w == old_w && m.h == old_h {
            Some((SceneModel { w: new_w, h: new_h, ..m }, true))
        } else {
            Some((m, false))
        },
        SceneEvent::SceneTitle(old, new) => if m.title == old@ {
            Some((SceneModel { title: new@, ..m }, true))
        } else {
            Some((m, false))
        },
        SceneEvent::SpriteNew(sprite, l) => if find_sprite(s, sprite.id) is None {
            Some((with_layers(m, add_sprite_result(s, sprite, l)), layer_pos(s, l) is Some))
        } else {
            Some((m, false))
        },
        SceneEvent::SpriteLayer(id, old_layer, new_layer) => if (layer_pos(s, old_layer) matches Some(
            k,
        ) && sprite_pos(s[k].sprites, id) is Some) {
            Some(
                (
                    with_layers(m, sprite_layer_result(s, id, new_layer).0),
                    sprite_layer_result(s, id, new_layer).1 is Some,
                ),
            )
        } else {
            Some((m, false))
        },
        SceneEvent::SpriteMove(id, from, to) => match sprite_place(s, id) {
            Some((k, j)) => if rect_eq(s[k].sprites[j].rect, from) || !m.canon {
                Some((with_layers(m, replace_sprite(s, k, j, Sprite { rect: to, ..s[k].sprites[j] })), true))
            } else {
                Some((m, false))
            },
            None => Some((m, false)),
        },
        SceneEvent::SpriteRemove(id, _) => Some((with_layers(m, remove_sprite_result(s, id)), true)),
        SceneEvent::SpriteRestore(id) => Some(
            (with_layers(m, restore_sprite_result(s, id)), first_where(s, holds_removed(id)) is Some),
        ),
        SceneEvent::SpriteVisual(id, old, new) => match sprite_place(s, id) {
            Some((k, j)) => if visual_eq(s[k].sprites[j].visual, old) {
                Some(
                    (with_layers(m, replace_sprite(s, k, j, Sprite { visual: new, ..s[k].sprites[j] })), true),
                )
            } else {
                Some((m, false))
            },
            None => Some((m, false)),
        },
        _ => Some((m, false)),
    }
}

/// What applying an event does to a scene, and whether the scene takes it.
/// The events of a set are applied in order until one is refused; the set
/// is taken when all of them are.
pub open spec fn apply_spec(m: SceneModel, e: SceneEvent) -> Option<(SceneModel, bool)>
    decreases e,
{
    match e {
        SceneEvent::EventSet(events) => apply_all(m, events@),
        _ => apply_step(m, e),
    }
}

/// Applying the events in order until one is refused.
pub open spec fn apply_all(m: SceneModel, s: Seq<SceneEvent>) -> Option<(SceneModel, bool)>
    decreases s,
{
    if s.len() == 0 {
        Some((m, true))
    } else {
        match apply_spec(m, s[0]) {
            None => None,
            Some(r) => if r.1 {
                apply_all(r.0, s.drop_first())
            } else {
                Some((r.0, false))
            },
        }
    }
}

/// The rectangle that `shift` gives for a sprite at `cur` whose move from
/// `from` to `to` is unwound.
pub open spec fn shifted_back<F: Fn(Rect, Rect, Rect) -> Rect>(
    shift: F,
    cur: Rect,
    from: Rect,
    to: Rect,
) -> Rect {
    choose|b: Rect| shift.ensures((cur, from, to), b)
}

/// What unwinding one event that is not a set does to a scene; `None`
/// where unwinding it would overflow a height or a count of layers. A
/// sprite whose move is unwound goes to the rectangle that `shift` gives
/// for it.
pub open spec fn unwind_step<F: Fn(Rect, Rect, Rect) -> Rect>(
    m: SceneModel,
    e: SceneEvent,
    shift: F,
) -> Option<SceneModel> {
    let s = m.layers;
    match e {
        SceneEvent::LayerLocked(l, locked) => Some(
            match layer_pos(s, l) {
                None => m,
                Some(k) => with_layers(m, s.update(k, LayerModel { locked: !locked, ..s[k] })),
            },
        ),
        SceneEvent::LayerMove(l, _, up) => if move_layer_safe(s, l, !up) {
            match move_layer_result(s, l, !up) {
                None => Some(m),
                Some(r) => Some(with_layers(m, r.0)),
            }
        } else {
            None
        },
        SceneEvent::LayerNew(id, _, _) => Some(remove_layer_result(m, id).0),
        SceneEvent::LayerRemove(l) => if restore_layer_safe(m, l) {
            Some(restore_layer_result(m, l).0)
        } else {
            None
        },
        SceneEvent::LayerRestore(l) => Some(remove_layer_result(m, l).0),
        SceneEvent::LayerRename(id, old_title, _) => Some(
            match layer_pos(s, id) {
                None => m,
                Some(k) => with_layers(m, s.update(k, LayerModel { title: old_title@, ..s[k] })),
            },
        ),
        SceneEvent::LayerVisibility(l, visible) => Some(
            match layer_pos(s, l) {
                None => m,
                Some(k) => with_layers(m, s.update(k, LayerModel { visible: !visible, ..s[k] })),
            },
        ),
        SceneEvent::SceneDimensions(old_w, old_h, new_w, new_h) => Some(
            if m.w == new_w && m.h == new_h {
                SceneModel { w: old_w, h: old_h, ..m }
            } else {
                m
            },
        ),
        SceneEvent::SceneTitle(old, new) => Some(
            if m.title == new@ {
                SceneModel { title: old@, ..m }
            } else {
                m
            },
        ),
        SceneEvent::SpriteNew(sprite, _) => Some(with_layers(m, remove_sprite_result(s, sprite.id))),
        SceneEvent::SpriteLayer(id, old_layer, new_layer) => Some(
            if (layer_pos(s, new_layer) matches Some(k) && sprite_pos(s[k].sprites, id) is Some) {
                with_layers(m, sprite_layer_result(s, id, old_layer).0)
            } else {
                m
            },
        ),
        SceneEvent::SpriteMove(id, from, to) => Some(
            match sprite_place(s, id) {
                None => m,
                Some((k, j)) => with_layers(
                    m,
                    replace_sprite(
                        s,
                        k,
                        j,
                        Sprite { rect: shifted_back(shift, s[k].sprites[j].rect, from, to), ..s[k].sprites[j] },
                    ),
                ),
            },
        ),
        SceneEvent::SpriteRemove(id, _) => Some(with_layers(m, restore_sprite_result(s, id))),
        SceneEvent::SpriteRestore(id) => Some(with_layers(m, remove_sprite_result(s, id))),
        SceneEvent::SpriteVisual(id, old, new) => Some(
            match sprite_place(s, id) {
                Some((k, j)) => if visual_eq(s[k].sprites[j].visual, new) {
                    with_layers(m, replace_sprite(s, k, j, Sprite { visual: old, ..s[k].sprites[j] }))
                } else {
                    m
                },
                None => m,
            },
        ),
        _ => Some(m),
    }
}

/// Unwinding one event that is not a set gives an event back.
pub open spec fn step_gives_some<F: Fn(Rect, Rect, Rect) -> Rect>(
    m: SceneModel,
    e: SceneEvent,
    shift: F,
) -> bool {
    let s = m.layers;
    match e {
        SceneEvent::LayerLocked(l, locked) => layer_pos(s, l) matches Some(k) && s[k].locked == locked,
        SceneEvent::LayerMove(l, _, up) => move_layer_result(s, l, !up) is Some,
        SceneEvent::LayerNew(id, _, _) => remove_layer_result(m, id).1,
        SceneEvent::LayerRemove(l) => restore_layer_result(m, l).1,
        SceneEvent::LayerRestore(l) => remove_layer_result(m, l).1,
        SceneEvent::LayerRename(id, _, _) => layer_pos(s, id) is Some,
        SceneEvent::LayerVisibility(l, visible) => layer_pos(s, l) matches Some(k) && s[k].visible
            == visible,
        SceneEvent::SceneDimensions(_, _, new_w, new_h) => m.w == new_w && m.h == new_h,
        SceneEvent::SceneTitle(_, new) => m.title == new@,
        SceneEvent::SpriteNew(sprite, _) => remove_sprite_event(s, sprite.id) is Some,
        SceneEvent::SpriteLayer(id, old_layer, new_layer) => (layer_pos(s, new_layer) matches Some(k)
            && sprite_pos(s[k].sprites, id) is Some) && sprite_layer_result(s, id, old_layer).1 is Some,
        SceneEvent::SpriteMove(id, _, _) => find_sprite(s, id) is Some,
        SceneEvent::SpriteRemove(id, _) => first_where(s, holds_removed(id)) is Some,
        SceneEvent::SpriteRestore(id) => remove_sprite_event(s, id) is Some,
        SceneEvent::SpriteVisual(id, _, new) => find_sprite(s, id) matches Some(sp) && visual_eq(
            sp.visual,
            new,
        ),
        _ => false,
    }
}

/// The event that unwinding one event that is not a set gives back is `r`:
/// the event that undoes the unwinding, or none when nothing was undone.
pub open spec fn step_gives<F: Fn(Rect, Rect, Rect) -> Rect>(
    m: SceneModel,
    e: SceneEvent,
    shift: F,
    r: Option<SceneEvent>,
) -> bool {
    let s = m.layers;
    &&& (r is Some) == step_gives_some(m, e, shift)
    &&& match e {
        SceneEvent::LayerLocked(l, locked) => r is Some ==> r == Some(
            SceneEvent::LayerLocked(l, !locked),
        ),
        SceneEvent::LayerMove(l, _, up) => r is Some ==> r == Some(move_layer_result(s, l, !up).unwrap().1),
        SceneEvent::LayerNew(id, _, _) => r is Some ==> r == Some(SceneEvent::LayerRemove(id)),
        SceneEvent::LayerRemove(l) => r is Some ==> r == Some(SceneEvent::LayerRestore(l)),
        SceneEvent::LayerRestore(l) => r is Some ==> r == Some(SceneEvent::LayerRemove(l)),
        SceneEvent::LayerRename(id, old_title, _) => r is Some ==> (r matches Some(
            SceneEvent::LayerRename(i, a, b),
        ) && i == id && a@ == s[layer_pos(s, id).unwrap()].title && b == old_title),
        SceneEvent::LayerVisibility(l, visible) => r is Some ==> r == Some(
            SceneEvent::LayerVisibility(l, !visible),
        ),
        SceneEvent::SceneDimensions(old_w, old_h, new_w, new_h) => r is Some ==> r == Some(
            SceneEvent::SceneDimensions(new_w, new_h, old_w, old_h),
        ),
        SceneEvent::SceneTitle(old, new) => r is Some ==> r == Some(SceneEvent::SceneTitle(new, old)),
        SceneEvent::SpriteNew(sprite, _) => r == remove_sprite_event(s, sprite.id),
        SceneEvent::SpriteLayer(id, old_layer, _) => r is Some ==> r == sprite_layer_result(
            s,
            id,
            old_layer,
        ).1,
        SceneEvent::SpriteMove(id, from, to) => r is Some ==> r == Some(
            SceneEvent::SpriteMove(
                id,
                find_sprite(s, id).unwrap().rect,
                shifted_back(shift, find_sprite(s, id).unwrap().rect, from, to),
            ),
        ),
        SceneEvent::SpriteRemove(id, _) => r is Some ==> r == Some(SceneEvent::SpriteRestore(id)),
        SceneEvent::SpriteRestore(id) => r == remove_sprite_event(s, id),
        SceneEvent::SpriteVisual(id, old, _) => r is Some ==> r == Some(
            SceneEvent::SpriteVisual(id, find_sprite(s, id).unwrap().visual, old),
        ),
        _ => true,
    }
}

/// What unwinding an event does to a scene: a set is unwound event by
/// event, in order.
pub open spec fn unwind_spec<F: Fn(Rect, Rect, Rect) -> Rect>(
    m: SceneModel,
    e: SceneEvent,
    shift: F,
) -> Option<SceneModel>
    decreases e,
{
    match e {
        SceneEvent::EventSet(events) => unwind_all(m, events@, shift),
        _ => unwind_step(m, e, shift),
    }
}

/// Unwinding the events one after another.
pub open spec fn unwind_all<F: Fn(Rect, Rect, Rect) -> Rect>(
    m: SceneModel,
    s: Seq<SceneEvent>,
    shift: F,
) -> Option<SceneModel>
    decreases s,
{
    if s.len() == 0 {
        Some(m)
    } else {
        match unwind_spec(m, s[0], shift) {
            None => None,
            Some(m1) => unwind_all(m1, s.drop_first(), shift),
        }
    }
}

/// Unwinding gives an event back: a set always does, with the events its
/// own events give back.
pub open spec fn gives_some<F: Fn(Rect, Rect, Rect) -> Rect>(
    m: SceneModel,
    e: SceneEvent,
    shift: F,
) -> bool {
    match e {
        SceneEvent::EventSet(_) => true,
        _ => step_gives_some(m, e, shift),
    }
}

/// The event that unwinding `e` gives back is `r`.
pub open spec fn unwind_gives<F: Fn(Rect, Rect, Rect) -> Rect>(
    m: SceneModel,
    e: SceneEvent,
    shift: F,
    r: Option<SceneEvent>,
) -> bool
    decreases e,
{
    match e {
        SceneEvent::EventSet(events) => r matches Some(SceneEvent::EventSet(out)) && unwind_gives_all(
            m,
            events@,
            shift,
            out@,
        ),
        _ => step_gives(m, e, shift, r),
    }
}

/// The events that unwinding the events one after another gives back, in
/// order, are `out`.
pub open spec fn unwind_gives_all<F: Fn(Rect, Rect, Rect) -> Rect>(
    m: SceneModel,
    s: Seq<SceneEvent>,
    shift: F,
    out: Seq<SceneEvent>,
) -> bool
    decreases s,
{
    if s.len() == 0 {
        out.len() == 0
    } else {
        let m1 = unwind_spec(m, s[0], shift).unwrap();
        if gives_some(m, s[0], shift) {
            out.len() > 0 && unwind_gives(m, s[0], shift, Some(out[0])) && unwind_gives_all(
                m1,
                s.drop_first(),
                shift,
                out.drop_first(),
            )
        } else {
            unwind_gives(m, s[0], shift, None) && unwind_gives_all(m1, s.drop_first(), shift, out)
        }
    }
}

/// Showing or hiding a layer of the scene is taken and sets that layer's
/// visibility to the event's value, leaving every other layer, and the rest
/// of the scene, as it was; locking or unlocking a layer does the same with
/// its lock. An event for a layer the scene lacks is taken and changes
/// nothing.
pub proof fn law_layer_flags_apply(m: SceneModel, l: Id, v: bool)
    ensures
        apply_spec(m, SceneEvent::LayerVisibility(l, v)) matches Some((m2, ok)) && ok && {
            &&& m2.layers.len() == m.layers.len()
            &&& m2 == SceneModel { layers: m2.layers, ..m }
            &&& match layer_pos(m.layers, l) {
                Some(k) => m2.layers[k].visible == v && m2.layers[k] == LayerModel {
                    visible: m2.layers[k].visible,
                    ..m.layers[k]
                } && forall|j: int| 0 <= j < m.layers.len() && j != k ==> m2.layers[j] == m.layers[j],
                None => m2 == m,
            }
        },
        apply_spec(m, SceneEvent::LayerLocked(l, v)) matches Some((m2, ok)) && ok && {
            &&& m2.layers.len() == m.layers.len()
            &&& m2 == SceneModel { layers: m2.layers, ..m }
            &&& match layer_pos(m.layers, l) {
                Some(k) => m2.layers[k].locked == v && m2.layers[k] == LayerModel {
                    locked: m2.layers[k].locked,
                    ..m.layers[k]
                } && forall|j: int| 0 <= j < m.layers.len() && j != k ==> m2.layers[j] == m.layers[j],
                None => m2 == m,
            }
        },
{
    lemma_layer_pos(m.layers, l);
}

/// Removing the sprite that a layer holds, and then unwinding that removal,
/// puts the sprite the removal set aside back on that layer, with that
/// layer's set-aside sprites as they were and every other layer as it was;
/// unwinding gives back an event (the restoring one). This holds where no
/// layer had a sprite with that id set aside before.
pub proof fn law_unwind_remove_restores_sprite<F: Fn(Rect, Rect, Rect) -> Rect>(
    m: SceneModel,
    id: Id,
    layer: Id,
    shift: F,
)
    requires
        first_where(m.layers, holds_sprite(id)) is Some,
        first_where(m.layers, holds_removed(id)) is None,
    ensures
        ({
            let k = first_where(m.layers, holds_sprite(id)).unwrap();
            let sp = sprites_with(m.layers[k].sprites, id).last();
            &&& sp.id == id
            &&& apply_spec(m, SceneEvent::SpriteRemove(id, layer)) matches Some((m2, ok)) && ok && {
                &&& step_gives_some(m2, SceneEvent::SpriteRemove(id, layer), shift)
                &&& unwind_spec(m2, SceneEvent::SpriteRemove(id, layer), shift) matches Some(m3) && {
                    &&& m3.layers.len() == m.layers.len()
                    &&& m3.layers[k].sprites.contains(sp)
                    &&& m3.layers[k].removed_sprites == m.layers[k].removed_sprites
                    &&& forall|j: int| 0 <= j < m.layers.len() && j != k ==> m3.layers[j] == m.layers[j]
                }
            }
        }),
{
    reveal_with_fuel(Seq::<_>::filter, 1);
    let s = m.layers;
    lemma_first_where(s, holds_sprite(id));
    lemma_first_where(s, holds_removed(id));
    let k = first_where(s, holds_sprite(id)).unwrap();
    let lk = s[k];
    lemma_sprite_pos_iff_with(lk.sprites, id);
    let sp = sprites_with(lk.sprites, id).last();
    // The removal sets `sp` aside on layer `k`.
    let removed = LayerModel {
        sprites: sprites_without(lk.sprites, id),
        removed_sprites: lk.removed_sprites.push(sp),
        ..lk
    };
    let s2 = s.update(k, removed);
    assert(remove_sprite_result(s, id) == s2);
    // Layer `k` is now the first with `id` set aside.
    assert(!holds_removed(id)(lk));
    lemma_sprite_pos_bound(lk.removed_sprites, id);
    assert(sprite_pos(removed.removed_sprites, id) is Some) by {
        assert(removed.removed_sprites.drop_last() =~= lk.removed_sprites);
    }
    lemma_first_where(s2, holds_removed(id));
    assert forall|j: int| 0 <= j < k implies !holds_removed(id)(#[trigger] s2[j]) by {
        assert(s2[j] == s[j]);
    }
    assert(first_where(s2, holds_removed(id)) == Some(k)) by {
        assert(holds_removed(id)(s2[k]));
    }
    // Restoring takes `sp` back out of the set-aside sprites.
    lemma_sprite_pos_iff_with(lk.removed_sprites, id);
    lemma_without_absent(lk.removed_sprites, id);
    assert(lk.removed_sprites.push(sp).drop_last() =~= lk.removed_sprites);
    assert(sprites_with(removed.removed_sprites, id) =~= seq![sp]) by {
        assert(sprites_with(lk.removed_sprites, id).len() == 0);
        assert(sprites_with(lk.removed_sprites, id) =~= Seq::<Sprite>::empty());
    }
    assert(sprites_without(removed.removed_sprites, id) == lk.removed_sprites);
    let t = sprites_without(lk.sprites, id).push(sp);
    let rest = sort_sprites_spec(t.drop_last());
    let pos = insert_pos_asc(rest, sp.z);
    lemma_sort_sprites_len(t.drop_last());
    lemma_insert_pos_asc_bound(rest, sp.z);
    assert(t.drop_last() =~= sprites_without(lk.sprites, id));
    assert(sort_sprites_spec(t)[pos] == sp);
}

/// A sorted insertion of a sprite into a layer keeps the sprite.
proof fn lemma_added_sprite_kept(l: LayerModel, sp: Sprite)
    ensures
        add_sprite_model(l, sp).sprites.contains(sp),
        add_sprite_model(l, sp).id == l.id,
{
    let t = l.sprites.push(sp);
    let rest = sort_sprites_spec(t.drop_last());
    lemma_sort_sprites_len(t.drop_last());
    lemma_insert_pos_asc_bound(rest, sp.z);
    assert(t.drop_last() =~= l.sprites);
    assert(sort_sprites_spec(t)[insert_pos_asc(rest, sp.z)] == sp);
}

/// Renaming a layer whose title is the rename's old title gives it the new
/// title and leaves every other layer, and the rest of the scene, as it was;
/// a rename whose old title is not the layer's is refused and changes
/// nothing.
pub proof fn law_rename_apply(m: SceneModel, id: Id, old: String, new: String)
    requires
        layer_pos(m.layers, id) is Some,
    ensures
        ({
            let k = layer_pos(m.layers, id).unwrap();
            let ok_title = m.layers[k].title == old@;
            apply_spec(m, SceneEvent::LayerRename(id, old, new)) matches Some((m2, ok)) && ok == ok_title
                && (if ok {
                &&& m2 == SceneModel { layers: m2.layers, ..m }
                &&& m2.layers.len() == m.layers.len()
                &&& m2.layers[k] == LayerModel { title: new@, ..m.layers[k] }
                &&& forall|j: int| 0 <= j < m.layers.len() && j != k ==> m2.layers[j] == m.layers[j]
            } else {
                m2 == m
            })
        }),
{
    lemma_layer_pos(m.layers, id);
}

/// Retitling the scene from its present title gives it the new one and
/// changes nothing else; from another title it is refused and changes
/// nothing. Resizing the scene from its present size does the same with
/// its width and height.
pub proof fn law_title_and_size_apply(m: SceneModel, old: String, new: String, ow: u32, oh: u32, nw: u32, nh: u32)
    ensures
        apply_spec(m, SceneEvent::SceneTitle(old, new)) == Some(
            if m.title == old@ {
                (SceneModel { title: new@, ..m }, true)
            } else {
                (m, false)
            },
        ),
        apply_spec(m, SceneEvent::SceneDimensions(ow, oh, nw, nh)) == Some(
            if m.w == ow && m.h == oh {
                (SceneModel { w: nw, h: nh, ..m }, true)
            } else {
                (m, false)
            },
        ),
{
}

/// Moving a sprite from where it is (or making any move on a copy that is
/// not the server's) puts it at the new place, with nothing else about it,
/// and no other sprite or layer, changed.
pub proof fn law_move_apply(m: SceneModel, id: Id, from: Rect, to: Rect)
    requires
        sprite_place(m.layers, id) is Some,
        ({
            let (k, j) = sprite_place(m.layers, id).unwrap();
            rect_eq(m.layers[k].sprites[j].rect, from) || !m.canon
        }),
    ensures
        ({
            let (k, j) = sprite_place(m.layers, id).unwrap();
            apply_spec(m, SceneEvent::SpriteMove(id, from, to)) matches Some((m2, ok)) && ok && {
                &&& m2 == SceneModel { layers: m2.layers, ..m }
                &&& m2.layers.len() == m.layers.len()
                &&& m2.layers[k].sprites.len() == m.layers[k].sprites.len()
                &&& m2.layers[k].sprites[j] == Sprite { rect: to, ..m.layers[k].sprites[j] }
                &&& forall|t: int|
                    0 <= t < m.layers[k].sprites.len() && t != j ==> m2.layers[k].sprites[t]
                        == m.layers[k].sprites[t]
                &&& forall|q: int| 0 <= q < m.layers.len() && q != k ==> m2.layers[q] == m.layers[q]
            }
        }),
{
    lemma_first_where(m.layers, holds_sprite(id));
    let k = first_where(m.layers, holds_sprite(id)).unwrap();
    lemma_sprite_pos_bound(m.layers[k].sprites, id);
}

/// A new sprite whose id no layer holds, for a layer the scene has, is
/// taken and joins that layer; every other layer stays as it was.
pub proof fn law_new_sprite_apply(m: SceneModel, sp: Sprite, l: Id)
    requires
        find_sprite(m.layers, sp.id) is None,
        layer_pos(m.layers, l) is Some,
    ensures
        ({
            let k = layer_pos(m.layers, l).unwrap();
            apply_spec(m, SceneEvent::SpriteNew(sp, l)) matches Some((m2, ok)) && ok && {
                &&& m2 == SceneModel { layers: m2.layers, ..m }
                &&& m2.layers.len() == m.layers.len()
                &&& m2.layers[k].sprites.contains(sp)
                &&& forall|q: int| 0 <= q < m.layers.len() && q != k ==> m2.layers[q] == m.layers[q]
            }
        }),
{
    lemma_layer_pos(m.layers, l);
    let k = layer_pos(m.layers, l).unwrap();
    lemma_added_sprite_kept(m.layers[k], sp);
}

/// Adding a sprite whose id no layer holds, and then unwinding that, leaves
/// no sprite with that id on the layer, every other layer as it was, and
/// gives back an event (the removal).
pub proof fn law_unwind_new_removes_sprite<F: Fn(Rect, Rect, Rect) -> Rect>(
    m: SceneModel,
    sp: Sprite,
    l: Id,
    shift: F,
)
    requires
        first_where(m.layers, holds_sprite(sp.id)) is None,
        layer_pos(m.layers, l) is Some,
    ensures
        ({
            let k = layer_pos(m.layers, l).unwrap();
            apply_spec(m, SceneEvent::SpriteNew(sp, l)) matches Some((m2, ok)) && ok && {
                &&& step_gives_some(m2, SceneEvent::SpriteNew(sp, l), shift)
                &&& unwind_spec(m2, SceneEvent::SpriteNew(sp, l), shift) matches Some(m3) && {
                    &&& m3.layers.len() == m.layers.len()
                    &&& sprites_with(m3.layers[k].sprites, sp.id).len() == 0
                    &&& forall|j: int| 0 <= j < m.layers.len() && j != k ==> m3.layers[j] == m.layers[j]
                }
            }
        }),
{
    broadcast use vstd::seq_lib::group_filter_ensures;
    let s = m.layers;
    lemma_layer_pos(s, l);
    lemma_first_where(s, holds_sprite(sp.id));
    let k = layer_pos(s, l).unwrap();
    assert(find_sprite(s, sp.id) is None);
    let s2 = s.update(k, add_sprite_model(s[k], sp));
    lemma_added_sprite_kept(s[k], sp);
    let i = choose|i: int| 0 <= i < s2[k].sprites.len() && s2[k].sprites[i] == sp;
    lemma_sprite_pos_bound(s2[k].sprites, sp.id);
    assert(holds_sprite(sp.id)(s2[k]));
    lemma_first_where(s2, holds_sprite(sp.id));
    assert forall|j: int| 0 <= j < k implies !holds_sprite(sp.id)(#[trigger] s2[j]) by {
        assert(s2[j] == s[j]);
    }
    assert(first_where(s2, holds_sprite(sp.id)) == Some(k)) by {
        assert(holds_sprite(sp.id)(s2[k]));
    }
    lemma_sprite_pos_iff_with(s2[k].sprites, sp.id);
    let kept = sprites_without(s2[k].sprites, sp.id);
    let pred = |x: Sprite| x.id == sp.id;
    assert forall|t: int| 0 <= t < kept.len() implies kept[t].id != sp.id by {
        s2[k].sprites.lemma_filter_pred(|x: Sprite| x.id != sp.id, t);
    }
    lemma_without_absent(kept, sp.id);
    assert(sprites_with(kept, sp.id).len() == 0) by {
        if sprites_with(kept, sp.id).len() > 0 {
            kept.lemma_filter_pred(pred, 0);
            let x = sprites_with(kept, sp.id)[0];
            kept.lemma_filter_contains_rev(pred, x);
        }
    }
}

/// Changing the look of a sprite from the look it has gives it the new
/// look, with nothing else about it, and no other sprite or layer, changed.
pub proof fn law_visual_apply(m: SceneModel, id: Id, old: Visual, new: Visual)
    requires
        sprite_place(m.layers, id) is Some,
        ({
            let (k, j) = sprite_place(m.layers, id).unwrap();
            visual_eq(m.layers[k].sprites[j].visual, old)
        }),
    ensures
        ({
            let (k, j) = sprite_place(m.layers, id).unwrap();
            apply_spec(m, SceneEvent::SpriteVisual(id, old, new)) matches Some((m2, ok)) && ok && {
                &&& m2 == SceneModel { layers: m2.layers, ..m }
                &&& m2.layers.len() == m.layers.len()
                &&& m2.layers[k].sprites.len() == m.layers[k].sprites.len()
                &&& m2.layers[k].sprites[j] == Sprite { visual: new, ..m.layers[k].sprites[j] }
                &&& forall|t: int|
                    0 <= t < m.layers[k].sprites.len() && t != j ==> m2.layers[k].sprites[t]
                        == m.layers[k].sprites[t]
                &&& forall|q: int| 0 <= q < m.layers.len() && q != k ==> m2.layers[q] == m.layers[q]
            }
        }),
{
    lemma_first_where(m.layers, holds_sprite(id));
    let k = first_where(m.layers, holds_sprite(id)).unwrap();
    lemma_sprite_pos_bound(m.layers[k].sprites, id);
}

/// A new layer with an id no layer has is taken: the scene then has one
/// more layer, and the layer with that id is the new one, with its title,
/// at the height that renumbering gives it.
pub proof fn law_layer_new_apply(m: SceneModel, id: Id, title: String, z: i32)
    requires
        layer_pos(m.layers, id) is None,
        m.layers.len() < i32::MAX,
    ensures
        apply_spec(m, SceneEvent::LayerNew(id, title, z)) matches Some((m2, ok)) && ok && {
            &&& m2 == SceneModel { layers: m2.layers, ..m }
            &&& m2.layers.len() == m.layers.len() + 1
            &&& layer_pos(m2.layers, id) matches Some(p) && m2.layers[p] == LayerModel {
                z: m2.layers[p].z,
                ..new_layer_model(id, title@, z)
            }
        },
{
    let l = new_layer_model(id, title@, z);
    lemma_normalise_keeps_unique(m.layers, l);
    crate::scene::lemma_sort_layers_len(m.layers.push(l));
}

/// The event changes the scene where it applies: a lock or visibility
/// event flips the layer's flag, a rename or retitle names something else,
/// a resize gives another size. These are the events the scene's own
/// operations give.
pub open spec fn changes_scene(m: SceneModel, e: SceneEvent) -> bool {
    match e {
        SceneEvent::LayerLocked(l, locked) => layer_pos(m.layers, l) matches Some(k)
            && m.layers[k].locked != locked,
        SceneEvent::LayerVisibility(l, visible) => layer_pos(m.layers, l) matches Some(k)
            && m.layers[k].visible != visible,
        SceneEvent::LayerRename(_, _, _) => true,
        SceneEvent::SceneDimensions(_, _, _, _) => true,
        SceneEvent::SceneTitle(_, _) => true,
        _ => false,
    }
}

/// Unwinding an event that the scene took, and that changed it, gives the
/// scene back, for lock, visibility, rename, resize and retitle events.
pub proof fn law_unwind_undoes_apply<F: Fn(Rect, Rect, Rect) -> Rect>(
    m: SceneModel,
    e: SceneEvent,
    shift: F,
)
    requires
        changes_scene(m, e),
        apply_spec(m, e) matches Some(r) && r.1,
    ensures
        unwind_spec(apply_spec(m, e).unwrap().0, e, shift) == Some(m),
{
    let m1 = apply_spec(m, e).unwrap().0;
    match e {
        SceneEvent::LayerLocked(l, locked) => {
            let k = layer_pos(m.layers, l).unwrap();
            lemma_layer_pos(m.layers, l);
            lemma_layer_pos_same_ids(m.layers, m1.layers, l);
            assert(m1.layers.update(k, LayerModel { locked: !locked, ..m1.layers[k] }) =~= m.layers);
        },
        SceneEvent::LayerVisibility(l, visible) => {
            let k = layer_pos(m.layers, l).unwrap();
            lemma_layer_pos(m.layers, l);
            lemma_layer_pos_same_ids(m.layers, m1.layers, l);
            assert(m1.layers.update(k, LayerModel { visible: !visible, ..m1.layers[k] }) =~= m.layers);
        },
        SceneEvent::LayerRename(id, old_title, new_title) => {
            let k = layer_pos(m.layers, id).unwrap();
            lemma_layer_pos(m.layers, id);
            lemma_layer_pos_same_ids(m.layers, m1.layers, id);
            assert(m1.layers.update(k, LayerModel { title: old_title@, ..m1.layers[k] }) =~= m.layers);
        },
        _ => {},
    }
}

/// Changing a layer but not its id leaves the first layer with a given id
/// where it was.
proof fn lemma_layer_pos_same_ids(a: Seq<LayerModel>, b: Seq<LayerModel>, id: crate::Id)
    requires
        a.len() == b.len(),
        forall|k: int| 0 <= k < a.len() ==> #[trigger] a[k].id == b[k].id,
    ensures
        layer_pos(a, id) == layer_pos(b, id),
    decreases a.len(),
{
    if a.len() > 0 {
        lemma_layer_pos_same_ids(a.drop_last(), b.drop_last(), id);
    }
}

impl Scene {
    /// Applies an event, returning whether the scene takes it. A refused
    /// event in a set stops the set there: the events before it stay
    /// applied, those after it are not tried.
    pub fn apply_event(&mut self, event: SceneEvent) -> (ok: bool)
        requires
            apply_spec(old(self)@, event) is Some,
        ensures
            apply_spec(old(self)@, event) == Some((final(self)@, ok)),
        decreases event,
    {
        match event {
            SceneEvent::EventSet(events) => {
                let ghost all = events;
                let ghost start = self@;
                let mut rest = events;
                let n = rest.len();
                let mut i: usize = 0;
                assert(rest@.skip(0) =~= rest@);
                while rest.len() > 0
                    invariant
                        event == SceneEvent::EventSet(all),
                        start == old(self)@,
                        i + rest@.len() == all@.len(),
                        all@.len() == n,
                        rest@ == all@.skip(i as int),
                        apply_spec(start, event) == apply_all(self@, rest@),
                        apply_all(self@, rest@) is Some,
                    decreases rest@.len(),
                {
                    let ghost before = rest@;
                    let ghost here = self@;
                    let e = rest.remove(0);
                    proof {
                        lemma_set_member_decreases(event, all, i as int);
                        assert(before[0] == all@[i as int]);
                        assert(before.drop_first() =~= rest@);
                        assert(rest@ =~= all@.skip(i + 1));
                        assert(e == before[0]);
                    }
                    let ok = self.apply_event(e);
                    proof {
                        assert(apply_all(here, before) == (if ok {
                            apply_all(self@, rest@)
                        } else {
                            Some((self@, false))
                        }));
                    }
                    if !ok {
                        return false;
                    }
                    i += 1;
                }
                true
            },
            _ => self.apply_single(event),
        }
    }

    /// Applies an event that is not a set.
    fn apply_single(&mut self, event: SceneEvent) -> (ok: bool)
        requires
            !(event is EventSet),
            apply_step(old(self)@, event) is Some,
        ensures
            apply_step(old(self)@, event) == Some((final(self)@, ok)),
    {
        match event {
            SceneEvent::Dummy => true,
            SceneEvent::LayerLocked(l, locked) => {
                self.set_layer_locked(l, locked);
                true
            },
            SceneEvent::LayerMove(l, starting_z, up) => match layer_index(&self.layers, l) {
                None => false,
                Some(k) => {
                    proof {
                        lemma_layer_pos(self@.layers, l);
                        assert(self@.layers[k as int] == self.layers@[k as int]@);
                    }
                    if self.layers[k].z != starting_z {
                        false
                    } else {
                        self.move_layer(l, up).is_some()
                    }
                },
            },
            SceneEvent::LayerNew(id, title, z) => {
                self.add_layer(Layer::new(id, title.as_str(), z));
                true
            },
            SceneEvent::LayerRemove(l) => self.remove_layer(l).is_some(),
            SceneEvent::LayerRestore(l) => self.restore_layer(l).is_some(),
            SceneEvent::LayerRename(id, old_title, new_title) => match layer_index(&self.layers, id) {
                None => false,
                Some(k) => {
                    proof {
                        lemma_layer_pos(self@.layers, id);
                        assert(self@.layers[k as int] == self.layers@[k as int]@);
                    }
                    if self.layers[k].title == old_title {
                        self.rename_layer(id, new_title);
                        true
                    } else {
                        false
                    }
                },
            },
            SceneEvent::LayerVisibility(l, visible) => {
                self.set_layer_visible(l, visible);
                true
            },
            SceneEvent::SceneDimensions(old_w, old_h, new_w, new_h) => {
                if self.w == old_w && self.h == old_h {
                    self.w = new_w;
                    self.h = new_h;
                    true
                } else {
                    false
                }
            },
            SceneEvent::SceneTitle(old, new) => {
                if self.title == old {
                    self.title = new;
                    true
                } else {
                    false
                }
            },
            SceneEvent::SpriteNew(sprite, l) => match self.sprite_position(sprite.id) {
                Some(_) => false,
                None => self.add_sprite(sprite, l).is_some(),
            },
            SceneEvent::SpriteLayer(id, old_layer, new_layer) => {
                let accurate = match self.layer_ref(old_layer) {
                    Some(l) => position_of(&l.sprites, id).is_some(),
                    None => false,
                };
                if accurate {
                    self.sprite_layer(id, new_layer).is_some()
                } else {
                    false
                }
            },
            SceneEvent::SpriteMove(id, from, to) => {
                let canon = self.canon;
                match self.sprite_position(id) {
                    None => false,
                    Some((k, j)) => {
                        let l = &self.layers[k];
                        proof {
                            assert(self@.layers[k as int] == l@);
                        }
                        let s = l.sprites[j];
                        if s.rect.same_as(&from) || !canon {
                            self.replace_sprite_at(k, j, Sprite { rect: to, ..s });
                            true
                        } else {
                            false
                        }
                    },
                }
            },
            SceneEvent::SpriteRemove(id, _) => {
                self.remove_sprite(id);
                true
            },
            SceneEvent::SpriteRestore(id) => self.restore_sprite(id).is_some(),
            SceneEvent::SpriteVisual(id, old, new) => match self.sprite_position(id) {
                None => false,
                Some((k, j)) => {
                    let l = &self.layers[k];
                    proof {
                        assert(self@.layers[k as int] == l@);
                    }
                    let s = l.sprites[j];
                    if s.visual.same_as(&old) {
                        self.replace_sprite_at(k, j, Sprite { visual: new, ..s });
                        true
                    } else {
                        false
                    }
                },
            },
            _ => false,
        }
    }

    /// Unwinds an event: undoes what applying it did, as far as the scene
    /// still allows, and returns the event that undoes the unwinding. A
    /// set is unwound event by event, in order, and gives back the set of
    /// the events its own events give back. `shift` works out where a sprite
    /// goes when its move is unwound: given the sprite's rectangle and the
    /// move's start and end, the rectangle moved back by the move.
    pub fn unwind_event<F: Fn(Rect, Rect, Rect) -> Rect + Copy>(
        &mut self,
        event: SceneEvent,
        shift: F,
    ) -> (r: Option<SceneEvent>)
        requires
            forall|a: Rect, b: Rect, c: Rect| shift.requires((a, b, c)),
            forall|args: (Rect, Rect, Rect), x: Rect, y: Rect|
                shift.ensures(args, x) && shift.ensures(args, y) ==> x == y,
            unwind_spec(old(self)@, event, shift) is Some,
        ensures
            unwind_spec(old(self)@, event, shift) == Some(final(self)@),
            unwind_gives(old(self)@, event, shift, r),
        decreases event,
    {
        match event {
            SceneEvent::EventSet(events) => {
                let ghost all = events;
                let ghost start = self@;
                let mut rest = events;
                let n = rest.len();
                let mut out: Vec<SceneEvent> = Vec::new();
                let mut i: usize = 0;
                assert(rest@.skip(0) =~= rest@);
                proof {
                    assert forall|tail: Seq<SceneEvent>|
                        #[trigger] unwind_gives_all(self@, rest@, shift, tail) implies unwind_gives_all(
                        start,
                        all@,
                        shift,
                        out@ + tail,
                    ) by {
                        assert(out@ + tail =~= tail);
                    }
                }
                while rest.len() > 0
                    invariant
                        event == SceneEvent::EventSet(all),
                        start == old(self)@,
                        i + rest@.len() == all@.len(),
                        all@.len() == n,
                        rest@ == all@.skip(i as int),
                        forall|a: Rect, b: Rect, c: Rect| shift.requires((a, b, c)),
                        forall|args: (Rect, Rect, Rect), x: Rect, y: Rect|
                            shift.ensures(args, x) && shift.ensures(args, y) ==> x == y,
                        unwind_spec(start, event, shift) == unwind_all(self@, rest@, shift),
                        unwind_all(self@, rest@, shift) is Some,
                        forall|tail: Seq<SceneEvent>|
                            #[trigger] unwind_gives_all(self@, rest@, shift, tail) ==> unwind_gives_all(
                                start,
                                all@,
                                shift,
                                out@ + tail,
                            ),
                    decreases rest@.len(),
                {
                    let ghost before = rest@;
                    let ghost here = self@;
                    let ghost out_before = out@;
                    let e = rest.remove(0);
                    proof {
                        lemma_set_member_decreases(event, all, i as int);
                        assert(before[0] == all@[i as int]);
                        assert(before.drop_first() =~= rest@);
                        assert(rest@ =~= all@.skip(i + 1));
                        assert(e == before[0]);
                    }
                    let r = self.unwind_event(e, shift);
                    proof {
                        assert((r is Some) == gives_some(here, e, shift));
                    }
                    match r {
                        Some(x) => out.push(x),
                        None => {},
                    }
                    proof {
                        assert forall|tail: Seq<SceneEvent>|
                            #[trigger] unwind_gives_all(self@, rest@, shift, tail) implies unwind_gives_all(
                            start,
                            all@,
                            shift,
                            out@ + tail,
                        ) by {
                            let t2 = match r {
                                Some(x) => seq![x] + tail,
                                None => tail,
                            };
                            if r is Some {
                                assert(t2[0] == r.unwrap());
                                assert(t2.drop_first() =~= tail);
                            }
                            assert(unwind_gives_all(here, before, shift, t2));
                            assert(out_before + t2 =~= out@ + tail);
                        }
                    }
                    i += 1;
                }
                proof {
                    assert(unwind_gives_all(self@, rest@, shift, Seq::empty()));
                    assert(out@ + Seq::<SceneEvent>::empty() =~= out@);
                }
                Some(SceneEvent::EventSet(out))
            },
            _ => self.unwind_single(event, shift),
        }
    }

    /// Unwinds an event that is not a set.
    fn unwind_single<F: Fn(Rect, Rect, Rect) -> Rect + Copy>(
        &mut self,
        event: SceneEvent,
        shift: F,
    ) -> (r: Option<SceneEvent>)
        requires
            !(event is EventSet),
            forall|a: Rect, b: Rect, c: Rect| shift.requires((a, b, c)),
            forall|args: (Rect, Rect, Rect), x: Rect, y: Rect|
                shift.ensures(args, x) && shift.ensures(args, y) ==> x == y,
            unwind_step(old(self)@, event, shift) is Some,
        ensures
            unwind_step(old(self)@, event, shift) == Some(final(self)@),
            step_gives(old(self)@, event, shift, r),
    {
        match event {
            SceneEvent::LayerLocked(l, locked) => self.set_layer_locked(l, !locked),
            SceneEvent::LayerMove(l, _, up) => self.move_layer(l, !up),
            SceneEvent::LayerNew(id, _, _) => self.remove_layer(id),
            SceneEvent::LayerRemove(l) => self.restore_layer(l),
            SceneEvent::LayerRestore(l) => self.remove_layer(l),
            SceneEvent::LayerRename(id, old_title, _) => self.rename_layer(id, old_title),
            SceneEvent::LayerVisibility(l, visible) => self.set_layer_visible(l, !visible),
            SceneEvent::SceneDimensions(old_w, old_h, new_w, new_h) => {
                if self.w == new_w && self.h == new_h {
                    self.w = old_w;
                    self.h = old_h;
                    Some(SceneEvent::SceneDimensions(new_w, new_h, old_w, old_h))
                } else {
                    None
                }
            },
            SceneEvent::SceneTitle(old, new) => {
                if self.title == new {
                    self.title = old.clone();
                    Some(SceneEvent::SceneTitle(new, old))
                } else {
                    None
                }
            },
            SceneEvent::SpriteNew(sprite, _) => self.remove_sprite(sprite.id),
            SceneEvent::SpriteLayer(id, old_layer, new_layer) => {
                let there = match self.layer_ref(new_layer) {
                    Some(l) => position_of(&l.sprites, id).is_some(),
                    None => false,
                };
                if there {
                    self.sprite_layer(id, old_layer)
                } else {
                    None
                }
            },
            SceneEvent::SpriteMove(id, from, to) => match self.sprite_position(id) {
                None => None,
                Some((k, j)) => {
                    let l = &self.layers[k];
                    proof {
                        assert(self@.layers[k as int] == l@);
                    }
                    let s = l.sprites[j];
                    let back = shift(s.rect, from, to);
                    proof {
                        assert(shift.ensures((s.rect, from, to), shifted_back(shift, s.rect, from, to)));
                    }
                    self.replace_sprite_at(k, j, Sprite { rect: back, ..s });
                    Some(SceneEvent::SpriteMove(id, s.rect, back))
                },
            },
            SceneEvent::SpriteRemove(id, _) => self.restore_sprite(id),
            SceneEvent::SpriteRestore(id) => self.remove_sprite(id),
            SceneEvent::SpriteVisual(id, old, new) => match self.sprite_position(id) {
                None => None,
                Some((k, j)) => {
                    let l = &self.layers[k];
                    proof {
                        assert(self@.layers[k as int] == l@);
                    }
                    let s = l.sprites[j];
                    if s.visual.same_as(&new) {
                        self.replace_sprite_at(k, j, Sprite { visual: old, ..s });
                        Some(SceneEvent::SpriteVisual(id, s.visual, old))
                    } else {
                        None
                    }
                },
            },
            _ => None,
        }
    }
}

} // verus!
