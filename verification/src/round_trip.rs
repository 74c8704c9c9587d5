//! Saving a scene and reading it back: what comes back, layer by layer and
//! sprite by sprite.

use vstd::prelude::*;

use crate::layer::{add_sprites_model, insert_pos_asc, sort_sprites_spec, LayerModel};
use crate::fog::Fog;
use crate::group::Group;
use crate::save::{cap_of_code, law_codes_round_trip, mode_code, shape_of_code};
use crate::saved::{
    all_kept_ids, all_prepared, drawing_ids, group_members, is_preparation, is_retrieval, last_pos,
    layer_prepared, layer_sprites, lemma_all_prepared_len, lemma_last_pos_bound, placeable, placed_before,
    prepared_groups, prepared_members, preparable, retrieved_layer, retrieved_layers,
    retrieved_sprite, Drawing, Retrieved, RetrievedProject, SavedProject,
    SavedScene, SavedSprite, SavedVisual, SceneExtras,
};
use crate::project::Project;
use crate::scene::{normalise, SceneModel};
use crate::sprite::{Cap, Shape, Sprite, Visual};
use crate::stack::{height_at, lemma_kept_is_normal, lemma_renumber_with, lemma_sort_sorted, strictly_desc, with_heights};
use crate::Id;

verus! {

/// The saved sprites of the first `n` layers.
pub open spec fn prepared_prefix(layers: Seq<LayerModel>, dids: Seq<Id>, n: int) -> Seq<SavedSprite> {
    all_prepared(layers.take(n), dids)
}

/// The saved sprites of layer `i`, in their order on the layer.
pub open spec fn prepared_block(layers: Seq<LayerModel>, dids: Seq<Id>, i: int) -> Seq<SavedSprite> {
    layer_prepared(layers[i].sprites, i as u32, dids)
}

/// Every sprite saved from a layer names that layer, and a drawing among
/// the drawings.
proof fn lemma_layer_prepared_elems(sp: Seq<Sprite>, q: u32, dids: Seq<Id>)
    requires
        dids.len() <= u32::MAX,
    ensures
        forall|e: int|
            0 <= e < layer_prepared(sp, q, dids).len() ==> {
                &&& (#[trigger] layer_prepared(sp, q, dids)[e]).layer == q
                &&& layer_prepared(sp, q, dids)[e].visual matches SavedVisual::Drawing { drawing, .. }
                    ==> drawing < dids.len()
            },
    decreases sp.len(),
{
    if sp.len() > 0 {
        lemma_layer_prepared_elems(sp.drop_last(), q, dids);
        match sp.last().visual {
            crate::sprite::Visual::Drawing { drawing, .. } => {
                lemma_last_pos_bound(dids, drawing);
            },
            _ => {},
        }
    }
}

/// Every saved sprite names one of the layers and one of the drawings.
proof fn lemma_all_prepared_elems(layers: Seq<LayerModel>, dids: Seq<Id>)
    requires
        dids.len() <= u32::MAX,
        layers.len() <= u32::MAX,
    ensures
        forall|e: int|
            0 <= e < all_prepared(layers, dids).len() ==> {
                &&& (#[trigger] all_prepared(layers, dids)[e]).layer < layers.len()
                &&& all_prepared(layers, dids)[e].visual matches SavedVisual::Drawing { drawing, .. }
                    ==> drawing < dids.len()
            },
    decreases layers.len(),
{
    if layers.len() > 0 {
        let d = layers.drop_last();
        lemma_all_prepared_elems(d, dids);
        lemma_layer_prepared_elems(layers.last().sprites, (layers.len() - 1) as u32, dids);
        let a = all_prepared(d, dids);
        let b = layer_prepared(layers.last().sprites, (layers.len() - 1) as u32, dids);
        assert forall|e: int| 0 <= e < all_prepared(layers, dids).len() implies {
            &&& (#[trigger] all_prepared(layers, dids)[e]).layer < layers.len()
            &&& all_prepared(layers, dids)[e].visual matches SavedVisual::Drawing { drawing, .. }
                ==> drawing < dids.len()
        } by {
            if e < a.len() {
                assert(all_prepared(layers, dids)[e] == a[e]);
            } else {
                assert(all_prepared(layers, dids)[e] == b[e - a.len()]);
            }
        }
    }
}

/// The saved sprites of the first `n` layers begin the saved sprites of
/// all of them.
proof fn lemma_prefix(layers: Seq<LayerModel>, dids: Seq<Id>, n: int)
    requires
        0 <= n <= layers.len(),
    ensures
        prepared_prefix(layers, dids, n).len() <= all_prepared(layers, dids).len(),
        forall|t: int|
            0 <= t < prepared_prefix(layers, dids, n).len() ==> #[trigger] all_prepared(layers, dids)[t]
                == prepared_prefix(layers, dids, n)[t],
    decreases layers.len(),
{
    if n == layers.len() {
        assert(layers.take(n) =~= layers);
    } else {
        let d = layers.drop_last();
        assert(d.take(n) =~= layers.take(n));
        lemma_prefix(d, dids, n);
    }
}

/// The saved sprites of the first `n + 1` layers are those of the first
/// `n`, then those of layer `n`.
proof fn lemma_prefix_step(layers: Seq<LayerModel>, dids: Seq<Id>, n: int)
    requires
        0 <= n < layers.len(),
    ensures
        prepared_prefix(layers, dids, n + 1) == prepared_prefix(layers, dids, n) + prepared_block(
            layers,
            dids,
            n,
        ),
{
    let t = layers.take(n + 1);
    assert(t.len() == n + 1);
    assert(t.drop_last() =~= layers.take(n));
    assert(t.last() == layers[n]);
    assert(all_prepared(t, dids) == all_prepared(t.drop_last(), dids) + layer_prepared(
        t.last().sprites,
        (t.len() - 1) as u32,
        dids,
    ));
}

/// Past the saved sprites of the first `n` layers, every saved sprite names
/// layer `n` or a later one.
proof fn lemma_suffix_layers(layers: Seq<LayerModel>, dids: Seq<Id>, n: int)
    requires
        0 <= n <= layers.len(),
        layers.len() <= u32::MAX,
        dids.len() <= u32::MAX,
    ensures
        forall|t: int|
            prepared_prefix(layers, dids, n).len() <= t < all_prepared(layers, dids).len()
                ==> #[trigger] all_prepared(layers, dids)[t].layer >= n,
    decreases layers.len(),
{
    if n < layers.len() {
        let d = layers.drop_last();
        assert(d.take(n) =~= layers.take(n));
        lemma_suffix_layers(d, dids, n);
        let a = all_prepared(d, dids);
        let b = layer_prepared(layers.last().sprites, (layers.len() - 1) as u32, dids);
        lemma_layer_prepared_elems(layers.last().sprites, (layers.len() - 1) as u32, dids);
        assert forall|t: int|
            prepared_prefix(layers, dids, n).len() <= t < all_prepared(layers, dids).len()
                implies #[trigger] all_prepared(layers, dids)[t].layer >= n by {
            if t < a.len() {
                assert(all_prepared(layers, dids)[t] == a[t]);
            } else {
                assert(all_prepared(layers, dids)[t] == b[t - a.len()]);
            }
        }
    } else {
        assert(layers.take(n) =~= layers);
    }
}

/// A saved scene whose sprites are those saved from `layers`, with
/// `dids` the ids of its drawings.
pub open spec fn saved_from(s: &SavedScene, layers: Seq<LayerModel>, dids: Seq<Id>) -> bool {
    &&& s.sprites@ == all_prepared(layers, dids)
    &&& s.layers@.len() == layers.len()
    &&& s.drawings@.len() == dids.len()
    &&& dids.len() <= u32::MAX
    &&& layers.len() <= u32::MAX
}

/// Every sprite of such a save can be placed, so the `j`-th gets the `j`-th
/// id after the layers and drawings.
proof fn lemma_all_placeable(s: &SavedScene, layers: Seq<LayerModel>, dids: Seq<Id>, j: int)
    requires
        saved_from(s, layers, dids),
        0 <= j <= s.sprites@.len(),
    ensures
        forall|t: int| 0 <= t < s.sprites@.len() ==> #[trigger] placeable(s, t),
        placed_before(s, j) == j,
    decreases j,
{
    lemma_all_prepared_elems(layers, dids);
    assert forall|t: int| 0 <= t < s.sprites@.len() implies #[trigger] placeable(s, t) by {
        assert(s.sprites@[t] == all_prepared(layers, dids)[t]);
    }
    if j > 0 {
        lemma_all_placeable(s, layers, dids, j - 1);
    }
}

proof fn lemma_before_block(s: &SavedScene, layers: Seq<LayerModel>, dids: Seq<Id>, i: int, j: int)
    requires
        saved_from(s, layers, dids),
        0 <= i < layers.len(),
        0 <= j <= prepared_prefix(layers, dids, i).len(),
    ensures
        layer_sprites(s, i, j) == Seq::<Sprite>::empty(),
    decreases j,
{
    if j > 0 {
        lemma_before_block(s, layers, dids, i, j - 1);
        lemma_prefix(layers, dids, i);
        lemma_all_prepared_elems(layers.take(i), dids);
        assert(s.sprites@[j - 1] == prepared_prefix(layers, dids, i)[j - 1]);
    }
}

proof fn lemma_in_block(s: &SavedScene, layers: Seq<LayerModel>, dids: Seq<Id>, i: int, j: int)
    requires
        saved_from(s, layers, dids),
        0 <= i < layers.len(),
        prepared_prefix(layers, dids, i).len() <= j <= prepared_prefix(layers, dids, i).len()
            + prepared_block(layers, dids, i).len(),
    ensures
        layer_sprites(s, i, j) == Seq::new(
            (j - prepared_prefix(layers, dids, i).len()) as nat,
            |m: int| retrieved_sprite(s, prepared_prefix(layers, dids, i).len() + m),
        ),
    decreases j,
{
    let a = prepared_prefix(layers, dids, i).len() as int;
    if j == a {
        lemma_before_block(s, layers, dids, i, j);
        assert(layer_sprites(s, i, j) =~= Seq::new(
            0,
            |m: int| retrieved_sprite(s, a + m),
        ));
    } else {
        lemma_in_block(s, layers, dids, i, j - 1);
        lemma_prefix_step(layers, dids, i);
        lemma_prefix(layers, dids, i + 1);
        lemma_all_placeable(s, layers, dids, 0);
        lemma_layer_prepared_elems(layers[i].sprites, i as u32, dids);
        let b = prepared_block(layers, dids, i);
        assert(s.sprites@[j - 1] == prepared_prefix(layers, dids, i + 1)[j - 1]);
        assert(prepared_prefix(layers, dids, i + 1)[j - 1] == b[j - 1 - a]);
        assert(placeable(s, j - 1));
        assert(layer_sprites(s, i, j) =~= Seq::new(
            (j - a) as nat,
            |m: int| retrieved_sprite(s, a + m),
        ));
    }
}

proof fn lemma_after_block(s: &SavedScene, layers: Seq<LayerModel>, dids: Seq<Id>, i: int, j: int)
    requires
        saved_from(s, layers, dids),
        0 <= i < layers.len(),
        prepared_prefix(layers, dids, i).len() + prepared_block(layers, dids, i).len() <= j
            <= s.sprites@.len(),
    ensures
        layer_sprites(s, i, j) == Seq::new(
            prepared_block(layers, dids, i).len(),
            |m: int| retrieved_sprite(s, prepared_prefix(layers, dids, i).len() + m),
        ),
    decreases j,
{
    let a = prepared_prefix(layers, dids, i).len() as int;
    let b = prepared_block(layers, dids, i).len() as int;
    lemma_prefix_step(layers, dids, i);
    if j == a + b {
        lemma_in_block(s, layers, dids, i, j);
    } else {
        lemma_after_block(s, layers, dids, i, j - 1);
        lemma_suffix_layers(layers, dids, i + 1);
        assert(s.sprites@[j - 1].layer >= i + 1);
    }
}

/// Reading back gives layer `i` exactly the sprites saved from it, in
/// order.
pub proof fn lemma_layer_block(s: &SavedScene, layers: Seq<LayerModel>, dids: Seq<Id>, i: int)
    requires
        saved_from(s, layers, dids),
        0 <= i < layers.len(),
    ensures
        layer_sprites(s, i, s.sprites@.len() as int) == Seq::new(
            prepared_block(layers, dids, i).len(),
            |m: int| retrieved_sprite(s, prepared_prefix(layers, dids, i).len() + m),
        ),
        prepared_prefix(layers, dids, i).len() + prepared_block(layers, dids, i).len()
            <= s.sprites@.len(),
{
    lemma_prefix_step(layers, dids, i);
    lemma_prefix(layers, dids, i + 1);
    lemma_after_block(s, layers, dids, i, s.sprites@.len() as int);
}

/// The sprites rise in height, lowest first.
pub open spec fn sprites_ascending(sp: Seq<Sprite>) -> bool {
    forall|a: int, b: int| 0 <= a < b < sp.len() ==> sp[a].z <= sp[b].z
}

/// The saved sprites rise in height, lowest first.
pub open spec fn saved_ascending(sp: Seq<SavedSprite>) -> bool {
    forall|a: int, b: int| 0 <= a < b < sp.len() ==> sp[a].z <= sp[b].z
}

proof fn lemma_insert_pos_end(d: Seq<Sprite>, key: i32)
    requires
        forall|k: int| 0 <= k < d.len() ==> d[k].z <= key,
    ensures
        insert_pos_asc(d, key) == d.len(),
    decreases d.len(),
{
    if d.len() > 0 {
        let r = d.drop_first();
        assert forall|k: int| 0 <= k < r.len() implies r[k].z <= key by {
            assert(r[k] == d[k + 1]);
        }
        lemma_insert_pos_end(r, key);
    }
}

/// Sorting sprites that already rise in height changes nothing.
proof fn lemma_sort_sprites_sorted(t: Seq<Sprite>)
    requires
        sprites_ascending(t),
    ensures
        sort_sprites_spec(t) == t,
    decreases t.len(),
{
    if t.len() > 0 {
        let d = t.drop_last();
        assert(sprites_ascending(d)) by {
            assert forall|a: int, b: int| 0 <= a < b < d.len() implies d[a].z <= d[b].z by {
                assert(d[a] == t[a] && d[b] == t[b]);
            }
        }
        lemma_sort_sprites_sorted(d);
        assert forall|k: int| 0 <= k < d.len() implies d[k].z <= t.last().z by {
            assert(d[k] == t[k]);
        }
        lemma_insert_pos_end(d, t.last().z);
        assert(d.insert(d.len() as int, t.last()) =~= t);
    }
}

/// Adding sprites that rise in height, one by one, to a layer with none
/// leaves them in their order; the layer's other fields but its height
/// bounds stay.
proof fn lemma_add_sorted(l: LayerModel, q: Seq<Sprite>)
    requires
        l.sprites.len() == 0,
        sprites_ascending(q),
    ensures
        add_sprites_model(l, q).sprites == q,
        add_sprites_model(l, q).id == l.id,
        add_sprites_model(l, q).title == l.title,
        add_sprites_model(l, q).z == l.z,
        add_sprites_model(l, q).visible == l.visible,
        add_sprites_model(l, q).locked == l.locked,
    decreases q.len(),
{
    if q.len() == 0 {
        assert(l.sprites =~= q);
    } else {
        let d = q.drop_last();
        assert(sprites_ascending(d)) by {
            assert forall|a: int, b: int| 0 <= a < b < d.len() implies d[a].z <= d[b].z by {
                assert(d[a] == q[a] && d[b] == q[b]);
            }
        }
        lemma_add_sorted(l, d);
        assert(d.push(q.last()) =~= q);
        lemma_sort_sprites_sorted(q);
    }
}

/// Saving a layer's sprites that rise in height keeps them rising, each no
/// higher than the layer's last sprite.
proof fn lemma_prepared_ascending(sp: Seq<Sprite>, q: u32, dids: Seq<Id>)
    requires
        sprites_ascending(sp),
    ensures
        saved_ascending(layer_prepared(sp, q, dids)),
        sp.len() > 0 ==> forall|e: int|
            0 <= e < layer_prepared(sp, q, dids).len() ==> #[trigger] layer_prepared(sp, q, dids)[e].z
                <= sp.last().z,
    decreases sp.len(),
{
    if sp.len() > 0 {
        let d = sp.drop_last();
        assert(sprites_ascending(d)) by {
            assert forall|a: int, b: int| 0 <= a < b < d.len() implies d[a].z <= d[b].z by {
                assert(d[a] == sp[a] && d[b] == sp[b]);
            }
        }
        lemma_prepared_ascending(d, q, dids);
        if d.len() > 0 {
            assert(d.last() == sp[sp.len() - 2]);
        }
    }
}

/// A saved visual read back, its drawing named by the id the drawing gets:
/// the one after the layers and the drawings before it.
pub open spec fn back_visual(v: SavedVisual, n_layers: int, drawings: Seq<Drawing>) -> Visual {
    match v {
        SavedVisual::Texture { shape, media } => Visual::Texture {
            shape: shape_of_code(shape),
            id: media,
        },
        SavedVisual::Shape { shape, stroke, solid, colour } => Visual::Shape {
            shape: shape_of_code(shape),
            stroke,
            solid,
            colour,
        },
        SavedVisual::Drawing { drawing, colour, stroke, cap_start, cap_end } => Visual::Drawing {
            drawing: (n_layers + drawing + 1) as Id,
            mode: drawings[drawing as int].mode,
            colour,
            stroke,
            cap_start: cap_of_code(cap_start),
            cap_end: cap_of_code(cap_end),
        },
    }
}

/// A saved sprite read back under the given id.
pub open spec fn back_sprite(b: SavedSprite, id: int, n_layers: int, drawings: Seq<Drawing>) -> Sprite {
    Sprite { id: id as Id, rect: b.rect, z: b.z, visual: back_visual(b.visual, n_layers, drawings) }
}

/// The sprites layer `i` gets back: those saved from it, in order, with
/// the ids after the layers, the drawings and the sprites saved before.
pub open spec fn back_layer_sprites(layers: Seq<LayerModel>, drawings: Seq<Drawing>, i: int) -> Seq<
    Sprite,
> {
    let dids = drawing_ids(drawings);
    let a = prepared_prefix(layers, dids, i).len();
    Seq::new(
        prepared_block(layers, dids, i).len(),
        |m: int|
            back_sprite(
                prepared_block(layers, dids, i)[m],
                layers.len() + drawings.len() + a + m + 1,
                layers.len() as int,
                drawings,
            ),
    )
}

/// The positions a group is saved with, read back as sprite ids.
pub open spec fn back_members(idxs: Seq<u32>, first: nat) -> Seq<Id> {
    idxs.map_values(|p: u32| (first + p) as Id)
}

proof fn lemma_members_bound(members: Seq<Id>, kept: Seq<Id>)
    requires
        kept.len() <= u32::MAX,
    ensures
        forall|e: int|
            0 <= e < prepared_members(members, kept).len() ==> #[trigger] prepared_members(
                members,
                kept,
            )[e] < kept.len(),
    decreases members.len(),
{
    if members.len() > 0 {
        let rest = prepared_members(members.drop_last(), kept);
        lemma_members_bound(members.drop_last(), kept);
        lemma_last_pos_bound(kept, members.last());
        assert forall|e: int| 0 <= e < prepared_members(members, kept).len() implies #[trigger]
            prepared_members(members, kept)[e] < kept.len() by {
            if e < rest.len() {
                assert(prepared_members(members, kept)[e] == rest[e]);
            }
        }
    }
}

proof fn lemma_groups_bound(groups: Seq<Seq<Id>>, kept: Seq<Id>)
    requires
        kept.len() <= u32::MAX,
    ensures
        forall|g: int, e: int|
            0 <= g < prepared_groups(groups, kept).len() && 0 <= e < prepared_groups(
                groups,
                kept,
            )[g].len() ==> #[trigger] prepared_groups(groups, kept)[g][e] < kept.len(),
    decreases groups.len(),
{
    if groups.len() > 0 {
        let rest = prepared_groups(groups.drop_last(), kept);
        lemma_groups_bound(groups.drop_last(), kept);
        lemma_members_bound(groups.last(), kept);
        assert forall|g: int, e: int|
            0 <= g < prepared_groups(groups, kept).len() && 0 <= e < prepared_groups(
                groups,
                kept,
            )[g].len() implies #[trigger] prepared_groups(groups, kept)[g][e] < kept.len() by {
            if g < rest.len() {
                assert(prepared_groups(groups, kept)[g] == rest[g]);
            }
        }
    }
}

proof fn lemma_group_members_all(s: &SavedScene, layers: Seq<LayerModel>, dids: Seq<Id>, idxs: Seq<u32>)
    requires
        saved_from(s, layers, dids),
        forall|e: int| 0 <= e < idxs.len() ==> #[trigger] idxs[e] < s.sprites@.len(),
    ensures
        group_members(s, idxs) == back_members(idxs, s.layers@.len() + s.drawings@.len() + 1),
    decreases idxs.len(),
{
    let first = s.layers@.len() + s.drawings@.len() + 1;
    if idxs.len() > 0 {
        let d = idxs.drop_last();
        lemma_group_members_all(s, layers, dids, d);
        lemma_all_placeable(s, layers, dids, idxs.last() as int);
        assert(idxs.last() < s.sprites@.len());
        assert(back_members(idxs, first) =~= back_members(d, first).push((first + idxs.last()) as Id));
    } else {
        assert(back_members(idxs, first) =~= Seq::<Id>::empty());
    }
}

/// Layer `i` of a scene saved and read back: the saved layer's fields over
/// the sprites saved from it.
proof fn lemma_back_layer(
    scene: SceneModel,
    drawings: Seq<Drawing>,
    s: &SavedScene,
    i: int,
)
    requires
        saved_from(s, scene.layers, drawing_ids(drawings)),
        s.drawings@.len() == drawings.len(),
        forall|k: int|
            0 <= k < drawings.len() ==> (#[trigger] s.drawings@[k]).mode == mode_code(drawings[k].mode),
        0 <= i < scene.layers.len(),
        sprites_ascending(scene.layers[i].sprites),
    ensures
        retrieved_layer(s, i).sprites == back_layer_sprites(scene.layers, drawings, i),
        retrieved_layer(s, i).id == i + 1,
        retrieved_layer(s, i).title == s.layers@[i].title@,
        retrieved_layer(s, i).z == s.layers@[i].z,
        retrieved_layer(s, i).visible == s.layers@[i].visible,
        retrieved_layer(s, i).locked == s.layers@[i].locked,
{
    let layers = scene.layers;
    let dids = drawing_ids(drawings);
    let a = prepared_prefix(layers, dids, i).len() as int;
    let b = prepared_block(layers, dids, i);
    lemma_layer_block(s, layers, dids, i);
    lemma_prefix_step(layers, dids, i);
    lemma_prefix(layers, dids, i + 1);
    let q = layer_sprites(s, i, s.sprites@.len() as int);
    assert forall|m: int| 0 <= m < b.len() implies #[trigger] q[m] == back_layer_sprites(
        layers,
        drawings,
        i,
    )[m] by {
        assert(s.sprites@[a + m] == prepared_prefix(layers, dids, i + 1)[a + m]);
        assert(prepared_prefix(layers, dids, i + 1)[a + m] == b[m]);
        lemma_all_placeable(s, layers, dids, a + m);
        lemma_all_prepared_elems(layers, dids);
        assert(all_prepared(layers, dids)[a + m] == b[m]);
        match b[m].visual {
            SavedVisual::Drawing { drawing, .. } => {
                law_codes_round_trip(drawings[drawing as int].mode, Shape::Rectangle, Cap::Plain);
            },
            _ => {},
        }
    }
    assert(q =~= back_layer_sprites(layers, drawings, i));
    lemma_prepared_ascending(layers[i].sprites, i as u32, dids);
    assert(sprites_ascending(q)) by {
        assert forall|x: int, y: int| 0 <= x < y < q.len() implies q[x].z <= q[y].z by {
            assert(s.sprites@[a + x] == prepared_prefix(layers, dids, i + 1)[a + x]);
            assert(s.sprites@[a + y] == prepared_prefix(layers, dids, i + 1)[a + y]);
        }
    }
    let l = s.layers@[i];
    lemma_add_sorted(
        LayerModel {
            visible: l.visible,
            locked: l.locked,
            ..crate::layer::new_layer_model((i + 1) as Id, l.title@, l.z)
        },
        q,
    );
}

/// What a scene saved with its fog, drawings and groups gives when read
/// back: its UUID and title; its layers in their order, each with its
/// title, height, visibility and lock, numbered from 1, and with the
/// sprites saved from it in their order, with their places, heights and
/// looks, numbered after the layers and drawings (a sprite whose drawing is
/// missing is not saved); its fog; its drawings in order with their modes
/// and points; and its groups, those left with a saved sprite, naming the
/// same sprites by their new ids.
pub open spec fn comes_back(
    scene: SceneModel,
    fog: Fog,
    drawings: Seq<Drawing>,
    groups: Seq<Group>,
    project: Option<Id>,
    back: Retrieved,
) -> bool {
    &&& back.scene@.uuid == scene.uuid
    &&& back.scene@.title == scene.title
    &&& back.scene@.project == project
    &&& back.fog.words() == fog.words()
    &&& back.fog.active == fog.active && back.fog.w == fog.w && back.fog.h == fog.h
    &&& back.scene@.layers.len() == scene.layers.len()
    &&& forall|i: int|
        0 <= i < scene.layers.len() ==> {
            &&& (#[trigger] back.scene@.layers[i]).id == i + 1
            &&& back.scene@.layers[i].title == scene.layers[i].title
            &&& back.scene@.layers[i].z == scene.layers[i].z
            &&& back.scene@.layers[i].visible == scene.layers[i].visible
            &&& back.scene@.layers[i].locked == scene.layers[i].locked
            &&& back.scene@.layers[i].sprites == back_layer_sprites(scene.layers, drawings, i)
        }
    &&& back.drawings@.len() == drawings.len()
    &&& forall|k: int|
        0 <= k < drawings.len() ==> {
            &&& (#[trigger] back.drawings@[k]).mode == drawings[k].mode
            &&& back.drawings@[k].points@ == drawings[k].points@
            &&& back.drawings@[k].id == scene.layers.len() + k + 1
        }
    &&& back.groups@.len() == prepared_groups(
        groups.map_values(|g: Group| g.sprites@),
        all_kept_ids(scene.layers, drawing_ids(drawings)),
    ).len()
    &&& forall|g: int|
        0 <= g < back.groups@.len() ==> (#[trigger] back.groups@[g]).sprites@ == back_members(
            prepared_groups(
                groups.map_values(|g: Group| g.sprites@),
                all_kept_ids(scene.layers, drawing_ids(drawings)),
            )[g],
            scene.layers.len() + drawings.len() + 1,
        )
}

/// Saving a scene, with its fog, drawings and groups, and reading it back
/// gives the scene back, as `comes_back` says. This holds of a scene
/// whose layers are kept sorted and renumbered, as a scene keeps them, and
/// whose layers keep their sprites rising in height.
pub proof fn law_save_then_retrieve(
    scene: SceneModel,
    fog: Fog,
    drawings: Seq<Drawing>,
    groups: Seq<Group>,
    saved: SavedScene,
    project: Option<Id>,
    back: Retrieved,
)
    requires
        is_preparation(scene, fog, drawings, groups, &saved),
        preparable(scene, drawings),
        is_retrieval(&saved, project, &back),
        scene.layers.len() <= i32::MAX,
        scene.layers == normalise(scene.layers),
        forall|i: int| 0 <= i < scene.layers.len() ==> sprites_ascending(#[trigger] scene.layers[i].sprites),
    ensures
        comes_back(scene, fog, drawings, groups, project, back),
{
    let layers = scene.layers;
    let dids = drawing_ids(drawings);
    let t = retrieved_layers(&saved);
    assert(saved_from(&saved, layers, dids));
    // Each layer read back.
    assert forall|i: int| 0 <= i < layers.len() implies {
        &&& (#[trigger] t[i]).id == i + 1
        &&& t[i].title == layers[i].title
        &&& t[i].z == layers[i].z
        &&& t[i].visible == layers[i].visible
        &&& t[i].locked == layers[i].locked
        &&& t[i].sprites == back_layer_sprites(layers, drawings, i)
    } by {
        lemma_back_layer(scene, drawings, &saved, i);
    }
    // The layers are already sorted and renumbered.
    let p = lemma_kept_is_normal(layers);
    assert forall|k: int| 0 <= k < t.len() implies #[trigger] t[k].z == height_at(p, k) by {
        assert(layers[k] == with_heights(layers, p)[k]);
    }
    assert(strictly_desc(t));
    lemma_sort_sorted(t);
    lemma_renumber_with(t, p);
    assert(with_heights(t, p) =~= t);
    assert(normalise(t) == t);
    // The groups.
    let kept = all_kept_ids(layers, dids);
    let pg = prepared_groups(groups.map_values(|g: Group| g.sprites@), kept);
    lemma_all_prepared_len(layers, dids);
    lemma_groups_bound(groups.map_values(|g: Group| g.sprites@), kept);
    assert forall|g: int| 0 <= g < back.groups@.len() implies (#[trigger] back.groups@[g]).sprites@
        == back_members(pg[g], layers.len() + drawings.len() + 1) by {
        assert(saved.groups@.map_values(|x: crate::saved::SavedGroup| x.sprites@)[g] == pg[g]);
        assert(saved.groups@[g].sprites@ == pg[g]);
        lemma_group_members_all(&saved, layers, dids, pg[g]);
    }
    // The drawings.
    assert forall|k: int| 0 <= k < drawings.len() implies (#[trigger] back.drawings@[k]).mode
        == drawings[k].mode by {
        law_codes_round_trip(drawings[k].mode, Shape::Rectangle, Cap::Plain);
    }
}

/// A scene that can be saved and then read back as `comes_back` says:
/// its layers kept sorted and renumbered, as a scene keeps them, its
/// layers' sprites rising in height, and its counts within the limits.
pub open spec fn round_trips(scene: SceneModel, drawings: Seq<Drawing>) -> bool {
    &&& preparable(scene, drawings)
    &&& scene.layers.len() <= i32::MAX
    &&& scene.layers == normalise(scene.layers)
    &&& forall|i: int|
        0 <= i < scene.layers.len() ==> sprites_ascending(#[trigger] scene.layers[i].sprites)
}

/// Saving a project with `prepare_project` and reading it back with
/// `retrieve` gives its UUID, its title, and each of its scenes as
/// `comes_back` says, none of them tied to a project id.
pub proof fn law_project_round_trip(
    project: Project,
    extras: Seq<SceneExtras>,
    saved: SavedProject,
    back: RetrievedProject,
)
    requires
        extras.len() == project.scenes@.len(),
        forall|i: int|
            0 <= i < project.scenes@.len() ==> round_trips(
                #[trigger] project.scenes@[i]@,
                extras[i].drawings@,
            ),
        saved.uuid == project.uuid,
        saved.title@ == project.title@,
        saved.scenes@.len() == project.scenes@.len(),
        forall|i: int|
            0 <= i < project.scenes@.len() ==> is_preparation(
                project.scenes@[i]@,
                extras[i].fog,
                extras[i].drawings@,
                extras[i].groups@,
                &#[trigger] saved.scenes@[i],
            ),
        back.uuid == saved.uuid,
        back.title@ == saved.title@,
        back.scenes@.len() == saved.scenes@.len(),
        forall|i: int|
            0 <= i < saved.scenes@.len() ==> is_retrieval(
                &saved.scenes@[i],
                None,
                &#[trigger] back.scenes@[i],
            ),
    ensures
        back.uuid == project.uuid,
        back.title@ == project.title@,
        back.scenes@.len() == project.scenes@.len(),
        forall|i: int|
            0 <= i < project.scenes@.len() ==> comes_back(
                project.scenes@[i]@,
                extras[i].fog,
                extras[i].drawings@,
                extras[i].groups@,
                None,
                #[trigger] back.scenes@[i],
            ),
{
    assert forall|i: int| 0 <= i < project.scenes@.len() implies comes_back(
        project.scenes@[i]@,
        extras[i].fog,
        extras[i].drawings@,
        extras[i].groups@,
        None,
        #[trigger] back.scenes@[i],
    ) by {
        assert(round_trips(project.scenes@[i]@, extras[i].drawings@));
        assert(is_preparation(
            project.scenes@[i]@,
            extras[i].fog,
            extras[i].drawings@,
            extras[i].groups@,
            &saved.scenes@[i],
        ));
        assert(is_retrieval(&saved.scenes@[i], None, &back.scenes@[i]));
        law_save_then_retrieve(
            project.scenes@[i]@,
            extras[i].fog,
            extras[i].drawings@,
            extras[i].groups@,
            saved.scenes@[i],
            None,
            back.scenes@[i],
        );
    }
}

} // verus!
