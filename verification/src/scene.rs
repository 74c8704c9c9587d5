//! A scene: a stack of layers above and below the grid, and the events that
//! change it, applied and unwound.

use vstd::prelude::*;

use crate::comms::SceneEvent;
use crate::layer::{
    add_sprite_model, lemma_sprite_pos_iff_with, lemma_without_absent, new_layer_model,
    remove_sprite_model, restore_sprite_model, sprite_pos, sprites_with, sprites_without, Layer,
    LayerModel,
};
use crate::sprite::{Sprite, Visual};
use crate::Id;

verus! {

/// The layers of a scene, highest first, with the layers removed from it,
/// its title and its size in tiles.
pub struct Scene {
    /// Whether this copy is the server's, whose word on events is final.
    pub canon: bool,
    /// The id the next new layer or sprite will get.
    pub next_id: Id,
    pub id: Option<Id>,
    /// The scene's UUID, as a 128-bit number.
    pub uuid: u128,
    pub layers: Vec<Layer>,
    pub removed_layers: Vec<Layer>,
    pub title: String,
    pub project: Option<Id>,
    pub w: u32,
    pub h: u32,
}

pub struct SceneModel {
    pub canon: bool,
    pub next_id: Id,
    pub id: Option<Id>,
    pub uuid: u128,
    pub layers: Seq<LayerModel>,
    pub removed_layers: Seq<LayerModel>,
    pub title: Seq<char>,
    pub project: Option<Id>,
    pub w: u32,
    pub h: u32,
}

/// The models of a sequence of layers.
pub open spec fn models(v: Seq<Layer>) -> Seq<LayerModel> {
    v.map_values(|l: Layer| l@)
}

impl View for Scene {
    type V = SceneModel;

    open spec fn view(&self) -> SceneModel {
        SceneModel {
            canon: self.canon,
            next_id: self.next_id,
            id: self.id,
            uuid: self.uuid,
            layers: models(self.layers@),
            removed_layers: models(self.removed_layers@),
            title: self.title@,
            project: self.project,
            w: self.w,
            h: self.h,
        }
    }
}

/// The first position in `s` of a layer with the given id.
pub open spec fn layer_pos(s: Seq<LayerModel>, id: Id) -> Option<int>
    decreases s.len(),
{
    if s.len() == 0 {
        None
    } else {
        match layer_pos(s.drop_last(), id) {
            Some(i) => Some(i),
            None => if s.last().id == id {
                Some(s.len() - 1)
            } else {
                None
            },
        }
    }
}

pub open spec fn layers_with(s: Seq<LayerModel>, id: Id) -> Seq<LayerModel> {
    s.filter(|l: LayerModel| l.id == id)
}

pub open spec fn layers_without(s: Seq<LayerModel>, id: Id) -> Seq<LayerModel> {
    s.filter(|l: LayerModel| l.id != id)
}

/// The first position in `s` at which the height there is lower than `key`.
pub open spec fn insert_pos_desc(s: Seq<LayerModel>, key: i32) -> int
    decreases s.len(),
{
    if s.len() == 0 {
        0
    } else if s[0].z < key {
        0
    } else {
        1 + insert_pos_desc(s.drop_first(), key)
    }
}

/// `s` sorted by height, highest first, layers of equal height keeping
/// their order: each layer in turn goes after every layer at its height or
/// higher.
pub open spec fn sort_layers_spec(s: Seq<LayerModel>) -> Seq<LayerModel>
    decreases s.len(),
{
    if s.len() == 0 {
        s
    } else {
        let rest = sort_layers_spec(s.drop_last());
        rest.insert(insert_pos_desc(rest, s.last().z), s.last())
    }
}

/// The position of the first layer below the grid.
pub open spec fn first_negative(s: Seq<LayerModel>) -> Option<int>
    decreases s.len(),
{
    if s.len() == 0 {
        None
    } else {
        match first_negative(s.drop_last()) {
            Some(i) => Some(i),
            None => if s.last().z < 0 {
                Some(s.len() - 1)
            } else {
                None
            },
        }
    }
}

/// The height that renumbering gives the layer at position `k`: the layers
/// above the grid count down to 1, those below it from -1 downwards.
pub open spec fn normal_z(s: Seq<LayerModel>, k: int) -> int {
    match first_negative(s) {
        Some(i) => if k < i {
            i - k
        } else {
            -(k - i + 1)
        },
        None => s.len() - k,
    }
}

/// The layers with the smallest heights that keep their order and their
/// side of the grid.
pub open spec fn renumber(s: Seq<LayerModel>) -> Seq<LayerModel> {
    Seq::new(s.len(), |k: int| LayerModel { z: normal_z(s, k) as i32, ..s[k] })
}

/// Sorted highest first, then renumbered.
pub open spec fn normalise(s: Seq<LayerModel>) -> Seq<LayerModel> {
    renumber(sort_layers_spec(s))
}

proof fn lemma_insert_pos_desc_bound(s: Seq<LayerModel>, key: i32)
    ensures
        0 <= insert_pos_desc(s, key) <= s.len(),
    decreases s.len(),
{
    if s.len() > 0 && s[0].z >= key {
        lemma_insert_pos_desc_bound(s.drop_first(), key);
    }
}

pub proof fn lemma_sort_layers_len(s: Seq<LayerModel>)
    ensures
        sort_layers_spec(s).len() == s.len(),
    decreases s.len(),
{
    if s.len() > 0 {
        lemma_sort_layers_len(s.drop_last());
        lemma_insert_pos_desc_bound(sort_layers_spec(s.drop_last()), s.last().z);
    }
}

pub proof fn lemma_first_negative(s: Seq<LayerModel>)
    ensures
        first_negative(s) matches Some(i) ==> 0 <= i < s.len() && s[i].z < 0 && forall|j: int|
            0 <= j < i ==> s[j].z >= 0,
        first_negative(s) is None ==> forall|j: int| 0 <= j < s.len() ==> s[j].z >= 0,
    decreases s.len(),
{
    if s.len() > 0 {
        lemma_first_negative(s.drop_last());
        assert forall|j: int| 0 <= j < s.len() - 1 implies s.drop_last()[j] == s[j] by {}
    }
}

/// Position of the first layer in `v` lower than `key`.
fn find_insert_pos_desc(v: &Vec<Layer>, key: i32) -> (p: usize)
    ensures
        p == insert_pos_desc(models(v@), key),
{
    let ghost m = models(v@);
    let mut i: usize = 0;
    assert(m.skip(0) =~= m);
    while i < v.len()
        invariant
            m == models(v@),
            0 <= i <= v@.len(),
            insert_pos_desc(m, key) == i + insert_pos_desc(m.skip(i as int), key),
        decreases v@.len() - i,
    {
        if v[i].z < key {
            return i;
        }
        proof {
            assert(m.skip(i as int).drop_first() =~= m.skip(i + 1));
        }
        i += 1;
    }
    i
}

/// Position of the first layer in `v` below the grid.
fn find_first_negative(v: &Vec<Layer>) -> (p: Option<usize>)
    ensures
        match first_negative(models(v@)) {
            Some(i) => p matches Some(j) && j as int == i,
            None => p is None,
        },
{
    let ghost m = models(v@);
    let mut i: usize = 0;
    while i < v.len()
        invariant
            m == models(v@),
            0 <= i <= v@.len(),
            first_negative(m.take(i as int)) is None,
        decreases v@.len() - i,
    {
        proof {
            assert(m.take(i + 1).drop_last() =~= m.take(i as int));
        }
        if v[i].z < 0 {
            proof {
                lemma_first_negative_prefix(m, i + 1);
            }
            return Some(i);
        }
        i += 1;
    }
    assert(m.take(i as int) =~= m);
    None
}

proof fn lemma_first_negative_prefix(s: Seq<LayerModel>, k: int)
    requires
        0 < k <= s.len(),
        first_negative(s.take(k)) is Some,
    ensures
        first_negative(s) == first_negative(s.take(k)),
    decreases s.len() - k,
{
    if k < s.len() {
        assert(s.take(k + 1).drop_last() =~= s.take(k));
        lemma_first_negative_prefix(s, k + 1);
    } else {
        assert(s.take(k) =~= s);
    }
}

/// Sorts layers highest first and renumbers their heights.
pub fn normalise_layers(layers: &mut Vec<Layer>)
    requires
        old(layers)@.len() <= i32::MAX,
    ensures
        models(final(layers)@) == normalise(models(old(layers)@)),
{
    let ghost orig = models(layers@);
    let mut src: Vec<Layer> = Vec::new();
    std::mem::swap(&mut src, layers);
    let ghost n = src@.len();
    let mut out: Vec<Layer> = Vec::new();
    while src.len() > 0
        invariant
            n == orig.len(),
            out@.len() + src@.len() == n,
            models(out@) == sort_layers_spec(orig.take(out@.len() as int)),
            models(src@) == orig.skip(out@.len() as int),
        decreases src@.len(),
    {
        let ghost k = out@.len() as int;
        let ghost before = src@;
        let l = src.remove(0);
        proof {
            assert forall|j: int| 0 <= j < src@.len() implies #[trigger] src@[j]@ == orig[k + 1 + j] by {
                assert(src@[j] == before[j + 1]);
                assert(models(before)[j + 1] == orig.skip(k)[j + 1]);
            }
            assert(models(src@) =~= orig.skip(k + 1));
            assert(l@ == orig[k]) by {
                assert(models(before)[0] == orig.skip(k)[0]);
            }
            assert(orig.take(k + 1).drop_last() =~= orig.take(k));
            lemma_sort_layers_len(orig.take(k));
        }
        let p = find_insert_pos_desc(&out, l.z);
        proof {
            lemma_insert_pos_desc_bound(models(out@), l.z);
        }
        out.insert(p, l);
        proof {
            assert(models(out@) =~= models(old_out(out@, p as int)).insert(p as int, l@)) by {
                lemma_models_insert(out@, p as int);
            }
        }
    }
    proof {
        assert(orig.take(n as int) =~= orig);
    }
    let ghost sorted = models(out@);
    let first = find_first_negative(&out);
    let total = out.len();
    let mut result: Vec<Layer> = Vec::new();
    while out.len() > 0
        invariant
            result@.len() + out@.len() == total,
            total == sorted.len(),
            total <= i32::MAX,
            match first_negative(sorted) {
                Some(i) => first matches Some(j) && j as int == i,
                None => first is None,
            },
            models(out@) == sorted.skip(result@.len() as int),
            models(result@) == renumber(sorted).take(result@.len() as int),
        decreases out@.len(),
    {
        let k = result.len();
        let ghost before = out@;
        let mut l = out.remove(0);
        proof {
            assert forall|j: int| 0 <= j < out@.len() implies #[trigger] out@[j]@ == sorted[k + 1 + j] by {
                assert(out@[j] == before[j + 1]);
                assert(models(before)[j + 1] == sorted.skip(k as int)[j + 1]);
            }
            assert(l@ == sorted[k as int]) by {
                assert(models(before)[0] == sorted.skip(k as int)[0]);
            }
            assert(models(out@) =~= sorted.skip(k + 1));
            lemma_first_negative(sorted);
        }
        l.z = match first {
            Some(i) => if k < i {
                (i - k) as i32
            } else {
                -((k - i + 1) as i32)
            },
            None => (total - k) as i32,
        };
        result.push(l);
        proof {
            assert(models(result@) =~= renumber(sorted).take(k + 1));
        }
    }
    proof {
        assert(renumber(sorted).take(total as int) =~= renumber(sorted));
    }
    *layers = result;
}


pub open spec fn signum(z: i32) -> int {
    if z > 0 {
        1
    } else if z < 0 {
        -1
    } else {
        0
    }
}

/// `l` at height `z`.
pub open spec fn with_z(l: LayerModel, z: int) -> LayerModel {
    LayerModel { z: z as i32, ..l }
}

/// The layer at position `i` is at the top (moving up) or the bottom
/// (moving down) of the stack.
pub open spec fn at_extreme(n: int, i: int, up: bool) -> bool {
    (up && i == 0) || (!up && i == n - 1)
}

/// The heights of the layers once the layer at position `i` moves one step
/// up or down, before they are sorted again; `None` when it cannot move.
///
/// At the top of a stack that lies wholly below the grid, a layer moving up
/// goes just above the grid; at the bottom of a stack wholly above it, a
/// layer moving down goes just below it. Next to a layer on the same side
/// of the grid, the two swap heights. Next to a layer on the other side, the
/// moving layer crosses the grid: it takes the height just above (or below)
/// the grid, and the layers it joins move one step further from the grid.
pub open spec fn moved_heights(s: Seq<LayerModel>, i: int, up: bool) -> Option<Seq<LayerModel>> {
    let n = s.len() as int;
    let z = s[i].z;
    if at_extreme(n, i, up) {
        if (up && z < 0) || (!up && z > 0) {
            Some(s.update(i, with_z(s[i], if up { 1 } else { -1 })))
        } else {
            None
        }
    } else {
        let o = if up { i - 1 } else { i + 1 };
        let oz = s[o].z;
        if signum(z) == signum(oz) {
            Some(s.update(i, with_z(s[i], oz as int)).update(o, with_z(s[o], z as int)))
        } else if up {
            Some(
                Seq::new(
                    s.len(),
                    |k: int|
                        if k == i {
                            with_z(s[k], 1)
                        } else if k <= o {
                            with_z(s[k], s[k].z + 1)
                        } else {
                            s[k]
                        },
                ),
            )
        } else {
            Some(
                Seq::new(
                    s.len(),
                    |k: int|
                        if k == i {
                            with_z(s[k], -1)
                        } else if k >= o {
                            with_z(s[k], s[k].z - 1)
                        } else {
                            s[k]
                        },
                ),
            )
        }
    }
}

/// The layers after the first layer with id `id` moves one step up or down,
/// with the event that records the move; `None` when there is no such layer
/// or it cannot move.
pub open spec fn move_layer_result(s: Seq<LayerModel>, id: Id, up: bool) -> Option<
    (Seq<LayerModel>, SceneEvent),
> {
    match layer_pos(s, id) {
        None => None,
        Some(i) => match moved_heights(s, i, up) {
            None => None,
            Some(t) => {
                let r = normalise(t);
                let moved = if at_extreme(s.len() as int, i, up) {
                    r[i].id
                } else {
                    s[i].id
                };
                Some((r, SceneEvent::LayerMove(moved, s[i].z, up)))
            },
        },
    }
}

/// Moving the layer at position `i` overflows no height: the layers that
/// move one step further from the grid have room to.
pub open spec fn move_fits(s: Seq<LayerModel>, i: int, up: bool) -> bool {
    let n = s.len() as int;
    if at_extreme(n, i, up) {
        true
    } else {
        let o = if up { i - 1 } else { i + 1 };
        if signum(s[i].z) == signum(s[o].z) {
            true
        } else if up {
            forall|k: int| 0 <= k <= o ==> #[trigger] s[k].z < i32::MAX
        } else {
            forall|k: int| o <= k < n ==> #[trigger] s[k].z > i32::MIN
        }
    }
}

/// Moving the first layer with id `id` neither overflows a height nor
/// renumbers more layers than heights can count.
pub open spec fn move_layer_safe(s: Seq<LayerModel>, id: Id, up: bool) -> bool {
    match layer_pos(s, id) {
        None => true,
        Some(i) => moved_heights(s, i, up) is None || (s.len() <= i32::MAX && move_fits(s, i, up)),
    }
}

pub proof fn lemma_layer_pos(s: Seq<LayerModel>, id: Id)
    ensures
        layer_pos(s, id) matches Some(p) ==> 0 <= p < s.len() && s[p].id == id && forall|j: int|
            0 <= j < p ==> s[j].id != id,
        layer_pos(s, id) is None ==> forall|j: int| 0 <= j < s.len() ==> s[j].id != id,
    decreases s.len(),
{
    if s.len() > 0 {
        lemma_layer_pos(s.drop_last(), id);
        assert forall|j: int| 0 <= j < s.len() - 1 implies s.drop_last()[j] == s[j] by {}
    }
}

proof fn lemma_layer_pos_prefix(s: Seq<LayerModel>, k: int, id: Id)
    requires
        0 < k <= s.len(),
        layer_pos(s.take(k), id) is Some,
    ensures
        layer_pos(s, id) == layer_pos(s.take(k), id),
    decreases s.len() - k,
{
    if k < s.len() {
        assert(s.take(k + 1).drop_last() =~= s.take(k));
        lemma_layer_pos_prefix(s, k + 1, id);
    } else {
        assert(s.take(k) =~= s);
    }
}

/// Position of the first layer with the given id.
pub fn layer_index(v: &Vec<Layer>, id: Id) -> (i: Option<usize>)
    ensures
        match layer_pos(models(v@), id) {
            Some(p) => i matches Some(j) && j as int == p,
            None => i is None,
        },
{
    let ghost m = models(v@);
    let mut i: usize = 0;
    while i < v.len()
        invariant
            m == models(v@),
            0 <= i <= v@.len(),
            layer_pos(m.take(i as int), id) is None,
        decreases v@.len() - i,
    {
        proof {
            assert(m.take(i + 1).drop_last() =~= m.take(i as int));
        }
        if v[i].id == id {
            proof {
                lemma_layer_pos_prefix(m, i + 1, id);
            }
            return Some(i);
        }
        i += 1;
    }
    assert(m.take(i as int) =~= m);
    None
}

/// Puts the layer at position `k` at height `z`.
fn set_layer_z(v: &mut Vec<Layer>, k: usize, z: i32)
    requires
        k < old(v)@.len(),
    ensures
        models(final(v)@) == models(old(v)@).update(k as int, with_z(models(old(v)@)[k as int], z as int)),
{
    let mut l = v.remove(k);
    l.z = z;
    v.insert(k, l);
    assert(models(v@) =~= models(old(v)@).update(k as int, with_z(models(old(v)@)[k as int], z as int)));
}

/// Moves the layers at positions `lo` to `hi` (exclusive) one step up or
/// down.
fn shift_layers(v: &mut Vec<Layer>, lo: usize, hi: usize, up: bool)
    requires
        lo <= hi <= old(v)@.len(),
        forall|k: int|
            lo <= k < hi ==> if up {
                #[trigger] models(old(v)@)[k].z < i32::MAX
            } else {
                models(old(v)@)[k].z > i32::MIN
            },
    ensures
        final(v)@.len() == old(v)@.len(),
        models(final(v)@) == Seq::new(
            old(v)@.len(),
            |k: int|
                if lo <= k < hi {
                    with_z(models(old(v)@)[k], models(old(v)@)[k].z + if up { 1int } else { -1int })
                } else {
                    models(old(v)@)[k]
                },
        ),
{
    let ghost orig = models(v@);
    let mut k = lo;
    while k < hi
        invariant
            lo <= k <= hi <= orig.len(),
            v@.len() == orig.len(),
            forall|j: int|
                lo <= j < hi ==> if up {
                    #[trigger] orig[j].z < i32::MAX
                } else {
                    orig[j].z > i32::MIN
                },
            forall|j: int| 0 <= j < orig.len() ==> #[trigger] models(v@)[j] == if lo <= j < k {
                with_z(orig[j], orig[j].z + if up { 1int } else { -1int })
            } else {
                orig[j]
            },
        decreases hi - k,
    {
        let z = v[k].z;
        proof {
            assert(models(v@)[k as int] == orig[k as int]);
            assert(if up { orig[k as int].z < i32::MAX } else { orig[k as int].z > i32::MIN });
        }
        let nz = if up { z + 1 } else { z - 1 };
        set_layer_z(v, k, nz);
        assert(models(v@).len() == v@.len());
        k += 1;
    }
    assert(models(v@) =~= Seq::new(
        orig.len(),
        |k: int|
            if lo <= k < hi {
                with_z(orig[k], orig[k].z + if up { 1int } else { -1int })
            } else {
                orig[k]
            },
    ));
}


/// The first position in `s` of a layer that satisfies `p`.
pub open spec fn first_where(s: Seq<LayerModel>, p: spec_fn(LayerModel) -> bool) -> Option<int>
    decreases s.len(),
{
    if s.len() == 0 {
        None
    } else {
        match first_where(s.drop_last(), p) {
            Some(i) => Some(i),
            None => if p(s.last()) {
                Some(s.len() - 1)
            } else {
                None
            },
        }
    }
}

pub proof fn lemma_first_where(s: Seq<LayerModel>, p: spec_fn(LayerModel) -> bool)
    ensures
        first_where(s, p) matches Some(i) ==> 0 <= i < s.len() && p(s[i]) && forall|j: int|
            0 <= j < i ==> !p(#[trigger] s[j]),
        first_where(s, p) is None ==> forall|j: int| 0 <= j < s.len() ==> !p(#[trigger] s[j]),
    decreases s.len(),
{
    if s.len() > 0 {
        lemma_first_where(s.drop_last(), p);
        assert forall|j: int| 0 <= j < s.len() - 1 implies s.drop_last()[j] == s[j] by {}
    }
}

pub proof fn lemma_first_where_prefix(s: Seq<LayerModel>, p: spec_fn(LayerModel) -> bool, k: int)
    requires
        0 < k <= s.len(),
        first_where(s.take(k), p) is Some,
    ensures
        first_where(s, p) == first_where(s.take(k), p),
    decreases s.len() - k,
{
    if k < s.len() {
        assert(s.take(k + 1).drop_last() =~= s.take(k));
        lemma_first_where_prefix(s, p, k + 1);
    } else {
        assert(s.take(k) =~= s);
    }
}

/// The layer holds a sprite with the given id.
pub open spec fn holds_sprite(id: Id) -> spec_fn(LayerModel) -> bool {
    |l: LayerModel| sprite_pos(l.sprites, id) is Some
}

/// The layer has a removed sprite with the given id.
pub open spec fn holds_removed(id: Id) -> spec_fn(LayerModel) -> bool {
    |l: LayerModel| sprite_pos(l.removed_sprites, id) is Some
}

/// The layers after `layer` joins them, if no layer has its id yet, with
/// the event that records it.
pub open spec fn add_layer_result(s: Seq<LayerModel>, layer: LayerModel) -> (Seq<LayerModel>, bool) {
    match layer_pos(s, layer.id) {
        Some(_) => (s, false),
        None => (normalise(s.push(layer)), true),
    }
}

/// The scene after the layers with id `id` are removed; the last of them is
/// kept among the removed layers.
pub open spec fn remove_layer_result(m: SceneModel, id: Id) -> (SceneModel, bool) {
    if layers_with(m.layers, id).len() == 0 {
        (m, false)
    } else {
        (
            SceneModel {
                layers: layers_without(m.layers, id),
                removed_layers: m.removed_layers.push(layers_with(m.layers, id).last()),
                ..m
            },
            true,
        )
    }
}

/// Bringing back a removed layer does not make more layers than heights
/// can count.
pub open spec fn restore_layer_safe(m: SceneModel, id: Id) -> bool {
    layers_with(m.removed_layers, id).len() == 0 || layer_pos(m.layers, id) is Some || m.layers.len()
        < i32::MAX
}

/// The scene after the last removed layer with id `id` is brought back.
pub open spec fn restore_layer_result(m: SceneModel, id: Id) -> (SceneModel, bool) {
    if layers_with(m.removed_layers, id).len() == 0 {
        (m, false)
    } else {
        (
            SceneModel {
                layers: add_layer_result(m.layers, layers_with(m.removed_layers, id).last()).0,
                removed_layers: layers_without(m.removed_layers, id),
                ..m
            },
            true,
        )
    }
}

/// Takes the first layer with the given id out of a vector of layers.
fn extract_layers(v: &mut Vec<Layer>, id: Id) -> (r: Option<Layer>)
    ensures
        models(final(v)@) == layers_without(models(old(v)@), id),
        layers_with(models(old(v)@), id).len() == 0 ==> r is None,
        layers_with(models(old(v)@), id).len() > 0 ==> (r matches Some(l) && l@ == layers_with(
            models(old(v)@),
            id,
        ).last()),
{
    let ghost orig = models(v@);
    let mut src: Vec<Layer> = Vec::new();
    std::mem::swap(&mut src, v);
    let ghost n = src@.len();
    assert(src.len() == n);
    let mut kept: Vec<Layer> = Vec::new();
    let mut taken: Option<Layer> = None;
    let mut i: usize = 0;
    while src.len() > 0
        invariant
            n == orig.len(),
            n <= usize::MAX,
            i + src@.len() == n,
            models(src@) == orig.skip(i as int),
            models(kept@) == layers_without(orig.take(i as int), id),
            layers_with(orig.take(i as int), id).len() == 0 ==> taken is None,
            layers_with(orig.take(i as int), id).len() > 0 ==> (taken matches Some(l) && l@
                == layers_with(orig.take(i as int), id).last()),
        decreases src@.len(),
    {
        let ghost before = src@;
        let l = src.remove(0);
        proof {
            reveal_with_fuel(Seq::<_>::filter, 1);
            assert(orig.take(i + 1).drop_last() =~= orig.take(i as int));
            assert(l@ == orig[i as int]) by {
                assert(models(before)[0] == orig.skip(i as int)[0]);
            }
            assert forall|j: int| 0 <= j < src@.len() implies #[trigger] src@[j]@ == orig[i + 1 + j] by {
                assert(src@[j] == before[j + 1]);
                assert(models(before)[j + 1] == orig.skip(i as int)[j + 1]);
            }
            assert(models(src@) =~= orig.skip(i + 1));
        }
        if l.id == id {
            taken = Some(l);
        } else {
            kept.push(l);
            proof {
                assert(models(kept@) =~= layers_without(orig.take(i + 1), id));
            }
        }
        i += 1;
    }
    proof {
        assert(orig.take(n as int) =~= orig);
    }
    *v = kept;
    taken
}

/// Replacing one layer of a vector replaces its model.
pub proof fn lemma_models_update(before: Seq<Layer>, after: Seq<Layer>, k: int, l: Layer)
    requires
        0 <= k < before.len(),
        after == before.remove(k).insert(k, l),
    ensures
        models(after) == models(before).update(k, l@),
{
    assert(models(after) =~= models(before).update(k, l@));
}


/// The greatest id among layers and the sprites on them, and 1.
pub open spec fn max_id(s: Seq<LayerModel>) -> Id
    decreases s.len(),
{
    if s.len() == 0 {
        1
    } else {
        let rest = max_id(s.drop_last());
        let l = s.last();
        let with_layer = if l.id > rest { l.id } else { rest };
        max_sprite_id(l.sprites, with_layer)
    }
}

/// The greatest of `start` and the ids of the sprites.
pub open spec fn max_sprite_id(s: Seq<Sprite>, start: Id) -> Id
    decreases s.len(),
{
    if s.len() == 0 {
        start
    } else {
        let rest = max_sprite_id(s.drop_last(), start);
        if s.last().id > rest {
            s.last().id
        } else {
            rest
        }
    }
}

/// The three layers a new scene starts with: a foreground above the grid,
/// and scenery and a background below it.
pub open spec fn default_layers() -> Seq<LayerModel> {
    seq![
        new_layer_model(1, "Foreground"@, 1i32),
        new_layer_model(2, "Scenery"@, -1i32),
        new_layer_model(3, "Background"@, -2i32),
    ]
}

impl Scene {
    /// Width and height of a new scene, in tiles.
    pub const DEFAULT_SIZE: u32 = 32;
    /// How many ids a copy of the scene handed to a client sets aside for
    /// that client.
    pub const ID_SPACE_INCREMENT: i64 = 0x100_0000;

    /// A 32 by 32 scene with a foreground, scenery and a background layer.
    pub fn new() -> (sc: Scene)
        ensures
            sc@.layers == default_layers(),
            sc@.removed_layers.len() == 0,
            sc@.next_id == 4,
            !sc@.canon,
            sc@.id is None && sc@.project is None && sc@.uuid == 0,
            sc@.title.len() == 0,
            sc@.w == 32 && sc@.h == 32,
    {
        let mut layers: Vec<Layer> = Vec::new();
        layers.push(Layer::new(1, "Foreground", 1));
        layers.push(Layer::new(2, "Scenery", -1));
        layers.push(Layer::new(3, "Background", -2));
        let sc = Scene {
            canon: false,
            next_id: 4,
            id: None,
            uuid: 0,
            layers,
            removed_layers: Vec::new(),
            title: String::new(),
            project: None,
            w: Scene::DEFAULT_SIZE,
            h: Scene::DEFAULT_SIZE,
        };
        assert(sc@.layers =~= default_layers());
        sc
    }

    /// Hands out the next id.
    pub fn next_id(&mut self) -> (id: Id)
        requires
            old(self).next_id < i64::MAX,
        ensures
            id == old(self).next_id,
            final(self)@ == (SceneModel { next_id: (old(self).next_id + 1) as i64, ..old(self)@ }),
    {
        let id = self.next_id;
        self.next_id = self.next_id + 1;
        id
    }

    /// Sets the next id just above the greatest id in use.
    pub fn minimise_next_id(&mut self)
        requires
            max_id(old(self)@.layers) < i64::MAX,
        ensures
            final(self)@ == (SceneModel { next_id: (max_id(old(self)@.layers) + 1) as i64, ..old(self)@ }),
    {
        let ghost m = self@.layers;
        let mut max_id_seen: Id = 1;
        let mut i: usize = 0;
        while i < self.layers.len()
            invariant
                m == self@.layers,
                0 <= i <= m.len(),
                max_id_seen == max_id(m.take(i as int)),
            decreases m.len() - i,
        {
            proof {
                assert(m.take(i + 1).drop_last() =~= m.take(i as int));
            }
            let l = &self.layers[i];
            if l.id > max_id_seen {
                max_id_seen = l.id;
            }
            let ghost start = max_id_seen;
            let mut j: usize = 0;
            while j < l.sprites.len()
                invariant
                    0 <= j <= l.sprites@.len(),
                    max_id_seen == max_sprite_id(l.sprites@.take(j as int), start),
                decreases l.sprites@.len() - j,
            {
                proof {
                    assert(l.sprites@.take(j + 1).drop_last() =~= l.sprites@.take(j as int));
                }
                if l.sprites[j].id > max_id_seen {
                    max_id_seen = l.sprites[j].id;
                }
                j += 1;
            }
            proof {
                assert(l.sprites@.take(j as int) =~= l.sprites@);
                assert(m[i as int] == l@);
            }
            i += 1;
        }
        proof {
            assert(m.take(i as int) =~= m);
        }
        self.next_id = max_id_seen + 1;
    }

    /// A scene holding the given layers, sorted and renumbered, with the
    /// next id just above the greatest in use.
    pub fn new_with_layers(layers: Vec<Layer>) -> (sc: Scene)
        requires
            layers@.len() <= i32::MAX,
            max_id(models(layers@)) < i64::MAX,
        ensures
            sc@.layers == normalise(models(layers@)),
            sc@.removed_layers.len() == 0,
            sc@.next_id == max_id(models(layers@)) + 1,
            !sc@.canon,
            sc@.id is None && sc@.project is None && sc@.uuid == 0,
            sc@.title.len() == 0,
            sc@.w == 32 && sc@.h == 32,
    {
        let mut scene = Scene::new();
        scene.layers = layers;
        scene.minimise_next_id();
        scene.sort_layers();
        scene
    }

    /// Marks this copy as the server's.
    pub fn canon(&mut self)
        ensures
            final(self)@ == (SceneModel { canon: true, ..old(self)@ }),
    {
        self.canon = true;
    }

    /// A copy of the scene for a client; the ids that the copy will hand out
    /// are set aside by moving this scene's next id on.
    pub fn non_canon(&mut self) -> (copy: Scene)
        requires
            old(self).next_id + Scene::ID_SPACE_INCREMENT <= i64::MAX,
        ensures
            copy@ == (SceneModel { canon: false, ..old(self)@ }),
            final(self)@ == (SceneModel {
                next_id: (old(self).next_id + Scene::ID_SPACE_INCREMENT) as i64,
                ..old(self)@
            }),
    {
        let layers = self.layers.clone();
        let removed_layers = self.removed_layers.clone();
        proof {
            assert(models(layers@) =~= models(self.layers@));
            assert(models(removed_layers@) =~= models(self.removed_layers@));
        }
        let copy = Scene {
            canon: false,
            next_id: self.next_id,
            id: self.id,
            uuid: self.uuid,
            layers,
            removed_layers,
            title: self.title.clone(),
            project: self.project,
            w: self.w,
            h: self.h,
        };
        self.next_id = self.next_id + Scene::ID_SPACE_INCREMENT;
        copy
    }

    /// Sorts the layers highest first and gives them the smallest heights
    /// that keep their order and their side of the grid, so that every
    /// client ends up with the same heights.
    pub fn sort_layers(&mut self)
        requires
            old(self).layers@.len() <= i32::MAX,
        ensures
            final(self)@ == (SceneModel { layers: normalise(old(self)@.layers), ..old(self)@ }),
    {
        normalise_layers(&mut self.layers);
    }

    /// Position of the first layer with the given id.
    pub fn layer_position(&self, layer: Id) -> (i: Option<usize>)
        ensures
            match layer_pos(self@.layers, layer) {
                Some(p) => i matches Some(j) && j as int == p,
                None => i is None,
            },
    {
        layer_index(&self.layers, layer)
    }

    pub fn layer_ref(&self, layer: Id) -> (l: Option<&Layer>)
        ensures
            match layer_pos(self@.layers, layer) {
                Some(p) => l matches Some(r) && r@ == self@.layers[p],
                None => l is None,
            },
    {
        match layer_index(&self.layers, layer) {
            Some(i) => {
                proof {
                    lemma_layer_pos(self@.layers, layer);
                }
                Some(&self.layers[i])
            },
            None => None,
        }
    }

    /// The id of the topmost layer, or 0 when there are no layers.
    pub fn first_layer(&self) -> (id: Id)
        ensures
            id == (if self@.layers.len() > 0 { self@.layers[0].id } else { 0 }),
    {
        if self.layers.len() > 0 {
            self.layers[0].id
        } else {
            0
        }
    }
}



impl Scene {
    /// Adds a layer unless one with its id is there already, then sorts and
    /// renumbers the layers. The event carries the layer's new height.
    pub fn add_layer(&mut self, layer: Layer) -> (e: Option<SceneEvent>)
        requires
            layer_pos(old(self)@.layers, layer.id) is Some || old(self).layers@.len() < i32::MAX,
        ensures
            final(self)@ == (SceneModel {
                layers: add_layer_result(old(self)@.layers, layer@).0,
                ..old(self)@
            }),
            add_layer_result(old(self)@.layers, layer@).1 ==> (e matches Some(
                SceneEvent::LayerNew(id, title, z),
            ) && id == layer.id && title@ == layer.title@ && (layer_pos(final(self)@.layers, id)
                matches Some(p) && final(self)@.layers[p] == (LayerModel { z, ..layer@ }))),
            !add_layer_result(old(self)@.layers, layer@).1 ==> e is None,
    {
        let id = layer.id;
        match layer_index(&self.layers, id) {
            Some(_) => None,
            None => {
                let ghost before = self@.layers;
                self.layers.push(layer);
                proof {
                    assert(models(self.layers@) =~= before.push(layer@));
                }
                self.sort_layers();
                proof {
                    lemma_normalise_keeps_unique(before, layer@);
                }
                match layer_index(&self.layers, id) {
                    Some(i) => {
                        proof {
                            lemma_layer_pos(self@.layers, id);
                        }
                        let l = &self.layers[i];
                        Some(SceneEvent::LayerNew(id, l.title.clone(), l.z))
                    },
                    None => None,
                }
            },
        }
    }

    /// Makes a new layer with the next id.
    pub fn new_layer(&mut self, title: &str, z: i32) -> (e: Option<SceneEvent>)
        requires
            old(self).next_id < i64::MAX,
            layer_pos(old(self)@.layers, old(self).next_id) is Some || old(self).layers@.len() < i32::MAX,
        ensures
            final(self)@ == (SceneModel {
                layers: add_layer_result(old(self)@.layers, new_layer_model(old(self).next_id, title@, z)).0,
                next_id: (old(self).next_id + 1) as i64,
                ..old(self)@
            }),
            add_layer_result(old(self)@.layers, new_layer_model(old(self).next_id, title@, z)).1 ==> (
            e matches Some(SceneEvent::LayerNew(id, t, nz)) && id == old(self).next_id && t@ == title@),
            !add_layer_result(old(self)@.layers, new_layer_model(old(self).next_id, title@, z)).1
                ==> e is None,
    {
        let id = self.next_id();
        self.add_layer(Layer::new(id, title, z))
    }

    /// Removes every layer with the given id; the last of them is kept among
    /// the removed layers.
    pub fn remove_layer(&mut self, layer: Id) -> (e: Option<SceneEvent>)
        ensures
            final(self)@ == remove_layer_result(old(self)@, layer).0,
            e == (if remove_layer_result(old(self)@, layer).1 {
                Some(SceneEvent::LayerRemove(layer))
            } else {
                None
            }),
    {
        proof {
            lemma_layers_without_absent(self@.layers, layer);
        }
        match extract_layers(&mut self.layers, layer) {
            Some(removed) => {
                proof {
                    lemma_layers_with_id(old(self)@.layers, layer);
                }
                let id = removed.id;
                let ghost before = models(self.removed_layers@);
                self.removed_layers.push(removed);
                proof {
                    assert(models(self.removed_layers@) =~= before.push(removed@));
                }
                Some(SceneEvent::LayerRemove(id))
            },
            None => None,
        }
    }

    /// Brings back the last removed layer with the given id; every removed
    /// layer with that id leaves the removed layers. The layer does not come
    /// back when a layer with its id is already there.
    pub fn restore_layer(&mut self, layer: Id) -> (e: Option<SceneEvent>)
        requires
            restore_layer_safe(old(self)@, layer),
        ensures
            final(self)@ == restore_layer_result(old(self)@, layer).0,
            e == (if restore_layer_result(old(self)@, layer).1 {
                Some(SceneEvent::LayerRestore(layer))
            } else {
                None
            }),
    {
        proof {
            lemma_layers_without_absent(self@.removed_layers, layer);
        }
        proof {
            lemma_layers_with_id(self@.removed_layers, layer);
        }
        match extract_layers(&mut self.removed_layers, layer) {
            Some(l) => {
                self.add_layer(l);
                Some(SceneEvent::LayerRestore(layer))
            },
            None => None,
        }
    }

    /// Renames the first layer with the given id.
    pub fn rename_layer(&mut self, layer: Id, new_name: String) -> (e: Option<SceneEvent>)
        ensures
            match layer_pos(old(self)@.layers, layer) {
                None => final(self)@ == old(self)@ && e is None,
                Some(k) => {
                    &&& final(self)@ == (SceneModel {
                        layers: old(self)@.layers.update(
                            k,
                            LayerModel { title: new_name@, ..old(self)@.layers[k] },
                        ),
                        ..old(self)@
                    })
                    &&& e matches Some(SceneEvent::LayerRename(id, t_old, t_new))
                    &&& id == layer && t_old@ == old(self)@.layers[k].title && t_new == new_name
                },
            },
    {
        match layer_index(&self.layers, layer) {
            Some(k) => {
                proof {
                    lemma_layer_pos(self@.layers, layer);
                }
                let ghost before = self.layers@;
                let mut l = self.layers.remove(k);
                let e = l.rename(new_name);
                self.layers.insert(k, l);
                proof {
                    lemma_models_update(before, self.layers@, k as int, l);
                }
                Some(e)
            },
            None => None,
        }
    }

    /// Locks or unlocks the first layer with the given id.
    pub fn set_layer_locked(&mut self, layer: Id, locked: bool) -> (e: Option<SceneEvent>)
        ensures
            match layer_pos(old(self)@.layers, layer) {
                None => final(self)@ == old(self)@ && e is None,
                Some(k) => {
                    &&& final(self)@ == (SceneModel {
                        layers: old(self)@.layers.update(k, LayerModel { locked, ..old(self)@.layers[k] }),
                        ..old(self)@
                    })
                    &&& e == (if old(self)@.layers[k].locked != locked {
                        Some(SceneEvent::LayerLocked(layer, locked))
                    } else {
                        None
                    })
                },
            },
    {
        match layer_index(&self.layers, layer) {
            Some(k) => {
                proof {
                    lemma_layer_pos(self@.layers, layer);
                }
                let ghost before = self.layers@;
                let mut l = self.layers.remove(k);
                let e = l.set_locked(locked);
                self.layers.insert(k, l);
                proof {
                    lemma_models_update(before, self.layers@, k as int, l);
                }
                e
            },
            None => None,
        }
    }

    /// Shows or hides the first layer with the given id.
    pub fn set_layer_visible(&mut self, layer: Id, visible: bool) -> (e: Option<SceneEvent>)
        ensures
            match layer_pos(old(self)@.layers, layer) {
                None => final(self)@ == old(self)@ && e is None,
                Some(k) => {
                    &&& final(self)@ == (SceneModel {
                        layers: old(self)@.layers.update(k, LayerModel { visible, ..old(self)@.layers[k] }),
                        ..old(self)@
                    })
                    &&& e == (if old(self)@.layers[k].visible != visible {
                        Some(SceneEvent::LayerVisibility(layer, visible))
                    } else {
                        None
                    })
                },
            },
    {
        match layer_index(&self.layers, layer) {
            Some(k) => {
                proof {
                    lemma_layer_pos(self@.layers, layer);
                }
                let ghost before = self.layers@;
                let mut l = self.layers.remove(k);
                let e = l.set_visible(visible);
                self.layers.insert(k, l);
                proof {
                    lemma_models_update(before, self.layers@, k as int, l);
                }
                e
            },
            None => None,
        }
    }

    /// Moves the first layer with the given id one step up or down the
    /// stack, then sorts and renumbers the layers.
    pub fn move_layer(&mut self, layer: Id, up: bool) -> (e: Option<SceneEvent>)
        requires
            move_layer_safe(old(self)@.layers, layer, up),
        ensures
            match move_layer_result(old(self)@.layers, layer, up) {
                None => final(self)@ == old(self)@ && e is None,
                Some((r, ev)) => final(self)@ == (SceneModel { layers: r, ..old(self)@ }) && e == Some(ev),
            },
    {
        let i = match layer_index(&self.layers, layer) {
            Some(i) => i,
            None => return None,
        };
        proof {
            lemma_layer_pos(self@.layers, layer);
        }
        let ghost s = self@.layers;
        let n = self.layers.len();
        let layer_z = self.layers[i].z;
        let down = !up;
        if (up && i == 0) || (down && i == n - 1) {
            if (up && layer_z < 0) || (down && layer_z > 0) {
                set_layer_z(&mut self.layers, i, if up { 1 } else { -1 });
                proof {
                    assert(models(self.layers@) == moved_heights(s, i as int, up).unwrap());
                }
                self.sort_layers();
                proof {
                    lemma_sort_layers_len(moved_heights(s, i as int, up).unwrap());
                    assert(self@.layers == normalise(moved_heights(s, i as int, up).unwrap()));
                    assert(self@.layers.len() == s.len());
                    assert(self.layers@.len() == self@.layers.len());
                    assert(self.layers@[i as int]@ == self@.layers[i as int]);
                }
                return Some(SceneEvent::LayerMove(self.layers[i].id, layer_z, up));
            } else {
                return None;
            }
        }
        let other_i = if up { i - 1 } else { i + 1 };
        let other_z = self.layers[other_i].z;
        let same_side = (layer_z > 0 && other_z > 0) || (layer_z < 0 && other_z < 0) || (layer_z
            == 0 && other_z == 0);
        if same_side {
            set_layer_z(&mut self.layers, i, other_z);
            set_layer_z(&mut self.layers, other_i, layer_z);
            proof {
                assert(models(self.layers@) =~= moved_heights(s, i as int, up).unwrap());
            }
        } else if up {
            shift_layers(&mut self.layers, 0, other_i + 1, true);
            set_layer_z(&mut self.layers, i, 1);
            proof {
                assert(models(self.layers@) =~= moved_heights(s, i as int, up).unwrap());
            }
        } else {
            shift_layers(&mut self.layers, other_i, n, false);
            set_layer_z(&mut self.layers, i, -1);
            proof {
                assert(models(self.layers@) =~= moved_heights(s, i as int, up).unwrap());
            }
        }
        proof {
            assert(models(self.layers@)[i as int] == self.layers@[i as int]@);
        }
        let ret = Some(SceneEvent::LayerMove(self.layers[i].id, layer_z, up));
        self.sort_layers();
        ret
    }
}

pub proof fn lemma_layers_without_absent(s: Seq<LayerModel>, id: Id)
    ensures
        layers_with(s, id).len() == 0 ==> layers_without(s, id) == s,
    decreases s.len(),
{
    reveal_with_fuel(Seq::<_>::filter, 1);
    if s.len() > 0 {
        lemma_layers_without_absent(s.drop_last(), id);
        if layers_with(s, id).len() == 0 {
            assert(s.drop_last().push(s.last()) =~= s);
        }
    }
}

pub proof fn lemma_layers_with_id(s: Seq<LayerModel>, id: Id)
    ensures
        layers_with(s, id).len() > 0 ==> layers_with(s, id).last().id == id,
        (layer_pos(s, id) is Some) == (layers_with(s, id).len() > 0),
    decreases s.len(),
{
    reveal_with_fuel(Seq::<_>::filter, 1);
    if s.len() > 0 {
        lemma_layers_with_id(s.drop_last(), id);
    }
}

/// Every layer of the sorted layers is one of the layers.
pub proof fn lemma_sort_layers_members(s: Seq<LayerModel>)
    ensures
        forall|j: int| 0 <= j < sort_layers_spec(s).len() ==> s.contains(#[trigger] sort_layers_spec(s)[j]),
    decreases s.len(),
{
    if s.len() > 0 {
        let rest = sort_layers_spec(s.drop_last());
        lemma_sort_layers_members(s.drop_last());
        lemma_insert_pos_desc_bound(rest, s.last().z);
        let p = insert_pos_desc(rest, s.last().z);
        assert forall|j: int| 0 <= j < sort_layers_spec(s).len() implies s.contains(
            #[trigger] sort_layers_spec(s)[j],
        ) by {
            if j < p {
                assert(sort_layers_spec(s)[j] == rest[j]);
                assert(s.drop_last().contains(rest[j]));
                let k = choose|k: int| 0 <= k < s.drop_last().len() && s.drop_last()[k] == rest[j];
                assert(s[k] == rest[j]);
            } else if j == p {
                assert(s[s.len() - 1] == s.last());
            } else {
                assert(sort_layers_spec(s)[j] == rest[j - 1]);
                assert(s.drop_last().contains(rest[j - 1]));
                let k = choose|k: int| 0 <= k < s.drop_last().len() && s.drop_last()[k] == rest[j - 1];
                assert(s[k] == rest[j - 1]);
            }
        }
    }
}

/// The last of the layers is among the sorted layers.
pub proof fn lemma_sort_layers_has_last(s: Seq<LayerModel>)
    requires
        s.len() > 0,
    ensures
        sort_layers_spec(s).contains(s.last()),
{
    let rest = sort_layers_spec(s.drop_last());
    lemma_insert_pos_desc_bound(rest, s.last().z);
    let p = insert_pos_desc(rest, s.last().z);
    assert(sort_layers_spec(s)[p] == s.last());
}

/// After a layer with a new id joins and the layers are normalised, the
/// first layer with that id is the new layer at its new height.
pub proof fn lemma_normalise_keeps_unique(s: Seq<LayerModel>, l: LayerModel)
    requires
        layer_pos(s, l.id) is None,
    ensures
        layer_pos(normalise(s.push(l)), l.id) matches Some(p) && normalise(s.push(l))[p] == (
        LayerModel { z: normalise(s.push(l))[p].z, ..l }),
{
    let t = s.push(l);
    let sorted = sort_layers_spec(t);
    lemma_sort_layers_len(t);
    lemma_sort_layers_members(t);
    lemma_sort_layers_has_last(t);
    lemma_layer_pos(s, l.id);
    let q = choose|q: int| 0 <= q < sorted.len() && sorted[q] == l;
    let r = normalise(t);
    assert(r[q].id == l.id);
    lemma_layer_pos(r, l.id);
    if layer_pos(r, l.id) is None {
        assert(false);
    }
    let p = layer_pos(r, l.id).unwrap();
    assert(sorted.contains(sorted[p]));
    assert(t.contains(sorted[p]));
    let k = choose|k: int| 0 <= k < t.len() && t[k] == sorted[p];
    if k < s.len() {
        assert(t[k] == s[k]);
    }
    assert(sorted[p] == l);
}

/// The layers that `v` held before `v[p]` was inserted.
spec fn old_out(v: Seq<Layer>, p: int) -> Seq<Layer> {
    v.remove(p)
}

proof fn lemma_models_insert(v: Seq<Layer>, p: int)
    requires
        0 <= p < v.len(),
    ensures
        models(v) =~= models(v.remove(p)).insert(p, v[p]@),
{
}

} // verus!
