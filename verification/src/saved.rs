//! A scene as it is kept in a save: layers, drawings, sprites and groups in
//! lists, each referring to the others by position rather than by id.
//! Reading a save back hands out fresh ids in a fixed order: layers first,
//! then drawings, then the sprites that can be placed, then groups.

use vstd::prelude::*;

use crate::fog::{count_revealed, total_ones, Fog};
use crate::geom::{Colour, Real, Rect};
use crate::group::Group;
use crate::layer::{add_sprites_model, new_layer_model, Layer, LayerModel};
use crate::save::{
    cap_code, cap_of_code, cap_to_u8, mode_code, mode_of_code, mode_to_u8, shape_code,
    shape_of_code, shape_to_u8, u8_to_cap, u8_to_mode, u8_to_shape,
};
use crate::project::Project;
use crate::scene::{models, normalise, Scene, SceneModel};
use crate::sprite::{DrawingMode, Sprite, Visual};
use crate::Id;

verus! {

pub struct SavedLayer {
    pub title: String,
    pub z: i32,
    pub visible: bool,
    pub locked: bool,
}

pub struct SavedDrawing {
    pub mode: u8,
    pub points: Vec<Real>,
}

/// How a saved sprite is drawn; a drawing is named by its position in the
/// saved drawings.
#[derive(Clone, Copy, Debug)]
pub enum SavedVisual {
    Texture { shape: u8, media: Id },
    Shape { shape: u8, stroke: Real, solid: bool, colour: Colour },
    Drawing { drawing: u32, colour: Colour, stroke: Real, cap_start: u8, cap_end: u8 },
}

/// A saved sprite; its layer is named by its position in the saved layers.
#[derive(Clone, Copy, Debug)]
pub struct SavedSprite {
    pub layer: u32,
    pub rect: Rect,
    pub z: i32,
    pub visual: SavedVisual,
}

/// A saved group, naming its sprites by their positions in the saved
/// sprites.
pub struct SavedGroup {
    pub sprites: Vec<u32>,
}

pub struct SavedProject {
    pub uuid: u128,
    pub title: String,
    pub scenes: Vec<SavedScene>,
}

pub struct SavedScene {
    pub uuid: u128,
    pub title: String,
    pub w: u32,
    pub h: u32,
    pub fog: Vec<u32>,
    pub fog_active: bool,
    pub layers: Vec<SavedLayer>,
    pub drawings: Vec<SavedDrawing>,
    pub sprites: Vec<SavedSprite>,
    pub groups: Vec<SavedGroup>,
}

/// A drawing of a scene: its id, its mode and its points, two numbers each.
pub struct Drawing {
    pub id: Id,
    pub mode: DrawingMode,
    pub points: Vec<Real>,
}

/// What reading a saved scene gives: the scene with its layers and sprites,
/// and its fog, drawings and groups.
pub struct Retrieved {
    pub scene: Scene,
    pub fog: Fog,
    pub drawings: Vec<Drawing>,
    pub groups: Vec<Group>,
}

/// A project read back: its UUID, its title and each of its scenes.
pub struct RetrievedProject {
    pub uuid: u128,
    pub title: String,
    pub scenes: Vec<Retrieved>,
}

/// A saved sprite can be placed: its layer exists, and so does its drawing
/// if it has one.
pub open spec fn placeable(s: &SavedScene, j: int) -> bool {
    &&& s.sprites@[j].layer < s.layers@.len()
    &&& s.sprites@[j].visual matches SavedVisual::Drawing { drawing, .. } ==> drawing
        < s.drawings@.len()
}

/// How many of the first `j` saved sprites can be placed.
pub open spec fn placed_before(s: &SavedScene, j: int) -> nat
    decreases j,
{
    if j <= 0 {
        0
    } else {
        placed_before(s, j - 1) + if placeable(s, j - 1) {
            1nat
        } else {
            0nat
        }
    }
}

/// The id given to saved layer `i`.
pub open spec fn layer_id(i: int) -> int {
    i + 1
}

/// The id given to saved drawing `k`.
pub open spec fn drawing_id(s: &SavedScene, k: int) -> int {
    s.layers@.len() + k + 1
}

/// The id given to saved sprite `j`, when it can be placed.
pub open spec fn sprite_id(s: &SavedScene, j: int) -> int {
    (s.layers@.len() + s.drawings@.len() + placed_before(s, j) + 1) as int
}

/// The id given to saved group `g`.
pub open spec fn group_id(s: &SavedScene, g: int) -> int {
    s.layers@.len() + s.drawings@.len() + placed_before(s, s.sprites@.len() as int) + g + 1
}

/// The visual of a saved sprite, its codes read and its drawing named by id.
pub open spec fn retrieved_visual(s: &SavedScene, v: SavedVisual) -> Visual {
    match v {
        SavedVisual::Texture { shape, media } => Visual::Texture {
            shape: shape_of_code(shape),
            id: media,
        },
        SavedVisual::Shape { shape, stroke, solid, colour } => Visual::Shape {
            shape: shape_of_code(shape),
            stroke,
            solid,
            colour,
        },
        SavedVisual::Drawing { drawing, colour, stroke, cap_start, cap_end } => Visual::Drawing {
            drawing: drawing_id(s, drawing as int) as Id,
            mode: mode_of_code(s.drawings@[drawing as int].mode),
            colour,
            stroke,
            cap_start: cap_of_code(cap_start),
            cap_end: cap_of_code(cap_end),
        },
    }
}

/// The sprite that saved sprite `j` becomes.
pub open spec fn retrieved_sprite(s: &SavedScene, j: int) -> Sprite {
    Sprite {
        id: sprite_id(s, j) as Id,
        rect: s.sprites@[j].rect,
        z: s.sprites@[j].z,
        visual: retrieved_visual(s, s.sprites@[j].visual),
    }
}

/// The placeable sprites among the first `j` saved ones that go on saved
/// layer `i`, in their saved order.
pub open spec fn layer_sprites(s: &SavedScene, i: int, j: int) -> Seq<Sprite>
    decreases j,
{
    if j <= 0 {
        Seq::empty()
    } else {
        let rest = layer_sprites(s, i, j - 1);
        if placeable(s, j - 1) && s.sprites@[j - 1].layer == i {
            rest.push(retrieved_sprite(s, j - 1))
        } else {
            rest
        }
    }
}

/// Saved layer `i` read back: a new layer with the saved title, height,
/// visibility and lock, and its sprites added in their saved order.
pub open spec fn retrieved_layer(s: &SavedScene, i: int) -> LayerModel {
    let l = s.layers@[i];
    add_sprites_model(
        LayerModel {
            visible: l.visible,
            locked: l.locked,
            ..new_layer_model(layer_id(i) as Id, l.title@, l.z)
        },
        layer_sprites(s, i, s.sprites@.len() as int),
    )
}

/// Every saved layer read back, in saved order.
pub open spec fn retrieved_layers(s: &SavedScene) -> Seq<LayerModel> {
    Seq::new(s.layers@.len(), |i: int| retrieved_layer(s, i))
}

/// The ids of the placeable sprites that the positions name, in order;
/// other positions are dropped.
pub open spec fn group_members(s: &SavedScene, idxs: Seq<u32>) -> Seq<Id>
    decreases idxs.len(),
{
    if idxs.len() == 0 {
        Seq::empty()
    } else {
        let rest = group_members(s, idxs.drop_last());
        let k = idxs.last() as int;
        if k < s.sprites@.len() && placeable(s, k) {
            rest.push(sprite_id(s, k) as Id)
        } else {
            rest
        }
    }
}

/// The scene that a saved scene is read back as.
pub open spec fn retrieved_scene(s: &SavedScene, project: Option<Id>) -> SceneModel {
    SceneModel {
        canon: false,
        next_id: group_id(s, s.groups@.len() as int) as Id,
        id: None,
        uuid: s.uuid,
        layers: normalise(retrieved_layers(s)),
        removed_layers: Seq::empty(),
        title: s.title@,
        project,
        w: s.w,
        h: s.h,
    }
}

/// `r` is what reading back saved scene `s` gives.
pub open spec fn is_retrieval(s: &SavedScene, project: Option<Id>, r: &Retrieved) -> bool {
    &&& r.scene@ == retrieved_scene(s, project)
    &&& r.fog.active == s.fog_active && r.fog.w == s.w && r.fog.h == s.h
    &&& r.fog.words() == s.fog@
    &&& r.fog.n_revealed == total_ones(s.fog@)
    &&& r.drawings@.len() == s.drawings@.len()
    &&& forall|k: int|
        0 <= k < s.drawings@.len() ==> {
            &&& (#[trigger] r.drawings@[k]).id == drawing_id(s, k)
            &&& r.drawings@[k].mode == mode_of_code(s.drawings@[k].mode)
            &&& r.drawings@[k].points@ == s.drawings@[k].points@
        }
    &&& r.groups@.len() == s.groups@.len()
    &&& forall|g: int|
        0 <= g < s.groups@.len() ==> {
            &&& (#[trigger] r.groups@[g]).id == group_id(s, g)
            &&& r.groups@[g].sprites@ == group_members(s, s.groups@[g].sprites@)
        }
}

/// The ids that reading back hands out fit in an id, and the layers can be
/// sorted.
pub open spec fn ids_fit(s: &SavedScene) -> bool {
    &&& s.layers@.len() <= i32::MAX
    &&& s.layers@.len() + s.drawings@.len() + s.sprites@.len() + s.groups@.len() < i64::MAX
}

proof fn lemma_placed_before_bound(s: &SavedScene, j: int)
    requires
        0 <= j,
    ensures
        placed_before(s, j) <= j,
    decreases j,
{
    if j > 0 {
        lemma_placed_before_bound(s, j - 1);
    }
}

proof fn lemma_placed_before_mono(s: &SavedScene, j: int, k: int)
    requires
        0 <= j <= k,
    ensures
        placed_before(s, j) <= placed_before(s, k),
    decreases k - j,
{
    if j < k {
        lemma_placed_before_mono(s, j, k - 1);
    }
}

/// Reads a saved scene back. Ids are handed out afresh: the layers take
/// `1..`, the drawings the ids after them, then each sprite that can be
/// placed, then the groups. A sprite whose layer or drawing is missing is
/// dropped, and so is its place in any group. The layers are then sorted by
/// height and renumbered as a scene's layers are.
pub fn retrieve_scene(saved: &SavedScene, project: Option<Id>) -> (r: Retrieved)
    requires
        ids_fit(saved),
        total_ones(saved.fog@) <= u32::MAX,
    ensures
        is_retrieval(saved, project, &r),
{
    let n_layers = saved.layers.len();
    let n_drawings = saved.drawings.len();
    let n_sprites = saved.sprites.len();
    let n_groups = saved.groups.len();
    let first_sprite: i64 = n_layers as i64 + n_drawings as i64 + 1;

    // The id of each saved sprite that can be placed.
    let mut ids: Vec<Option<Id>> = Vec::new();
    let mut next: i64 = first_sprite;
    let mut j: usize = 0;
    while j < n_sprites
        invariant
            ids_fit(saved),
            n_layers == saved.layers@.len(),
            n_drawings == saved.drawings@.len(),
            n_sprites == saved.sprites@.len(),
            first_sprite == n_layers + n_drawings + 1,
            0 <= j <= n_sprites,
            ids@.len() == j,
            next == first_sprite + placed_before(saved, j as int),
            forall|k: int|
                0 <= k < j ==> #[trigger] ids@[k] == (if placeable(saved, k) {
                    Some(sprite_id(saved, k) as Id)
                } else {
                    None
                }),
        decreases n_sprites - j,
    {
        proof {
            lemma_placed_before_bound(saved, j as int);
        }
        let sp = saved.sprites[j];
        let ok = (sp.layer as usize) < n_layers && match sp.visual {
            SavedVisual::Drawing { drawing, .. } => (drawing as usize) < n_drawings,
            _ => true,
        };
        if ok {
            ids.push(Some(next));
            next = next + 1;
        } else {
            ids.push(None);
        }
        j += 1;
    }

    // The layers, each with its sprites.
    let mut layers: Vec<Layer> = Vec::new();
    let mut i: usize = 0;
    while i < n_layers
        invariant
            ids_fit(saved),
            n_layers == saved.layers@.len(),
            n_drawings == saved.drawings@.len(),
            n_sprites == saved.sprites@.len(),
            ids@.len() == n_sprites,
            forall|k: int|
                0 <= k < n_sprites ==> #[trigger] ids@[k] == (if placeable(saved, k) {
                    Some(sprite_id(saved, k) as Id)
                } else {
                    None
                }),
            0 <= i <= n_layers,
            layers@.len() == i,
            models(layers@) == retrieved_layers(saved).take(i as int),
        decreases n_layers - i,
    {
        let sl = &saved.layers[i];
        let mut layer = Layer::new((i + 1) as i64, sl.title.as_str(), sl.z);
        layer.visible = sl.visible;
        layer.locked = sl.locked;
        let sprites = layer_sprite_list(saved, &ids, i);
        assert(layer@ == (LayerModel {
            visible: sl.visible,
            locked: sl.locked,
            ..new_layer_model(layer_id(i as int) as Id, sl.title@, sl.z)
        }));
        layer.add_sprites(sprites);
        assert(layer@ == retrieved_layer(saved, i as int));
        let ghost before = layers@;
        layers.push(layer);
        proof {
            assert(layers@ == before.push(layer));
            assert forall|q: int| 0 <= q < i + 1 implies #[trigger] models(layers@)[q]
                == retrieved_layers(saved).take(i + 1)[q] by {
                assert(models(layers@)[q] == layers@[q]@);
                if q < i {
                    assert(layers@[q] == before[q]);
                    assert(models(before)[q] == before[q]@);
                    assert(models(before)[q] == retrieved_layers(saved).take(i as int)[q]);
                } else {
                    assert(layers@[q] == layer);
                }
            }
            assert(models(layers@) =~= retrieved_layers(saved).take(i + 1));
        }
        i += 1;
    }
    proof {
        assert(retrieved_layers(saved).take(n_layers as int) =~= retrieved_layers(saved));
    }

    // The drawings.
    let mut drawings: Vec<Drawing> = Vec::new();
    let mut k: usize = 0;
    while k < n_drawings
        invariant
            ids_fit(saved),
            n_layers == saved.layers@.len(),
            n_drawings == saved.drawings@.len(),
            0 <= k <= n_drawings,
            drawings@.len() == k,
            forall|q: int|
                0 <= q < k ==> {
                    &&& (#[trigger] drawings@[q]).id == drawing_id(saved, q)
                    &&& drawings@[q].mode == mode_of_code(saved.drawings@[q].mode)
                    &&& drawings@[q].points@ == saved.drawings@[q].points@
                },
        decreases n_drawings - k,
    {
        let sd = &saved.drawings[k];
        let points = sd.points.clone();
        proof {
            assert(points@ =~= sd.points@);
        }
        drawings.push(Drawing { id: n_layers as i64 + k as i64 + 1, mode: u8_to_mode(sd.mode), points });
        k += 1;
    }

    // The groups.
    let mut groups: Vec<Group> = Vec::new();
    let mut g: usize = 0;
    proof {
        lemma_placed_before_bound(saved, n_sprites as int);
    }
    while g < n_groups
        invariant
            ids_fit(saved),
            n_layers == saved.layers@.len(),
            n_drawings == saved.drawings@.len(),
            n_sprites == saved.sprites@.len(),
            n_groups == saved.groups@.len(),
            next == first_sprite + placed_before(saved, n_sprites as int),
            first_sprite == n_layers + n_drawings + 1,
            placed_before(saved, n_sprites as int) <= n_sprites,
            ids@.len() == n_sprites,
            forall|q: int|
                0 <= q < n_sprites ==> #[trigger] ids@[q] == (if placeable(saved, q) {
                    Some(sprite_id(saved, q) as Id)
                } else {
                    None
                }),
            0 <= g <= n_groups,
            groups@.len() == g,
            forall|q: int|
                0 <= q < g ==> {
                    &&& (#[trigger] groups@[q]).id == group_id(saved, q)
                    &&& groups@[q].sprites@ == group_members(saved, saved.groups@[q].sprites@)
                },
        decreases n_groups - g,
    {
        let members = group_member_ids(saved, &ids, &saved.groups[g].sprites);
        groups.push(Group::new(next + g as i64, members));
        g += 1;
    }

    let fog_words = saved.fog.clone();
    proof {
        assert(fog_words@ =~= saved.fog@);
    }
    let n_revealed = count_revealed(&fog_words);
    let fog = Fog { active: saved.fog_active, w: saved.w, h: saved.h, n_revealed, fog: fog_words };

    let mut scene = Scene {
        canon: false,
        next_id: next + n_groups as i64,
        id: None,
        uuid: saved.uuid,
        layers,
        removed_layers: Vec::new(),
        title: saved.title.clone(),
        project,
        w: saved.w,
        h: saved.h,
    };
    proof {
        assert(models(scene.removed_layers@) =~= Seq::<LayerModel>::empty());
    }
    scene.sort_layers();
    Retrieved { scene, fog, drawings, groups }
}

/// Reads a saved project back, each scene as `retrieve_scene` reads it. A
/// scene read back belongs to no project id.
pub fn retrieve(saved: &SavedProject) -> (r: RetrievedProject)
    requires
        forall|i: int|
            0 <= i < saved.scenes@.len() ==> ids_fit(&#[trigger] saved.scenes@[i]) && total_ones(
                saved.scenes@[i].fog@,
            ) <= u32::MAX,
    ensures
        r.uuid == saved.uuid,
        r.title@ == saved.title@,
        r.scenes@.len() == saved.scenes@.len(),
        forall|i: int|
            0 <= i < saved.scenes@.len() ==> is_retrieval(
                &saved.scenes@[i],
                None,
                &#[trigger] r.scenes@[i],
            ),
{
    let mut scenes: Vec<Retrieved> = Vec::new();
    let mut i: usize = 0;
    while i < saved.scenes.len()
        invariant
            forall|q: int|
                0 <= q < saved.scenes@.len() ==> ids_fit(&#[trigger] saved.scenes@[q]) && total_ones(
                    saved.scenes@[q].fog@,
                ) <= u32::MAX,
            0 <= i <= saved.scenes@.len(),
            scenes@.len() == i,
            forall|q: int|
                0 <= q < i ==> is_retrieval(&saved.scenes@[q], None, &#[trigger] scenes@[q]),
        decreases saved.scenes@.len() - i,
    {
        let sc = retrieve_scene(&saved.scenes[i], None);
        scenes.push(sc);
        i += 1;
    }
    RetrievedProject { uuid: saved.uuid, title: saved.title.clone(), scenes }
}

/// The sprites that go on saved layer `i`, given the id of each saved
/// sprite that can be placed.
fn layer_sprite_list(saved: &SavedScene, ids: &Vec<Option<Id>>, i: usize) -> (v: Vec<Sprite>)
    requires
        ids_fit(saved),
        ids@.len() == saved.sprites@.len(),
        forall|k: int|
            0 <= k < saved.sprites@.len() ==> #[trigger] ids@[k] == (if placeable(saved, k) {
                Some(sprite_id(saved, k) as Id)
            } else {
                None
            }),
    ensures
        v@ == layer_sprites(saved, i as int, saved.sprites@.len() as int),
{
    let mut v: Vec<Sprite> = Vec::new();
    let mut j: usize = 0;
    while j < saved.sprites.len()
        invariant
            ids_fit(saved),
            ids@.len() == saved.sprites@.len(),
            forall|k: int|
                0 <= k < saved.sprites@.len() ==> #[trigger] ids@[k] == (if placeable(saved, k) {
                    Some(sprite_id(saved, k) as Id)
                } else {
                    None
                }),
            0 <= j <= saved.sprites@.len(),
            v@ == layer_sprites(saved, i as int, j as int),
        decreases saved.sprites@.len() - j,
    {
        let sp = saved.sprites[j];
        if sp.layer as usize == i {
            if let Some(id) = ids[j] {
                let visual = retrieve_visual(saved, sp.visual);
                v.push(Sprite { id, rect: sp.rect, z: sp.z, visual });
            }
        }
        j += 1;
    }
    v
}

/// The visual of a placeable saved sprite.
fn retrieve_visual(saved: &SavedScene, v: SavedVisual) -> (r: Visual)
    requires
        ids_fit(saved),
        v matches SavedVisual::Drawing { drawing, .. } ==> drawing < saved.drawings@.len(),
    ensures
        r == retrieved_visual(saved, v),
{
    match v {
        SavedVisual::Texture { shape, media } => Visual::Texture {
            shape: u8_to_shape(shape),
            id: media,
        },
        SavedVisual::Shape { shape, stroke, solid, colour } => Visual::Shape {
            shape: u8_to_shape(shape),
            stroke,
            solid,
            colour,
        },
        SavedVisual::Drawing { drawing, colour, stroke, cap_start, cap_end } => Visual::Drawing {
            drawing: saved.layers.len() as i64 + drawing as i64 + 1,
            mode: u8_to_mode(saved.drawings[drawing as usize].mode),
            colour,
            stroke,
            cap_start: u8_to_cap(cap_start),
            cap_end: u8_to_cap(cap_end),
        },
    }
}

/// The ids of the placeable sprites that a saved group names.
fn group_member_ids(saved: &SavedScene, ids: &Vec<Option<Id>>, idxs: &Vec<u32>) -> (v: Vec<Id>)
    requires
        ids@.len() == saved.sprites@.len(),
        forall|k: int|
            0 <= k < saved.sprites@.len() ==> #[trigger] ids@[k] == (if placeable(saved, k) {
                Some(sprite_id(saved, k) as Id)
            } else {
                None
            }),
    ensures
        v@ == group_members(saved, idxs@),
{
    let mut v: Vec<Id> = Vec::new();
    let mut q: usize = 0;
    while q < idxs.len()
        invariant
            ids@.len() == saved.sprites@.len(),
            forall|k: int|
                0 <= k < saved.sprites@.len() ==> #[trigger] ids@[k] == (if placeable(saved, k) {
                    Some(sprite_id(saved, k) as Id)
                } else {
                    None
                }),
            0 <= q <= idxs@.len(),
            v@ == group_members(saved, idxs@.take(q as int)),
        decreases idxs@.len() - q,
    {
        proof {
            assert(idxs@.take(q + 1).drop_last() =~= idxs@.take(q as int));
        }
        let k = idxs[q] as usize;
        if k < ids.len() {
            if let Some(id) = ids[k] {
                v.push(id);
            }
        }
        q += 1;
    }
    assert(idxs@.take(idxs@.len() as int) =~= idxs@);
    v
}

/// The last position of `id` in `s`, as a map filled in order keeps it.
pub open spec fn last_pos(s: Seq<Id>, id: Id) -> Option<int>
    decreases s.len(),
{
    if s.len() == 0 {
        None
    } else if s.last() == id {
        Some(s.len() - 1)
    } else {
        last_pos(s.drop_last(), id)
    }
}

pub proof fn lemma_last_pos_bound(s: Seq<Id>, id: Id)
    ensures
        last_pos(s, id) matches Some(k) ==> 0 <= k < s.len(),
    decreases s.len(),
{
    if s.len() > 0 && s.last() != id {
        lemma_last_pos_bound(s.drop_last(), id);
    }
}

/// The ids of the drawings.
pub open spec fn drawing_ids(ds: Seq<Drawing>) -> Seq<Id> {
    ds.map_values(|d: Drawing| d.id)
}

/// A sprite's visual as saved, its drawing named by position; `None` when
/// the drawing is not among the drawings.
pub open spec fn prepared_visual(v: Visual, dids: Seq<Id>) -> Option<SavedVisual> {
    match v {
        Visual::Texture { shape, id } => Some(
            SavedVisual::Texture { shape: shape_code(shape), media: id },
        ),
        Visual::Shape { shape, stroke, solid, colour } => Some(
            SavedVisual::Shape { shape: shape_code(shape), stroke, solid, colour },
        ),
        Visual::Drawing { drawing, mode, colour, stroke, cap_start, cap_end } => match last_pos(
            dids,
            drawing,
        ) {
            Some(k) => Some(
                SavedVisual::Drawing {
                    drawing: k as u32,
                    colour,
                    stroke,
                    cap_start: cap_code(cap_start),
                    cap_end: cap_code(cap_end),
                },
            ),
            None => None,
        },
    }
}

/// The sprites of a layer at position `layer` as saved, dropping those
/// whose drawing is missing.
pub open spec fn layer_prepared(sprites: Seq<Sprite>, layer: u32, dids: Seq<Id>) -> Seq<SavedSprite>
    decreases sprites.len(),
{
    if sprites.len() == 0 {
        Seq::empty()
    } else {
        let rest = layer_prepared(sprites.drop_last(), layer, dids);
        let sp = sprites.last();
        match prepared_visual(sp.visual, dids) {
            Some(visual) => rest.push(SavedSprite { layer, rect: sp.rect, z: sp.z, visual }),
            None => rest,
        }
    }
}

/// The ids of the sprites of a layer that are saved.
pub open spec fn layer_kept_ids(sprites: Seq<Sprite>, dids: Seq<Id>) -> Seq<Id>
    decreases sprites.len(),
{
    if sprites.len() == 0 {
        Seq::empty()
    } else {
        let rest = layer_kept_ids(sprites.drop_last(), dids);
        if prepared_visual(sprites.last().visual, dids) is Some {
            rest.push(sprites.last().id)
        } else {
            rest
        }
    }
}

/// The saved sprites of all the layers, layer by layer.
pub open spec fn all_prepared(layers: Seq<LayerModel>, dids: Seq<Id>) -> Seq<SavedSprite>
    decreases layers.len(),
{
    if layers.len() == 0 {
        Seq::empty()
    } else {
        all_prepared(layers.drop_last(), dids) + layer_prepared(
            layers.last().sprites,
            (layers.len() - 1) as u32,
            dids,
        )
    }
}

/// The ids of the saved sprites, in the order they are saved.
pub open spec fn all_kept_ids(layers: Seq<LayerModel>, dids: Seq<Id>) -> Seq<Id>
    decreases layers.len(),
{
    if layers.len() == 0 {
        Seq::empty()
    } else {
        all_kept_ids(layers.drop_last(), dids) + layer_kept_ids(layers.last().sprites, dids)
    }
}

/// The positions of a group's sprites among the saved sprites; sprites
/// that are not saved are dropped.
pub open spec fn prepared_members(members: Seq<Id>, kept: Seq<Id>) -> Seq<u32>
    decreases members.len(),
{
    if members.len() == 0 {
        Seq::empty()
    } else {
        let rest = prepared_members(members.drop_last(), kept);
        match last_pos(kept, members.last()) {
            Some(k) => rest.push(k as u32),
            None => rest,
        }
    }
}

/// The saved groups: each group's saved positions, and no group left
/// empty.
pub open spec fn prepared_groups(groups: Seq<Seq<Id>>, kept: Seq<Id>) -> Seq<Seq<u32>>
    decreases groups.len(),
{
    if groups.len() == 0 {
        Seq::empty()
    } else {
        let rest = prepared_groups(groups.drop_last(), kept);
        let m = prepared_members(groups.last(), kept);
        if m.len() > 0 {
            rest.push(m)
        } else {
            rest
        }
    }
}

/// Number of sprites over all the layers.
pub open spec fn total_sprites(layers: Seq<LayerModel>) -> nat
    decreases layers.len(),
{
    if layers.len() == 0 {
        0
    } else {
        total_sprites(layers.drop_last()) + layers.last().sprites.len()
    }
}

proof fn lemma_layer_prepared_len(sprites: Seq<Sprite>, layer: u32, dids: Seq<Id>)
    ensures
        layer_prepared(sprites, layer, dids).len() == layer_kept_ids(sprites, dids).len(),
        layer_kept_ids(sprites, dids).len() <= sprites.len(),
    decreases sprites.len(),
{
    if sprites.len() > 0 {
        lemma_layer_prepared_len(sprites.drop_last(), layer, dids);
    }
}

pub proof fn lemma_all_prepared_len(layers: Seq<LayerModel>, dids: Seq<Id>)
    ensures
        all_prepared(layers, dids).len() == all_kept_ids(layers, dids).len(),
        all_kept_ids(layers, dids).len() <= total_sprites(layers),
    decreases layers.len(),
{
    if layers.len() > 0 {
        lemma_all_prepared_len(layers.drop_last(), dids);
        lemma_layer_prepared_len(layers.last().sprites, (layers.len() - 1) as u32, dids);
    }
}

/// The last position of `id` among the ids.
fn find_last(ids: &Vec<Id>, id: Id) -> (r: Option<usize>)
    ensures
        match last_pos(ids@, id) {
            Some(k) => r == Some(k as usize),
            None => r is None,
        },
{
    let mut found: Option<usize> = None;
    let mut i: usize = 0;
    while i < ids.len()
        invariant
            0 <= i <= ids@.len(),
            match last_pos(ids@.take(i as int), id) {
                Some(k) => found == Some(k as usize),
                None => found is None,
            },
        decreases ids@.len() - i,
    {
        proof {
            assert(ids@.take(i + 1).drop_last() =~= ids@.take(i as int));
        }
        if ids[i] == id {
            found = Some(i);
        }
        i += 1;
    }
    assert(ids@.take(ids@.len() as int) =~= ids@);
    found
}

/// A sprite's visual as saved, when its drawing is among the drawings.
fn prepare_visual(v: Visual, dids: &Vec<Id>) -> (r: Option<SavedVisual>)
    requires
        dids@.len() <= u32::MAX,
    ensures
        r == prepared_visual(v, dids@),
{
    match v {
        Visual::Texture { shape, id } => Some(
            SavedVisual::Texture { shape: shape_to_u8(shape), media: id },
        ),
        Visual::Shape { shape, stroke, solid, colour } => Some(
            SavedVisual::Shape { shape: shape_to_u8(shape), stroke, solid, colour },
        ),
        Visual::Drawing { drawing, mode, colour, stroke, cap_start, cap_end } => {
            proof {
                lemma_last_pos_bound(dids@, drawing);
            }
            match find_last(dids, drawing) {
                Some(k) => Some(
                    SavedVisual::Drawing {
                        drawing: k as u32,
                        colour,
                        stroke,
                        cap_start: cap_to_u8(cap_start),
                        cap_end: cap_to_u8(cap_end),
                    },
                ),
                None => None,
            }
        },
    }
}

/// A sprite as saved on the layer at position `layer`, when its drawing is
/// among the drawings.
pub fn prepare_sprite(sprite: &Sprite, layer: u32, dids: &Vec<Id>) -> (r: Option<SavedSprite>)
    requires
        dids@.len() <= u32::MAX,
    ensures
        r == (match prepared_visual(sprite.visual, dids@) {
            Some(visual) => Some(SavedSprite { layer, rect: sprite.rect, z: sprite.z, visual }),
            None => None,
        }),
{
    match prepare_visual(sprite.visual, dids) {
        Some(visual) => Some(SavedSprite { layer, rect: sprite.rect, z: sprite.z, visual }),
        None => None,
    }
}

/// The layers and their sprites as saved, with the ids of the sprites
/// saved, in the same order.
pub fn prepare_layers_sprites(scene: &Scene, dids: &Vec<Id>) -> (r: (
    Vec<SavedLayer>,
    Vec<SavedSprite>,
    Vec<Id>,
))
    requires
        dids@.len() <= u32::MAX,
        scene.layers@.len() <= u32::MAX,
    ensures
        r.0@.len() == scene@.layers.len(),
        forall|i: int|
            0 <= i < scene@.layers.len() ==> {
                &&& (#[trigger] r.0@[i]).title@ == scene@.layers[i].title
                &&& r.0@[i].z == scene@.layers[i].z
                &&& r.0@[i].visible == scene@.layers[i].visible
                &&& r.0@[i].locked == scene@.layers[i].locked
            },
        r.1@ == all_prepared(scene@.layers, dids@),
        r.2@ == all_kept_ids(scene@.layers, dids@),
{
    let mut layers: Vec<SavedLayer> = Vec::new();
    let mut sprites: Vec<SavedSprite> = Vec::new();
    let mut kept: Vec<Id> = Vec::new();
    let mut i: usize = 0;
    while i < scene.layers.len()
        invariant
            dids@.len() <= u32::MAX,
            scene.layers@.len() <= u32::MAX,
            0 <= i <= scene.layers@.len(),
            layers@.len() == i,
            forall|q: int|
                0 <= q < i ==> {
                    &&& (#[trigger] layers@[q]).title@ == scene@.layers[q].title
                    &&& layers@[q].z == scene@.layers[q].z
                    &&& layers@[q].visible == scene@.layers[q].visible
                    &&& layers@[q].locked == scene@.layers[q].locked
                },
            sprites@ == all_prepared(scene@.layers.take(i as int), dids@),
            kept@ == all_kept_ids(scene@.layers.take(i as int), dids@),
        decreases scene.layers@.len() - i,
    {
        let layer = &scene.layers[i];
        layers.push(
            SavedLayer {
                title: layer.title.clone(),
                z: layer.z,
                visible: layer.visible,
                locked: layer.locked,
            },
        );
        let ghost sprites_before = sprites@;
        let ghost kept_before = kept@;
        let mut j: usize = 0;
        while j < layer.sprites.len()
            invariant
                dids@.len() <= u32::MAX,
                i < scene.layers@.len() <= u32::MAX,
                *layer == scene.layers@[i as int],
                0 <= j <= layer.sprites@.len(),
                sprites@ == sprites_before + layer_prepared(
                    layer.sprites@.take(j as int),
                    i as u32,
                    dids@,
                ),
                kept@ == kept_before + layer_kept_ids(layer.sprites@.take(j as int), dids@),
            decreases layer.sprites@.len() - j,
        {
            proof {
                assert(layer.sprites@.take(j + 1).drop_last() =~= layer.sprites@.take(j as int));
            }
            let sp = &layer.sprites[j];
            match prepare_sprite(sp, i as u32, dids) {
                Some(saved) => {
                    sprites.push(saved);
                    kept.push(sp.id);
                    proof {
                        assert(sprites@ =~= sprites_before + layer_prepared(
                            layer.sprites@.take(j + 1),
                            i as u32,
                            dids@,
                        ));
                        assert(kept@ =~= kept_before + layer_kept_ids(
                            layer.sprites@.take(j + 1),
                            dids@,
                        ));
                    }
                },
                None => {},
            }
            j += 1;
        }
        proof {
            assert(layer.sprites@.take(layer.sprites@.len() as int) =~= layer.sprites@);
            let t = scene@.layers.take(i + 1);
            assert(t.drop_last() =~= scene@.layers.take(i as int));
            assert(t.last() == scene.layers@[i as int]@);
            assert(sprites@ =~= all_prepared(t, dids@));
            assert(kept@ =~= all_kept_ids(t, dids@));
        }
        i += 1;
    }
    proof {
        assert(scene@.layers.take(scene@.layers.len() as int) =~= scene@.layers);
    }
    (layers, sprites, kept)
}

/// The positions of a group's sprites among the saved sprites.
fn prepare_members(members: &Vec<Id>, kept: &Vec<Id>) -> (r: Vec<u32>)
    requires
        kept@.len() <= u32::MAX,
    ensures
        r@ == prepared_members(members@, kept@),
{
    let mut r: Vec<u32> = Vec::new();
    let mut q: usize = 0;
    while q < members.len()
        invariant
            kept@.len() <= u32::MAX,
            0 <= q <= members@.len(),
            r@ == prepared_members(members@.take(q as int), kept@),
        decreases members@.len() - q,
    {
        proof {
            assert(members@.take(q + 1).drop_last() =~= members@.take(q as int));
            lemma_last_pos_bound(kept@, members@[q as int]);
        }
        match find_last(kept, members[q]) {
            Some(k) => r.push(k as u32),
            None => {},
        }
        q += 1;
    }
    assert(members@.take(members@.len() as int) =~= members@);
    r
}

/// The groups as saved, given the ids of the saved sprites; groups left
/// with no saved sprite are dropped.
pub fn prepare_groups(groups: &Vec<Group>, kept: &Vec<Id>) -> (r: Vec<SavedGroup>)
    requires
        kept@.len() <= u32::MAX,
    ensures
        r@.map_values(|g: SavedGroup| g.sprites@) == prepared_groups(
            groups@.map_values(|g: Group| g.sprites@),
            kept@,
        ),
{
    let ghost gs = groups@.map_values(|g: Group| g.sprites@);
    let mut r: Vec<SavedGroup> = Vec::new();
    let mut g: usize = 0;
    while g < groups.len()
        invariant
            kept@.len() <= u32::MAX,
            gs == groups@.map_values(|g: Group| g.sprites@),
            0 <= g <= groups@.len(),
            r@.map_values(|g: SavedGroup| g.sprites@) == prepared_groups(gs.take(g as int), kept@),
        decreases groups@.len() - g,
    {
        proof {
            assert(gs.take(g + 1).drop_last() =~= gs.take(g as int));
        }
        let m = prepare_members(&groups[g].sprites, kept);
        if m.len() > 0 {
            let ghost before = r@;
            r.push(SavedGroup { sprites: m });
            proof {
                assert(r@.map_values(|g: SavedGroup| g.sprites@) =~= before.map_values(
                    |g: SavedGroup| g.sprites@,
                ).push(m@));
            }
        }
        g += 1;
    }
    assert(gs.take(groups@.len() as int) =~= gs);
    r
}

/// `s` is what saving `scene` with its fog, drawings and groups gives.
pub open spec fn is_preparation(
    scene: SceneModel,
    fog: Fog,
    drawings: Seq<Drawing>,
    groups: Seq<Group>,
    s: &SavedScene,
) -> bool {
    &&& s.uuid == scene.uuid
    &&& s.title@ == scene.title
    &&& s.w == fog.w && s.h == fog.h
    &&& s.fog@ == fog.words()
    &&& s.fog_active == fog.active
    &&& s.layers@.len() == scene.layers.len()
    &&& forall|i: int|
        0 <= i < scene.layers.len() ==> {
            &&& (#[trigger] s.layers@[i]).title@ == scene.layers[i].title
            &&& s.layers@[i].z == scene.layers[i].z
            &&& s.layers@[i].visible == scene.layers[i].visible
            &&& s.layers@[i].locked == scene.layers[i].locked
        }
    &&& s.drawings@.len() == drawings.len()
    &&& forall|k: int|
        0 <= k < drawings.len() ==> {
            &&& (#[trigger] s.drawings@[k]).mode == mode_code(drawings[k].mode)
            &&& s.drawings@[k].points@ == drawings[k].points@
        }
    &&& s.sprites@ == all_prepared(scene.layers, drawing_ids(drawings))
    &&& s.groups@.map_values(|g: SavedGroup| g.sprites@) == prepared_groups(
        groups.map_values(|g: Group| g.sprites@),
        all_kept_ids(scene.layers, drawing_ids(drawings)),
    )
}

/// A scene can be saved: its drawings, layers and sprites can be counted
/// in a `u32`, as positions in a save are.
pub open spec fn preparable(scene: SceneModel, drawings: Seq<Drawing>) -> bool {
    &&& drawings.len() <= u32::MAX
    &&& scene.layers.len() <= u32::MAX
    &&& total_sprites(scene.layers) <= u32::MAX
}

/// What a scene keeps beside it for saving: its fog, drawings and groups.
pub struct SceneExtras {
    pub fog: Fog,
    pub drawings: Vec<Drawing>,
    pub groups: Vec<Group>,
}

/// Saves a project: its UUID, its title, and each scene with its fog,
/// drawings and groups, as `prepare_scene` saves it.
pub fn prepare_project(project: &Project, extras: &Vec<SceneExtras>) -> (s: SavedProject)
    requires
        extras@.len() == project.scenes@.len(),
        forall|i: int|
            0 <= i < project.scenes@.len() ==> preparable(
                #[trigger] project.scenes@[i]@,
                extras@[i].drawings@,
            ),
    ensures
        s.uuid == project.uuid,
        s.title@ == project.title@,
        s.scenes@.len() == project.scenes@.len(),
        forall|i: int|
            0 <= i < project.scenes@.len() ==> is_preparation(
                project.scenes@[i]@,
                extras@[i].fog,
                extras@[i].drawings@,
                extras@[i].groups@,
                &#[trigger] s.scenes@[i],
            ),
{
    let mut scenes: Vec<SavedScene> = Vec::new();
    let mut i: usize = 0;
    while i < project.scenes.len()
        invariant
            extras@.len() == project.scenes@.len(),
            forall|q: int|
                0 <= q < project.scenes@.len() ==> preparable(
                    #[trigger] project.scenes@[q]@,
                    extras@[q].drawings@,
                ),
            0 <= i <= project.scenes@.len(),
            scenes@.len() == i,
            forall|q: int|
                0 <= q < i ==> is_preparation(
                    project.scenes@[q]@,
                    extras@[q].fog,
                    extras@[q].drawings@,
                    extras@[q].groups@,
                    &#[trigger] scenes@[q],
                ),
        decreases project.scenes@.len() - i,
    {
        let ex = &extras[i];
        let sc = prepare_scene(&project.scenes[i], &ex.fog, &ex.drawings, &ex.groups);
        scenes.push(sc);
        i += 1;
    }
    SavedProject { uuid: project.uuid, title: project.title.clone(), scenes }
}

/// A scene as saved, with its fog, drawings and groups. Drawings are saved
/// in order; each sprite is saved under its layer's position, and dropped
/// when its drawing is missing; groups name their saved sprites by
/// position and are dropped when none is left.
pub fn prepare_scene(scene: &Scene, fog: &Fog, drawings: &Vec<Drawing>, groups: &Vec<Group>) -> (s:
    SavedScene)
    requires
        drawings@.len() <= u32::MAX,
        scene.layers@.len() <= u32::MAX,
        total_sprites(scene@.layers) <= u32::MAX,
    ensures
        is_preparation(scene@, *fog, drawings@, groups@, &s),
{
    let mut saved_drawings: Vec<SavedDrawing> = Vec::new();
    let mut dids: Vec<Id> = Vec::new();
    let mut k: usize = 0;
    while k < drawings.len()
        invariant
            0 <= k <= drawings@.len(),
            saved_drawings@.len() == k,
            dids@ == drawing_ids(drawings@).take(k as int),
            forall|q: int|
                0 <= q < k ==> {
                    &&& (#[trigger] saved_drawings@[q]).mode == mode_code(drawings@[q].mode)
                    &&& saved_drawings@[q].points@ == drawings@[q].points@
                },
        decreases drawings@.len() - k,
    {
        let d = &drawings[k];
        let points = d.points.clone();
        proof {
            assert(points@ =~= d.points@);
        }
        saved_drawings.push(SavedDrawing { mode: mode_to_u8(d.mode), points });
        dids.push(d.id);
        proof {
            assert(dids@ =~= drawing_ids(drawings@).take(k + 1));
        }
        k += 1;
    }
    proof {
        assert(dids@ =~= drawing_ids(drawings@));
    }
    let (layers, sprites, kept) = prepare_layers_sprites(scene, &dids);
    proof {
        lemma_all_prepared_len(scene@.layers, dids@);
    }
    let saved_groups = prepare_groups(groups, &kept);
    let fog_words = fog.fog.clone();
    proof {
        assert(fog_words@ =~= fog.words());
    }
    SavedScene {
        uuid: scene.uuid,
        title: scene.title.clone(),
        w: fog.w,
        h: fog.h,
        fog: fog_words,
        fog_active: fog.active,
        layers,
        drawings: saved_drawings,
        sprites,
        groups: saved_groups,
    }
}

} // verus!
