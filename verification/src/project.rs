//! A project: a titled collection of scenes, each known by its UUID.

use vstd::prelude::*;
use vstd::string::*;

use crate::scene::{default_layers, Scene, SceneModel};

verus! {

pub struct Project {
    /// The project's UUID, as a 128-bit number.
    pub uuid: u128,
    pub title: String,
    pub scenes: Vec<Scene>,
}

pub struct ProjectModel {
    pub uuid: u128,
    pub title: Seq<char>,
    pub scenes: Seq<SceneModel>,
}

/// The models of a sequence of scenes.
pub open spec fn scene_models(v: Seq<Scene>) -> Seq<SceneModel> {
    v.map_values(|s: Scene| s@)
}

impl View for Project {
    type V = ProjectModel;

    open spec fn view(&self) -> ProjectModel {
        ProjectModel { uuid: self.uuid, title: self.title@, scenes: scene_models(self.scenes@) }
    }
}

/// A new scene with the given UUID: three default layers, no title, 32 by
/// 32 tiles.
pub open spec fn fresh_scene(uuid: u128) -> SceneModel {
    SceneModel {
        canon: false,
        next_id: 4,
        id: None,
        uuid,
        layers: default_layers(),
        removed_layers: Seq::empty(),
        title: Seq::empty(),
        project: None,
        w: 32,
        h: 32,
    }
}

/// The first position in `s` of a scene with the given UUID.
pub open spec fn scene_pos(s: Seq<SceneModel>, uuid: u128) -> Option<int>
    decreases s.len(),
{
    if s.len() == 0 {
        None
    } else {
        match scene_pos(s.drop_last(), uuid) {
            Some(i) => Some(i),
            None => if s.last().uuid == uuid {
                Some(s.len() - 1)
            } else {
                None
            },
        }
    }
}

pub proof fn lemma_scene_pos(s: Seq<SceneModel>, uuid: u128)
    ensures
        scene_pos(s, uuid) matches Some(p) ==> 0 <= p < s.len() && s[p].uuid == uuid && forall|j: int|
            0 <= j < p ==> s[j].uuid != uuid,
        scene_pos(s, uuid) is None ==> forall|j: int| 0 <= j < s.len() ==> s[j].uuid != uuid,
    decreases s.len(),
{
    if s.len() > 0 {
        lemma_scene_pos(s.drop_last(), uuid);
        assert forall|j: int| 0 <= j < s.len() - 1 implies s.drop_last()[j] == s[j] by {}
    }
}

/// A new scene with the given UUID.
fn make_scene(uuid: u128) -> (sc: Scene)
    ensures
        sc@ == fresh_scene(uuid),
{
    let mut sc = Scene::new();
    sc.uuid = uuid;
    assert(sc@.title =~= Seq::<char>::empty());
    assert(sc@.removed_layers =~= Seq::<crate::layer::LayerModel>::empty());
    sc
}

/// Position of the first scene with the given UUID.
fn scene_index(v: &Vec<Scene>, uuid: u128) -> (i: Option<usize>)
    ensures
        match scene_pos(scene_models(v@), uuid) {
            Some(p) => i matches Some(j) && j as int == p,
            None => i is None,
        },
{
    let ghost m = scene_models(v@);
    let mut i: usize = 0;
    while i < v.len()
        invariant
            m == scene_models(v@),
            0 <= i <= v@.len(),
            scene_pos(m.take(i as int), uuid) is None,
        decreases v@.len() - i,
    {
        proof {
            assert(m.take(i + 1).drop_last() =~= m.take(i as int));
        }
        if v[i].uuid == uuid {
            proof {
                lemma_scene_pos_prefix(m, i + 1, uuid);
            }
            return Some(i);
        }
        i += 1;
    }
    proof {
        assert(m.take(i as int) =~= m);
    }
    None
}

proof fn lemma_scene_pos_prefix(s: Seq<SceneModel>, k: int, uuid: u128)
    requires
        0 < k <= s.len(),
        scene_pos(s.take(k), uuid) is Some,
    ensures
        scene_pos(s, uuid) == scene_pos(s.take(k), uuid),
    decreases s.len() - k,
{
    if k < s.len() {
        assert(s.take(k + 1).drop_last() =~= s.take(k));
        lemma_scene_pos_prefix(s, k + 1, uuid);
    } else {
        assert(s.take(k) =~= s);
    }
}

/// The scenes other than those with the given UUID.
pub open spec fn scenes_without(s: Seq<SceneModel>, uuid: u128) -> Seq<SceneModel> {
    s.filter(|x: SceneModel| x.uuid != uuid)
}

impl Project {
    /// An empty project called "Untitled".
    pub fn new(uuid: u128) -> (p: Project)
        ensures
            p@ == (ProjectModel { uuid, title: "Untitled"@, scenes: Seq::empty() }),
    {
        let p = Project { uuid, title: "Untitled".to_owned(), scenes: Vec::new() };
        assert(p@.scenes =~= Seq::<SceneModel>::empty());
        p
    }

    /// The same project under another UUID.
    pub fn with_uuid(self, uuid: u128) -> (p: Project)
        ensures
            p@ == (ProjectModel { uuid, ..self@ }),
    {
        Project { uuid, title: self.title, scenes: self.scenes }
    }

    /// An empty project with the given title.
    pub fn titled(uuid: u128, title: String) -> (p: Project)
        ensures
            p@ == (ProjectModel { uuid, title: title@, scenes: Seq::empty() }),
    {
        let p = Project { uuid, title, scenes: Vec::new() };
        assert(p@.scenes =~= Seq::<SceneModel>::empty());
        p
    }

    /// Adds a new scene with the given UUID at the end, returning it. The
    /// caller picks a fresh UUID.
    pub fn new_scene(&mut self, uuid: u128) -> (sc: &Scene)
        ensures
            final(self)@ == (ProjectModel { scenes: old(self)@.scenes.push(fresh_scene(uuid)), ..old(self)@ }),
            sc@ == fresh_scene(uuid),
    {
        let sc = make_scene(uuid);
        self.scenes.push(sc);
        proof {
            assert(scene_models(self.scenes@) =~= scene_models(old(self).scenes@).push(fresh_scene(uuid)));
        }
        let n = self.scenes.len();
        &self.scenes[n - 1]
    }

    /// The first scene with the given UUID.
    pub fn get_scene(&self, scene: u128) -> (sc: Option<&Scene>)
        ensures
            match scene_pos(self@.scenes, scene) {
                Some(p) => sc matches Some(s) && s@ == self@.scenes[p],
                None => sc is None,
            },
    {
        match scene_index(&self.scenes, scene) {
            Some(i) => {
                proof {
                    lemma_scene_pos(self@.scenes, scene);
                }
                Some(&self.scenes[i])
            },
            None => None,
        }
    }

    /// Deletes every scene with the given UUID; an error when there is none.
    pub fn delete_scene(&mut self, scene: u128) -> (r: Result<(), String>)
        ensures
            final(self)@ == (ProjectModel { scenes: scenes_without(old(self)@.scenes, scene), ..old(self)@ }),
            scene_pos(old(self)@.scenes, scene) is Some ==> r is Ok,
            scene_pos(old(self)@.scenes, scene) is None ==> (r matches Err(msg) && msg@ == "Scene not found"@),
    {
        let ghost orig = self@.scenes;
        let mut src: Vec<Scene> = Vec::new();
        std::mem::swap(&mut src, &mut self.scenes);
        let n = src.len();
        let mut kept: Vec<Scene> = Vec::new();
        let mut i: usize = 0;
        while src.len() > 0
            invariant
                n == orig.len(),
                i + src@.len() == n,
                scene_models(src@) == orig.skip(i as int),
                scene_models(kept@) == scenes_without(orig.take(i as int), scene),
                kept@.len() <= i,
                scene_pos(orig.take(i as int), scene) is None ==> kept@.len() == i,
                scene_pos(orig.take(i as int), scene) is Some ==> kept@.len() < i,
            decreases src@.len(),
        {
            let ghost before = src@;
            let sc = src.remove(0);
            proof {
                reveal_with_fuel(Seq::<_>::filter, 1);
                assert(orig.take(i + 1).drop_last() =~= orig.take(i as int));
                assert(sc@ == orig[i as int]) by {
                    assert(scene_models(before)[0] == orig.skip(i as int)[0]);
                }
                assert forall|j: int| 0 <= j < src@.len() implies #[trigger] src@[j]@ == orig[i + 1
                    + j] by {
                    assert(src@[j] == before[j + 1]);
                    assert(scene_models(before)[j + 1] == orig.skip(i as int)[j + 1]);
                }
                assert(scene_models(src@) =~= orig.skip(i + 1));
            }
            if sc.uuid != scene {
                kept.push(sc);
                proof {
                    assert(scene_models(kept@) =~= scenes_without(orig.take(i + 1), scene));
                }
            }
            i += 1;
        }
        proof {
            assert(orig.take(n as int) =~= orig);
        }
        let found = kept.len() < n;
        self.scenes = kept;
        if found {
            Ok(())
        } else {
            Err("Scene not found".to_owned())
        }
    }

    /// Puts `scene` in the place of the first scene with its UUID; an error
    /// when there is none.
    pub fn update_scene(&mut self, scene: Scene) -> (r: Result<(), String>)
        ensures
            match scene_pos(old(self)@.scenes, scene.uuid) {
                Some(p) => final(self)@ == (ProjectModel {
                    scenes: old(self)@.scenes.update(p, scene@),
                    ..old(self)@
                }) && r is Ok,
                None => final(self)@ == old(self)@ && (r matches Err(msg) && msg@ == "Scene not found"@),
            },
    {
        match scene_index(&self.scenes, scene.uuid) {
            Some(i) => {
                proof {
                    lemma_scene_pos(self@.scenes, scene.uuid);
                }
                let ghost before = self.scenes@;
                self.scenes.remove(i);
                self.scenes.insert(i, scene);
                proof {
                    assert(scene_models(self.scenes@) =~= scene_models(before).update(i as int, scene@));
                }
                Ok(())
            },
            None => Err("Scene not found".to_owned()),
        }
    }

    /// The first scene, after adding one with the given UUID when there is
    /// none.
    pub fn default_scene(&mut self, uuid: u128) -> (sc: &Scene)
        ensures
            old(self)@.scenes.len() == 0 ==> final(self)@ == (ProjectModel {
                scenes: seq![fresh_scene(uuid)],
                ..old(self)@
            }),
            old(self)@.scenes.len() > 0 ==> final(self)@ == old(self)@,
            sc@ == final(self)@.scenes[0],
    {
        if self.scenes.len() == 0 {
            let sc = make_scene(uuid);
            self.scenes.push(sc);
            proof {
                assert(scene_models(self.scenes@) =~= seq![fresh_scene(uuid)]);
            }
        }
        &self.scenes[0]
    }
}

} // verus!
