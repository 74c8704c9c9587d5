//! What the server says about projects and their scenes, and how a client
//! follows a save that gave them new UUIDs.

use vstd::prelude::*;

use crate::project::{scene_models, Project, ProjectModel};
use crate::scene::SceneModel;

verus! {

pub struct SceneListEntry {
    pub uuid: String,
    pub title: String,
    pub updated_time: u64,
    pub thumbnail: Option<String>,
}

pub struct ProjectListEntry {
    pub uuid: String,
    pub title: String,
    pub updated_time: u64,
    pub scene_list: Vec<SceneListEntry>,
}

pub struct ProjectResponse {
    pub message: String,
    pub success: bool,
    pub project: ProjectListEntry,
}

pub struct ProjectSaveResponse {
    pub message: String,
    pub success: bool,
    pub project_old: ProjectListEntry,
    pub project_new: ProjectListEntry,
}

pub struct ProjectListResponse {
    pub message: String,
    pub success: bool,
    pub list: Vec<ProjectListEntry>,
}

/// The UUID that `uuid::Uuid::parse_str` reads from a string, as a 128-bit
/// number; none where it refuses the string.
pub uninterp spec fn uuid_parse(s: Seq<char>) -> Option<u128>;

/// Calls `uuid::Uuid::parse_str`. What it reads depends on the characters
/// of the string alone; which strings it takes (plain, hyphenated, braced
/// or URN forms of 32 hexadecimal digits) is not stated.
#[verifier::external_body]
fn parse_uuid(s: &str) -> (r: Option<u128>)
    ensures
        r == uuid_parse(s@),
{
    match uuid::Uuid::parse_str(s) {
        Ok(u) => Some(u.as_u128()),
        Err(_) => None,
    }
}

/// The UUID a scene has after a save that listed it under `old` and then
/// under `new`: the new one when `old` names the scene and `new` reads.
pub open spec fn scene_uuid_after(cur: u128, old: Seq<char>, new: Seq<char>) -> u128 {
    if uuid_parse(old) == Some(cur) && uuid_parse(new) is Some {
        uuid_parse(new).unwrap()
    } else {
        cur
    }
}

/// The saved project is this one: the old entry names it and the new entry
/// reads.
pub open spec fn save_names_project(proj: ProjectModel, old: Seq<char>, new: Seq<char>) -> bool {
    uuid_parse(old) == Some(proj.uuid) && uuid_parse(new) is Some
}

/// The new UUID of the scene at position `i` after the save.
fn updated_scene_uuid(cur: u128, old: &SceneListEntry, new: &SceneListEntry) -> (u: u128)
    ensures
        u == scene_uuid_after(cur, old.uuid@, new.uuid@),
{
    match parse_uuid(old.uuid.as_str()) {
        Some(o) => if o == cur {
            match parse_uuid(new.uuid.as_str()) {
                Some(n) => n,
                None => cur,
            }
        } else {
            cur
        },
        None => cur,
    }
}

/// Follows a save that gave the project and its scenes new UUIDs, listed
/// in the entries from before and after the save. When the entry from
/// before names this project, the project takes the UUID of the entry from after,
/// and each scene, paired in order with the two scene lists, takes its new
/// UUID where the one from before names it. Otherwise nothing changes.
pub fn update_project_from_save(proj: &mut Project, before: ProjectListEntry, after: ProjectListEntry)
    ensures
        !save_names_project(old(proj)@, before.uuid@, after.uuid@) ==> final(proj)@ == old(proj)@,
        save_names_project(old(proj)@, before.uuid@, after.uuid@) ==> {
            &&& final(proj)@.uuid == uuid_parse(after.uuid@).unwrap()
            &&& final(proj)@.title == old(proj)@.title
            &&& final(proj)@.scenes.len() == old(proj)@.scenes.len()
            &&& forall|i: int|
                0 <= i < old(proj)@.scenes.len() ==> #[trigger] final(proj)@.scenes[i] == if i
                    < before.scene_list@.len() && i < after.scene_list@.len() {
                    SceneModel {
                        uuid: scene_uuid_after(
                            old(proj)@.scenes[i].uuid,
                            before.scene_list@[i].uuid@,
                            after.scene_list@[i].uuid@,
                        ),
                        ..old(proj)@.scenes[i]
                    }
                } else {
                    old(proj)@.scenes[i]
                }
        },
{
    let project_uuid = match parse_uuid(before.uuid.as_str()) {
        Some(u) => u,
        None => return,
    };
    if project_uuid != proj.uuid {
        return;
    }
    let new_uuid = match parse_uuid(after.uuid.as_str()) {
        Some(u) => u,
        None => return,
    };
    proj.uuid = new_uuid;
    let ghost orig = proj@.scenes;
    let n = proj.scenes.len();
    let mut i: usize = 0;
    while i < n && i < before.scene_list.len() && i < after.scene_list.len()
        invariant
            n == orig.len(),
            0 <= i <= n,
            i <= before.scene_list@.len() && i <= after.scene_list@.len(),
            proj@.uuid == new_uuid,
            proj@.title == old(proj)@.title,
            orig == old(proj)@.scenes,
            proj@.scenes.len() == n,
            forall|j: int|
                0 <= j < n ==> #[trigger] proj@.scenes[j] == if j < i {
                    SceneModel {
                        uuid: scene_uuid_after(orig[j].uuid, before.scene_list@[j].uuid@, after.scene_list@[j].uuid@),
                        ..orig[j]
                    }
                } else {
                    orig[j]
                },
        decreases n - i,
    {
        let ghost prior = proj.scenes@;
        let mut sc = proj.scenes.remove(i);
        proof {
            assert(scene_models(prior)[i as int] == sc@);
        }
        sc.uuid = updated_scene_uuid(sc.uuid, &before.scene_list[i], &after.scene_list[i]);
        proj.scenes.insert(i, sc);
        proof {
            assert forall|j: int| 0 <= j < n implies #[trigger] proj@.scenes[j] == if j < i + 1 {
                SceneModel {
                    uuid: scene_uuid_after(orig[j].uuid, before.scene_list@[j].uuid@, after.scene_list@[j].uuid@),
                    ..orig[j]
                }
            } else {
                orig[j]
            } by {
                if j != i {
                    assert(proj.scenes@[j] == prior[j]);
                    assert(scene_models(prior)[j] == prior[j]@);
                }
            }
        }
        i += 1;
    }
    proof {
        assert forall|j: int| 0 <= j < n implies #[trigger] proj@.scenes[j] == if j
            < before.scene_list@.len() && j < after.scene_list@.len() {
            SceneModel {
                uuid: scene_uuid_after(orig[j].uuid, before.scene_list@[j].uuid@, after.scene_list@[j].uuid@),
                ..orig[j]
            }
        } else {
            orig[j]
        } by {
            if j < i {
                assert(j < before.scene_list@.len() && j < after.scene_list@.len());
            } else {
                assert(!(j < before.scene_list@.len() && j < after.scene_list@.len()));
            }
        }
    }
}

} // verus!
