use scene::project::Project;
use scene::scene::Scene;
use scene::requests::{update_project_from_save, ProjectListEntry, SceneListEntry};

fn scene_entry(uuid: &str) -> SceneListEntry {
    SceneListEntry { uuid: uuid.to_string(), title: String::new(), updated_time: 0, thumbnail: None }
}

fn project_entry(uuid: &str, scenes: Vec<SceneListEntry>) -> ProjectListEntry {
    ProjectListEntry { uuid: uuid.to_string(), title: String::new(), updated_time: 0, scene_list: scenes }
}

#[test]
fn test_project_scenes() {
    let mut project = Project::new(1);
    assert_eq!(project.title, "Untitled");
    assert_eq!(project.new_scene(10).uuid, 10);
    project.new_scene(11);
    assert_eq!(project.scenes.len(), 2);
    assert!(project.get_scene(11).is_some());
    assert!(project.get_scene(12).is_none());

    let mut changed = Scene::new();
    changed.uuid = 11;
    changed.w = 50;
    assert!(project.update_scene(changed).is_ok());
    assert_eq!(project.get_scene(11).unwrap().w, 50);

    assert_eq!(project.delete_scene(12), Err("Scene not found".to_string()));
    assert_eq!(project.delete_scene(10), Ok(()));
    assert_eq!(project.scenes.len(), 1);
    assert_eq!(project.default_scene(99).uuid, 11);
}

#[test]
fn test_default_scene_of_empty_project() {
    let mut project = Project::titled(5, "Campaign".to_string());
    assert_eq!(project.default_scene(7).uuid, 7);
    assert_eq!(project.scenes.len(), 1);
    let renamed = project.with_uuid(6);
    assert_eq!(renamed.uuid, 6);
    assert_eq!(renamed.title, "Campaign");
}

#[test]
fn test_update_project_from_save() {
    let old_p = "00000000-0000-0000-0000-000000000001";
    let new_p = "00000000-0000-0000-0000-000000000002";
    let mut project = Project::new(1);
    project.new_scene(0x10);
    project.new_scene(0x20);
    project.new_scene(0x30);
    let before = project_entry(
        old_p,
        vec![scene_entry("00000000000000000000000000000010"), scene_entry("99999999999999999999999999999999")],
    );
    let after = project_entry(
        new_p,
        vec![scene_entry("00000000000000000000000000000011"), scene_entry("00000000000000000000000000000021")],
    );
    update_project_from_save(&mut project, before, after);
    assert_eq!(project.uuid, 2);
    assert_eq!(project.scenes[0].uuid, 0x11);
    // The second entry from before does not name the second scene.
    assert_eq!(project.scenes[1].uuid, 0x20);
    // The third scene is not listed.
    assert_eq!(project.scenes[2].uuid, 0x30);
}

#[test]
fn test_update_project_from_save_other_project() {
    let mut project = Project::new(1);
    project.new_scene(0x10);
    let before = project_entry("00000000-0000-0000-0000-000000000003", vec![]);
    let after = project_entry("00000000-0000-0000-0000-000000000004", vec![]);
    update_project_from_save(&mut project, before, after);
    assert_eq!(project.uuid, 1);
    let before = project_entry("not a uuid", vec![]);
    let after = project_entry("00000000-0000-0000-0000-000000000004", vec![]);
    update_project_from_save(&mut project, before, after);
    assert_eq!(project.uuid, 1);
}
