use scene::client::{client_step, ClientAction, ClientState};
use scene::comms::{PermsEvent, SceneEvent, ServerEvent};
use scene::geom::Rect;
use scene::perms::{Perms, Role, CANONICAL_UPDATER};
use scene::scene::Scene;

fn keep(cur: Rect, _from: Rect, _to: Rect) -> Rect {
    cur
}

#[test]
fn test_client_starts_as_owner() {
    let c = ClientState::new(true);
    assert_eq!(c.role, Role::Owner);
    assert_eq!(c.user, CANONICAL_UPDATER);
    assert_eq!(c.selected_layer, c.scene.layers[0].id);
    assert!(c.changes.layer && c.changes.sprite && c.changes.selected);
}

#[test]
fn test_approval_and_rejection() {
    let mut c = ClientState::new(true);
    let layer = c.scene.first_layer();
    // The client locked a layer and asked the server twice.
    c.scene.set_layer_locked(layer, true);
    let first = c.history.issue_event(SceneEvent::LayerLocked(layer, true)).unwrap();
    let second = c.history.issue_event(SceneEvent::LayerRename(layer, "a".to_string(), "b".to_string())).unwrap();
    assert_eq!(c.history.issued_events.len(), 2);
    assert!(matches!(client_step(&mut c, ServerEvent::Approval(second.id), keep), ClientAction::Nothing));
    assert_eq!(c.history.issued_events.len(), 1);
    // The lock is refused: it is undone.
    c.changes.layer = false;
    assert!(matches!(client_step(&mut c, ServerEvent::Rejection(first.id), keep), ClientAction::Nothing));
    assert_eq!(c.history.issued_events.len(), 0);
    assert!(!c.scene.layers[0].locked);
    assert!(c.changes.layer && c.changes.sprite && c.changes.selected);
    // An unknown request changes nothing.
    assert!(matches!(client_step(&mut c, ServerEvent::Rejection(99), keep), ClientAction::Nothing));
}

#[test]
fn test_roles_follow_permissions() {
    let mut c = ClientState::new(true);
    client_step(&mut c, ServerEvent::UserId(5), keep);
    assert_eq!(c.user, 5);
    assert_eq!(c.role, Role::Spectator);
    client_step(&mut c, ServerEvent::PermsUpdate(PermsEvent::RoleChange(5, Role::Player)), keep);
    assert_eq!(c.role, Role::Player);
    let mut p = Perms::new();
    p.set_role(5, Role::Editor);
    client_step(&mut c, ServerEvent::PermsChange(p), keep);
    assert_eq!(c.role, Role::Editor);
}

#[test]
fn test_scene_messages() {
    let mut c = ClientState::new(true);
    client_step(&mut c, ServerEvent::SelectedLayer(3), keep);
    assert_eq!(c.selected_layer, 3);
    c.changes.layer = false;
    let layer = c.scene.first_layer();
    client_step(&mut c, ServerEvent::SceneUpdate(SceneEvent::LayerLocked(layer, true)), keep);
    assert!(c.scene.layers[0].locked);
    assert!(c.changes.layer);
    let mut other = Scene::new();
    other.title = "Other".to_string();
    c.selected_sprites.push(8);
    client_step(&mut c, ServerEvent::SceneChange(Box::new(other)), keep);
    assert_eq!(c.scene.title, "Other");
    assert!(c.selected_sprites.is_empty());
    match client_step(&mut c, ServerEvent::SceneList(vec![("A".to_string(), 1)], 1), keep) {
        ClientAction::SceneList(list, current) => {
            assert_eq!(list.len(), 1);
            assert_eq!(current, 1);
        }
        _ => panic!("expected the scene list"),
    }
}

#[test]
fn test_game_over_within_a_set() {
    let mut c = ClientState::new(true);
    let set = ServerEvent::EventSet(vec![
        ServerEvent::SelectedLayer(2),
        ServerEvent::GameOver,
        ServerEvent::SceneList(vec![], 0),
    ]);
    assert!(matches!(client_step(&mut c, set, keep), ClientAction::GameOver));
    assert_eq!(c.selected_layer, 2);
    let quiet = ServerEvent::EventSet(vec![ServerEvent::HealthCheck, ServerEvent::SceneList(vec![], 0)]);
    assert!(matches!(client_step(&mut c, quiet, keep), ClientAction::Nothing));
}
