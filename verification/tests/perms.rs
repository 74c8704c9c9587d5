use scene::comms::{PermsEvent, SceneEvent};
use scene::geom::{Point, Real, Rect};
use scene::perms::{Override, Perms, Role, CANONICAL_UPDATER};
use scene::sprite::Sprite;

fn num(v: f32) -> Real {
    Real::from_bits(v.to_bits())
}

#[test]
fn test_role_precedence() {
    assert!(Role::Owner > Role::Editor);
    assert!(Role::Editor > Role::Player);
    assert!(Role::Player > Role::Spectator);
}

#[test]
fn test_override_handling() {
    let user = 123;
    let layer = 1;
    let sprite = 2;
    let mut perms = Perms::new();

    // User is a player.
    perms.role_change(CANONICAL_UPDATER, user, Role::Player);

    // User is granted permission over their layer.
    assert!(perms.grant_override(user, layer).is_some());

    // User should not be able to create a sprite on a layer they don't own.
    assert!(!perms.permitted(user, &SceneEvent::SpriteNew(Sprite::new(4, None), 3), Some(3)));

    // User should be able to create a sprite in their layer.
    let sprite_event = SceneEvent::SpriteNew(Sprite::new(sprite, None), layer);
    assert!(perms.permitted(user, &sprite_event, Some(layer)));

    // User should be able to modify the sprite.
    assert!(perms.permitted(
        user,
        &SceneEvent::SpriteMove(
            sprite,
            Rect::new(num(1.), num(1.), num(1.), num(1.)),
            Rect::new(num(0.), num(1.), num(1.), num(1.))
        ),
        Some(layer)
    ));

    // User to be able to remove this sprite, or any sprite from their
    // layer, but not from other layers. Other users should not by default
    // be permitted to remove sprites from this users layer.
    assert!(perms.permitted(user, &SceneEvent::SpriteRemove(sprite, layer), Some(layer)));
    assert!(perms.permitted(user, &SceneEvent::SpriteRemove(5, layer), Some(layer)));
    assert!(!perms.permitted(user, &SceneEvent::SpriteRemove(6, 7), Some(7)));
    assert!(!perms.permitted(124, &SceneEvent::SpriteRemove(sprite, layer), Some(layer)));
}

#[test]
fn test_drawing_handling() {
    let user = 1;
    let drawing = 2;
    let sprite = 3;
    let layer = 4;

    let mut perms = Perms::new();
    perms.role_change(CANONICAL_UPDATER, user, Role::Player);
    assert!(perms.grant_override(user, layer).is_some());
    assert!(perms.permitted(user, &SceneEvent::SpriteDrawingPoint(drawing, Point::same(num(1.))), None));
    assert!(perms.permitted(user, &SceneEvent::SpriteDrawingFinish(drawing, sprite), Some(layer)));
}

#[test]
fn test_selectability() {
    let owner = 1;
    let player = 2;
    let sprite = 3;
    let layer = 4;

    let mut perms = Perms::new();
    perms.set_owner(owner);
    perms.role_change(CANONICAL_UPDATER, player, Role::Player);
    assert!(perms.selectable(owner, sprite, layer));
    assert!(!perms.selectable(player, sprite, layer));
}

#[test]
fn test_owner_role_is_irrevocable() {
    let mut perms = Perms::new();
    perms.set_owner(9);
    assert!(perms.role_change(CANONICAL_UPDATER, 9, Role::Spectator).is_none());
    assert_eq!(perms.get_role(9), Role::Owner);
    // Nobody is made an owner by a role change.
    assert!(perms.role_change(CANONICAL_UPDATER, 5, Role::Owner).is_none());
    assert_eq!(perms.get_role(5), Role::Spectator);
}

#[test]
fn test_role_change_needs_standing() {
    let mut perms = Perms::new();
    perms.role_change(CANONICAL_UPDATER, 1, Role::Editor);
    perms.role_change(CANONICAL_UPDATER, 2, Role::Player);
    // A player cannot promote anyone to editor, nor demote an editor.
    assert!(perms.role_change(2, 3, Role::Editor).is_none());
    assert!(perms.role_change(2, 1, Role::Spectator).is_none());
    // An editor can make a player a spectator.
    match perms.role_change(1, 2, Role::Spectator) {
        Some(PermsEvent::RoleChange(user, role)) => {
            assert_eq!(user, 2);
            assert_eq!(role, Role::Spectator);
        }
        _ => panic!("the editor's change was refused"),
    }
    assert_eq!(perms.get_role(2), Role::Spectator);
}

#[test]
fn test_only_owner_handles_editor_role() {
    let mut perms = Perms::new();
    perms.role_change(CANONICAL_UPDATER, 1, Role::Editor);
    perms.role_change(CANONICAL_UPDATER, 2, Role::Editor);
    perms.role_change(CANONICAL_UPDATER, 6, Role::Player);
    // An editor neither grants the editor role nor changes another editor.
    assert!(perms.role_change(1, 6, Role::Editor).is_none());
    assert_eq!(perms.get_role(6), Role::Player);
    assert!(perms.role_change(1, 2, Role::Player).is_none());
    assert_eq!(perms.get_role(2), Role::Editor);
    // The owner does both.
    assert!(perms.role_change(CANONICAL_UPDATER, 6, Role::Editor).is_some());
    assert!(perms.role_change(CANONICAL_UPDATER, 2, Role::Player).is_some());
    assert_eq!(perms.get_role(6), Role::Editor);
    assert_eq!(perms.get_role(2), Role::Player);
}

#[test]
fn test_grant_override_once() {
    let mut perms = Perms::new();
    assert!(perms.grant_override(4, 8).is_some());
    assert!(perms.grant_override(4, 8).is_none());
    // Only editors may issue overrides through an event.
    assert!(!perms.handle_event(4, PermsEvent::NewOverride(Override::new(4, 9))));
    assert!(perms.handle_event(CANONICAL_UPDATER, PermsEvent::NewOverride(Override::new(4, 9))));
    assert!(perms.selectable(4, 9, 1));
}

#[test]
fn test_event_set_permitted_only_when_all_are() {
    let mut perms = Perms::new();
    perms.role_change(CANONICAL_UPDATER, 1, Role::Player);
    perms.grant_override(1, 10);
    let ok = SceneEvent::EventSet(vec![
        SceneEvent::SpriteRemove(3, 10),
        SceneEvent::SpriteRemove(4, 10),
    ]);
    assert!(perms.permitted(1, &ok, Some(10)));
    let mixed = SceneEvent::EventSet(vec![
        SceneEvent::SpriteRemove(3, 10),
        SceneEvent::SceneDimensions(1, 1, 2, 2),
    ]);
    assert!(!perms.permitted(1, &mixed, Some(10)));
}
