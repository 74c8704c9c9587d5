use scene::comms::SceneEvent;
use scene::geom::{Colour, Real};
use scene::group::Group;
use scene::sprite::{Cap, Shape, Sprite, Visual};

fn num(v: f32) -> Real {
    Real::from_bits(v.to_bits())
}

#[test]
fn test_shape_and_cap_names() {
    assert_eq!(Shape::from("Ellipse"), Shape::Ellipse);
    assert_eq!(Shape::from("HEXAGON"), Shape::Hexagon);
    assert_eq!(Shape::from("blob"), Shape::Rectangle);
    assert_eq!(Shape::Triangle.to_str(), "triangle");
    assert_eq!(Cap::from("Arrow"), Cap::Arrow);
    assert_eq!(Cap::from("round"), Cap::Round);
    assert_eq!(Cap::from("none"), Cap::Plain);
    assert_eq!(Cap::from("???"), Cap::Plain);
    assert_eq!(Cap::Plain.to_str(), "none");
}

#[test]
fn test_group_add_and_remove() {
    let mut group = Group::new(1, vec![3, 4]);
    assert!(group.includes(4));
    assert!(matches!(group.add(5), SceneEvent::GroupAdd(1, 5)));
    group.add(5);
    assert_eq!(group.sprites(), &[3, 4, 5]);
    assert!(matches!(group.remove(4), SceneEvent::GroupRemove(1, 4)));
    assert_eq!(group.sprites(), &[3, 5]);
    assert!(!group.includes(4));
}

#[test]
fn test_event_set_gathering() {
    assert!(SceneEvent::set(vec![]).is_none());
    assert!(matches!(SceneEvent::set(vec![SceneEvent::LayerRemove(2)]), Some(SceneEvent::LayerRemove(2))));
    match SceneEvent::set(vec![SceneEvent::LayerRemove(2), SceneEvent::SpriteRestore(3)]) {
        Some(SceneEvent::EventSet(events)) => assert_eq!(events.len(), 2),
        _ => panic!("expected a set"),
    }
}

#[test]
fn test_event_kinds_and_items() {
    let set = SceneEvent::EventSet(vec![SceneEvent::Dummy, SceneEvent::FogReveal(true, 1, 1)]);
    assert!(set.is_fog());
    assert!(!set.is_layer());
    assert_eq!(set.item(), None);
    let new = SceneEvent::SpriteNew(Sprite::new(9, None), 4);
    assert!(new.is_sprite());
    assert_eq!(new.item(), Some(9));
    assert_eq!(new.sprite(), Some(9));
    assert_eq!(new.layer(), Some(4));
    assert!(SceneEvent::SceneTitle(String::new(), String::new()).is_scene());
    assert_eq!(SceneEvent::LayerMove(7, 1, true).layer(), Some(7));
}

#[test]
fn test_sprite_setters() {
    let mut sprite = Sprite::new(1, None);
    let red = Colour([num(1.0), num(0.0), num(0.0), num(1.0)]);
    assert!(sprite.set_colour(red).is_some());
    assert!(sprite.visual.colour().unwrap().same_as(&red));
    assert!(sprite.set_shape(Shape::Ellipse).is_some());
    assert_eq!(sprite.visual.shape(), Some(Shape::Ellipse));
    match sprite.set_visual(Visual::Texture { shape: Shape::Hexagon, id: 3 }) {
        SceneEvent::SpriteVisual(1, _, Visual::Texture { id: 3, .. }) => {}
        _ => panic!("unexpected event"),
    }
    // A texture has no colour to change.
    assert!(sprite.set_colour(red).is_none());
    assert_eq!(sprite.visual.texture(), Some(3));
}
