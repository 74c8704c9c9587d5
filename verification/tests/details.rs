use scene::comms::SceneEvent;
use scene::details::SpriteDetails;
use scene::geom::{Colour, Real, Rect};
use scene::sprite::{Cap, Shape, Sprite, Visual};

fn num(v: f32) -> Real {
    Real::from_bits(v.to_bits())
}

#[test]
fn test_details_from_and_common() {
    let mut a = Sprite::new(1, None);
    a.rect = Rect::new(num(1.0), num(2.0), num(3.0), num(4.0));
    let mut b = Sprite::new(2, None);
    b.rect = Rect::new(num(1.0), num(5.0), num(3.0), num(4.0));
    let mut d = SpriteDetails::from(1, &a);
    assert_eq!(d.shape, Some(Shape::Rectangle));
    assert!(d.texture.is_none());
    d.common(&b);
    assert!(d.x.unwrap().same_as(&num(1.0)));
    assert!(d.y.is_none());
    assert!(d.w.is_some() && d.h.is_some());
    assert_eq!(d.shape, Some(Shape::Rectangle));
    b.visual = Visual::Texture { shape: Shape::Ellipse, id: 3 };
    d.common(&b);
    assert!(d.shape.is_none());
    assert!(d.colour.is_none());
}

#[test]
fn test_details_update_sprite() {
    let mut sprite = Sprite::new(1, None);
    let mut d = SpriteDetails::new();
    d.x = Some(num(4.0));
    d.shape = Some(Shape::Hexagon);
    d.colour = Some(Colour([num(0.0), num(0.0), num(0.0), num(1.0)]));
    match d.update_sprite(&mut sprite) {
        Some(SceneEvent::EventSet(events)) => {
            assert_eq!(events.len(), 3);
            assert!(matches!(events[0], SceneEvent::SpriteMove(1, ..)));
            assert!(matches!(events[1], SceneEvent::SpriteVisual(1, ..)));
        }
        _ => panic!("expected a set of three"),
    }
    assert!(sprite.rect.x.same_as(&num(4.0)));
    assert_eq!(sprite.visual.shape(), Some(Shape::Hexagon));
    // Nothing known, nothing changes.
    assert!(SpriteDetails::new().update_sprite(&mut sprite).is_none());
    let mut only_x = SpriteDetails::new();
    only_x.x = Some(num(9.0));
    assert!(matches!(only_x.update_sprite(&mut sprite), Some(SceneEvent::SpriteMove(1, ..))));
}

#[test]
fn test_details_defaults_and_drawing() {
    let d = SpriteDetails::new();
    assert!(d.stroke().same_as(&num(0.2)));
    assert!(!d.solid());
    assert_eq!(d.cap_start(), Cap::Round);
    assert_eq!(d.cap_end(), Cap::Arrow);
    let mut thin = SpriteDetails::new();
    thin.stroke = Some(num(0.0));
    match thin.drawing() {
        Visual::Drawing { stroke, drawing: 0, .. } => assert!(stroke.same_as(&num(0.2))),
        _ => panic!("expected a drawing"),
    }
    thin.stroke = Some(num(0.5));
    match thin.drawing() {
        Visual::Drawing { stroke, .. } => assert!(stroke.same_as(&num(0.5))),
        _ => panic!("expected a drawing"),
    }
}

#[test]
fn test_details_update_from() {
    let mut d = SpriteDetails::new();
    d.x = Some(num(1.0));
    d.shape = Some(Shape::Ellipse);
    let mut other = SpriteDetails::new();
    other.id = 5;
    other.y = Some(num(2.0));
    d.update_from(&other);
    assert_eq!(d.id, 5);
    assert!(d.x.unwrap().same_as(&num(1.0)));
    assert!(d.y.unwrap().same_as(&num(2.0)));
    // The shape is taken even when open.
    assert!(d.shape.is_none());
}
