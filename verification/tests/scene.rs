use scene::comms::SceneEvent;
use scene::geom::{Real, Rect};
use scene::layer::Layer;
use scene::scene::Scene;
use scene::sprite::{Sprite, Visual};

fn num(v: f32) -> Real {
    Real::from_bits(v.to_bits())
}

fn val(r: Real) -> f32 {
    f32::from_bits(r.bits)
}

fn rect(x: f32, y: f32, w: f32, h: f32) -> Rect {
    Rect::new(num(x), num(y), num(w), num(h))
}

/// Moves a rectangle back by the move from `from` to `to`.
fn shift_back(cur: Rect, from: Rect, to: Rect) -> Rect {
    rect(
        val(cur.x) - (val(to.x) - val(from.x)),
        val(cur.y) - (val(to.y) - val(from.y)),
        val(cur.w) - (val(to.w) - val(from.w)),
        val(cur.h) - (val(to.h) - val(from.h)),
    )
}

fn layer_zs(s: &Scene) -> Vec<i32> {
    s.layers.iter().map(|l| l.z).collect()
}

fn layer_ids(s: &Scene) -> Vec<i64> {
    s.layers.iter().map(|l| l.id).collect()
}

#[test]
fn test_layer_move() {
    let mut scene = Scene::new();

    let starting_zs: Vec<i32> = layer_zs(&scene);

    let top_layer = scene.layers[0].id;

    let event = scene.move_layer(top_layer, false).unwrap();
    assert_eq!(vec![-1, -2, -3], layer_zs(&scene));

    scene.unwind_event(event, shift_back);
    assert_eq!(starting_zs, layer_zs(&scene));
}

#[test]
fn test_new_scene_layers() {
    let scene = Scene::new();
    assert_eq!(layer_zs(&scene), vec![1, -1, -2]);
    assert_eq!(layer_ids(&scene), vec![1, 2, 3]);
    assert_eq!(scene.layers[0].title, "Foreground");
    assert_eq!(scene.first_layer(), 1);
    assert_eq!(scene.next_id, 4);
    assert_eq!((scene.w, scene.h), (32, 32));
}

#[test]
fn test_move_layer_across_grid_and_back() {
    let mut scene = Scene::new();
    // Scenery (id 2) is the first layer below the grid; moving it up takes
    // it above the grid.
    let event = scene.move_layer(2, true).unwrap();
    match event {
        SceneEvent::LayerMove(id, z, up) => {
            assert_eq!((id, z, up), (2, -1, true));
        }
        _ => panic!("unexpected event"),
    }
    assert_eq!(layer_ids(&scene), vec![1, 2, 3]);
    assert_eq!(layer_zs(&scene), vec![2, 1, -1]);
    scene.move_layer(2, false).unwrap();
    assert_eq!(layer_zs(&scene), vec![1, -1, -2]);
    // Swapping two layers on the same side of the grid.
    scene.move_layer(3, true).unwrap();
    assert_eq!(layer_ids(&scene), vec![1, 3, 2]);
    assert_eq!(layer_zs(&scene), vec![1, -1, -2]);
    // The top layer above the grid cannot move further up.
    assert!(scene.move_layer(1, true).is_none());
    assert!(scene.move_layer(99, true).is_none());
}

#[test]
fn test_add_layer_sorts_and_refuses_duplicates() {
    let mut scene = Scene::new();
    match scene.add_layer(Layer::new(10, "Top", 50)) {
        Some(SceneEvent::LayerNew(id, title, z)) => {
            assert_eq!(id, 10);
            assert_eq!(title, "Top");
            assert_eq!(z, 2);
        }
        _ => panic!("layer not added"),
    }
    assert_eq!(layer_ids(&scene), vec![10, 1, 2, 3]);
    assert_eq!(layer_zs(&scene), vec![2, 1, -1, -2]);
    assert!(scene.add_layer(Layer::new(10, "Again", 0)).is_none());
    assert_eq!(scene.layers.len(), 4);
}

#[test]
fn test_remove_and_restore_layer() {
    let mut scene = Scene::new();
    match scene.remove_layer(2) {
        Some(SceneEvent::LayerRemove(2)) => {}
        _ => panic!("layer not removed"),
    }
    assert_eq!(layer_ids(&scene), vec![1, 3]);
    assert_eq!(scene.removed_layers.len(), 1);
    assert!(scene.remove_layer(2).is_none());
    match scene.restore_layer(2) {
        Some(SceneEvent::LayerRestore(2)) => {}
        _ => panic!("layer not restored"),
    }
    assert_eq!(layer_ids(&scene), vec![1, 2, 3]);
    assert_eq!(layer_zs(&scene), vec![1, -1, -2]);
    assert!(scene.removed_layers.is_empty());
}

#[test]
fn test_rename_and_flags() {
    let mut scene = Scene::new();
    match scene.rename_layer(3, "Floor".to_string()) {
        Some(SceneEvent::LayerRename(3, old, new)) => {
            assert_eq!(old, "Background");
            assert_eq!(new, "Floor");
        }
        _ => panic!("layer not renamed"),
    }
    assert!(scene.set_layer_locked(3, true).is_some());
    assert!(scene.set_layer_locked(3, true).is_none());
    assert!(scene.set_layer_visible(3, false).is_some());
    assert!(scene.layers[2].locked && !scene.layers[2].visible);
    assert!(scene.rename_layer(42, "Nothing".to_string()).is_none());
}

#[test]
fn test_new_with_layers_normalises() {
    let layers = vec![
        Layer::new(5, "Low", -7),
        Layer::new(6, "High", 9),
        Layer::new(7, "Middle", 3),
    ];
    let scene = Scene::new_with_layers(layers);
    assert_eq!(layer_ids(&scene), vec![6, 7, 5]);
    assert_eq!(layer_zs(&scene), vec![2, 1, -1]);
    assert_eq!(scene.next_id, 8);
}

#[test]
fn test_sprites_on_layers() {
    let mut scene = Scene::new();
    let event = scene.new_sprite(None, 2).unwrap();
    let id = match event {
        SceneEvent::SpriteNew(s, 2) => s.id,
        _ => panic!("sprite not added"),
    };
    assert_eq!(id, 4);
    assert_eq!(scene.next_id, 5);
    assert_eq!(scene.get_sprite_layer(id), Some(2));
    assert_eq!(scene.sprite_ref(id).unwrap().id, id);
    // No layer 77: the event is refused but the id is used up.
    assert!(scene.new_sprite(None, 77).is_none());
    assert_eq!(scene.next_id, 6);

    match scene.sprite_layer(id, 3) {
        Some(SceneEvent::SpriteLayer(s, from, to)) => assert_eq!((s, from, to), (id, 2, 3)),
        _ => panic!("sprite not moved"),
    }
    assert_eq!(scene.get_sprite_layer(id), Some(3));

    match scene.remove_sprite(id) {
        Some(SceneEvent::SpriteRemove(s, l)) => assert_eq!((s, l), (id, 3)),
        _ => panic!("sprite not removed"),
    }
    assert!(scene.sprite_ref(id).is_none());
    match scene.restore_sprite(id) {
        Some(SceneEvent::SpriteRestore(s)) => assert_eq!(s, id),
        _ => panic!("sprite not restored"),
    }
    assert_eq!(scene.get_sprite_layer(id), Some(3));
}

#[test]
fn test_remove_sprites_gathers_events() {
    let mut scene = Scene::new();
    scene.add_sprite(Sprite::new(20, None), 1);
    scene.add_sprite(Sprite::new(21, None), 3);
    match scene.remove_sprites(&[20, 99, 21]) {
        SceneEvent::EventSet(events) => {
            assert_eq!(events.len(), 2);
            assert!(matches!(events[0], SceneEvent::SpriteRemove(20, 1)));
            assert!(matches!(events[1], SceneEvent::SpriteRemove(21, 3)));
        }
        _ => panic!("expected a set"),
    }
}

#[test]
fn test_clone_sprite() {
    let mut scene = Scene::new();
    scene.add_sprite(Sprite::new(30, None), 1);
    let moved = rect(1.0, 1.0, 1.0, 1.0);
    match scene.clone_sprite(30, moved) {
        Some(SceneEvent::SpriteNew(s, 1)) => {
            assert_eq!(s.id, 4);
            assert!(s.rect.same_as(&moved));
        }
        _ => panic!("sprite not cloned"),
    }
    assert!(scene.clone_sprite(31, moved).is_none());
}

#[test]
fn test_apply_event_set_stops_at_refusal() {
    let mut scene = Scene::new();
    let set = SceneEvent::EventSet(vec![
        SceneEvent::SceneDimensions(32, 32, 40, 40),
        SceneEvent::SceneDimensions(1, 1, 2, 2),
        SceneEvent::SceneTitle(String::new(), "Never".to_string()),
    ]);
    assert!(!scene.apply_event(set));
    assert_eq!((scene.w, scene.h), (40, 40));
    assert_eq!(scene.title, "");
    assert!(scene.apply_event(SceneEvent::SceneTitle(String::new(), "Cave".to_string())));
    assert_eq!(scene.title, "Cave");
    assert!(!scene.apply_event(SceneEvent::SceneTitle("Other".to_string(), "X".to_string())));
}

#[test]
fn test_apply_sprite_events() {
    let mut scene = Scene::new();
    let sprite = Sprite::new(50, None);
    assert!(scene.apply_event(SceneEvent::SpriteNew(sprite, 1)));
    // The same sprite twice is refused.
    assert!(!scene.apply_event(SceneEvent::SpriteNew(sprite, 1)));
    let from = sprite.rect;
    let to = rect(3.0, 4.0, 1.0, 1.0);
    assert!(scene.apply_event(SceneEvent::SpriteMove(50, from, to)));
    assert!(scene.sprite_ref(50).unwrap().rect.same_as(&to));
    // A copy that is not the server's takes moves from anywhere.
    assert!(scene.apply_event(SceneEvent::SpriteMove(50, from, from)));
    // The server's copy refuses a move from where the sprite is not.
    scene.canon();
    assert!(!scene.apply_event(SceneEvent::SpriteMove(50, to, from)));
    assert!(scene.apply_event(SceneEvent::SpriteRemove(50, 1)));
    assert!(scene.sprite_ref(50).is_none());
    assert!(scene.apply_event(SceneEvent::SpriteRestore(50)));
    assert!(scene.sprite_ref(50).is_some());
    // Events about the fog and groups are not the scene's.
    assert!(!scene.apply_event(SceneEvent::FogActive(false, true)));
    assert!(!scene.apply_event(SceneEvent::GroupNew(1)));
}

#[test]
fn test_apply_layer_move_checks_height() {
    let mut scene = Scene::new();
    assert!(!scene.apply_event(SceneEvent::LayerMove(1, 5, false)));
    assert!(scene.apply_event(SceneEvent::LayerMove(1, 1, false)));
    assert_eq!(layer_zs(&scene), vec![-1, -2, -3]);
}

#[test]
fn test_unwind_sprite_move() {
    let mut scene = Scene::new();
    let mut sprite = Sprite::new(60, None);
    sprite.rect = rect(2.0, 2.0, 1.0, 1.0);
    scene.add_sprite(sprite, 1);
    let from = rect(0.0, 0.0, 1.0, 1.0);
    let to = rect(2.0, 2.0, 1.0, 1.0);
    match scene.unwind_event(SceneEvent::SpriteMove(60, from, to), shift_back) {
        Some(SceneEvent::SpriteMove(60, a, b)) => {
            assert!(a.same_as(&to));
            assert!(b.same_as(&from));
        }
        _ => panic!("move not unwound"),
    }
    assert!(scene.sprite_ref(60).unwrap().rect.same_as(&from));
}

#[test]
fn test_unwind_set_and_visual() {
    let mut scene = Scene::new();
    scene.add_sprite(Sprite::new(70, None), 1);
    let old = scene.sprite_ref(70).unwrap().visual;
    let new = Visual::Texture { shape: scene::sprite::Shape::Ellipse, id: 5 };
    assert!(scene.apply_event(SceneEvent::SpriteVisual(70, old, new)));
    let set = SceneEvent::EventSet(vec![
        SceneEvent::SpriteVisual(70, old, new),
        SceneEvent::Dummy,
        SceneEvent::LayerNew(1, String::new(), 0),
    ]);
    match scene.unwind_event(set, shift_back) {
        Some(SceneEvent::EventSet(back)) => {
            assert_eq!(back.len(), 2);
            assert!(matches!(back[0], SceneEvent::SpriteVisual(70, ..)));
            assert!(matches!(back[1], SceneEvent::LayerRemove(1)));
        }
        _ => panic!("expected a set"),
    }
    assert!(scene.sprite_ref(70).is_none());
    assert_eq!(layer_ids(&scene), vec![2, 3]);
}

#[test]
fn test_event_layer() {
    let mut scene = Scene::new();
    scene.add_sprite(Sprite::new(80, None), 3);
    assert_eq!(scene.event_layer(&SceneEvent::LayerLocked(2, true)), Some(2));
    assert_eq!(scene.event_layer(&SceneEvent::SpriteRestore(80)), Some(3));
    assert_eq!(scene.event_layer(&SceneEvent::SceneDimensions(1, 1, 1, 1)), None);
}

#[test]
fn test_non_canon_sets_ids_aside() {
    let mut scene = Scene::new();
    scene.canon();
    let copy = scene.non_canon();
    assert!(!copy.canon);
    assert!(scene.canon);
    assert_eq!(copy.next_id, 4);
    assert_eq!(scene.next_id, 4 + Scene::ID_SPACE_INCREMENT);
}

#[test]
fn test_minimise_next_id() {
    let mut scene = Scene::new();
    scene.add_sprite(Sprite::new(400, None), 2);
    scene.next_id = 9000;
    scene.minimise_next_id();
    assert_eq!(scene.next_id, 401);
}

#[test]
fn test_sprites_in() {
    let mut scene = Scene::new();
    let mut a = Sprite::new(90, None);
    a.rect = rect(1.0, 1.0, 1.0, 1.0);
    let mut b = Sprite::new(91, None);
    b.rect = rect(5.0, 5.0, 1.0, 1.0);
    let mut c = Sprite::new(92, None);
    c.rect = rect(1.5, 1.5, 1.0, 1.0);
    scene.add_sprite(a, 1);
    scene.add_sprite(b, 1);
    scene.add_sprite(c, 2);
    let inside = |r: Rect| {
        val(r.x) >= 0.0 && val(r.x) + val(r.w) <= 3.0 && val(r.y) >= 0.0 && val(r.y) + val(r.h) <= 3.0
    };
    assert_eq!(scene.sprites_in(inside, false), vec![90]);
    assert_eq!(scene.sprites_in(inside, true), vec![90, 92]);
    scene.set_layer_locked(1, true);
    assert_eq!(scene.sprites_in(inside, false), vec![92]);
    assert_eq!(scene.layers[1].sprites_in(inside), vec![92]);
}

#[test]
fn test_move_then_move_back() {
    let mut scene = Scene::new();
    scene.add_layer(Layer::new(10, "Top", 5));
    scene.add_layer(Layer::new(11, "Bottom", -9));
    let start: Vec<(i64, i32)> = scene.layers.iter().map(|l| (l.id, l.z)).collect();
    for id in [10, 1, 2, 3, 11] {
        for up in [true, false] {
            if let Some(event) = scene.move_layer(id, up) {
                scene.unwind_event(event, shift_back);
                let now: Vec<(i64, i32)> = scene.layers.iter().map(|l| (l.id, l.z)).collect();
                assert_eq!(now, start);
            }
        }
    }
}

#[test]
fn test_unwind_undoes_apply() {
    let mut scene = Scene::new();
    assert!(scene.apply_event(SceneEvent::LayerRename(2, "Scenery".to_string(), "Trees".to_string())));
    assert_eq!(scene.layers[1].title, "Trees");
    scene.unwind_event(SceneEvent::LayerRename(2, "Scenery".to_string(), "Trees".to_string()), shift_back);
    assert_eq!(scene.layers[1].title, "Scenery");

    assert!(scene.apply_event(SceneEvent::SceneDimensions(32, 32, 10, 12)));
    scene.unwind_event(SceneEvent::SceneDimensions(32, 32, 10, 12), shift_back);
    assert_eq!((scene.w, scene.h), (32, 32));

    assert!(scene.apply_event(SceneEvent::LayerLocked(3, true)));
    scene.unwind_event(SceneEvent::LayerLocked(3, true), shift_back);
    assert!(!scene.layers[2].locked);
}

#[test]
fn test_unwind_layer_removal() {
    let mut scene = Scene::new();
    let event = scene.remove_layer(1).unwrap();
    assert_eq!(layer_ids(&scene), vec![2, 3]);
    scene.unwind_event(event, shift_back);
    assert_eq!(layer_ids(&scene), vec![1, 2, 3]);
    assert_eq!(layer_zs(&scene), vec![1, -1, -2]);
    assert!(scene.removed_layers.is_empty());
}
