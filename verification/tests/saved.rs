use scene::fog::Fog;
use scene::geom::{Colour, Real, Rect};
use scene::group::Group;
use scene::saved::{
    prepare_project, prepare_scene, retrieve, retrieve_scene, Drawing, SavedDrawing, SavedGroup,
    SavedLayer, SavedProject, SavedScene, SavedSprite, SavedVisual, SceneExtras,
};
use scene::project::Project;
use scene::scene::Scene;
use scene::sprite::{Cap, DrawingMode, Shape, Visual};

fn num(v: f32) -> Real {
    Real::from_bits(v.to_bits())
}

fn rect(x: f32, y: f32, w: f32, h: f32) -> Rect {
    Rect::new(num(x), num(y), num(w), num(h))
}

fn colour(r: f32, g: f32, b: f32, a: f32) -> Colour {
    Colour([num(r), num(g), num(b), num(a)])
}

fn layer(title: &str, z: i32, visible: bool, locked: bool) -> SavedLayer {
    SavedLayer { title: title.to_string(), z, visible, locked }
}

fn sample() -> SavedScene {
    SavedScene {
        uuid: 77,
        title: "Cave".to_string(),
        w: 40,
        h: 2,
        fog: vec![0b101, 0, 0, 1],
        fog_active: true,
        layers: vec![layer("Top", 1, true, true), layer("Bottom", -1, false, false)],
        drawings: vec![SavedDrawing { mode: 3, points: vec![num(1.0), num(2.0)] }],
        sprites: vec![
            SavedSprite {
                layer: 0,
                rect: rect(1.0, 1.0, 1.0, 1.0),
                z: 2,
                visual: SavedVisual::Texture { shape: 2, media: 99 },
            },
            // No layer 5: dropped.
            SavedSprite {
                layer: 5,
                rect: rect(0.0, 0.0, 1.0, 1.0),
                z: 0,
                visual: SavedVisual::Texture { shape: 1, media: 1 },
            },
            SavedSprite {
                layer: 1,
                rect: rect(2.0, 2.0, 3.0, 3.0),
                z: 0,
                visual: SavedVisual::Drawing {
                    drawing: 0,
                    colour: colour(1.0, 2.0, 3.0, 4.0),
                    stroke: num(25.0),
                    cap_start: 1,
                    cap_end: 2,
                },
            },
            // No drawing 3: dropped.
            SavedSprite {
                layer: 1,
                rect: rect(0.0, 0.0, 1.0, 1.0),
                z: 0,
                visual: SavedVisual::Drawing {
                    drawing: 3,
                    colour: colour(0.0, 0.0, 0.0, 1.0),
                    stroke: num(1.0),
                    cap_start: 255,
                    cap_end: 255,
                },
            },
        ],
        groups: vec![SavedGroup { sprites: vec![0, 1, 2, 9] }],
    }
}

#[test]
fn test_retrieve_scene_ids_and_drops() {
    let saved = sample();
    let r = retrieve_scene(&saved, Some(12));
    let sc = &r.scene;
    assert_eq!(sc.uuid, 77);
    assert_eq!(sc.title, "Cave");
    assert_eq!(sc.project, Some(12));
    assert_eq!(sc.layers.len(), 2);
    // Sorted highest first: "Top" (id 1) then "Bottom" (id 2).
    assert_eq!(sc.layers[0].id, 1);
    assert_eq!(sc.layers[0].title, "Top");
    assert!(sc.layers[0].locked && sc.layers[0].visible);
    assert_eq!(sc.layers[1].id, 2);
    assert!(!sc.layers[1].visible && !sc.layers[1].locked);
    // Layers 1, 2, drawing 3, sprites 4 and 5, group 6.
    assert_eq!(sc.layers[0].sprites.len(), 1);
    assert_eq!(sc.layers[0].sprites[0].id, 4);
    match sc.layers[0].sprites[0].visual {
        Visual::Texture { shape, id } => {
            assert_eq!(shape, Shape::Hexagon);
            assert_eq!(id, 99);
        }
        _ => panic!("expected a texture"),
    }
    assert_eq!(sc.layers[1].sprites.len(), 1);
    assert_eq!(sc.layers[1].sprites[0].id, 5);
    match sc.layers[1].sprites[0].visual {
        Visual::Drawing { drawing, mode, cap_start, cap_end, .. } => {
            assert_eq!(drawing, 3);
            assert_eq!(mode, DrawingMode::Line);
            assert_eq!(cap_start, Cap::Arrow);
            assert_eq!(cap_end, Cap::Round);
        }
        _ => panic!("expected a drawing"),
    }
    assert_eq!(r.drawings.len(), 1);
    assert_eq!(r.drawings[0].id, 3);
    assert_eq!(r.drawings[0].mode, DrawingMode::Line);
    assert_eq!(r.groups.len(), 1);
    assert_eq!(r.groups[0].id, 6);
    assert_eq!(r.groups[0].sprites, vec![4, 5]);
    assert_eq!(sc.next_id, 7);
    assert!(r.fog.active);
    assert_eq!(r.fog.n_revealed, 3);
    assert_eq!(r.fog.fog, vec![0b101, 0, 0, 1]);
}

#[test]
fn test_prepare_scene_positions() {
    let mut scene = Scene::new();
    let top = scene.first_layer();
    scene.new_sprite(Some(Visual::Texture { shape: Shape::Triangle, id: 5 }), top);
    scene.new_sprite(
        Some(Visual::Drawing {
            drawing: 40,
            mode: DrawingMode::Cone,
            colour: colour(1.0, 1.0, 1.0, 1.0),
            stroke: num(2.0),
            cap_start: Cap::Plain,
            cap_end: Cap::Arrow,
        }),
        top,
    );
    // A drawing sprite whose drawing is missing is not saved.
    scene.new_sprite(
        Some(Visual::Drawing {
            drawing: 41,
            mode: DrawingMode::Cone,
            colour: colour(1.0, 1.0, 1.0, 1.0),
            stroke: num(2.0),
            cap_start: Cap::Plain,
            cap_end: Cap::Plain,
        }),
        top,
    );
    let ids: Vec<i64> = scene.layers[0].sprites.iter().map(|s| s.id).collect();
    let fog = Fog::new(8, 8);
    let drawings = vec![Drawing { id: 40, mode: DrawingMode::Cone, points: vec![num(0.5)] }];
    let groups = vec![
        Group::new(9, vec![ids[2], ids[0]]),
        // Only an unsaved sprite: the group is dropped.
        Group::new(10, vec![ids[2]]),
    ];
    let saved = prepare_scene(&scene, &fog, &drawings, &groups);
    assert_eq!(saved.layers.len(), 3);
    assert_eq!(saved.layers[0].title, "Foreground");
    assert_eq!(saved.drawings.len(), 1);
    assert_eq!(saved.drawings[0].mode, 1);
    assert_eq!(saved.sprites.len(), 2);
    assert_eq!(saved.sprites[0].layer, 0);
    match saved.sprites[1].visual {
        SavedVisual::Drawing { drawing, cap_start, cap_end, .. } => {
            assert_eq!(drawing, 0);
            assert_eq!(cap_start, 255);
            assert_eq!(cap_end, 1);
        }
        _ => panic!("expected a drawing"),
    }
    assert_eq!(saved.groups.len(), 1);
    assert_eq!(saved.groups[0].sprites, vec![0]);
    assert_eq!(saved.fog.len(), 8);
}

#[test]
fn test_prepare_retrieve_round_trip() {
    let mut scene = Scene::new();
    scene.title = "First Scene".to_string();
    scene.uuid = 5;
    let fg = scene.first_layer();
    scene.rename_layer(fg, "Renamed Foreground".to_string());
    scene.new_sprite(
        Some(Visual::Shape {
            shape: Shape::Hexagon,
            stroke: num(12.0),
            solid: true,
            colour: colour(123.0, 55.0, 255.0, 1.0),
        }),
        fg,
    );
    let mut fog = Fog::new(64, 64);
    fog.set_active(true);
    fog.reveal_tile(0, 0);
    fog.reveal_tile(10, 5);
    fog.reveal_tile(63, 63);
    let drawings = vec![Drawing {
        id: 50,
        mode: DrawingMode::Freehand,
        points: vec![num(12.0), num(12.0), num(12.5), num(12.5)],
    }];
    let saved = prepare_scene(&scene, &fog, &drawings, &Vec::new());
    let back = retrieve_scene(&saved, None);
    assert_eq!(back.scene.uuid, 5);
    assert_eq!(back.scene.title, "First Scene");
    assert_eq!(back.fog.fog, fog.fog);
    assert_eq!(back.fog.n_revealed, 3);
    assert_eq!(back.fog.active, fog.active);
    assert_eq!(back.scene.layers.len(), scene.layers.len());
    for (l, r) in scene.layers.iter().zip(back.scene.layers.iter()) {
        assert_eq!(l.title, r.title);
        assert_eq!(l.z, r.z);
        assert_eq!(l.visible, r.visible);
        assert_eq!(l.locked, r.locked);
        assert_eq!(l.sprites.len(), r.sprites.len());
        for (a, b) in l.sprites.iter().zip(r.sprites.iter()) {
            assert_eq!(a.z, b.z);
            assert_eq!(a.rect.x.bits, b.rect.x.bits);
            assert_eq!(a.rect.w.bits, b.rect.w.bits);
        }
    }
    assert_eq!(back.drawings[0].mode, DrawingMode::Freehand);
    assert_eq!(back.drawings[0].points.len(), 4);
}

#[test]
fn test_retrieve_project() {
    let project = SavedProject { uuid: 3, title: "Campaign".to_string(), scenes: vec![sample()] };
    let r = retrieve(&project);
    assert_eq!(r.uuid, 3);
    assert_eq!(r.title, "Campaign");
    assert_eq!(r.scenes.len(), 1);
    assert_eq!(r.scenes[0].scene.title, "Cave");
    assert_eq!(r.scenes[0].scene.project, None);
}

#[test]
fn test_project_round_trip() {
    let mut project = Project::titled(21, "Campaign".to_string());
    let mut scene = Scene::new();
    scene.uuid = 8;
    scene.title = "Hall".to_string();
    let fg = scene.first_layer();
    scene.new_sprite(Some(Visual::Texture { shape: Shape::Ellipse, id: 3 }), fg);
    scene.new_sprite(
        Some(Visual::Drawing {
            drawing: 70,
            mode: DrawingMode::Line,
            colour: colour(1.0, 2.0, 3.0, 4.0),
            stroke: num(25.0),
            cap_start: Cap::Arrow,
            cap_end: Cap::Round,
        }),
        fg,
    );
    let ids: Vec<i64> = scene.layers[0].sprites.iter().map(|s| s.id).collect();
    project.scenes.push(scene);
    let mut fog = Fog::new(10, 10);
    fog.reveal_tile(4, 4);
    let extras = vec![SceneExtras {
        fog,
        drawings: vec![Drawing { id: 70, mode: DrawingMode::Line, points: vec![num(1.0), num(1.0)] }],
        groups: vec![Group::new(30, vec![ids[1], ids[0]])],
    }];
    let saved = prepare_project(&project, &extras);
    assert_eq!(saved.uuid, 21);
    assert_eq!(saved.scenes.len(), 1);
    let back = retrieve(&saved);
    assert_eq!(back.uuid, 21);
    assert_eq!(back.title, "Campaign");
    let sc = &back.scenes[0];
    assert_eq!(sc.scene.uuid, 8);
    assert_eq!(sc.scene.title, "Hall");
    // Three layers (ids 1 to 3), one drawing (id 4), sprites 5 and 6, group 7.
    assert_eq!(sc.scene.layers.len(), 3);
    assert_eq!(sc.scene.layers[0].title, "Foreground");
    assert_eq!(sc.scene.layers[0].sprites.len(), 2);
    assert_eq!(sc.scene.layers[0].sprites[0].id, 5);
    assert_eq!(sc.scene.layers[0].sprites[1].id, 6);
    match sc.scene.layers[0].sprites[1].visual {
        Visual::Drawing { drawing, mode, cap_start, cap_end, .. } => {
            assert_eq!(drawing, 4);
            assert_eq!(mode, DrawingMode::Line);
            assert_eq!(cap_start, Cap::Arrow);
            assert_eq!(cap_end, Cap::Round);
        }
        _ => panic!("expected a drawing"),
    }
    assert_eq!(sc.drawings[0].id, 4);
    assert_eq!(sc.groups.len(), 1);
    assert_eq!(sc.groups[0].id, 7);
    assert_eq!(sc.groups[0].sprites, vec![6, 5]);
    assert_eq!(sc.fog.n_revealed, 1);
    assert!(!sc.fog.occluded(4, 4));
}
