use scene::interface::{
    parse_media_key, update_interface, Changes, Cursor, DrawTool, Icon, Key, LayerInfo, MouseButton, Tool,
};
use scene::layer::Layer;
use scene::perms::Role;
use scene::sprite::{DrawingMode, Sprite};

#[test]
fn test_key_from() {
    assert_eq!(Key::from("Alt"), Key::Alt);
    assert_eq!(Key::from("Backspace"), Key::Delete);
    assert_eq!(Key::from("Delete"), Key::Delete);
    assert_eq!(Key::from("ArrowUp"), Key::Up);
    assert_eq!(Key::from(" "), Key::Space);
    assert_eq!(Key::from("_"), Key::Underscore);
    assert_eq!(Key::from("q"), Key::Q);
    assert_eq!(Key::from("Q"), Key::Q);
    assert_eq!(Key::from("w"), Key::W);
    // No name maps to the capital W.
    assert_eq!(Key::from("W"), Key::Unknown);
    assert_eq!(Key::from("F1"), Key::Unknown);
    assert!(Key::from("ArrowLeft").is_arrow());
    assert!(!Key::from("a").is_arrow());
}

#[test]
fn test_mouse_button_from() {
    assert_eq!(MouseButton::from(0), MouseButton::Left);
    assert_eq!(MouseButton::from(2), MouseButton::Right);
    assert_eq!(MouseButton::from(4), MouseButton::Forward);
    assert_eq!(MouseButton::from(5), MouseButton::Unknown);
    assert_eq!(MouseButton::from(-1), MouseButton::Unknown);
}

#[test]
fn test_icon_class_and_opposite() {
    assert_eq!(Icon::Arrows.class(), "bi-arrows-move");
    assert_eq!(Icon::Check.class(), "bi-check-circle");
    assert_eq!(Icon::Trash.class(), "bi-trash3");
    assert_eq!(Icon::Up.opposite(), Icon::Down);
    assert_eq!(Icon::EyeSlash.opposite(), Icon::Eye);
    assert_eq!(Icon::Lock.opposite(), Icon::Unlock);
    assert_eq!(Icon::Brush.opposite(), Icon::Brush);
    assert_eq!(Icon::Lock.opposite().opposite(), Icon::Lock);
}

#[test]
fn test_icon_classes_distinct() {
    let all = [
        Icon::Arrows, Icon::Brush, Icon::Circle, Icon::Cursor, Icon::Down, Icon::Edit,
        Icon::Eye, Icon::EyeSlash, Icon::Fog, Icon::Line, Icon::Lock, Icon::Check,
        Icon::Plus, Icon::Square, Icon::Target, Icon::Trash, Icon::Unlock, Icon::Up,
    ];
    assert_eq!(Icon::Fog.class(), "bi-cloud-fog2");
    for (a, i) in all.iter().enumerate() {
        assert!(i.class().starts_with("bi-"));
        for (b, j) in all.iter().enumerate() {
            if a != b {
                assert_ne!(i.class(), j.class());
            }
        }
    }
}

#[test]
fn test_tool_allowed() {
    assert!(Tool::Pan.allowed(Role::Spectator));
    assert!(!Tool::Select.allowed(Role::Spectator));
    assert!(Tool::Draw.allowed(Role::Player));
    assert!(!Tool::Fog.allowed(Role::Player));
    assert!(Tool::Fog.allowed(Role::Editor));
}

#[test]
fn test_draw_tool_mode() {
    assert_eq!(DrawTool::Cone.mode(), Some(DrawingMode::Cone));
    assert_eq!(DrawTool::Freehand.mode(), Some(DrawingMode::Freehand));
    assert_eq!(DrawTool::Line.mode(), Some(DrawingMode::Line));
    assert_eq!(DrawTool::Circle.mode(), None);
    assert_eq!(DrawTool::Rectangle.mode(), None);
}

#[test]
fn test_update_interface() {
    assert!(update_interface(Role::Owner));
    assert!(!update_interface(Role::Editor));
}

#[test]
fn test_parse_media_key() {
    assert_eq!(parse_media_key("0000000000000001"), 1);
    assert_eq!(parse_media_key("00000000000000ff"), 255);
    assert_eq!(parse_media_key("00000000000000FF"), 255);
    assert_eq!(parse_media_key("0123456789abcdef"), 0x0123_4567_89ab_cdef);
    assert_eq!(parse_media_key("ffffffffffffffff"), -1);
    assert_eq!(parse_media_key("8000000000000000"), i64::MIN);
    // Only hexadecimal digits count: a sign reads as 0.
    assert_eq!(parse_media_key("+f00000000000000"), 0);
    assert_eq!(parse_media_key("+1+1+1+1+1+1+1+1"), 0);
    // Sixteen bytes that are not sixteen characters read as 0.
    assert_eq!(parse_media_key("0\u{e9}0000000000000"), 0);
    // Wrong length or a bad digit read as 0.
    assert_eq!(parse_media_key("123"), 0);
    assert_eq!(parse_media_key("00000000000000g1"), 0);
    assert_eq!(parse_media_key("-000000000000001"), 0);
}

#[test]
fn test_changes_handled_once() {
    let mut changes = Changes::new();
    assert!(changes.handle_layer_change());
    assert!(!changes.handle_layer_change());
    changes.layer_change_if(false);
    assert!(!changes.handle_layer_change());
    changes.sprite_selected_change();
    assert!(changes.handle_sprite_change());
    assert!(changes.handle_selected_change());
    assert!(!changes.handle_selected_change());
    changes.all_change();
    assert!(changes.handle_layer_change() && changes.handle_sprite_change());
}

#[test]
fn test_layer_info_from() {
    let mut layer = Layer::new(8, "Tokens", 3);
    layer.add_sprite(Sprite::new(1, None));
    layer.add_sprite(Sprite::new(2, None));
    let info = LayerInfo::from(&layer);
    assert_eq!(info.id, 8);
    assert_eq!(info.title, "Tokens");
    assert_eq!(info.z, 3);
    assert!(info.visible && !info.locked);
    assert_eq!(info.n_sprites, 2);
}

#[test]
fn test_cursor_css_and_tools() {
    assert_eq!(Cursor::NwseResize.css(), "nwse-resize");
    assert_eq!(Cursor::ContextMenu.css(), "context-menu");
    assert_eq!(Cursor::Hidden.css(), "none");
    assert_eq!(Cursor::Grab.css(), "grab");
    assert_eq!(Cursor::Default.css(), "default");
    assert_eq!(Cursor::AltScroll.css(), "all-scroll");
    assert_eq!(Cursor::Default.override_default(Cursor::Move), Cursor::Move);
    assert_eq!(Cursor::Text.override_default(Cursor::Move), Cursor::Text);
    assert_eq!(Tool::Draw.cursor(), Cursor::Crosshair);
    assert_eq!(Tool::Fog.cursor(), Cursor::Hidden);
    assert_eq!(Tool::Pan.cursor(), Cursor::Grab);
    assert_eq!(Tool::Select.cursor(), Cursor::Default);
}
