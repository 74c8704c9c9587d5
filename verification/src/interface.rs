//! Decisions of the client interface that do not touch the page itself.

use vstd::prelude::*;
use vstd::string::*;

use crate::layer::Layer;
use crate::perms::{rank, Role};
use crate::sprite::DrawingMode;
use crate::text::str_eq;
use crate::Id;

verus! {

/// Flags recording which parts of the interface must be refreshed.
pub struct Changes {
    /// A change to a layer's lock status, title or visibility: the layer list
    /// must be redrawn.
    pub layer: bool,
    /// A change to a sprite: the scene must be re-rendered.
    pub sprite: bool,
    /// A change to the selection: the sprite menu must be updated.
    pub selected: bool,
}

impl Changes {
    /// Every part starts out needing a refresh.
    pub fn new() -> (c: Self)
        ensures
            c.layer && c.sprite && c.selected,
    {
        Changes { layer: true, sprite: true, selected: true }
    }

    pub fn all_change(&mut self)
        ensures
            final(self).layer && final(self).sprite && final(self).selected,
    {
        self.layer = true;
        self.sprite = true;
        self.selected = true;
    }

    pub fn all_change_if(&mut self, changed: bool)
        ensures
            final(self).layer == (old(self).layer || changed),
            final(self).sprite == (old(self).sprite || changed),
            final(self).selected == (old(self).selected || changed),
    {
        self.layer_change_if(changed);
        self.sprite_change_if(changed);
        self.selected_change_if(changed);
    }

    pub fn layer_change(&mut self)
        ensures
            final(self).layer,
            final(self).sprite == old(self).sprite,
            final(self).selected == old(self).selected,
    {
        self.layer = true;
    }

    pub fn layer_change_if(&mut self, changed: bool)
        ensures
            final(self).layer == (old(self).layer || changed),
            final(self).sprite == old(self).sprite,
            final(self).selected == old(self).selected,
    {
        self.layer = self.layer || changed;
    }

    /// Reports whether the layer list needs a refresh, and clears the flag.
    pub fn handle_layer_change(&mut self) -> (ret: bool)
        ensures
            ret == old(self).layer,
            !final(self).layer,
            final(self).sprite == old(self).sprite,
            final(self).selected == old(self).selected,
    {
        let ret = self.layer;
        self.layer = false;
        ret
    }

    pub fn sprite_change(&mut self)
        ensures
            final(self).sprite,
            final(self).layer == old(self).layer,
            final(self).selected == old(self).selected,
    {
        self.sprite = true;
    }

    pub fn sprite_change_if(&mut self, changed: bool)
        ensures
            final(self).sprite == (old(self).sprite || changed),
            final(self).layer == old(self).layer,
            final(self).selected == old(self).selected,
    {
        self.sprite = self.sprite || changed;
    }

    /// Reports whether the scene needs re-rendering, and clears the flag.
    pub fn handle_sprite_change(&mut self) -> (ret: bool)
        ensures
            ret == old(self).sprite,
            !final(self).sprite,
            final(self).layer == old(self).layer,
            final(self).selected == old(self).selected,
    {
        let ret = self.sprite;
        self.sprite = false;
        ret
    }

    pub fn selected_change(&mut self)
        ensures
            final(self).selected,
            final(self).layer == old(self).layer,
            final(self).sprite == old(self).sprite,
    {
        self.selected = true;
    }

    pub fn selected_change_if(&mut self, changed: bool)
        ensures
            final(self).selected == (old(self).selected || changed),
            final(self).layer == old(self).layer,
            final(self).sprite == old(self).sprite,
    {
        self.selected = self.selected || changed;
    }

    /// Reports whether the sprite menu needs updating, and clears the flag.
    pub fn handle_selected_change(&mut self) -> (ret: bool)
        ensures
            ret == old(self).selected,
            !final(self).selected,
            final(self).layer == old(self).layer,
            final(self).sprite == old(self).sprite,
    {
        let ret = self.selected;
        self.selected = false;
        ret
    }

    pub fn sprite_selected_change(&mut self)
        ensures
            final(self).sprite && final(self).selected,
            final(self).layer == old(self).layer,
    {
        self.sprite = true;
        self.selected = true;
    }
}

/// A mouse button, numbered as the browser numbers them.
#[derive(Clone, Copy, Debug, PartialEq, Eq, Structural)]
pub enum MouseButton {
    Left,
    Middle,
    Right,
    Back,
    Forward,
    Unknown,
}

impl MouseButton {
    /// The button the browser's number stands for: 0 to 4 are left,
    /// middle, right, back and forward.
    pub fn from(button: i16) -> (b: MouseButton)
        ensures
            b == (if button == 0 {
                MouseButton::Left
            } else if button == 1 {
                MouseButton::Middle
            } else if button == 2 {
                MouseButton::Right
            } else if button == 3 {
                MouseButton::Back
            } else if button == 4 {
                MouseButton::Forward
            } else {
                MouseButton::Unknown
            }),
    {
        match button {
            0 => MouseButton::Left,
            1 => MouseButton::Middle,
            2 => MouseButton::Right,
            3 => MouseButton::Back,
            4 => MouseButton::Forward,
            _ => MouseButton::Unknown,
        }
    }
}

/// The icons of the interface.
#[derive(Clone, Copy, Debug, PartialEq, Eq, Structural)]
pub enum Icon {
    Arrows,
    Brush,
    Circle,
    Cursor,
    Down,
    Edit,
    Eye,
    EyeSlash,
    Fog,
    Line,
    Lock,
    Check,
    Plus,
    Square,
    Target,
    Trash,
    Unlock,
    Up,
}

/// The style class that draws an icon.
pub open spec fn icon_class(i: Icon) -> Seq<char> {
    match i {
        Icon::Arrows => "bi-arrows-move"@,
        Icon::Brush => "bi-brush"@,
        Icon::Circle => "bi-circle"@,
        Icon::Cursor => "bi-cursor"@,
        Icon::Down => "bi-chevron-down"@,
        Icon::Edit => "bi-pencil-square"@,
        Icon::Eye => "bi-eye"@,
        Icon::EyeSlash => "bi-eye-slash"@,
        Icon::Fog => "bi-cloud-fog2"@,
        Icon::Line => "bi-slash-lg"@,
        Icon::Lock => "bi-lock"@,
        Icon::Check => "bi-check-circle"@,
        Icon::Plus => "bi-plus"@,
        Icon::Square => "bi-square"@,
        Icon::Target => "bi-bullseye"@,
        Icon::Trash => "bi-trash3"@,
        Icon::Unlock => "bi-unlock"@,
        Icon::Up => "bi-chevron-up"@,
    }
}

/// The length, fourth character and last character of an icon's class,
/// which tell the classes apart.
spec fn class_key(i: Icon) -> (int, char, char) {
    match i {
        Icon::Arrows => (14, 'a', 'e'),
        Icon::Brush => (8, 'b', 'h'),
        Icon::Circle => (9, 'c', 'e'),
        Icon::Cursor => (9, 'c', 'r'),
        Icon::Down => (15, 'c', 'n'),
        Icon::Edit => (16, 'p', 'e'),
        Icon::Eye => (6, 'e', 'e'),
        Icon::EyeSlash => (12, 'e', 'h'),
        Icon::Fog => (13, 'c', '2'),
        Icon::Line => (11, 's', 'g'),
        Icon::Lock => (7, 'l', 'k'),
        Icon::Check => (15, 'c', 'e'),
        Icon::Plus => (7, 'p', 's'),
        Icon::Square => (9, 's', 'e'),
        Icon::Target => (11, 'b', 'e'),
        Icon::Trash => (9, 't', '3'),
        Icon::Unlock => (9, 'u', 'k'),
        Icon::Up => (13, 'c', 'p'),
    }
}

proof fn lemma_class_key(i: Icon)
    ensures
        icon_class(i).len() == class_key(i).0,
        icon_class(i)[3] == class_key(i).1,
        icon_class(i)[icon_class(i).len() - 1] == class_key(i).2,
        icon_class(i).subrange(0, 3) == "bi-"@,
{
    reveal_strlit("bi-");
    match i {
        Icon::Arrows => {
            reveal_strlit("bi-arrows-move");
        },
        Icon::Brush => {
            reveal_strlit("bi-brush");
        },
        Icon::Circle => {
            reveal_strlit("bi-circle");
        },
        Icon::Cursor => {
            reveal_strlit("bi-cursor");
        },
        Icon::Down => {
            reveal_strlit("bi-chevron-down");
        },
        Icon::Edit => {
            reveal_strlit("bi-pencil-square");
        },
        Icon::Eye => {
            reveal_strlit("bi-eye");
        },
        Icon::EyeSlash => {
            reveal_strlit("bi-eye-slash");
        },
        Icon::Fog => {
            reveal_strlit("bi-cloud-fog2");
        },
        Icon::Line => {
            reveal_strlit("bi-slash-lg");
        },
        Icon::Lock => {
            reveal_strlit("bi-lock");
        },
        Icon::Check => {
            reveal_strlit("bi-check-circle");
        },
        Icon::Plus => {
            reveal_strlit("bi-plus");
        },
        Icon::Square => {
            reveal_strlit("bi-square");
        },
        Icon::Target => {
            reveal_strlit("bi-bullseye");
        },
        Icon::Trash => {
            reveal_strlit("bi-trash3");
        },
        Icon::Unlock => {
            reveal_strlit("bi-unlock");
        },
        Icon::Up => {
            reveal_strlit("bi-chevron-up");
        },
    }
    assert(icon_class(i).subrange(0, 3) =~= "bi-"@);
}

/// Every icon's class starts with "bi-", and no two icons share a class.
pub proof fn law_icon_classes(i: Icon, j: Icon)
    ensures
        icon_class(i).len() > 3,
        icon_class(i).subrange(0, 3) == "bi-"@,
        i != j ==> icon_class(i) != icon_class(j),
{
    lemma_class_key(i);
    lemma_class_key(j);
}

/// The icon that toggles back: up and down, eye and crossed-out eye, lock
/// and unlock swap; any other icon is its own opposite.
pub open spec fn icon_opposite(i: Icon) -> Icon {
    match i {
        Icon::Down => Icon::Up,
        Icon::Up => Icon::Down,
        Icon::Eye => Icon::EyeSlash,
        Icon::EyeSlash => Icon::Eye,
        Icon::Lock => Icon::Unlock,
        Icon::Unlock => Icon::Lock,
        _ => i,
    }
}

impl Icon {
    /// The style class that draws this icon.
    pub fn class(&self) -> (c: String)
        ensures
            c@ == icon_class(*self),
    {
        let name: &str = match self {
            Icon::Arrows => "bi-arrows-move",
            Icon::Brush => "bi-brush",
            Icon::Circle => "bi-circle",
            Icon::Cursor => "bi-cursor",
            Icon::Down => "bi-chevron-down",
            Icon::Edit => "bi-pencil-square",
            Icon::Eye => "bi-eye",
            Icon::EyeSlash => "bi-eye-slash",
            Icon::Fog => "bi-cloud-fog2",
            Icon::Line => "bi-slash-lg",
            Icon::Lock => "bi-lock",
            Icon::Check => "bi-check-circle",
            Icon::Plus => "bi-plus",
            Icon::Square => "bi-square",
            Icon::Target => "bi-bullseye",
            Icon::Trash => "bi-trash3",
            Icon::Unlock => "bi-unlock",
            Icon::Up => "bi-chevron-up",
        };
        name.to_owned()
    }

    pub fn opposite(&self) -> (o: Icon)
        ensures
            o == icon_opposite(*self),
    {
        match self {
            Icon::Down => Icon::Up,
            Icon::Up => Icon::Down,
            Icon::Eye => Icon::EyeSlash,
            Icon::EyeSlash => Icon::Eye,
            Icon::Lock => Icon::Unlock,
            Icon::Unlock => Icon::Lock,
            _ => *self,
        }
    }
}

/// The mouse cursor shown over the canvas. `Hidden` shows none.
#[derive(Clone, Copy, Debug, PartialEq, Eq, Structural)]
pub enum Cursor {
    Auto,
    Default,
    Hidden,
    ContextMenu,
    Help,
    Pointer,
    Progress,
    Wait,
    Cell,
    Crosshair,
    Text,
    VerticalText,
    Alias,
    Copy,
    Move,
    NoDrop,
    NotAllowed,
    Grab,
    Grabbing,
    AltScroll,
    ColResize,
    RowResize,
    NResize,
    EResize,
    SResize,
    WResize,
    NeResize,
    NwResize,
    SeResize,
    SwResize,
    EwResize,
    NsResize,
    NeswResize,
    NwseResize,
    ZoomIn,
    ZoomOut,
}

/// The CSS cursor keyword of a cursor: its name with a hyphen before each
/// capital but the first, all in lower case; `Hidden` is "none" and
/// `AltScroll` is "all-scroll".
pub open spec fn cursor_css(c: Cursor) -> Seq<char> {
    match c {
        Cursor::Auto => "auto"@,
        Cursor::Default => "default"@,
        Cursor::Hidden => "none"@,
        Cursor::ContextMenu => "context-menu"@,
        Cursor::Help => "help"@,
        Cursor::Pointer => "pointer"@,
        Cursor::Progress => "progress"@,
        Cursor::Wait => "wait"@,
        Cursor::Cell => "cell"@,
        Cursor::Crosshair => "crosshair"@,
        Cursor::Text => "text"@,
        Cursor::VerticalText => "vertical-text"@,
        Cursor::Alias => "alias"@,
        Cursor::Copy => "copy"@,
        Cursor::Move => "move"@,
        Cursor::NoDrop => "no-drop"@,
        Cursor::NotAllowed => "not-allowed"@,
        Cursor::Grab => "grab"@,
        Cursor::Grabbing => "grabbing"@,
        Cursor::AltScroll => "all-scroll"@,
        Cursor::ColResize => "col-resize"@,
        Cursor::RowResize => "row-resize"@,
        Cursor::NResize => "n-resize"@,
        Cursor::EResize => "e-resize"@,
        Cursor::SResize => "s-resize"@,
        Cursor::WResize => "w-resize"@,
        Cursor::NeResize => "ne-resize"@,
        Cursor::NwResize => "nw-resize"@,
        Cursor::SeResize => "se-resize"@,
        Cursor::SwResize => "sw-resize"@,
        Cursor::EwResize => "ew-resize"@,
        Cursor::NsResize => "ns-resize"@,
        Cursor::NeswResize => "nesw-resize"@,
        Cursor::NwseResize => "nwse-resize"@,
        Cursor::ZoomIn => "zoom-in"@,
        Cursor::ZoomOut => "zoom-out"@,
    }
}

impl Cursor {
    /// The style name of this cursor.
    pub fn css(&self) -> (s: String)
        ensures
            s@ == cursor_css(*self),
    {
        let name: &str = match self {
            Cursor::Auto => "auto",
            Cursor::Default => "default",
            Cursor::Hidden => "none",
            Cursor::ContextMenu => "context-menu",
            Cursor::Help => "help",
            Cursor::Pointer => "pointer",
            Cursor::Progress => "progress",
            Cursor::Wait => "wait",
            Cursor::Cell => "cell",
            Cursor::Crosshair => "crosshair",
            Cursor::Text => "text",
            Cursor::VerticalText => "vertical-text",
            Cursor::Alias => "alias",
            Cursor::Copy => "copy",
            Cursor::Move => "move",
            Cursor::NoDrop => "no-drop",
            Cursor::NotAllowed => "not-allowed",
            Cursor::Grab => "grab",
            Cursor::Grabbing => "grabbing",
            Cursor::AltScroll => "all-scroll",
            Cursor::ColResize => "col-resize",
            Cursor::RowResize => "row-resize",
            Cursor::NResize => "n-resize",
            Cursor::EResize => "e-resize",
            Cursor::SResize => "s-resize",
            Cursor::WResize => "w-resize",
            Cursor::NeResize => "ne-resize",
            Cursor::NwResize => "nw-resize",
            Cursor::SeResize => "se-resize",
            Cursor::SwResize => "sw-resize",
            Cursor::EwResize => "ew-resize",
            Cursor::NsResize => "ns-resize",
            Cursor::NeswResize => "nesw-resize",
            Cursor::NwseResize => "nwse-resize",
            Cursor::ZoomIn => "zoom-in",
            Cursor::ZoomOut => "zoom-out",
        };
        name.to_owned()
    }

    /// `other` in place of the default cursor; any other cursor stays.
    pub fn override_default(self, other: Cursor) -> (c: Cursor)
        ensures
            c == (if self == Cursor::Default {
                other
            } else {
                self
            }),
    {
        match self {
            Cursor::Default => other,
            _ => self,
        }
    }
}

/// The tools of the canvas.
#[derive(Clone, Copy, Debug, PartialEq, Eq, Structural)]
pub enum Tool {
    Draw,
    Fog,
    Pan,
    Select,
}

impl Tool {
    /// The cursor shown while this tool is picked.
    pub fn cursor(&self) -> (c: Cursor)
        ensures
            c == match *self {
                Tool::Draw => Cursor::Crosshair,
                Tool::Fog => Cursor::Hidden,
                Tool::Pan => Cursor::Grab,
                Tool::Select => Cursor::Default,
            },
    {
        match self {
            Tool::Draw => Cursor::Crosshair,
            Tool::Fog => Cursor::Hidden,
            Tool::Pan => Cursor::Grab,
            Tool::Select => Cursor::Default,
        }
    }

    /// Whether a user with the given role may pick this tool: anyone may
    /// pan, editors may paint fog, players may draw and select.
    pub fn allowed(&self, role: Role) -> (b: bool)
        ensures
            b == match *self {
                Tool::Fog => rank(role) >= 2,
                Tool::Pan => true,
                _ => rank(role) >= 1,
            },
    {
        match self {
            Tool::Fog => role.editor(),
            Tool::Pan => true,
            _ => role.player(),
        }
    }
}

/// The shapes that the draw tool makes.
#[derive(Clone, Copy, Debug, PartialEq, Eq, Structural)]
pub enum DrawTool {
    Circle,
    Cone,
    Ellipse,
    Freehand,
    Line,
    Rectangle,
}

impl DrawTool {
    /// The drawing mode of a tool that draws a line or a cone; none for
    /// the tools that make shapes.
    pub fn mode(&self) -> (m: Option<DrawingMode>)
        ensures
            m == match *self {
                DrawTool::Cone => Some(DrawingMode::Cone),
                DrawTool::Freehand => Some(DrawingMode::Freehand),
                DrawTool::Line => Some(DrawingMode::Line),
                _ => None,
            },
    {
        match self {
            DrawTool::Circle => None,
            DrawTool::Cone => Some(DrawingMode::Cone),
            DrawTool::Ellipse => None,
            DrawTool::Freehand => Some(DrawingMode::Freehand),
            DrawTool::Line => Some(DrawingMode::Line),
            DrawTool::Rectangle => None,
        }
    }
}

/// What the context menu of the canvas asks for.
#[derive(Clone, Copy, Debug, PartialEq, Eq, Structural)]
pub enum CanvasDropdownEvent {
    Clone,
    Delete,
    Group,
    Layer(Id),
    Ungroup,
}

/// What an entry of the dropdown menu asks for.
#[derive(Clone, Copy, Debug, PartialEq, Eq, Structural)]
pub enum DropdownEvent {
    Clone,
    Delete,
    Group,
    Layer(Id),
    Ungroup,
}

/// What the layers menu shows of a layer.
pub struct LayerInfo {
    pub id: Id,
    pub title: String,
    pub z: i32,
    pub visible: bool,
    pub locked: bool,
    pub n_sprites: usize,
}

impl LayerInfo {
    pub fn from(layer: &Layer) -> (info: LayerInfo)
        ensures
            info.id == layer.id && info.title@ == layer.title@ && info.z == layer.z,
            info.visible == layer.visible && info.locked == layer.locked,
            info.n_sprites == layer.sprites@.len(),
    {
        LayerInfo {
            id: layer.id,
            title: layer.title.clone(),
            z: layer.z,
            visible: layer.visible,
            locked: layer.locked,
            n_sprites: layer.sprites.len(),
        }
    }
}

/// Whether the button that ends the game is shown: only to the owner.
pub fn update_interface(role: Role) -> (end_game_visible: bool)
    ensures
        end_game_visible == (role == Role::Owner),
{
    role == Role::Owner
}

/// The value of a hexadecimal digit.
pub open spec fn hex_digit(b: u8) -> Option<int> {
    if 48 <= b <= 57 {
        Some(b - 48)
    } else if 97 <= b <= 102 {
        Some(b - 87)
    } else if 65 <= b <= 70 {
        Some(b - 55)
    } else {
        None
    }
}

/// The value of two bytes that are both hexadecimal digits.
pub open spec fn hex_pair(x: u8, y: u8) -> Option<int> {
    match (hex_digit(x), hex_digit(y)) {
        (Some(d1), Some(d2)) => Some(16 * d1 + d2),
        _ => None,
    }
}

/// The big-endian value of the first `c` byte pairs of `b`, when each is a
/// hexadecimal number.
pub open spec fn pairs_value(b: Seq<u8>, c: nat) -> Option<int>
    decreases c,
{
    if c == 0 {
        Some(0)
    } else {
        match pairs_value(b, (c - 1) as nat) {
            None => None,
            Some(v) => match hex_pair(b[2 * c - 2], b[2 * c - 1]) {
                None => None,
                Some(p) => Some(256 * v + p),
            },
        }
    }
}

/// The id that a media key stands for: its sixteen hexadecimal digits read
/// as the eight big-endian bytes of a signed number; 0 for anything else.
pub open spec fn media_key_value(b: Seq<u8>) -> Id {
    if b.len() != 16 {
        0
    } else {
        match pairs_value(b, 8) {
            None => 0,
            Some(v) => if v < 0x8000_0000_0000_0000 {
                v as i64
            } else {
                (v - 0x1_0000_0000_0000_0000) as i64
            },
        }
    }
}

proof fn lemma_pairs_value_bound(b: Seq<u8>, c: nat)
    requires
        c <= 8,
    ensures
        pairs_value(b, c) matches Some(v) ==> 0 <= v < pow256(c),
    decreases c,
{
    if c > 0 {
        lemma_pairs_value_bound(b, (c - 1) as nat);
        if pairs_value(b, c) is Some {
            let v = pairs_value(b, (c - 1) as nat).unwrap();
            let p = hex_pair(b[2 * c - 2], b[2 * c - 1]).unwrap();
            let q = pow256((c - 1) as nat);
            assert(256 * v + p < 256 * q) by (nonlinear_arith)
                requires
                    0 <= v < q,
                    0 <= p < 256,
            ;
        }
    }
}

pub open spec fn pow256(c: nat) -> int
    decreases c,
{
    if c == 0 {
        1
    } else {
        256 * pow256((c - 1) as nat)
    }
}

/// The value of two bytes read as a hexadecimal number.
fn parse_hex_pair(x: u8, y: u8) -> (p: Option<u8>)
    ensures
        match hex_pair(x, y) {
            Some(v) => p matches Some(q) && q == v,
            None => p is None,
        },
{
    let d1 = hex_digit_value(x);
    let d2 = hex_digit_value(y);
    match (d1, d2) {
        (Some(a), Some(b)) => Some(16 * a + b),
        _ => None,
    }
}

fn hex_digit_value(b: u8) -> (d: Option<u8>)
    ensures
        match hex_digit(b) {
            Some(v) => d matches Some(q) && q == v && q < 16,
            None => d is None,
        },
{
    if 48 <= b && b <= 57 {
        Some(b - 48)
    } else if 97 <= b && b <= 102 {
        Some(b - 87)
    } else if 65 <= b && b <= 70 {
        Some(b - 55)
    } else {
        None
    }
}

/// Reads a media key: sixteen hexadecimal digits, the eight bytes of an id
/// from the most significant. Anything else reads as 0.
pub fn parse_media_key(key: &str) -> (id: Id)
    ensures
        id == media_key_value(key.spec_bytes()),
{
    let b = key.as_bytes();
    if b.len() != 16 {
        return 0;
    }
    let mut v: u64 = 0;
    let mut i: usize = 0;
    while i < 8
        invariant
            b@ == key.spec_bytes(),
            b@.len() == 16,
            0 <= i <= 8,
            pairs_value(b@, i as nat) == Some(v as int),
        decreases 8 - i,
    {
        proof {
            lemma_pairs_value_bound(b@, i as nat);
            reveal_with_fuel(pow256, 9);
            assert(pow256(i as nat) <= pow256(7)) by {
                lemma_pow256_mono(i as nat, 7);
            }
        }
        match parse_hex_pair(b[2 * i], b[2 * i + 1]) {
            None => {
                proof {
                    assert(pairs_value(b@, (i + 1) as nat) is None);
                    lemma_pairs_value_none(b@, (i + 1) as nat, 8);
                }
                return 0;
            },
            Some(p) => {
                assert(256 * v + p < 0x1_0000_0000_0000_0000) by (nonlinear_arith)
                    requires
                        v < 0x100_0000_0000_0000,
                        p < 256,
                ;
                v = 256 * v + p as u64;
            },
        }
        i += 1;
    }
    if v < 0x8000_0000_0000_0000 {
        v as i64
    } else {
        let w = v - 0x8000_0000_0000_0000;
        (w as i64) + i64::MIN
    }
}

proof fn lemma_pairs_value_none(b: Seq<u8>, a: nat, c: nat)
    requires
        a <= c,
        pairs_value(b, a) is None,
    ensures
        pairs_value(b, c) is None,
    decreases c,
{
    if c > a {
        lemma_pairs_value_none(b, a, (c - 1) as nat);
    }
}

proof fn lemma_pow256_mono(a: nat, b: nat)
    requires
        a <= b,
    ensures
        pow256(a) <= pow256(b),
        pow256(a) >= 1,
    decreases b,
{
    if b > a {
        lemma_pow256_mono(a, (b - 1) as nat);
    } else if a > 0 {
        lemma_pow256_mono((a - 1) as nat, (a - 1) as nat);
    }
}

/// A key of the keyboard, as the interface knows it.
#[derive(Clone, Copy, Debug, PartialEq, Eq, Structural)]
pub enum Key {
    Alt,
    Control,
    Delete,
    Equals,
    Down,
    Escape,
    Left,
    Minus,
    Plus,
    Right,
    Shift,
    Space,
    Tab,
    Underscore,
    Up,
    A,
    B,
    C,
    D,
    E,
    F,
    G,
    H,
    I,
    J,
    K,
    L,
    M,
    N,
    O,
    P,
    Q,
    R,
    S,
    T,
    U,
    V,
    W,
    X,
    Y,
    Z,
    Unknown,
}

/// The key that the browser's name for it stands for. Letters are read in
/// either case, except a capital W, which no name maps to; `Backspace`
/// counts as `Delete`.
pub open spec fn key_named(name: Seq<char>) -> Key {
    if name == "Alt"@ {
        Key::Alt
    } else if name == "Backspace"@ {
        Key::Delete
    } else if name == "Control"@ {
        Key::Control
    } else if name == "Delete"@ {
        Key::Delete
    } else if name == "Escape"@ {
        Key::Escape
    } else if name == "Shift"@ {
        Key::Shift
    } else if name == "Tab"@ {
        Key::Tab
    } else if name == "ArrowDown"@ {
        Key::Down
    } else if name == "ArrowLeft"@ {
        Key::Left
    } else if name == "ArrowRight"@ {
        Key::Right
    } else if name == "ArrowUp"@ {
        Key::Up
    } else if name == "-"@ {
        Key::Minus
    } else if name == "_"@ {
        Key::Underscore
    } else if name == "="@ {
        Key::Equals
    } else if name == "+"@ {
        Key::Plus
    } else if name == " "@ {
        Key::Space
    } else if name == "a"@ {
        Key::A
    } else if name == "b"@ {
        Key::B
    } else if name == "c"@ {
        Key::C
    } else if name == "d"@ {
        Key::D
    } else if name == "e"@ {
        Key::E
    } else if name == "f"@ {
        Key::F
    } else if name == "g"@ {
        Key::G
    } else if name == "h"@ {
        Key::H
    } else if name == "i"@ {
        Key::I
    } else if name == "j"@ {
        Key::J
    } else if name == "k"@ {
        Key::K
    } else if name == "l"@ {
        Key::L
    } else if name == "m"@ {
        Key::M
    } else if name == "n"@ {
        Key::N
    } else if name == "o"@ {
        Key::O
    } else if name == "p"@ {
        Key::P
    } else if name == "q"@ {
        Key::Q
    } else if name == "r"@ {
        Key::R
    } else if name == "s"@ {
        Key::S
    } else if name == "t"@ {
        Key::T
    } else if name == "u"@ {
        Key::U
    } else if name == "v"@ {
        Key::V
    } else if name == "w"@ {
        Key::W
    } else if name == "x"@ {
        Key::X
    } else if name == "y"@ {
        Key::Y
    } else if name == "z"@ {
        Key::Z
    } else if name == "A"@ {
        Key::A
    } else if name == "B"@ {
        Key::B
    } else if name == "C"@ {
        Key::C
    } else if name == "D"@ {
        Key::D
    } else if name == "E"@ {
        Key::E
    } else if name == "F"@ {
        Key::F
    } else if name == "G"@ {
        Key::G
    } else if name == "H"@ {
        Key::H
    } else if name == "I"@ {
        Key::I
    } else if name == "J"@ {
        Key::J
    } else if name == "K"@ {
        Key::K
    } else if name == "L"@ {
        Key::L
    } else if name == "M"@ {
        Key::M
    } else if name == "N"@ {
        Key::N
    } else if name == "O"@ {
        Key::O
    } else if name == "P"@ {
        Key::P
    } else if name == "Q"@ {
        Key::Q
    } else if name == "R"@ {
        Key::R
    } else if name == "S"@ {
        Key::S
    } else if name == "T"@ {
        Key::T
    } else if name == "U"@ {
        Key::U
    } else if name == "V"@ {
        Key::V
    } else if name == "X"@ {
        Key::X
    } else if name == "Y"@ {
        Key::Y
    } else if name == "Z"@ {
        Key::Z
    } else {
        Key::Unknown
    }
}

impl Key {
    /// The key named by the browser's name for it; unknown names give
    /// `Key::Unknown`.
    pub fn from(key: &str) -> (k: Key)
        ensures
            k == key_named(key@),
    {
        if str_eq(key, "Alt") {
            Key::Alt
        } else if str_eq(key, "Backspace") {
            Key::Delete
        } else if str_eq(key, "Control") {
            Key::Control
        } else if str_eq(key, "Delete") {
            Key::Delete
        } else if str_eq(key, "Escape") {
            Key::Escape
        } else if str_eq(key, "Shift") {
            Key::Shift
        } else if str_eq(key, "Tab") {
            Key::Tab
        } else if str_eq(key, "ArrowDown") {
            Key::Down
        } else if str_eq(key, "ArrowLeft") {
            Key::Left
        } else if str_eq(key, "ArrowRight") {
            Key::Right
        } else if str_eq(key, "ArrowUp") {
            Key::Up
        } else if str_eq(key, "-") {
            Key::Minus
        } else if str_eq(key, "_") {
            Key::Underscore
        } else if str_eq(key, "=") {
            Key::Equals
        } else if str_eq(key, "+") {
            Key::Plus
        } else if str_eq(key, " ") {
            Key::Space
        } else if str_eq(key, "a") {
            Key::A
        } else if str_eq(key, "b") {
            Key::B
        } else if str_eq(key, "c") {
            Key::C
        } else if str_eq(key, "d") {
            Key::D
        } else if str_eq(key, "e") {
            Key::E
        } else if str_eq(key, "f") {
            Key::F
        } else if str_eq(key, "g") {
            Key::G
        } else if str_eq(key, "h") {
            Key::H
        } else if str_eq(key, "i") {
            Key::I
        } else if str_eq(key, "j") {
            Key::J
        } else if str_eq(key, "k") {
            Key::K
        } else if str_eq(key, "l") {
            Key::L
        } else if str_eq(key, "m") {
            Key::M
        } else if str_eq(key, "n") {
            Key::N
        } else if str_eq(key, "o") {
            Key::O
        } else if str_eq(key, "p") {
            Key::P
        } else if str_eq(key, "q") {
            Key::Q
        } else if str_eq(key, "r") {
            Key::R
        } else if str_eq(key, "s") {
            Key::S
        } else if str_eq(key, "t") {
            Key::T
        } else if str_eq(key, "u") {
            Key::U
        } else if str_eq(key, "v") {
            Key::V
        } else if str_eq(key, "w") {
            Key::W
        } else if str_eq(key, "x") {
            Key::X
        } else if str_eq(key, "y") {
            Key::Y
        } else if str_eq(key, "z") {
            Key::Z
        } else if str_eq(key, "A") {
            Key::A
        } else if str_eq(key, "B") {
            Key::B
        } else if str_eq(key, "C") {
            Key::C
        } else if str_eq(key, "D") {
            Key::D
        } else if str_eq(key, "E") {
            Key::E
        } else if str_eq(key, "F") {
            Key::F
        } else if str_eq(key, "G") {
            Key::G
        } else if str_eq(key, "H") {
            Key::H
        } else if str_eq(key, "I") {
            Key::I
        } else if str_eq(key, "J") {
            Key::J
        } else if str_eq(key, "K") {
            Key::K
        } else if str_eq(key, "L") {
            Key::L
        } else if str_eq(key, "M") {
            Key::M
        } else if str_eq(key, "N") {
            Key::N
        } else if str_eq(key, "O") {
            Key::O
        } else if str_eq(key, "P") {
            Key::P
        } else if str_eq(key, "Q") {
            Key::Q
        } else if str_eq(key, "R") {
            Key::R
        } else if str_eq(key, "S") {
            Key::S
        } else if str_eq(key, "T") {
            Key::T
        } else if str_eq(key, "U") {
            Key::U
        } else if str_eq(key, "V") {
            Key::V
        } else if str_eq(key, "X") {
            Key::X
        } else if str_eq(key, "Y") {
            Key::Y
        } else if str_eq(key, "Z") {
            Key::Z
        } else {
            Key::Unknown
        }
    }

    /// The key is one of the four arrows.
    pub fn is_arrow(&self) -> (b: bool)
        ensures
            b == (*self == Key::Down || *self == Key::Left || *self == Key::Right || *self == Key::Up),
    {
        match self {
            Key::Down | Key::Left | Key::Right | Key::Up => true,
            _ => false,
        }
    }
}

} // verus!
