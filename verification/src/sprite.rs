//! Sprites: a rectangle on a layer, drawn as a texture, a shape or a drawing.

use vstd::prelude::*;

use crate::comms::SceneEvent;
use crate::geom::{colour_eq, real_eq, with_dimension, Colour, Dimension, Point, Real, Rect};
use crate::text::{lowercase, str_eq, str_lowercase};
use crate::Id;

verus! {

#[derive(Clone, Copy, Debug, PartialEq, Eq, Structural)]
pub enum Shape {
    Ellipse,
    Hexagon,
    Rectangle,
    Triangle,
}

/// The shape that a lower-case name stands for; any other name is a rectangle.
pub open spec fn shape_named(lower: Seq<char>) -> Shape {
    if lower == "ellipse"@ {
        Shape::Ellipse
    } else if lower == "hexagon"@ {
        Shape::Hexagon
    } else if lower == "rectangle"@ {
        Shape::Rectangle
    } else if lower == "triangle"@ {
        Shape::Triangle
    } else {
        Shape::Rectangle
    }
}

impl Shape {
    /// Reads a shape from its name, ignoring case.
    pub fn from(name: &str) -> (s: Shape)
        ensures
            s == shape_named(str_lowercase(name@)),
    {
        let lower = lowercase(name);
        Shape::from_lowercase(lower.as_str())
    }

    /// Reads a shape from a name already in lower case.
    pub fn from_lowercase(lower: &str) -> (s: Shape)
        ensures
            s == shape_named(lower@),
    {
        if str_eq(lower, "ellipse") {
            Shape::Ellipse
        } else if str_eq(lower, "hexagon") {
            Shape::Hexagon
        } else if str_eq(lower, "rectangle") {
            Shape::Rectangle
        } else if str_eq(lower, "triangle") {
            Shape::Triangle
        } else {
            Shape::Rectangle
        }
    }

    pub fn to_str(&self) -> (s: &'static str)
        ensures
            s@ == (match *self {
                Shape::Ellipse => "ellipse"@,
                Shape::Hexagon => "hexagon"@,
                Shape::Rectangle => "rectangle"@,
                Shape::Triangle => "triangle"@,
            }),
    {
        match self {
            Shape::Ellipse => "ellipse",
            Shape::Hexagon => "hexagon",
            Shape::Rectangle => "rectangle",
            Shape::Triangle => "triangle",
        }
    }
}

#[derive(Clone, Copy, Debug, PartialEq, Eq, Structural)]
pub enum DrawingMode {
    Cone,
    Freehand,
    Line,
}

#[derive(Clone, Copy, Debug, PartialEq, Eq, Structural)]
pub enum Cap {
    Arrow,
    /// The line simply ends.
    Plain,
    Round,
}

/// The cap that a lower-case name stands for; any other name is no cap.
pub open spec fn cap_named(lower: Seq<char>) -> Cap {
    if lower == "arrow"@ {
        Cap::Arrow
    } else if lower == "round"@ {
        Cap::Round
    } else {
        Cap::Plain
    }
}

impl Cap {
    pub const DEFAULT_START: Cap = Cap::Round;
    pub const DEFAULT_END: Cap = Cap::Arrow;

    /// Reads a line cap from its name, ignoring case.
    pub fn from(name: &str) -> (c: Cap)
        ensures
            c == cap_named(str_lowercase(name@)),
    {
        let lower = lowercase(name);
        Cap::from_lowercase(lower.as_str())
    }

    /// Reads a line cap from a name already in lower case.
    pub fn from_lowercase(lower: &str) -> (c: Cap)
        ensures
            c == cap_named(lower@),
    {
        if str_eq(lower, "arrow") {
            Cap::Arrow
        } else if str_eq(lower, "round") {
            Cap::Round
        } else {
            Cap::Plain
        }
    }

    pub fn to_str(&self) -> (s: &'static str)
        ensures
            s@ == (match *self {
                Cap::Arrow => "arrow"@,
                Cap::Plain => "none"@,
                Cap::Round => "round"@,
            }),
    {
        match self {
            Cap::Arrow => "arrow",
            Cap::Plain => "none",
            Cap::Round => "round",
        }
    }
}

/// How a sprite is drawn.
#[derive(Clone, Copy, Debug)]
pub enum Visual {
    Texture { shape: Shape, id: Id },
    Shape { shape: Shape, stroke: Real, solid: bool, colour: Colour },
    Drawing {
        drawing: Id,
        mode: DrawingMode,
        colour: Colour,
        stroke: Real,
        cap_start: Cap,
        cap_end: Cap,
    },
}

/// A stroke of width zero, within single-precision epsilon (2^-23), fills the
/// shape. For a bit pattern this holds exactly when its magnitude is at most
/// that of epsilon; a NaN never does.
pub open spec fn is_solid_stroke(stroke: Real) -> bool {
    (stroke.bits & 0x7fff_ffffu32) <= 0x3400_0000u32
}

/// Equality of visuals, comparing numbers as IEEE-754 does.
pub open spec fn visual_eq(a: Visual, b: Visual) -> bool {
    match (a, b) {
        (Visual::Texture { shape: s1, id: i1 }, Visual::Texture { shape: s2, id: i2 }) => s1 == s2
            && i1 == i2,
        (
            Visual::Shape { shape: s1, stroke: t1, solid: d1, colour: c1 },
            Visual::Shape { shape: s2, stroke: t2, solid: d2, colour: c2 },
        ) => s1 == s2 && real_eq(t1, t2) && d1 == d2 && colour_eq(c1, c2),
        (
            Visual::Drawing {
                drawing: g1,
                mode: m1,
                colour: c1,
                stroke: t1,
                cap_start: a1,
                cap_end: e1,
            },
            Visual::Drawing {
                drawing: g2,
                mode: m2,
                colour: c2,
                stroke: t2,
                cap_start: a2,
                cap_end: e2,
            },
        ) => g1 == g2 && m1 == m2 && colour_eq(c1, c2) && real_eq(t1, t2) && a1 == a2 && e1
            == e2,
        _ => false,
    }
}

/// The visual recoloured, where it has a colour.
pub open spec fn recoloured(v: Visual, c: Colour) -> Option<Visual> {
    match v {
        Visual::Shape { shape, stroke, solid, .. } => Some(Visual::Shape { shape, stroke, solid, colour: c }),
        Visual::Drawing { drawing, mode, stroke, cap_start, cap_end, .. } => Some(
            Visual::Drawing { drawing, mode, colour: c, stroke, cap_start, cap_end },
        ),
        Visual::Texture { .. } => None,
    }
}

/// The visual reshaped, where it has a shape; a shape keeps whether it is
/// solid.
pub open spec fn reshaped(v: Visual, new: Shape) -> Option<Visual> {
    match v {
        Visual::Shape { colour, stroke, .. } => Some(
            Visual::Shape { colour, shape: new, stroke, solid: spec_visual_solid(v) },
        ),
        Visual::Texture { id, .. } => Some(Visual::Texture { id, shape: new }),
        Visual::Drawing { .. } => None,
    }
}

/// The visual with another stroke width, where it has one.
pub open spec fn restroked(v: Visual, new: Real) -> Option<Visual> {
    match v {
        Visual::Shape { shape, solid, colour, .. } => Some(Visual::Shape { shape, stroke: new, solid, colour }),
        Visual::Drawing { drawing, mode, colour, cap_start, cap_end, .. } => Some(
            Visual::Drawing { drawing, mode, colour, stroke: new, cap_start, cap_end },
        ),
        Visual::Texture { .. } => None,
    }
}

/// The shape visual made solid or hollow.
pub open spec fn with_solid(v: Visual, new: bool) -> Option<Visual> {
    match v {
        Visual::Shape { shape, stroke, colour, .. } => Some(Visual::Shape { shape, stroke, solid: new, colour }),
        _ => None,
    }
}

/// The texture visual pointed at another texture.
pub open spec fn retextured(v: Visual, new: Id) -> Option<Visual> {
    match v {
        Visual::Texture { shape, .. } => Some(Visual::Texture { id: new, shape }),
        _ => None,
    }
}

/// The drawing visual with the given caps, each kept where none is given.
pub open spec fn recapped(v: Visual, start: Option<Cap>, end: Option<Cap>) -> Option<Visual> {
    match v {
        Visual::Drawing { drawing, mode, colour, stroke, cap_start, cap_end } => Some(
            Visual::Drawing {
                drawing,
                mode,
                colour,
                stroke,
                cap_start: match start {
                    Some(c) => c,
                    None => cap_start,
                },
                cap_end: match end {
                    Some(c) => c,
                    None => cap_end,
                },
            },
        ),
        _ => None,
    }
}

/// A sprite after a change of visual, with the event it gives.
pub open spec fn visual_changed(s: Sprite, new: Option<Visual>) -> (Sprite, Option<SceneEvent>) {
    match new {
        Some(v) => (Sprite { visual: v, ..s }, Some(SceneEvent::SpriteVisual(s.id, s.visual, v))),
        None => (s, None),
    }
}

/// A sprite is drawn as a shape that is solid, or with a solid stroke.
pub open spec fn spec_visual_solid(v: Visual) -> bool {
    match v {
        Visual::Shape { solid, stroke, .. } => solid || is_solid_stroke(stroke),
        Visual::Drawing { stroke, .. } => is_solid_stroke(stroke),
        _ => false,
    }
}

pub fn is_solid_stroke_exec(stroke: Real) -> (b: bool)
    ensures
        b == is_solid_stroke(stroke),
{
    (stroke.bits & 0x7fff_ffff) <= 0x3400_0000
}

impl Visual {
    /// A shape visual; a zero stroke makes it solid.
    pub fn new_shape(colour: Colour, shape: Shape, stroke: Real, solid: bool) -> (v: Visual)
        ensures
            v == (Visual::Shape { shape, stroke, solid: solid || is_solid_stroke(stroke), colour }),
    {
        Visual::Shape { shape, stroke, solid: solid || is_solid_stroke_exec(stroke), colour }
    }

    pub fn is_solid(&self) -> (b: bool)
        ensures
            b == spec_visual_solid(*self),
    {
        match self {
            Visual::Shape { solid, stroke, .. } => *solid || is_solid_stroke_exec(*stroke),
            Visual::Drawing { stroke, .. } => is_solid_stroke_exec(*stroke),
            _ => false,
        }
    }

    pub fn colour(&self) -> (c: Option<Colour>)
        ensures
            c == (match *self {
                Visual::Shape { colour, .. } => Some(colour),
                Visual::Drawing { colour, .. } => Some(colour),
                _ => None,
            }),
    {
        match self {
            Visual::Shape { colour, .. } => Some(*colour),
            Visual::Drawing { colour, .. } => Some(*colour),
            _ => None,
        }
    }

    pub fn texture(&self) -> (t: Option<Id>)
        ensures
            t == (match *self {
                Visual::Texture { id, .. } => Some(id),
                _ => None,
            }),
    {
        match self {
            Visual::Texture { id, .. } => Some(*id),
            _ => None,
        }
    }

    pub fn shape(&self) -> (s: Option<Shape>)
        ensures
            s == (match *self {
                Visual::Shape { shape, .. } => Some(shape),
                Visual::Texture { shape, .. } => Some(shape),
                _ => None,
            }),
    {
        match self {
            Visual::Shape { shape, .. } => Some(*shape),
            Visual::Texture { shape, .. } => Some(*shape),
            _ => None,
        }
    }

    pub fn drawing(&self) -> (d: Option<Id>)
        ensures
            d == (match *self {
                Visual::Drawing { drawing, .. } => Some(drawing),
                _ => None,
            }),
    {
        match self {
            Visual::Drawing { drawing, .. } => Some(*drawing),
            _ => None,
        }
    }

    pub fn stroke(&self) -> (s: Option<Real>)
        ensures
            s == (match *self {
                Visual::Shape { stroke, .. } => Some(stroke),
                Visual::Drawing { stroke, .. } => Some(stroke),
                _ => None,
            }),
    {
        match self {
            Visual::Shape { stroke, .. } => Some(*stroke),
            Visual::Drawing { stroke, .. } => Some(*stroke),
            _ => None,
        }
    }

    pub fn solid(&self) -> (s: Option<bool>)
        ensures
            s == (match *self {
                Visual::Shape { solid, .. } => Some(solid),
                _ => None,
            }),
    {
        match self {
            Visual::Shape { solid, .. } => Some(*solid),
            _ => None,
        }
    }

    pub fn cap_start(&self) -> (c: Option<Cap>)
        ensures
            c == (match *self {
                Visual::Drawing { cap_start, .. } => Some(cap_start),
                _ => None,
            }),
    {
        match self {
            Visual::Drawing { cap_start, .. } => Some(*cap_start),
            _ => None,
        }
    }

    pub fn cap_end(&self) -> (c: Option<Cap>)
        ensures
            c == (match *self {
                Visual::Drawing { cap_end, .. } => Some(cap_end),
                _ => None,
            }),
    {
        match self {
            Visual::Drawing { cap_end, .. } => Some(*cap_end),
            _ => None,
        }
    }

    pub fn drawing_mode(&self) -> (m: Option<DrawingMode>)
        ensures
            m == (match *self {
                Visual::Drawing { mode, .. } => Some(mode),
                _ => None,
            }),
    {
        match self {
            Visual::Drawing { mode, .. } => Some(*mode),
            _ => None,
        }
    }

    pub fn same_as(&self, other: &Visual) -> (b: bool)
        ensures
            b == visual_eq(*self, *other),
    {
        match (self, other) {
            (Visual::Texture { shape: s1, id: i1 }, Visual::Texture { shape: s2, id: i2 }) => *s1
                == *s2 && *i1 == *i2,
            (
                Visual::Shape { shape: s1, stroke: t1, solid: d1, colour: c1 },
                Visual::Shape { shape: s2, stroke: t2, solid: d2, colour: c2 },
            ) => *s1 == *s2 && t1.same_as(t2) && *d1 == *d2 && c1.same_as(c2),
            (
                Visual::Drawing {
                    drawing: g1,
                    mode: m1,
                    colour: c1,
                    stroke: t1,
                    cap_start: a1,
                    cap_end: e1,
                },
                Visual::Drawing {
                    drawing: g2,
                    mode: m2,
                    colour: c2,
                    stroke: t2,
                    cap_start: a2,
                    cap_end: e2,
                },
            ) => *g1 == *g2 && *m1 == *m2 && c1.same_as(c2) && t1.same_as(t2) && *a1 == *a2 && *e1
                == *e2,
            _ => false,
        }
    }
}

/// A sprite: an item on a layer, with its place, its height among the other
/// sprites of the layer, and its look.
#[derive(Clone, Copy, Debug)]
pub struct Sprite {
    pub id: Id,
    pub rect: Rect,
    pub z: i32,
    pub visual: Visual,
}

/// Magenta, opaque.
pub open spec fn default_colour() -> Colour {
    Colour(
        [
            Real { bits: Real::ONE_BITS },
            Real { bits: 0 },
            Real { bits: Real::ONE_BITS },
            Real { bits: Real::ONE_BITS },
        ],
    )
}

/// A solid magenta rectangle.
pub open spec fn default_visual() -> Visual {
    Visual::Shape {
        colour: default_colour(),
        shape: Shape::Rectangle,
        stroke: Real { bits: 0 },
        solid: false,
    }
}

/// A one-by-one sprite at the origin, at height 1, drawn as `visual` or by
/// default as a magenta rectangle.
pub open spec fn new_sprite_spec(id: Id, visual: Option<Visual>) -> Sprite {
    Sprite {
        id,
        rect: Rect {
            x: Real { bits: 0 },
            y: Real { bits: 0 },
            w: Real { bits: Real::ONE_BITS },
            h: Real { bits: Real::ONE_BITS },
        },
        z: 1,
        visual: match visual {
            Some(v) => v,
            None => default_visual(),
        },
    }
}

impl Sprite {
    /// A one-by-one sprite at the origin, at height 1, drawn as `visual` or
    /// by default as a magenta rectangle.
    pub fn new(id: Id, visual: Option<Visual>) -> (s: Sprite)
        ensures
            s == new_sprite_spec(id, visual),
    {
        let v = match visual {
            Some(v) => v,
            None => Visual::Shape {
                colour: Colour([Real::one(), Real::zero(), Real::one(), Real::one()]),
                shape: Shape::Rectangle,
                stroke: Real::zero(),
                solid: false,
            },
        };
        Sprite { id, rect: Rect::new(Real::zero(), Real::zero(), Real::one(), Real::one()), z: 1, visual: v }
    }

    pub fn set_rect(&mut self, rect: Rect) -> (e: SceneEvent)
        ensures
            *final(self) == (Sprite { rect, ..*old(self) }),
            e == SceneEvent::SpriteMove(old(self).id, old(self).rect, rect),
    {
        let from = self.rect;
        self.rect = rect;
        SceneEvent::SpriteMove(self.id, from, self.rect)
    }

    pub fn set_pos(&mut self, pos: Point) -> (e: SceneEvent)
        ensures
            *final(self) == (Sprite { rect: old(self).rect.moved_to_spec(pos), ..*old(self) }),
            e == SceneEvent::SpriteMove(old(self).id, old(self).rect, old(self).rect.moved_to_spec(pos)),
    {
        let r = self.rect.moved_to(pos);
        self.set_rect(r)
    }

    pub fn set_dimension(&mut self, dimension: Dimension, value: Real) -> (e: SceneEvent)
        ensures
            *final(self) == (Sprite { rect: with_dimension(old(self).rect, dimension, value), ..*old(self) }),
            final(self).id == old(self).id && final(self).z == old(self).z,
            final(self).visual == old(self).visual,
            final(self).rect.x == (if dimension == Dimension::X { value } else { old(self).rect.x }),
            final(self).rect.y == (if dimension == Dimension::Y { value } else { old(self).rect.y }),
            final(self).rect.w == (if dimension == Dimension::W { value } else { old(self).rect.w }),
            final(self).rect.h == (if dimension == Dimension::H { value } else { old(self).rect.h }),
            e == SceneEvent::SpriteMove(old(self).id, old(self).rect, final(self).rect),
    {
        let r = self.rect.dimension(dimension, value);
        self.set_rect(r)
    }

    /// Replaces the visual, returning an event from the old one to the new.
    pub fn set_visual(&mut self, new: Visual) -> (e: SceneEvent)
        ensures
            *final(self) == (Sprite { visual: new, ..*old(self) }),
            e == SceneEvent::SpriteVisual(old(self).id, old(self).visual, new),
    {
        let old_visual = self.visual;
        self.visual = new;
        SceneEvent::SpriteVisual(self.id, old_visual, self.visual)
    }

    pub fn pos(&self) -> (p: Point)
        ensures
            p.x == self.rect.x && p.y == self.rect.y,
    {
        Point { x: self.rect.x, y: self.rect.y }
    }

    /// Recolours a shape or drawing; a texture has no colour to change.
    pub fn set_colour(&mut self, new: Colour) -> (e: Option<SceneEvent>)
        ensures
            (*final(self), e) == visual_changed(*old(self), recoloured(old(self).visual, new)),
            final(self).id == old(self).id && final(self).rect == old(self).rect
                && final(self).z == old(self).z,
            match old(self).visual {
                Visual::Shape { shape, stroke, solid, .. } => {
                    &&& final(self).visual == Visual::Shape { shape, stroke, solid, colour: new }
                    &&& e == Some(SceneEvent::SpriteVisual(old(self).id, old(self).visual, final(self).visual))
                },
                Visual::Drawing { drawing, mode, stroke, cap_start, cap_end, .. } => {
                    &&& final(self).visual == Visual::Drawing {
                        drawing,
                        mode,
                        colour: new,
                        stroke,
                        cap_start,
                        cap_end,
                    }
                    &&& e == Some(SceneEvent::SpriteVisual(old(self).id, old(self).visual, final(self).visual))
                },
                Visual::Texture { .. } => final(self).visual == old(self).visual && e is None,
            },
    {
        let old_visual = self.visual;
        match self.visual {
            Visual::Shape { shape, stroke, solid, .. } => {
                self.visual = Visual::Shape { shape, stroke, solid, colour: new };
                Some(SceneEvent::SpriteVisual(self.id, old_visual, self.visual))
            },
            Visual::Drawing { drawing, mode, stroke, cap_start, cap_end, .. } => {
                self.visual = Visual::Drawing { drawing, mode, colour: new, stroke, cap_start, cap_end };
                Some(SceneEvent::SpriteVisual(self.id, old_visual, self.visual))
            },
            Visual::Texture { .. } => None,
        }
    }

    /// Reshapes a shape or texture; a shape keeps whether it was solid.
    pub fn set_shape(&mut self, new: Shape) -> (e: Option<SceneEvent>)
        ensures
            (*final(self), e) == visual_changed(*old(self), reshaped(old(self).visual, new)),
            final(self).id == old(self).id && final(self).rect == old(self).rect
                && final(self).z == old(self).z,
            match old(self).visual {
                Visual::Shape { colour, stroke, .. } => {
                    &&& final(self).visual == Visual::Shape {
                        colour,
                        shape: new,
                        stroke,
                        solid: spec_visual_solid(old(self).visual),
                    }
                    &&& e == Some(SceneEvent::SpriteVisual(old(self).id, old(self).visual, final(self).visual))
                },
                Visual::Texture { id, .. } => {
                    &&& final(self).visual == Visual::Texture { id, shape: new }
                    &&& e == Some(SceneEvent::SpriteVisual(old(self).id, old(self).visual, final(self).visual))
                },
                Visual::Drawing { .. } => final(self).visual == old(self).visual && e is None,
            },
    {
        let old_visual = self.visual;
        match self.visual {
            Visual::Shape { colour, stroke, .. } => {
                self.visual = Visual::Shape { colour, shape: new, stroke, solid: old_visual.is_solid() };
                Some(SceneEvent::SpriteVisual(self.id, old_visual, self.visual))
            },
            Visual::Texture { id, .. } => {
                self.visual = Visual::Texture { id, shape: new };
                Some(SceneEvent::SpriteVisual(self.id, old_visual, self.visual))
            },
            Visual::Drawing { .. } => None,
        }
    }

    /// Changes the stroke width of a shape or drawing.
    pub fn set_stroke(&mut self, new: Real) -> (e: Option<SceneEvent>)
        ensures
            (*final(self), e) == visual_changed(*old(self), restroked(old(self).visual, new)),
            final(self).id == old(self).id && final(self).rect == old(self).rect
                && final(self).z == old(self).z,
            match old(self).visual {
                Visual::Shape { shape, solid, colour, .. } => {
                    &&& final(self).visual == Visual::Shape { shape, stroke: new, solid, colour }
                    &&& e == Some(SceneEvent::SpriteVisual(old(self).id, old(self).visual, final(self).visual))
                },
                Visual::Drawing { drawing, mode, colour, cap_start, cap_end, .. } => {
                    &&& final(self).visual == Visual::Drawing {
                        drawing,
                        mode,
                        colour,
                        stroke: new,
                        cap_start,
                        cap_end,
                    }
                    &&& e == Some(SceneEvent::SpriteVisual(old(self).id, old(self).visual, final(self).visual))
                },
                Visual::Texture { .. } => final(self).visual == old(self).visual && e is None,
            },
    {
        let old_visual = self.visual;
        match self.visual {
            Visual::Shape { shape, solid, colour, .. } => {
                self.visual = Visual::Shape { shape, stroke: new, solid, colour };
                Some(SceneEvent::SpriteVisual(self.id, old_visual, self.visual))
            },
            Visual::Drawing { drawing, mode, colour, cap_start, cap_end, .. } => {
                self.visual = Visual::Drawing { drawing, mode, colour, stroke: new, cap_start, cap_end };
                Some(SceneEvent::SpriteVisual(self.id, old_visual, self.visual))
            },
            Visual::Texture { .. } => None,
        }
    }

    /// Makes a shape solid or hollow.
    pub fn set_solid(&mut self, new: bool) -> (e: Option<SceneEvent>)
        ensures
            (*final(self), e) == visual_changed(*old(self), with_solid(old(self).visual, new)),
            final(self).id == old(self).id && final(self).rect == old(self).rect
                && final(self).z == old(self).z,
            match old(self).visual {
                Visual::Shape { shape, stroke, colour, .. } => {
                    &&& final(self).visual == Visual::Shape { shape, stroke, solid: new, colour }
                    &&& e == Some(SceneEvent::SpriteVisual(old(self).id, old(self).visual, final(self).visual))
                },
                _ => final(self).visual == old(self).visual && e is None,
            },
    {
        let old_visual = self.visual;
        match self.visual {
            Visual::Shape { shape, stroke, colour, .. } => {
                self.visual = Visual::Shape { shape, stroke, solid: new, colour };
                Some(SceneEvent::SpriteVisual(self.id, old_visual, self.visual))
            },
            _ => None,
        }
    }

    /// Points a texture sprite at another texture.
    pub fn set_texture(&mut self, new: Id) -> (e: Option<SceneEvent>)
        ensures
            (*final(self), e) == visual_changed(*old(self), retextured(old(self).visual, new)),
            final(self).id == old(self).id && final(self).rect == old(self).rect
                && final(self).z == old(self).z,
            match old(self).visual {
                Visual::Texture { shape, .. } => {
                    &&& final(self).visual == Visual::Texture { id: new, shape }
                    &&& e == Some(SceneEvent::SpriteVisual(old(self).id, old(self).visual, final(self).visual))
                },
                _ => final(self).visual == old(self).visual && e is None,
            },
    {
        let old_visual = self.visual;
        match self.visual {
            Visual::Texture { shape, .. } => {
                self.visual = Visual::Texture { id: new, shape };
                Some(SceneEvent::SpriteVisual(self.id, old_visual, self.visual))
            },
            _ => None,
        }
    }

    /// Changes how a drawing sprite is drawn.
    pub fn set_drawing_type(&mut self, new: DrawingMode) -> (e: Option<SceneEvent>)
        ensures
            final(self).id == old(self).id && final(self).rect == old(self).rect
                && final(self).z == old(self).z,
            match old(self).visual {
                Visual::Drawing { drawing, colour, stroke, cap_start, cap_end, .. } => {
                    &&& final(self).visual == Visual::Drawing {
                        drawing,
                        mode: new,
                        colour,
                        stroke,
                        cap_start,
                        cap_end,
                    }
                    &&& e == Some(SceneEvent::SpriteVisual(old(self).id, old(self).visual, final(self).visual))
                },
                _ => final(self).visual == old(self).visual && e is None,
            },
    {
        let old_visual = self.visual;
        match self.visual {
            Visual::Drawing { drawing, colour, stroke, cap_start, cap_end, .. } => {
                self.visual = Visual::Drawing { drawing, mode: new, colour, stroke, cap_start, cap_end };
                Some(SceneEvent::SpriteVisual(self.id, old_visual, self.visual))
            },
            _ => None,
        }
    }

    /// Changes the caps of a drawing; `None` keeps a cap as it is.
    pub fn set_caps(&mut self, start: Option<Cap>, end: Option<Cap>) -> (e: Option<SceneEvent>)
        ensures
            (*final(self), e) == visual_changed(*old(self), recapped(old(self).visual, start, end)),
            final(self).id == old(self).id && final(self).rect == old(self).rect
                && final(self).z == old(self).z,
            match old(self).visual {
                Visual::Drawing { drawing, mode, colour, stroke, cap_start, cap_end } => {
                    &&& final(self).visual == Visual::Drawing {
                        drawing,
                        mode,
                        colour,
                        stroke,
                        cap_start: match start { Some(c) => c, None => cap_start },
                        cap_end: match end { Some(c) => c, None => cap_end },
                    }
                    &&& e == Some(SceneEvent::SpriteVisual(old(self).id, old(self).visual, final(self).visual))
                },
                _ => final(self).visual == old(self).visual && e is None,
            },
    {
        let before = self.visual;
        match self.visual {
            Visual::Drawing { drawing, mode, colour, stroke, cap_start, cap_end } => {
                let s = match start {
                    Some(c) => c,
                    None => cap_start,
                };
                let t = match end {
                    Some(c) => c,
                    None => cap_end,
                };
                self.visual = Visual::Drawing { drawing, mode, colour, stroke, cap_start: s, cap_end: t };
                Some(SceneEvent::SpriteVisual(self.id, before, self.visual))
            },
            _ => None,
        }
    }

    /// Once a drawing is finished, its sprite takes the drawing's rectangle.
    pub fn drawing_finished(&mut self, rect: Rect)
        ensures
            *final(self) == (if old(self).visual is Drawing {
                Sprite { rect, ..*old(self) }
            } else {
                *old(self)
            }),
    {
        if let Visual::Drawing { .. } = self.visual {
            self.rect = rect;
        }
    }
}

} // verus!
