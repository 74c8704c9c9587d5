//! The sprite menu's view of one or more sprites: each setting known, or
//! left open where the selected sprites differ, and how a sprite takes the
//! settings that are known.

use vstd::prelude::*;

use crate::comms::SceneEvent;
use crate::geom::{colour_eq, is_nan_bits, real_eq, with_dimension, Colour, Dimension, Real};
use crate::sprite::{
    default_colour, recapped, recoloured, reshaped, restroked, retextured, visual_changed,
    with_solid, Cap, DrawingMode, Shape, Sprite, Visual,
};
use crate::Id;

verus! {

/// The stroke width a new drawing gets, 0.2 as a single-precision number.
pub const DEFAULT_STROKE_BITS: u32 = 0x3e4c_cccd;

/// The settings of a sprite, each of them possibly left open.
#[derive(Clone, Copy, Debug)]
pub struct SpriteDetails {
    pub id: Id,
    pub x: Option<Real>,
    pub y: Option<Real>,
    pub w: Option<Real>,
    pub h: Option<Real>,
    pub shape: Option<Shape>,
    pub stroke: Option<Real>,
    pub solid: Option<bool>,
    pub colour: Option<Colour>,
    pub texture: Option<Id>,
    pub cap_start: Option<Cap>,
    pub cap_end: Option<Cap>,
}

pub open spec fn visual_shape(v: Visual) -> Option<Shape> {
    match v {
        Visual::Shape { shape, .. } => Some(shape),
        Visual::Texture { shape, .. } => Some(shape),
        _ => None,
    }
}

pub open spec fn visual_stroke(v: Visual) -> Option<Real> {
    match v {
        Visual::Shape { stroke, .. } => Some(stroke),
        Visual::Drawing { stroke, .. } => Some(stroke),
        _ => None,
    }
}

pub open spec fn visual_solid(v: Visual) -> Option<bool> {
    match v {
        Visual::Shape { solid, .. } => Some(solid),
        _ => None,
    }
}

pub open spec fn visual_colour(v: Visual) -> Option<Colour> {
    match v {
        Visual::Shape { colour, .. } => Some(colour),
        Visual::Drawing { colour, .. } => Some(colour),
        _ => None,
    }
}

pub open spec fn visual_texture(v: Visual) -> Option<Id> {
    match v {
        Visual::Texture { id, .. } => Some(id),
        _ => None,
    }
}

pub open spec fn visual_cap_start(v: Visual) -> Option<Cap> {
    match v {
        Visual::Drawing { cap_start, .. } => Some(cap_start),
        _ => None,
    }
}

pub open spec fn visual_cap_end(v: Visual) -> Option<Cap> {
    match v {
        Visual::Drawing { cap_end, .. } => Some(cap_end),
        _ => None,
    }
}

/// The stroke width of the settings; 0.2 when none is known.
pub open spec fn details_stroke(d: SpriteDetails) -> Real {
    match d.stroke {
        Some(v) => v,
        None => Real { bits: DEFAULT_STROKE_BITS },
    }
}

/// The colour of the settings; magenta when none is known.
pub open spec fn details_colour(d: SpriteDetails) -> Colour {
    match d.colour {
        Some(v) => v,
        None => default_colour(),
    }
}

/// The cap at the start of a line; round when none is known.
pub open spec fn details_cap_start(d: SpriteDetails) -> Cap {
    match d.cap_start {
        Some(v) => v,
        None => Cap::Round,
    }
}

/// The cap at the end of a line; an arrow when none is known.
pub open spec fn details_cap_end(d: SpriteDetails) -> Cap {
    match d.cap_end {
        Some(v) => v,
        None => Cap::Arrow,
    }
}

/// The number is below single-precision epsilon (2^-23): any number below
/// zero, or a non-negative one whose bit pattern is under that of epsilon.
pub open spec fn below_epsilon(r: Real) -> bool {
    (r.bits >= 0x8000_0000 && !is_nan_bits(r.bits)) || r.bits < 0x3400_0000
}

/// A setting stays known only where the sprite has the same number, as
/// floating-point comparison judges it.
pub open spec fn keep_same_real(o: Option<Real>, v: Option<Real>) -> Option<Real> {
    match (o, v) {
        (Some(a), Some(b)) => if real_eq(a, b) {
            o
        } else {
            None
        },
        _ => None,
    }
}

/// A known setting is left open where the sprite differs.
pub open spec fn keep_same<T>(o: Option<T>, v: Option<T>) -> Option<T> {
    if o is Some && o != v {
        None
    } else {
        o
    }
}

pub open spec fn keep_same_colour(o: Option<Colour>, v: Option<Colour>) -> Option<Colour> {
    match (o, v) {
        (Some(a), Some(b)) => if colour_eq(a, b) {
            o
        } else {
            None
        },
        (Some(_), None) => None,
        _ => o,
    }
}

/// The settings that `d` and a sprite have in common.
pub open spec fn common_spec(d: SpriteDetails, s: Sprite) -> SpriteDetails {
    SpriteDetails {
        x: keep_same_real(d.x, Some(s.rect.x)),
        y: keep_same_real(d.y, Some(s.rect.y)),
        w: keep_same_real(d.w, Some(s.rect.w)),
        h: keep_same_real(d.h, Some(s.rect.h)),
        shape: keep_same(d.shape, visual_shape(s.visual)),
        stroke: match d.stroke {
            Some(_) => keep_same_real(d.stroke, visual_stroke(s.visual)),
            None => None,
        },
        solid: keep_same(d.solid, visual_solid(s.visual)),
        colour: keep_same_colour(d.colour, visual_colour(s.visual)),
        texture: keep_same(d.texture, visual_texture(s.visual)),
        cap_start: keep_same(d.cap_start, visual_cap_start(s.visual)),
        cap_end: keep_same(d.cap_end, visual_cap_end(s.visual)),
        ..d
    }
}

/// A sprite after one of its numbers is set, with the move it records.
pub open spec fn dimension_step(
    s: Sprite,
    ev: Seq<SceneEvent>,
    d: Dimension,
    v: Option<Real>,
) -> (Sprite, Seq<SceneEvent>) {
    match v {
        Some(x) => (
            Sprite { rect: with_dimension(s.rect, d, x), ..s },
            ev.push(SceneEvent::SpriteMove(s.id, s.rect, with_dimension(s.rect, d, x))),
        ),
        None => (s, ev),
    }
}

/// A sprite after a change of visual, with the event it records.
pub open spec fn visual_step(s: Sprite, ev: Seq<SceneEvent>, new: Option<Visual>) -> (Sprite, Seq<SceneEvent>) {
    let r = visual_changed(s, new);
    (
        r.0,
        match r.1 {
            Some(e) => ev.push(e),
            None => ev,
        },
    )
}

/// The sprite after it takes each known setting in turn (its numbers, then
/// shape, stroke, solidity, colour, texture and caps), with the events of
/// the changes.
pub open spec fn update_sprite_spec(d: SpriteDetails, s: Sprite) -> (Sprite, Seq<SceneEvent>) {
    let a = dimension_step(s, Seq::empty(), Dimension::X, d.x);
    let b = dimension_step(a.0, a.1, Dimension::Y, d.y);
    let c = dimension_step(b.0, b.1, Dimension::W, d.w);
    let e = dimension_step(c.0, c.1, Dimension::H, d.h);
    let f = match d.shape {
        Some(sh) => visual_step(e.0, e.1, reshaped(e.0.visual, sh)),
        None => e,
    };
    let g = match d.stroke {
        Some(st) => visual_step(f.0, f.1, restroked(f.0.visual, st)),
        None => f,
    };
    let h = match d.solid {
        Some(so) => visual_step(g.0, g.1, with_solid(g.0.visual, so)),
        None => g,
    };
    let i = match d.colour {
        Some(co) => visual_step(h.0, h.1, recoloured(h.0.visual, co)),
        None => h,
    };
    let j = match d.texture {
        Some(t) => visual_step(i.0, i.1, retextured(i.0.visual, t)),
        None => i,
    };
    visual_step(j.0, j.1, recapped(j.0.visual, d.cap_start, d.cap_end))
}

/// `r` gathers the events as `SceneEvent::set` does: none, the one event,
/// or a set of them.
pub open spec fn gathered(r: Option<SceneEvent>, s: Seq<SceneEvent>) -> bool {
    &&& s.len() == 0 ==> r is None
    &&& s.len() == 1 ==> r == Some(s[0])
    &&& s.len() > 1 ==> (r matches Some(SceneEvent::EventSet(v)) && v@ == s)
}

fn same_real(a: Option<Real>, b: Option<Real>) -> (r: Option<Real>)
    ensures
        r == keep_same_real(a, b),
{
    match (a, b) {
        (Some(x), Some(y)) => if x.same_as(&y) {
            a
        } else {
            None
        },
        _ => None,
    }
}

/// Sets one of the sprite's numbers, where it is known, recording the move.
fn dimension_into(sprite: &mut Sprite, events: &mut Vec<SceneEvent>, d: Dimension, v: Option<Real>)
    ensures
        (*final(sprite), final(events)@) == dimension_step(*old(sprite), old(events)@, d, v),
{
    if let Some(x) = v {
        let e = sprite.set_dimension(d, x);
        events.push(e);
    }
}

/// Records an event, where there is one.
fn push_some(events: &mut Vec<SceneEvent>, e: Option<SceneEvent>)
    ensures
        final(events)@ == (match e {
            Some(x) => old(events)@.push(x),
            None => old(events)@,
        }),
{
    if let Some(x) = e {
        events.push(x);
    }
}

impl SpriteDetails {
    /// Nothing known, for the sprite with id 0.
    pub fn new() -> (d: SpriteDetails)
        ensures
            d.id == 0 && d.x is None && d.y is None && d.w is None && d.h is None,
            d.shape is None && d.stroke is None && d.solid is None && d.colour is None,
            d.texture is None && d.cap_start is None && d.cap_end is None,
    {
        SpriteDetails {
            id: 0,
            x: None,
            y: None,
            w: None,
            h: None,
            shape: None,
            stroke: None,
            solid: None,
            colour: None,
            texture: None,
            cap_start: None,
            cap_end: None,
        }
    }

    /// Every setting of a sprite, under the given id.
    pub fn from(id: Id, sprite: &Sprite) -> (d: SpriteDetails)
        ensures
            d == (SpriteDetails {
                id,
                x: Some(sprite.rect.x),
                y: Some(sprite.rect.y),
                w: Some(sprite.rect.w),
                h: Some(sprite.rect.h),
                shape: visual_shape(sprite.visual),
                stroke: visual_stroke(sprite.visual),
                solid: visual_solid(sprite.visual),
                colour: visual_colour(sprite.visual),
                texture: visual_texture(sprite.visual),
                cap_start: visual_cap_start(sprite.visual),
                cap_end: visual_cap_end(sprite.visual),
            }),
    {
        SpriteDetails {
            id,
            x: Some(sprite.rect.x),
            y: Some(sprite.rect.y),
            w: Some(sprite.rect.w),
            h: Some(sprite.rect.h),
            shape: sprite.visual.shape(),
            stroke: sprite.visual.stroke(),
            solid: sprite.visual.solid(),
            colour: sprite.visual.colour(),
            texture: sprite.visual.texture(),
            cap_start: sprite.visual.cap_start(),
            cap_end: sprite.visual.cap_end(),
        }
    }

    /// The stroke width; 0.2 when none is known.
    pub fn stroke(&self) -> (s: Real)
        ensures
            s == details_stroke(*self),
    {
        match self.stroke {
            Some(v) => v,
            None => Real::from_bits(DEFAULT_STROKE_BITS),
        }
    }

    /// Whether the shape is solid; hollow when not known.
    pub fn solid(&self) -> (b: bool)
        ensures
            b == (self.solid == Some(true)),
    {
        match self.solid {
            Some(b) => b,
            None => false,
        }
    }

    /// The colour; magenta when none is known.
    pub fn colour(&self) -> (c: Colour)
        ensures
            c == details_colour(*self),
    {
        match self.colour {
            Some(c) => c,
            None => Colour([Real::one(), Real::zero(), Real::one(), Real::one()]),
        }
    }

    /// The cap at the start of a line; round when none is known.
    pub fn cap_start(&self) -> (c: Cap)
        ensures
            c == details_cap_start(*self),
    {
        match self.cap_start {
            Some(c) => c,
            None => Cap::Round,
        }
    }

    /// The cap at the end of a line; an arrow when none is known.
    pub fn cap_end(&self) -> (c: Cap)
        ensures
            c == details_cap_end(*self),
    {
        match self.cap_end {
            Some(c) => c,
            None => Cap::Arrow,
        }
    }

    /// The look of a new freehand drawing made with these settings; a
    /// stroke below epsilon gives way to the default width.
    pub fn drawing(&self) -> (v: Visual)
        ensures
            v == (Visual::Drawing {
                drawing: 0,
                mode: DrawingMode::Freehand,
                colour: details_colour(*self),
                stroke: if below_epsilon(details_stroke(*self)) {
                    Real { bits: DEFAULT_STROKE_BITS }
                } else {
                    details_stroke(*self)
                },
                cap_start: details_cap_start(*self),
                cap_end: details_cap_end(*self),
            }),
    {
        let s = self.stroke();
        let negative = s.bits >= 0x8000_0000 && !s.is_nan();
        let stroke = if negative || s.bits < 0x3400_0000 {
            Real::from_bits(DEFAULT_STROKE_BITS)
        } else {
            s
        };
        Visual::Drawing {
            drawing: 0,
            mode: DrawingMode::Freehand,
            colour: self.colour(),
            stroke,
            cap_start: self.cap_start(),
            cap_end: self.cap_end(),
        }
    }

    /// Takes the id and the known settings of `other`; its shape is taken
    /// even when open, as no shape means something.
    pub fn update_from(&mut self, other: &SpriteDetails)
        ensures
            *final(self) == (SpriteDetails {
                id: other.id,
                x: if other.x is Some { other.x } else { old(self).x },
                y: if other.y is Some { other.y } else { old(self).y },
                w: if other.w is Some { other.w } else { old(self).w },
                h: if other.h is Some { other.h } else { old(self).h },
                shape: other.shape,
                stroke: if other.stroke is Some { other.stroke } else { old(self).stroke },
                solid: if other.solid is Some { other.solid } else { old(self).solid },
                colour: if other.colour is Some { other.colour } else { old(self).colour },
                texture: if other.texture is Some { other.texture } else { old(self).texture },
                cap_start: if other.cap_start is Some { other.cap_start } else { old(self).cap_start },
                cap_end: if other.cap_end is Some { other.cap_end } else { old(self).cap_end },
            }),
    {
        self.id = other.id;
        if other.x.is_some() {
            self.x = other.x;
        }
        if other.y.is_some() {
            self.y = other.y;
        }
        if other.w.is_some() {
            self.w = other.w;
        }
        if other.h.is_some() {
            self.h = other.h;
        }
        self.shape = other.shape;
        if other.stroke.is_some() {
            self.stroke = other.stroke;
        }
        if other.solid.is_some() {
            self.solid = other.solid;
        }
        if other.colour.is_some() {
            self.colour = other.colour;
        }
        if other.texture.is_some() {
            self.texture = other.texture;
        }
        if other.cap_start.is_some() {
            self.cap_start = other.cap_start;
        }
        if other.cap_end.is_some() {
            self.cap_end = other.cap_end;
        }
    }

    /// Leaves open each setting in which the sprite differs.
    pub fn common(&mut self, sprite: &Sprite)
        ensures
            *final(self) == common_spec(*old(self), *sprite),
    {
        self.x = same_real(self.x, Some(sprite.rect.x));
        self.y = same_real(self.y, Some(sprite.rect.y));
        self.w = same_real(self.w, Some(sprite.rect.w));
        self.h = same_real(self.h, Some(sprite.rect.h));
        let shape = sprite.visual.shape();
        match (self.shape, shape) {
            (Some(a), Some(b)) => if a != b {
                self.shape = None;
            },
            (Some(_), None) => {
                self.shape = None;
            },
            _ => {},
        }
        if self.stroke.is_some() {
            self.stroke = same_real(self.stroke, sprite.visual.stroke());
        }
        match (self.solid, sprite.visual.solid()) {
            (Some(a), Some(b)) => if a != b {
                self.solid = None;
            },
            (Some(_), None) => {
                self.solid = None;
            },
            _ => {},
        }
        match (self.colour, sprite.visual.colour()) {
            (Some(a), Some(b)) => if !a.same_as(&b) {
                self.colour = None;
            },
            (Some(_), None) => {
                self.colour = None;
            },
            _ => {},
        }
        match (self.texture, sprite.visual.texture()) {
            (Some(a), Some(b)) => if a != b {
                self.texture = None;
            },
            (Some(_), None) => {
                self.texture = None;
            },
            _ => {},
        }
        match (self.cap_start, sprite.visual.cap_start()) {
            (Some(a), Some(b)) => if a != b {
                self.cap_start = None;
            },
            (Some(_), None) => {
                self.cap_start = None;
            },
            _ => {},
        }
        match (self.cap_end, sprite.visual.cap_end()) {
            (Some(a), Some(b)) => if a != b {
                self.cap_end = None;
            },
            (Some(_), None) => {
                self.cap_end = None;
            },
            _ => {},
        }
    }

    /// Gives the sprite each known setting in turn, gathering the events of
    /// the changes.
    pub fn update_sprite(&self, sprite: &mut Sprite) -> (e: Option<SceneEvent>)
        ensures
            *final(sprite) == update_sprite_spec(*self, *old(sprite)).0,
            gathered(e, update_sprite_spec(*self, *old(sprite)).1),
    {
        let mut events: Vec<SceneEvent> = Vec::new();
        dimension_into(sprite, &mut events, Dimension::X, self.x);
        dimension_into(sprite, &mut events, Dimension::Y, self.y);
        dimension_into(sprite, &mut events, Dimension::W, self.w);
        dimension_into(sprite, &mut events, Dimension::H, self.h);
        if let Some(shape) = self.shape {
            let r = sprite.set_shape(shape);
            push_some(&mut events, r);
        }
        if let Some(stroke) = self.stroke {
            let r = sprite.set_stroke(stroke);
            push_some(&mut events, r);
        }
        if let Some(solid) = self.solid {
            let r = sprite.set_solid(solid);
            push_some(&mut events, r);
        }
        if let Some(c) = self.colour {
            let r = sprite.set_colour(c);
            push_some(&mut events, r);
        }
        if let Some(id) = self.texture {
            let r = sprite.set_texture(id);
            push_some(&mut events, r);
        }
        let r = sprite.set_caps(self.cap_start, self.cap_end);
        push_some(&mut events, r);
        SceneEvent::set(events)
    }
}

} // verus!
