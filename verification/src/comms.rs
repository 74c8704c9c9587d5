//! Events: every change to a scene travels between clients and server as one
//! of these, and can be applied or unwound.

use vstd::prelude::*;

use crate::geom::{Point, Rect};
use crate::perms::{Override, Role};
use crate::sprite::{DrawingMode, Sprite, Visual};
use crate::Id;

verus! {

/// A change to a scene.
#[derive(Debug)]
pub enum SceneEvent {
    /// Triggers a redraw and changes nothing.
    Dummy,
    /// A collection of other events.
    EventSet(Vec<SceneEvent>),
    /// (old, new)
    FogActive(bool, bool),
    /// (occluded, x, y)
    FogOcclude(bool, u32, u32),
    /// (occluded, x, y)
    FogReveal(bool, u32, u32),
    /// (group)
    GroupNew(Id),
    /// (group, sprite)
    GroupAdd(Id, Id),
    /// (group, sprite)
    GroupRemove(Id, Id),
    /// (group)
    GroupDelete(Id),
    /// (layer, locked)
    LayerLocked(Id, bool),
    /// (layer, starting z, up)
    LayerMove(Id, i32, bool),
    /// (layer, title, z)
    LayerNew(Id, String, i32),
    /// (layer)
    LayerRemove(Id),
    /// (layer, old title, new title)
    LayerRename(Id, String, String),
    /// (layer)
    LayerRestore(Id),
    /// (layer, visible)
    LayerVisibility(Id, bool),
    /// (old w, old h, new w, new h)
    SceneDimensions(u32, u32, u32, u32),
    /// (old title, new title)
    SceneTitle(String, String),
    /// (drawing, mode)
    SpriteDrawingStart(Id, DrawingMode),
    /// (drawing, point)
    SpriteDrawingPoint(Id, Point),
    /// (drawing, sprite)
    SpriteDrawingFinish(Id, Id),
    /// (sprite, old layer, new layer)
    SpriteLayer(Id, Id, Id),
    /// (sprite, from, to)
    SpriteMove(Id, Rect, Rect),
    /// (sprite, layer)
    SpriteNew(Sprite, Id),
    /// (sprite, layer)
    SpriteRemove(Id, Id),
    /// (sprite)
    SpriteRestore(Id),
    /// (sprite, old, new)
    SpriteVisual(Id, Visual, Visual),
}

/// The event touches the fog of war, itself or through an event in its set.
pub open spec fn event_is_fog(e: SceneEvent) -> bool
    decreases e,
{
    match e {
        SceneEvent::FogActive(..) | SceneEvent::FogOcclude(..) | SceneEvent::FogReveal(..) => true,
        SceneEvent::EventSet(events) => any_is_fog(events@),
        _ => false,
    }
}

/// Some event of `s` is of the kind that `event_is_fog` names.
pub open spec fn any_is_fog(s: Seq<SceneEvent>) -> bool
    decreases s,
{
    if s.len() == 0 {
        false
    } else {
        event_is_fog(s.last()) || any_is_fog(s.drop_last())
    }
}

pub proof fn lemma_any_is_fog(s: Seq<SceneEvent>)
    ensures
        any_is_fog(s) <==> exists|j: int| 0 <= j < s.len() && #[trigger] event_is_fog(s[j]),
    decreases s.len(),
{
    if s.len() > 0 {
        lemma_any_is_fog(s.drop_last());
        if any_is_fog(s.drop_last()) {
            let j = choose|j: int| 0 <= j < s.drop_last().len() && #[trigger] event_is_fog(s.drop_last()[j]);
            assert(event_is_fog(s[j]));
        }
        if event_is_fog(s.last()) {
            assert(event_is_fog(s[s.len() - 1]));
        }
        if exists|j: int| 0 <= j < s.len() && #[trigger] event_is_fog(s[j]) {
            let j = choose|j: int| 0 <= j < s.len() && #[trigger] event_is_fog(s[j]);
            if j < s.len() - 1 {
                assert(s.drop_last()[j] == s[j]);
            }
        }
    }
}

/// The event touches a layer, itself or through an event in its set.
pub open spec fn event_is_layer(e: SceneEvent) -> bool
    decreases e,
{
    match e {
        SceneEvent::LayerLocked(..) | SceneEvent::LayerMove(..) | SceneEvent::LayerNew(..)
        | SceneEvent::LayerRemove(..) | SceneEvent::LayerRename(..) | SceneEvent::LayerRestore(..)
        | SceneEvent::LayerVisibility(..) => true,
        SceneEvent::EventSet(events) => any_is_layer(events@),
        _ => false,
    }
}

/// Some event of `s` is of the kind that `event_is_layer` names.
pub open spec fn any_is_layer(s: Seq<SceneEvent>) -> bool
    decreases s,
{
    if s.len() == 0 {
        false
    } else {
        event_is_layer(s.last()) || any_is_layer(s.drop_last())
    }
}

pub proof fn lemma_any_is_layer(s: Seq<SceneEvent>)
    ensures
        any_is_layer(s) <==> exists|j: int| 0 <= j < s.len() && #[trigger] event_is_layer(s[j]),
    decreases s.len(),
{
    if s.len() > 0 {
        lemma_any_is_layer(s.drop_last());
        if any_is_layer(s.drop_last()) {
            let j = choose|j: int| 0 <= j < s.drop_last().len() && #[trigger] event_is_layer(s.drop_last()[j]);
            assert(event_is_layer(s[j]));
        }
        if event_is_layer(s.last()) {
            assert(event_is_layer(s[s.len() - 1]));
        }
        if exists|j: int| 0 <= j < s.len() && #[trigger] event_is_layer(s[j]) {
            let j = choose|j: int| 0 <= j < s.len() && #[trigger] event_is_layer(s[j]);
            if j < s.len() - 1 {
                assert(s.drop_last()[j] == s[j]);
            }
        }
    }
}

/// The event touches a sprite, itself or through an event in its set.
pub open spec fn event_is_sprite(e: SceneEvent) -> bool
    decreases e,
{
    match e {
        SceneEvent::GroupAdd(..) | SceneEvent::GroupRemove(..) | SceneEvent::SpriteDrawingPoint(..)
        | SceneEvent::SpriteLayer(..) | SceneEvent::SpriteMove(..) | SceneEvent::SpriteNew(..)
        | SceneEvent::SpriteRemove(..) | SceneEvent::SpriteRestore(..) | SceneEvent::SpriteVisual(
            ..,
        ) => true,
        SceneEvent::EventSet(events) => any_is_sprite(events@),
        _ => false,
    }
}

/// Some event of `s` is of the kind that `event_is_sprite` names.
pub open spec fn any_is_sprite(s: Seq<SceneEvent>) -> bool
    decreases s,
{
    if s.len() == 0 {
        false
    } else {
        event_is_sprite(s.last()) || any_is_sprite(s.drop_last())
    }
}

pub proof fn lemma_any_is_sprite(s: Seq<SceneEvent>)
    ensures
        any_is_sprite(s) <==> exists|j: int| 0 <= j < s.len() && #[trigger] event_is_sprite(s[j]),
    decreases s.len(),
{
    if s.len() > 0 {
        lemma_any_is_sprite(s.drop_last());
        if any_is_sprite(s.drop_last()) {
            let j = choose|j: int| 0 <= j < s.drop_last().len() && #[trigger] event_is_sprite(s.drop_last()[j]);
            assert(event_is_sprite(s[j]));
        }
        if event_is_sprite(s.last()) {
            assert(event_is_sprite(s[s.len() - 1]));
        }
        if exists|j: int| 0 <= j < s.len() && #[trigger] event_is_sprite(s[j]) {
            let j = choose|j: int| 0 <= j < s.len() && #[trigger] event_is_sprite(s[j]);
            if j < s.len() - 1 {
                assert(s.drop_last()[j] == s[j]);
            }
        }
    }
}

/// The event touches the scene as a whole, itself or through an event in its
/// set.
pub open spec fn event_is_scene(e: SceneEvent) -> bool
    decreases e,
{
    match e {
        SceneEvent::SceneDimensions(..) | SceneEvent::SceneTitle(..) | SceneEvent::FogActive(
            ..,
        ) => true,
        SceneEvent::EventSet(events) => any_is_scene(events@),
        _ => false,
    }
}

/// Some event of `s` is of the kind that `event_is_scene` names.
pub open spec fn any_is_scene(s: Seq<SceneEvent>) -> bool
    decreases s,
{
    if s.len() == 0 {
        false
    } else {
        event_is_scene(s.last()) || any_is_scene(s.drop_last())
    }
}

pub proof fn lemma_any_is_scene(s: Seq<SceneEvent>)
    ensures
        any_is_scene(s) <==> exists|j: int| 0 <= j < s.len() && #[trigger] event_is_scene(s[j]),
    decreases s.len(),
{
    if s.len() > 0 {
        lemma_any_is_scene(s.drop_last());
        if any_is_scene(s.drop_last()) {
            let j = choose|j: int| 0 <= j < s.drop_last().len() && #[trigger] event_is_scene(s.drop_last()[j]);
            assert(event_is_scene(s[j]));
        }
        if event_is_scene(s.last()) {
            assert(event_is_scene(s[s.len() - 1]));
        }
        if exists|j: int| 0 <= j < s.len() && #[trigger] event_is_scene(s[j]) {
            let j = choose|j: int| 0 <= j < s.len() && #[trigger] event_is_scene(s[j]);
            if j < s.len() - 1 {
                assert(s.drop_last()[j] == s[j]);
            }
        }
    }
}

/// The layer or sprite that an event is about.
pub open spec fn event_item(e: SceneEvent) -> Option<Id> {
    match e {
        SceneEvent::GroupAdd(_, id) | SceneEvent::GroupRemove(_, id) | SceneEvent::LayerLocked(
            id,
            ..,
        ) | SceneEvent::LayerMove(id, ..) | SceneEvent::LayerNew(id, ..) | SceneEvent::LayerRemove(
            id,
        ) | SceneEvent::LayerRename(id, ..) | SceneEvent::LayerRestore(id)
        | SceneEvent::LayerVisibility(id, ..) | SceneEvent::SpriteLayer(id, ..)
        | SceneEvent::SpriteMove(id, ..) | SceneEvent::SpriteRemove(id, ..)
        | SceneEvent::SpriteRestore(id) | SceneEvent::SpriteVisual(id, ..)
        | SceneEvent::SpriteDrawingStart(id, ..) | SceneEvent::SpriteDrawingPoint(id, ..) => Some(
            id,
        ),
        SceneEvent::SpriteNew(s, ..) => Some(s.id),
        _ => None,
    }
}

/// The sprite that an event is about.
pub open spec fn event_sprite(e: SceneEvent) -> Option<Id> {
    match e {
        SceneEvent::GroupAdd(_, id) | SceneEvent::GroupRemove(_, id) | SceneEvent::SpriteLayer(
            id,
            ..,
        ) | SceneEvent::SpriteMove(id, ..) | SceneEvent::SpriteRemove(id, ..)
        | SceneEvent::SpriteRestore(id) | SceneEvent::SpriteVisual(id, ..) => Some(id),
        SceneEvent::SpriteNew(s, ..) => Some(s.id),
        _ => None,
    }
}

/// The layer that an event is about.
pub open spec fn event_layer(e: SceneEvent) -> Option<Id> {
    match e {
        SceneEvent::LayerLocked(id, ..) | SceneEvent::LayerMove(id, ..) | SceneEvent::LayerNew(
            id,
            ..,
        ) | SceneEvent::LayerRename(id, ..) | SceneEvent::LayerRestore(id)
        | SceneEvent::LayerVisibility(id, ..) => Some(id),
        SceneEvent::SpriteLayer(.., layer) | SceneEvent::SpriteNew(.., layer)
        | SceneEvent::SpriteRemove(.., layer) => Some(layer),
        _ => None,
    }
}

/// An event of a set is smaller than the set.
pub proof fn lemma_set_member_decreases(e: SceneEvent, events: Vec<SceneEvent>, i: int)
    requires
        e == SceneEvent::EventSet(events),
        0 <= i < events@.len(),
    ensures
        decreases_to!(e => events@[i]),
{
    assert(decreases_to!(e => e->EventSet_0));
    assert(decreases_to!(events => events@));
    assert(decreases_to!(events@ => events@[i]));
}

/// A set is of each kind that one of its events is of.
pub proof fn lemma_member_kinds(e: SceneEvent, events: Vec<SceneEvent>, i: int)
    requires
        e == SceneEvent::EventSet(events),
        0 <= i < events@.len(),
    ensures
        event_is_fog(events@[i]) ==> event_is_fog(e),
        event_is_layer(events@[i]) ==> event_is_layer(e),
        event_is_sprite(events@[i]) ==> event_is_sprite(e),
        event_is_scene(events@[i]) ==> event_is_scene(e),
{
    lemma_any_is_fog(events@);
    lemma_any_is_layer(events@);
    lemma_any_is_sprite(events@);
    lemma_any_is_scene(events@);
}

/// A set is of no kind that none of its events is of.
pub proof fn lemma_no_member_kinds(e: SceneEvent, events: Vec<SceneEvent>)
    requires
        e == SceneEvent::EventSet(events),
    ensures
        (forall|j: int| 0 <= j < events@.len() ==> !event_is_fog(#[trigger] events@[j])) ==> !event_is_fog(e),
        (forall|j: int| 0 <= j < events@.len() ==> !event_is_layer(#[trigger] events@[j])) ==> !event_is_layer(e),
        (forall|j: int| 0 <= j < events@.len() ==> !event_is_sprite(#[trigger] events@[j])) ==> !event_is_sprite(e),
        (forall|j: int| 0 <= j < events@.len() ==> !event_is_scene(#[trigger] events@[j])) ==> !event_is_scene(e),
{
    lemma_any_is_fog(events@);
    lemma_any_is_layer(events@);
    lemma_any_is_sprite(events@);
    lemma_any_is_scene(events@);
}

impl SceneEvent {
    /// Gathers events into one: none for no events, the event itself for
    /// one, and a set otherwise.
    pub fn set(events: Vec<SceneEvent>) -> (e: Option<SceneEvent>)
        ensures
            events@.len() == 0 ==> e is None,
            events@.len() == 1 ==> e == Some(events@[0]),
            events@.len() > 1 ==> e == Some(SceneEvent::EventSet(events)),
    {
        if events.len() == 0 {
            None
        } else if events.len() == 1 {
            let mut events = events;
            events.pop()
        } else {
            Some(SceneEvent::EventSet(events))
        }
    }

    pub fn is_fog(&self) -> (b: bool)
        ensures
            b == event_is_fog(*self),
        decreases *self,
    {
        match self {
            SceneEvent::FogActive(..) | SceneEvent::FogOcclude(..) | SceneEvent::FogReveal(..) => true,
            SceneEvent::EventSet(events) => {
                let mut i: usize = 0;
                while i < events.len()
                    invariant
                        0 <= i <= events@.len(),
                        forall|j: int| 0 <= j < i ==> !event_is_fog(#[trigger] events@[j]),
                        *self == SceneEvent::EventSet(*events),
                    decreases events@.len() - i,
                {
                    proof {
                        lemma_set_member_decreases(*self, *events, i as int);
                    }
                    if events[i].is_fog() {
                        proof {
                            lemma_member_kinds(*self, *events, i as int);
                        }
                        return true;
                    }
                    i += 1;
                }
                proof {
                    lemma_no_member_kinds(*self, *events);
                }
                false
            },
            _ => false,
        }
    }

    pub fn is_layer(&self) -> (b: bool)
        ensures
            b == event_is_layer(*self),
        decreases *self,
    {
        match self {
            SceneEvent::LayerLocked(..) | SceneEvent::LayerMove(..) | SceneEvent::LayerNew(..)
            | SceneEvent::LayerRemove(..) | SceneEvent::LayerRename(..)
            | SceneEvent::LayerRestore(..) | SceneEvent::LayerVisibility(..) => true,
            SceneEvent::EventSet(events) => {
                let mut i: usize = 0;
                while i < events.len()
                    invariant
                        0 <= i <= events@.len(),
                        forall|j: int| 0 <= j < i ==> !event_is_layer(#[trigger] events@[j]),
                        *self == SceneEvent::EventSet(*events),
                    decreases events@.len() - i,
                {
                    proof {
                        lemma_set_member_decreases(*self, *events, i as int);
                    }
                    if events[i].is_layer() {
                        proof {
                            lemma_member_kinds(*self, *events, i as int);
                        }
                        return true;
                    }
                    i += 1;
                }
                proof {
                    lemma_no_member_kinds(*self, *events);
                }
                false
            },
            _ => false,
        }
    }

    pub fn is_sprite(&self) -> (b: bool)
        ensures
            b == event_is_sprite(*self),
        decreases *self,
    {
        match self {
            SceneEvent::GroupAdd(..) | SceneEvent::GroupRemove(..)
            | SceneEvent::SpriteDrawingPoint(..) | SceneEvent::SpriteLayer(..)
            | SceneEvent::SpriteMove(..) | SceneEvent::SpriteNew(..) | SceneEvent::SpriteRemove(..)
            | SceneEvent::SpriteRestore(..) | SceneEvent::SpriteVisual(..) => true,
            SceneEvent::EventSet(events) => {
                let mut i: usize = 0;
                while i < events.len()
                    invariant
                        0 <= i <= events@.len(),
                        forall|j: int| 0 <= j < i ==> !event_is_sprite(#[trigger] events@[j]),
                        *self == SceneEvent::EventSet(*events),
                    decreases events@.len() - i,
                {
                    proof {
                        lemma_set_member_decreases(*self, *events, i as int);
                    }
                    if events[i].is_sprite() {
                        proof {
                            lemma_member_kinds(*self, *events, i as int);
                        }
                        return true;
                    }
                    i += 1;
                }
                proof {
                    lemma_no_member_kinds(*self, *events);
                }
                false
            },
            _ => false,
        }
    }

    pub fn is_scene(&self) -> (b: bool)
        ensures
            b == event_is_scene(*self),
        decreases *self,
    {
        match self {
            SceneEvent::SceneDimensions(..) | SceneEvent::SceneTitle(..)
            | SceneEvent::FogActive(..) => true,
            SceneEvent::EventSet(events) => {
                let mut i: usize = 0;
                while i < events.len()
                    invariant
                        0 <= i <= events@.len(),
                        forall|j: int| 0 <= j < i ==> !event_is_scene(#[trigger] events@[j]),
                        *self == SceneEvent::EventSet(*events),
                    decreases events@.len() - i,
                {
                    proof {
                        lemma_set_member_decreases(*self, *events, i as int);
                    }
                    if events[i].is_scene() {
                        proof {
                            lemma_member_kinds(*self, *events, i as int);
                        }
                        return true;
                    }
                    i += 1;
                }
                proof {
                    lemma_no_member_kinds(*self, *events);
                }
                false
            },
            _ => false,
        }
    }

    pub fn item(&self) -> (id: Option<Id>)
        ensures
            id == event_item(*self),
    {
        match self {
            SceneEvent::GroupAdd(_, id) | SceneEvent::GroupRemove(_, id) => Some(*id),
            SceneEvent::LayerLocked(id, ..) | SceneEvent::LayerMove(id, ..)
            | SceneEvent::LayerNew(id, ..) | SceneEvent::LayerRemove(id)
            | SceneEvent::LayerRename(id, ..) | SceneEvent::LayerRestore(id)
            | SceneEvent::LayerVisibility(id, ..) | SceneEvent::SpriteLayer(id, ..)
            | SceneEvent::SpriteMove(id, ..) | SceneEvent::SpriteRemove(id, ..)
            | SceneEvent::SpriteRestore(id) | SceneEvent::SpriteVisual(id, ..)
            | SceneEvent::SpriteDrawingStart(id, ..) | SceneEvent::SpriteDrawingPoint(id, ..) => Some(*id),
            SceneEvent::SpriteNew(s, ..) => Some(s.id),
            _ => None,
        }
    }

    pub fn sprite(&self) -> (id: Option<Id>)
        ensures
            id == event_sprite(*self),
    {
        match self {
            SceneEvent::GroupAdd(_, id) | SceneEvent::GroupRemove(_, id) => Some(*id),
            SceneEvent::SpriteLayer(id, ..) | SceneEvent::SpriteMove(id, ..)
            | SceneEvent::SpriteRemove(id, ..) | SceneEvent::SpriteRestore(id)
            | SceneEvent::SpriteVisual(id, ..) => Some(*id),
            SceneEvent::SpriteNew(s, ..) => Some(s.id),
            _ => None,
        }
    }

    pub fn layer(&self) -> (id: Option<Id>)
        ensures
            id == event_layer(*self),
    {
        match self {
            SceneEvent::LayerLocked(id, ..) | SceneEvent::LayerMove(id, ..)
            | SceneEvent::LayerNew(id, ..) | SceneEvent::LayerRename(id, ..)
            | SceneEvent::LayerRestore(id) | SceneEvent::LayerVisibility(id, ..) => Some(*id),
            SceneEvent::SpriteLayer(.., layer) | SceneEvent::SpriteNew(.., layer)
            | SceneEvent::SpriteRemove(.., layer) => Some(*layer),
            _ => None,
        }
    }
}

/// A change to the permissions of a scene.
#[derive(Clone, Debug)]
pub enum PermsEvent {
    /// The role of a user changes.
    RoleChange(Id, Role),
    /// A new override is issued.
    NewOverride(Override),
}

/// `b` is a copy of `a`: the same event, with each event of a set copied
/// in turn.
pub open spec fn same_event(a: SceneEvent, b: SceneEvent) -> bool
    decreases a,
{
    match a {
        SceneEvent::EventSet(x) => match b {
            SceneEvent::EventSet(y) => same_events(x@, y@),
            _ => false,
        },
        _ => a == b,
    }
}

/// Each event of `b` is a copy of the event of `a` at its position.
pub open spec fn same_events(a: Seq<SceneEvent>, b: Seq<SceneEvent>) -> bool
    decreases a,
{
    a.len() == b.len() && (a.len() > 0 ==> same_event(a.last(), b.last()) && same_events(
        a.drop_last(),
        b.drop_last(),
    ))
}

impl SceneEvent {
    /// A copy of the event.
    pub fn duplicate(&self) -> (r: SceneEvent)
        ensures
            same_event(*self, r),
        decreases *self,
    {
        match self {
            SceneEvent::EventSet(events) => {
                let mut out: Vec<SceneEvent> = Vec::new();
                let mut i: usize = 0;
                while i < events.len()
                    invariant
                        0 <= i <= events@.len(),
                        *self == SceneEvent::EventSet(*events),
                        same_events(events@.take(i as int), out@),
                    decreases events@.len() - i,
                {
                    proof {
                        lemma_set_member_decreases(*self, *events, i as int);
                    }
                    let d = events[i].duplicate();
                    let ghost before = out@;
                    out.push(d);
                    proof {
                        assert(events@.take(i + 1).drop_last() =~= events@.take(i as int));
                        assert(out@.drop_last() =~= before);
                    }
                    i += 1;
                }
                proof {
                    assert(events@.take(i as int) =~= events@);
                }
                SceneEvent::EventSet(out)
            },
            SceneEvent::Dummy => SceneEvent::Dummy,
            SceneEvent::FogActive(a, b) => SceneEvent::FogActive(*a, *b),
            SceneEvent::FogOcclude(a, b, c) => SceneEvent::FogOcclude(*a, *b, *c),
            SceneEvent::FogReveal(a, b, c) => SceneEvent::FogReveal(*a, *b, *c),
            SceneEvent::GroupNew(a) => SceneEvent::GroupNew(*a),
            SceneEvent::GroupAdd(a, b) => SceneEvent::GroupAdd(*a, *b),
            SceneEvent::GroupRemove(a, b) => SceneEvent::GroupRemove(*a, *b),
            SceneEvent::GroupDelete(a) => SceneEvent::GroupDelete(*a),
            SceneEvent::LayerLocked(a, b) => SceneEvent::LayerLocked(*a, *b),
            SceneEvent::LayerMove(a, b, c) => SceneEvent::LayerMove(*a, *b, *c),
            SceneEvent::LayerNew(a, b, c) => SceneEvent::LayerNew(*a, b.clone(), *c),
            SceneEvent::LayerRemove(a) => SceneEvent::LayerRemove(*a),
            SceneEvent::LayerRename(a, b, c) => SceneEvent::LayerRename(*a, b.clone(), c.clone()),
            SceneEvent::LayerRestore(a) => SceneEvent::LayerRestore(*a),
            SceneEvent::LayerVisibility(a, b) => SceneEvent::LayerVisibility(*a, *b),
            SceneEvent::SceneDimensions(a, b, c, d) => SceneEvent::SceneDimensions(*a, *b, *c, *d),
            SceneEvent::SceneTitle(a, b) => SceneEvent::SceneTitle(a.clone(), b.clone()),
            SceneEvent::SpriteDrawingStart(a, b) => SceneEvent::SpriteDrawingStart(*a, *b),
            SceneEvent::SpriteDrawingPoint(a, b) => SceneEvent::SpriteDrawingPoint(*a, *b),
            SceneEvent::SpriteDrawingFinish(a, b) => SceneEvent::SpriteDrawingFinish(*a, *b),
            SceneEvent::SpriteLayer(a, b, c) => SceneEvent::SpriteLayer(*a, *b, *c),
            SceneEvent::SpriteMove(a, b, c) => SceneEvent::SpriteMove(*a, *b, *c),
            SceneEvent::SpriteNew(a, b) => SceneEvent::SpriteNew(*a, *b),
            SceneEvent::SpriteRemove(a, b) => SceneEvent::SpriteRemove(*a, *b),
            SceneEvent::SpriteRestore(a) => SceneEvent::SpriteRestore(*a),
            SceneEvent::SpriteVisual(a, b, c) => SceneEvent::SpriteVisual(*a, *b, *c),
        }
    }
}

/// What a client asks of the server.
pub enum ClientEvent {
    /// An answer to the server's health check.
    Ping,
    /// A change to the scene.
    SceneUpdate(SceneEvent),
    /// A move to another scene, by its UUID as a 128-bit number.
    SceneChange(u128),
}

/// A request from a client, numbered so that the server's approval or
/// rejection can be matched with it.
pub struct ClientMessage {
    pub id: Id,
    pub event: ClientEvent,
}

/// `b` is a copy of `a`.
pub open spec fn same_client_event(a: ClientEvent, b: ClientEvent) -> bool {
    match (a, b) {
        (ClientEvent::SceneUpdate(x), ClientEvent::SceneUpdate(y)) => same_event(x, y),
        (ClientEvent::SceneUpdate(_), _) => false,
        _ => a == b,
    }
}

impl ClientEvent {
    /// A copy of the request.
    pub fn duplicate(&self) -> (r: ClientEvent)
        ensures
            same_client_event(*self, r),
    {
        match self {
            ClientEvent::Ping => ClientEvent::Ping,
            ClientEvent::SceneUpdate(e) => ClientEvent::SceneUpdate(e.duplicate()),
            ClientEvent::SceneChange(u) => ClientEvent::SceneChange(*u),
        }
    }
}

/// What the server tells a client.
pub enum ServerEvent {
    /// The request with this number was applied.
    Approval(Id),
    EventSet(Vec<ServerEvent>),
    GameOver,
    Disconnect,
    HealthCheck,
    /// The request with this number was refused.
    Rejection(Id),
    PermsChange(crate::perms::Perms),
    PermsUpdate(PermsEvent),
    SceneChange(Box<crate::scene::Scene>),
    /// The scenes of the project, by title and UUID, and the current one.
    SceneList(Vec<(String, u128)>, u128),
    SceneUpdate(SceneEvent),
    SelectedLayer(Id),
    /// The id of the user, as permissions know users.
    UserId(Id),
}

/// An event of a set of server messages is smaller than the set.
pub proof fn lemma_server_set_member_decreases(e: ServerEvent, events: Vec<ServerEvent>, i: int)
    requires
        e == ServerEvent::EventSet(events),
        0 <= i < events@.len(),
    ensures
        decreases_to!(e => events@[i]),
{
    assert(decreases_to!(e => e->EventSet_0));
    assert(decreases_to!(events => events@));
    assert(decreases_to!(events@ => events@[i]));
}

impl ServerEvent {
    /// Gathers events into one: none for no events, the event itself for
    /// one, and a set otherwise.
    pub fn set(events: Vec<ServerEvent>) -> (e: Option<ServerEvent>)
        ensures
            events@.len() == 0 ==> e is None,
            events@.len() == 1 ==> e == Some(events@[0]),
            events@.len() > 1 ==> e == Some(ServerEvent::EventSet(events)),
    {
        if events.len() == 0 {
            None
        } else if events.len() == 1 {
            let mut events = events;
            events.pop()
        } else {
            Some(ServerEvent::EventSet(events))
        }
    }
}

} // verus!
