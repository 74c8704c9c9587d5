//! Who may change what in a scene.

use std::collections::HashMap;
use vstd::prelude::*;

use crate::comms::{event_sprite, lemma_set_member_decreases, PermsEvent, SceneEvent};
use crate::geom::Rect;
use crate::sprite::Sprite;
use crate::Id;

verus! {

broadcast use vstd::std_specs::hash::group_hash_axioms;

/// The user who stands for the server itself.
pub const CANONICAL_UPDATER: Id = 0;

/// What kind of change an event makes.
#[derive(Clone, Copy, Debug, PartialEq, Eq, Structural)]
pub enum Perm {
    /// Changes to the scene as a whole: its size, its layers, its fog. Only
    /// editors may make them.
    SceneEdit,
    /// Adding or removing sprites on a layer. Editors, or players with an
    /// override on the layer.
    LayerEdit,
    /// Moving sprites or changing their looks. Editors, or players with an
    /// override on the sprite or its layer.
    SpriteEdit,
    /// Creating drawings and adding points to them. Players or better.
    DrawingEdit,
    /// Creating and deleting groups of sprites. Players or better.
    GroupEdit,
    /// Dummy events and event sets, which are never judged as a whole.
    Special,
}

pub open spec fn perm_of(e: SceneEvent) -> Perm {
    match e {
        SceneEvent::FogActive(..) | SceneEvent::FogOcclude(..) | SceneEvent::FogReveal(..)
        | SceneEvent::LayerNew(..) | SceneEvent::LayerLocked(..) | SceneEvent::LayerMove(..)
        | SceneEvent::LayerRename(..) | SceneEvent::LayerVisibility(..)
        | SceneEvent::LayerRemove(..) | SceneEvent::LayerRestore(..) | SceneEvent::SpriteLayer(..)
        | SceneEvent::SceneDimensions(..) | SceneEvent::SceneTitle(..) => Perm::SceneEdit,
        SceneEvent::SpriteNew(..) | SceneEvent::SpriteRemove(..) | SceneEvent::SpriteRestore(
            ..,
        ) => Perm::LayerEdit,
        SceneEvent::GroupAdd(..) | SceneEvent::GroupRemove(..) | SceneEvent::SpriteMove(..)
        | SceneEvent::SpriteVisual(..) | SceneEvent::SpriteDrawingFinish(..) => Perm::SpriteEdit,
        SceneEvent::SpriteDrawingStart(..) | SceneEvent::SpriteDrawingPoint(..) => Perm::DrawingEdit,
        SceneEvent::GroupNew(..) | SceneEvent::GroupDelete(..) => Perm::GroupEdit,
        SceneEvent::Dummy | SceneEvent::EventSet(..) => Perm::Special,
    }
}

impl Perm {
    pub fn of(event: &SceneEvent) -> (p: Perm)
        ensures
            p == perm_of(*event),
    {
        match event {
            SceneEvent::FogActive(..) | SceneEvent::FogOcclude(..) | SceneEvent::FogReveal(..)
            | SceneEvent::LayerNew(..) | SceneEvent::LayerLocked(..) | SceneEvent::LayerMove(..)
            | SceneEvent::LayerRename(..) | SceneEvent::LayerVisibility(..)
            | SceneEvent::LayerRemove(..) | SceneEvent::LayerRestore(..)
            | SceneEvent::SpriteLayer(..) | SceneEvent::SceneDimensions(..)
            | SceneEvent::SceneTitle(..) => Perm::SceneEdit,
            SceneEvent::SpriteNew(..) | SceneEvent::SpriteRemove(..)
            | SceneEvent::SpriteRestore(..) => Perm::LayerEdit,
            SceneEvent::GroupAdd(..) | SceneEvent::GroupRemove(..) | SceneEvent::SpriteMove(..)
            | SceneEvent::SpriteVisual(..) | SceneEvent::SpriteDrawingFinish(..) => Perm::SpriteEdit,
            SceneEvent::SpriteDrawingStart(..) | SceneEvent::SpriteDrawingPoint(..) => Perm::DrawingEdit,
            SceneEvent::GroupNew(..) | SceneEvent::GroupDelete(..) => Perm::GroupEdit,
            SceneEvent::Dummy | SceneEvent::EventSet(..) => Perm::Special,
        }
    }
}

/// A user's standing in a scene, from least to most.
#[derive(Clone, Copy, Debug, PartialEq, Eq, Structural, PartialOrd, Ord)]
pub enum Role {
    /// Cannot interact with sprites or layers.
    Spectator,
    /// Can only handle sprites on specific layers.
    Player,
    /// Full permissions to alter the scene.
    Editor,
    /// Full permissions, irrevocable.
    Owner,
}

/// The place of a role in the order Spectator < Player < Editor < Owner.
pub open spec fn rank(r: Role) -> int {
    match r {
        Role::Spectator => 0,
        Role::Player => 1,
        Role::Editor => 2,
        Role::Owner => 3,
    }
}

pub open spec fn role_allows(r: Role, p: Perm) -> bool {
    match p {
        Perm::SceneEdit | Perm::LayerEdit | Perm::SpriteEdit => rank(r) >= 2,
        Perm::DrawingEdit | Perm::GroupEdit => rank(r) >= 1,
        Perm::Special => false,
    }
}

impl Role {
    /// The place of this role in the order of roles.
    pub fn rank(&self) -> (n: u8)
        ensures
            n == rank(*self),
    {
        match self {
            Role::Spectator => 0,
            Role::Player => 1,
            Role::Editor => 2,
            Role::Owner => 3,
        }
    }

    pub fn allows(&self, perm: Perm) -> (b: bool)
        ensures
            b == role_allows(*self, perm),
    {
        match perm {
            Perm::SceneEdit => self.editor(),
            Perm::LayerEdit => self.editor(),
            Perm::SpriteEdit => self.editor(),
            Perm::DrawingEdit => self.player(),
            Perm::GroupEdit => self.player(),
            Perm::Special => false,
        }
    }

    pub fn lowest() -> (r: Role)
        ensures
            r == Role::Spectator,
    {
        Role::Spectator
    }

    /// This role is a spectator or lower.
    pub fn spectator(&self) -> (b: bool)
        ensures
            b == (rank(*self) <= 0),
    {
        self.rank() <= 0
    }

    /// This role is a player or higher.
    pub fn player(&self) -> (b: bool)
        ensures
            b == (rank(*self) >= 1),
    {
        self.rank() >= 1
    }

    /// This role is an editor or higher.
    pub fn editor(&self) -> (b: bool)
        ensures
            b == (rank(*self) >= 2),
    {
        self.rank() >= 2
    }
}

/// A user is granted certain permissions over a single layer or sprite.
#[derive(Clone, Copy, Debug, PartialEq, Eq, Structural)]
pub struct Override {
    pub user: Id,
    pub item: Id,
}

/// An override on a layer lets its user add sprites to and remove sprites
/// from the layer (LayerEdit) and edit its sprites (SpriteEdit). An override
/// on a sprite lets its user edit the sprite, but not remove it.
pub open spec fn override_allows(
    o: Override,
    user: Id,
    perm: Perm,
    sprite: Option<Id>,
    layer: Option<Id>,
) -> bool {
    o.user == user && match perm {
        Perm::LayerEdit => layer == Some(o.item),
        Perm::SpriteEdit => sprite == Some(o.item) || layer == Some(o.item),
        _ => false,
    }
}

impl Override {
    pub fn new(user: Id, item: Id) -> (o: Override)
        ensures
            o == (Override { user, item }),
    {
        Override { user, item }
    }

    /// Whether this override allows `perm` to be exercised by `user` on
    /// `sprite` in `layer`.
    pub fn allows(&self, user: Id, perm: Perm, sprite: Option<Id>, layer: Option<Id>) -> (b: bool)
        ensures
            b == override_allows(*self, user, perm, sprite, layer),
    {
        self.user == user && match perm {
            Perm::LayerEdit => self.item_is(layer),
            Perm::SpriteEdit => self.item_is(sprite) || self.item_is(layer),
            _ => false,
        }
    }

    pub fn item_is(&self, id: Option<Id>) -> (b: bool)
        ensures
            b == (id == Some(self.item)),
    {
        match id {
            Some(i) => i == self.item,
            None => false,
        }
    }
}

/// The roles of users and the overrides granted to them.
pub struct Perms {
    roles: HashMap<Id, Role>,
    overrides: Vec<Override>,
}

pub struct PermsView {
    pub roles: Map<Id, Role>,
    pub overrides: Seq<Override>,
}

impl View for Perms {
    type V = PermsView;

    closed spec fn view(&self) -> PermsView {
        PermsView { roles: self.roles@, overrides: self.overrides@ }
    }
}

/// A user without a role is a spectator.
pub open spec fn role_of(p: PermsView, user: Id) -> Role {
    if p.roles.contains_key(user) {
        p.roles[user]
    } else {
        Role::Spectator
    }
}

pub open spec fn allowed_by_override_spec(
    p: PermsView,
    user: Id,
    perm: Perm,
    sprite: Option<Id>,
    layer: Option<Id>,
) -> bool {
    exists|i: int|
        0 <= i < p.overrides.len() && #[trigger] override_allows(
            p.overrides[i],
            user,
            perm,
            sprite,
            layer,
        )
}

/// Whether `user` may make the change `e`, where `layer` is the layer of the
/// sprite concerned. A set of events is permitted when each of its events is.
pub open spec fn permitted_spec(p: PermsView, user: Id, e: SceneEvent, layer: Option<Id>) -> bool
    decreases e,
{
    match e {
        SceneEvent::EventSet(events) => all_permitted(p, user, events@, layer),
        _ => role_allows(role_of(p, user), perm_of(e)) || allowed_by_override_spec(
            p,
            user,
            perm_of(e),
            event_sprite(e),
            layer,
        ),
    }
}

/// Each event of `s` is permitted.
pub open spec fn all_permitted(p: PermsView, user: Id, s: Seq<SceneEvent>, layer: Option<Id>) -> bool
    decreases s,
{
    if s.len() == 0 {
        true
    } else {
        permitted_spec(p, user, s.last(), layer) && all_permitted(p, user, s.drop_last(), layer)
    }
}

pub proof fn lemma_all_permitted(p: PermsView, user: Id, s: Seq<SceneEvent>, layer: Option<Id>)
    ensures
        all_permitted(p, user, s, layer) <==> forall|j: int|
            0 <= j < s.len() ==> #[trigger] permitted_spec(p, user, s[j], layer),
    decreases s.len(),
{
    if s.len() > 0 {
        lemma_all_permitted(p, user, s.drop_last(), layer);
        if forall|j: int| 0 <= j < s.len() ==> #[trigger] permitted_spec(p, user, s[j], layer) {
            assert(permitted_spec(p, user, s[s.len() - 1], layer));
            assert forall|j: int| 0 <= j < s.drop_last().len() implies #[trigger] permitted_spec(
                p,
                user,
                s.drop_last()[j],
                layer,
            ) by {
                assert(s.drop_last()[j] == s[j]);
            }
        }
        if all_permitted(p, user, s, layer) {
            assert forall|j: int| 0 <= j < s.len() implies #[trigger] permitted_spec(
                p,
                user,
                s[j],
                layer,
            ) by {
                if j < s.len() - 1 {
                    assert(s.drop_last()[j] == s[j]);
                }
            }
        }
    }
}

/// The owner's role cannot be changed, nobody is made an owner by a role
/// change, only the owner grants or takes away the editor role, and a
/// change needs an updater at least as high as both the new role and the
/// user's present one.
pub proof fn law_role_change_limits(p: PermsView, updater: Id, user: Id, role: Role)
    ensures
        role_of(p, user) == Role::Owner ==> !role_change_allowed(p, updater, user, role),
        role == Role::Owner ==> !role_change_allowed(p, updater, user, role),
        (role == Role::Editor || role_of(p, user) == Role::Editor) && role_of(p, updater)
            != Role::Owner ==> !role_change_allowed(p, updater, user, role),
        role_change_allowed(p, updater, user, role) ==> rank(role_of(p, updater)) >= rank(role)
            && rank(role_of(p, updater)) >= rank(role_of(p, user)),
{
}

/// What each role may do by itself: a spectator nothing; a player may
/// draw and edit selection groups but not edit the scene, its layers or
/// its sprites; an editor or the owner may do all of these; no role may do
/// the special things. A higher role may do all a lower one may.
pub proof fn law_role_permissions(a: Role, b: Role, p: Perm)
    ensures
        !role_allows(Role::Spectator, p),
        role_allows(Role::Player, Perm::DrawingEdit),
        role_allows(Role::Player, Perm::GroupEdit),
        !role_allows(Role::Player, Perm::SceneEdit),
        !role_allows(Role::Player, Perm::LayerEdit),
        !role_allows(Role::Player, Perm::SpriteEdit),
        p != Perm::Special ==> role_allows(Role::Editor, p) && role_allows(Role::Owner, p),
        !role_allows(a, Perm::Special),
        rank(a) <= rank(b) && role_allows(a, p) ==> role_allows(b, p),
{
}

/// A player, or any user above a player, may make and delete selection
/// groups, with no override needed; a spectator with no override may not.
pub proof fn law_players_edit_groups(p: PermsView, user: Id, group: Id, layer: Option<Id>)
    ensures
        rank(role_of(p, user)) >= 1 ==> permitted_spec(p, user, SceneEvent::GroupNew(group), layer)
            && permitted_spec(p, user, SceneEvent::GroupDelete(group), layer),
        rank(role_of(p, user)) == 0 && p.overrides.len() == 0 ==> !permitted_spec(
            p,
            user,
            SceneEvent::GroupNew(group),
            layer,
        ),
{
    if rank(role_of(p, user)) == 0 && p.overrides.len() == 0 {
        assert(!allowed_by_override_spec(p, user, Perm::GroupEdit, event_sprite(SceneEvent::GroupNew(group)), layer));
    }
}

/// A spectator with an override on a layer may add sprites to that layer,
/// and move and remove its sprites; with an override on a sprite, it may
/// move that sprite but not remove it; an override of another user gives
/// it nothing, and no override lets it change the scene or its layers.
pub proof fn law_overrides_permit(
    p: PermsView,
    user: Id,
    item: Id,
    sprite: Id,
    other: Id,
    from: Rect,
    to: Rect,
    sp: Sprite,
)
    requires
        sp.id == sprite,
        rank(role_of(p, user)) == 0,
        p.overrides == seq![Override { user, item }],
        other != item,
        other != sprite,
    ensures
        // A layer override.
        permitted_spec(p, user, SceneEvent::SpriteRemove(sprite, item), Some(item)),
        permitted_spec(p, user, SceneEvent::SpriteMove(sprite, from, to), Some(item)),
        permitted_spec(p, user, SceneEvent::SpriteNew(sp, item), Some(item)),
        !permitted_spec(p, user, SceneEvent::SpriteRemove(sprite, other), Some(other)),
        // A sprite override.
        permitted_spec(p, user, SceneEvent::SpriteMove(item, from, to), Some(other)),
        !permitted_spec(p, user, SceneEvent::SpriteRemove(item, other), Some(other)),
        // Nothing for the scene or its layers, nor for another user.
        !permitted_spec(p, user, SceneEvent::LayerVisibility(item, true), Some(item)),
        !permitted_spec(p, user, SceneEvent::LayerRemove(item), Some(item)),
        other != user ==> !permitted_spec(p, other, SceneEvent::SpriteRemove(sprite, item), Some(item))
            || rank(role_of(p, other)) >= 2,
{
    let o = Override { user, item };
    assert(p.overrides[0] == o);
    assert(override_allows(p.overrides[0], user, Perm::LayerEdit, Some(sprite), Some(item)));
    assert(override_allows(p.overrides[0], user, Perm::SpriteEdit, Some(sprite), Some(item)));
    assert(override_allows(p.overrides[0], user, Perm::SpriteEdit, Some(item), Some(other)));
}

/// An event set is permitted exactly when each of its events is.
pub proof fn law_set_permitted_iff_all(p: PermsView, user: Id, events: Vec<SceneEvent>, layer: Option<Id>)
    ensures
        permitted_spec(p, user, SceneEvent::EventSet(events), layer) <==> forall|j: int|
            0 <= j < events@.len() ==> #[trigger] permitted_spec(p, user, events@[j], layer),
{
    lemma_all_permitted(p, user, events@, layer);
}

/// Whether `updater` may give `user` the role `role`: an owner keeps that
/// role, nobody is made an owner, only the owner grants the editor role or
/// changes an editor's role, and the updater's role must be at least both
/// the new role and the user's present one.
pub open spec fn role_change_allowed(p: PermsView, updater: Id, user: Id, role: Role) -> bool {
    &&& role_of(p, user) != Role::Owner
    &&& role != Role::Owner
    &&& (role == Role::Editor || role_of(p, user) == Role::Editor) ==> role_of(p, updater)
        == Role::Owner
    &&& rank(role_of(p, updater)) >= rank(role)
    &&& rank(role_of(p, updater)) >= rank(role_of(p, user))
}

/// The overrides after `o` is added, unless it is already there.
pub open spec fn with_override(s: Seq<Override>, o: Override) -> Seq<Override> {
    if s.contains(o) {
        s
    } else {
        s.push(o)
    }
}

impl Perms {
    /// Permissions in which the canonical updater is the owner and nobody
    /// else has a role or an override.
    pub fn new() -> (p: Perms)
        ensures
            p@.roles == Map::<Id, Role>::empty().insert(CANONICAL_UPDATER, Role::Owner),
            p@.overrides == Seq::<Override>::empty(),
    {
        let mut roles = HashMap::new();
        roles.insert(CANONICAL_UPDATER, Role::Owner);
        Perms { roles, overrides: Vec::new() }
    }

    pub fn get_role(&self, user: Id) -> (r: Role)
        ensures
            r == role_of(self@, user),
    {
        match self.roles.get(&user) {
            Some(r) => *r,
            None => Role::lowest(),
        }
    }

    pub fn set_role(&mut self, user: Id, role: Role)
        ensures
            final(self)@.roles == old(self)@.roles.insert(user, role),
            final(self)@.overrides == old(self)@.overrides,
    {
        self.roles.insert(user, role);
    }

    pub fn allowed_by_role(&self, user: Id, perm: Perm) -> (b: bool)
        ensures
            b == role_allows(role_of(self@, user), perm),
    {
        self.get_role(user).allows(perm)
    }

    pub fn allowed_by_override(
        &self,
        user: Id,
        perm: Perm,
        sprite: Option<Id>,
        layer: Option<Id>,
    ) -> (b: bool)
        ensures
            b == allowed_by_override_spec(self@, user, perm, sprite, layer),
    {
        let mut i: usize = 0;
        while i < self.overrides.len()
            invariant
                0 <= i <= self.overrides@.len(),
                forall|j: int|
                    0 <= j < i ==> !override_allows(
                        #[trigger] self.overrides@[j],
                        user,
                        perm,
                        sprite,
                        layer,
                    ),
            decreases self.overrides@.len() - i,
        {
            if self.overrides[i].allows(user, perm, sprite, layer) {
                assert(override_allows(self@.overrides[i as int], user, perm, sprite, layer));
                return true;
            }
            i += 1;
        }
        false
    }

    /// Makes `owner` an owner.
    pub fn set_owner(&mut self, owner: Id)
        ensures
            final(self)@.roles == old(self)@.roles.insert(owner, Role::Owner),
            final(self)@.overrides == old(self)@.overrides,
    {
        self.roles.insert(owner, Role::Owner);
    }

    /// `updater` gives `user` the role `role`, where allowed.
    pub fn role_change(&mut self, updater: Id, user: Id, role: Role) -> (e: Option<PermsEvent>)
        ensures
            role_change_allowed(old(self)@, updater, user, role) ==> {
                &&& final(self)@.roles == old(self)@.roles.insert(user, role)
                &&& e == Some(PermsEvent::RoleChange(user, role))
            },
            !role_change_allowed(old(self)@, updater, user, role) ==> {
                &&& final(self)@.roles == old(self)@.roles
                &&& e is None
            },
            final(self)@.overrides == old(self)@.overrides,
    {
        let updater_role = self.get_role(updater);
        let user_role = self.get_role(user);
        let editor_rule = (role != Role::Editor && user_role != Role::Editor) || updater_role
            == Role::Owner;
        if user_role != Role::Owner && role != Role::Owner && editor_rule && updater_role.rank()
            >= role.rank() && updater_role.rank() >= user_role.rank() {
            self.set_role(user, role);
            Some(PermsEvent::RoleChange(user, role))
        } else {
            None
        }
    }

    fn has_override(&self, o: &Override) -> (b: bool)
        ensures
            b == self@.overrides.contains(*o),
    {
        let mut i: usize = 0;
        while i < self.overrides.len()
            invariant
                0 <= i <= self.overrides@.len(),
                forall|j: int| 0 <= j < i ==> self.overrides@[j] != *o,
            decreases self.overrides@.len() - i,
        {
            if self.overrides[i] == *o {
                proof {
                    assert(self.overrides@[i as int] == *o);
                }
                return true;
            }
            i += 1;
        }
        false
    }

    pub fn add_override(&mut self, new: Override) -> (e: PermsEvent)
        ensures
            final(self)@.overrides == with_override(old(self)@.overrides, new),
            final(self)@.roles == old(self)@.roles,
            e == PermsEvent::NewOverride(new),
    {
        if !self.has_override(&new) {
            self.overrides.push(new);
        }
        PermsEvent::NewOverride(new)
    }

    /// Editors and owners may issue overrides.
    pub fn new_override(&mut self, updater: Id, new: Override) -> (e: Option<PermsEvent>)
        ensures
            rank(role_of(old(self)@, updater)) >= 2 ==> {
                &&& final(self)@.overrides == with_override(old(self)@.overrides, new)
                &&& e == Some(PermsEvent::NewOverride(new))
            },
            rank(role_of(old(self)@, updater)) < 2 ==> {
                &&& final(self)@.overrides == old(self)@.overrides
                &&& e is None
            },
            final(self)@.roles == old(self)@.roles,
    {
        if self.get_role(updater).rank() >= 2 {
            Some(self.add_override(new))
        } else {
            None
        }
    }

    /// Applies a permissions change made by `updater`; true if it was allowed.
    pub fn handle_event(&mut self, updater: Id, event: PermsEvent) -> (b: bool)
        ensures
            match event {
                PermsEvent::RoleChange(user, role) => {
                    &&& b == role_change_allowed(old(self)@, updater, user, role)
                    &&& final(self)@.roles == (if b {
                        old(self)@.roles.insert(user, role)
                    } else {
                        old(self)@.roles
                    })
                    &&& final(self)@.overrides == old(self)@.overrides
                },
                PermsEvent::NewOverride(o) => {
                    &&& b == (rank(role_of(old(self)@, updater)) >= 2)
                    &&& final(self)@.overrides == (if b {
                        with_override(old(self)@.overrides, o)
                    } else {
                        old(self)@.overrides
                    })
                    &&& final(self)@.roles == old(self)@.roles
                },
            },
    {
        match event {
            PermsEvent::RoleChange(user, role) => self.role_change(updater, user, role),
            PermsEvent::NewOverride(new) => self.new_override(updater, new),
        }.is_some()
    }

    /// Whether `user` may select `sprite` on `layer`: editors may select any
    /// sprite, others only those that an override lets them edit.
    pub fn selectable(&self, user: Id, sprite: Id, layer: Id) -> (b: bool)
        ensures
            b == (role_allows(role_of(self@, user), Perm::SpriteEdit) || allowed_by_override_spec(
                self@,
                user,
                Perm::SpriteEdit,
                Some(sprite),
                Some(layer),
            )),
    {
        self.get_role(user).allows(Perm::SpriteEdit) || self.allowed_by_override(
            user,
            Perm::SpriteEdit,
            Some(sprite),
            Some(layer),
        )
    }

    /// Whether `user` may make the change `event`. `layer` is the layer that
    /// holds the sprite concerned, where there is one.
    pub fn permitted(&self, user: Id, event: &SceneEvent, layer: Option<Id>) -> (b: bool)
        ensures
            b == permitted_spec(self@, user, *event, layer),
        decreases *event,
    {
        match event {
            SceneEvent::EventSet(events) => {
                let mut i: usize = 0;
                while i < events.len()
                    invariant
                        0 <= i <= events@.len(),
                        forall|j: int|
                            0 <= j < i ==> #[trigger] permitted_spec(self@, user, events@[j], layer),
                        *event == SceneEvent::EventSet(*events),
                    decreases events@.len() - i,
                {
                    proof {
                        lemma_set_member_decreases(*event, *events, i as int);
                    }
                    if !self.permitted(user, &events[i], layer) {
                        proof {
                            lemma_all_permitted(self@, user, events@, layer);
                        }
                        return false;
                    }
                    i += 1;
                }
                proof {
                    lemma_all_permitted(self@, user, events@, layer);
                }
                true
            },
            _ => {
                let perm = Perm::of(event);
                self.allowed_by_role(user, perm) || self.allowed_by_override(
                    user,
                    perm,
                    event.sprite(),
                    layer,
                )
            },
        }
    }

    /// Lets `user` edit a sprite or layer; nothing happens when the same
    /// override already exists.
    pub fn grant_override(&mut self, user: Id, item: Id) -> (e: Option<PermsEvent>)
        ensures
            old(self)@.overrides.contains(Override { user, item }) ==> {
                &&& final(self)@.overrides == old(self)@.overrides
                &&& e is None
            },
            !old(self)@.overrides.contains(Override { user, item }) ==> {
                &&& final(self)@.overrides == old(self)@.overrides.push(Override { user, item })
                &&& e == Some(PermsEvent::NewOverride(Override { user, item }))
            },
            final(self)@.roles == old(self)@.roles,
    {
        let or = Override { user, item };
        if self.has_override(&or) {
            None
        } else {
            Some(self.add_override(or))
        }
    }
}

impl Default for Perms {
    fn default() -> (p: Perms)
        ensures
            p@.roles == Map::<Id, Role>::empty().insert(CANONICAL_UPDATER, Role::Owner),
            p@.overrides == Seq::<Override>::empty(),
    {
        Perms::new()
    }
}

} // verus!
