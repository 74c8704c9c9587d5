//! What a client decides when the server tells it something: which
//! requests are settled, how its scene, permissions and selection change,
//! and what is left for the interface to do.

use vstd::prelude::*;

use crate::comms::{event_is_layer, lemma_server_set_member_decreases, ClientEvent, ClientMessage, PermsEvent, SceneEvent, ServerEvent};
use crate::events::{apply_spec, unwind_spec};
use crate::geom::Rect;
use crate::history::{lemma_message_pos, message_pos, History};
use crate::interface::Changes;
use crate::perms::{
    rank, role_change_allowed, role_of, with_override, Override, Perms, PermsView, Role,
    CANONICAL_UPDATER,
};
use crate::scene::{default_layers, Scene, SceneModel};
use crate::Id;

verus! {

/// A client's state as the server's messages change it.
pub struct ClientState {
    pub history: History,
    pub perms: Perms,
    pub scene: Scene,
    /// The user's role, as the permissions give it.
    pub role: Role,
    pub user: Id,
    pub selected_layer: Id,
    pub selected_sprites: Vec<Id>,
    pub changes: Changes,
}

pub struct ClientModel {
    pub online: bool,
    pub modified: bool,
    pub history: Seq<SceneEvent>,
    pub redo_history: Seq<SceneEvent>,
    pub issued_events: Seq<ClientMessage>,
    pub next_message: Id,
    pub perms: PermsView,
    pub scene: SceneModel,
    pub role: Role,
    pub user: Id,
    pub selected_layer: Id,
    pub selected_sprites: Seq<Id>,
    pub layer_changed: bool,
    pub sprite_changed: bool,
    pub selected_changed: bool,
}

impl View for ClientState {
    type V = ClientModel;

    open spec fn view(&self) -> ClientModel {
        ClientModel {
            online: self.history.online,
            modified: self.history.modified,
            history: self.history.history@,
            redo_history: self.history.redo_history@,
            issued_events: self.history.issued_events@,
            next_message: self.history.next_message,
            perms: self.perms@,
            scene: self.scene@,
            role: self.role,
            user: self.user,
            selected_layer: self.selected_layer,
            selected_sprites: self.selected_sprites@,
            layer_changed: self.changes.layer,
            sprite_changed: self.changes.sprite,
            selected_changed: self.changes.selected,
        }
    }
}

impl ClientState {
    /// A client at the start: a new scene with its first layer selected,
    /// permissions in which the canonical updater owns the scene, acting as
    /// that updater, an empty history, and everything to be drawn.
    pub fn new(online: bool) -> (c: ClientState)
        ensures
            c@.online == online && !c@.modified,
            c@.history.len() == 0 && c@.redo_history.len() == 0 && c@.issued_events.len() == 0,
            c@.next_message == 1,
            c@.perms.roles == Map::<Id, Role>::empty().insert(CANONICAL_UPDATER, Role::Owner),
            c@.perms.overrides.len() == 0,
            c@.scene.layers == default_layers(),
            c@.scene.removed_layers.len() == 0,
            c@.scene.next_id == 4,
            !c@.scene.canon,
            c@.scene.id is None && c@.scene.project is None && c@.scene.uuid == 0,
            c@.scene.title.len() == 0,
            c@.scene.w == 32 && c@.scene.h == 32,
            c@.role == Role::Owner,
            c@.user == CANONICAL_UPDATER,
            c@.selected_layer == default_layers()[0].id,
            c@.selected_sprites.len() == 0,
            c@.layer_changed && c@.sprite_changed && c@.selected_changed,
    {
        let scene = Scene::new();
        let selected_layer = scene.first_layer();
        ClientState {
            history: History::new(online),
            perms: Perms::new(),
            scene,
            role: Role::Owner,
            user: CANONICAL_UPDATER,
            selected_layer,
            selected_sprites: Vec::new(),
            changes: Changes::new(),
        }
    }
}

/// What is left for the interface once a message is handled.
pub enum ClientAction {
    Nothing,
    /// Show the project's scenes, by title and UUID, and the current one.
    SceneList(Vec<(String, u128)>, u128),
    /// The game is over: leave it.
    GameOver,
}

/// The permissions after the canonical updater's event is handled.
pub open spec fn perms_after(p: PermsView, e: PermsEvent) -> PermsView {
    match e {
        PermsEvent::RoleChange(user, role) => if role_change_allowed(p, CANONICAL_UPDATER, user, role) {
            PermsView { roles: p.roles.insert(user, role), ..p }
        } else {
            p
        },
        PermsEvent::NewOverride(o) => if rank(role_of(p, CANONICAL_UPDATER)) >= 2 {
            PermsView { overrides: with_override(p.overrides, o), ..p }
        } else {
            p
        },
    }
}

/// What handling a message from the server does, and what is left for the
/// interface; `None` where a scene change would overflow a number.
/// - An approval settles that request.
/// - A set is handled event by event; the game is over if one of its
///   events says so, and a scene list within it is not shown.
/// - A rejection settles that request and, if it changed the scene, undoes
///   that change, marking the sprites and selection, and the layers for a
///   layer event, as changed.
/// - New permissions, or an update to them by the canonical updater, give
///   the user's role anew (an update only when it changes a role).
/// - A new scene replaces the scene, clears the selection and marks all as
///   changed.
/// - A scene update is applied, marking the layers for a layer event.
/// - A selected layer or the user's id is taken; the user's id also gives
///   the role anew.
/// - A health check or a disconnection changes nothing here.
pub open spec fn client_spec<F: Fn(Rect, Rect, Rect) -> Rect>(
    m: ClientModel,
    e: ServerEvent,
    shift: F,
) -> Option<(ClientModel, ClientAction)>
    decreases e,
{
    match e {
        ServerEvent::Approval(id) => Some(
            (
                ClientModel {
                    issued_events: m.issued_events.filter(|c: ClientMessage| c.id != id),
                    ..m
                },
                ClientAction::Nothing,
            ),
        ),
        ServerEvent::EventSet(events) => match client_all(m, events@, shift) {
            None => None,
            Some((m2, over)) => Some(
                (
                    m2,
                    if over {
                        ClientAction::GameOver
                    } else {
                        ClientAction::Nothing
                    },
                ),
            ),
        },
        ServerEvent::GameOver => Some((m, ClientAction::GameOver)),
        ServerEvent::Disconnect => Some((m, ClientAction::Nothing)),
        ServerEvent::HealthCheck => Some((m, ClientAction::Nothing)),
        ServerEvent::Rejection(id) => match message_pos(m.issued_events, id) {
            None => Some((m, ClientAction::Nothing)),
            Some(k) => {
                let settled = ClientModel { issued_events: m.issued_events.remove(k), ..m };
                match m.issued_events[k].event {
                    ClientEvent::SceneUpdate(x) => match unwind_spec(m.scene, x, shift) {
                        None => None,
                        Some(sc) => Some(
                            (
                                ClientModel {
                                    scene: sc,
                                    layer_changed: m.layer_changed || event_is_layer(x),
                                    sprite_changed: true,
                                    selected_changed: true,
                                    ..settled
                                },
                                ClientAction::Nothing,
                            ),
                        ),
                    },
                    _ => Some((settled, ClientAction::Nothing)),
                }
            },
        },
        ServerEvent::PermsChange(p) => Some(
            (ClientModel { perms: p@, role: role_of(p@, m.user), ..m }, ClientAction::Nothing),
        ),
        ServerEvent::PermsUpdate(pe) => {
            let p = perms_after(m.perms, pe);
            Some(
                (
                    ClientModel {
                        perms: p,
                        role: if pe is RoleChange {
                            role_of(p, m.user)
                        } else {
                            m.role
                        },
                        ..m
                    },
                    ClientAction::Nothing,
                ),
            )
        },
        ServerEvent::SceneChange(sc) => Some(
            (
                ClientModel {
                    scene: (*sc)@,
                    selected_sprites: Seq::empty(),
                    layer_changed: true,
                    sprite_changed: true,
                    selected_changed: true,
                    ..m
                },
                ClientAction::Nothing,
            ),
        ),
        ServerEvent::SceneList(list, current) => Some((m, ClientAction::SceneList(list, current))),
        ServerEvent::SceneUpdate(x) => match apply_spec(m.scene, x) {
            None => None,
            Some((sc, _)) => Some(
                (
                    ClientModel {
                        scene: sc,
                        layer_changed: m.layer_changed || event_is_layer(x),
                        ..m
                    },
                    ClientAction::Nothing,
                ),
            ),
        },
        ServerEvent::SelectedLayer(layer) => Some(
            (ClientModel { selected_layer: layer, ..m }, ClientAction::Nothing),
        ),
        ServerEvent::UserId(user) => Some(
            (ClientModel { user, role: role_of(m.perms, user), ..m }, ClientAction::Nothing),
        ),
    }
}

/// An update to the permissions from the server is handled as the
/// canonical updater's: when it may issue overrides (it is an editor or the
/// owner), a new override joins the client's overrides, none is lost, and
/// the roles stay; a role change that the updater may make gives the user
/// the new role, and the client's own role follows its user's.
pub proof fn law_perms_update<F: Fn(Rect, Rect, Rect) -> Rect>(m: ClientModel, pe: PermsEvent, shift: F)
    ensures
        client_spec(m, ServerEvent::PermsUpdate(pe), shift) matches Some((m2, a)) && a is Nothing && {
            &&& m2 == ClientModel { perms: m2.perms, role: m2.role, ..m }
            &&& match pe {
                PermsEvent::NewOverride(o) => {
                    &&& rank(role_of(m.perms, CANONICAL_UPDATER)) >= 2 ==> m2.perms.overrides.contains(o)
                    &&& forall|x: Override| m.perms.overrides.contains(x) ==> m2.perms.overrides.contains(x)
                    &&& m2.perms.roles == m.perms.roles
                    &&& m2.role == m.role
                },
                PermsEvent::RoleChange(user, role) => {
                    &&& role_change_allowed(m.perms, CANONICAL_UPDATER, user, role) ==> role_of(m2.perms, user) == role
                    &&& !role_change_allowed(m.perms, CANONICAL_UPDATER, user, role) ==> m2.perms == m.perms
                    &&& m2.perms.overrides == m.perms.overrides
                    &&& m2.role == role_of(m2.perms, m.user)
                },
            }
        },
{
    match pe {
        PermsEvent::NewOverride(o) => {
            if rank(role_of(m.perms, CANONICAL_UPDATER)) >= 2 && !m.perms.overrides.contains(o) {
                let ov = m.perms.overrides.push(o);
                assert(ov[ov.len() - 1] == o);
                assert forall|x: Override| m.perms.overrides.contains(x) implies ov.contains(x) by {
                    let i = choose|i: int| 0 <= i < m.perms.overrides.len() && m.perms.overrides[i] == x;
                    assert(ov[i] == x);
                }
            }
        },
        PermsEvent::RoleChange(user, role) => {},
    }
}

/// What each kind of message does to a client:
/// - an approval settles every request with that number and no other;
/// - a scene update applies the event to the scene as the scene applies it,
///   and a new scene replaces the scene and clears the selection;
/// - a rejection of a request that changed the scene settles it and undoes
///   the change as the scene unwinds it;
/// - new permissions, or a new user id, give the client's role as the
///   permissions give that user's;
/// - a selected layer is taken as the client's;
/// - a game over asks to leave the game, a scene list asks to show it, and
///   nothing else asks anything.
pub proof fn law_client_messages<F: Fn(Rect, Rect, Rect) -> Rect>(m: ClientModel, e: ServerEvent, shift: F)
    ensures
        e matches ServerEvent::Approval(id) ==> (client_spec(m, e, shift) matches Some((m2, a)) && a is Nothing && {
            &&& m2 == ClientModel { issued_events: m2.issued_events, ..m }
            &&& forall|c: ClientMessage| #[trigger] m2.issued_events.contains(c) ==> c.id != id && m.issued_events.contains(c)
            &&& forall|c: ClientMessage| #[trigger] m.issued_events.contains(c) && c.id != id ==> m2.issued_events.contains(c)
        }),
        e matches ServerEvent::SceneUpdate(x) ==> (apply_spec(m.scene, x) matches Some((sc, _)) ==> client_spec(m, e, shift) matches Some((m2, a)) && a is Nothing && m2.scene == sc && m2.selected_sprites == m.selected_sprites && m2.perms == m.perms),
        e matches ServerEvent::SceneChange(sc) ==> (client_spec(m, e, shift) matches Some((m2, a)) && a is Nothing && m2.scene == (*sc)@ && m2.selected_sprites.len() == 0 && m2.issued_events == m.issued_events),
        match e {
            ServerEvent::Rejection(id) => match message_pos(m.issued_events, id) {
                Some(k) => match m.issued_events[k].event {
                    ClientEvent::SceneUpdate(x) => match unwind_spec(m.scene, x, shift) {
                        Some(sc) => client_spec(m, e, shift) matches Some((m2, a)) && a is Nothing
                            && m2.scene == sc && m2.issued_events.len() + 1 == m.issued_events.len(),
                        None => true,
                    },
                    _ => true,
                },
                None => true,
            },
            _ => true,
        },
        e matches ServerEvent::PermsChange(p) ==> (client_spec(m, e, shift) matches Some((m2, a)) && a is Nothing && m2.perms == p@ && m2.role == role_of(p@, m.user)),
        e matches ServerEvent::UserId(user) ==> (client_spec(m, e, shift) matches Some((m2, a)) && a is Nothing && m2.user == user && m2.role == role_of(m.perms, user) && m2.perms == m.perms),
        e matches ServerEvent::SelectedLayer(layer) ==> (client_spec(m, e, shift) matches Some((m2, a)) && a is Nothing && m2 == ClientModel { selected_layer: layer, ..m }),
        e is GameOver ==> (client_spec(m, e, shift) matches Some((m2, a)) && a is GameOver && m2 == m),
        e matches ServerEvent::SceneList(list, current) ==> (client_spec(m, e, shift) matches Some((m2, a)) && a == ClientAction::SceneList(list, current) && m2 == m),
{
    broadcast use vstd::seq_lib::group_filter_ensures;
    if let ServerEvent::Rejection(id) = e {
        lemma_message_pos(m.issued_events, id);
        if let Some(k) = message_pos(m.issued_events, id) {
            assert(m.issued_events.remove(k).len() + 1 == m.issued_events.len());
        }
    }
    if let ServerEvent::Approval(id) = e {
        let pred = |c: ClientMessage| c.id != id;
        let f = m.issued_events.filter(pred);
        assert forall|c: ClientMessage| #[trigger] f.contains(c) implies c.id != id && m.issued_events.contains(c) by {
            let i = choose|i: int| 0 <= i < f.len() && f[i] == c;
            m.issued_events.lemma_filter_pred(pred, i);
            m.issued_events.lemma_filter_contains_rev(pred, c);
        }
        assert forall|c: ClientMessage| #[trigger] m.issued_events.contains(c) && c.id != id implies f.contains(c) by {
            let i = choose|i: int| 0 <= i < m.issued_events.len() && m.issued_events[i] == c;
            m.issued_events.lemma_filter_contains(|c: ClientMessage| c.id != id, i);
        }
    }
}

/// Handling messages in order, and whether one of them ends the game.
pub open spec fn client_all<F: Fn(Rect, Rect, Rect) -> Rect>(
    m: ClientModel,
    s: Seq<ServerEvent>,
    shift: F,
) -> Option<(ClientModel, bool)>
    decreases s,
{
    if s.len() == 0 {
        Some((m, false))
    } else {
        match client_spec(m, s[0], shift) {
            None => None,
            Some((m2, a)) => match client_all(m2, s.drop_first(), shift) {
                None => None,
                Some((m3, over)) => Some((m3, over || a is GameOver)),
            },
        }
    }
}

proof fn lemma_all_game_over<F: Fn(Rect, Rect, Rect) -> Rect>(m: ClientModel, s: Seq<ServerEvent>, shift: F)
    requires
        client_all(m, s, shift) is Some,
    ensures
        (exists|i: int| 0 <= i < s.len() && #[trigger] s[i] is GameOver) ==> client_all(m, s, shift).unwrap().1,
        (forall|i: int| 0 <= i < s.len() ==> !(#[trigger] s[i] is GameOver) && !(s[i] is EventSet)) ==> !client_all(
            m,
            s,
            shift,
        ).unwrap().1,
    decreases s.len(),
{
    if s.len() > 0 {
        let m1 = client_spec(m, s[0], shift).unwrap().0;
        let t = s.drop_first();
        lemma_all_game_over(m1, t, shift);
        if exists|i: int| 0 <= i < s.len() && #[trigger] s[i] is GameOver {
            let i = choose|i: int| 0 <= i < s.len() && #[trigger] s[i] is GameOver;
            if i > 0 {
                assert(t[i - 1] == s[i]);
            }
        }
        if forall|i: int| 0 <= i < s.len() ==> !(#[trigger] s[i] is GameOver) && !(s[i] is EventSet) {
            assert forall|i: int| 0 <= i < t.len() implies !(#[trigger] t[i] is GameOver) && !(t[i] is EventSet) by {
                assert(t[i] == s[i + 1]);
            }
            assert(!(s[0] is GameOver) && !(s[0] is EventSet));
        }
    }
}

/// A set of messages, once handled, asks to leave the game when one of its
/// messages is a game over; a set with no game over and no set within it
/// asks nothing.
pub proof fn law_set_game_over<F: Fn(Rect, Rect, Rect) -> Rect>(m: ClientModel, events: Vec<ServerEvent>, shift: F)
    requires
        client_spec(m, ServerEvent::EventSet(events), shift) is Some,
    ensures
        (exists|i: int| 0 <= i < events@.len() && #[trigger] events@[i] is GameOver) ==> client_spec(
            m,
            ServerEvent::EventSet(events),
            shift,
        ).unwrap().1 is GameOver,
        (forall|i: int| 0 <= i < events@.len() ==> !(#[trigger] events@[i] is GameOver) && !(events@[i] is EventSet))
            ==> client_spec(m, ServerEvent::EventSet(events), shift).unwrap().1 is Nothing,
{
    lemma_all_game_over(m, events@, shift);
}

/// Handles one message from the server, as `client_spec` says, undoing a
/// refused change with `shift` for a moved sprite's place.
pub fn client_step<F: Fn(Rect, Rect, Rect) -> Rect + Copy>(
    state: &mut ClientState,
    event: ServerEvent,
    shift: F,
) -> (action: ClientAction)
    requires
        forall|a: Rect, b: Rect, c: Rect| shift.requires((a, b, c)),
        forall|args: (Rect, Rect, Rect), x: Rect, y: Rect|
            shift.ensures(args, x) && shift.ensures(args, y) ==> x == y,
        client_spec(old(state)@, event, shift) is Some,
    ensures
        client_spec(old(state)@, event, shift) == Some((final(state)@, action)),
    decreases event,
{
    match event {
        ServerEvent::Approval(id) => {
            state.history.approve_event(id);
            ClientAction::Nothing
        },
        ServerEvent::EventSet(events) => {
            let ghost all = events;
            let ghost start = state@;
            let mut rest = events;
            let n = rest.len();
            let mut i: usize = 0;
            let mut over = false;
            assert(rest@.skip(0) =~= rest@);
            while rest.len() > 0
                invariant
                    forall|a: Rect, b: Rect, c: Rect| shift.requires((a, b, c)),
                    forall|args: (Rect, Rect, Rect), x: Rect, y: Rect|
                        shift.ensures(args, x) && shift.ensures(args, y) ==> x == y,
                    event == ServerEvent::EventSet(all),
                    start == old(state)@,
                    i + rest@.len() == all@.len(),
                    all@.len() == n,
                    rest@ == all@.skip(i as int),
                    client_all(start, all@, shift) matches Some((end, all_over)) && client_all(
                        state@,
                        rest@,
                        shift,
                    ) matches Some((end2, rest_over)) && end2 == end && all_over == (over
                        || rest_over),
                decreases rest@.len(),
            {
                let ghost before = rest@;
                let ghost here = state@;
                let e = rest.remove(0);
                proof {
                    lemma_server_set_member_decreases(event, all, i as int);
                    assert(before[0] == all@[i as int]);
                    assert(before.drop_first() =~= rest@);
                    assert(rest@ =~= all@.skip(i + 1));
                    assert(e == before[0]);
                }
                let a = client_step(state, e, shift);
                if let ClientAction::GameOver = a {
                    over = true;
                }
                i += 1;
            }
            proof {
                assert(client_all(state@, rest@, shift) == Some((state@, false)));
            }
            if over {
                ClientAction::GameOver
            } else {
                ClientAction::Nothing
            }
        },
        ServerEvent::GameOver => ClientAction::GameOver,
        ServerEvent::Disconnect => ClientAction::Nothing,
        ServerEvent::HealthCheck => ClientAction::Nothing,
        ServerEvent::Rejection(id) => {
            match state.history.take_event(id) {
                Some(x) => {
                    let layer = x.is_layer();
                    state.changes.layer_change_if(layer);
                    state.changes.sprite_selected_change();
                    state.scene.unwind_event(x, shift);
                },
                None => {},
            }
            ClientAction::Nothing
        },
        ServerEvent::PermsChange(p) => {
            state.perms = p;
            state.role = state.perms.get_role(state.user);
            ClientAction::Nothing
        },
        ServerEvent::PermsUpdate(pe) => {
            let is_role = match pe {
                PermsEvent::RoleChange(..) => true,
                _ => false,
            };
            state.perms.handle_event(CANONICAL_UPDATER, pe);
            if is_role {
                state.role = state.perms.get_role(state.user);
            }
            ClientAction::Nothing
        },
        ServerEvent::SceneChange(sc) => {
            state.selected_sprites = Vec::new();
            state.scene = *sc;
            state.changes.all_change();
            ClientAction::Nothing
        },
        ServerEvent::SceneList(list, current) => ClientAction::SceneList(list, current),
        ServerEvent::SceneUpdate(x) => {
            let layer = x.is_layer();
            state.changes.layer_change_if(layer);
            state.scene.apply_event(x);
            ClientAction::Nothing
        },
        ServerEvent::SelectedLayer(layer) => {
            state.selected_layer = layer;
            ClientAction::Nothing
        },
        ServerEvent::UserId(user) => {
            state.user = user;
            state.role = state.perms.get_role(user);
            ClientAction::Nothing
        },
    }
}

} // verus!
