//! A client's history of the events it made: what undo and redo go back
//! through, how a drag or a drawing is folded into one step, and the
//! requests sent to the server that await its answer.

use vstd::prelude::*;

use crate::comms::{
    event_item, same_client_event, same_event, ClientEvent, ClientMessage, SceneEvent,
};
use crate::details::gathered;
use crate::geom::Rect;
use crate::sprite::Visual;
use crate::Id;

verus! {

/// The drawing a sprite is drawn as, where it is a drawing.
pub open spec fn visual_drawing(v: Visual) -> Option<Id> {
    match v {
        Visual::Drawing { drawing, .. } => Some(drawing),
        _ => None,
    }
}

/// The history left once the events about `item` are taken off its top,
/// and those events, most recent first. The event that stops the taking
/// stays, unless it marks the start of a group.
pub open spec fn drain_item(h: Seq<SceneEvent>, item: Id) -> (Seq<SceneEvent>, Seq<SceneEvent>)
    decreases h.len(),
{
    if h.len() == 0 {
        (h, Seq::empty())
    } else if event_item(h.last()) == Some(item) {
        let r = drain_item(h.drop_last(), item);
        (r.0, seq![h.last()] + r.1)
    } else if h.last() is Dummy {
        (h.drop_last(), Seq::empty())
    } else {
        (h, Seq::empty())
    }
}

/// The history left once the moves of `sprite` (and the event that made
/// it) are taken off its top, the start of the oldest of those moves, and
/// the events that made the sprite, most recent first.
pub open spec fn gather_single(h: Seq<SceneEvent>, sprite: Id, start: Rect) -> (
    Seq<SceneEvent>,
    Rect,
    Seq<SceneEvent>,
)
    decreases h.len(),
{
    if h.len() == 0 {
        (h, start, Seq::empty())
    } else {
        let e = h.last();
        if (e matches SceneEvent::SpriteMove(id, from, _) && id == sprite) {
            gather_single(h.drop_last(), sprite, e->SpriteMove_1)
        } else if (e matches SceneEvent::SpriteNew(s, _) && s.id == sprite) {
            let r = gather_single(h.drop_last(), sprite, start);
            (r.0, r.1, seq![e] + r.2)
        } else if e is Dummy {
            (h.drop_last(), start, Seq::empty())
        } else {
            (h, start, Seq::empty())
        }
    }
}

/// Folding the moves of a sprite takes events off the top of the history
/// and keeps the rest below as it was. Of the events taken, each is a move
/// of that sprite, the group marker, or an event that made the sprite, and
/// every event taken that made the sprite is among the events kept for the
/// fold, which hold nothing else; so undoing the fold also undoes making a
/// sprite that was drawn and then dragged.
pub proof fn law_fold_keeps_made_sprite(h: Seq<SceneEvent>, sprite: Id, start: Rect)
    ensures
        ({
            let g = gather_single(h, sprite, start);
            &&& g.0.len() <= h.len()
            &&& g.0 == h.take(g.0.len() as int)
            &&& forall|i: int|
                g.0.len() <= i < h.len() ==> {
                    ||| (#[trigger] h[i] matches SceneEvent::SpriteMove(id, _, _) && id == sprite)
                    ||| h[i] is Dummy
                    ||| ((h[i] matches SceneEvent::SpriteNew(sp, _) && sp.id == sprite) && g.2.contains(h[i]))
                }
            &&& forall|j: int|
                0 <= j < g.2.len() ==> (#[trigger] g.2[j] matches SceneEvent::SpriteNew(sp, _) && sp.id
                    == sprite)
        }),
    decreases h.len(),
{
    if h.len() > 0 {
        let e = h.last();
        let d = h.drop_last();
        law_fold_keeps_made_sprite(d, sprite, start);
        if (e matches SceneEvent::SpriteMove(id, from, _) && id == sprite) {
            let g = gather_single(d, sprite, e->SpriteMove_1);
            law_fold_keeps_made_sprite(d, sprite, e->SpriteMove_1);
            assert(g.0 == h.take(g.0.len() as int)) by {
                assert(d.take(g.0.len() as int) =~= h.take(g.0.len() as int));
            }
            assert forall|i: int| g.0.len() <= i < h.len() - 1 implies h[i] == d[i] by {}
        } else if (e matches SceneEvent::SpriteNew(sp, _) && sp.id == sprite) {
            let r = gather_single(d, sprite, start);
            let g2 = seq![e] + r.2;
            assert(d.take(r.0.len() as int) =~= h.take(r.0.len() as int));
            assert(g2[0] == e);
            assert forall|i: int| r.0.len() <= i < h.len() - 1 && g2.len() > 0 && r.2.contains(
                #[trigger] h[i],
            ) implies g2.contains(h[i]) by {
                let j = choose|j: int| 0 <= j < r.2.len() && r.2[j] == h[i];
                assert(g2[j + 1] == h[i]);
                assert(h[i] == d[i]);
            }
            assert forall|i: int| r.0.len() <= i < h.len() - 1 implies h[i] == d[i] by {}
            assert forall|j: int| 0 <= j < g2.len() implies (#[trigger] g2[j] matches SceneEvent::SpriteNew(
                sp,
                _,
            ) && sp.id == sprite) by {
                if j > 0 {
                    assert(g2[j] == r.2[j - 1]);
                }
            }
        } else if e is Dummy {
            assert(d =~= h.take(d.len() as int));
        } else {
            assert(h =~= h.take(h.len() as int));
        }
    } else {
        assert(h =~= h.take(0));
    }
}

/// The events of a set that start the given drawing, in order.
pub open spec fn starts_in(es: Seq<SceneEvent>, drawing: Id) -> Seq<SceneEvent>
    decreases es.len(),
{
    if es.len() == 0 {
        Seq::empty()
    } else {
        let r = starts_in(es.drop_last(), drawing);
        if (es.last() matches SceneEvent::SpriteDrawingStart(id, _) && id == drawing) {
            r.push(es.last())
        } else {
            r
        }
    }
}

/// The history left once the events of a drawing are taken off its top,
/// and the events that started the drawing and made its sprite, most recent
/// first; the points of the drawing are dropped.
pub open spec fn gather_drawing(h: Seq<SceneEvent>, drawing: Id) -> (Seq<SceneEvent>, Seq<SceneEvent>)
    decreases h.len(),
{
    if h.len() == 0 {
        (h, Seq::empty())
    } else {
        let e = h.last();
        let rest = h.drop_last();
        if (e matches SceneEvent::SpriteDrawingPoint(id, _) && id == drawing) {
            gather_drawing(rest, drawing)
        } else if (e matches SceneEvent::SpriteNew(s, _) && visual_drawing(s.visual) == Some(drawing))
            || (e matches SceneEvent::SpriteDrawingStart(id, _) && id == drawing) {
            let r = gather_drawing(rest, drawing);
            (r.0, seq![e] + r.1)
        } else if (e matches SceneEvent::EventSet(es) && starts_in(es@, drawing).len() > 0) {
            let r = gather_drawing(rest, drawing);
            (r.0, starts_in(e->EventSet_0@, drawing) + r.1)
        } else if e is Dummy {
            (rest, Seq::empty())
        } else {
            (h, Seq::empty())
        }
    }
}

/// The starts of a drawing among a set's events are exactly the set's
/// events that start it, in order.
pub proof fn law_starts_in(es: Seq<SceneEvent>, drawing: Id)
    ensures
        forall|i: int|
            0 <= i < es.len() && (#[trigger] es[i] matches SceneEvent::SpriteDrawingStart(id, _)
                && id == drawing) ==> starts_in(es, drawing).contains(es[i]),
        forall|j: int|
            0 <= j < starts_in(es, drawing).len() ==> (#[trigger] starts_in(es, drawing)[j] matches SceneEvent::SpriteDrawingStart(
                id,
                _,
            ) && id == drawing && es.contains(starts_in(es, drawing)[j])),
    decreases es.len(),
{
    if es.len() > 0 {
        let d = es.drop_last();
        let r = starts_in(d, drawing);
        law_starts_in(d, drawing);
        assert forall|i: int|
            0 <= i < es.len() && (#[trigger] es[i] matches SceneEvent::SpriteDrawingStart(id, _)
                && id == drawing) implies starts_in(es, drawing).contains(es[i]) by {
            if i < es.len() - 1 {
                assert(es[i] == d[i]);
                let j = choose|j: int| 0 <= j < r.len() && r[j] == d[i];
                assert(starts_in(es, drawing)[j] == es[i]);
            } else {
                assert(starts_in(es, drawing)[r.len() as int] == es[i]);
            }
        }
        assert forall|j: int| 0 <= j < starts_in(es, drawing).len() implies (#[trigger] starts_in(
            es,
            drawing,
        )[j] matches SceneEvent::SpriteDrawingStart(id, _) && id == drawing && es.contains(
            starts_in(es, drawing)[j],
        )) by {
            if j < r.len() {
                assert(starts_in(es, drawing)[j] == r[j]);
                let i = choose|i: int| 0 <= i < d.len() && d[i] == r[j];
                assert(es[i] == d[i]);
            } else {
                assert(es[es.len() - 1] == es.last());
            }
        }
    }
}

/// Folding a drawing takes events off the top of the history and keeps the
/// rest below as it was. Of the events taken, each is a point of the
/// drawing, the group marker, an event that made the drawing's sprite, an
/// event that started the drawing, or a set holding such a start; every
/// event taken that made the sprite or started the drawing, and every start
/// of the drawing within a set taken, is among the events kept for the
/// fold, which hold nothing else. So undoing the fold removes the drawing
/// and its sprite.
pub proof fn law_fold_keeps_drawing_starts(h: Seq<SceneEvent>, drawing: Id)
    ensures
        ({
            let g = gather_drawing(h, drawing);
            &&& g.0.len() <= h.len()
            &&& g.0 == h.take(g.0.len() as int)
            &&& forall|i: int|
                g.0.len() <= i < h.len() ==> {
                    ||| (#[trigger] h[i] matches SceneEvent::SpriteDrawingPoint(id, _) && id == drawing)
                    ||| h[i] is Dummy
                    ||| ((h[i] matches SceneEvent::SpriteNew(sp, _) && visual_drawing(sp.visual) == Some(
                        drawing,
                    )) && g.1.contains(h[i]))
                    ||| ((h[i] matches SceneEvent::SpriteDrawingStart(id, _) && id == drawing)
                        && g.1.contains(h[i]))
                    ||| (h[i] matches SceneEvent::EventSet(es) && (exists|t: int|
                        0 <= t < es@.len() && (#[trigger] es@[t] matches SceneEvent::SpriteDrawingStart(
                            id,
                            _,
                        ) && id == drawing)) && forall|t: int|
                        0 <= t < es@.len() && (#[trigger] es@[t] matches SceneEvent::SpriteDrawingStart(
                            id,
                            _,
                        ) && id == drawing) ==> g.1.contains(es@[t]))
                }
            &&& forall|j: int|
                0 <= j < g.1.len() ==> ((#[trigger] g.1[j] matches SceneEvent::SpriteNew(sp, _)
                    && visual_drawing(sp.visual) == Some(drawing)) || (g.1[j] matches SceneEvent::SpriteDrawingStart(
                    id,
                    _,
                ) && id == drawing))
        }),
    decreases h.len(),
{
    if h.len() > 0 {
        let e = h.last();
        let d = h.drop_last();
        let r = gather_drawing(d, drawing);
        law_fold_keeps_drawing_starts(d, drawing);
        assert(d.take(r.0.len() as int) =~= h.take(r.0.len() as int));
        assert forall|i: int| r.0.len() <= i < h.len() - 1 implies h[i] == d[i] by {}
        if (e matches SceneEvent::SpriteDrawingPoint(id, _) && id == drawing) {
        } else if (e matches SceneEvent::SpriteNew(s, _) && visual_drawing(s.visual) == Some(drawing))
            || (e matches SceneEvent::SpriteDrawingStart(id, _) && id == drawing) {
            let g1 = seq![e] + r.1;
            assert(g1[0] == e);
            assert forall|x: SceneEvent| r.1.contains(x) implies g1.contains(x) by {
                let j = choose|j: int| 0 <= j < r.1.len() && r.1[j] == x;
                assert(g1[j + 1] == x);
            }
            assert forall|j: int| 0 <= j < g1.len() implies ((#[trigger] g1[j] matches SceneEvent::SpriteNew(
                sp,
                _,
            ) && visual_drawing(sp.visual) == Some(drawing)) || (g1[j] matches SceneEvent::SpriteDrawingStart(
                id,
                _,
            ) && id == drawing)) by {
                if j > 0 {
                    assert(g1[j] == r.1[j - 1]);
                }
            }
        } else if (e matches SceneEvent::EventSet(es) && starts_in(es@, drawing).len() > 0) {
            let es = e->EventSet_0;
            let st = starts_in(es@, drawing);
            let g1 = st + r.1;
            law_starts_in(es@, drawing);
            assert forall|x: SceneEvent| r.1.contains(x) implies g1.contains(x) by {
                let j = choose|j: int| 0 <= j < r.1.len() && r.1[j] == x;
                assert(g1[st.len() + j] == x);
            }
            assert forall|x: SceneEvent| st.contains(x) implies g1.contains(x) by {
                let j = choose|j: int| 0 <= j < st.len() && st[j] == x;
                assert(g1[j] == x);
            }
            assert(st[0] matches SceneEvent::SpriteDrawingStart(id, _) && id == drawing);
            let w = choose|i: int| 0 <= i < es@.len() && es@[i] == st[0];
            assert(es@[w] matches SceneEvent::SpriteDrawingStart(id, _) && id == drawing);
            assert forall|j: int| 0 <= j < g1.len() implies ((#[trigger] g1[j] matches SceneEvent::SpriteNew(
                sp,
                _,
            ) && visual_drawing(sp.visual) == Some(drawing)) || (g1[j] matches SceneEvent::SpriteDrawingStart(
                id,
                _,
            ) && id == drawing)) by {
                if j < st.len() {
                    assert(g1[j] == st[j]);
                } else {
                    assert(g1[j] == r.1[j - st.len()]);
                }
            }
        } else if e is Dummy {
            assert(d =~= h.take(d.len() as int));
        } else {
            assert(h =~= h.take(h.len() as int));
        }
    } else {
        assert(h =~= h.take(0));
    }
}

/// The position among the gathered moves of the move of a sprite.
pub open spec fn move_pos(moves: Seq<SceneEvent>, id: Id) -> Option<int>
    decreases moves.len(),
{
    if moves.len() == 0 {
        None
    } else {
        match move_pos(moves.drop_last(), id) {
            Some(k) => Some(k),
            None => if (moves.last() matches SceneEvent::SpriteMove(m, _, _) && m == id) {
                Some(moves.len() - 1)
            } else {
                None
            },
        }
    }
}

/// Gathers one more event: a move of a sprite not yet seen joins the
/// moves; a move of one already seen gives it its start.
pub open spec fn add_move(moves: Seq<SceneEvent>, e: SceneEvent) -> Seq<SceneEvent> {
    match e {
        SceneEvent::SpriteMove(id, from, _) => match move_pos(moves, id) {
            Some(k) => match moves[k] {
                SceneEvent::SpriteMove(m, _, to) => moves.update(k, SceneEvent::SpriteMove(m, from, to)),
                _ => moves,
            },
            None => moves.push(e),
        },
        _ => moves,
    }
}

/// Gathers the moves among the events of a set, in order.
pub open spec fn merge_moves(moves: Seq<SceneEvent>, v: Seq<SceneEvent>) -> Seq<SceneEvent>
    decreases v.len(),
{
    if v.len() == 0 {
        moves
    } else {
        add_move(merge_moves(moves, v.drop_last()), v.last())
    }
}

/// The id of the sprite a move is about.
pub open spec fn moved_id(e: SceneEvent) -> Id {
    match e {
        SceneEvent::SpriteMove(id, _, _) => id,
        _ => 0,
    }
}

/// Every event is a move, and no two move the same sprite.
pub open spec fn distinct_moves(s: Seq<SceneEvent>) -> bool {
    &&& forall|i: int| 0 <= i < s.len() ==> #[trigger] s[i] is SpriteMove
    &&& forall|i: int, j: int| 0 <= i < j < s.len() ==> moved_id(#[trigger] s[i]) != moved_id(#[trigger] s[j])
}

/// Some event moves the sprite.
pub open spec fn moves_sprite(s: Seq<SceneEvent>, id: Id) -> bool {
    exists|i: int| 0 <= i < s.len() && (#[trigger] s[i] matches SceneEvent::SpriteMove(m, _, _) && m == id)
}

proof fn lemma_move_pos(s: Seq<SceneEvent>, id: Id)
    ensures
        move_pos(s, id) matches Some(k) ==> 0 <= k < s.len() && (s[k] matches SceneEvent::SpriteMove(m, _, _)
            && m == id),
        (move_pos(s, id) is Some) == moves_sprite(s, id),
    decreases s.len(),
{
    if s.len() > 0 {
        let d = s.drop_last();
        lemma_move_pos(d, id);
        if moves_sprite(d, id) {
            let i = choose|i: int| 0 <= i < d.len() && (#[trigger] d[i] matches SceneEvent::SpriteMove(m, _, _) && m == id);
            assert(s[i] == d[i]);
        }
        if moves_sprite(s, id) && !moves_sprite(d, id) {
            let i = choose|i: int| 0 <= i < s.len() && (#[trigger] s[i] matches SceneEvent::SpriteMove(m, _, _) && m == id);
            if i < s.len() - 1 {
                assert(d[i] == s[i]);
            }
        }
        if (s.last() matches SceneEvent::SpriteMove(m, _, _) && m == id) {
            assert(s[s.len() - 1] == s.last());
        }
    }
}

proof fn lemma_add_move(moves: Seq<SceneEvent>, e: SceneEvent)
    requires
        distinct_moves(moves),
    ensures
        distinct_moves(add_move(moves, e)),
        forall|id: Id| moves_sprite(moves, id) ==> moves_sprite(add_move(moves, e), id),
        e matches SceneEvent::SpriteMove(id, _, _) ==> moves_sprite(add_move(moves, e), id),
        forall|id: Id| moves_sprite(add_move(moves, e), id) ==> moves_sprite(moves, id) || (
            e matches SceneEvent::SpriteMove(m, _, _) && m == id),
{
    if let SceneEvent::SpriteMove(id, from, _) = e {
        lemma_move_pos(moves, id);
        match move_pos(moves, id) {
            Some(k) => {
                let r = add_move(moves, e);
                let to = moves[k]->SpriteMove_2;
                assert(r == moves.update(k, SceneEvent::SpriteMove(id, from, to)));
                assert forall|i: int| 0 <= i < r.len() implies moved_id(r[i]) == moved_id(moves[i]) && #[trigger] r[i] is SpriteMove by {}
                assert forall|x: Id| moves_sprite(moves, x) implies moves_sprite(r, x) by {
                    let i = choose|i: int| 0 <= i < moves.len() && (#[trigger] moves[i] matches SceneEvent::SpriteMove(q, _, _) && q == x);
                    assert(moved_id(r[i]) == moved_id(moves[i]));
                    assert(r[i] matches SceneEvent::SpriteMove(q, _, _) && q == x);
                }
                assert forall|x: Id| moves_sprite(r, x) implies moves_sprite(moves, x) by {
                    let i = choose|i: int| 0 <= i < r.len() && (#[trigger] r[i] matches SceneEvent::SpriteMove(q, _, _) && q == x);
                    assert(moved_id(r[i]) == moved_id(moves[i]));
                    assert(moves[i] matches SceneEvent::SpriteMove(q, _, _) && q == x);
                }
            },
            None => {
                let r = moves.push(e);
                assert(r[r.len() - 1] == e);
                assert forall|i: int, j: int| 0 <= i < j < r.len() implies moved_id(#[trigger] r[i]) != moved_id(#[trigger] r[j]) by {
                    if j == r.len() - 1 {
                        assert(r[i] == moves[i]);
                        if moved_id(moves[i]) == id {
                            assert(moves[i] matches SceneEvent::SpriteMove(q, _, _) && q == id);
                        }
                    } else {
                        assert(r[i] == moves[i] && r[j] == moves[j]);
                    }
                }
                assert forall|x: Id| moves_sprite(moves, x) implies moves_sprite(r, x) by {
                    let i = choose|i: int| 0 <= i < moves.len() && (#[trigger] moves[i] matches SceneEvent::SpriteMove(q, _, _) && q == x);
                    assert(r[i] == moves[i]);
                }
                assert forall|x: Id| moves_sprite(r, x) implies moves_sprite(moves, x) || (e matches SceneEvent::SpriteMove(q, _, _) && q == x) by {
                    let i = choose|i: int| 0 <= i < r.len() && (#[trigger] r[i] matches SceneEvent::SpriteMove(q, _, _) && q == x);
                    if i < moves.len() {
                        assert(r[i] == moves[i]);
                    }
                }
            },
        }
    }
}

/// Gathering the moves of a set's events keeps one move for each sprite:
/// every sprite that a gathered move or an event of the set moves has
/// exactly one move among the result, and the result holds nothing but
/// those moves.
pub proof fn law_merge_moves_one_per_sprite(moves: Seq<SceneEvent>, v: Seq<SceneEvent>)
    requires
        distinct_moves(moves),
    ensures
        distinct_moves(merge_moves(moves, v)),
        forall|id: Id| moves_sprite(moves, id) ==> moves_sprite(merge_moves(moves, v), id),
        forall|i: int|
            0 <= i < v.len() && #[trigger] v[i] is SpriteMove ==> moves_sprite(
                merge_moves(moves, v),
                moved_id(v[i]),
            ),
        forall|id: Id| #[trigger] moves_sprite(merge_moves(moves, v), id) ==> moves_sprite(moves, id) || moves_sprite(v, id),
    decreases v.len(),
{
    if v.len() > 0 {
        let d = v.drop_last();
        law_merge_moves_one_per_sprite(moves, d);
        let r = merge_moves(moves, d);
        lemma_add_move(r, v.last());
        assert forall|i: int|
            0 <= i < v.len() && #[trigger] v[i] is SpriteMove implies moves_sprite(
            merge_moves(moves, v),
            moved_id(v[i]),
        ) by {
            if i < v.len() - 1 {
                assert(v[i] == d[i]);
            } else {
                assert(v[i] == v.last());
            }
        }
        assert forall|id: Id| #[trigger] moves_sprite(merge_moves(moves, v), id) implies moves_sprite(moves, id) || moves_sprite(v, id) by {
            assert(moves_sprite(add_move(r, v.last()), id));
            if moves_sprite(r, id) {
                assert(moves_sprite(merge_moves(moves, d), id));
            }
            if moves_sprite(d, id) {
                let i = choose|i: int| 0 <= i < d.len() && (#[trigger] d[i] matches SceneEvent::SpriteMove(m, _, _) && m == id);
                assert(v[i] == d[i]);
                assert(v[i] matches SceneEvent::SpriteMove(m, _, _) && m == id);
            }
            if (v.last() matches SceneEvent::SpriteMove(m, _, _) && m == id) {
                assert(v[v.len() - 1] == v.last());
                assert(v[v.len() - 1] matches SceneEvent::SpriteMove(m, _, _) && m == id);
            }
        }
    }
}

/// The history left once the sets on its top are taken off, and the moves
/// gathered from them, most recent set first.
pub open spec fn gather_sets(h: Seq<SceneEvent>, moves: Seq<SceneEvent>) -> (Seq<SceneEvent>, Seq<SceneEvent>)
    decreases h.len(),
{
    if h.len() == 0 {
        (h, moves)
    } else if h.last() is EventSet {
        gather_sets(h.drop_last(), merge_moves(moves, h.last()->EventSet_0@))
    } else if h.last() is Dummy {
        (h.drop_last(), moves)
    } else {
        (h, moves)
    }
}

/// The history is `rest` with, when there are any, the gathered events on
/// top as one.
pub open spec fn topped(h: Seq<SceneEvent>, rest: Seq<SceneEvent>, events: Seq<SceneEvent>) -> bool {
    &&& events.len() == 0 ==> h == rest
    &&& events.len() > 0 ==> h.len() == rest.len() + 1 && h.drop_last() == rest && gathered(
        Some(h.last()),
        events,
    )
}

/// The events that stay when those about `id` are erased.
pub open spec fn not_about(s: Seq<SceneEvent>, id: Id) -> Seq<SceneEvent> {
    s.filter(|e: SceneEvent| event_item(e) != Some(id))
}

/// The position of the first request with the given number.
pub open spec fn message_pos(s: Seq<ClientMessage>, id: Id) -> Option<int>
    decreases s.len(),
{
    if s.len() == 0 {
        None
    } else {
        match message_pos(s.drop_last(), id) {
            Some(k) => Some(k),
            None => if s.last().id == id {
                Some(s.len() - 1)
            } else {
                None
            },
        }
    }
}

pub proof fn lemma_message_pos(s: Seq<ClientMessage>, id: Id)
    ensures
        message_pos(s, id) matches Some(k) ==> 0 <= k < s.len() && s[k].id == id,
    decreases s.len(),
{
    if s.len() > 0 {
        lemma_message_pos(s.drop_last(), id);
    }
}

/// The undo and redo stacks of a client, and its requests awaiting the
/// server's answer.
pub struct History {
    /// Whether the client is connected to a server.
    pub online: bool,
    /// Whether there are changes that no save holds yet.
    pub modified: bool,
    /// The events made, the most recent last.
    pub history: Vec<SceneEvent>,
    /// The events undone, the most recent last.
    pub redo_history: Vec<SceneEvent>,
    /// The requests sent and not yet answered.
    pub issued_events: Vec<ClientMessage>,
    /// The number the next request gets.
    pub next_message: Id,
}

impl History {
    /// An empty history; `online` when a server is there to answer.
    pub fn new(online: bool) -> (h: History)
        ensures
            h.online == online && !h.modified,
            h.history@.len() == 0 && h.redo_history@.len() == 0 && h.issued_events@.len() == 0,
            h.next_message == 1,
    {
        History {
            online,
            modified: false,
            history: Vec::new(),
            redo_history: Vec::new(),
            issued_events: Vec::new(),
            next_message: 1,
        }
    }

    /// Takes out the request with the given number, giving back its event.
    pub fn take_event(&mut self, id: Id) -> (e: Option<SceneEvent>)
        ensures
            match message_pos(old(self).issued_events@, id) {
                None => final(self).issued_events@ == old(self).issued_events@ && e is None,
                Some(k) => {
                    &&& final(self).issued_events@ == old(self).issued_events@.remove(k)
                    &&& e == (match old(self).issued_events@[k].event {
                        ClientEvent::SceneUpdate(x) => Some(x),
                        _ => None,
                    })
                },
            },
            final(self).history == old(self).history && final(self).redo_history == old(self).redo_history,
            final(self).online == old(self).online && final(self).modified == old(self).modified,
            final(self).next_message == old(self).next_message,
    {
        let ghost s = self.issued_events@;
        let mut i: usize = 0;
        while i < self.issued_events.len()
            invariant
                s == self.issued_events@,
                s == old(self).issued_events@,
                0 <= i <= s.len(),
                message_pos(s.take(i as int), id) is None,
                self.history == old(self).history && self.redo_history == old(self).redo_history,
                self.online == old(self).online && self.modified == old(self).modified,
                self.next_message == old(self).next_message,
            decreases s.len() - i,
        {
            proof {
                assert(s.take(i + 1).drop_last() =~= s.take(i as int));
            }
            if self.issued_events[i].id == id {
                proof {
                    lemma_message_pos_prefix(s, i + 1, id);
                }
                let m = self.issued_events.remove(i);
                return match m.event {
                    ClientEvent::SceneUpdate(x) => Some(x),
                    _ => None,
                };
            }
            i += 1;
        }
        proof {
            assert(s.take(i as int) =~= s);
        }
        None
    }

    /// Drops the requests with the given number: the server took them.
    pub fn approve_event(&mut self, id: Id)
        ensures
            final(self).issued_events@ == old(self).issued_events@.filter(|c: ClientMessage| c.id != id),
            final(self).history == old(self).history && final(self).redo_history == old(self).redo_history,
            final(self).online == old(self).online && final(self).modified == old(self).modified,
            final(self).next_message == old(self).next_message,
    {
        let mut kept: Vec<ClientMessage> = Vec::new();
        let mut src: Vec<ClientMessage> = Vec::new();
        std::mem::swap(&mut src, &mut self.issued_events);
        let ghost s = src@;
        let n = src.len();
        let mut i: usize = 0;
        while src.len() > 0
            invariant
                n == s.len(),
                i + src@.len() == n,
                src@ == s.skip(i as int),
                kept@ == s.take(i as int).filter(|c: ClientMessage| c.id != id),
            decreases src@.len(),
        {
            let ghost before = src@;
            let m = src.remove(0);
            proof {
                reveal_with_fuel(Seq::<_>::filter, 1);
                assert(s.take(i + 1).drop_last() =~= s.take(i as int));
                assert(m == s[i as int]) by {
                    assert(before[0] == s.skip(i as int)[0]);
                }
                assert(src@ =~= s.skip(i + 1));
            }
            if m.id != id {
                kept.push(m);
            }
            proof {
                assert(kept@ =~= s.take(i + 1).filter(|c: ClientMessage| c.id != id));
            }
            i += 1;
        }
        proof {
            assert(s.take(n as int) =~= s);
        }
        self.issued_events = kept;
    }

    /// A save is needed for changes only when no server keeps the scene.
    pub fn save_required(&self) -> (b: bool)
        ensures
            b == (self.modified && !self.online),
    {
        self.modified && !self.online
    }

    pub fn clear_modified(&mut self)
        ensures
            *final(self) == (History { modified: false, ..*old(self) }),
    {
        self.modified = false;
    }

    /// Numbers a request and keeps it until the server answers; gives back
    /// a copy of it to send. Offline there is no one to send it to, and
    /// nothing is kept.
    pub fn issue_message(&mut self, event: ClientEvent) -> (m: Option<ClientMessage>)
        requires
            old(self).online ==> old(self).next_message < i64::MAX,
        ensures
            !old(self).online ==> *final(self) == *old(self) && m is None,
            old(self).online ==> {
                &&& final(self).issued_events@ == old(self).issued_events@.push(
                    ClientMessage { id: old(self).next_message, event },
                )
                &&& final(self).next_message == old(self).next_message + 1
                &&& m matches Some(sent) && sent.id == old(self).next_message && same_client_event(event, sent.event)
                &&& final(self).history == old(self).history
                &&& final(self).redo_history == old(self).redo_history
                &&& final(self).online == old(self).online && final(self).modified == old(self).modified
            },
    {
        if self.online {
            let id = self.next_message;
            self.next_message = id + 1;
            let copy = event.duplicate();
            self.issued_events.push(ClientMessage { id, event });
            Some(ClientMessage { id, event: copy })
        } else {
            None
        }
    }

    /// An empty set changes nothing and is not worth keeping.
    pub fn is_pointless(event: &SceneEvent) -> (b: bool)
        ensures
            b == (event matches SceneEvent::EventSet(v) && v@.len() == 0),
    {
        match event {
            SceneEvent::EventSet(events) => events.len() == 0,
            _ => false,
        }
    }

    /// Records an event made here: it goes on the history, the undone
    /// events are forgotten, and the scene is marked modified. Online, a
    /// request for it is issued as `issue_message` does, and returned to be
    /// sent.
    pub fn issue_event(&mut self, event: SceneEvent) -> (m: Option<ClientMessage>)
        requires
            old(self).online ==> old(self).next_message < i64::MAX,
        ensures
            (event matches SceneEvent::EventSet(v) && v@.len() == 0) ==> *final(self) == *old(self) && m is None,
            !(event matches SceneEvent::EventSet(v) && v@.len() == 0) ==> {
                &&& final(self).history@ == old(self).history@.push(event)
                &&& final(self).redo_history@.len() == 0
                &&& final(self).modified
                &&& final(self).online == old(self).online
                &&& !old(self).online ==> m is None && final(self).issued_events == old(self).issued_events
                    && final(self).next_message == old(self).next_message
                &&& old(self).online ==> {
                    &&& final(self).next_message == old(self).next_message + 1
                    &&& final(self).issued_events@.len() == old(self).issued_events@.len() + 1
                    &&& final(self).issued_events@.drop_last() == old(self).issued_events@
                    &&& final(self).issued_events@.last().id == old(self).next_message
                    &&& (final(self).issued_events@.last().event matches ClientEvent::SceneUpdate(x) && same_event(
                        event,
                        x,
                    ))
                    &&& m matches Some(sent) && sent.id == old(self).next_message
                }
            },
    {
        if History::is_pointless(&event) {
            return None;
        }
        let m = if self.online {
            let copy = event.duplicate();
            self.issue_message(ClientEvent::SceneUpdate(copy))
        } else {
            None
        };
        self.redo_history = Vec::new();
        self.history.push(event);
        self.modified = true;
        proof {
            if old(self).online {
                assert(self.issued_events@.drop_last() =~= old(self).issued_events@);
            }
        }
        m
    }

    /// Issues a request for an event without recording it in the history.
    pub fn issue_event_no_history(&mut self, event: SceneEvent) -> (m: Option<ClientMessage>)
        requires
            old(self).online ==> old(self).next_message < i64::MAX,
        ensures
            !old(self).online ==> *final(self) == *old(self) && m is None,
            old(self).online ==> {
                &&& final(self).issued_events@ == old(self).issued_events@.push(
                    ClientMessage { id: old(self).next_message, event: ClientEvent::SceneUpdate(event) },
                )
                &&& final(self).next_message == old(self).next_message + 1
                &&& final(self).history == old(self).history
                &&& final(self).redo_history == old(self).redo_history
                &&& final(self).modified == old(self).modified
                &&& m is Some
            },
    {
        self.issue_message(ClientEvent::SceneUpdate(event))
    }

    /// Keeps an event for redo, where there is one.
    pub fn issue_redo(&mut self, opt: Option<SceneEvent>)
        ensures
            final(self).redo_history@ == (match opt {
                Some(e) => old(self).redo_history@.push(e),
                None => old(self).redo_history@,
            }),
            final(self).history == old(self).history,
            final(self).issued_events == old(self).issued_events,
            final(self).modified == old(self).modified && final(self).online == old(self).online,
            final(self).next_message == old(self).next_message,
    {
        if let Some(event) = opt {
            self.redo_history.push(event);
        }
    }

    /// Takes the most recent event off the history.
    pub fn pop(&mut self) -> (e: Option<SceneEvent>)
        ensures
            old(self).history@.len() == 0 ==> e is None && final(self).history@ == old(self).history@,
            old(self).history@.len() > 0 ==> e == Some(old(self).history@.last())
                && final(self).history@ == old(self).history@.drop_last(),
            final(self).redo_history == old(self).redo_history,
            final(self).issued_events == old(self).issued_events,
            final(self).modified == old(self).modified && final(self).online == old(self).online,
            final(self).next_message == old(self).next_message,
    {
        self.history.pop()
    }

    /// Takes the most recently undone event off the redo stack.
    pub fn pop_redo(&mut self) -> (e: Option<SceneEvent>)
        ensures
            old(self).redo_history@.len() == 0 ==> e is None && final(self).redo_history@
                == old(self).redo_history@,
            old(self).redo_history@.len() > 0 ==> e == Some(old(self).redo_history@.last())
                && final(self).redo_history@ == old(self).redo_history@.drop_last(),
            final(self).history == old(self).history,
            final(self).issued_events == old(self).issued_events,
            final(self).modified == old(self).modified && final(self).online == old(self).online,
            final(self).next_message == old(self).next_message,
    {
        self.redo_history.pop()
    }

    /// Marks where a group of events, such as the steps of a drag, starts.
    pub fn start_move_group(&mut self)
        ensures
            final(self).history@ == old(self).history@.push(SceneEvent::Dummy),
            final(self).redo_history == old(self).redo_history,
            final(self).issued_events == old(self).issued_events,
            final(self).modified == old(self).modified && final(self).online == old(self).online,
            final(self).next_message == old(self).next_message,
    {
        self.history.push(SceneEvent::Dummy);
    }

    /// Folds the events about an item on top of the history into one.
    pub fn group_for_item(&mut self, item: Id)
        ensures
            topped(final(self).history@, drain_item(old(self).history@, item).0, drain_item(
                old(self).history@,
                item,
            ).1),
            final(self).redo_history == old(self).redo_history,
            final(self).issued_events == old(self).issued_events,
            final(self).modified == old(self).modified && final(self).online == old(self).online,
            final(self).next_message == old(self).next_message,
    {
        let ghost orig = self.history@;
        let mut drained: Vec<SceneEvent> = Vec::new();
        loop
            invariant_except_break
                drain_item(orig, item) == (
                    drain_item(self.history@, item).0,
                    drained@ + drain_item(self.history@, item).1,
                ),
            invariant
                self.redo_history == old(self).redo_history,
                self.issued_events == old(self).issued_events,
                self.modified == old(self).modified && self.online == old(self).online,
                self.next_message == old(self).next_message,
            ensures
                drain_item(orig, item) == (self.history@, drained@),
            decreases self.history@.len(),
        {
            let ghost before = self.history@;
            match self.history.pop() {
                None => {
                    assert(drained@ + Seq::<SceneEvent>::empty() =~= drained@);
                    break;
                },
                Some(e) => {
                    if e.item() == Some(item) {
                        drained.push(e);
                        proof {
                            let r = drain_item(self.history@, item);
                            assert(before.drop_last() == self.history@);
                            assert(drained@ + r.1 =~= drained@.drop_last() + (seq![e] + r.1));
                        }
                    } else {
                        if !matches!(e, SceneEvent::Dummy) {
                            self.history.push(e);
                            assert(self.history@ =~= before);
                        }
                        assert(drained@ + Seq::<SceneEvent>::empty() =~= drained@);
                        break;
                    }
                },
            }
        }
        if let Some(event) = SceneEvent::set(drained) {
            self.history.push(event);
            proof {
                assert(self.history@.drop_last() =~= drain_item(orig, item).0);
            }
        }
    }

    /// Folds the moves of one sprite on top of the history, and the event
    /// that made the sprite, into one step from the start of the oldest
    /// move to the end of `last`. Any other event is dropped.
    fn group_moves_single(&mut self, last: SceneEvent)
        ensures
            match last {
                SceneEvent::SpriteMove(sprite, from, to) => {
                    let g = gather_single(old(self).history@, sprite, from);
                    topped(final(self).history@, g.0, g.2.push(SceneEvent::SpriteMove(sprite, g.1, to)))
                },
                _ => final(self).history == old(self).history,
            },
            final(self).redo_history == old(self).redo_history,
            final(self).issued_events == old(self).issued_events,
            final(self).modified == old(self).modified && final(self).online == old(self).online,
            final(self).next_message == old(self).next_message,
    {
        let (sprite, from, finish) = match last {
            SceneEvent::SpriteMove(id, from, to) => (id, from, to),
            _ => return ,
        };
        let ghost orig = self.history@;
        let mut start = from;
        let mut events: Vec<SceneEvent> = Vec::new();
        loop
            invariant_except_break
                gather_single(orig, sprite, from) == (
                    gather_single(self.history@, sprite, start).0,
                    gather_single(self.history@, sprite, start).1,
                    events@ + gather_single(self.history@, sprite, start).2,
                ),
            invariant
                self.redo_history == old(self).redo_history,
                self.issued_events == old(self).issued_events,
                self.modified == old(self).modified && self.online == old(self).online,
                self.next_message == old(self).next_message,
            ensures
                gather_single(orig, sprite, from) == (self.history@, start, events@),
            decreases self.history@.len(),
        {
            let ghost before = self.history@;
            match self.history.pop() {
                None => {
                    assert(events@ + Seq::<SceneEvent>::empty() =~= events@);
                    break;
                },
                Some(e) => {
                    let consumed = match &e {
                        SceneEvent::SpriteMove(id, f, _) => if *id == sprite {
                            start = *f;
                            true
                        } else {
                            false
                        },
                        SceneEvent::SpriteNew(s, _) => s.id == sprite,
                        _ => false,
                    };
                    if consumed {
                        if let SceneEvent::SpriteNew(..) = e {
                            events.push(e);
                            proof {
                                let r = gather_single(self.history@, sprite, start);
                                assert(events@ + r.2 =~= events@.drop_last() + (seq![e] + r.2));
                            }
                        }
                        proof {
                            assert(before.drop_last() == self.history@);
                        }
                    } else {
                        if !matches!(e, SceneEvent::Dummy) {
                            self.history.push(e);
                            assert(self.history@ =~= before);
                        }
                        assert(events@ + Seq::<SceneEvent>::empty() =~= events@);
                        break;
                    }
                },
            }
        }
        let ghost base = self.history@;
        events.push(SceneEvent::SpriteMove(sprite, start, finish));
        if let Some(event) = SceneEvent::set(events) {
            self.history.push(event);
            proof {
                assert(self.history@.drop_last() =~= base);
            }
        }
    }

    /// Folds the events of the drawing of `last` on top of the history into
    /// one: the start of the drawing and the making of its sprite stay, its
    /// points go. Any other event is dropped.
    pub fn group_moves_drawing(&mut self, last: SceneEvent)
        ensures
            match last {
                SceneEvent::SpriteDrawingPoint(drawing, _) => {
                    let g = gather_drawing(old(self).history@, drawing);
                    topped(final(self).history@, g.0, g.1)
                },
                _ => final(self).history == old(self).history,
            },
            final(self).redo_history == old(self).redo_history,
            final(self).issued_events == old(self).issued_events,
            final(self).modified == old(self).modified && final(self).online == old(self).online,
            final(self).next_message == old(self).next_message,
    {
        let drawing = match last {
            SceneEvent::SpriteDrawingPoint(id, _) => id,
            _ => return ,
        };
        let ghost orig = self.history@;
        let mut events: Vec<SceneEvent> = Vec::new();
        loop
            invariant_except_break
                gather_drawing(orig, drawing) == (
                    gather_drawing(self.history@, drawing).0,
                    events@ + gather_drawing(self.history@, drawing).1,
                ),
            invariant
                self.redo_history == old(self).redo_history,
                self.issued_events == old(self).issued_events,
                self.modified == old(self).modified && self.online == old(self).online,
                self.next_message == old(self).next_message,
            ensures
                gather_drawing(orig, drawing) == (self.history@, events@),
            decreases self.history@.len(),
        {
            let ghost before = self.history@;
            match self.history.pop() {
                None => {
                    assert(events@ + Seq::<SceneEvent>::empty() =~= events@);
                    break;
                },
                Some(e) => {
                    proof {
                        assert(before.drop_last() == self.history@);
                    }
                    let kind: u8 = match &e {
                        SceneEvent::SpriteDrawingPoint(id, _) => if *id == drawing {
                            1
                        } else {
                            0
                        },
                        SceneEvent::SpriteNew(s, _) => if s.visual.drawing() == Some(drawing) {
                            2
                        } else {
                            0
                        },
                        SceneEvent::SpriteDrawingStart(id, _) => if *id == drawing {
                            2
                        } else {
                            0
                        },
                        SceneEvent::EventSet(_) => 3,
                        _ => 0,
                    };
                    if kind == 1 {
                    } else if kind == 2 {
                        events.push(e);
                        proof {
                            let r = gather_drawing(self.history@, drawing);
                            assert(events@ + r.1 =~= events@.drop_last() + (seq![e] + r.1));
                        }
                    } else {
                        let ghost before_events = events@;
                        let found = if let SceneEvent::EventSet(es) = &e {
                            push_starts(&mut events, es, drawing)
                        } else {
                            0
                        };
                        if found > 0 {
                            proof {
                                let r = gather_drawing(self.history@, drawing);
                                assert(events@ + r.1 =~= before_events + (starts_in(
                                    e->EventSet_0@,
                                    drawing,
                                ) + r.1));
                            }
                        } else {
                            if !matches!(e, SceneEvent::Dummy) {
                                self.history.push(e);
                                assert(self.history@ =~= before);
                            }
                            assert(events@ + Seq::<SceneEvent>::empty() =~= events@);
                            break;
                        }
                    }
                },
            }
        }
        let ghost base = self.history@;
        if let Some(event) = SceneEvent::set(events) {
            self.history.push(event);
            proof {
                assert(self.history@.drop_last() =~= base);
            }
        }
    }

    /// Folds the sets of moves on top of the history, `last` among them,
    /// into one set with a move for each sprite from its first start to its
    /// last end. The sets lose their other events.
    fn group_moves_set(&mut self, last: SceneEvent)
        ensures
            topped(
                final(self).history@,
                gather_sets(old(self).history@.push(last), Seq::empty()).0,
                gather_sets(old(self).history@.push(last), Seq::empty()).1,
            ),
            final(self).redo_history == old(self).redo_history,
            final(self).issued_events == old(self).issued_events,
            final(self).modified == old(self).modified && final(self).online == old(self).online,
            final(self).next_message == old(self).next_message,
    {
        self.history.push(last);
        let ghost orig = self.history@;
        let mut moves: Vec<SceneEvent> = Vec::new();
        loop
            invariant_except_break
                gather_sets(orig, Seq::empty()) == gather_sets(self.history@, moves@),
            invariant
                self.redo_history == old(self).redo_history,
                self.issued_events == old(self).issued_events,
                self.modified == old(self).modified && self.online == old(self).online,
                self.next_message == old(self).next_message,
            ensures
                gather_sets(orig, Seq::empty()) == (self.history@, moves@),
            decreases self.history@.len(),
        {
            let ghost before = self.history@;
            match self.history.pop() {
                None => {
                    break;
                },
                Some(e) => {
                    proof {
                        assert(before.drop_last() == self.history@);
                    }
                    if let SceneEvent::EventSet(v) = &e {
                        merge_into(&mut moves, v);
                    } else {
                        if !matches!(e, SceneEvent::Dummy) {
                            self.history.push(e);
                            assert(self.history@ =~= before);
                        }
                        break;
                    }
                },
            }
        }
        let ghost base = self.history@;
        if let Some(event) = SceneEvent::set(moves) {
            self.history.push(event);
            proof {
                assert(self.history@.drop_last() =~= base);
            }
        }
    }

    /// Ends a group: folds the drag, set of drags or drawing on top of the
    /// history into one step; any other event stays as it is.
    pub fn end_move_group(&mut self)
        ensures
            final(self).redo_history == old(self).redo_history,
            final(self).issued_events == old(self).issued_events,
            final(self).modified == old(self).modified && final(self).online == old(self).online,
            final(self).next_message == old(self).next_message,
            old(self).history@.len() == 0 ==> final(self).history@ == old(self).history@,
            old(self).history@.len() > 0 ==> {
                let h = old(self).history@.drop_last();
                match old(self).history@.last() {
                    SceneEvent::SpriteMove(sprite, from, to) => {
                        let g = gather_single(h, sprite, from);
                        topped(final(self).history@, g.0, g.2.push(SceneEvent::SpriteMove(sprite, g.1, to)))
                    },
                    SceneEvent::EventSet(_) => topped(
                        final(self).history@,
                        gather_sets(old(self).history@, Seq::empty()).0,
                        gather_sets(old(self).history@, Seq::empty()).1,
                    ),
                    SceneEvent::SpriteDrawingPoint(drawing, _) => {
                        let g = gather_drawing(h, drawing);
                        topped(final(self).history@, g.0, g.1)
                    },
                    _ => final(self).history@ == old(self).history@,
                }
            },
    {
        let ghost before = self.history@;
        match self.history.pop() {
            None => {},
            Some(event) => {
                proof {
                    assert(before.drop_last() == self.history@);
                    assert(self.history@.push(event) =~= before);
                }
                match event {
                    SceneEvent::SpriteMove(..) => self.group_moves_single(event),
                    SceneEvent::EventSet(..) => self.group_moves_set(event),
                    SceneEvent::SpriteDrawingPoint(..) => self.group_moves_drawing(event),
                    _ => {
                        self.history.push(event);
                    },
                }
            },
        }
    }

    /// Asks the server to move to another scene; true when online.
    pub fn change_scene(&mut self, scene: u128) -> (r: (bool, Option<ClientMessage>))
        requires
            old(self).online ==> old(self).next_message < i64::MAX,
        ensures
            r.0 == old(self).online,
            !old(self).online ==> *final(self) == *old(self) && r.1 is None,
            old(self).online ==> {
                &&& final(self).issued_events@ == old(self).issued_events@.push(
                    ClientMessage { id: old(self).next_message, event: ClientEvent::SceneChange(scene) },
                )
                &&& final(self).next_message == old(self).next_message + 1
                &&& r.1 matches Some(sent) && sent.id == old(self).next_message && sent.event
                    == ClientEvent::SceneChange(scene)
            },
    {
        let m = self.issue_message(ClientEvent::SceneChange(scene));
        (self.online, m)
    }

    /// Forgets every event about an item, in both stacks.
    pub fn erase_item(&mut self, id_to_erase: Id)
        ensures
            final(self).history@ == not_about(old(self).history@, id_to_erase),
            final(self).redo_history@ == not_about(old(self).redo_history@, id_to_erase),
            final(self).issued_events == old(self).issued_events,
            final(self).modified == old(self).modified && final(self).online == old(self).online,
            final(self).next_message == old(self).next_message,
    {
        let mut h: Vec<SceneEvent> = Vec::new();
        std::mem::swap(&mut h, &mut self.history);
        self.history = keep_not_about(h, id_to_erase);
        let mut r: Vec<SceneEvent> = Vec::new();
        std::mem::swap(&mut r, &mut self.redo_history);
        self.redo_history = keep_not_about(r, id_to_erase);
    }

    /// Answers the server's health check.
    pub fn reply_to_health_check(&mut self) -> (m: Option<ClientMessage>)
        requires
            old(self).online ==> old(self).next_message < i64::MAX,
        ensures
            !old(self).online ==> *final(self) == *old(self) && m is None,
            old(self).online ==> {
                &&& final(self).issued_events@ == old(self).issued_events@.push(
                    ClientMessage { id: old(self).next_message, event: ClientEvent::Ping },
                )
                &&& final(self).next_message == old(self).next_message + 1
                &&& m matches Some(sent) && sent.id == old(self).next_message && sent.event == ClientEvent::Ping
            },
    {
        self.issue_message(ClientEvent::Ping)
    }
}

proof fn lemma_message_pos_prefix(s: Seq<ClientMessage>, k: int, id: Id)
    requires
        0 < k <= s.len(),
        message_pos(s.take(k - 1), id) is None,
        s[k - 1].id == id,
    ensures
        message_pos(s, id) == Some(k - 1),
    decreases s.len() - k,
{
    assert(s.take(k).drop_last() =~= s.take(k - 1));
    if k < s.len() {
        lemma_message_pos_extend(s, k, id);
    } else {
        assert(s.take(k) =~= s);
    }
}

proof fn lemma_message_pos_extend(s: Seq<ClientMessage>, k: int, id: Id)
    requires
        0 < k <= s.len(),
        message_pos(s.take(k), id) is Some,
    ensures
        message_pos(s, id) == message_pos(s.take(k), id),
    decreases s.len() - k,
{
    if k < s.len() {
        assert(s.take(k + 1).drop_last() =~= s.take(k));
        lemma_message_pos_extend(s, k + 1, id);
    } else {
        assert(s.take(k) =~= s);
    }
}

/// Pushes copies of the events of a set that start the given drawing,
/// returning how many there were.
fn push_starts(events: &mut Vec<SceneEvent>, es: &Vec<SceneEvent>, drawing: Id) -> (n: usize)
    ensures
        final(events)@ == old(events)@ + starts_in(es@, drawing),
        n == starts_in(es@, drawing).len(),
{
    let ghost start = events@;
    let mut n: usize = 0;
    let mut i: usize = 0;
    while i < es.len()
        invariant
            0 <= i <= es@.len(),
            events@ == start + starts_in(es@.take(i as int), drawing),
            n == starts_in(es@.take(i as int), drawing).len(),
            n <= i,
        decreases es@.len() - i,
    {
        proof {
            assert(es@.take(i + 1).drop_last() =~= es@.take(i as int));
        }
        if let SceneEvent::SpriteDrawingStart(id, mode) = es[i] {
            if id == drawing {
                events.push(SceneEvent::SpriteDrawingStart(id, mode));
                n += 1;
                proof {
                    assert(events@ =~= start + starts_in(es@.take(i + 1), drawing));
                }
            }
        }
        i += 1;
    }
    proof {
        assert(es@.take(i as int) =~= es@);
    }
    n
}

/// Gathers the moves among the events of a set into `moves`.
fn merge_into(moves: &mut Vec<SceneEvent>, v: &Vec<SceneEvent>)
    ensures
        final(moves)@ == merge_moves(old(moves)@, v@),
{
    let ghost start = moves@;
    let mut i: usize = 0;
    while i < v.len()
        invariant
            0 <= i <= v@.len(),
            moves@ == merge_moves(start, v@.take(i as int)),
        decreases v@.len() - i,
    {
        proof {
            assert(v@.take(i + 1).drop_last() =~= v@.take(i as int));
        }
        if let SceneEvent::SpriteMove(id, from, to) = v[i] {
            match find_move(moves, id) {
                Some(k) => {
                    let ghost b = moves@;
                    if let SceneEvent::SpriteMove(m, _, end) = moves[k] {
                        moves.set(k, SceneEvent::SpriteMove(m, from, end));
                    }
                },
                None => {
                    moves.push(SceneEvent::SpriteMove(id, from, to));
                },
            }
        }
        i += 1;
    }
    proof {
        assert(v@.take(i as int) =~= v@);
    }
}

/// The position of the move of a sprite among the gathered moves.
fn find_move(moves: &Vec<SceneEvent>, id: Id) -> (k: Option<usize>)
    ensures
        match move_pos(moves@, id) {
            Some(p) => k matches Some(j) && j as int == p && p < moves@.len(),
            None => k is None,
        },
{
    let mut i: usize = 0;
    while i < moves.len()
        invariant
            0 <= i <= moves@.len(),
            move_pos(moves@.take(i as int), id) is None,
        decreases moves@.len() - i,
    {
        proof {
            assert(moves@.take(i + 1).drop_last() =~= moves@.take(i as int));
        }
        let found = match &moves[i] {
            SceneEvent::SpriteMove(m, _, _) => *m == id,
            _ => false,
        };
        if found {
            proof {
                lemma_move_pos_extend(moves@, i + 1, id);
            }
            return Some(i);
        }
        i += 1;
    }
    proof {
        assert(moves@.take(i as int) =~= moves@);
    }
    None
}

proof fn lemma_move_pos_extend(s: Seq<SceneEvent>, k: int, id: Id)
    requires
        0 < k <= s.len(),
        move_pos(s.take(k), id) is Some,
    ensures
        move_pos(s, id) == move_pos(s.take(k), id),
        move_pos(s, id).unwrap() < s.len(),
    decreases s.len() - k,
{
    if k < s.len() {
        assert(s.take(k + 1).drop_last() =~= s.take(k));
        lemma_move_pos_extend(s, k + 1, id);
    } else {
        assert(s.take(k) =~= s);
        lemma_move_pos_bound(s, id);
    }
}

proof fn lemma_move_pos_bound(s: Seq<SceneEvent>, id: Id)
    ensures
        move_pos(s, id) matches Some(k) ==> 0 <= k < s.len(),
    decreases s.len(),
{
    if s.len() > 0 {
        lemma_move_pos_bound(s.drop_last(), id);
    }
}

/// The events that are not about the given item, in order.
fn keep_not_about(v: Vec<SceneEvent>, id: Id) -> (r: Vec<SceneEvent>)
    ensures
        r@ == not_about(v@, id),
{
    let ghost s = v@;
    let mut src = v;
    let n = src.len();
    let mut kept: Vec<SceneEvent> = Vec::new();
    let mut i: usize = 0;
    while src.len() > 0
        invariant
            n == s.len(),
            i + src@.len() == n,
            src@ == s.skip(i as int),
            kept@ == not_about(s.take(i as int), id),
        decreases src@.len(),
    {
        let ghost before = src@;
        let e = src.remove(0);
        proof {
            reveal_with_fuel(Seq::<_>::filter, 1);
            assert(s.take(i + 1).drop_last() =~= s.take(i as int));
            assert(e == s[i as int]) by {
                assert(before[0] == s.skip(i as int)[0]);
            }
            assert(src@ =~= s.skip(i + 1));
        }
        if e.item() != Some(id) {
            kept.push(e);
        }
        proof {
            assert(kept@ =~= not_about(s.take(i + 1), id));
        }
        i += 1;
    }
    proof {
        assert(s.take(n as int) =~= s);
    }
    kept
}

} // verus!
