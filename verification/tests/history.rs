use scene::comms::{ClientEvent, SceneEvent};
use scene::geom::{Colour, Real, Rect};
use scene::history::History;
use scene::sprite::{Cap, DrawingMode, Sprite, Visual};

fn num(v: f32) -> Real {
    Real::from_bits(v.to_bits())
}

fn rect(x: f32) -> Rect {
    Rect::new(num(x), num(0.0), num(1.0), num(1.0))
}

#[test]
fn test_issue_event_offline_and_online() {
    let mut offline = History::new(false);
    assert!(offline.issue_event(SceneEvent::LayerRemove(2)).is_none());
    assert_eq!(offline.history.len(), 1);
    assert!(offline.save_required());
    offline.clear_modified();
    assert!(!offline.save_required());
    // An empty set is not kept.
    assert!(offline.issue_event(SceneEvent::EventSet(vec![])).is_none());
    assert_eq!(offline.history.len(), 1);

    let mut online = History::new(true);
    let sent = online.issue_event(SceneEvent::LayerRemove(2)).unwrap();
    assert_eq!(sent.id, 1);
    assert!(matches!(sent.event, ClientEvent::SceneUpdate(SceneEvent::LayerRemove(2))));
    assert!(!online.save_required());
    assert_eq!(online.issued_events.len(), 1);
    online.issue_event(SceneEvent::LayerRemove(3));
    match online.take_event(2) {
        Some(SceneEvent::LayerRemove(3)) => {}
        _ => panic!("request 2 not found"),
    }
    assert!(online.take_event(2).is_none());
    online.approve_event(1);
    assert!(online.issued_events.is_empty());
}

#[test]
fn test_undo_and_redo_stacks() {
    let mut h = History::new(false);
    h.issue_event(SceneEvent::LayerRemove(1));
    h.issue_redo(Some(SceneEvent::LayerRestore(4)));
    assert!(matches!(h.pop_redo(), Some(SceneEvent::LayerRestore(4))));
    h.issue_redo(Some(SceneEvent::LayerRestore(4)));
    // A new event forgets what was undone.
    h.issue_event(SceneEvent::LayerRemove(2));
    assert!(h.pop_redo().is_none());
    assert!(matches!(h.pop(), Some(SceneEvent::LayerRemove(2))));
    assert!(matches!(h.pop(), Some(SceneEvent::LayerRemove(1))));
    assert!(h.pop().is_none());
}

#[test]
fn test_group_single_moves() {
    let mut h = History::new(false);
    h.issue_event(SceneEvent::LayerRemove(9));
    h.start_move_group();
    h.issue_event(SceneEvent::SpriteMove(5, rect(0.0), rect(1.0)));
    h.issue_event(SceneEvent::SpriteMove(5, rect(1.0), rect(2.0)));
    h.issue_event(SceneEvent::SpriteMove(5, rect(2.0), rect(3.0)));
    h.end_move_group();
    assert_eq!(h.history.len(), 2);
    match &h.history[1] {
        SceneEvent::SpriteMove(5, from, to) => {
            assert!(from.same_as(&rect(0.0)));
            assert!(to.same_as(&rect(3.0)));
        }
        _ => panic!("moves not folded"),
    }
}

#[test]
fn test_group_moves_of_sets() {
    let mut h = History::new(false);
    h.start_move_group();
    h.issue_event(SceneEvent::EventSet(vec![
        SceneEvent::SpriteMove(1, rect(0.0), rect(1.0)),
        SceneEvent::SpriteMove(2, rect(5.0), rect(6.0)),
    ]));
    h.issue_event(SceneEvent::EventSet(vec![
        SceneEvent::SpriteMove(1, rect(1.0), rect(2.0)),
        SceneEvent::SpriteMove(2, rect(6.0), rect(7.0)),
    ]));
    h.end_move_group();
    assert_eq!(h.history.len(), 1);
    match &h.history[0] {
        SceneEvent::EventSet(moves) => {
            assert_eq!(moves.len(), 2);
            match moves[0] {
                SceneEvent::SpriteMove(1, from, to) => {
                    assert!(from.same_as(&rect(0.0)));
                    assert!(to.same_as(&rect(2.0)));
                }
                _ => panic!("unexpected move"),
            }
        }
        _ => panic!("sets not folded"),
    }
}

#[test]
fn test_group_drawing_points() {
    let mut h = History::new(false);
    let visual = Visual::Drawing {
        drawing: 7,
        mode: DrawingMode::Freehand,
        colour: Colour([num(1.0), num(1.0), num(1.0), num(1.0)]),
        stroke: num(0.2),
        cap_start: Cap::Round,
        cap_end: Cap::Arrow,
    };
    h.start_move_group();
    h.issue_event(SceneEvent::SpriteDrawingStart(7, DrawingMode::Freehand));
    h.issue_event(SceneEvent::SpriteNew(Sprite::new(3, Some(visual)), 1));
    h.issue_event(SceneEvent::SpriteDrawingPoint(7, scene::geom::Point::same(num(1.0))));
    h.issue_event(SceneEvent::SpriteDrawingPoint(7, scene::geom::Point::same(num(2.0))));
    h.end_move_group();
    assert_eq!(h.history.len(), 1);
    match &h.history[0] {
        SceneEvent::EventSet(events) => {
            assert_eq!(events.len(), 2);
            assert!(matches!(events[0], SceneEvent::SpriteNew(..)));
            assert!(matches!(events[1], SceneEvent::SpriteDrawingStart(7, _)));
        }
        _ => panic!("drawing not folded"),
    }
}

#[test]
fn test_group_for_item_and_erase() {
    let mut h = History::new(false);
    h.issue_event(SceneEvent::LayerRemove(1));
    h.issue_event(SceneEvent::SpriteRestore(4));
    h.issue_event(SceneEvent::SpriteRemove(4, 2));
    h.group_for_item(4);
    assert_eq!(h.history.len(), 2);
    match &h.history[1] {
        SceneEvent::EventSet(events) => {
            assert_eq!(events.len(), 2);
            assert!(matches!(events[0], SceneEvent::SpriteRemove(4, 2)));
        }
        _ => panic!("events not folded"),
    }
    h.issue_redo(Some(SceneEvent::LayerRestore(1)));
    h.erase_item(1);
    assert_eq!(h.history.len(), 1);
    assert!(h.redo_history.is_empty());
}

#[test]
fn test_change_scene_and_ping() {
    let mut h = History::new(true);
    let (online, msg) = h.change_scene(77);
    assert!(online);
    assert!(matches!(msg.unwrap().event, ClientEvent::SceneChange(77)));
    assert!(matches!(h.reply_to_health_check().unwrap().event, ClientEvent::Ping));
    let mut off = History::new(false);
    assert_eq!(off.change_scene(77).0, false);
    assert!(off.reply_to_health_check().is_none());
}
