use multi_draggable::coordinator::{DropResolution, TransferOutcome, Zone, ZoneCoordinator};
use multi_draggable::drag::{hit_test, DragPhase, Point, Rect};
use multi_draggable::item::DraggableItem;
use multi_draggable::registry::{AnchorRegistry, NodeId};

fn available_target() -> NodeId {
    NodeId(1)
}

fn assigned_target() -> NodeId {
    NodeId(2)
}

fn item(key: &str, name: &str) -> DraggableItem {
    DraggableItem::new(key.to_string(), name.to_string())
}

fn coordinator_with(avail: &[(&str, &str)], assigned: &[(&str, &str)]) -> ZoneCoordinator {
    let mut c = ZoneCoordinator::new(available_target(), assigned_target());
    for (k, n) in avail {
        assert!(c.add_item(Zone::Available, item(k, n)).is_ok());
    }
    for (k, n) in assigned {
        assert!(c.add_item(Zone::Assigned, item(k, n)).is_ok());
    }
    c
}

fn zone_names(c: &ZoneCoordinator, zone: Zone) -> Vec<String> {
    c.items(zone).iter().map(|it| it.display_name.clone()).collect()
}

fn point(x: i64, y: i64) -> Point {
    Point { x, y }
}

fn rect(x: i64, y: i64, width: i64, height: i64) -> Rect {
    Rect { x, y, width, height }
}

fn start_drag(c: &mut ZoneCoordinator, zone: Zone, key: &str) -> bool {
    c.pointer_down(zone, key, point(100, 100), rect(90, 95, 40, 20), rect(10, 20, 800, 600))
}

#[test]
fn add_item_rejects_key_present_in_either_zone() {
    let mut c = coordinator_with(&[("x", "xen")], &[("y", "yak")]);
    assert!(c.add_item(Zone::Available, item("x", "other")).is_err());
    assert!(c.add_item(Zone::Assigned, item("x", "other")).is_err());
    assert!(c.add_item(Zone::Available, item("y", "other")).is_err());
    assert_eq!(zone_names(&c, Zone::Available), vec!["xen"]);
    assert_eq!(zone_names(&c, Zone::Assigned), vec!["yak"]);
}

#[test]
fn hit_test_walks_the_chain() {
    let chain = vec![NodeId(9), NodeId(7), assigned_target(), NodeId(3)];
    assert!(hit_test(&chain, assigned_target()));
    assert!(!hit_test(&chain, NodeId(42)));
    assert!(!hit_test(&Vec::new(), assigned_target()));
}

#[test]
fn accepted_drop_transfers_item() {
    // drag item X from Available, release over Assigned's drop target
    let mut c = coordinator_with(
        &[("x", "melon"), ("a", "apple")],
        &[("b", "banana"), ("z", "zucchini")],
    );
    assert!(start_drag(&mut c, Zone::Available, "x"));
    assert_eq!(c.cursor_style(), "grabbing");
    assert_eq!(c.selected_key().as_deref(), Some("x"));

    // move over the assigned zone's drop target: its ancestor chain holds it
    let chain = vec![NodeId(33), assigned_target()];
    let pos = c.pointer_move(point(300, 200), &chain);
    assert_eq!(pos, Some(point(290, 180))); // pointer minus container offset
    assert!(c.highlight(Zone::Assigned));
    assert!(!c.highlight(Zone::Available));

    match c.pointer_up(rect(90, 95, 40, 20)) {
        DropResolution::Accepted { scroll_to } => assert_eq!(scroll_to, None),
        _ => panic!("expected an accepted drop"),
    }
    assert_eq!(zone_names(&c, Zone::Available), vec!["apple"]);
    assert_eq!(zone_names(&c, Zone::Assigned), vec!["banana", "melon", "zucchini"]);
    assert_eq!(c.selected_key().as_deref(), Some("x"));
    assert_eq!(c.cursor_style(), "normal");
    assert!(!c.highlight(Zone::Assigned));
}

#[test]
fn rejected_drop_leaves_stores_unchanged() {
    // drag item X, release outside any drop target
    let mut c = coordinator_with(&[("x", "melon"), ("a", "apple")], &[("b", "banana")]);
    assert!(start_drag(&mut c, Zone::Available, "x"));

    let chain = vec![NodeId(33), NodeId(44)]; // never reaches the drop target
    let _ = c.pointer_move(point(300, 200), &chain);
    assert!(!c.highlight(Zone::Assigned));

    match c.pointer_up(rect(90, 95, 40, 20)) {
        DropResolution::Rejected { snap_back_to } => assert_eq!(snap_back_to, point(90, 95)),
        _ => panic!("expected a rejected drop"),
    }
    // only a transient visual snap-back occurs, no store mutation
    assert_eq!(zone_names(&c, Zone::Available), vec!["apple", "melon"]);
    assert_eq!(zone_names(&c, Zone::Assigned), vec!["banana"]);
    assert_eq!(c.cursor_style(), "normal");

    // while the snap-back runs, no new drag can start
    assert!(!start_drag(&mut c, Zone::Available, "a"));
    assert!(c.finish_snap_back());
    assert!(start_drag(&mut c, Zone::Available, "a"));
}

#[test]
fn accepted_drop_lands_at_sorted_position_and_scrolls_to_anchor() {
    let mut c = coordinator_with(&[("m", "mango")], &[("a", "apple"), ("z", "zebra")]);
    c.register_anchor(Zone::Available, "m", NodeId(100));
    c.register_anchor(Zone::Assigned, "m", NodeId(200));
    assert!(start_drag(&mut c, Zone::Available, "m"));
    let chain = vec![assigned_target()];
    let _ = c.pointer_move(point(300, 200), &chain);
    match c.pointer_up(rect(90, 95, 40, 20)) {
        DropResolution::Accepted { scroll_to } => assert_eq!(scroll_to, Some(NodeId(200))),
        _ => panic!("expected an accepted drop"),
    }
    assert_eq!(zone_names(&c, Zone::Assigned), vec!["apple", "mango", "zebra"]);
    // the source anchor was unregistered, the destination one kept
    assert_eq!(c.anchor(Zone::Available, "m"), None);
    assert_eq!(c.anchor(Zone::Assigned, "m"), Some(NodeId(200)));
}

#[test]
fn transfer_count_is_invariant_across_accepted_transfers() {
    let mut c = coordinator_with(
        &[("1", "ant"), ("2", "bee"), ("3", "cow")],
        &[("4", "dog"), ("5", "eel")],
    );
    let total =
        |c: &ZoneCoordinator| c.items(Zone::Available).len() + c.items(Zone::Assigned).len();
    let before = total(&c);
    for (key, from) in [("2", Zone::Available), ("4", Zone::Assigned), ("2", Zone::Assigned)] {
        match c.transfer(key, from) {
            TransferOutcome::Moved { .. } => {},
            TransferOutcome::NotFound => panic!("key should have been present"),
        }
        assert_eq!(total(&c), before);
    }
    assert_eq!(zone_names(&c, Zone::Available), vec!["ant", "bee", "cow", "dog"]);
    assert_eq!(zone_names(&c, Zone::Assigned), vec!["eel"]);
}

#[test]
fn transfer_of_absent_key_changes_nothing() {
    let mut c = coordinator_with(&[("1", "ant")], &[("2", "bee")]);
    match c.transfer("nope", Zone::Available) {
        TransferOutcome::NotFound => {},
        TransferOutcome::Moved { .. } => panic!("nothing should have moved"),
    }
    assert_eq!(zone_names(&c, Zone::Available), vec!["ant"]);
    assert_eq!(zone_names(&c, Zone::Assigned), vec!["bee"]);
    assert_eq!(c.selected_key(), None);
}

#[test]
fn drop_of_vanished_item_aborts_without_mutation() {
    let mut c = coordinator_with(&[("x", "melon"), ("a", "apple")], &[]);
    assert!(start_drag(&mut c, Zone::Available, "x"));
    // the item leaves its store mid-gesture
    assert!(c.available.remove("x"));
    let chain = vec![assigned_target()];
    let _ = c.pointer_move(point(300, 200), &chain);
    match c.pointer_up(rect(90, 95, 40, 20)) {
        DropResolution::Aborted => {},
        _ => panic!("expected the gesture to be abandoned"),
    }
    assert_eq!(zone_names(&c, Zone::Available), vec!["apple"]);
    assert!(zone_names(&c, Zone::Assigned).is_empty());
    // the slot is free again
    assert!(start_drag(&mut c, Zone::Available, "a"));
}

#[test]
fn pointer_up_without_drag_is_nodrag() {
    let mut c = coordinator_with(&[("1", "ant")], &[]);
    match c.pointer_up(rect(0, 0, 10, 10)) {
        DropResolution::NoDrag => {},
        _ => panic!("no drag was in progress"),
    }
}

#[test]
fn pointer_down_needs_present_key_and_free_slot() {
    let mut c = coordinator_with(&[("1", "ant")], &[("2", "bee")]);
    assert!(!start_drag(&mut c, Zone::Available, "missing"));
    assert!(start_drag(&mut c, Zone::Available, "1"));
    // a second gesture cannot start while one is live
    assert!(!start_drag(&mut c, Zone::Assigned, "2"));
}

#[test]
fn filtered_views_follow_store_and_filter_text() {
    let mut c = coordinator_with(
        &[("1", "apple"), ("2", "banana"), ("3", "grape")],
        &[("4", "anchor")],
    );
    c.set_filter("an".to_string());
    let avail: Vec<String> =
        c.filtered(Zone::Available).iter().map(|it| it.display_name.clone()).collect();
    assert_eq!(avail, vec!["banana"]);
    let assigned: Vec<String> =
        c.filtered(Zone::Assigned).iter().map(|it| it.display_name.clone()).collect();
    assert_eq!(assigned, vec!["anchor"]);
    c.set_filter(String::new());
    assert_eq!(c.filtered(Zone::Available).len(), 3);
}

#[test]
fn selection_is_set_on_drag_start_and_kept_stale_on_removal() {
    let mut c = coordinator_with(&[("x", "melon")], &[]);
    assert!(start_drag(&mut c, Zone::Available, "x"));
    assert_eq!(c.selected_key().as_deref(), Some("x"));
    let _ = c.pointer_up(rect(90, 95, 40, 20)); // rejected: no hover
    assert!(c.finish_snap_back());
    assert!(c.available.remove("x"));
    // the stale key deliberately stays in place
    assert_eq!(c.selected_key().as_deref(), Some("x"));
}

#[test]
fn anchor_registry_replaces_and_forgets() {
    let mut reg = AnchorRegistry::new();
    assert_eq!(reg.lookup("a"), None);
    reg.register("a", NodeId(10));
    reg.register("b", NodeId(11));
    assert_eq!(reg.lookup("a"), Some(NodeId(10)));
    reg.register("a", NodeId(12));
    assert_eq!(reg.lookup("a"), Some(NodeId(12)));
    assert_eq!(reg.lookup("b"), Some(NodeId(11)));
    reg.unregister("a");
    assert_eq!(reg.lookup("a"), None);
    assert_eq!(reg.lookup("b"), Some(NodeId(11)));
    // unregistering an absent key is no error
    reg.unregister("ghost");
    assert_eq!(reg.lookup("b"), Some(NodeId(11)));
}

#[test]
fn session_phases_follow_the_gesture() {
    let mut c = coordinator_with(&[("x", "melon")], &[]);
    assert!(c.active.is_none());
    assert!(start_drag(&mut c, Zone::Available, "x"));
    {
        let a = c.active.as_ref().expect("session should be live");
        assert_eq!(a.session.phase, DragPhase::Dragging);
        assert!(a.session.proxy_live);
        assert_eq!(a.session.pointer_offset, point(10, 5));
        assert_eq!(a.session.container_offset, point(10, 20));
        assert_eq!(a.session.item_size, point(40, 20));
    }
    let _ = c.pointer_up(rect(90, 95, 40, 20)); // no hover: rejected
    {
        let a = c.active.as_ref().expect("session lingers for the snap-back");
        assert_eq!(a.session.phase, DragPhase::Rejected);
        assert!(a.session.proxy_live);
    }
    assert!(c.finish_snap_back());
    assert!(c.active.is_none());
}
