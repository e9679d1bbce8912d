use multi_draggable::drag::{point_sub, DragPhase, DragSession, Point, Rect};
use multi_draggable::registry::NodeId;
use multi_draggable::text::{contains_sub, starts_with_query, str_eq, str_le, tail_contains_query};

#[test]
fn string_order_is_lexicographic() {
    assert!(str_le("ant", "bee"));
    assert!(!str_le("bee", "ant"));
    assert!(str_le("ant", "ant"));
    assert!(str_le("an", "ant")); // a proper prefix comes first
    assert!(!str_le("ant", "an"));
    assert!(str_le("", "a"));
    assert!(str_le("", ""));
    assert!(str_le("zebra", "Ärger")); // by code point: 'z' < 'Ä'
}

#[test]
fn string_equality_is_exact() {
    assert!(str_eq("melon", "melon"));
    assert!(!str_eq("melon", "melons"));
    assert!(!str_eq("melon", "melOn"));
    assert!(str_eq("", ""));
}

#[test]
fn prefix_and_substring_tests() {
    assert!(starts_with_query("banana", "ban"));
    assert!(!starts_with_query("banana", "ana"));
    assert!(starts_with_query("x", ""));
    assert!(!starts_with_query("", "x"));

    assert!(contains_sub("anana", "an"));
    assert!(contains_sub("anana", "ana"));
    assert!(!contains_sub("anana", "nab"));
    assert!(contains_sub("abc", ""));
    assert!(contains_sub("", ""));
    assert!(!contains_sub("", "a"));
}

#[test]
fn tail_test_strips_the_first_character() {
    assert!(tail_contains_query("banana", "an")); // "anana" contains "an"
    assert!(tail_contains_query("ab", "b"));
    assert!(!tail_contains_query("ab", "a")); // the tail is just "b"
    // names shorter than two characters never match
    assert!(!tail_contains_query("x", ""));
    assert!(!tail_contains_query("", ""));
}

#[test]
fn point_difference_is_componentwise() {
    let d = point_sub(Point { x: 300, y: 200 }, Point { x: 10, y: 20 });
    assert_eq!(d, Point { x: 290, y: 180 });
}

#[test]
fn session_accept_path_removes_proxy_immediately() {
    let mut s = DragSession::new("k".to_string());
    assert_eq!(s.phase, DragPhase::Idle);
    assert!(!s.proxy_live);
    s.begin(
        Point { x: 100, y: 100 },
        Rect { x: 90, y: 95, width: 40, height: 20 },
        Rect { x: 10, y: 20, width: 800, height: 600 },
    );
    assert_eq!(s.phase, DragPhase::Dragging);
    assert!(s.proxy_live);
    assert_eq!(s.pointer_offset, Point { x: 10, y: 5 });
    assert_eq!(s.container_offset, Point { x: 10, y: 20 });
    assert_eq!(s.item_size, Point { x: 40, y: 20 });
    assert_eq!(s.proxy_position(Point { x: 300, y: 200 }), Point { x: 290, y: 180 });

    s.update_hover(&vec![NodeId(7), NodeId(2)], NodeId(2));
    assert!(s.hover_over_target);
    assert!(s.resolve());
    assert_eq!(s.phase, DragPhase::Accepted);
    assert!(!s.proxy_live);
}

#[test]
fn session_reject_path_keeps_proxy_until_snap_back_ends() {
    let mut s = DragSession::new("k".to_string());
    s.begin(
        Point { x: 100, y: 100 },
        Rect { x: 90, y: 95, width: 40, height: 20 },
        Rect { x: 10, y: 20, width: 800, height: 600 },
    );
    s.update_hover(&vec![NodeId(7)], NodeId(2));
    assert!(!s.hover_over_target);
    assert!(!s.resolve());
    assert_eq!(s.phase, DragPhase::Rejected);
    assert!(s.proxy_live); // the proxy lingers for the snap-back animation
    s.finish_snap_back();
    assert!(!s.proxy_live);
    assert_eq!(s.phase, DragPhase::Rejected);
}
