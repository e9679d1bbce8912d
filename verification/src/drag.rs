//! The per-gesture drag-session state machine: start, move with hover
//! testing, and resolution into an accepted drop or a rejected drop with a
//! snap-back.
//!
//! Exactly one proxy node exists per session and is destroyed by exactly one
//! of the two terminal paths: `begin` is the only transition that creates it
//! (and demands the idle phase, so it fires once), an accepting `resolve`
//! removes it immediately, and after a rejecting `resolve` only
//! `finish_snap_back` — which demands the rejected phase with the proxy
//! still live — removes it, once.

use vstd::prelude::*;
use crate::registry::NodeId;

verus! {

/// Screen coordinates, in integral pixels.
#[derive(Clone, Copy, Debug, PartialEq, Eq, Structural)]
pub struct Point {
    pub x: i64,
    pub y: i64,
}

/// A bounding box as the host reports it: top-left corner and extent.
#[derive(Clone, Copy, Debug, PartialEq, Eq, Structural)]
pub struct Rect {
    pub x: i64,
    pub y: i64,
    pub width: i64,
    pub height: i64,
}

/// Bound on the coordinates the session accepts; keeps every difference the
/// machine computes inside `i64`.
pub const COORD_LIMIT: i64 = 1000000000;

pub open spec fn point_in_bounds(p: Point) -> bool {
    &&& -COORD_LIMIT <= p.x <= COORD_LIMIT
    &&& -COORD_LIMIT <= p.y <= COORD_LIMIT
}

pub open spec fn rect_in_bounds(r: Rect) -> bool {
    &&& -COORD_LIMIT <= r.x <= COORD_LIMIT
    &&& -COORD_LIMIT <= r.y <= COORD_LIMIT
    &&& 0 <= r.width <= COORD_LIMIT
    &&& 0 <= r.height <= COORD_LIMIT
}

/// Componentwise difference of two bounded points.
pub fn point_sub(a: Point, b: Point) -> (r: Point)
    requires
        point_in_bounds(a),
        point_in_bounds(b),
    ensures
        r.x == a.x - b.x,
        r.y == a.y - b.y,
{
    Point { x: a.x - b.x, y: a.y - b.y }
}

/// The phases of one drag gesture. `Accepted` and `Rejected` are terminal:
/// a fresh session is created per gesture.
#[derive(Clone, Copy, Debug, PartialEq, Eq, Structural)]
pub enum DragPhase {
    Idle,
    Dragging,
    Accepted,
    Rejected,
}

/// Walks the ancestor chain of the event's target element upward until it
/// reaches the sought drop target or the chain is exhausted.
pub fn hit_test(chain: &Vec<NodeId>, target: NodeId) -> (r: bool)
    ensures
        r == chain@.contains(target),
{
    let mut i: usize = 0;
    while i < chain.len()
        invariant
            i <= chain@.len(),
            forall|j: int| 0 <= j < i ==> chain@[j] != target,
        decreases chain@.len() - i,
    {
        if chain[i] == target {
            return true;
        }
        i = i + 1;
    }
    false
}

/// Ephemeral state scoped to one drag gesture.
pub struct DragSession {
    /// Key of the item the gesture picked up.
    pub item_key: String,
    pub phase: DragPhase,
    /// Initial offset of the pointer from the dragged item's top-left
    /// corner, so the dragged visual does not jump to the pointer.
    pub pointer_offset: Point,
    /// Top-left corner of the shared drag container's bounding box.
    pub container_offset: Point,
    /// Extent of the dragged item's box, for sizing the proxy.
    pub item_size: Point,
    /// Whether the pointer is currently over the opposite zone's drop
    /// target; drives the destination zone's highlight.
    pub hover_over_target: bool,
    /// Whether the cloned visual proxy node currently exists.
    pub proxy_live: bool,
}

impl DragSession {
    /// The session's invariant: the proxy exists exactly while the gesture
    /// is unresolved (it lingers after a rejection, until the snap-back
    /// completes), and the recorded container corner is bounded.
    pub open spec fn wf(&self) -> bool {
        &&& (self.phase == DragPhase::Idle ==> !self.proxy_live)
        &&& (self.phase == DragPhase::Dragging ==> self.proxy_live)
        &&& (self.phase == DragPhase::Accepted ==> !self.proxy_live)
        &&& point_in_bounds(self.container_offset)
    }

    /// A fresh, idle session for one item.
    pub fn new(item_key: String) -> (s: Self)
        ensures
            s.item_key == item_key,
            s.phase == DragPhase::Idle,
            !s.proxy_live,
            !s.hover_over_target,
            s.wf(),
    {
        DragSession {
            item_key,
            phase: DragPhase::Idle,
            pointer_offset: Point { x: 0, y: 0 },
            container_offset: Point { x: 0, y: 0 },
            item_size: Point { x: 0, y: 0 },
            hover_over_target: false,
            proxy_live: false,
        }
    }

    /// Idle → Dragging, on pointer-down over the item: records the pointer
    /// offset relative to the item's own top-left corner and the container's
    /// bounding-box offset, and stands for the cloning of the item's visual
    /// into the proxy node the host appends to the drag container.
    pub fn begin(&mut self, pointer: Point, item_box: Rect, container_box: Rect)
        requires
            old(self).wf(),
            old(self).phase == DragPhase::Idle,
            point_in_bounds(pointer),
            rect_in_bounds(item_box),
            rect_in_bounds(container_box),
        ensures
            final(self).wf(),
            final(self).phase == DragPhase::Dragging,
            final(self).pointer_offset.x == pointer.x - item_box.x,
            final(self).pointer_offset.y == pointer.y - item_box.y,
            final(self).container_offset == (Point { x: container_box.x, y: container_box.y }),
            final(self).item_size == (Point { x: item_box.width, y: item_box.height }),
            !final(self).hover_over_target,
            final(self).proxy_live,
            final(self).item_key == old(self).item_key,
    {
        self.phase = DragPhase::Dragging;
        self.pointer_offset = point_sub(pointer, Point { x: item_box.x, y: item_box.y });
        self.container_offset = Point { x: container_box.x, y: container_box.y };
        self.item_size = Point { x: item_box.width, y: item_box.height };
        self.hover_over_target = false;
        self.proxy_live = true;
    }

    /// Dragging, on pointer-move: hit-tests the event target's ancestor
    /// chain against the opposite zone's drop target and records the result.
    pub fn update_hover(&mut self, chain: &Vec<NodeId>, target: NodeId)
        requires
            old(self).wf(),
            old(self).phase == DragPhase::Dragging,
        ensures
            final(self).wf(),
            *final(self) == (DragSession { hover_over_target: chain@.contains(target), ..*old(self) }),
    {
        let hovered = hit_test(chain, target);
        self.hover_over_target = hovered;
    }

    /// Where the proxy must be translated to while dragging: the pointer
    /// position minus the container offset.
    pub fn proxy_position(&self, pointer: Point) -> (r: Point)
        requires
            self.wf(),
            point_in_bounds(pointer),
        ensures
            r.x == pointer.x - self.container_offset.x,
            r.y == pointer.y - self.container_offset.y,
    {
        point_sub(pointer, self.container_offset)
    }

    /// Dragging → Accepted or Rejected, on pointer-up. On acceptance the
    /// proxy is removed immediately; on rejection it stays for the snap-back
    /// animation and `finish_snap_back` removes it after the delay.
    pub fn resolve(&mut self) -> (accepted: bool)
        requires
            old(self).wf(),
            old(self).phase == DragPhase::Dragging,
        ensures
            final(self).wf(),
            accepted == old(self).hover_over_target,
            accepted ==> *final(self) == (DragSession {
                phase: DragPhase::Accepted,
                proxy_live: false,
                ..*old(self)
            }),
            !accepted ==> *final(self) == (DragSession { phase: DragPhase::Rejected, ..*old(self) }),
    {
        if self.hover_over_target {
            self.phase = DragPhase::Accepted;
            self.proxy_live = false;
            true
        } else {
            self.phase = DragPhase::Rejected;
            false
        }
    }

    /// Rejected, after the snap-back delay has elapsed: the proxy is removed
    /// and the original item becomes interactive again.
    pub fn finish_snap_back(&mut self)
        requires
            old(self).wf(),
            old(self).phase == DragPhase::Rejected,
            old(self).proxy_live,
        ensures
            final(self).wf(),
            *final(self) == (DragSession { proxy_live: false, ..*old(self) }),
    {
        self.proxy_live = false;
    }
}

} // verus!
