//! Verified engine for a two-zone drag-and-drop list.
//!
//! Two drop zones ("available" and "assigned") each own an ordered store of
//! labeled items. A pointer gesture can drag an item from one zone and, if it
//! is released over the opposite zone's drop target, transfer it there; the
//! stores stay sorted by display name, a shared text filter projects each
//! store into a prioritized view, and a per-zone anchor registry remembers
//! where each item is rendered so the host can scroll it into view.
//!
//! Everything that decides — ordering, sorted insertion, removal, filtering,
//! the drag-session state machine, and the transfer between zones — lives
//! here and is verified. The host is expected to feed in plain values
//! (pointer positions, element identifiers, bounding boxes, filter text) and
//! to carry out the returned effects (moving the proxy node, scheduling the
//! snap-back timer, scrolling an anchor into view).

pub mod coordinator;
pub mod drag;
pub mod item;
pub mod registry;
pub mod store;
pub mod text;
