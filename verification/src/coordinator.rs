//! The coordinator owning the two zones: their item stores and anchor
//! registries, the shared selection and filter text, the single optional
//! drag-session slot, and the transfer of an accepted drop from one zone's
//! store into the other's.

use vstd::prelude::*;
use crate::drag::{
    point_in_bounds, rect_in_bounds, DragPhase, DragSession, Point, Rect,
};
use crate::item::{disjoint_keys, has_key, DraggableItem};
use crate::registry::{AnchorRegistry, NodeId};
use crate::store::{filter_spec, ItemStore, StoreError};
use crate::text::{lex_le, lex_lt};

verus! {

/// One of the two drop areas.
#[derive(Clone, Copy, Debug, PartialEq, Eq, Structural)]
pub enum Zone {
    Available,
    Assigned,
}

/// The zone a drop from `z` lands in.
pub open spec fn other_zone(z: Zone) -> Zone {
    if z == Zone::Available {
        Zone::Assigned
    } else {
        Zone::Available
    }
}

/// Executable counterpart of [`other_zone`].
pub fn opposite(z: Zone) -> (r: Zone)
    ensures
        r == other_zone(z),
{
    match z {
        Zone::Available => Zone::Assigned,
        Zone::Assigned => Zone::Available,
    }
}

/// The drag gesture currently in flight, and the zone it started from.
pub struct ActiveDrag {
    pub session: DragSession,
    pub from: Zone,
}

/// What a transfer did.
#[derive(Debug)]
pub enum TransferOutcome {
    /// The item moved; `scroll_to` is the destination zone's anchor for it,
    /// to be scrolled into view if present.
    Moved { scroll_to: Option<NodeId> },
    /// The key was not in the source store; nothing changed.
    NotFound,
}

/// How releasing the pointer resolved.
#[derive(Debug)]
pub enum DropResolution {
    /// No drag was in progress.
    NoDrag,
    /// The drop was accepted and the item transferred; the proxy is gone,
    /// and `scroll_to` names the destination anchor to scroll into view,
    /// if one is registered.
    Accepted { scroll_to: Option<NodeId> },
    /// The drop was rejected: no store changed, and the host should glide
    /// the still-live proxy back to `snap_back_to` and call
    /// `finish_snap_back` once the delay has elapsed.
    Rejected { snap_back_to: Point },
    /// The dragged item had vanished from its store mid-gesture: the
    /// session is abandoned, the proxy discarded, and no store changed.
    Aborted,
}

/// The stores, registries, filter text and drop targets of `post` are those
/// of `pre`: the operation between them touched only the selection, the
/// drag slot or the cursor.
pub open spec fn same_domain(pre: ZoneCoordinator, post: ZoneCoordinator) -> bool {
    &&& post.available == pre.available
    &&& post.assigned == pre.assigned
    &&& post.available_anchors == pre.available_anchors
    &&& post.assigned_anchors == pre.assigned_anchors
    &&& post.filter_text == pre.filter_text
    &&& post.drop_target_available == pre.drop_target_available
    &&& post.drop_target_assigned == pre.drop_target_assigned
}

/// The item carrying `key` left `src_pre` and entered `dst_pre` at its
/// sorted position: for some index `i` holding the key, the source lost
/// exactly that entry, and the destination gained it at an index that sits
/// after every name less than or equal to its own and before every name
/// greater than it.
pub open spec fn moved_stores(
    src_pre: Seq<DraggableItem>,
    dst_pre: Seq<DraggableItem>,
    src_post: Seq<DraggableItem>,
    dst_post: Seq<DraggableItem>,
    key: Seq<char>,
) -> bool {
    exists|i: int|
        0 <= i < src_pre.len() && (#[trigger] src_pre[i]).key@ == key && src_post == src_pre.remove(
            i,
        ) && (exists|idx: int|
            0 <= idx <= dst_pre.len() && dst_post == dst_pre.insert(idx, src_pre[i]) && (forall|
                k2: int,
            |
                0 <= k2 < idx ==> lex_le(
                    (#[trigger] dst_pre[k2]).display_name@,
                    src_pre[i].display_name@,
                )) && (forall|k2: int|
                idx <= k2 < dst_pre.len() ==> lex_lt(
                    src_pre[i].display_name@,
                    (#[trigger] dst_pre[k2]).display_name@,
                )))
}

/// What an accepted transfer of `key` out of `from` does to the
/// coordinator: the item leaves the source store, enters the destination
/// store at its sorted position, the selection becomes the moved key, the
/// source anchor is dropped, and the reported scroll target is the
/// destination zone's anchor for the key. The combined item count of the
/// two stores is unchanged.
pub open spec fn transfer_moved(
    pre: ZoneCoordinator,
    post: ZoneCoordinator,
    from: Zone,
    key: Seq<char>,
    scroll: Option<NodeId>,
) -> bool {
    let src_pre = pre.items_of(from);
    let dst_pre = pre.items_of(other_zone(from));
    let src_post = post.items_of(from);
    let dst_post = post.items_of(other_zone(from));
    &&& has_key(src_pre, key)
    &&& moved_stores(src_pre, dst_pre, src_post, dst_post, key)
    &&& src_post.len() + dst_post.len() == src_pre.len() + dst_pre.len()
    &&& !has_key(src_post, key)
    &&& has_key(dst_post, key)
    &&& post.selected_of() == Some(key)
    &&& post.anchors_of(from).spec_anchor(key) == None::<NodeId>
    &&& (forall|k2: Seq<char>|
        k2 != key ==> post.anchors_of(from).spec_anchor(k2) == pre.anchors_of(from).spec_anchor(
            k2,
        ))
    &&& post.anchors_of(other_zone(from)) == pre.anchors_of(other_zone(from))
    &&& scroll == pre.anchors_of(other_zone(from)).spec_anchor(key)
    &&& post.filter_text == pre.filter_text
    &&& post.drop_target_available == pre.drop_target_available
    &&& post.drop_target_assigned == pre.drop_target_assigned
}

/// Owns the two item stores, the two anchor registries, the shared
/// selection and filter text, and the single optional drag-session slot.
pub struct ZoneCoordinator {
    pub available: ItemStore,
    pub assigned: ItemStore,
    pub available_anchors: AnchorRegistry,
    pub assigned_anchors: AnchorRegistry,
    /// The most recently interacted-with item's key. When that item is
    /// removed the key deliberately stays in place, as a stale selection.
    pub selected: Option<String>,
    /// The externally supplied filter text, shared by both zones.
    pub filter_text: String,
    pub drop_target_available: NodeId,
    pub drop_target_assigned: NodeId,
    /// At most one drag session is live system-wide.
    pub active: Option<ActiveDrag>,
    /// Whether the shared cursor currently shows the grabbing indicator.
    pub cursor_grabbing: bool,
}

impl ZoneCoordinator {
    /// The items a zone's store holds, in order.
    pub open spec fn items_of(&self, z: Zone) -> Seq<DraggableItem> {
        if z == Zone::Available {
            self.available@
        } else {
            self.assigned@
        }
    }

    /// A zone's anchor registry.
    pub open spec fn anchors_of(&self, z: Zone) -> AnchorRegistry {
        if z == Zone::Available {
            self.available_anchors
        } else {
            self.assigned_anchors
        }
    }

    /// A zone's drop-target element.
    pub open spec fn drop_target_of(&self, z: Zone) -> NodeId {
        if z == Zone::Available {
            self.drop_target_available
        } else {
            self.drop_target_assigned
        }
    }

    /// The selected key, as a character sequence.
    pub open spec fn selected_of(&self) -> Option<Seq<char>> {
        match self.selected {
            Some(s) => Some(s@),
            None => None,
        }
    }

    /// The coordinator's invariant: both stores sorted with unique keys, no
    /// key in both stores, well-formed registries, and any stored session
    /// either dragging or awaiting its snap-back, proxy still live.
    pub open spec fn wf(&self) -> bool {
        &&& self.available.wf()
        &&& self.assigned.wf()
        &&& self.available_anchors.wf()
        &&& self.assigned_anchors.wf()
        &&& disjoint_keys(self.available@, self.assigned@)
        &&& match self.active {
            Some(a) => {
                &&& a.session.wf()
                &&& a.session.proxy_live
                &&& (a.session.phase == DragPhase::Dragging || a.session.phase
                    == DragPhase::Rejected)
            },
            None => true,
        }
    }

    pub fn new(drop_target_available: NodeId, drop_target_assigned: NodeId) -> (c: Self)
        ensures
            c.wf(),
            c.available@ == Seq::<DraggableItem>::empty(),
            c.assigned@ == Seq::<DraggableItem>::empty(),
            c.selected_of() == None::<Seq<char>>,
            c.filter_text@ == Seq::<char>::empty(),
            c.active is None,
            !c.cursor_grabbing,
            c.drop_target_available == drop_target_available,
            c.drop_target_assigned == drop_target_assigned,
            forall|k: Seq<char>| c.available_anchors.spec_anchor(k) == None::<NodeId>,
            forall|k: Seq<char>| c.assigned_anchors.spec_anchor(k) == None::<NodeId>,
    {
        ZoneCoordinator {
            available: ItemStore::new(),
            assigned: ItemStore::new(),
            available_anchors: AnchorRegistry::new(),
            assigned_anchors: AnchorRegistry::new(),
            selected: None,
            filter_text: String::new(),
            drop_target_available,
            drop_target_assigned,
            active: None,
            cursor_grabbing: false,
        }
    }

    /// Seeds a zone with an item, keeping the store sorted; a key already
    /// present in either zone is rejected, so keys stay globally unique.
    pub fn add_item(&mut self, zone: Zone, item: DraggableItem) -> (r: Result<usize, StoreError>)
        requires
            old(self).wf(),
        ensures
            final(self).wf(),
            final(self).anchors_of(Zone::Available) == old(self).anchors_of(Zone::Available),
            final(self).anchors_of(Zone::Assigned) == old(self).anchors_of(Zone::Assigned),
            final(self).selected == old(self).selected,
            final(self).filter_text == old(self).filter_text,
            final(self).active == old(self).active,
            final(self).cursor_grabbing == old(self).cursor_grabbing,
            final(self).drop_target_available == old(self).drop_target_available,
            final(self).drop_target_assigned == old(self).drop_target_assigned,
            match r {
                Ok(idx) => {
                    &&& !has_key(old(self).items_of(zone), item.key@)
                    &&& !has_key(old(self).items_of(other_zone(zone)), item.key@)
                    &&& idx <= old(self).items_of(zone).len()
                    &&& final(self).items_of(zone) == old(self).items_of(zone).insert(
                        idx as int,
                        item,
                    )
                    &&& final(self).items_of(other_zone(zone)) == old(self).items_of(
                        other_zone(zone),
                    )
                    &&& has_key(final(self).items_of(zone), item.key@)
                },
                Err(e) => {
                    &&& e == StoreError::DuplicateKey
                    &&& (has_key(old(self).items_of(zone), item.key@) || has_key(
                        old(self).items_of(other_zone(zone)),
                        item.key@,
                    ))
                    &&& *final(self) == *old(self)
                },
            },
    {
        let in_other = match zone {
            Zone::Available => self.assigned.contains(item.key.as_str()),
            Zone::Assigned => self.available.contains(item.key.as_str()),
        };
        if in_other {
            return Err(StoreError::DuplicateKey);
        }
        let ghost item_key = item.key@;
        let r = match zone {
            Zone::Available => self.available.insert(item),
            Zone::Assigned => self.assigned.insert(item),
        };
        match r {
            Ok(idx) => {
                proof {
                    let av_pre = old(self).available@;
                    let as_pre = old(self).assigned@;
                    let av = self.available@;
                    let an = self.assigned@;
                    if zone == Zone::Available {
                        av_pre.insert_ensures(idx as int, item);
                    } else {
                        as_pre.insert_ensures(idx as int, item);
                    }
                    assert forall|i: int, j: int|
                        #![trigger av[i], an[j]]
                        0 <= i < av.len() && 0 <= j < an.len() implies av[i].key@ != an[j].key@ by {
                        if zone == Zone::Available {
                            let x = if i < idx {
                                av_pre[i]
                            } else if i == idx {
                                item
                            } else {
                                av_pre[i - 1]
                            };
                            assert(av[i] == x);
                            assert(an[j] == as_pre[j]);
                            if i == idx && x.key@ == as_pre[j].key@ {
                                assert(has_key(as_pre, item.key@));
                            }
                        } else {
                            let y = if j < idx {
                                as_pre[j]
                            } else if j == idx {
                                item
                            } else {
                                as_pre[j - 1]
                            };
                            assert(an[j] == y);
                            assert(av[i] == av_pre[i]);
                            if j == idx && y.key@ == av_pre[i].key@ {
                                assert(has_key(av_pre, item.key@));
                            }
                        }
                    }
                }
                Ok(idx)
            },
            Err(e) => Err(e),
        }
    }

    /// Moves the item carrying `key` out of `from` into the other zone, in
    /// strict order: insert into the destination store (setting the
    /// selection), remove from the source store, unregister the source
    /// anchor and look up the destination anchor. The add-before-remove
    /// ordering keeps the item from ever being absent from both stores.
    #[verifier::rlimit(50)]
    pub fn transfer(&mut self, key: &str, from: Zone) -> (r: TransferOutcome)
        requires
            old(self).wf(),
        ensures
            final(self).wf(),
            final(self).active == old(self).active,
            final(self).cursor_grabbing == old(self).cursor_grabbing,
            match r {
                TransferOutcome::Moved { scroll_to } => transfer_moved(
                    *old(self),
                    *final(self),
                    from,
                    key@,
                    scroll_to,
                ),
                TransferOutcome::NotFound => {
                    &&& !has_key(old(self).items_of(from), key@)
                    &&& *final(self) == *old(self)
                },
            },
    {
        let moved = match from {
            Zone::Available => transfer_between(
                &mut self.available,
                &mut self.assigned,
                &mut self.available_anchors,
                &self.assigned_anchors,
                &mut self.selected,
                key,
            ),
            Zone::Assigned => transfer_between(
                &mut self.assigned,
                &mut self.available,
                &mut self.assigned_anchors,
                &self.available_anchors,
                &mut self.selected,
                key,
            ),
        };
        match moved {
            Some(scroll_to) => TransferOutcome::Moved { scroll_to },
            None => TransferOutcome::NotFound,
        }
    }

    /// Pointer-down over an item of `zone`: starts a drag session if none
    /// is live and the item is present. Records the pointer-to-item offset
    /// and the container offset, stands for the creation of the proxy node,
    /// sets the shared cursor to the grabbing indicator and selects the
    /// item.
    pub fn pointer_down(
        &mut self,
        zone: Zone,
        key: &str,
        pointer: Point,
        item_box: Rect,
        container_box: Rect,
    ) -> (started: bool)
        requires
            old(self).wf(),
            point_in_bounds(pointer),
            rect_in_bounds(item_box),
            rect_in_bounds(container_box),
        ensures
            final(self).wf(),
            started == (old(self).active is None && has_key(old(self).items_of(zone), key@)),
            !started ==> *final(self) == *old(self),
            started ==> {
                &&& same_domain(*old(self), *final(self))
                &&& final(self).selected_of() == Some(key@)
                &&& final(self).cursor_grabbing
                &&& final(self).active matches Some(a) && a.from == zone && a.session.phase
                    == DragPhase::Dragging && a.session.item_key@ == key@ && a.session.proxy_live
                    && !a.session.hover_over_target && a.session.pointer_offset.x == pointer.x
                    - item_box.x && a.session.pointer_offset.y == pointer.y - item_box.y
                    && a.session.container_offset == (Point { x: container_box.x, y: container_box.y })
                    && a.session.item_size == (Point { x: item_box.width, y: item_box.height })
            },
    {
        if self.active.is_some() {
            return false;
        }
        let present = match zone {
            Zone::Available => self.available.contains(key),
            Zone::Assigned => self.assigned.contains(key),
        };
        if !present {
            return false;
        }
        let mut session = DragSession::new(key.to_owned());
        session.begin(pointer, item_box, container_box);
        self.active = Some(ActiveDrag { session, from: zone });
        self.selected = Some(key.to_owned());
        self.cursor_grabbing = true;
        true
    }

    /// Pointer-move while dragging: re-derives the hover flag by
    /// hit-testing the event target's ancestor chain against the opposite
    /// zone's drop target, and returns where the proxy must be translated
    /// to. Ignored when no drag is in progress or the session is already
    /// resolving its snap-back.
    pub fn pointer_move(&mut self, pointer: Point, chain: &Vec<NodeId>) -> (r: Option<Point>)
        requires
            old(self).wf(),
            point_in_bounds(pointer),
        ensures
            final(self).wf(),
            old(self).active is None ==> r is None && *final(self) == *old(self),
            old(self).active matches Some(a) ==> (a.session.phase != DragPhase::Dragging ==> r
                is None && *final(self) == *old(self)),
            old(self).active matches Some(a) ==> (a.session.phase == DragPhase::Dragging ==> {
                &&& same_domain(*old(self), *final(self))
                &&& final(self).selected == old(self).selected
                &&& final(self).cursor_grabbing == old(self).cursor_grabbing
                &&& final(self).active matches Some(b) && b.from == a.from && b.session
                    == (DragSession {
                    hover_over_target: chain@.contains(
                        old(self).drop_target_of(other_zone(a.from)),
                    ),
                    ..a.session
                })
                &&& r matches Some(p) && p.x == pointer.x - a.session.container_offset.x && p.y
                    == pointer.y - a.session.container_offset.y
            }),
    {
        let target_available = self.drop_target_available;
        let target_assigned = self.drop_target_assigned;
        match &mut self.active {
            None => None,
            Some(a) => {
                if a.session.phase == DragPhase::Dragging {
                    let target = match a.from {
                        Zone::Available => target_assigned,
                        Zone::Assigned => target_available,
                    };
                    a.session.update_hover(chain, target);
                    let p = a.session.proxy_position(pointer);
                    Some(p)
                } else {
                    None
                }
            },
        }
    }

    /// Pointer-up: resolves the live session. Over the opposite drop
    /// target the drop is accepted and the item transfers; elsewhere it is
    /// rejected and only a transient snap-back of the proxy toward the
    /// origin item's box (whose corner the host passes in) follows, with no
    /// store mutation. A dragging session whose item has meanwhile left its
    /// store is abandoned without mutating anything.
    pub fn pointer_up(&mut self, origin_box: Rect) -> (r: DropResolution)
        requires
            old(self).wf(),
            rect_in_bounds(origin_box),
        ensures
            final(self).wf(),
            old(self).active is None ==> r == DropResolution::NoDrag && *final(self) == *old(self),
            old(self).active matches Some(a) ==> (a.session.phase != DragPhase::Dragging ==> r
                == DropResolution::NoDrag && *final(self) == *old(self)),
            old(self).active matches Some(a) ==> (a.session.phase == DragPhase::Dragging ==> {
                &&& !a.session.hover_over_target ==> {
                    &&& r == (DropResolution::Rejected {
                        snap_back_to: Point { x: origin_box.x, y: origin_box.y },
                    })
                    &&& same_domain(*old(self), *final(self))
                    &&& final(self).selected == old(self).selected
                    &&& !final(self).cursor_grabbing
                    &&& final(self).active matches Some(b) && b.from == a.from && b.session
                        == (DragSession { phase: DragPhase::Rejected, ..a.session })
                }
                &&& (a.session.hover_over_target && has_key(
                    old(self).items_of(a.from),
                    a.session.item_key@,
                )) ==> {
                    &&& r matches DropResolution::Accepted { scroll_to } && transfer_moved(
                        *old(self),
                        *final(self),
                        a.from,
                        a.session.item_key@,
                        scroll_to,
                    )
                    &&& final(self).active is None
                    &&& !final(self).cursor_grabbing
                }
                &&& (a.session.hover_over_target && !has_key(
                    old(self).items_of(a.from),
                    a.session.item_key@,
                )) ==> {
                    &&& r == DropResolution::Aborted
                    &&& same_domain(*old(self), *final(self))
                    &&& final(self).selected == old(self).selected
                    &&& final(self).active is None
                    &&& !final(self).cursor_grabbing
                }
            }),
    {
        let resolved = match &mut self.active {
            None => None,
            Some(a) => {
                if a.session.phase != DragPhase::Dragging {
                    None
                } else {
                    let acc = a.session.resolve();
                    Some((a.session.item_key.clone(), a.from, acc))
                }
            },
        };
        match resolved {
            None => DropResolution::NoDrag,
            Some((key, from, acc)) => {
                if acc {
                    self.active = None;
                    self.cursor_grabbing = false;
                    let outcome = self.transfer(key.as_str(), from);
                    match outcome {
                        TransferOutcome::Moved { scroll_to } => DropResolution::Accepted {
                            scroll_to,
                        },
                        TransferOutcome::NotFound => DropResolution::Aborted,
                    }
                } else {
                    self.cursor_grabbing = false;
                    DropResolution::Rejected {
                        snap_back_to: Point { x: origin_box.x, y: origin_box.y },
                    }
                }
            },
        }
    }

    /// After the rejection delay has elapsed: removes the proxy, lets the
    /// original item take pointer events again, and frees the session slot.
    pub fn finish_snap_back(&mut self) -> (done: bool)
        requires
            old(self).wf(),
        ensures
            final(self).wf(),
            done == (old(self).active matches Some(a) && a.session.phase == DragPhase::Rejected),
            !done ==> *final(self) == *old(self),
            done ==> {
                &&& same_domain(*old(self), *final(self))
                &&& final(self).selected == old(self).selected
                &&& final(self).cursor_grabbing == old(self).cursor_grabbing
                &&& final(self).active is None
            },
    {
        let done = match &mut self.active {
            None => false,
            Some(a) => {
                if a.session.phase == DragPhase::Rejected {
                    a.session.finish_snap_back();
                    true
                } else {
                    false
                }
            },
        };
        if done {
            self.active = None;
        }
        done
    }

    /// Replaces the shared filter text.
    pub fn set_filter(&mut self, text: String)
        requires
            old(self).wf(),
        ensures
            final(self).wf(),
            *final(self) == (ZoneCoordinator { filter_text: text, ..*old(self) }),
    {
        self.filter_text = text;
    }

    /// The filter projection of a zone's store under the current filter
    /// text, recomputed from the store and the text alone; never mutates.
    pub fn filtered(&self, zone: Zone) -> (out: Vec<DraggableItem>)
        ensures
            out@ == filter_spec(self.items_of(zone), self.filter_text@),
    {
        match zone {
            Zone::Available => self.available.filter(self.filter_text.as_str()),
            Zone::Assigned => self.assigned.filter(self.filter_text.as_str()),
        }
    }

    /// Read-only view of a zone's ordered items, for rendering.
    pub fn items(&self, zone: Zone) -> (r: &Vec<DraggableItem>)
        ensures
            r@ == self.items_of(zone),
    {
        match zone {
            Zone::Available => self.available.items(),
            Zone::Assigned => self.assigned.items(),
        }
    }

    /// The currently selected key, if any.
    pub fn selected_key(&self) -> (r: Option<String>)
        ensures
            match r {
                Some(s) => self.selected_of() == Some(s@),
                None => self.selected_of() == None::<Seq<char>>,
            },
    {
        match &self.selected {
            Some(s) => Some(s.clone()),
            None => None,
        }
    }

    /// The single cursor-style string for the whole drag area.
    pub fn cursor_style(&self) -> (r: &'static str)
        ensures
            self.cursor_grabbing ==> r@ == "grabbing"@,
            !self.cursor_grabbing ==> r@ == "normal"@,
    {
        if self.cursor_grabbing {
            "grabbing"
        } else {
            "normal"
        }
    }

    /// Whether `zone`'s drop target should show its highlight border: an
    /// item from the other zone is dragging over it.
    pub fn highlight(&self, zone: Zone) -> (r: bool)
        ensures
            r == (self.active matches Some(a) && a.session.phase == DragPhase::Dragging
                && other_zone(a.from) == zone && a.session.hover_over_target),
    {
        match &self.active {
            None => false,
            Some(a) => {
                let opp = opposite(a.from);
                a.session.phase == DragPhase::Dragging && opp == zone
                    && a.session.hover_over_target
            },
        }
    }

    /// Records the rendered node for an item of a zone, as the item mounts.
    pub fn register_anchor(&mut self, zone: Zone, key: &str, node: NodeId)
        requires
            old(self).wf(),
        ensures
            final(self).wf(),
            final(self).anchors_of(zone).spec_anchor(key@) == Some(node),
            forall|k2: Seq<char>|
                k2 != key@ ==> final(self).anchors_of(zone).spec_anchor(k2) == old(
                    self,
                ).anchors_of(zone).spec_anchor(k2),
            final(self).anchors_of(other_zone(zone)) == old(self).anchors_of(other_zone(zone)),
            final(self).available == old(self).available,
            final(self).assigned == old(self).assigned,
            final(self).selected == old(self).selected,
            final(self).filter_text == old(self).filter_text,
            final(self).active == old(self).active,
            final(self).cursor_grabbing == old(self).cursor_grabbing,
            final(self).drop_target_available == old(self).drop_target_available,
            final(self).drop_target_assigned == old(self).drop_target_assigned,
    {
        match zone {
            Zone::Available => self.available_anchors.register(key, node),
            Zone::Assigned => self.assigned_anchors.register(key, node),
        }
    }

    /// Forgets the rendered node for an item of a zone, as the item
    /// unmounts.
    pub fn unregister_anchor(&mut self, zone: Zone, key: &str)
        requires
            old(self).wf(),
        ensures
            final(self).wf(),
            final(self).anchors_of(zone).spec_anchor(key@) == None::<NodeId>,
            forall|k2: Seq<char>|
                k2 != key@ ==> final(self).anchors_of(zone).spec_anchor(k2) == old(
                    self,
                ).anchors_of(zone).spec_anchor(k2),
            final(self).anchors_of(other_zone(zone)) == old(self).anchors_of(other_zone(zone)),
            final(self).available == old(self).available,
            final(self).assigned == old(self).assigned,
            final(self).selected == old(self).selected,
            final(self).filter_text == old(self).filter_text,
            final(self).active == old(self).active,
            final(self).cursor_grabbing == old(self).cursor_grabbing,
            final(self).drop_target_available == old(self).drop_target_available,
            final(self).drop_target_assigned == old(self).drop_target_assigned,
    {
        match zone {
            Zone::Available => self.available_anchors.unregister(key),
            Zone::Assigned => self.assigned_anchors.unregister(key),
        }
    }

    /// The registered anchor for an item of a zone, if any. Absence is
    /// never an error.
    pub fn anchor(&self, zone: Zone, key: &str) -> (r: Option<NodeId>)
        requires
            self.wf(),
        ensures
            r == self.anchors_of(zone).spec_anchor(key@),
    {
        match zone {
            Zone::Available => self.available_anchors.lookup(key),
            Zone::Assigned => self.assigned_anchors.lookup(key),
        }
    }

    /// A zone's drop-target element.
    pub fn drop_target(&self, zone: Zone) -> (r: NodeId)
        ensures
            r == self.drop_target_of(zone),
    {
        match zone {
            Zone::Available => self.drop_target_available,
            Zone::Assigned => self.drop_target_assigned,
        }
    }
}

/// Across any sequence of accepted transfers — consecutive coordinator
/// states each related by `transfer_moved` — the combined item count of the
/// two stores stays what it first was.
pub proof fn lemma_transfer_chain_count(
    states: Seq<ZoneCoordinator>,
    froms: Seq<Zone>,
    keys: Seq<Seq<char>>,
    scrolls: Seq<Option<NodeId>>,
)
    requires
        states.len() >= 1,
        froms.len() == states.len() - 1,
        keys.len() == states.len() - 1,
        scrolls.len() == states.len() - 1,
        forall|i: int|
            0 <= i < states.len() - 1 ==> transfer_moved(
                #[trigger] states[i],
                states[i + 1],
                froms[i],
                keys[i],
                scrolls[i],
            ),
    ensures
        forall|i: int|
            0 <= i < states.len() ==> #[trigger] states[i].available@.len()
                + states[i].assigned@.len() == states[0].available@.len()
                + states[0].assigned@.len(),
    decreases states.len(),
{
    if states.len() > 1 {
        assert(transfer_moved(states[0], states[1], froms[0], keys[0], scrolls[0]));
        assert(states[1].available@.len() + states[1].assigned@.len() == states[0].available@.len()
            + states[0].assigned@.len()) by {
            if froms[0] == Zone::Available {
            } else {
            }
        }
        let st = states.drop_first();
        let fr = froms.drop_first();
        let ks = keys.drop_first();
        let sc = scrolls.drop_first();
        assert forall|i: int| 0 <= i < st.len() - 1 implies transfer_moved(
            #[trigger] st[i],
            st[i + 1],
            fr[i],
            ks[i],
            sc[i],
        ) by {
            assert(st[i] == states[i + 1]);
            assert(st[i + 1] == states[i + 2]);
            assert(fr[i] == froms[i + 1]);
            assert(ks[i] == keys[i + 1]);
            assert(sc[i] == scrolls[i + 1]);
            assert(transfer_moved(states[i + 1], states[i + 2], froms[i + 1], keys[i + 1], scrolls[i
                + 1]));
        }
        lemma_transfer_chain_count(st, fr, ks, sc);
        assert forall|i: int| 0 <= i < states.len() implies #[trigger] states[i].available@.len()
            + states[i].assigned@.len() == states[0].available@.len()
            + states[0].assigned@.len() by {
            if i >= 1 {
                assert(st[i - 1] == states[i]);
                assert(st[0] == states[1]);
                assert(st[i - 1].available@.len() + st[i - 1].assigned@.len()
                    == st[0].available@.len() + st[0].assigned@.len());
            }
        }
    }
}

/// The transfer itself, from a source store and registry into a
/// destination store, with the shared selection.
fn transfer_between(
    src: &mut ItemStore,
    dst: &mut ItemStore,
    src_reg: &mut AnchorRegistry,
    dst_reg: &AnchorRegistry,
    selected: &mut Option<String>,
    key: &str,
) -> (r: Option<Option<NodeId>>)
    requires
        old(src).wf(),
        old(dst).wf(),
        old(src_reg).wf(),
        dst_reg.wf(),
        disjoint_keys(old(src)@, old(dst)@),
    ensures
        final(src).wf(),
        final(dst).wf(),
        final(src_reg).wf(),
        disjoint_keys(final(src)@, final(dst)@),
        match r {
            Some(scroll) => {
                &&& has_key(old(src)@, key@)
                &&& moved_stores(old(src)@, old(dst)@, final(src)@, final(dst)@, key@)
                &&& final(src)@.len() + final(dst)@.len() == old(src)@.len() + old(dst)@.len()
                &&& !has_key(final(src)@, key@)
                &&& has_key(final(dst)@, key@)
                &&& (match *final(selected) {
                    Some(s) => s@ == key@,
                    None => false,
                })
                &&& final(src_reg).spec_anchor(key@) == None::<NodeId>
                &&& (forall|k2: Seq<char>|
                    k2 != key@ ==> final(src_reg).spec_anchor(k2) == old(src_reg).spec_anchor(k2))
                &&& scroll == dst_reg.spec_anchor(key@)
            },
            None => {
                &&& !has_key(old(src)@, key@)
                &&& *final(src) == *old(src)
                &&& *final(dst) == *old(dst)
                &&& *final(src_reg) == *old(src_reg)
                &&& *final(selected) == *old(selected)
            },
        },
{
    let found = src.get_by_key(key);
    match found {
        None => None,
        Some(it) => {
            let moved_key = it.key.clone();
            let ghost moved_item = it;
            let ghost src_pre = src@;
            let ghost dst_pre = dst@;
            proof {
                let ig = choose|i: int| 0 <= i < src_pre.len() && src_pre[i] == moved_item;
                assert forall|j: int| 0 <= j < dst_pre.len() implies (#[trigger] dst_pre[j]).key@
                    != moved_item.key@ by {
                    assert(src_pre[ig].key@ != dst_pre[j].key@);
                }
                assert(!has_key(dst_pre, moved_item.key@));
            }
            let ins = dst.insert(it);
            match ins {
                Err(_) => {
                    proof {
                        assert(false);
                    }
                    None
                },
                Ok(idx) => {
                    *selected = Some(moved_key);
                    let removed = src.remove(key);
                    src_reg.unregister(key);
                    let scroll = dst_reg.lookup(key);
                    proof {
                        assert(removed);
                        let src_post = src@;
                        let dst_post = dst@;
                        let ir = choose|i: int|
                            0 <= i < src_pre.len() && src_pre[i].key@ == key@ && src_post
                                == src_pre.remove(i);
                        let ig = choose|i: int| 0 <= i < src_pre.len() && src_pre[i] == moved_item;
                        assert(ir == ig) by {
                            if ir != ig {
                                assert(src_pre[ir].key@ != src_pre[ig].key@);
                            }
                        }
                        assert(src_pre[ir] == moved_item);
                        assert(dst_post == dst_pre.insert(idx as int, src_pre[ir]));
                        src_pre.remove_ensures(ir);
                        dst_pre.insert_ensures(idx as int, moved_item);
                        assert forall|a: int, b: int|
                            #![trigger src_post[a], dst_post[b]]
                            0 <= a < src_post.len() && 0 <= b < dst_post.len() implies src_post[a].key@
                            != dst_post[b].key@ by {
                            let pa = if a < ir {
                                a
                            } else {
                                a + 1
                            };
                            assert(src_post[a] == src_pre[pa]);
                            if b == idx {
                                assert(dst_post[b] == moved_item);
                                if src_post[a].key@ == key@ {
                                    assert(has_key(src_post, key@));
                                }
                            } else {
                                let pb = if b < idx {
                                    b
                                } else {
                                    b - 1
                                };
                                assert(dst_post[b] == dst_pre[pb]);
                                assert(src_pre[pa].key@ != dst_pre[pb].key@);
                            }
                        }
                    }
                    Some(scroll)
                },
            }
        },
    }
}

} // verus!
