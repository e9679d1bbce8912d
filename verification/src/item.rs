//! The items the two drop zones hold, and the sequence-level predicates the
//! stores' contracts are stated over.

use vstd::prelude::*;
use crate::text::lex_le;

verus! {

/// One labeled entry of a drop zone: a globally unique identity `key` and
/// the `display_name` the zones sort and filter by.
pub struct DraggableItem {
    pub key: String,
    pub display_name: String,
}

impl Clone for DraggableItem {
    fn clone(&self) -> (r: Self)
        ensures
            r == *self,
    {
        DraggableItem { key: self.key.clone(), display_name: self.display_name.clone() }
    }
}

impl DraggableItem {
    pub fn new(key: String, display_name: String) -> (r: Self)
        ensures
            r.key == key,
            r.display_name == display_name,
    {
        DraggableItem { key, display_name }
    }
}

/// The sequence is sorted ascending by display name.
pub open spec fn sorted_by_name(s: Seq<DraggableItem>) -> bool {
    forall|i: int, j: int|
        #![trigger s[i], s[j]]
        0 <= i < j < s.len() ==> lex_le(s[i].display_name@, s[j].display_name@)
}

/// No two entries of the sequence share a key.
pub open spec fn unique_keys(s: Seq<DraggableItem>) -> bool {
    forall|i: int, j: int| #![trigger s[i], s[j]] 0 <= i < j < s.len() ==> s[i].key@ != s[j].key@
}

/// Some entry of the sequence carries the key `k`.
pub open spec fn has_key(s: Seq<DraggableItem>, k: Seq<char>) -> bool {
    exists|i: int| 0 <= i < s.len() && s[i].key@ == k
}

/// No key occurs in both sequences: an item's key never exists in both
/// zones at once.
pub open spec fn disjoint_keys(x: Seq<DraggableItem>, y: Seq<DraggableItem>) -> bool {
    forall|i: int, j: int|
        #![trigger x[i], y[j]]
        0 <= i < x.len() && 0 <= j < y.len() ==> x[i].key@ != y[j].key@
}

} // verus!
