//! Per-zone registry from item key to the identifier of its rendered node.
//! It is purely a side lookup table for scroll-into-view: entries appear
//! when an item mounts and disappear when it unmounts, and the absence of an
//! entry is never an error.

use vstd::prelude::*;
use crate::text::str_eq;

verus! {

/// A non-owning handle on a rendered visual node. The host names each node
/// it mounts with one of these identifiers and keeps the association to the
/// real node on its side.
#[derive(Clone, Copy, Debug, PartialEq, Eq, Structural)]
pub struct NodeId(pub u64);

/// First-match lookup of a key in an entry sequence.
pub open spec fn anchor_in(s: Seq<(String, NodeId)>, k: Seq<char>) -> Option<NodeId>
    decreases s.len(),
{
    if s.len() == 0 {
        None
    } else if s[0].0@ == k {
        Some(s[0].1)
    } else {
        anchor_in(s.skip(1), k)
    }
}

spec fn entry_keys_unique(s: Seq<(String, NodeId)>) -> bool {
    forall|i: int, j: int| #![trigger s[i], s[j]] 0 <= i < j < s.len() ==> s[i].0@ != s[j].0@
}

proof fn lemma_anchor_in_from_index(s: Seq<(String, NodeId)>, k: Seq<char>, i: int)
    requires
        entry_keys_unique(s),
        0 <= i < s.len(),
        s[i].0@ == k,
    ensures
        anchor_in(s, k) == Some(s[i].1),
    decreases s.len(),
{
    if i > 0 {
        assert(s[0].0@ != k);
        assert(s.skip(1)[i - 1] == s[i]);
        assert(entry_keys_unique(s.skip(1))) by {
            assert forall|a: int, b: int|
                #![trigger s.skip(1)[a], s.skip(1)[b]]
                0 <= a < b < s.skip(1).len() implies s.skip(1)[a].0@ != s.skip(1)[b].0@ by {
                assert(s.skip(1)[a] == s[a + 1]);
                assert(s.skip(1)[b] == s[b + 1]);
            }
        }
        lemma_anchor_in_from_index(s.skip(1), k, i - 1);
    }
}

proof fn lemma_anchor_in_absent(s: Seq<(String, NodeId)>, k: Seq<char>)
    requires
        forall|i: int| 0 <= i < s.len() ==> (#[trigger] s[i]).0@ != k,
    ensures
        anchor_in(s, k) == None::<NodeId>,
    decreases s.len(),
{
    if s.len() > 0 {
        assert forall|i: int| 0 <= i < s.skip(1).len() implies (#[trigger] s.skip(1)[i]).0@ != k by {
            assert(s.skip(1)[i] == s[i + 1]);
        }
        lemma_anchor_in_absent(s.skip(1), k);
    }
}

proof fn lemma_anchor_in_characterize(s: Seq<(String, NodeId)>, k: Seq<char>)
    ensures
        match anchor_in(s, k) {
            Some(h) => exists|i: int| 0 <= i < s.len() && (#[trigger] s[i]).0@ == k && s[i].1 == h,
            None => forall|i: int| 0 <= i < s.len() ==> (#[trigger] s[i]).0@ != k,
        },
    decreases s.len(),
{
    if s.len() > 0 && s[0].0@ != k {
        lemma_anchor_in_characterize(s.skip(1), k);
        match anchor_in(s.skip(1), k) {
            Some(h) => {
                let i = choose|i: int|
                    0 <= i < s.skip(1).len() && (#[trigger] s.skip(1)[i]).0@ == k && s.skip(1)[i].1
                        == h;
                assert(s[i + 1] == s.skip(1)[i]);
            },
            None => {
                assert forall|i: int| 0 <= i < s.len() implies (#[trigger] s[i]).0@ != k by {
                    if i > 0 {
                        assert(s.skip(1)[i - 1] == s[i]);
                    }
                }
            },
        }
    }
}

/// Mapping from item key to the anchor of its rendered node, for one zone.
pub struct AnchorRegistry {
    entries: Vec<(String, NodeId)>,
}

impl AnchorRegistry {
    /// The registry's invariant: at most one entry per key.
    pub closed spec fn wf(&self) -> bool {
        entry_keys_unique(self.entries@)
    }

    /// The anchor currently registered for a key, if any.
    pub closed spec fn spec_anchor(&self, k: Seq<char>) -> Option<NodeId> {
        anchor_in(self.entries@, k)
    }

    pub fn new() -> (r: Self)
        ensures
            r.wf(),
            forall|k: Seq<char>| r.spec_anchor(k) == None::<NodeId>,
    {
        let r = AnchorRegistry { entries: Vec::new() };
        proof {
            assert(forall|k: Seq<char>| anchor_in(r.entries@, k) == None::<NodeId>);
        }
        r
    }

    fn index_of(&self, key: &str) -> (r: Option<usize>)
        ensures
            match r {
                Some(i) => i < self.entries@.len() && self.entries@[i as int].0@ == key@,
                None => forall|i: int|
                    0 <= i < self.entries@.len() ==> (#[trigger] self.entries@[i]).0@ != key@,
            },
    {
        let mut i: usize = 0;
        while i < self.entries.len()
            invariant
                i <= self.entries@.len(),
                forall|j: int| 0 <= j < i ==> (#[trigger] self.entries@[j]).0@ != key@,
            decreases self.entries@.len() - i,
        {
            if str_eq(self.entries[i].0.as_str(), key) {
                return Some(i);
            }
            i = i + 1;
        }
        None
    }

    /// Records (or replaces) the anchor for a key; entries for other keys
    /// are untouched.
    pub fn register(&mut self, key: &str, node: NodeId)
        requires
            old(self).wf(),
        ensures
            final(self).wf(),
            final(self).spec_anchor(key@) == Some(node),
            forall|k2: Seq<char>|
                k2 != key@ ==> final(self).spec_anchor(k2) == old(self).spec_anchor(k2),
    {
        let ghost pre = self.entries@;
        let found = self.index_of(key);
        match found {
            Some(i) => {
                self.entries.remove(i);
                proof {
                    pre.remove_ensures(i as int);
                }
            },
            None => {},
        }
        let ghost mid = self.entries@;
        self.entries.push((key.to_owned(), node));
        proof {
            let post = self.entries@;
            let n = post.len() - 1;
            // Every surviving entry came from `pre` and, with `pre`'s keys
            // unique, no survivor carries `key`.
            assert forall|j: int| 0 <= j < n implies (#[trigger] post[j]).0@ != key@
                && (exists|p: int| 0 <= p < pre.len() && pre[p] == post[j]) by {
                match found {
                    Some(i) => {
                        if j < i {
                            assert(post[j] == pre[j]);
                        } else {
                            assert(post[j] == pre[j + 1]);
                        }
                        assert(pre[i as int].0@ == key@);
                    },
                    None => {
                        assert(post[j] == pre[j]);
                    },
                }
            }
            assert(entry_keys_unique(post)) by {
                assert forall|a: int, b: int|
                    #![trigger post[a], post[b]]
                    0 <= a < b < post.len() implies post[a].0@ != post[b].0@ by {
                    if b == n {
                        assert(post[a].0@ != key@);
                        assert(post[b].0@ == key@);
                    } else {
                        match found {
                            Some(i) => {
                                let pa = if a < i { a } else { a + 1 };
                                let pb = if b < i { b } else { b + 1 };
                                assert(post[a] == pre[pa]);
                                assert(post[b] == pre[pb]);
                            },
                            None => {
                                assert(post[a] == pre[a]);
                                assert(post[b] == pre[b]);
                            },
                        }
                    }
                }
            }
            lemma_anchor_in_from_index(post, key@, n);
            assert forall|k2: Seq<char>| k2 != key@ implies anchor_in(post, k2) == anchor_in(
                pre,
                k2,
            ) by {
                lemma_anchor_in_characterize(pre, k2);
                match anchor_in(pre, k2) {
                    Some(h) => {
                        let p = choose|p: int|
                            0 <= p < pre.len() && (#[trigger] pre[p]).0@ == k2 && pre[p].1 == h;
                        match found {
                            Some(i) => {
                                let jq = if p < i { p } else { p - 1 };
                                assert(p != i);
                                assert(post[jq] == pre[p]);
                                lemma_anchor_in_from_index(post, k2, jq);
                            },
                            None => {
                                assert(post[p] == pre[p]);
                                lemma_anchor_in_from_index(post, k2, p);
                            },
                        }
                    },
                    None => {
                        assert forall|j: int| 0 <= j < post.len() implies (#[trigger] post[j]).0@
                            != k2 by {
                            if j < n {
                                let p = choose|p: int| 0 <= p < pre.len() && pre[p] == post[j];
                                assert(pre[p].0@ != k2);
                            }
                        }
                        lemma_anchor_in_absent(post, k2);
                    },
                }
            }
        }
    }

    /// Drops the anchor for a key, if one is registered; entries for other
    /// keys are untouched.
    pub fn unregister(&mut self, key: &str)
        requires
            old(self).wf(),
        ensures
            final(self).wf(),
            final(self).spec_anchor(key@) == None::<NodeId>,
            forall|k2: Seq<char>|
                k2 != key@ ==> final(self).spec_anchor(k2) == old(self).spec_anchor(k2),
    {
        let ghost pre = self.entries@;
        let found = self.index_of(key);
        match found {
            Some(i) => {
                self.entries.remove(i);
                proof {
                    pre.remove_ensures(i as int);
                    let post = self.entries@;
                    assert forall|j: int| 0 <= j < post.len() implies (#[trigger] post[j]).0@
                        != key@ && (exists|p: int| 0 <= p < pre.len() && pre[p] == post[j]) by {
                        if j < i {
                            assert(post[j] == pre[j]);
                        } else {
                            assert(post[j] == pre[j + 1]);
                        }
                        assert(pre[i as int].0@ == key@);
                    }
                    assert(entry_keys_unique(post)) by {
                        assert forall|a: int, b: int|
                            #![trigger post[a], post[b]]
                            0 <= a < b < post.len() implies post[a].0@ != post[b].0@ by {
                            let pa = if a < i { a } else { a + 1 };
                            let pb = if b < i { b } else { b + 1 };
                            assert(post[a] == pre[pa]);
                            assert(post[b] == pre[pb]);
                        }
                    }
                    lemma_anchor_in_absent(post, key@);
                    assert forall|k2: Seq<char>| k2 != key@ implies anchor_in(post, k2)
                        == anchor_in(pre, k2) by {
                        lemma_anchor_in_characterize(pre, k2);
                        match anchor_in(pre, k2) {
                            Some(h) => {
                                let p = choose|p: int|
                                    0 <= p < pre.len() && (#[trigger] pre[p]).0@ == k2 && pre[p].1
                                        == h;
                                let jq = if p < i { p } else { p - 1 };
                                assert(p != i);
                                assert(post[jq] == pre[p]);
                                lemma_anchor_in_from_index(post, k2, jq);
                            },
                            None => {
                                assert forall|j: int| 0 <= j < post.len() implies (
                                #[trigger] post[j]).0@ != k2 by {
                                    let p = choose|p: int| 0 <= p < pre.len() && pre[p] == post[j];
                                    assert(pre[p].0@ != k2);
                                }
                                lemma_anchor_in_absent(post, k2);
                            },
                        }
                    }
                }
            },
            None => {
                proof {
                    lemma_anchor_in_absent(pre, key@);
                }
            },
        }
    }

    /// The registered anchor for a key, or nothing.
    pub fn lookup(&self, key: &str) -> (r: Option<NodeId>)
        requires
            self.wf(),
        ensures
            r == self.spec_anchor(key@),
    {
        let found = self.index_of(key);
        match found {
            Some(i) => {
                proof {
                    lemma_anchor_in_from_index(self.entries@, key@, i as int);
                }
                Some(self.entries[i].1)
            },
            None => {
                proof {
                    lemma_anchor_in_absent(self.entries@, key@);
                }
                None
            },
        }
    }
}

} // verus!
