//! The ordered store one drop zone owns: sorted insertion, removal by key,
//! and the two-group filter projection.

use vstd::prelude::*;
use crate::item::{DraggableItem, has_key, sorted_by_name, unique_keys};
use crate::text::{
    lemma_lex_le_total, lemma_lex_le_trans, lex_le, lex_lt, prefix_matches, starts_with_query,
    str_eq, str_le, tail_contains_query, tail_matches,
};

verus! {

/// An item belongs to the filter's first group: its display name starts
/// with the query.
pub open spec fn matches_group_a(it: DraggableItem, q: Seq<char>) -> bool {
    prefix_matches(it.display_name@, q)
}

/// An item belongs to the filter's second group: it is not in the first
/// group, and its display name with the first character stripped contains
/// the query.
pub open spec fn matches_group_b(it: DraggableItem, q: Seq<char>) -> bool {
    !prefix_matches(it.display_name@, q) && tail_matches(it.display_name@, q)
}

/// The items of the first match group, in store order.
pub open spec fn group_a(items: Seq<DraggableItem>, q: Seq<char>) -> Seq<DraggableItem>
    decreases items.len(),
{
    if items.len() == 0 {
        Seq::empty()
    } else {
        let rest = group_a(items.drop_last(), q);
        if matches_group_a(items.last(), q) {
            rest.push(items.last())
        } else {
            rest
        }
    }
}

/// The items of the second match group, in store order.
pub open spec fn group_b(items: Seq<DraggableItem>, q: Seq<char>) -> Seq<DraggableItem>
    decreases items.len(),
{
    if items.len() == 0 {
        Seq::empty()
    } else {
        let rest = group_b(items.drop_last(), q);
        if matches_group_b(items.last(), q) {
            rest.push(items.last())
        } else {
            rest
        }
    }
}

/// What the filter returns: the first match group followed by the second.
pub open spec fn filter_spec(items: Seq<DraggableItem>, q: Seq<char>) -> Seq<DraggableItem> {
    group_a(items, q) + group_b(items, q)
}

proof fn lemma_group_a_push(s: Seq<DraggableItem>, q: Seq<char>, x: DraggableItem)
    ensures
        group_a(s.push(x), q) == if matches_group_a(x, q) {
            group_a(s, q).push(x)
        } else {
            group_a(s, q)
        },
{
    assert(s.push(x).drop_last() =~= s);
    assert(s.push(x).last() == x);
}

proof fn lemma_group_b_push(s: Seq<DraggableItem>, q: Seq<char>, x: DraggableItem)
    ensures
        group_b(s.push(x), q) == if matches_group_b(x, q) {
            group_b(s, q).push(x)
        } else {
            group_b(s, q)
        },
{
    assert(s.push(x).drop_last() =~= s);
    assert(s.push(x).last() == x);
}

/// Returns, in original relative order, the items whose display name starts
/// with the query, followed by the items that instead contain the query in
/// their display name with its first character stripped.
pub fn filter_list(list: &Vec<DraggableItem>, search: &str) -> (out: Vec<DraggableItem>)
    ensures
        out@ == filter_spec(list@, search@),
{
    let mut out: Vec<DraggableItem> = Vec::new();
    let mut i: usize = 0;
    proof {
        assert(list@.take(0) =~= Seq::<DraggableItem>::empty());
        assert(out@ =~= group_a(list@.take(0), search@));
    }
    while i < list.len()
        invariant
            i <= list@.len(),
            out@ == group_a(list@.take(i as int), search@),
        decreases list@.len() - i,
    {
        let it = &list[i];
        proof {
            assert(list@.take(i + 1) =~= list@.take(i as int).push(list@[i as int]));
            lemma_group_a_push(list@.take(i as int), search@, list@[i as int]);
        }
        if starts_with_query(it.display_name.as_str(), search) {
            out.push(it.clone());
        }
        i = i + 1;
    }
    proof {
        assert(list@.take(list@.len() as int) =~= list@);
    }
    let mut j: usize = 0;
    proof {
        assert(list@.take(0) =~= Seq::<DraggableItem>::empty());
        assert(out@ =~= group_a(list@, search@) + group_b(list@.take(0), search@));
    }
    while j < list.len()
        invariant
            j <= list@.len(),
            out@ == group_a(list@, search@) + group_b(list@.take(j as int), search@),
        decreases list@.len() - j,
    {
        let it = &list[j];
        proof {
            assert(list@.take(j + 1) =~= list@.take(j as int).push(list@[j as int]));
            lemma_group_b_push(list@.take(j as int), search@, list@[j as int]);
        }
        let in_a = starts_with_query(it.display_name.as_str(), search);
        let in_tail = tail_contains_query(it.display_name.as_str(), search);
        if !in_a && in_tail {
            out.push(it.clone());
        }
        j = j + 1;
    }
    proof {
        assert(list@.take(list@.len() as int) =~= list@);
    }
    out
}

/// `a` is a subsequence of `b`: `a` can be read off `b` left to right,
/// skipping entries but never reordering.
pub open spec fn is_subseq_of(a: Seq<DraggableItem>, b: Seq<DraggableItem>) -> bool
    decreases b.len(),
{
    if a.len() == 0 {
        true
    } else if b.len() == 0 {
        false
    } else {
        (a.last() == b.last() && is_subseq_of(a.drop_last(), b.drop_last())) || is_subseq_of(
            a,
            b.drop_last(),
        )
    }
}

proof fn lemma_group_a_sound(items: Seq<DraggableItem>, q: Seq<char>)
    ensures
        is_subseq_of(group_a(items, q), items),
        forall|k: int|
            0 <= k < group_a(items, q).len() ==> matches_group_a(
                #[trigger] group_a(items, q)[k],
                q,
            ),
    decreases items.len(),
{
    if items.len() > 0 {
        let dl = items.drop_last();
        lemma_group_a_sound(dl, q);
        assert(dl.push(items.last()) =~= items);
        let ga = group_a(items, q);
        let gad = group_a(dl, q);
        if matches_group_a(items.last(), q) {
            assert(ga == gad.push(items.last()));
            assert(ga.drop_last() =~= gad);
            assert forall|k: int| 0 <= k < ga.len() implies matches_group_a(
                #[trigger] ga[k],
                q,
            ) by {
                if k < ga.len() - 1 {
                    assert(ga[k] == gad[k]);
                }
            }
        } else {
            assert forall|k: int| 0 <= k < ga.len() implies matches_group_a(
                #[trigger] ga[k],
                q,
            ) by {
                assert(ga[k] == gad[k]);
            }
        }
    }
}

proof fn lemma_group_b_sound(items: Seq<DraggableItem>, q: Seq<char>)
    ensures
        is_subseq_of(group_b(items, q), items),
        forall|k: int|
            0 <= k < group_b(items, q).len() ==> matches_group_b(
                #[trigger] group_b(items, q)[k],
                q,
            ),
    decreases items.len(),
{
    if items.len() > 0 {
        let dl = items.drop_last();
        lemma_group_b_sound(dl, q);
        assert(dl.push(items.last()) =~= items);
        let gb = group_b(items, q);
        let gbd = group_b(dl, q);
        if matches_group_b(items.last(), q) {
            assert(gb == gbd.push(items.last()));
            assert(gb.drop_last() =~= gbd);
            assert forall|k: int| 0 <= k < gb.len() implies matches_group_b(
                #[trigger] gb[k],
                q,
            ) by {
                if k < gb.len() - 1 {
                    assert(gb[k] == gbd[k]);
                }
            }
        } else {
            assert forall|k: int| 0 <= k < gb.len() implies matches_group_b(
                #[trigger] gb[k],
                q,
            ) by {
                assert(gb[k] == gbd[k]);
            }
        }
    }
}

proof fn lemma_subseq_element_of(a: Seq<DraggableItem>, b: Seq<DraggableItem>)
    requires
        is_subseq_of(a, b),
    ensures
        forall|i: int|
            0 <= i < a.len() ==> exists|j: int| 0 <= j < b.len() && b[j] == #[trigger] a[i],
    decreases b.len(),
{
    if a.len() > 0 && b.len() > 0 {
        if a.last() == b.last() && is_subseq_of(a.drop_last(), b.drop_last()) {
            lemma_subseq_element_of(a.drop_last(), b.drop_last());
            assert forall|i: int| 0 <= i < a.len() implies exists|j: int|
                0 <= j < b.len() && b[j] == #[trigger] a[i] by {
                if i < a.len() - 1 {
                    assert(a.drop_last()[i] == a[i]);
                    let j = choose|j: int|
                        0 <= j < b.drop_last().len() && b.drop_last()[j] == a.drop_last()[i];
                    assert(b[j] == a[i]);
                } else {
                    assert(b[b.len() - 1] == a[i]);
                }
            }
        } else {
            lemma_subseq_element_of(a, b.drop_last());
            assert forall|i: int| 0 <= i < a.len() implies exists|j: int|
                0 <= j < b.len() && b[j] == #[trigger] a[i] by {
                let j = choose|j: int| 0 <= j < b.drop_last().len() && b.drop_last()[j] == a[i];
                assert(b[j] == a[i]);
            }
        }
    }
}

proof fn lemma_subseq_unique_keys(a: Seq<DraggableItem>, b: Seq<DraggableItem>)
    requires
        is_subseq_of(a, b),
        unique_keys(b),
    ensures
        unique_keys(a),
    decreases b.len(),
{
    if a.len() > 0 && b.len() > 0 {
        let bd = b.drop_last();
        assert(unique_keys(bd)) by {
            assert forall|i: int, j: int|
                #![trigger bd[i], bd[j]]
                0 <= i < j < bd.len() implies bd[i].key@ != bd[j].key@ by {
                assert(bd[i] == b[i]);
                assert(bd[j] == b[j]);
            }
        }
        if a.last() == b.last() && is_subseq_of(a.drop_last(), b.drop_last()) {
            lemma_subseq_unique_keys(a.drop_last(), b.drop_last());
            lemma_subseq_element_of(a.drop_last(), b.drop_last());
            assert forall|i: int, j: int|
                #![trigger a[i], a[j]]
                0 <= i < j < a.len() implies a[i].key@ != a[j].key@ by {
                if j < a.len() - 1 {
                    assert(a.drop_last()[i] == a[i]);
                    assert(a.drop_last()[j] == a[j]);
                } else {
                    assert(a.drop_last()[i] == a[i]);
                    let p = choose|p: int|
                        0 <= p < b.drop_last().len() && b.drop_last()[p] == a.drop_last()[i];
                    assert(b[p] == a[i]);
                    assert(b[p].key@ != b[b.len() - 1].key@);
                    assert(b[b.len() - 1] == a[j]);
                }
            }
        } else {
            lemma_subseq_unique_keys(a, b.drop_last());
        }
    }
}

/// The filter projection contains no duplicates, each of its two match
/// groups is an order-preserving subsequence of the store, and every
/// element belongs to group (a) or group (b).
pub proof fn lemma_filter_properties(items: Seq<DraggableItem>, q: Seq<char>)
    requires
        unique_keys(items),
    ensures
        filter_spec(items, q).no_duplicates(),
        is_subseq_of(group_a(items, q), items),
        is_subseq_of(group_b(items, q), items),
        forall|k: int|
            0 <= k < filter_spec(items, q).len() ==> matches_group_a(
                #[trigger] filter_spec(items, q)[k],
                q,
            ) || matches_group_b(filter_spec(items, q)[k], q),
{
    lemma_group_a_sound(items, q);
    lemma_group_b_sound(items, q);
    lemma_subseq_unique_keys(group_a(items, q), items);
    lemma_subseq_unique_keys(group_b(items, q), items);
    let ga = group_a(items, q);
    let gb = group_b(items, q);
    let f = filter_spec(items, q);
    assert forall|k: int| 0 <= k < f.len() implies matches_group_a(#[trigger] f[k], q)
        || matches_group_b(f[k], q) by {
        if k < ga.len() {
            assert(f[k] == ga[k]);
        } else {
            assert(f[k] == gb[k - ga.len()]);
        }
    }
    assert forall|i: int, j: int|
        #![trigger f[i], f[j]]
        0 <= i < f.len() && 0 <= j < f.len() && i != j implies f[i] != f[j] by {
        let x = if i < ga.len() {
            ga[i]
        } else {
            gb[i - ga.len()]
        };
        let y = if j < ga.len() {
            ga[j]
        } else {
            gb[j - ga.len()]
        };
        assert(f[i] == x);
        assert(f[j] == y);
        if i < ga.len() && j < ga.len() {
            if i < j {
                assert(ga[i].key@ != ga[j].key@);
            } else {
                assert(ga[j].key@ != ga[i].key@);
            }
        } else if i >= ga.len() && j >= ga.len() {
            if i < j {
                assert(gb[i - ga.len()].key@ != gb[j - ga.len()].key@);
            } else {
                assert(gb[j - ga.len()].key@ != gb[i - ga.len()].key@);
            }
        } else {
            if i < ga.len() {
                assert(matches_group_a(x, q));
                assert(matches_group_b(y, q));
            } else {
                assert(matches_group_b(x, q));
                assert(matches_group_a(y, q));
            }
        }
    }
}

/// Inserting at an index that sits after every name less than or equal to
/// the new item's and before every name greater than it keeps a store
/// sorted, and a fresh key keeps its keys unique.
pub proof fn lemma_sorted_insert(pre: Seq<DraggableItem>, item: DraggableItem, idx: int)
    requires
        sorted_by_name(pre),
        unique_keys(pre),
        !has_key(pre, item.key@),
        0 <= idx <= pre.len(),
        forall|k: int|
            0 <= k < idx ==> lex_le((#[trigger] pre[k]).display_name@, item.display_name@),
        forall|k: int|
            idx <= k < pre.len() ==> lex_lt(item.display_name@, (#[trigger] pre[k]).display_name@),
    ensures
        sorted_by_name(pre.insert(idx, item)),
        unique_keys(pre.insert(idx, item)),
{
    pre.insert_ensures(idx, item);
    let post = pre.insert(idx, item);
    assert forall|i: int, j: int|
        #![trigger post[i], post[j]]
        0 <= i < j < post.len() implies lex_le(post[i].display_name@, post[j].display_name@)
        && post[i].key@ != post[j].key@ by {
        let a = if i < idx {
            pre[i]
        } else if i == idx {
            item
        } else {
            pre[i - 1]
        };
        let b = if j < idx {
            pre[j]
        } else if j == idx {
            item
        } else {
            pre[j - 1]
        };
        assert(post[i] == a);
        assert(post[j] == b);
        if i == idx {
            assert(lex_lt(item.display_name@, pre[j - 1].display_name@));
            lemma_lex_le_total(item.display_name@, pre[j - 1].display_name@);
        } else if j == idx {
            assert(lex_le(pre[i].display_name@, item.display_name@));
        } else if i < idx && j > idx {
            assert(lex_le(pre[i].display_name@, pre[j - 1].display_name@));
        }
        if a.key@ == b.key@ {
            if i == idx {
                assert(has_key(pre, item.key@));
            } else if j == idx {
                assert(has_key(pre, item.key@));
            }
        }
    }
}

/// Removing an entry keeps a store sorted and its keys unique, and — keys
/// being unique — leaves no entry carrying the removed entry's key.
pub proof fn lemma_remove_clears_key(pre: Seq<DraggableItem>, i: int)
    requires
        sorted_by_name(pre),
        unique_keys(pre),
        0 <= i < pre.len(),
    ensures
        sorted_by_name(pre.remove(i)),
        unique_keys(pre.remove(i)),
        !has_key(pre.remove(i), pre[i].key@),
{
    pre.remove_ensures(i);
    let post = pre.remove(i);
    assert forall|a: int, b: int|
        #![trigger post[a], post[b]]
        0 <= a < b < post.len() implies lex_le(post[a].display_name@, post[b].display_name@)
        && post[a].key@ != post[b].key@ by {
        let x = if a < i {
            pre[a]
        } else {
            pre[a + 1]
        };
        let y = if b < i {
            pre[b]
        } else {
            pre[b + 1]
        };
        assert(post[a] == x);
        assert(post[b] == y);
    }
    assert forall|k: int| 0 <= k < post.len() implies (#[trigger] post[k]).key@ != pre[i].key@ by {
        if k < i {
            assert(post[k] == pre[k]);
        } else {
            assert(post[k] == pre[k + 1]);
        }
    }
}

/// `post` arises from `pre` by one sorted insertion of `item`, whose key
/// `pre` did not hold.
pub open spec fn inserted_at(
    pre: Seq<DraggableItem>,
    post: Seq<DraggableItem>,
    item: DraggableItem,
) -> bool {
    &&& !has_key(pre, item.key@)
    &&& exists|idx: int|
        0 <= idx <= pre.len() && post == pre.insert(idx, item) && (forall|k: int|
            0 <= k < idx ==> lex_le((#[trigger] pre[k]).display_name@, item.display_name@))
            && (forall|k: int|
            idx <= k < pre.len() ==> lex_lt(item.display_name@, (#[trigger] pre[k]).display_name@))
}

/// Across any sequence of sorted insertions — consecutive store contents
/// each related by `inserted_at` — a store that began sorted with unique
/// keys remains sorted ascending by display name, with unique keys.
pub proof fn lemma_insert_chain_sorted(states: Seq<Seq<DraggableItem>>, items: Seq<DraggableItem>)
    requires
        states.len() >= 1,
        items.len() == states.len() - 1,
        sorted_by_name(states[0]),
        unique_keys(states[0]),
        forall|i: int|
            0 <= i < items.len() ==> inserted_at(#[trigger] states[i], states[i + 1], items[i]),
    ensures
        forall|i: int|
            0 <= i < states.len() ==> sorted_by_name(#[trigger] states[i]) && unique_keys(
                states[i],
            ),
    decreases states.len(),
{
    if states.len() > 1 {
        assert(inserted_at(states[0], states[1], items[0]));
        assert(sorted_by_name(states[1]) && unique_keys(states[1])) by {
            let pre = states[0];
            let post = states[1];
            let item = items[0];
            let idx = choose|idx: int|
                0 <= idx <= pre.len() && post == pre.insert(idx, item) && (forall|k: int|
                    0 <= k < idx ==> lex_le((#[trigger] pre[k]).display_name@, item.display_name@))
                    && (forall|k: int|
                    idx <= k < pre.len() ==> lex_lt(
                        item.display_name@,
                        (#[trigger] pre[k]).display_name@,
                    ));
            lemma_sorted_insert(pre, item, idx);
        }
        let st = states.drop_first();
        let it = items.drop_first();
        assert forall|i: int| 0 <= i < it.len() implies inserted_at(
            #[trigger] st[i],
            st[i + 1],
            it[i],
        ) by {
            assert(st[i] == states[i + 1]);
            assert(st[i + 1] == states[i + 2]);
            assert(it[i] == items[i + 1]);
            assert(inserted_at(states[i + 1], states[i + 2], items[i + 1]));
        }
        lemma_insert_chain_sorted(st, it);
        assert forall|i: int| 0 <= i < states.len() implies sorted_by_name(#[trigger] states[i])
            && unique_keys(states[i]) by {
            if i >= 1 {
                assert(st[i - 1] == states[i]);
                assert(sorted_by_name(st[i - 1]) && unique_keys(st[i - 1]));
            }
        }
    }
}

/// The error an `ItemStore` mutation can report.
#[derive(Clone, Copy, Debug, PartialEq, Eq, Structural)]
pub enum StoreError {
    /// The inserted item's key is already present in the store.
    DuplicateKey,
}

/// An ordered collection of items for one zone, kept sorted ascending by
/// display name, with no two entries sharing a key.
pub struct ItemStore {
    items: Vec<DraggableItem>,
}

impl View for ItemStore {
    type V = Seq<DraggableItem>;

    closed spec fn view(&self) -> Seq<DraggableItem> {
        self.items@
    }
}

impl ItemStore {
    /// The store's invariant: sorted ascending by display name, keys unique.
    pub open spec fn wf(&self) -> bool {
        sorted_by_name(self@) && unique_keys(self@)
    }

    pub fn new() -> (s: Self)
        ensures
            s@ == Seq::<DraggableItem>::empty(),
            s.wf(),
    {
        let s = ItemStore { items: Vec::new() };
        proof {
            assert(s@ =~= Seq::<DraggableItem>::empty());
        }
        s
    }

    pub fn len(&self) -> (n: usize)
        ensures
            n == self@.len(),
    {
        self.items.len()
    }

    /// Read-only access to the ordered items, for rendering.
    pub fn items(&self) -> (r: &Vec<DraggableItem>)
        ensures
            r@ == self@,
    {
        &self.items
    }

    pub fn get(&self, i: usize) -> (r: &DraggableItem)
        requires
            i < self@.len(),
        ensures
            *r == self@[i as int],
    {
        &self.items[i]
    }

    /// Whether some item of the store carries the key.
    pub fn contains(&self, key: &str) -> (r: bool)
        ensures
            r == has_key(self@, key@),
    {
        let mut i: usize = 0;
        while i < self.items.len()
            invariant
                i <= self@.len(),
                forall|j: int| 0 <= j < i ==> self@[j].key@ != key@,
            decreases self@.len() - i,
        {
            if str_eq(self.items[i].key.as_str(), key) {
                return true;
            }
            i = i + 1;
        }
        false
    }

    /// The index at which a name must be inserted to keep the store sorted:
    /// after every entry whose name is less than or equal to it.
    fn upper_bound(items: &Vec<DraggableItem>, name: &str) -> (idx: usize)
        requires
            sorted_by_name(items@),
        ensures
            idx <= items@.len(),
            forall|k: int| 0 <= k < idx ==> lex_le(#[trigger] items@[k].display_name@, name@),
            forall|k: int| idx <= k < items@.len() ==> !lex_le(#[trigger] items@[k].display_name@, name@),
    {
        let mut lo: usize = 0;
        let mut hi: usize = items.len();
        while lo < hi
            invariant
                lo <= hi <= items@.len(),
                sorted_by_name(items@),
                forall|k: int| 0 <= k < lo ==> lex_le(#[trigger] items@[k].display_name@, name@),
                forall|k: int| hi <= k < items@.len() ==> !lex_le(#[trigger] items@[k].display_name@, name@),
            decreases hi - lo,
        {
            let mid = lo + (hi - lo) / 2;
            if str_le(items[mid].display_name.as_str(), name) {
                proof {
                    assert forall|k: int| 0 <= k < mid + 1 implies lex_le(
                        #[trigger] items@[k].display_name@,
                        name@,
                    ) by {
                        if k < mid {
                            assert(lex_le(items@[k].display_name@, items@[mid as int].display_name@));
                            lemma_lex_le_trans(
                                items@[k].display_name@,
                                items@[mid as int].display_name@,
                                name@,
                            );
                        }
                    }
                }
                lo = mid + 1;
            } else {
                proof {
                    assert forall|k: int| mid <= k < items@.len() implies !lex_le(
                        #[trigger] items@[k].display_name@,
                        name@,
                    ) by {
                        if k > mid && lex_le(items@[k].display_name@, name@) {
                            assert(lex_le(items@[mid as int].display_name@, items@[k].display_name@));
                            lemma_lex_le_trans(
                                items@[mid as int].display_name@,
                                items@[k].display_name@,
                                name@,
                            );
                        }
                    }
                }
                hi = mid;
            }
        }
        lo
    }

    /// Sorted insertion. The item goes after every entry whose display name
    /// is less than or equal to its own — insertion among equal names is
    /// stable with respect to encounter order — and a key already present
    /// is rejected unchanged.
    pub fn insert(&mut self, item: DraggableItem) -> (r: Result<usize, StoreError>)
        requires
            old(self).wf(),
        ensures
            final(self).wf(),
            match r {
                Ok(idx) => {
                    &&& !has_key(old(self)@, item.key@)
                    &&& idx <= old(self)@.len()
                    &&& final(self)@ == old(self)@.insert(idx as int, item)
                    &&& forall|k: int| 0 <= k < idx ==> lex_le(#[trigger] old(self)@[k].display_name@, item.display_name@)
                    &&& forall|k: int| idx <= k < old(self)@.len() ==> lex_lt(item.display_name@, #[trigger] old(self)@[k].display_name@)
                    &&& has_key(final(self)@, item.key@)
                    &&& final(self)@.len() == old(self)@.len() + 1
                    &&& inserted_at(old(self)@, final(self)@, item)
                },
                Err(e) => {
                    &&& e == StoreError::DuplicateKey
                    &&& has_key(old(self)@, item.key@)
                    &&& *final(self) == *old(self)
                },
            },
    {
        if self.contains(item.key.as_str()) {
            return Err(StoreError::DuplicateKey);
        }
        let idx = Self::upper_bound(&self.items, item.display_name.as_str());
        let ghost pre = self.items@;
        self.items.insert(idx, item);
        proof {
            lemma_sorted_insert(pre, item, idx as int);
            pre.insert_ensures(idx as int, item);
            assert(has_key(self@, item.key@)) by {
                assert(self@[idx as int] == item);
            }
        }
        Ok(idx)
    }

    /// The index of the first item carrying the key, if any.
    fn index_of_key(&self, key: &str) -> (r: Option<usize>)
        ensures
            match r {
                Some(i) => i < self@.len() && self@[i as int].key@ == key@,
                None => forall|j: int| 0 <= j < self@.len() ==> (#[trigger] self@[j]).key@ != key@,
            },
    {
        let mut i: usize = 0;
        while i < self.items.len()
            invariant
                i <= self@.len(),
                forall|j: int| 0 <= j < i ==> (#[trigger] self@[j]).key@ != key@,
            decreases self@.len() - i,
        {
            if str_eq(self.items[i].key.as_str(), key) {
                return Some(i);
            }
            i = i + 1;
        }
        None
    }

    /// A copy of the first item carrying the key, if any.
    pub fn get_by_key(&self, key: &str) -> (r: Option<DraggableItem>)
        ensures
            match r {
                Some(it) => it.key@ == key@ && exists|i: int|
                    0 <= i < self@.len() && self@[i] == it,
                None => !has_key(self@, key@),
            },
    {
        let found = self.index_of_key(key);
        match found {
            Some(i) => {
                let it = self.items[i].clone();
                proof {
                    assert(self@[i as int] == it);
                }
                Some(it)
            },
            None => None,
        }
    }

    /// Removes the first (with unique keys: the only) item carrying the key;
    /// removing an absent key leaves the store unchanged.
    pub fn remove(&mut self, key: &str) -> (r: bool)
        requires
            old(self).wf(),
        ensures
            final(self).wf(),
            r == has_key(old(self)@, key@),
            !r ==> *final(self) == *old(self),
            r ==> exists|i: int|
                0 <= i < old(self)@.len() && old(self)@[i].key@ == key@ && final(self)@
                    == old(self)@.remove(i),
            !has_key(final(self)@, key@),
    {
        let found = self.index_of_key(key);
        match found {
            None => false,
            Some(i) => {
                let ghost pre = self.items@;
                self.items.remove(i);
                proof {
                    lemma_remove_clears_key(pre, i as int);
                }
                true
            },
        }
    }

    /// The filter projection of this store; never mutates the store.
    pub fn filter(&self, search: &str) -> (out: Vec<DraggableItem>)
        ensures
            out@ == filter_spec(self@, search@),
    {
        filter_list(&self.items, search)
    }
}

} // verus!

