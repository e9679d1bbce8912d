//! Character-sequence orderings and searches used by the item stores: the
//! lexicographic order that keeps a store sorted, prefix matching for the
//! filter's first group, and substring search for its second group.

use vstd::prelude::*;
use vstd::string::StrSliceExecFns;

verus! {

/// Lexicographic "less than or equal" on character sequences, comparing
/// characters by Unicode code point. This is the order in which display
/// names are kept inside an item store.
pub open spec fn lex_le(a: Seq<char>, b: Seq<char>) -> bool
    decreases a.len(),
{
    if a.len() == 0 {
        true
    } else if b.len() == 0 {
        false
    } else if a[0] == b[0] {
        lex_le(a.skip(1), b.skip(1))
    } else {
        (a[0] as u32) < (b[0] as u32)
    }
}

/// Strict form of `lex_le`.
pub open spec fn lex_lt(a: Seq<char>, b: Seq<char>) -> bool {
    !lex_le(b, a)
}

pub proof fn lemma_lex_le_total(a: Seq<char>, b: Seq<char>)
    ensures
        lex_le(a, b) || lex_le(b, a),
    decreases a.len(),
{
    if a.len() > 0 && b.len() > 0 {
        if a[0] == b[0] {
            lemma_lex_le_total(a.skip(1), b.skip(1));
        } else {
            vstd::utf8::char_u32_cast(a[0], a[0] as u32);
            vstd::utf8::char_u32_cast(b[0], b[0] as u32);
        }
    }
}

pub proof fn lemma_lex_le_trans(a: Seq<char>, b: Seq<char>, c: Seq<char>)
    requires
        lex_le(a, b),
        lex_le(b, c),
    ensures
        lex_le(a, c),
    decreases a.len(),
{
    if a.len() > 0 {
        assert(b.len() > 0);
        assert(c.len() > 0);
        if a[0] == b[0] && b[0] == c[0] {
            lemma_lex_le_trans(a.skip(1), b.skip(1), c.skip(1));
        }
    }
}

/// Exact character-sequence equality, decided executably.
pub fn str_eq(a: &str, b: &str) -> (r: bool)
    ensures
        r == (a@ == b@),
{
    let la: usize = a.unicode_len();
    let lb: usize = b.unicode_len();
    if la != lb {
        return false;
    }
    let mut i: usize = 0;
    while i < la
        invariant
            i <= la,
            la == a@.len(),
            la == b@.len(),
            forall|j: int| 0 <= j < i ==> a@[j] == b@[j],
        decreases la - i,
    {
        if a.get_char(i) != b.get_char(i) {
            return false;
        }
        i = i + 1;
    }
    proof {
        assert(a@ =~= b@);
    }
    true
}

/// Decides `lex_le` on the views of two string slices.
pub fn str_le(a: &str, b: &str) -> (r: bool)
    ensures
        r == lex_le(a@, b@),
{
    let la: usize = a.unicode_len();
    let lb: usize = b.unicode_len();
    let mut i: usize = 0;
    proof {
        assert(a@.skip(0) =~= a@);
        assert(b@.skip(0) =~= b@);
    }
    loop
        invariant
            i <= la,
            i <= lb,
            la == a@.len(),
            lb == b@.len(),
            lex_le(a@, b@) == lex_le(a@.skip(i as int), b@.skip(i as int)),
        decreases la - i,
    {
        if i == la {
            proof {
                assert(a@.skip(i as int).len() == 0);
            }
            return true;
        }
        if i == lb {
            proof {
                assert(b@.skip(i as int).len() == 0);
                assert(a@.skip(i as int).len() > 0);
            }
            return false;
        }
        let ca = a.get_char(i);
        let cb = b.get_char(i);
        if ca != cb {
            proof {
                assert(a@.skip(i as int)[0] == a@[i as int]);
                assert(b@.skip(i as int)[0] == b@[i as int]);
            }
            return (ca as u32) < (cb as u32);
        }
        proof {
            assert(a@.skip(i as int)[0] == a@[i as int]);
            assert(b@.skip(i as int)[0] == b@[i as int]);
            assert(a@.skip(i as int).skip(1) =~= a@.skip(i as int + 1));
            assert(b@.skip(i as int).skip(1) =~= b@.skip(i as int + 1));
        }
        i = i + 1;
    }
}

/// `q` is a prefix of `name`.
pub open spec fn prefix_matches(name: Seq<char>, q: Seq<char>) -> bool {
    q.len() <= name.len() && name.subrange(0, q.len() as int) == q
}

/// Decides `prefix_matches` on the views of two string slices.
pub fn starts_with_query(name: &str, q: &str) -> (r: bool)
    ensures
        r == prefix_matches(name@, q@),
{
    let ln: usize = name.unicode_len();
    let lq: usize = q.unicode_len();
    if lq > ln {
        return false;
    }
    let mut i: usize = 0;
    while i < lq
        invariant
            i <= lq,
            lq <= ln,
            ln == name@.len(),
            lq == q@.len(),
            forall|j: int| 0 <= j < i ==> name@[j] == q@[j],
        decreases lq - i,
    {
        if name.get_char(i) != q.get_char(i) {
            proof {
                assert(name@.subrange(0, q@.len() as int)[i as int] == name@[i as int]);
            }
            return false;
        }
        i = i + 1;
    }
    proof {
        assert(name@.subrange(0, q@.len() as int) =~= q@);
    }
    true
}

/// `q` occurs in `hay` as a contiguous run starting at index `i`.
pub open spec fn occurs_at(hay: Seq<char>, q: Seq<char>, i: int) -> bool {
    0 <= i && i + q.len() <= hay.len() && hay.subrange(i, i + q.len() as int) == q
}

/// `q` occurs somewhere in `hay` as a contiguous run.
pub open spec fn contains_query(hay: Seq<char>, q: Seq<char>) -> bool {
    exists|i: int| occurs_at(hay, q, i)
}

/// Decides `contains_query` on the views of two string slices.
pub fn contains_sub(hay: &str, q: &str) -> (r: bool)
    ensures
        r == contains_query(hay@, q@),
{
    let lh: usize = hay.unicode_len();
    let lq: usize = q.unicode_len();
    if lq > lh {
        proof {
            assert(forall|i: int| !occurs_at(hay@, q@, i));
        }
        return false;
    }
    let bound: usize = lh - lq;
    let mut start: usize = 0;
    loop
        invariant
            bound == lh - lq,
            lq <= lh,
            lh == hay@.len(),
            lq == q@.len(),
            start <= bound,
            forall|k: int| 0 <= k < start ==> !occurs_at(hay@, q@, k),
        decreases bound - start,
    {
        let mut j: usize = 0;
        let mut mismatch = false;
        while j < lq
            invariant
                j <= lq,
                start <= bound,
                bound == lh - lq,
                lq <= lh,
                lh == hay@.len(),
                lq == q@.len(),
                !mismatch ==> forall|m: int| 0 <= m < j ==> hay@[start + m] == q@[m],
                mismatch ==> !occurs_at(hay@, q@, start as int),
            decreases lq - j,
        {
            if mismatch {
                j = lq;
            } else {
                if hay.get_char(start + j) != q.get_char(j) {
                    proof {
                        assert(hay@.subrange(start as int, start + q@.len() as int)[j as int]
                            == hay@[start + j]);
                    }
                    mismatch = true;
                }
                j = j + 1;
            }
        }
        if !mismatch {
            proof {
                assert(hay@.subrange(start as int, start + q@.len() as int) =~= q@);
                assert(occurs_at(hay@, q@, start as int));
            }
            return true;
        }
        if start == bound {
            proof {
                assert(forall|k: int| !occurs_at(hay@, q@, k));
            }
            return false;
        }
        start = start + 1;
    }
}

/// Group (b) of the filter: the display name with its first character
/// stripped contains the query. Names shorter than two characters never
/// match this group.
pub open spec fn tail_matches(name: Seq<char>, q: Seq<char>) -> bool {
    name.len() >= 2 && contains_query(name.skip(1), q)
}

/// Decides `tail_matches` on the views of two string slices.
pub fn tail_contains_query(name: &str, q: &str) -> (r: bool)
    ensures
        r == tail_matches(name@, q@),
{
    let ln: usize = name.unicode_len();
    if ln < 2 {
        return false;
    }
    let tail = name.substring_char(1, ln);
    proof {
        assert(tail@ =~= name@.skip(1));
    }
    contains_sub(tail, q)
}

} // verus!
