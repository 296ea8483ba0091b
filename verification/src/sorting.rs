//! Stable orderings and page windows of listings.
//!
//! A listing is ordered by an integer key, greatest first; records with equal
//! keys keep the order in which they were found. The order is described by
//! the positions of the records it lists.
use vstd::prelude::*;

verus! {

/// Position `a` comes before position `b`: a greater key, or an equal key and an earlier position.
pub open spec fn precedes(keys: Seq<i128>, a: int, b: int) -> bool {
    keys[a] > keys[b] || (keys[a] == keys[b] && a < b)
}

/// `order` lists every position of `keys` once, greatest key first, equal keys in their original order.
pub open spec fn is_desc_order(order: Seq<usize>, keys: Seq<i128>) -> bool {
    &&& order.len() == keys.len()
    &&& forall|j: int| 0 <= j < order.len() ==> #[trigger] order[j] < keys.len()
    &&& forall|j: int, k: int|
        0 <= j < k < order.len() ==> precedes(keys, #[trigger] order[j] as int, #[trigger] order[k] as int)
}

/// The records of `s` in the order `order`.
pub open spec fn arrange<T>(s: Seq<T>, order: Seq<usize>) -> Seq<T> {
    order.map_values(|i: usize| s[i as int])
}

/// The positions of `keys`, greatest key first; equal keys keep their order (a stable sort).
pub fn desc_order(keys: &Vec<i128>) -> (order: Vec<usize>)
    ensures
        is_desc_order(order@, keys@),
{
    let mut order: Vec<usize> = Vec::new();
    let mut i: usize = 0;
    while i < keys.len()
        invariant
            0 <= i <= keys.len(),
            order.len() == i,
            forall|j: int| 0 <= j < order.len() ==> #[trigger] order@[j] < i,
            forall|j: int, k: int|
                0 <= j < k < order.len() ==> precedes(keys@, #[trigger] order@[j] as int, #[trigger] order@[k] as int),
        decreases keys.len() - i,
    {
        let ki = keys[i];
        let mut pos: usize = 0;
        while pos < order.len() && keys[order[pos]] >= ki
            invariant
                0 <= pos <= order.len(),
                order.len() == i,
                i < keys.len(),
                ki == keys@[i as int],
                forall|j: int| 0 <= j < order.len() ==> #[trigger] order@[j] < i,
                forall|j: int| 0 <= j < pos ==> keys@[#[trigger] order@[j] as int] >= ki,
                forall|j: int, k: int|
                    0 <= j < k < order.len() ==> precedes(keys@, #[trigger] order@[j] as int, #[trigger] order@[k] as int),
            decreases order.len() - pos,
        {
            pos += 1;
        }
        proof {
            // every later position holds a smaller key than `ki`
            assert forall|j: int| pos <= j < order.len() implies keys@[#[trigger] order@[j] as int] < ki by {
                if j > pos {
                    assert(precedes(keys@, order@[pos as int] as int, order@[j] as int));
                }
            }
        }
        let ghost before = order@;
        order.insert(pos, i);
        proof {
            assert forall|j: int| 0 <= j < order.len() implies #[trigger] order@[j] < i + 1 by {
                if j < pos {
                    assert(order@[j] == before[j]);
                } else if j > pos {
                    assert(order@[j] == before[j - 1]);
                }
            }
            assert forall|j: int, k: int|
                0 <= j < k < order.len() implies precedes(keys@, #[trigger] order@[j] as int, #[trigger] order@[k] as int) by {
                if j < pos && k < pos {
                    assert(order@[j] == before[j] && order@[k] == before[k]);
                } else if j < pos && k == pos {
                    assert(order@[j] == before[j]);
                    assert(keys@[before[j] as int] >= ki);
                } else if j < pos && k > pos {
                    assert(order@[j] == before[j] && order@[k] == before[k - 1]);
                } else if j == pos {
                    assert(order@[k] == before[k - 1]);
                    assert(keys@[before[k - 1] as int] < ki);
                } else {
                    assert(order@[j] == before[j - 1] && order@[k] == before[k - 1]);
                }
            }
        }
        i += 1;
    }
    order
}

/// The page `page` (counted from one) of `size` records, as `skip((page - 1) * size).take(size)` gives it.
pub open spec fn page_window<T>(s: Seq<T>, page: u64, size: u64) -> Seq<T> {
    let start = (page - 1) * size;
    let lo = if start < s.len() { start } else { s.len() as int };
    let hi = if start + size < s.len() { start + size } else { s.len() as int };
    s.subrange(lo, hi)
}

/// The page numbering of a query does not overflow, as the listings compute it.
pub open spec fn page_in_range(page: u64, size: u64) -> bool {
    1 <= page && (page - 1) * size <= u64::MAX
}

/// The first and one-past-last positions of a page of a listing of `len` records.
pub fn page_bounds(len: usize, page: u64, size: u64) -> (r: (usize, usize))
    requires
        page_in_range(page, size),
    ensures
        ({
            let start = (page - 1) * size;
            &&& r.0 == (if start < len { start } else { len as int })
            &&& r.1 == (if start + size < len { start + size } else { len as int })
        }),
{
    let start: u64 = (page - 1) * size;
    if start >= len as u64 {
        return (len, len);
    }
    let lo = start as usize;
    let rest: u64 = (len - lo) as u64;
    if size < rest {
        (lo, lo + size as usize)
    } else {
        (lo, len)
    }
}

/// `a` comes before `b` in the lexicographic order of their characters (a
/// proper prefix comes first). This is also the order of their UTF-8 bytes.
pub open spec fn text_lt(a: Seq<char>, b: Seq<char>) -> bool
    decreases a.len(),
{
    if b.len() == 0 {
        false
    } else if a.len() == 0 {
        true
    } else if a[0] != b[0] {
        a[0] < b[0]
    } else {
        text_lt(a.drop_first(), b.drop_first())
    }
}

/// The lexicographic order is transitive.
pub proof fn lemma_text_lt_transitive(a: Seq<char>, b: Seq<char>, c: Seq<char>)
    requires
        text_lt(a, b),
        text_lt(b, c),
    ensures
        text_lt(a, c),
    decreases a.len(),
{
    if a.len() > 0 && b.len() > 0 && c.len() > 0 {
        if a[0] == b[0] && b[0] == c[0] {
            lemma_text_lt_transitive(a.drop_first(), b.drop_first(), c.drop_first());
        }
    }
}

/// Of two different texts, one comes before the other.
pub proof fn lemma_text_lt_total(a: Seq<char>, b: Seq<char>)
    ensures
        a == b || text_lt(a, b) || text_lt(b, a),
    decreases a.len(),
{
    if a.len() > 0 && b.len() > 0 {
        if a[0] == b[0] {
            lemma_text_lt_total(a.drop_first(), b.drop_first());
            if a.drop_first() == b.drop_first() {
                assert(a =~= seq![a[0]] + a.drop_first());
                assert(b =~= seq![b[0]] + b.drop_first());
            }
        }
    } else if a.len() == 0 && b.len() == 0 {
        assert(a =~= b);
    }
}

/// Whether `a` comes before `b` (see `text_lt`).
pub fn text_less(a: &Vec<char>, b: &Vec<char>) -> (r: bool)
    ensures
        r == text_lt(a@, b@),
{
    let mut i: usize = 0;
    assert(a@.skip(0) =~= a@ && b@.skip(0) =~= b@);
    while i < a.len() && i < b.len() && a[i] == b[i]
        invariant
            0 <= i <= a@.len(),
            i <= b@.len(),
            a@.take(i as int) == b@.take(i as int),
            text_lt(a@, b@) == text_lt(a@.skip(i as int), b@.skip(i as int)),
        decreases a@.len() - i,
    {
        assert(a@.skip(i as int).drop_first() =~= a@.skip(i + 1));
        assert(b@.skip(i as int).drop_first() =~= b@.skip(i + 1));
        assert(a@.take(i + 1) =~= a@.take(i as int).push(a@[i as int]));
        assert(b@.take(i + 1) =~= b@.take(i as int).push(b@[i as int]));
        i += 1;
    }
    if i == b.len() {
        return false;
    }
    if i == a.len() {
        return true;
    }
    assert(a@.skip(i as int)[0] == a@[i as int]);
    assert(b@.skip(i as int)[0] == b@[i as int]);
    a[i] < b[i]
}

/// Position `a` comes before position `b`: a smaller key, or an equal key and an earlier position.
pub open spec fn text_precedes(keys: Seq<Seq<char>>, a: int, b: int) -> bool {
    text_lt(keys[a], keys[b]) || (keys[a] == keys[b] && a < b)
}

/// `order` lists every position of `keys` once, smallest key first, equal keys in their original order.
pub open spec fn is_text_order(order: Seq<usize>, keys: Seq<Seq<char>>) -> bool {
    &&& order.len() == keys.len()
    &&& forall|j: int| 0 <= j < order.len() ==> #[trigger] order[j] < keys.len()
    &&& forall|j: int, k: int|
        0 <= j < k < order.len() ==> text_precedes(keys, #[trigger] order[j] as int, #[trigger] order[k] as int)
}

/// The positions of `keys`, smallest key first; equal keys keep their order (a stable sort).
pub fn text_order(keys: &Vec<Vec<char>>) -> (order: Vec<usize>)
    ensures
        is_text_order(order@, keys@.map_values(|k: Vec<char>| k@)),
{
    let ghost ks = keys@.map_values(|k: Vec<char>| k@);
    let mut order: Vec<usize> = Vec::new();
    let mut i: usize = 0;
    while i < keys.len()
        invariant
            ks == keys@.map_values(|k: Vec<char>| k@),
            0 <= i <= keys.len(),
            order.len() == i,
            forall|j: int| 0 <= j < order.len() ==> #[trigger] order@[j] < i,
            forall|j: int, k: int|
                0 <= j < k < order.len() ==> text_precedes(ks, #[trigger] order@[j] as int, #[trigger] order@[k] as int),
        decreases keys.len() - i,
    {
        let mut pos: usize = 0;
        while pos < order.len() && !text_less(&keys[i], &keys[order[pos]])
            invariant
                ks == keys@.map_values(|k: Vec<char>| k@),
                0 <= pos <= order.len(),
                order.len() == i,
                i < keys.len(),
                forall|j: int| 0 <= j < order.len() ==> #[trigger] order@[j] < i,
                forall|j: int| 0 <= j < pos ==> !text_lt(ks[i as int], ks[#[trigger] order@[j] as int]),
                forall|j: int, k: int|
                    0 <= j < k < order.len() ==> text_precedes(ks, #[trigger] order@[j] as int, #[trigger] order@[k] as int),
            decreases order.len() - pos,
        {
            pos += 1;
        }
        proof {
            // every later position holds a greater key than the new one
            assert forall|j: int| pos <= j < order.len() implies text_lt(ks[i as int], ks[#[trigger] order@[j] as int]) by {
                if j > pos {
                    assert(text_precedes(ks, order@[pos as int] as int, order@[j] as int));
                    if text_lt(ks[order@[pos as int] as int], ks[order@[j] as int]) {
                        lemma_text_lt_transitive(ks[i as int], ks[order@[pos as int] as int], ks[order@[j] as int]);
                    }
                }
            }
        }
        let ghost before = order@;
        order.insert(pos, i);
        proof {
            assert forall|j: int| 0 <= j < order.len() implies #[trigger] order@[j] < i + 1 by {
                if j < pos {
                    assert(order@[j] == before[j]);
                } else if j > pos {
                    assert(order@[j] == before[j - 1]);
                }
            }
            assert forall|j: int, k: int|
                0 <= j < k < order.len() implies text_precedes(ks, #[trigger] order@[j] as int, #[trigger] order@[k] as int) by {
                if j < pos && k < pos {
                    assert(order@[j] == before[j] && order@[k] == before[k]);
                } else if j < pos && k == pos {
                    assert(order@[j] == before[j]);
                    let a = ks[before[j] as int];
                    let b = ks[i as int];
                    assert(!text_lt(b, a));
                    lemma_text_lt_total(a, b);
                } else if j < pos && k > pos {
                    assert(order@[j] == before[j] && order@[k] == before[k - 1]);
                } else if j == pos {
                    assert(order@[k] == before[k - 1]);
                    assert(text_lt(ks[i as int], ks[before[k - 1] as int]));
                } else {
                    assert(order@[j] == before[j - 1] && order@[k] == before[k - 1]);
                }
            }
        }
        i += 1;
    }
    order
}

/// A page never holds more than its size, and holds exactly its size while
/// the listing has that many records from its start on.
pub proof fn page_window_len<T>(s: Seq<T>, page: u64, size: u64)
    requires
        page_in_range(page, size),
    ensures
        page_window(s, page, size).len() <= size,
        (page - 1) * size + size <= s.len() ==> page_window(s, page, size).len() == size,
{
}

} // verus!
