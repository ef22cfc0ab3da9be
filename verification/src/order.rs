//! Stable ordering of rows by a key.
//!
//! Rows are never compared directly.  A stage extracts one key per row,
//! asks for the order in which the keys have to be visited, and gathers the
//! rows in that order.  Keys that compare equal keep the relative
//! order in which they came.

use vstd::prelude::*;
use vstd::utf8::encode_utf8;

verus! {

/// A key by which rows can be put in order.
pub trait SortKey {
    /// Whether `self` has to come strictly before `other`.
    spec fn key_before(&self, other: &Self) -> bool;

    /// Decides `key_before`.
    fn before(&self, other: &Self) -> (r: bool)
        ensures
            r == self.key_before(other),
    ;
}

impl SortKey for u64 {
    open spec fn key_before(&self, other: &Self) -> bool {
        *self < *other
    }

    fn before(&self, other: &Self) -> (r: bool) {
        *self < *other
    }
}

impl SortKey for i64 {
    open spec fn key_before(&self, other: &Self) -> bool {
        *self < *other
    }

    fn before(&self, other: &Self) -> (r: bool) {
        *self < *other
    }
}

/// Whether the bytes `a` come before the bytes `b` in dictionary order,
/// given that they agree on the first `from` bytes.
pub open spec fn bytes_before(a: Seq<u8>, b: Seq<u8>, from: int) -> bool
    decreases a.len() - from,
{
    if from >= b.len() {
        false
    } else if from >= a.len() {
        true
    } else if a[from] != b[from] {
        a[from] < b[from]
    } else {
        bytes_before(a, b, from + 1)
    }
}

/// Text is ordered by the bytes of its UTF-8 encoding, in dictionary order.
impl SortKey for String {
    open spec fn key_before(&self, other: &Self) -> bool {
        bytes_before(encode_utf8(self@), encode_utf8(other@), 0)
    }

    fn before(&self, other: &Self) -> (r: bool) {
        let a = self.as_str().as_bytes();
        let b = other.as_str().as_bytes();
        let mut i: usize = 0;
        while i < a.len() && i < b.len()
            invariant
                i <= a@.len(),
                i <= b@.len(),
                a@ == encode_utf8(self@),
                b@ == encode_utf8(other@),
                bytes_before(a@, b@, 0) == bytes_before(a@, b@, i as int),
            decreases a@.len() - i,
        {
            if a[i] != b[i] {
                return a[i] < b[i];
            }
            i += 1;
        }
        i < b.len()
    }
}

/// Places index `x` into `order` behind every index whose key does not come
/// strictly after the key of `x`, looking from the back.
pub open spec fn insert_index<K: SortKey>(order: Seq<usize>, keys: Seq<K>, x: usize) -> Seq<usize>
    decreases order.len(),
{
    if order.len() > 0 && keys[x as int].key_before(&keys[order.last() as int]) {
        insert_index(order.drop_last(), keys, x).push(order.last())
    } else {
        order.push(x)
    }
}

/// The order in which the first `n` keys are visited when sorted ascending,
/// equal keys in the order in which they came.
pub open spec fn stable_order<K: SortKey>(keys: Seq<K>, n: nat) -> Seq<usize>
    decreases n,
{
    if n == 0 {
        Seq::empty()
    } else {
        insert_index(stable_order(keys, (n - 1) as nat), keys, (n - 1) as usize)
    }
}

/// The rows of `rows` taken in the given order.
pub open spec fn gather<T>(rows: Seq<T>, order: Seq<usize>) -> Seq<T> {
    Seq::new(order.len(), |p: int| rows[order[p] as int])
}

/// Inserting behind position `at` is what `insert_index` does when every
/// index from `at` on has a key strictly after that of `x` and the one
/// before `at` has not.
proof fn lemma_insert_at<K: SortKey>(order: Seq<usize>, keys: Seq<K>, x: usize, at: int)
    requires
        0 <= at <= order.len(),
        forall|k: int| at <= k < order.len() ==> keys[x as int].key_before(&keys[#[trigger] order[k] as int]),
        at > 0 ==> !keys[x as int].key_before(&keys[order[at - 1] as int]),
    ensures
        insert_index(order, keys, x) == order.insert(at, x),
    decreases order.len() - at,
{
    if at == order.len() {
        assert(order.insert(at, x) =~= order.push(x));
    } else {
        let shorter = order.drop_last();
        assert(keys[x as int].key_before(&keys[order[order.len() - 1] as int]));
        assert forall|k: int| at <= k < shorter.len() implies keys[x as int].key_before(
            &keys[#[trigger] shorter[k] as int],
        ) by {
            assert(shorter[k] == order[k]);
        }
        lemma_insert_at(shorter, keys, x, at);
        assert(shorter.insert(at, x).push(order.last()) =~= order.insert(at, x));
    }
}

/// `insert_index` adds one entry.
pub proof fn lemma_insert_index_len<K: SortKey>(order: Seq<usize>, keys: Seq<K>, x: usize)
    ensures
        insert_index(order, keys, x).len() == order.len() + 1,
    decreases order.len(),
{
    if order.len() > 0 && keys[x as int].key_before(&keys[order.last() as int]) {
        lemma_insert_index_len(order.drop_last(), keys, x);
    }
}

/// The order of the first `n` keys has `n` entries.
pub proof fn lemma_stable_order_len<K: SortKey>(keys: Seq<K>, n: nat)
    ensures
        stable_order(keys, n).len() == n,
    decreases n,
{
    if n > 0 {
        lemma_stable_order_len(keys, (n - 1) as nat);
        lemma_insert_index_len(stable_order(keys, (n - 1) as nat), keys, (n - 1) as usize);
    }
}

/// Every entry that `insert_index` yields is `x` or an entry of `order`,
/// and all of them occur.
pub proof fn lemma_insert_index_entries<K: SortKey>(order: Seq<usize>, keys: Seq<K>, x: usize)
    ensures
        forall|p: int|
            0 <= p < insert_index(order, keys, x).len() ==> {
                ||| (#[trigger] insert_index(order, keys, x)[p]) == x
                ||| order.contains(insert_index(order, keys, x)[p])
            },
        insert_index(order, keys, x).contains(x),
        forall|q: int| 0 <= q < order.len() ==> insert_index(order, keys, x).contains(#[trigger] order[q]),
    decreases order.len(),
{
    let out = insert_index(order, keys, x);
    if order.len() > 0 && keys[x as int].key_before(&keys[order.last() as int]) {
        let shorter = order.drop_last();
        let inner = insert_index(shorter, keys, x);
        lemma_insert_index_entries(shorter, keys, x);
        lemma_insert_index_len(shorter, keys, x);
        assert forall|p: int| 0 <= p < out.len() implies (#[trigger] out[p]) == x || order.contains(
            out[p],
        ) by {
            if p < inner.len() {
                assert(out[p] == inner[p]);
                if inner[p] != x {
                    let q = choose|q: int| 0 <= q < shorter.len() && shorter[q] == inner[p];
                    assert(order[q] == inner[p]);
                }
            } else {
                assert(out[p] == order[order.len() - 1]);
            }
        }
        let at = choose|at: int| 0 <= at < inner.len() && inner[at] == x;
        assert(out[at] == x);
        assert forall|q: int| 0 <= q < order.len() implies out.contains(#[trigger] order[q]) by {
            if q < shorter.len() {
                assert(shorter[q] == order[q]);
                let r = choose|r: int| 0 <= r < inner.len() && inner[r] == shorter[q];
                assert(out[r] == order[q]);
            } else {
                assert(out[inner.len() as int] == order[q]);
            }
        }
    } else {
        assert(out[order.len() as int] == x);
        assert forall|q: int| 0 <= q < order.len() implies out.contains(#[trigger] order[q]) by {
            assert(out[q] == order[q]);
        }
        assert forall|p: int| 0 <= p < out.len() implies (#[trigger] out[p]) == x || order.contains(
            out[p],
        ) by {
            if p < order.len() {
                assert(order[p] == out[p]);
            }
        }
    }
}

/// The order of the first `n` keys holds exactly the indices below `n`.
pub proof fn lemma_stable_order_entries<K: SortKey>(keys: Seq<K>, n: nat)
    requires
        n <= usize::MAX,
    ensures
        stable_order(keys, n).len() == n,
        forall|p: int| 0 <= p < n ==> (#[trigger] stable_order(keys, n)[p]) < n,
        forall|i: usize| i < n ==> stable_order(keys, n).contains(i),
    decreases n,
{
    lemma_stable_order_len(keys, n);
    if n > 0 {
        let prev = stable_order(keys, (n - 1) as nat);
        let x = (n - 1) as usize;
        lemma_stable_order_entries(keys, (n - 1) as nat);
        lemma_insert_index_entries(prev, keys, x);
        let out = stable_order(keys, n);
        assert forall|p: int| 0 <= p < n implies (#[trigger] out[p]) < n by {
            if out[p] != x {
                let q = choose|q: int| 0 <= q < prev.len() && prev[q] == out[p];
                assert(prev[q] < n - 1);
            }
        }
        assert forall|i: usize| i < n implies out.contains(i) by {
            if i != x {
                assert(prev.contains(i));
                let q = choose|q: int| 0 <= q < prev.len() && prev[q] == i;
                assert(out.contains(prev[q]));
            }
        }
    }
}

/// The position at which `insert_index` places the new index.
pub open spec fn insert_point<K: SortKey>(order: Seq<usize>, keys: Seq<K>, x: usize) -> int
    decreases order.len(),
{
    if order.len() > 0 && keys[x as int].key_before(&keys[order.last() as int]) {
        insert_point(order.drop_last(), keys, x)
    } else {
        order.len() as int
    }
}

/// `insert_index` keeps the entries of `order` in place and puts `x` at the
/// insert point, behind the last entry whose key does not come after it.
pub proof fn lemma_insert_point<K: SortKey>(order: Seq<usize>, keys: Seq<K>, x: usize)
    ensures
        0 <= insert_point(order, keys, x) <= order.len(),
        insert_index(order, keys, x) == order.insert(insert_point(order, keys, x), x),
        forall|k: int|
            insert_point(order, keys, x) <= k < order.len() ==> keys[x as int].key_before(
                &keys[#[trigger] order[k] as int],
            ),
        insert_point(order, keys, x) > 0 ==> !keys[x as int].key_before(
            &keys[order[insert_point(order, keys, x) - 1] as int],
        ),
    decreases order.len(),
{
    if order.len() > 0 && keys[x as int].key_before(&keys[order.last() as int]) {
        let shorter = order.drop_last();
        lemma_insert_point(shorter, keys, x);
        let at = insert_point(shorter, keys, x);
        assert(shorter.insert(at, x).push(order.last()) =~= order.insert(at, x));
        assert forall|k: int| at <= k < order.len() implies keys[x as int].key_before(
            &keys[#[trigger] order[k] as int],
        ) by {
            if k < shorter.len() {
                assert(shorter[k] == order[k]);
            }
        }
        if at > 0 {
            assert(shorter[at - 1] == order[at - 1]);
        }
    } else {
        assert(order.insert(order.len() as int, x) =~= order.push(x));
    }
}

/// No index occurs twice in the order of the first `n` keys.
pub proof fn lemma_stable_order_distinct<K: SortKey>(keys: Seq<K>, n: nat)
    requires
        n <= usize::MAX,
    ensures
        forall|p: int, q: int|
            0 <= p < q < stable_order(keys, n).len() ==> stable_order(keys, n)[p] != stable_order(keys, n)[q],
    decreases n,
{
    if n > 0 {
        let prev = stable_order(keys, (n - 1) as nat);
        let x = (n - 1) as usize;
        lemma_stable_order_distinct(keys, (n - 1) as nat);
        lemma_stable_order_entries(keys, (n - 1) as nat);
        lemma_insert_point(prev, keys, x);
        let at = insert_point(prev, keys, x);
        let out = stable_order(keys, n);
        assert(out == prev.insert(at, x));
        assert forall|p: int, q: int| 0 <= p < q < out.len() implies out[p] != out[q] by {
            if p == at {
                assert(out[q] == prev[q - 1]);
            } else if q == at {
                assert(out[p] == prev[p]);
            } else {
                let pp = if p < at { p } else { p - 1 };
                let qq = if q < at { q } else { q - 1 };
                assert(out[p] == prev[pp]);
                assert(out[q] == prev[qq]);
            }
        }
    }
}

/// Whether `key_before` orders the keys of a type strictly and weakly: it is
/// asymmetric, and "not after" is transitive.
pub open spec fn strict_weak<K: SortKey>() -> bool {
    &&& forall|a: K, b: K| #[trigger] a.key_before(&b) ==> !b.key_before(&a)
    &&& forall|a: K, b: K, c: K|
        !(#[trigger] b.key_before(&a)) && !(#[trigger] c.key_before(&b)) ==> !c.key_before(&a)
}

/// Whether the keys are visited in ascending order, equal keys in the order
/// of their indices.
pub open spec fn ascending<K: SortKey>(keys: Seq<K>, order: Seq<usize>) -> bool {
    forall|p: int, q: int|
        0 <= p < q < order.len() ==> {
            &&& !keys[#[trigger] order[q] as int].key_before(&keys[#[trigger] order[p] as int])
            &&& (!keys[order[p] as int].key_before(&keys[order[q] as int]) ==> order[p] < order[q])
        }
}

/// The stable order is ascending and keeps equal keys in the order in which
/// they came.
pub proof fn lemma_stable_order_sorted<K: SortKey>(keys: Seq<K>, n: nat)
    requires
        strict_weak::<K>(),
        n <= usize::MAX,
    ensures
        ascending(keys, stable_order(keys, n)),
    decreases n,
{
    if n > 0 {
        let prev = stable_order(keys, (n - 1) as nat);
        let x = (n - 1) as usize;
        lemma_stable_order_sorted(keys, (n - 1) as nat);
        lemma_stable_order_entries(keys, (n - 1) as nat);
        lemma_insert_point(prev, keys, x);
        let at = insert_point(prev, keys, x);
        let out = stable_order(keys, n);
        assert(out == prev.insert(at, x));
        let kx = keys[x as int];
        assert forall|k: int| 0 <= k < at implies !kx.key_before(&keys[#[trigger] prev[k] as int]) by {
            if k < at - 1 {
                let a = keys[prev[k] as int];
                let b = keys[prev[at - 1] as int];
                assert(!b.key_before(&a));
                assert(!kx.key_before(&b));
            }
        }
        assert forall|p: int, q: int| 0 <= p < q < out.len() implies {
            &&& !keys[#[trigger] out[q] as int].key_before(&keys[#[trigger] out[p] as int])
            &&& (!keys[out[p] as int].key_before(&keys[out[q] as int]) ==> out[p] < out[q])
        } by {
            if p == at {
                assert(out[q] == prev[q - 1]);
                assert(kx.key_before(&keys[prev[q - 1] as int]));
            } else if q == at {
                assert(out[p] == prev[p]);
                assert(prev[p] < n - 1);
            } else {
                let pp = if p < at { p } else { p - 1 };
                let qq = if q < at { q } else { q - 1 };
                assert(out[p] == prev[pp]);
                assert(out[q] == prev[qq]);
            }
        }
    }
}

/// Integers are ordered strictly and weakly by `<`.
pub proof fn lemma_integers_strict_weak()
    ensures
        strict_weak::<u64>(),
        strict_weak::<i64>(),
{
}

/// Dictionary order is asymmetric.
proof fn lemma_bytes_asymmetric(a: Seq<u8>, b: Seq<u8>, from: int)
    requires
        0 <= from,
        bytes_before(a, b, from),
    ensures
        !bytes_before(b, a, from),
    decreases a.len() - from,
{
    if from < a.len() && from < b.len() && a[from] == b[from] {
        lemma_bytes_asymmetric(a, b, from + 1);
    }
}

/// In dictionary order "not after" is transitive.
proof fn lemma_bytes_transitive(a: Seq<u8>, b: Seq<u8>, c: Seq<u8>, from: int)
    requires
        0 <= from,
        !bytes_before(b, a, from),
        !bytes_before(c, b, from),
    ensures
        !bytes_before(c, a, from),
    decreases a.len() - from,
{
    if from < a.len() && from < b.len() && from < c.len() && a[from] == b[from] && b[from] == c[from] {
        lemma_bytes_transitive(a, b, c, from + 1);
    }
}

/// Text is ordered strictly and weakly by the bytes of its encoding.
pub proof fn lemma_text_strict_weak()
    ensures
        strict_weak::<String>(),
{
    assert forall|a: String, b: String| #[trigger] a.key_before(&b) implies !b.key_before(&a) by {
        lemma_bytes_asymmetric(encode_utf8(a@), encode_utf8(b@), 0);
    }
    assert forall|a: String, b: String, c: String|
        !(#[trigger] b.key_before(&a)) && !(#[trigger] c.key_before(&b)) implies !c.key_before(&a) by {
        lemma_bytes_transitive(encode_utf8(a@), encode_utf8(b@), encode_utf8(c@), 0);
    }
}

/// Computes the stable ascending order of `keys`.
pub fn sort_order<K: SortKey>(keys: &Vec<K>) -> (order: Vec<usize>)
    ensures
        order@ == stable_order(keys@, keys@.len()),
        order@.len() == keys@.len(),
        forall|p: int| 0 <= p < order@.len() ==> (#[trigger] order@[p]) < keys@.len(),
{
    let mut order: Vec<usize> = Vec::new();
    let mut i: usize = 0;
    while i < keys.len()
        invariant
            i <= keys.len(),
            order@ == stable_order(keys@, i as nat),
            order@.len() == i,
            forall|k: int| 0 <= k < order@.len() ==> (#[trigger] order@[k]) < i,
        decreases keys.len() - i,
    {
        let mut at: usize = order.len();
        while at > 0 && keys[i].before(&keys[order[at - 1]])
            invariant
                at <= order@.len(),
                i < keys.len(),
                order@.len() == i,
                forall|k: int| 0 <= k < order@.len() ==> (#[trigger] order@[k]) < i,
                forall|k: int| at <= k < order@.len() ==> keys@[i as int].key_before(&keys@[#[trigger] order@[k] as int]),
            decreases at,
        {
            at -= 1;
        }
        proof {
            lemma_insert_at(order@, keys@, i, at as int);
        }
        order.insert(at, i);
        i += 1;
    }
    order
}

} // verus!
