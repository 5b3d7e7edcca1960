use vstd::prelude::*;

verus! {

/// Index of the parent of node `c` in a 0-indexed, array-packed complete
/// binary tree, where the children of node `p` sit at `2p + 1` and `2p + 2`.
/// Meaningful only for `c >= 1`: the root has no parent.
pub open spec fn parent_of(c: int) -> int {
    (c - 1) / 2
}

/// The max-heap ordering over the first `n` elements of `s`, restricted to
/// the nodes whose parent index is at least `lo`: every such node is bounded
/// by its parent. With `lo == 0` this is the full ordering on the prefix;
/// larger `lo` describes the partially established ordering during bottom-up
/// construction.
pub open spec fn heap_ordered_from(s: Seq<i64>, n: int, lo: int) -> bool {
    forall|c: int| 0 < c < n && lo <= parent_of(c) ==> s[parent_of(c)] >= #[trigger] s[c]
}

/// The max-heap property over the whole of `s`: every node other than the
/// root is bounded by its parent.
pub open spec fn is_max_heap(s: Seq<i64>) -> bool {
    heap_ordered_from(s, s.len() as int, 0)
}

/// An array-backed binary max-heap. Index 0 of the storage is the tree root;
/// `heap_size` marks how many leading elements currently participate in the
/// heap ordering (it equals the storage length whenever a public operation
/// completes, and lags behind it only transiently inside `extract_root`).
pub struct MaxHeap {
    arr: Vec<i64>,
    heap_size: usize,
}

impl View for MaxHeap {
    type V = Seq<i64>;

    closed spec fn view(&self) -> Seq<i64> {
        self.arr@
    }
}

/// The parent index lies strictly below its child and is itself a valid
/// index, and every node is one of the two children of its parent.
proof fn lemma_parent_bounds(c: int)
    requires
        1 <= c,
    ensures
        0 <= parent_of(c) < c,
        c == 2 * parent_of(c) + 1 || c == 2 * parent_of(c) + 2,
{
}

/// The two children of node `p` both have `p` as their parent.
proof fn lemma_parent_of_child(p: int)
    requires
        0 <= p,
    ensures
        parent_of(2 * p + 1) == p,
        parent_of(2 * p + 2) == p,
{
}

/// Swapping two elements of a sequence leaves its multiset of elements
/// unchanged.
proof fn lemma_swap_multiset(s: Seq<i64>, i: int, j: int)
    requires
        0 <= i < s.len(),
        0 <= j < s.len(),
    ensures
        s.update(i, s[j]).update(j, s[i]).to_multiset() == s.to_multiset(),
{
    broadcast use vstd::seq_lib::group_to_multiset_ensures;
    broadcast use vstd::multiset::group_multiset_axioms;

    let s1 = s.update(i, s[j]);
    let s2 = s1.update(j, s[i]);
    if i == j {
        assert(s2 =~= s);
    } else {
        assert(s.contains(s[i]));
        assert(s.contains(s[j]));
        assert(s.to_multiset().count(s[i]) > 0);
        assert(s.to_multiset().count(s[j]) > 0);
        assert(s1[j] == s[j]);
        assert(s1.to_multiset() == s.to_multiset().insert(s[j]).remove(s[i]));
        assert(s2.to_multiset() == s1.to_multiset().insert(s[i]).remove(s[j]));
        assert(s2.to_multiset() =~= s.to_multiset());
    }
}

/// In a max-heap, the root bounds the element at any index: walking the
/// parent chain from `i` to the root only increases the value.
proof fn lemma_root_above(s: Seq<i64>, i: int)
    requires
        is_max_heap(s),
        0 <= i < s.len(),
    ensures
        s[0] >= s[i],
    decreases i,
{
    if i > 0 {
        lemma_parent_bounds(i);
        assert(s[parent_of(i)] >= s[i]);
        lemma_root_above(s, parent_of(i));
    }
}

/// In a non-empty max-heap the root is a maximum of all stored elements.
pub proof fn lemma_root_is_max(s: Seq<i64>)
    requires
        is_max_heap(s),
        s.len() > 0,
    ensures
        forall|i: int| 0 <= i < s.len() ==> s[0] >= #[trigger] s[i],
{
    assert forall|i: int| 0 <= i < s.len() implies s[0] >= #[trigger] s[i] by {
        lemma_root_above(s, i);
    }
}

/// The max-heap property, read downward: every node bounds whichever of its
/// children `2i + 1` and `2i + 2` lie inside the sequence.
pub proof fn lemma_children_bounded(s: Seq<i64>)
    requires
        is_max_heap(s),
    ensures
        forall|i: int, c: int|
            0 <= i < s.len() && (c == 2 * i + 1 || c == 2 * i + 2) && c < s.len()
                ==> #[trigger] s[i] >= #[trigger] s[c],
{
    assert forall|i: int, c: int|
        0 <= i < s.len() && (c == 2 * i + 1 || c == 2 * i + 2) && c < s.len() implies #[trigger] s[i]
        >= #[trigger] s[c] by {
        lemma_parent_of_child(i);
        assert(parent_of(c) == i);
    }
}

/// Bulk-construction max correctness: a heap holding exactly the elements of
/// `v` has, at its root, an element of `v` that bounds every element of `v`.
pub proof fn lemma_bulk_max(v: Seq<i64>, h: Seq<i64>)
    requires
        is_max_heap(h),
        h.to_multiset() == v.to_multiset(),
        v.len() > 0,
    ensures
        v.contains(h[0]),
        forall|j: int| 0 <= j < v.len() ==> h[0] >= #[trigger] v[j],
{
    broadcast use vstd::seq_lib::group_to_multiset_ensures;
    broadcast use vstd::multiset::group_multiset_axioms;

    assert(h.len() == h.to_multiset().len());
    assert(v.len() == v.to_multiset().len());
    assert(h.to_multiset().count(h[0]) > 0);
    assert forall|j: int| 0 <= j < v.len() implies h[0] >= #[trigger] v[j] by {
        assert(v.to_multiset().count(v[j]) > 0);
        assert(h.contains(v[j]));
        let k = choose|k: int| 0 <= k < h.len() && h[k] == v[j];
        lemma_root_above(h, k);
    }
}

/// Sort-via-repeated-extraction, one step: if extracting the root of a
/// non-empty max-heap leaves the remaining elements (one fewer copy of the
/// old root), then the root of any heap over those remaining elements is
/// bounded by the extracted root, so successive extractions are
/// non-increasing.
pub proof fn lemma_extract_monotonic(s: Seq<i64>, t: Seq<i64>)
    requires
        is_max_heap(s),
        s.len() > 0,
        t.len() > 0,
        t.to_multiset() == s.to_multiset().remove(s[0]),
    ensures
        s[0] >= t[0],
{
    broadcast use vstd::seq_lib::group_to_multiset_ensures;
    broadcast use vstd::multiset::group_multiset_axioms;

    assert(t.to_multiset().count(t[0]) > 0);
    assert(s.to_multiset().count(t[0]) > 0);
    assert(s.contains(t[0]));
    let k = choose|k: int| 0 <= k < s.len() && s[k] == t[0];
    lemma_root_above(s, k);
}

impl MaxHeap {
    /// Well-formed: the logical size covers the whole storage, and the
    /// storage satisfies the max-heap ordering.
    pub closed spec fn wf(&self) -> bool {
        &&& self.heap_size == self.arr@.len()
        &&& is_max_heap(self.arr@)
    }

    /// Creates an empty heap.
    pub fn new() -> (h: MaxHeap)
        ensures
            h.wf(),
            h@ == Seq::<i64>::empty(),
    {
        let h = MaxHeap { arr: Vec::new(), heap_size: 0 };
        proof {
            assert(h.arr@ =~= Seq::<i64>::empty());
        }
        h
    }

    /// Of a valid index `idx1` and a candidate index `idx2` that may lie
    /// outside the heap region, returns the index holding the larger element;
    /// `idx2` wins only when it is in range and strictly larger. This is the
    /// single place where a possibly out-of-range index is tolerated.
    fn largest(&self, idx1: usize, idx2: usize) -> (r: usize)
        requires
            self.heap_size <= self.arr@.len(),
            idx1 < self.heap_size,
        ensures
            r == idx1 || r == idx2,
            r < self.heap_size,
            (idx2 < self.heap_size && self.arr@[idx2 as int] > self.arr@[idx1 as int]) ==> r
                == idx2,
            !(idx2 < self.heap_size && self.arr@[idx2 as int] > self.arr@[idx1 as int]) ==> r
                == idx1,
    {
        if idx2 < self.heap_size && self.arr[idx1] < self.arr[idx2] {
            idx2
        } else {
            idx1
        }
    }

    /// Exchanges the elements at two valid storage indices.
    fn swap(&mut self, idx1: usize, idx2: usize)
        requires
            idx1 < old(self).arr@.len(),
            idx2 < old(self).arr@.len(),
        ensures
            final(self).heap_size == old(self).heap_size,
            final(self).arr@ == old(self).arr@.update(
                idx1 as int,
                old(self).arr@[idx2 as int],
            ).update(idx2 as int, old(self).arr@[idx1 as int]),
            final(self).arr@.to_multiset() == old(self).arr@.to_multiset(),
    {
        proof {
            lemma_swap_multiset(self.arr@, idx1 as int, idx2 as int);
        }
        let a = self.arr[idx1];
        let b = self.arr[idx2];
        self.arr[idx1] = b;
        self.arr[idx2] = a;
    }

    /// Sift-down at node `i`: assuming the heap ordering already holds at
    /// every node whose parent lies strictly below `i`, restores it from `i`
    /// on by repeatedly swapping a node with the largest of itself and its
    /// children. Touches only the heap region from `i` on and preserves its
    /// contents.
    fn max_heapify(&mut self, i: usize)
        requires
            old(self).heap_size <= old(self).arr@.len(),
            i < old(self).heap_size,
            heap_ordered_from(old(self).arr@, old(self).heap_size as int, i + 1),
        ensures
            final(self).heap_size == old(self).heap_size,
            final(self).arr@.len() == old(self).arr@.len(),
            forall|k: int|
                0 <= k < final(self).arr@.len() && !(i <= k < final(self).heap_size)
                    ==> final(self).arr@[k] == old(self).arr@[k],
            final(self).arr@.subrange(0, old(self).heap_size as int).to_multiset() == old(
                self,
            ).arr@.subrange(0, old(self).heap_size as int).to_multiset(),
            heap_ordered_from(final(self).arr@, old(self).heap_size as int, i as int),
    {
        let ghost orig = self.arr@;
        let size = self.heap_size;
        let mut index = i;
        while index < size
            invariant_except_break
                self.heap_size == size,
                size <= self.arr@.len(),
                self.arr@.len() == orig.len(),
                i <= index < size,
                forall|k: int|
                    0 <= k < orig.len() && !(i <= k < size) ==> self.arr@[k] == orig[k],
                self.arr@.subrange(0, size as int).to_multiset() == orig.subrange(
                    0,
                    size as int,
                ).to_multiset(),
                forall|c: int|
                    0 < c < size && i <= parent_of(c) && parent_of(c) != index
                        ==> self.arr@[parent_of(c)] >= #[trigger] self.arr@[c],
                index > i ==> i <= parent_of(index as int),
                index > i ==> forall|c: int|
                    0 < c < size && parent_of(c) == index ==> self.arr@[parent_of(
                        index as int,
                    )] >= #[trigger] self.arr@[c],
            ensures
                self.heap_size == size,
                self.arr@.len() == orig.len(),
                forall|k: int|
                    0 <= k < orig.len() && !(i <= k < size) ==> self.arr@[k] == orig[k],
                self.arr@.subrange(0, size as int).to_multiset() == orig.subrange(
                    0,
                    size as int,
                ).to_multiset(),
                heap_ordered_from(self.arr@, size as int, i as int),
            decreases size - index,
        {
            if size / 2 <= index {
                // a node in the lower half of the region has no children in range
                proof {
                    assert forall|c: int|
                        0 < c < size && i <= parent_of(c) implies self.arr@[parent_of(c)]
                        >= self.arr@[c] by {
                        lemma_parent_bounds(c);
                    }
                }
                break;
            }
            let right = (index + 1) * 2;
            let max_right = self.largest(index, right);
            let left = right - 1;
            let largest_idx = self.largest(max_right, left);
            proof {
                lemma_parent_of_child(index as int);
            }
            if largest_idx == index {
                // the node already dominates both of its children
                proof {
                    assert forall|c: int|
                        0 < c < size && i <= parent_of(c) implies self.arr@[parent_of(c)]
                        >= self.arr@[c] by {
                        lemma_parent_bounds(c);
                    }
                }
                break;
            }
            let ghost s0 = self.arr@;
            let ghost k = largest_idx as int;
            let ghost j = index as int;
            proof {
                assert(s0[k] > s0[j]);
                assert(k == j * 2 + 1 || k == j * 2 + 2);
                assert(forall|c: int|
                    0 < c < size && parent_of(c) == j ==> s0[k] >= #[trigger] s0[c]);
            }
            self.swap(index, largest_idx);
            proof {
                let s1 = self.arr@;
                assert(s1.subrange(0, size as int) =~= s0.subrange(0, size as int).update(
                    j,
                    s0.subrange(0, size as int)[k],
                ).update(k, s0.subrange(0, size as int)[j]));
                lemma_swap_multiset(s0.subrange(0, size as int), j, k);
                assert forall|c: int|
                    0 < c < size && i <= parent_of(c) && parent_of(c) != k implies s1[parent_of(c)]
                    >= s1[c] by {
                    lemma_parent_bounds(c);
                    if parent_of(c) == j {
                        // `c` is a child of the old node: the largest child now sits there
                        assert(s1[j] == s0[k]);
                        assert(s0[k] >= s0[c]);
                    } else if c == j {
                        // the old node kept its parent bound via the sifted condition
                        assert(j > i);
                        assert(s0[parent_of(j)] >= s0[k]);
                    } else {
                        assert(s1[c] == s0[c]);
                        assert(s1[parent_of(c)] == s0[parent_of(c)]);
                    }
                }
                assert(i <= parent_of(k));
                assert forall|c: int|
                    0 < c < size && parent_of(c) == k implies s1[parent_of(k)] >= s1[c] by {
                    lemma_parent_bounds(c);
                    assert(s1[c] == s0[c]);
                    assert(s0[k] >= s0[c]);
                }
            }
            index = largest_idx;
        }
    }

    /// Appends `value` at the end of the heap region and sifts it up towards
    /// the root until its parent bounds it, restoring the heap ordering.
    /// Always succeeds; the heap grows by exactly this one element.
    pub fn insert(&mut self, value: i64)
        requires
            old(self).wf(),
        ensures
            final(self).wf(),
            is_max_heap(final(self)@),
            final(self)@.len() == old(self)@.len() + 1,
            final(self)@.to_multiset() == old(self)@.to_multiset().insert(value),
    {
        let mut index = self.heap_size;
        self.arr.push(value);
        proof {
            broadcast use vstd::std_specs::vec::axiom_spec_len;

            assert(self.arr@.len() == vstd::std_specs::vec::spec_vec_len(&self.arr));
            assert(self.arr@.len() <= usize::MAX);
        }
        self.heap_size = index + 1;
        let ghost n = self.arr@.len() as int;
        let ghost m0 = old(self).arr@.to_multiset().insert(value);
        proof {
            broadcast use vstd::seq_lib::to_multiset_build;

            assert(self.arr@ == old(self).arr@.push(value));
            assert(self.arr@.to_multiset() == m0);
            // the ordering can only be violated between the appended leaf and
            // its parent
            assert forall|c: int|
                0 < c < n && c != index implies self.arr@[parent_of(c)] >= #[trigger] self.arr@[c] by {
                lemma_parent_bounds(c);
            }
            // the appended leaf sits last, so it has no children in range
            assert forall|c: int|
                0 < c < n && parent_of(c) == index implies false by {
                lemma_parent_bounds(c);
            }
        }
        while index > 0
            invariant_except_break
                self.heap_size == n,
                self.arr@.len() == n,
                0 <= index < n,
                self.arr@.to_multiset() == m0,
                forall|c: int|
                    0 < c < n && c != index ==> self.arr@[parent_of(c)] >= #[trigger] self.arr@[c],
                index > 0 ==> forall|c: int|
                    0 < c < n && parent_of(c) == index ==> self.arr@[parent_of(
                        index as int,
                    )] >= #[trigger] self.arr@[c],
            ensures
                self.heap_size == n,
                self.arr@.len() == n,
                self.arr@.to_multiset() == m0,
                is_max_heap(self.arr@),
            decreases index,
        {
            let parent = self.parent_index(index);
            if self.arr[parent] < self.arr[index] {
                let ghost s0 = self.arr@;
                let ghost j = index as int;
                let ghost p = parent as int;
                self.swap(parent, index);
                proof {
                    let s1 = self.arr@;
                    lemma_parent_bounds(j);
                    assert forall|c: int|
                        0 < c < n && c != p implies s1[parent_of(c)] >= s1[c] by {
                        lemma_parent_bounds(c);
                        if c == j {
                            assert(s1[p] == s0[j]);
                        } else if parent_of(c) == p {
                            assert(s0[p] >= s0[c]);
                        } else if parent_of(c) == j {
                            assert(s0[p] >= s0[c]);
                        } else {
                            assert(s1[c] == s0[c]);
                            assert(s1[parent_of(c)] == s0[parent_of(c)]);
                        }
                    }
                    if p > 0 {
                        lemma_parent_bounds(p);
                        assert(s0[parent_of(p)] >= s0[p]);
                        assert forall|c: int|
                            0 < c < n && parent_of(c) == p implies s1[parent_of(p)] >= s1[c] by {
                            lemma_parent_bounds(c);
                            if c == j {
                                assert(s1[j] == s0[p]);
                            } else {
                                assert(s1[c] == s0[c]);
                                assert(s0[p] >= s0[c]);
                            }
                        }
                    }
                }
                index = parent;
            } else {
                proof {
                    assert forall|c: int|
                        0 < c < n && 0 <= parent_of(c) implies self.arr@[parent_of(c)]
                        >= self.arr@[c] by {
                        lemma_parent_bounds(c);
                    }
                }
                break;
            }
        }
    }

    /// Removes and returns the current maximum, or `None` on an empty heap,
    /// in which case nothing is mutated. On a non-empty heap the root (a
    /// maximum of all stored elements) is returned, the heap shrinks by
    /// exactly that one element, and the heap ordering is restored by a
    /// sift-down from the root.
    pub fn extract_root(&mut self) -> (r: Option<i64>)
        requires
            old(self).wf(),
        ensures
            final(self).wf(),
            is_max_heap(final(self)@),
            old(self)@.len() == 0 ==> r is None && *final(self) == *old(self),
            old(self)@.len() > 0 ==> {
                &&& r == Some(old(self)@[0])
                &&& forall|k: int|
                    0 <= k < old(self)@.len() ==> old(self)@[0] >= #[trigger] old(self)@[k]
                &&& final(self)@.len() == old(self)@.len() - 1
                &&& final(self)@.to_multiset() == old(self)@.to_multiset().remove(old(self)@[0])
            },
    {
        let size = self.heap_size;
        if size == 0 {
            return None;
        }
        let ghost h = old(self).arr@;
        let ghost m = h[0];
        proof {
            broadcast use vstd::seq_lib::group_to_multiset_ensures;
            broadcast use vstd::multiset::group_multiset_axioms;

            lemma_root_is_max(h);
        }
        if size == 1 {
            self.heap_size = 0;
            let r = self.arr.pop();
            proof {
                broadcast use vstd::seq_lib::group_to_multiset_ensures;
                broadcast use vstd::multiset::group_multiset_axioms;

                assert(h =~= Seq::<i64>::empty().push(m));
                assert(h.to_multiset() == Seq::<i64>::empty().to_multiset().insert(m));
                assert(self.arr@ =~= Seq::<i64>::empty());
                assert(self.arr@.to_multiset() =~= h.to_multiset().remove(m));
            }
            return r;
        }
        let last = size - 1;
        self.heap_size = last;
        self.swap(0, last);
        let ghost s1 = self.arr@;
        proof {
            assert forall|c: int|
                0 < c < last && 1 <= parent_of(c) implies s1[parent_of(c)] >= #[trigger] s1[c] by {
                lemma_parent_bounds(c);
                assert(s1[c] == h[c]);
                assert(s1[parent_of(c)] == h[parent_of(c)]);
            }
        }
        self.max_heapify(0);
        let ghost s2 = self.arr@;
        let r = self.arr.pop();
        proof {
            broadcast use vstd::seq_lib::group_to_multiset_ensures;
            broadcast use vstd::multiset::group_multiset_axioms;

            assert(s2[last as int] == s1[last as int]);
            assert(r == Some(m));
            assert(self.arr@ =~= s2.subrange(0, last as int));
            assert(s2 =~= s2.subrange(0, last as int).push(m));
            assert(s1 =~= s1.subrange(0, last as int).push(m));
            assert(s2.to_multiset() == self.arr@.to_multiset().insert(m));
            assert(s1.subrange(0, last as int).to_multiset() == self.arr@.to_multiset());
            assert(s1.to_multiset() == self.arr@.to_multiset().insert(m));
            assert(h.to_multiset() == self.arr@.to_multiset().insert(m));
            assert(self.arr@.to_multiset() =~= h.to_multiset().remove(m));
            assert forall|c: int|
                0 < c < last && 0 <= parent_of(c) implies self.arr@[parent_of(c)]
                >= #[trigger] self.arr@[c] by {
                lemma_parent_bounds(c);
                assert(self.arr@[c] == s2[c]);
                assert(self.arr@[parent_of(c)] == s2[parent_of(c)]);
            }
        }
        r
    }

    /// Builds a heap from an arbitrary vector by taking ownership of it and
    /// sifting down every internal node, last to first (bottom-up heapify,
    /// linear total work). The result holds exactly the given elements.
    pub fn from_vec(elements: Vec<i64>) -> (h: MaxHeap)
        ensures
            h.wf(),
            is_max_heap(h@),
            h@.len() == elements@.len(),
            h@.to_multiset() == elements@.to_multiset(),
    {
        let ghost orig = elements@;
        let heap_size = elements.len();
        let mut heap = MaxHeap { arr: elements, heap_size };
        let ghost n = heap_size as int;
        proof {
            assert(heap.arr@.subrange(0, n) =~= heap.arr@);
            assert forall|c: int|
                0 < c < n && heap_size / 2 <= parent_of(c) implies heap.arr@[parent_of(c)]
                >= #[trigger] heap.arr@[c] by {
                lemma_parent_bounds(c);
            }
        }
        let mut idx = heap_size / 2;
        while idx > 0
            invariant
                heap.heap_size == heap_size,
                heap.heap_size as int == n,
                heap.arr@.len() == n,
                idx as int <= n,
                heap.arr@.to_multiset() == orig.to_multiset(),
                heap_ordered_from(heap.arr@, n, idx as int),
            decreases idx,
        {
            idx = idx - 1;
            let ghost before = heap.arr@;
            heap.max_heapify(idx);
            proof {
                assert(heap.arr@.subrange(0, n) =~= heap.arr@);
                assert(before.subrange(0, n) =~= before);
            }
        }
        proof {
            assert forall|c: int|
                0 < c < n && 0 <= parent_of(c) implies heap.arr@[parent_of(c)]
                >= #[trigger] heap.arr@[c] by {
                lemma_parent_bounds(c);
            }
        }
        heap
    }

    /// Index of the parent of node `idx`. The root has no parent, so `idx`
    /// must be positive.
    pub fn parent_index(&mut self, idx: usize) -> (p: usize)
        requires
            0 < idx,
        ensures
            p as int == parent_of(idx as int),
            *final(self) == *old(self),
    {
        (idx - 1) / 2
    }

    /// Number of elements currently stored in the heap.
    pub fn len(&self) -> (n: usize)
        ensures
            n == self@.len(),
    {
        self.arr.len()
    }

    /// The element stored at index `idx` of the backing array (index 0 is the
    /// root).
    pub fn get(&self, idx: usize) -> (r: i64)
        requires
            idx < self@.len(),
        ensures
            r == self@[idx as int],
    {
        self.arr[idx]
    }
}

} // verus!
