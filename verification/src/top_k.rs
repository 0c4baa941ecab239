//! Selection of the best scoring candidates with a bounded heap.
use vstd::prelude::*;

verus! {

/// Candidate `a` ranks before candidate `b`: its score is higher, or the
/// scores are equal and `a` comes first. Of two different candidates exactly
/// one ranks before the other.
pub open spec fn ranks_before(scores: Seq<i64>, a: int, b: int) -> bool {
    scores[a] > scores[b] || (scores[a] == scores[b] && a < b)
}

/// The number of candidates that a selection of at most `k` out of `n` holds.
pub open spec fn selection_len(k: nat, n: nat) -> nat {
    if k <= n {
        k
    } else {
        n
    }
}

/// `top` lists the `k` best of the candidates, best first.
///
/// It holds `k` candidates, or all of them where there are fewer; each one
/// ranks before the next; and each one ranks before every candidate that is
/// left out.
pub open spec fn is_top_k(scores: Seq<i64>, k: nat, top: Seq<usize>) -> bool {
    &&& top.len() == selection_len(k, scores.len())
    &&& forall|i: int| 0 <= i < top.len() ==> top[i] < scores.len()
    &&& forall|i: int, j: int|
        0 <= i < j < top.len() ==> ranks_before(scores, top[i] as int, top[j] as int)
    &&& forall|c: usize, i: int|
        c < scores.len() && !top.contains(c) && 0 <= i < top.len() ==> ranks_before(
            scores,
            top[i] as int,
            c as int,
        )
}

/// The position above `i` in a heap.
spec fn parent(i: int) -> int {
    (i - 1) / 2
}

/// Every entry names a candidate.
spec fn in_range(scores: Seq<i64>, heap: Seq<usize>) -> bool {
    forall|i: int| 0 <= i < heap.len() ==> heap[i] < scores.len()
}

/// Every entry but the first ranks before the entry above it, so that the
/// first entry is the one that ranks last.
spec fn is_heap(scores: Seq<i64>, heap: Seq<usize>) -> bool {
    forall|i: int|
        0 < i < heap.len() ==> ranks_before(scores, #[trigger] heap[i] as int, heap[parent(i)] as int)
}

/// The heap order holds but between the entry at `hole` and the entries below
/// it, and those rank before the entry above `hole`.
spec fn is_heap_below(scores: Seq<i64>, heap: Seq<usize>, hole: int) -> bool {
    &&& forall|i: int|
        0 < i < heap.len() && parent(i) != hole ==> ranks_before(
            scores,
            #[trigger] heap[i] as int,
            heap[parent(i)] as int,
        )
    &&& hole > 0 ==> forall|c: int|
        0 < c < heap.len() && parent(c) == hole ==> ranks_before(
            scores,
            #[trigger] heap[c] as int,
            heap[parent(hole)] as int,
        )
}

/// The heap order holds but between the entry at `hole` and the entry above
/// it, and the entries below `hole` rank before that entry.
spec fn is_heap_above(scores: Seq<i64>, heap: Seq<usize>, hole: int) -> bool {
    &&& forall|i: int|
        0 < i < heap.len() && i != hole ==> ranks_before(
            scores,
            #[trigger] heap[i] as int,
            heap[parent(i)] as int,
        )
    &&& hole > 0 ==> forall|c: int|
        0 < c < heap.len() && parent(c) == hole ==> ranks_before(
            scores,
            #[trigger] heap[c] as int,
            heap[parent(hole)] as int,
        )
}

/// The sequence with the entries at `a` and `b` exchanged.
spec fn swapped(heap: Seq<usize>, a: int, b: int) -> Seq<usize> {
    heap.update(a, heap[b]).update(b, heap[a])
}

/// Exchanging two entries changes neither which entries there are nor that
/// they are distinct.
proof fn lemma_swapped(heap: Seq<usize>, a: int, b: int)
    requires
        0 <= a < heap.len(),
        0 <= b < heap.len(),
    ensures
        swapped(heap, a, b).to_set() == heap.to_set(),
        heap.no_duplicates() ==> swapped(heap, a, b).no_duplicates(),
{
    let after = swapped(heap, a, b);
    assert forall|x: usize| heap.contains(x) implies after.contains(x) by {
        let i = choose|i: int| 0 <= i < heap.len() && heap[i] == x;
        if i == a {
            assert(after[b] == x);
        } else if i == b {
            assert(after[a] == x);
        } else {
            assert(after[i] == x);
        }
    }
    assert forall|x: usize| after.contains(x) implies heap.contains(x) by {
        let i = choose|i: int| 0 <= i < after.len() && after[i] == x;
        if i == a {
            assert(heap[b] == x);
        } else if i == b {
            assert(heap[a] == x);
        } else {
            assert(heap[i] == x);
        }
    }
    assert(after.to_set() =~= heap.to_set());
}

/// Every entry of a heap but the first ranks before the first.
proof fn lemma_first_ranks_last(scores: Seq<i64>, heap: Seq<usize>, i: int)
    requires
        is_heap(scores, heap),
        0 < i < heap.len(),
    ensures
        ranks_before(scores, heap[i] as int, heap[0] as int),
    decreases i,
{
    if parent(i) != 0 {
        lemma_first_ranks_last(scores, heap, parent(i));
    }
}

/// Whether candidate `a` ranks before candidate `b`.
fn is_before(scores: &[i64], a: usize, b: usize) -> (r: bool)
    requires
        a < scores@.len(),
        b < scores@.len(),
    ensures
        r == ranks_before(scores@, a as int, b as int),
{
    scores[a] > scores[b] || (scores[a] == scores[b] && a < b)
}

/// Exchanges the entries at `a` and `b`.
fn swap_entries(heap: &mut Vec<usize>, a: usize, b: usize)
    requires
        a < old(heap)@.len(),
        b < old(heap)@.len(),
    ensures
        final(heap)@ == swapped(old(heap)@, a as int, b as int),
{
    let x: usize = heap[a];
    let y: usize = heap[b];
    heap.set(a, y);
    heap.set(b, x);
}

/// Restores the heap order after the first entry was replaced: the entry
/// moves down until the entries below it rank before it.
fn sift_down(scores: &[i64], heap: &mut Vec<usize>)
    requires
        in_range(scores@, old(heap)@),
        old(heap)@.no_duplicates(),
        is_heap_below(scores@, old(heap)@, 0),
    ensures
        is_heap(scores@, final(heap)@),
        in_range(scores@, final(heap)@),
        final(heap)@.no_duplicates(),
        final(heap)@.len() == old(heap)@.len(),
        final(heap)@.to_set() == old(heap)@.to_set(),
{
    let n: usize = heap.len();
    let mut pos: usize = 0;
    while pos < n / 2
        invariant
            n == heap@.len(),
            in_range(scores@, heap@),
            heap@.no_duplicates(),
            is_heap_below(scores@, heap@, pos as int),
            heap@.to_set() == old(heap)@.to_set(),
        ensures
            n == heap@.len(),
            in_range(scores@, heap@),
            heap@.no_duplicates(),
            is_heap(scores@, heap@),
            heap@.to_set() == old(heap)@.to_set(),
        decreases n - pos,
    {
        let left: usize = 2 * pos + 1;
        let right: usize = left + 1;
        let mut last: usize = left;
        if right < n && is_before(scores, heap[left], heap[right]) {
            last = right;
        }
        if is_before(scores, heap[last], heap[pos]) {
            proof {
                let h = heap@;
                assert forall|i: int| 0 < i < h.len() implies ranks_before(
                    scores@,
                    #[trigger] h[i] as int,
                    h[parent(i)] as int,
                ) by {
                    if parent(i) == pos {
                        assert(i == left || i == right);
                        assert(h[left as int] != h[pos as int]);
                        if right < n {
                            assert(h[left as int] != h[right as int]);
                            assert(h[right as int] != h[pos as int]);
                        }
                    }
                }
            }
            break;
        }
        let ghost before = heap@;
        swap_entries(heap, pos, last);
        proof {
            lemma_swapped(before, pos as int, last as int);
            let h = heap@;
            assert(before[last as int] != before[pos as int]);
            if right < n {
                assert(before[left as int] != before[right as int]);
            }
            assert forall|i: int| 0 < i < h.len() && parent(i) != last implies ranks_before(
                scores@,
                #[trigger] h[i] as int,
                h[parent(i)] as int,
            ) by {
                if i == pos {
                    assert(parent(last as int) == pos);
                    assert(ranks_before(
                        scores@,
                        before[last as int] as int,
                        before[parent(pos as int)] as int,
                    ));
                } else if parent(i) == pos {
                    assert(i == left || i == right);
                } else {
                    assert(h[i] == before[i]);
                    assert(h[parent(i)] == before[parent(i)]);
                }
            }
            assert forall|c: int| 0 < c < h.len() && parent(c) == last implies ranks_before(
                scores@,
                #[trigger] h[c] as int,
                h[parent(last as int)] as int,
            ) by {
                assert(h[c] == before[c]);
                assert(h[parent(last as int)] == before[last as int]);
            }
        }
        pos = last;
    }
}

/// Restores the heap order after an entry was added at the end: the entry
/// moves up until it ranks before the entry above it.
fn sift_up(scores: &[i64], heap: &mut Vec<usize>)
    requires
        old(heap)@.len() > 0,
        in_range(scores@, old(heap)@),
        old(heap)@.no_duplicates(),
        is_heap_above(scores@, old(heap)@, old(heap)@.len() - 1),
    ensures
        is_heap(scores@, final(heap)@),
        in_range(scores@, final(heap)@),
        final(heap)@.no_duplicates(),
        final(heap)@.len() == old(heap)@.len(),
        final(heap)@.to_set() == old(heap)@.to_set(),
{
    let mut pos: usize = heap.len() - 1;
    while pos > 0
        invariant
            pos < heap@.len(),
            heap@.len() == old(heap)@.len(),
            in_range(scores@, heap@),
            heap@.no_duplicates(),
            is_heap_above(scores@, heap@, pos as int),
            heap@.to_set() == old(heap)@.to_set(),
        ensures
            heap@.len() == old(heap)@.len(),
            in_range(scores@, heap@),
            heap@.no_duplicates(),
            is_heap(scores@, heap@),
            heap@.to_set() == old(heap)@.to_set(),
        decreases pos,
    {
        let above: usize = (pos - 1) / 2;
        if is_before(scores, heap[pos], heap[above]) {
            break;
        }
        let ghost before = heap@;
        swap_entries(heap, pos, above);
        proof {
            lemma_swapped(before, pos as int, above as int);
            let h = heap@;
            assert(before[pos as int] != before[above as int]);
            assert forall|i: int| 0 < i < h.len() && i != above implies ranks_before(
                scores@,
                #[trigger] h[i] as int,
                h[parent(i)] as int,
            ) by {
                if i == pos {
                } else if parent(i) == pos {
                    assert(ranks_before(scores@, before[i] as int, before[above as int] as int));
                } else if parent(i) == above {
                    assert(ranks_before(scores@, before[i] as int, before[above as int] as int));
                } else {
                    assert(h[i] == before[i]);
                    assert(h[parent(i)] == before[parent(i)]);
                }
            }
            if above > 0 {
                assert forall|c: int| 0 < c < h.len() && parent(c) == above implies ranks_before(
                    scores@,
                    #[trigger] h[c] as int,
                    h[parent(above as int)] as int,
                ) by {
                    assert(ranks_before(
                        scores@,
                        before[above as int] as int,
                        before[parent(above as int)] as int,
                    ));
                    if c != pos {
                        assert(ranks_before(scores@, before[c] as int, before[above as int] as int));
                    }
                }
            }
        }
        pos = above;
    }
}

/// The heap holds the best of the first `seen` candidates, at most `k` of them.
spec fn holds_best(scores: Seq<i64>, k: nat, heap: Seq<usize>, seen: int) -> bool {
    &&& heap.len() == selection_len(k, seen as nat)
    &&& heap.no_duplicates()
    &&& in_range(scores, heap)
    &&& is_heap(scores, heap)
    &&& forall|i: int| 0 <= i < heap.len() ==> heap[i] < seen
    &&& seen <= k ==> forall|c: usize| c < seen ==> heap.contains(c)
    &&& forall|c: usize, x: usize|
        c < seen && !heap.contains(c) && heap.contains(x) ==> ranks_before(
            scores,
            x as int,
            c as int,
        )
}

/// Takes candidate `c` into the heap if it is among the best `k` so far.
fn offer(scores: &[i64], k: usize, heap: &mut Vec<usize>, c: usize)
    requires
        c < scores@.len(),
        holds_best(scores@, k as nat, old(heap)@, c as int),
    ensures
        holds_best(scores@, k as nat, final(heap)@, c + 1),
{
    let ghost before = heap@;
    if heap.len() < k {
        heap.push(c);
        proof {
            let h = heap@;
            assert(h == before.push(c));
            assert forall|i: int, j: int|
                0 <= i < h.len() && 0 <= j < h.len() && i != j implies h[i] != h[j] by {}
            assert forall|i: int| 0 < i < h.len() && i != h.len() - 1 implies ranks_before(
                scores@,
                #[trigger] h[i] as int,
                h[parent(i)] as int,
            ) by {
                assert(h[i] == before[i]);
                assert(h[parent(i)] == before[parent(i)]);
            }
            assert(is_heap_above(scores@, h, h.len() - 1));
        }
        let ghost pushed = heap@;
        sift_up(scores, heap);
        proof {
            let h = heap@;
            assert forall|x: usize| h.contains(x) == (before.contains(x) || x == c) by {
                assert(h.to_set().contains(x) == pushed.to_set().contains(x));
                if before.contains(x) {
                    let i = choose|i: int| 0 <= i < before.len() && before[i] == x;
                    assert(pushed[i] == x);
                }
                if x == c {
                    assert(pushed[pushed.len() - 1] == x);
                }
            }
            assert forall|i: int| 0 <= i < h.len() implies h[i] < c + 1 by {
                assert(h.contains(h[i]));
            }
            assert forall|d: usize| d < c + 1 implies h.contains(d) by {
                if d < c {
                    assert(before.contains(d));
                }
            }
        }
    } else if k > 0 && is_before(scores, c, heap[0]) {
        let ghost first = before[0];
        heap.set(0, c);
        proof {
            let h = heap@;
            assert forall|i: int, j: int|
                0 <= i < h.len() && 0 <= j < h.len() && i != j implies h[i] != h[j] by {
                if i != 0 && j != 0 {
                    assert(before[i] != before[j]);
                }
            }
            assert forall|i: int| 0 < i < h.len() && parent(i) != 0 implies ranks_before(
                scores@,
                #[trigger] h[i] as int,
                h[parent(i)] as int,
            ) by {
                assert(h[i] == before[i]);
                assert(h[parent(i)] == before[parent(i)]);
            }
            assert(is_heap_below(scores@, h, 0));
        }
        let ghost replaced = heap@;
        sift_down(scores, heap);
        proof {
            let h = heap@;
            assert forall|x: usize| h.contains(x) == ((before.contains(x) && x != first) || x
                == c) by {
                assert(h.to_set().contains(x) == replaced.to_set().contains(x));
                if before.contains(x) && x != first {
                    let i = choose|i: int| 0 <= i < before.len() && before[i] == x;
                    assert(replaced[i] == x);
                }
                if x == c {
                    assert(replaced[0] == x);
                }
                if replaced.contains(x) && x != c {
                    let i = choose|i: int| 0 <= i < replaced.len() && replaced[i] == x;
                    assert(before[i] == x);
                    assert(i != 0);
                }
            }
            assert forall|i: int| 0 <= i < h.len() implies h[i] < c + 1 by {
                assert(h.contains(h[i]));
            }
            assert(before.contains(first));
            assert forall|d: usize, x: usize|
                d < c + 1 && !h.contains(d) && h.contains(x) implies ranks_before(
                scores@,
                x as int,
                d as int,
            ) by {
                if d == first {
                    if x != c {
                        let i = choose|i: int| 0 <= i < before.len() && before[i] == x;
                        lemma_first_ranks_last(scores@, before, i);
                    }
                } else {
                    assert(!before.contains(d));
                    assert(ranks_before(scores@, first as int, d as int));
                    if x != c {
                        assert(ranks_before(scores@, x as int, d as int));
                    }
                }
            }
        }
    } else {
        proof {
            assert forall|d: usize, x: usize|
                d < c + 1 && !before.contains(d) && before.contains(x) implies ranks_before(
                scores@,
                x as int,
                d as int,
            ) by {
                if d == c {
                    let i = choose|i: int| 0 <= i < before.len() && before[i] == x;
                    assert(before[0] < c);
                    if i != 0 {
                        lemma_first_ranks_last(scores@, before, i);
                    }
                }
            }
        }
    }
}

/// Removes from the heap the entry that ranks last, and returns it.
fn take_last(scores: &[i64], heap: &mut Vec<usize>) -> (r: usize)
    requires
        old(heap)@.len() > 0,
        in_range(scores@, old(heap)@),
        old(heap)@.no_duplicates(),
        is_heap(scores@, old(heap)@),
    ensures
        is_heap(scores@, final(heap)@),
        in_range(scores@, final(heap)@),
        final(heap)@.no_duplicates(),
        final(heap)@.len() == old(heap)@.len() - 1,
        old(heap)@.contains(r),
        !final(heap)@.contains(r),
        forall|x: usize| final(heap)@.contains(x) == (old(heap)@.contains(x) && x != r),
        forall|x: usize| final(heap)@.contains(x) ==> ranks_before(scores@, x as int, r as int),
{
    let ghost before = heap@;
    let n: usize = heap.len();
    let r: usize = heap[0];
    swap_entries(heap, 0, n - 1);
    let ghost exchanged = heap@;
    proof {
        lemma_swapped(before, 0, n - 1);
    }
    heap.pop();
    let ghost rest = heap@;
    proof {
        assert(rest =~= exchanged.take(n - 1));
        assert forall|i: int| 0 < i < rest.len() && parent(i) != 0 implies ranks_before(
            scores@,
            #[trigger] rest[i] as int,
            rest[parent(i)] as int,
        ) by {
            assert(rest[i] == before[i]);
            assert(rest[parent(i)] == before[parent(i)]);
        }
        assert(is_heap_below(scores@, rest, 0));
        assert forall|x: usize| rest.contains(x) == (before.contains(x) && x != r) by {
            if rest.contains(x) {
                let i = choose|i: int| 0 <= i < rest.len() && rest[i] == x;
                assert(exchanged[i] == x);
                assert(exchanged.contains(x));
                assert(exchanged.to_set().contains(x));
                assert(before.to_set().contains(x));
                assert(exchanged[n - 1] == r);
            }
            if before.contains(x) && x != r {
                assert(before.to_set().contains(x));
                assert(exchanged.to_set().contains(x));
                let i = choose|i: int| 0 <= i < exchanged.len() && exchanged[i] == x;
                assert(i != n - 1);
                assert(rest[i] == x);
            }
        }
    }
    sift_down(scores, heap);
    proof {
        let h = heap@;
        assert forall|x: usize| h.contains(x) == (before.contains(x) && x != r) by {
            assert(h.to_set().contains(x) == rest.to_set().contains(x));
        }
        assert forall|x: usize| h.contains(x) implies ranks_before(
            scores@,
            x as int,
            r as int,
        ) by {
            let i = choose|i: int| 0 <= i < before.len() && before[i] == x;
            lemma_first_ranks_last(scores@, before, i);
        }
        assert(before[0] == r);
    }
    r
}

/// Returns the `k` best scoring candidates, best first.
///
/// Candidate `i` has the score `scores[i]`. A higher score is better, and of
/// two candidates with equal scores the one with the lower index. The result
/// holds `k` candidates, or all of them where there are fewer than `k`.
///
/// The candidates are offered one by one to a heap that keeps at most `k` of
/// them, so that the work grows with the logarithm of `k` for each candidate.
pub fn get_largest(scores: &[i64], k: usize) -> (top: Vec<usize>)
    ensures
        is_top_k(scores@, k as nat, top@),
{
    let n: usize = scores.len();
    let mut heap: Vec<usize> = Vec::new();
    let mut c: usize = 0;
    while c < n
        invariant
            c <= n,
            n == scores@.len(),
            holds_best(scores@, k as nat, heap@, c as int),
        decreases n - c,
    {
        offer(scores, k, &mut heap, c);
        c += 1;
    }
    let ghost kept = heap@;
    let mut worst_first: Vec<usize> = Vec::new();
    while heap.len() > 0
        invariant
            in_range(scores@, heap@),
            heap@.no_duplicates(),
            is_heap(scores@, heap@),
            heap@.len() + worst_first@.len() == kept.len(),
            holds_best(scores@, k as nat, kept, scores@.len() as int),
            forall|x: usize| kept.contains(x) == (heap@.contains(x) || worst_first@.contains(x)),
            forall|i: int| 0 <= i < worst_first@.len() ==> !heap@.contains(worst_first@[i]),
            forall|i: int, x: usize|
                0 <= i < worst_first@.len() && heap@.contains(x) ==> ranks_before(
                    scores@,
                    x as int,
                    worst_first@[i] as int,
                ),
            forall|i: int, j: int|
                0 <= i < j < worst_first@.len() ==> ranks_before(
                    scores@,
                    worst_first@[j] as int,
                    worst_first@[i] as int,
                ),
        decreases heap@.len(),
    {
        let ghost heap_before = heap@;
        let ghost list_before = worst_first@;
        let r: usize = take_last(scores, &mut heap);
        worst_first.push(r);
        proof {
            let list = worst_first@;
            assert forall|x: usize| kept.contains(x) == (heap@.contains(x) || list.contains(
                x,
            )) by {
                if list_before.contains(x) {
                    let i = choose|i: int| 0 <= i < list_before.len() && list_before[i] == x;
                    assert(list[i] == x);
                }
                if x == r {
                    assert(list[list.len() - 1] == x);
                }
                if list.contains(x) {
                    let i = choose|i: int| 0 <= i < list.len() && list[i] == x;
                    if i < list_before.len() {
                        assert(list_before[i] == x);
                    }
                }
            }
            assert forall|i: int| 0 <= i < list.len() implies !heap@.contains(list[i]) by {
                if i < list_before.len() {
                    assert(list[i] == list_before[i]);
                }
            }
            assert forall|i: int, x: usize|
                0 <= i < list.len() && heap@.contains(x) implies ranks_before(
                scores@,
                x as int,
                list[i] as int,
            ) by {
                if i < list_before.len() {
                    assert(list[i] == list_before[i]);
                    assert(heap_before.contains(x));
                }
            }
            assert forall|i: int, j: int| 0 <= i < j < list.len() implies ranks_before(
                scores@,
                list[j] as int,
                list[i] as int,
            ) by {
                assert(list[i] == list_before[i]);
                if j < list_before.len() {
                    assert(list[j] == list_before[j]);
                } else {
                    assert(heap_before.contains(r));
                }
            }
        }
    }
    let m: usize = worst_first.len();
    let mut top: Vec<usize> = Vec::new();
    let mut t: usize = 0;
    while t < m
        invariant
            t <= m,
            m == worst_first@.len(),
            m == kept.len(),
            top@.len() == t,
            forall|i: int| 0 <= i < t ==> top@[i] == worst_first@[m - 1 - i],
            holds_best(scores@, k as nat, kept, scores@.len() as int),
            forall|x: usize| kept.contains(x) == worst_first@.contains(x),
            forall|i: int, j: int|
                0 <= i < j < worst_first@.len() ==> ranks_before(
                    scores@,
                    worst_first@[j] as int,
                    worst_first@[i] as int,
                ),
        decreases m - t,
    {
        top.push(worst_first[m - 1 - t]);
        t += 1;
    }
    proof {
        let list = worst_first@;
        assert forall|i: int| 0 <= i < top@.len() implies top@[i] < scores@.len() by {
            assert(list.contains(list[m - 1 - i]));
            assert(kept.contains(top@[i]));
            let p = choose|p: int| 0 <= p < kept.len() && kept[p] == top@[i];
        }
        assert forall|x: usize, i: int|
            x < scores@.len() && !top@.contains(x) && 0 <= i < top@.len() implies ranks_before(
            scores@,
            top@[i] as int,
            x as int,
        ) by {
            assert(list.contains(list[m - 1 - i]));
            assert(kept.contains(top@[i]));
            if kept.contains(x) {
                assert(list.contains(x));
                let p = choose|p: int| 0 <= p < list.len() && list[p] == x;
                assert(top@[m - 1 - p] == x);
            }
        }
    }
    top
}

/// A selection never lists a candidate twice.
pub proof fn lemma_top_k_distinct(scores: Seq<i64>, k: nat, top: Seq<usize>)
    requires
        is_top_k(scores, k, top),
    ensures
        top.no_duplicates(),
{
    assert forall|i: int, j: int| 0 <= i < top.len() && 0 <= j < top.len() && i != j implies top[i]
        != top[j] by {
        if i < j {
            assert(ranks_before(scores, top[i] as int, top[j] as int));
        } else {
            assert(ranks_before(scores, top[j] as int, top[i] as int));
        }
    }
}

/// Every candidate of one selection is a candidate of any other selection of
/// the same size from the same scores.
proof fn lemma_top_k_same_candidates(scores: Seq<i64>, k: nat, a: Seq<usize>, b: Seq<usize>)
    requires
        is_top_k(scores, k, a),
        is_top_k(scores, k, b),
    ensures
        forall|x: usize| a.contains(x) ==> b.contains(x),
{
    lemma_top_k_distinct(scores, k, a);
    lemma_top_k_distinct(scores, k, b);
    a.unique_seq_to_set();
    b.unique_seq_to_set();
    vstd::seq_lib::seq_to_set_is_finite(a);
    vstd::seq_lib::seq_to_set_is_finite(b);
    assert forall|x: usize| a.contains(x) implies b.contains(x) by {
        if !b.contains(x) {
            let at = choose|i: int| 0 <= i < a.len() && a[i] == x;
            if b.to_set().subset_of(a.to_set()) {
                vstd::set_lib::lemma_subset_equality(b.to_set(), a.to_set());
                assert(a.to_set().contains(x));
                assert(b.to_set().contains(x));
            } else {
                let y = choose|y: usize| b.to_set().contains(y) && !a.to_set().contains(y);
                assert(b.contains(y) && !a.contains(y));
                let of = choose|i: int| 0 <= i < b.len() && b[i] == y;
                assert(ranks_before(scores, a[at] as int, y as int));
                assert(ranks_before(scores, b[of] as int, x as int));
            }
        }
    }
}

/// Two selections of the same size from the same scores agree up to any place.
proof fn lemma_top_k_same_prefix(scores: Seq<i64>, k: nat, a: Seq<usize>, b: Seq<usize>, n: int)
    requires
        is_top_k(scores, k, a),
        is_top_k(scores, k, b),
        0 <= n <= a.len(),
    ensures
        forall|i: int| 0 <= i < n ==> a[i] == b[i],
    decreases n,
{
    if n > 0 {
        let i = n - 1;
        lemma_top_k_same_prefix(scores, k, a, b, i);
        lemma_top_k_same_candidates(scores, k, a, b);
        lemma_top_k_same_candidates(scores, k, b, a);
        lemma_top_k_distinct(scores, k, a);
        lemma_top_k_distinct(scores, k, b);
        assert(a.contains(a[i]));
        assert(b.contains(b[i]));
        let j = choose|j: int| 0 <= j < b.len() && b[j] == a[i];
        let l = choose|l: int| 0 <= l < a.len() && a[l] == b[i];
        if j < i {
            assert(a[j] == b[j]);
        } else if l < i {
            assert(b[l] == a[l]);
        } else if j > i && l > i {
            assert(ranks_before(scores, b[i] as int, b[j] as int));
            assert(ranks_before(scores, a[i] as int, a[l] as int));
        }
    }
}

/// The scores determine the selection: there is one list of the `k` best.
pub proof fn lemma_top_k_unique(scores: Seq<i64>, k: nat, a: Seq<usize>, b: Seq<usize>)
    requires
        is_top_k(scores, k, a),
        is_top_k(scores, k, b),
    ensures
        a == b,
{
    lemma_top_k_same_prefix(scores, k, a, b, a.len() as int);
    assert(a =~= b);
}

/// The scores of a selection never increase from one place to the next.
pub proof fn lemma_top_k_descending(scores: Seq<i64>, k: nat, top: Seq<usize>, i: int, j: int)
    requires
        is_top_k(scores, k, top),
        0 <= i <= j < top.len(),
    ensures
        scores[top[i] as int] >= scores[top[j] as int],
{
    if i < j {
        assert(ranks_before(scores, top[i] as int, top[j] as int));
    }
}

/// No candidate that a selection leaves out has a higher score than one that
/// it holds: the highest score left out is at most the lowest score selected.
pub proof fn lemma_top_k_bounds_the_rest(
    scores: Seq<i64>,
    k: nat,
    top: Seq<usize>,
    i: int,
    c: usize,
)
    requires
        is_top_k(scores, k, top),
        0 <= i < top.len(),
        c < scores.len(),
        !top.contains(c),
    ensures
        scores[c as int] <= scores[top[i] as int],
{
    assert(ranks_before(scores, top[i] as int, c as int));
}

} // verus!
