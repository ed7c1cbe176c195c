use vstd::prelude::*;

use crate::data::NextLink;

verus! {

/// Link order: by timestamp, then by slot.
pub open spec fn link_lt(a: NextLink, b: NextLink) -> bool {
    a.ts < b.ts || (a.ts == b.ts && a.tweet_idx < b.tweet_idx)
}

/// The entry at `j` is no greater than its parent's.
pub open spec fn below_parent(s: Seq<NextLink>, j: int) -> bool {
    !link_lt(s[(j - 1) / 2], s[j])
}

/// `s` is a binary max-heap in array layout.
pub open spec fn is_heap(s: Seq<NextLink>) -> bool {
    forall|j: int| 0 < j < s.len() ==> #[trigger] below_parent(s, j)
}

/// The first entry of a heap is a greatest one.
pub proof fn lemma_heap_root_max(s: Seq<NextLink>, k: int)
    requires
        is_heap(s),
        0 <= k < s.len(),
    ensures
        !link_lt(s[0], s[k]),
    decreases k,
{
    if k > 0 {
        assert(below_parent(s, k));
        lemma_heap_root_max(s, (k - 1) / 2);
    }
}

fn lt(a: NextLink, b: NextLink) -> (r: bool)
    ensures
        r == link_lt(a, b),
{
    a.ts < b.ts || (a.ts == b.ts && a.tweet_idx < b.tweet_idx)
}

fn swap_entries(v: &mut Vec<NextLink>, a: usize, b: usize)
    requires
        a < old(v)@.len(),
        b < old(v)@.len(),
    ensures
        final(v)@ == old(v)@.update(a as int, old(v)@[b as int]).update(b as int, old(v)@[a as int]),
        forall|x: NextLink| final(v)@.contains(x) <==> old(v)@.contains(x),
{
    let x = v[a];
    let y = v[b];
    v[a] = y;
    v[b] = x;
    proof {
        let s = old(v)@;
        assert forall|x: NextLink| v@.contains(x) implies s.contains(x) by {
            let t = choose|t: int| 0 <= t < v@.len() && v@[t] == x;
            if t == a {
                assert(s[b as int] == x);
            } else if t == b {
                assert(s[a as int] == x);
            } else {
                assert(s[t] == x);
            }
        }
        assert forall|x: NextLink| s.contains(x) implies v@.contains(x) by {
            let t = choose|t: int| 0 <= t < s.len() && s[t] == x;
            if t == a {
                assert(v@[b as int] == x);
            } else if t == b {
                assert(v@[a as int] == x);
            } else {
                assert(v@[t] == x);
            }
        }
    }
}

/// Adds `x` to the heap `v`.
pub fn heap_push(v: &mut Vec<NextLink>, x: NextLink)
    requires
        is_heap(old(v)@),
    ensures
        is_heap(final(v)@),
        final(v)@.len() == old(v)@.len() + 1,
        forall|y: NextLink| final(v)@.contains(y) <==> (old(v)@.contains(y) || y == x),
{
    let ghost s0 = v@;
    v.push(x);
    proof {
        assert forall|y: NextLink| v@.contains(y) <==> (s0.contains(y) || y == x) by {
            if v@.contains(y) && y != x {
                let t = choose|t: int| 0 <= t < v@.len() && v@[t] == y;
                assert(s0[t] == y);
            }
            if s0.contains(y) {
                let t = choose|t: int| 0 <= t < s0.len() && s0[t] == y;
                assert(v@[t] == y);
            }
            if y == x {
                assert(v@[s0.len() as int] == y);
            }
        }
        assert forall|j: int| 0 < j < v@.len() && j != s0.len() implies #[trigger] below_parent(v@, j) by {
            assert(below_parent(s0, j));
        }
    }
    let mut i: usize = v.len() - 1;
    let mut done = false;
    while i > 0 && !done
        invariant
            i < v@.len(),
            v@.len() == s0.len() + 1,
            forall|y: NextLink|
                #![trigger v@.contains(y)]
                #![trigger s0.contains(y)]
                v@.contains(y) <==> (s0.contains(y) || y == x),
            forall|j: int| 0 < j < v@.len() && j != i ==> #[trigger] below_parent(v@, j),
            i > 0 ==> forall|c: int|
                0 < c < v@.len() && (c - 1) / 2 == i ==> !link_lt(v@[(i - 1) / 2], #[trigger] v@[c]),
            done ==> is_heap(v@),
        decreases i, if done { 0int } else { 1int },
    {
        let p = (i - 1) / 2;
        if lt(v[p], v[i]) {
            let ghost before = v@;
            swap_entries(v, p, i);
            proof {
                assert(v@ == before.update(p as int, before[i as int]).update(i as int, before[p as int]));
                assert forall|y: NextLink| v@.contains(y) <==> (s0.contains(y) || y == x) by {
                    assert(v@.contains(y) <==> before.contains(y));
                }
                assert forall|j: int| 0 < j < v@.len() && j != p implies #[trigger] below_parent(v@, j) by {
                    if j == i {
                    } else if (j - 1) / 2 == i {
                        assert(!link_lt(before[p as int], before[j]));
                    } else if (j - 1) / 2 == p {
                        assert(below_parent(before, j));
                    } else if j == p {
                    } else {
                        assert(below_parent(before, j));
                    }
                }
                if p > 0 {
                    assert(below_parent(before, p as int));
                    assert forall|c: int| 0 < c < v@.len() && (c - 1) / 2 == p implies !link_lt(
                        v@[(p - 1) / 2],
                        #[trigger] v@[c],
                    ) by {
                        if c != i {
                            assert(below_parent(before, c));
                        }
                    }
                }
            }
            i = p;
        } else {
            done = true;
            proof {
                assert forall|j: int| 0 < j < v@.len() implies #[trigger] below_parent(v@, j) by {}
            }
        }
    }
}

/// Removes a greatest entry from the heap `v` and returns it.
pub fn heap_pop(v: &mut Vec<NextLink>) -> (r: NextLink)
    requires
        is_heap(old(v)@),
        old(v)@.len() > 0,
    ensures
        is_heap(final(v)@),
        old(v)@.contains(r),
        final(v)@.len() == old(v)@.len() - 1,
        forall|k: int| 0 <= k < old(v)@.len() ==> !link_lt(r, #[trigger] old(v)@[k]),
        forall|x: NextLink| final(v)@.contains(x) ==> old(v)@.contains(x),
        forall|x: NextLink| old(v)@.contains(x) && x != r ==> final(v)@.contains(x),
{
    let ghost s0 = v@;
    proof {
        assert forall|k: int| 0 <= k < s0.len() implies !link_lt(s0[0], #[trigger] s0[k]) by {
            lemma_heap_root_max(s0, k);
        }
    }
    let last = v.len() - 1;
    swap_entries(v, 0, last);
    let ghost s1 = v@;
    let r = v.pop().unwrap();
    proof {
        assert(s0.contains(r)) by {
            assert(s0[0] == r);
        }
        assert forall|x: NextLink| v@.contains(x) implies s0.contains(x) by {
            let t = choose|t: int| 0 <= t < v@.len() && v@[t] == x;
            assert(s1[t] == x);
            assert(s1.contains(x));
        }
        assert forall|x: NextLink| s0.contains(x) && x != r implies v@.contains(x) by {
            assert(s1.contains(x));
            let t = choose|t: int| 0 <= t < s1.len() && s1[t] == x;
            assert(v@[t] == x);
        }
        assert forall|j: int| 0 < j < v@.len() && (j - 1) / 2 != 0 implies #[trigger] below_parent(v@, j) by {
            assert(below_parent(s0, j));
        }
    }
    let ghost s2 = v@;
    let n = v.len();
    let mut i: usize = 0;
    let mut done = false;
    while !done
        invariant
            n == v@.len(),
            n == s2.len(),
            i < n || n == 0,
            forall|x: NextLink| v@.contains(x) <==> s2.contains(x),
            forall|j: int| 0 < j < v@.len() && (j - 1) / 2 != i ==> #[trigger] below_parent(v@, j),
            i > 0 ==> forall|c: int|
                0 < c < v@.len() && (c - 1) / 2 == i ==> !link_lt(v@[(i - 1) / 2], #[trigger] v@[c]),
            done ==> is_heap(v@),
        decreases n - i, if done { 0int } else { 1int },
    {
        if i >= n / 2 {
            done = true;
            proof {
                assert forall|j: int| 0 < j < v@.len() implies #[trigger] below_parent(v@, j) by {}
            }
        } else {
            let l = 2 * i + 1;
            let mut largest = i;
            if lt(v[largest], v[l]) {
                largest = l;
            }
            if l + 1 < n && lt(v[largest], v[l + 1]) {
                largest = l + 1;
            }
            if largest == i {
                done = true;
                proof {
                    assert forall|j: int| 0 < j < v@.len() implies #[trigger] below_parent(v@, j) by {
                        if (j - 1) / 2 == i {
                            assert(j == l || j == l + 1);
                        }
                    }
                }
            } else {
                let ghost before = v@;
                swap_entries(v, i, largest);
                proof {
                    assert(i < largest < n);
                    assert forall|y: NextLink| v@.contains(y) <==> s2.contains(y) by {
                        assert(v@.contains(y) <==> before.contains(y));
                    }
                    assert forall|j: int| 0 < j < v@.len() && (j - 1) / 2 != largest implies #[trigger] below_parent(v@, j) by {
                        if j == largest {
                        } else if (j - 1) / 2 == i {
                            assert(j == l || j == l + 1);
                        } else if j == i {
                        } else {
                            assert(below_parent(before, j));
                        }
                    }
                    assert forall|c: int| 0 < c < v@.len() && (c - 1) / 2 == largest implies !link_lt(
                        v@[(largest - 1) / 2],
                        #[trigger] v@[c],
                    ) by {
                        assert(below_parent(before, c));
                    }
                }
                i = largest;
            }
        }
    }
    r
}

} // verus!
