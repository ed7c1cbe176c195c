use vstd::prelude::*;

use crate::data::{NextLink, Timestamp, Tweet, TweetIdx, UserIdx};
use crate::link_heap::{heap_pop, heap_push, is_heap, link_lt};
use crate::store::{lemma_newest_first_members, Datastore};

verus! {

/// A viewer's timeline: posts, newest first.
pub struct Timeline<'a> {
    pub tweets: &'a [Tweet],
}

/// Post order on slots of `d`: by timestamp, then by slot.
pub open spec fn key_lt(d: &Datastore, a: int, b: int) -> bool {
    d.tweets@[a].tweet.ts < d.tweets@[b].tweet.ts || (d.tweets@[a].tweet.ts
        == d.tweets@[b].tweet.ts && a < b)
}

/// The post at slot `q` belongs on `viewer`'s timeline: its author is one of
/// the viewer's followees and it is no older than `after`.
pub open spec fn in_view(d: &Datastore, viewer: int, after: Timestamp, q: int) -> bool {
    &&& 0 <= q < d.tweets@.len()
    &&& d.graph.follows_of(d.graph.users@[viewer]).contains(d.authors@[q])
    &&& d.tweets@[q].tweet.ts >= after
}

/// `ids` lists the most recent posts of `viewer`'s timeline, newest first:
/// at most `max_len` of them, and fewer only when no other post qualifies.
pub open spec fn is_timeline(
    d: &Datastore,
    viewer: int,
    max_len: int,
    after: Timestamp,
    ids: Seq<int>,
) -> bool {
    &&& ids.len() <= max_len
    &&& forall|k: int| 0 <= k < ids.len() ==> in_view(d, viewer, after, #[trigger] ids[k])
    &&& forall|i: int, j: int| 0 <= i < j < ids.len() ==> key_lt(d, #[trigger] ids[j], #[trigger] ids[i])
    &&& forall|q: int|
        #![trigger in_view(d, viewer, after, q)]
        in_view(d, viewer, after, q) && !ids.contains(q) ==> ids.len() == max_len && (ids.len() > 0
            ==> key_lt(d, q, ids.last()))
}

/// The posts at the slots `ids`.
pub open spec fn posts_at(d: &Datastore, ids: Seq<int>) -> Seq<Tweet> {
    ids.map_values(|i: int| d.tweets@[i].tweet)
}

/// `r` is the timeline of `viewer` with at most `max_len` posts no older
/// than `after`.
pub open spec fn is_fetch_result(
    d: &Datastore,
    viewer: int,
    max_len: int,
    after: Timestamp,
    r: Seq<Tweet>,
) -> bool {
    exists|ids: Seq<int>| is_timeline(d, viewer, max_len, after, ids) && r == posts_at(d, ids)
}

/// Every link in `heap` names a post of `viewer`'s timeline.
pub open spec fn frontier_ok(d: &Datastore, viewer: int, after: Timestamp, heap: Seq<NextLink>) -> bool {
    forall|k: int|
        0 <= k < heap.len() ==> {
            &&& #[trigger] heap[k] == d.link_at(heap[k].tweet_idx as int)
            &&& in_view(d, viewer, after, heap[k].tweet_idx as int)
        }
}

/// `new` holds what `old` holds, and `link` too when it is present and no
/// older than `after`.
pub open spec fn queued_after(old: Seq<NextLink>, new: Seq<NextLink>, link: Option<NextLink>, after: Timestamp) -> bool {
    forall|y: NextLink|
        #![trigger new.contains(y)]
        #![trigger old.contains(y)]
        new.contains(y) <==> (old.contains(y) || (link matches Some(l) && l.ts >= after && y == l))
}

/// Slot `q` lies on the chain of some link in `heap`.
pub open spec fn covered(d: &Datastore, heap: Seq<NextLink>, q: int) -> bool {
    exists|k: int| 0 <= k < heap.len() && d.chain(#[trigger] heap[k].tweet_idx as int).contains(q)
}

/// Two timelines for the same arguments agree on their first `n` slots.
proof fn lemma_timeline_prefix(
    d: &Datastore,
    viewer: int,
    max_len: int,
    after: Timestamp,
    a: Seq<int>,
    b: Seq<int>,
    n: int,
)
    requires
        is_timeline(d, viewer, max_len, after, a),
        is_timeline(d, viewer, max_len, after, b),
        0 <= n <= a.len(),
        n <= b.len(),
    ensures
        forall|i: int| 0 <= i < n ==> a[i] == b[i],
    decreases n,
{
    if n > 0 {
        lemma_timeline_prefix(d, viewer, max_len, after, a, b, n - 1);
        let k = n - 1;
        if a[k] != b[k] {
            lemma_timeline_step(d, viewer, max_len, after, a, b, k);
            lemma_timeline_step(d, viewer, max_len, after, b, a, k);
        }
    }
}

/// Where two timelines first differ, neither slot can come after the other.
proof fn lemma_timeline_step(
    d: &Datastore,
    viewer: int,
    max_len: int,
    after: Timestamp,
    a: Seq<int>,
    b: Seq<int>,
    k: int,
)
    requires
        is_timeline(d, viewer, max_len, after, a),
        is_timeline(d, viewer, max_len, after, b),
        0 <= k < a.len(),
        k < b.len(),
        forall|i: int| 0 <= i < k ==> a[i] == b[i],
        a[k] != b[k],
    ensures
        !key_lt(d, b[k], a[k]),
{
    if key_lt(d, b[k], a[k]) {
        assert(in_view(d, viewer, after, a[k]));
        if b.contains(a[k]) {
            let t = choose|t: int| 0 <= t < b.len() && b[t] == a[k];
            if t < k {
                assert(a[t] == b[t]);
            } else if t > k {
                assert(key_lt(d, b[t], b[k]));
            }
        } else {
            assert(b[b.len() - 1] == b.last());
            if k < b.len() - 1 {
                assert(key_lt(d, b[b.len() - 1], b[k]));
            }
        }
    }
}

/// Two timelines built for the same viewer, length bound and floor from the
/// same store are identical, whichever fetcher built them and whatever it
/// built before.
pub proof fn lemma_fetch_result_unique(
    d: &Datastore,
    viewer: int,
    max_len: int,
    after: Timestamp,
    r1: Seq<Tweet>,
    r2: Seq<Tweet>,
)
    requires
        is_fetch_result(d, viewer, max_len, after, r1),
        is_fetch_result(d, viewer, max_len, after, r2),
    ensures
        r1 == r2,
{
    let a = choose|ids: Seq<int>| is_timeline(d, viewer, max_len, after, ids) && r1 == posts_at(d, ids);
    let b = choose|ids: Seq<int>| is_timeline(d, viewer, max_len, after, ids) && r2 == posts_at(d, ids);
    if a.len() <= b.len() {
        lemma_timeline_prefix(d, viewer, max_len, after, a, b, a.len() as int);
        if a.len() < b.len() {
            let q = b[a.len() as int];
            assert(in_view(d, viewer, after, q));
            if a.contains(q) {
                let t = choose|t: int| 0 <= t < a.len() && a[t] == q;
                assert(b[t] == q);
                assert(key_lt(d, b[a.len() as int], b[t]));
            }
        }
    } else {
        lemma_timeline_prefix(d, viewer, max_len, after, b, a, b.len() as int);
        let q = a[b.len() as int];
        assert(in_view(d, viewer, after, q));
        if b.contains(q) {
            let t = choose|t: int| 0 <= t < b.len() && b[t] == q;
            assert(a[t] == q);
            assert(key_lt(d, a[b.len() as int], a[t]));
        }
    }
    assert(a =~= b);
}


/// The state of the merge: the queued links and the slots taken so far.
/// Every queued link names a post of the timeline no newer than the last
/// slot taken; the taken slots are timeline posts in strictly decreasing
/// order; every timeline post not yet taken lies on the chain of a queued
/// link; and the predecessor of the last slot taken is queued when it
/// qualifies.
#[verifier::opaque]
pub open spec fn merge_state(
    d: &Datastore,
    viewer: int,
    max_len: int,
    after: Timestamp,
    heap: Seq<NextLink>,
    ids: Seq<int>,
) -> bool {
    &&& frontier_ok(d, viewer, after, heap)
    &&& ids.len() <= max_len
    &&& forall|k: int| 0 <= k < ids.len() ==> in_view(d, viewer, after, #[trigger] ids[k])
    &&& forall|i: int, k: int| 0 <= i < k < ids.len() ==> key_lt(d, #[trigger] ids[k], #[trigger] ids[i])
    &&& ids.len() > 0 ==> forall|k: int|
        0 <= k < heap.len() ==> !key_lt(d, ids.last(), #[trigger] heap[k].tweet_idx as int)
    &&& forall|q: int|
        #![trigger in_view(d, viewer, after, q)]
        in_view(d, viewer, after, q) && !ids.contains(q) ==> covered(d, heap, q)
    &&& ids.len() > 0 ==> (d.prev(ids.last()) matches Some(p) ==> (p.ts >= after ==> heap.contains(p)))
}

/// A fetched timeline is newest first and respects its bounds: timestamps
/// never increase along it, every post in it is no older than `after`, and
/// it holds at most `max_len` posts.
pub proof fn lemma_fetch_result_newest_first(
    d: &Datastore,
    viewer: int,
    max_len: int,
    after: Timestamp,
    r: Seq<Tweet>,
)
    requires
        is_fetch_result(d, viewer, max_len, after, r),
    ensures
        r.len() <= max_len,
        forall|i: int, j: int| 0 <= i < j < r.len() ==> #[trigger] r[j].ts <= #[trigger] r[i].ts,
        forall|k: int| 0 <= k < r.len() ==> #[trigger] r[k].ts >= after,
{
    let ids = choose|ids: Seq<int>| is_timeline(d, viewer, max_len, after, ids) && r == posts_at(d, ids);
    assert forall|i: int, j: int| 0 <= i < j < r.len() implies #[trigger] r[j].ts <= #[trigger] r[i].ts by {
        assert(key_lt(d, ids[j], ids[i]));
    }
    assert forall|k: int| 0 <= k < r.len() implies #[trigger] r[k].ts >= after by {
        assert(in_view(d, viewer, after, ids[k]));
        assert(r[k] == d.tweets@[ids[k]].tweet);
    }
}

/// Once every timeline post lies on a queued chain, the merge can start.
proof fn lemma_merge_start(d: &Datastore, viewer: int, max_len: int, after: Timestamp, heap: Seq<NextLink>)
    requires
        frontier_ok(d, viewer, after, heap),
        max_len >= 0,
        forall|q: int|
            #![trigger in_view(d, viewer, after, q)]
            in_view(d, viewer, after, q) ==> covered(d, heap, q),
    ensures
        merge_state(d, viewer, max_len, after, heap, Seq::empty()),
{
    reveal(merge_state);
}

/// A link taken from the queue names a timeline post no newer than the last
/// slot taken.
proof fn lemma_merge_popped(
    d: &Datastore,
    viewer: int,
    max_len: int,
    after: Timestamp,
    before: Seq<NextLink>,
    ids: Seq<int>,
    m: NextLink,
)
    requires
        merge_state(d, viewer, max_len, after, before, ids),
        before.contains(m),
    ensures
        m == d.link_at(m.tweet_idx as int),
        in_view(d, viewer, after, m.tweet_idx as int),
        ids.len() > 0 ==> !key_lt(d, ids.last(), m.tweet_idx as int),
        ids.len() > 0 ==> 0 <= ids.last() < d.tweets@.len(),
        ids.len() <= max_len,
{
    reveal(merge_state);
    let k = choose|k: int| 0 <= k < before.len() && before[k] == m;
    if ids.len() > 0 {
        assert(in_view(d, viewer, after, ids[ids.len() - 1]));
    }
}

/// What the predecessor link of a post is: the link to an older post of the
/// same author.
proof fn lemma_prev_link(d: &Datastore, i: int)
    requires
        d.wf(),
        0 <= i < d.tweets@.len(),
    ensures
        d.prev(i) matches Some(p) ==> (p == d.link_at(p.tweet_idx as int) && p.tweet_idx < i
            && d.authors@[p.tweet_idx as int] == d.authors@[i] && p.ts <= d.tweets@[i].tweet.ts),
{
    crate::store::lemma_last_by(d.authors@, d.authors@[i], i);
}

/// After taking `m` and queuing its predecessor, the queue holds timeline
/// links no newer than `m`, the predecessor among them when it qualifies.
proof fn lemma_output_queue(
    d: &Datastore,
    viewer: int,
    max_len: int,
    after: Timestamp,
    before: Seq<NextLink>,
    popped: Seq<NextLink>,
    heap: Seq<NextLink>,
    ids: Seq<int>,
    m: NextLink,
)
    requires
        d.wf(),
        merge_state(d, viewer, max_len, after, before, ids),
        ids.len() < max_len,
        before.contains(m),
        forall|k: int| 0 <= k < before.len() ==> !link_lt(m, #[trigger] before[k]),
        forall|x: NextLink| popped.contains(x) ==> before.contains(x),
        forall|x: NextLink| before.contains(x) && x != m ==> popped.contains(x),
        ids.len() > 0 ==> ids.last() != m.tweet_idx as int,
        queued_after(popped, heap, d.prev(m.tweet_idx as int), after),
    ensures
        frontier_ok(d, viewer, after, heap),
        forall|x: int|
            0 <= x < heap.len() ==> !key_lt(d, m.tweet_idx as int, #[trigger] heap[x].tweet_idx as int),
        d.prev(m.tweet_idx as int) matches Some(p) ==> (p.ts >= after ==> heap.contains(p)),
{
    lemma_merge_popped(d, viewer, max_len, after, before, ids, m);
    reveal(merge_state);
    let mi = m.tweet_idx as int;
    lemma_prev_link(d, mi);
    assert forall|x: int| 0 <= x < heap.len() implies {
        &&& !key_lt(d, mi, #[trigger] heap[x].tweet_idx as int)
        &&& heap[x] == d.link_at(heap[x].tweet_idx as int)
        &&& in_view(d, viewer, after, heap[x].tweet_idx as int)
    } by {
        assert(heap.contains(heap[x]));
        if popped.contains(heap[x]) {
            let t = choose|t: int| 0 <= t < before.len() && before[t] == heap[x];
            assert(!link_lt(m, before[t]));
        }
    }
}

/// After taking `m` and queuing its predecessor, every timeline post not yet
/// taken still lies on a queued chain.
proof fn lemma_output_cover(
    d: &Datastore,
    viewer: int,
    after: Timestamp,
    before: Seq<NextLink>,
    popped: Seq<NextLink>,
    heap: Seq<NextLink>,
    ids: Seq<int>,
    m: NextLink,
)
    requires
        d.wf(),
        0 <= m.tweet_idx < d.tweets@.len(),
        forall|q: int|
            #![trigger in_view(d, viewer, after, q)]
            in_view(d, viewer, after, q) && !ids.contains(q) ==> covered(d, before, q),
        forall|x: NextLink| before.contains(x) && x != m ==> popped.contains(x),
        queued_after(popped, heap, d.prev(m.tweet_idx as int), after),
    ensures
        forall|q: int|
            #![trigger in_view(d, viewer, after, q)]
            in_view(d, viewer, after, q) && !ids.push(m.tweet_idx as int).contains(q) ==> covered(
                d,
                heap,
                q,
            ),
{
    let mi = m.tweet_idx as int;
    let nids = ids.push(mi);
    let pv = d.prev(mi);
    assert forall|q: int|
        #![trigger in_view(d, viewer, after, q)]
        in_view(d, viewer, after, q) && !nids.contains(q) implies covered(d, heap, q) by {
        assert(!ids.contains(q)) by {
            if ids.contains(q) {
                let t = choose|t: int| 0 <= t < ids.len() && ids[t] == q;
                assert(nids[t] == q);
            }
        }
        let k = choose|k: int| 0 <= k < before.len() && d.chain(#[trigger] before[k].tweet_idx as int).contains(q);
        let x = before[k];
        let y = if x != m {
            assert(before.contains(x));
            assert(popped.contains(x));
            x
        } else {
            assert(nids[nids.len() - 1] == mi);
            d.lemma_chain_order(mi, q);
            let p = pv.unwrap();
            d.lemma_chain_order(p.tweet_idx as int, q);
            p
        };
        assert(heap.contains(y));
        let t = choose|t: int| 0 <= t < heap.len() && heap[t] == y;
        assert(d.chain(heap[t].tweet_idx as int).contains(q));
    }
}

/// Appending a timeline post older than the last slot keeps the slots in
/// strictly decreasing order.
proof fn lemma_output_ids(d: &Datastore, viewer: int, after: Timestamp, ids: Seq<int>, mi: int)
    requires
        forall|k: int| 0 <= k < ids.len() ==> in_view(d, viewer, after, #[trigger] ids[k]),
        forall|i: int, k: int| 0 <= i < k < ids.len() ==> key_lt(d, #[trigger] ids[k], #[trigger] ids[i]),
        in_view(d, viewer, after, mi),
        ids.len() > 0 ==> key_lt(d, mi, ids.last()),
    ensures
        forall|k: int|
            0 <= k < ids.push(mi).len() ==> in_view(d, viewer, after, #[trigger] ids.push(mi)[k]),
        forall|i: int, k: int|
            0 <= i < k < ids.push(mi).len() ==> key_lt(d, #[trigger] ids.push(mi)[k], #[trigger] ids.push(mi)[i]),
{
    let nids = ids.push(mi);
    assert forall|i: int, k: int| 0 <= i < k < nids.len() implies key_lt(d, #[trigger] nids[k], #[trigger] nids[i]) by {
        if k == nids.len() - 1 {
            assert(ids[ids.len() - 1] == ids.last());
            if i < ids.len() - 1 {
                assert(key_lt(d, ids[ids.len() - 1], ids[i]));
            }
        } else {
            assert(nids[k] == ids[k] && nids[i] == ids[i]);
        }
    }
    assert forall|k: int| 0 <= k < nids.len() implies in_view(d, viewer, after, #[trigger] nids[k]) by {
        if k < ids.len() {
            assert(nids[k] == ids[k]);
        }
    }
}

/// Taking a link that differs from the last slot advances the merge.
proof fn lemma_merge_output(
    d: &Datastore,
    viewer: int,
    max_len: int,
    after: Timestamp,
    before: Seq<NextLink>,
    popped: Seq<NextLink>,
    heap: Seq<NextLink>,
    ids: Seq<int>,
    m: NextLink,
)
    requires
        d.wf(),
        merge_state(d, viewer, max_len, after, before, ids),
        ids.len() < max_len,
        before.contains(m),
        forall|k: int| 0 <= k < before.len() ==> !link_lt(m, #[trigger] before[k]),
        forall|x: NextLink| popped.contains(x) ==> before.contains(x),
        forall|x: NextLink| before.contains(x) && x != m ==> popped.contains(x),
        ids.len() > 0 ==> ids.last() != m.tweet_idx as int,
        queued_after(popped, heap, d.prev(m.tweet_idx as int), after),
    ensures
        merge_state(d, viewer, max_len, after, heap, ids.push(m.tweet_idx as int)),
{
    let mi = m.tweet_idx as int;
    lemma_merge_popped(d, viewer, max_len, after, before, ids, m);
    lemma_output_queue(d, viewer, max_len, after, before, popped, heap, ids, m);
    assert(forall|q: int|
        #![trigger in_view(d, viewer, after, q)]
        in_view(d, viewer, after, q) && !ids.contains(q) ==> covered(d, before, q)) by {
        reveal(merge_state);
    }
    lemma_output_cover(d, viewer, after, before, popped, heap, ids, m);
    assert(forall|k: int| 0 <= k < ids.len() ==> in_view(d, viewer, after, #[trigger] ids[k])) by {
        reveal(merge_state);
    }
    assert(forall|i: int, k: int|
        0 <= i < k < ids.len() ==> key_lt(d, #[trigger] ids[k], #[trigger] ids[i])) by {
        reveal(merge_state);
    }
    lemma_output_ids(d, viewer, after, ids, mi);
    assert(ids.push(mi).last() == mi);
    reveal(merge_state);
}

/// A second copy of the last slot's link (a followee listed twice) can be
/// dropped.
proof fn lemma_merge_skip(
    d: &Datastore,
    viewer: int,
    max_len: int,
    after: Timestamp,
    before: Seq<NextLink>,
    popped: Seq<NextLink>,
    ids: Seq<int>,
    m: NextLink,
)
    requires
        d.wf(),
        merge_state(d, viewer, max_len, after, before, ids),
        before.contains(m),
        forall|x: NextLink| popped.contains(x) ==> before.contains(x),
        forall|x: NextLink| before.contains(x) && x != m ==> popped.contains(x),
        ids.len() > 0,
        ids.last() == m.tweet_idx as int,
    ensures
        merge_state(d, viewer, max_len, after, popped, ids),
{
    lemma_merge_popped(d, viewer, max_len, after, before, ids, m);
    reveal(merge_state);
    let mi = m.tweet_idx as int;
    lemma_prev_link(d, mi);
    let pv = d.prev(mi);
    assert forall|x: int| 0 <= x < popped.len() implies {
        &&& !key_lt(d, ids.last(), #[trigger] popped[x].tweet_idx as int)
        &&& popped[x] == d.link_at(popped[x].tweet_idx as int)
        &&& in_view(d, viewer, after, popped[x].tweet_idx as int)
    } by {
        assert(popped.contains(popped[x]));
        let t = choose|t: int| 0 <= t < before.len() && before[t] == popped[x];
    }
    assert forall|q: int|
        #![trigger in_view(d, viewer, after, q)]
        in_view(d, viewer, after, q) && !ids.contains(q) implies covered(d, popped, q) by {
        let k = choose|k: int| 0 <= k < before.len() && d.chain(#[trigger] before[k].tweet_idx as int).contains(q);
        let x = before[k];
        if x != m {
            assert(before.contains(x));
            let t = choose|t: int| 0 <= t < popped.len() && popped[t] == x;
        } else {
            assert(ids[ids.len() - 1] == mi);
            d.lemma_chain_order(mi, q);
            let p = pv.unwrap();
            d.lemma_chain_order(p.tweet_idx as int, q);
            assert(before.contains(p));
            let t = choose|t: int| 0 <= t < popped.len() && popped[t] == p;
        }
    }
}

/// When the timeline is full or the queue is empty, the slots taken are the
/// timeline.
proof fn lemma_merge_done(
    d: &Datastore,
    viewer: int,
    max_len: int,
    after: Timestamp,
    heap: Seq<NextLink>,
    ids: Seq<int>,
)
    requires
        d.wf(),
        merge_state(d, viewer, max_len, after, heap, ids),
        ids.len() >= max_len || heap.len() == 0,
    ensures
        is_timeline(d, viewer, max_len, after, ids),
{
    reveal(merge_state);
    assert forall|q: int|
        #![trigger in_view(d, viewer, after, q)]
        in_view(d, viewer, after, q) && !ids.contains(q) implies ids.len() == max_len && (ids.len()
            > 0 ==> key_lt(d, q, ids.last())) by {
        let k = choose|k: int| 0 <= k < heap.len() && d.chain(#[trigger] heap[k].tweet_idx as int).contains(q);
        let x = heap[k];
        d.lemma_chain_order(x.tweet_idx as int, q);
        if ids.len() > 0 {
            assert(!key_lt(d, ids.last(), x.tweet_idx as int));
            assert(ids[ids.len() - 1] == ids.last());
        }
    }
}

/// Scratch state for building timelines, reused from one fetch to the next:
/// the posts taken so far and the queue of chain links still to merge.
pub struct TimelineFetcher {
    tweets: Vec<Tweet>,
    heap: Vec<NextLink>,
}

impl Default for TimelineFetcher {
    fn default() -> (r: TimelineFetcher)
        ensures
            r.is_idle(),
    {
        TimelineFetcher::new()
    }
}

impl TimelineFetcher {
    /// Holds no scratch posts or links.
    pub closed spec fn is_idle(&self) -> bool {
        self.tweets@.len() == 0 && self.heap@.len() == 0
    }

    /// A fetcher with empty scratch buffers.
    pub fn new() -> (r: TimelineFetcher)
        ensures
            r.is_idle(),
    {
        TimelineFetcher { tweets: Vec::new(), heap: Vec::new() }
    }


    /// Builds `user_idx`'s timeline: the `max_len` most recent posts by the
    /// users it follows that are no older than `after`, newest first by
    /// timestamp and then slot, or all of them when there are fewer. A
    /// followee listed twice contributes its posts once.
    pub fn for_user<'a>(
        &'a mut self,
        data: &Datastore,
        user_idx: UserIdx,
        max_len: usize,
        after: Timestamp,
    ) -> (r: Timeline<'a>)
        requires
            data.wf(),
            user_idx < data.graph.users@.len(),
        ensures
            is_fetch_result(data, user_idx as int, max_len as int, after, r.tweets@),
    {
        let ghost viewer = user_idx as int;
        self.heap.clear();
        self.tweets.clear();
        let user = data.graph.users[user_idx as usize];
        let follows = data.graph.user_follows(&user);
        let mut j: usize = 0;
        while j < follows.len()
            invariant
                data.wf(),
                0 <= viewer < data.graph.users@.len(),
                user == data.graph.users@[viewer],
                follows@ == data.graph.follows_of(user),
                j <= follows@.len(),
                self.tweets@.len() == 0,
                is_heap(self.heap@),
                frontier_ok(data, viewer, after, self.heap@),
                forall|q: int|
                    #![trigger in_view(data, viewer, after, q)]
                    in_view(data, viewer, after, q) && (exists|t: int|
                        0 <= t < j && follows@[t] == data.authors@[q]) ==> covered(
                        data,
                        self.heap@,
                        q,
                    ),
            decreases follows@.len() - j,
        {
            let f = follows[j];
            let head = data.feeds[f as usize].fetch();
            let ghost before = self.heap@;
            self.push_after(head, after);
            proof {
                let fi = f as int;
                let n = data.tweets@.len() as int;
                data.lemma_head_chain(fi);
                assert(data.head(fi) == data.link_of(crate::store::last_by(data.authors@, f, n)));
                crate::store::lemma_last_by(data.authors@, f, n);
                assert(head == data.head(fi));
                assert(follows@[j as int] == f);
                assert(data.graph.follows_of(user).contains(f));
                assert forall|q: int|
                    #![trigger in_view(data, viewer, after, q)]
                    in_view(data, viewer, after, q) && (exists|t: int|
                        0 <= t < j + 1 && follows@[t] == data.authors@[q]) implies covered(
                    data,
                    self.heap@,
                    q,
                ) by {
                    let t = choose|t: int| 0 <= t < j + 1 && follows@[t] == data.authors@[q];
                    let y = if t == j {
                        lemma_newest_first_members(data.authors@, f, n, q);
                        assert(head is Some);
                        let h = head.unwrap();
                        assert(h == data.link_at(h.tweet_idx as int));
                        data.lemma_chain_order(h.tweet_idx as int, q);
                        h
                    } else {
                        let k = choose|k: int|
                            0 <= k < before.len() && data.chain(#[trigger] before[k].tweet_idx as int).contains(q);
                        assert(before.contains(before[k]));
                        before[k]
                    };
                    assert(self.heap@.contains(y));
                    let kk = choose|kk: int| 0 <= kk < self.heap@.len() && self.heap@[kk] == y;
                    assert(data.chain(self.heap@[kk].tweet_idx as int).contains(q));
                }
                if let Some(h) = head {
                    if h.ts >= after {
                        assert(data.chain_from(head).len() > 0);
                        lemma_newest_first_members(data.authors@, f, n, h.tweet_idx as int);
                        assert(data.chain(h.tweet_idx as int)[0] == h.tweet_idx as int);
                        assert(data.chain(h.tweet_idx as int).contains(h.tweet_idx as int));
                    }
                }
                assert forall|k: int| 0 <= k < self.heap@.len() implies {
                    &&& #[trigger] self.heap@[k] == data.link_at(self.heap@[k].tweet_idx as int)
                    &&& in_view(data, viewer, after, self.heap@[k].tweet_idx as int)
                } by {
                    let y = self.heap@[k];
                    assert(self.heap@.contains(y));
                    if before.contains(y) {
                        let t = choose|t: int| 0 <= t < before.len() && before[t] == y;
                    } else {
                        let h = head.unwrap();
                        assert(y == h);
                        assert(data.chain_from(head).len() > 0);
                        lemma_newest_first_members(data.authors@, f, n, h.tweet_idx as int);
                    }
                }
            }
            j += 1;
        }
        let ghost mut ids: Seq<int> = Seq::empty();
        let mut last: Option<TweetIdx> = None;
        proof {
            assert forall|q: int|
                #![trigger in_view(data, viewer, after, q)]
                in_view(data, viewer, after, q) implies covered(data, self.heap@, q) by {
                let a = data.authors@[q];
                let fs = data.graph.follows_of(user);
                let t = choose|t: int| 0 <= t < fs.len() && fs[t] == a;
                assert(follows@[t] == a);
            }
            lemma_merge_start(data, viewer, max_len as int, after, self.heap@);
            assert(self.tweets@ =~= posts_at(data, ids));
        }
        while self.tweets.len() < max_len && self.heap.len() > 0
            invariant
                data.wf(),
                0 <= viewer < data.graph.users@.len(),
                merge_state(data, viewer, max_len as int, after, self.heap@, ids),
                is_heap(self.heap@),
                self.tweets@ == posts_at(data, ids),
                last == (if ids.len() == 0 {
                    None::<TweetIdx>
                } else {
                    Some(ids.last() as TweetIdx)
                }),
            decreases max_len - self.tweets@.len(), self.heap@.len(),
        {
            let ghost before = self.heap@;
            let m = heap_pop(&mut self.heap);
            let ghost popped = self.heap@;
            let is_dup = match last {
                Some(l) => l == m.tweet_idx,
                None => false,
            };
            proof {
                lemma_merge_popped(data, viewer, max_len as int, after, before, ids, m);
            }
            if !is_dup {
                let chain = data.index(m.tweet_idx);
                self.tweets.push(chain.tweet);
                let ghost old_ids = ids;
                proof {
                    ids = ids.push(m.tweet_idx as int);
                }
                last = Some(m.tweet_idx);
                self.push_after(chain.prev_tweet, after);
                proof {
                    assert(self.tweets@ =~= posts_at(data, ids));
                    lemma_merge_output(data, viewer, max_len as int, after, before, popped, self.heap@, old_ids, m);
                }
            } else {
                proof {
                    lemma_merge_skip(data, viewer, max_len as int, after, before, popped, ids, m);
                }
            }
        }
        proof {
            lemma_merge_done(data, viewer, max_len as int, after, self.heap@, ids);
        }
        Timeline { tweets: self.tweets.as_slice() }
    }

    /// Queues `link` when it is present and no older than `after`.
    fn push_after(&mut self, link: Option<NextLink>, after: Timestamp)
        requires
            is_heap(old(self).heap@),
        ensures
            final(self).tweets@ == old(self).tweets@,
            is_heap(final(self).heap@),
            queued_after(old(self).heap@, final(self).heap@, link, after),
            final(self).heap@.len() <= old(self).heap@.len() + 1,
    {
        if let Some(l) = link {
            if l.ts >= after {
                heap_push(&mut self.heap, l);
            }
        }
    }
}

} // verus!
