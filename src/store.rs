use vstd::prelude::*;

use crate::data::{AtomicChain, ChainedTweet, FeedChain, Graph, NextLink, Tweet, TweetIdx, UserIdx};
use crate::pool::SharedPool;

verus! {

/// The slot of the newest post among the first `n` posts whose author is `u`.
pub open spec fn last_by(authors: Seq<UserIdx>, u: UserIdx, n: int) -> Option<int>
    decreases n,
{
    if n <= 0 {
        None
    } else if authors[n - 1] == u {
        Some(n - 1)
    } else {
        last_by(authors, u, n - 1)
    }
}

/// The slots of the posts among the first `n` whose author is `u`, newest first.
pub open spec fn newest_first(authors: Seq<UserIdx>, u: UserIdx, n: int) -> Seq<int>
    decreases n,
{
    if n <= 0 {
        Seq::empty()
    } else if authors[n - 1] == u {
        seq![n - 1].add(newest_first(authors, u, n - 1))
    } else {
        newest_first(authors, u, n - 1)
    }
}

/// `last_by` names a post by `u`, and no later post below `n` is by `u`; or
/// there is no post by `u` below `n`.
pub proof fn lemma_last_by(authors: Seq<UserIdx>, u: UserIdx, n: int)
    requires
        n <= authors.len(),
    ensures
        last_by(authors, u, n) matches Some(j) ==> 0 <= j < n && authors[j] == u && forall|k: int|
            j < k < n ==> authors[k] != u,
        last_by(authors, u, n) is None ==> forall|k: int| 0 <= k < n ==> authors[k] != u,
    decreases n,
{
    if n > 0 {
        lemma_last_by(authors, u, n - 1);
    }
}

/// `last_by` looks only at the first `n` authors.
pub proof fn lemma_last_by_prefix(a: Seq<UserIdx>, b: Seq<UserIdx>, u: UserIdx, n: int)
    requires
        n <= a.len(),
        n <= b.len(),
        forall|k: int| 0 <= k < n ==> a[k] == b[k],
    ensures
        last_by(a, u, n) == last_by(b, u, n),
    decreases n,
{
    if n > 0 {
        lemma_last_by_prefix(a, b, u, n - 1);
    }
}


/// The newest-first list of `u`'s posts is the newest one followed by the
/// list of those before it.
pub proof fn lemma_newest_first_unfold(authors: Seq<UserIdx>, u: UserIdx, n: int)
    requires
        n <= authors.len(),
    ensures
        newest_first(authors, u, n) == match last_by(authors, u, n) {
            Some(k) => seq![k].add(newest_first(authors, u, k)),
            None => Seq::<int>::empty(),
        },
    decreases n,
{
    if n > 0 {
        lemma_newest_first_unfold(authors, u, n - 1);
    }
}

/// The newest-first list of `u`'s posts holds exactly the slots below `n`
/// whose author is `u`.
pub proof fn lemma_newest_first_members(authors: Seq<UserIdx>, u: UserIdx, n: int, q: int)
    requires
        n <= authors.len(),
    ensures
        newest_first(authors, u, n).contains(q) <==> 0 <= q < n && authors[q] == u,
    decreases n,
{
    if n > 0 {
        lemma_newest_first_members(authors, u, n - 1, q);
        if authors[n - 1] == u {
            assert(seq![n - 1].add(newest_first(authors, u, n - 1))[0] == n - 1);
            if newest_first(authors, u, n - 1).contains(q) {
                let rest = newest_first(authors, u, n - 1);
                let k = choose|k: int| 0 <= k < rest.len() && #[trigger] rest[k] == q;
                assert(seq![n - 1].add(newest_first(authors, u, n - 1))[k + 1] == q);
            }
        }
    }
}

/// The post store: the graph, the pool of chained posts, and each user's
/// feed head.
pub struct Datastore<'a> {
    pub graph: Graph<'a>,
    pub tweets: SharedPool<ChainedTweet>,
    pub feeds: Vec<AtomicChain>,
    /// The author of each post in the pool.
    pub authors: Ghost<Seq<UserIdx>>,
}

impl<'a> Datastore<'a> {
    /// The link that names the post at slot `j`.
    pub open spec fn link_at(&self, j: int) -> NextLink {
        NextLink { ts: self.tweets@[j].tweet.ts, tweet_idx: j as TweetIdx }
    }

    /// The link to slot `j`, if there is one.
    pub open spec fn link_of(&self, j: Option<int>) -> FeedChain {
        match j {
            Some(j) => Some(self.link_at(j)),
            None => None,
        }
    }

    /// The head of user `u`'s feed chain.
    pub open spec fn head(&self, u: int) -> FeedChain {
        self.feeds@[u].link()
    }

    /// The link from the post at slot `i` to its author's previous post.
    pub open spec fn prev(&self, i: int) -> FeedChain {
        self.tweets@[i].prev_tweet
    }

    /// The graph is well formed, there is a head per user, every post has a
    /// known author and a non-zero timestamp, each post links to its
    /// author's previous post, which is no newer, and each head names its
    /// user's newest post.
    pub open spec fn wf(&self) -> bool {
        &&& self.graph.wf()
        &&& self.feeds@.len() == self.graph.users@.len()
        &&& self.authors@.len() == self.tweets@.len()
        &&& self.tweets@.len() <= u32::MAX
        &&& forall|i: int| 0 <= i < self.tweets@.len() ==> {
            &&& self.authors@[i] < self.graph.users@.len()
            &&& self.tweets@[i].tweet.ts != 0
            &&& self.prev(i) == self.link_of(last_by(self.authors@, self.authors@[i], i))
            &&& (self.prev(i) matches Some(p) ==> p.ts <= self.tweets@[i].tweet.ts)
        }
        &&& forall|u: int| 0 <= u < self.feeds@.len() ==>
            #[trigger] self.head(u) == self.link_of(last_by(self.authors@, u as UserIdx, self.tweets@.len() as int))
    }

    /// The slots along the chain that starts at slot `i`, newest first.
    pub open spec fn chain(&self, i: int) -> Seq<int>
        decreases i,
    {
        if 0 <= i < self.tweets@.len() {
            match self.prev(i) {
                Some(p) => if p.tweet_idx < i {
                    seq![i].add(self.chain(p.tweet_idx as int))
                } else {
                    seq![i]
                },
                None => seq![i],
            }
        } else {
            Seq::empty()
        }
    }

    /// The slots along the chain that starts at `link`, newest first.
    pub open spec fn chain_from(&self, link: FeedChain) -> Seq<int> {
        match link {
            Some(l) => self.chain(l.tweet_idx as int),
            None => Seq::empty(),
        }
    }


    /// The chain from slot `j` is `j` followed by the older posts of the
    /// same author.
    pub proof fn lemma_chain_at(&self, j: int)
        requires
            self.wf(),
            0 <= j < self.tweets@.len(),
        ensures
            self.chain(j) == seq![j].add(newest_first(self.authors@, self.authors@[j], j)),
        decreases j,
    {
        let u = self.authors@[j];
        lemma_last_by(self.authors@, u, j);
        lemma_newest_first_unfold(self.authors@, u, j);
        if let Some(k) = last_by(self.authors@, u, j) {
            self.lemma_chain_at(k);
        }
    }

    /// Walking the chain from user `u`'s head visits every post of `u`,
    /// newest first, and ends.
    pub proof fn lemma_head_chain(&self, u: int)
        requires
            self.wf(),
            0 <= u < self.feeds@.len(),
        ensures
            self.chain_from(self.head(u)) == newest_first(
                self.authors@,
                u as UserIdx,
                self.tweets@.len() as int,
            ),
    {
        let n = self.tweets@.len() as int;
        assert(self.head(u) == self.link_of(last_by(self.authors@, u as UserIdx, n)));
        lemma_last_by(self.authors@, u as UserIdx, n);
        lemma_newest_first_unfold(self.authors@, u as UserIdx, n);
        if let Some(k) = last_by(self.authors@, u as UserIdx, n) {
            self.lemma_chain_at(k);
        }
    }

    /// Along a chain slots strictly decrease and timestamps never increase;
    /// a later member of a chain lies on the chain of the first post's
    /// predecessor.
    pub proof fn lemma_chain_order(&self, h: int, q: int)
        requires
            self.wf(),
            0 <= h < self.tweets@.len(),
            self.chain(h).contains(q),
        ensures
            0 <= q <= h,
            self.tweets@[q].tweet.ts <= self.tweets@[h].tweet.ts,
            self.authors@[q] == self.authors@[h],
            q != h ==> (self.prev(h) matches Some(p) && p == self.link_at(p.tweet_idx as int)
                && p.tweet_idx < h && self.chain(p.tweet_idx as int).contains(q)),
        decreases h,
    {
        let u = self.authors@[h];
        lemma_last_by(self.authors@, u, h);
        if q != h {
            let c = self.chain(h);
            let k = choose|k: int| 0 <= k < c.len() && #[trigger] c[k] == q;
            match self.prev(h) {
                Some(p) => {
                    if p.tweet_idx < h {
                        assert(self.chain(h) == seq![h].add(self.chain(p.tweet_idx as int)));
                        assert(self.chain(p.tweet_idx as int)[k - 1] == q);
                        self.lemma_chain_order(p.tweet_idx as int, q);
                    } else {
                        assert(self.chain(h) == seq![h]);
                    }
                },
                None => {
                    assert(self.chain(h) == seq![h]);
                },
            }
        }
    }


    /// When no two posts in the pool share a timestamp, timestamps strictly
    /// decrease along every chain.
    pub proof fn lemma_chain_strictly_older(&self, i: int)
        requires
            self.wf(),
            0 <= i < self.tweets@.len(),
            forall|a: int, b: int|
                0 <= a < b < self.tweets@.len() ==> #[trigger] self.tweets@[a].tweet.ts
                    != #[trigger] self.tweets@[b].tweet.ts,
        ensures
            forall|a: int, b: int|
                0 <= a < b < self.chain(i).len() ==> self.tweets@[self.chain(i)[b]].tweet.ts
                    < self.tweets@[self.chain(i)[a]].tweet.ts,
        decreases i,
    {
        let c = self.chain(i);
        assert(c[0] == i);
        assert forall|a: int, b: int| 0 <= a < b < c.len() implies self.tweets@[c[b]].tweet.ts
            < self.tweets@[c[a]].tweet.ts by {
            assert(c.contains(c[b]));
            self.lemma_chain_order(i, c[b]);
            let p = self.prev(i).unwrap();
            let rest = self.chain(p.tweet_idx as int);
            assert(c == seq![i].add(rest));
            assert(rest[b - 1] == c[b]);
            assert(rest.contains(c[b]));
            self.lemma_chain_order(p.tweet_idx as int, c[b]);
            if a == 0 {
                assert(c[b] < i);
            } else {
                assert(rest[a - 1] == c[a]);
                self.lemma_chain_strictly_older(p.tweet_idx as int);
            }
        }
    }

    /// An empty store over `graph`: no posts, and every feed head empty.
    pub fn new(graph: Graph<'a>) -> (r: Datastore<'a>)
        requires
            graph.wf(),
        ensures
            r.wf(),
            r.graph == graph,
            r.tweets@.len() == 0,
    {
        let n = graph.users.len();
        let mut feeds: Vec<AtomicChain> = Vec::new();
        let mut k: usize = 0;
        while k < n
            invariant
                k <= n,
                n == graph.users@.len(),
                feeds@.len() == k,
                forall|u: int| 0 <= u < k ==> #[trigger] feeds@[u].link() == None::<NextLink>,
            decreases n - k,
        {
            feeds.push(AtomicChain::none());
            k += 1;
        }
        Datastore { graph, tweets: SharedPool::new(), feeds, authors: Ghost(Seq::empty()) }
    }

    /// Borrows the post at slot `idx`.
    pub fn index(&self, idx: TweetIdx) -> (r: &ChainedTweet)
        requires
            idx < self.tweets@.len(),
        ensures
            *r == self.tweets@[idx as int],
    {
        self.tweets.get(idx as usize)
    }

    /// A hint that the post at slot `idx` will be read soon. Safe code has no
    /// portable software prefetch, so the hint does nothing.
    pub fn prefetch_tweet(&self, idx: TweetIdx)
        requires
            idx < self.tweets@.len(),
    {
    }

    /// Appends `tweet` by `user_id` to the pool and makes it the head of the
    /// author's feed chain, linked to the author's previous head.
    pub fn add_tweet(&mut self, tweet: Tweet, user_id: UserIdx)
        requires
            old(self).wf(),
            user_id < old(self).graph.users@.len(),
            tweet.ts != 0,
            old(self).tweets@.len() < u32::MAX,
            old(self).head(user_id as int) matches Some(h) ==> h.ts <= tweet.ts,
        ensures
            final(self).wf(),
            final(self).graph == old(self).graph,
            final(self).tweets@ == old(self).tweets@.push(
                ChainedTweet { tweet, prev_tweet: old(self).head(user_id as int) },
            ),
            final(self).authors@ == old(self).authors@.push(user_id),
            final(self).head(user_id as int) == Some(
                NextLink { ts: tweet.ts, tweet_idx: old(self).tweets@.len() as TweetIdx },
            ),
            forall|v: int| 0 <= v < final(self).feeds@.len() && v != user_id ==>
                final(self).head(v) == old(self).head(v),
    {
        let u = user_id as usize;
        let prev_tweet = self.feeds[u].fetch();
        let ts = tweet.ts;
        let chained = ChainedTweet { tweet, prev_tweet };
        let tweet_idx = self.tweets.push(chained) as TweetIdx;
        self.authors = Ghost(self.authors@.push(user_id));
        self.feeds[u].set(NextLink { ts, tweet_idx });
        proof {
            let old_authors = old(self).authors@;
            let authors = self.authors@;
            let n = old(self).tweets@.len() as int;
            assert forall|i: int| 0 <= i < n implies last_by(authors, authors[i], i) == last_by(
                old_authors,
                old_authors[i],
                i,
            ) by {
                lemma_last_by_prefix(authors, old_authors, authors[i], i);
            }
            lemma_last_by_prefix(authors, old_authors, user_id, n);
            assert forall|i: int| 0 <= i < n implies self.link_of(last_by(authors, authors[i], i))
                == old(self).link_of(last_by(old_authors, old_authors[i], i)) by {
                lemma_last_by(old_authors, old_authors[i], i);
            }
            lemma_last_by(old_authors, user_id, n);
            assert(old(self).head(user_id as int) == old(self).link_of(last_by(old_authors, user_id, n)));
            assert(self.prev(n) == self.link_of(last_by(authors, authors[n], n)));
            assert forall|v: int| 0 <= v < self.feeds@.len() implies #[trigger] self.head(v)
                == self.link_of(last_by(authors, v as UserIdx, n + 1)) by {
                if v != user_id {
                    lemma_last_by_prefix(authors, old_authors, v as UserIdx, n);
                    lemma_last_by(old_authors, v as UserIdx, n);
                    assert(old(self).head(v) == old(self).link_of(last_by(old_authors, v as UserIdx, n)));
                } else {
                    assert(last_by(authors, v as UserIdx, n + 1) == Some(n));
                }
            }
            assert forall|i: int| 0 <= i < self.tweets@.len() implies {
                &&& self.authors@[i] < self.graph.users@.len()
                &&& self.tweets@[i].tweet.ts != 0
                &&& self.prev(i) == self.link_of(last_by(self.authors@, self.authors@[i], i))
                &&& (self.prev(i) matches Some(p) ==> p.ts <= self.tweets@[i].tweet.ts)
            } by {
                if i < n {
                    assert(self.tweets@[i] == old(self).tweets@[i]);
                    assert(self.authors@[i] == old(self).authors@[i]);
                    assert(old(self).prev(i) == old(self).link_of(last_by(old_authors, old_authors[i], i)));
                    lemma_last_by_prefix(authors, old_authors, authors[i], i);
                    lemma_last_by(old_authors, old_authors[i], i);
                    assert(self.prev(i) == self.link_of(last_by(self.authors@, self.authors@[i], i)));
                } else {
                    assert(self.prev(i) == self.link_of(last_by(self.authors@, self.authors@[i], i)));
                }
            }
        }
    }
}

} // verus!
