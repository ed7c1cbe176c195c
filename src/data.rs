use vstd::prelude::*;

use crate::pool::SharedPool;

verus! {

/// Room for a full 280 character post plus some accents or emoji.
pub const TWEET_BYTES: usize = 284;

/// A post timestamp. Zero is reserved for "no link", so real timestamps are non-zero.
pub type Timestamp = u32;

/// The first timestamp handed out.
pub const START_TIME: Timestamp = 1;

/// A post: a fixed-size opaque payload, its timestamp, and engagement
/// counters.
#[derive(Clone, Copy)]
pub struct Tweet {
    pub content: [u8; TWEET_BYTES],
    pub ts: Timestamp,
    pub likes: u32,
    pub quotes: u32,
    pub retweets: u32,
}

impl Tweet {
    /// `self` is the placeholder post stamped `ts`: an all-zero payload and
    /// zero counters.
    pub open spec fn is_dummy(&self, ts: Timestamp) -> bool {
        &&& self.ts == ts
        &&& self.content@ == Seq::new(TWEET_BYTES as nat, |i: int| 0u8)
        &&& self.likes == 0
        &&& self.quotes == 0
        &&& self.retweets == 0
    }

    /// A placeholder post with an all-zero payload and zero counters.
    pub fn dummy(ts: Timestamp) -> (r: Tweet)
        ensures
            r.is_dummy(ts),
    {
        let r = Tweet { content: [0u8; TWEET_BYTES], ts, likes: 0, quotes: 0, retweets: 0 };
        proof {
            assert(r.content@ =~= Seq::new(TWEET_BYTES as nat, |i: int| 0u8));
        }
        r
    }
}

/// A zero-based slot in the post pool.
pub type TweetIdx = u32;

/// A link to a post: its timestamp and its slot in the pool. Links are
/// ordered by timestamp, then by slot.
#[derive(PartialEq, Eq, Structural, PartialOrd, Ord, Clone, Copy, Debug)]
pub struct NextLink {
    pub ts: Timestamp,
    pub tweet_idx: TweetIdx,
}

/// An optional link to an author's newest post.
pub type FeedChain = Option<NextLink>;

/// The 64-bit word that stores a link: the timestamp in the low half, the
/// slot in the high half.
pub open spec fn packed(l: NextLink) -> u64 {
    (l.ts as u64 + l.tweet_idx as u64 * 0x1_0000_0000) as u64
}

/// The link that a 64-bit word stores: none when its timestamp half is zero.
pub open spec fn unpacked(w: u64) -> FeedChain {
    if w % 0x1_0000_0000 == 0 {
        None
    } else {
        Some(NextLink { ts: (w % 0x1_0000_0000) as u32, tweet_idx: (w / 0x1_0000_0000) as u32 })
    }
}

/// Packing a link with a non-zero timestamp and unpacking it gives the link
/// back; the zero word holds no link.
pub proof fn lemma_pack_round_trip(l: NextLink)
    requires
        l.ts != 0,
    ensures
        unpacked(packed(l)) == Some(l),
        unpacked(0) == None::<NextLink>,
{
    let t = l.ts as u64;
    let i = l.tweet_idx as u64;
    assert((t + i * 0x1_0000_0000) as u64 % 0x1_0000_0000 == t) by (nonlinear_arith)
        requires t < 0x1_0000_0000, i < 0x1_0000_0000;
    assert((t + i * 0x1_0000_0000) as u64 / 0x1_0000_0000 == i) by (nonlinear_arith)
        requires t < 0x1_0000_0000, i < 0x1_0000_0000;
}

/// The head of an author's feed chain: an optional link packed into one
/// 64-bit word.
pub struct AtomicChain(u64);

impl AtomicChain {
    /// The word this head stores.
    pub closed spec fn word(&self) -> u64 {
        self.0
    }

    /// The link this head holds.
    pub open spec fn link(&self) -> FeedChain {
        unpacked(self.word())
    }

    /// A head that holds no link.
    pub fn none() -> (r: AtomicChain)
        ensures
            r.word() == 0,
            r.link() == None::<NextLink>,
    {
        AtomicChain(0)
    }

    /// Points the head at `next`.
    pub fn set(&mut self, next: NextLink)
        requires
            next.ts != 0,
        ensures
            final(self).word() == packed(next),
            final(self).link() == Some(next),
    {
        proof {
            lemma_pack_round_trip(next);
        }
        let t = next.ts as u64;
        let i = next.tweet_idx as u64;
        assert(t + i * 0x1_0000_0000 <= u64::MAX) by (nonlinear_arith)
            requires t < 0x1_0000_0000, i < 0x1_0000_0000;
        self.0 = t + i * 0x1_0000_0000;
    }

    /// The link this head holds, if any.
    pub fn fetch(&self) -> (r: FeedChain)
        ensures
            r == unpacked(self.word()),
    {
        let w = self.0;
        let ts = (w % 0x1_0000_0000) as u32;
        if ts == 0 {
            None
        } else {
            Some(NextLink { ts, tweet_idx: (w / 0x1_0000_0000) as u32 })
        }
    }
}

/// A post as the pool stores it: the post and the link to its author's
/// previous post.
pub struct ChainedTweet {
    pub tweet: Tweet,
    pub prev_tweet: FeedChain,
}

/// A user index.
pub type UserIdx = u32;

/// One user of the follow graph: where the user's followees start in the
/// follow array, how many there are, and how many followers the user has.
#[derive(Clone, Copy)]
pub struct User {
    pub follows_idx: usize,
    pub num_follows: u32,
    pub num_followers: u32,
}

/// A read-only follow graph: the users, and one array holding every
/// user's followees back to back.
pub struct Graph<'a> {
    pub users: &'a [User],
    pub follows: &'a [UserIdx],
}

impl<'a> Graph<'a> {
    /// Every user's followee range lies inside the follow array, and every
    /// followee is a user.
    pub open spec fn wf(&self) -> bool {
        &&& self.users@.len() <= u32::MAX as int + 1
        &&& forall|u: int| 0 <= u < self.users@.len() ==>
            self.users@[u].follows_idx + self.users@[u].num_follows <= self.follows@.len()
        &&& forall|j: int| 0 <= j < self.follows@.len() ==> self.follows@[j] < self.users@.len()
    }


    /// Whether every user's followee range lies inside the follow array and
    /// every followee is a user.
    pub fn is_valid(&self) -> (r: bool)
        ensures
            r == self.wf(),
    {
        let n_users = self.users.len();
        let n_follows = self.follows.len();
        if n_users > 0 && n_users - 1 > u32::MAX as usize {
            return false;
        }
        let mut u: usize = 0;
        while u < n_users
            invariant
                n_users == self.users@.len(),
                n_follows == self.follows@.len(),
                u <= n_users,
                self.users@.len() <= u32::MAX as int + 1,
                forall|v: int| 0 <= v < u ==>
                    #[trigger] self.users@[v].follows_idx + self.users@[v].num_follows <= self.follows@.len(),
            decreases n_users - u,
        {
            let user = self.users[u];
            if user.follows_idx > n_follows || user.num_follows as usize > n_follows - user.follows_idx {
                return false;
            }
            u += 1;
        }
        let mut j: usize = 0;
        while j < n_follows
            invariant
                n_users == self.users@.len(),
                n_follows == self.follows@.len(),
                j <= n_follows,
                forall|k: int| 0 <= k < j ==> #[trigger] self.follows@[k] < self.users@.len(),
            decreases n_follows - j,
        {
            if self.follows[j] as usize >= n_users {
                return false;
            }
            j += 1;
        }
        true
    }

    /// The followees of `user`, as spec values.
    pub open spec fn follows_of(&self, user: User) -> Seq<UserIdx> {
        self.follows@.subrange(user.follows_idx as int, user.follows_idx + user.num_follows)
    }

    /// The followees of `user`.
    pub fn user_follows(&'a self, user: &User) -> (r: &'a [UserIdx])
        requires
            user.follows_idx + user.num_follows <= self.follows@.len(),
        ensures
            r@ == self.follows_of(*user),
    {
        let _n = self.follows.len();
        &self.follows[user.follows_idx..user.follows_idx + user.num_follows as usize]
    }
}

} // verus!
