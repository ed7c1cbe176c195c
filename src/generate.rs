use vstd::prelude::*;

use rand::seq::SliceRandom;
use rand::RngCore;
use rand::SeedableRng;
use rand_wyrand::WyRand;

use crate::data::{Graph, Timestamp, Tweet, User, UserIdx, START_TIME};
use crate::store::{lemma_last_by, last_by, Datastore};

verus! {

/// rand-wyrand's `WyRand` generator, carried as an opaque value.
#[verifier::external_type_specification]
#[verifier::external_body]
pub struct ExWyRand(WyRand);

/// Relies on `SeedableRng::from_seed` of rand-wyrand's `WyRand`: a generator
/// whose stream is fixed by the seed's little-endian bytes.
#[verifier::external_body]
fn rng_from_seed(seed: u64) -> WyRand {
    WyRand::from_seed(seed.to_le_bytes())
}

/// Relies on rand's `SliceRandom::shuffle`, which only swaps elements: the
/// result is a permutation of the input.
#[verifier::external_body]
fn shuffle_users(v: &mut Vec<UserIdx>, rng: &mut WyRand)
    ensures
        final(v)@.len() == old(v)@.len(),
        final(v)@.to_multiset() == old(v)@.to_multiset(),
{
    v.shuffle(rng)
}

/// Relies on rand's `SliceRandom::choose`: nothing for an empty slice,
/// otherwise one of its elements.
#[verifier::external_body]
fn choose_user(v: &Vec<UserIdx>, rng: &mut WyRand) -> (r: Option<UserIdx>)
    ensures
        r is None <==> v@.len() == 0,
        r matches Some(x) ==> v@.contains(x),
{
    v.choose(rng).copied()
}

/// Relies on `RngCore::next_u64` of rand-wyrand's `WyRand`: the next word of
/// the stream.
#[verifier::external_body]
fn next_word(rng: &mut WyRand) -> u64 {
    rng.next_u64()
}

/// The users among the first `n` with more than `thresh` followers, in index order.
pub open spec fn tweeters(users: Seq<User>, thresh: u32, n: int) -> Seq<UserIdx>
    decreases n,
{
    if n <= 0 {
        Seq::empty()
    } else if users[n - 1].num_followers > thresh {
        tweeters(users, thresh, n - 1).push((n - 1) as UserIdx)
    } else {
        tweeters(users, thresh, n - 1)
    }
}

/// The users among the first `n` that follow more than `thresh` users, in index order.
pub open spec fn viewers(users: Seq<User>, thresh: u32, n: int) -> Seq<UserIdx>
    decreases n,
{
    if n <= 0 {
        Seq::empty()
    } else if users[n - 1].num_follows > thresh {
        viewers(users, thresh, n - 1).push((n - 1) as UserIdx)
    } else {
        viewers(users, thresh, n - 1)
    }
}

proof fn lemma_selected_are_users(users: Seq<User>, thresh: u32, n: int)
    requires
        n <= users.len(),
        n <= u32::MAX as int + 1,
    ensures
        forall|k: int| 0 <= k < tweeters(users, thresh, n).len() ==>
            #[trigger] tweeters(users, thresh, n)[k] < n,
        forall|k: int| 0 <= k < viewers(users, thresh, n).len() ==>
            #[trigger] viewers(users, thresh, n)[k] < n,
    decreases n,
{
    if n > 0 {
        lemma_selected_are_users(users, thresh, n - 1);
        let t = tweeters(users, thresh, n - 1);
        let v = viewers(users, thresh, n - 1);
        assert forall|k: int| 0 <= k < t.len() implies t.push((n - 1) as UserIdx)[k] == t[k] by {}
        assert forall|k: int| 0 <= k < v.len() implies v.push((n - 1) as UserIdx)[k] == v[k] by {}
    }
}

/// The users with more than `thresh` followers.
fn select_tweeters(users: &[User], thresh: u32) -> (r: Vec<UserIdx>)
    requires
        users@.len() <= u32::MAX as int + 1,
    ensures
        r@ == tweeters(users@, thresh, users@.len() as int),
{
    let mut r: Vec<UserIdx> = Vec::new();
    let n = users.len();
    let mut i: usize = 0;
    while i < n
        invariant
            n == users@.len(),
            n <= u32::MAX as int + 1,
            i <= n,
            r@ == tweeters(users@, thresh, i as int),
        decreases n - i,
    {
        if users[i].num_followers > thresh {
            r.push(i as UserIdx);
        }
        i += 1;
    }
    r
}

/// The users that follow more than `thresh` users.
fn select_viewers(users: &[User], thresh: u32) -> (r: Vec<UserIdx>)
    requires
        users@.len() <= u32::MAX as int + 1,
    ensures
        r@ == viewers(users@, thresh, users@.len() as int),
{
    let mut r: Vec<UserIdx> = Vec::new();
    let n = users.len();
    let mut i: usize = 0;
    while i < n
        invariant
            n == users@.len(),
            n <= u32::MAX as int + 1,
            i <= n,
            r@ == viewers(users@, thresh, i as int),
        decreases n - i,
    {
        if users[i].num_follows > thresh {
            r.push(i as UserIdx);
        }
        i += 1;
    }
    r
}

/// How cohorts are chosen: the seed, and the follower and followee counts a
/// user must exceed to post or to view.
pub struct TweetGeneratorConfig {
    pub seed: u64,
    pub tweeter_follower_thresh: u32,
    pub viewer_follow_thresh: u32,
}

impl Default for TweetGeneratorConfig {
    fn default() -> (r: TweetGeneratorConfig)
        ensures
            r.seed == 123,
            r.tweeter_follower_thresh == 20,
            r.viewer_follow_thresh == 20,
    {
        TweetGeneratorConfig { seed: 123, tweeter_follower_thresh: 20, viewer_follow_thresh: 20 }
    }
}

/// `t + k`, held at the largest timestamp.
pub open spec fn saturated(t: Timestamp, k: int) -> Timestamp {
    if t + k > u32::MAX {
        u32::MAX
    } else {
        (t + k) as Timestamp
    }
}

/// Drives the load: picks posting and viewing users from shuffled cohorts
/// and stamps posts with a monotonic clock.
pub struct TweetGenerator {
    pub tweeting_users: Vec<UserIdx>,
    pub viewing_users: Vec<UserIdx>,
    rng: WyRand,
    ts: Timestamp,
}

impl TweetGenerator {
    /// The posting cohort.
    pub closed spec fn posting(&self) -> Seq<UserIdx> {
        self.tweeting_users@
    }

    /// The viewing cohort.
    pub closed spec fn viewing(&self) -> Seq<UserIdx> {
        self.viewing_users@
    }

    /// The timestamp the next post gets.
    pub closed spec fn now(&self) -> Timestamp {
        self.ts
    }

    /// The generator can post into `data`: its clock is non-zero and no older
    /// than any post there, and every posting user is a user of the graph.
    pub open spec fn fits(&self, data: &Datastore) -> bool {
        &&& self.now() != 0
        &&& forall|i: int| 0 <= i < data.tweets@.len() ==> #[trigger] data.tweets@[i].tweet.ts <= self.now()
        &&& forall|k: int| 0 <= k < self.posting().len() ==>
            #[trigger] self.posting()[k] < data.graph.users@.len()
    }

    /// A generator and an empty store over `graph`. The posting cohort is a
    /// shuffle of the users with more than the configured number of
    /// followers; the viewing cohort a shuffle of those that follow more than
    /// the configured number of users.
    pub fn new<'a>(config: TweetGeneratorConfig, graph: Graph<'a>) -> (r: (TweetGenerator, Datastore<'a>))
        requires
            graph.wf(),
        ensures
            r.1.wf(),
            r.1.graph == graph,
            r.1.tweets@.len() == 0,
            r.0.now() == START_TIME,
            r.0.fits(&r.1),
            r.0.posting().to_multiset() == tweeters(
                graph.users@,
                config.tweeter_follower_thresh,
                graph.users@.len() as int,
            ).to_multiset(),
            r.0.viewing().to_multiset() == viewers(
                graph.users@,
                config.viewer_follow_thresh,
                graph.users@.len() as int,
            ).to_multiset(),
    {
        let mut rng = rng_from_seed(config.seed);
        let mut tweeting_users = select_tweeters(graph.users, config.tweeter_follower_thresh);
        shuffle_users(&mut tweeting_users, &mut rng);
        let mut viewing_users = select_viewers(graph.users, config.viewer_follow_thresh);
        shuffle_users(&mut viewing_users, &mut rng);
        proof {
            broadcast use vstd::seq_lib::group_to_multiset_ensures;
            let n = graph.users@.len() as int;
            lemma_selected_are_users(graph.users@, config.tweeter_follower_thresh, n);
            let sel = tweeters(graph.users@, config.tweeter_follower_thresh, n);
            assert forall|k: int| 0 <= k < tweeting_users@.len() implies
                #[trigger] tweeting_users@[k] < n by {
                let x = tweeting_users@[k];
                assert(tweeting_users@.contains(x));
                assert(tweeting_users@.to_multiset().count(x) > 0);
                assert(sel.to_multiset().count(x) > 0);
                assert(sel.contains(x));
            }
        }
        let data = Datastore::new(graph);
        let gen = TweetGenerator { tweeting_users, viewing_users, rng, ts: START_TIME };
        (gen, data)
    }

    /// Picks a posting user and stamps a placeholder post with the clock,
    /// which then advances by one, held at the largest timestamp.
    pub fn gen_tweet(&mut self) -> (r: (UserIdx, Tweet))
        requires
            old(self).posting().len() > 0,
        ensures
            old(self).posting().contains(r.0),
            r.1.is_dummy(old(self).now()),
            final(self).now() == saturated(old(self).now(), 1),
            final(self).posting() == old(self).posting(),
            final(self).viewing() == old(self).viewing(),
    {
        let user_id = match choose_user(&self.tweeting_users, &mut self.rng) {
            Some(u) => u,
            None => 0,
        };
        let tweet = Tweet::dummy(self.ts);
        self.ts = self.ts.saturating_add(1);
        (user_id, tweet)
    }

    /// Generates `n` posts and appends each to `data`.
    pub fn add_tweets(&mut self, data: &mut Datastore, n: usize)
        requires
            old(data).wf(),
            old(self).fits(old(data)),
            n > 0 ==> old(self).posting().len() > 0,
            old(data).tweets@.len() + n < u32::MAX,
        ensures
            final(data).wf(),
            final(self).fits(final(data)),
            final(data).graph == old(data).graph,
            final(self).now() == saturated(old(self).now(), n as int),
            final(self).posting() == old(self).posting(),
            final(self).viewing() == old(self).viewing(),
            final(data).tweets@.len() == old(data).tweets@.len() + n,
            forall|i: int| 0 <= i < old(data).tweets@.len() ==>
                #[trigger] final(data).tweets@[i] == old(data).tweets@[i],
            forall|i: int| old(data).tweets@.len() <= i < final(data).tweets@.len() ==> {
                &&& old(self).posting().contains(#[trigger] final(data).authors@[i])
                &&& final(data).tweets@[i].tweet.is_dummy(
                    saturated(old(self).now(), i - old(data).tweets@.len()),
                )
            },
    {
        let ghost start = data.tweets@.len() as int;
        let mut k: usize = 0;
        while k < n
            invariant
                k <= n,
                data.wf(),
                self.fits(data),
                n > 0 ==> self.posting().len() > 0,
                data.graph == old(data).graph,
                data.tweets@.len() == start + k,
                start + n < u32::MAX,
                start == old(data).tweets@.len(),
                self.now() == saturated(old(self).now(), k as int),
                self.posting() == old(self).posting(),
                self.viewing() == old(self).viewing(),
                forall|i: int| 0 <= i < start ==> #[trigger] data.tweets@[i] == old(data).tweets@[i],
                forall|i: int| start <= i < data.tweets@.len() ==> {
                    &&& old(self).posting().contains(#[trigger] data.authors@[i])
                    &&& data.tweets@[i].tweet.is_dummy(saturated(old(self).now(), i - start))
                },
            decreases n - k,
        {
            let ghost now = self.now();
            let (user_id, tweet) = self.gen_tweet();
            proof {
                let t = choose|t: int| 0 <= t < self.posting().len() && self.posting()[t] == user_id;
                assert(user_id < data.graph.users@.len());
                let len = data.tweets@.len() as int;
                assert(data.head(user_id as int) == data.link_of(last_by(data.authors@, user_id, len)));
                lemma_last_by(data.authors@, user_id, len);
            }
            let ghost before = *data;
            data.add_tweet(tweet, user_id);
            proof {
                assert forall|i: int| start <= i < data.tweets@.len() implies {
                    &&& old(self).posting().contains(#[trigger] data.authors@[i])
                    &&& data.tweets@[i].tweet.is_dummy(saturated(old(self).now(), i - start))
                } by {
                    if i < before.tweets@.len() {
                        assert(data.authors@[i] == before.authors@[i]);
                        assert(data.tweets@[i] == before.tweets@[i]);
                    } else {
                        assert(data.authors@[i] == user_id);
                    }
                }
            }
            k += 1;
        }
        proof {
            assert forall|i: int| old(data).tweets@.len() <= i < data.tweets@.len() implies {
                &&& old(self).posting().contains(#[trigger] data.authors@[i])
                &&& data.tweets@[i].tweet.is_dummy(saturated(old(self).now(), i - old(data).tweets@.len()))
            } by {
                assert(start <= i < data.tweets@.len());
            }
        }
    }

    /// Picks a viewing user.
    pub fn gen_view(&mut self) -> (r: UserIdx)
        requires
            old(self).viewing().len() > 0,
        ensures
            old(self).viewing().contains(r),
            final(self).now() == old(self).now(),
            final(self).posting() == old(self).posting(),
            final(self).viewing() == old(self).viewing(),
    {
        match choose_user(&self.viewing_users, &mut self.rng) {
            Some(u) => u,
            None => 0,
        }
    }

    /// A seed for a child generator, so that each reader gets its own
    /// reproducible stream.
    pub fn fork_seed(&mut self) -> (r: u64)
        ensures
            final(self).now() == old(self).now(),
            final(self).posting() == old(self).posting(),
            final(self).viewing() == old(self).viewing(),
    {
        next_word(&mut self.rng)
    }
}

} // verus!
