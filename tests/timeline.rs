use twitterperf::data::{AtomicChain, Graph, NextLink, Tweet, User, START_TIME, TWEET_BYTES};
use twitterperf::generate::{TweetGenerator, TweetGeneratorConfig};
use twitterperf::graph_file::decode_users;
use twitterperf::link_heap::{heap_pop, heap_push};
use twitterperf::pool::SharedPool;
use twitterperf::store::Datastore;
use twitterperf::timeline::TimelineFetcher;

fn user(follows_idx: usize, num_follows: u32, num_followers: u32) -> User {
    User { follows_idx, num_follows, num_followers }
}

/// Users A=0, B=1, C=2; A follows B and C.
fn tiny_users() -> (Vec<User>, Vec<u32>) {
    (vec![user(0, 2, 0), user(2, 0, 1), user(2, 0, 1)], vec![1, 2])
}

fn fill_tiny(data: &mut Datastore) {
    data.add_tweet(Tweet::dummy(1), 1);
    data.add_tweet(Tweet::dummy(2), 2);
    data.add_tweet(Tweet::dummy(3), 1);
    data.add_tweet(Tweet::dummy(4), 2);
}

fn stamps(fetcher: &mut TimelineFetcher, data: &Datastore, viewer: u32, max_len: usize, after: u32) -> Vec<u32> {
    fetcher.for_user(data, viewer, max_len, after).tweets.iter().map(|t| t.ts).collect()
}

#[test]
fn basic_pool() {
    let mut pool = SharedPool::new();
    pool.push(5);
    pool.push(6);
    assert_eq!(*pool.get(0), 5);
    assert_eq!(*pool.get(1), 6);
}

#[test]
fn pool_keeps_earlier_slots() {
    let mut pool = SharedPool::new();
    for v in 0..100u64 {
        assert_eq!(pool.push(v * 3), v as usize);
    }
    for v in 0..100u64 {
        assert_eq!(*pool.get(v as usize), v * 3);
    }
    assert_eq!(pool.len(), 100);
}

#[test]
fn tiny_deterministic_chain() {
    let (users, follows) = tiny_users();
    let graph = Graph { users: &users, follows: &follows };
    let mut data = Datastore::new(graph);
    fill_tiny(&mut data);
    let mut fetcher = TimelineFetcher::default();
    assert_eq!(stamps(&mut fetcher, &data, 0, 10, 1), vec![4, 3, 2, 1]);
}

#[test]
fn floor_filter() {
    let (users, follows) = tiny_users();
    let graph = Graph { users: &users, follows: &follows };
    let mut data = Datastore::new(graph);
    fill_tiny(&mut data);
    let mut fetcher = TimelineFetcher::new();
    assert_eq!(stamps(&mut fetcher, &data, 0, 10, 3), vec![4, 3]);
}

#[test]
fn bounded_length() {
    let (users, follows) = tiny_users();
    let graph = Graph { users: &users, follows: &follows };
    let mut data = Datastore::new(graph);
    fill_tiny(&mut data);
    let mut fetcher = TimelineFetcher::new();
    assert_eq!(stamps(&mut fetcher, &data, 0, 2, 1), vec![4, 3]);
}

#[test]
fn zero_length_and_no_followees() {
    let (users, follows) = tiny_users();
    let graph = Graph { users: &users, follows: &follows };
    let mut data = Datastore::new(graph);
    fill_tiny(&mut data);
    let mut fetcher = TimelineFetcher::new();
    assert_eq!(stamps(&mut fetcher, &data, 0, 0, 1), Vec::<u32>::new());
    assert_eq!(stamps(&mut fetcher, &data, 1, 10, 1), Vec::<u32>::new());
    assert_eq!(stamps(&mut fetcher, &data, 0, 10, 5), Vec::<u32>::new());
}

#[test]
fn repeated_followee_counts_once() {
    let users = vec![user(0, 3, 0), user(3, 0, 1), user(3, 0, 1)];
    let follows = vec![1, 1, 2];
    let graph = Graph { users: &users, follows: &follows };
    let mut data = Datastore::new(graph);
    fill_tiny(&mut data);
    let mut fetcher = TimelineFetcher::new();
    assert_eq!(stamps(&mut fetcher, &data, 0, 10, 1), vec![4, 3, 2, 1]);
}

#[test]
fn equal_timestamps_order_by_slot() {
    let (users, follows) = tiny_users();
    let graph = Graph { users: &users, follows: &follows };
    let mut data = Datastore::new(graph);
    let mut a = Tweet::dummy(7);
    a.likes = 1;
    let mut b = Tweet::dummy(7);
    b.likes = 2;
    data.add_tweet(a, 1);
    data.add_tweet(b, 2);
    let mut fetcher = TimelineFetcher::new();
    let likes: Vec<u32> = fetcher.for_user(&data, 0, 10, 1).tweets.iter().map(|t| t.likes).collect();
    assert_eq!(likes, vec![2, 1]);
}

#[test]
fn fetch_is_idempotent_and_reuse_safe() {
    let (users, follows) = tiny_users();
    let graph = Graph { users: &users, follows: &follows };
    let mut data = Datastore::new(graph);
    fill_tiny(&mut data);
    let mut reused = TimelineFetcher::new();
    let cases = [(10usize, 1u32), (2, 1), (10, 3), (1, 4), (3, 2)];
    for &(max_len, after) in cases.iter() {
        let first = stamps(&mut reused, &data, 0, max_len, after);
        let second = stamps(&mut reused, &data, 0, max_len, after);
        let fresh = stamps(&mut TimelineFetcher::new(), &data, 0, max_len, after);
        assert_eq!(first, second);
        assert_eq!(first, fresh);
    }
}

#[test]
fn chain_walk_after_serial_appends() {
    let (users, follows) = tiny_users();
    let graph = Graph { users: &users, follows: &follows };
    let mut data = Datastore::new(graph);
    fill_tiny(&mut data);
    let mut walked = Vec::new();
    let mut link = data.feeds[1].fetch();
    while let Some(l) = link {
        let chained = data.index(l.tweet_idx);
        assert_eq!(chained.tweet.ts, l.ts);
        walked.push(chained.tweet.ts);
        link = chained.prev_tweet;
    }
    assert_eq!(walked, vec![3, 1]);
    assert_eq!(data.feeds[2].fetch(), Some(NextLink { ts: 4, tweet_idx: 3 }));
    assert_eq!(data.feeds[0].fetch(), None);
}

#[test]
fn chain_timestamps_strictly_decrease() {
    let users = vec![user(0, 1, 0), user(1, 0, 1)];
    let follows = vec![1];
    let graph = Graph { users: &users, follows: &follows };
    let mut data = Datastore::new(graph);
    for ts in 1..=20u32 {
        data.add_tweet(Tweet::dummy(ts), 1);
    }
    let mut last = u32::MAX;
    let mut count = 0;
    let mut link = data.feeds[1].fetch();
    while let Some(l) = link {
        assert!(l.ts < last);
        last = l.ts;
        count += 1;
        link = data.index(l.tweet_idx).prev_tweet;
    }
    assert_eq!(count, 20);
}

#[test]
fn chain_head_round_trip() {
    let mut head = AtomicChain::none();
    assert_eq!(head.fetch(), None);
    let link = NextLink { ts: 0xdead_beef, tweet_idx: 0x1234_5678 };
    head.set(link);
    assert_eq!(head.fetch(), Some(link));
    let top = NextLink { ts: u32::MAX, tweet_idx: u32::MAX };
    head.set(top);
    assert_eq!(head.fetch(), Some(top));
}

#[test]
fn dummy_tweet_is_blank() {
    let t = Tweet::dummy(START_TIME);
    assert_eq!(t.ts, 1);
    assert_eq!(t.content, [0u8; TWEET_BYTES]);
    assert_eq!((t.likes, t.quotes, t.retweets), (0, 0, 0));
}

#[test]
fn graph_validity() {
    let (users, follows) = tiny_users();
    assert!(Graph { users: &users, follows: &follows }.is_valid());
    let bad_target = vec![1, 3];
    assert!(!Graph { users: &users, follows: &bad_target }.is_valid());
    let bad_range = vec![user(1, 2, 0), user(2, 0, 1), user(2, 0, 1)];
    assert!(!Graph { users: &bad_range, follows: &follows }.is_valid());
    let graph = Graph { users: &users, follows: &follows };
    assert_eq!(graph.user_follows(&users[0]), &[1, 2]);
    assert_eq!(graph.user_follows(&users[1]), &[] as &[u32]);
}

#[test]
fn decode_user_records() {
    let mut bytes = Vec::new();
    bytes.extend_from_slice(&0x0102_0304_0506_0708u64.to_le_bytes());
    bytes.extend_from_slice(&770_155u32.to_le_bytes());
    bytes.extend_from_slice(&2_997_469u32.to_le_bytes());
    bytes.extend_from_slice(&5u64.to_le_bytes());
    bytes.extend_from_slice(&0u32.to_le_bytes());
    bytes.extend_from_slice(&u32::MAX.to_le_bytes());
    let users = decode_users(&bytes).unwrap();
    assert_eq!(users.len(), 2);
    assert_eq!(users[0].follows_idx, 0x0102_0304_0506_0708);
    assert_eq!(users[0].num_follows, 770_155);
    assert_eq!(users[0].num_followers, 2_997_469);
    assert_eq!(users[1].follows_idx, 5);
    assert_eq!(users[1].num_follows, 0);
    assert_eq!(users[1].num_followers, u32::MAX);
    assert!(decode_users(&bytes[..20]).is_none());
    assert_eq!(decode_users(&[]).unwrap().len(), 0);
}

#[test]
fn generator_cohorts_and_posts() {
    // user i follows i users and has 3 - i followers
    let users = vec![user(0, 0, 3), user(0, 1, 2), user(1, 2, 1), user(3, 3, 0)];
    let follows = vec![0, 0, 1, 0, 1, 2];
    let graph = Graph { users: &users, follows: &follows };
    let config = TweetGeneratorConfig { seed: 7, tweeter_follower_thresh: 1, viewer_follow_thresh: 1 };
    let (mut gen, mut data) = TweetGenerator::new(config, graph);
    let mut tweeters = gen.tweeting_users.clone();
    tweeters.sort();
    assert_eq!(tweeters, vec![0, 1]);
    let mut viewers = gen.viewing_users.clone();
    viewers.sort();
    assert_eq!(viewers, vec![2, 3]);

    let (author, tweet) = gen.gen_tweet();
    assert!(author == 0 || author == 1);
    assert_eq!(tweet.ts, START_TIME);
    gen.add_tweets(&mut data, 5);
    assert_eq!(data.tweets.len(), 5);
    for i in 0..5u32 {
        assert_eq!(data.index(i).tweet.ts, i + 2);
    }
    for _ in 0..20 {
        let v = gen.gen_view();
        assert!(v == 2 || v == 3);
    }
    let mut fetcher = TimelineFetcher::new();
    let n = fetcher.for_user(&data, 3, 100, START_TIME).tweets.len();
    assert_eq!(n, 5);
}

#[test]
fn default_config_and_seeded_cohorts() {
    let config = TweetGeneratorConfig::default();
    assert_eq!((config.seed, config.tweeter_follower_thresh, config.viewer_follow_thresh), (123, 20, 20));
    let users: Vec<User> = (0..50).map(|i| user(0, i, 50 - i)).collect();
    let follows: Vec<u32> = vec![0; 50];
    let graph = Graph { users: &users, follows: &follows };
    let (gen_a, _) = TweetGenerator::new(TweetGeneratorConfig::default(), graph);
    let graph = Graph { users: &users, follows: &follows };
    let (gen_b, _) = TweetGenerator::new(TweetGeneratorConfig::default(), graph);
    assert_eq!(gen_a.tweeting_users, gen_b.tweeting_users);
    assert_eq!(gen_a.viewing_users, gen_b.viewing_users);
    assert_eq!(gen_a.tweeting_users.len(), 30);
    assert_eq!(gen_a.viewing_users.len(), 29);
}

#[test]
fn merge_matches_sorted_candidates() {
    // user 0 follows users 1..=40 (user 7 twice); users post in a scrambled order
    let n_users = 41u32;
    let mut follows: Vec<u32> = (1..n_users).collect();
    follows.push(7);
    let mut users = vec![user(0, follows.len() as u32, 0)];
    for _ in 1..n_users {
        users.push(user(follows.len(), 0, 1));
    }
    let graph = Graph { users: &users, follows: &follows };
    let mut data = Datastore::new(graph);
    let mut posts: Vec<(u32, u32)> = Vec::new();
    let mut ts = 1u32;
    for step in 0..400u32 {
        let author = 1 + (step * 17 + step / 3) % (n_users - 1);
        if step % 5 != 0 {
            ts += 1;
        }
        data.add_tweet(Tweet::dummy(ts), author);
        posts.push((ts, step));
    }
    let mut fetcher = TimelineFetcher::new();
    for &(max_len, after) in [(1usize, 1u32), (25, 1), (200, 50), (1000, 1), (30, 300)].iter() {
        let mut expected: Vec<(u32, u32)> = posts.iter().copied().filter(|&(t, _)| t >= after).collect();
        expected.sort_by(|a, b| b.cmp(a));
        expected.truncate(max_len);
        let got: Vec<u32> = fetcher.for_user(&data, 0, max_len, after).tweets.iter().map(|t| t.ts).collect();
        let want: Vec<u32> = expected.iter().map(|&(t, _)| t).collect();
        assert_eq!(got, want);
    }
}

#[test]
fn heap_pops_greatest_first() {
    let mut heap = Vec::new();
    let links: Vec<NextLink> = (0..64u32)
        .map(|i| NextLink { ts: (i * 37) % 11 + 1, tweet_idx: (i * 13) % 64 })
        .collect();
    for l in links.iter() {
        heap_push(&mut heap, *l);
    }
    let mut expected = links.clone();
    expected.sort_by(|a, b| (b.ts, b.tweet_idx).cmp(&(a.ts, a.tweet_idx)));
    let mut popped = Vec::new();
    while !heap.is_empty() {
        popped.push(heap_pop(&mut heap));
    }
    assert_eq!(popped, expected);
}
