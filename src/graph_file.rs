use vstd::prelude::*;

use crate::data::User;

verus! {

/// Bytes per record of the user file.
pub const USER_RECORD_BYTES: usize = 16;

/// The little-endian unsigned integer in the `k` bytes of `b` from `at`.
pub open spec fn le_value(b: Seq<u8>, at: int, k: nat) -> nat
    decreases k,
{
    if k == 0 {
        0
    } else {
        (b[at] as nat + 256 * le_value(b, at + 1, (k - 1) as nat)) as nat
    }
}

pub open spec fn pow256(k: nat) -> nat
    decreases k,
{
    if k == 0 {
        1
    } else {
        256 * pow256((k - 1) as nat)
    }
}

proof fn lemma_le_value_bound(b: Seq<u8>, at: int, k: nat)
    ensures
        le_value(b, at, k) < pow256(k),
    decreases k,
{
    if k > 0 {
        lemma_le_value_bound(b, at + 1, (k - 1) as nat);
        let r = le_value(b, at + 1, (k - 1) as nat);
        let p = pow256((k - 1) as nat);
        let x = b[at] as nat;
        assert(x + 256 * r < 256 * p) by (nonlinear_arith)
            requires x < 256, r < p;
    }
}

/// Reads the little-endian integer in the `k` bytes of `b` from `at`.
fn read_le(b: &[u8], at: usize, k: usize) -> (r: u64)
    requires
        1 <= k <= 8,
        at + k <= b@.len(),
    ensures
        r == le_value(b@, at as int, k as nat),
{
    let n = b.len();
    let mut v: u64 = 0;
    let mut t: usize = k;
    proof {
        reveal_with_fuel(pow256, 9);
        assert(pow256(8) == 0x1_0000_0000_0000_0000);
    }
    while t > 0
        invariant
            t <= k <= 8,
            at + k <= b@.len(),
            n == b@.len(),
            v == le_value(b@, at + t, (k - t) as nat),
            pow256(8) == 0x1_0000_0000_0000_0000,
        decreases t,
    {
        proof {
            lemma_le_value_bound(b@, at + t, (k - t) as nat);
            lemma_pow256_mono((k - t) as nat, 7);
        }
        t -= 1;
        let x = b[at + t] as u64;
        assert(x + 256 * v < 0x1_0000_0000_0000_0000) by (nonlinear_arith)
            requires x < 256, v < pow256(7), 256 * pow256(7) == 0x1_0000_0000_0000_0000;
        v = x + 256 * v;
    }
    v
}

proof fn lemma_pow256_mono(a: nat, b: nat)
    requires
        a <= b,
    ensures
        pow256(a) <= pow256(b),
    decreases b,
{
    if a < b {
        lemma_pow256_mono(a, (b - 1) as nat);
    }
}

/// The user that the record at `at` in `b` describes.
pub open spec fn user_record(b: Seq<u8>, at: int) -> (nat, nat, nat) {
    (le_value(b, at, 8), le_value(b, at + 8, 4), le_value(b, at + 12, 4))
}

/// Decodes the user file: consecutive 16-byte little-endian records of a
/// 64-bit followee offset, a 32-bit followee count and a 32-bit follower
/// count. Fails when the length is not a whole number of records or an
/// offset does not fit in `usize`.
pub fn decode_users(bytes: &[u8]) -> (r: Option<Vec<User>>)
    ensures
        r is Some <==> bytes@.len() % 16 == 0 && forall|i: int|
            0 <= i < bytes@.len() / 16 ==> #[trigger] user_record(bytes@, 16 * i).0 <= usize::MAX,
        r matches Some(v) ==> v@.len() == bytes@.len() / 16 && forall|i: int|
            0 <= i < v@.len() ==> user_record(bytes@, 16 * i) == (
                #[trigger] v@[i].follows_idx as nat,
                v@[i].num_follows as nat,
                v@[i].num_followers as nat,
            ),
{
    let len = bytes.len();
    if len % USER_RECORD_BYTES != 0 {
        return None;
    }
    let n = len / USER_RECORD_BYTES;
    let mut v: Vec<User> = Vec::new();
    let mut i: usize = 0;
    while i < n
        invariant
            len == bytes@.len(),
            len % 16 == 0,
            n == len / 16,
            i <= n,
            v@.len() == i,
            forall|j: int| 0 <= j < i ==> #[trigger] user_record(bytes@, 16 * j).0 <= usize::MAX,
            forall|j: int|
                0 <= j < i ==> user_record(bytes@, 16 * j) == (
                    #[trigger] v@[j].follows_idx as nat,
                    v@[j].num_follows as nat,
                    v@[j].num_followers as nat,
                ),
        decreases n - i,
    {
        let at = i * USER_RECORD_BYTES;
        let off = read_le(bytes, at, 8);
        let follows = read_le(bytes, at + 8, 4);
        let followers = read_le(bytes, at + 12, 4);
        proof {
            lemma_le_value_bound(bytes@, at + 8, 4);
            lemma_le_value_bound(bytes@, at + 12, 4);
            reveal_with_fuel(pow256, 5);
            assert(pow256(4) == 0x1_0000_0000);
        }
        if off > usize::MAX as u64 {
            proof {
                assert(user_record(bytes@, 16 * i).0 > usize::MAX);
            }
            return None;
        }
        v.push(User { follows_idx: off as usize, num_follows: follows as u32, num_followers: followers as u32 });
        i += 1;
    }
    Some(v)
}

} // verus!
