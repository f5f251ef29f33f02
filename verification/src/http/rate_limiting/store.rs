//! The buckets of all clients, by identity.
//!
//! The entries stand in a list, and an index from the hash of an identity to
//! the places in the list where that hash occurs leads to an entry without a
//! walk through the list.

use std::collections::HashMap;
use vstd::prelude::*;
use crate::http::rate_limiting::bucket::{
    capacity_units, charged, decision, BucketState, Decision,
};

verus! {

/// One client's identity and bucket.
struct Entry {
    key: String,
    state: BucketState,
}

/// Whether some entry of `s` belongs to `k`.
spec fn has_key(s: Seq<Entry>, k: Seq<char>) -> bool {
    exists|i: int| 0 <= i < s.len() && (#[trigger] s[i]).key@ == k
}

/// The place of the entry of `k` in `s`.
spec fn index_of(s: Seq<Entry>, k: Seq<char>) -> int {
    choose|i: int| 0 <= i < s.len() && (#[trigger] s[i]).key@ == k
}

/// No identity has two entries.
spec fn distinct_keys(s: Seq<Entry>) -> bool {
    forall|i: int, j: int|
        0 <= i < j < s.len() ==> (#[trigger] s[i]).key@ != (#[trigger] s[j]).key@
}

/// Every bucket is within its capacity.
spec fn states_wf(s: Seq<Entry>) -> bool {
    forall|i: int| 0 <= i < s.len() ==> (#[trigger] s[i]).state.wf()
}

/// The entries read as a map from identity to bucket.
spec fn as_map(s: Seq<Entry>) -> Map<Seq<char>, BucketState> {
    Map::new(|k: Seq<char>| has_key(s, k), |k: Seq<char>| s[index_of(s, k)].state)
}

/// With distinct keys, the entry at `i` is the one its key maps to.
proof fn lemma_entry_in_map(s: Seq<Entry>, i: int)
    requires
        distinct_keys(s),
        0 <= i < s.len(),
    ensures
        as_map(s).contains_key(s[i].key@),
        as_map(s)[s[i].key@] == s[i].state,
        index_of(s, s[i].key@) == i,
{
    let k = s[i].key@;
    assert(has_key(s, k));
    let j = index_of(s, k);
    assert(0 <= j < s.len() && s[j].key@ == k);
    if j < i {
        assert(s[j].key@ != s[i].key@);
    } else if i < j {
        assert(s[i].key@ != s[j].key@);
    }
}

/// Replacing the bucket of the entry at `i` replaces it in the map.
proof fn lemma_update(s: Seq<Entry>, i: int, e: Entry)
    requires
        distinct_keys(s),
        0 <= i < s.len(),
        e.key@ == s[i].key@,
    ensures
        distinct_keys(s.update(i, e)),
        as_map(s.update(i, e)) == as_map(s).insert(e.key@, e.state),
{
    let t = s.update(i, e);
    assert forall|a: int, b: int| 0 <= a < b < t.len() implies (#[trigger] t[a]).key@ != (
    #[trigger] t[b]).key@ by {
        assert(t[a].key@ == s[a].key@);
        assert(t[b].key@ == s[b].key@);
    }
    let m = as_map(s).insert(e.key@, e.state);
    assert forall|k: Seq<char>| as_map(t).contains_key(k) <==> m.contains_key(k) by {
        if has_key(t, k) {
            let j = index_of(t, k);
            assert(s[j].key@ == k);
        }
        if has_key(s, k) {
            let j = index_of(s, k);
            assert(t[j].key@ == k);
        }
    }
    assert forall|k: Seq<char>| as_map(t).contains_key(k) implies as_map(t)[k] == m[k] by {
        let j = index_of(t, k);
        lemma_entry_in_map(t, j);
        if j != i {
            assert(t[j] == s[j]);
            lemma_entry_in_map(s, j);
        }
    }
    assert(as_map(t) =~= m);
}

/// Appending an entry with a new key adds it to the map.
proof fn lemma_push(s: Seq<Entry>, e: Entry)
    requires
        distinct_keys(s),
        !as_map(s).contains_key(e.key@),
    ensures
        distinct_keys(s.push(e)),
        as_map(s.push(e)) == as_map(s).insert(e.key@, e.state),
{
    let t = s.push(e);
    assert forall|a: int, b: int| 0 <= a < b < t.len() implies (#[trigger] t[a]).key@ != (
    #[trigger] t[b]).key@ by {
        if b == s.len() {
            assert(t[a] == s[a]);
            if s[a].key@ == e.key@ {
                assert(has_key(s, e.key@));
            }
        } else {
            assert(t[a] == s[a] && t[b] == s[b]);
        }
    }
    let m = as_map(s).insert(e.key@, e.state);
    assert forall|k: Seq<char>| as_map(t).contains_key(k) <==> m.contains_key(k) by {
        if has_key(t, k) {
            let j = index_of(t, k);
            if j < s.len() {
                assert(s[j].key@ == k);
            }
        }
        if has_key(s, k) {
            let j = index_of(s, k);
            assert(t[j].key@ == k);
        }
        if k == e.key@ {
            assert(t[s.len() as int].key@ == k);
        }
    }
    assert forall|k: Seq<char>| as_map(t).contains_key(k) implies as_map(t)[k] == m[k] by {
        let j = index_of(t, k);
        lemma_entry_in_map(t, j);
        if j < s.len() {
            assert(t[j] == s[j]);
            lemma_entry_in_map(s, j);
        }
    }
    assert(as_map(t) =~= m);
}

/// With distinct keys there are as many identities as entries.
proof fn lemma_len(s: Seq<Entry>)
    requires
        distinct_keys(s),
    ensures
        as_map(s).dom().finite(),
        as_map(s).dom().len() == s.len(),
    decreases s.len(),
{
    if s.len() == 0 {
        assert(as_map(s).dom() =~= Set::<Seq<char>>::empty());
    } else {
        let r = s.drop_last();
        let e = s.last();
        assert forall|a: int, b: int| 0 <= a < b < r.len() implies (#[trigger] r[a]).key@ != (
        #[trigger] r[b]).key@ by {
            assert(r[a] == s[a] && r[b] == s[b]);
        }
        lemma_len(r);
        if has_key(r, e.key@) {
            let j = index_of(r, e.key@);
            assert(s[j] == r[j]);
            assert(s[j].key@ != s[s.len() - 1].key@);
        }
        assert(s == r.push(e));
        lemma_push(r, e);
        assert(as_map(s).dom() =~= as_map(r).dom().insert(e.key@));
    }
}

/// The bucket that a request of `key` at `now` is charged to: the one that
/// `m` holds, or a full one of `capacity` tokens made at `now`.
pub open spec fn bucket_or_new(
    m: Map<Seq<char>, BucketState>,
    key: Seq<char>,
    now: u64,
    capacity: u32,
) -> BucketState {
    if m.contains_key(key) {
        m[key]
    } else {
        BucketState { capacity, tokens: capacity_units(capacity) as u64, last_update: now }
    }
}

/// The buckets after a request of `key` at `now`: the bucket of `key` is
/// charged, every other one is as it was.
pub open spec fn after_check(
    m: Map<Seq<char>, BucketState>,
    key: Seq<char>,
    now: u64,
    capacity: u32,
    rate: u32,
) -> Map<Seq<char>, BucketState> {
    m.insert(key, charged(bucket_or_new(m, key, now, capacity), now, rate))
}

/// Every bucket of `m` holds no more than its capacity.
pub open spec fn within_capacity(m: Map<Seq<char>, BucketState>) -> bool {
    forall|k: Seq<char>| m.contains_key(k) ==> (#[trigger] m[k]).wf()
}

/// Whether a bucket has gone unused for longer than `horizon` at `now`.
pub open spec fn is_idle(b: BucketState, now: u64, horizon: u64) -> bool {
    now - b.last_update > horizon
}

/// The identities in `m` whose buckets are idle at `now`.
pub open spec fn idle_keys(m: Map<Seq<char>, BucketState>, now: u64, horizon: u64) -> Set<
    Seq<char>,
> {
    Set::new(|k: Seq<char>| m.contains_key(k) && is_idle(m[k], now, horizon))
}

/// What is left of `m` when the buckets idle at `now` are dropped.
pub open spec fn without_idle(m: Map<Seq<char>, BucketState>, now: u64, horizon: u64) -> Map<
    Seq<char>,
    BucketState,
> {
    Map::new(|k: Seq<char>| m.contains_key(k) && !is_idle(m[k], now, horizon), |k: Seq<char>| m[k])
}

/// The strings of `v` as character sequences.
pub open spec fn views(v: Seq<String>) -> Seq<Seq<char>> {
    Seq::new(v.len(), |i: int| v[i]@)
}

/// Whether `j` is among the places listed in `from`.
spec fn listed(from: Seq<int>, j: int) -> bool {
    exists|a: int| 0 <= a < from.len() && #[trigger] from[a] == j
}

/// The state of a sweep that has sorted the entries of `before` from place
/// `n` on: the recent ones are in `kept`, the keys of the idle ones in
/// `removed`, and `kept_from` and `removed_from` tell where each came from.
spec fn sifted(
    before: Seq<Entry>,
    n: int,
    kept: Seq<Entry>,
    kept_from: Seq<int>,
    removed: Seq<String>,
    removed_from: Seq<int>,
    now: u64,
    horizon: u64,
) -> bool {
    &&& kept_from.len() == kept.len()
    &&& removed_from.len() == removed.len()
    &&& forall|a: int|
        0 <= a < kept.len() ==> n <= #[trigger] kept_from[a] < before.len() && kept[a]
            == before[kept_from[a]] && !is_idle(before[kept_from[a]].state, now, horizon)
    &&& forall|a: int|
        0 <= a < removed.len() ==> n <= #[trigger] removed_from[a] < before.len()
            && removed[a]@ == before[removed_from[a]].key@ && is_idle(
            before[removed_from[a]].state,
            now,
            horizon,
        )
    &&& forall|a: int, b: int|
        0 <= a < b < kept.len() ==> #[trigger] kept_from[a] != #[trigger] kept_from[b]
    &&& forall|a: int, b: int|
        0 <= a < b < removed.len() ==> #[trigger] removed_from[a] != #[trigger] removed_from[b]
    &&& forall|j: int|
        n <= j < before.len() ==> if is_idle((#[trigger] before[j]).state, now, horizon) {
            listed(removed_from, j)
        } else {
            listed(kept_from, j)
        }
}

/// A place stays listed when another is appended, and the appended one is.
proof fn lemma_listed_push(from: Seq<int>, x: int, j: int)
    requires
        listed(from, j) || x == j,
    ensures
        listed(from.push(x), j),
{
    if listed(from, j) {
        let a = choose|a: int| 0 <= a < from.len() && #[trigger] from[a] == j;
        assert(from.push(x)[a] == j);
    } else {
        assert(from.push(x)[from.len() as int] == j);
    }
}

/// The sweep takes one more entry, an idle one.
proof fn lemma_sift_idle(
    before: Seq<Entry>,
    n: int,
    kept: Seq<Entry>,
    kept_from: Seq<int>,
    removed: Seq<String>,
    removed_from: Seq<int>,
    removed_next: Seq<String>,
    now: u64,
    horizon: u64,
)
    requires
        0 <= n < before.len(),
        sifted(before, n + 1, kept, kept_from, removed, removed_from, now, horizon),
        is_idle(before[n].state, now, horizon),
        removed_next.len() == removed.len() + 1,
        forall|a: int| 0 <= a < removed.len() ==> removed_next[a] == removed[a],
        removed_next[removed.len() as int]@ == before[n].key@,
    ensures
        sifted(before, n, kept, kept_from, removed_next, removed_from.push(n), now, horizon),
{
    let next_from = removed_from.push(n);
    assert forall|j: int| n <= j < before.len() implies if is_idle(
        (#[trigger] before[j]).state,
        now,
        horizon,
    ) {
        listed(next_from, j)
    } else {
        listed(kept_from, j)
    } by {
        if is_idle(before[j].state, now, horizon) {
            lemma_listed_push(removed_from, n, j);
        }
    }
    assert forall|a: int| 0 <= a < removed_next.len() implies n <= #[trigger] next_from[a]
        < before.len() && removed_next[a]@ == before[next_from[a]].key@ && is_idle(
        before[next_from[a]].state,
        now,
        horizon,
    ) by {
        if a < removed.len() {
            assert(next_from[a] == removed_from[a]);
        }
    }
    assert forall|a: int, b: int| 0 <= a < b < removed_next.len() implies #[trigger] next_from[a]
        != #[trigger] next_from[b] by {
        assert(next_from[a] == removed_from[a]);
        if b < removed.len() {
            assert(next_from[b] == removed_from[b]);
        }
    }
}

/// The sweep takes one more entry, one used within the horizon.
proof fn lemma_sift_recent(
    before: Seq<Entry>,
    n: int,
    kept: Seq<Entry>,
    kept_from: Seq<int>,
    kept_next: Seq<Entry>,
    removed: Seq<String>,
    removed_from: Seq<int>,
    now: u64,
    horizon: u64,
)
    requires
        0 <= n < before.len(),
        sifted(before, n + 1, kept, kept_from, removed, removed_from, now, horizon),
        !is_idle(before[n].state, now, horizon),
        kept_next == kept.push(before[n]),
    ensures
        sifted(before, n, kept_next, kept_from.push(n), removed, removed_from, now, horizon),
{
    let next_from = kept_from.push(n);
    assert forall|j: int| n <= j < before.len() implies if is_idle(
        (#[trigger] before[j]).state,
        now,
        horizon,
    ) {
        listed(removed_from, j)
    } else {
        listed(next_from, j)
    } by {
        if !is_idle(before[j].state, now, horizon) {
            lemma_listed_push(kept_from, n, j);
        }
    }
    assert forall|a: int| 0 <= a < kept_next.len() implies n <= #[trigger] next_from[a]
        < before.len() && kept_next[a] == before[next_from[a]] && !is_idle(
        before[next_from[a]].state,
        now,
        horizon,
    ) by {
        if a < kept.len() {
            assert(next_from[a] == kept_from[a]);
        }
    }
    assert forall|a: int, b: int| 0 <= a < b < kept_next.len() implies #[trigger] next_from[a]
        != #[trigger] next_from[b] by {
        assert(next_from[a] == kept_from[a]);
        if b < kept.len() {
            assert(next_from[b] == kept_from[b]);
        }
    }
}

/// When the sweep has been through every entry, what it kept is the map
/// without its idle buckets, and what it removed is their keys, each once.
proof fn lemma_sifted_all(
    before: Seq<Entry>,
    kept: Seq<Entry>,
    kept_from: Seq<int>,
    removed: Seq<String>,
    removed_from: Seq<int>,
    now: u64,
    horizon: u64,
)
    requires
        distinct_keys(before),
        states_wf(before),
        sifted(before, 0, kept, kept_from, removed, removed_from, now, horizon),
    ensures
        distinct_keys(kept),
        states_wf(kept),
        as_map(kept) == without_idle(as_map(before), now, horizon),
        views(removed).to_set() == idle_keys(as_map(before), now, horizon),
        views(removed).no_duplicates(),
{
    assert forall|a: int, b: int| 0 <= a < b < kept.len() implies (#[trigger] kept[a]).key@ != (
    #[trigger] kept[b]).key@ by {
        let x = kept_from[a];
        let y = kept_from[b];
        if x < y {
            assert(before[x].key@ != before[y].key@);
        } else {
            assert(before[y].key@ != before[x].key@);
        }
    }
    assert forall|a: int| 0 <= a < kept.len() implies (#[trigger] kept[a]).state.wf() by {
        assert(before[kept_from[a]].state.wf());
    }
    let m = as_map(before);
    let w = without_idle(m, now, horizon);
    assert forall|k: Seq<char>| as_map(kept).contains_key(k) <==> w.contains_key(k) by {
        if has_key(kept, k) {
            let a = index_of(kept, k);
            lemma_entry_in_map(before, kept_from[a]);
        }
        if w.contains_key(k) {
            let j = index_of(before, k);
            lemma_entry_in_map(before, j);
            assert(listed(kept_from, j));
            let a = choose|a: int| 0 <= a < kept_from.len() && #[trigger] kept_from[a] == j;
            assert(kept[a].key@ == k);
        }
    }
    assert forall|k: Seq<char>| as_map(kept).contains_key(k) implies as_map(kept)[k] == w[k] by {
        let a = index_of(kept, k);
        lemma_entry_in_map(kept, a);
        lemma_entry_in_map(before, kept_from[a]);
    }
    assert(as_map(kept) =~= w);
    let v = views(removed);
    let idle = idle_keys(m, now, horizon);
    assert forall|k: Seq<char>| v.to_set().contains(k) <==> idle.contains(k) by {
        if v.to_set().contains(k) {
            let a = choose|a: int| 0 <= a < v.len() && v[a] == k;
            lemma_entry_in_map(before, removed_from[a]);
        }
        if idle.contains(k) {
            let j = index_of(before, k);
            lemma_entry_in_map(before, j);
            assert(listed(removed_from, j));
            let a = choose|a: int| 0 <= a < removed_from.len() && #[trigger] removed_from[a] == j;
            assert(v[a] == k);
        }
    }
    assert(v.to_set() =~= idle);
    assert forall|a: int, b: int| 0 <= a < v.len() && 0 <= b < v.len() && a != b implies v[a]
        != v[b] by {
        let x = removed_from[a];
        let y = removed_from[b];
        if a < b {
            assert(removed_from[a] != removed_from[b]);
        } else {
            assert(removed_from[b] != removed_from[a]);
        }
        if x < y {
            assert(before[x].key@ != before[y].key@);
        } else {
            assert(before[y].key@ != before[x].key@);
        }
    }
}

/// Buckets that are each within capacity make a map that is.
proof fn lemma_within_capacity(s: Seq<Entry>)
    requires
        distinct_keys(s),
        states_wf(s),
    ensures
        within_capacity(as_map(s)),
{
    assert forall|k: Seq<char>| as_map(s).contains_key(k) implies (#[trigger] as_map(s)[k]).wf() by {
        let j = index_of(s, k);
        assert(s[j].state.wf());
    }
}

/// The factor by which the hash of a text grows with each byte.
const HASH_FACTOR: u64 = 1_099_511_628_211;

/// The modulus of the hash, a prime.
const HASH_MODULUS: u64 = 2_305_843_009_213_693_951;

/// The hash of a text, byte by byte.
spec fn bytes_hash(bytes: Seq<u8>) -> u64
    decreases bytes.len(),
{
    if bytes.len() == 0 {
        0
    } else {
        ((bytes_hash(bytes.drop_last()) * HASH_FACTOR + bytes.last()) % (HASH_MODULUS as int)) as u64
    }
}

/// The hash of an identity.
spec fn key_hash(k: Seq<char>) -> u64 {
    bytes_hash(vstd::utf8::encode_utf8(k))
}

/// The places that `index` lists under `h`.
spec fn chain_of(index: Map<u64, Vec<usize>>, h: u64) -> Seq<usize> {
    if index.contains_key(h) {
        index[h]@
    } else {
        Seq::empty()
    }
}

/// Whether `chain` lists the place `i`.
spec fn lists(chain: Seq<usize>, i: int) -> bool {
    exists|j: int| 0 <= j < chain.len() && #[trigger] chain[j] == i
}

/// Whether `index` leads to every entry of `s` and to nothing else: the
/// place of each entry is listed under the hash of its key, and every place
/// listed is one of `s`.
spec fn indexed(s: Seq<Entry>, index: Map<u64, Vec<usize>>) -> bool {
    &&& forall|i: int|
        0 <= i < s.len() ==> lists(chain_of(index, key_hash((#[trigger] s[i]).key@)), i)
    &&& forall|h: u64, j: int|
        0 <= j < chain_of(index, h).len() ==> (#[trigger] chain_of(index, h)[j]) < s.len()
}

/// A key whose hash leads to no entry of that key has no entry.
proof fn lemma_unlisted_is_absent(s: Seq<Entry>, index: Map<u64, Vec<usize>>, k: Seq<char>)
    requires
        indexed(s, index),
        forall|j: int|
            0 <= j < chain_of(index, key_hash(k)).len() ==> s[#[trigger] chain_of(
                index,
                key_hash(k),
            )[j] as int].key@ != k,
    ensures
        !as_map(s).contains_key(k),
{
    if has_key(s, k) {
        let i = index_of(s, k);
        let chain = chain_of(index, key_hash(s[i].key@));
        assert(lists(chain, i));
        let j = choose|j: int| 0 <= j < chain.len() && #[trigger] chain[j] == i;
        assert(s[chain[j] as int].key@ != k);
    }
}

/// The index still fits when the bucket of an entry is replaced.
proof fn lemma_index_after_update(s: Seq<Entry>, index: Map<u64, Vec<usize>>, i: int, e: Entry)
    requires
        indexed(s, index),
        0 <= i < s.len(),
        e.key@ == s[i].key@,
    ensures
        indexed(s.update(i, e), index),
{
    let t = s.update(i, e);
    assert forall|a: int| 0 <= a < t.len() implies lists(
        chain_of(index, key_hash((#[trigger] t[a]).key@)),
        a,
    ) by {
        assert(t[a].key@ == s[a].key@);
        assert(lists(chain_of(index, key_hash(s[a].key@)), a));
    }
}

/// The index fits the list with one more entry once the new place is
/// listed under the hash of the new key.
proof fn lemma_index_after_push(
    s: Seq<Entry>,
    index: Map<u64, Vec<usize>>,
    e: Entry,
    chain: Vec<usize>,
)
    requires
        indexed(s, index),
        chain@.len() == chain_of(index, key_hash(e.key@)).len() + 1,
        chain@.drop_last() == chain_of(index, key_hash(e.key@)),
        chain@.last() == s.len(),
    ensures
        indexed(s.push(e), index.insert(key_hash(e.key@), chain)),
{
    let t = s.push(e);
    let h = key_hash(e.key@);
    let next = index.insert(h, chain);
    let before = chain_of(index, h);
    assert forall|a: int| 0 <= a < t.len() implies lists(
        chain_of(next, key_hash((#[trigger] t[a]).key@)),
        a,
    ) by {
        if a < s.len() {
            assert(t[a] == s[a]);
            let old_chain = chain_of(index, key_hash(s[a].key@));
            assert(lists(old_chain, a));
            if key_hash(s[a].key@) == h {
                let j = choose|j: int| 0 <= j < before.len() && #[trigger] before[j] == a;
                assert(chain@.drop_last()[j] == a);
                assert(chain@[j] == a);
            }
        } else {
            assert(chain@[before.len() as int] == a);
        }
    }
    assert forall|g: u64, j: int| 0 <= j < chain_of(next, g).len() implies (#[trigger] chain_of(
        next,
        g,
    )[j]) < t.len() by {
        if g == h {
            if j < before.len() {
                assert(chain@[j] == chain@.drop_last()[j]);
                assert(chain_of(index, h)[j] < s.len());
            }
        } else {
            assert(chain_of(next, g) == chain_of(index, g));
            assert(chain_of(index, g)[j] < s.len());
        }
    }
}

/// The hash of an identity.
fn hash_of(key: &str) -> (h: u64)
    ensures
        h == key_hash(key@),
{
    let bytes = key.as_bytes();
    let mut h: u64 = 0;
    let mut i: usize = 0;
    while i < bytes.len()
        invariant
            i <= bytes@.len(),
            h == bytes_hash(bytes@.subrange(0, i as int)),
            h < HASH_MODULUS,
        decreases bytes@.len() - i,
    {
        assert(bytes@.subrange(0, i + 1).drop_last() == bytes@.subrange(0, i as int));
        assert(h * HASH_FACTOR + bytes[i as int] <= u128::MAX) by (nonlinear_arith)
            requires
                h < HASH_MODULUS,
                bytes[i as int] <= 255,
        ;
        let mixed: u128 = h as u128 * HASH_FACTOR as u128 + bytes[i] as u128;
        h = (mixed % HASH_MODULUS as u128) as u64;
        i += 1;
    }
    assert(bytes@.subrange(0, bytes@.len() as int) == bytes@);
    h
}

/// The place of the entry of `key`, if it has one.
fn position(entries: &Vec<Entry>, index: &HashMap<u64, Vec<usize>>, key: &String) -> (r: Option<
    usize,
>)
    requires
        indexed(entries@, index@),
    ensures
        match r {
            Some(i) => i < entries@.len() && entries@[i as int].key@ == key@,
            None => !as_map(entries@).contains_key(key@),
        },
{
    broadcast use vstd::std_specs::hash::group_hash_axioms;

    let h = hash_of(key.as_str());
    match index.get(&h) {
        None => {
            proof {
                lemma_unlisted_is_absent(entries@, index@, key@);
            }
            None
        },
        Some(chain) => {
            assert(chain@ == chain_of(index@, h));
            let mut j: usize = 0;
            while j < chain.len()
                invariant
                    j <= chain@.len(),
                    indexed(entries@, index@),
                    h == key_hash(key@),
                    chain@ == chain_of(index@, h),
                    forall|a: int| 0 <= a < j ==> entries@[#[trigger] chain@[a] as int].key@ != key@,
                decreases chain@.len() - j,
            {
                let place: usize = chain[j];
                assert(chain_of(index@, h)[j as int] < entries@.len());
                if entries[place].key == *key {
                    return Some(place);
                }
                j += 1;
            }
            proof {
                lemma_unlisted_is_absent(entries@, index@, key@);
            }
            None
        },
    }
}

/// An index that fits `entries`.
fn index_of_all(entries: &Vec<Entry>) -> (index: HashMap<u64, Vec<usize>>)
    ensures
        indexed(entries@, index@),
{
    broadcast use vstd::std_specs::hash::group_hash_axioms;

    let mut index: HashMap<u64, Vec<usize>> = HashMap::new();
    let mut i: usize = 0;
    while i < entries.len()
        invariant
            i <= entries@.len(),
            indexed(entries@.subrange(0, i as int), index@),
        decreases entries@.len() - i,
    {
        let h = hash_of(entries[i].key.as_str());
        let ghost before = index@;
        let mut chain: Vec<usize> = match index.remove(&h) {
            Some(chain) => chain,
            None => Vec::new(),
        };
        chain.push(i);
        proof {
            let s = entries@.subrange(0, i as int);
            assert(chain@.drop_last() == chain_of(before, h));
            lemma_index_after_push(s, before, entries@[i as int], chain);
            assert(s.push(entries@[i as int]) == entries@.subrange(0, i + 1));
            assert(before.remove(h).insert(h, chain) == before.insert(h, chain));
        }
        index.insert(h, chain);
        i += 1;
    }
    assert(entries@.subrange(0, entries@.len() as int) == entries@);
    index
}

/// The buckets of all clients that have been seen and not dropped since.
pub struct BucketStore {
    entries: Vec<Entry>,
    index: HashMap<u64, Vec<usize>>,
}

impl View for BucketStore {
    type V = Map<Seq<char>, BucketState>;

    /// The bucket of each known identity.
    closed spec fn view(&self) -> Map<Seq<char>, BucketState> {
        as_map(self.entries@)
    }
}

impl BucketStore {
    #[verifier::type_invariant]
    spec fn inv(&self) -> bool {
        &&& distinct_keys(self.entries@)
        &&& states_wf(self.entries@)
        &&& indexed(self.entries@, self.index@)
    }

    /// A store that knows no client.
    pub fn new() -> (s: BucketStore)
        ensures
            s@ == Map::<Seq<char>, BucketState>::empty(),
            within_capacity(s@),
    {
        let s = BucketStore { entries: Vec::new(), index: HashMap::new() };
        assert(s@ =~= Map::<Seq<char>, BucketState>::empty());
        s
    }

    /// The number of clients that have a bucket.
    pub fn len(&self) -> (n: usize)
        ensures
            self@.dom().finite(),
            n == self@.len(),
            within_capacity(self@),
    {
        proof {
            use_type_invariant(self);
            lemma_len(self.entries@);
            lemma_within_capacity(self.entries@);
        }
        self.entries.len()
    }

    /// The bucket of `key`, if it has one.
    pub fn get(&self, key: &str) -> (r: Option<BucketState>)
        ensures
            r == (if self@.contains_key(key@) {
                Some(self@[key@])
            } else {
                None
            }),
            r matches Some(b) ==> b.wf(),
    {
        let owned = key.to_owned();
        proof {
            use_type_invariant(self);
        }
        match position(&self.entries, &self.index, &owned) {
            Some(i) => {
                proof {
                    lemma_entry_in_map(self.entries@, i as int);
                }
                Some(self.entries[i].state)
            },
            None => None,
        }
    }

    /// Charges one request at `now` to the bucket of `key`. A client seen for
    /// the first time gets a full bucket of `capacity` tokens first. No other
    /// client's bucket changes.
    pub fn check(&mut self, key: &str, now: u64, capacity: u32, rate: u32) -> (d: Decision)
        requires
            rate > 0,
        ensures
            d == decision(bucket_or_new(old(self)@, key@, now, capacity), now, rate),
            final(self)@ == after_check(old(self)@, key@, now, capacity, rate),
            within_capacity(final(self)@),
    {
        broadcast use vstd::std_specs::hash::group_hash_axioms;

        let owned = key.to_owned();
        proof {
            use_type_invariant(&*self);
        }
        let mut taken = BucketStore::new();
        core::mem::swap(&mut taken, self);
        let BucketStore { mut entries, mut index } = taken;
        let ghost before = entries@;
        let d = match position(&entries, &index, &owned) {
            Some(i) => {
                let mut state = entries[i].state;
                proof {
                    lemma_entry_in_map(before, i as int);
                }
                let d = state.check(now, rate);
                let entry = Entry { key: owned, state };
                proof {
                    lemma_update(before, i as int, entry);
                    lemma_index_after_update(before, index@, i as int, entry);
                    assert forall|j: int| 0 <= j < before.len() implies (#[trigger] before.update(
                        i as int,
                        entry,
                    )[j]).state.wf() by {
                        if j != i {
                            assert(before[j].state.wf());
                        }
                    }
                }
                entries.set(i, entry);
                d
            },
            None => {
                let mut state = BucketState::new(capacity, now);
                let d = state.check(now, rate);
                let h = hash_of(owned.as_str());
                let place = entries.len();
                let ghost listed = index@;
                let mut chain: Vec<usize> = match index.remove(&h) {
                    Some(chain) => chain,
                    None => Vec::new(),
                };
                chain.push(place);
                let entry = Entry { key: owned, state };
                proof {
                    lemma_push(before, entry);
                    assert(chain@.drop_last() == chain_of(listed, h));
                    lemma_index_after_push(before, listed, entry, chain);
                    assert(listed.remove(h).insert(h, chain) == listed.insert(h, chain));
                    assert forall|j: int| 0 <= j < before.len() + 1 implies (
                    #[trigger] before.push(entry)[j]).state.wf() by {
                        if j < before.len() {
                            assert(before[j].state.wf());
                        }
                    }
                }
                index.insert(h, chain);
                entries.push(entry);
                d
            },
        };
        proof {
            lemma_within_capacity(entries@);
        }
        *self = BucketStore { entries, index };
        d
    }

    /// Drops every bucket that, at `now`, was last used more than `horizon`
    /// nanoseconds ago, and returns the identities dropped, each once. A
    /// bucket used within the horizon stays as it is.
    pub fn evict_idle(&mut self, now: u64, horizon: u64) -> (removed: Vec<String>)
        ensures
            final(self)@ == without_idle(old(self)@, now, horizon),
            views(removed@).to_set() == idle_keys(old(self)@, now, horizon),
            views(removed@).no_duplicates(),
            within_capacity(final(self)@),
    {
        proof {
            use_type_invariant(&*self);
        }
        let mut taken = BucketStore::new();
        core::mem::swap(&mut taken, self);
        let BucketStore { entries: mut rest, index: _ } = taken;
        let ghost before = rest@;
        let mut kept: Vec<Entry> = Vec::new();
        let mut removed: Vec<String> = Vec::new();
        let ghost mut kept_from: Seq<int> = Seq::empty();
        let ghost mut removed_from: Seq<int> = Seq::empty();
        while rest.len() > 0
            invariant
                distinct_keys(before),
                states_wf(before),
                rest@.len() <= before.len(),
                rest@ == before.subrange(0, rest@.len() as int),
                sifted(
                    before,
                    rest@.len() as int,
                    kept@,
                    kept_from,
                    removed@,
                    removed_from,
                    now,
                    horizon,
                ),
            decreases rest@.len(),
        {
            let ghost n = rest@.len() - 1;
            let ghost kept_prev = kept@;
            let ghost removed_prev = removed@;
            let entry = rest.pop().unwrap();
            assert(entry == before[n]);
            let idle = now > entry.state.last_update && now - entry.state.last_update > horizon;
            if idle {
                removed.push(entry.key);
                proof {
                    lemma_sift_idle(
                        before,
                        n,
                        kept@,
                        kept_from,
                        removed_prev,
                        removed_from,
                        removed@,
                        now,
                        horizon,
                    );
                    removed_from = removed_from.push(n);
                }
            } else {
                kept.push(entry);
                proof {
                    lemma_sift_recent(
                        before,
                        n,
                        kept_prev,
                        kept_from,
                        kept@,
                        removed@,
                        removed_from,
                        now,
                        horizon,
                    );
                    kept_from = kept_from.push(n);
                }
            }
        }
        proof {
            lemma_sifted_all(before, kept@, kept_from, removed@, removed_from, now, horizon);
            lemma_within_capacity(kept@);
        }
        let index = index_of_all(&kept);
        *self = BucketStore { entries: kept, index };
        removed
    }
}

} // verus!
