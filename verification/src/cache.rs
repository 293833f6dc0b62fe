//! Generic TTL cache and the cache keys derived from chat-id sets.
//!
//! Every lookup takes an explicit monotonic clock reading, so freshness
//! is a pure function of the store, the key, the requested TTL and the
//! clock: wall-clock jumps cannot stretch or shorten an entry's life.

use vstd::prelude::*;
use vstd::seq_lib::lemma_multiset_commutative;
use vstd::multiset::Multiset;
use vstd::std_specs::hash::DefaultHasherAdditionalSpecFns;
use vstd::relations::sorted_by;
use std::collections::hash_map::DefaultHasher;
use std::hash::Hasher;
use crate::rate_limiter::elapsed_secs;
use crate::strutil::{chars_of, string_from_chars, u64_hex_chars, hex_rep, dec_rep, u64_dec_chars, append_chars};

verus! {

broadcast use vstd::std_specs::vec::group_vec_axioms, vstd::seq_lib::group_to_multiset_ensures;

/// Entry in the cache: a value and the monotonic second it was stored.
pub struct CacheEntry<V> {
    pub data: V,
    pub created_at: u64,
}

/// Mapping from string key to a value with an insertion timestamp.
pub struct TTLCache<V> {
    entries: Vec<(String, CacheEntry<V>)>,
}

/// The mapping a list of keyed entries stands for; a later entry with
/// the same key shadows an earlier one.
pub open spec fn entries_map<V>(s: Seq<(String, CacheEntry<V>)>) -> Map<Seq<char>, CacheEntry<V>>
    decreases s.len(),
{
    if s.len() == 0 {
        Map::empty()
    } else {
        entries_map(s.drop_last()).insert(s.last().0@, s.last().1)
    }
}

/// Entries of `s` whose key is not `k`, in order.
pub open spec fn entries_without<V>(
    s: Seq<(String, CacheEntry<V>)>,
    k: Seq<char>,
) -> Seq<(String, CacheEntry<V>)>
    decreases s.len(),
{
    if s.len() == 0 {
        s
    } else if s.last().0@ == k {
        entries_without(s.drop_last(), k)
    } else {
        entries_without(s.drop_last(), k).push(s.last())
    }
}

proof fn lemma_entries_map_last_occurrence<V>(s: Seq<(String, CacheEntry<V>)>, k: Seq<char>, j: int)
    requires
        0 <= j < s.len(),
        s[j].0@ == k,
        forall|l: int| j < l < s.len() ==> s[l].0@ != k,
    ensures
        entries_map(s).contains_key(k),
        entries_map(s)[k] == s[j].1,
    decreases s.len(),
{
    if j == s.len() - 1 {
    } else {
        lemma_entries_map_last_occurrence(s.drop_last(), k, j);
    }
}

proof fn lemma_entries_map_absent<V>(s: Seq<(String, CacheEntry<V>)>, k: Seq<char>)
    requires
        forall|l: int| 0 <= l < s.len() ==> s[l].0@ != k,
    ensures
        !entries_map(s).contains_key(k),
    decreases s.len(),
{
    if s.len() > 0 {
        lemma_entries_map_absent(s.drop_last(), k);
    }
}

proof fn lemma_entries_without_removes<V>(s: Seq<(String, CacheEntry<V>)>, k: Seq<char>)
    ensures
        entries_map(entries_without(s, k)) == entries_map(s).remove(k),
    decreases s.len(),
{
    if s.len() == 0 {
        assert(entries_map(entries_without(s, k)) =~= entries_map(s).remove(k));
    } else {
        lemma_entries_without_removes(s.drop_last(), k);
        if s.last().0@ == k {
            assert(entries_map(s).remove(k) =~= entries_map(s.drop_last()).remove(k));
        } else {
            let w = entries_without(s.drop_last(), k).push(s.last());
            assert(w.drop_last() =~= entries_without(s.drop_last(), k));
            assert(entries_map(s).remove(k) =~= entries_map(s.drop_last()).remove(k).insert(
                s.last().0@,
                s.last().1,
            ));
        }
    }
}

impl<V> TTLCache<V> {
    /// The mapping from key to stored entry.
    pub closed spec fn view(&self) -> Map<Seq<char>, CacheEntry<V>> {
        entries_map(self.entries@)
    }

    /// Create a new empty cache.
    pub fn new() -> (r: Self)
        ensures
            r@ == Map::<Seq<char>, CacheEntry<V>>::empty(),
    {
        let r = TTLCache { entries: Vec::new() };
        proof {
            assert(r@ =~= Map::<Seq<char>, CacheEntry<V>>::empty());
        }
        r
    }

    /// The entry under `key` with its age at `now`, if it exists and its
    /// age is still under `ttl_secs`.
    pub fn get<'a>(&'a self, key: &str, ttl_secs: u64, now: u64) -> (r: Option<(&'a V, u64)>)
        ensures
            match r {
                Some((v, age)) => {
                    &&& self@.contains_key(key@)
                    &&& *v == self@[key@].data
                    &&& age == elapsed_secs(now, self@[key@].created_at)
                    &&& age < ttl_secs
                },
                None => !self@.contains_key(key@) || elapsed_secs(
                    now,
                    self@[key@].created_at,
                ) >= ttl_secs,
            },
    {
        let n = self.entries.len();
        let mut i: usize = n;
        while i > 0
            invariant
                n == self.entries@.len() <= usize::MAX,
                0 <= i <= n,
                forall|l: int| i <= l < n ==> self.entries@[l].0@ != key@,
            decreases i,
        {
            i -= 1;
            if crate::strutil::str_eq(self.entries[i].0.as_str(), key) {
                proof {
                    lemma_entries_map_last_occurrence(self.entries@, key@, i as int);
                }
                let age: u64 = if now >= self.entries[i].1.created_at {
                    now - self.entries[i].1.created_at
                } else {
                    0
                };
                if age < ttl_secs {
                    return Some((&self.entries[i].1.data, age));
                } else {
                    return None;
                }
            }
        }
        proof {
            lemma_entries_map_absent(self.entries@, key@);
        }
        None
    }

    /// Store `value` under `key` at monotonic time `now`, replacing any
    /// earlier entry.
    pub fn set(&mut self, key: &str, value: V, now: u64)
        ensures
            final(self)@ == old(self)@.insert(
                key@,
                CacheEntry { data: value, created_at: now },
            ),
    {
        let owned: String = key.to_owned();
        self.entries.push((owned, CacheEntry { data: value, created_at: now }));
        proof {
            assert(self.entries@.drop_last() =~= old(self).entries@);
        }
    }

    /// Drop the entry under `key`, if any.
    pub fn invalidate(&mut self, key: &str)
        ensures
            final(self)@ == old(self)@.remove(key@),
    {
        let mut src: Vec<(String, CacheEntry<V>)> = Vec::new();
        core::mem::swap(&mut self.entries, &mut src);
        let ghost orig = src@;
        let srclen = src.len();
        assert(orig.len() == srclen <= usize::MAX);
        let mut kept: Vec<(String, CacheEntry<V>)> = Vec::new();
        let mut i: usize = 0;
        proof {
            assert(orig.take(0) =~= Seq::<(String, CacheEntry<V>)>::empty());
            assert(kept@ =~= entries_without(orig.take(0), key@));
            assert(orig.skip(0) =~= orig);
        }
        while src.len() > 0
            invariant
                orig.len() <= usize::MAX,
                0 <= i <= orig.len(),
                src@ == orig.skip(i as int),
                kept@ == entries_without(orig.take(i as int), key@),
            decreases src@.len(),
    {
            let entry = src.remove(0);
            proof {
                assert(entry == orig[i as int]);
                assert(src@ =~= orig.skip(i + 1));
                assert(orig.take(i + 1).drop_last() =~= orig.take(i as int));
                assert(orig.take(i + 1).last() == orig[i as int]);
            }
            if !crate::strutil::str_eq(entry.0.as_str(), key) {
                kept.push(entry);
            }
            i += 1;
        }
        proof {
            assert(orig.take(i as int) =~= orig);
            lemma_entries_without_removes(orig, key@);
        }
        self.entries = kept;
    }

    /// Drop every entry.
    pub fn invalidate_all(&mut self)
        ensures
            final(self)@ == Map::<Seq<char>, CacheEntry<V>>::empty(),
    {
        self.entries.clear();
        proof {
            assert(final(self)@ =~= Map::<Seq<char>, CacheEntry<V>>::empty());
        }
    }
}

/// The non-strict order on chat ids used for the cache key.
pub open spec fn id_le() -> spec_fn(i64, i64) -> bool {
    |a: i64, b: i64| a <= b
}

/// Chat ids shifted into `u64` order-preservingly.
pub open spec fn id_bits(x: i64) -> u64 {
    ((x as int) + 0x8000_0000_0000_0000) as u64
}

/// The `n` low-order bytes of `bits`, least significant first.
pub open spec fn le_bytes(bits: u64, n: nat) -> Seq<u8>
    decreases n,
{
    if n == 0 {
        Seq::empty()
    } else {
        seq![(bits % 256) as u8] + le_bytes(bits / 256, (n - 1) as nat)
    }
}

/// The byte sequence a chat id contributes to the hash.
pub open spec fn id_hash_bytes(x: i64) -> Seq<u8> {
    le_bytes(id_bits(x), 8)
}

/// The cache key for a set of chat ids: a fixed prefix and the hex hash
/// of the ids in ascending order, so every permutation of the same ids
/// produces the same key.
pub open spec fn chat_ids_cache_key(ids: Seq<i64>) -> Seq<char> {
    let sorted = ids.sort_by(id_le());
    let digest = DefaultHasher::spec_finish(sorted.map_values(|x: i64| id_hash_bytes(x)));
    "chats:"@ + hex_rep(digest as int)
}

fn id_bits_x(x: i64) -> (r: u64)
    ensures
        r == id_bits(x),
{
    if x >= 0 {
        (x as u64) + 0x8000_0000_0000_0000
    } else {
        ((x + i64::MAX) + 1) as u64
    }
}

fn le_bytes_x(bits: u64, n: usize) -> (r: Vec<u8>)
    ensures
        r@ == le_bytes(bits, n as nat),
    decreases n,
{
    if n == 0 {
        let r: Vec<u8> = Vec::new();
        assert(r@ =~= le_bytes(bits, 0));
        r
    } else {
        let mut r: Vec<u8> = Vec::new();
        r.push((bits % 256) as u8);
        let rest = le_bytes_x(bits / 256, n - 1);
        append_chars_u8(&mut r, &rest);
        assert(r@ =~= le_bytes(bits, n as nat));
        r
    }
}

fn append_chars_u8(out: &mut Vec<u8>, add: &Vec<u8>)
    ensures
        final(out)@ == old(out)@ + add@,
{
    let mut k: usize = 0;
    while k < add.len()
        invariant
            0 <= k <= add@.len(),
            out@ == old(out)@ + add@.take(k as int),
        decreases add@.len() - k,
    {
        out.push(add[k]);
        assert(out@ =~= old(out)@ + add@.take(k + 1));
        k += 1;
    }
    assert(out@ =~= old(out)@ + add@);
}

/// Ascending copy of `ids`, with the same elements counted with
/// multiplicity.
fn sort_ids(ids: &Vec<i64>) -> (r: Vec<i64>)
    ensures
        sorted_by(r@, id_le()),
        r@.to_multiset() == ids@.to_multiset(),
{
    let mut r: Vec<i64> = Vec::new();
    let mut i: usize = 0;
    let idslen = ids.len();
    assert(ids@.len() == idslen <= usize::MAX);
    proof {
        assert(ids@.take(0) =~= Seq::<i64>::empty());
        assert(r@.to_multiset() =~= ids@.take(0).to_multiset());
    }
    while i < ids.len()
        invariant
            0 <= i <= ids@.len(),
            ids@.len() <= usize::MAX,
            sorted_by(r@, id_le()),
            r@.to_multiset() == ids@.take(i as int).to_multiset(),
            r@.len() == i,
        decreases ids@.len() - i,
    {
        let x = ids[i];
        let mut pos: usize = 0;
        while pos < r.len() && r[pos] <= x
            invariant
                0 <= pos <= r@.len(),
                forall|j: int| 0 <= j < pos ==> r@[j] <= x,
            decreases r@.len() - pos,
        {
            pos += 1;
        }
        let ghost before = r@;
        r.insert(pos, x);
        proof {
            assert(r@ =~= before.take(pos as int) + seq![x] + before.skip(pos as int));
            assert forall|a: int, b: int| 0 <= a < b < r@.len() implies id_le()(r@[a], r@[b]) by {
                if b < pos {
                    assert(r@[a] == before[a] && r@[b] == before[b]);
                } else if a > pos {
                    assert(r@[a] == before[a - 1] && r@[b] == before[b - 1]);
                } else if b == pos {
                    assert(r@[a] == before[a] && r@[b] == x);
                } else if a == pos {
                    // r@[a] == x; everything at or past pos in `before`
                    // is at least x because the scan stopped there.
                    assert(r@[b] == before[b - 1]);
                    if pos < before.len() {
                        assert(!(before[pos as int] <= x));
                        assert(id_le()(before[pos as int], before[b - 1]) || pos == b - 1);
                    }
                } else {
                    assert(r@[a] == before[a] && r@[b] == before[b - 1]);
                    if pos < before.len() {
                        assert(!(before[pos as int] <= x));
                    }
                }
            }
            lemma_multiset_commutative(before.take(pos as int) + seq![x], before.skip(pos as int));
            lemma_multiset_commutative(before.take(pos as int), seq![x]);
            lemma_multiset_commutative(before.take(pos as int), before.skip(pos as int));
            assert(before.take(pos as int) + before.skip(pos as int) =~= before);
            assert(seq![x].to_multiset() =~= Multiset::<i64>::empty().insert(x));
            assert(r@.to_multiset() =~= before.to_multiset().insert(x));
            assert(ids@.take(i + 1).drop_last() =~= ids@.take(i as int));
            assert(ids@.take(i + 1) =~= ids@.take(i as int).push(x));
            assert(ids@.take(i as int).push(x).to_multiset() =~= ids@.take(
                i as int,
            ).to_multiset().insert(x));
        }
        i += 1;
    }
    proof {
        assert(ids@.take(i as int) =~= ids@);
    }
    r
}

/// Two ascending sequences with the same elements are the same sequence.
proof fn lemma_sorted_unique(a: Seq<i64>, b: Seq<i64>)
    requires
        sorted_by(a, id_le()),
        sorted_by(b, id_le()),
        a.to_multiset() == b.to_multiset(),
    ensures
        a =~= b,
    decreases a.len(),
{
    if a.len() == 0 {
        assert(b.to_multiset().len() == 0);
        assert(b.len() == 0);
    } else {
        assert(a.to_multiset().len() == a.len());
        assert(b.to_multiset().len() == b.len());
        assert(b.len() > 0);
        // Both heads are least elements of the same multiset, so equal.
        assert(a.to_multiset().count(b[0]) > 0);
        assert(a.contains(b[0]));
        assert(b.to_multiset().count(a[0]) > 0);
        assert(b.contains(a[0]));
        let ia = choose|k: int| 0 <= k < a.len() && a[k] == b[0];
        let ib = choose|k: int| 0 <= k < b.len() && b[k] == a[0];
        assert(a[0] <= a[ia]) by {
            if ia > 0 {
                assert(id_le()(a[0], a[ia]));
            }
        }
        assert(b[0] <= b[ib]) by {
            if ib > 0 {
                assert(id_le()(b[0], b[ib]));
            }
        }
        assert(a[0] == b[0]);
        let atail = a.remove(0);
        let btail = b.remove(0);
        assert(atail.to_multiset() =~= a.to_multiset().remove(a[0]));
        assert(btail.to_multiset() =~= b.to_multiset().remove(b[0]));
        assert forall|p: int, q: int| 0 <= p < q < atail.len() implies id_le()(
            atail[p],
            atail[q],
        ) by {
            assert(atail[p] == a[p + 1] && atail[q] == a[q + 1]);
        }
        assert forall|p: int, q: int| 0 <= p < q < btail.len() implies id_le()(
            btail[p],
            btail[q],
        ) by {
            assert(btail[p] == b[p + 1] && btail[q] == b[q + 1]);
        }
        lemma_sorted_unique(atail, btail);
        assert(a =~= seq![a[0]] + atail);
        assert(b =~= seq![b[0]] + btail);
    }
}

/// Generate a cache key from a list of chat ids. The ids are sorted
/// first, so the key depends only on which ids occur, not on their
/// order.
pub fn generate_chat_ids_key(chat_ids: &Vec<i64>) -> (r: String)
    ensures
        r@ == chat_ids_cache_key(chat_ids@),
{
    let sorted = sort_ids(chat_ids);
    proof {
        chat_ids@.lemma_sort_by_ensures(id_le());
        lemma_sorted_unique(sorted@, chat_ids@.sort_by(id_le()));
    }
    let mut hasher = DefaultHasher::new();
    let n = sorted.len();
    let mut i: usize = 0;
    proof {
        assert(hasher@ =~= sorted@.take(0).map_values(|x: i64| id_hash_bytes(x)));
    }
    while i < n
        invariant
            n == sorted@.len() <= usize::MAX,
            0 <= i <= n,
            hasher@ == sorted@.take(i as int).map_values(|x: i64| id_hash_bytes(x)),
        decreases n - i,
    {
        let bytes = le_bytes_x(id_bits_x(sorted[i]), 8);
        hasher.write(bytes.as_slice());
        proof {
            assert(bytes@ == id_hash_bytes(sorted@[i as int]));
            assert(hasher@ =~= sorted@.take(i + 1).map_values(|x: i64| id_hash_bytes(x)));
        }
        i += 1;
    }
    proof {
        assert(sorted@.take(i as int) =~= sorted@);
    }
    let digest = hasher.finish();
    let mut out = chars_of("chats:");
    let hex = u64_hex_chars(digest);
    append_chars(&mut out, &hex);
    assert(out@ =~= chat_ids_cache_key(chat_ids@));
    string_from_chars(&out)
}

/// The same set of chat ids yields the same cache key in any order:
/// permuting the list leaves the key unchanged.
pub proof fn lemma_cache_key_order_blind(ids1: Seq<i64>, ids2: Seq<i64>)
    requires
        ids1.to_multiset() == ids2.to_multiset(),
    ensures
        chat_ids_cache_key(ids1) == chat_ids_cache_key(ids2),
{
    ids1.lemma_sort_by_ensures(id_le());
    ids2.lemma_sort_by_ensures(id_le());
    lemma_sorted_unique(ids1.sort_by(id_le()), ids2.sort_by(id_le()));
}

/// What `format_cache_age` renders for an age in seconds.
pub open spec fn cache_age_text(age_secs: u64) -> Seq<char> {
    if age_secs < 60 {
        "just now"@
    } else if age_secs < 3600 {
        dec_rep((age_secs / 60) as int) + "m ago"@
    } else if age_secs < 86400 {
        dec_rep((age_secs / 3600) as int) + "h ago"@
    } else {
        dec_rep((age_secs / 86400) as int) + "d ago"@
    }
}

/// Format an age in seconds as a short human-readable phrase.
pub fn format_cache_age(age_secs: u64) -> (r: String)
    ensures
        r@ == cache_age_text(age_secs),
{
    if age_secs < 60 {
        let out = chars_of("just now");
        return string_from_chars(&out);
    }
    let (value, unit): (u64, &str) = if age_secs < 3600 {
        (age_secs / 60, "m ago")
    } else if age_secs < 86400 {
        (age_secs / 3600, "h ago")
    } else {
        (age_secs / 86400, "d ago")
    };
    let mut out = u64_dec_chars(value);
    let unit_chars = chars_of(unit);
    append_chars(&mut out, &unit_chars);
    string_from_chars(&out)
}

} // verus!
