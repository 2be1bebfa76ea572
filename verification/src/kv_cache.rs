//! A bounded key/value cache for autoregressive inference: once full, each
//! new entry evicts the oldest one.
//!
//! The cache is generic in what it stores; the model stores keys and values
//! compressed to trits with a per-vector scale.

use vstd::prelude::*;

verus! {

/// One cached (key, value) pair.
pub struct KvCacheEntry<T> {
    pub key: T,
    pub value: T,
}

/// Cache of at most `max_len` entries, oldest first.
pub struct KvCache<T> {
    pub entries: Vec<KvCacheEntry<T>>,
    pub max_len: usize,
}

/// The entries after pushing `e` onto `s`: the oldest entry leaves first
/// when `s` already holds `max_len` or more entries.
pub open spec fn window_push<E>(s: Seq<E>, e: E, max_len: int) -> Seq<E> {
    if s.len() >= max_len {
        s.drop_first().push(e)
    } else {
        s.push(e)
    }
}

/// The entries after pushing each element of `es` in order onto `s`.
pub open spec fn window_push_all<E>(s: Seq<E>, es: Seq<E>, max_len: int) -> Seq<E>
    decreases es.len(),
{
    if es.len() == 0 {
        s
    } else {
        window_push(window_push_all(s, es.drop_last(), max_len), es.last(), max_len)
    }
}

impl<T> KvCache<T> {
    /// An empty cache holding at most `max_len` entries.
    pub fn new(max_len: usize) -> (cache: Self)
        ensures
            cache.entries@ == Seq::<KvCacheEntry<T>>::empty(),
            cache.max_len == max_len,
    {
        KvCache { entries: Vec::new(), max_len }
    }

    /// Stores a (key, value) pair, first evicting the oldest entry when the
    /// cache already holds `max_len` entries or more. (An empty cache with
    /// `max_len == 0` has no entry to evict.)
    pub fn push(&mut self, key: T, value: T)
        requires
            old(self).max_len > 0 || old(self).entries@.len() > 0,
        ensures
            final(self).max_len == old(self).max_len,
            final(self).entries@ == window_push(
                old(self).entries@,
                (KvCacheEntry { key, value }),
                old(self).max_len as int,
            ),
    {
        if self.entries.len() >= self.max_len {
            self.entries.remove(0);
        }
        self.entries.push(KvCacheEntry { key, value });
    }

    /// The key at position `i`, oldest first.
    pub fn get_key(&self, i: usize) -> (k: &T)
        requires
            i < self.entries@.len(),
        ensures
            *k == self.entries@[i as int].key,
    {
        &self.entries[i].key
    }

    /// The value at position `i`, oldest first.
    pub fn get_value(&self, i: usize) -> (v: &T)
        requires
            i < self.entries@.len(),
        ensures
            *v == self.entries@[i as int].value,
    {
        &self.entries[i].value
    }

    /// Number of cached entries.
    pub fn len(&self) -> (n: usize)
        ensures
            n == self.entries@.len(),
    {
        self.entries.len()
    }

    /// Whether the cache holds no entry.
    pub fn is_empty(&self) -> (b: bool)
        ensures
            b <==> self.entries@.len() == 0,
    {
        self.entries.is_empty()
    }
}

/// A push never takes a cache of at most `max_len > 0` entries past
/// `max_len`: it grows by one until full and then keeps its length.
pub proof fn lemma_push_stays_bounded<E>(s: Seq<E>, e: E, max_len: int)
    requires
        max_len > 0,
        s.len() <= max_len,
    ensures
        window_push(s, e, max_len).len() <= max_len,
        s.len() < max_len ==> window_push(s, e, max_len).len() == s.len() + 1,
        s.len() == max_len ==> window_push(s, e, max_len).len() == max_len,
{
}

/// Pushing onto a cache that already holds `max_len` entries or more keeps
/// its length: the oldest entry leaves, every other entry moves one place
/// towards the front, and the new entry comes last.
pub proof fn lemma_push_onto_full_evicts_oldest<E>(s: Seq<E>, e: E, max_len: int)
    requires
        s.len() >= max_len,
        s.len() > 0,
    ensures
        window_push(s, e, max_len).len() == s.len(),
        forall|i: int|
            0 <= i < s.len() - 1 ==> #[trigger] window_push(s, e, max_len)[i] == s[i + 1],
        window_push(s, e, max_len)[s.len() - 1] == e,
{
}

/// Pushing onto a cache with room left keeps every entry in place and adds
/// the new one last.
pub proof fn lemma_push_with_room_appends<E>(s: Seq<E>, e: E, max_len: int)
    requires
        s.len() < max_len,
    ensures
        window_push(s, e, max_len).len() == s.len() + 1,
        forall|i: int| 0 <= i < s.len() ==> #[trigger] window_push(s, e, max_len)[i] == s[i],
        window_push(s, e, max_len)[s.len() as int] == e,
{
}

/// What was pushed last is read back as the newest entry, and the entries
/// before it keep their order.
pub proof fn lemma_push_then_read_newest<E>(s: Seq<E>, e: E, max_len: int)
    ensures
        window_push(s, e, max_len).len() >= 1,
        window_push(s, e, max_len).last() == e,
        window_push(s, e, max_len).drop_last() == (if s.len() >= max_len {
            s.drop_first()
        } else {
            s
        }),
{
    if s.len() >= max_len {
        assert(s.drop_first().push(e).drop_last() =~= s.drop_first());
    } else {
        assert(s.push(e).drop_last() =~= s);
    }
}

/// Pushing a sequence of entries into an empty cache of capacity
/// `max_len > 0` leaves exactly the last `min(n, max_len)` of them, oldest
/// first.
pub proof fn lemma_cache_keeps_latest<E>(es: Seq<E>, max_len: int)
    requires
        max_len > 0,
    ensures
        window_push_all(Seq::empty(), es, max_len) == es.subrange(
            es.len() - (if es.len() <= max_len {
                es.len() as int
            } else {
                max_len
            }),
            es.len() as int,
        ),
    decreases es.len(),
{
    if es.len() > 0 {
        let n = es.len() as int;
        let prev = es.drop_last();
        lemma_cache_keeps_latest(prev, max_len);
        if n - 1 < max_len {
            assert(prev.subrange(0, n - 1).push(es.last()) =~= es.subrange(0, n));
        } else {
            assert(prev.subrange(n - 1 - max_len, n - 1).drop_first().push(es.last())
                =~= es.subrange(n - max_len, n));
        }
    }
}

} // verus!
