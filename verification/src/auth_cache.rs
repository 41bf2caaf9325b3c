//! The cache of authenticated users: its keys, its entries and their expiry,
//! and the cache itself, which forgets the entry that was used least recently
//! when it is full.
//!
//! Time is a count of nanoseconds on a clock that never runs backwards. The
//! caller reads the clock and hands the time in.
//!
//! Which entry was used when is kept by an `lru::LruCache`. It holds a ticket
//! for each key, and the entries themselves stand in a map by ticket.

use lru::LruCache;
use std::collections::HashMap;
use std::num::NonZeroUsize;
use vstd::prelude::*;

verus! {

/// What an authenticated request is looked up by: the credentials it came
/// with and the tenant it is for.
#[derive(Clone, Hash, Eq, PartialEq)]
pub struct AuthCacheKey {
    pub authorization: String,
    pub tenant: String,
}

impl View for AuthCacheKey {
    type V = (Seq<char>, Seq<char>);

    open spec fn view(&self) -> (Seq<char>, Seq<char>) {
        (self.authorization@, self.tenant@)
    }
}

impl AuthCacheKey {
    /// The key of the user who authorizes with `authorization`, acting in
    /// `tenant`.
    pub fn new(authorization: String, tenant: String) -> (key: Self)
        ensures
            key@ == (authorization@, tenant@),
    {
        Self { authorization, tenant }
    }

    /// The credentials of the key.
    pub fn authorization(&self) -> (authorization: &str)
        ensures
            authorization@ == self@.0,
    {
        self.authorization.as_str()
    }

    /// The tenant of the key.
    pub fn tenant(&self) -> (tenant: &str)
        ensures
            tenant@ == self@.1,
    {
        self.tenant.as_str()
    }
}

/// The time at which an entry made at `now` expires, if it lives for `ttl`:
/// never without a time to live, and else `ttl` later, or at the end of time
/// if that lies beyond it.
pub open spec fn expiry(ttl: Option<u128>, now: u128) -> Option<u128> {
    match ttl {
        None => None,
        Some(ttl) => Some(
            if now + ttl > u128::MAX {
                u128::MAX
            } else {
                (now + ttl) as u128
            },
        ),
    }
}

/// A cached value and the time at which it stops to count.
#[derive(Clone)]
pub struct CacheEntry<V> {
    pub value: V,
    pub expires_at: Option<u128>,
}

impl<V> CacheEntry<V> {
    /// Whether the entry no longer counts at `now`: it expires at the very
    /// time it was given, and one without such a time never does.
    pub open spec fn spec_is_expired(&self, now: u128) -> bool {
        match self.expires_at {
            Some(expires_at) => expires_at <= now,
            None => false,
        }
    }

    /// An entry for `value`, made at `now`, that lives for `ttl` nanoseconds,
    /// or for ever without a `ttl`.
    pub fn new(value: V, ttl: Option<u128>, now: u128) -> (entry: Self)
        ensures
            entry.value == value,
            entry.expires_at == expiry(ttl, now),
    {
        let expires_at = match ttl {
            Some(ttl) => Some(now.saturating_add(ttl)),
            None => None,
        };
        CacheEntry { value, expires_at }
    }

    /// Whether the entry has expired at `now`.
    #[verifier::when_used_as_spec(spec_is_expired)]
    pub fn is_expired(&self, now: u128) -> (expired: bool)
        ensures
            expired == self.spec_is_expired(now),
    {
        match self.expires_at {
            Some(expires_at) => expires_at <= now,
            None => false,
        }
    }

    /// The value of the entry, unless it has expired at `now`.
    pub fn live_value(&self, now: u128) -> (value: Option<&V>)
        ensures
            value == if self.is_expired(now) {
                None
            } else {
                Some(&self.value)
            },
    {
        if self.is_expired(now) {
            None
        } else {
            Some(&self.value)
        }
    }
}

/// An entry that has expired stays expired: the clock does not run backwards.
pub proof fn lemma_expired_stays_expired<V>(entry: CacheEntry<V>, now: u128, later: u128)
    requires
        now <= later,
        entry.is_expired(now),
    ensures
        entry.is_expired(later),
{
}

/// An entry with a time to live counts from the moment it is made until that
/// time has passed, and no longer, as far as time reaches.
pub proof fn lemma_entry_lives_for_ttl(ttl: u128, made: u128, now: u128)
    requires
        made + ttl <= u128::MAX,
    ensures
        (CacheEntry::<()> { value: (), expires_at: expiry(Some(ttl), made) }).is_expired(now) <==> made
            + ttl <= now,
{
}

/// A key as mathematics: its credentials and its tenant.
pub type KeyView = (Seq<char>, Seq<char>);

/// `lru::LruCache`, a map of bounded size that keeps its entries in the order
/// of their last use. Its inside is never looked at here.
#[verifier::external_type_specification]
#[verifier::external_body]
#[verifier::reject_recursive_types(K)]
#[verifier::reject_recursive_types(V)]
#[verifier::reject_recursive_types(S)]
pub struct ExLruCache<K, V, S>(LruCache<K, V, S>);

/// `lru::DefaultHasher`, the hasher of an `LruCache` made by
/// `LruCache::new`. Its inside is never looked at here.
#[verifier::external_type_specification]
#[verifier::external_body]
pub struct ExDefaultHasher(lru::DefaultHasher);

/// The `LruCache` that keeps a ticket for each key.
pub type Tickets = LruCache<AuthCacheKey, u128>;

/// What a cache of tickets holds: the key and the ticket of each entry, the
/// most recently used first. Keys are the same to the cache exactly if their
/// credentials and their tenants are, which is how `AuthCacheKey` derives its
/// equality and its hash.
pub uninterp spec fn lru_contents(cache: Tickets) -> Seq<(KeyView, u128)>;

/// The number of entries that a cache of tickets was made for.
pub uninterp spec fn lru_capacity(cache: Tickets) -> nat;

/// The sequence `s` with `first` put in front of it.
pub open spec fn put_first<T>(first: T, s: Seq<T>) -> Seq<T> {
    Seq::new(s.len() + 1, |j: int| if j == 0 { first } else { s[j - 1] })
}

/// The sequence `s` without what stands at index `i`.
pub open spec fn without<T>(s: Seq<T>, i: int) -> Seq<T> {
    Seq::new((s.len() - 1) as nat, |j: int| if j < i { s[j] } else { s[j + 1] })
}

/// Whether `key` stands at index `i` of `contents`.
pub open spec fn key_at<T>(contents: Seq<(KeyView, T)>, key: KeyView, i: int) -> bool {
    0 <= i < contents.len() && contents[i].0 == key
}

/// Whether `key` stands nowhere in `contents`.
pub open spec fn key_absent<T>(contents: Seq<(KeyView, T)>, key: KeyView) -> bool {
    forall|i: int| 0 <= i < contents.len() ==> (#[trigger] contents[i]).0 != key
}

/// Whether pushing `item` under `key` into a cache made for `capacity`
/// entries leads from `before` to `after` and puts out `replaced`.
///
/// The new entry becomes the most recently used. It takes the place of an
/// entry with the same key, if there is one; else, if the cache is full, the
/// least recently used entry leaves. What was replaced or has left is put
/// out.
pub open spec fn is_push<T>(
    before: Seq<(KeyView, T)>,
    capacity: nat,
    key: KeyView,
    item: T,
    after: Seq<(KeyView, T)>,
    replaced: Option<T>,
) -> bool {
    if !key_absent(before, key) {
        exists|i: int| #[trigger]
            key_at(before, key, i) && after == put_first((key, item), without(before, i))
                && replaced == Some(before[i].1)
    } else if before.len() < capacity {
        after == put_first((key, item), before) && replaced is None
    } else {
        after == put_first((key, item), without(before, before.len() - 1)) && replaced == Some(
            before[before.len() - 1].1,
        )
    }
}

/// Whether looking `key` up leads from `before` to `after` and finds
/// `found`: an entry that is found becomes the most recently used.
pub open spec fn is_get<T>(
    before: Seq<(KeyView, T)>,
    key: KeyView,
    after: Seq<(KeyView, T)>,
    found: Option<T>,
) -> bool {
    match found {
        Some(item) => exists|i: int| #[trigger]
            key_at(before, key, i) && before[i].1 == item && after == put_first(
                before[i],
                without(before, i),
            ),
        None => key_absent(before, key) && after == before,
    }
}

/// Whether taking `key` out leads from `before` to `after` and hands out
/// `found`.
pub open spec fn is_pop<T>(
    before: Seq<(KeyView, T)>,
    key: KeyView,
    after: Seq<(KeyView, T)>,
    found: Option<T>,
) -> bool {
    match found {
        Some(item) => exists|i: int| #[trigger]
            key_at(before, key, i) && before[i].1 == item && after == without(before, i),
        None => key_absent(before, key) && after == before,
    }
}

/// Calls `LruCache::new`, which makes an empty cache for `capacity` entries.
#[verifier::external_body]
fn lru_new(capacity: usize) -> (cache: Tickets)
    requires
        capacity > 0,
    ensures
        lru_contents(cache) == Seq::<(KeyView, u128)>::empty(),
        lru_capacity(cache) == capacity,
{
    LruCache::new(NonZeroUsize::new(capacity).unwrap())
}

/// Calls `LruCache::push`, which makes `key` with `ticket` the most recently
/// used entry and returns the entry that it replaced, or that had to leave
/// because the cache was full; of that entry the ticket is handed on.
#[verifier::external_body]
fn lru_push(cache: &mut Tickets, key: AuthCacheKey, ticket: u128) -> (replaced: Option<u128>)
    ensures
        is_push(
            lru_contents(*old(cache)),
            lru_capacity(*old(cache)),
            key@,
            ticket,
            lru_contents(*final(cache)),
            replaced,
        ),
        lru_capacity(*final(cache)) == lru_capacity(*old(cache)),
{
    cache.push(key, ticket).map(|replaced| replaced.1)
}

/// Calls `LruCache::get`, which finds the ticket of `key` and makes its entry
/// the most recently used.
#[verifier::external_body]
fn lru_get(cache: &mut Tickets, key: &AuthCacheKey) -> (found: Option<u128>)
    ensures
        is_get(lru_contents(*old(cache)), key@, lru_contents(*final(cache)), found),
        lru_capacity(*final(cache)) == lru_capacity(*old(cache)),
{
    cache.get(key).copied()
}

/// Calls `LruCache::pop`, which takes the entry of `key` out and returns its
/// ticket.
#[verifier::external_body]
fn lru_pop(cache: &mut Tickets, key: &AuthCacheKey) -> (found: Option<u128>)
    ensures
        is_pop(lru_contents(*old(cache)), key@, lru_contents(*final(cache)), found),
        lru_capacity(*final(cache)) == lru_capacity(*old(cache)),
{
    cache.pop(key)
}

/// Calls `LruCache::clear`, which takes every entry out.
#[verifier::external_body]
fn lru_clear(cache: &mut Tickets)
    ensures
        lru_contents(*final(cache)) == Seq::<(KeyView, u128)>::empty(),
        lru_capacity(*final(cache)) == lru_capacity(*old(cache)),
{
    cache.clear()
}

/// Calls `LruCache::iter`, which visits the entries from the most recently
/// used to the least, and hands out a copy of each key with its ticket.
#[verifier::external_body]
fn lru_iter(cache: &Tickets) -> (entries: Vec<(AuthCacheKey, u128)>)
    ensures
        entries@.len() == lru_contents(*cache).len(),
        forall|i: int|
            0 <= i < entries@.len() ==> (#[trigger] entries@[i]).0@ == lru_contents(*cache)[i].0
                && entries@[i].1 == lru_contents(*cache)[i].1,
{
    cache.iter().map(|(key, ticket)| (key.clone(), *ticket)).collect()
}

/// What an [`AuthCache`] holds, as mathematics.
pub struct AuthCacheView<V> {
    /// How long an entry lives, in nanoseconds; for ever if `None`.
    pub ttl: Option<u128>,
    /// How many entries the cache holds at most.
    pub capacity: nat,
    /// The entries, the most recently used first.
    pub entries: Seq<(KeyView, CacheEntry<V>)>,
}

/// The entries that stand behind the tickets of `contents`.
pub open spec fn entries_of<V>(
    contents: Seq<(KeyView, u128)>,
    values: Map<u128, CacheEntry<V>>,
) -> Seq<(KeyView, CacheEntry<V>)> {
    Seq::new(contents.len(), |i: int| (contents[i].0, values[contents[i].1]))
}

/// Whether no key stands twice in `contents`.
pub open spec fn distinct_keys<T>(contents: Seq<(KeyView, T)>) -> bool {
    forall|i: int, j: int|
        0 <= i < j < contents.len() ==> (#[trigger] contents[i]).0 != (#[trigger] contents[j]).0
}

/// Whether looking `key` up at `now` leads from `before` to `after` and
/// gives `value`.
///
/// An entry that is stored under the key becomes the most recently used,
/// expired or not. Its value is given, as a clone, exactly if it has not
/// expired at `now`. Nothing else changes.
pub open spec fn is_cache_get<V: Clone>(
    before: AuthCacheView<V>,
    key: KeyView,
    now: u128,
    after: AuthCacheView<V>,
    value: Option<V>,
) -> bool {
    &&& after.ttl == before.ttl
    &&& after.capacity == before.capacity
    &&& key_absent(before.entries, key) ==> after.entries == before.entries && value is None
    &&& forall|i: int| #[trigger]
        key_at(before.entries, key, i) ==> {
            &&& after.entries == put_first(before.entries[i], without(before.entries, i))
            &&& if before.entries[i].1.is_expired(now) {
                value is None
            } else {
                value matches Some(v) && cloned(before.entries[i].1.value, v)
            }
        }
}

/// Whether storing `entry` under `key` leads from `before` to `after`.
///
/// The entry becomes the most recently used. It takes the place of the entry
/// that was stored under the key, if there was one; else, if the cache is
/// full, the least recently used entry is forgotten.
pub open spec fn is_cache_insert<V>(
    before: AuthCacheView<V>,
    key: KeyView,
    entry: CacheEntry<V>,
    after: AuthCacheView<V>,
) -> bool {
    &&& after.ttl == before.ttl
    &&& after.capacity == before.capacity
    &&& forall|i: int| #[trigger]
        key_at(before.entries, key, i) ==> after.entries == put_first(
            (key, entry),
            without(before.entries, i),
        )
    &&& key_absent(before.entries, key) ==> after.entries == if before.entries.len()
        < before.capacity {
        put_first((key, entry), before.entries)
    } else {
        put_first((key, entry), without(before.entries, before.entries.len() - 1))
    }
}

/// Whether removing `key` leads from `before` to `after` and reports
/// `found`.
pub open spec fn is_cache_remove<V>(
    before: AuthCacheView<V>,
    key: KeyView,
    after: AuthCacheView<V>,
    found: bool,
) -> bool {
    &&& after.ttl == before.ttl
    &&& after.capacity == before.capacity
    &&& found == !key_absent(before.entries, key)
    &&& key_absent(before.entries, key) ==> after.entries == before.entries
    &&& forall|i: int| #[trigger]
        key_at(before.entries, key, i) ==> after.entries == without(before.entries, i)
}

/// Whether `listing` shows the entries of `entries` that have not expired at
/// `now`, in their order, each with its key and a clone of its value.
pub open spec fn is_live_listing<V: Clone>(
    entries: Seq<(KeyView, CacheEntry<V>)>,
    now: u128,
    listing: Seq<(AuthCacheKey, V)>,
) -> bool
    decreases entries.len(),
{
    if entries.len() == 0 {
        listing.len() == 0
    } else if entries.last().1.is_expired(now) {
        is_live_listing(entries.drop_last(), now, listing)
    } else {
        &&& listing.len() > 0
        &&& listing.last().0@ == entries.last().0
        &&& cloned(entries.last().1.value, listing.last().1)
        &&& is_live_listing(entries.drop_last(), now, listing.drop_last())
    }
}

/// A cache of bounded size whose entries expire.
pub struct AuthCache<V> {
    ttl: Option<u128>,
    cache: Tickets,
    values: HashMap<u128, CacheEntry<V>>,
    free: Vec<u128>,
    next_ticket: u128,
}

impl<V> View for AuthCache<V> {
    type V = AuthCacheView<V>;

    closed spec fn view(&self) -> AuthCacheView<V> {
        AuthCacheView {
            ttl: self.ttl,
            capacity: lru_capacity(self.cache),
            entries: entries_of(lru_contents(self.cache), self.values@),
        }
    }
}

impl<V> AuthCache<V> {
    /// Whether the tickets are in order: every ticket in use is below the next
    /// new one and leads to an entry, no ticket is in use twice, and no ticket
    /// that is free is in use or free twice.
    closed spec fn tickets_in_order(&self) -> bool {
        let contents = lru_contents(self.cache);
        &&& contents.len() + self.free@.len() == self.next_ticket
        &&& forall|i: int|
            0 <= i < contents.len() ==> (#[trigger] contents[i]).1 < self.next_ticket
                && self.values@.contains_key(contents[i].1)
        &&& forall|i: int, j: int|
            0 <= i < j < contents.len() ==> (#[trigger] contents[i]).1 != (#[trigger] contents[j]).1
        &&& forall|k: int| 0 <= k < self.free@.len() ==> #[trigger] self.free@[k] < self.next_ticket
        &&& forall|k: int, l: int|
            0 <= k < l < self.free@.len() ==> #[trigger] self.free@[k] != #[trigger] self.free@[l]
        &&& forall|i: int, k: int|
            0 <= i < contents.len() && 0 <= k < self.free@.len() ==> (#[trigger] contents[i]).1
                != #[trigger] self.free@[k]
    }

    /// The invariant of a cache: it holds no key twice and no more entries
    /// than it was made for, and its bookkeeping is in order.
    pub closed spec fn wf(&self) -> bool {
        &&& 1 <= lru_capacity(self.cache) <= usize::MAX
        &&& lru_contents(self.cache).len() <= lru_capacity(self.cache)
        &&& distinct_keys(lru_contents(self.cache))
        &&& self.tickets_in_order()
    }

    /// What the invariant says of the view.
    pub proof fn lemma_wf_view(&self)
        requires
            self.wf(),
        ensures
            1 <= self@.capacity,
            self@.entries.len() <= self@.capacity,
            distinct_keys(self@.entries),
    {
    }

    /// An empty cache for `capacity` entries, each of which lives for `ttl`
    /// nanoseconds, or for ever without a `ttl`.
    pub fn new(capacity: usize, ttl: Option<u128>) -> (cache: Self)
        requires
            capacity > 0,
        ensures
            cache.wf(),
            cache@.ttl == ttl,
            cache@.capacity == capacity,
            cache@.entries.len() == 0,
    {
        AuthCache {
            ttl,
            cache: lru_new(capacity),
            values: HashMap::new(),
            free: Vec::new(),
            next_ticket: 0,
        }
    }

    /// Forgets every entry.
    pub fn clear(&mut self)
        requires
            old(self).wf(),
        ensures
            final(self).wf(),
            final(self)@.ttl == old(self)@.ttl,
            final(self)@.capacity == old(self)@.capacity,
            final(self)@.entries.len() == 0,
    {
        lru_clear(&mut self.cache);
        self.values.clear();
        self.free.clear();
        self.next_ticket = 0;
    }

    /// Forgets the entry of `key` and tells whether there was one.
    pub fn remove(&mut self, key: &AuthCacheKey) -> (found: bool)
        requires
            old(self).wf(),
        ensures
            final(self).wf(),
            is_cache_remove(old(self)@, key@, final(self)@, found),
    {
        let ghost before = lru_contents(self.cache);
        let ghost values = self.values@;
        match lru_pop(&mut self.cache, key) {
            Some(ticket) => {
                self.values.remove(&ticket);
                self.free.push(ticket);
                proof {
                    let after = lru_contents(self.cache);
                    let i = choose|i: int| #[trigger]
                        key_at(before, key@, i) && before[i].1 == ticket && after == without(
                            before,
                            i,
                        );
                    assert(before[i].0 == key@);
                    assert forall|j: int| 0 <= j < after.len() implies (#[trigger] after[j]).1
                        != ticket && values.contains_key(after[j].1) && after[j].1
                        < self.next_ticket by {
                        if j < i {
                            assert(after[j] == before[j]);
                        } else {
                            assert(after[j] == before[j + 1]);
                        }
                    }
                    assert forall|a: int, b: int| 0 <= a < b < after.len() implies (
                    #[trigger] after[a]).1 != (#[trigger] after[b]).1 && after[a].0
                        != after[b].0 by {
                        let a0 = if a < i { a } else { a + 1 };
                        let b0 = if b < i { b } else { b + 1 };
                        assert(after[a] == before[a0]);
                        assert(after[b] == before[b0]);
                    }
                    assert forall|a: int, k: int|
                        0 <= a < after.len() && 0 <= k < self.free@.len() implies (
                    #[trigger] after[a]).1 != #[trigger] self.free@[k] by {
                        let a0 = if a < i { a } else { a + 1 };
                        assert(after[a] == before[a0]);
                        if k < old(self).free@.len() {
                            assert(self.free@[k] == old(self).free@[k]);
                        }
                    }
                    assert forall|k: int, l: int| 0 <= k < l < self.free@.len() implies #[trigger] self.free@[k]
                        != #[trigger] self.free@[l] by {
                        assert(self.free@[k] == old(self).free@[k]);
                        if l < old(self).free@.len() {
                            assert(self.free@[l] == old(self).free@[l]);
                        } else {
                            assert(before[i].1 != old(self).free@[k]);
                        }
                    }
                    assert forall|k: int| 0 <= k < self.free@.len() implies #[trigger] self.free@[k]
                        < self.next_ticket by {
                        if k < old(self).free@.len() {
                            assert(self.free@[k] == old(self).free@[k]);
                        }
                    }
                    assert(self@.entries =~= without(old(self)@.entries, i));
                    assert(key_at(old(self)@.entries, key@, i));
                    assert forall|j: int| #[trigger]
                        key_at(old(self)@.entries, key@, j) implies j == i by {
                        if j != i {
                            assert(before[j].0 == key@);
                            if j < i {
                                assert(before[j].0 != before[i].0);
                            } else {
                                assert(before[i].0 != before[j].0);
                            }
                        }
                    }
                }
                true
            },
            None => {
                proof {
                    assert(self@.entries =~= old(self)@.entries);
                    assert forall|j: int| 0 <= j < old(self)@.entries.len() implies (
                    #[trigger] old(self)@.entries[j]).0 != key@ by {
                        assert(before[j].0 != key@);
                    }
                }
                false
            },
        }
    }
}

impl<V> AuthCache<V> {
    /// Stores `value` under `key` at `now`. The entry lives as long as the
    /// cache lets its entries live, counted from `now`, and is the most
    /// recently used. It replaces an entry with the same key; else, if the
    /// cache is full, the least recently used entry is forgotten.
    pub fn insert(&mut self, key: AuthCacheKey, value: V, now: u128)
        requires
            old(self).wf(),
        ensures
            final(self).wf(),
            is_cache_insert(
                old(self)@,
                key@,
                CacheEntry { value, expires_at: expiry(old(self)@.ttl, now) },
                final(self)@,
            ),
    {
        let entry = CacheEntry::new(value, self.ttl, now);
        let ghost key_view = key@;
        let ghost c0 = lru_contents(self.cache);
        let ghost v0 = self.values@;
        let ticket = match self.free.pop() {
            Some(ticket) => ticket,
            None => {
                let ticket = self.next_ticket;
                self.next_ticket = ticket + 1;
                ticket
            },
        };
        let ghost f1 = self.free@;
        proof {
            assert forall|i: int| 0 <= i < c0.len() implies (#[trigger] c0[i]).1 != ticket by {
                if old(self).free@.len() > 0 {
                    assert(old(self).free@[old(self).free@.len() - 1] == ticket);
                }
            }
            assert forall|k: int| 0 <= k < f1.len() implies #[trigger] f1[k] != ticket && f1[k]
                < self.next_ticket by {
                assert(f1[k] == old(self).free@[k]);
                if old(self).free@.len() > 0 {
                    assert(old(self).free@[old(self).free@.len() - 1] == ticket);
                }
            }
        }
        let replaced = lru_push(&mut self.cache, key, ticket);
        let ghost c1 = lru_contents(self.cache);
        match replaced {
            Some(old_ticket) => {
                self.values.remove(&old_ticket);
                self.free.push(old_ticket);
            },
            None => {},
        }
        self.values.insert(ticket, entry);
        proof {
            let e0 = old(self)@.entries;
            if replaced is Some {
                let old_ticket = replaced->0;
                let i = if !key_absent(c0, key_view) {
                    choose|i: int| #[trigger]
                        key_at(c0, key_view, i) && c1 == put_first(
                            (key_view, ticket),
                            without(c0, i),
                        ) && replaced == Some(c0[i].1)
                } else {
                    c0.len() - 1
                };
                assert(0 <= i < c0.len());
                assert(c1 == put_first((key_view, ticket), without(c0, i)));
                assert(old_ticket == c0[i].1);
                assert forall|j: int| 1 <= j < c1.len() implies (#[trigger] c1[j]).1 != ticket
                    && c1[j].1 != old_ticket && c1[j].0 != key_view && c1[j].1 < self.next_ticket
                    && v0.contains_key(c1[j].1) by {
                    let m = if j - 1 < i { j - 1 } else { j };
                    assert(c1[j] == c0[m]);
                    if m < i {
                        assert(c0[m].1 != c0[i].1);
                        assert(c0[m].0 != c0[i].0);
                    } else {
                        assert(c0[i].1 != c0[m].1);
                        assert(c0[i].0 != c0[m].0);
                    }
                }
                assert forall|a: int, b: int| 0 <= a < b < c1.len() implies (#[trigger] c1[a]).1
                    != (#[trigger] c1[b]).1 && c1[a].0 != c1[b].0 by {
                    if a >= 1 {
                        let ma = if a - 1 < i { a - 1 } else { a };
                        let mb = if b - 1 < i { b - 1 } else { b };
                        assert(c1[a] == c0[ma]);
                        assert(c1[b] == c0[mb]);
                    }
                }
                assert forall|a: int, k: int|
                    0 <= a < c1.len() && 0 <= k < self.free@.len() implies (#[trigger] c1[a]).1
                    != #[trigger] self.free@[k] by {
                    if k < f1.len() {
                        assert(self.free@[k] == f1[k]);
                        if a >= 1 {
                            let ma = if a - 1 < i { a - 1 } else { a };
                            assert(c1[a] == c0[ma]);
                            assert(f1[k] == old(self).free@[k]);
                        }
                    }
                }
                assert forall|k: int, l: int| 0 <= k < l < self.free@.len() implies #[trigger] self.free@[k]
                    != #[trigger] self.free@[l] by {
                    assert(self.free@[k] == f1[k]);
                    assert(f1[k] == old(self).free@[k]);
                    if l < f1.len() {
                        assert(self.free@[l] == f1[l]);
                        assert(f1[l] == old(self).free@[l]);
                    } else {
                        assert(c0[i].1 != old(self).free@[k]);
                    }
                }
                assert forall|k: int| 0 <= k < self.free@.len() implies #[trigger] self.free@[k]
                    < self.next_ticket by {
                    if k < f1.len() {
                        assert(self.free@[k] == f1[k]);
                    }
                }
                assert(self@.entries =~= put_first((key_view, entry), without(e0, i)));
                assert forall|j: int| #[trigger] key_at(e0, key_view, j) implies j == i by {
                    assert(c0[j].0 == key_view);
                    if j < i {
                        assert(c0[j].0 != c0[i].0);
                    } else if i < j {
                        assert(c0[i].0 != c0[j].0);
                    }
                }
                if key_absent(c0, key_view) {
                    assert forall|j: int| 0 <= j < e0.len() implies (#[trigger] e0[j]).0
                        != key_view by {
                        assert(c0[j].0 != key_view);
                    }
                } else {
                    assert(key_at(e0, key_view, i));
                }
            } else {
                assert(c1 == put_first((key_view, ticket), c0));
                assert forall|j: int| 1 <= j < c1.len() implies (#[trigger] c1[j]).1 != ticket
                    && c1[j].0 != key_view && c1[j].1 < self.next_ticket && v0.contains_key(
                    c1[j].1,
                ) by {
                    assert(c1[j] == c0[j - 1]);
                }
                assert forall|a: int, b: int| 0 <= a < b < c1.len() implies (#[trigger] c1[a]).1
                    != (#[trigger] c1[b]).1 && c1[a].0 != c1[b].0 by {
                    if a >= 1 {
                        assert(c1[a] == c0[a - 1]);
                        assert(c1[b] == c0[b - 1]);
                    }
                }
                assert forall|a: int, k: int|
                    0 <= a < c1.len() && 0 <= k < self.free@.len() implies (#[trigger] c1[a]).1
                    != #[trigger] self.free@[k] by {
                    assert(self.free@[k] == f1[k]);
                    if a >= 1 {
                        assert(c1[a] == c0[a - 1]);
                        assert(f1[k] == old(self).free@[k]);
                    }
                }
                assert forall|k: int, l: int| 0 <= k < l < self.free@.len() implies #[trigger] self.free@[k]
                    != #[trigger] self.free@[l] by {
                    assert(f1[k] == old(self).free@[k]);
                    assert(f1[l] == old(self).free@[l]);
                }
                assert(self@.entries =~= put_first((key_view, entry), e0));
                assert forall|j: int| 0 <= j < e0.len() implies (#[trigger] e0[j]).0
                    != key_view by {
                    assert(c0[j].0 != key_view);
                }
            }
        }
    }
}

impl<V: Clone> AuthCache<V> {
    /// Looks `key` up at `now`. An entry that is stored under the key becomes
    /// the most recently used, and a clone of its value is given unless the
    /// entry has expired.
    pub fn get(&mut self, key: &AuthCacheKey, now: u128) -> (value: Option<V>)
        requires
            old(self).wf(),
        ensures
            final(self).wf(),
            is_cache_get(old(self)@, key@, now, final(self)@, value),
    {
        let ghost c0 = lru_contents(self.cache);
        let ghost e0 = self@.entries;
        match lru_get(&mut self.cache, key) {
            None => {
                proof {
                    assert(self@.entries =~= e0);
                    assert forall|j: int| 0 <= j < e0.len() implies (#[trigger] e0[j]).0 != key@ by {
                        assert(c0[j].0 != key@);
                    }
                }
                None
            },
            Some(ticket) => {
                proof {
                    let c1 = lru_contents(self.cache);
                    let i = choose|i: int| #[trigger]
                        key_at(c0, key@, i) && c0[i].1 == ticket && c1 == put_first(
                            c0[i],
                            without(c0, i),
                        );
                    assert(c1[0] == c0[i]);
                    assert forall|j: int| 1 <= j < c1.len() implies (#[trigger] c1[j]).1
                        < self.next_ticket && self.values@.contains_key(c1[j].1) && c1[j].1
                        != ticket && c1[j].0 != key@ by {
                        let m = if j - 1 < i { j - 1 } else { j };
                        assert(c1[j] == c0[m]);
                        if m < i {
                            assert(c0[m].1 != c0[i].1);
                            assert(c0[m].0 != c0[i].0);
                        } else {
                            assert(c0[i].1 != c0[m].1);
                            assert(c0[i].0 != c0[m].0);
                        }
                    }
                    assert forall|a: int, b: int| 0 <= a < b < c1.len() implies (
                    #[trigger] c1[a]).1 != (#[trigger] c1[b]).1 && c1[a].0 != c1[b].0 by {
                        if a >= 1 {
                            let ma = if a - 1 < i { a - 1 } else { a };
                            let mb = if b - 1 < i { b - 1 } else { b };
                            assert(c1[a] == c0[ma]);
                            assert(c1[b] == c0[mb]);
                        }
                    }
                    assert forall|a: int, k: int|
                        0 <= a < c1.len() && 0 <= k < self.free@.len() implies (
                    #[trigger] c1[a]).1 != #[trigger] self.free@[k] by {
                        let ma = if a == 0 { i } else if a - 1 < i { a - 1 } else { a };
                        assert(c1[a] == c0[ma]);
                    }
                    assert(self@.entries =~= put_first(e0[i], without(e0, i)));
                    assert(key_at(e0, key@, i));
                    assert forall|j: int| #[trigger] key_at(e0, key@, j) implies j == i by {
                        assert(c0[j].0 == key@);
                        if j < i {
                            assert(c0[j].0 != c0[i].0);
                        } else if i < j {
                            assert(c0[i].0 != c0[j].0);
                        }
                    }
                    assert(e0[i].1 == self.values@[ticket]);
                }
                match self.values.get(&ticket) {
                    Some(entry) => match entry.live_value(now) {
                        Some(value) => Some(value.clone()),
                        None => None,
                    },
                    None => None,
                }
            },
        }
    }

    /// The keys and values of the entries that have not expired at `now`,
    /// from the most recently used to the least. Nothing becomes more
    /// recently used by this.
    pub fn iter(&self, now: u128) -> (listing: Vec<(AuthCacheKey, V)>)
        requires
            self.wf(),
        ensures
            is_live_listing(self@.entries, now, listing@),
    {
        let entries = lru_iter(&self.cache);
        let ghost all = entries@;
        let ghost stored = self@.entries;
        let mut listing: Vec<(AuthCacheKey, V)> = Vec::new();
        for e in it: entries
            invariant
                it.seq() == all,
                self.wf(),
                stored == self@.entries,
                all.len() == stored.len(),
                forall|i: int|
                    0 <= i < all.len() ==> (#[trigger] all[i]).0@ == lru_contents(self.cache)[i].0
                        && all[i].1 == lru_contents(self.cache)[i].1,
                is_live_listing(stored.take(it.index() as int), now, listing@),
        {
            let ghost k = it.index() as int;
            let ghost shown = listing@;
            let (key, ticket) = e;
            proof {
                assert(all[k] == (key, ticket));
                assert(stored.take(k + 1).drop_last() =~= stored.take(k));
                assert(stored.take(k + 1).last() == stored[k]);
                assert(stored[k] == (lru_contents(self.cache)[k].0, self.values@[ticket]));
                assert(self.values@.contains_key(lru_contents(self.cache)[k].1));
            }
            match self.values.get(&ticket) {
                Some(entry) => {
                    if !entry.is_expired(now) {
                        listing.push((key, entry.value.clone()));
                        assert(listing@.drop_last() =~= shown);
                    }
                },
                None => {},
            }
        }
        assert(stored.take(stored.len() as int) =~= stored);
        listing
    }
}

} // verus!
