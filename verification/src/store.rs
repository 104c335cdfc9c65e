//! The key-value store with per-key time-to-live expiry.
//!
//! An item's expiry is computed once, at insertion, as an absolute
//! millisecond timestamp; a read at or past that time treats the key as
//! absent.  The functions taking an explicit `now` carry the exact
//! contracts; their clock-reading counterparts call the system clock and
//! promise what holds for whatever time it returned.
use vstd::prelude::*;

use vstd::slice::slice_to_vec;

use crate::bytesutil::slice_eq;

verus! {

broadcast use vstd::std_specs::vec::group_vec_axioms;

/// A store failure: the system clock could not be read.
#[derive(Clone, Copy, Debug, PartialEq, Eq, Structural)]
pub enum StoreError {
    Clock,
}

/// Relies on `std::time::SystemTime::now` and
/// `SystemTime::duration_since` against the epoch: milliseconds since the
/// epoch, absent when the clock stands before the epoch or past what a
/// `u64` holds.  Nothing is promised of the value itself.
#[verifier::external_body]
fn clock_now_millis() -> Option<u64> {
    match std::time::SystemTime::now().duration_since(std::time::UNIX_EPOCH) {
        Ok(d) => u64::try_from(d.as_millis()).ok(),
        Err(_) => None,
    }
}

/// One stored value with its optional absolute expiry time, in
/// milliseconds since the epoch.
pub struct StoreItem {
    pub value: Vec<u8>,
    pub expiry: Option<u128>,
}

/// The mathematical content of a stored item.
pub struct StoreItemView {
    pub value: Seq<u8>,
    pub expiry: Option<u128>,
}

impl View for StoreItem {
    type V = StoreItemView;

    open spec fn view(&self) -> StoreItemView {
        StoreItemView { value: self.value@, expiry: self.expiry }
    }
}

impl StoreItemView {
    /// The item is at or past its expiry at `now`; an item without
    /// expiry never expires.
    pub open spec fn spec_expired_at(&self, now: u128) -> bool {
        match self.expiry {
            Some(e) => now >= e,
            None => false,
        }
    }
}

/// What a read of `key` from `m` at time `now` yields: the stored value,
/// or nothing when the key is absent or its item has expired.
pub open spec fn spec_lookup(m: Map<Seq<u8>, StoreItemView>, key: Seq<u8>, now: u128) -> Option<
    Seq<u8>,
> {
    if m.contains_key(key) && !m[key].spec_expired_at(now) {
        Some(m[key].value)
    } else {
        None
    }
}

/// The payload of an optional byte string.
pub open spec fn view_opt(o: Option<Vec<u8>>) -> Option<Seq<u8>> {
    match o {
        Some(v) => Some(v@),
        None => None,
    }
}

/// The item that a `set` at time `now` with time-to-live `ttl` stores.
pub open spec fn item_at(value: Seq<u8>, ttl: Option<u64>, now: u64) -> StoreItemView {
    StoreItemView {
        value,
        expiry: match ttl {
            Some(t) => Some((now as u128 + t as u128) as u128),
            None => None,
        },
    }
}

impl StoreItem {
    /// The item that storing `value` with time-to-live `ttl` at time
    /// `now` creates: the expiry is fixed here, never recomputed.
    pub fn new_at(value: &[u8], ttl: Option<u64>, now: u64) -> (item: StoreItem)
        ensures
            item@ == item_at(value@, ttl, now),
    {
        let expiry = match ttl {
            Some(t) => Some(now as u128 + t as u128),
            None => None,
        };
        StoreItem { value: slice_to_vec(value), expiry }
    }

    /// As `new_at`, at the current clock time.  The clock is only read
    /// when a time-to-live is given, so an untimed item never fails.
    pub fn new(value: &[u8], expiry: Option<u64>) -> (r: Result<StoreItem, StoreError>)
        ensures
            (match r {
                Ok(item) => exists|now: u64| item@ == item_at(value@, expiry, now),
                Err(e) => e == StoreError::Clock && expiry is Some,
            }),
            expiry is None ==> (r matches Ok(item) && item@ == item_at(value@, expiry, 0)),
    {
        match expiry {
            None => {
                let item = Self::new_at(value, None, 0);
                Ok(item)
            },
            Some(t) => {
                match clock_now_millis() {
                    Some(now) => {
                        let item = Self::new_at(value, Some(t), now);
                        proof {
                            assert(exists|w: u64| item@ == item_at(value@, expiry, w)) by {
                                assert(item@ == item_at(value@, expiry, now));
                            }
                        }
                        Ok(item)
                    },
                    None => Err(StoreError::Clock),
                }
            },
        }
    }

    /// The item is at or past its expiry at time `now`.
    pub fn expired_at(&self, now: u128) -> (b: bool)
        ensures
            b == self@.spec_expired_at(now),
    {
        match self.expiry {
            Some(e) => now >= e,
            None => false,
        }
    }

    /// The item is at or past its expiry at the current clock time.  An
    /// item without expiry never is, and reads no clock.
    pub fn has_expired(&self) -> (r: Result<bool, StoreError>)
        ensures
            (match r {
                Ok(b) => exists|now: u64| b == #[trigger] self@.spec_expired_at(now as u128),
                Err(e) => e == StoreError::Clock && self@.expiry is Some,
            }),
            self@.expiry is None ==> r == Ok::<bool, StoreError>(false),
    {
        match self.expiry {
            None => {
                proof {
                    assert(false == self@.spec_expired_at(0u64 as u128));
                }
                Ok(false)
            },
            Some(_) => {
                match clock_now_millis() {
                    Some(now) => {
                        let b = self.expired_at(now as u128);
                        proof {
                            assert(exists|w: u64|
                                b == #[trigger] self@.spec_expired_at(w as u128)) by {
                                assert(b == self@.spec_expired_at(now as u128));
                            }
                        }
                        Ok(b)
                    },
                    None => Err(StoreError::Clock),
                }
            },
        }
    }
}

/// The mapping a backing vector denotes: later slots shadow earlier ones
/// (well-formed stores never rely on that).
pub open spec fn entries_map(s: Seq<(Vec<u8>, StoreItem)>) -> Map<Seq<u8>, StoreItemView>
    decreases s,
{
    if s.len() == 0 {
        Map::empty()
    } else {
        entries_map(s.drop_last()).insert(s.last().0@, s.last().1@)
    }
}

/// The mapping from key to stored item.  All connections share one store
/// behind a lock; the lock lives with the caller, and this type holds the
/// state it guards.
pub struct Store {
    entries: Vec<(Vec<u8>, StoreItem)>,
}

impl View for Store {
    type V = Map<Seq<u8>, StoreItemView>;

    closed spec fn view(&self) -> Map<Seq<u8>, StoreItemView> {
        entries_map(self.entries@)
    }
}

proof fn lemma_entries_map_contains(s: Seq<(Vec<u8>, StoreItem)>, k: Seq<u8>)
    ensures
        entries_map(s).contains_key(k) <==> exists|p: int|
            0 <= p < s.len() && (#[trigger] s[p]).0@ == k,
    decreases s,
{
    if s.len() > 0 {
        lemma_entries_map_contains(s.drop_last(), k);
        if entries_map(s).contains_key(k) {
            if s.last().0@ == k {
                assert(s[s.len() - 1].0@ == k);
            } else {
                let p = choose|p: int| 0 <= p < s.drop_last().len() && (#[trigger] s.drop_last()[
                    p]).0@ == k;
                assert(s[p].0@ == k);
            }
        }
        if exists|p: int| 0 <= p < s.len() && (#[trigger] s[p]).0@ == k {
            let p = choose|p: int| 0 <= p < s.len() && (#[trigger] s[p]).0@ == k;
            if p < s.len() - 1 {
                assert(s.drop_last()[p].0@ == k);
            }
        }
    }
}

proof fn lemma_entries_map_value(s: Seq<(Vec<u8>, StoreItem)>, p: int)
    requires
        0 <= p < s.len(),
        forall|q: int| p < q < s.len() ==> (#[trigger] s[q]).0@ != s[p].0@,
    ensures
        entries_map(s).contains_key(s[p].0@),
        entries_map(s)[s[p].0@] == s[p].1@,
    decreases s,
{
    if p == s.len() - 1 {
    } else {
        assert(forall|q: int|
            p < q < s.drop_last().len() ==> (#[trigger] s.drop_last()[q]).0@ != s.drop_last()[
                p].0@);
        lemma_entries_map_value(s.drop_last(), p);
        assert(s.last().0@ != s[p].0@);
    }
}

impl Store {
    /// Each key occupies at most one slot of the backing vector.
    pub closed spec fn wf(&self) -> bool {
        forall|p: int, q: int|
            #![trigger self.entries@[p], self.entries@[q]]
            0 <= p < q < self.entries@.len() ==> self.entries@[p].0@ != self.entries@[q].0@
    }

    /// An empty store.
    pub fn new() -> (s: Store)
        ensures
            s.wf(),
            s@ == Map::<Seq<u8>, StoreItemView>::empty(),
    {
        Store { entries: Vec::new() }
    }

    /// A copy holding the same mappings.
    pub fn clone(&self) -> (r: Store)
        requires
            self.wf(),
        ensures
            r.wf(),
            r@ == self@,
    {
        let n = self.entries.len();
        let mut out: Vec<(Vec<u8>, StoreItem)> = Vec::new();
        let mut i: usize = 0;
        while i < n
            invariant
                n == self.entries@.len(),
                0 <= i <= n,
                out@.len() == i,
                forall|p: int|
                    0 <= p < i ==> (#[trigger] out@[p]).0@ == self.entries@[p].0@ && out@[p].1@
                        == self.entries@[p].1@,
            decreases n - i,
        {
            let pair = &self.entries[i];
            let key_copy = slice_to_vec(pair.0.as_slice());
            let item_copy = StoreItem {
                value: slice_to_vec(pair.1.value.as_slice()),
                expiry: pair.1.expiry,
            };
            out.push((key_copy, item_copy));
            i = i + 1;
        }
        let r = Store { entries: out };
        proof {
            lemma_entries_map_congruent(out@, self.entries@);
        }
        r
    }

    /// The slot holding `key`, if one does.
    fn find(&self, key: &[u8]) -> (r: Option<&StoreItem>)
        requires
            self.wf(),
        ensures
            (match r {
                Some(item) => self@.contains_key(key@) && item@ == self@[key@],
                None => !self@.contains_key(key@),
            }),
    {
        let n = self.entries.len();
        let mut i: usize = 0;
        while i < n
            invariant
                self.wf(),
                n == self.entries@.len(),
                0 <= i <= n,
                forall|p: int| 0 <= p < i ==> (#[trigger] self.entries@[p]).0@ != key@,
            decreases n - i,
        {
            let pair = &self.entries[i];
            if slice_eq(pair.0.as_slice(), key) {
                proof {
                    lemma_entries_map_value(self.entries@, i as int);
                }
                return Some(&self.entries[i].1);
            }
            i = i + 1;
        }
        proof {
            lemma_entries_map_contains(self.entries@, key@);
        }
        None
    }

    /// Stores `value` under `key` with the expiry `ttl` gives at time
    /// `now`, replacing any previous item wholesale: neither the old value
    /// nor the old expiry survives.
    pub fn insert_at(&mut self, key: &[u8], value: &[u8], ttl: Option<u64>, now: u64)
        requires
            old(self).wf(),
        ensures
            final(self).wf(),
            final(self)@ == old(self)@.insert(key@, item_at(value@, ttl, now)),
    {
        let item = StoreItem::new_at(value, ttl, now);
        let key_copy = slice_to_vec(key);
        let n = self.entries.len();
        let mut i: usize = 0;
        while i < n
            invariant
                self.wf(),
                self.entries@ == old(self).entries@,
                n == self.entries@.len(),
                0 <= i <= n,
                forall|p: int| 0 <= p < i ==> (#[trigger] self.entries@[p]).0@ != key@,
                item@ == item_at(value@, ttl, now),
                key_copy@ == key@,
            decreases n - i,
        {
            if slice_eq(self.entries[i].0.as_slice(), key) {
                proof {
                    lemma_entries_map_update(self.entries@, i as int, (key_copy, item));
                }
                self.entries.set(i, (key_copy, item));
                return ;
            }
            i = i + 1;
        }
        proof {
            lemma_entries_map_contains(self.entries@, key@);
            assert(self.entries@.push((key_copy, item)).drop_last() =~= self.entries@);
        }
        self.entries.push((key_copy, item));
    }

    /// Stores `value` under `key`, computing the expiry from the current
    /// clock time; an untimed `set` reads no clock and never fails.
    pub fn insert(&mut self, key: &[u8], value: &[u8], expiry: Option<u64>) -> (r: Result<
        (),
        StoreError,
    >)
        requires
            old(self).wf(),
        ensures
            final(self).wf(),
            (match r {
                Ok(_) => exists|now: u64|
                    final(self)@ == old(self)@.insert(key@, item_at(value@, expiry, now)),
                Err(e) => e == StoreError::Clock && expiry is Some && final(self)@ == old(
                    self,
                )@,
            }),
            expiry is None ==> r is Ok && final(self)@ == old(self)@.insert(
                key@,
                item_at(value@, expiry, 0),
            ),
    {
        match expiry {
            None => {
                self.insert_at(key, value, None, 0);
                Ok(())
            },
            Some(t) => {
                match clock_now_millis() {
                    Some(now) => {
                        self.insert_at(key, value, Some(t), now);
                        proof {
                            assert(exists|w: u64|
                                self@ == old(self)@.insert(key@, item_at(value@, expiry, w)))
                                by {
                                assert(self@ == old(self)@.insert(
                                    key@,
                                    item_at(value@, expiry, now),
                                ));
                            }
                        }
                        Ok(())
                    },
                    None => Err(StoreError::Clock),
                }
            },
        }
    }

    /// The value under `key` as of time `now`: absent keys and expired
    /// items read as absent, never as an error.
    pub fn get_at(&self, key: &[u8], now: u128) -> (r: Option<Vec<u8>>)
        requires
            self.wf(),
        ensures
            view_opt(r) == spec_lookup(self@, key@, now),
    {
        match self.find(key) {
            Some(item) => {
                if item.expired_at(now) {
                    None
                } else {
                    Some(slice_to_vec(item.value.as_slice()))
                }
            },
            None => None,
        }
    }

    /// The value under `key` at the current clock time.  A missing key,
    /// or an item without expiry, is answered without reading the clock.
    pub fn get(&self, key: &[u8]) -> (r: Result<Option<Vec<u8>>, StoreError>)
        requires
            self.wf(),
        ensures
            (match r {
                Ok(opt) => exists|now: u64|
                    view_opt(opt) == #[trigger] spec_lookup(self@, key@, now as u128),
                Err(e) => e == StoreError::Clock,
            }),
            !self@.contains_key(key@) ==> (r matches Ok(opt) && opt is None),
            self@.contains_key(key@) && self@[key@].expiry is None ==> (r matches Ok(opt)
                && opt matches Some(v) && v@ == self@[key@].value),
            r is Err ==> self@.contains_key(key@) && self@[key@].expiry is Some,
    {
        match self.find(key) {
            Some(item) => {
                match item.has_expired() {
                    Ok(expired) => {
                        proof {
                            let w = choose|w: u64|
                                expired == #[trigger] item@.spec_expired_at(w as u128);
                            assert(self@[key@].spec_expired_at(w as u128) == expired);
                            assert(view_opt(
                                if expired {
                                    None
                                } else {
                                    Some(item.value)
                                },
                            ) == spec_lookup(self@, key@, w as u128));
                        }
                        if expired {
                            Ok(None)
                        } else {
                            let v = slice_to_vec(item.value.as_slice());
                            Ok(Some(v))
                        }
                    },
                    Err(e) => Err(e),
                }
            },
            None => {
                proof {
                    assert(view_opt(None::<Vec<u8>>) == spec_lookup(self@, key@, 0u64 as u128));
                }
                Ok(None)
            },
        }
    }
}

impl Default for Store {
    /// An empty store.
    fn default() -> (s: Store)
        ensures
            s.wf(),
            s@ == Map::<Seq<u8>, StoreItemView>::empty(),
    {
        Store::new()
    }
}

proof fn lemma_entries_map_congruent(a: Seq<(Vec<u8>, StoreItem)>, b: Seq<(Vec<u8>, StoreItem)>)
    requires
        a.len() == b.len(),
        forall|p: int|
            0 <= p < a.len() ==> (#[trigger] a[p]).0@ == b[p].0@ && a[p].1@ == b[p].1@,
    ensures
        entries_map(a) == entries_map(b),
    decreases a,
{
    if a.len() > 0 {
        lemma_entries_map_congruent(a.drop_last(), b.drop_last());
        assert(a[a.len() - 1].0@ == b[b.len() - 1].0@);
        assert(a[a.len() - 1].1@ == b[b.len() - 1].1@);
    }
}

proof fn lemma_entries_map_update(s: Seq<(Vec<u8>, StoreItem)>, i: int, pair: (Vec<u8>, StoreItem))
    requires
        0 <= i < s.len(),
        s[i].0@ == pair.0@,
        forall|p: int, q: int|
            #![trigger s[p], s[q]]
            0 <= p < q < s.len() ==> s[p].0@ != s[q].0@,
    ensures
        entries_map(s.update(i, pair)) == entries_map(s).insert(pair.0@, pair.1@),
    decreases s,
{
    let t = s.update(i, pair);
    if i == s.len() - 1 {
        assert(t.drop_last() =~= s.drop_last());
        assert(t.last() == pair);
        assert(entries_map(s).insert(pair.0@, pair.1@) =~= entries_map(s.drop_last()).insert(
            s.last().0@,
            s.last().1@,
        ).insert(pair.0@, pair.1@));
        assert(entries_map(s.drop_last()).insert(s.last().0@, s.last().1@).insert(
            pair.0@,
            pair.1@,
        ) =~= entries_map(s.drop_last()).insert(pair.0@, pair.1@));
    } else {
        assert(t.drop_last() =~= s.drop_last().update(i, pair));
        assert(forall|p: int, q: int|
            #![trigger s.drop_last()[p], s.drop_last()[q]]
            0 <= p < q < s.drop_last().len() ==> s.drop_last()[p].0@ != s.drop_last()[q].0@);
        assert(s.drop_last()[i] == s[i]);
        lemma_entries_map_update(s.drop_last(), i, pair);
        assert(t.last() == s.last());
        assert(s.last().0@ != pair.0@);
        assert(entries_map(t) =~= entries_map(s).insert(pair.0@, pair.1@));
    }
}

/// A `set` remains readable until its expiry: a read at any time
/// strictly before `now + ttl` yields the value just stored, and a `set`
/// without a time-to-live is readable at any time whatsoever.
pub proof fn lemma_set_then_get(
    m: Map<Seq<u8>, StoreItemView>,
    key: Seq<u8>,
    value: Seq<u8>,
    ttl: Option<u64>,
    now: u64,
    later: u128,
)
    requires
        (match ttl {
            Some(t) => later < now + t,
            None => true,
        }),
    ensures
        spec_lookup(m.insert(key, item_at(value, ttl, now)), key, later) == Some(value),
{
}

/// A repeated `set` of one key replaces the whole item: neither the old
/// value nor the old expiry survives.  In particular an untimed `set`
/// over a timed one never inherits the old time-to-live: the key reads
/// back at every later time.
pub proof fn lemma_set_replaces_wholesale(
    m: Map<Seq<u8>, StoreItemView>,
    key: Seq<u8>,
    v1: Seq<u8>,
    ttl1: Option<u64>,
    now1: u64,
    v2: Seq<u8>,
    ttl2: Option<u64>,
    now2: u64,
)
    ensures
        m.insert(key, item_at(v1, ttl1, now1)).insert(key, item_at(v2, ttl2, now2)) == m.insert(
            key,
            item_at(v2, ttl2, now2),
        ),
        ttl2 is None ==> forall|later: u128|
            #[trigger] spec_lookup(
                m.insert(key, item_at(v1, ttl1, now1)).insert(key, item_at(v2, ttl2, now2)),
                key,
                later,
            ) == Some(v2),
{
    assert(m.insert(key, item_at(v1, ttl1, now1)).insert(key, item_at(v2, ttl2, now2)) =~= m.insert(
        key,
        item_at(v2, ttl2, now2),
    ));
}

} // verus!
