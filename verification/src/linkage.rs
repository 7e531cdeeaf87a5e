//! What has been resolved before, kept per host and bounded in size.

use crate::text::same_text;
use vstd::prelude::*;

verus! {

/// How many entries a map keeps where nothing else is said.
pub const DEFAULT_CAPACITY: usize = 30;

/// The position of the first entry under `key`, or the number of entries
/// where there is none.
pub open spec fn position<V>(entries: Seq<(Seq<char>, V)>, key: Seq<char>) -> int
    decreases entries.len(),
{
    if entries.len() == 0 {
        0
    } else if entries[0].0 == key {
        0
    } else {
        1 + position(entries.drop_first(), key)
    }
}

/// What `position` finds is the first entry under the key.
pub proof fn lemma_position<V>(entries: Seq<(Seq<char>, V)>, key: Seq<char>)
    ensures
        0 <= position(entries, key) <= entries.len(),
        position(entries, key) < entries.len() ==> entries[position(entries, key)].0 == key,
        forall|i: int| 0 <= i < position(entries, key) ==> entries[i].0 != key,
    decreases entries.len(),
{
    if entries.len() > 0 && entries[0].0 != key {
        lemma_position(entries.drop_first(), key);
        assert forall|i: int| 0 <= i < position(entries, key) implies entries[i].0 != key by {
            if i > 0 {
                assert(entries.drop_first()[i - 1] == entries[i]);
            }
        }
    }
}

/// Whether there is an entry under `key`.
pub open spec fn has_key<V>(entries: Seq<(Seq<char>, V)>, key: Seq<char>) -> bool {
    position(entries, key) < entries.len()
}

/// The value under `key`, if there is one.
pub open spec fn lookup<V>(entries: Seq<(Seq<char>, V)>, key: Seq<char>) -> Option<V> {
    if has_key(entries, key) {
        Some(entries[position(entries, key)].1)
    } else {
        None
    }
}

/// Whether no key occurs twice.
pub open spec fn distinct_keys<V>(entries: Seq<(Seq<char>, V)>) -> bool {
    forall|i: int, j: int| 0 <= i < j < entries.len() ==> entries[i].0 != entries[j].0
}

/// The entries after `value` has been put under `key`: a key that is there
/// keeps its place and gets the value; a new key goes to the end, and
/// where `limit` entries are there already, the first of them leaves.
pub open spec fn bounded_insert<V>(
    entries: Seq<(Seq<char>, V)>,
    limit: usize,
    key: Seq<char>,
    value: V,
) -> Seq<(Seq<char>, V)> {
    if has_key(entries, key) {
        entries.update(position(entries, key), (key, value))
    } else if entries.len() == limit && entries.len() > 0 {
        entries.drop_first().push((key, value))
    } else {
        entries.push((key, value))
    }
}

spec fn pairs_of<V>(entries: Seq<(String, V)>) -> Seq<(Seq<char>, V)> {
    entries.map_values(|entry: (String, V)| (entry.0@, entry.1))
}

/// A map from strings to values that keeps a bounded number of entries
/// and, when full, lets go of the entry that came first.
pub struct LimitedHashMap<V> {
    entries: Vec<(String, V)>,
    capacity: usize,
}

impl<V> View for LimitedHashMap<V> {
    type V = Seq<(Seq<char>, V)>;

    /// The entries, oldest first.
    closed spec fn view(&self) -> Seq<(Seq<char>, V)> {
        pairs_of(self.entries@)
    }
}

impl<V> LimitedHashMap<V> {
    /// The number of entries from which on a new key pushes the oldest out.
    pub closed spec fn limit(&self) -> usize {
        self.capacity
    }

    #[verifier::type_invariant]
    spec fn well_formed(self) -> bool {
        &&& distinct_keys(self@)
        &&& self.capacity > 0 ==> self.entries@.len() <= self.capacity
    }

    /// An empty map that keeps `capacity` entries.
    pub fn new(capacity: usize) -> (map: Self)
        ensures
            map@ == Seq::<(Seq<char>, V)>::empty(),
            map.limit() == capacity,
    {
        let map = LimitedHashMap { entries: Vec::new(), capacity };
        assert(map@ =~= Seq::<(Seq<char>, V)>::empty());
        map
    }

    fn find(&self, key: &str) -> (at: usize)
        ensures
            at == position(self@, key@),
            at <= self@.len(),
            self@.len() == self.entries@.len(),
    {
        let mut at: usize = 0;
        while at < self.entries.len()
            invariant
                at <= self.entries@.len(),
                forall|i: int| 0 <= i < at ==> self@[i].0 != key@,
            decreases self.entries@.len() - at,
        {
            if same_text(self.entries[at].0.as_str(), key) {
                proof {
                    lemma_position_is(self@, key@, at as int);
                }
                return at;
            }
            at = at + 1;
        }
        proof {
            lemma_position_is(self@, key@, at as int);
        }
        at
    }

    /// Puts `value` under `key`.
    pub fn insert(&mut self, key: String, value: V)
        ensures
            final(self)@ == bounded_insert(old(self)@, old(self).limit(), key@, value),
            final(self).limit() == old(self).limit(),
    {
        proof {
            use_type_invariant(&*self);
            lemma_position(self@, key@);
        }
        let at: usize = self.find(key.as_str());
        let ghost before = self@;
        let mut entries: Vec<(String, V)> = Vec::new();
        core::mem::swap(&mut self.entries, &mut entries);
        if at < entries.len() {
            entries.set(at, (key, value));
        } else {
            if entries.len() == self.capacity && entries.len() > 0 {
                entries.remove(0);
            }
            entries.push((key, value));
        }
        proof {
            let after = pairs_of(entries@);
            assert(after =~= bounded_insert(before, self.capacity, key@, value));
            lemma_bounded_insert_keeps_distinct(before, self.capacity, key@, value);
        }
        self.entries = entries;
    }

    /// The value under `key`, if there is one; no key occurs twice.
    pub fn get(&self, key: &str) -> (value: Option<&V>)
        ensures
            match value {
                Some(found) => lookup(self@, key@) == Some(*found),
                None => lookup(self@, key@) is None,
            },
            distinct_keys(self@),
            self.limit() > 0 ==> self@.len() <= self.limit(),
    {
        proof {
            use_type_invariant(self);
        }
        let at: usize = self.find(key);
        if at < self.entries.len() {
            Some(&self.entries[at].1)
        } else {
            None
        }
    }

    /// The number of entries.
    pub fn len(&self) -> (n: usize)
        ensures
            n == self@.len(),
            distinct_keys(self@),
            self.limit() > 0 ==> n <= self.limit(),
    {
        proof {
            use_type_invariant(self);
        }
        self.entries.len()
    }

    /// The keys, oldest first; none of them occurs twice.
    pub fn keys(&self) -> (keys: Vec<String>)
        ensures
            keys@.len() == self@.len(),
            forall|i: int| 0 <= i < keys@.len() ==> keys@[i]@ == self@[i].0,
            distinct_keys(self@),
            self.limit() > 0 ==> self@.len() <= self.limit(),
    {
        proof {
            use_type_invariant(self);
        }
        let mut keys: Vec<String> = Vec::new();
        let mut i: usize = 0;
        while i < self.entries.len()
            invariant
                i <= self.entries@.len(),
                keys@.len() == i,
                forall|k: int| 0 <= k < i ==> keys@[k]@ == self@[k].0,
            decreases self.entries@.len() - i,
        {
            keys.push(self.entries[i].0.clone());
            i = i + 1;
        }
        keys
    }

    /// Whether there is no entry.
    pub fn is_empty(&self) -> (empty: bool)
        ensures
            empty == (self@.len() == 0),
    {
        self.entries.len() == 0
    }
}

impl<V> Default for LimitedHashMap<V> {
    /// An empty map that keeps the usual number of entries.
    fn default() -> (map: Self)
        ensures
            map@ == Seq::<(Seq<char>, V)>::empty(),
            map.limit() == DEFAULT_CAPACITY,
    {
        LimitedHashMap::new(DEFAULT_CAPACITY)
    }
}

/// A point in time, in nanoseconds after the start of 1970 (UTC); negative
/// before it.
#[derive(Clone, Copy, Debug, PartialEq, Eq, Structural)]
pub struct Timestamp {
    pub nanos: i128,
}

/// The nanoseconds in a second.
pub const NANOS_PER_SEC: i128 = 1_000_000_000;

/// `SystemTime::now`, set against `UNIX_EPOCH` by `duration_since`: the
/// whole seconds and the nanoseconds beyond them by which the clock stands
/// after the epoch, or, as the error, by which it stands before it.
/// Nothing is claimed of the reading.
#[verifier::external_body]
fn read_clock() -> (reading: Result<(u64, u32), (u64, u32)>) {
    match std::time::SystemTime::now().duration_since(std::time::UNIX_EPOCH) {
        Ok(after) => Ok((after.as_secs(), after.subsec_nanos())),
        Err(before) => Err((before.duration().as_secs(), before.duration().subsec_nanos())),
    }
}

impl Timestamp {
    /// The point that lies `secs` seconds and `nanos` nanoseconds after
    /// the epoch.
    pub fn after_epoch(secs: u64, nanos: u32) -> (at: Timestamp)
        ensures
            at.nanos == secs * NANOS_PER_SEC + nanos,
    {
        Timestamp { nanos: secs as i128 * NANOS_PER_SEC + nanos as i128 }
    }

    /// The point that lies `secs` seconds and `nanos` nanoseconds before
    /// the epoch.
    pub fn before_epoch(secs: u64, nanos: u32) -> (at: Timestamp)
        ensures
            at.nanos == -(secs * NANOS_PER_SEC + nanos),
    {
        Timestamp { nanos: -(secs as i128 * NANOS_PER_SEC + nanos as i128) }
    }

    /// The point at which a reading of the clock stands.
    pub fn of_reading(reading: Result<(u64, u32), (u64, u32)>) -> (at: Timestamp)
        ensures
            at == point_of(reading),
    {
        match reading {
            Ok((secs, nanos)) => Timestamp::after_epoch(secs, nanos),
            Err((secs, nanos)) => Timestamp::before_epoch(secs, nanos),
        }
    }

    /// The present moment, as the system's clock has it: the point at
    /// which a reading of the clock stands, whatever the reading is.
    pub fn now() -> (at: Timestamp)
        ensures
            exists|reading: Result<(u64, u32), (u64, u32)>| at == #[trigger] point_of(reading),
    {
        let reading: Result<(u64, u32), (u64, u32)> = read_clock();
        let at: Timestamp = Timestamp::of_reading(reading);
        assert(at == point_of(reading));
        at
    }

    /// Whether something last written at `self` is still to be kept at
    /// `now`, when it is kept for less than `keep_nanos` nanoseconds.
    pub fn is_fresh(&self, now: Timestamp, keep_nanos: u128) -> (fresh: bool)
        ensures
            fresh == fresh_at(*self, now, keep_nanos),
    {
        if self.nanos > now.nanos {
            return true;
        }
        if now.nanos >= 0 && self.nanos < 0 {
            let ahead: u128 = now.nanos as u128;
            let behind: u128 = (-(self.nanos + 1)) as u128 + 1;
            if ahead > u128::MAX - behind {
                false
            } else {
                ahead + behind < keep_nanos
            }
        } else {
            ((now.nanos - self.nanos) as u128) < keep_nanos
        }
    }
}

/// The point at which a reading of the clock stands: so many seconds and
/// nanoseconds after the epoch, or, for a reading that is an error, before
/// it.
pub open spec fn point_of(reading: Result<(u64, u32), (u64, u32)>) -> Timestamp {
    match reading {
        Ok((secs, nanos)) => Timestamp { nanos: (secs * NANOS_PER_SEC + nanos) as i128 },
        Err((secs, nanos)) => Timestamp { nanos: (-(secs * NANOS_PER_SEC + nanos)) as i128 },
    }
}

/// Whether what was written at `written` is younger at `now` than
/// `keep_nanos` nanoseconds; what was written after `now` is kept.
pub open spec fn fresh_at(written: Timestamp, now: Timestamp, keep_nanos: u128) -> bool {
    written.nanos > now.nanos || now.nanos - written.nanos < keep_nanos
}

/// A resolved episode and the time at which it was written down.
#[derive(Clone, Copy, Debug, PartialEq, Eq, Structural)]
pub struct TimesId {
    pub epid: usize,
    pub last_updated: Timestamp,
}

/// The entries, among `entries`, that are still to be kept at `now`, in
/// their order.
pub open spec fn fresh_entries(
    entries: Seq<(Seq<char>, TimesId)>,
    now: Timestamp,
    keep_nanos: u128,
) -> Seq<(Seq<char>, TimesId)>
    decreases entries.len(),
{
    if entries.len() == 0 {
        Seq::empty()
    } else if fresh_at(entries.last().1.last_updated, now, keep_nanos) {
        fresh_entries(entries.drop_last(), now, keep_nanos).push(entries.last())
    } else {
        fresh_entries(entries.drop_last(), now, keep_nanos)
    }
}

/// What is kept was there before, and no key is kept twice.
pub proof fn lemma_fresh_entries(
    entries: Seq<(Seq<char>, TimesId)>,
    now: Timestamp,
    keep_nanos: u128,
)
    requires
        distinct_keys(entries),
    ensures
        distinct_keys(fresh_entries(entries, now, keep_nanos)),
        fresh_entries(entries, now, keep_nanos).len() <= entries.len(),
        forall|k: int|
            0 <= k < fresh_entries(entries, now, keep_nanos).len() ==> entries.contains(
                #[trigger] fresh_entries(entries, now, keep_nanos)[k],
            ) && fresh_at(
                fresh_entries(entries, now, keep_nanos)[k].1.last_updated,
                now,
                keep_nanos,
            ),
        forall|i: int|
            0 <= i < entries.len() && fresh_at(entries[i].1.last_updated, now, keep_nanos)
                ==> fresh_entries(entries, now, keep_nanos).contains(#[trigger] entries[i]),
    decreases entries.len(),
{
    if entries.len() > 0 {
        let front = entries.drop_last();
        let kept = fresh_entries(front, now, keep_nanos);
        let all = fresh_entries(entries, now, keep_nanos);
        lemma_fresh_entries(front, now, keep_nanos);
        assert forall|k: int| 0 <= k < all.len() implies entries.contains(#[trigger] all[k])
            && fresh_at(all[k].1.last_updated, now, keep_nanos) by {
            if k < kept.len() {
                assert(all[k] == kept[k]);
                assert(front.contains(kept[k]));
                let j = choose|j: int| 0 <= j < front.len() && front[j] == kept[k];
                assert(entries[j] == kept[k]);
            } else {
                assert(all[k] == entries[entries.len() - 1]);
            }
        }
        assert forall|i: int|
            0 <= i < entries.len() && fresh_at(
                entries[i].1.last_updated,
                now,
                keep_nanos,
            ) implies all.contains(#[trigger] entries[i]) by {
            if i < front.len() {
                assert(front[i] == entries[i]);
                assert(kept.contains(front[i]));
                let k = choose|k: int| 0 <= k < kept.len() && kept[k] == front[i];
                assert(all[k] == entries[i]);
            } else {
                assert(all[all.len() - 1] == entries[i]);
            }
        }
        assert forall|i: int, j: int| 0 <= i < j < all.len() implies all[i].0 != all[j].0 by {
            if j == kept.len() {
                assert(front.contains(kept[i]));
                let at = choose|at: int| 0 <= at < front.len() && front[at] == kept[i];
                assert(entries[at].0 != entries[entries.len() - 1].0);
            } else {
                assert(kept[i].0 != kept[j].0);
            }
        }
    }
}

impl LimitedHashMap<TimesId> {
    /// Lets go of the entries that are no longer to be kept at `now`.
    pub fn retain_fresh(&mut self, now: Timestamp, keep_nanos: u128)
        ensures
            final(self)@ == fresh_entries(old(self)@, now, keep_nanos),
            final(self).limit() == old(self).limit(),
    {
        proof {
            use_type_invariant(&*self);
        }
        let ghost before = self@;
        let mut entries: Vec<(String, TimesId)> = Vec::new();
        core::mem::swap(&mut self.entries, &mut entries);
        let mut kept: Vec<(String, TimesId)> = Vec::new();
        let mut i: usize = 0;
        assert(before.take(0) == Seq::<(Seq<char>, TimesId)>::empty());
        while i < entries.len()
            invariant
                i <= entries@.len(),
                before == pairs_of(entries@),
                pairs_of(kept@) == fresh_entries(
                    before.take(i as int),
                    now,
                    keep_nanos,
                ),
            decreases entries@.len() - i,
        {
            assert(before.take(i + 1).drop_last() == before.take(i as int));
            let stamp: TimesId = entries[i].1;
            if stamp.last_updated.is_fresh(now, keep_nanos) {
                let ghost so_far = pairs_of(kept@);
                kept.push((entries[i].0.clone(), stamp));
                assert(pairs_of(kept@)
                    =~= so_far.push(before[i as int]));
            }
            i = i + 1;
        }
        proof {
            assert(before.take(before.len() as int) == before);
            lemma_fresh_entries(before, now, keep_nanos);
        }
        self.entries = kept;
    }
}

/// The first position under the key is the one before which no entry has
/// the key and which has it, or the end.
pub proof fn lemma_position_is<V>(entries: Seq<(Seq<char>, V)>, key: Seq<char>, at: int)
    requires
        0 <= at <= entries.len(),
        forall|i: int| 0 <= i < at ==> entries[i].0 != key,
        at < entries.len() ==> entries[at].0 == key,
    ensures
        position(entries, key) == at,
{
    lemma_position(entries, key);
}


/// Putting a value under a key leaves no key twice, and leaves the map
/// within a positive limit that it kept before.
pub proof fn lemma_bounded_insert_keeps_distinct<V>(
    entries: Seq<(Seq<char>, V)>,
    limit: usize,
    key: Seq<char>,
    value: V,
)
    requires
        distinct_keys(entries),
    ensures
        distinct_keys(bounded_insert(entries, limit, key, value)),
        limit > 0 && entries.len() <= limit ==> bounded_insert(entries, limit, key, value).len()
            <= limit,
        lookup(bounded_insert(entries, limit, key, value), key) == Some(value),
{
    lemma_position(entries, key);
    let after = bounded_insert(entries, limit, key, value);
    if has_key(entries, key) {
        lemma_position_is(after, key, position(entries, key));
    } else {
        lemma_position_is(after, key, after.len() - 1);
    }
}


/// The map that a list of rows with distinct keys stands for.
pub open spec fn as_map<W>(rows: Seq<(Seq<char>, W)>) -> Map<Seq<char>, W> {
    Map::new(|key: Seq<char>| has_key(rows, key), |key: Seq<char>| rows[position(rows, key)].1)
}

/// Replacing the value of one row changes the map at that row's key alone.
pub proof fn lemma_as_map_update<W>(rows: Seq<(Seq<char>, W)>, at: int, value: W)
    requires
        0 <= at < rows.len(),
        distinct_keys(rows),
    ensures
        distinct_keys(rows.update(at, (rows[at].0, value))),
        as_map(rows.update(at, (rows[at].0, value))) == as_map(rows).insert(rows[at].0, value),
{
    let after = rows.update(at, (rows[at].0, value));
    assert forall|key: Seq<char>| position(after, key) == position(rows, key) by {
        lemma_position(rows, key);
        lemma_position_is(after, key, position(rows, key));
    }
    assert(position(rows, rows[at].0) == at) by {
        lemma_position(rows, rows[at].0);
    }
    let expected = as_map(rows).insert(rows[at].0, value);
    assert forall|key: Seq<char>| #[trigger]
        as_map(after).dom().contains(key) == expected.dom().contains(key) by {
        lemma_position(rows, key);
        assert(position(after, key) == position(rows, key));
    }
    assert forall|key: Seq<char>| #[trigger]
        as_map(after).dom().contains(key) implies as_map(after)[key] == expected[key] by {
        lemma_position(rows, key);
        assert(position(after, key) == position(rows, key));
    }
    assert(as_map(after) =~= expected);
}

/// A row under a new key adds that key to the map and changes nothing else.
pub proof fn lemma_as_map_push<W>(rows: Seq<(Seq<char>, W)>, key: Seq<char>, value: W)
    requires
        distinct_keys(rows),
        !has_key(rows, key),
    ensures
        distinct_keys(rows.push((key, value))),
        as_map(rows.push((key, value))) == as_map(rows).insert(key, value),
{
    let after = rows.push((key, value));
    lemma_position(rows, key);
    assert forall|other: Seq<char>|
        position(after, other) == (if other == key {
            rows.len() as int
        } else if has_key(rows, other) {
            position(rows, other)
        } else {
            after.len() as int
        }) by {
        lemma_position(rows, other);
        if other == key {
            lemma_position_is(after, other, rows.len() as int);
        } else if has_key(rows, other) {
            lemma_position_is(after, other, position(rows, other));
        } else {
            lemma_position_is(after, other, after.len() as int);
        }
    }
    let expected = as_map(rows).insert(key, value);
    assert forall|other: Seq<char>| #[trigger]
        as_map(after).dom().contains(other) == expected.dom().contains(other) by {
        lemma_position(rows, other);
        assert(position(after, other) == (if other == key {
            rows.len() as int
        } else if has_key(rows, other) {
            position(rows, other)
        } else {
            after.len() as int
        }));
    }
    assert forall|other: Seq<char>| #[trigger]
        as_map(after).dom().contains(other) implies as_map(after)[other] == expected[other] by {
        lemma_position(rows, other);
        assert(position(after, other) == (if other == key {
            rows.len() as int
        } else if has_key(rows, other) {
            position(rows, other)
        } else {
            after.len() as int
        }));
    }
    assert(as_map(after) =~= expected);
}

/// The entries kept for `host`; none where the host is not known.
pub open spec fn entries_of<V>(
    table: Map<Seq<char>, Seq<(Seq<char>, V)>>,
    host: Seq<char>,
) -> Seq<(Seq<char>, V)> {
    if table.dom().contains(host) {
        table[host]
    } else {
        Seq::empty()
    }
}

/// The table after `value` has been put under `key` for `host`.
pub open spec fn inserted<V>(
    table: Map<Seq<char>, Seq<(Seq<char>, V)>>,
    host: Seq<char>,
    key: Seq<char>,
    value: V,
) -> Map<Seq<char>, Seq<(Seq<char>, V)>> {
    table.insert(host, bounded_insert(entries_of(table, host), DEFAULT_CAPACITY, key, value))
}

/// The value under `key` for `host`, if there is one.
pub open spec fn found<V>(
    table: Map<Seq<char>, Seq<(Seq<char>, V)>>,
    host: Seq<char>,
    key: Seq<char>,
) -> Option<V> {
    lookup(entries_of(table, host), key)
}

/// The table at `now`: each host keeps its fresh entries, and a host that
/// keeps none is gone.
pub open spec fn swept(
    table: Map<Seq<char>, Seq<(Seq<char>, TimesId)>>,
    now: Timestamp,
    keep_nanos: u128,
) -> Map<Seq<char>, Seq<(Seq<char>, TimesId)>> {
    Map::new(
        |host: Seq<char>|
            table.dom().contains(host) && fresh_entries(table[host], now, keep_nanos).len() > 0,
        |host: Seq<char>| fresh_entries(table[host], now, keep_nanos),
    )
}

/// The rows that are left at `now`, in their order.
pub open spec fn swept_rows(
    rows: Seq<(Seq<char>, Seq<(Seq<char>, TimesId)>)>,
    now: Timestamp,
    keep_nanos: u128,
) -> Seq<(Seq<char>, Seq<(Seq<char>, TimesId)>)>
    decreases rows.len(),
{
    if rows.len() == 0 {
        Seq::empty()
    } else if fresh_entries(rows.last().1, now, keep_nanos).len() > 0 {
        swept_rows(rows.drop_last(), now, keep_nanos).push(
            (rows.last().0, fresh_entries(rows.last().1, now, keep_nanos)),
        )
    } else {
        swept_rows(rows.drop_last(), now, keep_nanos)
    }
}

/// Sweeping the rows one by one sweeps the map they stand for.
pub proof fn lemma_swept_rows(
    rows: Seq<(Seq<char>, Seq<(Seq<char>, TimesId)>)>,
    now: Timestamp,
    keep_nanos: u128,
)
    requires
        distinct_keys(rows),
    ensures
        distinct_keys(swept_rows(rows, now, keep_nanos)),
        as_map(swept_rows(rows, now, keep_nanos)) == swept(as_map(rows), now, keep_nanos),
    decreases rows.len(),
{
    if rows.len() == 0 {
        assert(as_map(swept_rows(rows, now, keep_nanos)) =~= swept(as_map(rows), now, keep_nanos));
    } else {
        let front = rows.drop_last();
        let last = rows.last();
        let kept = fresh_entries(last.1, now, keep_nanos);
        lemma_swept_rows(front, now, keep_nanos);
        assert(!has_key(front, last.0)) by {
            lemma_position(front, last.0);
            if has_key(front, last.0) {
                assert(front[position(front, last.0)].0 == rows[rows.len() - 1].0);
            }
        }
        assert(rows == front.push(last));
        lemma_as_map_push(front, last.0, last.1);
        let swept_front = swept_rows(front, now, keep_nanos);
        assert(!has_key(swept_front, last.0)) by {
            assert(!swept(as_map(front), now, keep_nanos).dom().contains(last.0));
            assert(!as_map(swept_front).dom().contains(last.0));
        }
        if kept.len() > 0 {
            lemma_as_map_push(swept_front, last.0, kept);
        }
        assert(as_map(swept_rows(rows, now, keep_nanos)) =~= swept(as_map(rows), now, keep_nanos));
    }
}

spec fn rows_of<V>(hosts: Seq<(String, LimitedHashMap<V>)>) -> Seq<
    (Seq<char>, Seq<(Seq<char>, V)>),
> {
    hosts.map_values(|host: (String, LimitedHashMap<V>)| (host.0@, host.1@))
}

/// For each host, a bounded map of its own.
pub struct HostTable<V> {
    hosts: Vec<(String, LimitedHashMap<V>)>,
}

impl<V> HostTable<V> {
    closed spec fn rows(&self) -> Seq<(Seq<char>, Seq<(Seq<char>, V)>)> {
        rows_of(self.hosts@)
    }

    #[verifier::type_invariant]
    spec fn well_formed(self) -> bool {
        &&& distinct_keys(self.rows())
        &&& forall|i: int|
            0 <= i < self.hosts@.len() ==> (#[trigger] self.hosts@[i]).1.limit()
                == DEFAULT_CAPACITY
    }

    /// A table that knows no host.
    pub fn new() -> (table: Self)
        ensures
            table@ == Map::<Seq<char>, Seq<(Seq<char>, V)>>::empty(),
    {
        let table = HostTable { hosts: Vec::new() };
        assert(table@ =~= Map::<Seq<char>, Seq<(Seq<char>, V)>>::empty());
        table
    }

    fn find(&self, host: &str) -> (at: usize)
        ensures
            at == position(self.rows(), host@),
            at <= self.hosts@.len(),
            self.rows().len() == self.hosts@.len(),
    {
        let mut at: usize = 0;
        while at < self.hosts.len()
            invariant
                at <= self.hosts@.len(),
                forall|i: int| 0 <= i < at ==> self.rows()[i].0 != host@,
            decreases self.hosts@.len() - at,
        {
            if same_text(self.hosts[at].0.as_str(), host) {
                proof {
                    lemma_position_is(self.rows(), host@, at as int);
                }
                return at;
            }
            at = at + 1;
        }
        proof {
            lemma_position_is(self.rows(), host@, at as int);
        }
        at
    }

    /// Puts `value` under `key` for `host`; a host not known before gets a
    /// map of the usual capacity.
    pub fn insert(&mut self, host: &str, key: &str, value: V)
        ensures
            final(self)@ == inserted(old(self)@, host@, key@, value),
    {
        proof {
            use_type_invariant(&*self);
        }
        let at: usize = self.find(host);
        let ghost before = self.rows();
        let ghost table = self@;
        let mut hosts: Vec<(String, LimitedHashMap<V>)> = Vec::new();
        core::mem::swap(&mut self.hosts, &mut hosts);
        assert(rows_of(hosts@) == before);
        let ghost start = hosts@;
        proof {
            lemma_position(before, host@);
        }
        if at < hosts.len() {
            assert(start[at as int].1.limit() == DEFAULT_CAPACITY);
            assert(before[at as int] == (start[at as int].0@, start[at as int].1@));
            assert(entries_of(table, host@) == before[at as int].1);
            let (name, mut inner) = hosts.remove(at);
            inner.insert(key.to_owned(), value);
            let ghost entries = inner@;
            hosts.insert(at, (name, inner));
            proof {
                assert forall|i: int| 0 <= i < hosts@.len() implies (#[trigger] hosts@[i]).1.limit()
                    == DEFAULT_CAPACITY by {
                    if i != at {
                        assert(hosts@[i] == start[i]);
                    }
                }
                lemma_as_map_update(before, at as int, entries);
                assert(rows_of(hosts@)
                    =~= before.update(at as int, (before[at as int].0, entries)));
            }
        } else {
            assert(entries_of(table, host@) == Seq::<(Seq<char>, V)>::empty());
            let mut inner: LimitedHashMap<V> = LimitedHashMap::new(DEFAULT_CAPACITY);
            inner.insert(key.to_owned(), value);
            let ghost entries = inner@;
            hosts.push((host.to_owned(), inner));
            proof {
                assert forall|i: int| 0 <= i < hosts@.len() implies (#[trigger] hosts@[i]).1.limit()
                    == DEFAULT_CAPACITY by {
                    if i < start.len() {
                        assert(hosts@[i] == start[i]);
                    }
                }
                lemma_as_map_push(before, host@, entries);
                assert(rows_of(hosts@)
                    =~= before.push((host@, entries)));
            }
        }
        self.hosts = hosts;
    }

    /// The value under `key` for `host`, if there is one; no key occurs
    /// twice under a host.
    pub fn get(&self, host: &str, key: &str) -> (value: Option<&V>)
        ensures
            match value {
                Some(held) => found(self@, host@, key@) == Some(*held),
                None => found(self@, host@, key@) is None,
            },
            distinct_keys(entries_of(self@, host@)),
            entries_of(self@, host@).len() <= DEFAULT_CAPACITY,
    {
        proof {
            use_type_invariant(self);
        }
        let at: usize = self.find(host);
        if at < self.hosts.len() {
            assert(self.hosts@[at as int].1.limit() == DEFAULT_CAPACITY);
            self.hosts[at].1.get(key)
        } else {
            assert(lookup(Seq::<(Seq<char>, V)>::empty(), key@) is None);
            None
        }
    }

    /// Whether no host is known.
    pub fn is_empty(&self) -> (empty: bool)
        ensures
            empty == (self@.dom() == Set::<Seq<char>>::empty()),
    {
        proof {
            if self.hosts@.len() > 0 {
                let first = self.rows()[0].0;
                lemma_position_is(self.rows(), first, 0);
                assert(self@.dom().contains(first));
            } else {
                assert(self@.dom() =~= Set::<Seq<char>>::empty());
            }
        }
        self.hosts.len() == 0
    }

    /// The hosts that are known.
    pub fn hosts(&self) -> (names: Vec<String>)
        ensures
            forall|host: Seq<char>|
                self@.dom().contains(host) <==> exists|i: int|
                    0 <= i < names@.len() && (#[trigger] names@[i])@ == host,
    {
        let mut names: Vec<String> = Vec::new();
        let mut i: usize = 0;
        while i < self.hosts.len()
            invariant
                i <= self.hosts@.len(),
                names@.len() == i,
                forall|k: int| 0 <= k < i ==> (#[trigger] names@[k])@ == self.rows()[k].0,
            decreases self.hosts@.len() - i,
        {
            names.push(self.hosts[i].0.clone());
            i = i + 1;
        }
        proof {
            assert forall|host: Seq<char>|
                self@.dom().contains(host) <==> exists|i: int|
                    0 <= i < names@.len() && (#[trigger] names@[i])@ == host by {
                lemma_position(self.rows(), host);
                if self@.dom().contains(host) {
                    assert(names@[position(self.rows(), host)]@ == host);
                }
            }
        }
        names
    }

    /// The keys kept for `host`, oldest first: thirty at most, and none
    /// of them twice.
    pub fn keys(&self, host: &str) -> (keys: Vec<String>)
        ensures
            keys@.len() == entries_of(self@, host@).len(),
            forall|i: int| 0 <= i < keys@.len() ==> keys@[i]@ == entries_of(self@, host@)[i].0,
            distinct_keys(entries_of(self@, host@)),
            entries_of(self@, host@).len() <= DEFAULT_CAPACITY,
    {
        proof {
            use_type_invariant(self);
        }
        let at: usize = self.find(host);
        if at < self.hosts.len() {
            assert(self.hosts@[at as int].1.limit() == DEFAULT_CAPACITY);
            self.hosts[at].1.keys()
        } else {
            Vec::new()
        }
    }
}

impl<V> View for HostTable<V> {
    type V = Map<Seq<char>, Seq<(Seq<char>, V)>>;

    /// For each host that is known, its entries, oldest first.
    closed spec fn view(&self) -> Map<Seq<char>, Seq<(Seq<char>, V)>> {
        as_map(self.rows())
    }
}

impl HostTable<TimesId> {
    /// Lets go of the entries that are no longer to be kept at `now`, and
    /// of the hosts that keep none.
    pub fn retain_fresh(&mut self, now: Timestamp, keep_nanos: u128)
        ensures
            final(self)@ == swept(old(self)@, now, keep_nanos),
    {
        proof {
            use_type_invariant(&*self);
        }
        let ghost before = self.rows();
        let mut hosts: Vec<(String, LimitedHashMap<TimesId>)> = Vec::new();
        core::mem::swap(&mut self.hosts, &mut hosts);
        let mut kept: Vec<(String, LimitedHashMap<TimesId>)> = Vec::new();
        let ghost mut done: int = 0;
        assert(before.take(0) == Seq::<(Seq<char>, Seq<(Seq<char>, TimesId)>)>::empty());
        assert(before.skip(0) == before);
        while hosts.len() > 0
            invariant
                0 <= done <= before.len(),
                rows_of(hosts@) == before.skip(done),
                rows_of(kept@) == swept_rows(before.take(done), now, keep_nanos),
                forall|i: int|
                    0 <= i < hosts@.len() ==> (#[trigger] hosts@[i]).1.limit() == DEFAULT_CAPACITY,
                forall|i: int|
                    0 <= i < kept@.len() ==> (#[trigger] kept@[i]).1.limit() == DEFAULT_CAPACITY,
            decreases hosts@.len(),
        {
            let ghost rest = hosts@;
            let ghost so_far = rows_of(kept@);
            assert(before.skip(done).len() == hosts@.len());
            let (name, mut inner) = hosts.remove(0);
            proof {
                assert(before[done] == (name@, inner@)) by {
                    assert(rows_of(rest)[0] == (name@, inner@));
                    assert(before.skip(done)[0] == before[done]);
                }
                assert(before.take(done + 1).drop_last() == before.take(done));
                assert forall|i: int| 0 <= i < hosts@.len() implies #[trigger] rows_of(hosts@)[i]
                    == before.skip(done + 1)[i] by {
                    assert(hosts@[i] == rest[i + 1]);
                    assert(rows_of(rest)[i + 1] == before.skip(done)[i + 1]);
                }
                assert(rows_of(hosts@) =~= before.skip(done + 1));
                assert forall|i: int| 0 <= i < hosts@.len() implies (#[trigger] hosts@[i]).1.limit()
                    == DEFAULT_CAPACITY by {
                    assert(hosts@[i] == rest[i + 1]);
                }
            }
            inner.retain_fresh(now, keep_nanos);
            if !inner.is_empty() {
                let ghost entries = inner@;
                kept.push((name, inner));
                assert(rows_of(kept@) =~= so_far.push((name@, entries)));
            }
            proof {
                done = done + 1;
            }
        }
        proof {
            assert(before.take(before.len() as int) == before);
            lemma_swept_rows(before, now, keep_nanos);
        }
        self.hosts = kept;
    }
}


/// What has been resolved before: for each host, the episode found for an
/// item, with the time of writing, and the catalog entry found for a
/// season.
pub struct Linkage {
    pub items: HostTable<TimesId>,
    pub seasons: HostTable<usize>,
}

impl Linkage {
    /// A record that holds nothing.
    pub fn new() -> (linkage: Self)
        ensures
            linkage.items@ == Map::<Seq<char>, Seq<(Seq<char>, TimesId)>>::empty(),
            linkage.seasons@ == Map::<Seq<char>, Seq<(Seq<char>, usize)>>::empty(),
    {
        Linkage { items: HostTable::new(), seasons: HostTable::new() }
    }

    /// Writes down at `now` that item `item_id` of `host_key` is episode
    /// `epid`.
    pub fn insert_items_at(&mut self, host_key: &str, item_id: &str, epid: usize, now: Timestamp)
        ensures
            final(self).items@ == inserted(
                old(self).items@,
                host_key@,
                item_id@,
                TimesId { epid, last_updated: now },
            ),
            final(self).seasons@ == old(self).seasons@,
    {
        self.items.insert(host_key, item_id, TimesId { epid, last_updated: now });
    }

    /// Writes down, at the time the clock shows, that item `item_id` of
    /// `host_key` is episode `epid`.
    pub fn insert_items(&mut self, host_key: &str, item_id: &str, epid: usize)
        ensures
            exists|entry: TimesId|
                entry.epid == epid && final(self).items@ == #[trigger] inserted(
                    old(self).items@,
                    host_key@,
                    item_id@,
                    entry,
                ),
            final(self).seasons@ == old(self).seasons@,
    {
        let now: Timestamp = Timestamp::now();
        self.insert_items_at(host_key, item_id, epid, now);
        assert(self.items@ == inserted(
            old(self).items@,
            host_key@,
            item_id@,
            TimesId { epid, last_updated: now },
        ));
    }

    /// The episode written down for item `item_id` of `host_key`.
    pub fn get_items(&self, host_key: &str, item_id: &str) -> (epid: Option<usize>)
        ensures
            epid == match found(self.items@, host_key@, item_id@) {
                Some(entry) => Some(entry.epid),
                None => None,
            },
    {
        match self.items.get(host_key, item_id) {
            Some(entry) => Some(entry.epid),
            None => None,
        }
    }

    /// Writes down that season `season_id` of `host_key` is catalog entry
    /// `anime_id`.
    pub fn insert_seasons(&mut self, host_key: &str, season_id: &str, anime_id: usize)
        ensures
            final(self).seasons@ == inserted(old(self).seasons@, host_key@, season_id@, anime_id),
            final(self).items@ == old(self).items@,
    {
        self.seasons.insert(host_key, season_id, anime_id);
    }

    /// The catalog entry written down for season `season_id` of `host_key`.
    pub fn get_seasons(&self, host_key: &str, season_id: &str) -> (anime_id: Option<usize>)
        ensures
            anime_id == found(self.seasons@, host_key@, season_id@),
    {
        match self.seasons.get(host_key, season_id) {
            Some(entry) => Some(*entry),
            None => None,
        }
    }

    /// Forgets, at `now`, the episodes written down `keep_nanos`
    /// nanoseconds ago or longer, and the hosts left without any.
    pub fn clean_expired_entries_at(&mut self, keep_nanos: u128, now: Timestamp)
        ensures
            final(self).items@ == swept(old(self).items@, now, keep_nanos),
            final(self).seasons@ == old(self).seasons@,
    {
        self.items.retain_fresh(now, keep_nanos);
    }

    /// Forgets, at the time the clock shows, the episodes written down
    /// `keep_nanos` nanoseconds ago or longer, and the hosts left without
    /// any.
    pub fn clean_expired_entries(&mut self, keep_nanos: u128)
        ensures
            exists|now: Timestamp| #[trigger]
                swept(old(self).items@, now, keep_nanos) == final(self).items@,
            final(self).seasons@ == old(self).seasons@,
    {
        let now: Timestamp = Timestamp::now();
        self.clean_expired_entries_at(keep_nanos, now);
        assert(swept(old(self).items@, now, keep_nanos) == self.items@);
    }
}

impl Default for Linkage {
    fn default() -> (linkage: Self)
        ensures
            linkage.items@ == Map::<Seq<char>, Seq<(Seq<char>, TimesId)>>::empty(),
            linkage.seasons@ == Map::<Seq<char>, Seq<(Seq<char>, usize)>>::empty(),
    {
        Linkage::new()
    }
}

/// The entries after the values of `pairs` have been put under their keys,
/// one after the other.
pub open spec fn insert_all<V>(
    entries: Seq<(Seq<char>, V)>,
    limit: usize,
    pairs: Seq<(Seq<char>, V)>,
) -> Seq<(Seq<char>, V)>
    decreases pairs.len(),
{
    if pairs.len() == 0 {
        entries
    } else {
        bounded_insert(
            insert_all(entries, limit, pairs.drop_last()),
            limit,
            pairs.last().0,
            pairs.last().1,
        )
    }
}

/// How many of `count` new keys have left a map of `limit` entries again.
pub open spec fn evicted(count: nat, limit: usize) -> int {
    if count > limit {
        count - limit
    } else {
        0
    }
}

/// After values have been put under distinct keys into an empty map with a
/// positive limit, the map holds the last `limit` of them, oldest first,
/// and none of those before.
pub proof fn lemma_fill_keeps_latest<V>(limit: usize, pairs: Seq<(Seq<char>, V)>)
    requires
        limit > 0,
        distinct_keys(pairs),
    ensures
        insert_all(Seq::empty(), limit, pairs) == pairs.skip(evicted(pairs.len(), limit)),
        forall|i: int|
            evicted(pairs.len(), limit) <= i < pairs.len() ==> lookup(
                insert_all(Seq::empty(), limit, pairs),
                #[trigger] pairs[i].0,
            ) == Some(pairs[i].1),
        forall|i: int|
            0 <= i < evicted(pairs.len(), limit) ==> lookup(
                insert_all(Seq::empty(), limit, pairs),
                #[trigger] pairs[i].0,
            ) is None,
    decreases pairs.len(),
{
    let full = insert_all(Seq::<(Seq<char>, V)>::empty(), limit, pairs);
    let gone = evicted(pairs.len(), limit);
    if pairs.len() == 0 {
        assert(pairs.skip(0) == pairs);
    } else {
        let front = pairs.drop_last();
        let last = pairs.last();
        lemma_fill_keeps_latest(limit, front);
        let held = front.skip(evicted(front.len(), limit));
        assert(!has_key(held, last.0)) by {
            lemma_position(held, last.0);
        }
        assert(full =~= pairs.skip(gone));
    }
    assert forall|i: int| gone <= i < pairs.len() implies lookup(full, #[trigger] pairs[i].0)
        == Some(pairs[i].1) by {
        lemma_position_is(full, pairs[i].0, i - gone);
    }
    assert forall|i: int| 0 <= i < gone implies lookup(full, #[trigger] pairs[i].0) is None by {
        lemma_position_is(full, pairs[i].0, full.len() as int);
    }
}


/// The table after the values of `pairs` have been put under their keys
/// for `host`, one after the other.
pub open spec fn inserted_all<V>(
    table: Map<Seq<char>, Seq<(Seq<char>, V)>>,
    host: Seq<char>,
    pairs: Seq<(Seq<char>, V)>,
) -> Map<Seq<char>, Seq<(Seq<char>, V)>>
    decreases pairs.len(),
{
    if pairs.len() == 0 {
        table
    } else {
        inserted(inserted_all(table, host, pairs.drop_last()), host, pairs.last().0, pairs.last().1)
    }
}

/// What is put under keys for one host goes into that host's entries, by
/// the rule of the bounded map, and leaves the other hosts as they are.
pub proof fn lemma_inserted_all<V>(
    table: Map<Seq<char>, Seq<(Seq<char>, V)>>,
    host: Seq<char>,
    pairs: Seq<(Seq<char>, V)>,
)
    ensures
        entries_of(inserted_all(table, host, pairs), host) == insert_all(
            entries_of(table, host),
            DEFAULT_CAPACITY,
            pairs,
        ),
        forall|other: Seq<char>|
            other != host ==> entries_of(inserted_all(table, host, pairs), other) == entries_of(
                table,
                other,
            ),
    decreases pairs.len(),
{
    if pairs.len() > 0 {
        lemma_inserted_all(table, host, pairs.drop_last());
    }
}

/// After values have been put under distinct keys for a host that was not
/// known, the last thirty of them are found, and none of those before.
pub proof fn lemma_host_keeps_latest<V>(
    table: Map<Seq<char>, Seq<(Seq<char>, V)>>,
    host: Seq<char>,
    pairs: Seq<(Seq<char>, V)>,
)
    requires
        !table.dom().contains(host),
        distinct_keys(pairs),
    ensures
        forall|i: int|
            evicted(pairs.len(), DEFAULT_CAPACITY) <= i < pairs.len() ==> found(
                inserted_all(table, host, pairs),
                host,
                #[trigger] pairs[i].0,
            ) == Some(pairs[i].1),
        forall|i: int|
            0 <= i < evicted(pairs.len(), DEFAULT_CAPACITY) ==> found(
                inserted_all(table, host, pairs),
                host,
                #[trigger] pairs[i].0,
            ) is None,
{
    lemma_inserted_all(table, host, pairs);
    lemma_fill_keeps_latest(DEFAULT_CAPACITY, pairs);
}


/// Among entries with distinct keys, a key is found with a value exactly
/// where some entry holds the two.
pub proof fn lemma_lookup_is_membership<V>(entries: Seq<(Seq<char>, V)>, key: Seq<char>, at: int)
    requires
        distinct_keys(entries),
        0 <= at < entries.len(),
        entries[at].0 == key,
    ensures
        position(entries, key) == at,
        lookup(entries, key) == Some(entries[at].1),
{
    lemma_position_is(entries, key, at);
}

/// What is found after a sweep is what was found before and is still to
/// be kept; anything else is gone.
pub proof fn lemma_sweep_keeps_the_fresh(
    table: Map<Seq<char>, Seq<(Seq<char>, TimesId)>>,
    host: Seq<char>,
    key: Seq<char>,
    now: Timestamp,
    keep_nanos: u128,
)
    requires
        distinct_keys(entries_of(table, host)),
    ensures
        found(swept(table, now, keep_nanos), host, key) == match found(table, host, key) {
            Some(entry) => if fresh_at(entry.last_updated, now, keep_nanos) {
                Some(entry)
            } else {
                None
            },
            None => None,
        },
{
    let before = entries_of(table, host);
    let kept = fresh_entries(before, now, keep_nanos);
    lemma_fresh_entries(before, now, keep_nanos);
    lemma_position(before, key);
    lemma_position(kept, key);
    assert(entries_of(swept(table, now, keep_nanos), host) == kept) by {
        if !table.dom().contains(host) {
            assert(kept == Seq::<(Seq<char>, TimesId)>::empty());
        }
    }
    if has_key(kept, key) {
        let entry = kept[position(kept, key)];
        assert(before.contains(entry));
        let at = choose|at: int| 0 <= at < before.len() && before[at] == entry;
        lemma_lookup_is_membership(before, key, at);
    } else if has_key(before, key) && fresh_at(
        before[position(before, key)].1.last_updated,
        now,
        keep_nanos,
    ) {
        let entry = before[position(before, key)];
        assert(kept.contains(entry));
        let at = choose|at: int| 0 <= at < kept.len() && kept[at] == entry;
        assert(kept[at].0 == key);
    }
}

} // verus!
