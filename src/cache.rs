use vstd::prelude::*;
use crate::text::same_text;

verus! {

/// What one entry holds: key, value, and the second it was inserted at.
pub type EntryView = (Seq<char>, Seq<char>, u64);

/// An entry has expired once `ttl` seconds have passed since its insertion.
pub open spec fn expired(e: EntryView, ttl: u64, now: u64) -> bool {
    now as int >= e.2 as int + ttl as int
}

/// The value stored under `k` at `now`: the newest entry with that key
/// decides, and an expired one counts as absent.
pub open spec fn lookup_in(s: Seq<EntryView>, k: Seq<char>, ttl: u64, now: u64) -> Option<
    Seq<char>,
>
    decreases s.len(),
{
    if s.len() == 0 {
        None
    } else if s.last().0 == k {
        if expired(s.last(), ttl, now) {
            None
        } else {
            Some(s.last().1)
        }
    } else {
        lookup_in(s.drop_last(), k, ttl, now)
    }
}

/// The entries a `put` of `k` at `now` keeps, in their order: those under
/// another key that have not expired.
pub open spec fn retained(s: Seq<EntryView>, k: Seq<char>, ttl: u64, now: u64) -> Seq<EntryView>
    decreases s.len(),
{
    if s.len() == 0 {
        Seq::empty()
    } else {
        let rest = retained(s.drop_last(), k, ttl, now);
        if s.last().0 != k && !expired(s.last(), ttl, now) {
            rest.push(s.last())
        } else {
            rest
        }
    }
}

/// The entries after a `put`: the retained ones, the oldest of them evicted
/// when the store is full, then the new entry. A store of capacity zero
/// holds nothing.
pub open spec fn put_entries(
    s: Seq<EntryView>,
    k: Seq<char>,
    v: Seq<char>,
    ttl: u64,
    capacity: nat,
    now: u64,
) -> Seq<EntryView> {
    let r = retained(s, k, ttl, now);
    if capacity == 0 {
        r
    } else if r.len() >= capacity {
        r.drop_first().push((k, v, now))
    } else {
        r.push((k, v, now))
    }
}

/// No two entries share a key.
pub open spec fn keys_unique(s: Seq<EntryView>) -> bool {
    forall|i: int, j: int| 0 <= i < j < s.len() ==> s[i].0 != s[j].0
}

proof fn lemma_retained_from(s: Seq<EntryView>, k: Seq<char>, ttl: u64, now: u64)
    ensures
        forall|i: int|
            0 <= i < retained(s, k, ttl, now).len() ==> s.contains(
                #[trigger] retained(s, k, ttl, now)[i],
            ) && retained(s, k, ttl, now)[i].0 != k,
    decreases s.len(),
{
    if s.len() > 0 {
        let rest = retained(s.drop_last(), k, ttl, now);
        lemma_retained_from(s.drop_last(), k, ttl, now);
        assert forall|i: int| 0 <= i < rest.len() implies s.contains(#[trigger] rest[i]) by {
            let w = choose|w: int| 0 <= w < s.drop_last().len() && s.drop_last()[w] == rest[i];
            assert(s[w] == rest[i]);
        }
        assert(s[s.len() - 1] == s.last());
    }
}

proof fn lemma_retained_unique(s: Seq<EntryView>, k: Seq<char>, ttl: u64, now: u64)
    requires
        keys_unique(s),
    ensures
        keys_unique(retained(s, k, ttl, now)),
    decreases s.len(),
{
    if s.len() > 0 {
        let sl = s.drop_last();
        assert(keys_unique(sl));
        lemma_retained_unique(sl, k, ttl, now);
        lemma_retained_from(sl, k, ttl, now);
        let rest = retained(sl, k, ttl, now);
        assert forall|i: int| 0 <= i < rest.len() implies rest[i].0 != s.last().0 by {
            assert(sl.contains(rest[i]));
            let w = choose|w: int| 0 <= w < sl.len() && sl[w] == rest[i];
            assert(s[w] == rest[i]);
        }
    }
}

/// After a `put` no two entries share a key, if none did before.
pub proof fn lemma_put_keeps_keys_unique(
    s: Seq<EntryView>,
    k: Seq<char>,
    v: Seq<char>,
    ttl: u64,
    capacity: nat,
    now: u64,
)
    requires
        keys_unique(s),
    ensures
        keys_unique(put_entries(s, k, v, ttl, capacity, now)),
{
    let r = retained(s, k, ttl, now);
    lemma_retained_unique(s, k, ttl, now);
    lemma_retained_from(s, k, ttl, now);
    if capacity > 0 {
        let base = if r.len() >= capacity {
            r.drop_first()
        } else {
            r
        };
        assert(keys_unique(base)) by {
            if r.len() >= capacity {
                assert forall|i: int, j: int| 0 <= i < j < base.len() implies base[i].0
                    != base[j].0 by {
                    assert(base[i] == r[i + 1] && base[j] == r[j + 1]);
                }
            }
        }
        assert forall|i: int| 0 <= i < base.len() implies base[i].0 != k by {
            if r.len() >= capacity {
                assert(base[i] == r[i + 1]);
            }
        }
        let p = base.push((k, v, now));
        assert forall|i: int, j: int| 0 <= i < j < p.len() implies p[i].0 != p[j].0 by {
            if j == base.len() {
                assert(p[i] == base[i]);
            } else {
                assert(p[i] == base[i] && p[j] == base[j]);
            }
        }
    }
}

proof fn lemma_absent_key(s: Seq<EntryView>, k: Seq<char>, ttl: u64, t: u64)
    requires
        forall|i: int| 0 <= i < s.len() ==> s[i].0 != k,
    ensures
        lookup_in(s, k, ttl, t) is None,
    decreases s.len(),
{
    if s.len() > 0 {
        assert(s.last() == s[s.len() - 1]);
        lemma_absent_key(s.drop_last(), k, ttl, t);
    }
}

proof fn lemma_retained_lookup(
    s: Seq<EntryView>,
    k: Seq<char>,
    other: Seq<char>,
    ttl: u64,
    now: u64,
    t: u64,
)
    requires
        keys_unique(s),
        k != other,
        now <= t,
    ensures
        lookup_in(retained(s, other, ttl, now), k, ttl, t) == lookup_in(s, k, ttl, t),
    decreases s.len(),
{
    if s.len() > 0 {
        let sl = s.drop_last();
        assert(keys_unique(sl));
        lemma_retained_lookup(sl, k, other, ttl, now, t);
        let e = s.last();
        let rest = retained(sl, other, ttl, now);
        assert(rest.push(e).drop_last() =~= rest);
        assert(rest.push(e).last() == e);
        if e.0 == k && expired(e, ttl, now) {
            assert forall|i: int| 0 <= i < sl.len() implies sl[i].0 != k by {
                assert(sl[i] == s[i] && e == s[s.len() - 1]);
            }
            lemma_absent_key(sl, k, ttl, t);
        }
    }
}

pub struct CacheEntry {
    pub key: String,
    pub value: String,
    pub inserted_at: u64,
}

impl View for CacheEntry {
    type V = EntryView;

    open spec fn view(&self) -> EntryView {
        (self.key@, self.value@, self.inserted_at)
    }
}

/// A key/value store bounded by a per-entry time to live, measured from
/// insertion, and by a maximum entry count; when full it evicts the entry
/// inserted least recently. Time is passed in, in seconds.
pub struct TtlCache {
    entries: Vec<CacheEntry>,
    ttl_secs: u64,
    max_entries: usize,
}

impl View for TtlCache {
    type V = Seq<EntryView>;

    closed spec fn view(&self) -> Seq<EntryView> {
        self.entries@.map_values(|e: CacheEntry| e@)
    }
}

impl TtlCache {
    pub closed spec fn ttl(&self) -> u64 {
        self.ttl_secs
    }

    pub closed spec fn capacity(&self) -> nat {
        self.max_entries as nat
    }

    #[verifier::type_invariant]
    closed spec fn inv(&self) -> bool {
        &&& self.entries@.len() <= self.max_entries
        &&& keys_unique(self@)
    }

    /// The value the store gives for `k` at `now`.
    pub open spec fn lookup(&self, k: Seq<char>, now: u64) -> Option<Seq<char>> {
        lookup_in(self@, k, self.ttl(), now)
    }

    pub fn new(ttl_secs: u64, max_entries: usize) -> (r: TtlCache)
        ensures
            r@ == Seq::<EntryView>::empty(),
            keys_unique(r@),
            r.ttl() == ttl_secs,
            r.capacity() == max_entries,
    {
        let r = TtlCache { entries: Vec::new(), ttl_secs, max_entries };
        assert(r@ =~= Seq::<EntryView>::empty());
        r
    }

    pub fn len(&self) -> (r: usize)
        ensures
            r == self@.len(),
            r <= self.capacity(),
    {
        proof {
            use_type_invariant(self);
        }
        self.entries.len()
    }

    pub fn get(&self, key: &str, now: u64) -> (r: Option<String>)
        ensures
            r matches Some(v) ==> self.lookup(key@, now) == Some(v@),
            r is None ==> self.lookup(key@, now) is None,
    {
        let ghost s = self@;
        let mut i: usize = self.entries.len();
        assert(s.subrange(0, i as int) =~= s);
        while i > 0
            invariant
                i <= self.entries@.len(),
                s == self@,
                s.len() == self.entries@.len(),
                lookup_in(s, key@, self.ttl_secs, now) == lookup_in(
                    s.subrange(0, i as int),
                    key@,
                    self.ttl_secs,
                    now,
                ),
            decreases i,
        {
            let e = &self.entries[i - 1];
            let ghost sub = s.subrange(0, i as int);
            assert(sub.last() == e@);
            assert(sub.drop_last() =~= s.subrange(0, i - 1));
            if same_text(e.key.as_str(), key) {
                if now as u128 >= e.inserted_at as u128 + self.ttl_secs as u128 {
                    return None;
                }
                return Some(e.value.clone());
            }
            i = i - 1;
        }
        None
    }

    pub fn put(&mut self, key: String, value: String, now: u64)
        ensures
            final(self)@.len() <= final(self).capacity(),
            keys_unique(final(self)@),
            final(self).ttl() == old(self).ttl(),
            final(self).capacity() == old(self).capacity(),
            final(self)@ == put_entries(
                old(self)@,
                key@,
                value@,
                old(self).ttl(),
                old(self).capacity(),
                now,
            ),
    {
        proof {
            use_type_invariant(&*self);
        }
        let ghost s = self@;
        let mut kept: Vec<CacheEntry> = Vec::new();
        let mut i: usize = 0;
        while i < self.entries.len()
            invariant
                i <= self.entries@.len(),
                s == self@,
                s.len() == self.entries@.len(),
                kept@.map_values(|e: CacheEntry| e@) == retained(
                    s.subrange(0, i as int),
                    key@,
                    self.ttl_secs,
                    now,
                ),
                kept@.len() <= i,
            decreases self.entries@.len() - i,
        {
            let e = &self.entries[i];
            let ghost sub = s.subrange(0, i + 1);
            assert(sub.last() == e@);
            assert(sub.drop_last() =~= s.subrange(0, i as int));
            let live = (now as u128) < e.inserted_at as u128 + self.ttl_secs as u128;
            if !same_text(e.key.as_str(), key.as_str()) && live {
                let ghost before = kept@.map_values(|e: CacheEntry| e@);
                kept.push(
                    CacheEntry {
                        key: e.key.clone(),
                        value: e.value.clone(),
                        inserted_at: e.inserted_at,
                    },
                );
                assert(kept@.map_values(|e: CacheEntry| e@) =~= before.push(e@));
            }
            i = i + 1;
        }
        assert(s.subrange(0, s.len() as int) =~= s);
        proof {
            lemma_put_keeps_keys_unique(s, key@, value@, self.ttl_secs, self.max_entries as nat, now);
        }
        if self.max_entries > 0 {
            if kept.len() >= self.max_entries {
                let ghost before = kept@.map_values(|e: CacheEntry| e@);
                kept.remove(0);
                assert(kept@.map_values(|e: CacheEntry| e@) =~= before.drop_first());
            }
            let ghost before = kept@.map_values(|e: CacheEntry| e@);
            kept.push(CacheEntry { key, value, inserted_at: now });
            assert(kept@.map_values(|e: CacheEntry| e@) =~= before.push((key@, value@, now)));
        }
        self.entries = kept;
    }
}

/// Right after `put(k, v)` at `now` in a store of non-zero capacity, a
/// lookup of `k` gives `v` at every time before `now + ttl`, and nothing from
/// then on.
pub proof fn lemma_put_then_lookup(c: TtlCache, k: Seq<char>, v: Seq<char>, now: u64, t: u64)
    requires
        c.capacity() > 0,
    ensures
        lookup_in(put_entries(c@, k, v, c.ttl(), c.capacity(), now), k, c.ttl(), t) == if t as int
            >= now as int + c.ttl() as int {
            None::<Seq<char>>
        } else {
            Some(v)
        },
{
    let s = put_entries(c@, k, v, c.ttl(), c.capacity(), now);
    assert(s.last() == (k, v, now));
}

/// A `put` of another key that evicts nothing leaves the answer for `k`
/// unchanged at every time from the `put` on: an entry stays until its time
/// to live passes or the store evicts it.
pub proof fn lemma_other_put_keeps_lookup(
    c: TtlCache,
    k: Seq<char>,
    other: Seq<char>,
    v: Seq<char>,
    now: u64,
    t: u64,
)
    requires
        keys_unique(c@),
        k != other,
        retained(c@, other, c.ttl(), now).len() < c.capacity(),
        now <= t,
    ensures
        lookup_in(put_entries(c@, other, v, c.ttl(), c.capacity(), now), k, c.ttl(), t)
            == c.lookup(k, t),
{
    let r = retained(c@, other, c.ttl(), now);
    let p = put_entries(c@, other, v, c.ttl(), c.capacity(), now);
    assert(p.drop_last() =~= r);
    lemma_retained_lookup(c@, k, other, c.ttl(), now, t);
}

} // verus!
