//! The keyspace and the configuration registry: maps from byte strings to
//! byte strings, the keyspace with an optional expiry deadline per key.
use vstd::prelude::*;

verus! {

/// What a key holds: its value, and the deadline (milliseconds since the
/// epoch) from which it is gone.
pub type Stored = (Seq<u8>, Option<u64>);

/// The value a read at `now` sees for `k`: none once the deadline is reached.
pub open spec fn visible(m: Map<Seq<u8>, Stored>, k: Seq<u8>, now: u64) -> Option<Seq<u8>> {
    if m.contains_key(k) && (m[k].1 is None || now < m[k].1.unwrap()) {
        Some(m[k].0)
    } else {
        None
    }
}

/// The deadline of a key set at `now` to live `ms` milliseconds; a sum past
/// the clock's range stays at its end.
pub open spec fn deadline(now: u64, ms: u64) -> u64 {
    if now + ms > u64::MAX {
        u64::MAX
    } else {
        (now + ms) as u64
    }
}

/// The bytes an optional buffer holds.
pub open spec fn opt_bytes(o: Option<Vec<u8>>) -> Option<Seq<u8>> {
    match o {
        Some(v) => Some(v@),
        None => None,
    }
}

/// The keys of `m` still visible at `now`, with what they hold.
pub open spec fn live(m: Map<Seq<u8>, Stored>, now: u64) -> Map<Seq<u8>, Stored> {
    Map::new(|k: Seq<u8>| m.contains_key(k) && visible(m, k, now) is Some, |k: Seq<u8>| m[k])
}

/// True when `a` and `b` hold the same bytes.
pub fn bytes_equal(a: &[u8], b: &[u8]) -> (r: bool)
    ensures
        r == (a@ == b@),
{
    if a.len() != b.len() {
        return false;
    }
    let mut i: usize = 0;
    while i < a.len()
        invariant
            i <= a@.len(),
            a@.len() == b@.len(),
            forall|j: int| 0 <= j < i ==> a@[j] == b@[j],
        decreases a@.len() - i,
    {
        if a[i] != b[i] {
            return false;
        }
        i += 1;
    }
    assert(a@ =~= b@);
    true
}

/// A copy of a byte slice.
pub fn to_vec(b: &[u8]) -> (r: Vec<u8>)
    ensures
        r@ == b@,
{
    let mut r: Vec<u8> = Vec::new();
    crate::resp::append_bytes(&mut r, b);
    assert(r@ =~= b@);
    r
}

struct Entry {
    key: Vec<u8>,
    value: Vec<u8>,
    expires_at: Option<u64>,
}

/// A map of byte strings held as a list of entries with distinct keys.
pub struct ByteStore {
    entries: Vec<Entry>,
    model: Ghost<Map<Seq<u8>, Stored>>,
}

impl ByteStore {
    /// What the store holds, key by key.
    pub closed spec fn view_map(&self) -> Map<Seq<u8>, Stored> {
        self.model@
    }

    pub closed spec fn wf(&self) -> bool {
        &&& forall|i: int, j: int|
            0 <= i < self.entries@.len() && 0 <= j < self.entries@.len() && i != j
                ==> #[trigger] self.entries@[i].key@ != #[trigger] self.entries@[j].key@
        &&& forall|i: int|
            0 <= i < self.entries@.len() ==> self.model@.contains_key(
                #[trigger] self.entries@[i].key@,
            ) && self.model@[self.entries@[i].key@] == (
                self.entries@[i].value@,
                self.entries@[i].expires_at,
            )
        &&& forall|k: Seq<u8>|
            #[trigger] self.model@.contains_key(k) ==> exists|i: int|
                0 <= i < self.entries@.len() && #[trigger] self.entries@[i].key@ == k
    }

    pub fn new() -> (r: Self)
        ensures
            r.wf(),
            r.view_map() == Map::<Seq<u8>, Stored>::empty(),
    {
        ByteStore { entries: Vec::new(), model: Ghost(Map::empty()) }
    }

    fn find(&self, key: &[u8]) -> (r: Option<usize>)
        requires
            self.wf(),
        ensures
            r is Some ==> r.unwrap() < self.entries@.len() && self.entries@[r.unwrap() as int].key@
                == key@,
            r is None ==> !self.view_map().contains_key(key@),
    {
        let mut i: usize = 0;
        while i < self.entries.len()
            invariant
                i <= self.entries@.len(),
                forall|j: int| 0 <= j < i ==> self.entries@[j].key@ != key@,
            decreases self.entries@.len() - i,
        {
            if bytes_equal(self.entries[i].key.as_slice(), key) {
                return Some(i);
            }
            i += 1;
        }
        None
    }

    /// What `key` holds, with its deadline.
    pub fn lookup(&self, key: &[u8]) -> (r: Option<(Vec<u8>, Option<u64>)>)
        requires
            self.wf(),
        ensures
            r is None <==> !self.view_map().contains_key(key@),
            r is Some ==> (r.unwrap().0@, r.unwrap().1) == self.view_map()[key@],
    {
        match self.find(key) {
            Some(i) => {
                let e = &self.entries[i];
                Some((to_vec(e.value.as_slice()), e.expires_at))
            },
            None => None,
        }
    }

    /// Makes `key` hold `value` until `expires_at`, in place of what it held.
    pub fn insert(&mut self, key: &[u8], value: &[u8], expires_at: Option<u64>)
        requires
            old(self).wf(),
        ensures
            final(self).wf(),
            final(self).view_map() == old(self).view_map().insert(key@, (value@, expires_at)),
    {
        let entry = Entry { key: to_vec(key), value: to_vec(value), expires_at };
        let ghost m = self.model@.insert(key@, (value@, expires_at));
        match self.find(key) {
            Some(i) => {
                self.entries.set(i, entry);
                self.model = Ghost(m);
                assert forall|k: Seq<u8>| #[trigger] self.model@.contains_key(k) implies exists|j: int|
                    0 <= j < self.entries@.len() && #[trigger] self.entries@[j].key@ == k by {
                    if k != key@ {
                        let j = choose|j: int| 0 <= j < old(self).entries@.len() && #[trigger] old(self).entries@[j].key@ == k;
                        assert(self.entries@[j].key@ == k);
                    } else {
                        assert(self.entries@[i as int].key@ == k);
                    }
                }
            },
            None => {
                self.entries.push(entry);
                self.model = Ghost(m);
                let n = self.entries.len() - 1;
                assert forall|k: Seq<u8>| #[trigger] self.model@.contains_key(k) implies exists|j: int|
                    0 <= j < self.entries@.len() && #[trigger] self.entries@[j].key@ == k by {
                    if k != key@ {
                        let j = choose|j: int| 0 <= j < old(self).entries@.len() && #[trigger] old(self).entries@[j].key@ == k;
                        assert(self.entries@[j].key@ == k);
                    } else {
                        assert(self.entries@[n as int].key@ == k);
                    }
                }
            },
        }
    }

    /// Drops every key whose deadline has come by `now`.
    pub fn remove_expired(&mut self, now: u64)
        requires
            old(self).wf(),
        ensures
            final(self).wf(),
            final(self).view_map() == live(old(self).view_map(), now),
    {
        let ghost m = self.model@;
        let ghost es = self.entries@;
        let mut kept = ByteStore::new();
        let mut i: usize = 0;
        while i < self.entries.len()
            invariant
                self.wf(),
                self.model@ == m,
                self.entries@ == es,
                i <= es.len(),
                kept.wf(),
                forall|k: Seq<u8>|
                    #[trigger] kept.model@.contains_key(k) <==> (exists|j: int|
                        0 <= j < i && #[trigger] es[j].key@ == k && visible(m, k, now) is Some),
                forall|k: Seq<u8>| #[trigger] kept.model@.contains_key(k) ==> kept.model@[k] == m[k],
            decreases es.len() - i,
        {
            let e = &self.entries[i];
            let ghost k = e.key@;
            assert(m.contains_key(k) && m[k] == (e.value@, e.expires_at));
            let alive = match e.expires_at {
                Some(t) => now < t,
                None => true,
            };
            let ghost before = kept.model@;
            if alive {
                kept.insert(e.key.as_slice(), e.value.as_slice(), e.expires_at);
            }
            proof {
                assert forall|k2: Seq<u8>|
                    #[trigger] kept.model@.contains_key(k2) <==> (exists|j: int|
                        0 <= j < i + 1 && #[trigger] es[j].key@ == k2 && visible(m, k2, now) is Some) by {
                    if kept.model@.contains_key(k2) {
                        if k2 == k && alive {
                            assert(es[i as int].key@ == k2);
                        } else {
                            assert(before.contains_key(k2));
                            let j = choose|j: int| 0 <= j < i && #[trigger] es[j].key@ == k2 && visible(m, k2, now) is Some;
                            assert(es[j].key@ == k2);
                        }
                    }
                    if exists|j: int| 0 <= j < i + 1 && #[trigger] es[j].key@ == k2 && visible(m, k2, now) is Some {
                        let j = choose|j: int| 0 <= j < i + 1 && #[trigger] es[j].key@ == k2 && visible(m, k2, now) is Some;
                        if j < i {
                            assert(before.contains_key(k2));
                        } else {
                            assert(k2 == k);
                        }
                    }
                }
            }
            i += 1;
        }
        proof {
            assert forall|k: Seq<u8>| #[trigger] kept.model@.contains_key(k) <==> live(m, now).contains_key(k) by {
                if m.contains_key(k) && visible(m, k, now) is Some {
                    let j = choose|j: int| 0 <= j < es.len() && #[trigger] es[j].key@ == k;
                    assert(es[j].key@ == k);
                }
            }
            assert(kept.model@ =~= live(m, now));
        }
        *self = kept;
    }

    /// Removes `key` and what it held.
    pub fn remove(&mut self, key: &[u8])
        requires
            old(self).wf(),
        ensures
            final(self).wf(),
            final(self).view_map() == old(self).view_map().remove(key@),
    {
        match self.find(key) {
            Some(i) => {
                let ghost old_entries = self.entries@;
                let _ = self.entries.remove(i);
                self.model = Ghost(self.model@.remove(key@));
                assert forall|i1: int, j1: int|
                    0 <= i1 < self.entries@.len() && 0 <= j1 < self.entries@.len() && i1 != j1
                        implies #[trigger] self.entries@[i1].key@ != #[trigger] self.entries@[j1].key@ by {
                    let a = if i1 < i { i1 } else { i1 + 1 };
                    let b = if j1 < i { j1 } else { j1 + 1 };
                    assert(self.entries@[i1] == old_entries[a]);
                    assert(self.entries@[j1] == old_entries[b]);
                }
                assert forall|i1: int| 0 <= i1 < self.entries@.len() implies self.model@.contains_key(
                    #[trigger] self.entries@[i1].key@,
                ) && self.model@[self.entries@[i1].key@] == (
                    self.entries@[i1].value@,
                    self.entries@[i1].expires_at,
                ) by {
                    let a = if i1 < i { i1 } else { i1 + 1 };
                    assert(self.entries@[i1] == old_entries[a]);
                    assert(old_entries[a].key@ != old_entries[i as int].key@);
                }
                assert forall|k: Seq<u8>| #[trigger] self.model@.contains_key(k) implies exists|j: int|
                    0 <= j < self.entries@.len() && #[trigger] self.entries@[j].key@ == k by {
                    let j = choose|j: int| 0 <= j < old_entries.len() && #[trigger] old_entries[j].key@ == k;
                    assert(j != i);
                    let j1 = if j < i { j } else { j - 1 };
                    assert(self.entries@[j1] == old_entries[j]);
                }
            },
            None => {
                assert(self.model@.remove(key@) =~= self.model@);
            },
        }
    }
}

} // verus!
