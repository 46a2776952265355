//! The server's shared state: the keyspace with lazy expiry, and the
//! configuration registry.
use vstd::prelude::*;
use crate::store::{deadline, live, opt_bytes, visible, ByteStore, Stored};

verus! {

/// The keyspace and the configuration of one server.
pub struct Database {
    values: ByteStore,
    config: ByteStore,
}

impl Database {
    /// The keyspace: each key's value and deadline.
    pub closed spec fn values(&self) -> Map<Seq<u8>, Stored> {
        self.values.view_map()
    }

    /// The configuration: each recognised key's value.
    pub closed spec fn config(&self) -> Map<Seq<u8>, Stored> {
        self.config.view_map()
    }

    pub closed spec fn wf(&self) -> bool {
        self.values.wf() && self.config.wf()
    }

    pub fn new() -> (r: Self)
        ensures
            r.wf(),
            r.values() == Map::<Seq<u8>, Stored>::empty(),
            r.config() == Map::<Seq<u8>, Stored>::empty(),
    {
        Database { values: ByteStore::new(), config: ByteStore::new() }
    }
}

/// The value `key` holds for a read at `now_ms`. A key whose deadline has
/// come is removed and reads as absent.
pub fn get_value(db: &mut Database, key: &[u8], now_ms: u64) -> (r: Option<Vec<u8>>)
    requires
        old(db).wf(),
    ensures
        final(db).wf(),
        opt_bytes(r) == visible(old(db).values(), key@, now_ms),
        final(db).config() == old(db).config(),
        final(db).values() == if old(db).values().contains_key(key@) && visible(
            old(db).values(),
            key@,
            now_ms,
        ) is None {
            old(db).values().remove(key@)
        } else {
            old(db).values()
        },
{
    match db.values.lookup(key) {
        Some((value, expires_at)) => {
            match expires_at {
                Some(t) => {
                    if now_ms >= t {
                        db.values.remove(key);
                        return None;
                    }
                },
                None => {},
            }
            Some(value)
        },
        None => None,
    }
}

/// Drops every key whose deadline has come by `now_ms`, as a periodic sweep.
pub fn remove_expired(db: &mut Database, now_ms: u64)
    requires
        old(db).wf(),
    ensures
        final(db).wf(),
        final(db).values() == live(old(db).values(), now_ms),
        final(db).config() == old(db).config(),
{
    db.values.remove_expired(now_ms);
}

/// Makes `key` hold `value` with no deadline.
pub fn set_value(db: &mut Database, key: &[u8], value: &[u8])
    requires
        old(db).wf(),
    ensures
        final(db).wf(),
        final(db).values() == old(db).values().insert(key@, (value@, None::<u64>)),
        final(db).config() == old(db).config(),
{
    db.values.insert(key, value, None);
}

/// Makes `key` hold `value` until `expiry` milliseconds after `now_ms`.
pub fn set_value_expiry(db: &mut Database, key: &[u8], value: &[u8], expiry: u64, now_ms: u64)
    requires
        old(db).wf(),
    ensures
        final(db).wf(),
        final(db).values() == old(db).values().insert(key@, (value@, Some(deadline(now_ms, expiry)))),
        final(db).config() == old(db).config(),
{
    let t = now_ms.saturating_add(expiry);
    db.values.insert(key, value, Some(t));
}

/// Removes `key`.
pub fn delete_value(db: &mut Database, key: &[u8])
    requires
        old(db).wf(),
    ensures
        final(db).wf(),
        final(db).values() == old(db).values().remove(key@),
        final(db).config() == old(db).config(),
{
    db.values.remove(key);
}

/// The configuration value of `key`.
pub fn get_config(db: &Database, key: &[u8]) -> (r: Option<Vec<u8>>)
    requires
        db.wf(),
    ensures
        r is Some <==> db.config().contains_key(key@),
        r is Some ==> r.unwrap()@ == db.config()[key@].0,
{
    match db.config.lookup(key) {
        Some((value, _)) => Some(value),
        None => None,
    }
}

/// Sets the configuration value of `key`.
pub fn set_config(db: &mut Database, key: &[u8], value: &[u8])
    requires
        old(db).wf(),
    ensures
        final(db).wf(),
        final(db).config() == old(db).config().insert(key@, (value@, None::<u64>)),
        final(db).values() == old(db).values(),
{
    db.config.insert(key, value, None);
}

/// A read of a key after it was set with no deadline, and before any other
/// write to it, sees the value set.
pub proof fn lemma_get_after_set(m: Map<Seq<u8>, Stored>, k: Seq<u8>, v: Seq<u8>, now: u64)
    ensures
        visible(m.insert(k, (v, None::<u64>)), k, now) == Some(v),
{
}

/// A key set at `set_at` to live `ms` milliseconds reads as absent at any time
/// more than `ms` milliseconds later, and as its value at any time before its
/// deadline.
pub proof fn lemma_get_after_expiry(
    m: Map<Seq<u8>, Stored>,
    k: Seq<u8>,
    v: Seq<u8>,
    set_at: u64,
    ms: u64,
    now: u64,
)
    ensures
        now > set_at + ms ==> visible(m.insert(k, (v, Some(deadline(set_at, ms)))), k, now) is None,
        now < deadline(set_at, ms) ==> visible(m.insert(k, (v, Some(deadline(set_at, ms)))), k, now) == Some(v),
{
}

} // verus!
