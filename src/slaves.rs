//! `SlaveIdentifier` and `SlaveTask`: the handshake watcher and the write task
//! of `replication`, under the master/slave naming of the replication
//! protocol.
use vstd::prelude::*;
use crate::command::RedisCommand;
use crate::replication::{handshake_step, ReplicaIdentifier, ReplicaState, ReplicaTask};

verus! {

/// Watches the answers given on one connection for a replica's handshake.
pub struct SlaveIdentifier {
    inner: ReplicaIdentifier,
}

impl SlaveIdentifier {
    pub closed spec fn state(&self) -> ReplicaState {
        self.inner.state()
    }

    pub fn init() -> (r: Self)
        ensures
            r.state() == ReplicaState::Null,
    {
        SlaveIdentifier { inner: ReplicaIdentifier::init() }
    }

    /// Takes the answer given to one request; true when it completes the
    /// handshake.
    pub fn is_slave(&mut self, redis_command: &RedisCommand) -> (r: bool)
        ensures
            final(self).state() == handshake_step(old(self).state(), redis_command@),
            r == (final(self).state() == ReplicaState::FullSynced),
    {
        self.inner.is_replica(redis_command)
    }

    pub fn is_synced(&self) -> (r: bool)
        ensures
            r == (self.state() == ReplicaState::FullSynced),
    {
        self.inner.is_synced()
    }
}

/// The raw bytes of one accepted write, to be sent to every replica.
pub struct SlaveTask {
    inner: ReplicaTask,
}

impl SlaveTask {
    pub closed spec fn bytes(&self) -> Seq<u8> {
        self.inner.bytes()
    }

    pub fn new(task_command: Vec<u8>) -> (r: Self)
        ensures
            r.bytes() == task_command@,
    {
        SlaveTask { inner: ReplicaTask::new(task_command) }
    }

    pub fn command(&self) -> (r: &[u8])
        ensures
            r@ == self.bytes(),
    {
        self.inner.command()
    }
}

} // verus!
