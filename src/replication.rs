//! Primary-side replication: recognising a connection's handshake, the
//! registry of attached replicas, the queue of writes fanned out to them, and
//! the decisions of the `WAIT` quorum probe.
use vstd::prelude::*;
use crate::command::{RedisCommand, Reply};

verus! {

/// How far a connection has gone through the replica handshake.
#[derive(Debug, Clone, Copy, PartialEq, Eq, Structural)]
pub enum ReplicaState {
    Null,
    Ponged,
    Replconf1,
    Replconf2,
    FullSynced,
}

/// The handshake state after answering `reply` in state `s`: each step
/// advances only on the expected answer, anything else starts over.
pub open spec fn handshake_step(s: ReplicaState, reply: Reply) -> ReplicaState {
    match (reply, s) {
        (Reply::Pong, ReplicaState::Null) => ReplicaState::Ponged,
        (Reply::ReplconfOk1, ReplicaState::Ponged) => ReplicaState::Replconf1,
        (Reply::ReplconfOk2, ReplicaState::Replconf1) => ReplicaState::Replconf2,
        (Reply::FullResync(_, _), ReplicaState::Replconf2) => ReplicaState::FullSynced,
        _ => ReplicaState::Null,
    }
}

/// Watches the answers given on one connection for a replica's handshake.
pub struct ReplicaIdentifier {
    slave_state: ReplicaState,
}

impl ReplicaIdentifier {
    pub closed spec fn state(&self) -> ReplicaState {
        self.slave_state
    }

    pub fn init() -> (r: Self)
        ensures
            r.state() == ReplicaState::Null,
    {
        ReplicaIdentifier { slave_state: ReplicaState::Null }
    }

    /// Takes the answer given to one request; true when it completes the
    /// handshake.
    pub fn is_replica(&mut self, redis_command: &RedisCommand) -> (r: bool)
        ensures
            final(self).state() == handshake_step(old(self).state(), redis_command@),
            r == (final(self).state() == ReplicaState::FullSynced),
    {
        self.slave_state = match (redis_command, self.slave_state) {
            (RedisCommand::Pong, ReplicaState::Null) => ReplicaState::Ponged,
            (RedisCommand::ReplconfOk1, ReplicaState::Ponged) => ReplicaState::Replconf1,
            (RedisCommand::ReplconfOk2, ReplicaState::Replconf1) => ReplicaState::Replconf2,
            (RedisCommand::FullResync(_, _), ReplicaState::Replconf2) => ReplicaState::FullSynced,
            _ => ReplicaState::Null,
        };
        self.slave_state == ReplicaState::FullSynced
    }

    pub fn is_synced(&self) -> (r: bool)
        ensures
            r == (self.state() == ReplicaState::FullSynced),
    {
        self.slave_state == ReplicaState::FullSynced
    }
}

/// The raw bytes of one accepted write, to be sent to every replica.
pub struct ReplicaTask {
    task_command: Vec<u8>,
}

impl ReplicaTask {
    pub closed spec fn bytes(&self) -> Seq<u8> {
        self.task_command@
    }

    pub fn new(task_command: Vec<u8>) -> (r: Self)
        ensures
            r.bytes() == task_command@,
    {
        ReplicaTask { task_command }
    }

    pub fn command(&self) -> (r: &[u8])
        ensures
            r@ == self.bytes(),
    {
        self.task_command.as_slice()
    }
}

/// The byte sequences of `s` one after the other.
pub open spec fn concat(s: Seq<Seq<u8>>) -> Seq<u8>
    decreases s.len(),
{
    if s.len() == 0 {
        Seq::empty()
    } else {
        concat(s.drop_last()) + s.last()
    }
}

pub proof fn lemma_concat_append(a: Seq<Seq<u8>>, b: Seq<Seq<u8>>)
    ensures
        concat(a + b) == concat(a) + concat(b),
    decreases b.len(),
{
    if b.len() == 0 {
        assert(a + b =~= a);
        assert(concat(a) + concat(b) =~= concat(a));
    } else {
        lemma_concat_append(a, b.drop_last());
        assert((a + b).drop_last() =~= a + b.drop_last());
        assert(concat(a) + (concat(b.drop_last()) + b.last()) =~= (concat(a) + concat(b.drop_last())) + b.last());
    }
}

/// A count of bytes held in 64 bits, stuck at the largest value past it.
pub open spec fn clamp_u64(n: nat) -> u64 {
    if n > u64::MAX {
        u64::MAX
    } else {
        n as u64
    }
}

/// One attached replica, as the fan-out knows it.
pub struct Replica {
    id: u64,
    offset: u64,
    joined: Ghost<nat>,
    sent: Ghost<Seq<u8>>,
}

/// The replicas attached to a primary, in the order they attached, and the
/// writes accepted and not yet fanned out.
pub struct ReplicaSet {
    replicas: Vec<Replica>,
    tasks: Vec<ReplicaTask>,
    next_id: u64,
    accepted: Ghost<Seq<Seq<u8>>>,
    dispatched: Ghost<nat>,
}

impl ReplicaSet {
    /// The raw bytes of every write accepted, in the order accepted.
    pub closed spec fn accepted(&self) -> Seq<Seq<u8>> {
        self.accepted@
    }

    /// How many accepted writes have been fanned out.
    pub closed spec fn dispatched(&self) -> nat {
        self.dispatched@
    }

    pub closed spec fn len(&self) -> nat {
        self.replicas@.len()
    }

    pub closed spec fn id_at(&self, i: int) -> u64 {
        self.replicas@[i].id
    }

    /// The bytes written to the `i`-th replica so far.
    pub closed spec fn sent_at(&self, i: int) -> Seq<u8> {
        self.replicas@[i].sent@
    }

    /// How many accepted writes came before the `i`-th replica attached.
    pub closed spec fn joined_at(&self, i: int) -> nat {
        self.replicas@[i].joined@
    }

    pub closed spec fn offset_at(&self, i: int) -> u64 {
        self.replicas@[i].offset
    }

    pub closed spec fn next_id(&self) -> u64 {
        self.next_id
    }

    pub closed spec fn wf(&self) -> bool {
        &&& self.dispatched@ <= self.accepted@.len()
        &&& self.tasks@.len() == self.accepted@.len() - self.dispatched@
        &&& forall|j: int|
            0 <= j < self.tasks@.len() ==> #[trigger] self.tasks@[j].bytes() == self.accepted@[j
                + self.dispatched@]
        &&& forall|i: int|
            0 <= i < self.replicas@.len() ==> {
                let r = #[trigger] self.replicas@[i];
                &&& r.joined@ <= self.dispatched@
                &&& r.sent@ == concat(self.accepted@.subrange(r.joined@ as int, self.dispatched@ as int))
                &&& r.offset == clamp_u64(r.sent@.len())
                &&& r.id < self.next_id
            }
        &&& forall|i: int, j: int|
            0 <= i < self.replicas@.len() && 0 <= j < self.replicas@.len() && i != j
                ==> #[trigger] self.replicas@[i].id != #[trigger] self.replicas@[j].id
    }

    pub fn new() -> (r: Self)
        ensures
            r.wf(),
            r.len() == 0,
            r.accepted() == Seq::<Seq<u8>>::empty(),
            r.dispatched() == 0,
    {
        ReplicaSet {
            replicas: Vec::new(),
            tasks: Vec::new(),
            next_id: 0,
            accepted: Ghost(Seq::empty()),
            dispatched: Ghost(0),
        }
    }

    /// Queues an accepted write for every replica.
    pub fn push_to_replicas(&mut self, replica_task: ReplicaTask)
        requires
            old(self).wf(),
        ensures
            final(self).wf(),
            final(self).accepted() == old(self).accepted().push(replica_task.bytes()),
            final(self).dispatched() == old(self).dispatched(),
            final(self).len() == old(self).len(),
            forall|i: int|
                0 <= i < old(self).len() ==> final(self).id_at(i) == old(self).id_at(i)
                    && final(self).sent_at(i) == old(self).sent_at(i) && final(self).joined_at(i)
                    == old(self).joined_at(i) && final(self).offset_at(i) == old(self).offset_at(i),
    {
        let ghost b = replica_task.bytes();
        self.tasks.push(replica_task);
        self.accepted = Ghost(self.accepted@.push(b));
        assert forall|i: int| 0 <= i < self.replicas@.len() implies {
            let r = #[trigger] self.replicas@[i];
            r.sent@ == concat(self.accepted@.subrange(r.joined@ as int, self.dispatched@ as int))
        } by {
            let r = self.replicas@[i];
            assert(self.accepted@.subrange(r.joined@ as int, self.dispatched@ as int)
                =~= old(self).accepted@.subrange(r.joined@ as int, self.dispatched@ as int));
        }
    }

    /// True while another replica can be given an identifier.
    pub fn can_register(&self) -> (r: bool)
        ensures
            r == (self.next_id() < u64::MAX),
    {
        self.next_id < u64::MAX
    }

    /// Attaches a replica that has completed its handshake; it receives the
    /// writes queued from now on. Returns its identifier.
    pub fn register(&mut self) -> (id: u64)
        requires
            old(self).wf(),
            old(self).next_id() < u64::MAX,
        ensures
            final(self).wf(),
            final(self).len() == old(self).len() + 1,
            final(self).id_at(old(self).len() as int) == id,
            final(self).offset_at(old(self).len() as int) == 0,
            final(self).sent_at(old(self).len() as int) == Seq::<u8>::empty(),
            final(self).joined_at(old(self).len() as int) == old(self).dispatched(),
            final(self).accepted() == old(self).accepted(),
            final(self).dispatched() == old(self).dispatched(),
            final(self).next_id() == old(self).next_id() + 1,
            forall|i: int|
                0 <= i < old(self).len() ==> final(self).id_at(i) == old(self).id_at(i)
                    && final(self).sent_at(i) == old(self).sent_at(i) && final(self).joined_at(i)
                    == old(self).joined_at(i) && final(self).offset_at(i) == old(self).offset_at(i),
    {
        let id = self.next_id;
        let ghost d = self.dispatched@;
        assert(self.accepted@.subrange(d as int, d as int) =~= Seq::<Seq<u8>>::empty());
        self.replicas.push(Replica { id, offset: 0, joined: Ghost(d), sent: Ghost(Seq::empty()) });
        self.next_id = id + 1;
        id
    }

    /// Detaches the replica with identifier `id`, if attached.
    pub fn remove_replica(&mut self, id: u64) -> (removed: bool)
        requires
            old(self).wf(),
        ensures
            final(self).wf(),
            removed == exists|i: int| 0 <= i < old(self).len() && old(self).id_at(i) == id,
            final(self).len() == if removed { old(self).len() - 1 } else { old(self).len() as int },
            final(self).accepted() == old(self).accepted(),
            final(self).dispatched() == old(self).dispatched(),
            forall|i: int|
                0 <= i < final(self).len() ==> final(self).id_at(i) != id,
    {
        let mut i: usize = 0;
        while i < self.replicas.len()
            invariant
                i <= self.replicas@.len(),
                forall|j: int| 0 <= j < i ==> self.replicas@[j].id != id,
            ensures
                i <= self.replicas@.len(),
                forall|j: int| 0 <= j < i ==> self.replicas@[j].id != id,
                i < self.replicas@.len() ==> self.replicas@[i as int].id == id,
            decreases self.replicas@.len() - i,
        {
            if self.replicas[i].id == id {
                break;
            }
            i += 1;
        }
        if i == self.replicas.len() {
            return false;
        }
        let ghost old_rs = self.replicas@;
        let _ = self.replicas.remove(i);
        proof {
            assert forall|a: int| 0 <= a < self.replicas@.len() implies {
                let r = #[trigger] self.replicas@[a];
                &&& r.joined@ <= self.dispatched@
                &&& r.sent@ == concat(self.accepted@.subrange(r.joined@ as int, self.dispatched@ as int))
                &&& r.offset == clamp_u64(r.sent@.len())
                &&& r.id < self.next_id
            } by {
                let k = if a < i { a } else { a + 1 };
                assert(self.replicas@[a] == old_rs[k]);
            }
            assert forall|a: int, b: int|
                0 <= a < self.replicas@.len() && 0 <= b < self.replicas@.len() && a != b
                    implies #[trigger] self.replicas@[a].id != #[trigger] self.replicas@[b].id by {
                let ka = if a < i { a } else { a + 1 };
                let kb = if b < i { b } else { b + 1 };
                assert(self.replicas@[a] == old_rs[ka]);
                assert(self.replicas@[b] == old_rs[kb]);
            }
            assert forall|a: int| 0 <= a < self.replicas@.len() implies self.replicas@[a].id != id by {
                let k = if a < i { a } else { a + 1 };
                assert(self.replicas@[a] == old_rs[k]);
                assert(old_rs[k].id != old_rs[i as int].id);
            }
            assert(old(self).id_at(i as int) == id);
        }
        true
    }

    /// The identifiers of the attached replicas, in the order they attached.
    pub fn replica_ids(&self) -> (ids: Vec<u64>)
        ensures
            ids@.len() == self.len(),
            forall|i: int| 0 <= i < ids@.len() ==> ids@[i] == self.id_at(i),
    {
        let mut ids: Vec<u64> = Vec::new();
        let mut i: usize = 0;
        while i < self.replicas.len()
            invariant
                i <= self.replicas@.len(),
                ids@.len() == i,
                forall|j: int| 0 <= j < i ==> ids@[j] == self.replicas@[j].id,
            decreases self.replicas@.len() - i,
        {
            ids.push(self.replicas[i].id);
            i += 1;
        }
        ids
    }

    /// Takes the oldest queued write and records it as sent to every attached
    /// replica; the caller writes its bytes to each of them, in order.
    pub fn next_task(&mut self) -> (r: Option<ReplicaTask>)
        requires
            old(self).wf(),
        ensures
            final(self).wf(),
            final(self).accepted() == old(self).accepted(),
            final(self).len() == old(self).len(),
            r is None <==> old(self).dispatched() == old(self).accepted().len(),
            r is None ==> final(self).dispatched() == old(self).dispatched(),
            r matches Some(t) ==> t.bytes() == old(self).accepted()[old(self).dispatched() as int]
                && final(self).dispatched() == old(self).dispatched() + 1,
            forall|i: int|
                0 <= i < old(self).len() ==> final(self).id_at(i) == old(self).id_at(i)
                    && final(self).joined_at(i) == old(self).joined_at(i),
            r matches Some(t) ==> forall|i: int|
                0 <= i < old(self).len() ==> final(self).sent_at(i) == old(self).sent_at(i)
                    + t.bytes(),
            r is None ==> forall|i: int|
                0 <= i < old(self).len() ==> final(self).sent_at(i) == old(self).sent_at(i),
            forall|i: int|
                0 <= i < final(self).len() ==> final(self).offset_at(i) == clamp_u64(
                    final(self).sent_at(i).len(),
                ),
    {
        if self.tasks.len() == 0 {
            return None;
        }
        let task = self.tasks.remove(0);
        let ghost b = task.bytes();
        let ghost d = self.dispatched@;
        let len = task.task_command.len();
        let ghost old_rs = self.replicas@;
        self.dispatched = Ghost(d + 1);
        let mut reps: Vec<Replica> = Vec::new();
        std::mem::swap(&mut reps, &mut self.replicas);
        let mut i: usize = 0;
        while i < reps.len()
            invariant
                i <= reps@.len(),
                reps@.len() == old_rs.len(),
                len == b.len(),
                forall|j: int|
                    0 <= j < i ==> {
                        let r = #[trigger] reps@[j];
                        &&& r.id == old_rs[j].id
                        &&& r.joined@ == old_rs[j].joined@
                        &&& r.sent@ == old_rs[j].sent@ + b
                        &&& r.offset == if old_rs[j].offset as int + len > u64::MAX { u64::MAX } else { (old_rs[j].offset + len) as u64 }
                    },
                forall|j: int| i <= j < old_rs.len() ==> #[trigger] reps@[j] == old_rs[j],
            decreases reps@.len() - i,
        {
            let old_r = &reps[i];
            let r = Replica {
                id: old_r.id,
                offset: old_r.offset.saturating_add(len as u64),
                joined: Ghost(old_r.joined@),
                sent: Ghost(old_r.sent@ + b),
            };
            reps.set(i, r);
            i += 1;
        }
        std::mem::swap(&mut reps, &mut self.replicas);
        proof {
            assert forall|j: int| 0 <= j < self.tasks@.len() implies #[trigger] self.tasks@[j].bytes()
                == self.accepted@[j + self.dispatched@] by {
                assert(self.tasks@[j] == old(self).tasks@[j + 1]);
                assert(old(self).tasks@[j + 1].bytes() == self.accepted@[j + 1 + d]);
            }
            assert forall|j: int| 0 <= j < self.replicas@.len() implies {
                let r = #[trigger] self.replicas@[j];
                &&& r.joined@ <= self.dispatched@
                &&& r.sent@ == concat(self.accepted@.subrange(r.joined@ as int, self.dispatched@ as int))
                &&& r.offset == clamp_u64(r.sent@.len())
                &&& r.id < self.next_id
            } by {
                let r = self.replicas@[j];
                let o = old_rs[j];
                let s = self.accepted@.subrange(o.joined@ as int, (d + 1) as int);
                assert(s.drop_last() =~= self.accepted@.subrange(o.joined@ as int, d as int));
                assert(s.last() == b);
                assert(old(self).replicas@[j] == o);
            }
            assert forall|a: int, c: int|
                0 <= a < self.replicas@.len() && 0 <= c < self.replicas@.len() && a != c
                    implies #[trigger] self.replicas@[a].id != #[trigger] self.replicas@[c].id by {
                assert(old_rs[a].id == self.replicas@[a].id);
                assert(old_rs[c].id == self.replicas@[c].id);
                assert(old(self).replicas@[a].id != old(self).replicas@[c].id);
            }
        }
        Some(task)
    }

    /// The first step of `WAIT`: how many replicas count as acknowledged
    /// already (nothing was sent to them), and the identifiers of the others,
    /// which are to be asked for an acknowledgement.
    pub fn wait_plan(&self) -> (r: (u64, Vec<u64>))
        requires
            self.wf(),
        ensures
            r.0 + r.1@.len() == self.len(),
            r.0 == self.count_unsent(self.len() as int),
            r.1@ == self.sent_ids(self.len() as int),
    {
        let mut done: u64 = 0;
        let mut pending: Vec<u64> = Vec::new();
        let mut i: usize = 0;
        while i < self.replicas.len()
            invariant
                i <= self.replicas@.len(),
                done + pending@.len() == i,
                done == self.count_unsent(i as int),
                pending@ == self.sent_ids(i as int),
            decreases self.replicas@.len() - i,
        {
            if self.replicas[i].offset == 0 {
                done += 1;
            } else {
                pending.push(self.replicas[i].id);
            }
            i += 1;
        }
        (done, pending)
    }

    /// The identifiers, in order, of those of the first `n` replicas that
    /// have been sent something.
    pub open spec fn sent_ids(&self, n: int) -> Seq<u64>
        decreases n,
    {
        if n <= 0 {
            Seq::empty()
        } else if self.offset_at(n - 1) == 0 {
            self.sent_ids(n - 1)
        } else {
            self.sent_ids(n - 1).push(self.id_at(n - 1))
        }
    }

    /// How many of the first `n` replicas have been sent nothing.
    pub open spec fn count_unsent(&self, n: int) -> nat
        decreases n,
    {
        if n <= 0 {
            0
        } else {
            self.count_unsent(n - 1) + if self.offset_at(n - 1) == 0 {
                1nat
            } else {
                0nat
            }
        }
    }
}

/// A replica's offset counts the bytes sent to it (up to the largest 64-bit
/// value).
pub proof fn lemma_offset_is_sent_length(set: &ReplicaSet, i: int)
    requires
        set.wf(),
        0 <= i < set.len(),
    ensures
        set.offset_at(i) == clamp_u64(set.sent_at(i).len()),
{
}

/// Every replica has been sent a prefix of the writes accepted since it
/// attached, in the order they were accepted.
pub proof fn lemma_replica_stream_is_prefix(set: &ReplicaSet, i: int)
    requires
        set.wf(),
        0 <= i < set.len(),
    ensures
        set.joined_at(i) <= set.accepted().len(),
        set.sent_at(i).is_prefix_of(concat(set.accepted().subrange(set.joined_at(i) as int, set.accepted().len() as int))),
{
    reveal(ReplicaSet::wf);
    let r = set.replicas@[i];
    let a = set.accepted@;
    let j = r.joined@ as int;
    let d = set.dispatched@ as int;
    assert(a.subrange(j, a.len() as int) =~= a.subrange(j, d) + a.subrange(d, a.len() as int));
    lemma_concat_append(a.subrange(j, d), a.subrange(d, a.len() as int));
    let whole = concat(a.subrange(j, a.len() as int));
    assert(r.sent@ =~= whole.subrange(0, r.sent@.len() as int));
}

/// The end of a `WAIT` probe: `Some(count)` once it is over.
pub open spec fn wait_decision(acked: u64, numreplicas: u64, elapsed_ms: u64, timeout_ms: u64) -> Option<u64> {
    if acked >= numreplicas {
        Some(numreplicas)
    } else if timeout_ms != 0 && elapsed_ms >= timeout_ms {
        Some(acked)
    } else {
        None
    }
}

/// Whether a probe that has counted `acked` acknowledgements after
/// `elapsed_ms` is over, and if so the count to answer: at least
/// `numreplicas` acknowledgements end it, as does the timeout unless it is 0;
/// the count is never more than `numreplicas`.
pub fn wait_outcome(acked: u64, numreplicas: u64, elapsed_ms: u64, timeout_ms: u64) -> (r: Option<u64>)
    ensures
        r is Some <==> (acked >= numreplicas || (timeout_ms != 0 && elapsed_ms >= timeout_ms)),
        r matches Some(n) ==> n <= numreplicas && n == if acked >= numreplicas { numreplicas } else { acked },
        r == wait_decision(acked, numreplicas, elapsed_ms, timeout_ms),
{
    if acked >= numreplicas {
        Some(numreplicas)
    } else if timeout_ms != 0 && elapsed_ms >= timeout_ms {
        Some(acked)
    } else {
        None
    }
}

/// True when `b` holds `id`.
fn contains_id(b: &Vec<u64>, id: u64) -> (r: bool)
    ensures
        r == b@.contains(id),
{
    let mut i: usize = 0;
    while i < b.len()
        invariant
            i <= b@.len(),
            forall|j: int| 0 <= j < i ==> b@[j] != id,
        decreases b@.len() - i,
    {
        if b[i] == id {
            assert(b@[i as int] == id);
            return true;
        }
        i += 1;
    }
    false
}

/// True when bytes read from a replica start an acknowledgement.
pub open spec fn is_ack_bytes(b: Seq<u8>) -> bool {
    b.len() >= ack_prefix().len() && b.subrange(0, ack_prefix().len() as int) == ack_prefix()
}

/// The acknowledgements counted during one `WAIT` probe: each replica asked
/// counts once, on its first answer that is an acknowledgement.
pub struct WaitTally {
    acked: u64,
    pending: Vec<u64>,
    answered: Vec<u64>,
}

impl WaitTally {
    pub closed spec fn acked_count(&self) -> u64 {
        self.acked
    }

    /// The replicas asked for an acknowledgement.
    pub closed spec fn pending_ids(&self) -> Seq<u64> {
        self.pending@
    }

    /// The replicas whose acknowledgement has been counted, in order.
    pub closed spec fn answered_ids(&self) -> Seq<u64> {
        self.answered@
    }

    /// A tally that starts at `acked` and waits on the replicas `pending`.
    pub fn new(acked: u64, pending: Vec<u64>) -> (r: Self)
        ensures
            r.acked_count() == acked,
            r.pending_ids() == pending@,
            r.answered_ids() == Seq::<u64>::empty(),
    {
        WaitTally { acked, pending, answered: Vec::new() }
    }

    pub fn acked(&self) -> (r: u64)
        ensures
            r == self.acked_count(),
    {
        self.acked
    }

    /// True while `id` was asked and has not answered.
    pub fn awaits(&self, id: u64) -> (r: bool)
        ensures
            r == (self.pending_ids().contains(id) && !self.answered_ids().contains(id)),
    {
        contains_id(&self.pending, id) && !contains_id(&self.answered, id)
    }

    /// Takes bytes read from replica `id`; true when they count as its
    /// acknowledgement.
    pub fn on_reply(&mut self, id: u64, reply: &[u8]) -> (counted: bool)
        ensures
            counted == (old(self).pending_ids().contains(id) && !old(self).answered_ids().contains(
                id,
            ) && is_ack_bytes(reply@)),
            final(self).pending_ids() == old(self).pending_ids(),
            counted ==> final(self).answered_ids() == old(self).answered_ids().push(id)
                && final(self).acked_count() == clamp_u64((old(self).acked_count() + 1) as nat),
            !counted ==> final(self).answered_ids() == old(self).answered_ids()
                && final(self).acked_count() == old(self).acked_count(),
    {
        if self.awaits(id) && is_ack_reply(reply) {
            self.acked = self.acked.saturating_add(1);
            self.answered.push(id);
            true
        } else {
            false
        }
    }

    /// Whether the probe is over after `elapsed_ms`, and the count to answer.
    pub fn outcome(&self, numreplicas: u64, elapsed_ms: u64, timeout_ms: u64) -> (r: Option<u64>)
        ensures
            r == wait_decision(self.acked_count(), numreplicas, elapsed_ms, timeout_ms),
    {
        wait_outcome(self.acked, numreplicas, elapsed_ms, timeout_ms)
    }
}

/// The first bytes of a replica's `REPLCONF ACK <offset>` answer.
pub open spec fn ack_prefix() -> Seq<u8> {
    seq![42u8, 51, 13, 10, 36, 56, 13, 10, 82, 69, 80, 76, 67, 79, 78, 70, 13, 10, 36, 51, 13, 10, 65, 67, 75, 13, 10]
}

/// True when bytes read from a replica start an acknowledgement.
pub fn is_ack_reply(buf: &[u8]) -> (r: bool)
    ensures
        r == is_ack_bytes(buf@),
{
    // *3\r\n$8\r\nREPLCONF\r\n$3\r\nACK\r\n
    let prefix: [u8; 27] = [42u8, 51, 13, 10, 36, 56, 13, 10, 82, 69, 80, 76, 67, 79, 78, 70, 13, 10, 36, 51, 13, 10, 65, 67, 75, 13, 10];
    let p: &[u8] = &prefix;
    assert(p@ =~= ack_prefix());
    if buf.len() < 27 {
        return false;
    }
    let mut i: usize = 0;
    while i < 27
        invariant
            i <= 27,
            buf@.len() >= 27,
            p@ == ack_prefix(),
            forall|j: int| 0 <= j < i ==> buf@[j] == p@[j],
        decreases 27 - i,
    {
        if buf[i] != p[i] {
            return false;
        }
        i += 1;
    }
    assert(buf@.subrange(0, 27) =~= ack_prefix());
    true
}

/// The request a primary sends to ask a replica for its offset:
/// `REPLCONF GETACK *`.
pub fn getack_request() -> (r: Vec<u8>)
    ensures
        r@ == seq![42u8, 51, 13, 10, 36, 56, 13, 10, 82, 69, 80, 76, 67, 79, 78, 70, 13, 10, 36, 54, 13, 10, 71, 69, 84, 65, 67, 75, 13, 10, 36, 49, 13, 10, 42, 13, 10],
{
    vec![42u8, 51, 13, 10, 36, 56, 13, 10, 82, 69, 80, 76, 67, 79, 78, 70, 13, 10, 36, 54, 13, 10, 71, 69, 84, 65, 67, 75, 13, 10, 36, 49, 13, 10, 42, 13, 10]
}

} // verus!
