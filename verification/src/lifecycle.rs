//! The lifecycle job queue and the reaper.
//!
//! Connections emit lifecycle jobs; a single worker consumes them and keeps
//! the set of sessions queued for deletion. Deletion is deferred: a session
//! is first marked, and only removed by a later sweep. This grace window
//! lets a session that empties and is promptly rejoined survive, because the
//! rejoin emits a keep-alive that unmarks it before the next sweep.

use vstd::prelude::*;

use crate::registry::{Registry, SessionView};
use crate::seqs::{lemma_empty_to_set, lemma_push_to_set, lemma_remove_to_set};

verus! {

/// The kinds of lifecycle work.
#[derive(Clone, Copy, Debug, PartialEq, Eq, Structural)]
pub enum TaskKind {
    /// Cancel a pending deletion.
    KeepAlive,
    /// Mark a session as a deletion candidate.
    QueueDelete,
    /// Delete what has been marked.
    Delete,
}

/// One lifecycle job, as emitted by connections and the periodic timer.
#[derive(Clone, Copy, Debug, PartialEq, Eq, Structural)]
pub enum Job {
    /// Cancel any pending deletion of this session; a no-op when none is
    /// pending.
    KeepAlive(u128),
    /// Mark this session as a deletion candidate; marking twice is the same
    /// as marking once.
    QueueDelete(u128),
    /// Sweep: delete every currently marked session.
    Drain,
}

impl Job {
    /// The kind of work this job asks for.
    pub fn kind(&self) -> (k: TaskKind)
        ensures
            k == match *self {
                Job::KeepAlive(_) => TaskKind::KeepAlive,
                Job::QueueDelete(_) => TaskKind::QueueDelete,
                Job::Drain => TaskKind::Delete,
            },
    {
        match self {
            Job::KeepAlive(_) => TaskKind::KeepAlive,
            Job::QueueDelete(_) => TaskKind::QueueDelete,
            Job::Drain => TaskKind::Delete,
        }
    }
}

/// The queued-for-deletion set after one job: keep-alive removes the
/// session if present, queue-delete inserts it, a sweep empties the set.
pub open spec fn queued_after(q: Set<u128>, job: Job) -> Set<u128> {
    match job {
        Job::KeepAlive(id) => q.remove(id),
        Job::QueueDelete(id) => q.insert(id),
        Job::Drain => Set::empty(),
    }
}

/// The registry after one job: only a sweep touches it, deleting exactly
/// the queued sessions.
pub open spec fn registry_after(m: Map<u128, SessionView>, q: Set<u128>, job: Job) -> Map<
    u128,
    SessionView,
> {
    match job {
        Job::Drain => m.remove_keys(q),
        _ => m,
    }
}

/// The single worker consuming lifecycle jobs: it owns the set of sessions
/// queued for deletion, distinct from the registry itself.
pub struct JobRunner {
    queued: Vec<u128>,
}

impl View for JobRunner {
    type V = Set<u128>;

    /// The set of sessions currently queued for deletion.
    closed spec fn view(&self) -> Set<u128> {
        self.queued@.to_set()
    }
}

impl JobRunner {
    /// No session is queued twice.
    pub closed spec fn wf(&self) -> bool {
        self.queued@.no_duplicates()
    }

    /// Creates a worker with nothing queued.
    pub fn new() -> (r: JobRunner)
        ensures
            r.wf(),
            r@ == Set::<u128>::empty(),
    {
        let r = JobRunner { queued: Vec::new() };
        proof {
            assert(r.queued@ =~= Seq::<u128>::empty());
            lemma_empty_to_set::<u128>();
        }
        r
    }

    /// Whether `id` is queued for deletion.
    pub fn is_queued(&self, id: u128) -> (r: bool)
        ensures
            r == self@.contains(id),
    {
        let mut i: usize = 0;
        while i < self.queued.len()
            invariant
                i <= self.queued.len(),
                forall|j: int| 0 <= j < i ==> self.queued@[j] != id,
            decreases self.queued.len() - i,
        {
            if self.queued[i] == id {
                proof {
                    assert(self.queued@.contains(id));
                }
                return true;
            }
            i += 1;
        }
        proof {
            if self@.contains(id) {
                let j = choose|j: int| 0 <= j < self.queued@.len() && self.queued@[j] == id;
                assert(false);
            }
        }
        false
    }

    /// Runs one lifecycle job against the registry: keep-alive and
    /// queue-delete only touch the queued set; a sweep deletes every queued
    /// session from the registry and empties the set.
    pub fn run(&mut self, reg: &mut Registry, job: Job)
        requires
            old(self).wf(),
            old(reg).wf(),
        ensures
            final(self).wf(),
            final(reg).wf(),
            final(self)@ == queued_after(old(self)@, job),
            final(reg)@ == registry_after(old(reg)@, old(self)@, job),
    {
        match job {
            Job::KeepAlive(id) => {
                let ghost before = self.queued@;
                let mut i: usize = 0;
                while i < self.queued.len()
                    invariant
                        i <= self.queued.len(),
                        self.queued@ == before,
                        before == old(self).queued@,
                        before.no_duplicates(),
                        reg.wf(),
                        reg@ == old(reg)@,
                        job == Job::KeepAlive(id),
                        forall|j: int| 0 <= j < i ==> before[j] != id,
                    decreases self.queued.len() - i,
                {
                    if self.queued[i] == id {
                        self.queued.remove(i);
                        proof {
                            lemma_remove_to_set(before, i as int);
                        }
                        return ;
                    }
                    i += 1;
                }
                proof {
                    if before.to_set().contains(id) {
                        let j = choose|j: int| 0 <= j < before.len() && before[j] == id;
                        assert(false);
                    }
                    assert(before.to_set().remove(id) =~= before.to_set());
                }
            },
            Job::QueueDelete(id) => {
                let ghost before = self.queued@;
                if !self.is_queued(id) {
                    self.queued.push(id);
                    proof {
                        lemma_push_to_set(before, id);
                        assert forall|a: int, b: int|
                            0 <= a < b < self.queued@.len() implies self.queued@[a]
                            != self.queued@[b] by {
                            if b == before.len() {
                                assert(!before.to_set().contains(id));
                                assert(self.queued@[a] == before[a]);
                                assert(before.to_set().contains(before[a]));
                            }
                        }
                    }
                } else {
                    proof {
                        assert(before.to_set().insert(id) =~= before.to_set());
                    }
                }
            },
            Job::Drain => {
                let ghost q0 = self.queued@;
                let ghost m0 = reg@;
                proof {
                    assert(q0.subrange(0, 0).to_set() =~= Set::<u128>::empty());
                    assert(m0.remove_keys(q0.subrange(0, 0).to_set()) =~= m0);
                }
                let mut i: usize = 0;
                while i < self.queued.len()
                    invariant
                        i <= self.queued.len(),
                        self.queued@ == q0,
                        q0 == old(self).queued@,
                        m0 == old(reg)@,
                        reg.wf(),
                        reg@ == m0.remove_keys(q0.subrange(0, i as int).to_set()),
                    decreases self.queued.len() - i,
                {
                    let id = self.queued[i];
                    reg.remove(id);
                    proof {
                        assert(q0.subrange(0, i + 1) =~= q0.subrange(0, i as int).push(
                            q0[i as int],
                        ));
                        lemma_push_to_set(q0.subrange(0, i as int), q0[i as int]);
                        assert(m0.remove_keys(q0.subrange(0, i as int).to_set()).remove(
                            q0[i as int],
                        ) =~= m0.remove_keys(q0.subrange(0, i + 1).to_set()));
                    }
                    i += 1;
                }
                proof {
                    assert(q0.subrange(0, q0.len() as int) =~= q0);
                }
                self.queued.clear();
                proof {
                    assert(self.queued@ =~= Seq::<u128>::empty());
                    lemma_empty_to_set::<u128>();
                }
            },
        }
    }
}

/// Queueing a session for deletion twice has the same effect as queueing it
/// once: the queued set and the registry end the same either way.
pub proof fn lemma_queue_delete_idempotent(q: Set<u128>, m: Map<u128, SessionView>, id: u128)
    ensures
        queued_after(queued_after(q, Job::QueueDelete(id)), Job::QueueDelete(id)) == queued_after(
            q,
            Job::QueueDelete(id),
        ),
        registry_after(
            registry_after(m, q, Job::QueueDelete(id)),
            queued_after(q, Job::QueueDelete(id)),
            Job::QueueDelete(id),
        ) == registry_after(m, q, Job::QueueDelete(id)),
{
    assert(q.insert(id).insert(id) =~= q.insert(id));
}

/// A keep-alive for a session that is not queued for deletion changes
/// nothing.
pub proof fn lemma_keep_alive_noop(q: Set<u128>, m: Map<u128, SessionView>, id: u128)
    requires
        !q.contains(id),
    ensures
        queued_after(q, Job::KeepAlive(id)) == q,
        registry_after(m, q, Job::KeepAlive(id)) == m,
{
    assert(q.remove(id) =~= q);
}

/// A session queued for deletion and then kept alive before the next sweep
/// is never removed by that sweep.
pub proof fn lemma_keep_alive_rescues(m: Map<u128, SessionView>, q: Set<u128>, id: u128)
    requires
        m.contains_key(id),
    ensures
        ({
            let q1 = queued_after(q, Job::QueueDelete(id));
            let q2 = queued_after(q1, Job::KeepAlive(id));
            registry_after(m, q2, Job::Drain).contains_key(id)
        }),
{
    let q2 = queued_after(queued_after(q, Job::QueueDelete(id)), Job::KeepAlive(id));
    assert(!q2.contains(id));
}

/// A session still queued at sweep time is removed: looking it up afterward
/// finds nothing.
pub proof fn lemma_drain_removes(m: Map<u128, SessionView>, q: Set<u128>, id: u128)
    requires
        q.contains(id),
    ensures
        !registry_after(m, q, Job::Drain).contains_key(id),
{
}

} // verus!
