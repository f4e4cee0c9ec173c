//! The worker pool's queue discipline, as a verified state machine over job
//! numbers.  Submission hands out consecutive numbers and enqueues them;
//! workers claim the oldest queued job and report it complete; closing stops
//! new submissions while already-queued jobs still run.
//!
//! The threads themselves live outside the library; they drive this model,
//! which pins down what the pool owes them: jobs leave the queue in
//! submission order, and every submitted job is claimed and completed
//! exactly once — when the queue is drained and no claim is outstanding,
//! the completions are exactly the submissions.

use vstd::multiset::Multiset;
use vstd::prelude::*;
use vstd::seq_lib::group_seq_properties;
use vstd::seq_lib::lemma_multiset_commutative;

verus! {

/// The job numbers `0` to `n - 1`, in order.
pub open spec fn spec_ids(n: int) -> Seq<u64> {
    Seq::new(n as nat, |i: int| i as u64)
}

/// The queue and accounting of a fixed worker pool.
///
/// `pending` holds the queued job numbers oldest-first; `claimed_ids` the
/// numbers claimed by a worker and not yet complete; `completed_ids` the
/// numbers completed, in completion order.
pub struct PoolQueue {
    /// How many workers serve this queue; fixed and positive.
    pub workers: usize,
    /// The number the next submission gets.
    pub next_id: u64,
    /// The queued job numbers, oldest first.
    pub pending: Vec<u64>,
    /// Whether the queue still takes submissions.
    pub closed: bool,
    /// The claimed, still-running job numbers.
    pub claimed_ids: Ghost<Seq<u64>>,
    /// The completed job numbers, in completion order.
    pub completed_ids: Ghost<Seq<u64>>,
}

impl PoolQueue {
    /// Every submitted job number stands in exactly one of the queue, the
    /// claimed jobs, or the completions.
    pub open spec fn wf(&self) -> bool {
        (self.pending@ + self.claimed_ids@ + self.completed_ids@).to_multiset() == spec_ids(
            self.next_id as int,
        ).to_multiset() && self.workers >= 1
    }

    /// A pool queue for `workers` workers, with nothing submitted.
    pub fn new(workers: usize) -> (r: PoolQueue)
        requires
            workers >= 1,
        ensures
            r.wf(),
            r.workers == workers,
            r.next_id == 0,
            r.pending@ == Seq::<u64>::empty(),
            r.claimed_ids@ == Seq::<u64>::empty(),
            r.completed_ids@ == Seq::<u64>::empty(),
            !r.closed,
    {
        let r = PoolQueue {
            workers,
            next_id: 0,
            pending: Vec::new(),
            closed: false,
            claimed_ids: Ghost(Seq::empty()),
            completed_ids: Ghost(Seq::empty()),
        };
        proof {
            assert(r.pending@ + r.claimed_ids@ + r.completed_ids@ =~= spec_ids(0));
        }
        r
    }

    /// Submits a job: it gets the next number and joins the back of the
    /// queue at once — submission never blocks on the workers.
    pub fn submit(&mut self) -> (id: u64)
        requires
            old(self).wf(),
            !old(self).closed,
            old(self).next_id < u64::MAX,
        ensures
            final(self).wf(),
            id == old(self).next_id,
            final(self).next_id == old(self).next_id + 1,
            final(self).pending@ == old(self).pending@.push(id),
            final(self).claimed_ids@ == old(self).claimed_ids@,
            final(self).completed_ids@ == old(self).completed_ids@,
            final(self).closed == old(self).closed,
            final(self).workers == old(self).workers,
    {
        let id = self.next_id;
        self.pending.push(id);
        self.next_id = self.next_id + 1;
        proof {
            broadcast use vstd::seq_lib::group_to_multiset_ensures;

            let a = old(self).pending@;
            let b = old(self).claimed_ids@;
            let c = old(self).completed_ids@;
            lemma_multiset_commutative(a.push(id) + b, c);
            lemma_multiset_commutative(a.push(id), b);
            lemma_multiset_commutative(a + b, c);
            lemma_multiset_commutative(a, b);
            assert((a.push(id) + b + c).to_multiset() =~= (a + b + c).to_multiset().insert(id));
            assert(spec_ids(self.next_id as int) =~= spec_ids(old(self).next_id as int).push(id));
            assert((a.push(id) + b + c).to_multiset() =~= spec_ids(
                self.next_id as int,
            ).to_multiset());
        }
        id
    }

    /// Claims the oldest queued job for a worker, or nothing when the queue
    /// is empty: the queue drains first-in, first-out.
    pub fn claim(&mut self) -> (r: Option<u64>)
        requires
            old(self).wf(),
        ensures
            final(self).wf(),
            final(self).next_id == old(self).next_id,
            final(self).closed == old(self).closed,
            final(self).workers == old(self).workers,
            final(self).completed_ids@ == old(self).completed_ids@,
            match r {
                None => {
                    &&& old(self).pending@.len() == 0
                    &&& final(self).pending@ == old(self).pending@
                    &&& final(self).claimed_ids@ == old(self).claimed_ids@
                },
                Some(id) => {
                    &&& old(self).pending@.len() > 0
                    &&& id == old(self).pending@[0]
                    &&& final(self).pending@ == old(self).pending@.drop_first()
                    &&& final(self).claimed_ids@ == old(self).claimed_ids@.push(id)
                },
            },
    {
        if self.pending.len() == 0 {
            return None;
        }
        let id = self.pending.remove(0);
        proof {
            self.claimed_ids@ = self.claimed_ids@.push(id);
            broadcast use vstd::seq_lib::group_to_multiset_ensures;

            let a = old(self).pending@;
            let b = old(self).claimed_ids@;
            let c = old(self).completed_ids@;
            assert(self.pending@ =~= a.drop_first());
            assert(a =~= seq![id] + a.drop_first());
            lemma_multiset_commutative(a.drop_first() + b.push(id), c);
            lemma_multiset_commutative(a.drop_first(), b.push(id));
            lemma_multiset_commutative(a + b, c);
            lemma_multiset_commutative(a, b);
            assert(a.to_multiset() =~= a.drop_first().to_multiset().insert(id)) by {
                lemma_multiset_commutative(seq![id], a.drop_first());
                let e = Seq::<u64>::empty();
                assert(e.to_multiset() =~= Multiset::<u64>::empty());
                assert(seq![id] =~= e.push(id));
                assert(seq![id].to_multiset() =~= Multiset::<u64>::empty().insert(id));
            }
            assert((a.drop_first() + b.push(id) + c).to_multiset() =~= (a + b + c).to_multiset());
        }
        Some(id)
    }

    /// Reports a claimed job complete: it leaves the claimed jobs and joins
    /// the completions, exactly once.
    pub fn complete(&mut self, id: u64)
        requires
            old(self).wf(),
            old(self).claimed_ids@.contains(id),
        ensures
            final(self).wf(),
            final(self).next_id == old(self).next_id,
            final(self).closed == old(self).closed,
            final(self).workers == old(self).workers,
            final(self).pending@ == old(self).pending@,
            final(self).completed_ids@ == old(self).completed_ids@.push(id),
            final(self).claimed_ids@.to_multiset() == old(self).claimed_ids@.to_multiset().remove(
                id,
            ),
            final(self).claimed_ids@.len() + 1 == old(self).claimed_ids@.len(),
    {
        proof {
            broadcast use vstd::seq_lib::group_to_multiset_ensures;
            broadcast use group_seq_properties;

            let a = self.pending@;
            let b = old(self).claimed_ids@;
            let c = old(self).completed_ids@;
            let k = choose|k: int| 0 <= k < b.len() && b[k] == id;
            self.claimed_ids@ = b.remove(k);
            self.completed_ids@ = c.push(id);
            b.to_multiset_ensures();
            assert(b.remove(k).to_multiset() =~= b.to_multiset().remove(id));
            lemma_multiset_commutative(a + b, c);
            lemma_multiset_commutative(a, b);
            lemma_multiset_commutative(a + b.remove(k), c.push(id));
            lemma_multiset_commutative(a, b.remove(k));
            assert(b.to_multiset().count(id) > 0);
            assert((a + b.remove(k) + c.push(id)).to_multiset() =~= (a + b + c).to_multiset());
        }
    }

    /// Closes the queue to new submissions; already-queued jobs still run
    /// to completion.
    pub fn close(&mut self)
        requires
            old(self).wf(),
        ensures
            final(self).wf(),
            final(self).closed,
            final(self).next_id == old(self).next_id,
            final(self).pending@ == old(self).pending@,
            final(self).claimed_ids@ == old(self).claimed_ids@,
            final(self).completed_ids@ == old(self).completed_ids@,
            final(self).workers == old(self).workers,
    {
        self.closed = true;
    }

    /// How many jobs have been submitted.
    pub fn submitted_count(&self) -> (r: u64)
        ensures
            r == self.next_id,
    {
        self.next_id
    }
}

/// Every submitted job runs exactly once: once the queue is drained and no
/// claim is outstanding, the completions are exactly the submitted job
/// numbers — as many completions as submissions, and each submitted number
/// completed exactly once.
pub proof fn lemma_pool_exactly_once(p: PoolQueue)
    requires
        p.wf(),
        p.pending@.len() == 0,
        p.claimed_ids@.len() == 0,
    ensures
        p.completed_ids@.to_multiset() == spec_ids(p.next_id as int).to_multiset(),
        p.completed_ids@.len() == p.next_id,
        forall|id: u64| id < p.next_id ==> p.completed_ids@.to_multiset().count(id) == 1,
{
    broadcast use vstd::seq_lib::group_to_multiset_ensures;

    let a = p.pending@;
    let b = p.claimed_ids@;
    let c = p.completed_ids@;
    assert(a + b + c =~= c);
    assert(c.to_multiset() == spec_ids(p.next_id as int).to_multiset());
    let ids = spec_ids(p.next_id as int);
    ids.to_multiset_ensures();
    assert(c.len() == c.to_multiset().len());
    assert(ids.len() == ids.to_multiset().len());
    assert(ids.no_duplicates());
    ids.lemma_multiset_has_no_duplicates();
    assert forall|id: u64| id < p.next_id implies c.to_multiset().count(id) == 1 by {
        assert(ids[id as int] == id);
        assert(ids.contains(id));
        assert(ids.to_multiset().contains(id));
    }
}

} // verus!
