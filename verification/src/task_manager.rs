use vstd::prelude::*;

use crate::queue::{QueueView, SendError, WorkQueue};
use crate::routing::dispatch_target;
use crate::routing::lemma_routed_to_index;
use crate::routing::lemma_routed_to_order;
use crate::routing::routed_to;
use vstd::multiset::Multiset;

verus! {

/// The shared dispatch state of the pool, mathematically: the value of the
/// dispatch counter, the state of every worker's channel (one per worker,
/// in worker order), and the fixed worker count.
#[verifier::ext_equal]
pub ghost struct PoolView<T> {
    pub next: nat,
    pub queues: Seq<QueueView<T>>,
    pub parallel: nat,
}

impl<T> PoolView<T> {
    /// The pool's structural invariant: a positive worker count, one channel
    /// per worker, and — while the pool exists — a live producing end for
    /// every channel, since the pool itself holds them.
    pub open spec fn wf(self) -> bool {
        &&& self.parallel > 0
        &&& self.queues.len() == self.parallel
        &&& forall|w: int| 0 <= w < self.queues.len() ==> self.queues[w].senders_alive
    }

    /// The worker the next submission is routed to.
    pub open spec fn target(self) -> int {
        (self.next % self.parallel) as int
    }

    /// Whether the next submission will be accepted: its target worker's
    /// consuming end must still exist.
    pub open spec fn send_ok(self) -> bool {
        self.queues[self.target()].receiver_alive
    }

    /// No worker has terminated.
    pub open spec fn all_receivers_alive(self) -> bool {
        forall|w: int| 0 <= w < self.queues.len() ==> self.queues[w].receiver_alive
    }

    /// A freshly constructed pool: counter at zero, every channel empty with
    /// both ends alive.
    pub open spec fn init(parallel: nat) -> PoolView<T> {
        PoolView {
            next: 0,
            queues: Seq::new(
                parallel,
                |w: int| QueueView {
                    pending: Seq::empty(),
                    receiver_alive: true,
                    senders_alive: true,
                },
            ),
            parallel,
        }
    }
}

/// What one submission does to the pool state: the counter advances
/// by one whatever happens; the task is appended to the target worker's
/// queue when that worker still runs, and goes nowhere otherwise.
pub open spec fn work_spec<T>(s: PoolView<T>, t: T) -> PoolView<T> {
    let w = s.target();
    if s.queues[w].receiver_alive {
        PoolView {
            next: s.next + 1,
            queues: s.queues.update(
                w,
                QueueView {
                    pending: s.queues[w].pending.push(t),
                    receiver_alive: s.queues[w].receiver_alive,
                    senders_alive: s.queues[w].senders_alive,
                },
            ),
            parallel: s.parallel,
        }
    } else {
        PoolView { next: s.next + 1, queues: s.queues, parallel: s.parallel }
    }
}

/// The pool state after submitting `ts` in order, front first.
pub open spec fn submit_all<T>(s: PoolView<T>, ts: Seq<T>) -> PoolView<T>
    decreases ts.len(),
{
    if ts.len() == 0 {
        s
    } else {
        submit_all(work_spec(s, ts[0]), ts.drop_first())
    }
}

/// The dispatch core of the pool: the round-robin counter and one work
/// channel per worker. Real threads and their shared-ownership handle live
/// with the embedding code; every handle routes through one value of this
/// type, so a submission's effect is a function of this state alone.
pub struct TaskManager<T> {
    next: usize,
    task_assignment: Vec<WorkQueue<T>>,
    parallel: usize,
}

impl<T> View for TaskManager<T> {
    type V = PoolView<T>;

    closed spec fn view(&self) -> PoolView<T> {
        PoolView {
            next: self.next as nat,
            queues: self.task_assignment@.map_values(|q: WorkQueue<T>| q@),
            parallel: self.parallel as nat,
        }
    }
}

impl<T> TaskManager<T> {
    pub open spec fn wf(&self) -> bool {
        self@.wf()
    }

    /// Build the pool's dispatch state for `parallel` workers: counter at
    /// zero and one fresh channel per worker. The embedding code determines
    /// `parallel` from the host (a positive count, or construction fails
    /// before reaching here) and spawns one worker thread per channel.
    pub fn new(parallel: usize) -> (m: Self)
        requires
            parallel >= 1,
        ensures
            m.wf(),
            m@ == PoolView::<T>::init(parallel as nat),
    {
        let mut task_assignment: Vec<WorkQueue<T>> = Vec::new();
        let mut i: usize = 0;
        while i < parallel
            invariant
                i <= parallel,
                task_assignment@.len() == i,
                forall|w: int| 0 <= w < i ==> task_assignment@[w]@ == (QueueView::<T> {
                    pending: Seq::empty(),
                    receiver_alive: true,
                    senders_alive: true,
                }),
            decreases parallel - i,
        {
            task_assignment.push(WorkQueue::new());
            i = i + 1;
        }
        let m = TaskManager { next: 0, task_assignment, parallel };
        proof {
            assert(m@.queues =~= PoolView::<T>::init(parallel as nat).queues);
            assert(m@ =~= PoolView::<T>::init(parallel as nat));
        }
        m
    }

    /// Submit one task: read the counter, advance it, route the task
    /// to worker `counter mod parallel`. The submission succeeds exactly
    /// when that worker still runs; otherwise the task comes back unchanged
    /// inside the error, and the counter has advanced all the same. The
    /// counter is monotone and never reused, so it must still have room to
    /// advance — a machine limit, not a policy.
    pub fn work(&mut self, t: T) -> (r: Result<(), SendError<T>>)
        requires
            old(self).wf(),
            old(self)@.next < usize::MAX,
        ensures
            final(self).wf(),
            final(self)@ == work_spec(old(self)@, t),
            r is Ok <==> old(self)@.send_ok(),
            !old(self)@.send_ok() ==> r == (Err::<(), SendError<T>>(SendError(t))),
    {
        let next: usize = self.next;
        self.next = next + 1;
        let w: usize = dispatch_target(next, self.parallel);
        proof {
            assert(self.task_assignment@ == old(self).task_assignment@);
            assert(self.task_assignment@.len() == old(self)@.parallel);
            assert(self.task_assignment@[w as int]@ == old(self)@.queues[w as int]);
            assert(old(self)@.queues[w as int].senders_alive);
        }
        let target = &mut self.task_assignment[w];
        let r = target.send(t);
        proof {
            assert(self@.queues =~= work_spec(old(self)@, t).queues);
            assert(self@ =~= work_spec(old(self)@, t));
        }
        r
    }

    /// The worker loop: receive and execute until the channel reports
    /// closure, then terminate. In this state model, executing a task means
    /// recording it in the returned trace, so the trace says exactly which
    /// tasks ran and in what order: every task that was queued, each exactly
    /// once, front first, and none after closure. The loop provably
    /// terminates once no producing end is left.
    pub fn thread_worker(task_list: WorkQueue<T>) -> (executed: Vec<T>)
        requires
            task_list@.receiver_alive,
            !task_list@.senders_alive,
        ensures
            executed@ == task_list@.pending,
    {
        let mut channel = task_list;
        let mut executed: Vec<T> = Vec::new();
        loop
            invariant
                channel@.receiver_alive,
                !channel@.senders_alive,
                executed@ + channel@.pending == task_list@.pending,
            decreases channel@.pending.len(),
        {
            match channel.recv() {
                Some(f) => {
                    executed.push(f);
                    proof {
                        assert(executed@ + channel@.pending =~= task_list@.pending);
                    }
                },
                None => {
                    proof {
                        assert(executed@ + channel@.pending =~= executed@);
                    }
                    return executed;
                },
            }
        }
    }

    /// Record that the worker at index `w` was brought down by an
    /// unrecovered failure inside a task: its consuming end
    /// disappears, anything still queued to it is lost, and nothing else in
    /// the pool learns of it — later submissions routed to `w` simply fail.
    pub fn worker_failed(&mut self, w: usize)
        requires
            old(self).wf(),
            w < old(self)@.parallel,
            old(self)@.queues[w as int].receiver_alive,
        ensures
            final(self).wf(),
            final(self)@.next == old(self)@.next,
            final(self)@.parallel == old(self)@.parallel,
            final(self)@.queues == old(self)@.queues.update(
                w as int,
                (QueueView::<T> {
                    pending: Seq::empty(),
                    receiver_alive: false,
                    senders_alive: old(self)@.queues[w as int].senders_alive,
                }),
            ),
    {
        let target = &mut self.task_assignment[w];
        target.close_receiver();
        proof {
            assert(self@.queues =~= old(self)@.queues.update(
                w as int,
                QueueView::<T> {
                    pending: Seq::empty(),
                    receiver_alive: false,
                    senders_alive: old(self)@.queues[w as int].senders_alive,
                },
            ));
        }
    }

    /// Release the pool's producing ends: what happens when the last
    /// handle is dropped. Every channel keeps what is still queued but loses
    /// its producers, so each worker — see `thread_worker` — drains its
    /// queue and then observes closure and terminates. Consuming the pool
    /// state here is what makes further submissions impossible.
    pub fn shutdown(self) -> (queues: Vec<WorkQueue<T>>)
        requires
            self.wf(),
        ensures
            queues@.len() == self@.parallel,
            forall|w: int| 0 <= w < queues@.len() ==> queues@[w]@ == (QueueView::<T> {
                pending: self@.queues[w].pending,
                receiver_alive: self@.queues[w].receiver_alive,
                senders_alive: false,
            }),
    {
        let mut queues = self.task_assignment;
        let ghost orig = queues@;
        let mut i: usize = 0;
        while i < queues.len()
            invariant
                i <= queues@.len(),
                queues@.len() == orig.len(),
                forall|w: int| 0 <= w < i ==> queues@[w]@ == (QueueView::<T> {
                    pending: orig[w]@.pending,
                    receiver_alive: orig[w]@.receiver_alive,
                    senders_alive: false,
                }),
                forall|w: int| i <= w < orig.len() ==> queues@[w] == orig[w],
            decreases queues@.len() - i,
        {
            let target = &mut queues[i];
            target.close_senders();
            i = i + 1;
        }
        queues
    }
}

/// Everything queued anywhere in the pool, as a multiset: order and worker
/// boundaries forgotten, multiplicity kept.
pub open spec fn queues_multiset<T>(qs: Seq<QueueView<T>>) -> Multiset<T>
    decreases qs.len(),
{
    if qs.len() == 0 {
        Multiset::empty()
    } else {
        queues_multiset(qs.drop_last()).add(qs.last().pending.to_multiset())
    }
}

proof fn lemma_queues_multiset_update<T>(qs: Seq<QueueView<T>>, w: int, q2: QueueView<T>, t: T)
    requires
        0 <= w < qs.len(),
        q2.pending == qs[w].pending.push(t),
    ensures
        queues_multiset(qs.update(w, q2)) == queues_multiset(qs).insert(t),
    decreases qs.len(),
{
    broadcast use vstd::seq_lib::group_to_multiset_ensures;
    broadcast use vstd::multiset::group_multiset_axioms;

    let u = qs.update(w, q2);
    if w == qs.len() - 1 {
        assert(u.drop_last() =~= qs.drop_last());
        assert(u.last() == q2);
        assert(qs[w].pending.push(t).to_multiset() =~= qs.last().pending.to_multiset().insert(t));
        assert(queues_multiset(qs.drop_last()).add(qs.last().pending.to_multiset().insert(t))
            =~= queues_multiset(qs).insert(t));
    } else {
        assert(u.drop_last() =~= qs.drop_last().update(w, q2));
        assert(u.last() == qs.last());
        lemma_queues_multiset_update(qs.drop_last(), w, q2, t);
        assert(queues_multiset(qs.drop_last()).insert(t).add(qs.last().pending.to_multiset())
            =~= queues_multiset(qs).insert(t));
    }
}

proof fn lemma_submit_all_push<T>(s: PoolView<T>, ts: Seq<T>, t: T)
    ensures
        submit_all(s, ts.push(t)) == work_spec(submit_all(s, ts), t),
    decreases ts.len(),
{
    if ts.len() == 0 {
        assert(ts.push(t)[0] == t);
        assert(ts.push(t).drop_first() =~= Seq::<T>::empty());
        assert(submit_all(s, ts.push(t)) == submit_all(work_spec(s, t), ts.push(t).drop_first()));
        assert(submit_all(work_spec(s, t), ts.push(t).drop_first()) == work_spec(s, t));
        assert(submit_all(s, ts) == s);
    } else {
        assert(ts.push(t)[0] == ts[0]);
        assert(ts.push(t).drop_first() =~= ts.drop_first().push(t));
        assert(submit_all(s, ts.push(t)) == submit_all(
            work_spec(s, ts[0]),
            ts.drop_first().push(t),
        ));
        lemma_submit_all_push(work_spec(s, ts[0]), ts.drop_first(), t);
        assert(submit_all(s, ts) == submit_all(work_spec(s, ts[0]), ts.drop_first()));
    }
}

/// Law (clone equivalence): every pool handle, original or clone, routes
/// through the one shared state, so what a run of submissions does is a
/// function of that state and the submission order alone — never of which
/// handle made which call. In particular the counter advances by exactly
/// one per submission, accepted or rejected, so the `i`-th of the run
/// observes counter value `s.next + i`, and no two observe the same value.
pub proof fn lemma_counter_progression<T>(s: PoolView<T>, ts: Seq<T>)
    requires
        s.wf(),
    ensures
        submit_all(s, ts).wf(),
        submit_all(s, ts).next == s.next + ts.len(),
        submit_all(s, ts).parallel == s.parallel,
    decreases ts.len(),
{
    if ts.len() > 0 {
        let s1 = work_spec(s, ts[0]);
        assert(s1.wf()) by {
            assert forall|w: int| 0 <= w < s1.queues.len() implies s1.queues[w].senders_alive by {
                assert(s.queues[w].senders_alive);
            }
        }
        lemma_counter_progression(s1, ts.drop_first());
    }
}

/// Law (round-robin structure): with every worker running, a run of
/// submissions appends to each worker's queue exactly that worker's
/// round-robin share of the run, in submission order, and changes nothing
/// else about the pool.
pub proof fn lemma_dispatch_queues<T>(s: PoolView<T>, ts: Seq<T>)
    requires
        s.wf(),
        s.all_receivers_alive(),
    ensures
        submit_all(s, ts).wf(),
        submit_all(s, ts).all_receivers_alive(),
        submit_all(s, ts).next == s.next + ts.len(),
        submit_all(s, ts).parallel == s.parallel,
        submit_all(s, ts).queues.len() == s.queues.len(),
        forall|w: int|
            0 <= w < s.queues.len() ==> #[trigger] submit_all(s, ts).queues[w] == (QueueView::<
                T,
            > {
                pending: s.queues[w].pending + routed_to(ts, s.next, s.parallel, w as nat),
                receiver_alive: s.queues[w].receiver_alive,
                senders_alive: s.queues[w].senders_alive,
            }),
    decreases ts.len(),
{
    if ts.len() == 0 {
        assert forall|w: int| 0 <= w < s.queues.len() implies #[trigger] submit_all(s, ts).queues[w]
            == (QueueView::<T> {
            pending: s.queues[w].pending + routed_to(ts, s.next, s.parallel, w as nat),
            receiver_alive: s.queues[w].receiver_alive,
            senders_alive: s.queues[w].senders_alive,
        }) by {
            assert(routed_to(ts, s.next, s.parallel, w as nat) == Seq::<T>::empty());
            assert(s.queues[w].pending + Seq::<T>::empty() =~= s.queues[w].pending);
        }
    } else {
        let s1 = work_spec(s, ts[0]);
        let w0 = s.target();
        assert(s.queues[w0].receiver_alive);
        assert(s1.wf() && s1.all_receivers_alive()) by {
            assert forall|w: int|
                0 <= w < s1.queues.len() implies s1.queues[w].senders_alive
                && s1.queues[w].receiver_alive by {
                assert(s.queues[w].senders_alive && s.queues[w].receiver_alive);
            }
        }
        lemma_dispatch_queues(s1, ts.drop_first());
        assert forall|w: int| 0 <= w < s.queues.len() implies #[trigger] submit_all(s, ts).queues[w]
            == (QueueView::<T> {
            pending: s.queues[w].pending + routed_to(ts, s.next, s.parallel, w as nat),
            receiver_alive: s.queues[w].receiver_alive,
            senders_alive: s.queues[w].senders_alive,
        }) by {
            let rest = routed_to(ts.drop_first(), s.next + 1, s.parallel, w as nat);
            assert(submit_all(s1, ts.drop_first()).queues[w] == (QueueView::<T> {
                pending: s1.queues[w].pending + rest,
                receiver_alive: s1.queues[w].receiver_alive,
                senders_alive: s1.queues[w].senders_alive,
            }));
            if w == w0 {
                assert(s.next % s.parallel == w as nat);
                assert(routed_to(ts, s.next, s.parallel, w as nat) == seq![ts[0]] + rest);
                assert(s.queues[w].pending.push(ts[0]) + rest =~= s.queues[w].pending + (seq![
                    ts[0],
                ] + rest));
            } else {
                assert(s.next % s.parallel != w as nat);
                assert(routed_to(ts, s.next, s.parallel, w as nat) == rest);
            }
        }
    }
}

/// Law (round-robin determinism): with every worker running, the `i`-th
/// submission of a run stands in the queue of worker
/// `(s.next + i) mod parallel` — for a fresh pool, worker `i mod parallel` —
/// directly after that worker's earlier share. No submission is lost.
pub proof fn lemma_round_robin<T>(s: PoolView<T>, ts: Seq<T>, i: int)
    requires
        s.wf(),
        s.all_receivers_alive(),
        0 <= i < ts.len(),
    ensures
        ({
            let w = (s.next + i) % (s.parallel as int);
            let q = submit_all(s, ts).queues[w].pending;
            let pos = s.queues[w].pending.len() + routed_to(
                ts.take(i),
                s.next,
                s.parallel,
                w as nat,
            ).len();
            0 <= w < s.parallel && pos < q.len() && q[pos as int] == ts[i]
        }),
{
    lemma_dispatch_queues(s, ts);
    lemma_routed_to_index(ts, s.next, s.parallel, i);
}

/// Law (per-worker first-in-first-out): two submissions routed to the same
/// running worker stand in that worker's queue in submission order, so the
/// worker — which executes its queue front first, see `thread_worker` —
/// starts the earlier one first.
pub proof fn lemma_per_worker_fifo<T>(s: PoolView<T>, ts: Seq<T>, i1: int, i2: int)
    requires
        s.wf(),
        s.all_receivers_alive(),
        0 <= i1 < i2 < ts.len(),
        (s.next + i1) % (s.parallel as int) == (s.next + i2) % (s.parallel as int),
    ensures
        ({
            let w = (s.next + i1) % (s.parallel as int);
            let q = submit_all(s, ts).queues[w].pending;
            let p1 = s.queues[w].pending.len() + routed_to(
                ts.take(i1),
                s.next,
                s.parallel,
                w as nat,
            ).len();
            let p2 = s.queues[w].pending.len() + routed_to(
                ts.take(i2),
                s.next,
                s.parallel,
                w as nat,
            ).len();
            p1 < p2 < q.len() && q[p1 as int] == ts[i1] && q[p2 as int] == ts[i2]
        }),
{
    lemma_round_robin(s, ts, i1);
    lemma_round_robin(s, ts, i2);
    lemma_routed_to_order(ts, s.next, s.parallel, i1, i2);
}

/// Law (exactly once): with every worker running, a run of submissions adds
/// to the pool's queues exactly the submitted tasks, counted with
/// multiplicity — none lost, none duplicated. Each worker then executes its
/// own queue exactly, front first (see `thread_worker`), so every submitted
/// task is eventually executed exactly once.
pub proof fn lemma_exactly_once<T>(s: PoolView<T>, ts: Seq<T>)
    requires
        s.wf(),
        s.all_receivers_alive(),
    ensures
        queues_multiset(submit_all(s, ts).queues) == queues_multiset(s.queues).add(
            ts.to_multiset(),
        ),
    decreases ts.len(),
{
    broadcast use vstd::seq_lib::group_to_multiset_ensures;
    broadcast use vstd::multiset::group_multiset_axioms;

    if ts.len() == 0 {
        assert(ts.to_multiset() =~= Multiset::<T>::empty()) by {
            assert(forall|a: T| !ts.contains(a));
        }
        assert(queues_multiset(s.queues).add(Multiset::<T>::empty()) =~= queues_multiset(
            s.queues,
        ));
    } else {
        let ts0 = ts.drop_last();
        let t = ts.last();
        assert(ts =~= ts0.push(t));
        lemma_exactly_once(s, ts0);
        lemma_submit_all_push(s, ts0, t);
        let s1 = submit_all(s, ts0);
        lemma_dispatch_queues(s, ts0);
        let w0 = s1.target();
        assert(s1.queues[w0].receiver_alive);
        lemma_queues_multiset_update(
            s1.queues,
            w0,
            QueueView {
                pending: s1.queues[w0].pending.push(t),
                receiver_alive: s1.queues[w0].receiver_alive,
                senders_alive: s1.queues[w0].senders_alive,
            },
            t,
        );
        assert(ts0.push(t).to_multiset() =~= ts0.to_multiset().insert(t));
        assert(queues_multiset(s.queues).add(ts0.to_multiset()).insert(t) =~= queues_multiset(
            s.queues,
        ).add(ts.to_multiset()));
    }
}

/// Law (dead-worker detection): a submission whose target worker has
/// terminated is rejected — the caller gets the task back unchanged, see
/// `work` — and enqueues nothing anywhere, while the counter still
/// advances; a submission whose target still runs is accepted and lands on
/// exactly that worker. Other workers are never touched either way.
pub proof fn lemma_dead_worker<T>(s: PoolView<T>, t: T)
    requires
        s.wf(),
    ensures
        work_spec(s, t).next == s.next + 1,
        work_spec(s, t).parallel == s.parallel,
        !s.send_ok() ==> work_spec(s, t).queues == s.queues,
        s.send_ok() ==> work_spec(s, t).queues[s.target()].pending == s.queues[
            s.target()
        ].pending.push(t),
        forall|w: int|
            0 <= w < s.queues.len() && w != s.target() ==> #[trigger] work_spec(s, t).queues[w]
                == s.queues[w],
{
}

} // verus!
