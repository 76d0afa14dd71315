use vstd::prelude::*;

verus! {

/// A failed submission: the channel's consuming end is gone, so the task
/// comes back to the caller unchanged, to be rescheduled or dropped.
pub struct SendError<T>(pub T);

/// The mathematical state of one worker's channel: the tasks still queued
/// (front of the sequence is delivered first), whether the consuming end
/// still exists (the worker thread is running), and whether any producing
/// end still exists (some pool handle is alive).
#[verifier::ext_equal]
pub ghost struct QueueView<T> {
    pub pending: Seq<T>,
    pub receiver_alive: bool,
    pub senders_alive: bool,
}

/// One worker's work channel: an unbounded first-in-first-out queue of
/// tasks with a single consumer. A send enqueues at the back and fails
/// exactly when the consumer is gone; a receive takes from the front and
/// reports closure once no producer is left and the queue has drained.
pub struct WorkQueue<T> {
    pending: Vec<T>,
    receiver_alive: bool,
    senders_alive: bool,
}

impl<T> View for WorkQueue<T> {
    type V = QueueView<T>;

    closed spec fn view(&self) -> QueueView<T> {
        QueueView {
            pending: self.pending@,
            receiver_alive: self.receiver_alive,
            senders_alive: self.senders_alive,
        }
    }
}

impl<T> WorkQueue<T> {
    /// A fresh channel: empty, with both ends alive.
    pub fn new() -> (q: Self)
        ensures
            q@.pending == Seq::<T>::empty(),
            q@.receiver_alive,
            q@.senders_alive,
    {
        WorkQueue { pending: Vec::new(), receiver_alive: true, senders_alive: true }
    }

    /// Enqueue one task. Succeeds, appending the task at the back, exactly
    /// when the consuming end still exists; otherwise the task is handed
    /// back unchanged inside the error.
    pub fn send(&mut self, t: T) -> (r: Result<(), SendError<T>>)
        requires
            old(self)@.senders_alive,
        ensures
            final(self)@.receiver_alive == old(self)@.receiver_alive,
            final(self)@.senders_alive == old(self)@.senders_alive,
            old(self)@.receiver_alive ==> final(self)@.pending == old(self)@.pending.push(t)
                && r == (Ok::<(), SendError<T>>(())),
            !old(self)@.receiver_alive ==> final(self)@.pending == old(self)@.pending
                && r == (Err::<(), SendError<T>>(SendError(t))),
    {
        if self.receiver_alive {
            self.pending.push(t);
            Ok(())
        } else {
            Err(SendError(t))
        }
    }

    /// One receive step by the worker. Delivers the front task when one is
    /// queued; reports closure (`None`) when the queue is empty and no
    /// producer is left. A receive on an empty queue whose producers are
    /// still alive would block, so that state is excluded here.
    pub fn recv(&mut self) -> (r: Option<T>)
        requires
            old(self)@.receiver_alive,
            old(self)@.pending.len() > 0 || !old(self)@.senders_alive,
        ensures
            final(self)@.receiver_alive == old(self)@.receiver_alive,
            final(self)@.senders_alive == old(self)@.senders_alive,
            old(self)@.pending.len() > 0 ==> r == (Some(old(self)@.pending[0]))
                && final(self)@.pending == old(self)@.pending.drop_first(),
            old(self)@.pending.len() == 0 ==> r is None
                && final(self)@.pending == old(self)@.pending,
    {
        if self.pending.len() > 0 {
            let t = self.pending.remove(0);
            proof {
                assert(self.pending@ =~= old(self)@.pending.drop_first());
            }
            Some(t)
        } else {
            None
        }
    }

    /// The last producing end goes away (the final pool handle was
    /// released): anything already queued stays deliverable, but the
    /// consumer will observe closure once the queue drains.
    pub fn close_senders(&mut self)
        ensures
            final(self)@.pending == old(self)@.pending,
            final(self)@.receiver_alive == old(self)@.receiver_alive,
            !final(self)@.senders_alive,
    {
        self.senders_alive = false;
    }

    /// The consuming end goes away: the worker thread terminated, normally
    /// or through an unrecovered failure inside a task. Whatever was still
    /// queued is discarded with it, and every later send fails.
    pub fn close_receiver(&mut self)
        requires
            old(self)@.receiver_alive,
        ensures
            final(self)@.pending == Seq::<T>::empty(),
            !final(self)@.receiver_alive,
            final(self)@.senders_alive == old(self)@.senders_alive,
    {
        self.pending = Vec::new();
        self.receiver_alive = false;
    }
}

} // verus!
