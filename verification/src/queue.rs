//! The request queue of the scheduler, and the scheduler's dispatch decision. Locking the
//! queue and sending to engines are left to the caller: each step here is one decision.
use vstd::prelude::*;
use std::collections::VecDeque;

verus! {

/// Requests waiting for an engine, served first come, first served.
pub struct RequestQueue<R> {
    queue: VecDeque<R>,
}

/// What the scheduler does with the next request.
pub enum SchedulerStep<R> {
    /// Send the request to the engine with this index.
    Dispatch { engine: usize, request: R },
    /// There is no engine: the request is dropped.
    Discard(R),
    /// The queue is empty: wait a little before looking again.
    Idle,
}

impl<R> RequestQueue<R> {
    /// The waiting requests, oldest first.
    pub closed spec fn contents(&self) -> Seq<R> {
        self.queue@
    }

    /// An empty queue.
    pub fn new() -> (q: Self)
        ensures
            q.contents() == Seq::<R>::empty(),
    {
        RequestQueue { queue: VecDeque::new() }
    }

    /// Adds a request behind the waiting ones.
    pub fn enqueue(&mut self, req: R)
        ensures
            final(self).contents() == old(self).contents().push(req),
    {
        self.queue.push_back(req);
    }

    /// Takes the oldest waiting request, if any.
    pub fn dequeue(&mut self) -> (r: Option<R>)
        ensures
            match r {
                Some(x) => {
                    &&& old(self).contents().len() > 0
                    &&& x == old(self).contents()[0]
                    &&& final(self).contents() == old(self).contents().drop_first()
                },
                None => old(self).contents().len() == 0 && final(self).contents() == old(self).contents(),
            },
    {
        self.queue.pop_front()
    }

    /// Number of waiting requests.
    pub fn len(&self) -> (n: usize)
        ensures
            n == self.contents().len(),
    {
        self.queue.len()
    }
}

/// One step of the scheduler's loop: the oldest request goes to the first engine; with no
/// engine it is dropped; with no request the scheduler idles.
pub fn schedule_step<R>(queue: &mut RequestQueue<R>, engine_count: usize) -> (step: SchedulerStep<R>)
    ensures
        match step {
            SchedulerStep::Dispatch { engine, request } => {
                &&& engine == 0
                &&& engine_count > 0
                &&& old(queue).contents().len() > 0
                &&& request == old(queue).contents()[0]
                &&& final(queue).contents() == old(queue).contents().drop_first()
            },
            SchedulerStep::Discard(request) => {
                &&& engine_count == 0
                &&& old(queue).contents().len() > 0
                &&& request == old(queue).contents()[0]
                &&& final(queue).contents() == old(queue).contents().drop_first()
            },
            SchedulerStep::Idle => old(queue).contents().len() == 0 && final(queue).contents() == old(
                queue,
            ).contents(),
        },
{
    match queue.dequeue() {
        Some(request) => if engine_count > 0 {
            SchedulerStep::Dispatch { engine: 0, request }
        } else {
            SchedulerStep::Discard(request)
        },
        None => SchedulerStep::Idle,
    }
}

/// Law: the queue is first in, first out. When `a` is enqueued (`q0` to `q1`) and a request
/// is then dequeued (`q1` to `q2`, giving `x`), `x` is the oldest request that was waiting
/// before `a`, or `a` itself when none was; `a` stays behind the others.
pub proof fn law_first_in_first_out<R>(q0: &RequestQueue<R>, q1: &RequestQueue<R>, q2: &RequestQueue<R>, a: R, x: R)
    requires
        q1.contents() == q0.contents().push(a),
        q1.contents().len() > 0,
        x == q1.contents()[0],
        q2.contents() == q1.contents().drop_first(),
    ensures
        x == if q0.contents().len() == 0 { a } else { q0.contents()[0] },
        q2.contents() == if q0.contents().len() == 0 {
            Seq::<R>::empty()
        } else {
            q0.contents().drop_first().push(a)
        },
{
    assert(q2.contents() =~= if q0.contents().len() == 0 {
        Seq::<R>::empty()
    } else {
        q0.contents().drop_first().push(a)
    });
}

} // verus!
