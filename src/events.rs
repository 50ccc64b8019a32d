use vstd::prelude::*;
use std::collections::VecDeque;
use crate::meta::Event;

verus! {

broadcast use vstd::std_specs::vecdeque::group_vec_dequeue_axioms;

/// Why `next_event` cannot hand out an event.
#[derive(Debug, Clone, Copy, PartialEq, Eq)]
pub enum ManagerError {
    /// No source is registered, so waiting would block forever.
    NothingToWaitFor,
    /// A source failed fatally earlier and every queued event has been handed out.
    AlreadyFailed,
}

impl ManagerError {
    /// The message that describes the error.
    pub fn message(&self) -> (r: String)
        ensures
            r@ == self.message_spec(),
    {
        match self {
            ManagerError::NothingToWaitFor => String::from_str("No threads are running; would block forever"),
            ManagerError::AlreadyFailed => String::from_str("A fatal error has already occurred"),
        }
    }

    pub open spec fn message_spec(&self) -> Seq<char> {
        match self {
            ManagerError::NothingToWaitFor => "No threads are running; would block forever"@,
            ManagerError::AlreadyFailed => "A fatal error has already occurred"@,
        }
    }
}

/// What a worker tells the manager through its pager.
#[derive(Debug, Clone, PartialEq, Eq)]
pub enum StateNotice {
    /// The source may have new results.
    Ready,
    /// The source failed and cannot go on.
    Error(String),
}

/// A notice from a source, once the caller has acted on it: the events that
/// the source's `process` returned for a ready notice, or the reason of a
/// fatal one.
#[derive(Debug, Clone, PartialEq, Eq)]
pub enum Notice {
    Processed(Vec<Event>),
    Fatal(String),
}

/// How a worker thread ended. Workers are meant to run forever, so either
/// outcome is a fault.
#[derive(Debug, Clone, Copy, PartialEq, Eq)]
pub enum WorkerExit {
    Returned,
    Panicked,
}

/// The fatal notice with which a worker's watchdog reports its end.
pub fn watchdog_notice(exit: WorkerExit) -> (r: StateNotice)
    ensures
        r matches StateNotice::Error(why) && why@ == watchdog_reason(exit),
{
    match exit {
        WorkerExit::Returned => StateNotice::Error(String::from_str("A thread that should run forever returned!")),
        WorkerExit::Panicked => StateNotice::Error(String::from_str("A thread that should not have died died!")),
    }
}

pub open spec fn watchdog_reason(exit: WorkerExit) -> Seq<char> {
    match exit {
        WorkerExit::Returned => "A thread that should run forever returned!"@,
        WorkerExit::Panicked => "A thread that should not have died died!"@,
    }
}

/// What one call of `next_event` leads to.
#[derive(Debug, Clone, PartialEq, Eq)]
pub enum Step {
    /// The next event, in the order the events were queued.
    Deliver(Event),
    /// The queue is empty: block for the next notice, act on it and hand it
    /// to `handle_notice`, then ask again.
    AwaitNotice,
    /// Nothing can ever be delivered again.
    Fail(ManagerError),
}

/// The abstract state of a manager: the registered sources, whether a fatal
/// notice has arrived, and the events waiting to be handed out.
pub struct ManagerModel<S> {
    pub sources: Seq<S>,
    pub poisoned: bool,
    pub queue: Seq<Event>,
}

/// A notice as the model sees it.
pub enum NoticeModel {
    Processed(Seq<Event>),
    Fatal(String),
}

impl Notice {
    pub open spec fn model(&self) -> NoticeModel {
        match self {
            Notice::Processed(events) => NoticeModel::Processed(events@),
            Notice::Fatal(why) => NoticeModel::Fatal(*why),
        }
    }
}

/// A manager is well formed when it was poisoned only by a registered source.
pub open spec fn manager_wf<S>(m: ManagerModel<S>) -> bool {
    m.poisoned ==> m.sources.len() > 0
}

/// One call of `next_event`: the new state and what is returned.
pub open spec fn next_spec<S>(m: ManagerModel<S>) -> (ManagerModel<S>, Step) {
    if m.queue.len() > 0 {
        (ManagerModel { queue: m.queue.drop_first(), ..m }, Step::Deliver(m.queue[0]))
    } else if m.sources.len() == 0 {
        (m, Step::Fail(ManagerError::NothingToWaitFor))
    } else if m.poisoned {
        (m, Step::Fail(ManagerError::AlreadyFailed))
    } else {
        (m, Step::AwaitNotice)
    }
}

/// The state after a notice: ignored once poisoned; otherwise a ready
/// source's events join the back of the queue in the order given, and a
/// fatal notice poisons the manager behind one `InternalError` event.
pub open spec fn notice_spec<S>(m: ManagerModel<S>, n: NoticeModel) -> ManagerModel<S> {
    if m.poisoned {
        m
    } else {
        match n {
            NoticeModel::Processed(events) => ManagerModel { queue: m.queue + events, ..m },
            NoticeModel::Fatal(why) => ManagerModel {
                poisoned: true,
                queue: m.queue.push(Event::InternalError { what: why }),
                ..m
            },
        }
    }
}

/// One call on a manager, as the model sees it.
pub enum ManagerOp<S> {
    StartSource(S),
    NextEvent,
    HandleNotice(NoticeModel),
}

/// The state after a sequence of calls, and what each `next_event` among
/// them returned.
pub open spec fn run<S>(m: ManagerModel<S>, ops: Seq<ManagerOp<S>>) -> (ManagerModel<S>, Seq<Step>)
    decreases ops.len(),
{
    if ops.len() == 0 {
        (m, Seq::empty())
    } else {
        match ops[0] {
            ManagerOp::StartSource(src) => run(
                ManagerModel { sources: m.sources.push(src), ..m },
                ops.drop_first(),
            ),
            ManagerOp::NextEvent => {
                let (m1, step) = next_spec(m);
                let (mf, steps) = run(m1, ops.drop_first());
                (mf, seq![step] + steps)
            },
            ManagerOp::HandleNotice(n) => run(notice_spec(m, n), ops.drop_first()),
        }
    }
}

/// The events that a sequence of steps handed out, in order.
pub open spec fn delivered(steps: Seq<Step>) -> Seq<Event>
    decreases steps.len(),
{
    if steps.len() == 0 {
        Seq::empty()
    } else {
        match steps[0] {
            Step::Deliver(e) => seq![e] + delivered(steps.drop_first()),
            _ => delivered(steps.drop_first()),
        }
    }
}

/// The events that a sequence of calls admits to the queue, in the order of
/// the notices: each ready source's events as its `process` returned them,
/// then, at a fatal notice, its `InternalError` event and nothing after it.
pub open spec fn admitted<S>(poisoned: bool, ops: Seq<ManagerOp<S>>) -> Seq<Event>
    decreases ops.len(),
{
    if ops.len() == 0 {
        Seq::empty()
    } else {
        match ops[0] {
            ManagerOp::HandleNotice(n) => if poisoned {
                admitted(true, ops.drop_first())
            } else {
                match n {
                    NoticeModel::Processed(events) => events + admitted(false, ops.drop_first()),
                    NoticeModel::Fatal(why) => seq![Event::InternalError { what: why }] + admitted(
                        true,
                        ops.drop_first(),
                    ),
                }
            },
            _ => admitted(poisoned, ops.drop_first()),
        }
    }
}

/// Events come out in the order they went in: for any interleaving of
/// registrations, notices and calls of `next_event`, the events handed out
/// followed by those still queued are the events queued before, followed by
/// those the notices admitted, in notice order. So each source's events keep
/// the order its `process` gave them, and the `InternalError` of a fatal
/// notice comes out only after every event queued before it.
pub proof fn lemma_events_in_order<S>(m: ManagerModel<S>, ops: Seq<ManagerOp<S>>)
    ensures
        delivered(run(m, ops).1) + run(m, ops).0.queue == m.queue + admitted(m.poisoned, ops),
    decreases ops.len(),
{
    if ops.len() == 0 {
        assert(m.queue + Seq::<Event>::empty() =~= m.queue);
        assert(delivered(Seq::<Step>::empty()) + m.queue =~= m.queue);
    } else {
        let rest = ops.drop_first();
        match ops[0] {
            ManagerOp::StartSource(src) => {
                lemma_events_in_order(ManagerModel { sources: m.sources.push(src), ..m }, rest);
            },
            ManagerOp::NextEvent => {
                let (m1, step) = next_spec(m);
                lemma_events_in_order(m1, rest);
                let (mf, steps) = run(m1, rest);
                let all = seq![step] + steps;
                assert(all.drop_first() =~= steps);
                assert(all[0] == step);
                if m.queue.len() > 0 {
                    assert(delivered(all) == seq![m.queue[0]] + delivered(steps));
                    assert(m.queue =~= seq![m.queue[0]] + m.queue.drop_first());
                    assert(seq![m.queue[0]] + delivered(steps) + mf.queue =~= seq![m.queue[0]] + (
                    delivered(steps) + mf.queue));
                    assert(m.queue + admitted(m.poisoned, ops) =~= seq![m.queue[0]] + (
                    m.queue.drop_first() + admitted(m.poisoned, rest)));
                } else {
                    assert(delivered(all) == delivered(steps));
                }
            },
            ManagerOp::HandleNotice(n) => {
                let m1 = notice_spec(m, n);
                lemma_events_in_order(m1, rest);
                if !m.poisoned {
                    match n {
                        NoticeModel::Processed(events) => {
                            assert(m.queue + events + admitted(false, rest) =~= m.queue + (events
                                + admitted(false, rest)));
                        },
                        NoticeModel::Fatal(why) => {
                            let ie = Event::InternalError { what: why };
                            assert(m.queue.push(ie) + admitted(true, rest) =~= m.queue + (seq![ie]
                                + admitted(true, rest)));
                        },
                    }
                }
            },
        }
    }
}

/// Once a poisoned manager has handed out its last queued event, every later
/// `next_event` fails with the same error and changes nothing, whatever
/// registrations and notices come in between.
pub proof fn lemma_poisoned_is_terminal<S>(m: ManagerModel<S>, ops: Seq<ManagerOp<S>>)
    requires
        manager_wf(m),
        m.poisoned,
        m.queue.len() == 0,
    ensures
        run(m, ops).0.poisoned,
        run(m, ops).0.queue.len() == 0,
        forall|i: int|
            0 <= i < run(m, ops).1.len() ==> run(m, ops).1[i] == Step::Fail(
                ManagerError::AlreadyFailed,
            ),
    decreases ops.len(),
{
    if ops.len() > 0 {
        let rest = ops.drop_first();
        match ops[0] {
            ManagerOp::StartSource(src) => {
                lemma_poisoned_is_terminal(ManagerModel { sources: m.sources.push(src), ..m }, rest);
            },
            ManagerOp::NextEvent => {
                lemma_poisoned_is_terminal(m, rest);
                let steps = run(m, rest).1;
                let all = seq![Step::Fail(ManagerError::AlreadyFailed)] + steps;
                assert forall|i: int| 0 <= i < all.len() implies all[i] == Step::Fail(
                    ManagerError::AlreadyFailed,
                ) by {
                    if i > 0 {
                        assert(all[i] == steps[i - 1]);
                    }
                }
            },
            ManagerOp::HandleNotice(n) => {
                lemma_poisoned_is_terminal(m, rest);
            },
        }
    }
}

/// Registers sources, takes their notices and hands out their events one at
/// a time. A source is known by the index under which it was registered.
pub struct ThreadedManager<S> {
    sources: Vec<S>,
    poisoned: bool,
    events_waiting: VecDeque<Event>,
}

impl<S> View for ThreadedManager<S> {
    type V = ManagerModel<S>;

    closed spec fn view(&self) -> ManagerModel<S> {
        ManagerModel { sources: self.sources@, poisoned: self.poisoned, queue: self.events_waiting@ }
    }
}

impl<S> ThreadedManager<S> {
    pub open spec fn wf(&self) -> bool {
        manager_wf(self@)
    }

    pub fn new() -> (r: ThreadedManager<S>)
        ensures
            r.wf(),
            r@.sources.len() == 0,
            !r@.poisoned,
            r@.queue.len() == 0,
    {
        ThreadedManager { sources: Vec::new(), poisoned: false, events_waiting: VecDeque::new() }
    }

    /// Register a source. Its identifier is the number of sources registered
    /// before it.
    pub fn start_source(&mut self, src: S) -> (id: usize)
        requires
            old(self).wf(),
        ensures
            final(self).wf(),
            id == old(self)@.sources.len(),
            final(self)@.sources == old(self)@.sources.push(src),
            final(self)@.poisoned == old(self)@.poisoned,
            final(self)@.queue == old(self)@.queue,
    {
        let id = self.sources.len();
        self.sources.push(src);
        id
    }

    pub fn source_count(&self) -> (n: usize)
        ensures
            n == self@.sources.len(),
    {
        self.sources.len()
    }

    pub fn is_poisoned(&self) -> (b: bool)
        ensures
            b == self@.poisoned,
    {
        self.poisoned
    }

    pub fn source(&self, id: usize) -> (s: &S)
        requires
            id < self@.sources.len(),
        ensures
            *s == self@.sources[id as int],
    {
        &self.sources[id]
    }

    /// The source registered under `id`, to call `process` on.
    pub fn source_mut(&mut self, id: usize) -> (s: &mut S)
        requires
            id < old(self)@.sources.len(),
        ensures
            *s == old(self)@.sources[id as int],
            final(self)@.sources == old(self)@.sources.update(id as int, *final(s)),
            final(self)@.poisoned == old(self)@.poisoned,
            final(self)@.queue == old(self)@.queue,
    {
        &mut self.sources[id]
    }

    /// Hand out the next queued event; when none is queued, fail if nothing
    /// could ever arrive, or ask the caller to wait for a notice.
    pub fn next_event(&mut self) -> (r: Step)
        requires
            old(self).wf(),
        ensures
            final(self).wf(),
            (final(self)@, r) == next_spec(old(self)@),
            old(self)@.queue.len() == 0 && old(self)@.sources.len() == 0 ==> r == Step::Fail(
                ManagerError::NothingToWaitFor,
            ),
    {
        match self.events_waiting.pop_front() {
            Some(e) => Step::Deliver(e),
            None => {
                if self.sources.len() < 1 {
                    Step::Fail(ManagerError::NothingToWaitFor)
                } else if self.poisoned {
                    Step::Fail(ManagerError::AlreadyFailed)
                } else {
                    Step::AwaitNotice
                }
            },
        }
    }

    /// Act on a notice from the source registered under `id`.
    pub fn handle_notice(&mut self, id: usize, notice: Notice)
        requires
            old(self).wf(),
            id < old(self)@.sources.len(),
        ensures
            final(self).wf(),
            final(self)@ == notice_spec(old(self)@, notice.model()),
    {
        if self.poisoned {
            return;
        }
        match notice {
            Notice::Processed(events) => {
                let ghost start = self.events_waiting@;
                let ghost batch = events@;
                for e in it: events
                    invariant
                        self.sources@ == old(self)@.sources,
                        !self.poisoned,
                        it.seq() == batch,
                        self.events_waiting@ == start + batch.take(it.index() as int),
                {
                    proof {
                        assert(batch.take(it.index() + 1) =~= batch.take(it.index() as int).push(e));
                    }
                    self.events_waiting.push_back(e);
                }
                assert(batch.take(batch.len() as int) =~= batch);
            },
            Notice::Fatal(why) => {
                self.poisoned = true;
                self.events_waiting.push_back(Event::InternalError { what: why });
            },
        }
    }
}

} // verus!
