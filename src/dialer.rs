use vstd::prelude::*;
use std::collections::HashMap;
use crate::connection::{ConnectionRequest, FrontEndModel, LinkEvt, could_not_establish_reason, link_run};
use crate::meta::{ConnectionID, EventView};

verus! {

broadcast use vstd::std_specs::hash::group_hash_axioms;

/// What to do next for a connection that is being dialled.
#[derive(Debug, Clone, PartialEq, Eq)]
pub enum DialStep<A> {
    /// Try to connect to this candidate address.
    Connect(A),
    /// Every candidate failed: report that the connection could not be
    /// established. The request is gone.
    GaveUp,
    /// The connection has no pending request: nothing to do.
    NotPending,
}

/// How one read from a connection's socket went.
#[derive(Debug, Clone, Copy, PartialEq, Eq)]
pub enum ReadOutcome {
    /// Some bytes were read.
    Received,
    /// The read returned no bytes: the remote end closed the stream.
    Closed,
    /// Nothing more can be read before the next wake-up.
    WouldBlock,
    /// The read failed.
    Failed,
}

/// What the dialer thread does about a read.
#[derive(Debug, Clone, Copy, PartialEq, Eq)]
pub enum ReadReaction {
    /// Report the bytes and read again. When `confirms` holds, this is the
    /// connection's first successful read: report it established first.
    Received { confirms: bool },
    /// Deregister and drop the socket, report end of stream; stop reading.
    Closed,
    /// Stop reading until the next wake-up.
    Drained,
    /// Deregister and drop the socket, report the error; when `redial`
    /// holds, dial the connection's remaining candidates. Stop reading.
    Failed { redial: bool },
}

/// The pending requests, by connection: the candidates not tried yet. A
/// connection that is here and has a socket is connected but not confirmed.
pub type DialModel<A> = Map<ConnectionID, Seq<A>>;

/// Choosing the next candidate takes the last one left.
pub open spec fn next_candidate_spec<A>(m: DialModel<A>, cid: ConnectionID) -> (DialModel<A>, DialStep<A>) {
    if !m.contains_key(cid) {
        (m, DialStep::NotPending)
    } else if m[cid].len() == 0 {
        (m.remove(cid), DialStep::GaveUp)
    } else {
        (m.insert(cid, m[cid].drop_last()), DialStep::Connect(m[cid].last()))
    }
}

/// The reaction to a read, and the pending requests after it. A first
/// successful read confirms the connection, which leaves the pending
/// requests; so does a connection that closes. A failed read redials while
/// candidates are left, and otherwise drops the request.
pub open spec fn read_spec<A>(m: DialModel<A>, cid: ConnectionID, outcome: ReadOutcome) -> (DialModel<A>, ReadReaction) {
    match outcome {
        ReadOutcome::Received => (m.remove(cid), ReadReaction::Received { confirms: m.contains_key(cid) }),
        ReadOutcome::Closed => (m.remove(cid), ReadReaction::Closed),
        ReadOutcome::WouldBlock => (m, ReadReaction::Drained),
        ReadOutcome::Failed => if m.contains_key(cid) && m[cid].len() > 0 {
            (m, ReadReaction::Failed { redial: true })
        } else {
            (m.remove(cid), ReadReaction::Failed { redial: false })
        },
    }
}

/// The dial loop of the dialer thread for `cid`: it takes candidates until
/// one connects (those in `reachable` do) or none is left. The pending
/// requests after it, the address it connected to, and whether it gave up.
pub open spec fn dial_loop<A>(m: DialModel<A>, cid: ConnectionID, reachable: Set<A>) -> (DialModel<A>, Option<A>, bool)
    decreases (if m.contains_key(cid) { m[cid].len() + 1 } else { 0 }),
{
    if !m.contains_key(cid) {
        (m, None, false)
    } else if m[cid].len() == 0 {
        (m.remove(cid), None, true)
    } else {
        let a = m[cid].last();
        let m1 = m.insert(cid, m[cid].drop_last());
        if reachable.contains(a) {
            (m1, Some(a), false)
        } else {
            dial_loop(m1, cid, reachable)
        }
    }
}

/// The notices a dial loop sends: one `CouldntEstablish` when it gave up.
pub open spec fn dial_notices<S>(cid: ConnectionID, gave_up: bool) -> Seq<LinkEvt<S>> {
    if gave_up {
        seq![LinkEvt::CouldntEstablish(cid)]
    } else {
        Seq::empty()
    }
}

/// The notices a successful read sends: `Established`, with a handle to the
/// socket, when the read confirms the connection, then the bytes read.
pub open spec fn read_notices<S>(cid: ConnectionID, r: ReadReaction, handle: S, bytes: Vec<u8>) -> Seq<LinkEvt<S>> {
    match r {
        ReadReaction::Received { confirms } => if confirms {
            seq![LinkEvt::Established(cid, handle), LinkEvt::Data(cid, bytes)]
        } else {
            seq![LinkEvt::Data(cid, bytes)]
        },
        _ => Seq::empty(),
    }
}

/// A dial connects to a reachable candidate when there is one, the last of
/// them, and keeps the request pending until a read confirms it; when there
/// is none it gives up and drops the request. Other requests stay as they were.
pub proof fn lemma_dial_outcome<A>(m: DialModel<A>, cid: ConnectionID, reachable: Set<A>)
    requires
        m.contains_key(cid),
    ensures
        ({
            let (mf, conn, gave_up) = dial_loop(m, cid, reachable);
            &&& mf.remove(cid) == m.remove(cid)
            &&& if exists|i: int| 0 <= i < m[cid].len() && reachable.contains(#[trigger] m[cid][i]) {
                &&& conn is Some
                &&& reachable.contains(conn->0)
                &&& m[cid].contains(conn->0)
                &&& !gave_up
                &&& mf.contains_key(cid)
            } else {
                &&& conn is None
                &&& gave_up
                &&& !mf.contains_key(cid)
            }
        }),
    decreases m[cid].len(),
{
    let cands = m[cid];
    if cands.len() == 0 {
        assert(m.remove(cid).remove(cid) =~= m.remove(cid));
    } else {
        let a = cands.last();
        let m1 = m.insert(cid, cands.drop_last());
        assert(m1.remove(cid) =~= m.remove(cid));
        if reachable.contains(a) {
            assert(cands[cands.len() - 1] == a);
        } else {
            lemma_dial_outcome(m1, cid, reachable);
            let rest = cands.drop_last();
            assert(m1[cid] == rest);
            if exists|i: int| 0 <= i < cands.len() && reachable.contains(#[trigger] cands[i]) {
                let i = choose|i: int| 0 <= i < cands.len() && reachable.contains(#[trigger] cands[i]);
                assert(i < cands.len() - 1);
                assert(rest[i] == cands[i]);
                let (mf, conn, gave_up) = dial_loop(m1, cid, reachable);
                let j = choose|j: int| 0 <= j < rest.len() && rest[j] == conn->0;
                assert(cands[j] == conn->0);
            } else {
                assert forall|i: int| 0 <= i < rest.len() implies !reachable.contains(#[trigger] rest[i]) by {
                    assert(rest[i] == cands[i]);
                }
            }
        }
    }
}

/// A dial none of whose candidates can be reached gives up, and its
/// notices become exactly one `ConnectionEnd`, which says that the
/// connection could not be established, and no `ConnectionStart`.
pub proof fn lemma_unreachable_ends_once<A, S>(
    pending: DialModel<A>,
    front: FrontEndModel<S>,
    cid: ConnectionID,
    addrs: Seq<A>,
    reachable: Set<A>,
)
    requires
        forall|i: int| 0 <= i < addrs.len() ==> !reachable.contains(#[trigger] addrs[i]),
    ensures
        ({
            let (mf, conn, gave_up) = dial_loop(pending.insert(cid, addrs), cid, reachable);
            &&& conn is None
            &&& gave_up
            &&& !mf.contains_key(cid)
            &&& link_run(front, dial_notices::<S>(cid, gave_up)).1 == seq![
                EventView::ConnectionEnd { which: cid, reason: could_not_establish_reason() },
            ]
        }),
{
    let m = pending.insert(cid, addrs);
    assert(m[cid] == addrs);
    lemma_dial_outcome(m, cid, reachable);
    let notices = dial_notices::<S>(cid, true);
    assert(notices.drop_first() =~= Seq::<LinkEvt<S>>::empty());
    let ev = EventView::ConnectionEnd { which: cid, reason: could_not_establish_reason() };
    assert(link_run(crate::connection::link_step(front, notices[0]).0, notices.drop_first()).1 =~= Seq::<EventView>::empty());
    assert(seq![ev] + Seq::<EventView>::empty() =~= seq![ev]);
}

/// Of the candidates `[x, y, z]`, where only `z` answers: the dial connects
/// to `z` without giving up; its first read confirms the connection and no
/// later read does; and the notices of two reads become one
/// `ConnectionStart`, first, followed only by `ServerText` events of that
/// connection.
pub proof fn lemma_answering_candidate_starts_once<A, S>(
    pending: DialModel<A>,
    front: FrontEndModel<S>,
    cid: ConnectionID,
    x: A,
    y: A,
    z: A,
    reachable: Set<A>,
    handle: S,
    first: Vec<u8>,
    second: Vec<u8>,
)
    requires
        reachable.contains(z),
        !reachable.contains(x),
        !reachable.contains(y),
    ensures
        ({
            let (m1, conn, gave_up) = dial_loop(pending.insert(cid, seq![x, y, z]), cid, reachable);
            let (m2, r1) = read_spec(m1, cid, ReadOutcome::Received);
            let (m3, r2) = read_spec(m2, cid, ReadOutcome::Received);
            let events = link_run(
                front,
                dial_notices::<S>(cid, gave_up) + read_notices(cid, r1, handle, first) + read_notices(
                    cid,
                    r2,
                    handle,
                    second,
                ),
            ).1;
            &&& conn == Some(z)
            &&& !gave_up
            &&& r1 == ReadReaction::Received { confirms: true }
            &&& r2 == ReadReaction::Received { confirms: false }
            &&& events.len() >= 1
            &&& events[0] == EventView::ConnectionStart { which: cid }
            &&& forall|i: int|
                1 <= i < events.len() ==> (#[trigger] events[i] matches EventView::ServerText {
                    which,
                    ..
                } && which == cid)
        }),
{
    let m = pending.insert(cid, seq![x, y, z]);
    assert(m[cid].last() == z);
    let (m1, conn, gave_up) = dial_loop(m, cid, reachable);
    assert(m1.contains_key(cid));
    let (m2, r1) = read_spec(m1, cid, ReadOutcome::Received);
    let (m3, r2) = read_spec(m2, cid, ReadOutcome::Received);
    let notices = dial_notices::<S>(cid, gave_up) + read_notices(cid, r1, handle, first) + read_notices(
        cid,
        r2,
        handle,
        second,
    );
    let n = seq![
        LinkEvt::Established(cid, handle),
        LinkEvt::Data(cid, first),
        LinkEvt::Data(cid, second),
    ];
    assert(notices =~= n);
    let (f1, e1) = crate::connection::link_step(front, n[0]);
    let (f2, e2) = crate::connection::link_step(f1, n[1]);
    let (f3, e3) = crate::connection::link_step(f2, n[2]);
    assert(n.drop_first() =~= seq![n[1], n[2]]);
    assert(n.drop_first().drop_first() =~= seq![n[2]]);
    assert(n.drop_first().drop_first().drop_first() =~= Seq::<LinkEvt<S>>::empty());
    let events = link_run(front, n).1;
    assert(link_run(f3, Seq::<LinkEvt<S>>::empty()).1 =~= Seq::<EventView>::empty());
    assert(link_run(f2, seq![n[2]]).1 == e3 + Seq::<EventView>::empty());
    assert(link_run(f1, seq![n[1], n[2]]).1 == e2 + link_run(f2, seq![n[2]]).1);
    assert(events == e1 + link_run(f1, seq![n[1], n[2]]).1);
    assert(events =~= e1 + (e2 + (e3 + Seq::<EventView>::empty())));
    assert forall|i: int| 1 <= i < events.len() implies (#[trigger] events[i] matches EventView::ServerText {
        which,
        ..
    } && which == cid) by {
        if i - 1 < e2.len() {
            assert(events[i] == e2[i - 1]);
        } else {
            assert(events[i] == e3[i - 1 - e2.len()]);
        }
    }
}

/// The decisions of the dialer thread: which candidate address to try next
/// for each pending connection, and what each read from a socket means.
pub struct Dialer<A> {
    pending: HashMap<ConnectionID, Vec<A>>,
}

impl<A> View for Dialer<A> {
    type V = DialModel<A>;

    closed spec fn view(&self) -> DialModel<A> {
        self.pending@.map_values(|v: Vec<A>| v@)
    }
}

impl<A> Dialer<A> {
    pub fn new() -> (r: Dialer<A>)
        ensures
            r@ == Map::<ConnectionID, Seq<A>>::empty(),
    {
        let r = Dialer { pending: HashMap::new() };
        assert(r@ =~= Map::<ConnectionID, Seq<A>>::empty());
        r
    }

    /// Record a new request; its candidates are tried from the last one back.
    pub fn add_request(&mut self, req: ConnectionRequest<A>) -> (cid: ConnectionID)
        ensures
            cid == req.cid,
            final(self)@ == old(self)@.insert(req.cid, req.addrs@),
    {
        let ConnectionRequest { addrs, cid } = req;
        self.pending.insert(cid, addrs);
        assert(self@ =~= old(self)@.insert(cid, addrs@));
        cid
    }

    /// Whether `cid` still has a pending request.
    pub fn is_pending(&self, cid: ConnectionID) -> (b: bool)
        ensures
            b == self@.contains_key(cid),
    {
        self.pending.contains_key(&cid)
    }

    /// Take the next candidate to try for `cid`.
    pub fn next_candidate(&mut self, cid: ConnectionID) -> (r: DialStep<A>)
        ensures
            (final(self)@, r) == next_candidate_spec(old(self)@, cid),
    {
        match self.pending.remove(&cid) {
            None => {
                assert(self@ =~= old(self)@);
                DialStep::NotPending
            },
            Some(mut addrs) => {
                match addrs.pop() {
                    None => {
                        assert(self@ =~= old(self)@.remove(cid));
                        DialStep::GaveUp
                    },
                    Some(a) => {
                        let ghost left = addrs@;
                        self.pending.insert(cid, addrs);
                        assert(self@ =~= old(self)@.insert(cid, left));
                        assert(left =~= old(self)@[cid].drop_last());
                        DialStep::Connect(a)
                    },
                }
            },
        }
    }

    /// Decide what a read from the socket of `cid` means.
    pub fn on_read(&mut self, cid: ConnectionID, outcome: ReadOutcome) -> (r: ReadReaction)
        ensures
            (final(self)@, r) == read_spec(old(self)@, cid, outcome),
    {
        match outcome {
            ReadOutcome::Received => {
                let confirms = self.pending.remove(&cid).is_some();
                assert(self@ =~= old(self)@.remove(cid));
                ReadReaction::Received { confirms }
            },
            ReadOutcome::Closed => {
                self.pending.remove(&cid);
                assert(self@ =~= old(self)@.remove(cid));
                ReadReaction::Closed
            },
            ReadOutcome::WouldBlock => ReadReaction::Drained,
            ReadOutcome::Failed => {
                let left = match self.pending.get(&cid) {
                    Some(addrs) => addrs.len(),
                    None => 0,
                };
                if left > 0 {
                    ReadReaction::Failed { redial: true }
                } else {
                    self.pending.remove(&cid);
                    assert(self@ =~= old(self)@.remove(cid));
                    ReadReaction::Failed { redial: false }
                }
            },
        }
    }
}

} // verus!
