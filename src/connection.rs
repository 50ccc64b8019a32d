use vstd::prelude::*;
use std::collections::HashMap;
use crate::framing::{frame, frame_lines, unterminated};
use crate::meta::{ConnectionID, Event, EventView, event_views};

verus! {

broadcast use vstd::std_specs::hash::group_hash_axioms;

/// The text of a lossy UTF-8 decoding of some bytes.
pub uninterp spec fn utf8_lossy(b: Seq<u8>) -> Seq<char>;

/// Relies on `String::from_utf8_lossy`: decodes the bytes as UTF-8, with
/// U+FFFD in place of each invalid sequence; the text depends on the bytes alone.
#[verifier::external_body]
fn lossy_text(b: &[u8]) -> (r: String)
    ensures
        r@ == utf8_lossy(b@),
{
    String::from_utf8_lossy(b).into_owned()
}

/// A notice from the dialer thread about one connection. `S` is the type of
/// the connection's socket handle.
pub enum LinkEvt<S> {
    /// The connection answered; here is a handle to write to it.
    Established(ConnectionID, S),
    /// Every candidate address failed.
    CouldntEstablish(ConnectionID),
    /// Bytes read from the connection.
    Data(ConnectionID, Vec<u8>),
    /// Reading failed; the connection is dropped.
    Error(ConnectionID, String),
    /// The remote end closed the connection.
    Eof(ConnectionID),
}

/// A request to the dialer thread to connect, trying the candidate
/// addresses that one address resolved to.
pub struct ConnectionRequest<A> {
    pub addrs: Vec<A>,
    pub cid: ConnectionID,
}

/// The abstract state of a connection front end: the established
/// connections' handles, the next identifier, and each connection's bytes
/// not yet terminated by a separator.
pub struct FrontEndModel<S> {
    pub links: Map<ConnectionID, S>,
    pub next_id: nat,
    pub buffers: Map<ConnectionID, Seq<u8>>,
}

pub open spec fn pending_bytes<S>(m: FrontEndModel<S>, cid: ConnectionID) -> Seq<u8> {
    if m.buffers.contains_key(cid) {
        m.buffers[cid]
    } else {
        Seq::empty()
    }
}

/// One `ServerText` event per complete line, in order.
pub open spec fn text_events(lines: Seq<Seq<u8>>, cid: ConnectionID) -> Seq<EventView> {
    lines.map_values(|l: Seq<u8>| EventView::ServerText { line: utf8_lossy(l), which: cid })
}

pub open spec fn closed<S>(m: FrontEndModel<S>, cid: ConnectionID) -> FrontEndModel<S> {
    FrontEndModel { links: m.links.remove(cid), buffers: m.buffers.remove(cid), ..m }
}

pub open spec fn could_not_establish_reason() -> Seq<char> {
    "Could not establish connection"@
}

pub open spec fn link_error_reason(msg: Seq<char>) -> Seq<char> {
    "Link error: "@ + msg
}

pub open spec fn end_of_connection_reason() -> Seq<char> {
    "End of connection"@
}

/// The state after one notice, and the events it becomes.
pub open spec fn link_step<S>(m: FrontEndModel<S>, e: LinkEvt<S>) -> (FrontEndModel<S>, Seq<EventView>) {
    match e {
        LinkEvt::Established(cid, s) => (
            FrontEndModel { links: m.links.insert(cid, s), ..m },
            seq![EventView::ConnectionStart { which: cid }],
        ),
        LinkEvt::CouldntEstablish(cid) => (
            m,
            seq![EventView::ConnectionEnd { which: cid, reason: could_not_establish_reason() }],
        ),
        LinkEvt::Data(cid, bytes) => {
            let (lines, rest) = frame(pending_bytes(m, cid), bytes@);
            (FrontEndModel { buffers: m.buffers.insert(cid, rest), ..m }, text_events(lines, cid))
        },
        LinkEvt::Error(cid, msg) => (
            closed(m, cid),
            seq![EventView::ConnectionEnd { which: cid, reason: link_error_reason(msg@) }],
        ),
        LinkEvt::Eof(cid) => (
            closed(m, cid),
            seq![EventView::ConnectionEnd { which: cid, reason: end_of_connection_reason() }],
        ),
    }
}

/// The state after a sequence of notices, and the events they become, in order.
pub open spec fn link_run<S>(m: FrontEndModel<S>, evts: Seq<LinkEvt<S>>) -> (FrontEndModel<S>, Seq<EventView>)
    decreases evts.len(),
{
    if evts.len() == 0 {
        (m, Seq::empty())
    } else {
        let (m1, first) = link_step(m, evts[0]);
        let (mf, rest) = link_run(m1, evts.drop_first());
        (mf, first + rest)
    }
}

/// Every buffered fragment is unterminated.
pub open spec fn front_end_wf<S>(m: FrontEndModel<S>) -> bool {
    &&& m.next_id >= 1
    &&& forall|cid: ConnectionID| #[trigger] m.buffers.contains_key(cid) ==> unterminated(m.buffers[cid])
}

/// The consumer-side half of a connection manager: it hands out connection
/// identifiers, keeps the handles of established connections, and turns the
/// dialer thread's notices into line-framed events.
pub struct ConnectionFrontEnd<S> {
    links: HashMap<ConnectionID, S>,
    last_connection_id: ConnectionID,
    input_buffers: HashMap<ConnectionID, Vec<u8>>,
}

impl<S> View for ConnectionFrontEnd<S> {
    type V = FrontEndModel<S>;

    closed spec fn view(&self) -> FrontEndModel<S> {
        FrontEndModel {
            links: self.links@,
            next_id: self.last_connection_id as nat,
            buffers: self.input_buffers@.map_values(|b: Vec<u8>| b@),
        }
    }
}

impl<S> ConnectionFrontEnd<S> {
    pub open spec fn wf(&self) -> bool {
        front_end_wf(self@)
    }

    /// A front end with no connections. Identifiers start at 1: the dialer
    /// thread keeps 0 for its own wake-ups.
    pub fn new() -> (r: ConnectionFrontEnd<S>)
        ensures
            r.wf(),
            r@.links == Map::<ConnectionID, S>::empty(),
            r@.next_id == 1,
            r@.buffers == Map::<ConnectionID, Seq<u8>>::empty(),
    {
        let r = ConnectionFrontEnd { links: HashMap::new(), last_connection_id: 1, input_buffers: HashMap::new() };
        assert(r@.buffers =~= Map::<ConnectionID, Seq<u8>>::empty());
        r
    }

    /// Take the next identifier for a connection to the candidate addresses
    /// `addrs`, and return the request for the dialer thread. There is none
    /// once the identifiers are used up.
    pub fn start_connection<A>(&mut self, addrs: Vec<A>) -> (r: Option<ConnectionRequest<A>>)
        requires
            old(self).wf(),
        ensures
            final(self).wf(),
            final(self)@.links == old(self)@.links,
            final(self)@.buffers == old(self)@.buffers,
            old(self)@.next_id < usize::MAX <==> r is Some,
            match r {
                Some(req) => {
                    &&& req.cid == old(self)@.next_id
                    &&& req.addrs@ == addrs@
                    &&& final(self)@.next_id == old(self)@.next_id + 1
                },
                None => final(self)@.next_id == old(self)@.next_id,
            },
    {
        if self.last_connection_id == usize::MAX {
            return None;
        }
        let cid = self.last_connection_id;
        self.last_connection_id = self.last_connection_id + 1;
        assert(self@.buffers =~= old(self)@.buffers);
        Some(ConnectionRequest { addrs, cid })
    }

    /// The handle of the established connection `which`, if there is one.
    pub fn link(&self, which: ConnectionID) -> (r: Option<&S>)
        ensures
            match r {
                Some(s) => self@.links.contains_key(which) && *s == self@.links[which],
                None => !self@.links.contains_key(which),
            },
    {
        self.links.get(&which)
    }

    /// Turn the dialer's notices into events, in order.
    pub fn process_link_events(&mut self, evts: Vec<LinkEvt<S>>) -> (r: Vec<Event>)
        requires
            old(self).wf(),
        ensures
            final(self).wf(),
            (final(self)@, event_views(r@)) == link_run(old(self)@, evts@),
    {
        let mut out: Vec<Event> = Vec::new();
        let ghost batch = evts@;
        proof {
            assert(batch.skip(0) =~= batch);
            assert(event_views(out@) =~= Seq::<EventView>::empty());
            assert(Seq::<EventView>::empty() + link_run(old(self)@, batch).1 =~= link_run(old(self)@, batch).1);
        }
        for e in it: evts
            invariant
                self.wf(),
                it.seq() == batch,
                link_run(old(self)@, batch) == ({
                    let (mf, rest) = link_run(self@, batch.skip(it.index() as int));
                    (mf, event_views(out@) + rest)
                }),
        {
            let ghost before = self@;
            let ghost out_before = event_views(out@);
            let ghost tail = batch.skip(it.index() as int);
            assert(tail.drop_first() =~= batch.skip(it.index() + 1));
            assert(tail[0] == e);
            self.apply_link_event(e, &mut out);
            proof {
                let (m1, first) = link_step(before, e);
                let (mf, rest) = link_run(m1, tail.drop_first());
                assert(event_views(out@) =~= out_before + first);
                assert(out_before + (first + rest) =~= out_before + first + rest);
            }
        }
        proof {
            assert(batch.skip(batch.len() as int) =~= Seq::<LinkEvt<S>>::empty());
            assert(event_views(out@) + Seq::<EventView>::empty() =~= event_views(out@));
        }
        out
    }

    /// Act on one notice, appending the events it becomes to `out`.
    fn apply_link_event(&mut self, e: LinkEvt<S>, out: &mut Vec<Event>)
        requires
            old(self).wf(),
        ensures
            final(self).wf(),
            final(self)@ == link_step(old(self)@, e).0,
            event_views(final(out)@) == event_views(old(out)@) + link_step(old(self)@, e).1,
    {
        let ghost out_before = out@;
        match e {
            LinkEvt::Established(cid, s) => {
                self.links.insert(cid, s);
                out.push(Event::ConnectionStart { which: cid });
                proof {
                    assert(event_views(out@) =~= event_views(out_before) + seq![
                        EventView::ConnectionStart { which: cid },
                    ]);
                }
            },
            LinkEvt::CouldntEstablish(cid) => {
                out.push(
                    Event::ConnectionEnd {
                        which: cid,
                        reason: String::from_str("Could not establish connection"),
                    },
                );
                proof {
                    assert(event_views(out@) =~= event_views(out_before) + seq![
                        EventView::ConnectionEnd { which: cid, reason: could_not_establish_reason() },
                    ]);
                }
            },
            LinkEvt::Data(cid, bytes) => {
                let mut buffer = match self.input_buffers.remove(&cid) {
                    Some(b) => b,
                    None => Vec::new(),
                };
                let ghost pending = buffer@;
                assert(pending == pending_bytes(old(self)@, cid));
                let lines = frame_lines(&mut buffer, bytes.as_slice());
                let ghost line_views = lines@.map_values(|l: Vec<u8>| l@);
                let mut i: usize = 0;
                while i < lines.len()
                    invariant
                        i <= lines@.len(),
                        line_views == lines@.map_values(|l: Vec<u8>| l@),
                        event_views(out@) == event_views(out_before) + text_events(
                            line_views.take(i as int),
                            cid,
                        ),
                    decreases lines@.len() - i,
                {
                    let ghost prev = event_views(out@);
                    let line = lossy_text(lines[i].as_slice());
                    out.push(Event::ServerText { line, which: cid });
                    proof {
                        let ev = EventView::ServerText { line: utf8_lossy(line_views[i as int]), which: cid };
                        assert(event_views(out@) =~= prev.push(ev));
                        assert(text_events(line_views.take(i + 1), cid) =~= text_events(
                            line_views.take(i as int),
                            cid,
                        ).push(ev));
                        assert(line_views.take(i + 1) =~= line_views.take(i as int).push(
                            line_views[i as int],
                        ));
                        assert(event_views(out@) =~= event_views(out_before) + text_events(
                            line_views.take(i + 1),
                            cid,
                        ));
                    }
                    i = i + 1;
                }
                assert(line_views.take(lines@.len() as int) =~= line_views);
                self.input_buffers.insert(cid, buffer);
                proof {
                    assert(self@.buffers =~= old(self)@.buffers.insert(cid, buffer@));
                }
            },
            LinkEvt::Error(cid, msg) => {
                self.links.remove(&cid);
                self.input_buffers.remove(&cid);
                let reason = String::from_str("Link error: ").concat(msg.as_str());
                out.push(Event::ConnectionEnd { which: cid, reason });
                proof {
                    assert(self@.buffers =~= old(self)@.buffers.remove(cid));
                    assert(event_views(out@) =~= event_views(out_before) + seq![
                        EventView::ConnectionEnd { which: cid, reason: link_error_reason(msg@) },
                    ]);
                }
            },
            LinkEvt::Eof(cid) => {
                self.links.remove(&cid);
                self.input_buffers.remove(&cid);
                out.push(Event::ConnectionEnd { which: cid, reason: String::from_str("End of connection") });
                proof {
                    assert(self@.buffers =~= old(self)@.buffers.remove(cid));
                    assert(event_views(out@) =~= event_views(out_before) + seq![
                        EventView::ConnectionEnd { which: cid, reason: end_of_connection_reason() },
                    ]);
                }
            },
        }
    }
}

} // verus!
