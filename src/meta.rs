use vstd::prelude::*;

verus! {

/// Identifies one network connection for its whole lifetime; never reused.
pub type ConnectionID = usize;

/// Identifies one window of the user interface.
pub type WindowID = usize;

/// What the consumer loop is told about.
#[derive(Debug, Clone, PartialEq, Eq)]
pub enum Event {
    /// A line typed into a window of the user interface.
    UserInput { line: String, which: WindowID },
    /// A complete line received on a connection, without its separator.
    ServerText { line: String, which: ConnectionID },
    /// A connection answered and is now established.
    ConnectionStart { which: ConnectionID },
    /// A connection ended, or could not be established.
    ConnectionEnd { which: ConnectionID, reason: String },
    /// A source failed fatally.
    InternalError { what: String },
    /// The user asked to quit.
    QuitRequest,
}

/// An event as contracts see it: its text as characters.
pub enum EventView {
    UserInput { line: Seq<char>, which: WindowID },
    ServerText { line: Seq<char>, which: ConnectionID },
    ConnectionStart { which: ConnectionID },
    ConnectionEnd { which: ConnectionID, reason: Seq<char> },
    InternalError { what: Seq<char> },
    QuitRequest,
}

impl View for Event {
    type V = EventView;

    open spec fn view(&self) -> EventView {
        match self {
            Event::UserInput { line, which } => EventView::UserInput { line: line@, which: *which },
            Event::ServerText { line, which } => EventView::ServerText { line: line@, which: *which },
            Event::ConnectionStart { which } => EventView::ConnectionStart { which: *which },
            Event::ConnectionEnd { which, reason } => EventView::ConnectionEnd {
                which: *which,
                reason: reason@,
            },
            Event::InternalError { what } => EventView::InternalError { what: what@ },
            Event::QuitRequest => EventView::QuitRequest,
        }
    }
}

/// The views of a sequence of events.
pub open spec fn event_views(events: Seq<Event>) -> Seq<EventView> {
    events.map_values(|e: Event| e@)
}

/// An event-producing subsystem. Its workers run in background threads and
/// page the event manager; `process` then runs on the consumer's thread and
/// turns what the workers buffered into events, in the order they occurred.
pub trait EventSource {
    fn process(&mut self) -> Vec<Event>;
}

/// Runs sources of type `S` and hands their events to one consumer.
pub trait EventManager<S> {
    /// Register a source and start its workers; returns its identifier.
    fn start_source(&mut self, src: S) -> usize;

    /// The next event, waiting for one if none is queued; an error once
    /// none can ever come.
    fn next_event(&mut self) -> Result<Event, String>;
}

/// Opens, writes to and stops connections to one kind of server. The
/// address has an implementation-defined format.
pub trait ConnectionInterface {
    fn start_connection(&mut self, address: String) -> Result<ConnectionID, String>;

    fn stop_connection(&mut self, which: ConnectionID) -> Result<(), ()>;

    fn write_to_connection(&mut self, which: ConnectionID, what: String) -> Result<(), ()>;
}

/// Shows text to the user. Windows are named; sending text to a new name
/// creates that window.
pub trait UserInterface {
    fn push_to_window(&mut self, window: String, line: String) -> Result<(), ()>;

    fn register_command(&mut self, c: String);
}

} // verus!
