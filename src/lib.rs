//! Line-oriented network client library: an event manager that serialises
//! notices from background workers, a line framer, the decision logic of a
//! connection dialer and its front end, and the text widgets of a terminal UI.

pub mod connection;
pub mod dialer;
pub mod events;
pub mod framing;
pub mod input;
pub mod keys;
pub mod meta;
pub mod screen;
pub mod text;

pub use connection::{ConnectionFrontEnd, ConnectionRequest, LinkEvt};
pub use dialer::{DialStep, Dialer, ReadOutcome, ReadReaction};
pub use events::{ManagerError, Notice, StateNotice, Step, ThreadedManager, WorkerExit};
pub use framing::frame_lines;
pub use input::{InputLine, Window};
pub use keys::{handle_key, Key};
pub use meta::{ConnectionID, ConnectionInterface, Event, EventManager, EventSource, UserInterface, WindowID};
pub use screen::{DamageBuffer, Point};
pub use text::force_width;
