//! Reminders tagged with an embedded `@` marker: the marker grammar, the
//! resolution of a marker into a minute-granular timestamp, the event store,
//! and the decisions of the inbound handler and of the due-event scanner.

pub mod marker;
pub mod stamp;
pub mod store;
pub mod handler;
pub mod scanner;
