//! An in-memory message relay: peers register under a name, send lines of
//! the form `<dest1>,<dest2>,...:<body>`, and a single router delivers each
//! line to the mailboxes of the registered destinations.

pub mod laws;
pub mod message;
pub mod payload;
pub mod registry;
pub mod router;
pub mod session;
pub mod text;
pub mod writer;
