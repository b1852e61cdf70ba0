//! Decisions of a TCP port checker: reading the command line, expanding a
//! network block, judging what a probe found, freeing a busy port, and
//! walking every address and port of a request in order.
//!
//! Nothing here touches a socket or a process. A caller performs each
//! action that a scan asks for and hands back what happened.

pub mod network;
pub mod probe;
pub mod reclaim;
pub mod report;
pub mod request;
pub mod scan;
pub mod text;
