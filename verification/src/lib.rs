//! Device lifecycle and job routing for a badge check-in kiosk.
//!
//! Hot-pluggable card readers produce badge-tap events; each successful
//! check-in is printed as a label on a thermal printer. This crate holds the
//! verified bookkeeping behind that flow: the printer registry built at
//! startup, the reader assignment table with its two assignment policies
//! (static round-robin and a dynamic claim/release pool), the per-tap
//! dispatch decision, the bounded job queue of the streaming deployment, and
//! the read-only status snapshot. Hardware access, networking and rendering
//! live outside the crate and hand plain values in and out.

pub mod dispatch;
pub mod pool;
pub mod queue;
pub mod reader;
pub mod registry;
pub mod roundrobin;
pub mod snapshot;
