//! Core engine of a terminal network monitor.
//!
//! The crate models and verifies the data side of the monitor: the
//! connection snapshot and its diff into lifecycle events, the packet
//! snippet extractor and its bounded ring, the reverse-DNS cache, the
//! speed sampler, and the sorting and filtering rules of the views.
//! The operating-system readers (socket tables, raw sockets, process
//! queries) live outside the crate and hand it plain values.

pub mod assemble;
pub mod clock;
pub mod dns;
pub mod filter;
pub mod monitor;
pub mod net;
pub mod sniffer;
pub mod sort;
pub mod speed;
pub mod text;
pub mod tracker;
pub mod types;
