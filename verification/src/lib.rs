//! The logic of an EHCI debug bridge.
//!
//! The bridge is a USB debug device. A device under test writes its console to
//! it and polls it for input; the bridge carries both to a USB serial port, to
//! a TCP client, or to both.
//!
//! - [`ehci_debug`]: the debug device class and its control requests.
//! - [`queue`]: the byte queue between two sides of a bridge.
//! - [`fanout`]: the console output with two readers.
//! - [`bridge`]: the halves of a bridge, which read and write packets.
//! - [`server`]: the decisions of the TCP server.
//! - [`session`]: the TCP server with the two halves of its session.
//! - [`profile`]: how the bridge presents itself on USB and on the network.
//! - [`laws`]: what holds of whole runs of the parts.
//! - [`system`]: what holds of the bridges as a whole.

pub mod bridge;
pub mod ehci_debug;
pub mod fanout;
pub mod laws;
pub mod profile;
pub mod queue;
pub mod server;
pub mod session;
pub mod system;
