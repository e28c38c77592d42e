//! Binder: the command-stream codec and what an endpoint decides on it.
//!
//! A `BINDER_WRITE_READ` exchange carries `BC_*` commands to the driver and `BR_*` commands back.
//! [`proto`] writes the first and reads the second; [`client`] holds the decisions of a call and
//! of a reply; [`service`] holds the verbs and status bytes of the node-0 protocol.

pub mod client;
pub mod proto;
pub mod service;
