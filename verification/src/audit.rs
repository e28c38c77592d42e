//! Audit: one event from its source to the sinks.
//!
//! A source builds an [`event::Event`]; the [`writer::Writer`] filters it by the level of its
//! class, stamps the envelope, cleans the untrusted strings once and hands the rendered
//! [`render::Record`] to every sink. The modules below also hold what each sink does with a
//! record before any I/O: encodings, file names, rotation, retention and framing.

pub mod assembly;
pub mod event;
pub mod journald;
pub mod json;
pub mod message_ids;
pub mod render;
pub mod sinks;
pub mod time;
pub mod timeout;
pub mod writer;
