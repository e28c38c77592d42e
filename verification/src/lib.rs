//! Kennel: the decisions of a sandbox's host-side tools, verified.
//!
//! A kennel confines a workload to what a signed policy grants. The tools around it read arguments,
//! configuration and wire formats, decide what may be done and say what was done. This crate holds
//! all of that as functions on plain values, with contracts that say exactly what each returns; what
//! touches the system (files, sockets, devices, other programs) is done by the program that calls
//! them.
//!
//! - [`cli`]: the verbs of the command line, from `run` and `review` to keys, policies and images.
//! - [`compose`]: the composer of leaf policies.
//! - [`config`]: the layered configuration.
//! - [`entry`]: the environment and the command of an image's launcher.
//! - [`audit`]: events, their records, and the sinks that keep them.
//! - [`binder`]: the codec of the binder command stream, and the decisions of its endpoints.
//! - [`broker`]: the sessions of the D-Bus broker.
//! - [`net`]: the messages of the network delegates.
//! - [`bpf`]: maps, programs and the linking of the BPF loader.
//!
//! The rest are the means: [`text`], [`words`], [`decimal`], [`path`], [`order`], [`layout`] and
//! [`wire`] hold texts, numbers, paths, orders, tables and byte layouts as sequences.
//!
//! Statements that span several functions are public proof functions whose names begin with `law_`.

pub mod audit;
pub mod binder;
pub mod bpf;
pub mod broker;
pub mod cli;
pub mod compose;
pub mod config;
pub mod decimal;
pub mod entry;
pub mod layout;
pub mod net;
pub mod order;
pub mod path;
pub mod text;
pub mod wire;
pub mod words;
