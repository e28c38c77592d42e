//! The host-side command line: what each verb reads from its arguments, decides and says.

pub mod args;
pub mod ceremony;
pub mod compile;
pub mod dispatch;
pub mod install;
pub mod key;
pub mod keygen;
pub mod misc;
pub mod oci;
pub mod options;
pub mod policy;
pub mod report;
pub mod review;
pub mod rotation;
pub mod run;
pub mod runtime;
pub mod session;
pub mod shared;
pub mod signed;
pub mod tree;
