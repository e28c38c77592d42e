//! Composing a leaf policy: from a program that is probed, or from templates and answers.
//!
//! What is composed is a start: the operator reviews and tightens it.

pub mod arguments;
pub mod leaf;
pub mod probe;
pub mod questionnaire;
pub mod templates;
