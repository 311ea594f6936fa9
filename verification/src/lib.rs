//! Elapsed-time stamps for line-oriented output: a format string with
//! placeholders such as `%H`, `%M`, `%S` and `%.3f` is compiled once into a
//! template, and the template is rendered against a duration for every line.
//!
//! - [`digits`]: decimal text of numbers, plain and zero-padded.
//! - [`token`]: the placeholders and the text each one stands for.
//! - [`grammar`]: where placeholders begin in a text, and how a format string
//!   falls apart into literal segments and placeholders.
//! - [`elapsed`]: spans of elapsed time.
//! - [`fmt_duration`]: compiled format strings and their rendering.
//! - [`dispatch`]: the stamping modes and the reference point of a stamp.

pub mod digits;
pub mod token;
pub mod grammar;
pub mod elapsed;
pub mod fmt_duration;
pub mod dispatch;
