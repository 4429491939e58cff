//! Requests to servers of HTTP, described in a document: the texts of a task
//! may name variables, which are resolved before the task is sent.
//!
//! - `placeholder`: what a placeholder is, and the scanner that cuts a text
//!   into pieces.
//! - `interpolation`: replacing placeholders by values, and resolving the
//!   values of a store that refer to each other.
//! - `laws`: what holds of interpolation and resolution, proved.
//! - `model`: tasks over plain texts, and what interpolating them means.
//! - `data`, `json`, `task`: the tasks themselves.
//! - `decode`: making tasks of what a document holds, and refusing what is
//!   not well defined.
//! - `request`: the parameters of the exchange that a task describes.
//! - `curl`: the same exchange as a call of curl.
//! - `strmap`, `text`, `keyval`: maps with texts as keys, and helpers on texts.

pub mod curl;
pub mod data;
pub mod decode;
pub mod interpolation;
pub mod json;
pub mod keyval;
pub mod laws;
pub mod model;
pub mod placeholder;
pub mod request;
pub mod strmap;
pub mod task;
pub mod text;
