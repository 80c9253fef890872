//! Incremental search-and-select engine for picking an SSH host.
//!
//! The engine reads host records from the text of an SSH client
//! configuration (`hosts`), ranks them against a query as the query is typed
//! (`ranking`, with `similarity` and `keymap`), and keeps the state of one
//! interactive session: query, ranked list, highlight, scroll position and
//! clicks (`session`, fed from `input`). Drawing, waiting for input and
//! starting the SSH client are left to the program around it.
//!
//! Contracts speak of texts as sequences of characters and of records by
//! their views. What holds of every reading, ranking and step is proved in
//! `hosts_laws`, `ranking_laws` and `session_laws`.

pub mod home;
pub mod hosts;
pub mod hosts_laws;
pub mod input;
pub mod keymap;
pub mod ranking;
pub mod ranking_laws;
pub mod session;
pub mod session_laws;
pub mod similarity;
pub mod text;
