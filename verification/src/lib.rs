//! The core of a task list manager: an ordered task collection, its
//! mutation operations, and the calendar arithmetic that advances
//! recurring tasks when they are completed.
//!
//! The crate is organised around five pieces:
//! - [`model`] defines the task records and their views;
//! - [`dates`] holds the proleptic-Gregorian calendar arithmetic;
//! - [`recurrence`] computes the next occurrence of a recurring task;
//! - [`store`] owns the ordered task collection and its mutation operations;
//! - [`lookup`] decides what a postal-code lookup response yields.

pub mod dates;
pub mod model;
pub mod recurrence;
pub mod store;
pub mod lookup;
