//! State tracking for live surveys that are voted on with emoji reactions.
//!
//! A [`survey::Survey`] holds a question, its answers and their vote counts.
//! A [`registry::SurveyMap`] finds the survey that a chat message shows, and
//! the functions of [`events`] turn reaction events into vote changes and
//! into the text that the message should show afterwards. [`alphabet`] has
//! the symbols that answers are voted for with, and [`text`] the pieces that
//! the shown text is built from. [`rows`] is the model that the contracts
//! speak of.
//!
//! The library keeps no lock of its own. Whoever shares a registry between
//! tasks holds one lock around each call that changes it; the text to send
//! comes back as a value, so that the lock can be given back before anything
//! is sent.

pub mod alphabet;
pub mod events;
pub mod registry;
pub mod rows;
pub mod survey;
pub mod text;
