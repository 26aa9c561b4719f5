//! A non-axiomatic reasoning engine: uncertain statements over named terms,
//! a belief store with pattern queries, and a catalogue of truth-propagating
//! inference rules.
//!
//! Truth values are integers in billionths (see [`truth`]); every truth
//! function is computed exactly until its last step, which rounds to the
//! nearest billionth. Where a formula would divide zero evidence by zero, the
//! result is frequency one half and confidence zero; a confidence that would
//! round to one is kept at the largest value below it. Values are shown with
//! two decimals, rounded half up.
//!
//! The store keeps a non-reference-counted index of terms: removing a
//! statement drops both of its terms from the index even where another
//! statement still uses them, and clearing the store leaves the index as it
//! is. Extension and intension start only from indexed terms.

pub mod config;
pub mod dispatch;
pub mod evaluation;
pub mod experience;
pub mod grammar;
pub mod inference;
pub mod instruction;
pub mod meaning;
pub mod notation;
pub mod repl;
pub mod text;
pub mod truth;
