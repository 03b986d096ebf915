//! What the operations of the library are for, stated of all inputs.
pub mod files;
pub mod flashes;
pub mod keys;
pub mod looks;
pub mod matches;
pub mod motion;
pub mod moves;
pub mod numbers;
pub mod output;
pub mod recoloring;
pub mod records;
pub mod screens;
pub mod setup;
pub mod streams;
pub mod texts;
pub mod updates;
pub mod wishes;
