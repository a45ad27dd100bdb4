//! Core of a battery-status widget: parsing of the text that a power-query
//! tool prints for one device, classification of the tool's outcome, and a
//! persisted single-field configuration naming which device to query.
//!
//! The presentation layer (window, rendering, timers) is an external
//! collaborator: it asks for the configured device, runs the query, and
//! renders the record that [`telemetry::parse`] returns.

pub mod config;
pub mod fetch;
pub mod numeric;
pub mod telemetry;
pub mod text;
pub mod theme;
