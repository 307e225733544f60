//! batsim: verified core of a residential battery fleet simulator's
//! device registry and HTTP control plane.

pub mod text;
pub mod kinds;
pub mod violation;
pub mod entry_checks;
pub mod catalog;
pub mod xref;
pub mod system;
pub mod composition;
pub mod digest;
pub mod error;
pub mod integrity;
pub mod problem;
pub mod api;
pub mod clock;
pub mod sim;
pub mod audit;
pub mod idem;
pub mod config;
pub mod auth;
pub mod codec;
pub mod dispatch;
pub mod fields;
pub mod telemetry;
pub mod listing;
pub mod load;
pub mod runs;
pub mod retention;
