//! Verified core of the AMAX usage dashboard: error contract, hex codec,
//! alert rule selection, delivery-channel configuration and validation,
//! cookie handling and date-range checks.

pub mod error;
pub mod text;
pub mod crypto;
pub mod alert;
pub mod deliver;
pub mod login;
pub mod dates;
pub mod settings;
pub mod schedule;
pub mod usage;
