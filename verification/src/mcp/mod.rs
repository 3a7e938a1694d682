//! The tools that the server offers to its clients.

pub mod acsl;
pub mod annotations;
pub mod chain;
pub mod conclusions;
pub mod gates;
pub mod inject;
pub mod inspect;
pub mod param_compat;
pub mod paths;
pub mod process;
pub mod properties;
pub mod reports;
pub mod request;
pub mod routing;
pub mod sandbox;
pub mod scheduling;
pub mod script;
pub mod status;
pub mod types;
pub mod wp;
