//! Verified core of the Mira screen-sharing host: the signalling room router,
//! the viewer admission rules, the admin control-plane checks, the
//! configuration model and the frame colour conversion.

pub mod admin;
pub mod auth;
pub mod capture;
pub mod config;
pub mod text;
pub mod keyed;
pub mod signaller;
pub mod signaller_laws;
