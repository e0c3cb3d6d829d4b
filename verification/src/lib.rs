//! Verified core of a desktop PDF signer.
use vstd::prelude::*;

pub mod application;
pub mod certs;
pub mod config;
pub mod contracts;
pub mod desktop;
pub mod envelope;
pub mod selection;
pub mod session;
pub mod text;
pub mod tray_flow;
pub mod token;
pub mod ws;
pub mod logger;
pub mod pdf;
pub mod pdf_structure;
pub mod report;
pub mod appearance;
pub mod byte_range;

verus! {

} // verus!
