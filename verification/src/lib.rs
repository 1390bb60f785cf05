//! Invoice scanning: turning QR payloads found in video frames into invoice
//! records, keeping them in a deduplicating store and matching them against
//! a target sum.

pub mod constants;
pub mod cv_pipeline;
pub mod cv_worker;
pub mod frame;
pub mod invoice;
pub mod qr_code;
