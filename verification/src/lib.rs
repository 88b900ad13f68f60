//! Host side of the vendor protocol spoken by the TB-4117-3/S thermal camera
//! module (USB 2bdf:0101).
//!
//! The camera advertises uncompressed video but always streams 240x320 MJPEG
//! over a bulk endpoint, and answers thermometry commands through a vendor
//! extension unit. This crate holds everything about that exchange except the
//! USB transfers themselves: which transfer comes next, what a reply means,
//! how frames are put together, and how temperatures are read. Callers carry
//! out the transfers.
#![allow(unused_imports)]

pub mod args;
pub mod compensation;
pub mod inspect;
pub mod probe;
pub mod query;
pub mod radiometric;
pub mod readout;
pub mod roi;
pub mod session;
pub mod stream;
pub mod survey;
pub mod text;
pub mod transaction;
pub mod transfer;
pub mod trial;
pub mod wire;
