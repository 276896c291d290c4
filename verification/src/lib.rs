//! Rental marketplace logic: property listings, the booking state machine,
//! and on-chain style reviews with reputation scores.

pub mod bytes;
pub mod rental;
pub mod review;
