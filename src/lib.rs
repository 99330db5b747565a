//! Retail discount commitments: a customer's pledges, their validity windows,
//! the withdrawal chain between them and the purchase ledger each one keeps.

pub mod calendar;
pub mod commitment;

pub use calendar::Timestamp;
pub use commitment::{Commitment, CommitmentError, CommitmentStatus, Customer, PurchaseInfo};
