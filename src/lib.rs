//! Allocation of customer order-lines to stock batches.
//!
//! A [`domain::Batch`] holds one lot of stock for one SKU and records the
//! orders it has served; a [`domain::BatchAllocator`] ranks its batches
//! (warehouse stock first, then shipments by arrival date) and hands an
//! order-line to the best-ranked one.

pub mod date;
pub mod domain;
pub mod lemmas;
pub mod pojo;
