//! Impact risk of near-Earth objects: a description of an asteroid is
//! validated, its impact energy is computed, and the energy is mapped to a
//! score from 0 to 100 and one of four tiers.
//!
//! Numbers are IEEE 754 binary64 values held as their encodings, and every
//! operation on them is computed on whole numbers: what a result is, bit for
//! bit, is stated in each contract and proved.
pub mod arithmetic;
pub mod binary64;
pub mod domain;
pub mod dto;
pub mod logic;
pub mod pipeline;
pub mod rounding;
