pub mod asteroid;
pub mod error;
pub mod risk;
