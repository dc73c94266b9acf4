use crate::binary64::Binary64;
use vstd::prelude::*;

verus! {

/// Why a description of an asteroid was turned down. Every variant is the
/// caller's to mend; none is worth a second try with the same input.
#[derive(Debug, Clone, PartialEq)]
pub enum DomainError {
    /// The id is empty or holds white space only.
    InvalidId,
    /// The average diameter, in kilometres, is not above zero.
    InvalidDiameter(Binary64),
    /// The relative velocity, in kilometres per second, is below zero.
    InvalidVelocity(Binary64),
    /// The description has no close approach.
    MissingCloseApproachData,
    /// The named field is missing or out of bounds.
    InvalidField(&'static str),
    /// The named field holds a value that no physical quantity can have.
    NonPhysicalValue { field: &'static str, value: Binary64 },
}

/// A [`DomainError`] with each field name as its sequence of characters.
pub ghost enum DomainErrorView {
    InvalidId,
    InvalidDiameter(Binary64),
    InvalidVelocity(Binary64),
    MissingCloseApproachData,
    InvalidField(Seq<char>),
    NonPhysicalValue { field: Seq<char>, value: Binary64 },
}

impl View for DomainError {
    type V = DomainErrorView;

    open spec fn view(&self) -> DomainErrorView {
        match *self {
            DomainError::InvalidId => DomainErrorView::InvalidId,
            DomainError::InvalidDiameter(d) => DomainErrorView::InvalidDiameter(d),
            DomainError::InvalidVelocity(v) => DomainErrorView::InvalidVelocity(v),
            DomainError::MissingCloseApproachData => DomainErrorView::MissingCloseApproachData,
            DomainError::InvalidField(name) => DomainErrorView::InvalidField(name@),
            DomainError::NonPhysicalValue { field, value } => DomainErrorView::NonPhysicalValue {
                field: field@,
                value,
            },
        }
    }
}

} // verus!
