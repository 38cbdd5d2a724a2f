use vstd::prelude::*;

verus! {

/// Every way an operation of this crate can fail.
///
/// The variants fall into three classes: configuration faults
/// (`TagVectorMismatch`, `WeightSumOff`, `BadDuration`) are fatal before the
/// control loop starts; data faults (`UnknownTag`, `EmptyCatalog`,
/// `NoWeightedTag`) abort the affected operation; invariant faults
/// (`MassNotOne`, `NoDrawIndex`) signal a bug in distribution construction
/// and are never masked.
#[derive(Clone, Copy, Debug, PartialEq, Eq, Structural)]
pub enum CoreError {
    /// The tag, weight and due-date-flag vectors do not all have one length.
    TagVectorMismatch,
    /// The prior tag weights do not sum to the full mass within tolerance.
    WeightSumOff,
    /// A phase duration or break bound is zero or beyond the supported range.
    BadDuration,
    /// A task names a tag that the configuration does not list.
    UnknownTag,
    /// No tag has any eligible task left.
    EmptyCatalog,
    /// Every tag is empty or carries zero prior weight, so no mass can move.
    NoWeightedTag,
    /// A distribution handed to the sampler does not sum to the full mass.
    MassNotOne,
    /// No index of the cumulative distribution lies above the drawn value.
    NoDrawIndex,
}

/// The error taxonomy: which class a fault belongs to.
#[derive(Clone, Copy, Debug, PartialEq, Eq, Structural)]
pub enum ErrorClass {
    /// Rejected settings; surfaced before the control loop starts.
    Configuration,
    /// Bad or exhausted task data; fatal for the affected operation.
    Data,
    /// A broken internal invariant; indicates a bug, fails loudly.
    Invariant,
}

impl CoreError {
    /// The class a fault belongs to.
    pub fn class(&self) -> (c: ErrorClass)
        ensures
            c == self.spec_class(),
    {
        match self {
            CoreError::TagVectorMismatch => ErrorClass::Configuration,
            CoreError::WeightSumOff => ErrorClass::Configuration,
            CoreError::BadDuration => ErrorClass::Configuration,
            CoreError::UnknownTag => ErrorClass::Data,
            CoreError::EmptyCatalog => ErrorClass::Data,
            CoreError::NoWeightedTag => ErrorClass::Data,
            CoreError::MassNotOne => ErrorClass::Invariant,
            CoreError::NoDrawIndex => ErrorClass::Invariant,
        }
    }

    /// Specification twin of [`CoreError::class`].
    pub open spec fn spec_class(self) -> ErrorClass {
        match self {
            CoreError::TagVectorMismatch => ErrorClass::Configuration,
            CoreError::WeightSumOff => ErrorClass::Configuration,
            CoreError::BadDuration => ErrorClass::Configuration,
            CoreError::UnknownTag => ErrorClass::Data,
            CoreError::EmptyCatalog => ErrorClass::Data,
            CoreError::NoWeightedTag => ErrorClass::Data,
            CoreError::MassNotOne => ErrorClass::Invariant,
            CoreError::NoDrawIndex => ErrorClass::Invariant,
        }
    }
}

} // verus!
