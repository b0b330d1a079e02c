use vstd::prelude::*;

verus! {

/// Names the classifier that an error speaks about: one of the four named
/// classes, or an additional class by its position in `others`.
#[derive(Debug, Clone, Copy, PartialEq, Eq, Structural)]
pub enum ClassifierId {
    Uppercase,
    Lowercase,
    Number,
    Symbol,
    Other(usize),
}

/// A password specification that can never be satisfied.
#[derive(Debug, Clone, Copy, PartialEq, Eq, Structural)]
pub enum ValidationError {
    /// A classifier offers no candidates yet demands a positive minimum.
    EmptyPoolWithMinimum { classifier: ClassifierId, minimum_count: u32 },
    /// The minimum counts together ask for more characters than fit.
    MinimumExceedsLength { total_min: u128, length: u32 },
}

/// Why a password could not be generated.
#[derive(Debug, Clone, Copy, PartialEq, Eq, Structural)]
pub enum GenerationError {
    /// The specification failed validation; the cause is kept unchanged.
    Validation(ValidationError),
    /// The assembled candidate pool is empty while the length is positive.
    NoCandidates,
}

/// Why a batch of passwords could not be produced from raw options.
#[derive(Debug, Clone, PartialEq, Eq)]
pub enum PasswordsError {
    /// The named encoding is not recognised; the message is carried along.
    Encoding(String),
    /// Password generation itself failed.
    Generation(GenerationError),
}

} // verus!
