//! The failures the engine reports to its caller.

use vstd::prelude::*;

verus! {

/// The registry holds no index of the requested type.
#[derive(Debug, Clone, PartialEq, Eq)]
pub struct IndexNotFoundError {
    pub description: String,
}

impl IndexNotFoundError {
    /// The text every lookup failure carries.
    pub open spec fn message() -> Seq<char> {
        "Can not find Vector Index"@
    }

    /// The error of a lookup that found no index.
    pub fn new() -> (e: Self)
        ensures
            e.description@ == Self::message(),
    {
        IndexNotFoundError { description: "Can not find Vector Index".to_owned() }
    }

    /// The text of the error.
    pub fn description(&self) -> (s: &str)
        ensures
            s@ == self.description@,
    {
        self.description.as_str()
    }

    /// The text of the error, owned.
    pub fn to_string(&self) -> (s: String)
        ensures
            s@ == self.description@,
    {
        self.description.clone()
    }
}

/// Why an operation on an index or on the registry failed.
#[derive(Debug, Clone, PartialEq, Eq)]
pub enum IndexError {
    /// No index of the requested type has been initialized.
    IndexNotFound(IndexNotFoundError),
    /// The index type names no index algorithm.
    UnknownIndexType,
    /// A vector's length differs from the dimension of the index.
    DimensionMismatch,
    /// The identifier is already stored in the index.
    DuplicateId,
    /// The index does not offer the operation.
    UnsupportedOperation,
    /// The scored candidates handed to a search do not fit the index.
    InvalidCandidates,
    /// The index cannot number another vector.
    CapacityExceeded,
}

impl IndexError {
    /// The text that describes each kind of failure.
    pub open spec fn message(self) -> Seq<char> {
        match self {
            IndexError::IndexNotFound(e) => e.description@,
            IndexError::UnknownIndexType => "Unknown Index type"@,
            IndexError::DimensionMismatch => "Vector length does not match the index dimension"@,
            IndexError::DuplicateId => "Identifier is already stored in the index"@,
            IndexError::UnsupportedOperation => "Operation is not supported by this index"@,
            IndexError::InvalidCandidates => "Scored candidates do not fit the index"@,
            IndexError::CapacityExceeded => "Index cannot number another vector"@,
        }
    }

    /// The text of the error, owned.
    pub fn to_string(&self) -> (s: String)
        ensures
            s@ == self.message(),
    {
        match self {
            IndexError::IndexNotFound(e) => e.to_string(),
            IndexError::UnknownIndexType => "Unknown Index type".to_owned(),
            IndexError::DimensionMismatch => "Vector length does not match the index dimension".to_owned(),
            IndexError::DuplicateId => "Identifier is already stored in the index".to_owned(),
            IndexError::UnsupportedOperation => "Operation is not supported by this index".to_owned(),
            IndexError::InvalidCandidates => "Scored candidates do not fit the index".to_owned(),
            IndexError::CapacityExceeded => "Index cannot number another vector".to_owned(),
        }
    }
}

} // verus!
