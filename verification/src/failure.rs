//! The kinds of failure that end a refresh cycle.

use vstd::prelude::*;

verus! {

/// Why a refresh cycle produced no plan list.
#[derive(Clone, Copy, Debug, PartialEq, Eq, Structural)]
pub enum RefreshError {
    /// The outbound request failed.
    NetworkFailure,
    /// The response body could not be decoded as a structural document.
    DecodeFailure,
    /// The document has no list of plan categories.
    CategoriesMissing,
    /// A category has no label.
    CategoryTypeMissing,
    /// A category has no list of sub-categories.
    SubCategoriesMissing,
    /// A sub-category has no list of plans.
    PlansMissing,
    /// A plan lacks its details, its name or its amount, one of its numbers
    /// does not read as a number, or its price is zero over zero days or
    /// over no data.
    PlanStructureMissing,
    /// A plan has no description.
    DescriptionMissing,
}

impl RefreshError {
    /// The name of the kind, as it is shown to a reader.
    pub open spec fn label(self) -> Seq<char> {
        match self {
            RefreshError::NetworkFailure => "NetworkFailure"@,
            RefreshError::DecodeFailure => "DecodeFailure"@,
            RefreshError::CategoriesMissing => "CategoriesMissing"@,
            RefreshError::CategoryTypeMissing => "CategoryTypeMissing"@,
            RefreshError::SubCategoriesMissing => "SubCategoriesMissing"@,
            RefreshError::PlansMissing => "PlansMissing"@,
            RefreshError::PlanStructureMissing => "PlanStructureMissing"@,
            RefreshError::DescriptionMissing => "DescriptionMissing"@,
        }
    }

    /// The name of the kind.
    pub fn kind_name(&self) -> (r: &'static str)
        ensures
            r@ == self.label(),
    {
        match self {
            RefreshError::NetworkFailure => "NetworkFailure",
            RefreshError::DecodeFailure => "DecodeFailure",
            RefreshError::CategoriesMissing => "CategoriesMissing",
            RefreshError::CategoryTypeMissing => "CategoryTypeMissing",
            RefreshError::SubCategoriesMissing => "SubCategoriesMissing",
            RefreshError::PlansMissing => "PlansMissing",
            RefreshError::PlanStructureMissing => "PlanStructureMissing",
            RefreshError::DescriptionMissing => "DescriptionMissing",
        }
    }
}

} // verus!
