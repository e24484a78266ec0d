use vstd::prelude::*;

verus! {

/// The ways a reconciliation over recipes can fail.
#[derive(Debug, Clone, Copy, PartialEq, Eq, Structural)]
pub enum RecipeError {
    /// An ingredient carries neither an unlocalized nor a localized name.
    MissingIdentity,
    /// Fewer recipes were supplied than the computation needs.
    EmptyRecipeSet,
}

} // verus!
