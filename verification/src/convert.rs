//! Turning a caller's element into the canonical one.

use crate::error::ConversionError;
use crate::ply::{DefaultElement, ElementDef, ElementDefView, ElementView};
use vstd::prelude::*;

verus! {

/// The mathematical value of the outcome of a conversion.
pub open spec fn outcome_view(
    outcome: Result<DefaultElement, ConversionError>,
) -> Result<ElementView, Seq<char>> {
    match outcome {
        Ok(element) => Ok(element@),
        Err(e) => Err(e@),
    }
}

/// An element of the caller's own making that can be written: it converts
/// into the canonical element for a given definition, or says why not.
pub trait ToElement<P> {
    /// What the conversion yields for this value and this definition.
    spec fn element_for(&self, element_def: ElementDefView) -> Result<ElementView, Seq<char>>;

    /// Converts this value for the given definition.
    fn to_element(&self, element_def: &ElementDef) -> (result: Result<
        DefaultElement,
        ConversionError,
    >)
        ensures
            outcome_view(result) == self.element_for(element_def@),
    ;
}

impl ToElement<DefaultElement> for DefaultElement {
    /// The canonical element converts into itself.
    open spec fn element_for(&self, element_def: ElementDefView) -> Result<ElementView, Seq<char>> {
        Ok(self@)
    }

    fn to_element(&self, element_def: &ElementDef) -> (result: Result<
        DefaultElement,
        ConversionError,
    >) {
        let copy = self.clone();
        assert(copy@ =~= self@);
        Ok(copy)
    }
}

} // verus!
