//! Text passes that tidy generated ImPlot bindings: derive attributes are put
//! back on a few structs, and enum variants lose the enum's own name.
//!
//! Text is modelled as a sequence of characters; every offset is a count of
//! characters.

pub mod derive;
pub mod names;
pub mod region;
pub mod request;
pub mod strip;
pub mod text;

use vstd::prelude::*;
use crate::derive::{inject_derives, with_derives};
use crate::names::{regex_first_groups, ENUM_HEADER_PATTERN};
use crate::strip::{outcome, strip_enum_names, strip_spec, StripError};

verus! {

/// The generated bindings as they are written out: first the derive
/// attributes are put back, then every enum's name is stripped from its
/// variants.
pub fn postprocess(bindings: &str) -> (result: Result<String, StripError>)
    ensures
        outcome(result) == strip_spec(
            with_derives(bindings@),
            regex_first_groups(ENUM_HEADER_PATTERN@, with_derives(bindings@)),
        ),
{
    let derived = inject_derives(bindings);
    strip_enum_names(derived.as_str())
}

} // verus!
