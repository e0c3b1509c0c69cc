//! The OpenAPI description of the site's endpoints.
use vstd::prelude::*;

verus! {

/// The OpenAPI document of the site's endpoints; the program derives its
/// description from the endpoints' annotations.
pub struct ApiDoc;

} // verus!
