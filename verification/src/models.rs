//! What a conversion request holds.

use vstd::prelude::*;
use serde_json::Value;

verus! {

/// `serde_json::Value`, carried through as it came. The library never looks
/// into one.
#[verifier::external_type_specification]
#[verifier::external_body]
pub struct ExValue(Value);

/// A request to convert MJML to HTML. The MJML is given in the request, or
/// by the name of a template below the template directory; `payload` holds
/// the values for the placeholders and is handed to the template engine as
/// it came.
pub struct MjmlInput {
    pub mjml: Option<String>,
    pub payload: Value,
    pub template: Option<String>,
}

} // verus!
