//! `spec`: the version string of the spec.

use vstd::prelude::*;
use crate::json::{member, non_null, Json, JsonV};

verus! {

/// The `openapi` member when present and not `null`, else the `swagger` one, else `null`.
pub open spec fn spec_version(spec: JsonV) -> JsonV {
    match non_null(member(spec, "openapi"@)) {
        Some(v) => v,
        None => match non_null(member(spec, "swagger"@)) {
            Some(v) => v,
            None => JsonV::Null,
        },
    }
}

/// `spec`: the value of `openapi` (3.x) or `swagger` (2.0), `null` when neither is there.
pub fn run(spec: &Json) -> (r: Json)
    ensures
        r@ == spec_version(spec@),
{
    if let Some(v) = spec.get("openapi") {
        if !v.is_null() {
            return v.deep_clone();
        }
    }
    if let Some(v) = spec.get("swagger") {
        if !v.is_null() {
            return v.deep_clone();
        }
    }
    Json::Null
}

} // verus!
