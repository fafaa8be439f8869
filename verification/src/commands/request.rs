//! `request`: the `requestBody` of one operation, `$ref`s resolved.

use vstd::prelude::*;
use crate::commands::operations::{found, in_place, lookup_error, opt_str_view, origin_in, origin_with, resolve_in_place, resolve_lookup};
use crate::error::OadigError;
use crate::json::{cloned_or_null, member, Json, JsonV};
use crate::resolver::ResolveOptions;

verus! {

/// A value, or `null` when absent.
pub open spec fn or_null(v: Option<JsonV>) -> JsonV {
    match v {
        Some(x) => x,
        None => JsonV::Null,
    }
}

/// `request`: the `requestBody` of the operation found (`null` when it has none),
/// expanded under `#request/<method>/<path>`.
pub fn run(spec: &Json, id: Option<&str>, method: Option<&str>, path: Option<&str>, opts: ResolveOptions) -> (r: Result<
    Json,
    OadigError,
>)
    ensures
        match found(spec@, opt_str_view(id), opt_str_view(method), opt_str_view(path)) {
            Some(o) => r matches Ok(j) && j@ == in_place(
                spec@,
                opts,
                or_null(member(o.2, "requestBody"@)),
                origin_in("#request/"@, o.0, o.1),
            ),
            None => r matches Err(e) && lookup_error(spec@, opt_str_view(id), opt_str_view(method), opt_str_view(path), e),
        },
{
    let located = match resolve_lookup(spec, id, method, path) {
        Ok(l) => l,
        Err(e) => return Err(e),
    };
    let body = cloned_or_null(located.op.get("requestBody"));
    let origin = origin_with("#request/", located.method, located.path.as_str());
    Ok(resolve_in_place(body, spec, opts, origin.as_str()))
}

} // verus!
