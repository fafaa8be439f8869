//! `response`: the `responses` of one operation, or one of them, `$ref`s resolved.

use vstd::prelude::*;
use crate::commands::operations::{found, in_place, lookup_error, opt_str_view, origin_in, origin_with, resolve_in_place, resolve_lookup};
use crate::commands::request::or_null;
use crate::error::OadigError;
use crate::json::{cloned_or_null, lookup, member, object_of, Json, JsonV};
use crate::resolver::{law_resolve_member_commutes, ResolveOptions};

verus! {

/// The responses shown: all of them, or the one of the given status (`null` when absent).
pub open spec fn selected_responses(op: JsonV, status: Option<Seq<char>>) -> JsonV {
    let responses = or_null(member(op, "responses"@));
    match status {
        Some(code) => or_null(member(responses, code)),
        None => responses,
    }
}

/// `response`: the `responses` of the operation found, narrowed to one status when
/// given, expanded under `#response/<method>/<path>`.
pub fn run(
    spec: &Json,
    id: Option<&str>,
    method: Option<&str>,
    path: Option<&str>,
    status: Option<&str>,
    opts: ResolveOptions,
) -> (r: Result<Json, OadigError>)
    ensures
        match found(spec@, opt_str_view(id), opt_str_view(method), opt_str_view(path)) {
            Some(o) => r matches Ok(j) && j@ == in_place(
                spec@,
                opts,
                selected_responses(o.2, opt_str_view(status)),
                origin_in("#response/"@, o.0, o.1),
            ),
            None => r matches Err(e) && lookup_error(spec@, opt_str_view(id), opt_str_view(method), opt_str_view(path), e),
        },
{
    let located = match resolve_lookup(spec, id, method, path) {
        Ok(l) => l,
        Err(e) => return Err(e),
    };
    let responses = cloned_or_null(located.op.get("responses"));
    let selected = match status {
        Some(code) => cloned_or_null(responses.get(code)),
        None => responses,
    };
    let origin = origin_with("#response/", located.method, located.path.as_str());
    Ok(resolve_in_place(selected, spec, opts, origin.as_str()))
}

/// With no depth limit, `response` narrowed to a status shows what the full `response`
/// shows under that status (when the operation's `responses` is an object that has the
/// status and is not a reference itself).
pub proof fn law_response_narrowing_selects(spec: JsonV, op: JsonV, code: Seq<char>, opts: ResolveOptions, origin: Seq<char>)
    requires
        opts.max_depth is None,
        object_of(member(op, "responses"@)) matches Some(f) && lookup(f, code) is Some && !(lookup(
            f,
            "$ref"@,
        ) matches Some(JsonV::Str(_))),
    ensures
        member(in_place(spec, opts, selected_responses(op, None), origin), code) == Some(
            in_place(spec, opts, selected_responses(op, Some(code)), origin),
        ),
{
    let f = object_of(member(op, "responses"@))->Some_0;
    if opts.resolve {
        law_resolve_member_commutes(spec, f, code, origin);
    }
}

} // verus!
