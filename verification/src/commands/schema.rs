//! `schema`: one component schema, `$ref`s resolved.

use vstd::prelude::*;
use crate::error::OadigError;
use crate::json::{Json, JsonV};
use crate::pointer::pointer_of;
use crate::resolver::{resolved, ResolveOptions, Resolver};
use crate::text::{concat, owned};

verus! {

/// `schema`: the value at `/components/schemas/<name>` (the name read as a pointer
/// token), expanded under `#/components/schemas/<name>` unless references are kept;
/// `SchemaNotFound(name)` when there is none.
pub fn run(spec: &Json, name: &str, opts: ResolveOptions) -> (r: Result<Json, OadigError>)
    ensures
        match pointer_of(spec@, "/components/schemas/"@ + name@) {
            Some(s) => r matches Ok(j) && j@ == if opts.resolve {
                resolved(spec@, opts.max_depth, s, "#/components/schemas/"@ + name@)
            } else {
                s
            },
            None => r matches Err(OadigError::SchemaNotFound(n)) && n@ == name@,
        },
{
    let pointer = concat("/components/schemas/", name);
    let schema = match spec.pointer(pointer.as_str()) {
        Some(s) => s.deep_clone(),
        None => return Err(OadigError::SchemaNotFound(owned(name))),
    };
    if !opts.resolve {
        return Ok(schema);
    }
    let mut resolver = Resolver::new(spec, opts);
    let origin = concat("#/components/schemas/", name);
    Ok(resolver.resolve(schema, origin.as_str()))
}

} // verus!
