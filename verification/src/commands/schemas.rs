//! `schemas`: the names of the component schemas.

use vstd::prelude::*;
use crate::json::{key_array, key_values, object_of, Json, JsonV};
use crate::pointer::pointer_of;

verus! {

/// The schema names: the keys of `/components/schemas` when it is an object.
pub open spec fn schema_names(spec: JsonV) -> Seq<JsonV> {
    match object_of(pointer_of(spec, "/components/schemas"@)) {
        Some(f) => key_values(f),
        None => Seq::empty(),
    }
}

/// `schemas`: the names defined under `components.schemas`, in document order.
pub fn run(spec: &Json) -> (r: Json)
    ensures
        r@ == JsonV::Array(schema_names(spec@)),
{
    match spec.pointer("/components/schemas") {
        Some(v) => match v.as_object() {
            Some(f) => key_array(f),
            None => crate::json::empty_array(),
        },
        None => crate::json::empty_array(),
    }
}

} // verus!
