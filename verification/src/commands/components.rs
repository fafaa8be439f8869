//! `components`: the component sections and the names defined in each.

use vstd::prelude::*;
use crate::json::{empty_array, fields_view, key_array, key_values, lemma_object_view, lookup, member, object_of, Json, JsonV};
use crate::text::owned;

verus! {

/// The OpenAPI 3.x component section names, in output order.
pub open spec fn section(i: int) -> Seq<char> {
    if i == 0 {
        "schemas"@
    } else if i == 1 {
        "responses"@
    } else if i == 2 {
        "parameters"@
    } else if i == 3 {
        "examples"@
    } else if i == 4 {
        "requestBodies"@
    } else if i == 5 {
        "headers"@
    } else if i == 6 {
        "securitySchemes"@
    } else if i == 7 {
        "links"@
    } else if i == 8 {
        "callbacks"@
    } else {
        "pathItems"@
    }
}

pub const SECTION_COUNT: usize = 10;

fn section_at(i: usize) -> (r: &'static str)
    requires
        i < SECTION_COUNT,
    ensures
        r@ == section(i as int),
{
    if i == 0 {
        "schemas"
    } else if i == 1 {
        "responses"
    } else if i == 2 {
        "parameters"
    } else if i == 3 {
        "examples"
    } else if i == 4 {
        "requestBodies"
    } else if i == 5 {
        "headers"
    } else if i == 6 {
        "securitySchemes"
    } else if i == 7 {
        "links"
    } else if i == 8 {
        "callbacks"
    } else {
        "pathItems"
    }
}

/// The names defined in one section (none when the section or `components` is not an object).
pub open spec fn section_names(spec: JsonV, s: Seq<char>) -> Seq<JsonV> {
    match object_of(member(spec, "components"@)) {
        Some(cf) => match object_of(lookup(cf, s)) {
            Some(f) => key_values(f),
            None => Seq::empty(),
        },
        None => Seq::empty(),
    }
}

/// The first `n` sections shown: those with names, or all with `show_null`.
pub open spec fn component_members(spec: JsonV, show_null: bool, n: int) -> Seq<(Seq<char>, JsonV)>
    decreases n,
{
    if n <= 0 {
        Seq::empty()
    } else {
        let names = section_names(spec, section(n - 1));
        component_members(spec, show_null, n - 1) + if names.len() > 0 || show_null {
            seq![(section(n - 1), JsonV::Array(names))]
        } else {
            Seq::empty()
        }
    }
}

/// `components`: for each section, the array of names it defines; empty sections only
/// with `show_null`.
pub fn run(spec: &Json, show_null: bool) -> (r: Json)
    ensures
        r@ == JsonV::Object(component_members(spec@, show_null, SECTION_COUNT as int)),
{
    let components = match spec.get("components") {
        Some(c) => c.as_object(),
        None => None,
    };
    let mut out: Vec<(String, Json)> = Vec::new();
    let mut i: usize = 0;
    while i < SECTION_COUNT
        invariant
            i <= SECTION_COUNT,
            match components {
                Some(cf) => object_of(member(spec@, "components"@)) == Some(fields_view(cf@)),
                None => object_of(member(spec@, "components"@)) is None,
            },
            fields_view(out@) == component_members(spec@, show_null, i as int),
        decreases SECTION_COUNT - i,
    {
        let s = section_at(i);
        let names = match components {
            Some(cf) => match crate::json::field_get(cf, s) {
                Some(v) => match v.as_object() {
                    Some(f) => key_array(f),
                    None => empty_array(),
                },
                None => empty_array(),
            },
            None => empty_array(),
        };
        assert(names@ == JsonV::Array(section_names(spec@, s@)));
        let empty = match &names {
            Json::Array(a) => a.len() == 0,
            _ => true,
        };
        let ghost before = out@;
        let ghost nv = names@;
        if !empty || show_null {
            out.push((owned(s), names));
            assert(fields_view(out@) =~= fields_view(before) + seq![(s@, nv)]);
        }
        i = i + 1;
    }
    proof {
        lemma_object_view(out);
    }
    Json::Object(out)
}

/// With `show_null`, `components` lists every section, in order, each with the names it defines.
pub proof fn law_components_show_null_has_every_section(spec: JsonV)
    ensures
        component_members(spec, true, SECTION_COUNT as int).len() == SECTION_COUNT,
        forall|i: int|
            0 <= i < SECTION_COUNT ==> #[trigger] component_members(spec, true, SECTION_COUNT as int)[i] == (
                section(i),
                JsonV::Array(section_names(spec, section(i))),
            ),
{
    lemma_components_full(spec, SECTION_COUNT as int);
}

proof fn lemma_components_full(spec: JsonV, n: int)
    requires
        0 <= n <= SECTION_COUNT,
    ensures
        component_members(spec, true, n).len() == n,
        forall|i: int|
            0 <= i < n ==> #[trigger] component_members(spec, true, n)[i] == (
                section(i),
                JsonV::Array(section_names(spec, section(i))),
            ),
    decreases n,
{
    if n > 0 {
        lemma_components_full(spec, n - 1);
        let prev = component_members(spec, true, n - 1);
        assert forall|i: int|
            0 <= i < n implies #[trigger] component_members(spec, true, n)[i] == (
                section(i),
                JsonV::Array(section_names(spec, section(i))),
            ) by {
            if i < n - 1 {
                assert(component_members(spec, true, n)[i] == prev[i]);
            }
        }
    }
}

} // verus!
