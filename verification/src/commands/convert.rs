//! `convert`: forward conversion of a spec, Swagger 2.0 → OpenAPI 3.0 → OpenAPI 3.1.

use vstd::prelude::*;
use crate::json::{
    bool_of, elems_view, field_get, field_insert, field_swap_remove, fields_view, insert_field, jstr, lemma_array_view,
    lemma_object_view, lookup, swap_remove_field, view_of, Json, JsonV,
};
use crate::commands::stats::{push_strings, strings_in};
use crate::json::{array_of, member, non_null, object_of, opt_view, str_of};
use crate::error::{is_other, OadigError};
use crate::commands::operations::method_index;
use crate::resolver::{child, child_count};
use crate::table::strings_view;
use crate::text::{chars_of, is_prefix, owned, starts_with, string_from};

verus! {

// ---- walking children ----
/// The key of the `i`-th child: the member key of an object, empty for an array.
pub open spec fn child_key(v: JsonV, i: int) -> Seq<char> {
    match v {
        JsonV::Object(f) => f[i].0,
        _ => Seq::empty(),
    }
}

/// The values of a member list.
pub open spec fn values_of(g: Seq<(Seq<char>, JsonV)>) -> Seq<JsonV> {
    Seq::new(g.len(), |i: int| g[i].1)
}

pub proof fn lemma_child_decreases(v: JsonV, i: int)
    requires
        0 <= i < child_count(v),
    ensures
        decreases_to!(v => child(v, i)),
{
    match v {
        JsonV::Array(a) => {
            assert(decreases_to!(v => a[i]));
        },
        JsonV::Object(f) => {
            assert(decreases_to!(v => f[i].1));
        },
        _ => {},
    }
}

// ---- references ----
/// The reference a Swagger 2.0 `$ref` becomes in OpenAPI 3.0, when it points at a
/// section that moved under `components`.
pub open spec fn rewritten_ref(r: Seq<char>) -> Option<Seq<char>> {
    if is_prefix("#/definitions/"@, r) {
        Some("#/components/schemas/"@ + r.skip("#/definitions/"@.len() as int))
    } else if is_prefix("#/parameters/"@, r) {
        Some("#/components/parameters/"@ + r.skip("#/parameters/"@.len() as int))
    } else if is_prefix("#/responses/"@, r) {
        Some("#/components/responses/"@ + r.skip("#/responses/"@.len() as int))
    } else if is_prefix("#/securityDefinitions/"@, r) {
        Some("#/components/securitySchemes/"@ + r.skip("#/securityDefinitions/"@.len() as int))
    } else {
        None
    }
}

fn replace_prefix(r: &str, from: &str, to: &str) -> (out: Option<String>)
    ensures
        is_prefix(from@, r@) ==> (out matches Some(o) && o@ == to@ + r@.skip(from@.len() as int)),
        !is_prefix(from@, r@) ==> out is None,
{
    if starts_with(r, from) {
        let cs = chars_of(r);
        let n = chars_of(from).len();
        let rest = string_from(&cs, n);
        let mut o = owned(to);
        crate::text::push_str(&mut o, rest.as_str());
        Some(o)
    } else {
        None
    }
}

/// `#/definitions/X` → `#/components/schemas/X`, and likewise for the top-level
/// parameters, responses and security definitions; `None` for any other reference.
pub fn rewrite_ref(r: &str) -> (out: Option<String>)
    ensures
        match rewritten_ref(r@) {
            Some(n) => out matches Some(o) && o@ == n,
            None => out is None,
        },
{
    if let Some(o) = replace_prefix(r, "#/definitions/", "#/components/schemas/") {
        return Some(o);
    }
    if let Some(o) = replace_prefix(r, "#/parameters/", "#/components/parameters/") {
        return Some(o);
    }
    if let Some(o) = replace_prefix(r, "#/responses/", "#/components/responses/") {
        return Some(o);
    }
    replace_prefix(r, "#/securityDefinitions/", "#/components/securitySchemes/")
}

/// Every `$ref` string of `v` rewritten by `rewritten_ref`.
pub open spec fn refs_rewritten(v: JsonV) -> JsonV
    decreases v, child_count(v) + 1,
{
    match v {
        JsonV::Object(f) => {
            let g = refs_children(v, f.len() as int);
            JsonV::Object(
                match lookup(g, "$ref"@) {
                    Some(JsonV::Str(s)) => match rewritten_ref(s) {
                        Some(n) => insert_field(g, "$ref"@, JsonV::Str(n)),
                        None => g,
                    },
                    _ => g,
                },
            )
        },
        JsonV::Array(a) => JsonV::Array(values_of(refs_children(v, a.len() as int))),
        other => other,
    }
}

/// The first `n` children of `v` with their keys (empty for array elements), rewritten.
pub open spec fn refs_children(v: JsonV, n: int) -> Seq<(Seq<char>, JsonV)>
    decreases v, n,
{
    if n <= 0 || n > child_count(v) {
        Seq::empty()
    } else {
        proof {
            lemma_child_decreases(v, n - 1);
        }
        refs_children(v, n - 1).push((child_key(v, n - 1), refs_rewritten(child(v, n - 1))))
    }
}

/// Rewrites the `$ref`s of a converted Swagger 2.0 document.
pub fn rewrite_refs(value: &Json) -> (r: Json)
    ensures
        r@ == refs_rewritten(value@),
    decreases value,
{
    match value {
        Json::Object(f) => {
            proof {
                lemma_object_view(*f);
            }
            let ghost v = value@;
            let mut g: Vec<(String, Json)> = Vec::new();
            let mut i: usize = 0;
            while i < f.len()
                invariant
                    i <= f.len(),
                    *value == Json::Object(*f),
                    v == value@,
                    v == JsonV::Object(fields_view(f@)),
                    fields_view(g@) == refs_children(v, i as int),
                decreases f.len() - i,
            {
                assert(decreases_to!(*value => value->Object_0[i as int].1));
                let c = rewrite_refs(&f[i].1);
                let ghost before = fields_view(g@);
                g.push((f[i].0.clone(), c));
                assert(fields_view(g@) =~= before.push((child_key(v, i as int), refs_rewritten(child(v, i as int)))));
                i = i + 1;
            }
            let target = match field_get(&g, "$ref") {
                Some(Json::Str(s)) => rewrite_ref(s.as_str()),
                _ => None,
            };
            if let Some(n) = target {
                field_insert(&mut g, owned("$ref"), Json::Str(n));
            }
            proof {
                lemma_object_view(g);
            }
            Json::Object(g)
        },
        Json::Array(a) => {
            proof {
                lemma_array_view(*a);
            }
            let ghost v = value@;
            let mut out: Vec<Json> = Vec::new();
            let mut i: usize = 0;
            while i < a.len()
                invariant
                    i <= a.len(),
                    *value == Json::Array(*a),
                    v == value@,
                    v == JsonV::Array(elems_view(a@)),
                    elems_view(out@) == values_of(refs_children(v, i as int)),
                decreases a.len() - i,
            {
                assert(decreases_to!(*value => value->Array_0[i as int]));
                let c = rewrite_refs(&a[i]);
                let ghost before = elems_view(out@);
                out.push(c);
                assert(values_of(refs_children(v, i + 1)) =~= values_of(refs_children(v, i as int)).push(c@));
                assert(elems_view(out@) =~= before.push(c@));
                i = i + 1;
            }
            proof {
                lemma_array_view(out);
            }
            Json::Array(out)
        },
        _ => value.deep_clone(),
    }
}

// ---- OpenAPI 3.0 → 3.1 ----
/// The `type` of a schema that was `nullable: true`: the union with `"null"`.
pub open spec fn nullable_type(t: Option<JsonV>) -> Seq<JsonV> {
    match t {
        Some(JsonV::Str(s)) => seq![JsonV::Str(s), JsonV::Str("null"@)],
        Some(JsonV::Array(a)) => if a.contains(JsonV::Str("null"@)) {
            a
        } else {
            a.push(JsonV::Str("null"@))
        },
        _ => seq![JsonV::Str("null"@)],
    }
}

/// `nullable: true` is dropped and folded into `type`.
pub open spec fn nullable_step(g: Seq<(Seq<char>, JsonV)>) -> Seq<(Seq<char>, JsonV)> {
    if bool_of(lookup(g, "nullable"@)) == Some(true) {
        let g1 = swap_remove_field(g, "nullable"@);
        let t = lookup(g1, "type"@);
        insert_field(swap_remove_field(g1, "type"@), "type"@, JsonV::Array(nullable_type(t)))
    } else {
        g
    }
}

/// A boolean exclusive bound becomes a numeric one: `true` takes the value of the bound
/// (which is dropped), or is dropped when there is none; `false` is dropped.
pub open spec fn bound_step(g: Seq<(Seq<char>, JsonV)>, bound: Seq<char>, exclusive: Seq<char>) -> Seq<(Seq<char>, JsonV)> {
    match lookup(g, exclusive) {
        Some(JsonV::Bool(true)) => match lookup(g, bound) {
            Some(b) => swap_remove_field(insert_field(g, exclusive, b), bound),
            None => swap_remove_field(g, exclusive),
        },
        Some(JsonV::Bool(false)) => swap_remove_field(g, exclusive),
        _ => g,
    }
}

/// The 3.1 form of one schema object's members.
pub open spec fn schema_step(g: Seq<(Seq<char>, JsonV)>) -> Seq<(Seq<char>, JsonV)> {
    bound_step(bound_step(nullable_step(g), "minimum"@, "exclusiveMinimum"@), "maximum"@, "exclusiveMaximum"@)
}

/// Every object of `v` rewritten by `schema_step`, innermost first.
pub open spec fn to31(v: JsonV) -> JsonV
    decreases v, child_count(v) + 1,
{
    match v {
        JsonV::Object(f) => JsonV::Object(schema_step(to31_children(v, f.len() as int))),
        JsonV::Array(a) => JsonV::Array(values_of(to31_children(v, a.len() as int))),
        other => other,
    }
}

pub open spec fn to31_children(v: JsonV, n: int) -> Seq<(Seq<char>, JsonV)>
    decreases v, n,
{
    if n <= 0 || n > child_count(v) {
        Seq::empty()
    } else {
        proof {
            lemma_child_decreases(v, n - 1);
        }
        to31_children(v, n - 1).push((child_key(v, n - 1), to31(child(v, n - 1))))
    }
}

fn null_str() -> (r: Json)
    ensures
        r@ == JsonV::Str("null"@),
{
    jstr("null")
}

fn has_null(a: &Vec<Json>) -> (r: bool)
    ensures
        r == elems_view(a@).contains(JsonV::Str("null"@)),
{
    let mut i: usize = 0;
    while i < a.len()
        invariant
            i <= a.len(),
            forall|k: int| 0 <= k < i ==> elems_view(a@)[k] != JsonV::Str("null"@),
        decreases a.len() - i,
    {
        if let Json::Str(s) = &a[i] {
            if crate::text::str_eq(s.as_str(), "null") {
                assert(elems_view(a@)[i as int] == JsonV::Str("null"@));
                return true;
            }
        }
        i = i + 1;
    }
    false
}

/// Applies `nullable_step`.
fn fold_nullable(g: &mut Vec<(String, Json)>)
    ensures
        fields_view(final(g)@) == nullable_step(fields_view(old(g)@)),
{
    let nullable = match field_get(g, "nullable") {
        Some(v) => match v.as_bool() {
            Some(b) => b,
            None => false,
        },
        None => false,
    };
    if !nullable {
        return;
    }
    let ghost g0 = fields_view(g@);
    assert(bool_of(lookup(g0, "nullable"@)) == Some(true));
    field_swap_remove(g, "nullable");
    let ghost g1 = fields_view(g@);
    assert(g1 == swap_remove_field(g0, "nullable"@));
    let t = field_swap_remove(g, "type");
    let ghost tv = lookup(g1, "type"@);
    let new_type = match t {
        Some(Json::Str(s)) => {
            let ghost sv = s@;
            assert(tv == Some(JsonV::Str(sv)));
            let mut v: Vec<Json> = Vec::new();
            v.push(Json::Str(s));
            v.push(null_str());
            proof {
                lemma_array_view(v);
            }
            assert(elems_view(v@) =~= seq![JsonV::Str(sv), JsonV::Str("null"@)]);
            Json::Array(v)
        },
        Some(Json::Array(arr)) => {
            let mut arr = arr;
            proof {
                lemma_array_view(arr);
            }
            assert(tv == Some(JsonV::Array(elems_view(arr@))));
            if !has_null(&arr) {
                let ghost before = elems_view(arr@);
                arr.push(null_str());
                assert(elems_view(arr@) =~= before.push(JsonV::Str("null"@)));
            }
            proof {
                lemma_array_view(arr);
            }
            Json::Array(arr)
        },
        other => {
            let mut v: Vec<Json> = Vec::new();
            v.push(null_str());
            proof {
                lemma_array_view(v);
            }
            assert(elems_view(v@) =~= seq![JsonV::Str("null"@)]);
            Json::Array(v)
        },
    };
    assert(new_type@ == JsonV::Array(nullable_type(tv)));
    field_insert(g, owned("type"), new_type);
}

/// Applies `bound_step`.
fn fold_bound(g: &mut Vec<(String, Json)>, bound: &str, exclusive: &str)
    ensures
        fields_view(final(g)@) == bound_step(fields_view(old(g)@), bound@, exclusive@),
{
    let flag = match field_get(g, exclusive) {
        Some(v) => v.as_bool(),
        None => None,
    };
    match flag {
        Some(true) => {
            let b = match field_get(g, bound) {
                Some(v) => Some(v.deep_clone()),
                None => None,
            };
            match b {
                Some(b) => {
                    field_insert(g, owned(exclusive), b);
                    field_swap_remove(g, bound);
                },
                None => {
                    field_swap_remove(g, exclusive);
                },
            }
        },
        Some(false) => {
            field_swap_remove(g, exclusive);
        },
        None => {},
    }
}

/// Rewrites every schema object of `value` for OpenAPI 3.1 (`nullable`, exclusive bounds).
pub fn convert_nullable(value: &Json) -> (r: Json)
    ensures
        r@ == to31(value@),
    decreases value,
{
    match value {
        Json::Object(f) => {
            proof {
                lemma_object_view(*f);
            }
            let ghost v = value@;
            let mut g: Vec<(String, Json)> = Vec::new();
            let mut i: usize = 0;
            while i < f.len()
                invariant
                    i <= f.len(),
                    *value == Json::Object(*f),
                    v == value@,
                    v == JsonV::Object(fields_view(f@)),
                    fields_view(g@) == to31_children(v, i as int),
                decreases f.len() - i,
            {
                assert(decreases_to!(*value => value->Object_0[i as int].1));
                let c = convert_nullable(&f[i].1);
                let ghost before = fields_view(g@);
                g.push((f[i].0.clone(), c));
                assert(fields_view(g@) =~= before.push((child_key(v, i as int), to31(child(v, i as int)))));
                i = i + 1;
            }
            fold_nullable(&mut g);
            fold_bound(&mut g, "minimum", "exclusiveMinimum");
            fold_bound(&mut g, "maximum", "exclusiveMaximum");
            proof {
                lemma_object_view(g);
            }
            Json::Object(g)
        },
        Json::Array(a) => {
            proof {
                lemma_array_view(*a);
            }
            let ghost v = value@;
            let mut out: Vec<Json> = Vec::new();
            let mut i: usize = 0;
            while i < a.len()
                invariant
                    i <= a.len(),
                    *value == Json::Array(*a),
                    v == value@,
                    v == JsonV::Array(elems_view(a@)),
                    elems_view(out@) == values_of(to31_children(v, i as int)),
                decreases a.len() - i,
            {
                assert(decreases_to!(*value => value->Array_0[i as int]));
                let c = convert_nullable(&a[i]);
                let ghost before = elems_view(out@);
                out.push(c);
                assert(values_of(to31_children(v, i + 1)) =~= values_of(to31_children(v, i as int)).push(c@));
                assert(elems_view(out@) =~= before.push(c@));
                i = i + 1;
            }
            proof {
                lemma_array_view(out);
            }
            Json::Array(out)
        },
        _ => value.deep_clone(),
    }
}

/// The spec with `openapi` set to `3.1.0` (when it is an object).
pub open spec fn with_version(spec: JsonV, version: Seq<char>) -> JsonV {
    match spec {
        JsonV::Object(f) => JsonV::Object(insert_field(f, "openapi"@, JsonV::Str(version))),
        other => other,
    }
}

/// OpenAPI 3.0 → 3.1: version `3.1.0`, then every schema rewritten.
pub fn openapi30_to_openapi31(spec: &Json) -> (r: Json)
    ensures
        r@ == to31(with_version(spec@, "3.1.0"@)),
{
    let out = match spec {
        Json::Object(f) => {
            let mut g = crate::json::clone_fields(f);
            field_insert(&mut g, owned("openapi"), jstr("3.1.0"));
            proof {
                lemma_object_view(g);
                lemma_object_view(*f);
            }
            Json::Object(g)
        },
        _ => spec.deep_clone(),
    };
    convert_nullable(&out)
}

// ---- Swagger 2.0 → OpenAPI 3.0: parameters and responses ----
/// The strings of an array value (none when absent or not an array).
pub open spec fn strings_of_member(v: Option<JsonV>) -> Seq<Seq<char>> {
    match array_of(v) {
        Some(a) => strings_in(a),
        None => Seq::empty(),
    }
}

/// The strings of an array value.
pub fn collect_strings(v: Option<&Json>) -> (r: Vec<String>)
    ensures
        strings_view(r@) == strings_of_member(opt_view(v)),
{
    let mut out: Vec<String> = Vec::new();
    assert(strings_view(out@) =~= Seq::<Seq<char>>::empty());
    if let Some(x) = v {
        if let Some(a) = x.as_array() {
            push_strings(&mut out, a);
            assert(strings_view(out@) =~= strings_of_member(opt_view(v)));
        }
    }
    out
}

/// The local list, or the fallback when it is empty.
pub open spec fn strings_or(local: Seq<Seq<char>>, fallback: Seq<Seq<char>>) -> Seq<Seq<char>> {
    if local.len() == 0 {
        fallback
    } else {
        local
    }
}

/// The strings of an array value, or `fallback` when there are none.
pub fn collect_strings_or(v: Option<&Json>, fallback: &[String]) -> (r: Vec<String>)
    ensures
        strings_view(r@) == strings_or(strings_of_member(opt_view(v)), strings_view(fallback@)),
{
    let local = collect_strings(v);
    if local.len() == 0 {
        let mut out: Vec<String> = Vec::new();
        let mut i: usize = 0;
        while i < fallback.len()
            invariant
                i <= fallback.len(),
                strings_view(out@) == strings_view(fallback@).take(i as int),
            decreases fallback.len() - i,
        {
            let ghost before = out@;
            let c = fallback[i].clone();
            assert(c@ == fallback@[i as int]@);
            out.push(c);
            assert(strings_view(out@) =~= strings_view(before).push(c@));
            assert(strings_view(out@) =~= strings_view(fallback@).take(i + 1));
            i = i + 1;
        }
        assert(strings_view(fallback@).take(fallback@.len() as int) =~= strings_view(fallback@));
        out
    } else {
        local
    }
}

/// The listed media types, or the single default when none are listed.
pub open spec fn media_types(list: Seq<Seq<char>>, default: Seq<char>) -> Seq<Seq<char>> {
    if list.len() == 0 {
        seq![default]
    } else {
        list
    }
}

fn media_list(list: &Vec<String>, default: &str) -> (r: Vec<String>)
    ensures
        strings_view(r@) == media_types(strings_view(list@), default@),
{
    if list.len() == 0 {
        let mut out: Vec<String> = Vec::new();
        out.push(owned(default));
        assert(strings_view(out@) =~= seq![default@]);
        out
    } else {
        let mut out: Vec<String> = Vec::new();
        let mut i: usize = 0;
        while i < list.len()
            invariant
                i <= list.len(),
                strings_view(out@) == strings_view(list@).take(i as int),
            decreases list.len() - i,
        {
            let ghost before = out@;
            let c = list[i].clone();
            assert(c@ == list@[i as int]@);
            out.push(c);
            assert(strings_view(out@) =~= strings_view(before).push(c@));
            assert(strings_view(out@) =~= strings_view(list@).take(i + 1));
            i = i + 1;
        }
        assert(strings_view(list@).take(list@.len() as int) =~= strings_view(list@));
        out
    }
}

/// `{"schema": s}`.
pub open spec fn schema_entry(s: JsonV) -> JsonV {
    JsonV::Object(seq![("schema"@, s)])
}

fn make_schema_entry(s: Json) -> (r: Json)
    ensures
        r@ == schema_entry(s@),
{
    let ghost sv = s@;
    let mut f: Vec<(String, Json)> = Vec::new();
    f.push((owned("schema"), s));
    proof {
        lemma_object_view(f);
    }
    assert(fields_view(f@) =~= seq![("schema"@, sv)]);
    Json::Object(f)
}

/// `c` with `mt: {"schema": schema}` inserted for each media type in turn.
pub open spec fn schema_content(c: Seq<(Seq<char>, JsonV)>, mts: Seq<Seq<char>>, schema: JsonV) -> Seq<(Seq<char>, JsonV)>
    decreases mts.len(),
{
    if mts.len() == 0 {
        c
    } else {
        insert_field(schema_content(c, mts.drop_last(), schema), mts.last(), schema_entry(schema))
    }
}

fn add_schema_content(c: &mut Vec<(String, Json)>, mts: &Vec<String>, schema: &Json)
    ensures
        fields_view(final(c)@) == schema_content(fields_view(old(c)@), strings_view(mts@), schema@),
{
    let ghost mv = strings_view(mts@);
    let mut i: usize = 0;
    assert(mv.take(0) =~= Seq::<Seq<char>>::empty());
    while i < mts.len()
        invariant
            i <= mts.len(),
            mv == strings_view(mts@),
            fields_view(c@) == schema_content(fields_view(old(c)@), mv.take(i as int), schema@),
        decreases mts.len() - i,
    {
        assert(mv.take(i + 1).drop_last() =~= mv.take(i as int));
        field_insert(c, mts[i].clone(), make_schema_entry(schema.deep_clone()));
        i = i + 1;
    }
    assert(mv.take(mts@.len() as int) =~= mv);
}

/// The keys of a Swagger 2.0 parameter that describe its value and move into `schema`.
pub open spec fn is_schema_key(k: Seq<char>) -> bool {
    k == "type"@ || k == "format"@ || k == "items"@ || k == "enum"@ || k == "default"@ || k == "minimum"@
        || k == "maximum"@ || k == "exclusiveMinimum"@ || k == "exclusiveMaximum"@ || k == "minLength"@
        || k == "maxLength"@ || k == "pattern"@ || k == "uniqueItems"@ || k == "multipleOf"@
}

fn schema_key(k: &str) -> (r: bool)
    ensures
        r == is_schema_key(k@),
{
    crate::text::str_eq(k, "type") || crate::text::str_eq(k, "format") || crate::text::str_eq(k, "items")
        || crate::text::str_eq(k, "enum") || crate::text::str_eq(k, "default") || crate::text::str_eq(k, "minimum")
        || crate::text::str_eq(k, "maximum") || crate::text::str_eq(k, "exclusiveMinimum")
        || crate::text::str_eq(k, "exclusiveMaximum") || crate::text::str_eq(k, "minLength")
        || crate::text::str_eq(k, "maxLength") || crate::text::str_eq(k, "pattern")
        || crate::text::str_eq(k, "uniqueItems") || crate::text::str_eq(k, "multipleOf")
}

/// The parameter's own members among the first `n`: all but the schema keys and
/// `collectionFormat` (which has no place in 3.0 and is dropped).
pub open spec fn param_out(f: Seq<(Seq<char>, JsonV)>, n: int) -> Seq<(Seq<char>, JsonV)>
    decreases n,
{
    if n <= 0 {
        Seq::empty()
    } else {
        let o = param_out(f, n - 1);
        let k = f[n - 1].0;
        if is_schema_key(k) || k == "collectionFormat"@ {
            o
        } else {
            insert_field(o, k, f[n - 1].1)
        }
    }
}

/// The schema members among the first `n`.
pub open spec fn param_schema(f: Seq<(Seq<char>, JsonV)>, n: int) -> Seq<(Seq<char>, JsonV)>
    decreases n,
{
    if n <= 0 {
        Seq::empty()
    } else {
        let s = param_schema(f, n - 1);
        if is_schema_key(f[n - 1].0) {
            insert_field(s, f[n - 1].0, f[n - 1].1)
        } else {
            s
        }
    }
}

/// A Swagger 2.0 parameter in OpenAPI 3.0 form: its value keywords move into `schema`.
/// References and non-objects are kept.
pub open spec fn converted_parameter(p: JsonV) -> JsonV {
    match p {
        JsonV::Object(f) => if lookup(f, "$ref"@) is Some {
            p
        } else {
            let o = param_out(f, f.len() as int);
            let s = param_schema(f, f.len() as int);
            JsonV::Object(
                if s.len() > 0 {
                    insert_field(o, "schema"@, JsonV::Object(s))
                } else {
                    o
                },
            )
        },
        _ => p,
    }
}

pub fn convert_parameter(p: &Json) -> (r: Json)
    ensures
        r@ == converted_parameter(p@),
{
    let f = match p.as_object() {
        Some(f) => f,
        None => return p.deep_clone(),
    };
    if field_get(f, "$ref").is_some() {
        return p.deep_clone();
    }
    let ghost fv = fields_view(f@);
    let mut out: Vec<(String, Json)> = Vec::new();
    let mut schema: Vec<(String, Json)> = Vec::new();
    let mut i: usize = 0;
    while i < f.len()
        invariant
            i <= f.len(),
            fv == fields_view(f@),
            fields_view(out@) == param_out(fv, i as int),
            fields_view(schema@) == param_schema(fv, i as int),
        decreases f.len() - i,
    {
        let k = f[i].0.as_str();
        if schema_key(k) {
            field_insert(&mut schema, f[i].0.clone(), f[i].1.deep_clone());
        } else if crate::text::str_eq(k, "collectionFormat") {
        } else {
            field_insert(&mut out, f[i].0.clone(), f[i].1.deep_clone());
        }
        i = i + 1;
    }
    if schema.len() > 0 {
        proof {
            lemma_object_view(schema);
        }
        field_insert(&mut out, owned("schema"), Json::Object(schema));
    }
    proof {
        lemma_object_view(out);
    }
    Json::Object(out)
}

/// The response's members among the first `n`, without `schema`.
pub open spec fn resp_out(f: Seq<(Seq<char>, JsonV)>, n: int) -> Seq<(Seq<char>, JsonV)>
    decreases n,
{
    if n <= 0 {
        Seq::empty()
    } else {
        let o = resp_out(f, n - 1);
        if f[n - 1].0 == "schema"@ {
            o
        } else {
            insert_field(o, f[n - 1].0, f[n - 1].1)
        }
    }
}

/// The `content` map made of the `schema` members among the first `n`.
pub open spec fn resp_content(f: Seq<(Seq<char>, JsonV)>, n: int, mts: Seq<Seq<char>>) -> Seq<(Seq<char>, JsonV)>
    decreases n,
{
    if n <= 0 {
        Seq::empty()
    } else {
        let c = resp_content(f, n - 1, mts);
        if f[n - 1].0 == "schema"@ {
            schema_content(c, mts, f[n - 1].1)
        } else {
            c
        }
    }
}

/// A Swagger 2.0 response in OpenAPI 3.0 form: its `schema` goes under `content` for
/// each produced media type (`application/json` when none), and `description` is
/// always there. References and non-objects are kept.
pub open spec fn converted_response(r: JsonV, produces: Seq<Seq<char>>) -> JsonV {
    match r {
        JsonV::Object(f) => if lookup(f, "$ref"@) is Some {
            r
        } else {
            let mts = media_types(produces, "application/json"@);
            let o = resp_out(f, f.len() as int);
            let c = resp_content(f, f.len() as int, mts);
            let o2 = if c.len() > 0 {
                insert_field(o, "content"@, JsonV::Object(c))
            } else {
                o
            };
            JsonV::Object(
                if lookup(o2, "description"@) is None {
                    insert_field(o2, "description"@, JsonV::Str(Seq::empty()))
                } else {
                    o2
                },
            )
        },
        _ => r,
    }
}

pub fn convert_response(r: &Json, produces: &Vec<String>) -> (out: Json)
    ensures
        out@ == converted_response(r@, strings_view(produces@)),
{
    let f = match r.as_object() {
        Some(f) => f,
        None => return r.deep_clone(),
    };
    if field_get(f, "$ref").is_some() {
        return r.deep_clone();
    }
    let mts = media_list(produces, "application/json");
    let ghost fv = fields_view(f@);
    let mut out: Vec<(String, Json)> = Vec::new();
    let mut content: Vec<(String, Json)> = Vec::new();
    let mut i: usize = 0;
    while i < f.len()
        invariant
            i <= f.len(),
            fv == fields_view(f@),
            strings_view(mts@) == media_types(strings_view(produces@), "application/json"@),
            fields_view(out@) == resp_out(fv, i as int),
            fields_view(content@) == resp_content(fv, i as int, strings_view(mts@)),
        decreases f.len() - i,
    {
        if crate::text::str_eq(f[i].0.as_str(), "schema") {
            add_schema_content(&mut content, &mts, &f[i].1);
        } else {
            field_insert(&mut out, f[i].0.clone(), f[i].1.deep_clone());
        }
        i = i + 1;
    }
    let ghost mv = media_types(strings_view(produces@), "application/json"@);
    assert(fields_view(content@) == resp_content(fv, fv.len() as int, mv));
    assert(fields_view(out@) == resp_out(fv, fv.len() as int));
    if content.len() > 0 {
        proof {
            lemma_object_view(content);
        }
        field_insert(&mut out, owned("content"), Json::Object(content));
    }
    let ghost o2 = fields_view(out@);
    let missing = match field_get(&out, "description") {
        Some(_) => false,
        None => true,
    };
    if missing {
        field_insert(&mut out, owned("description"), Json::Str(String::new()));
    }
    assert(r@ == JsonV::Object(fv));
    proof {
        lemma_object_view(out);
    }
    Json::Object(out)
}

/// Each response of the first `n` members converted, inserted in turn.
pub open spec fn responses_fold(f: Seq<(Seq<char>, JsonV)>, n: int, produces: Seq<Seq<char>>) -> Seq<(Seq<char>, JsonV)>
    decreases n,
{
    if n <= 0 {
        Seq::empty()
    } else {
        insert_field(responses_fold(f, n - 1, produces), f[n - 1].0, converted_response(f[n - 1].1, produces))
    }
}

pub open spec fn converted_responses(rs: JsonV, produces: Seq<Seq<char>>) -> JsonV {
    match rs {
        JsonV::Object(f) => JsonV::Object(responses_fold(f, f.len() as int, produces)),
        _ => rs,
    }
}

pub fn convert_responses(responses: &Json, produces: &Vec<String>) -> (r: Json)
    ensures
        r@ == converted_responses(responses@, strings_view(produces@)),
{
    let f = match responses.as_object() {
        Some(f) => f,
        None => return responses.deep_clone(),
    };
    let ghost fv = fields_view(f@);
    let mut out: Vec<(String, Json)> = Vec::new();
    let mut i: usize = 0;
    while i < f.len()
        invariant
            i <= f.len(),
            fv == fields_view(f@),
            fields_view(out@) == responses_fold(fv, i as int, strings_view(produces@)),
        decreases f.len() - i,
    {
        field_insert(&mut out, f[i].0.clone(), convert_response(&f[i].1, produces));
        i = i + 1;
    }
    proof {
        lemma_object_view(out);
    }
    Json::Object(out)
}

// ---- Swagger 2.0 → OpenAPI 3.0: request bodies and operations ----
/// The `requestBody` a Swagger 2.0 `in: body` parameter becomes: its schema (an object
/// schema when absent) under each consumed media type (`application/json` when none),
/// with its description and `required: true` carried over.
pub open spec fn request_body_of(p: JsonV, consumes: Seq<Seq<char>>) -> JsonV {
    let schema = match member(p, "schema"@) {
        Some(s) => s,
        None => JsonV::Object(seq![("type"@, JsonV::Str("object"@))]),
    };
    let content = schema_content(Seq::empty(), media_types(consumes, "application/json"@), schema);
    JsonV::Object(
        (match non_null(member(p, "description"@)) {
            Some(d) => seq![("description"@, d)],
            None => Seq::empty(),
        }) + (if bool_of(member(p, "required"@)) == Some(true) {
            seq![("required"@, JsonV::Bool(true))]
        } else {
            Seq::empty()
        }) + seq![("content"@, JsonV::Object(content))],
    )
}

fn object_schema() -> (r: Json)
    ensures
        r@ == JsonV::Object(seq![("type"@, JsonV::Str("object"@))]),
{
    let mut f: Vec<(String, Json)> = Vec::new();
    f.push((owned("type"), jstr("object")));
    proof {
        lemma_object_view(f);
    }
    assert(fields_view(f@) =~= seq![("type"@, JsonV::Str("object"@))]);
    Json::Object(f)
}

pub fn body_param_to_request_body(p: &Json, consumes: &Vec<String>) -> (r: Json)
    ensures
        r@ == request_body_of(p@, strings_view(consumes@)),
{
    let schema = match p.get("schema") {
        Some(s) => s.deep_clone(),
        None => object_schema(),
    };
    let mts = media_list(consumes, "application/json");
    let mut content: Vec<(String, Json)> = Vec::new();
    assert(fields_view(content@) =~= Seq::<(Seq<char>, JsonV)>::empty());
    add_schema_content(&mut content, &mts, &schema);
    let mut body: Vec<(String, Json)> = Vec::new();
    if let Some(d) = p.get("description") {
        if !d.is_null() {
            body.push((owned("description"), d.deep_clone()));
        }
    }
    let required = match p.get("required") {
        Some(v) => match v.as_bool() {
            Some(b) => b,
            None => false,
        },
        None => false,
    };
    if required {
        body.push((owned("required"), Json::Bool(true)));
    }
    let ghost b1 = fields_view(body@);
    assert(b1 =~= (match non_null(member(p@, "description"@)) {
        Some(d) => seq![("description"@, d)],
        None => Seq::empty(),
    }) + (if bool_of(member(p@, "required"@)) == Some(true) {
        seq![("required"@, JsonV::Bool(true))]
    } else {
        Seq::empty()
    }));
    proof {
        lemma_object_view(content);
    }
    let c = Json::Object(content);
    let ghost cv = c@;
    body.push((owned("content"), c));
    assert(fields_view(body@) =~= b1 + seq![("content"@, cv)]);
    proof {
        lemma_object_view(body);
    }
    assert(fields_view(body@) =~= request_body_of(p@, strings_view(consumes@))->Object_0);
    Json::Object(body)
}

/// The keys of a form parameter that make its property schema.
pub open spec fn is_form_schema_key(k: Seq<char>) -> bool {
    k == "type"@ || k == "format"@ || k == "items"@ || k == "enum"@ || k == "default"@ || k == "minimum"@
        || k == "maximum"@
}

fn form_schema_key(k: &str) -> (r: bool)
    ensures
        r == is_form_schema_key(k@),
{
    crate::text::str_eq(k, "type") || crate::text::str_eq(k, "format") || crate::text::str_eq(k, "items")
        || crate::text::str_eq(k, "enum") || crate::text::str_eq(k, "default") || crate::text::str_eq(k, "minimum")
        || crate::text::str_eq(k, "maximum")
}

/// The property schema of a form parameter: its value keywords among the first `n` members.
pub open spec fn form_schema(f: Seq<(Seq<char>, JsonV)>, n: int) -> Seq<(Seq<char>, JsonV)>
    decreases n,
{
    if n <= 0 {
        Seq::empty()
    } else {
        let s = form_schema(f, n - 1);
        if is_form_schema_key(f[n - 1].0) {
            insert_field(s, f[n - 1].0, f[n - 1].1)
        } else {
            s
        }
    }
}

/// The name of a form parameter: an object with a string `name`.
pub open spec fn form_name(p: JsonV) -> Option<Seq<char>> {
    match p {
        JsonV::Object(f) => str_of(lookup(f, "name"@)),
        _ => None,
    }
}

/// The `properties` made of the first `n` named form parameters.
pub open spec fn form_properties(params: Seq<JsonV>, n: int) -> Seq<(Seq<char>, JsonV)>
    decreases n,
{
    if n <= 0 {
        Seq::empty()
    } else {
        let props = form_properties(params, n - 1);
        match form_name(params[n - 1]) {
            Some(name) => {
                let f = params[n - 1]->Object_0;
                insert_field(props, name, JsonV::Object(form_schema(f, f.len() as int)))
            },
            None => props,
        }
    }
}

/// The names of the required form parameters among the first `n`.
pub open spec fn form_required(params: Seq<JsonV>, n: int) -> Seq<JsonV>
    decreases n,
{
    if n <= 0 {
        Seq::empty()
    } else {
        let req = form_required(params, n - 1);
        match form_name(params[n - 1]) {
            Some(name) => if bool_of(lookup(params[n - 1]->Object_0, "required"@)) == Some(true) {
                req.push(JsonV::Str(name))
            } else {
                req
            },
            None => req,
        }
    }
}

/// The `requestBody` Swagger 2.0 `in: formData` parameters become: one object schema
/// with a property per named parameter, under each consumed media type
/// (`application/x-www-form-urlencoded` when none).
pub open spec fn form_request_body(params: Seq<JsonV>, consumes: Seq<Seq<char>>) -> JsonV {
    let req = form_required(params, params.len() as int);
    let schema = JsonV::Object(
        seq![("type"@, JsonV::Str("object"@)), ("properties"@, JsonV::Object(form_properties(params, params.len() as int)))]
            + if req.len() > 0 {
            seq![("required"@, JsonV::Array(req))]
        } else {
            Seq::empty()
        },
    );
    let content = schema_content(Seq::empty(), media_types(consumes, "application/x-www-form-urlencoded"@), schema);
    JsonV::Object(seq![("content"@, JsonV::Object(content))])
}

pub fn form_params_to_request_body(params: &Vec<Json>, consumes: &Vec<String>) -> (r: Json)
    ensures
        r@ == form_request_body(elems_view(params@), strings_view(consumes@)),
{
    let ghost pv = elems_view(params@);
    let mut properties: Vec<(String, Json)> = Vec::new();
    let mut required: Vec<Json> = Vec::new();
    let mut i: usize = 0;
    while i < params.len()
        invariant
            i <= params.len(),
            pv == elems_view(params@),
            fields_view(properties@) == form_properties(pv, i as int),
            elems_view(required@) == form_required(pv, i as int),
        decreases params.len() - i,
    {
        if let Some(obj) = params[i].as_object() {
            if let Some(nv) = field_get(obj, "name") {
                if let Some(name) = nv.as_str() {
                    let ghost fv = fields_view(obj@);
                    let mut schema: Vec<(String, Json)> = Vec::new();
                    let mut j: usize = 0;
                    while j < obj.len()
                        invariant
                            j <= obj.len(),
                            fv == fields_view(obj@),
                            fields_view(schema@) == form_schema(fv, j as int),
                        decreases obj.len() - j,
                    {
                        if form_schema_key(obj[j].0.as_str()) {
                            field_insert(&mut schema, obj[j].0.clone(), obj[j].1.deep_clone());
                        }
                        j = j + 1;
                    }
                    proof {
                        lemma_object_view(schema);
                    }
                    field_insert(&mut properties, name.clone(), Json::Object(schema));
                    let req = match field_get(obj, "required") {
                        Some(v) => match v.as_bool() {
                            Some(b) => b,
                            None => false,
                        },
                        None => false,
                    };
                    if req {
                        let ghost before = elems_view(required@);
                        required.push(Json::Str(name.clone()));
                        assert(elems_view(required@) =~= before.push(JsonV::Str(name@)));
                    }
                }
            }
        }
        i = i + 1;
    }
    let mut schema_obj: Vec<(String, Json)> = Vec::new();
    schema_obj.push((owned("type"), jstr("object")));
    proof {
        lemma_object_view(properties);
    }
    let props = Json::Object(properties);
    let ghost propsv = props@;
    schema_obj.push((owned("properties"), props));
    let ghost s1 = fields_view(schema_obj@);
    assert(s1 =~= seq![("type"@, JsonV::Str("object"@)), ("properties"@, propsv)]);
    if required.len() > 0 {
        proof {
            lemma_array_view(required);
        }
        let rq = Json::Array(required);
        let ghost rqv = rq@;
        schema_obj.push((owned("required"), rq));
        assert(fields_view(schema_obj@) =~= s1 + seq![("required"@, rqv)]);
    }
    proof {
        lemma_object_view(schema_obj);
    }
    let schema = Json::Object(schema_obj);
    let mts = media_list(consumes, "application/x-www-form-urlencoded");
    let mut content: Vec<(String, Json)> = Vec::new();
    assert(fields_view(content@) =~= Seq::<(Seq<char>, JsonV)>::empty());
    add_schema_content(&mut content, &mts, &schema);
    proof {
        lemma_object_view(content);
    }
    let c = Json::Object(content);
    let ghost cv = c@;
    let mut out: Vec<(String, Json)> = Vec::new();
    out.push((owned("content"), c));
    proof {
        lemma_object_view(out);
    }
    assert(fields_view(out@) =~= seq![("content"@, cv)]);
    Json::Object(out)
}

/// The view of an optional value.
pub open spec fn owned_view(o: Option<Json>) -> Option<JsonV> {
    match o {
        Some(j) => Some(j@),
        None => None,
    }
}

/// What converting an operation has gathered: its members so far, its converted
/// parameters, its `in: body` parameter (the last one) and its `in: formData` parameters.
pub type OpState = (Seq<(Seq<char>, JsonV)>, Seq<JsonV>, Option<JsonV>, Seq<JsonV>);

/// One parameter sorted: body, form data, or converted and kept.
pub open spec fn param_step(st: OpState, p: JsonV) -> OpState {
    match str_of(member(p, "in"@)) {
        Some(x) => if x == "body"@ {
            (st.0, st.1, Some(p), st.3)
        } else if x == "formData"@ {
            (st.0, st.1, st.2, st.3.push(p))
        } else {
            (st.0, st.1.push(converted_parameter(p)), st.2, st.3)
        },
        None => (st.0, st.1.push(converted_parameter(p)), st.2, st.3),
    }
}

/// The first `n` parameters of `a` sorted in turn.
pub open spec fn params_fold(st: OpState, a: Seq<JsonV>, n: int) -> OpState
    decreases n,
{
    if n <= 0 {
        st
    } else {
        param_step(params_fold(st, a, n - 1), a[n - 1])
    }
}

/// One member of an operation: `consumes`, `produces` and `schemes` are absorbed,
/// `parameters` sorted, `responses` converted, anything else kept.
pub open spec fn op_step(st: OpState, k: Seq<char>, v: JsonV, produces: Seq<Seq<char>>) -> OpState {
    if k == "consumes"@ || k == "produces"@ || k == "schemes"@ {
        st
    } else if k == "parameters"@ {
        match v {
            JsonV::Array(a) => params_fold(st, a, a.len() as int),
            _ => st,
        }
    } else if k == "responses"@ {
        (insert_field(st.0, "responses"@, converted_responses(v, produces)), st.1, st.2, st.3)
    } else {
        (insert_field(st.0, k, v), st.1, st.2, st.3)
    }
}

/// The first `n` members of an operation taken in turn.
pub open spec fn op_fold(f: Seq<(Seq<char>, JsonV)>, n: int, produces: Seq<Seq<char>>) -> OpState
    decreases n,
{
    if n <= 0 {
        (Seq::empty(), Seq::empty(), None, Seq::empty())
    } else {
        op_step(op_fold(f, n - 1, produces), f[n - 1].0, f[n - 1].1, produces)
    }
}

/// A Swagger 2.0 operation in OpenAPI 3.0 form: parameters converted, a body or form
/// parameters turned into `requestBody`, responses converted under the operation's
/// media types (else the global ones).
pub open spec fn converted_operation(op: JsonV, g_consumes: Seq<Seq<char>>, g_produces: Seq<Seq<char>>) -> JsonV {
    match op {
        JsonV::Object(f) => {
            let consumes = strings_or(strings_of_member(lookup(f, "consumes"@)), g_consumes);
            let produces = strings_or(strings_of_member(lookup(f, "produces"@)), g_produces);
            let st = op_fold(f, f.len() as int, produces);
            let o1 = if st.1.len() > 0 {
                insert_field(st.0, "parameters"@, JsonV::Array(st.1))
            } else {
                st.0
            };
            JsonV::Object(
                match st.2 {
                    Some(b) => insert_field(o1, "requestBody"@, request_body_of(b, consumes)),
                    None => if st.3.len() > 0 {
                        insert_field(o1, "requestBody"@, form_request_body(st.3, consumes))
                    } else {
                        o1
                    },
                },
            )
        },
        _ => op,
    }
}

fn in_of(p: &Json) -> (r: u8)
    ensures
        r == 0 <==> str_of(member(p@, "in"@)) == Some("body"@),
        r == 1 <==> str_of(member(p@, "in"@)) == Some("formData"@),
        r <= 2,
{
    proof {
        reveal_strlit("body");
        reveal_strlit("formData");
        assert("body"@.len() == 4);
        assert("formData"@.len() == 8);
    }
    match p.get("in") {
        Some(v) => match v.as_str() {
            Some(s) => if crate::text::str_eq(s.as_str(), "body") {
                0
            } else if crate::text::str_eq(s.as_str(), "formData") {
                1
            } else {
                2
            },
            None => 2,
        },
        None => 2,
    }
}

pub fn convert_operation(op: &Json, g_consumes: &Vec<String>, g_produces: &Vec<String>) -> (r: Json)
    ensures
        r@ == converted_operation(op@, strings_view(g_consumes@), strings_view(g_produces@)),
{
    let f = match op.as_object() {
        Some(f) => f,
        None => return op.deep_clone(),
    };
    let ghost fv = fields_view(f@);
    let consumes = collect_strings_or(field_get(f, "consumes"), g_consumes.as_slice());
    let produces = collect_strings_or(field_get(f, "produces"), g_produces.as_slice());
    let ghost pv = strings_view(produces@);
    let mut out: Vec<(String, Json)> = Vec::new();
    let mut new_parameters: Vec<Json> = Vec::new();
    let mut body_param: Option<Json> = None;
    let mut form_params: Vec<Json> = Vec::new();
    let mut i: usize = 0;
    assert(fields_view(out@) =~= Seq::<(Seq<char>, JsonV)>::empty());
    assert(elems_view(new_parameters@) =~= Seq::<JsonV>::empty());
    assert(elems_view(form_params@) =~= Seq::<JsonV>::empty());
    while i < f.len()
        invariant
            i <= f.len(),
            fv == fields_view(f@),
            pv == strings_view(produces@),
            (fields_view(out@), elems_view(new_parameters@), owned_view(body_param), elems_view(form_params@))
                == op_fold(fv, i as int, pv),
        decreases f.len() - i,
    {
        let k = f[i].0.as_str();
        let v = &f[i].1;
        if crate::text::str_eq(k, "consumes") || crate::text::str_eq(k, "produces") || crate::text::str_eq(k, "schemes") {
        } else if crate::text::str_eq(k, "parameters") {
            proof {
                reveal_strlit("parameters");
                reveal_strlit("consumes");
                reveal_strlit("produces");
                reveal_strlit("schemes");
            }
            if let Some(a) = v.as_array() {
                let ghost st0 = (fields_view(out@), elems_view(new_parameters@), owned_view(body_param), elems_view(form_params@));
                let ghost av = elems_view(a@);
                let mut j: usize = 0;
                while j < a.len()
                    invariant
                        j <= a.len(),
                        av == elems_view(a@),
                        (fields_view(out@), elems_view(new_parameters@), owned_view(body_param), elems_view(form_params@))
                            == params_fold(st0, av, j as int),
                    decreases a.len() - j,
                {
                    let p = &a[j];
                    let kind = in_of(p);
                    if kind == 0 {
                        body_param = Some(p.deep_clone());
                    } else if kind == 1 {
                        let ghost before = elems_view(form_params@);
                        form_params.push(p.deep_clone());
                        assert(elems_view(form_params@) =~= before.push(p@));
                    } else {
                        let ghost before = elems_view(new_parameters@);
                        let c = convert_parameter(p);
                        new_parameters.push(c);
                        assert(elems_view(new_parameters@) =~= before.push(c@));
                    }
                    j = j + 1;
                }
            }
        } else if crate::text::str_eq(k, "responses") {
            proof {
                reveal_strlit("responses");
                reveal_strlit("parameters");
                reveal_strlit("consumes");
                reveal_strlit("produces");
                reveal_strlit("schemes");
            }
            field_insert(&mut out, owned("responses"), convert_responses(v, &produces));
        } else {
            field_insert(&mut out, f[i].0.clone(), v.deep_clone());
        }
        i = i + 1;
    }
    let ghost cv = strings_view(consumes@);
    if new_parameters.len() > 0 {
        proof {
            lemma_array_view(new_parameters);
        }
        field_insert(&mut out, owned("parameters"), Json::Array(new_parameters));
    }
    match body_param {
        Some(b) => {
            field_insert(&mut out, owned("requestBody"), body_param_to_request_body(&b, &consumes));
        },
        None => {
            if form_params.len() > 0 {
                field_insert(&mut out, owned("requestBody"), form_params_to_request_body(&form_params, &consumes));
            }
        },
    }
    proof {
        lemma_object_view(out);
    }
    Json::Object(out)
}

// ---- Swagger 2.0 → OpenAPI 3.0: path items and security schemes ----
/// Each parameter converted.
pub open spec fn converted_params(a: Seq<JsonV>) -> Seq<JsonV> {
    Seq::new(a.len(), |i: int| converted_parameter(a[i]))
}

/// The first `n` members of a path item taken in turn: operations converted, a
/// `parameters` array converted (anything else under that key dropped), the rest kept.
pub open spec fn item_fold(
    f: Seq<(Seq<char>, JsonV)>,
    n: int,
    g_consumes: Seq<Seq<char>>,
    g_produces: Seq<Seq<char>>,
) -> Seq<(Seq<char>, JsonV)>
    decreases n,
{
    if n <= 0 {
        Seq::empty()
    } else {
        let o = item_fold(f, n - 1, g_consumes, g_produces);
        let k = f[n - 1].0;
        let v = f[n - 1].1;
        if method_index(k) >= 0 {
            insert_field(o, k, converted_operation(v, g_consumes, g_produces))
        } else if k == "parameters"@ {
            match v {
                JsonV::Array(a) => insert_field(o, "parameters"@, JsonV::Array(converted_params(a))),
                _ => o,
            }
        } else {
            insert_field(o, k, v)
        }
    }
}

pub open spec fn converted_path_item(item: JsonV, g_consumes: Seq<Seq<char>>, g_produces: Seq<Seq<char>>) -> JsonV {
    match item {
        JsonV::Object(f) => JsonV::Object(item_fold(f, f.len() as int, g_consumes, g_produces)),
        _ => item,
    }
}

pub fn convert_path_item(item: &Json, g_consumes: &Vec<String>, g_produces: &Vec<String>) -> (r: Json)
    ensures
        r@ == converted_path_item(item@, strings_view(g_consumes@), strings_view(g_produces@)),
{
    let f = match item.as_object() {
        Some(f) => f,
        None => return item.deep_clone(),
    };
    let ghost fv = fields_view(f@);
    let mut out: Vec<(String, Json)> = Vec::new();
    let mut i: usize = 0;
    while i < f.len()
        invariant
            i <= f.len(),
            fv == fields_view(f@),
            fields_view(out@) == item_fold(fv, i as int, strings_view(g_consumes@), strings_view(g_produces@)),
        decreases f.len() - i,
    {
        let k = f[i].0.as_str();
        let v = &f[i].1;
        if crate::commands::operations::find_method(k).is_some() {
            field_insert(&mut out, f[i].0.clone(), convert_operation(v, g_consumes, g_produces));
        } else if crate::text::str_eq(k, "parameters") {
            if let Some(a) = v.as_array() {
                let mut ps: Vec<Json> = Vec::new();
                let mut j: usize = 0;
                while j < a.len()
                    invariant
                        j <= a.len(),
                        ps@.len() == j,
                        forall|q: int| 0 <= q < j ==> (#[trigger] ps@[q])@ == converted_parameter(a@[q]@),
                    decreases a.len() - j,
                {
                    ps.push(convert_parameter(&a[j]));
                    j = j + 1;
                }
                proof {
                    lemma_array_view(ps);
                    assert(elems_view(ps@) =~= converted_params(elems_view(a@)));
                }
                field_insert(&mut out, owned("parameters"), Json::Array(ps));
            }
        } else {
            field_insert(&mut out, f[i].0.clone(), v.deep_clone());
        }
        i = i + 1;
    }
    proof {
        lemma_object_view(out);
    }
    Json::Object(out)
}

/// The `description` member of a scheme, when it has one.
pub open spec fn description_member(f: Seq<(Seq<char>, JsonV)>) -> Seq<(Seq<char>, JsonV)> {
    match lookup(f, "description"@) {
        Some(d) => seq![("description"@, d)],
        None => Seq::empty(),
    }
}

/// The OpenAPI 3.0 name of a Swagger 2.0 OAuth2 flow.
pub open spec fn flow_name(flow: Seq<char>) -> Seq<char> {
    if flow == "application"@ {
        "clientCredentials"@
    } else if flow == "accessCode"@ {
        "authorizationCode"@
    } else {
        flow
    }
}

/// The flow members of an OAuth2 scheme: `authorizationUrl`, `tokenUrl`, `scopes`, when present.
pub open spec fn flow_members(f: Seq<(Seq<char>, JsonV)>) -> Seq<(Seq<char>, JsonV)> {
    (match lookup(f, "authorizationUrl"@) {
        Some(v) => seq![("authorizationUrl"@, v)],
        None => Seq::empty(),
    }) + (match lookup(f, "tokenUrl"@) {
        Some(v) => seq![("tokenUrl"@, v)],
        None => Seq::empty(),
    }) + (match lookup(f, "scopes"@) {
        Some(v) => seq![("scopes"@, v)],
        None => Seq::empty(),
    })
}

/// A Swagger 2.0 security scheme in OpenAPI 3.0 form: `basic` becomes `http` with
/// `scheme: basic`; `oauth2` gets its flow under `flows.<flow>` (`implicit` when none);
/// others are kept.
pub open spec fn converted_security_scheme(scheme: JsonV) -> JsonV {
    match scheme {
        JsonV::Object(f) => {
            let ty = match str_of(lookup(f, "type"@)) {
                Some(t) => t,
                None => Seq::empty(),
            };
            if ty == "basic"@ {
                JsonV::Object(
                    seq![("type"@, JsonV::Str("http"@)), ("scheme"@, JsonV::Str("basic"@))] + description_member(f),
                )
            } else if ty == "oauth2"@ {
                let flow = match str_of(lookup(f, "flow"@)) {
                    Some(x) => x,
                    None => "implicit"@,
                };
                JsonV::Object(
                    seq![("type"@, JsonV::Str("oauth2"@))] + description_member(f) + seq![
                        ("flows"@, JsonV::Object(seq![(flow_name(flow), JsonV::Object(flow_members(f)))])),
                    ],
                )
            } else {
                scheme
            }
        },
        _ => scheme,
    }
}

fn push_if_present(out: &mut Vec<(String, Json)>, f: &Vec<(String, Json)>, k: &str)
    ensures
        fields_view(final(out)@) == fields_view(old(out)@) + match lookup(fields_view(f@), k@) {
            Some(v) => seq![(k@, v)],
            None => Seq::empty(),
        },
{
    match field_get(f, k) {
        Some(v) => {
            let ghost before = fields_view(out@);
            out.push((owned(k), v.deep_clone()));
            assert(fields_view(out@) =~= before + seq![(k@, v@)]);
        },
        None => {
            assert(fields_view(out@) =~= fields_view(old(out)@) + Seq::<(Seq<char>, JsonV)>::empty());
        },
    }
}

pub fn convert_security_scheme(scheme: &Json) -> (r: Json)
    ensures
        r@ == converted_security_scheme(scheme@),
{
    let f = match scheme.as_object() {
        Some(f) => f,
        None => return scheme.deep_clone(),
    };
    let ghost fv = fields_view(f@);
    let ty: &str = match field_get(f, "type") {
        Some(v) => match v.as_str() {
            Some(t) => t.as_str(),
            None => "",
        },
        None => "",
    };
    proof {
        reveal_strlit("");
        reveal_strlit("basic");
        reveal_strlit("oauth2");
        reveal_strlit("application");
        reveal_strlit("accessCode");
        assert("basic"@.len() == 5 && "oauth2"@.len() == 6);
        assert("application"@.len() == 11 && "accessCode"@.len() == 10);
    }
    if crate::text::str_eq(ty, "basic") {
        let mut out: Vec<(String, Json)> = Vec::new();
        out.push((owned("type"), jstr("http")));
        out.push((owned("scheme"), jstr("basic")));
        let ghost o1 = fields_view(out@);
        assert(o1 =~= seq![("type"@, JsonV::Str("http"@)), ("scheme"@, JsonV::Str("basic"@))]);
        push_if_present(&mut out, f, "description");
        proof {
            lemma_object_view(out);
        }
        Json::Object(out)
    } else if crate::text::str_eq(ty, "oauth2") {
        let flow: &str = match field_get(f, "flow") {
            Some(v) => match v.as_str() {
                Some(x) => x.as_str(),
                None => "implicit",
            },
            None => "implicit",
        };
        let name: &str = if crate::text::str_eq(flow, "application") {
            "clientCredentials"
        } else if crate::text::str_eq(flow, "accessCode") {
            "authorizationCode"
        } else {
            flow
        };
        let mut flow_obj: Vec<(String, Json)> = Vec::new();
        assert(fields_view(flow_obj@) =~= Seq::<(Seq<char>, JsonV)>::empty());
        push_if_present(&mut flow_obj, f, "authorizationUrl");
        push_if_present(&mut flow_obj, f, "tokenUrl");
        push_if_present(&mut flow_obj, f, "scopes");
        assert(fields_view(flow_obj@) =~= flow_members(fv));
        proof {
            lemma_object_view(flow_obj);
        }
        let fo = Json::Object(flow_obj);
        let ghost fov = fo@;
        let mut flows: Vec<(String, Json)> = Vec::new();
        flows.push((owned(name), fo));
        proof {
            lemma_object_view(flows);
        }
        assert(fields_view(flows@) =~= seq![(name@, fov)]);
        let fl = Json::Object(flows);
        let ghost flv = fl@;
        let mut out: Vec<(String, Json)> = Vec::new();
        out.push((owned("type"), jstr("oauth2")));
        let ghost o1 = fields_view(out@);
        assert(o1 =~= seq![("type"@, JsonV::Str("oauth2"@))]);
        push_if_present(&mut out, f, "description");
        let ghost o2 = fields_view(out@);
        out.push((owned("flows"), fl));
        assert(fields_view(out@) =~= o2 + seq![("flows"@, flv)]);
        proof {
            lemma_object_view(out);
        }
        Json::Object(out)
    } else {
        scheme.deep_clone()
    }
}

// ---- Swagger 2.0 → OpenAPI 3.0: the document ----
/// `{"url": "<scheme>://<host><base>"}` for each scheme.
pub open spec fn server_urls(schemes: Seq<Seq<char>>, host: Seq<char>, base: Seq<char>) -> Seq<JsonV> {
    Seq::new(schemes.len(), |i: int| JsonV::Object(seq![("url"@, JsonV::Str(schemes[i] + "://"@ + host + base))]))
}

/// The `servers` of a Swagger 2.0 spec: one per scheme (`https` when none), when it has a `host`.
pub open spec fn servers_of(spec: JsonV) -> Option<JsonV> {
    match str_of(member(spec, "host"@)) {
        Some(host) => {
            let base = match str_of(member(spec, "basePath"@)) {
                Some(b) => b,
                None => Seq::empty(),
            };
            let schemes = strings_or(strings_of_member(member(spec, "schemes"@)), seq!["https"@]);
            Some(JsonV::Array(server_urls(schemes, host, base)))
        },
        None => None,
    }
}

pub fn build_servers(spec: &Json) -> (r: Option<Json>)
    ensures
        match servers_of(spec@) {
            Some(v) => r matches Some(j) && j@ == v,
            None => r is None,
        },
{
    let host: &String = match spec.get("host") {
        Some(h) => match h.as_str() {
            Some(x) => x,
            None => return None,
        },
        None => return None,
    };
    let empty = String::new();
    let base: &String = match spec.get("basePath") {
        Some(b) => match b.as_str() {
            Some(x) => x,
            None => &empty,
        },
        None => &empty,
    };
    let mut https: Vec<String> = Vec::new();
    https.push(owned("https"));
    assert(strings_view(https@) =~= seq!["https"@]);
    let schemes = collect_strings_or(spec.get("schemes"), https.as_slice());
    let ghost sv = strings_view(schemes@);
    let mut urls: Vec<Json> = Vec::new();
    let mut i: usize = 0;
    while i < schemes.len()
        invariant
            i <= schemes.len(),
            sv == strings_view(schemes@),
            urls@.len() == i,
            forall|q: int| 0 <= q < i ==> (#[trigger] urls@[q])@ == JsonV::Object(
                seq![("url"@, JsonV::Str(sv[q] + "://"@ + host@ + base@))],
            ),
        decreases schemes.len() - i,
    {
        let mut u = crate::text::concat3(schemes[i].as_str(), "://", host.as_str());
        crate::text::push_str(&mut u, base.as_str());
        let ghost uv = u@;
        let mut f: Vec<(String, Json)> = Vec::new();
        f.push((owned("url"), Json::Str(u)));
        proof {
            lemma_object_view(f);
        }
        assert(fields_view(f@) =~= seq![("url"@, JsonV::Str(sv[i as int] + "://"@ + host@ + base@))]);
        urls.push(Json::Object(f));
        i = i + 1;
    }
    proof {
        lemma_array_view(urls);
        assert(elems_view(urls@) =~= server_urls(sv, host@, base@));
    }
    Some(Json::Array(urls))
}

/// The first `n` parameters converted, inserted in turn.
pub open spec fn params_map(f: Seq<(Seq<char>, JsonV)>, n: int) -> Seq<(Seq<char>, JsonV)>
    decreases n,
{
    if n <= 0 {
        Seq::empty()
    } else {
        insert_field(params_map(f, n - 1), f[n - 1].0, converted_parameter(f[n - 1].1))
    }
}

/// The first `n` security schemes converted, inserted in turn.
pub open spec fn schemes_map(f: Seq<(Seq<char>, JsonV)>, n: int) -> Seq<(Seq<char>, JsonV)>
    decreases n,
{
    if n <= 0 {
        Seq::empty()
    } else {
        insert_field(schemes_map(f, n - 1), f[n - 1].0, converted_security_scheme(f[n - 1].1))
    }
}

/// The `components` of a converted spec: `definitions` as `schemas`, and the top-level
/// parameters, responses and security definitions, converted.
pub open spec fn components_of(spec: JsonV) -> Seq<(Seq<char>, JsonV)> {
    (match object_of(member(spec, "definitions"@)) {
        Some(d) => seq![("schemas"@, JsonV::Object(d))],
        None => Seq::empty(),
    }) + (match object_of(member(spec, "parameters"@)) {
        Some(ps) => seq![("parameters"@, JsonV::Object(params_map(ps, ps.len() as int)))],
        None => Seq::empty(),
    }) + (match object_of(member(spec, "responses"@)) {
        Some(rs) => seq![("responses"@, JsonV::Object(responses_fold(rs, rs.len() as int, Seq::empty())))],
        None => Seq::empty(),
    }) + (match object_of(member(spec, "securityDefinitions"@)) {
        Some(ss) => seq![("securitySchemes"@, JsonV::Object(schemes_map(ss, ss.len() as int)))],
        None => Seq::empty(),
    })
}

pub fn build_components(spec: &Json) -> (r: Vec<(String, Json)>)
    ensures
        fields_view(r@) == components_of(spec@),
{
    let mut out: Vec<(String, Json)> = Vec::new();
    assert(fields_view(out@) =~= Seq::<(Seq<char>, JsonV)>::empty());
    if let Some(d) = spec.get("definitions") {
        if let Some(df) = d.as_object() {
            let c = crate::json::clone_fields(df);
            proof {
                lemma_object_view(c);
            }
            out.push((owned("schemas"), Json::Object(c)));
        }
    }
    let ghost o1 = fields_view(out@);
    if let Some(p) = spec.get("parameters") {
        if let Some(pf) = p.as_object() {
            let ghost pv = fields_view(pf@);
            let mut m: Vec<(String, Json)> = Vec::new();
            let mut i: usize = 0;
            while i < pf.len()
                invariant
                    i <= pf.len(),
                    pv == fields_view(pf@),
                    fields_view(m@) == params_map(pv, i as int),
                decreases pf.len() - i,
            {
                field_insert(&mut m, pf[i].0.clone(), convert_parameter(&pf[i].1));
                i = i + 1;
            }
            proof {
                lemma_object_view(m);
            }
            let mo = Json::Object(m);
            let ghost mov = mo@;
            out.push((owned("parameters"), mo));
            assert(fields_view(out@) =~= o1 + seq![("parameters"@, mov)]);
        }
    }
    let ghost o2 = fields_view(out@);
    if let Some(r) = spec.get("responses") {
        if let Some(rf) = r.as_object() {
            let none: Vec<String> = Vec::new();
            assert(strings_view(none@) =~= Seq::<Seq<char>>::empty());
            let rv = convert_responses(r, &none);
            let ghost rvv = rv@;
            out.push((owned("responses"), rv));
            assert(fields_view(out@) =~= o2 + seq![("responses"@, rvv)]);
        }
    }
    let ghost o3 = fields_view(out@);
    if let Some(sd) = spec.get("securityDefinitions") {
        if let Some(sf) = sd.as_object() {
            let ghost sv = fields_view(sf@);
            let mut m: Vec<(String, Json)> = Vec::new();
            let mut i: usize = 0;
            while i < sf.len()
                invariant
                    i <= sf.len(),
                    sv == fields_view(sf@),
                    fields_view(m@) == schemes_map(sv, i as int),
                decreases sf.len() - i,
            {
                field_insert(&mut m, sf[i].0.clone(), convert_security_scheme(&sf[i].1));
                i = i + 1;
            }
            proof {
                lemma_object_view(m);
            }
            let mo = Json::Object(m);
            let ghost mov = mo@;
            out.push((owned("securitySchemes"), mo));
            assert(fields_view(out@) =~= o3 + seq![("securitySchemes"@, mov)]);
        }
    }
    out
}

/// `acc` with the `x-` members among the first `n` of `f` inserted in turn.
pub open spec fn x_fold(acc: Seq<(Seq<char>, JsonV)>, f: Seq<(Seq<char>, JsonV)>, n: int) -> Seq<(Seq<char>, JsonV)>
    decreases n,
{
    if n <= 0 {
        acc
    } else {
        let a = x_fold(acc, f, n - 1);
        if is_prefix("x-"@, f[n - 1].0) {
            insert_field(a, f[n - 1].0, f[n - 1].1)
        } else {
            a
        }
    }
}

/// The first `n` path items converted, inserted in turn.
pub open spec fn paths_fold(f: Seq<(Seq<char>, JsonV)>, n: int, gc: Seq<Seq<char>>, gp: Seq<Seq<char>>) -> Seq<(Seq<char>, JsonV)>
    decreases n,
{
    if n <= 0 {
        Seq::empty()
    } else {
        insert_field(paths_fold(f, n - 1, gc, gp), f[n - 1].0, converted_path_item(f[n - 1].1, gc, gp))
    }
}

/// A member `k: v` when the spec has `k` and it is not `null`.
pub open spec fn kept_member(spec: JsonV, k: Seq<char>) -> Seq<(Seq<char>, JsonV)> {
    match non_null(member(spec, k)) {
        Some(v) => seq![(k, v)],
        None => Seq::empty(),
    }
}

/// The top-level members of the converted document, before `$ref`s are rewritten.
pub open spec fn openapi30_members(spec: JsonV) -> Seq<(Seq<char>, JsonV)> {
    let t = seq![("openapi"@, JsonV::Str("3.0.3"@))] + (match member(spec, "info"@) {
        Some(i) => seq![("info"@, i)],
        None => Seq::empty(),
    }) + (match servers_of(spec) {
        Some(sv) => seq![("servers"@, sv)],
        None => Seq::empty(),
    }) + kept_member(spec, "tags"@) + kept_member(spec, "security"@) + kept_member(spec, "externalDocs"@);
    let t4 = match spec {
        JsonV::Object(f) => x_fold(t, f, f.len() as int),
        _ => t,
    };
    let gc = strings_of_member(member(spec, "consumes"@));
    let gp = strings_of_member(member(spec, "produces"@));
    let t5 = match object_of(member(spec, "paths"@)) {
        Some(ps) => insert_field(t4, "paths"@, JsonV::Object(paths_fold(ps, ps.len() as int, gc, gp))),
        None => t4,
    };
    let comps = components_of(spec);
    if comps.len() > 0 {
        insert_field(t5, "components"@, JsonV::Object(comps))
    } else {
        t5
    }
}

/// Swagger 2.0 → OpenAPI 3.0.3: version, info, servers from host/basePath/schemes, tags,
/// security, externalDocs and `x-` extensions carried over, paths and components
/// converted, and references moved under `components`.
pub open spec fn swagger2_converted(spec: JsonV) -> JsonV {
    refs_rewritten(JsonV::Object(openapi30_members(spec)))
}

fn push_kept(out: &mut Vec<(String, Json)>, spec: &Json, k: &str)
    ensures
        fields_view(final(out)@) == fields_view(old(out)@) + kept_member(spec@, k@),
{
    if let Some(v) = spec.get(k) {
        if !v.is_null() {
            let ghost before = fields_view(out@);
            out.push((owned(k), v.deep_clone()));
            assert(fields_view(out@) =~= before + seq![(k@, v@)]);
            return;
        }
    }
    assert(fields_view(out@) =~= fields_view(old(out)@) + kept_member(spec@, k@));
}

pub fn swagger2_to_openapi30(spec: &Json) -> (r: Json)
    ensures
        r@ == swagger2_converted(spec@),
{
    let mut out: Vec<(String, Json)> = Vec::new();
    out.push((owned("openapi"), jstr("3.0.3")));
    let ghost t0 = fields_view(out@);
    assert(t0 =~= seq![("openapi"@, JsonV::Str("3.0.3"@))]);
    if let Some(info) = spec.get("info") {
        out.push((owned("info"), info.deep_clone()));
    }
    let ghost t1 = fields_view(out@);
    assert(t1 =~= t0 + match member(spec@, "info"@) {
        Some(i) => seq![("info"@, i)],
        None => Seq::empty(),
    });
    if let Some(servers) = build_servers(spec) {
        out.push((owned("servers"), servers));
    }
    assert(fields_view(out@) =~= t1 + match servers_of(spec@) {
        Some(sv) => seq![("servers"@, sv)],
        None => Seq::empty(),
    });
    push_kept(&mut out, spec, "tags");
    push_kept(&mut out, spec, "security");
    push_kept(&mut out, spec, "externalDocs");
    let ghost t = fields_view(out@);
    if let Some(f) = spec.as_object() {
        let ghost fv = fields_view(f@);
        let mut i: usize = 0;
        while i < f.len()
            invariant
                i <= f.len(),
                fv == fields_view(f@),
                fields_view(out@) == x_fold(t, fv, i as int),
            decreases f.len() - i,
        {
            if starts_with(f[i].0.as_str(), "x-") {
                field_insert(&mut out, f[i].0.clone(), f[i].1.deep_clone());
            }
            i = i + 1;
        }
    }
    let global_consumes = collect_strings(spec.get("consumes"));
    let global_produces = collect_strings(spec.get("produces"));
    if let Some(p) = spec.get("paths") {
        if let Some(pf) = p.as_object() {
            let ghost pv = fields_view(pf@);
            let mut m: Vec<(String, Json)> = Vec::new();
            let mut i: usize = 0;
            while i < pf.len()
                invariant
                    i <= pf.len(),
                    pv == fields_view(pf@),
                    fields_view(m@) == paths_fold(pv, i as int, strings_view(global_consumes@), strings_view(global_produces@)),
                decreases pf.len() - i,
            {
                field_insert(&mut m, pf[i].0.clone(), convert_path_item(&pf[i].1, &global_consumes, &global_produces));
                i = i + 1;
            }
            proof {
                lemma_object_view(m);
            }
            field_insert(&mut out, owned("paths"), Json::Object(m));
        }
    }
    let components = build_components(spec);
    if components.len() > 0 {
        proof {
            lemma_object_view(components);
        }
        field_insert(&mut out, owned("components"), Json::Object(components));
    }
    proof {
        lemma_object_view(out);
    }
    assert(fields_view(out@) == openapi30_members(spec@));
    let doc = Json::Object(out);
    rewrite_refs(&doc)
}

/// What `convert` gives: the converted document, or the message of why it cannot.
pub open spec fn converted(spec: JsonV, target: Seq<char>) -> Result<JsonV, Seq<char>> {
    let swagger = str_of(member(spec, "swagger"@));
    let openapi = str_of(member(spec, "openapi"@));
    if swagger == Some("2.0"@) {
        if target == "3.0"@ {
            Ok(swagger2_converted(spec))
        } else if target == "3.1"@ {
            Ok(to31(with_version(swagger2_converted(spec), "3.1.0"@)))
        } else {
            Err("conversion to "@ + target + " from Swagger 2.0 is not implemented"@)
        }
    } else if swagger is None && openapi is Some {
        let v = openapi->0;
        if target == "3.0"@ && is_prefix("3.0"@, v) {
            Ok(spec)
        } else if target == "3.1"@ && is_prefix("3.0"@, v) {
            Ok(to31(with_version(spec, "3.1.0"@)))
        } else if is_prefix("3."@, v) && v == target {
            Ok(spec)
        } else {
            Err("conversion to "@ + target + " from OpenAPI 3.x is not implemented"@)
        }
    } else {
        Err("unable to determine source spec version; target="@ + target)
    }
}

/// `convert`: forward conversions only — Swagger 2.0 → 3.0 and 3.1, OpenAPI 3.0 → 3.1,
/// and a 3.x spec to its own version.
pub fn run(spec: &Json, target: &str) -> (r: Result<Json, OadigError>)
    ensures
        match converted(spec@, target@) {
            Ok(v) => r matches Ok(j) && j@ == v,
            Err(m) => r matches Err(e) && is_other(&e, m),
        },
{
    let swagger: Option<&String> = match spec.get("swagger") {
        Some(v) => v.as_str(),
        None => None,
    };
    let openapi: Option<&String> = match spec.get("openapi") {
        Some(v) => v.as_str(),
        None => None,
    };
    let is_v2 = match swagger {
        Some(s) => crate::text::str_eq(s.as_str(), "2.0"),
        None => false,
    };
    if is_v2 {
        if crate::text::str_eq(target, "3.0") {
            return Ok(swagger2_to_openapi30(spec));
        } else if crate::text::str_eq(target, "3.1") {
            let v30 = swagger2_to_openapi30(spec);
            return Ok(openapi30_to_openapi31(&v30));
        } else {
            return Err(OadigError::Other(crate::text::concat3(
                "conversion to ",
                target,
                " from Swagger 2.0 is not implemented",
            )));
        }
    }
    if swagger.is_none() {
        if let Some(v) = openapi {
            let is30 = starts_with(v.as_str(), "3.0");
            if crate::text::str_eq(target, "3.0") && is30 {
                return Ok(spec.deep_clone());
            } else if crate::text::str_eq(target, "3.1") && is30 {
                return Ok(openapi30_to_openapi31(spec));
            } else if starts_with(v.as_str(), "3.") && crate::text::str_eq(v.as_str(), target) {
                return Ok(spec.deep_clone());
            } else {
                return Err(OadigError::Other(crate::text::concat3(
                    "conversion to ",
                    target,
                    " from OpenAPI 3.x is not implemented",
                )));
            }
        }
    }
    Err(OadigError::Other(crate::text::concat("unable to determine source spec version; target=", target)))
}

} // verus!
