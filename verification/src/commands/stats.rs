//! `stats`: counts of paths, operations, schemas and tags, and operations per method and tag.

use vstd::prelude::*;
use crate::commands::operations::{collect_ops, method_at, method_name, ops_of, ops_view, METHOD_COUNT};
use crate::json::{array_of, elems_view, fields_view, lemma_object_view, member, object_of, Json, JsonV, Number};
use crate::pointer::pointer_of;
use crate::table::{count_members, count_object, count_total, counting, strings_view, uint_json};
use crate::text::{ascii_uppercase, owned, upper};

verus! {

/// The upper-case method of each operation.
pub open spec fn method_keys(ops: Seq<(int, Seq<char>, JsonV)>) -> Seq<Seq<char>> {
    Seq::new(ops.len(), |i: int| upper(method_name(ops[i].0)))
}

/// The strings among `a`, in order.
pub open spec fn strings_in(a: Seq<JsonV>) -> Seq<Seq<char>>
    decreases a.len(),
{
    if a.len() == 0 {
        Seq::empty()
    } else {
        strings_in(a.drop_last()) + match a.last() {
            JsonV::Str(s) => seq![s],
            _ => Seq::empty(),
        }
    }
}

/// The string tags of an operation.
pub open spec fn op_tags(op: JsonV) -> Seq<Seq<char>> {
    match array_of(member(op, "tags"@)) {
        Some(a) => strings_in(a),
        None => Seq::empty(),
    }
}

/// The string tags of each operation, in order.
pub open spec fn tag_keys(ops: Seq<(int, Seq<char>, JsonV)>) -> Seq<Seq<char>>
    decreases ops.len(),
{
    if ops.len() == 0 {
        Seq::empty()
    } else {
        tag_keys(ops.drop_last()) + op_tags(ops.last().2)
    }
}

pub open spec fn path_count(spec: JsonV) -> nat {
    match object_of(member(spec, "paths"@)) {
        Some(f) => f.len(),
        None => 0,
    }
}

pub open spec fn schema_count(spec: JsonV) -> nat {
    match object_of(pointer_of(spec, "/components/schemas"@)) {
        Some(f) => f.len(),
        None => 0,
    }
}

pub open spec fn declared_tag_count(spec: JsonV) -> nat {
    match array_of(member(spec, "tags"@)) {
        Some(a) => a.len(),
        None => 0,
    }
}

/// The `stats` object of a spec: `paths`, `operations`, `schemas`, `tags_declared`,
/// then the operations per method and per tag, keys ascending.
pub open spec fn stats_view(spec: JsonV) -> JsonV {
    let ops = ops_of(spec);
    JsonV::Object(
        seq![
            ("paths"@, uint_json(path_count(spec))),
            ("operations"@, uint_json(ops.len())),
            ("schemas"@, uint_json(schema_count(spec))),
            ("tags_declared"@, uint_json(declared_tag_count(spec))),
            ("by_method"@, JsonV::Object(count_members(counting(method_keys(ops))))),
            ("by_tag"@, JsonV::Object(count_members(counting(tag_keys(ops))))),
        ],
    )
}

/// Appends the strings among `a` to `out`.
pub fn push_strings(out: &mut Vec<String>, a: &Vec<Json>)
    ensures
        strings_view(final(out)@) == strings_view(old(out)@) + strings_in(elems_view(a@)),
{
    let ghost av = elems_view(a@);
    let mut i: usize = 0;
    assert(av.take(0) =~= Seq::<JsonV>::empty());
    assert(strings_view(out@) =~= strings_view(old(out)@) + strings_in(av.take(0)));
    while i < a.len()
        invariant
            i <= a.len(),
            av == elems_view(a@),
            strings_view(out@) == strings_view(old(out)@) + strings_in(av.take(i as int)),
        decreases a.len() - i,
    {
        assert(av.take(i + 1).drop_last() =~= av.take(i as int));
        let ghost before = out@;
        if let Some(s) = a[i].as_str() {
            out.push(s.clone());
            assert(strings_view(out@) =~= strings_view(before).push(s@));
        }
        i = i + 1;
    }
    assert(av.take(a.len() as int) =~= av);
}

/// Appends the string tags of `op` to `out`.
pub fn push_tags(out: &mut Vec<String>, op: &Json)
    ensures
        strings_view(final(out)@) == strings_view(old(out)@) + op_tags(op@),
{
    match op.get("tags") {
        Some(t) => match t.as_array() {
            Some(a) => {
                push_strings(out, a);
            },
            None => {
                assert(strings_view(out@) =~= strings_view(old(out)@) + op_tags(op@));
            },
        },
        None => {
            assert(strings_view(out@) =~= strings_view(old(out)@) + op_tags(op@));
        },
    }
}

/// The string tags of every operation among `ops`, in order.
pub fn all_tags(ops: &Vec<(usize, &String, &Json)>) -> (r: Vec<String>)
    ensures
        strings_view(r@) == tag_keys(ops_view(ops@)),
{
    let ghost all = ops_view(ops@);
    let mut out: Vec<String> = Vec::new();
    let mut i: usize = 0;
    assert(strings_view(out@) =~= tag_keys(all.take(0)));
    while i < ops.len()
        invariant
            i <= ops.len(),
            all == ops_view(ops@),
            strings_view(out@) == tag_keys(all.take(i as int)),
        decreases ops.len() - i,
    {
        assert(all.take(i + 1).drop_last() =~= all.take(i as int));
        push_tags(&mut out, ops[i].2);
        i = i + 1;
    }
    assert(all.take(ops.len() as int) =~= all);
    out
}

fn uint(n: usize) -> (r: Json)
    ensures
        r@ == uint_json(n as nat),
{
    Json::Number(Number::UInt(n as u64))
}

/// `stats`: counts over the spec; operations are counted per upper-case method and per tag,
/// so the per-method counts add up to the number of operations.
pub fn run(spec: &Json) -> (r: Json)
    ensures
        r@ == stats_view(spec@),
        count_total(counting(method_keys(ops_of(spec@)))) == ops_of(spec@).len(),
        count_total(counting(tag_keys(ops_of(spec@)))) == tag_keys(ops_of(spec@)).len(),
{
    let ops = collect_ops(spec);
    let ghost all = ops_of(spec@);
    let path_n: usize = match spec.get("paths") {
        Some(p) => match p.as_object() {
            Some(f) => f.len(),
            None => 0,
        },
        None => 0,
    };
    let mut methods: Vec<String> = Vec::new();
    let mut i: usize = 0;
    while i < ops.len()
        invariant
            i <= ops.len(),
            ops_view(ops@) == all,
            forall|j: int| 0 <= j < ops@.len() ==> #[trigger] ops@[j].0 < METHOD_COUNT,
            strings_view(methods@) == method_keys(all.take(i as int)),
        decreases ops.len() - i,
    {
        let ghost before = methods@;
        let m = ascii_uppercase(method_at(ops[i].0));
        assert(all[i as int].0 == ops@[i as int].0 as int);
        assert(m@ == upper(method_name(all[i as int].0)));
        methods.push(m);
        assert(strings_view(methods@) =~= strings_view(before).push(upper(method_name(all[i as int].0))));
        assert(method_keys(all.take(i + 1)) =~= method_keys(all.take(i as int)).push(upper(method_name(all[i as int].0))));
        i = i + 1;
    }
    assert(all.take(ops.len() as int) =~= all);
    let tags = all_tags(&ops);
    let schema_n: usize = match spec.pointer("/components/schemas") {
        Some(v) => match v.as_object() {
            Some(f) => f.len(),
            None => 0,
        },
        None => 0,
    };
    let declared_n: usize = match spec.get("tags") {
        Some(v) => match v.as_array() {
            Some(a) => a.len(),
            None => 0,
        },
        None => 0,
    };
    let by_method = count_object(&methods);
    let by_tag = count_object(&tags);
    let mut out: Vec<(String, Json)> = Vec::new();
    out.push((owned("paths"), uint(path_n)));
    out.push((owned("operations"), uint(ops.len())));
    out.push((owned("schemas"), uint(schema_n)));
    out.push((owned("tags_declared"), uint(declared_n)));
    out.push((owned("by_method"), by_method));
    out.push((owned("by_tag"), by_tag));
    proof {
        lemma_object_view(out);
        assert(ops.len() == all.len());
        assert(fields_view(out@) =~= stats_view(spec@)->Object_0);
    }
    Json::Object(out)
}


/// `tags_declared` is the length of the spec's top-level `tags` array (0 when there is
/// none), whatever the operations are; `paths` is the number of members of `paths`,
/// `operations` the number of operations and `schemas` the number of schemas under
/// `components`.
pub proof fn law_stats_declared_counts(spec: JsonV)
    ensures
        crate::json::member(stats_view(spec), "tags_declared"@) == Some(
            uint_json(
                match crate::json::member(spec, "tags"@) {
                    Some(JsonV::Array(a)) => a.len(),
                    _ => 0,
                },
            ),
        ),
        crate::json::member(stats_view(spec), "paths"@) == Some(
            uint_json(
                match crate::json::member(spec, "paths"@) {
                    Some(JsonV::Object(f)) => f.len(),
                    _ => 0,
                },
            ),
        ),
        crate::json::member(stats_view(spec), "operations"@) == Some(uint_json(ops_of(spec).len())),
        crate::json::member(stats_view(spec), "schemas"@) == Some(
            uint_json(
                match pointer_of(spec, "/components/schemas"@) {
                    Some(JsonV::Object(f)) => f.len(),
                    _ => 0,
                },
            ),
        ),
{
    reveal_strlit("paths");
    reveal_strlit("operations");
    reveal_strlit("schemas");
    reveal_strlit("tags_declared");
    assert("paths"@.len() == 5 && "operations"@.len() == 10 && "schemas"@.len() == 7 && "tags_declared"@.len() == 13);
    let f = stats_view(spec)->Object_0;
    crate::json::lemma_key_index_at(f, "paths"@, 0);
    crate::json::lemma_key_index_at(f, "tags_declared"@, 3);
    crate::json::lemma_key_index_at(f, "operations"@, 1);
    crate::json::lemma_key_index_at(f, "schemas"@, 2);
}

} // verus!
