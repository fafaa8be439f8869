//! `requests`: the `requestBody` of every operation that has one.

use vstd::prelude::*;
use crate::commands::operations::{
    collect_ops, in_place, method_at, method_name, ops_of, ops_view, origin_in, origin_with, resolve_in_place, METHOD_COUNT,
};
use crate::json::{elems_view, fields_view, lemma_array_view, lemma_object_view, member, non_null, Json, JsonV};
use crate::resolver::ResolveOptions;
use crate::text::{ascii_uppercase, owned, upper};

verus! {

/// An entry `{method, path, <key>: value}`.
pub open spec fn op_record(m: int, path: Seq<char>, key: Seq<char>, value: JsonV) -> JsonV {
    JsonV::Object(
        seq![("method"@, JsonV::Str(upper(method_name(m)))), ("path"@, JsonV::Str(path)), (key, value)],
    )
}

/// Builds `{method, path, <key>: value}`.
pub fn make_op_record(m: usize, path: &String, key: &str, value: Json) -> (r: Json)
    requires
        m < METHOD_COUNT,
    ensures
        r@ == op_record(m as int, path@, key@, value@),
{
    let ghost vv = value@;
    let mut out: Vec<(String, Json)> = Vec::new();
    out.push((owned("method"), Json::Str(ascii_uppercase(method_at(m)))));
    out.push((owned("path"), Json::Str(path.clone())));
    out.push((owned(key), value));
    proof {
        lemma_object_view(out);
        assert(fields_view(out@) =~= seq![
            ("method"@, JsonV::Str(upper(method_name(m as int)))),
            ("path"@, JsonV::Str(path@)),
            (key@, vv),
        ]);
    }
    Json::Object(out)
}

/// The entries of the operations among `ops` that have a (non-null) `requestBody`.
pub open spec fn request_entries(spec: JsonV, opts: ResolveOptions, ops: Seq<(int, Seq<char>, JsonV)>) -> Seq<JsonV>
    decreases ops.len(),
{
    if ops.len() == 0 {
        Seq::empty()
    } else {
        let o = ops.last();
        request_entries(spec, opts, ops.drop_last()) + match non_null(member(o.2, "requestBody"@)) {
            Some(b) => seq![op_record(o.0, o.1, "requestBody"@, in_place(spec, opts, b, origin_in("#request/"@, o.0, o.1)))],
            None => Seq::empty(),
        }
    }
}

/// `requests`: `{method, path, requestBody}` for every operation with a request body,
/// the body expanded under `#request/<method>/<path>`.
pub fn run(spec: &Json, opts: ResolveOptions) -> (r: Json)
    ensures
        r@ == JsonV::Array(request_entries(spec@, opts, ops_of(spec@))),
{
    let ops = collect_ops(spec);
    let ghost all = ops_of(spec@);
    let mut out: Vec<Json> = Vec::new();
    let mut i: usize = 0;
    while i < ops.len()
        invariant
            i <= ops.len(),
            ops_view(ops@) == all,
            all == ops_of(spec@),
            forall|j: int| 0 <= j < ops@.len() ==> #[trigger] ops@[j].0 < METHOD_COUNT,
            elems_view(out@) == request_entries(spec@, opts, all.take(i as int)),
        decreases ops.len() - i,
    {
        let (m, path, op) = ops[i];
        assert(all.take(i + 1).drop_last() =~= all.take(i as int));
        assert(all[i as int] == (m as int, path@, op@));
        let ghost before = out@;
        match op.get("requestBody") {
            Some(raw) => {
                if !raw.is_null() {
                    let origin = origin_with("#request/", m, path.as_str());
                    let body = resolve_in_place(raw.deep_clone(), spec, opts, origin.as_str());
                    let e = make_op_record(m, path, "requestBody", body);
                    out.push(e);
                    assert(elems_view(out@) =~= elems_view(before).push(e@));
                }
            },
            None => {},
        }
        i = i + 1;
    }
    assert(all.take(all.len() as int) =~= all);
    proof {
        lemma_array_view(out);
    }
    Json::Array(out)
}

} // verus!
