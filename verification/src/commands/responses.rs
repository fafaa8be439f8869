//! `responses`: the `responses` of every operation, optionally narrowed to one status.

use vstd::prelude::*;
use crate::commands::operations::{collect_ops, in_place, ops_of, ops_view, origin_in, origin_with, resolve_in_place, METHOD_COUNT};
use crate::commands::requests::{make_op_record, op_record};
use crate::json::{elems_view, lemma_array_view, lemma_object_view, member, non_null, fields_view, Json, JsonV};
use crate::resolver::ResolveOptions;
use crate::text::owned;

verus! {

/// What an operation's entry shows of its (non-null) `responses`: all of them, or a
/// one-member map of the given status; `None` when the status is absent.
pub open spec fn narrowed(raw: JsonV, status: Option<Seq<char>>) -> Option<JsonV> {
    match status {
        Some(code) => match member(raw, code) {
            Some(v) => Some(JsonV::Object(seq![(code, v)])),
            None => None,
        },
        None => Some(raw),
    }
}

/// The entries of the operations among `ops` that have `responses` (with the status, when given).
pub open spec fn response_entries(
    spec: JsonV,
    status: Option<Seq<char>>,
    opts: ResolveOptions,
    ops: Seq<(int, Seq<char>, JsonV)>,
) -> Seq<JsonV>
    decreases ops.len(),
{
    if ops.len() == 0 {
        Seq::empty()
    } else {
        let o = ops.last();
        response_entries(spec, status, opts, ops.drop_last()) + match non_null(member(o.2, "responses"@)) {
            Some(raw) => match narrowed(raw, status) {
                Some(sel) => seq![op_record(o.0, o.1, "responses"@, in_place(spec, opts, sel, origin_in("#responses/"@, o.0, o.1)))],
                None => Seq::empty(),
            },
            None => Seq::empty(),
        }
    }
}

/// `responses`: `{method, path, responses}` for every operation with responses; with a
/// status, only operations that have it, narrowed to it. Expanded under
/// `#responses/<method>/<path>`.
pub fn run(spec: &Json, status: Option<&str>, opts: ResolveOptions) -> (r: Json)
    ensures
        r@ == JsonV::Array(response_entries(spec@, crate::commands::operations::opt_str_view(status), opts, ops_of(spec@))),
{
    let ghost st = crate::commands::operations::opt_str_view(status);
    let ops = collect_ops(spec);
    let ghost all = ops_of(spec@);
    let mut out: Vec<Json> = Vec::new();
    let mut i: usize = 0;
    while i < ops.len()
        invariant
            i <= ops.len(),
            ops_view(ops@) == all,
            all == ops_of(spec@),
            st == crate::commands::operations::opt_str_view(status),
            forall|j: int| 0 <= j < ops@.len() ==> #[trigger] ops@[j].0 < METHOD_COUNT,
            elems_view(out@) == response_entries(spec@, st, opts, all.take(i as int)),
        decreases ops.len() - i,
    {
        let (m, path, op) = ops[i];
        assert(all.take(i + 1).drop_last() =~= all.take(i as int));
        assert(all[i as int] == (m as int, path@, op@));
        let ghost before = out@;
        if let Some(raw) = op.get("responses") {
            if !raw.is_null() {
                let selected = match status {
                    Some(code) => match raw.get(code) {
                        Some(v) => {
                            let mut map: Vec<(String, Json)> = Vec::new();
                            let ghost vv = v@;
                            map.push((owned(code), v.deep_clone()));
                            proof {
                                lemma_object_view(map);
                                assert(fields_view(map@) =~= seq![(code@, vv)]);
                            }
                            Some(Json::Object(map))
                        },
                        None => None,
                    },
                    None => Some(raw.deep_clone()),
                };
                if let Some(sel) = selected {
                    let origin = origin_with("#responses/", m, path.as_str());
                    let resolved = resolve_in_place(sel, spec, opts, origin.as_str());
                    let e = make_op_record(m, path, "responses", resolved);
                    out.push(e);
                    assert(elems_view(out@) =~= elems_view(before).push(e@));
                }
            }
        }
        i = i + 1;
    }
    assert(all.take(all.len() as int) =~= all);
    proof {
        lemma_array_view(out);
    }
    Json::Array(out)
}

} // verus!
