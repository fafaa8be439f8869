//! `statuses`: one record per status code used in the spec's responses.

use vstd::prelude::*;
use crate::cli::StatusField;
use crate::commands::operations::{collect_ops, in_place, ops_of, ops_view, resolve_in_place};
use crate::commands::request::or_null;
use crate::json::{
    cloned_or_null, elems_view, field_insert, fields_view, insert_field, lemma_array_view, lemma_object_view, member, non_null,
    object_of, Json, JsonV,
};
use crate::resolver::ResolveOptions;
use crate::table::{first_pairs, first_positions, firsts, pair_keys, same_keys, strictly_sorted, strings_view};
use crate::text::{concat, concat3, owned};

verus! {

/// `f` is in the list, directly or through `all`.
pub open spec fn status_listed(list: Seq<StatusField>, f: StatusField) -> bool {
    list.contains(f) || list.contains(StatusField::All)
}

/// Whether a record shows a field: `description` by default, the others when asked
/// for, none that is hidden.
pub open spec fn status_on(show: Seq<StatusField>, hide: Seq<StatusField>, f: StatusField) -> bool {
    (f == StatusField::Description || status_listed(show, f)) && !status_listed(hide, f)
}

/// The fields a `statuses` record shows.
#[derive(Debug, Clone, Copy)]
pub struct StatusSelection {
    pub description: bool,
    pub headers: bool,
    pub schema: bool,
    pub content: bool,
}

fn in_status_list(list: &[StatusField], f: StatusField) -> (r: bool)
    ensures
        r == status_listed(list@, f),
{
    let mut i: usize = 0;
    while i < list.len()
        invariant
            i <= list.len(),
            forall|k: int| 0 <= k < i ==> list@[k] != f && list@[k] != StatusField::All,
        decreases list.len() - i,
    {
        if list[i] == f || list[i] == StatusField::All {
            assert(list@.contains(list@[i as int]));
            return true;
        }
        i = i + 1;
    }
    false
}

fn field_shown(show: &[StatusField], hide: &[StatusField], f: StatusField) -> (r: bool)
    ensures
        r == status_on(show@, hide@, f),
{
    (f == StatusField::Description || in_status_list(show, f)) && !in_status_list(hide, f)
}

/// The fields shown for the given `--show`/`--hide` lists.
pub open spec fn selection_of(show: Seq<StatusField>, hide: Seq<StatusField>) -> StatusSelection {
    StatusSelection {
        description: status_on(show, hide, StatusField::Description),
        headers: status_on(show, hide, StatusField::Headers),
        schema: status_on(show, hide, StatusField::Schema),
        content: status_on(show, hide, StatusField::Content),
    }
}

/// Which fields the records show, `all` expanded.
pub fn resolve_fields(show: &[StatusField], hide: &[StatusField]) -> (r: StatusSelection)
    ensures
        r == selection_of(show@, hide@),
{
    StatusSelection {
        description: field_shown(show, hide, StatusField::Description),
        headers: field_shown(show, hide, StatusField::Headers),
        schema: field_shown(show, hide, StatusField::Schema),
        content: field_shown(show, hide, StatusField::Content),
    }
}

/// Every (status, response) pair of the operations' response maps, in listing order.
pub open spec fn response_pairs(ops: Seq<(int, Seq<char>, JsonV)>) -> Seq<(Seq<char>, JsonV)>
    decreases ops.len(),
{
    if ops.len() == 0 {
        Seq::empty()
    } else {
        response_pairs(ops.drop_last()) + match object_of(member(ops.last().2, "responses"@)) {
            Some(f) => f,
            None => Seq::empty(),
        }
    }
}

/// `#status/<status><rest>`.
pub open spec fn status_origin(status: Seq<char>, rest: Seq<char>) -> Seq<char> {
    "#status/"@ + status + rest
}

/// The `{mediaType: schema}` members of the first `n` media types of a `content` map.
pub open spec fn media_schemas(
    spec: JsonV,
    opts: ResolveOptions,
    status: Seq<char>,
    cf: Seq<(Seq<char>, JsonV)>,
    n: int,
) -> Seq<(Seq<char>, JsonV)>
    decreases n,
{
    if n <= 0 {
        Seq::empty()
    } else {
        let m = media_schemas(spec, opts, status, cf, n - 1);
        let mt = cf[n - 1].0;
        match non_null(member(cf[n - 1].1, "schema"@)) {
            Some(s) => insert_field(m, mt, in_place(spec, opts, s, status_origin(status, "/schema/"@ + mt))),
            None => m,
        }
    }
}

/// The schemas of a response by media type: from OpenAPI 3.x `content`, else from a
/// bare Swagger 2.0 `schema` under `*/*`.
pub open spec fn schema_map(spec: JsonV, opts: ResolveOptions, status: Seq<char>, resp: JsonV) -> Seq<(Seq<char>, JsonV)> {
    match object_of(member(resp, "content"@)) {
        Some(cf) => media_schemas(spec, opts, status, cf, cf.len() as int),
        None => match non_null(member(resp, "schema"@)) {
            Some(s) => seq![("*/*"@, in_place(spec, opts, s, status_origin(status, "/schema"@)))],
            None => Seq::empty(),
        },
    }
}

/// The record of one status and the response that first used it.
pub open spec fn status_record(
    spec: JsonV,
    sel: StatusSelection,
    opts: ResolveOptions,
    status: Seq<char>,
    resp: JsonV,
) -> JsonV {
    let m = schema_map(spec, opts, status, resp);
    JsonV::Object(
        seq![("status"@, JsonV::Str(status))] + (if sel.description {
            seq![("description"@, or_null(member(resp, "description"@)))]
        } else {
            Seq::empty()
        }) + (if sel.headers {
            match non_null(member(resp, "headers"@)) {
                Some(h) => seq![("headers"@, in_place(spec, opts, h, status_origin(status, "/headers"@)))],
                None => Seq::empty(),
            }
        } else {
            Seq::empty()
        }) + (if sel.schema && m.len() > 0 {
            seq![("schema"@, JsonV::Object(m))]
        } else {
            Seq::empty()
        }) + (if sel.content {
            match non_null(member(resp, "content"@)) {
                Some(c) => seq![("content"@, in_place(spec, opts, c, status_origin(status, "/content"@)))],
                None => Seq::empty(),
            }
        } else {
            Seq::empty()
        }),
    )
}

/// The `statuses` list: one record per distinct status, ascending; the first response
/// that used a status describes it.
pub open spec fn statuses_view(spec: JsonV, sel: StatusSelection, opts: ResolveOptions) -> JsonV {
    let p = response_pairs(ops_of(spec));
    let f = firsts(pair_keys(p));
    JsonV::Array(Seq::new(f.len(), |i: int| status_record(spec, sel, opts, f[i].0, p[f[i].1].1)))
}

/// Builds the schema map of a response.
pub fn extract_schemas(response: &Json, spec: &Json, opts: ResolveOptions, status: &str) -> (r: Vec<(String, Json)>)
    ensures
        fields_view(r@) == schema_map(spec@, opts, status@, response@),
{
    let mut out: Vec<(String, Json)> = Vec::new();
    if let Some(c) = response.get("content") {
        if let Some(cf) = c.as_object() {
            let ghost cv = fields_view(cf@);
            let mut i: usize = 0;
            assert(fields_view(out@) =~= media_schemas(spec@, opts, status@, cv, 0));
            while i < cf.len()
                invariant
                    i <= cf.len(),
                    cv == fields_view(cf@),
                    fields_view(out@) == media_schemas(spec@, opts, status@, cv, i as int),
                decreases cf.len() - i,
            {
                let mt = &cf[i].0;
                if let Some(s) = cf[i].1.get("schema") {
                    if !s.is_null() {
                        let mut origin = concat3("#status/", status, "/schema/");
                        crate::text::push_str(&mut origin, mt.as_str());
                        assert(origin@ =~= status_origin(status@, "/schema/"@ + mt@));
                        let v = resolve_in_place(s.deep_clone(), spec, opts, origin.as_str());
                        field_insert(&mut out, mt.clone(), v);
                    }
                }
                i = i + 1;
            }
            assert(object_of(member(response@, "content"@)) == Some(cv));
            return out;
        }
    }
    if let Some(s) = response.get("schema") {
        if !s.is_null() {
            let origin = concat3("#status/", status, "/schema");
            let v = resolve_in_place(s.deep_clone(), spec, opts, origin.as_str());
            let ghost vv = v@;
            out.push((owned("*/*"), v));
            assert(fields_view(out@) =~= seq![("*/*"@, vv)]);
            return out;
        }
    }
    assert(fields_view(out@) =~= Seq::<(Seq<char>, JsonV)>::empty());
    out
}

/// Builds the record of one status.
pub fn build_record(status: &String, response: &Json, sel: StatusSelection, spec: &Json, opts: ResolveOptions) -> (r: Json)
    ensures
        r@ == status_record(spec@, sel, opts, status@, response@),
{
    let mut out: Vec<(String, Json)> = Vec::new();
    out.push((owned("status"), Json::Str(status.clone())));
    let ghost f0 = fields_view(out@);
    if sel.description {
        out.push((owned("description"), cloned_or_null(response.get("description"))));
    }
    let ghost f1 = fields_view(out@);
    assert(f1 =~= seq![("status"@, JsonV::Str(status@))] + (if sel.description {
        seq![("description"@, or_null(member(response@, "description"@)))]
    } else {
        Seq::empty()
    }));
    if sel.headers {
        if let Some(h) = response.get("headers") {
            if !h.is_null() {
                let origin = concat3("#status/", status.as_str(), "/headers");
                let v = resolve_in_place(h.deep_clone(), spec, opts, origin.as_str());
                out.push((owned("headers"), v));
            }
        }
    }
    let ghost f2 = fields_view(out@);
    assert(f2 =~= f1 + (if sel.headers {
        match non_null(member(response@, "headers"@)) {
            Some(h) => seq![("headers"@, in_place(spec@, opts, h, status_origin(status@, "/headers"@)))],
            None => Seq::empty(),
        }
    } else {
        Seq::empty()
    }));
    if sel.schema {
        let m = extract_schemas(response, spec, opts, status.as_str());
        if m.len() > 0 {
            proof {
                lemma_object_view(m);
            }
            out.push((owned("schema"), Json::Object(m)));
        }
    }
    let ghost f3 = fields_view(out@);
    let ghost sm = schema_map(spec@, opts, status@, response@);
    assert(f3 =~= f2 + (if sel.schema && sm.len() > 0 {
        seq![("schema"@, JsonV::Object(sm))]
    } else {
        Seq::empty()
    }));
    if sel.content {
        if let Some(c) = response.get("content") {
            if !c.is_null() {
                let origin = concat3("#status/", status.as_str(), "/content");
                let v = resolve_in_place(c.deep_clone(), spec, opts, origin.as_str());
                out.push((owned("content"), v));
            }
        }
    }
    proof {
        lemma_object_view(out);
        assert(fields_view(out@) =~= status_record(spec@, sel, opts, status@, response@)->Object_0);
    }
    Json::Object(out)
}

/// `statuses`: for each status code used in some operation's responses, ascending, the
/// record of the first response that used it; each code used is listed once.
pub fn run(spec: &Json, show: &[StatusField], hide: &[StatusField], opts: ResolveOptions) -> (r: Json)
    ensures
        r@ == statuses_view(spec@, selection_of(show@, hide@), opts),
        strictly_sorted(pair_keys(firsts(pair_keys(response_pairs(ops_of(spec@)))))),
        same_keys(pair_keys(firsts(pair_keys(response_pairs(ops_of(spec@))))), pair_keys(response_pairs(ops_of(spec@)))),
{
    let sel = resolve_fields(show, hide);
    let ops = collect_ops(spec);
    let ghost all = ops_of(spec@);
    let mut keys: Vec<String> = Vec::new();
    let mut resps: Vec<&Json> = Vec::new();
    let mut i: usize = 0;
    while i < ops.len()
        invariant
            i <= ops.len(),
            ops_view(ops@) == all,
            keys@.len() == resps@.len(),
            strings_view(keys@) == pair_keys(response_pairs(all.take(i as int))),
            forall|k: int| 0 <= k < resps@.len() ==> #[trigger] resps@[k]@ == response_pairs(all.take(i as int))[k].1,
            response_pairs(all.take(i as int)).len() == keys@.len(),
        decreases ops.len() - i,
    {
        assert(all.take(i + 1).drop_last() =~= all.take(i as int));
        let ghost p0 = response_pairs(all.take(i as int));
        let op = ops[i].2;
        if let Some(rv) = op.get("responses") {
            if let Some(rf) = rv.as_object() {
                let ghost rfv = fields_view(rf@);
                let mut j: usize = 0;
                while j < rf.len()
                    invariant
                        j <= rf.len(),
                        rfv == fields_view(rf@),
                        keys@.len() == resps@.len(),
                        strings_view(keys@) == pair_keys(p0 + rfv.take(j as int)),
                        forall|k: int| 0 <= k < resps@.len() ==> #[trigger] resps@[k]@ == (p0 + rfv.take(j as int))[k].1,
                        (p0 + rfv.take(j as int)).len() == keys@.len(),
                    decreases rf.len() - j,
                {
                    let ghost kb = keys@;
                    let ghost rb = resps@;
                    keys.push(rf[j].0.clone());
                    resps.push(&rf[j].1);
                    assert(p0 + rfv.take(j + 1) =~= (p0 + rfv.take(j as int)).push(rfv[j as int]));
                    assert(strings_view(keys@) =~= strings_view(kb).push(rf@[j as int].0@));
                    assert forall|k: int| 0 <= k < resps@.len() implies #[trigger] resps@[k]@ == (p0 + rfv.take(j + 1))[k].1 by {
                        if k < rb.len() {
                            assert(resps@[k] == rb[k]);
                        }
                    }
                    j = j + 1;
                }
                assert(rfv.take(rf.len() as int) =~= rfv);
                assert(response_pairs(all.take(i + 1)) =~= p0 + rfv);
            } else {
                assert(response_pairs(all.take(i + 1)) =~= p0);
            }
        } else {
            assert(response_pairs(all.take(i + 1)) =~= p0);
        }
        i = i + 1;
    }
    assert(all.take(ops.len() as int) =~= all);
    let ghost p = response_pairs(all);
    let t = first_positions(&keys);
    let ghost f = firsts(pair_keys(p));
    let mut out: Vec<Json> = Vec::new();
    let mut k: usize = 0;
    while k < t.len()
        invariant
            k <= t.len(),
            first_pairs(t@) == f,
            f == firsts(pair_keys(p)),
            strings_view(keys@) == pair_keys(p),
            keys@.len() == resps@.len(),
            p.len() == keys@.len(),
            forall|q: int| 0 <= q < resps@.len() ==> #[trigger] resps@[q]@ == p[q].1,
            forall|q: int| 0 <= q < t@.len() ==> #[trigger] t@[q].1 < keys@.len(),
            out@.len() == k,
            forall|q: int| 0 <= q < k ==> #[trigger] out@[q]@ == status_record(spec@, sel, opts, f[q].0, p[f[q].1].1),
        decreases t.len() - k,
    {
        let idx = t[k].1;
        let rec = build_record(&t[k].0, resps[idx], sel, spec, opts);
        out.push(rec);
        k = k + 1;
    }
    proof {
        lemma_array_view(out);
        assert(f.len() == t@.len());
        assert(p == response_pairs(ops_of(spec@)));
        let v = statuses_view(spec@, sel, opts)->Array_0;
        assert(v.len() == out@.len());
        assert forall|q: int| 0 <= q < v.len() implies elems_view(out@)[q] == v[q] by {
            assert(out@[q]@ == status_record(spec@, sel, opts, f[q].0, p[f[q].1].1));
        }
        assert(elems_view(out@) =~= v);
    }
    Json::Array(out)
}

} // verus!
