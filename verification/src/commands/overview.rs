//! `overview`: the spec version, `info`, `servers`, `stats` and `operations` in one object.

use vstd::prelude::*;
use crate::commands::filter::OpFilter;
use crate::commands::{info, operations, stats};
use crate::commands::info::info_members;
use crate::commands::operations::{listed_entries, ops_of};
use crate::commands::stats::stats_view;
use crate::json::{fields_view, lemma_lookup_first, lemma_lookup_skip, lemma_object_view, lookup, member, non_null, Json, JsonV};
use crate::resolver::ResolveOptions;
use crate::text::owned;

verus! {

/// The version member of the raw spec: `openapi`, else `swagger`, else `openapi: null`
/// with `show_null`.
pub open spec fn version_members(raw: JsonV, show_null: bool) -> Seq<(Seq<char>, JsonV)> {
    match non_null(member(raw, "openapi"@)) {
        Some(v) => seq![("openapi"@, v)],
        None => match non_null(member(raw, "swagger"@)) {
            Some(v) => seq![("swagger"@, v)],
            None => if show_null {
                seq![("openapi"@, JsonV::Null)]
            } else {
                Seq::empty()
            },
        },
    }
}

/// The `servers` member: present and not `null`, or `null` with `show_null`.
pub open spec fn servers_members(spec: JsonV, show_null: bool) -> Seq<(Seq<char>, JsonV)> {
    match non_null(member(spec, "servers"@)) {
        Some(v) => seq![("servers"@, v)],
        None => if show_null {
            seq![("servers"@, JsonV::Null)]
        } else {
            Seq::empty()
        },
    }
}

/// The default resolution options.
pub open spec fn default_options() -> ResolveOptions {
    ResolveOptions { resolve: true, max_depth: None }
}

/// The `overview` object: the raw spec's version, then `info`, `servers`, `stats` and the
/// unfiltered default `operations` list of the canonical spec.
pub open spec fn overview_view(raw: JsonV, canonical: JsonV, show_null: bool) -> JsonV {
    JsonV::Object(
        version_members(raw, show_null) + seq![("info"@, JsonV::Object(info_members(canonical, show_null, 5)))]
            + servers_members(canonical, show_null) + seq![
            ("stats"@, stats_view(canonical)),
            (
                "operations"@,
                JsonV::Array(
                    listed_entries(canonical, Seq::empty(), Seq::empty(), Seq::empty(), default_options(), ops_of(canonical)),
                ),
            ),
        ],
    )
}

/// `overview`: `raw` is the spec as read (for its version), `canonical` the same spec in
/// OpenAPI 3.x shape (for everything else).
pub fn run(raw: &Json, canonical: &Json, show_null: bool) -> (r: Json)
    ensures
        r@ == overview_view(raw@, canonical@, show_null),
{
    let filter = OpFilter { clauses: Vec::new() };
    let mut out: Vec<(String, Json)> = Vec::new();
    let mut version_done = false;
    if let Some(v) = raw.get("openapi") {
        if !v.is_null() {
            out.push((owned("openapi"), v.deep_clone()));
            version_done = true;
        }
    }
    if !version_done {
        if let Some(v) = raw.get("swagger") {
            if !v.is_null() {
                out.push((owned("swagger"), v.deep_clone()));
                version_done = true;
            }
        }
    }
    if !version_done && show_null {
        out.push((owned("openapi"), Json::Null));
    }
    let ghost f0 = fields_view(out@);
    assert(f0 =~= version_members(raw@, show_null));
    out.push((owned("info"), info::run(canonical, show_null)));
    let ghost f1 = fields_view(out@);
    let mut servers_done = false;
    if let Some(v) = canonical.get("servers") {
        if !v.is_null() {
            out.push((owned("servers"), v.deep_clone()));
            servers_done = true;
        }
    }
    if !servers_done && show_null {
        out.push((owned("servers"), Json::Null));
    }
    assert(fields_view(out@) =~= f1 + servers_members(canonical@, show_null));
    let no_show: Vec<crate::cli::OperationField> = Vec::new();
    let opts = ResolveOptions { resolve: true, max_depth: None };
    let ops = operations::run(canonical, no_show.as_slice(), no_show.as_slice(), &filter, opts);
    out.push((owned("stats"), stats::run(canonical)));
    out.push((owned("operations"), ops));
    proof {
        lemma_object_view(out);
        assert(no_show@ =~= Seq::<crate::cli::OperationField>::empty());
        assert(filter.clauses@ =~= Seq::<crate::commands::filter::Clause>::empty());
        assert(fields_view(out@) =~= overview_view(raw@, canonical@, show_null)->Object_0);
    }
    Json::Object(out)
}

/// `overview` holds what `info` and `stats` give for the canonical spec, and the
/// unfiltered default `operations` list.
pub proof fn law_overview_holds_the_parts(raw: JsonV, canonical: JsonV, show_null: bool)
    ensures
        ({
            let o = overview_view(raw, canonical, show_null)->Object_0;
            &&& lookup(o, "info"@) == Some(JsonV::Object(info_members(canonical, show_null, 5)))
            &&& lookup(o, "stats"@) == Some(stats_view(canonical))
            &&& lookup(o, "operations"@) == Some(
                JsonV::Array(
                    listed_entries(canonical, Seq::empty(), Seq::empty(), Seq::empty(), default_options(), ops_of(canonical)),
                ),
            )
        }),
{
    reveal_strlit("openapi");
    reveal_strlit("swagger");
    reveal_strlit("info");
    reveal_strlit("servers");
    reveal_strlit("stats");
    reveal_strlit("operations");
    assert("openapi"@.len() == 7 && "swagger"@.len() == 7 && "servers"@.len() == 7);
    assert("info"@.len() == 4 && "stats"@.len() == 5 && "operations"@.len() == 10);
    let v = version_members(raw, show_null);
    let info = seq![("info"@, JsonV::Object(info_members(canonical, show_null, 5)))];
    let sv = servers_members(canonical, show_null);
    let ops = JsonV::Array(
        listed_entries(canonical, Seq::empty(), Seq::empty(), Seq::empty(), default_options(), ops_of(canonical)),
    );
    let tail = seq![("stats"@, stats_view(canonical)), ("operations"@, ops)];
    let o = overview_view(raw, canonical, show_null)->Object_0;
    assert(o =~= v + (info + (sv + tail)));
    assert forall|i: int| 0 <= i < v.len() implies v[i].0 != "info"@ && v[i].0 != "stats"@ && v[i].0 != "operations"@ by {}
    lemma_lookup_skip(v, info + (sv + tail), "info"@);
    lemma_lookup_first("info"@, JsonV::Object(info_members(canonical, show_null, 5)), sv + tail);
    lemma_lookup_skip(v, info + (sv + tail), "stats"@);
    lemma_lookup_skip(info, sv + tail, "stats"@);
    lemma_lookup_skip(sv, tail, "stats"@);
    lemma_lookup_first("stats"@, stats_view(canonical), seq![("operations"@, ops)]);
    assert(tail =~= seq![("stats"@, stats_view(canonical))] + seq![("operations"@, ops)]);
    lemma_lookup_skip(v, info + (sv + tail), "operations"@);
    lemma_lookup_skip(info, sv + tail, "operations"@);
    lemma_lookup_skip(sv, tail, "operations"@);
    lemma_lookup_skip(seq![("stats"@, stats_view(canonical))], seq![("operations"@, ops)], "operations"@);
    lemma_lookup_first("operations"@, ops, Seq::empty());
    assert(seq![("operations"@, ops)] =~= seq![("operations"@, ops)] + Seq::<(Seq<char>, JsonV)>::empty());
}

/// `overview` carries the raw spec's version member (`openapi`, else `swagger`, else
/// `openapi: null` with `show_null`) and the canonical spec's `servers` (`null` with
/// `show_null` when absent).
pub proof fn law_overview_version_and_servers(raw: JsonV, canonical: JsonV, show_null: bool)
    ensures
        ({
            let o = overview_view(raw, canonical, show_null)->Object_0;
            &&& match non_null(member(canonical, "servers"@)) {
                Some(sv) => lookup(o, "servers"@) == Some(sv),
                None => lookup(o, "servers"@) == (if show_null { Some(JsonV::Null) } else { None }),
            }
            &&& match non_null(member(raw, "openapi"@)) {
                Some(ver) => lookup(o, "openapi"@) == Some(ver) && lookup(o, "swagger"@) is None,
                None => match non_null(member(raw, "swagger"@)) {
                    Some(ver) => lookup(o, "swagger"@) == Some(ver) && lookup(o, "openapi"@) is None,
                    None => lookup(o, "swagger"@) is None && lookup(o, "openapi"@) == (if show_null {
                        Some(JsonV::Null)
                    } else {
                        None
                    }),
                },
            }
        }),
{
    reveal_strlit("openapi");
    reveal_strlit("swagger");
    reveal_strlit("info");
    reveal_strlit("servers");
    reveal_strlit("stats");
    reveal_strlit("operations");
    assert("info"@.len() == 4 && "stats"@.len() == 5 && "operations"@.len() == 10);
    assert("openapi"@.len() == 7 && "swagger"@.len() == 7 && "servers"@.len() == 7);
    assert("openapi"@[0] == 'o' && "swagger"@[0] == 's' && "servers"@[0] == 's');
    assert("swagger"@[1] == 'w' && "servers"@[1] == 'e');
    assert("openapi"@ != "swagger"@ && "openapi"@ != "servers"@ && "swagger"@ != "servers"@);
    let v = version_members(raw, show_null);
    let info = seq![("info"@, JsonV::Object(info_members(canonical, show_null, 5)))];
    let sv = servers_members(canonical, show_null);
    let ops = JsonV::Array(
        listed_entries(canonical, Seq::empty(), Seq::empty(), Seq::empty(), default_options(), ops_of(canonical)),
    );
    let tail = seq![("stats"@, stats_view(canonical)), ("operations"@, ops)];
    let o = overview_view(raw, canonical, show_null)->Object_0;
    assert(o =~= v + (info + (sv + tail)));
    // servers
    assert forall|i: int| 0 <= i < v.len() implies v[i].0 != "servers"@ by {}
    lemma_lookup_skip(v, info + (sv + tail), "servers"@);
    lemma_lookup_skip(info, sv + tail, "servers"@);
    crate::json::lemma_key_index_absent(tail, "servers"@);
    if sv.len() > 0 {
        lemma_lookup_first("servers"@, sv[0].1, tail);
        assert(sv =~= seq![("servers"@, sv[0].1)]);
    } else {
        assert(sv + tail =~= tail);
    }
    // the version member
    let rest = info + (sv + tail);
    assert forall|i: int| 0 <= i < rest.len() implies rest[i].0 != "openapi"@ && rest[i].0 != "swagger"@ by {
        if i >= 1 + sv.len() {
            assert(rest[i] == tail[i - 1 - sv.len()]);
        } else if i >= 1 {
            assert(rest[i] == sv[i - 1]);
        }
    }
    crate::json::lemma_key_index_absent(rest, "openapi"@);
    crate::json::lemma_key_index_absent(rest, "swagger"@);
    if v.len() > 0 {
        assert(v =~= seq![(v[0].0, v[0].1)]);
        lemma_lookup_first(v[0].0, v[0].1, rest);
        if v[0].0 == "openapi"@ {
            assert forall|i: int| 0 <= i < o.len() implies o[i].0 != "swagger"@ by {
                if i >= 1 {
                    assert(o[i] == rest[i - 1]);
                }
            }
            crate::json::lemma_key_index_absent(o, "swagger"@);
        } else {
            assert forall|i: int| 0 <= i < o.len() implies o[i].0 != "openapi"@ by {
                if i >= 1 {
                    assert(o[i] == rest[i - 1]);
                }
            }
            crate::json::lemma_key_index_absent(o, "openapi"@);
        }
    } else {
        assert(o =~= rest);
    }
}

} // verus!
