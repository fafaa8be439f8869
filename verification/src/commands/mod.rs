//! The subcommands.

pub mod filter;
pub mod operations;
pub mod operation;
pub mod request;
pub mod response;
pub mod requests;
pub mod responses;
pub mod info;
pub mod components;
pub mod paths;
pub mod schema;
pub mod schemas;
pub mod spec_version;
pub mod stats;
pub mod tags;
pub mod statuses;
pub mod overview;
pub mod search;
pub mod json_path;
pub mod convert;
pub mod convert_laws;
pub mod validate;

use vstd::prelude::*;
use crate::cli::Command;
use crate::commands::components::component_members;
use crate::commands::convert::{converted, swagger2_converted};
use crate::commands::filter::{clause_ok, first_bad, parse_error, path_filter_error, is_path_clause, Clause, OpFilter, PathFilter};
use crate::commands::info::info_members;
use crate::commands::operation::operation_view;
use crate::commands::operations::{found, in_place, listed_entries, lookup_error, op_origin, ops_of, origin_in};
use crate::commands::overview::overview_view;
use crate::commands::paths::listed_paths;
use crate::commands::request::or_null;
use crate::commands::requests::request_entries;
use crate::commands::response::selected_responses;
use crate::commands::responses::response_entries;
use crate::commands::schemas::schema_names;
use crate::commands::search::{hit_selection_of, hits_of};
use crate::commands::spec_version::spec_version;
use crate::commands::stats::stats_view;
use crate::commands::statuses::{selection_of, statuses_view};
use crate::commands::tags::tags_view;
use crate::commands::validate::validate_view;
use crate::error::{is_other, OadigError};
use crate::json::{lookup, member, object_of, str_of, unique_keys, Json, JsonV};
use crate::matcher::regex_build_error;
use crate::pointer::pointer_of;
use crate::resolver::{expand, is_ref_object, resolved, universe_of, ResolveOptions};
use crate::text::owned;

verus! {

pub open spec fn opt_string_view(o: Option<String>) -> Option<Seq<char>> {
    match o {
        Some(s) => Some(s@),
        None => None,
    }
}

pub open spec fn neither_form() -> Seq<char> {
    "specify either `<ID> <FILE>` or `<FILE> -m METHOD -p PATH`"@
}

/// How `operation`, `request` and `response` read their positional arguments: `<ID> <FILE>`,
/// or `<FILE>` with both `-m` and `-p`.
pub open spec fn split_view(args: Seq<String>, method: Option<String>, path: Option<String>) -> Result<
    (Option<Seq<char>>, Seq<char>),
    Seq<char>,
> {
    if args.len() == 2 {
        Ok((Some(args[0]@), args[1]@))
    } else if args.len() == 1 {
        if method is Some && path is Some {
            Ok((None, args[0]@))
        } else {
            Err(neither_form())
        }
    } else {
        Err("too many positional arguments"@)
    }
}

/// Splits the positional arguments into the operation id (if any) and the file.
pub fn split_positionals<'a>(args: &'a [String], method: &Option<String>, path: &Option<String>) -> (r: Result<
    (Option<&'a str>, &'a str),
    OadigError,
>)
    ensures
        match split_view(args@, *method, *path) {
            Ok((id, file)) => r matches Ok((i, f)) && f@ == file && match id {
                Some(x) => i matches Some(ii) && ii@ == x,
                None => i is None,
            },
            Err(m) => r matches Err(e) && is_other(&e, m),
        },
{
    if args.len() == 2 {
        Ok((Some(args[0].as_str()), args[1].as_str()))
    } else if args.len() == 1 {
        if method.is_some() && path.is_some() {
            Ok((None, args[0].as_str()))
        } else {
            Err(OadigError::Other(owned("specify either `<ID> <FILE>` or `<FILE> -m METHOD -p PATH`")))
        }
    } else {
        Err(OadigError::Other(owned("too many positional arguments")))
    }
}

/// The file a command reads.
pub open spec fn input_view(cmd: &Command) -> Result<Seq<char>, Seq<char>> {
    match cmd {
        Command::Spec { file } | Command::Info { file } | Command::Stats { file } | Command::Overview { file }
        | Command::Paths { file, .. } | Command::Operations { file, .. } | Command::Requests { file }
        | Command::Responses { file, .. } | Command::Statuses { file, .. } | Command::Search { file, .. }
        | Command::Tags { file } | Command::Components { file } | Command::Schemas { file }
        | Command::Schema { file, .. } | Command::Validate { file } | Command::Convert { file, .. } => Ok(file@),
        Command::Operation { args, method, path } | Command::Request { args, method, path }
        | Command::Response { args, method, path, .. } => match split_view(args@, *method, *path) {
            Ok((_, f)) => Ok(f),
            Err(m) => Err(m),
        },
    }
}

/// The file a command reads (`-` for stdin).
pub fn input_file(cmd: &Command) -> (r: Result<&str, OadigError>)
    ensures
        match input_view(cmd) {
            Ok(f) => r matches Ok(x) && x@ == f,
            Err(m) => r matches Err(e) && is_other(&e, m),
        },
{
    match cmd {
        Command::Spec { file } | Command::Info { file } | Command::Stats { file } | Command::Overview { file }
        | Command::Paths { file, .. } | Command::Operations { file, .. } | Command::Requests { file }
        | Command::Responses { file, .. } | Command::Statuses { file, .. } | Command::Search { file, .. }
        | Command::Tags { file } | Command::Components { file } | Command::Schemas { file }
        | Command::Schema { file, .. } | Command::Validate { file } | Command::Convert { file, .. } => Ok(file.as_str()),
        Command::Operation { args, method, path } | Command::Request { args, method, path }
        | Command::Response { args, method, path, .. } => match split_positionals(args.as_slice(), method, path) {
            Ok((_, f)) => Ok(f),
            Err(e) => Err(e),
        },
    }
}

/// The spec every data command works on: Swagger 2.0 converted to OpenAPI 3.0, anything
/// else as it is.
pub open spec fn canonical_view(raw: JsonV) -> JsonV {
    if str_of(member(raw, "swagger"@)) == Some("2.0"@) {
        swagger2_converted(raw)
    } else {
        raw
    }
}

pub fn canonical(raw: &Json) -> (r: Json)
    ensures
        r@ == canonical_view(raw@),
{
    let v2 = match raw.get("swagger") {
        Some(v) => match v.as_str() {
            Some(s) => crate::text::str_eq(s.as_str(), "2.0"),
            None => false,
        },
        None => false,
    };
    if v2 {
        crate::commands::convert::swagger2_to_openapi30(raw)
    } else {
        raw.deep_clone()
    }
}

fn opt_str(o: &Option<String>) -> (r: Option<&str>)
    ensures
        crate::commands::operations::opt_str_view(r) == opt_string_view(*o),
{
    match o {
        Some(s) => Some(s.as_str()),
        None => None,
    }
}

pub open spec fn gives(r: Result<Json, OadigError>, v: JsonV) -> bool {
    r matches Ok(j) && j@ == v
}

/// What a lookup command (`operation`, `request`, `response`) gives: the split error,
/// the lookup error, or `shown` of the operation found.
pub open spec fn lookup_result(
    canon: JsonV,
    args: Seq<String>,
    method: Option<String>,
    path: Option<String>,
    r: Result<Json, OadigError>,
    shown: spec_fn((int, Seq<char>, JsonV)) -> JsonV,
) -> bool {
    match split_view(args, method, path) {
        Err(m) => r matches Err(e) && is_other(&e, m),
        Ok((id, _)) => match found(canon, id, opt_string_view(method), opt_string_view(path)) {
            Some(o) => gives(r, shown(o)),
            None => r matches Err(e) && lookup_error(canon, id, opt_string_view(method), opt_string_view(path), e),
        },
    }
}

/// What running a command on the document it read gives.
pub open spec fn dispatch_ok(cmd: &Command, raw: JsonV, opts: ResolveOptions, show_null: bool, r: Result<Json, OadigError>) -> bool {
    let canon = canonical_view(raw);
    match cmd {
        Command::Spec { .. } => gives(r, spec_version(raw)),
        Command::Validate { .. } => gives(r, validate_view(raw)),
        Command::Convert { target, .. } => match converted(raw, target@) {
            Ok(v) => gives(r, v),
            Err(m) => r matches Err(e) && is_other(&e, m),
        },
        Command::Search { keyword, regex, case_sensitive, hit_show, hit_hide, .. } => {
            if *regex && regex_build_error(keyword@, !*case_sensitive) is Some {
                r matches Err(e) && is_other(&e, "invalid regex: "@ + regex_build_error(keyword@, !*case_sensitive)->Some_0)
            } else {
                gives(
                    r,
                    JsonV::Array(
                        hits_of(hit_selection_of(hit_show@, hit_hide@), (keyword@, *regex, *case_sensitive), raw, Seq::empty()),
                    ),
                )
            }
        },
        Command::Overview { .. } => gives(r, overview_view(raw, canon, show_null)),
        Command::Info { .. } => gives(r, JsonV::Object(info_members(canon, show_null, 5))),
        Command::Stats { .. } => gives(r, stats_view(canon)),
        Command::Paths { filters, .. } => if forall|i: int| 0 <= i < filters@.len() ==> is_path_clause(#[trigger] filters@[i]@) {
            exists|pf: PathFilter|
                {
                    &&& pf.regex is None
                    &&& pf.globs@.len() == filters@.len()
                    &&& forall|i: int| 0 <= i < filters@.len() ==> {
                        &&& #[trigger] crate::commands::filter::key_value(filters@[i]@) matches Some((k, v))
                        &&& pf.globs@[i].view_pair() == crate::commands::filter::glob_of(v)
                    }
                    &&& gives(r, JsonV::Array(listed_paths(canon, pf.globs@, None)))
                }
        } else {
            exists|i: int|
                0 <= i < filters@.len() && !is_path_clause(#[trigger] filters@[i]@) && (forall|j: int|
                    0 <= j < i ==> is_path_clause(#[trigger] filters@[j]@)) && (r matches Err(e) && is_other(
                    &e,
                    path_filter_error(filters@[i]@),
                ))
        },
        Command::Operations { filters, op_show, op_hide, .. } => if first_bad(filters@, filters@.len() as int) == -1 {
            exists|cs: Seq<Clause>|
                {
                    &&& cs.len() == filters@.len()
                    &&& forall|i: int| 0 <= i < filters@.len() ==> clause_ok(#[trigger] &cs[i], filters@[i]@)
                    &&& gives(r, JsonV::Array(listed_entries(canon, op_show@, op_hide@, cs, opts, ops_of(canon))))
                }
        } else {
            r matches Err(e) && is_other(&e, parse_error(filters@[first_bad(filters@, filters@.len() as int)]@))
        },
        Command::Operation { args, method, path } => lookup_result(
            canon,
            args@,
            *method,
            *path,
            r,
            |o: (int, Seq<char>, JsonV)| operation_view(o.0, o.1, in_place(canon, opts, o.2, op_origin(o.0, o.1))),
        ),
        Command::Request { args, method, path } => lookup_result(
            canon,
            args@,
            *method,
            *path,
            r,
            |o: (int, Seq<char>, JsonV)| in_place(canon, opts, or_null(member(o.2, "requestBody"@)), origin_in("#request/"@, o.0, o.1)),
        ),
        Command::Response { args, method, path, status } => lookup_result(
            canon,
            args@,
            *method,
            *path,
            r,
            |o: (int, Seq<char>, JsonV)|
                in_place(canon, opts, selected_responses(o.2, opt_string_view(*status)), origin_in("#response/"@, o.0, o.1)),
        ),
        Command::Statuses { status_show, status_hide, .. } => gives(
            r,
            statuses_view(canon, selection_of(status_show@, status_hide@), opts),
        ),
        Command::Requests { .. } => gives(r, JsonV::Array(request_entries(canon, opts, ops_of(canon)))),
        Command::Responses { status, .. } => gives(
            r,
            JsonV::Array(response_entries(canon, opt_string_view(*status), opts, ops_of(canon))),
        ),
        Command::Tags { .. } => gives(r, tags_view(canon)),
        Command::Components { .. } => gives(r, JsonV::Object(component_members(canon, show_null, 10))),
        Command::Schemas { .. } => gives(r, JsonV::Array(schema_names(canon))),
        Command::Schema { name, .. } => match pointer_of(canon, "/components/schemas/"@ + name@) {
            Some(s) => gives(
                r,
                if opts.resolve {
                    resolved(canon, opts.max_depth, s, "#/components/schemas/"@ + name@)
                } else {
                    s
                },
            ),
            None => r matches Err(OadigError::SchemaNotFound(n)) && n@ == name@,
        },
    }
}

/// Runs a command on `raw`, the document its file holds.
pub fn dispatch(command: &Command, raw: &Json, opts: ResolveOptions, show_null: bool) -> (r: Result<Json, OadigError>)
    ensures
        dispatch_ok(command, raw@, opts, show_null, r),
{
    match command {
        Command::Spec { .. } => Ok(spec_version::run(raw)),
        Command::Validate { .. } => validate::run(raw),
        Command::Convert { target, .. } => convert::run(raw, target.as_str()),
        Command::Search { keyword, regex, case_sensitive, hit_show, hit_hide, .. } => search::run(
            raw,
            keyword.as_str(),
            *regex,
            *case_sensitive,
            hit_show.as_slice(),
            hit_hide.as_slice(),
        ),
        Command::Overview { .. } => {
            let canon = canonical(raw);
            Ok(overview::run(raw, &canon, show_null))
        },
        Command::Info { .. } => Ok(info::run(&canonical(raw), show_null)),
        Command::Stats { .. } => Ok(stats::run(&canonical(raw))),
        Command::Paths { filters, .. } => {
            let pf = match PathFilter::from_strings(filters.as_slice()) {
                Ok(f) => f,
                Err(e) => return Err(e),
            };
            let canon = canonical(raw);
            Ok(paths::run(&canon, &pf))
        },
        Command::Operations { filters, op_show, op_hide, .. } => {
            let of = match OpFilter::from_strings(filters.as_slice()) {
                Ok(f) => f,
                Err(e) => return Err(e),
            };
            let canon = canonical(raw);
            Ok(operations::run(&canon, op_show.as_slice(), op_hide.as_slice(), &of, opts))
        },
        Command::Operation { args, method, path } => {
            let (id, _) = match split_positionals(args.as_slice(), method, path) {
                Ok(x) => x,
                Err(e) => return Err(e),
            };
            operation::run(&canonical(raw), id, opt_str(method), opt_str(path), opts)
        },
        Command::Statuses { status_show, status_hide, .. } => Ok(
            statuses::run(&canonical(raw), status_show.as_slice(), status_hide.as_slice(), opts),
        ),
        Command::Requests { .. } => Ok(requests::run(&canonical(raw), opts)),
        Command::Responses { status, .. } => Ok(responses::run(&canonical(raw), opt_str(status), opts)),
        Command::Request { args, method, path } => {
            let (id, _) = match split_positionals(args.as_slice(), method, path) {
                Ok(x) => x,
                Err(e) => return Err(e),
            };
            request::run(&canonical(raw), id, opt_str(method), opt_str(path), opts)
        },
        Command::Response { args, method, path, status } => {
            let (id, _) = match split_positionals(args.as_slice(), method, path) {
                Ok(x) => x,
                Err(e) => return Err(e),
            };
            response::run(&canonical(raw), id, opt_str(method), opt_str(path), opt_str(status), opts)
        },
        Command::Tags { .. } => Ok(tags::run(&canonical(raw))),
        Command::Components { .. } => Ok(components::run(&canonical(raw), show_null)),
        Command::Schemas { .. } => Ok(schemas::run(&canonical(raw))),
        Command::Schema { name, .. } => schema::run(&canonical(raw), name.as_str(), opts),
    }
}

/// A Swagger 2.0 document and its OpenAPI 3.0 conversion (what `convert 3.0` gives) give
/// the same result, or the same error, for every command that reads the document's
/// content; `spec`, `validate`, `convert`, `search` and `overview` look at the document
/// as written and are left out.
pub proof fn law_swagger2_reads_as_its_conversion(
    cmd: &Command,
    raw: JsonV,
    opts: ResolveOptions,
    show_null: bool,
    r: Result<Json, OadigError>,
)
    requires
        str_of(member(raw, "swagger"@)) == Some("2.0"@),
        !(cmd is Spec || cmd is Validate || cmd is Convert || cmd is Search || cmd is Overview),
    ensures
        converted(raw, "3.0"@) == Ok::<JsonV, Seq<char>>(swagger2_converted(raw)),
        dispatch_ok(cmd, raw, opts, show_null, r) == dispatch_ok(cmd, swagger2_converted(raw), opts, show_null, r),
{
    crate::commands::convert_laws::lemma_converted_has_no_swagger(raw);
    assert(canonical_view(swagger2_converted(raw)) == swagger2_converted(raw));
    assert(canonical_view(raw) == canonical_view(swagger2_converted(raw)));
}

/// Parses the filters of `paths` and `operations`, which is done before the file is read;
/// an error is the one `dispatch` gives for them.
pub fn check_filters(cmd: &Command) -> (r: Result<(), OadigError>)
    ensures
        match cmd {
            Command::Paths { filters, .. } => {
                &&& (r is Ok <==> forall|i: int| 0 <= i < filters@.len() ==> is_path_clause(#[trigger] filters@[i]@))
                &&& r matches Err(e) ==> exists|i: int|
                    0 <= i < filters@.len() && !is_path_clause(#[trigger] filters@[i]@) && (forall|j: int|
                        0 <= j < i ==> is_path_clause(#[trigger] filters@[j]@)) && is_other(&e, path_filter_error(filters@[i]@))
            },
            Command::Operations { filters, .. } => {
                &&& (r is Ok <==> first_bad(filters@, filters@.len() as int) == -1)
                &&& r matches Err(e) ==> is_other(&e, parse_error(filters@[first_bad(filters@, filters@.len() as int)]@))
            },
            _ => r is Ok,
        },
{
    match cmd {
        Command::Paths { filters, .. } => match PathFilter::from_strings(filters.as_slice()) {
            Ok(_) => Ok(()),
            Err(e) => Err(e),
        },
        Command::Operations { filters, .. } => match OpFilter::from_strings(filters.as_slice()) {
            Ok(_) => Ok(()),
            Err(e) => Err(e),
        },
        _ => Ok(()),
    }
}

/// The operation that carries the id `id` in the document as the commands read it.
pub open spec fn only_op(raw: JsonV, id: Seq<char>) -> (int, Seq<char>, JsonV) {
    crate::commands::operations::with_id(ops_of(canonical_view(raw)), id)[0]
}

/// An operation object that is no reference and has no `method` or `path` member of
/// its own.
pub open spec fn plain_op(op: JsonV) -> bool {
    &&& op is Object
    &&& !is_ref_object(op)
    &&& crate::commands::convert_laws::avoids_key(op->Object_0, "method"@)
    &&& crate::commands::convert_laws::avoids_key(op->Object_0, "path"@)
}

/// Looking an operation up by its `operationId`, or by its method (in any ASCII case)
/// and path, shows the same value: the operation found, with the upper-case method as
/// `method` and the path as `path` (when the id is carried once, no two path items share
/// a key, and the operation is a plain object), and with the id as `operationId` when,
/// moreover, its keys do not repeat and the depth limit is not 0.
pub proof fn law_operation_by_id_or_by_method_and_path(
    by_id: &Command,
    by_place: &Command,
    raw: JsonV,
    id: Seq<char>,
    opts: ResolveOptions,
    show_null: bool,
    r1: Result<Json, OadigError>,
    r2: Result<Json, OadigError>,
)
    requires
        object_of(member(canonical_view(raw), "paths"@)) matches Some(fs) && unique_keys(fs),
        crate::commands::operations::with_id(ops_of(canonical_view(raw)), id).len() == 1,
        by_id matches Command::Operation { args, method: None, path: None } && args@.len() == 2 && args@[0]@ == id,
        by_place matches Command::Operation { args, method: Some(m), path: Some(p) } && args@.len() == 1 && crate::text::lower(m@)
            == crate::commands::operations::method_name(only_op(raw, id).0) && p@ == only_op(raw, id).1,
        dispatch_ok(by_id, raw, opts, show_null, r1),
        dispatch_ok(by_place, raw, opts, show_null, r2),
    ensures
        r1 is Ok && r2 is Ok && r1->Ok_0@ == r2->Ok_0@,
        r1->Ok_0@ == operation_view(
            only_op(raw, id).0,
            only_op(raw, id).1,
            in_place(canonical_view(raw), opts, only_op(raw, id).2, op_origin(only_op(raw, id).0, only_op(raw, id).1)),
        ),
        plain_op(only_op(raw, id).2) ==> member(r1->Ok_0@, "method"@) == Some(
            JsonV::Str(crate::text::upper(crate::commands::operations::method_name(only_op(raw, id).0))),
        ) && member(r1->Ok_0@, "path"@) == Some(JsonV::Str(only_op(raw, id).1)),
        plain_op(only_op(raw, id).2) && unique_keys(only_op(raw, id).2->Object_0) && opts.max_depth != Some(0usize)
            ==> member(r1->Ok_0@, "operationId"@) == Some(JsonV::Str(id)),
{
    let canon = canonical_view(raw);
    let o = only_op(raw, id);
    let m = match by_place {
        Command::Operation { method: Some(m), .. } => m@,
        _ => Seq::empty(),
    };
    crate::commands::operations::law_lookup_by_id_matches_method_and_path(canon, id, m);
    let origin = op_origin(o.0, o.1);
    let ro = in_place(canon, opts, o.2, origin);
    if plain_op(o.2) {
        let f = o.2->Object_0;
        let g = ro->Object_0;
        assert(ro is Object);
        assert(g.len() == f.len());
        assert forall|i: int| 0 <= i < f.len() implies #[trigger] f[i].0 == g[i].0 by {}
        assert forall|i: int| 0 <= i < g.len() implies g[i].0 != "method"@ && g[i].0 != "path"@ by {
            assert(f[i].0 == g[i].0);
        }
        assert(ro == JsonV::Object(g));
        crate::commands::operation::lemma_operation_view_members(o.0, o.1, g);
        if unique_keys(f) && opts.max_depth != Some(0usize) {
            assert forall|a: int, b: int| 0 <= a < b < g.len() implies g[a].0 != g[b].0 by {
                assert(f[a].0 == g[a].0 && f[b].0 == g[b].0);
            }
            crate::commands::operations::lemma_with_id_has_id(ops_of(canon), id, 0);
            crate::resolver::lemma_lookup_same_keys(f, g, "operationId"@);
            crate::json::lemma_key_index(f, "operationId"@);
            let k = crate::json::key_index(f, "operationId"@);
            assert(f[k].1 == JsonV::Str(id));
            if opts.resolve {
                assert(g[k].1 == expand(canon, opts.max_depth, f[k].1, 1, set![origin], universe_of(canon, o.2, origin)));
            }
            assert(g[k].1 == JsonV::Str(id));
        }
    }
}

} // verus!
