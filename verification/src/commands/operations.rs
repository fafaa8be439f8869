//! The operations of a spec: how they are enumerated, looked up and listed.
//!
//! An operation is a member of a path item named by one of the eight HTTP methods
//! below. Operations come in document order of the paths, and within one path in
//! the order of that list.

use vstd::prelude::*;
use crate::cli::OperationField;
use crate::commands::filter::{filter_accepts, Clause, OpFilter};
use crate::json::{elems_view, field_get, lemma_key_index, lemma_key_index_at, unique_keys, fields_view, lemma_array_view, lookup, member, str_of, non_null, object_of, opt_view, Json, JsonV};
use crate::resolver::{resolved, ResolveOptions, Resolver};
use crate::error::{is_other, OadigError};
use crate::output::{join, join_with};
use crate::text::{ascii_lowercase, ascii_uppercase, concat, concat3, lower, owned, str_eq, upper};

verus! {

/// The HTTP methods that name operations in a path item, in listing order.
pub open spec fn method_name(i: int) -> Seq<char> {
    if i == 0 {
        "get"@
    } else if i == 1 {
        "put"@
    } else if i == 2 {
        "post"@
    } else if i == 3 {
        "delete"@
    } else if i == 4 {
        "options"@
    } else if i == 5 {
        "head"@
    } else if i == 6 {
        "patch"@
    } else {
        "trace"@
    }
}

/// The number of HTTP methods.
pub const METHOD_COUNT: usize = 8;

/// The name of the `i`-th method.
pub fn method_at(i: usize) -> (r: &'static str)
    requires
        i < METHOD_COUNT,
    ensures
        r@ == method_name(i as int),
{
    if i == 0 {
        "get"
    } else if i == 1 {
        "put"
    } else if i == 2 {
        "post"
    } else if i == 3 {
        "delete"
    } else if i == 4 {
        "options"
    } else if i == 5 {
        "head"
    } else if i == 6 {
        "patch"
    } else {
        "trace"
    }
}

/// The operations of one path item among the first `n` methods: (method index, path, operation).
pub open spec fn item_ops(path: Seq<char>, item: JsonV, n: int) -> Seq<(int, Seq<char>, JsonV)>
    decreases n,
{
    if n <= 0 {
        Seq::empty()
    } else {
        item_ops(path, item, n - 1) + match member(item, method_name(n - 1)) {
            Some(op) => seq![(n - 1, path, op)],
            None => Seq::empty(),
        }
    }
}

/// The operations of the first `n` path items.
pub open spec fn paths_ops(fs: Seq<(Seq<char>, JsonV)>, n: int) -> Seq<(int, Seq<char>, JsonV)>
    decreases n,
{
    if n <= 0 {
        Seq::empty()
    } else {
        paths_ops(fs, n - 1) + item_ops(fs[n - 1].0, fs[n - 1].1, METHOD_COUNT as int)
    }
}

/// Every operation of a spec, in listing order.
pub open spec fn ops_of(spec: JsonV) -> Seq<(int, Seq<char>, JsonV)> {
    match object_of(member(spec, "paths"@)) {
        Some(fs) => paths_ops(fs, fs.len() as int),
        None => Seq::empty(),
    }
}

/// The view of a list of found operations.
pub open spec fn ops_view(r: Seq<(usize, &String, &Json)>) -> Seq<(int, Seq<char>, JsonV)> {
    Seq::new(r.len(), |i: int| (r[i].0 as int, r[i].1@, r[i].2@))
}

/// Every operation of a spec: (method index, path, operation), in listing order.
pub fn collect_ops<'a>(spec: &'a Json) -> (r: Vec<(usize, &'a String, &'a Json)>)
    ensures
        ops_view(r@) == ops_of(spec@),
        forall|i: int| 0 <= i < r@.len() ==> #[trigger] r@[i].0 < METHOD_COUNT,
{
    let mut out: Vec<(usize, &'a String, &'a Json)> = Vec::new();
    let paths = match spec.get("paths") {
        Some(p) => match p.as_object() {
            Some(f) => f,
            None => {
                assert(ops_view(out@) =~= ops_of(spec@));
                return out;
            },
        },
        None => {
            assert(ops_view(out@) =~= ops_of(spec@));
            return out;
        },
    };
    let ghost fs = fields_view(paths@);
    assert(object_of(member(spec@, "paths"@)) == Some(fs));
    let mut i: usize = 0;
    while i < paths.len()
        invariant
            i <= paths.len(),
            fs == fields_view(paths@),
            ops_view(out@) == paths_ops(fs, i as int),
            forall|j: int| 0 <= j < out@.len() ==> #[trigger] out@[j].0 < METHOD_COUNT,
        decreases paths.len() - i,
    {
        let path = &paths[i].0;
        let item = &paths[i].1;
        let mut k: usize = 0;
        assert(ops_view(out@) =~= paths_ops(fs, i as int) + item_ops(fs[i as int].0, fs[i as int].1, 0));
        while k < METHOD_COUNT
            invariant
                k <= METHOD_COUNT,
                i < paths.len(),
                fs == fields_view(paths@),
                path@ == fs[i as int].0,
                item@ == fs[i as int].1,
                ops_view(out@) == paths_ops(fs, i as int) + item_ops(fs[i as int].0, fs[i as int].1, k as int),
                forall|j: int| 0 <= j < out@.len() ==> #[trigger] out@[j].0 < METHOD_COUNT,
            decreases METHOD_COUNT - k,
        {
            let ghost before = out@;
            match item.get(method_at(k)) {
                Some(op) => {
                    out.push((k, path, op));
                    assert(ops_view(out@) =~= ops_view(before).push((k as int, path@, op@)));
                },
                None => {},
            }
            k = k + 1;
            assert(ops_view(out@) =~= paths_ops(fs, i as int) + item_ops(fs[i as int].0, fs[i as int].1, k as int));
        }
        i = i + 1;
    }
    out
}

/// A value with its `$ref`s expanded when the options say so.
pub open spec fn in_place(spec: JsonV, opts: ResolveOptions, v: JsonV, origin: Seq<char>) -> JsonV {
    if opts.resolve {
        resolved(spec, opts.max_depth, v, origin)
    } else {
        v
    }
}

/// Expands the `$ref`s of `value` against `spec` when `opts.resolve` is set; `origin`
/// counts as being expanded already.
pub fn resolve_in_place(value: Json, spec: &Json, opts: ResolveOptions, origin: &str) -> (r: Json)
    ensures
        r@ == in_place(spec@, opts, value@, origin@),
{
    if !opts.resolve {
        return value;
    }
    let mut resolver = Resolver::new(spec, opts);
    resolver.resolve(value, origin)
}

/// The reference an operation's values are expanded under.
pub open spec fn op_origin(m: int, path: Seq<char>) -> Seq<char> {
    "#operation/"@ + method_name(m) + "/"@ + path
}

/// `f` is in the list, directly or through `all`.
pub open spec fn listed(list: Seq<OperationField>, f: OperationField) -> bool {
    list.contains(f) || list.contains(OperationField::All)
}

/// Whether an `operations` entry shows a field: `operationId` and `summary` by default,
/// the others when asked for, none that is hidden.
pub open spec fn field_on(show: Seq<OperationField>, hide: Seq<OperationField>, f: OperationField) -> bool {
    (f == OperationField::OperationId || f == OperationField::Summary || listed(show, f)) && !listed(hide, f)
}

fn in_list(list: &[OperationField], f: OperationField) -> (r: bool)
    ensures
        r == listed(list@, f),
{
    let mut i: usize = 0;
    while i < list.len()
        invariant
            i <= list.len(),
            forall|k: int| 0 <= k < i ==> list@[k] != f && list@[k] != OperationField::All,
        decreases list.len() - i,
    {
        if list[i] == f || list[i] == OperationField::All {
            assert(list@.contains(list@[i as int]));
            return true;
        }
        i = i + 1;
    }
    false
}

fn shows_field(show: &[OperationField], hide: &[OperationField], f: OperationField) -> (r: bool)
    ensures
        r == field_on(show@, hide@, f),
{
    let default_on = f == OperationField::OperationId || f == OperationField::Summary;
    (default_on || in_list(show, f)) && !in_list(hide, f)
}

/// The member `k: v` when `on` and `v` is present and not `null`.
pub open spec fn opt_member(on: bool, k: Seq<char>, v: Option<JsonV>) -> Seq<(Seq<char>, JsonV)> {
    if on {
        match non_null(v) {
            Some(x) => seq![(k, x)],
            None => Seq::empty(),
        }
    } else {
        Seq::empty()
    }
}

/// As `opt_member`, the value expanded under `origin`.
pub open spec fn opt_resolved(
    on: bool,
    k: Seq<char>,
    v: Option<JsonV>,
    spec: JsonV,
    opts: ResolveOptions,
    origin: Seq<char>,
) -> Seq<(Seq<char>, JsonV)> {
    if on {
        match non_null(v) {
            Some(x) => seq![(k, in_place(spec, opts, x, origin))],
            None => Seq::empty(),
        }
    } else {
        Seq::empty()
    }
}

/// The members of the `operations` entry of one operation.
pub open spec fn entry_members(
    spec: JsonV,
    show: Seq<OperationField>,
    hide: Seq<OperationField>,
    opts: ResolveOptions,
    o: (int, Seq<char>, JsonV),
) -> Seq<(Seq<char>, JsonV)> {
    let m = o.0;
    let path = o.1;
    let op = o.2;
    let origin = op_origin(m, path);
    opt_member(field_on(show, hide, OperationField::OperationId), "operationId"@, member(op, "operationId"@))
        + seq![("method"@, JsonV::Str(upper(method_name(m)))), ("path"@, JsonV::Str(path))]
        + opt_member(field_on(show, hide, OperationField::Summary), "summary"@, member(op, "summary"@))
        + opt_member(field_on(show, hide, OperationField::Description), "description"@, member(op, "description"@))
        + opt_member(field_on(show, hide, OperationField::Tags), "tags"@, member(op, "tags"@))
        + opt_resolved(field_on(show, hide, OperationField::Parameters), "parameters"@, member(op, "parameters"@), spec, opts, origin)
        + opt_resolved(field_on(show, hide, OperationField::Request), "requestBody"@, member(op, "requestBody"@), spec, opts, origin)
        + opt_resolved(field_on(show, hide, OperationField::Response), "responses"@, member(op, "responses"@), spec, opts, origin)
        + opt_member(field_on(show, hide, OperationField::Security), "security"@, member(op, "security"@))
        + opt_member(field_on(show, hide, OperationField::Deprecated), "deprecated"@, member(op, "deprecated"@))
}

/// Appends `k: v` when `on` and `v` is present and not `null`.
fn push_member(out: &mut Vec<(String, Json)>, on: bool, k: &str, v: Option<&Json>)
    ensures
        fields_view(final(out)@) == fields_view(old(out)@) + opt_member(on, k@, opt_view(v)),
{
    if on {
        if let Some(x) = v {
            if !x.is_null() {
                let c = x.deep_clone();
                let ghost before = out@;
                out.push((owned(k), c));
                assert(fields_view(out@) =~= fields_view(before) + seq![(k@, x@)]);
                return;
            }
        }
    }
    assert(fields_view(out@) =~= fields_view(old(out)@) + opt_member(on, k@, opt_view(v)));
}

/// Appends `k: v` expanded under `origin`, when `on` and `v` is present and not `null`.
fn push_resolved(
    out: &mut Vec<(String, Json)>,
    on: bool,
    k: &str,
    v: Option<&Json>,
    spec: &Json,
    opts: ResolveOptions,
    origin: &str,
)
    ensures
        fields_view(final(out)@) == fields_view(old(out)@) + opt_resolved(on, k@, opt_view(v), spec@, opts, origin@),
{
    if on {
        if let Some(x) = v {
            if !x.is_null() {
                let c = resolve_in_place(x.deep_clone(), spec, opts, origin);
                let ghost before = out@;
                let ghost cv = c@;
                out.push((owned(k), c));
                assert(fields_view(out@) =~= fields_view(before) + seq![(k@, cv)]);
                return;
            }
        }
    }
    assert(fields_view(out@) =~= fields_view(old(out)@) + opt_resolved(on, k@, opt_view(v), spec@, opts, origin@));
}

/// `<prefix><method>/<path>`: the reference a command expands an operation's values under.
pub open spec fn origin_in(prefix: Seq<char>, m: int, path: Seq<char>) -> Seq<char> {
    prefix + method_name(m) + "/"@ + path
}

pub fn origin_with(prefix: &str, m: usize, path: &str) -> (r: String)
    requires
        m < METHOD_COUNT,
    ensures
        r@ == origin_in(prefix@, m as int, path@),
{
    let mut r = concat3(prefix, method_at(m), "/");
    crate::text::push_str(&mut r, path);
    r
}

/// `#operation/<method>/<path>`.
pub fn origin_for(m: usize, path: &str) -> (r: String)
    requires
        m < METHOD_COUNT,
    ensures
        r@ == op_origin(m as int, path@),
{
    let mut r = concat3("#operation/", method_at(m), "/");
    crate::text::push_str(&mut r, path);
    r
}

/// The `operations` entry of one operation.
pub fn op_entry(
    spec: &Json,
    show: &[OperationField],
    hide: &[OperationField],
    opts: ResolveOptions,
    m: usize,
    path: &String,
    op: &Json,
) -> (r: Json)
    requires
        m < METHOD_COUNT,
    ensures
        r@ == JsonV::Object(entry_members(spec@, show@, hide@, opts, (m as int, path@, op@))),
{
    let origin = origin_for(m, path.as_str());
    let mut out: Vec<(String, Json)> = Vec::new();
    push_member(&mut out, shows_field(show, hide, OperationField::OperationId), "operationId", op.get("operationId"));
    let ghost before = out@;
    out.push((owned("method"), Json::Str(ascii_uppercase(method_at(m)))));
    out.push((owned("path"), Json::Str(path.clone())));
    assert(fields_view(out@) =~= fields_view(before) + seq![("method"@, JsonV::Str(upper(method_name(m as int)))), ("path"@, JsonV::Str(path@))]);
    push_member(&mut out, shows_field(show, hide, OperationField::Summary), "summary", op.get("summary"));
    push_member(&mut out, shows_field(show, hide, OperationField::Description), "description", op.get("description"));
    push_member(&mut out, shows_field(show, hide, OperationField::Tags), "tags", op.get("tags"));
    push_resolved(&mut out, shows_field(show, hide, OperationField::Parameters), "parameters", op.get("parameters"), spec, opts, origin.as_str());
    push_resolved(&mut out, shows_field(show, hide, OperationField::Request), "requestBody", op.get("requestBody"), spec, opts, origin.as_str());
    push_resolved(&mut out, shows_field(show, hide, OperationField::Response), "responses", op.get("responses"), spec, opts, origin.as_str());
    push_member(&mut out, shows_field(show, hide, OperationField::Security), "security", op.get("security"));
    push_member(&mut out, shows_field(show, hide, OperationField::Deprecated), "deprecated", op.get("deprecated"));
    proof {
        crate::json::lemma_object_view(out);
    }
    assert(fields_view(out@) =~= entry_members(spec@, show@, hide@, opts, (m as int, path@, op@)));
    Json::Object(out)
}

/// The entries of the operations among `ops` that the filter accepts.
pub open spec fn listed_entries(
    spec: JsonV,
    show: Seq<OperationField>,
    hide: Seq<OperationField>,
    clauses: Seq<Clause>,
    opts: ResolveOptions,
    ops: Seq<(int, Seq<char>, JsonV)>,
) -> Seq<JsonV>
    decreases ops.len(),
{
    if ops.len() == 0 {
        Seq::empty()
    } else {
        let o = ops.last();
        listed_entries(spec, show, hide, clauses, opts, ops.drop_last()) + if filter_accepts(
            clauses,
            method_name(o.0),
            o.1,
            o.2,
        ) {
            seq![JsonV::Object(entry_members(spec, show, hide, opts, o))]
        } else {
            Seq::empty()
        }
    }
}

/// `operations`: one entry per operation the filter accepts, in listing order, with the
/// default fields (`operationId`, `summary`) plus those shown, minus those hidden.
pub fn run(
    spec: &Json,
    show: &[OperationField],
    hide: &[OperationField],
    filter: &OpFilter,
    opts: ResolveOptions,
) -> (r: Json)
    ensures
        r@ == JsonV::Array(listed_entries(spec@, show@, hide@, filter.clauses@, opts, ops_of(spec@))),
{
    let ops = collect_ops(spec);
    let ghost all = ops_of(spec@);
    let mut out: Vec<Json> = Vec::new();
    let mut i: usize = 0;
    while i < ops.len()
        invariant
            i <= ops.len(),
            ops_view(ops@) == all,
            all == ops_of(spec@),
            forall|j: int| 0 <= j < ops@.len() ==> #[trigger] ops@[j].0 < METHOD_COUNT,
            elems_view(out@) == listed_entries(spec@, show@, hide@, filter.clauses@, opts, all.take(i as int)),
        decreases ops.len() - i,
    {
        let (m, path, op) = ops[i];
        assert(all.take(i + 1).drop_last() =~= all.take(i as int));
        assert(all[i as int] == (m as int, path@, op@));
        let ghost before = out@;
        if filter.accepts(method_at(m), path.as_str(), op) {
            let e = op_entry(spec, show, hide, opts, m, path, op);
            out.push(e);
            assert(elems_view(out@) =~= elems_view(before).push(e@));
        }
        i = i + 1;
    }
    assert(all.take(all.len() as int) =~= all);
    proof {
        lemma_array_view(out);
    }
    Json::Array(out)
}

/// An operation found by `resolve_lookup`: its method index, its path and a copy of it.
#[derive(Debug)]
pub struct Located {
    pub method: usize,
    pub path: String,
    pub op: Json,
}

/// The operations among `ops` whose `operationId` is `id`.
pub open spec fn with_id(ops: Seq<(int, Seq<char>, JsonV)>, id: Seq<char>) -> Seq<(int, Seq<char>, JsonV)>
    decreases ops.len(),
{
    if ops.len() == 0 {
        Seq::empty()
    } else {
        with_id(ops.drop_last(), id) + if str_of(member(ops.last().2, "operationId"@)) == Some(id) {
            seq![ops.last()]
        } else {
            Seq::empty()
        }
    }
}

/// How an operation is shown among ambiguous matches: `  GET /pets`.
pub open spec fn match_line(o: (int, Seq<char>, JsonV)) -> Seq<char> {
    "  "@ + upper(method_name(o.0)) + " "@ + o.1
}

pub open spec fn match_lines(ms: Seq<(int, Seq<char>, JsonV)>) -> Seq<Seq<char>> {
    Seq::new(ms.len(), |i: int| match_line(ms[i]))
}

/// The index of a method name, or -1 when it names none.
pub open spec fn method_index(m: Seq<char>) -> int {
    if m == method_name(0) {
        0
    } else if m == method_name(1) {
        1
    } else if m == method_name(2) {
        2
    } else if m == method_name(3) {
        3
    } else if m == method_name(4) {
        4
    } else if m == method_name(5) {
        5
    } else if m == method_name(6) {
        6
    } else if m == method_name(7) {
        7
    } else {
        -1
    }
}

/// The operation of a path and a method index.
pub open spec fn op_at(spec: JsonV, m: int, path: Seq<char>) -> Option<JsonV> {
    match object_of(member(spec, "paths"@)) {
        Some(fs) => match lookup(fs, path) {
            Some(item) => member(item, method_name(m)),
            None => None,
        },
        None => None,
    }
}

pub open spec fn neither_message() -> Seq<char> {
    "specify either `<ID> <FILE>` or `<FILE> -m METHOD -p PATH`"@
}

/// The operation a lookup finds: by `operationId` when `id` is given (exactly one must
/// carry it), else by method (any case) and path.
pub open spec fn found(
    spec: JsonV,
    id: Option<Seq<char>>,
    method: Option<Seq<char>>,
    path: Option<Seq<char>>,
) -> Option<(int, Seq<char>, JsonV)> {
    match id {
        Some(x) => {
            let ms = with_id(ops_of(spec), x);
            if ms.len() == 1 {
                Some(ms[0])
            } else {
                None
            }
        },
        None => match (method, path) {
            (Some(m), Some(p)) => {
                let k = method_index(lower(m));
                if k >= 0 && op_at(spec, k, p) is Some {
                    Some((k, p, op_at(spec, k, p)->0))
                } else {
                    None
                }
            },
            _ => None,
        },
    }
}

/// The error of a lookup that finds nothing.
pub open spec fn lookup_error(
    spec: JsonV,
    id: Option<Seq<char>>,
    method: Option<Seq<char>>,
    path: Option<Seq<char>>,
    e: OadigError,
) -> bool {
    match id {
        Some(x) => {
            let ms = with_id(ops_of(spec), x);
            if ms.len() == 0 {
                e matches OadigError::OperationIdNotFound { id: i } && i@ == x
            } else {
                e matches OadigError::OperationIdAmbiguous { id: i, matches: t } && i@ == x
                    && t@ == join(match_lines(ms), "\n"@)
            }
        },
        None => match (method, path) {
            (Some(m), Some(p)) => e matches OadigError::OperationNotFound { method: mm, path: pp } && mm@ == upper(m)
                && pp@ == p,
            _ => is_other(&e, neither_message()),
        },
    }
}

/// What looking an operation up gives.
pub open spec fn lookup_ok(
    spec: JsonV,
    id: Option<Seq<char>>,
    method: Option<Seq<char>>,
    path: Option<Seq<char>>,
    r: Result<Located, OadigError>,
) -> bool {
    match found(spec, id, method, path) {
        Some(o) => r matches Ok(l) && l.method == o.0 && l.path@ == o.1 && l.op@ == o.2,
        None => r matches Err(e) && lookup_error(spec, id, method, path, e),
    }
}

pub open spec fn opt_str_view(o: Option<&str>) -> Option<Seq<char>> {
    match o {
        Some(s) => Some(s@),
        None => None,
    }
}

/// The index of a method name.
pub fn find_method(m: &str) -> (r: Option<usize>)
    ensures
        match r {
            Some(k) => k < METHOD_COUNT && method_index(m@) == k,
            None => method_index(m@) == -1,
        },
{
    let mut k: usize = 0;
    while k < METHOD_COUNT
        invariant
            k <= METHOD_COUNT,
            forall|j: int| 0 <= j < k ==> method_name(j) != m@,
        decreases METHOD_COUNT - k,
    {
        if str_eq(m, method_at(k)) {
            return Some(k);
        }
        k = k + 1;
    }
    None
}

/// Finds one operation by `operationId`, or by method and path.
pub fn resolve_lookup(spec: &Json, id: Option<&str>, method: Option<&str>, path: Option<&str>) -> (r: Result<
    Located,
    OadigError,
>)
    ensures
        lookup_ok(spec@, opt_str_view(id), opt_str_view(method), opt_str_view(path), r),
        r matches Ok(l) ==> l.method < METHOD_COUNT,
{
    match id {
        Some(x) => {
            let ops = collect_ops(spec);
            let ghost all = ops_of(spec@);
            let mut found: Vec<(usize, &String, &Json)> = Vec::new();
            let mut i: usize = 0;
            while i < ops.len()
                invariant
                    i <= ops.len(),
                    ops_view(ops@) == all,
                    forall|j: int| 0 <= j < ops@.len() ==> #[trigger] ops@[j].0 < METHOD_COUNT,
                    forall|j: int| 0 <= j < found@.len() ==> #[trigger] found@[j].0 < METHOD_COUNT,
                    ops_view(found@) == with_id(all.take(i as int), x@),
                decreases ops.len() - i,
            {
                let (m, p, op) = ops[i];
                assert(all.take(i + 1).drop_last() =~= all.take(i as int));
                assert(all[i as int] == (m as int, p@, op@));
                let ghost before = found@;
                let hit = match op.get("operationId") {
                    Some(v) => match v.as_str() {
                        Some(s) => str_eq(s.as_str(), x),
                        None => false,
                    },
                    None => false,
                };
                if hit {
                    found.push((m, p, op));
                    assert(ops_view(found@) =~= ops_view(before).push((m as int, p@, op@)));
                }
                i = i + 1;
            }
            assert(all.take(all.len() as int) =~= all);
            let ghost ms = with_id(all, x@);
            if found.len() == 0 {
                Err(OadigError::OperationIdNotFound { id: owned(x) })
            } else if found.len() == 1 {
                let (m, p, op) = found[0];
                assert(ms[0] == (m as int, p@, op@));
                Ok(Located { method: m, path: p.clone(), op: op.deep_clone() })
            } else {
                let mut lines: Vec<String> = Vec::new();
                let mut j: usize = 0;
                while j < found.len()
                    invariant
                        j <= found.len(),
                        ops_view(found@) == ms,
                        forall|k: int| 0 <= k < found@.len() ==> #[trigger] found@[k].0 < METHOD_COUNT,
                        lines@.len() == j,
                        forall|k: int| 0 <= k < j ==> #[trigger] lines@[k]@ == match_line(ms[k]),
                    decreases found.len() - j,
                {
                    let (m, p, _) = found[j];
                    assert(ms[j as int].0 == m as int && ms[j as int].1 == p@);
                    let mut line = concat("  ", ascii_uppercase(method_at(m)).as_str());
                    crate::text::push_str(&mut line, " ");
                    crate::text::push_str(&mut line, p.as_str());
                    lines.push(line);
                    j = j + 1;
                }
                assert(lines@.map_values(|p: String| p@) =~= match_lines(ms));
                let t = join_with(&lines, "\n");
                Err(OadigError::OperationIdAmbiguous { id: owned(x), matches: t })
            }
        },
        None => match (method, path) {
            (Some(m), Some(p)) => {
                let lm = ascii_lowercase(m);
                let not_found = OadigError::OperationNotFound { method: ascii_uppercase(m), path: owned(p) };
                let k = match find_method(lm.as_str()) {
                    Some(k) => k,
                    None => return Err(not_found),
                };
                let paths = match spec.get("paths") {
                    Some(v) => match v.as_object() {
                        Some(f) => f,
                        None => return Err(not_found),
                    },
                    None => return Err(not_found),
                };
                let item = match field_get(paths, p) {
                    Some(it) => it,
                    None => return Err(not_found),
                };
                match item.get(method_at(k)) {
                    Some(op) => Ok(Located { method: k, path: owned(p), op: op.deep_clone() }),
                    None => Err(not_found),
                }
            },
            _ => Err(OadigError::Other(owned("specify either `<ID> <FILE>` or `<FILE> -m METHOD -p PATH`"))),
        },
    }
}

/// The method of a lookup is compared without regard to ASCII case.
pub proof fn law_lookup_method_ignores_case(spec: JsonV, m1: Seq<char>, m2: Seq<char>, path: Seq<char>)
    requires
        lower(m1) == lower(m2),
    ensures
        found(spec, None, Some(m1), Some(path)) == found(spec, None, Some(m2), Some(path)),
{
}

proof fn lemma_method_names_distinct()
    ensures
        forall|i: int, j: int| 0 <= i < j < METHOD_COUNT ==> method_name(i) != method_name(j),
{
    reveal_strlit("get");
    reveal_strlit("put");
    reveal_strlit("post");
    reveal_strlit("delete");
    reveal_strlit("options");
    reveal_strlit("head");
    reveal_strlit("patch");
    reveal_strlit("trace");
    assert("get"@[0] != "put"@[0]);
    assert("post"@[0] != "head"@[0]);
    assert("patch"@[0] != "trace"@[0]);
    assert("get"@.len() == 3 && "put"@.len() == 3 && "post"@.len() == 4 && "delete"@.len() == 6);
    assert("options"@.len() == 7 && "head"@.len() == 4 && "patch"@.len() == 5 && "trace"@.len() == 5);
}

proof fn lemma_method_index_of_name(k: int)
    requires
        0 <= k < METHOD_COUNT,
    ensures
        method_index(method_name(k)) == k,
{
    lemma_method_names_distinct();
    assert forall|j: int| 0 <= j < k implies method_name(j) != method_name(k) by {}
}

/// Where an enumerated operation sits: its method index is in range, and the path
/// item of its path has it under its method.
proof fn lemma_item_ops_source(path: Seq<char>, item: JsonV, n: int, i: int)
    requires
        0 <= n <= METHOD_COUNT,
        0 <= i < item_ops(path, item, n).len(),
    ensures
        0 <= item_ops(path, item, n)[i].0 < n,
        item_ops(path, item, n)[i].1 == path,
        member(item, method_name(item_ops(path, item, n)[i].0)) == Some(item_ops(path, item, n)[i].2),
    decreases n,
{
    let prev = item_ops(path, item, n - 1);
    if i < prev.len() {
        lemma_item_ops_source(path, item, n - 1, i);
        assert(item_ops(path, item, n)[i] == prev[i]);
    }
}

proof fn lemma_paths_ops_source(fs: Seq<(Seq<char>, JsonV)>, n: int, i: int)
    requires
        0 <= n <= fs.len(),
        0 <= i < paths_ops(fs, n).len(),
    ensures
        0 <= paths_ops(fs, n)[i].0 < METHOD_COUNT,
        exists|j: int|
            0 <= j < n && #[trigger] fs[j].0 == paths_ops(fs, n)[i].1 && member(fs[j].1, method_name(paths_ops(fs, n)[i].0))
                == Some(paths_ops(fs, n)[i].2),
    decreases n,
{
    let prev = paths_ops(fs, n - 1);
    let cur = item_ops(fs[n - 1].0, fs[n - 1].1, METHOD_COUNT as int);
    assert(paths_ops(fs, n) == prev + cur);
    if i < prev.len() {
        lemma_paths_ops_source(fs, n - 1, i);
        assert((prev + cur)[i] == prev[i]);
        let j = choose|j: int|
            0 <= j < n - 1 && #[trigger] fs[j].0 == prev[i].1 && member(fs[j].1, method_name(prev[i].0)) == Some(prev[i].2);
        assert(0 <= j < n && fs[j].0 == paths_ops(fs, n)[i].1);
    } else {
        lemma_item_ops_source(fs[n - 1].0, fs[n - 1].1, METHOD_COUNT as int, i - prev.len());
        assert((prev + cur)[i] == cur[i - prev.len()]);
        assert(fs[n - 1].0 == paths_ops(fs, n)[i].1);
    }
}

/// Every operation found by an id carries that id.
pub proof fn lemma_with_id_has_id(ops: Seq<(int, Seq<char>, JsonV)>, id: Seq<char>, i: int)
    requires
        0 <= i < with_id(ops, id).len(),
    ensures
        str_of(member(with_id(ops, id)[i].2, "operationId"@)) == Some(id),
    decreases ops.len(),
{
    let prev = with_id(ops.drop_last(), id);
    if i < prev.len() {
        lemma_with_id_has_id(ops.drop_last(), id, i);
    }
}

proof fn lemma_with_id_in(ops: Seq<(int, Seq<char>, JsonV)>, id: Seq<char>, i: int)
    requires
        0 <= i < with_id(ops, id).len(),
    ensures
        ops.contains(with_id(ops, id)[i]),
    decreases ops.len(),
{
    let prev = with_id(ops.drop_last(), id);
    if i < prev.len() {
        lemma_with_id_in(ops.drop_last(), id, i);
        let j = choose|j: int| 0 <= j < ops.drop_last().len() && ops.drop_last()[j] == prev[i];
        assert(ops[j] == prev[i]);
        assert(with_id(ops, id)[i] == prev[i]);
    } else {
        assert(with_id(ops, id)[i] == ops.last());
        assert(ops[ops.len() - 1] == ops.last());
    }
}

/// Looking an operation up by its `operationId` finds what looking it up by its method
/// (in any case) and path finds, when the id is carried once and no two path items
/// share a key.
pub proof fn law_lookup_by_id_matches_method_and_path(spec: JsonV, id: Seq<char>, method: Seq<char>)
    requires
        object_of(member(spec, "paths"@)) matches Some(fs) && unique_keys(fs),
        with_id(ops_of(spec), id).len() == 1,
        lower(method) == method_name(with_id(ops_of(spec), id)[0].0),
    ensures
        found(spec, Some(id), None, None) == found(spec, None, Some(method), Some(with_id(ops_of(spec), id)[0].1)),
{
    let fs = object_of(member(spec, "paths"@))->0;
    let ops = ops_of(spec);
    let o = with_id(ops, id)[0];
    lemma_with_id_in(ops, id, 0);
    let i = choose|i: int| 0 <= i < ops.len() && ops[i] == o;
    lemma_paths_ops_source(fs, fs.len() as int, i);
    let j = choose|j: int|
        0 <= j < fs.len() && #[trigger] fs[j].0 == ops[i].1 && member(fs[j].1, method_name(ops[i].0)) == Some(ops[i].2);
    assert forall|q: int| 0 <= q < j implies fs[q].0 != fs[j].0 by {}
    lemma_key_index_at(fs, fs[j].0, j);
    lemma_method_index_of_name(o.0);
}

} // verus!
