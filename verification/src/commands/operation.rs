//! `operation`: one operation with every field, `$ref`s resolved.

use vstd::prelude::*;
use crate::commands::operations::{
    found, lookup_error, method_at, method_name, op_origin, opt_str_view, origin_for, resolve_in_place, resolve_lookup, in_place,
    METHOD_COUNT,
};
use crate::error::OadigError;
use crate::commands::convert_laws::avoids_key;
use crate::json::{
    field_insert, field_remove, fields_view, insert_field, key_index, lemma_key_index, lemma_key_index_absent, lemma_key_index_at,
    lemma_object_view, lookup, remove_field, unique_keys, Json, JsonV,
};
use crate::resolver::ResolveOptions;
use crate::text::{ascii_uppercase, owned, upper};

verus! {

/// The order of the known fields of an operation: identifier and summary first, long
/// prose and nested bodies later. Other keys follow in their own order.
pub open spec fn canonical_key(i: int) -> Seq<char> {
    if i == 0 {
        "operationId"@
    } else if i == 1 {
        "summary"@
    } else if i == 2 {
        "description"@
    } else if i == 3 {
        "tags"@
    } else if i == 4 {
        "parameters"@
    } else if i == 5 {
        "requestBody"@
    } else if i == 6 {
        "responses"@
    } else if i == 7 {
        "callbacks"@
    } else if i == 8 {
        "security"@
    } else if i == 9 {
        "servers"@
    } else if i == 10 {
        "deprecated"@
    } else {
        "externalDocs"@
    }
}

pub const CANONICAL_COUNT: usize = 12;

fn canonical_at(i: usize) -> (r: &'static str)
    requires
        i < CANONICAL_COUNT,
    ensures
        r@ == canonical_key(i as int),
{
    if i == 0 {
        "operationId"
    } else if i == 1 {
        "summary"
    } else if i == 2 {
        "description"
    } else if i == 3 {
        "tags"
    } else if i == 4 {
        "parameters"
    } else if i == 5 {
        "requestBody"
    } else if i == 6 {
        "responses"
    } else if i == 7 {
        "callbacks"
    } else if i == 8 {
        "security"
    } else if i == 9 {
        "servers"
    } else if i == 10 {
        "deprecated"
    } else {
        "externalDocs"
    }
}

/// `f` with the first `n` canonical keys taken out.
pub open spec fn canon_rest(f: Seq<(Seq<char>, JsonV)>, n: int) -> Seq<(Seq<char>, JsonV)>
    decreases n,
{
    if n <= 0 {
        f
    } else {
        remove_field(canon_rest(f, n - 1), canonical_key(n - 1))
    }
}

/// `base` with the first `n` canonical members of `f` inserted, in canonical order.
pub open spec fn canon_entry(base: Seq<(Seq<char>, JsonV)>, f: Seq<(Seq<char>, JsonV)>, n: int) -> Seq<
    (Seq<char>, JsonV),
>
    decreases n,
{
    if n <= 0 {
        base
    } else {
        let e = canon_entry(base, f, n - 1);
        match lookup(canon_rest(f, n - 1), canonical_key(n - 1)) {
            Some(v) => insert_field(e, canonical_key(n - 1), v),
            None => e,
        }
    }
}

/// `acc` with every member of `fs` inserted in turn.
pub open spec fn insert_all(acc: Seq<(Seq<char>, JsonV)>, fs: Seq<(Seq<char>, JsonV)>) -> Seq<(Seq<char>, JsonV)>
    decreases fs.len(),
{
    if fs.len() == 0 {
        acc
    } else {
        insert_field(insert_all(acc, fs.drop_last()), fs.last().0, fs.last().1)
    }
}

/// The shown operation: method and path, then the members of the (expanded) operation,
/// the known ones in canonical order first.
pub open spec fn operation_view(m: int, path: Seq<char>, resolved_op: JsonV) -> JsonV {
    let base = seq![("method"@, JsonV::Str(upper(method_name(m)))), ("path"@, JsonV::Str(path))];
    match resolved_op {
        JsonV::Object(f) => JsonV::Object(
            insert_all(canon_entry(base, f, CANONICAL_COUNT as int), canon_rest(f, CANONICAL_COUNT as int)),
        ),
        _ => JsonV::Object(base),
    }
}

/// Inserts the members of `obj` into `entry`, in order.
pub fn insert_members(entry: &mut Vec<(String, Json)>, obj: Vec<(String, Json)>)
    ensures
        fields_view(final(entry)@) == insert_all(fields_view(old(entry)@), fields_view(obj@)),
{
    let ghost fv = fields_view(obj@);
    let n: usize = obj.len();
    let mut rest = obj;
    let mut taken: usize = 0;
    while rest.len() > 0
        invariant
            fv.len() == n,
            taken + rest@.len() == n,
            fields_view(rest@) == fv.skip(taken as int),
            fields_view(entry@) == insert_all(fields_view(old(entry)@), fv.take(taken as int)),
        decreases rest.len(),
    {
        let ghost before = rest@;
        let (k, v) = rest.remove(0);
        proof {
            assert(fields_view(before)[0] == (k@, v@));
            assert(fv[taken as int] == fields_view(before)[0]);
            assert(fields_view(rest@) =~= fields_view(before).skip(1));
            assert(fields_view(before).skip(1) =~= fv.skip(taken + 1));
            assert(fv.take(taken + 1).drop_last() =~= fv.take(taken as int));
        }
        field_insert(entry, k, v);
        taken = taken + 1;
    }
    assert(fv.take(n as int) =~= fv);
}

/// `operation`: the operation found by `operationId` or by method and path, with
/// method and path first and its `$ref`s expanded under `#operation/<method>/<path>`.
pub fn run(spec: &Json, id: Option<&str>, method: Option<&str>, path: Option<&str>, opts: ResolveOptions) -> (r: Result<
    Json,
    OadigError,
>)
    ensures
        match found(spec@, opt_str_view(id), opt_str_view(method), opt_str_view(path)) {
            Some(o) => r matches Ok(j) && j@ == operation_view(o.0, o.1, in_place(spec@, opts, o.2, op_origin(o.0, o.1))),
            None => r matches Err(e) && lookup_error(spec@, opt_str_view(id), opt_str_view(method), opt_str_view(path), e),
        },
{
    let located = match resolve_lookup(spec, id, method, path) {
        Ok(l) => l,
        Err(e) => return Err(e),
    };
    let origin = origin_for(located.method, located.path.as_str());
    let resolved = resolve_in_place(located.op, spec, opts, origin.as_str());
    let mut entry: Vec<(String, Json)> = Vec::new();
    entry.push((owned("method"), Json::Str(ascii_uppercase(method_at(located.method)))));
    entry.push((owned("path"), Json::Str(located.path.clone())));
    let ghost base = seq![("method"@, JsonV::Str(upper(method_name(located.method as int)))), ("path"@, JsonV::Str(located.path@))];
    assert(fields_view(entry@) =~= base);
    let ghost rv = resolved@;
    match resolved {
        Json::Object(obj) => {
            let ghost f = fields_view(obj@);
            proof {
                lemma_object_view(obj);
                assert(rv == JsonV::Object(f));
            }
            let mut obj = obj;
            let mut i: usize = 0;
            while i < CANONICAL_COUNT
                invariant
                    i <= CANONICAL_COUNT,
                    fields_view(obj@) == canon_rest(f, i as int),
                    fields_view(entry@) == canon_entry(base, f, i as int),
                decreases CANONICAL_COUNT - i,
            {
                let key = canonical_at(i);
                match field_remove(&mut obj, key) {
                    Some(v) => {
                        field_insert(&mut entry, owned(key), v);
                    },
                    None => {},
                }
                i = i + 1;
            }
            insert_members(&mut entry, obj);
            proof {
                lemma_object_view(entry);
            }
            Ok(Json::Object(entry))
        },
        _ => {
            proof {
                lemma_object_view(entry);
            }
            Ok(Json::Object(entry))
        },
    }
}

// ---- what the shown operation holds ----
/// Inserting one key keeps what another key finds.
proof fn lemma_insert_other(f: Seq<(Seq<char>, JsonV)>, k: Seq<char>, v: JsonV, k2: Seq<char>)
    requires
        k != k2,
    ensures
        lookup(insert_field(f, k, v), k2) == lookup(f, k2),
{
    lemma_key_index(f, k);
    lemma_key_index(f, k2);
    let i = key_index(f, k);
    let j = key_index(f, k2);
    let g = insert_field(f, k, v);
    if j >= 0 {
        assert(g[j] == f[j]);
        assert forall|l: int| 0 <= l < j implies g[l].0 != k2 by {
            if l != i {
                assert(g[l] == f[l]);
            }
        }
        lemma_key_index_at(g, k2, j);
    } else {
        assert forall|l: int| 0 <= l < g.len() implies g[l].0 != k2 by {
            if l != i && l < f.len() {
                assert(g[l] == f[l]);
            }
        }
        lemma_key_index_absent(g, k2);
    }
}

/// Inserting a key makes it find the inserted value.
proof fn lemma_insert_same(f: Seq<(Seq<char>, JsonV)>, k: Seq<char>, v: JsonV)
    ensures
        lookup(insert_field(f, k, v), k) == Some(v),
{
    lemma_key_index(f, k);
    let i = key_index(f, k);
    let g = insert_field(f, k, v);
    if i >= 0 {
        assert forall|l: int| 0 <= l < i implies g[l].0 != k by {
            assert(g[l] == f[l]);
        }
        lemma_key_index_at(g, k, i);
    } else {
        assert forall|l: int| 0 <= l < f.len() implies g[l].0 != k by {
            assert(g[l] == f[l]);
        }
        lemma_key_index_at(g, k, f.len() as int);
    }
}

proof fn lemma_insert_all_other(acc: Seq<(Seq<char>, JsonV)>, fs: Seq<(Seq<char>, JsonV)>, k: Seq<char>)
    requires
        avoids_key(fs, k),
    ensures
        lookup(insert_all(acc, fs), k) == lookup(acc, k),
    decreases fs.len(),
{
    if fs.len() > 0 {
        assert forall|i: int| 0 <= i < fs.drop_last().len() implies fs.drop_last()[i].0 != k by {
            assert(fs.drop_last()[i] == fs[i]);
        }
        lemma_insert_all_other(acc, fs.drop_last(), k);
        assert(fs.last() == fs[fs.len() - 1]);
        lemma_insert_other(insert_all(acc, fs.drop_last()), fs.last().0, fs.last().1, k);
    }
}

/// The keys of the shown operation's own members, other than the canonical ones.
proof fn lemma_canonical_keys()
    ensures
        forall|i: int| 0 <= i < CANONICAL_COUNT ==> #[trigger] canonical_key(i) != "method"@ && canonical_key(i) != "path"@,
        forall|i: int| 1 <= i < CANONICAL_COUNT ==> #[trigger] canonical_key(i) != "operationId"@,
{
    reveal_strlit("method");
    reveal_strlit("path");
    reveal_strlit("operationId");
    reveal_strlit("summary");
    reveal_strlit("description");
    reveal_strlit("tags");
    reveal_strlit("parameters");
    reveal_strlit("requestBody");
    reveal_strlit("responses");
    reveal_strlit("callbacks");
    reveal_strlit("security");
    reveal_strlit("servers");
    reveal_strlit("deprecated");
    reveal_strlit("externalDocs");
    assert("method"@.len() == 6 && "path"@.len() == 4 && "operationId"@.len() == 11 && "summary"@.len() == 7);
    assert("description"@.len() == 11 && "tags"@.len() == 4 && "parameters"@.len() == 10);
    assert("requestBody"@.len() == 11 && "responses"@.len() == 9 && "callbacks"@.len() == 9);
    assert("security"@.len() == 8 && "servers"@.len() == 7 && "deprecated"@.len() == 10);
    assert("externalDocs"@.len() == 12);
    assert("path"@[0] == 'p' && "tags"@[0] == 't');
    assert("operationId"@[0] == 'o' && "description"@[0] == 'd' && "requestBody"@[0] == 'r');
}

proof fn lemma_canon_entry_other(base: Seq<(Seq<char>, JsonV)>, f: Seq<(Seq<char>, JsonV)>, n: int, k: Seq<char>)
    requires
        n <= CANONICAL_COUNT,
        forall|i: int| 0 <= i < n ==> #[trigger] canonical_key(i) != k,
    ensures
        lookup(canon_entry(base, f, n), k) == lookup(base, k),
    decreases n,
{
    if n > 0 {
        lemma_canon_entry_other(base, f, n - 1, k);
        assert(canonical_key(n - 1) != k);
        match lookup(canon_rest(f, n - 1), canonical_key(n - 1)) {
            Some(v) => lemma_insert_other(canon_entry(base, f, n - 1), canonical_key(n - 1), v, k),
            None => {},
        }
    }
}

proof fn lemma_canon_entry_id(base: Seq<(Seq<char>, JsonV)>, f: Seq<(Seq<char>, JsonV)>, n: int, x: JsonV)
    requires
        1 <= n <= CANONICAL_COUNT,
        lookup(f, "operationId"@) == Some(x),
    ensures
        lookup(canon_entry(base, f, n), "operationId"@) == Some(x),
    decreases n,
{
    lemma_canonical_keys();
    if n == 1 {
        assert(canonical_key(0) == "operationId"@);
        assert(canon_rest(f, 0) == f);
        lemma_insert_same(canon_entry(base, f, 0), "operationId"@, x);
    } else {
        lemma_canon_entry_id(base, f, n - 1, x);
        match lookup(canon_rest(f, n - 1), canonical_key(n - 1)) {
            Some(v) => lemma_insert_other(canon_entry(base, f, n - 1), canonical_key(n - 1), v, "operationId"@),
            None => {},
        }
    }
}

proof fn lemma_remove_avoids(f: Seq<(Seq<char>, JsonV)>, k: Seq<char>, k2: Seq<char>)
    requires
        avoids_key(f, k2) || (unique_keys(f) && k == k2),
    ensures
        avoids_key(remove_field(f, k), k2),
{
    lemma_key_index(f, k);
    let i = key_index(f, k);
    if i >= 0 {
        let g = remove_field(f, k);
        assert forall|l: int| 0 <= l < g.len() implies g[l].0 != k2 by {
            if l < i {
                assert(g[l] == f[l]);
            } else {
                assert(g[l] == f[l + 1]);
                assert(f[l + 1].0 != f[i].0 || !unique_keys(f));
            }
        }
    }
}

proof fn lemma_canon_rest_avoids(f: Seq<(Seq<char>, JsonV)>, n: int, k: Seq<char>)
    requires
        avoids_key(f, k),
    ensures
        avoids_key(canon_rest(f, n), k),
    decreases n,
{
    if n > 0 {
        lemma_canon_rest_avoids(f, n - 1, k);
        lemma_remove_avoids(canon_rest(f, n - 1), canonical_key(n - 1), k);
    }
}

proof fn lemma_canon_rest_no_id(f: Seq<(Seq<char>, JsonV)>, n: int)
    requires
        unique_keys(f),
        1 <= n,
    ensures
        avoids_key(canon_rest(f, n), "operationId"@),
    decreases n,
{
    if n == 1 {
        assert(canonical_key(0) == "operationId"@);
        assert(canon_rest(f, 0) == f);
        assert(canon_rest(f, 1) == remove_field(f, "operationId"@));
        lemma_remove_avoids(f, "operationId"@, "operationId"@);
    } else {
        lemma_canon_rest_no_id(f, n - 1);
        lemma_remove_avoids(canon_rest(f, n - 1), canonical_key(n - 1), "operationId"@);
    }
}

/// The shown operation holds the upper-case method and the path, when the operation's
/// own members have neither key, and the operation's id, when its keys do not repeat.
pub proof fn lemma_operation_view_members(m: int, path: Seq<char>, g: Seq<(Seq<char>, JsonV)>)
    requires
        avoids_key(g, "method"@),
        avoids_key(g, "path"@),
    ensures
        crate::json::member(operation_view(m, path, JsonV::Object(g)), "method"@) == Some(
            JsonV::Str(upper(method_name(m))),
        ),
        crate::json::member(operation_view(m, path, JsonV::Object(g)), "path"@) == Some(JsonV::Str(path)),
        (unique_keys(g) && lookup(g, "operationId"@) is Some) ==> crate::json::member(
            operation_view(m, path, JsonV::Object(g)),
            "operationId"@,
        ) == lookup(g, "operationId"@),
{
    reveal_strlit("method");
    reveal_strlit("path");
    assert("method"@.len() == 6 && "path"@.len() == 4);
    lemma_canonical_keys();
    let base = seq![("method"@, JsonV::Str(upper(method_name(m)))), ("path"@, JsonV::Str(path))];
    let n = CANONICAL_COUNT as int;
    let rest = canon_rest(g, n);
    lemma_canon_rest_avoids(g, n, "method"@);
    lemma_canon_rest_avoids(g, n, "path"@);
    lemma_insert_all_other(canon_entry(base, g, n), rest, "method"@);
    lemma_insert_all_other(canon_entry(base, g, n), rest, "path"@);
    lemma_canon_entry_other(base, g, n, "method"@);
    lemma_canon_entry_other(base, g, n, "path"@);
    lemma_key_index_at(base, "method"@, 0);
    lemma_key_index_at(base, "path"@, 1);
    if unique_keys(g) && lookup(g, "operationId"@) is Some {
        lemma_canon_rest_no_id(g, n);
        lemma_insert_all_other(canon_entry(base, g, n), rest, "operationId"@);
        lemma_canon_entry_id(base, g, n, lookup(g, "operationId"@)->Some_0);
    }
}

} // verus!
