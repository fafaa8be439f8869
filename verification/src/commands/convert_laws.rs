//! What the conversions promise of every document: the version they set, that a 3.1
//! document keeps no `nullable: true`, and that no reference is left naming a Swagger 2.0
//! section.

use vstd::prelude::*;
use crate::commands::convert::{
    bound_step, child_key, lemma_child_decreases, nullable_step, nullable_type, openapi30_members, refs_children,
    refs_rewritten, rewritten_ref, schema_step, swagger2_converted, to31, to31_children, with_version, x_fold,
};
use crate::commands::search::{locally_well_formed, well_formed_children, well_formed_doc};
use crate::json::{
    bool_of, insert_field, key_index, lemma_key_index, lemma_key_index_at, lookup, member, swap_remove_field, unique_keys,
    JsonV,
};
use crate::resolver::{child, child_count};
use crate::text::is_prefix;

verus! {

// ---- member lists without repeated keys ----
/// In a member list without repeated keys, a key finds a value exactly when that member is there.
proof fn lemma_lookup_member(f: Seq<(Seq<char>, JsonV)>, k: Seq<char>, v: JsonV)
    requires
        unique_keys(f),
    ensures
        lookup(f, k) == Some(v) <==> f.contains((k, v)),
{
    lemma_key_index(f, k);
    let i = key_index(f, k);
    if i >= 0 && f[i].1 == v {
        assert(f[i] == (k, v));
    }
    if f.contains((k, v)) {
        let j = choose|j: int| 0 <= j < f.len() && f[j] == (k, v);
        assert forall|l: int| 0 <= l < j implies f[l].0 != k by {
            assert(f[l].0 != f[j].0);
        }
        lemma_key_index_at(f, k, j);
    }
}

/// `insert_field` keeps keys distinct, holds the new member, and keeps every member of
/// another key.
proof fn lemma_insert_members(f: Seq<(Seq<char>, JsonV)>, k: Seq<char>, v: JsonV)
    requires
        unique_keys(f),
    ensures
        unique_keys(insert_field(f, k, v)),
        insert_field(f, k, v).contains((k, v)),
        forall|x: (Seq<char>, JsonV)| #[trigger] insert_field(f, k, v).contains(x) ==> x == (k, v) || f.contains(x),
        forall|x: (Seq<char>, JsonV)| f.contains(x) && x.0 != k ==> #[trigger] insert_field(f, k, v).contains(x),
{
    lemma_key_index(f, k);
    let i = key_index(f, k);
    let r = insert_field(f, k, v);
    if i >= 0 {
        assert forall|a: int| 0 <= a < f.len() implies r[a].0 == f[a].0 by {}
        assert(r[i] == (k, v));
        assert forall|x: (Seq<char>, JsonV)| #[trigger] r.contains(x) implies x == (k, v) || f.contains(x) by {
            let j = choose|j: int| 0 <= j < r.len() && r[j] == x;
            if j != i {
                assert(f[j] == x);
            }
        }
        assert forall|x: (Seq<char>, JsonV)| f.contains(x) && x.0 != k implies #[trigger] r.contains(x) by {
            let j = choose|j: int| 0 <= j < f.len() && f[j] == x;
            assert(j != i);
            assert(r[j] == x);
        }
    } else {
        assert(r[f.len() as int] == (k, v));
        assert forall|x: (Seq<char>, JsonV)| #[trigger] r.contains(x) implies x == (k, v) || f.contains(x) by {
            let j = choose|j: int| 0 <= j < r.len() && r[j] == x;
            if j < f.len() {
                assert(f[j] == x);
            }
        }
        assert forall|x: (Seq<char>, JsonV)| f.contains(x) && x.0 != k implies #[trigger] r.contains(x) by {
            let j = choose|j: int| 0 <= j < f.len() && f[j] == x;
            assert(r[j] == x);
        }
    }
}

/// `swap_remove_field` keeps keys distinct, drops the member of its key, and keeps every
/// other member.
proof fn lemma_swap_remove_members(f: Seq<(Seq<char>, JsonV)>, k: Seq<char>)
    requires
        unique_keys(f),
    ensures
        unique_keys(swap_remove_field(f, k)),
        forall|x: (Seq<char>, JsonV)| #[trigger] swap_remove_field(f, k).contains(x) ==> f.contains(x) && x.0 != k,
        forall|x: (Seq<char>, JsonV)| f.contains(x) && x.0 != k ==> #[trigger] swap_remove_field(f, k).contains(x),
{
    lemma_key_index(f, k);
    let i = key_index(f, k);
    let r = swap_remove_field(f, k);
    if i >= 0 {
        let n = f.len() as int;
        assert(r.len() == n - 1);
        assert forall|a: int| 0 <= a < n - 1 implies #[trigger] r[a] == (if a == i { f[n - 1] } else { f[a] }) by {}
        assert forall|a: int, b: int| 0 <= a < b < r.len() implies r[a].0 != r[b].0 by {
            let pa = if a == i { n - 1 } else { a };
            let pb = if b == i { n - 1 } else { b };
            assert(r[a] == f[pa] && r[b] == f[pb]);
            assert(pa != pb);
        }
        assert forall|x: (Seq<char>, JsonV)| #[trigger] r.contains(x) implies f.contains(x) && x.0 != k by {
            let j = choose|j: int| 0 <= j < r.len() && r[j] == x;
            let p = if j == i { n - 1 } else { j };
            assert(r[j] == f[p]);
            assert(p != i);
            assert(f[p].0 != f[i].0);
        }
        assert forall|x: (Seq<char>, JsonV)| f.contains(x) && x.0 != k implies #[trigger] r.contains(x) by {
            let j = choose|j: int| 0 <= j < f.len() && f[j] == x;
            assert(j != i);
            if j < n - 1 {
                assert(r[j] == x);
            } else {
                assert(r[i] == x);
            }
        }
    } else {
        assert forall|x: (Seq<char>, JsonV)| #[trigger] r.contains(x) implies f.contains(x) && x.0 != k by {
            let j = choose|j: int| 0 <= j < f.len() && f[j] == x;
        }
    }
}

// ---- Swagger 2.0 → OpenAPI 3.0 ----
proof fn lemma_x_fold_first(acc: Seq<(Seq<char>, JsonV)>, f: Seq<(Seq<char>, JsonV)>, n: int)
    requires
        acc.len() > 0,
        acc[0].0 == "openapi"@,
        n <= f.len(),
    ensures
        x_fold(acc, f, n).len() > 0,
        x_fold(acc, f, n)[0] == acc[0],
    decreases n,
{
    if n > 0 {
        lemma_x_fold_first(acc, f, n - 1);
        let a = x_fold(acc, f, n - 1);
        let k = f[n - 1].0;
        if is_prefix("x-"@, k) {
            reveal_strlit("x-");
            reveal_strlit("openapi");
            assert(k.take(2)[0] == k[0]);
            assert("x-"@[0] == 'x' && "openapi"@[0] == 'o');
            assert(k[0] == 'x');
            assert(k != a[0].0);
            lemma_key_index(a, k);
        }
    }
}

proof fn lemma_insert_keeps_first(f: Seq<(Seq<char>, JsonV)>, k: Seq<char>, v: JsonV)
    requires
        f.len() > 0,
        f[0].0 != k,
    ensures
        insert_field(f, k, v).len() > 0,
        insert_field(f, k, v)[0] == f[0],
{
    lemma_key_index(f, k);
}

proof fn lemma_refs_children_index(v: JsonV, n: int, j: int)
    requires
        0 <= j < n <= child_count(v),
    ensures
        refs_children(v, n).len() == n,
        refs_children(v, n)[j] == (child_key(v, j), refs_rewritten(child(v, j))),
    decreases n,
{
    lemma_refs_children_len(v, n - 1);
    if j < n - 1 {
        lemma_refs_children_index(v, n - 1, j);
    }
}

proof fn lemma_refs_children_len(v: JsonV, n: int)
    requires
        0 <= n <= child_count(v),
    ensures
        refs_children(v, n).len() == n,
    decreases n,
{
    if n > 0 {
        lemma_refs_children_len(v, n - 1);
    }
}

/// A Swagger 2.0 document converts to one whose `openapi` is `3.0.3`.
pub proof fn law_swagger2_converts_to_openapi303(spec: JsonV)
    ensures
        member(swagger2_converted(spec), "openapi"@) == Some(JsonV::Str("3.0.3"@)),
{
    reveal_strlit("openapi");
    reveal_strlit("paths");
    reveal_strlit("components");
    reveal_strlit("$ref");
    let m = openapi30_members(spec);
    let head = seq![("openapi"@, JsonV::Str("3.0.3"@))];
    let t = head + (match member(spec, "info"@) {
        Some(i) => seq![("info"@, i)],
        None => Seq::empty(),
    }) + (match crate::commands::convert::servers_of(spec) {
        Some(sv) => seq![("servers"@, sv)],
        None => Seq::empty(),
    }) + crate::commands::convert::kept_member(spec, "tags"@) + crate::commands::convert::kept_member(spec, "security"@)
        + crate::commands::convert::kept_member(spec, "externalDocs"@);
    assert(t[0] == head[0]);
    let t4 = match spec {
        JsonV::Object(f) => x_fold(t, f, f.len() as int),
        _ => t,
    };
    match spec {
        JsonV::Object(f) => lemma_x_fold_first(t, f, f.len() as int),
        _ => {},
    }
    assert(t4.len() > 0 && t4[0] == head[0]);
    assert("paths"@.len() == 5 && "components"@.len() == 10 && "openapi"@.len() == 7 && "$ref"@.len() == 4);
    assert("paths"@ != "openapi"@);
    assert("components"@ != "openapi"@);
    lemma_insert_keeps_first(t4, "paths"@, JsonV::Object(Seq::empty()));
    assert(m.len() > 0 && m[0] == head[0]) by {
        let gc = crate::commands::convert::strings_of_member(member(spec, "consumes"@));
        let gp = crate::commands::convert::strings_of_member(member(spec, "produces"@));
        let t5 = match crate::json::object_of(member(spec, "paths"@)) {
            Some(ps) => insert_field(t4, "paths"@, JsonV::Object(crate::commands::convert::paths_fold(ps, ps.len() as int, gc, gp))),
            None => t4,
        };
        match crate::json::object_of(member(spec, "paths"@)) {
            Some(ps) => lemma_insert_keeps_first(t4, "paths"@, JsonV::Object(crate::commands::convert::paths_fold(ps, ps.len() as int, gc, gp))),
            None => {},
        }
        let comps = crate::commands::convert::components_of(spec);
        lemma_insert_keeps_first(t5, "components"@, JsonV::Object(comps));
    }
    let v = JsonV::Object(m);
    lemma_refs_children_index(v, m.len() as int, 0);
    let g = refs_children(v, m.len() as int);
    assert(g[0] == ("openapi"@, JsonV::Str("3.0.3"@)));
    assert("$ref"@ != "openapi"@);
    match lookup(g, "$ref"@) {
        Some(JsonV::Str(s)) => match crate::commands::convert::rewritten_ref(s) {
            Some(n) => lemma_insert_keeps_first(g, "$ref"@, JsonV::Str(n)),
            None => {},
        },
        _ => {},
    }
    let r = refs_rewritten(v);
    assert(r->Object_0[0] == g[0]);
    lemma_key_index_at(r->Object_0, "openapi"@, 0);
}

// ---- OpenAPI 3.0 → 3.1 ----
/// A member `nullable: true`.
pub open spec fn nullable_member(m: (Seq<char>, JsonV)) -> bool {
    m.0 == "nullable"@ && m.1 == JsonV::Bool(true)
}

/// No object anywhere in `v` has the member `nullable: true`.
pub open spec fn nullable_free(v: JsonV) -> bool
    decreases v, child_count(v) + 1,
{
    (match v {
        JsonV::Object(f) => forall|i: int| 0 <= i < f.len() ==> !nullable_member(#[trigger] f[i]),
        _ => true,
    }) && nullable_free_children(v, child_count(v) as int)
}

pub open spec fn nullable_free_children(v: JsonV, n: int) -> bool
    decreases v, n,
{
    if n <= 0 || n > child_count(v) {
        true
    } else {
        proof {
            lemma_child_decreases(v, n - 1);
        }
        nullable_free_children(v, n - 1) && nullable_free(child(v, n - 1))
    }
}

/// A member whose value is `nullable`-free and which is not `nullable: true` itself.
pub open spec fn member_free(m: (Seq<char>, JsonV)) -> bool {
    nullable_free(m.1) && !nullable_member(m)
}

proof fn lemma_free_children(v: JsonV, n: int)
    requires
        0 <= n <= child_count(v),
    ensures
        nullable_free_children(v, n) <==> forall|i: int| 0 <= i < n ==> nullable_free(#[trigger] child(v, i)),
    decreases n,
{
    if n > 0 {
        lemma_free_children(v, n - 1);
    }
}

proof fn lemma_well_formed_children(v: JsonV, n: int)
    requires
        0 <= n <= child_count(v),
    ensures
        well_formed_children(v, n) <==> forall|i: int| 0 <= i < n ==> well_formed_doc(#[trigger] child(v, i)),
    decreases n,
{
    if n > 0 {
        lemma_well_formed_children(v, n - 1);
    }
}

proof fn lemma_nullable_type_free(t: Option<JsonV>)
    requires
        t matches Some(tv) ==> nullable_free(tv),
    ensures
        nullable_free(JsonV::Array(nullable_type(t))),
{
    let a = nullable_type(t);
    let v = JsonV::Array(a);
    assert(nullable_free(JsonV::Str("null"@)));
    assert forall|i: int| 0 <= i < a.len() implies nullable_free(#[trigger] child(v, i)) by {
        match t {
            Some(JsonV::Str(s)) => {
                assert(nullable_free(JsonV::Str(s)));
            },
            Some(JsonV::Array(b)) => {
                lemma_free_children(JsonV::Array(b), b.len() as int);
                if i < b.len() {
                    assert(child(JsonV::Array(b), i) == b[i]);
                }
            },
            _ => {},
        }
    }
    lemma_free_children(v, a.len() as int);
}

proof fn lemma_nullable_step_keeps(g: Seq<(Seq<char>, JsonV)>)
    requires
        unique_keys(g),
    ensures
        unique_keys(nullable_step(g)),
        forall|x: (Seq<char>, JsonV)| g.contains(x) && x.0 != "nullable"@ && x.0 != "type"@
            ==> #[trigger] nullable_step(g).contains(x),
{
    if bool_of(lookup(g, "nullable"@)) == Some(true) {
        let g1 = swap_remove_field(g, "nullable"@);
        lemma_swap_remove_members(g, "nullable"@);
        let t = lookup(g1, "type"@);
        lemma_swap_remove_members(g1, "type"@);
        lemma_insert_members(swap_remove_field(g1, "type"@), "type"@, JsonV::Array(nullable_type(t)));
    }
}

proof fn lemma_nullable_step_free(g: Seq<(Seq<char>, JsonV)>)
    requires
        unique_keys(g),
        forall|x: (Seq<char>, JsonV)| #[trigger] g.contains(x) ==> nullable_free(x.1),
    ensures
        forall|x: (Seq<char>, JsonV)| #[trigger] nullable_step(g).contains(x) ==> member_free(x),
{
    reveal_strlit("nullable");
    reveal_strlit("type");
    assert("nullable"@.len() == 8 && "type"@.len() == 4);
    if bool_of(lookup(g, "nullable"@)) == Some(true) {
        let g1 = swap_remove_field(g, "nullable"@);
        lemma_swap_remove_members(g, "nullable"@);
        let t = lookup(g1, "type"@);
        let g2 = swap_remove_field(g1, "type"@);
        lemma_swap_remove_members(g1, "type"@);
        let nv = JsonV::Array(nullable_type(t));
        lemma_insert_members(g2, "type"@, nv);
        match t {
            Some(tv) => {
                lemma_lookup_member(g1, "type"@, tv);
            },
            None => {},
        }
        lemma_nullable_type_free(t);
        assert forall|x: (Seq<char>, JsonV)| #[trigger] nullable_step(g).contains(x) implies member_free(x) by {
            if x != ("type"@, nv) {
                assert(g2.contains(x));
                assert(g1.contains(x));
                assert(g.contains(x));
            }
        }
    } else {
        assert forall|x: (Seq<char>, JsonV)| #[trigger] nullable_step(g).contains(x) implies member_free(x) by {
            if nullable_member(x) {
                lemma_lookup_member(g, "nullable"@, JsonV::Bool(true));
            }
        }
    }
}

proof fn lemma_bound_step_keeps(g: Seq<(Seq<char>, JsonV)>, bound: Seq<char>, exclusive: Seq<char>)
    requires
        unique_keys(g),
    ensures
        unique_keys(bound_step(g, bound, exclusive)),
        forall|x: (Seq<char>, JsonV)| g.contains(x) && x.0 != bound && x.0 != exclusive
            ==> #[trigger] bound_step(g, bound, exclusive).contains(x),
{
    match lookup(g, exclusive) {
        Some(JsonV::Bool(true)) => match lookup(g, bound) {
            Some(b) => {
                lemma_insert_members(g, exclusive, b);
                lemma_swap_remove_members(insert_field(g, exclusive, b), bound);
            },
            None => {
                lemma_swap_remove_members(g, exclusive);
            },
        },
        Some(JsonV::Bool(false)) => {
            lemma_swap_remove_members(g, exclusive);
        },
        _ => {},
    }
}

proof fn lemma_bound_step_free(g: Seq<(Seq<char>, JsonV)>, bound: Seq<char>, exclusive: Seq<char>)
    requires
        unique_keys(g),
        exclusive != "nullable"@,
        forall|x: (Seq<char>, JsonV)| #[trigger] g.contains(x) ==> member_free(x),
    ensures
        forall|x: (Seq<char>, JsonV)| #[trigger] bound_step(g, bound, exclusive).contains(x) ==> member_free(x),
{
    match lookup(g, exclusive) {
        Some(JsonV::Bool(true)) => match lookup(g, bound) {
            Some(b) => {
                lemma_lookup_member(g, bound, b);
                lemma_insert_members(g, exclusive, b);
                let g1 = insert_field(g, exclusive, b);
                lemma_swap_remove_members(g1, bound);
                assert forall|x: (Seq<char>, JsonV)| #[trigger] bound_step(g, bound, exclusive).contains(x) implies member_free(x) by {
                    assert(g1.contains(x));
                    if x != (exclusive, b) {
                        assert(g.contains(x));
                    } else {
                        assert(g.contains((bound, b)));
                    }
                }
            },
            None => {
                lemma_swap_remove_members(g, exclusive);
            },
        },
        Some(JsonV::Bool(false)) => {
            lemma_swap_remove_members(g, exclusive);
        },
        _ => {},
    }
}

proof fn lemma_schema_step_keeps(g: Seq<(Seq<char>, JsonV)>)
    requires
        unique_keys(g),
    ensures
        unique_keys(schema_step(g)),
        forall|x: (Seq<char>, JsonV)| g.contains(x) && x.0 != "nullable"@ && x.0 != "type"@ && x.0 != "minimum"@
            && x.0 != "exclusiveMinimum"@ && x.0 != "maximum"@ && x.0 != "exclusiveMaximum"@
            ==> #[trigger] schema_step(g).contains(x),
{
    let g1 = nullable_step(g);
    lemma_nullable_step_keeps(g);
    let g2 = bound_step(g1, "minimum"@, "exclusiveMinimum"@);
    lemma_bound_step_keeps(g1, "minimum"@, "exclusiveMinimum"@);
    lemma_bound_step_keeps(g2, "maximum"@, "exclusiveMaximum"@);
}

proof fn lemma_schema_step_free(g: Seq<(Seq<char>, JsonV)>)
    requires
        unique_keys(g),
        forall|x: (Seq<char>, JsonV)| #[trigger] g.contains(x) ==> nullable_free(x.1),
    ensures
        unique_keys(schema_step(g)),
        forall|x: (Seq<char>, JsonV)| #[trigger] schema_step(g).contains(x) ==> member_free(x),
{
    reveal_strlit("nullable");
    reveal_strlit("exclusiveMinimum");
    reveal_strlit("exclusiveMaximum");
    assert("nullable"@.len() == 8 && "exclusiveMinimum"@.len() == 16 && "exclusiveMaximum"@.len() == 16);
    let g1 = nullable_step(g);
    lemma_nullable_step_keeps(g);
    lemma_nullable_step_free(g);
    let g2 = bound_step(g1, "minimum"@, "exclusiveMinimum"@);
    lemma_bound_step_keeps(g1, "minimum"@, "exclusiveMinimum"@);
    lemma_bound_step_free(g1, "minimum"@, "exclusiveMinimum"@);
    lemma_bound_step_keeps(g2, "maximum"@, "exclusiveMaximum"@);
    lemma_bound_step_free(g2, "maximum"@, "exclusiveMaximum"@);
}

proof fn lemma_to31_children_len(v: JsonV, n: int)
    requires
        0 <= n <= child_count(v),
    ensures
        to31_children(v, n).len() == n,
    decreases n,
{
    if n > 0 {
        lemma_to31_children_len(v, n - 1);
    }
}

proof fn lemma_to31_children_index(v: JsonV, n: int, j: int)
    requires
        0 <= j < n <= child_count(v),
    ensures
        to31_children(v, n)[j] == (child_key(v, j), to31(child(v, j))),
    decreases n,
{
    lemma_to31_children_len(v, n - 1);
    if j < n - 1 {
        lemma_to31_children_index(v, n - 1, j);
    }
}

proof fn lemma_to31_free(v: JsonV)
    requires
        well_formed_doc(v),
    ensures
        nullable_free(to31(v)),
    decreases v, child_count(v) + 1,
{
    lemma_to31_children_free(v, child_count(v) as int);
    match v {
        JsonV::Object(f) => {
            let n = f.len() as int;
            let g = to31_children(v, n);
            lemma_to31_children_len(v, n);
            assert forall|j: int| 0 <= j < n implies #[trigger] g[j] == (f[j].0, to31(f[j].1)) by {
                lemma_to31_children_index(v, n, j);
            }
            assert(unique_keys(g)) by {
                assert(locally_well_formed(v));
                assert forall|a: int, b: int| 0 <= a < b < g.len() implies g[a].0 != g[b].0 by {
                    assert(g[a].0 == f[a].0 && g[b].0 == f[b].0);
                }
            }
            assert forall|x: (Seq<char>, JsonV)| #[trigger] g.contains(x) implies nullable_free(x.1) by {
                let j = choose|j: int| 0 <= j < g.len() && g[j] == x;
                assert(child(v, j) == f[j].1);
            }
            lemma_schema_step_free(g);
            let h = schema_step(g);
            let r = to31(v);
            assert(r == JsonV::Object(h));
            assert forall|i: int| 0 <= i < h.len() implies nullable_free(#[trigger] child(r, i)) by {
                assert(h.contains(h[i]));
            }
            lemma_free_children(r, h.len() as int);
            assert forall|i: int| 0 <= i < h.len() implies !nullable_member(#[trigger] h[i]) by {
                assert(h.contains(h[i]));
            }
        },
        JsonV::Array(a) => {
            let n = a.len() as int;
            let g = to31_children(v, n);
            lemma_to31_children_len(v, n);
            let r = to31(v);
            let e = crate::commands::convert::values_of(g);
            assert(r == JsonV::Array(e));
            assert forall|i: int| 0 <= i < e.len() implies nullable_free(#[trigger] child(r, i)) by {
                lemma_to31_children_index(v, n, i);
                assert(child(v, i) == a[i]);
            }
            lemma_free_children(r, e.len() as int);
        },
        _ => {},
    }
}

proof fn lemma_to31_children_free(v: JsonV, n: int)
    requires
        0 <= n <= child_count(v),
        well_formed_children(v, n),
    ensures
        forall|j: int| 0 <= j < n ==> nullable_free(#[trigger] to31(child(v, j))),
    decreases v, n,
{
    if n > 0 {
        lemma_to31_children_free(v, n - 1);
        lemma_child_decreases(v, n - 1);
        lemma_to31_free(child(v, n - 1));
    }
}

proof fn lemma_with_version_well_formed(spec: JsonV, version: Seq<char>)
    requires
        well_formed_doc(spec),
    ensures
        well_formed_doc(with_version(spec, version)),
{
    match spec {
        JsonV::Object(f) => {
            let s = JsonV::Str(version);
            lemma_insert_members(f, "openapi"@, s);
            let f1 = insert_field(f, "openapi"@, s);
            let v = JsonV::Object(f1);
            lemma_well_formed_children(spec, f.len() as int);
            assert(well_formed_doc(s));
            assert forall|i: int| 0 <= i < f1.len() implies well_formed_doc(#[trigger] child(v, i)) by {
                assert(f1.contains(f1[i]));
                if f1[i] != ("openapi"@, s) {
                    let j = choose|j: int| 0 <= j < f.len() && f[j] == f1[i];
                    assert(child(spec, j) == f[j].1);
                }
            }
            lemma_well_formed_children(v, f1.len() as int);
        },
        _ => {},
    }
}

/// Converting 3.0 to 3.1 leaves no `nullable: true` anywhere: each is folded into `type`
/// (for a document whose objects repeat no key).
pub proof fn law_openapi31_has_no_nullable(spec: JsonV)
    requires
        well_formed_doc(spec),
    ensures
        nullable_free(to31(with_version(spec, "3.1.0"@))),
{
    lemma_with_version_well_formed(spec, "3.1.0"@);
    lemma_to31_free(with_version(spec, "3.1.0"@));
}

/// Converting 3.0 to 3.1 sets `openapi` to `3.1.0` (for an object whose keys do not repeat).
pub proof fn law_openapi31_sets_version(spec: JsonV)
    requires
        spec is Object,
        unique_keys(spec->Object_0),
    ensures
        member(to31(with_version(spec, "3.1.0"@)), "openapi"@) == Some(JsonV::Str("3.1.0"@)),
{
    reveal_strlit("openapi");
    reveal_strlit("nullable");
    reveal_strlit("type");
    reveal_strlit("minimum");
    reveal_strlit("maximum");
    reveal_strlit("exclusiveMinimum");
    reveal_strlit("exclusiveMaximum");
    let o = "openapi"@;
    assert(o.len() == 7 && "nullable"@.len() == 8 && "type"@.len() == 4 && "exclusiveMinimum"@.len() == 16
        && "exclusiveMaximum"@.len() == 16);
    assert(o[0] == 'o' && "minimum"@[0] == 'm' && "maximum"@[0] == 'm');
    assert(o != "minimum"@ && o != "maximum"@);
    let f = spec->Object_0;
    let s = JsonV::Str("3.1.0"@);
    lemma_insert_members(f, o, s);
    let f1 = insert_field(f, o, s);
    let v = JsonV::Object(f1);
    let n = f1.len() as int;
    lemma_to31_children_len(v, n);
    let g = to31_children(v, n);
    assert forall|j: int| 0 <= j < n implies #[trigger] g[j] == (f1[j].0, to31(f1[j].1)) by {
        lemma_to31_children_index(v, n, j);
    }
    assert forall|a: int, b: int| 0 <= a < b < g.len() implies g[a].0 != g[b].0 by {
        assert(g[a].0 == f1[a].0 && g[b].0 == f1[b].0);
    }
    let j = choose|j: int| 0 <= j < f1.len() && f1[j] == (o, s);
    assert(g[j] == (o, s));
    assert(g.contains((o, s)));
    lemma_schema_step_keeps(g);
    lemma_lookup_member(schema_step(g), o, s);
}

// ---- references after Swagger 2.0 → OpenAPI 3.0 ----
/// A `$ref` member that still names a Swagger 2.0 section.
pub open spec fn stale_ref_member(m: (Seq<char>, JsonV)) -> bool {
    m.0 == "$ref"@ && (m.1 matches JsonV::Str(s) && rewritten_ref(s) is Some)
}

/// No object anywhere in `v` has a `$ref` that names a Swagger 2.0 section.
pub open spec fn refs_current(v: JsonV) -> bool
    decreases v, child_count(v) + 1,
{
    (match v {
        JsonV::Object(f) => forall|i: int| 0 <= i < f.len() ==> !stale_ref_member(#[trigger] f[i]),
        _ => true,
    }) && refs_current_children(v, child_count(v) as int)
}

pub open spec fn refs_current_children(v: JsonV, n: int) -> bool
    decreases v, n,
{
    if n <= 0 || n > child_count(v) {
        true
    } else {
        proof {
            lemma_child_decreases(v, n - 1);
        }
        refs_current_children(v, n - 1) && refs_current(child(v, n - 1))
    }
}

proof fn lemma_current_children(v: JsonV, n: int)
    requires
        0 <= n <= child_count(v),
    ensures
        refs_current_children(v, n) <==> forall|i: int| 0 <= i < n ==> refs_current(#[trigger] child(v, i)),
    decreases n,
{
    if n > 0 {
        lemma_current_children(v, n - 1);
    }
}

/// A rewritten reference names a section under `components`, which is not rewritten again.
proof fn lemma_rewritten_is_current(s: Seq<char>)
    requires
        rewritten_ref(s) is Some,
    ensures
        rewritten_ref(rewritten_ref(s)->Some_0) is None,
{
    reveal_strlit("#/definitions/");
    reveal_strlit("#/parameters/");
    reveal_strlit("#/responses/");
    reveal_strlit("#/securityDefinitions/");
    reveal_strlit("#/components/schemas/");
    reveal_strlit("#/components/parameters/");
    reveal_strlit("#/components/responses/");
    reveal_strlit("#/components/securitySchemes/");
    let n = rewritten_ref(s)->Some_0;
    assert(n[2] == 'c');
    assert(is_prefix("#/definitions/"@, n) ==> n.take(14)[2] == 'd');
    assert(is_prefix("#/parameters/"@, n) ==> n.take(13)[2] == 'p');
    assert(is_prefix("#/responses/"@, n) ==> n.take(12)[2] == 'r');
    assert(is_prefix("#/securityDefinitions/"@, n) ==> n.take(22)[2] == 's');
}

proof fn lemma_refs_children_values(v: JsonV, n: int)
    requires
        0 <= n <= child_count(v),
        well_formed_children(v, n),
    ensures
        forall|j: int| 0 <= j < n ==> refs_current(#[trigger] refs_rewritten(child(v, j))),
    decreases v, n,
{
    if n > 0 {
        lemma_refs_children_values(v, n - 1);
        lemma_child_decreases(v, n - 1);
        lemma_refs_rewritten_current(child(v, n - 1));
    }
}

proof fn lemma_refs_rewritten_current(v: JsonV)
    requires
        well_formed_doc(v),
    ensures
        refs_current(refs_rewritten(v)),
    decreases v, child_count(v) + 1,
{
    lemma_refs_children_values(v, child_count(v) as int);
    match v {
        JsonV::Object(f) => {
            let n = f.len() as int;
            let g = refs_children(v, n);
            lemma_refs_children_len(v, n);
            assert forall|j: int| 0 <= j < n implies #[trigger] g[j] == (f[j].0, refs_rewritten(f[j].1)) by {
                lemma_refs_children_index(v, n, j);
            }
            assert(unique_keys(g)) by {
                assert(locally_well_formed(v));
                assert forall|a: int, b: int| 0 <= a < b < g.len() implies g[a].0 != g[b].0 by {
                    assert(g[a].0 == f[a].0 && g[b].0 == f[b].0);
                }
            }
            assert forall|x: (Seq<char>, JsonV)| #[trigger] g.contains(x) implies refs_current(x.1) by {
                let j = choose|j: int| 0 <= j < g.len() && g[j] == x;
                assert(child(v, j) == f[j].1);
            }
            let r = refs_rewritten(v);
            let h = r->Object_0;
            match lookup(g, "$ref"@) {
                Some(JsonV::Str(s)) => {
                    lemma_lookup_member(g, "$ref"@, JsonV::Str(s));
                    match rewritten_ref(s) {
                        Some(nr) => {
                            let nv = JsonV::Str(nr);
                            lemma_insert_members(g, "$ref"@, nv);
                            lemma_rewritten_is_current(s);
                            assert(refs_current(nv));
                            assert forall|i: int| 0 <= i < h.len() implies refs_current(#[trigger] child(r, i))
                                && !stale_ref_member(h[i]) by {
                                assert(h.contains(h[i]));
                                assert(h.contains(("$ref"@, nv)));
                                if h[i].0 == "$ref"@ {
                                    let j = choose|j: int| 0 <= j < h.len() && h[j] == ("$ref"@, nv);
                                    if j != i {
                                        assert(h[i].0 != h[j].0);
                                    }
                                }
                            }
                        },
                        None => {
                            assert forall|i: int| 0 <= i < h.len() implies refs_current(#[trigger] child(r, i))
                                && !stale_ref_member(h[i]) by {
                                assert(h.contains(h[i]));
                                if h[i].0 == "$ref"@ {
                                    lemma_lookup_member(g, "$ref"@, h[i].1);
                                }
                            }
                        },
                    }
                },
                _ => {
                    assert forall|i: int| 0 <= i < h.len() implies refs_current(#[trigger] child(r, i))
                        && !stale_ref_member(h[i]) by {
                        assert(h.contains(h[i]));
                        if h[i].0 == "$ref"@ {
                            lemma_lookup_member(g, "$ref"@, h[i].1);
                        }
                    }
                },
            }
            assert forall|i: int| 0 <= i < h.len() implies !stale_ref_member(#[trigger] h[i]) by {
                assert(refs_current(child(r, i)));
            }
            assert(r == JsonV::Object(h));
            lemma_current_children(r, h.len() as int);
        },
        JsonV::Array(a) => {
            let n = a.len() as int;
            let g = refs_children(v, n);
            lemma_refs_children_len(v, n);
            let r = refs_rewritten(v);
            let e = crate::commands::convert::values_of(g);
            assert forall|i: int| 0 <= i < e.len() implies refs_current(#[trigger] child(r, i)) by {
                lemma_refs_children_index(v, n, i);
                assert(child(v, i) == a[i]);
            }
            lemma_current_children(r, e.len() as int);
        },
        _ => {},
    }
}

/// After rewriting, no `$ref` anywhere names a Swagger 2.0 section (`#/definitions/`,
/// `#/parameters/`, `#/responses/`, `#/securityDefinitions/`): each was moved under
/// `components` (for a document whose objects repeat no key).
pub proof fn law_rewritten_refs_point_into_components(v: JsonV)
    requires
        well_formed_doc(v),
    ensures
        refs_current(refs_rewritten(v)),
{
    lemma_refs_rewritten_current(v);
}

/// A value without stale references is left as it is by the rewriting.
proof fn lemma_current_fixed(w: JsonV)
    requires
        refs_current(w),
    ensures
        refs_rewritten(w) == w,
    decreases w,
{
    lemma_current_children(w, child_count(w) as int);
    match w {
        JsonV::Object(f) => {
            let n = f.len() as int;
            let g = refs_children(w, n);
            lemma_refs_children_len(w, n);
            assert forall|j: int| 0 <= j < n implies #[trigger] g[j] == f[j] by {
                lemma_refs_children_index(w, n, j);
                assert(child(w, j) == f[j].1);
                assert(decreases_to!(w => f[j].1));
                lemma_current_fixed(f[j].1);
            }
            assert(g =~= f);
            lemma_key_index(f, "$ref"@);
            let i = key_index(f, "$ref"@);
            if i >= 0 {
                assert(!stale_ref_member(f[i]));
            }
        },
        JsonV::Array(a) => {
            let n = a.len() as int;
            let g = refs_children(w, n);
            lemma_refs_children_len(w, n);
            let e = crate::commands::convert::values_of(g);
            assert forall|j: int| 0 <= j < n implies #[trigger] e[j] == a[j] by {
                lemma_refs_children_index(w, n, j);
                assert(child(w, j) == a[j]);
                assert(decreases_to!(w => a[j]));
                lemma_current_fixed(a[j]);
            }
            assert(e =~= a);
        },
        _ => {},
    }
}

/// Rewriting the references of a rewritten document changes nothing (for a document
/// whose objects repeat no key).
pub proof fn law_rewriting_refs_is_idempotent(v: JsonV)
    requires
        well_formed_doc(v),
    ensures
        refs_rewritten(refs_rewritten(v)) == refs_rewritten(v),
{
    lemma_refs_rewritten_current(v);
    lemma_current_fixed(refs_rewritten(v));
}

// ---- the converted document is no Swagger 2.0 document ----
/// No member of `f` has the key `k`.
pub open spec fn avoids_key(f: Seq<(Seq<char>, JsonV)>, k: Seq<char>) -> bool {
    forall|i: int| 0 <= i < f.len() ==> f[i].0 != k
}

proof fn lemma_insert_avoids(f: Seq<(Seq<char>, JsonV)>, k2: Seq<char>, v: JsonV, k: Seq<char>)
    requires
        avoids_key(f, k),
        k2 != k,
    ensures
        avoids_key(insert_field(f, k2, v), k),
{
    lemma_key_index(f, k2);
}

proof fn lemma_x_fold_avoids(acc: Seq<(Seq<char>, JsonV)>, f: Seq<(Seq<char>, JsonV)>, n: int)
    requires
        avoids_key(acc, "swagger"@),
        n <= f.len(),
    ensures
        avoids_key(x_fold(acc, f, n), "swagger"@),
    decreases n,
{
    if n > 0 {
        lemma_x_fold_avoids(acc, f, n - 1);
        let k = f[n - 1].0;
        if is_prefix("x-"@, k) {
            reveal_strlit("x-");
            reveal_strlit("swagger");
            assert(k.take(2)[0] == k[0]);
            assert("x-"@[0] == 'x' && "swagger"@[0] == 's');
            lemma_insert_avoids(x_fold(acc, f, n - 1), k, f[n - 1].1, "swagger"@);
        }
    }
}

/// The OpenAPI 3.0 form of a Swagger 2.0 document has no `swagger` member.
pub proof fn lemma_converted_has_no_swagger(spec: JsonV)
    ensures
        member(swagger2_converted(spec), "swagger"@) is None,
{
    reveal_strlit("swagger");
    reveal_strlit("openapi");
    reveal_strlit("info");
    reveal_strlit("servers");
    reveal_strlit("tags");
    reveal_strlit("security");
    reveal_strlit("externalDocs");
    reveal_strlit("paths");
    reveal_strlit("components");
    reveal_strlit("$ref");
    let sw = "swagger"@;
    assert(sw.len() == 7 && sw[0] == 's' && sw[1] == 'w');
    assert("openapi"@.len() == 7 && "openapi"@[0] == 'o');
    assert("servers"@.len() == 7 && "servers"@[1] == 'e');
    assert("info"@.len() == 4 && "tags"@.len() == 4 && "security"@.len() == 8 && "externalDocs"@.len() == 12);
    assert("paths"@.len() == 5 && "components"@.len() == 10 && "$ref"@.len() == 4);
    let head = seq![("openapi"@, JsonV::Str("3.0.3"@))];
    let a = match member(spec, "info"@) {
        Some(i) => seq![("info"@, i)],
        None => Seq::empty(),
    };
    let b = match crate::commands::convert::servers_of(spec) {
        Some(sv) => seq![("servers"@, sv)],
        None => Seq::empty(),
    };
    let c = crate::commands::convert::kept_member(spec, "tags"@);
    let d = crate::commands::convert::kept_member(spec, "security"@);
    let e = crate::commands::convert::kept_member(spec, "externalDocs"@);
    let t = head + a + b + c + d + e;
    assert(avoids_key(t, sw)) by {
        assert forall|i: int| 0 <= i < t.len() implies t[i].0 != sw by {
            let k = t[i].0;
            assert(k == "openapi"@ || k == "info"@ || k == "servers"@ || k == "tags"@ || k == "security"@
                || k == "externalDocs"@);
        }
    }
    let t4 = match spec {
        JsonV::Object(f) => x_fold(t, f, f.len() as int),
        _ => t,
    };
    match spec {
        JsonV::Object(f) => lemma_x_fold_avoids(t, f, f.len() as int),
        _ => {},
    }
    let gc = crate::commands::convert::strings_of_member(member(spec, "consumes"@));
    let gp = crate::commands::convert::strings_of_member(member(spec, "produces"@));
    let t5 = match crate::json::object_of(member(spec, "paths"@)) {
        Some(ps) => insert_field(t4, "paths"@, JsonV::Object(crate::commands::convert::paths_fold(ps, ps.len() as int, gc, gp))),
        None => t4,
    };
    match crate::json::object_of(member(spec, "paths"@)) {
        Some(ps) => lemma_insert_avoids(
            t4,
            "paths"@,
            JsonV::Object(crate::commands::convert::paths_fold(ps, ps.len() as int, gc, gp)),
            sw,
        ),
        None => {},
    }
    let comps = crate::commands::convert::components_of(spec);
    lemma_insert_avoids(t5, "components"@, JsonV::Object(comps), sw);
    let m = openapi30_members(spec);
    assert(avoids_key(m, sw));
    let v = JsonV::Object(m);
    lemma_refs_children_len(v, m.len() as int);
    let g = refs_children(v, m.len() as int);
    assert forall|j: int| 0 <= j < g.len() implies g[j].0 != sw by {
        lemma_refs_children_index(v, m.len() as int, j);
    }
    match lookup(g, "$ref"@) {
        Some(JsonV::Str(r)) => match rewritten_ref(r) {
            Some(n) => lemma_insert_avoids(g, "$ref"@, JsonV::Str(n), sw),
            None => {},
        },
        _ => {},
    }
    let out = swagger2_converted(spec)->Object_0;
    assert(avoids_key(out, sw));
    crate::json::lemma_key_index_absent(out, sw);
}


// ---- security schemes ----
/// A Swagger 2.0 `oauth2` scheme becomes an OpenAPI 3.0 `oauth2` scheme whose `flows`
/// has exactly one member, named by the 3.0 flow that the 2.0 `flow` stands for:
/// `application` → `clientCredentials`, `accessCode` → `authorizationCode`, `implicit`
/// and `password` unchanged (`implicit` when `flow` is absent); that flow carries the
/// scheme's `authorizationUrl`, `tokenUrl` and `scopes`.
pub proof fn law_oauth2_flow_is_renamed(f: Seq<(Seq<char>, JsonV)>)
    requires
        crate::json::str_of(lookup(f, "type"@)) == Some("oauth2"@),
    ensures
        ({
            let flow = match crate::json::str_of(lookup(f, "flow"@)) {
                Some(x) => x,
                None => "implicit"@,
            };
            let name = if flow == "application"@ {
                "clientCredentials"@
            } else if flow == "accessCode"@ {
                "authorizationCode"@
            } else {
                flow
            };
            let out = crate::commands::convert::converted_security_scheme(JsonV::Object(f));
            &&& member(out, "type"@) == Some(JsonV::Str("oauth2"@))
            &&& member(out, "flows"@) matches Some(JsonV::Object(g)) && g.len() == 1 && g[0].0 == name && member(
                g[0].1,
                "authorizationUrl"@,
            ) == lookup(f, "authorizationUrl"@) && member(g[0].1, "tokenUrl"@) == lookup(f, "tokenUrl"@) && member(
                g[0].1,
                "scopes"@,
            ) == lookup(f, "scopes"@)
        }),
{
    reveal_strlit("basic");
    reveal_strlit("oauth2");
    reveal_strlit("type");
    reveal_strlit("flows");
    reveal_strlit("description");
    reveal_strlit("authorizationUrl");
    reveal_strlit("tokenUrl");
    reveal_strlit("scopes");
    assert("basic"@.len() == 5 && "oauth2"@.len() == 6);
    assert("type"@.len() == 4 && "flows"@.len() == 5 && "description"@.len() == 11);
    assert("authorizationUrl"@.len() == 16 && "tokenUrl"@.len() == 8 && "scopes"@.len() == 6);
    let flow = match crate::json::str_of(lookup(f, "flow"@)) {
        Some(x) => x,
        None => "implicit"@,
    };
    let dm = crate::commands::convert::description_member(f);
    let o = seq![("type"@, JsonV::Str("oauth2"@))] + dm + seq![
        ("flows"@, JsonV::Object(seq![(crate::commands::convert::flow_name(flow), JsonV::Object(crate::commands::convert::flow_members(f)))])),
    ];
    assert(crate::commands::convert::converted_security_scheme(JsonV::Object(f)) == JsonV::Object(o));
    lemma_key_index_at(o, "type"@, 0);
    let k = o.len() - 1;
    assert forall|j: int| 0 <= j < k implies o[j].0 != "flows"@ by {
        if j > 0 {
            assert(o[j] == dm[j - 1]);
        }
    }
    lemma_key_index_at(o, "flows"@, k);
    let a = match lookup(f, "authorizationUrl"@) {
        Some(v) => seq![("authorizationUrl"@, v)],
        None => Seq::<(Seq<char>, JsonV)>::empty(),
    };
    let t = match lookup(f, "tokenUrl"@) {
        Some(v) => seq![("tokenUrl"@, v)],
        None => Seq::<(Seq<char>, JsonV)>::empty(),
    };
    let sc = match lookup(f, "scopes"@) {
        Some(v) => seq![("scopes"@, v)],
        None => Seq::<(Seq<char>, JsonV)>::empty(),
    };
    let fm = crate::commands::convert::flow_members(f);
    assert(fm == a + t + sc);
    lemma_member_of_three(a, t, sc, "authorizationUrl"@, lookup(f, "authorizationUrl"@));
    lemma_member_of_three(a, t, sc, "tokenUrl"@, lookup(f, "tokenUrl"@));
    lemma_member_of_three(a, t, sc, "scopes"@, lookup(f, "scopes"@));
}

/// In `a + t + s`, each at most one member with its own key, a key finds its member.
proof fn lemma_member_of_three(
    a: Seq<(Seq<char>, JsonV)>,
    t: Seq<(Seq<char>, JsonV)>,
    s: Seq<(Seq<char>, JsonV)>,
    k: Seq<char>,
    x: Option<JsonV>,
)
    requires
        a.len() <= 1 && t.len() <= 1 && s.len() <= 1,
        a.len() == 1 ==> a[0].0 == "authorizationUrl"@,
        t.len() == 1 ==> t[0].0 == "tokenUrl"@,
        s.len() == 1 ==> s[0].0 == "scopes"@,
        k == "authorizationUrl"@ || k == "tokenUrl"@ || k == "scopes"@,
        k == "authorizationUrl"@ ==> (x matches Some(v) ==> a == seq![(k, v)]) && (x is None ==> a.len() == 0),
        k == "tokenUrl"@ ==> (x matches Some(v) ==> t == seq![(k, v)]) && (x is None ==> t.len() == 0),
        k == "scopes"@ ==> (x matches Some(v) ==> s == seq![(k, v)]) && (x is None ==> s.len() == 0),
    ensures
        lookup(a + t + s, k) == x,
{
    reveal_strlit("authorizationUrl");
    reveal_strlit("tokenUrl");
    reveal_strlit("scopes");
    assert("authorizationUrl"@.len() == 16 && "tokenUrl"@.len() == 8 && "scopes"@.len() == 6);
    let g = a + t + s;
    lemma_key_index(g, k);
    assert forall|j: int| 0 <= j < g.len() && g[j].0 == k implies g[j] == (k, x->Some_0) by {
        if j < a.len() {
            assert(g[j] == a[j]);
        } else if j < a.len() + t.len() {
            assert(g[j] == t[j - a.len()]);
        } else {
            assert(g[j] == s[j - a.len() - t.len()]);
        }
    }
    if x is None {
        assert forall|j: int| 0 <= j < g.len() implies g[j].0 != k by {
            if j < a.len() {
                assert(g[j] == a[j]);
            } else if j < a.len() + t.len() {
                assert(g[j] == t[j - a.len()]);
            } else {
                assert(g[j] == s[j - a.len() - t.len()]);
            }
        }
    } else {
        assert(g.contains((k, x->Some_0))) by {
            if k == "authorizationUrl"@ {
                assert(g[0] == a[0]);
            } else if k == "tokenUrl"@ {
                assert(g[a.len() as int] == t[0]);
            } else {
                assert(g[(a.len() + t.len()) as int] == s[0]);
            }
        }
    }
}


/// A Swagger 2.0 `basic` scheme becomes `{type: http, scheme: basic}` (with its
/// description), and a scheme of any other type (such as `apiKey`) is kept as it is.
pub proof fn law_other_schemes_convert(f: Seq<(Seq<char>, JsonV)>)
    ensures
        crate::json::str_of(lookup(f, "type"@)) == Some("basic"@) ==> ({
            let out = crate::commands::convert::converted_security_scheme(JsonV::Object(f));
            &&& member(out, "type"@) == Some(JsonV::Str("http"@))
            &&& member(out, "scheme"@) == Some(JsonV::Str("basic"@))
            &&& member(out, "description"@) == lookup(f, "description"@)
        }),
        crate::json::str_of(lookup(f, "type"@)) != Some("basic"@) && crate::json::str_of(lookup(f, "type"@)) != Some(
            "oauth2"@,
        ) ==> crate::commands::convert::converted_security_scheme(JsonV::Object(f)) == JsonV::Object(f),
{
    reveal_strlit("type");
    reveal_strlit("scheme");
    reveal_strlit("description");
    reveal_strlit("basic");
    reveal_strlit("oauth2");
    assert("type"@.len() == 4 && "scheme"@.len() == 6 && "description"@.len() == 11);
    assert("basic"@.len() == 5 && "oauth2"@.len() == 6);
    if crate::json::str_of(lookup(f, "type"@)) == Some("basic"@) {
        let dm = crate::commands::convert::description_member(f);
        let o = seq![("type"@, JsonV::Str("http"@)), ("scheme"@, JsonV::Str("basic"@))] + dm;
        assert(crate::commands::convert::converted_security_scheme(JsonV::Object(f)) == JsonV::Object(o));
        lemma_key_index_at(o, "type"@, 0);
        lemma_key_index_at(o, "scheme"@, 1);
        if dm.len() > 0 {
            lemma_key_index_at(o, "description"@, 2);
        } else {
            assert forall|j: int| 0 <= j < o.len() implies o[j].0 != "description"@ by {}
            crate::json::lemma_key_index_absent(o, "description"@);
        }
    }
}

} // verus!
