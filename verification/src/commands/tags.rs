//! `tags`: declared and referenced tags with operation counts.

use vstd::prelude::*;
use crate::commands::operations::{collect_ops, ops_of};
use crate::commands::stats::{all_tags, tag_keys};
use crate::json::{array_of, elems_view, fields_view, lemma_array_view, lemma_object_view, lookup, member, non_null, str_of, Json, JsonV, Number};
use crate::table::{
    count_keys, count_pairs, counting, find_key, is_count_table, lemma_absent_not_counted, lemma_sorted_key_unique, occurrences, strings_view, table_keys,
    uint_json,
};
use crate::text::owned;

verus! {

/// The name of a declared tag: its `name` member when it is an object with a string name.
pub open spec fn tag_name(t: JsonV) -> Option<Seq<char>> {
    match t {
        JsonV::Object(f) => str_of(lookup(f, "name"@)),
        _ => None,
    }
}

/// One of the first `i` declared tags is named `n`.
pub open spec fn named_before(d: Seq<JsonV>, i: int, n: Seq<char>) -> bool {
    exists|j: int| 0 <= j < i && tag_name(#[trigger] d[j]) == Some(n)
}

/// The record of the `i`-th declared tag: name, description when present and not
/// `null`, and the count of operations tagged so (counted for the first tag of a name only).
pub open spec fn declared_record(d: Seq<JsonV>, i: int, keys: Seq<Seq<char>>) -> Seq<JsonV> {
    match tag_name(d[i]) {
        Some(n) => {
            let f = d[i]->Object_0;
            let desc = match non_null(lookup(f, "description"@)) {
                Some(x) => seq![("description"@, x)],
                None => Seq::empty(),
            };
            let count = if named_before(d, i, n) {
                0nat
            } else {
                occurrences(keys, n)
            };
            seq![JsonV::Object(seq![("name"@, JsonV::Str(n))] + desc + seq![("operationCount"@, uint_json(count))])]
        },
        None => Seq::empty(),
    }
}

/// The records of the first `n` declared tags.
pub open spec fn declared_records(d: Seq<JsonV>, keys: Seq<Seq<char>>, n: int) -> Seq<JsonV>
    decreases n,
{
    if n <= 0 {
        Seq::empty()
    } else {
        declared_records(d, keys, n - 1) + declared_record(d, n - 1, keys)
    }
}

/// `{name, operationCount}` for the first `n` counted tags that no declared tag names.
pub open spec fn undeclared_records(t: Seq<(Seq<char>, nat)>, d: Seq<JsonV>, n: int) -> Seq<JsonV>
    decreases n,
{
    if n <= 0 {
        Seq::empty()
    } else {
        undeclared_records(t, d, n - 1) + if named_before(d, d.len() as int, t[n - 1].0) {
            Seq::empty()
        } else {
            seq![JsonV::Object(seq![("name"@, JsonV::Str(t[n - 1].0)), ("operationCount"@, uint_json(t[n - 1].1))])]
        }
    }
}

pub open spec fn declared_tags(spec: JsonV) -> Seq<JsonV> {
    match array_of(member(spec, "tags"@)) {
        Some(a) => a,
        None => Seq::empty(),
    }
}

/// The `tags` list: declared tags first, in spec order; then tags used by operations but
/// not declared, ascending by name.
pub open spec fn tags_view(spec: JsonV) -> JsonV {
    let d = declared_tags(spec);
    let keys = tag_keys(ops_of(spec));
    let c = counting(keys);
    JsonV::Array(declared_records(d, keys, d.len() as int) + undeclared_records(c, d, c.len() as int))
}

fn uint(n: usize) -> (r: Json)
    ensures
        r@ == uint_json(n as nat),
{
    Json::Number(Number::UInt(n as u64))
}

/// `tags`: every declared tag with its operation count, then the undeclared ones used.
pub fn run(spec: &Json) -> (r: Json)
    ensures
        r@ == tags_view(spec@),
{
    let ops = collect_ops(spec);
    let tags = all_tags(&ops);
    let ghost keys = tag_keys(ops_of(spec@));
    let t = count_keys(&tags);
    let mut taken: Vec<bool> = Vec::new();
    let mut k: usize = 0;
    while k < t.len()
        invariant
            k <= t.len(),
            taken@.len() == k,
            forall|j: int| 0 <= j < k ==> !#[trigger] taken@[j],
        decreases t.len() - k,
    {
        taken.push(false);
        k = k + 1;
    }
    let empty: Vec<Json> = Vec::new();
    let declared = match spec.get("tags") {
        Some(v) => match v.as_array() {
            Some(a) => a,
            None => &empty,
        },
        None => &empty,
    };
    let ghost d = elems_view(declared@);
    assert(d == declared_tags(spec@)) by {
        lemma_array_view(empty);
        assert(elems_view(empty@) =~= Seq::<JsonV>::empty());
    }
    let mut out: Vec<Json> = Vec::new();
    let mut i: usize = 0;
    while i < declared.len()
        invariant
            i <= declared.len(),
            d == elems_view(declared@),
            d == declared_tags(spec@),
            keys == tag_keys(ops_of(spec@)),
            keys == strings_view(tags@),
            is_count_table(t@, keys),
            taken@.len() == t@.len(),
            forall|j: int| 0 <= j < t@.len() ==> (#[trigger] taken@[j] <==> named_before(d, i as int, t@[j].0@)),
            elems_view(out@) == declared_records(d, keys, i as int),
        decreases declared.len() - i,
    {
        let ghost before = out@;
        let ghost taken0 = taken@;
        let ghost gname = tag_name(d[i as int]);
        if let Some(obj) = declared[i].as_object() {
            if let Some(nv) = crate::json::field_get(obj, "name") {
                if let Some(name) = nv.as_str() {
                    let ghost n = name@;
                    assert(gname == Some(n));
                    let count: usize = match find_key(&t, name.as_str()) {
                        Some(r) => {
                            if taken[r] {
                                proof {
                                    assert forall|q: int| 0 <= q < t@.len() implies #[trigger] taken@[q] == (taken0[q]
                                        || Some(t@[q].0@) == gname) by {
                                        if t@[q].0@ == n {
                                            assert(table_keys(t@)[q] == table_keys(t@)[r as int]);
                                            lemma_sorted_key_unique(table_keys(t@), q, r as int);
                                        }
                                    }
                                }
                                0
                            } else {
                                taken.set(r, true);
                                proof {
                                    assert forall|q: int| 0 <= q < t@.len() implies #[trigger] taken@[q] == (taken0[q]
                                        || Some(t@[q].0@) == gname) by {
                                        if t@[q].0@ == n {
                                            assert(table_keys(t@)[q] == table_keys(t@)[r as int]);
                                            lemma_sorted_key_unique(table_keys(t@), q, r as int);
                                        }
                                    }
                                }
                                t[r].1
                            }
                        },
                        None => {
                            proof {
                                lemma_absent_not_counted(t@, keys, n);
                                assert forall|q: int| 0 <= q < t@.len() implies #[trigger] taken@[q] == (taken0[q]
                                    || Some(t@[q].0@) == gname) by {
                                    assert(table_keys(t@)[q] == t@[q].0@);
                                }
                            }
                            0
                        },
                    };
                    assert(count as nat == if named_before(d, i as int, n) { 0nat } else { occurrences(keys, n) }) by {
                        if named_before(d, i as int, n) {
                            let j = choose|j: int| 0 <= j < i && tag_name(#[trigger] d[j]) == Some(n);
                            if table_keys(t@).contains(n) {
                                let p = choose|p: int| 0 <= p < table_keys(t@).len() && table_keys(t@)[p] == n;
                                assert(taken0[p]);
                            }
                        }
                    }
                    let mut entry: Vec<(String, Json)> = Vec::new();
                    entry.push((owned("name"), Json::Str(name.clone())));
                    let ghost f = fields_view(obj@);
                    if let Some(desc) = crate::json::field_get(obj, "description") {
                        if !desc.is_null() {
                            entry.push((owned("description"), desc.deep_clone()));
                        }
                    }
                    assert(fields_view(entry@) =~= seq![("name"@, JsonV::Str(n))] + match non_null(lookup(f, "description"@)) {
                        Some(x) => seq![("description"@, x)],
                        None => Seq::empty(),
                    });
                    let ghost e1 = fields_view(entry@);
                    entry.push((owned("operationCount"), uint(count)));
                    assert(fields_view(entry@) =~= e1 + seq![("operationCount"@, uint_json(count as nat))]);
                    proof {
                        lemma_object_view(entry);
                    }
                    let e = Json::Object(entry);
                    out.push(e);
                    assert(elems_view(out@) =~= elems_view(before) + declared_record(d, i as int, keys));
                }
            }
        }
        proof {
            if gname is None {
                assert(taken@ == taken0);
                assert(elems_view(out@) =~= declared_records(d, keys, i + 1));
            }
            assert forall|j: int| 0 <= j < t@.len() implies (#[trigger] taken@[j] <==> named_before(d, i + 1, t@[j].0@)) by {
                assert(taken@[j] == (taken0[j] || Some(t@[j].0@) == gname));
                if named_before(d, i as int, t@[j].0@) {
                    let w = choose|w: int| 0 <= w < i && tag_name(#[trigger] d[w]) == Some(t@[j].0@);
                    assert(0 <= w < i + 1 && tag_name(d[w]) == Some(t@[j].0@));
                }
                if Some(t@[j].0@) == gname {
                    assert(tag_name(d[i as int]) == Some(t@[j].0@));
                }
                if named_before(d, i + 1, t@[j].0@) {
                    let w = choose|w: int| 0 <= w < i + 1 && tag_name(#[trigger] d[w]) == Some(t@[j].0@);
                    if w < i {
                        assert(named_before(d, i as int, t@[j].0@));
                    }
                }
            }
        }
        i = i + 1;
    }
    let ghost c = count_pairs(t@);
    let ghost nd = elems_view(out@);
    let mut j: usize = 0;
    while j < t.len()
        invariant
            j <= t.len(),
            c == count_pairs(t@),
            taken@.len() == t@.len(),
            forall|q: int| 0 <= q < t@.len() ==> (#[trigger] taken@[q] <==> named_before(d, d.len() as int, t@[q].0@)),
            elems_view(out@) == nd + undeclared_records(c, d, j as int),
        decreases t.len() - j,
    {
        let ghost before = out@;
        if !taken[j] {
            let mut entry: Vec<(String, Json)> = Vec::new();
            entry.push((owned("name"), Json::Str(t[j].0.clone())));
            entry.push((owned("operationCount"), uint(t[j].1)));
            proof {
                lemma_object_view(entry);
                assert(fields_view(entry@) =~= seq![("name"@, JsonV::Str(c[j as int].0)), ("operationCount"@, uint_json(c[j as int].1))]);
            }
            let e = Json::Object(entry);
            out.push(e);
            assert(elems_view(out@) =~= elems_view(before).push(e@));
        }
        assert(taken@[j as int] <==> named_before(d, d.len() as int, c[j as int].0));
        assert(elems_view(out@) =~= nd + undeclared_records(c, d, j + 1));
        j = j + 1;
    }
    proof {
        lemma_array_view(out);
        assert(c == counting(keys));
    }
    Json::Array(out)
}


// ---- every used tag is listed with its count ----
proof fn lemma_record_keys()
    ensures
        "name"@ != "operationCount"@,
        "description"@ != "operationCount"@,
        "name"@ != "description"@,
{
    reveal_strlit("name");
    reveal_strlit("operationCount");
    reveal_strlit("description");
    assert("name"@.len() == 4 && "operationCount"@.len() == 14 && "description"@.len() == 11);
}

proof fn lemma_declared_record(d: Seq<JsonV>, i: int, keys: Seq<Seq<char>>)
    requires
        0 <= i < d.len(),
    ensures
        tag_name(d[i]) is None ==> declared_record(d, i, keys).len() == 0,
        tag_name(d[i]) matches Some(nm) ==> declared_record(d, i, keys).len() == 1 && member(
            declared_record(d, i, keys)[0],
            "name"@,
        ) == Some(JsonV::Str(nm)) && member(declared_record(d, i, keys)[0], "operationCount"@) == Some(
            uint_json(
                if named_before(d, i, nm) {
                    0nat
                } else {
                    occurrences(keys, nm)
                },
            ),
        ),
{
    lemma_record_keys();
    if let Some(nm) = tag_name(d[i]) {
        let f = d[i]->Object_0;
        let desc = match non_null(lookup(f, "description"@)) {
            Some(x) => seq![("description"@, x)],
            None => Seq::<(Seq<char>, JsonV)>::empty(),
        };
        let count = if named_before(d, i, nm) {
            0nat
        } else {
            occurrences(keys, nm)
        };
        let o = seq![("name"@, JsonV::Str(nm))] + desc + seq![("operationCount"@, uint_json(count))];
        assert(declared_record(d, i, keys)[0] == JsonV::Object(o));
        crate::json::lemma_key_index_at(o, "name"@, 0);
        let k = o.len() - 1;
        assert forall|j: int| 0 <= j < k implies o[j].0 != "operationCount"@ by {
            if j > 0 {
                assert(o[j] == desc[j - 1]);
            }
        }
        crate::json::lemma_key_index_at(o, "operationCount"@, k);
    }
}

/// Every declared record is named by a declared tag.
proof fn lemma_declared_names(d: Seq<JsonV>, keys: Seq<Seq<char>>, m: int)
    requires
        0 <= m <= d.len(),
    ensures
        forall|q: int|
            0 <= q < declared_records(d, keys, m).len() ==> (member(#[trigger] declared_records(d, keys, m)[q], "name"@) matches Some(
                JsonV::Str(nm),
            ) && named_before(d, m, nm)),
    decreases m,
{
    if m > 0 {
        lemma_declared_names(d, keys, m - 1);
        lemma_declared_record(d, m - 1, keys);
        let a = declared_records(d, keys, m - 1);
        let b = declared_record(d, m - 1, keys);
        assert(declared_records(d, keys, m) == a + b);
        assert forall|q: int| 0 <= q < (a + b).len() implies (member(#[trigger] (a + b)[q], "name"@) matches Some(
            JsonV::Str(nm),
        ) && named_before(d, m, nm)) by {
            if q < a.len() {
                assert((a + b)[q] == a[q]);
                if let Some(JsonV::Str(nm)) = member(a[q], "name"@) {
                    let j = choose|j: int| 0 <= j < m - 1 && tag_name(#[trigger] d[j]) == Some(nm);
                    assert(tag_name(d[j]) == Some(nm));
                }
            } else {
                assert((a + b)[q] == b[0]);
                assert(tag_name(d[m - 1]) is Some);
            }
        }
    }
}

/// The first declared tag named `n` has a record that counts `n`'s uses, and no record before
/// it is named `n`.
proof fn lemma_declared_first(d: Seq<JsonV>, keys: Seq<Seq<char>>, m: int, n: Seq<char>)
    requires
        0 <= m <= d.len(),
        named_before(d, m, n),
    ensures
        exists|i: int|
            0 <= i < declared_records(d, keys, m).len() && member(declared_records(d, keys, m)[i], "name"@) == Some(
                JsonV::Str(n),
            ) && member(declared_records(d, keys, m)[i], "operationCount"@) == Some(uint_json(occurrences(keys, n)))
                && forall|j: int| 0 <= j < i ==> member(#[trigger] declared_records(d, keys, m)[j], "name"@) != Some(JsonV::Str(n)),
    decreases m,
{
    let a = declared_records(d, keys, m - 1);
    let b = declared_record(d, m - 1, keys);
    assert(declared_records(d, keys, m) == a + b);
    lemma_declared_record(d, m - 1, keys);
    if named_before(d, m - 1, n) {
        lemma_declared_first(d, keys, m - 1, n);
        let i = choose|i: int|
            0 <= i < a.len() && member(a[i], "name"@) == Some(JsonV::Str(n)) && member(a[i], "operationCount"@) == Some(
                uint_json(occurrences(keys, n)),
            ) && forall|j: int| 0 <= j < i ==> member(#[trigger] a[j], "name"@) != Some(JsonV::Str(n));
        assert((a + b)[i] == a[i]);
        assert forall|j: int| 0 <= j < i implies member(#[trigger] (a + b)[j], "name"@) != Some(JsonV::Str(n)) by {
            assert((a + b)[j] == a[j]);
        }
    } else {
        let w = choose|j: int| 0 <= j < m && tag_name(#[trigger] d[j]) == Some(n);
        assert(w == m - 1);
        lemma_declared_names(d, keys, m - 1);
        let i = a.len() as int;
        assert((a + b)[i] == b[0]);
        assert forall|j: int| 0 <= j < i implies member(#[trigger] (a + b)[j], "name"@) != Some(JsonV::Str(n)) by {
            assert((a + b)[j] == a[j]);
            if member(a[j], "name"@) == Some(JsonV::Str(n)) {
                assert(named_before(d, m - 1, n));
            }
        }
    }
}

/// The record of an undeclared counted tag.
pub open spec fn undeclared_record(x: (Seq<char>, nat)) -> JsonV {
    JsonV::Object(seq![("name"@, JsonV::Str(x.0)), ("operationCount"@, uint_json(x.1))])
}

proof fn lemma_undeclared_record(x: (Seq<char>, nat))
    ensures
        member(undeclared_record(x), "name"@) == Some(JsonV::Str(x.0)),
        member(undeclared_record(x), "operationCount"@) == Some(uint_json(x.1)),
{
    lemma_record_keys();
    let o = seq![("name"@, JsonV::Str(x.0)), ("operationCount"@, uint_json(x.1))];
    crate::json::lemma_key_index_at(o, "name"@, 0);
    crate::json::lemma_key_index_at(o, "operationCount"@, 1);
}

/// The undeclared records: each is the record of a counted, undeclared tag among the
/// first `m`, and no two are named alike.
proof fn lemma_undeclared_names(c: Seq<(Seq<char>, nat)>, d: Seq<JsonV>, m: int)
    requires
        0 <= m <= c.len(),
        crate::table::strictly_sorted(crate::table::pair_keys(c)),
    ensures
        forall|q: int|
            0 <= q < undeclared_records(c, d, m).len() ==> exists|idx: int|
                0 <= idx < m && !named_before(d, d.len() as int, c[idx].0) && #[trigger] undeclared_records(c, d, m)[q]
                    == undeclared_record(c[idx]),
        forall|q1: int, q2: int|
            0 <= q1 < undeclared_records(c, d, m).len() && 0 <= q2 < undeclared_records(c, d, m).len() && member(
                #[trigger] undeclared_records(c, d, m)[q1],
                "name"@,
            ) == member(#[trigger] undeclared_records(c, d, m)[q2], "name"@) ==> q1 == q2,
    decreases m,
{
    if m > 0 {
        lemma_undeclared_names(c, d, m - 1);
        let a = undeclared_records(c, d, m - 1);
        let b = if named_before(d, d.len() as int, c[m - 1].0) {
            Seq::<JsonV>::empty()
        } else {
            seq![JsonV::Object(seq![("name"@, JsonV::Str(c[m - 1].0)), ("operationCount"@, uint_json(c[m - 1].1))])]
        };
        assert(undeclared_records(c, d, m) == a + b);
        assert forall|q: int| 0 <= q < (a + b).len() implies exists|idx: int|
            0 <= idx < m && !named_before(d, d.len() as int, c[idx].0) && #[trigger] (a + b)[q] == undeclared_record(c[idx]) by {
            if q < a.len() {
                assert((a + b)[q] == a[q]);
            } else {
                assert((a + b)[q] == undeclared_record(c[m - 1]));
            }
        }
        let last = c[m - 1].0;
        lemma_undeclared_record(c[m - 1]);
        assert forall|q: int| 0 <= q < a.len() implies member(#[trigger] a[q], "name"@) != Some(JsonV::Str(last)) by {
            let idx = choose|idx: int| 0 <= idx < m - 1 && !named_before(d, d.len() as int, c[idx].0) && a[q] == undeclared_record(c[idx]);
            lemma_undeclared_record(c[idx]);
            assert(crate::table::seq_lt(crate::table::pair_keys(c)[idx], crate::table::pair_keys(c)[m - 1]));
            crate::table::lemma_lt_irreflexive(last);
        }
        assert forall|q1: int, q2: int|
            0 <= q1 < (a + b).len() && 0 <= q2 < (a + b).len() && member(#[trigger] (a + b)[q1], "name"@) == member(
                #[trigger] (a + b)[q2],
                "name"@,
            ) implies q1 == q2 by {
            if q1 < a.len() && q2 < a.len() {
                assert((a + b)[q1] == a[q1] && (a + b)[q2] == a[q2]);
            } else if q1 < a.len() {
                assert((a + b)[q1] == a[q1]);
                assert((a + b)[q2] == undeclared_record(c[m - 1]));
            } else if q2 < a.len() {
                assert((a + b)[q2] == a[q2]);
                assert((a + b)[q1] == undeclared_record(c[m - 1]));
            }
        }
    }
}

/// `tags` lists every tag that operations carry or the spec declares: the first record
/// with its name counts every operation's use of it (0 for a declared tag no operation
/// uses), and a tag that no declared tag names has exactly one record.
pub proof fn law_tags_list_every_used_tag(spec: JsonV, n: Seq<char>)
    requires
        tag_keys(ops_of(spec)).contains(n) || named_before(declared_tags(spec), declared_tags(spec).len() as int, n),
    ensures
        ({
            let recs = tags_view(spec)->Array_0;
            let d = declared_tags(spec);
            &&& exists|i: int|
                0 <= i < recs.len() && member(recs[i], "name"@) == Some(JsonV::Str(n)) && member(recs[i], "operationCount"@)
                    == Some(uint_json(occurrences(tag_keys(ops_of(spec)), n))) && forall|j: int|
                    0 <= j < i ==> member(#[trigger] recs[j], "name"@) != Some(JsonV::Str(n))
            &&& !named_before(d, d.len() as int, n) ==> forall|i: int, j: int|
                0 <= i < recs.len() && 0 <= j < recs.len() && member(#[trigger] recs[i], "name"@) == Some(JsonV::Str(n)) && member(
                    #[trigger] recs[j],
                    "name"@,
                ) == Some(JsonV::Str(n)) ==> i == j
        }),
{
    let d = declared_tags(spec);
    let keys = tag_keys(ops_of(spec));
    crate::table::lemma_counting_exists(keys);
    let c = counting(keys);
    let r = declared_records(d, keys, d.len() as int);
    let u = undeclared_records(c, d, c.len() as int);
    let recs = tags_view(spec)->Array_0;
    assert(recs == r + u);
    lemma_declared_names(d, keys, d.len() as int);
    lemma_undeclared_names(c, d, c.len() as int);
    if named_before(d, d.len() as int, n) {
        lemma_declared_first(d, keys, d.len() as int, n);
        let i = choose|i: int|
            0 <= i < r.len() && member(r[i], "name"@) == Some(JsonV::Str(n)) && member(r[i], "operationCount"@) == Some(
                uint_json(occurrences(keys, n)),
            ) && forall|j: int| 0 <= j < i ==> member(#[trigger] r[j], "name"@) != Some(JsonV::Str(n));
        assert(recs[i] == r[i]);
        assert forall|j: int| 0 <= j < i implies member(#[trigger] recs[j], "name"@) != Some(JsonV::Str(n)) by {
            assert(recs[j] == r[j]);
        }
    } else {
        let pk = crate::table::pair_keys(c);
        assert(pk.contains(n));
        let k = choose|k: int| 0 <= k < pk.len() && pk[k] == n;
        assert(c[k].1 == occurrences(keys, c[k].0));
        // the undeclared record of `n`
        let rec = undeclared_record(c[k]);
        lemma_undeclared_record(c[k]);
        lemma_undeclared_has(c, d, c.len() as int, k);
        let q = choose|q: int| 0 <= q < u.len() && u[q] == rec;
        let i = r.len() + q;
        assert(recs[i] == u[q]);
        assert forall|j: int| 0 <= j < recs.len() && member(#[trigger] recs[j], "name"@) == Some(JsonV::Str(n)) implies j == i by {
            if j < r.len() {
                assert(recs[j] == r[j]);
            } else {
                assert(recs[j] == u[j - r.len()]);
            }
        }
        assert forall|j: int| 0 <= j < i implies member(#[trigger] recs[j], "name"@) != Some(JsonV::Str(n)) by {
            if member(recs[j], "name"@) == Some(JsonV::Str(n)) {
                assert(j == i);
            }
        }
    }
}

/// A counted, undeclared tag has its record among the undeclared ones.
proof fn lemma_undeclared_has(c: Seq<(Seq<char>, nat)>, d: Seq<JsonV>, m: int, k: int)
    requires
        0 <= k < m <= c.len(),
        !named_before(d, d.len() as int, c[k].0),
    ensures
        undeclared_records(c, d, m).contains(undeclared_record(c[k])),
    decreases m,
{
    let a = undeclared_records(c, d, m - 1);
    let b = if named_before(d, d.len() as int, c[m - 1].0) {
        Seq::<JsonV>::empty()
    } else {
        seq![JsonV::Object(seq![("name"@, JsonV::Str(c[m - 1].0)), ("operationCount"@, uint_json(c[m - 1].1))])]
    };
    assert(undeclared_records(c, d, m) == a + b);
    if k < m - 1 {
        lemma_undeclared_has(c, d, m - 1, k);
        let q = choose|q: int| 0 <= q < a.len() && a[q] == undeclared_record(c[k]);
        assert((a + b)[q] == a[q]);
    } else {
        assert((a + b)[a.len() as int] == undeclared_record(c[k]));
    }
}


/// The undeclared records are named by undeclared tags, in strictly ascending order.
proof fn lemma_undeclared_order(c: Seq<(Seq<char>, nat)>, d: Seq<JsonV>, m: int)
    requires
        0 <= m <= c.len(),
        crate::table::strictly_sorted(crate::table::pair_keys(c)),
    ensures
        forall|q: int|
            0 <= q < undeclared_records(c, d, m).len() ==> (member(#[trigger] undeclared_records(c, d, m)[q], "name"@) matches Some(
                JsonV::Str(a),
            ) && !named_before(d, d.len() as int, a)),
        forall|q1: int, q2: int|
            0 <= q1 < q2 < undeclared_records(c, d, m).len() ==> (member(#[trigger] undeclared_records(c, d, m)[q1], "name"@) matches Some(
                JsonV::Str(a),
            ) && member(#[trigger] undeclared_records(c, d, m)[q2], "name"@) matches Some(JsonV::Str(b)) && crate::table::seq_lt(a, b)),
    decreases m,
{
    lemma_undeclared_names(c, d, m);
    if m > 0 {
        lemma_undeclared_order(c, d, m - 1);
        lemma_undeclared_names(c, d, m - 1);
        let a = undeclared_records(c, d, m - 1);
        let b = if named_before(d, d.len() as int, c[m - 1].0) {
            Seq::<JsonV>::empty()
        } else {
            seq![JsonV::Object(seq![("name"@, JsonV::Str(c[m - 1].0)), ("operationCount"@, uint_json(c[m - 1].1))])]
        };
        let u = undeclared_records(c, d, m);
        assert(u == a + b);
        lemma_undeclared_record(c[m - 1]);
        assert forall|q: int| 0 <= q < u.len() implies (member(#[trigger] u[q], "name"@) matches Some(JsonV::Str(x)) && !named_before(
            d,
            d.len() as int,
            x,
        )) by {
            let idx = choose|idx: int| 0 <= idx < m && !named_before(d, d.len() as int, c[idx].0) && u[q] == undeclared_record(c[idx]);
            lemma_undeclared_record(c[idx]);
        }
        assert forall|q1: int, q2: int| 0 <= q1 < q2 < u.len() implies (member(#[trigger] u[q1], "name"@) matches Some(
            JsonV::Str(x),
        ) && member(#[trigger] u[q2], "name"@) matches Some(JsonV::Str(y)) && crate::table::seq_lt(x, y)) by {
            if q2 < a.len() {
                assert(u[q1] == a[q1] && u[q2] == a[q2]);
            } else {
                assert(u[q1] == a[q1]);
                assert(u[q2] == undeclared_record(c[m - 1]));
                let idx = choose|idx: int| 0 <= idx < m - 1 && !named_before(d, d.len() as int, c[idx].0) && a[q1] == undeclared_record(c[idx]);
                lemma_undeclared_record(c[idx]);
                assert(crate::table::seq_lt(crate::table::pair_keys(c)[idx], crate::table::pair_keys(c)[m - 1]));
            }
        }
    }
}

/// `tags` lists the records of declared tags first, then those of tags no declared tag
/// names, in strictly ascending order of name.
pub proof fn law_tags_order(spec: JsonV)
    ensures
        ({
            let recs = tags_view(spec)->Array_0;
            let d = declared_tags(spec);
            forall|i: int, j: int|
                0 <= i < j < recs.len() ==> (member(#[trigger] recs[i], "name"@) matches Some(JsonV::Str(a)) && member(
                    #[trigger] recs[j],
                    "name"@,
                ) matches Some(JsonV::Str(b)) && (named_before(d, d.len() as int, b) ==> named_before(d, d.len() as int, a))
                    && (!named_before(d, d.len() as int, a) ==> crate::table::seq_lt(a, b)))
        }),
{
    let d = declared_tags(spec);
    let keys = tag_keys(ops_of(spec));
    crate::table::lemma_counting_exists(keys);
    let c = counting(keys);
    let r = declared_records(d, keys, d.len() as int);
    let u = undeclared_records(c, d, c.len() as int);
    let recs = tags_view(spec)->Array_0;
    assert(recs == r + u);
    lemma_declared_names(d, keys, d.len() as int);
    lemma_undeclared_order(c, d, c.len() as int);
    assert forall|i: int, j: int| 0 <= i < j < recs.len() implies (member(#[trigger] recs[i], "name"@) matches Some(
        JsonV::Str(a),
    ) && member(#[trigger] recs[j], "name"@) matches Some(JsonV::Str(b)) && (named_before(d, d.len() as int, b)
        ==> named_before(d, d.len() as int, a)) && (!named_before(d, d.len() as int, a) ==> crate::table::seq_lt(a, b))) by {
        if j < r.len() {
            assert(recs[i] == r[i] && recs[j] == r[j]);
        } else if i < r.len() {
            assert(recs[i] == r[i]);
            assert(recs[j] == u[j - r.len()]);
        } else {
            assert(recs[i] == u[i - r.len()] && recs[j] == u[j - r.len()]);
        }
    }
}

} // verus!
