//! Inline expansion of `$ref` references.
//!
//! A `$ref` whose value starts with `#` is replaced by the (expanded) value its
//! JSON Pointer designates in the root document. A reference met again while it
//! is being expanded becomes `{"$circular_ref": ref}`; a reference to another
//! document is kept as `{"$ref": ref}`; one that designates nothing becomes
//! `{"$unresolved_ref": ref}`; past the depth limit a value becomes
//! `{"$truncated_depth": limit}`.

use vstd::prelude::*;
use crate::json::{field_get, lemma_array_view, lemma_key_index, lemma_object_view, lookup, Json, JsonV, Number, NumberV};
use crate::pointer::{pointer_of, split_slash, step, walk_tokens, unescape_token};
use crate::text::{chars_of, owned, string_from};

verus! {

/// How `$ref`s are treated.
#[derive(Clone, Copy, Debug)]
pub struct ResolveOptions {
    pub resolve: bool,
    pub max_depth: Option<usize>,
}

impl Default for ResolveOptions {
    fn default() -> (r: Self)
        ensures
            r.resolve,
            r.max_depth is None,
    {
        ResolveOptions { resolve: true, max_depth: None }
    }
}

/// How many children a value has.
pub open spec fn child_count(v: JsonV) -> nat {
    match v {
        JsonV::Array(a) => a.len(),
        JsonV::Object(f) => f.len(),
        _ => 0,
    }
}

/// The `i`-th child of an array or object.
pub open spec fn child(v: JsonV, i: int) -> JsonV {
    match v {
        JsonV::Array(a) => a[i],
        JsonV::Object(f) => f[i].1,
        _ => JsonV::Null,
    }
}

/// The values of the strings of `v`, in document order.
pub open spec fn strings_of(v: JsonV) -> Seq<Seq<char>>
    decreases v, child_count(v) + 1,
{
    match v {
        JsonV::Str(t) => seq![t],
        JsonV::Array(a) => strings_of_children(v, a.len() as int),
        JsonV::Object(f) => strings_of_children(v, f.len() as int),
        _ => Seq::empty(),
    }
}

/// The strings of the first `n` children of `v`.
pub open spec fn strings_of_children(v: JsonV, n: int) -> Seq<Seq<char>>
    decreases v, n,
{
    if n <= 0 || n > child_count(v) {
        Seq::empty()
    } else {
        let c = child(v, n - 1);
        proof {
            match v {
                JsonV::Array(a) => { assert(decreases_to!(v => a[n - 1])); },
                JsonV::Object(f) => { assert(decreases_to!(v => f[n - 1].1)); },
                _ => {},
            }
        }
        strings_of_children(v, n - 1) + strings_of(c)
    }
}

/// `s` is the value of some string in `v`.
pub open spec fn occurs_str(v: JsonV, s: Seq<char>) -> bool {
    strings_of(v).contains(s)
}

/// A one-member marker object.
pub open spec fn marker(key: Seq<char>, r: Seq<char>) -> JsonV {
    JsonV::Object(seq![(key, JsonV::Str(r))])
}

pub open spec fn truncated(m: usize) -> JsonV {
    JsonV::Object(seq![("$truncated_depth"@, JsonV::Number(NumberV::UInt(m as u64)))])
}

/// The next depth (saturating at `usize::MAX`).
pub open spec fn next_depth(d: usize) -> usize {
    if d < usize::MAX {
        (d + 1) as usize
    } else {
        d
    }
}

/// The expansion of `v`, met at `depth`, while the references in `stack` are being expanded.
/// `universe` holds every string of the documents involved; it only serves to show that
/// the expansion ends.
pub open spec fn expand(
    root: JsonV,
    max: Option<usize>,
    v: JsonV,
    depth: usize,
    stack: Set<Seq<char>>,
    universe: Set<Seq<char>>,
) -> JsonV
    decreases universe.difference(stack).len(), v,
{
    if max is Some && depth > max->0 {
        truncated(max->0)
    } else {
        match v {
            JsonV::Object(f) => match lookup(f, "$ref"@) {
                Some(JsonV::Str(r)) => {
                    if stack.contains(r) {
                        marker("$circular_ref"@, r)
                    } else if r.len() == 0 || r[0] != '#' {
                        marker("$ref"@, r)
                    } else {
                        match pointer_of(root, r.drop_first()) {
                            None => marker("$unresolved_ref"@, r),
                            Some(t) => if universe.finite() && universe.contains(r) {
                                proof {
                                    lemma_difference_shrinks(universe, stack, r);
                                }
                                expand(root, max, t, next_depth(depth), stack.insert(r), universe)
                            } else {
                                JsonV::Null
                            },
                        }
                    }
                },
                _ => JsonV::Object(
                    Seq::new(
                        f.len(),
                        |i: int|
                            if 0 <= i < f.len() {
                                (f[i].0, expand(root, max, f[i].1, next_depth(depth), stack, universe))
                            } else {
                                (Seq::empty(), JsonV::Null)
                            },
                    ),
                ),
            },
            JsonV::Array(a) => JsonV::Array(
                Seq::new(
                    a.len(),
                    |i: int|
                        if 0 <= i < a.len() {
                            expand(root, max, a[i], next_depth(depth), stack, universe)
                        } else {
                            JsonV::Null
                        },
                ),
            ),
            other => other,
        }
    }
}

pub proof fn lemma_difference_shrinks(universe: Set<Seq<char>>, stack: Set<Seq<char>>, r: Seq<char>)
    requires
        universe.finite(),
        universe.contains(r),
        !stack.contains(r),
    ensures
        universe.difference(stack.insert(r)).len() < universe.difference(stack).len(),
{
    assert(universe.difference(stack.insert(r)) =~= universe.difference(stack).remove(r));
    vstd::set_lib::lemma_len_difference(universe, stack);
    assert(universe.difference(stack).contains(r));
}

/// Every string of the document or of the value, and the origin reference.
pub open spec fn universe_of(root: JsonV, v: JsonV, origin: Seq<char>) -> Set<Seq<char>> {
    (strings_of(root) + strings_of(v)).to_set().insert(origin)
}

/// What `Resolver::resolve` gives for `v` with the options' depth limit.
pub open spec fn resolved(root: JsonV, max: Option<usize>, v: JsonV, origin: Seq<char>) -> JsonV {
    expand(root, max, v, 0, set![origin], universe_of(root, v, origin))
}

pub open spec fn stack_set(s: Seq<String>) -> Set<Seq<char>> {
    Set::new(|x: Seq<char>| exists|i: int| 0 <= i < s.len() && s[i]@ == x)
}

/// Expands the `$ref`s of values met in `root`.
pub struct Resolver<'a> {
    root: &'a Json,
    opts: ResolveOptions,
}

impl<'a> Resolver<'a> {
    pub closed spec fn root_view(&self) -> JsonV {
        self.root@
    }

    pub closed spec fn options(&self) -> ResolveOptions {
        self.opts
    }

    pub fn new(root: &'a Json, opts: ResolveOptions) -> (r: Self)
        ensures
            r.root_view() == root@,
            r.options() == opts,
    {
        Resolver { root, opts }
    }

    /// Expands the references of `value`, treating `origin_ref` as already being expanded.
    pub fn resolve(&mut self, value: Json, origin_ref: &str) -> (r: Json)
        ensures
            r@ == resolved(old(self).root_view(), old(self).options().max_depth, value@, origin_ref@),
            final(self).root_view() == old(self).root_view(),
            final(self).options() == old(self).options(),
    {
        let ghost universe = universe_of(self.root@, value@, origin_ref@);
        proof {
            vstd::seq_lib::seq_to_set_is_finite(strings_of(self.root@) + strings_of(value@));
            assert forall|s: Seq<char>| occurs_str(self.root@, s) implies universe.contains(s) by {
                let k = choose|k: int| 0 <= k < strings_of(self.root@).len() && strings_of(self.root@)[k] == s;
                assert((strings_of(self.root@) + strings_of(value@))[k] == s);
            }
            assert forall|s: Seq<char>| occurs_str(value@, s) implies universe.contains(s) by {
                let k = choose|k: int| 0 <= k < strings_of(value@).len() && strings_of(value@)[k] == s;
                assert((strings_of(self.root@) + strings_of(value@))[strings_of(self.root@).len() + k] == s);
            }
        }
        let mut stack: Vec<String> = Vec::new();
        stack.push(owned(origin_ref));
        assert(stack@[0]@ == origin_ref@);
        assert(stack_set(stack@) =~= set![origin_ref@]);
        let out = self.walk(&value, 0, &mut stack, Ghost(universe));
        out
    }

    fn in_stack(stack: &Vec<String>, r: &String) -> (b: bool)
        ensures
            b == stack_set(stack@).contains(r@),
    {
        let mut i: usize = 0;
        while i < stack.len()
            invariant
                i <= stack.len(),
                forall|k: int| 0 <= k < i ==> stack@[k]@ != r@,
            decreases stack.len() - i,
        {
            if stack[i] == *r {
                return true;
            }
            i = i + 1;
        }
        false
    }

    fn walk(&self, value: &Json, depth: usize, stack: &mut Vec<String>, Ghost(universe): Ghost<Set<Seq<char>>>) -> (r: Json)
        requires
            universe.finite(),
            forall|s: Seq<char>| occurs_str(self.root@, s) ==> universe.contains(s),
            forall|s: Seq<char>| occurs_str(value@, s) ==> universe.contains(s),
        ensures
            final(stack)@ == old(stack)@,
            r@ == expand(self.root@, self.opts.max_depth, value@, depth, stack_set(old(stack)@), universe),
        decreases universe.difference(stack_set(old(stack)@)).len(), *value,
    {
        let ghost s0 = stack_set(stack@);
        if let Some(max) = self.opts.max_depth {
            if depth > max {
                let mut f: Vec<(String, Json)> = Vec::new();
                f.push((owned("$truncated_depth"), Json::Number(Number::UInt(max as u64))));
                proof {
                    lemma_object_view(f);
                    assert(crate::json::fields_view(f@) =~= seq![("$truncated_depth"@, JsonV::Number(NumberV::UInt(max as u64)))]);
                }
                return Json::Object(f);
            }
        }
        let nd = depth.saturating_add(1);
        assert(nd == next_depth(depth));
        match value {
            Json::Object(f) => {
                proof {
                    lemma_object_view(*f);
                }
                let found = field_get(f, "$ref");
                if let Some(Json::Str(r)) = found {
                    proof {
                        lemma_lookup_occurs(crate::json::fields_view(f@), "$ref"@, r@);
                    }
                    return self.expand_ref(value, r, nd, stack, Ghost(universe));
                }
                assert(!(self.opts.max_depth is Some && depth > self.opts.max_depth->0));
                assert(!(lookup(crate::json::fields_view(f@), "$ref"@) matches Some(JsonV::Str(_))));
                let mut out: Vec<(String, Json)> = Vec::new();
                let mut i: usize = 0;
                while i < f.len()
                    invariant
                        i <= f.len(),
                        *value == Json::Object(*f),
                        out@.len() == i,
                        stack_set(stack@) == s0,
                        stack@ == old(stack)@,
                        universe.finite(),
                        forall|s: Seq<char>| occurs_str(self.root@, s) ==> universe.contains(s),
                        forall|s: Seq<char>| occurs_str(value@, s) ==> universe.contains(s),
                        value@ == JsonV::Object(crate::json::fields_view(f@)),
                        !(self.opts.max_depth is Some && depth > self.opts.max_depth->0),
                        !(lookup(crate::json::fields_view(f@), "$ref"@) matches Some(JsonV::Str(_))),
                        forall|k: int| 0 <= k < i ==> #[trigger] out@[k].0@ == f@[k].0@
                            && out@[k].1@ == expand(self.root@, self.opts.max_depth, f@[k].1@, nd, s0, universe),
                    decreases f.len() - i,
                {
                    proof {
                        assert(decreases_to!(*value => value->Object_0[i as int].1));
                        assert forall|s: Seq<char>| occurs_str(f@[i as int].1@, s) implies universe.contains(s) by {
                            assert(crate::json::fields_view(f@)[i as int].1 == f@[i as int].1@);
                            lemma_occurs_in_field(crate::json::fields_view(f@), i as int, s);
                        }
                    }
                    let c = self.walk(&f[i].1, nd, stack, Ghost(universe));
                    out.push((f[i].0.clone(), c));
                    i = i + 1;
                }
                proof {
                    lemma_object_view(out);
                    let fv = crate::json::fields_view(f@);
                    assert(i == f.len());
                    assert(forall|k: int| 0 <= k < f.len() ==> out@[k].0@ == f@[k].0@);
                    assert forall|k: int| 0 <= k < fv.len() implies crate::json::fields_view(out@)[k]
                        == (fv[k].0, expand(self.root@, self.opts.max_depth, fv[k].1, next_depth(depth), s0, universe)) by {
                        assert(out@[k].0@ == f@[k].0@ && out@[k].1@ == expand(self.root@, self.opts.max_depth, f@[k].1@, nd, s0, universe));
                    }
                    assert(s0 == stack_set(old(stack)@));
                    let e = expand(self.root@, self.opts.max_depth, value@, depth, s0, universe);
                    assert(e is Object);
                    assert(e->Object_0.len() == fv.len());
                    assert(crate::json::fields_view(out@) =~= e->Object_0);
                    assert(e == JsonV::Object(e->Object_0));
                }
                let res = Json::Object(out);
                assert(res@ == expand(self.root@, self.opts.max_depth, value@, depth, stack_set(old(stack)@), universe));
                res
            },
            Json::Array(a) => {
                proof {
                    lemma_array_view(*a);
                }
                let mut out: Vec<Json> = Vec::new();
                let mut i: usize = 0;
                while i < a.len()
                    invariant
                        i <= a.len(),
                        *value == Json::Array(*a),
                        out@.len() == i,
                        stack_set(stack@) == s0,
                        stack@ == old(stack)@,
                        universe.finite(),
                        forall|s: Seq<char>| occurs_str(self.root@, s) ==> universe.contains(s),
                        forall|s: Seq<char>| occurs_str(value@, s) ==> universe.contains(s),
                        value@ == JsonV::Array(crate::json::elems_view(a@)),
                        !(self.opts.max_depth is Some && depth > self.opts.max_depth->0),
                        forall|k: int| 0 <= k < i ==> #[trigger] out@[k]@
                            == expand(self.root@, self.opts.max_depth, a@[k]@, nd, s0, universe),
                    decreases a.len() - i,
                {
                    proof {
                        assert(decreases_to!(*value => value->Array_0[i as int]));
                        assert forall|s: Seq<char>| occurs_str(a@[i as int]@, s) implies universe.contains(s) by {
                            assert(crate::json::elems_view(a@)[i as int] == a@[i as int]@);
                            lemma_occurs_in_elem(crate::json::elems_view(a@), i as int, s);
                        }
                    }
                    let c = self.walk(&a[i], nd, stack, Ghost(universe));
                    out.push(c);
                    i = i + 1;
                }
                proof {
                    lemma_array_view(out);
                    let av = crate::json::elems_view(a@);
                    assert forall|k: int| 0 <= k < av.len() implies crate::json::elems_view(out@)[k]
                        == expand(self.root@, self.opts.max_depth, av[k], next_depth(depth), s0, universe) by {
                        assert(out@[k]@ == expand(self.root@, self.opts.max_depth, a@[k]@, nd, s0, universe));
                    }
                    let e = expand(self.root@, self.opts.max_depth, value@, depth, s0, universe);
                    assert(e is Array);
                    assert(e->Array_0.len() == av.len());
                    assert(crate::json::elems_view(out@) =~= e->Array_0);
                }
                Json::Array(out)
            },
            other => other.deep_clone(),
        }
    }

    fn expand_ref(&self, value: &Json, r: &String, nd: usize, stack: &mut Vec<String>, Ghost(universe): Ghost<Set<Seq<char>>>) -> (out: Json)
        requires
            universe.finite(),
            universe.contains(r@),
            forall|s: Seq<char>| occurs_str(self.root@, s) ==> universe.contains(s),
        ensures
            final(stack)@ == old(stack)@,
            out@ == (if stack_set(old(stack)@).contains(r@) {
                marker("$circular_ref"@, r@)
            } else if r@.len() == 0 || r@[0] != '#' {
                marker("$ref"@, r@)
            } else {
                match pointer_of(self.root@, r@.drop_first()) {
                    None => marker("$unresolved_ref"@, r@),
                    Some(t) => expand(self.root@, self.opts.max_depth, t, nd, stack_set(old(stack)@).insert(r@), universe),
                }
            }),
        decreases universe.difference(stack_set(old(stack)@)).len(), *value, 0nat,
    {
        if Self::in_stack(stack, r) {
            return marker_json("$circular_ref", r);
        }
        let cs = chars_of(r.as_str());
        if cs.len() == 0 || cs[0] != '#' {
            return marker_json("$ref", r);
        }
        let p = string_from(&cs, 1);
        assert(p@ == r@.drop_first());
        match self.root.pointer(p.as_str()) {
            None => marker_json("$unresolved_ref", r),
            Some(target) => {
                proof {
                    lemma_pointer_occurs(self.root@, p@);
                    lemma_difference_shrinks(universe, stack_set(stack@), r@);
                }
                let ghost s0 = stack@;
                stack.push(r.clone());
                assert forall|x: Seq<char>| #[trigger] stack_set(stack@).contains(x) <==> stack_set(s0).insert(r@).contains(x) by {
                    if stack_set(s0).contains(x) {
                        let k = choose|k: int| 0 <= k < s0.len() && s0[k]@ == x;
                        assert(stack@[k] == s0[k]);
                    }
                    if x == r@ {
                        assert(stack@[s0.len() as int]@ == r@);
                    }
                    if stack_set(stack@).contains(x) {
                        let k = choose|k: int| 0 <= k < stack@.len() && stack@[k]@ == x;
                        if k < s0.len() {
                            assert(s0[k] == stack@[k]);
                        }
                    }
                }
                assert(stack_set(stack@) =~= stack_set(s0).insert(r@));
                let res = self.walk(target, nd, stack, Ghost(universe));
                stack.pop();
                assert(stack@ =~= s0);
                res
            },
        }
    }
}

/// A one-member object `{key: r}`.
fn marker_json(key: &str, r: &String) -> (out: Json)
    ensures
        out@ == marker(key@, r@),
{
    let mut f: Vec<(String, Json)> = Vec::new();
    f.push((owned(key), Json::Str(r.clone())));
    proof {
        lemma_object_view(f);
        assert(crate::json::fields_view(f@) =~= seq![(key@, JsonV::Str(r@))]);
    }
    Json::Object(f)
}

pub proof fn lemma_children_contain(v: JsonV, n: int, i: int, s: Seq<char>)
    requires
        0 <= i < n <= child_count(v),
        occurs_str(child(v, i), s),
    ensures
        strings_of_children(v, n).contains(s),
    decreases n,
{
    let prev = strings_of_children(v, n - 1);
    let last = strings_of(child(v, n - 1));
    assert(strings_of_children(v, n) == prev + last);
    if i == n - 1 {
        let k = choose|k: int| 0 <= k < last.len() && last[k] == s;
        assert((prev + last)[prev.len() + k] == s);
    } else {
        lemma_children_contain(v, n - 1, i, s);
        let k = choose|k: int| 0 <= k < prev.len() && prev[k] == s;
        assert((prev + last)[k] == s);
    }
}

pub proof fn lemma_occurs_in_field(f: Seq<(Seq<char>, JsonV)>, i: int, s: Seq<char>)
    requires
        0 <= i < f.len(),
        occurs_str(f[i].1, s),
    ensures
        occurs_str(JsonV::Object(f), s),
{
    let v = JsonV::Object(f);
    assert(child(v, i) == f[i].1);
    lemma_children_contain(v, f.len() as int, i, s);
}

pub proof fn lemma_occurs_in_elem(a: Seq<JsonV>, i: int, s: Seq<char>)
    requires
        0 <= i < a.len(),
        occurs_str(a[i], s),
    ensures
        occurs_str(JsonV::Array(a), s),
{
    let v = JsonV::Array(a);
    assert(child(v, i) == a[i]);
    lemma_children_contain(v, a.len() as int, i, s);
}

pub proof fn lemma_lookup_occurs(f: Seq<(Seq<char>, JsonV)>, k: Seq<char>, r: Seq<char>)
    requires
        lookup(f, k) == Some(JsonV::Str(r)),
    ensures
        occurs_str(JsonV::Object(f), r),
{
    lemma_key_index(f, k);
    let i = crate::json::key_index(f, k);
    assert(strings_of(f[i].1) =~= seq![r]);
    assert(strings_of(f[i].1)[0] == r);
    lemma_occurs_in_field(f, i, r);
}

pub proof fn lemma_step_occurs(v: JsonV, tok: Seq<char>)
    ensures
        step(v, tok) matches Some(c) ==> forall|s: Seq<char>| occurs_str(c, s) ==> occurs_str(v, s),
{
    match v {
        JsonV::Object(f) => {
            lemma_key_index(f, tok);
            if let Some(c) = step(v, tok) {
                let i = crate::json::key_index(f, tok);
                assert forall|s: Seq<char>| occurs_str(c, s) implies occurs_str(v, s) by {
                    lemma_occurs_in_field(f, i, s);
                }
            }
        },
        JsonV::Array(a) => {
            if let Some(c) = step(v, tok) {
                let i = crate::pointer::index_token(tok).unwrap() as int;
                assert forall|s: Seq<char>| occurs_str(c, s) implies occurs_str(v, s) by {
                    lemma_occurs_in_elem(a, i, s);
                }
            }
        },
        _ => {},
    }
}

pub proof fn lemma_walk_tokens_occurs(v: JsonV, toks: Seq<Seq<char>>)
    ensures
        walk_tokens(v, toks) matches Some(t) ==> forall|s: Seq<char>| occurs_str(t, s) ==> occurs_str(v, s),
    decreases toks.len(),
{
    if toks.len() > 0 {
        lemma_step_occurs(v, unescape_token(toks[0]));
        if let Some(c) = step(v, unescape_token(toks[0])) {
            lemma_walk_tokens_occurs(c, toks.drop_first());
        }
    }
}

/// What a pointer designates holds only strings of the document.
pub proof fn lemma_pointer_occurs(v: JsonV, p: Seq<char>)
    ensures
        pointer_of(v, p) matches Some(t) ==> forall|s: Seq<char>| occurs_str(t, s) ==> occurs_str(v, s),
{
    if p.len() > 0 && p[0] == '/' {
        lemma_walk_tokens_occurs(v, split_slash(p.drop_first()));
    }
}

/// `v` is an object whose `$ref` member is a string.
pub open spec fn is_ref_object(v: JsonV) -> bool {
    match v {
        JsonV::Object(f) => lookup(f, "$ref"@) matches Some(JsonV::Str(_)),
        _ => false,
    }
}

/// `v` is an object whose `$ref` member is a string that starts with `#`.
pub open spec fn is_internal_ref_object(v: JsonV) -> bool {
    match v {
        JsonV::Object(f) => match lookup(f, "$ref"@) {
            Some(JsonV::Str(r)) => r.len() > 0 && r[0] == '#',
            _ => false,
        },
        _ => false,
    }
}

/// No object in `v` has a string `$ref` member.
pub open spec fn ref_free(v: JsonV) -> bool
    decreases v, child_count(v) + 1,
{
    !is_ref_object(v) && ref_free_children(v, child_count(v) as int)
}

pub open spec fn ref_free_children(v: JsonV, n: int) -> bool
    decreases v, n,
{
    if n <= 0 || n > child_count(v) {
        true
    } else {
        proof {
            match v {
                JsonV::Array(a) => { assert(decreases_to!(v => a[n - 1])); },
                JsonV::Object(f) => { assert(decreases_to!(v => f[n - 1].1)); },
                _ => {},
            }
        }
        ref_free_children(v, n - 1) && ref_free(child(v, n - 1))
    }
}

/// `v` has a `$ref` member whose value is itself a reference into the document (such a
/// value can expand to a string that reads as a new reference).
pub open spec fn has_nested_ref(v: JsonV) -> bool {
    match v {
        JsonV::Object(f) => lookup(f, "$ref"@) matches Some(w) && is_internal_ref_object(w),
        _ => false,
    }
}

/// No `$ref` member in `v` holds a reference into the document.
pub open spec fn refs_not_nested(v: JsonV) -> bool
    decreases v, child_count(v) + 1,
{
    !has_nested_ref(v) && refs_not_nested_children(v, child_count(v) as int)
}

pub open spec fn refs_not_nested_children(v: JsonV, n: int) -> bool
    decreases v, n,
{
    if n <= 0 || n > child_count(v) {
        true
    } else {
        proof {
            match v {
                JsonV::Array(a) => { assert(decreases_to!(v => a[n - 1])); },
                JsonV::Object(f) => { assert(decreases_to!(v => f[n - 1].1)); },
                _ => {},
            }
        }
        refs_not_nested_children(v, n - 1) && refs_not_nested(child(v, n - 1))
    }
}

proof fn lemma_refs_not_nested_children(v: JsonV, n: int)
    requires
        0 <= n <= child_count(v),
    ensures
        refs_not_nested_children(v, n) <==> forall|i: int| 0 <= i < n ==> refs_not_nested(#[trigger] child(v, i)),
    decreases n,
{
    if n > 0 {
        lemma_refs_not_nested_children(v, n - 1);
    }
}

proof fn lemma_walk_tokens_refs(v: JsonV, toks: Seq<Seq<char>>)
    requires
        refs_not_nested(v),
    ensures
        walk_tokens(v, toks) matches Some(t) ==> refs_not_nested(t),
    decreases toks.len(),
{
    if toks.len() > 0 {
        let tok = unescape_token(toks[0]);
        lemma_refs_not_nested_children(v, child_count(v) as int);
        match v {
            JsonV::Object(f) => {
                crate::json::lemma_key_index(f, tok);
                if let Some(c) = step(v, tok) {
                    assert(child(v, crate::json::key_index(f, tok)) == c);
                    lemma_walk_tokens_refs(c, toks.drop_first());
                }
            },
            JsonV::Array(a) => {
                if let Some(c) = step(v, tok) {
                    assert(child(v, crate::pointer::index_token(tok).unwrap() as int) == c);
                    lemma_walk_tokens_refs(c, toks.drop_first());
                }
            },
            _ => {},
        }
    }
}

/// No object in `v` has a string `$ref` member that points into the document.
pub open spec fn no_internal_ref(v: JsonV) -> bool
    decreases v, child_count(v) + 1,
{
    !is_internal_ref_object(v) && no_internal_ref_children(v, child_count(v) as int)
}

pub open spec fn no_internal_ref_children(v: JsonV, n: int) -> bool
    decreases v, n,
{
    if n <= 0 || n > child_count(v) {
        true
    } else {
        proof {
            match v {
                JsonV::Array(a) => { assert(decreases_to!(v => a[n - 1])); },
                JsonV::Object(f) => { assert(decreases_to!(v => f[n - 1].1)); },
                _ => {},
            }
        }
        no_internal_ref_children(v, n - 1) && no_internal_ref(child(v, n - 1))
    }
}

proof fn lemma_ref_free_children(v: JsonV, n: int)
    requires
        0 <= n <= child_count(v),
    ensures
        ref_free_children(v, n) <==> forall|i: int| 0 <= i < n ==> ref_free(#[trigger] child(v, i)),
    decreases n,
{
    if n > 0 {
        lemma_ref_free_children(v, n - 1);
    }
}

proof fn lemma_no_internal_ref_children(v: JsonV, n: int)
    requires
        0 <= n <= child_count(v),
    ensures
        no_internal_ref_children(v, n) <==> forall|i: int| 0 <= i < n ==> no_internal_ref(#[trigger] child(v, i)),
    decreases n,
{
    if n > 0 {
        lemma_no_internal_ref_children(v, n - 1);
    }
}

/// Lookup in a member list whose values were transformed, keys kept.
pub proof fn lemma_lookup_same_keys(f: Seq<(Seq<char>, JsonV)>, g: Seq<(Seq<char>, JsonV)>, k: Seq<char>)
    requires
        f.len() == g.len(),
        forall|i: int| 0 <= i < f.len() ==> #[trigger] f[i].0 == g[i].0,
    ensures
        crate::json::key_index(f, k) == crate::json::key_index(g, k),
    decreases f.len(),
{
    if f.len() > 0 {
        lemma_lookup_same_keys(f.drop_first(), g.drop_first(), k);
    }
}

/// Expanding a value whose `$ref` members are all absent leaves it as it is, when no depth limit applies.
pub proof fn lemma_expand_ref_free(root: JsonV, v: JsonV, depth: usize, stack: Set<Seq<char>>, universe: Set<Seq<char>>)
    requires
        ref_free(v),
    ensures
        expand(root, None, v, depth, stack, universe) == v,
    decreases v,
{
    lemma_ref_free_children(v, child_count(v) as int);
    match v {
        JsonV::Object(f) => {
            let e = expand(root, None, v, depth, stack, universe);
            assert forall|i: int| 0 <= i < f.len() implies e->Object_0[i] == f[i] by {
                assert(child(v, i) == f[i].1);
                assert(decreases_to!(v => f[i].1));
                lemma_expand_ref_free(root, f[i].1, next_depth(depth), stack, universe);
            }
            assert(e->Object_0 =~= f);
        },
        JsonV::Array(a) => {
            let e = expand(root, None, v, depth, stack, universe);
            assert forall|i: int| 0 <= i < a.len() implies e->Array_0[i] == a[i] by {
                assert(child(v, i) == a[i]);
                assert(decreases_to!(v => a[i]));
                lemma_expand_ref_free(root, a[i], next_depth(depth), stack, universe);
            }
            assert(e->Array_0 =~= a);
        },
        _ => {},
    }
}

/// A value that expands to a string is a string or a reference into the document.
proof fn lemma_expand_str_source(root: JsonV, max: Option<usize>, w: JsonV, depth: usize, stack: Set<Seq<char>>, universe: Set<Seq<char>>)
    ensures
        expand(root, max, w, depth, stack, universe) is Str ==> (w is Str || is_internal_ref_object(w)),
{
}

/// After expansion no `$ref` into the document is left: every such reference was
/// inlined, or became a circular, unresolved or truncation marker (for documents in
/// which no `$ref` member holds a reference into the document).
pub proof fn lemma_expand_no_internal_ref(root: JsonV, max: Option<usize>, v: JsonV, depth: usize, stack: Set<Seq<char>>, universe: Set<Seq<char>>)
    requires
        refs_not_nested(root),
        refs_not_nested(v),
    ensures
        no_internal_ref(expand(root, max, v, depth, stack, universe)),
    decreases universe.difference(stack).len(), v,
{
    let e = expand(root, max, v, depth, stack, universe);
    reveal_strlit("$ref");
    reveal_strlit("$circular_ref");
    reveal_strlit("$unresolved_ref");
    reveal_strlit("$truncated_depth");
    lemma_refs_not_nested_children(v, child_count(v) as int);
    if max is Some && depth > max->0 {
        assert(e == truncated(max->0));
        assert("$truncated_depth"@.len() == 16);
        assert("$ref"@.len() == 4);
        assert(e->Object_0[0].0 != "$ref"@);
        crate::json::lemma_key_index_absent(e->Object_0, "$ref"@);
        lemma_no_internal_ref_children(e, 1);
    } else {
        match v {
            JsonV::Object(f) => {
                match lookup(f, "$ref"@) {
                    Some(JsonV::Str(r)) => {
                        if stack.contains(r) || r.len() == 0 || r[0] != '#' || pointer_of(root, r.drop_first()) is None {
                            assert("$circular_ref"@.len() == 13);
                            assert("$unresolved_ref"@.len() == 15);
                            assert("$ref"@.len() == 4);
                            crate::json::lemma_key_index(e->Object_0, "$ref"@);
                            lemma_no_internal_ref_children(e, 1);
                        } else if universe.finite() && universe.contains(r) {
                            lemma_difference_shrinks(universe, stack, r);
                            let t = pointer_of(root, r.drop_first()).unwrap();
                            if r.drop_first().len() > 0 {
                                lemma_walk_tokens_refs(root, split_slash(r.drop_first().drop_first()));
                            }
                            lemma_expand_no_internal_ref(root, max, t, next_depth(depth), stack.insert(r), universe);
                        }
                    },
                    _ => {
                        let g = e->Object_0;
                        assert forall|i: int| 0 <= i < f.len() implies #[trigger] g[i].0 == f[i].0 by {}
                        lemma_lookup_same_keys(f, g, "$ref"@);
                        crate::json::lemma_key_index(f, "$ref"@);
                        let k = crate::json::key_index(f, "$ref"@);
                        if k >= 0 {
                            lemma_expand_str_source(root, max, f[k].1, next_depth(depth), stack, universe);
                            assert(g[k].1 == expand(root, max, f[k].1, next_depth(depth), stack, universe));
                        }
                        assert forall|i: int| 0 <= i < g.len() implies no_internal_ref(#[trigger] child(e, i)) by {
                            assert(child(v, i) == f[i].1);
                            assert(decreases_to!(v => f[i].1));
                            lemma_expand_no_internal_ref(root, max, f[i].1, next_depth(depth), stack, universe);
                        }
                        lemma_no_internal_ref_children(e, g.len() as int);
                    },
                }
            },
            JsonV::Array(a) => {
                let g = e->Array_0;
                assert forall|i: int| 0 <= i < g.len() implies no_internal_ref(#[trigger] child(e, i)) by {
                    assert(child(v, i) == a[i]);
                    assert(decreases_to!(v => a[i]));
                    lemma_expand_no_internal_ref(root, max, a[i], next_depth(depth), stack, universe);
                }
                lemma_no_internal_ref_children(e, g.len() as int);
            },
            _ => {
                lemma_no_internal_ref_children(e, 0);
            },
        }
    }
}

/// Resolving a value that holds no `$ref` gives it back unchanged when no depth limit is set.
pub proof fn law_resolve_keeps_ref_free_values(root: JsonV, v: JsonV, origin: Seq<char>)
    requires
        ref_free(v),
    ensures
        resolved(root, None, v, origin) == v,
{
    lemma_expand_ref_free(root, v, 0, set![origin], universe_of(root, v, origin));
}

/// Resolution leaves no `$ref` that points into the document: each one is inlined or
/// replaced by a `$circular_ref`, `$unresolved_ref` or `$truncated_depth` marker, and
/// external ones stay `{"$ref": ..}` (for documents in which no `$ref` member holds a
/// reference into the document: `{"$ref": {"$ref": "#/x"}}` with `/x` the string `"#/y"`
/// expands to `{"$ref": "#/y"}`).
pub proof fn law_resolve_leaves_no_internal_ref(root: JsonV, max: Option<usize>, v: JsonV, origin: Seq<char>)
    requires
        refs_not_nested(root),
        refs_not_nested(v),
    ensures
        no_internal_ref(resolved(root, max, v, origin)),
{
    lemma_expand_no_internal_ref(root, max, v, 0, set![origin], universe_of(root, v, origin));
}

/// Every string of `v` is in `u`.
pub open spec fn strings_within(v: JsonV, u: Set<Seq<char>>) -> bool {
    forall|s: Seq<char>| occurs_str(v, s) ==> u.contains(s)
}

/// With no depth limit, expansion depends neither on the depth reached nor on the
/// universe used, as long as the universe is finite and holds the strings of the
/// document and of the value.
pub proof fn lemma_expand_independent(
    root: JsonV,
    v: JsonV,
    d1: usize,
    d2: usize,
    stack: Set<Seq<char>>,
    u1: Set<Seq<char>>,
    u2: Set<Seq<char>>,
)
    requires
        u1.finite(),
        u2.finite(),
        u1.subset_of(u2),
        strings_within(root, u1),
        strings_within(v, u1),
    ensures
        expand(root, None, v, d1, stack, u1) == expand(root, None, v, d2, stack, u2),
    decreases u1.difference(stack).len(), v,
{
    match v {
        JsonV::Object(f) => match lookup(f, "$ref"@) {
            Some(JsonV::Str(r)) => {
                if !stack.contains(r) && r.len() > 0 && r[0] == '#' {
                    if let Some(t) = pointer_of(root, r.drop_first()) {
                        lemma_lookup_occurs(f, "$ref"@, r);
                        lemma_pointer_occurs(root, r.drop_first());
                        lemma_difference_shrinks(u1, stack, r);
                        lemma_expand_independent(root, t, next_depth(d1), next_depth(d2), stack.insert(r), u1, u2);
                    }
                }
            },
            _ => {
                let e1 = expand(root, None, v, d1, stack, u1);
                let e2 = expand(root, None, v, d2, stack, u2);
                assert forall|i: int| 0 <= i < f.len() implies e1->Object_0[i] == e2->Object_0[i] by {
                    assert(decreases_to!(v => f[i].1));
                    assert forall|s: Seq<char>| occurs_str(f[i].1, s) implies u1.contains(s) by {
                        lemma_occurs_in_field(f, i, s);
                    }
                    lemma_expand_independent(root, f[i].1, next_depth(d1), next_depth(d2), stack, u1, u2);
                }
                assert(e1->Object_0 =~= e2->Object_0);
            },
        },
        JsonV::Array(a) => {
            let e1 = expand(root, None, v, d1, stack, u1);
            let e2 = expand(root, None, v, d2, stack, u2);
            assert forall|i: int| 0 <= i < a.len() implies e1->Array_0[i] == e2->Array_0[i] by {
                assert(decreases_to!(v => a[i]));
                assert forall|s: Seq<char>| occurs_str(a[i], s) implies u1.contains(s) by {
                    lemma_occurs_in_elem(a, i, s);
                }
                lemma_expand_independent(root, a[i], next_depth(d1), next_depth(d2), stack, u1, u2);
            }
            assert(e1->Array_0 =~= e2->Array_0);
        },
        _ => {},
    }
}

/// With no depth limit, resolving one member of an object gives what resolving the
/// whole object holds under that key (for an object that is not a reference itself).
pub proof fn law_resolve_member_commutes(root: JsonV, f: Seq<(Seq<char>, JsonV)>, k: Seq<char>, origin: Seq<char>)
    requires
        !(lookup(f, "$ref"@) matches Some(JsonV::Str(_))),
        lookup(f, k) is Some,
    ensures
        crate::json::member(resolved(root, None, JsonV::Object(f), origin), k) == Some(
            resolved(root, None, lookup(f, k)->Some_0, origin),
        ),
{
    let v = JsonV::Object(f);
    let uv = universe_of(root, v, origin);
    let e = expand(root, None, v, 0, set![origin], uv);
    let g = e->Object_0;
    assert(g.len() == f.len());
    assert forall|i: int| 0 <= i < f.len() implies #[trigger] f[i].0 == g[i].0 by {}
    lemma_lookup_same_keys(f, g, k);
    lemma_key_index(f, k);
    let i = crate::json::key_index(f, k);
    let w = f[i].1;
    let uw = universe_of(root, w, origin);
    vstd::seq_lib::seq_to_set_is_finite(strings_of(root) + strings_of(v));
    vstd::seq_lib::seq_to_set_is_finite(strings_of(root) + strings_of(w));
    assert forall|s: Seq<char>| uw.contains(s) implies uv.contains(s) by {
        if s != origin {
            let sw = strings_of(root) + strings_of(w);
            assert(sw.contains(s));
            let j = choose|j: int| 0 <= j < sw.len() && sw[j] == s;
            let sv = strings_of(root) + strings_of(v);
            if j < strings_of(root).len() {
                assert(sv[j] == s);
            } else {
                assert(occurs_str(w, s)) by {
                    assert(strings_of(w)[j - strings_of(root).len()] == s);
                }
                lemma_occurs_in_field(f, i, s);
                let m = choose|m: int| 0 <= m < strings_of(v).len() && strings_of(v)[m] == s;
                assert(sv[strings_of(root).len() + m] == s);
            }
            assert(sv.contains(s));
        }
    }
    assert forall|s: Seq<char>| occurs_str(root, s) implies uw.contains(s) by {
        let m = choose|m: int| 0 <= m < strings_of(root).len() && strings_of(root)[m] == s;
        assert((strings_of(root) + strings_of(w))[m] == s);
    }
    assert forall|s: Seq<char>| occurs_str(w, s) implies uw.contains(s) by {
        let m = choose|m: int| 0 <= m < strings_of(w).len() && strings_of(w)[m] == s;
        assert((strings_of(root) + strings_of(w))[strings_of(root).len() + m] == s);
    }
    lemma_expand_independent(root, w, 0, next_depth(0), set![origin], uw, uv);
}

} // verus!
