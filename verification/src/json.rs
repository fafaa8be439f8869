//! The JSON document model the library works on, and its mathematical view.
//!
//! Objects keep their members in document order (as `serde_json` does with
//! `preserve_order`); a key occurs at most once in documents that come from a
//! parser, and the operations below keep it so.

use vstd::prelude::*;

verus! {

/// A JSON number: an unsigned integer, a negative integer, or the decimal text of
/// any other number (a fraction or an exponent form), kept as written.
#[derive(Debug, PartialEq)]
pub enum Number {
    UInt(u64),
    Int(i64),
    Float(String),
}

#[derive(Debug, PartialEq)]
pub enum Json {
    Null,
    Bool(bool),
    Number(Number),
    Str(String),
    Array(Vec<Json>),
    Object(Vec<(String, Json)>),
}

pub enum NumberV {
    UInt(u64),
    Int(i64),
    Float(Seq<char>),
}

/// The mathematical value of a JSON document.
pub enum JsonV {
    Null,
    Bool(bool),
    Number(NumberV),
    Str(Seq<char>),
    Array(Seq<JsonV>),
    Object(Seq<(Seq<char>, JsonV)>),
}

pub open spec fn number_view(n: Number) -> NumberV {
    match n {
        Number::UInt(u) => NumberV::UInt(u),
        Number::Int(i) => NumberV::Int(i),
        Number::Float(s) => NumberV::Float(s@),
    }
}

pub open spec fn view_of(j: Json) -> JsonV
    decreases j,
{
    match j {
        Json::Null => JsonV::Null,
        Json::Bool(b) => JsonV::Bool(b),
        Json::Number(n) => JsonV::Number(number_view(n)),
        Json::Str(s) => JsonV::Str(s@),
        Json::Array(v) => JsonV::Array(
            Seq::new(v@.len(), |i: int| if 0 <= i < v@.len() { view_of(v@[i]) } else { JsonV::Null }),
        ),
        Json::Object(v) => JsonV::Object(
            Seq::new(
                v@.len(),
                |i: int|
                    if 0 <= i < v@.len() {
                        (v@[i].0@, view_of(v@[i].1))
                    } else {
                        (Seq::empty(), JsonV::Null)
                    },
            ),
        ),
    }
}

impl View for Json {
    type V = JsonV;

    open spec fn view(&self) -> JsonV {
        view_of(*self)
    }
}

impl View for Number {
    type V = NumberV;

    open spec fn view(&self) -> NumberV {
        number_view(*self)
    }
}

/// The view of a member list.
pub open spec fn fields_view(f: Seq<(String, Json)>) -> Seq<(Seq<char>, JsonV)> {
    Seq::new(f.len(), |i: int| (f[i].0@, view_of(f[i].1)))
}

/// The view of an element list.
pub open spec fn elems_view(v: Seq<Json>) -> Seq<JsonV> {
    Seq::new(v.len(), |i: int| view_of(v[i]))
}

pub open spec fn opt_view(o: Option<&Json>) -> Option<JsonV> {
    match o {
        Some(j) => Some(view_of(*j)),
        None => None,
    }
}

pub proof fn lemma_object_view(v: Vec<(String, Json)>)
    ensures
        view_of(Json::Object(v)) == JsonV::Object(fields_view(v@)),
{
    assert(view_of(Json::Object(v))->Object_0 =~= fields_view(v@));
}

pub proof fn lemma_array_view(v: Vec<Json>)
    ensures
        view_of(Json::Array(v)) == JsonV::Array(elems_view(v@)),
{
    assert(view_of(Json::Array(v))->Array_0 =~= elems_view(v@));
}

/// Position of the first member named `k`, or -1.
pub open spec fn key_index(f: Seq<(Seq<char>, JsonV)>, k: Seq<char>) -> int
    decreases f.len(),
{
    if f.len() == 0 {
        -1
    } else if f[0].0 == k {
        0
    } else {
        let r = key_index(f.drop_first(), k);
        if r < 0 {
            -1
        } else {
            r + 1
        }
    }
}

/// The value of the member named `k`.
pub open spec fn lookup(f: Seq<(Seq<char>, JsonV)>, k: Seq<char>) -> Option<JsonV> {
    let i = key_index(f, k);
    if i >= 0 {
        Some(f[i].1)
    } else {
        None
    }
}

/// `v[k]` where `v` is an object; `None` for anything else.
pub open spec fn member(v: JsonV, k: Seq<char>) -> Option<JsonV> {
    match v {
        JsonV::Object(f) => lookup(f, k),
        _ => None,
    }
}

/// The member list of an object.
pub open spec fn object_of(v: Option<JsonV>) -> Option<Seq<(Seq<char>, JsonV)>> {
    match v {
        Some(JsonV::Object(f)) => Some(f),
        _ => None,
    }
}

/// The elements of an array.
pub open spec fn array_of(v: Option<JsonV>) -> Option<Seq<JsonV>> {
    match v {
        Some(JsonV::Array(a)) => Some(a),
        _ => None,
    }
}

/// The characters of a string.
pub open spec fn str_of(v: Option<JsonV>) -> Option<Seq<char>> {
    match v {
        Some(JsonV::Str(s)) => Some(s),
        _ => None,
    }
}

/// The boolean of a bool.
pub open spec fn bool_of(v: Option<JsonV>) -> Option<bool> {
    match v {
        Some(JsonV::Bool(b)) => Some(b),
        _ => None,
    }
}

/// `Some(x)` where `x` is not `null`.
pub open spec fn non_null(v: Option<JsonV>) -> Option<JsonV> {
    match v {
        Some(JsonV::Null) => None,
        other => other,
    }
}

/// `IndexMap::insert`: replace the value in place when the key is present, else append.
pub open spec fn insert_field(f: Seq<(Seq<char>, JsonV)>, k: Seq<char>, v: JsonV) -> Seq<(Seq<char>, JsonV)> {
    let i = key_index(f, k);
    if i >= 0 {
        f.update(i, (k, v))
    } else {
        f.push((k, v))
    }
}

/// `IndexMap::shift_remove`: remove the member named `k`, keeping the order of the others.
pub open spec fn remove_field(f: Seq<(Seq<char>, JsonV)>, k: Seq<char>) -> Seq<(Seq<char>, JsonV)> {
    let i = key_index(f, k);
    if i >= 0 {
        f.remove(i)
    } else {
        f
    }
}

/// `IndexMap::swap_remove` (what `serde_json::Map::remove` does with `preserve_order`):
/// the member named `k` is replaced by the last member, which is then dropped.
pub open spec fn swap_remove_field(f: Seq<(Seq<char>, JsonV)>, k: Seq<char>) -> Seq<(Seq<char>, JsonV)> {
    let i = key_index(f, k);
    if i >= 0 {
        f.update(i, f.last()).drop_last()
    } else {
        f
    }
}

/// No key occurs twice in a member list.
pub open spec fn unique_keys(f: Seq<(Seq<char>, JsonV)>) -> bool {
    forall|i: int, j: int| 0 <= i < j < f.len() ==> f[i].0 != f[j].0
}

pub proof fn lemma_key_index(f: Seq<(Seq<char>, JsonV)>, k: Seq<char>)
    ensures
        -1 <= key_index(f, k) < f.len(),
        key_index(f, k) >= 0 ==> f[key_index(f, k)].0 == k,
        forall|j: int| 0 <= j < key_index(f, k) ==> f[j].0 != k,
        key_index(f, k) == -1 ==> forall|j: int| 0 <= j < f.len() ==> f[j].0 != k,
    decreases f.len(),
{
    if f.len() > 0 && f[0].0 != k {
        lemma_key_index(f.drop_first(), k);
        assert forall|j: int| 0 < j < f.len() implies f[j].0 == f.drop_first()[j - 1].0 by {}
    }
}

/// Characterizes `key_index` by the first matching position.
pub proof fn lemma_key_index_at(f: Seq<(Seq<char>, JsonV)>, k: Seq<char>, i: int)
    requires
        0 <= i < f.len(),
        f[i].0 == k,
        forall|j: int| 0 <= j < i ==> f[j].0 != k,
    ensures
        key_index(f, k) == i,
{
    lemma_key_index(f, k);
}

pub proof fn lemma_key_index_absent(f: Seq<(Seq<char>, JsonV)>, k: Seq<char>)
    requires
        forall|j: int| 0 <= j < f.len() ==> f[j].0 != k,
    ensures
        key_index(f, k) == -1,
{
    lemma_key_index(f, k);
}

/// A key that no member of `a` has is looked up in what follows `a`.
pub proof fn lemma_lookup_skip(a: Seq<(Seq<char>, JsonV)>, b: Seq<(Seq<char>, JsonV)>, k: Seq<char>)
    requires
        forall|i: int| 0 <= i < a.len() ==> a[i].0 != k,
    ensures
        lookup(a + b, k) == lookup(b, k),
{
    lemma_key_index(b, k);
    let j = key_index(b, k);
    if j >= 0 {
        assert((a + b)[a.len() + j] == b[j]);
        assert forall|i: int| 0 <= i < a.len() + j implies (a + b)[i].0 != k by {
            if i >= a.len() {
                assert((a + b)[i] == b[i - a.len()]);
            }
        }
        lemma_key_index_at(a + b, k, a.len() + j);
    } else {
        assert forall|i: int| 0 <= i < (a + b).len() implies (a + b)[i].0 != k by {
            if i >= a.len() {
                assert((a + b)[i] == b[i - a.len()]);
            }
        }
        lemma_key_index_absent(a + b, k);
    }
}

/// The first member is found by its key.
pub proof fn lemma_lookup_first(k: Seq<char>, v: JsonV, rest: Seq<(Seq<char>, JsonV)>)
    ensures
        lookup(seq![(k, v)] + rest, k) == Some(v),
{
    let f = seq![(k, v)] + rest;
    assert(f[0] == (k, v));
    lemma_key_index_at(f, k, 0);
}

/// Looks up a member of a member list.
pub fn field_get<'a>(f: &'a Vec<(String, Json)>, k: &str) -> (r: Option<&'a Json>)
    ensures
        opt_view(r) == lookup(fields_view(f@), k@),
        r matches Some(x) ==> exists|i: int| 0 <= i < f@.len() && f@[i].1 == *x,
{
    let key = crate::text::owned(k);
    let mut i: usize = 0;
    while i < f.len()
        invariant
            i <= f.len(),
            key@ == k@,
            forall|j: int| 0 <= j < i ==> f@[j].0@ != k@,
        decreases f.len() - i,
    {
        if f[i].0 == key {
            proof {
                lemma_key_index_at(fields_view(f@), k@, i as int);
            }
            return Some(&f[i].1);
        }
        i = i + 1;
    }
    proof {
        lemma_key_index_absent(fields_view(f@), k@);
    }
    None
}

/// Inserts a member (`IndexMap::insert`).
pub fn field_insert(f: &mut Vec<(String, Json)>, k: String, v: Json)
    ensures
        fields_view(final(f)@) == insert_field(fields_view(old(f)@), k@, v@),
{
    let mut i: usize = 0;
    while i < f.len()
        invariant
            i <= f.len(),
            f@ == old(f)@,
            forall|j: int| 0 <= j < i ==> f@[j].0@ != k@,
        decreases f.len() - i,
    {
        if f[i].0 == k {
            proof {
                lemma_key_index_at(fields_view(f@), k@, i as int);
            }
            let ghost kv = k@;
            let ghost vv = v@;
            f.set(i, (k, v));
            assert(fields_view(f@) =~= fields_view(old(f)@).update(i as int, (kv, vv)));
            return;
        }
        i = i + 1;
    }
    proof {
        lemma_key_index_absent(fields_view(f@), k@);
    }
    let ghost kv = k@;
    let ghost vv = v@;
    f.push((k, v));
    assert(fields_view(f@) =~= fields_view(old(f)@).push((kv, vv)));
}

/// Removes a member, keeping the order of the others (`IndexMap::shift_remove`).
pub fn field_remove(f: &mut Vec<(String, Json)>, k: &str) -> (r: Option<Json>)
    ensures
        fields_view(final(f)@) == remove_field(fields_view(old(f)@), k@),
        r matches Some(x) ==> lookup(fields_view(old(f)@), k@) == Some(x@),
        r is None ==> lookup(fields_view(old(f)@), k@) is None,
{
    let key = crate::text::owned(k);
    let mut i: usize = 0;
    while i < f.len()
        invariant
            i <= f.len(),
            f@ == old(f)@,
            key@ == k@,
            forall|j: int| 0 <= j < i ==> f@[j].0@ != k@,
        decreases f.len() - i,
    {
        if f[i].0 == key {
            proof {
                lemma_key_index_at(fields_view(f@), k@, i as int);
            }
            let (_, v) = f.remove(i);
            assert(fields_view(f@) =~= fields_view(old(f)@).remove(i as int));
            return Some(v);
        }
        i = i + 1;
    }
    proof {
        lemma_key_index_absent(fields_view(f@), k@);
    }
    None
}

/// Removes a member the way `serde_json::Map::remove` does with `preserve_order`: the
/// last member takes its place.
pub fn field_swap_remove(f: &mut Vec<(String, Json)>, k: &str) -> (r: Option<Json>)
    ensures
        fields_view(final(f)@) == swap_remove_field(fields_view(old(f)@), k@),
        r matches Some(x) ==> lookup(fields_view(old(f)@), k@) == Some(x@),
        r is None ==> lookup(fields_view(old(f)@), k@) is None,
{
    let key = crate::text::owned(k);
    let mut i: usize = 0;
    while i < f.len()
        invariant
            i <= f.len(),
            f@ == old(f)@,
            key@ == k@,
            forall|j: int| 0 <= j < i ==> f@[j].0@ != k@,
        decreases f.len() - i,
    {
        if f[i].0 == key {
            proof {
                lemma_key_index_at(fields_view(f@), k@, i as int);
            }
            let (_, v) = f.swap_remove(i);
            assert(fields_view(f@) =~= fields_view(old(f)@).update(i as int, fields_view(old(f)@).last()).drop_last());
            return Some(v);
        }
        i = i + 1;
    }
    proof {
        lemma_key_index_absent(fields_view(f@), k@);
    }
    None
}

impl Json {
    /// `v[key]` for an object; `None` for anything else or a missing key.
    pub fn get(&self, key: &str) -> (r: Option<&Json>)
        ensures
            opt_view(r) == member(self@, key@),
    {
        match self {
            Json::Object(f) => {
                proof {
                    lemma_object_view(*f);
                }
                field_get(f, key)
            },
            _ => None,
        }
    }

    pub fn as_object(&self) -> (r: Option<&Vec<(String, Json)>>)
        ensures
            r matches Some(f) ==> self@ == JsonV::Object(fields_view(f@)),
            r is None <==> !(self@ is Object),
    {
        match self {
            Json::Object(f) => {
                proof {
                    lemma_object_view(*f);
                }
                Some(f)
            },
            _ => None,
        }
    }

    pub fn as_array(&self) -> (r: Option<&Vec<Json>>)
        ensures
            r matches Some(v) ==> self@ == JsonV::Array(elems_view(v@)),
            r is None <==> !(self@ is Array),
    {
        match self {
            Json::Array(v) => {
                proof {
                    lemma_array_view(*v);
                }
                Some(v)
            },
            _ => None,
        }
    }

    pub fn as_str(&self) -> (r: Option<&String>)
        ensures
            r matches Some(s) ==> self@ == JsonV::Str(s@),
            r is None <==> !(self@ is Str),
    {
        match self {
            Json::Str(s) => Some(s),
            _ => None,
        }
    }

    pub fn as_bool(&self) -> (r: Option<bool>)
        ensures
            r matches Some(b) ==> self@ == JsonV::Bool(b),
            r is None <==> !(self@ is Bool),
    {
        match self {
            Json::Bool(b) => Some(*b),
            _ => None,
        }
    }

    pub fn is_null(&self) -> (r: bool)
        ensures
            r == (self@ is Null),
    {
        match self {
            Json::Null => true,
            _ => false,
        }
    }

    /// A copy of the value.
    pub fn deep_clone(&self) -> (r: Json)
        ensures
            r@ == self@,
        decreases self,
    {
        match self {
            Json::Null => Json::Null,
            Json::Bool(b) => Json::Bool(*b),
            Json::Number(n) => Json::Number(
                match n {
                    Number::UInt(u) => Number::UInt(*u),
                    Number::Int(i) => Number::Int(*i),
                    Number::Float(s) => Number::Float(s.clone()),
                },
            ),
            Json::Str(s) => Json::Str(s.clone()),
            Json::Array(v) => {
                let mut out: Vec<Json> = Vec::new();
                let mut i: usize = 0;
                while i < v.len()
                    invariant
                        i <= v.len(),
                        out@.len() == i,
                        *self == Json::Array(*v),
                        forall|k: int| 0 <= k < i ==> #[trigger] view_of(out@[k]) == view_of(v@[k]),
                    decreases v.len() - i,
                {
                    assert(decreases_to!(*self => self->Array_0[i as int]));
                    let c = v[i].deep_clone();
                    out.push(c);
                    i = i + 1;
                }
                proof {
                    lemma_array_view(out);
                    lemma_array_view(*v);
                    assert(elems_view(out@) =~= elems_view(v@));
                }
                Json::Array(out)
            },
            Json::Object(v) => {
                let f = clone_fields_of(self, v);
                proof {
                    lemma_object_view(f);
                    lemma_object_view(*v);
                }
                Json::Object(f)
            },
        }
    }
}

fn clone_fields_of(whole: &Json, v: &Vec<(String, Json)>) -> (r: Vec<(String, Json)>)
    requires
        *whole == Json::Object(*v),
    ensures
        fields_view(r@) == fields_view(v@),
    decreases whole, 0nat,
{
    let mut out: Vec<(String, Json)> = Vec::new();
    let mut i: usize = 0;
    while i < v.len()
        invariant
            i <= v.len(),
            out@.len() == i,
            *whole == Json::Object(*v),
            forall|k: int|
                0 <= k < i ==> #[trigger] out@[k].0@ == v@[k].0@ && view_of(out@[k].1) == view_of(v@[k].1),
        decreases v.len() - i,
    {
        assert(decreases_to!(*whole => whole->Object_0[i as int].1));
        let c = v[i].1.deep_clone();
        out.push((v[i].0.clone(), c));
        i = i + 1;
    }
    assert(fields_view(out@) =~= fields_view(v@));
    out
}

/// A copy of a member list.
pub fn clone_fields(v: &Vec<(String, Json)>) -> (r: Vec<(String, Json)>)
    ensures
        fields_view(r@) == fields_view(v@),
{
    let mut out: Vec<(String, Json)> = Vec::new();
    let mut i: usize = 0;
    while i < v.len()
        invariant
            i <= v.len(),
            out@.len() == i,
            forall|k: int|
                0 <= k < i ==> #[trigger] out@[k].0@ == v@[k].0@ && view_of(out@[k].1) == view_of(v@[k].1),
        decreases v.len() - i,
    {
        let c = v[i].1.deep_clone();
        out.push((v[i].0.clone(), c));
        i = i + 1;
    }
    assert(fields_view(out@) =~= fields_view(v@));
    out
}

/// The keys of a member list as JSON strings.
pub open spec fn key_values(f: Seq<(Seq<char>, JsonV)>) -> Seq<JsonV> {
    Seq::new(f.len(), |i: int| JsonV::Str(f[i].0))
}

/// The keys of a member list as a JSON array.
pub fn key_array(f: &Vec<(String, Json)>) -> (r: Json)
    ensures
        r@ == JsonV::Array(key_values(fields_view(f@))),
{
    let mut out: Vec<Json> = Vec::new();
    let mut i: usize = 0;
    while i < f.len()
        invariant
            i <= f.len(),
            out@.len() == i,
            forall|k: int| 0 <= k < i ==> #[trigger] view_of(out@[k]) == JsonV::Str(f@[k].0@),
        decreases f.len() - i,
    {
        out.push(Json::Str(f[i].0.clone()));
        i = i + 1;
    }
    proof {
        lemma_array_view(out);
    }
    assert(elems_view(out@) =~= key_values(fields_view(f@)));
    Json::Array(out)
}

/// An empty JSON array.
pub fn empty_array() -> (r: Json)
    ensures
        r@ == JsonV::Array(Seq::empty()),
{
    let v: Vec<Json> = Vec::new();
    proof {
        lemma_array_view(v);
    }
    assert(elems_view(v@) =~= Seq::<JsonV>::empty());
    Json::Array(v)
}

/// A JSON string value.
pub fn jstr(s: &str) -> (r: Json)
    ensures
        r@ == JsonV::Str(s@),
{
    Json::Str(crate::text::owned(s))
}

/// A copy of an optional value, `null` when absent.
pub fn cloned_or_null(o: Option<&Json>) -> (r: Json)
    ensures
        r@ == match opt_view(o) {
            Some(x) => x,
            None => JsonV::Null,
        },
{
    match o {
        Some(x) => x.deep_clone(),
        None => Json::Null,
    }
}

} // verus!
