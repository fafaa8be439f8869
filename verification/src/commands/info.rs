//! `info`: the fields of the spec's `info` object.

use vstd::prelude::*;
use crate::json::{fields_view, lemma_object_view, member, non_null, Json, JsonV};
use crate::text::owned;

verus! {

/// The keys `info` shows, in order.
pub open spec fn info_key(i: int) -> Seq<char> {
    if i == 0 {
        "title"@
    } else if i == 1 {
        "version"@
    } else if i == 2 {
        "description"@
    } else if i == 3 {
        "contact"@
    } else {
        "license"@
    }
}

fn info_key_at(i: usize) -> (r: &'static str)
    requires
        i < 5,
    ensures
        r@ == info_key(i as int),
{
    if i == 0 {
        "title"
    } else if i == 1 {
        "version"
    } else if i == 2 {
        "description"
    } else if i == 3 {
        "contact"
    } else {
        "license"
    }
}

/// The `info` object of the spec, when it is an object.
pub open spec fn info_object(spec: JsonV) -> JsonV {
    match member(spec, "info"@) {
        Some(JsonV::Object(f)) => JsonV::Object(f),
        _ => JsonV::Null,
    }
}

/// The first `n` shown members: present non-null values, or `null` with `show_null`.
pub open spec fn info_members(spec: JsonV, show_null: bool, n: int) -> Seq<(Seq<char>, JsonV)>
    decreases n,
{
    if n <= 0 {
        Seq::empty()
    } else {
        let k = info_key(n - 1);
        info_members(spec, show_null, n - 1) + match non_null(member(info_object(spec), k)) {
            Some(v) => seq![(k, v)],
            None => if show_null {
                seq![(k, JsonV::Null)]
            } else {
                Seq::empty()
            },
        }
    }
}

/// `info`: title, version, description, contact and license of the `info` object, each
/// when present and not `null` (as `null` with `show_null`).
pub fn run(spec: &Json, show_null: bool) -> (r: Json)
    ensures
        r@ == JsonV::Object(info_members(spec@, show_null, 5)),
{
    let info = match spec.get("info") {
        Some(v) => match v {
            Json::Object(_) => Some(v),
            _ => None,
        },
        None => None,
    };
    let mut out: Vec<(String, Json)> = Vec::new();
    let mut i: usize = 0;
    while i < 5
        invariant
            i <= 5,
            match info {
                Some(v) => v@ == info_object(spec@),
                None => info_object(spec@) == JsonV::Null,
            },
            fields_view(out@) == info_members(spec@, show_null, i as int),
        decreases 5 - i,
    {
        let key = info_key_at(i);
        let value = match info {
            Some(o) => match o.get(key) {
                Some(v) => if v.is_null() {
                    None
                } else {
                    Some(v)
                },
                None => None,
            },
            None => None,
        };
        let ghost before = out@;
        match value {
            Some(v) => {
                let c = v.deep_clone();
                out.push((owned(key), c));
                assert(fields_view(out@) =~= fields_view(before) + seq![(key@, v@)]);
            },
            None => {
                if show_null {
                    out.push((owned(key), Json::Null));
                    assert(fields_view(out@) =~= fields_view(before) + seq![(key@, JsonV::Null)]);
                }
            },
        }
        i = i + 1;
    }
    proof {
        lemma_object_view(out);
    }
    Json::Object(out)
}

/// With `show_null`, `info` has every one of its five keys, in order, `null` where absent.
pub proof fn law_info_show_null_has_every_key(spec: JsonV)
    ensures
        info_members(spec, true, 5).len() == 5,
        forall|i: int| 0 <= i < 5 ==> (#[trigger] info_members(spec, true, 5)[i]).0 == info_key(i),
{
    lemma_info_members_full(spec, 5);
}

proof fn lemma_info_members_full(spec: JsonV, n: int)
    requires
        0 <= n <= 5,
    ensures
        info_members(spec, true, n).len() == n,
        forall|i: int| 0 <= i < n ==> (#[trigger] info_members(spec, true, n)[i]).0 == info_key(i),
    decreases n,
{
    if n > 0 {
        lemma_info_members_full(spec, n - 1);
        let prev = info_members(spec, true, n - 1);
        assert forall|i: int| 0 <= i < n implies (#[trigger] info_members(spec, true, n)[i]).0 == info_key(i) by {
            if i < n - 1 {
                assert(info_members(spec, true, n)[i] == prev[i]);
            }
        }
    }
}

} // verus!
