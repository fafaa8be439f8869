//! `paths`: the path strings of the spec.

use vstd::prelude::*;
use crate::commands::filter::{path_accepted, Glob, PathFilter};
use crate::json::{elems_view, fields_view, lemma_array_view, member, object_of, Json, JsonV};
use crate::matcher::Matcher;

verus! {

/// The keys among the first `n` members that the filter accepts, as JSON strings.
pub open spec fn kept_paths(fs: Seq<(Seq<char>, JsonV)>, globs: Seq<Glob>, regex: Option<Matcher>, n: int) -> Seq<JsonV>
    decreases n,
{
    if n <= 0 {
        Seq::empty()
    } else {
        kept_paths(fs, globs, regex, n - 1) + if path_accepted(globs, regex, fs[n - 1].0) {
            seq![JsonV::Str(fs[n - 1].0)]
        } else {
            Seq::empty()
        }
    }
}

/// The paths `paths` lists: the keys of `paths` the filter accepts, in document order.
pub open spec fn listed_paths(spec: JsonV, globs: Seq<Glob>, regex: Option<Matcher>) -> Seq<JsonV> {
    match object_of(member(spec, "paths"@)) {
        Some(fs) => kept_paths(fs, globs, regex, fs.len() as int),
        None => Seq::empty(),
    }
}

/// `paths`: the keys of the `paths` object that the filter accepts.
pub fn run(spec: &Json, filter: &PathFilter) -> (r: Json)
    ensures
        r@ == JsonV::Array(listed_paths(spec@, filter.globs@, filter.regex)),
{
    let mut out: Vec<Json> = Vec::new();
    let fs = match spec.get("paths") {
        Some(p) => match p.as_object() {
            Some(f) => f,
            None => return crate::json::empty_array(),
        },
        None => return crate::json::empty_array(),
    };
    let ghost fv = fields_view(fs@);
    let mut i: usize = 0;
    while i < fs.len()
        invariant
            i <= fs.len(),
            fv == fields_view(fs@),
            elems_view(out@) == kept_paths(fv, filter.globs@, filter.regex, i as int),
        decreases fs.len() - i,
    {
        let ghost before = out@;
        if filter.accepts(fs[i].0.as_str()) {
            out.push(Json::Str(fs[i].0.clone()));
            assert(elems_view(out@) =~= elems_view(before).push(JsonV::Str(fv[i as int].0)));
        }
        i = i + 1;
    }
    proof {
        lemma_array_view(out);
    }
    Json::Array(out)
}

} // verus!
