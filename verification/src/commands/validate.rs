//! `validate`: structural validation of an OpenAPI 3.x spec with the `oas3` crate.

use vstd::prelude::*;
use crate::commands::request::or_null;
use crate::commands::search::{escape, escape_token};
use crate::encode::{json_text, to_json_text};
use crate::error::OadigError;
use crate::json::{fields_view, jstr, lemma_array_view, lemma_object_view, member, elems_view, Json, JsonV};
use crate::text::{decimal, decimal_string, owned, push_str};

verus! {

/// One step of the path to where deserialization failed.
#[derive(Debug)]
pub enum PathSegment {
    Index(usize),
    Key(String),
    Variant(String),
    Unknown,
}

pub enum SegmentV {
    Index(usize),
    Key(Seq<char>),
    Variant(Seq<char>),
    Unknown,
}

impl View for PathSegment {
    type V = SegmentV;

    open spec fn view(&self) -> SegmentV {
        match self {
            PathSegment::Index(i) => SegmentV::Index(*i),
            PathSegment::Key(k) => SegmentV::Key(k@),
            PathSegment::Variant(v) => SegmentV::Variant(v@),
            PathSegment::Unknown => SegmentV::Unknown,
        }
    }
}

pub open spec fn segments_view(p: Seq<PathSegment>) -> Seq<SegmentV> {
    Seq::new(p.len(), |i: int| p[i]@)
}

/// What deserializing a JSON text as an `oas3::Spec` (through `serde_path_to_error`)
/// gives: `None` when it succeeds, else the path to the failure and the error's text.
pub uninterp spec fn oas3_outcome(text: Seq<char>) -> Option<(Seq<SegmentV>, Seq<char>)>;

pub open spec fn outcome_view(r: Option<(Vec<PathSegment>, String)>) -> Option<(Seq<SegmentV>, Seq<char>)> {
    match r {
        Some((p, m)) => Some((segments_view(p@), m@)),
        None => None,
    }
}

/// Deserializes `text` as an `oas3::Spec` with `serde_path_to_error::deserialize` over a
/// `serde_json::Deserializer`. The contract claims the named outcome for the text: the
/// path segments of the error, one for one, and the `Display` text of its inner error.
#[verifier::external_body]
fn check_oas3(text: &str) -> (r: Option<(Vec<PathSegment>, String)>)
    ensures
        outcome_view(r) == oas3_outcome(text@),
{
    let de = &mut serde_json::Deserializer::from_str(text);
    match serde_path_to_error::deserialize::<_, oas3::Spec>(de) {
        Ok(_) => None,
        Err(e) => Some((e.path().iter().map(|s| match s {
            serde_path_to_error::Segment::Seq { index } => PathSegment::Index(*index),
            serde_path_to_error::Segment::Map { key } => PathSegment::Key(key.clone()),
            serde_path_to_error::Segment::Enum { variant } => PathSegment::Variant(variant.clone()),
            serde_path_to_error::Segment::Unknown => PathSegment::Unknown,
        }).collect(), format!("{}", e.inner()))),
    }
}

/// The JSON Pointer text of one step.
pub open spec fn segment_text(s: SegmentV) -> Seq<char> {
    match s {
        SegmentV::Key(k) => "/"@ + escape(k),
        SegmentV::Index(i) => "/"@ + decimal(i as nat),
        SegmentV::Variant(v) => "/"@ + v,
        SegmentV::Unknown => "/?"@,
    }
}

/// The RFC 6901 pointer of a path.
pub open spec fn path_pointer(p: Seq<SegmentV>) -> Seq<char>
    decreases p.len(),
{
    if p.len() == 0 {
        Seq::empty()
    } else {
        path_pointer(p.drop_last()) + segment_text(p.last())
    }
}

/// Turns a deserialization path into a JSON Pointer.
pub fn to_pointer(path: &Vec<PathSegment>) -> (r: String)
    ensures
        r@ == path_pointer(segments_view(path@)),
{
    let ghost pv = segments_view(path@);
    let mut out = String::new();
    let mut i: usize = 0;
    assert(pv.take(0) =~= Seq::<SegmentV>::empty());
    while i < path.len()
        invariant
            i <= path.len(),
            pv == segments_view(path@),
            out@ == path_pointer(pv.take(i as int)),
        decreases path.len() - i,
    {
        assert(pv.take(i + 1).drop_last() =~= pv.take(i as int));
        let ghost before = out@;
        match &path[i] {
            PathSegment::Key(key) => {
                push_str(&mut out, "/");
                let e = escape_token(key.as_str());
                push_str(&mut out, e.as_str());
            },
            PathSegment::Index(index) => {
                push_str(&mut out, "/");
                let d = decimal_string(*index as u64);
                push_str(&mut out, d.as_str());
            },
            PathSegment::Variant(variant) => {
                push_str(&mut out, "/");
                push_str(&mut out, variant.as_str());
            },
            PathSegment::Unknown => {
                push_str(&mut out, "/?");
            },
        }
        assert(out@ =~= before + segment_text(pv[i as int]));
        i = i + 1;
    }
    assert(pv.take(path@.len() as int) =~= pv);
    out
}

/// The report for an OpenAPI 3.x spec of the given version and a deserialization outcome.
pub open spec fn report_view(version: JsonV, outcome: Option<(Seq<SegmentV>, Seq<char>)>) -> JsonV {
    match outcome {
        None => JsonV::Object(seq![("valid"@, JsonV::Bool(true)), ("version"@, version)]),
        Some((p, m)) => JsonV::Object(
            seq![
                ("valid"@, JsonV::Bool(false)),
                ("version"@, version),
                (
                    "errors"@,
                    JsonV::Array(
                        seq![JsonV::Object(seq![("pointer"@, JsonV::Str(path_pointer(p))), ("message"@, JsonV::Str(m))])],
                    ),
                ),
            ],
        ),
    }
}

/// Builds the report from the outcome of deserialization.
pub fn validation_report(version: Json, outcome: &Option<(Vec<PathSegment>, String)>) -> (r: Json)
    ensures
        r@ == report_view(version@, outcome_view(*outcome)),
{
    let ghost vv = version@;
    let mut out: Vec<(String, Json)> = Vec::new();
    match outcome {
        None => {
            out.push((owned("valid"), Json::Bool(true)));
            out.push((owned("version"), version));
            proof {
                lemma_object_view(out);
            }
            assert(fields_view(out@) =~= seq![("valid"@, JsonV::Bool(true)), ("version"@, vv)]);
        },
        Some((p, m)) => {
            let mut e: Vec<(String, Json)> = Vec::new();
            e.push((owned("pointer"), Json::Str(to_pointer(p))));
            e.push((owned("message"), Json::Str(m.clone())));
            proof {
                lemma_object_view(e);
            }
            assert(fields_view(e@) =~= seq![("pointer"@, JsonV::Str(path_pointer(segments_view(p@)))), ("message"@, JsonV::Str(m@))]);
            let eo = Json::Object(e);
            let ghost eov = eo@;
            let mut errs: Vec<Json> = Vec::new();
            errs.push(eo);
            proof {
                lemma_array_view(errs);
            }
            assert(elems_view(errs@) =~= seq![eov]);
            out.push((owned("valid"), Json::Bool(false)));
            out.push((owned("version"), version));
            out.push((owned("errors"), Json::Array(errs)));
            proof {
                lemma_object_view(out);
            }
            assert(fields_view(out@) =~= report_view(vv, outcome_view(*outcome))->Object_0);
        },
    }
    Json::Object(out)
}

pub open spec fn swagger_message() -> Seq<char> {
    "Swagger 2.0 validation is not implemented; only OpenAPI 3.x is supported."@
}

/// The report for a Swagger 2.0 spec: not validated.
pub open spec fn swagger_report(version: JsonV) -> JsonV {
    JsonV::Object(
        seq![
            ("valid"@, JsonV::Null),
            ("version"@, version),
            ("errors"@, JsonV::Array(seq![JsonV::Object(seq![("message"@, JsonV::Str(swagger_message()))])])),
        ],
    )
}

/// What `validate` reports: Swagger 2.0 specs are not validated; any other spec is
/// checked as OpenAPI 3.x through its compact JSON text.
pub open spec fn validate_view(spec: JsonV) -> JsonV {
    match member(spec, "swagger"@) {
        Some(s) => swagger_report(s),
        None => report_view(or_null(member(spec, "openapi"@)), oas3_outcome(json_text(spec))),
    }
}

/// `validate`: whether the spec deserializes as OpenAPI 3.x, and where it first fails.
pub fn run(spec: &Json) -> (r: Result<Json, OadigError>)
    ensures
        r matches Ok(j) && j@ == validate_view(spec@),
{
    if let Some(s) = spec.get("swagger") {
        let mut m: Vec<(String, Json)> = Vec::new();
        m.push((owned("message"), jstr("Swagger 2.0 validation is not implemented; only OpenAPI 3.x is supported.")));
        proof {
            lemma_object_view(m);
        }
        assert(fields_view(m@) =~= seq![("message"@, JsonV::Str(swagger_message()))]);
        let mo = Json::Object(m);
        let ghost mov = mo@;
        let mut errs: Vec<Json> = Vec::new();
        errs.push(mo);
        proof {
            lemma_array_view(errs);
        }
        assert(elems_view(errs@) =~= seq![mov]);
        let mut out: Vec<(String, Json)> = Vec::new();
        out.push((owned("valid"), Json::Null));
        out.push((owned("version"), s.deep_clone()));
        out.push((owned("errors"), Json::Array(errs)));
        proof {
            lemma_object_view(out);
        }
        assert(fields_view(out@) =~= swagger_report(s@)->Object_0);
        return Ok(Json::Object(out));
    }
    let version = crate::json::cloned_or_null(spec.get("openapi"));
    let text = to_json_text(spec);
    let outcome = check_oas3(text.as_str());
    Ok(validation_report(version, &outcome))
}

} // verus!
