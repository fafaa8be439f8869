//! `search`: string values of the spec that match a keyword, with where they were found.

use vstd::prelude::*;
use crate::cli::SearchField;
use crate::commands::operations::method_index;
use crate::error::OadigError;
use crate::commands::operations::{method_at, METHOD_COUNT};
use crate::json::{elems_view, fields_view, lemma_array_view, lemma_object_view, Json, JsonV};
use crate::resolver::{child, child_count};
use crate::text::{decimal, decimal_string, lemma_replace_char_concat, replace_pair, str_eq};
use crate::pointer::{digit_value, digits_value, index_token, is_digit, pointer_of, split_slash, step, unescape_token, walk_tokens};
use crate::json::{key_index, lemma_key_index_at, lookup, unique_keys};
use crate::text::digit_char;
use crate::matcher::{regex_build_error, regex_finds, Matcher};
use crate::output::{join, join_with};
use crate::text::{ascii_lowercase, contains, contains_seq, lower, owned, replace_char, replace_char_str, upper};

verus! {

/// RFC 6901 escaping of a pointer token: `~` becomes `~0`, then `/` becomes `~1`.
pub open spec fn escape(t: Seq<char>) -> Seq<char> {
    replace_char(replace_char(t, '~', "~0"@), '/', "~1"@)
}

/// Escapes one JSON Pointer token.
pub fn escape_token(token: &str) -> (r: String)
    ensures
        r@ == escape(token@),
{
    let a = replace_char_str(token, '~', "~0");
    replace_char_str(a.as_str(), '/', "~1")
}

/// How a keyword is matched.
#[derive(Debug)]
pub enum Pattern {
    /// A substring; without case sensitivity both sides are ASCII lower-cased (`needle` already is).
    Substring { needle: String, case_sensitive: bool },
    Regex(Matcher),
}

/// The pattern `Pattern::build` makes of a keyword.
pub open spec fn pattern_ok(p: &Pattern, keyword: Seq<char>, regex: bool, case_sensitive: bool) -> bool {
    if regex {
        p matches Pattern::Regex(m) && m.pattern() == keyword && m.ignores_case() == !case_sensitive
    } else {
        p matches Pattern::Substring { needle, case_sensitive: cs } && cs == case_sensitive
            && needle@ == if case_sensitive {
            keyword
        } else {
            lower(keyword)
        }
    }
}

/// Whether a pattern matches a string.
pub open spec fn pattern_holds(p: &Pattern, s: Seq<char>) -> bool {
    match p {
        Pattern::Substring { needle, case_sensitive } => if *case_sensitive {
            contains_seq(s, needle@)
        } else {
            contains_seq(lower(s), needle@)
        },
        Pattern::Regex(m) => regex_finds(m.pattern(), m.ignores_case(), s),
    }
}

impl Pattern {
    /// A substring pattern, or a regular expression (case folded unless `case_sensitive`);
    /// an invalid expression is the error.
    pub fn build(keyword: &str, regex: bool, case_sensitive: bool) -> (r: Result<Pattern, OadigError>)
        ensures
            r is Err <==> regex && regex_build_error(keyword@, !case_sensitive) is Some,
            r matches Ok(p) ==> pattern_ok(&p, keyword@, regex, case_sensitive),
            r matches Err(e) ==> crate::error::is_other(
                &e,
                "invalid regex: "@ + regex_build_error(keyword@, !case_sensitive)->Some_0,
            ),
    {
        if regex {
            match Matcher::compile(keyword, !case_sensitive) {
                Ok(m) => Ok(Pattern::Regex(m)),
                Err(e) => Err(e),
            }
        } else {
            let needle = if case_sensitive {
                owned(keyword)
            } else {
                ascii_lowercase(keyword)
            };
            Ok(Pattern::Substring { needle, case_sensitive })
        }
    }

    pub fn matches(&self, haystack: &str) -> (r: bool)
        ensures
            r == pattern_holds(self, haystack@),
    {
        match self {
            Pattern::Substring { needle, case_sensitive } => {
                if *case_sensitive {
                    contains(haystack, needle.as_str())
                } else {
                    let h = ascii_lowercase(haystack);
                    contains(h.as_str(), needle.as_str())
                }
            },
            Pattern::Regex(m) => m.is_match(haystack),
        }
    }
}

/// A step of a location: a member key, or an array index (in decimal) when the flag is set.
pub open spec fn tokens_view(t: Seq<(String, bool)>) -> Seq<(Seq<char>, bool)> {
    Seq::new(t.len(), |i: int| (t[i].0@, t[i].1))
}

/// The JSON Pointer of a location.
pub open spec fn pointer_text(toks: Seq<(Seq<char>, bool)>) -> Seq<char>
    decreases toks.len(),
{
    if toks.len() == 0 {
        Seq::empty()
    } else {
        pointer_text(toks.drop_last()) + "/"@ + escape(toks.last().0)
    }
}

pub open spec fn ident_start(c: char) -> bool {
    ('a' <= c && c <= 'z') || ('A' <= c && c <= 'Z') || c == '_'
}

pub open spec fn ident_char(c: char) -> bool {
    ident_start(c) || ('0' <= c && c <= '9')
}

/// A key that a JSONPath can name with a dot.
pub open spec fn is_ident(s: Seq<char>) -> bool {
    s.len() > 0 && ident_start(s[0]) && forall|i: int| 1 <= i < s.len() ==> ident_char(#[trigger] s[i])
}

/// A key quoted for a JSONPath bracket: `\` and `"` escaped with a backslash.
pub open spec fn quoted(s: Seq<char>) -> Seq<char> {
    "\""@ + replace_char(replace_char(s, '\\', "\\\\"@), '"', "\\\""@) + "\""@
}

/// The JSONPath segment of one step: `.key`, `["key"]` or `[index]`.
pub open spec fn json_path_seg(t: (Seq<char>, bool)) -> Seq<char> {
    if t.1 {
        "["@ + t.0 + "]"@
    } else if is_ident(t.0) {
        "."@ + t.0
    } else {
        "["@ + quoted(t.0) + "]"@
    }
}

/// The JSONPath of a location.
pub open spec fn json_path_text(toks: Seq<(Seq<char>, bool)>) -> Seq<char>
    decreases toks.len(),
{
    if toks.len() == 0 {
        "$"@
    } else {
        json_path_text(toks.drop_last()) + json_path_seg(toks.last())
    }
}

/// The location is inside an operation: `paths / <path> / <method> / ...`.
pub open spec fn in_operation(toks: Seq<(Seq<char>, bool)>) -> bool {
    toks.len() >= 3 && toks[0] == ("paths"@, false) && !toks[1].1 && !toks[2].1 && method_index(toks[2].0) >= 0
}

/// Where in the operation: the escaped steps after the method, joined by `/`.
pub open spec fn at_text(toks: Seq<(Seq<char>, bool)>) -> Seq<char> {
    join(Seq::new((toks.len() - 3) as nat, |i: int| escape(toks[i + 3].0)), "/"@)
}

fn is_ident_char_start(c: char) -> (r: bool)
    ensures
        r == ident_start(c),
{
    ('a' <= c && c <= 'z') || ('A' <= c && c <= 'Z') || c == '_'
}

fn is_ident_str(s: &str) -> (r: bool)
    ensures
        r == is_ident(s@),
{
    let cs = crate::text::chars_of(s);
    if cs.len() == 0 || !is_ident_char_start(cs[0]) {
        return false;
    }
    let mut i: usize = 1;
    while i < cs.len()
        invariant
            1 <= i <= cs.len(),
            cs@ == s@,
            forall|k: int| 1 <= k < i ==> ident_char(#[trigger] cs@[k]),
        decreases cs.len() - i,
    {
        let c = cs[i];
        if !(is_ident_char_start(c) || ('0' <= c && c <= '9')) {
            return false;
        }
        i = i + 1;
    }
    true
}

/// Builds the JSON Pointer of a location.
pub fn pointer_string(toks: &Vec<(String, bool)>) -> (r: String)
    ensures
        r@ == pointer_text(tokens_view(toks@)),
{
    let ghost tv = tokens_view(toks@);
    let mut out = String::new();
    let mut i: usize = 0;
    assert(tv.take(0) =~= Seq::<(Seq<char>, bool)>::empty());
    while i < toks.len()
        invariant
            i <= toks.len(),
            tv == tokens_view(toks@),
            out@ == pointer_text(tv.take(i as int)),
        decreases toks.len() - i,
    {
        assert(tv.take(i + 1).drop_last() =~= tv.take(i as int));
        crate::text::push_str(&mut out, "/");
        let e = escape_token(toks[i].0.as_str());
        crate::text::push_str(&mut out, e.as_str());
        i = i + 1;
    }
    assert(tv.take(toks.len() as int) =~= tv);
    out
}

/// Builds the JSONPath of a location.
pub fn json_path_string(toks: &Vec<(String, bool)>) -> (r: String)
    ensures
        r@ == json_path_text(tokens_view(toks@)),
{
    let ghost tv = tokens_view(toks@);
    let mut out = owned("$");
    let mut i: usize = 0;
    assert(tv.take(0) =~= Seq::<(Seq<char>, bool)>::empty());
    while i < toks.len()
        invariant
            i <= toks.len(),
            tv == tokens_view(toks@),
            out@ == json_path_text(tv.take(i as int)),
        decreases toks.len() - i,
    {
        assert(tv.take(i + 1).drop_last() =~= tv.take(i as int));
        let t = toks[i].0.as_str();
        let ghost before = out@;
        if toks[i].1 {
            crate::text::push_str(&mut out, "[");
            crate::text::push_str(&mut out, t);
            crate::text::push_str(&mut out, "]");
            assert(out@ =~= before + ("["@ + t@ + "]"@));
        } else if is_ident_str(t) {
            crate::text::push_str(&mut out, ".");
            crate::text::push_str(&mut out, t);
            assert(out@ =~= before + ("."@ + t@));
        } else {
            let a = replace_char_str(t, '\\', "\\\\");
            let b = replace_char_str(a.as_str(), '"', "\\\"");
            crate::text::push_str(&mut out, "[\"");
            crate::text::push_str(&mut out, b.as_str());
            crate::text::push_str(&mut out, "\"]");
            proof {
                reveal_strlit("[\"");
                reveal_strlit("\"]");
                reveal_strlit("[");
                reveal_strlit("]");
                reveal_strlit("\"");
                assert(out@ =~= before + ("["@ + quoted(t@) + "]"@));
            }
        }
        i = i + 1;
    }
    assert(tv.take(toks.len() as int) =~= tv);
    out
}

/// `f` is in the list, directly or through `all`.
pub open spec fn hit_listed(list: Seq<SearchField>, f: SearchField) -> bool {
    list.contains(f) || list.contains(SearchField::All)
}

/// Whether a hit shows a field: `pointer`, `operationRef`, `at` and `value` by default,
/// `jsonPath` and `path` when asked for, none that is hidden.
pub open spec fn hit_on(show: Seq<SearchField>, hide: Seq<SearchField>, f: SearchField) -> bool {
    (f == SearchField::Pointer || f == SearchField::OperationRef || f == SearchField::At || f == SearchField::Value
        || hit_listed(show, f)) && !hit_listed(hide, f)
}

/// The fields a hit shows.
#[derive(Debug, Clone, Copy)]
pub struct HitSelection {
    pub pointer: bool,
    pub json_path: bool,
    pub path: bool,
    pub operation_ref: bool,
    pub at: bool,
    pub value: bool,
}

pub open spec fn hit_selection_of(show: Seq<SearchField>, hide: Seq<SearchField>) -> HitSelection {
    HitSelection {
        pointer: hit_on(show, hide, SearchField::Pointer),
        json_path: hit_on(show, hide, SearchField::JsonPath),
        path: hit_on(show, hide, SearchField::Path),
        operation_ref: hit_on(show, hide, SearchField::OperationRef),
        at: hit_on(show, hide, SearchField::At),
        value: hit_on(show, hide, SearchField::Value),
    }
}

fn in_hit_list(list: &[SearchField], f: SearchField) -> (r: bool)
    ensures
        r == hit_listed(list@, f),
{
    let mut i: usize = 0;
    while i < list.len()
        invariant
            i <= list.len(),
            forall|k: int| 0 <= k < i ==> list@[k] != f && list@[k] != SearchField::All,
        decreases list.len() - i,
    {
        if list[i] == f || list[i] == SearchField::All {
            assert(list@.contains(list@[i as int]));
            return true;
        }
        i = i + 1;
    }
    false
}

fn hit_shown(show: &[SearchField], hide: &[SearchField], f: SearchField) -> (r: bool)
    ensures
        r == hit_on(show@, hide@, f),
{
    let default_on = f == SearchField::Pointer || f == SearchField::OperationRef || f == SearchField::At
        || f == SearchField::Value;
    (default_on || in_hit_list(show, f)) && !in_hit_list(hide, f)
}

/// Which fields the hits show, `all` expanded.
pub fn hit_fields(show: &[SearchField], hide: &[SearchField]) -> (r: HitSelection)
    ensures
        r == hit_selection_of(show@, hide@),
{
    HitSelection {
        pointer: hit_shown(show, hide, SearchField::Pointer),
        json_path: hit_shown(show, hide, SearchField::JsonPath),
        path: hit_shown(show, hide, SearchField::Path),
        operation_ref: hit_shown(show, hide, SearchField::OperationRef),
        at: hit_shown(show, hide, SearchField::At),
        value: hit_shown(show, hide, SearchField::Value),
    }
}

/// The members of a hit at a location with string `s`.
pub open spec fn hit_members(sel: HitSelection, toks: Seq<(Seq<char>, bool)>, s: Seq<char>) -> Seq<(Seq<char>, JsonV)> {
    (if sel.pointer {
        seq![("pointer"@, JsonV::Str(pointer_text(toks)))]
    } else {
        Seq::empty()
    }) + (if sel.json_path {
        seq![("jsonPath"@, JsonV::Str(json_path_text(toks)))]
    } else {
        Seq::empty()
    }) + (if sel.path {
        seq![("path"@, JsonV::Array(Seq::new(toks.len(), |i: int| JsonV::Str(toks[i].0))))]
    } else {
        Seq::empty()
    }) + (if sel.operation_ref && in_operation(toks) {
        seq![
            (
                "operationRef"@,
                JsonV::Object(seq![("method"@, JsonV::Str(upper(toks[2].0))), ("path"@, JsonV::Str(toks[1].0))]),
            ),
        ]
    } else {
        Seq::empty()
    }) + (if sel.at && in_operation(toks) {
        seq![("at"@, JsonV::Str(at_text(toks)))]
    } else {
        Seq::empty()
    }) + (if sel.value {
        seq![("value"@, JsonV::Str(s))]
    } else {
        Seq::empty()
    })
}

/// The step to the `i`-th child of an array or object.
pub open spec fn child_token(v: JsonV, i: int) -> (Seq<char>, bool) {
    match v {
        JsonV::Array(_) => (decimal(i as nat), true),
        JsonV::Object(f) => (f[i].0, false),
        _ => (Seq::empty(), false),
    }
}

/// Whether the keyword matches a string: as a regular expression (case folded unless
/// case-sensitive), or as a substring (compared in ASCII lower case unless case-sensitive).
pub open spec fn keyword_holds(keyword: Seq<char>, regex: bool, case_sensitive: bool, s: Seq<char>) -> bool {
    if regex {
        regex_finds(keyword, !case_sensitive, s)
    } else if case_sensitive {
        contains_seq(s, keyword)
    } else {
        contains_seq(lower(s), lower(keyword))
    }
}

/// A built pattern matches as its keyword says.
pub proof fn lemma_pattern_holds(p: &Pattern, keyword: Seq<char>, regex: bool, case_sensitive: bool, s: Seq<char>)
    requires
        pattern_ok(p, keyword, regex, case_sensitive),
    ensures
        pattern_holds(p, s) == keyword_holds(keyword, regex, case_sensitive, s),
{
}

/// The hits in `v`, found at location `toks`, in document order.
pub open spec fn hits_of(sel: HitSelection, kw: (Seq<char>, bool, bool), v: JsonV, toks: Seq<(Seq<char>, bool)>) -> Seq<JsonV>
    decreases v, child_count(v) + 1,
{
    match v {
        JsonV::Str(s) => if keyword_holds(kw.0, kw.1, kw.2, s) {
            seq![JsonV::Object(hit_members(sel, toks, s))]
        } else {
            Seq::empty()
        },
        JsonV::Array(a) => hits_of_children(sel, kw, v, toks, a.len() as int),
        JsonV::Object(f) => hits_of_children(sel, kw, v, toks, f.len() as int),
        _ => Seq::empty(),
    }
}

/// The hits in the first `n` children of `v`.
pub open spec fn hits_of_children(
    sel: HitSelection,
    kw: (Seq<char>, bool, bool),
    v: JsonV,
    toks: Seq<(Seq<char>, bool)>,
    n: int,
) -> Seq<JsonV>
    decreases v, n,
{
    if n <= 0 || n > child_count(v) {
        Seq::empty()
    } else {
        proof {
            match v {
                JsonV::Array(a) => {
                    assert(decreases_to!(v => a[n - 1]));
                },
                JsonV::Object(f) => {
                    assert(decreases_to!(v => f[n - 1].1));
                },
                _ => {},
            }
        }
        hits_of_children(sel, kw, v, toks, n - 1) + hits_of(sel, kw, child(v, n - 1), toks.push(child_token(v, n - 1)))
    }
}

/// Builds one hit.
#[verifier::spinoff_prover]
#[verifier::rlimit(40)]
pub fn hit_record(sel: HitSelection, toks: &Vec<(String, bool)>, s: &String) -> (r: Json)
    ensures
        r@ == JsonV::Object(hit_members(sel, tokens_view(toks@), s@)),
{
    let ghost tv = tokens_view(toks@);
    let mut out: Vec<(String, Json)> = Vec::new();
    if sel.pointer {
        out.push((owned("pointer"), Json::Str(pointer_string(toks))));
    }
    if sel.json_path {
        out.push((owned("jsonPath"), Json::Str(json_path_string(toks))));
    }
    let ghost f1 = fields_view(out@);
    assert(f1 =~= (if sel.pointer {
        seq![("pointer"@, JsonV::Str(pointer_text(tv)))]
    } else {
        Seq::empty()
    }) + (if sel.json_path {
        seq![("jsonPath"@, JsonV::Str(json_path_text(tv)))]
    } else {
        Seq::empty()
    }));
    if sel.path {
        let mut steps: Vec<Json> = Vec::new();
        let mut i: usize = 0;
        while i < toks.len()
            invariant
                i <= toks.len(),
                steps@.len() == i,
                forall|k: int| 0 <= k < i ==> #[trigger] steps@[k]@ == JsonV::Str(toks@[k].0@),
            decreases toks.len() - i,
        {
            steps.push(Json::Str(toks[i].0.clone()));
            i = i + 1;
        }
        proof {
            lemma_array_view(steps);
            assert forall|k: int| 0 <= k < tv.len() implies elems_view(steps@)[k] == JsonV::Str(tv[k].0) by {
                assert(steps@[k]@ == JsonV::Str(toks@[k].0@));
            }
            assert(elems_view(steps@) =~= Seq::new(tv.len(), |i: int| JsonV::Str(tv[i].0)));
        }
        out.push((owned("path"), Json::Array(steps)));
    }
    let ghost f2 = fields_view(out@);
    assert(f2 =~= f1 + (if sel.path {
        seq![("path"@, JsonV::Array(Seq::new(tv.len(), |i: int| JsonV::Str(tv[i].0))))]
    } else {
        Seq::empty()
    }));
    let mut inside = false;
    if toks.len() >= 3 && str_eq(toks[0].0.as_str(), "paths") && !toks[0].1 && !toks[1].1 && !toks[2].1 {
        inside = crate::commands::operations::find_method(toks[2].0.as_str()).is_some();
    }
    assert(inside == in_operation(tv)) by {
        if toks@.len() >= 3 {
            assert(tv[0] == (toks@[0].0@, toks@[0].1));
        }
    }
    if sel.operation_ref && inside {
        let mut r: Vec<(String, Json)> = Vec::new();
        r.push((owned("method"), Json::Str(crate::text::ascii_uppercase(toks[2].0.as_str()))));
        r.push((owned("path"), Json::Str(toks[1].0.clone())));
        proof {
            lemma_object_view(r);
            assert(tv[2] == (toks@[2].0@, toks@[2].1));
            assert(tv[1] == (toks@[1].0@, toks@[1].1));
            assert(fields_view(r@) =~= seq![("method"@, JsonV::Str(upper(tv[2].0))), ("path"@, JsonV::Str(tv[1].0))]);
        }
        let ghost before = fields_view(out@);
        let o = Json::Object(r);
        let ghost ov = o@;
        out.push((owned("operationRef"), o));
        assert(fields_view(out@) =~= before + seq![("operationRef"@, ov)]);
    }
    let ghost f3 = fields_view(out@);
    assert(f3 =~= f2 + (if sel.operation_ref && in_operation(tv) {
        seq![
            (
                "operationRef"@,
                JsonV::Object(seq![("method"@, JsonV::Str(upper(tv[2].0))), ("path"@, JsonV::Str(tv[1].0))]),
            ),
        ]
    } else {
        Seq::empty()
    }));
    if sel.at && inside {
        let mut rest: Vec<String> = Vec::new();
        let mut i: usize = 3;
        while i < toks.len()
            invariant
                3 <= i <= toks.len(),
                rest@.len() == i - 3,
                forall|k: int| 0 <= k < rest@.len() ==> #[trigger] rest@[k]@ == escape(toks@[k + 3].0@),
            decreases toks.len() - i,
        {
            rest.push(escape_token(toks[i].0.as_str()));
            i = i + 1;
        }
        let at = join_with(&rest, "/");
        assert(rest@.map_values(|p: String| p@) =~= Seq::new((tv.len() - 3) as nat, |i: int| escape(tv[i + 3].0)));
        out.push((owned("at"), Json::Str(at)));
    }
    let ghost f4 = fields_view(out@);
    assert(f4 =~= f3 + (if sel.at && in_operation(tv) {
        seq![("at"@, JsonV::Str(at_text(tv)))]
    } else {
        Seq::empty()
    }));
    if sel.value {
        out.push((owned("value"), Json::Str(s.clone())));
    }
    proof {
        lemma_object_view(out);
        assert(fields_view(out@) =~= hit_members(sel, tv, s@));
    }
    Json::Object(out)
}

fn walk(
    value: &Json,
    toks: &mut Vec<(String, bool)>,
    pattern: &Pattern,
    Ghost(kw): Ghost<(Seq<char>, bool, bool)>,
    sel: HitSelection,
    hits: &mut Vec<Json>,
)
    requires
        pattern_ok(pattern, kw.0, kw.1, kw.2),
    ensures
        final(toks)@ == old(toks)@,
        elems_view(final(hits)@) == elems_view(old(hits)@) + hits_of(sel, kw, value@, tokens_view(old(toks)@)),
    decreases value,
{
    let ghost tv = tokens_view(toks@);
    let ghost v = value@;
    match value {
        Json::Str(s) => {
            proof {
                lemma_pattern_holds(pattern, kw.0, kw.1, kw.2, s@);
            }
            if pattern.matches(s.as_str()) {
                let h = hit_record(sel, toks, s);
                let ghost before = hits@;
                hits.push(h);
                assert(elems_view(hits@) =~= elems_view(before) + seq![h@]);
            } else {
                assert(elems_view(hits@) =~= elems_view(old(hits)@) + hits_of(sel, kw, v, tv));
            }
        },
        Json::Object(f) => {
            proof {
                lemma_object_view(*f);
            }
            let mut i: usize = 0;
            assert(elems_view(hits@) =~= elems_view(old(hits)@) + hits_of_children(sel, kw, v, tv, 0));
            while i < f.len()
                invariant
                    i <= f.len(),
                    *value == Json::Object(*f),
                    v == value@,
                    v == JsonV::Object(fields_view(f@)),
                    pattern_ok(pattern, kw.0, kw.1, kw.2),
                    toks@ == old(toks)@,
                    tv == tokens_view(toks@),
                    elems_view(hits@) == elems_view(old(hits)@) + hits_of_children(sel, kw, v, tv, i as int),
                decreases f.len() - i,
            {
                assert(decreases_to!(*value => value->Object_0[i as int].1));
                let ghost before = hits@;
                toks.push((f[i].0.clone(), false));
                assert(tokens_view(toks@) =~= tv.push(child_token(v, i as int)));
                walk(&f[i].1, toks, pattern, Ghost(kw), sel, hits);
                toks.pop();
                assert(toks@ =~= old(toks)@);
                assert(child(v, i as int) == f@[i as int].1@);
                assert(elems_view(hits@) =~= elems_view(old(hits)@) + hits_of_children(sel, kw, v, tv, i + 1));
                i = i + 1;
            }
        },
        Json::Array(a) => {
            proof {
                crate::json::lemma_array_view(*a);
            }
            let mut i: usize = 0;
            assert(elems_view(hits@) =~= elems_view(old(hits)@) + hits_of_children(sel, kw, v, tv, 0));
            while i < a.len()
                invariant
                    i <= a.len(),
                    *value == Json::Array(*a),
                    v == value@,
                    v == JsonV::Array(elems_view(a@)),
                    pattern_ok(pattern, kw.0, kw.1, kw.2),
                    toks@ == old(toks)@,
                    tv == tokens_view(toks@),
                    elems_view(hits@) == elems_view(old(hits)@) + hits_of_children(sel, kw, v, tv, i as int),
                decreases a.len() - i,
            {
                assert(decreases_to!(*value => value->Array_0[i as int]));
                toks.push((decimal_string(i as u64), true));
                assert(tokens_view(toks@) =~= tv.push(child_token(v, i as int)));
                walk(&a[i], toks, pattern, Ghost(kw), sel, hits);
                toks.pop();
                assert(toks@ =~= old(toks)@);
                assert(child(v, i as int) == a@[i as int]@);
                assert(elems_view(hits@) =~= elems_view(old(hits)@) + hits_of_children(sel, kw, v, tv, i + 1));
                i = i + 1;
            }
        },
        _ => {
            assert(elems_view(hits@) =~= elems_view(old(hits)@) + hits_of(sel, kw, v, tv));
        },
    }
}

/// `search`: every string value of the spec that the keyword matches, in document
/// order, with the fields shown; an invalid regular expression is the error.
pub fn run(
    spec: &Json,
    keyword: &str,
    regex: bool,
    case_sensitive: bool,
    show: &[SearchField],
    hide: &[SearchField],
) -> (r: Result<Json, OadigError>)
    ensures
        r is Err <==> regex && regex_build_error(keyword@, !case_sensitive) is Some,
        r matches Ok(j) ==> j@ == JsonV::Array(
            hits_of(hit_selection_of(show@, hide@), (keyword@, regex, case_sensitive), spec@, Seq::empty()),
        ),
        r matches Err(e) ==> crate::error::is_other(&e, "invalid regex: "@ + regex_build_error(keyword@, !case_sensitive)->Some_0),
{
    let pattern = match Pattern::build(keyword, regex, case_sensitive) {
        Ok(p) => p,
        Err(e) => return Err(e),
    };
    let sel = hit_fields(show, hide);
    let mut toks: Vec<(String, bool)> = Vec::new();
    let mut hits: Vec<Json> = Vec::new();
    assert(tokens_view(toks@) =~= Seq::<(Seq<char>, bool)>::empty());
    walk(spec, &mut toks, &pattern, Ghost((keyword@, regex, case_sensitive)), sel, &mut hits);
    proof {
        lemma_array_view(hits);
        assert(elems_view(Seq::<Json>::empty()) =~= Seq::<JsonV>::empty());
    }
    assert(elems_view(hits@) =~= hits_of(sel, (keyword@, regex, case_sensitive), spec@, Seq::empty()));
    Ok(Json::Array(hits))
}

/// How `escape` writes one character.
pub open spec fn escape_one(c: char) -> Seq<char> {
    if c == '~' {
        "~0"@
    } else if c == '/' {
        "~1"@
    } else {
        seq![c]
    }
}

/// Half-way through unescaping: `~1` already turned back into `/`.
pub open spec fn half_unescaped(t: Seq<char>) -> Seq<char>
    decreases t.len(),
{
    if t.len() == 0 {
        Seq::empty()
    } else {
        (if t[0] == '~' {
            "~0"@
        } else {
            seq![t[0]]
        }) + half_unescaped(t.drop_first())
    }
}

proof fn lemma_escape_front(t: Seq<char>)
    requires
        t.len() > 0,
    ensures
        escape(t) == escape_one(t[0]) + escape(t.drop_first()),
{
    reveal_strlit("~0");
    reveal_strlit("~1");
    let head = if t[0] == '~' { "~0"@ } else { seq![t[0]] };
    let inner_rest = replace_char(t.drop_first(), '~', "~0"@);
    assert(replace_char(t, '~', "~0"@) == head + inner_rest);
    lemma_replace_char_concat(head, inner_rest, '/', "~1"@);
    if t[0] == '~' {
        assert(head.drop_first().drop_first() =~= Seq::<char>::empty());
        assert(replace_char(head.drop_first(), '/', "~1"@) =~= seq!['0'] + replace_char(head.drop_first().drop_first(), '/', "~1"@));
        assert(replace_char(head, '/', "~1"@) =~= "~0"@);
    } else {
        assert(head.drop_first() =~= Seq::<char>::empty());
        assert(replace_char(head.drop_first(), '/', "~1"@) =~= Seq::<char>::empty());
        assert(replace_char(head, '/', "~1"@) =~= (if t[0] == '/' { "~1"@ } else { seq![t[0]] }) + replace_char(head.drop_first(), '/', "~1"@));
        assert(replace_char(head, '/', "~1"@) =~= escape_one(t[0]));
    }
}

proof fn lemma_first_pass(t: Seq<char>)
    ensures
        replace_pair(escape(t), '~', '1', '/') == half_unescaped(t),
    decreases t.len(),
{
    reveal_strlit("~0");
    reveal_strlit("~1");
    if t.len() == 0 {
        assert(escape(t) =~= Seq::<char>::empty());
    } else {
        lemma_escape_front(t);
        lemma_first_pass(t.drop_first());
        let e = escape(t.drop_first());
        let s = escape(t);
        if t[0] == '~' {
            assert(s =~= seq!['~', '0'] + e);
            assert(s.drop_first() =~= seq!['0'] + e);
            assert((seq!['0'] + e).drop_first() =~= e);
            assert(replace_pair(seq!['0'] + e, '~', '1', '/') == seq!['0'] + replace_pair(e, '~', '1', '/'));
            assert(replace_pair(s, '~', '1', '/') == seq![s[0]] + replace_pair(s.drop_first(), '~', '1', '/'));
            assert(replace_pair(s, '~', '1', '/') =~= seq!['~'] + (seq!['0'] + replace_pair(e, '~', '1', '/')));
        } else if t[0] == '/' {
            assert(s =~= seq!['~', '1'] + e);
            assert(s.skip(2) =~= e);
        } else {
            assert(s =~= seq![t[0]] + e);
            assert(s.drop_first() =~= e);
        }
    }
}

proof fn lemma_second_pass(t: Seq<char>)
    ensures
        replace_pair(half_unescaped(t), '~', '0', '~') == t,
    decreases t.len(),
{
    reveal_strlit("~0");
    if t.len() == 0 {
        assert(half_unescaped(t) =~= Seq::<char>::empty());
        assert(t =~= Seq::<char>::empty());
    } else {
        lemma_second_pass(t.drop_first());
        let m = half_unescaped(t.drop_first());
        let s = half_unescaped(t);
        if t[0] == '~' {
            assert(s =~= seq!['~', '0'] + m);
            assert(s.skip(2) =~= m);
        } else {
            assert(s =~= seq![t[0]] + m);
            assert(s.drop_first() =~= m);
        }
        assert(t =~= seq![t[0]] + t.drop_first());
    }
}

/// Unescaping a pointer token gives back the key it was escaped from.
pub proof fn law_unescape_undoes_escape(t: Seq<char>)
    ensures
        unescape_token(escape(t)) == t,
{
    lemma_first_pass(t);
    lemma_second_pass(t);
}

// ---- where the hits are ----
/// A document as a parser gives it: no object repeats a key, and every array can be
/// indexed by a `usize`.
pub open spec fn well_formed_doc(v: JsonV) -> bool
    decreases v, child_count(v) + 1,
{
    locally_well_formed(v) && well_formed_children(v, child_count(v) as int)
}

pub open spec fn locally_well_formed(v: JsonV) -> bool {
    match v {
        JsonV::Object(f) => unique_keys(f),
        JsonV::Array(a) => a.len() <= usize::MAX,
        _ => true,
    }
}

pub open spec fn well_formed_children(v: JsonV, n: int) -> bool
    decreases v, n,
{
    if n <= 0 || n > child_count(v) {
        true
    } else {
        proof {
            crate::commands::convert::lemma_child_decreases(v, n - 1);
        }
        well_formed_children(v, n - 1) && well_formed_doc(child(v, n - 1))
    }
}

pub proof fn lemma_well_formed_child(v: JsonV, n: int, i: int)
    requires
        well_formed_children(v, n),
        0 <= i < n <= child_count(v),
    ensures
        well_formed_doc(child(v, i)),
    decreases n,
{
    if i < n - 1 {
        lemma_well_formed_child(v, n - 1, i);
    }
}

/// The escaped steps of a location.
pub open spec fn escaped_tokens(toks: Seq<(Seq<char>, bool)>) -> Seq<Seq<char>> {
    Seq::new(toks.len(), |i: int| escape(toks[i].0))
}

pub open spec fn no_slash(s: Seq<char>) -> bool {
    forall|i: int| 0 <= i < s.len() ==> s[i] != '/'
}

proof fn lemma_escape_no_slash(t: Seq<char>)
    ensures
        no_slash(escape(t)),
    decreases t.len(),
{
    reveal_strlit("~0");
    reveal_strlit("~1");
    if t.len() == 0 {
        assert(escape(t) =~= Seq::<char>::empty());
    } else {
        lemma_escape_front(t);
        lemma_escape_no_slash(t.drop_first());
        let h = escape_one(t[0]);
        let r = escape(t.drop_first());
        assert forall|i: int| 0 <= i < (h + r).len() implies (h + r)[i] != '/' by {
            if i >= h.len() {
                assert((h + r)[i] == r[i - h.len()]);
            }
        }
    }
}

proof fn lemma_split_slash_plain(e: Seq<char>)
    requires
        no_slash(e),
    ensures
        split_slash(e) == seq![e],
    decreases e.len(),
{
    if e.len() == 0 {
        assert(e =~= Seq::<char>::empty());
    } else {
        assert(no_slash(e.drop_last())) by {
            assert forall|i: int| 0 <= i < e.drop_last().len() implies e.drop_last()[i] != '/' by {
                assert(e.drop_last()[i] == e[i]);
            }
        }
        assert(e.last() != '/') by {
            assert(e[e.len() - 1] != '/');
        }
        lemma_split_slash_plain(e.drop_last());
        assert(e.drop_last().push(e.last()) =~= e);
        assert(seq![e.drop_last()].update(0, e.drop_last().push(e.last())) =~= seq![e]);
    }
}

proof fn lemma_split_slash_append(s: Seq<char>, e: Seq<char>)
    requires
        no_slash(e),
    ensures
        split_slash(s + seq!['/'] + e) == split_slash(s).push(e),
    decreases e.len(),
{
    let x = s + seq!['/'] + e;
    if e.len() == 0 {
        assert(e =~= Seq::<char>::empty());
        assert(x.drop_last() =~= s);
        assert(x.last() == '/');
    } else {
        assert(no_slash(e.drop_last())) by {
            assert forall|i: int| 0 <= i < e.drop_last().len() implies e.drop_last()[i] != '/' by {
                assert(e.drop_last()[i] == e[i]);
            }
        }
        assert(e.last() != '/') by {
            assert(e[e.len() - 1] != '/');
        }
        lemma_split_slash_append(s, e.drop_last());
        assert(x.drop_last() =~= s + seq!['/'] + e.drop_last());
        assert(x.last() == e.last());
        crate::pointer::lemma_split_nonempty(s);
        assert(e.drop_last().push(e.last()) =~= e);
        assert(split_slash(s).push(e.drop_last()).update(split_slash(s).len() as int, e) =~= split_slash(s).push(e));
    }
}

proof fn lemma_pointer_text_split(toks: Seq<(Seq<char>, bool)>)
    requires
        toks.len() > 0,
    ensures
        pointer_text(toks).len() > 0,
        pointer_text(toks)[0] == '/',
        split_slash(pointer_text(toks).drop_first()) == escaped_tokens(toks),
    decreases toks.len(),
{
    let init = toks.drop_last();
    let e = escape(toks.last().0);
    lemma_escape_no_slash(toks.last().0);
    if init.len() == 0 {
        assert(pointer_text(init) =~= Seq::<char>::empty());
        assert(pointer_text(toks) =~= seq!['/'] + e) by {
            reveal_strlit("/");
        }
        assert(pointer_text(toks).drop_first() =~= e);
        lemma_split_slash_plain(e);
        assert(escaped_tokens(toks) =~= seq![e]);
    } else {
        lemma_pointer_text_split(init);
        let p = pointer_text(init);
        assert(pointer_text(toks) =~= p + seq!['/'] + e) by {
            reveal_strlit("/");
        }
        assert(pointer_text(toks).drop_first() =~= p.drop_first() + seq!['/'] + e);
        lemma_split_slash_append(p.drop_first(), e);
        assert(escaped_tokens(toks) =~= escaped_tokens(init).push(e));
    }
}

proof fn lemma_walk_push(v: JsonV, ts: Seq<Seq<char>>, t: Seq<char>)
    ensures
        walk_tokens(v, ts.push(t)) == match walk_tokens(v, ts) {
            Some(c) => step(c, unescape_token(t)),
            None => None,
        },
    decreases ts.len(),
{
    if ts.len() == 0 {
        assert(ts.push(t).drop_first() =~= Seq::<Seq<char>>::empty());
        assert(ts.push(t)[0] == t);
        assert(walk_tokens(v, ts) == Some(v));
        match step(v, unescape_token(t)) {
            Some(c) => {
                assert(walk_tokens(c, Seq::<Seq<char>>::empty()) == Some(c));
            },
            None => {},
        }
    } else {
        assert(ts.push(t).drop_first() =~= ts.drop_first().push(t));
        assert(ts.push(t)[0] == ts[0]);
        match step(v, unescape_token(ts[0])) {
            Some(c) => {
                lemma_walk_push(c, ts.drop_first(), t);
            },
            None => {},
        }
    }
}

/// Going one step further in a location goes one step further in the document.
proof fn lemma_pointer_push(root: JsonV, toks: Seq<(Seq<char>, bool)>, t: (Seq<char>, bool))
    ensures
        pointer_of(root, pointer_text(toks.push(t))) == match pointer_of(root, pointer_text(toks)) {
            Some(c) => step(c, t.0),
            None => None,
        },
{
    let all = toks.push(t);
    lemma_pointer_text_split(all);
    law_unescape_undoes_escape(t.0);
    assert(escaped_tokens(all) =~= escaped_tokens(toks).push(escape(t.0)));
    lemma_walk_push(root, escaped_tokens(toks), escape(t.0));
    if toks.len() == 0 {
        assert(escaped_tokens(toks) =~= Seq::<Seq<char>>::empty());
        assert(pointer_text(toks) =~= Seq::<char>::empty());
    } else {
        lemma_pointer_text_split(toks);
    }
}

pub proof fn lemma_decimal_digits(n: nat)
    ensures
        decimal(n).len() > 0,
        forall|i: int| 0 <= i < decimal(n).len() ==> is_digit(#[trigger] decimal(n)[i]),
        decimal(n)[0] == '0' ==> decimal(n).len() == 1,
        digits_value(decimal(n)) == n,
    decreases n,
{
    if n < 10 {
        assert(digit_value(digit_char(n)) == n);
        assert(seq![digit_char(n)].drop_last() =~= Seq::<char>::empty());
        assert(digits_value(seq![digit_char(n)]) == digits_value(Seq::<char>::empty()) * 10 + digit_value(digit_char(n)));
    } else {
        lemma_decimal_digits(n / 10);
        let d = decimal(n / 10);
        assert(decimal(n) == d.push(digit_char(n % 10)));
        assert(d.push(digit_char(n % 10)).drop_last() =~= d);
        assert(digit_value(digit_char(n % 10)) == n % 10);
        assert(n == (n / 10) * 10 + n % 10) by (nonlinear_arith);
        assert(n / 10 > 0);
        assert(digits_value(d.push(digit_char(n % 10))) == digits_value(d) * 10 + digit_value(digit_char(n % 10)));
        if d[0] == '0' {
            assert(d.len() == 1);
            assert(digits_value(d) == digits_value(d.drop_last()) * 10 + digit_value(d.last()));
            assert(d.drop_last() =~= Seq::<char>::empty());
        }
        assert(decimal(n)[0] == d[0]);
    }
}

proof fn lemma_index_token_decimal(i: nat)
    requires
        i <= usize::MAX,
    ensures
        index_token(decimal(i)) == Some(i),
{
    lemma_decimal_digits(i);
}

/// The step to a child leads to that child, in a well-formed value.
proof fn lemma_step_child(v: JsonV, i: int)
    requires
        locally_well_formed(v),
        0 <= i < child_count(v),
    ensures
        step(v, child_token(v, i).0) == Some(child(v, i)),
{
    match v {
        JsonV::Object(f) => {
            assert forall|j: int| 0 <= j < i implies f[j].0 != f[i].0 by {}
            lemma_key_index_at(f, f[i].0, i);
        },
        JsonV::Array(a) => {
            lemma_index_token_decimal(i as nat);
        },
        _ => {},
    }
}

/// `h` is the record of a string `s` the keyword matches, found where its pointer says.
pub open spec fn hit_located(sel: HitSelection, kw: (Seq<char>, bool, bool), root: JsonV, h: JsonV) -> bool {
    exists|toks: Seq<(Seq<char>, bool)>, s: Seq<char>|
        #![trigger hit_members(sel, toks, s)]
        h == JsonV::Object(hit_members(sel, toks, s)) && pointer_of(root, pointer_text(toks)) == Some(JsonV::Str(s))
            && keyword_holds(kw.0, kw.1, kw.2, s)
}

proof fn lemma_hits_located(sel: HitSelection, kw: (Seq<char>, bool, bool), root: JsonV, v: JsonV, toks: Seq<(Seq<char>, bool)>)
    requires
        well_formed_doc(v),
        pointer_of(root, pointer_text(toks)) == Some(v),
    ensures
        forall|i: int| 0 <= i < hits_of(sel, kw, v, toks).len() ==> hit_located(sel, kw, root, #[trigger] hits_of(sel, kw, v, toks)[i]),
    decreases v, child_count(v) + 1,
{
    match v {
        JsonV::Str(s) => {
            let hs = hits_of(sel, kw, v, toks);
            assert forall|i: int| 0 <= i < hs.len() implies hit_located(sel, kw, root, #[trigger] hs[i]) by {
                assert(keyword_holds(kw.0, kw.1, kw.2, s));
                assert(i == 0);
                assert(hs[0] == JsonV::Object(hit_members(sel, toks, s)));
            }
        },
        JsonV::Array(a) => {
            lemma_hits_children_located(sel, kw, root, v, toks, a.len() as int);
            assert(hits_of(sel, kw, v, toks) == hits_of_children(sel, kw, v, toks, a.len() as int));
        },
        JsonV::Object(f) => {
            lemma_hits_children_located(sel, kw, root, v, toks, f.len() as int);
            assert(hits_of(sel, kw, v, toks) == hits_of_children(sel, kw, v, toks, f.len() as int));
        },
        _ => {},
    }
}

proof fn lemma_hits_children_located(
    sel: HitSelection,
    kw: (Seq<char>, bool, bool),
    root: JsonV,
    v: JsonV,
    toks: Seq<(Seq<char>, bool)>,
    n: int,
)
    requires
        well_formed_doc(v),
        pointer_of(root, pointer_text(toks)) == Some(v),
        0 <= n <= child_count(v),
    ensures
        forall|i: int|
            0 <= i < hits_of_children(sel, kw, v, toks, n).len() ==> hit_located(
                sel,
                kw,
                root,
                #[trigger] hits_of_children(sel, kw, v, toks, n)[i],
            ),
    decreases v, n,
{
    if n > 0 {
        crate::commands::convert::lemma_child_decreases(v, n - 1);
        lemma_hits_children_located(sel, kw, root, v, toks, n - 1);
        let c = child(v, n - 1);
        let t = child_token(v, n - 1);
        lemma_well_formed_child(v, child_count(v) as int, n - 1);
        lemma_step_child(v, n - 1);
        lemma_pointer_push(root, toks, t);
        lemma_hits_located(sel, kw, root, c, toks.push(t));
        let a = hits_of_children(sel, kw, v, toks, n - 1);
        let b = hits_of(sel, kw, c, toks.push(t));
        assert(hits_of_children(sel, kw, v, toks, n) == a + b);
        assert forall|i: int| 0 <= i < (a + b).len() implies hit_located(sel, kw, root, #[trigger] (a + b)[i]) by {
            if i < a.len() {
                assert((a + b)[i] == a[i]);
            } else {
                assert((a + b)[i] == b[i - a.len()]);
            }
        }
    }
}

/// Every hit of `search` reports a string the keyword matches, and its pointer designates
/// exactly that string in the document (whose objects repeat no key).
pub proof fn law_hits_are_where_their_pointer_says(sel: HitSelection, kw: (Seq<char>, bool, bool), spec: JsonV)
    requires
        well_formed_doc(spec),
    ensures
        forall|i: int|
            0 <= i < hits_of(sel, kw, spec, Seq::empty()).len() ==> hit_located(
                sel,
                kw,
                spec,
                #[trigger] hits_of(sel, kw, spec, Seq::empty())[i],
            ),
{
    assert(pointer_text(Seq::<(Seq<char>, bool)>::empty()) =~= Seq::<char>::empty());
    lemma_hits_located(sel, kw, spec, spec, Seq::empty());
}

} // verus!
