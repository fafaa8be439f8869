//! The `--filter` DSL: `key=value` clauses, all of which must hold.
//!
//! | key | value |
//! |---|---|
//! | `method` | HTTP methods, comma-separated, any case; one must match |
//! | `path` | glob: `foo` exact, `foo*` prefix, `*foo` suffix, `*foo*` contains |
//! | `tag` | tag names, comma-separated; the operation must carry one |
//! | `operationId`, `summary`, `description` | glob, as for `path` |
//! | `deprecated` | `true` or `false` |

use vstd::prelude::*;
use crate::error::{is_other, OadigError};
use crate::matcher::{regex_build_error, regex_finds, Matcher};
use crate::json::{array_of, bool_of, member, str_of, Json, JsonV};
use crate::text::{
    ascii_lowercase, chars_of, concat3, contains, contains_seq, ends_with, find_char, is_prefix, is_suffix, lower,
    split_char, split_on, split_once, starts_with, str_eq, string_from,
};

verus! {

#[derive(Debug, Clone, Copy, PartialEq, Eq, Structural)]
pub enum GlobKind {
    Exact,
    Prefix,
    Suffix,
    Contains,
}

/// A glob with at most a leading and a trailing `*`.
#[derive(Debug)]
pub struct Glob {
    pub kind: GlobKind,
    pub text: String,
}

/// One `key=value` clause.
#[derive(Debug)]
pub enum Clause {
    /// Lower-cased method names.
    Method(Vec<String>),
    Path(Glob),
    /// A regular expression the path must match somewhere.
    PathRegex(Matcher),
    Tag(Vec<String>),
    OperationId(Glob),
    Summary(Glob),
    Description(Glob),
    Deprecated(bool),
}

/// The glob a pattern text stands for.
pub open spec fn glob_of(t: Seq<char>) -> (GlobKind, Seq<char>) {
    if t.len() >= 2 && t[0] == '*' && t.last() == '*' {
        (GlobKind::Contains, t.subrange(1, t.len() - 1))
    } else if t.len() >= 1 && t[0] == '*' {
        (GlobKind::Suffix, t.drop_first())
    } else if t.len() >= 1 && t.last() == '*' {
        (GlobKind::Prefix, t.drop_last())
    } else {
        (GlobKind::Exact, t)
    }
}

pub open spec fn glob_holds(kind: GlobKind, text: Seq<char>, s: Seq<char>) -> bool {
    match kind {
        GlobKind::Exact => s == text,
        GlobKind::Prefix => is_prefix(text, s),
        GlobKind::Suffix => is_suffix(text, s),
        GlobKind::Contains => contains_seq(s, text),
    }
}

impl Glob {
    pub open spec fn view_pair(&self) -> (GlobKind, Seq<char>) {
        (self.kind, self.text@)
    }

    pub fn parse(t: &str) -> (g: Glob)
        ensures
            g.view_pair() == glob_of(t@),
    {
        let cs = chars_of(t);
        let n = cs.len();
        if n >= 2 && cs[0] == '*' && cs[n - 1] == '*' {
            let mut s = String::new();
            let mut i: usize = 1;
            while i < n - 1
                invariant
                    1 <= i <= n - 1,
                    n == cs.len(),
                    s@ == cs@.subrange(1, i as int),
                decreases n - 1 - i,
            {
                crate::text::push_char(&mut s, cs[i]);
                i = i + 1;
                assert(cs@.subrange(1, i as int) =~= cs@.subrange(1, i - 1).push(cs@[i - 1]));
            }
            Glob { kind: GlobKind::Contains, text: s }
        } else if n >= 1 && cs[0] == '*' {
            Glob { kind: GlobKind::Suffix, text: string_from(&cs, 1) }
        } else if n >= 1 && cs[n - 1] == '*' {
            let mut s = String::new();
            let mut i: usize = 0;
            while i < n - 1
                invariant
                    i <= n - 1,
                    n == cs.len(),
                    s@ == cs@.take(i as int),
                decreases n - 1 - i,
            {
                crate::text::push_char(&mut s, cs[i]);
                i = i + 1;
                assert(cs@.take(i as int) =~= cs@.take(i - 1).push(cs@[i - 1]));
            }
            Glob { kind: GlobKind::Prefix, text: s }
        } else {
            Glob { kind: GlobKind::Exact, text: crate::text::owned(t) }
        }
    }

    pub fn matches(&self, s: &str) -> (r: bool)
        ensures
            r == glob_holds(self.kind, self.text@, s@),
    {
        match self.kind {
            GlobKind::Exact => str_eq(s, self.text.as_str()),
            GlobKind::Prefix => starts_with(s, self.text.as_str()),
            GlobKind::Suffix => ends_with(s, self.text.as_str()),
            GlobKind::Contains => contains(s, self.text.as_str()),
        }
    }
}

/// One of the names, compared without regard to ASCII case.
pub open spec fn names_hold(names: Seq<String>, s: Seq<char>) -> bool {
    exists|i: int| 0 <= i < names.len() && lower(#[trigger] names[i]@) == lower(s)
}

/// The operation's `tags` array holds one of the names.
pub open spec fn tags_hold(names: Seq<String>, op: JsonV) -> bool {
    match array_of(member(op, "tags"@)) {
        Some(tags) => exists|i: int, j: int|
            0 <= i < names.len() && 0 <= j < tags.len() && #[trigger] tags[j] == JsonV::Str(#[trigger] names[i]@),
        None => false,
    }
}

/// A string member of the operation matches the glob.
pub open spec fn member_glob_holds(g: (GlobKind, Seq<char>), op: JsonV, key: Seq<char>) -> bool {
    match str_of(member(op, key)) {
        Some(s) => glob_holds(g.0, g.1, s),
        None => false,
    }
}

pub open spec fn clause_holds(c: &Clause, method: Seq<char>, path: Seq<char>, op: JsonV) -> bool {
    match c {
        Clause::Method(ms) => names_hold(ms@, method),
        Clause::Path(g) => glob_holds(g.kind, g.text@, path),
        Clause::PathRegex(m) => regex_finds(m.pattern(), m.ignores_case(), path),
        Clause::Tag(ts) => tags_hold(ts@, op),
        Clause::OperationId(g) => member_glob_holds(g.view_pair(), op, "operationId"@),
        Clause::Summary(g) => member_glob_holds(g.view_pair(), op, "summary"@),
        Clause::Description(g) => member_glob_holds(g.view_pair(), op, "description"@),
        Clause::Deprecated(b) => (match bool_of(member(op, "deprecated"@)) {
            Some(d) => d,
            None => false,
        }) == *b,
    }
}

/// How a filter text is read: the key and value around the first `=`.
pub open spec fn key_value(s: Seq<char>) -> Option<(Seq<char>, Seq<char>)> {
    let i = find_char(s, '=');
    if i < 0 {
        None
    } else {
        Some((s.take(i), s.skip(i + 1)))
    }
}

pub open spec fn known_key(k: Seq<char>) -> bool {
    k == "method"@ || k == "path"@ || k == "tag"@ || k == "operationId"@ || k == "summary"@
        || k == "description"@ || k == "deprecated"@
}

/// The clause a filter text gives, or `None` when it is malformed, has an unknown key or
/// a `deprecated` value other than `true`/`false`.
pub open spec fn clause_ok(c: &Clause, s: Seq<char>) -> bool {
    match key_value(s) {
        Some((k, v)) => {
            let parts = split_on(v, ',');
            if k == "method"@ {
                c matches Clause::Method(ms) && ms@.len() == parts.len()
                    && forall|i: int| 0 <= i < parts.len() ==> #[trigger] ms@[i]@ == lower(parts[i])
            } else if k == "tag"@ {
                c matches Clause::Tag(ts) && ts@.len() == parts.len()
                    && forall|i: int| 0 <= i < parts.len() ==> #[trigger] ts@[i]@ == parts[i]
            } else if k == "path"@ {
                c matches Clause::Path(g) && g.view_pair() == glob_of(v)
            } else if k == "operationId"@ {
                c matches Clause::OperationId(g) && g.view_pair() == glob_of(v)
            } else if k == "summary"@ {
                c matches Clause::Summary(g) && g.view_pair() == glob_of(v)
            } else if k == "description"@ {
                c matches Clause::Description(g) && g.view_pair() == glob_of(v)
            } else if k == "deprecated"@ {
                (v == "true"@ && *c == Clause::Deprecated(true)) || (v == "false"@ && *c == Clause::Deprecated(false))
            } else {
                false
            }
        },
        None => false,
    }
}

/// The filter text parses.
pub open spec fn parses(s: Seq<char>) -> bool {
    match key_value(s) {
        Some((k, v)) => known_key(k) && (k == "deprecated"@ ==> (v == "true"@ || v == "false"@)),
        None => false,
    }
}

/// The message for a filter text that does not parse.
pub open spec fn parse_error(s: Seq<char>) -> Seq<char> {
    match key_value(s) {
        None => "invalid filter `"@ + s + "`: expected key=value"@,
        Some((k, v)) => if !known_key(k) {
            "unknown filter key `"@ + k
                + "`: expected one of method, path, tag, operationId, summary, description, deprecated"@
        } else {
            "invalid value `"@ + v + "` for deprecated: expected true or false"@
        },
    }
}

proof fn lemma_keys_not_deprecated()
    ensures
        "method"@ != "deprecated"@,
        "path"@ != "deprecated"@,
        "tag"@ != "deprecated"@,
        "operationId"@ != "deprecated"@,
        "summary"@ != "deprecated"@,
        "description"@ != "deprecated"@,
{
    reveal_strlit("method");
    reveal_strlit("path");
    reveal_strlit("tag");
    reveal_strlit("operationId");
    reveal_strlit("summary");
    reveal_strlit("description");
    reveal_strlit("deprecated");
    assert("deprecated"@.len() == 10);
}

fn lower_all(parts: Vec<String>) -> (r: Vec<String>)
    ensures
        r@.len() == parts@.len(),
        forall|i: int| 0 <= i < parts@.len() ==> #[trigger] r@[i]@ == lower(parts@[i]@),
{
    let mut r: Vec<String> = Vec::new();
    let mut i: usize = 0;
    while i < parts.len()
        invariant
            i <= parts.len(),
            r@.len() == i,
            forall|k: int| 0 <= k < i ==> #[trigger] r@[k]@ == lower(parts@[k]@),
        decreases parts.len() - i,
    {
        r.push(ascii_lowercase(parts[i].as_str()));
        i = i + 1;
    }
    r
}

impl Clause {
    /// Reads one `key=value` filter text.
    pub fn parse(s: &str) -> (r: Result<Clause, OadigError>)
        ensures
            r matches Ok(c) ==> parses(s@) && clause_ok(&c, s@),
            r matches Err(e) ==> !parses(s@) && is_other(&e, parse_error(s@)),
    {
        proof {
            lemma_keys_not_deprecated();
        }
        let kv = split_once(s, '=');
        match kv {
            None => Err(OadigError::Other(concat3("invalid filter `", s, "`: expected key=value"))),
            Some((k, v)) => {
                assert(key_value(s@) == Some((k@, v@)));
                if str_eq(k.as_str(), "method") {
                    let ps = split_char(v.as_str(), ',');
                    Ok(Clause::Method(lower_all(ps)))
                } else if str_eq(k.as_str(), "tag") {
                    let ps = split_char(v.as_str(), ',');
                    Ok(Clause::Tag(ps))
                } else if str_eq(k.as_str(), "path") {
                    Ok(Clause::Path(Glob::parse(v.as_str())))
                } else if str_eq(k.as_str(), "operationId") {
                    Ok(Clause::OperationId(Glob::parse(v.as_str())))
                } else if str_eq(k.as_str(), "summary") {
                    Ok(Clause::Summary(Glob::parse(v.as_str())))
                } else if str_eq(k.as_str(), "description") {
                    Ok(Clause::Description(Glob::parse(v.as_str())))
                } else if str_eq(k.as_str(), "deprecated") {
                    if str_eq(v.as_str(), "true") {
                        Ok(Clause::Deprecated(true))
                    } else if str_eq(v.as_str(), "false") {
                        Ok(Clause::Deprecated(false))
                    } else {
                        Err(OadigError::Other(concat3("invalid value `", v.as_str(), "` for deprecated: expected true or false")))
                    }
                } else {
                    Err(OadigError::Other(concat3(
                        "unknown filter key `",
                        k.as_str(),
                        "`: expected one of method, path, tag, operationId, summary, description, deprecated",
                    )))
                }
            },
        }
    }

    pub fn holds(&self, method: &str, path: &str, op: &Json) -> (r: bool)
        ensures
            r == clause_holds(self, method@, path@, op@),
    {
        match self {
            Clause::Method(ms) => names_match(ms, method),
            Clause::Path(g) => g.matches(path),
            Clause::PathRegex(m) => m.is_match(path),
            Clause::Tag(ts) => tags_match(ts, op),
            Clause::OperationId(g) => member_glob_match(g, op, "operationId"),
            Clause::Summary(g) => member_glob_match(g, op, "summary"),
            Clause::Description(g) => member_glob_match(g, op, "description"),
            Clause::Deprecated(b) => {
                let d = match op.get("deprecated") {
                    Some(v) => match v.as_bool() {
                        Some(x) => x,
                        None => false,
                    },
                    None => false,
                };
                d == *b
            },
        }
    }
}

fn names_match(ms: &Vec<String>, method: &str) -> (r: bool)
    ensures
        r == names_hold(ms@, method@),
{
    let m = ascii_lowercase(method);
    let mut i: usize = 0;
    while i < ms.len()
        invariant
            i <= ms.len(),
            m@ == lower(method@),
            forall|k: int| 0 <= k < i ==> lower(#[trigger] ms@[k]@) != lower(method@),
        decreases ms.len() - i,
    {
        let x = ascii_lowercase(ms[i].as_str());
        if str_eq(x.as_str(), m.as_str()) {
            assert(lower(ms@[i as int]@) == lower(method@));
            return true;
        }
        i = i + 1;
    }
    false
}

fn member_glob_match(g: &Glob, op: &Json, key: &str) -> (r: bool)
    ensures
        r == member_glob_holds(g.view_pair(), op@, key@),
{
    match op.get(key) {
        Some(v) => match v.as_str() {
            Some(s) => g.matches(s.as_str()),
            None => false,
        },
        None => false,
    }
}

fn tags_match(names: &Vec<String>, op: &Json) -> (r: bool)
    ensures
        r == tags_hold(names@, op@),
{
    let tags = match op.get("tags") {
        Some(t) => match t.as_array() {
            Some(a) => a,
            None => return false,
        },
        None => return false,
    };
    let ghost tv = crate::json::elems_view(tags@);
    let mut j: usize = 0;
    while j < tags.len()
        invariant
            j <= tags.len(),
            tv == crate::json::elems_view(tags@),
            array_of(member(op@, "tags"@)) == Some(tv),
            forall|i: int, jj: int|
                0 <= i < names@.len() && 0 <= jj < j ==> #[trigger] tv[jj] != JsonV::Str(#[trigger] names@[i]@),
        decreases tags.len() - j,
    {
        if let Some(s) = tags[j].as_str() {
            let mut i: usize = 0;
            while i < names.len()
                invariant
                    i <= names.len(),
                    j < tags.len(),
                    tv == crate::json::elems_view(tags@),
                    array_of(member(op@, "tags"@)) == Some(tv),
                    tv[j as int] == JsonV::Str(s@),
                    forall|k: int| 0 <= k < i ==> s@ != #[trigger] names@[k]@,
                decreases names.len() - i,
            {
                if names[i] == *s {
                    assert(tv[j as int] == JsonV::Str(names@[i as int]@));
                    return true;
                }
                i = i + 1;
            }
        }
        j = j + 1;
    }
    false
}

/// The `operations` filter: every clause holds.
#[derive(Debug)]
pub struct OpFilter {
    pub clauses: Vec<Clause>,
}

/// The `paths` filter: every path glob holds, and the expression, if any, matches.
#[derive(Debug)]
pub struct PathFilter {
    pub globs: Vec<Glob>,
    pub regex: Option<Matcher>,
}

pub open spec fn path_accepted(globs: Seq<Glob>, regex: Option<Matcher>, path: Seq<char>) -> bool {
    &&& forall|i: int| 0 <= i < globs.len() ==> glob_holds(#[trigger] globs[i].kind, globs[i].text@, path)
    &&& regex matches Some(m) ==> regex_finds(m.pattern(), m.ignores_case(), path)
}

pub open spec fn filter_accepts(clauses: Seq<Clause>, method: Seq<char>, path: Seq<char>, op: JsonV) -> bool {
    forall|i: int| 0 <= i < clauses.len() ==> clause_holds(#[trigger] &clauses[i], method, path, op)
}

/// Index of the first filter text that does not parse, or -1.
pub open spec fn first_bad(fs: Seq<String>, n: int) -> int
    decreases n,
{
    if n <= 0 {
        -1
    } else {
        let r = first_bad(fs, n - 1);
        if r >= 0 {
            r
        } else if !parses(fs[n - 1]@) {
            n - 1
        } else {
            -1
        }
    }
}

proof fn lemma_first_bad(fs: Seq<String>, n: int)
    requires
        0 <= n <= fs.len(),
    ensures
        -1 <= first_bad(fs, n) < n,
        first_bad(fs, n) == -1 <==> forall|i: int| 0 <= i < n ==> parses(#[trigger] fs[i]@),
        first_bad(fs, n) >= 0 ==> !parses(fs[first_bad(fs, n)]@)
            && forall|i: int| 0 <= i < first_bad(fs, n) ==> parses(#[trigger] fs[i]@),
    decreases n,
{
    if n > 0 {
        lemma_first_bad(fs, n - 1);
    }
}

/// The clauses `OpFilter::new` builds: methods, then the path expression, then the tag.
pub open spec fn built_clauses(cs: Seq<Clause>, methods: Seq<String>, p: Option<&str>, t: Option<&str>) -> bool {
    let nm: int = if methods.len() > 0 { 1 } else { 0 };
    let np: int = if p is Some { 1 } else { 0 };
    let nt: int = if t is Some { 1 } else { 0 };
    &&& cs.len() == nm + np + nt
    &&& nm == 1 ==> (cs[0] matches Clause::Method(ms) && ms@.len() == methods.len()
        && forall|i: int| 0 <= i < methods.len() ==> #[trigger] ms@[i]@ == lower(methods[i]@))
    &&& p matches Some(pp) ==> (cs[nm] matches Clause::PathRegex(m) && m.pattern() == pp@ && !m.ignores_case())
    &&& t matches Some(tt) ==> (cs[nm + np] matches Clause::Tag(ts) && ts@.len() == 1 && ts@[0]@ == tt@)
}

impl OpFilter {
    /// A filter on methods (any case; none means any), a regular expression the path must
    /// match, and a tag. An invalid expression is the error.
    pub fn new(methods: &[String], path_filter: Option<&str>, tag: Option<&str>) -> (r: Result<Self, OadigError>)
        ensures
            r is Err <==> (path_filter matches Some(p) && regex_build_error(p@, false) is Some),
            r matches Ok(f) ==> built_clauses(f.clauses@, methods@, path_filter, tag),
            r matches Err(e) ==> (path_filter matches Some(p) && is_other(&e, "invalid regex: "@ + regex_build_error(p@, false)->Some_0)),
    {
        let mut clauses: Vec<Clause> = Vec::new();
        if methods.len() > 0 {
            let mut ms: Vec<String> = Vec::new();
            let mut i: usize = 0;
            while i < methods.len()
                invariant
                    i <= methods.len(),
                    ms@.len() == i,
                    forall|k: int| 0 <= k < i ==> #[trigger] ms@[k]@ == lower(methods@[k]@),
                decreases methods.len() - i,
            {
                ms.push(ascii_lowercase(methods[i].as_str()));
                i = i + 1;
            }
            clauses.push(Clause::Method(ms));
        }
        if let Some(p) = path_filter {
            let m = Matcher::compile(p, false)?;
            clauses.push(Clause::PathRegex(m));
        }
        if let Some(t) = tag {
            let mut ts: Vec<String> = Vec::new();
            ts.push(crate::text::owned(t));
            clauses.push(Clause::Tag(ts));
        }
        Ok(OpFilter { clauses })
    }

    /// Reads repeated `--filter` texts; the first one that does not parse is the error.
    pub fn from_strings(filters: &[String]) -> (r: Result<Self, OadigError>)
        ensures
            r matches Ok(f) ==> first_bad(filters@, filters@.len() as int) == -1 && f.clauses@.len() == filters@.len()
                && forall|i: int| 0 <= i < filters@.len() ==> clause_ok(#[trigger] &f.clauses@[i], filters@[i]@),
            r matches Err(e) ==> first_bad(filters@, filters@.len() as int) >= 0
                && is_other(&e, parse_error(filters@[first_bad(filters@, filters@.len() as int)]@)),
    {
        let mut clauses: Vec<Clause> = Vec::new();
        let mut i: usize = 0;
        while i < filters.len()
            invariant
                i <= filters.len(),
                clauses@.len() == i,
                first_bad(filters@, i as int) == -1,
                forall|k: int| 0 <= k < i ==> clause_ok(#[trigger] &clauses@[k], filters@[k]@),
            decreases filters.len() - i,
        {
            proof {
                lemma_first_bad(filters@, i + 1);
            }
            match Clause::parse(filters[i].as_str()) {
                Ok(c) => {
                    clauses.push(c);
                },
                Err(e) => {
                    proof {
                        lemma_first_bad(filters@, filters@.len() as int);
                        lemma_first_bad(filters@, i as int);
                        lemma_first_bad_stable(filters@, i as int + 1, filters@.len() as int);
                    }
                    return Err(e);
                },
            }
            i = i + 1;
        }
        Ok(OpFilter { clauses })
    }

    pub fn accepts(&self, method: &str, path: &str, op: &Json) -> (r: bool)
        ensures
            r == filter_accepts(self.clauses@, method@, path@, op@),
    {
        let mut i: usize = 0;
        while i < self.clauses.len()
            invariant
                i <= self.clauses.len(),
                forall|k: int| 0 <= k < i ==> clause_holds(#[trigger] &self.clauses@[k], method@, path@, op@),
            decreases self.clauses.len() - i,
        {
            if !self.clauses[i].holds(method, path, op) {
                return false;
            }
            i = i + 1;
        }
        true
    }
}

proof fn lemma_first_bad_stable(fs: Seq<String>, n: int, m: int)
    requires
        0 <= n <= m <= fs.len(),
        first_bad(fs, n) >= 0,
    ensures
        first_bad(fs, m) == first_bad(fs, n),
    decreases m - n,
{
    if m > n {
        lemma_first_bad_stable(fs, n, m - 1);
    }
}

impl PathFilter {
    /// A filter on one optional regular expression; an invalid one is the error.
    pub fn new(path_filter: Option<&str>) -> (r: Result<Self, OadigError>)
        ensures
            r is Err <==> (path_filter matches Some(p) && regex_build_error(p@, false) is Some),
            r matches Ok(f) ==> f.globs@.len() == 0 && (match path_filter {
                Some(p) => f.regex matches Some(m) && m.pattern() == p@ && !m.ignores_case(),
                None => f.regex is None,
            }),
            r matches Err(e) ==> (path_filter matches Some(p) && is_other(&e, "invalid regex: "@ + regex_build_error(p@, false)->Some_0)),
    {
        let regex = match path_filter {
            Some(p) => Some(Matcher::compile(p, false)?),
            None => None,
        };
        Ok(PathFilter { globs: Vec::new(), regex })
    }

    /// Reads repeated `--filter` texts; `paths` accepts only the `path` key.
    pub fn from_strings(filters: &[String]) -> (r: Result<Self, OadigError>)
        ensures
            r matches Ok(f) ==> f.regex is None && f.globs@.len() == filters@.len() && forall|i: int| 0 <= i < filters@.len() ==> {
                &&& #[trigger] key_value(filters@[i]@) matches Some((k, v))
                &&& k == "path"@
                &&& f.globs@[i].view_pair() == glob_of(v)
            },
            r matches Err(e) ==> exists|i: int|
                0 <= i < filters@.len() && !is_path_clause(#[trigger] filters@[i]@)
                && (forall|j: int| 0 <= j < i ==> is_path_clause(#[trigger] filters@[j]@))
                && is_other(&e, path_filter_error(filters@[i]@)),
    {
        let mut globs: Vec<Glob> = Vec::new();
        let mut i: usize = 0;
        while i < filters.len()
            invariant
                i <= filters.len(),
                globs@.len() == i,
                forall|j: int| 0 <= j < i ==> {
                    &&& #[trigger] key_value(filters@[j]@) matches Some((k, v))
                    &&& k == "path"@
                    &&& globs@[j].view_pair() == glob_of(v)
                },
            decreases filters.len() - i,
        {
            let f = filters[i].as_str();
            match split_once(f, '=') {
                None => {
                    return Err(OadigError::Other(concat3("invalid filter `", f, "`: expected key=value")));
                },
                Some((k, v)) => {
                    if str_eq(k.as_str(), "path") {
                        globs.push(Glob::parse(v.as_str()));
                    } else {
                        let mut m = concat3("`paths` only supports the `path` filter key, got `", k.as_str(), "`");
                        return Err(OadigError::Other(m));
                    }
                },
            }
            i = i + 1;
        }
        Ok(PathFilter { globs, regex: None })
    }

    pub fn accepts(&self, path: &str) -> (r: bool)
        ensures
            r == path_accepted(self.globs@, self.regex, path@),
    {
        let mut i: usize = 0;
        while i < self.globs.len()
            invariant
                i <= self.globs.len(),
                forall|k: int| 0 <= k < i ==> glob_holds(#[trigger] self.globs@[k].kind, self.globs@[k].text@, path@),
            decreases self.globs.len() - i,
        {
            if !self.globs[i].matches(path) {
                return false;
            }
            i = i + 1;
        }
        match &self.regex {
            Some(m) => m.is_match(path),
            None => true,
        }
    }
}

/// The filter text is `path=...`.
pub open spec fn is_path_clause(s: Seq<char>) -> bool {
    match key_value(s) {
        Some((k, _)) => k == "path"@,
        None => false,
    }
}

/// The message for a `paths` filter text that is not a `path` clause.
pub open spec fn path_filter_error(s: Seq<char>) -> Seq<char> {
    match key_value(s) {
        None => "invalid filter `"@ + s + "`: expected key=value"@,
        Some((k, _)) => "`paths` only supports the `path` filter key, got `"@ + k + "`"@,
    }
}

/// Repeated `--filter`s narrow together: a filter made of two lists of clauses accepts
/// exactly what both accept.
pub proof fn law_filters_combine_as_and(
    c1: Seq<Clause>,
    c2: Seq<Clause>,
    method: Seq<char>,
    path: Seq<char>,
    op: JsonV,
)
    ensures
        filter_accepts(c1 + c2, method, path, op) == (filter_accepts(c1, method, path, op) && filter_accepts(
            c2,
            method,
            path,
            op,
        )),
{
    let c = c1 + c2;
    if filter_accepts(c, method, path, op) {
        assert forall|i: int| 0 <= i < c1.len() implies clause_holds(#[trigger] &c1[i], method, path, op) by {
            assert(c[i] == c1[i]);
        }
        assert forall|i: int| 0 <= i < c2.len() implies clause_holds(#[trigger] &c2[i], method, path, op) by {
            assert(c[c1.len() + i] == c2[i]);
        }
    }
    if filter_accepts(c1, method, path, op) && filter_accepts(c2, method, path, op) {
        assert forall|i: int| 0 <= i < c.len() implies clause_holds(#[trigger] &c[i], method, path, op) by {
            if i < c1.len() {
                assert(c[i] == c1[i]);
            } else {
                assert(c[i] == c2[i - c1.len()]);
            }
        }
    }
}


/// The two `deprecated` clauses split the operations: `deprecated=true` holds exactly for
/// an operation whose `deprecated` member is `true`, and `deprecated=false` for every
/// other one (an absent or non-boolean `deprecated` counts as not deprecated).
pub proof fn law_deprecated_clauses_partition(method: Seq<char>, path: Seq<char>, op: JsonV)
    ensures
        clause_holds(&Clause::Deprecated(true), method, path, op) == (member(op, "deprecated"@) == Some(JsonV::Bool(true))),
        clause_holds(&Clause::Deprecated(false), method, path, op) == !clause_holds(&Clause::Deprecated(true), method, path, op),
{
}


/// `--filter deprecated=true` keeps exactly the operations whose `deprecated` is `true`, and
/// `--filter deprecated=false` exactly the others.
pub proof fn law_deprecated_filter_text(c: &Clause, v: Seq<char>, method: Seq<char>, path: Seq<char>, op: JsonV)
    requires
        v == "true"@ || v == "false"@,
        clause_ok(c, "deprecated="@ + v),
    ensures
        clause_holds(c, method, path, op) == ((member(op, "deprecated"@) == Some(JsonV::Bool(true))) == (v == "true"@)),
{
    reveal_strlit("deprecated=");
    reveal_strlit("deprecated");
    reveal_strlit("true");
    reveal_strlit("false");
    reveal_strlit("method");
    reveal_strlit("tag");
    reveal_strlit("path");
    reveal_strlit("operationId");
    reveal_strlit("summary");
    reveal_strlit("description");
    assert("true"@.len() == 4 && "false"@.len() == 5 && "deprecated"@.len() == 10);
    assert("method"@.len() == 6 && "tag"@.len() == 3 && "path"@.len() == 4 && "operationId"@.len() == 11);
    assert("summary"@.len() == 7 && "description"@.len() == 11);
    let s = "deprecated="@ + v;
    assert("deprecated="@.len() == 11);
    assert(s[10] == '=');
    assert forall|j: int| 0 <= j < 10 implies s[j] != '=' by {
        assert(s[j] == "deprecated="@[j]);
    }
    crate::text::lemma_find_char(s, '=');
    let r = find_char(s, '=');
    assert(r == 10);
    assert(s.take(10) =~= "deprecated"@);
    assert(s.skip(11) =~= v);
    assert(key_value(s) == Some(("deprecated"@, v)));
    assert(*c == Clause::Deprecated(v == "true"@));
    law_deprecated_clauses_partition(method, path, op);
}

} // verus!
