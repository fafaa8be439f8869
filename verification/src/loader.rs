//! Choosing how an input document is parsed.

use vstd::prelude::*;
use crate::json::Json;
use crate::text::{ascii_lowercase, chars_of, lower, str_eq};

verus! {

/// The syntax of an input document.
#[derive(Debug, Clone, Copy, PartialEq, Eq, Structural)]
pub enum Format {
    Json,
    Yaml,
}

/// A parsed input document.
pub struct Loaded {
    pub value: Json,
}

/// Unicode `White_Space`, as `char::is_whitespace` tests it.
pub open spec fn is_ws(c: char) -> bool {
    ('\u{9}' <= c && c <= '\u{d}') || c == ' ' || c == '\u{85}' || c == '\u{a0}' || c == '\u{1680}'
        || ('\u{2000}' <= c && c <= '\u{200a}') || c == '\u{2028}' || c == '\u{2029}' || c == '\u{202f}'
        || c == '\u{205f}' || c == '\u{3000}'
}

fn is_whitespace(c: char) -> (r: bool)
    ensures
        r == is_ws(c),
{
    ('\u{9}' <= c && c <= '\u{d}') || c == ' ' || c == '\u{85}' || c == '\u{a0}' || c == '\u{1680}'
        || ('\u{2000}' <= c && c <= '\u{200a}') || c == '\u{2028}' || c == '\u{2029}' || c == '\u{202f}'
        || c == '\u{205f}' || c == '\u{3000}'
}

/// The format a file extension names: `json`, or `yaml`/`yml`, in any case.
pub open spec fn extension_format(ext: Seq<char>) -> Option<Format> {
    if lower(ext) == "json"@ {
        Some(Format::Json)
    } else if lower(ext) == "yaml"@ || lower(ext) == "yml"@ {
        Some(Format::Yaml)
    } else {
        None
    }
}

pub fn format_from_extension(ext: &str) -> (r: Option<Format>)
    ensures
        r == extension_format(ext@),
{
    let e = ascii_lowercase(ext);
    if str_eq(e.as_str(), "json") {
        Some(Format::Json)
    } else if str_eq(e.as_str(), "yaml") || str_eq(e.as_str(), "yml") {
        Some(Format::Yaml)
    } else {
        None
    }
}

/// Position of the first character that is not whitespace, or the length.
pub open spec fn first_non_ws(s: Seq<char>) -> int
    decreases s.len(),
{
    if s.len() == 0 {
        0
    } else if !is_ws(s[0]) {
        0
    } else {
        1 + first_non_ws(s.drop_first())
    }
}

/// The hint when there is one; otherwise JSON when the first character that is not
/// whitespace is `{` or `[`, YAML in every other case.
pub open spec fn detected_format(text: Seq<char>, hint: Option<Format>) -> Format {
    match hint {
        Some(f) => f,
        None => {
            let i = first_non_ws(text);
            if i < text.len() && (text[i] == '{' || text[i] == '[') {
                Format::Json
            } else {
                Format::Yaml
            }
        },
    }
}

proof fn lemma_first_non_ws_at(s: Seq<char>, i: int)
    requires
        0 <= i <= s.len(),
        forall|k: int| 0 <= k < i ==> is_ws(#[trigger] s[k]),
        i < s.len() ==> !is_ws(s[i]),
    ensures
        first_non_ws(s) == i,
    decreases s.len(),
{
    if s.len() > 0 && i > 0 {
        assert forall|k: int| 0 <= k < i - 1 implies is_ws(#[trigger] s.drop_first()[k]) by {
            assert(s.drop_first()[k] == s[k + 1]);
        }
        lemma_first_non_ws_at(s.drop_first(), i - 1);
    }
}

pub fn detect_format(text: &str, hint: Option<Format>) -> (r: Format)
    ensures
        r == detected_format(text@, hint),
{
    if let Some(f) = hint {
        return f;
    }
    let cs = chars_of(text);
    let mut i: usize = 0;
    while i < cs.len()
        invariant
            i <= cs.len(),
            cs@ == text@,
            hint is None,
            forall|k: int| 0 <= k < i ==> is_ws(#[trigger] cs@[k]),
        decreases cs.len() - i,
    {
        let c = cs[i];
        if is_whitespace(c) {
            i = i + 1;
            continue;
        }
        proof {
            lemma_first_non_ws_at(text@, i as int);
        }
        return if c == '{' || c == '[' {
            Format::Json
        } else {
            Format::Yaml
        };
    }
    proof {
        lemma_first_non_ws_at(text@, i as int);
    }
    Format::Yaml
}

} // verus!
