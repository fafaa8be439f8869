//! Output layouts.

use vstd::prelude::*;
use crate::cli::Format;
use crate::encode::{json_text, to_json_text};
use crate::json::{elems_view, lemma_array_view, Json, JsonV};
use crate::text::push_str;

verus! {

/// How JSON output is laid out.
#[derive(Debug, Clone, Copy, PartialEq, Eq, Structural)]
pub enum Display {
    Pretty,
    Compact,
    Lines,
}

/// `parts` joined by `sep`.
pub open spec fn join(parts: Seq<Seq<char>>, sep: Seq<char>) -> Seq<char>
    decreases parts.len(),
{
    if parts.len() == 0 {
        Seq::empty()
    } else if parts.len() == 1 {
        parts[0]
    } else {
        join(parts.drop_last(), sep) + sep + parts.last()
    }
}

/// A top-level array with one compact element per line: `[]` when empty.
pub open spec fn lines_text(parts: Seq<Seq<char>>) -> Seq<char> {
    if parts.len() == 0 {
        "[]"@
    } else {
        "[\n  "@ + join(parts, ",\n  "@) + "\n]"@
    }
}

/// `parts` joined by `sep` (std's `join`).
pub fn join_with(parts: &Vec<String>, sep: &str) -> (r: String)
    ensures
        r@ == join(parts@.map_values(|p: String| p@), sep@),
{
    let ghost ps = parts@.map_values(|p: String| p@);
    let mut out = String::new();
    let mut i: usize = 0;
    assert(join(ps.take(0), sep@) =~= Seq::<char>::empty());
    while i < parts.len()
        invariant
            i <= parts.len(),
            ps == parts@.map_values(|p: String| p@),
            out@ == join(ps.take(i as int), sep@),
        decreases parts.len() - i,
    {
        assert(ps.take(i + 1).drop_last() =~= ps.take(i as int));
        if i > 0 {
            push_str(&mut out, sep);
        } else {
            assert(ps.take(1) =~= seq![ps[0]]);
        }
        push_str(&mut out, parts[i].as_str());
        i = i + 1;
    }
    assert(ps.take(ps.len() as int) =~= ps);
    out
}

/// Lays out the compact texts of the elements of a top-level array, one per line.
pub fn lines_layout(parts: &Vec<String>) -> (r: String)
    ensures
        r@ == lines_text(parts@.map_values(|p: String| p@)),
{
    let ghost ps = parts@.map_values(|p: String| p@);
    if parts.len() == 0 {
        return crate::text::owned("[]");
    }
    let mut body = String::new();
    let mut i: usize = 0;
    while i < parts.len()
        invariant
            i <= parts.len(),
            ps == parts@.map_values(|p: String| p@),
            body@ == join(ps.take(i as int), ",\n  "@),
        decreases parts.len() - i,
    {
        assert(ps.take(i + 1).drop_last() =~= ps.take(i as int));
        if i > 0 {
            push_str(&mut body, ",\n  ");
        } else {
            assert(join(ps.take(0), ",\n  "@) =~= Seq::<char>::empty());
        }
        push_str(&mut body, parts[i].as_str());
        i = i + 1;
    }
    assert(ps.take(parts@.len() as int) =~= ps);
    let mut r = crate::text::owned("[\n  ");
    push_str(&mut r, body.as_str());
    push_str(&mut r, "\n]");
    r
}

/// `--lines` output of a value: the elements of an array in compact JSON, one per line;
/// `None` for any other value, which is shown pretty instead.
pub open spec fn lines_view(v: JsonV) -> Option<Seq<char>> {
    match v {
        JsonV::Array(a) => Some(lines_text(Seq::new(a.len(), |i: int| json_text(a[i])))),
        _ => None,
    }
}

/// The `--lines` text of a value, when it is an array.
pub fn render_lines(v: &Json) -> (r: Option<String>)
    ensures
        r is Some <==> lines_view(v@) is Some,
        r matches Some(s) ==> lines_view(v@) == Some(s@),
{
    match v {
        Json::Array(items) => {
            let ghost ev = elems_view(items@);
            let mut parts: Vec<String> = Vec::new();
            let mut i: usize = 0;
            while i < items.len()
                invariant
                    i <= items.len(),
                    ev == elems_view(items@),
                    parts@.len() == i,
                    forall|j: int| 0 <= j < i ==> #[trigger] parts@[j]@ == json_text(ev[j]),
                decreases items.len() - i,
            {
                let t = to_json_text(&items[i]);
                parts.push(t);
                i = i + 1;
            }
            let out = lines_layout(&parts);
            proof {
                lemma_array_view(*items);
                assert(parts@.map_values(|p: String| p@) =~= Seq::new(ev.len(), |k: int| json_text(ev[k])));
            }
            Some(out)
        },
        _ => None,
    }
}

/// The layout chosen by `-c` and `-l`: compact wins over lines, pretty is the default.
pub open spec fn display_of(compact: bool, lines: bool) -> Display {
    if compact {
        Display::Compact
    } else if lines {
        Display::Lines
    } else {
        Display::Pretty
    }
}

/// How a command's output is written: YAML, pretty or compact JSON, or the given text.
#[derive(Debug)]
pub enum Rendering {
    Yaml,
    PrettyJson,
    CompactJson,
    Text(String),
}

/// What is written for a value: YAML ignores the JSON layout flags; `-l` lays an array out
/// one compact element per line and falls back to pretty JSON for any other value.
pub open spec fn rendering_ok(format: Format, compact: bool, lines: bool, v: JsonV, r: Rendering) -> bool {
    match format {
        Format::Yaml => r is Yaml,
        Format::Json => match display_of(compact, lines) {
            Display::Compact => r is CompactJson,
            Display::Pretty => r is PrettyJson,
            Display::Lines => match lines_view(v) {
                Some(t) => r matches Rendering::Text(s) && s@ == t,
                None => r is PrettyJson,
            },
        },
    }
}

/// Chooses how to write `v`.
pub fn rendering(format: Format, compact: bool, lines: bool, v: &Json) -> (r: Rendering)
    ensures
        rendering_ok(format, compact, lines, v@, r),
{
    match format {
        Format::Yaml => Rendering::Yaml,
        Format::Json => {
            if compact {
                Rendering::CompactJson
            } else if lines {
                match render_lines(v) {
                    Some(t) => Rendering::Text(t),
                    None => Rendering::PrettyJson,
                }
            } else {
                Rendering::PrettyJson
            }
        },
    }
}

} // verus!
