//! Compact JSON text of a value, as `serde_json::to_string` writes it.
//!
//! The value is the library's own `Json`. serde_json can only serialise a type that
//! implements `serde::Serialize`, and no such impl can be given to a type of the verified
//! library (its derive is refused there, and an impl written in the program could not be
//! called from here). So the library writes the text itself, to the format that
//! `json_text` states: strings escaped as serde_json escapes them (`\"`, `\\`, `\n`, `\r`,
//! `\t`, `\b`, `\f`, other control characters as `\u00XX`), integers in decimal, floats
//! as the text they were read with, members in order, no whitespace.

use vstd::prelude::*;
use crate::json::{lemma_array_view, lemma_object_view, elems_view, fields_view, Json, JsonV, Number, NumberV};
use crate::resolver::{child, child_count};
use crate::text::{decimal, decimal_string, push_char, push_str};

verus! {

/// A lower-case hexadecimal digit.
pub open spec fn hex_digit(d: nat) -> char {
    if d < 10 {
        ((d + 48) as u8) as char
    } else {
        ((d + 87) as u8) as char
    }
}

/// How one character is written inside a string: `"` and `\` and the control
/// characters are escaped, everything else is written as it is.
pub open spec fn escape_char(c: char) -> Seq<char> {
    if c == '"' {
        "\\\""@
    } else if c == '\\' {
        "\\\\"@
    } else if c == '\u{8}' {
        "\\b"@
    } else if c == '\t' {
        "\\t"@
    } else if c == '\n' {
        "\\n"@
    } else if c == '\u{c}' {
        "\\f"@
    } else if c == '\r' {
        "\\r"@
    } else if (c as u32) < 32 {
        "\\u00"@ + seq![hex_digit(((c as u32) / 16) as nat), hex_digit(((c as u32) % 16) as nat)]
    } else {
        seq![c]
    }
}

/// The escaped contents of a string.
pub open spec fn escaped(s: Seq<char>) -> Seq<char>
    decreases s.len(),
{
    if s.len() == 0 {
        Seq::empty()
    } else {
        escaped(s.drop_last()) + escape_char(s.last())
    }
}

/// The text of a number.
pub open spec fn number_text(n: NumberV) -> Seq<char> {
    match n {
        NumberV::UInt(u) => decimal(u as nat),
        NumberV::Int(i) => if i < 0 {
            "-"@ + decimal((-i) as nat)
        } else {
            decimal(i as nat)
        },
        NumberV::Float(t) => t,
    }
}

/// A quoted string.
pub open spec fn string_text(s: Seq<char>) -> Seq<char> {
    "\""@ + escaped(s) + "\""@
}

/// The compact text of a value.
pub open spec fn json_text(v: JsonV) -> Seq<char>
    decreases v, child_count(v) + 1,
{
    match v {
        JsonV::Null => "null"@,
        JsonV::Bool(b) => if b {
            "true"@
        } else {
            "false"@
        },
        JsonV::Number(n) => number_text(n),
        JsonV::Str(s) => string_text(s),
        JsonV::Array(a) => "["@ + children_text(v, a.len() as int) + "]"@,
        JsonV::Object(f) => "{"@ + children_text(v, f.len() as int) + "}"@,
    }
}

/// The text of the `i`-th child: the value, with its quoted key for an object member.
pub open spec fn child_text(v: JsonV, i: int) -> Seq<char>
    decreases v, 0int,
{
    if 0 <= i < child_count(v) {
        proof {
            crate::commands::convert::lemma_child_decreases(v, i);
        }
        match v {
            JsonV::Object(f) => string_text(f[i].0) + ":"@ + json_text(child(v, i)),
            _ => json_text(child(v, i)),
        }
    } else {
        Seq::empty()
    }
}

/// The texts of the first `n` children, separated by commas.
pub open spec fn children_text(v: JsonV, n: int) -> Seq<char>
    decreases v, n,
{
    if n <= 0 || n > child_count(v) {
        Seq::empty()
    } else if n == 1 {
        child_text(v, 0)
    } else {
        children_text(v, n - 1) + ","@ + child_text(v, n - 1)
    }
}

fn hex_char(d: u32) -> (c: char)
    requires
        d < 16,
    ensures
        c == hex_digit(d as nat),
{
    if d < 10 {
        ((d + 48) as u8) as char
    } else {
        ((d + 87) as u8) as char
    }
}

/// Writes one character the way it appears inside a JSON string.
pub fn push_escaped_char(out: &mut String, c: char)
    ensures
        final(out)@ == old(out)@ + escape_char(c),
{
    if c == '"' {
        push_str(out, "\\\"");
    } else if c == '\\' {
        push_str(out, "\\\\");
    } else if c == '\u{8}' {
        push_str(out, "\\b");
    } else if c == '\t' {
        push_str(out, "\\t");
    } else if c == '\n' {
        push_str(out, "\\n");
    } else if c == '\u{c}' {
        push_str(out, "\\f");
    } else if c == '\r' {
        push_str(out, "\\r");
    } else if (c as u32) < 32 {
        let n = c as u32;
        push_str(out, "\\u00");
        let ghost mid = out@;
        push_char(out, hex_char(n / 16));
        push_char(out, hex_char(n % 16));
        assert(out@ =~= mid + seq![hex_digit((n / 16) as nat), hex_digit((n % 16) as nat)]);
    } else {
        push_char(out, c);
        assert(out@ =~= old(out)@ + seq![c]);
    }
}

/// Writes a quoted, escaped string.
pub fn push_string_text(out: &mut String, s: &str)
    ensures
        final(out)@ == old(out)@ + string_text(s@),
{
    let cs = crate::text::chars_of(s);
    push_str(out, "\"");
    let ghost start = out@;
    let mut i: usize = 0;
    assert(escaped(cs@.take(0)) =~= Seq::<char>::empty());
    assert(out@ =~= start + escaped(cs@.take(0)));
    while i < cs.len()
        invariant
            i <= cs.len(),
            cs@ == s@,
            out@ == start + escaped(cs@.take(i as int)),
        decreases cs.len() - i,
    {
        assert(cs@.take(i + 1).drop_last() =~= cs@.take(i as int));
        push_escaped_char(out, cs[i]);
        assert(out@ =~= start + escaped(cs@.take(i + 1)));
        i = i + 1;
    }
    assert(cs@.take(cs@.len() as int) =~= cs@);
    push_str(out, "\"");
    assert(out@ =~= old(out)@ + string_text(s@));
}

fn push_number(out: &mut String, n: &Number)
    ensures
        final(out)@ == old(out)@ + number_text(n@),
{
    match n {
        Number::UInt(u) => {
            let t = decimal_string(*u);
            push_str(out, t.as_str());
        },
        Number::Int(i) => {
            if *i < 0 {
                let m: u64 = (-(*i as i128)) as u64;
                push_str(out, "-");
                let t = decimal_string(m);
                push_str(out, t.as_str());
                assert(out@ =~= old(out)@ + ("-"@ + decimal((-(*i)) as nat)));
            } else {
                let t = decimal_string(*i as u64);
                push_str(out, t.as_str());
            }
        },
        Number::Float(t) => {
            push_str(out, t.as_str());
        },
    }
}

/// Appends the compact text of `v` to `out`.
pub fn write_json(v: &Json, out: &mut String)
    ensures
        final(out)@ == old(out)@ + json_text(v@),
    decreases v,
{
    match v {
        Json::Null => push_str(out, "null"),
        Json::Bool(b) => {
            if *b {
                push_str(out, "true");
            } else {
                push_str(out, "false");
            }
        },
        Json::Number(n) => push_number(out, n),
        Json::Str(s) => push_string_text(out, s.as_str()),
        Json::Array(a) => {
            proof {
                lemma_array_view(*a);
            }
            let ghost vv = v@;
            push_str(out, "[");
            let ghost start = out@;
            let mut i: usize = 0;
            assert(out@ =~= start + children_text(vv, 0));
            while i < a.len()
                invariant
                    i <= a.len(),
                    *v == Json::Array(*a),
                    vv == v@,
                    vv == JsonV::Array(elems_view(a@)),
                    out@ == start + children_text(vv, i as int),
                decreases a.len() - i,
            {
                assert(decreases_to!(*v => v->Array_0[i as int]));
                let ghost before = out@;
                if i > 0 {
                    push_str(out, ",");
                }
                let ghost mid = out@;
                write_json(&a[i], out);
                assert(child_text(vv, i as int) == json_text(a@[i as int]@));
                if i > 0 {
                    assert(out@ =~= start + children_text(vv, i + 1));
                } else {
                    assert(out@ =~= start + children_text(vv, 1));
                }
                i = i + 1;
            }
            push_str(out, "]");
            assert(out@ =~= old(out)@ + json_text(vv));
        },
        Json::Object(f) => {
            proof {
                lemma_object_view(*f);
            }
            let ghost vv = v@;
            push_str(out, "{");
            let ghost start = out@;
            let mut i: usize = 0;
            assert(out@ =~= start + children_text(vv, 0));
            while i < f.len()
                invariant
                    i <= f.len(),
                    *v == Json::Object(*f),
                    vv == v@,
                    vv == JsonV::Object(fields_view(f@)),
                    out@ == start + children_text(vv, i as int),
                decreases f.len() - i,
            {
                assert(decreases_to!(*v => v->Object_0[i as int].1));
                if i > 0 {
                    push_str(out, ",");
                }
                let ghost mid = out@;
                push_string_text(out, f[i].0.as_str());
                push_str(out, ":");
                write_json(&f[i].1, out);
                assert(child_text(vv, i as int) == string_text(f@[i as int].0@) + ":"@ + json_text(f@[i as int].1@));
                assert(out@ =~= mid + child_text(vv, i as int));
                if i > 0 {
                    assert(out@ =~= start + children_text(vv, i + 1));
                } else {
                    assert(out@ =~= start + children_text(vv, 1));
                }
                i = i + 1;
            }
            push_str(out, "}");
            assert(out@ =~= old(out)@ + json_text(vv));
        },
    }
}

/// The compact JSON text of a value.
pub fn to_json_text(v: &Json) -> (r: String)
    ensures
        r@ == json_text(v@),
{
    let mut out = String::new();
    write_json(v, &mut out);
    assert(out@ =~= json_text(v@));
    out
}

} // verus!
