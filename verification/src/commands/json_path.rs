//! Reading a JSONPath back: `$` followed by `.name`, `["name"]` (with `\` escaping `\` and
//! `"`) and `[index]` steps, each taken from the value reached so far. The search's
//! `jsonPath` of a hit, read this way from the document, selects the string it reports.

use vstd::prelude::*;
use crate::commands::search::{
    child_token, hit_members, hits_of, hits_of_children, ident_char, ident_start, is_ident, json_path_seg, json_path_text,
    keyword_holds, lemma_decimal_digits, lemma_well_formed_child, locally_well_formed, quoted, well_formed_doc, HitSelection,
};
use crate::json::{key_index, lemma_key_index_at, lemma_lookup_first, lemma_lookup_skip, lookup, member, JsonV};
use crate::pointer::{digits_value, is_digit};
use crate::resolver::{child, child_count};
use crate::text::{decimal, lemma_replace_char_concat, replace_char};

verus! {

// ---- the reader ----
/// How many identifier characters `s` starts with.
pub open spec fn ident_run(s: Seq<char>) -> nat
    decreases s.len(),
{
    if s.len() > 0 && ident_char(s[0]) {
        1 + ident_run(s.drop_first())
    } else {
        0
    }
}

/// How many decimal digits `s` starts with.
pub open spec fn digit_run(s: Seq<char>) -> nat
    decreases s.len(),
{
    if s.len() > 0 && is_digit(s[0]) {
        1 + digit_run(s.drop_first())
    } else {
        0
    }
}

/// The body of a quoted name: the characters up to the closing `"`, a `\` taking the
/// character after it as it is; with what follows the closing quote.
pub open spec fn read_quoted(s: Seq<char>) -> Option<(Seq<char>, Seq<char>)>
    decreases s.len(),
{
    if s.len() == 0 {
        None
    } else if s[0] == '"' {
        Some((Seq::empty(), s.drop_first()))
    } else if s[0] == '\\' {
        if s.len() >= 2 {
            match read_quoted(s.skip(2)) {
                Some((k, r)) => Some((seq![s[1]] + k, r)),
                None => None,
            }
        } else {
            None
        }
    } else {
        match read_quoted(s.drop_first()) {
            Some((k, r)) => Some((seq![s[0]] + k, r)),
            None => None,
        }
    }
}

pub proof fn lemma_run_bounds(s: Seq<char>)
    ensures
        ident_run(s) <= s.len(),
        digit_run(s) <= s.len(),
    decreases s.len(),
{
    if s.len() > 0 {
        lemma_run_bounds(s.drop_first());
    }
}

pub proof fn lemma_read_quoted_shorter(s: Seq<char>)
    ensures
        read_quoted(s) matches Some((k, r)) ==> r.len() < s.len(),
    decreases s.len(),
{
    if s.len() > 0 && s[0] != '"' {
        if s[0] == '\\' {
            if s.len() >= 2 {
                lemma_read_quoted_shorter(s.skip(2));
            }
        } else {
            lemma_read_quoted_shorter(s.drop_first());
        }
    }
}

/// The value that the JSONPath steps `s` select from `v`.
pub open spec fn jp_steps(v: JsonV, s: Seq<char>) -> Option<JsonV>
    decreases s.len(),
{
    if s.len() == 0 {
        Some(v)
    } else if s[0] == '.' {
        let n = ident_run(s.drop_first()) as int;
        proof {
            lemma_run_bounds(s.drop_first());
        }
        if n == 0 {
            None
        } else {
            match v {
                JsonV::Object(f) => match lookup(f, s.subrange(1, n + 1)) {
                    Some(c) => jp_steps(c, s.skip(n + 1)),
                    None => None,
                },
                _ => None,
            }
        }
    } else if s[0] == '[' && s.len() >= 2 && s[1] == '"' {
        proof {
            lemma_read_quoted_shorter(s.skip(2));
        }
        match read_quoted(s.skip(2)) {
            Some((k, r)) => if r.len() > 0 && r[0] == ']' {
                match v {
                    JsonV::Object(f) => match lookup(f, k) {
                        Some(c) => jp_steps(c, r.drop_first()),
                        None => None,
                    },
                    _ => None,
                }
            } else {
                None
            },
            None => None,
        }
    } else if s[0] == '[' {
        let n = digit_run(s.drop_first()) as int;
        proof {
            lemma_run_bounds(s.drop_first());
        }
        if n > 0 && s.len() > n + 1 && s[n + 1] == ']' {
            match v {
                JsonV::Array(a) => {
                    let i = digits_value(s.subrange(1, n + 1));
                    if i < a.len() {
                        jp_steps(a[i as int], s.skip(n + 2))
                    } else {
                        None
                    }
                },
                _ => None,
            }
        } else {
            None
        }
    } else {
        None
    }
}

/// The value a JSONPath (`$` and steps) selects in `root`.
pub open spec fn jsonpath_select(root: JsonV, p: Seq<char>) -> Option<JsonV> {
    if p.len() > 0 && p[0] == '$' {
        jp_steps(root, p.drop_first())
    } else {
        None
    }
}

// ---- reading back what the search writes ----
/// Steps may follow here: nothing, or a text that starts a step.
pub open spec fn step_start(y: Seq<char>) -> bool {
    y.len() == 0 || y[0] == '.' || y[0] == '['
}

/// An index step of a location names its index in decimal digits.
pub open spec fn index_steps_are_digits(toks: Seq<(Seq<char>, bool)>) -> bool {
    forall|i: int|
        0 <= i < toks.len() && (#[trigger] toks[i]).1 ==> toks[i].0.len() > 0 && forall|j: int|
            0 <= j < toks[i].0.len() ==> is_digit(#[trigger] toks[i].0[j])
}

proof fn lemma_ident_run(k: Seq<char>, y: Seq<char>)
    requires
        forall|i: int| 0 <= i < k.len() ==> ident_char(#[trigger] k[i]),
        step_start(y),
    ensures
        ident_run(k + y) == k.len(),
    decreases k.len(),
{
    if k.len() == 0 {
        assert(k + y =~= y);
    } else {
        assert((k + y).drop_first() =~= k.drop_first() + y);
        assert((k + y)[0] == k[0]);
        lemma_ident_run(k.drop_first(), y);
    }
}

proof fn lemma_digit_run(d: Seq<char>, y: Seq<char>)
    requires
        forall|i: int| 0 <= i < d.len() ==> is_digit(#[trigger] d[i]),
        y.len() > 0 && !is_digit(y[0]),
    ensures
        digit_run(d + y) == d.len(),
    decreases d.len(),
{
    if d.len() == 0 {
        assert(d + y =~= y);
    } else {
        assert((d + y).drop_first() =~= d.drop_first() + y);
        assert((d + y)[0] == d[0]);
        lemma_digit_run(d.drop_first(), y);
    }
}

/// The escaped body of a quoted name.
pub open spec fn escaped_body(k: Seq<char>) -> Seq<char> {
    replace_char(replace_char(k, '\\', "\\\\"@), '"', "\\\""@)
}

proof fn lemma_escaped_body_front(k: Seq<char>)
    requires
        k.len() > 0,
    ensures
        escaped_body(k) == (if k[0] == '\\' {
            seq!['\\', '\\']
        } else if k[0] == '"' {
            seq!['\\', '"']
        } else {
            seq![k[0]]
        }) + escaped_body(k.drop_first()),
{
    reveal_strlit("\\\\");
    reveal_strlit("\\\"");
    assert("\\\\"@ =~= seq!['\\', '\\']);
    assert("\\\""@ =~= seq!['\\', '"']);
    let h = if k[0] == '\\' {
        "\\\\"@
    } else {
        seq![k[0]]
    };
    let r = replace_char(k.drop_first(), '\\', "\\\\"@);
    assert(replace_char(k, '\\', "\\\\"@) == h + r);
    lemma_replace_char_concat(h, r, '"', "\\\""@);
    let q = "\\\""@;
    if k[0] == '\\' {
        let h1 = h.drop_first();
        assert(h1 =~= seq!['\\']);
        assert(h1.drop_first() =~= Seq::<char>::empty());
        assert(replace_char(h1.drop_first(), '"', q) =~= Seq::<char>::empty());
        assert(replace_char(h1, '"', q) =~= seq!['\\'] + replace_char(h1.drop_first(), '"', q));
        assert(replace_char(h, '"', q) =~= seq!['\\'] + replace_char(h1, '"', q));
        assert(replace_char(h, '"', q) =~= seq!['\\', '\\']);
    } else {
        assert(h.drop_first() =~= Seq::<char>::empty());
        assert(replace_char(h.drop_first(), '"', q) =~= Seq::<char>::empty());
        if k[0] == '"' {
            assert(replace_char(h, '"', q) =~= q + replace_char(h.drop_first(), '"', q));
            assert(replace_char(h, '"', q) =~= seq!['\\', '"']);
        } else {
            assert(replace_char(h, '"', q) =~= seq![k[0]] + replace_char(h.drop_first(), '"', q));
        }
    }
}

proof fn lemma_read_quoted_back(k: Seq<char>, z: Seq<char>)
    ensures
        read_quoted(escaped_body(k) + seq!['"'] + z) == Some((k, z)),
    decreases k.len(),
{
    let s = escaped_body(k) + seq!['"'] + z;
    if k.len() == 0 {
        assert(escaped_body(k) =~= Seq::<char>::empty());
        assert(s =~= seq!['"'] + z);
        assert(s.drop_first() =~= z);
    } else {
        lemma_escaped_body_front(k);
        let rest = escaped_body(k.drop_first()) + seq!['"'] + z;
        lemma_read_quoted_back(k.drop_first(), z);
        if k[0] == '\\' || k[0] == '"' {
            assert(s =~= seq!['\\', k[0]] + rest);
            assert(s.skip(2) =~= rest);
        } else {
            assert(s =~= seq![k[0]] + rest);
            assert(s.drop_first() =~= rest);
        }
        assert(seq![k[0]] + k.drop_first() =~= k);
    }
}

/// A step written by the search, followed by more steps, is read as that step and then
/// the rest.
proof fn lemma_seg_then(c: JsonV, t: (Seq<char>, bool), y: Seq<char>)
    requires
        step_start(y),
        t.1 ==> t.0.len() > 0 && forall|j: int| 0 <= j < t.0.len() ==> is_digit(#[trigger] t.0[j]),
    ensures
        jp_steps(c, json_path_seg(t) + y) == match jp_steps(c, json_path_seg(t)) {
            Some(c2) => jp_steps(c2, y),
            None => None,
        },
        jp_steps(c, json_path_seg(t)) == (if t.1 {
            match c {
                JsonV::Array(a) => if digits_value(t.0) < a.len() {
                    Some(a[digits_value(t.0) as int])
                } else {
                    None
                },
                _ => None,
            }
        } else {
            match c {
                JsonV::Object(f) => lookup(f, t.0),
                _ => None,
            }
        }),
{
    reveal_strlit("[");
    reveal_strlit("]");
    reveal_strlit(".");
    reveal_strlit("\"");
    let e = Seq::<char>::empty();
    assert(step_start(e));
    if t.1 {
        let d = t.0;
        let seg = seq!['['] + d + seq![']'];
        assert(json_path_seg(t) =~= seg);
        let ay = |yy: Seq<char>| seq!['['] + d + seq![']'] + yy;
        assert forall|yy: Seq<char>| step_start(yy) implies jp_steps(c, #[trigger] ay(yy)) == match c {
            JsonV::Array(a) => if digits_value(d) < a.len() {
                jp_steps(a[digits_value(d) as int], yy)
            } else {
                None
            },
            _ => None,
        } by {
            let s = ay(yy);
            assert(s.drop_first() =~= d + (seq![']'] + yy));
            lemma_digit_run(d, seq![']'] + yy);
            let n = d.len() as int;
            assert(s[0] == '[');
            assert(s[1] == d[0]);
            assert(s[n + 1] == ']');
            assert(s.subrange(1, n + 1) =~= d);
            assert(s.skip(n + 2) =~= yy);
        }
        assert(ay(y) == json_path_seg(t) + y);
        assert(ay(e) =~= json_path_seg(t));
    } else if is_ident(t.0) {
        let k = t.0;
        let ay = |yy: Seq<char>| seq!['.'] + k + yy;
        assert forall|yy: Seq<char>| step_start(yy) implies jp_steps(c, #[trigger] ay(yy)) == match c {
            JsonV::Object(f) => match lookup(f, k) {
                Some(c2) => jp_steps(c2, yy),
                None => None,
            },
            _ => None,
        } by {
            let s = ay(yy);
            assert(s.drop_first() =~= k + yy);
            assert forall|i: int| 0 <= i < k.len() implies ident_char(#[trigger] k[i]) by {
                if i == 0 {
                    assert(ident_start(k[0]));
                }
            }
            lemma_ident_run(k, yy);
            let n = k.len() as int;
            assert(s.subrange(1, n + 1) =~= k);
            assert(s.skip(n + 1) =~= yy);
        }
        assert(json_path_seg(t) =~= seq!['.'] + k);
        assert(ay(y) =~= json_path_seg(t) + y);
        assert(ay(e) =~= json_path_seg(t));
    } else {
        let k = t.0;
        let ay = |yy: Seq<char>| seq!['[', '"'] + escaped_body(k) + seq!['"'] + seq![']'] + yy;
        assert forall|yy: Seq<char>| step_start(yy) implies jp_steps(c, #[trigger] ay(yy)) == match c {
            JsonV::Object(f) => match lookup(f, k) {
                Some(c2) => jp_steps(c2, yy),
                None => None,
            },
            _ => None,
        } by {
            let s = ay(yy);
            assert(s.skip(2) =~= escaped_body(k) + seq!['"'] + (seq![']'] + yy));
            lemma_read_quoted_back(k, seq![']'] + yy);
            assert((seq![']'] + yy).drop_first() =~= yy);
        }
        assert(quoted(k) =~= seq!['"'] + escaped_body(k) + seq!['"']);
        assert(json_path_seg(t) =~= seq!['[', '"'] + escaped_body(k) + seq!['"'] + seq![']']);
        assert(ay(y) =~= json_path_seg(t) + y);
        assert(ay(e) =~= json_path_seg(t));
    }
}

/// What follows the `$` of a location's JSONPath.
pub open spec fn path_steps(toks: Seq<(Seq<char>, bool)>) -> Seq<char> {
    json_path_text(toks).drop_first()
}

proof fn lemma_path_steps(toks: Seq<(Seq<char>, bool)>)
    ensures
        json_path_text(toks).len() > 0,
        json_path_text(toks)[0] == '$',
        toks.len() == 0 ==> path_steps(toks).len() == 0,
        toks.len() > 0 ==> path_steps(toks) == path_steps(toks.drop_last()) + json_path_seg(toks.last()),
        step_start(path_steps(toks)),
    decreases toks.len(),
{
    reveal_strlit("$");
    reveal_strlit("[");
    reveal_strlit(".");
    if toks.len() > 0 {
        lemma_path_steps(toks.drop_last());
        let a = json_path_text(toks.drop_last());
        let b = json_path_seg(toks.last());
        assert((a + b).drop_first() =~= a.drop_first() + b);
        assert((a + b)[0] == a[0]);
        let ps = path_steps(toks);
        if path_steps(toks.drop_last()).len() == 0 {
            assert(ps =~= b);
            assert(b[0] == '.' || b[0] == '[');
        } else {
            assert(ps[0] == path_steps(toks.drop_last())[0]);
        }
    } else {
        assert(json_path_text(toks) =~= seq!['$']);
    }
}

/// Reading a location's steps and then more steps is reading the location first.
#[verifier::spinoff_prover]
#[verifier::rlimit(50)]
proof fn lemma_path_then(root: JsonV, toks: Seq<(Seq<char>, bool)>, y: Seq<char>)
    requires
        step_start(y),
        index_steps_are_digits(toks),
    ensures
        jp_steps(root, path_steps(toks) + y) == match jp_steps(root, path_steps(toks)) {
            Some(c) => jp_steps(c, y),
            None => None,
        },
    decreases toks.len(),
{
    lemma_path_steps(toks);
    if toks.len() == 0 {
        assert(path_steps(toks) + y =~= y);
    } else {
        let init = toks.drop_last();
        let t = toks.last();
        assert(t == toks[toks.len() - 1]);
        assert(index_steps_are_digits(init)) by {
            assert forall|i: int| 0 <= i < init.len() && (#[trigger] init[i]).1 implies init[i].0.len() > 0 && forall|j: int|
                0 <= j < init[i].0.len() ==> is_digit(#[trigger] init[i].0[j]) by {
                assert(init[i] == toks[i]);
            }
        }
        let x = path_steps(init);
        let seg = json_path_seg(t);
        assert(step_start(seg + y)) by {
            reveal_strlit("[");
            reveal_strlit(".");
        }
        assert(step_start(seg)) by {
            reveal_strlit("[");
            reveal_strlit(".");
        }
        assert(x + seg + y =~= x + (seg + y));
        lemma_path_then(root, init, seg + y);
        lemma_path_then(root, init, seg);
        if let Some(c) = jp_steps(root, x) {
            lemma_seg_then(c, t, y);
        }
    }
}

/// The step to a child of a well-formed value is read as that child.
proof fn lemma_child_seg(v: JsonV, i: int)
    requires
        locally_well_formed(v),
        0 <= i < child_count(v),
    ensures
        jp_steps(v, json_path_seg(child_token(v, i))) == Some(child(v, i)),
        child_token(v, i).1 ==> child_token(v, i).0.len() > 0 && forall|j: int|
            0 <= j < child_token(v, i).0.len() ==> is_digit(#[trigger] child_token(v, i).0[j]),
{
    let t = child_token(v, i);
    match v {
        JsonV::Array(a) => {
            lemma_decimal_digits(i as nat);
        },
        _ => {},
    }
    lemma_seg_then(v, t, Seq::empty());
    match v {
        JsonV::Object(f) => {
            assert forall|j: int| 0 <= j < i implies f[j].0 != f[i].0 by {}
            lemma_key_index_at(f, f[i].0, i);
        },
        _ => {},
    }
}

// ---- the law ----
/// What a hit's `jsonPath` says: read from the document, it selects a string the keyword
/// matches, and that string is the hit's `value` when shown.
pub open spec fn hit_path_selects(sel: HitSelection, kw: (Seq<char>, bool, bool), root: JsonV, h: JsonV) -> bool {
    sel.json_path ==> (member(h, "jsonPath"@) matches Some(JsonV::Str(p)) && jsonpath_select(root, p) matches Some(
        JsonV::Str(s),
    ) && keyword_holds(kw.0, kw.1, kw.2, s) && (sel.value ==> member(h, "value"@) == Some(JsonV::Str(s))))
}

proof fn lemma_hit_record(sel: HitSelection, toks: Seq<(Seq<char>, bool)>, s: Seq<char>)
    ensures
        sel.json_path ==> member(JsonV::Object(hit_members(sel, toks, s)), "jsonPath"@) == Some(
            JsonV::Str(json_path_text(toks)),
        ),
        sel.value ==> member(JsonV::Object(hit_members(sel, toks, s)), "value"@) == Some(JsonV::Str(s)),
{
    reveal_strlit("pointer");
    reveal_strlit("jsonPath");
    reveal_strlit("path");
    reveal_strlit("operationRef");
    reveal_strlit("at");
    reveal_strlit("value");
    assert("pointer"@.len() == 7 && "jsonPath"@.len() == 8 && "path"@.len() == 4);
    assert("operationRef"@.len() == 12 && "at"@.len() == 2 && "value"@.len() == 5);
    let m = hit_members(sel, toks, s);
    assert forall|i: int| 0 <= i < m.len() implies m[i].0 == "pointer"@ || m[i].0 == "jsonPath"@ || m[i].0 == "path"@
        || m[i].0 == "operationRef"@ || m[i].0 == "at"@ || m[i].0 == "value"@ by {}
    if sel.json_path {
        let j = if sel.pointer {
            1int
        } else {
            0int
        };
        assert(m[j] == ("jsonPath"@, JsonV::Str(json_path_text(toks))));
        assert forall|i: int| 0 <= i < j implies m[i].0 != "jsonPath"@ by {}
        lemma_key_index_at(m, "jsonPath"@, j);
    }
    if sel.value {
        let j = m.len() - 1;
        assert(m[j] == ("value"@, JsonV::Str(s)));
        assert forall|i: int| 0 <= i < j implies m[i].0 != "value"@ by {}
        lemma_key_index_at(m, "value"@, j);
    }
}

proof fn lemma_hits_paths(
    sel: HitSelection,
    kw: (Seq<char>, bool, bool),
    root: JsonV,
    v: JsonV,
    toks: Seq<(Seq<char>, bool)>,
)
    requires
        well_formed_doc(v),
        index_steps_are_digits(toks),
        jp_steps(root, path_steps(toks)) == Some(v),
    ensures
        forall|i: int| 0 <= i < hits_of(sel, kw, v, toks).len() ==> hit_path_selects(sel, kw, root, #[trigger] hits_of(sel, kw, v, toks)[i]),
    decreases v, child_count(v) + 1,
{
    lemma_path_steps(toks);
    match v {
        JsonV::Str(s) => {
            let hs = hits_of(sel, kw, v, toks);
            assert forall|i: int| 0 <= i < hs.len() implies hit_path_selects(sel, kw, root, #[trigger] hs[i]) by {
                assert(i == 0);
                assert(hs[0] == JsonV::Object(hit_members(sel, toks, s)));
                lemma_hit_record(sel, toks, s);
                let p = json_path_text(toks);
                assert(p.drop_first() == path_steps(toks));
                assert(jsonpath_select(root, p) == Some(JsonV::Str(s)));
                assert(keyword_holds(kw.0, kw.1, kw.2, s));
                assert(hit_path_selects(sel, kw, root, hs[0]));
            }
        },
        JsonV::Array(a) => {
            lemma_hits_children_paths(sel, kw, root, v, toks, a.len() as int);
            assert(hits_of(sel, kw, v, toks) == hits_of_children(sel, kw, v, toks, a.len() as int));
        },
        JsonV::Object(f) => {
            lemma_hits_children_paths(sel, kw, root, v, toks, f.len() as int);
            assert(hits_of(sel, kw, v, toks) == hits_of_children(sel, kw, v, toks, f.len() as int));
        },
        _ => {},
    }
}

proof fn lemma_hits_children_paths(
    sel: HitSelection,
    kw: (Seq<char>, bool, bool),
    root: JsonV,
    v: JsonV,
    toks: Seq<(Seq<char>, bool)>,
    n: int,
)
    requires
        well_formed_doc(v),
        index_steps_are_digits(toks),
        jp_steps(root, path_steps(toks)) == Some(v),
        0 <= n <= child_count(v),
    ensures
        forall|i: int|
            0 <= i < hits_of_children(sel, kw, v, toks, n).len() ==> hit_path_selects(
                sel,
                kw,
                root,
                #[trigger] hits_of_children(sel, kw, v, toks, n)[i],
            ),
    decreases v, n,
{
    if n > 0 {
        crate::commands::convert::lemma_child_decreases(v, n - 1);
        lemma_hits_children_paths(sel, kw, root, v, toks, n - 1);
        let c = child(v, n - 1);
        let t = child_token(v, n - 1);
        lemma_well_formed_child(v, child_count(v) as int, n - 1);
        lemma_child_seg(v, n - 1);
        let nt = toks.push(t);
        assert(index_steps_are_digits(nt)) by {
            assert forall|i: int| 0 <= i < nt.len() && (#[trigger] nt[i]).1 implies nt[i].0.len() > 0 && forall|j: int|
                0 <= j < nt[i].0.len() ==> is_digit(#[trigger] nt[i].0[j]) by {
                if i < toks.len() {
                    assert(nt[i] == toks[i]);
                }
            }
        }
        lemma_path_steps(nt);
        assert(nt.drop_last() =~= toks);
        assert(nt.last() == t);
        lemma_path_then(root, toks, json_path_seg(t));
        lemma_seg_then(v, t, Seq::empty());
        lemma_hits_paths(sel, kw, root, c, nt);
        let a = hits_of_children(sel, kw, v, toks, n - 1);
        let b = hits_of(sel, kw, c, nt);
        assert(hits_of_children(sel, kw, v, toks, n) == a + b);
        assert forall|i: int| 0 <= i < (a + b).len() implies hit_path_selects(sel, kw, root, #[trigger] (a + b)[i]) by {
            if i < a.len() {
                assert((a + b)[i] == a[i]);
            } else {
                assert((a + b)[i] == b[i - a.len()]);
            }
        }
    }
}

/// Every hit's `jsonPath`, read back as a JSONPath from the document (`.name`,
/// `["name"]` and `[index]` steps), selects a string the keyword matches, the one the
/// hit reports as its `value` (for a document whose objects repeat no key).
pub proof fn law_hit_json_paths_select_their_values(sel: HitSelection, kw: (Seq<char>, bool, bool), spec: JsonV)
    requires
        well_formed_doc(spec),
    ensures
        forall|i: int|
            0 <= i < hits_of(sel, kw, spec, Seq::empty()).len() ==> hit_path_selects(
                sel,
                kw,
                spec,
                #[trigger] hits_of(sel, kw, spec, Seq::empty())[i],
            ),
{
    let e = Seq::<(Seq<char>, bool)>::empty();
    lemma_path_steps(e);
    lemma_hits_paths(sel, kw, spec, spec, e);
}

} // verus!
