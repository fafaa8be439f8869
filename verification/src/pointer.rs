//! JSON Pointer (RFC 6901) lookup, as `serde_json::Value::pointer` does it.
//!
//! `serde_json::Value::pointer` works on `serde_json::Value`, while the library holds
//! documents as its own `Json`, so that method cannot be called here. Its whole behaviour
//! is the few lines of `pointer_of`: the empty pointer is the value itself, one that does
//! not start with `/` designates nothing; otherwise the
//! text after the leading `/` is split at `/`, each token is unescaped (`~1` → `/`,
//! `~0` → `~`), and each step takes the member of that name or the array element of that
//! decimal index (no sign, no leading zero). The lookup is written against that statement.

use vstd::prelude::*;
use crate::json::{field_get, lemma_array_view, lemma_object_view, lookup, opt_view, Json, JsonV};
use crate::text::{chars_of, replace_pair, string_of};

verus! {

/// `str::split('/')`: the pieces between slashes, always at least one.
pub open spec fn split_slash(s: Seq<char>) -> Seq<Seq<char>>
    decreases s.len(),
{
    if s.len() == 0 {
        seq![Seq::empty()]
    } else {
        let t = split_slash(s.drop_last());
        if s.last() == '/' {
            t.push(Seq::empty())
        } else {
            t.update(t.len() - 1, t.last().push(s.last()))
        }
    }
}

pub proof fn lemma_split_nonempty(s: Seq<char>)
    ensures
        split_slash(s).len() >= 1,
    decreases s.len(),
{
    if s.len() > 0 {
        lemma_split_nonempty(s.drop_last());
    }
}

/// A reference token with its escapes undone: `~1` becomes `/`, then `~0` becomes `~`.
pub open spec fn unescape_token(t: Seq<char>) -> Seq<char> {
    replace_pair(replace_pair(t, '~', '1', '/'), '~', '0', '~')
}

pub open spec fn is_digit(c: char) -> bool {
    '0' <= c && c <= '9'
}

pub open spec fn digit_value(c: char) -> nat {
    ((c as int) - ('0' as int)) as nat
}

/// The number written by a sequence of decimal digits.
pub open spec fn digits_value(t: Seq<char>) -> nat
    decreases t.len(),
{
    if t.len() == 0 {
        0
    } else {
        digits_value(t.drop_last()) * 10 + digit_value(t.last())
    }
}

/// An array index token: decimal digits, no leading zero (except `0` itself), fitting a `usize`.
pub open spec fn index_token(t: Seq<char>) -> Option<nat> {
    if t.len() == 0 || (t[0] == '0' && t.len() != 1) || !(forall|i: int| 0 <= i < t.len() ==> is_digit(#[trigger] t[i])) {
        None
    } else if digits_value(t) > usize::MAX {
        None
    } else {
        Some(digits_value(t))
    }
}

/// One step of a pointer: an object member or an array element.
pub open spec fn step(v: JsonV, tok: Seq<char>) -> Option<JsonV> {
    match v {
        JsonV::Object(f) => lookup(f, tok),
        JsonV::Array(a) => match index_token(tok) {
            Some(i) => if i < a.len() {
                Some(a[i as int])
            } else {
                None
            },
            None => None,
        },
        _ => None,
    }
}

pub open spec fn walk_tokens(v: JsonV, toks: Seq<Seq<char>>) -> Option<JsonV>
    decreases toks.len(),
{
    if toks.len() == 0 {
        Some(v)
    } else {
        match step(v, unescape_token(toks[0])) {
            Some(c) => walk_tokens(c, toks.drop_first()),
            None => None,
        }
    }
}

/// The value a JSON Pointer designates in `v`.
pub open spec fn pointer_of(v: JsonV, p: Seq<char>) -> Option<JsonV> {
    if p.len() == 0 {
        Some(v)
    } else if p[0] != '/' {
        None
    } else {
        walk_tokens(v, split_slash(p.drop_first()))
    }
}

/// Undoes `~a b` → `to` replacements, scanning left to right.
fn replace_pair_chars(cs: &Vec<char>, a: char, b: char, to: char) -> (r: Vec<char>)
    ensures
        r@ == replace_pair(cs@, a, b, to),
{
    let mut out: Vec<char> = Vec::new();
    let mut i: usize = 0;
    assert(cs@.skip(0) =~= cs@);
    assert(out@ + replace_pair(cs@, a, b, to) =~= replace_pair(cs@, a, b, to));
    while i < cs.len()
        invariant
            i <= cs.len(),
            out@ + replace_pair(cs@.skip(i as int), a, b, to) == replace_pair(cs@, a, b, to),
        decreases cs.len() - i,
    {
        let ghost rest = cs@.skip(i as int);
        if i + 1 < cs.len() && cs[i] == a && cs[i + 1] == b {
            assert(rest.skip(2) =~= cs@.skip(i + 2));
            out.push(to);
            i = i + 2;
            assert(out@ + replace_pair(cs@.skip(i as int), a, b, to) =~= (out@.drop_last() + (seq![to] + replace_pair(rest.skip(2), a, b, to))));
        } else {
            assert(rest.drop_first() =~= cs@.skip(i + 1));
            out.push(cs[i]);
            i = i + 1;
            assert(out@ + replace_pair(cs@.skip(i as int), a, b, to) =~= (out@.drop_last() + (seq![rest[0]] + replace_pair(rest.drop_first(), a, b, to))));
        }
    }
    assert(replace_pair(cs@.skip(i as int), a, b, to) =~= Seq::<char>::empty());
    assert(out@ =~= out@ + Seq::<char>::empty());
    out
}

/// Parses an array index token as `serde_json` does.
fn parse_index(t: &Vec<char>) -> (r: Option<usize>)
    ensures
        r matches Some(i) ==> index_token(t@) == Some(i as nat),
        r is None ==> index_token(t@) is None,
{
    if t.len() == 0 || (t[0] == '0' && t.len() != 1) {
        return None;
    }
    let mut val: u64 = 0;
    let mut i: usize = 0;
    let mut overflow = false;
    while i < t.len()
        invariant
            i <= t.len(),
            forall|k: int| 0 <= k < i ==> is_digit(#[trigger] t@[k]),
            !overflow ==> val == digits_value(t@.take(i as int)),
            overflow ==> digits_value(t@.take(i as int)) > usize::MAX,
            !overflow ==> val <= usize::MAX,
        decreases t.len() - i,
    {
        let c = t[i];
        if !('0' <= c && c <= '9') {
            return None;
        }
        let d = ((c as u32) - ('0' as u32)) as u64;
        assert(t@.take(i + 1).drop_last() =~= t@.take(i as int));
        if !overflow {
            if val > (usize::MAX as u64 - d) / 10 {
                overflow = true;
                assert(digits_value(t@.take(i + 1)) == val * 10 + d) by (nonlinear_arith)
                    requires digits_value(t@.take(i + 1)) == digits_value(t@.take(i as int)) * 10 + d, val == digits_value(t@.take(i as int));
                assert(val * 10 + d > usize::MAX) by (nonlinear_arith)
                    requires val > (usize::MAX - d) / 10, d < 10;
            } else {
                assert(val * 10 + d <= usize::MAX) by (nonlinear_arith)
                    requires val <= (usize::MAX - d) / 10, d < 10;
                val = val * 10 + d;
            }
        } else {
            assert(digits_value(t@.take(i + 1)) >= digits_value(t@.take(i as int))) by (nonlinear_arith)
                requires digits_value(t@.take(i + 1)) == digits_value(t@.take(i as int)) * 10 + digit_value(t@[i as int]);
        }
        i = i + 1;
    }
    assert(t@.take(t@.len() as int) =~= t@);
    if overflow {
        None
    } else {
        Some(val as usize)
    }
}

/// Splits a string on `/`.
fn split_on_slash(cs: &Vec<char>, from: usize) -> (r: Vec<Vec<char>>)
    requires
        from <= cs.len(),
    ensures
        r@.len() == split_slash(cs@.skip(from as int)).len(),
        forall|i: int| 0 <= i < r@.len() ==> #[trigger] r@[i]@ == split_slash(cs@.skip(from as int))[i],
{
    let mut toks: Vec<Vec<char>> = Vec::new();
    let mut cur: Vec<char> = Vec::new();
    let mut i: usize = from;
    while i < cs.len()
        invariant
            from <= i <= cs.len(),
            toks@.len() + 1 == split_slash(cs@.subrange(from as int, i as int)).len(),
            forall|k: int| 0 <= k < toks@.len() ==> #[trigger] toks@[k]@ == split_slash(cs@.subrange(from as int, i as int))[k],
            cur@ == split_slash(cs@.subrange(from as int, i as int)).last(),
        decreases cs.len() - i,
    {
        proof {
            lemma_split_nonempty(cs@.subrange(from as int, i as int));
            assert(cs@.subrange(from as int, i + 1).drop_last() =~= cs@.subrange(from as int, i as int));
        }
        if cs[i] == '/' {
            toks.push(cur);
            cur = Vec::new();
        } else {
            cur.push(cs[i]);
        }
        i = i + 1;
    }
    assert(cs@.subrange(from as int, cs@.len() as int) =~= cs@.skip(from as int));
    toks.push(cur);
    toks
}

pub proof fn lemma_walk_tokens_step(v: JsonV, toks: Seq<Seq<char>>, i: int, cur: JsonV)
    requires
        0 <= i < toks.len(),
        walk_tokens(v, toks) == walk_tokens(cur, toks.skip(i)),
    ensures
        walk_tokens(v, toks) == match step(cur, unescape_token(toks[i])) {
            Some(c) => walk_tokens(c, toks.skip(i + 1)),
            None => None,
        },
{
    assert(toks.skip(i).drop_first() =~= toks.skip(i + 1));
}

impl Json {
    /// The value a JSON Pointer designates (`serde_json::Value::pointer`).
    pub fn pointer(&self, p: &str) -> (r: Option<&Json>)
        ensures
            opt_view(r) == pointer_of(self@, p@),
    {
        let cs = chars_of(p);
        if cs.len() == 0 {
            return Some(self);
        }
        if cs[0] != '/' {
            return None;
        }
        let toks = split_on_slash(&cs, 1);
        let ghost stoks = split_slash(cs@.skip(1));
        assert(cs@.skip(1) =~= p@.drop_first());
        assert(pointer_of(self@, p@) == walk_tokens(self@, stoks));
        let mut cur: &Json = self;
        let mut i: usize = 0;
        assert(stoks.skip(0) =~= stoks);
        while i < toks.len()
            invariant
                i <= toks.len(),
                toks@.len() == stoks.len(),
                forall|k: int| 0 <= k < toks@.len() ==> #[trigger] toks@[k]@ == stoks[k],
                walk_tokens(self@, stoks) == walk_tokens(cur@, stoks.skip(i as int)),
                pointer_of(self@, p@) == walk_tokens(self@, stoks),
            decreases toks.len() - i,
        {
            proof {
                lemma_walk_tokens_step(self@, stoks, i as int, cur@);
            }
            let t1 = replace_pair_chars(&toks[i], '~', '1', '/');
            let t2 = replace_pair_chars(&t1, '~', '0', '~');
            let next: Option<&Json> = match cur {
                Json::Object(f) => {
                    proof {
                        lemma_object_view(*f);
                    }
                    let key = string_of(t2.as_slice());
                    field_get(f, key.as_str())
                },
                Json::Array(a) => {
                    proof {
                        lemma_array_view(*a);
                    }
                    match parse_index(&t2) {
                        Some(idx) => if idx < a.len() {
                            Some(&a[idx])
                        } else {
                            None
                        },
                        None => None,
                    }
                },
                _ => None,
            };
            assert(t2@ == unescape_token(stoks[i as int]));
            assert(opt_view(next) == step(cur@, unescape_token(stoks[i as int])));
            match next {
                Some(n) => {
                    cur = n;
                },
                None => {
                    assert(walk_tokens(self@, stoks) is None);
                    return None;
                },
            }
            i = i + 1;
        }
        assert(stoks.skip(i as int) =~= Seq::<Seq<char>>::empty());
        Some(cur)
    }
}

} // verus!
