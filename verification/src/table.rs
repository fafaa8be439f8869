//! Tables keyed by strings in ascending order, as `BTreeMap<String, _>` iterates them.
//!
//! vstd specifies `BTreeMap` only for key types that obey its ordering laws
//! (`key_obeys_cmp_spec`) and hash collections only for key types with a hash key model
//! (`obeys_key_model`); it establishes both for primitive types but not for `String`. A
//! `BTreeMap<String, _>` or `HashSet<String>` would therefore come with no usable contract,
//! so the tables are sorted vectors whose invariants (keys strictly ascending, each key
//! with its count or first position) state what those collections provide.
//!
//! Strings are ordered as `String`'s `Ord` orders them: lexicographically by their
//! UTF-8 bytes, which is lexicographic order by characters.

use vstd::prelude::*;
use crate::json::{fields_view, lemma_object_view, Json, JsonV, Number, NumberV};
use crate::text::chars_of;

verus! {

/// `a` comes strictly before `b`.
pub open spec fn seq_lt(a: Seq<char>, b: Seq<char>) -> bool
    decreases a.len(),
{
    if a.len() == 0 {
        b.len() > 0
    } else if b.len() == 0 {
        false
    } else if a[0] != b[0] {
        a[0] < b[0]
    } else {
        seq_lt(a.drop_first(), b.drop_first())
    }
}

pub proof fn lemma_lt_irreflexive(a: Seq<char>)
    ensures
        !seq_lt(a, a),
    decreases a.len(),
{
    if a.len() > 0 {
        lemma_lt_irreflexive(a.drop_first());
    }
}

pub proof fn lemma_lt_transitive(a: Seq<char>, b: Seq<char>, c: Seq<char>)
    requires
        seq_lt(a, b),
        seq_lt(b, c),
    ensures
        seq_lt(a, c),
    decreases a.len(),
{
    if a.len() > 0 && b.len() > 0 && c.len() > 0 && a[0] == b[0] && b[0] == c[0] {
        lemma_lt_transitive(a.drop_first(), b.drop_first(), c.drop_first());
    }
}

/// Any two strings are equal or ordered one way.
pub proof fn lemma_lt_total(a: Seq<char>, b: Seq<char>)
    ensures
        a == b || seq_lt(a, b) || seq_lt(b, a),
    decreases a.len(),
{
    if a.len() > 0 && b.len() > 0 && a[0] == b[0] {
        lemma_lt_total(a.drop_first(), b.drop_first());
        if a.drop_first() == b.drop_first() {
            assert(a =~= seq![a[0]] + a.drop_first());
            assert(b =~= seq![b[0]] + b.drop_first());
        }
    } else if a.len() == 0 && b.len() == 0 {
        assert(a =~= b);
    }
}

/// Whether `a` sorts strictly before `b`.
pub fn str_lt(a: &str, b: &str) -> (r: bool)
    ensures
        r == seq_lt(a@, b@),
{
    let x = chars_of(a);
    let y = chars_of(b);
    let mut i: usize = 0;
    assert(x@.skip(0) =~= x@);
    assert(y@.skip(0) =~= y@);
    assert(x@.take(0) =~= y@.take(0));
    while i < x.len() && i < y.len()
        invariant
            i <= x.len(),
            i <= y.len(),
            x@ == a@,
            y@ == b@,
            x@.take(i as int) == y@.take(i as int),
            seq_lt(a@, b@) == seq_lt(x@.skip(i as int), y@.skip(i as int)),
        decreases x.len() - i,
    {
        if x[i] != y[i] {
            assert(x@.skip(i as int)[0] == x@[i as int]);
            assert(y@.skip(i as int)[0] == y@[i as int]);
            return x[i] < y[i];
        }
        assert(x@.skip(i as int).drop_first() =~= x@.skip(i + 1));
        assert(y@.skip(i as int).drop_first() =~= y@.skip(i + 1));
        assert(x@.take(i + 1) =~= x@.take(i as int).push(x@[i as int]));
        assert(y@.take(i + 1) =~= y@.take(i as int).push(y@[i as int]));
        i = i + 1;
    }
    i == x.len() && i < y.len()
}

/// The keys of a table, in order.
pub open spec fn table_keys<V>(t: Seq<(String, V)>) -> Seq<Seq<char>> {
    Seq::new(t.len(), |i: int| t[i].0@)
}

/// The keys ascend strictly: each occurs once.
pub open spec fn strictly_sorted(keys: Seq<Seq<char>>) -> bool {
    forall|i: int, j: int| 0 <= i < j < keys.len() ==> seq_lt(#[trigger] keys[i], #[trigger] keys[j])
}

/// How often `k` occurs in `keys`.
pub open spec fn occurrences(keys: Seq<Seq<char>>, k: Seq<char>) -> nat
    decreases keys.len(),
{
    if keys.len() == 0 {
        0
    } else {
        occurrences(keys.drop_last(), k) + if keys.last() == k {
            1nat
        } else {
            0nat
        }
    }
}

/// The position of the first `k` in `keys`, or -1.
pub open spec fn first_index(keys: Seq<Seq<char>>, k: Seq<char>) -> int
    decreases keys.len(),
{
    if keys.len() == 0 {
        -1
    } else {
        let r = first_index(keys.drop_last(), k);
        if r >= 0 {
            r
        } else if keys.last() == k {
            keys.len() - 1
        } else {
            -1
        }
    }
}

pub open spec fn strings_view(v: Seq<String>) -> Seq<Seq<char>> {
    Seq::new(v.len(), |i: int| v[i]@)
}

/// Every key of `keys` is in the table.
pub open spec fn covers(t: Seq<Seq<char>>, keys: Seq<Seq<char>>) -> bool {
    forall|j: int| 0 <= j < keys.len() ==> #[trigger] t.contains(keys[j])
}

/// `t` is the count table of `keys`: its keys are the distinct keys, ascending, each
/// with how often it occurs.
pub open spec fn is_count_table(t: Seq<(String, usize)>, keys: Seq<Seq<char>>) -> bool {
    &&& strictly_sorted(table_keys(t))
    &&& covers(table_keys(t), keys)
    &&& forall|i: int| 0 <= i < t.len() ==> #[trigger] t[i].1 == occurrences(keys, t[i].0@) && t[i].1 > 0
}

/// `t` is the first-occurrence table of `keys`: its keys are the distinct keys,
/// ascending, each with the position where it first occurs.
pub open spec fn is_first_table(t: Seq<(String, usize)>, keys: Seq<Seq<char>>) -> bool {
    &&& strictly_sorted(table_keys(t))
    &&& covers(table_keys(t), keys)
    &&& forall|i: int| 0 <= i < t.len() ==> #[trigger] t[i].1 == first_index(keys, t[i].0@) && t[i].1 >= 0
}

proof fn lemma_occurrences_push(keys: Seq<Seq<char>>, x: Seq<char>, k: Seq<char>)
    ensures
        occurrences(keys.push(x), k) == occurrences(keys, k) + if x == k { 1nat } else { 0nat },
{
    assert(keys.push(x).drop_last() =~= keys);
}

proof fn lemma_occurrences_bound(keys: Seq<Seq<char>>, k: Seq<char>)
    ensures
        occurrences(keys, k) <= keys.len(),
        occurrences(keys, k) > 0 ==> keys.contains(k),
    decreases keys.len(),
{
    if keys.len() > 0 {
        lemma_occurrences_bound(keys.drop_last(), k);
        if occurrences(keys.drop_last(), k) > 0 {
            let j = choose|j: int| 0 <= j < keys.drop_last().len() && keys.drop_last()[j] == k;
            assert(keys[j] == k);
        }
        if keys.last() == k {
            assert(keys[keys.len() - 1] == k);
        }
    }
}

proof fn lemma_first_index_push(keys: Seq<Seq<char>>, x: Seq<char>, k: Seq<char>)
    ensures
        first_index(keys.push(x), k) == if first_index(keys, k) >= 0 {
            first_index(keys, k)
        } else if x == k {
            keys.len() as int
        } else {
            -1
        },
{
    assert(keys.push(x).drop_last() =~= keys);
}

proof fn lemma_first_index_range(keys: Seq<Seq<char>>, k: Seq<char>)
    ensures
        -1 <= first_index(keys, k) < keys.len(),
        first_index(keys, k) >= 0 ==> keys[first_index(keys, k)] == k,
        first_index(keys, k) < 0 ==> !keys.contains(k),
    decreases keys.len(),
{
    if keys.len() > 0 {
        lemma_first_index_range(keys.drop_last(), k);
        if first_index(keys, k) < 0 {
            assert forall|j: int| 0 <= j < keys.len() implies keys[j] != k by {
                if j < keys.len() - 1 {
                    assert(keys.drop_last()[j] == keys[j]);
                }
            }
        }
    }
}

/// Where `k` belongs in a sorted table: every key before the position sorts before `k`,
/// and the key at it (if any) does not.
fn locate<V>(t: &Vec<(String, V)>, k: &str) -> (r: usize)
    requires
        strictly_sorted(table_keys(t@)),
    ensures
        r <= t@.len(),
        forall|i: int| 0 <= i < r ==> seq_lt(#[trigger] t@[i].0@, k@),
        r < t@.len() ==> !seq_lt(t@[r as int].0@, k@),
{
    let mut i: usize = 0;
    while i < t.len()
        invariant
            i <= t@.len(),
            forall|j: int| 0 <= j < i ==> seq_lt(#[trigger] t@[j].0@, k@),
        decreases t.len() - i,
    {
        if !str_lt(t[i].0.as_str(), k) {
            return i;
        }
        i = i + 1;
    }
    i
}

proof fn lemma_absent_after(t: Seq<Seq<char>>, k: Seq<char>, r: int)
    requires
        strictly_sorted(t),
        0 <= r < t.len(),
        seq_lt(k, t[r]),
        forall|i: int| 0 <= i < r ==> seq_lt(#[trigger] t[i], k),
    ensures
        !t.contains(k),
        forall|i: int| r <= i < t.len() ==> seq_lt(k, #[trigger] t[i]),
{
    assert forall|i: int| r <= i < t.len() implies seq_lt(k, #[trigger] t[i]) by {
        if i > r {
            lemma_lt_transitive(k, t[r], t[i]);
        }
    }
    assert forall|i: int| 0 <= i < t.len() implies t[i] != k by {
        if i < r {
            lemma_lt_irreflexive(k);
        } else {
            lemma_lt_irreflexive(k);
        }
    }
}

/// The position of `k` in a sorted table.
pub fn find_key<V>(t: &Vec<(String, V)>, k: &str) -> (r: Option<usize>)
    requires
        strictly_sorted(table_keys(t@)),
    ensures
        r matches Some(i) ==> i < t@.len() && t@[i as int].0@ == k@,
        r is None ==> !table_keys(t@).contains(k@),
{
    let r = locate(t, k);
    if r < t.len() && crate::text::str_eq(t[r].0.as_str(), k) {
        return Some(r);
    }
    proof {
        if r < t@.len() {
            lemma_lt_total(t@[r as int].0@, k@);
            lemma_absent_after(table_keys(t@), k@, r as int);
        } else {
            assert forall|i: int| 0 <= i < t@.len() implies table_keys(t@)[i] != k@ by {
                lemma_lt_irreflexive(k@);
            }
        }
    }
    None
}

/// In an ascending table a key sits at one position only.
pub proof fn lemma_sorted_key_unique(keys: Seq<Seq<char>>, q: int, r: int)
    requires
        strictly_sorted(keys),
        0 <= q < keys.len(),
        0 <= r < keys.len(),
        keys[q] == keys[r],
    ensures
        q == r,
{
    if q < r {
        assert(seq_lt(keys[q], keys[r]));
        lemma_lt_irreflexive(keys[q]);
    } else if r < q {
        assert(seq_lt(keys[r], keys[q]));
        lemma_lt_irreflexive(keys[q]);
    }
}

/// A key of `keys` missing from a table that holds the same keys does not occur.
pub proof fn lemma_absent_not_counted(t: Seq<(String, usize)>, keys: Seq<Seq<char>>, k: Seq<char>)
    requires
        is_count_table(t, keys),
        !table_keys(t).contains(k),
    ensures
        occurrences(keys, k) == 0,
{
    lemma_occurrences_bound(keys, k);
    if occurrences(keys, k) > 0 {
        let j = choose|j: int| 0 <= j < keys.len() && keys[j] == k;
        assert(table_keys(t).contains(keys[j]));
    }
}

/// Inserts `(k, v)` at `r`, where it keeps the table sorted.
fn insert_sorted<V>(t: &mut Vec<(String, V)>, r: usize, k: String, v: V)
    requires
        strictly_sorted(table_keys(old(t)@)),
        r <= old(t)@.len(),
        forall|i: int| 0 <= i < r ==> seq_lt(#[trigger] old(t)@[i].0@, k@),
        forall|i: int| r <= i < old(t)@.len() ==> seq_lt(k@, #[trigger] old(t)@[i].0@),
    ensures
        final(t)@ == old(t)@.insert(r as int, (k, v)),
        strictly_sorted(table_keys(final(t)@)),
{
    let ghost before = t@;
    t.insert(r, (k, v));
    let ghost keys = table_keys(t@);
    assert forall|i: int, j: int| 0 <= i < j < keys.len() implies seq_lt(#[trigger] keys[i], #[trigger] keys[j]) by {
        if j < r {
            assert(keys[i] == table_keys(before)[i] && keys[j] == table_keys(before)[j]);
        } else if j == r {
            assert(keys[i] == before[i].0@);
        } else if i < r {
            assert(keys[i] == before[i].0@ && keys[j] == before[j - 1].0@);
            lemma_lt_transitive(keys[i], keys[r as int], keys[j]);
        } else if i == r {
            assert(keys[j] == before[j - 1].0@);
        } else {
            assert(keys[i] == table_keys(before)[i - 1] && keys[j] == table_keys(before)[j - 1]);
        }
    }
}

/// The count table of `keys`.
pub fn count_keys(keys: &Vec<String>) -> (t: Vec<(String, usize)>)
    ensures
        is_count_table(t@, strings_view(keys@)),
        count_pairs(t@) == counting(strings_view(keys@)),
{
    let ghost kv = strings_view(keys@);
    let mut t: Vec<(String, usize)> = Vec::new();
    let mut n: usize = 0;
    while n < keys.len()
        invariant
            n <= keys.len(),
            kv == strings_view(keys@),
            is_count_table(t@, kv.take(n as int)),
        decreases keys.len() - n,
    {
        let ghost pre = kv.take(n as int);
        let ghost t0 = t@;
        let k = keys[n].as_str();
        assert(kv.take(n + 1) =~= pre.push(k@));
        proof {
            lemma_occurrences_bound(pre, k@);
        }
        let r = locate(&t, k);
        if r < t.len() && crate::text::str_eq(t[r].0.as_str(), k) {
            let c = t[r].1;
            proof {
                lemma_occurrences_bound(pre, t0[r as int].0@);
            }
            t.set(r, (t[r].0.clone(), c + 1));
            proof {
                assert(table_keys(t@) =~= table_keys(t0));
                assert forall|i: int| 0 <= i < t@.len() implies #[trigger] t@[i].1 == occurrences(
                    kv.take(n + 1),
                    t@[i].0@,
                ) && t@[i].1 > 0 by {
                    lemma_occurrences_push(pre, k@, t@[i].0@);
                    if i != r {
                        assert(table_keys(t0)[i] != table_keys(t0)[r as int]) by {
                            if i < r {
                                lemma_lt_irreflexive(t0[i].0@);
                            } else {
                                lemma_lt_irreflexive(t0[r as int].0@);
                            }
                        }
                    }
                }
                assert forall|j: int| 0 <= j < kv.take(n + 1).len() implies #[trigger] table_keys(t@).contains(
                    kv.take(n + 1)[j],
                ) by {
                    if j < n {
                        assert(kv.take(n + 1)[j] == pre[j]);
                    } else {
                        assert(table_keys(t@)[r as int] == k@);
                    }
                }
            }
        } else {
            proof {
                if r < t0.len() {
                    lemma_lt_total(t0[r as int].0@, k@);
                    lemma_absent_after(table_keys(t0), k@, r as int);
                    assert forall|i: int| r <= i < t0.len() implies seq_lt(k@, #[trigger] t0[i].0@) by {
                        assert(table_keys(t0)[i] == t0[i].0@);
                    }
                } else {
                    assert forall|i: int| 0 <= i < t0.len() implies table_keys(t0)[i] != k@ by {
                        lemma_lt_irreflexive(k@);
                    }
                }
                assert(!table_keys(t0).contains(k@));
                if occurrences(pre, k@) > 0 {
                    let j = choose|j: int| 0 <= j < pre.len() && pre[j] == k@;
                    assert(table_keys(t0).contains(pre[j]));
                }
            }
            insert_sorted(&mut t, r, keys[n].clone(), 1);
            proof {
                assert forall|i: int| 0 <= i < t@.len() implies #[trigger] t@[i].1 == occurrences(
                    kv.take(n + 1),
                    t@[i].0@,
                ) && t@[i].1 > 0 by {
                    lemma_occurrences_push(pre, k@, t@[i].0@);
                    if i < r {
                        assert(t@[i] == t0[i]);
                        lemma_lt_irreflexive(k@);
                    } else if i > r {
                        assert(t@[i] == t0[i - 1]);
                        lemma_lt_irreflexive(k@);
                    }
                }
                assert forall|j: int| 0 <= j < kv.take(n + 1).len() implies #[trigger] table_keys(t@).contains(
                    kv.take(n + 1)[j],
                ) by {
                    if j < n {
                        assert(kv.take(n + 1)[j] == pre[j]);
                        assert(table_keys(t0).contains(pre[j]));
                        let i = choose|i: int| 0 <= i < table_keys(t0).len() && table_keys(t0)[i] == pre[j];
                        if i < r {
                            assert(table_keys(t@)[i] == pre[j]);
                        } else {
                            assert(table_keys(t@)[i + 1] == pre[j]);
                        }
                    } else {
                        assert(table_keys(t@)[r as int] == k@);
                    }
                }
            }
        }
        n = n + 1;
    }
    assert(kv.take(n as int) =~= kv);
    proof {
        lemma_count_table_counting(t@, kv);
    }
    t
}

/// The first-occurrence table of `keys`.
pub fn first_positions(keys: &Vec<String>) -> (t: Vec<(String, usize)>)
    ensures
        is_first_table(t@, strings_view(keys@)),
        first_pairs(t@) == firsts(strings_view(keys@)),
        is_firsting(firsts(strings_view(keys@)), strings_view(keys@)),
        forall|i: int| 0 <= i < t@.len() ==> #[trigger] t@[i].1 < keys@.len(),
{
    let ghost kv = strings_view(keys@);
    let mut t: Vec<(String, usize)> = Vec::new();
    let mut n: usize = 0;
    while n < keys.len()
        invariant
            n <= keys.len(),
            kv == strings_view(keys@),
            is_first_table(t@, kv.take(n as int)),
        decreases keys.len() - n,
    {
        let ghost pre = kv.take(n as int);
        let ghost t0 = t@;
        let k = keys[n].as_str();
        assert(kv.take(n + 1) =~= pre.push(k@));
        let r = locate(&t, k);
        if r < t.len() && crate::text::str_eq(t[r].0.as_str(), k) {
            proof {
                assert forall|i: int| 0 <= i < t@.len() implies #[trigger] t@[i].1 == first_index(
                    kv.take(n + 1),
                    t@[i].0@,
                ) && t@[i].1 >= 0 by {
                    lemma_first_index_push(pre, k@, t@[i].0@);
                }
                assert forall|j: int| 0 <= j < kv.take(n + 1).len() implies #[trigger] table_keys(t@).contains(
                    kv.take(n + 1)[j],
                ) by {
                    if j < n {
                        assert(kv.take(n + 1)[j] == pre[j]);
                        assert(table_keys(t@).contains(pre[j]));
                    } else {
                        assert(table_keys(t@)[r as int] == k@);
                    }
                }
            }
        } else {
            proof {
                if r < t0.len() {
                    lemma_lt_total(t0[r as int].0@, k@);
                    lemma_absent_after(table_keys(t0), k@, r as int);
                    assert forall|i: int| r <= i < t0.len() implies seq_lt(k@, #[trigger] t0[i].0@) by {
                        assert(table_keys(t0)[i] == t0[i].0@);
                    }
                } else {
                    assert forall|i: int| 0 <= i < t0.len() implies table_keys(t0)[i] != k@ by {
                        lemma_lt_irreflexive(k@);
                    }
                }
                assert(!table_keys(t0).contains(k@));
                lemma_first_index_range(pre, k@);
                if first_index(pre, k@) >= 0 {
                    assert(table_keys(t0).contains(pre[first_index(pre, k@)]));
                }
            }
            insert_sorted(&mut t, r, keys[n].clone(), n);
            proof {
                assert forall|i: int| 0 <= i < t@.len() implies #[trigger] t@[i].1 == first_index(
                    kv.take(n + 1),
                    t@[i].0@,
                ) && t@[i].1 >= 0 by {
                    lemma_first_index_push(pre, k@, t@[i].0@);
                    if i < r {
                        assert(t@[i] == t0[i]);
                        lemma_lt_irreflexive(k@);
                    } else if i > r {
                        assert(t@[i] == t0[i - 1]);
                        lemma_lt_irreflexive(k@);
                    }
                }
                assert forall|j: int| 0 <= j < kv.take(n + 1).len() implies #[trigger] table_keys(t@).contains(
                    kv.take(n + 1)[j],
                ) by {
                    if j < n {
                        assert(kv.take(n + 1)[j] == pre[j]);
                        assert(table_keys(t0).contains(pre[j]));
                        let i = choose|i: int| 0 <= i < table_keys(t0).len() && table_keys(t0)[i] == pre[j];
                        if i < r {
                            assert(table_keys(t@)[i] == pre[j]);
                        } else {
                            assert(table_keys(t@)[i + 1] == pre[j]);
                        }
                    } else {
                        assert(table_keys(t@)[r as int] == k@);
                    }
                }
            }
        }
        n = n + 1;
    }
    assert(kv.take(n as int) =~= kv);
    proof {
        lemma_first_table_firsts(t@, kv);
        assert forall|i: int| 0 <= i < t@.len() implies #[trigger] t@[i].1 < keys@.len() by {
            lemma_first_index_range(kv, t@[i].0@);
        }
    }
    t
}

/// The keys of a list of pairs.
pub open spec fn pair_keys<V>(t: Seq<(Seq<char>, V)>) -> Seq<Seq<char>> {
    Seq::new(t.len(), |i: int| t[i].0)
}

/// Two key lists hold the same keys.
pub open spec fn same_keys(a: Seq<Seq<char>>, b: Seq<Seq<char>>) -> bool {
    forall|x: Seq<char>| a.contains(x) <==> b.contains(x)
}

/// `t` lists the distinct keys of `keys` in ascending order, each with how often it occurs.
pub open spec fn is_counting(t: Seq<(Seq<char>, nat)>, keys: Seq<Seq<char>>) -> bool {
    &&& strictly_sorted(pair_keys(t))
    &&& same_keys(pair_keys(t), keys)
    &&& forall|i: int| 0 <= i < t.len() ==> #[trigger] t[i].1 == occurrences(keys, t[i].0)
}

/// The distinct keys of `keys`, ascending, each with how often it occurs (what a
/// `BTreeMap<String, usize>` of counts iterates).
pub open spec fn counting(keys: Seq<Seq<char>>) -> Seq<(Seq<char>, nat)> {
    choose|t: Seq<(Seq<char>, nat)>| is_counting(t, keys)
}

/// `t` lists the distinct keys of `keys` in ascending order, each with the position where
/// it first occurs.
pub open spec fn is_firsting(t: Seq<(Seq<char>, int)>, keys: Seq<Seq<char>>) -> bool {
    &&& strictly_sorted(pair_keys(t))
    &&& same_keys(pair_keys(t), keys)
    &&& forall|i: int| 0 <= i < t.len() ==> #[trigger] t[i].1 == first_index(keys, t[i].0)
}

/// The distinct keys of `keys`, ascending, each with the position where it first occurs
/// (what a `BTreeMap` filled with `or_insert` iterates).
pub open spec fn firsts(keys: Seq<Seq<char>>) -> Seq<(Seq<char>, int)> {
    choose|t: Seq<(Seq<char>, int)>| is_firsting(t, keys)
}

/// Two ascending key lists with the same keys are the same list.
pub proof fn lemma_sorted_unique(a: Seq<Seq<char>>, b: Seq<Seq<char>>)
    requires
        strictly_sorted(a),
        strictly_sorted(b),
        same_keys(a, b),
    ensures
        a == b,
    decreases a.len(),
{
    if a.len() == 0 {
        if b.len() > 0 {
            assert(b.contains(b[0]));
        }
        assert(a =~= b);
    } else {
        assert(a.contains(a[0]));
        let j = choose|j: int| 0 <= j < b.len() && b[j] == a[0];
        assert(b.contains(b[0]));
        let i = choose|i: int| 0 <= i < a.len() && a[i] == b[0];
        if j > 0 {
            assert(seq_lt(b[0], b[j]));
            if i == 0 {
                lemma_lt_irreflexive(a[0]);
            } else {
                assert(seq_lt(a[0], a[i]));
                lemma_lt_transitive(a[0], b[0], a[0]);
                lemma_lt_irreflexive(a[0]);
            }
        }
        assert(a[0] == b[0]);
        let a1 = a.drop_first();
        let b1 = b.drop_first();
        assert forall|x: Seq<char>| a1.contains(x) <==> b1.contains(x) by {
            if a1.contains(x) {
                let k = choose|k: int| 0 <= k < a1.len() && a1[k] == x;
                assert(a[k + 1] == x);
                assert(seq_lt(a[0], a[k + 1]));
                lemma_lt_irreflexive(x);
                assert(b.contains(x));
                let m = choose|m: int| 0 <= m < b.len() && b[m] == x;
                assert(m != 0);
                assert(b1[m - 1] == x);
            }
            if b1.contains(x) {
                let k = choose|k: int| 0 <= k < b1.len() && b1[k] == x;
                assert(b[k + 1] == x);
                assert(seq_lt(b[0], b[k + 1]));
                lemma_lt_irreflexive(x);
                assert(a.contains(x));
                let m = choose|m: int| 0 <= m < a.len() && a[m] == x;
                assert(m != 0);
                assert(a1[m - 1] == x);
            }
        }
        assert forall|p: int, q: int| 0 <= p < q < a1.len() implies seq_lt(#[trigger] a1[p], #[trigger] a1[q]) by {
            assert(a1[p] == a[p + 1] && a1[q] == a[q + 1]);
        }
        assert forall|p: int, q: int| 0 <= p < q < b1.len() implies seq_lt(#[trigger] b1[p], #[trigger] b1[q]) by {
            assert(b1[p] == b[p + 1] && b1[q] == b[q + 1]);
        }
        lemma_sorted_unique(a1, b1);
        assert(a =~= seq![a[0]] + a1);
        assert(b =~= seq![b[0]] + b1);
    }
}

/// There is one counting of a key list: the one `counting` names.
pub proof fn lemma_counting_unique(t: Seq<(Seq<char>, nat)>, keys: Seq<Seq<char>>)
    requires
        is_counting(t, keys),
    ensures
        counting(keys) == t,
{
    let c = counting(keys);
    assert(is_counting(c, keys));
    assert forall|x: Seq<char>| pair_keys(c).contains(x) <==> pair_keys(t).contains(x) by {}
    lemma_sorted_unique(pair_keys(c), pair_keys(t));
    assert(c.len() == pair_keys(c).len() && t.len() == pair_keys(t).len());
    assert forall|i: int| 0 <= i < c.len() implies c[i] == t[i] by {
        assert(pair_keys(c)[i] == pair_keys(t)[i]);
        assert(c[i].1 == occurrences(keys, c[i].0));
        assert(t[i].1 == occurrences(keys, t[i].0));
    }
    assert(c =~= t);
}

/// There is one first-position table of a key list: the one `firsts` names.
pub proof fn lemma_firsts_unique(t: Seq<(Seq<char>, int)>, keys: Seq<Seq<char>>)
    requires
        is_firsting(t, keys),
    ensures
        firsts(keys) == t,
{
    let c = firsts(keys);
    assert(is_firsting(c, keys));
    assert forall|x: Seq<char>| pair_keys(c).contains(x) <==> pair_keys(t).contains(x) by {}
    lemma_sorted_unique(pair_keys(c), pair_keys(t));
    assert(c.len() == pair_keys(c).len() && t.len() == pair_keys(t).len());
    assert forall|i: int| 0 <= i < c.len() implies c[i] == t[i] by {
        assert(pair_keys(c)[i] == pair_keys(t)[i]);
        assert(c[i].1 == first_index(keys, c[i].0));
        assert(t[i].1 == first_index(keys, t[i].0));
    }
    assert(c =~= t);
}

/// The pairs of a count table.
pub open spec fn count_pairs(t: Seq<(String, usize)>) -> Seq<(Seq<char>, nat)> {
    Seq::new(t.len(), |i: int| (t[i].0@, t[i].1 as nat))
}

/// The pairs of a first-position table.
pub open spec fn first_pairs(t: Seq<(String, usize)>) -> Seq<(Seq<char>, int)> {
    Seq::new(t.len(), |i: int| (t[i].0@, t[i].1 as int))
}

proof fn lemma_count_table_counting(t: Seq<(String, usize)>, keys: Seq<Seq<char>>)
    requires
        is_count_table(t, keys),
    ensures
        count_pairs(t) == counting(keys),
{
    let p = count_pairs(t);
    assert(pair_keys(p) =~= table_keys(t));
    assert forall|x: Seq<char>| pair_keys(p).contains(x) <==> keys.contains(x) by {
        if keys.contains(x) {
            let j = choose|j: int| 0 <= j < keys.len() && keys[j] == x;
            assert(table_keys(t).contains(keys[j]));
        }
        if pair_keys(p).contains(x) {
            let i = choose|i: int| 0 <= i < pair_keys(p).len() && pair_keys(p)[i] == x;
            assert(t[i].1 > 0);
            lemma_occurrences_bound(keys, x);
        }
    }
    lemma_counting_unique(p, keys);
}

proof fn lemma_first_table_firsts(t: Seq<(String, usize)>, keys: Seq<Seq<char>>)
    requires
        is_first_table(t, keys),
    ensures
        first_pairs(t) == firsts(keys),
        is_firsting(firsts(keys), keys),
{
    let p = first_pairs(t);
    assert(pair_keys(p) =~= table_keys(t));
    assert forall|x: Seq<char>| pair_keys(p).contains(x) <==> keys.contains(x) by {
        if keys.contains(x) {
            let j = choose|j: int| 0 <= j < keys.len() && keys[j] == x;
            assert(table_keys(t).contains(keys[j]));
        }
        if pair_keys(p).contains(x) {
            let i = choose|i: int| 0 <= i < pair_keys(p).len() && pair_keys(p)[i] == x;
            assert(t[i].1 >= 0);
            lemma_first_index_range(keys, x);
        }
    }
    lemma_firsts_unique(p, keys);
}

/// The counts of a counting, added up.
pub open spec fn count_total(t: Seq<(Seq<char>, nat)>) -> nat
    decreases t.len(),
{
    if t.len() == 0 {
        0
    } else {
        count_total(t.drop_last()) + t.last().1
    }
}

/// How often the keys of `l` occur in `keys`, added up.
pub open spec fn occurrence_total(l: Seq<Seq<char>>, keys: Seq<Seq<char>>) -> nat
    decreases l.len(),
{
    if l.len() == 0 {
        0
    } else {
        occurrence_total(l.drop_last(), keys) + occurrences(keys, l.last())
    }
}

proof fn lemma_occurrence_total_empty(l: Seq<Seq<char>>)
    ensures
        occurrence_total(l, Seq::empty()) == 0,
    decreases l.len(),
{
    if l.len() > 0 {
        lemma_occurrence_total_empty(l.drop_last());
    }
}

proof fn lemma_occurrence_total_push(l: Seq<Seq<char>>, keys: Seq<Seq<char>>, x: Seq<char>)
    ensures
        occurrence_total(l, keys.push(x)) == occurrence_total(l, keys) + occurrences(l, x),
    decreases l.len(),
{
    if l.len() > 0 {
        lemma_occurrence_total_push(l.drop_last(), keys, x);
        lemma_occurrences_push(keys, x, l.last());
    }
}

/// In a strictly ascending list a key occurs once or not at all.
proof fn lemma_sorted_once(l: Seq<Seq<char>>, x: Seq<char>)
    requires
        strictly_sorted(l),
    ensures
        occurrences(l, x) == if l.contains(x) { 1nat } else { 0nat },
    decreases l.len(),
{
    if l.len() > 0 {
        let l1 = l.drop_last();
        assert forall|i: int, j: int| 0 <= i < j < l1.len() implies seq_lt(#[trigger] l1[i], #[trigger] l1[j]) by {
            assert(l1[i] == l[i] && l1[j] == l[j]);
        }
        lemma_sorted_once(l1, x);
        if l.last() == x {
            if l1.contains(x) {
                let i = choose|i: int| 0 <= i < l1.len() && l1[i] == x;
                assert(seq_lt(l[i], l[l.len() - 1]));
                lemma_lt_irreflexive(x);
            }
            assert(l.contains(l[l.len() - 1]));
        } else {
            if l.contains(x) {
                let i = choose|i: int| 0 <= i < l.len() && l[i] == x;
                assert(l1[i] == x);
            }
            if l1.contains(x) {
                let i = choose|i: int| 0 <= i < l1.len() && l1[i] == x;
                assert(l[i] == x);
            }
        }
    }
}

/// A strictly ascending list that holds every key counts each of them once.
proof fn lemma_occurrence_total_covers(l: Seq<Seq<char>>, keys: Seq<Seq<char>>)
    requires
        strictly_sorted(l),
        covers(l, keys),
    ensures
        occurrence_total(l, keys) == keys.len(),
    decreases keys.len(),
{
    if keys.len() == 0 {
        assert(keys =~= Seq::<Seq<char>>::empty());
        lemma_occurrence_total_empty(l);
    } else {
        let k1 = keys.drop_last();
        assert forall|j: int| 0 <= j < k1.len() implies #[trigger] l.contains(k1[j]) by {
            assert(k1[j] == keys[j]);
        }
        lemma_occurrence_total_covers(l, k1);
        assert(k1.push(keys.last()) =~= keys);
        lemma_occurrence_total_push(l, k1, keys.last());
        assert(l.contains(keys[keys.len() - 1]));
        lemma_sorted_once(l, keys.last());
    }
}

proof fn lemma_count_total_pairs(t: Seq<(Seq<char>, nat)>, keys: Seq<Seq<char>>)
    requires
        forall|i: int| 0 <= i < t.len() ==> #[trigger] t[i].1 == occurrences(keys, t[i].0),
    ensures
        count_total(t) == occurrence_total(pair_keys(t), keys),
    decreases t.len(),
{
    if t.len() > 0 {
        let t1 = t.drop_last();
        assert(pair_keys(t1) =~= pair_keys(t).drop_last());
        assert forall|i: int| 0 <= i < t1.len() implies #[trigger] t1[i].1 == occurrences(keys, t1[i].0) by {
            assert(t1[i] == t[i]);
        }
        lemma_count_total_pairs(t1, keys);
        assert(t[t.len() - 1].1 == occurrences(keys, t[t.len() - 1].0));
    }
}

/// The counts of a counting add up to the number of keys counted.
pub proof fn lemma_counting_total(t: Seq<(String, usize)>, keys: Seq<Seq<char>>)
    requires
        is_count_table(t, keys),
    ensures
        count_total(counting(keys)) == keys.len(),
{
    lemma_count_table_counting(t, keys);
    let c = counting(keys);
    assert(pair_keys(c) =~= table_keys(t));
    assert forall|i: int| 0 <= i < c.len() implies #[trigger] c[i].1 == occurrences(keys, c[i].0) by {
        assert(c[i] == (t[i].0@, t[i].1 as nat));
    }
    lemma_count_total_pairs(c, keys);
    lemma_occurrence_total_covers(table_keys(t), keys);
}

/// A JSON unsigned integer.
pub open spec fn uint_json(n: nat) -> JsonV {
    JsonV::Number(NumberV::UInt(n as u64))
}

/// `{key: count}` members of a counting.
pub open spec fn count_members(t: Seq<(Seq<char>, nat)>) -> Seq<(Seq<char>, JsonV)> {
    Seq::new(t.len(), |i: int| (t[i].0, uint_json(t[i].1)))
}

/// The count object of `keys`: `{key: count}` with keys ascending.
pub fn count_object(keys: &Vec<String>) -> (r: Json)
    ensures
        r@ == JsonV::Object(count_members(counting(strings_view(keys@)))),
        count_total(counting(strings_view(keys@))) == keys@.len(),
{
    let t = count_keys(keys);
    let ghost kv = strings_view(keys@);
    proof {
        lemma_counting_total(t@, kv);
    }
    let mut out: Vec<(String, Json)> = Vec::new();
    let mut i: usize = 0;
    while i < t.len()
        invariant
            i <= t.len(),
            is_count_table(t@, kv),
            out@.len() == i,
            forall|j: int| 0 <= j < i ==> #[trigger] fields_view(out@)[j] == (t@[j].0@, uint_json(t@[j].1 as nat)),
        decreases t.len() - i,
    {
        let ghost before = out@;
        out.push((t[i].0.clone(), Json::Number(Number::UInt(t[i].1 as u64))));
        assert forall|j: int| 0 <= j < i + 1 implies #[trigger] fields_view(out@)[j] == (t@[j].0@, uint_json(t@[j].1 as nat)) by {
            if j < i {
                assert(fields_view(out@)[j] == fields_view(before)[j]);
            }
        }
        i = i + 1;
    }
    proof {
        lemma_object_view(out);
        assert(fields_view(out@) =~= count_members(count_pairs(t@)));
    }
    Json::Object(out)
}


// ---- every key list has its counting ----
/// How many entries at the front of `t` have keys that sort before `x`.
pub open spec fn lt_prefix(t: Seq<(Seq<char>, nat)>, x: Seq<char>) -> nat
    decreases t.len(),
{
    if t.len() > 0 && seq_lt(t[0].0, x) {
        1 + lt_prefix(t.drop_first(), x)
    } else {
        0
    }
}

proof fn lemma_lt_prefix(t: Seq<(Seq<char>, nat)>, x: Seq<char>)
    requires
        strictly_sorted(pair_keys(t)),
    ensures
        lt_prefix(t, x) <= t.len(),
        forall|i: int| 0 <= i < lt_prefix(t, x) ==> seq_lt(#[trigger] t[i].0, x),
        forall|i: int| lt_prefix(t, x) <= i < t.len() ==> !seq_lt(#[trigger] t[i].0, x),
    decreases t.len(),
{
    if t.len() > 0 {
        let t1 = t.drop_first();
        assert forall|a: int, b: int| 0 <= a < b < pair_keys(t1).len() implies seq_lt(
            #[trigger] pair_keys(t1)[a],
            #[trigger] pair_keys(t1)[b],
        ) by {
            assert(pair_keys(t1)[a] == pair_keys(t)[a + 1] && pair_keys(t1)[b] == pair_keys(t)[b + 1]);
        }
        lemma_lt_prefix(t1, x);
        let p = lt_prefix(t, x);
        if seq_lt(t[0].0, x) {
            assert forall|i: int| 0 <= i < p implies seq_lt(#[trigger] t[i].0, x) by {
                if i > 0 {
                    assert(t[i] == t1[i - 1]);
                }
            }
            assert forall|i: int| p <= i < t.len() implies !seq_lt(#[trigger] t[i].0, x) by {
                assert(t[i] == t1[i - 1]);
            }
        } else {
            assert forall|i: int| 0 <= i < t.len() implies !seq_lt(#[trigger] t[i].0, x) by {
                if i > 0 && seq_lt(t[i].0, x) {
                    assert(seq_lt(pair_keys(t)[0], pair_keys(t)[i]));
                    lemma_lt_transitive(t[0].0, t[i].0, x);
                }
            }
        }
    }
}

/// Every key list has a counting: `counting` names one.
pub proof fn lemma_counting_exists(keys: Seq<Seq<char>>)
    ensures
        is_counting(counting(keys), keys),
    decreases keys.len(),
{
    if keys.len() == 0 {
        let t = Seq::<(Seq<char>, nat)>::empty();
        assert(pair_keys(t) =~= Seq::<Seq<char>>::empty());
        assert(is_counting(t, keys));
    } else {
        let k1 = keys.drop_last();
        let x = keys.last();
        lemma_counting_exists(k1);
        let t = counting(k1);
        let pk = pair_keys(t);
        assert(k1.push(x) =~= keys);
        assert forall|y: Seq<char>| keys.contains(y) <==> (k1.contains(y) || y == x) by {
            if keys.contains(y) {
                let j = choose|j: int| 0 <= j < keys.len() && keys[j] == y;
                if j < k1.len() {
                    assert(k1[j] == y);
                }
            }
            if k1.contains(y) {
                let j = choose|j: int| 0 <= j < k1.len() && k1[j] == y;
                assert(keys[j] == y);
            }
            if y == x {
                assert(keys[keys.len() - 1] == y);
            }
        }
        if pk.contains(x) {
            let i = choose|i: int| 0 <= i < pk.len() && pk[i] == x;
            let t2 = t.update(i, (x, t[i].1 + 1));
            assert(pair_keys(t2) =~= pk);
            assert forall|j: int| 0 <= j < t2.len() implies #[trigger] t2[j].1 == occurrences(keys, t2[j].0) by {
                lemma_occurrences_push(k1, x, t2[j].0);
                if j != i {
                    if j < i {
                        assert(seq_lt(pk[j], pk[i]));
                    } else {
                        assert(seq_lt(pk[i], pk[j]));
                    }
                    lemma_lt_irreflexive(x);
                    assert(t[j].0 != x);
                }
            }
            assert(is_counting(t2, keys));
        } else {
            lemma_lt_prefix(t, x);
            let p = lt_prefix(t, x) as int;
            let t2 = t.take(p) + seq![(x, 1nat)] + t.skip(p);
            let pk2 = pair_keys(t2);
            assert(t2.len() == t.len() + 1);
            assert forall|a: int| 0 <= a < t2.len() implies #[trigger] t2[a] == (if a < p {
                t[a]
            } else if a == p {
                (x, 1nat)
            } else {
                t[a - 1]
            }) by {}
            assert forall|i: int| p <= i < t.len() implies seq_lt(x, #[trigger] t[i].0) by {
                lemma_lt_total(x, t[i].0);
                assert(pk[i] == t[i].0);
                assert(!seq_lt(t[i].0, x));
            }
            assert forall|a: int, b: int| 0 <= a < b < pk2.len() implies seq_lt(#[trigger] pk2[a], #[trigger] pk2[b]) by {
                if a < p && b < p {
                    assert(seq_lt(pk[a], pk[b]));
                } else if a < p && b == p {
                    assert(seq_lt(t[a].0, x));
                } else if a < p {
                    assert(seq_lt(pk[a], pk[b - 1]));
                } else if a == p {
                    assert(seq_lt(x, t[b - 1].0));
                } else {
                    assert(seq_lt(pk[a - 1], pk[b - 1]));
                }
            }
            lemma_occurrences_bound(k1, x);
            assert(!k1.contains(x));
            assert forall|j: int| 0 <= j < t2.len() implies #[trigger] t2[j].1 == occurrences(keys, t2[j].0) by {
                lemma_occurrences_push(k1, x, t2[j].0);
                if j != p {
                    let q = if j < p { j } else { j - 1 };
                    assert(t2[j] == t[q]);
                    assert(pk[q] == t[q].0);
                    assert(t[q].0 != x);
                }
            }
            assert forall|y: Seq<char>| pk2.contains(y) <==> keys.contains(y) by {
                if pk2.contains(y) {
                    let j = choose|j: int| 0 <= j < pk2.len() && pk2[j] == y;
                    if j != p {
                        let q = if j < p { j } else { j - 1 };
                        assert(pk[q] == y);
                    }
                }
                if keys.contains(y) && y != x {
                    assert(pk.contains(y));
                    let j = choose|j: int| 0 <= j < pk.len() && pk[j] == y;
                    if j < p {
                        assert(pk2[j] == y);
                    } else {
                        assert(pk2[j + 1] == y);
                    }
                }
                if y == x {
                    assert(pk2[p] == y);
                }
            }
            assert(is_counting(t2, keys));
        }
    }
}

} // verus!
