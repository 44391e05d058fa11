//! The order of strings: character by character, a proper prefix first. This
//! is the order `String` compares by, and the order the library sorts by.
use vstd::prelude::*;
use crate::text::{chars_of, str_eq};

verus! {

/// `a` sorts strictly before `b`.
pub open spec fn seq_lt(a: Seq<char>, b: Seq<char>) -> bool
    decreases a.len(),
{
    if b.len() == 0 {
        false
    } else if a.len() == 0 {
        true
    } else if (a[0] as int) < (b[0] as int) {
        true
    } else if a[0] == b[0] {
        seq_lt(a.drop_first(), b.drop_first())
    } else {
        false
    }
}

/// No string sorts before itself.
pub proof fn lemma_lt_irreflexive(a: Seq<char>)
    ensures
        !seq_lt(a, a),
    decreases a.len(),
{
    if a.len() > 0 {
        lemma_lt_irreflexive(a.drop_first());
    }
}

/// Sorting before is transitive.
pub proof fn lemma_lt_transitive(a: Seq<char>, b: Seq<char>, c: Seq<char>)
    requires
        seq_lt(a, b),
        seq_lt(b, c),
    ensures
        seq_lt(a, c),
    decreases a.len(),
{
    if a.len() > 0 && b.len() > 0 && c.len() > 0 && a[0] == b[0] && b[0] == c[0] {
        lemma_lt_transitive(a.drop_first(), b.drop_first(), c.drop_first());
    }
}

/// Of two different strings, exactly one sorts before the other.
pub proof fn lemma_lt_total(a: Seq<char>, b: Seq<char>)
    ensures
        a != b ==> (seq_lt(a, b) || seq_lt(b, a)),
        !(seq_lt(a, b) && seq_lt(b, a)),
    decreases a.len(),
{
    if a.len() > 0 && b.len() > 0 && a[0] == b[0] {
        lemma_lt_total(a.drop_first(), b.drop_first());
        if a.drop_first() == b.drop_first() {
            assert(a =~= seq![a[0]] + a.drop_first());
            assert(b =~= seq![b[0]] + b.drop_first());
        }
    } else if a.len() == 0 && b.len() == 0 {
        assert(a =~= b);
    } else if a.len() > 0 && b.len() > 0 {
        assert((a[0] as int) != (b[0] as int));
    }
}

/// Whether `a` sorts strictly before `b`.
pub fn str_lt(a: &str, b: &str) -> (r: bool)
    ensures
        r == seq_lt(a@, b@),
{
    let x = chars_of(a);
    let y = chars_of(b);
    let mut i: usize = 0;
    assert(a@.subrange(0, a@.len() as int) =~= a@);
    assert(b@.subrange(0, b@.len() as int) =~= b@);
    while i < x.len() && i < y.len()
        invariant
            x@ == a@,
            y@ == b@,
            i <= x.len(),
            i <= y.len(),
            seq_lt(a@, b@) == seq_lt(
                a@.subrange(i as int, a@.len() as int),
                b@.subrange(i as int, b@.len() as int),
            ),
        decreases x.len() - i,
    {
        let ghost s = a@.subrange(i as int, a@.len() as int);
        let ghost t = b@.subrange(i as int, b@.len() as int);
        if x[i] < y[i] {
            return true;
        }
        if x[i] != y[i] {
            return false;
        }
        assert(s.drop_first() =~= a@.subrange(i + 1, a@.len() as int));
        assert(t.drop_first() =~= b@.subrange(i + 1, b@.len() as int));
        i = i + 1;
    }
    i < y.len()
}

/// `None` sorts before every `Some`, and two `Some`s sort by their text.
pub open spec fn opt_lt(a: Option<Seq<char>>, b: Option<Seq<char>>) -> bool {
    match (a, b) {
        (None, Some(_)) => true,
        (Some(x), Some(y)) => seq_lt(x, y),
        _ => false,
    }
}

/// Whether the optional text `a` sorts strictly before `b`.
pub fn opt_str_lt(a: &Option<String>, b: &Option<String>) -> (r: bool)
    ensures
        r == opt_lt(crate::models::opt_view(*a), crate::models::opt_view(*b)),
{
    match (a, b) {
        (None, Some(_)) => true,
        (Some(x), Some(y)) => str_lt(x.as_str(), y.as_str()),
        _ => false,
    }
}

/// The texts of a list of strings.
pub open spec fn texts(v: Seq<String>) -> Seq<Seq<char>> {
    v.map_values(|s: String| s@)
}

/// Each text sorts strictly before the next, so none occurs twice.
pub open spec fn strictly_sorted(s: Seq<Seq<char>>) -> bool {
    forall|i: int, j: int| 0 <= i < j < s.len() ==> seq_lt(#[trigger] s[i], #[trigger] s[j])
}

/// Adds `s` to the strictly sorted list `v`, where it sorts, unless it is
/// there already.
pub fn insert_sorted(v: &mut Vec<String>, s: String)
    requires
        strictly_sorted(texts(old(v)@)),
    ensures
        strictly_sorted(texts(final(v)@)),
        texts(final(v)@).to_set() == texts(old(v)@).to_set().insert(s@),
{
    let ghost before = texts(v@);
    let mut p: usize = 0;
    while p < v.len() && str_lt(v[p].as_str(), s.as_str())
        invariant
            p <= v@.len(),
            v@ == old(v)@,
            forall|i: int| 0 <= i < p ==> seq_lt(#[trigger] texts(v@)[i], s@),
        decreases v.len() - p,
    {
        p = p + 1;
    }
    if p < v.len() && str_eq(v[p].as_str(), s.as_str()) {
        assert(texts(v@)[p as int] == s@);
        assert(before.to_set().insert(s@) =~= before.to_set());
        return;
    }
    proof {
        if p < v@.len() {
            lemma_lt_total(texts(v@)[p as int], s@);
            assert forall|j: int| p <= j < v@.len() implies seq_lt(s@, #[trigger] texts(v@)[j]) by {
                if j > p {
                    lemma_lt_transitive(s@, texts(v@)[p as int], texts(v@)[j]);
                }
            }
        }
    }
    let ghost s_view = s@;
    v.insert(p, s);
    proof {
        let after = texts(v@);
        assert(after =~= before.take(p as int).push(s_view) + before.skip(p as int));
        assert forall|i: int, j: int| 0 <= i < j < after.len() implies seq_lt(
            #[trigger] after[i],
            #[trigger] after[j],
        ) by {
            if i < p && j > p {
                lemma_lt_transitive(after[i], s_view, after[j]);
            }
        }
        assert forall|x: Seq<char>| after.to_set().contains(x) <==> before.to_set().insert(
            s_view,
        ).contains(x) by {
            if after.to_set().contains(x) {
                let k = choose|k: int| 0 <= k < after.len() && after[k] == x;
                if k < p {
                    assert(before[k] == x);
                } else if k > p {
                    assert(before[k - 1] == x);
                }
            }
            if before.to_set().contains(x) {
                let k = choose|k: int| 0 <= k < before.len() && before[k] == x;
                if k < p {
                    assert(after[k] == x);
                } else {
                    assert(after[k + 1] == x);
                }
            }
            if x == s_view {
                assert(after[p as int] == x);
            }
        }
        assert(after.to_set() =~= before.to_set().insert(s_view));
    }
}

/// Where a stable insertion puts `x` among `s`: before the first element `x`
/// sorts strictly before, or at the end.
pub open spec fn insert_pos<T>(s: Seq<T>, x: T, lt: spec_fn(T, T) -> bool) -> int
    decreases s.len(),
{
    if s.len() == 0 {
        0
    } else if lt(x, s[0]) {
        0
    } else {
        1 + insert_pos(s.drop_first(), x, lt)
    }
}

/// The first `n` items sorted stably by `lt`, by inserting each in turn.
pub open spec fn sorted_by<T>(items: Seq<T>, lt: spec_fn(T, T) -> bool, n: int) -> Seq<T>
    decreases n,
{
    if n <= 0 {
        Seq::empty()
    } else {
        let s = sorted_by(items, lt, n - 1);
        s.insert(insert_pos(s, items[n - 1], lt), items[n - 1])
    }
}

pub proof fn lemma_insert_pos_bounded<T>(s: Seq<T>, x: T, lt: spec_fn(T, T) -> bool)
    ensures
        0 <= insert_pos(s, x, lt) <= s.len(),
    decreases s.len(),
{
    if s.len() > 0 && !lt(x, s[0]) {
        lemma_insert_pos_bounded(s.drop_first(), x, lt);
    }
}

pub proof fn lemma_sorted_by_len<T>(items: Seq<T>, lt: spec_fn(T, T) -> bool, n: int)
    requires
        0 <= n,
    ensures
        sorted_by(items, lt, n).len() == n,
    decreases n,
{
    if n > 0 {
        lemma_sorted_by_len(items, lt, n - 1);
        lemma_insert_pos_bounded(sorted_by(items, lt, n - 1), items[n - 1], lt);
    }
}

/// `lt` is a strict order: nothing sorts before itself, and sorting before
/// is transitive.
pub open spec fn strict_order<T>(lt: spec_fn(T, T) -> bool) -> bool {
    &&& forall|a: T| !(#[trigger] lt(a, a))
    &&& forall|a: T, b: T, c: T| #[trigger] lt(a, b) && #[trigger] lt(b, c) ==> lt(a, c)
}

/// No item of `s` sorts strictly before an item ahead of it.
pub open spec fn is_sorted_by<T>(s: Seq<T>, lt: spec_fn(T, T) -> bool) -> bool {
    forall|i: int, j: int| 0 <= i < j < s.len() ==> !lt(#[trigger] s[j], #[trigger] s[i])
}

/// The order of strings is a strict order, so sorting by it sorts.
pub proof fn lemma_text_order_is_strict()
    ensures
        strict_order(|a: Seq<char>, b: Seq<char>| seq_lt(a, b)),
{
    let lt = |a: Seq<char>, b: Seq<char>| seq_lt(a, b);
    assert forall|a: Seq<char>| !(#[trigger] lt(a, a)) by {
        lemma_lt_irreflexive(a);
    }
    assert forall|a: Seq<char>, b: Seq<char>, c: Seq<char>| #[trigger] lt(a, b) && #[trigger] lt(b, c) implies lt(a, c) by {
        lemma_lt_transitive(a, b, c);
    }
}

proof fn lemma_insert_pos<T>(s: Seq<T>, x: T, lt: spec_fn(T, T) -> bool)
    ensures
        0 <= insert_pos(s, x, lt) <= s.len(),
        forall|k: int| 0 <= k < insert_pos(s, x, lt) ==> !lt(x, #[trigger] s[k]),
        insert_pos(s, x, lt) < s.len() ==> lt(x, s[insert_pos(s, x, lt)]),
    decreases s.len(),
{
    if s.len() > 0 && !lt(x, s[0]) {
        let t = s.drop_first();
        lemma_insert_pos(t, x, lt);
        assert forall|k: int| 0 <= k < insert_pos(s, x, lt) implies !lt(x, #[trigger] s[k]) by {
            if k > 0 {
                assert(s[k] == t[k - 1]);
            }
        }
        if insert_pos(s, x, lt) < s.len() {
            assert(s[insert_pos(s, x, lt)] == t[insert_pos(t, x, lt)]);
        }
    }
}

/// Sorting by insertion keeps every item, as often as it occurs, and puts
/// them in order: no item ends up behind one it sorts strictly before.
pub proof fn lemma_sorted_by_sorts<T>(items: Seq<T>, lt: spec_fn(T, T) -> bool, n: int)
    requires
        0 <= n <= items.len(),
        strict_order(lt),
    ensures
        sorted_by(items, lt, n).to_multiset() == items.take(n).to_multiset(),
        is_sorted_by(sorted_by(items, lt, n), lt),
    decreases n,
{
    broadcast use vstd::seq_lib::group_to_multiset_ensures;
    if n == 0 {
        assert(items.take(0) =~= Seq::<T>::empty());
        assert(sorted_by(items, lt, 0) =~= Seq::<T>::empty());
    } else {
        lemma_sorted_by_sorts(items, lt, n - 1);
        let s = sorted_by(items, lt, n - 1);
        let x = items[n - 1];
        lemma_insert_pos(s, x, lt);
        let p = insert_pos(s, x, lt);
        let r = s.insert(p, x);
        assert(r == sorted_by(items, lt, n));
        assert(r =~= s.take(p) + (seq![x] + s.skip(p)));
        assert(s =~= s.take(p) + s.skip(p));
        vstd::seq_lib::lemma_multiset_commutative(s.take(p), seq![x] + s.skip(p));
        vstd::seq_lib::lemma_multiset_commutative(seq![x], s.skip(p));
        vstd::seq_lib::lemma_multiset_commutative(s.take(p), s.skip(p));
        assert(seq![x] =~= Seq::<T>::empty().push(x));
        assert(items.take(n) =~= items.take(n - 1).push(x));
        assert(r.to_multiset() =~= s.to_multiset().insert(x));
        assert forall|i: int, j: int| 0 <= i < j < r.len() implies !lt(#[trigger] r[j], #[trigger] r[i]) by {
            if j < p {
                assert(r[i] == s[i] && r[j] == s[j]);
            } else if j == p {
                assert(r[i] == s[i]);
            } else if i < p {
                assert(r[i] == s[i] && r[j] == s[j - 1]);
            } else if i == p {
                assert(r[j] == s[j - 1]);
                if lt(s[j - 1], x) {
                    assert(lt(x, s[p]));
                    assert(lt(s[j - 1], s[p]));
                    if j - 1 > p {
                        assert(!lt(s[j - 1], s[p]));
                    }
                }
            } else {
                assert(r[i] == s[i - 1] && r[j] == s[j - 1]);
            }
        }
    }
}

/// `a` sorts strictly before `b` as text.
pub open spec fn text_lt(a: String, b: String) -> bool {
    seq_lt(a@, b@)
}

/// Strings sorted stably, as `sort` sorts them.
pub fn sort_strings(v: &Vec<String>) -> (r: Vec<String>)
    ensures
        r@ == sorted_by(v@, |a: String, b: String| text_lt(a, b), v@.len() as int),
{
    let mut out: Vec<String> = Vec::new();
    let mut i: usize = 0;
    while i < v.len()
        invariant
            i <= v@.len(),
            out@ == sorted_by(v@, |a: String, b: String| text_lt(a, b), i as int),
        decreases v.len() - i,
    {
        let x = v[i].clone();
        let ghost s = out@;
        let mut p: usize = 0;
        proof {
            lemma_sorted_by_len(v@, |a: String, b: String| text_lt(a, b), i as int);
            assert(s.skip(0) =~= s);
        }
        while p < out.len() && !str_lt(x.as_str(), out[p].as_str())
            invariant
                p <= out@.len(),
                out@ == s,
                insert_pos(s, x, |a: String, b: String| text_lt(a, b)) == p + insert_pos(s.skip(p as int), x, |a: String, b: String| text_lt(a, b)),
            decreases out.len() - p,
        {
            assert(s.skip(p as int).drop_first() =~= s.skip(p + 1));
            assert(s.skip(p as int)[0] == s[p as int]);
            p = p + 1;
        }
        proof {
            if p < out@.len() {
                assert(s.skip(p as int)[0] == s[p as int]);
            } else {
                assert(s.skip(p as int) =~= Seq::<String>::empty());
            }
        }
        out.insert(p, x);
        i = i + 1;
    }
    out
}

proof fn lemma_insert_pos_texts(s: Seq<String>, x: String)
    ensures
        insert_pos(texts(s), x@, |a: Seq<char>, b: Seq<char>| seq_lt(a, b)) == insert_pos(s, x, |a: String, b: String| text_lt(a, b)),
    decreases s.len(),
{
    if s.len() > 0 {
        assert(texts(s).drop_first() =~= texts(s.drop_first()));
        lemma_insert_pos_texts(s.drop_first(), x);
    }
}

/// Sorting strings and taking their texts is sorting their texts.
pub proof fn lemma_sorted_texts(v: Seq<String>, n: int)
    requires
        0 <= n <= v.len(),
    ensures
        texts(sorted_by(v, |a: String, b: String| text_lt(a, b), n)) == sorted_by(texts(v), |a: Seq<char>, b: Seq<char>| seq_lt(a, b), n),
    decreases n,
{
    if n > 0 {
        lemma_sorted_texts(v, n - 1);
        let s = sorted_by(v, |a: String, b: String| text_lt(a, b), n - 1);
        lemma_insert_pos_texts(s, v[n - 1]);
        lemma_insert_pos_bounded(s, v[n - 1], |a: String, b: String| text_lt(a, b));
        let p = insert_pos(s, v[n - 1], |a: String, b: String| text_lt(a, b));
        assert(texts(s.insert(p, v[n - 1])) =~= texts(s).insert(p, v[n - 1]@));
    }
}

} // verus!
