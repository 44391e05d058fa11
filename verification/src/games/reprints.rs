//! Which card codes are one card. A catalog links a card's code to the codes
//! of its reprints; codes joined by a chain of such links are one card, named
//! by the least code among them.
use vstd::prelude::*;
use crate::order::{lemma_lt_irreflexive, lemma_lt_total, lemma_lt_transitive, seq_lt, str_lt};

verus! {

/// The texts of a list of links.
pub open spec fn links_view(links: Seq<(String, String)>) -> Seq<(Seq<char>, Seq<char>)> {
    links.map_values(|e: (String, String)| (e.0@, e.1@))
}

/// Whether the `k`th link joins `a` and `b`, either way round.
pub open spec fn joins(links: Seq<(Seq<char>, Seq<char>)>, k: int, a: Seq<char>, b: Seq<char>) -> bool {
    (links[k].0 == a && links[k].1 == b) || (links[k].0 == b && links[k].1 == a)
}

/// Whether a link joins `a` and `b`.
pub open spec fn linked(links: Seq<(Seq<char>, Seq<char>)>, a: Seq<char>, b: Seq<char>) -> bool {
    exists|k: int| 0 <= k < links.len() && #[trigger] joins(links, k, a, b)
}

/// Whether `p` goes from code to code along links.
pub open spec fn is_walk(links: Seq<(Seq<char>, Seq<char>)>, p: Seq<Seq<char>>) -> bool {
    p.len() >= 1 && forall|i: int| 0 <= i < p.len() - 1 ==> #[trigger] linked(links, p[i], p[i + 1])
}

/// Whether a chain of links leads from `a` to `b`.
pub open spec fn connected(links: Seq<(Seq<char>, Seq<char>)>, a: Seq<char>, b: Seq<char>) -> bool {
    exists|p: Seq<Seq<char>>| #[trigger] is_walk(links, p) && p[0] == a && p.last() == b
}

/// Whether `g` names the card `code` is one of: the least code connected to
/// it.
pub open spec fn is_group_label(links: Seq<(Seq<char>, Seq<char>)>, code: Seq<char>, g: Seq<char>) -> bool {
    connected(links, code, g) && forall|y: Seq<char>| #[trigger] connected(links, code, y) ==> !seq_lt(y, g)
}

/// The name of the card `code` is one of.
pub open spec fn group_label(links: Seq<(Seq<char>, Seq<char>)>, code: Seq<char>) -> Seq<char> {
    choose|g: Seq<char>| is_group_label(links, code, g)
}

/// A code names the card it is one of in only one way.
pub proof fn lemma_group_label_unique(
    links: Seq<(Seq<char>, Seq<char>)>,
    code: Seq<char>,
    g: Seq<char>,
)
    requires
        is_group_label(links, code, g),
    ensures
        group_label(links, code) == g,
{
    let h = group_label(links, code);
    assert(is_group_label(links, code, h));
    lemma_lt_total(g, h);
    assert(!seq_lt(h, g));
    assert(!seq_lt(g, h));
}

/// How many link ends are not yet among `g`: what a search for a card's
/// codes has left to find.
pub open spec fn ends_unfound(links: Seq<(Seq<char>, Seq<char>)>, g: Seq<Seq<char>>) -> nat
    decreases links.len(),
{
    if links.len() == 0 {
        0
    } else {
        ends_unfound(links.drop_last(), g) + (if g.contains(links.last().0) {
            0nat
        } else {
            1nat
        }) + (if g.contains(links.last().1) {
            0nat
        } else {
            1nat
        })
    }
}

proof fn lemma_unreached_shrinks(
    links: Seq<(Seq<char>, Seq<char>)>,
    g: Seq<Seq<char>>,
    h: Seq<Seq<char>>,
    x: Seq<char>,
)
    requires
        forall|y: Seq<char>| g.contains(y) ==> h.contains(y),
    ensures
        ends_unfound(links, h) <= ends_unfound(links, g),
        (!g.contains(x) && h.contains(x) && exists|k: int|
            0 <= k < links.len() && (links[k].0 == x || links[k].1 == x)) ==> ends_unfound(links, h)
            < ends_unfound(links, g),
    decreases links.len(),
{
    if links.len() > 0 {
        lemma_unreached_shrinks(links.drop_last(), g, h, x);
        if !g.contains(x) && h.contains(x) && exists|k: int|
            0 <= k < links.len() && (links[k].0 == x || links[k].1 == x) {
            let k = choose|k: int| 0 <= k < links.len() && (links[k].0 == x || links[k].1 == x);
            if k < links.len() - 1 {
                assert(links.drop_last()[k] == links[k]);
            }
        }
    }
}

proof fn lemma_extend_walk(links: Seq<(Seq<char>, Seq<char>)>, p: Seq<Seq<char>>, y: Seq<char>)
    requires
        is_walk(links, p),
        linked(links, p.last(), y),
    ensures
        is_walk(links, p.push(y)),
        p.push(y)[0] == p[0],
        p.push(y).last() == y,
{
    let q = p.push(y);
    assert forall|i: int| 0 <= i < q.len() - 1 implies #[trigger] linked(links, q[i], q[i + 1]) by {
        if i < p.len() - 1 {
            assert(q[i] == p[i] && q[i + 1] == p[i + 1]);
            assert(linked(links, p[i], p[i + 1]));
        } else {
            assert(q[i] == p.last() && q[i + 1] == y);
        }
    }
}

/// A set of codes that holds `a` and every code linked to one it holds holds
/// every code connected to `a`.
proof fn lemma_closed_holds_connected(
    links: Seq<(Seq<char>, Seq<char>)>,
    g: Seq<Seq<char>>,
    a: Seq<char>,
    y: Seq<char>,
)
    requires
        g.contains(a),
        forall|x: Seq<char>, z: Seq<char>| g.contains(x) && #[trigger] linked(links, x, z) ==> g.contains(z),
        connected(links, a, y),
    ensures
        g.contains(y),
{
    let p = choose|p: Seq<Seq<char>>| #[trigger] is_walk(links, p) && p[0] == a && p.last() == y;
    lemma_walk_stays(links, g, p, p.len() - 1);
}

proof fn lemma_walk_stays(links: Seq<(Seq<char>, Seq<char>)>, g: Seq<Seq<char>>, p: Seq<Seq<char>>, n: int)
    requires
        is_walk(links, p),
        g.contains(p[0]),
        forall|x: Seq<char>, z: Seq<char>| g.contains(x) && #[trigger] linked(links, x, z) ==> g.contains(z),
        0 <= n < p.len(),
    ensures
        g.contains(p[n]),
    decreases n,
{
    if n > 0 {
        lemma_walk_stays(links, g, p, n - 1);
        let i = n - 1;
        assert(linked(links, p[i], p[i + 1]));
    }
}

/// The texts of a list of codes.
pub open spec fn codes(v: Seq<String>) -> Seq<Seq<char>> {
    v.map_values(|s: String| s@)
}

fn holds(v: &Vec<String>, s: &String) -> (r: bool)
    ensures
        r == codes(v@).contains(s@),
{
    let mut i: usize = 0;
    while i < v.len()
        invariant
            i <= v@.len(),
            forall|j: int| 0 <= j < i ==> v@[j]@ != s@,
        decreases v.len() - i,
    {
        if v[i] == *s {
            assert(codes(v@)[i as int] == s@);
            return true;
        }
        i = i + 1;
    }
    assert(!codes(v@).contains(s@)) by {
        if codes(v@).contains(s@) {
            let j = choose|j: int| 0 <= j < codes(v@).len() && codes(v@)[j] == s@;
            assert(v@[j]@ == s@);
        }
    }
    false
}

/// Every code connected to `start`, `start` first.
pub fn component(links: &Vec<(String, String)>, start: &String) -> (r: Vec<String>)
    ensures
        r@.len() >= 1,
        r@[0]@ == start@,
        forall|y: Seq<char>| codes(r@).contains(y) <==> connected(links_view(links@), start@, y),
{
    let ghost lv = links_view(links@);
    let mut group: Vec<String> = Vec::new();
    group.push(start.clone());
    proof {
        let p = seq![start@];
        assert(is_walk(lv, p));
        assert(codes(group@)[0] == start@);
    }
    let mut k: usize = 0;
    while k < group.len()
        invariant
            lv == links_view(links@),
            k <= group@.len(),
            group@.len() >= 1,
            group@[0]@ == start@,
            forall|y: Seq<char>| codes(group@).contains(y) ==> connected(lv, start@, y),
            forall|i: int, y: Seq<char>|
                0 <= i < k && #[trigger] linked(lv, group@[i]@, y) ==> codes(group@).contains(y),
        decreases ends_unfound(lv, codes(group@)), group@.len() - k,
    {
        let ghost before = codes(group@);
        let ghost len0 = group@.len();
        let ghost out0 = ends_unfound(lv, before);
        let ghost gs = group@;
        let code = group[k].clone();
        assert(codes(group@)[k as int] == code@);
        let mut e: usize = 0;
        while e < links.len()
            invariant
                lv == links_view(links@),
                k < group@.len(),
                len0 <= group@.len(),
                code@ == group@[k as int]@,
                e <= links@.len(),
                group@[0]@ == start@,
                forall|j: int| 0 <= j < gs.len() ==> group@[j] == gs[j],
                gs.len() == len0,
                forall|y: Seq<char>| before.contains(y) ==> codes(group@).contains(y),
                forall|y: Seq<char>| codes(group@).contains(y) ==> connected(lv, start@, y),
                forall|i: int, y: Seq<char>|
                    0 <= i < k && #[trigger] linked(lv, group@[i]@, y) ==> codes(group@).contains(y),
                forall|m: int, y: Seq<char>|
                    0 <= m < e && #[trigger] joins(lv, m, code@, y) ==> codes(group@).contains(y),
                ends_unfound(lv, codes(group@)) <= out0,
                group@.len() == len0 || ends_unfound(lv, codes(group@)) < out0,
            decreases links@.len() - e,
        {
            assert(lv[e as int] == (links@[e as int].0@, links@[e as int].1@));
            let ghost mid = codes(group@);
            if links[e].0 == code && !holds(&group, &links[e].1) {
                let ghost g0 = group@;
                group.push(links[e].1.clone());
                proof {
                    let y = links@[e as int].1@;
                    assert(codes(group@) =~= mid.push(y));
                    assert forall|z: Seq<char>| mid.contains(z) implies codes(group@).contains(z) by {
                        let j = choose|j: int| 0 <= j < mid.len() && mid[j] == z;
                        assert(codes(group@)[j] == z);
                    }
                    assert(codes(group@)[g0.len() as int] == y);
                    assert(exists|kk: int| 0 <= kk < lv.len() && (lv[kk].0 == y || lv[kk].1 == y)) by {
                        assert(lv[e as int].1 == y);
                    }
                    lemma_unreached_shrinks(lv, mid, codes(group@), y);
                    // the new code is connected to the start
                    assert(connected(lv, start@, code@)) by {
                        assert(mid[k as int] == code@);
                    }
                    let p = choose|p: Seq<Seq<char>>| #[trigger] is_walk(lv, p) && p[0] == start@ && p.last() == code@;
                    assert(joins(lv, e as int, code@, y));
                    lemma_extend_walk(lv, p, y);
                    assert(is_walk(lv, p.push(y)));
                    assert forall|z: Seq<char>| codes(group@).contains(z) implies connected(lv, start@, z) by {
                        if z != y {
                            let j = choose|j: int| 0 <= j < codes(group@).len() && codes(group@)[j] == z;
                            assert(mid[j] == z);
                        }
                    }
                    assert forall|j: int| 0 <= j < gs.len() implies group@[j] == gs[j] by {
                        assert(group@[j] == g0[j]);
                    }
                    assert forall|i: int, z: Seq<char>|
                        0 <= i < k && #[trigger] linked(lv, group@[i]@, z) implies codes(group@).contains(z) by {
                        assert(group@[i] == g0[i]);
                        assert(linked(lv, g0[i]@, z));
                    }
                    assert forall|m: int, z: Seq<char>|
                        0 <= m < e && #[trigger] joins(lv, m, code@, z) implies codes(group@).contains(z) by {
                    }
                }
            }
            let ghost mid2 = codes(group@);
            if links[e].1 == code && !holds(&group, &links[e].0) {
                let ghost g0 = group@;
                group.push(links[e].0.clone());
                proof {
                    let y = links@[e as int].0@;
                    assert(codes(group@) =~= mid2.push(y));
                    assert forall|z: Seq<char>| mid2.contains(z) implies codes(group@).contains(z) by {
                        let j = choose|j: int| 0 <= j < mid2.len() && mid2[j] == z;
                        assert(codes(group@)[j] == z);
                    }
                    assert(codes(group@)[g0.len() as int] == y);
                    assert(exists|kk: int| 0 <= kk < lv.len() && (lv[kk].0 == y || lv[kk].1 == y)) by {
                        assert(lv[e as int].0 == y);
                    }
                    lemma_unreached_shrinks(lv, mid2, codes(group@), y);
                    assert(connected(lv, start@, code@)) by {
                        assert(mid2[k as int] == code@);
                    }
                    let p = choose|p: Seq<Seq<char>>| #[trigger] is_walk(lv, p) && p[0] == start@ && p.last() == code@;
                    assert(joins(lv, e as int, code@, y));
                    lemma_extend_walk(lv, p, y);
                    assert(is_walk(lv, p.push(y)));
                    assert forall|z: Seq<char>| codes(group@).contains(z) implies connected(lv, start@, z) by {
                        if z != y {
                            let j = choose|j: int| 0 <= j < codes(group@).len() && codes(group@)[j] == z;
                            assert(mid2[j] == z);
                        }
                    }
                    assert forall|j: int| 0 <= j < gs.len() implies group@[j] == gs[j] by {
                        assert(group@[j] == g0[j]);
                    }
                    assert forall|i: int, z: Seq<char>|
                        0 <= i < k && #[trigger] linked(lv, group@[i]@, z) implies codes(group@).contains(z) by {
                        assert(group@[i] == g0[i]);
                        assert(linked(lv, g0[i]@, z));
                    }
                    assert forall|m: int, z: Seq<char>|
                        0 <= m < e && #[trigger] joins(lv, m, code@, z) implies codes(group@).contains(z) by {
                    }
                }
            }
            proof {
                let g = codes(group@);
                assert forall|m: int, y: Seq<char>|
                    0 <= m < e + 1 && #[trigger] joins(lv, m, code@, y) implies g.contains(y) by {
                    if m == e as int {
                        if lv[m].0 == code@ && lv[m].1 == y {
                            assert(mid.contains(y) ==> mid2.contains(y));
                        }
                    }
                }
                assert forall|y: Seq<char>| before.contains(y) implies g.contains(y) by {}
            }
            e = e + 1;
        }
        proof {
            let g = codes(group@);
            assert forall|i: int, y: Seq<char>|
                0 <= i < k + 1 && #[trigger] linked(lv, group@[i]@, y) implies g.contains(y) by {
                if i == k as int {
                    let m = choose|m: int| 0 <= m < lv.len() && #[trigger] joins(lv, m, group@[i]@, y);
                    assert(joins(lv, m, code@, y));
                }
            }
        }
        k = k + 1;
    }
    proof {
        let g = codes(group@);
        assert(g[0] == start@);
        assert forall|x: Seq<char>, z: Seq<char>| g.contains(x) && #[trigger] linked(lv, x, z) implies g.contains(z) by {
            let i = choose|i: int| 0 <= i < g.len() && g[i] == x;
            assert(linked(lv, group@[i]@, z));
        }
        assert forall|y: Seq<char>| connected(lv, start@, y) implies g.contains(y) by {
            lemma_closed_holds_connected(lv, g, start@, y);
        }
    }
    group
}

/// The position of the least code of a non-empty list.
pub fn least(v: &Vec<String>) -> (r: usize)
    requires
        v@.len() >= 1,
    ensures
        r < v@.len(),
        forall|i: int| 0 <= i < v@.len() ==> !seq_lt(#[trigger] v@[i]@, v@[r as int]@),
{
    let mut best: usize = 0;
    let mut i: usize = 1;
    proof {
        lemma_lt_irreflexive(v@[0]@);
    }
    while i < v.len()
        invariant
            1 <= i <= v@.len(),
            best < i,
            forall|j: int| 0 <= j < i ==> !seq_lt(#[trigger] v@[j]@, v@[best as int]@),
        decreases v.len() - i,
    {
        if str_lt(v[i].as_str(), v[best].as_str()) {
            proof {
                assert forall|j: int| 0 <= j < i + 1 implies !seq_lt(#[trigger] v@[j]@, v@[i as int]@) by {
                    if j < i {
                        if seq_lt(v@[j]@, v@[i as int]@) {
                            lemma_lt_transitive(v@[j]@, v@[i as int]@, v@[best as int]@);
                        }
                    } else {
                        lemma_lt_irreflexive(v@[i as int]@);
                    }
                }
            }
            best = i;
        } else {
            proof {
                lemma_lt_total(v@[i as int]@, v@[best as int]@);
            }
        }
        i = i + 1;
    }
    best
}

/// The name of the card `start` is one of: the least code connected to it.
pub fn group_of(links: &Vec<(String, String)>, start: &String) -> (r: String)
    ensures
        is_group_label(links_view(links@), start@, r@),
        r@ == group_label(links_view(links@), start@),
{
    let group = component(links, start);
    let b = least(&group);
    let r = group[b].clone();
    proof {
        let lv = links_view(links@);
        assert(codes(group@)[b as int] == r@);
        assert(codes(group@).contains(r@));
        assert(connected(lv, start@, r@));
        assert forall|y: Seq<char>| #[trigger] connected(lv, start@, y) implies !seq_lt(y, r@) by {
            assert(codes(group@).contains(y));
            let j = choose|j: int| 0 <= j < codes(group@).len() && codes(group@)[j] == y;
            assert(!seq_lt(group@[j]@, group@[b as int]@));
        }
        lemma_group_label_unique(lv, start@, r@);
    }
    r
}

proof fn lemma_prepend_walk(links: Seq<(Seq<char>, Seq<char>)>, b: Seq<char>, p: Seq<Seq<char>>)
    requires
        is_walk(links, p),
        linked(links, b, p[0]),
    ensures
        is_walk(links, seq![b] + p),
        (seq![b] + p)[0] == b,
        (seq![b] + p).last() == p.last(),
{
    let q = seq![b] + p;
    assert forall|i: int| 0 <= i < q.len() - 1 implies #[trigger] linked(links, q[i], q[i + 1]) by {
        if i == 0 {
            assert(q[0] == b && q[1] == p[0]);
        } else {
            assert(q[i] == p[i - 1] && q[i + 1] == p[i]);
            assert(linked(links, p[i - 1], p[(i - 1) + 1]));
        }
    }
}

/// A code and its reprint are one card: whatever names the one names the
/// other.
pub proof fn lemma_reprints_share_their_name(
    links: Seq<(Seq<char>, Seq<char>)>,
    a: Seq<char>,
    b: Seq<char>,
    g: Seq<char>,
)
    requires
        linked(links, a, b),
        is_group_label(links, a, g),
    ensures
        is_group_label(links, b, g),
        group_label(links, b) == g,
{
    let k = choose|k: int| 0 <= k < links.len() && #[trigger] joins(links, k, a, b);
    assert(joins(links, k, b, a));
    assert(linked(links, b, a));
    // every code connected to a is connected to b, and back
    assert forall|y: Seq<char>| #[trigger] connected(links, b, y) <==> connected(links, a, y) by {
        if connected(links, a, y) {
            let p = choose|p: Seq<Seq<char>>| #[trigger] is_walk(links, p) && p[0] == a && p.last() == y;
            lemma_prepend_walk(links, b, p);
            assert(is_walk(links, seq![b] + p));
        }
        if connected(links, b, y) {
            let p = choose|p: Seq<Seq<char>>| #[trigger] is_walk(links, p) && p[0] == b && p.last() == y;
            lemma_prepend_walk(links, a, p);
            assert(is_walk(links, seq![a] + p));
        }
    }
    assert(connected(links, b, g));
    lemma_group_label_unique(links, b, g);
}

} // verus!
