//! Swapping chosen printings for the variants a user picked.
use vstd::prelude::*;
use crate::card_store::{normalize_spec, normalize_title};
use crate::keyed::{SlotMap, StrMap};
use crate::card_store::{best_index, no_match_message, CardStore};
use crate::error::ProxyNexusError;
use crate::models::{is_copy, opt_eq, opt_view, variant_key_spec, CardRequest, Printing};
use crate::order::texts;
use crate::packs::AvailablePack;
use crate::text::{
    byte_len, chars_of, decimal, i64_to_string, is_white_space, is_whitespace, owned, pad_right, pad_to, parse_i64,
    parse_i64_spec, push_str, sep_joined, signed_decimal, slice_of, str_eq, u64_to_string, utf8_len,
};

verus! {

/// How many of the first `n` printings of `base` are of card `id`.
pub open spec fn copies_before(base: Seq<Printing>, id: Seq<char>, n: int) -> nat
    decreases n,
{
    if n <= 0 {
        0
    } else {
        copies_before(base, id, n - 1) + if base[n - 1].card_id@ == id {
            1nat
        } else {
            0nat
        }
    }
}

/// The variant key picked for printing `i` of `base`: the one picked for
/// that copy of its card, else the one picked for every copy of its card.
pub open spec fn override_for(
    base: Seq<Printing>,
    i: int,
    global: Map<Seq<char>, String>,
    index: Map<(Seq<char>, usize), String>,
) -> Option<Seq<char>> {
    let id = base[i].card_id@;
    let slot = (id, copies_before(base, id, i) as usize);
    if index.contains_key(slot) {
        Some(index[slot]@)
    } else if global.contains_key(id) {
        Some(global[id]@)
    } else {
        None
    }
}

/// The first of `vs`, from `j` on, whose variant key is `key`.
pub open spec fn first_with_key(vs: Seq<Printing>, key: Seq<char>, j: int) -> Option<int>
    decreases vs.len() - j,
{
    if j < 0 || j >= vs.len() {
        None
    } else if variant_key_spec(vs[j]) == key {
        Some(j)
    } else {
        first_with_key(vs, key, j + 1)
    }
}

/// What printing `i` of `base` becomes: the first printing on offer for its
/// title whose variant key was picked for it, or itself when nothing was
/// picked or nothing on offer has the picked key.
pub open spec fn overridden(
    base: Seq<Printing>,
    i: int,
    available: Map<Seq<char>, Vec<Printing>>,
    global: Map<Seq<char>, String>,
    index: Map<(Seq<char>, usize), String>,
) -> Printing {
    let title = normalize_spec(base[i].card_title@);
    match override_for(base, i, global, index) {
        Some(key) => if available.contains_key(title) {
            match first_with_key(available[title]@, key, 0) {
                Some(j) => available[title]@[j],
                None => base[i],
            }
        } else {
            base[i]
        },
        None => base[i],
    }
}

proof fn lemma_copies_before_bounded(base: Seq<Printing>, id: Seq<char>, n: int)
    requires
        0 <= n,
    ensures
        copies_before(base, id, n) <= n,
    decreases n,
{
    if n > 0 {
        lemma_copies_before_bounded(base, id, n - 1);
    }
}

fn find_variant(variants: &Vec<Printing>, key: &String) -> (r: Option<usize>)
    ensures
        r matches Some(j) ==> j < variants@.len() && first_with_key(variants@, key@, 0) == Some(j as int),
        r is None ==> first_with_key(variants@, key@, 0) is None,
{
    let mut j: usize = 0;
    while j < variants.len()
        invariant
            j <= variants@.len(),
            first_with_key(variants@, key@, 0) == first_with_key(variants@, key@, j as int),
        decreases variants.len() - j,
    {
        let k = variants[j].variant_key();
        if str_eq(k.as_str(), key.as_str()) {
            return Some(j);
        }
        j = j + 1;
    }
    None
}

/// Each printing of `base` replaced by the variant picked for it, if that
/// variant is on offer for its title. Picks are keyed by card id: one for a
/// given copy (the card's first, second, ... occurrence in `base`) wins over
/// one for every copy.
pub fn apply_variant_overrides(
    base: &[Printing],
    available: &StrMap<Vec<Printing>>,
    global_overrides: &StrMap<String>,
    index_overrides: &SlotMap<String>,
) -> (r: Vec<Printing>)
    requires
        available.wf(),
        global_overrides.wf(),
        index_overrides.wf(),
    ensures
        r@.len() == base@.len(),
        forall|i: int|
            0 <= i < base@.len() ==> is_copy(
                #[trigger] r@[i],
                overridden(base@, i, available@, global_overrides@, index_overrides@),
            ),
{
    let mut occurrences: StrMap<usize> = StrMap::new();
    let mut result: Vec<Printing> = Vec::new();
    let mut i: usize = 0;
    while i < base.len()
        invariant
            i <= base@.len(),
            available.wf(),
            global_overrides.wf(),
            index_overrides.wf(),
            occurrences.wf(),
            result@.len() == i,
            forall|id: Seq<char>|
                #![trigger copies_before(base@, id, i as int)]
                occurrences@.contains_key(id) ==> occurrences@[id] == copies_before(base@, id, i as int),
            forall|id: Seq<char>|
                #![trigger copies_before(base@, id, i as int)]
                !occurrences@.contains_key(id) ==> copies_before(base@, id, i as int) == 0,
            forall|k: int|
                0 <= k < i ==> is_copy(
                    #[trigger] result@[k],
                    overridden(base@, k, available@, global_overrides@, index_overrides@),
                ),
        decreases base.len() - i,
    {
        let p = &base[i];
        let ghost id = p.card_id@;
        let seen: usize = match occurrences.get(p.card_id.as_str()) {
            Some(n) => *n,
            None => 0,
        };
        assert(seen == copies_before(base@, id, i as int));
        let title = normalize_title(p.card_title.as_str());
        let picked = match index_overrides.get(p.card_id.as_str(), seen) {
            Some(o) => Some(o),
            None => global_overrides.get(p.card_id.as_str()),
        };
        let mut resolved = p.duplicate();
        if let Some(key) = picked {
            if let Some(variants) = available.get(title.as_str()) {
                if let Some(j) = find_variant(variants, key) {
                    resolved = variants[j].duplicate();
                }
            }
        }
        result.push(resolved);
        proof {
            lemma_copies_before_bounded(base@, id, i as int);
        }
        occurrences.insert(p.card_id.clone(), seen + 1);
        proof {
            assert forall|q: Seq<char>|
                #![trigger copies_before(base@, q, i + 1)]
                occurrences@.contains_key(q) ==> occurrences@[q] == copies_before(
                    base@,
                    q,
                    i + 1,
                ) by {
                assert(copies_before(base@, q, i + 1) == copies_before(base@, q, i as int) + if base@[i as int].card_id@ == q { 1nat } else { 0nat });
            }
            assert forall|q: Seq<char>|
                #![trigger copies_before(base@, q, i + 1)]
                !occurrences@.contains_key(q) ==> copies_before(base@, q, i + 1) == 0 by {
                assert(copies_before(base@, q, i + 1) == copies_before(base@, q, i as int) + if base@[i as int].card_id@ == q { 1nat } else { 0nat });
            }
        }
        i = i + 1;
    }
    result
}

/// A request's group in a query's output: normalized title, printing and
/// collection.
pub open spec fn request_key(r: CardRequest) -> (Seq<char>, Option<Seq<char>>, Option<Seq<char>>) {
    (normalize_spec(r.title@), opt_view(r.printing), opt_view(r.collection))
}

/// Whether request `i` is the first of its group.
pub open spec fn opens_group(reqs: Seq<CardRequest>, i: int) -> bool {
    forall|j: int| 0 <= j < i ==> request_key(#[trigger] reqs[j]) != request_key(reqs[i])
}

/// How many of the first `n` requests are in group `key`.
pub open spec fn key_count(
    reqs: Seq<CardRequest>,
    key: (Seq<char>, Option<Seq<char>>, Option<Seq<char>>),
    n: int,
) -> nat
    decreases n,
{
    if n <= 0 {
        0
    } else {
        key_count(reqs, key, n - 1) + if request_key(reqs[n - 1]) == key {
            1nat
        } else {
            0nat
        }
    }
}

/// Whether request `i` opens a group whose title has printings on offer.
pub open spec fn listed(reqs: Seq<CardRequest>, avail: Map<Seq<char>, Vec<Printing>>, i: int) -> bool {
    opens_group(reqs, i) && avail.contains_key(request_key(reqs[i]).0)
}

/// The printings on offer for request `i`'s title.
pub open spec fn options_for(reqs: Seq<CardRequest>, avail: Map<Seq<char>, Vec<Printing>>, i: int) -> Seq<Printing> {
    avail[request_key(reqs[i]).0]@
}

/// The printing chosen for request `i`.
pub open spec fn chosen_for(reqs: Seq<CardRequest>, avail: Map<Seq<char>, Vec<Printing>>, i: int) -> Printing {
    let ps = options_for(reqs, avail, i);
    ps[best_index(reqs[i], ps, ps.len() as int)]
}

/// `{count}x {title} [{variant key}]` for request `i`'s group.
pub open spec fn base_line(reqs: Seq<CardRequest>, avail: Map<Seq<char>, Vec<Printing>>, i: int) -> Seq<char> {
    let p = chosen_for(reqs, avail, i);
    decimal(key_count(reqs, request_key(reqs[i]), reqs.len() as int)) + "x "@ + p.card_title@ + " ["@
        + variant_key_spec(p) + "]"@
}

/// Whether `p` is another printing than `q`: variant, collection, pack or
/// position differ.
pub open spec fn differs(p: Printing, q: Printing) -> bool {
    opt_view(p.variant) != opt_view(q.variant) || p.collection@ != q.collection@ || opt_view(p.pack_id) != opt_view(
        q.pack_id,
    ) || p.position != q.position
}

/// `[{variant key}]` of each of the first `n` printings other than `chosen`.
pub open spec fn alternatives(ps: Seq<Printing>, chosen: Printing, n: int) -> Seq<Seq<char>>
    decreases n,
{
    if n <= 0 {
        Seq::empty()
    } else if differs(ps[n - 1], chosen) {
        alternatives(ps, chosen, n - 1).push("["@ + variant_key_spec(ps[n - 1]) + "]"@)
    } else {
        alternatives(ps, chosen, n - 1)
    }
}

/// The listed requests among the first `n`.
pub open spec fn listed_indices(reqs: Seq<CardRequest>, avail: Map<Seq<char>, Vec<Printing>>, n: int) -> Seq<int>
    decreases n,
{
    if n <= 0 {
        Seq::empty()
    } else if listed(reqs, avail, n - 1) {
        listed_indices(reqs, avail, n - 1).push(n - 1)
    } else {
        listed_indices(reqs, avail, n - 1)
    }
}

/// The widest of the byte lengths of the base lines of the listed requests
/// `idx`.
pub open spec fn widest(reqs: Seq<CardRequest>, avail: Map<Seq<char>, Vec<Printing>>, idx: Seq<int>) -> nat
    decreases idx.len(),
{
    if idx.len() == 0 {
        0
    } else {
        let w = widest(reqs, avail, idx.drop_last());
        let l = utf8_len(base_line(reqs, avail, idx.last()));
        if l > w {
            l
        } else {
            w
        }
    }
}

/// Request `i`'s line: its base line, and where other printings are on
/// offer, the base line padded to `width` and `    # also: ` with them.
pub open spec fn query_line(reqs: Seq<CardRequest>, avail: Map<Seq<char>, Vec<Printing>>, i: int, width: nat) -> Seq<char> {
    let ps = options_for(reqs, avail, i);
    let alts = alternatives(ps, chosen_for(reqs, avail, i), ps.len() as int);
    if alts.len() == 0 {
        base_line(reqs, avail, i)
    } else {
        pad_right(base_line(reqs, avail, i), width) + "    # also: "@ + sep_joined(alts, ", "@)
    }
}

/// A query's answer: one line per group of requests whose title has
/// printings on offer, in the order the groups first appear.
pub open spec fn query_output_spec(reqs: Seq<CardRequest>, avail: Map<Seq<char>, Vec<Printing>>) -> Seq<char> {
    let idx = listed_indices(reqs, avail, reqs.len() as int);
    let width = widest(reqs, avail, idx);
    sep_joined(idx.map_values(|i: int| query_line(reqs, avail, i, width)), "\n"@)
}

/// The first of the first `n` listed requests with no printing on offer.
pub open spec fn first_unmatched(reqs: Seq<CardRequest>, avail: Map<Seq<char>, Vec<Printing>>, n: int) -> Option<int>
    decreases n,
{
    if n <= 0 {
        None
    } else {
        match first_unmatched(reqs, avail, n - 1) {
            Some(i) => Some(i),
            None => if listed(reqs, avail, n - 1) && options_for(reqs, avail, n - 1).len() == 0 {
                Some(n - 1)
            } else {
                None
            },
        }
    }
}

fn same_key(a: &CardRequest, na: &String, b: &CardRequest, nb: &String) -> (r: bool)
    requires
        na@ == normalize_spec(a.title@),
        nb@ == normalize_spec(b.title@),
    ensures
        r == (request_key(*a) == request_key(*b)),
{
    *na == *nb && opt_eq(&a.printing, &b.printing) && opt_eq(&a.collection, &b.collection)
}

fn other_printing(p: &Printing, q: &Printing) -> (r: bool)
    ensures
        r == differs(*p, *q),
{
    !opt_eq(&p.variant, &q.variant) || !str_eq(p.collection.as_str(), q.collection.as_str()) || !opt_eq(
        &p.pack_id,
        &q.pack_id,
    ) || p.position != q.position
}

/// The lines a query answers with: per group of requests (normalized title,
/// printing and collection), its count, the printing chosen for it, and the
/// other printings on offer. An error when a title's list of printings on
/// offer is empty.
pub fn format_query_output(requests: &[CardRequest], available: &StrMap<Vec<Printing>>) -> (r: Result<String, ProxyNexusError>)
    requires
        available.wf(),
        forall|i: int| 0 <= i < requests@.len() ==> utf8_len(base_line(requests@, available@, i)) <= usize::MAX,
    ensures
        match first_unmatched(requests@, available@, requests@.len() as int) {
            Some(i) => r matches Err(ProxyNexusError::Internal(m)) && m@ == no_match_message(requests@[i].title@),
            None => r matches Ok(s) && s@ == query_output_spec(requests@, available@),
        },
{
    let ghost reqs = requests@;
    let ghost avail = available@;
    let mut norms: Vec<String> = Vec::new();
    let mut k: usize = 0;
    while k < requests.len()
        invariant
            k <= reqs.len(),
            reqs == requests@,
            norms@.len() == k,
            forall|j: int| 0 <= j < k ==> #[trigger] norms@[j]@ == normalize_spec(reqs[j].title@),
        decreases requests.len() - k,
    {
        norms.push(normalize_title(requests[k].title.as_str()));
        k = k + 1;
    }
    let mut bases: Vec<String> = Vec::new();
    let mut alts: Vec<Vec<String>> = Vec::new();
    let ghost mut idx: Seq<int> = Seq::empty();
    let mut width: usize = 0;
    let mut i: usize = 0;
    while i < requests.len()
        invariant
            reqs == requests@,
            avail == available@,
            available.wf(),
            i <= reqs.len(),
            norms@.len() == reqs.len(),
            forall|j: int| 0 <= j < reqs.len() ==> #[trigger] norms@[j]@ == normalize_spec(reqs[j].title@),
            forall|i: int| 0 <= i < reqs.len() ==> utf8_len(base_line(reqs, avail, i)) <= usize::MAX,
            first_unmatched(reqs, avail, i as int) is None,
            idx == listed_indices(reqs, avail, i as int),
            bases@.len() == idx.len(),
            alts@.len() == idx.len(),
            forall|m: int| 0 <= m < idx.len() ==> 0 <= #[trigger] idx[m] < i,
            forall|m: int| 0 <= m < idx.len() ==> #[trigger] bases@[m]@ == base_line(reqs, avail, idx[m]),
            forall|m: int| 0 <= m < idx.len() ==> texts(#[trigger] alts@[m]@) == alternatives(
                options_for(reqs, avail, idx[m]),
                chosen_for(reqs, avail, idx[m]),
                options_for(reqs, avail, idx[m]).len() as int,
            ),
            width == widest(reqs, avail, idx),
        decreases requests.len() - i,
    {
        let mut first = true;
        let mut j: usize = 0;
        while j < i
            invariant
                j <= i < reqs.len(),
                reqs == requests@,
                norms@.len() == reqs.len(),
                forall|j: int| 0 <= j < reqs.len() ==> #[trigger] norms@[j]@ == normalize_spec(reqs[j].title@),
                first == forall|q: int| 0 <= q < j ==> request_key(#[trigger] reqs[q]) != request_key(reqs[i as int]),
            decreases i - j,
        {
            assert(norms@[j as int]@ == normalize_spec(reqs[j as int].title@));
            assert(norms@[i as int]@ == normalize_spec(reqs[i as int].title@));
            if same_key(&requests[j], &norms[j], &requests[i], &norms[i]) {
                first = false;
            }
            j = j + 1;
        }
        assert(first == opens_group(reqs, i as int));
        let ghost i0 = i as int;
        if first {
            match available.get(norms[i].as_str()) {
                Some(printings) => {
                    assert(norms@[i0]@ == request_key(reqs[i0]).0);
                    assert(listed(reqs, avail, i0));
                    assert(printings@ == options_for(reqs, avail, i0));
                    let chosen = match CardStore::select_printing(&requests[i], printings.as_slice()) {
                        Ok(p) => p,
                        Err(e) => {
                            assert(first_unmatched(reqs, avail, i0 + 1) == Some(i0));
                            proof {
                                lemma_first_unmatched_stays(reqs, avail, i0 + 1, reqs.len() as int);
                            }
                            return Err(e);
                        },
                    };
                    // how many requests share the group
                    let mut count: usize = 0;
                    let mut q: usize = 0;
                    while q < requests.len()
                        invariant
                            q <= reqs.len(),
                            i < reqs.len(),
                            reqs == requests@,
                            norms@.len() == reqs.len(),
                            forall|j: int| 0 <= j < reqs.len() ==> #[trigger] norms@[j]@ == normalize_spec(reqs[j].title@),
                            count == key_count(reqs, request_key(reqs[i as int]), q as int),
                            count <= q,
                        decreases requests.len() - q,
                    {
                        assert(norms@[q as int]@ == normalize_spec(reqs[q as int].title@));
                        assert(norms@[i as int]@ == normalize_spec(reqs[i as int].title@));
                        if same_key(&requests[q], &norms[q], &requests[i], &norms[i]) {
                            count = count + 1;
                        }
                        q = q + 1;
                    }
                    let mut base = u64_to_string(count as u64);
                    push_str(&mut base, "x ");
                    push_str(&mut base, chosen.card_title.as_str());
                    push_str(&mut base, " [");
                    let vk = chosen.variant_key();
                    push_str(&mut base, vk.as_str());
                    push_str(&mut base, "]");
                    assert(base@ == base_line(reqs, avail, i0));
                    let mut others: Vec<String> = Vec::new();
                    let mut a: usize = 0;
                    while a < printings.len()
                        invariant
                            a <= printings@.len(),
                            printings@ == options_for(reqs, avail, i0),
                            is_copy(chosen, chosen_for(reqs, avail, i0)),
                            texts(others@) == alternatives(printings@, chosen_for(reqs, avail, i0), a as int),
                        decreases printings.len() - a,
                    {
                        let ghost before = others@;
                        if other_printing(&printings[a], &chosen) {
                            let mut t = owned("[");
                            let k2 = printings[a].variant_key();
                            push_str(&mut t, k2.as_str());
                            push_str(&mut t, "]");
                            others.push(t);
                            assert(texts(others@) =~= texts(before).push(t@));
                        }
                        a = a + 1;
                    }
                    let l = byte_len(base.as_str());
                    if l > width {
                        width = l;
                    }
                    proof {
                        idx = idx.push(i0);
                        assert(idx.drop_last() =~= listed_indices(reqs, avail, i0));
                    }
                    bases.push(base);
                    alts.push(others);
                },
                None => {
                    assert(norms@[i0]@ == request_key(reqs[i0]).0);
                },
            }
        }
        i = i + 1;
    }
    // the lines
    let mut out = String::new();
    let ghost lines = idx.map_values(|m: int| query_line(reqs, avail, m, width as nat));
    let mut m: usize = 0;
    while m < bases.len()
        invariant
            m <= idx.len(),
            bases@.len() == idx.len(),
            alts@.len() == idx.len(),
            lines == idx.map_values(|m: int| query_line(reqs, avail, m, width as nat)),
            forall|m: int| 0 <= m < idx.len() ==> #[trigger] bases@[m]@ == base_line(reqs, avail, idx[m]),
            forall|m: int| 0 <= m < idx.len() ==> texts(#[trigger] alts@[m]@) == alternatives(
                options_for(reqs, avail, idx[m]),
                chosen_for(reqs, avail, idx[m]),
                options_for(reqs, avail, idx[m]).len() as int,
            ),
            out@ == sep_joined(lines.take(m as int), "\n"@),
        decreases bases.len() - m,
    {
        if m > 0 {
            push_str(&mut out, "\n");
        }
        let ghost before = out@;
        if alts[m].len() == 0 {
            push_str(&mut out, bases[m].as_str());
        } else {
            let padded = pad_to(bases[m].as_str(), width);
            push_str(&mut out, padded.as_str());
            push_str(&mut out, "    # also: ");
            let mut a: usize = 0;
            let ghost mark = out@;
            while a < alts[m].len()
                invariant
                    m < alts@.len(),
                    a <= alts@[m as int]@.len(),
                    out@ == mark + sep_joined(texts(alts@[m as int]@).take(a as int), ", "@),
                decreases alts@[m as int]@.len() - a,
            {
                if a > 0 {
                    push_str(&mut out, ", ");
                }
                push_str(&mut out, alts[m][a].as_str());
                proof {
                    let t = texts(alts@[m as int]@).take(a + 1);
                    assert(t.drop_last() =~= texts(alts@[m as int]@).take(a as int));
                    assert(t.last() == alts@[m as int]@[a as int]@);
                    if a == 0 {
                        assert(out@ =~= mark + sep_joined(t, ", "@));
                    } else {
                        assert(out@ =~= mark + sep_joined(t, ", "@));
                    }
                }
                a = a + 1;
            }
            assert(texts(alts@[m as int]@).take(a as int) =~= texts(alts@[m as int]@));
        }
        proof {
            assert(texts(alts@[m as int]@).len() == alts@[m as int]@.len());
            let t = lines.take(m + 1);
            assert(t.drop_last() =~= lines.take(m as int));
            assert(t.last() == query_line(reqs, avail, idx[m as int], width as nat));
            if m == 0 {
                assert(out@ =~= sep_joined(t, "\n"@));
            } else {
                assert(out@ =~= sep_joined(t, "\n"@));
            }
        }
        m = m + 1;
    }
    proof {
        assert(lines.take(m as int) =~= lines);
        assert(first_unmatched(reqs, avail, reqs.len() as int) is None);
    }
    Ok(out)
}

proof fn lemma_first_unmatched_stays(reqs: Seq<CardRequest>, avail: Map<Seq<char>, Vec<Printing>>, n: int, m: int)
    requires
        0 <= n <= m,
        first_unmatched(reqs, avail, n) is Some,
    ensures
        first_unmatched(reqs, avail, m) == first_unmatched(reqs, avail, n),
    decreases m - n,
{
    if m > n {
        lemma_first_unmatched_stays(reqs, avail, n, m - 1);
    }
}

/// The first word of `s`: its first run of characters that are not white
/// space.
pub open spec fn first_word(s: Seq<char>) -> Seq<char>
    decreases s.len(),
{
    if s.len() == 0 {
        Seq::empty()
    } else if is_white_space(s[0]) {
        first_word(s.drop_first())
    } else {
        word_prefix(s)
    }
}

/// The characters of `s` before its first white space.
pub open spec fn word_prefix(s: Seq<char>) -> Seq<char>
    decreases s.len(),
{
    if s.len() == 0 || is_white_space(s[0]) {
        Seq::empty()
    } else {
        seq![s[0]] + word_prefix(s.drop_first())
    }
}

/// The images a collection line (`"12 in nr-nsg"`) counts: its first word
/// as a number, else none.
pub open spec fn line_count(line: Seq<char>) -> int {
    match parse_i64_spec(first_word(line)) {
        Some(n) => n as int,
        None => 0,
    }
}

/// The images the first `n` collection lines count together.
pub open spec fn own_count(lines: Seq<String>, n: int) -> int
    decreases n,
{
    if n <= 0 {
        0
    } else {
        own_count(lines, n - 1) + line_count(lines[n - 1]@)
    }
}

fn first_word_of(s: &str) -> (r: Vec<char>)
    ensures
        r@ == first_word(s@),
{
    let v = chars_of(s);
    let mut a: usize = 0;
    assert(v@.skip(0) =~= v@);
    while a < v.len() && is_whitespace(v[a])
        invariant
            v@ == s@,
            a <= v@.len(),
            first_word(s@) == first_word(v@.skip(a as int)),
        decreases v.len() - a,
    {
        assert(v@.skip(a as int).drop_first() =~= v@.skip(a + 1));
        a = a + 1;
    }
    let mut b: usize = a;
    while b < v.len() && !is_whitespace(v[b])
        invariant
            v@ == s@,
            a <= b <= v@.len(),
            word_prefix(v@.skip(a as int)) == v@.subrange(a as int, b as int) + word_prefix(v@.skip(b as int)),
        decreases v.len() - b,
    {
        assert(v@.skip(b as int).drop_first() =~= v@.skip(b + 1));
        assert(v@.subrange(a as int, b + 1) =~= v@.subrange(a as int, b as int) + seq![v@[b as int]]);
        b = b + 1;
    }
    proof {
        if a < v@.len() {
            assert(v@.skip(a as int)[0] == v@[a as int]);
        }
        if b < v@.len() {
            assert(v@.skip(b as int)[0] == v@[b as int]);
        }
        assert(word_prefix(v@.skip(b as int)) =~= Seq::<char>::empty());
    }
    slice_of(&v, a, b)
}

/// A pack's line in the list of sets: name and `[id]`, padded to the
/// widest, then how many of its cards can be printed and from where.
pub open spec fn set_meta(p: AvailablePack) -> Seq<char> {
    if p.printable == 0 {
        "# no printings available"@
    } else {
        let own = own_count(p.collections@, p.collections@.len() as int);
        let parts = if p.printable > own {
            texts(p.collections@).push(signed_decimal(p.printable - own) + " from other sets"@)
        } else {
            texts(p.collections@)
        };
        "# "@ + signed_decimal(p.printable as int) + " of "@ + signed_decimal(p.total as int) + " \u{2014} "@
            + sep_joined(parts, ", "@)
    }
}

/// The widest name among the first `n` packs, in bytes.
pub open spec fn widest_name(sets: Seq<AvailablePack>, n: int) -> nat
    decreases n,
{
    if n <= 0 {
        0
    } else {
        let w = widest_name(sets, n - 1);
        let l = utf8_len(sets[n - 1].name@);
        if l > w {
            l
        } else {
            w
        }
    }
}

/// The widest `[id]` among the first `n` packs, in bytes.
pub open spec fn widest_id(sets: Seq<AvailablePack>, n: int) -> nat
    decreases n,
{
    if n <= 0 {
        0
    } else {
        let w = widest_id(sets, n - 1);
        let l = utf8_len(sets[n - 1].id@) + 2;
        if l > w {
            l
        } else {
            w
        }
    }
}

/// A pack's line in the list of sets.
pub open spec fn set_line(p: AvailablePack, name_width: nat, id_width: nat) -> Seq<char> {
    "  - "@ + pad_right(p.name@, name_width) + " "@ + pad_right("["@ + p.id@ + "]"@, id_width) + "    "@
        + set_meta(p)
}

/// The list of sets: a line per pack.
pub open spec fn sets_listing_spec(sets: Seq<AvailablePack>) -> Seq<char> {
    let nw = widest_name(sets, sets.len() as int);
    let iw = widest_id(sets, sets.len() as int);
    sep_joined(sets.map_values(|p: AvailablePack| set_line(p, nw, iw)), "\n"@)
}

fn meta_line(p: &AvailablePack) -> (r: String)
    requires
        forall|k: int| 0 <= k <= p.collections@.len() ==> i64::MIN <= #[trigger] own_count(p.collections@, k) <= i64::MAX,
        i64::MIN <= p.printable - own_count(p.collections@, p.collections@.len() as int) <= i64::MAX,
    ensures
        r@ == set_meta(*p),
{
    if p.printable == 0 {
        return owned("# no printings available");
    }
    let mut own: i64 = 0;
    let mut k: usize = 0;
    while k < p.collections.len()
        invariant
            k <= p.collections@.len(),
            own == own_count(p.collections@, k as int),
            forall|k: int| 0 <= k <= p.collections@.len() ==> i64::MIN <= #[trigger] own_count(p.collections@, k) <= i64::MAX,
        decreases p.collections.len() - k,
    {
        let w = first_word_of(p.collections[k].as_str());
        let n: i64 = match parse_i64(&w) {
            Some(n) => n,
            None => 0,
        };
        assert(own_count(p.collections@, k + 1) == own + n);
        own = own + n;
        k = k + 1;
    }
    let mut parts: Vec<String> = Vec::new();
    let mut k: usize = 0;
    while k < p.collections.len()
        invariant
            k <= p.collections@.len(),
            texts(parts@) == texts(p.collections@).take(k as int),
        decreases p.collections.len() - k,
    {
        let ghost b = parts@;
        let c = p.collections[k].clone();
        parts.push(c);
        assert(texts(parts@) =~= texts(b).push(c@));
        assert(texts(p.collections@).take(k + 1) =~= texts(p.collections@).take(k as int).push(p.collections@[k as int]@));
        k = k + 1;
    }
    assert(texts(p.collections@).take(k as int) =~= texts(p.collections@));
    if p.printable > own {
        let mut extra = i64_to_string(p.printable - own);
        push_str(&mut extra, " from other sets");
        let ghost b = parts@;
        parts.push(extra);
        assert(texts(parts@) =~= texts(b).push(extra@));
    }
    let mut out = owned("# ");
    let a = i64_to_string(p.printable);
    push_str(&mut out, a.as_str());
    push_str(&mut out, " of ");
    let t = i64_to_string(p.total);
    push_str(&mut out, t.as_str());
    push_str(&mut out, " \u{2014} ");
    let ghost mark = out@;
    let mut m: usize = 0;
    while m < parts.len()
        invariant
            m <= parts@.len(),
            out@ == mark + sep_joined(texts(parts@).take(m as int), ", "@),
        decreases parts.len() - m,
    {
        if m > 0 {
            push_str(&mut out, ", ");
        }
        push_str(&mut out, parts[m].as_str());
        proof {
            let tt = texts(parts@).take(m + 1);
            assert(tt.drop_last() =~= texts(parts@).take(m as int));
            assert(tt.last() == parts@[m as int]@);
            if m == 0 {
                assert(out@ =~= mark + sep_joined(tt, ", "@));
            } else {
                assert(out@ =~= mark + sep_joined(tt, ", "@));
            }
        }
        m = m + 1;
    }
    assert(texts(parts@).take(m as int) =~= texts(parts@));
    out
}

/// The list of sets a game offers: a line per pack with its name and
/// `[id]` padded to the widest, how many of its cards can be printed of how
/// many, and from which collections (the rest from other sets' images).
pub fn format_available_sets(sets: &[AvailablePack]) -> (r: String)
    requires
        forall|i: int, k: int|
            0 <= i < sets@.len() && 0 <= k <= sets@[i].collections@.len() ==> i64::MIN <= #[trigger] own_count(
                sets@[i].collections@,
                k,
            ) <= i64::MAX,
        forall|i: int|
            0 <= i < sets@.len() ==> i64::MIN <= #[trigger] sets@[i].printable - own_count(
                sets@[i].collections@,
                sets@[i].collections@.len() as int,
            ) <= i64::MAX,
        forall|i: int| 0 <= i < sets@.len() ==> utf8_len(#[trigger] sets@[i].name@) + utf8_len(sets@[i].id@) + 2 <= usize::MAX,
    ensures
        r@ == sets_listing_spec(sets@),
{
    let mut nw: usize = 0;
    let mut iw: usize = 0;
    let mut k: usize = 0;
    while k < sets.len()
        invariant
            k <= sets@.len(),
            forall|i: int| 0 <= i < sets@.len() ==> utf8_len(#[trigger] sets@[i].name@) + utf8_len(sets@[i].id@) + 2 <= usize::MAX,
            nw == widest_name(sets@, k as int),
            iw == widest_id(sets@, k as int),
        decreases sets.len() - k,
    {
        assert(utf8_len(sets@[k as int].name@) + utf8_len(sets@[k as int].id@) + 2 <= usize::MAX);
        let l = byte_len(sets[k].name.as_str());
        if l > nw {
            nw = l;
        }
        let li = byte_len(sets[k].id.as_str()) + 2;
        if li > iw {
            iw = li;
        }
        k = k + 1;
    }
    let ghost lines = sets@.map_values(|p: AvailablePack| set_line(p, nw as nat, iw as nat));
    let mut out = String::new();
    let mut m: usize = 0;
    while m < sets.len()
        invariant
            m <= sets@.len(),
            lines == sets@.map_values(|p: AvailablePack| set_line(p, nw as nat, iw as nat)),
            forall|i: int, k: int|
                0 <= i < sets@.len() && 0 <= k <= sets@[i].collections@.len() ==> i64::MIN <= #[trigger] own_count(
                    sets@[i].collections@,
                    k,
                ) <= i64::MAX,
            forall|i: int|
                0 <= i < sets@.len() ==> i64::MIN <= #[trigger] sets@[i].printable - own_count(
                    sets@[i].collections@,
                    sets@[i].collections@.len() as int,
                ) <= i64::MAX,
            out@ == sep_joined(lines.take(m as int), "\n"@),
        decreases sets.len() - m,
    {
        if m > 0 {
            push_str(&mut out, "\n");
        }
        let p = &sets[m];
        let ghost before = out@;
        push_str(&mut out, "  - ");
        let name = pad_to(p.name.as_str(), nw);
        push_str(&mut out, name.as_str());
        push_str(&mut out, " ");
        let mut bracketed = owned("[");
        push_str(&mut bracketed, p.id.as_str());
        push_str(&mut bracketed, "]");
        let idp = pad_to(bracketed.as_str(), iw);
        push_str(&mut out, idp.as_str());
        push_str(&mut out, "    ");
        assert(sets@[m as int] == *p);
        let meta = meta_line(p);
        push_str(&mut out, meta.as_str());
        proof {
            let t = lines.take(m + 1);
            assert(t.drop_last() =~= lines.take(m as int));
            assert(t.last() == set_line(*p, nw as nat, iw as nat));
            if m == 0 {
                assert(out@ =~= sep_joined(t, "\n"@));
            } else {
                assert(out@ =~= sep_joined(t, "\n"@));
            }
        }
        m = m + 1;
    }
    assert(lines.take(m as int) =~= lines);
    out
}

/// An override for one card never reaches another: a printing whose card
/// has no override, for any copy or for all, stays as it was, whatever other
/// cards, sharing its title or not, were overridden.
pub proof fn lemma_overrides_stay_with_their_card(
    base: Seq<Printing>,
    i: int,
    available: Map<Seq<char>, Vec<Printing>>,
    global: Map<Seq<char>, String>,
    index: Map<(Seq<char>, usize), String>,
)
    requires
        0 <= i < base.len(),
        !global.contains_key(base[i].card_id@),
        forall|n: usize| !index.contains_key((base[i].card_id@, n)),
    ensures
        overridden(base, i, available, global, index) == base[i],
{
    let id = base[i].card_id@;
    assert(!index.contains_key((id, copies_before(base, id, i) as usize)));
}

} // verus!
