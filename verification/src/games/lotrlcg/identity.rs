//! Which Hall of Beorn printings are one card, and the title each card goes
//! by. Two printings are one card when their normalized title, type, sphere
//! and the statistics, rules text and subtitle of both faces agree; the card
//! is named by the slug of its earliest printing.
use vstd::prelude::*;
use crate::card_store::{deunicode_spec, normalize_spec, normalize_title, transliterate};
use crate::games::lotrlcg::{HobCard, HobCardFace, HobCardStats};
use crate::keyed::StrMap;
use crate::order::{lemma_lt_total, lemma_lt_transitive, seq_lt, str_lt, texts};
use crate::text::{
    chars_of, is_alphanumeric, owned, push_char, push_str, slice_of, string_of, to_lowercase,
    unicode_alphanumeric, unicode_lowercase,
};

verus! {

/// Paragraphs joined by single spaces.
pub open spec fn joined(ps: Seq<Seq<char>>) -> Seq<char>
    decreases ps.len(),
{
    if ps.len() == 0 {
        Seq::empty()
    } else if ps.len() == 1 {
        ps[0]
    } else {
        joined(ps.drop_last()) + " "@ + ps.last()
    }
}

fn join_paragraphs(ps: &[String]) -> (r: String)
    ensures
        r@ == joined(texts(ps@)),
{
    let mut out = String::new();
    let mut i: usize = 0;
    while i < ps.len()
        invariant
            i <= ps@.len(),
            out@ == joined(texts(ps@).take(i as int)),
        decreases ps.len() - i,
    {
        if i > 0 {
            push_str(&mut out, " ");
        }
        push_str(&mut out, ps[i].as_str());
        proof {
            let t = texts(ps@).take(i + 1);
            assert(t.drop_last() =~= texts(ps@).take(i as int));
            assert(t.last() == ps@[i as int]@);
            if i == 0 {
                assert(out@ =~= ps@[0]@);
            }
        }
        i = i + 1;
    }
    assert(texts(ps@).take(i as int) =~= texts(ps@));
    out
}

/// The alphanumeric runs of `s`, joined by `_`, and whether a separator is
/// pending after them.
pub open spec fn words_of(s: Seq<char>) -> (Seq<char>, bool)
    decreases s.len(),
{
    if s.len() == 0 {
        (Seq::empty(), false)
    } else {
        let prev = words_of(s.drop_last());
        let c = s.last();
        if unicode_alphanumeric(c) {
            (
                (if prev.1 && prev.0.len() > 0 {
                    prev.0.push('_')
                } else {
                    prev.0
                }).push(c),
                false,
            )
        } else {
            (prev.0, true)
        }
    }
}

/// Rules text in the form in which two printings' texts are compared:
/// transliterated, lower-cased, and cut to its alphanumeric runs joined by
/// `_`, so that punctuation, spacing and accents do not matter.
pub open spec fn rules_text_spec(ps: Seq<Seq<char>>) -> Seq<char> {
    words_of(unicode_lowercase(deunicode_spec(joined(ps)))).0
}

/// Rules text in the form in which two printings' texts are compared.
pub fn normalized_rules_text(paragraphs: &[String]) -> (r: String)
    ensures
        r@ == rules_text_spec(texts(paragraphs@)),
{
    let all = join_paragraphs(paragraphs);
    let ascii = transliterate(all.as_str());
    let lower = to_lowercase(ascii.as_str());
    let v = chars_of(lower.as_str());
    let ghost whole = unicode_lowercase(deunicode_spec(joined(texts(paragraphs@))));
    let mut out = String::new();
    let mut pending = false;
    let mut any = false;
    let mut i: usize = 0;
    assert(v@.take(0) =~= Seq::<char>::empty());
    while i < v.len()
        invariant
            v@ == whole,
            i <= v@.len(),
            (out@, pending) == words_of(v@.take(i as int)),
            any == (out@.len() > 0),
        decreases v.len() - i,
    {
        let c = v[i];
        proof {
            assert(v@.take(i + 1).drop_last() =~= v@.take(i as int));
            assert(v@.take(i + 1).last() == c);
        }
        if is_alphanumeric(c) {
            if pending && any {
                push_char(&mut out, '_');
            }
            push_char(&mut out, c);
            pending = false;
            any = true;
        } else {
            pending = true;
        }
        i = i + 1;
    }
    assert(v@.take(i as int) =~= v@);
    out
}

/// The text of an optional string; empty when absent.
pub open spec fn opt_text(o: Option<String>) -> Seq<char> {
    match o {
        Some(s) => s@,
        None => Seq::empty(),
    }
}

fn push_opt(out: &mut String, o: &Option<String>)
    ensures
        final(out)@ == old(out)@ + opt_text(*o),
{
    match o {
        Some(s) => push_str(out, s.as_str()),
        None => {
            assert(old(out)@ + Seq::<char>::empty() =~= old(out)@);
        },
    }
}

/// A face's statistics, comma-separated, an absent one empty.
pub open spec fn stats_spec(s: HobCardStats) -> Seq<char> {
    opt_text(s.threat) + ","@ + opt_text(s.threat_cost) + ","@ + opt_text(s.resource_cost) + ","@
        + opt_text(s.willpower) + ","@ + opt_text(s.attack) + ","@ + opt_text(s.defense) + ","@
        + opt_text(s.hit_points) + ","@ + opt_text(s.quest_points) + ","@ + opt_text(s.engagement_cost)
        + ","@ + opt_text(s.stage_number)
}

fn stats_key(s: &HobCardStats) -> (r: String)
    ensures
        r@ == stats_spec(*s),
{
    let mut out = String::new();
    push_opt(&mut out, &s.threat);
    push_str(&mut out, ",");
    push_opt(&mut out, &s.threat_cost);
    push_str(&mut out, ",");
    push_opt(&mut out, &s.resource_cost);
    push_str(&mut out, ",");
    push_opt(&mut out, &s.willpower);
    push_str(&mut out, ",");
    push_opt(&mut out, &s.attack);
    push_str(&mut out, ",");
    push_opt(&mut out, &s.defense);
    push_str(&mut out, ",");
    push_opt(&mut out, &s.hit_points);
    push_str(&mut out, ",");
    push_opt(&mut out, &s.quest_points);
    push_str(&mut out, ",");
    push_opt(&mut out, &s.engagement_cost);
    push_str(&mut out, ",");
    push_opt(&mut out, &s.stage_number);
    assert(out@ =~= stats_spec(*s));
    out
}

/// What of a face tells two printings apart: statistics, rules text and
/// subtitle, `|`-separated; nothing for an absent face.
pub open spec fn face_spec(face: Option<HobCardFace>) -> Seq<char> {
    match face {
        None => Seq::empty(),
        Some(f) => (match f.stats {
            Some(s) => stats_spec(s),
            None => Seq::empty(),
        }) + "|"@ + (match f.text {
            Some(t) => rules_text_spec(texts(t@)),
            None => Seq::empty(),
        }) + "|"@ + opt_text(f.subtitle),
    }
}

fn face_key(face: &Option<HobCardFace>) -> (r: String)
    ensures
        r@ == face_spec(*face),
{
    match face {
        None => String::new(),
        Some(f) => {
            let mut out = match &f.stats {
                Some(s) => stats_key(s),
                None => String::new(),
            };
            push_str(&mut out, "|");
            match &f.text {
                Some(t) => {
                    let text = normalized_rules_text(t.as_slice());
                    push_str(&mut out, text.as_str());
                },
                None => {},
            }
            push_str(&mut out, "|");
            push_opt(&mut out, &f.subtitle);
            assert(out@ =~= face_spec(*face));
            out
        },
    }
}

/// What makes a printing the card it is: normalized title, type, sphere,
/// and both faces, `|`-separated.
pub open spec fn identity_spec(c: HobCard) -> Seq<char> {
    normalize_spec(c.title@) + "|"@ + c.card_type@ + "|"@ + opt_text(c.sphere) + "|"@ + face_spec(c.front)
        + "|"@ + face_spec(c.back)
}

fn card_identity(c: &HobCard) -> (r: String)
    ensures
        r@ == identity_spec(*c),
{
    let mut out = normalize_title(c.title.as_str());
    push_str(&mut out, "|");
    push_str(&mut out, c.card_type.as_str());
    push_str(&mut out, "|");
    push_opt(&mut out, &c.sphere);
    push_str(&mut out, "|");
    let front = face_key(&c.front);
    push_str(&mut out, front.as_str());
    push_str(&mut out, "|");
    let back = face_key(&c.back);
    push_str(&mut out, back.as_str());
    assert(out@ =~= identity_spec(*c));
    out
}

/// The date a pack without one is taken to be from: after every real date.
pub open spec fn undated() -> Seq<char> {
    "9999-99-99"@
}

/// What printings of one card are ordered by: release date of the pack,
/// then pack, then slug, all normalized.
pub open spec fn candidate(c: HobCard, dates: Map<Seq<char>, Seq<char>>) -> (Seq<char>, Seq<char>, Seq<char>) {
    let pack = normalize_spec(c.card_set@);
    (
        if dates.contains_key(pack) {
            dates[pack]
        } else {
            undated()
        },
        pack,
        normalize_spec(c.slug@),
    )
}

/// Whether candidate `a` sorts before `b`, field by field.
pub open spec fn cand_lt(a: (Seq<char>, Seq<char>, Seq<char>), b: (Seq<char>, Seq<char>, Seq<char>)) -> bool {
    seq_lt(a.0, b.0) || (a.0 == b.0 && (seq_lt(a.1, b.1) || (a.1 == b.1 && seq_lt(a.2, b.2))))
}

proof fn lemma_cand_total(a: (Seq<char>, Seq<char>, Seq<char>), b: (Seq<char>, Seq<char>, Seq<char>))
    ensures
        a != b ==> cand_lt(a, b) || cand_lt(b, a),
        !(cand_lt(a, b) && cand_lt(b, a)),
{
    lemma_lt_total(a.0, b.0);
    lemma_lt_total(a.1, b.1);
    lemma_lt_total(a.2, b.2);
}

/// Whether printing `k` is the earliest of the printings that are the same
/// card as printing `i`.
pub open spec fn is_earliest(cards: Seq<HobCard>, dates: Map<Seq<char>, Seq<char>>, i: int, k: int) -> bool {
    &&& 0 <= k < cards.len()
    &&& identity_spec(cards[k]) == identity_spec(cards[i])
    &&& forall|j: int|
        0 <= j < cards.len() && identity_spec(#[trigger] cards[j]) == identity_spec(cards[i]) ==> !cand_lt(
            candidate(cards[j], dates),
            candidate(cards[k], dates),
        )
}

/// The id of printing `i`'s card: the normalized slug of that card's
/// earliest printing.
pub open spec fn card_id_spec(cards: Seq<HobCard>, dates: Map<Seq<char>, Seq<char>>, i: int) -> Seq<char> {
    candidate(cards[choose|k: int| is_earliest(cards, dates, i, k)], dates).2
}

/// Two earliest printings of one card sort alike, so the card's id is theirs.
proof fn lemma_earliest_id(cards: Seq<HobCard>, dates: Map<Seq<char>, Seq<char>>, i: int, k: int)
    requires
        is_earliest(cards, dates, i, k),
    ensures
        card_id_spec(cards, dates, i) == candidate(cards[k], dates).2,
{
    let m = choose|m: int| is_earliest(cards, dates, i, m);
    assert(is_earliest(cards, dates, i, m));
    lemma_cand_total(candidate(cards[k], dates), candidate(cards[m], dates));
    assert(identity_spec(cards[m]) == identity_spec(cards[i]));
    assert(identity_spec(cards[k]) == identity_spec(cards[i]));
}

/// The texts of a map's string values.
pub open spec fn str_values(m: Map<Seq<char>, String>) -> Map<Seq<char>, Seq<char>> {
    m.map_values(|v: String| v@)
}

/// Each of the first `n` printings' normalized slug mapped to its card's
/// id; a slug listed twice keeps the later printing's.
pub open spec fn id_map(cards: Seq<HobCard>, dates: Map<Seq<char>, Seq<char>>, n: int) -> Map<Seq<char>, Seq<char>>
    decreases n,
{
    if n <= 0 {
        Map::empty()
    } else {
        id_map(cards, dates, n - 1).insert(normalize_spec(cards[n - 1].slug@), card_id_spec(cards, dates, n - 1))
    }
}

fn cand_less(a: &(String, String, String), b: &(String, String, String)) -> (r: bool)
    ensures
        r == cand_lt((a.0@, a.1@, a.2@), (b.0@, b.1@, b.2@)),
{
    str_lt(a.0.as_str(), b.0.as_str()) || (a.0 == b.0 && (str_lt(a.1.as_str(), b.1.as_str()) || (a.1 == b.1
        && str_lt(a.2.as_str(), b.2.as_str()))))
}

/// Maps each printing's normalized slug to its card's id: the slug of that
/// card's earliest printing, undated packs counting as printed last.
/// `pack_dates` maps a normalized pack name to its release date.
pub fn printing_card_ids(cards: &[HobCard], pack_dates: &StrMap<String>) -> (r: StrMap<String>)
    requires
        pack_dates.wf(),
    ensures
        r.wf(),
        str_values(r@) == id_map(cards@, str_values(pack_dates@), cards@.len() as int),
{
    let ghost dates = str_values(pack_dates@);
    let mut idents: Vec<String> = Vec::new();
    let mut cands: Vec<(String, String, String)> = Vec::new();
    let mut i: usize = 0;
    while i < cards.len()
        invariant
            dates == str_values(pack_dates@),
            pack_dates.wf(),
            i <= cards@.len(),
            idents@.len() == i,
            cands@.len() == i,
            forall|j: int| 0 <= j < i ==> #[trigger] idents@[j]@ == identity_spec(cards@[j]),
            forall|j: int| 0 <= j < i ==> (#[trigger] cands@[j].0@, cands@[j].1@, cands@[j].2@) == candidate(cards@[j], dates),
        decreases cards.len() - i,
    {
        let pack = normalize_title(cards[i].card_set.as_str());
        let date = match pack_dates.get(pack.as_str()) {
            Some(d) => d.clone(),
            None => owned("9999-99-99"),
        };
        let slug = normalize_title(cards[i].slug.as_str());
        idents.push(card_identity(&cards[i]));
        cands.push((date, pack, slug));
        i = i + 1;
    }
    let mut out: StrMap<String> = StrMap::new();
    let mut i: usize = 0;
    assert(str_values(out@) =~= id_map(cards@, dates, 0));
    while i < cards.len()
        invariant
            dates == str_values(pack_dates@),
            i <= cards@.len(),
            idents@.len() == cards@.len(),
            cands@.len() == cards@.len(),
            forall|j: int| 0 <= j < cards@.len() ==> #[trigger] idents@[j]@ == identity_spec(cards@[j]),
            forall|j: int| 0 <= j < cards@.len() ==> (#[trigger] cands@[j].0@, cands@[j].1@, cands@[j].2@) == candidate(cards@[j], dates),
            out.wf(),
            str_values(out@) == id_map(cards@, dates, i as int),
        decreases cards.len() - i,
    {
        let mut best: usize = i;
        let mut j: usize = 0;
        while j < cards.len()
            invariant
                i < cards@.len(),
                idents@.len() == cards@.len(),
                cands@.len() == cards@.len(),
                forall|j: int| 0 <= j < cards@.len() ==> #[trigger] idents@[j]@ == identity_spec(cards@[j]),
                forall|j: int| 0 <= j < cards@.len() ==> (#[trigger] cands@[j].0@, cands@[j].1@, cands@[j].2@) == candidate(cards@[j], dates),
                j <= cards@.len(),
                best < cards@.len(),
                identity_spec(cards@[best as int]) == identity_spec(cards@[i as int]),
                forall|m: int|
                    0 <= m < j && identity_spec(#[trigger] cards@[m]) == identity_spec(cards@[i as int]) ==> !cand_lt(
                        candidate(cards@[m], dates),
                        candidate(cards@[best as int], dates),
                    ),
            decreases cards.len() - j,
        {
            assert(idents@[j as int]@ == identity_spec(cards@[j as int]));
            assert(idents@[i as int]@ == identity_spec(cards@[i as int]));
            assert((cands@[j as int].0@, cands@[j as int].1@, cands@[j as int].2@) == candidate(cards@[j as int], dates));
            assert((cands@[best as int].0@, cands@[best as int].1@, cands@[best as int].2@) == candidate(cards@[best as int], dates));
            if idents[j] == idents[i] && cand_less(&cands[j], &cands[best]) {
                proof {
                    let cj = candidate(cards@[j as int], dates);
                    let cb = candidate(cards@[best as int], dates);
                    assert forall|m: int|
                        0 <= m < j + 1 && identity_spec(#[trigger] cards@[m]) == identity_spec(cards@[i as int]) implies !cand_lt(
                            candidate(cards@[m], dates),
                            cj,
                        ) by {
                        let cm = candidate(cards@[m], dates);
                        lemma_cand_total(cm, cj);
                        lemma_cand_total(cm, cb);
                        lemma_cand_total(cj, cb);
                        if m < j {
                            assert(!cand_lt(cm, cb));
                            if cand_lt(cm, cj) {
                                cand_lt_transitive(cm, cj, cb);
                            }
                        }
                    }
                }
                best = j;
            } else {
                proof {
                    if identity_spec(cards@[j as int]) == identity_spec(cards@[i as int]) {
                        lemma_cand_total(candidate(cards@[j as int], dates), candidate(cards@[best as int], dates));
                    }
                }
            }
            j = j + 1;
        }
        proof {
            assert(is_earliest(cards@, dates, i as int, best as int));
            lemma_earliest_id(cards@, dates, i as int, best as int);
        }
        let ghost before = out@;
        assert((cands@[i as int].0@, cands@[i as int].1@, cands@[i as int].2@) == candidate(cards@[i as int], dates));
        assert((cands@[best as int].0@, cands@[best as int].1@, cands@[best as int].2@) == candidate(cards@[best as int], dates));
        let slug = cands[i].2.clone();
        out.insert(slug, cands[best].2.clone());
        proof {
            assert(out@ == before.insert(cands@[i as int].2@, cands@[best as int].2));
            assert(str_values(out@) =~= str_values(before).insert(normalize_spec(cards@[i as int].slug@), card_id_spec(cards@, dates, i as int)));
        }
        i = i + 1;
    }
    out
}

/// Printings that are the same card get the same card id.
proof fn lemma_same_card_same_id(cards: Seq<HobCard>, dates: Map<Seq<char>, Seq<char>>, i: int, j: int)
    requires
        0 <= i < cards.len(),
        0 <= j < cards.len(),
        identity_spec(cards[i]) == identity_spec(cards[j]),
    ensures
        card_id_spec(cards, dates, i) == card_id_spec(cards, dates, j),
{
    let k = earliest_of(cards, dates, i);
    lemma_earliest_id(cards, dates, i, k);
    assert(is_earliest(cards, dates, j, k));
    lemma_earliest_id(cards, dates, j, k);
}

/// Every one of the first `n` printings' normalized slugs is a key.
proof fn lemma_id_map_has(cards: Seq<HobCard>, dates: Map<Seq<char>, Seq<char>>, n: int, j: int)
    requires
        0 <= j < n <= cards.len(),
    ensures
        id_map(cards, dates, n).contains_key(normalize_spec(cards[j].slug@)),
    decreases n,
{
    if j < n - 1 {
        lemma_id_map_has(cards, dates, n - 1, j);
    }
}

/// A key of the map is the normalized slug of one of the first `n`
/// printings, and holds that printing's card id.
proof fn id_map_source(cards: Seq<HobCard>, dates: Map<Seq<char>, Seq<char>>, n: int, key: Seq<char>) -> (j: int)
    requires
        0 <= n <= cards.len(),
        id_map(cards, dates, n).contains_key(key),
    ensures
        0 <= j < n,
        normalize_spec(cards[j].slug@) == key,
        id_map(cards, dates, n)[key] == card_id_spec(cards, dates, j),
    decreases n,
{
    if normalize_spec(cards[n - 1].slug@) == key {
        n - 1
    } else {
        id_map_source(cards, dates, n - 1, key)
    }
}

/// No two printings share a normalized slug.
pub open spec fn slugs_distinct(cards: Seq<HobCard>) -> bool {
    forall|i: int, j: int|
        0 <= i < j < cards.len() ==> normalize_spec((#[trigger] cards[i]).slug@) != normalize_spec((#[trigger] cards[j]).slug@)
}

/// The map `printing_card_ids` returns, over printings whose normalized
/// slugs are distinct:
/// its keys are exactly those slugs; each printing's slug holds its card's
/// id; every id is itself a key that maps to itself; and two printings get
/// one id exactly when they are the same card.
pub proof fn lemma_card_ids_name_cards(cards: Seq<HobCard>, dates: Map<Seq<char>, Seq<char>>)
    requires
        slugs_distinct(cards),
    ensures
        ({
            let ids = id_map(cards, dates, cards.len() as int);
            &&& forall|key: Seq<char>| #[trigger] ids.contains_key(key) <==> exists|j: int|
                0 <= j < cards.len() && normalize_spec((#[trigger] cards[j]).slug@) == key
            &&& forall|i: int| 0 <= i < cards.len() ==> ids[normalize_spec((#[trigger] cards[i]).slug@)] == card_id_spec(cards, dates, i)
            &&& forall|key: Seq<char>| #[trigger] ids.contains_key(key) ==> ids.contains_key(ids[key]) && ids[ids[key]] == ids[key]
            &&& forall|i: int, j: int| 0 <= i < cards.len() && 0 <= j < cards.len() ==> (card_id_spec(cards, dates, i)
                == card_id_spec(cards, dates, j) <==> identity_spec(#[trigger] cards[i]) == identity_spec(#[trigger] cards[j]))
        }),
{
    let n = cards.len() as int;
    let ids = id_map(cards, dates, n);
    assert forall|i: int| 0 <= i < n implies ids[normalize_spec((#[trigger] cards[i]).slug@)] == card_id_spec(cards, dates, i) by {
        lemma_id_map_has(cards, dates, n, i);
        let j = id_map_source(cards, dates, n, normalize_spec(cards[i].slug@));
        if j != i {
            if j < i {
                assert(normalize_spec(cards[j].slug@) != normalize_spec(cards[i].slug@));
            } else {
                assert(normalize_spec(cards[i].slug@) != normalize_spec(cards[j].slug@));
            }
        }
    }
    assert forall|key: Seq<char>| #[trigger] ids.contains_key(key) <==> exists|j: int|
        0 <= j < cards.len() && normalize_spec((#[trigger] cards[j]).slug@) == key by {
        if ids.contains_key(key) {
            let j = id_map_source(cards, dates, n, key);
            assert(normalize_spec(cards[j].slug@) == key);
        } else {
            assert forall|j: int| 0 <= j < cards.len() implies normalize_spec((#[trigger] cards[j]).slug@) != key by {
                lemma_id_map_has(cards, dates, n, j);
            }
        }
    }
    assert forall|key: Seq<char>| #[trigger] ids.contains_key(key) implies ids.contains_key(ids[key]) && ids[ids[key]] == ids[key] by {
        let i = id_map_source(cards, dates, n, key);
        let k = earliest_of(cards, dates, i);
        lemma_earliest_id(cards, dates, i, k);
        assert(is_earliest(cards, dates, k, k));
        lemma_earliest_id(cards, dates, k, k);
        lemma_id_map_has(cards, dates, n, k);
        assert(ids[normalize_spec(cards[k].slug@)] == card_id_spec(cards, dates, k));
    }
    assert forall|i: int, j: int| 0 <= i < n && 0 <= j < n implies (card_id_spec(cards, dates, i) == card_id_spec(
        cards,
        dates,
        j,
    ) <==> identity_spec(#[trigger] cards[i]) == identity_spec(#[trigger] cards[j])) by {
        if identity_spec(cards[i]) == identity_spec(cards[j]) {
            lemma_same_card_same_id(cards, dates, i, j);
        } else {
            let ki = earliest_of(cards, dates, i);
            let kj = earliest_of(cards, dates, j);
            lemma_earliest_id(cards, dates, i, ki);
            lemma_earliest_id(cards, dates, j, kj);
            assert(identity_spec(cards[ki]) == identity_spec(cards[i]));
            assert(identity_spec(cards[kj]) == identity_spec(cards[j]));
            if ki < kj {
                assert(normalize_spec(cards[ki].slug@) != normalize_spec(cards[kj].slug@));
            } else if kj < ki {
                assert(normalize_spec(cards[kj].slug@) != normalize_spec(cards[ki].slug@));
            }
        }
    }
}

/// The map of card ids does not depend on the order the printings are listed
/// in: when `other` lists the printings of `cards` in another order (`p`
/// places each printing of `cards` in `other`, `q` each of `other` in
/// `cards`) and no two printings of `cards` share a normalized slug, both
/// lists give the same map.
pub proof fn lemma_card_id_map_ignores_order(
    cards: Seq<HobCard>,
    other: Seq<HobCard>,
    dates: Map<Seq<char>, Seq<char>>,
    p: Seq<int>,
    q: Seq<int>,
)
    requires
        p.len() == cards.len(),
        q.len() == other.len(),
        forall|i: int| 0 <= i < cards.len() ==> 0 <= #[trigger] p[i] < other.len() && other[p[i]] == cards[i],
        forall|j: int| 0 <= j < other.len() ==> 0 <= #[trigger] q[j] < cards.len() && cards[q[j]] == other[j],
        slugs_distinct(cards),
    ensures
        id_map(other, dates, other.len() as int) == id_map(cards, dates, cards.len() as int),
{
    let a = id_map(cards, dates, cards.len() as int);
    let b = id_map(other, dates, other.len() as int);
    lemma_card_ids_ignore_order(cards, other, dates, p, q);
    assert forall|key: Seq<char>| #[trigger] b.dom().contains(key) implies a.dom().contains(key) by {
        let j = id_map_source(other, dates, other.len() as int, key);
        assert(cards[q[j]] == other[j]);
        lemma_id_map_has(cards, dates, cards.len() as int, q[j]);
    }
    assert forall|key: Seq<char>| #[trigger] a.dom().contains(key) implies b.dom().contains(key) && b[key] == a[key] by {
        let i = id_map_source(cards, dates, cards.len() as int, key);
        assert(other[p[i]] == cards[i]);
        lemma_id_map_has(other, dates, other.len() as int, p[i]);
        let j = id_map_source(other, dates, other.len() as int, key);
        let qj = q[j];
        assert(cards[qj] == other[j]);
        if qj != i {
            if qj < i {
                assert(normalize_spec(cards[qj].slug@) != normalize_spec(cards[i].slug@));
            } else {
                assert(normalize_spec(cards[i].slug@) != normalize_spec(cards[qj].slug@));
            }
        }
        assert(other[j] == other[p[i]]);
        lemma_same_card_same_id(other, dates, j, p[i]);
    }
    assert(b.dom() =~= a.dom());
    assert(b =~= a);
}

/// `printing_card_ids` gives the same map whatever order the printings come
/// in: for printings whose normalized slugs are distinct, any permutation of
/// them maps every slug to the same card id. (What the map holds is
/// `lemma_card_ids_name_cards`.)
pub proof fn lemma_printing_card_ids_ignore_order(
    cards: Seq<HobCard>,
    perm: Seq<HobCard>,
    dates: Map<Seq<char>, Seq<char>>,
)
    requires
        perm.to_multiset() == cards.to_multiset(),
        slugs_distinct(cards),
    ensures
        id_map(perm, dates, perm.len() as int) == id_map(cards, dates, cards.len() as int),
{
    broadcast use vstd::seq_lib::group_to_multiset_ensures;
    let p = Seq::new(cards.len(), |i: int| choose|j: int| 0 <= j < perm.len() && perm[j] == cards[i]);
    let q = Seq::new(perm.len(), |j: int| choose|i: int| 0 <= i < cards.len() && cards[i] == perm[j]);
    assert forall|i: int| 0 <= i < cards.len() implies 0 <= #[trigger] p[i] < perm.len() && perm[p[i]] == cards[i] by {
        assert(cards.contains(cards[i]));
        assert(cards.to_multiset().count(cards[i]) > 0);
        assert(perm.contains(cards[i]));
    }
    assert forall|j: int| 0 <= j < perm.len() implies 0 <= #[trigger] q[j] < cards.len() && cards[q[j]] == perm[j] by {
        assert(perm.contains(perm[j]));
        assert(perm.to_multiset().count(perm[j]) > 0);
        assert(cards.contains(perm[j]));
    }
    lemma_card_id_map_ignores_order(cards, perm, dates, p, q);
}

proof fn cand_lt_transitive(
    a: (Seq<char>, Seq<char>, Seq<char>),
    b: (Seq<char>, Seq<char>, Seq<char>),
    c: (Seq<char>, Seq<char>, Seq<char>),
)
    requires
        cand_lt(a, b),
        cand_lt(b, c),
    ensures
        cand_lt(a, c),
{
    if seq_lt(a.0, b.0) && seq_lt(b.0, c.0) {
        lemma_lt_transitive(a.0, b.0, c.0);
    }
    if a.0 == b.0 && b.0 == c.0 {
        if seq_lt(a.1, b.1) && seq_lt(b.1, c.1) {
            lemma_lt_transitive(a.1, b.1, c.1);
        }
        if a.1 == b.1 && b.1 == c.1 && seq_lt(a.2, b.2) && seq_lt(b.2, c.2) {
            lemma_lt_transitive(a.2, b.2, c.2);
        }
    }
}

/// The least `k`, from `k` on and short of the whole slug, at which the
/// first `k` characters of `slug` normalize to `wanted`.
pub open spec fn title_end(slug: Seq<char>, wanted: Seq<char>, k: int) -> Option<int>
    decreases slug.len() - k,
{
    if k < 1 || k >= slug.len() {
        None
    } else if normalize_spec(slug.take(k)) == wanted {
        Some(k)
    } else {
        title_end(slug, wanted, k + 1)
    }
}

/// `s` without its leading `-`s.
pub open spec fn trim_dashes(s: Seq<char>) -> Seq<char>
    decreases s.len(),
{
    if s.len() > 0 && s[0] == '-' {
        trim_dashes(s.drop_first())
    } else {
        s
    }
}

/// `s` with each `-` spelled as a space.
pub open spec fn dashes_to_spaces(s: Seq<char>) -> Seq<char> {
    s.map_values(|c: char| if c == '-' { ' ' } else { c })
}

/// What a slug adds to a title: the rest of the slug after the shortest
/// start of it that normalizes to the title, leading `-`s dropped and the
/// others spelled as spaces; nothing when no start of it spells the title or
/// nothing is left.
pub open spec fn slug_suffix_spec(slug: Seq<char>, title: Seq<char>) -> Option<Seq<char>> {
    match title_end(slug, normalize_spec(title), 1) {
        Some(k) => {
            let rest = dashes_to_spaces(trim_dashes(slug.skip(k)));
            if rest.len() > 0 {
                Some(rest)
            } else {
                None
            }
        },
        None => None,
    }
}

/// What a slug adds to a title, such as `Core` for `Aragorn-Core`.
pub fn slug_suffix(slug: &str, title: &str) -> (r: Option<String>)
    ensures
        opt_text_of(r) == slug_suffix_spec(slug@, title@),
{
    let wanted = normalize_title(title);
    let v = chars_of(slug);
    let mut k: usize = 1;
    while k < v.len()
        invariant
            v@ == slug@,
            wanted@ == normalize_spec(title@),
            1 <= k,
            title_end(slug@, wanted@, 1) == title_end(slug@, wanted@, k as int),
        decreases v.len() - k,
    {
        let prefix = string_of(&slice_of(&v, 0, k));
        assert(prefix@ =~= slug@.take(k as int));
        let n = normalize_title(prefix.as_str());
        if n == wanted {
            assert(title_end(slug@, wanted@, 1) == Some(k as int));
            return suffix_after(&v, k);
        }
        k = k + 1;
    }
    None
}

/// What is left of a slug after its first `e` characters: leading `-`s
/// dropped and the others spelled as spaces, if anything is left.
fn suffix_after(v: &Vec<char>, e: usize) -> (r: Option<String>)
    requires
        e <= v@.len(),
    ensures
        opt_text_of(r) == (if dashes_to_spaces(trim_dashes(v@.skip(e as int))).len() > 0 {
            Some(dashes_to_spaces(trim_dashes(v@.skip(e as int))))
        } else {
            None
        }),
{
    let mut a: usize = e;
    assert(trim_dashes(v@.skip(e as int)) == trim_dashes(v@.skip(a as int)));
    while a < v.len() && v[a] == '-'
        invariant
            e <= a <= v@.len(),
            trim_dashes(v@.skip(e as int)) == trim_dashes(v@.skip(a as int)),
        decreases v.len() - a,
    {
        assert(v@.skip(a as int).drop_first() =~= v@.skip(a + 1));
        a = a + 1;
    }
    assert(trim_dashes(v@.skip(a as int)) == v@.skip(a as int)) by {
        if a < v.len() {
            assert(v@.skip(a as int)[0] == v@[a as int]);
        } else {
            assert(v@.skip(a as int).len() == 0);
        }
    }
    let mut rest = String::new();
    let mut any = false;
    let mut m: usize = a;
    while m < v.len()
        invariant
            a <= m <= v@.len(),
            rest@ == dashes_to_spaces(v@.subrange(a as int, m as int)),
            any == (m > a),
        decreases v.len() - m,
    {
        if v[m] == '-' {
            push_char(&mut rest, ' ');
        } else {
            push_char(&mut rest, v[m]);
        }
        assert(v@.subrange(a as int, m + 1) =~= v@.subrange(a as int, m as int).push(v@[m as int]));
        m = m + 1;
        any = true;
        assert(rest@ =~= dashes_to_spaces(v@.subrange(a as int, m as int)));
    }
    assert(v@.subrange(a as int, v@.len() as int) =~= v@.skip(a as int));
    if any {
        Some(rest)
    } else {
        None
    }
}

/// The text of an optional string, kept optional.
pub open spec fn opt_text_of(o: Option<String>) -> Option<Seq<char>> {
    match o {
        Some(s) => Some(s@),
        None => None,
    }
}

/// Whether printing `i` has a card id in `ids`.
pub open spec fn has_id(cards: Seq<HobCard>, ids: Map<Seq<char>, Seq<char>>, i: int) -> bool {
    ids.contains_key(normalize_spec(cards[i].slug@))
}

/// The card id of printing `i`.
pub open spec fn id_at(cards: Seq<HobCard>, ids: Map<Seq<char>, Seq<char>>, i: int) -> Seq<char> {
    ids[normalize_spec(cards[i].slug@)]
}

/// The first of the first `n` printings whose card id is `d`.
pub open spec fn first_with_id(cards: Seq<HobCard>, ids: Map<Seq<char>, Seq<char>>, d: Seq<char>, n: int) -> Option<int>
    decreases n,
{
    if n <= 0 {
        None
    } else {
        match first_with_id(cards, ids, d, n - 1) {
            Some(i) => Some(i),
            None => if has_id(cards, ids, n - 1) && id_at(cards, ids, n - 1) == d {
                Some(n - 1)
            } else {
                None
            },
        }
    }
}

/// The first of the first `n` printings whose normalized slug is `d`.
pub open spec fn first_with_slug(cards: Seq<HobCard>, d: Seq<char>, n: int) -> Option<int>
    decreases n,
{
    if n <= 0 {
        None
    } else {
        match first_with_slug(cards, d, n - 1) {
            Some(i) => Some(i),
            None => if normalize_spec(cards[n - 1].slug@) == d {
                Some(n - 1)
            } else {
                None
            },
        }
    }
}

/// The title card `d` is listed under: that of its first printing.
pub open spec fn title_of(cards: Seq<HobCard>, ids: Map<Seq<char>, Seq<char>>, d: Seq<char>) -> Seq<char> {
    match first_with_id(cards, ids, d, cards.len() as int) {
        Some(i) => cards[i].title@,
        None => Seq::empty(),
    }
}

/// Whether another card is listed under a title that normalizes as card
/// `d`'s does.
pub open spec fn title_shared(cards: Seq<HobCard>, ids: Map<Seq<char>, Seq<char>>, d: Seq<char>) -> bool {
    exists|j: int|
        0 <= j < cards.len() && #[trigger] has_id(cards, ids, j) && id_at(cards, ids, j) != d && normalize_spec(
            title_of(cards, ids, id_at(cards, ids, j)),
        ) == normalize_spec(title_of(cards, ids, d))
}

/// The title of card `d`: the title it is listed under, followed, when
/// another card shares it, by what the raw slug of its id's printing adds
/// to it in brackets (`Aragorn (Core)`).
pub open spec fn card_title_spec(cards: Seq<HobCard>, ids: Map<Seq<char>, Seq<char>>, d: Seq<char>) -> Seq<char> {
    let t = title_of(cards, ids, d);
    if title_shared(cards, ids, d) {
        match first_with_slug(cards, d, cards.len() as int) {
            Some(k) => match slug_suffix_spec(cards[k].slug@, t) {
                Some(sfx) => t + " ("@ + sfx + ")"@,
                None => t,
            },
            None => t,
        }
    } else {
        t
    }
}

/// The card ids the printings carry.
pub open spec fn titled_ids(cards: Seq<HobCard>, ids: Map<Seq<char>, Seq<char>>) -> Set<Seq<char>> {
    Set::new(|d: Seq<char>| exists|i: int| 0 <= i < cards.len() && has_id(cards, ids, i) && id_at(cards, ids, i) == d)
}

/// The ids among the first `n` printings.
spec fn ids_below(cards: Seq<HobCard>, ids: Map<Seq<char>, Seq<char>>, n: int) -> Set<Seq<char>> {
    Set::new(|d: Seq<char>| exists|i: int| 0 <= i < n && has_id(cards, ids, i) && id_at(cards, ids, i) == d)
}

proof fn lemma_first_with_id(cards: Seq<HobCard>, ids: Map<Seq<char>, Seq<char>>, d: Seq<char>, n: int, m: int)
    requires
        0 <= n <= m <= cards.len(),
        first_with_id(cards, ids, d, n) is Some,
    ensures
        first_with_id(cards, ids, d, m) == first_with_id(cards, ids, d, n),
    decreases m - n,
{
    if m > n {
        lemma_first_with_id(cards, ids, d, n, m - 1);
    }
}

proof fn lemma_first_with_slug(cards: Seq<HobCard>, d: Seq<char>, n: int, m: int)
    requires
        0 <= n <= m <= cards.len(),
        first_with_slug(cards, d, n) is Some,
    ensures
        first_with_slug(cards, d, m) == first_with_slug(cards, d, n),
    decreases m - n,
{
    if m > n {
        lemma_first_with_slug(cards, d, n, m - 1);
    }
}

proof fn lemma_first_with_id_none(cards: Seq<HobCard>, ids: Map<Seq<char>, Seq<char>>, d: Seq<char>, n: int)
    requires
        0 <= n <= cards.len(),
        !ids_below(cards, ids, n).contains(d),
    ensures
        first_with_id(cards, ids, d, n) is None,
    decreases n,
{
    if n > 0 {
        assert(!ids_below(cards, ids, n - 1).contains(d)) by {
            if ids_below(cards, ids, n - 1).contains(d) {
                let i = choose|i: int| 0 <= i < n - 1 && has_id(cards, ids, i) && id_at(cards, ids, i) == d;
                assert(ids_below(cards, ids, n).contains(d));
            }
        }
        lemma_first_with_id_none(cards, ids, d, n - 1);
        if has_id(cards, ids, n - 1) && id_at(cards, ids, n - 1) == d {
            assert(ids_below(cards, ids, n).contains(d));
        }
    }
}

proof fn lemma_first_with_slug_none(cards: Seq<HobCard>, d: Seq<char>, n: int)
    requires
        0 <= n <= cards.len(),
        forall|i: int| 0 <= i < n ==> normalize_spec(#[trigger] cards[i].slug@) != d,
    ensures
        first_with_slug(cards, d, n) is None,
    decreases n,
{
    if n > 0 {
        lemma_first_with_slug_none(cards, d, n - 1);
    }
}

/// Maps each card id to the title it goes by: the raw title, or the title
/// and what its earliest printing's slug adds to it (`Aragorn (Core)`) when
/// another card shares the title. `card_ids` maps normalized slugs to card
/// ids.
pub fn card_titles(cards: &[HobCard], card_ids: &StrMap<String>) -> (r: StrMap<String>)
    requires
        card_ids.wf(),
    ensures
        r.wf(),
        r@.dom() == titled_ids(cards@, str_values(card_ids@)),
        forall|d: Seq<char>| #[trigger] r@.contains_key(d) ==> r@[d]@ == card_title_spec(cards@, str_values(card_ids@), d),
{
    let ghost ids = str_values(card_ids@);
    let ghost n = cards@.len() as int;
    // each printing's card id, if it has one
    let mut idv: Vec<Option<String>> = Vec::new();
    // each normalized slug's first raw slug
    let mut raw: StrMap<String> = StrMap::new();
    // each card id's title: that of its first printing
    let mut first_title: StrMap<String> = StrMap::new();
    let mut i: usize = 0;
    while i < cards.len()
        invariant
            ids == str_values(card_ids@),
            n == cards@.len(),
            card_ids.wf(),
            raw.wf(),
            first_title.wf(),
            i <= n,
            idv@.len() == i,
            forall|j: int| 0 <= j < i ==> opt_text_of(#[trigger] idv@[j]) == (if has_id(cards@, ids, j) {
                Some(id_at(cards@, ids, j))
            } else {
                None
            }),
            forall|d: Seq<char>| #[trigger] raw@.contains_key(d) <==> first_with_slug(cards@, d, i as int) is Some,
            forall|d: Seq<char>| #[trigger] raw@.contains_key(d) ==> raw@[d]@ == cards@[first_with_slug(cards@, d, i as int)->Some_0].slug@,
            first_title@.dom() == ids_below(cards@, ids, i as int),
            forall|d: Seq<char>| #[trigger] first_title@.contains_key(d) ==> first_with_id(cards@, ids, d, i as int) is Some && first_title@[d]@
                == cards@[first_with_id(cards@, ids, d, i as int)->Some_0].title@,
        decreases cards.len() - i,
    {
        let slug = normalize_title(cards[i].slug.as_str());
        let ghost s = slug@;
        let ghost raw0 = raw@;
        let ghost ft0 = first_title@;
        if !raw.contains_key(slug.as_str()) {
            raw.insert(slug.clone(), cards[i].slug.clone());
        }
        proof {
            assert forall|d: Seq<char>| #[trigger] raw@.contains_key(d) <==> first_with_slug(cards@, d, i + 1) is Some by {
                if raw0.contains_key(d) {
                    assert(first_with_slug(cards@, d, i as int) is Some);
                }
            }
            assert forall|d: Seq<char>| #[trigger] raw@.contains_key(d) implies raw@[d]@ == cards@[first_with_slug(cards@, d, i + 1)->Some_0].slug@ by {
                if raw0.contains_key(d) {
                    lemma_first_with_slug(cards@, d, i as int, i + 1);
                }
            }
        }
        let id = match card_ids.get(slug.as_str()) {
            Some(d) => Some(d.clone()),
            None => None,
        };
        assert(opt_text_of(id) == (if has_id(cards@, ids, i as int) {
            Some(id_at(cards@, ids, i as int))
        } else {
            None
        }));
        match &id {
            Some(d) => {
                if !first_title.contains_key(d.as_str()) {
                    first_title.insert(d.clone(), cards[i].title.clone());
                    proof {
                        lemma_first_with_id_none(cards@, ids, d@, i as int);
                    }
                }
            },
            None => {},
        }
        proof {
            let dom1 = ids_below(cards@, ids, i + 1);
            if has_id(cards@, ids, i as int) {
                assert(dom1.contains(id_at(cards@, ids, i as int)));
                assert(first_title@.contains_key(id_at(cards@, ids, i as int)));
            }
            assert forall|d: Seq<char>| first_title@.dom().contains(d) <==> dom1.contains(d) by {
                if dom1.contains(d) {
                    let j = choose|j: int| 0 <= j < i + 1 && has_id(cards@, ids, j) && id_at(cards@, ids, j) == d;
                    if j < i {
                        assert(ids_below(cards@, ids, i as int).contains(d));
                    }
                }
                if ft0.contains_key(d) {
                    let j = choose|j: int| 0 <= j < i && has_id(cards@, ids, j) && id_at(cards@, ids, j) == d;
                    assert(dom1.contains(d));
                }
            }
            assert(first_title@.dom() =~= dom1);
            assert forall|d: Seq<char>| #[trigger] first_title@.contains_key(d) implies first_with_id(cards@, ids, d, i + 1) is Some
                && first_title@[d]@ == cards@[first_with_id(cards@, ids, d, i + 1)->Some_0].title@ by {
                if ft0.contains_key(d) {
                    lemma_first_with_id(cards@, ids, d, i as int, i + 1);
                }
            }
        }
        idv.push(id);
        i = i + 1;
    }
    // each printing's card's title, normalized
    let mut tkeys: Vec<Option<String>> = Vec::new();
    let mut j: usize = 0;
    while j < cards.len()
        invariant
            ids == str_values(card_ids@),
            n == cards@.len(),
            first_title.wf(),
            idv@.len() == n,
            forall|j: int| 0 <= j < n ==> opt_text_of(#[trigger] idv@[j]) == (if has_id(cards@, ids, j) {
                Some(id_at(cards@, ids, j))
            } else {
                None
            }),
            first_title@.dom() == ids_below(cards@, ids, n),
            forall|d: Seq<char>| #[trigger] first_title@.contains_key(d) ==> first_title@[d]@ == title_of(cards@, ids, d),
            j <= n,
            tkeys@.len() == j,
            forall|m: int| 0 <= m < j ==> opt_text_of(#[trigger] tkeys@[m]) == (if has_id(cards@, ids, m) {
                Some(normalize_spec(title_of(cards@, ids, id_at(cards@, ids, m))))
            } else {
                None
            }),
        decreases cards.len() - j,
    {
        assert(opt_text_of(idv@[j as int]) == (if has_id(cards@, ids, j as int) {
            Some(id_at(cards@, ids, j as int))
        } else {
            None
        }));
        let key = match &idv[j] {
            Some(d) => {
                assert(ids_below(cards@, ids, n).contains(d@));
                match first_title.get(d.as_str()) {
                    Some(t) => Some(normalize_title(t.as_str())),
                    None => None,
                }
            },
            None => None,
        };
        tkeys.push(key);
        j = j + 1;
    }
    let mut out: StrMap<String> = StrMap::new();
    let mut i: usize = 0;
    while i < cards.len()
        invariant
            ids == str_values(card_ids@),
            n == cards@.len(),
            first_title.wf(),
            raw.wf(),
            out.wf(),
            idv@.len() == n,
            tkeys@.len() == n,
            forall|j: int| 0 <= j < n ==> opt_text_of(#[trigger] idv@[j]) == (if has_id(cards@, ids, j) {
                Some(id_at(cards@, ids, j))
            } else {
                None
            }),
            first_title@.dom() == ids_below(cards@, ids, n),
            forall|d: Seq<char>| #[trigger] first_title@.contains_key(d) ==> first_title@[d]@ == title_of(cards@, ids, d),
            forall|m: int| 0 <= m < n ==> opt_text_of(#[trigger] tkeys@[m]) == (if has_id(cards@, ids, m) {
                Some(normalize_spec(title_of(cards@, ids, id_at(cards@, ids, m))))
            } else {
                None
            }),
            forall|d: Seq<char>| #[trigger] raw@.contains_key(d) <==> first_with_slug(cards@, d, n) is Some,
            forall|d: Seq<char>| #[trigger] raw@.contains_key(d) ==> raw@[d]@ == cards@[first_with_slug(cards@, d, n)->Some_0].slug@,
            i <= n,
            out@.dom() == ids_below(cards@, ids, i as int),
            forall|d: Seq<char>| #[trigger] out@.contains_key(d) ==> out@[d]@ == card_title_spec(cards@, ids, d),
        decreases cards.len() - i,
    {
        let ghost o0 = out@;
        assert(opt_text_of(idv@[i as int]) == (if has_id(cards@, ids, i as int) {
            Some(id_at(cards@, ids, i as int))
        } else {
            None
        }));
        match &idv[i] {
            Some(d) => {
                if !out.contains_key(d.as_str()) {
                    assert(ids_below(cards@, ids, n).contains(d@));
                    let title = match first_title.get(d.as_str()) {
                        Some(t) => t.clone(),
                        None => String::new(),
                    };
                    let my_key = normalize_title(title.as_str());
                    // is the title another card's too?
                    let mut shared = false;
                    let mut j: usize = 0;
                    while j < cards.len()
                        invariant
                            n == cards@.len(),
                            idv@.len() == n,
                            tkeys@.len() == n,
                            forall|j: int| 0 <= j < n ==> opt_text_of(#[trigger] idv@[j]) == (if has_id(cards@, ids, j) {
                                Some(id_at(cards@, ids, j))
                            } else {
                                None
                            }),
                            forall|m: int| 0 <= m < n ==> opt_text_of(#[trigger] tkeys@[m]) == (if has_id(cards@, ids, m) {
                                Some(normalize_spec(title_of(cards@, ids, id_at(cards@, ids, m))))
                            } else {
                                None
                            }),
                            my_key@ == normalize_spec(title_of(cards@, ids, d@)),
                            j <= n,
                            shared == exists|m: int|
                                0 <= m < j && #[trigger] has_id(cards@, ids, m) && id_at(cards@, ids, m) != d@ && normalize_spec(
                                    title_of(cards@, ids, id_at(cards@, ids, m)),
                                ) == normalize_spec(title_of(cards@, ids, d@)),
                        decreases cards.len() - j,
                    {
                        assert(opt_text_of(idv@[j as int]) == (if has_id(cards@, ids, j as int) {
                            Some(id_at(cards@, ids, j as int))
                        } else {
                            None
                        }));
                        assert(opt_text_of(tkeys@[j as int]) == (if has_id(cards@, ids, j as int) {
                            Some(normalize_spec(title_of(cards@, ids, id_at(cards@, ids, j as int))))
                        } else {
                            None
                        }));
                        match (&idv[j], &tkeys[j]) {
                            (Some(e), Some(k)) => {
                                if *e != *d && *k == my_key {
                                    shared = true;
                                }
                            },
                            _ => {},
                        }
                        j = j + 1;
                    }
                    let mut full = title.clone();
                    if shared {
                        match raw.get(d.as_str()) {
                            Some(r) => {
                                match slug_suffix(r.as_str(), title.as_str()) {
                                    Some(sfx) => {
                                        push_str(&mut full, " (");
                                        push_str(&mut full, sfx.as_str());
                                        push_str(&mut full, ")");
                                    },
                                    None => {},
                                }
                            },
                            None => {},
                        }
                    }
                    assert(full@ == card_title_spec(cards@, ids, d@));
                    out.insert(d.clone(), full);
                }
            },
            None => {},
        }
        proof {
            let dom1 = ids_below(cards@, ids, i + 1);
            assert forall|x: Seq<char>| out@.dom().contains(x) <==> dom1.contains(x) by {
                if dom1.contains(x) {
                    let j = choose|j: int| 0 <= j < i + 1 && has_id(cards@, ids, j) && id_at(cards@, ids, j) == x;
                    if j < i {
                        assert(ids_below(cards@, ids, i as int).contains(x));
                    }
                }
                if o0.contains_key(x) {
                    let j = choose|j: int| 0 <= j < i && has_id(cards@, ids, j) && id_at(cards@, ids, j) == x;
                    assert(dom1.contains(x));
                }
            }
            assert(out@.dom() =~= dom1);
        }
        i = i + 1;
    }
    proof {
        assert(ids_below(cards@, ids, n) =~= titled_ids(cards@, ids));
    }
    out
}

/// Which card a printing is does not depend on the order the printings are
/// listed in: when `other` lists the printings of `cards` in another order
/// (`p` places each printing of `cards` in `other`, `q` each of `other` in
/// `cards`), each printing gets the same card id from both lists.
pub proof fn lemma_card_ids_ignore_order(
    cards: Seq<HobCard>,
    other: Seq<HobCard>,
    dates: Map<Seq<char>, Seq<char>>,
    p: Seq<int>,
    q: Seq<int>,
)
    requires
        p.len() == cards.len(),
        q.len() == other.len(),
        forall|i: int| 0 <= i < cards.len() ==> 0 <= #[trigger] p[i] < other.len() && other[p[i]] == cards[i],
        forall|j: int| 0 <= j < other.len() ==> 0 <= #[trigger] q[j] < cards.len() && cards[q[j]] == other[j],
    ensures
        forall|i: int| 0 <= i < cards.len() ==> card_id_spec(other, dates, #[trigger] p[i]) == card_id_spec(cards, dates, i),
{
    assert forall|i: int| 0 <= i < cards.len() implies card_id_spec(other, dates, #[trigger] p[i]) == card_id_spec(cards, dates, i) by {
        let k = earliest_of(cards, dates, i);
        assert(is_earliest(cards, dates, i, k));
        lemma_earliest_id(cards, dates, i, k);
        let pk = p[k];
        assert forall|j: int|
            0 <= j < other.len() && identity_spec(#[trigger] other[j]) == identity_spec(other[p[i]]) implies !cand_lt(
                candidate(other[j], dates),
                candidate(other[pk], dates),
            ) by {
            assert(cards[q[j]] == other[j]);
            assert(identity_spec(cards[q[j]]) == identity_spec(cards[i]));
        }
        assert(is_earliest(other, dates, p[i], pk));
        lemma_earliest_id(other, dates, p[i], pk);
    }
}

/// A printing's card has an earliest printing.
proof fn earliest_of(cards: Seq<HobCard>, dates: Map<Seq<char>, Seq<char>>, i: int) -> (k: int)
    requires
        0 <= i < cards.len(),
    ensures
        is_earliest(cards, dates, i, k),
{
    let k = earliest_below(cards, dates, i, cards.len() as int);
    assert(k != -1) by {
        if k == -1 {
            let c = cards[i];
            assert(identity_spec(cards[i]) != identity_spec(c));
        }
    }
    k
}

/// The earliest, among the first `n` printings, of those that are the same
/// card as printing `i`; `-1` when none of them is.
proof fn earliest_below(cards: Seq<HobCard>, dates: Map<Seq<char>, Seq<char>>, i: int, n: int) -> (k: int)
    requires
        0 <= i < cards.len(),
        0 <= n <= cards.len(),
    ensures
        k == -1 ==> forall|j: int| 0 <= j < n ==> identity_spec(#[trigger] cards[j]) != identity_spec(cards[i]),
        k != -1 ==> 0 <= k < n && identity_spec(cards[k]) == identity_spec(cards[i]) && forall|j: int|
            0 <= j < n && identity_spec(#[trigger] cards[j]) == identity_spec(cards[i]) ==> !cand_lt(
                candidate(cards[j], dates),
                candidate(cards[k], dates),
            ),
    decreases n,
{
    if n == 0 {
        -1
    } else {
        let k = earliest_below(cards, dates, i, n - 1);
        let cn = candidate(cards[n - 1], dates);
        if identity_spec(cards[n - 1]) != identity_spec(cards[i]) {
            k
        } else if k == -1 {
            lemma_cand_total(cn, cn);
            n - 1
        } else {
            let ck = candidate(cards[k], dates);
            lemma_cand_total(cn, ck);
            if cand_lt(cn, ck) {
                assert forall|j: int|
                    0 <= j < n && identity_spec(#[trigger] cards[j]) == identity_spec(cards[i]) implies !cand_lt(
                        candidate(cards[j], dates),
                        cn,
                    ) by {
                    let cj = candidate(cards[j], dates);
                    lemma_cand_total(cj, cn);
                    if j < n - 1 && cand_lt(cj, cn) {
                        cand_lt_transitive(cj, cn, ck);
                    }
                }
                n - 1
            } else {
                k
            }
        }
    }
}
} // verus!
