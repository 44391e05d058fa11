//! Marvel Champions.
use vstd::prelude::*;
use crate::card_source::BoosterSpec;
use crate::games::GameAdapterInfo;
use crate::card_store::normalize_spec;
use crate::catalog::{card_view, card_with, version_view, Card, CardVersion};
use crate::error::ProxyNexusError;
use crate::games::urls::{view_id, view_id_spec};
use crate::seqs::{lemma_push_map, lemma_take_map_push};
use crate::text::{owned, str_eq};
use vstd::hash_set::StringHashSet;

verus! {

/// The Marvel Champions adapter.
pub struct MarvelChampionsAdapter {}

impl MarvelChampionsAdapter {
    /// The adapter.
    pub fn new() -> (r: Self) {
        MarvelChampionsAdapter {}
    }
}

impl Default for MarvelChampionsAdapter {
    fn default() -> (r: Self) {
        Self::new()
    }
}

impl GameAdapterInfo for MarvelChampionsAdapter {
    fn game_id(&self) -> (r: &'static str)
        ensures
            r@ == "marvel_champions"@,
    {
        "marvel_champions"
    }

    fn game_name(&self) -> (r: &'static str)
        ensures
            r@ == "Marvel Champions"@,
    {
        "Marvel Champions"
    }

    fn subdomains(&self) -> (r: Vec<&'static str>)
        ensures
            r@.map_values(|s: &str| s@) == seq!["marvel"@],
    {
        let mut v: Vec<&'static str> = Vec::new();
        v.push("marvel");
        proof {
            assert(v@.map_values(|s: &str| s@) =~= seq!["marvel"@]);
        }
        v
    }

    fn booster_spec(&self) -> (r: Option<BoosterSpec>)
        ensures
            r is None,
    {
        None
    }
}

/// A pack as MarvelCDB lists it.
#[derive(Debug, Clone)]
pub struct McdbPack {
    pub code: String,
    pub name: String,
    pub position: i64,
    pub available: Option<String>,
    pub size: Option<i64>,
}

/// A card as MarvelCDB lists it; a hidden double-sided pair is flattened into
/// a card of its own whose `back_link` names the card it backs.
#[derive(Debug, Clone)]
pub struct McdbCard {
    pub code: String,
    pub name: String,
    pub pack_code: String,
    pub position: i64,
    pub type_code: String,
    pub faction_code: String,
    pub back_link: Option<String>,
    pub hidden: Option<bool>,
    pub set_code: Option<String>,
    pub set_position: Option<i64>,
    pub stage: Option<String>,
    pub is_unique: Option<bool>,
    pub quantity: Option<i64>,
}

/// A MarvelCDB decklist: each card code with its quantity.
#[derive(Debug, Clone)]
pub struct McdbDecklist {
    pub slots: Vec<(String, i64)>,
}

/// The player card types.
pub open spec fn player_types() -> Seq<Seq<char>> {
    seq!["hero"@, "alter_ego"@, "ally"@, "event"@, "upgrade"@, "support"@, "resource"@, "player_side_scheme"@]
}

/// The encounter card types.
pub open spec fn encounter_types() -> Seq<Seq<char>> {
    seq!["minion"@, "main_scheme"@, "side_scheme"@, "attachment"@, "treachery"@, "obligation"@, "environment"@, "leader"@, "evidence_means"@, "evidence_motive"@, "evidence_opportunity"@]
}

/// The back a card type prints with: player, villain or encounter; none for
/// any other type.
pub open spec fn back_type_spec(type_code: Seq<char>) -> Option<Seq<char>> {
    if player_types().contains(type_code) {
        Some("player"@)
    } else if type_code == "villain"@ {
        Some("villain"@)
    } else if encounter_types().contains(type_code) {
        Some("encounter"@)
    } else {
        None
    }
}

fn in_list(list: &Vec<&str>, s: &str) -> (r: bool)
    ensures
        r == list@.map_values(|x: &str| x@).contains(s@),
{
    let mut i: usize = 0;
    while i < list.len()
        invariant
            i <= list@.len(),
            forall|k: int| 0 <= k < i ==> list@[k]@ != s@,
        decreases list.len() - i,
    {
        if str_eq(list[i], s) {
            assert(list@.map_values(|x: &str| x@)[i as int] == s@);
            return true;
        }
        i = i + 1;
    }
    assert(!list@.map_values(|x: &str| x@).contains(s@)) by {
        if list@.map_values(|x: &str| x@).contains(s@) {
            let m = list@.map_values(|x: &str| x@);
            let k = choose|k: int| 0 <= k < m.len() && #[trigger] m[k] == s@;
            assert(list@[k]@ == s@);
        }
    }
    false
}

/// The back a card type prints with.
pub fn back_type_for(type_code: &str) -> (r: Option<String>)
    ensures
        crate::models::opt_view(r) == back_type_spec(type_code@),
{
    let players = vec!["hero", "alter_ego", "ally", "event", "upgrade", "support", "resource", "player_side_scheme"];
    let encounters = vec!["minion", "main_scheme", "side_scheme", "attachment", "treachery", "obligation", "environment", "leader", "evidence_means", "evidence_motive", "evidence_opportunity"];
    assert(players@.map_values(|x: &str| x@) =~= player_types());
    assert(encounters@.map_values(|x: &str| x@) =~= encounter_types());
    if in_list(&players, type_code) {
        Some(owned("player"))
    } else if str_eq(type_code, "villain") {
        Some(owned("villain"))
    } else if in_list(&encounters, type_code) {
        Some(owned("encounter"))
    } else {
        None
    }
}

/// The catalog card a MarvelCDB card becomes: its faction is its side.
pub open spec fn card_row(c: McdbCard) -> (
    Seq<char>,
    Seq<char>,
    Seq<char>,
    Option<Seq<char>>,
    Option<Seq<char>>,
    Option<Seq<char>>,
    Option<Seq<char>>,
    Option<Seq<char>>,
    Option<Seq<char>>,
) {
    (c.code@, c.name@, normalize_spec(c.name@), Some(c.faction_code@), back_type_spec(c.type_code@), None, None, None, None)
}

/// The catalog version a MarvelCDB card becomes.
pub open spec fn version_row(c: McdbCard) -> (Seq<char>, Seq<char>, i64, Option<i64>, Option<Seq<char>>) {
    (c.code@, c.pack_code@, match c.quantity { Some(q) => q, None => 1i64 }, Some(c.position), None)
}

/// MarvelCDB's cards as catalog rows: one card and one version each.
pub fn build_cards_and_versions(src: &[McdbCard]) -> (r: (Vec<Card>, Vec<CardVersion>))
    ensures
        r.0@.map_values(|c: Card| card_view(c)) == src@.map_values(|x: McdbCard| card_row(x)),
        r.1@.map_values(|v: CardVersion| version_view(v)) == src@.map_values(|x: McdbCard| version_row(x)),
{
    let mut cards: Vec<Card> = Vec::new();
    let mut versions: Vec<CardVersion> = Vec::new();
    let mut i: usize = 0;
    while i < src.len()
        invariant
            i <= src@.len(),
            cards@.map_values(|c: Card| card_view(c)) == src@.take(i as int).map_values(|x: McdbCard| card_row(x)),
            versions@.map_values(|v: CardVersion| version_view(v)) == src@.take(i as int).map_values(|x: McdbCard| version_row(x)),
        decreases src.len() - i,
    {
        let c = &src[i];
        let card = card_with(c.code.clone(), c.name.clone(), Some(c.faction_code.clone()), back_type_for(c.type_code.as_str()), None);
        let ghost cb = cards@;
        let ghost vb = versions@;
        cards.push(card);
        let version = CardVersion {
            card_id: c.code.clone(),
            pack_id: c.pack_code.clone(),
            quantity: match c.quantity {
                Some(q) => q,
                None => 1,
            },
            position: Some(c.position),
            api_id: None,
        };
        versions.push(version);
        proof {
            lemma_push_map(cb, card, |c: Card| card_view(c));
            lemma_push_map(vb, version, |v: CardVersion| version_view(v));
            lemma_take_map_push(src@, i as int, |x: McdbCard| card_row(x));
            lemma_take_map_push(src@, i as int, |x: McdbCard| version_row(x));
        }
        i = i + 1;
    }
    assert(src@.take(i as int) =~= src@);
    (cards, versions)
}

/// The decklist id a MarvelCDB URL holds.
pub fn parse_marvelcdb_decklist_url(url: &str) -> (r: Result<String, ProxyNexusError>)
    ensures
        match r {
            Ok(id) => view_id_spec(url@) == Some(id@),
            Err(e) => view_id_spec(url@) is None && (e matches ProxyNexusError::Internal(m)
                && m@ == "URL must be a MarvelCDB decklist URL"@),
        },
{
    match view_id(url) {
        Some(id) => Ok(id),
        None => Err(ProxyNexusError::Internal(owned("URL must be a MarvelCDB decklist URL"))),
    }
}

/// The packs of the catalog, as the source lists them.
pub open spec fn catalog_packs_spec(packs: Seq<McdbPack>) -> Seq<(Seq<char>, Seq<char>, Option<Seq<char>>)> {
    packs.map_values(|p: McdbPack| (p.code@, p.name@, crate::models::opt_view(p.available)))
}

impl MarvelChampionsAdapter {
    /// The game's catalog from the source's packs and cards.
    pub fn build_catalog(&self, packs: &[McdbPack], cards: &[McdbCard]) -> (r: crate::catalog::Catalog)
        ensures
            r.game_id@ == "marvel_champions"@,
            r.display_name@ == "Marvel Champions"@,
            r.packs@.map_values(|p: crate::catalog::Pack| crate::catalog::pack_view(p)) == catalog_packs_spec(packs@),
        r.cards@.map_values(|c: Card| card_view(c)) == cards@.map_values(|x: McdbCard| card_row(x)),
        r.card_versions@.map_values(|v: CardVersion| version_view(v)) == cards@.map_values(|x: McdbCard| version_row(x)),
    {
        let mut ps: Vec<crate::catalog::Pack> = Vec::new();
        let mut i: usize = 0;
        while i < packs.len()
            invariant
                i <= packs@.len(),
                ps@.map_values(|p: crate::catalog::Pack| crate::catalog::pack_view(p)) == catalog_packs_spec(packs@.take(i as int)),
            decreases packs.len() - i,
        {
            let ghost b = ps@;
            let pack = crate::catalog::pack_of(&packs[i].code, &packs[i].name, &packs[i].available);
            ps.push(pack);
            proof {
                assert(ps@.map_values(|p: crate::catalog::Pack| crate::catalog::pack_view(p)) =~= b.map_values(
                    |p: crate::catalog::Pack| crate::catalog::pack_view(p),
                ).push(crate::catalog::pack_view(pack)));
                assert(catalog_packs_spec(packs@.take(i + 1)) =~= catalog_packs_spec(packs@.take(i as int)).push(
                    crate::catalog::pack_view(pack),
                ));
            }
            i = i + 1;
        }
        assert(packs@.take(i as int) =~= packs@);
        let (cs, vs) = build_cards_and_versions(cards);
        crate::catalog::Catalog {
            game_id: crate::text::owned("marvel_champions"),
            display_name: crate::text::owned("Marvel Champions"),
            packs: ps,
            cards: cs,
            card_versions: vs,
        }
    }
}

/// A card as MarvelCDB's per-pack listing gives it: a card with a hidden
/// other face (a hero's alter-ego) carries that face whole, as its linked
/// card, which the listing gives nowhere else.
#[derive(Debug)]
pub struct RawCard {
    pub code: String,
    pub name: String,
    pub pack_code: String,
    pub position: i64,
    pub type_code: String,
    pub faction_code: String,
    pub linked_to_code: Option<String>,
    pub linked_card: Option<Box<RawCard>>,
    pub quantity: Option<i64>,
    pub hidden: Option<bool>,
    pub set_code: Option<String>,
    pub set_position: Option<i64>,
    pub stage: Option<String>,
    pub is_unique: Option<bool>,
}

/// The card a listed card is, linked to the face `back_link`.
pub open spec fn mcdb_of(r: RawCard, back_link: Option<String>) -> McdbCard {
    McdbCard {
        code: r.code,
        name: r.name,
        pack_code: r.pack_code,
        position: r.position,
        type_code: r.type_code,
        faction_code: r.faction_code,
        back_link,
        hidden: r.hidden,
        set_code: r.set_code,
        set_position: r.set_position,
        stage: r.stage,
        is_unique: r.is_unique,
        quantity: r.quantity,
    }
}

impl RawCard {
    /// The card this listed card is, linked to the face `back_link`.
    pub fn into_mcdb_card(self, back_link: Option<String>) -> (r: McdbCard)
        ensures
            r == mcdb_of(self, back_link),
    {
        McdbCard {
            code: self.code,
            name: self.name,
            pack_code: self.pack_code,
            position: self.position,
            type_code: self.type_code,
            faction_code: self.faction_code,
            back_link,
            hidden: self.hidden,
            set_code: self.set_code,
            set_position: self.set_position,
            stage: self.stage,
            is_unique: self.is_unique,
            quantity: self.quantity,
        }
    }
}

/// The cards one listed card stands for: itself, linked to its other face,
/// then that face, if it carries one, linked back to it.
pub open spec fn cards_of_raw(r: RawCard) -> Seq<McdbCard> {
    let own = seq![mcdb_of(r, r.linked_to_code)];
    match r.linked_card {
        Some(l) => own.push(mcdb_of(*l, Some(r.code))),
        None => own,
    }
}

/// The cards of the first `n` listed cards.
pub open spec fn pack_cards_spec(raw: Seq<RawCard>, n: int) -> Seq<McdbCard>
    decreases n,
{
    if n <= 0 {
        Seq::empty()
    } else {
        pack_cards_spec(raw, n - 1) + cards_of_raw(raw[n - 1])
    }
}

/// A pack's listing as cards: each listed card, and after it the hidden
/// face it carries, each face linked to the other.
pub fn pack_cards(raw: Vec<RawCard>) -> (r: Vec<McdbCard>)
    ensures
        r@ == pack_cards_spec(raw@, raw@.len() as int),
{
    let ghost all = raw@;
    let mut out: Vec<McdbCard> = Vec::new();
    let mut rest = raw;
    let n = rest.len();
    let mut i: usize = 0;
    while i < n
        invariant
            n == all.len(),
            i <= n,
            rest@ == all.skip(i as int),
            out@ == pack_cards_spec(all, i as int),
        decreases n - i,
    {
        let mut card = rest.remove(0);
        assert(card == all[i as int]);
        assert(rest@ =~= all.skip(i + 1));
        let ghost orig = card;
        let linked_to = card.linked_to_code.clone();
        let own_code = card.code.clone();
        let linked = card.linked_card.take();
        let ghost before = out@;
        out.push(card.into_mcdb_card(linked_to));
        assert(mcdb_of(card, linked_to) == mcdb_of(orig, orig.linked_to_code));
        match linked {
            Some(l) => {
                out.push((*l).into_mcdb_card(Some(own_code)));
            },
            None => {},
        }
        assert(out@ =~= before + cards_of_raw(orig));
        i = i + 1;
    }
    out
}

/// Of the first `n` cards, those whose code no card before them has.
pub open spec fn first_by_code(cards: Seq<McdbCard>, n: int) -> Seq<McdbCard>
    decreases n,
{
    if n <= 0 {
        Seq::empty()
    } else if (exists|j: int| 0 <= j < n - 1 && #[trigger] cards[j].code@ == cards[n - 1].code@) {
        first_by_code(cards, n - 1)
    } else {
        first_by_code(cards, n - 1).push(cards[n - 1])
    }
}

/// The cards of the first `n` packs, pack after pack.
pub open spec fn pack_concat(packs: Seq<Vec<McdbCard>>, n: int) -> Seq<McdbCard>
    decreases n,
{
    if n <= 0 {
        Seq::empty()
    } else {
        pack_concat(packs, n - 1) + packs[n - 1]@
    }
}

/// The game's cards from each pack's cards, in pack order: a card that
/// several packs list is kept where it first appears.
pub fn merge_pack_cards(packs: Vec<Vec<McdbCard>>) -> (r: Vec<McdbCard>)
    ensures
        r@ == first_by_code(pack_concat(packs@, packs@.len() as int), pack_concat(packs@, packs@.len() as int).len() as int),
{
    let ghost ps = packs@;
    let mut flat: Vec<McdbCard> = Vec::new();
    let mut rest = packs;
    let n = rest.len();
    let mut i: usize = 0;
    while i < n
        invariant
            n == ps.len(),
            i <= n,
            rest@ == ps.skip(i as int),
            flat@ == pack_concat(ps, i as int),
        decreases n - i,
    {
        let mut pack = rest.remove(0);
        assert(pack == ps[i as int]);
        assert(rest@ =~= ps.skip(i + 1));
        flat.append(&mut pack);
        i = i + 1;
    }
    let ghost all = flat@;
    let mut seen: StringHashSet = StringHashSet::new();
    let mut out: Vec<McdbCard> = Vec::new();
    let m = flat.len();
    let mut k: usize = 0;
    assert(all.skip(0) =~= all);
    while k < m
        invariant
            m == all.len(),
            k <= m,
            flat@ == all.skip(k as int),
            out@ == first_by_code(all, k as int),
            forall|c: Seq<char>| seen@.contains(c) <==> exists|j: int| 0 <= j < k && #[trigger] all[j].code@ == c,
        decreases m - k,
    {
        let c = flat.remove(0);
        assert(c == all[k as int]);
        assert(flat@ =~= all.skip(k + 1));
        if !seen.contains(c.code.as_str()) {
            seen.insert(c.code.clone());
            out.push(c);
        }
        proof {
            assert forall|q: Seq<char>| seen@.contains(q) <==> exists|j: int| 0 <= j < k + 1 && #[trigger] all[j].code@ == q by {
                if q == all[k as int].code@ {
                    assert(all[k as int].code@ == q);
                }
            }
        }
        k = k + 1;
    }
    out
}
/// No two cards kept share a code.
pub proof fn lemma_kept_codes_are_distinct(cards: Seq<McdbCard>, n: int)
    requires
        0 <= n <= cards.len(),
    ensures
        forall|i: int, j: int|
            0 <= i < j < first_by_code(cards, n).len() ==> (#[trigger] first_by_code(cards, n)[i]).code@
                != (#[trigger] first_by_code(cards, n)[j]).code@,
        forall|i: int|
            0 <= i < first_by_code(cards, n).len() ==> exists|k: int|
                0 <= k < n && cards[k] == #[trigger] first_by_code(cards, n)[i],
    decreases n,
{
    if n > 0 {
        lemma_kept_codes_are_distinct(cards, n - 1);
        let prev = first_by_code(cards, n - 1);
        if !(exists|j: int| 0 <= j < n - 1 && #[trigger] cards[j].code@ == cards[n - 1].code@) {
            let cur = prev.push(cards[n - 1]);
            assert forall|i: int, j: int| 0 <= i < j < cur.len() implies (#[trigger] cur[i]).code@ != (#[trigger] cur[j]).code@ by {
                if j == cur.len() - 1 {
                    let k = choose|k: int| 0 <= k < n - 1 && cards[k] == prev[i];
                    assert(cards[k].code@ != cards[n - 1].code@);
                } else {
                    assert(cur[i] == prev[i] && cur[j] == prev[j]);
                }
            }
            assert forall|i: int| 0 <= i < cur.len() implies exists|k: int| 0 <= k < n && cards[k] == #[trigger] cur[i] by {
                if i == cur.len() - 1 {
                    assert(cards[n - 1] == cur[i]);
                } else {
                    let k = choose|k: int| 0 <= k < n - 1 && cards[k] == prev[i];
                    assert(cards[k] == cur[i]);
                }
            }
        } else {
            assert forall|i: int| 0 <= i < prev.len() implies exists|k: int| 0 <= k < n && cards[k] == #[trigger] prev[i] by {
                let k = choose|k: int| 0 <= k < n - 1 && cards[k] == prev[i];
            }
        }
    }
}

} // verus!
