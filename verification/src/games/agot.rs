//! A Game of Thrones.
use vstd::prelude::*;
use crate::card_source::{BoosterSpec, DecklistProvider};
use crate::card_store::{normalize_spec, normalize_title};
use crate::catalog::{card_view, new_card, plain_view, version_view, Card, CardVersion};
use crate::error::ProxyNexusError;
use crate::games::urls::{extract_path_segment, path_segment_spec};
use crate::games::GameAdapterInfo;
use crate::keyed::StrMap;
use crate::models::{Decklist, DecklistEntry};
use crate::text::{owned, push_str};

verus! {

/// The A Game of Thrones adapter.
pub struct AgotAdapter {}

impl AgotAdapter {
    /// The adapter.
    pub fn new() -> (r: Self) {
        AgotAdapter {}
    }
}

impl Default for AgotAdapter {
    fn default() -> (r: Self) {
        Self::new()
    }
}

impl GameAdapterInfo for AgotAdapter {
    fn game_id(&self) -> (r: &'static str)
        ensures
            r@ == "agot"@,
    {
        "agot"
    }

    fn game_name(&self) -> (r: &'static str)
        ensures
            r@ == "A Game of Thrones"@,
    {
        "A Game of Thrones"
    }

    fn subdomains(&self) -> (r: Vec<&'static str>)
        ensures
            r@.map_values(|s: &str| s@) == seq!["thrones"@] + seq!["agot"@],
    {
        let mut v: Vec<&'static str> = Vec::new();
        v.push("thrones");
        v.push("agot");
        proof {
            assert(v@.map_values(|s: &str| s@) =~= seq!["thrones"@] + seq!["agot"@]);
        }
        v
    }

    fn booster_spec(&self) -> (r: Option<BoosterSpec>)
        ensures
            r is None,
    {
        None
    }
}

/// A card as ThronesDB lists it.
#[derive(Debug, Clone)]
pub struct AgotCard {
    pub code: String,
    pub name: String,
    pub label: String,
    pub pack_code: String,
    pub type_code: String,
    pub quantity: i64,
    pub position: Option<i64>,
}

/// A pack as ThronesDB lists it.
#[derive(Debug, Clone)]
pub struct AgotPack {
    pub code: String,
    pub name: String,
    pub available: Option<String>,
}

/// A ThronesDB decklist: each card code with its quantity.
#[derive(Debug, Clone)]
pub struct AgotDecklist {
    pub slots: Vec<(String, u32)>,
}

/// ThronesDB's public API.
pub open spec fn thronesdb_api() -> Seq<char> {
    "https://thronesdb.com/api/public"@
}

/// The decklist id of a ThronesDB URL: after `/decklist/view/`, else after
/// `/api/public/decklist/`.
pub open spec fn thronesdb_id_spec(url: Seq<char>) -> Option<Seq<char>> {
    match path_segment_spec(url, "/decklist/view/"@) {
        Some(id) => Some(id),
        None => path_segment_spec(url, "/api/public/decklist/"@),
    }
}

/// The decklist id a ThronesDB URL holds.
pub fn parse_thronesdb_url(url: &str) -> (r: Result<String, ProxyNexusError>)
    ensures
        match r {
            Ok(id) => thronesdb_id_spec(url@) == Some(id@),
            Err(e) => thronesdb_id_spec(url@) is None && (e matches ProxyNexusError::Internal(m)
                && m@ == "Invalid ThronesDB decklist URL"@),
        },
{
    proof {
        reveal_strlit("/decklist/view/");
        reveal_strlit("/api/public/decklist/");
    }
    match extract_path_segment(url, "/decklist/view/") {
        Some(id) => Ok(id),
        None => match extract_path_segment(url, "/api/public/decklist/") {
            Some(id) => Ok(id),
            None => Err(ProxyNexusError::Internal(owned("Invalid ThronesDB decklist URL"))),
        },
    }
}

impl DecklistProvider for AgotAdapter {
    fn decklist_api_url(&self, url: &str) -> (r: Result<String, ProxyNexusError>)
        ensures
            match r {
                Ok(u) => exists|id: Seq<char>| thronesdb_id_spec(url@) == Some(id) && u@ == thronesdb_api() + "/decklist/"@ + id,
                Err(_) => thronesdb_id_spec(url@) is None,
            },
    {
        let id = parse_thronesdb_url(url)?;
        let mut u = owned("https://thronesdb.com/api/public");
        push_str(&mut u, "/decklist/");
        push_str(&mut u, id.as_str());
        assert(u@ == thronesdb_api() + "/decklist/"@ + id@);
        Ok(u)
    }
}

/// The last card of `cards`, among the first `n`, whose code is `code`: the
/// one a map from code to card keeps.
pub open spec fn last_with_code(cards: Seq<AgotCard>, code: Seq<char>, n: int) -> Option<int>
    decreases n,
{
    if n <= 0 {
        None
    } else if cards[n - 1].code@ == code {
        Some(n - 1)
    } else {
        last_with_code(cards, code, n - 1)
    }
}

/// The entry a decklist slot becomes, if its code names a card.
pub open spec fn slot_entry(cards: Seq<AgotCard>, slot: (String, u32)) -> Option<(Seq<char>, Option<Seq<char>>, u32)> {
    match last_with_code(cards, slot.0@, cards.len() as int) {
        Some(k) => Some((normalize_spec(cards[k].label@), Some(cards[k].pack_code@), slot.1)),
        None => None,
    }
}

/// The entries of the first `n` slots.
pub open spec fn decklist_spec(cards: Seq<AgotCard>, slots: Seq<(String, u32)>, n: int) -> Seq<(Seq<char>, Option<Seq<char>>, u32)>
    decreases n,
{
    if n <= 0 {
        Seq::empty()
    } else {
        decklist_spec(cards, slots, n - 1) + match slot_entry(cards, slots[n - 1]) {
            Some(e) => seq![e],
            None => Seq::empty(),
        }
    }
}

/// The texts of a decklist entry, without its position.
pub open spec fn entry_view(e: DecklistEntry) -> (Seq<char>, Option<Seq<char>>, u32) {
    (e.card_id@, crate::models::opt_view(e.pack_id), e.quantity)
}

fn find_last_code(cards: &[AgotCard], code: &str) -> (r: Option<usize>)
    ensures
        match r {
            Some(k) => last_with_code(cards@, code@, cards@.len() as int) == Some(k as int) && k < cards@.len(),
            None => last_with_code(cards@, code@, cards@.len() as int) is None,
        },
{
    let mut n: usize = cards.len();
    while n > 0
        invariant
            n <= cards@.len(),
            last_with_code(cards@, code@, cards@.len() as int) == last_with_code(cards@, code@, n as int),
        decreases n,
    {
        if crate::text::str_eq(cards[n - 1].code.as_str(), code) {
            return Some(n - 1);
        }
        n = n - 1;
    }
    None
}

/// The decklist a ThronesDB response gives: each slot whose code names a
/// card becomes an entry for that card's normalized label in its pack.
pub fn thronesdb_decklist(response: &AgotDecklist, cards: &[AgotCard]) -> (r: Decklist)
    ensures
        r.cards@.map_values(|e: DecklistEntry| entry_view(e)) == decklist_spec(cards@, response.slots@, response.slots@.len() as int),
        forall|i: int| 0 <= i < r.cards@.len() ==> (#[trigger] r.cards@[i]).position is None,
{
    let mut out: Vec<DecklistEntry> = Vec::new();
    let mut i: usize = 0;
    while i < response.slots.len()
        invariant
            i <= response.slots@.len(),
            out@.map_values(|e: DecklistEntry| entry_view(e)) == decklist_spec(cards@, response.slots@, i as int),
            forall|k: int| 0 <= k < out@.len() ==> (#[trigger] out@[k]).position is None,
        decreases response.slots.len() - i,
    {
        let (code, quantity) = &response.slots[i];
        if let Some(k) = find_last_code(cards, code.as_str()) {
            let card = &cards[k];
            out.push(DecklistEntry {
                card_id: normalize_title(card.label.as_str()),
                pack_id: Some(card.pack_code.clone()),
                quantity: *quantity,
                position: None,
            });
        }
        i = i + 1;
        assert(out@.map_values(|e: DecklistEntry| entry_view(e)) =~= decklist_spec(cards@, response.slots@, i as int));
    }
    Decklist { cards: out }
}

/// The label of card `i` was not seen among the cards before it.
pub open spec fn first_of_label(cards: Seq<AgotCard>, i: int) -> bool {
    forall|j: int| 0 <= j < i ==> normalize_spec(#[trigger] cards[j].label@) != normalize_spec(cards[i].label@)
}

/// The catalog cards of the first `n` ThronesDB cards: one per distinct
/// normalized label, in the order first met, titled by its label.
pub open spec fn catalog_cards_spec(cards: Seq<AgotCard>, n: int) -> Seq<(
    Seq<char>,
    Seq<char>,
    Seq<char>,
    Option<Seq<char>>,
    Option<Seq<char>>,
    Option<Seq<char>>,
    Option<Seq<char>>,
    Option<Seq<char>>,
    Option<Seq<char>>,
)>
    decreases n,
{
    if n <= 0 {
        Seq::empty()
    } else {
        catalog_cards_spec(cards, n - 1) + if first_of_label(cards, n - 1) {
            seq![plain_view(normalize_spec(cards[n - 1].label@), cards[n - 1].label@, Some("card"@), None)]
        } else {
            Seq::empty()
        }
    }
}

/// The version of a ThronesDB card: under its normalized label, in its pack.
pub open spec fn catalog_version_spec(c: AgotCard) -> (Seq<char>, Seq<char>, i64, Option<i64>, Option<Seq<char>>) {
    (normalize_spec(c.label@), c.pack_code@, c.quantity, c.position, None)
}

/// ThronesDB cards as catalog rows. Different cards can share a name, and
/// ThronesDB's label tells them apart, so the normalized label is the card
/// id: one card per label, one version per listed card.
pub fn build_cards_and_versions(api_cards: &[AgotCard]) -> (r: (Vec<Card>, Vec<CardVersion>))
    ensures
        r.0@.map_values(|c: Card| card_view(c)) == catalog_cards_spec(api_cards@, api_cards@.len() as int),
        r.1@.len() == api_cards@.len(),
        forall|i: int| 0 <= i < api_cards@.len() ==> version_view(#[trigger] r.1@[i]) == catalog_version_spec(api_cards@[i]),
{
    let mut seen: StrMap<bool> = StrMap::new();
    let mut cards: Vec<Card> = Vec::new();
    let mut versions: Vec<CardVersion> = Vec::new();
    let mut i: usize = 0;
    while i < api_cards.len()
        invariant
            i <= api_cards@.len(),
            seen.wf(),
            forall|k: Seq<char>| seen@.contains_key(k) <==> exists|j: int| 0 <= j < i && normalize_spec(#[trigger] api_cards@[j].label@) == k,
            cards@.map_values(|c: Card| card_view(c)) == catalog_cards_spec(api_cards@, i as int),
            versions@.len() == i,
            forall|j: int| 0 <= j < i ==> version_view(#[trigger] versions@[j]) == catalog_version_spec(api_cards@[j]),
        decreases api_cards.len() - i,
    {
        let c = &api_cards[i];
        let id = normalize_title(c.label.as_str());
        let fresh = !seen.contains_key(id.as_str());
        proof {
            if fresh {
                assert(first_of_label(api_cards@, i as int));
            } else {
                assert(!first_of_label(api_cards@, i as int));
            }
        }
        if fresh {
            let card = new_card(id.clone(), c.label.clone(), Some(owned("card")), None);
            proof {
                reveal_strlit("card");
            }
            cards.push(card);
            seen.insert(id.clone(), true);
        }
        versions.push(CardVersion {
            card_id: id,
            pack_id: c.pack_code.clone(),
            quantity: c.quantity,
            position: c.position,
            api_id: None,
        });
        proof {
            assert(cards@.map_values(|c: Card| card_view(c)) =~= catalog_cards_spec(api_cards@, i + 1));
            assert forall|k: Seq<char>| seen@.contains_key(k) <==> exists|j: int| 0 <= j < i + 1 && normalize_spec(#[trigger] api_cards@[j].label@) == k by {
                if exists|j: int| 0 <= j < i + 1 && normalize_spec(#[trigger] api_cards@[j].label@) == k {
                    let j = choose|j: int| 0 <= j < i + 1 && normalize_spec(#[trigger] api_cards@[j].label@) == k;
                    if j < i {
                        assert(exists|j: int| 0 <= j < i && normalize_spec(#[trigger] api_cards@[j].label@) == k);
                    }
                }
                if seen@.contains_key(k) && k != id@ {
                    let j = choose|j: int| 0 <= j < i && normalize_spec(#[trigger] api_cards@[j].label@) == k;
                    assert(0 <= j < i + 1);
                }
            }
        }
        i = i + 1;
    }
    (cards, versions)
}

/// The packs of the catalog, as the source lists them.
pub open spec fn catalog_packs_spec(packs: Seq<AgotPack>) -> Seq<(Seq<char>, Seq<char>, Option<Seq<char>>)> {
    packs.map_values(|p: AgotPack| (p.code@, p.name@, crate::models::opt_view(p.available)))
}

impl AgotAdapter {
    /// The game's catalog from the source's packs and cards.
    pub fn build_catalog(&self, packs: &[AgotPack], cards: &[AgotCard]) -> (r: crate::catalog::Catalog)
        ensures
            r.game_id@ == "agot"@,
            r.display_name@ == "A Game of Thrones"@,
            r.packs@.map_values(|p: crate::catalog::Pack| crate::catalog::pack_view(p)) == catalog_packs_spec(packs@),
        r.cards@.map_values(|c: Card| card_view(c)) == catalog_cards_spec(cards@, cards@.len() as int),
        r.card_versions@.len() == cards@.len(),
        forall|i: int| 0 <= i < cards@.len() ==> version_view(#[trigger] r.card_versions@[i]) == catalog_version_spec(cards@[i]),
    {
        let mut ps: Vec<crate::catalog::Pack> = Vec::new();
        let mut i: usize = 0;
        while i < packs.len()
            invariant
                i <= packs@.len(),
                ps@.map_values(|p: crate::catalog::Pack| crate::catalog::pack_view(p)) == catalog_packs_spec(packs@.take(i as int)),
            decreases packs.len() - i,
        {
            let ghost b = ps@;
            let pack = crate::catalog::pack_of(&packs[i].code, &packs[i].name, &packs[i].available);
            ps.push(pack);
            proof {
                assert(ps@.map_values(|p: crate::catalog::Pack| crate::catalog::pack_view(p)) =~= b.map_values(
                    |p: crate::catalog::Pack| crate::catalog::pack_view(p),
                ).push(crate::catalog::pack_view(pack)));
                assert(catalog_packs_spec(packs@.take(i + 1)) =~= catalog_packs_spec(packs@.take(i as int)).push(
                    crate::catalog::pack_view(pack),
                ));
            }
            i = i + 1;
        }
        assert(packs@.take(i as int) =~= packs@);
        let (cs, vs) = build_cards_and_versions(cards);
        crate::catalog::Catalog {
            game_id: crate::text::owned("agot"),
            display_name: crate::text::owned("A Game of Thrones"),
            packs: ps,
            cards: cs,
            card_versions: vs,
        }
    }
}

} // verus!
