//! Netrunner Reboot Project.
use vstd::prelude::*;
use crate::card_source::BoosterSpec;
use crate::games::GameAdapterInfo;
use crate::card_source::DecklistProvider;
use crate::card_store::{normalize_spec, normalize_title};
use crate::catalog::{card_view, new_card, plain_view, version_view, Card, CardVersion};
use crate::error::ProxyNexusError;
use crate::games::urls::{extract_path_segment, path_segment_spec};
use crate::keyed::StrMap;
use crate::models::{Decklist, DecklistEntry};
use crate::text::{chars_of, find_first, first_occurrence, owned, push_str};

verus! {

/// The Netrunner Reboot Project adapter.
pub struct NetrunnerRebootAdapter {}

impl NetrunnerRebootAdapter {
    /// The adapter.
    pub fn new() -> (r: Self) {
        NetrunnerRebootAdapter {}
    }
}

impl Default for NetrunnerRebootAdapter {
    fn default() -> (r: Self) {
        Self::new()
    }
}

impl GameAdapterInfo for NetrunnerRebootAdapter {
    fn game_id(&self) -> (r: &'static str)
        ensures
            r@ == "netrunner-reboot"@,
    {
        "netrunner-reboot"
    }

    fn game_name(&self) -> (r: &'static str)
        ensures
            r@ == "Netrunner Reboot Project"@,
    {
        "Netrunner Reboot Project"
    }

    fn subdomains(&self) -> (r: Vec<&'static str>)
        ensures
            r@.map_values(|s: &str| s@) == seq!["netrunner-reboot"@],
    {
        let mut v: Vec<&'static str> = Vec::new();
        v.push("netrunner-reboot");
        proof {
            assert(v@.map_values(|s: &str| s@) =~= seq!["netrunner-reboot"@]);
        }
        v
    }

    fn booster_spec(&self) -> (r: Option<BoosterSpec>)
        ensures
            r is None,
    {
        None
    }
}

/// A card as reteki lists it; a card and its printing are one object.
#[derive(Debug, Clone)]
pub struct RebootCard {
    pub code: String,
    pub title: String,
    pub pack_code: String,
    pub side_code: String,
    pub quantity: i64,
    pub position: Option<i64>,
}

/// A pack as reteki lists it.
#[derive(Debug, Clone)]
pub struct RebootPack {
    pub code: String,
    pub name: String,
    pub date_release: Option<String>,
}

/// A reteki deck: each card code with its quantity.
#[derive(Debug, Clone)]
pub struct RebootDeck {
    pub cards: Vec<(String, u32)>,
}

/// What reteki's API wraps its lists in.
#[derive(Debug, Clone)]
pub struct RebootResponse<T> {
    pub data: Vec<T>,
}

/// The host of reteki's NetrunnerDB.
pub open spec fn reteki_host() -> Seq<char> {
    "nrdb.reteki.fun"@
}

/// A reteki URL's deck id and API path: after `/decklist/` a published
/// decklist, after `/deck/view/` a private deck; only URLs on reteki's host.
pub open spec fn reteki_url_spec(url: Seq<char>) -> Option<(Seq<char>, Seq<char>)> {
    if first_occurrence(url, reteki_host()) is None {
        None
    } else {
        match path_segment_spec(url, "/decklist/"@) {
            Some(id) => Some((id, "decklist"@)),
            None => match path_segment_spec(url, "/deck/view/"@) {
                Some(id) => Some((id, "deck"@)),
                None => None,
            },
        }
    }
}

/// The message of a URL that is not a reteki deck.
pub open spec fn reteki_url_error() -> Seq<char> {
    "URL must be a nrdb.reteki.fun decklist or deck URL"@
}

/// The deck id and API path a reteki URL names.
pub fn parse_reteki_url(url: &str) -> (r: Result<(String, String), ProxyNexusError>)
    ensures
        match r {
            Ok((id, path)) => reteki_url_spec(url@) == Some((id@, path@)),
            Err(e) => reteki_url_spec(url@) is None && (e matches ProxyNexusError::Internal(m) && m@ == reteki_url_error()),
        },
{
    proof {
        reveal_strlit("/decklist/");
        reveal_strlit("/deck/view/");
    }
    let v = chars_of(url);
    let host = chars_of("nrdb.reteki.fun");
    if find_first(&v, &host).is_none() {
        return Err(ProxyNexusError::Internal(owned("URL must be a nrdb.reteki.fun decklist or deck URL")));
    }
    if let Some(id) = extract_path_segment(url, "/decklist/") {
        Ok((id, owned("decklist")))
    } else if let Some(id) = extract_path_segment(url, "/deck/view/") {
        Ok((id, owned("deck")))
    } else {
        Err(ProxyNexusError::Internal(owned("URL must be a nrdb.reteki.fun decklist or deck URL")))
    }
}

impl DecklistProvider for NetrunnerRebootAdapter {
    fn decklist_api_url(&self, url: &str) -> (r: Result<String, ProxyNexusError>)
        ensures
            match r {
                Ok(u) => exists|id: Seq<char>, path: Seq<char>| reteki_url_spec(url@) == Some((id, path)) && u@
                    == "https://nrdb.reteki.fun/api/2.0/public"@ + "/"@ + path + "/"@ + id,
                Err(_) => reteki_url_spec(url@) is None,
            },
    {
        let (id, path) = parse_reteki_url(url)?;
        let mut u = owned("https://nrdb.reteki.fun/api/2.0/public");
        push_str(&mut u, "/");
        push_str(&mut u, path.as_str());
        push_str(&mut u, "/");
        push_str(&mut u, id.as_str());
        assert(u@ == "https://nrdb.reteki.fun/api/2.0/public"@ + "/"@ + path@ + "/"@ + id@);
        Ok(u)
    }
}

/// The last card of `cards`, among the first `n`, whose code is `code`: the
/// one a map from code to card keeps.
pub open spec fn last_with_code(cards: Seq<RebootCard>, code: Seq<char>, n: int) -> Option<int>
    decreases n,
{
    if n <= 0 {
        None
    } else if cards[n - 1].code@ == code {
        Some(n - 1)
    } else {
        last_with_code(cards, code, n - 1)
    }
}

/// The entry a decklist slot becomes, if its code names a card.
pub open spec fn slot_entry(cards: Seq<RebootCard>, slot: (String, u32)) -> Option<(Seq<char>, Option<Seq<char>>, u32)> {
    match last_with_code(cards, slot.0@, cards.len() as int) {
        Some(k) => Some((normalize_spec(cards[k].title@), Some(cards[k].pack_code@), slot.1)),
        None => None,
    }
}

/// The entries of the first `n` slots.
pub open spec fn decklist_spec(cards: Seq<RebootCard>, slots: Seq<(String, u32)>, n: int) -> Seq<(Seq<char>, Option<Seq<char>>, u32)>
    decreases n,
{
    if n <= 0 {
        Seq::empty()
    } else {
        decklist_spec(cards, slots, n - 1) + match slot_entry(cards, slots[n - 1]) {
            Some(e) => seq![e],
            None => Seq::empty(),
        }
    }
}

/// The texts of a decklist entry, without its position.
pub open spec fn entry_view(e: DecklistEntry) -> (Seq<char>, Option<Seq<char>>, u32) {
    (e.card_id@, crate::models::opt_view(e.pack_id), e.quantity)
}

fn find_last_code(cards: &[RebootCard], code: &str) -> (r: Option<usize>)
    ensures
        match r {
            Some(k) => last_with_code(cards@, code@, cards@.len() as int) == Some(k as int) && k < cards@.len(),
            None => last_with_code(cards@, code@, cards@.len() as int) is None,
        },
{
    let mut n: usize = cards.len();
    while n > 0
        invariant
            n <= cards@.len(),
            last_with_code(cards@, code@, cards@.len() as int) == last_with_code(cards@, code@, n as int),
        decreases n,
    {
        if crate::text::str_eq(cards[n - 1].code.as_str(), code) {
            return Some(n - 1);
        }
        n = n - 1;
    }
    None
}

/// The decklist a reteki response gives: each card code that names a card
/// becomes an entry for that card's normalized title in its pack.
pub fn reteki_decklist(response: &RebootDeck, cards: &[RebootCard]) -> (r: Decklist)
    ensures
        r.cards@.map_values(|e: DecklistEntry| entry_view(e)) == decklist_spec(cards@, response.cards@, response.cards@.len() as int),
        forall|i: int| 0 <= i < r.cards@.len() ==> (#[trigger] r.cards@[i]).position is None,
{
    let mut out: Vec<DecklistEntry> = Vec::new();
    let mut i: usize = 0;
    while i < response.cards.len()
        invariant
            i <= response.cards@.len(),
            out@.map_values(|e: DecklistEntry| entry_view(e)) == decklist_spec(cards@, response.cards@, i as int),
            forall|k: int| 0 <= k < out@.len() ==> (#[trigger] out@[k]).position is None,
        decreases response.cards.len() - i,
    {
        let (code, quantity) = &response.cards[i];
        if let Some(k) = find_last_code(cards, code.as_str()) {
            let card = &cards[k];
            out.push(DecklistEntry {
                card_id: normalize_title(card.title.as_str()),
                pack_id: Some(card.pack_code.clone()),
                quantity: *quantity,
                position: None,
            });
        }
        i = i + 1;
        assert(out@.map_values(|e: DecklistEntry| entry_view(e)) =~= decklist_spec(cards@, response.cards@, i as int));
    }
    Decklist { cards: out }
}

/// The title of card `i` was not seen among the cards before it.
pub open spec fn first_of_title(cards: Seq<RebootCard>, i: int) -> bool {
    forall|j: int| 0 <= j < i ==> normalize_spec(#[trigger] cards[j].title@) != normalize_spec(cards[i].title@)
}

/// The catalog cards of the first `n` reteki cards: one per distinct
/// normalized title, in the order first met, with its side as back group.
pub open spec fn catalog_cards_spec(cards: Seq<RebootCard>, n: int) -> Seq<(
    Seq<char>,
    Seq<char>,
    Seq<char>,
    Option<Seq<char>>,
    Option<Seq<char>>,
    Option<Seq<char>>,
    Option<Seq<char>>,
    Option<Seq<char>>,
    Option<Seq<char>>,
)>
    decreases n,
{
    if n <= 0 {
        Seq::empty()
    } else {
        catalog_cards_spec(cards, n - 1) + if first_of_title(cards, n - 1) {
            seq![plain_view(normalize_spec(cards[n - 1].title@), cards[n - 1].title@, Some(cards[n - 1].side_code@), None)]
        } else {
            Seq::empty()
        }
    }
}

/// The version of a reteki card: under its normalized title, in its pack.
pub open spec fn catalog_version_spec(c: RebootCard) -> (Seq<char>, Seq<char>, i64, Option<i64>, Option<Seq<char>>) {
    (normalize_spec(c.title@), c.pack_code@, c.quantity, c.position, None)
}

/// reteki cards as catalog rows. reteki runs the NetrunnerDB v2 API, where a
/// card and its printing are one object, so a reprint arrives twice under one
/// title: cards are collected by normalized title, and every printing is a
/// version.
pub fn build_cards_and_versions(api_cards: &[RebootCard]) -> (r: (Vec<Card>, Vec<CardVersion>))
    ensures
        r.0@.map_values(|c: Card| card_view(c)) == catalog_cards_spec(api_cards@, api_cards@.len() as int),
        r.1@.len() == api_cards@.len(),
        forall|i: int| 0 <= i < api_cards@.len() ==> version_view(#[trigger] r.1@[i]) == catalog_version_spec(api_cards@[i]),
{
    let mut seen: StrMap<bool> = StrMap::new();
    let mut cards: Vec<Card> = Vec::new();
    let mut versions: Vec<CardVersion> = Vec::new();
    let mut i: usize = 0;
    while i < api_cards.len()
        invariant
            i <= api_cards@.len(),
            seen.wf(),
            forall|k: Seq<char>| seen@.contains_key(k) <==> exists|j: int| 0 <= j < i && normalize_spec(#[trigger] api_cards@[j].title@) == k,
            cards@.map_values(|c: Card| card_view(c)) == catalog_cards_spec(api_cards@, i as int),
            versions@.len() == i,
            forall|j: int| 0 <= j < i ==> version_view(#[trigger] versions@[j]) == catalog_version_spec(api_cards@[j]),
        decreases api_cards.len() - i,
    {
        let c = &api_cards[i];
        let id = normalize_title(c.title.as_str());
        let fresh = !seen.contains_key(id.as_str());
        proof {
            if fresh {
                assert(first_of_title(api_cards@, i as int));
            } else {
                assert(!first_of_title(api_cards@, i as int));
            }
        }
        if fresh {
            let card = new_card(id.clone(), c.title.clone(), Some(c.side_code.clone()), None);
            cards.push(card);
            seen.insert(id.clone(), true);
        }
        versions.push(CardVersion {
            card_id: id,
            pack_id: c.pack_code.clone(),
            quantity: c.quantity,
            position: c.position,
            api_id: None,
        });
        proof {
            assert(cards@.map_values(|c: Card| card_view(c)) =~= catalog_cards_spec(api_cards@, i + 1));
            assert forall|k: Seq<char>| seen@.contains_key(k) <==> exists|j: int| 0 <= j < i + 1 && normalize_spec(#[trigger] api_cards@[j].title@) == k by {
                if exists|j: int| 0 <= j < i + 1 && normalize_spec(#[trigger] api_cards@[j].title@) == k {
                    let j = choose|j: int| 0 <= j < i + 1 && normalize_spec(#[trigger] api_cards@[j].title@) == k;
                    if j < i {
                        assert(exists|j: int| 0 <= j < i && normalize_spec(#[trigger] api_cards@[j].title@) == k);
                    }
                }
                if seen@.contains_key(k) && k != id@ {
                    let j = choose|j: int| 0 <= j < i && normalize_spec(#[trigger] api_cards@[j].title@) == k;
                    assert(0 <= j < i + 1);
                }
            }
        }
        i = i + 1;
    }
    (cards, versions)
}

/// The packs of the catalog, as the source lists them.
pub open spec fn catalog_packs_spec(packs: Seq<RebootPack>) -> Seq<(Seq<char>, Seq<char>, Option<Seq<char>>)> {
    packs.map_values(|p: RebootPack| (p.code@, p.name@, crate::models::opt_view(p.date_release)))
}

impl NetrunnerRebootAdapter {
    /// The game's catalog from the source's packs and cards.
    pub fn build_catalog(&self, packs: &[RebootPack], cards: &[RebootCard]) -> (r: crate::catalog::Catalog)
        ensures
            r.game_id@ == "netrunner-reboot"@,
            r.display_name@ == "Netrunner Reboot Project"@,
            r.packs@.map_values(|p: crate::catalog::Pack| crate::catalog::pack_view(p)) == catalog_packs_spec(packs@),
        r.cards@.map_values(|c: Card| card_view(c)) == catalog_cards_spec(cards@, cards@.len() as int),
        r.card_versions@.len() == cards@.len(),
        forall|i: int| 0 <= i < cards@.len() ==> version_view(#[trigger] r.card_versions@[i]) == catalog_version_spec(cards@[i]),
    {
        let mut ps: Vec<crate::catalog::Pack> = Vec::new();
        let mut i: usize = 0;
        while i < packs.len()
            invariant
                i <= packs@.len(),
                ps@.map_values(|p: crate::catalog::Pack| crate::catalog::pack_view(p)) == catalog_packs_spec(packs@.take(i as int)),
            decreases packs.len() - i,
        {
            let ghost b = ps@;
            let pack = crate::catalog::pack_of(&packs[i].code, &packs[i].name, &packs[i].date_release);
            ps.push(pack);
            proof {
                assert(ps@.map_values(|p: crate::catalog::Pack| crate::catalog::pack_view(p)) =~= b.map_values(
                    |p: crate::catalog::Pack| crate::catalog::pack_view(p),
                ).push(crate::catalog::pack_view(pack)));
                assert(catalog_packs_spec(packs@.take(i + 1)) =~= catalog_packs_spec(packs@.take(i as int)).push(
                    crate::catalog::pack_view(pack),
                ));
            }
            i = i + 1;
        }
        assert(packs@.take(i as int) =~= packs@);
        let (cs, vs) = build_cards_and_versions(cards);
        crate::catalog::Catalog {
            game_id: crate::text::owned("netrunner-reboot"),
            display_name: crate::text::owned("Netrunner Reboot Project"),
            packs: ps,
            cards: cs,
            card_versions: vs,
        }
    }
}

} // verus!
