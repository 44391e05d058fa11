//! Legend of the Five Rings.
use vstd::prelude::*;
use crate::card_source::BoosterSpec;
use crate::games::GameAdapterInfo;
use crate::card_source::DecklistProvider;
use crate::card_store::normalize_spec;
use crate::catalog::{card_view, card_with, version_view};
use crate::error::ProxyNexusError;
use crate::games::urls::{before_any, before_any_of, split_second, split_second_of, trim_end_char, trim_end_of};
use crate::models::{Decklist, DecklistEntry};
use crate::text::{chars_of, owned, parse_i64, parse_i64_spec, push_str, string_of};

verus! {

/// The Legend of the Five Rings adapter.
pub struct L5rAdapter {}

impl L5rAdapter {
    /// The adapter.
    pub fn new() -> (r: Self) {
        L5rAdapter {}
    }
}

impl Default for L5rAdapter {
    fn default() -> (r: Self) {
        Self::new()
    }
}

impl GameAdapterInfo for L5rAdapter {
    fn game_id(&self) -> (r: &'static str)
        ensures
            r@ == "l5r"@,
    {
        "l5r"
    }

    fn game_name(&self) -> (r: &'static str)
        ensures
            r@ == "Legend of the Five Rings"@,
    {
        "Legend of the Five Rings"
    }

    fn subdomains(&self) -> (r: Vec<&'static str>)
        ensures
            r@.map_values(|s: &str| s@) == Seq::<Seq<char>>::empty(),
    {
        let mut v: Vec<&'static str> = Vec::new();

        proof {
            assert(v@.map_values(|s: &str| s@) =~= Seq::<Seq<char>>::empty());
        }
        v
    }

    fn booster_spec(&self) -> (r: Option<BoosterSpec>)
        ensures
            r is None,
    {
        None
    }
}

/// A card as EmeraldDB lists it, with its printings.
#[derive(Debug, Clone)]
pub struct Card {
    pub id: String,
    pub name: String,
    pub name_extra: Option<String>,
    pub side: String,
    pub type_: String,
    pub versions: Vec<CardVersion>,
}

/// One pack's printing of an EmeraldDB card.
#[derive(Debug, Clone)]
pub struct CardVersion {
    pub card_id: String,
    pub pack_id: String,
    pub image_url: Option<String>,
    pub position: Option<String>,
    pub quantity: i64,
}

/// A pack as EmeraldDB lists it.
#[derive(Debug, Clone)]
pub struct Pack {
    pub id: String,
    pub name: String,
    pub released_at: Option<String>,
    pub cycle_id: String,
}

/// An EmeraldDB decklist: each card id with its quantity.
#[derive(Debug, Clone)]
pub struct EmeraldDbDecklist {
    pub cards: Vec<(String, u32)>,
}

/// A card's title: its name, with a non-empty extra name in parentheses.
pub open spec fn build_title_spec(name: Seq<char>, extra: Option<Seq<char>>) -> Seq<char> {
    match extra {
        Some(e) => if e.len() > 0 {
            name + " ("@ + e + ")"@
        } else {
            name
        },
        None => name,
    }
}

/// A card's title: its name, with a non-empty extra name in parentheses.
pub fn build_title(name: &str, name_extra: Option<&str>) -> (r: String)
    ensures
        r@ == build_title_spec(name@, match name_extra { Some(e) => Some(e@), None => None }),
{
    let mut t = owned(name);
    if let Some(extra) = name_extra {
        if extra.unicode_len() > 0 {
            push_str(&mut t, " (");
            push_str(&mut t, extra);
            push_str(&mut t, ")");
        }
    }
    t
}

/// A position as EmeraldDB spells it, read as a number if it is one.
pub fn parse_position(s: Option<&str>) -> (r: Option<i64>)
    ensures
        r == match s {
            Some(v) => parse_i64_spec(v@),
            None => None,
        },
{
    match s {
        Some(v) => parse_i64(&chars_of(v)),
        None => None,
    }
}

/// The catalog card an EmeraldDB card becomes.
pub open spec fn card_row(c: Card) -> (
    Seq<char>,
    Seq<char>,
    Seq<char>,
    Option<Seq<char>>,
    Option<Seq<char>>,
    Option<Seq<char>>,
    Option<Seq<char>>,
    Option<Seq<char>>,
    Option<Seq<char>>,
) {
    let title = build_title_spec(c.name@, crate::models::opt_view(c.name_extra));
    (c.id@, title, normalize_spec(title), Some(c.side@), None, None, None, None, None)
}

/// The catalog versions of an EmeraldDB card.
pub open spec fn versions_of(c: Card) -> Seq<(Seq<char>, Seq<char>, i64, Option<i64>, Option<Seq<char>>)> {
    c.versions@.map_values(|v: CardVersion| (v.card_id@, v.pack_id@, v.quantity, match v.position {
        Some(p) => parse_i64_spec(p@),
        None => None,
    }, None::<Seq<char>>))
}

/// The versions of the first `n` cards, card after card.
pub open spec fn all_versions(cs: Seq<Card>, n: int) -> Seq<(Seq<char>, Seq<char>, i64, Option<i64>, Option<Seq<char>>)>
    decreases n,
{
    if n <= 0 {
        Seq::empty()
    } else {
        all_versions(cs, n - 1) + versions_of(cs[n - 1])
    }
}

/// EmeraldDB's cards as catalog rows: the side is kept, the title carries the
/// extra name, and each printing becomes a version placed by its position.
pub fn build_cards_and_versions(src: &[Card]) -> (r: (Vec<crate::catalog::Card>, Vec<crate::catalog::CardVersion>))
    ensures
        r.0@.map_values(|c: crate::catalog::Card| card_view(c)) == src@.map_values(|x: Card| card_row(x)),
        r.1@.map_values(|v: crate::catalog::CardVersion| version_view(v)) == all_versions(src@, src@.len() as int),
{
    let mut cards: Vec<crate::catalog::Card> = Vec::new();
    let mut versions: Vec<crate::catalog::CardVersion> = Vec::new();
    let mut i: usize = 0;
    while i < src.len()
        invariant
            i <= src@.len(),
            cards@.len() == i,
            cards@.map_values(|c: crate::catalog::Card| card_view(c)) == src@.take(i as int).map_values(|x: Card| card_row(x)),
            versions@.map_values(|v: crate::catalog::CardVersion| version_view(v)) == all_versions(src@, i as int),
        decreases src.len() - i,
    {
        let c = &src[i];
        let extra = match &c.name_extra {
            Some(e) => Some(e.as_str()),
            None => None,
        };
        let title = build_title(c.name.as_str(), extra);
        let card = card_with(c.id.clone(), title, Some(c.side.clone()), None, None);
        let ghost cb = cards@;
        cards.push(card);
        let ghost vb = versions@.map_values(|v: crate::catalog::CardVersion| version_view(v));
        let mut k: usize = 0;
        while k < c.versions.len()
            invariant
                k <= c.versions@.len(),
                versions@.map_values(|v: crate::catalog::CardVersion| version_view(v)) == vb + versions_of(*c).take(k as int),
            decreases c.versions.len() - k,
        {
            let v = &c.versions[k];
            let position = match &v.position {
                Some(p) => parse_position(Some(p.as_str())),
                None => None,
            };
            let ghost wb = versions@;
            versions.push(crate::catalog::CardVersion {
                card_id: v.card_id.clone(),
                pack_id: v.pack_id.clone(),
                quantity: v.quantity,
                position,
                api_id: None,
            });
            proof {
                assert(versions@.map_values(|v: crate::catalog::CardVersion| version_view(v)) =~= wb.map_values(|v: crate::catalog::CardVersion| version_view(v)).push(version_view(versions@[wb.len() as int])));
                assert(versions_of(*c).take(k + 1) =~= versions_of(*c).take(k as int).push(versions_of(*c)[k as int]));
            }
            k = k + 1;
            assert(versions@.map_values(|v: crate::catalog::CardVersion| version_view(v)) =~= vb + versions_of(*c).take(k as int));
        }
        proof {
            assert(versions_of(*c).take(k as int) =~= versions_of(*c));
            assert(src@.take(i + 1) =~= src@.take(i as int).push(src@[i as int]));
            assert(cards@.map_values(|c: crate::catalog::Card| card_view(c)) =~= cb.map_values(|c: crate::catalog::Card| card_view(c)).push(card_view(cards@[i as int])));
            assert(src@.take(i + 1).map_values(|x: Card| card_row(x)) =~= src@.take(i as int).map_values(|x: Card| card_row(x)).push(card_row(src@[i as int])));
        }
        i = i + 1;
    }
    assert(src@.take(i as int) =~= src@);
    (cards, versions)
}

/// The decklist id of an EmeraldDB URL: what follows `/decklists/`, less
/// trailing `/`, up to the next `/`; `None` when absent or empty.
pub open spec fn emeralddb_id_spec(url: Seq<char>) -> Option<Seq<char>> {
    match split_second(url, "/decklists/"@) {
        Some(s) => {
            let id = before_any(trim_end_char(s, '/'), seq!['/']);
            if id.len() > 0 {
                Some(id)
            } else {
                None
            }
        },
        None => None,
    }
}

/// The decklist id an EmeraldDB URL holds.
pub fn parse_emeralddb_url(url: &str) -> (r: Result<String, ProxyNexusError>)
    ensures
        match r {
            Ok(id) => emeralddb_id_spec(url@) == Some(id@),
            Err(e) => emeralddb_id_spec(url@) is None && (e matches ProxyNexusError::Internal(m)
                && m@ == "Invalid EmeraldDB decklist URL"@),
        },
{
    let v = chars_of(url);
    let sep = chars_of("/decklists/");
    proof {
        reveal_strlit("/decklists/");
    }
    let mut stops: Vec<char> = Vec::new();
    stops.push('/');
    assert(stops@ =~= seq!['/']);
    match split_second_of(&v, &sep) {
        Some(s) => {
            let t = trim_end_of(&s, '/');
            let id = before_any_of(&t, &stops);
            if id.len() > 0 {
                return Ok(string_of(&id));
            }
        },
        None => {},
    }
    Err(ProxyNexusError::Internal(owned("Invalid EmeraldDB decklist URL")))
}

impl DecklistProvider for L5rAdapter {
    fn decklist_api_url(&self, url: &str) -> (r: Result<String, ProxyNexusError>)
        ensures
            match r {
                Ok(u) => exists|id: Seq<char>| emeralddb_id_spec(url@) == Some(id) && u@ == "https://www.emeralddb.org/api/decklists/"@ + id,
                Err(_) => emeralddb_id_spec(url@) is None,
            },
    {
        let id = parse_emeralddb_url(url)?;
        let mut u = owned("https://www.emeralddb.org/api/decklists/");
        push_str(&mut u, id.as_str());
        assert(u@ == "https://www.emeralddb.org/api/decklists/"@ + id@);
        Ok(u)
    }
}

/// The decklist an EmeraldDB response gives: one entry per card, with no
/// pack and no position.
pub fn emeralddb_decklist(response: &EmeraldDbDecklist) -> (r: Decklist)
    ensures
        r.cards@.len() == response.cards@.len(),
        forall|i: int| 0 <= i < r.cards@.len() ==> (#[trigger] r.cards@[i]).card_id@ == response.cards@[i].0@
            && r.cards@[i].quantity == response.cards@[i].1 && r.cards@[i].pack_id is None && r.cards@[i].position is None,
{
    let mut out: Vec<DecklistEntry> = Vec::new();
    let mut i: usize = 0;
    while i < response.cards.len()
        invariant
            i <= response.cards@.len(),
            out@.len() == i,
            forall|k: int| 0 <= k < i ==> (#[trigger] out@[k]).card_id@ == response.cards@[k].0@
                && out@[k].quantity == response.cards@[k].1 && out@[k].pack_id is None && out@[k].position is None,
        decreases response.cards.len() - i,
    {
        out.push(DecklistEntry {
            card_id: response.cards[i].0.clone(),
            pack_id: None,
            quantity: response.cards[i].1,
            position: None,
        });
        i = i + 1;
    }
    Decklist { cards: out }
}

/// The packs of the catalog, as the source lists them.
pub open spec fn catalog_packs_spec(packs: Seq<Pack>) -> Seq<(Seq<char>, Seq<char>, Option<Seq<char>>)> {
    packs.map_values(|p: Pack| (p.id@, p.name@, crate::models::opt_view(p.released_at)))
}

impl L5rAdapter {
    /// The game's catalog from the source's packs and cards.
    pub fn build_catalog(&self, packs: &[Pack], cards: &[Card]) -> (r: crate::catalog::Catalog)
        ensures
            r.game_id@ == "l5r"@,
            r.display_name@ == "Legend of the Five Rings"@,
            r.packs@.map_values(|p: crate::catalog::Pack| crate::catalog::pack_view(p)) == catalog_packs_spec(packs@),
        r.cards@.map_values(|c: crate::catalog::Card| card_view(c)) == cards@.map_values(|x: Card| card_row(x)),
        r.card_versions@.map_values(|v: crate::catalog::CardVersion| version_view(v)) == all_versions(cards@, cards@.len() as int),
    {
        let mut ps: Vec<crate::catalog::Pack> = Vec::new();
        let mut i: usize = 0;
        while i < packs.len()
            invariant
                i <= packs@.len(),
                ps@.map_values(|p: crate::catalog::Pack| crate::catalog::pack_view(p)) == catalog_packs_spec(packs@.take(i as int)),
            decreases packs.len() - i,
        {
            let ghost b = ps@;
            let pack = crate::catalog::pack_of(&packs[i].id, &packs[i].name, &packs[i].released_at);
            ps.push(pack);
            proof {
                assert(ps@.map_values(|p: crate::catalog::Pack| crate::catalog::pack_view(p)) =~= b.map_values(
                    |p: crate::catalog::Pack| crate::catalog::pack_view(p),
                ).push(crate::catalog::pack_view(pack)));
                assert(catalog_packs_spec(packs@.take(i + 1)) =~= catalog_packs_spec(packs@.take(i as int)).push(
                    crate::catalog::pack_view(pack),
                ));
            }
            i = i + 1;
        }
        assert(packs@.take(i as int) =~= packs@);
        let (cs, vs) = build_cards_and_versions(cards);
        crate::catalog::Catalog {
            game_id: crate::text::owned("l5r"),
            display_name: crate::text::owned("Legend of the Five Rings"),
            packs: ps,
            cards: cs,
            card_versions: vs,
        }
    }
}

} // verus!
