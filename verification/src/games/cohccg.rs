//! City of Heroes CCG.
use vstd::prelude::*;
use crate::card_source::{BoosterSlot, BoosterSpec};
use crate::games::GameAdapterInfo;
use crate::card_store::normalize_spec;
use crate::catalog::{card_view, card_with, version_view, Card, CardVersion};
use crate::text::{owned, trim, trim_spec};

verus! {

/// The City of Heroes CCG adapter.
pub struct CohAdapter {}

impl CohAdapter {
    /// The adapter.
    pub fn new() -> (r: Self) {
        CohAdapter {}
    }
}

impl Default for CohAdapter {
    fn default() -> (r: Self) {
        Self::new()
    }
}

impl GameAdapterInfo for CohAdapter {
    fn game_id(&self) -> (r: &'static str)
        ensures
            r@ == "cohccg"@,
    {
        "cohccg"
    }

    fn game_name(&self) -> (r: &'static str)
        ensures
            r@ == "City of Heroes CCG"@,
    {
        "City of Heroes CCG"
    }

    fn subdomains(&self) -> (r: Vec<&'static str>)
        ensures
            r@.map_values(|s: &str| s@) == seq!["cohccg"@],
    {
        let mut v: Vec<&'static str> = Vec::new();
        v.push("cohccg");
        proof {
            assert(v@.map_values(|s: &str| s@) =~= seq!["cohccg"@]);
        }
        v
    }

    fn booster_spec(&self) -> (r: Option<BoosterSpec>)
        ensures
            r matches Some(b) && b.slots@.len() == 3 && b.slots@[0].rarity@ == "common"@ && b.slots@[0].count == 7
                && b.slots@[1].rarity@ == "uncommon"@ && b.slots@[1].count == 3 && b.slots@[2].rarity@ == "rare"@
                && b.slots@[2].count == 1,
    {
        let mut slots: Vec<BoosterSlot> = Vec::new();
        slots.push(BoosterSlot { rarity: owned("common"), count: 7 });
        slots.push(BoosterSlot { rarity: owned("uncommon"), count: 3 });
        slots.push(BoosterSlot { rarity: owned("rare"), count: 1 });
        Some(BoosterSpec { slots })
    }
}

/// A set of the bundled City of Heroes catalog.
#[derive(Debug, Clone)]
pub struct CohPack {
    pub code: String,
    pub name: String,
    pub position: i64,
    pub available: Option<String>,
}

/// A card of the bundled City of Heroes catalog.
#[derive(Debug, Clone)]
pub struct CohCard {
    pub id: String,
    pub name: String,
    pub pack_code: String,
    /// Collector number within the set.
    pub number: i64,
    pub card_type: String,
    pub rarity: String,
}

/// The catalog card CohCard `c` becomes.
pub open spec fn card_row(c: CohCard) -> (
    Seq<char>,
    Seq<char>,
    Seq<char>,
    Option<Seq<char>>,
    Option<Seq<char>>,
    Option<Seq<char>>,
    Option<Seq<char>>,
    Option<Seq<char>>,
    Option<Seq<char>>,
) {
    (c.id@, c.name@, normalize_spec(c.name@), None, Some("card"@), Some(c.rarity@), None, None, None)
}

/// The catalog version CohCard `c` becomes.
pub open spec fn version_row(c: CohCard) -> (Seq<char>, Seq<char>, i64, Option<i64>, Option<Seq<char>>) {
    (c.id@, c.pack_code@, 1i64, Some(c.number), None)
}

/// The bundled card list as catalog rows. A collectible game sells singles,
/// so every version is one copy, placed by its collector number.
pub fn build_cards_and_versions(src: &[CohCard]) -> (r: (Vec<Card>, Vec<CardVersion>))
    ensures
        r.0@.map_values(|c: Card| card_view(c)) == src@.map_values(|x: CohCard| card_row(x)),
        r.1@.map_values(|v: CardVersion| version_view(v)) == src@.map_values(|x: CohCard| version_row(x)),
{
    let mut cards: Vec<Card> = Vec::new();
    let mut versions: Vec<CardVersion> = Vec::new();
    let mut i: usize = 0;
    while i < src.len()
        invariant
            i <= src@.len(),
            cards@.len() == i,
            versions@.len() == i,
            cards@.map_values(|c: Card| card_view(c)) == src@.take(i as int).map_values(|x: CohCard| card_row(x)),
            versions@.map_values(|v: CardVersion| version_view(v)) == src@.take(i as int).map_values(|x: CohCard| version_row(x)),
        decreases src.len() - i,
    {
        let c = &src[i];
        let card = card_with(c.id.clone(), c.name.clone(), None, Some(owned("card")), Some(c.rarity.clone()));
        proof {
            reveal_strlit("card");
        }
        assert(card_view(card) == card_row(*c));
        let ghost cb = cards@;
        let ghost vb = versions@;
        cards.push(card);
        versions.push(CardVersion {
            card_id: c.id.clone(),
            pack_id: c.pack_code.clone(),
            quantity: 1,
            position: Some(c.number),
            api_id: None,
        });
        proof {
            assert(src@.take(i + 1) =~= src@.take(i as int).push(src@[i as int]));
            assert(version_view(versions@[i as int]) == version_row(src@[i as int]));
            assert(cards@.map_values(|c: Card| card_view(c)) =~= cb.map_values(|c: Card| card_view(c)).push(card_view(cards@[i as int])));
            assert(versions@.map_values(|v: CardVersion| version_view(v)) =~= vb.map_values(|v: CardVersion| version_view(v)).push(version_view(versions@[i as int])));
            assert(src@.take(i + 1).map_values(|x: CohCard| card_row(x)) =~= src@.take(i as int).map_values(|x: CohCard| card_row(x)).push(card_row(src@[i as int])));
            assert(src@.take(i + 1).map_values(|x: CohCard| version_row(x)) =~= src@.take(i as int).map_values(|x: CohCard| version_row(x)).push(version_row(src@[i as int])));
        }
        i = i + 1;
        assert(cards@.map_values(|c: Card| card_view(c)) =~= src@.take(i as int).map_values(|x: CohCard| card_row(x)));
        assert(versions@.map_values(|v: CardVersion| version_view(v)) =~= src@.take(i as int).map_values(|x: CohCard| version_row(x)));
    }
    assert(src@.take(i as int) =~= src@);
    (cards, versions)
}

/// The packs of the catalog, as the source lists them.
pub open spec fn catalog_packs_spec(packs: Seq<CohPack>) -> Seq<(Seq<char>, Seq<char>, Option<Seq<char>>)> {
    packs.map_values(|p: CohPack| (p.code@, p.name@, crate::models::opt_view(p.available)))
}

impl CohAdapter {
    /// The game's catalog from the source's packs and cards.
    pub fn build_catalog(&self, packs: &[CohPack], cards: &[CohCard]) -> (r: crate::catalog::Catalog)
        ensures
            r.game_id@ == "cohccg"@,
            r.display_name@ == "City of Heroes CCG"@,
            r.packs@.map_values(|p: crate::catalog::Pack| crate::catalog::pack_view(p)) == catalog_packs_spec(packs@),
        r.cards@.map_values(|c: Card| card_view(c)) == cards@.map_values(|x: CohCard| card_row(x)),
        r.card_versions@.map_values(|v: CardVersion| version_view(v)) == cards@.map_values(|x: CohCard| version_row(x)),
    {
        let mut ps: Vec<crate::catalog::Pack> = Vec::new();
        let mut i: usize = 0;
        while i < packs.len()
            invariant
                i <= packs@.len(),
                ps@.map_values(|p: crate::catalog::Pack| crate::catalog::pack_view(p)) == catalog_packs_spec(packs@.take(i as int)),
            decreases packs.len() - i,
        {
            let ghost b = ps@;
            let pack = crate::catalog::pack_of(&packs[i].code, &packs[i].name, &packs[i].available);
            ps.push(pack);
            proof {
                assert(ps@.map_values(|p: crate::catalog::Pack| crate::catalog::pack_view(p)) =~= b.map_values(
                    |p: crate::catalog::Pack| crate::catalog::pack_view(p),
                ).push(crate::catalog::pack_view(pack)));
                assert(catalog_packs_spec(packs@.take(i + 1)) =~= catalog_packs_spec(packs@.take(i as int)).push(
                    crate::catalog::pack_view(pack),
                ));
            }
            i = i + 1;
        }
        assert(packs@.take(i as int) =~= packs@);
        let (cs, vs) = build_cards_and_versions(cards);
        crate::catalog::Catalog {
            game_id: crate::text::owned("cohccg"),
            display_name: crate::text::owned("City of Heroes CCG"),
            packs: ps,
            cards: cs,
            card_versions: vs,
        }
    }
}

} // verus!
