//! Warhammer 40k Conquest.
use vstd::prelude::*;
use crate::card_source::BoosterSpec;
use crate::games::GameAdapterInfo;
use crate::card_store::normalize_spec;
use crate::catalog::{card_view, card_with, version_view, Card, CardVersion};
use crate::text::{owned, trim, trim_spec};

verus! {

/// The Warhammer 40k Conquest adapter.
pub struct WhcAdapter {}

impl WhcAdapter {
    /// The adapter.
    pub fn new() -> (r: Self) {
        WhcAdapter {}
    }
}

impl Default for WhcAdapter {
    fn default() -> (r: Self) {
        Self::new()
    }
}

impl GameAdapterInfo for WhcAdapter {
    fn game_id(&self) -> (r: &'static str)
        ensures
            r@ == "whconquest"@,
    {
        "whconquest"
    }

    fn game_name(&self) -> (r: &'static str)
        ensures
            r@ == "Warhammer 40k Conquest"@,
    {
        "Warhammer 40k Conquest"
    }

    fn subdomains(&self) -> (r: Vec<&'static str>)
        ensures
            r@.map_values(|s: &str| s@) == seq!["whconquest"@],
    {
        let mut v: Vec<&'static str> = Vec::new();
        v.push("whconquest");
        proof {
            assert(v@.map_values(|s: &str| s@) =~= seq!["whconquest"@]);
        }
        v
    }

    fn booster_spec(&self) -> (r: Option<BoosterSpec>)
        ensures
            r is None,
    {
        None
    }
}

/// A pack of the bundled Warhammer 40k Conquest catalog.
#[derive(Debug, Clone)]
pub struct WhcPack {
    pub code: String,
    pub name: String,
    pub date_release: Option<String>,
}

/// A card of the bundled Warhammer 40k Conquest catalog.
#[derive(Debug, Clone)]
pub struct WhcCard {
    pub unique_id: String,
    pub name: String,
    pub pack_code: String,
    pub card_type: String,
    pub faction: String,
    pub card_number: Option<i64>,
    pub card_quantity: i64,
}

/// The catalog card WhcCard `c` becomes.
pub open spec fn card_row(c: WhcCard) -> (
    Seq<char>,
    Seq<char>,
    Seq<char>,
    Option<Seq<char>>,
    Option<Seq<char>>,
    Option<Seq<char>>,
    Option<Seq<char>>,
    Option<Seq<char>>,
    Option<Seq<char>>,
) {
    (c.unique_id@, trim_spec(c.name@), normalize_spec(trim_spec(c.name@)), None, Some("card"@), None, None, None, None)
}

/// The catalog version WhcCard `c` becomes.
pub open spec fn version_row(c: WhcCard) -> (Seq<char>, Seq<char>, i64, Option<i64>, Option<Seq<char>>) {
    (c.unique_id@, c.pack_code@, c.card_quantity, c.card_number, None)
}

/// The bundled card list as catalog rows, titled by the trimmed name; every
/// card type shares the one back.
pub fn build_cards_and_versions(src: &[WhcCard]) -> (r: (Vec<Card>, Vec<CardVersion>))
    ensures
        r.0@.map_values(|c: Card| card_view(c)) == src@.map_values(|x: WhcCard| card_row(x)),
        r.1@.map_values(|v: CardVersion| version_view(v)) == src@.map_values(|x: WhcCard| version_row(x)),
{
    let mut cards: Vec<Card> = Vec::new();
    let mut versions: Vec<CardVersion> = Vec::new();
    let mut i: usize = 0;
    while i < src.len()
        invariant
            i <= src@.len(),
            cards@.len() == i,
            versions@.len() == i,
            cards@.map_values(|c: Card| card_view(c)) == src@.take(i as int).map_values(|x: WhcCard| card_row(x)),
            versions@.map_values(|v: CardVersion| version_view(v)) == src@.take(i as int).map_values(|x: WhcCard| version_row(x)),
        decreases src.len() - i,
    {
        let c = &src[i];
        let title = trim(c.name.as_str());
        let card = card_with(c.unique_id.clone(), owned(title), None, Some(owned("card")), None);
        proof {
            reveal_strlit("card");
        }
        assert(card_view(card) == card_row(*c));
        let ghost cb = cards@;
        let ghost vb = versions@;
        cards.push(card);
        versions.push(CardVersion {
            card_id: c.unique_id.clone(),
            pack_id: c.pack_code.clone(),
            quantity: c.card_quantity,
            position: c.card_number,
            api_id: None,
        });
        proof {
            assert(src@.take(i + 1) =~= src@.take(i as int).push(src@[i as int]));
            assert(version_view(versions@[i as int]) == version_row(src@[i as int]));
            assert(cards@.map_values(|c: Card| card_view(c)) =~= cb.map_values(|c: Card| card_view(c)).push(card_view(cards@[i as int])));
            assert(versions@.map_values(|v: CardVersion| version_view(v)) =~= vb.map_values(|v: CardVersion| version_view(v)).push(version_view(versions@[i as int])));
            assert(src@.take(i + 1).map_values(|x: WhcCard| card_row(x)) =~= src@.take(i as int).map_values(|x: WhcCard| card_row(x)).push(card_row(src@[i as int])));
            assert(src@.take(i + 1).map_values(|x: WhcCard| version_row(x)) =~= src@.take(i as int).map_values(|x: WhcCard| version_row(x)).push(version_row(src@[i as int])));
        }
        i = i + 1;
        assert(cards@.map_values(|c: Card| card_view(c)) =~= src@.take(i as int).map_values(|x: WhcCard| card_row(x)));
        assert(versions@.map_values(|v: CardVersion| version_view(v)) =~= src@.take(i as int).map_values(|x: WhcCard| version_row(x)));
    }
    assert(src@.take(i as int) =~= src@);
    (cards, versions)
}

/// The packs of the catalog, as the source lists them.
pub open spec fn catalog_packs_spec(packs: Seq<WhcPack>) -> Seq<(Seq<char>, Seq<char>, Option<Seq<char>>)> {
    packs.map_values(|p: WhcPack| (p.code@, p.name@, crate::models::opt_view(p.date_release)))
}

impl WhcAdapter {
    /// The game's catalog from the source's packs and cards.
    pub fn build_catalog(&self, packs: &[WhcPack], cards: &[WhcCard]) -> (r: crate::catalog::Catalog)
        ensures
            r.game_id@ == "whconquest"@,
            r.display_name@ == "Warhammer 40k Conquest"@,
            r.packs@.map_values(|p: crate::catalog::Pack| crate::catalog::pack_view(p)) == catalog_packs_spec(packs@),
        r.cards@.map_values(|c: Card| card_view(c)) == cards@.map_values(|x: WhcCard| card_row(x)),
        r.card_versions@.map_values(|v: CardVersion| version_view(v)) == cards@.map_values(|x: WhcCard| version_row(x)),
    {
        let mut ps: Vec<crate::catalog::Pack> = Vec::new();
        let mut i: usize = 0;
        while i < packs.len()
            invariant
                i <= packs@.len(),
                ps@.map_values(|p: crate::catalog::Pack| crate::catalog::pack_view(p)) == catalog_packs_spec(packs@.take(i as int)),
            decreases packs.len() - i,
        {
            let ghost b = ps@;
            let pack = crate::catalog::pack_of(&packs[i].code, &packs[i].name, &packs[i].date_release);
            ps.push(pack);
            proof {
                assert(ps@.map_values(|p: crate::catalog::Pack| crate::catalog::pack_view(p)) =~= b.map_values(
                    |p: crate::catalog::Pack| crate::catalog::pack_view(p),
                ).push(crate::catalog::pack_view(pack)));
                assert(catalog_packs_spec(packs@.take(i + 1)) =~= catalog_packs_spec(packs@.take(i as int)).push(
                    crate::catalog::pack_view(pack),
                ));
            }
            i = i + 1;
        }
        assert(packs@.take(i as int) =~= packs@);
        let (cs, vs) = build_cards_and_versions(cards);
        crate::catalog::Catalog {
            game_id: crate::text::owned("whconquest"),
            display_name: crate::text::owned("Warhammer 40k Conquest"),
            packs: ps,
            cards: cs,
            card_versions: vs,
        }
    }
}

} // verus!
