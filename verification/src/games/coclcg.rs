//! Call of Cthulhu.
use vstd::prelude::*;
use crate::card_source::BoosterSpec;
use crate::games::GameAdapterInfo;
use crate::card_store::normalize_spec;
use crate::catalog::{card_view, card_with, version_view, Card, CardVersion};

verus! {

/// The Call of Cthulhu adapter.
pub struct CocAdapter {}

impl CocAdapter {
    /// The adapter.
    pub fn new() -> (r: Self) {
        CocAdapter {}
    }
}

impl Default for CocAdapter {
    fn default() -> (r: Self) {
        Self::new()
    }
}

impl GameAdapterInfo for CocAdapter {
    fn game_id(&self) -> (r: &'static str)
        ensures
            r@ == "coclcg"@,
    {
        "coclcg"
    }

    fn game_name(&self) -> (r: &'static str)
        ensures
            r@ == "Call of Cthulhu"@,
    {
        "Call of Cthulhu"
    }

    fn subdomains(&self) -> (r: Vec<&'static str>)
        ensures
            r@.map_values(|s: &str| s@) == seq!["coclcg"@],
    {
        let mut v: Vec<&'static str> = Vec::new();
        v.push("coclcg");
        proof {
            assert(v@.map_values(|s: &str| s@) =~= seq!["coclcg"@]);
        }
        v
    }

    fn booster_spec(&self) -> (r: Option<BoosterSpec>)
        ensures
            r is None,
    {
        None
    }
}

/// A pack of the bundled Call of Cthulhu catalog.
#[derive(Debug, Clone)]
pub struct CocPack {
    pub code: String,
    pub name: String,
    pub date_release: Option<String>,
}

/// A card of the bundled Call of Cthulhu catalog, with every pack that
/// prints it.
#[derive(Debug, Clone)]
pub struct CocCard {
    pub unique_id: String,
    pub name: String,
    pub subtitle: Option<String>,
    pub card_type: String,
    pub faction: String,
    /// Read off the card: story cards carry the back of their product.
    pub back_group: String,
    pub versions: Vec<CocVersion>,
}

/// One pack's printing of a Call of Cthulhu card.
#[derive(Debug, Clone)]
pub struct CocVersion {
    pub pack_code: String,
    pub number: Option<i64>,
    pub quantity: i64,
}

/// The catalog card a Call of Cthulhu card becomes.
pub open spec fn card_row(c: CocCard) -> (
    Seq<char>,
    Seq<char>,
    Seq<char>,
    Option<Seq<char>>,
    Option<Seq<char>>,
    Option<Seq<char>>,
    Option<Seq<char>>,
    Option<Seq<char>>,
    Option<Seq<char>>,
) {
    (c.unique_id@, c.name@, normalize_spec(c.name@), None, Some(c.back_group@), None, None, None, None)
}

/// The catalog versions of a card: one per pack that prints it.
pub open spec fn versions_of(c: CocCard) -> Seq<(Seq<char>, Seq<char>, i64, Option<i64>, Option<Seq<char>>)> {
    c.versions@.map_values(|v: CocVersion| (c.unique_id@, v.pack_code@, v.quantity, v.number, None::<Seq<char>>))
}

/// The versions of the first `n` cards, card after card.
pub open spec fn all_versions(cs: Seq<CocCard>, n: int) -> Seq<(Seq<char>, Seq<char>, i64, Option<i64>, Option<Seq<char>>)>
    decreases n,
{
    if n <= 0 {
        Seq::empty()
    } else {
        all_versions(cs, n - 1) + versions_of(cs[n - 1])
    }
}

/// The bundled card list as catalog rows: a reprint is one card with a
/// version in each of its packs, and the back group is the card's own.
pub fn build_cards_and_versions(src: &[CocCard]) -> (r: (Vec<Card>, Vec<CardVersion>))
    ensures
        r.0@.map_values(|c: Card| card_view(c)) == src@.map_values(|x: CocCard| card_row(x)),
        r.1@.map_values(|v: CardVersion| version_view(v)) == all_versions(src@, src@.len() as int),
{
    let mut cards: Vec<Card> = Vec::new();
    let mut versions: Vec<CardVersion> = Vec::new();
    let mut i: usize = 0;
    while i < src.len()
        invariant
            i <= src@.len(),
            cards@.len() == i,
            cards@.map_values(|c: Card| card_view(c)) == src@.take(i as int).map_values(|x: CocCard| card_row(x)),
            versions@.map_values(|v: CardVersion| version_view(v)) == all_versions(src@, i as int),
        decreases src.len() - i,
    {
        let c = &src[i];
        let card = card_with(c.unique_id.clone(), c.name.clone(), None, Some(c.back_group.clone()), None);
        let ghost cb = cards@;
        cards.push(card);
        let ghost vb = versions@.map_values(|v: CardVersion| version_view(v));
        let mut k: usize = 0;
        while k < c.versions.len()
            invariant
                k <= c.versions@.len(),
                versions@.map_values(|v: CardVersion| version_view(v)) == vb + versions_of(*c).take(k as int),
            decreases c.versions.len() - k,
        {
            let v = &c.versions[k];
            let ghost wb = versions@;
            versions.push(CardVersion {
                card_id: c.unique_id.clone(),
                pack_id: v.pack_code.clone(),
                quantity: v.quantity,
                position: v.number,
                api_id: None,
            });
            proof {
                assert(versions@.map_values(|v: CardVersion| version_view(v)) =~= wb.map_values(|v: CardVersion| version_view(v)).push(version_view(versions@[wb.len() as int])));
                assert(versions_of(*c).take(k + 1) =~= versions_of(*c).take(k as int).push(versions_of(*c)[k as int]));
            }
            k = k + 1;
            assert(versions@.map_values(|v: CardVersion| version_view(v)) =~= vb + versions_of(*c).take(k as int));
        }
        proof {
            assert(versions_of(*c).take(k as int) =~= versions_of(*c));
            assert(src@.take(i + 1) =~= src@.take(i as int).push(src@[i as int]));
            assert(cards@.map_values(|c: Card| card_view(c)) =~= cb.map_values(|c: Card| card_view(c)).push(card_view(cards@[i as int])));
            assert(src@.take(i + 1).map_values(|x: CocCard| card_row(x)) =~= src@.take(i as int).map_values(|x: CocCard| card_row(x)).push(card_row(src@[i as int])));
        }
        i = i + 1;
    }
    assert(src@.take(i as int) =~= src@);
    (cards, versions)
}

/// The packs of the catalog, as the source lists them.
pub open spec fn catalog_packs_spec(packs: Seq<CocPack>) -> Seq<(Seq<char>, Seq<char>, Option<Seq<char>>)> {
    packs.map_values(|p: CocPack| (p.code@, p.name@, crate::models::opt_view(p.date_release)))
}

impl CocAdapter {
    /// The game's catalog from the source's packs and cards.
    pub fn build_catalog(&self, packs: &[CocPack], cards: &[CocCard]) -> (r: crate::catalog::Catalog)
        ensures
            r.game_id@ == "coclcg"@,
            r.display_name@ == "Call of Cthulhu"@,
            r.packs@.map_values(|p: crate::catalog::Pack| crate::catalog::pack_view(p)) == catalog_packs_spec(packs@),
        r.cards@.map_values(|c: Card| card_view(c)) == cards@.map_values(|x: CocCard| card_row(x)),
        r.card_versions@.map_values(|v: CardVersion| version_view(v)) == all_versions(cards@, cards@.len() as int),
    {
        let mut ps: Vec<crate::catalog::Pack> = Vec::new();
        let mut i: usize = 0;
        while i < packs.len()
            invariant
                i <= packs@.len(),
                ps@.map_values(|p: crate::catalog::Pack| crate::catalog::pack_view(p)) == catalog_packs_spec(packs@.take(i as int)),
            decreases packs.len() - i,
        {
            let ghost b = ps@;
            let pack = crate::catalog::pack_of(&packs[i].code, &packs[i].name, &packs[i].date_release);
            ps.push(pack);
            proof {
                assert(ps@.map_values(|p: crate::catalog::Pack| crate::catalog::pack_view(p)) =~= b.map_values(
                    |p: crate::catalog::Pack| crate::catalog::pack_view(p),
                ).push(crate::catalog::pack_view(pack)));
                assert(catalog_packs_spec(packs@.take(i + 1)) =~= catalog_packs_spec(packs@.take(i as int)).push(
                    crate::catalog::pack_view(pack),
                ));
            }
            i = i + 1;
        }
        assert(packs@.take(i as int) =~= packs@);
        let (cs, vs) = build_cards_and_versions(cards);
        crate::catalog::Catalog {
            game_id: crate::text::owned("coclcg"),
            display_name: crate::text::owned("Call of Cthulhu"),
            packs: ps,
            cards: cs,
            card_versions: vs,
        }
    }
}

} // verus!
