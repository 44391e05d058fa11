//! Netrunner.
use vstd::prelude::*;
use crate::card_source::BoosterSpec;
use crate::games::GameAdapterInfo;
use crate::seqs::{lemma_push_map, lemma_take_map_push};
use crate::card_source::DecklistProvider;
use crate::card_store::normalize_spec;
use crate::catalog::{card_view, card_with, pack_view, version_view, Card, CardVersion, Pack};
use crate::error::ProxyNexusError;
use crate::games::urls::{
    before_any, before_any_of, lemma_run_before_stops, lemma_run_before_take, run_before, split_second, split_second_of,
    trim_end_char, trim_end_of,
};
use crate::models::{Decklist, DecklistEntry};
use crate::text::{chars_of, find_first, first_occurrence, occurs_at, owned, push_str, string_of};

verus! {

/// The Netrunner adapter.
pub struct NetrunnerAdapter {}

impl NetrunnerAdapter {
    /// The adapter.
    pub fn new() -> (r: Self) {
        NetrunnerAdapter {}
    }
}

impl Default for NetrunnerAdapter {
    fn default() -> (r: Self) {
        Self::new()
    }
}

impl GameAdapterInfo for NetrunnerAdapter {
    fn game_id(&self) -> (r: &'static str)
        ensures
            r@ == "netrunner"@,
    {
        "netrunner"
    }

    fn game_name(&self) -> (r: &'static str)
        ensures
            r@ == "Netrunner"@,
    {
        "Netrunner"
    }

    fn subdomains(&self) -> (r: Vec<&'static str>)
        ensures
            r@.map_values(|s: &str| s@) == Seq::<Seq<char>>::empty(),
    {
        let mut v: Vec<&'static str> = Vec::new();

        proof {
            assert(v@.map_values(|s: &str| s@) =~= Seq::<Seq<char>>::empty());
        }
        v
    }

    fn booster_spec(&self) -> (r: Option<BoosterSpec>)
        ensures
            r is None,
    {
        None
    }
}

/// A page of a NetrunnerDB v3 list.
#[derive(Debug, Clone)]
pub struct NrdbResponse<T> {
    pub data: Vec<T>,
    pub links: Option<NrdbLinks>,
}

/// Where the next page of a NetrunnerDB v3 list is.
#[derive(Debug, Clone)]
pub struct NrdbLinks {
    pub next: Option<String>,
}

/// A card as NetrunnerDB v3 lists it.
#[derive(Debug, Clone)]
pub struct NrdbCard {
    pub id: String,
    pub attributes: NrdbCardAttributes,
}

/// What NetrunnerDB says of a card.
#[derive(Debug, Clone)]
pub struct NrdbCardAttributes {
    pub title: String,
    pub stripped_title: String,
    pub side_id: String,
}

/// A card set as NetrunnerDB v3 lists it.
#[derive(Debug, Clone)]
pub struct NrdbCardSet {
    pub id: String,
    pub attributes: NrdbCardSetAttributes,
}

/// What NetrunnerDB says of a card set.
#[derive(Debug, Clone)]
pub struct NrdbCardSetAttributes {
    pub name: String,
    pub date_release: Option<String>,
}

/// A printing as NetrunnerDB v3 lists it.
#[derive(Debug, Clone)]
pub struct NrdbPrinting {
    pub id: String,
    pub attributes: NrdbPrintingAttributes,
}

/// What NetrunnerDB says of a printing.
#[derive(Debug, Clone)]
pub struct NrdbPrintingAttributes {
    pub card_id: String,
    pub card_set_id: String,
    pub quantity: i64,
    pub position: Option<i64>,
}

/// The catalog pack a card set becomes.
pub open spec fn pack_row(s: NrdbCardSet) -> (Seq<char>, Seq<char>, Option<Seq<char>>) {
    (s.id@, s.attributes.name@, crate::models::opt_view(s.attributes.date_release))
}

/// The catalog card a NetrunnerDB card becomes: its side is kept.
pub open spec fn card_row(c: NrdbCard) -> (
    Seq<char>,
    Seq<char>,
    Seq<char>,
    Option<Seq<char>>,
    Option<Seq<char>>,
    Option<Seq<char>>,
    Option<Seq<char>>,
    Option<Seq<char>>,
    Option<Seq<char>>,
) {
    (c.id@, c.attributes.title@, normalize_spec(c.attributes.title@), Some(c.attributes.side_id@), None, None, None, None, None)
}

/// The catalog version a printing becomes.
pub open spec fn version_row(p: NrdbPrinting) -> (Seq<char>, Seq<char>, i64, Option<i64>, Option<Seq<char>>) {
    (p.attributes.card_id@, p.attributes.card_set_id@, p.attributes.quantity, p.attributes.position, None)
}

/// Each catalog version is the printing it comes from: the same card, in
/// the same set, at the same position, with the printing's quantity as its
/// playset size.
pub proof fn lemma_versions_follow_printings(printings: Seq<NrdbPrinting>)
    ensures
        printings.map_values(|p: NrdbPrinting| version_row(p)).len() == printings.len(),
        forall|i: int|
            0 <= i < printings.len() ==> {
                let v = printings.map_values(|p: NrdbPrinting| version_row(p))[i];
                let a = (#[trigger] printings[i]).attributes;
                &&& v.0 == a.card_id@
                &&& v.1 == a.card_set_id@
                &&& v.2 == a.quantity
                &&& v.3 == a.position
                &&& v.4 is None
            },
{
}

/// NetrunnerDB's card sets as catalog packs.
pub fn build_packs(sets: &[NrdbCardSet]) -> (r: Vec<Pack>)
    ensures
        r@.map_values(|p: Pack| pack_view(p)) == sets@.map_values(|s: NrdbCardSet| pack_row(s)),
{
    let mut out: Vec<Pack> = Vec::new();
    let mut i: usize = 0;
    while i < sets.len()
        invariant
            i <= sets@.len(),
            out@.map_values(|p: Pack| pack_view(p)) == sets@.take(i as int).map_values(|s: NrdbCardSet| pack_row(s)),
        decreases sets.len() - i,
    {
        let s = &sets[i];
        let ghost before = out@;
        out.push(Pack {
            id: s.id.clone(),
            name: s.attributes.name.clone(),
            date_release: crate::models::clone_opt(&s.attributes.date_release),
        });
        proof {
            lemma_push_map(before, out@.last(), |p: Pack| pack_view(p));
            lemma_take_map_push(sets@, i as int, |s: NrdbCardSet| pack_row(s));
            assert(out@ == before.push(out@.last()));
        }
        i = i + 1;
    }
    assert(sets@.take(i as int) =~= sets@);
    out
}

/// NetrunnerDB's cards and printings as catalog rows: a card per card, a
/// version per printing.
pub fn build_cards_and_versions(src: &[NrdbCard], printings: &[NrdbPrinting]) -> (r: (Vec<Card>, Vec<CardVersion>))
    ensures
        r.0@.map_values(|c: Card| card_view(c)) == src@.map_values(|x: NrdbCard| card_row(x)),
        r.1@.map_values(|v: CardVersion| version_view(v)) == printings@.map_values(|p: NrdbPrinting| version_row(p)),
        r.1@.len() == printings@.len(),
        forall|i: int|
            0 <= i < printings@.len() ==> (#[trigger] r.1@[i]).quantity == printings@[i].attributes.quantity
                && r.1@[i].card_id@ == printings@[i].attributes.card_id@ && r.1@[i].pack_id@
                == printings@[i].attributes.card_set_id@ && r.1@[i].position == printings@[i].attributes.position,
{
    proof {
        lemma_versions_follow_printings(printings@);
    }
    let mut cards: Vec<Card> = Vec::new();
    let mut i: usize = 0;
    while i < src.len()
        invariant
            i <= src@.len(),
            cards@.map_values(|c: Card| card_view(c)) == src@.take(i as int).map_values(|x: NrdbCard| card_row(x)),
        decreases src.len() - i,
    {
        let c = &src[i];
        let card = card_with(c.id.clone(), c.attributes.title.clone(), Some(c.attributes.side_id.clone()), None, None);
        let ghost before = cards@;
        cards.push(card);
        proof {
            lemma_push_map(before, card, |c: Card| card_view(c));
            lemma_take_map_push(src@, i as int, |x: NrdbCard| card_row(x));
        }
        i = i + 1;
    }
    assert(src@.take(i as int) =~= src@);
    let mut versions: Vec<CardVersion> = Vec::new();
    let mut j: usize = 0;
    while j < printings.len()
        invariant
            j <= printings@.len(),
            versions@.map_values(|v: CardVersion| version_view(v)) == printings@.take(j as int).map_values(|p: NrdbPrinting| version_row(p)),
        decreases printings.len() - j,
    {
        let p = &printings[j];
        let ghost before = versions@;
        versions.push(CardVersion {
            card_id: p.attributes.card_id.clone(),
            pack_id: p.attributes.card_set_id.clone(),
            quantity: p.attributes.quantity,
            position: p.attributes.position,
            api_id: None,
        });
        proof {
            lemma_push_map(before, versions@.last(), |v: CardVersion| version_view(v));
            lemma_take_map_push(printings@, j as int, |p: NrdbPrinting| version_row(p));
            assert(versions@ == before.push(versions@.last()));
        }
        j = j + 1;
    }
    assert(printings@.take(j as int) =~= printings@);
    (cards, versions)
}

/// A NetrunnerDB URL's deck id and API path: after `/decklist/` (up to the
/// next `/`) a published decklist; else after `/deck/view/` (less trailing
/// `/`) a private deck; any other URL names none.
pub open spec fn nrdb_url_spec(url: Seq<char>) -> Option<(Seq<char>, Seq<char>)> {
    match split_second(url, "/decklist/"@) {
        Some(s) => Some((before_any(s, seq!['/']), "decklist"@)),
        None => match split_second(url, "/deck/view/"@) {
            Some(s) => Some((trim_end_char(s, '/'), "deck"@)),
            None => None,
        },
    }
}

/// The deck id of a decklist URL is the path segment after the first
/// `/decklist/`: the text from there up to the next `/` (or the end), which
/// holds no `/`.
pub proof fn lemma_decklist_id_is_the_next_segment(url: Seq<char>)
    requires
        first_occurrence(url, "/decklist/"@) is Some,
    ensures
        ({
            let rest = url.skip(first_occurrence(url, "/decklist/"@)->Some_0 + 10);
            &&& nrdb_url_spec(url) matches Some((id, path))
            &&& path == "decklist"@
            &&& !id.contains('/')
            &&& rest.take(id.len() as int) == id
            &&& id.len() == rest.len() || rest[id.len() as int] == '/'
        }),
{
    reveal_strlit("/decklist/");
    let sep = "/decklist/"@;
    assert(sep.len() == 10);
    let i = first_occurrence(url, sep)->Some_0;
    assert(occurs_at(url, sep, i));
    let rest = url.skip(i + 10);
    let stops = seq!['/'];
    assert(stops[0] == '/');
    assert(stops.contains('/'));
    lemma_run_before_stops(rest, stops);
    let n = run_before(rest, stops);
    let piece = match first_occurrence(rest, sep) {
        Some(j) => rest.take(j),
        None => rest,
    };
    if first_occurrence(rest, sep) is Some {
        let j = first_occurrence(rest, sep)->Some_0;
        assert(occurs_at(rest, sep, j));
        assert(rest.subrange(j, j + 10)[0] == sep[0]);
        assert(rest[j] == '/');
        assert(stops.contains(rest[j]));
        assert(n <= j);
        lemma_run_before_take(rest, stops, j);
        assert(rest.take(j).take(n as int) =~= rest.take(n as int));
    } else {
        assert(piece == rest);
    }
    assert(split_second(url, sep) == Some(piece));
    let id = before_any(piece, stops);
    assert(id =~= rest.take(n as int));
    assert forall|k: int| 0 <= k < id.len() implies id[k] != '/' by {
        assert(id[k] == rest[k]);
        assert(!stops.contains(rest[k]));
        if id[k] == '/' {
            assert(stops.contains(rest[k]));
        }
    }
    if n < rest.len() {
        assert(stops.contains(rest[n as int]));
        assert(stops[0] == '/');
    }
}

/// The deck id and API path a NetrunnerDB URL names.
pub fn parse_nrdb_url(url: &str) -> (r: Result<(String, String), ProxyNexusError>)
    ensures
        match r {
            Ok((id, path)) => nrdb_url_spec(url@) == Some((id@, path@)),
            Err(e) => nrdb_url_spec(url@) is None && (e matches ProxyNexusError::Internal(m)
                && m@ == "URL must be a NetrunnerDB decklist or deck URL"@),
        },
        first_occurrence(url@, "/decklist/"@) is Some ==> (r matches Ok((id, path)) && path@ == "decklist"@
            && !id@.contains('/')),
{
    proof {
        if first_occurrence(url@, "/decklist/"@) is Some {
            lemma_decklist_id_is_the_next_segment(url@);
        }
    }
    let v = chars_of(url);
    let decklist = chars_of("/decklist/");
    let deck = chars_of("/deck/view/");
    proof {
        reveal_strlit("/decklist/");
        reveal_strlit("/deck/view/");
    }
    if let Some(s) = split_second_of(&v, &decklist) {
        let mut stops: Vec<char> = Vec::new();
        stops.push('/');
        assert(stops@ =~= seq!['/']);
        let id = before_any_of(&s, &stops);
        return Ok((string_of(&id), owned("decklist")));
    }
    if let Some(s) = split_second_of(&v, &deck) {
        let id = trim_end_of(&s, '/');
        return Ok((string_of(&id), owned("deck")));
    }
    Err(ProxyNexusError::Internal(owned("URL must be a NetrunnerDB decklist or deck URL")))
}

impl DecklistProvider for NetrunnerAdapter {
    fn decklist_api_url(&self, url: &str) -> (r: Result<String, ProxyNexusError>)
        ensures
            match r {
                Ok(u) => exists|id: Seq<char>, path: Seq<char>| nrdb_url_spec(url@) == Some((id, path)) && u@
                    == "https://netrunnerdb.com/api/2.0/public/"@ + path + "/"@ + id,
                Err(_) => nrdb_url_spec(url@) is None,
            },
    {
        let (id, path) = parse_nrdb_url(url)?;
        let mut u = owned("https://netrunnerdb.com/api/2.0/public/");
        push_str(&mut u, path.as_str());
        push_str(&mut u, "/");
        push_str(&mut u, id.as_str());
        assert(u@ == "https://netrunnerdb.com/api/2.0/public/"@ + path@ + "/"@ + id@);
        Ok(u)
    }
}

/// `codes` joined by `,`.
pub open spec fn joined(codes: Seq<Seq<char>>) -> Seq<char>
    decreases codes.len(),
{
    if codes.len() == 0 {
        Seq::empty()
    } else if codes.len() == 1 {
        codes[0]
    } else {
        joined(codes.drop_last()) + seq![','] + codes.last()
    }
}

/// The v3 request for the printings a deck lists, by their codes.
pub fn printings_filter_url(codes: &[String]) -> (r: String)
    ensures
        r@ == "https://api.netrunnerdb.com/api/v3/public/printings?filter[id]="@ + joined(codes@.map_values(|c: String| c@)),
{
    let mut u = owned("https://api.netrunnerdb.com/api/v3/public/printings?filter[id]=");
    let ghost prefix = u@;
    let mut i: usize = 0;
    while i < codes.len()
        invariant
            i <= codes@.len(),
            prefix == "https://api.netrunnerdb.com/api/v3/public/printings?filter[id]="@,
            u@ == prefix + joined(codes@.take(i as int).map_values(|c: String| c@)),
        decreases codes.len() - i,
    {
        if i > 0 {
            push_str(&mut u, ",");
            proof {
                reveal_strlit(",");
            }
        }
        push_str(&mut u, codes[i].as_str());
        proof {
            let t = codes@.take(i + 1).map_values(|c: String| c@);
            assert(t.drop_last() =~= codes@.take(i as int).map_values(|c: String| c@));
            if i == 0 {
                assert(joined(codes@.take(i as int).map_values(|c: String| c@)) =~= Seq::<char>::empty());
            }
        }
        i = i + 1;
    }
    assert(codes@.take(i as int) =~= codes@);
    u
}

/// The quantity a deck lists for a printing code.
pub open spec fn quantity_of(slots: Seq<(String, u32)>, code: Seq<char>) -> Option<u32>
    decreases slots.len(),
{
    if slots.len() == 0 {
        None
    } else if slots[0].0@ == code {
        Some(slots[0].1)
    } else {
        quantity_of(slots.drop_first(), code)
    }
}

fn find_quantity(slots: &[(String, u32)], code: &str) -> (r: Option<u32>)
    ensures
        r == quantity_of(slots@, code@),
{
    let mut i: usize = 0;
    assert(slots@.skip(0) =~= slots@);
    while i < slots.len()
        invariant
            i <= slots@.len(),
            quantity_of(slots@, code@) == quantity_of(slots@.skip(i as int), code@),
        decreases slots.len() - i,
    {
        assert(slots@.skip(i as int).drop_first() =~= slots@.skip(i + 1));
        if crate::text::str_eq(slots[i].0.as_str(), code) {
            return Some(slots[i].1);
        }
        i = i + 1;
    }
    None
}

/// The decklist a NetrunnerDB deck gives: every printing the deck lists
/// becomes an entry for its card, with the deck's quantity.
pub fn nrdb_decklist(slots: &[(String, u32)], printings: &[NrdbPrinting]) -> (r: Decklist)
    ensures
        forall|i: int| 0 <= i < r.cards@.len() ==> (#[trigger] r.cards@[i]).pack_id is None && r.cards@[i].position is None,
        r.cards@.map_values(|e: DecklistEntry| (e.card_id@, e.quantity)) == nrdb_entries(slots@, printings@, printings@.len() as int),
{
    let mut out: Vec<DecklistEntry> = Vec::new();
    assert(slots@.skip(0) =~= slots@);
    let mut i: usize = 0;
    while i < printings.len()
        invariant
            i <= printings@.len(),
            forall|k: int| 0 <= k < out@.len() ==> (#[trigger] out@[k]).pack_id is None && out@[k].position is None,
            out@.map_values(|e: DecklistEntry| (e.card_id@, e.quantity)) == nrdb_entries(slots@, printings@, i as int),
        decreases printings.len() - i,
    {
        let p = &printings[i];
        if let Some(q) = find_quantity(slots, p.id.as_str()) {
            out.push(DecklistEntry { card_id: p.attributes.card_id.clone(), pack_id: None, quantity: q, position: None });
        }
        i = i + 1;
        assert(out@.map_values(|e: DecklistEntry| (e.card_id@, e.quantity)) =~= nrdb_entries(slots@, printings@, i as int));
    }
    Decklist { cards: out }
}

/// The entries the first `n` printings give.
pub open spec fn nrdb_entries(slots: Seq<(String, u32)>, printings: Seq<NrdbPrinting>, n: int) -> Seq<(Seq<char>, u32)>
    decreases n,
{
    if n <= 0 {
        Seq::empty()
    } else {
        nrdb_entries(slots, printings, n - 1) + match quantity_of(slots, printings[n - 1].id@) {
            Some(q) => seq![(printings[n - 1].attributes.card_id@, q)],
            None => Seq::empty(),
        }
    }
}

impl NetrunnerAdapter {
    /// The game's catalog from NetrunnerDB's card sets, cards and printings.
    pub fn build_catalog(&self, sets: &[NrdbCardSet], cards: &[NrdbCard], printings: &[NrdbPrinting]) -> (r: crate::catalog::Catalog)
        ensures
            r.game_id@ == "netrunner"@,
            r.display_name@ == "Netrunner"@,
            r.packs@.map_values(|p: Pack| pack_view(p)) == sets@.map_values(|s: NrdbCardSet| pack_row(s)),
            r.cards@.map_values(|c: Card| card_view(c)) == cards@.map_values(|x: NrdbCard| card_row(x)),
            r.card_versions@.map_values(|v: CardVersion| version_view(v)) == printings@.map_values(|p: NrdbPrinting| version_row(p)),
    {
        let packs = build_packs(sets);
        let (cs, vs) = build_cards_and_versions(cards, printings);
        crate::catalog::Catalog {
            game_id: crate::text::owned("netrunner"),
            display_name: crate::text::owned("Netrunner"),
            packs,
            cards: cs,
            card_versions: vs,
        }
    }
}

} // verus!
