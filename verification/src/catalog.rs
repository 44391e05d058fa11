//! The catalog rows a game adapter produces: packs, cards and the versions
//! that place a card in a pack.
use vstd::prelude::*;
use crate::card_store::{normalize_spec, normalize_title};
use crate::db_storage::{opt_int_sql, opt_sql, opt_sql_text, quote_spec, quote_sql_string};
use crate::models::opt_view;
use crate::order::texts;
use crate::text::{i64_to_string, owned, push_str, signed_decimal};

verus! {

/// A pack (set, expansion) of a game.
#[derive(Debug, Clone, PartialEq)]
pub struct Pack {
    pub id: String,
    pub name: String,
    pub date_release: Option<String>,
}

/// A card, as distinct from its printings.
#[derive(Debug, Clone, PartialEq)]
pub struct Card {
    pub id: String,
    pub title: String,
    pub title_normalized: String,
    pub side: Option<String>,
    /// The generic back the card prints with; `None` when unclassified.
    pub back_group: Option<String>,
    pub rarity: Option<String>,
    pub linked_card_code: Option<String>,
    pub linked_card_name: Option<String>,
    pub linked_card_back_group: Option<String>,
}

/// A card's place in a pack.
#[derive(Debug, Clone, PartialEq)]
pub struct CardVersion {
    pub card_id: String,
    pub pack_id: String,
    pub quantity: i64,
    pub position: Option<i64>,
    pub api_id: Option<String>,
}

/// Everything a game adapter knows of its game.
#[derive(Debug, Clone, PartialEq)]
pub struct Catalog {
    pub game_id: String,
    pub display_name: String,
    pub packs: Vec<Pack>,
    pub cards: Vec<Card>,
    pub card_versions: Vec<CardVersion>,
}


/// The texts of a card: id, title, normalized title, side, back group,
/// rarity, linked card code, name and back group.
pub open spec fn card_view(c: Card) -> (
    Seq<char>,
    Seq<char>,
    Seq<char>,
    Option<Seq<char>>,
    Option<Seq<char>>,
    Option<Seq<char>>,
    Option<Seq<char>>,
    Option<Seq<char>>,
    Option<Seq<char>>,
) {
    (
        c.id@,
        c.title@,
        c.title_normalized@,
        opt_view(c.side),
        opt_view(c.back_group),
        opt_view(c.rarity),
        opt_view(c.linked_card_code),
        opt_view(c.linked_card_name),
        opt_view(c.linked_card_back_group),
    )
}

/// The view of a card titled `title` with nothing linked and no side.
pub open spec fn plain_view(
    id: Seq<char>,
    title: Seq<char>,
    back_group: Option<Seq<char>>,
    rarity: Option<Seq<char>>,
) -> (
    Seq<char>,
    Seq<char>,
    Seq<char>,
    Option<Seq<char>>,
    Option<Seq<char>>,
    Option<Seq<char>>,
    Option<Seq<char>>,
    Option<Seq<char>>,
    Option<Seq<char>>,
) {
    (id, title, normalize_spec(title), None, back_group, rarity, None, None, None)
}

/// The texts of a version: card id, pack id, quantity, position, API id.
pub open spec fn version_view(v: CardVersion) -> (Seq<char>, Seq<char>, i64, Option<i64>, Option<Seq<char>>) {
    (v.card_id@, v.pack_id@, v.quantity, v.position, opt_view(v.api_id))
}

/// The texts of a pack: id, name, release date.
pub open spec fn pack_view(p: Pack) -> (Seq<char>, Seq<char>, Option<Seq<char>>) {
    (p.id@, p.name@, opt_view(p.date_release))
}

/// A card titled `title`, with its normalized title, the given back group
/// and rarity, and nothing linked.
pub open spec fn plain_card(c: Card, id: Seq<char>, title: Seq<char>, back_group: Option<Seq<char>>, rarity: Option<Seq<char>>) -> bool {
    &&& c.id@ == id
    &&& c.title@ == title
    &&& c.title_normalized@ == normalize_spec(title)
    &&& c.side is None
    &&& crate::models::opt_view(c.back_group) == back_group
    &&& crate::models::opt_view(c.rarity) == rarity
    &&& c.linked_card_code is None
    &&& c.linked_card_name is None
    &&& c.linked_card_back_group is None
}

/// A card with nothing linked.
pub fn card_with(id: String, title: String, side: Option<String>, back_group: Option<String>, rarity: Option<String>) -> (r: Card)
    ensures
        card_view(r) == (id@, title@, normalize_spec(title@), opt_view(side), opt_view(back_group), opt_view(rarity), None::<Seq<char>>, None::<Seq<char>>, None::<Seq<char>>),
{
    let title_normalized = normalize_title(title.as_str());
    Card {
        id,
        title,
        title_normalized,
        side,
        back_group,
        rarity,
        linked_card_code: None,
        linked_card_name: None,
        linked_card_back_group: None,
    }
}

/// A card with nothing linked and no side.
pub fn new_card(id: String, title: String, back_group: Option<String>, rarity: Option<String>) -> (r: Card)
    ensures
        plain_card(r, id@, title@, opt_view(back_group), opt_view(rarity)),
        card_view(r) == plain_view(id@, title@, opt_view(back_group), opt_view(rarity)),
{
    let title_normalized = normalize_title(title.as_str());
    Card {
        id,
        title,
        title_normalized,
        side: None,
        back_group,
        rarity,
        linked_card_code: None,
        linked_card_name: None,
        linked_card_back_group: None,
    }
}

/// The statement recording a game.
pub open spec fn game_insert_spec(c: Catalog) -> Seq<char> {
    "INSERT INTO games (id, display_name) VALUES ("@ + quote_spec(c.game_id@) + ", "@ + quote_spec(c.display_name@)
        + ")"@
}

/// The statement recording a pack of game `game`.
pub open spec fn pack_insert_spec(p: Pack, game: Seq<char>) -> Seq<char> {
    "INSERT INTO packs (id, game_id, name, date_release) VALUES ("@ + quote_spec(p.id@) + ", "@ + quote_spec(game)
        + ", "@ + quote_spec(p.name@) + ", "@ + opt_sql(p.date_release) + ")"@
}

/// The statement recording a card of game `game`.
pub open spec fn card_insert_spec(c: Card, game: Seq<char>) -> Seq<char> {
    "INSERT INTO cards (id, game_id, title, title_normalized, side) VALUES ("@ + quote_spec(c.id@) + ", "@
        + quote_spec(game) + ", "@ + quote_spec(c.title@) + ", "@ + quote_spec(c.title_normalized@) + ", "@ + opt_sql(
        c.side,
    ) + ")"@
}

/// The statement recording a card version, whose id is `{card}_{pack}`.
pub open spec fn version_insert_spec(v: CardVersion) -> Seq<char> {
    let id = v.card_id@ + "_"@ + v.pack_id@;
    "INSERT INTO card_versions (id, card_id, pack_id, quantity, position) VALUES ("@ + quote_spec(id) + ", "@
        + quote_spec(v.card_id@) + ", "@ + quote_spec(v.pack_id@) + ", "@ + signed_decimal(v.quantity as int) + ", "@
        + opt_int_sql(v.position) + ")"@
}

/// The statements recording a catalog: its game, then its packs, cards and
/// card versions.
pub open spec fn seed_spec(c: Catalog) -> Seq<Seq<char>> {
    seq![game_insert_spec(c)] + c.packs@.map_values(|p: Pack| pack_insert_spec(p, c.game_id@)) + c.cards@.map_values(
        |x: Card| card_insert_spec(x, c.game_id@),
    ) + c.card_versions@.map_values(|v: CardVersion| version_insert_spec(v))
}

fn push_all(out: &mut Vec<String>, items: Vec<String>)
    ensures
        texts(final(out)@) == texts(old(out)@) + texts(items@),
{
    let ghost start = texts(out@);
    let mut i: usize = 0;
    while i < items.len()
        invariant
            i <= items@.len(),
            texts(out@) == start + texts(items@).take(i as int),
        decreases items.len() - i,
    {
        let ghost b = out@;
        let x = items[i].clone();
        out.push(x);
        assert(texts(out@) =~= texts(b).push(x@));
        assert(texts(items@).take(i + 1) =~= texts(items@).take(i as int).push(items@[i as int]@));
        i = i + 1;
    }
    assert(texts(items@).take(i as int) =~= texts(items@));
}

/// The statements that record a catalog: its game, then its packs, cards
/// and card versions.
pub fn seed_statements(catalog: &Catalog) -> (r: Vec<String>)
    ensures
        texts(r@) == seed_spec(*catalog),
{
    let game = catalog.game_id.as_str();
    let mut out: Vec<String> = Vec::new();
    let mut q = owned("INSERT INTO games (id, display_name) VALUES (");
    push_str(&mut q, quote_sql_string(game).as_str());
    push_str(&mut q, ", ");
    push_str(&mut q, quote_sql_string(catalog.display_name.as_str()).as_str());
    push_str(&mut q, ")");
    out.push(q);
    assert(texts(out@) =~= seq![game_insert_spec(*catalog)]);
    let mut i: usize = 0;
    while i < catalog.packs.len()
        invariant
            game@ == catalog.game_id@,
            i <= catalog.packs@.len(),
            texts(out@) == seq![game_insert_spec(*catalog)] + catalog.packs@.take(i as int).map_values(
                |p: Pack| pack_insert_spec(p, catalog.game_id@),
            ),
        decreases catalog.packs.len() - i,
    {
        let p = &catalog.packs[i];
        let mut q = owned("INSERT INTO packs (id, game_id, name, date_release) VALUES (");
        push_str(&mut q, quote_sql_string(p.id.as_str()).as_str());
        push_str(&mut q, ", ");
        push_str(&mut q, quote_sql_string(game).as_str());
        push_str(&mut q, ", ");
        push_str(&mut q, quote_sql_string(p.name.as_str()).as_str());
        push_str(&mut q, ", ");
        push_str(&mut q, opt_sql_text(&p.date_release).as_str());
        push_str(&mut q, ")");
        let ghost b = out@;
        out.push(q);
        proof {
            assert(q@ == pack_insert_spec(catalog.packs@[i as int], catalog.game_id@));
            assert(texts(out@) =~= texts(b).push(q@));
            assert(catalog.packs@.take(i + 1).map_values(|p: Pack| pack_insert_spec(p, catalog.game_id@)) =~= catalog.packs@.take(
                i as int,
            ).map_values(|p: Pack| pack_insert_spec(p, catalog.game_id@)).push(q@));
        }
        i = i + 1;
    }
    assert(catalog.packs@.take(i as int) =~= catalog.packs@);
    let mut i: usize = 0;
    let ghost head = texts(out@);
    while i < catalog.cards.len()
        invariant
            game@ == catalog.game_id@,
            i <= catalog.cards@.len(),
            texts(out@) == head + catalog.cards@.take(i as int).map_values(|x: Card| card_insert_spec(x, catalog.game_id@)),
        decreases catalog.cards.len() - i,
    {
        let c = &catalog.cards[i];
        let mut q = owned("INSERT INTO cards (id, game_id, title, title_normalized, side) VALUES (");
        push_str(&mut q, quote_sql_string(c.id.as_str()).as_str());
        push_str(&mut q, ", ");
        push_str(&mut q, quote_sql_string(game).as_str());
        push_str(&mut q, ", ");
        push_str(&mut q, quote_sql_string(c.title.as_str()).as_str());
        push_str(&mut q, ", ");
        push_str(&mut q, quote_sql_string(c.title_normalized.as_str()).as_str());
        push_str(&mut q, ", ");
        push_str(&mut q, opt_sql_text(&c.side).as_str());
        push_str(&mut q, ")");
        let ghost b = out@;
        out.push(q);
        proof {
            assert(q@ == card_insert_spec(catalog.cards@[i as int], catalog.game_id@));
            assert(texts(out@) =~= texts(b).push(q@));
            assert(catalog.cards@.take(i + 1).map_values(|x: Card| card_insert_spec(x, catalog.game_id@)) =~= catalog.cards@.take(
                i as int,
            ).map_values(|x: Card| card_insert_spec(x, catalog.game_id@)).push(q@));
        }
        i = i + 1;
    }
    assert(catalog.cards@.take(i as int) =~= catalog.cards@);
    let mut i: usize = 0;
    let ghost head2 = texts(out@);
    while i < catalog.card_versions.len()
        invariant
            i <= catalog.card_versions@.len(),
            texts(out@) == head2 + catalog.card_versions@.take(i as int).map_values(|v: CardVersion| version_insert_spec(v)),
        decreases catalog.card_versions.len() - i,
    {
        let v = &catalog.card_versions[i];
        let mut id = v.card_id.clone();
        push_str(&mut id, "_");
        push_str(&mut id, v.pack_id.as_str());
        let mut q = owned("INSERT INTO card_versions (id, card_id, pack_id, quantity, position) VALUES (");
        push_str(&mut q, quote_sql_string(id.as_str()).as_str());
        push_str(&mut q, ", ");
        push_str(&mut q, quote_sql_string(v.card_id.as_str()).as_str());
        push_str(&mut q, ", ");
        push_str(&mut q, quote_sql_string(v.pack_id.as_str()).as_str());
        push_str(&mut q, ", ");
        push_str(&mut q, i64_to_string(v.quantity).as_str());
        push_str(&mut q, ", ");
        match v.position {
            Some(p) => push_str(&mut q, i64_to_string(p).as_str()),
            None => push_str(&mut q, "NULL"),
        }
        push_str(&mut q, ")");
        let ghost b = out@;
        out.push(q);
        proof {
            assert(q@ == version_insert_spec(catalog.card_versions@[i as int]));
            assert(texts(out@) =~= texts(b).push(q@));
            assert(catalog.card_versions@.take(i + 1).map_values(|v: CardVersion| version_insert_spec(v)) =~= catalog.card_versions@.take(
                i as int,
            ).map_values(|v: CardVersion| version_insert_spec(v)).push(q@));
        }
        i = i + 1;
    }
    assert(catalog.card_versions@.take(i as int) =~= catalog.card_versions@);
    assert(texts(out@) =~= seed_spec(*catalog));
    out
}

/// The statements of the first `n` catalogs, catalog after catalog.
pub open spec fn seeds_spec(cs: Seq<Catalog>, n: int) -> Seq<Seq<char>>
    decreases n,
{
    if n <= 0 {
        Seq::empty()
    } else {
        seeds_spec(cs, n - 1) + seed_spec(cs[n - 1])
    }
}

/// The statements that replace the whole catalog with `catalogs`, in one
/// transaction: every version, card, pack and game deleted, then each
/// catalog recorded.
pub open spec fn update_spec(cs: Seq<Catalog>) -> Seq<Seq<char>> {
    seq![
        "BEGIN"@,
        "DELETE FROM card_versions"@,
        "DELETE FROM cards"@,
        "DELETE FROM packs"@,
        "DELETE FROM games"@,
    ] + seeds_spec(cs, cs.len() as int) + seq!["COMMIT"@]
}

/// The statements that replace the whole catalog with `catalogs`.
pub fn update_statements(catalogs: &[Catalog]) -> (r: Vec<String>)
    ensures
        texts(r@) == update_spec(catalogs@),
{
    let mut out: Vec<String> = Vec::new();
    out.push(owned("BEGIN"));
    out.push(owned("DELETE FROM card_versions"));
    out.push(owned("DELETE FROM cards"));
    out.push(owned("DELETE FROM packs"));
    out.push(owned("DELETE FROM games"));
    let ghost head = texts(out@);
    assert(head =~= seq!["BEGIN"@, "DELETE FROM card_versions"@, "DELETE FROM cards"@, "DELETE FROM packs"@, "DELETE FROM games"@]);
    let mut i: usize = 0;
    while i < catalogs.len()
        invariant
            i <= catalogs@.len(),
            texts(out@) == head + seeds_spec(catalogs@, i as int),
        decreases catalogs.len() - i,
    {
        let s = seed_statements(&catalogs[i]);
        push_all(&mut out, s);
        assert(texts(out@) =~= head + seeds_spec(catalogs@, i + 1));
        i = i + 1;
    }
    let ghost b = out@;
    out.push(owned("COMMIT"));
    assert(texts(out@) =~= texts(b).push("COMMIT"@));
    assert(texts(out@) =~= update_spec(catalogs@));
    out
}

/// The query counting the cards of a game, or of every game.
pub fn card_count_sql(game_id: Option<&str>) -> (r: String)
    ensures
        r@ == (match game_id {
            Some(g) => "SELECT COUNT(*) AS count FROM cards WHERE game_id = "@ + quote_spec(g@),
            None => "SELECT COUNT(*) AS count FROM cards"@,
        }),
{
    match game_id {
        Some(g) => {
            let mut q = owned("SELECT COUNT(*) AS count FROM cards WHERE game_id = ");
            push_str(&mut q, quote_sql_string(g).as_str());
            q
        },
        None => owned("SELECT COUNT(*) AS count FROM cards"),
    }
}

/// The lines of the catalog summary for the first `n` games.
pub open spec fn info_lines(games: Seq<(String, i64)>, n: int) -> Seq<char>
    decreases n,
{
    if n <= 0 {
        Seq::empty()
    } else {
        info_lines(games, n - 1) + " - "@ + games[n - 1].0@ + ": "@ + signed_decimal(games[n - 1].1 as int)
            + " logical cards\n"@
    }
}

/// The catalog summary: each game's name with its number of cards.
pub fn catalog_info(games: &[(String, i64)]) -> (r: String)
    ensures
        r@ == "Card Catalog Info:\n"@ + info_lines(games@, games@.len() as int),
{
    let mut info = owned("Card Catalog Info:\n");
    let ghost head = info@;
    let mut i: usize = 0;
    while i < games.len()
        invariant
            i <= games@.len(),
            head == "Card Catalog Info:\n"@,
            info@ == head + info_lines(games@, i as int),
        decreases games.len() - i,
    {
        push_str(&mut info, " - ");
        push_str(&mut info, games[i].0.as_str());
        push_str(&mut info, ": ");
        push_str(&mut info, i64_to_string(games[i].1).as_str());
        push_str(&mut info, " logical cards\n");
        i = i + 1;
        assert(info@ =~= head + info_lines(games@, i as int));
    }
    info
}

/// A pack with the given id, name and release date.
pub fn pack_of(id: &String, name: &String, date_release: &Option<String>) -> (r: Pack)
    ensures
        pack_view(r) == (id@, name@, opt_view(*date_release)),
{
    let date = match date_release {
        Some(d) => Some(d.clone()),
        None => None,
    };
    Pack { id: id.clone(), name: name.clone(), date_release: date }
}

} // verus!
