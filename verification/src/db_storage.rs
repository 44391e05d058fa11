//! Quoting text into SQL, and the database written out as SQL.
use vstd::prelude::*;
use crate::order::texts;
use crate::text::{chars_of, i64_to_string, owned, push_char, push_str, signed_decimal};

verus! {

/// A character as an SQL string literal holds it: a quote is doubled.
pub open spec fn quote_char(c: char) -> Seq<char> {
    if c == '\'' {
        seq!['\'', '\'']
    } else {
        seq![c]
    }
}

/// The body of an SQL string literal holding `s`.
pub open spec fn quoted_body(s: Seq<char>) -> Seq<char>
    decreases s.len(),
{
    if s.len() == 0 {
        Seq::empty()
    } else {
        quoted_body(s.drop_last()) + quote_char(s.last())
    }
}

/// The SQL string literal holding `s`.
pub open spec fn quote_spec(s: Seq<char>) -> Seq<char> {
    seq!['\''] + quoted_body(s) + seq!['\'']
}

fn push_quoted(out: &mut String, s: &str)
    ensures
        final(out)@ == old(out)@ + quote_spec(s@),
{
    let v = chars_of(s);
    let ghost start = out@;
    push_char(out, '\'');
    let mut i: usize = 0;
    while i < v.len()
        invariant
            i <= v@.len(),
            v@ == s@,
            out@ == start + seq!['\''] + quoted_body(v@.take(i as int)),
        decreases v.len() - i,
    {
        assert(v@.take(i + 1).drop_last() =~= v@.take(i as int));
        if v[i] == '\'' {
            push_char(out, '\'');
            push_char(out, '\'');
        } else {
            push_char(out, v[i]);
        }
        i = i + 1;
        assert(out@ =~= start + seq!['\''] + quoted_body(v@.take(i as int)));
    }
    push_char(out, '\'');
    assert(v@.take(i as int) =~= s@);
    assert(out@ =~= start + quote_spec(s@));
}

/// `s` as an SQL string literal.
pub fn quote_sql_string(s: &str) -> (r: String)
    ensures
        r@ == quote_spec(s@),
{
    let mut out = String::new();
    push_quoted(&mut out, s);
    assert(out@ =~= quote_spec(s@));
    out
}

/// The literals of `items`, joined by `, `.
pub open spec fn in_clause_spec(items: Seq<Seq<char>>) -> Seq<char>
    decreases items.len(),
{
    if items.len() == 0 {
        Seq::empty()
    } else if items.len() == 1 {
        quote_spec(items[0])
    } else {
        in_clause_spec(items.drop_last()) + ", "@ + quote_spec(items.last())
    }
}

/// The items as SQL string literals, joined by `, `: the inside of `IN (..)`.
pub fn build_in_clause(items: &[String]) -> (r: String)
    ensures
        r@ == in_clause_spec(items@.map_values(|s: String| s@)),
{
    let mut out = String::new();
    let mut i: usize = 0;
    while i < items.len()
        invariant
            i <= items@.len(),
            out@ == in_clause_spec(items@.take(i as int).map_values(|s: String| s@)),
        decreases items.len() - i,
    {
        if i > 0 {
            push_str(&mut out, ", ");
        }
        push_quoted(&mut out, items[i].as_str());
        proof {
            let t = items@.take(i + 1).map_values(|s: String| s@);
            assert(t.drop_last() =~= items@.take(i as int).map_values(|s: String| s@));
            if i == 0 {
                assert(out@ =~= quote_spec(t[0]));
            }
        }
        i = i + 1;
    }
    assert(items@.take(i as int) =~= items@);
    out
}

/// A row of the `games` table.
#[derive(Debug, Clone)]
pub struct GameDbRow {
    pub id: String,
    pub display_name: String,
}

/// A row of the `collections` table.
#[derive(Debug, Clone)]
pub struct CollectionDbRow {
    pub id: i64,
    pub name: String,
    pub game_id: String,
    pub version: Option<String>,
    pub language: Option<String>,
    pub added_date: String,
    pub last_updated: Option<String>,
}

/// A row of the `packs` table.
#[derive(Debug, Clone)]
pub struct PackDbRow {
    pub id: String,
    pub game_id: String,
    pub name: String,
    pub date_release: Option<String>,
}

/// A row of the `cards` table.
#[derive(Debug, Clone)]
pub struct CardDbRow {
    pub id: String,
    pub game_id: String,
    pub title: String,
    pub title_normalized: String,
    pub side: Option<String>,
}

/// A row of the `card_versions` table.
#[derive(Debug, Clone)]
pub struct CardVersionDbRow {
    pub id: String,
    pub card_id: String,
    pub pack_id: String,
    pub quantity: i64,
    pub position: Option<i64>,
}

/// A row of the `printings` table.
#[derive(Debug, Clone)]
pub struct PrintingDbRow {
    pub id: i64,
    pub collection_id: i64,
    pub card_id: String,
    pub version_id: Option<String>,
    pub is_official: bool,
    pub variant: Option<String>,
    pub file_path: String,
    pub part: String,
}

/// An optional text as SQL: its literal, or `NULL`.
pub open spec fn opt_sql(o: Option<String>) -> Seq<char> {
    match o {
        Some(s) => quote_spec(s@),
        None => "NULL"@,
    }
}

/// An optional number as SQL: its decimal, or `NULL`.
pub open spec fn opt_int_sql(o: Option<i64>) -> Seq<char> {
    match o {
        Some(n) => signed_decimal(n as int),
        None => "NULL"@,
    }
}

/// Items joined by `, `.
pub open spec fn comma_joined(items: Seq<Seq<char>>) -> Seq<char>
    decreases items.len(),
{
    if items.len() == 0 {
        Seq::empty()
    } else if items.len() == 1 {
        items[0]
    } else {
        comma_joined(items.drop_last()) + ", "@ + items.last()
    }
}

/// Items in brackets, joined by `, `: one row of values.
pub open spec fn tuple_sql(items: Seq<Seq<char>>) -> Seq<char> {
    "("@ + comma_joined(items) + ")"@
}

/// How many rows one `INSERT` statement carries at most.
pub open spec fn rows_per_statement() -> int {
    500
}

/// `INSERT` statements for rows of values: `header` and up to
/// `rows_per_statement` rows joined by `, `, then `;` and a newline, until
/// every row is in one.
pub open spec fn statements_spec(header: Seq<char>, rows: Seq<Seq<char>>) -> Seq<char>
    decreases rows.len(),
{
    if rows.len() == 0 {
        Seq::empty()
    } else {
        let k = if rows.len() < rows_per_statement() {
            rows.len() as int
        } else {
            rows_per_statement()
        };
        header + comma_joined(rows.take(k)) + ";\n"@ + statements_spec(header, rows.skip(k))
    }
}

/// A game row's values.
pub open spec fn game_values(r: GameDbRow) -> Seq<char> {
    tuple_sql(seq![quote_spec(r.id@), quote_spec(r.display_name@)])
}

/// A pack row's values.
pub open spec fn pack_values(r: PackDbRow) -> Seq<char> {
    tuple_sql(seq![quote_spec(r.id@), quote_spec(r.game_id@), quote_spec(r.name@), opt_sql(r.date_release)])
}

/// A card row's values.
pub open spec fn card_values(r: CardDbRow) -> Seq<char> {
    tuple_sql(
        seq![quote_spec(r.id@), quote_spec(r.game_id@), quote_spec(r.title@), quote_spec(r.title_normalized@), opt_sql(r.side)],
    )
}

/// A card version row's values.
pub open spec fn version_values(r: CardVersionDbRow) -> Seq<char> {
    tuple_sql(
        seq![quote_spec(r.id@), quote_spec(r.card_id@), quote_spec(r.pack_id@), signed_decimal(r.quantity as int), opt_int_sql(r.position)],
    )
}

/// A collection row's values.
pub open spec fn collection_values(r: CollectionDbRow) -> Seq<char> {
    tuple_sql(
        seq![
            signed_decimal(r.id as int),
            quote_spec(r.name@),
            quote_spec(r.game_id@),
            opt_sql(r.version),
            opt_sql(r.language),
            quote_spec(r.added_date@),
            opt_sql(r.last_updated),
        ],
    )
}

/// A printing row's values.
pub open spec fn printing_values(r: PrintingDbRow) -> Seq<char> {
    tuple_sql(
        seq![
            signed_decimal(r.id as int),
            signed_decimal(r.collection_id as int),
            quote_spec(r.card_id@),
            opt_sql(r.version_id),
            if r.is_official { "TRUE"@ } else { "FALSE"@ },
            opt_sql(r.variant),
            quote_spec(r.file_path@),
            quote_spec(r.part@),
        ],
    )
}

fn tuple_of(items: &Vec<String>) -> (s: String)
    ensures
        s@ == tuple_sql(texts(items@)),
{
    let mut out = owned("(");
    let ghost start = out@;
    let mut i: usize = 0;
    while i < items.len()
        invariant
            i <= items@.len(),
            start == "("@,
            out@ == start + comma_joined(texts(items@).take(i as int)),
        decreases items.len() - i,
    {
        if i > 0 {
            push_str(&mut out, ", ");
        }
        push_str(&mut out, items[i].as_str());
        proof {
            let t = texts(items@).take(i + 1);
            assert(t.drop_last() =~= texts(items@).take(i as int));
            assert(t.last() == items@[i as int]@);
            if i == 0 {
                assert(out@ =~= start + comma_joined(t));
            } else {
                assert(out@ =~= start + comma_joined(t));
            }
        }
        i = i + 1;
    }
    push_str(&mut out, ")");
    assert(texts(items@).take(i as int) =~= texts(items@));
    out
}

pub(crate) fn opt_sql_text(o: &Option<String>) -> (s: String)
    ensures
        s@ == opt_sql(*o),
{
    match o {
        Some(v) => quote_sql_string(v.as_str()),
        None => owned("NULL"),
    }
}

fn game_row_sql(r: &GameDbRow) -> (s: String)
    ensures
        s@ == game_values(*r),
{
    let mut items: Vec<String> = Vec::new();
    items.push(quote_sql_string(r.id.as_str()));
    items.push(quote_sql_string(r.display_name.as_str()));
    assert(texts(items@) =~= seq![quote_spec(r.id@), quote_spec(r.display_name@)]);
    tuple_of(&items)
}

fn pack_row_sql(r: &PackDbRow) -> (s: String)
    ensures
        s@ == pack_values(*r),
{
    let mut items: Vec<String> = Vec::new();
    items.push(quote_sql_string(r.id.as_str()));
    items.push(quote_sql_string(r.game_id.as_str()));
    items.push(quote_sql_string(r.name.as_str()));
    items.push(opt_sql_text(&r.date_release));
    assert(texts(items@) =~= seq![quote_spec(r.id@), quote_spec(r.game_id@), quote_spec(r.name@), opt_sql(r.date_release)]);
    tuple_of(&items)
}

fn card_row_sql(r: &CardDbRow) -> (s: String)
    ensures
        s@ == card_values(*r),
{
    let mut items: Vec<String> = Vec::new();
    items.push(quote_sql_string(r.id.as_str()));
    items.push(quote_sql_string(r.game_id.as_str()));
    items.push(quote_sql_string(r.title.as_str()));
    items.push(quote_sql_string(r.title_normalized.as_str()));
    items.push(opt_sql_text(&r.side));
    assert(texts(items@) =~= seq![quote_spec(r.id@), quote_spec(r.game_id@), quote_spec(r.title@), quote_spec(r.title_normalized@), opt_sql(r.side)]);
    tuple_of(&items)
}

fn version_row_sql(r: &CardVersionDbRow) -> (s: String)
    ensures
        s@ == version_values(*r),
{
    let mut items: Vec<String> = Vec::new();
    items.push(quote_sql_string(r.id.as_str()));
    items.push(quote_sql_string(r.card_id.as_str()));
    items.push(quote_sql_string(r.pack_id.as_str()));
    items.push(i64_to_string(r.quantity));
    items.push(match r.position {
        Some(p) => i64_to_string(p),
        None => owned("NULL"),
    });
    assert(texts(items@) =~= seq![quote_spec(r.id@), quote_spec(r.card_id@), quote_spec(r.pack_id@), signed_decimal(r.quantity as int), opt_int_sql(r.position)]);
    tuple_of(&items)
}

fn collection_row_sql(r: &CollectionDbRow) -> (s: String)
    ensures
        s@ == collection_values(*r),
{
    let mut items: Vec<String> = Vec::new();
    items.push(i64_to_string(r.id));
    items.push(quote_sql_string(r.name.as_str()));
    items.push(quote_sql_string(r.game_id.as_str()));
    items.push(opt_sql_text(&r.version));
    items.push(opt_sql_text(&r.language));
    items.push(quote_sql_string(r.added_date.as_str()));
    items.push(opt_sql_text(&r.last_updated));
    assert(texts(items@) =~= seq![
        signed_decimal(r.id as int),
        quote_spec(r.name@),
        quote_spec(r.game_id@),
        opt_sql(r.version),
        opt_sql(r.language),
        quote_spec(r.added_date@),
        opt_sql(r.last_updated),
    ]);
    tuple_of(&items)
}

fn printing_row_sql(r: &PrintingDbRow) -> (s: String)
    ensures
        s@ == printing_values(*r),
{
    let mut items: Vec<String> = Vec::new();
    items.push(i64_to_string(r.id));
    items.push(i64_to_string(r.collection_id));
    items.push(quote_sql_string(r.card_id.as_str()));
    items.push(opt_sql_text(&r.version_id));
    items.push(if r.is_official {
        owned("TRUE")
    } else {
        owned("FALSE")
    });
    items.push(opt_sql_text(&r.variant));
    items.push(quote_sql_string(r.file_path.as_str()));
    items.push(quote_sql_string(r.part.as_str()));
    assert(texts(items@) =~= seq![
        signed_decimal(r.id as int),
        signed_decimal(r.collection_id as int),
        quote_spec(r.card_id@),
        opt_sql(r.version_id),
        if r.is_official { "TRUE"@ } else { "FALSE"@ },
        opt_sql(r.variant),
        quote_spec(r.file_path@),
        quote_spec(r.part@),
    ]);
    tuple_of(&items)
}

fn push_statements(out: &mut String, header: &str, rows: &Vec<String>)
    ensures
        final(out)@ == old(out)@ + statements_spec(header@, texts(rows@)),
{
    let ghost start = out@;
    let mut i: usize = 0;
    assert(texts(rows@).skip(0) =~= texts(rows@));
    while i < rows.len()
        invariant
            i <= rows@.len(),
            start + statements_spec(header@, texts(rows@)) == out@ + statements_spec(header@, texts(rows@).skip(i as int)),
        decreases rows.len() - i,
    {
        let ghost rest = texts(rows@).skip(i as int);
        let k: usize = if rows.len() - i < 500 {
            rows.len() - i
        } else {
            500
        };
        let ghost mark = out@;
        push_str(out, header);
        let mut j: usize = 0;
        while j < k
            invariant
                i + k <= rows@.len(),
                j <= k,
                rest == texts(rows@).skip(i as int),
                out@ == mark + header@ + comma_joined(rest.take(j as int)),
            decreases k - j,
        {
            if j > 0 {
                push_str(out, ", ");
            }
            assert(i + j < rows@.len());
            assert(rows@.len() == rows.len());
            let idx: usize = i + j;
            push_str(out, rows[idx].as_str());
            proof {
                assert(rest.take(j + 1).drop_last() =~= rest.take(j as int));
                assert(rest.take(j + 1).last() == rows@[i + j]@);
                if j == 0 {
                    assert(comma_joined(rest.take(1)) == rest.take(1)[0]);
                    assert(out@ =~= mark + header@ + comma_joined(rest.take(1)));
                } else {
                    assert(out@ =~= mark + header@ + comma_joined(rest.take(j + 1)));
                }
            }
            j = j + 1;
        }
        push_str(out, ";\n");
        proof {
            assert(rest.skip(k as int) =~= texts(rows@).skip(i + k));
            assert(out@ =~= mark + (header@ + comma_joined(rest.take(k as int)) + ";\n"@));
        }
        i = i + k;
    }
    assert(texts(rows@).skip(i as int) =~= Seq::<Seq<char>>::empty());
}

/// The whole database as `INSERT` statements, table by table: games, packs,
/// cards, card versions, collections, printings.
pub open spec fn export_sql_spec(
    games: Seq<GameDbRow>,
    packs: Seq<PackDbRow>,
    cards: Seq<CardDbRow>,
    versions: Seq<CardVersionDbRow>,
    collections: Seq<CollectionDbRow>,
    printings: Seq<PrintingDbRow>,
) -> Seq<char> {
    statements_spec("INSERT INTO games (id, display_name) VALUES "@, games.map_values(|r: GameDbRow| game_values(r)))
        + statements_spec(
        "INSERT INTO packs (id, game_id, name, date_release) VALUES "@,
        packs.map_values(|r: PackDbRow| pack_values(r)),
    ) + statements_spec(
        "INSERT INTO cards (id, game_id, title, title_normalized, side) VALUES "@,
        cards.map_values(|r: CardDbRow| card_values(r)),
    ) + statements_spec(
        "INSERT INTO card_versions (id, card_id, pack_id, quantity, position) VALUES "@,
        versions.map_values(|r: CardVersionDbRow| version_values(r)),
    ) + statements_spec(
        "INSERT INTO collections (id, name, game_id, version, language, added_date, last_updated) VALUES "@,
        collections.map_values(|r: CollectionDbRow| collection_values(r)),
    ) + statements_spec(
        "INSERT INTO printings (id, collection_id, card_id, version_id, is_official, variant, file_path, part) VALUES "@,
        printings.map_values(|r: PrintingDbRow| printing_values(r)),
    )
}

/// The database's rows as the SQL script that restores them.
pub fn export_sql_text(
    games: &[GameDbRow],
    packs: &[PackDbRow],
    cards: &[CardDbRow],
    versions: &[CardVersionDbRow],
    collections: &[CollectionDbRow],
    printings: &[PrintingDbRow],
) -> (r: String)
    ensures
        r@ == export_sql_spec(games@, packs@, cards@, versions@, collections@, printings@),
{
    let mut out = String::new();
    let mut rows: Vec<String> = Vec::new();
    let mut i: usize = 0;
    while i < games.len()
        invariant
            i <= games@.len(),
            texts(rows@) == games@.take(i as int).map_values(|r: GameDbRow| game_values(r)),
        decreases games.len() - i,
    {
        let ghost b = rows@;
        rows.push(game_row_sql(&games[i]));
        proof {
            assert(texts(rows@) =~= texts(b).push(game_values(games@[i as int])));
            assert(games@.take(i + 1).map_values(|r: GameDbRow| game_values(r)) =~= games@.take(i as int).map_values(|r: GameDbRow| game_values(r)).push(game_values(games@[i as int])));
        }
        i = i + 1;
    }
    assert(games@.take(i as int) =~= games@);
    push_statements(&mut out, "INSERT INTO games (id, display_name) VALUES ", &rows);
    let mut rows: Vec<String> = Vec::new();
    let mut i: usize = 0;
    while i < packs.len()
        invariant
            i <= packs@.len(),
            texts(rows@) == packs@.take(i as int).map_values(|r: PackDbRow| pack_values(r)),
        decreases packs.len() - i,
    {
        let ghost b = rows@;
        rows.push(pack_row_sql(&packs[i]));
        proof {
            assert(texts(rows@) =~= texts(b).push(pack_values(packs@[i as int])));
            assert(packs@.take(i + 1).map_values(|r: PackDbRow| pack_values(r)) =~= packs@.take(i as int).map_values(|r: PackDbRow| pack_values(r)).push(pack_values(packs@[i as int])));
        }
        i = i + 1;
    }
    assert(packs@.take(i as int) =~= packs@);
    push_statements(&mut out, "INSERT INTO packs (id, game_id, name, date_release) VALUES ", &rows);
    let mut rows: Vec<String> = Vec::new();
    let mut i: usize = 0;
    while i < cards.len()
        invariant
            i <= cards@.len(),
            texts(rows@) == cards@.take(i as int).map_values(|r: CardDbRow| card_values(r)),
        decreases cards.len() - i,
    {
        let ghost b = rows@;
        rows.push(card_row_sql(&cards[i]));
        proof {
            assert(texts(rows@) =~= texts(b).push(card_values(cards@[i as int])));
            assert(cards@.take(i + 1).map_values(|r: CardDbRow| card_values(r)) =~= cards@.take(i as int).map_values(|r: CardDbRow| card_values(r)).push(card_values(cards@[i as int])));
        }
        i = i + 1;
    }
    assert(cards@.take(i as int) =~= cards@);
    push_statements(&mut out, "INSERT INTO cards (id, game_id, title, title_normalized, side) VALUES ", &rows);
    let mut rows: Vec<String> = Vec::new();
    let mut i: usize = 0;
    while i < versions.len()
        invariant
            i <= versions@.len(),
            texts(rows@) == versions@.take(i as int).map_values(|r: CardVersionDbRow| version_values(r)),
        decreases versions.len() - i,
    {
        let ghost b = rows@;
        rows.push(version_row_sql(&versions[i]));
        proof {
            assert(texts(rows@) =~= texts(b).push(version_values(versions@[i as int])));
            assert(versions@.take(i + 1).map_values(|r: CardVersionDbRow| version_values(r)) =~= versions@.take(i as int).map_values(|r: CardVersionDbRow| version_values(r)).push(version_values(versions@[i as int])));
        }
        i = i + 1;
    }
    assert(versions@.take(i as int) =~= versions@);
    push_statements(&mut out, "INSERT INTO card_versions (id, card_id, pack_id, quantity, position) VALUES ", &rows);
    let mut rows: Vec<String> = Vec::new();
    let mut i: usize = 0;
    while i < collections.len()
        invariant
            i <= collections@.len(),
            texts(rows@) == collections@.take(i as int).map_values(|r: CollectionDbRow| collection_values(r)),
        decreases collections.len() - i,
    {
        let ghost b = rows@;
        rows.push(collection_row_sql(&collections[i]));
        proof {
            assert(texts(rows@) =~= texts(b).push(collection_values(collections@[i as int])));
            assert(collections@.take(i + 1).map_values(|r: CollectionDbRow| collection_values(r)) =~= collections@.take(i as int).map_values(|r: CollectionDbRow| collection_values(r)).push(collection_values(collections@[i as int])));
        }
        i = i + 1;
    }
    assert(collections@.take(i as int) =~= collections@);
    push_statements(
        &mut out,
        "INSERT INTO collections (id, name, game_id, version, language, added_date, last_updated) VALUES ",
        &rows,
    );
    let mut rows: Vec<String> = Vec::new();
    let mut i: usize = 0;
    while i < printings.len()
        invariant
            i <= printings@.len(),
            texts(rows@) == printings@.take(i as int).map_values(|r: PrintingDbRow| printing_values(r)),
        decreases printings.len() - i,
    {
        let ghost b = rows@;
        rows.push(printing_row_sql(&printings[i]));
        proof {
            assert(texts(rows@) =~= texts(b).push(printing_values(printings@[i as int])));
            assert(printings@.take(i + 1).map_values(|r: PrintingDbRow| printing_values(r)) =~= printings@.take(i as int).map_values(|r: PrintingDbRow| printing_values(r)).push(printing_values(printings@[i as int])));
        }
        i = i + 1;
    }
    assert(printings@.take(i as int) =~= printings@);
    push_statements(
        &mut out,
        "INSERT INTO printings (id, collection_id, card_id, version_id, is_official, variant, file_path, part) VALUES ",
        &rows,
    );
    assert(out@ =~= export_sql_spec(games@, packs@, cards@, versions@, collections@, printings@));
    out
}

/// The query for the highest id of `table`.
pub fn last_id_sql(table: &str) -> (r: String)
    ensures
        r@ == "SELECT id FROM "@ + table@ + " ORDER BY id DESC LIMIT 1"@,
{
    let mut q = owned("SELECT id FROM ");
    push_str(&mut q, table);
    push_str(&mut q, " ORDER BY id DESC LIMIT 1");
    q
}

/// The id a new row takes: one past the highest, or 1 in an empty table.
pub fn next_id(last: Option<i64>) -> (r: i64)
    requires
        last != Some(i64::MAX),
    ensures
        r == match last {
            Some(id) => id + 1,
            None => 1,
        },
{
    match last {
        Some(id) => id + 1,
        None => 1,
    }
}

} // verus!
