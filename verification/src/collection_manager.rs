//! The statements that add and remove a collection of card images, and how
//! an image is matched to the catalog version it prints.
use vstd::prelude::*;
use crate::db_storage::{quote_spec, quote_sql_string};
use crate::file_naming::{file_name_of, file_name_spec, split_printing, split_printing_spec, triple_view};
use crate::card_backs::{last_dot, stem_spec};
use crate::text::{chars_of, slice_of};
use crate::text::{i64_to_string, owned, push_str, signed_decimal};

verus! {

/// The statement that records a new collection.
pub open spec fn insert_collection_spec(
    id: i64,
    name: Seq<char>,
    game: Seq<char>,
    version: Seq<char>,
    language: Seq<char>,
    added_date: Seq<char>,
) -> Seq<char> {
    "INSERT INTO collections (id, name, game_id, version, language, added_date) VALUES ("@ + signed_decimal(
        id as int,
    ) + ", "@ + quote_spec(name) + ", "@ + quote_spec(game) + ", "@ + quote_spec(version) + ", "@ + quote_spec(
        language,
    ) + ", '"@ + added_date + "')"@
}

/// The statement that records a new collection, added on `added_date`.
pub fn insert_collection_sql(id: i64, name: &str, game: &str, version: &str, language: &str, added_date: &str) -> (r:
    String)
    ensures
        r@ == insert_collection_spec(id, name@, game@, version@, language@, added_date@),
{
    let mut q = owned("INSERT INTO collections (id, name, game_id, version, language, added_date) VALUES (");
    let n = i64_to_string(id);
    push_str(&mut q, n.as_str());
    push_str(&mut q, ", ");
    let a = quote_sql_string(name);
    push_str(&mut q, a.as_str());
    push_str(&mut q, ", ");
    let b = quote_sql_string(game);
    push_str(&mut q, b.as_str());
    push_str(&mut q, ", ");
    let c = quote_sql_string(version);
    push_str(&mut q, c.as_str());
    push_str(&mut q, ", ");
    let d = quote_sql_string(language);
    push_str(&mut q, d.as_str());
    push_str(&mut q, ", '");
    push_str(&mut q, added_date);
    push_str(&mut q, "')");
    q
}

/// The query for a game's card versions: id, card and pack.
pub open spec fn versions_query_spec(game: Seq<char>) -> Seq<char> {
    "SELECT v.id, v.card_id, v.pack_id FROM card_versions v JOIN packs p ON v.pack_id = p.id WHERE p.game_id = "@
        + quote_spec(game)
}

/// The query for a game's card versions.
pub fn versions_query_sql(game: &str) -> (r: String)
    ensures
        r@ == versions_query_spec(game@),
{
    let mut q = owned(
        "SELECT v.id, v.card_id, v.pack_id FROM card_versions v JOIN packs p ON v.pack_id = p.id WHERE p.game_id = ",
    );
    let g = quote_sql_string(game);
    push_str(&mut q, g.as_str());
    q
}

/// A card version of the catalog: its id, card and pack.
#[derive(Debug, Clone)]
pub struct VersionRow {
    pub id: String,
    pub card_id: String,
    pub pack_id: String,
}

/// The version printed by an image of card `card_id` from pack `pack_id`:
/// that of the last of the first `n` rows naming both.
pub open spec fn version_of_spec(rows: Seq<VersionRow>, card_id: Seq<char>, pack_id: Seq<char>, n: int) -> Option<
    Seq<char>,
>
    decreases n,
{
    if n <= 0 {
        None
    } else if rows[n - 1].card_id@ == card_id && rows[n - 1].pack_id@ == pack_id {
        Some(rows[n - 1].id@)
    } else {
        version_of_spec(rows, card_id, pack_id, n - 1)
    }
}

/// The version an image of card `card_id` from pack `pack_id` prints, if
/// the catalog lists one.
pub fn version_of(rows: &[VersionRow], card_id: &str, pack_id: &str) -> (r: Option<String>)
    ensures
        match r {
            Some(v) => version_of_spec(rows@, card_id@, pack_id@, rows@.len() as int) == Some(v@),
            None => version_of_spec(rows@, card_id@, pack_id@, rows@.len() as int) is None,
        },
{
    let mut k: usize = rows.len();
    while k > 0
        invariant
            k <= rows@.len(),
            version_of_spec(rows@, card_id@, pack_id@, rows@.len() as int) == version_of_spec(
                rows@,
                card_id@,
                pack_id@,
                k as int,
            ),
        decreases k,
    {
        let row = &rows[k - 1];
        if crate::text::str_eq(row.card_id.as_str(), card_id) && crate::text::str_eq(row.pack_id.as_str(), pack_id) {
            return Some(row.id.clone());
        }
        k = k - 1;
    }
    None
}

/// The statement that records one image of a collection: under its version
/// when the catalog lists one for its card and pack, else with the pack
/// name as its variant.
pub open spec fn insert_printing_spec(
    print_id: i64,
    collection_id: i64,
    card_id: Seq<char>,
    version: Option<Seq<char>>,
    printing: Seq<char>,
    file_path: Seq<char>,
    part: Seq<char>,
) -> Seq<char> {
    let (version_sql, variant_sql) = match version {
        Some(v) => (quote_spec(v), "NULL"@),
        None => ("NULL"@, quote_spec(printing)),
    };
    "INSERT INTO printings (id, collection_id, card_id, version_id, variant, file_path, part) VALUES ("@
        + signed_decimal(print_id as int) + ", "@ + signed_decimal(collection_id as int) + ", "@ + quote_spec(
        card_id,
    ) + ", "@ + version_sql + ", "@ + variant_sql + ", "@ + quote_spec(file_path) + ", "@ + quote_spec(part) + ")"@
}

/// The statement that records one image of a collection.
pub fn insert_printing_sql(
    print_id: i64,
    collection_id: i64,
    card_id: &str,
    version: &Option<String>,
    printing: &str,
    file_path: &str,
    part: &str,
) -> (r: String)
    ensures
        r@ == insert_printing_spec(
            print_id,
            collection_id,
            card_id@,
            match version {
                Some(v) => Some(v@),
                None => None,
            },
            printing@,
            file_path@,
            part@,
        ),
{
    let (version_sql, variant_sql) = match version {
        Some(v) => (quote_sql_string(v.as_str()), owned("NULL")),
        None => (owned("NULL"), quote_sql_string(printing)),
    };
    let mut q = owned("INSERT INTO printings (id, collection_id, card_id, version_id, variant, file_path, part) VALUES (");
    let a = i64_to_string(print_id);
    push_str(&mut q, a.as_str());
    push_str(&mut q, ", ");
    let b = i64_to_string(collection_id);
    push_str(&mut q, b.as_str());
    push_str(&mut q, ", ");
    let c = quote_sql_string(card_id);
    push_str(&mut q, c.as_str());
    push_str(&mut q, ", ");
    push_str(&mut q, version_sql.as_str());
    push_str(&mut q, ", ");
    push_str(&mut q, variant_sql.as_str());
    push_str(&mut q, ", ");
    let d = quote_sql_string(file_path);
    push_str(&mut q, d.as_str());
    push_str(&mut q, ", ");
    let e = quote_sql_string(part);
    push_str(&mut q, e.as_str());
    push_str(&mut q, ")");
    q
}

/// The card id, printing and part of a collection image at `path`, named
/// `{card_id}@{printing}[~{part}].{extension}`. The whole stem is read, so a
/// `.bleed` before the extension stays in the printing or the part; a path
/// that names no file gives `None`.
pub fn collection_image_parts(path: &str) -> (r: Option<(String, String, String)>)
    ensures
        triple_view(r) == match file_name_spec(path@) {
            Some(name) => split_printing_spec(stem_spec(name)),
            None => None,
        },
{
    let name = match file_name_of(path) {
        Some(name) => name,
        None => return None,
    };
    let v = chars_of(name.as_str());
    let stem = match last_dot(&v) {
        Some(i) => if i > 0 {
            slice_of(&v, 0, i)
        } else {
            slice_of(&v, 0, v.len())
        },
        None => slice_of(&v, 0, v.len()),
    };
    assert(stem@ =~= stem_spec(name@));
    split_printing(&stem)
}

/// Where a collection's image is kept, relative to the collections folder.
pub fn collection_file_path(collection_name: &str, file_name: &str) -> (r: String)
    ensures
        r@ == collection_name@ + "/"@ + file_name@,
{
    let mut p = owned(collection_name);
    push_str(&mut p, "/");
    push_str(&mut p, file_name);
    p
}

/// The query counting the collections named `name`.
pub fn collection_count_sql(name: &str) -> (r: String)
    ensures
        r@ == "SELECT COUNT(*) AS count FROM collections WHERE name = "@ + quote_spec(name@),
{
    let mut q = owned("SELECT COUNT(*) AS count FROM collections WHERE name = ");
    let n = quote_sql_string(name);
    push_str(&mut q, n.as_str());
    q
}

/// The query for the id of the collection named `name`.
pub fn collection_id_sql(name: &str) -> (r: String)
    ensures
        r@ == "SELECT id FROM collections WHERE name = "@ + quote_spec(name@),
{
    let mut q = owned("SELECT id FROM collections WHERE name = ");
    let n = quote_sql_string(name);
    push_str(&mut q, n.as_str());
    q
}

/// The statements that remove collection `id`: its printings, then itself.
pub fn remove_collection_sql(id: i64) -> (r: (String, String))
    ensures
        r.0@ == "DELETE FROM printings WHERE collection_id = "@ + signed_decimal(id as int),
        r.1@ == "DELETE FROM collections WHERE id = "@ + signed_decimal(id as int),
{
    let n = i64_to_string(id);
    let mut a = owned("DELETE FROM printings WHERE collection_id = ");
    push_str(&mut a, n.as_str());
    let mut b = owned("DELETE FROM collections WHERE id = ");
    push_str(&mut b, n.as_str());
    (a, b)
}

/// A collection as it is listed: name, version and language, an absent
/// one empty.
pub fn collection_listing(name: String, version: Option<String>, language: Option<String>) -> (r: (String, String, String))
    ensures
        r.0@ == name@,
        r.1@ == (match version {
            Some(v) => v@,
            None => Seq::<char>::empty(),
        }),
        r.2@ == (match language {
            Some(l) => l@,
            None => Seq::<char>::empty(),
        }),
{
    let v = match version {
        Some(v) => v,
        None => String::new(),
    };
    let l = match language {
        Some(l) => l,
        None => String::new(),
    };
    (name, v, l)
}

} // verus!
