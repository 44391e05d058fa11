//! The queries the card store puts to the database.
use vstd::prelude::*;
use crate::card_store::{normalize_spec, normalize_title};
use crate::db_storage::{build_in_clause, in_clause_spec, quote_spec, quote_sql_string};
use crate::order::texts;
use crate::text::{owned, push_str, to_lowercase, unicode_lowercase};

verus! {

/// The titles of a game's cards that some collection prints, each once, in order.
pub fn card_titles_sql(game_id: &str) -> (r: String)
    ensures
        r@ == "SELECT DISTINCT c.title\n            FROM cards c\n            INNER JOIN printings p ON c.id = p.card_id\n            WHERE c.game_id = "@ + quote_spec(game_id@) + "\n            ORDER BY c.title"@,
{
    let mut q = owned("SELECT DISTINCT c.title\n            FROM cards c\n            INNER JOIN printings p ON c.id = p.card_id\n            WHERE c.game_id = ");
    push_str(&mut q, quote_sql_string(game_id).as_str());
    push_str(&mut q, "\n            ORDER BY c.title");
    q
}

/// Per pack of a game and collection, how many of the pack's own images the collection holds.
pub fn pack_images_sql(game_id: &str) -> (r: String)
    ensures
        r@ == "SELECT\n                p.name as pack_name,\n                p.id as pack_id,\n                col.name AS coll_name,\n                COUNT(pr.id) as coll_count,\n                p.date_release\n            FROM packs p\n            JOIN card_versions v ON p.id = v.pack_id\n            LEFT JOIN printings pr ON pr.version_id = v.id\n            LEFT JOIN collections col ON pr.collection_id = col.id\n            WHERE p.game_id = "@ + quote_spec(game_id@) + "\n            GROUP BY p.id, col.id"@,
{
    let mut q = owned("SELECT\n                p.name as pack_name,\n                p.id as pack_id,\n                col.name AS coll_name,\n                COUNT(pr.id) as coll_count,\n                p.date_release\n            FROM packs p\n            JOIN card_versions v ON p.id = v.pack_id\n            LEFT JOIN printings pr ON pr.version_id = v.id\n            LEFT JOIN collections col ON pr.collection_id = col.id\n            WHERE p.game_id = ");
    push_str(&mut q, quote_sql_string(game_id).as_str());
    push_str(&mut q, "\n            GROUP BY p.id, col.id");
    q
}

/// The card versions of each pack of a game.
pub fn pack_versions_sql(game_id: &str) -> (r: String)
    ensures
        r@ == "SELECT p.id as pack_id, v.id as version_id, v.card_id as card_id\n             FROM packs p\n             JOIN card_versions v ON v.pack_id = p.id\n             WHERE p.game_id = "@ + quote_spec(game_id@) + ""@,
{
    let mut q = owned("SELECT p.id as pack_id, v.id as version_id, v.card_id as card_id\n             FROM packs p\n             JOIN card_versions v ON v.pack_id = p.id\n             WHERE p.game_id = ");
    push_str(&mut q, quote_sql_string(game_id).as_str());
    push_str(&mut q, "");
    q
}

/// The cards of a game that some collection prints.
pub fn printed_cards_sql(game_id: &str) -> (r: String)
    ensures
        r@ == "SELECT pr.card_id as card_id\n             FROM printings pr\n             JOIN cards c ON pr.card_id = c.id\n             WHERE c.game_id = "@ + quote_spec(game_id@) + ""@,
{
    let mut q = owned("SELECT pr.card_id as card_id\n             FROM printings pr\n             JOIN cards c ON pr.card_id = c.id\n             WHERE c.game_id = ");
    push_str(&mut q, quote_sql_string(game_id).as_str());
    push_str(&mut q, "");
    q
}

/// The cards of a game whose normalized title is among `names`, latest printing first.
pub fn cards_by_name_sql(names: &[String], game_id: &str) -> (r: String)
    ensures
        r@ == "SELECT\n                c.api_id as id,\n                c.title,\n                p.api_id as pack_id,\n                c.title_normalized,\n                v.position\n             FROM cards c\n             JOIN card_versions v ON c.id = v.card_id\n             JOIN packs p ON v.pack_id = p.id\n             WHERE c.title_normalized IN ("@ + in_clause_spec(texts(names@)) + ")\n               AND c.game_id = "@ + quote_spec(game_id@) + "\n             ORDER BY\n                 CASE WHEN p.date_release IS NULL THEN 1 ELSE 0 END,\n                 p.date_release DESC,\n                 c.api_id"@,
{
    let mut q = owned("SELECT\n                c.api_id as id,\n                c.title,\n                p.api_id as pack_id,\n                c.title_normalized,\n                v.position\n             FROM cards c\n             JOIN card_versions v ON c.id = v.card_id\n             JOIN packs p ON v.pack_id = p.id\n             WHERE c.title_normalized IN (");
    push_str(&mut q, build_in_clause(names).as_str());
    push_str(&mut q, ")\n               AND c.game_id = ");
    push_str(&mut q, quote_sql_string(game_id).as_str());
    push_str(&mut q, "\n             ORDER BY\n                 CASE WHEN p.date_release IS NULL THEN 1 ELSE 0 END,\n                 p.date_release DESC,\n                 c.api_id");
    q
}

/// The cards of the pack of a game named `set_name`, in any case, in pack order.
pub fn set_cards_sql(set_name: &str, game_id: &str) -> (r: String)
    ensures
        r@ == "SELECT c.api_id as id, c.title, v.quantity, p.api_id as pack_id, v.position\n             FROM cards c\n             JOIN card_versions v ON c.id = v.card_id\n             JOIN packs p ON v.pack_id = p.id\n             WHERE LOWER(p.name) = "@ + quote_spec(unicode_lowercase(set_name@)) + "\n               AND c.game_id = "@ + quote_spec(game_id@) + "\n             ORDER BY v.position, c.id"@,
{
    let mut q = owned("SELECT c.api_id as id, c.title, v.quantity, p.api_id as pack_id, v.position\n             FROM cards c\n             JOIN card_versions v ON c.id = v.card_id\n             JOIN packs p ON v.pack_id = p.id\n             WHERE LOWER(p.name) = ");
    let lower = to_lowercase(set_name);
    push_str(&mut q, quote_sql_string(lower.as_str()).as_str());
    push_str(&mut q, "\n               AND c.game_id = ");
    push_str(&mut q, quote_sql_string(game_id).as_str());
    push_str(&mut q, "\n             ORDER BY v.position, c.id");
    q
}

/// Every printing some collection holds of the cards of a game whose normalized title is among `titles`.
pub fn printings_sql(titles: &[String], game_id: &str) -> (r: String)
    ensures
        r@ == "SELECT\n                c.title,\n                c.api_id as id,\n                (p.version_id IS NOT NULL) AS is_official,\n                p.variant,\n                p.file_path,\n                p.side,\n                col.name,\n                c.back_group,\n                pks.api_id as pack_id,\n                p.has_bleed,\n                pks.date_release,\n                v.position,\n                c.linked_card_code,\n                c.linked_card_name,\n                c.linked_card_back_group\n             FROM printings p\n             JOIN cards c ON p.card_id = c.id\n             JOIN collections col ON p.collection_id = col.id\n             LEFT JOIN card_versions v ON p.version_id = v.id\n             LEFT JOIN packs pks ON v.pack_id = pks.id\n             WHERE c.title_normalized IN ("@ + in_clause_spec(texts(titles@)) + ")\n               AND c.game_id = "@ + quote_spec(game_id@) + ""@,
{
    let mut q = owned("SELECT\n                c.title,\n                c.api_id as id,\n                (p.version_id IS NOT NULL) AS is_official,\n                p.variant,\n                p.file_path,\n                p.side,\n                col.name,\n                c.back_group,\n                pks.api_id as pack_id,\n                p.has_bleed,\n                pks.date_release,\n                v.position,\n                c.linked_card_code,\n                c.linked_card_name,\n                c.linked_card_back_group\n             FROM printings p\n             JOIN cards c ON p.card_id = c.id\n             JOIN collections col ON p.collection_id = col.id\n             LEFT JOIN card_versions v ON p.version_id = v.id\n             LEFT JOIN packs pks ON v.pack_id = pks.id\n             WHERE c.title_normalized IN (");
    push_str(&mut q, build_in_clause(titles).as_str());
    push_str(&mut q, ")\n               AND c.game_id = ");
    push_str(&mut q, quote_sql_string(game_id).as_str());
    push_str(&mut q, "");
    q
}

/// The pack clause of a decklist query: none without packs.
pub open spec fn pack_clause_spec(packs: Seq<Seq<char>>) -> Seq<char> {
    if packs.len() == 0 {
        Seq::empty()
    } else {
        " OR p.api_id IN ("@ + in_clause_spec(packs) + ")"@
    }
}

/// The cards a decklist names: by id or normalized title among `card_ids`,
/// or printed in one of `packs`, of a game.
pub fn decklist_cards_sql(card_ids: &[String], packs: &[String], game_id: &str) -> (r: String)
    ensures
        r@ == "SELECT\n                c.api_id as id,\n                c.title,\n                p.api_id as pack_id,\n                c.title_normalized,\n                v.position\n             FROM cards c\n             JOIN card_versions v ON c.id = v.card_id\n             JOIN packs p ON v.pack_id = p.id\n             WHERE (c.api_id IN ("@ + in_clause_spec(texts(card_ids@)) + ") OR c.title_normalized IN ("@ + in_clause_spec(texts(card_ids@)) + ")"@
            + pack_clause_spec(texts(packs@)) + ")\n               AND c.game_id = "@ + quote_spec(game_id@) + "\n             ORDER BY c.api_id"@,
{
    let ids = build_in_clause(card_ids);
    let mut q = owned("SELECT\n                c.api_id as id,\n                c.title,\n                p.api_id as pack_id,\n                c.title_normalized,\n                v.position\n             FROM cards c\n             JOIN card_versions v ON c.id = v.card_id\n             JOIN packs p ON v.pack_id = p.id\n             WHERE (c.api_id IN (");
    push_str(&mut q, ids.as_str());
    push_str(&mut q, ") OR c.title_normalized IN (");
    push_str(&mut q, ids.as_str());
    push_str(&mut q, ")");
    if packs.len() > 0 {
        push_str(&mut q, " OR p.api_id IN (");
        push_str(&mut q, build_in_clause(packs).as_str());
        push_str(&mut q, ")");
    }
    push_str(&mut q, ")\n               AND c.game_id = ");
    push_str(&mut q, quote_sql_string(game_id).as_str());
    push_str(&mut q, "\n             ORDER BY c.api_id");
    q
}

/// The texts of `v`, each kept where it first appears.
pub open spec fn distinct_spec(v: Seq<Seq<char>>) -> Seq<Seq<char>>
    decreases v.len(),
{
    if v.len() == 0 {
        Seq::empty()
    } else if distinct_spec(v.drop_last()).contains(v.last()) {
        distinct_spec(v.drop_last())
    } else {
        distinct_spec(v.drop_last()).push(v.last())
    }
}

/// The normalized forms of `names`, each once, in the order they first
/// appear: what a query asks for.
pub fn distinct_normalized(names: &[String]) -> (r: Vec<String>)
    ensures
        texts(r@) == distinct_spec(names@.map_values(|s: String| normalize_spec(s@))),
{
    let ghost all = names@.map_values(|s: String| normalize_spec(s@));
    let mut out: Vec<String> = Vec::new();
    let mut i: usize = 0;
    while i < names.len()
        invariant
            i <= names@.len(),
            all == names@.map_values(|s: String| normalize_spec(s@)),
            texts(out@) == distinct_spec(all.take(i as int)),
        decreases names.len() - i,
    {
        let n = normalize_title(names[i].as_str());
        let mut seen = false;
        let mut j: usize = 0;
        while j < out.len()
            invariant
                j <= out@.len(),
                seen == exists|k: int| 0 <= k < j && out@[k]@ == n@,
            decreases out.len() - j,
        {
            if out[j] == n {
                seen = true;
            }
            j = j + 1;
        }
        proof {
            let t = all.take(i + 1);
            assert(t.drop_last() =~= all.take(i as int));
            assert(t.last() == n@);
            if seen {
                let k = choose|k: int| 0 <= k < out@.len() && out@[k]@ == n@;
                assert(texts(out@)[k] == n@);
            } else {
                assert(!texts(out@).contains(n@)) by {
                    if texts(out@).contains(n@) {
                        let k = choose|k: int| 0 <= k < texts(out@).len() && texts(out@)[k] == n@;
                        assert(out@[k]@ == n@);
                    }
                }
            }
        }
        if !seen {
            let ghost b = out@;
            out.push(n);
            assert(texts(out@) =~= texts(b).push(n@));
        }
        i = i + 1;
    }
    assert(all.take(i as int) =~= all);
    out
}

} // verus!
