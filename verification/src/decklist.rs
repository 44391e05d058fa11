//! Resolving a fetched decklist against the catalog rows of its cards.
use vstd::prelude::*;
use crate::card_store::CardStore;
use crate::models::{clone_opt, opt_view, CardRequest, Decklist, DecklistEntry, ResolvedCardRequests};
use crate::text::{chars_of, has_prefix, owned, push_str, starts_with, str_eq};

verus! {

/// A catalog row of a card a decklist may name: its API id, title, the API
/// id of a pack it is in, its normalized title and its position there.
#[derive(Debug, Clone)]
pub struct CardNameRow {
    pub id: String,
    pub title: String,
    pub pack_id: String,
    pub title_normalized: String,
    pub position: Option<i64>,
}

/// The first row with API id `id`.
pub open spec fn first_by_id(rows: Seq<CardNameRow>, id: Seq<char>, n: int) -> Option<int>
    decreases n,
{
    if n <= 0 {
        None
    } else {
        match first_by_id(rows, id, n - 1) {
            Some(i) => Some(i),
            None => if rows[n - 1].id@ == id {
                Some(n - 1)
            } else {
                None
            },
        }
    }
}

/// The first row of pack `pack` at position `pos`.
pub open spec fn first_by_position(rows: Seq<CardNameRow>, pack: Seq<char>, pos: i64, n: int) -> Option<int>
    decreases n,
{
    if n <= 0 {
        None
    } else {
        match first_by_position(rows, pack, pos, n - 1) {
            Some(i) => Some(i),
            None => if rows[n - 1].pack_id@ == pack && rows[n - 1].position == Some(pos) {
                Some(n - 1)
            } else {
                None
            },
        }
    }
}

/// The first row with normalized title `norm`.
pub open spec fn first_by_norm(rows: Seq<CardNameRow>, norm: Seq<char>, n: int) -> Option<int>
    decreases n,
{
    if n <= 0 {
        None
    } else {
        match first_by_norm(rows, norm, n - 1) {
            Some(i) => Some(i),
            None => if rows[n - 1].title_normalized@ == norm {
                Some(n - 1)
            } else {
                None
            },
        }
    }
}

/// A row of pack `pack` answers to the plain name `name`: its normalized
/// title is the name, or the name followed by the `__` of a unique suffix.
pub open spec fn answers_to(row: CardNameRow, pack: Seq<char>, name: Seq<char>) -> bool {
    row.pack_id@ == pack && (row.title_normalized@ == name || has_prefix(
        row.title_normalized@,
        name + seq!['_', '_'],
    ))
}

/// Matching `name` among the first `n` rows of pack `pack`: `None` once two
/// different cards answer to it, else the last row that did, if any.
pub open spec fn name_in_pack(rows: Seq<CardNameRow>, pack: Seq<char>, name: Seq<char>, n: int) -> Option<Option<int>>
    decreases n,
{
    if n <= 0 {
        Some(None)
    } else {
        match name_in_pack(rows, pack, name, n - 1) {
            None => None,
            Some(m) => if answers_to(rows[n - 1], pack, name) {
                match m {
                    Some(i) => if rows[i].id@ != rows[n - 1].id@ {
                        None
                    } else {
                        Some(Some(n - 1))
                    },
                    None => Some(Some(n - 1)),
                }
            } else {
                Some(m)
            },
        }
    }
}

/// The row an entry resolves to: its id exactly, else the one card of its
/// pack its name answers to, else its pack and position, else its name as a
/// normalized title.
pub open spec fn match_entry(rows: Seq<CardNameRow>, e: DecklistEntry) -> Option<int> {
    let n = rows.len() as int;
    match first_by_id(rows, e.card_id@, n) {
        Some(i) => Some(i),
        None => {
            let by_name = match e.pack_id {
                Some(pack) => match name_in_pack(rows, pack@, e.card_id@, n) {
                    Some(Some(i)) => Some(i),
                    _ => None,
                },
                None => None,
            };
            match by_name {
                Some(i) => Some(i),
                None => {
                    let by_position = match (e.pack_id, e.position) {
                        (Some(pack), Some(pos)) => first_by_position(rows, pack@, pos, n),
                        _ => None,
                    };
                    match by_position {
                        Some(i) => Some(i),
                        None => first_by_norm(rows, e.card_id@, n),
                    }
                },
            }
        },
    }
}

/// The texts of a request.
pub open spec fn request_view(r: CardRequest) -> (Seq<char>, Seq<char>, Option<Seq<char>>, Option<Seq<char>>, Option<i64>) {
    (r.title@, r.id@, opt_view(r.printing), opt_view(r.collection), r.position)
}

/// The requests the first `n` entries make: `quantity` copies of a request
/// for the matched card, in the entry's pack and position.
pub open spec fn decklist_requests(rows: Seq<CardNameRow>, entries: Seq<DecklistEntry>, n: int) -> Seq<(Seq<char>, Seq<char>, Option<Seq<char>>, Option<Seq<char>>, Option<i64>)>
    decreases n,
{
    if n <= 0 {
        Seq::empty()
    } else {
        let e = entries[n - 1];
        decklist_requests(rows, entries, n - 1) + match match_entry(rows, e) {
            Some(i) => Seq::new(e.quantity as nat, |k: int| (rows[i].title@, rows[i].id@, opt_view(e.pack_id), None::<Seq<char>>, e.position)),
            None => Seq::empty(),
        }
    }
}

/// The card ids of the first `n` entries that match no row.
pub open spec fn decklist_not_found(rows: Seq<CardNameRow>, entries: Seq<DecklistEntry>, n: int) -> Seq<Seq<char>>
    decreases n,
{
    if n <= 0 {
        Seq::empty()
    } else {
        decklist_not_found(rows, entries, n - 1) + if match_entry(rows, entries[n - 1]) is None {
            seq![entries[n - 1].card_id@]
        } else {
            Seq::empty()
        }
    }
}

fn find_by_id(rows: &[CardNameRow], id: &str) -> (r: Option<usize>)
    ensures
        match r {
            Some(i) => first_by_id(rows@, id@, rows@.len() as int) == Some(i as int) && i < rows@.len(),
            None => first_by_id(rows@, id@, rows@.len() as int) is None,
        },
{
    let mut i: usize = 0;
    while i < rows.len()
        invariant
            i <= rows@.len(),
            first_by_id(rows@, id@, i as int) is None,
        decreases rows.len() - i,
    {
        if str_eq(rows[i].id.as_str(), id) {
            proof {
                lemma_first_by_id_stays(rows@, id@, i as int + 1, rows@.len() as int);
            }
            return Some(i);
        }
        i = i + 1;
    }
    None
}

proof fn lemma_first_by_id_stays(rows: Seq<CardNameRow>, id: Seq<char>, a: int, b: int)
    requires
        0 <= a <= b,
        first_by_id(rows, id, a) is Some,
    ensures
        first_by_id(rows, id, b) == first_by_id(rows, id, a),
    decreases b - a,
{
    if a < b {
        lemma_first_by_id_stays(rows, id, a, b - 1);
    }
}

proof fn lemma_first_by_norm_stays(rows: Seq<CardNameRow>, norm: Seq<char>, a: int, b: int)
    requires
        0 <= a <= b,
        first_by_norm(rows, norm, a) is Some,
    ensures
        first_by_norm(rows, norm, b) == first_by_norm(rows, norm, a),
    decreases b - a,
{
    if a < b {
        lemma_first_by_norm_stays(rows, norm, a, b - 1);
    }
}

proof fn lemma_first_by_position_stays(rows: Seq<CardNameRow>, pack: Seq<char>, pos: i64, a: int, b: int)
    requires
        0 <= a <= b,
        first_by_position(rows, pack, pos, a) is Some,
    ensures
        first_by_position(rows, pack, pos, b) == first_by_position(rows, pack, pos, a),
    decreases b - a,
{
    if a < b {
        lemma_first_by_position_stays(rows, pack, pos, a, b - 1);
    }
}

fn find_by_norm(rows: &[CardNameRow], norm: &str) -> (r: Option<usize>)
    ensures
        match r {
            Some(i) => first_by_norm(rows@, norm@, rows@.len() as int) == Some(i as int) && i < rows@.len(),
            None => first_by_norm(rows@, norm@, rows@.len() as int) is None,
        },
{
    let mut i: usize = 0;
    while i < rows.len()
        invariant
            i <= rows@.len(),
            first_by_norm(rows@, norm@, i as int) is None,
        decreases rows.len() - i,
    {
        if str_eq(rows[i].title_normalized.as_str(), norm) {
            proof {
                lemma_first_by_norm_stays(rows@, norm@, i as int + 1, rows@.len() as int);
            }
            return Some(i);
        }
        i = i + 1;
    }
    None
}

fn find_by_position(rows: &[CardNameRow], pack: &str, pos: i64) -> (r: Option<usize>)
    ensures
        match r {
            Some(i) => first_by_position(rows@, pack@, pos, rows@.len() as int) == Some(i as int) && i < rows@.len(),
            None => first_by_position(rows@, pack@, pos, rows@.len() as int) is None,
        },
{
    let mut i: usize = 0;
    while i < rows.len()
        invariant
            i <= rows@.len(),
            first_by_position(rows@, pack@, pos, i as int) is None,
        decreases rows.len() - i,
    {
        if str_eq(rows[i].pack_id.as_str(), pack) && rows[i].position == Some(pos) {
            proof {
                lemma_first_by_position_stays(rows@, pack@, pos, i as int + 1, rows@.len() as int);
            }
            return Some(i);
        }
        i = i + 1;
    }
    None
}

fn find_name_in_pack(rows: &[CardNameRow], pack: &str, name: &str) -> (r: Option<usize>)
    ensures
        match r {
            Some(i) => name_in_pack(rows@, pack@, name@, rows@.len() as int) == Some(Some(i as int)) && i < rows@.len(),
            None => !(name_in_pack(rows@, pack@, name@, rows@.len() as int) matches Some(Some(_))),
        },
{
    let mut boundary = owned(name);
    push_str(&mut boundary, "__");
    proof {
        reveal_strlit("__");
        assert("__"@ =~= seq!['_', '_']);
    }
    let b = chars_of(boundary.as_str());
    let mut matched: Option<usize> = None;
    let mut i: usize = 0;
    while i < rows.len()
        invariant
            i <= rows@.len(),
            b@ == name@ + seq!['_', '_'],
            name_in_pack(rows@, pack@, name@, i as int) == Some(match matched {
                Some(k) => Some(k as int),
                None => None,
            }),
            matched matches Some(k) ==> k < i,
        decreases rows.len() - i,
    {
        let row = &rows[i];
        let answers = str_eq(row.pack_id.as_str(), pack) && (str_eq(row.title_normalized.as_str(), name) || starts_with(&chars_of(row.title_normalized.as_str()), &b));
        if answers {
            match matched {
                Some(k) => {
                    if !str_eq(rows[k].id.as_str(), row.id.as_str()) {
                        proof {
                            lemma_name_in_pack_stays_none(rows@, pack@, name@, i as int + 1, rows@.len() as int);
                        }
                        return None;
                    }
                    matched = Some(i);
                },
                None => {
                    matched = Some(i);
                },
            }
        }
        i = i + 1;
    }
    matched
}

proof fn lemma_name_in_pack_stays_none(rows: Seq<CardNameRow>, pack: Seq<char>, name: Seq<char>, a: int, b: int)
    requires
        0 <= a <= b,
        name_in_pack(rows, pack, name, a) is None,
    ensures
        name_in_pack(rows, pack, name, b) is None,
    decreases b - a,
{
    if a < b {
        lemma_name_in_pack_stays_none(rows, pack, name, a, b - 1);
    }
}

fn match_entry_exec(rows: &[CardNameRow], e: &DecklistEntry) -> (r: Option<usize>)
    ensures
        match r {
            Some(i) => match_entry(rows@, *e) == Some(i as int) && i < rows@.len(),
            None => match_entry(rows@, *e) is None,
        },
{
    if let Some(i) = find_by_id(rows, e.card_id.as_str()) {
        return Some(i);
    }
    if let Some(pack) = &e.pack_id {
        if let Some(i) = find_name_in_pack(rows, pack.as_str(), e.card_id.as_str()) {
            return Some(i);
        }
        if let Some(pos) = e.position {
            if let Some(i) = find_by_position(rows, pack.as_str(), pos) {
                return Some(i);
            }
        }
    }
    find_by_norm(rows, e.card_id.as_str())
}

impl CardStore {
    /// The requests a decklist makes, resolved against the catalog rows of
    /// the cards it names (each card's rows in every pack it is in). An
    /// entry is matched by its id exactly; else, for an entry naming a pack,
    /// by the one card of that pack its name answers to, ignoring a unique
    /// `__` suffix; else by its pack and position; else by its name as a
    /// normalized title. A matched entry asks for `quantity` copies of the
    /// card in the entry's pack and position; the ids of the others are
    /// reported as not found.
    pub fn resolve_decklist_to_requests(&self, decklist: &Decklist, rows: &[CardNameRow]) -> (r: ResolvedCardRequests)
        ensures
            r.requests@.map_values(|q: CardRequest| request_view(q)) == decklist_requests(rows@, decklist.cards@, decklist.cards@.len() as int),
            r.not_found@.map_values(|s: String| s@) == decklist_not_found(rows@, decklist.cards@, decklist.cards@.len() as int),
    {
        let mut requests: Vec<CardRequest> = Vec::new();
        let mut not_found: Vec<String> = Vec::new();
        let mut n: usize = 0;
        while n < decklist.cards.len()
            invariant
                n <= decklist.cards@.len(),
                requests@.map_values(|q: CardRequest| request_view(q)) == decklist_requests(rows@, decklist.cards@, n as int),
                not_found@.map_values(|s: String| s@) == decklist_not_found(rows@, decklist.cards@, n as int),
            decreases decklist.cards.len() - n,
        {
            let e = &decklist.cards[n];
            let ghost rb = requests@.map_values(|q: CardRequest| request_view(q));
            let ghost nb = not_found@.map_values(|s: String| s@);
            match match_entry_exec(rows, e) {
                Some(i) => {
                    let ghost item = (rows@[i as int].title@, rows@[i as int].id@, opt_view(e.pack_id), None::<Seq<char>>, e.position);
                    let mut k: u32 = 0;
                    while k < e.quantity
                        invariant
                            k <= e.quantity,
                            i < rows@.len(),
                            item == (rows@[i as int].title@, rows@[i as int].id@, opt_view(e.pack_id), None::<Seq<char>>, e.position),
                            requests@.map_values(|q: CardRequest| request_view(q)) == rb + Seq::new(k as nat, |j: int| item),
                        decreases e.quantity - k,
                    {
                        let req = CardRequest {
                            title: rows[i].title.clone(),
                            id: rows[i].id.clone(),
                            printing: clone_opt(&e.pack_id),
                            collection: None,
                            position: e.position,
                        };
                        let ghost before = requests@;
                        requests.push(req);
                        proof {
                            crate::seqs::lemma_push_map(before, req, |q: CardRequest| request_view(q));
                        }
                        k = k + 1;
                        assert(requests@.map_values(|q: CardRequest| request_view(q)) =~= rb + Seq::new(k as nat, |j: int| item));
                    }
                    assert(not_found@.map_values(|s: String| s@) =~= decklist_not_found(rows@, decklist.cards@, n + 1));
                },
                None => {
                    not_found.push(e.card_id.clone());
                    assert(not_found@.map_values(|s: String| s@) =~= decklist_not_found(rows@, decklist.cards@, n + 1));
                    assert(requests@.map_values(|q: CardRequest| request_view(q)) =~= decklist_requests(rows@, decklist.cards@, n + 1));
                },
            }
            n = n + 1;
        }
        ResolvedCardRequests { requests, not_found }
    }
}

} // verus!
