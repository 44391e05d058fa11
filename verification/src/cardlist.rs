//! Typed card lists and whole sets as card requests.
use vstd::prelude::*;
use crate::card_store::{
    brackets_in_order, clean_card_name, clean_spec, normalize_spec, normalize_title, override_error,
    override_spec, override_view, parse_quantity_spec, CardStore,
};
use crate::decklist::{request_view, CardNameRow};
use crate::error::ProxyNexusError;
use crate::games::urls::{before_any, before_any_of};
use crate::keyed::StrMap;
use crate::models::{clone_opt, opt_view, CardRequest, ResolvedCardRequests};
use crate::text::{chars_of, find_char, owned, push_str, split_on, split_spec, str_eq, string_of, trim_chars, trim_spec};

verus! {

/// One entry of a card list: a name with its quantity and the printing,
/// position and collection it asks for.
#[derive(Debug, Clone)]
pub struct CardlistEntry {
    pub name: String,
    pub quantity: u32,
    pub printing: Option<String>,
    pub position: Option<i64>,
    pub collection: Option<String>,
}

/// The texts of an entry.
pub open spec fn entry_view(e: CardlistEntry) -> (Seq<char>, u32, Option<Seq<char>>, Option<i64>, Option<Seq<char>>) {
    (e.name@, e.quantity, opt_view(e.printing), e.position, opt_view(e.collection))
}

/// What a line holds: the part before any `#`, trimmed.
pub open spec fn line_content(line: Seq<char>) -> Seq<char> {
    trim_spec(before_any(line, seq!['#']))
}

/// A line's override can be read: its brackets come in order.
pub open spec fn line_readable(line: Seq<char>) -> bool {
    line_content(line).len() > 0 ==> brackets_in_order(parse_quantity_spec(line_content(line)).1)
}

/// The entry a line gives, none for a blank or comment line, or the error
/// its override makes.
pub open spec fn line_entry(line: Seq<char>) -> Option<Result<(Seq<char>, u32, Option<Seq<char>>, Option<i64>, Option<Seq<char>>), Seq<char>>> {
    let c = line_content(line);
    if c.len() == 0 {
        None
    } else {
        let (q, rest) = parse_quantity_spec(c);
        match override_error(rest) {
            Some(m) => Some(Err(m)),
            None => {
                let o = override_spec(rest);
                Some(Ok((clean_spec(o.0), q, o.1, o.2, o.3)))
            },
        }
    }
}

/// The entries of the first `n` lines, or the first error.
pub open spec fn cardlist_spec(lines: Seq<Seq<char>>, n: int) -> Result<Seq<(Seq<char>, u32, Option<Seq<char>>, Option<i64>, Option<Seq<char>>)>, Seq<char>>
    decreases n,
{
    if n <= 0 {
        Ok(Seq::empty())
    } else {
        match cardlist_spec(lines, n - 1) {
            Err(m) => Err(m),
            Ok(es) => match line_entry(lines[n - 1]) {
                None => Ok(es),
                Some(Err(m)) => Err(m),
                Some(Ok(e)) => Ok(es.push(e)),
            },
        }
    }
}

proof fn lemma_cardlist_err_stays(lines: Seq<Seq<char>>, a: int, b: int)
    requires
        0 <= a <= b,
        cardlist_spec(lines, a) is Err,
    ensures
        cardlist_spec(lines, b) == cardlist_spec(lines, a),
    decreases b - a,
{
    if a < b {
        lemma_cardlist_err_stays(lines, a, b - 1);
    }
}

/// Whether every line's override of a card list can be read: what
/// `parse_cardlist` asks of its text.
pub fn is_readable_cardlist(text: &str) -> (r: bool)
    ensures
        r == forall|i: int| 0 <= i < split_spec(text@, '\n').len() ==> line_readable(#[trigger] split_spec(text@, '\n')[i]),
{
    let lines = split_on(&chars_of(text), '\n');
    let ghost ls = split_spec(text@, '\n');
    let mut hash: Vec<char> = Vec::new();
    hash.push('#');
    assert(hash@ =~= seq!['#']);
    let mut i: usize = 0;
    while i < lines.len()
        invariant
            i <= lines@.len(),
            lines@.len() == ls.len(),
            ls == split_spec(text@, '\n'),
            hash@ == seq!['#'],
            forall|k: int| 0 <= k < lines@.len() ==> (#[trigger] lines@[k])@ == ls[k],
            forall|k: int| 0 <= k < i ==> line_readable(#[trigger] ls[k]),
        decreases lines.len() - i,
    {
        let content = trim_chars(&before_any_of(&lines[i], &hash));
        assert(content@ == line_content(ls[i as int]));
        if content.len() > 0 {
            let cs = string_of(&content);
            let (_, rest) = CardStore::parse_quantity(cs.as_str());
            let v = chars_of(rest);
            match (find_char(&v, '['), find_char(&v, ']')) {
                (Some(b), Some(e)) => {
                    if b >= e {
                        assert(!line_readable(ls[i as int]));
                        return false;
                    }
                },
                _ => {},
            }
        }
        i = i + 1;
    }
    true
}

/// Reads a card list, one entry per line: `[{n}x ]{name}[ [{printing}:{position}:{collection}]]`,
/// with `#` starting a comment and blank lines skipped.
pub fn parse_cardlist(text: &str) -> (r: Result<Vec<CardlistEntry>, ProxyNexusError>)
    requires
        forall|i: int| 0 <= i < split_spec(text@, '\n').len() ==> line_readable(#[trigger] split_spec(text@, '\n')[i]),
    ensures
        match r {
            Ok(es) => cardlist_spec(split_spec(text@, '\n'), split_spec(text@, '\n').len() as int) == Ok::<Seq<(Seq<char>, u32, Option<Seq<char>>, Option<i64>, Option<Seq<char>>)>, Seq<char>>(es@.map_values(|e: CardlistEntry| entry_view(e))),
            Err(ProxyNexusError::Internal(m)) => cardlist_spec(split_spec(text@, '\n'), split_spec(text@, '\n').len() as int) == Err::<Seq<(Seq<char>, u32, Option<Seq<char>>, Option<i64>, Option<Seq<char>>)>, Seq<char>>(m@),
            Err(_) => false,
        },
{
    let lines = split_on(&chars_of(text), '\n');
    let ghost ls = split_spec(text@, '\n');
    let mut hash: Vec<char> = Vec::new();
    hash.push('#');
    assert(hash@ =~= seq!['#']);
    let mut out: Vec<CardlistEntry> = Vec::new();
    assert(out@.map_values(|e: CardlistEntry| entry_view(e)) =~= Seq::empty());
    let mut i: usize = 0;
    while i < lines.len()
        invariant
            i <= lines@.len(),
            lines@.len() == ls.len(),
            ls == split_spec(text@, '\n'),
            hash@ == seq!['#'],
            forall|k: int| 0 <= k < lines@.len() ==> (#[trigger] lines@[k])@ == ls[k],
            forall|k: int| 0 <= k < ls.len() ==> line_readable(#[trigger] ls[k]),
            cardlist_spec(ls, i as int) == Ok::<Seq<(Seq<char>, u32, Option<Seq<char>>, Option<i64>, Option<Seq<char>>)>, Seq<char>>(out@.map_values(|e: CardlistEntry| entry_view(e))),
        decreases lines.len() - i,
    {
        let content = trim_chars(&before_any_of(&lines[i], &hash));
        assert(content@ == line_content(ls[i as int]));
        assert(line_readable(ls[i as int]));
        if content.len() > 0 {
            let cs = string_of(&content);
            let (qty, rest) = CardStore::parse_quantity(cs.as_str());
            match CardStore::parse_overrides(rest) {
                Ok(o) => {
                    let ghost ov = override_view(o);
                    let (name, printing, position, collection) = o;
                    let entry = CardlistEntry { name: owned(clean_card_name(name)), quantity: qty, printing, position, collection };
                    let ghost before = out@;
                    out.push(entry);
                    proof {
                        crate::seqs::lemma_push_map(before, entry, |e: CardlistEntry| entry_view(e));
                    }
                },
                Err(e) => {
                    proof {
                        if let ProxyNexusError::Internal(m) = &e {
                            assert(override_error(rest@) == Some(m@));
                            assert(line_entry(ls[i as int]) == Some(Err::<(Seq<char>, u32, Option<Seq<char>>, Option<i64>, Option<Seq<char>>), Seq<char>>(m@)));
                            assert(cardlist_spec(ls, i + 1) == Err::<Seq<(Seq<char>, u32, Option<Seq<char>>, Option<i64>, Option<Seq<char>>)>, Seq<char>>(m@));
                            lemma_cardlist_err_stays(ls, i + 1, ls.len() as int);
                            assert(cardlist_spec(split_spec(text@, '\n'), split_spec(text@, '\n').len() as int) == Err::<Seq<(Seq<char>, u32, Option<Seq<char>>, Option<i64>, Option<Seq<char>>)>, Seq<char>>(m@));
                        } else {
                            assert(false);
                        }
                    }
                    return Err(e);
                },
            }
        }
        i = i + 1;
    }
    Ok(out)
}

/// The first of the rows, in the order the query gives them (newest pack
/// first), whose normalized title is `norm`.
pub open spec fn first_row_of(rows: Seq<CardNameRow>, norm: Seq<char>, n: int) -> Option<int>
    decreases n,
{
    if n <= 0 {
        None
    } else {
        match first_row_of(rows, norm, n - 1) {
            Some(i) => Some(i),
            None => if rows[n - 1].title_normalized@ == norm {
                Some(n - 1)
            } else {
                None
            },
        }
    }
}

/// The printing an entry asks for, else the pack its card defaults to.
pub open spec fn printing_or(printing: Option<String>, pack: Seq<char>) -> Option<Seq<char>> {
    match printing {
        Some(p) => Some(p@),
        None => Some(pack),
    }
}

/// The requests the first `n` entries make: for an entry whose name's
/// normalized title has a row, `quantity` copies of a request for that row's
/// card, in the entry's printing (else the row's pack), position and
/// collection.
pub open spec fn cardlist_requests_spec(entries: Seq<CardlistEntry>, rows: Seq<CardNameRow>, n: int) -> Seq<(Seq<char>, Seq<char>, Option<Seq<char>>, Option<Seq<char>>, Option<i64>)>
    decreases n,
{
    if n <= 0 {
        Seq::empty()
    } else {
        let e = entries[n - 1];
        cardlist_requests_spec(entries, rows, n - 1) + match first_row_of(rows, normalize_spec(e.name@), rows.len() as int) {
            Some(k) => Seq::new(e.quantity as nat, |j: int| (rows[k].title@, rows[k].id@, printing_or(e.printing, rows[k].pack_id@), opt_view(e.collection), e.position)),
            None => Seq::empty(),
        }
    }
}

/// The names among the first `n` entries that resolve to no card, each once.
pub open spec fn unresolved_names(entries: Seq<CardlistEntry>, rows: Seq<CardNameRow>, n: int) -> Seq<Seq<char>>
    decreases n,
{
    if n <= 0 {
        Seq::empty()
    } else {
        let prev = unresolved_names(entries, rows, n - 1);
        let name = entries[n - 1].name@;
        if first_row_of(rows, normalize_spec(name), rows.len() as int) is None && !prev.contains(name) {
            prev.push(name)
        } else {
            prev
        }
    }
}

fn find_row(rows: &[CardNameRow], norm: &str) -> (r: Option<usize>)
    ensures
        match r {
            Some(k) => first_row_of(rows@, norm@, rows@.len() as int) == Some(k as int) && k < rows@.len(),
            None => first_row_of(rows@, norm@, rows@.len() as int) is None,
        },
{
    let mut i: usize = 0;
    while i < rows.len()
        invariant
            i <= rows@.len(),
            first_row_of(rows@, norm@, i as int) is None,
        decreases rows.len() - i,
    {
        if str_eq(rows[i].title_normalized.as_str(), norm) {
            proof {
                lemma_first_row_stays(rows@, norm@, i + 1, rows@.len() as int);
            }
            return Some(i);
        }
        i = i + 1;
    }
    None
}

proof fn lemma_first_row_stays(rows: Seq<CardNameRow>, norm: Seq<char>, a: int, b: int)
    requires
        0 <= a <= b,
        first_row_of(rows, norm, a) is Some,
    ensures
        first_row_of(rows, norm, b) == first_row_of(rows, norm, a),
    decreases b - a,
{
    if a < b {
        lemma_first_row_stays(rows, norm, a, b - 1);
    }
}

impl CardStore {
    /// The requests a parsed card list makes, resolving each name by its
    /// normalized title against the catalog rows of those titles (newest
    /// pack first), and the names that resolve to no card.
    pub fn cardlist_requests(&self, entries: &[CardlistEntry], rows: &[CardNameRow]) -> (r: ResolvedCardRequests)
        ensures
            r.requests@.map_values(|q: CardRequest| request_view(q)) == cardlist_requests_spec(entries@, rows@, entries@.len() as int),
            r.not_found@.map_values(|s: String| s@) == unresolved_names(entries@, rows@, entries@.len() as int),
    {
        let mut requests: Vec<CardRequest> = Vec::new();
        let mut not_found: Vec<String> = Vec::new();
        let mut n: usize = 0;
        while n < entries.len()
            invariant
                n <= entries@.len(),
                requests@.map_values(|q: CardRequest| request_view(q)) == cardlist_requests_spec(entries@, rows@, n as int),
                not_found@.map_values(|s: String| s@) == unresolved_names(entries@, rows@, n as int),
            decreases entries.len() - n,
        {
            let e = &entries[n];
            let norm = normalize_title(e.name.as_str());
            let ghost rb = requests@.map_values(|q: CardRequest| request_view(q));
            match find_row(rows, norm.as_str()) {
                Some(k) => {
                    let ghost item = (rows@[k as int].title@, rows@[k as int].id@, printing_or(e.printing, rows@[k as int].pack_id@), opt_view(e.collection), e.position);
                    let mut c: u32 = 0;
                    while c < e.quantity
                        invariant
                            c <= e.quantity,
                            k < rows@.len(),
                            item == (rows@[k as int].title@, rows@[k as int].id@, printing_or(e.printing, rows@[k as int].pack_id@), opt_view(e.collection), e.position),
                            requests@.map_values(|q: CardRequest| request_view(q)) == rb + Seq::new(c as nat, |j: int| item),
                        decreases e.quantity - c,
                    {
                        let printing = match &e.printing {
                            Some(p) => Some(p.clone()),
                            None => Some(rows[k].pack_id.clone()),
                        };
                        let req = CardRequest {
                            title: rows[k].title.clone(),
                            id: rows[k].id.clone(),
                            printing,
                            collection: clone_opt(&e.collection),
                            position: e.position,
                        };
                        let ghost before = requests@;
                        requests.push(req);
                        proof {
                            crate::seqs::lemma_push_map(before, req, |q: CardRequest| request_view(q));
                        }
                        c = c + 1;
                        assert(requests@.map_values(|q: CardRequest| request_view(q)) =~= rb + Seq::new(c as nat, |j: int| item));
                    }
                    assert(requests@.map_values(|q: CardRequest| request_view(q)) =~= cardlist_requests_spec(entries@, rows@, n + 1));
                },
                None => {
                    let ghost nb = not_found@.map_values(|s: String| s@);
                    let mut seen = false;
                    let mut j: usize = 0;
                    while j < not_found.len()
                        invariant
                            j <= not_found@.len(),
                            nb == not_found@.map_values(|s: String| s@),
                            seen == exists|m: int| 0 <= m < j && (#[trigger] not_found@[m])@ == e.name@,
                        decreases not_found.len() - j,
                    {
                        if str_eq(not_found[j].as_str(), e.name.as_str()) {
                            seen = true;
                        }
                        j = j + 1;
                    }
                    proof {
                        if seen {
                            let m = choose|m: int| 0 <= m < j && (#[trigger] not_found@[m])@ == e.name@;
                            assert(nb[m] == e.name@);
                        } else {
                            assert forall|m: int| 0 <= m < nb.len() implies #[trigger] nb[m] != e.name@ by {
                                assert(not_found@[m]@ != e.name@);
                            }
                        }
                    }
                    if !seen {
                        let name = e.name.clone();
                        let ghost before = not_found@;
                        not_found.push(name);
                        proof {
                            crate::seqs::lemma_push_map(before, name, |s: String| s@);
                        }
                    }
                    assert(requests@.map_values(|q: CardRequest| request_view(q)) =~= cardlist_requests_spec(entries@, rows@, n + 1));
                },
            }
            n = n + 1;
        }
        ResolvedCardRequests { requests, not_found }
    }
}

/// A catalog row of a card in a set: its API id, title, playset quantity,
/// the set's API id and the card's position there.
#[derive(Debug, Clone)]
pub struct CardRequestRow {
    pub id: String,
    pub title: String,
    pub quantity: i64,
    pub pack_id: String,
    pub position: Option<i64>,
}

/// The requests the first `n` rows of a set make: as many copies of each
/// card as its quantity (none when not positive), in the set, at its
/// position.
pub open spec fn set_requests_spec(rows: Seq<CardRequestRow>, n: int) -> Seq<(Seq<char>, Seq<char>, Option<Seq<char>>, Option<Seq<char>>, Option<i64>)>
    decreases n,
{
    if n <= 0 {
        Seq::empty()
    } else {
        let r = rows[n - 1];
        set_requests_spec(rows, n - 1) + Seq::new(if r.quantity > 0 { r.quantity as nat } else { 0 }, |j: int| (r.title@, r.id@, Some(r.pack_id@), None::<Seq<char>>, r.position))
    }
}

/// How many copies of a card a set row asks for: its quantity when positive,
/// none otherwise.
pub open spec fn copies_of(quantity: i64) -> nat {
    if quantity > 0 {
        quantity as nat
    } else {
        0
    }
}

/// How many copies the first `n` rows of a set ask for in all.
pub open spec fn total_copies(rows: Seq<CardRequestRow>, n: int) -> nat
    decreases n,
{
    if n <= 0 {
        0
    } else {
        total_copies(rows, n - 1) + copies_of(rows[n - 1].quantity)
    }
}

proof fn lemma_total_copies_grow(rows: Seq<CardRequestRow>, k: int, n: int)
    requires
        0 <= k <= n <= rows.len(),
    ensures
        total_copies(rows, k) <= total_copies(rows, n),
    decreases n - k,
{
    if k < n {
        lemma_total_copies_grow(rows, k, n - 1);
    }
}

/// A set makes the retail playset of each of its cards: the first `n` rows
/// make as many requests as their positive quantities add up to, and row
/// `k`'s copies stand together, in row order, each asking for that card in
/// the set's printing at the row's position.
pub proof fn lemma_set_requests_are_playsets(rows: Seq<CardRequestRow>, n: int)
    requires
        0 <= n <= rows.len(),
    ensures
        set_requests_spec(rows, n).len() == total_copies(rows, n),
        forall|k: int, c: int|
            0 <= k < n && 0 <= c < copies_of(rows[k].quantity) ==> #[trigger] set_requests_spec(rows, n)[total_copies(rows, k) + c]
                == (rows[k].title@, rows[k].id@, Some(rows[k].pack_id@), None::<Seq<char>>, rows[k].position),
    decreases n,
{
    if n > 0 {
        lemma_set_requests_are_playsets(rows, n - 1);
        let prev = set_requests_spec(rows, n - 1);
        let whole = set_requests_spec(rows, n);
        assert forall|k: int, c: int|
            0 <= k < n && 0 <= c < copies_of(rows[k].quantity) implies #[trigger] whole[total_copies(rows, k) + c]
                == (rows[k].title@, rows[k].id@, Some(rows[k].pack_id@), None::<Seq<char>>, rows[k].position) by {
            if k < n - 1 {
                lemma_total_copies_grow(rows, k + 1, n - 1);
                assert(whole[total_copies(rows, k) + c] == prev[total_copies(rows, k) + c]);
            }
        }
    }
}

/// The message of a set with no cards.
pub open spec fn empty_set_message(set_name: Seq<char>) -> Seq<char> {
    "No cards found for set '"@ + set_name + "'"@
}

impl CardStore {
    /// The requests a whole set makes, from the rows of its cards: each card
    /// as many times as its playset quantity; an error when that makes none.
    pub fn set_requests(&self, set_name: &str, rows: &[CardRequestRow]) -> (r: Result<Vec<CardRequest>, ProxyNexusError>)
        ensures
            set_requests_spec(rows@, rows@.len() as int).len() == 0 <==> r is Err,
            r matches Ok(v) ==> v@.map_values(|q: CardRequest| request_view(q)) == set_requests_spec(rows@, rows@.len() as int),
            r matches Ok(v) ==> v@.len() == total_copies(rows@, rows@.len() as int),
            r matches Err(e) ==> (e matches ProxyNexusError::Internal(m) && m@ == empty_set_message(set_name@)),
    {
        proof {
            lemma_set_requests_are_playsets(rows@, rows@.len() as int);
        }
        let mut out: Vec<CardRequest> = Vec::new();
        let mut n: usize = 0;
        while n < rows.len()
            invariant
                n <= rows@.len(),
                out@.map_values(|q: CardRequest| request_view(q)) == set_requests_spec(rows@, n as int),
            decreases rows.len() - n,
        {
            let r = &rows[n];
            let ghost rb = out@.map_values(|q: CardRequest| request_view(q));
            let ghost item = (r.title@, r.id@, Some(r.pack_id@), None::<Seq<char>>, r.position);
            let mut c: i64 = 0;
            while c < r.quantity
                invariant
                    0 <= c,
                    c <= r.quantity || c == 0,
                    n < rows@.len(),
                    item == (rows@[n as int].title@, rows@[n as int].id@, Some(rows@[n as int].pack_id@), None::<Seq<char>>, rows@[n as int].position),
                    out@.map_values(|q: CardRequest| request_view(q)) == rb + Seq::new(c as nat, |j: int| item),
                decreases r.quantity - c,
            {
                let req = CardRequest {
                    title: rows[n].title.clone(),
                    id: rows[n].id.clone(),
                    printing: Some(rows[n].pack_id.clone()),
                    collection: None,
                    position: rows[n].position,
                };
                let ghost before = out@;
                out.push(req);
                proof {
                    crate::seqs::lemma_push_map(before, req, |q: CardRequest| request_view(q));
                }
                c = c + 1;
                assert(out@.map_values(|q: CardRequest| request_view(q)) =~= rb + Seq::new(c as nat, |j: int| item));
            }
            n = n + 1;
            assert(out@.map_values(|q: CardRequest| request_view(q)) =~= set_requests_spec(rows@, n as int));
        }
        if out.len() == 0 {
            let mut m = owned("No cards found for set '");
            push_str(&mut m, set_name);
            push_str(&mut m, "'");
            return Err(ProxyNexusError::Internal(m));
        }
        Ok(out)
    }
}

} // verus!
