//! Reading card lists and choosing printings.
use vstd::prelude::*;
use crate::error::ProxyNexusError;
use crate::keyed::StrMap;
use crate::models::{is_copy, opt_eq, opt_view, CardRequest, Printing};
use crate::order::{lemma_lt_irreflexive, lemma_lt_total, lemma_lt_transitive, opt_lt, opt_str_lt, seq_lt};
use crate::text::{
    all_ascii, all_digits, ascii_lower, chars_of, find_char, is_ascii_alnum, find_first, first_index, first_occurrence, is_ascii_digit,
    is_alphanumeric, owned, parse_i64, parse_i64_spec, parse_u32, parse_u32_spec, push_char,
    push_str, slice_of, split_on, split_spec, string_of, to_lowercase, trim_bounds, trim_chars,
    str_eq, trim_spec, unicode_alphanumeric, unicode_lowercase,
};

verus! {

/// What `deunicode::deunicode` returns for a string.
pub uninterp spec fn deunicode_spec(s: Seq<char>) -> Seq<char>;

/// `deunicode::deunicode`: the string transliterated to ASCII. The result is
/// named; the crate documents that every character of it is ASCII, and it
/// returns the input unchanged when every character is below `0x7F`.
#[verifier::external_body]
pub(crate) fn transliterate(s: &str) -> (r: String)
    ensures
        r@ == deunicode_spec(s@),
        all_ascii(r@),
        (forall|i: int| 0 <= i < s@.len() ==> (#[trigger] s@[i] as u32) < 0x7F) ==> r@ == s@,
{
    deunicode::deunicode(s)
}

/// Every character that is not alphanumeric replaced by `_`.
pub open spec fn underscore_non_alnum(s: Seq<char>) -> Seq<char> {
    s.map_values(|c: char| if unicode_alphanumeric(c) { c } else { '_' })
}

/// The form titles are compared in: transliterated to ASCII, lower-cased,
/// and every character that is not alphanumeric turned into `_`.
pub open spec fn normalize_spec(title: Seq<char>) -> Seq<char> {
    underscore_non_alnum(unicode_lowercase(deunicode_spec(title)))
}

/// An ASCII text in compared form: lower-cased, and every character that is
/// not a letter or a digit turned into `_`.
pub open spec fn ascii_normal(s: Seq<char>) -> Seq<char> {
    s.map_values(|c: char| if is_ascii_alnum(ascii_lower(c)) { ascii_lower(c) } else { '_' })
}

/// The form titles are compared in.
pub fn normalize_title(title: &str) -> (r: String)
    ensures
        r@ == normalize_spec(title@),
        r@ == ascii_normal(deunicode_spec(title@)),
{
    let ascii = transliterate(title);
    let lower = to_lowercase(ascii.as_str());
    let v = chars_of(lower.as_str());
    let mut out = String::new();
    let mut i: usize = 0;
    while i < v.len()
        invariant
            i <= v@.len(),
            v@ == unicode_lowercase(deunicode_spec(title@)),
            v@ == deunicode_spec(title@).map_values(|c: char| ascii_lower(c)),
            all_ascii(deunicode_spec(title@)),
            out@ == underscore_non_alnum(v@.take(i as int)),
            out@ == ascii_normal(deunicode_spec(title@).take(i as int)),
        decreases v.len() - i,
    {
        let c = v[i];
        assert((deunicode_spec(title@)[i as int] as u32) < 128);
        assert(c == ascii_lower(deunicode_spec(title@)[i as int]));
        if is_alphanumeric(c) {
            push_char(&mut out, c);
        } else {
            push_char(&mut out, '_');
        }
        i = i + 1;
        assert(out@ =~= underscore_non_alnum(v@.take(i as int)));
        assert(out@ =~= ascii_normal(deunicode_spec(title@).take(i as int)));
    }
    assert(v@.take(i as int) =~= v@);
    assert(deunicode_spec(title@).take(i as int) =~= deunicode_spec(title@));
    out
}

/// The trailing characters a card name keeps though they are not
/// alphanumeric.
pub open spec fn kept_punctuation(c: char) -> bool {
    c == '!' || c == '.' || c == '*' || c == ')' || c == '"' || c == '\'' || c == '\u{201D}' || c
        == '\u{2019}' || c == '\u{201C}' || c == '\u{2018}'
}

/// A card name without trailing decoration: every trailing character that is
/// neither alphanumeric nor kept punctuation is dropped.
pub open spec fn clean_spec(s: Seq<char>) -> Seq<char>
    decreases s.len(),
{
    if s.len() > 0 && !unicode_alphanumeric(s.last()) && !kept_punctuation(s.last()) {
        clean_spec(s.drop_last())
    } else {
        s
    }
}

proof fn lemma_clean_at(s: Seq<char>, k: int)
    requires
        0 <= k <= s.len(),
        forall|j: int|
            k <= j < s.len() ==> !unicode_alphanumeric(#[trigger] s[j]) && !kept_punctuation(s[j]),
        k == 0 || unicode_alphanumeric(s[k - 1]) || kept_punctuation(s[k - 1]),
    ensures
        clean_spec(s) == s.take(k),
    decreases s.len() - k,
{
    if k == s.len() {
        assert(s.take(k) =~= s);
    } else {
        let t = s.drop_last();
        assert forall|j: int| k <= j < t.len() implies !unicode_alphanumeric(#[trigger] t[j])
            && !kept_punctuation(t[j]) by {
            assert(t[j] == s[j]);
        }
        lemma_clean_at(t, k);
        assert(t.take(k) =~= s.take(k));
    }
}

fn is_kept_punctuation(c: char) -> (r: bool)
    ensures
        r == kept_punctuation(c),
{
    c == '!' || c == '.' || c == '*' || c == ')' || c == '"' || c == '\'' || c == '\u{201D}' || c
        == '\u{2019}' || c == '\u{201C}' || c == '\u{2018}'
}

/// A card name without trailing decoration such as bullets or dashes.
pub fn clean_card_name(name: &str) -> (r: &str)
    ensures
        r@ == clean_spec(name@),
{
    let v = chars_of(name);
    let mut k: usize = v.len();
    while k > 0 && !is_alphanumeric(v[k - 1]) && !is_kept_punctuation(v[k - 1])
        invariant
            k <= v@.len(),
            v@ == name@,
            forall|j: int|
                k <= j < v@.len() ==> !unicode_alphanumeric(#[trigger] v@[j]) && !kept_punctuation(
                    v@[j],
                ),
        decreases k,
    {
        k = k - 1;
    }
    proof {
        lemma_clean_at(v@, k as int);
    }
    name.substring_char(0, k)
}

/// `"x "`, the separator after a quantity such as `3x`.
pub open spec fn times_sep() -> Seq<char> {
    seq!['x', ' ']
}

/// How `parse_quantity` splits a card-list line: a leading `{n}x ` or `{n} `
/// gives the quantity (1 when the number does not parse) and the trimmed
/// rest; any other line is one copy of itself.
pub open spec fn parse_quantity_spec(line: Seq<char>) -> (u32, Seq<char>) {
    match first_occurrence(line, times_sep()) {
        Some(i) if all_digits(line.take(i)) => (
            match parse_u32_spec(line.take(i)) {
                Some(n) => n,
                None => 1u32,
            },
            trim_spec(line.skip(i + 2)),
        ),
        _ => match first_index(line, ' ') {
            Some(i) => if all_digits(line.take(i)) {
                (
                    match parse_u32_spec(line.take(i)) {
                        Some(n) => n,
                        None => 1u32,
                    },
                    trim_spec(line.skip(i + 1)),
                )
            } else {
                (1u32, line)
            },
            None => (1u32, line),
        },
    }
}

fn all_ascii_digits(v: &Vec<char>, hi: usize) -> (r: bool)
    requires
        hi <= v.len(),
    ensures
        r == all_digits(v@.take(hi as int)),
{
    let mut i: usize = 0;
    while i < hi
        invariant
            i <= hi <= v@.len(),
            forall|j: int| 0 <= j < i ==> crate::text::is_digit(#[trigger] v@[j]),
        decreases hi - i,
    {
        if !is_ascii_digit(v[i]) {
            assert(!crate::text::is_digit(v@.take(hi as int)[i as int]));
            return false;
        }
        i = i + 1;
    }
    assert forall|j: int| 0 <= j < hi implies crate::text::is_digit(#[trigger] v@.take(hi as int)[j]) by {
        assert(v@.take(hi as int)[j] == v@[j]);
    }
    true
}

/// `line[from..]` trimmed, as a slice of `line`.
fn trimmed_tail<'a>(line: &'a str, v: &Vec<char>, from: usize) -> (r: &'a str)
    requires
        v@ == line@,
        from <= v.len(),
    ensures
        r@ == trim_spec(line@.skip(from as int)),
{
    let tail = slice_of(v, from, v.len());
    assert(tail@ =~= line@.skip(from as int));
    let (lo, hi) = trim_bounds(&tail);
    let r = line.substring_char(from + lo, from + hi);
    assert(r@ =~= tail@.subrange(lo as int, hi as int));
    r
}

/// One `:`-separated override segment: trimmed and lower-cased, `None` when
/// empty.
pub open spec fn override_part(s: Seq<char>) -> Option<Seq<char>> {
    let cleaned = unicode_lowercase(trim_spec(s));
    if cleaned.len() == 0 {
        None
    } else {
        Some(cleaned)
    }
}

/// A position segment, read as a number.
pub open spec fn position_part(s: Seq<char>) -> Option<i64> {
    match override_part(s) {
        Some(p) => parse_i64_spec(p),
        None => None,
    }
}

/// Why a card override is refused, or `None` when it is read.
pub open spec fn override_error(text: Seq<char>) -> Option<Seq<char>> {
    match first_index(text, '[') {
        None => None,
        Some(b) => match first_index(text, ']') {
            None => Some("Unclosed bracket in card override"@),
            Some(e) => {
                let inner = text.subrange(b + 1, e);
                if trim_spec(inner).len() == 0 {
                    Some("Empty override brackets"@)
                } else if split_spec(inner, ':').len() > 3 {
                    Some("Card override '"@ + inner + "' has too many ':'-separated parts"@)
                } else {
                    None
                }
            },
        },
    }
}

/// What `parse_overrides` reads from a card-list entry: the name, then the
/// printing, position and collection of a `[printing:position:collection]`
/// override (each part optional, the later ones absent when not written).
pub open spec fn override_spec(text: Seq<char>) -> (
    Seq<char>,
    Option<Seq<char>>,
    Option<i64>,
    Option<Seq<char>>,
) {
    match first_index(text, '[') {
        None => (trim_spec(text), None, None, None),
        Some(b) => {
            let e = first_index(text, ']')->0;
            let parts = split_spec(text.subrange(b + 1, e), ':');
            (
                trim_spec(text.take(b)),
                override_part(parts[0]),
                if parts.len() >= 2 {
                    position_part(parts[1])
                } else {
                    None
                },
                if parts.len() >= 3 {
                    override_part(parts[2])
                } else {
                    None
                },
            )
        },
    }
}

/// A `]` before the first `[` would make the override slice run backwards.
pub open spec fn brackets_in_order(text: Seq<char>) -> bool {
    match (first_index(text, '['), first_index(text, ']')) {
        (Some(b), Some(e)) => b < e,
        _ => true,
    }
}

/// The texts of a parsed override.
pub open spec fn override_view(o: (&str, Option<String>, Option<i64>, Option<String>)) -> (
    Seq<char>,
    Option<Seq<char>>,
    Option<i64>,
    Option<Seq<char>>,
) {
    (o.0@, crate::models::opt_view(o.1), o.2, crate::models::opt_view(o.3))
}

fn clean_part(v: &Vec<char>) -> (r: Option<String>)
    ensures
        crate::models::opt_view(r) == override_part(v@),
{
    let t = trim_chars(v);
    let ts = string_of(&t);
    let lower = to_lowercase(ts.as_str());
    if lower.as_str().unicode_len() == 0 {
        None
    } else {
        Some(lower)
    }
}

/// Resolves card requests against the catalog of one game.
pub struct CardStore {
    pub active_game_id: String,
}

impl CardStore {
    /// A store for the game `active_game_id`.
    pub fn new(active_game_id: String) -> (r: CardStore)
        ensures
            r.active_game_id == active_game_id,
    {
        CardStore { active_game_id }
    }

    /// Splits a leading quantity off a card-list line.
    pub fn parse_quantity(line: &str) -> (r: (u32, &str))
        ensures
            (r.0, r.1@) == parse_quantity_spec(line@),
    {
        let v = chars_of(line);
        let mut sep: Vec<char> = Vec::new();
        sep.push('x');
        sep.push(' ');
        assert(sep@ =~= times_sep());
        if let Some(i) = find_first(&v, &sep) {
            if all_ascii_digits(&v, i) {
                let q = slice_of(&v, 0, i);
                assert(q@ =~= v@.take(i as int));
                let qty: u32 = match parse_u32(&q) {
                    Some(n) => n,
                    None => 1,
                };
                return (qty, trimmed_tail(line, &v, i + 2));
            }
        }
        match find_char(&v, ' ') {
            Some(i) => {
                if all_ascii_digits(&v, i) {
                    let q = slice_of(&v, 0, i);
                    assert(q@ =~= v@.take(i as int));
                    let qty: u32 = match parse_u32(&q) {
                        Some(n) => n,
                        None => 1,
                    };
                    (qty, trimmed_tail(line, &v, i + 1))
                } else {
                    (1, line)
                }
            },
            None => (1, line),
        }
    }

    /// Reads a `[printing:position:collection]` override off a card-list entry.
    pub fn parse_overrides(text: &str) -> (r: Result<
        (&str, Option<String>, Option<i64>, Option<String>),
        ProxyNexusError,
    >)
        requires
            brackets_in_order(text@),
        ensures
            match r {
                Ok(o) => override_error(text@) is None && override_view(o) == override_spec(text@),
                Err(ProxyNexusError::Internal(m)) => override_error(text@) == Some(m@),
                Err(_) => false,
            },
    {
        let v = chars_of(text);
        let b = match find_char(&v, '[') {
            Some(b) => b,
            None => {
                let (lo, hi) = trim_bounds(&v);
                return Ok((text.substring_char(lo, hi), None, None, None));
            },
        };
        let (lo, hi) = trim_bounds(&slice_of(&v, 0, b));
        assert(v@.subrange(0, b as int) =~= text@.take(b as int));
        let name = text.substring_char(lo, hi);
        assert(name@ =~= trim_spec(text@.take(b as int)));
        let e = match find_char(&v, ']') {
            Some(e) => e,
            None => {
                return Err(ProxyNexusError::Internal(owned("Unclosed bracket in card override")));
            },
        };
        let inner = slice_of(&v, b + 1, e);
        let trimmed = trim_chars(&inner);
        if trimmed.len() == 0 {
            return Err(ProxyNexusError::Internal(owned("Empty override brackets")));
        }
        let parts = split_on(&inner, ':');
        if parts.len() > 3 {
            let mut m = owned("Card override '");
            crate::text::push_chars(&mut m, &inner);
            push_str(&mut m, "' has too many ':'-separated parts");
            return Err(ProxyNexusError::Internal(m));
        }
        proof {
            lemma_split_nonempty(inner@, ':');
        }
        let printing = clean_part(&parts[0]);
        let position = if parts.len() >= 2 {
            match clean_part(&parts[1]) {
                Some(p) => parse_i64(&chars_of(p.as_str())),
                None => None,
            }
        } else {
            None
        };
        let collection = if parts.len() >= 3 {
            clean_part(&parts[2])
        } else {
            None
        };
        Ok((name, printing, position, collection))
    }
}

/// How badly a printing misses a request, as a number whose order is the
/// order of the misses taken most important first: the requested pack or
/// variant, the requested collection, the requested position, the card id,
/// then being unofficial, then being undated.
pub open spec fn miss_rank(req: CardRequest, p: Printing) -> int {
    let printing_miss = req.printing is Some && opt_view(req.printing) != opt_view(p.pack_id)
        && opt_view(req.printing) != opt_view(p.variant);
    let collection_miss = req.collection is Some && opt_view(req.collection) != Some(
        p.collection@,
    );
    let position_miss = req.position is Some && req.position != p.position;
    let id_miss = p.card_id@ != req.id@;
    (if printing_miss { 32int } else { 0int }) + (if collection_miss { 16int } else { 0int })
        + (if position_miss { 8int } else { 0int }) + (if id_miss { 4int } else { 0int }) + (
    if !p.is_official { 2int } else { 0int }) + (if p.date_release is None { 1int } else { 0int })
}

/// `p` is a strictly better answer to `req` than `q`: it misses less, or
/// misses as much and was released earlier.
pub open spec fn ranks_before(req: CardRequest, p: Printing, q: Printing) -> bool {
    miss_rank(req, p) < miss_rank(req, q) || (miss_rank(req, p) == miss_rank(req, q) && opt_lt(
        opt_view(p.date_release),
        opt_view(q.date_release),
    ))
}

/// The index of the printing chosen among the first `n`: the first one that
/// no later printing ranks before.
pub open spec fn best_index(req: CardRequest, ps: Seq<Printing>, n: int) -> int
    decreases n,
{
    if n <= 1 {
        0
    } else {
        let b = best_index(req, ps, n - 1);
        if ranks_before(req, ps[n - 1], ps[b]) {
            n - 1
        } else {
            b
        }
    }
}

/// The message of a request no printing answers.
pub open spec fn no_match_message(title: Seq<char>) -> Seq<char> {
    "No matching printing found for '"@ + title + "'"@
}

proof fn lemma_opt_lt_facts(a: Option<Seq<char>>, b: Option<Seq<char>>, c: Option<Seq<char>>)
    ensures
        !opt_lt(a, a),
        opt_lt(a, b) ==> !opt_lt(b, a),
        opt_lt(a, b) && opt_lt(b, c) ==> opt_lt(a, c),
        !opt_lt(a, b) && !opt_lt(b, a) ==> a == b,
{
    if let Some(x) = a {
        lemma_lt_irreflexive(x);
        if let Some(y) = b {
            lemma_lt_total(x, y);
            if let Some(z) = c {
                if seq_lt(x, y) && seq_lt(y, z) {
                    lemma_lt_transitive(x, y, z);
                }
            }
        }
    }
}

/// `ranks_before` orders printings strictly: never both ways, transitively,
/// and two printings neither ranks before tie on everything it looks at.
pub proof fn lemma_ranks_before_order(req: CardRequest, p: Printing, q: Printing, s: Printing)
    ensures
        !ranks_before(req, p, p),
        ranks_before(req, p, q) ==> !ranks_before(req, q, p),
        ranks_before(req, p, q) && ranks_before(req, q, s) ==> ranks_before(req, p, s),
        !ranks_before(req, p, q) && !ranks_before(req, q, p) ==> (miss_rank(req, p) == miss_rank(
            req,
            q,
        ) && opt_view(p.date_release) == opt_view(q.date_release)),
        ranks_before(req, p, q) && !ranks_before(req, q, s) && !ranks_before(req, s, q)
            ==> ranks_before(req, p, s),
{
    lemma_opt_lt_facts(opt_view(p.date_release), opt_view(q.date_release), opt_view(s.date_release));
    lemma_opt_lt_facts(opt_view(q.date_release), opt_view(p.date_release), opt_view(s.date_release));
    lemma_opt_lt_facts(opt_view(q.date_release), opt_view(s.date_release), opt_view(p.date_release));
}

/// The chosen printing is the first one no printing ranks before: every
/// printing ahead of it ranks behind it, and none ranks before it.
pub proof fn lemma_best_is_first_unbeaten(req: CardRequest, ps: Seq<Printing>, n: int)
    requires
        1 <= n <= ps.len(),
    ensures
        0 <= best_index(req, ps, n) < n,
        forall|j: int| 0 <= j < n ==> !ranks_before(req, #[trigger] ps[j], ps[best_index(req, ps, n)]),
        forall|j: int|
            0 <= j < best_index(req, ps, n) ==> ranks_before(req, ps[best_index(req, ps, n)], #[trigger] ps[j]),
    decreases n,
{
    lemma_ranks_before_order(req, ps[0], ps[0], ps[0]);
    if n > 1 {
        lemma_best_is_first_unbeaten(req, ps, n - 1);
        let b = best_index(req, ps, n - 1);
        let k = n - 1;
        if ranks_before(req, ps[k], ps[b]) {
            assert forall|j: int| 0 <= j < n implies !ranks_before(req, #[trigger] ps[j], ps[k]) by {
                lemma_ranks_before_order(req, ps[j], ps[k], ps[b]);
            }
            assert forall|j: int| 0 <= j < k implies ranks_before(req, ps[k], #[trigger] ps[j]) by {
                lemma_ranks_before_order(req, ps[k], ps[b], ps[j]);
                lemma_ranks_before_order(req, ps[b], ps[j], ps[k]);
                if j < b {
                    assert(ranks_before(req, ps[b], ps[j]));
                }
            }
        }
    }
}

fn miss_rank_of(req: &CardRequest, p: &Printing) -> (r: u8)
    ensures
        r as int == miss_rank(*req, *p),
{
    let printing_miss = req.printing.is_some() && !opt_eq(&req.printing, &p.pack_id) && !opt_eq(
        &req.printing,
        &p.variant,
    );
    let collection_miss = match &req.collection {
        Some(c) => !str_eq(c.as_str(), p.collection.as_str()),
        None => false,
    };
    let position_miss = req.position.is_some() && req.position != p.position;
    let id_miss = !str_eq(p.card_id.as_str(), req.id.as_str());
    let mut r: u8 = 0;
    if printing_miss {
        r = r + 32;
    }
    if collection_miss {
        r = r + 16;
    }
    if position_miss {
        r = r + 8;
    }
    if id_miss {
        r = r + 4;
    }
    if !p.is_official {
        r = r + 2;
    }
    if p.date_release.is_none() {
        r = r + 1;
    }
    r
}

impl CardStore {
    /// The printing that best answers a request: the first of `printings`
    /// that no other ranks before (a stable sort's first element). An empty
    /// list answers nothing.
    pub fn select_printing(request: &CardRequest, printings: &[Printing]) -> (r: Result<
        Printing,
        ProxyNexusError,
    >)
        ensures
            printings@.len() == 0 <==> r is Err,
            r matches Err(e) ==> e matches ProxyNexusError::Internal(m) && m@ == no_match_message(
                request.title@,
            ),
            r matches Ok(p) ==> is_copy(p, printings@[best_index(*request, printings@, printings@.len() as int)]),
    {
        if printings.len() == 0 {
            let mut m = owned("No matching printing found for '");
            push_str(&mut m, request.title.as_str());
            push_str(&mut m, "'");
            proof {
                reveal_strlit("No matching printing found for '");
                reveal_strlit("'");
            }
            return Err(ProxyNexusError::Internal(m));
        }
        let mut best: usize = 0;
        let mut best_rank = miss_rank_of(request, &printings[0]);
        let mut i: usize = 1;
        while i < printings.len()
            invariant
                1 <= i <= printings@.len(),
                best as int == best_index(*request, printings@, i as int),
                best < i,
                best_rank as int == miss_rank(*request, printings@[best as int]),
            decreases printings.len() - i,
        {
            let rank = miss_rank_of(request, &printings[i]);
            let better = rank < best_rank || (rank == best_rank && opt_str_lt(
                &printings[i].date_release,
                &printings[best].date_release,
            ));
            if better {
                best = i;
                best_rank = rank;
            }
            i = i + 1;
        }
        Ok(printings[best].duplicate())
    }

    /// The chosen printing of every request whose normalized title has
    /// printings on offer, in request order; requests with none are dropped.
    pub fn resolve_printings(&self, requests: &[CardRequest], available: &StrMap<Vec<Printing>>) -> (r:
        Result<Vec<Printing>, ProxyNexusError>)
        requires
            available.wf(),
        ensures
            r matches Ok(v) && v@.len() == resolved_count(requests@, available@, requests@.len() as int)
                && forall|k: int| 0 <= k < requests@.len() ==> #[trigger] resolved_at(v@, requests@, available@, k),
            r is Ok,
    {
        let mut result: Vec<Printing> = Vec::new();
        let mut k: usize = 0;
        while k < requests.len()
            invariant
                k <= requests@.len(),
                available.wf(),
                result@.len() == resolved_count(requests@, available@, k as int),
                forall|j: int| 0 <= j < k ==> #[trigger] resolved_at(result@, requests@, available@, j),
            decreases requests.len() - k,
        {
            let request = &requests[k];
            let normalized = normalize_title(request.title.as_str());
            let ghost before = result@;
            match available.get(normalized.as_str()) {
                Some(printings) => {
                    match Self::select_printing(request, printings.as_slice()) {
                        Ok(p) => {
                            result.push(p);
                            assert(forall|i: int| 0 <= i < before.len() ==> result@[i] == before[i]);
                        },
                        Err(_) => {},
                    }
                },
                None => {},
            }
            proof {
                assert(result@.len() >= before.len());
                assert(forall|i: int| 0 <= i < before.len() ==> result@[i] == before[i]);
                if answered(requests@[k as int], available@) {
                    assert(result@.len() == before.len() + 1);
                    assert(resolved_at(result@, requests@, available@, k as int));
                } else {
                    assert(result@ == before);
                }
                assert forall|j: int| 0 <= j < k + 1 implies #[trigger] resolved_at(result@, requests@, available@, j) by {
                    if j < k {
                        assert(resolved_at(before, requests@, available@, j));
                        lemma_count_monotone(requests@, available@, j + 1, k as int);
                        if answered(requests@[j], available@) {
                            let c = resolved_count(requests@, available@, j);
                            assert(resolved_count(requests@, available@, j + 1) == c + 1);
                            lemma_count_monotone(requests@, available@, 0, j);
                            assert(result@[c] == before[c]);
                        }
                    }
                }
            }
            k = k + 1;
        }
        Ok(result)
    }
}

/// Request `k` asks a title with printings on offer.
pub open spec fn answered(req: CardRequest, available: Map<Seq<char>, Vec<Printing>>) -> bool {
    available.contains_key(normalize_spec(req.title@)) && available[normalize_spec(
        req.title@,
    )]@.len() > 0
}

/// How many of the first `k` requests are answered.
pub open spec fn resolved_count(
    requests: Seq<CardRequest>,
    available: Map<Seq<char>, Vec<Printing>>,
    k: int,
) -> int
    decreases k,
{
    if k <= 0 {
        0
    } else {
        resolved_count(requests, available, k - 1) + if answered(requests[k - 1], available) {
            1int
        } else {
            0int
        }
    }
}

/// Request `k`, if answered, holds its chosen printing at its place among
/// the answered requests.
pub open spec fn resolved_at(
    out: Seq<Printing>,
    requests: Seq<CardRequest>,
    available: Map<Seq<char>, Vec<Printing>>,
    k: int,
) -> bool {
    answered(requests[k], available) ==> {
        let ps = available[normalize_spec(requests[k].title@)]@;
        is_copy(out[resolved_count(requests, available, k)], ps[best_index(requests[k], ps, ps.len() as int)])
    }
}

proof fn lemma_count_monotone(
    requests: Seq<CardRequest>,
    available: Map<Seq<char>, Vec<Printing>>,
    a: int,
    b: int,
)
    requires
        0 <= a <= b,
    ensures
        resolved_count(requests, available, a) <= resolved_count(requests, available, b),
    decreases b - a,
{
    if a < b {
        lemma_count_monotone(requests, available, a, b - 1);
    }
}

/// Cutting text always gives at least one piece.
pub proof fn lemma_split_nonempty(s: Seq<char>, c: char)
    ensures
        split_spec(s, c).len() >= 1,
    decreases s.len(),
{
    crate::text::lemma_first_index(s, c);
    if let Some(i) = first_index(s, c) {
        lemma_split_nonempty(s.skip(i + 1), c);
    }
}

} // verus!
