//! Reading decklist ids out of deckbuilding-site URLs.
use vstd::prelude::*;
use crate::text::{chars_of, contains_char, find_first, first_occurrence, occurs_at, slice_of, string_of};

verus! {

/// `s.split(sep).nth(1)`: what stands between the first occurrence of `sep`
/// and the next one (or the end); `None` when `sep` does not occur.
pub open spec fn split_second(s: Seq<char>, sep: Seq<char>) -> Option<Seq<char>> {
    match first_occurrence(s, sep) {
        Some(i) => {
            let rest = s.skip(i + sep.len());
            match first_occurrence(rest, sep) {
                Some(j) => Some(rest.take(j)),
                None => Some(rest),
            }
        },
        None => None,
    }
}

/// `s` without the copies of `c` it ends with.
pub open spec fn trim_end_char(s: Seq<char>, c: char) -> Seq<char>
    decreases s.len(),
{
    if s.len() > 0 && s.last() == c {
        trim_end_char(s.drop_last(), c)
    } else {
        s
    }
}

/// How many characters of `s` come before the first one of `stops`.
pub open spec fn run_before(s: Seq<char>, stops: Seq<char>) -> nat
    decreases s.len(),
{
    if s.len() == 0 || stops.contains(s[0]) {
        0
    } else {
        1 + run_before(s.drop_first(), stops)
    }
}

/// `s` up to the first of `stops`: the first piece `s.split(stops)` gives.
pub open spec fn before_any(s: Seq<char>, stops: Seq<char>) -> Seq<char> {
    s.take(run_before(s, stops) as int)
}

/// The run before the first stop holds no stop, and ends at a stop or at
/// the end of `s`.
pub proof fn lemma_run_before_stops(s: Seq<char>, stops: Seq<char>)
    ensures
        run_before(s, stops) <= s.len(),
        forall|j: int| 0 <= j < run_before(s, stops) ==> !stops.contains(#[trigger] s[j]),
        run_before(s, stops) < s.len() ==> stops.contains(s[run_before(s, stops) as int]),
    decreases s.len(),
{
    if s.len() > 0 && !stops.contains(s[0]) {
        let t = s.drop_first();
        lemma_run_before_stops(t, stops);
        assert forall|j: int| 0 <= j < run_before(s, stops) implies !stops.contains(#[trigger] s[j]) by {
            if j > 0 {
                assert(s[j] == t[j - 1]);
            }
        }
        if run_before(s, stops) < s.len() {
            assert(s[run_before(s, stops) as int] == t[run_before(t, stops) as int]);
        }
    }
}

/// Cutting `s` no earlier than its first stop leaves the run before it.
pub proof fn lemma_run_before_take(s: Seq<char>, stops: Seq<char>, m: int)
    requires
        run_before(s, stops) <= m <= s.len(),
    ensures
        run_before(s.take(m), stops) == run_before(s, stops),
    decreases s.len(),
{
    if s.len() > 0 && m > 0 && !stops.contains(s[0]) {
        assert(s.take(m).drop_first() =~= s.drop_first().take(m - 1));
        lemma_run_before_take(s.drop_first(), stops, m - 1);
    }
}

proof fn lemma_run_before_bounded(s: Seq<char>, stops: Seq<char>)
    ensures
        run_before(s, stops) <= s.len(),
    decreases s.len(),
{
    if s.len() > 0 && !stops.contains(s[0]) {
        lemma_run_before_bounded(s.drop_first(), stops);
    }
}

/// The text between the first and second occurrence of `sep` in `s`.
pub fn split_second_of(s: &Vec<char>, sep: &Vec<char>) -> (r: Option<Vec<char>>)
    requires
        sep@.len() > 0,
    ensures
        match r {
            Some(p) => split_second(s@, sep@) == Some(p@),
            None => split_second(s@, sep@) is None,
        },
{
    match find_first(s, sep) {
        Some(i) => {
            assert(occurs_at(s@, sep@, i as int));
            assert(i + sep@.len() <= s@.len());
            assert(sep@.len() == sep.len() && s@.len() == s.len());
            let rest = slice_of(s, i + sep.len(), s.len());
            assert(rest@ =~= s@.skip(i + sep@.len()));
            match find_first(&rest, sep) {
                Some(j) => {
                    let piece = slice_of(&rest, 0, j);
                    assert(piece@ =~= rest@.take(j as int));
                    Some(piece)
                },
                None => Some(rest),
            }
        },
        None => None,
    }
}

/// `s` without the copies of `c` it ends with.
pub fn trim_end_of(s: &Vec<char>, c: char) -> (r: Vec<char>)
    ensures
        r@ == trim_end_char(s@, c),
{
    let mut n: usize = s.len();
    assert(s@.take(n as int) =~= s@);
    while n > 0 && s[n - 1] == c
        invariant
            n <= s@.len(),
            trim_end_char(s@, c) == trim_end_char(s@.take(n as int), c),
        decreases n,
    {
        assert(s@.take(n as int).drop_last() =~= s@.take(n - 1));
        n = n - 1;
    }
    slice_of(s, 0, n)
}

/// `s` up to the first of `stops`.
pub fn before_any_of(s: &Vec<char>, stops: &Vec<char>) -> (r: Vec<char>)
    ensures
        r@ == before_any(s@, stops@),
{
    let mut i: usize = 0;
    proof {
        lemma_run_before_bounded(s@, stops@);
        assert(s@.skip(0) =~= s@);
    }
    while i < s.len() && !contains_char(stops, s[i])
        invariant
            i <= s@.len(),
            run_before(s@, stops@) == i + run_before(s@.skip(i as int), stops@),
        decreases s.len() - i,
    {
        assert(s@.skip(i as int).drop_first() =~= s@.skip(i + 1));
        i = i + 1;
    }
    proof {
        if i < s@.len() {
            assert(s@.skip(i as int)[0] == s@[i as int]);
        }
    }
    slice_of(s, 0, i)
}

/// The id a decklist URL holds after `segment`: the text up to the next
/// `segment`, less trailing `/`, up to the first `/`, `?` or `#`; `None`
/// when `segment` does not occur or the id is empty.
pub open spec fn path_segment_spec(url: Seq<char>, segment: Seq<char>) -> Option<Seq<char>> {
    match split_second(url, segment) {
        Some(s) => {
            let id = before_any(trim_end_char(s, '/'), seq!['/', '?', '#']);
            if id.len() > 0 {
                Some(id)
            } else {
                None
            }
        },
        None => None,
    }
}

/// The id a decklist URL holds after `segment` (see `path_segment_spec`).
pub fn extract_path_segment(url: &str, segment: &str) -> (r: Option<String>)
    requires
        segment@.len() > 0,
    ensures
        match r {
            Some(id) => path_segment_spec(url@, segment@) == Some(id@),
            None => path_segment_spec(url@, segment@) is None,
        },
{
    let v = chars_of(url);
    let sep = chars_of(segment);
    let mut stops: Vec<char> = Vec::new();
    stops.push('/');
    stops.push('?');
    stops.push('#');
    assert(stops@ =~= seq!['/', '?', '#']);
    match split_second_of(&v, &sep) {
        Some(s) => {
            let t = trim_end_of(&s, '/');
            let id = before_any_of(&t, &stops);
            if id.len() > 0 {
                Some(string_of(&id))
            } else {
                None
            }
        },
        None => None,
    }
}

/// The id after `/decklist/view/`, up to the next `/`; it may be empty.
pub open spec fn view_id_spec(url: Seq<char>) -> Option<Seq<char>> {
    match split_second(url, "/decklist/view/"@) {
        Some(s) => Some(before_any(s, seq!['/'])),
        None => None,
    }
}

/// The id after `/decklist/view/`, up to the next `/`.
pub fn view_id(url: &str) -> (r: Option<String>)
    ensures
        match r {
            Some(id) => view_id_spec(url@) == Some(id@),
            None => view_id_spec(url@) is None,
        },
{
    let v = chars_of(url);
    let sep = chars_of("/decklist/view/");
    proof {
        reveal_strlit("/decklist/view/");
    }
    let mut stops: Vec<char> = Vec::new();
    stops.push('/');
    assert(stops@ =~= seq!['/']);
    match split_second_of(&v, &sep) {
        Some(s) => Some(string_of(&before_any_of(&s, &stops))),
        None => None,
    }
}

/// The slots of a decklist whose quantity fits a `u32`, as (code, quantity).
pub open spec fn fitting_slots(slots: Seq<(String, i64)>, n: int) -> Seq<(Seq<char>, u32)>
    decreases n,
{
    if n <= 0 {
        Seq::empty()
    } else {
        fitting_slots(slots, n - 1) + if 0 <= slots[n - 1].1 <= u32::MAX {
            seq![(slots[n - 1].0@, slots[n - 1].1 as u32)]
        } else {
            Seq::empty()
        }
    }
}

/// A decklist of every slot whose quantity fits a `u32`, with no pack or
/// position: what ArkhamDB and MarvelCDB responses give.
pub fn slots_decklist(slots: &[(String, i64)]) -> (r: crate::models::Decklist)
    ensures
        r.cards@.map_values(|e: crate::models::DecklistEntry| (e.card_id@, e.quantity)) == fitting_slots(slots@, slots@.len() as int),
        forall|i: int| 0 <= i < r.cards@.len() ==> (#[trigger] r.cards@[i]).pack_id is None && r.cards@[i].position is None,
{
    let mut out: Vec<crate::models::DecklistEntry> = Vec::new();
    let mut i: usize = 0;
    while i < slots.len()
        invariant
            i <= slots@.len(),
            out@.map_values(|e: crate::models::DecklistEntry| (e.card_id@, e.quantity)) == fitting_slots(slots@, i as int),
            forall|k: int| 0 <= k < out@.len() ==> (#[trigger] out@[k]).pack_id is None && out@[k].position is None,
        decreases slots.len() - i,
    {
        let q = slots[i].1;
        if 0 <= q && q <= 0xFFFF_FFFF {
            out.push(crate::models::DecklistEntry { card_id: slots[i].0.clone(), pack_id: None, quantity: q as u32, position: None });
        }
        i = i + 1;
        assert(out@.map_values(|e: crate::models::DecklistEntry| (e.card_id@, e.quantity)) =~= fitting_slots(slots@, i as int));
    }
    crate::models::Decklist { cards: out }
}

} // verus!
