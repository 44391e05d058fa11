//! Turning the image rows of the requested titles into printings.
use vstd::prelude::*;
use crate::card_store::{normalize_spec, normalize_title, CardStore};
use crate::file_naming::{back_index, back_index_spec};
use crate::keyed::StrMap;
use crate::models::{clone_opt, opt_eq, opt_view, CardSide, Printing};
use crate::order::{insert_pos, lemma_sorted_by_len, opt_lt, opt_str_lt, seq_lt, sorted_by, str_lt};
use crate::text::{owned, str_eq};
use crate::error::ProxyNexusError;
use crate::models::CardRequest;

verus! {

/// One image of a printing side, with what the catalog says of its card.
#[derive(Debug, Clone)]
pub struct AvailablePrintingRow {
    pub title: String,
    pub id: String,
    pub is_official: bool,
    pub variant: Option<String>,
    pub file_path: String,
    pub side: String,
    /// The collection.
    pub name: String,
    pub back_group: Option<String>,
    pub pack_id: Option<String>,
    pub has_bleed: bool,
    pub date_release: Option<String>,
    pub position: Option<i64>,
    pub linked_card_code: Option<String>,
    pub linked_card_name: Option<String>,
    pub linked_card_back_group: Option<String>,
}

/// What makes rows images of one printing: normalized title, card, variant,
/// collection, pack and position.
pub open spec fn group_key(r: AvailablePrintingRow) -> (Seq<char>, Seq<char>, Option<Seq<char>>, Seq<char>, Option<Seq<char>>, Option<i64>) {
    (normalize_spec(r.title@), r.id@, opt_view(r.variant), r.name@, opt_view(r.pack_id), r.position)
}

/// Row `k` is the first of its printing.
pub open spec fn is_head(rows: Seq<AvailablePrintingRow>, k: int) -> bool {
    forall|j: int| 0 <= j < k ==> group_key(#[trigger] rows[j]) != group_key(rows[k])
}

/// The scans (plain, bled) of the rows of printing `k` whose side label
/// satisfies `sel`, among the first `n` rows: each row sets its kind, the
/// last one winning.
pub open spec fn side_scans(rows: Seq<AvailablePrintingRow>, k: int, sel: spec_fn(Seq<char>) -> bool, n: int) -> (Option<Seq<char>>, Option<Seq<char>>)
    decreases n,
{
    if n <= 0 {
        (None, None)
    } else {
        let prev = side_scans(rows, k, sel, n - 1);
        let r = rows[n - 1];
        if group_key(r) == group_key(rows[k]) && sel(r.side@) {
            if r.has_bleed {
                (prev.0, Some(r.file_path@))
            } else {
                (Some(r.file_path@), prev.1)
            }
        } else {
            prev
        }
    }
}

/// `x` added to strictly increasing `s` unless present.
pub open spec fn add_index(s: Seq<u32>, x: u32) -> Seq<u32> {
    if s.contains(x) {
        s
    } else {
        s.insert(index_pos(s, x), x)
    }
}

/// How many of `s` are below `x`, for increasing `s`.
pub open spec fn index_pos(s: Seq<u32>, x: u32) -> int
    decreases s.len(),
{
    if s.len() == 0 || x < s[0] {
        0
    } else {
        1 + index_pos(s.drop_first(), x)
    }
}

/// The back indices printing `k`'s rows name, among the first `n`, ascending
/// and each once.
pub open spec fn back_indices(rows: Seq<AvailablePrintingRow>, k: int, n: int) -> Seq<u32>
    decreases n,
{
    if n <= 0 {
        Seq::empty()
    } else {
        let prev = back_indices(rows, k, n - 1);
        let r = rows[n - 1];
        if group_key(r) == group_key(rows[k]) {
            match back_index_spec(r.side@) {
                Some(b) => add_index(prev, b),
                None => prev,
            }
        } else {
            prev
        }
    }
}

/// The texts of a side: plain scan, bled scan.
pub open spec fn side_view(s: CardSide) -> (Option<Seq<char>>, Option<Seq<char>>) {
    (opt_view(s.image_key), opt_view(s.bleed_image_key))
}

/// The texts of a printing: card, title, official, variant; front, backs;
/// collection, back group, pack, date, position; linked card code, name and
/// back group.
pub open spec fn printing_view(p: Printing) -> (
    (Seq<char>, Seq<char>, bool, Option<Seq<char>>),
    ((Option<Seq<char>>, Option<Seq<char>>), Seq<(Option<Seq<char>>, Option<Seq<char>>)>),
    (Seq<char>, Option<Seq<char>>, Option<Seq<char>>, Option<Seq<char>>, Option<i64>),
    (Option<Seq<char>>, Option<Seq<char>>, Option<Seq<char>>),
) {
    (
        (p.card_id@, p.card_title@, p.is_official, opt_view(p.variant)),
        (side_view(p.front), p.backs@.map_values(|s: CardSide| side_view(s))),
        (p.collection@, opt_view(p.back_group), opt_view(p.pack_id), opt_view(p.date_release), p.position),
        (opt_view(p.linked_card_code), opt_view(p.linked_card_name), opt_view(p.linked_card_back_group)),
    )
}

/// The printing whose first row is `k`: the card facts of that row, the
/// front from the rows labelled `front`, and one back per back index the
/// rows name, in index order.
pub open spec fn printing_spec(rows: Seq<AvailablePrintingRow>, k: int) -> (
    (Seq<char>, Seq<char>, bool, Option<Seq<char>>),
    ((Option<Seq<char>>, Option<Seq<char>>), Seq<(Option<Seq<char>>, Option<Seq<char>>)>),
    (Seq<char>, Option<Seq<char>>, Option<Seq<char>>, Option<Seq<char>>, Option<i64>),
    (Option<Seq<char>>, Option<Seq<char>>, Option<Seq<char>>),
) {
    let r = rows[k];
    let n = rows.len() as int;
    let idx = back_indices(rows, k, n);
    (
        (r.id@, r.title@, r.is_official, opt_view(r.variant)),
        (
            side_scans(rows, k, |l: Seq<char>| l == "front"@, n),
            idx.map_values(|b: u32| side_scans(rows, k, |l: Seq<char>| back_index_spec(l) == Some(b), n)),
        ),
        (r.name@, opt_view(r.back_group), opt_view(r.pack_id), opt_view(r.date_release), r.position),
        (opt_view(r.linked_card_code), opt_view(r.linked_card_name), opt_view(r.linked_card_back_group)),
    )
}

/// Whether a printing has a scan of its front.
pub open spec fn has_front_scan(
    v: (
        (Seq<char>, Seq<char>, bool, Option<Seq<char>>),
        ((Option<Seq<char>>, Option<Seq<char>>), Seq<(Option<Seq<char>>, Option<Seq<char>>)>),
        (Seq<char>, Option<Seq<char>>, Option<Seq<char>>, Option<Seq<char>>, Option<i64>),
        (Option<Seq<char>>, Option<Seq<char>>, Option<Seq<char>>),
    ),
) -> bool {
    v.1.0.0 is Some || v.1.0.1 is Some
}

/// The printings of title `t` among the first `n` rows that have a front
/// scan, in the order their first rows come: a part with no front is left
/// out.
pub open spec fn title_list(rows: Seq<AvailablePrintingRow>, t: Seq<char>, n: int) -> Seq<(
    (Seq<char>, Seq<char>, bool, Option<Seq<char>>),
    ((Option<Seq<char>>, Option<Seq<char>>), Seq<(Option<Seq<char>>, Option<Seq<char>>)>),
    (Seq<char>, Option<Seq<char>>, Option<Seq<char>>, Option<Seq<char>>, Option<i64>),
    (Option<Seq<char>>, Option<Seq<char>>, Option<Seq<char>>),
)>
    decreases n,
{
    if n <= 0 {
        Seq::empty()
    } else {
        title_list(rows, t, n - 1) + if is_head(rows, n - 1) && normalize_spec(rows[n - 1].title@) == t
            && has_front_scan(printing_spec(rows, n - 1)) {
            seq![printing_spec(rows, n - 1)]
        } else {
            Seq::empty()
        }
    }
}

/// `None` sorts before every `Some`, and two `Some`s by their numbers.
pub open spec fn opt_i64_lt(a: Option<i64>, b: Option<i64>) -> bool {
    match (a, b) {
        (None, Some(_)) => true,
        (Some(x), Some(y)) => x < y,
        _ => false,
    }
}

/// Printing `a` is offered before `b`: dated before undated, earlier release
/// first, then by card id, position and variant.
pub open spec fn printing_lt(
    a: (
        (Seq<char>, Seq<char>, bool, Option<Seq<char>>),
        ((Option<Seq<char>>, Option<Seq<char>>), Seq<(Option<Seq<char>>, Option<Seq<char>>)>),
        (Seq<char>, Option<Seq<char>>, Option<Seq<char>>, Option<Seq<char>>, Option<i64>),
        (Option<Seq<char>>, Option<Seq<char>>, Option<Seq<char>>),
    ),
    b: (
        (Seq<char>, Seq<char>, bool, Option<Seq<char>>),
        ((Option<Seq<char>>, Option<Seq<char>>), Seq<(Option<Seq<char>>, Option<Seq<char>>)>),
        (Seq<char>, Option<Seq<char>>, Option<Seq<char>>, Option<Seq<char>>, Option<i64>),
        (Option<Seq<char>>, Option<Seq<char>>, Option<Seq<char>>),
    ),
) -> bool {
    let ad = a.2.3;
    let bd = b.2.3;
    (ad is Some && bd is None) || ((ad is Some) == (bd is Some) && (opt_lt(ad, bd) || (ad == bd && (
    seq_lt(a.0.0, b.0.0) || (a.0.0 == b.0.0 && (opt_i64_lt(a.2.4, b.2.4) || (a.2.4 == b.2.4
        && opt_lt(a.0.3, b.0.3))))))))
}

fn printing_before(a: &Printing, b: &Printing) -> (r: bool)
    ensures
        r == printing_lt(printing_view(*a), printing_view(*b)),
{
    let ad = a.date_release.is_some();
    let bd = b.date_release.is_some();
    if ad && !bd {
        return true;
    }
    if ad != bd {
        return false;
    }
    if opt_str_lt(&a.date_release, &b.date_release) {
        return true;
    }
    if !opt_eq(&a.date_release, &b.date_release) {
        return false;
    }
    if str_lt(a.card_id.as_str(), b.card_id.as_str()) {
        return true;
    }
    if !str_eq(a.card_id.as_str(), b.card_id.as_str()) {
        return false;
    }
    let pos_lt = match (a.position, b.position) {
        (None, Some(_)) => true,
        (Some(x), Some(y)) => x < y,
        _ => false,
    };
    if pos_lt {
        return true;
    }
    if a.position != b.position {
        return false;
    }
    opt_str_lt(&a.variant, &b.variant)
}

fn same_group(rows: &[AvailablePrintingRow], norms: &Vec<String>, i: usize, j: usize) -> (r: bool)
    requires
        i < rows@.len(),
        j < rows@.len(),
        norms@.len() == rows@.len(),
        forall|m: int| 0 <= m < rows@.len() ==> (#[trigger] norms@[m])@ == normalize_spec(rows@[m].title@),
    ensures
        r == (group_key(rows@[i as int]) == group_key(rows@[j as int])),
{
    let a = &rows[i];
    let b = &rows[j];
    str_eq(norms[i].as_str(), norms[j].as_str()) && str_eq(a.id.as_str(), b.id.as_str())
        && opt_eq(&a.variant, &b.variant) && str_eq(a.name.as_str(), b.name.as_str())
        && opt_eq(&a.pack_id, &b.pack_id) && a.position == b.position
}

fn front_of(rows: &[AvailablePrintingRow], norms: &Vec<String>, k: usize) -> (r: CardSide)
    requires
        k < rows@.len(),
        norms@.len() == rows@.len(),
        forall|m: int| 0 <= m < rows@.len() ==> (#[trigger] norms@[m])@ == normalize_spec(rows@[m].title@),
    ensures
        side_view(r) == side_scans(rows@, k as int, |l: Seq<char>| l == "front"@, rows@.len() as int),
{
    let mut side = CardSide { image_key: None, bleed_image_key: None };
    let mut j: usize = 0;
    while j < rows.len()
        invariant
            j <= rows@.len(),
            k < rows@.len(),
            norms@.len() == rows@.len(),
            forall|m: int| 0 <= m < rows@.len() ==> (#[trigger] norms@[m])@ == normalize_spec(rows@[m].title@),
            side_view(side) == side_scans(rows@, k as int, |l: Seq<char>| l == "front"@, j as int),
        decreases rows.len() - j,
    {
        if same_group(rows, norms, j, k) && str_eq(rows[j].side.as_str(), "front") {
            if rows[j].has_bleed {
                side.bleed_image_key = Some(rows[j].file_path.clone());
            } else {
                side.image_key = Some(rows[j].file_path.clone());
            }
        }
        j = j + 1;
    }
    side
}

fn back_of(rows: &[AvailablePrintingRow], norms: &Vec<String>, k: usize, b: u32) -> (r: CardSide)
    requires
        k < rows@.len(),
        norms@.len() == rows@.len(),
        forall|m: int| 0 <= m < rows@.len() ==> (#[trigger] norms@[m])@ == normalize_spec(rows@[m].title@),
    ensures
        side_view(r) == side_scans(rows@, k as int, |l: Seq<char>| back_index_spec(l) == Some(b), rows@.len() as int),
{
    let mut side = CardSide { image_key: None, bleed_image_key: None };
    let mut j: usize = 0;
    while j < rows.len()
        invariant
            j <= rows@.len(),
            k < rows@.len(),
            norms@.len() == rows@.len(),
            forall|m: int| 0 <= m < rows@.len() ==> (#[trigger] norms@[m])@ == normalize_spec(rows@[m].title@),
            side_view(side) == side_scans(rows@, k as int, |l: Seq<char>| back_index_spec(l) == Some(b), j as int),
        decreases rows.len() - j,
    {
        if same_group(rows, norms, j, k) && back_index(rows[j].side.as_str()) == Some(b) {
            if rows[j].has_bleed {
                side.bleed_image_key = Some(rows[j].file_path.clone());
            } else {
                side.image_key = Some(rows[j].file_path.clone());
            }
        }
        j = j + 1;
    }
    side
}

fn add_index_exec(v: &mut Vec<u32>, x: u32)
    ensures
        final(v)@ == add_index(old(v)@, x),
{
    let mut i: usize = 0;
    while i < v.len()
        invariant
            i <= v@.len(),
            v@ == old(v)@,
            forall|m: int| 0 <= m < i ==> v@[m] != x,
        decreases v.len() - i,
    {
        if v[i] == x {
            return;
        }
        i = i + 1;
    }
    let ghost s = v@;
    let mut p: usize = 0;
    assert(s.skip(0) =~= s);
    while p < v.len() && !(x < v[p])
        invariant
            p <= v@.len(),
            v@ == s,
            index_pos(s, x) == p + index_pos(s.skip(p as int), x),
        decreases v.len() - p,
    {
        assert(s.skip(p as int).drop_first() =~= s.skip(p + 1));
        assert(s.skip(p as int)[0] == s[p as int]);
        p = p + 1;
    }
    proof {
        if p < v@.len() {
            assert(s.skip(p as int)[0] == s[p as int]);
        } else {
            assert(s.skip(p as int) =~= Seq::<u32>::empty());
        }
    }
    v.insert(p, x);
}

fn indices_of(rows: &[AvailablePrintingRow], norms: &Vec<String>, k: usize) -> (r: Vec<u32>)
    requires
        k < rows@.len(),
        norms@.len() == rows@.len(),
        forall|m: int| 0 <= m < rows@.len() ==> (#[trigger] norms@[m])@ == normalize_spec(rows@[m].title@),
    ensures
        r@ == back_indices(rows@, k as int, rows@.len() as int),
{
    let mut v: Vec<u32> = Vec::new();
    let mut j: usize = 0;
    while j < rows.len()
        invariant
            j <= rows@.len(),
            k < rows@.len(),
            norms@.len() == rows@.len(),
            forall|m: int| 0 <= m < rows@.len() ==> (#[trigger] norms@[m])@ == normalize_spec(rows@[m].title@),
            v@ == back_indices(rows@, k as int, j as int),
        decreases rows.len() - j,
    {
        if same_group(rows, norms, j, k) {
            if let Some(b) = back_index(rows[j].side.as_str()) {
                add_index_exec(&mut v, b);
            }
        }
        j = j + 1;
    }
    v
}

fn printing_of(rows: &[AvailablePrintingRow], norms: &Vec<String>, k: usize) -> (r: Printing)
    requires
        k < rows@.len(),
        norms@.len() == rows@.len(),
        forall|m: int| 0 <= m < rows@.len() ==> (#[trigger] norms@[m])@ == normalize_spec(rows@[m].title@),
    ensures
        printing_view(r) == printing_spec(rows@, k as int),
{
    let front = front_of(rows, norms, k);
    let idx = indices_of(rows, norms, k);
    let mut backs: Vec<CardSide> = Vec::new();
    let mut i: usize = 0;
    while i < idx.len()
        invariant
            i <= idx@.len(),
            k < rows@.len(),
            norms@.len() == rows@.len(),
            forall|m: int| 0 <= m < rows@.len() ==> (#[trigger] norms@[m])@ == normalize_spec(rows@[m].title@),
            backs@.map_values(|s: CardSide| side_view(s)) == idx@.take(i as int).map_values(|b: u32| side_scans(rows@, k as int, |l: Seq<char>| back_index_spec(l) == Some(b), rows@.len() as int)),
        decreases idx.len() - i,
    {
        let side = back_of(rows, norms, k, idx[i]);
        let ghost before = backs@;
        backs.push(side);
        proof {
            crate::seqs::lemma_push_map(before, side, |s: CardSide| side_view(s));
            crate::seqs::lemma_take_map_push(idx@, i as int, |b: u32| side_scans(rows@, k as int, |l: Seq<char>| back_index_spec(l) == Some(b), rows@.len() as int));
        }
        i = i + 1;
    }
    assert(idx@.take(i as int) =~= idx@);
    let r = &rows[k];
    Printing {
        card_id: r.id.clone(),
        card_title: r.title.clone(),
        is_official: r.is_official,
        variant: clone_opt(&r.variant),
        front,
        backs,
        collection: r.name.clone(),
        back_group: clone_opt(&r.back_group),
        pack_id: clone_opt(&r.pack_id),
        date_release: clone_opt(&r.date_release),
        position: r.position,
        linked_card_code: clone_opt(&r.linked_card_code),
        linked_card_name: clone_opt(&r.linked_card_name),
        linked_card_back_group: clone_opt(&r.linked_card_back_group),
    }
}

fn sort_printings(items: Vec<Printing>) -> (r: Vec<Printing>)
    ensures
        r@.map_values(|p: Printing| printing_view(p)) == sorted_by(items@.map_values(|p: Printing| printing_view(p)), |a: ((Seq<char>, Seq<char>, bool, Option<Seq<char>>), ((Option<Seq<char>>, Option<Seq<char>>), Seq<(Option<Seq<char>>, Option<Seq<char>>)>), (Seq<char>, Option<Seq<char>>, Option<Seq<char>>, Option<Seq<char>>, Option<i64>), (Option<Seq<char>>, Option<Seq<char>>, Option<Seq<char>>)), b: ((Seq<char>, Seq<char>, bool, Option<Seq<char>>), ((Option<Seq<char>>, Option<Seq<char>>), Seq<(Option<Seq<char>>, Option<Seq<char>>)>), (Seq<char>, Option<Seq<char>>, Option<Seq<char>>, Option<Seq<char>>, Option<i64>), (Option<Seq<char>>, Option<Seq<char>>, Option<Seq<char>>))| printing_lt(a, b), items@.len() as int),
{
    let ghost orig = items@;
    let ghost views = orig.map_values(|p: Printing| printing_view(p));
    let mut rest = items;
    let mut out: Vec<Printing> = Vec::new();
    let n = rest.len();
    let mut k: usize = 0;
    while k < n
        invariant
            n == orig.len(),
            k <= n,
            rest@ == orig.skip(k as int),
            views == orig.map_values(|p: Printing| printing_view(p)),
            out@.map_values(|p: Printing| printing_view(p)) == sorted_by(views, |a: ((Seq<char>, Seq<char>, bool, Option<Seq<char>>), ((Option<Seq<char>>, Option<Seq<char>>), Seq<(Option<Seq<char>>, Option<Seq<char>>)>), (Seq<char>, Option<Seq<char>>, Option<Seq<char>>, Option<Seq<char>>, Option<i64>), (Option<Seq<char>>, Option<Seq<char>>, Option<Seq<char>>)), b: ((Seq<char>, Seq<char>, bool, Option<Seq<char>>), ((Option<Seq<char>>, Option<Seq<char>>), Seq<(Option<Seq<char>>, Option<Seq<char>>)>), (Seq<char>, Option<Seq<char>>, Option<Seq<char>>, Option<Seq<char>>, Option<i64>), (Option<Seq<char>>, Option<Seq<char>>, Option<Seq<char>>))| printing_lt(a, b), k as int),
        decreases n - k,
    {
        let x = rest.remove(0);
        assert(x == orig[k as int]);
        assert(rest@ =~= orig.skip(k + 1));
        let ghost so = out@;
        let ghost s = so.map_values(|p: Printing| printing_view(p));
        let mut p: usize = 0;
        proof {
            lemma_sorted_by_len(views, |a: ((Seq<char>, Seq<char>, bool, Option<Seq<char>>), ((Option<Seq<char>>, Option<Seq<char>>), Seq<(Option<Seq<char>>, Option<Seq<char>>)>), (Seq<char>, Option<Seq<char>>, Option<Seq<char>>, Option<Seq<char>>, Option<i64>), (Option<Seq<char>>, Option<Seq<char>>, Option<Seq<char>>)), b: ((Seq<char>, Seq<char>, bool, Option<Seq<char>>), ((Option<Seq<char>>, Option<Seq<char>>), Seq<(Option<Seq<char>>, Option<Seq<char>>)>), (Seq<char>, Option<Seq<char>>, Option<Seq<char>>, Option<Seq<char>>, Option<i64>), (Option<Seq<char>>, Option<Seq<char>>, Option<Seq<char>>))| printing_lt(a, b), k as int);
            assert(s.skip(0) =~= s);
        }
        while p < out.len() && !printing_before(&x, &out[p])
            invariant
                p <= out@.len(),
                out@ == so,
                s == so.map_values(|p: Printing| printing_view(p)),
                k < views.len(),
                printing_view(x) == views[k as int],
                insert_pos(s, views[k as int], |a: ((Seq<char>, Seq<char>, bool, Option<Seq<char>>), ((Option<Seq<char>>, Option<Seq<char>>), Seq<(Option<Seq<char>>, Option<Seq<char>>)>), (Seq<char>, Option<Seq<char>>, Option<Seq<char>>, Option<Seq<char>>, Option<i64>), (Option<Seq<char>>, Option<Seq<char>>, Option<Seq<char>>)), b: ((Seq<char>, Seq<char>, bool, Option<Seq<char>>), ((Option<Seq<char>>, Option<Seq<char>>), Seq<(Option<Seq<char>>, Option<Seq<char>>)>), (Seq<char>, Option<Seq<char>>, Option<Seq<char>>, Option<Seq<char>>, Option<i64>), (Option<Seq<char>>, Option<Seq<char>>, Option<Seq<char>>))| printing_lt(a, b)) == p + insert_pos(s.skip(p as int), views[k as int], |a: ((Seq<char>, Seq<char>, bool, Option<Seq<char>>), ((Option<Seq<char>>, Option<Seq<char>>), Seq<(Option<Seq<char>>, Option<Seq<char>>)>), (Seq<char>, Option<Seq<char>>, Option<Seq<char>>, Option<Seq<char>>, Option<i64>), (Option<Seq<char>>, Option<Seq<char>>, Option<Seq<char>>)), b: ((Seq<char>, Seq<char>, bool, Option<Seq<char>>), ((Option<Seq<char>>, Option<Seq<char>>), Seq<(Option<Seq<char>>, Option<Seq<char>>)>), (Seq<char>, Option<Seq<char>>, Option<Seq<char>>, Option<Seq<char>>, Option<i64>), (Option<Seq<char>>, Option<Seq<char>>, Option<Seq<char>>))| printing_lt(a, b)),
            decreases out.len() - p,
        {
            assert(s.skip(p as int).drop_first() =~= s.skip(p + 1));
            assert(s.skip(p as int)[0] == s[p as int]);
            p = p + 1;
        }
        proof {
            if p < out@.len() {
                assert(s.skip(p as int)[0] == s[p as int]);
            } else {
                assert(s.skip(p as int) =~= Seq::empty());
            }
        }
        out.insert(p, x);
        proof {
            assert(out@.map_values(|p: Printing| printing_view(p)) =~= s.insert(p as int, printing_view(x)));
        }
        k = k + 1;
    }
    out
}

impl CardStore {
    /// The printings the rows describe, by normalized title. Rows agreeing
    /// on normalized title, card, variant, collection, pack and position are
    /// one printing: its card facts come from its first row, its front from
    /// the rows labelled `front`, and its backs, in index order, from the
    /// rows labelled `back`, `back2`, ...; of two scans of one kind the later
    /// row wins. Each title's printings are sorted so the earliest is the
    /// default choice: dated before undated, then by release date, card id,
    /// position and variant. A printing with no front scan (a part whose
    /// front file is missing) is left out, and a title left with none has no
    /// entry.
    pub fn assemble_printings(rows: &[AvailablePrintingRow]) -> (r: StrMap<Vec<Printing>>)
        ensures
            r.wf(),
            forall|t: Seq<char>| #[trigger] r@.contains_key(t) <==> title_list(rows@, t, rows@.len() as int).len() > 0,
            forall|t: Seq<char>| #[trigger] r@.contains_key(t) ==> r@[t]@.map_values(|p: Printing| printing_view(p)) == sorted_by(title_list(rows@, t, rows@.len() as int), |a: ((Seq<char>, Seq<char>, bool, Option<Seq<char>>), ((Option<Seq<char>>, Option<Seq<char>>), Seq<(Option<Seq<char>>, Option<Seq<char>>)>), (Seq<char>, Option<Seq<char>>, Option<Seq<char>>, Option<Seq<char>>, Option<i64>), (Option<Seq<char>>, Option<Seq<char>>, Option<Seq<char>>)), b: ((Seq<char>, Seq<char>, bool, Option<Seq<char>>), ((Option<Seq<char>>, Option<Seq<char>>), Seq<(Option<Seq<char>>, Option<Seq<char>>)>), (Seq<char>, Option<Seq<char>>, Option<Seq<char>>, Option<Seq<char>>, Option<i64>), (Option<Seq<char>>, Option<Seq<char>>, Option<Seq<char>>))| printing_lt(a, b), title_list(rows@, t, rows@.len() as int).len() as int),
    {
        let mut norms: Vec<String> = Vec::new();
        let mut i: usize = 0;
        while i < rows.len()
            invariant
                i <= rows@.len(),
                norms@.len() == i,
                forall|m: int| 0 <= m < i ==> (#[trigger] norms@[m])@ == normalize_spec(rows@[m].title@),
            decreases rows.len() - i,
        {
            norms.push(normalize_title(rows[i].title.as_str()));
            i = i + 1;
        }
        let mut heads: Vec<bool> = Vec::new();
        let mut i: usize = 0;
        while i < rows.len()
            invariant
                i <= rows@.len(),
                norms@.len() == rows@.len(),
                forall|m: int| 0 <= m < rows@.len() ==> (#[trigger] norms@[m])@ == normalize_spec(rows@[m].title@),
                heads@.len() == i,
                forall|m: int| 0 <= m < i ==> heads@[m] == is_head(rows@, m),
            decreases rows.len() - i,
        {
            let mut head = true;
            let mut j: usize = 0;
            while j < i
                invariant
                    j <= i < rows@.len(),
                    norms@.len() == rows@.len(),
                    forall|m: int| 0 <= m < rows@.len() ==> (#[trigger] norms@[m])@ == normalize_spec(rows@[m].title@),
                    head == forall|m: int| 0 <= m < j ==> group_key(#[trigger] rows@[m]) != group_key(rows@[i as int]),
                decreases i - j,
            {
                if same_group(rows, &norms, j, i) {
                    head = false;
                }
                j = j + 1;
            }
            heads.push(head);
            i = i + 1;
        }
        let mut map: StrMap<Vec<Printing>> = StrMap::new();
        let mut i: usize = 0;
        while i < rows.len()
            invariant
                i <= rows@.len(),
                map.wf(),
                norms@.len() == rows@.len(),
                forall|m: int| 0 <= m < rows@.len() ==> (#[trigger] norms@[m])@ == normalize_spec(rows@[m].title@),
                heads@.len() == rows@.len(),
                forall|m: int| 0 <= m < rows@.len() ==> heads@[m] == is_head(rows@, m),
                forall|t: Seq<char>| #[trigger] map@.contains_key(t) <==> (exists|k: int| 0 <= k < i && normalize_spec(#[trigger] rows@[k].title@) == t) && title_list(rows@, t, rows@.len() as int).len() > 0,
                forall|t: Seq<char>| #[trigger] map@.contains_key(t) ==> map@[t]@.map_values(|p: Printing| printing_view(p)) == sorted_by(title_list(rows@, t, rows@.len() as int), |a: ((Seq<char>, Seq<char>, bool, Option<Seq<char>>), ((Option<Seq<char>>, Option<Seq<char>>), Seq<(Option<Seq<char>>, Option<Seq<char>>)>), (Seq<char>, Option<Seq<char>>, Option<Seq<char>>, Option<Seq<char>>, Option<i64>), (Option<Seq<char>>, Option<Seq<char>>, Option<Seq<char>>)), b: ((Seq<char>, Seq<char>, bool, Option<Seq<char>>), ((Option<Seq<char>>, Option<Seq<char>>), Seq<(Option<Seq<char>>, Option<Seq<char>>)>), (Seq<char>, Option<Seq<char>>, Option<Seq<char>>, Option<Seq<char>>, Option<i64>), (Option<Seq<char>>, Option<Seq<char>>, Option<Seq<char>>))| printing_lt(a, b), title_list(rows@, t, rows@.len() as int).len() as int),
            decreases rows.len() - i,
        {
            let ghost t = norms@[i as int]@;
            let ghost m0 = map@;
            if !map.contains_key(norms[i].as_str()) {
                let mut list: Vec<Printing> = Vec::new();
                let mut j: usize = 0;
                while j < rows.len()
                    invariant
                        j <= rows@.len(),
                        i < rows@.len(),
                        norms@.len() == rows@.len(),
                        forall|m: int| 0 <= m < rows@.len() ==> (#[trigger] norms@[m])@ == normalize_spec(rows@[m].title@),
                        heads@.len() == rows@.len(),
                        forall|m: int| 0 <= m < rows@.len() ==> heads@[m] == is_head(rows@, m),
                        t == norms@[i as int]@,
                        list@.map_values(|p: Printing| printing_view(p)) == title_list(rows@, t, j as int),
                    decreases rows.len() - j,
                {
                    if heads[j] && str_eq(norms[j].as_str(), norms[i].as_str()) {
                        let p = printing_of(rows, &norms, j);
                        if p.front.image_key.is_some() || p.front.bleed_image_key.is_some() {
                            let ghost before = list@;
                            list.push(p);
                            proof {
                                crate::seqs::lemma_push_map(before, p, |p: Printing| printing_view(p));
                            }
                        }
                    }
                    j = j + 1;
                    assert(list@.map_values(|p: Printing| printing_view(p)) =~= title_list(rows@, t, j as int));
                }
                if list.len() > 0 {
                    let sorted = sort_printings(list);
                    map.insert(norms[i].clone(), sorted);
                }
                proof {
                    assert(normalize_spec(rows@[i as int].title@) == t);
                    assert forall|u: Seq<char>| #[trigger] map@.contains_key(u) <==> (exists|k: int| 0 <= k < i + 1 && normalize_spec(#[trigger] rows@[k].title@) == u) && title_list(rows@, u, rows@.len() as int).len() > 0 by {
                        if u != t {
                            if exists|k: int| 0 <= k < i + 1 && normalize_spec(#[trigger] rows@[k].title@) == u {
                                let k = choose|k: int| 0 <= k < i + 1 && normalize_spec(#[trigger] rows@[k].title@) == u;
                                assert(k != i);
                                assert(0 <= k < i);
                            }
                            if m0.contains_key(u) {
                                let k = choose|k: int| 0 <= k < i && normalize_spec(#[trigger] rows@[k].title@) == u;
                                assert(0 <= k < i + 1);
                            }
                        } else {
                            assert(0 <= i < i + 1);
                        }
                    }
                }
            } else {
                proof {
                    assert forall|u: Seq<char>| #[trigger] map@.contains_key(u) <==> (exists|k: int| 0 <= k < i + 1 && normalize_spec(#[trigger] rows@[k].title@) == u) && title_list(rows@, u, rows@.len() as int).len() > 0 by {
                        if exists|k: int| 0 <= k < i + 1 && normalize_spec(#[trigger] rows@[k].title@) == u {
                            let k = choose|k: int| 0 <= k < i + 1 && normalize_spec(#[trigger] rows@[k].title@) == u;
                            if k == i {
                                assert(u == t);
                            } else {
                                assert(0 <= k < i);
                            }
                        }
                        if map@.contains_key(u) {
                            let k = choose|k: int| 0 <= k < i && normalize_spec(#[trigger] rows@[k].title@) == u;
                            assert(0 <= k < i + 1);
                        }
                    }
                }
            }
            i = i + 1;
        }
        proof {
            assert forall|t: Seq<char>| #[trigger] map@.contains_key(t) <==> title_list(rows@, t, rows@.len() as int).len() > 0 by {
                if title_list(rows@, t, rows@.len() as int).len() > 0 {
                    lemma_title_list_has_a_row(rows@, t, rows@.len() as int);
                }
            }
        }
        map
    }
}

/// A title with printings names one of the rows.
proof fn lemma_title_list_has_a_row(rows: Seq<AvailablePrintingRow>, t: Seq<char>, n: int)
    requires
        0 <= n <= rows.len(),
        title_list(rows, t, n).len() > 0,
    ensures
        exists|k: int| 0 <= k < n && normalize_spec(#[trigger] rows[k].title@) == t,
    decreases n,
{
    if n > 0 {
        if title_list(rows, t, n - 1).len() > 0 {
            lemma_title_list_has_a_row(rows, t, n - 1);
        } else {
            assert(normalize_spec(rows[n - 1].title@) == t);
        }
    }
}

/// The message of requests none of whose titles has a printing.
pub open spec fn no_printings_message() -> Seq<char> {
    "No printings found in your collections for any requested cards."@
}

impl CardStore {
    /// The printings on offer for the requested titles, from the image rows
    /// of those titles: none for no requests; an error when there are
    /// requests and no printing with a front; else the printings
    /// `assemble_printings` makes.
    pub fn get_available_printings(&self, card_requests: &[CardRequest], rows: &[AvailablePrintingRow]) -> (r: Result<StrMap<Vec<Printing>>, ProxyNexusError>)
        ensures
            card_requests@.len() == 0 ==> (r matches Ok(m) && m.wf() && m@ == Map::<Seq<char>, Vec<Printing>>::empty()),
            card_requests@.len() > 0 ==> ((forall|t: Seq<char>| #[trigger] title_list(rows@, t, rows@.len() as int).len() == 0) <==> r is Err),
            r matches Err(e) ==> (e matches ProxyNexusError::Internal(msg) && msg@ == no_printings_message()),
            card_requests@.len() > 0 ==> (r matches Ok(m) ==> m.wf() && (forall|t: Seq<char>| #[trigger] m@.contains_key(t) <==> title_list(rows@, t, rows@.len() as int).len() > 0)
                && (forall|t: Seq<char>| #[trigger] m@.contains_key(t) ==> m@[t]@.map_values(|p: Printing| printing_view(p)) == sorted_by(title_list(rows@, t, rows@.len() as int), |a: ((Seq<char>, Seq<char>, bool, Option<Seq<char>>), ((Option<Seq<char>>, Option<Seq<char>>), Seq<(Option<Seq<char>>, Option<Seq<char>>)>), (Seq<char>, Option<Seq<char>>, Option<Seq<char>>, Option<Seq<char>>, Option<i64>), (Option<Seq<char>>, Option<Seq<char>>, Option<Seq<char>>)), b: ((Seq<char>, Seq<char>, bool, Option<Seq<char>>), ((Option<Seq<char>>, Option<Seq<char>>), Seq<(Option<Seq<char>>, Option<Seq<char>>)>), (Seq<char>, Option<Seq<char>>, Option<Seq<char>>, Option<Seq<char>>, Option<i64>), (Option<Seq<char>>, Option<Seq<char>>, Option<Seq<char>>))| printing_lt(a, b), title_list(rows@, t, rows@.len() as int).len() as int))),
    {
        if card_requests.len() == 0 {
            return Ok(StrMap::new());
        }
        let map = Self::assemble_printings(rows);
        if map.len() == 0 {
            proof {
                assert forall|t: Seq<char>| #[trigger] title_list(rows@, t, rows@.len() as int).len() == 0 by {
                    if title_list(rows@, t, rows@.len() as int).len() > 0 {
                        assert(map@.contains_key(t));
                        map.lemma_dom_keys(t);
                    }
                }
            }
            return Err(ProxyNexusError::Internal(owned("No printings found in your collections for any requested cards.")));
        }
        proof {
            map.lemma_keys_in_dom();
            let k0 = map.key_seq()[0];
            assert(map@.contains_key(k0));
            assert(title_list(rows@, k0, rows@.len() as int).len() > 0);
        }
        Ok(map)
    }
}

} // verus!
