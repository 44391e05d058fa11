//! Which packs the loaded collections can print, and how much of each.
use vstd::prelude::*;
use crate::card_store::CardStore;
use crate::models::{clone_opt, opt_view};
use crate::order::{
    insert_pos, lemma_insert_pos_bounded, lemma_sorted_texts, opt_lt, opt_str_lt, seq_lt,
    sort_strings, sorted_by, str_lt, text_lt, texts,
};
use crate::text::{i64_to_string, owned, push_str, signed_decimal, str_eq};

verus! {

/// A pack, and what the loaded collections can print of it.
///
/// `printable` counts cards, not images. A card prints from any printing of
/// itself, so a pack holding none of its own images is still printable in full
/// when the sets around it carry the same cards. Availability is asked as
/// "can these cards print", not "does this pack own images".
#[derive(Clone, Debug, PartialEq)]
pub struct AvailablePack {
    pub name: String,
    pub id: String,
    pub date_release: Option<String>,
    /// Cards the pack prints.
    pub total: i64,
    /// Of those, the ones some collection holds an image of.
    pub printable: i64,
    /// `"12 in nr-nsg"` per collection, counting only the pack's own images.
    pub collections: Vec<String>,
}

/// A pack with one collection and how many of the pack's own images it holds.
#[derive(Clone, Debug)]
pub struct PackRow {
    pub pack_name: String,
    pub pack_id: String,
    pub coll_name: Option<String>,
    pub coll_count: i64,
    pub date_release: Option<String>,
}

/// A card version of a pack.
#[derive(Clone, Debug)]
pub struct PackVersionRow {
    pub pack_id: String,
    pub version_id: String,
    pub card_id: String,
}

/// Version `k` is the first row of its version id.
pub open spec fn first_version(vs: Seq<PackVersionRow>, k: int) -> bool {
    forall|j: int| 0 <= j < k ==> (#[trigger] vs[j]).version_id@ != vs[k].version_id@
}

/// Of the first `n` version rows, counted once per version: how many are of
/// `pack`, and how many of those are of a card some collection prints.
pub open spec fn pack_totals(vs: Seq<PackVersionRow>, printed: Seq<Seq<char>>, pack: Seq<char>, n: int) -> (int, int)
    decreases n,
{
    if n <= 0 {
        (0, 0)
    } else {
        let (t, p) = pack_totals(vs, printed, pack, n - 1);
        if first_version(vs, n - 1) && vs[n - 1].pack_id@ == pack {
            (t + 1, if printed.contains(vs[n - 1].card_id@) { p + 1 } else { p })
        } else {
            (t, p)
        }
    }
}

/// Row `k` is the first of its pack.
pub open spec fn first_of_pack(rows: Seq<PackRow>, k: int) -> bool {
    forall|j: int| 0 <= j < k ==> (#[trigger] rows[j]).pack_id@ != rows[k].pack_id@
}

/// The collection entry a row gives: `"{count} in {collection}"`, for a row
/// naming a collection that holds some of the pack's images.
pub open spec fn collection_text(r: PackRow) -> Option<Seq<char>> {
    match r.coll_name {
        Some(name) => if r.coll_count > 0 {
            Some(signed_decimal(r.coll_count as int) + " in "@ + name@)
        } else {
            None
        },
        None => None,
    }
}

/// The collection entries of `pack` among the first `n` rows, in row order.
pub open spec fn collection_texts(rows: Seq<PackRow>, pack: Seq<char>, n: int) -> Seq<Seq<char>>
    decreases n,
{
    if n <= 0 {
        Seq::empty()
    } else {
        collection_texts(rows, pack, n - 1) + if rows[n - 1].pack_id@ == pack {
            match collection_text(rows[n - 1]) {
                Some(t) => seq![t],
                None => Seq::empty(),
            }
        } else {
            Seq::empty()
        }
    }
}

/// The texts of an available pack.
pub open spec fn available_view(a: AvailablePack) -> (Seq<char>, Seq<char>, Option<Seq<char>>, int, int, Seq<Seq<char>>) {
    (a.name@, a.id@, opt_view(a.date_release), a.total as int, a.printable as int, texts(a.collections@))
}

/// The entry of the pack whose first row is `k`: its name and release date
/// from that row, its totals, and its collections sorted.
pub open spec fn pack_entry(rows: Seq<PackRow>, vs: Seq<PackVersionRow>, printed: Seq<Seq<char>>, k: int) -> (Seq<char>, Seq<char>, Option<Seq<char>>, int, int, Seq<Seq<char>>) {
    let pack = rows[k].pack_id@;
    let (total, printable) = pack_totals(vs, printed, pack, vs.len() as int);
    let colls = collection_texts(rows, pack, rows.len() as int);
    (rows[k].pack_name@, pack, opt_view(rows[k].date_release), total, printable, sorted_by(colls, |a: Seq<char>, b: Seq<char>| seq_lt(a, b), colls.len() as int))
}

/// The entries of the packs first met among the first `n` rows, in that order.
pub open spec fn pack_entries(rows: Seq<PackRow>, vs: Seq<PackVersionRow>, printed: Seq<Seq<char>>, n: int) -> Seq<(Seq<char>, Seq<char>, Option<Seq<char>>, int, int, Seq<Seq<char>>)>
    decreases n,
{
    if n <= 0 {
        Seq::empty()
    } else {
        pack_entries(rows, vs, printed, n - 1) + if first_of_pack(rows, n - 1) {
            seq![pack_entry(rows, vs, printed, n - 1)]
        } else {
            Seq::empty()
        }
    }
}

/// Pack `a` is listed before `b`: dated packs first, the newest first, ties
/// by name.
pub open spec fn pack_lt(a: (Seq<char>, Seq<char>, Option<Seq<char>>, int, int, Seq<Seq<char>>), b: (Seq<char>, Seq<char>, Option<Seq<char>>, int, int, Seq<Seq<char>>)) -> bool {
    (a.2 is Some && b.2 is None) || ((a.2 is Some) == (b.2 is Some) && (opt_lt(b.2, a.2) || (a.2 == b.2 && seq_lt(a.0, b.0))))
}

fn pack_before(a: &AvailablePack, b: &AvailablePack) -> (r: bool)
    ensures
        r == pack_lt(available_view(*a), available_view(*b)),
{
    let ad = a.date_release.is_some();
    let bd = b.date_release.is_some();
    if ad && !bd {
        return true;
    }
    if ad != bd {
        return false;
    }
    if opt_str_lt(&b.date_release, &a.date_release) {
        return true;
    }
    crate::models::opt_eq(&a.date_release, &b.date_release) && str_lt(a.name.as_str(), b.name.as_str())
}

fn count_versions(vs: &[PackVersionRow], printed: &[String], pack: &str) -> (r: (i64, i64))
    requires
        vs@.len() <= i64::MAX,
    ensures
        (r.0 as int, r.1 as int) == pack_totals(vs@, texts(printed@), pack@, vs@.len() as int),
{
    let mut total: i64 = 0;
    let mut printable: i64 = 0;
    let mut i: usize = 0;
    while i < vs.len()
        invariant
            i <= vs@.len(),
            vs@.len() <= i64::MAX,
            (total as int, printable as int) == pack_totals(vs@, texts(printed@), pack@, i as int),
            0 <= printable <= total <= i,
        decreases vs.len() - i,
    {
        let mut first = true;
        let mut j: usize = 0;
        while j < i
            invariant
                j <= i < vs@.len(),
                first == forall|m: int| 0 <= m < j ==> (#[trigger] vs@[m]).version_id@ != vs@[i as int].version_id@,
            decreases i - j,
        {
            if str_eq(vs[j].version_id.as_str(), vs[i].version_id.as_str()) {
                first = false;
            }
            j = j + 1;
        }
        if first && str_eq(vs[i].pack_id.as_str(), pack) {
            total = total + 1;
            let mut seen = false;
            let mut k: usize = 0;
            while k < printed.len()
                invariant
                    k <= printed@.len(),
                    i < vs@.len(),
                    seen == exists|m: int| 0 <= m < k && (#[trigger] printed@[m])@ == vs@[i as int].card_id@,
                decreases printed.len() - k,
            {
                if str_eq(printed[k].as_str(), vs[i].card_id.as_str()) {
                    seen = true;
                }
                k = k + 1;
            }
            proof {
                if seen {
                    let m = choose|m: int| 0 <= m < k && (#[trigger] printed@[m])@ == vs@[i as int].card_id@;
                    assert(texts(printed@)[m] == vs@[i as int].card_id@);
                } else {
                    assert forall|m: int| 0 <= m < texts(printed@).len() implies #[trigger] texts(printed@)[m] != vs@[i as int].card_id@ by {
                        assert(printed@[m]@ != vs@[i as int].card_id@);
                    }
                }
            }
            if seen {
                printable = printable + 1;
            }
        }
        i = i + 1;
    }
    (total, printable)
}

fn collections_of(rows: &[PackRow], pack: &str) -> (r: Vec<String>)
    ensures
        texts(r@) == collection_texts(rows@, pack@, rows@.len() as int),
{
    let mut out: Vec<String> = Vec::new();
    let mut i: usize = 0;
    while i < rows.len()
        invariant
            i <= rows@.len(),
            texts(out@) == collection_texts(rows@, pack@, i as int),
        decreases rows.len() - i,
    {
        let r = &rows[i];
        if str_eq(r.pack_id.as_str(), pack) {
            if let Some(name) = &r.coll_name {
                if r.coll_count > 0 {
                    let mut t = i64_to_string(r.coll_count);
                    push_str(&mut t, " in ");
                    push_str(&mut t, name.as_str());
                    out.push(t);
                }
            }
        }
        i = i + 1;
        assert(texts(out@) =~= collection_texts(rows@, pack@, i as int));
    }
    out
}

impl CardStore {
    /// The packs of the game with what the collections can print of each,
    /// from the pack/collection rows, the version rows and the ids of the
    /// cards some collection prints. Packs come in the order dated first,
    /// newest first, ties by name; each pack's collections are sorted.
    pub fn get_available_packs(&self, pack_rows: &[PackRow], versions: &[PackVersionRow], printed: &[String]) -> (r: Vec<AvailablePack>)
        requires
            versions@.len() <= i64::MAX,
        ensures
            r@.map_values(|a: AvailablePack| available_view(a)) == sorted_by(
                pack_entries(pack_rows@, versions@, texts(printed@), pack_rows@.len() as int),
                |a: (Seq<char>, Seq<char>, Option<Seq<char>>, int, int, Seq<Seq<char>>), b: (Seq<char>, Seq<char>, Option<Seq<char>>, int, int, Seq<Seq<char>>)| pack_lt(a, b),
                pack_entries(pack_rows@, versions@, texts(printed@), pack_rows@.len() as int).len() as int,
            ),
    {
        let mut entries: Vec<AvailablePack> = Vec::new();
        let mut i: usize = 0;
        while i < pack_rows.len()
            invariant
                i <= pack_rows@.len(),
                versions@.len() <= i64::MAX,
                entries@.map_values(|a: AvailablePack| available_view(a)) == pack_entries(pack_rows@, versions@, texts(printed@), i as int),
            decreases pack_rows.len() - i,
        {
            let row = &pack_rows[i];
            let mut first = true;
            let mut j: usize = 0;
            while j < i
                invariant
                    j <= i < pack_rows@.len(),
                    first == forall|m: int| 0 <= m < j ==> (#[trigger] pack_rows@[m]).pack_id@ != pack_rows@[i as int].pack_id@,
                decreases i - j,
            {
                if str_eq(pack_rows[j].pack_id.as_str(), pack_rows[i].pack_id.as_str()) {
                    first = false;
                }
                j = j + 1;
            }
            let ghost before = entries@;
            if first {
                let (total, printable) = count_versions(versions, printed, row.pack_id.as_str());
                let colls = collections_of(pack_rows, row.pack_id.as_str());
                let sorted = sort_strings(&colls);
                proof {
                    lemma_sorted_texts(colls@, colls@.len() as int);
                }
                let entry = AvailablePack {
                    name: row.pack_name.clone(),
                    id: row.pack_id.clone(),
                    date_release: clone_opt(&row.date_release),
                    total,
                    printable,
                    collections: sorted,
                };
                entries.push(entry);
                proof {
                    crate::seqs::lemma_push_map(before, entry, |a: AvailablePack| available_view(a));
                }
            }
            i = i + 1;
            assert(entries@.map_values(|a: AvailablePack| available_view(a)) =~= pack_entries(pack_rows@, versions@, texts(printed@), i as int));
        }
        let ghost items = entries@.map_values(|a: AvailablePack| available_view(a));
        let ghost lt = |a: (Seq<char>, Seq<char>, Option<Seq<char>>, int, int, Seq<Seq<char>>), b: (Seq<char>, Seq<char>, Option<Seq<char>>, int, int, Seq<Seq<char>>)| pack_lt(a, b);
        let ghost orig = entries@;
        let mut out: Vec<AvailablePack> = Vec::new();
        let n = entries.len();
        let mut k: usize = 0;
        while k < n
            invariant
                n == orig.len(),
                k <= n,
                entries@ == orig.skip(k as int),
                items == orig.map_values(|a: AvailablePack| available_view(a)),
                out@.map_values(|a: AvailablePack| available_view(a)) == sorted_by(items, |a: (Seq<char>, Seq<char>, Option<Seq<char>>, int, int, Seq<Seq<char>>), b: (Seq<char>, Seq<char>, Option<Seq<char>>, int, int, Seq<Seq<char>>)| pack_lt(a, b), k as int),
            decreases n - k,
        {
            let x = entries.remove(0);
            assert(x == orig[k as int]);
            assert(entries@ =~= orig.skip(k + 1));
            let ghost s = out@.map_values(|a: AvailablePack| available_view(a));
            let ghost so = out@;
            let mut p: usize = 0;
            proof {
                crate::order::lemma_sorted_by_len(items, |a: (Seq<char>, Seq<char>, Option<Seq<char>>, int, int, Seq<Seq<char>>), b: (Seq<char>, Seq<char>, Option<Seq<char>>, int, int, Seq<Seq<char>>)| pack_lt(a, b), k as int);
                assert(s.skip(0) =~= s);
            }
            while p < out.len() && !pack_before(&x, &out[p])
                invariant
                    p <= out@.len(),
                    out@ == so,
                    s == so.map_values(|a: AvailablePack| available_view(a)),
                    k < items.len(),
                    available_view(x) == items[k as int],
                    insert_pos(s, items[k as int], |a: (Seq<char>, Seq<char>, Option<Seq<char>>, int, int, Seq<Seq<char>>), b: (Seq<char>, Seq<char>, Option<Seq<char>>, int, int, Seq<Seq<char>>)| pack_lt(a, b)) == p + insert_pos(s.skip(p as int), items[k as int], |a: (Seq<char>, Seq<char>, Option<Seq<char>>, int, int, Seq<Seq<char>>), b: (Seq<char>, Seq<char>, Option<Seq<char>>, int, int, Seq<Seq<char>>)| pack_lt(a, b)),
                decreases out.len() - p,
            {
                assert(s.skip(p as int).drop_first() =~= s.skip(p + 1));
                assert(s.skip(p as int)[0] == s[p as int]);
                p = p + 1;
            }
            proof {
                if p < out@.len() {
                    assert(s.skip(p as int)[0] == s[p as int]);
                } else {
                    assert(s.skip(p as int) =~= Seq::empty());
                }
            }
            out.insert(p, x);
            proof {
                assert(out@.map_values(|a: AvailablePack| available_view(a)) =~= s.insert(p as int, available_view(x)));
            }
            k = k + 1;
        }
        out
    }
}

} // verus!
