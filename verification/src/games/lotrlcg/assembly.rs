//! The Lord of the Rings LCG catalog, put together from Hall of Beorn's
//! printings, the ALeP fan expansions and RingsDB's cards, in that order:
//! a pack, card or version met again later is not added twice.
use vstd::prelude::*;
use vstd::hash_map::StringHashMap;
use vstd::hash_set::StringHashSet;
use crate::card_store::{normalize_spec, normalize_title};
use crate::catalog::{card_view, card_with, pack_view, version_view, Card, CardVersion, Catalog, Pack};
use crate::games::lotrlcg::identity::{
    card_title_spec, card_titles, id_map, printing_card_ids, str_values, titled_ids,
};
use crate::games::lotrlcg::{
    back_group_from_type_code, back_group_spec, canonical_pack_name, canonical_pack_spec, HobCard,
    RingsdbCard, RingsdbPack,
};
use crate::keyed::StrMap;
use crate::models::opt_view;
use crate::order::texts;
use crate::text::{chars_of, has_prefix, owned, push_str, replace_all, replace_str, starts_with};

verus! {

/// A pack as the catalog lists it: id, name, release date.
pub type PackRow = (Seq<char>, Seq<char>, Option<Seq<char>>);

/// A card as the catalog lists it.
pub type CardRow = (
    Seq<char>,
    Seq<char>,
    Seq<char>,
    Option<Seq<char>>,
    Option<Seq<char>>,
    Option<Seq<char>>,
    Option<Seq<char>>,
    Option<Seq<char>>,
    Option<Seq<char>>,
);

/// A card version as the catalog lists it.
pub type VersionRow = (Seq<char>, Seq<char>, i64, Option<i64>, Option<Seq<char>>);

/// A catalog being put together: its packs, cards and versions, the
/// (card, pack) pairs that already have a version, and the (pack, position)
/// pairs a version already fills.
pub type Build = (Seq<PackRow>, Seq<CardRow>, Seq<VersionRow>, Set<(Seq<char>, Seq<char>)>, Set<(Seq<char>, i64)>);

/// The prefix of an ALeP pack's name.
pub open spec fn alep_prefix() -> Seq<char> {
    "ALeP - "@
}

/// The position of the pack `pid` among `packs`, if it is there.
pub open spec fn pack_pos(packs: Seq<PackRow>, pid: Seq<char>) -> Option<int>
    decreases packs.len(),
{
    if packs.len() == 0 {
        None
    } else {
        match pack_pos(packs.drop_last(), pid) {
            Some(i) => Some(i),
            None => if packs.last().0 == pid {
                Some(packs.len() - 1)
            } else {
                None
            },
        }
    }
}

/// Whether a card `id` is listed.
pub open spec fn has_card(cards: Seq<CardRow>, id: Seq<char>) -> bool {
    exists|i: int| 0 <= i < cards.len() && #[trigger] cards[i].0 == id
}

/// The release date of pack `pid`, if known.
pub open spec fn date_of(dates: Map<Seq<char>, Seq<char>>, pid: Seq<char>) -> Option<Seq<char>> {
    if dates.contains_key(pid) {
        Some(dates[pid])
    } else {
        None
    }
}

/// `b` with the pack `pid` named `name`, unless a pack `pid` is listed.
pub open spec fn add_pack(b: Build, pid: Seq<char>, name: Seq<char>, dates: Map<Seq<char>, Seq<char>>) -> Build {
    match pack_pos(b.0, pid) {
        Some(_) => b,
        None => (b.0.push((pid, name, date_of(dates, pid))), b.1, b.2, b.3, b.4),
    }
}

/// `b` with the card `id`, unless it is listed.
pub open spec fn add_card(b: Build, id: Seq<char>, title: Seq<char>, back: Seq<char>) -> Build {
    if has_card(b.1, id) {
        b
    } else {
        (b.0, b.1.push((id, title, normalize_spec(title), None, Some(back), None, None, None, None)), b.2, b.3, b.4)
    }
}

/// `b` with the version `v`, unless one under `key` is listed; a version
/// added fills its pack position, if it has one.
pub open spec fn add_version(b: Build, key: (Seq<char>, Seq<char>), pos: Option<(Seq<char>, i64)>, v: VersionRow) -> Build {
    if b.3.contains(key) {
        b
    } else {
        (b.0, b.1, b.2.push(v), b.3.insert(key), match pos {
            Some(e) => b.4.insert(e),
            None => b.4,
        })
    }
}

/// The back a Hall of Beorn card type prints with.
pub open spec fn hob_back_spec(card_type: Seq<char>) -> Seq<char> {
    if card_type == "Ally"@ || card_type == "Attachment"@ || card_type == "Contract"@ || card_type == "Event"@
        || card_type == "Hero"@ || card_type == "Player_Side_Quest"@ || card_type == "Treasure"@ {
        "player"@
    } else if card_type == "Quest"@ || card_type == "Campaign"@ || card_type == "GenCon_Setup"@ || card_type
        == "Nightmare_Setup"@ {
        "quest"@
    } else {
        "encounter"@
    }
}

/// The back a Hall of Beorn card type prints with.
pub fn hob_back(card_type: &str) -> (r: &'static str)
    ensures
        r@ == hob_back_spec(card_type@),
{
    let t = card_type;
    if crate::text::str_eq(t, "Ally") || crate::text::str_eq(t, "Attachment") || crate::text::str_eq(t, "Contract")
        || crate::text::str_eq(t, "Event") || crate::text::str_eq(t, "Hero") || crate::text::str_eq(
        t,
        "Player_Side_Quest",
    ) || crate::text::str_eq(t, "Treasure") {
        "player"
    } else if crate::text::str_eq(t, "Quest") || crate::text::str_eq(t, "Campaign") || crate::text::str_eq(
        t,
        "GenCon_Setup",
    ) || crate::text::str_eq(t, "Nightmare_Setup") {
        "quest"
    } else {
        "encounter"
    }
}

/// A Hall of Beorn printing's pack, added when new.
pub open spec fn hob_pack_step(b: Build, c: HobCard, dates: Map<Seq<char>, Seq<char>>) -> Build {
    add_pack(b, normalize_spec(c.card_set@), c.card_set@, dates)
}

/// A Hall of Beorn printing's card and version: the card under its id
/// (its normalized slug when it has none) and title (its own when its card
/// has none); the version under its slug and pack, three copies unless it
/// says otherwise.
pub open spec fn hob_card_step(
    b: Build,
    c: HobCard,
    ids: Map<Seq<char>, Seq<char>>,
    titles: Map<Seq<char>, Seq<char>>,
) -> Build {
    let pid = normalize_spec(c.card_set@);
    let slug = normalize_spec(c.slug@);
    let id = if ids.contains_key(slug) {
        ids[slug]
    } else {
        slug
    };
    let title = if titles.contains_key(id) {
        titles[id]
    } else {
        c.title@
    };
    let quantity = match c.quantity {
        Some(q) => q,
        None => 3i64,
    };
    add_version(
        add_card(b, id, title, hob_back_spec(c.card_type@)),
        (slug, pid),
        Some((pid, c.number)),
        (id, pid, quantity, Some(c.number), Some(slug)),
    )
}

/// The id of a RingsDB card: its name and pack, normalized.
pub open spec fn ringsdb_id(name: Seq<char>, pid: Seq<char>) -> Seq<char> {
    normalize_spec(name + "-"@ + pid)
}

/// A RingsDB card's version, three copies unless it says otherwise.
pub open spec fn ringsdb_version(rc: RingsdbCard, pid: Seq<char>) -> VersionRow {
    (
        ringsdb_id(rc.name@, pid),
        pid,
        match rc.quantity {
            Some(q) => q as i64,
            None => 3i64,
        },
        match rc.position {
            Some(p) => Some(p as i64),
            None => None,
        },
        None,
    )
}

/// A RingsDB card's card and version.
pub open spec fn ringsdb_card_and_version(b: Build, rc: RingsdbCard, pid: Seq<char>) -> Build {
    let id = ringsdb_id(rc.name@, pid);
    add_version(
        add_card(b, id, rc.name@, back_group_spec(opt_view(rc.type_code))),
        (id, pid),
        match rc.position {
            Some(p) => Some((pid, p as i64)),
            None => None,
        },
        ringsdb_version(rc, pid),
    )
}

/// An ALeP card, skipped unless it is unofficial: its pack is added under
/// the ALeP name, or renamed to it when listed under another.
pub open spec fn alep_step(b: Build, rc: RingsdbCard, dates: Map<Seq<char>, Seq<char>>) -> Build {
    if match rc.is_official {
        Some(o) => o,
        None => true,
    } {
        b
    } else {
        let clean = canonical_pack_spec(rc.pack_name@);
        let display = alep_prefix() + clean;
        let pid = normalize_spec(clean);
        let b1 = match pack_pos(b.0, pid) {
            None => (b.0.push((pid, display, date_of(dates, pid))), b.1, b.2, b.3, b.4),
            Some(i) => if !has_prefix(b.0[i].1, alep_prefix()) {
                (b.0.update(i, (b.0[i].0, display, b.0[i].2)), b.1, b.2, b.3, b.4)
            } else {
                b
            },
        };
        ringsdb_card_and_version(b1, rc, pid)
    }
}

/// A RingsDB card: its pack added (under the ALeP name for an ALeP pack), or
/// given the ALeP name and a release date it lacks; then, unless a version
/// already fills its pack position, its card and version.
pub open spec fn ringsdb_step(b: Build, rc: RingsdbCard, dates: Map<Seq<char>, Seq<char>>) -> Build {
    let is_alep = has_prefix(replace_all(rc.pack_name@, ".English"@, Seq::empty()), alep_prefix());
    let clean = canonical_pack_spec(rc.pack_name@);
    let display = if is_alep {
        alep_prefix() + clean
    } else {
        clean
    };
    let pid = normalize_spec(clean);
    let b1 = match pack_pos(b.0, pid) {
        None => (b.0.push((pid, display, date_of(dates, pid))), b.1, b.2, b.3, b.4),
        Some(i) => {
            let p = b.0[i];
            let name = if is_alep && !has_prefix(p.1, alep_prefix()) {
                display
            } else {
                p.1
            };
            let date = if p.2 is None {
                date_of(dates, pid)
            } else {
                p.2
            };
            (b.0.update(i, (p.0, name, date)), b.1, b.2, b.3, b.4)
        },
    };
    let taken = match rc.position {
        Some(pos) => b1.4.contains((pid, pos as i64)),
        None => false,
    };
    if taken {
        b1
    } else {
        ringsdb_card_and_version(b1, rc, pid)
    }
}

/// The packs of the first `n` Hall of Beorn printings.
pub open spec fn hob_packs(b: Build, cs: Seq<HobCard>, dates: Map<Seq<char>, Seq<char>>, n: int) -> Build
    decreases n,
{
    if n <= 0 {
        b
    } else {
        hob_pack_step(hob_packs(b, cs, dates, n - 1), cs[n - 1], dates)
    }
}

/// The cards and versions of the first `n` Hall of Beorn printings.
pub open spec fn hob_cards(
    b: Build,
    cs: Seq<HobCard>,
    ids: Map<Seq<char>, Seq<char>>,
    titles: Map<Seq<char>, Seq<char>>,
    n: int,
) -> Build
    decreases n,
{
    if n <= 0 {
        b
    } else {
        hob_card_step(hob_cards(b, cs, ids, titles, n - 1), cs[n - 1], ids, titles)
    }
}

/// The first `n` ALeP cards.
pub open spec fn alep_cards(b: Build, rs: Seq<RingsdbCard>, dates: Map<Seq<char>, Seq<char>>, n: int) -> Build
    decreases n,
{
    if n <= 0 {
        b
    } else {
        alep_step(alep_cards(b, rs, dates, n - 1), rs[n - 1], dates)
    }
}

/// The first `n` RingsDB cards.
pub open spec fn ringsdb_cards(b: Build, rs: Seq<RingsdbCard>, dates: Map<Seq<char>, Seq<char>>, n: int) -> Build
    decreases n,
{
    if n <= 0 {
        b
    } else {
        ringsdb_step(ringsdb_cards(b, rs, dates, n - 1), rs[n - 1], dates)
    }
}

/// Each pack's release date, by normalized Hall of Beorn name: RingsDB's,
/// then the publisher's for the packs it lists, which wins.
pub open spec fn release_dates_spec(packs: Seq<RingsdbPack>, ffg: Seq<(String, String)>) -> Map<Seq<char>, Seq<char>>
    decreases packs.len() + ffg.len(),
{
    if ffg.len() > 0 {
        release_dates_spec(packs, ffg.drop_last()).insert(normalize_spec(ffg.last().0@), ffg.last().1@)
    } else if packs.len() > 0 {
        release_dates_spec(packs.drop_last(), ffg).insert(
            normalize_spec(canonical_pack_spec(packs.last().name@)),
            packs.last().available@,
        )
    } else {
        Map::empty()
    }
}

/// Each pack's release date, by normalized Hall of Beorn name: RingsDB's,
/// overridden by the publisher's own dates where it lists the pack.
pub fn pack_release_dates(ringsdb_packs: &[RingsdbPack], ffg_dates: &[(String, String)]) -> (r: StrMap<String>)
    ensures
        r.wf(),
        str_values(r@) == release_dates_spec(ringsdb_packs@, ffg_dates@),
{
    let mut out: StrMap<String> = StrMap::new();
    let mut i: usize = 0;
    assert(str_values(out@) =~= release_dates_spec(ringsdb_packs@.take(0), ffg_dates@.take(0)));
    while i < ringsdb_packs.len()
        invariant
            i <= ringsdb_packs@.len(),
            out.wf(),
            str_values(out@) == release_dates_spec(ringsdb_packs@.take(i as int), ffg_dates@.take(0)),
        decreases ringsdb_packs.len() - i,
    {
        let ghost before = out@;
        let clean = canonical_pack_name(ringsdb_packs[i].name.as_str());
        let id = normalize_title(clean.as_str());
        out.insert(id, ringsdb_packs[i].available.clone());
        proof {
            let t = ringsdb_packs@.take(i + 1);
            assert(t.drop_last() =~= ringsdb_packs@.take(i as int));
            assert(str_values(out@) =~= str_values(before).insert(
                normalize_spec(canonical_pack_spec(t.last().name@)),
                t.last().available@,
            ));
        }
        i = i + 1;
    }
    assert(ringsdb_packs@.take(i as int) =~= ringsdb_packs@);
    let mut j: usize = 0;
    while j < ffg_dates.len()
        invariant
            j <= ffg_dates@.len(),
            out.wf(),
            str_values(out@) == release_dates_spec(ringsdb_packs@, ffg_dates@.take(j as int)),
        decreases ffg_dates.len() - j,
    {
        let ghost before = out@;
        let id = normalize_title(ffg_dates[j].0.as_str());
        out.insert(id, ffg_dates[j].1.clone());
        proof {
            let t = ffg_dates@.take(j + 1);
            assert(t.drop_last() =~= ffg_dates@.take(j as int));
            assert(str_values(out@) =~= str_values(before).insert(normalize_spec(t.last().0@), t.last().1@));
        }
        j = j + 1;
    }
    assert(ffg_dates@.take(j as int) =~= ffg_dates@);
    out
}

/// A catalog being put together, with indexes of what it already holds.
pub struct CatalogBuilder {
    pub packs: Vec<Pack>,
    pub cards: Vec<Card>,
    pub versions: Vec<CardVersion>,
    pack_index: StringHashMap<usize>,
    card_ids: StringHashSet,
    version_keys: StringHashMap<Vec<String>>,
    positions: StringHashMap<Vec<i64>>,
}

/// The (card, pack) pairs a map from card keys to pack lists holds.
pub open spec fn pair_set(m: Map<Seq<char>, Vec<String>>) -> Set<(Seq<char>, Seq<char>)> {
    Set::new(|k: (Seq<char>, Seq<char>)| m.contains_key(k.0) && texts(m[k.0]@).contains(k.1))
}

/// The (pack, position) pairs a map from packs to position lists holds.
pub open spec fn position_set(m: Map<Seq<char>, Vec<i64>>) -> Set<(Seq<char>, i64)> {
    Set::new(|k: (Seq<char>, i64)| m.contains_key(k.0) && m[k.0]@.contains(k.1))
}

fn copy_texts(v: &Vec<String>) -> (r: Vec<String>)
    ensures
        texts(r@) == texts(v@),
{
    let mut out: Vec<String> = Vec::new();
    let mut i: usize = 0;
    while i < v.len()
        invariant
            i <= v@.len(),
            texts(out@) == texts(v@).take(i as int),
        decreases v.len() - i,
    {
        let ghost before = out@;
        let c = v[i].clone();
        assert(c@ == v@[i as int]@);
        out.push(c);
        assert(out@ == before.push(c));
        assert(texts(out@) =~= texts(before).push(c@));
        assert(texts(v@).take(i + 1) =~= texts(v@).take(i as int).push(v@[i as int]@));
        i = i + 1;
    }
    assert(texts(v@).take(i as int) =~= texts(v@));
    out
}

fn copy_ints(v: &Vec<i64>) -> (r: Vec<i64>)
    ensures
        r@ == v@,
{
    let mut out: Vec<i64> = Vec::new();
    let mut i: usize = 0;
    while i < v.len()
        invariant
            i <= v@.len(),
            out@ == v@.take(i as int),
        decreases v.len() - i,
    {
        out.push(v[i]);
        assert(out@ =~= v@.take(i + 1));
        i = i + 1;
    }
    assert(v@.take(i as int) =~= v@);
    out
}

fn holds_text(v: &Vec<String>, s: &str) -> (r: bool)
    ensures
        r == texts(v@).contains(s@),
{
    let mut i: usize = 0;
    while i < v.len()
        invariant
            i <= v@.len(),
            forall|j: int| 0 <= j < i ==> v@[j]@ != s@,
        decreases v.len() - i,
    {
        if crate::text::str_eq(v[i].as_str(), s) {
            assert(texts(v@)[i as int] == s@);
            return true;
        }
        i = i + 1;
    }
    assert(!texts(v@).contains(s@)) by {
        if texts(v@).contains(s@) {
            let j = choose|j: int| 0 <= j < texts(v@).len() && texts(v@)[j] == s@;
            assert(v@[j]@ == s@);
        }
    }
    false
}

fn holds_int(v: &Vec<i64>, x: i64) -> (r: bool)
    ensures
        r == v@.contains(x),
{
    let mut i: usize = 0;
    while i < v.len()
        invariant
            i <= v@.len(),
            forall|j: int| 0 <= j < i ==> v@[j] != x,
        decreases v.len() - i,
    {
        if v[i] == x {
            return true;
        }
        i = i + 1;
    }
    false
}

impl CatalogBuilder {
    /// The packs, cards and versions held, with the (card, pack) pairs that
    /// have a version and the pack positions filled.
    pub closed spec fn build(&self) -> Build {
        (
            self.packs@.map_values(|p: Pack| pack_view(p)),
            self.cards@.map_values(|c: Card| card_view(c)),
            self.versions@.map_values(|v: CardVersion| version_view(v)),
            pair_set(self.version_keys@),
            position_set(self.positions@),
        )
    }

    /// The indexes agree with the lists.
    pub closed spec fn wf(&self) -> bool {
        &&& forall|pid: Seq<char>|
            #[trigger] self.pack_index@.contains_key(pid) <==> pack_pos(self.build().0, pid) is Some
        &&& forall|pid: Seq<char>|
            #[trigger] self.pack_index@.contains_key(pid) ==> pack_pos(self.build().0, pid) == Some(
                self.pack_index@[pid] as int,
            )
        &&& forall|id: Seq<char>| #[trigger] self.card_ids@.contains(id) <==> has_card(self.build().1, id)
    }

    /// Nothing yet.
    pub fn new() -> (r: Self)
        ensures
            r.wf(),
            r.build() == (Seq::<PackRow>::empty(), Seq::<CardRow>::empty(), Seq::<VersionRow>::empty(), Set::<(Seq<char>, Seq<char>)>::empty(), Set::<(Seq<char>, i64)>::empty()),
    {
        let r = CatalogBuilder {
            packs: Vec::new(),
            cards: Vec::new(),
            versions: Vec::new(),
            pack_index: StringHashMap::new(),
            card_ids: StringHashSet::new(),
            version_keys: StringHashMap::new(),
            positions: StringHashMap::new(),
        };
        assert(r.build().0 =~= Seq::<PackRow>::empty());
        assert(r.build().1 =~= Seq::<CardRow>::empty());
        assert(r.build().2 =~= Seq::<VersionRow>::empty());
        assert(r.build().3 =~= Set::<(Seq<char>, Seq<char>)>::empty());
        assert(r.build().4 =~= Set::<(Seq<char>, i64)>::empty());
        r
    }

    /// Where the pack `pid` is listed.
    fn pack_position(&self, pid: &str) -> (r: Option<usize>)
        requires
            self.wf(),
        ensures
            match r {
                Some(i) => pack_pos(self.build().0, pid@) == Some(i as int) && i < self.packs@.len(),
                None => pack_pos(self.build().0, pid@) is None,
            },
    {
        match self.pack_index.get(pid) {
            Some(i) => {
                proof {
                    lemma_pack_pos_bounded(self.build().0, pid@);
                }
                Some(*i)
            },
            None => None,
        }
    }

    /// Adds the pack `pid` named `name` with its release date, unless a pack
    /// `pid` is listed.
    fn add_pack(&mut self, pid: String, name: String, dates: &StrMap<String>)
        requires
            old(self).wf(),
            dates.wf(),
        ensures
            final(self).wf(),
            final(self).build() == add_pack(old(self).build(), pid@, name@, str_values(dates@)),
    {
        if self.pack_index.contains_key(pid.as_str()) {
            return;
        }
        let date = match dates.get(pid.as_str()) {
            Some(d) => Some(d.clone()),
            None => None,
        };
        let ghost before = self.build();
        let n = self.packs.len();
        self.pack_index.insert(pid.clone(), n);
        self.packs.push(Pack { id: pid, name, date_release: date });
        proof {
            let rows = self.build().0;
            assert(rows =~= before.0.push(pack_view(self.packs@[n as int])));
            assert(rows.drop_last() =~= before.0);
            assert(opt_view(self.packs@[n as int].date_release) == date_of(str_values(dates@), pid@));
            assert forall|q: Seq<char>| #[trigger] self.pack_index@.contains_key(q) <==> pack_pos(rows, q) is Some by {}
            assert forall|q: Seq<char>| #[trigger] self.pack_index@.contains_key(q) implies pack_pos(rows, q) == Some(
                self.pack_index@[q] as int,
            ) by {}
            assert(self.build() == add_pack(before, pid@, name@, str_values(dates@)));
        }
    }

    /// Renames the pack at `i` and sets its release date.
    fn set_pack(&mut self, i: usize, name: String, date: Option<String>)
        requires
            old(self).wf(),
            i < old(self).packs@.len(),
        ensures
            final(self).wf(),
            final(self).build() == (
                old(self).build().0.update(i as int, (old(self).build().0[i as int].0, name@, opt_view(date))),
                old(self).build().1,
                old(self).build().2,
                old(self).build().3,
                old(self).build().4,
            ),
    {
        let ghost before = self.build();
        let id = self.packs[i].id.clone();
        self.packs.set(i, Pack { id, name, date_release: date });
        proof {
            let rows = self.build().0;
            assert(rows =~= before.0.update(i as int, (before.0[i as int].0, name@, opt_view(date))));
            assert forall|q: Seq<char>| pack_pos(rows, q) == pack_pos(before.0, q) by {
                lemma_pack_pos_same_ids(before.0, rows, q);
            }
        }
    }

    /// Adds the card `id`, unless it is listed.
    fn add_card(&mut self, id: String, title: String, back: &str)
        requires
            old(self).wf(),
        ensures
            final(self).wf(),
            final(self).build() == add_card(old(self).build(), id@, title@, back@),
    {
        if self.card_ids.contains(id.as_str()) {
            return;
        }
        let ghost before = self.build();
        self.card_ids.insert(id.clone());
        let card = card_with(id, title, None, Some(owned(back)), None);
        self.cards.push(card);
        proof {
            let rows = self.build().1;
            assert(rows =~= before.1.push(card_view(card)));
            assert forall|q: Seq<char>| #[trigger] self.card_ids@.contains(q) <==> has_card(rows, q) by {
                if has_card(before.1, q) {
                    let j = choose|j: int| 0 <= j < before.1.len() && #[trigger] before.1[j].0 == q;
                    assert(rows[j].0 == q);
                }
                if has_card(rows, q) && q != id@ {
                    let j = choose|j: int| 0 <= j < rows.len() && #[trigger] rows[j].0 == q;
                    assert(before.1[j].0 == q);
                }
                if q == id@ {
                    assert(rows[before.1.len() as int].0 == q);
                }
            }
            assert(self.build() =~= add_card(before, id@, title@, back@));
        }
    }

    /// Adds the version `v` under `(k0, k1)`, unless a version is listed
    /// under it; one added fills the pack position `pos`, if given.
    fn add_version(&mut self, k0: String, k1: String, pos: Option<(String, i64)>, v: CardVersion)
        requires
            old(self).wf(),
        ensures
            final(self).wf(),
            final(self).build() == add_version(old(self).build(), (k0@, k1@), match pos {
                Some(e) => Some((e.0@, e.1)),
                None => None,
            }, version_view(v)),
    {
        let ghost before = self.build();
        let mut list = match self.version_keys.get(k0.as_str()) {
            Some(l) => {
                if holds_text(l, k1.as_str()) {
                    assert(before.3.contains((k0@, k1@)));
                    return;
                }
                copy_texts(l)
            },
            None => Vec::new(),
        };
        assert(!before.3.contains((k0@, k1@)));
        let ghost old_list = texts(list@);
        list.push(k1);
        self.version_keys.insert(k0, list);
        self.versions.push(v);
        proof {
            assert(texts(list@) =~= old_list.push(k1@));
            assert(pair_set(self.version_keys@) =~= before.3.insert((k0@, k1@))) by {
                assert forall|k: (Seq<char>, Seq<char>)| pair_set(self.version_keys@).contains(k) <==> before.3.insert((k0@, k1@)).contains(k) by {
                    if k.0 == k0@ {
                        if texts(list@).contains(k.1) && k.1 != k1@ {
                            let j = choose|j: int| 0 <= j < texts(list@).len() && texts(list@)[j] == k.1;
                            assert(old_list[j] == k.1);
                        }
                        if before.3.contains(k) {
                            let j = choose|j: int| 0 <= j < old_list.len() && old_list[j] == k.1;
                            assert(texts(list@)[j] == k.1);
                        }
                        if k.1 == k1@ {
                            assert(texts(list@)[old_list.len() as int] == k1@);
                        }
                    }
                }
            }
        }
        let ghost mid = self.build();
        match pos {
            Some((pack, p)) => {
                let mut plist = match self.positions.get(pack.as_str()) {
                    Some(l) => copy_ints(l),
                    None => Vec::new(),
                };
                let ghost old_p = plist@;
                plist.push(p);
                self.positions.insert(pack, plist);
                proof {
                    assert(position_set(self.positions@) =~= before.4.insert((pack@, p))) by {
                        assert forall|k: (Seq<char>, i64)| position_set(self.positions@).contains(k) <==> before.4.insert((pack@, p)).contains(k) by {
                            if k.0 == pack@ {
                                if plist@.contains(k.1) && k.1 != p {
                                    let j = choose|j: int| 0 <= j < plist@.len() && plist@[j] == k.1;
                                    assert(old_p[j] == k.1);
                                }
                                if before.4.contains(k) {
                                    let j = choose|j: int| 0 <= j < old_p.len() && old_p[j] == k.1;
                                    assert(plist@[j] == k.1);
                                }
                                if k.1 == p {
                                    assert(plist@[old_p.len() as int] == p);
                                }
                            }
                        }
                    }
                }
            },
            None => {},
        }
        proof {
            assert(self.build().2 =~= before.2.push(version_view(v)));
        }
    }

    /// Whether a version already fills position `pos` of pack `pack`.
    fn position_taken(&self, pack: &str, pos: i64) -> (r: bool)
        ensures
            r == self.build().4.contains((pack@, pos)),
    {
        match self.positions.get(pack) {
            Some(l) => holds_int(l, pos),
            None => false,
        }
    }
}

proof fn lemma_pack_pos_bounded(packs: Seq<PackRow>, pid: Seq<char>)
    ensures
        pack_pos(packs, pid) matches Some(i) ==> 0 <= i < packs.len() && packs[i].0 == pid,
    decreases packs.len(),
{
    if packs.len() > 0 {
        lemma_pack_pos_bounded(packs.drop_last(), pid);
    }
}

proof fn lemma_pack_pos_same_ids(a: Seq<PackRow>, b: Seq<PackRow>, pid: Seq<char>)
    requires
        a.len() == b.len(),
        forall|i: int| 0 <= i < a.len() ==> #[trigger] a[i].0 == b[i].0,
    ensures
        pack_pos(a, pid) == pack_pos(b, pid),
    decreases a.len(),
{
    if a.len() > 0 {
        lemma_pack_pos_same_ids(a.drop_last(), b.drop_last(), pid);
        assert(a.last().0 == b.last().0);
    }
}

impl CatalogBuilder {
    fn add_hob_pack(&mut self, c: &HobCard, dates: &StrMap<String>)
        requires
            old(self).wf(),
            dates.wf(),
        ensures
            final(self).wf(),
            final(self).build() == hob_pack_step(old(self).build(), *c, str_values(dates@)),
    {
        let pid = normalize_title(c.card_set.as_str());
        self.add_pack(pid, c.card_set.clone(), dates);
    }

    fn add_hob_card(&mut self, c: &HobCard, ids: &StrMap<String>, titles: &StrMap<String>)
        requires
            old(self).wf(),
            ids.wf(),
            titles.wf(),
        ensures
            final(self).wf(),
            final(self).build() == hob_card_step(old(self).build(), *c, str_values(ids@), str_values(titles@)),
    {
        let pid = normalize_title(c.card_set.as_str());
        let slug = normalize_title(c.slug.as_str());
        let id = match ids.get(slug.as_str()) {
            Some(d) => d.clone(),
            None => slug.clone(),
        };
        let title = match titles.get(id.as_str()) {
            Some(t) => t.clone(),
            None => c.title.clone(),
        };
        let back = hob_back(c.card_type.as_str());
        self.add_card(id.clone(), title, back);
        let v = CardVersion {
            card_id: id,
            pack_id: pid.clone(),
            quantity: match c.quantity {
                Some(q) => q,
                None => 3,
            },
            position: Some(c.number),
            api_id: Some(slug.clone()),
        };
        self.add_version(slug, pid.clone(), Some((pid, c.number)), v);
    }

    fn add_ringsdb_card_version(&mut self, rc: &RingsdbCard, pid: &String)
        requires
            old(self).wf(),
        ensures
            final(self).wf(),
            final(self).build() == ringsdb_card_and_version(old(self).build(), *rc, pid@),
    {
        let mut key = rc.name.clone();
        push_str(&mut key, "-");
        push_str(&mut key, pid.as_str());
        let id = normalize_title(key.as_str());
        let type_code: Option<&str> = match &rc.type_code {
            Some(t) => Some(t.as_str()),
            None => None,
        };
        let back = back_group_from_type_code(type_code);
        assert(opt_view(rc.type_code) == match type_code {
            Some(t) => Some(t@),
            None => None::<Seq<char>>,
        });
        self.add_card(id.clone(), rc.name.clone(), back);
        let pos = match rc.position {
            Some(p) => Some((pid.clone(), p as i64)),
            None => None,
        };
        let v = CardVersion {
            card_id: id.clone(),
            pack_id: pid.clone(),
            quantity: match rc.quantity {
                Some(q) => q as i64,
                None => 3,
            },
            position: match rc.position {
                Some(p) => Some(p as i64),
                None => None,
            },
            api_id: None,
        };
        self.add_version(id, pid.clone(), pos, v);
    }

    fn add_alep_card(&mut self, rc: &RingsdbCard, dates: &StrMap<String>)
        requires
            old(self).wf(),
            dates.wf(),
        ensures
            final(self).wf(),
            final(self).build() == alep_step(old(self).build(), *rc, str_values(dates@)),
    {
        let official = match rc.is_official {
            Some(o) => o,
            None => true,
        };
        if official {
            return;
        }
        let clean = canonical_pack_name(rc.pack_name.as_str());
        let mut display = owned("ALeP - ");
        push_str(&mut display, clean.as_str());
        proof {
            reveal_strlit("ALeP - ");
        }
        let pid = normalize_title(clean.as_str());
        match self.pack_position(pid.as_str()) {
            None => self.add_pack(pid.clone(), display, dates),
            Some(i) => {
                let name_chars = chars_of(self.packs[i].name.as_str());
                let prefix = chars_of("ALeP - ");
                if !starts_with(&name_chars, &prefix) {
                    let date = self.packs[i].date_release.clone();
                    self.set_pack(i, display, date);
                }
            },
        }
        self.add_ringsdb_card_version(rc, &pid);
    }

    fn add_ringsdb_card(&mut self, rc: &RingsdbCard, dates: &StrMap<String>)
        requires
            old(self).wf(),
            dates.wf(),
        ensures
            final(self).wf(),
            final(self).build() == ringsdb_step(old(self).build(), *rc, str_values(dates@)),
    {
        proof {
            reveal_strlit("ALeP - ");
            reveal_strlit(".English");
            reveal_strlit("");
            assert(""@ =~= Seq::<char>::empty());
        }
        let stripped = replace_str(rc.pack_name.as_str(), ".English", "");
        let prefix = chars_of("ALeP - ");
        let is_alep = starts_with(&chars_of(stripped.as_str()), &prefix);
        let clean = canonical_pack_name(rc.pack_name.as_str());
        let display = if is_alep {
            let mut d = owned("ALeP - ");
            push_str(&mut d, clean.as_str());
            d
        } else {
            clean.clone()
        };
        let pid = normalize_title(clean.as_str());
        match self.pack_position(pid.as_str()) {
            None => self.add_pack(pid.clone(), display, dates),
            Some(i) => {
                let name = if is_alep && !starts_with(&chars_of(self.packs[i].name.as_str()), &prefix) {
                    display
                } else {
                    self.packs[i].name.clone()
                };
                let date = match &self.packs[i].date_release {
                    None => match dates.get(pid.as_str()) {
                        Some(d) => Some(d.clone()),
                        None => None,
                    },
                    Some(d) => Some(d.clone()),
                };
                self.set_pack(i, name, date);
            },
        }
        let taken = match rc.position {
            Some(p) => self.position_taken(pid.as_str(), p as i64),
            None => false,
        };
        if taken {
            return;
        }
        self.add_ringsdb_card_version(rc, &pid);
    }
}

/// Each card id's title, as `card_titles` spells it.
pub open spec fn titles_map(cards: Seq<HobCard>, ids: Map<Seq<char>, Seq<char>>) -> Map<Seq<char>, Seq<char>> {
    Map::new(|d: Seq<char>| titled_ids(cards, ids).contains(d), |d: Seq<char>| card_title_spec(cards, ids, d))
}

/// The catalog the sources make, before it is handed out.
pub open spec fn lotr_build_spec(
    hob: Seq<HobCard>,
    ringsdb_packs: Seq<RingsdbPack>,
    ffg_dates: Seq<(String, String)>,
    alep: Seq<RingsdbCard>,
    ringsdb: Seq<RingsdbCard>,
) -> Build {
    let dates = release_dates_spec(ringsdb_packs, ffg_dates);
    let ids = id_map(hob, dates, hob.len() as int);
    let titles = titles_map(hob, ids);
    let empty: Build = (Seq::empty(), Seq::empty(), Seq::empty(), Set::empty(), Set::empty());
    let b1 = hob_packs(empty, hob, dates, hob.len() as int);
    let b2 = hob_cards(b1, hob, ids, titles, hob.len() as int);
    let b3 = alep_cards(b2, alep, dates, alep.len() as int);
    ringsdb_cards(b3, ringsdb, dates, ringsdb.len() as int)
}

/// The Lord of the Rings LCG catalog from its sources: Hall of Beorn's
/// printings, RingsDB's packs, the publisher's release dates (set name and
/// date), the ALeP cards and RingsDB's cards. Hall of Beorn's printings of
/// one card are one card, titled as `card_titles` spells it; each pack is
/// dated by the publisher where it lists the pack, else by RingsDB.
pub fn build_catalog(
    hob: &[HobCard],
    ringsdb_packs: &[RingsdbPack],
    ffg_dates: &[(String, String)],
    alep: &[RingsdbCard],
    ringsdb: &[RingsdbCard],
) -> (r: Catalog)
    ensures
        r.game_id@ == "lotrlcg"@,
        r.display_name@ == "Lord of the Rings LCG"@,
        r.packs@.map_values(|p: Pack| pack_view(p)) == lotr_build_spec(hob@, ringsdb_packs@, ffg_dates@, alep@, ringsdb@).0,
        r.cards@.map_values(|c: Card| card_view(c)) == lotr_build_spec(hob@, ringsdb_packs@, ffg_dates@, alep@, ringsdb@).1,
        r.card_versions@.map_values(|v: CardVersion| version_view(v)) == lotr_build_spec(hob@, ringsdb_packs@, ffg_dates@, alep@, ringsdb@).2,
{
    let dates = pack_release_dates(ringsdb_packs, ffg_dates);
    let ghost ds = str_values(dates@);
    let ids = printing_card_ids(hob, &dates);
    let titles = card_titles(hob, &ids);
    let ghost is = str_values(ids@);
    proof {
        assert(str_values(titles@) =~= titles_map(hob@, is));
    }
    let mut b = CatalogBuilder::new();
    let ghost empty: Build = (Seq::empty(), Seq::empty(), Seq::empty(), Set::empty(), Set::empty());
    let mut i: usize = 0;
    while i < hob.len()
        invariant
            dates.wf(),
            ds == str_values(dates@),
            i <= hob@.len(),
            b.wf(),
            b.build() == hob_packs(empty, hob@, ds, i as int),
        decreases hob.len() - i,
    {
        b.add_hob_pack(&hob[i], &dates);
        i = i + 1;
    }
    let ghost b1 = b.build();
    let mut i: usize = 0;
    while i < hob.len()
        invariant
            ids.wf(),
            titles.wf(),
            is == str_values(ids@),
            str_values(titles@) == titles_map(hob@, is),
            i <= hob@.len(),
            b.wf(),
            b.build() == hob_cards(b1, hob@, is, titles_map(hob@, is), i as int),
        decreases hob.len() - i,
    {
        b.add_hob_card(&hob[i], &ids, &titles);
        i = i + 1;
    }
    let ghost b2 = b.build();
    let mut i: usize = 0;
    while i < alep.len()
        invariant
            dates.wf(),
            ds == str_values(dates@),
            i <= alep@.len(),
            b.wf(),
            b.build() == alep_cards(b2, alep@, ds, i as int),
        decreases alep.len() - i,
    {
        b.add_alep_card(&alep[i], &dates);
        i = i + 1;
    }
    let ghost b3 = b.build();
    let mut i: usize = 0;
    while i < ringsdb.len()
        invariant
            dates.wf(),
            ds == str_values(dates@),
            i <= ringsdb@.len(),
            b.wf(),
            b.build() == ringsdb_cards(b3, ringsdb@, ds, i as int),
        decreases ringsdb.len() - i,
    {
        b.add_ringsdb_card(&ringsdb[i], &dates);
        i = i + 1;
    }
    b.into_catalog()
}

impl CatalogBuilder {
    /// The catalog held.
    fn into_catalog(self) -> (r: Catalog)
        ensures
            r.game_id@ == "lotrlcg"@,
            r.display_name@ == "Lord of the Rings LCG"@,
            r.packs@.map_values(|p: Pack| pack_view(p)) == self.build().0,
            r.cards@.map_values(|c: Card| card_view(c)) == self.build().1,
            r.card_versions@.map_values(|v: CardVersion| version_view(v)) == self.build().2,
    {
        Catalog {
            game_id: owned("lotrlcg"),
            display_name: owned("Lord of the Rings LCG"),
            packs: self.packs,
            cards: self.cards,
            card_versions: self.versions,
        }
    }
}

/// No two packs share an id, and no two cards.
pub open spec fn ids_distinct(b: Build) -> bool {
    &&& forall|i: int, j: int| 0 <= i < j < b.0.len() ==> (#[trigger] b.0[i]).0 != (#[trigger] b.0[j]).0
    &&& forall|i: int, j: int| 0 <= i < j < b.1.len() ==> (#[trigger] b.1[i]).0 != (#[trigger] b.1[j]).0
}

proof fn lemma_pack_pos_none(packs: Seq<PackRow>, pid: Seq<char>)
    requires
        pack_pos(packs, pid) is None,
    ensures
        forall|i: int| 0 <= i < packs.len() ==> (#[trigger] packs[i]).0 != pid,
    decreases packs.len(),
{
    if packs.len() > 0 {
        lemma_pack_pos_none(packs.drop_last(), pid);
        assert forall|i: int| 0 <= i < packs.len() implies (#[trigger] packs[i]).0 != pid by {
            if i < packs.len() - 1 {
                assert(packs.drop_last()[i] == packs[i]);
            }
        }
    }
}

proof fn lemma_add_pack_keeps(b: Build, pid: Seq<char>, name: Seq<char>, dates: Map<Seq<char>, Seq<char>>)
    requires
        ids_distinct(b),
    ensures
        ids_distinct(add_pack(b, pid, name, dates)),
{
    if pack_pos(b.0, pid) is None {
        lemma_pack_pos_none(b.0, pid);
        let n = add_pack(b, pid, name, dates);
        assert forall|i: int, j: int| 0 <= i < j < n.0.len() implies (#[trigger] n.0[i]).0 != (#[trigger] n.0[j]).0 by {
            if j == n.0.len() - 1 {
                assert(n.0[i] == b.0[i]);
            } else {
                assert(n.0[i] == b.0[i] && n.0[j] == b.0[j]);
            }
        }
    }
}

proof fn lemma_rename_pack_keeps(b: Build, i: int, row: PackRow)
    requires
        ids_distinct(b),
        0 <= i < b.0.len(),
        row.0 == b.0[i].0,
    ensures
        ids_distinct((b.0.update(i, row), b.1, b.2, b.3, b.4)),
{
    let u = b.0.update(i, row);
    assert forall|x: int, y: int| 0 <= x < y < u.len() implies (#[trigger] u[x]).0 != (#[trigger] u[y]).0 by {
        assert(u[x].0 == b.0[x].0 && u[y].0 == b.0[y].0);
    }
}

proof fn lemma_add_card_keeps(b: Build, id: Seq<char>, title: Seq<char>, back: Seq<char>)
    requires
        ids_distinct(b),
    ensures
        ids_distinct(add_card(b, id, title, back)),
{
    if !has_card(b.1, id) {
        let n = add_card(b, id, title, back);
        assert forall|i: int, j: int| 0 <= i < j < n.1.len() implies (#[trigger] n.1[i]).0 != (#[trigger] n.1[j]).0 by {
            if j == n.1.len() - 1 {
                assert(n.1[i] == b.1[i]);
                if b.1[i].0 == id {
                    assert(has_card(b.1, id));
                }
            } else {
                assert(n.1[i] == b.1[i] && n.1[j] == b.1[j]);
            }
        }
    }
}

proof fn lemma_ringsdb_card_keeps(b: Build, rc: RingsdbCard, pid: Seq<char>)
    requires
        ids_distinct(b),
    ensures
        ids_distinct(ringsdb_card_and_version(b, rc, pid)),
{
    let id = ringsdb_id(rc.name@, pid);
    lemma_add_card_keeps(b, id, rc.name@, back_group_spec(opt_view(rc.type_code)));
}

proof fn lemma_steps_keep(
    b: Build,
    c: HobCard,
    rc: RingsdbCard,
    dates: Map<Seq<char>, Seq<char>>,
    ids: Map<Seq<char>, Seq<char>>,
    titles: Map<Seq<char>, Seq<char>>,
)
    requires
        ids_distinct(b),
    ensures
        ids_distinct(hob_pack_step(b, c, dates)),
        ids_distinct(hob_card_step(b, c, ids, titles)),
        ids_distinct(alep_step(b, rc, dates)),
        ids_distinct(ringsdb_step(b, rc, dates)),
{
    lemma_add_pack_keeps(b, normalize_spec(c.card_set@), c.card_set@, dates);
    let slug = normalize_spec(c.slug@);
    let id = if ids.contains_key(slug) {
        ids[slug]
    } else {
        slug
    };
    let title = if titles.contains_key(id) {
        titles[id]
    } else {
        c.title@
    };
    lemma_add_card_keeps(b, id, title, hob_back_spec(c.card_type@));
    let clean = canonical_pack_spec(rc.pack_name@);
    let pid = normalize_spec(clean);
    let is_alep = has_prefix(replace_all(rc.pack_name@, ".English"@, Seq::empty()), alep_prefix());
    lemma_add_pack_keeps(b, pid, alep_prefix() + clean, dates);
    lemma_add_pack_keeps(b, pid, if is_alep { alep_prefix() + clean } else { clean }, dates);
    match pack_pos(b.0, pid) {
        Some(i) => {
            lemma_pack_pos_bounded(b.0, pid);
            let p = b.0[i];
            lemma_rename_pack_keeps(b, i, (p.0, alep_prefix() + clean, p.2));
            let name = if is_alep && !has_prefix(p.1, alep_prefix()) {
                alep_prefix() + clean
            } else {
                p.1
            };
            let date = if p.2 is None {
                date_of(dates, pid)
            } else {
                p.2
            };
            lemma_rename_pack_keeps(b, i, (p.0, name, date));
            let b2 = (b.0.update(i, (p.0, alep_prefix() + clean, p.2)), b.1, b.2, b.3, b.4);
            lemma_ringsdb_card_keeps(b2, rc, pid);
            let b3 = (b.0.update(i, (p.0, name, date)), b.1, b.2, b.3, b.4);
            lemma_ringsdb_card_keeps(b3, rc, pid);
        },
        None => {
            let b2 = (b.0.push((pid, alep_prefix() + clean, date_of(dates, pid))), b.1, b.2, b.3, b.4);
            assert(b2 == add_pack(b, pid, alep_prefix() + clean, dates));
            lemma_ringsdb_card_keeps(b2, rc, pid);
            let d = if is_alep { alep_prefix() + clean } else { clean };
            let b3 = (b.0.push((pid, d, date_of(dates, pid))), b.1, b.2, b.3, b.4);
            assert(b3 == add_pack(b, pid, d, dates));
            lemma_ringsdb_card_keeps(b3, rc, pid);
        },
    }
    lemma_ringsdb_card_keeps(b, rc, pid);
}

proof fn lemma_folds_keep(
    b: Build,
    hob: Seq<HobCard>,
    rs: Seq<RingsdbCard>,
    dates: Map<Seq<char>, Seq<char>>,
    ids: Map<Seq<char>, Seq<char>>,
    titles: Map<Seq<char>, Seq<char>>,
    n: int,
)
    requires
        ids_distinct(b),
    ensures
        ids_distinct(hob_packs(b, hob, dates, n)),
        ids_distinct(hob_cards(b, hob, ids, titles, n)),
        ids_distinct(alep_cards(b, rs, dates, n)),
        ids_distinct(ringsdb_cards(b, rs, dates, n)),
    decreases n,
{
    if n > 0 {
        lemma_folds_keep(b, hob, rs, dates, ids, titles, n - 1);
        lemma_steps_keep(hob_packs(b, hob, dates, n - 1), hob[n - 1], rs[n - 1], dates, ids, titles);
        lemma_steps_keep(hob_cards(b, hob, ids, titles, n - 1), hob[n - 1], rs[n - 1], dates, ids, titles);
        lemma_steps_keep(alep_cards(b, rs, dates, n - 1), hob[n - 1], rs[n - 1], dates, ids, titles);
        lemma_steps_keep(ringsdb_cards(b, rs, dates, n - 1), hob[n - 1], rs[n - 1], dates, ids, titles);
    }
}

/// The catalog lists each pack once and each card once, however often the
/// sources repeat them.
pub proof fn lemma_catalog_lists_each_pack_and_card_once(
    hob: Seq<HobCard>,
    ringsdb_packs: Seq<RingsdbPack>,
    ffg_dates: Seq<(String, String)>,
    alep: Seq<RingsdbCard>,
    ringsdb: Seq<RingsdbCard>,
)
    ensures
        ids_distinct(lotr_build_spec(hob, ringsdb_packs, ffg_dates, alep, ringsdb)),
{
    let dates = release_dates_spec(ringsdb_packs, ffg_dates);
    let ids = id_map(hob, dates, hob.len() as int);
    let titles = titles_map(hob, ids);
    let empty: Build = (Seq::empty(), Seq::empty(), Seq::empty(), Set::empty(), Set::empty());
    let b1 = hob_packs(empty, hob, dates, hob.len() as int);
    let b2 = hob_cards(b1, hob, ids, titles, hob.len() as int);
    let b3 = alep_cards(b2, alep, dates, alep.len() as int);
    lemma_folds_keep(empty, hob, alep, dates, ids, titles, hob.len() as int);
    lemma_folds_keep(b1, hob, alep, dates, ids, titles, hob.len() as int);
    lemma_folds_keep(b2, hob, alep, dates, ids, titles, alep.len() as int);
    lemma_folds_keep(b3, hob, ringsdb, dates, ids, titles, ringsdb.len() as int);
}

/// The publisher's release date of a pack wins over RingsDB's: a pack the
/// publisher's list names is dated as its last entry for that pack says,
/// whatever RingsDB says.
pub proof fn lemma_publisher_dates_win(packs: Seq<RingsdbPack>, ffg: Seq<(String, String)>, k: int)
    requires
        0 <= k < ffg.len(),
        forall|j: int| k < j < ffg.len() ==> normalize_spec((#[trigger] ffg[j]).0@) != normalize_spec(ffg[k].0@),
    ensures
        release_dates_spec(packs, ffg).contains_key(normalize_spec(ffg[k].0@)),
        release_dates_spec(packs, ffg)[normalize_spec(ffg[k].0@)] == ffg[k].1@,
    decreases ffg.len(),
{
    if k < ffg.len() - 1 {
        let t = ffg.drop_last();
        assert forall|j: int| k < j < t.len() implies normalize_spec((#[trigger] t[j]).0@) != normalize_spec(t[k].0@) by {
            assert(t[j] == ffg[j]);
        }
        lemma_publisher_dates_win(packs, t, k);
        assert(t[k] == ffg[k]);
        assert(normalize_spec(ffg.last().0@) != normalize_spec(ffg[k].0@));
    }
}

} // verus!
