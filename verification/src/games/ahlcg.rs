//! Arkham Horror (Chapter 1).
use vstd::prelude::*;
use crate::card_source::BoosterSpec;
use crate::games::GameAdapterInfo;
use crate::card_source::DecklistProvider;
use crate::error::ProxyNexusError;
use crate::games::urls::{view_id, view_id_spec};
use crate::text::{i64_to_string, owned, push_str, signed_decimal, str_eq};
use crate::card_store::{normalize_spec, normalize_title};
use crate::catalog::{card_view, card_with, version_view, Card, CardVersion};
use crate::games::reprints::{codes, group_label, group_of, links_view};
use crate::order::{seq_lt, str_lt};

verus! {

/// The Arkham Horror (Chapter 1) adapter.
pub struct AhlcgAdapter {}

impl AhlcgAdapter {
    /// The adapter.
    pub fn new() -> (r: Self) {
        AhlcgAdapter {}
    }
}

impl Default for AhlcgAdapter {
    fn default() -> (r: Self) {
        Self::new()
    }
}

impl GameAdapterInfo for AhlcgAdapter {
    fn game_id(&self) -> (r: &'static str)
        ensures
            r@ == "ahlcg"@,
    {
        "ahlcg"
    }

    fn game_name(&self) -> (r: &'static str)
        ensures
            r@ == "Arkham Horror (Chapter 1)"@,
    {
        "Arkham Horror (Chapter 1)"
    }

    fn subdomains(&self) -> (r: Vec<&'static str>)
        ensures
            r@.map_values(|s: &str| s@) == seq!["ahlcg"@],
    {
        let mut v: Vec<&'static str> = Vec::new();
        v.push("ahlcg");
        proof {
            assert(v@.map_values(|s: &str| s@) =~= seq!["ahlcg"@]);
        }
        v
    }

    fn booster_spec(&self) -> (r: Option<BoosterSpec>)
        ensures
            r is None,
    {
        None
    }
}

/// A pack as ArkhamDB lists it.
#[derive(Debug, Clone)]
pub struct AhdbPack {
    pub code: String,
    pub name: String,
    pub position: i64,
    /// ArkhamDB's release date.
    pub available: Option<String>,
}

/// A card as ArkhamDB lists it: investigator, player and encounter cards.
#[derive(Debug, Clone)]
pub struct AhdbCard {
    pub code: String,
    pub name: String,
    pub pack_code: String,
    pub position: i64,
    pub type_code: String,
    pub faction_code: String,
    pub quantity: Option<i64>,
    pub subtype_code: Option<String>,
    /// The face of a two-card printing that ArkhamDB does not index the card
    /// under.
    pub hidden: bool,
    pub xp: Option<i64>,
    pub subname: Option<String>,
    /// The codes of the reprints of this card.
    pub duplicated_by: Vec<String>,
}

/// An ArkhamDB decklist: each card code with its quantity.
#[derive(Debug, Clone)]
pub struct AhdbDecklist {
    pub slots: Vec<(String, i64)>,
}

/// The cards whose faces are cards in their own right, less the hidden
/// half: that half is a face rather than a card.
pub fn visible_cards(cards: Vec<AhdbCard>) -> (r: Vec<AhdbCard>)
    ensures
        r@ == cards@.filter(|c: AhdbCard| !c.hidden),
{
    let ghost orig = cards@;
    let mut out: Vec<AhdbCard> = Vec::new();
    let mut rest = cards;
    let mut k: usize = 0;
    let n = rest.len();
    proof {
        reveal(Seq::filter);
        assert(orig.take(0).filter(|c: AhdbCard| !c.hidden) =~= Seq::<AhdbCard>::empty());
    }
    while k < n
        invariant
            n == orig.len(),
            k <= n,
            rest@ == orig.skip(k as int),
            out@ == orig.take(k as int).filter(|c: AhdbCard| !c.hidden),
        decreases n - k,
    {
        let c = rest.remove(0);
        assert(c == orig[k as int]);
        assert(rest@ =~= orig.skip(k + 1));
        assert(orig.take(k + 1).drop_last() =~= orig.take(k as int));
        proof {
            reveal(Seq::filter);
        }
        if !c.hidden {
            out.push(c);
        }
        k = k + 1;
    }
    assert(orig.take(k as int) =~= orig);
    out
}

/// The player card types.
pub open spec fn player_types() -> Seq<Seq<char>> {
    seq!["investigator"@, "asset"@, "event"@, "skill"@]
}

/// The encounter card types.
pub open spec fn encounter_types() -> Seq<Seq<char>> {
    seq!["enemy"@, "enemy_location"@, "treachery"@, "agenda"@, "act"@, "location"@, "scenario"@, "story"@, "key"@]
}

/// The generic back a card needs, by type: a weakness lives in an
/// investigator's deck and takes the player back whatever its type.
pub open spec fn back_group_spec(type_code: Seq<char>, subtype_code: Option<Seq<char>>) -> Option<Seq<char>> {
    if subtype_code == Some("weakness"@) || subtype_code == Some("basicweakness"@) {
        Some("player"@)
    } else if player_types().contains(type_code) {
        Some("player"@)
    } else if encounter_types().contains(type_code) {
        Some("encounter"@)
    } else {
        None
    }
}

fn listed(list: &Vec<&str>, s: &str) -> (r: bool)
    ensures
        r == list@.map_values(|x: &str| x@).contains(s@),
{
    let mut i: usize = 0;
    while i < list.len()
        invariant
            i <= list@.len(),
            forall|k: int| 0 <= k < i ==> list@[k]@ != s@,
        decreases list.len() - i,
    {
        if str_eq(list[i], s) {
            assert(list@.map_values(|x: &str| x@)[i as int] == s@);
            return true;
        }
        i = i + 1;
    }
    assert(!list@.map_values(|x: &str| x@).contains(s@)) by {
        let m = list@.map_values(|x: &str| x@);
        if m.contains(s@) {
            let k = choose|k: int| 0 <= k < m.len() && #[trigger] m[k] == s@;
            assert(list@[k]@ == s@);
        }
    }
    false
}

/// The generic back a card needs.
pub fn back_group_for(type_code: &str, subtype_code: Option<&str>) -> (r: Option<String>)
    ensures
        crate::models::opt_view(r) == back_group_spec(type_code@, match subtype_code {
            Some(s) => Some(s@),
            None => None,
        }),
{
    if let Some(sub) = subtype_code {
        if str_eq(sub, "weakness") || str_eq(sub, "basicweakness") {
            return Some(owned("player"));
        }
    }
    let players = vec!["investigator", "asset", "event", "skill"];
    let encounters = vec!["enemy", "enemy_location", "treachery", "agenda", "act", "location", "scenario", "story", "key"];
    assert(players@.map_values(|x: &str| x@) =~= player_types());
    assert(encounters@.map_values(|x: &str| x@) =~= encounter_types());
    if listed(&players, type_code) {
        Some(owned("player"))
    } else if listed(&encounters, type_code) {
        Some(owned("encounter"))
    } else {
        None
    }
}

/// The name ArkhamDB prints on a card: the base name, with the level of an
/// upgrade spelled out.
pub open spec fn display_title_spec(name: Seq<char>, xp: Option<i64>) -> Seq<char> {
    match xp {
        Some(x) => if x > 0 {
            name + " ("@ + signed_decimal(x as int) + ")"@
        } else {
            name
        },
        None => name,
    }
}

/// The name ArkhamDB prints on a card. `name` alone is the base name, shared
/// by every level of an upgradeable card, so the level is spelled out for the
/// title to name one card.
pub fn display_title(name: &str, xp: Option<i64>) -> (r: String)
    ensures
        r@ == display_title_spec(name@, xp),
{
    let mut t = owned(name);
    if let Some(x) = xp {
        if x > 0 {
            push_str(&mut t, " (");
            let n = i64_to_string(x);
            push_str(&mut t, n.as_str());
            push_str(&mut t, ")");
        }
    }
    t
}

/// The decklist id an ArkhamDB URL holds.
pub fn parse_arkhamdb_decklist_url(url: &str) -> (r: Result<String, ProxyNexusError>)
    ensures
        match r {
            Ok(id) => view_id_spec(url@) == Some(id@),
            Err(e) => view_id_spec(url@) is None && (e matches ProxyNexusError::Internal(m)
                && m@ == "URL must be an ArkhamDB decklist URL"@),
        },
{
    match view_id(url) {
        Some(id) => Ok(id),
        None => Err(ProxyNexusError::Internal(owned("URL must be an ArkhamDB decklist URL"))),
    }
}

/// The links between a card and each of its reprints, card after card.
pub open spec fn reprint_links_spec(cards: Seq<AhdbCard>) -> Seq<(Seq<char>, Seq<char>)>
    decreases cards.len(),
{
    if cards.len() == 0 {
        Seq::empty()
    } else {
        reprint_links_spec(cards.drop_last()) + cards.last().duplicated_by@.map_values(
            |r: String| (cards.last().code@, r@),
        )
    }
}

/// The links between each card and its reprints.
pub fn reprint_links(cards: &[AhdbCard]) -> (r: Vec<(String, String)>)
    ensures
        links_view(r@) == reprint_links_spec(cards@),
{
    let mut out: Vec<(String, String)> = Vec::new();
    let mut i: usize = 0;
    while i < cards.len()
        invariant
            i <= cards@.len(),
            links_view(out@) == reprint_links_spec(cards@.take(i as int)),
        decreases cards.len() - i,
    {
        let ghost before = links_view(out@);
        let mut j: usize = 0;
        while j < cards[i].duplicated_by.len()
            invariant
                i < cards@.len(),
                j <= cards@[i as int].duplicated_by@.len(),
                links_view(out@) == before + cards@[i as int].duplicated_by@.take(j as int).map_values(
                    |r: String| (cards@[i as int].code@, r@),
                ),
            decreases cards@[i as int].duplicated_by@.len() - j,
        {
            let ghost prev = out@;
            out.push((cards[i].code.clone(), cards[i].duplicated_by[j].clone()));
            proof {
                let d = cards@[i as int].duplicated_by@;
                assert(d.take(j + 1) =~= d.take(j as int).push(d[j as int]));
                assert(links_view(out@) =~= links_view(prev).push((cards@[i as int].code@, d[j as int]@)));
                assert(d.take(j + 1).map_values(|r: String| (cards@[i as int].code@, r@)) =~= d.take(
                    j as int,
                ).map_values(|r: String| (cards@[i as int].code@, r@)).push((cards@[i as int].code@, d[j as int]@)));
            }
            j = j + 1;
        }
        proof {
            let d = cards@[i as int].duplicated_by@;
            assert(d.take(j as int) =~= d);
            let t = cards@.take(i + 1);
            assert(t.drop_last() =~= cards@.take(i as int));
            assert(t.last() == cards@[i as int]);
        }
        i = i + 1;
    }
    assert(cards@.take(i as int) =~= cards@);
    out
}

/// The title a card would have alone: its name, with its level spelled out.
pub open spec fn base_title(c: AhdbCard) -> Seq<char> {
    display_title_spec(c.name@, c.xp)
}

/// The form in which two cards' titles are compared.
pub open spec fn title_key(c: AhdbCard) -> Seq<char> {
    normalize_spec(base_title(c))
}

/// The name of the card each listed card is one of.
pub open spec fn labels_spec(cards: Seq<AhdbCard>) -> Seq<Seq<char>> {
    Seq::new(cards.len(), |j: int| group_label(reprint_links_spec(cards), cards[j].code@))
}

/// Whether card `j` answers to the title of card `i`.
pub open spec fn in_title(cards: Seq<AhdbCard>, i: int, j: int) -> bool {
    0 <= j < cards.len() && title_key(cards[j]) == title_key(cards[i])
}

/// Whether another card (not a reprint) answers to the title of card `i`.
pub open spec fn contested(cards: Seq<AhdbCard>, labs: Seq<Seq<char>>, i: int) -> bool {
    exists|j: int| #[trigger] in_title(cards, i, j) && labs[j] != labs[i]
}

/// Whether card `i` is the one, among those answering to its title, with the
/// least name.
pub open spec fn holds_plain(cards: Seq<AhdbCard>, labs: Seq<Seq<char>>, i: int) -> bool {
    forall|j: int| #[trigger] in_title(cards, i, j) ==> !seq_lt(labs[j], labs[i])
}

/// A card's subtitle, empty when it has none.
pub open spec fn sub_text(c: AhdbCard) -> Seq<char> {
    match c.subname {
        Some(s) => s@,
        None => Seq::empty(),
    }
}

/// The subtitle recorded for the card named `l` among the first `n` cards
/// answering to card `i`'s title: that of the last of them.
pub open spec fn recorded_subname(cards: Seq<AhdbCard>, labs: Seq<Seq<char>>, i: int, l: Seq<char>, n: int) -> Seq<
    char,
>
    decreases n,
{
    if n <= 0 {
        Seq::empty()
    } else if in_title(cards, i, n - 1) && labs[n - 1] == l {
        sub_text(cards[n - 1])
    } else {
        recorded_subname(cards, labs, i, l, n - 1)
    }
}

/// Whether the subtitles tell apart the cards answering to card `i`'s
/// title: each has one, and no two share one.
pub open spec fn by_subname(cards: Seq<AhdbCard>, labs: Seq<Seq<char>>, i: int) -> bool {
    &&& forall|j: int| #[trigger] in_title(cards, i, j) ==> recorded_subname(cards, labs, i, labs[j], cards.len() as int).len() > 0
    &&& forall|j: int, k: int|
        #[trigger] in_title(cards, i, j) && #[trigger] in_title(cards, i, k) && labs[j] != labs[k] ==> recorded_subname(
            cards,
            labs,
            i,
            labs[j],
            cards.len() as int,
        ) != recorded_subname(cards, labs, i, labs[k], cards.len() as int)
}

/// Whether another card answering to card `i`'s title sits at its pack and
/// position: two faces of one printing.
pub open spec fn shares_position(cards: Seq<AhdbCard>, labs: Seq<Seq<char>>, i: int) -> bool {
    exists|j: int|
        #[trigger] in_title(cards, i, j) && labs[j] != labs[i] && cards[j].pack_code@ == cards[i].pack_code@
            && cards[j].position == cards[i].position
}

/// The title of card `i`. A title only one card answers to (reprints being
/// one card) stays as it is. Otherwise the subtitle tells the cards apart
/// where it can; where it cannot, the card with the least name keeps the
/// plain title and the others add their pack and position, or their code
/// where two faces share those.
pub open spec fn title_spec(cards: Seq<AhdbCard>, labs: Seq<Seq<char>>, i: int) -> Seq<char> {
    let base = base_title(cards[i]);
    if !contested(cards, labs, i) || (!by_subname(cards, labs, i) && holds_plain(cards, labs, i)) {
        base
    } else {
        let suffix = if by_subname(cards, labs, i) {
            sub_text(cards[i])
        } else if shares_position(cards, labs, i) {
            cards[i].code@
        } else {
            cards[i].pack_code@ + " "@ + signed_decimal(cards[i].position as int)
        };
        base + " ("@ + suffix + ")"@
    }
}

fn key_matches(keys: &Vec<String>, i: usize, j: usize) -> (r: bool)
    requires
        i < keys@.len(),
        j < keys@.len(),
    ensures
        r == (keys@[j as int]@ == keys@[i as int]@),
{
    keys[j] == keys[i]
}

fn contested_at(keys: &Vec<String>, labels: &Vec<String>, i: usize, Ghost(cards): Ghost<Seq<AhdbCard>>) -> (r: bool)
    requires
        i < cards.len(),
        keys@.len() == cards.len(),
        labels@.len() == cards.len(),
        forall|j: int| 0 <= j < cards.len() ==> #[trigger] keys@[j]@ == title_key(cards[j]),
    ensures
        r == contested(cards, codes(labels@), i as int),
{
    let mut j: usize = 0;
    while j < keys.len()
        invariant
            i < cards.len(),
            keys@.len() == cards.len(),
            labels@.len() == cards.len(),
            forall|j: int| 0 <= j < cards.len() ==> #[trigger] keys@[j]@ == title_key(cards[j]),
            j <= keys@.len(),
            forall|m: int| 0 <= m < j && #[trigger] in_title(cards, i as int, m) ==> codes(labels@)[m] == codes(labels@)[i as int],
        decreases keys.len() - j,
    {
        assert(keys@[j as int]@ == title_key(cards[j as int]));
        assert(keys@[i as int]@ == title_key(cards[i as int]));
        if key_matches(keys, i, j) && labels[j] != labels[i] {
            assert(in_title(cards, i as int, j as int));
            return true;
        }
        j = j + 1;
    }
    false
}

fn plain_at(keys: &Vec<String>, labels: &Vec<String>, i: usize, Ghost(cards): Ghost<Seq<AhdbCard>>) -> (r: bool)
    requires
        i < cards.len(),
        keys@.len() == cards.len(),
        labels@.len() == cards.len(),
        forall|j: int| 0 <= j < cards.len() ==> #[trigger] keys@[j]@ == title_key(cards[j]),
    ensures
        r == holds_plain(cards, codes(labels@), i as int),
{
    let mut j: usize = 0;
    while j < keys.len()
        invariant
            i < cards.len(),
            keys@.len() == cards.len(),
            labels@.len() == cards.len(),
            forall|j: int| 0 <= j < cards.len() ==> #[trigger] keys@[j]@ == title_key(cards[j]),
            j <= keys@.len(),
            forall|m: int| 0 <= m < j && #[trigger] in_title(cards, i as int, m) ==> !seq_lt(codes(labels@)[m], codes(labels@)[i as int]),
        decreases keys.len() - j,
    {
        assert(keys@[j as int]@ == title_key(cards[j as int]));
        assert(keys@[i as int]@ == title_key(cards[i as int]));
        if key_matches(keys, i, j) && str_lt(labels[j].as_str(), labels[i].as_str()) {
            assert(in_title(cards, i as int, j as int));
            return false;
        }
        j = j + 1;
    }
    true
}

fn shares_position_at(keys: &Vec<String>, labels: &Vec<String>, cards: &[AhdbCard], i: usize) -> (r: bool)
    requires
        i < cards@.len(),
        keys@.len() == cards@.len(),
        labels@.len() == cards@.len(),
        forall|j: int| 0 <= j < cards@.len() ==> #[trigger] keys@[j]@ == title_key(cards@[j]),
    ensures
        r == shares_position(cards@, codes(labels@), i as int),
{
    let mut j: usize = 0;
    while j < keys.len()
        invariant
            i < cards@.len(),
            keys@.len() == cards@.len(),
            labels@.len() == cards@.len(),
            forall|j: int| 0 <= j < cards@.len() ==> #[trigger] keys@[j]@ == title_key(cards@[j]),
            j <= keys@.len(),
            forall|m: int|
                0 <= m < j && #[trigger] in_title(cards@, i as int, m) && codes(labels@)[m] != codes(labels@)[i as int]
                    ==> !(cards@[m].pack_code@ == cards@[i as int].pack_code@ && cards@[m].position == cards@[i as int].position),
        decreases keys.len() - j,
    {
        assert(keys@[j as int]@ == title_key(cards@[j as int]));
        assert(keys@[i as int]@ == title_key(cards@[i as int]));
        if key_matches(keys, i, j) && labels[j] != labels[i] && cards[j].pack_code == cards[i].pack_code
            && cards[j].position == cards[i].position {
            assert(in_title(cards@, i as int, j as int));
            return true;
        }
        j = j + 1;
    }
    false
}

fn subname_text(c: &AhdbCard) -> (r: String)
    ensures
        r@ == sub_text(*c),
{
    match &c.subname {
        Some(s) => s.clone(),
        None => String::new(),
    }
}

fn recorded_at(keys: &Vec<String>, labels: &Vec<String>, cards: &[AhdbCard], i: usize, l: &String) -> (r: String)
    requires
        i < cards@.len(),
        keys@.len() == cards@.len(),
        labels@.len() == cards@.len(),
        forall|j: int| 0 <= j < cards@.len() ==> #[trigger] keys@[j]@ == title_key(cards@[j]),
    ensures
        r@ == recorded_subname(cards@, codes(labels@), i as int, l@, cards@.len() as int),
{
    let mut out = String::new();
    let mut j: usize = 0;
    while j < keys.len()
        invariant
            i < cards@.len(),
            keys@.len() == cards@.len(),
            labels@.len() == cards@.len(),
            forall|j: int| 0 <= j < cards@.len() ==> #[trigger] keys@[j]@ == title_key(cards@[j]),
            j <= keys@.len(),
            out@ == recorded_subname(cards@, codes(labels@), i as int, l@, j as int),
        decreases keys.len() - j,
    {
        assert(keys@[j as int]@ == title_key(cards@[j as int]));
        assert(keys@[i as int]@ == title_key(cards@[i as int]));
        if key_matches(keys, i, j) && labels[j] == *l {
            out = subname_text(&cards[j]);
        }
        j = j + 1;
    }
    out
}

fn by_subname_at(keys: &Vec<String>, labels: &Vec<String>, cards: &[AhdbCard], i: usize) -> (r: bool)
    requires
        i < cards@.len(),
        keys@.len() == cards@.len(),
        labels@.len() == cards@.len(),
        forall|j: int| 0 <= j < cards@.len() ==> #[trigger] keys@[j]@ == title_key(cards@[j]),
    ensures
        r == by_subname(cards@, codes(labels@), i as int),
{
    let ghost labs = codes(labels@);
    let ghost n = cards@.len() as int;
    // the cards answering to the title, with the subtitle recorded for each
    let mut members: Vec<usize> = Vec::new();
    let mut recs: Vec<String> = Vec::new();
    let mut j: usize = 0;
    while j < keys.len()
        invariant
            labs == codes(labels@),
            n == cards@.len(),
            i < cards@.len(),
            keys@.len() == cards@.len(),
            labels@.len() == cards@.len(),
            forall|j: int| 0 <= j < cards@.len() ==> #[trigger] keys@[j]@ == title_key(cards@[j]),
            j <= keys@.len(),
            members@.len() == recs@.len(),
            forall|m: int| 0 <= m < members@.len() ==> #[trigger] members@[m] < j && in_title(cards@, i as int, members@[m] as int),
            forall|m: int| 0 <= m < members@.len() ==> #[trigger] recs@[m]@ == recorded_subname(cards@, labs, i as int, labs[members@[m] as int], n),
            forall|q: int| 0 <= q < j && #[trigger] in_title(cards@, i as int, q) ==> exists|m: int| 0 <= m < members@.len() && members@[m] == q,
            forall|q: int| 0 <= q < j && #[trigger] in_title(cards@, i as int, q) ==> recorded_subname(cards@, labs, i as int, labs[q], n).len() > 0,
        decreases keys.len() - j,
    {
        assert(keys@[j as int]@ == title_key(cards@[j as int]));
        assert(keys@[i as int]@ == title_key(cards@[i as int]));
        if key_matches(keys, i, j) {
            let rec = recorded_at(keys, labels, cards, i, &labels[j]);
            assert(labels@[j as int]@ == labs[j as int]);
            let empty = String::new();
            if rec == empty {
                assert(in_title(cards@, i as int, j as int));
                return false;
            }
            let ghost om = members@;
            members.push(j);
            recs.push(rec);
            proof {
                assert(members@[members@.len() - 1] == j);
                assert(rec@ != Seq::<char>::empty());
                assert(rec@.len() > 0) by {
                    if rec@.len() == 0 {
                        assert(rec@ =~= Seq::<char>::empty());
                    }
                }
                assert(labs[j as int] == labels@[j as int]@);
                assert forall|q: int| 0 <= q < j + 1 && #[trigger] in_title(cards@, i as int, q) implies exists|m: int|
                    0 <= m < members@.len() && members@[m] == q by {
                    if q < j {
                        let m = choose|m: int| 0 <= m < om.len() && om[m] == q;
                        assert(members@[m] == q);
                    } else {
                        assert(members@[members@.len() - 1] == q);
                    }
                }
            }
        }
        j = j + 1;
    }
    let mut a: usize = 0;
    while a < members.len()
        invariant
            labs == codes(labels@),
            n == cards@.len(),
            labels@.len() == cards@.len(),
            members@.len() == recs@.len(),
            forall|m: int| 0 <= m < members@.len() ==> #[trigger] members@[m] < n && in_title(cards@, i as int, members@[m] as int),
            forall|m: int| 0 <= m < members@.len() ==> #[trigger] recs@[m]@ == recorded_subname(cards@, labs, i as int, labs[members@[m] as int], n),
            forall|q: int| 0 <= q < n && #[trigger] in_title(cards@, i as int, q) ==> exists|m: int| 0 <= m < members@.len() && members@[m] == q,
            forall|q: int| 0 <= q < n && #[trigger] in_title(cards@, i as int, q) ==> recorded_subname(cards@, labs, i as int, labs[q], n).len() > 0,
            a <= members@.len(),
            forall|x: int, y: int|
                0 <= x < a && 0 <= y < members@.len() && labs[#[trigger] members@[x] as int] != labs[#[trigger] members@[y] as int] ==> recs@[x]@ != recs@[y]@,
        decreases members.len() - a,
    {
        let mut b: usize = 0;
        while b < members.len()
            invariant
                labs == codes(labels@),
                n == cards@.len(),
                labels@.len() == cards@.len(),
                members@.len() == recs@.len(),
                forall|m: int| 0 <= m < members@.len() ==> #[trigger] members@[m] < n && in_title(cards@, i as int, members@[m] as int),
                forall|m: int| 0 <= m < members@.len() ==> #[trigger] recs@[m]@ == recorded_subname(cards@, labs, i as int, labs[members@[m] as int], n),
                a < members@.len(),
                b <= members@.len(),
                forall|y: int|
                    0 <= y < b && labs[members@[a as int] as int] != labs[#[trigger] members@[y] as int] ==> recs@[a as int]@ != recs@[y]@,
            decreases members.len() - b,
        {
            assert(labels@[members@[a as int] as int]@ == labs[members@[a as int] as int]);
            assert(labels@[members@[b as int] as int]@ == labs[members@[b as int] as int]);
            if labels[members[a]] != labels[members[b]] && recs[a] == recs[b] {
                proof {
                    let ja = members@[a as int] as int;
                    let jb = members@[b as int] as int;
                    assert(in_title(cards@, i as int, ja) && in_title(cards@, i as int, jb));
                    assert(!by_subname(cards@, labs, i as int));
                }
                return false;
            }
            b = b + 1;
        }
        a = a + 1;
    }
    proof {
        assert forall|x: int, y: int|
            #[trigger] in_title(cards@, i as int, x) && #[trigger] in_title(cards@, i as int, y) && labs[x] != labs[y] implies recorded_subname(
                cards@,
                labs,
                i as int,
                labs[x],
                n,
            ) != recorded_subname(cards@, labs, i as int, labs[y], n) by {
            let mx = choose|m: int| 0 <= m < members@.len() && members@[m] == x;
            let my = choose|m: int| 0 <= m < members@.len() && members@[m] == y;
            assert(recs@[mx]@ != recs@[my]@);
        }
    }
    true
}

/// The title of each card, spelling apart the titles that more than one card
/// answers to. `labels` names the card each listed card is one of.
pub fn card_titles(cards: &[AhdbCard], labels: &Vec<String>) -> (r: Vec<String>)
    requires
        labels@.len() == cards@.len(),
    ensures
        r@.len() == cards@.len(),
        forall|i: int| 0 <= i < cards@.len() ==> #[trigger] r@[i]@ == title_spec(cards@, codes(labels@), i),
{
    let mut bases: Vec<String> = Vec::new();
    let mut keys: Vec<String> = Vec::new();
    let mut j: usize = 0;
    while j < cards.len()
        invariant
            j <= cards@.len(),
            bases@.len() == j,
            keys@.len() == j,
            forall|m: int| 0 <= m < j ==> #[trigger] bases@[m]@ == base_title(cards@[m]),
            forall|m: int| 0 <= m < j ==> #[trigger] keys@[m]@ == title_key(cards@[m]),
        decreases cards.len() - j,
    {
        let base = display_title(cards[j].name.as_str(), cards[j].xp);
        let key = normalize_title(base.as_str());
        bases.push(base);
        keys.push(key);
        j = j + 1;
    }
    let ghost labs = codes(labels@);
    let mut titles: Vec<String> = Vec::new();
    let mut i: usize = 0;
    while i < cards.len()
        invariant
            labs == codes(labels@),
            labels@.len() == cards@.len(),
            bases@.len() == cards@.len(),
            keys@.len() == cards@.len(),
            forall|m: int| 0 <= m < cards@.len() ==> #[trigger] bases@[m]@ == base_title(cards@[m]),
            forall|m: int| 0 <= m < cards@.len() ==> #[trigger] keys@[m]@ == title_key(cards@[m]),
            i <= cards@.len(),
            titles@.len() == i,
            forall|m: int| 0 <= m < i ==> #[trigger] titles@[m]@ == title_spec(cards@, labs, m),
        decreases cards.len() - i,
    {
        let mut title = bases[i].clone();
        if contested_at(&keys, labels, i, Ghost(cards@)) {
            let by_sub = by_subname_at(&keys, labels, cards, i);
            if by_sub || !plain_at(&keys, labels, i, Ghost(cards@)) {
                let suffix = if by_sub {
                    subname_text(&cards[i])
                } else if shares_position_at(&keys, labels, cards, i) {
                    cards[i].code.clone()
                } else {
                    let mut s = cards[i].pack_code.clone();
                    push_str(&mut s, " ");
                    let p = i64_to_string(cards[i].position);
                    push_str(&mut s, p.as_str());
                    s
                };
                push_str(&mut title, " (");
                push_str(&mut title, suffix.as_str());
                push_str(&mut title, ")");
            }
        }
        assert(title@ == title_spec(cards@, labs, i as int));
        titles.push(title);
        i = i + 1;
    }
    titles
}

/// The catalog card ArkhamDB card `i` becomes.
pub open spec fn ahdb_card_row(cards: Seq<AhdbCard>, i: int) -> (
    Seq<char>,
    Seq<char>,
    Seq<char>,
    Option<Seq<char>>,
    Option<Seq<char>>,
    Option<Seq<char>>,
    Option<Seq<char>>,
    Option<Seq<char>>,
    Option<Seq<char>>,
) {
    let c = cards[i];
    let title = title_spec(cards, labels_spec(cards), i);
    (
        c.code@,
        title,
        normalize_spec(title),
        None,
        back_group_spec(c.type_code@, crate::models::opt_view(c.subtype_code)),
        None,
        None,
        None,
        None,
    )
}

/// The catalog version ArkhamDB card `c` becomes.
pub open spec fn ahdb_version_row(c: AhdbCard) -> (Seq<char>, Seq<char>, i64, Option<i64>, Option<Seq<char>>) {
    (c.code@, c.pack_code@, match c.quantity { Some(q) => q, None => 1i64 }, Some(c.position), None)
}

/// ArkhamDB's cards as catalog rows: one card and one version per code (both
/// faces of a double-sided card sit under one code), each titled as
/// `card_titles` spells it, with the generic back its type needs.
pub fn build_cards_and_versions(cards: &[AhdbCard]) -> (r: (Vec<Card>, Vec<CardVersion>))
    ensures
        r.0@.len() == cards@.len(),
        r.1@.len() == cards@.len(),
        forall|i: int| 0 <= i < cards@.len() ==> card_view(#[trigger] r.0@[i]) == ahdb_card_row(cards@, i),
        forall|i: int| 0 <= i < cards@.len() ==> version_view(#[trigger] r.1@[i]) == ahdb_version_row(cards@[i]),
{
    let links = reprint_links(cards);
    let mut labels: Vec<String> = Vec::new();
    let mut j: usize = 0;
    while j < cards.len()
        invariant
            links_view(links@) == reprint_links_spec(cards@),
            j <= cards@.len(),
            labels@.len() == j,
            forall|m: int| 0 <= m < j ==> #[trigger] labels@[m]@ == labels_spec(cards@)[m],
        decreases cards.len() - j,
    {
        let l = group_of(&links, &cards[j].code);
        labels.push(l);
        j = j + 1;
    }
    assert(codes(labels@) =~= labels_spec(cards@));
    let titles = card_titles(cards, &labels);
    let mut out_cards: Vec<Card> = Vec::new();
    let mut versions: Vec<CardVersion> = Vec::new();
    let mut i: usize = 0;
    while i < cards.len()
        invariant
            titles@.len() == cards@.len(),
            forall|m: int| 0 <= m < cards@.len() ==> #[trigger] titles@[m]@ == title_spec(cards@, labels_spec(cards@), m),
            i <= cards@.len(),
            out_cards@.len() == i,
            versions@.len() == i,
            forall|m: int| 0 <= m < i ==> card_view(#[trigger] out_cards@[m]) == ahdb_card_row(cards@, m),
            forall|m: int| 0 <= m < i ==> version_view(#[trigger] versions@[m]) == ahdb_version_row(cards@[m]),
        decreases cards.len() - i,
    {
        let c = &cards[i];
        let subtype: Option<&str> = match &c.subtype_code {
            Some(s) => Some(s.as_str()),
            None => None,
        };
        let back = back_group_for(c.type_code.as_str(), subtype);
        assert(crate::models::opt_view(c.subtype_code) == match subtype {
            Some(s) => Some(s@),
            None => None::<Seq<char>>,
        });
        let card = card_with(c.code.clone(), titles[i].clone(), None, back, None);
        out_cards.push(card);
        versions.push(CardVersion {
            card_id: c.code.clone(),
            pack_id: c.pack_code.clone(),
            quantity: match c.quantity {
                Some(q) => q,
                None => 1,
            },
            position: Some(c.position),
            api_id: None,
        });
        i = i + 1;
    }
    (out_cards, versions)
}

impl DecklistProvider for AhlcgAdapter {
    fn decklist_api_url(&self, url: &str) -> (r: Result<String, ProxyNexusError>)
        ensures
            match r {
                Ok(u) => exists|id: Seq<char>| view_id_spec(url@) == Some(id) && u@ == "https://arkhamdb.com/api/public/decklist/"@ + id,
                Err(_) => view_id_spec(url@) is None,
            },
    {
        let id = parse_arkhamdb_decklist_url(url)?;
        let mut u = owned("https://arkhamdb.com/api/public/decklist/");
        push_str(&mut u, id.as_str());
        assert(u@ == "https://arkhamdb.com/api/public/decklist/"@ + id@);
        Ok(u)
    }
}

/// The packs of the catalog, as the source lists them.
pub open spec fn catalog_packs_spec(packs: Seq<AhdbPack>) -> Seq<(Seq<char>, Seq<char>, Option<Seq<char>>)> {
    packs.map_values(|p: AhdbPack| (p.code@, p.name@, crate::models::opt_view(p.available)))
}

impl AhlcgAdapter {
    /// The game's catalog from the source's packs and cards.
    pub fn build_catalog(&self, packs: &[AhdbPack], cards: &[AhdbCard]) -> (r: crate::catalog::Catalog)
        ensures
            r.game_id@ == "ahlcg"@,
            r.display_name@ == "Arkham Horror (Chapter 1)"@,
            r.packs@.map_values(|p: crate::catalog::Pack| crate::catalog::pack_view(p)) == catalog_packs_spec(packs@),
        r.cards@.len() == cards@.len(),
        r.card_versions@.len() == cards@.len(),
        forall|i: int| 0 <= i < cards@.len() ==> card_view(#[trigger] r.cards@[i]) == ahdb_card_row(cards@, i),
        forall|i: int| 0 <= i < cards@.len() ==> version_view(#[trigger] r.card_versions@[i]) == ahdb_version_row(cards@[i]),
    {
        let mut ps: Vec<crate::catalog::Pack> = Vec::new();
        let mut i: usize = 0;
        while i < packs.len()
            invariant
                i <= packs@.len(),
                ps@.map_values(|p: crate::catalog::Pack| crate::catalog::pack_view(p)) == catalog_packs_spec(packs@.take(i as int)),
            decreases packs.len() - i,
        {
            let ghost b = ps@;
            let pack = crate::catalog::pack_of(&packs[i].code, &packs[i].name, &packs[i].available);
            ps.push(pack);
            proof {
                assert(ps@.map_values(|p: crate::catalog::Pack| crate::catalog::pack_view(p)) =~= b.map_values(
                    |p: crate::catalog::Pack| crate::catalog::pack_view(p),
                ).push(crate::catalog::pack_view(pack)));
                assert(catalog_packs_spec(packs@.take(i + 1)) =~= catalog_packs_spec(packs@.take(i as int)).push(
                    crate::catalog::pack_view(pack),
                ));
            }
            i = i + 1;
        }
        assert(packs@.take(i as int) =~= packs@);
        let (cs, vs) = build_cards_and_versions(cards);
        crate::catalog::Catalog {
            game_id: crate::text::owned("ahlcg"),
            display_name: crate::text::owned("Arkham Horror (Chapter 1)"),
            packs: ps,
            cards: cs,
            card_versions: vs,
        }
    }
}

} // verus!
