//! Lord of the Rings LCG.
pub mod assembly;
pub mod identity;
use vstd::prelude::*;
use crate::card_source::BoosterSpec;
use crate::games::GameAdapterInfo;
use crate::card_source::DecklistProvider;
use crate::card_store::{normalize_spec, normalize_title};
use crate::error::ProxyNexusError;
use crate::games::urls::{extract_path_segment, path_segment_spec};
use crate::models::{Decklist, DecklistEntry};
use crate::text::{owned, push_str, replace_all, replace_str, str_eq};

verus! {

/// The Lord of the Rings LCG adapter.
pub struct LotrLcgAdapter {}

impl LotrLcgAdapter {
    /// The adapter.
    pub fn new() -> (r: Self) {
        LotrLcgAdapter {}
    }
}

impl Default for LotrLcgAdapter {
    fn default() -> (r: Self) {
        Self::new()
    }
}

impl GameAdapterInfo for LotrLcgAdapter {
    fn game_id(&self) -> (r: &'static str)
        ensures
            r@ == "lotrlcg"@,
    {
        "lotrlcg"
    }

    fn game_name(&self) -> (r: &'static str)
        ensures
            r@ == "Lord of the Rings LCG"@,
    {
        "Lord of the Rings LCG"
    }

    fn subdomains(&self) -> (r: Vec<&'static str>)
        ensures
            r@.map_values(|s: &str| s@) == seq!["lotrlcg"@],
    {
        let mut v: Vec<&'static str> = Vec::new();
        v.push("lotrlcg");
        proof {
            assert(v@.map_values(|s: &str| s@) =~= seq!["lotrlcg"@]);
        }
        v
    }

    fn booster_spec(&self) -> (r: Option<BoosterSpec>)
        ensures
            r is None,
    {
        None
    }
}

/// A card face's statistics as Hall of Beorn lists them.
#[derive(Debug, Clone, PartialEq)]
pub struct HobCardStats {
    pub threat: Option<String>,
    pub threat_cost: Option<String>,
    pub resource_cost: Option<String>,
    pub willpower: Option<String>,
    pub attack: Option<String>,
    pub defense: Option<String>,
    pub hit_points: Option<String>,
    pub quest_points: Option<String>,
    pub engagement_cost: Option<String>,
    pub stage_number: Option<String>,
}

/// A card face as Hall of Beorn lists it.
#[derive(Debug, Clone, PartialEq)]
pub struct HobCardFace {
    pub image_path: Option<String>,
    pub stats: Option<HobCardStats>,
    pub text: Option<Vec<String>>,
    pub subtitle: Option<String>,
}

/// A printing as Hall of Beorn lists it.
#[derive(Debug, Clone, PartialEq)]
pub struct HobCard {
    pub title: String,
    pub slug: String,
    pub card_set: String,
    pub number: i64,
    pub quantity: Option<i64>,
    pub front: Option<HobCardFace>,
    pub back: Option<HobCardFace>,
    pub card_type: String,
    pub sphere: Option<String>,
}

/// A RingsDB decklist: the main deck's and the sideboard's card codes with
/// their quantities.
#[derive(Debug, Clone)]
pub struct RingsdbDecklist {
    pub slots: Vec<(String, i64)>,
    pub sideslots: Vec<(String, i64)>,
}

/// A card as RingsDB lists it.
#[derive(Debug, Clone)]
pub struct RingsdbCard {
    pub code: String,
    pub name: String,
    pub pack_code: String,
    pub pack_name: String,
    pub type_code: Option<String>,
    pub position: Option<u32>,
    pub quantity: Option<u32>,
    pub is_official: Option<bool>,
}

/// A pack as RingsDB lists it.
#[derive(Debug, Clone)]
pub struct RingsdbPack {
    pub name: String,
    pub available: String,
}

/// The player card types of RingsDB.
pub open spec fn player_type_codes() -> Seq<Seq<char>> {
    seq!["hero"@, "ally"@, "attachment"@, "event"@, "player-side-quest"@, "player-objective"@, "contract"@, "treasure"@]
}

/// The quest card types of RingsDB.
pub open spec fn quest_type_codes() -> Seq<Seq<char>> {
    seq!["quest"@, "campaign"@, "nightmare-setup"@, "setup"@]
}

/// The back a RingsDB type prints with: player, quest, or encounter for any
/// other or absent type.
pub open spec fn back_group_spec(type_code: Option<Seq<char>>) -> Seq<char> {
    match type_code {
        Some(t) => if player_type_codes().contains(t) {
            "player"@
        } else if quest_type_codes().contains(t) {
            "quest"@
        } else {
            "encounter"@
        },
        None => "encounter"@,
    }
}

fn listed(list: &Vec<&str>, s: &str) -> (r: bool)
    ensures
        r == list@.map_values(|x: &str| x@).contains(s@),
{
    let mut i: usize = 0;
    while i < list.len()
        invariant
            i <= list@.len(),
            forall|k: int| 0 <= k < i ==> list@[k]@ != s@,
        decreases list.len() - i,
    {
        if str_eq(list[i], s) {
            assert(list@.map_values(|x: &str| x@)[i as int] == s@);
            return true;
        }
        i = i + 1;
    }
    assert(!list@.map_values(|x: &str| x@).contains(s@)) by {
        let m = list@.map_values(|x: &str| x@);
        if m.contains(s@) {
            let k = choose|k: int| 0 <= k < m.len() && #[trigger] m[k] == s@;
            assert(list@[k]@ == s@);
        }
    }
    false
}

/// The back a RingsDB type prints with.
pub fn back_group_from_type_code(type_code: Option<&str>) -> (r: &'static str)
    ensures
        r@ == back_group_spec(match type_code {
            Some(t) => Some(t@),
            None => None,
        }),
{
    match type_code {
        Some(t) => {
            let players = vec!["hero", "ally", "attachment", "event", "player-side-quest", "player-objective", "contract", "treasure"];
            let quests = vec!["quest", "campaign", "nightmare-setup", "setup"];
            assert(players@.map_values(|x: &str| x@) =~= player_type_codes());
            assert(quests@.map_values(|x: &str| x@) =~= quest_type_codes());
            if listed(&players, t) {
                "player"
            } else if listed(&quests, t) {
                "quest"
            } else {
                "encounter"
            }
        },
        None => "encounter",
    }
}

/// A RingsDB pack name as Hall of Beorn spells it: `ALeP - ` and `.English`
/// removed, and the two Hobbit saga boxes under `The Hobbit: `.
pub open spec fn canonical_pack_spec(name: Seq<char>) -> Seq<char> {
    let cleaned = replace_all(replace_all(name, "ALeP - "@, Seq::empty()), ".English"@, Seq::empty());
    if cleaned == "Over Hill and Under Hill"@ || cleaned == "On the Doorstep"@ {
        "The Hobbit: "@ + cleaned
    } else {
        cleaned
    }
}

/// A RingsDB pack name as Hall of Beorn spells it.
pub fn canonical_pack_name(ringsdb_name: &str) -> (r: String)
    ensures
        r@ == canonical_pack_spec(ringsdb_name@),
{
    proof {
        reveal_strlit("ALeP - ");
        reveal_strlit(".English");
        reveal_strlit("");
        assert(""@ =~= Seq::<char>::empty());
    }
    let a = replace_str(ringsdb_name, "ALeP - ", "");
    let cleaned = replace_str(a.as_str(), ".English", "");
    if str_eq(cleaned.as_str(), "Over Hill and Under Hill") || str_eq(cleaned.as_str(), "On the Doorstep") {
        let mut t = owned("The Hobbit: ");
        push_str(&mut t, cleaned.as_str());
        t
    } else {
        cleaned
    }
}

/// The decklist id of a RingsDB URL: after `/decklist/view/`, else after
/// `/api/public/decklist/`.
pub open spec fn ringsdb_id_spec(url: Seq<char>) -> Option<Seq<char>> {
    match path_segment_spec(url, "/decklist/view/"@) {
        Some(id) => Some(id),
        None => path_segment_spec(url, "/api/public/decklist/"@),
    }
}

/// The decklist id a RingsDB URL holds.
pub fn parse_ringsdb_url(url: &str) -> (r: Result<String, ProxyNexusError>)
    ensures
        match r {
            Ok(id) => ringsdb_id_spec(url@) == Some(id@),
            Err(e) => ringsdb_id_spec(url@) is None && (e matches ProxyNexusError::Internal(m)
                && m@ == "Invalid RingsDB decklist URL"@),
        },
{
    proof {
        reveal_strlit("/decklist/view/");
        reveal_strlit("/api/public/decklist/");
    }
    match extract_path_segment(url, "/decklist/view/") {
        Some(id) => Ok(id),
        None => match extract_path_segment(url, "/api/public/decklist/") {
            Some(id) => Ok(id),
            None => Err(ProxyNexusError::Internal(owned("Invalid RingsDB decklist URL"))),
        },
    }
}

impl DecklistProvider for LotrLcgAdapter {
    fn decklist_api_url(&self, url: &str) -> (r: Result<String, ProxyNexusError>)
        ensures
            match r {
                Ok(u) => exists|id: Seq<char>| ringsdb_id_spec(url@) == Some(id) && u@ == "https://ringsdb.com/api/public/decklist/"@ + id,
                Err(_) => ringsdb_id_spec(url@) is None,
            },
    {
        let id = parse_ringsdb_url(url)?;
        let mut u = owned("https://ringsdb.com/api/public/decklist/");
        push_str(&mut u, id.as_str());
        assert(u@ == "https://ringsdb.com/api/public/decklist/"@ + id@);
        Ok(u)
    }
}

/// The last RingsDB card, among the first `n`, with code `code`.
pub open spec fn last_with_code(cards: Seq<RingsdbCard>, code: Seq<char>, n: int) -> Option<int>
    decreases n,
{
    if n <= 0 {
        None
    } else if cards[n - 1].code@ == code {
        Some(n - 1)
    } else {
        last_with_code(cards, code, n - 1)
    }
}

/// The entries the first `n` deck slots give: each slot whose code names a
/// card becomes an entry for the card's normalized name, in the pack its
/// name (less `ALeP - ` and `.English`) normalizes to.
pub open spec fn ringsdb_entries(cards: Seq<RingsdbCard>, slots: Seq<(String, i64)>, n: int) -> Seq<(Seq<char>, Option<Seq<char>>, u32)>
    decreases n,
{
    if n <= 0 {
        Seq::empty()
    } else {
        ringsdb_entries(cards, slots, n - 1) + match last_with_code(cards, slots[n - 1].0@, cards.len() as int) {
            Some(k) => seq![(
                normalize_spec(cards[k].name@),
                Some(normalize_spec(replace_all(replace_all(cards[k].pack_name@, "ALeP - "@, Seq::empty()), ".English"@, Seq::empty()))),
                slots[n - 1].1 as u32,
            )],
            None => Seq::empty(),
        }
    }
}

fn find_last(cards: &[RingsdbCard], code: &str) -> (r: Option<usize>)
    ensures
        match r {
            Some(k) => last_with_code(cards@, code@, cards@.len() as int) == Some(k as int) && k < cards@.len(),
            None => last_with_code(cards@, code@, cards@.len() as int) is None,
        },
{
    let mut n: usize = cards.len();
    while n > 0
        invariant
            n <= cards@.len(),
            last_with_code(cards@, code@, cards@.len() as int) == last_with_code(cards@, code@, n as int),
        decreases n,
    {
        if str_eq(cards[n - 1].code.as_str(), code) {
            return Some(n - 1);
        }
        n = n - 1;
    }
    None
}

/// The decklist a RingsDB response gives from its main deck; a quantity is
/// taken as a `u32` as it stands (truncated, as a cast does).
pub fn ringsdb_decklist(response: &RingsdbDecklist, cards: &[RingsdbCard]) -> (r: Decklist)
    ensures
        r.cards@.map_values(|e: DecklistEntry| (e.card_id@, crate::models::opt_view(e.pack_id), e.quantity)) == ringsdb_entries(cards@, response.slots@, response.slots@.len() as int),
        forall|i: int| 0 <= i < r.cards@.len() ==> (#[trigger] r.cards@[i]).position is None,
{
    proof {
        reveal_strlit("ALeP - ");
        reveal_strlit(".English");
        reveal_strlit("");
    }
    let mut out: Vec<DecklistEntry> = Vec::new();
    let mut i: usize = 0;
    while i < response.slots.len()
        invariant
            i <= response.slots@.len(),
            out@.map_values(|e: DecklistEntry| (e.card_id@, crate::models::opt_view(e.pack_id), e.quantity)) == ringsdb_entries(cards@, response.slots@, i as int),
            forall|k: int| 0 <= k < out@.len() ==> (#[trigger] out@[k]).position is None,
        decreases response.slots.len() - i,
    {
        proof {
            reveal_strlit("ALeP - ");
            reveal_strlit(".English");
            reveal_strlit("");
            assert(""@ =~= Seq::<char>::empty());
        }
        if let Some(k) = find_last(cards, response.slots[i].0.as_str()) {
            let card = &cards[k];
            let a = replace_str(card.pack_name.as_str(), "ALeP - ", "");
            let clean = replace_str(a.as_str(), ".English", "");
            let entry = DecklistEntry {
                card_id: normalize_title(card.name.as_str()),
                pack_id: Some(normalize_title(clean.as_str())),
                quantity: response.slots[i].1 as u32,
                position: None,
            };
            let ghost before = out@;
            out.push(entry);
            proof {
                crate::seqs::lemma_push_map(before, entry, |e: DecklistEntry| (e.card_id@, crate::models::opt_view(e.pack_id), e.quantity));
            }
        }
        i = i + 1;
        assert(out@.map_values(|e: DecklistEntry| (e.card_id@, crate::models::opt_view(e.pack_id), e.quantity)) =~= ringsdb_entries(cards@, response.slots@, i as int));
    }
    Decklist { cards: out }
}

} // verus!
