//! The games the library knows, and what each game's adapter says of it.
use vstd::prelude::*;
use crate::card_source::{BoosterSpec, DecklistProvider};
use crate::error::ProxyNexusError;
use crate::text::str_eq;
use crate::games::agot::AgotAdapter;
use crate::games::ahlcg::AhlcgAdapter;
use crate::games::l5r::L5rAdapter;
use crate::games::lotrlcg::LotrLcgAdapter;
use crate::games::marvel_champions::MarvelChampionsAdapter;
use crate::games::netrunner::NetrunnerAdapter;
use crate::games::netrunner_reboot::NetrunnerRebootAdapter;
use crate::games::whinvasion::WhiAdapter;

pub mod agot;
pub mod agot1st;
pub mod ahlcg;
pub mod coclcg;
pub mod fetch;
pub mod cohccg;
pub mod l5r;
pub mod lotrlcg;
pub mod marvel_champions;
pub mod netrunner;
pub mod netrunner_reboot;
pub mod reprints;
pub mod urls;
pub mod whconquest;
pub mod whinvasion;

verus! {

/// What an adapter tells about its game.
pub trait GameAdapterInfo {
    /// The game's id, as collections and the database name it.
    fn game_id(&self) -> &'static str;

    /// The game's name as shown to users.
    fn game_name(&self) -> &'static str;

    /// The subdomains under which the game is served.
    fn subdomains(&self) -> Vec<&'static str>;

    /// What a booster pack holds, for games sold in boosters.
    fn booster_spec(&self) -> Option<BoosterSpec>;
}

/// The texts of a list of subdomains.
pub open spec fn names(v: Seq<&str>) -> Seq<Seq<char>> {
    v.map_values(|s: &str| s@)
}

/// The game served under a subdomain: the first adapter, in the order
/// Netrunner, Netrunner Reboot, Legend of the Five Rings, A Game of Thrones,
/// Lord of the Rings, Marvel Champions, Arkham Horror, Warhammer Invasion,
/// that lists it.
pub open spec fn game_by_subdomain(s: Seq<char>) -> Option<Seq<char>> {
    if seq!["netrunner-reboot"@].contains(s) {
        Some("netrunner-reboot"@)
    } else if seq!["thrones"@, "agot"@].contains(s) {
        Some("agot"@)
    } else if seq!["lotrlcg"@].contains(s) {
        Some("lotrlcg"@)
    } else if seq!["marvel"@].contains(s) {
        Some("marvel_champions"@)
    } else if seq!["ahlcg"@].contains(s) {
        Some("ahlcg"@)
    } else if seq!["whinvasion"@].contains(s) {
        Some("whinvasion"@)
    } else {
        None
    }
}

fn serves(subdomains: &Vec<&'static str>, subdomain: &str) -> (r: bool)
    ensures
        r == names(subdomains@).contains(subdomain@),
{
    let mut i: usize = 0;
    while i < subdomains.len()
        invariant
            i <= subdomains@.len(),
            forall|k: int| 0 <= k < i ==> subdomains@[k]@ != subdomain@,
        decreases subdomains.len() - i,
    {
        if str_eq(subdomains[i], subdomain) {
            assert(names(subdomains@)[i as int] == subdomain@);
            return true;
        }
        i = i + 1;
    }
    assert(!names(subdomains@).contains(subdomain@)) by {
        if names(subdomains@).contains(subdomain@) {
            let m = names(subdomains@);
            let k = choose|k: int| 0 <= k < m.len() && #[trigger] m[k] == subdomain@;
            assert(subdomains@[k]@ == subdomain@);
        }
    }
    false
}

/// The id of the game served under `subdomain`.
pub fn get_game_id_by_subdomain(subdomain: &str) -> (r: Option<&'static str>)
    ensures
        match r {
            Some(id) => game_by_subdomain(subdomain@) == Some(id@),
            None => game_by_subdomain(subdomain@) is None,
        },
{
    let a = NetrunnerAdapter::new();
    let subs = a.subdomains();
    if serves(&subs, subdomain) {
        return Some(a.game_id());
    }
    assert(!Seq::<Seq<char>>::empty().contains(subdomain@)) by {
        assert(names(subs@) =~= Seq::<Seq<char>>::empty());
    }
    let a = NetrunnerRebootAdapter::new();
    let subs = a.subdomains();
    if serves(&subs, subdomain) {
        return Some(a.game_id());
    }
    assert(!seq!["netrunner-reboot"@].contains(subdomain@)) by {
        assert(names(subs@) =~= seq!["netrunner-reboot"@]);
    }
    let a = L5rAdapter::new();
    let subs = a.subdomains();
    if serves(&subs, subdomain) {
        return Some(a.game_id());
    }
    assert(!Seq::<Seq<char>>::empty().contains(subdomain@)) by {
        assert(names(subs@) =~= Seq::<Seq<char>>::empty());
    }
    let a = AgotAdapter::new();
    let subs = a.subdomains();
    if serves(&subs, subdomain) {
        return Some(a.game_id());
    }
    assert(!seq!["thrones"@, "agot"@].contains(subdomain@)) by {
        assert(names(subs@) =~= seq!["thrones"@, "agot"@]);
    }
    let a = LotrLcgAdapter::new();
    let subs = a.subdomains();
    if serves(&subs, subdomain) {
        return Some(a.game_id());
    }
    assert(!seq!["lotrlcg"@].contains(subdomain@)) by {
        assert(names(subs@) =~= seq!["lotrlcg"@]);
    }
    let a = MarvelChampionsAdapter::new();
    let subs = a.subdomains();
    if serves(&subs, subdomain) {
        return Some(a.game_id());
    }
    assert(!seq!["marvel"@].contains(subdomain@)) by {
        assert(names(subs@) =~= seq!["marvel"@]);
    }
    let a = AhlcgAdapter::new();
    let subs = a.subdomains();
    if serves(&subs, subdomain) {
        return Some(a.game_id());
    }
    assert(!seq!["ahlcg"@].contains(subdomain@)) by {
        assert(names(subs@) =~= seq!["ahlcg"@]);
    }
    let a = WhiAdapter::new();
    let subs = a.subdomains();
    if serves(&subs, subdomain) {
        return Some(a.game_id());
    }
    assert(!seq!["whinvasion"@].contains(subdomain@)) by {
        assert(names(subs@) =~= seq!["whinvasion"@]);
    }
    None
}

/// The adapter that reads a game's decklists.
pub enum DecklistAdapter {
    Netrunner(NetrunnerAdapter),
    NetrunnerReboot(NetrunnerRebootAdapter),
    L5r(L5rAdapter),
    Agot(AgotAdapter),
    LotrLcg(LotrLcgAdapter),
    Ahlcg(AhlcgAdapter),
}

/// Which adapter reads the decklists of a game.
pub open spec fn decklist_game(game_id: Seq<char>) -> Option<int> {
    if game_id == "netrunner"@ {
        Some(0)
    } else if game_id == "netrunner-reboot"@ {
        Some(1)
    } else if game_id == "l5r"@ {
        Some(2)
    } else if game_id == "agot"@ {
        Some(3)
    } else if game_id == "lotrlcg"@ {
        Some(4)
    } else if game_id == "ahlcg"@ {
        Some(5)
    } else {
        None
    }
}

/// The position of an adapter in `decklist_game`'s list.
pub open spec fn adapter_index(a: DecklistAdapter) -> int {
    match a {
        DecklistAdapter::Netrunner(_) => 0,
        DecklistAdapter::NetrunnerReboot(_) => 1,
        DecklistAdapter::L5r(_) => 2,
        DecklistAdapter::Agot(_) => 3,
        DecklistAdapter::LotrLcg(_) => 4,
        DecklistAdapter::Ahlcg(_) => 5,
    }
}

/// The adapter that reads `game_id`'s decklists; none for a game whose site
/// publishes none the library reads.
pub fn get_decklist_adapter(game_id: &str) -> (r: Option<DecklistAdapter>)
    ensures
        match r {
            Some(a) => decklist_game(game_id@) == Some(adapter_index(a)),
            None => decklist_game(game_id@) is None,
        },
{
    if str_eq(game_id, "netrunner") {
        Some(DecklistAdapter::Netrunner(NetrunnerAdapter::new()))
    } else if str_eq(game_id, "netrunner-reboot") {
        Some(DecklistAdapter::NetrunnerReboot(NetrunnerRebootAdapter::new()))
    } else if str_eq(game_id, "l5r") {
        Some(DecklistAdapter::L5r(L5rAdapter::new()))
    } else if str_eq(game_id, "agot") {
        Some(DecklistAdapter::Agot(AgotAdapter::new()))
    } else if str_eq(game_id, "lotrlcg") {
        Some(DecklistAdapter::LotrLcg(LotrLcgAdapter::new()))
    } else if str_eq(game_id, "ahlcg") {
        Some(DecklistAdapter::Ahlcg(AhlcgAdapter::new()))
    } else {
        None
    }
}

/// The API URL of the decklist `url` points at, as the adapter at `index`
/// of `decklist_game`'s list reads it; none for a URL it does not read.
pub open spec fn decklist_api_spec(index: int, url: Seq<char>) -> Option<Seq<char>> {
    if index == 0 {
        match netrunner::nrdb_url_spec(url) {
            Some((id, path)) => Some("https://netrunnerdb.com/api/2.0/public/"@ + path + "/"@ + id),
            None => None,
        }
    } else if index == 1 {
        match netrunner_reboot::reteki_url_spec(url) {
            Some((id, path)) => Some("https://nrdb.reteki.fun/api/2.0/public"@ + "/"@ + path + "/"@ + id),
            None => None,
        }
    } else if index == 2 {
        match l5r::emeralddb_id_spec(url) {
            Some(id) => Some("https://www.emeralddb.org/api/decklists/"@ + id),
            None => None,
        }
    } else if index == 3 {
        match agot::thronesdb_id_spec(url) {
            Some(id) => Some(agot::thronesdb_api() + "/decklist/"@ + id),
            None => None,
        }
    } else if index == 4 {
        match lotrlcg::ringsdb_id_spec(url) {
            Some(id) => Some("https://ringsdb.com/api/public/decklist/"@ + id),
            None => None,
        }
    } else {
        match urls::view_id_spec(url) {
            Some(id) => Some("https://arkhamdb.com/api/public/decklist/"@ + id),
            None => None,
        }
    }
}

impl DecklistProvider for DecklistAdapter {
    fn decklist_api_url(&self, url: &str) -> (r: Result<String, ProxyNexusError>)
        ensures
            match r {
                Ok(u) => decklist_api_spec(adapter_index(*self), url@) == Some(u@),
                Err(_) => decklist_api_spec(adapter_index(*self), url@) is None,
            },
    {
        match self {
            DecklistAdapter::Netrunner(a) => a.decklist_api_url(url),
            DecklistAdapter::NetrunnerReboot(a) => a.decklist_api_url(url),
            DecklistAdapter::L5r(a) => a.decklist_api_url(url),
            DecklistAdapter::Agot(a) => a.decklist_api_url(url),
            DecklistAdapter::LotrLcg(a) => a.decklist_api_url(url),
            DecklistAdapter::Ahlcg(a) => a.decklist_api_url(url),
        }
    }
}

} // verus!
