//! Where card requests come from: a typed card list, a whole set, or a
//! decklist on a deckbuilding site.
use vstd::prelude::*;
use crate::error::ProxyNexusError;
use crate::text::owned;

verus! {

/// A card list as the user typed it, one entry per line.
pub struct Cardlist(pub String);

/// How many copies of each card a whole-set request should emit.
///
/// LCGs ship a fixed playset per card (`card_versions.quantity`, usually
/// 3); CCGs are singles (`quantity` 1), so proxying a full CCG set as a
/// playset needs an explicit multiplier.
#[derive(Clone, Copy, Debug, PartialEq, Eq)]
pub enum SetCopies {
    /// One copy per `card_versions.quantity` -- the retail playset.
    AsPrinted,
    /// Exactly this many copies of every card in the set.
    Fixed(u32),
}

impl Default for SetCopies {
    fn default() -> (r: SetCopies)
        ensures
            r == SetCopies::AsPrinted,
    {
        SetCopies::AsPrinted
    }
}

/// A whole-set request: every card in the named pack, `copies` of each.
pub struct SetName(pub String, pub SetCopies);

impl SetName {
    /// A set request that emits each card's retail playset quantity.
    pub fn as_printed(name: &str) -> (r: SetName)
        ensures
            r.0@ == name@,
            r.1 == SetCopies::AsPrinted,
    {
        SetName(owned(name), SetCopies::AsPrinted)
    }
}

/// The URL of a decklist on a deckbuilding site.
pub struct DecklistUrl(pub String);

/// One rarity slot of a booster pack.
#[derive(Clone, Debug, PartialEq, Eq)]
pub struct BoosterSlot {
    pub rarity: String,
    pub count: u32,
}

/// What one booster pack of a collectible game holds.
#[derive(Clone, Debug, PartialEq, Eq)]
pub struct BoosterSpec {
    pub slots: Vec<BoosterSlot>,
}

/// A game whose deckbuilding site publishes decklists. Fetching is the
/// caller's; the provider says which API request a user-facing decklist URL
/// stands for.
pub trait DecklistProvider {
    /// The API URL that returns the decklist `url` points at, or the error
    /// the site's URL shape calls for.
    fn decklist_api_url(&self, url: &str) -> Result<String, ProxyNexusError>;
}

} // verus!
