//! Printings, their sides, and the cards they expand to.
use vstd::prelude::*;
use crate::keyed::StrMap;
use crate::text::{decimal, i64_to_string, lemma_decimal_digits, owned, push_str, signed_decimal};

verus! {

/// Which scan of a side to prefer.
#[derive(Clone, Copy, PartialEq, Eq, Debug)]
pub enum BleedPreference {
    Bleed,
    NoBleed,
}

/// One image to print, and whether it already carries bleed.
#[derive(Clone, Debug, PartialEq)]
pub struct SourceImage {
    pub key: String,
    pub has_bleed: bool,
}

/// The scans of one side of a card.
#[derive(Debug, Clone, PartialEq)]
pub struct CardSide {
    pub image_key: Option<String>,
    pub bleed_image_key: Option<String>,
}

impl Default for CardSide {
    fn default() -> (r: CardSide)
        ensures
            r.image_key is None && r.bleed_image_key is None,
    {
        CardSide { image_key: None, bleed_image_key: None }
    }
}

/// One printing of a card in one collection.
#[derive(Debug, Clone, PartialEq)]
pub struct Printing {
    pub card_id: String,
    pub card_title: String,
    pub is_official: bool,
    pub variant: Option<String>,
    pub front: CardSide,
    pub backs: Vec<CardSide>,
    pub collection: String,
    /// `None` when the game adapter cannot classify this card's back; such a
    /// card prints with a blank reverse.
    pub back_group: Option<String>,
    pub pack_id: Option<String>,
    pub date_release: Option<String>,
    pub position: Option<i64>,
    pub linked_card_code: Option<String>,
    pub linked_card_name: Option<String>,
    pub linked_card_back_group: Option<String>,
}

/// The text of an optional string.
pub open spec fn opt_view(o: Option<String>) -> Option<Seq<char>> {
    match o {
        Some(s) => Some(s@),
        None => None,
    }
}

/// Two sides hold the same scans.
pub open spec fn same_side(a: CardSide, b: CardSide) -> bool {
    opt_view(a.image_key) == opt_view(b.image_key) && opt_view(a.bleed_image_key) == opt_view(
        b.bleed_image_key,
    )
}

/// Two printings agree field by field, as the derived `==` compares them.
pub open spec fn same_printing(a: Printing, b: Printing) -> bool {
    &&& a.card_id@ == b.card_id@
    &&& a.card_title@ == b.card_title@
    &&& a.is_official == b.is_official
    &&& opt_view(a.variant) == opt_view(b.variant)
    &&& same_side(a.front, b.front)
    &&& a.backs@.len() == b.backs@.len()
    &&& forall|i: int| 0 <= i < a.backs@.len() ==> same_side(a.backs@[i], b.backs@[i])
    &&& a.collection@ == b.collection@
    &&& opt_view(a.back_group) == opt_view(b.back_group)
    &&& opt_view(a.pack_id) == opt_view(b.pack_id)
    &&& opt_view(a.date_release) == opt_view(b.date_release)
    &&& a.position == b.position
    &&& opt_view(a.linked_card_code) == opt_view(b.linked_card_code)
    &&& opt_view(a.linked_card_name) == opt_view(b.linked_card_name)
    &&& opt_view(a.linked_card_back_group) == opt_view(b.linked_card_back_group)
}

/// A copy of an optional string.
pub fn clone_opt(o: &Option<String>) -> (r: Option<String>)
    ensures
        r == *o,
{
    match o {
        Some(s) => Some(s.clone()),
        None => None,
    }
}

/// Whether two optional strings hold the same text.
pub fn opt_eq(a: &Option<String>, b: &Option<String>) -> (r: bool)
    ensures
        r == (opt_view(*a) == opt_view(*b)),
{
    match (a, b) {
        (Some(x), Some(y)) => crate::text::str_eq(x.as_str(), y.as_str()),
        (None, None) => true,
        _ => false,
    }
}

impl CardSide {
    /// A copy of this side.
    pub fn duplicate(&self) -> (r: CardSide)
        ensures
            r == *self,
    {
        CardSide { image_key: clone_opt(&self.image_key), bleed_image_key: clone_opt(&self.bleed_image_key) }
    }

    /// Whether two sides hold the same scans.
    pub fn same_as(&self, other: &CardSide) -> (r: bool)
        ensures
            r == same_side(*self, *other),
    {
        opt_eq(&self.image_key, &other.image_key) && opt_eq(&self.bleed_image_key, &other.bleed_image_key)
    }

    /// The scan `image` picks for `preferred`.
    pub open spec fn image_spec(self, preferred: BleedPreference) -> Option<(Seq<char>, bool)> {
        let bleed = match self.bleed_image_key {
            Some(k) => Some((k@, true)),
            None => None,
        };
        let plain = match self.image_key {
            Some(k) => Some((k@, false)),
            None => None,
        };
        match preferred {
            BleedPreference::Bleed => if bleed is Some { bleed } else { plain },
            BleedPreference::NoBleed => if plain is Some { plain } else { bleed },
        }
    }

    /// The preferred scan of this side, falling back to the other one.
    pub fn image(&self, preferred: BleedPreference) -> (r: Option<SourceImage>)
        ensures
            match r {
                Some(img) => self.image_spec(preferred) == Some((img.key@, img.has_bleed)),
                None => self.image_spec(preferred) is None,
            },
    {
        let bleed = match &self.bleed_image_key {
            Some(key) => Some(SourceImage { key: key.clone(), has_bleed: true }),
            None => None,
        };
        let no_bleed = match &self.image_key {
            Some(key) => Some(SourceImage { key: key.clone(), has_bleed: false }),
            None => None,
        };
        match preferred {
            BleedPreference::Bleed => if bleed.is_some() {
                bleed
            } else {
                no_bleed
            },
            BleedPreference::NoBleed => if no_bleed.is_some() {
                no_bleed
            } else {
                bleed
            },
        }
    }
}

/// A copy of a list of sides.
pub fn clone_sides(v: &Vec<CardSide>) -> (r: Vec<CardSide>)
    ensures
        r@ == v@,
{
    let mut r: Vec<CardSide> = Vec::new();
    let mut i: usize = 0;
    while i < v.len()
        invariant
            i <= v.len(),
            r@ == v@.take(i as int),
        decreases v.len() - i,
    {
        r.push(v[i].duplicate());
        i = i + 1;
        assert(r@ =~= v@.take(i as int));
    }
    assert(v@.take(v.len() as int) =~= v@);
    r
}

/// The spelling `variant_key` gives the pack or variant of a printing.
pub open spec fn display_spec(p: Printing) -> Seq<char> {
    match p.pack_id {
        Some(pack) => pack@,
        None => match p.variant {
            Some(v) => v@,
            None => seq!['o', 'f', 'f', 'i', 'c', 'i', 'a', 'l'],
        },
    }
}

/// `{pack or variant or "official"}:{position}:{collection}`.
pub open spec fn variant_key_spec(p: Printing) -> Seq<char> {
    let position = match p.position {
        Some(pos) => signed_decimal(pos as int),
        None => Seq::<char>::empty(),
    };
    display_spec(p) + seq![':'] + position + seq![':'] + p.collection@
}

/// One physical card of a printing: the printing's front with one of its
/// backs, or with none.
#[derive(Debug, Clone, Copy, PartialEq)]
pub struct PrintedCard<'a> {
    pub printing: &'a Printing,
    pub front: &'a CardSide,
    pub back: Option<&'a CardSide>,
}

/// The cards one printing makes: one per back, or a single one without a back.
pub open spec fn cards_spec<'a>(p: &'a Printing) -> Seq<PrintedCard<'a>> {
    if p.backs@.len() == 0 {
        seq![PrintedCard { printing: p, front: &p.front, back: None }]
    } else {
        Seq::new(
            p.backs@.len(),
            |i: int| PrintedCard { printing: p, front: &p.front, back: Some(&p.backs@[i]) },
        )
    }
}

/// The cards printing `i` adds to the expansion of `ps`. A copy of the
/// printing just before it adds nothing when the printing has several backs:
/// its run of copies prints one set.
pub open spec fn contribution<'a>(ps: Seq<Printing>, i: int) -> Seq<(usize, PrintedCard<'a>)> {
    if i > 0 && same_printing(ps[i - 1], ps[i]) && ps[i].backs@.len() > 1 {
        Seq::empty()
    } else {
        cards_spec(&ps[i]).map_values(|c: PrintedCard<'a>| (i as usize, c))
    }
}

/// The cards of the first `k` printings of `ps`, each with its printing's index.
pub open spec fn expanded<'a>(ps: Seq<Printing>, k: int) -> Seq<(usize, PrintedCard<'a>)>
    decreases k,
{
    if k <= 0 {
        Seq::empty()
    } else {
        expanded(ps, k - 1) + contribution(ps, k - 1)
    }
}

/// `a` is a field-for-field copy of `b`.
pub open spec fn is_copy(a: Printing, b: Printing) -> bool {
    &&& a.card_id == b.card_id
    &&& a.card_title == b.card_title
    &&& a.is_official == b.is_official
    &&& a.variant == b.variant
    &&& a.front == b.front
    &&& a.backs@ == b.backs@
    &&& a.collection == b.collection
    &&& a.back_group == b.back_group
    &&& a.pack_id == b.pack_id
    &&& a.date_release == b.date_release
    &&& a.position == b.position
    &&& a.linked_card_code == b.linked_card_code
    &&& a.linked_card_name == b.linked_card_name
    &&& a.linked_card_back_group == b.linked_card_back_group
}

impl Printing {
    /// A copy of this printing.
    pub fn duplicate(&self) -> (r: Printing)
        ensures
            is_copy(r, *self),
    {
        Printing {
            card_id: self.card_id.clone(),
            card_title: self.card_title.clone(),
            is_official: self.is_official,
            variant: clone_opt(&self.variant),
            front: self.front.duplicate(),
            backs: clone_sides(&self.backs),
            collection: self.collection.clone(),
            back_group: clone_opt(&self.back_group),
            pack_id: clone_opt(&self.pack_id),
            date_release: clone_opt(&self.date_release),
            position: self.position,
            linked_card_code: clone_opt(&self.linked_card_code),
            linked_card_name: clone_opt(&self.linked_card_name),
            linked_card_back_group: clone_opt(&self.linked_card_back_group),
        }
    }

    /// Whether two printings agree field by field.
    pub fn same_as(&self, other: &Printing) -> (r: bool)
        ensures
            r == same_printing(*self, *other),
    {
        if !(self.card_id == other.card_id && self.card_title == other.card_title
            && self.is_official == other.is_official && opt_eq(&self.variant, &other.variant)
            && self.front.same_as(&other.front) && self.backs.len() == other.backs.len()
            && self.collection == other.collection && opt_eq(&self.back_group, &other.back_group)
            && opt_eq(&self.pack_id, &other.pack_id) && opt_eq(
            &self.date_release,
            &other.date_release,
        ) && self.position == other.position && opt_eq(
            &self.linked_card_code,
            &other.linked_card_code,
        ) && opt_eq(&self.linked_card_name, &other.linked_card_name) && opt_eq(
            &self.linked_card_back_group,
            &other.linked_card_back_group,
        )) {
            return false;
        }
        let mut i: usize = 0;
        while i < self.backs.len()
            invariant
                self.backs@.len() == other.backs@.len(),
                i <= self.backs@.len(),
                forall|j: int| 0 <= j < i ==> same_side(self.backs@[j], other.backs@[j]),
            decreases self.backs.len() - i,
        {
            if !self.backs[i].same_as(&other.backs[i]) {
                return false;
            }
            i = i + 1;
        }
        true
    }

    /// `{pack or variant or "official"}:{position}:{collection}`: what tells the
    /// printings of one title apart.
    pub fn variant_key(&self) -> (r: String)
        ensures
            r@ == variant_key_spec(*self),
    {
        let mut out = match &self.pack_id {
            Some(pack) => pack.clone(),
            None => match &self.variant {
                Some(v) => v.clone(),
                None => {
                    let s = owned("official");
                    proof {
                        reveal_strlit("official");
                    }
                    s
                },
            },
        };
        push_str(&mut out, ":");
        if let Some(pos) = self.position {
            let p = i64_to_string(pos);
            push_str(&mut out, p.as_str());
        }
        push_str(&mut out, ":");
        push_str(&mut out, self.collection.as_str());
        proof {
            reveal_strlit(":");
        }
        assert(out@ =~= variant_key_spec(*self));
        out
    }

    /// The cards this printing makes: one per back, or a single card with no
    /// back.
    pub fn cards(&self) -> (r: Vec<PrintedCard<'_>>)
        ensures
            r@ == cards_spec(self),
    {
        let mut r: Vec<PrintedCard<'_>> = Vec::new();
        if self.backs.len() == 0 {
            r.push(PrintedCard { printing: self, front: &self.front, back: None });
            assert(r@ =~= cards_spec(self));
            return r;
        }
        let mut i: usize = 0;
        while i < self.backs.len()
            invariant
                i <= self.backs@.len(),
                self.backs@.len() > 0,
                r@ == cards_spec(self).take(i as int),
            decreases self.backs.len() - i,
        {
            r.push(PrintedCard { printing: self, front: &self.front, back: Some(&self.backs[i]) });
            i = i + 1;
            assert(r@ =~= cards_spec(self).take(i as int));
        }
        assert(cards_spec(self).take(i as int) =~= cards_spec(self));
        r
    }
}

/// The cards to print, each with the index of the printing it came from. A
/// run of copies of one printing with several backs prints one card per
/// back, however many copies the run holds.
pub fn expand_to_cards(printings: &[Printing]) -> (r: Vec<(usize, PrintedCard<'_>)>)
    ensures
        r@ == expanded(printings@, printings@.len() as int),
{
    let mut r: Vec<(usize, PrintedCard<'_>)> = Vec::new();
    let mut i: usize = 0;
    while i < printings.len()
        invariant
            i <= printings@.len(),
            r@ == expanded(printings@, i as int),
        decreases printings.len() - i,
    {
        let p = &printings[i];
        let repeats = i > 0 && printings[i - 1].same_as(p) && p.backs.len() > 1;
        if !repeats {
            let cards = p.cards();
            let ghost base = r@;
            let mut j: usize = 0;
            while j < cards.len()
                invariant
                    i < printings@.len(),
                    j <= cards@.len(),
                    cards@ == cards_spec(&printings@[i as int]),
                    !(i > 0 && same_printing(printings@[i - 1], printings@[i as int])
                        && printings@[i as int].backs@.len() > 1),
                    r@ == base + contribution(printings@, i as int).take(j as int),
                decreases cards.len() - j,
            {
                r.push((i, cards[j]));
                j = j + 1;
                assert(r@ =~= base + contribution(printings@, i as int).take(j as int));
            }
            assert(contribution(printings@, i as int).take(j as int) =~= contribution(
                printings@,
                i as int,
            ));
        } else {
            assert(contribution(printings@, i as int) =~= Seq::<(usize, PrintedCard)>::empty());
            assert(r@ =~= r@ + contribution(printings@, i as int));
        }
        i = i + 1;
    }
    r
}

/// Copies of one printing with several backs print one card per back, however
/// many copies are asked for.
pub proof fn lemma_copies_of_multi_back_print_one_set(ps: Seq<Printing>, k: int)
    requires
        0 < k <= ps.len(),
        ps[0].backs@.len() > 1,
        forall|i: int| 0 < i < ps.len() ==> same_printing(#[trigger] ps[i - 1], ps[i]),
    ensures
        expanded(ps, k).len() == ps[0].backs@.len(),
    decreases k,
{
    if k > 1 {
        lemma_copies_of_multi_back_print_one_set(ps, k - 1);
        assert(same_printing(ps[k - 2], ps[k - 1]));
        assert(ps[k - 1].backs@.len() > 1) by {
            lemma_same_run_backs(ps, k - 1);
        }
    } else {
        assert(expanded(ps, 0).len() == 0);
    }
}

proof fn lemma_same_run_backs(ps: Seq<Printing>, k: int)
    requires
        0 <= k < ps.len(),
        forall|i: int| 0 < i < ps.len() ==> same_printing(#[trigger] ps[i - 1], ps[i]),
    ensures
        ps[k].backs@.len() == ps[0].backs@.len(),
    decreases k,
{
    if k > 0 {
        lemma_same_run_backs(ps, k - 1);
        assert(same_printing(ps[k - 1], ps[k]));
    }
}

/// A printing with at most one back prints once per copy asked for.
pub proof fn lemma_single_back_prints_each_copy(ps: Seq<Printing>, k: int)
    requires
        0 <= k <= ps.len(),
        forall|i: int| 0 <= i < ps.len() ==> (#[trigger] ps[i]).backs@.len() <= 1,
    ensures
        expanded(ps, k).len() == k,
    decreases k,
{
    if k > 0 {
        lemma_single_back_prints_each_copy(ps, k - 1);
        assert(ps[k - 1].backs@.len() <= 1);
    }
}

/// When no printing is a copy of the one before it, every printing prints all
/// of its cards: nothing is collapsed.
pub proof fn lemma_distinct_neighbours_never_collapse(ps: Seq<Printing>, k: int)
    requires
        0 <= k <= ps.len(),
        forall|i: int| 0 < i < ps.len() ==> !same_printing(#[trigger] ps[i - 1], ps[i]),
    ensures
        forall|i: int|
            0 <= i < k ==> #[trigger] contribution(ps, i).len() == cards_spec(&ps[i]).len(),
{
    assert forall|i: int| 0 <= i < k implies #[trigger] contribution(ps, i).len()
        == cards_spec(&ps[i]).len() by {
        if i > 0 {
            assert(!same_printing(ps[i - 1], ps[i]));
        }
    }
}

/// A request for one copy of a card.
#[derive(Debug, Clone, PartialEq)]
pub struct CardRequest {
    pub title: String,
    pub id: String,
    pub printing: Option<String>,
    pub collection: Option<String>,
    pub position: Option<i64>,
}

impl CardRequest {
    /// A copy of this request.
    pub fn duplicate(&self) -> (r: CardRequest)
        ensures
            r == *self,
    {
        CardRequest {
            title: self.title.clone(),
            id: self.id.clone(),
            printing: clone_opt(&self.printing),
            collection: clone_opt(&self.collection),
            position: self.position,
        }
    }
}

/// One line of a decklist fetched from a deckbuilding site.
#[derive(Debug, Clone)]
pub struct DecklistEntry {
    pub card_id: String,
    pub pack_id: Option<String>,
    pub quantity: u32,
    pub position: Option<i64>,
}

/// A decklist fetched from a deckbuilding site.
#[derive(Debug, Clone)]
pub struct Decklist {
    pub cards: Vec<DecklistEntry>,
}

/// Requests resolved against the catalog, and the names that were not found.
#[derive(Debug, Clone, PartialEq)]
pub struct ResolvedCardRequests {
    pub requests: Vec<CardRequest>,
    pub not_found: Vec<String>,
}

impl Default for ResolvedCardRequests {
    fn default() -> (r: ResolvedCardRequests)
        ensures
            r.requests@.len() == 0 && r.not_found@.len() == 0,
    {
        ResolvedCardRequests { requests: Vec::new(), not_found: Vec::new() }
    }
}

/// Chosen printings, every printing on offer per title, and the names that
/// were not found.
pub struct ResolvedPrintings {
    pub printings: Vec<Printing>,
    pub available_variants: StrMap<Vec<Printing>>,
    pub not_found: Vec<String>,
}

/// What a collection file says of itself: the game, its version and
/// language, when it was made, and the card-back labels its cards may not be
/// printed with.
#[derive(Debug, Clone, PartialEq)]
pub struct Manifest {
    pub game: String,
    pub version: String,
    pub language: String,
    pub generated_date: String,
    pub restricted_back_labels: Vec<String>,
}

proof fn lemma_signed_decimal_injective(a: int, b: int)
    requires
        signed_decimal(a) == signed_decimal(b),
    ensures
        a == b,
{
    if a < 0 {
        lemma_decimal_digits((-a) as nat);
    } else {
        lemma_decimal_digits(a as nat);
    }
    if b < 0 {
        lemma_decimal_digits((-b) as nat);
    } else {
        lemma_decimal_digits(b as nat);
    }
    if a < 0 && b < 0 {
        assert(signed_decimal(a).drop_first() =~= decimal((-a) as nat));
        assert(signed_decimal(b).drop_first() =~= decimal((-b) as nat));
    } else if a < 0 {
        assert(signed_decimal(a)[0] == '-');
    } else if b < 0 {
        assert(signed_decimal(b)[0] == '-');
    }
}

/// The variant key tells apart two printings of one card in one pack: where
/// pack (or variant) and collection agree, different positions give
/// different keys.
pub proof fn lemma_variant_key_tells_positions_apart(p: Printing, q: Printing)
    requires
        display_spec(p) == display_spec(q),
        p.collection@ == q.collection@,
        p.position != q.position,
    ensures
        variant_key_spec(p) != variant_key_spec(q),
{
    let pa = match p.position {
        Some(pos) => signed_decimal(pos as int),
        None => Seq::<char>::empty(),
    };
    let pb = match q.position {
        Some(pos) => signed_decimal(pos as int),
        None => Seq::<char>::empty(),
    };
    let d = display_spec(p);
    let c = p.collection@;
    let kp = variant_key_spec(p);
    let kq = variant_key_spec(q);
    assert(kp =~= d + seq![':'] + pa + seq![':'] + c);
    assert(kq =~= d + seq![':'] + pb + seq![':'] + c);
    if kp == kq {
        assert(pa.len() == pb.len());
        let lo: int = d.len() as int + 1;
        assert(kp.subrange(lo, lo + pa.len() as int) =~= pa);
        assert(kq.subrange(lo, lo + pb.len() as int) =~= pb);
        assert(pa == pb);
        match (p.position, q.position) {
            (Some(x), Some(y)) => {
                lemma_signed_decimal_injective(x as int, y as int);
            },
            (Some(x), None) => {
                if x < 0 {
                    lemma_decimal_digits((-x) as nat);
                } else {
                    lemma_decimal_digits(x as nat);
                }
            },
            (None, Some(y)) => {
                if y < 0 {
                    lemma_decimal_digits((-y) as nat);
                } else {
                    lemma_decimal_digits(y as nat);
                }
            },
            (None, None) => {},
        }
    }
}

} // verus!
