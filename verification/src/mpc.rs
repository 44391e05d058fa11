//! MakePlayingCards orders: which file goes in which slot, and the
//! `order.xml` the mpc-autofill desktop tool reads.
use vstd::prelude::*;
use crate::error::ProxyNexusError;
use crate::models::{expand_to_cards, expanded, opt_eq, opt_view, BleedPreference, CardSide, PrintedCard, Printing, SourceImage};
use crate::order::{insert_pos, lemma_sorted_by_len, seq_lt, sorted_by, str_lt};
use crate::text::{chars_of, decimal, owned, push_char, push_str, str_eq, u64_to_string};

verus! {

/// The card stocks MakePlayingCards offers.
#[derive(Clone, Copy, Debug, PartialEq, Eq)]
pub enum Cardstock {
    S27,
    S30,
    S33,
    M31,
    P10,
}

impl Default for Cardstock {
    fn default() -> (r: Cardstock)
        ensures
            r == Cardstock::S30,
    {
        Cardstock::S30
    }
}

/// How the autofill tool spells each stock.
pub open spec fn stock_spec(c: Cardstock) -> Seq<char> {
    match c {
        Cardstock::S27 => "(S27) Smooth"@,
        Cardstock::S30 => "(S30) Standard Smooth"@,
        Cardstock::S33 => "(S33) Superior Smooth"@,
        Cardstock::M31 => "(M31) Linen"@,
        Cardstock::P10 => "(P10) Plastic"@,
    }
}

impl Cardstock {
    /// Every stock.
    pub const ALL: [Cardstock; 5] = [
        Cardstock::S27,
        Cardstock::S30,
        Cardstock::S33,
        Cardstock::M31,
        Cardstock::P10,
    ];

    /// The stock as the autofill tool spells it.
    pub fn as_str(self) -> (r: &'static str)
        ensures
            r@ == stock_spec(self),
    {
        match self {
            Cardstock::S27 => "(S27) Smooth",
            Cardstock::S30 => "(S30) Standard Smooth",
            Cardstock::S33 => "(S33) Superior Smooth",
            Cardstock::M31 => "(M31) Linen",
            Cardstock::P10 => "(P10) Plastic",
        }
    }
}

/// What an order asks for.
#[derive(Clone, Debug, PartialEq)]
pub struct MpcOptions {
    pub upscale: bool,
    pub autofill: bool,
    /// The shared back to print where a card has no back image of its own.
    pub back_label: Option<String>,
    pub cardstock: Cardstock,
    /// Whether the zip carries the manifest as CSV and JSON too.
    pub include_manifest: bool,
}

impl Default for MpcOptions {
    fn default() -> (r: MpcOptions)
        ensures
            !r.upscale && !r.autofill && r.back_label is None && r.cardstock == Cardstock::S30
                && !r.include_manifest,
    {
        MpcOptions {
            upscale: false,
            autofill: false,
            back_label: None,
            cardstock: Cardstock::S30,
            include_manifest: false,
        }
    }
}

/// Which file fills which slot: fronts, cards' own backs, and shared backs
/// by file name.
#[derive(Clone, Debug, PartialEq)]
pub struct OrderPlan {
    pub fronts: Vec<(String, usize)>,
    pub backs: Vec<(String, usize)>,
    pub shared: Vec<(String, usize)>,
}

impl Default for OrderPlan {
    fn default() -> (r: OrderPlan)
        ensures
            r.fronts@.len() == 0 && r.backs@.len() == 0 && r.shared@.len() == 0,
    {
        OrderPlan { fronts: Vec::new(), backs: Vec::new(), shared: Vec::new() }
    }
}

/// A character as XML text spells it.
pub open spec fn escape_char(c: char) -> Seq<char> {
    if c == '&' {
        "&amp;"@
    } else if c == '<' {
        "&lt;"@
    } else if c == '>' {
        "&gt;"@
    } else if c == '"' {
        "&quot;"@
    } else {
        seq![c]
    }
}

/// Text with `&`, `<`, `>` and `"` spelled as XML entities.
pub open spec fn escape_spec(s: Seq<char>) -> Seq<char>
    decreases s.len(),
{
    if s.len() == 0 {
        Seq::empty()
    } else {
        escape_spec(s.drop_last()) + escape_char(s.last())
    }
}

fn push_escaped(out: &mut String, text: &str)
    ensures
        final(out)@ == old(out)@ + escape_spec(text@),
{
    let v = chars_of(text);
    let ghost start = out@;
    let mut i: usize = 0;
    while i < v.len()
        invariant
            i <= v@.len(),
            v@ == text@,
            out@ == start + escape_spec(v@.take(i as int)),
        decreases v.len() - i,
    {
        let c = v[i];
        assert(v@.take(i + 1).drop_last() =~= v@.take(i as int));
        if c == '&' {
            push_str(out, "&amp;");
        } else if c == '<' {
            push_str(out, "&lt;");
        } else if c == '>' {
            push_str(out, "&gt;");
        } else if c == '"' {
            push_str(out, "&quot;");
        } else {
            push_char(out, c);
        }
        i = i + 1;
        assert(out@ =~= start + escape_spec(v@.take(i as int)));
    }
    assert(v@.take(i as int) =~= text@);
}

/// Text with `&`, `<`, `>` and `"` spelled as XML entities.
pub fn escape(text: &str) -> (r: String)
    ensures
        r@ == escape_spec(text@),
{
    let mut out = String::new();
    push_escaped(&mut out, text);
    assert(out@ =~= escape_spec(text@));
    out
}

/// Slot numbers joined by `,`.
pub open spec fn slots_text(slots: Seq<usize>) -> Seq<char>
    decreases slots.len(),
{
    if slots.len() == 0 {
        Seq::empty()
    } else if slots.len() == 1 {
        decimal(slots[0] as nat)
    } else {
        slots_text(slots.drop_last()) + seq![','] + decimal(slots.last() as nat)
    }
}

/// What follows the last `/` of a path, or the whole path.
pub open spec fn file_name_spec(path: Seq<char>) -> Seq<char>
    decreases path.len(),
{
    if path.len() == 0 {
        Seq::empty()
    } else if path.last() == '/' {
        Seq::empty()
    } else {
        file_name_spec(path.drop_last()).push(path.last())
    }
}

/// The `<card>` element naming `path` for `slots`.
pub open spec fn card_xml(path: Seq<char>, slots: Seq<usize>) -> Seq<char> {
    let a = "    <card>\n"@ + "      <id>"@;
    let b = a + escape_spec("./"@ + path);
    let c = b + "</id>\n"@ + "      <sourceType>Local File</sourceType>\n"@ + "      <slots>"@;
    let d = c + slots_text(slots) + "</slots>\n"@ + "      <name>"@;
    d + escape_spec(file_name_spec(path)) + "</name>\n"@ + "    </card>\n"@
}

fn push_slots(out: &mut String, slots: &Vec<usize>)
    ensures
        final(out)@ == old(out)@ + slots_text(slots@),
{
    let ghost start = out@;
    let mut i: usize = 0;
    while i < slots.len()
        invariant
            i <= slots@.len(),
            out@ == start + slots_text(slots@.take(i as int)),
        decreases slots.len() - i,
    {
        if i > 0 {
            push_char(out, ',');
        }
        let n = u64_to_string(slots[i] as u64);
        push_str(out, n.as_str());
        proof {
            let t = slots@.take(i + 1);
            assert(t.drop_last() =~= slots@.take(i as int));
            if i == 0 {
                assert(slots_text(slots@.take(0)) =~= Seq::<char>::empty());
            }
        }
        i = i + 1;
        assert(out@ =~= start + slots_text(slots@.take(i as int)));
    }
    assert(slots@.take(i as int) =~= slots@);
}

fn file_name_of(path: &str) -> (r: Vec<char>)
    ensures
        r@ == file_name_spec(path@),
{
    let v = chars_of(path);
    let mut start: usize = v.len();
    assert(v@.take(v@.len() as int) =~= v@);
    assert(v@.subrange(v@.len() as int, v@.len() as int) =~= Seq::<char>::empty());
    while start > 0 && v[start - 1] != '/'
        invariant
            start <= v@.len(),
            v@ == path@,
            file_name_spec(path@) == file_name_spec(v@.take(start as int)) + v@.subrange(start as int, v@.len() as int),
        decreases start,
    {
        assert(v@.take(start as int).drop_last() =~= v@.take(start - 1));
        assert(v@.subrange(start - 1, v@.len() as int) =~= seq![v@[start - 1]] + v@.subrange(start as int, v@.len() as int));
        start = start - 1;
    }
    assert(file_name_spec(v@.take(start as int)) =~= Seq::<char>::empty());
    assert(file_name_spec(path@) =~= v@.subrange(start as int, v@.len() as int));
    crate::text::slice_of(&v, start, v.len())
}

/// Appends the `<card>` element naming `path` for `slots`.
pub fn push_card(xml: &mut String, path: &str, slots: &Vec<usize>)
    ensures
        final(xml)@ == old(xml)@ + card_xml(path@, slots@),
{
    let ghost start = xml@;
    push_str(xml, "    <card>\n");
    push_str(xml, "      <id>");
    let mut id = owned("./");
    push_str(&mut id, path);
    push_escaped(xml, id.as_str());
    push_str(xml, "</id>\n");
    push_str(xml, "      <sourceType>Local File</sourceType>\n");
    push_str(xml, "      <slots>");
    push_slots(xml, slots);
    push_str(xml, "</slots>\n");
    push_str(xml, "      <name>");
    let name = file_name_of(path);
    let name_text = crate::text::string_of(&name);
    push_escaped(xml, name_text.as_str());
    push_str(xml, "</name>\n");
    push_str(xml, "    </card>\n");
    assert(xml@ =~= start + card_xml(path@, slots@));
}

/// `inner` wrapped in `<{tag}>`, or nothing when `inner` is empty.
pub open spec fn face_xml(tag: Seq<char>, inner: Seq<char>) -> Seq<char> {
    if inner.len() == 0 {
        Seq::empty()
    } else {
        "  <"@ + tag + ">\n"@ + inner + "  </"@ + tag + ">\n"@
    }
}

/// Appends `inner` wrapped in `<{tag}>`, unless `inner` is empty.
pub fn push_face(xml: &mut String, tag: &str, inner: &String)
    ensures
        final(xml)@ == old(xml)@ + face_xml(tag@, inner@),
{
    let ghost start = xml@;
    if inner.as_str().unicode_len() > 0 {
        push_str(xml, "  <");
        push_str(xml, tag);
        push_str(xml, ">\n");
        push_str(xml, inner.as_str());
        push_str(xml, "  </");
        push_str(xml, tag);
        push_str(xml, ">\n");
        assert(xml@ =~= start + face_xml(tag@, inner@));
    } else {
        assert(xml@ =~= start + face_xml(tag@, inner@));
    }
}

/// Where `file` goes among sorted groups: after every file sorting before it.
pub open spec fn lower_bound(groups: Seq<(Seq<char>, Seq<usize>)>, file: Seq<char>) -> int
    decreases groups.len(),
{
    if groups.len() == 0 {
        0
    } else if seq_lt(groups[0].0, file) {
        1 + lower_bound(groups.drop_first(), file)
    } else {
        0
    }
}

/// `slot` added under `file` to groups kept in file order, as a sorted map
/// from file to slots does it.
pub open spec fn group_into(groups: Seq<(Seq<char>, Seq<usize>)>, file: Seq<char>, slot: usize) -> Seq<(Seq<char>, Seq<usize>)> {
    let p = lower_bound(groups, file);
    if p < groups.len() && groups[p].0 == file {
        groups.update(p, (file, groups[p].1.push(slot)))
    } else {
        groups.insert(p, (file, seq![slot]))
    }
}

/// The first `n` shared backs grouped by file, in file order, each file's
/// slots in the order given.
pub open spec fn grouped(shared: Seq<(Seq<char>, usize)>, n: int) -> Seq<(Seq<char>, Seq<usize>)>
    decreases n,
{
    if n <= 0 {
        Seq::empty()
    } else {
        group_into(grouped(shared, n - 1), shared[n - 1].0, shared[n - 1].1)
    }
}

/// The texts of (file, slot) pairs.
pub open spec fn pairs_view(v: Seq<(String, usize)>) -> Seq<(Seq<char>, usize)> {
    v.map_values(|e: (String, usize)| (e.0@, e.1))
}

/// The texts of groups.
pub open spec fn groups_view(g: Seq<(String, Vec<usize>)>) -> Seq<(Seq<char>, Seq<usize>)> {
    g.map_values(|e: (String, Vec<usize>)| (e.0@, e.1@))
}

proof fn lemma_lower_bound(groups: Seq<(Seq<char>, Seq<usize>)>, file: Seq<char>)
    ensures
        0 <= lower_bound(groups, file) <= groups.len(),
        forall|i: int| 0 <= i < lower_bound(groups, file) ==> seq_lt(#[trigger] groups[i].0, file),
        lower_bound(groups, file) < groups.len() ==> !seq_lt(groups[lower_bound(groups, file)].0, file),
    decreases groups.len(),
{
    if groups.len() > 0 && seq_lt(groups[0].0, file) {
        lemma_lower_bound(groups.drop_first(), file);
        assert forall|i: int| 0 <= i < lower_bound(groups, file) implies seq_lt(#[trigger] groups[i].0, file) by {
            if i > 0 {
                assert(groups[i] == groups.drop_first()[i - 1]);
            }
        }
    }
}

/// The shared backs grouped by file, in file order.
pub fn group_shared(shared: &Vec<(String, usize)>) -> (r: Vec<(String, Vec<usize>)>)
    ensures
        groups_view(r@) == grouped(pairs_view(shared@), shared@.len() as int),
{
    let mut groups: Vec<(String, Vec<usize>)> = Vec::new();
    let mut i: usize = 0;
    assert(groups_view(groups@) =~= grouped(pairs_view(shared@), 0));
    while i < shared.len()
        invariant
            i <= shared@.len(),
            groups_view(groups@) == grouped(pairs_view(shared@), i as int),
        decreases shared.len() - i,
    {
        let file = &shared[i].0;
        let slot = shared[i].1;
        let ghost g = groups_view(groups@);
        let mut p: usize = 0;
        assert(g.skip(0) =~= g);
        while p < groups.len() && str_lt(groups[p].0.as_str(), file.as_str())
            invariant
                p <= groups@.len(),
                g == groups_view(groups@),
                lower_bound(g, file@) == p + lower_bound(g.skip(p as int), file@),
            decreases groups.len() - p,
        {
            assert(g.skip(p as int).drop_first() =~= g.skip(p + 1));
            p = p + 1;
        }
        proof {
            if p < groups@.len() {
                assert(g.skip(p as int)[0] == g[p as int]);
            }
        }
        if p < groups.len() && str_eq(groups[p].0.as_str(), file.as_str()) {
            let mut e = groups.remove(p);
            e.1.push(slot);
            let ghost ev = (e.0@, e.1@);
            groups.insert(p, e);
            proof {
                assert(groups_view(groups@) =~= g.update(p as int, ev));
            }
        } else {
            let mut v: Vec<usize> = Vec::new();
            v.push(slot);
            let ghost ev = (file@, v@);
            assert(v@ =~= seq![slot]);
            groups.insert(p, (file.clone(), v));
            proof {
                assert(groups_view(groups@) =~= g.insert(p as int, ev));
            }
        }
        i = i + 1;
    }
    groups
}

/// The group covering the most slots, the last of those tied; none when
/// there are no groups.
pub open spec fn last_max(groups: Seq<(Seq<char>, Seq<usize>)>, n: int) -> int
    decreases n,
{
    if n <= 1 {
        0
    } else {
        let b = last_max(groups, n - 1);
        if groups[n - 1].1.len() >= groups[b].1.len() {
            n - 1
        } else {
            b
        }
    }
}

/// The shared back that becomes the order's common card back.
pub open spec fn common_index(groups: Seq<(Seq<char>, Seq<usize>)>) -> Option<int> {
    if groups.len() == 0 {
        None
    } else {
        Some(last_max(groups, groups.len() as int))
    }
}

proof fn lemma_last_max_bounded(groups: Seq<(Seq<char>, Seq<usize>)>, n: int)
    requires
        1 <= n,
    ensures
        0 <= last_max(groups, n) < n,
    decreases n,
{
    if n > 1 {
        lemma_last_max_bounded(groups, n - 1);
    }
}

fn find_common(groups: &Vec<(String, Vec<usize>)>) -> (r: Option<usize>)
    ensures
        match r {
            Some(k) => common_index(groups_view(groups@)) == Some(k as int) && k < groups@.len(),
            None => common_index(groups_view(groups@)) is None,
        },
{
    if groups.len() == 0 {
        return None;
    }
    let ghost g = groups_view(groups@);
    let mut best: usize = 0;
    let mut i: usize = 1;
    while i < groups.len()
        invariant
            1 <= i <= groups@.len(),
            g == groups_view(groups@),
            best as int == last_max(g, i as int),
            best < i,
        decreases groups.len() - i,
    {
        if groups[i].1.len() >= groups[best].1.len() {
            best = i;
        }
        i = i + 1;
    }
    Some(best)
}

/// The `<card>` elements of fronts or own backs, one slot each.
pub open spec fn singles_xml(items: Seq<(String, usize)>, n: int) -> Seq<char>
    decreases n,
{
    if n <= 0 {
        Seq::empty()
    } else {
        singles_xml(items, n - 1) + card_xml(items[n - 1].0@, seq![items[n - 1].1])
    }
}

/// The `<card>` elements of the shared backs other than the common one.
pub open spec fn shared_xml(groups: Seq<(Seq<char>, Seq<usize>)>, common: Option<int>, n: int) -> Seq<char>
    decreases n,
{
    if n <= 0 {
        Seq::empty()
    } else {
        shared_xml(groups, common, n - 1) + if common == Some(n - 1) {
            Seq::empty()
        } else {
            card_xml(groups[n - 1].0, groups[n - 1].1)
        }
    }
}

/// The head of `order.xml`: quantity, stock, no foil.
pub open spec fn details_xml(quantity: usize, stock: Cardstock) -> Seq<char> {
    let a = "<order>\n  <details>\n"@ + "    <quantity>"@ + decimal(quantity as nat) + "</quantity>\n"@;
    a + "    <stock>"@ + escape_spec(stock_spec(stock)) + "</stock>\n"@ + "    <foil>false</foil>\n"@ + "  </details>\n"@
}

/// The `order.xml` of a plan.
pub open spec fn order_xml_spec(quantity: usize, stock: Cardstock, plan: OrderPlan) -> Seq<char> {
    let groups = grouped(pairs_view(plan.shared@), plan.shared@.len() as int);
    let common = common_index(groups);
    let fronts = singles_xml(plan.fronts@, plan.fronts@.len() as int);
    let backs = singles_xml(plan.backs@, plan.backs@.len() as int) + shared_xml(groups, common, groups.len() as int);
    let body = details_xml(quantity, stock) + face_xml("fronts"@, fronts) + face_xml("backs"@, backs);
    let cardback = match common {
        Some(k) => escape_spec("./"@ + groups[k].0),
        None => Seq::empty(),
    };
    body + "  <cardback>"@ + cardback + "</cardback>\n</order>\n"@
}

fn push_singles(out: &mut String, items: &Vec<(String, usize)>)
    ensures
        final(out)@ == old(out)@ + singles_xml(items@, items@.len() as int),
{
    let ghost start = out@;
    let mut i: usize = 0;
    while i < items.len()
        invariant
            i <= items@.len(),
            out@ == start + singles_xml(items@, i as int),
        decreases items.len() - i,
    {
        let mut slots: Vec<usize> = Vec::new();
        slots.push(items[i].1);
        assert(slots@ =~= seq![items@[i as int].1]);
        push_card(out, items[i].0.as_str(), &slots);
        i = i + 1;
        assert(out@ =~= start + singles_xml(items@, i as int));
    }
}

/// The `order.xml` the mpc-autofill desktop tool reads, for `quantity`
/// cards. Paths are relative to the directory the zip is extracted into. The
/// shared back covering the most slots becomes the common card back, filled
/// into every slot no other back claims, and is not listed among the backs.
pub fn build_order_xml(quantity: usize, cardstock: Cardstock, plan: &OrderPlan) -> (r: String)
    ensures
        r@ == order_xml_spec(quantity, cardstock, *plan),
{
    let groups = group_shared(&plan.shared);
    let common = find_common(&groups);
    let ghost g = groups_view(groups@);
    let mut xml = owned("<order>\n  <details>\n");
    push_str(&mut xml, "    <quantity>");
    let q = u64_to_string(quantity as u64);
    push_str(&mut xml, q.as_str());
    push_str(&mut xml, "</quantity>\n");
    push_str(&mut xml, "    <stock>");
    push_escaped(&mut xml, cardstock.as_str());
    push_str(&mut xml, "</stock>\n");
    push_str(&mut xml, "    <foil>false</foil>\n");
    push_str(&mut xml, "  </details>\n");
    assert(xml@ =~= details_xml(quantity, cardstock));
    let mut fronts = String::new();
    push_singles(&mut fronts, &plan.fronts);
    assert(fronts@ =~= singles_xml(plan.fronts@, plan.fronts@.len() as int));
    push_face(&mut xml, "fronts", &fronts);
    let mut backs = String::new();
    push_singles(&mut backs, &plan.backs);
    let ghost own = backs@;
    let mut k: usize = 0;
    while k < groups.len()
        invariant
            k <= groups@.len(),
            g == groups_view(groups@),
            backs@ == own + shared_xml(g, common_index(g), k as int),
            match common {
                Some(c) => common_index(g) == Some(c as int),
                None => common_index(g) is None,
            },
        decreases groups.len() - k,
    {
        let is_common = match common {
            Some(c) => c == k,
            None => false,
        };
        if !is_common {
            push_card(&mut backs, groups[k].0.as_str(), &groups[k].1);
        }
        k = k + 1;
        assert(backs@ =~= own + shared_xml(g, common_index(g), k as int));
    }
    assert(backs@ =~= singles_xml(plan.backs@, plan.backs@.len() as int) + shared_xml(g, common_index(g), g.len() as int));
    push_face(&mut xml, "backs", &backs);
    push_str(&mut xml, "  <cardback>");
    if let Some(c) = common {
        let mut file = owned("./");
        push_str(&mut file, groups[c].0.as_str());
        push_escaped(&mut xml, file.as_str());
    }
    push_str(&mut xml, "</cardback>\n</order>\n");
    assert(xml@ =~= order_xml_spec(quantity, cardstock, *plan));
    xml
}

/// The back group a printing is ordered under: its own, or `unclassified`
/// when the adapter could not classify it.
pub open spec fn group_key(p: Printing) -> Seq<char> {
    match p.back_group {
        Some(g) => g@,
        None => "unclassified"@,
    }
}

/// Each printing's group key with its index.
pub open spec fn keyed_printings(ps: Seq<Printing>) -> Seq<(Seq<char>, usize)> {
    Seq::new(ps.len(), |i: int| (group_key(ps[i]), i as usize))
}

/// The printings of an order grouped by back group: groups in key order,
/// each group's printing indices in order.
pub fn group_by_back(printings: &[Printing]) -> (r: Vec<(String, Vec<usize>)>)
    ensures
        groups_view(r@) == grouped(keyed_printings(printings@), printings@.len() as int),
{
    let mut keyed: Vec<(String, usize)> = Vec::new();
    let mut i: usize = 0;
    while i < printings.len()
        invariant
            i <= printings@.len(),
            keyed@.map_values(|e: (String, usize)| (e.0@, e.1)) == keyed_printings(printings@).take(i as int),
        decreases printings.len() - i,
    {
        let key = match &printings[i].back_group {
            Some(g) => g.clone(),
            None => owned("unclassified"),
        };
        assert(key@ == group_key(printings@[i as int]));
        let ghost before = keyed@;
        keyed.push((key, i));
        proof {
            crate::seqs::lemma_push_map(before, keyed@.last(), |e: (String, usize)| (e.0@, e.1));
            assert(keyed@ == before.push(keyed@.last()));
            assert(keyed_printings(printings@).take(i + 1) =~= keyed_printings(printings@).take(i as int).push(keyed_printings(printings@)[i as int]));
        }
        i = i + 1;
        assert(keyed@.map_values(|e: (String, usize)| (e.0@, e.1)) =~= keyed_printings(printings@).take(i as int));
    }
    assert(keyed_printings(printings@).take(i as int) =~= keyed_printings(printings@));
    assert(pairs_view(keyed@) =~= keyed_printings(printings@));
    group_shared(&keyed)
}

/// The folder a group's images go in: `card-images` when the order has one
/// group, else `{group}-images`.
pub fn folder_name(group: &str, single_group: bool) -> (r: String)
    ensures
        r@ == if single_group {
            "card-images"@
        } else {
            group@ + "-images"@
        },
{
    if single_group {
        owned("card-images")
    } else {
        let mut f = owned(group);
        push_str(&mut f, "-images");
        f
    }
}

/// The number of cards an order prints and of images they take: a front
/// each, and a back for each card with one.
pub open spec fn image_count(cards: Seq<(usize, PrintedCard)>, n: int) -> int
    decreases n,
{
    if n <= 0 {
        0
    } else {
        image_count(cards, n - 1) + if cards[n - 1].1.back is Some {
            2int
        } else {
            1int
        }
    }
}

proof fn lemma_image_count_bounded(cards: Seq<(usize, PrintedCard)>, n: int)
    requires
        0 <= n,
    ensures
        n <= image_count(cards, n) <= 2 * n,
    decreases n,
{
    if n > 0 {
        lemma_image_count_bounded(cards, n - 1);
    }
}

/// How many cards an order prints and how many images they take.
pub fn order_counts(printings: &[Printing]) -> (r: (usize, usize))
    requires
        2 * expanded(printings@, printings@.len() as int).len() <= usize::MAX,
    ensures
        r.0 == expanded(printings@, printings@.len() as int).len(),
        r.1 == image_count(expanded(printings@, printings@.len() as int), r.0 as int),
{
    let cards = expand_to_cards(printings);
    let mut images: usize = 0;
    let mut i: usize = 0;
    while i < cards.len()
        invariant
            i <= cards@.len(),
            2 * cards@.len() <= usize::MAX,
            images == image_count(cards@, i as int),
        decreases cards.len() - i,
    {
        proof {
            lemma_image_count_bounded(cards@, i + 1);
        }
        if cards[i].1.back.is_some() {
            images = images + 2;
        } else {
            images = images + 1;
        }
        i = i + 1;
    }
    (cards.len(), images)
}

/// What tells copies of one card apart in file names: its collection, card
/// and variant.
pub open spec fn copy_key(p: Printing) -> (Seq<char>, Seq<char>, Option<Seq<char>>) {
    (p.collection@, p.card_id@, opt_view(p.variant))
}

/// How many of cards `0..=k` are copies of card `k`: the copy number card
/// `k`'s files carry.
pub open spec fn copy_number(cards: Seq<(usize, PrintedCard)>, k: int, n: int) -> nat
    decreases n,
{
    if n <= 0 {
        0
    } else {
        copy_number(cards, k, n - 1) + if copy_key(*cards[n - 1].1.printing) == copy_key(*cards[k].1.printing) {
            1nat
        } else {
            0nat
        }
    }
}

/// One image a card needs: its printing's index, `front` or `back`, the
/// scan, the card's copy number and its slot.
#[derive(Debug, Clone)]
pub struct ImageRequest {
    pub printing: usize,
    pub side_name: String,
    pub source: SourceImage,
    pub copy_num: usize,
    pub slot: usize,
}

/// The texts of a request.
pub open spec fn request_view(r: ImageRequest) -> (usize, Seq<char>, (Seq<char>, bool), usize, usize) {
    (r.printing, r.side_name@, (r.source.key@, r.source.has_bleed), r.copy_num, r.slot)
}

/// The requests card `k` makes: its front's scan, preferring bleed, then its
/// back's, each when there is one.
pub open spec fn card_requests(cards: Seq<(usize, PrintedCard)>, offset: usize, k: int) -> Seq<(usize, Seq<char>, (Seq<char>, bool), usize, usize)> {
    let card = cards[k].1;
    let copy = copy_number(cards, k, k + 1) as usize;
    let slot = (offset + k) as usize;
    let front = match card.front.image_spec(BleedPreference::Bleed) {
        Some(img) => seq![(cards[k].0, "front"@, img, copy, slot)],
        None => Seq::empty(),
    };
    let back = match card.back {
        Some(b) => match b.image_spec(BleedPreference::Bleed) {
            Some(img) => seq![(cards[k].0, "back"@, img, copy, slot)],
            None => Seq::empty(),
        },
        None => Seq::empty(),
    };
    front + back
}

/// The requests of the first `n` cards.
pub open spec fn requests_spec(cards: Seq<(usize, PrintedCard)>, offset: usize, n: int) -> Seq<(usize, Seq<char>, (Seq<char>, bool), usize, usize)>
    decreases n,
{
    if n <= 0 {
        Seq::empty()
    } else {
        requests_spec(cards, offset, n - 1) + card_requests(cards, offset, n - 1)
    }
}

fn same_copy(a: &Printing, b: &Printing) -> (r: bool)
    ensures
        r == (copy_key(*a) == copy_key(*b)),
{
    str_eq(a.collection.as_str(), b.collection.as_str()) && str_eq(a.card_id.as_str(), b.card_id.as_str()) && opt_eq(&a.variant, &b.variant)
}

proof fn lemma_copy_number_bounded(cards: Seq<(usize, PrintedCard)>, k: int, n: int)
    requires
        0 <= n,
    ensures
        copy_number(cards, k, n) <= n,
    decreases n,
{
    if n > 0 {
        lemma_copy_number_bounded(cards, k, n - 1);
    }
}

/// The images a group's cards need, card by card, with the slots they fill
/// from `slot_offset` on.
pub fn plan_requests(printings: &[Printing], slot_offset: usize) -> (r: Vec<ImageRequest>)
    requires
        slot_offset + expanded(printings@, printings@.len() as int).len() <= usize::MAX,
    ensures
        r@.map_values(|q: ImageRequest| request_view(q)) == requests_spec(
            expanded(printings@, printings@.len() as int),
            slot_offset,
            expanded(printings@, printings@.len() as int).len() as int,
        ),
{
    let cards = expand_to_cards(printings);
    let mut out: Vec<ImageRequest> = Vec::new();
    let mut k: usize = 0;
    while k < cards.len()
        invariant
            k <= cards@.len(),
            slot_offset + cards@.len() <= usize::MAX,
            out@.map_values(|q: ImageRequest| request_view(q)) == requests_spec(cards@, slot_offset, k as int),
        decreases cards.len() - k,
    {
        let card = &cards[k].1;
        let mut copy: usize = 0;
        let mut j: usize = 0;
        while j <= k
            invariant
                k < cards@.len(),
                slot_offset + cards@.len() <= usize::MAX,
                j <= k + 1,
                copy == copy_number(cards@, k as int, j as int),
                copy <= j,
            decreases k + 1 - j,
        {
            proof {
                lemma_copy_number_bounded(cards@, k as int, j + 1);
            }
            if same_copy(cards[j].1.printing, cards[k].1.printing) {
                copy = copy + 1;
            }
            j = j + 1;
        }
        let slot = slot_offset + k;
        let ghost before = out@.map_values(|q: ImageRequest| request_view(q));
        if let Some(source) = card.front.image(BleedPreference::Bleed) {
            out.push(ImageRequest { printing: cards[k].0, side_name: owned("front"), source, copy_num: copy, slot });
        }
        let ghost mid = out@.map_values(|q: ImageRequest| request_view(q));
        if let Some(back) = card.back {
            if let Some(source) = back.image(BleedPreference::Bleed) {
                out.push(ImageRequest { printing: cards[k].0, side_name: owned("back"), source, copy_num: copy, slot });
            }
        }
        proof {
            reveal_strlit("front");
            reveal_strlit("back");
            assert(out@.map_values(|q: ImageRequest| request_view(q)) =~= before + card_requests(cards@, slot_offset, k as int));
        }
        k = k + 1;
    }
    out
}

/// The name of a request's file: `{folder}/{card}-{variant or official}-
/// {collection}-{copy}[-{side}].{ext}`, the side spelled out for backs only.
pub open spec fn image_file_spec(folder: Seq<char>, p: Printing, side: Seq<char>, copy: usize, ext: Seq<char>) -> Seq<char> {
    let variant = match p.variant {
        Some(v) => v@,
        None => "official"@,
    };
    let a = folder + "/"@ + p.card_id@ + "-"@ + variant + "-"@ + p.collection@ + "-"@ + decimal(copy as nat);
    let b = if side == "front"@ {
        a
    } else {
        a + "-"@ + side
    };
    b + "."@ + ext
}

/// The name of a request's file in the zip.
pub fn image_file_name(folder: &str, p: &Printing, side: &str, copy: usize, ext: &str) -> (r: String)
    ensures
        r@ == image_file_spec(folder@, *p, side@, copy, ext@),
        side@ != "front"@ ==> r@.skip(r@.len() - (side@.len() + ext@.len() + 2)) == "-"@ + side@ + "."@ + ext@,
{
    proof {
        if side@ != "front"@ {
            lemma_side_files_are_apart(folder@, *p, side@, copy, ext@);
            reveal_strlit("-");
            reveal_strlit(".");
        }
    }
    let mut f = owned(folder);
    push_str(&mut f, "/");
    push_str(&mut f, p.card_id.as_str());
    push_str(&mut f, "-");
    match &p.variant {
        Some(v) => push_str(&mut f, v.as_str()),
        None => push_str(&mut f, "official"),
    }
    push_str(&mut f, "-");
    push_str(&mut f, p.collection.as_str());
    push_str(&mut f, "-");
    let n = u64_to_string(copy as u64);
    push_str(&mut f, n.as_str());
    if !str_eq(side, "front") {
        push_str(&mut f, "-");
        push_str(&mut f, side);
    }
    push_str(&mut f, ".");
    push_str(&mut f, ext);
    f
}

/// The file of a side other than the front is the front's file name with
/// `-{side}` put before the extension: it ends with `-{side}.{ext}`, and so
/// never has the name of the same copy's front.
pub proof fn lemma_side_files_are_apart(folder: Seq<char>, p: Printing, side: Seq<char>, copy: usize, ext: Seq<char>)
    requires
        side != "front"@,
    ensures
        ({
            let front = image_file_spec(folder, p, "front"@, copy, ext);
            let named = image_file_spec(folder, p, side, copy, ext);
            let tail = "-"@ + side + "."@ + ext;
            &&& named.len() == front.len() + side.len() + 1
            &&& named.skip(named.len() - tail.len()) == tail
            &&& named.take(front.len() - ext.len() - 1) == front.take(front.len() - ext.len() - 1)
            &&& front.skip(front.len() - ext.len() - 1) == "."@ + ext
            &&& named != front
        }),
{
    reveal_strlit("-");
    reveal_strlit(".");
    reveal_strlit("front");
    let front = image_file_spec(folder, p, "front"@, copy, ext);
    let named = image_file_spec(folder, p, side, copy, ext);
    let tail = "-"@ + side + "."@ + ext;
    let variant = match p.variant {
        Some(v) => v@,
        None => "official"@,
    };
    let a = folder + "/"@ + p.card_id@ + "-"@ + variant + "-"@ + p.collection@ + "-"@ + decimal(copy as nat);
    assert(front == a + "."@ + ext);
    assert(named == a + "-"@ + side + "."@ + ext);
    assert(named =~= a + tail);
    assert(named.skip(named.len() - tail.len()) =~= tail);
    assert(named.take(front.len() - ext.len() - 1) =~= a);
    assert(front.take(front.len() - ext.len() - 1) =~= a);
    assert(front.skip(front.len() - ext.len() - 1) =~= "."@ + ext);
}

/// The shared-back slots of a group: with a shared back file, every card
/// with no back of its own takes it in its slot.
pub open spec fn shared_slots_spec(cards: Seq<(usize, PrintedCard)>, file: Seq<char>, offset: usize, n: int) -> Seq<(Seq<char>, usize)>
    decreases n,
{
    if n <= 0 {
        Seq::empty()
    } else {
        shared_slots_spec(cards, file, offset, n - 1) + if cards[n - 1].1.back is None {
            seq![(file, (offset + n - 1) as usize)]
        } else {
            Seq::empty()
        }
    }
}

/// The shared back goes to exactly the cards without a back of their own:
/// among the first `n` cards, the slot of card `k` holds the shared file
/// exactly when card `k` has no back, and every entry is the shared file in
/// the slot of such a card.
pub proof fn lemma_shared_back_fills_backless_slots(cards: Seq<(usize, PrintedCard)>, file: Seq<char>, offset: usize, n: int)
    requires
        0 <= n <= cards.len(),
        offset + cards.len() <= usize::MAX,
    ensures
        forall|k: int|
            0 <= k < n ==> (shared_slots_spec(cards, file, offset, n).contains((file, (offset + k) as usize)) <==> (#[trigger] cards[k]).1.back is None),
        forall|e: (Seq<char>, usize)|
            #[trigger] shared_slots_spec(cards, file, offset, n).contains(e) ==> e.0 == file && exists|k: int|
                0 <= k < n && e.1 == offset + k && (#[trigger] cards[k]).1.back is None,
    decreases n,
{
    if n > 0 {
        lemma_shared_back_fills_backless_slots(cards, file, offset, n - 1);
        let prev = shared_slots_spec(cards, file, offset, n - 1);
        let last: Seq<(Seq<char>, usize)> = if cards[n - 1].1.back is None {
            seq![(file, (offset + n - 1) as usize)]
        } else {
            Seq::empty()
        };
        let whole = shared_slots_spec(cards, file, offset, n);
        assert(whole == prev + last);
        assert forall|e: (Seq<char>, usize)| whole.contains(e) implies prev.contains(e) || last.contains(e) by {
            let i = choose|i: int| 0 <= i < whole.len() && whole[i] == e;
            if i < prev.len() {
                assert(prev[i] == e);
            } else {
                assert(last[i - prev.len()] == e);
            }
        }
        assert forall|e: (Seq<char>, usize)| prev.contains(e) implies whole.contains(e) by {
            let i = choose|i: int| 0 <= i < prev.len() && prev[i] == e;
            assert(whole[i] == e);
        }
        assert forall|e: (Seq<char>, usize)| last.contains(e) implies whole.contains(e) by {
            let i = choose|i: int| 0 <= i < last.len() && last[i] == e;
            assert(whole[prev.len() + i] == e);
        }
        assert forall|k: int|
            0 <= k < n implies (whole.contains((file, (offset + k) as usize)) <==> (#[trigger] cards[k]).1.back is None) by {
            if k == n - 1 {
                if cards[k].1.back is None {
                    assert(last[0] == (file, (offset + k) as usize));
                    assert(last.contains((file, (offset + k) as usize)));
                } else {
                    if prev.contains((file, (offset + k) as usize)) {
                        let j = choose|j: int| 0 <= j < n - 1 && ((offset + k) as usize) == offset + j && (#[trigger] cards[j]).1.back is None;
                        assert(j == k);
                    }
                }
            } else {
                if last.contains((file, (offset + k) as usize)) {
                    assert(last[0] == (file, (offset + k) as usize));
                }
            }
        }
        assert forall|e: (Seq<char>, usize)| #[trigger] whole.contains(e) implies e.0 == file && exists|k: int|
            0 <= k < n && e.1 == offset + k && (#[trigger] cards[k]).1.back is None by {
            if prev.contains(e) {
                let j = choose|j: int| 0 <= j < n - 1 && e.1 == offset + j && (#[trigger] cards[j]).1.back is None;
                assert(0 <= j < n && e.1 == offset + j && cards[j].1.back is None);
            } else {
                assert(last.contains(e));
                assert(last[0] == e);
                assert(cards[n - 1].1.back is None);
            }
        }
    }
}

/// The slots of a group that the shared back `file` fills.
pub fn shared_slots(printings: &[Printing], file: &str, slot_offset: usize) -> (r: Vec<(String, usize)>)
    requires
        slot_offset + expanded(printings@, printings@.len() as int).len() <= usize::MAX,
    ensures
        r@.map_values(|e: (String, usize)| (e.0@, e.1)) == shared_slots_spec(
            expanded(printings@, printings@.len() as int),
            file@,
            slot_offset,
            expanded(printings@, printings@.len() as int).len() as int,
        ),
        forall|k: int|
            0 <= k < expanded(printings@, printings@.len() as int).len() ==> (r@.map_values(|e: (String, usize)| (e.0@, e.1)).contains(
                (file@, (slot_offset + k) as usize),
            ) <==> (#[trigger] expanded(printings@, printings@.len() as int)[k]).1.back is None),
{
    proof {
        let all = expanded(printings@, printings@.len() as int);
        lemma_shared_back_fills_backless_slots(all, file@, slot_offset, all.len() as int);
    }
    let cards = expand_to_cards(printings);
    let mut out: Vec<(String, usize)> = Vec::new();
    let mut k: usize = 0;
    while k < cards.len()
        invariant
            k <= cards@.len(),
            slot_offset + cards@.len() <= usize::MAX,
            out@.map_values(|e: (String, usize)| (e.0@, e.1)) == shared_slots_spec(cards@, file@, slot_offset, k as int),
        decreases cards.len() - k,
    {
        if cards[k].1.back.is_none() {
            out.push((owned(file), slot_offset + k));
        }
        k = k + 1;
        assert(out@.map_values(|e: (String, usize)| (e.0@, e.1)) =~= shared_slots_spec(cards@, file@, slot_offset, k as int));
    }
    out
}

/// The message of an autofilled order none of whose cards has a back.
pub open spec fn no_back_message() -> Seq<char> {
    "No card has a back image, so order.xml cannot be written. Every MakePlayingCards card needs a back."@
}

/// The `order.xml` of an autofilled order, which needs a back for its cards:
/// an error when no card has its own back and no shared back fills a slot.
pub fn order_xml(quantity: usize, cardstock: Cardstock, plan: &OrderPlan) -> (r: Result<String, ProxyNexusError>)
    ensures
        (plan.backs@.len() == 0 && plan.shared@.len() == 0) <==> r is Err,
        r matches Ok(x) ==> x@ == order_xml_spec(quantity, cardstock, *plan),
        r matches Err(e) ==> (e matches ProxyNexusError::Internal(m) && m@ == no_back_message()),
{
    if plan.backs.len() == 0 && plan.shared.len() == 0 {
        return Err(ProxyNexusError::Internal(owned("No card has a back image, so order.xml cannot be written. Every MakePlayingCards card needs a back.")));
    }
    Ok(build_order_xml(quantity, cardstock, plan))
}

/// `a` is fetched before `b`: its scan's key sorts first.
pub open spec fn request_lt(a: ImageRequest, b: ImageRequest) -> bool {
    seq_lt(a.source.key@, b.source.key@)
}

/// The requests in the order their scans are fetched: by scan key, stably,
/// so that the requests sharing a scan come together and it is fetched once.
pub fn sort_requests(requests: Vec<ImageRequest>) -> (r: Vec<ImageRequest>)
    ensures
        r@ == sorted_by(requests@, |a: ImageRequest, b: ImageRequest| request_lt(a, b), requests@.len() as int),
{
    let ghost all = requests@;
    let mut out: Vec<ImageRequest> = Vec::new();
    let mut rest = requests;
    let n = rest.len();
    let mut i: usize = 0;
    while i < n
        invariant
            n == all.len(),
            i <= n,
            rest@ == all.skip(i as int),
            out@ == sorted_by(all, |a: ImageRequest, b: ImageRequest| request_lt(a, b), i as int),
        decreases n - i,
    {
        let x = rest.remove(0);
        assert(x == all[i as int]);
        assert(rest@ =~= all.skip(i + 1));
        let ghost s = out@;
        let mut p: usize = 0;
        proof {
            lemma_sorted_by_len(all, |a: ImageRequest, b: ImageRequest| request_lt(a, b), i as int);
            assert(s.skip(0) =~= s);
        }
        while p < out.len() && !str_lt(x.source.key.as_str(), out[p].source.key.as_str())
            invariant
                p <= out@.len(),
                out@ == s,
                insert_pos(s, x, |a: ImageRequest, b: ImageRequest| request_lt(a, b)) == p + insert_pos(
                    s.skip(p as int),
                    x,
                    |a: ImageRequest, b: ImageRequest| request_lt(a, b),
                ),
            decreases out.len() - p,
        {
            assert(s.skip(p as int).drop_first() =~= s.skip(p + 1));
            assert(s.skip(p as int)[0] == s[p as int]);
            p = p + 1;
        }
        proof {
            if p < out@.len() {
                assert(s.skip(p as int)[0] == s[p as int]);
            } else {
                assert(s.skip(p as int) =~= Seq::<ImageRequest>::empty());
            }
        }
        out.insert(p, x);
        i = i + 1;
    }
    out
}

/// What is held while a group's images are written: the key of the scan
/// last fetched, and the file last written from it.
#[derive(Debug, Clone)]
pub struct ImageCursor {
    pub cached_key: Option<String>,
    pub current_file: Option<String>,
}

impl Default for ImageCursor {
    fn default() -> (r: ImageCursor)
        ensures
            r.cached_key is None && r.current_file is None,
    {
        ImageCursor { cached_key: None, current_file: None }
    }
}

/// What to do for one request: whether to fetch its scan, whether to write
/// its file, and the path the order lists it under.
#[derive(Debug, Clone)]
pub struct ImageStep {
    pub fetch: bool,
    pub write: bool,
    pub path: String,
}

/// The step for a request of scan `key` whose file would be `filename`. A
/// scan other than the one held is fetched, and then nothing is written from
/// it yet. With autofill, every request of one scan after the first is
/// listed under the file already written; otherwise each gets its own file.
pub open spec fn image_step_spec(
    cached_key: Option<Seq<char>>,
    current_file: Option<Seq<char>>,
    key: Seq<char>,
    autofill: bool,
    filename: Seq<char>,
) -> (bool, bool, Seq<char>, Option<Seq<char>>, Option<Seq<char>>) {
    let fetch = cached_key != Some(key);
    let held = if fetch {
        None
    } else {
        current_file
    };
    match held {
        Some(w) => if autofill {
            (fetch, false, w, Some(key), held)
        } else {
            (fetch, true, filename, Some(key), Some(filename))
        },
        None => (fetch, true, filename, Some(key), Some(filename)),
    }
}

impl ImageCursor {
    /// Whether a request of scan `key` needs its scan fetched: the scan held
    /// is another, or none is.
    pub fn needs_fetch(&self, key: &str) -> (r: bool)
        ensures
            r == (opt_view(self.cached_key) != Some(key@)),
    {
        match &self.cached_key {
            Some(k) => !str_eq(k.as_str(), key),
            None => true,
        }
    }

    /// Decides the step for a request of scan `key` whose file would be
    /// `filename`, and moves on past it.
    pub fn step(&mut self, key: &str, autofill: bool, filename: String) -> (r: ImageStep)
        ensures
            (r.fetch, r.write, r.path@, opt_view(final(self).cached_key), opt_view(final(self).current_file))
                == image_step_spec(opt_view(old(self).cached_key), opt_view(old(self).current_file), key@, autofill, filename@),
    {
        let fetch = match &self.cached_key {
            Some(k) => !str_eq(k.as_str(), key),
            None => true,
        };
        if fetch {
            self.cached_key = Some(owned(key));
            self.current_file = None;
        }
        let reuse = match &self.current_file {
            Some(w) => autofill,
            None => false,
        };
        if reuse {
            let path = match &self.current_file {
                Some(w) => w.clone(),
                None => String::new(),
            };
            ImageStep { fetch, write: false, path }
        } else {
            self.current_file = Some(filename.clone());
            ImageStep { fetch, write: true, path: filename }
        }
    }
}

/// Whether a scan goes into the zip as the bytes it came as: it has its
/// bleed, is not upscaled, and is a JPEG or PNG.
pub fn keeps_source_bytes(has_bleed: bool, upscale: bool, is_jpeg_or_png: bool) -> (r: bool)
    ensures
        r == (has_bleed && !upscale && is_jpeg_or_png),
{
    has_bleed && !upscale && is_jpeg_or_png
}

/// Lists a request's file in the plan against its slot, among the fronts or
/// the backs by its side.
pub fn plan_file(plan: &mut OrderPlan, side_name: &str, path: String, slot: usize)
    ensures
        side_name@ == "front"@ ==> final(plan).fronts@ == old(plan).fronts@.push((path, slot)) && final(plan).backs@
            == old(plan).backs@,
        side_name@ != "front"@ ==> final(plan).backs@ == old(plan).backs@.push((path, slot)) && final(plan).fronts@
            == old(plan).fronts@,
        final(plan).shared@ == old(plan).shared@,
{
    if str_eq(side_name, "front") {
        plan.fronts.push((path, slot));
    } else {
        plan.backs.push((path, slot));
    }
}

/// With autofill, a request of the scan just handled is listed under the
/// file already written for it: nothing is fetched or written again.
pub proof fn lemma_repeat_copies_share_one_file(
    cached_key: Option<Seq<char>>,
    current_file: Option<Seq<char>>,
    key: Seq<char>,
    first_name: Seq<char>,
    second_name: Seq<char>,
)
    ensures
        ({
            let a = image_step_spec(cached_key, current_file, key, true, first_name);
            let b = image_step_spec(a.3, a.4, key, true, second_name);
            !b.0 && !b.1 && b.2 == a.2 && b.4 == a.4
        }),
{
}

/// Without autofill, every request gets a file of its own, under its own
/// name.
pub proof fn lemma_every_copy_gets_its_own_file(
    cached_key: Option<Seq<char>>,
    current_file: Option<Seq<char>>,
    key: Seq<char>,
    name: Seq<char>,
)
    ensures
        ({
            let a = image_step_spec(cached_key, current_file, key, false, name);
            a.1 && a.2 == name
        }),
{
}

} // verus!
