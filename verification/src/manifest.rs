//! The card-back manifest: which generic back each printing needs.
use vstd::prelude::*;
use crate::models::{clone_opt, Printing};
use crate::text::{chars_of, owned, push_char, push_str, contains_char};

verus! {

/// One row of the card-back manifest: which generic card back a printing
/// needs when proxied, with enough to find it again in the output.
#[derive(Debug, Clone, PartialEq)]
pub struct ManifestEntry {
    pub card_id: String,
    pub card_title: String,
    pub collection: String,
    pub pack_id: Option<String>,
    pub variant: Option<String>,
    /// This card's own back classification, whatever its linked card is.
    pub back_group: Option<String>,
    /// Set when this card's back is a mechanically different card.
    pub linked_card_code: Option<String>,
    pub linked_card_name: Option<String>,
    /// The linked card's own back group.
    pub linked_card_back_type: Option<String>,
    pub is_official: bool,
    pub date_release: Option<String>,
}

/// `e` is the manifest row of `p`.
pub open spec fn entry_of(e: ManifestEntry, p: Printing) -> bool {
    &&& e.card_id == p.card_id
    &&& e.card_title == p.card_title
    &&& e.collection == p.collection
    &&& e.pack_id == p.pack_id
    &&& e.variant == p.variant
    &&& e.back_group == p.back_group
    &&& e.linked_card_code == p.linked_card_code
    &&& e.linked_card_name == p.linked_card_name
    &&& e.linked_card_back_type == p.linked_card_back_group
    &&& e.is_official == p.is_official
    &&& e.date_release == p.date_release
}

impl ManifestEntry {
    /// The manifest row of a printing.
    pub fn from_printing(p: &Printing) -> (r: ManifestEntry)
        ensures
            entry_of(r, *p),
    {
        ManifestEntry {
            card_id: p.card_id.clone(),
            card_title: p.card_title.clone(),
            collection: p.collection.clone(),
            pack_id: clone_opt(&p.pack_id),
            variant: clone_opt(&p.variant),
            back_group: clone_opt(&p.back_group),
            linked_card_code: clone_opt(&p.linked_card_code),
            linked_card_name: clone_opt(&p.linked_card_name),
            linked_card_back_type: clone_opt(&p.linked_card_back_group),
            is_official: p.is_official,
            date_release: clone_opt(&p.date_release),
        }
    }
}

/// One manifest row per printing, in order.
pub fn build_manifest(printings: &[Printing]) -> (r: Vec<ManifestEntry>)
    ensures
        r@.len() == printings@.len(),
        forall|i: int| 0 <= i < r@.len() ==> entry_of(#[trigger] r@[i], printings@[i]),
{
    let mut r: Vec<ManifestEntry> = Vec::new();
    let mut i: usize = 0;
    while i < printings.len()
        invariant
            i <= printings@.len(),
            r@.len() == i,
            forall|j: int| 0 <= j < i ==> entry_of(#[trigger] r@[j], printings@[j]),
        decreases printings.len() - i,
    {
        r.push(ManifestEntry::from_printing(&printings[i]));
        i = i + 1;
    }
    r
}

/// Every `"` doubled.
pub open spec fn double_quotes(s: Seq<char>) -> Seq<char>
    decreases s.len(),
{
    if s.len() == 0 {
        Seq::empty()
    } else {
        double_quotes(s.drop_last()) + if s.last() == '"' {
            seq!['"', '"']
        } else {
            seq![s.last()]
        }
    }
}

/// A CSV field: quoted, with inner quotes doubled, when it holds a comma, a
/// quote or a newline; as it is otherwise.
pub open spec fn csv_escape_spec(s: Seq<char>) -> Seq<char> {
    if s.contains(',') || s.contains('"') || s.contains('\n') {
        seq!['"'] + double_quotes(s) + seq!['"']
    } else {
        s
    }
}

/// Appends the CSV spelling of `field` to `out`.
fn push_csv_field(out: &mut String, field: &str)
    ensures
        final(out)@ == old(out)@ + csv_escape_spec(field@),
{
    let v = chars_of(field);
    if contains_char(&v, ',') || contains_char(&v, '"') || contains_char(&v, '\n') {
        let ghost start = out@;
        push_char(out, '"');
        let mut i: usize = 0;
        while i < v.len()
            invariant
                i <= v@.len(),
                out@ == start + seq!['"'] + double_quotes(v@.take(i as int)),
            decreases v.len() - i,
        {
            let c = v[i];
            assert(v@.take(i + 1).drop_last() =~= v@.take(i as int));
            if c == '"' {
                push_char(out, '"');
                push_char(out, '"');
            } else {
                push_char(out, c);
            }
            i = i + 1;
            assert(out@ =~= start + seq!['"'] + double_quotes(v@.take(i as int)));
        }
        assert(v@.take(i as int) =~= v@);
        push_char(out, '"');
        assert(out@ =~= start + csv_escape_spec(field@));
    } else {
        push_str(out, field);
    }
}

/// The CSV spelling of `field`.
pub fn csv_escape(field: &str) -> (r: String)
    ensures
        r@ == csv_escape_spec(field@),
{
    let mut out = String::new();
    push_csv_field(&mut out, field);
    assert(out@ =~= csv_escape_spec(field@));
    out
}

/// The text of an optional field, empty when absent.
pub open spec fn or_empty(o: Option<String>) -> Seq<char> {
    match o {
        Some(s) => s@,
        None => Seq::empty(),
    }
}

/// The header line of the CSV manifest.
pub open spec fn csv_header() -> Seq<char> {
    "card_id,card_title,collection,pack_id,variant,back_group,linked_card_code,linked_card_name,linked_card_back_type,is_official,date_release\n"@
}

/// `prefix` followed by the CSV line of `e`.
pub open spec fn append_csv_line(prefix: Seq<char>, e: ManifestEntry) -> Seq<char> {
    prefix + csv_escape_spec(e.card_id@) + seq![','] + csv_escape_spec(e.card_title@) + seq![',']
        + csv_escape_spec(e.collection@) + seq![','] + csv_escape_spec(or_empty(e.pack_id)) + seq![
        ',',
    ] + csv_escape_spec(or_empty(e.variant)) + seq![','] + csv_escape_spec(or_empty(e.back_group))
        + seq![','] + csv_escape_spec(or_empty(e.linked_card_code)) + seq![','] + csv_escape_spec(
        or_empty(e.linked_card_name),
    ) + seq![','] + csv_escape_spec(or_empty(e.linked_card_back_type)) + seq![','] + (
    if e.is_official {
        seq!['t', 'r', 'u', 'e']
    } else {
        seq!['f', 'a', 'l', 's', 'e']
    }) + seq![','] + csv_escape_spec(or_empty(e.date_release)) + seq!['\n']
}

/// The CSV manifest of the first `k` entries: the header line, then one
/// line per entry.
pub open spec fn csv_document(entries: Seq<ManifestEntry>, k: int) -> Seq<char>
    decreases k,
{
    if k <= 0 {
        csv_header()
    } else {
        append_csv_line(csv_document(entries, k - 1), entries[k - 1])
    }
}

fn push_opt_field(out: &mut String, field: &Option<String>)
    ensures
        final(out)@ == old(out)@ + csv_escape_spec(or_empty(*field)),
{
    match field {
        Some(s) => push_csv_field(out, s.as_str()),
        None => {
            push_csv_field(out, "");
            proof {
                reveal_strlit("");
            }
            assert(""@ =~= Seq::<char>::empty());
        },
    }
}

/// Appends the CSV line of `e`.
#[verifier::rlimit(40)]
fn push_csv_line(out: &mut String, e: &ManifestEntry)
    ensures
        final(out)@ == append_csv_line(old(out)@, *e),
{
    let ghost start = out@;
    push_csv_field(out, e.card_id.as_str());
    push_char(out, ',');
    push_csv_field(out, e.card_title.as_str());
    push_char(out, ',');
    push_csv_field(out, e.collection.as_str());
    push_char(out, ',');
    push_opt_field(out, &e.pack_id);
    push_char(out, ',');
    push_opt_field(out, &e.variant);
    push_char(out, ',');
    push_opt_field(out, &e.back_group);
    push_char(out, ',');
    push_opt_field(out, &e.linked_card_code);
    push_char(out, ',');
    push_opt_field(out, &e.linked_card_name);
    push_char(out, ',');
    push_opt_field(out, &e.linked_card_back_type);
    push_char(out, ',');
    if e.is_official {
        push_str(out, "true");
        proof {
            reveal_strlit("true");
        }
    } else {
        push_str(out, "false");
        proof {
            reveal_strlit("false");
        }
    }
    push_char(out, ',');
    push_opt_field(out, &e.date_release);
    push_char(out, '\n');
}

/// The manifest as CSV: a header line, then one line per entry.
pub fn manifest_to_csv(entries: &[ManifestEntry]) -> (r: String)
    ensures
        r@ == csv_document(entries@, entries@.len() as int),
{
    let mut out = owned(
        "card_id,card_title,collection,pack_id,variant,back_group,linked_card_code,linked_card_name,linked_card_back_type,is_official,date_release\n",
    );
    let mut i: usize = 0;
    while i < entries.len()
        invariant
            i <= entries@.len(),
            out@ == csv_document(entries@, i as int),
        decreases entries.len() - i,
    {
        push_csv_line(&mut out, &entries[i]);
        i = i + 1;
    }
    out
}

} // verus!
