//! What the command line decides from what it is given: where the cards
//! come from, which stock and back label to use, and the names it writes.
use vstd::prelude::*;
use crate::card_backs::preferred_label;
use crate::error::ProxyNexusError;
use crate::mpc::Cardstock;
use crate::order::texts;
use crate::text::{
    all_ascii, ascii_lower, owned, push_str, str_eq, to_lowercase, to_uppercase, trim, trim_spec,
    unicode_lowercase, unicode_uppercase,
};

verus! {

/// Where the cards to print come from.
#[derive(Debug, Clone, PartialEq)]
pub enum InputSource {
    Cardlist(String),
    SetName(String),
    DecklistUrl(String),
}

/// The source given: a card list before a set name before a decklist URL.
pub fn determine_input_source(
    cardlist: Option<String>,
    set_name: Option<String>,
    decklist_url: Option<String>,
) -> (r: InputSource)
    requires
        cardlist is Some || set_name is Some || decklist_url is Some,
    ensures
        match cardlist {
            Some(l) => r == InputSource::Cardlist(l),
            None => match set_name {
                Some(n) => r == InputSource::SetName(n),
                None => r == InputSource::DecklistUrl(decklist_url->Some_0),
            },
        },
{
    match cardlist {
        Some(l) => InputSource::Cardlist(l),
        None => match set_name {
            Some(n) => InputSource::SetName(n),
            None => match decklist_url {
                Some(u) => InputSource::DecklistUrl(u),
                None => InputSource::DecklistUrl(String::new()),
            },
        },
    }
}

/// The stock a name spells, in any case.
pub open spec fn cardstock_spec(upper: Seq<char>) -> Option<Cardstock> {
    if upper == "S27"@ {
        Some(Cardstock::S27)
    } else if upper == "S30"@ {
        Some(Cardstock::S30)
    } else if upper == "S33"@ {
        Some(Cardstock::S33)
    } else if upper == "M31"@ {
        Some(Cardstock::M31)
    } else if upper == "P10"@ {
        Some(Cardstock::P10)
    } else {
        None
    }
}

/// The message for a stock that is not offered.
pub open spec fn bad_cardstock_message(stock: Seq<char>) -> Seq<char> {
    "Unsupported cardstock: '"@ + stock + "'. Options are 'S27', 'S30', 'S33', 'M31', or 'P10'"@
}

/// The stock named, upper or lower case.
pub fn parse_cardstock(stock: &str) -> (r: Result<Cardstock, ProxyNexusError>)
    ensures
        match cardstock_spec(unicode_uppercase(stock@)) {
            Some(c) => r == Ok::<Cardstock, ProxyNexusError>(c),
            None => r matches Err(ProxyNexusError::Internal(m)) && m@ == bad_cardstock_message(stock@),
        },
{
    let upper = to_uppercase(stock);
    let u = upper.as_str();
    if str_eq(u, "S27") {
        Ok(Cardstock::S27)
    } else if str_eq(u, "S30") {
        Ok(Cardstock::S30)
    } else if str_eq(u, "S33") {
        Ok(Cardstock::S33)
    } else if str_eq(u, "M31") {
        Ok(Cardstock::M31)
    } else if str_eq(u, "P10") {
        Ok(Cardstock::P10)
    } else {
        let mut m = owned("Unsupported cardstock: '");
        push_str(&mut m, stock);
        push_str(&mut m, "'. Options are 'S27', 'S30', 'S33', 'M31', or 'P10'");
        Err(ProxyNexusError::Internal(m))
    }
}

/// Labels in quotes, joined by `, `.
pub open spec fn quoted_labels(labels: Seq<Seq<char>>) -> Seq<char>
    decreases labels.len(),
{
    if labels.len() == 0 {
        Seq::empty()
    } else if labels.len() == 1 {
        "'"@ + labels[0] + "'"@
    } else {
        quoted_labels(labels.drop_last()) + ", '"@ + labels.last() + "'"@
    }
}

/// The label used when none is asked for: `proxy` if offered, else the
/// first offered.
pub open spec fn default_label_spec(labels: Seq<Seq<char>>) -> Option<Seq<char>> {
    if labels.contains(preferred_label()) {
        Some(preferred_label())
    } else if labels.len() > 0 {
        Some(labels[0])
    } else {
        None
    }
}

/// The back label an order prints with, from the one asked for and those on
/// offer: none when the game ships no backs (asking for one is then an
/// error), the default when none is asked for, else the one asked for if
/// offered.
pub open spec fn back_label_spec(asked: Option<Seq<char>>, labels: Seq<Seq<char>>) -> Result<Option<Seq<char>>, Seq<char>> {
    if labels.len() == 0 {
        match asked {
            Some(_) => Err("This game ships no card backs, so --back-label has nothing to choose from"@),
            None => Ok(None),
        }
    } else {
        match asked {
            None => Ok(default_label_spec(labels)),
            Some(a) => if labels.contains(a) {
                Ok(Some(a))
            } else {
                Err("Unsupported back label: '"@ + a + "'. Options are "@ + quoted_labels(labels))
            },
        }
    }
}

fn offered(labels: &[String], s: &str) -> (r: bool)
    ensures
        r == texts(labels@).contains(s@),
{
    let mut i: usize = 0;
    while i < labels.len()
        invariant
            i <= labels@.len(),
            forall|j: int| 0 <= j < i ==> labels@[j]@ != s@,
        decreases labels.len() - i,
    {
        if str_eq(labels[i].as_str(), s) {
            assert(texts(labels@)[i as int] == s@);
            return true;
        }
        i = i + 1;
    }
    assert(!texts(labels@).contains(s@)) by {
        if texts(labels@).contains(s@) {
            let j = choose|j: int| 0 <= j < texts(labels@).len() && texts(labels@)[j] == s@;
            assert(labels@[j]@ == s@);
        }
    }
    false
}

/// The back label an order prints with, from the one asked for and the
/// labels on offer.
pub fn resolve_back_label(back_label: Option<&str>, labels: &[String]) -> (r: Result<Option<String>, ProxyNexusError>)
    ensures
        match back_label_spec(
            match back_label {
                Some(b) => Some(b@),
                None => None,
            },
            texts(labels@),
        ) {
            Ok(Some(l)) => r matches Ok(Some(x)) && x@ == l,
            Ok(None) => r matches Ok(None),
            Err(m) => r matches Err(ProxyNexusError::Internal(x)) && x@ == m,
        },
{
    if labels.len() == 0 {
        return match back_label {
            Some(_) => Err(ProxyNexusError::Internal(owned("This game ships no card backs, so --back-label has nothing to choose from"))),
            None => Ok(None),
        };
    }
    match back_label {
        None => {
            proof {
                reveal_strlit("proxy");
                assert("proxy"@ =~= preferred_label());
            }
            if offered(labels, "proxy") {
                Ok(Some(owned("proxy")))
            } else {
                Ok(Some(labels[0].clone()))
            }
        },
        Some(a) => {
            if offered(labels, a) {
                Ok(Some(owned(a)))
            } else {
                let mut m = owned("Unsupported back label: '");
                push_str(&mut m, a);
                push_str(&mut m, "'. Options are ");
                let mut i: usize = 0;
                let ghost head = m@;
                while i < labels.len()
                    invariant
                        i <= labels@.len(),
                        m@ == head + quoted_labels(texts(labels@).take(i as int)),
                    decreases labels.len() - i,
                {
                    if i > 0 {
                        push_str(&mut m, ", ");
                    }
                    push_str(&mut m, "'");
                    push_str(&mut m, labels[i].as_str());
                    push_str(&mut m, "'");
                    proof {
                        let t = texts(labels@).take(i + 1);
                        assert(t.drop_last() =~= texts(labels@).take(i as int));
                        assert(t.last() == labels@[i as int]@);
                        reveal_strlit(", '");
                        reveal_strlit(", ");
                        reveal_strlit("'");
                        if i == 0 {
                            assert(t[0] == labels@[0]@);
                            assert(m@ =~= head + quoted_labels(t));
                        } else {
                            assert(m@ =~= head + quoted_labels(t));
                        }
                    }
                    i = i + 1;
                }
                assert(texts(labels@).take(i as int) =~= texts(labels@));
                Err(ProxyNexusError::Internal(m))
            }
        },
    }
}

/// Whether an answer to "remove this collection?" says yes: `y` in either
/// case, with any surrounding white space.
pub fn confirms_removal(answer: &str) -> (r: bool)
    ensures
        r == (unicode_lowercase(trim_spec(answer@)) == "y"@),
{
    let lower = to_lowercase(trim(answer));
    str_eq(lower.as_str(), "y")
}

/// The name of the manifest written beside an output file with stem `stem`
/// (`output` when it has none): `{stem}_manifest.{ext}`.
pub fn manifest_file_name(stem: Option<&str>, ext: &str) -> (r: String)
    ensures
        r@ == (match stem {
            Some(s) => s@,
            None => "output"@,
        }) + "_manifest."@ + ext@,
{
    let mut n = match stem {
        Some(s) => owned(s),
        None => owned("output"),
    };
    push_str(&mut n, "_manifest.");
    push_str(&mut n, ext);
    n
}

/// Whether a file, by its extension in any case, is an image the bleed
/// command takes: PNG or JPEG.
pub fn is_image_extension(ext: &str) -> (r: bool)
    ensures
        r == (unicode_lowercase(ext@) == "png"@ || unicode_lowercase(ext@) == "jpg"@ || unicode_lowercase(ext@)
            == "jpeg"@),
{
    let lower = to_lowercase(ext);
    str_eq(lower.as_str(), "png") || str_eq(lower.as_str(), "jpg") || str_eq(lower.as_str(), "jpeg")
}

} // verus!
