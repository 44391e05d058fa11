//! The naming convention of collection images and card-back labels.
use vstd::prelude::*;
use crate::card_backs::{last_dot, last_index, stem_spec};
use crate::text::{
    chars_of, decimal, find_char, first_index, lemma_parse_u32_decimal, owned, parse_u32,
    parse_u32_spec, push_decimal, starts_with, string_of, slice_of, has_prefix,
};

verus! {

/// `"back"`.
pub open spec fn back_word() -> Seq<char> {
    seq!['b', 'a', 'c', 'k']
}

/// The one-based back a label names: `back` is the first, `back{n}` the
/// n-th for `n >= 1`; any other label names no back.
pub open spec fn back_index_spec(label: Seq<char>) -> Option<u32> {
    if has_prefix(label, back_word()) {
        let rest = label.skip(4);
        if rest.len() == 0 {
            Some(1u32)
        } else {
            match parse_u32_spec(rest) {
                Some(n) => if n >= 1 {
                    Some(n)
                } else {
                    None
                },
                None => None,
            }
        }
    } else {
        None
    }
}

/// The label of the `index`-th back: the first is spelled without its number.
pub open spec fn back_label_spec(index: u32) -> Seq<char> {
    if index == 1 {
        back_word()
    } else {
        back_word() + decimal(index as nat)
    }
}

/// The one-based index of the back a side label names, if it names one.
pub fn back_index(label: &str) -> (r: Option<u32>)
    ensures
        r == back_index_spec(label@),
{
    let v = chars_of(label);
    let word = chars_of("back");
    proof {
        reveal_strlit("back");
    }
    assert(word@ == back_word());
    if !starts_with(&v, &word) {
        return None;
    }
    let rest = slice_of(&v, 4, v.len());
    assert(rest@ == label@.skip(4));
    if rest.len() == 0 {
        return Some(1);
    }
    match parse_u32(&rest) {
        Some(n) => if n >= 1 {
            Some(n)
        } else {
            None
        },
        None => None,
    }
}

/// The side label of the `index`-th back.
pub fn back_label(index: u32) -> (r: String)
    ensures
        r@ == back_label_spec(index),
{
    let mut v = chars_of("back");
    proof {
        reveal_strlit("back");
    }
    if index != 1 {
        push_decimal(&mut v, index as u64);
    }
    string_of(&v)
}

/// Reading back the label of a back gives its index.
pub proof fn lemma_back_label_round_trip(index: u32)
    requires
        index >= 1,
    ensures
        back_index_spec(back_label_spec(index)) == Some(index),
{
    let l = back_label_spec(index);
    if index == 1 {
        assert(l.take(4) =~= back_word());
        assert(l.skip(4) =~= Seq::<char>::empty());
    } else {
        lemma_parse_u32_decimal(index);
        assert(l.take(4) =~= back_word());
        assert(l.skip(4) =~= decimal(index as nat));
    }
}

/// `".bleed"`.
pub open spec fn bleed_suffix() -> Seq<char> {
    seq!['.', 'b', 'l', 'e', 'e', 'd']
}

/// `s` ends with `p`.
pub open spec fn has_suffix(s: Seq<char>, p: Seq<char>) -> bool {
    p.len() <= s.len() && s.skip(s.len() - p.len()) == p
}

/// The parts of `{card_id}@{printing}[~{side}]`: card id, printing, and side
/// (`front` when absent). Text with no `@`, or with a second `@` or `~`,
/// names no printing.
pub open spec fn split_printing_spec(s: Seq<char>) -> Option<(Seq<char>, Seq<char>, Seq<char>)> {
    match first_index(s, '@') {
        None => None,
        Some(at) => {
            let card_id = s.take(at);
            let rest = s.skip(at + 1);
            if rest.contains('@') {
                None
            } else {
                match first_index(rest, '~') {
                    Some(t) => {
                        let side = rest.skip(t + 1);
                        if side.contains('~') {
                            None
                        } else {
                            Some((card_id, rest.take(t), side))
                        }
                    },
                    None => Some((card_id, rest, seq!['f', 'r', 'o', 'n', 't'])),
                }
            }
        },
    }
}

/// The texts of split parts.
pub open spec fn triple_view(r: Option<(String, String, String)>) -> Option<(Seq<char>, Seq<char>, Seq<char>)> {
    match r {
        Some((a, b, c)) => Some((a@, b@, c@)),
        None => None,
    }
}

/// Splits `{card_id}@{printing}[~{side}]` into its parts.
pub fn split_printing(s: &Vec<char>) -> (r: Option<(String, String, String)>)
    ensures
        triple_view(r) == split_printing_spec(s@),
{
    let at = match find_char(s, '@') {
        Some(at) => at,
        None => return None,
    };
    let card_id = slice_of(s, 0, at);
    let rest = slice_of(s, at + 1, s.len());
    assert(card_id@ =~= s@.take(at as int));
    assert(rest@ =~= s@.skip(at + 1));
    if find_char(&rest, '@').is_some() {
        return None;
    }
    match find_char(&rest, '~') {
        Some(t) => {
            let printing = slice_of(&rest, 0, t);
            let side = slice_of(&rest, t + 1, rest.len());
            assert(printing@ =~= rest@.take(t as int));
            assert(side@ =~= rest@.skip(t + 1));
            if find_char(&side, '~').is_some() {
                return None;
            }
            Some((string_of(&card_id), string_of(&printing), string_of(&side)))
        },
        None => {
            let front = owned("front");
            proof {
                reveal_strlit("front");
            }
            Some((string_of(&card_id), string_of(&rest), front))
        },
    }
}

/// The parts of a file stem `{card_id}@{printing}[~{side}][.bleed]`: card id,
/// printing, side (`front` when absent), and whether the scan carries bleed.
/// A stem with no `@`, or with a second `@` or `~`, names no printing.
pub open spec fn parse_stem_spec(stem: Seq<char>) -> Option<(Seq<char>, Seq<char>, Seq<char>, bool)> {
    let has_bleed = has_suffix(stem, bleed_suffix());
    let s = if has_bleed {
        stem.take(stem.len() - 6)
    } else {
        stem
    };
    match first_index(s, '@') {
        None => None,
        Some(at) => {
            let card_id = s.take(at);
            let rest = s.skip(at + 1);
            if rest.contains('@') {
                None
            } else {
                match first_index(rest, '~') {
                    Some(t) => {
                        let side = rest.skip(t + 1);
                        if side.contains('~') {
                            None
                        } else {
                            Some((card_id, rest.take(t), side, has_bleed))
                        }
                    },
                    None => Some((card_id, rest, seq!['f', 'r', 'o', 'n', 't'], has_bleed)),
                }
            }
        },
    }
}

/// The texts of a parsed file name.
pub open spec fn parts_view(r: Option<(String, String, String, bool)>) -> Option<
    (Seq<char>, Seq<char>, Seq<char>, bool),
> {
    match r {
        Some((a, b, c, d)) => Some((a@, b@, c@, d)),
        None => None,
    }
}

/// Splits a file stem `{card_id}@{printing}[~{side}][.bleed]` into its parts.
pub fn parse_stem(stem: &str) -> (r: Option<(String, String, String, bool)>)
    ensures
        parts_view(r) == parse_stem_spec(stem@),
{
    let v = chars_of(stem);
    let suffix = chars_of(".bleed");
    proof {
        reveal_strlit(".bleed");
    }
    assert(suffix@ == bleed_suffix());
    let has_bleed = v.len() >= 6 && {
        let tail = slice_of(&v, v.len() - 6, v.len());
        crate::text::seq_eq(&tail, &suffix)
    };
    assert(has_bleed == has_suffix(v@, bleed_suffix())) by {
        if v.len() >= 6 {
            assert(v@.subrange(v.len() - 6, v.len() as int) =~= v@.skip(v.len() - 6));
        }
    }
    let s = if has_bleed {
        slice_of(&v, 0, v.len() - 6)
    } else {
        slice_of(&v, 0, v.len())
    };
    assert(s@ == (if has_bleed {
        v@.take(v.len() - 6)
    } else {
        v@
    }));
    match split_printing(&s) {
        Some((card_id, printing, side)) => Some((card_id, printing, side, has_bleed)),
        None => None,
    }
}

/// The final component of a `/`-separated path, as `Path::file_name` reads
/// it: repeated separators and `.` components are passed over, a path whose
/// last component is `..` names no file, and a path with no component left
/// (empty, `/`, `.`) names none either.
pub open spec fn file_name_spec(path: Seq<char>) -> Option<Seq<char>>
    decreases path.len(),
{
    match last_index(path, '/') {
        Some(i) => {
            let piece = path.skip(i + 1);
            if piece.len() == 0 || piece == seq!['.'] {
                if 0 <= i < path.len() {
                    file_name_spec(path.take(i))
                } else {
                    None
                }
            } else if piece == seq!['.', '.'] {
                None
            } else {
                Some(piece)
            }
        },
        None => if path.len() == 0 || path == seq!['.'] || path == seq!['.', '.'] {
            None
        } else {
            Some(path)
        },
    }
}

/// Where `c` last occurs in `v`.
fn last_char_index(v: &Vec<char>, c: char) -> (r: Option<usize>)
    ensures
        r matches Some(i) ==> last_index(v@, c) == Some(i as int) && i < v.len(),
        r is None ==> last_index(v@, c) is None,
{
    let mut n: usize = v.len();
    assert(v@.take(v.len() as int) =~= v@);
    while n > 0
        invariant
            n <= v@.len(),
            last_index(v@, c) == last_index(v@.take(n as int), c),
        decreases n,
    {
        if v[n - 1] == c {
            return Some(n - 1);
        }
        assert(v@.take(n as int).drop_last() =~= v@.take(n - 1));
        n = n - 1;
    }
    None
}

/// Whether a path component is empty, `.` or `..`: (empty or `.`, `..`).
fn component_kind(piece: &Vec<char>) -> (r: (bool, bool))
    ensures
        r.0 == (piece@.len() == 0 || piece@ == seq!['.']),
        r.1 == (piece@ == seq!['.', '.']),
{
    let skipped = piece.len() == 0 || (piece.len() == 1 && piece[0] == '.');
    let parent = piece.len() == 2 && piece[0] == '.' && piece[1] == '.';
    proof {
        if piece.len() == 1 && piece[0] == '.' {
            assert(piece@ =~= seq!['.']);
        }
        if parent {
            assert(piece@ =~= seq!['.', '.']);
        }
    }
    (skipped, parent)
}

/// The final component of a `/`-separated path, as `Path::file_name` gives it.
pub fn file_name_of(path: &str) -> (r: Option<String>)
    ensures
        match r {
            Some(n) => file_name_spec(path@) == Some(n@),
            None => file_name_spec(path@) is None,
        },
{
    let mut cur = chars_of(path);
    loop
        invariant
            file_name_spec(cur@) == file_name_spec(path@),
        decreases cur.len(),
    {
        match last_char_index(&cur, '/') {
            Some(i) => {
                let piece = slice_of(&cur, i + 1, cur.len());
                assert(piece@ =~= cur@.skip(i + 1));
                let (skipped, parent) = component_kind(&piece);
                if skipped {
                    let before = slice_of(&cur, 0, i);
                    assert(before@ =~= cur@.take(i as int));
                    cur = before;
                } else if parent {
                    return None;
                } else {
                    return Some(string_of(&piece));
                }
            },
            None => {
                let (skipped, parent) = component_kind(&cur);
                if skipped || parent {
                    return None;
                }
                return Some(string_of(&cur));
            },
        }
    }
}

/// Splits the file named by a path, `{card_id}@{printing}[~{side}][.bleed].{extension}`,
/// into its parts; a path that names no file gives `None`.
pub fn parse_filename(path: &str) -> (r: Option<(String, String, String, bool)>)
    ensures
        parts_view(r) == match file_name_spec(path@) {
            Some(name) => parse_stem_spec(stem_spec(name)),
            None => None,
        },
{
    match file_name_of(path) {
        Some(name) => parse_file_name(name.as_str()),
        None => None,
    }
}

/// Splits a file name `{card_id}@{printing}[~{side}][.bleed].{extension}`
/// into its parts, reading its stem as `Path::file_stem` does: the name up
/// to its last `.`, unless that `.` opens it.
pub fn parse_file_name(file_name: &str) -> (r: Option<(String, String, String, bool)>)
    ensures
        parts_view(r) == parse_stem_spec(stem_spec(file_name@)),
{
    let v = chars_of(file_name);
    let stem = match last_dot(&v) {
        Some(i) => if i > 0 {
            slice_of(&v, 0, i)
        } else {
            slice_of(&v, 0, v.len())
        },
        None => slice_of(&v, 0, v.len()),
    };
    assert(stem@ =~= stem_spec(file_name@));
    let text = string_of(&stem);
    parse_stem(text.as_str())
}

} // verus!
