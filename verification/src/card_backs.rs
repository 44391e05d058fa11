//! The card backs each game ships, named `{back_group}_{label}[.bleed].{ext}`
//! in the game's `backs` folder, and which labels a request may use.
use vstd::prelude::*;
use crate::file_naming::{bleed_suffix, has_suffix};
use crate::keyed::StrMap;
use crate::models::Printing;
use crate::order::{insert_sorted, strictly_sorted, texts};
use crate::text::{chars_of, find_char, first_index, owned, push_str, slice_of, str_eq, string_of};

verus! {

/// One card back image a game ships.
#[derive(Debug, Clone, PartialEq, Eq)]
pub struct CardBack {
    pub back_group: String,
    pub label: String,
    pub file: String,
    pub asset_id: String,
    pub has_bleed: bool,
}

/// Every game's card backs, by game id, in the order the folders were read.
pub struct CardBackTable {
    pub games: Vec<(String, Vec<CardBack>)>,
}

/// The label picked when the user names none.
pub open spec fn preferred_label() -> Seq<char> {
    seq!['p', 'r', 'o', 'x', 'y']
}

/// The last position of `c` in `s`.
pub open spec fn last_index(s: Seq<char>, c: char) -> Option<int>
    decreases s.len(),
{
    if s.len() == 0 {
        None
    } else if s.last() == c {
        Some(s.len() - 1)
    } else {
        last_index(s.drop_last(), c)
    }
}

/// A file name without its final extension. A name with no `.`, or whose
/// only `.` opens it, is its own stem.
pub open spec fn stem_spec(file: Seq<char>) -> Seq<char> {
    match last_index(file, '.') {
        Some(i) => if i > 0 {
            file.take(i)
        } else {
            file
        },
        None => file,
    }
}

/// A game id from the name of its folder: `_` becomes `-`.
pub open spec fn game_id_spec(folder: Seq<char>) -> Seq<char> {
    folder.map_values(|c: char| if c == '_' { '-' } else { c })
}

/// The back a file of a game's `backs` folder holds: the stem, less a
/// `.bleed` suffix, is `{back_group}_{label}` cut at the first `_`, both
/// parts non-empty; the asset id is `{game_id}_{file}`. Any other name holds
/// no back.
pub open spec fn back_file_spec(game_id: Seq<char>, file: Seq<char>) -> Option<
    (Seq<char>, Seq<char>, Seq<char>, Seq<char>, bool),
> {
    let stem = stem_spec(file);
    let has_bleed = has_suffix(stem, bleed_suffix());
    let name = if has_bleed {
        stem.take(stem.len() - 6)
    } else {
        stem
    };
    match first_index(name, '_') {
        Some(u) => if u > 0 && u + 1 < name.len() {
            Some((name.take(u), name.skip(u + 1), file, game_id + seq!['_'] + file, has_bleed))
        } else {
            None
        },
        None => None,
    }
}

/// The texts of a card back.
pub open spec fn back_view(b: CardBack) -> (Seq<char>, Seq<char>, Seq<char>, Seq<char>, bool) {
    (b.back_group@, b.label@, b.file@, b.asset_id@, b.has_bleed)
}

/// The backs a game ships: those of the first table entry named by the
/// game id itself or with `_` spelled `-`.
pub open spec fn backs_spec(games: Seq<(String, Vec<CardBack>)>, game_id: Seq<char>) -> Seq<CardBack>
    decreases games.len(),
{
    if games.len() == 0 {
        Seq::empty()
    } else if games[0].0@ == game_id || games[0].0@ == game_id_spec(game_id) {
        games[0].1@
    } else {
        backs_spec(games.drop_first(), game_id)
    }
}

pub(crate) fn last_dot(v: &Vec<char>) -> (r: Option<usize>)
    ensures
        r matches Some(i) ==> last_index(v@, '.') == Some(i as int) && i < v.len(),
        r is None ==> last_index(v@, '.') is None,
{
    let mut n: usize = v.len();
    assert(v@.take(v.len() as int) =~= v@);
    while n > 0
        invariant
            n <= v@.len(),
            last_index(v@, '.') == last_index(v@.take(n as int), '.'),
        decreases n,
    {
        if v[n - 1] == '.' {
            return Some(n - 1);
        }
        assert(v@.take(n as int).drop_last() =~= v@.take(n - 1));
        n = n - 1;
    }
    None
}

/// The game id a `backs` folder's game directory stands for.
pub fn game_id_of_folder(folder: &str) -> (r: String)
    ensures
        r@ == game_id_spec(folder@),
{
    let v = chars_of(folder);
    let mut out: Vec<char> = Vec::new();
    let mut i: usize = 0;
    while i < v.len()
        invariant
            i <= v@.len(),
            v@ == folder@,
            out@ == game_id_spec(folder@).take(i as int),
        decreases v.len() - i,
    {
        if v[i] == '_' {
            out.push('-');
        } else {
            out.push(v[i]);
        }
        i = i + 1;
        assert(out@ =~= game_id_spec(folder@).take(i as int));
    }
    assert(game_id_spec(folder@).take(i as int) =~= game_id_spec(folder@));
    string_of(&out)
}

/// The back the file `file` of game `game_id`'s `backs` folder holds, if its
/// name follows the convention.
pub fn card_back_from_file(game_id: &str, file: &str) -> (r: Option<CardBack>)
    ensures
        match r {
            Some(b) => back_file_spec(game_id@, file@) == Some(back_view(b)),
            None => back_file_spec(game_id@, file@) is None,
        },
{
    let v = chars_of(file);
    let stem = match last_dot(&v) {
        Some(i) => if i > 0 {
            slice_of(&v, 0, i)
        } else {
            slice_of(&v, 0, v.len())
        },
        None => slice_of(&v, 0, v.len()),
    };
    assert(stem@ =~= stem_spec(file@));
    let suffix = chars_of(".bleed");
    proof {
        reveal_strlit(".bleed");
    }
    assert(suffix@ == bleed_suffix());
    let has_bleed = stem.len() >= 6 && {
        let tail = slice_of(&stem, stem.len() - 6, stem.len());
        crate::text::seq_eq(&tail, &suffix)
    };
    assert(has_bleed == has_suffix(stem@, bleed_suffix())) by {
        if stem.len() >= 6 {
            assert(stem@.subrange(stem.len() - 6, stem.len() as int) =~= stem@.skip(
                stem.len() - 6,
            ));
        }
    }
    let name = if has_bleed {
        slice_of(&stem, 0, stem.len() - 6)
    } else {
        slice_of(&stem, 0, stem.len())
    };
    assert(name@ =~= (if has_bleed {
        stem@.take(stem@.len() - 6)
    } else {
        stem@
    }));
    let u = match find_char(&name, '_') {
        Some(u) => u,
        None => return None,
    };
    if u == 0 || u + 1 >= name.len() {
        return None;
    }
    let group = slice_of(&name, 0, u);
    let label = slice_of(&name, u + 1, name.len());
    assert(group@ =~= name@.take(u as int));
    assert(label@ =~= name@.skip(u + 1));
    let mut asset_id = owned(game_id);
    push_str(&mut asset_id, "_");
    push_str(&mut asset_id, file);
    proof {
        reveal_strlit("_");
    }
    Some(
        CardBack {
            back_group: string_of(&group),
            label: string_of(&label),
            file: owned(file),
            asset_id,
            has_bleed,
        },
    )
}

/// Whether every file of every folder names a back by the convention.
pub open spec fn folders_follow_convention(folders: Seq<(String, Vec<String>)>) -> bool {
    forall|i: int, j: int|
        0 <= i < folders.len() && 0 <= j < folders[i].1@.len() ==> (#[trigger] back_file_spec(
            game_id_spec(folders[i].0@),
            folders[i].1@[j]@,
        )) is Some
}

/// Whether `table` holds, folder by folder and file by file, the backs that
/// `folders` (each a game's folder name and the files in it) name.
pub open spec fn table_of(table: CardBackTable, folders: Seq<(String, Vec<String>)>) -> bool {
    &&& table.games@.len() == folders.len()
    &&& forall|i: int|
        0 <= i < folders.len() ==> {
            &&& (#[trigger] table.games@[i]).0@ == game_id_spec(folders[i].0@)
            &&& table.games@[i].1@.len() == folders[i].1@.len()
            &&& forall|j: int|
                0 <= j < folders[i].1@.len() ==> back_file_spec(
                    game_id_spec(folders[i].0@),
                    folders[i].1@[j]@,
                ) == Some(back_view(#[trigger] table.games@[i].1@[j]))
        }
}

/// The table of every game's backs, from each game's folder name and the
/// files of its `backs` folder; `None` when a file does not follow the
/// `{back_group}_{label}[.bleed].{ext}` convention.
pub fn card_back_table(folders: &[(String, Vec<String>)]) -> (r: Option<CardBackTable>)
    ensures
        r is Some <==> folders_follow_convention(folders@),
        r matches Some(t) ==> table_of(t, folders@),
{
    let mut games: Vec<(String, Vec<CardBack>)> = Vec::new();
    let mut i: usize = 0;
    while i < folders.len()
        invariant
            i <= folders@.len(),
            games@.len() == i,
            forall|k: int, j: int|
                0 <= k < i && 0 <= j < folders@[k].1@.len() ==> (#[trigger] back_file_spec(
                    game_id_spec(folders@[k].0@),
                    folders@[k].1@[j]@,
                )) is Some,
            forall|k: int|
                0 <= k < i ==> {
                    &&& (#[trigger] games@[k]).0@ == game_id_spec(folders@[k].0@)
                    &&& games@[k].1@.len() == folders@[k].1@.len()
                    &&& forall|j: int|
                        0 <= j < folders@[k].1@.len() ==> back_file_spec(
                            game_id_spec(folders@[k].0@),
                            folders@[k].1@[j]@,
                        ) == Some(back_view(#[trigger] games@[k].1@[j]))
                },
        decreases folders@.len() - i,
    {
        let game_id = game_id_of_folder(folders[i].0.as_str());
        let mut backs: Vec<CardBack> = Vec::new();
        let mut j: usize = 0;
        while j < folders[i].1.len()
            invariant
                i < folders@.len(),
                j <= folders@[i as int].1@.len(),
                game_id@ == game_id_spec(folders@[i as int].0@),
                backs@.len() == j,
                forall|m: int|
                    0 <= m < j ==> back_file_spec(
                        game_id_spec(folders@[i as int].0@),
                        folders@[i as int].1@[m]@,
                    ) == Some(back_view(#[trigger] backs@[m])),
            decreases folders@[i as int].1@.len() - j,
        {
            match card_back_from_file(game_id.as_str(), folders[i].1[j].as_str()) {
                Some(b) => backs.push(b),
                None => {
                    assert(!folders_follow_convention(folders@)) by {
                        assert(back_file_spec(
                            game_id_spec(folders@[i as int].0@),
                            folders@[i as int].1@[j as int]@,
                        ) is None);
                    }
                    return None;
                },
            }
            j = j + 1;
        }
        assert forall|j: int| 0 <= j < folders@[i as int].1@.len() implies (#[trigger] back_file_spec(
            game_id_spec(folders@[i as int].0@),
            folders@[i as int].1@[j]@,
        )) is Some by {
            assert(back_file_spec(game_id_spec(folders@[i as int].0@), folders@[i as int].1@[j]@)
                == Some(back_view(backs@[j])));
        }
        games.push((game_id, backs));
        i = i + 1;
    }
    let t = CardBackTable { games };
    assert(table_of(t, folders@));
    Some(t)
}

/// The backs game `game_id` ships; none for a game the table does not know.
pub fn backs_of<'a>(table: &'a CardBackTable, game_id: &str) -> (r: &'a [CardBack])
    ensures
        r@ == backs_spec(table.games@, game_id@),
{
    let normalized = game_id_of_folder(game_id);
    let mut i: usize = 0;
    assert(table.games@.skip(0) =~= table.games@);
    while i < table.games.len()
        invariant
            i <= table.games@.len(),
            normalized@ == game_id_spec(game_id@),
            backs_spec(table.games@, game_id@) == backs_spec(table.games@.skip(i as int), game_id@),
        decreases table.games.len() - i,
    {
        assert(table.games@.skip(i as int).drop_first() =~= table.games@.skip(i + 1));
        let id = table.games[i].0.as_str();
        if str_eq(id, game_id) || str_eq(id, normalized.as_str()) {
            return table.games[i].1.as_slice();
        }
        i = i + 1;
    }
    &[]
}

/// The back of `game_id` for `back_group` with label `label`.
pub fn card_back<'a>(table: &'a CardBackTable, game_id: &str, back_group: &str, label: &str) -> (r:
    Option<&'a CardBack>)
    ensures
        r matches Some(b) ==> exists|i: int|
            0 <= i < backs_spec(table.games@, game_id@).len() && backs_spec(table.games@, game_id@)[i]
                == *b && b.back_group@ == back_group@ && b.label@ == label@ && forall|j: int|
                0 <= j < i ==> !(backs_spec(table.games@, game_id@)[j].back_group@ == back_group@
                    && backs_spec(table.games@, game_id@)[j].label@ == label@),
        r is None ==> forall|j: int|
            0 <= j < backs_spec(table.games@, game_id@).len() ==> !(#[trigger] backs_spec(
                table.games@,
                game_id@,
            )[j].back_group@ == back_group@ && backs_spec(table.games@, game_id@)[j].label@
                == label@),
{
    let backs = backs_of(table, game_id);
    let mut i: usize = 0;
    while i < backs.len()
        invariant
            i <= backs@.len(),
            backs@ == backs_spec(table.games@, game_id@),
            forall|j: int|
                0 <= j < i ==> !(#[trigger] backs@[j].back_group@ == back_group@ && backs@[j].label@
                    == label@),
        decreases backs.len() - i,
    {
        if str_eq(backs[i].back_group.as_str(), back_group) && str_eq(backs[i].label.as_str(), label) {
            return Some(&backs[i]);
        }
        i = i + 1;
    }
    None
}

/// The label used when none is asked for: `proxy` if offered, else the
/// first offered, else none.
pub fn default_label<'a>(labels: &[&'a str]) -> (r: Option<&'a str>)
    ensures
        labels@.len() == 0 ==> r is None,
        (exists|i: int| 0 <= i < labels@.len() && labels@[i]@ == preferred_label()) ==> (r matches Some(
            l,
        ) && l@ == preferred_label()),
        labels@.len() > 0 && !(exists|i: int|
            0 <= i < labels@.len() && labels@[i]@ == preferred_label()) ==> r == Some(labels@[0]),
{
    let mut i: usize = 0;
    while i < labels.len()
        invariant
            i <= labels@.len(),
            forall|j: int| 0 <= j < i ==> labels@[j]@ != preferred_label(),
        decreases labels.len() - i,
    {
        let found = str_eq(labels[i], "proxy");
        proof {
            reveal_strlit("proxy");
            assert("proxy"@ =~= preferred_label());
        }
        if found {
            return Some(labels[i]);
        }
        i = i + 1;
    }
    if labels.len() == 0 {
        None
    } else {
        Some(labels[0])
    }
}

/// A printing's collection withholds `label`.
pub open spec fn withholds(
    restrictions: Map<Seq<char>, Vec<String>>,
    p: Printing,
    label: Seq<char>,
) -> bool {
    restrictions.contains_key(p.collection@) && texts(restrictions[p.collection@]@).contains(label)
}

/// Some printing of the request withholds `label`.
pub open spec fn withheld(
    restrictions: Map<Seq<char>, Vec<String>>,
    printings: Seq<Printing>,
    label: Seq<char>,
) -> bool {
    exists|i: int| 0 <= i < printings.len() && withholds(restrictions, #[trigger] printings[i], label)
}

fn is_withheld(restrictions: &StrMap<Vec<String>>, printings: &[Printing], label: &str) -> (r: bool)
    requires
        restrictions.wf(),
    ensures
        r == withheld(restrictions@, printings@, label@),
{
    let mut i: usize = 0;
    while i < printings.len()
        invariant
            i <= printings@.len(),
            restrictions.wf(),
            forall|j: int| 0 <= j < i ==> !withholds(restrictions@, #[trigger] printings@[j], label@),
        decreases printings.len() - i,
    {
        if let Some(labels) = restrictions.get(printings[i].collection.as_str()) {
            let mut k: usize = 0;
            while k < labels.len()
                invariant
                    k <= labels@.len(),
                    i < printings@.len(),
                    restrictions.wf(),
                    restrictions@.contains_key(printings@[i as int].collection@),
                    *labels == restrictions@[printings@[i as int].collection@],
                    forall|j: int| 0 <= j < i ==> !withholds(restrictions@, #[trigger] printings@[j], label@),
                    forall|m: int| 0 <= m < k ==> labels@[m]@ != label@,
                decreases labels.len() - k,
            {
                if str_eq(labels[k].as_str(), label) {
                    assert(texts(labels@)[k as int] == label@);
                    assert(texts(labels@).contains(label@));
                    assert(withholds(restrictions@, printings@[i as int], label@));
                    return true;
                }
                k = k + 1;
            }
            assert(!texts(labels@).contains(label@)) by {
                if texts(labels@).contains(label@) {
                    let m = choose|m: int| 0 <= m < texts(labels@).len() && texts(labels@)[m] == label@;
                    assert(labels@[m]@ == label@);
                }
            }
        }
        i = i + 1;
    }
    false
}

/// The labels a request may print with: every label game `game_id` ships,
/// less those a collection of one of `printings` withholds (`restrictions`
/// maps a collection to the labels it withholds), sorted, each once.
pub fn allowed_labels(
    table: &CardBackTable,
    game_id: &str,
    restrictions: &StrMap<Vec<String>>,
    printings: &[Printing],
) -> (r: Vec<String>)
    requires
        restrictions.wf(),
    ensures
        strictly_sorted(texts(r@)),
        forall|l: Seq<char>|
            texts(r@).contains(l) <==> (!withheld(restrictions@, printings@, l) && exists|i: int|
                0 <= i < backs_spec(table.games@, game_id@).len() && #[trigger] backs_spec(
                    table.games@,
                    game_id@,
                )[i].label@ == l),
{
    let backs = backs_of(table, game_id);
    let mut labels: Vec<String> = Vec::new();
    let mut i: usize = 0;
    while i < backs.len()
        invariant
            i <= backs@.len(),
            restrictions.wf(),
            backs@ == backs_spec(table.games@, game_id@),
            strictly_sorted(texts(labels@)),
            forall|l: Seq<char>|
                texts(labels@).contains(l) <==> (!withheld(restrictions@, printings@, l) && exists|
                    j: int,
                | 0 <= j < i && #[trigger] backs@[j].label@ == l),
        decreases backs.len() - i,
    {
        let label = &backs[i].label;
        let ghost before = texts(labels@);
        let keep = !is_withheld(restrictions, printings, label.as_str());
        if keep {
            insert_sorted(&mut labels, label.clone());
        }
        proof {
            let after = texts(labels@);
            if keep {
                assert(after.to_set() == before.to_set().insert(label@));
            } else {
                assert(after == before);
            }
            assert forall|l: Seq<char>|
                texts(labels@).contains(l) <==> (!withheld(restrictions@, printings@, l) && exists|
                    j: int,
                | 0 <= j < i + 1 && #[trigger] backs@[j].label@ == l) by {
                assert(after.to_set().contains(l) == after.contains(l));
                assert(before.to_set().contains(l) == before.contains(l));
                if after.contains(l) {
                    if before.contains(l) {
                        let j = choose|j: int| 0 <= j < i && #[trigger] backs@[j].label@ == l;
                        assert(0 <= j < i + 1 && backs@[j].label@ == l);
                    } else {
                        assert(l == label@);
                        assert(backs@[i as int].label@ == l);
                    }
                }
                if !withheld(restrictions@, printings@, l) && exists|j: int|
                    0 <= j < i + 1 && #[trigger] backs@[j].label@ == l {
                    let j = choose|j: int| 0 <= j < i + 1 && #[trigger] backs@[j].label@ == l;
                    if j < i {
                        assert(before.contains(l));
                    } else {
                        assert(l == label@);
                        assert(keep);
                    }
                }
            }
        }
        i = i + 1;
    }
    labels
}

} // verus!
