//! A query's answer reads back as a card list: each of its lines is a card
//! list line whose override names the printing the query chose.
use vstd::prelude::*;
use crate::card_store::{brackets_in_order, override_error, parse_quantity_spec, times_sep};
use crate::cardlist::{cardlist_spec, line_content, line_entry, line_readable};
use crate::card_store::lemma_best_is_first_unbeaten;
use crate::models::{display_spec, variant_key_spec, CardRequest, Printing};
use crate::query::{
    alternatives, base_line, chosen_for, differs, first_unmatched, key_count, listed, listed_indices, options_for,
    query_line, query_output_spec, request_key, widest,
};
use crate::games::urls::{before_any, run_before};
use crate::text::{
    first_index, is_white_space, lemma_first_index, lemma_first_index_unique, sep_joined, split_spec,
    trim_end_spec, trim_spec, trim_start_spec, decimal, first_occurrence, is_digit, lemma_decimal_digits,
    occurs_at, signed_decimal, all_digits, lemma_trim_end_at, lemma_trim_start_at, pad_right,
};

verus! {

/// Splitting at `c` around a `c` splits each side.
pub proof fn lemma_split_concat(a: Seq<char>, b: Seq<char>, c: char)
    ensures
        split_spec(a + seq![c] + b, c) == split_spec(a, c) + split_spec(b, c),
    decreases a.len(),
{
    let s = a + seq![c] + b;
    lemma_first_index(a, c);
    match first_index(a, c) {
        None => {
            assert(s[a.len() as int] == c);
            assert(s.take(a.len() as int) =~= a);
            lemma_first_index_unique(s, c, a.len() as int);
            assert(s.skip(a.len() as int + 1) =~= b);
            assert(split_spec(a, c) == seq![a]);
        },
        Some(i) => {
            assert(s[i] == c);
            assert(s.take(i) =~= a.take(i));
            lemma_first_index_unique(s, c, i);
            let rest = a.skip(i + 1);
            assert(s.skip(i + 1) =~= rest + seq![c] + b);
            lemma_split_concat(rest, b, c);
            assert(split_spec(a, c) == seq![a.take(i)] + split_spec(rest, c));
            assert(split_spec(s, c) =~= seq![a.take(i)] + (split_spec(rest, c) + split_spec(b, c)));
        },
    }
}

/// Text without `c` is one piece.
pub proof fn lemma_split_none(s: Seq<char>, c: char)
    requires
        !s.contains(c),
    ensures
        split_spec(s, c) == seq![s],
{
    lemma_first_index(s, c);
    if first_index(s, c) is Some {
        let i = first_index(s, c)->Some_0;
        assert(s[i] == c);
    }
}

/// Lines without newlines, joined by newlines, split back into the lines.
pub proof fn lemma_split_joined_lines(lines: Seq<Seq<char>>)
    requires
        lines.len() >= 1,
        forall|i: int| 0 <= i < lines.len() ==> !(#[trigger] lines[i]).contains('\n'),
    ensures
        split_spec(sep_joined(lines, "\n"@), '\n') == lines,
    decreases lines.len(),
{
    reveal_strlit("\n");
    if lines.len() == 1 {
        lemma_split_none(lines[0], '\n');
        assert(seq![lines[0]] =~= lines);
    } else {
        let prefix = lines.drop_last();
        assert forall|i: int| 0 <= i < prefix.len() implies !(#[trigger] prefix[i]).contains('\n') by {
            assert(prefix[i] == lines[i]);
        }
        lemma_split_joined_lines(prefix);
        assert("\n"@ =~= seq!['\n']);
        lemma_split_concat(sep_joined(prefix, "\n"@), lines.last(), '\n');
        lemma_split_none(lines.last(), '\n');
        assert(sep_joined(lines, "\n"@) == sep_joined(prefix, "\n"@) + seq!['\n'] + lines.last());
        assert(prefix + seq![lines.last()] =~= lines);
    }
}

/// Before the first `#`: the part of `a + b` before `#` is all of `a`, then
/// the part of `b`, when `a` has no `#`.
pub proof fn lemma_run_before_prefix(a: Seq<char>, b: Seq<char>)
    requires
        !a.contains('#'),
    ensures
        run_before(a + b, seq!['#']) == a.len() + run_before(b, seq!['#']),
    decreases a.len(),
{
    if a.len() > 0 {
        let s = a + b;
        assert(s[0] == a[0]);
        assert(!seq!['#'].contains(a[0])) by {
            if seq!['#'].contains(a[0]) {
                assert(a[0] == '#');
                assert(a.contains('#'));
            }
        }
        let t = a.drop_first();
        assert(!t.contains('#')) by {
            if t.contains('#') {
                let k = choose|k: int| 0 <= k < t.len() && t[k] == '#';
                assert(a[k + 1] == '#');
            }
        }
        lemma_run_before_prefix(t, b);
        assert(s.drop_first() =~= t + b);
    }
}

/// Trimming the start stops at or before a character that is not white space.
pub proof fn lemma_trim_start_skips(s: Seq<char>, k: int) -> (a: int)
    requires
        0 <= k < s.len(),
        !is_white_space(s[k]),
    ensures
        0 <= a <= k,
        trim_start_spec(s) == s.skip(a),
    decreases s.len(),
{
    if is_white_space(s[0]) {
        let t = s.drop_first();
        assert(t[k - 1] == s[k]);
        let a = lemma_trim_start_skips(t, k - 1);
        assert(t.skip(a) =~= s.skip(a + 1));
        a + 1
    } else {
        assert(s.skip(0) =~= s);
        0
    }
}

/// Trimming the end keeps every character up to one that is not white space.
pub proof fn lemma_trim_end_keeps(s: Seq<char>, j: int)
    requires
        0 <= j < s.len(),
        !is_white_space(s[j]),
    ensures
        trim_end_spec(s).len() > j,
    decreases s.len(),
{
    if is_white_space(s.last()) {
        let t = s.drop_last();
        assert(j < s.len() - 1);
        assert(t[j] == s[j]);
        lemma_trim_end_keeps(t, j);
    }
}

/// Text with a character that is not white space trims to something.
pub proof fn lemma_trim_not_empty(s: Seq<char>, k: int)
    requires
        0 <= k < s.len(),
        !is_white_space(s[k]),
    ensures
        trim_spec(s).len() > 0,
{
    let a = lemma_trim_start_skips(s, k);
    let u = s.skip(a);
    assert(u[k - a] == s[k]);
    lemma_trim_end_keeps(u, k - a);
}

/// Items without `c`, joined by a separator without `c`, hold no `c`.
pub proof fn lemma_joined_without(items: Seq<Seq<char>>, sep: Seq<char>, c: char)
    requires
        !sep.contains(c),
        forall|i: int| 0 <= i < items.len() ==> !(#[trigger] items[i]).contains(c),
    ensures
        !sep_joined(items, sep).contains(c),
    decreases items.len(),
{
    if items.len() > 1 {
        let prefix = items.drop_last();
        assert forall|i: int| 0 <= i < prefix.len() implies !(#[trigger] prefix[i]).contains(c) by {
            assert(prefix[i] == items[i]);
        }
        lemma_joined_without(prefix, sep, c);
        let j = sep_joined(prefix, sep);
        let l = items.last();
        assert(!(j + sep + l).contains(c)) by {
            if (j + sep + l).contains(c) {
                let k = choose|k: int| 0 <= k < (j + sep + l).len() && (j + sep + l)[k] == c;
                if k < j.len() {
                    assert(j[k] == c);
                } else if k < j.len() + sep.len() {
                    assert(sep[k - j.len()] == c);
                } else {
                    assert(l[k - j.len() - sep.len()] == c);
                }
            }
        }
    } else if items.len() == 1 {
        assert(!items[0].contains(c));
    }
}

/// Whether text can stand as a card's name in a card list line: no newline,
/// comment mark or bracket.
pub open spec fn name_safe(s: Seq<char>) -> bool {
    !s.contains('\n') && !s.contains('#') && !s.contains('[') && !s.contains(']')
}

/// Whether text can stand as one part of a card list override: safe as a
/// name, and no `:`.
pub open spec fn part_safe(s: Seq<char>) -> bool {
    name_safe(s) && !s.contains(':')
}

proof fn lemma_first_occurrence_at(s: Seq<char>, p: Seq<char>, i: int)
    requires
        occurs_at(s, p, i),
        forall|j: int| 0 <= j < i ==> !occurs_at(s, p, j),
    ensures
        first_occurrence(s, p) == Some(i),
{
    let k = choose|k: int| occurs_at(s, p, k) && forall|j: int| 0 <= j < k ==> !occurs_at(s, p, j);
    if k < i {
        assert(!occurs_at(s, p, k));
    } else if k > i {
        assert(!occurs_at(s, p, i));
    }
}

/// A signed number's spelling holds only digits and `-`.
proof fn lemma_number_text(x: i64)
    ensures
        part_safe(signed_decimal(x as int)),
        !signed_decimal(x as int).contains(' '),
{
    let n: nat = if x < 0 {
        (-(x as int)) as nat
    } else {
        x as nat
    };
    lemma_decimal_digits(n);
    let t = signed_decimal(x as int);
    assert forall|k: int| 0 <= k < t.len() implies t[k] == '-' || is_digit(#[trigger] t[k]) by {
        if x < 0 {
            if k > 0 {
                assert(t[k] == decimal(n)[k - 1]);
            }
        } else {
            assert(t[k] == decimal(n)[k]);
        }
    }
}

/// `{d}:{pos}:{c}`: a variant key.
pub open spec fn key_text(d: Seq<char>, pos: Seq<char>, c: Seq<char>) -> Seq<char> {
    d + ":"@ + pos + ":"@ + c
}

/// `{n}x {title} [{key}]`: the line a query writes for a card.
pub open spec fn card_line(n: nat, title: Seq<char>, d: Seq<char>, pos: Seq<char>, c: Seq<char>) -> Seq<char> {
    decimal(n) + "x "@ + title + " ["@ + key_text(d, pos, c) + "]"@
}

proof fn lemma_key_text(d: Seq<char>, pos: Seq<char>, c: Seq<char>)
    requires
        part_safe(d),
        part_safe(pos),
        part_safe(c),
    ensures
        name_safe(key_text(d, pos, c)),
        trim_spec(key_text(d, pos, c)).len() > 0,
        split_spec(key_text(d, pos, c), ':').len() == 3,
{
    reveal_strlit(":");
    let vk = key_text(d, pos, c);
    assert(vk =~= d + seq![':'] + (pos + seq![':'] + c));
    assert forall|v: int| 0 <= v < vk.len() implies #[trigger] vk[v] != '\n' && vk[v] != '#' && vk[v] != '['
        && vk[v] != ']' by {
        if v < d.len() {
            assert(vk[v] == d[v]);
        } else if v == d.len() {
        } else if v < d.len() + 1 + pos.len() {
            assert(vk[v] == pos[v - d.len() - 1]);
        } else if v == d.len() + 1 + pos.len() {
        } else {
            assert(vk[v] == c[v - d.len() - 2 - pos.len()]);
        }
    }
    assert(vk[d.len() as int] == ':');
    lemma_trim_not_empty(vk, d.len() as int);
    lemma_split_concat(d, pos + seq![':'] + c, ':');
    lemma_split_concat(pos, c, ':');
    lemma_split_none(d, ':');
    lemma_split_none(pos, ':');
    lemma_split_none(c, ':');
}

/// `{title} [{key}]`, bracketed key last.
proof fn lemma_named_override(title: Seq<char>, vk: Seq<char>)
    requires
        name_safe(title),
        name_safe(vk),
        trim_spec(vk).len() > 0,
        split_spec(vk, ':').len() == 3,
    ensures
        ({
            let t = title + " ["@ + vk + "]"@;
            let rest = trim_spec(t);
            &&& !t.contains('\n')
            &&& !t.contains('#')
            &&& brackets_in_order(rest)
            &&& override_error(rest) is None
        }),
{
    reveal_strlit(" [");
    reveal_strlit("]");
    let t = title + " ["@ + vk + "]"@;
    assert(t =~= title + seq![' ', '['] + vk + seq![']']);
    let k = title.len() as int + 1;
    let last = t.len() - 1;
    assert forall|m: int| 0 <= m < t.len() implies #[trigger] t[m] != '\n' && t[m] != '#' && (t[m] == '[' ==> m == k)
        && (t[m] == ']' ==> m == last) by {
        if m < title.len() {
            assert(t[m] == title[m]);
        } else if m < title.len() + 2 {
        } else if m < title.len() + 2 + vk.len() {
            assert(t[m] == vk[m - title.len() - 2]);
        }
    }
    assert(t[k] == '[');
    let a = lemma_trim_start_skips(t, k);
    let u = t.skip(a);
    assert(u.last() == ']');
    assert(trim_end_spec(u) == u);
    let rest = trim_spec(t);
    assert(rest == u);
    assert(u[k - a] == '[');
    assert(!u.take(k - a).contains('[')) by {
        if u.take(k - a).contains('[') {
            let j = choose|j: int| 0 <= j < k - a && #[trigger] u.take(k - a)[j] == '[';
            assert(t[j + a] == '[');
        }
    }
    lemma_first_index_unique(u, '[', k - a);
    assert(u[last - a] == ']');
    assert(!u.take(last - a).contains(']')) by {
        if u.take(last - a).contains(']') {
            let j = choose|j: int| 0 <= j < last - a && #[trigger] u.take(last - a)[j] == ']';
            assert(t[j + a] == ']');
        }
    }
    lemma_first_index_unique(u, ']', last - a);
    assert(u.subrange(k - a + 1, last - a) =~= vk);
}

proof fn lemma_quantity_prefix(dn: Seq<char>, t: Seq<char>)
    requires
        dn.len() > 0,
        all_digits(dn),
    ensures
        parse_quantity_spec(dn + seq!['x', ' '] + t).1 == trim_spec(t),
{
    let base = dn + seq!['x', ' '] + t;
    let dl = dn.len() as int;
    assert(occurs_at(base, times_sep(), dl)) by {
        assert(base.subrange(dl, dl + 2) =~= times_sep());
    }
    assert forall|j: int| 0 <= j < dl implies !occurs_at(base, times_sep(), j) by {
        assert(base[j] == dn[j]);
        assert(is_digit(dn[j]));
        if occurs_at(base, times_sep(), j) {
            assert(base.subrange(j, j + 2)[0] == 'x');
        }
    }
    lemma_first_occurrence_at(base, times_sep(), dl);
    assert(base.take(dl) =~= dn);
    assert(base.skip(dl + 2) =~= t);
}

proof fn lemma_count_prefix_chars(dn: Seq<char>, t: Seq<char>)
    requires
        dn.len() > 0,
        all_digits(dn),
        !t.contains('\n'),
        !t.contains('#'),
    ensures
        !(dn + seq!['x', ' '] + t).contains('\n'),
        !(dn + seq!['x', ' '] + t).contains('#'),
        !is_white_space((dn + seq!['x', ' '] + t)[0]),
{
    let base = dn + seq!['x', ' '] + t;
    let dl = dn.len() as int;
    assert(is_digit(dn[0]));
    assert(base[0] == dn[0]);
    assert forall|k: int| 0 <= k < base.len() implies #[trigger] base[k] != '\n' && base[k] != '#' by {
        if k < dl {
            assert(base[k] == dn[k]);
            assert(is_digit(dn[k]));
        } else if k >= dl + 2 {
            assert(base[k] == t[k - dl - 2]);
        }
    }
}

/// A query's card line reads back as a card list line: its count, then a
/// name, then an override with exactly the three parts it was written with.
pub proof fn lemma_card_line_reads_back(n: nat, title: Seq<char>, d: Seq<char>, pos: Seq<char>, c: Seq<char>)
    requires
        name_safe(title),
        part_safe(d),
        part_safe(pos),
        part_safe(c),
    ensures
        ({
            let base = card_line(n, title, d, pos, c);
            let rest = parse_quantity_spec(base).1;
            &&& !base.contains('\n')
            &&& !base.contains('#')
            &&& base.len() > 0
            &&& !is_white_space(base[0])
            &&& !is_white_space(base.last())
            &&& brackets_in_order(rest)
            &&& override_error(rest) is None
        }),
{
    reveal_strlit("x ");
    reveal_strlit(" [");
    reveal_strlit("]");
    lemma_key_text(d, pos, c);
    let vk = key_text(d, pos, c);
    lemma_named_override(title, vk);
    lemma_decimal_digits(n);
    let dn = decimal(n);
    let t = title + " ["@ + vk + "]"@;
    let base = card_line(n, title, d, pos, c);
    assert(base =~= dn + seq!['x', ' '] + t);
    lemma_count_prefix_chars(dn, t);
    lemma_quantity_prefix(dn, t);
    assert(t =~= title + seq![' ', '['] + vk + seq![']']);
    assert(base.last() == ']');
}

/// A line that is `base`, or `base` padded with spaces and followed by a
/// comment, holds `base` as its content.
pub proof fn lemma_content_of_commented(base: Seq<char>, w: nat, comment: Seq<char>, with_comment: bool)
    requires
        base.len() > 0,
        !base.contains('#'),
        !is_white_space(base[0]),
        !is_white_space(base.last()),
    ensures
        line_content(
            if with_comment {
                pad_right(base, w) + "    # also: "@ + comment
            } else {
                base
            },
        ) == base,
{
    reveal_strlit("    # also: ");
    let stops = seq!['#'];
    if with_comment {
        let a = pad_right(base, w) + seq![' ', ' ', ' ', ' '];
        let line = pad_right(base, w) + "    # also: "@ + comment;
        let b = seq!['#', ' ', 'a', 'l', 's', 'o', ':', ' '] + comment;
        assert(line =~= a + b);
        assert forall|k: int| 0 <= k < a.len() implies #[trigger] a[k] != '#' && (k >= base.len() ==> is_white_space(a[k])) by {
            if k < base.len() {
                assert(a[k] == base[k]);
            }
        }
        assert(!a.contains('#'));
        lemma_run_before_prefix(a, b);
        assert(b[0] == '#');
        assert(stops[0] == '#');
        assert(stops.contains(b[0]));
        assert(run_before(b, stops) == 0);
        assert(before_any(line, stops) =~= a);
        assert(a[0] == base[0]);
        lemma_trim_start_at(a, 0);
        assert(a.subrange(0, a.len() as int) =~= a);
        assert(a[base.len() - 1] == base.last());
        lemma_trim_end_at(a, base.len() as int);
        assert(a.subrange(0, base.len() as int) =~= base);
    } else {
        assert(base =~= base + Seq::<char>::empty());
        lemma_run_before_prefix(base, Seq::<char>::empty());
        assert(before_any(base, stops) =~= base);
        lemma_trim_start_at(base, 0);
        assert(base.subrange(0, base.len() as int) =~= base);
        lemma_trim_end_at(base, base.len() as int);
    }
}

/// Whether a printing's title and key parts can stand in a card list line.
pub open spec fn printing_safe(p: Printing) -> bool {
    name_safe(p.card_title@) && part_safe(display_spec(p)) && part_safe(p.collection@)
}

/// The position part of a printing's variant key.
pub open spec fn position_text(p: Printing) -> Seq<char> {
    match p.position {
        Some(pos) => signed_decimal(pos as int),
        None => Seq::<char>::empty(),
    }
}

proof fn lemma_variant_key_parts(p: Printing)
    ensures
        variant_key_spec(p) == key_text(display_spec(p), position_text(p), p.collection@),
        part_safe(position_text(p)),
{
    reveal_strlit(":");
    assert(variant_key_spec(p) =~= key_text(display_spec(p), position_text(p), p.collection@));
    match p.position {
        Some(pos) => lemma_number_text(pos),
        None => {
            assert(position_text(p) =~= Seq::<char>::empty());
        },
    }
}

proof fn lemma_alternatives_lines(ps: Seq<Printing>, chosen: Printing, n: int)
    requires
        0 <= n <= ps.len(),
        forall|j: int| 0 <= j < ps.len() ==> printing_safe(#[trigger] ps[j]),
    ensures
        forall|k: int| 0 <= k < alternatives(ps, chosen, n).len() ==> !(#[trigger] alternatives(ps, chosen, n)[k]).contains(
            '\n',
        ),
    decreases n,
{
    reveal_strlit("[");
    reveal_strlit("]");
    if n > 0 {
        lemma_alternatives_lines(ps, chosen, n - 1);
        if differs(ps[n - 1], chosen) {
            let p = ps[n - 1];
            lemma_variant_key_parts(p);
            lemma_key_text(display_spec(p), position_text(p), p.collection@);
            let item = "["@ + variant_key_spec(p) + "]"@;
            let vk = variant_key_spec(p);
            assert(!item.contains('\n')) by {
                if item.contains('\n') {
                    let k = choose|k: int| 0 <= k < item.len() && item[k] == '\n';
                    assert(item =~= seq!['['] + vk + seq![']']);
                    assert(vk[k - 1] == '\n');
                }
            }
            let prev = alternatives(ps, chosen, n - 1);
            assert forall|k: int| 0 <= k < prev.push(item).len() implies !(#[trigger] prev.push(item)[k]).contains('\n') by {
                if k < prev.len() {
                    assert(prev.push(item)[k] == prev[k]);
                }
            }
        }
    }
}

proof fn lemma_listed_options(reqs: Seq<CardRequest>, avail: Map<Seq<char>, Vec<Printing>>, i: int, n: int)
    requires
        0 <= i < n,
        listed(reqs, avail, i),
        first_unmatched(reqs, avail, n) is None,
    ensures
        options_for(reqs, avail, i).len() > 0,
    decreases n,
{
    if i < n - 1 {
        lemma_listed_options(reqs, avail, i, n - 1);
    }
}

proof fn lemma_listed_indices(reqs: Seq<CardRequest>, avail: Map<Seq<char>, Vec<Printing>>, n: int)
    requires
        0 <= n <= reqs.len(),
    ensures
        forall|m: int| 0 <= m < listed_indices(reqs, avail, n).len() ==> 0 <= #[trigger] listed_indices(reqs, avail, n)[m] < n
            && listed(reqs, avail, listed_indices(reqs, avail, n)[m]),
    decreases n,
{
    if n > 0 {
        lemma_listed_indices(reqs, avail, n - 1);
        let prev = listed_indices(reqs, avail, n - 1);
        if listed(reqs, avail, n - 1) {
            assert forall|m: int| 0 <= m < prev.push(n - 1).len() implies 0 <= #[trigger] prev.push(n - 1)[m] < n && listed(
                reqs,
                avail,
                prev.push(n - 1)[m],
            ) by {
                if m < prev.len() {
                    assert(prev.push(n - 1)[m] == prev[m]);
                }
            }
        }
    }
}

/// Each line of a query's answer, for a listed request, is a card list line
/// that reads, holds no newline, and makes no error.
proof fn lemma_query_line_reads(reqs: Seq<CardRequest>, avail: Map<Seq<char>, Vec<Printing>>, i: int, w: nat)
    requires
        0 <= i < reqs.len(),
        listed(reqs, avail, i),
        options_for(reqs, avail, i).len() > 0,
        forall|j: int| 0 <= j < options_for(reqs, avail, i).len() ==> printing_safe(#[trigger] options_for(reqs, avail, i)[j]),
    ensures
        !query_line(reqs, avail, i, w).contains('\n'),
        line_readable(query_line(reqs, avail, i, w)),
        line_entry(query_line(reqs, avail, i, w)) matches Some(Ok(_)),
{
    reveal_strlit("    # also: ");
    reveal_strlit(", ");
    let ps = options_for(reqs, avail, i);
    lemma_best_is_first_unbeaten(reqs[i], ps, ps.len() as int);
    let p = chosen_for(reqs, avail, i);
    assert(printing_safe(p));
    lemma_variant_key_parts(p);
    let n = key_count(reqs, request_key(reqs[i]), reqs.len() as int);
    let base = base_line(reqs, avail, i);
    assert(base == card_line(n, p.card_title@, display_spec(p), position_text(p), p.collection@));
    lemma_card_line_reads_back(n, p.card_title@, display_spec(p), position_text(p), p.collection@);
    let alts = alternatives(ps, p, ps.len() as int);
    let comment = sep_joined(alts, ", "@);
    lemma_content_of_commented(base, w, comment, alts.len() > 0);
    let line = query_line(reqs, avail, i, w);
    assert(line == (if alts.len() > 0 {
        pad_right(base, w) + "    # also: "@ + comment
    } else {
        base
    }));
    assert(line_content(line) == base);
    lemma_alternatives_lines(ps, p, ps.len() as int);
    assert(!", "@.contains('\n')) by {
        if ", "@.contains('\n') {
            let k = choose|k: int| 0 <= k < ", "@.len() && ", "@[k] == '\n';
            assert(", "@ =~= seq![',', ' ']);
        }
    }
    lemma_joined_without(alts, ", "@, '\n');
    if alts.len() > 0 {
        let padded = pad_right(base, w);
        assert(!line.contains('\n')) by {
            if line.contains('\n') {
                let k = choose|k: int| 0 <= k < line.len() && line[k] == '\n';
                let lit = "    # also: "@;
                assert(lit =~= seq![' ', ' ', ' ', ' ', '#', ' ', 'a', 'l', 's', 'o', ':', ' ']);
                if k < padded.len() {
                    if k < base.len() {
                        assert(padded[k] == base[k]);
                    }
                } else if k < padded.len() + lit.len() {
                    assert(line[k] == lit[k - padded.len()]);
                } else {
                    assert(line[k] == comment[k - padded.len() - lit.len()]);
                }
            }
        }
    }
}

proof fn lemma_cardlist_ok(lines: Seq<Seq<char>>, n: int)
    requires
        0 <= n <= lines.len(),
        forall|k: int| 0 <= k < lines.len() ==> !(#[trigger] line_entry(lines[k]) matches Some(Err(_))),
    ensures
        cardlist_spec(lines, n) is Ok,
    decreases n,
{
    if n > 0 {
        lemma_cardlist_ok(lines, n - 1);
        assert(!(line_entry(lines[n - 1]) matches Some(Err(_))));
    }
}

/// A query's answer is a card list: every line of it reads, and the card
/// list it makes parses without error, where the printings on offer have
/// titles and key parts a card list line can hold (no newline, `#` or
/// bracket, and no `:` in a key part).
pub proof fn lemma_query_answer_is_a_card_list(reqs: Seq<CardRequest>, avail: Map<Seq<char>, Vec<Printing>>)
    requires
        first_unmatched(reqs, avail, reqs.len() as int) is None,
        forall|i: int, j: int|
            0 <= i < reqs.len() && listed(reqs, avail, i) && 0 <= j < options_for(reqs, avail, i).len() ==> printing_safe(
                #[trigger] options_for(reqs, avail, i)[j],
            ),
    ensures
        ({
            let lines = split_spec(query_output_spec(reqs, avail), '\n');
            &&& forall|k: int| 0 <= k < lines.len() ==> line_readable(#[trigger] lines[k])
            &&& cardlist_spec(lines, lines.len() as int) is Ok
        }),
{
    let idx = listed_indices(reqs, avail, reqs.len() as int);
    let width = widest(reqs, avail, idx);
    let lines = idx.map_values(|i: int| query_line(reqs, avail, i, width));
    lemma_listed_indices(reqs, avail, reqs.len() as int);
    assert forall|m: int| 0 <= m < lines.len() implies !(#[trigger] lines[m]).contains('\n') && line_readable(lines[m])
        && line_entry(lines[m]) matches Some(Ok(_)) by {
        let i = idx[m];
        lemma_listed_options(reqs, avail, i, reqs.len() as int);
        assert forall|j: int| 0 <= j < options_for(reqs, avail, i).len() implies printing_safe(
            #[trigger] options_for(reqs, avail, i)[j],
        ) by {}
        lemma_query_line_reads(reqs, avail, i, width);
    }
    let out = query_output_spec(reqs, avail);
    assert(out == sep_joined(lines, "\n"@));
    if lines.len() == 0 {
        assert(out =~= Seq::<char>::empty());
        lemma_first_index(out, '\n');
        let split = split_spec(out, '\n');
        assert(split =~= seq![out]);
        assert(before_any(out, seq!['#']) =~= Seq::<char>::empty());
        assert(trim_start_spec(Seq::<char>::empty()) =~= Seq::<char>::empty());
        assert(trim_end_spec(Seq::<char>::empty()) =~= Seq::<char>::empty());
        assert(line_content(out).len() == 0);
        assert(line_entry(split[0]) is None);
        lemma_cardlist_ok(split, split.len() as int);
    } else {
        lemma_split_joined_lines(lines);
        let split = split_spec(out, '\n');
        assert(split == lines);
        lemma_cardlist_ok(split, split.len() as int);
    }
}

} // verus!
