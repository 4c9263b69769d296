//! "Are we there yet": the listing of which mods of a modpack already
//! support a Minecraft version, and the refresh button that re-runs the
//! check.

use vstd::prelude::*;
use crate::text::{
    lemma_split_on_concat, lemma_split_on_without, lemma_decimal_digits, split_chars, split_on, views,
    same_text, chars_start_with, starts_with, u64_text,
    chars_le, chars_of, lemma_text_le_total, lemma_text_le_transitive, lemma_text_le_reflexive,
    lemma_text_le_antisymmetric, decimal, push_chars, push_char, text_le, utf8_len, utf8_len_capped,
    lemma_utf8_len_concat, write_decimal,
};

verus! {

/// Largest number of bytes the listing body may take before lines are
/// left out.
pub const MAX_LISTING_BYTES: usize = 3900;

/// One line of the listing: the mod's name and a mark for whether it
/// supports the target version.
pub open spec fn listing_line(name: Seq<char>, supported: bool) -> Seq<char> {
    name + seq![' ', '-', ' ', if supported { '\u{2705}' } else { '\u{274C}' }, '\n']
}

/// The body of the listing and the number of lines left out: lines are
/// added in order while the body stays within the byte budget; a line that
/// would overflow it is counted as hidden instead.
pub open spec fn listing_fold(entries: Seq<(Seq<char>, bool)>) -> (Seq<char>, nat)
    decreases entries.len(),
{
    if entries.len() == 0 {
        (Seq::<char>::empty(), 0)
    } else {
        let (body, hidden) = listing_fold(entries.drop_last());
        let line = listing_line(entries.last().0, entries.last().1);
        if utf8_len(body) + utf8_len(line) > MAX_LISTING_BYTES {
            (body, hidden + 1)
        } else {
            (body + line, hidden)
        }
    }
}

/// The totals line: supported over total, with the percentage (rounded down)
/// when asked for; nothing when there are no mods.
pub open spec fn totals_text(enabled: nat, total: nat, percentage: bool) -> Seq<char> {
    if total > 0 {
        if percentage {
            "\ntotal: "@ + decimal(enabled) + "/"@ + decimal(total) + " ("@ + decimal(
                (enabled * 100) / total,
            ) + "%)\n"@
        } else {
            "\ntotal: "@ + decimal(enabled) + "/"@ + decimal(total) + "\n"@
        }
    } else {
        Seq::<char>::empty()
    }
}

/// The whole listing for entries already in display order.
pub open spec fn listing_text(
    entries: Seq<(Seq<char>, bool)>,
    enabled: nat,
    total: nat,
    percentage: bool,
) -> Seq<char> {
    let (body, hidden) = listing_fold(entries);
    body + (if hidden > 0 {
        "\n... and "@ + decimal(hidden) + " more mods\n"@
    } else {
        Seq::<char>::empty()
    }) + totals_text(enabled, total, percentage)
}

/// Where a stable insertion places an entry named `key` into `s`: after
/// every leading entry whose name is not greater.
pub open spec fn insert_position(s: Seq<(Seq<char>, bool)>, key: Seq<char>) -> nat
    decreases s.len(),
{
    if s.len() == 0 {
        0
    } else if text_le(s[0].0, key) {
        1 + insert_position(s.drop_first(), key)
    } else {
        0
    }
}

/// `s` sorted by name, equal names keeping their order (a stable sort, as
/// `slice::sort_by` is).
pub open spec fn sort_by_name(s: Seq<(Seq<char>, bool)>) -> Seq<(Seq<char>, bool)>
    decreases s.len(),
{
    if s.len() == 0 {
        s
    } else {
        let sorted = sort_by_name(s.drop_last());
        sorted.insert(insert_position(sorted, s.last().0) as int, s.last())
    }
}

/// The views of entries whose names are held as characters.
pub open spec fn entry_views(v: Seq<(Vec<char>, bool)>) -> Seq<(Seq<char>, bool)> {
    v.map_values(|e: (Vec<char>, bool)| (e.0@, e.1))
}

proof fn lemma_insert_position_bound(s: Seq<(Seq<char>, bool)>, key: Seq<char>)
    ensures
        insert_position(s, key) <= s.len(),
    decreases s.len(),
{
    if s.len() > 0 {
        lemma_insert_position_bound(s.drop_first(), key);
    }
}

proof fn lemma_sort_len(s: Seq<(Seq<char>, bool)>)
    ensures
        sort_by_name(s).len() == s.len(),
    decreases s.len(),
{
    if s.len() > 0 {
        lemma_sort_len(s.drop_last());
        lemma_insert_position_bound(sort_by_name(s.drop_last()), s.last().0);
    }
}

proof fn lemma_insert_position_split(s: Seq<(Seq<char>, bool)>, key: Seq<char>)
    ensures
        forall|i: int| 0 <= i < insert_position(s, key) ==> text_le(#[trigger] s[i].0, key),
        insert_position(s, key) < s.len() ==> !text_le(s[insert_position(s, key) as int].0, key),
    decreases s.len(),
{
    lemma_insert_position_bound(s, key);
    if s.len() > 0 && text_le(s[0].0, key) {
        let t = s.drop_first();
        lemma_insert_position_split(t, key);
        assert forall|i: int| 0 <= i < insert_position(s, key) implies text_le(
            #[trigger] s[i].0,
            key,
        ) by {
            if i > 0 {
                assert(s[i] == t[i - 1]);
            }
        }
        if insert_position(s, key) < s.len() {
            assert(s[insert_position(s, key) as int] == t[insert_position(t, key) as int]);
        }
    }
}

/// The listing order: entries sorted by name come in the text order of
/// their names, and they are the same entries, each as often as before.
pub proof fn lemma_sort_by_name_sorted(s: Seq<(Seq<char>, bool)>)
    ensures
        forall|i: int, j: int|
            0 <= i < j < sort_by_name(s).len() ==> text_le(
                #[trigger] sort_by_name(s)[i].0,
                #[trigger] sort_by_name(s)[j].0,
            ),
        sort_by_name(s).to_multiset() == s.to_multiset(),
        sort_by_name(s).len() == s.len(),
    decreases s.len(),
{
    lemma_sort_len(s);
    if s.len() > 0 {
        let prev = s.drop_last();
        lemma_sort_by_name_sorted(prev);
        let sorted = sort_by_name(prev);
        let x = s.last();
        let p = insert_position(sorted, x.0);
        lemma_insert_position_bound(sorted, x.0);
        lemma_insert_position_split(sorted, x.0);
        let r = sorted.insert(p as int, x);
        assert(r == sort_by_name(s));
        vstd::seq_lib::to_multiset_insert(sorted, p as int, x);
        vstd::seq_lib::to_multiset_build(prev, x);
        assert(prev.push(x) =~= s);
        assert forall|i: int, j: int| 0 <= i < j < r.len() implies text_le(
            #[trigger] r[i].0,
            #[trigger] r[j].0,
        ) by {
            if j < p {
                assert(r[i] == sorted[i]);
                assert(r[j] == sorted[j]);
            } else if j == p {
                assert(r[i] == sorted[i]);
                assert(r[j] == x);
            } else if i == p {
                assert(r[i] == x);
                assert(r[j] == sorted[j - 1]);
                lemma_text_le_total(sorted[p as int].0, x.0);
                if j - 1 > p {
                    assert(text_le(sorted[p as int].0, sorted[j - 1].0));
                    lemma_text_le_transitive(x.0, sorted[p as int].0, sorted[j - 1].0);
                }
            } else if i < p {
                assert(r[i] == sorted[i]);
                assert(r[j] == sorted[j - 1]);
            } else {
                assert(r[i] == sorted[i - 1]);
                assert(r[j] == sorted[j - 1]);
            }
        }
    }
}

/// Sorts entries by name, stably.
pub fn sort_entries(v: Vec<(Vec<char>, bool)>) -> (r: Vec<(Vec<char>, bool)>)
    ensures
        entry_views(r@) == sort_by_name(entry_views(v@)),
{
    let ghost orig = entry_views(v@);
    let n = v.len();
    let mut rest = v;
    let mut out: Vec<(Vec<char>, bool)> = Vec::new();
    let mut k: usize = 0;
    assert(orig.subrange(0, 0) =~= Seq::<(Seq<char>, bool)>::empty());
    assert(entry_views(rest@) =~= orig.subrange(0, n as int));
    while k < n
        invariant
            k <= n,
            n == orig.len(),
            entry_views(rest@) == orig.subrange(k as int, n as int),
            entry_views(out@) == sort_by_name(orig.subrange(0, k as int)),
        decreases n - k,
    {
        assert(entry_views(rest@).len() == rest@.len());
        assert(rest@.len() == n - k);
        let ghost before = rest@;
        assert(entry_views(before)[0] == orig[k as int]);
        let e = rest.remove(0);
        let ghost ev = (e.0@, e.1);
        assert(e == before[0]);
        assert(ev == entry_views(before)[0]);
        assert(ev == orig[k as int]);
        assert forall|i: int| 0 <= i < rest@.len() implies #[trigger] entry_views(rest@)[i]
            == orig[k + 1 + i] by {
            assert(rest@[i] == before[i + 1]);
            assert(entry_views(before)[i + 1] == orig[k + 1 + i]);
        }
        assert(entry_views(rest@) =~= orig.subrange(k + 1, n as int));
        let ghost sorted = entry_views(out@);
        let ghost next = orig.subrange(0, k + 1);
        assert(next.drop_last() =~= orig.subrange(0, k as int));
        assert(next.last() == ev);
        let mut j: usize = 0;
        assert(sorted.subrange(0, sorted.len() as int) =~= sorted);
        while j < out.len() && chars_le(&out[j].0, &e.0)
            invariant
                j <= out@.len(),
                sorted == entry_views(out@),
                insert_position(sorted, ev.0) == j + insert_position(
                    sorted.subrange(j as int, sorted.len() as int),
                    ev.0,
                ),
                ev.0 == e.0@,
            decreases out@.len() - j,
        {
            let ghost tail = sorted.subrange(j as int, sorted.len() as int);
            assert(tail[0] == sorted[j as int]);
            assert(tail.drop_first() =~= sorted.subrange(j + 1, sorted.len() as int));
            j = j + 1;
        }
        proof {
            let tail = sorted.subrange(j as int, sorted.len() as int);
            if j < out@.len() {
                assert(tail[0] == sorted[j as int]);
            } else {
                assert(tail.len() == 0);
            }
            assert(insert_position(sorted, ev.0) == j);
        }
        out.insert(j, e);
        assert(entry_views(out@) =~= sorted.insert(j as int, ev));
        k = k + 1;
    }
    assert(orig.subrange(0, n as int) =~= orig);
    out
}


proof fn lemma_line_len(name: Seq<char>, supported: bool)
    ensures
        utf8_len(listing_line(name, supported)) == utf8_len(name) + 7,
{
    let mark = if supported {
        '\u{2705}'
    } else {
        '\u{274C}'
    };
    let tail = seq![' ', '-', ' ', mark, '\n'];
    reveal_with_fuel(utf8_len, 6);
    assert(tail.drop_first() =~= seq!['-', ' ', mark, '\n']);
    assert(tail.drop_first().drop_first() =~= seq![' ', mark, '\n']);
    assert(tail.drop_first().drop_first().drop_first() =~= seq![mark, '\n']);
    assert(tail.drop_first().drop_first().drop_first().drop_first() =~= seq!['\n']);
    assert(tail.drop_first().drop_first().drop_first().drop_first().drop_first()
        =~= Seq::<char>::empty());
    assert(utf8_len(tail) == 7);
    lemma_utf8_len_concat(name, tail);
}

/// Appends the totals line.
fn push_totals(s: &mut String, enabled: usize, total: usize, percentage: bool)
    requires
        total > 0 && percentage ==> enabled * 100 <= usize::MAX,
    ensures
        final(s)@ == old(s)@ + totals_text(enabled as nat, total as nat, percentage),
{
    if total > 0 {
        s.append("\ntotal: ");
        write_decimal(s, enabled as u64);
        s.append("/");
        write_decimal(s, total as u64);
        if percentage {
            let percent = (enabled * 100) / total;
            s.append(" (");
            write_decimal(s, percent as u64);
            s.append("%)\n");
        } else {
            s.append("\n");
        }
    }
}

/// Renders the listing for entries already in display order.
pub fn build_listing(
    entries: &Vec<(Vec<char>, bool)>,
    enabled: usize,
    total: usize,
    percentage: bool,
) -> (r: String)
    requires
        total > 0 && percentage ==> enabled * 100 <= usize::MAX,
    ensures
        r@ == listing_text(entry_views(entries@), enabled as nat, total as nat, percentage),
{
    let ghost ev = entry_views(entries@);
    let mut body = String::new();
    let mut body_len: usize = 0;
    let mut hidden: usize = 0;
    let mut i: usize = 0;
    assert(ev.subrange(0, 0) =~= Seq::<(Seq<char>, bool)>::empty());
    while i < entries.len()
        invariant
            i <= entries@.len(),
            ev == entry_views(entries@),
            (body@, hidden as nat) == listing_fold(ev.subrange(0, i as int)),
            body_len as nat == utf8_len(body@),
            body_len <= MAX_LISTING_BYTES,
            hidden <= i,
        decreases entries@.len() - i,
    {
        let ghost next = ev.subrange(0, i + 1);
        assert(next.drop_last() =~= ev.subrange(0, i as int));
        assert(next.last() == (entries@[i as int].0@, entries@[i as int].1));
        let name = &entries[i].0;
        let supported = entries[i].1;
        let name_len = utf8_len_capped(name, 3901);
        proof {
            lemma_line_len(name@, supported);
        }
        if body_len + name_len + 7 > MAX_LISTING_BYTES {
            hidden = hidden + 1;
        } else {
            let ghost before = body@;
            push_chars(&mut body, name, 0, name.len());
            push_char(&mut body, ' ');
            push_char(&mut body, '-');
            push_char(&mut body, ' ');
            if supported {
                push_char(&mut body, '\u{2705}');
            } else {
                push_char(&mut body, '\u{274C}');
            }
            push_char(&mut body, '\n');
            assert(name@.subrange(0, name@.len() as int) =~= name@);
            assert(body@ =~= before + listing_line(name@, supported));
            proof {
                lemma_utf8_len_concat(before, listing_line(name@, supported));
            }
            body_len = body_len + name_len + 7;
        }
        i = i + 1;
    }
    assert(ev.subrange(0, entries@.len() as int) =~= ev);
    let ghost folded = body@;
    if hidden > 0 {
        body.append("\n... and ");
        write_decimal(&mut body, hidden as u64);
        body.append(" more mods\n");
    }
    push_totals(&mut body, enabled, total, percentage);
    assert(body@ =~= listing_text(ev, enabled as nat, total as nat, percentage));
    body
}


/// Every line of the entries, one after the other.
pub open spec fn all_lines(entries: Seq<(Seq<char>, bool)>) -> Seq<char>
    decreases entries.len(),
{
    if entries.len() == 0 {
        Seq::<char>::empty()
    } else {
        all_lines(entries.drop_last()) + listing_line(entries.last().0, entries.last().1)
    }
}

/// The listing body stays within the byte budget, and no more lines are
/// left out than there are entries.
pub proof fn lemma_listing_within_budget(entries: Seq<(Seq<char>, bool)>)
    ensures
        utf8_len(listing_fold(entries).0) <= MAX_LISTING_BYTES,
        listing_fold(entries).1 <= entries.len(),
    decreases entries.len(),
{
    if entries.len() > 0 {
        let prev = entries.drop_last();
        lemma_listing_within_budget(prev);
        let line = listing_line(entries.last().0, entries.last().1);
        lemma_utf8_len_concat(listing_fold(prev).0, line);
    }
}

/// When all the lines fit in the budget, every line is shown, in order, and
/// none is counted as left out.
pub proof fn lemma_listing_all_shown(entries: Seq<(Seq<char>, bool)>)
    requires
        utf8_len(all_lines(entries)) <= MAX_LISTING_BYTES,
    ensures
        listing_fold(entries) == (all_lines(entries), 0nat),
    decreases entries.len(),
{
    if entries.len() > 0 {
        let prev = entries.drop_last();
        let line = listing_line(entries.last().0, entries.last().1);
        lemma_utf8_len_concat(all_lines(prev), line);
        lemma_listing_all_shown(prev);
    }
}

/// Number of entries marked supported.
pub open spec fn count_supported(s: Seq<(Seq<char>, bool)>) -> nat
    decreases s.len(),
{
    if s.len() == 0 {
        0
    } else {
        count_supported(s.drop_last()) + if s.last().1 {
            1nat
        } else {
            0nat
        }
    }
}

proof fn lemma_count_supported_bound(s: Seq<(Seq<char>, bool)>)
    ensures
        count_supported(s) <= s.len(),
    decreases s.len(),
{
    if s.len() > 0 {
        lemma_count_supported_bound(s.drop_last());
    }
}

/// The views of (name, status) pairs.
pub open spec fn status_views(v: Seq<(String, bool)>) -> Seq<(Seq<char>, bool)> {
    v.map_values(|e: (String, bool)| (e.0@, e.1))
}

/// Formats the support status of each mod (name and whether it supports the
/// target version): sorted by name, one line each within the byte budget, a
/// count of the lines left out, and the supported total.
pub fn format_mod_statuses(results: &Vec<(String, bool)>, percentage: bool) -> (r: String)
    requires
        percentage && results@.len() > 0 ==> count_supported(status_views(results@)) * 100
            <= usize::MAX,
    ensures
        r@ == listing_text(
            sort_by_name(status_views(results@)),
            count_supported(status_views(results@)),
            results@.len(),
            percentage,
        ),
{
    let ghost sv = status_views(results@);
    let mut entries: Vec<(Vec<char>, bool)> = Vec::new();
    let mut enabled: usize = 0;
    let mut i: usize = 0;
    while i < results.len()
        invariant
            i <= results@.len(),
            sv == status_views(results@),
            entry_views(entries@) == sv.subrange(0, i as int),
            enabled as nat == count_supported(sv.subrange(0, i as int)),
            enabled <= i,
        decreases results@.len() - i,
    {
        let name = chars_of(results[i].0.as_str());
        let ok = results[i].1;
        assert(sv.subrange(0, i + 1).drop_last() =~= sv.subrange(0, i as int));
        if ok {
            enabled = enabled + 1;
        }
        entries.push((name, ok));
        assert(entry_views(entries@) =~= sv.subrange(0, i + 1));
        i = i + 1;
    }
    assert(sv.subrange(0, results@.len() as int) =~= sv);
    let total = results.len();
    let sorted = sort_entries(entries);
    build_listing(&sorted, enabled, total, percentage)
}

/// Whether no two entries share a name.
pub open spec fn distinct_names(s: Seq<(Seq<char>, bool)>) -> bool {
    forall|i: int, j: int|
        0 <= i < s.len() && 0 <= j < s.len() && i != j ==> #[trigger] s[i].0 != #[trigger] s[j].0
}

/// Entries ordered by name, and for one name the unsupported one first.
spec fn entry_le(a: (Seq<char>, bool), b: (Seq<char>, bool)) -> bool {
    text_le(a.0, b.0) && (a.0 == b.0 ==> (!a.1 || b.1))
}

proof fn lemma_entry_le_total()
    ensures
        vstd::relations::total_ordering(|a: (Seq<char>, bool), b: (Seq<char>, bool)| entry_le(a, b)),
{
    let r = |a: (Seq<char>, bool), b: (Seq<char>, bool)| entry_le(a, b);
    assert forall|x: (Seq<char>, bool)| #[trigger] r(x, x) by {
        lemma_text_le_reflexive(x.0);
    }
    assert forall|x: (Seq<char>, bool), y: (Seq<char>, bool)| #[trigger] r(x, y) && #[trigger] r(y, x)
        implies x == y by {
        lemma_text_le_antisymmetric(x.0, y.0);
    }
    assert forall|x: (Seq<char>, bool), y: (Seq<char>, bool), z: (Seq<char>, bool)| #[trigger] r(x, y)
        && #[trigger] r(y, z) implies r(x, z) by {
        lemma_text_le_transitive(x.0, y.0, z.0);
        if x.0 == z.0 {
            lemma_text_le_antisymmetric(x.0, y.0);
        }
    }
    assert forall|x: (Seq<char>, bool), y: (Seq<char>, bool)| #[trigger] r(x, y) || #[trigger] r(y, x) by {
        lemma_text_le_total(x.0, y.0);
        if text_le(x.0, y.0) && text_le(y.0, x.0) {
            lemma_text_le_antisymmetric(x.0, y.0);
        }
    }
}

/// A sorted permutation of entries with distinct names is sorted by
/// `entry_le` and has distinct names.
proof fn lemma_sorted_distinct(s: Seq<(Seq<char>, bool)>)
    requires
        distinct_names(s),
    ensures
        vstd::relations::sorted_by(
            sort_by_name(s),
            |a: (Seq<char>, bool), b: (Seq<char>, bool)| entry_le(a, b),
        ),
{
    broadcast use vstd::seq_lib::group_to_multiset_ensures;

    lemma_sort_by_name_sorted(s);
    let r = sort_by_name(s);
    assert(s.no_duplicates()) by {
        assert forall|i: int, j: int| 0 <= i < s.len() && 0 <= j < s.len() && i != j implies s[i]
            != s[j] by {
            assert(s[i].0 != s[j].0);
        }
    }
    s.lemma_multiset_has_no_duplicates();
    assert forall|x: (Seq<char>, bool)| r.to_multiset().contains(x) implies r.to_multiset().count(x)
        == 1 by {
    }
    r.lemma_multiset_has_no_duplicates_conv();
    assert forall|i: int, j: int| 0 <= i < j < r.len() implies #[trigger] entry_le(r[i], r[j]) by {
        assert(text_le(r[i].0, r[j].0));
        if r[i].0 == r[j].0 {
            assert(r[i] != r[j]);
            assert(r.contains(r[i]));
            assert(r.contains(r[j]));
            assert(r.to_multiset().count(r[i]) > 0);
            assert(r.to_multiset().count(r[j]) > 0);
            assert(s.contains(r[i]));
            assert(s.contains(r[j]));
            let p = choose|p: int| 0 <= p < s.len() && s[p] == r[i];
            let q = choose|q: int| 0 <= q < s.len() && s[q] == r[j];
            assert(s[p].0 == s[q].0);
        }
    }
}

/// Sorting entries with distinct names gives the same order whatever order
/// they came in.
pub proof fn lemma_sort_ignores_order(s1: Seq<(Seq<char>, bool)>, s2: Seq<(Seq<char>, bool)>)
    requires
        s1.to_multiset() == s2.to_multiset(),
        distinct_names(s1),
    ensures
        sort_by_name(s1) == sort_by_name(s2),
{
    broadcast use vstd::seq_lib::group_to_multiset_ensures;

    lemma_sort_by_name_sorted(s1);
    lemma_sort_by_name_sorted(s2);
    assert(distinct_names(s2)) by {
        assert forall|i: int, j: int| 0 <= i < s2.len() && 0 <= j < s2.len() && i != j implies #[trigger] s2[i].0
            != #[trigger] s2[j].0 by {
            if s2[i].0 == s2[j].0 {
                assert(s2.contains(s2[i]));
                assert(s2.contains(s2[j]));
                assert(s2.to_multiset().count(s2[i]) > 0);
                assert(s2.to_multiset().count(s2[j]) > 0);
                assert(s1.contains(s2[i]));
                assert(s1.contains(s2[j]));
                let p = choose|p: int| 0 <= p < s1.len() && s1[p] == s2[i];
                let q = choose|q: int| 0 <= q < s1.len() && s1[q] == s2[j];
                if p == q {
                    // the same entry at two places of s2: it would occur twice in s1
                    assert(s1.no_duplicates()) by {
                        assert forall|a: int, b: int| 0 <= a < s1.len() && 0 <= b < s1.len() && a != b
                            implies s1[a] != s1[b] by {
                            assert(s1[a].0 != s1[b].0);
                        }
                    }
                    s1.lemma_multiset_has_no_duplicates();
                    assert(s2.to_multiset().count(s2[i]) == 1);
                    s2.lemma_multiset_has_no_duplicates_conv();
                }
            }
        }
    }
    lemma_sorted_distinct(s1);
    lemma_sorted_distinct(s2);
    lemma_entry_le_total();
    vstd::seq_lib::lemma_sorted_unique(
        sort_by_name(s1),
        sort_by_name(s2),
        |a: (Seq<char>, bool), b: (Seq<char>, bool)| entry_le(a, b),
    );
}

proof fn lemma_count_supported_insert(s: Seq<(Seq<char>, bool)>, p: int, x: (Seq<char>, bool))
    requires
        0 <= p <= s.len(),
    ensures
        count_supported(s.insert(p, x)) == count_supported(s) + if x.1 {
            1nat
        } else {
            0nat
        },
    decreases s.len(),
{
    if p == s.len() {
        assert(s.insert(p, x) =~= s.push(x));
        assert(s.push(x).drop_last() =~= s);
    } else {
        lemma_count_supported_insert(s.drop_last(), p, x);
        assert(s.insert(p, x).drop_last() =~= s.drop_last().insert(p, x));
        assert(s.insert(p, x).last() == s.last());
    }
}

proof fn lemma_count_supported_sorted(s: Seq<(Seq<char>, bool)>)
    ensures
        count_supported(sort_by_name(s)) == count_supported(s),
    decreases s.len(),
{
    if s.len() > 0 {
        let prev = s.drop_last();
        lemma_count_supported_sorted(prev);
        let sorted = sort_by_name(prev);
        lemma_insert_position_bound(sorted, s.last().0);
        lemma_count_supported_insert(sorted, insert_position(sorted, s.last().0) as int, s.last());
    }
}

/// The listing does not depend on the order in which the (name, status)
/// pairs come, as long as no name occurs twice (as in a map keyed by name).
pub proof fn lemma_listing_ignores_order(r1: Seq<(String, bool)>, r2: Seq<(String, bool)>, percentage: bool)
    requires
        status_views(r1).to_multiset() == status_views(r2).to_multiset(),
        distinct_names(status_views(r1)),
    ensures
        listing_text(
            sort_by_name(status_views(r1)),
            count_supported(status_views(r1)),
            r1.len(),
            percentage,
        ) == listing_text(
            sort_by_name(status_views(r2)),
            count_supported(status_views(r2)),
            r2.len(),
            percentage,
        ),
{
    let s1 = status_views(r1);
    let s2 = status_views(r2);
    lemma_sort_ignores_order(s1, s2);
    lemma_count_supported_sorted(s1);
    lemma_count_supported_sorted(s2);
    lemma_sort_len(s1);
    lemma_sort_len(s2);
}

/// One mod of a modpack check: its project id, its display name if known,
/// and whether it has a release for the target version.
pub struct ModStatus {
    pub id: String,
    pub name: Option<String>,
    pub supports_target_version: bool,
}

/// The outcome of checking a modpack against a Minecraft version.
pub struct ModpackReport {
    pub mods: Vec<ModStatus>,
    pub total_mods: usize,
    pub supported_mods_count: usize,
    pub target_minecraft_version: String,
}

/// The name a mod is listed under: its display name, else its id.
pub open spec fn display_name(m: ModStatus) -> Seq<char> {
    match m.name {
        Some(n) => n@,
        None => m.id@,
    }
}

/// The (name, supported) pairs of a report's mods, in report order.
pub open spec fn report_entries(mods: Seq<ModStatus>) -> Seq<(Seq<char>, bool)> {
    mods.map_values(|m: ModStatus| (display_name(m), m.supports_target_version))
}

/// `content` in a `text` code block, as embed descriptions show listings.
pub open spec fn text_block(content: Seq<char>) -> Seq<char> {
    "```text\n"@ + content + "\n```"@
}

/// Description of the report embed: the listing of the report's mods,
/// sorted by name, with the report's own totals.
pub fn awty_embed_description(report: &ModpackReport, add_percentage: bool) -> (r: String)
    requires
        report.total_mods > 0 && add_percentage ==> report.supported_mods_count * 100
            <= usize::MAX,
    ensures
        r@ == text_block(
            listing_text(
                sort_by_name(report_entries(report.mods@)),
                report.supported_mods_count as nat,
                report.total_mods as nat,
                add_percentage,
            ),
        ),
{
    let ghost re = report_entries(report.mods@);
    let mut entries: Vec<(Vec<char>, bool)> = Vec::new();
    let mut i: usize = 0;
    while i < report.mods.len()
        invariant
            i <= report.mods@.len(),
            re == report_entries(report.mods@),
            entry_views(entries@) == re.subrange(0, i as int),
        decreases report.mods@.len() - i,
    {
        let m = &report.mods[i];
        let name = match &m.name {
            Some(n) => chars_of(n.as_str()),
            None => chars_of(m.id.as_str()),
        };
        assert(name@ == display_name(report.mods@[i as int]));
        assert(re[i as int] == (name@, m.supports_target_version));
        let ghost before = entries@;
        entries.push((name, m.supports_target_version));
        assert(entry_views(entries@) =~= entry_views(before).push(re[i as int]));
        assert(entry_views(entries@) =~= re.subrange(0, i + 1));
        i = i + 1;
    }
    assert(re.subrange(0, report.mods@.len() as int) =~= re);
    let sorted = sort_entries(entries);
    let listing = build_listing(
        &sorted,
        report.supported_mods_count,
        report.total_mods,
        add_percentage,
    );
    let mut out = String::from_str("```text\n");
    out.append(listing.as_str());
    out.append("\n```");
    out
}

/// Title of the report embed.
pub fn update_status_title(version: &str) -> (r: String)
    ensures
        r@ == "update status for "@ + version@,
{
    let mut out = String::from_str("update status for ");
    out.append(version);
    out
}

/// Description of the status embed built from a formatted listing.
pub fn status_block(formatted: &str) -> (r: String)
    ensures
        r@ == text_block(formatted@),
{
    let mut out = String::from_str("```text\n");
    out.append(formatted);
    out.append("\n```");
    out
}


/// What a refresh button carries: who asked, whether to show the
/// percentage, the Minecraft version and the pack URL.
pub struct RefreshRequest {
    pub author_id: String,
    pub add_percentage: bool,
    pub version: String,
    pub url: String,
}

/// The custom id of a refresh button:
/// `rf_awty|<author id>|<1 or 0>|<version>|<url>`.
pub open spec fn refresh_id_text(author: u64, add_percentage: bool, version: Seq<char>, url: Seq<char>) -> Seq<char> {
    "rf_awty|"@ + decimal(author as nat) + "|"@ + (if add_percentage {
        "1"@
    } else {
        "0"@
    }) + "|"@ + version + "|"@ + url
}

/// Encodes the state of a report into its refresh button's custom id.
pub fn refresh_custom_id(author: u64, add_percentage: bool, version: &str, url: &str) -> (r: String)
    ensures
        r@ == refresh_id_text(author, add_percentage, version@, url@),
{
    let mut out = String::from_str("rf_awty|");
    write_decimal(&mut out, author);
    out.append("|");
    if add_percentage {
        out.append("1");
    } else {
        out.append("0");
    }
    out.append("|");
    out.append(version);
    out.append("|");
    out.append(url);
    out
}

/// What a pressed button's custom id decodes to: for an id starting with
/// `rf_awty|` that splits at `|` into at least five pieces, the second to
/// fifth pieces (the percentage flag is on exactly when its piece is `1`).
pub open spec fn refresh_request_of(id: Seq<char>) -> Option<(Seq<char>, bool, Seq<char>, Seq<char>)> {
    let parts = split_on(id, '|');
    if starts_with(id, "rf_awty|"@) && parts.len() >= 5 {
        Some((parts[1], parts[2] == "1"@, parts[3], parts[4]))
    } else {
        None
    }
}

/// Decodes a refresh button's custom id.
pub fn parse_refresh_id(custom_id: &str) -> (r: Option<RefreshRequest>)
    ensures
        match r {
            Some(req) => refresh_request_of(custom_id@) == Some(
                (req.author_id@, req.add_percentage, req.version@, req.url@),
            ),
            None => refresh_request_of(custom_id@) is None,
        },
{
    let v = chars_of(custom_id);
    let prefix = chars_of("rf_awty|");
    if !chars_start_with(&v, &prefix) {
        return None;
    }
    let parts = split_chars(&v, '|');
    if parts.len() < 5 {
        return None;
    }
    let add_percentage = same_text(parts[2].as_str(), "1");
    Some(RefreshRequest {
        author_id: parts[1].clone(),
        add_percentage,
        version: parts[3].clone(),
        url: parts[4].clone(),
    })
}

/// Whether the user pressing the button is the one who asked for the
/// report: the user's id, in decimal, equals the author piece.
pub fn is_refresh_author(user_id: u64, request: &RefreshRequest) -> (r: bool)
    ensures
        r == (decimal(user_id as nat) == request.author_id@),
{
    let id = u64_text(user_id);
    same_text(id.as_str(), request.author_id.as_str())
}

/// A refresh button's custom id decodes to what was encoded in it, as long
/// as neither the version nor the URL holds a `|`.
pub proof fn lemma_refresh_id_round_trip(
    author: u64,
    add_percentage: bool,
    version: Seq<char>,
    url: Seq<char>,
)
    requires
        !version.contains('|'),
        !url.contains('|'),
    ensures
        refresh_request_of(refresh_id_text(author, add_percentage, version, url)) == Some(
            (decimal(author as nat), add_percentage, version, url),
        ),
{
    reveal_strlit("rf_awty|");
    reveal_strlit("rf_awty");
    reveal_strlit("|");
    reveal_strlit("1");
    reveal_strlit("0");
    let a = decimal(author as nat);
    lemma_decimal_digits(author as nat);
    let flag = if add_percentage {
        "1"@
    } else {
        "0"@
    };
    let head = "rf_awty"@;
    let id = refresh_id_text(author, add_percentage, version, url);
    assert(!head.contains('|'));
    assert(!a.contains('|')) by {
        if a.contains('|') {
            let i = choose|i: int| 0 <= i < a.len() && a[i] == '|';
            assert(crate::text::is_digit(a[i]));
        }
    }
    assert(!flag.contains('|'));
    let r3 = version + seq!['|'] + url;
    let r2 = flag + seq!['|'] + r3;
    let r1 = a + seq!['|'] + r2;
    assert(id =~= head + seq!['|'] + r1);
    lemma_split_on_without(head, '|');
    lemma_split_on_without(a, '|');
    lemma_split_on_without(flag, '|');
    lemma_split_on_without(version, '|');
    lemma_split_on_without(url, '|');
    lemma_split_on_concat(version, url, '|');
    lemma_split_on_concat(flag, r3, '|');
    lemma_split_on_concat(a, r2, '|');
    lemma_split_on_concat(head, r1, '|');
    let parts = split_on(id, '|');
    assert(parts =~= seq![head, a, flag, version, url]);
    assert(id.subrange(0, 8) =~= "rf_awty|"@);
    assert((flag == "1"@) == add_percentage);
}


/// `pack.toml` of a packwiz modpack: where its index is.
pub struct PackToml {
    pub index: PackIndex,
}

/// The `[index]` table of `pack.toml`.
pub struct PackIndex {
    pub file: String,
}

/// `index.toml`: the files of the pack.
pub struct IndexToml {
    pub files: Vec<IndexFile>,
}

/// One file of the index; metafiles describe a mod.
pub struct IndexFile {
    pub file: String,
    pub metafile: bool,
}

/// A mod metafile.
pub struct ModToml {
    pub update: Option<ModUpdate>,
}

/// The `[update]` table of a mod metafile.
pub struct ModUpdate {
    pub modrinth: Option<ModrinthUpdate>,
}

/// The Modrinth source of a mod.
pub struct ModrinthUpdate {
    pub mod_id: String,
}

/// The URL that `input` denotes relative to `base` (both written out), as
/// `url::Url::join` resolves it, or `None` when either does not parse.
pub uninterp spec fn joined_url(base: Seq<char>, input: Seq<char>) -> Option<Seq<char>>;

/// `url::Url::join` on a base URL given as its serialization.
#[verifier::external_body]
fn url_join(base: &str, input: &str) -> (r: Option<String>)
    ensures
        match r {
            Some(u) => joined_url(base@, input@) == Some(u@),
            None => joined_url(base@, input@) is None,
        },
{
    url::Url::parse(base).ok()?.join(input).ok().map(|u| u.to_string())
}

/// The paths of the index's files that are metafiles, in index order.
pub open spec fn metafile_paths(files: Seq<IndexFile>) -> Seq<Seq<char>>
    decreases files.len(),
{
    if files.len() == 0 {
        Seq::<Seq<char>>::empty()
    } else {
        let rest = metafile_paths(files.drop_last());
        if files.last().metafile {
            rest.push(files.last().file@)
        } else {
            rest
        }
    }
}

/// The URLs that resolved, in order; the joins that failed are skipped.
pub open spec fn resolved_urls(joins: Seq<Option<Seq<char>>>) -> Seq<Seq<char>>
    decreases joins.len(),
{
    if joins.len() == 0 {
        Seq::<Seq<char>>::empty()
    } else {
        let rest = resolved_urls(joins.drop_last());
        match joins.last() {
            Some(u) => rest.push(u),
            None => rest,
        }
    }
}

/// The views of join results.
pub open spec fn join_views(v: Seq<Option<String>>) -> Seq<Option<Seq<char>>> {
    v.map_values(|o: Option<String>| match o {
        Some(u) => Some(u@),
        None => None,
    })
}

/// The URLs of the metafiles of an index, resolved against the index's
/// own URL, in index order; a path that does not resolve is skipped.
pub open spec fn metafile_urls(index_url: Seq<char>, files: Seq<IndexFile>) -> Seq<Seq<char>> {
    resolved_urls(metafile_paths(files).map_values(|p: Seq<char>| joined_url(index_url, p)))
}

/// The paths of an index's metafiles.
pub fn metafile_paths_of(index: &IndexToml) -> (r: Vec<String>)
    ensures
        views(r@) == metafile_paths(index.files@),
{
    let mut out: Vec<String> = Vec::new();
    let mut i: usize = 0;
    while i < index.files.len()
        invariant
            i <= index.files@.len(),
            views(out@) == metafile_paths(index.files@.subrange(0, i as int)),
        decreases index.files@.len() - i,
    {
        let ghost sub = index.files@.subrange(0, i + 1);
        assert(sub.drop_last() =~= index.files@.subrange(0, i as int));
        let f = &index.files[i];
        if f.metafile {
            let ghost prev = out@;
            out.push(f.file.clone());
            assert(views(out@) =~= views(prev).push(out@[out@.len() - 1]@));
        }
        i = i + 1;
    }
    assert(index.files@.subrange(0, index.files@.len() as int) =~= index.files@);
    out
}

/// Keeps the URLs of the joins that succeeded, in order.
pub fn keep_resolved(joins: &Vec<Option<String>>) -> (r: Vec<String>)
    ensures
        views(r@) == resolved_urls(join_views(joins@)),
{
    let ghost jv = join_views(joins@);
    let mut out: Vec<String> = Vec::new();
    let mut i: usize = 0;
    while i < joins.len()
        invariant
            i <= joins@.len(),
            jv == join_views(joins@),
            views(out@) == resolved_urls(jv.subrange(0, i as int)),
        decreases joins@.len() - i,
    {
        let ghost sub = jv.subrange(0, i + 1);
        assert(sub.drop_last() =~= jv.subrange(0, i as int));
        match &joins[i] {
            Some(u) => {
                let ghost prev = out@;
                out.push(u.clone());
                assert(views(out@) =~= views(prev).push(u@));
            },
            None => {},
        }
        i = i + 1;
    }
    assert(jv.subrange(0, joins@.len() as int) =~= jv);
    out
}

/// Resolves the URLs of an index's metafiles.
pub fn get_metafile_urls(index_url: &str, index: &IndexToml) -> (r: Vec<String>)
    ensures
        views(r@) == metafile_urls(index_url@, index.files@),
{
    let paths = metafile_paths_of(index);
    let ghost pv = views(paths@);
    let mut joins: Vec<Option<String>> = Vec::new();
    let mut i: usize = 0;
    while i < paths.len()
        invariant
            i <= paths@.len(),
            pv == views(paths@),
            join_views(joins@) == pv.subrange(0, i as int).map_values(
                |p: Seq<char>| joined_url(index_url@, p),
            ),
        decreases paths@.len() - i,
    {
        let j = url_join(index_url, paths[i].as_str());
        let ghost prev = joins@;
        joins.push(j);
        assert(pv[i as int] == paths@[i as int]@);
        assert(join_views(joins@) =~= join_views(prev).push(
            match j {
                Some(u) => Some(u@),
                None => None,
            },
        ));
        assert(pv.subrange(0, i + 1).map_values(|p: Seq<char>| joined_url(index_url@, p)) =~= pv.subrange(
            0,
            i as int,
        ).map_values(|p: Seq<char>| joined_url(index_url@, p)).push(joined_url(index_url@, pv[i as int])));
        i = i + 1;
    }
    assert(pv.subrange(0, paths@.len() as int) =~= pv);
    keep_resolved(&joins)
}

/// Resolves the index path of a pack against the pack's URL.
pub fn index_url(pack_url: &str, index_path: &str) -> (r: Option<String>)
    ensures
        match r {
            Some(u) => joined_url(pack_url@, index_path@) == Some(u@),
            None => joined_url(pack_url@, index_path@) is None,
        },
{
    url_join(pack_url, index_path)
}

/// The Modrinth project id a metafile names, if it updates from Modrinth.
pub fn modrinth_id(m: &ModToml) -> (r: Option<String>)
    ensures
        match r {
            Some(id) => m.update matches Some(u) && u.modrinth matches Some(mr) && id@ == mr.mod_id@,
            None => !(m.update matches Some(u) && u.modrinth is Some),
        },
{
    match &m.update {
        Some(u) => match &u.modrinth {
            Some(mr) => Some(mr.mod_id.clone()),
            None => None,
        },
        None => None,
    }
}

/// Keeps one copy of each project id.
pub fn distinct_ids(ids: &Vec<String>) -> (r: Vec<String>)
    ensures
        views(r@).no_duplicates(),
        forall|t: Seq<char>| views(r@).contains(t) <==> views(ids@).contains(t),
{
    let mut out: Vec<String> = Vec::new();
    let mut i: usize = 0;
    while i < ids.len()
        invariant
            i <= ids@.len(),
            views(out@).no_duplicates(),
            forall|t: Seq<char>| views(out@).contains(t) <==> views(ids@.subrange(0, i as int)).contains(t),
        decreases ids@.len() - i,
    {
        let mut seen = false;
        let mut k: usize = 0;
        while k < out.len()
            invariant
                k <= out@.len(),
                i < ids@.len(),
                !seen ==> forall|j: int| 0 <= j < k ==> out@[j]@ != ids@[i as int]@,
                seen ==> views(out@).contains(ids@[i as int]@),
            decreases out@.len() - k,
        {
            if same_text(out[k].as_str(), ids[i].as_str()) {
                assert(views(out@)[k as int] == ids@[i as int]@);
                seen = true;
            }
            k = k + 1;
        }
        let ghost prev = out@;
        let ghost item = ids@[i as int]@;
        assert(views(ids@.subrange(0, i + 1)) =~= views(ids@.subrange(0, i as int)).push(item));
        if !seen {
            assert(!views(prev).contains(item)) by {
                if views(prev).contains(item) {
                    let j = choose|j: int| 0 <= j < views(prev).len() && views(prev)[j] == item;
                    assert(prev[j]@ == item);
                }
            }
            out.push(ids[i].clone());
            assert(views(out@) =~= views(prev).push(item));
        }
        proof {
            let s0 = views(ids@.subrange(0, i as int));
            assert forall|t: Seq<char>| views(out@).contains(t) <==> s0.push(item).contains(t) by {
                vstd::seq_lib::lemma_seq_contains_after_push(s0, item, t);
                vstd::seq_lib::lemma_seq_contains_after_push(views(prev), item, t);
            }
        }
        i = i + 1;
    }
    assert(ids@.subrange(0, ids@.len() as int) =~= ids@);
    out
}

} // verus!
