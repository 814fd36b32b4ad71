use crate::case::Case;
use crate::cased_string::{lower_first, title_first};
use crate::idempotence::{is_strictly_sorted, lemma_dedup_sorted_strict};
use crate::locale::{collation, lowercase_mapping, titlecase_mapping, Order};
use crate::sorting::{
    collation_is_total_order, dedup_lines, lemma_dedup_lines, lemma_sort_lines_multiset,
    lemma_sort_lines_sorted, sort_lines,
};
use crate::state_machine::{
    lower_all, title_all, titlecases_lower,
    adjusted_lines, body_len, empty_lines, feed_step, flush_step, format_lines_spec, initial_state,
    is_body_line, paragraph_lines, paragraph_output, push_line, run_lines, valid_state, MachineState,
};
use crate::text::trim_end_spec;
use vstd::prelude::*;

verus! {

/// The number of lines a state may still write: the empty lines before the
/// paragraph, its lines, and the empty lines after it.
pub open spec fn pending(st: MachineState) -> nat {
    st.leading + body_len(st) + st.trailing
}

proof fn lemma_adjusted_len(l: Seq<char>, st: MachineState)
    ensures
        adjusted_lines(l, st).len() == body_len(st),
{
}

/// A paragraph writes no more lines than it holds, plus the empty lines before it.
pub proof fn lemma_paragraph_output_len(l: Seq<char>, st: MachineState)
    ensures
        paragraph_output(l, st).len() <= st.leading + body_len(st),
        body_len(st) > 0 ==> paragraph_lines(l, st).len() > 0,
{
    let a = adjusted_lines(l, st);
    lemma_adjusted_len(l, st);
    lemma_sort_lines_multiset(l, a);
    lemma_dedup_lines(l, sort_lines(l, a));
}

/// One step keeps the state valid and writes no more than one line more than
/// the state could already write.
proof fn lemma_feed_step(l: Seq<char>, st: MachineState, line: Seq<char>)
    requires
        valid_state(st),
    ensures
        valid_state(feed_step(l, st, line).0),
        feed_step(l, st, line).1.len() + pending(feed_step(l, st, line).0) <= pending(st) + 1,
{
    let t = trim_end_spec(line);
    crate::text::lemma_trim_end_idempotent(line);
    if t.len() > 0 {
        let base = if st.trailing > 0 {
            MachineState { lower: seq![], upper: seq![], stable: seq![], leading: st.trailing, trailing: 0 }
        } else {
            st
        };
        lemma_push_line(base, t);
        lemma_paragraph_output_len(l, st);
    }
}

/// Adding a body line keeps a state valid and adds one line to it.
pub proof fn lemma_push_line(st: MachineState, t: Seq<char>)
    requires
        st.leading <= 2,
        st.trailing <= 2,
        forall|i: int| 0 <= i < st.lower.len() ==> is_body_line(#[trigger] st.lower[i], Case::Lower),
        forall|i: int| 0 <= i < st.upper.len() ==> is_body_line(#[trigger] st.upper[i], Case::Upper),
        forall|i: int| 0 <= i < st.stable.len() ==> is_body_line(#[trigger] st.stable[i], Case::Neutral),
        t.len() > 0,
        trim_end_spec(t) == t,
    ensures
        valid_state(push_line(st, t)),
        body_len(push_line(st, t)) == body_len(st) + 1,
        push_line(st, t).leading == st.leading,
        push_line(st, t).trailing == st.trailing,
{
    let p = push_line(st, t);
    assert forall|i: int| 0 <= i < p.lower.len() implies is_body_line(#[trigger] p.lower[i], Case::Lower) by {
        if i < st.lower.len() {
            assert(p.lower[i] == st.lower[i]);
        }
    }
    assert forall|i: int| 0 <= i < p.upper.len() implies is_body_line(#[trigger] p.upper[i], Case::Upper) by {
        if i < st.upper.len() {
            assert(p.upper[i] == st.upper[i]);
        }
    }
    assert forall|i: int| 0 <= i < p.stable.len() implies is_body_line(#[trigger] p.stable[i], Case::Neutral) by {
        if i < st.stable.len() {
            assert(p.stable[i] == st.stable[i]);
        }
    }
}

proof fn lemma_run_lines_count(l: Seq<char>, lines: Seq<Seq<char>>)
    ensures
        valid_state(run_lines(l, initial_state(), lines).0),
        run_lines(l, initial_state(), lines).1.len() + pending(run_lines(l, initial_state(), lines).0)
            <= lines.len(),
    decreases lines.len(),
{
    if lines.len() > 0 {
        lemma_run_lines_count(l, lines.drop_last());
        let s1 = run_lines(l, initial_state(), lines.drop_last()).0;
        lemma_feed_step(l, s1, lines.last());
    }
}

/// Formatting never writes more lines than it reads.
pub proof fn law_line_count(l: Seq<char>, lines: Seq<Seq<char>>)
    ensures
        format_lines_spec(l, lines).len() <= lines.len(),
{
    lemma_run_lines_count(l, lines);
    let st = run_lines(l, initial_state(), lines).0;
    if body_len(st) > 0 {
        lemma_paragraph_output_len(l, st);
    }
}

/// No three empty lines in a row.
pub open spec fn no_empty_triple(s: Seq<Seq<char>>) -> bool {
    forall|i: int|
        0 <= i && i + 2 < s.len() ==> !(#[trigger] s[i].len() == 0 && s[i + 1].len() == 0 && s[
            i + 2
        ].len() == 0)
}

/// No three empty lines in a row, and none at the start or the end.
pub open spec fn well_spaced(s: Seq<Seq<char>>) -> bool {
    &&& no_empty_triple(s)
    &&& s.len() > 0 ==> s[0].len() > 0 && s.last().len() > 0
}

/// Case mapping never maps a single character to nothing.
pub open spec fn case_mapping_keeps_text(l: Seq<char>) -> bool {
    forall|s: Seq<char>|
        s.len() == 1 ==> #[trigger] titlecase_mapping(l, s).len() > 0 && lowercase_mapping(l, s).len() > 0
}

/// Every line of `s` has text.
pub open spec fn all_nonempty(s: Seq<Seq<char>>) -> bool {
    forall|i: int| 0 <= i < s.len() ==> #[trigger] s[i].len() > 0
}

proof fn lemma_title_first_nonempty(l: Seq<char>, s: Seq<char>)
    requires
        case_mapping_keeps_text(l),
        s.len() > 0,
    ensures
        title_first(l, s).len() > 0,
        lower_first(l, s).len() > 0,
{
    assert(s.take(1).len() == 1);
    assert(titlecase_mapping(l, s.take(1)).len() > 0);
}

/// The lines a paragraph writes all have text.
proof fn lemma_paragraph_lines_nonempty(l: Seq<char>, st: MachineState)
    requires
        valid_state(st),
        case_mapping_keeps_text(l),
    ensures
        all_nonempty(paragraph_lines(l, st)),
{
    broadcast use vstd::seq_lib::group_to_multiset_ensures;

    let a = adjusted_lines(l, st);
    assert forall|i: int| 0 <= i < a.len() implies #[trigger] a[i].len() > 0 by {
        if titlecases_lower(l, st) {
            let m = title_all(l, st.lower);
            if i < st.lower.len() {
                assert(is_body_line(st.lower[i], Case::Lower));
                lemma_title_first_nonempty(l, st.lower[i]);
                assert(a[i] == m[i]);
            } else if i < st.lower.len() + st.upper.len() {
                assert(a[i] == st.upper[i - st.lower.len()]);
                assert(is_body_line(st.upper[i - st.lower.len()], Case::Upper));
            } else {
                assert(a[i] == st.stable[i - st.lower.len() - st.upper.len()]);
                assert(is_body_line(st.stable[i - st.lower.len() - st.upper.len()], Case::Neutral));
            }
        } else {
            let m = lower_all(l, st.upper);
            if i < st.lower.len() {
                assert(a[i] == st.lower[i]);
                assert(is_body_line(st.lower[i], Case::Lower));
            } else if i < st.lower.len() + st.upper.len() {
                assert(is_body_line(st.upper[i - st.lower.len()], Case::Upper));
                lemma_title_first_nonempty(l, st.upper[i - st.lower.len()]);
                assert(a[i] == m[i - st.lower.len()]);
            } else {
                assert(a[i] == st.stable[i - st.lower.len() - st.upper.len()]);
                assert(is_body_line(st.stable[i - st.lower.len() - st.upper.len()], Case::Neutral));
            }
        }
    }
    let so = sort_lines(l, a);
    lemma_sort_lines_multiset(l, a);
    assert forall|i: int| 0 <= i < so.len() implies #[trigger] so[i].len() > 0 by {
        assert(so.to_multiset().count(so[i]) > 0);
        assert(a.to_multiset().count(so[i]) > 0);
        assert(a.contains(so[i]));
    }
    let d = dedup_lines(l, so);
    lemma_dedup_lines(l, so);
    assert forall|i: int| 0 <= i < d.len() implies #[trigger] d[i].len() > 0 by {
        assert(so.contains(d[i]));
    }
}

/// Appending at most two empty lines and then a nonempty run of lines with
/// text keeps a sequence well spaced.
proof fn lemma_append_paragraph(a: Seq<Seq<char>>, k: nat, p: Seq<Seq<char>>)
    requires
        well_spaced(a),
        a.len() == 0 ==> k == 0,
        k <= 2,
        p.len() > 0,
        all_nonempty(p),
    ensures
        well_spaced(a + empty_lines(k) + p),
{
    let r = a + empty_lines(k) + p;
    let n = a.len() as int;
    assert forall|j: int| n + k <= j < r.len() implies #[trigger] r[j].len() > 0 by {
        assert(r[j] == p[j - n - k]);
    }
    assert forall|j: int| 0 <= j < n implies #[trigger] r[j] == a[j] by {}
    assert forall|i: int|
        0 <= i && i + 2 < r.len() implies !(#[trigger] r[i].len() == 0 && r[i + 1].len() == 0 && r[i + 2].len() == 0) by {
        if i + 2 >= n + k {
            assert(r[i + 2].len() > 0);
        } else if i + 2 < n {
            assert(r[i] == a[i]);
            assert(r[i + 1] == a[i + 1]);
            assert(r[i + 2] == a[i + 2]);
        } else if i >= n {
            assert(false);
        } else if i + 1 == n - 1 {
            assert(r[i + 1] == a.last());
        } else {
            assert(i == n - 1);
            assert(r[i] == a.last());
        }
    }
    if n > 0 {
        assert(r[0] == a[0]);
    } else {
        assert(r[0] == p[0]);
    }
    assert(r.last() == p.last());
}

proof fn lemma_run_lines_spacing(l: Seq<char>, lines: Seq<Seq<char>>)
    requires
        case_mapping_keeps_text(l),
    ensures
        valid_state(run_lines(l, initial_state(), lines).0),
        well_spaced(run_lines(l, initial_state(), lines).1),
        run_lines(l, initial_state(), lines).1.len() == 0 ==> run_lines(l, initial_state(), lines).0.leading == 0,
    decreases lines.len(),
{
    if lines.len() > 0 {
        lemma_run_lines_spacing(l, lines.drop_last());
        let (s1, o1) = run_lines(l, initial_state(), lines.drop_last());
        lemma_feed_step(l, s1, lines.last());
        let t = trim_end_spec(lines.last());
        if t.len() > 0 && s1.trailing > 0 {
            lemma_paragraph_output_len(l, s1);
            lemma_paragraph_lines_nonempty(l, s1);
            lemma_append_paragraph(o1, s1.leading, paragraph_lines(l, s1));
            assert(o1 + paragraph_output(l, s1) == o1 + empty_lines(s1.leading) + paragraph_lines(l, s1));
        } else if t.len() > 0 {
            assert(o1 + seq![] == o1);
        } else {
            assert(o1 + seq![] == o1);
        }
    }
}

/// Formatting writes no more than two empty lines in a row, and no empty line
/// first or last, wherever case mapping never maps a character to nothing.
pub proof fn law_spacing(l: Seq<char>, lines: Seq<Seq<char>>)
    requires
        case_mapping_keeps_text(l),
    ensures
        well_spaced(format_lines_spec(l, lines)),
{
    lemma_run_lines_spacing(l, lines);
    let (st, out) = run_lines(l, initial_state(), lines);
    if body_len(st) > 0 {
        lemma_paragraph_output_len(l, st);
        lemma_paragraph_lines_nonempty(l, st);
        lemma_append_paragraph(out, st.leading, paragraph_lines(l, st));
        assert(out + paragraph_output(l, st) == out + empty_lines(st.leading) + paragraph_lines(l, st));
    } else {
        assert(out + seq![] == out);
    }
}

/// Every line collates equal to itself.
pub open spec fn collation_reflexive(l: Seq<char>) -> bool {
    forall|a: Seq<char>| #[trigger] collation(l, a, a) == Order::Equal
}

/// Each line that removing repeats drops collates equal to a line it keeps.
proof fn lemma_dedup_covers(l: Seq<char>, s: Seq<Seq<char>>)
    requires
        collation_reflexive(l),
    ensures
        forall|j: int|
            #![trigger s[j]]
            0 <= j < s.len() ==> exists|i: int|
                0 <= i < dedup_lines(l, s).len() && #[trigger] collation(l, s[j], dedup_lines(l, s)[i])
                    == Order::Equal,
    decreases s.len(),
{
    if s.len() > 0 {
        let t = s.drop_last();
        lemma_dedup_covers(l, t);
        let d = dedup_lines(l, t);
        let e = dedup_lines(l, s);
        assert(e.len() >= d.len());
        assert forall|i: int| 0 <= i < d.len() implies e[i] == d[i] by {}
        assert forall|j: int| #![trigger s[j]] 0 <= j < s.len() implies exists|i: int|
            0 <= i < e.len() && #[trigger] collation(l, s[j], e[i]) == Order::Equal by {
            if j < t.len() {
                assert(s[j] == t[j]);
                let i = choose|i: int| 0 <= i < d.len() && #[trigger] collation(l, t[j], d[i]) == Order::Equal;
                assert(collation(l, s[j], e[i]) == Order::Equal);
            } else if d.len() > 0 && collation(l, s.last(), d.last()) == Order::Equal {
                assert(collation(l, s[j], e[d.len() - 1]) == Order::Equal);
            } else {
                assert(e[d.len() as int] == s.last());
                assert(collation(l, s[j], e[d.len() as int]) == Order::Equal);
            }
        }
    }
}

/// Each paragraph is written sorted by collation, with no two lines that
/// collate equal.
pub proof fn law_paragraph_sorted(l: Seq<char>, st: MachineState)
    requires
        collation_is_total_order(l),
    ensures
        is_strictly_sorted(l, paragraph_lines(l, st)),
{
    lemma_sort_lines_sorted(l, adjusted_lines(l, st));
    lemma_dedup_sorted_strict(l, sort_lines(l, adjusted_lines(l, st)));
}

/// Lines with the same multiset hold the same lines.
proof fn lemma_same_lines_contains(a: Seq<Seq<char>>, b: Seq<Seq<char>>, x: Seq<char>)
    requires
        a.to_multiset() == b.to_multiset(),
        a.contains(x),
    ensures
        b.contains(x),
{
    a.to_multiset_ensures();
    b.to_multiset_ensures();
    assert(a.to_multiset().count(x) > 0);
}

/// Sorting `a` and then removing repeats, which gives `p`, keeps only lines
/// of `a`.
proof fn lemma_sort_dedup_within(l: Seq<char>, a: Seq<Seq<char>>, p: Seq<Seq<char>>)
    requires
        p == dedup_lines(l, sort_lines(l, a)),
    ensures
        forall|i: int| 0 <= i < p.len() ==> a.contains(#[trigger] p[i]),
{
    let s = sort_lines(l, a);
    lemma_sort_lines_multiset(l, a);
    lemma_dedup_lines(l, s);
    assert forall|i: int| 0 <= i < p.len() implies a.contains(#[trigger] p[i]) by {
        lemma_same_lines_contains(s, a, p[i]);
    }
}

/// Sorting `a` and then removing repeats, which gives `p`, keeps each line
/// of `a` or a line that collates equal to it.
proof fn lemma_sort_dedup_covers(l: Seq<char>, a: Seq<Seq<char>>, p: Seq<Seq<char>>, j: int)
    requires
        collation_reflexive(l),
        p == dedup_lines(l, sort_lines(l, a)),
        0 <= j < a.len(),
    ensures
        exists|i: int| 0 <= i < p.len() && #[trigger] collation(l, a[j], p[i]) == Order::Equal,
{
    let s = sort_lines(l, a);
    lemma_sort_lines_multiset(l, a);
    lemma_dedup_covers(l, s);
    assert(a.contains(a[j]));
    lemma_same_lines_contains(a, s, a[j]);
    let k = choose|k: int| 0 <= k < s.len() && s[k] == a[j];
    assert(0 <= k < s.len());
    let i = choose|i: int| 0 <= i < p.len() && #[trigger] collation(l, s[k], p[i]) == Order::Equal;
    assert(collation(l, a[j], p[i]) == Order::Equal);
}

/// Each line of `a` collates equal to some line of `p`.
pub open spec fn covered_by(l: Seq<char>, a: Seq<Seq<char>>, p: Seq<Seq<char>>) -> bool {
    forall|j: int| 0 <= j < a.len() ==> #[trigger] covered_at(l, a, p, j)
}

/// Line `j` of `a` collates equal to some line of `p`.
pub open spec fn covered_at(l: Seq<char>, a: Seq<Seq<char>>, p: Seq<Seq<char>>, j: int) -> bool {
    exists|i: int| 0 <= i < p.len() && #[trigger] collation(l, a[j], p[i]) == Order::Equal
}

proof fn lemma_sort_dedup_covers_all(l: Seq<char>, a: Seq<Seq<char>>, p: Seq<Seq<char>>)
    requires
        collation_reflexive(l),
        p == dedup_lines(l, sort_lines(l, a)),
    ensures
        covered_by(l, a, p),
{
    assert forall|j: int| 0 <= j < a.len() implies #[trigger] covered_at(l, a, p, j) by {
        lemma_sort_dedup_covers(l, a, p, j);
    }
}

/// Each written line of a paragraph is one of its lines after the case
/// adjustment, and each of those lines is written, or a line that collates
/// equal to it is.
pub proof fn law_paragraph_keeps_lines(l: Seq<char>, st: MachineState)
    requires
        collation_reflexive(l),
    ensures
        forall|i: int|
            0 <= i < paragraph_lines(l, st).len() ==> adjusted_lines(l, st).contains(
                #[trigger] paragraph_lines(l, st)[i],
            ),
        covered_by(l, adjusted_lines(l, st), paragraph_lines(l, st)),
{
    lemma_sort_dedup_within(l, adjusted_lines(l, st), paragraph_lines(l, st));
    lemma_sort_dedup_covers_all(l, adjusted_lines(l, st), paragraph_lines(l, st));
}

} // verus!
