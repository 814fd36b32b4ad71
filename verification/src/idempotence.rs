use crate::case::Case;
use crate::cased_string::{lower_first, title_first};
use crate::locale::{case_of, collation, Order};
use crate::sorting::{
    collation_is_total_order, dedup_lines, insert_sorted, is_sorted, lemma_dedup_lines,
    lemma_sort_lines_multiset, lemma_sort_lines_sorted, sort_lines,
};
use crate::state_machine::{
    count_changed, lower_all, title_all, titlecases_lower, adjusted_lines, body_len, empty_lines, feed_step, flush_step, format_lines_spec, initial_state,
    is_body_line, paragraph_lines, paragraph_output, push_line, run_lines, valid_state,
    MachineState,
};
use crate::text::trim_end_spec;
use vstd::prelude::*;

verus! {

/// Feeding `a` and then `b` is feeding `a + b`.
pub proof fn lemma_run_concat(l: Seq<char>, st: MachineState, a: Seq<Seq<char>>, b: Seq<Seq<char>>)
    ensures
        run_lines(l, st, a + b) == ({
            let (s1, o1) = run_lines(l, st, a);
            let (s2, o2) = run_lines(l, s1, b);
            (s2, o1 + o2)
        }),
    decreases b.len(),
{
    if b.len() == 0 {
        assert(a + b == a);
        let (s1, o1) = run_lines(l, st, a);
        assert(o1 + seq![] == o1);
    } else {
        lemma_run_concat(l, st, a, b.drop_last());
        assert((a + b).drop_last() == a + b.drop_last());
        assert((a + b).last() == b.last());
        let (s1, o1) = run_lines(l, st, a);
        let (s2, o2) = run_lines(l, s1, b.drop_last());
        let (s3, o3) = feed_step(l, s2, b.last());
        assert(o1 + o2 + o3 == o1 + (o2 + o3));
    }
}

/// `st` with the lines `p` added one after another.
pub open spec fn push_all(st: MachineState, p: Seq<Seq<char>>) -> MachineState
    decreases p.len(),
{
    if p.len() == 0 {
        st
    } else {
        push_line(push_all(st, p.drop_last()), p.last())
    }
}

/// A line that feeding keeps as it is: it has text and no trailing white space.
pub open spec fn is_kept_line(s: Seq<char>) -> bool {
    s.len() > 0 && trim_end_spec(s) == s
}

/// Feeding lines with text to a state with no gap after its paragraph adds
/// them to the paragraph and writes nothing.
pub proof fn lemma_run_body(l: Seq<char>, st: MachineState, p: Seq<Seq<char>>)
    requires
        st.trailing == 0,
        forall|i: int| 0 <= i < p.len() ==> is_kept_line(#[trigger] p[i]),
    ensures
        run_lines(l, st, p) == (push_all(st, p), Seq::<Seq<char>>::empty()),
        push_all(st, p).trailing == 0,
        push_all(st, p).leading == st.leading,
    decreases p.len(),
{
    if p.len() > 0 {
        lemma_run_body(l, st, p.drop_last());
        assert(is_kept_line(p[p.len() - 1]));
        let s = push_all(st, p.drop_last());
        assert(Seq::<Seq<char>>::empty() + Seq::<Seq<char>>::empty() == Seq::<Seq<char>>::empty());
    }
}

/// Feeding `k` empty lines (at most two) after a paragraph records the gap
/// and writes nothing.
pub proof fn lemma_run_blanks(l: Seq<char>, st: MachineState, k: nat)
    requires
        body_len(st) > 0,
        st.trailing == 0,
        k <= 2,
    ensures
        run_lines(l, st, empty_lines(k)) == (MachineState { trailing: k, ..st }, Seq::<Seq<char>>::empty()),
    decreases k,
{
    if k == 0 {
        assert(st == MachineState { trailing: 0, ..st });
    } else {
        lemma_run_blanks(l, st, (k - 1) as nat);
        assert(empty_lines(k).drop_last() == empty_lines((k - 1) as nat));
        assert(empty_lines(k).last() == Seq::<char>::empty());
        assert(trim_end_spec(Seq::<char>::empty()).len() == 0);
        assert(Seq::<Seq<char>>::empty() + Seq::<Seq<char>>::empty() == Seq::<Seq<char>>::empty());
    }
}

/// Every line of `s` collates strictly before each line after it.
pub open spec fn is_strictly_sorted(l: Seq<char>, s: Seq<Seq<char>>) -> bool {
    forall|i: int, j: int| 0 <= i < j < s.len() ==> collation(l, s[i], s[j]) == Order::Less
}

/// A sorted permutation of a strictly sorted sequence is that sequence.
pub proof fn lemma_sorted_unique(l: Seq<char>, a: Seq<Seq<char>>, b: Seq<Seq<char>>)
    requires
        collation_is_total_order(l),
        is_sorted(l, a),
        is_strictly_sorted(l, b),
        a.to_multiset() == b.to_multiset(),
    ensures
        a == b,
    decreases a.len(),
{
    broadcast use vstd::seq_lib::group_to_multiset_ensures;

    assert(a.len() == a.to_multiset().len());
    assert(b.len() == b.to_multiset().len());
    let n = a.len() as int;
    if n == 0 {
        assert(a == b);
    } else {
        let x = b[n - 1];
        let y = a[n - 1];
        assert(b.to_multiset().count(x) > 0);
        assert(a.contains(x));
        let k = choose|k: int| 0 <= k < n && a[k] == x;
        assert(a.to_multiset().count(y) > 0);
        assert(b.contains(y));
        let m = choose|m: int| 0 <= m < n && b[m] == y;
        if m < n - 1 {
            assert(collation(l, y, x) == Order::Less);
            assert(collation(l, x, y) == Order::Greater);
            if k < n - 1 {
                assert(collation(l, a[k], a[n - 1]) != Order::Greater);
            } else {
                assert(collation(l, x, x) == Order::Equal);
            }
        }
        assert(x == y);
        assert(a.remove(n - 1) == a.drop_last());
        assert(b.remove(n - 1) == b.drop_last());
        assert(a.drop_last().to_multiset() == b.drop_last().to_multiset());
        lemma_sorted_unique(l, a.drop_last(), b.drop_last());
        assert(a == a.drop_last().push(y));
        assert(b == b.drop_last().push(x));
    }
}

/// Dedup of a sorted sequence is strictly sorted.
pub proof fn lemma_dedup_sorted_strict(l: Seq<char>, s: Seq<Seq<char>>)
    requires
        collation_is_total_order(l),
        is_sorted(l, s),
    ensures
        is_strictly_sorted(l, dedup_lines(l, s)),
    decreases s.len(),
{
    if s.len() > 0 {
        let t = s.drop_last();
        assert(is_sorted(l, t));
        lemma_dedup_sorted_strict(l, t);
        let d = dedup_lines(l, t);
        lemma_dedup_lines(l, t);
        if d.len() > 0 && collation(l, s.last(), d.last()) == Order::Equal {
        } else if d.len() > 0 {
            assert(t.contains(d.last()));
            let k = choose|k: int| 0 <= k < t.len() && t[k] == d.last();
            assert(s[k] == d.last());
            assert(collation(l, s[k], s[s.len() - 1]) != Order::Greater);
            assert(collation(l, d.last(), s.last()) != Order::Equal);
            assert(collation(l, d.last(), s.last()) == Order::Less);
            let r = d.push(s.last());
            assert forall|i: int, j: int| 0 <= i < j < r.len() implies collation(l, r[i], r[j]) == Order::Less by {
                if j == r.len() - 1 && i < d.len() - 1 {
                    assert(collation(l, d[i], d[d.len() - 1]) == Order::Less);
                    assert(r[i] == d[i]);
                    assert(r[j] == s.last());
                } else if j < r.len() - 1 {
                    assert(r[i] == d[i]);
                    assert(r[j] == d[j]);
                }
            }
        }
    }
}

/// Dedup leaves a strictly sorted sequence as it is.
pub proof fn lemma_dedup_strict_identity(l: Seq<char>, s: Seq<Seq<char>>)
    requires
        collation_is_total_order(l),
        is_strictly_sorted(l, s),
    ensures
        dedup_lines(l, s) == s,
    decreases s.len(),
{
    if s.len() > 0 {
        let t = s.drop_last();
        assert(is_strictly_sorted(l, t));
        lemma_dedup_strict_identity(l, t);
        if t.len() > 0 {
            assert(collation(l, s[s.len() - 2], s[s.len() - 1]) == Order::Less);
            assert(t.last() == s[s.len() - 2]);
        }
        assert(t.push(s.last()) == s);
    }
}

/// The lines of the three case classes of a state, in that order.
pub open spec fn bucket_lines(st: MachineState) -> Seq<Seq<char>> {
    st.lower + st.upper + st.stable
}

/// Pushing lines keeps the gaps, adds the lines to the buckets, and keeps
/// a bucket empty where no line of its class is pushed.
pub proof fn lemma_push_all(st: MachineState, p: Seq<Seq<char>>)
    requires
        forall|i: int| 0 <= i < p.len() ==> (#[trigger] p[i]).len() > 0,
    ensures
        push_all(st, p).leading == st.leading,
        push_all(st, p).trailing == st.trailing,
        bucket_lines(push_all(st, p)).to_multiset() == bucket_lines(st).to_multiset().add(p.to_multiset()),
        body_len(push_all(st, p)) == body_len(st) + p.len(),
        (forall|i: int| 0 <= i < p.len() ==> case_of((#[trigger] p[i])[0]) != Case::Lower)
            ==> push_all(st, p).lower == st.lower,
        (forall|i: int| 0 <= i < p.len() ==> case_of((#[trigger] p[i])[0]) != Case::Upper)
            ==> push_all(st, p).upper == st.upper,
    decreases p.len(),
{
    broadcast use vstd::seq_lib::group_to_multiset_ensures;
    broadcast use vstd::seq_lib::lemma_multiset_commutative;

    if p.len() > 0 {
        let q = p.drop_last();
        assert forall|i: int| 0 <= i < q.len() implies (#[trigger] q[i]).len() > 0 by {
            assert(q[i] == p[i]);
        }
        lemma_push_all(st, q);
        let s1 = push_all(st, q);
        let x = p.last();
        assert(p == q.push(x));
        assert(p.to_multiset() == q.to_multiset().insert(x));
        if forall|i: int| 0 <= i < p.len() ==> case_of((#[trigger] p[i])[0]) != Case::Lower {
            assert forall|i: int| 0 <= i < q.len() implies case_of((#[trigger] q[i])[0]) != Case::Lower by {
                assert(q[i] == p[i]);
            }
            assert(case_of(p[p.len() - 1][0]) != Case::Lower);
        }
        if forall|i: int| 0 <= i < p.len() ==> case_of((#[trigger] p[i])[0]) != Case::Upper {
            assert forall|i: int| 0 <= i < q.len() implies case_of((#[trigger] q[i])[0]) != Case::Upper by {
                assert(q[i] == p[i]);
            }
            assert(case_of(p[p.len() - 1][0]) != Case::Upper);
        }
        let s2 = push_line(s1, x);
        match case_of(x[0]) {
            Case::Lower => {
                assert(bucket_lines(s2) == s1.lower.push(x) + s1.upper + s1.stable);
                assert(bucket_lines(s2).to_multiset() == (s1.lower.push(x) + (s1.upper + s1.stable)).to_multiset());
                assert(bucket_lines(s1) == s1.lower + (s1.upper + s1.stable));
            },
            Case::Upper => {
                assert(bucket_lines(s2) == s1.lower + s1.upper.push(x) + s1.stable);
                assert(bucket_lines(s2).to_multiset() == ((s1.lower + s1.upper).push(x) + s1.stable).to_multiset());
            },
            Case::Neutral => {
                assert(bucket_lines(s2) == bucket_lines(s1).push(x));
            },
        }
        assert(bucket_lines(s2).to_multiset() =~= bucket_lines(s1).to_multiset().insert(x)) by {
            broadcast use vstd::multiset::group_multiset_axioms;

        }
        assert(bucket_lines(s2).to_multiset() =~= bucket_lines(st).to_multiset().add(p.to_multiset())) by {
            broadcast use vstd::multiset::group_multiset_axioms;

        }
    }
}

/// Case mapping behaves on the line `t`: titlecasing its first letter, if
/// it starts lowercase, or lowercasing it, if it starts uppercase, gives a
/// line with text and no trailing white space, which the same mapping then
/// leaves as it is.
pub open spec fn maps_well(l: Seq<char>, t: Seq<char>) -> bool {
    &&& case_of(t[0]) == Case::Lower ==> is_kept_line(title_first(l, t)) && title_first(
        l,
        title_first(l, t),
    ) == title_first(l, t)
    &&& case_of(t[0]) == Case::Upper ==> is_kept_line(lower_first(l, t)) && lower_first(
        l,
        lower_first(l, t),
    ) == lower_first(l, t)
}

/// Case mapping behaves on every line of text among `lines`, once trimmed.
pub open spec fn lines_map_well(l: Seq<char>, lines: Seq<Seq<char>>) -> bool {
    forall|i: int|
        0 <= i < lines.len() && trim_end_spec(#[trigger] lines[i]).len() > 0 ==> maps_well(
            l,
            trim_end_spec(lines[i]),
        )
}

/// Case mapping behaves on every line of the paragraph being read.
pub open spec fn state_maps_well(l: Seq<char>, st: MachineState) -> bool {
    &&& forall|i: int| 0 <= i < st.lower.len() ==> maps_well(l, #[trigger] st.lower[i])
    &&& forall|i: int| 0 <= i < st.upper.len() ==> maps_well(l, #[trigger] st.upper[i])
}

/// Every line of `a` has text and no trailing white space, and is left as
/// it is by titlecasing (`title`) or lowercasing its first letter, where its
/// case class is the one that mapping applies to.
pub open spec fn lines_settle(l: Seq<char>, a: Seq<Seq<char>>, title: bool) -> bool {
    forall|i: int|
        0 <= i < a.len() ==> is_kept_line(#[trigger] a[i]) && if title {
            case_of(a[i][0]) == Case::Lower ==> title_first(l, a[i]) == a[i]
        } else {
            case_of(a[i][0]) == Case::Upper ==> lower_first(l, a[i]) == a[i]
        }
}

proof fn lemma_lines_settle_sub(l: Seq<char>, a: Seq<Seq<char>>, b: Seq<Seq<char>>, title: bool)
    requires
        lines_settle(l, a, title),
        forall|i: int| 0 <= i < b.len() ==> a.contains(#[trigger] b[i]),
    ensures
        lines_settle(l, b, title),
{
    assert forall|i: int| 0 <= i < b.len() implies is_kept_line(#[trigger] b[i]) && if title {
        case_of(b[i][0]) == Case::Lower ==> title_first(l, b[i]) == b[i]
    } else {
        case_of(b[i][0]) == Case::Upper ==> lower_first(l, b[i]) == b[i]
    } by {
        assert(a.contains(b[i]));
        let k = choose|k: int| 0 <= k < a.len() && a[k] == b[i];
        assert(is_kept_line(a[k]));
    }
}

/// No line changes exactly where the count of changed lines is zero.
proof fn lemma_count_changed_zero(s: Seq<Seq<char>>, m: Seq<Seq<char>>)
    requires
        s.len() == m.len(),
    ensures
        (count_changed(s, m) == 0) == (forall|i: int| 0 <= i < s.len() ==> #[trigger] s[i] == m[i]),
    decreases s.len(),
{
    if s.len() > 0 {
        let s1 = s.drop_last();
        let m1 = m.drop_last();
        lemma_count_changed_zero(s1, m1);
        if count_changed(s, m) == 0 {
            assert forall|i: int| 0 <= i < s.len() implies #[trigger] s[i] == m[i] by {
                if i < s1.len() {
                    assert(s1[i] == s[i]);
                    assert(m1[i] == m[i]);
                }
            }
        }
        if forall|i: int| 0 <= i < s.len() ==> #[trigger] s[i] == m[i] {
            assert forall|i: int| 0 <= i < s1.len() implies #[trigger] s1[i] == m1[i] by {
                assert(s[i] == m[i]);
            }
            assert(s[s.len() - 1] == m[s.len() - 1]);
        }
    }
}

/// Titlecasing lines that it leaves as they are gives them back, and
/// counts no change.
proof fn lemma_title_all_fixed(l: Seq<char>, s: Seq<Seq<char>>)
    requires
        forall|i: int| 0 <= i < s.len() ==> title_first(l, #[trigger] s[i]) == s[i],
    ensures
        title_all(l, s) == s,
        count_changed(s, title_all(l, s)) == 0,
{
    assert(title_all(l, s) =~= s);
    lemma_count_changed_zero(s, title_all(l, s));
}

/// Lowercasing lines that it leaves as they are gives them back, and
/// counts no change.
proof fn lemma_lower_all_fixed(l: Seq<char>, s: Seq<Seq<char>>)
    requires
        forall|i: int| 0 <= i < s.len() ==> lower_first(l, #[trigger] s[i]) == s[i],
    ensures
        lower_all(l, s) == s,
        count_changed(s, lower_all(l, s)) == 0,
{
    assert(lower_all(l, s) =~= s);
    lemma_count_changed_zero(s, lower_all(l, s));
}

/// A line of a bucket of `st` is among the lines that fill the buckets.
proof fn lemma_bucket_line(st: MachineState, p: Seq<Seq<char>>, x: Seq<char>)
    requires
        bucket_lines(st).to_multiset() == p.to_multiset(),
        st.lower.contains(x) || st.upper.contains(x),
    ensures
        p.contains(x),
{
    let b = bucket_lines(st);
    if st.lower.contains(x) {
        let k = choose|k: int| 0 <= k < st.lower.len() && st.lower[k] == x;
        assert(b[k] == x);
    } else {
        let k = choose|k: int| 0 <= k < st.upper.len() && st.upper[k] == x;
        assert(b[st.lower.len() + k] == x);
    }
    assert(b.contains(x));
    b.to_multiset_ensures();
    p.to_multiset_ensures();
    assert(b.to_multiset().count(x) > 0);
}

/// The state with an empty paragraph and `k` empty lines before it.
pub open spec fn fresh_state(k: nat) -> MachineState {
    MachineState { lower: seq![], upper: seq![], stable: seq![], leading: k, trailing: 0 }
}

/// Pushing kept lines keeps a state valid.
proof fn lemma_push_all_valid(st: MachineState, p: Seq<Seq<char>>)
    requires
        st.leading <= 2,
        st.trailing <= 2,
        forall|i: int| 0 <= i < st.lower.len() ==> is_body_line(#[trigger] st.lower[i], Case::Lower),
        forall|i: int| 0 <= i < st.upper.len() ==> is_body_line(#[trigger] st.upper[i], Case::Upper),
        forall|i: int| 0 <= i < st.stable.len() ==> is_body_line(#[trigger] st.stable[i], Case::Neutral),
        forall|i: int| 0 <= i < p.len() ==> is_kept_line(#[trigger] p[i]),
        p.len() > 0,
    ensures
        valid_state(push_all(st, p)),
    decreases p.len(),
{
    let q = p.drop_last();
    assert forall|i: int| 0 <= i < q.len() implies is_kept_line(#[trigger] q[i]) by {
        assert(q[i] == p[i]);
    }
    assert(is_kept_line(p[p.len() - 1]));
    if q.len() > 0 {
        lemma_push_all_valid(st, q);
    }
    let s1 = push_all(st, q);
    lemma_push_all(st, q);
    crate::laws::lemma_push_line(s1, p.last());
}

/// The adjusted lines of a paragraph whose lines map well settle under the
/// mapping that the paragraph chose.
proof fn lemma_adjusted_settle(l: Seq<char>, st: MachineState)
    requires
        valid_state(st),
        state_maps_well(l, st),
    ensures
        lines_settle(l, adjusted_lines(l, st), titlecases_lower(l, st)),
{
    let a = adjusted_lines(l, st);
    let title = titlecases_lower(l, st);
    let nl = st.lower.len() as int;
    let nu = st.upper.len() as int;
    assert forall|i: int| 0 <= i < a.len() implies is_kept_line(#[trigger] a[i]) && if title {
        case_of(a[i][0]) == Case::Lower ==> title_first(l, a[i]) == a[i]
    } else {
        case_of(a[i][0]) == Case::Upper ==> lower_first(l, a[i]) == a[i]
    } by {
        if title {
            if i < nl {
                assert(is_body_line(st.lower[i], Case::Lower));
                assert(maps_well(l, st.lower[i]));
                assert(a[i] == title_first(l, st.lower[i]));
            } else if i < nl + nu {
                assert(a[i] == st.upper[i - nl]);
                assert(is_body_line(st.upper[i - nl], Case::Upper));
            } else {
                assert(a[i] == st.stable[i - nl - nu]);
                assert(is_body_line(st.stable[i - nl - nu], Case::Neutral));
            }
        } else {
            if i < nl {
                assert(a[i] == st.lower[i]);
                assert(is_body_line(st.lower[i], Case::Lower));
            } else if i < nl + nu {
                assert(is_body_line(st.upper[i - nl], Case::Upper));
                assert(maps_well(l, st.upper[i - nl]));
                assert(a[i] == lower_first(l, st.upper[i - nl]));
            } else {
                assert(a[i] == st.stable[i - nl - nu]);
                assert(is_body_line(st.stable[i - nl - nu], Case::Neutral));
            }
        }
    }
}

/// A paragraph filled with lines that settle under one mapping writes its
/// lines unchanged by case: its adjusted lines are its lines.
proof fn lemma_refill_adjusts_nothing(l: Seq<char>, st2: MachineState, p: Seq<Seq<char>>, title: bool)
    requires
        valid_state(st2),
        lines_settle(l, p, title),
        bucket_lines(st2).to_multiset() == p.to_multiset(),
    ensures
        adjusted_lines(l, st2) == bucket_lines(st2),
{
    if title {
        assert forall|i: int| 0 <= i < st2.lower.len() implies title_first(l, #[trigger] st2.lower[i])
            == st2.lower[i] by {
            assert(st2.lower.contains(st2.lower[i]));
            lemma_bucket_line(st2, p, st2.lower[i]);
            let k = choose|k: int| 0 <= k < p.len() && p[k] == st2.lower[i];
            assert(is_kept_line(p[k]));
            assert(is_body_line(st2.lower[i], Case::Lower));
        }
        lemma_title_all_fixed(l, st2.lower);
        assert(titlecases_lower(l, st2));
    } else {
        assert forall|i: int| 0 <= i < st2.upper.len() implies lower_first(l, #[trigger] st2.upper[i])
            == st2.upper[i] by {
            assert(st2.upper.contains(st2.upper[i]));
            lemma_bucket_line(st2, p, st2.upper[i]);
            let k = choose|k: int| 0 <= k < p.len() && p[k] == st2.upper[i];
            assert(is_kept_line(p[k]));
            assert(is_body_line(st2.upper[i], Case::Upper));
        }
        lemma_lower_all_fixed(l, st2.upper);
        if titlecases_lower(l, st2) {
            lemma_count_changed_zero(st2.lower, title_all(l, st2.lower));
            assert forall|i: int| 0 <= i < st2.lower.len() implies title_first(l, #[trigger] st2.lower[i])
                == st2.lower[i] by {
                assert(st2.lower[i] == title_all(l, st2.lower)[i]);
            }
            lemma_title_all_fixed(l, st2.lower);
        }
    }
}

/// A written paragraph, read again after `k` empty lines, is written the same.
proof fn lemma_paragraph_fixpoint(l: Seq<char>, st: MachineState, k: nat)
    requires
        collation_is_total_order(l),
        valid_state(st),
        body_len(st) > 0,
        state_maps_well(l, st),
        k <= 2,
    ensures
        forall|i: int|
            0 <= i < paragraph_lines(l, st).len() ==> is_kept_line(#[trigger] paragraph_lines(l, st)[i]),
        paragraph_lines(l, st).len() > 0,
        valid_state(push_all(fresh_state(k), paragraph_lines(l, st))),
        body_len(push_all(fresh_state(k), paragraph_lines(l, st))) > 0,
        push_all(fresh_state(k), paragraph_lines(l, st)).leading == k,
        push_all(fresh_state(k), paragraph_lines(l, st)).trailing == 0,
        paragraph_lines(l, push_all(fresh_state(k), paragraph_lines(l, st))) == paragraph_lines(l, st),
{
    broadcast use vstd::seq_lib::group_to_multiset_ensures;

    let a = adjusted_lines(l, st);
    let title = titlecases_lower(l, st);
    lemma_adjusted_settle(l, st);
    let so = sort_lines(l, a);
    lemma_sort_lines_multiset(l, a);
    lemma_sort_lines_sorted(l, a);
    assert forall|i: int| 0 <= i < so.len() implies a.contains(#[trigger] so[i]) by {
        assert(so.to_multiset().count(so[i]) > 0);
    }
    lemma_lines_settle_sub(l, a, so, title);
    let p = dedup_lines(l, so);
    lemma_dedup_lines(l, so);
    lemma_lines_settle_sub(l, so, p, title);
    lemma_dedup_sorted_strict(l, so);
    crate::laws::lemma_paragraph_output_len(l, st);
    assert(p == paragraph_lines(l, st));
    assert forall|i: int| 0 <= i < p.len() implies is_kept_line(#[trigger] p[i]) by {}
    let b = fresh_state(k);
    let st2 = push_all(b, p);
    assert forall|i: int| 0 <= i < p.len() implies (#[trigger] p[i]).len() > 0 by {
        assert(is_kept_line(p[i]));
    }
    lemma_push_all(b, p);
    lemma_push_all_valid(b, p);
    assert(bucket_lines(b) == Seq::<Seq<char>>::empty());
    assert(bucket_lines(st2).to_multiset() =~= p.to_multiset()) by {
        broadcast use vstd::multiset::group_multiset_axioms;

    }
    lemma_refill_adjusts_nothing(l, st2, p, title);
    let a2 = adjusted_lines(l, st2);
    let so2 = sort_lines(l, a2);
    lemma_sort_lines_multiset(l, a2);
    lemma_sort_lines_sorted(l, a2);
    lemma_sorted_unique(l, so2, p);
    lemma_dedup_strict_identity(l, p);
}

/// Feeding `a` from the start leaves a paragraph of no gap after it, and what
/// was written plus that paragraph is `a`.
pub open spec fn rereads_to(l: Seq<char>, a: Seq<Seq<char>>) -> bool {
    let (s, o) = run_lines(l, initial_state(), a);
    &&& s.trailing == 0
    &&& valid_state(s)
    &&& body_len(s) > 0
    &&& o + paragraph_output(l, s) == a
}

proof fn lemma_push_all_first(st: MachineState, x: Seq<char>, q: Seq<Seq<char>>)
    ensures
        push_all(st, seq![x] + q) == push_all(push_line(st, x), q),
    decreases q.len(),
{
    if q.len() == 0 {
        assert(seq![x] + q == seq![x]);
        assert(seq![x].drop_last() == Seq::<Seq<char>>::empty());
        assert(seq![x].last() == x);
        assert(push_all(st, Seq::<Seq<char>>::empty()) == st);
        assert(push_all(st, seq![x]) == push_line(st, x));
    } else {
        lemma_push_all_first(st, x, q.drop_last());
        assert((seq![x] + q).drop_last() == seq![x] + q.drop_last());
        assert((seq![x] + q).last() == q.last());
    }
}

/// Writing a paragraph after output that rereads to itself gives output
/// that rereads to itself.
proof fn lemma_append_rereads(l: Seq<char>, a: Seq<Seq<char>>, st: MachineState)
    requires
        collation_is_total_order(l),
        valid_state(st),
        body_len(st) > 0,
        state_maps_well(l, st),
        (a.len() == 0 && st.leading == 0) || (a.len() > 0 && 1 <= st.leading && rereads_to(l, a)),
    ensures
        rereads_to(l, a + paragraph_output(l, st)),
{
    let k = st.leading;
    let p = paragraph_lines(l, st);
    lemma_paragraph_fixpoint(l, st, k);
    let st2 = push_all(fresh_state(k), p);
    let x = a + paragraph_output(l, st);
    if a.len() == 0 {
        assert(empty_lines(0) + p == p);
        assert(x == p);
        assert(fresh_state(0) == initial_state());
        lemma_run_body(l, initial_state(), p);
        assert(Seq::<Seq<char>>::empty() + paragraph_output(l, st2) == p);
    } else {
        let (s, o) = run_lines(l, initial_state(), a);
        lemma_run_concat(l, initial_state(), a, empty_lines(k));
        lemma_run_blanks(l, s, k);
        let sk = MachineState { trailing: k, ..s };
        assert(a + empty_lines(k) + Seq::<Seq<char>>::empty() == a + empty_lines(k));
        lemma_run_concat(l, initial_state(), a + empty_lines(k), p);
        let q = p.skip(1);
        assert(p == seq![p[0]] + q);
        lemma_run_concat(l, sk, seq![p[0]], q);
        assert(seq![p[0]].drop_last() == Seq::<Seq<char>>::empty());
        assert(is_kept_line(p[0]));
        let f = feed_step(l, sk, p[0]);
        assert(paragraph_output(l, sk) == paragraph_output(l, s));
        assert(f.0 == push_line(fresh_state(k), p[0]));
        assert(f.1 == paragraph_output(l, s));
        assert forall|i: int| 0 <= i < q.len() implies is_kept_line(#[trigger] q[i]) by {
            assert(q[i] == p[i + 1]);
        }
        lemma_run_body(l, f.0, q);
        lemma_push_all_first(fresh_state(k), p[0], q);
        assert(Seq::<Seq<char>>::empty() + f.1 == f.1);
        assert(run_lines(l, sk, Seq::<Seq<char>>::empty()) == (sk, Seq::<Seq<char>>::empty()));
        assert(run_lines(l, sk, seq![p[0]]) == (f.0, Seq::<Seq<char>>::empty() + f.1));
        assert(push_all(f.0, q) == st2);
        assert(run_lines(l, sk, seq![p[0]] + q) == (st2, f.1 + Seq::<Seq<char>>::empty()));
        assert(run_lines(l, sk, p) == (st2, f.1 + Seq::<Seq<char>>::empty()));
        assert(f.1 + Seq::<Seq<char>>::empty() == f.1);
        assert(x == (a + empty_lines(k)) + p);
        assert(run_lines(l, initial_state(), a + empty_lines(k)) == (sk, o + Seq::<Seq<char>>::empty()));
        assert(run_lines(l, initial_state(), x) == (st2, o + Seq::<Seq<char>>::empty() + (f.1 + Seq::<Seq<char>>::empty())));
        assert(o + Seq::<Seq<char>>::empty() + (f.1 + Seq::<Seq<char>>::empty()) == o + Seq::<Seq<char>>::empty() + f.1);
        assert(o + Seq::<Seq<char>>::empty() + f.1 == a);
        assert(paragraph_output(l, st2) == empty_lines(k) + p);
        assert(a + (empty_lines(k) + p) == x);
    }
}

proof fn lemma_first_pass(l: Seq<char>, lines: Seq<Seq<char>>)
    requires
        collation_is_total_order(l),
        lines_map_well(l, lines),
    ensures
        ({
            let (st, out) = run_lines(l, initial_state(), lines);
            &&& valid_state(st)
            &&& state_maps_well(l, st)
            &&& (out.len() == 0) == (st.leading == 0)
            &&& body_len(st) == 0 ==> out.len() == 0
            &&& out.len() > 0 ==> rereads_to(l, out)
        }),
    decreases lines.len(),
{
    if lines.len() > 0 {
        let prev = lines.drop_last();
        assert forall|i: int|
            0 <= i < prev.len() && trim_end_spec(#[trigger] prev[i]).len() > 0 implies maps_well(
            l,
            trim_end_spec(prev[i]),
        ) by {
            assert(prev[i] == lines[i]);
        }
        lemma_first_pass(l, prev);
        let (s1, o1) = run_lines(l, initial_state(), prev);
        let line = lines.last();
        let t = trim_end_spec(line);
        crate::text::lemma_trim_end_idempotent(line);
        if t.len() > 0 {
            assert(trim_end_spec(lines[lines.len() - 1]).len() > 0);
            assert(maps_well(l, t));
            let base = if s1.trailing > 0 {
                fresh_state(s1.trailing)
            } else {
                s1
            };
            crate::laws::lemma_push_line(base, t);
            let s2 = push_line(base, t);
            assert(state_maps_well(l, s2)) by {
                assert forall|i: int| 0 <= i < s2.lower.len() implies maps_well(l, #[trigger] s2.lower[i]) by {
                    if i < base.lower.len() {
                        assert(s2.lower[i] == base.lower[i]);
                    }
                }
                assert forall|i: int| 0 <= i < s2.upper.len() implies maps_well(l, #[trigger] s2.upper[i]) by {
                    if i < base.upper.len() {
                        assert(s2.upper[i] == base.upper[i]);
                    }
                }
            }
            if s1.trailing > 0 {
                lemma_append_rereads(l, o1, s1);
                crate::laws::lemma_paragraph_output_len(l, s1);
                lemma_paragraph_fixpoint(l, s1, 0);
            } else {
                assert(o1 + Seq::<Seq<char>>::empty() == o1);
            }
        } else {
            assert(o1 + Seq::<Seq<char>>::empty() == o1);
        }
    }
}

/// Formatting formatted text changes nothing, where the collation is a total
/// order and case mapping behaves on the lines given.
pub proof fn law_idempotence(l: Seq<char>, lines: Seq<Seq<char>>)
    requires
        collation_is_total_order(l),
        lines_map_well(l, lines),
    ensures
        format_lines_spec(l, format_lines_spec(l, lines)) == format_lines_spec(l, lines),
{
    lemma_first_pass(l, lines);
    let (st, out) = run_lines(l, initial_state(), lines);
    if body_len(st) == 0 {
        assert(out + Seq::<Seq<char>>::empty() == Seq::<Seq<char>>::empty());
        assert(format_lines_spec(l, lines) == Seq::<Seq<char>>::empty());
        assert(run_lines(l, initial_state(), Seq::<Seq<char>>::empty()) == (initial_state(), Seq::<Seq<char>>::empty()));
    } else {
        lemma_append_rereads(l, out, st);
        let x = out + paragraph_output(l, st);
        assert(format_lines_spec(l, lines) == x);
    }
}

/// Every line of `s` is without trailing white space.
pub open spec fn all_trimmed(s: Seq<Seq<char>>) -> bool {
    forall|i: int| 0 <= i < s.len() ==> trim_end_spec(#[trigger] s[i]) == s[i]
}

proof fn lemma_all_trimmed_concat(a: Seq<Seq<char>>, b: Seq<Seq<char>>)
    requires
        all_trimmed(a),
        all_trimmed(b),
    ensures
        all_trimmed(a + b),
{
    assert forall|i: int| 0 <= i < (a + b).len() implies trim_end_spec(#[trigger] (a + b)[i]) == (a
        + b)[i] by {
        if i < a.len() {
            assert((a + b)[i] == a[i]);
        } else {
            assert((a + b)[i] == b[i - a.len()]);
        }
    }
}

/// What a paragraph whose lines map well writes has no trailing white space.
proof fn lemma_paragraph_output_trimmed(l: Seq<char>, st: MachineState)
    requires
        valid_state(st),
        state_maps_well(l, st),
    ensures
        all_trimmed(paragraph_output(l, st)),
{
    broadcast use vstd::seq_lib::group_to_multiset_ensures;

    let a = adjusted_lines(l, st);
    let title = titlecases_lower(l, st);
    lemma_adjusted_settle(l, st);
    let so = sort_lines(l, a);
    lemma_sort_lines_multiset(l, a);
    assert forall|i: int| 0 <= i < so.len() implies a.contains(#[trigger] so[i]) by {
        assert(so.to_multiset().count(so[i]) > 0);
    }
    lemma_lines_settle_sub(l, a, so, title);
    let p = dedup_lines(l, so);
    lemma_dedup_lines(l, so);
    lemma_lines_settle_sub(l, so, p, title);
    assert forall|i: int| 0 <= i < p.len() implies trim_end_spec(#[trigger] p[i]) == p[i] by {
        assert(is_kept_line(p[i]));
    }
    let e = empty_lines(st.leading);
    assert forall|i: int| 0 <= i < e.len() implies trim_end_spec(#[trigger] e[i]) == e[i] by {
        assert(e[i] == Seq::<char>::empty());
        assert(e[i].take(0) =~= e[i]);
    }
    lemma_all_trimmed_concat(e, p);
}

/// Feeding lines that map well reaches a valid state whose lines map well,
/// and writes no line with trailing white space.
proof fn lemma_run_trimmed(l: Seq<char>, lines: Seq<Seq<char>>)
    requires
        lines_map_well(l, lines),
    ensures
        valid_state(run_lines(l, initial_state(), lines).0),
        state_maps_well(l, run_lines(l, initial_state(), lines).0),
        all_trimmed(run_lines(l, initial_state(), lines).1),
    decreases lines.len(),
{
    if lines.len() > 0 {
        let prev = lines.drop_last();
        assert forall|i: int|
            0 <= i < prev.len() && trim_end_spec(#[trigger] prev[i]).len() > 0 implies maps_well(
            l,
            trim_end_spec(prev[i]),
        ) by {
            assert(prev[i] == lines[i]);
        }
        lemma_run_trimmed(l, prev);
        let (s1, o1) = run_lines(l, initial_state(), prev);
        let line = lines.last();
        let t = trim_end_spec(line);
        crate::text::lemma_trim_end_idempotent(line);
        if t.len() > 0 {
            assert(trim_end_spec(lines[lines.len() - 1]).len() > 0);
            assert(maps_well(l, t));
            let base = if s1.trailing > 0 {
                fresh_state(s1.trailing)
            } else {
                s1
            };
            crate::laws::lemma_push_line(base, t);
            let s2 = push_line(base, t);
            assert(state_maps_well(l, s2)) by {
                assert forall|i: int| 0 <= i < s2.lower.len() implies maps_well(l, #[trigger] s2.lower[i]) by {
                    if i < base.lower.len() {
                        assert(s2.lower[i] == base.lower[i]);
                    }
                }
                assert forall|i: int| 0 <= i < s2.upper.len() implies maps_well(l, #[trigger] s2.upper[i]) by {
                    if i < base.upper.len() {
                        assert(s2.upper[i] == base.upper[i]);
                    }
                }
            }
            if s1.trailing > 0 {
                lemma_paragraph_output_trimmed(l, s1);
                lemma_all_trimmed_concat(o1, paragraph_output(l, s1));
            } else {
                assert(o1 + Seq::<Seq<char>>::empty() == o1);
            }
        } else {
            assert(o1 + Seq::<Seq<char>>::empty() == o1);
        }
    }
}

/// No line that formatting writes ends in white space, where case mapping
/// behaves on the lines given.
pub proof fn law_no_trailing_white_space(l: Seq<char>, lines: Seq<Seq<char>>)
    requires
        lines_map_well(l, lines),
    ensures
        all_trimmed(format_lines_spec(l, lines)),
{
    lemma_run_trimmed(l, lines);
    let (st, out) = run_lines(l, initial_state(), lines);
    if body_len(st) > 0 {
        lemma_paragraph_output_trimmed(l, st);
        lemma_all_trimmed_concat(out, paragraph_output(l, st));
    } else {
        assert(out + Seq::<Seq<char>>::empty() == out);
    }
}

} // verus!
