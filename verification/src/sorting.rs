use crate::locale::{collation, Locale, Order};
use vstd::prelude::*;

verus! {

broadcast use vstd::std_specs::vec::group_vec_axioms;

/// The characters of each string of `v`.
pub open spec fn view_lines(v: Seq<String>) -> Seq<Seq<char>> {
    v.map_values(|s: String| s@)
}

/// Inserts `x` into `s` the way an insertion sort does: behind every line
/// that `x` does not collate before, scanning from the end.
pub open spec fn insert_sorted(l: Seq<char>, s: Seq<Seq<char>>, x: Seq<char>) -> Seq<Seq<char>>
    decreases s.len(),
{
    if s.len() == 0 {
        seq![x]
    } else if collation(l, x, s.last()) == Order::Less {
        insert_sorted(l, s.drop_last(), x).push(s.last())
    } else {
        s.push(x)
    }
}

/// The lines of `s` sorted by the collation of the locale `l`, one line after
/// another, by insertion.
pub open spec fn sort_lines(l: Seq<char>, s: Seq<Seq<char>>) -> Seq<Seq<char>>
    decreases s.len(),
{
    if s.len() == 0 {
        s
    } else {
        insert_sorted(l, sort_lines(l, s.drop_last()), s.last())
    }
}

/// `s` without each line that collates equal to the last line kept before it.
pub open spec fn dedup_lines(l: Seq<char>, s: Seq<Seq<char>>) -> Seq<Seq<char>>
    decreases s.len(),
{
    if s.len() == 0 {
        s
    } else {
        let d = dedup_lines(l, s.drop_last());
        if d.len() > 0 && collation(l, s.last(), d.last()) == Order::Equal {
            d
        } else {
            d.push(s.last())
        }
    }
}

/// The collation of `l` is a total preorder whose `Less` and `Greater` mirror each other.
pub open spec fn collation_is_total_order(l: Seq<char>) -> bool {
    &&& forall|a: Seq<char>| #[trigger] collation(l, a, a) == Order::Equal
    &&& forall|a: Seq<char>, b: Seq<char>|
        (#[trigger] collation(l, a, b) == Order::Less) == (collation(l, b, a) == Order::Greater)
    &&& forall|a: Seq<char>, b: Seq<char>|
        (#[trigger] collation(l, a, b) == Order::Equal) == (collation(l, b, a) == Order::Equal)
    &&& forall|a: Seq<char>, b: Seq<char>, c: Seq<char>|
        #![trigger collation(l, a, b), collation(l, b, c)]
        collation(l, a, b) != Order::Greater && collation(l, b, c) != Order::Greater
            ==> collation(l, a, c) != Order::Greater
            && (collation(l, a, b) == Order::Less || collation(l, b, c) == Order::Less
            ==> collation(l, a, c) == Order::Less)
}

/// Every line of `s` collates no later than each line after it.
pub open spec fn is_sorted(l: Seq<char>, s: Seq<Seq<char>>) -> bool {
    forall|i: int, j: int| 0 <= i < j < s.len() ==> collation(l, s[i], s[j]) != Order::Greater
}

/// Inserting a line adds it to the lines and nothing else.
pub proof fn lemma_insert_sorted_multiset(l: Seq<char>, s: Seq<Seq<char>>, x: Seq<char>)
    ensures
        insert_sorted(l, s, x).to_multiset() == s.to_multiset().insert(x),
        insert_sorted(l, s, x).len() == s.len() + 1,
    decreases s.len(),
{
    broadcast use vstd::seq_lib::group_to_multiset_ensures;

    if s.len() > 0 {
        if collation(l, x, s.last()) == Order::Less {
            lemma_insert_sorted_multiset(l, s.drop_last(), x);
            assert(s == s.drop_last().push(s.last()));
        }
    }
}

/// Sorting keeps every line, as often as it occurs.
pub proof fn lemma_sort_lines_multiset(l: Seq<char>, s: Seq<Seq<char>>)
    ensures
        sort_lines(l, s).to_multiset() == s.to_multiset(),
        sort_lines(l, s).len() == s.len(),
    decreases s.len(),
{
    broadcast use vstd::seq_lib::group_to_multiset_ensures;

    if s.len() > 0 {
        lemma_sort_lines_multiset(l, s.drop_last());
        lemma_insert_sorted_multiset(l, sort_lines(l, s.drop_last()), s.last());
        assert(s == s.drop_last().push(s.last()));
    }
}

/// Inserting keeps a sorted sequence sorted, where the collation is a total order.
pub proof fn lemma_insert_sorted_sorted(l: Seq<char>, s: Seq<Seq<char>>, x: Seq<char>)
    requires
        collation_is_total_order(l),
        is_sorted(l, s),
    ensures
        is_sorted(l, insert_sorted(l, s, x)),
    decreases s.len(),
{
    broadcast use vstd::seq_lib::group_to_multiset_ensures;

    if s.len() > 0 {
        if collation(l, x, s.last()) == Order::Less {
            let t = s.drop_last();
            lemma_insert_sorted_sorted(l, t, x);
            lemma_insert_sorted_multiset(l, t, x);
            let u = insert_sorted(l, t, x);
            assert forall|i: int| 0 <= i < u.len() implies collation(l, #[trigger] u[i], s.last()) != Order::Greater by {
                assert(u.to_multiset().count(u[i]) > 0);
                assert(t.to_multiset().insert(x).count(u[i]) > 0);
                if u[i] != x {
                    assert(t.to_multiset().count(u[i]) > 0);
                    assert(t.contains(u[i]));
                    let k = choose|k: int| 0 <= k < t.len() && t[k] == u[i];
                    assert(s[k] == t[k]);
                    assert(s.last() == s[s.len() - 1]);
                }
            }
        } else {
            assert forall|i: int| 0 <= i < s.len() implies collation(l, #[trigger] s[i], x) != Order::Greater by {
                assert(s.last() == s[s.len() - 1]);
                if i < s.len() - 1 {
                    assert(collation(l, s[i], s.last()) != Order::Greater);
                }
            }
        }
    }
}

/// Sorting sorts, where the collation is a total order.
pub proof fn lemma_sort_lines_sorted(l: Seq<char>, s: Seq<Seq<char>>)
    requires
        collation_is_total_order(l),
    ensures
        is_sorted(l, sort_lines(l, s)),
    decreases s.len(),
{
    if s.len() > 0 {
        lemma_sort_lines_sorted(l, s.drop_last());
        lemma_insert_sorted_sorted(l, sort_lines(l, s.drop_last()), s.last());
    }
}

/// Dedup keeps no more lines than it is given, keeps at least one of a
/// nonempty sequence, and keeps only lines of its input, in their order.
pub proof fn lemma_dedup_lines(l: Seq<char>, s: Seq<Seq<char>>)
    ensures
        dedup_lines(l, s).len() <= s.len(),
        s.len() > 0 ==> dedup_lines(l, s).len() > 0,
        forall|i: int| 0 <= i < dedup_lines(l, s).len() ==> s.contains(#[trigger] dedup_lines(l, s)[i]),
    decreases s.len(),
{
    if s.len() > 0 {
        let t = s.drop_last();
        lemma_dedup_lines(l, t);
        let d = dedup_lines(l, t);
        assert forall|i: int| 0 <= i < dedup_lines(l, s).len() implies s.contains(#[trigger] dedup_lines(l, s)[i]) by {
            if i < d.len() {
                assert(t.contains(d[i]));
                let k = choose|k: int| 0 <= k < t.len() && t[k] == d[i];
                assert(s[k] == t[k]);
            } else {
                assert(dedup_lines(l, s)[i] == s[s.len() - 1]);
            }
        }
    }
}

/// Inserts `x` into `sorted`, as `insert_sorted` says.
pub fn insert_line(sorted: &mut Vec<String>, x: String, locale: &Locale)
    ensures
        view_lines(final(sorted)@) == insert_sorted(locale@, view_lines(old(sorted)@), x@),
{
    let ghost s = view_lines(sorted@);
    let ghost l = locale@;
    let mut j: usize = sorted.len();
    assert(s.take(j as int) == s);
    assert(s.skip(j as int) == Seq::<Seq<char>>::empty());
    loop
        invariant
            j <= sorted.len(),
            sorted@ == old(sorted)@,
            s == view_lines(sorted@),
            l == locale@,
            insert_sorted(l, s, x@) == insert_sorted(l, s.take(j as int), x@) + s.skip(j as int),
        ensures
            j <= sorted.len(),
            sorted@ == old(sorted)@,
            insert_sorted(l, s, x@) == insert_sorted(l, s.take(j as int), x@) + s.skip(j as int),
            j == 0 || collation(l, x@, s[j - 1]) != Order::Less,
        decreases j,
    {
        if j == 0 {
            break;
        }
        if locale.order(x.as_str(), sorted[j - 1].as_str()) != Order::Less {
            break;
        }
        proof {
            let t = s.take(j as int);
            assert(t.last() == s[j - 1]);
            assert(t.drop_last() == s.take(j - 1));
            assert(s.skip(j - 1) == seq![s[j - 1]] + s.skip(j as int));
        }
        j = j - 1;
    }
    proof {
        let t = s.take(j as int);
        if j > 0 {
            assert(t.last() == s[j - 1]);
            assert(t.drop_last().push(t.last()) == t);
        }
        assert(insert_sorted(l, t, x@) == t.push(x@));
    }
    sorted.insert(j, x);
    proof {
        assert(view_lines(sorted@) == s.take(j as int) + seq![x@] + s.skip(j as int));
    }
}

/// Keeps the first of each run of lines that collate equal, as `dedup_lines` says.
pub fn dedup_by_collation(lines: Vec<String>, locale: &Locale) -> (r: Vec<String>)
    ensures
        view_lines(r@) == dedup_lines(locale@, view_lines(lines@)),
{
    let ghost s = view_lines(lines@);
    let mut r: Vec<String> = Vec::new();
    for line in it: lines.into_iter()
        invariant
            it.seq() == lines@,
            s == view_lines(lines@),
            view_lines(r@) == dedup_lines(locale@, s.take(it.index())),
    {
        proof {
            let t = s.take(it.index() + 1);
            assert(t.drop_last() == s.take(it.index()));
            assert(t.last() == line@);
        }
        let keep = if r.len() == 0 {
            true
        } else {
            locale.order(line.as_str(), r[r.len() - 1].as_str()) != Order::Equal
        };
        if keep {
            r.push(line);
        }
    }
    proof {
        assert(s.take(s.len() as int) == s);
    }
    r
}

/// Sorts `lines` by collation, as `sort_lines` says.
pub fn sort_by_collation(lines: Vec<String>, locale: &Locale) -> (r: Vec<String>)
    ensures
        view_lines(r@) == sort_lines(locale@, view_lines(lines@)),
{
    let ghost s = view_lines(lines@);
    let mut r: Vec<String> = Vec::new();
    for line in it: lines.into_iter()
        invariant
            it.seq() == lines@,
            s == view_lines(lines@),
            view_lines(r@) == sort_lines(locale@, s.take(it.index())),
    {
        proof {
            let t = s.take(it.index() + 1);
            assert(t.drop_last() == s.take(it.index()));
            assert(t.last() == line@);
        }
        insert_line(&mut r, line, locale);
    }
    proof {
        assert(s.take(s.len() as int) == s);
    }
    r
}

} // verus!
