use crate::sorting::view_lines;
use vstd::prelude::*;

verus! {

broadcast use vstd::std_specs::vec::group_vec_axioms;

/// The destinations and their lines, in the order the destinations first came.
pub type MovedView = Seq<(Seq<char>, Seq<Seq<char>>)>;

/// No destination occurs twice.
pub open spec fn distinct_paths(m: MovedView) -> bool {
    forall|i: int, j: int| 0 <= i < j < m.len() ==> m[i].0 != m[j].0
}

/// `m` with `line` added to the lines of `path`: at its place where `path`
/// is already a destination, as a new destination at the end otherwise.
pub open spec fn add_moved(m: MovedView, path: Seq<char>, line: Seq<char>) -> MovedView {
    if exists|i: int| 0 <= i < m.len() && m[i].0 == path {
        let i = choose|i: int| 0 <= i < m.len() && m[i].0 == path;
        m.update(i, (path, m[i].1.push(line)))
    } else {
        m.push((path, seq![line]))
    }
}

/// Lines that the formatter took out of a stream, grouped by the file they
/// should go to.
pub struct MovedLines {
    entries: Vec<(String, Vec<String>)>,
}

/// The view of stored entries.
pub open spec fn entries_view(s: Seq<(String, Vec<String>)>) -> MovedView {
    s.map_values(|e: (String, Vec<String>)| (e.0@, view_lines(e.1@)))
}

impl View for MovedLines {
    type V = MovedView;

    closed spec fn view(&self) -> MovedView {
        entries_view(self.entries@)
    }
}

impl MovedLines {
    #[verifier::type_invariant]
    closed spec fn inv(&self) -> bool {
        distinct_paths(self@)
    }

    /// No destination yet.
    pub fn new() -> (r: MovedLines)
        ensures
            r@ == Seq::<(Seq<char>, Seq<Seq<char>>)>::empty(),
    {
        let r = MovedLines { entries: Vec::new() };
        assert(r@ =~= Seq::<(Seq<char>, Seq<Seq<char>>)>::empty());
        r
    }

    /// Adds `line` to the lines of `path`.
    pub fn add(&mut self, path: String, line: String)
        ensures
            final(self)@ == add_moved(old(self)@, path@, line@),
            distinct_paths(final(self)@),
    {
        proof {
            use_type_invariant(&*self);
        }
        let ghost m = self@;
        let mut entries: Vec<(String, Vec<String>)> = Vec::new();
        std::mem::swap(&mut entries, &mut self.entries);
        assert(entries_view(entries@) == m);
        let mut i: usize = 0;
        while i < entries.len()
            invariant
                i <= entries.len(),
                m == entries_view(entries@),
                m == old(self)@,
                distinct_paths(m),
                forall|k: int| 0 <= k < i ==> m[k].0 != path@,
            decreases entries.len() - i,
        {
            if entries[i].0 == path {
                proof {
                    assert(m[i as int].0 == path@);
                    let j = choose|j: int| 0 <= j < m.len() && m[j].0 == path@;
                    assert(j == i);
                    assert(view_lines(entries@[i as int].1@.push(line)) =~= view_lines(
                        entries@[i as int].1@,
                    ).push(line@));
                }
                entries[i].1.push(line);
                assert(entries_view(entries@) =~= m.update(i as int, (path@, m[i as int].1.push(line@))));
                assert(add_moved(m, path@, line@) == m.update(i as int, (path@, m[i as int].1.push(line@))));
                self.entries = entries;
                return;
            }
            i = i + 1;
        }
        let ghost line_view = line@;
        let mut lines: Vec<String> = Vec::new();
        lines.push(line);
        entries.push((path, lines));
        proof {
            assert(view_lines(lines@) =~= seq![line_view]);
            assert(entries_view(entries@) =~= m.push((path@, seq![line_view])));
        }
        self.entries = entries;
    }

    /// The number of destinations.
    pub fn len(&self) -> (r: usize)
        ensures
            r == self@.len(),
    {
        self.entries.len()
    }

    /// Whether there is no destination.
    pub fn is_empty(&self) -> (r: bool)
        ensures
            r == (self@.len() == 0),
    {
        self.entries.len() == 0
    }

    /// The destinations and their lines, in order.
    pub fn into_entries(self) -> (r: Vec<(String, Vec<String>)>)
        ensures
            r@.len() == self@.len(),
            forall|i: int|
                0 <= i < r@.len() ==> (#[trigger] r@[i]).0@ == self@[i].0 && view_lines(r@[i].1@)
                    == self@[i].1,
    {
        self.entries
    }
}

} // verus!
