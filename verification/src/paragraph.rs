use self::row::Row;
use crate::case::Case;
use crate::locale::{case_of, Locale};
use crate::moved_lines::{add_moved, distinct_paths, MovedView};
use crate::sorting::{dedup_by_collation, sort_by_collation, view_lines};
use crate::state_machine::{
    adjust_cases, append_all, body_len, empty_lines, is_body_line, paragraph_output, push_line,
    MachineState,
};
use crate::idempotence::{law_idempotence, lines_map_well};
use crate::laws::{case_mapping_keeps_text, law_line_count, law_spacing, well_spaced};
use crate::sorting::collation_is_total_order;
use crate::text::{split_once, split_once_spec, trim, trim_end_spec, trim_spec};
use indexmap::IndexMap;
use vstd::prelude::*;

pub mod row;

verus! {

broadcast use vstd::std_specs::vec::group_vec_axioms;

#[verifier::external_type_specification]
#[verifier::external_body]
#[verifier::reject_recursive_types(K)]
#[verifier::reject_recursive_types(V)]
#[verifier::reject_recursive_types(S)]
pub struct ExIndexMap<K, V, S>(IndexMap<K, V, S>);

/// The entries of a map of rows by destination, in the map's order, with
/// the text of each key and of each row.
pub uninterp spec fn index_map_entries(map: IndexMap<String, Vec<String>>) -> Seq<
    (Seq<char>, Seq<Seq<char>>),
>;

/// Calls `IndexMap::new` (indexmap): the map has no entry.
#[verifier::external_body]
fn new_index_map() -> (r: IndexMap<String, Vec<String>>)
    ensures
        index_map_entries(r) == Seq::<(Seq<char>, Seq<Seq<char>>)>::empty(),
{
    IndexMap::new()
}

/// Calls `IndexMap::entry(key)`, `Entry::or_default` and `Vec::push` (indexmap, std):
/// `value` goes at the end of the rows of `key`, an entry that keeps its place
/// where `key` is present, or a new entry at the end of the map otherwise.
/// Keys stay distinct, as in any map.
#[verifier::external_body]
fn index_map_push(map: &mut IndexMap<String, Vec<String>>, key: String, value: String)
    requires
        distinct_paths(index_map_entries(*old(map))),
    ensures
        index_map_entries(*final(map)) == add_moved(index_map_entries(*old(map)), key@, value@),
        distinct_paths(index_map_entries(*final(map))),
{
    map.entry(key).or_default().push(value);
}

/// What a paragraph holds besides its detached rows: the rows being read and
/// how many rows came since the paragraph started.
pub struct ParagraphState {
    pub rows: MachineState,
    pub body: nat,
}

/// `n + 1`, short of the largest `usize`.
pub open spec fn count_up(n: nat) -> nat {
    if n < usize::MAX {
        n + 1
    } else {
        n
    }
}

/// Reading one row (already without trailing white space): as a state
/// machine reads a line, where the count of rows decides whether a paragraph
/// has started.
pub open spec fn feed_row_step(l: Seq<char>, st: ParagraphState, t: Seq<char>) -> (
    ParagraphState,
    Seq<Seq<char>>,
) {
    if t.len() == 0 {
        if st.body > 0 && st.rows.trailing < 2 {
            (
                ParagraphState { rows: MachineState { trailing: st.rows.trailing + 1, ..st.rows }, ..st },
                seq![],
            )
        } else {
            (st, seq![])
        }
    } else if st.rows.trailing > 0 {
        (
            ParagraphState {
                rows: push_line(
                    MachineState {
                        lower: seq![],
                        upper: seq![],
                        stable: seq![],
                        leading: st.rows.trailing,
                        trailing: 0,
                    },
                    t,
                ),
                body: 1,
            },
            paragraph_output(l, st.rows),
        )
    } else {
        (ParagraphState { rows: push_line(st.rows, t), body: count_up(st.body) }, seq![])
    }
}

/// The view of a vector of rows.
pub open spec fn view_rows(v: Seq<Row>) -> Seq<Seq<char>> {
    v.map_values(|r: Row| r@)
}

/// A paragraph formatter that also detaches the rows that name a destination
/// after the move marker.
pub struct Paragraph<'a> {
    locale: &'a Locale,
    move_marker: &'a str,
    lower_rows: Vec<Row>,
    upper_rows: Vec<Row>,
    neutral_rows: Vec<Row>,
    leading_count: u8,
    body_count: usize,
    trailing_count: u8,
    detached_rows: IndexMap<String, Vec<String>>,
}

impl<'a> Paragraph<'a> {
    /// The rows being read, and the count of rows.
    pub closed spec fn state(&self) -> ParagraphState {
        ParagraphState {
            rows: MachineState {
                lower: view_rows(self.lower_rows@),
                upper: view_rows(self.upper_rows@),
                stable: view_rows(self.neutral_rows@),
                leading: self.leading_count as nat,
                trailing: self.trailing_count as nat,
            },
            body: self.body_count as nat,
        }
    }

    /// The rows detached so far, by destination.
    pub closed spec fn detached(&self) -> MovedView {
        index_map_entries(self.detached_rows)
    }

    /// The locale, by its descriptor.
    pub closed spec fn locale_view(&self) -> Seq<char> {
        self.locale@
    }

    /// The move marker.
    pub closed spec fn marker(&self) -> Seq<char> {
        self.move_marker@
    }

    /// The paragraph's invariant.
    pub closed spec fn wf(&self) -> bool {
        &&& self.leading_count <= 2
        &&& self.trailing_count <= 2
        &&& distinct_paths(index_map_entries(self.detached_rows))
        &&& forall|i: int| 0 <= i < self.lower_rows@.len() ==> is_body_line(#[trigger] self.lower_rows@[i]@, Case::Lower)
        &&& forall|i: int| 0 <= i < self.upper_rows@.len() ==> is_body_line(#[trigger] self.upper_rows@[i]@, Case::Upper)
        &&& forall|i: int| 0 <= i < self.neutral_rows@.len() ==> is_body_line(#[trigger] self.neutral_rows@[i]@, Case::Neutral)
    }

    /// A paragraph that has read nothing.
    pub fn new(locale: &'a Locale, move_marker: &'a str) -> (r: Paragraph<'a>)
        ensures
            r.wf(),
            r.state() == (ParagraphState {
                rows: MachineState { lower: seq![], upper: seq![], stable: seq![], leading: 0, trailing: 0 },
                body: 0,
            }),
            r.detached() == Seq::<(Seq<char>, Seq<Seq<char>>)>::empty(),
            r.locale_view() == locale@,
            r.marker() == move_marker@,
    {
        let r = Paragraph {
            locale,
            move_marker,
            lower_rows: Vec::new(),
            upper_rows: Vec::new(),
            neutral_rows: Vec::new(),
            leading_count: 0,
            body_count: 0,
            trailing_count: 0,
            detached_rows: new_index_map(),
        };
        assert(view_rows(r.lower_rows@) =~= Seq::<Seq<char>>::empty());
        assert(view_rows(r.upper_rows@) =~= Seq::<Seq<char>>::empty());
        assert(view_rows(r.neutral_rows@) =~= Seq::<Seq<char>>::empty());
        r
    }

    /// The rows detached, by destination, in the order the destinations came.
    pub fn detached_rows(self) -> (r: IndexMap<String, Vec<String>>)
        ensures
            index_map_entries(r) == self.detached(),
    {
        self.detached_rows
    }

    /// Reads one line: a line with the move marker is detached to the
    /// (trimmed) destination after it, if there is one, and dropped
    /// otherwise; any other line is read as a row.
    pub fn feed(&mut self, string: String) -> (r: Vec<String>)
        requires
            old(self).wf(),
        ensures
            final(self).wf(),
            final(self).locale_view() == old(self).locale_view(),
            final(self).marker() == old(self).marker(),
            match split_once_spec(string@, old(self).marker()) {
                Some((body, destination)) => {
                    &&& r@.len() == 0
                    &&& final(self).state() == old(self).state()
                    &&& final(self).detached() == if trim_spec(destination).len() > 0 {
                        add_moved(old(self).detached(), trim_spec(destination), body)
                    } else {
                        old(self).detached()
                    }
                },
                None => {
                    &&& (final(self).state(), view_lines(r@)) == feed_row_step(
                        old(self).locale_view(),
                        old(self).state(),
                        trim_end_spec(string@),
                    )
                    &&& final(self).detached() == old(self).detached()
                },
            },
    {
        match split_once(string.as_str(), self.move_marker) {
            Some((body, destination)) => {
                let destination = trim(destination.as_str());
                if !destination.as_str().is_empty() {
                    index_map_push(&mut self.detached_rows, destination, body);
                }
                Vec::new()
            },
            None => {
                proof {
                    crate::text::lemma_trim_end_idempotent(string@);
                }
                self.feed_row(Row::from_string(string))
            },
        }
    }

    /// Reads one row.
    fn feed_row(&mut self, row: Row) -> (r: Vec<String>)
        requires
            old(self).wf(),
            trim_end_spec(row@) == row@,
        ensures
            final(self).wf(),
            final(self).locale_view() == old(self).locale_view(),
            final(self).marker() == old(self).marker(),
            final(self).detached() == old(self).detached(),
            (final(self).state(), view_lines(r@)) == feed_row_step(
                old(self).locale_view(),
                old(self).state(),
                row@,
            ),
    {
        let ghost t = row@;
        match row.case(self.locale) {
            Some(case) => {
                let result = if self.trailing_count > 0 {
                    let result = self.flush_not_empty();
                    self.leading_count = self.trailing_count;
                    self.body_count = 1;
                    self.trailing_count = 0;
                    result
                } else {
                    if self.body_count < usize::MAX {
                        self.body_count = self.body_count + 1;
                    }
                    Vec::new()
                };
                proof {
                    lemma_view_rows_push(self.lower_rows@, row);
                    lemma_view_rows_push(self.upper_rows@, row);
                    lemma_view_rows_push(self.neutral_rows@, row);
                    assert(case == case_of(t[0]));
                }
                match case {
                    Case::Lower => self.lower_rows.push(row),
                    Case::Upper => self.upper_rows.push(row),
                    Case::Neutral => self.neutral_rows.push(row),
                }
                proof {
                    assert forall|i: int| 0 <= i < self.lower_rows@.len() implies is_body_line(#[trigger] self.lower_rows@[i]@, Case::Lower) by {}
                    assert forall|i: int| 0 <= i < self.upper_rows@.len() implies is_body_line(#[trigger] self.upper_rows@[i]@, Case::Upper) by {}
                    assert forall|i: int| 0 <= i < self.neutral_rows@.len() implies is_body_line(#[trigger] self.neutral_rows@[i]@, Case::Neutral) by {}
                }
                result
            },
            None => {
                if self.body_count > 0 && self.trailing_count < 2 {
                    self.trailing_count = self.trailing_count + 1;
                }
                Vec::new()
            },
        }
    }

    /// Writes out whatever paragraph is being read; its rows are gone after.
    pub fn flush(&mut self) -> (r: Vec<String>)
        requires
            old(self).wf(),
        ensures
            final(self).wf(),
            final(self).locale_view() == old(self).locale_view(),
            final(self).marker() == old(self).marker(),
            final(self).detached() == old(self).detached(),
            view_lines(r@) == if old(self).state().body > 0 {
                paragraph_output(old(self).locale_view(), old(self).state().rows)
            } else {
                seq![]
            },
            final(self).state() == if old(self).state().body > 0 {
                ParagraphState {
                    rows: MachineState {
                        lower: seq![],
                        upper: seq![],
                        stable: seq![],
                        ..old(self).state().rows
                    },
                    ..old(self).state()
                }
            } else {
                old(self).state()
            },
    {
        if self.body_count > 0 {
            self.flush_not_empty()
        } else {
            Vec::new()
        }
    }

    /// Writes out the paragraph being read: the empty lines before it, then
    /// its rows; its rows are gone after.
    pub fn flush_not_empty(&mut self) -> (r: Vec<String>)
        requires
            old(self).wf(),
        ensures
            final(self).wf(),
            final(self).locale_view() == old(self).locale_view(),
            final(self).marker() == old(self).marker(),
            final(self).detached() == old(self).detached(),
            view_lines(r@) == paragraph_output(old(self).locale_view(), old(self).state().rows),
            final(self).state() == (ParagraphState {
                rows: MachineState {
                    lower: seq![],
                    upper: seq![],
                    stable: seq![],
                    ..old(self).state().rows
                },
                ..old(self).state()
            }),
    {
        let lower = rows_into_strings(take_rows(&mut self.lower_rows));
        let upper = rows_into_strings(take_rows(&mut self.upper_rows));
        let neutral = rows_into_strings(take_rows(&mut self.neutral_rows));
        let mut all = adjust_cases(lower, upper, self.locale);
        append_all(&mut all, neutral);
        let sorted = sort_by_collation(all, self.locale);
        let deduped = dedup_by_collation(sorted, self.locale);
        let mut result: Vec<String> = Vec::new();
        let mut i: u8 = 0;
        while i < self.leading_count
            invariant
                i <= self.leading_count,
                view_lines(result@) == empty_lines(i as nat),
            decreases self.leading_count - i,
        {
            let empty = String::new();
            proof {
                assert(view_lines(result@.push(empty)) =~= view_lines(result@).push(empty@));
                assert(empty_lines(i as nat).push(empty@) =~= empty_lines((i + 1) as nat));
            }
            result.push(empty);
            i = i + 1;
        }
        append_all(&mut result, deduped);
        assert(view_rows(self.lower_rows@) =~= Seq::<Seq<char>>::empty());
        assert(view_rows(self.upper_rows@) =~= Seq::<Seq<char>>::empty());
        assert(view_rows(self.neutral_rows@) =~= Seq::<Seq<char>>::empty());
        result
    }
}

proof fn lemma_view_rows_push(v: Seq<Row>, r: Row)
    ensures
        view_rows(v.push(r)) == view_rows(v).push(r@),
{
    assert(view_rows(v.push(r)) =~= view_rows(v).push(r@));
}

/// Takes the rows out of `rows`, leaving it empty.
fn take_rows(rows: &mut Vec<Row>) -> (r: Vec<Row>)
    ensures
        r@ == old(rows)@,
        final(rows)@ == Seq::<Row>::empty(),
{
    let mut out: Vec<Row> = Vec::new();
    std::mem::swap(rows, &mut out);
    out
}

/// The texts of `rows`, in order.
fn rows_into_strings(rows: Vec<Row>) -> (r: Vec<String>)
    ensures
        view_lines(r@) == view_rows(rows@),
{
    let mut r: Vec<String> = Vec::new();
    for row in it: rows.into_iter()
        invariant
            it.seq() == rows@,
            view_lines(r@) == view_rows(rows@.take(it.index())),
    {
        proof {
            assert(view_rows(rows@.take(it.index() + 1)) =~= view_rows(rows@.take(it.index())).push(row@));
        }
        let s = row.into_string();
        proof {
            assert(view_lines(r@.push(s)) =~= view_lines(r@).push(s@));
        }
        r.push(s);
    }
    proof {
        assert(rows@.take(rows@.len() as int) == rows@);
    }
    r
}

/// Reading `lines` one after another as rows, from `st`.
pub open spec fn run_rows(l: Seq<char>, st: ParagraphState, lines: Seq<Seq<char>>) -> (
    ParagraphState,
    Seq<Seq<char>>,
)
    decreases lines.len(),
{
    if lines.len() == 0 {
        (st, seq![])
    } else {
        let (s1, o1) = run_rows(l, st, lines.drop_last());
        let (s2, o2) = feed_row_step(l, s1, trim_end_spec(lines.last()));
        (s2, o1 + o2)
    }
}

/// What a fresh paragraph writes for `lines` (none with the move marker),
/// flush included.
pub open spec fn paragraph_format_spec(l: Seq<char>, lines: Seq<Seq<char>>) -> Seq<Seq<char>> {
    let (st, out) = run_rows(
        l,
        ParagraphState {
            rows: MachineState { lower: seq![], upper: seq![], stable: seq![], leading: 0, trailing: 0 },
            body: 0,
        },
        lines,
    );
    out + if st.body > 0 {
        paragraph_output(l, st.rows)
    } else {
        seq![]
    }
}

proof fn lemma_run_rows_agrees(l: Seq<char>, lines: Seq<Seq<char>>)
    ensures
        ({
            let (p, po) = run_rows(
                l,
                ParagraphState {
                    rows: MachineState { lower: seq![], upper: seq![], stable: seq![], leading: 0, trailing: 0 },
                    body: 0,
                },
                lines,
            );
            let (m, mo) = crate::state_machine::run_lines(l, crate::state_machine::initial_state(), lines);
            &&& p.rows == m
            &&& (p.body > 0) == (body_len(m) > 0)
            &&& po == mo
        }),
    decreases lines.len(),
{
    if lines.len() > 0 {
        lemma_run_rows_agrees(l, lines.drop_last());
        crate::text::lemma_trim_end_idempotent(lines.last());
    }
}

/// A paragraph formats lines that hold no move marker just as the state
/// machine does.
pub proof fn law_paragraph_agrees(l: Seq<char>, lines: Seq<Seq<char>>)
    ensures
        paragraph_format_spec(l, lines) == crate::state_machine::format_lines_spec(l, lines),
{
    lemma_run_rows_agrees(l, lines);
}


/// The lines of `lines` that hold no move marker, in order.
pub open spec fn unmarked_lines(marker: Seq<char>, lines: Seq<Seq<char>>) -> Seq<Seq<char>>
    decreases lines.len(),
{
    if lines.len() == 0 {
        seq![]
    } else {
        let kept = unmarked_lines(marker, lines.drop_last());
        if split_once_spec(lines.last(), marker) is None {
            kept.push(lines.last())
        } else {
            kept
        }
    }
}

/// Feeding `lines` one after another to a paragraph, from `st`: a line with
/// the move marker leaves the rows as they are and writes nothing; any other
/// line is read as a row.
pub open spec fn run_paragraph(
    l: Seq<char>,
    marker: Seq<char>,
    st: ParagraphState,
    lines: Seq<Seq<char>>,
) -> (ParagraphState, Seq<Seq<char>>)
    decreases lines.len(),
{
    if lines.len() == 0 {
        (st, seq![])
    } else {
        let (s1, o1) = run_paragraph(l, marker, st, lines.drop_last());
        if split_once_spec(lines.last(), marker) is None {
            let (s2, o2) = feed_row_step(l, s1, trim_end_spec(lines.last()));
            (s2, o1 + o2)
        } else {
            (s1, o1)
        }
    }
}

/// All that a fresh paragraph with the move marker `marker` writes for
/// `lines`, flush included.
pub open spec fn paragraph_written(l: Seq<char>, marker: Seq<char>, lines: Seq<Seq<char>>) -> Seq<
    Seq<char>,
> {
    let (st, out) = run_paragraph(
        l,
        marker,
        ParagraphState {
            rows: MachineState { lower: seq![], upper: seq![], stable: seq![], leading: 0, trailing: 0 },
            body: 0,
        },
        lines,
    );
    out + if st.body > 0 {
        paragraph_output(l, st.rows)
    } else {
        seq![]
    }
}

proof fn lemma_run_paragraph_unmarked(
    l: Seq<char>,
    marker: Seq<char>,
    st: ParagraphState,
    lines: Seq<Seq<char>>,
)
    ensures
        run_paragraph(l, marker, st, lines) == run_rows(l, st, unmarked_lines(marker, lines)),
        unmarked_lines(marker, lines).len() <= lines.len(),
    decreases lines.len(),
{
    if lines.len() > 0 {
        lemma_run_paragraph_unmarked(l, marker, st, lines.drop_last());
        let kept = unmarked_lines(marker, lines.drop_last());
        if split_once_spec(lines.last(), marker) is None {
            assert(kept.push(lines.last()).drop_last() == kept);
        }
    }
}

proof fn lemma_unmarked_all(marker: Seq<char>, lines: Seq<Seq<char>>)
    requires
        forall|i: int| 0 <= i < lines.len() ==> split_once_spec(#[trigger] lines[i], marker) is None,
    ensures
        unmarked_lines(marker, lines) == lines,
    decreases lines.len(),
{
    if lines.len() > 0 {
        lemma_unmarked_all(marker, lines.drop_last());
        assert(lines.drop_last().push(lines.last()) == lines);
    } else {
        assert(lines =~= Seq::<Seq<char>>::empty());
    }
}

/// A paragraph writes what the state machine writes for the lines that hold
/// no move marker.
pub proof fn law_paragraph_writes_unmarked(l: Seq<char>, marker: Seq<char>, lines: Seq<Seq<char>>)
    ensures
        paragraph_written(l, marker, lines) == crate::state_machine::format_lines_spec(
            l,
            unmarked_lines(marker, lines),
        ),
{
    let st0 = ParagraphState {
        rows: MachineState { lower: seq![], upper: seq![], stable: seq![], leading: 0, trailing: 0 },
        body: 0,
    };
    lemma_run_paragraph_unmarked(l, marker, st0, lines);
    law_paragraph_agrees(l, unmarked_lines(marker, lines));
}

/// A paragraph writes no more lines than it reads.
pub proof fn law_paragraph_row_count(l: Seq<char>, marker: Seq<char>, lines: Seq<Seq<char>>)
    ensures
        paragraph_written(l, marker, lines).len() <= lines.len(),
{
    law_paragraph_writes_unmarked(l, marker, lines);
    lemma_run_paragraph_unmarked(
        l,
        marker,
        ParagraphState {
            rows: MachineState { lower: seq![], upper: seq![], stable: seq![], leading: 0, trailing: 0 },
            body: 0,
        },
        lines,
    );
    law_line_count(l, unmarked_lines(marker, lines));
}

/// What a paragraph writes has no three empty rows in a row, and none at
/// the start or at the end.
pub proof fn law_paragraph_spacing(l: Seq<char>, marker: Seq<char>, lines: Seq<Seq<char>>)
    requires
        case_mapping_keeps_text(l),
    ensures
        well_spaced(paragraph_written(l, marker, lines)),
{
    law_paragraph_writes_unmarked(l, marker, lines);
    law_spacing(l, unmarked_lines(marker, lines));
}

/// Feeding a paragraph what a paragraph wrote gives it back unchanged,
/// where no written row holds the move marker.
pub proof fn law_paragraph_idempotence(l: Seq<char>, marker: Seq<char>, lines: Seq<Seq<char>>)
    requires
        collation_is_total_order(l),
        lines_map_well(l, unmarked_lines(marker, lines)),
        forall|i: int|
            0 <= i < paragraph_written(l, marker, lines).len() ==> split_once_spec(
                #[trigger] paragraph_written(l, marker, lines)[i],
                marker,
            ) is None,
    ensures
        paragraph_written(l, marker, paragraph_written(l, marker, lines)) == paragraph_written(
            l,
            marker,
            lines,
        ),
{
    let out = paragraph_written(l, marker, lines);
    law_paragraph_writes_unmarked(l, marker, lines);
    law_paragraph_writes_unmarked(l, marker, out);
    lemma_unmarked_all(marker, out);
    law_idempotence(l, unmarked_lines(marker, lines));
}

} // verus!
