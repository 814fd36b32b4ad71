use crate::case::Case;
use crate::case_relation::CaseRelation;
use crate::cased_string::{lower_first, title_first, CasedString};
use crate::locale::{case_of, Locale};
use crate::sorting::{dedup_by_collation, dedup_lines, sort_by_collation, sort_lines, view_lines};
use crate::text::{chars_of, trim_end, trim_end_spec};
use vstd::prelude::*;

verus! {

broadcast use vstd::std_specs::vec::group_vec_axioms;

/// What a formatter holds between two lines: the lines of the paragraph it is
/// reading, sorted into their case classes, the empty lines to put before that
/// paragraph, and the empty lines seen after it.
pub struct MachineState {
    pub lower: Seq<Seq<char>>,
    pub upper: Seq<Seq<char>>,
    pub stable: Seq<Seq<char>>,
    pub leading: nat,
    pub trailing: nat,
}

/// The number of lines in the paragraph being read.
pub open spec fn body_len(st: MachineState) -> nat {
    st.lower.len() + st.upper.len() + st.stable.len()
}

/// The state before any line.
pub open spec fn initial_state() -> MachineState {
    MachineState { lower: seq![], upper: seq![], stable: seq![], leading: 0, trailing: 0 }
}

/// `n` empty lines.
pub open spec fn empty_lines(n: nat) -> Seq<Seq<char>> {
    Seq::new(n, |i: int| Seq::<char>::empty())
}

/// How many lines of `s` differ from the line at the same place in `m`.
pub open spec fn count_changed(s: Seq<Seq<char>>, m: Seq<Seq<char>>) -> nat
    decreases s.len(),
{
    if s.len() == 0 {
        0
    } else {
        count_changed(s.drop_last(), m.drop_last()) + if s.last() != m[s.len() - 1] {
            1nat
        } else {
            0nat
        }
    }
}

/// Titlecasing the first letter of each line of `s`.
pub open spec fn title_all(l: Seq<char>, s: Seq<Seq<char>>) -> Seq<Seq<char>> {
    s.map_values(|t: Seq<char>| title_first(l, t))
}

/// Lowercasing the first letter of each line of `s`.
pub open spec fn lower_all(l: Seq<char>, s: Seq<Seq<char>>) -> Seq<Seq<char>> {
    s.map_values(|t: Seq<char>| lower_first(l, t))
}

/// Whether a paragraph titlecases its lowercase lines (rather than lowercase
/// its uppercase ones): where no fewer uppercase lines would change by being
/// lowercased than lowercase lines by being titlecased. A line that the
/// mapping leaves as it is does not count.
pub open spec fn titlecases_lower(l: Seq<char>, st: MachineState) -> bool {
    count_changed(st.upper, lower_all(l, st.upper)) >= count_changed(st.lower, title_all(l, st.lower))
}

/// The lines of a paragraph once their first letters agree: the lowercase
/// lines titlecased where `titlecases_lower`, the uppercase lines lowercased
/// otherwise.
pub open spec fn adjusted_lines(l: Seq<char>, st: MachineState) -> Seq<Seq<char>> {
    if titlecases_lower(l, st) {
        title_all(l, st.lower) + st.upper + st.stable
    } else {
        st.lower + lower_all(l, st.upper) + st.stable
    }
}

/// A paragraph as it is written: its adjusted lines, sorted, without
/// repetitions.
pub open spec fn paragraph_lines(l: Seq<char>, st: MachineState) -> Seq<Seq<char>> {
    dedup_lines(l, sort_lines(l, adjusted_lines(l, st)))
}

/// What writing out the paragraph gives: the empty lines before it, then its lines.
pub open spec fn paragraph_output(l: Seq<char>, st: MachineState) -> Seq<Seq<char>> {
    empty_lines(st.leading) + paragraph_lines(l, st)
}

/// `st` with the nonblank, trimmed line `t` added to its case class.
pub open spec fn push_line(st: MachineState, t: Seq<char>) -> MachineState {
    match case_of(t[0]) {
        Case::Lower => MachineState { lower: st.lower.push(t), ..st },
        Case::Upper => MachineState { upper: st.upper.push(t), ..st },
        Case::Neutral => MachineState { stable: st.stable.push(t), ..st },
    }
}

/// Reading one line: a blank line counts towards the gap after the paragraph
/// (at most two, and none before the first paragraph); a line with text after
/// a gap writes out the paragraph before the gap and starts a new one.
pub open spec fn feed_step(l: Seq<char>, st: MachineState, line: Seq<char>) -> (
    MachineState,
    Seq<Seq<char>>,
) {
    let t = trim_end_spec(line);
    if t.len() == 0 {
        if body_len(st) > 0 && st.trailing < 2 {
            (MachineState { trailing: st.trailing + 1, ..st }, seq![])
        } else {
            (st, seq![])
        }
    } else if st.trailing > 0 {
        (
            push_line(
                MachineState {
                    lower: seq![],
                    upper: seq![],
                    stable: seq![],
                    leading: st.trailing,
                    trailing: 0,
                },
                t,
            ),
            paragraph_output(l, st),
        )
    } else {
        (push_line(st, t), seq![])
    }
}

/// What is left to write at the end: the paragraph being read, if any.
pub open spec fn flush_step(l: Seq<char>, st: MachineState) -> Seq<Seq<char>> {
    if body_len(st) > 0 {
        paragraph_output(l, st)
    } else {
        seq![]
    }
}

/// Feeding `lines` one after another from `st`: the state reached and all
/// that was written on the way.
pub open spec fn run_lines(l: Seq<char>, st: MachineState, lines: Seq<Seq<char>>) -> (
    MachineState,
    Seq<Seq<char>>,
)
    decreases lines.len(),
{
    if lines.len() == 0 {
        (st, seq![])
    } else {
        let (s1, o1) = run_lines(l, st, lines.drop_last());
        let (s2, o2) = feed_step(l, s1, lines.last());
        (s2, o1 + o2)
    }
}

/// All that formatting `lines` writes: what feeding them writes, then what
/// the final flush writes.
pub open spec fn format_lines_spec(l: Seq<char>, lines: Seq<Seq<char>>) -> Seq<Seq<char>> {
    let (st, out) = run_lines(l, initial_state(), lines);
    out + flush_step(l, st)
}

/// The invariant of the states that formatting reaches: at most two empty
/// lines on either side of the paragraph, none before any text, and only
/// nonblank trimmed lines, each in its case class.
pub open spec fn valid_state(st: MachineState) -> bool {
    &&& st.leading <= 2
    &&& st.trailing <= 2
    &&& body_len(st) == 0 ==> st.leading == 0 && st.trailing == 0
    &&& forall|i: int| 0 <= i < st.lower.len() ==> is_body_line(#[trigger] st.lower[i], Case::Lower)
    &&& forall|i: int| 0 <= i < st.upper.len() ==> is_body_line(#[trigger] st.upper[i], Case::Upper)
    &&& forall|i: int| 0 <= i < st.stable.len() ==> is_body_line(#[trigger] st.stable[i], Case::Neutral)
}

/// A line with text, without trailing white space, whose first character has case `c`.
pub open spec fn is_body_line(s: Seq<char>, c: Case) -> bool {
    s.len() > 0 && trim_end_spec(s) == s && case_of(s[0]) == c
}

/// The formatter of a stream of lines: it groups lines into paragraphs,
/// makes the first letters of each paragraph agree in case, sorts each
/// paragraph by collation without repetitions, and keeps at most two empty
/// lines between paragraphs.
pub struct StateMachine<'a> {
    locale: &'a Locale,
    lower_lines: Vec<String>,
    upper_lines: Vec<String>,
    stable_lines: Vec<String>,
    leading_count: u8,
    body_count: usize,
    trailing_count: u8,
}

impl<'a> View for StateMachine<'a> {
    type V = MachineState;

    closed spec fn view(&self) -> MachineState {
        MachineState {
            lower: view_lines(self.lower_lines@),
            upper: view_lines(self.upper_lines@),
            stable: view_lines(self.stable_lines@),
            leading: self.leading_count as nat,
            trailing: self.trailing_count as nat,
        }
    }
}

impl<'a> StateMachine<'a> {
    /// The locale (by its descriptor) that the machine formats in.
    pub closed spec fn locale_view(&self) -> Seq<char> {
        self.locale@
    }

    /// The machine's invariant.
    pub closed spec fn wf(&self) -> bool {
        &&& valid_state(self@)
        &&& (self.body_count > 0) == (body_len(self@) > 0)
    }

    /// A machine that has read nothing.
    pub fn new(locale: &'a Locale) -> (r: StateMachine<'a>)
        ensures
            r.wf(),
            r@ == initial_state(),
            r.locale_view() == locale@,
    {
        let r = StateMachine {
            locale,
            lower_lines: Vec::new(),
            upper_lines: Vec::new(),
            stable_lines: Vec::new(),
            leading_count: 0,
            body_count: 0,
            trailing_count: 0,
        };
        assert(view_lines(r.lower_lines@) == Seq::<Seq<char>>::empty());
        assert(view_lines(r.upper_lines@) == Seq::<Seq<char>>::empty());
        assert(view_lines(r.stable_lines@) == Seq::<Seq<char>>::empty());
        r
    }

    /// Reads one line and returns the lines it lets the machine write.
    pub fn feed(&mut self, line: String) -> (r: Vec<String>)
        requires
            old(self).wf(),
        ensures
            final(self).wf(),
            final(self).locale_view() == old(self).locale_view(),
            (final(self)@, view_lines(r@)) == feed_step(old(self).locale_view(), old(self)@, line@),
    {
        let ghost l = self.locale@;
        let trimmed = trim_end(line.as_str());
        proof {
            crate::text::lemma_trim_end_idempotent(line@);
        }
        let cs = chars_of(trimmed.as_str());
        if cs.len() > 0 {
            let character = cs[0];
            let result = if self.trailing_count > 0 {
                let result = self.flush_not_empty();
                self.leading_count = self.trailing_count;
                self.body_count = 1;
                self.trailing_count = 0;
                result
            } else {
                if self.body_count < usize::MAX {
                    self.body_count = self.body_count + 1;
                }
                Vec::new()
            };
            let ghost mid = self@;
            let ghost t = trimmed@;
            proof {
                assert(t[0] == character);
                assert(mid == if old(self)@.trailing > 0 {
                    MachineState {
                        lower: seq![],
                        upper: seq![],
                        stable: seq![],
                        leading: old(self)@.trailing,
                        trailing: 0,
                    }
                } else {
                    old(self)@
                });
                assert(is_body_line(t, case_of(t[0])));
                lemma_push_line_valid(mid, t);
                lemma_view_lines_push(self.lower_lines@, trimmed);
                lemma_view_lines_push(self.upper_lines@, trimmed);
                lemma_view_lines_push(self.stable_lines@, trimmed);
            }
            match self.locale.case_relation(character) {
                CaseRelation::Unstable(Case::Lower) => self.lower_lines.push(trimmed),
                CaseRelation::Unstable(Case::Upper) => self.upper_lines.push(trimmed),
                _ => self.stable_lines.push(trimmed),
            }
            assert(self@ == push_line(mid, t));
            result
        } else {
            if self.body_count > 0 && self.trailing_count < 2 {
                self.trailing_count = self.trailing_count + 1;
            }
            Vec::new()
        }
    }

    /// Writes out whatever paragraph is being read.
    pub fn flush(self) -> (r: Vec<String>)
        requires
            self.wf(),
        ensures
            view_lines(r@) == flush_step(self.locale_view(), self@),
    {
        let mut this = self;
        if this.body_count > 0 {
            this.flush_not_empty()
        } else {
            Vec::new()
        }
    }

    /// Writes out the paragraph being read and empties it.
    fn flush_not_empty(&mut self) -> (r: Vec<String>)
        requires
            old(self).wf(),
        ensures
            view_lines(r@) == paragraph_output(old(self).locale_view(), old(self)@),
            final(self).locale == old(self).locale,
            final(self)@ == (MachineState { lower: seq![], upper: seq![], stable: seq![], ..old(self)@ }),
            final(self).body_count == old(self).body_count,
            final(self).leading_count == old(self).leading_count,
            final(self).trailing_count == old(self).trailing_count,
    {
        let ghost l = self.locale@;
        let ghost st = self@;
        let lower = take_lines(&mut self.lower_lines);
        let upper = take_lines(&mut self.upper_lines);
        let mut all = adjust_cases(lower, upper, self.locale);
        append_all(&mut all, take_lines(&mut self.stable_lines));
        assert(view_lines(all@) == adjusted_lines(l, st));
        let sorted = sort_by_collation(all, self.locale);
        let deduped = dedup_by_collation(sorted, self.locale);
        let mut result: Vec<String> = Vec::new();
        let mut i: u8 = 0;
        while i < self.leading_count
            invariant
                i <= self.leading_count,
                view_lines(result@) == empty_lines(i as nat),
            decreases self.leading_count - i,
        {
            let empty = String::new();
            proof {
                lemma_view_lines_push(result@, empty);
                assert(empty_lines(i as nat).push(empty@) =~= empty_lines((i + 1) as nat));
            }
            result.push(empty);
            i = i + 1;
        }
        append_all(&mut result, deduped);
        assert(view_lines(self.lower_lines@) == Seq::<Seq<char>>::empty());
        assert(view_lines(self.upper_lines@) == Seq::<Seq<char>>::empty());
        assert(view_lines(self.stable_lines@) == Seq::<Seq<char>>::empty());
        result
    }
}

/// Formats `lines` with a machine that has read nothing: feeds them one
/// after another, then writes out what is left.
pub fn format_lines(locale: &Locale, lines: Vec<String>) -> (r: Vec<String>)
    ensures
        view_lines(r@) == format_lines_spec(locale@, view_lines(lines@)),
{
    let ghost l = locale@;
    let ghost src = view_lines(lines@);
    let mut machine = StateMachine::new(locale);
    let mut written: Vec<String> = Vec::new();
    for line in it: lines.into_iter()
        invariant
            it.seq() == lines@,
            src == view_lines(lines@),
            machine.wf(),
            machine.locale_view() == l,
            (machine@, view_lines(written@)) == run_lines(l, initial_state(), src.take(it.index())),
    {
        proof {
            let t = src.take(it.index() + 1);
            assert(t.drop_last() == src.take(it.index()));
            assert(t.last() == line@);
        }
        let out = machine.feed(line);
        append_all(&mut written, out);
    }
    proof {
        assert(src.take(src.len() as int) == src);
    }
    let tail = machine.flush();
    append_all(&mut written, tail);
    written
}

/// The lowercase and the uppercase lines of a paragraph, in that order, once
/// their first letters agree, as `titlecases_lower` decides.
pub(crate) fn adjust_cases(lower: Vec<String>, upper: Vec<String>, locale: &Locale) -> (r: Vec<
    String,
>)
    ensures
        view_lines(r@) == if count_changed(view_lines(upper@), lower_all(locale@, view_lines(upper@)))
            >= count_changed(view_lines(lower@), title_all(locale@, view_lines(lower@))) {
            title_all(locale@, view_lines(lower@)) + view_lines(upper@)
        } else {
            view_lines(lower@) + lower_all(locale@, view_lines(upper@))
        },
{
    let titled = adjust_all(clone_lines(&lower), locale, true);
    let lowered = adjust_all(clone_lines(&upper), locale, false);
    assert(view_lines(titled@) =~= title_all(locale@, view_lines(lower@)));
    assert(view_lines(lowered@) =~= lower_all(locale@, view_lines(upper@)));
    let changed_lower = count_differences(&lower, &titled);
    let changed_upper = count_differences(&upper, &lowered);
    if changed_upper >= changed_lower {
        let mut all = titled;
        append_all(&mut all, upper);
        all
    } else {
        let mut all = lower;
        append_all(&mut all, lowered);
        all
    }
}

/// A copy of each line of `lines`.
fn clone_lines(lines: &Vec<String>) -> (r: Vec<String>)
    ensures
        view_lines(r@) == view_lines(lines@),
{
    let mut r: Vec<String> = Vec::new();
    let mut i: usize = 0;
    while i < lines.len()
        invariant
            i <= lines.len(),
            view_lines(r@) == view_lines(lines@).take(i as int),
        decreases lines.len() - i,
    {
        let line = lines[i].clone();
        proof {
            lemma_view_lines_push(r@, line);
            assert(view_lines(lines@).take(i + 1) =~= view_lines(lines@).take(i as int).push(line@));
        }
        r.push(line);
        i = i + 1;
    }
    assert(view_lines(lines@).take(lines.len() as int) =~= view_lines(lines@));
    r
}

/// How many lines of `a` differ from the line at the same place in `b`.
fn count_differences(a: &Vec<String>, b: &Vec<String>) -> (r: usize)
    requires
        a.len() == b.len(),
    ensures
        r == count_changed(view_lines(a@), view_lines(b@)),
{
    let ghost sa = view_lines(a@);
    let ghost sb = view_lines(b@);
    let mut r: usize = 0;
    let mut i: usize = 0;
    while i < a.len()
        invariant
            a.len() == b.len(),
            sa == view_lines(a@),
            sb == view_lines(b@),
            i <= a.len(),
            r <= i,
            r == count_changed(sa.take(i as int), sb.take(i as int)),
        decreases a.len() - i,
    {
        proof {
            let ta = sa.take(i + 1);
            let tb = sb.take(i + 1);
            assert(ta.drop_last() =~= sa.take(i as int));
            assert(tb.drop_last() =~= sb.take(i as int));
            assert(ta.last() == a@[i as int]@);
            assert(tb[ta.len() - 1] == b@[i as int]@);
        }
        if a[i] != b[i] {
            r = r + 1;
        }
        i = i + 1;
    }
    proof {
        lemma_count_changed_prefix(sa, sb);
    }
    r
}

/// Counting over all of two lines of the same length is counting over their
/// full prefixes.
proof fn lemma_count_changed_prefix(s: Seq<Seq<char>>, m: Seq<Seq<char>>)
    requires
        s.len() == m.len(),
    ensures
        count_changed(s.take(s.len() as int), m.take(m.len() as int)) == count_changed(s, m),
{
    assert(s.take(s.len() as int) =~= s);
    assert(m.take(m.len() as int) =~= m);
}

/// Titlecases (`to_title`) or lowercases the first character of each line.
pub(crate) fn adjust_all(lines: Vec<String>, locale: &Locale, to_title: bool) -> (r: Vec<String>)
    ensures
        view_lines(r@) == if to_title {
            view_lines(lines@).map_values(|s: Seq<char>| title_first(locale@, s))
        } else {
            view_lines(lines@).map_values(|s: Seq<char>| lower_first(locale@, s))
        },
{
    let mut r: Vec<String> = Vec::new();
    for line in it: lines.into_iter()
        invariant
            it.seq() == lines@,
            r.len() == it.index(),
            forall|k: int|
                0 <= k < it.index() ==> #[trigger] r@[k]@ == if to_title {
                    title_first(locale@, lines@[k]@)
                } else {
                    lower_first(locale@, lines@[k]@)
                },
    {
        let mut line = line;
        if to_title {
            line.first_char_to_upper(locale);
        } else {
            line.first_char_to_lower(locale);
        }
        r.push(line);
    }
    r
}

proof fn lemma_view_lines_push(v: Seq<String>, s: String)
    ensures
        view_lines(v.push(s)) == view_lines(v).push(s@),
{
    assert(view_lines(v.push(s)) =~= view_lines(v).push(s@));
}

/// Adding a body line to a valid state that has room keeps it valid.
proof fn lemma_push_line_valid(st: MachineState, t: Seq<char>)
    requires
        st.leading <= 2,
        st.trailing <= 2,
        forall|i: int| 0 <= i < st.lower.len() ==> is_body_line(#[trigger] st.lower[i], Case::Lower),
        forall|i: int| 0 <= i < st.upper.len() ==> is_body_line(#[trigger] st.upper[i], Case::Upper),
        forall|i: int| 0 <= i < st.stable.len() ==> is_body_line(#[trigger] st.stable[i], Case::Neutral),
        is_body_line(t, case_of(t[0])),
    ensures
        valid_state(push_line(st, t)),
        body_len(push_line(st, t)) == body_len(st) + 1,
{
    let p = push_line(st, t);
    match case_of(t[0]) {
        Case::Lower => {
            assert forall|i: int| 0 <= i < p.lower.len() implies is_body_line(#[trigger] p.lower[i], Case::Lower) by {
                if i < st.lower.len() {
                    assert(p.lower[i] == st.lower[i]);
                }
            }
        },
        Case::Upper => {
            assert forall|i: int| 0 <= i < p.upper.len() implies is_body_line(#[trigger] p.upper[i], Case::Upper) by {
                if i < st.upper.len() {
                    assert(p.upper[i] == st.upper[i]);
                }
            }
        },
        Case::Neutral => {
            assert forall|i: int| 0 <= i < p.stable.len() implies is_body_line(#[trigger] p.stable[i], Case::Neutral) by {
                if i < st.stable.len() {
                    assert(p.stable[i] == st.stable[i]);
                }
            }
        },
    }
}

/// Takes the lines out of `lines`, leaving it empty.
pub(crate) fn take_lines(lines: &mut Vec<String>) -> (r: Vec<String>)
    ensures
        r@ == old(lines)@,
        final(lines)@ == Seq::<String>::empty(),
{
    let mut out: Vec<String> = Vec::new();
    std::mem::swap(lines, &mut out);
    out
}

/// Moves all lines of `tail` to the end of `lines`.
pub(crate) fn append_all(lines: &mut Vec<String>, tail: Vec<String>)
    ensures
        view_lines(final(lines)@) == view_lines(old(lines)@) + view_lines(tail@),
{
    let ghost start = lines@;
    for line in it: tail.into_iter()
        invariant
            it.seq() == tail@,
            lines@ == start + tail@.take(it.index()),
    {
        lines.push(line);
        proof {
            assert(tail@.take(it.index() + 1) == tail@.take(it.index()).push(line));
        }
    }
    proof {
        assert(tail@.take(tail@.len() as int) == tail@);
    }
}

} // verus!
