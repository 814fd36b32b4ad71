use self::error::Error;
use crate::locale::Locale;
use crate::move_policy::MovePolicy;
use crate::moved_lines::{add_moved, distinct_paths, MovedLines, MovedView};
use crate::sorting::view_lines;
use crate::state_machine::{
    feed_step, flush_step, format_lines_spec, initial_state, run_lines, MachineState, StateMachine,
};
use crate::idempotence::{law_idempotence, lines_map_well};
use crate::laws::{case_mapping_keeps_text, law_line_count, law_spacing, well_spaced};
use crate::sorting::collation_is_total_order;
use crate::text::{split_once, split_once_spec, trim, trim_spec};
use vstd::prelude::*;

pub mod error;

verus! {

broadcast use vstd::std_specs::vec::group_vec_axioms;

/// `path_clean::clean` of `path`, as text: the path with repeated separators,
/// `.` components and resolvable `..` components removed, lexically, by the
/// path rules of the platform the crate is built for.
pub uninterp spec fn cleaned_path(path: Seq<char>) -> Seq<char>;

/// Calls `path_clean::clean` on `path` and turns the resulting `PathBuf` back
/// into text: the result is named `cleaned_path(path@)`.
#[verifier::external_body]
fn clean_path(path: &str) -> (r: String)
    ensures
        r@ == cleaned_path(path@),
{
    path_clean::clean(path).to_string_lossy().into_owned()
}

/// What becomes of one line of the stream.
pub enum MoveDecision {
    /// The line stays in the stream.
    Keep,
    /// The line is deleted.
    Delete,
    /// The text before the marker moves to the file at the path.
    Move { path: Seq<char>, body: Seq<char> },
    /// The line asks to be deleted, which the policy forbids.
    DeletionForbidden,
    /// The line asks to move to the (trimmed) path, which the policy forbids.
    ExternalWriteForbidden { path: Seq<char> },
}

/// What the policy (its marker and its two permissions) makes of `line`.
pub open spec fn move_decision(
    marker: Seq<char>,
    allow_external_writes: bool,
    allow_deletions: bool,
    line: Seq<char>,
) -> MoveDecision {
    if marker.len() == 0 {
        MoveDecision::Keep
    } else {
        match split_once_spec(line, marker) {
            None => MoveDecision::Keep,
            Some((first, second)) => {
                let path = trim_spec(second);
                if path.len() == 0 {
                    if allow_deletions {
                        MoveDecision::Delete
                    } else {
                        MoveDecision::DeletionForbidden
                    }
                } else if allow_external_writes {
                    MoveDecision::Move { path: cleaned_path(path), body: first }
                } else {
                    MoveDecision::ExternalWriteForbidden { path }
                }
            },
        }
    }
}

/// The decision of `policy` on `line`.
pub open spec fn policy_decision(policy: MovePolicy, line: Seq<char>) -> MoveDecision {
    move_decision(policy.marker@, policy.allow_external_writes, policy.allow_deletions, line)
}

/// `e` is the error that the decision `d` on `line` stands for.
pub open spec fn is_error_for(e: Error, line: Seq<char>, d: MoveDecision) -> bool {
    match d {
        MoveDecision::DeletionForbidden => e matches Error::DeletionForbidden { line: l } && l@
            == line,
        MoveDecision::ExternalWriteForbidden { path } => e matches Error::ExternalWriteForbidden {
            line: l,
            path: p,
        } && l@ == line && p@ == path,
        _ => false,
    }
}


/// Moves `line` to `moved` where the policy says so: `Ok(Some(line))` for a
/// line that stays, `Ok(None)` for one that was moved or deleted, and the
/// error for one the policy refuses.
pub fn try_move(line: String, move_policy: MovePolicy, moved: &mut MovedLines) -> (r: Result<
    Option<String>,
    Error,
>)
    ensures
        match policy_decision(move_policy, line@) {
            MoveDecision::Keep => r matches Ok(Some(l)) && l@ == line@ && final(moved)@ == old(
                moved,
            )@,
            MoveDecision::Delete => r matches Ok(None) && final(moved)@ == old(moved)@,
            MoveDecision::Move { path, body } => r matches Ok(None) && final(moved)@ == add_moved(
                old(moved)@,
                path,
                body,
            ),
            d => r matches Err(e) && is_error_for(e, line@, d) && final(moved)@ == old(moved)@,
        },
        distinct_paths(old(moved)@) ==> distinct_paths(final(moved)@),
{
    if move_policy.marker.is_empty() {
        return Ok(Some(line));
    }
    match split_once(line.as_str(), move_policy.marker) {
        None => Ok(Some(line)),
        Some((first, second)) => {
            let path = trim(second.as_str());
            if path.as_str().is_empty() {
                if move_policy.allow_deletions {
                    Ok(None)
                } else {
                    Err(Error::DeletionForbidden { line })
                }
            } else if move_policy.allow_external_writes {
                moved.add(clean_path(path.as_str()), first);
                Ok(None)
            } else {
                Err(Error::ExternalWriteForbidden { line, path })
            }
        },
    }
}

/// Scanning `lines` from the moves `moved` on: the lines that stay and the
/// moves made, or the index of the first refused line and its decision.
pub open spec fn scan_lines(policy: MovePolicy, moved: MovedView, lines: Seq<Seq<char>>) -> Result<
    (Seq<Seq<char>>, MovedView),
    (int, MoveDecision),
>
    decreases lines.len(),
{
    if lines.len() == 0 {
        Ok((seq![], moved))
    } else {
        match scan_lines(policy, moved, lines.drop_last()) {
            Err(e) => Err(e),
            Ok((kept, m)) => {
                let line = lines.last();
                match policy_decision(policy, line) {
                    MoveDecision::Keep => Ok((kept.push(line), m)),
                    MoveDecision::Delete => Ok((kept, m)),
                    MoveDecision::Move { path, body } => Ok((kept, add_moved(m, path, body))),
                    d => Err((lines.len() - 1, d)),
                }
            },
        }
    }
}

/// Once a refusal is met, scanning further lines keeps it.
proof fn lemma_scan_error_stays(policy: MovePolicy, s: Seq<Seq<char>>, n: int, m: int)
    requires
        0 <= n <= m <= s.len(),
        scan_lines(policy, seq![], s.take(n)) is Err,
    ensures
        scan_lines(policy, seq![], s.take(m)) == scan_lines(policy, seq![], s.take(n)),
    decreases m - n,
{
    if m > n {
        lemma_scan_error_stays(policy, s, n, m - 1);
        assert(s.take(m).drop_last() == s.take(m - 1));
    }
}

/// Formatting a stream: `prepend` and then the lines of `lines` that stay
/// are formatted together; the moved lines are grouped by destination; the
/// first refused line, if any, fails the whole.
pub open spec fn format_spec(
    l: Seq<char>,
    policy: MovePolicy,
    prepend: Seq<Seq<char>>,
    lines: Seq<Seq<char>>,
) -> Result<(Seq<Seq<char>>, MovedView), (int, MoveDecision)> {
    match scan_lines(policy, seq![], lines) {
        Ok((kept, moved)) => Ok((format_lines_spec(l, prepend + kept), moved)),
        Err(e) => Err(e),
    }
}

/// A formatting in progress: lines go in one by one, formatted lines come
/// out as soon as they are known, moved lines are collected.
pub struct Formatter<'a> {
    machine: StateMachine<'a>,
    move_policy: MovePolicy<'a>,
    moved: MovedLines,
}

impl<'a> Formatter<'a> {
    /// The state of the line formatter.
    pub closed spec fn machine_state(&self) -> MachineState {
        self.machine@
    }

    /// The lines moved so far.
    pub closed spec fn moved_view(&self) -> MovedView {
        self.moved@
    }

    /// The locale, by its descriptor.
    pub closed spec fn locale_view(&self) -> Seq<char> {
        self.machine.locale_view()
    }

    /// The policy for moved lines.
    pub closed spec fn policy(&self) -> MovePolicy<'a> {
        self.move_policy
    }

    /// The formatter's invariant.
    pub closed spec fn wf(&self) -> bool {
        self.machine.wf()
    }

    /// A formatter that has read nothing.
    pub fn new(locale: &'a Locale, move_policy: MovePolicy<'a>) -> (r: Formatter<'a>)
        ensures
            r.wf(),
            r.machine_state() == initial_state(),
            r.moved_view() == Seq::<(Seq<char>, Seq<Seq<char>>)>::empty(),
            r.locale_view() == locale@,
            r.policy() == move_policy,
    {
        Formatter { machine: StateMachine::new(locale), move_policy, moved: MovedLines::new() }
    }

    /// Formats `line` as if it came before the stream: no move marker applies.
    pub fn prepend(&mut self, line: String) -> (r: Vec<String>)
        requires
            old(self).wf(),
        ensures
            final(self).wf(),
            final(self).locale_view() == old(self).locale_view(),
            final(self).policy() == old(self).policy(),
            final(self).moved_view() == old(self).moved_view(),
            (final(self).machine_state(), view_lines(r@)) == feed_step(
                old(self).locale_view(),
                old(self).machine_state(),
                line@,
            ),
    {
        self.machine.feed(line)
    }

    /// Reads one line of the stream: a line that stays is formatted, a moved
    /// line is collected, a refused line fails and changes nothing.
    pub fn feed(&mut self, line: String) -> (r: Result<Vec<String>, Error>)
        requires
            old(self).wf(),
        ensures
            final(self).wf(),
            final(self).locale_view() == old(self).locale_view(),
            final(self).policy() == old(self).policy(),
            match policy_decision(old(self).policy(), line@) {
                MoveDecision::Keep => r matches Ok(out) && (final(self).machine_state(), view_lines(
                    out@,
                )) == feed_step(old(self).locale_view(), old(self).machine_state(), line@)
                    && final(self).moved_view() == old(self).moved_view(),
                MoveDecision::Delete => r matches Ok(out) && out@.len() == 0
                    && final(self).machine_state() == old(self).machine_state()
                    && final(self).moved_view() == old(self).moved_view(),
                MoveDecision::Move { path, body } => r matches Ok(out) && out@.len() == 0
                    && final(self).machine_state() == old(self).machine_state()
                    && final(self).moved_view() == add_moved(old(self).moved_view(), path, body),
                d => r matches Err(e) && is_error_for(e, line@, d) && final(self).machine_state()
                    == old(self).machine_state() && final(self).moved_view() == old(
                    self,
                ).moved_view(),
            },
    {
        match try_move(line, self.move_policy, &mut self.moved) {
            Ok(Some(kept)) => Ok(self.machine.feed(kept)),
            Ok(None) => Ok(Vec::new()),
            Err(error) => Err(error),
        }
    }

    /// Ends the stream: the last lines to write, and the moved lines.
    pub fn finish(self) -> (r: (Vec<String>, MovedLines))
        requires
            self.wf(),
        ensures
            view_lines(r.0@) == flush_step(self.locale_view(), self.machine_state()),
            r.1@ == self.moved_view(),
    {
        (self.machine.flush(), self.moved)
    }
}

/// Formats `source`, after `prepend_lines`, with `locale`; moves the lines
/// that `move_policy` says to move. Gives the formatted lines and the moved
/// lines, or the error of the first line that the policy refuses.
pub fn format(
    source: Vec<String>,
    locale: &Locale,
    move_policy: MovePolicy,
    prepend_lines: Vec<String>,
) -> (r: Result<(Vec<String>, MovedLines), Error>)
    ensures
        match format_spec(locale@, move_policy, view_lines(prepend_lines@), view_lines(source@)) {
            Ok((out, moved)) => r matches Ok((o, m)) && view_lines(o@) == out && m@ == moved,
            Err((i, d)) => r matches Err(e) && is_error_for(e, view_lines(source@)[i], d),
        },
{
    let ghost l = locale@;
    let ghost pre = view_lines(prepend_lines@);
    let ghost src = view_lines(source@);
    let mut formatter = Formatter::new(locale, move_policy);
    let mut written: Vec<String> = Vec::new();
    for line in it: prepend_lines.into_iter()
        invariant
            it.seq() == prepend_lines@,
            pre == view_lines(prepend_lines@),
            formatter.wf(),
            formatter.locale_view() == l,
            formatter.policy() == move_policy,
            formatter.moved_view() == Seq::<(Seq<char>, Seq<Seq<char>>)>::empty(),
            (formatter.machine_state(), view_lines(written@)) == run_lines(
                l,
                initial_state(),
                pre.take(it.index()),
            ),
    {
        proof {
            let t = pre.take(it.index() + 1);
            assert(t.drop_last() == pre.take(it.index()));
            assert(t.last() == line@);
        }
        let out = formatter.prepend(line);
        append_lines(&mut written, out);
    }
    proof {
        assert(pre.take(pre.len() as int) == pre);
    }
    let ghost mut kept: Seq<Seq<char>> = seq![];
    for line in it: source.into_iter()
        invariant
            it.seq() == source@,
            src == view_lines(source@),
            formatter.wf(),
            formatter.locale_view() == l,
            formatter.policy() == move_policy,
            scan_lines(move_policy, seq![], src.take(it.index())) == Ok::<
                (Seq<Seq<char>>, MovedView),
                (int, MoveDecision),
            >((kept, formatter.moved_view())),
            (formatter.machine_state(), view_lines(written@)) == run_lines(
                l,
                initial_state(),
                pre + kept,
            ),
    {
        let ghost line_view = line@;
        proof {
            let t = src.take(it.index() + 1);
            assert(t.drop_last() == src.take(it.index()));
            assert(t.last() == line@);
        }
        match formatter.feed(line) {
            Ok(out) => {
                proof {
                    if policy_decision(move_policy, line_view) is Keep {
                        assert((pre + kept.push(line_view)).drop_last() == pre + kept);
                        assert((pre + kept.push(line_view)).last() == line_view);
                        kept = kept.push(line_view);
                    } else {
                        assert(view_lines(out@) == Seq::<Seq<char>>::empty());
                    }
                }
                append_lines(&mut written, out);
            },
            Err(error) => {
                proof {
                    let k = it.index();
                    let t = src.take(k + 1);
                    assert(scan_lines(move_policy, seq![], t) == Err::<
                        (Seq<Seq<char>>, MovedView),
                        (int, MoveDecision),
                    >((k, policy_decision(move_policy, line_view))));
                    lemma_scan_error_stays(move_policy, src, k + 1, src.len() as int);
                    assert(src.take(src.len() as int) == src);
                    assert(src[k] == line_view);
                }
                return Err(error);
            },
        }
    }
    proof {
        assert(src.take(src.len() as int) == src);
    }
    let (tail, moved) = formatter.finish();
    append_lines(&mut written, tail);
    Ok((written, moved))
}

/// Moves all lines of `tail` to the end of `lines`.
fn append_lines(lines: &mut Vec<String>, tail: Vec<String>)
    ensures
        view_lines(final(lines)@) == view_lines(old(lines)@) + view_lines(tail@),
{
    let ghost start = lines@;
    for line in it: tail.into_iter()
        invariant
            it.seq() == tail@,
            lines@ == start + tail@.take(it.index()),
    {
        lines.push(line);
        proof {
            assert(tail@.take(it.index() + 1) == tail@.take(it.index()).push(line));
        }
    }
    proof {
        assert(tail@.take(tail@.len() as int) == tail@);
        assert(view_lines(start + tail@) =~= view_lines(start) + view_lines(tail@));
    }
}


proof fn lemma_scan_all_kept(policy: MovePolicy, lines: Seq<Seq<char>>)
    requires
        forall|i: int| 0 <= i < lines.len() ==> policy_decision(policy, #[trigger] lines[i]) is Keep,
    ensures
        scan_lines(policy, seq![], lines) == Ok::<(Seq<Seq<char>>, MovedView), (int, MoveDecision)>(
            (lines, seq![]),
        ),
    decreases lines.len(),
{
    if lines.len() > 0 {
        lemma_scan_all_kept(policy, lines.drop_last());
        assert(policy_decision(policy, lines[lines.len() - 1]) is Keep);
        assert(lines.drop_last().push(lines.last()) == lines);
    } else {
        assert(lines =~= Seq::<Seq<char>>::empty());
    }
}

/// With an empty marker no line moves and none is refused: formatting a
/// stream is formatting the prepended lines followed by all its lines.
pub proof fn law_empty_marker_keeps_all(
    l: Seq<char>,
    policy: MovePolicy,
    prepend: Seq<Seq<char>>,
    lines: Seq<Seq<char>>,
)
    requires
        policy.marker@.len() == 0,
    ensures
        format_spec(l, policy, prepend, lines) == Ok::<
            (Seq<Seq<char>>, MovedView),
            (int, MoveDecision),
        >((format_lines_spec(l, prepend + lines), seq![])),
{
    lemma_scan_all_kept(policy, lines);
}

proof fn lemma_scan_no_external_writes(policy: MovePolicy, lines: Seq<Seq<char>>)
    requires
        !policy.allow_external_writes,
    ensures
        scan_lines(policy, seq![], lines) matches Ok((_, moved)) ==> moved.len() == 0,
    decreases lines.len(),
{
    if lines.len() > 0 {
        lemma_scan_no_external_writes(policy, lines.drop_last());
    }
}

/// Where external writes are forbidden, a formatting that succeeds moves
/// no line.
pub proof fn law_no_external_writes(
    l: Seq<char>,
    policy: MovePolicy,
    prepend: Seq<Seq<char>>,
    lines: Seq<Seq<char>>,
)
    requires
        !policy.allow_external_writes,
    ensures
        format_spec(l, policy, prepend, lines) matches Ok((_, moved)) ==> moved.len() == 0,
{
    lemma_scan_no_external_writes(policy, lines);
}

proof fn lemma_add_moved_distinct(m: MovedView, path: Seq<char>, line: Seq<char>)
    requires
        distinct_paths(m),
    ensures
        distinct_paths(add_moved(m, path, line)),
{
}

proof fn lemma_scan_distinct(policy: MovePolicy, lines: Seq<Seq<char>>)
    ensures
        scan_lines(policy, seq![], lines) matches Ok((_, moved)) ==> distinct_paths(moved),
    decreases lines.len(),
{
    if lines.len() > 0 {
        lemma_scan_distinct(policy, lines.drop_last());
        if let Ok((_, m)) = scan_lines(policy, seq![], lines.drop_last()) {
            if let MoveDecision::Move { path, body } = policy_decision(policy, lines.last()) {
                lemma_add_moved_distinct(m, path, body);
            }
        }
    }
}

/// The moved lines of a formatting that succeeds name each destination once.
pub proof fn law_destinations_distinct(
    l: Seq<char>,
    policy: MovePolicy,
    prepend: Seq<Seq<char>>,
    lines: Seq<Seq<char>>,
)
    ensures
        format_spec(l, policy, prepend, lines) matches Ok((_, moved)) ==> distinct_paths(moved),
{
    lemma_scan_distinct(policy, lines);
}

/// The lines of `lines` that `policy` keeps in the stream, where it refuses none.
pub open spec fn kept_lines(policy: MovePolicy, lines: Seq<Seq<char>>) -> Seq<Seq<char>> {
    match scan_lines(policy, seq![], lines) {
        Ok((kept, _)) => kept,
        Err(_) => seq![],
    }
}

/// Formatting what a formatting wrote, with the same policy and nothing
/// prepended, gives it back unchanged and moves nothing, where the policy
/// keeps every written line in the stream.
pub proof fn law_format_idempotence(
    l: Seq<char>,
    policy: MovePolicy,
    prepend: Seq<Seq<char>>,
    lines: Seq<Seq<char>>,
)
    requires
        collation_is_total_order(l),
        lines_map_well(l, prepend + kept_lines(policy, lines)),
        format_spec(l, policy, prepend, lines) is Ok,
        forall|i: int|
            0 <= i < format_spec(l, policy, prepend, lines)->Ok_0.0.len() ==> policy_decision(
                policy,
                #[trigger] format_spec(l, policy, prepend, lines)->Ok_0.0[i],
            ) is Keep,
    ensures
        format_spec(l, policy, seq![], format_spec(l, policy, prepend, lines)->Ok_0.0) == Ok::<
            (Seq<Seq<char>>, MovedView),
            (int, MoveDecision),
        >((format_spec(l, policy, prepend, lines)->Ok_0.0, seq![])),
{
    let out = format_spec(l, policy, prepend, lines)->Ok_0.0;
    law_idempotence(l, prepend + kept_lines(policy, lines));
    lemma_scan_all_kept(policy, out);
    assert(Seq::<Seq<char>>::empty() + out == out);
}

proof fn lemma_scan_kept_len(policy: MovePolicy, lines: Seq<Seq<char>>)
    ensures
        scan_lines(policy, seq![], lines) matches Ok((kept, _)) ==> kept.len() <= lines.len(),
    decreases lines.len(),
{
    if lines.len() > 0 {
        lemma_scan_kept_len(policy, lines.drop_last());
    }
}

/// A formatting that succeeds writes no more lines than it was given,
/// prepended lines included.
pub proof fn law_format_line_count(
    l: Seq<char>,
    policy: MovePolicy,
    prepend: Seq<Seq<char>>,
    lines: Seq<Seq<char>>,
)
    ensures
        format_spec(l, policy, prepend, lines) matches Ok((out, _)) ==> out.len() <= prepend.len()
            + lines.len(),
{
    lemma_scan_kept_len(policy, lines);
    law_line_count(l, prepend + kept_lines(policy, lines));
}

/// What a formatting that succeeds writes has no three empty lines in a
/// row, and none at the start or at the end.
pub proof fn law_format_spacing(
    l: Seq<char>,
    policy: MovePolicy,
    prepend: Seq<Seq<char>>,
    lines: Seq<Seq<char>>,
)
    requires
        case_mapping_keeps_text(l),
    ensures
        format_spec(l, policy, prepend, lines) matches Ok((out, _)) ==> well_spaced(out),
{
    law_spacing(l, prepend + kept_lines(policy, lines));
}

/// A line with the marker and a path after it moves to the cleaned path,
/// with the text before the marker, wherever the policy allows external
/// writes, whether or not it allows deletions.
pub proof fn law_move_when_writes_allowed(
    policy: MovePolicy,
    line: Seq<char>,
    first: Seq<char>,
    second: Seq<char>,
)
    requires
        policy.marker@.len() > 0,
        policy.allow_external_writes,
        split_once_spec(line, policy.marker@) == Some((first, second)),
        trim_spec(second).len() > 0,
    ensures
        policy_decision(policy, line) == (MoveDecision::Move {
            path: cleaned_path(trim_spec(second)),
            body: first,
        }),
        policy_decision(MovePolicy { allow_deletions: !policy.allow_deletions, ..policy }, line)
            == policy_decision(policy, line),
{
}

/// A line with the marker and nothing but white space after it is deleted
/// wherever the policy allows deletions, whether or not it allows external
/// writes.
pub proof fn law_delete_when_deletions_allowed(policy: MovePolicy, line: Seq<char>)
    requires
        policy.marker@.len() > 0,
        policy.allow_deletions,
        split_once_spec(line, policy.marker@) matches Some((_, second)) && trim_spec(second).len()
            == 0,
    ensures
        policy_decision(policy, line) == MoveDecision::Delete,
{
}

/// A line without the marker, or any line where the marker is empty, stays
/// in the stream as it is.
pub proof fn law_unmarked_line_kept(policy: MovePolicy, line: Seq<char>)
    requires
        policy.marker@.len() == 0 || split_once_spec(line, policy.marker@) is None,
    ensures
        policy_decision(policy, line) == MoveDecision::Keep,
{
}

/// A line is refused only for a permission that the policy withholds: a
/// deletion where deletions are not allowed, a move to the trimmed path
/// after the marker where external writes are not allowed.
pub proof fn law_refusal_needs_withheld_permission(policy: MovePolicy, line: Seq<char>)
    ensures
        policy_decision(policy, line) is DeletionForbidden ==> {
            &&& !policy.allow_deletions
            &&& policy.marker@.len() > 0
            &&& split_once_spec(line, policy.marker@) matches Some((_, second)) && trim_spec(
                second,
            ).len() == 0
        },
        policy_decision(policy, line) matches MoveDecision::ExternalWriteForbidden { path } ==> {
            &&& !policy.allow_external_writes
            &&& policy.marker@.len() > 0
            &&& split_once_spec(line, policy.marker@) matches Some((_, second)) && path == trim_spec(
                second,
            ) && path.len() > 0
        },
{
}

proof fn lemma_scan_refusal(policy: MovePolicy, lines: Seq<Seq<char>>)
    ensures
        scan_lines(policy, seq![], lines) matches Err((i, d)) ==> 0 <= i < lines.len() && d
            == policy_decision(policy, lines[i]) && (d is DeletionForbidden
            || d is ExternalWriteForbidden),
    decreases lines.len(),
{
    if lines.len() > 0 {
        lemma_scan_refusal(policy, lines.drop_last());
    }
}

/// Formatting a stream fails only at a line that needs a permission the
/// policy withholds; where the policy allows both deletions and external
/// writes, it never fails.
pub proof fn law_format_fails_only_for_withheld_permission(
    l: Seq<char>,
    policy: MovePolicy,
    prepend: Seq<Seq<char>>,
    lines: Seq<Seq<char>>,
)
    ensures
        format_spec(l, policy, prepend, lines) matches Err((i, d)) ==> {
            &&& 0 <= i < lines.len()
            &&& d is DeletionForbidden ==> !policy.allow_deletions
            &&& d is ExternalWriteForbidden ==> !policy.allow_external_writes
            &&& d is DeletionForbidden || d is ExternalWriteForbidden
        },
        policy.allow_deletions && policy.allow_external_writes ==> format_spec(
            l,
            policy,
            prepend,
            lines,
        ) is Ok,
{
    lemma_scan_refusal(policy, lines);
    if let Err((i, d)) = scan_lines(policy, seq![], lines) {
        law_refusal_needs_withheld_permission(policy, lines[i]);
    }
}

} // verus!
