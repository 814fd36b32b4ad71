use crate::error::{ClapFailure, Error};
use crate::moved_lines::{MovedLines, MovedView};
use crate::settings::Settings;
use crate::sorting::view_lines;
use std::io::Error as IoError;
use vstd::prelude::*;

verus! {

broadcast use vstd::std_specs::vec::group_vec_axioms;

/// Where a run stands.
#[derive(Clone, Copy, Debug, PartialEq, Eq, Structural)]
pub enum Stage {
    /// Formatting the main stream: the file of the settings, or standard input.
    Main,
    /// Formatting the files that lines were moved to.
    Moves,
    /// Committing (or, after a failure, rolling back) the formatted files.
    Closing,
    /// Finished.
    Done,
}

/// What a run asks its caller to do next.
pub enum Action {
    /// Format standard input to standard output, and report the moved lines.
    FormatStdio,
    /// Format the file at `path` in place, with `prepend_lines` before its
    /// content, creating it if `allow_creation`; report the moved lines.
    FormatFile { path: String, prepend_lines: Vec<String>, allow_creation: bool },
    /// Commit the formatted file number `index` (the file at `path`).
    Commit { index: usize, path: String, skip_disk_sync: bool },
    /// Roll back the formatted file number `index`.
    Rollback { index: usize },
    /// The run is over, with this result.
    Finish(Result<(), Error>),
}

/// The state of a run, as the contracts see it.
pub struct SessionView {
    pub stage: Stage,
    pub main_path: Option<Seq<char>>,
    pub skip_disk_sync: bool,
    /// The files formatted so far, in order: the main file (if any), then the destinations.
    pub paths: Seq<Seq<char>>,
    /// The lines that the main stream moved, by destination.
    pub moves: MovedView,
    /// The destination being formatted.
    pub next_move: nat,
    /// The formatted file being committed or rolled back.
    pub next_close: nat,
}

/// Moving on after the main stream or a destination is formatted: to the
/// next destination, else to closing, which is over at once where there is
/// no file to close.
pub open spec fn advance(v: SessionView) -> SessionView {
    if v.next_move < v.moves.len() {
        SessionView { stage: Stage::Moves, ..v }
    } else {
        settle(SessionView { stage: Stage::Closing, ..v })
    }
}

/// Closing is over once every formatted file is closed.
pub open spec fn settle(v: SessionView) -> SessionView {
    if v.stage == Stage::Closing && v.next_close >= v.paths.len() {
        SessionView { stage: Stage::Done, ..v }
    } else {
        v
    }
}

/// The result that a run with this failure (if any) ends with.
pub open spec fn result_of(failure: Option<Error>) -> Result<(), Error> {
    match failure {
        Some(e) => Err(e),
        None => Ok(()),
    }
}

/// `a` is the action that the state `v`, with the failure `failure`, asks for.
pub open spec fn action_for(v: SessionView, failure: Option<Error>, a: Action) -> bool {
    match v.stage {
        Stage::Main => match v.main_path {
            Some(p) => {
                &&& a matches Action::FormatFile { path, prepend_lines, allow_creation }
                &&& path@ == p
                &&& prepend_lines@.len() == 0
                &&& !allow_creation
            },
            None => a is FormatStdio,
        },
        Stage::Moves => {
            &&& v.next_move < v.moves.len()
            &&& a matches Action::FormatFile { path, prepend_lines, allow_creation }
            &&& path@ == v.moves[v.next_move as int].0
            &&& view_lines(prepend_lines@) == v.moves[v.next_move as int].1
            &&& allow_creation
        },
        Stage::Closing => {
            &&& v.next_close < v.paths.len()
            &&& match failure {
                Some(_) => a matches Action::Rollback { index } && index == v.next_close,
                None => {
                    &&& a matches Action::Commit { index, path, skip_disk_sync }
                    &&& index == v.next_close
                    &&& path@ == v.paths[v.next_close as int]
                    &&& skip_disk_sync == v.skip_disk_sync
                },
            }
        },
        Stage::Done => a matches Action::Finish(r) && r == result_of(failure),
    }
}

/// A run in progress: it decides what to format, commit and roll back; its
/// caller does the file work and reports back.
pub struct Session {
    stage: Stage,
    main_path: Option<String>,
    skip_disk_sync: bool,
    paths: Vec<String>,
    moves: Vec<(String, Vec<String>)>,
    next_move: usize,
    next_close: usize,
    failure: Option<Error>,
}

impl View for Session {
    type V = SessionView;

    closed spec fn view(&self) -> SessionView {
        SessionView {
            stage: self.stage,
            main_path: match self.main_path {
                Some(p) => Some(p@),
                None => None,
            },
            skip_disk_sync: self.skip_disk_sync,
            paths: view_lines(self.paths@),
            moves: self.moves@.map_values(|e: (String, Vec<String>)| (e.0@, view_lines(e.1@))),
            next_move: self.next_move as nat,
            next_close: self.next_close as nat,
        }
    }
}

impl Session {
    /// The failure met so far, if any.
    pub closed spec fn failure(&self) -> Option<Error> {
        self.failure
    }

    /// The session's invariant.
    pub closed spec fn wf(&self) -> bool {
        &&& self.next_move <= self.moves.len()
        &&& self.next_close <= self.paths.len()
        &&& self.stage == Stage::Closing ==> self.next_close < self.paths.len()
        &&& self.stage == Stage::Moves ==> self.next_move < self.moves.len() && self.failure is None
        &&& self.stage == Stage::Main ==> self.failure is None && self.paths.len() == 0
    }

    /// Whether the session waits for the result of formatting a stream.
    pub fn expects_format_result(&self) -> (r: bool)
        ensures
            r == (self@.stage == Stage::Main || self@.stage == Stage::Moves),
    {
        match self.stage {
            Stage::Main | Stage::Moves => true,
            _ => false,
        }
    }

    /// Whether the session waits for the result of closing a file.
    pub fn expects_close_result(&self) -> (r: bool)
        ensures
            r == (self@.stage == Stage::Closing),
    {
        match self.stage {
            Stage::Closing => true,
            _ => false,
        }
    }

    /// The action that the current state asks for.
    fn next_action(&mut self) -> (r: Action)
        requires
            old(self).wf(),
            old(self)@.stage != Stage::Main,
        ensures
            final(self)@ == old(self)@,
            final(self).wf(),
            action_for(old(self)@, old(self).failure(), r),
            old(self)@.stage != Stage::Done ==> final(self).failure() == old(self).failure(),
    {
        match self.stage {
            Stage::Moves => {
                let path = self.moves[self.next_move].0.clone();
                let prepend_lines = self.moves[self.next_move].1.clone();
                proof {
                    assert(view_lines(prepend_lines@) =~= view_lines(self.moves@[self.next_move as int].1@));
                }
                Action::FormatFile { path, prepend_lines, allow_creation: true }
            },
            Stage::Closing => {
                if self.failure.is_some() {
                    Action::Rollback { index: self.next_close }
                } else {
                    Action::Commit {
                        index: self.next_close,
                        path: self.paths[self.next_close].clone(),
                        skip_disk_sync: self.skip_disk_sync,
                    }
                }
            },
            _ => {
                let failure = self.failure.take();
                match failure {
                    Some(e) => Action::Finish(Err(e)),
                    None => Action::Finish(Ok(())),
                }
            },
        }
    }

    /// Reports how formatting the stream that the last action asked for went.
    pub fn formatted(&mut self, result: Result<MovedLines, Error>) -> (r: Action)
        requires
            old(self).wf(),
            old(self)@.stage == Stage::Main || old(self)@.stage == Stage::Moves,
            old(self)@.stage == Stage::Moves ==> (result matches Ok(m) ==> m@.len() == 0),
        ensures
            final(self).wf(),
            match result {
                Ok(m) => {
                    &&& final(self)@ == advance(after_formatted(old(self)@, m@))
                    &&& action_for(final(self)@, None, r)
                    &&& final(self)@.stage != Stage::Done ==> final(self).failure() is None
                },
                Err(e) => {
                    &&& final(self)@ == settle(after_failed(old(self)@))
                    &&& action_for(final(self)@, Some(e), r)
                    &&& final(self)@.stage != Stage::Done ==> final(self).failure() == Some(e)
                },
            },
    {
        let ghost v = self@;
        match result {
            Ok(moved) => {
                if self.stage == Stage::Main {
                    match &self.main_path {
                        Some(p) => {
                            let p = p.clone();
                            self.paths.push(p);
                        },
                        None => {},
                    }
                    let entries = moved.into_entries();
                    self.moves = entries;
                    self.next_move = 0;
                } else {
                    let p = self.moves[self.next_move].0.clone();
                    self.paths.push(p);
                    self.next_move = self.next_move + 1;
                }
                proof {
                    assert(view_lines(self.paths@) =~= after_formatted(v, moved@).paths);
                    assert(self.moves@.map_values(|e: (String, Vec<String>)| (e.0@, view_lines(e.1@)))
                        =~= after_formatted(v, moved@).moves);
                }
                if self.next_move < self.moves.len() {
                    self.stage = Stage::Moves;
                } else {
                    self.stage = Stage::Closing;
                    if self.next_close >= self.paths.len() {
                        self.stage = Stage::Done;
                    }
                }
                self.next_action()
            },
            Err(e) => {
                if self.stage == Stage::Main {
                    self.stage = Stage::Done;
                } else {
                    self.stage = Stage::Closing;
                    if self.next_close >= self.paths.len() {
                        self.stage = Stage::Done;
                    }
                }
                self.failure = Some(e);
                self.next_action()
            },
        }
    }

    /// Reports how closing the file that the last action asked to commit or
    /// roll back went; after a rollback the result does not matter.
    pub fn closed(&mut self, result: Result<(), IoError>) -> (r: Action)
        requires
            old(self).wf(),
            old(self)@.stage == Stage::Closing,
        ensures
            final(self).wf(),
            final(self)@ == settle(SessionView { next_close: old(self)@.next_close + 1, ..old(self)@ }),
            match (old(self).failure(), result) {
                (None, Err(e)) => exists|p: String|
                    #![trigger closed_failure(e, p)]
                    p@ == old(self)@.paths[old(self)@.next_close as int] && action_for(
                        final(self)@,
                        closed_failure(e, p),
                        r,
                    ) && (final(self)@.stage != Stage::Done ==> final(self).failure()
                        == closed_failure(e, p)),
                (f, _) => action_for(final(self)@, f, r) && (final(self)@.stage != Stage::Done
                    ==> final(self).failure() == f),
            },
    {
        let ghost f = self.failure;
        let index = self.next_close;
        if self.failure.is_none() {
            match result {
                Err(e) => {
                    let path = self.paths[index].clone();
                    proof {
                        assert(closed_failure(e, path) == Some(Error::IOFailed { error: Some(e), path }));
                    }
                    self.failure = Some(Error::IOFailed { error: Some(e), path });
                },
                Ok(()) => {},
            }
        }
        self.next_close = index + 1;
        if self.next_close >= self.paths.len() {
            self.stage = Stage::Done;
        }
        self.next_action()
    }
}

/// The failure that a failed commit of the file at `path` records.
pub open spec fn closed_failure(e: IoError, path: String) -> Option<Error> {
    Some(Error::IOFailed { error: Some(e), path })
}

/// The state once the stream that the state waits for is formatted and
/// `moved` are its moved lines.
pub open spec fn after_formatted(v: SessionView, moved: MovedView) -> SessionView {
    if v.stage == Stage::Main {
        SessionView {
            paths: match v.main_path {
                Some(p) => seq![p],
                None => seq![],
            },
            moves: moved,
            next_move: 0,
            ..v
        }
    } else {
        SessionView {
            paths: v.paths.push(v.moves[v.next_move as int].0),
            next_move: v.next_move + 1,
            ..v
        }
    }
}

/// The state once formatting a stream failed: a failed main stream ends the
/// run; a failed destination ends formatting.
pub open spec fn after_failed(v: SessionView) -> SessionView {
    if v.stage == Stage::Main {
        SessionView { stage: Stage::Done, ..v }
    } else {
        SessionView { stage: Stage::Closing, ..v }
    }
}

/// The state and the first action of a run with `settings`.
pub fn run_with_settings(settings: &Settings) -> (r: (Session, Action))
    ensures
        r.0.wf(),
        r.0.failure() is None,
        r.0@ == (SessionView {
            stage: Stage::Main,
            main_path: match settings.path {
                Some(p) => Some(p@),
                None => None,
            },
            skip_disk_sync: settings.skip_disk_sync,
            paths: seq![],
            moves: seq![],
            next_move: 0,
            next_close: 0,
        }),
        action_for(r.0@, None, r.1),
{
    let main_path = match &settings.path {
        Some(p) => Some(p.clone()),
        None => None,
    };
    let action = match &main_path {
        Some(p) => Action::FormatFile { path: p.clone(), prepend_lines: Vec::new(), allow_creation: false },
        None => Action::FormatStdio,
    };
    let session = Session {
        stage: Stage::Main,
        main_path,
        skip_disk_sync: settings.skip_disk_sync,
        paths: Vec::new(),
        moves: Vec::new(),
        next_move: 0,
        next_close: 0,
        failure: None,
    };
    proof {
        assert(view_lines(session.paths@) =~= Seq::<Seq<char>>::empty());
        assert(session.moves@.map_values(|e: (String, Vec<String>)| (e.0@, view_lines(e.1@)))
            =~= Seq::<(Seq<char>, Seq<Seq<char>>)>::empty());
    }
    (session, action)
}

/// Starts a run from the result of parsing the settings: a failed parse
/// ends the run at once.
pub fn run(parsed: Result<Settings, ClapFailure>) -> (r: (Session, Action))
    ensures
        r.0.wf(),
        match parsed {
            Ok(settings) => {
                &&& r.0.failure() is None
                &&& r.0@.stage == Stage::Main
                &&& r.0@.main_path == match settings.path {
                    Some(p) => Some(p@),
                    None => None::<Seq<char>>,
                }
                &&& r.0@.skip_disk_sync == settings.skip_disk_sync
                &&& r.0@.paths.len() == 0
                &&& action_for(r.0@, None, r.1)
            },
            Err(f) => r.0@.stage == Stage::Done && r.1 == Action::Finish(Err(Error::ClapFailed(f))),
        },
{
    match parsed {
        Ok(settings) => run_with_settings(&settings),
        Err(failure) => {
            let session = Session {
                stage: Stage::Done,
                main_path: None,
                skip_disk_sync: false,
                paths: Vec::new(),
                moves: Vec::new(),
                next_move: 0,
                next_close: 0,
                failure: None,
            };
            (session, Action::Finish(Err(Error::ClapFailed(failure))))
        },
    }
}

/// Once the main stream (a file or standard input) is formatted, the run's
/// destinations are exactly the moved lines that it reported, in order, and
/// the formatted files are the main file, if there is one. Where lines were
/// moved, the next action formats the first destination, creating it if
/// need be, with its moved lines before its content; where none were, the
/// run commits the main file, or, with standard input, finishes at once.
pub proof fn law_main_stream_moves(v: SessionView, m: MovedView, a: Action)
    requires
        v.stage == Stage::Main,
        v.next_close == 0,
        action_for(advance(after_formatted(v, m)), None, a),
    ensures
        advance(after_formatted(v, m)).moves == m,
        advance(after_formatted(v, m)).next_move == 0,
        advance(after_formatted(v, m)).paths == match v.main_path {
            Some(p) => seq![p],
            None => Seq::<Seq<char>>::empty(),
        },
        m.len() > 0 ==> {
            &&& advance(after_formatted(v, m)).stage == Stage::Moves
            &&& a matches Action::FormatFile { path, prepend_lines, allow_creation }
            &&& path@ == m[0].0
            &&& view_lines(prepend_lines@) == m[0].1
            &&& allow_creation
        },
        m.len() == 0 ==> match v.main_path {
            Some(p) => a matches Action::Commit { index, path, skip_disk_sync } && index == 0
                && path@ == p && skip_disk_sync == v.skip_disk_sync,
            None => a matches Action::Finish(r) && r is Ok,
        },
{
}

/// After a destination is formatted, the run goes on to the next
/// destination, or to committing the formatted files once all are done; no
/// destination is skipped.
pub proof fn law_destinations_in_turn(v: SessionView, m: MovedView, a: Action)
    requires
        v.stage == Stage::Moves,
        v.next_move < v.moves.len(),
        action_for(advance(after_formatted(v, m)), None, a),
    ensures
        advance(after_formatted(v, m)).paths == v.paths.push(v.moves[v.next_move as int].0),
        advance(after_formatted(v, m)).moves == v.moves,
        v.next_move + 1 < v.moves.len() ==> {
            &&& a matches Action::FormatFile { path, prepend_lines, allow_creation }
            &&& path@ == v.moves[v.next_move + 1int].0
            &&& view_lines(prepend_lines@) == v.moves[v.next_move + 1int].1
            &&& allow_creation
        },
        v.next_move + 1 == v.moves.len() && v.next_close == 0 ==> {
            &&& a matches Action::Commit { index, .. }
            &&& index == 0
        },
{
}

/// A session that waits for its main stream has formatted and closed no file yet.
pub proof fn lemma_main_stage_fresh(s: &Session)
    requires
        s.wf(),
        s@.stage == Stage::Main,
    ensures
        s@.paths.len() == 0,
        s@.next_close == 0,
{
}

} // verus!
