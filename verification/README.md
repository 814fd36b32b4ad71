# fretwire

A formatter for files of short lines grouped in paragraphs. Within each
paragraph the first letters are made to agree in case: the lowercase lines are
titlecased where no more of them would change by it than uppercase lines would
change by being lowercased, and the uppercase lines are lowercased otherwise. A
line whose first letter the mapping leaves as it is (such as `ªa`, whose `ª`
has no titlecase form) does not count, so that formatting formatted text
changes nothing. Then the
lines are sorted by the collation of a locale and repeated lines are dropped.
Paragraphs are kept apart by at most two empty lines. A line that carries the
move marker (`:>` by default) followed by a path is taken out of the stream and
prepended to the file at that path; a marker with no path deletes the line.

## Layout

- `src/` is the verified library (Verus):
  - `text`: white space, trimming and `split_once` on characters;
  - `locale`, `case`, `case_relation`, `cased_string`: case classes and case
    mappings, from ICU, behind named results;
  - `sorting`: insertion by collation, sorting and removal of repeated lines;
  - `state_machine`, `paragraph`, `row`: the paragraph formatters, with the
    state machine's steps written as spec functions;
  - `format`, `moved_lines`, `move_policy`: the move policy and formatting of a
    whole stream;
  - `run`, `settings`, `error`, `into_io_failed`: the decisions of a run (what
    to format, commit or roll back next) and its exit status;
  - `laws`, `idempotence` and the `law_` proof functions in `format` and
    `paragraph`: line count, spacing, idempotence, sortedness of each
    paragraph, that no line is lost but a repeat, and that no written line
    ends in white space. The ICU results are only
    named, so some laws take premises on them: idempotence assumes that
    collation is a total order and that mapping a line's first letter gives a
    line with text and no trailing white space, which the same mapping leaves
    as it is; sortedness assumes the total order; the
    absence of trailing white space assumes the same of case mapping as
    idempotence; spacing assumes that mapping
    one character never gives nothing; keeping lines assumes that a line
    collates equal to itself. Line count needs no premise.
- `app/` is the command-line program: argument parsing, standard streams,
  file locking and the two-stage in-place rewrite of files.
- `tests/` runs the library on concrete inputs.
