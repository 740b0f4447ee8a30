//! The decisions a step run makes around its command: the command line,
//! which files it may have to stage afterwards, how a failure is reported
//! and which files it changed.
use vstd::prelude::*;
use crate::path::{RelPath, string_views};
use crate::path_set::paths_view;
use crate::step::{RunType, CheckType};
use crate::text::{decimal_string, decimal_text};

verus! {

/// Where the files that a fixing step may have to stage come from.
#[derive(Debug, Clone, Copy, PartialEq, Eq, Structural)]
pub enum AddSource {
    /// The step's files that match its rendered `stage` patterns.
    StageMatches,
    /// All of the step's files.
    StepFiles,
    /// No file.
    Nothing,
}

/// How a failed command is reported.
#[derive(Debug, Clone, Copy, PartialEq, Eq, Structural)]
pub enum FailureReport {
    /// A file-listing check failed: its standard output is kept with the error.
    ListFilesFailed,
    /// Any other failure: the error is reported with the command line.
    CommandFailed,
}

/// What a step runs: its command, behind its prefix when it has one.
pub open spec fn command_text(command: Seq<char>, prefix: Option<Seq<char>>) -> Seq<char> {
    match prefix {
        Some(p) => p + seq![' '] + command,
        None => command,
    }
}

/// The step's command line: `<prefix> <command>`, or the command alone.
pub fn command_line(command: &str, prefix: Option<&str>) -> (res: String)
    ensures
        res@ == command_text(command@, match prefix {
            Some(p) => Some(p@),
            None => None,
        }),
{
    let mut out = String::new();
    if let Some(p) = prefix {
        out.append(p);
        out.append(" ");
    }
    out.append(command);
    proof {
        reveal_strlit(" ");
        if prefix is Some {
            assert(out@ =~= prefix->0@ + seq![' '] + command@);
        } else {
            assert(out@ =~= command@);
        }
    }
    out
}

/// The command line a step runs for the command its run type picks, or
/// `None` when there is no such command and the step does nothing.
pub fn planned_command(command: Option<&str>, prefix: Option<&str>) -> (res: Option<String>)
    ensures
        command is None ==> res is None,
        command matches Some(c) ==> (res matches Some(line) && line@ == command_text(c@, match prefix {
            Some(p) => Some(p@),
            None => None,
        })),
{
    match command {
        Some(c) => Some(command_line(c, prefix)),
        None => None,
    }
}

/// Where a step run takes the files to stage from: only a fix stages;
/// then the `stage` patterns decide when the step has them, else all its
/// files when it has `glob` patterns, else none.
pub open spec fn add_source_for(run_type: RunType, has_stage: bool, has_glob: bool) -> AddSource {
    if run_type != RunType::Fix {
        AddSource::Nothing
    } else if has_stage {
        AddSource::StageMatches
    } else if has_glob {
        AddSource::StepFiles
    } else {
        AddSource::Nothing
    }
}

/// Only a fix stages anything; a fix with stage patterns stages what they
/// match, whether or not the step has glob patterns; a fix without stage
/// patterns stages all its files when it has glob patterns and nothing
/// otherwise.
pub proof fn lemma_add_source(run_type: RunType, has_stage: bool, has_glob: bool)
    ensures
        run_type != RunType::Fix ==> add_source_for(run_type, has_stage, has_glob) == AddSource::Nothing,
        add_source_for(RunType::Fix, true, has_glob) == AddSource::StageMatches,
        add_source_for(RunType::Fix, false, true) == AddSource::StepFiles,
        add_source_for(RunType::Fix, false, false) == AddSource::Nothing,
        add_source_for(run_type, has_stage, has_glob) != AddSource::Nothing
            ==> run_type == RunType::Fix && (has_stage || has_glob),
{
}

/// Where a step run takes the files to stage from.
pub fn files_to_add_source(run_type: RunType, has_stage: bool, has_glob: bool) -> (res: AddSource)
    ensures
        res == add_source_for(run_type, has_stage, has_glob),
        run_type == RunType::Fix && has_stage ==> res == AddSource::StageMatches,
        run_type == RunType::Fix && !has_stage && has_glob ==> res == AddSource::StepFiles,
        run_type != RunType::Fix || (!has_stage && !has_glob) ==> res == AddSource::Nothing,
{
    match run_type {
        RunType::Fix => if has_stage {
            AddSource::StageMatches
        } else if has_glob {
            AddSource::StepFiles
        } else {
            AddSource::Nothing
        },
        RunType::Check(_) => AddSource::Nothing,
    }
}

/// How a failure of the step's command is reported: a script that failed
/// during a file-listing check keeps its output; anything else is
/// reported with the command line.
pub fn failure_report(run_type: RunType, script_failed: bool) -> (res: FailureReport)
    ensures
        res == (if script_failed && run_type == RunType::Check(CheckType::ListFiles) {
            FailureReport::ListFilesFailed
        } else {
            FailureReport::CommandFailed
        }),
{
    if script_failed {
        if let RunType::Check(CheckType::ListFiles) = run_type {
            return FailureReport::ListFilesFailed;
        }
    }
    FailureReport::CommandFailed
}

/// `<n> file` or `<n> files`: singular for exactly one.
pub open spec fn count_text(n: nat) -> Seq<char> {
    decimal_text(n) + seq![' ', 'f', 'i', 'l', 'e'] + (if n == 1 { Seq::empty() } else { seq!['s'] })
}

/// How many files a step runs on, in words.
pub fn files_message(n: usize) -> (res: String)
    ensures
        res@ == count_text(n as nat),
{
    let mut out = decimal_string(n as u64);
    out.append(" file");
    if n != 1 {
        out.append("s");
    }
    proof {
        reveal_strlit(" file");
        reveal_strlit("s");
        assert(out@ =~= count_text(n as nat));
    }
    out
}

/// The strings joined by single spaces.
pub open spec fn space_joined(items: Seq<Seq<char>>) -> Seq<char>
    decreases items.len(),
{
    if items.len() == 0 {
        Seq::empty()
    } else if items.len() == 1 {
        items[0]
    } else {
        space_joined(items.drop_last()) + seq![' '] + items.last()
    }
}

/// The progress line of a step run: how many files, the glob patterns,
/// the command line, separated by en dashes.
pub open spec fn progress_text(n: nat, globs: Seq<Seq<char>>, command: Seq<char>) -> Seq<char> {
    count_text(n) + seq![' ', '\u{2013}', ' '] + space_joined(globs) + seq![' ', '\u{2013}', ' '] + command
}

/// The progress line of a step run.
pub fn progress_message(n: usize, globs: &Vec<String>, command: &str) -> (res: String)
    ensures
        res@ == progress_text(n as nat, string_views(globs@), command@),
{
    let mut out = files_message(n);
    out.append(" \u{2013} ");
    let ghost with_dash = out@;
    let k = globs.len();
    let mut i: usize = 0;
    while i < k
        invariant
            k == globs@.len(),
            i <= k,
            out@ == with_dash + space_joined(string_views(globs@).take(i as int)),
        decreases k - i,
    {
        let ghost prev = out@;
        if i > 0 {
            out.append(" ");
        }
        out.append(globs[i].as_str());
        proof {
            reveal_strlit(" ");
            let v = string_views(globs@);
            assert(v.take(i + 1).drop_last() =~= v.take(i as int));
            assert(v.take(i + 1).last() == globs@[i as int]@);
        }
        i = i + 1;
    }
    out.append(" \u{2013} ");
    out.append(command);
    proof {
        reveal_strlit(" \u{2013} ");
        assert(string_views(globs@).take(k as int) =~= string_views(globs@));
        assert(out@ =~= progress_text(n as nat, string_views(globs@), command@));
    }
    out
}

/// The files a step changed: those that still exist and whose
/// modification time is now later than it was before the step ran.
pub open spec fn changed(
    before: Seq<(i128, Seq<Seq<char>>)>,
    after: Seq<Option<i128>>,
) -> Seq<Seq<Seq<char>>>
    decreases before.len(),
{
    if before.len() == 0 || after.len() != before.len() {
        Seq::empty()
    } else {
        let rest = changed(before.drop_last(), after.drop_last());
        match after.last() {
            Some(t) => if t > before.last().0 {
                rest.push(before.last().1)
            } else {
                rest
            },
            None => rest,
        }
    }
}

/// Timed files, each path by its view.
pub open spec fn times_view(s: Seq<(i128, RelPath)>) -> Seq<(i128, Seq<Seq<char>>)> {
    Seq::new(s.len(), |i: int| (s[i].0, s[i].1@))
}

/// The files a step changed. `before` holds each candidate file with its
/// modification time (nanoseconds from the Unix epoch) before the run;
/// `after` its time after the run, `None` when the file is gone or has
/// no readable time.
pub fn changed_files(before: &Vec<(i128, RelPath)>, after: &Vec<Option<i128>>) -> (res: Vec<RelPath>)
    requires
        before@.len() == after@.len(),
    ensures
        paths_view(res@) == changed(times_view(before@), after@),
{
    let mut out: Vec<RelPath> = Vec::new();
    let n = before.len();
    let mut i: usize = 0;
    while i < n
        invariant
            n == before@.len(),
            n == after@.len(),
            i <= n,
            paths_view(out@) == changed(times_view(before@).take(i as int), after@.take(i as int)),
        decreases n - i,
    {
        proof {
            assert(times_view(before@).take(i + 1).drop_last() =~= times_view(before@).take(i as int));
            assert(after@.take(i + 1).drop_last() =~= after@.take(i as int));
            assert(times_view(before@).take(i + 1).last() == (before@[i as int].0, before@[i as int].1@));
            assert(after@.take(i + 1).last() == after@[i as int]);
        }
        let (t0, p) = &before[i];
        match after[i] {
            Some(t1) => {
                if t1 > *t0 {
                    let ghost prev = out@;
                    out.push(p.duplicate());
                    assert(paths_view(out@) =~= paths_view(prev).push(p@));
                }
            },
            None => {},
        }
        i = i + 1;
    }
    assert(times_view(before@).take(n as int) =~= times_view(before@));
    assert(after@.take(n as int) =~= after@);
    out
}

// ------------------------------------------------------------- the run

/// How the step's command ended.
#[derive(Debug, Clone, Copy, PartialEq, Eq, Structural)]
pub enum CommandOutcome {
    /// The command exited successfully.
    Succeeded,
    /// The script ran and exited with a failure status.
    ScriptFailed,
    /// The command could not be run, or failed otherwise.
    OtherFailure,
}

/// How a step run ended well.
pub enum StepOutcome {
    /// The run type picks no command: nothing ran, nothing is counted.
    NoCommand,
    /// The command succeeded; these files changed and are to be staged.
    Completed(Vec<RelPath>),
}

/// What the caller is to do next for a step run.
pub enum StepAction {
    /// Gather the candidate files to stage from this source, each with its
    /// modification time (or none when it cannot be read).
    CollectFiles(AddSource),
    /// Run this command line through `sh -o errexit -c`; pause the progress
    /// display first (the step is interactive) when asked.
    RunCommand { command: String, pause_progress: bool },
    /// Resume the progress display when asked, then read again the
    /// modification times of these files (none when a file is gone).
    RetimeFiles { resume_progress: bool, files: Vec<RelPath> },
    /// Resume the progress display when asked, then report the failure.
    Fail { resume_progress: bool, report: FailureReport },
    /// The run is over.
    Finish(StepOutcome),
    /// The event does not fit the current phase; nothing changed.
    Ignored,
}

/// Where a step run stands.
#[derive(Debug, Clone, Copy, PartialEq, Eq, Structural)]
pub enum StepPhase {
    Collecting,
    Running,
    Retiming,
    Done,
}

/// A modification time, the Unix epoch when it cannot be read.
pub open spec fn time_or_epoch(t: Option<i128>) -> i128 {
    match t {
        Some(v) => v,
        None => 0,
    }
}

/// The candidate files with their times before the run.
pub open spec fn timed(files: Seq<(Option<i128>, RelPath)>) -> Seq<(i128, Seq<Seq<char>>)> {
    Seq::new(files.len(), |i: int| (time_or_epoch(files[i].0), files[i].1@))
}

/// The paths of timed files.
pub open spec fn timed_paths(files: Seq<(i128, Seq<Seq<char>>)>) -> Seq<Seq<Seq<char>>> {
    Seq::new(files.len(), |i: int| files[i].1)
}

/// One run of a step's command: which run type it serves, whether it is
/// interactive, its command line, and the candidate files to stage with
/// their times before the run.
pub struct StepRun {
    phase: StepPhase,
    run_type: RunType,
    interactive: bool,
    command: String,
    before: Vec<(i128, RelPath)>,
}

impl StepRun {
    pub closed spec fn phase(self) -> StepPhase {
        self.phase
    }

    pub closed spec fn run_type(self) -> RunType {
        self.run_type
    }

    pub closed spec fn interactive(self) -> bool {
        self.interactive
    }

    pub closed spec fn command(self) -> Seq<char> {
        self.command@
    }

    pub closed spec fn before(self) -> Seq<(i128, Seq<Seq<char>>)> {
        times_view(self.before@)
    }

    /// Starts a run for the command that the run type picks (`None` when
    /// there is none) behind the step's prefix.
    pub fn start(
        command: Option<&str>,
        prefix: Option<&str>,
        run_type: RunType,
        interactive: bool,
        has_stage: bool,
        has_glob: bool,
    ) -> (res: (StepRun, StepAction))
        ensures
            res.0.run_type() == run_type,
            res.0.interactive() == interactive,
            res.0.before() == Seq::<(i128, Seq<Seq<char>>)>::empty(),
            command is None ==> (res.0.phase() == StepPhase::Done
                && res.1 matches StepAction::Finish(StepOutcome::NoCommand)),
            command matches Some(c) ==> ({
                &&& res.0.phase() == StepPhase::Collecting
                &&& res.0.command() == command_text(c@, match prefix {
                    Some(p) => Some(p@),
                    None => None,
                })
                &&& res.1 == StepAction::CollectFiles(add_source_for(run_type, has_stage, has_glob))
            }),
    {
        match command {
            None => (
                StepRun { phase: StepPhase::Done, run_type, interactive, command: String::new(), before: Vec::new() },
                StepAction::Finish(StepOutcome::NoCommand),
            ),
            Some(c) => {
                let line = command_line(c, prefix);
                (
                    StepRun { phase: StepPhase::Collecting, run_type, interactive, command: line, before: Vec::new() },
                    StepAction::CollectFiles(files_to_add_source(run_type, has_stage, has_glob)),
                )
            },
        }
    }

    /// Takes in the candidate files with their times; a time that cannot
    /// be read counts as the Unix epoch. Next: run the command.
    pub fn files_collected(&mut self, files: Vec<(Option<i128>, RelPath)>) -> (res: StepAction)
        ensures
            final(self).run_type() == old(self).run_type(),
            final(self).interactive() == old(self).interactive(),
            final(self).command() == old(self).command(),
            old(self).phase() != StepPhase::Collecting ==> (*final(self) == *old(self) && res == StepAction::Ignored),
            old(self).phase() == StepPhase::Collecting ==> ({
                &&& final(self).phase() == StepPhase::Running
                &&& final(self).before() == timed(files@)
                &&& res matches StepAction::RunCommand { command, pause_progress }
                &&& command@ == old(self).command()
                &&& pause_progress == old(self).interactive()
            }),
    {
        if self.phase != StepPhase::Collecting {
            return StepAction::Ignored;
        }
        let mut before: Vec<(i128, RelPath)> = Vec::new();
        let n = files.len();
        let mut i: usize = 0;
        while i < n
            invariant
                n == files@.len(),
                i <= n,
                times_view(before@) == timed(files@).take(i as int),
            decreases n - i,
        {
            let (t, p) = &files[i];
            let time: i128 = match t {
                Some(v) => *v,
                None => 0,
            };
            let ghost prev = before@;
            before.push((time, p.duplicate()));
            proof {
                assert(times_view(before@) =~= timed(files@).take(i + 1)) by {
                    assert(timed(files@).take(i + 1) =~= timed(files@).take(i as int).push(timed(files@)[i as int]));
                    assert(times_view(before@) =~= times_view(prev).push((time, files@[i as int].1@)));
                }
            }
            i = i + 1;
        }
        assert(timed(files@).take(n as int) =~= timed(files@));
        assert(times_view(before@) =~= timed(files@));
        self.before = before;
        self.phase = StepPhase::Running;
        StepAction::RunCommand { command: self.command.clone(), pause_progress: self.interactive }
    }

    /// Takes in how the command ended. A success asks for the files'
    /// times after the run; a failure ends the run with its report. Either
    /// way an interactive step's display is resumed first.
    pub fn command_finished(&mut self, outcome: CommandOutcome) -> (res: StepAction)
        ensures
            final(self).run_type() == old(self).run_type(),
            final(self).interactive() == old(self).interactive(),
            final(self).command() == old(self).command(),
            final(self).before() == old(self).before(),
            old(self).phase() != StepPhase::Running ==> (*final(self) == *old(self) && res == StepAction::Ignored),
            old(self).phase() == StepPhase::Running && outcome == CommandOutcome::Succeeded ==> ({
                &&& final(self).phase() == StepPhase::Retiming
                &&& res matches StepAction::RetimeFiles { resume_progress, files }
                &&& resume_progress == old(self).interactive()
                &&& paths_view(files@) == timed_paths(old(self).before())
            }),
            old(self).phase() == StepPhase::Running && outcome != CommandOutcome::Succeeded ==> ({
                &&& final(self).phase() == StepPhase::Done
                &&& res == StepAction::Fail {
                    resume_progress: old(self).interactive(),
                    report: if outcome == CommandOutcome::ScriptFailed
                        && old(self).run_type() == RunType::Check(CheckType::ListFiles) {
                        FailureReport::ListFilesFailed
                    } else {
                        FailureReport::CommandFailed
                    },
                }
            }),
    {
        if self.phase != StepPhase::Running {
            return StepAction::Ignored;
        }
        match outcome {
            CommandOutcome::Succeeded => {
                let mut files: Vec<RelPath> = Vec::new();
                let n = self.before.len();
                let mut i: usize = 0;
                while i < n
                    invariant
                        n == self.before@.len(),
                        i <= n,
                        paths_view(files@) =~= timed_paths(times_view(self.before@)).take(i as int),
                    decreases n - i,
                {
                    let ghost prev = files@;
                    files.push(self.before[i].1.duplicate());
                    assert(paths_view(files@) =~= paths_view(prev).push(self.before@[i as int].1@));
                    i = i + 1;
                }
                assert(timed_paths(times_view(self.before@)).take(n as int) =~= timed_paths(times_view(self.before@)));
                self.phase = StepPhase::Retiming;
                StepAction::RetimeFiles { resume_progress: self.interactive, files }
            },
            CommandOutcome::ScriptFailed => {
                self.phase = StepPhase::Done;
                StepAction::Fail { resume_progress: self.interactive, report: failure_report(self.run_type, true) }
            },
            CommandOutcome::OtherFailure => {
                self.phase = StepPhase::Done;
                StepAction::Fail { resume_progress: self.interactive, report: failure_report(self.run_type, false) }
            },
        }
    }

    /// Takes in the files' times after the run (one for each file asked
    /// for) and ends the run with the files the command changed.
    pub fn times_read(&mut self, after: Vec<Option<i128>>) -> (res: StepAction)
        ensures
            final(self).run_type() == old(self).run_type(),
            final(self).interactive() == old(self).interactive(),
            final(self).command() == old(self).command(),
            final(self).before() == old(self).before(),
            (old(self).phase() != StepPhase::Retiming || after@.len() != old(self).before().len())
                ==> (*final(self) == *old(self) && res == StepAction::Ignored),
            (old(self).phase() == StepPhase::Retiming && after@.len() == old(self).before().len()) ==> ({
                &&& final(self).phase() == StepPhase::Done
                &&& res matches StepAction::Finish(StepOutcome::Completed(files))
                &&& paths_view(files@) == changed(old(self).before(), after@)
            }),
    {
        if self.phase != StepPhase::Retiming || after.len() != self.before.len() {
            return StepAction::Ignored;
        }
        let files = changed_files(&self.before, &after);
        self.phase = StepPhase::Done;
        StepAction::Finish(StepOutcome::Completed(files))
    }
}

/// A successful step run stages only files that it saw with a time after
/// the run later than their time before it.
pub proof fn lemma_changed_only_later(before: Seq<(i128, Seq<Seq<char>>)>, after: Seq<Option<i128>>, x: Seq<Seq<char>>)
    requires
        before.len() == after.len(),
        changed(before, after).contains(x),
    ensures
        exists|i: int| 0 <= i < before.len() && before[i].1 == x && after[i] is Some && after[i]->0 > before[i].0,
    decreases before.len(),
{
    if before.len() > 0 {
        let rest = changed(before.drop_last(), after.drop_last());
        let k = choose|k: int| 0 <= k < changed(before, after).len() && changed(before, after)[k] == x;
        let last = before.len() - 1;
        if after.last() matches Some(t) && t > before.last().0 && k == rest.len() {
            assert(before[last].1 == x);
        } else {
            assert(rest[k] == x);
            assert(rest.contains(x));
            lemma_changed_only_later(before.drop_last(), after.drop_last(), x);
            let i = choose|i: int| 0 <= i < before.drop_last().len() && before.drop_last()[i].1 == x
                && after.drop_last()[i] is Some && after.drop_last()[i]->0 > before.drop_last()[i].0;
            assert(before[i] == before.drop_last()[i]);
            assert(after[i] == after.drop_last()[i]);
        }
    }
}

} // verus!
