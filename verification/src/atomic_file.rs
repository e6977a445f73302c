//! Installing a finished file without losing the one that it replaces.
//!
//! The steps and their order are decided here; the operations on files come from
//! outside, one question or one renaming at a time.

use vstd::prelude::*;
use crate::error::{SpreadsheetError, SpreadsheetResult};

verus! {

/// A call of an operation on files: what it was given, and what came of it.
pub enum FileCall {
    /// Whether there is a file at the path.
    Asked { path: Seq<char>, there: bool },
    /// The file at one path was to get another.
    Moved { from: Seq<char>, to: Seq<char>, outcome: Result<(), Seq<char>> },
    /// The file at the path was to be removed.
    Removed { path: Seq<char>, outcome: Result<(), Seq<char>> },
}

/// What an operation came to, with the text of its failure.
pub open spec fn outcome_of(r: Result<(), String>) -> Result<(), Seq<char>> {
    match r {
        Ok(_) => Ok(()),
        Err(message) => Err(message@),
    }
}

/// The operations on files that an installation needs. Nothing is promised of
/// their outcomes; `calls` is the record of the calls that were made, and each
/// call adds itself to it.
pub trait AtomicFileOperations {
    /// The calls that were made so far.
    open spec fn calls(&self) -> Seq<FileCall> {
        arbitrary()
    }

    /// Whether there is a file.
    fn is_present(&mut self, path: &str) -> (there: bool)
        ensures
            final(self).calls() == old(self).calls().push(FileCall::Asked { path: path@, there }),
    ;

    /// Gives a file another name. On failure, what went wrong.
    fn rename(&mut self, from: &str, to: &str) -> (r: Result<(), String>)
        ensures
            final(self).calls() == old(self).calls().push(
                FileCall::Moved { from: from@, to: to@, outcome: outcome_of(r) },
            ),
    ;

    /// Removes a file. On failure, what went wrong.
    fn remove(&mut self, path: &str) -> (r: Result<(), String>)
        ensures
            final(self).calls() == old(self).calls().push(
                FileCall::Removed { path: path@, outcome: outcome_of(r) },
            ),
    ;
}

/// What an installation does next, or how it has ended.
#[derive(Debug, Clone, Copy, PartialEq, Eq, Structural)]
pub enum InstallPhase {
    /// Ask whether the destination is there.
    CheckDestination,
    /// Move the destination to the backup.
    BackUp,
    /// Move the new file to the destination.
    Install,
    /// Ask whether a destination has appeared.
    CheckAppeared,
    /// Move the destination that has appeared to the backup.
    BackUpAppeared,
    /// Move the new file to the destination once more.
    InstallAgain,
    /// Remove the backup.
    RemoveBackup,
    /// Ask whether a destination has come in the way of the backup.
    CheckRestore,
    /// Move the backup back to the destination.
    Restore,
    /// The new file is installed.
    Installed,
    /// The destination is there and may not be replaced.
    Refused,
    /// Nothing has changed.
    Failed,
    /// The backup could not be moved back.
    NotRestored,
    /// A destination has come in the way of the backup.
    Preserved,
}

/// What came of a step.
pub enum InstallEvent {
    /// The answer to the question whether a file is there.
    Answer(bool),
    /// A file has been moved or removed.
    Done,
    /// A file could not be moved or removed, for this reason.
    Fault(String),
}

/// How far an installation has come: whether the destination may be replaced, what
/// comes next, why the new file could not be moved to the destination, and why the
/// backup could not be moved back.
pub struct Installation {
    overwrite: bool,
    phase: InstallPhase,
    fault: String,
    restore_fault: String,
}

/// What an installation stands for.
pub struct InstallState {
    pub overwrite: bool,
    pub phase: InstallPhase,
    pub fault: Seq<char>,
    pub restore_fault: Seq<char>,
}

impl View for Installation {
    type V = InstallState;

    closed spec fn view(&self) -> InstallState {
        InstallState {
            overwrite: self.overwrite,
            phase: self.phase,
            fault: self.fault@,
            restore_fault: self.restore_fault@,
        }
    }
}

/// What an event stands for.
pub enum InstallNews {
    Answer(bool),
    Done,
    Fault(Seq<char>),
}

impl View for InstallEvent {
    type V = InstallNews;

    open spec fn view(&self) -> InstallNews {
        match *self {
            InstallEvent::Answer(there) => InstallNews::Answer(there),
            InstallEvent::Done => InstallNews::Done,
            InstallEvent::Fault(message) => InstallNews::Fault(message@),
        }
    }
}

/// The installation before its first step.
pub open spec fn begun(overwrite: bool) -> InstallState {
    InstallState {
        overwrite,
        phase: InstallPhase::CheckDestination,
        fault: Seq::empty(),
        restore_fault: Seq::empty(),
    }
}

impl InstallState {
    pub open spec fn is_over(self) -> bool {
        self.phase is Installed || self.phase is Refused || self.phase is Failed
            || self.phase is NotRestored || self.phase is Preserved
    }

    pub open spec fn at(self, phase: InstallPhase) -> InstallState {
        InstallState { phase, ..self }
    }

    /// The installation after what came of its step. News of another kind than the
    /// step asks for change nothing.
    pub open spec fn after(self, news: InstallNews) -> InstallState {
        match (self.phase, news) {
            (InstallPhase::CheckDestination, InstallNews::Answer(there)) => if !there {
                self.at(InstallPhase::Install)
            } else if self.overwrite {
                self.at(InstallPhase::BackUp)
            } else {
                self.at(InstallPhase::Refused)
            },
            (InstallPhase::BackUp, InstallNews::Done) => InstallState {
                phase: InstallPhase::InstallAgain,
                ..self
            },
            (InstallPhase::BackUp, InstallNews::Fault(message)) => InstallState {
                phase: InstallPhase::Failed,
                fault: message,
                ..self
            },
            (InstallPhase::Install, InstallNews::Done) => self.at(InstallPhase::Installed),
            (InstallPhase::Install, InstallNews::Fault(message)) => InstallState {
                phase: if self.overwrite {
                    InstallPhase::CheckAppeared
                } else {
                    InstallPhase::Failed
                },
                fault: message,
                ..self
            },
            (InstallPhase::CheckAppeared, InstallNews::Answer(there)) => self.at(
                if there {
                    InstallPhase::BackUpAppeared
                } else {
                    InstallPhase::Failed
                },
            ),
            (InstallPhase::BackUpAppeared, InstallNews::Done) => self.at(
                InstallPhase::InstallAgain,
            ),
            (InstallPhase::BackUpAppeared, InstallNews::Fault(message)) => InstallState {
                phase: InstallPhase::Failed,
                fault: message,
                ..self
            },
            (InstallPhase::InstallAgain, InstallNews::Done) => self.at(
                InstallPhase::RemoveBackup,
            ),
            (InstallPhase::InstallAgain, InstallNews::Fault(message)) => InstallState {
                phase: InstallPhase::CheckRestore,
                fault: message,
                ..self
            },
            (InstallPhase::RemoveBackup, InstallNews::Done) => self.at(InstallPhase::Installed),
            (InstallPhase::RemoveBackup, InstallNews::Fault(_)) => self.at(
                InstallPhase::Installed,
            ),
            (InstallPhase::CheckRestore, InstallNews::Answer(there)) => self.at(
                if there {
                    InstallPhase::Preserved
                } else {
                    InstallPhase::Restore
                },
            ),
            (InstallPhase::Restore, InstallNews::Done) => self.at(InstallPhase::Failed),
            (InstallPhase::Restore, InstallNews::Fault(message)) => InstallState {
                phase: InstallPhase::NotRestored,
                restore_fault: message,
                ..self
            },
            _ => self,
        }
    }

    /// The result of an installation that is over.
    pub open spec fn gives(
        self,
        destination: Seq<char>,
        backup: Seq<char>,
        r: SpreadsheetResult<()>,
    ) -> bool {
        match r {
            Ok(_) => self.phase is Installed,
            Err(SpreadsheetError::DestinationExists(path)) => self.phase is Refused && path@
                == destination,
            Err(SpreadsheetError::Io(message)) => self.phase is Failed && message@ == self.fault,
            Err(SpreadsheetError::Other(message)) => {
                ||| self.phase is NotRestored && message@ == "final destination install failed (I/O error: "@
                    + self.fault
                    + "), and restoring the original destination also failed ("@
                    + self.restore_fault + "). Original file remains at "@ + backup + "."@
                ||| self.phase is Preserved && message@ == "final destination install failed (I/O error: "@
                    + self.fault
                    + "). A concurrent destination was preserved; the original file remains at "@
                    + backup + "."@
            },
            Err(_) => false,
        }
    }

    /// How many steps are still to come at most.
    pub open spec fn steps_left(self) -> nat {
        match self.phase {
            InstallPhase::CheckDestination => 9,
            InstallPhase::BackUp => 8,
            InstallPhase::Install => 8,
            InstallPhase::CheckAppeared => 7,
            InstallPhase::BackUpAppeared => 6,
            InstallPhase::InstallAgain => 5,
            InstallPhase::RemoveBackup => 1,
            InstallPhase::CheckRestore => 2,
            InstallPhase::Restore => 1,
            _ => 0,
        }
    }
}

impl Installation {
    /// An installation before its first step.
    pub fn new(overwrite: bool) -> (r: Self)
        ensures
            r@ == begun(overwrite),
    {
        let r = Installation {
            overwrite,
            phase: InstallPhase::CheckDestination,
            fault: String::new(),
            restore_fault: String::new(),
        };
        assert(r@.fault =~= Seq::<char>::empty());
        assert(r@.restore_fault =~= Seq::<char>::empty());
        r
    }

    /// What comes next.
    pub fn phase(&self) -> (phase: InstallPhase)
        ensures
            phase == self@.phase,
    {
        self.phase
    }

    /// Goes on after what came of a step.
    pub fn advance(&mut self, event: InstallEvent)
        ensures
            final(self)@ == old(self)@.after(event@),
    {
        match event {
            InstallEvent::Answer(there) => match self.phase {
                InstallPhase::CheckDestination => {
                    self.phase = if !there {
                        InstallPhase::Install
                    } else if self.overwrite {
                        InstallPhase::BackUp
                    } else {
                        InstallPhase::Refused
                    };
                },
                InstallPhase::CheckAppeared => {
                    self.phase = if there {
                        InstallPhase::BackUpAppeared
                    } else {
                        InstallPhase::Failed
                    };
                },
                InstallPhase::CheckRestore => {
                    self.phase = if there {
                        InstallPhase::Preserved
                    } else {
                        InstallPhase::Restore
                    };
                },
                _ => {},
            },
            InstallEvent::Done => match self.phase {
                InstallPhase::BackUp | InstallPhase::BackUpAppeared => {
                    self.phase = InstallPhase::InstallAgain;
                },
                InstallPhase::Install | InstallPhase::RemoveBackup => {
                    self.phase = InstallPhase::Installed;
                },
                InstallPhase::InstallAgain => {
                    self.phase = InstallPhase::RemoveBackup;
                },
                InstallPhase::Restore => {
                    self.phase = InstallPhase::Failed;
                },
                _ => {},
            },
            InstallEvent::Fault(message) => match self.phase {
                InstallPhase::BackUp | InstallPhase::BackUpAppeared => {
                    self.phase = InstallPhase::Failed;
                    self.fault = message;
                },
                InstallPhase::Install => {
                    self.phase = if self.overwrite {
                        InstallPhase::CheckAppeared
                    } else {
                        InstallPhase::Failed
                    };
                    self.fault = message;
                },
                InstallPhase::InstallAgain => {
                    self.phase = InstallPhase::CheckRestore;
                    self.fault = message;
                },
                InstallPhase::RemoveBackup => {
                    self.phase = InstallPhase::Installed;
                },
                InstallPhase::Restore => {
                    self.phase = InstallPhase::NotRestored;
                    self.restore_fault = message;
                },
                _ => {},
            },
        }
    }

    /// The result of an installation that is over.
    pub fn result(self, destination: &str, backup: &str) -> (r: SpreadsheetResult<()>)
        requires
            self@.is_over(),
        ensures
            self@.gives(destination@, backup@, r),
    {
        match self.phase {
            InstallPhase::Installed => Ok(()),
            InstallPhase::Refused => Err(
                SpreadsheetError::DestinationExists(destination.to_owned()),
            ),
            InstallPhase::NotRestored => {
                let mut s = "final destination install failed (I/O error: ".to_owned();
                s.append(self.fault.as_str());
                s.append("), and restoring the original destination also failed (");
                s.append(self.restore_fault.as_str());
                s.append("). Original file remains at ");
                s.append(backup);
                s.append(".");
                Err(SpreadsheetError::Other(s))
            },
            InstallPhase::Preserved => {
                let mut s = "final destination install failed (I/O error: ".to_owned();
                s.append(self.fault.as_str());
                s.append(
                    "). A concurrent destination was preserved; the original file remains at ",
                );
                s.append(backup);
                s.append(".");
                Err(SpreadsheetError::Other(s))
            },
            _ => Err(SpreadsheetError::Io(self.fault)),
        }
    }
}

/// What the outcome of an operation says to an installation.
pub open spec fn news_of(outcome: Result<(), Seq<char>>) -> InstallNews {
    match outcome {
        Ok(_) => InstallNews::Done,
        Err(message) => InstallNews::Fault(message),
    }
}

fn outcome_event(outcome: Result<(), String>) -> (event: InstallEvent)
    ensures
        event@ == news_of(outcome_of(outcome)),
{
    match outcome {
        Ok(_) => InstallEvent::Done,
        Err(message) => InstallEvent::Fault(message),
    }
}

/// The three paths that an installation deals with.
pub struct InstallPaths {
    pub temporary: Seq<char>,
    pub destination: Seq<char>,
    pub backup: Seq<char>,
}

impl InstallPaths {
    /// The call is the one that a phase asks for.
    pub open spec fn asked_by(self, phase: InstallPhase, call: FileCall) -> bool {
        match phase {
            InstallPhase::CheckDestination
            | InstallPhase::CheckAppeared
            | InstallPhase::CheckRestore => call matches FileCall::Asked { path, .. } && path
                == self.destination,
            InstallPhase::BackUp
            | InstallPhase::BackUpAppeared => call matches FileCall::Moved { from, to, .. } && from
                == self.destination && to == self.backup,
            InstallPhase::Install
            | InstallPhase::InstallAgain => call matches FileCall::Moved { from, to, .. } && from
                == self.temporary && to == self.destination,
            InstallPhase::RemoveBackup => call matches FileCall::Removed { path, .. } && path
                == self.backup,
            InstallPhase::Restore => call matches FileCall::Moved { from, to, .. } && from
                == self.backup && to == self.destination,
            _ => false,
        }
    }
}

/// What a call says to an installation.
pub open spec fn news_in(call: FileCall) -> InstallNews {
    match call {
        FileCall::Asked { there, .. } => InstallNews::Answer(there),
        FileCall::Moved { outcome, .. } => news_of(outcome),
        FileCall::Removed { outcome, .. } => news_of(outcome),
    }
}

/// The installation after the first `n` of some calls.
pub open spec fn state_after(start: InstallState, calls: Seq<FileCall>, n: nat) -> InstallState
    decreases n,
{
    if n == 0 {
        start
    } else {
        state_after(start, calls, (n - 1) as nat).after(news_in(calls[n - 1]))
    }
}

/// A call is the one that the phase before it asks for.
pub open spec fn is_step(
    start: InstallState,
    paths: InstallPaths,
    calls: Seq<FileCall>,
    i: int,
) -> bool {
    paths.asked_by(state_after(start, calls, i as nat).phase, calls[i])
}

/// The calls are those of an installation from its first step on.
pub open spec fn are_steps(start: InstallState, paths: InstallPaths, calls: Seq<FileCall>) -> bool {
    forall|i: int| 0 <= i < calls.len() ==> #[trigger] is_step(start, paths, calls, i)
}

/// The calls are those of an installation from its first step to its end, and the
/// result is the one that it ends with.
pub open spec fn is_installation(
    overwrite: bool,
    paths: InstallPaths,
    calls: Seq<FileCall>,
    r: SpreadsheetResult<()>,
) -> bool {
    let end = state_after(begun(overwrite), calls, calls.len());
    &&& are_steps(begun(overwrite), paths, calls)
    &&& end.is_over()
    &&& end.gives(paths.destination, paths.backup, r)
}

proof fn lemma_state_prefix(start: InstallState, calls: Seq<FileCall>, call: FileCall, n: nat)
    requires
        n <= calls.len(),
    ensures
        state_after(start, calls.push(call), n) == state_after(start, calls, n),
    decreases n,
{
    if n > 0 {
        lemma_state_prefix(start, calls, call, (n - 1) as nat);
    }
}

/// One more step.
proof fn lemma_step(
    start: InstallState,
    paths: InstallPaths,
    calls: Seq<FileCall>,
    call: FileCall,
)
    requires
        are_steps(start, paths, calls),
        paths.asked_by(state_after(start, calls, calls.len()).phase, call),
    ensures
        are_steps(start, paths, calls.push(call)),
        state_after(start, calls.push(call), calls.len() + 1) == state_after(
            start,
            calls,
            calls.len(),
        ).after(news_in(call)),
{
    let more = calls.push(call);
    lemma_state_prefix(start, calls, call, calls.len());
    assert forall|i: int| 0 <= i < more.len() implies #[trigger] is_step(start, paths, more, i) by {
        lemma_state_prefix(start, calls, call, i as nat);
        if i < calls.len() {
            assert(is_step(start, paths, calls, i));
        }
    }
}

/// Installs a temporary file at its destination. A destination that is there is
/// moved to the backup and removed only once the new file is in its place; where
/// it may not be replaced, nothing is done.
///
/// The operations are called for the steps of the installation and for nothing
/// else, each with the paths of its step.
pub fn install_temporary_output<O: AtomicFileOperations>(
    temporary_path: &str,
    destination_path: &str,
    backup_path: &str,
    overwrite: bool,
    ops: &mut O,
) -> (r: SpreadsheetResult<()>)
    ensures
        ({
            let paths = InstallPaths {
                temporary: temporary_path@,
                destination: destination_path@,
                backup: backup_path@,
            };
            let before = old(ops).calls();
            let after = final(ops).calls();
            &&& before.is_prefix_of(after)
            &&& is_installation(overwrite, paths, after.skip(before.len() as int), r)
        }),
{
    let mut installation = Installation::new(overwrite);
    let ghost paths = InstallPaths {
        temporary: temporary_path@,
        destination: destination_path@,
        backup: backup_path@,
    };
    let ghost before = ops.calls();
    let ghost mut made: Seq<FileCall> = Seq::empty();
    assert(before + made =~= before);
    loop
        invariant_except_break
            paths == (InstallPaths {
                temporary: temporary_path@,
                destination: destination_path@,
                backup: backup_path@,
            }),
            ops.calls() == before + made,
            are_steps(begun(overwrite), paths, made),
            installation@ == state_after(begun(overwrite), made, made.len()),
        ensures
            ops.calls() == before + made,
            are_steps(begun(overwrite), paths, made),
            installation@ == state_after(begun(overwrite), made, made.len()),
            installation@.is_over(),
        decreases installation@.steps_left(),
    {
        let event = match installation.phase() {
            InstallPhase::CheckDestination
            | InstallPhase::CheckAppeared
            | InstallPhase::CheckRestore => InstallEvent::Answer(
                ops.is_present(destination_path),
            ),
            InstallPhase::BackUp | InstallPhase::BackUpAppeared => outcome_event(
                ops.rename(destination_path, backup_path),
            ),
            InstallPhase::Install | InstallPhase::InstallAgain => outcome_event(
                ops.rename(temporary_path, destination_path),
            ),
            InstallPhase::RemoveBackup => outcome_event(ops.remove(backup_path)),
            InstallPhase::Restore => outcome_event(ops.rename(backup_path, destination_path)),
            _ => {
                break;
            },
        };
        proof {
            let call = ops.calls().last();
            lemma_step(begun(overwrite), paths, made, call);
            assert(ops.calls() =~= before + made.push(call));
            made = made.push(call);
        }
        installation.advance(event);
    }
    proof {
        assert(ops.calls().skip(before.len() as int) =~= made);
        assert(before.is_prefix_of(ops.calls()));
    }
    installation.result(destination_path, backup_path)
}

/// The files by their paths, each with what it holds.
pub open spec fn files_after(files: Map<Seq<char>, int>, call: FileCall) -> Map<Seq<char>, int> {
    match call {
        FileCall::Moved { from, to, outcome: Ok(_) } => files.remove(from).insert(to, files[from]),
        FileCall::Removed { path, outcome: Ok(_) } => files.remove(path),
        _ => files,
    }
}

/// What can come of a call: a question is answered truly, and a file that was moved
/// was there.
pub open spec fn can_come(files: Map<Seq<char>, int>, call: FileCall) -> bool {
    match call {
        FileCall::Asked { path, there } => there == files.contains_key(path),
        FileCall::Moved { from, outcome: Ok(_), .. } => files.contains_key(from),
        _ => true,
    }
}

/// The files after the first `n` of some calls.
pub open spec fn files_left(files: Map<Seq<char>, int>, calls: Seq<FileCall>, n: nat) -> Map<
    Seq<char>,
    int,
>
    decreases n,
{
    if n == 0 {
        files
    } else {
        files_after(files_left(files, calls, (n - 1) as nat), calls[n - 1])
    }
}

/// What came of a call can come of it after the calls before it.
pub open spec fn comes_about(files: Map<Seq<char>, int>, calls: Seq<FileCall>, i: int) -> bool {
    can_come(files_left(files, calls, i as nat), calls[i])
}

/// Everything came of the calls as it can, with nobody else touching the files.
pub open spec fn are_undisturbed(files: Map<Seq<char>, int>, calls: Seq<FileCall>) -> bool {
    forall|i: int| 0 <= i < calls.len() ==> #[trigger] comes_about(files, calls, i)
}

/// What a path holds, if anything.
pub open spec fn held(files: Map<Seq<char>, int>, path: Seq<char>) -> Option<int> {
    if files.contains_key(path) {
        Some(files[path])
    } else {
        None
    }
}

/// What holds of the files at each phase: `original` stood at the destination.
spec fn is_consistent(
    state: InstallState,
    destination: Option<int>,
    backup: Option<int>,
    temporary: Option<int>,
    original: Option<int>,
    new: int,
) -> bool {
    match state.phase {
        InstallPhase::CheckDestination => destination == original && temporary == Some(new)
            && backup is None,
        InstallPhase::BackUp => state.overwrite && destination == original && original is Some
            && temporary == Some(new) && backup is None,
        InstallPhase::Install | InstallPhase::CheckAppeared => original is None
            && destination is None && temporary == Some(new) && backup is None,
        InstallPhase::BackUpAppeared => false,
        InstallPhase::InstallAgain | InstallPhase::CheckRestore => state.overwrite
            && destination is None && backup == original && original is Some && temporary == Some(
            new,
        ),
        InstallPhase::Restore | InstallPhase::NotRestored => state.overwrite
            && destination is None && backup == original && original is Some && temporary == Some(
            new,
        ),
        InstallPhase::RemoveBackup => state.overwrite && destination == Some(new),
        InstallPhase::Installed => (state.overwrite || original is None) && destination == Some(
            new,
        ),
        InstallPhase::Refused => !state.overwrite && original is Some && destination == original
            && temporary == Some(new),
        InstallPhase::Failed => destination == original && temporary == Some(new),
        InstallPhase::Preserved => false,
    }
}

/// The three paths differ.
pub open spec fn are_distinct(paths: InstallPaths) -> bool {
    &&& paths.temporary != paths.destination
    &&& paths.temporary != paths.backup
    &&& paths.destination != paths.backup
}

#[verifier::spinoff_prover]
proof fn lemma_run(
    overwrite: bool,
    paths: InstallPaths,
    files: Map<Seq<char>, int>,
    calls: Seq<FileCall>,
    n: nat,
)
    requires
        n <= calls.len(),
        are_distinct(paths),
        files.contains_key(paths.temporary),
        !files.contains_key(paths.backup),
        are_steps(begun(overwrite), paths, calls),
        are_undisturbed(files, calls),
    ensures
        ({
            let end = files_left(files, calls, n);
            let state = state_after(begun(overwrite), calls, n);
            &&& is_consistent(
                state,
                held(end, paths.destination),
                held(end, paths.backup),
                held(end, paths.temporary),
                held(files, paths.destination),
                files[paths.temporary],
            )
            &&& state.overwrite == overwrite
            &&& forall|path: Seq<char>|
                path != paths.temporary && path != paths.destination && path != paths.backup
                    ==> #[trigger] held(end, path) == held(files, path)
        }),
    decreases n,
{
    if n > 0 {
        let m = (n - 1) as nat;
        lemma_run(overwrite, paths, files, calls, m);
        let call = calls[n - 1];
        assert(is_step(begun(overwrite), paths, calls, m as int));
        assert(comes_about(files, calls, m as int));
        let before = files_left(files, calls, m);
        let end = files_left(files, calls, n);
        assert(end == files_after(before, call));
        assert forall|path: Seq<char>|
            path != paths.temporary && path != paths.destination && path != paths.backup implies
            #[trigger] held(end, path) == held(files, path) by {
            assert(held(before, path) == held(files, path));
        }
    }
}

/// An installation that nobody interferes with loses nothing, whichever of its
/// steps fail: either the new file stands at the destination, or it still is the
/// temporary file and the file that was at the destination stands there or at the
/// backup. A destination that may not be replaced stays where it is, and so does
/// every other file.
pub proof fn law_nothing_is_lost(
    overwrite: bool,
    paths: InstallPaths,
    files: Map<Seq<char>, int>,
    calls: Seq<FileCall>,
    r: SpreadsheetResult<()>,
)
    requires
        are_distinct(paths),
        files.contains_key(paths.temporary),
        !files.contains_key(paths.backup),
        is_installation(overwrite, paths, calls, r),
        are_undisturbed(files, calls),
    ensures
        ({
            let end = files_left(files, calls, calls.len());
            let original = held(files, paths.destination);
            let new = Some(files[paths.temporary]);
            &&& r is Ok ==> held(end, paths.destination) == new
            &&& r is Err ==> held(end, paths.temporary) == new && (held(end, paths.destination)
                == original || held(end, paths.backup) == original)
            &&& r matches Err(SpreadsheetError::Io(_)) ==> held(end, paths.destination) == original
            &&& original is Some && !overwrite ==> held(end, paths.destination) == original
            &&& forall|path: Seq<char>|
                path != paths.temporary && path != paths.destination && path != paths.backup
                    ==> #[trigger] held(end, path) == held(files, path)
        }),
{
    lemma_run(overwrite, paths, files, calls, calls.len());
}

/// Whatever comes of the calls and whoever else touches the files, an installation
/// removes nothing but the backup, moves nothing but the new file, the destination
/// and the backup, and moves the destination only onto the backup.
pub proof fn law_only_the_backup_is_removed(
    overwrite: bool,
    paths: InstallPaths,
    calls: Seq<FileCall>,
    i: int,
)
    requires
        are_steps(begun(overwrite), paths, calls),
        0 <= i < calls.len(),
    ensures
        match calls[i] {
            FileCall::Asked { path, .. } => path == paths.destination,
            FileCall::Removed { path, .. } => path == paths.backup,
            FileCall::Moved { from, to, .. } => {
                ||| from == paths.destination && to == paths.backup
                ||| from == paths.temporary && to == paths.destination
                ||| from == paths.backup && to == paths.destination
            },
        },
{
    assert(is_step(begun(overwrite), paths, calls, i));
}

/// An installation that may not replace what stands at the destination asks once
/// and does nothing else.
pub proof fn law_refusal_touches_nothing(
    paths: InstallPaths,
    calls: Seq<FileCall>,
    r: SpreadsheetResult<()>,
)
    requires
        is_installation(false, paths, calls, r),
        calls.len() > 0,
        calls[0] == (FileCall::Asked { path: paths.destination, there: true }),
    ensures
        calls.len() == 1,
        r matches Err(SpreadsheetError::DestinationExists(path)) && path@ == paths.destination,
{
    let start = begun(false);
    reveal_with_fuel(state_after, 3);
    assert(state_after(start, calls, 1).phase is Refused);
    if calls.len() > 1 {
        assert(is_step(start, paths, calls, 1));
    }
}

/// A file has been moved.
pub open spec fn moves(call: FileCall, from: Seq<char>, to: Seq<char>) -> bool {
    call matches FileCall::Moved { from: a, to: b, outcome: Ok(_) } && a == from && b == to
}

/// Where no renaming fails and the destination may be replaced or is not there, the
/// calls are these and the result is success, whatever comes of the removal.
pub proof fn law_installation_succeeds(
    overwrite: bool,
    paths: InstallPaths,
    calls: Seq<FileCall>,
    r: SpreadsheetResult<()>,
    there: bool,
)
    requires
        is_installation(overwrite, paths, calls, r),
        calls.len() > 0,
        calls[0] == (FileCall::Asked { path: paths.destination, there }),
        overwrite || !there,
        forall|i: int|
            0 <= i < calls.len() ==> (#[trigger] calls[i] matches FileCall::Moved { outcome, .. }
                ==> outcome is Ok),
    ensures
        r is Ok,
        !there ==> calls.len() == 2 && moves(calls[1], paths.temporary, paths.destination),
        there ==> {
            &&& calls.len() == 4
            &&& moves(calls[1], paths.destination, paths.backup)
            &&& moves(calls[2], paths.temporary, paths.destination)
            &&& calls[3] matches FileCall::Removed { path, .. } && path == paths.backup
        },
{
    let start = begun(overwrite);
    reveal_with_fuel(state_after, 6);
    assert(calls.len() > 1);
    assert(is_step(start, paths, calls, 1));
    if there {
        assert(state_after(start, calls, 2).phase is InstallAgain);
        assert(calls.len() > 2);
        assert(is_step(start, paths, calls, 2));
        assert(state_after(start, calls, 3).phase is RemoveBackup);
        assert(calls.len() > 3);
        assert(is_step(start, paths, calls, 3));
        assert(state_after(start, calls, 4).phase is Installed);
        if calls.len() > 4 {
            assert(is_step(start, paths, calls, 4));
        }
    } else {
        assert(state_after(start, calls, 2).phase is Installed);
        if calls.len() > 2 {
            assert(is_step(start, paths, calls, 2));
        }
    }
}

/// Where the destination has been moved to the backup and the new file cannot be
/// moved into its place, nothing is removed. If no destination has come in the way
/// the backup is moved back, and the result is the failure; if one has, it and the
/// backup stay as they are.
pub proof fn law_destination_is_restored(
    paths: InstallPaths,
    calls: Seq<FileCall>,
    r: SpreadsheetResult<()>,
    fault: Seq<char>,
)
    requires
        is_installation(true, paths, calls, r),
        calls.len() > 2,
        calls[0] == (FileCall::Asked { path: paths.destination, there: true }),
        moves(calls[1], paths.destination, paths.backup),
        calls[2] == (FileCall::Moved {
            from: paths.temporary,
            to: paths.destination,
            outcome: Err(fault),
        }),
    ensures
        r is Err,
        calls.len() > 3,
        calls[3] matches FileCall::Asked { path, there } && path == paths.destination && if there {
            calls.len() == 4 && r matches Err(SpreadsheetError::Other(_))
        } else {
            &&& calls.len() == 5
            &&& calls[4] matches FileCall::Moved { from, to, outcome } && from == paths.backup && to
                == paths.destination && match outcome {
                Ok(_) => r matches Err(SpreadsheetError::Io(message)) && message@ == fault,
                Err(_) => r matches Err(SpreadsheetError::Other(_)),
            }
        },
{
    let start = begun(true);
    reveal_with_fuel(state_after, 7);
    assert(state_after(start, calls, 3).phase is CheckRestore);
    assert(calls.len() > 3);
    assert(is_step(start, paths, calls, 3));
    let fourth = state_after(start, calls, 4);
    if fourth.phase is Preserved {
        if calls.len() > 4 {
            assert(is_step(start, paths, calls, 4));
        }
    } else {
        assert(fourth.phase is Restore);
        assert(calls.len() > 4);
        assert(is_step(start, paths, calls, 4));
        if calls.len() > 5 {
            assert(is_step(start, paths, calls, 5));
        }
    }
}

} // verus!
