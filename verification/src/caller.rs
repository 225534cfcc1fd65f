//! One call of the utility, and the order in which it is locked, run and released.
//!
//! A utility that cannot wait for its own lock is run under a lock file that every caller
//! on the machine shares. The caller here decides; the program around it opens the file,
//! tries the lock, runs the utility and reports back what happened.

use crate::error::{ErrorView, RIPTError, RIPTResult};
use crate::text::{lossy_of, text_lossy};
use vstd::prelude::*;

verus! {

/// How one attempt to take the lock, without waiting, ended.
#[derive(Debug, Clone, Copy, PartialEq, Eq, Structural)]
pub enum LockAttempt {
    /// The lock is taken.
    Acquired,
    /// Another caller holds the lock.
    Contended,
    /// The attempt failed with this error number.
    Failed(i32),
}

/// What the utility left behind when it ended.
#[derive(Debug, Clone, PartialEq, Eq)]
pub struct Exit {
    /// Its exit code; none if a signal ended it.
    pub code: Option<i32>,
    /// What it wrote to its output stream.
    pub stdout: String,
    /// What it wrote to its error stream.
    pub stderr: String,
}

/// What has just happened to a call.
#[derive(Debug, Clone, PartialEq, Eq)]
pub enum CallEvent {
    /// The call is asked for.
    Begin,
    /// The lock file is open.
    LockFileOpened,
    /// The lock file could not be opened; the system's message is given.
    LockFileRefused(String),
    /// An attempt to take the lock has ended.
    Lock(LockAttempt),
    /// The utility has run and ended.
    Exited(Exit),
    /// The utility could not be started; the system's message is given.
    NotStarted(String),
}

/// What is to be done next for a call.
#[derive(Debug, PartialEq, Eq)]
pub enum CallAction {
    /// Open the lock file of this path, making it if there is none.
    OpenLockFile(&'static str),
    /// Try once, without waiting, to take the lock on the open file for this call alone.
    TryLock,
    /// Run the program with these arguments and wait until it ends.
    Run(&'static str, Vec<String>),
    /// Close the lock file if it is open, and hand this result to whoever asked.
    Return(RIPTResult<(i32, String)>),
}

/// How far a call has come.
#[derive(Debug, Clone, Copy, PartialEq, Eq, Structural)]
pub enum CallPhase {
    /// Not begun.
    Fresh,
    /// The lock file is being opened.
    Opening,
    /// The lock is being tried.
    Locking,
    /// The utility runs.
    Running,
    /// The result has been handed out.
    Over,
}

/// One call of the utility.
#[derive(Debug)]
pub struct IptablesCaller {
    program: &'static str,
    args: Vec<String>,
    has_wait: bool,
    phase: CallPhase,
    locked: bool,
}

/// What the utility left behind, as plain values.
pub struct ExitView {
    pub code: Option<i32>,
    pub stdout: Seq<char>,
    pub stderr: Seq<char>,
}

/// An event as plain values.
pub enum EventView {
    Begin,
    LockFileOpened,
    LockFileRefused(Seq<char>),
    Lock(LockAttempt),
    Exited(ExitView),
    NotStarted(Seq<char>),
}

/// An action as plain values.
pub enum ActionView {
    OpenLockFile(Seq<char>),
    TryLock,
    Run(Seq<char>, Seq<Seq<char>>),
    Return(Result<(i32, Seq<char>), ErrorView>),
}

/// A call as plain values.
pub struct CallerView {
    /// The name of the utility.
    pub program: Seq<char>,
    /// The arguments that the call was made with.
    pub args: Seq<Seq<char>>,
    /// Whether the utility can wait for its own lock.
    pub has_wait: bool,
    /// How far the call has come.
    pub phase: CallPhase,
    /// Whether the call holds the lock on the lock file.
    pub locked: bool,
}

impl View for Exit {
    type V = ExitView;

    open spec fn view(&self) -> ExitView {
        ExitView { code: self.code, stdout: self.stdout@, stderr: self.stderr@ }
    }
}

impl View for CallEvent {
    type V = EventView;

    open spec fn view(&self) -> EventView {
        match *self {
            CallEvent::Begin => EventView::Begin,
            CallEvent::LockFileOpened => EventView::LockFileOpened,
            CallEvent::LockFileRefused(message) => EventView::LockFileRefused(message@),
            CallEvent::Lock(attempt) => EventView::Lock(attempt),
            CallEvent::Exited(exit) => EventView::Exited(exit@),
            CallEvent::NotStarted(message) => EventView::NotStarted(message@),
        }
    }
}

/// The result of a call as plain values.
pub open spec fn result_view(result: RIPTResult<(i32, String)>) -> Result<
    (i32, Seq<char>),
    ErrorView,
> {
    match result {
        Ok((code, text)) => Ok((code, text@)),
        Err(error) => Err(error@),
    }
}

impl View for CallAction {
    type V = ActionView;

    open spec fn view(&self) -> ActionView {
        match *self {
            CallAction::OpenLockFile(path) => ActionView::OpenLockFile(path@),
            CallAction::TryLock => ActionView::TryLock,
            CallAction::Run(program, args) => ActionView::Run(program@, args.deep_view()),
            CallAction::Return(result) => ActionView::Return(result_view(result)),
        }
    }
}

impl View for IptablesCaller {
    type V = CallerView;

    closed spec fn view(&self) -> CallerView {
        CallerView {
            program: self.program@,
            args: self.args.deep_view(),
            has_wait: self.has_wait,
            phase: self.phase,
            locked: self.locked,
        }
    }
}

/// The path of the lock file that the callers of one machine share.
pub open spec fn lock_path_of() -> Seq<char> {
    "/var/run/xtables_old.lock"@
}

/// The option with which the utility waits for its own lock.
pub open spec fn wait_flag_of() -> Seq<char> {
    "--wait"@
}

/// What is said of an event that the call was not waiting for.
pub open spec fn out_of_turn_of() -> Seq<char> {
    "the call was not waiting for this"@
}

/// What is said of a utility that a signal ended.
pub open spec fn no_code_of() -> Seq<char> {
    "None output code"@
}

/// A call before it is begun.
pub open spec fn fresh_call(program: Seq<char>, args: Seq<Seq<char>>, has_wait: bool) -> CallerView {
    CallerView { program, args, has_wait, phase: CallPhase::Fresh, locked: false }
}

/// What a call that has ended gives: the code and the output stream if the code is
/// zero, the code and the error stream if it is not, and a failure if there is no code.
pub open spec fn outcome_of(exit: ExitView) -> Result<(i32, Seq<char>), ErrorView> {
    match exit.code {
        Some(code) => if code == 0 {
            Ok((0i32, exit.stdout))
        } else {
            Ok((code, exit.stderr))
        },
        None => Err(ErrorView::Other(no_code_of())),
    }
}

/// The call once it has handed out `result`: over, and without the lock.
pub open spec fn ended(
    s: CallerView,
    result: Result<(i32, Seq<char>), ErrorView>,
) -> (CallerView, ActionView) {
    (CallerView { phase: CallPhase::Over, locked: false, ..s }, ActionView::Return(result))
}

/// What a call does next, and what becomes of it.
///
/// A utility that waits for its own lock is run at once, with the option that makes it
/// wait. Any other is run only once the lock file is open and its lock is taken; while
/// another caller holds the lock the attempt is made again, as often as it takes. When
/// the utility has ended, the lock is given up and the result is handed out. A failure
/// to open the file, to take the lock or to start the utility ends the call; so does an
/// event that the call was not waiting for.
pub open spec fn call_step(s: CallerView, event: EventView) -> (CallerView, ActionView) {
    match (s.phase, event) {
        (CallPhase::Fresh, EventView::Begin) => if s.has_wait {
            (
                CallerView { phase: CallPhase::Running, ..s },
                ActionView::Run(s.program, s.args.push(wait_flag_of())),
            )
        } else {
            (CallerView { phase: CallPhase::Opening, ..s }, ActionView::OpenLockFile(lock_path_of()))
        },
        (CallPhase::Opening, EventView::LockFileOpened) => (
            CallerView { phase: CallPhase::Locking, ..s },
            ActionView::TryLock,
        ),
        (CallPhase::Opening, EventView::LockFileRefused(message)) => ended(
            s,
            Err(ErrorView::Io(message)),
        ),
        (CallPhase::Locking, EventView::Lock(LockAttempt::Acquired)) => (
            CallerView { phase: CallPhase::Running, locked: true, ..s },
            ActionView::Run(s.program, s.args),
        ),
        (CallPhase::Locking, EventView::Lock(LockAttempt::Contended)) => (s, ActionView::TryLock),
        (CallPhase::Locking, EventView::Lock(LockAttempt::Failed(errno))) => ended(
            s,
            Err(ErrorView::Nix(errno)),
        ),
        (CallPhase::Running, EventView::Exited(exit)) => ended(s, outcome_of(exit)),
        (CallPhase::Running, EventView::NotStarted(message)) => ended(
            s,
            Err(ErrorView::Io(message)),
        ),
        _ => ended(s, Err(ErrorView::Other(out_of_turn_of()))),
    }
}

/// What holds of a call at every moment: it holds the lock exactly while it runs a
/// utility that cannot wait for its own, and it has to do with the lock file only for
/// such a utility.
pub open spec fn call_wf(s: CallerView) -> bool {
    &&& s.locked <==> (s.phase is Running && !s.has_wait)
    &&& (s.phase is Opening || s.phase is Locking) ==> !s.has_wait
}

/// The result of a call that has ended.
pub fn outcome(exit: Exit) -> (result: RIPTResult<(i32, String)>)
    ensures
        result_view(result) == outcome_of(exit@),
{
    match exit.code {
        Some(0) => Ok((0, exit.stdout)),
        Some(code) => Ok((code, exit.stderr)),
        None => Err(RIPTError::Other("None output code")),
    }
}

impl Exit {
    /// What the utility left behind, its two streams read as text: bytes in them that are
    /// no UTF-8 are replaced, not refused.
    pub fn from_bytes(code: Option<i32>, stdout: &[u8], stderr: &[u8]) -> (exit: Exit)
        ensures
            exit@ == (ExitView {
                code: code,
                stdout: lossy_of(stdout@),
                stderr: lossy_of(stderr@),
            }),
    {
        Exit { code, stdout: text_lossy(stdout), stderr: text_lossy(stderr) }
    }
}

impl IptablesCaller {
    /// A call of `program` with `args`, not yet begun.
    pub fn new(program: &'static str, args: Vec<String>, has_wait: bool) -> (caller: IptablesCaller)
        ensures
            caller@ == fresh_call(program@, args.deep_view(), has_wait),
            call_wf(caller@),
    {
        IptablesCaller { program, args, has_wait, phase: CallPhase::Fresh, locked: false }
    }

    /// Whether the call holds the lock.
    pub fn is_locked(&self) -> (locked: bool)
        ensures
            locked == self@.locked,
    {
        self.locked
    }

    /// Whether the result has been handed out.
    pub fn is_over(&self) -> (over: bool)
        ensures
            over == (self@.phase is Over),
    {
        match self.phase {
            CallPhase::Over => true,
            _ => false,
        }
    }

    /// Ends the call with `result`.
    fn end(&mut self, result: RIPTResult<(i32, String)>) -> (action: CallAction)
        ensures
            (final(self)@, action@) == ended(old(self)@, result_view(result)),
    {
        self.phase = CallPhase::Over;
        self.locked = false;
        CallAction::Return(result)
    }

    /// Takes what has just happened and says what is to be done next.
    pub fn step(&mut self, event: CallEvent) -> (action: CallAction)
        ensures
            (final(self)@, action@) == call_step(old(self)@, event@),
            call_wf(old(self)@) ==> call_wf(final(self)@),
    {
        match (self.phase, event) {
            (CallPhase::Fresh, CallEvent::Begin) => {
                if self.has_wait {
                    let mut args = self.args.clone();
                    let flag = str::to_owned("--wait");
                    args.push(flag);
                    assert(args.deep_view() =~= self.args.deep_view().push(wait_flag_of()));
                    self.phase = CallPhase::Running;
                    CallAction::Run(self.program, args)
                } else {
                    self.phase = CallPhase::Opening;
                    CallAction::OpenLockFile("/var/run/xtables_old.lock")
                }
            },
            (CallPhase::Opening, CallEvent::LockFileOpened) => {
                self.phase = CallPhase::Locking;
                CallAction::TryLock
            },
            (CallPhase::Opening, CallEvent::LockFileRefused(message)) => self.end(
                Err(RIPTError::Io(message)),
            ),
            (CallPhase::Locking, CallEvent::Lock(LockAttempt::Acquired)) => {
                let args = self.args.clone();
                assert(args.deep_view() =~= self.args.deep_view());
                self.phase = CallPhase::Running;
                self.locked = true;
                CallAction::Run(self.program, args)
            },
            (CallPhase::Locking, CallEvent::Lock(LockAttempt::Contended)) => CallAction::TryLock,
            (CallPhase::Locking, CallEvent::Lock(LockAttempt::Failed(errno))) => self.end(
                Err(RIPTError::Nix(errno)),
            ),
            (CallPhase::Running, CallEvent::Exited(exit)) => {
                let result = outcome(exit);
                self.end(result)
            },
            (CallPhase::Running, CallEvent::NotStarted(message)) => self.end(
                Err(RIPTError::Io(message)),
            ),
            _ => self.end(Err(RIPTError::Other("the call was not waiting for this"))),
        }
    }
}

/// A call that is not begun is in order, and every step keeps a call in order.
pub proof fn lemma_call_stays_wf(s: CallerView, event: EventView)
    ensures
        call_wf(fresh_call(s.program, s.args, s.has_wait)),
        call_wf(s) ==> call_wf(call_step(s, event).0),
{
}

/// The utility is run only when it waits for its own lock, and is told to, or when the
/// call has just taken the lock and holds it.
pub proof fn lemma_run_is_guarded(s: CallerView, event: EventView)
    requires
        call_wf(s),
        call_step(s, event).1 is Run,
    ensures
        s.has_wait ==> call_step(s, event).1 == ActionView::Run(
            s.program,
            s.args.push(wait_flag_of()),
        ),
        !s.has_wait ==> event == EventView::Lock(LockAttempt::Acquired) && call_step(
            s,
            event,
        ).0.locked,
{
}

/// A lock that another caller holds is tried again and is never reported as a failure.
pub proof fn lemma_contention_is_retried(s: CallerView)
    requires
        s.phase is Locking,
    ensures
        call_step(s, EventView::Lock(LockAttempt::Contended)) == (s, ActionView::TryLock),
{
}

/// The result is handed out only without the lock, and the lock, once taken, is given
/// up by nothing but the handing out of the result.
pub proof fn lemma_lock_is_given_up_at_return(s: CallerView, event: EventView)
    ensures
        call_step(s, event).1 is Return ==> !call_step(s, event).0.locked,
        s.locked && call_wf(s) && !(call_step(s, event).1 is Return) ==> call_step(
            s,
            event,
        ).0.locked,
{
}

/// Several calls on one machine, and the one lock that they share.
pub struct Machine {
    /// The call that holds the lock, by its place in `calls`, if any does.
    pub holder: Option<int>,
    /// The calls.
    pub calls: Seq<CallerView>,
}

/// What the lock can answer to call `i`: it is taken only when no call holds it.
pub open spec fn lock_allows(m: Machine, i: int, event: EventView) -> bool {
    event == EventView::Lock(LockAttempt::Acquired) ==> m.holder is None
}

/// The machine after call `i` has taken `event`: a call that takes the lock holds it, a
/// call that hands out its result and closes the lock file holds it no longer.
pub open spec fn machine_step(m: Machine, i: int, event: EventView) -> Machine {
    let (next, action) = call_step(m.calls[i], event);
    Machine {
        holder: if next.locked {
            Some(i)
        } else if m.holder == Some(i) {
            None
        } else {
            m.holder
        },
        calls: m.calls.update(i, next),
    }
}

/// What holds of the machine at every moment: each call is in order, and a call thinks
/// that it holds the lock exactly when it does.
pub open spec fn machine_wf(m: Machine) -> bool {
    forall|i: int|
        0 <= i < m.calls.len() ==> call_wf(#[trigger] m.calls[i]) && (m.calls[i].locked <==> m.holder
            == Some(i))
}

/// Every step that the lock allows keeps the machine in order.
pub proof fn lemma_machine_stays_wf(m: Machine, i: int, event: EventView)
    requires
        machine_wf(m),
        0 <= i < m.calls.len(),
        lock_allows(m, i, event),
    ensures
        machine_wf(machine_step(m, i, event)),
{
    let after = machine_step(m, i, event);
    lemma_call_stays_wf(m.calls[i], event);
    assert forall|k: int| 0 <= k < after.calls.len() implies call_wf(#[trigger] after.calls[k])
        && (after.calls[k].locked <==> after.holder == Some(k)) by {
        if k != i {
            assert(after.calls[k] == m.calls[k]);
        }
    }
}

/// On a machine in order no two calls run a utility that cannot wait for its own lock at
/// the same time: whichever runs one holds the lock, and one call at most holds it.
pub proof fn lemma_one_call_runs_under_the_lock(m: Machine, i: int, j: int)
    requires
        machine_wf(m),
        0 <= i < m.calls.len(),
        0 <= j < m.calls.len(),
        m.calls[i].phase is Running && !m.calls[i].has_wait,
        m.calls[j].phase is Running && !m.calls[j].has_wait,
    ensures
        i == j,
{
}

} // verus!
