//! How the reflector leaves the terminal.

use vstd::prelude::*;

verus! {

/// The file mode bits that a daemon does not grant: write for the group, all for
/// others.
pub const DAEMON_UMASK: u32 = 0o027;

/// A signal that the daemon ignores.
#[derive(Clone, Copy, Debug, PartialEq, Eq, Structural)]
pub enum Signal {
    /// A child stopped or ended.
    Child,
    /// The terminal was closed.
    Hangup,
}

/// Why a process ends instead of becoming the daemon.
#[derive(Clone, Copy, Debug, PartialEq, Eq, Structural)]
pub enum ExitReason {
    /// It could not be forked.
    ForkFailed,
    /// It is the parent of the daemon.
    Parent,
    /// The process with this id runs already.
    AlreadyRunning(i32),
    /// The pid file could not be written.
    PidFileUnwritable,
}

/// What is to be done next.
#[derive(Clone, Copy, Debug, PartialEq, Eq, Structural)]
pub enum DaemonAction {
    /// Fork.
    Fork,
    /// Ignore a signal.
    Ignore(Signal),
    /// Begin a session.
    NewSession,
    /// Set the file mode mask.
    SetUmask(u32),
    /// Change to the root directory.
    ChangeToRoot,
    /// Look whether the process that the pid file names runs.
    CheckPidFile,
    /// Write the pid file.
    WritePidFile,
    /// End this process.
    Exit(ExitReason),
    /// Go on as the daemon.
    Proceed,
}

/// What the last action came to.
#[derive(Clone, Copy, Debug, PartialEq, Eq, Structural)]
pub enum DaemonEvent {
    /// What `fork` returned.
    Forked(i32),
    /// It was done; its outcome does not matter.
    Done,
    /// The process that runs, if one does.
    Checked(Option<i32>),
    /// Whether the pid file was written.
    Written(bool),
}

/// The event is an outcome of the action.
pub open spec fn concludes(action: DaemonAction, event: DaemonEvent) -> bool {
    match action {
        DaemonAction::Fork => event is Forked,
        DaemonAction::Ignore(_)
        | DaemonAction::NewSession
        | DaemonAction::SetUmask(_)
        | DaemonAction::ChangeToRoot => event is Done,
        DaemonAction::CheckPidFile => event is Checked,
        DaemonAction::WritePidFile => event is Written,
        DaemonAction::Exit(_) | DaemonAction::Proceed => false,
    }
}

/// What the child does to detach itself, whatever each of it comes to.
pub open spec fn detaching() -> Seq<DaemonAction> {
    seq![
        DaemonAction::Ignore(Signal::Child),
        DaemonAction::Ignore(Signal::Hangup),
        DaemonAction::NewSession,
        DaemonAction::SetUmask(DAEMON_UMASK),
        DaemonAction::ChangeToRoot,
    ]
}

/// Everything that a process does, in order, if `fork` returns `forked`, the look
/// at the pid file says `running`, and the pid file is or is not `written`.
pub open spec fn daemon_course(
    forked: i32,
    running: Option<i32>,
    written: bool,
) -> Seq<DaemonAction> {
    let fork: Seq<DaemonAction> = seq![DaemonAction::Fork];
    if forked < 0 {
        fork.push(DaemonAction::Exit(ExitReason::ForkFailed))
    } else if forked > 0 {
        fork.push(DaemonAction::Exit(ExitReason::Parent))
    } else {
        let checked: Seq<DaemonAction> = (fork + detaching()).push(DaemonAction::CheckPidFile);
        match running {
            Some(pid) => checked.push(DaemonAction::Exit(ExitReason::AlreadyRunning(pid))),
            None => checked.push(DaemonAction::WritePidFile).push(
                if written {
                    DaemonAction::Proceed
                } else {
                    DaemonAction::Exit(ExitReason::PidFileUnwritable)
                },
            ),
        }
    }
}

/// The action after this one.
pub open spec fn daemon_next(action: DaemonAction, event: DaemonEvent) -> DaemonAction {
    match (action, event) {
        (_, DaemonEvent::Forked(pid)) => if pid < 0 {
            DaemonAction::Exit(ExitReason::ForkFailed)
        } else if pid > 0 {
            DaemonAction::Exit(ExitReason::Parent)
        } else {
            detaching()[0]
        },
        (_, DaemonEvent::Checked(running)) => match running {
            Some(pid) => DaemonAction::Exit(ExitReason::AlreadyRunning(pid)),
            None => DaemonAction::WritePidFile,
        },
        (_, DaemonEvent::Written(written)) => if written {
            DaemonAction::Proceed
        } else {
            DaemonAction::Exit(ExitReason::PidFileUnwritable)
        },
        (DaemonAction::Ignore(Signal::Child), _) => detaching()[1],
        (DaemonAction::Ignore(Signal::Hangup), _) => detaching()[2],
        (DaemonAction::NewSession, _) => detaching()[3],
        (DaemonAction::SetUmask(_), _) => detaching()[4],
        (_, _) => DaemonAction::CheckPidFile,
    }
}

/// One step on the way to the daemon, which starts with `DaemonAction::Fork`.
pub fn daemonize(action: DaemonAction, event: DaemonEvent) -> (next: DaemonAction)
    requires
        concludes(action, event),
    ensures
        next == daemon_next(action, event),
{
    match (action, event) {
        (_, DaemonEvent::Forked(pid)) => {
            if pid < 0 {
                DaemonAction::Exit(ExitReason::ForkFailed)
            } else if pid > 0 {
                DaemonAction::Exit(ExitReason::Parent)
            } else {
                DaemonAction::Ignore(Signal::Child)
            }
        },
        (_, DaemonEvent::Checked(running)) => match running {
            Some(pid) => DaemonAction::Exit(ExitReason::AlreadyRunning(pid)),
            None => DaemonAction::WritePidFile,
        },
        (_, DaemonEvent::Written(written)) => {
            if written {
                DaemonAction::Proceed
            } else {
                DaemonAction::Exit(ExitReason::PidFileUnwritable)
            }
        },
        (DaemonAction::Ignore(Signal::Child), _) => DaemonAction::Ignore(Signal::Hangup),
        (DaemonAction::Ignore(Signal::Hangup), _) => DaemonAction::NewSession,
        (DaemonAction::NewSession, _) => DaemonAction::SetUmask(DAEMON_UMASK),
        (DaemonAction::SetUmask(_), _) => DaemonAction::ChangeToRoot,
        (_, _) => DaemonAction::CheckPidFile,
    }
}

impl ExitReason {
    /// The status that the process ends with: only the parent of a daemon ends
    /// well.
    pub fn status(&self) -> (status: i32)
        ensures
            status == (if *self == ExitReason::Parent {
                0int
            } else {
                1int
            }),
    {
        match self {
            ExitReason::Parent => 0,
            _ => 1,
        }
    }
}

/// The event that an action comes to in the course of `daemon_course`.
pub open spec fn outcome_of(
    action: DaemonAction,
    forked: i32,
    running: Option<i32>,
    written: bool,
) -> DaemonEvent {
    match action {
        DaemonAction::Fork => DaemonEvent::Forked(forked),
        DaemonAction::CheckPidFile => DaemonEvent::Checked(running),
        DaemonAction::WritePidFile => DaemonEvent::Written(written),
        _ => DaemonEvent::Done,
    }
}

/// Step by step, a process takes the whole of its course: it starts with the first
/// action, each step leads from one action to the next, and after the last no
/// event comes.
pub proof fn law_course_is_taken(forked: i32, running: Option<i32>, written: bool)
    ensures
        daemon_course(forked, running, written)[0] == DaemonAction::Fork,
        forall|i: int|
            0 <= i < daemon_course(forked, running, written).len() - 1 ==> {
                let action: DaemonAction = #[trigger] daemon_course(forked, running, written)[i];
                let event: DaemonEvent = outcome_of(action, forked, running, written);
                &&& concludes(action, event)
                &&& daemon_next(action, event) == daemon_course(forked, running, written)[i + 1]
            },
        forall|event: DaemonEvent|
            !#[trigger] concludes(daemon_course(forked, running, written).last(), event),
{
    let course: Seq<DaemonAction> = daemon_course(forked, running, written);
    assert forall|i: int| 0 <= i < course.len() - 1 implies {
        let action: DaemonAction = #[trigger] course[i];
        let event: DaemonEvent = outcome_of(action, forked, running, written);
        &&& concludes(action, event)
        &&& daemon_next(action, event) == course[i + 1]
    } by {
        if forked == 0 && i > 0 && i < 6 {
            assert(course[i] == detaching()[i - 1]);
        }
    }
}

/// A process goes on as the daemon only as the child of a fork, where no other
/// instance runs, and with its pid file written.
pub proof fn law_only_a_sole_child_proceeds(forked: i32, running: Option<i32>, written: bool)
    ensures
        daemon_course(forked, running, written).last() == DaemonAction::Proceed <==> forked == 0
            && running == None::<i32> && written,
        daemon_course(forked, running, written).contains(DaemonAction::WritePidFile) <==> forked
            == 0 && running == None::<i32>,
{
    let course: Seq<DaemonAction> = daemon_course(forked, running, written);
    if forked == 0 && running == None::<i32> {
        assert(course[7] == DaemonAction::WritePidFile);
    }
}

/// What `fork` returned tells the process what it is: a negative number, that there is no
/// child; a positive one, that it is the parent, which ends well; and zero, that it is
/// the child, which alone goes on.
pub proof fn law_fork_tells_what_one_is(pid: i32, next: DaemonAction)
    requires
        call_ensures(daemonize, (DaemonAction::Fork, DaemonEvent::Forked(pid)), next),
    ensures
        next == DaemonAction::Exit(ExitReason::ForkFailed) <==> pid < 0,
        next == DaemonAction::Exit(ExitReason::Parent) <==> pid > 0,
        !(next is Exit) <==> pid == 0,
{
}

/// The status of a process that `fork` was called in is 0 in the parent of a child, and 1
/// where there is no child.
pub proof fn law_status_after_fork(pid: i32, reason: ExitReason, status: i32)
    requires
        call_ensures(
            daemonize,
            (DaemonAction::Fork, DaemonEvent::Forked(pid)),
            DaemonAction::Exit(reason),
        ),
        call_ensures(ExitReason::status, (&reason,), status),
    ensures
        pid != 0,
        status == 0 <==> pid > 0,
        status == 1 <==> pid < 0,
{
}

/// The child ignores the end of its children and of its terminal, begins a session, sets
/// the mask, leaves for the root directory and looks at the pid file: each step comes once,
/// in this order.
pub proof fn law_child_detaches(steps: Seq<DaemonAction>)
    requires
        steps.len() == 6,
        call_ensures(daemonize, (DaemonAction::Fork, DaemonEvent::Forked(0)), steps[0]),
        forall|i: int|
            0 <= i < 5 ==> call_ensures(
                daemonize,
                (#[trigger] steps[i], DaemonEvent::Done),
                steps[i + 1],
            ),
    ensures
        forall|i: int|
            0 <= i < 6 ==> {
                &&& #[trigger] steps[i] == DaemonAction::Ignore(Signal::Child) <==> i == 0
                &&& steps[i] == DaemonAction::Ignore(Signal::Hangup) <==> i == 1
                &&& steps[i] is NewSession <==> i == 2
                &&& steps[i] is SetUmask <==> i == 3
                &&& steps[i] is ChangeToRoot <==> i == 4
                &&& steps[i] is CheckPidFile <==> i == 5
            },
{
    assert(call_ensures(daemonize, (steps[0], DaemonEvent::Done), steps[1]));
    assert(call_ensures(daemonize, (steps[1], DaemonEvent::Done), steps[2]));
    assert(call_ensures(daemonize, (steps[2], DaemonEvent::Done), steps[3]));
    assert(call_ensures(daemonize, (steps[3], DaemonEvent::Done), steps[4]));
    assert(call_ensures(daemonize, (steps[4], DaemonEvent::Done), steps[5]));
}

/// Of a mode that a file is asked to be created with, the mask of the daemon leaves the
/// owner everything, the group everything but writing, and others nothing.
pub proof fn law_daemon_umask(mask: u32, mode: u32)
    requires
        call_ensures(
            daemonize,
            (DaemonAction::NewSession, DaemonEvent::Done),
            DaemonAction::SetUmask(mask),
        ),
    ensures
        mask == 0o027,
        (mode & !mask) & 0o700 == mode & 0o700,
        (mode & !mask) & 0o070 == mode & 0o050,
        (mode & !mask) & 0o007 == 0,
{
    assert((mode & !0o027u32) & 0o700 == mode & 0o700) by (bit_vector);
    assert((mode & !0o027u32) & 0o070 == mode & 0o050) by (bit_vector);
    assert((mode & !0o027u32) & 0o007 == 0) by (bit_vector);
}

/// Whatever mask was set, the root directory is next.
pub proof fn law_no_mask_is_in_the_way(mask: u32, next: DaemonAction)
    requires
        call_ensures(daemonize, (DaemonAction::SetUmask(mask), DaemonEvent::Done), next),
    ensures
        next is ChangeToRoot,
{
}

/// The child ends if another process runs, which it names, and otherwise writes the pid
/// file.
pub proof fn law_child_yields_to_another(running: Option<i32>, next: DaemonAction)
    requires
        call_ensures(daemonize, (DaemonAction::CheckPidFile, DaemonEvent::Checked(running)), next),
    ensures
        running matches Some(pid) ==> next == DaemonAction::Exit(ExitReason::AlreadyRunning(pid)),
        running is None ==> next == DaemonAction::WritePidFile,
{
}

/// The child goes on if and only if the pid file was written, and otherwise ends for that
/// reason.
pub proof fn law_child_needs_its_pid_file(written: bool, next: DaemonAction)
    requires
        call_ensures(daemonize, (DaemonAction::WritePidFile, DaemonEvent::Written(written)), next),
    ensures
        written <==> next == DaemonAction::Proceed,
        !written <==> next == DaemonAction::Exit(ExitReason::PidFileUnwritable),
{
}

/// Every process that ends says by its status whether it did well: 0 from the parent of a
/// child, 1 from all others.
pub proof fn law_status(reason: ExitReason, status: i32)
    requires
        call_ensures(ExitReason::status, (&reason,), status),
    ensures
        status == 0 <==> reason is Parent,
        status == 0 || status == 1,
{
}

/// Every outcome that an action can have can be handed in.
pub proof fn law_outcomes_are_taken(
    forked: i32,
    signal: Signal,
    mask: u32,
    running: Option<i32>,
    written: bool,
)
    ensures
        call_requires(daemonize, (DaemonAction::Fork, DaemonEvent::Forked(forked))),
        call_requires(daemonize, (DaemonAction::Ignore(signal), DaemonEvent::Done)),
        call_requires(daemonize, (DaemonAction::NewSession, DaemonEvent::Done)),
        call_requires(daemonize, (DaemonAction::SetUmask(mask), DaemonEvent::Done)),
        call_requires(daemonize, (DaemonAction::ChangeToRoot, DaemonEvent::Done)),
        call_requires(daemonize, (DaemonAction::CheckPidFile, DaemonEvent::Checked(running))),
        call_requires(daemonize, (DaemonAction::WritePidFile, DaemonEvent::Written(written))),
{
}

} // verus!
