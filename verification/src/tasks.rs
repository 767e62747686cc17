//! From the command line to the last word: how the reflector is launched, how its
//! tasks are started, and how they are brought to an end.

use vstd::prelude::*;

#[allow(unused_imports)]
use crate::daemon::{daemon_next, DaemonAction, DaemonEvent, ExitReason};
#[allow(unused_imports)]
use crate::pidfile::{check_after, law_writer_is_found, pid_text, PidCheck, PidReply};

verus! {

/// How long the tasks get to end once they are told to, in milliseconds.
pub const SHUTDOWN_MILLIS: u64 = 10000;

/// What is to be done next to launch the reflector.
#[derive(Clone, Copy, Debug, PartialEq, Eq, Structural)]
pub enum LaunchAction {
    /// Read the command line.
    Configure,
    /// Look whether the process that the pid file names runs.
    CheckPidFile,
    /// Become a daemon.
    Daemonize,
    /// Log to the system's log from now on.
    LogToSyslog,
    /// Leave: the process with this id runs already.
    Refuse(i32),
    /// Start the tasks.
    Run,
}

/// What the last launch action came to.
#[derive(Clone, Copy, Debug, PartialEq, Eq, Structural)]
pub enum LaunchEvent {
    /// Whether the reflector is to stay in the foreground.
    Configured { foreground: bool },
    /// The process that runs, if one does.
    Checked(Option<i32>),
    /// It was done.
    Done,
}

/// The event is an outcome of the action.
pub open spec fn launch_concludes(action: LaunchAction, event: LaunchEvent) -> bool {
    match action {
        LaunchAction::Configure => event is Configured,
        LaunchAction::CheckPidFile => event is Checked,
        LaunchAction::Daemonize | LaunchAction::LogToSyslog => event is Done,
        LaunchAction::Refuse(_) | LaunchAction::Run => false,
    }
}

/// The launch action after this one. A daemon looks at the pid file on its own.
pub open spec fn launch_next(action: LaunchAction, event: LaunchEvent) -> LaunchAction {
    match (action, event) {
        (_, LaunchEvent::Configured { foreground }) => if foreground {
            LaunchAction::CheckPidFile
        } else {
            LaunchAction::Daemonize
        },
        (_, LaunchEvent::Checked(running)) => match running {
            Some(pid) => LaunchAction::Refuse(pid),
            None => LaunchAction::Run,
        },
        (LaunchAction::Daemonize, _) => LaunchAction::LogToSyslog,
        (_, _) => LaunchAction::Run,
    }
}

/// One step of the launch, which starts with `LaunchAction::Configure`.
pub fn launch(action: LaunchAction, event: LaunchEvent) -> (next: LaunchAction)
    requires
        launch_concludes(action, event),
    ensures
        next == launch_next(action, event),
{
    match (action, event) {
        (_, LaunchEvent::Configured { foreground }) => {
            if foreground {
                LaunchAction::CheckPidFile
            } else {
                LaunchAction::Daemonize
            }
        },
        (_, LaunchEvent::Checked(running)) => match running {
            Some(pid) => LaunchAction::Refuse(pid),
            None => LaunchAction::Run,
        },
        (LaunchAction::Daemonize, _) => LaunchAction::LogToSyslog,
        (_, _) => LaunchAction::Run,
    }
}

/// What is to be done next with the tasks.
#[derive(Clone, Copy, Debug, PartialEq, Eq, Structural)]
pub enum TaskAction {
    /// Create the receiving socket.
    CreateReceiver,
    /// Create the sending socket of the interface at this index.
    CreateSender(usize),
    /// Start the reflector.
    Spawn,
    /// Wait for a reason to stop.
    AwaitStop,
    /// Order the tasks to stop.
    Cancel,
    /// Take no more tasks.
    Close,
    /// Wait for the tasks to end, but no longer than this.
    AwaitTasks { millis: u64 },
    /// Look whether the process that the pid file names runs.
    CheckPidFile,
    /// Remove the pid file.
    RemovePidFile,
    /// Say goodbye and leave.
    Finish,
    /// Leave: a socket could not be created.
    Abandon,
}

/// Why the tasks are to stop.
#[derive(Clone, Copy, Debug, PartialEq, Eq, Structural)]
pub enum StopCause {
    /// SIGTERM came.
    Sigterm,
    /// SIGTERM cannot be waited for.
    SigtermUnavailable,
    /// SIGINT came.
    Sigint,
    /// SIGINT cannot be waited for.
    SigintUnavailable,
    /// A task stopped.
    Cancelled,
}

/// What the last action came to.
#[derive(Clone, Copy, Debug, PartialEq, Eq, Structural)]
pub enum TaskEvent {
    /// The socket was created.
    Created,
    /// The socket could not be created.
    CreateFailed,
    /// It was done.
    Done,
    /// There is a reason to stop.
    Stop(StopCause),
    /// The tasks have ended.
    Ended,
    /// The time was up first.
    TimedOut,
    /// The process that runs, if one does, and the id of this process.
    Checked { running: Option<i32>, own: i32 },
    /// Whether the pid file was removed.
    Removed(bool),
}

/// The event is an outcome of the action.
pub open spec fn task_concludes(interfaces: nat, action: TaskAction, event: TaskEvent) -> bool {
    match action {
        TaskAction::CreateReceiver => event is Created || event is CreateFailed,
        TaskAction::CreateSender(i) => i < interfaces && (event is Created
            || event is CreateFailed),
        TaskAction::Spawn | TaskAction::Cancel | TaskAction::Close => event is Done,
        TaskAction::AwaitStop => event is Stop,
        TaskAction::AwaitTasks { .. } => event is Ended || event is TimedOut,
        TaskAction::CheckPidFile => event is Checked,
        TaskAction::RemovePidFile => event is Removed,
        TaskAction::Finish | TaskAction::Abandon => false,
    }
}

/// The socket after the first `n` sending sockets, or the reflector if there are
/// no more interfaces.
pub open spec fn after_sockets(interfaces: nat, n: nat) -> TaskAction {
    if n < interfaces {
        TaskAction::CreateSender(n as usize)
    } else {
        TaskAction::Spawn
    }
}

/// The action after this one.
pub open spec fn task_next(interfaces: nat, action: TaskAction, event: TaskEvent) -> TaskAction {
    match (action, event) {
        (_, TaskEvent::CreateFailed) => TaskAction::Abandon,
        (TaskAction::CreateReceiver, _) => after_sockets(interfaces, 0),
        (TaskAction::CreateSender(i), _) => after_sockets(interfaces, i as nat + 1),
        (TaskAction::Spawn, _) => TaskAction::AwaitStop,
        (TaskAction::AwaitStop, _) => TaskAction::Cancel,
        (TaskAction::Cancel, _) => TaskAction::Close,
        (TaskAction::Close, _) => TaskAction::AwaitTasks { millis: SHUTDOWN_MILLIS },
        (TaskAction::AwaitTasks { .. }, _) => TaskAction::CheckPidFile,
        (_, TaskEvent::Checked { running, own }) => if running == Some(own) {
            TaskAction::RemovePidFile
        } else {
            TaskAction::Finish
        },
        (_, _) => TaskAction::Finish,
    }
}

/// One step in the life of the tasks of a reflector with so many interfaces. It
/// starts with `TaskAction::CreateReceiver`.
pub fn start_tasks(interfaces: usize, action: TaskAction, event: TaskEvent) -> (next: TaskAction)
    requires
        task_concludes(interfaces as nat, action, event),
    ensures
        next == task_next(interfaces as nat, action, event),
{
    match (action, event) {
        (_, TaskEvent::CreateFailed) => TaskAction::Abandon,
        (TaskAction::CreateReceiver, _) => {
            if interfaces > 0 {
                TaskAction::CreateSender(0)
            } else {
                TaskAction::Spawn
            }
        },
        (TaskAction::CreateSender(i), _) => {
            if i + 1 < interfaces {
                TaskAction::CreateSender(i + 1)
            } else {
                TaskAction::Spawn
            }
        },
        (TaskAction::Spawn, _) => TaskAction::AwaitStop,
        (TaskAction::AwaitStop, _) => TaskAction::Cancel,
        (TaskAction::Cancel, _) => TaskAction::Close,
        (TaskAction::Close, _) => TaskAction::AwaitTasks { millis: SHUTDOWN_MILLIS },
        (TaskAction::AwaitTasks { .. }, _) => TaskAction::CheckPidFile,
        (_, TaskEvent::Checked { running, own }) => match running {
            // the pid file may belong to another instance
            Some(pid) => {
                if pid == own {
                    TaskAction::RemovePidFile
                } else {
                    TaskAction::Finish
                }
            },
            None => TaskAction::Finish,
        },
        (_, _) => TaskAction::Finish,
    }
}

/// The sockets, in the order in which they are created.
pub open spec fn creating(interfaces: nat) -> Seq<TaskAction> {
    seq![TaskAction::CreateReceiver] + Seq::new(
        interfaces,
        |i: int| TaskAction::CreateSender(i as usize),
    )
}

/// What is done once there is a reason to stop, whatever each of it comes to.
pub open spec fn stopping() -> Seq<TaskAction> {
    seq![
        TaskAction::Cancel,
        TaskAction::Close,
        TaskAction::AwaitTasks { millis: SHUTDOWN_MILLIS },
        TaskAction::CheckPidFile,
    ]
}

/// Everything that is done, in order. `failed` is the place in `creating` of the
/// first socket that cannot be created, `running` what the look at the pid file
/// says in the end, and `own` the id of this process.
pub open spec fn task_course(
    interfaces: nat,
    failed: Option<nat>,
    running: Option<i32>,
    own: i32,
) -> Seq<TaskAction> {
    match failed {
        Some(at) => creating(interfaces).take(at as int + 1).push(TaskAction::Abandon),
        None => {
            let served: Seq<TaskAction> = creating(interfaces) + seq![
                TaskAction::Spawn,
                TaskAction::AwaitStop,
            ] + stopping();
            if running == Some(own) {
                served + seq![TaskAction::RemovePidFile, TaskAction::Finish]
            } else {
                served.push(TaskAction::Finish)
            }
        },
    }
}

/// The event is one that the action at place `at` of the course can come to.
pub open spec fn is_outcome(
    interfaces: nat,
    failed: Option<nat>,
    running: Option<i32>,
    own: i32,
    at: int,
    event: TaskEvent,
) -> bool {
    let action: TaskAction = task_course(interfaces, failed, running, own)[at];
    &&& task_concludes(interfaces, action, event)
    &&& event is CreateFailed ==> failed == Some(at as nat)
    &&& event is Created ==> failed != Some(at as nat)
    &&& event is Checked ==> event == (TaskEvent::Checked { running, own })
}

/// Step by step, the whole course is taken: it starts with the receiving socket,
/// and whatever an action comes to, the next one of the course follows.
pub proof fn law_task_course_is_taken(
    interfaces: nat,
    failed: Option<nat>,
    running: Option<i32>,
    own: i32,
    at: int,
    event: TaskEvent,
)
    requires
        interfaces <= usize::MAX,
        failed matches Some(place) ==> place <= interfaces,
        0 <= at < task_course(interfaces, failed, running, own).len() - 1,
        is_outcome(interfaces, failed, running, own, at, event),
    ensures
        task_course(interfaces, failed, running, own)[0] == TaskAction::CreateReceiver,
        task_next(interfaces, task_course(interfaces, failed, running, own)[at], event)
            == task_course(interfaces, failed, running, own)[at + 1],
{
    let course: Seq<TaskAction> = task_course(interfaces, failed, running, own);
    if at <= interfaces {
        assert(course[at] == creating(interfaces)[at]);
    }
    if at + 1 <= interfaces && failed != Some(at as nat) {
        assert(course[at + 1] == creating(interfaces)[at + 1]);
    }
}

/// The reflector is started only if every socket was created; and the pid file is
/// removed only after the reflector was started and stopped, if it names this
/// process.
pub proof fn law_what_a_course_holds(
    interfaces: nat,
    failed: Option<nat>,
    running: Option<i32>,
    own: i32,
)
    requires
        failed matches Some(place) ==> place <= interfaces,
    ensures
        task_course(interfaces, failed, running, own).contains(TaskAction::Spawn) <==> failed
            is None,
        task_course(interfaces, failed, running, own).contains(TaskAction::RemovePidFile) <==> failed
            is None && running == Some(own),
        task_course(interfaces, failed, running, own).last() == (if failed is None {
            TaskAction::Finish
        } else {
            TaskAction::Abandon
        }),
{
    let course: Seq<TaskAction> = task_course(interfaces, failed, running, own);
    assert forall|i: int| 0 <= i < creating(interfaces).len() implies {
        let action: TaskAction = #[trigger] creating(interfaces)[i];
        action is CreateReceiver || action is CreateSender
    } by {}
    match failed {
        Some(place) => {
            assert forall|i: int| 0 <= i < course.len() implies !(#[trigger] course[i] is Spawn)
                && !(course[i] is RemovePidFile) by {
                if i <= place {
                    assert(course[i] == creating(interfaces)[i]);
                }
            }
        },
        None => {
            assert(course[interfaces as int + 1] == TaskAction::Spawn);
            if running == Some(own) {
                assert(course[interfaces as int + 7] == TaskAction::RemovePidFile);
            } else {
                assert forall|i: int| 0 <= i < course.len() implies !(#[trigger] course[i]
                    is RemovePidFile) by {
                    if i <= interfaces {
                        assert(course[i] == creating(interfaces)[i]);
                    }
                }
            }
        },
    }
}

/// In the foreground the reflector runs only if no other instance does; in the
/// background it does so once it is a daemon and logs to the system's log.
pub proof fn law_launch(foreground: bool, running: Option<i32>)
    ensures
        ({
            let configured: LaunchAction = launch_next(
                LaunchAction::Configure,
                LaunchEvent::Configured { foreground },
            );
            if foreground {
                &&& configured == LaunchAction::CheckPidFile
                &&& launch_next(configured, LaunchEvent::Checked(running)) == (match running {
                    Some(pid) => LaunchAction::Refuse(pid),
                    None => LaunchAction::Run,
                })
            } else {
                let daemon: LaunchAction = launch_next(configured, LaunchEvent::Done);
                &&& configured == LaunchAction::Daemonize
                &&& daemon == LaunchAction::LogToSyslog
                &&& launch_next(daemon, LaunchEvent::Done) == LaunchAction::Run
            }
        }),
{
}

/// While the process that wrote the pid file can be signalled, no second instance
/// gets to run beside it: in the foreground it is refused, and a daemon ends; and
/// when the process itself comes to its end, it removes the file.
pub proof fn law_one_instance(pid: i32, line: String, interfaces: nat)
    requires
        line@ == pid_text(pid as int),
    ensures
        check_after(PidCheck::ReadLine, PidReply::Line(line)) == PidCheck::Probe(pid),
        check_after(PidCheck::Probe(pid), PidReply::Kill(0)) == PidCheck::Answer(Some(pid)),
        launch_next(LaunchAction::CheckPidFile, LaunchEvent::Checked(Some(pid)))
            == LaunchAction::Refuse(pid),
        daemon_next(DaemonAction::CheckPidFile, DaemonEvent::Checked(Some(pid)))
            == DaemonAction::Exit(ExitReason::AlreadyRunning(pid)),
        task_next(
            interfaces,
            TaskAction::CheckPidFile,
            TaskEvent::Checked { running: Some(pid), own: pid },
        ) == TaskAction::RemovePidFile,
{
    law_writer_is_found(pid, line, 0);
}

/// A pid file that names another process is left alone.
pub proof fn law_foreign_pid_file_stays(running: Option<i32>, own: i32, interfaces: nat)
    requires
        running != Some(own),
    ensures
        task_next(interfaces, TaskAction::CheckPidFile, TaskEvent::Checked { running, own })
            == TaskAction::Finish,
{
}

/// How a launch goes. In the foreground the pid file is looked at, and the reflector is
/// run if no process is found and refused, with its id, if one is. In the background it
/// becomes a daemon, logs to the system's log, and is run.
pub proof fn law_launch_step_by_step(
    foreground: bool,
    running: Option<i32>,
    configured: LaunchAction,
    checked: LaunchAction,
    detached: LaunchAction,
    logging: LaunchAction,
)
    requires
        call_ensures(
            launch,
            (LaunchAction::Configure, LaunchEvent::Configured { foreground }),
            configured,
        ),
        call_ensures(launch, (LaunchAction::CheckPidFile, LaunchEvent::Checked(running)), checked),
        call_ensures(launch, (LaunchAction::Daemonize, LaunchEvent::Done), detached),
        call_ensures(launch, (LaunchAction::LogToSyslog, LaunchEvent::Done), logging),
    ensures
        configured is CheckPidFile <==> foreground,
        configured is Daemonize <==> !foreground,
        checked is Run <==> running is None,
        running matches Some(pid) ==> checked == LaunchAction::Refuse(pid),
        detached is LogToSyslog,
        logging is Run,
{
}

/// As long as no socket fails, one is created for each interface, in order, and then the
/// reflector is started.
pub proof fn law_sockets_are_created_in_order(interfaces: usize, steps: Seq<TaskAction>, n: int)
    requires
        0 <= n < steps.len(),
        n <= interfaces,
        call_ensures(
            start_tasks,
            (interfaces, TaskAction::CreateReceiver, TaskEvent::Created),
            steps[0],
        ),
        forall|i: int|
            0 <= i < steps.len() - 1 ==> call_ensures(
                start_tasks,
                (interfaces, #[trigger] steps[i], TaskEvent::Created),
                steps[i + 1],
            ),
    ensures
        n < interfaces ==> (steps[n] matches TaskAction::CreateSender(at) && at == n),
        n == interfaces ==> steps[n] is Spawn,
    decreases n,
{
    if n > 0 {
        law_sockets_are_created_in_order(interfaces, steps, n - 1);
        assert(call_ensures(
            start_tasks,
            (interfaces, steps[n - 1], TaskEvent::Created),
            steps[n],
        ));
    }
}

/// If any socket fails, nothing more is done.
pub proof fn law_failed_socket_ends_it(
    interfaces: usize,
    at: usize,
    without_receiver: TaskAction,
    without_sender: TaskAction,
)
    requires
        call_ensures(
            start_tasks,
            (interfaces, TaskAction::CreateReceiver, TaskEvent::CreateFailed),
            without_receiver,
        ),
        call_ensures(
            start_tasks,
            (interfaces, TaskAction::CreateSender(at), TaskEvent::CreateFailed),
            without_sender,
        ),
    ensures
        without_receiver is Abandon,
        without_sender is Abandon,
{
}

/// Once the reflector is started there is a wait for a reason to stop. Whatever the reason,
/// the tasks are then told to stop, no more are taken, and they get ten seconds.
pub proof fn law_every_reason_stops_the_tasks(
    interfaces: usize,
    cause: StopCause,
    spawned: TaskAction,
    stopped: TaskAction,
    cancelled: TaskAction,
    closed: TaskAction,
)
    requires
        call_ensures(start_tasks, (interfaces, TaskAction::Spawn, TaskEvent::Done), spawned),
        call_ensures(
            start_tasks,
            (interfaces, TaskAction::AwaitStop, TaskEvent::Stop(cause)),
            stopped,
        ),
        call_ensures(start_tasks, (interfaces, TaskAction::Cancel, TaskEvent::Done), cancelled),
        call_ensures(start_tasks, (interfaces, TaskAction::Close, TaskEvent::Done), closed),
    ensures
        spawned is AwaitStop,
        stopped is Cancel,
        cancelled is Close,
        closed matches TaskAction::AwaitTasks { millis } && millis == 10 * 1000,
{
}

/// Whether or not the tasks ended in time, the pid file is looked at. It is removed if and
/// only if it names this process, and whether or not that succeeds, that is the end.
pub proof fn law_own_pid_file_is_removed(
    interfaces: usize,
    millis: u64,
    running: Option<i32>,
    own: i32,
    removed: bool,
    ended: TaskAction,
    timed_out: TaskAction,
    checked: TaskAction,
    last: TaskAction,
)
    requires
        call_ensures(
            start_tasks,
            (interfaces, TaskAction::AwaitTasks { millis }, TaskEvent::Ended),
            ended,
        ),
        call_ensures(
            start_tasks,
            (interfaces, TaskAction::AwaitTasks { millis }, TaskEvent::TimedOut),
            timed_out,
        ),
        call_ensures(
            start_tasks,
            (interfaces, TaskAction::CheckPidFile, TaskEvent::Checked { running, own }),
            checked,
        ),
        call_ensures(
            start_tasks,
            (interfaces, TaskAction::RemovePidFile, TaskEvent::Removed(removed)),
            last,
        ),
    ensures
        ended is CheckPidFile,
        timed_out is CheckPidFile,
        checked is RemovePidFile <==> (running matches Some(pid) && pid == own),
        checked is Finish <==> (running matches Some(pid) ==> pid != own),
        last is Finish,
{
}

/// Every outcome that an action can have can be handed in.
pub proof fn law_outcomes_are_taken(
    interfaces: usize,
    at: usize,
    millis: u64,
    cause: StopCause,
    running: Option<i32>,
    own: i32,
    flag: bool,
)
    requires
        at < interfaces,
    ensures
        call_requires(start_tasks, (interfaces, TaskAction::CreateReceiver, TaskEvent::Created)),
        call_requires(
            start_tasks,
            (interfaces, TaskAction::CreateReceiver, TaskEvent::CreateFailed),
        ),
        call_requires(start_tasks, (interfaces, TaskAction::CreateSender(at), TaskEvent::Created)),
        call_requires(
            start_tasks,
            (interfaces, TaskAction::CreateSender(at), TaskEvent::CreateFailed),
        ),
        call_requires(start_tasks, (interfaces, TaskAction::Spawn, TaskEvent::Done)),
        call_requires(start_tasks, (interfaces, TaskAction::AwaitStop, TaskEvent::Stop(cause))),
        call_requires(start_tasks, (interfaces, TaskAction::Cancel, TaskEvent::Done)),
        call_requires(start_tasks, (interfaces, TaskAction::Close, TaskEvent::Done)),
        call_requires(
            start_tasks,
            (interfaces, TaskAction::AwaitTasks { millis }, TaskEvent::Ended),
        ),
        call_requires(
            start_tasks,
            (interfaces, TaskAction::AwaitTasks { millis }, TaskEvent::TimedOut),
        ),
        call_requires(
            start_tasks,
            (interfaces, TaskAction::CheckPidFile, TaskEvent::Checked { running, own }),
        ),
        call_requires(
            start_tasks,
            (interfaces, TaskAction::RemovePidFile, TaskEvent::Removed(flag)),
        ),
        call_requires(
            launch,
            (LaunchAction::Configure, LaunchEvent::Configured { foreground: flag }),
        ),
        call_requires(launch, (LaunchAction::CheckPidFile, LaunchEvent::Checked(running))),
        call_requires(launch, (LaunchAction::Daemonize, LaunchEvent::Done)),
        call_requires(launch, (LaunchAction::LogToSyslog, LaunchEvent::Done)),
{
}

} // verus!
