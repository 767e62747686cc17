use mdns_reflector::daemon::{daemonize, DaemonAction, DaemonEvent, ExitReason, Signal};
use mdns_reflector::header::header_line;
use mdns_reflector::tasks::{
    launch, start_tasks, LaunchAction, LaunchEvent, StopCause, TaskAction, TaskEvent,
};

fn daemon_course(forked: i32, running: Option<i32>, written: bool) -> Vec<DaemonAction> {
    let mut course = vec![DaemonAction::Fork];
    loop {
        let action = course[course.len() - 1];
        let event = match action {
            DaemonAction::Fork => DaemonEvent::Forked(forked),
            DaemonAction::CheckPidFile => DaemonEvent::Checked(running),
            DaemonAction::WritePidFile => DaemonEvent::Written(written),
            DaemonAction::Exit(_) | DaemonAction::Proceed => return course,
            _ => DaemonEvent::Done,
        };
        course.push(daemonize(action, event));
    }
}

#[test]
fn child_becomes_the_daemon() {
    assert_eq!(
        daemon_course(0, None, true),
        vec![
            DaemonAction::Fork,
            DaemonAction::Ignore(Signal::Child),
            DaemonAction::Ignore(Signal::Hangup),
            DaemonAction::NewSession,
            DaemonAction::SetUmask(23),
            DaemonAction::ChangeToRoot,
            DaemonAction::CheckPidFile,
            DaemonAction::WritePidFile,
            DaemonAction::Proceed,
        ]
    );
}

#[test]
fn others_exit() {
    let last = |course: Vec<DaemonAction>| course[course.len() - 1];
    assert_eq!(
        daemon_course(-1, None, true),
        vec![DaemonAction::Fork, DaemonAction::Exit(ExitReason::ForkFailed)]
    );
    assert_eq!(
        daemon_course(812, None, true),
        vec![DaemonAction::Fork, DaemonAction::Exit(ExitReason::Parent)]
    );
    assert_eq!(
        last(daemon_course(0, Some(77), true)),
        DaemonAction::Exit(ExitReason::AlreadyRunning(77))
    );
    assert!(!daemon_course(0, Some(77), true).contains(&DaemonAction::WritePidFile));
    assert_eq!(
        last(daemon_course(0, None, false)),
        DaemonAction::Exit(ExitReason::PidFileUnwritable)
    );
}

#[test]
fn exit_statuses() {
    assert_eq!(ExitReason::Parent.status(), 0);
    assert_eq!(ExitReason::ForkFailed.status(), 1);
    assert_eq!(ExitReason::AlreadyRunning(5).status(), 1);
    assert_eq!(ExitReason::PidFileUnwritable.status(), 1);
}

#[test]
fn launching() {
    let foreground = LaunchEvent::Configured { foreground: true };
    assert_eq!(launch(LaunchAction::Configure, foreground), LaunchAction::CheckPidFile);
    let check = LaunchAction::CheckPidFile;
    assert_eq!(launch(check, LaunchEvent::Checked(Some(9))), LaunchAction::Refuse(9));
    assert_eq!(launch(check, LaunchEvent::Checked(None)), LaunchAction::Run);
    let background = LaunchEvent::Configured { foreground: false };
    assert_eq!(launch(LaunchAction::Configure, background), LaunchAction::Daemonize);
    assert_eq!(launch(LaunchAction::Daemonize, LaunchEvent::Done), LaunchAction::LogToSyslog);
    assert_eq!(launch(LaunchAction::LogToSyslog, LaunchEvent::Done), LaunchAction::Run);
}

fn task_course(
    interfaces: usize,
    failed: Option<usize>,
    cause: StopCause,
    in_time: bool,
    running: Option<i32>,
    own: i32,
) -> Vec<TaskAction> {
    let mut course = vec![TaskAction::CreateReceiver];
    loop {
        let at = course.len() - 1;
        let event = match course[at] {
            TaskAction::CreateReceiver | TaskAction::CreateSender(_) => {
                if failed == Some(at) {
                    TaskEvent::CreateFailed
                } else {
                    TaskEvent::Created
                }
            }
            TaskAction::AwaitStop => TaskEvent::Stop(cause),
            TaskAction::AwaitTasks { .. } => {
                if in_time {
                    TaskEvent::Ended
                } else {
                    TaskEvent::TimedOut
                }
            }
            TaskAction::CheckPidFile => TaskEvent::Checked { running, own },
            TaskAction::RemovePidFile => TaskEvent::Removed(in_time),
            TaskAction::Finish | TaskAction::Abandon => return course,
            _ => TaskEvent::Done,
        };
        course.push(start_tasks(interfaces, course[at], event));
    }
}

#[test]
fn tasks_of_a_daemon() {
    let expected = vec![
        TaskAction::CreateReceiver,
        TaskAction::CreateSender(0),
        TaskAction::CreateSender(1),
        TaskAction::Spawn,
        TaskAction::AwaitStop,
        TaskAction::Cancel,
        TaskAction::Close,
        TaskAction::AwaitTasks { millis: 10000 },
        TaskAction::CheckPidFile,
        TaskAction::RemovePidFile,
        TaskAction::Finish,
    ];
    for cause in [
        StopCause::Sigterm,
        StopCause::SigtermUnavailable,
        StopCause::Sigint,
        StopCause::SigintUnavailable,
        StopCause::Cancelled,
    ] {
        assert_eq!(task_course(2, None, cause, true, Some(5), 5), expected);
        assert_eq!(task_course(2, None, cause, false, Some(5), 5), expected);
    }
}

#[test]
fn foreign_pid_file_is_left_alone() {
    for running in [None, Some(6)] {
        let course = task_course(1, None, StopCause::Sigint, true, running, 5);
        assert!(!course.contains(&TaskAction::RemovePidFile));
        assert_eq!(course[course.len() - 1], TaskAction::Finish);
    }
}

#[test]
fn failed_socket_ends_it_all() {
    assert_eq!(
        task_course(2, Some(0), StopCause::Sigint, true, Some(5), 5),
        vec![TaskAction::CreateReceiver, TaskAction::Abandon]
    );
    assert_eq!(
        task_course(2, Some(2), StopCause::Sigint, true, Some(5), 5),
        vec![
            TaskAction::CreateReceiver,
            TaskAction::CreateSender(0),
            TaskAction::CreateSender(1),
            TaskAction::Abandon,
        ]
    );
}

#[test]
fn reflector_without_interfaces_is_spawned() {
    let next = start_tasks(0, TaskAction::CreateReceiver, TaskEvent::Created);
    assert_eq!(next, TaskAction::Spawn);
}

#[test]
fn headers() {
    assert_eq!(
        header_line("mdns-reflector", "0.1.0", "x86_64-unknown-linux-gnu", Some("znver3")),
        "mdns-reflector v0.1.0 - built for x86_64-unknown-linux-gnu (znver3)"
    );
    assert_eq!(
        header_line("a", "b", "c", None),
        "a vb - built for c (base cpu variant)"
    );
}
