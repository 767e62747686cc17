use mdns_reflector::pidfile::{
    already_running, recorded_pid, write_pidfile, PidCheck, PidReply,
};

#[test]
fn written_pids_read_back() {
    for pid in [0, 1, 7, 10, 99, 100, 4242, 32768, i32::MAX, -1, -10, i32::MIN] {
        assert_eq!(recorded_pid(&write_pidfile(pid)), Some(pid));
    }
}

#[test]
fn pid_texts() {
    assert_eq!(write_pidfile(0), "0");
    assert_eq!(write_pidfile(1305), "1305");
    assert_eq!(write_pidfile(-20), "-20");
    assert_eq!(write_pidfile(i32::MIN), "-2147483648");
}

#[test]
fn lines_without_a_pid() {
    for line in [
        "", "+", "-", "12\n", " 12", "12 ", "1_2", "0x1", "+-1", "--1", "1-", "pid",
        "2147483648", "-2147483649", "99999999999999999999", "٣",
    ] {
        assert_eq!(recorded_pid(line), None);
        assert_eq!(line.parse::<i32>().ok(), None);
    }
}

#[test]
fn lines_with_a_pid() {
    for line in ["12", "+12", "-0", "00000000000000000012", "2147483647", "-2147483648"] {
        assert_eq!(recorded_pid(line), line.parse::<i32>().ok());
        assert!(recorded_pid(line).is_some());
    }
}

#[test]
fn running_process_is_found() {
    let probe = already_running(PidCheck::ReadLine, PidReply::Line(write_pidfile(812)));
    assert_eq!(probe, PidCheck::Probe(812));
    assert_eq!(already_running(probe, PidReply::Kill(0)), PidCheck::Answer(Some(812)));
    assert_eq!(already_running(probe, PidReply::Kill(-1)), PidCheck::Answer(None));
}

#[test]
fn nothing_runs_without_a_pid_file() {
    assert_eq!(already_running(PidCheck::ReadLine, PidReply::NotOpened), PidCheck::Answer(None));
    let line = PidReply::Line("812\n".to_string());
    assert_eq!(already_running(PidCheck::ReadLine, line), PidCheck::Answer(None));
}
