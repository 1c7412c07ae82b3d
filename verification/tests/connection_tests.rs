use ssht::config::{Forward, Namespace};
use ssht::connection::{
    exit_message, forward_arg, forward_label, forward_labels, plain_ssh_args, retry_message,
    supervised_ssh_args, ConnectionStatus, Phase, StatusEvent, SupervisorAction, SupervisorEvent,
    TunnelSupervisor,
};

fn office() -> Namespace {
    Namespace {
        ssh_user: "root".to_string(),
        ssh_host: "10.0.0.151".to_string(),
        ssh_port: 22,
        target_ip: "10.0.0.151".to_string(),
        forwards: vec![Forward { local: 6443, remote: 6443 }, Forward { local: 80, remote: 80 }],
    }
}

fn strings(v: &[&str]) -> Vec<String> {
    v.iter().map(|s| s.to_string()).collect()
}

#[test]
fn forward_label_names_target() {
    assert_eq!(forward_label(Forward { local: 8080, remote: 80 }, &"10.1.2.3".to_string()), "8080 -> 10.1.2.3:80");
}

#[test]
fn forward_arg_is_ssh_binding() {
    assert_eq!(forward_arg(Forward { local: 8080, remote: 80 }, &"10.1.2.3".to_string()), "8080:10.1.2.3:80");
}

#[test]
fn forward_labels_in_order() {
    assert_eq!(
        forward_labels(&office()),
        strings(&["6443 -> 10.0.0.151:6443", "80 -> 10.0.0.151:80"])
    );
}

#[test]
fn supervised_args_for_office() {
    assert_eq!(
        supervised_ssh_args(&office()),
        strings(&[
            "-N",
            "-o",
            "ExitOnForwardFailure=yes",
            "-o",
            "ServerAliveInterval=30",
            "-o",
            "ServerAliveCountMax=3",
            "-o",
            "BatchMode=yes",
            "-L",
            "6443:10.0.0.151:6443",
            "-L",
            "80:10.0.0.151:80",
            "-p",
            "22",
            "root@10.0.0.151",
        ])
    );
}

#[test]
fn plain_args_for_office() {
    assert_eq!(
        plain_ssh_args(&office()),
        strings(&["-N", "-L", "6443:10.0.0.151:6443", "-L", "80:10.0.0.151:80", "-p", "22", "root@10.0.0.151"])
    );
}

#[test]
fn plain_args_without_forwards() {
    let mut ns = office();
    ns.forwards.clear();
    ns.ssh_port = 2222;
    assert_eq!(plain_ssh_args(&ns), strings(&["-N", "-p", "2222", "root@10.0.0.151"]));
}

#[test]
fn status_event_copies_forwards() {
    let forwards = strings(&["1 -> h:2"]);
    let e = StatusEvent::new("office".to_string(), ConnectionStatus::Failed, 3, Some("boom".to_string()), &forwards);
    assert_eq!(e.namespace, "office");
    assert_eq!(e.status, ConnectionStatus::Failed);
    assert_eq!(e.attempt, 3);
    assert_eq!(e.message, Some("boom".to_string()));
    assert_eq!(e.forwards, forwards);
}

#[test]
fn exit_messages() {
    assert_eq!(exit_message(Some(255)), "ssh exited with status 255");
    assert_eq!(exit_message(Some(0)), "ssh exited with status 0");
    assert_eq!(exit_message(Some(-1)), "ssh exited with status -1");
    assert_eq!(exit_message(None), "ssh terminated by signal");
}

#[test]
fn retry_messages() {
    assert_eq!(retry_message(1), "retry in 1 seconds");
    assert_eq!(retry_message(30), "retry in 30 seconds");
}

fn check(sup: &mut TunnelSupervisor, event: SupervisorEvent) -> (Option<StatusEvent>, SupervisorAction) {
    let (report, action) = sup.step(event);
    assert_eq!(action, sup.pending_action());
    (report, action)
}

fn expect_report(r: Option<StatusEvent>, status: ConnectionStatus, attempt: u32, message: Option<&str>) {
    let e = r.expect("a report");
    assert_eq!(e.namespace, "office");
    assert_eq!(e.status, status);
    assert_eq!(e.attempt, attempt);
    assert_eq!(e.message, message.map(|m| m.to_string()));
    assert_eq!(e.forwards, strings(&["6443 -> 10.0.0.151:6443", "80 -> 10.0.0.151:80"]));
}

#[test]
fn supervisor_starts_by_checking_shutdown() {
    let sup = TunnelSupervisor::new("office".to_string(), &office());
    assert_eq!(sup.pending_action(), SupervisorAction::CheckShutdown);
    let p = sup.progress();
    assert_eq!(p.attempt, 0);
    assert_eq!(p.backoff_secs, 1);
    assert_eq!(p.phase, Phase::CheckingBeforeAttempt);
    assert_eq!(sup.ssh_args(), supervised_ssh_args(&office()));
}

#[test]
fn supervisor_shutdown_before_first_attempt() {
    let mut sup = TunnelSupervisor::new("office".to_string(), &office());
    let (r, a) = check(&mut sup, SupervisorEvent::ShutdownChecked(true));
    expect_report(r, ConnectionStatus::Stopped, 0, None);
    assert_eq!(a, SupervisorAction::Finish);
}

#[test]
fn supervisor_connects_then_process_exits_then_retries() {
    let mut sup = TunnelSupervisor::new("office".to_string(), &office());
    let (r, a) = check(&mut sup, SupervisorEvent::ShutdownChecked(false));
    expect_report(r, ConnectionStatus::Connecting, 1, None);
    assert_eq!(a, SupervisorAction::Spawn);
    let (r, a) = check(&mut sup, SupervisorEvent::Spawned);
    expect_report(r, ConnectionStatus::Connected, 1, None);
    assert_eq!(a, SupervisorAction::AwaitChild);
    let (r, a) = check(&mut sup, SupervisorEvent::ChildExited(Some(255)));
    assert!(r.is_none());
    assert_eq!(a, SupervisorAction::CheckShutdown);
    let (r, a) = check(&mut sup, SupervisorEvent::ShutdownChecked(false));
    expect_report(r, ConnectionStatus::Failed, 1, Some("ssh exited with status 255"));
    assert_eq!(a, SupervisorAction::CheckShutdown);
    let (r, a) = check(&mut sup, SupervisorEvent::ShutdownChecked(false));
    expect_report(r, ConnectionStatus::Reconnecting, 1, Some("retry in 1 seconds"));
    assert_eq!(a, SupervisorAction::Sleep(1));
    let (r, a) = check(&mut sup, SupervisorEvent::Slept);
    assert!(r.is_none());
    assert_eq!(a, SupervisorAction::CheckShutdown);
    let (r, _) = check(&mut sup, SupervisorEvent::ShutdownChecked(false));
    expect_report(r, ConnectionStatus::Connecting, 2, None);
}

#[test]
fn supervisor_backoff_doubles_up_to_thirty() {
    let mut sup = TunnelSupervisor::new("office".to_string(), &office());
    let mut delays = Vec::new();
    for _ in 0..8 {
        check(&mut sup, SupervisorEvent::ShutdownChecked(false));
        let (r, _) = check(&mut sup, SupervisorEvent::SpawnFailed("no ssh".to_string()));
        let e = r.unwrap();
        assert_eq!(e.status, ConnectionStatus::Failed);
        assert_eq!(e.message, Some("no ssh".to_string()));
        let (_, a) = check(&mut sup, SupervisorEvent::ShutdownChecked(false));
        match a {
            SupervisorAction::Sleep(secs) => delays.push(secs),
            other => panic!("unexpected action {:?}", other),
        }
        check(&mut sup, SupervisorEvent::Slept);
    }
    assert_eq!(delays, vec![1, 2, 4, 8, 16, 30, 30, 30]);
    assert_eq!(sup.progress().attempt, 8);
}

#[test]
fn supervisor_connection_resets_backoff() {
    let mut sup = TunnelSupervisor::new("office".to_string(), &office());
    for _ in 0..3 {
        check(&mut sup, SupervisorEvent::ShutdownChecked(false));
        check(&mut sup, SupervisorEvent::SpawnFailed("x".to_string()));
        check(&mut sup, SupervisorEvent::ShutdownChecked(false));
        check(&mut sup, SupervisorEvent::Slept);
    }
    assert_eq!(sup.progress().backoff_secs, 8);
    check(&mut sup, SupervisorEvent::ShutdownChecked(false));
    check(&mut sup, SupervisorEvent::Spawned);
    assert_eq!(sup.progress().backoff_secs, 1);
    let (r, _) = check(&mut sup, SupervisorEvent::WaitFailed("wait failed".to_string()));
    expect_report(r, ConnectionStatus::Failed, 4, Some("wait failed"));
    let (r, a) = check(&mut sup, SupervisorEvent::ShutdownChecked(false));
    expect_report(r, ConnectionStatus::Reconnecting, 4, Some("retry in 1 seconds"));
    assert_eq!(a, SupervisorAction::Sleep(1));
}

#[test]
fn supervisor_shutdown_while_running_kills_child() {
    let mut sup = TunnelSupervisor::new("office".to_string(), &office());
    check(&mut sup, SupervisorEvent::ShutdownChecked(false));
    check(&mut sup, SupervisorEvent::Spawned);
    let (r, a) = check(&mut sup, SupervisorEvent::ShutdownSignalled);
    assert!(r.is_none());
    assert_eq!(a, SupervisorAction::StopChild);
    let (r, a) = check(&mut sup, SupervisorEvent::ChildStopped);
    expect_report(r, ConnectionStatus::Stopped, 1, None);
    assert_eq!(a, SupervisorAction::Finish);
}

#[test]
fn supervisor_shutdown_after_exit_stops_without_failure() {
    let mut sup = TunnelSupervisor::new("office".to_string(), &office());
    check(&mut sup, SupervisorEvent::ShutdownChecked(false));
    check(&mut sup, SupervisorEvent::Spawned);
    check(&mut sup, SupervisorEvent::ChildExited(None));
    let (r, a) = check(&mut sup, SupervisorEvent::ShutdownChecked(true));
    expect_report(r, ConnectionStatus::Stopped, 1, None);
    assert_eq!(a, SupervisorAction::Finish);
}

#[test]
fn supervisor_signal_exit_message() {
    let mut sup = TunnelSupervisor::new("office".to_string(), &office());
    check(&mut sup, SupervisorEvent::ShutdownChecked(false));
    check(&mut sup, SupervisorEvent::Spawned);
    check(&mut sup, SupervisorEvent::ChildExited(None));
    let (r, _) = check(&mut sup, SupervisorEvent::ShutdownChecked(false));
    expect_report(r, ConnectionStatus::Failed, 1, Some("ssh terminated by signal"));
}

#[test]
fn supervisor_shutdown_before_retry() {
    let mut sup = TunnelSupervisor::new("office".to_string(), &office());
    check(&mut sup, SupervisorEvent::ShutdownChecked(false));
    check(&mut sup, SupervisorEvent::SpawnFailed("x".to_string()));
    let (r, a) = check(&mut sup, SupervisorEvent::ShutdownChecked(true));
    expect_report(r, ConnectionStatus::Stopped, 1, None);
    assert_eq!(a, SupervisorAction::Finish);
}

#[test]
fn supervisor_finished_ignores_everything() {
    let mut sup = TunnelSupervisor::new("office".to_string(), &office());
    check(&mut sup, SupervisorEvent::ShutdownChecked(true));
    let before = sup.progress();
    for event in [
        SupervisorEvent::ShutdownChecked(false),
        SupervisorEvent::Spawned,
        SupervisorEvent::Slept,
        SupervisorEvent::ChildStopped,
    ] {
        let (r, a) = check(&mut sup, event);
        assert!(r.is_none());
        assert_eq!(a, SupervisorAction::Finish);
        assert_eq!(sup.progress(), before);
    }
}

#[test]
fn supervisor_ignores_events_it_does_not_wait_for() {
    let mut sup = TunnelSupervisor::new("office".to_string(), &office());
    let (r, a) = check(&mut sup, SupervisorEvent::Spawned);
    assert!(r.is_none());
    assert_eq!(a, SupervisorAction::CheckShutdown);
    assert_eq!(sup.progress().phase, Phase::CheckingBeforeAttempt);
}
