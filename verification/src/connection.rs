//! The life of one namespace's SSH tunnel: the command that opens it, the status
//! reports it produces, and the supervisor that decides when to retry and when to stop.

use vstd::prelude::*;
use crate::config::{Forward, Namespace, NamespaceView};
use vstd::arithmetic::power2::{pow2, lemma_pow2_unfold};
use crate::text::{decimal, push_decimal, push_signed_decimal, signed_decimal, views};

verus! {

/// Where a namespace's tunnel stands.
#[derive(Debug, Clone, Copy, PartialEq, Eq, Structural)]
pub enum ConnectionStatus {
    Connecting,
    Connected,
    Reconnecting,
    Failed,
    Stopped,
}

/// A local port and the remote port it is forwarded to.
#[derive(Debug, Clone, Copy, PartialEq, Eq, Structural)]
pub struct ForwardBinding {
    pub local: u16,
    pub remote: u16,
}

/// `local -> target:remote`, the label under which a forward is reported.
pub open spec fn forward_label_spec(f: Forward, target_ip: Seq<char>) -> Seq<char> {
    decimal(f.local as nat) + " -> "@ + target_ip + ":"@ + decimal(f.remote as nat)
}

/// `local:target:remote`, the argument of ssh's `-L` option for a forward.
pub open spec fn forward_spec_arg(f: Forward, target_ip: Seq<char>) -> Seq<char> {
    decimal(f.local as nat) + ":"@ + target_ip + ":"@ + decimal(f.remote as nat)
}

/// The labels of all forwards of a namespace, in order.
pub open spec fn forward_labels_spec(ns: NamespaceView) -> Seq<Seq<char>> {
    ns.forwards.map_values(|f: Forward| forward_label_spec(f, ns.target_ip))
}

/// `-L binding` for each forward, in order.
pub open spec fn tunnel_args(forwards: Seq<Forward>, target_ip: Seq<char>) -> Seq<Seq<char>>
    decreases forwards.len(),
{
    if forwards.len() == 0 {
        Seq::empty()
    } else {
        tunnel_args(forwards.drop_last(), target_ip) + seq![
            "-L"@,
            forward_spec_arg(forwards.last(), target_ip),
        ]
    }
}

/// `-p port user@host`: where ssh connects to.
pub open spec fn destination_args(ns: NamespaceView) -> Seq<Seq<char>> {
    seq!["-p"@, decimal(ns.ssh_port as nat), ns.ssh_user + "@"@ + ns.ssh_host]
}

/// The arguments of the supervised ssh process: no remote command, fail when a
/// forward cannot be set up, keep-alive probes, no interactive prompts; then the
/// forwards and the destination.
pub open spec fn supervised_ssh_args_spec(ns: NamespaceView) -> Seq<Seq<char>> {
    seq![
        "-N"@,
        "-o"@,
        "ExitOnForwardFailure=yes"@,
        "-o"@,
        "ServerAliveInterval=30"@,
        "-o"@,
        "ServerAliveCountMax=3"@,
        "-o"@,
        "BatchMode=yes"@,
    ] + tunnel_args(ns.forwards, ns.target_ip) + destination_args(ns)
}

/// The arguments of a plain ssh tunnel process: no remote command, the forwards, the destination.
pub open spec fn plain_ssh_args_spec(ns: NamespaceView) -> Seq<Seq<char>> {
    seq!["-N"@] + tunnel_args(ns.forwards, ns.target_ip) + destination_args(ns)
}

/// The label under which a forward is reported: `local -> target:remote`.
pub fn forward_label(forward: Forward, target_ip: &String) -> (s: String)
    ensures
        s@ == forward_label_spec(forward, target_ip@),
{
    let mut s = String::new();
    push_decimal(&mut s, forward.local as u64);
    s.append(" -> ");
    s.append(target_ip.as_str());
    s.append(":");
    push_decimal(&mut s, forward.remote as u64);
    proof {
        assert(s@ =~= forward_label_spec(forward, target_ip@));
    }
    s
}

/// The argument of ssh's `-L` option for a forward: `local:target:remote`.
pub fn forward_arg(forward: Forward, target_ip: &String) -> (s: String)
    ensures
        s@ == forward_spec_arg(forward, target_ip@),
{
    let mut s = String::new();
    push_decimal(&mut s, forward.local as u64);
    s.append(":");
    s.append(target_ip.as_str());
    s.append(":");
    push_decimal(&mut s, forward.remote as u64);
    proof {
        assert(s@ =~= forward_spec_arg(forward, target_ip@));
    }
    s
}

/// The labels of all forwards of a namespace, in order.
pub fn forward_labels(ns: &Namespace) -> (r: Vec<String>)
    ensures
        views(r@) == forward_labels_spec(ns@),
{
    let mut r: Vec<String> = Vec::new();
    let mut i: usize = 0;
    while i < ns.forwards.len()
        invariant
            0 <= i <= ns.forwards@.len(),
            r@.len() == i,
            forall|j: int| 0 <= j < i ==> #[trigger] r@[j]@ == forward_label_spec(ns.forwards@[j], ns.target_ip@),
        decreases ns.forwards@.len() - i,
    {
        r.push(forward_label(ns.forwards[i], &ns.target_ip));
        i = i + 1;
    }
    proof {
        assert(views(r@) =~= forward_labels_spec(ns@));
    }
    r
}

fn push_tunnel_args(args: &mut Vec<String>, ns: &Namespace)
    ensures
        views(final(args)@) == views(old(args)@) + tunnel_args(ns.forwards@, ns.target_ip@),
{
    let ghost start = views(args@);
    let mut i: usize = 0;
    proof {
        assert(ns.forwards@.take(0) =~= Seq::<Forward>::empty());
        assert(views(args@) =~= start + tunnel_args(ns.forwards@.take(0), ns.target_ip@));
    }
    while i < ns.forwards.len()
        invariant
            0 <= i <= ns.forwards@.len(),
            views(args@) == start + tunnel_args(ns.forwards@.take(i as int), ns.target_ip@),
        decreases ns.forwards@.len() - i,
    {
        let ghost before = views(args@);
        args.push(String::from_str("-L"));
        args.push(forward_arg(ns.forwards[i], &ns.target_ip));
        proof {
            let taken = ns.forwards@.take(i + 1);
            assert(taken.drop_last() =~= ns.forwards@.take(i as int));
            assert(taken.last() == ns.forwards@[i as int]);
            assert(views(args@) =~= before + seq!["-L"@, forward_spec_arg(ns.forwards@[i as int], ns.target_ip@)]);
            assert(views(args@) =~= start + tunnel_args(taken, ns.target_ip@));
        }
        i = i + 1;
    }
    proof {
        assert(ns.forwards@.take(ns.forwards@.len() as int) =~= ns.forwards@);
    }
}

fn push_destination_args(args: &mut Vec<String>, ns: &Namespace)
    ensures
        views(final(args)@) == views(old(args)@) + destination_args(ns@),
{
    let ghost before = views(args@);
    args.push(String::from_str("-p"));
    let mut port = String::new();
    push_decimal(&mut port, ns.ssh_port as u64);
    args.push(port);
    let mut destination = ns.ssh_user.clone();
    destination.append("@");
    destination.append(ns.ssh_host.as_str());
    args.push(destination);
    proof {
        assert(views(args@) =~= before + destination_args(ns@));
    }
}

/// The arguments of the supervised ssh process for a namespace.
pub fn supervised_ssh_args(ns: &Namespace) -> (r: Vec<String>)
    ensures
        views(r@) == supervised_ssh_args_spec(ns@),
{
    let mut args: Vec<String> = Vec::new();
    args.push(String::from_str("-N"));
    args.push(String::from_str("-o"));
    args.push(String::from_str("ExitOnForwardFailure=yes"));
    args.push(String::from_str("-o"));
    args.push(String::from_str("ServerAliveInterval=30"));
    args.push(String::from_str("-o"));
    args.push(String::from_str("ServerAliveCountMax=3"));
    args.push(String::from_str("-o"));
    args.push(String::from_str("BatchMode=yes"));
    let ghost options = views(args@);
    push_tunnel_args(&mut args, ns);
    push_destination_args(&mut args, ns);
    proof {
        assert(options =~= seq![
            "-N"@,
            "-o"@,
            "ExitOnForwardFailure=yes"@,
            "-o"@,
            "ServerAliveInterval=30"@,
            "-o"@,
            "ServerAliveCountMax=3"@,
            "-o"@,
            "BatchMode=yes"@,
        ]);
        assert(views(args@) =~= supervised_ssh_args_spec(ns@));
    }
    args
}

/// The arguments of a plain ssh tunnel process for a namespace.
pub fn plain_ssh_args(ns: &Namespace) -> (r: Vec<String>)
    ensures
        views(r@) == plain_ssh_args_spec(ns@),
{
    let mut args: Vec<String> = Vec::new();
    args.push(String::from_str("-N"));
    let ghost options = views(args@);
    push_tunnel_args(&mut args, ns);
    push_destination_args(&mut args, ns);
    proof {
        assert(options =~= seq!["-N"@]);
        assert(views(args@) =~= plain_ssh_args_spec(ns@));
    }
    args
}


/// A report on the state of a namespace's tunnel.
#[derive(Debug)]
pub struct StatusEvent {
    pub namespace: String,
    pub status: ConnectionStatus,
    pub attempt: u32,
    pub message: Option<String>,
    pub forwards: Vec<String>,
}

/// The mathematical value of a [`StatusEvent`].
pub struct StatusEventView {
    pub namespace: Seq<char>,
    pub status: ConnectionStatus,
    pub attempt: u32,
    pub message: Option<Seq<char>>,
    pub forwards: Seq<Seq<char>>,
}

/// The view of an optional string.
pub open spec fn opt_view(o: Option<String>) -> Option<Seq<char>> {
    match o {
        Some(s) => Some(s@),
        None => None,
    }
}

impl View for StatusEvent {
    type V = StatusEventView;

    open spec fn view(&self) -> StatusEventView {
        StatusEventView {
            namespace: self.namespace@,
            status: self.status,
            attempt: self.attempt,
            message: opt_view(self.message),
            forwards: views(self.forwards@),
        }
    }
}

/// A copy of a list of strings.
pub fn copy_strings(strings: &[String]) -> (r: Vec<String>)
    ensures
        r@ == strings@,
{
    let mut r: Vec<String> = Vec::new();
    let mut i: usize = 0;
    while i < strings.len()
        invariant
            0 <= i <= strings@.len(),
            r@ == strings@.take(i as int),
        decreases strings@.len() - i,
    {
        r.push(strings[i].clone());
        proof {
            assert(r@ =~= strings@.take(i + 1));
        }
        i = i + 1;
    }
    proof {
        assert(strings@.take(strings@.len() as int) =~= strings@);
    }
    r
}

impl StatusEvent {
    /// A report with its own copy of the forward labels.
    pub fn new(
        namespace: String,
        status: ConnectionStatus,
        attempt: u32,
        message: Option<String>,
        forwards: &[String],
    ) -> (e: Self)
        ensures
            e@ == (StatusEventView {
                namespace: namespace@,
                status,
                attempt,
                message: opt_view(message),
                forwards: views(forwards@),
            }),
    {
        StatusEvent { namespace, status, attempt, message, forwards: copy_strings(forwards) }
    }
}

/// The report of a child process that ended: its exit code, or that a signal ended it.
pub open spec fn exit_message_spec(code: Option<i32>) -> Seq<char> {
    match code {
        Some(c) => "ssh exited with status "@ + signed_decimal(c as int),
        None => "ssh terminated by signal"@,
    }
}

/// The report that a new attempt follows after `secs` seconds.
pub open spec fn retry_message_spec(secs: u64) -> Seq<char> {
    "retry in "@ + decimal(secs as nat) + " seconds"@
}

/// The report of a child process that ended: its exit code, or that a signal ended it.
pub fn exit_message(code: Option<i32>) -> (s: String)
    ensures
        s@ == exit_message_spec(code),
{
    match code {
        Some(c) => {
            let mut s = String::from_str("ssh exited with status ");
            push_signed_decimal(&mut s, c);
            s
        },
        None => String::from_str("ssh terminated by signal"),
    }
}

/// The report that a new attempt follows after `secs` seconds.
pub fn retry_message(secs: u64) -> (s: String)
    ensures
        s@ == retry_message_spec(secs),
{
    let mut s = String::from_str("retry in ");
    push_decimal(&mut s, secs);
    s.append(" seconds");
    s
}

/// The delay before the first retry, in seconds.
pub const INITIAL_BACKOFF_SECS: u64 = 1;

/// The longest delay between two attempts, in seconds.
pub const MAX_BACKOFF_SECS: u64 = 30;

/// The delay that follows `secs` after one more failed attempt: doubled, at most the maximum.
pub open spec fn next_backoff(secs: u64) -> u64 {
    if 2 * secs < MAX_BACKOFF_SECS {
        (2 * secs) as u64
    } else {
        MAX_BACKOFF_SECS
    }
}

/// The delays that the supervisor can be waiting with.
pub open spec fn valid_backoff(secs: u64) -> bool {
    secs == 1 || secs == 2 || secs == 4 || secs == 8 || secs == 16 || secs == 30
}

/// What the supervisor is doing or waiting for.
#[derive(Debug, Clone, Copy, PartialEq, Eq, Structural)]
pub enum Phase {
    /// About to start an attempt; waits to learn whether shutdown was requested.
    CheckingBeforeAttempt,
    /// Waits for the ssh process to be started.
    Spawning,
    /// The ssh process runs; waits for it to end or for a shutdown request.
    Running,
    /// Shutdown was requested while ssh ran; waits for the process to be killed.
    StoppingChild,
    /// The ssh process ended with this exit code (none: a signal); waits to learn
    /// whether shutdown was requested.
    CheckingAfterExit(Option<i32>),
    /// An attempt failed; waits to learn whether shutdown was requested.
    CheckingBeforeRetry,
    /// Waits for the delay before the next attempt to pass.
    Sleeping,
    /// The supervisor has stopped for good.
    Finished,
}

/// The state of a supervisor: the number of the current attempt, the delay before
/// the next retry, and the phase.
#[derive(Debug, Clone, Copy, PartialEq, Eq, Structural)]
pub struct Progress {
    pub attempt: u32,
    pub backoff_secs: u64,
    pub phase: Phase,
}

/// What happened, as the driver of a supervisor tells it.
#[derive(Debug)]
pub enum SupervisorEvent {
    /// Whether shutdown has been requested.
    ShutdownChecked(bool),
    /// The ssh process was started.
    Spawned,
    /// The ssh process could not be started, for this reason.
    SpawnFailed(String),
    /// The ssh process ended with this exit code (none: a signal ended it).
    ChildExited(Option<i32>),
    /// Waiting for the ssh process failed, for this reason.
    WaitFailed(String),
    /// Shutdown was requested while the ssh process ran.
    ShutdownSignalled,
    /// The ssh process was killed and reaped.
    ChildStopped,
    /// The delay before the next attempt has passed.
    Slept,
}

/// What the driver of a supervisor is to do next.
#[derive(Debug, Clone, Copy, PartialEq, Eq, Structural)]
pub enum SupervisorAction {
    /// Find out whether shutdown has been requested.
    CheckShutdown,
    /// Start ssh with the supervisor's arguments.
    Spawn,
    /// Wait for the ssh process to end, or for a shutdown request.
    AwaitChild,
    /// Kill the ssh process and wait for it.
    StopChild,
    /// Wait this many seconds.
    Sleep(u64),
    /// Nothing more: the supervisor has stopped.
    Finish,
}

/// The status and message of a report.
pub struct ReportView {
    pub status: ConnectionStatus,
    pub message: Option<Seq<char>>,
}

/// A report without a message.
pub open spec fn plain_report(status: ConnectionStatus) -> Option<ReportView> {
    Some(ReportView { status, message: None })
}

/// A report with a message.
pub open spec fn report_with(status: ConnectionStatus, message: Seq<char>) -> Option<ReportView> {
    Some(ReportView { status, message: Some(message) })
}

/// How the supervisor's state changes on an event, and what it reports.
/// An event that its phase does not wait for changes nothing and reports nothing.
pub open spec fn transition(p: Progress, e: SupervisorEvent) -> (Progress, Option<ReportView>) {
    let stopped = (Progress { phase: Phase::Finished, ..p }, plain_report(ConnectionStatus::Stopped));
    match (p.phase, e) {
        (Phase::CheckingBeforeAttempt, SupervisorEvent::ShutdownChecked(true)) => stopped,
        (Phase::CheckingBeforeAttempt, SupervisorEvent::ShutdownChecked(false)) => {
            let attempt = if p.attempt < u32::MAX { (p.attempt + 1) as u32 } else { p.attempt };
            (
                Progress { attempt, phase: Phase::Spawning, ..p },
                plain_report(ConnectionStatus::Connecting),
            )
        },
        (Phase::Spawning, SupervisorEvent::Spawned) => (
            Progress { backoff_secs: INITIAL_BACKOFF_SECS, phase: Phase::Running, ..p },
            plain_report(ConnectionStatus::Connected),
        ),
        (Phase::Spawning, SupervisorEvent::SpawnFailed(reason)) => (
            Progress { phase: Phase::CheckingBeforeRetry, ..p },
            report_with(ConnectionStatus::Failed, reason@),
        ),
        (Phase::Running, SupervisorEvent::ChildExited(code)) => (
            Progress { phase: Phase::CheckingAfterExit(code), ..p },
            None,
        ),
        (Phase::Running, SupervisorEvent::WaitFailed(reason)) => (
            Progress { phase: Phase::CheckingBeforeRetry, ..p },
            report_with(ConnectionStatus::Failed, reason@),
        ),
        (Phase::Running, SupervisorEvent::ShutdownSignalled) => (
            Progress { phase: Phase::StoppingChild, ..p },
            None,
        ),
        (Phase::StoppingChild, SupervisorEvent::ChildStopped) => stopped,
        (Phase::CheckingAfterExit(_), SupervisorEvent::ShutdownChecked(true)) => stopped,
        (Phase::CheckingAfterExit(code), SupervisorEvent::ShutdownChecked(false)) => (
            Progress { phase: Phase::CheckingBeforeRetry, ..p },
            report_with(ConnectionStatus::Failed, exit_message_spec(code)),
        ),
        (Phase::CheckingBeforeRetry, SupervisorEvent::ShutdownChecked(true)) => stopped,
        (Phase::CheckingBeforeRetry, SupervisorEvent::ShutdownChecked(false)) => (
            Progress { phase: Phase::Sleeping, ..p },
            report_with(ConnectionStatus::Reconnecting, retry_message_spec(p.backoff_secs)),
        ),
        (Phase::Sleeping, SupervisorEvent::Slept) => (
            Progress {
                backoff_secs: next_backoff(p.backoff_secs),
                phase: Phase::CheckingBeforeAttempt,
                ..p
            },
            None,
        ),
        _ => (p, None),
    }
}

/// What the driver is to do in a given state.
pub open spec fn action_for(p: Progress) -> SupervisorAction {
    match p.phase {
        Phase::CheckingBeforeAttempt => SupervisorAction::CheckShutdown,
        Phase::Spawning => SupervisorAction::Spawn,
        Phase::Running => SupervisorAction::AwaitChild,
        Phase::StoppingChild => SupervisorAction::StopChild,
        Phase::CheckingAfterExit(_) => SupervisorAction::CheckShutdown,
        Phase::CheckingBeforeRetry => SupervisorAction::CheckShutdown,
        Phase::Sleeping => SupervisorAction::Sleep(p.backoff_secs),
        Phase::Finished => SupervisorAction::Finish,
    }
}

/// The state of a supervisor before anything happened.
pub open spec fn initial_progress() -> Progress {
    Progress { attempt: 0, backoff_secs: INITIAL_BACKOFF_SECS, phase: Phase::CheckingBeforeAttempt }
}

/// Keeps one namespace's tunnel up: starts ssh, reports each change of state,
/// retries with a growing delay when ssh fails or ends, and stops on request.
pub struct TunnelSupervisor {
    namespace: String,
    forwards: Vec<String>,
    ssh_args: Vec<String>,
    progress: Progress,
}

impl TunnelSupervisor {
    #[verifier::type_invariant]
    spec fn well_formed(self) -> bool {
        valid_backoff(self.progress.backoff_secs)
    }

    /// The current state.
    pub closed spec fn state(&self) -> Progress {
        self.progress
    }

    /// The name of the supervised namespace.
    pub closed spec fn namespace_name(&self) -> Seq<char> {
        self.namespace@
    }

    /// The labels of the forwards, carried by every report.
    pub closed spec fn forward_views(&self) -> Seq<Seq<char>> {
        views(self.forwards@)
    }

    /// The arguments that ssh is started with.
    pub closed spec fn args_view(&self) -> Seq<Seq<char>> {
        views(self.ssh_args@)
    }

    /// A supervisor for the namespace `spec` under the name `name`, before its first attempt.
    pub fn new(name: String, spec: &Namespace) -> (s: Self)
        ensures
            s.state() == initial_progress(),
            s.namespace_name() == name@,
            s.forward_views() == forward_labels_spec(spec@),
            s.args_view() == supervised_ssh_args_spec(spec@),
    {
        TunnelSupervisor {
            namespace: name,
            forwards: forward_labels(spec),
            ssh_args: supervised_ssh_args(spec),
            progress: Progress {
                attempt: 0,
                backoff_secs: INITIAL_BACKOFF_SECS,
                phase: Phase::CheckingBeforeAttempt,
            },
        }
    }

    /// The current state.
    pub fn progress(&self) -> (p: Progress)
        ensures
            p == self.state(),
            valid_backoff(p.backoff_secs),
    {
        proof {
            use_type_invariant(self);
        }
        self.progress
    }

    /// A copy of the arguments that ssh is to be started with.
    pub fn ssh_args(&self) -> (r: Vec<String>)
        ensures
            views(r@) == self.args_view(),
    {
        copy_strings(self.ssh_args.as_slice())
    }

    /// What the driver is to do now.
    pub fn pending_action(&self) -> (a: SupervisorAction)
        ensures
            a == action_for(self.state()),
    {
        match self.progress.phase {
            Phase::CheckingBeforeAttempt => SupervisorAction::CheckShutdown,
            Phase::Spawning => SupervisorAction::Spawn,
            Phase::Running => SupervisorAction::AwaitChild,
            Phase::StoppingChild => SupervisorAction::StopChild,
            Phase::CheckingAfterExit(_) => SupervisorAction::CheckShutdown,
            Phase::CheckingBeforeRetry => SupervisorAction::CheckShutdown,
            Phase::Sleeping => SupervisorAction::Sleep(self.progress.backoff_secs),
            Phase::Finished => SupervisorAction::Finish,
        }
    }

    fn report(&self, status: ConnectionStatus, message: Option<String>) -> (e: StatusEvent)
        ensures
            e@ == (StatusEventView {
                namespace: self.namespace_name(),
                status,
                attempt: self.state().attempt,
                message: opt_view(message),
                forwards: self.forward_views(),
            }),
    {
        StatusEvent::new(
            self.namespace.clone(),
            status,
            self.progress.attempt,
            message,
            self.forwards.as_slice(),
        )
    }

    /// Takes in what happened: moves to the next state, returns the report that the
    /// change calls for, if any, and what the driver is to do next.
    pub fn step(&mut self, event: SupervisorEvent) -> (r: (Option<StatusEvent>, SupervisorAction))
        ensures
            final(self).state() == transition(old(self).state(), event).0,
            final(self).namespace_name() == old(self).namespace_name(),
            final(self).forward_views() == old(self).forward_views(),
            final(self).args_view() == old(self).args_view(),
            match transition(old(self).state(), event).1 {
                None => r.0 is None,
                Some(report) => r.0 matches Some(e) && e@ == (StatusEventView {
                    namespace: old(self).namespace_name(),
                    status: report.status,
                    attempt: final(self).state().attempt,
                    message: report.message,
                    forwards: old(self).forward_views(),
                }),
            },
            r.1 == action_for(final(self).state()),
    {
        proof {
            use_type_invariant(&*self);
        }
        let p = self.progress;
        let report = match (p.phase, event) {
            (Phase::CheckingBeforeAttempt, SupervisorEvent::ShutdownChecked(true)) => {
                self.progress = Progress { phase: Phase::Finished, ..p };
                Some(self.report(ConnectionStatus::Stopped, None))
            },
            (Phase::CheckingBeforeAttempt, SupervisorEvent::ShutdownChecked(false)) => {
                self.progress = Progress { attempt: p.attempt.saturating_add(1), phase: Phase::Spawning, ..p };
                Some(self.report(ConnectionStatus::Connecting, None))
            },
            (Phase::Spawning, SupervisorEvent::Spawned) => {
                self.progress = Progress { backoff_secs: INITIAL_BACKOFF_SECS, phase: Phase::Running, ..p };
                Some(self.report(ConnectionStatus::Connected, None))
            },
            (Phase::Spawning, SupervisorEvent::SpawnFailed(reason)) => {
                self.progress = Progress { phase: Phase::CheckingBeforeRetry, ..p };
                Some(self.report(ConnectionStatus::Failed, Some(reason)))
            },
            (Phase::Running, SupervisorEvent::ChildExited(code)) => {
                self.progress = Progress { phase: Phase::CheckingAfterExit(code), ..p };
                None
            },
            (Phase::Running, SupervisorEvent::WaitFailed(reason)) => {
                self.progress = Progress { phase: Phase::CheckingBeforeRetry, ..p };
                Some(self.report(ConnectionStatus::Failed, Some(reason)))
            },
            (Phase::Running, SupervisorEvent::ShutdownSignalled) => {
                self.progress = Progress { phase: Phase::StoppingChild, ..p };
                None
            },
            (Phase::StoppingChild, SupervisorEvent::ChildStopped) => {
                self.progress = Progress { phase: Phase::Finished, ..p };
                Some(self.report(ConnectionStatus::Stopped, None))
            },
            (Phase::CheckingAfterExit(_), SupervisorEvent::ShutdownChecked(true)) => {
                self.progress = Progress { phase: Phase::Finished, ..p };
                Some(self.report(ConnectionStatus::Stopped, None))
            },
            (Phase::CheckingAfterExit(code), SupervisorEvent::ShutdownChecked(false)) => {
                self.progress = Progress { phase: Phase::CheckingBeforeRetry, ..p };
                Some(self.report(ConnectionStatus::Failed, Some(exit_message(code))))
            },
            (Phase::CheckingBeforeRetry, SupervisorEvent::ShutdownChecked(true)) => {
                self.progress = Progress { phase: Phase::Finished, ..p };
                Some(self.report(ConnectionStatus::Stopped, None))
            },
            (Phase::CheckingBeforeRetry, SupervisorEvent::ShutdownChecked(false)) => {
                self.progress = Progress { phase: Phase::Sleeping, ..p };
                Some(self.report(ConnectionStatus::Reconnecting, Some(retry_message(p.backoff_secs))))
            },
            (Phase::Sleeping, SupervisorEvent::Slept) => {
                let doubled = p.backoff_secs * 2;
                let backoff_secs = if doubled < MAX_BACKOFF_SECS { doubled } else { MAX_BACKOFF_SECS };
                self.progress = Progress { backoff_secs, phase: Phase::CheckingBeforeAttempt, ..p };
                None
            },
            _ => None,
        };
        (report, self.pending_action())
    }
}

/// Once stopped, a supervisor stays stopped: every event leaves it as it is, reports
/// nothing, and the driver is told to finish.
pub proof fn lemma_finished_is_final(p: Progress, e: SupervisorEvent)
    requires
        p.phase == Phase::Finished,
    ensures
        transition(p, e).0 == p,
        transition(p, e).1 is None,
        action_for(p) == SupervisorAction::Finish,
{
}

/// A supervisor stops only on a shutdown request: either it learns that shutdown was
/// requested, or the ssh process it killed on a shutdown request has gone.
pub proof fn lemma_stops_only_on_shutdown(p: Progress, e: SupervisorEvent)
    requires
        p.phase != Phase::Finished,
        transition(p, e).0.phase == Phase::Finished,
    ensures
        e matches SupervisorEvent::ShutdownChecked(true) || e matches SupervisorEvent::ChildStopped,
{
}

/// Whenever it learns that shutdown was requested while it checks, a supervisor stops,
/// and reports `Stopped`.
pub proof fn lemma_shutdown_request_stops(p: Progress)
    requires
        action_for(p) == SupervisorAction::CheckShutdown,
    ensures
        transition(p, SupervisorEvent::ShutdownChecked(true)).0.phase == Phase::Finished,
        transition(p, SupervisorEvent::ShutdownChecked(true)).1 == plain_report(
            ConnectionStatus::Stopped,
        ),
{
}

/// A shutdown request while ssh runs has the process killed, and then the supervisor
/// stops and reports `Stopped`.
pub proof fn lemma_shutdown_while_running(p: Progress)
    requires
        p.phase == Phase::Running,
    ensures
        action_for(transition(p, SupervisorEvent::ShutdownSignalled).0) == SupervisorAction::StopChild,
        transition(transition(p, SupervisorEvent::ShutdownSignalled).0, SupervisorEvent::ChildStopped).0.phase
            == Phase::Finished,
        transition(transition(p, SupervisorEvent::ShutdownSignalled).0, SupervisorEvent::ChildStopped).1
            == plain_report(ConnectionStatus::Stopped),
{
}

/// A running supervisor reports `Stopped` exactly when it stops.
pub proof fn lemma_stopped_report_iff_finished(p: Progress, e: SupervisorEvent)
    requires
        p.phase != Phase::Finished,
    ensures
        (transition(p, e).1 matches Some(r) && r.status == ConnectionStatus::Stopped) <==> transition(
            p,
            e,
        ).0.phase == Phase::Finished,
{
}

/// The attempt number changes only when a new attempt starts, which is reported as
/// `Connecting`; it then grows by one, and stays at its maximum once it has reached it.
pub proof fn lemma_attempt_counting(p: Progress, e: SupervisorEvent)
    ensures
        transition(p, e).0.attempt == p.attempt || (transition(p, e).0.attempt == p.attempt + 1
            && transition(p, e).1 == plain_report(ConnectionStatus::Connecting)),
        transition(p, e).1 == plain_report(ConnectionStatus::Connecting) ==> transition(p, e).0.attempt
            == (if p.attempt < u32::MAX { p.attempt + 1 } else { p.attempt as int }),
{
}

/// A connection resets the delay before the next retry to its initial value.
pub proof fn lemma_connection_resets_backoff(p: Progress, e: SupervisorEvent)
    requires
        transition(p, e).1 == plain_report(ConnectionStatus::Connected),
    ensures
        transition(p, e).0.backoff_secs == INITIAL_BACKOFF_SECS,
{
}

/// The delay before a retry is always one of 1, 2, 4, 8, 16 and 30 seconds.
pub proof fn lemma_backoff_stays_valid(p: Progress, e: SupervisorEvent)
    requires
        valid_backoff(p.backoff_secs),
    ensures
        valid_backoff(transition(p, e).0.backoff_secs),
        1 <= transition(p, e).0.backoff_secs <= MAX_BACKOFF_SECS,
{
}

/// A `Reconnecting` report announces the delay that the supervisor then waits.
pub proof fn lemma_retry_announces_delay(p: Progress, e: SupervisorEvent)
    requires
        transition(p, e).1 matches Some(r) && r.status == ConnectionStatus::Reconnecting,
    ensures
        transition(p, e).1 == report_with(
            ConnectionStatus::Reconnecting,
            retry_message_spec(transition(p, e).0.backoff_secs),
        ),
        action_for(transition(p, e).0) == SupervisorAction::Sleep(transition(p, e).0.backoff_secs),
{
}

/// The delay after `n` waits without a connection in between.
pub open spec fn backoff_after(n: nat) -> u64
    decreases n,
{
    if n == 0 {
        INITIAL_BACKOFF_SECS
    } else {
        next_backoff(backoff_after((n - 1) as nat))
    }
}

/// The delays between attempts double from one second and are capped at thirty:
/// after `n` waits without a connection, the delay is `min(2^n, 30)` seconds.
pub proof fn lemma_backoff_schedule(n: nat)
    ensures
        backoff_after(n) == (if pow2(n) < MAX_BACKOFF_SECS { pow2(n) } else { MAX_BACKOFF_SECS as nat }),
    decreases n,
{
    if n == 0 {
        assert(pow2(0) == 1) by {
            vstd::arithmetic::power2::lemma2_to64();
        }
    } else {
        lemma_backoff_schedule((n - 1) as nat);
        lemma_pow2_unfold(n);
    }
}

proof fn lemma_tunnel_args_layout(forwards: Seq<Forward>, target_ip: Seq<char>)
    ensures
        tunnel_args(forwards, target_ip).len() == 2 * forwards.len(),
        forall|k: int|
            0 <= k < forwards.len() ==> #[trigger] tunnel_args(forwards, target_ip)[2 * k] == "-L"@,
        forall|k: int|
            0 <= k < forwards.len() ==> tunnel_args(forwards, target_ip)[2 * k + 1] == decimal(
                #[trigger] forwards[k].local as nat,
            ) + ":"@ + target_ip + ":"@ + decimal(forwards[k].remote as nat),
    decreases forwards.len(),
{
    if forwards.len() > 0 {
        let front = forwards.drop_last();
        lemma_tunnel_args_layout(front, target_ip);
        let n = forwards.len();
        let t = tunnel_args(forwards, target_ip);
        let ft = tunnel_args(front, target_ip);
        let tail = seq!["-L"@, forward_spec_arg(forwards.last(), target_ip)];
        assert(t == ft + tail);
        assert(ft.len() == 2 * (n - 1));
        assert forall|k: int|
            #![trigger t[2 * k]]
            #![trigger forwards[k].local]
            0 <= k < n implies t[2 * k] == "-L"@ && t[2 * k + 1] == decimal(
            forwards[k].local as nat,
        ) + ":"@ + target_ip + ":"@ + decimal(forwards[k].remote as nat) by {
            if k < n - 1 {
                assert(front[k] == forwards[k]);
                assert(front[k].local == forwards[k].local);
                assert(t[2 * k] == ft[2 * k]);
                assert(t[2 * k + 1] == ft[2 * k + 1]);
            } else {
                assert(k == n - 1);
                assert(t[2 * k] == tail[0]);
                assert(t[2 * k + 1] == tail[1]);
            }
        }
    }
}

/// The supervised ssh arguments: `-N` and the four options `ExitOnForwardFailure=yes`,
/// `ServerAliveInterval=30`, `ServerAliveCountMax=3`, `BatchMode=yes` each after `-o`;
/// then, for each forward in order, `-L` and `local:target_ip:remote`; then `-p` and the
/// ssh port; last `ssh_user@ssh_host`.
pub proof fn lemma_supervised_ssh_args_layout(ns: NamespaceView)
    ensures
        supervised_ssh_args_spec(ns).len() == 12 + 2 * ns.forwards.len(),
        supervised_ssh_args_spec(ns).take(9) == seq![
            "-N"@,
            "-o"@,
            "ExitOnForwardFailure=yes"@,
            "-o"@,
            "ServerAliveInterval=30"@,
            "-o"@,
            "ServerAliveCountMax=3"@,
            "-o"@,
            "BatchMode=yes"@,
        ],
        forall|k: int|
            0 <= k < ns.forwards.len() ==> supervised_ssh_args_spec(ns)[9 + 2 * k] == "-L"@
                && supervised_ssh_args_spec(ns)[10 + 2 * k] == decimal(#[trigger] ns.forwards[k].local as nat)
                + ":"@ + ns.target_ip + ":"@ + decimal(ns.forwards[k].remote as nat),
        supervised_ssh_args_spec(ns)[9 + 2 * (ns.forwards.len() as int)] == "-p"@,
        supervised_ssh_args_spec(ns)[10 + 2 * (ns.forwards.len() as int)] == decimal(ns.ssh_port as nat),
        supervised_ssh_args_spec(ns).last() == ns.ssh_user + "@"@ + ns.ssh_host,
{
    lemma_tunnel_args_layout(ns.forwards, ns.target_ip);
    let a = supervised_ssh_args_spec(ns);
    let n = ns.forwards.len();
    let t = tunnel_args(ns.forwards, ns.target_ip);
    assert(a.take(9) =~= seq![
        "-N"@,
        "-o"@,
        "ExitOnForwardFailure=yes"@,
        "-o"@,
        "ServerAliveInterval=30"@,
        "-o"@,
        "ServerAliveCountMax=3"@,
        "-o"@,
        "BatchMode=yes"@,
    ]);
    assert forall|k: int| 0 <= k < n implies a[9 + 2 * k] == "-L"@ && a[10 + 2 * k] == decimal(
        #[trigger] ns.forwards[k].local as nat,
    ) + ":"@ + ns.target_ip + ":"@ + decimal(ns.forwards[k].remote as nat) by {
        assert(a[9 + 2 * k] == t[2 * k]);
        assert(a[10 + 2 * k] == t[2 * k + 1]);
    }
}

/// The plain ssh arguments: `-N`; then, for each forward in order, `-L` and
/// `local:target_ip:remote`; then `-p` and the ssh port; last `ssh_user@ssh_host`.
pub proof fn lemma_plain_ssh_args_layout(ns: NamespaceView)
    ensures
        plain_ssh_args_spec(ns).len() == 4 + 2 * ns.forwards.len(),
        plain_ssh_args_spec(ns)[0] == "-N"@,
        forall|k: int|
            0 <= k < ns.forwards.len() ==> plain_ssh_args_spec(ns)[1 + 2 * k] == "-L"@
                && plain_ssh_args_spec(ns)[2 + 2 * k] == decimal(#[trigger] ns.forwards[k].local as nat)
                + ":"@ + ns.target_ip + ":"@ + decimal(ns.forwards[k].remote as nat),
        plain_ssh_args_spec(ns)[1 + 2 * (ns.forwards.len() as int)] == "-p"@,
        plain_ssh_args_spec(ns)[2 + 2 * (ns.forwards.len() as int)] == decimal(ns.ssh_port as nat),
        plain_ssh_args_spec(ns).last() == ns.ssh_user + "@"@ + ns.ssh_host,
{
    lemma_tunnel_args_layout(ns.forwards, ns.target_ip);
    let a = plain_ssh_args_spec(ns);
    let n = ns.forwards.len();
    let t = tunnel_args(ns.forwards, ns.target_ip);
    assert forall|k: int| 0 <= k < n implies a[1 + 2 * k] == "-L"@ && a[2 + 2 * k] == decimal(
        #[trigger] ns.forwards[k].local as nat,
    ) + ":"@ + ns.target_ip + ":"@ + decimal(ns.forwards[k].remote as nat) by {
        assert(a[1 + 2 * k] == t[2 * k]);
        assert(a[2 + 2 * k] == t[2 * k + 1]);
    }
}

/// The labels of a namespace's forwards: one per forward, in order, each the local port,
/// ` -> `, the target address, `:`, and the remote port.
pub proof fn lemma_forward_labels_layout(ns: NamespaceView)
    ensures
        forward_labels_spec(ns).len() == ns.forwards.len(),
        forall|k: int|
            0 <= k < ns.forwards.len() ==> forward_labels_spec(ns)[k] == decimal(
                #[trigger] ns.forwards[k].local as nat,
            ) + " -> "@ + ns.target_ip + ":"@ + decimal(ns.forwards[k].remote as nat),
{
}

} // verus!
