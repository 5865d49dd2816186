//! The run itself, as a state machine. The driver performs one
//! outside action per state (resolve, connect, handshake,
//! authenticate, run a probe command) and feeds the outcome back as
//! an event; every decision about how the run proceeds is made here.
//!
//! Resolution and connection failures are soft stops: the run ends
//! with exit code zero and no report. Handshake, authentication,
//! command and parse failures are hard errors: exit code one, no
//! report.

use vstd::prelude::*;

use crate::report::{build_report, report_of, ReportView, UtilizationReport};
use crate::number::is_valid_decimal;
use crate::text::trim_str;
use crate::text::trimmed;

verus! {

/// Why a run ended early with exit code zero.
#[derive(Clone, Copy, Debug, PartialEq, Eq, Structural)]
pub enum SoftStop {
    ResolveFailed,
    NoAddresses,
    ConnectFailed,
}

/// Why a run ended with a failure exit code.
#[derive(Clone, Copy, Debug, PartialEq, Eq, Structural)]
pub enum HardError {
    HandshakeFailed,
    AuthFailed,
    CommandFailed,
    MemoryNotNumeric,
}

/// Where a run stands: which outside action is awaited, what has been
/// gathered so far, or how it ended. Command outputs are stored
/// trimmed.
pub enum State {
    Resolving,
    Connecting,
    Handshaking,
    Authenticating,
    RunningCpu,
    RunningMemory { cpu: String },
    RunningDisk { cpu: String, memory: String },
    Done { report: UtilizationReport },
    SoftStopped { reason: SoftStop },
    Failed { error: HardError },
}

/// The outcome of one outside action, fed back by the driver.
pub enum Event {
    Resolved { addr_count: usize },
    ResolveFailed,
    Connected,
    ConnectFailed,
    HandshakeOk,
    HandshakeFailed,
    AuthOk,
    AuthFailed,
    CommandDone { output: String },
    CommandFailed,
}

/// The mathematical shape of a state.
pub enum StateView {
    Resolving,
    Connecting,
    Handshaking,
    Authenticating,
    RunningCpu,
    RunningMemory { cpu: Seq<char> },
    RunningDisk { cpu: Seq<char>, memory: Seq<char> },
    Done { report: ReportView },
    SoftStopped { reason: SoftStop },
    Failed { error: HardError },
}

/// The mathematical shape of an event.
pub enum EventView {
    Resolved { addr_count: usize },
    ResolveFailed,
    Connected,
    ConnectFailed,
    HandshakeOk,
    HandshakeFailed,
    AuthOk,
    AuthFailed,
    CommandDone { output: Seq<char> },
    CommandFailed,
}

impl View for State {
    type V = StateView;

    open spec fn view(&self) -> StateView {
        match self {
            State::Resolving => StateView::Resolving,
            State::Connecting => StateView::Connecting,
            State::Handshaking => StateView::Handshaking,
            State::Authenticating => StateView::Authenticating,
            State::RunningCpu => StateView::RunningCpu,
            State::RunningMemory { cpu } => StateView::RunningMemory { cpu: cpu@ },
            State::RunningDisk { cpu, memory } => StateView::RunningDisk {
                cpu: cpu@,
                memory: memory@,
            },
            State::Done { report } => StateView::Done { report: report@ },
            State::SoftStopped { reason } => StateView::SoftStopped { reason: *reason },
            State::Failed { error } => StateView::Failed { error: *error },
        }
    }
}

impl View for Event {
    type V = EventView;

    open spec fn view(&self) -> EventView {
        match self {
            Event::Resolved { addr_count } => EventView::Resolved { addr_count: *addr_count },
            Event::ResolveFailed => EventView::ResolveFailed,
            Event::Connected => EventView::Connected,
            Event::ConnectFailed => EventView::ConnectFailed,
            Event::HandshakeOk => EventView::HandshakeOk,
            Event::HandshakeFailed => EventView::HandshakeFailed,
            Event::AuthOk => EventView::AuthOk,
            Event::AuthFailed => EventView::AuthFailed,
            Event::CommandDone { output } => EventView::CommandDone { output: output@ },
            Event::CommandFailed => EventView::CommandFailed,
        }
    }
}

/// How a state answers an event. An event that does not belong to the
/// state, and any event after the run has ended, leaves the state
/// unchanged.
pub open spec fn step_view(s: StateView, e: EventView) -> StateView {
    match (s, e) {
        (StateView::Resolving, EventView::Resolved { addr_count }) => if addr_count > 0 {
            StateView::Connecting
        } else {
            StateView::SoftStopped { reason: SoftStop::NoAddresses }
        },
        (StateView::Resolving, EventView::ResolveFailed) => StateView::SoftStopped {
            reason: SoftStop::ResolveFailed,
        },
        (StateView::Connecting, EventView::Connected) => StateView::Handshaking,
        (StateView::Connecting, EventView::ConnectFailed) => StateView::SoftStopped {
            reason: SoftStop::ConnectFailed,
        },
        (StateView::Handshaking, EventView::HandshakeOk) => StateView::Authenticating,
        (StateView::Handshaking, EventView::HandshakeFailed) => StateView::Failed {
            error: HardError::HandshakeFailed,
        },
        (StateView::Authenticating, EventView::AuthOk) => StateView::RunningCpu,
        (StateView::Authenticating, EventView::AuthFailed) => StateView::Failed {
            error: HardError::AuthFailed,
        },
        (StateView::RunningCpu, EventView::CommandDone { output }) => StateView::RunningMemory {
            cpu: trimmed(output),
        },
        (StateView::RunningCpu, EventView::CommandFailed) => StateView::Failed {
            error: HardError::CommandFailed,
        },
        (StateView::RunningMemory { cpu }, EventView::CommandDone { output }) => {
            StateView::RunningDisk { cpu, memory: trimmed(output) }
        },
        (StateView::RunningMemory { .. }, EventView::CommandFailed) => StateView::Failed {
            error: HardError::CommandFailed,
        },
        (StateView::RunningDisk { cpu, memory }, EventView::CommandDone { output }) => {
            if is_valid_decimal(memory) {
                StateView::Done { report: report_of(cpu, memory, trimmed(output)) }
            } else {
                StateView::Failed { error: HardError::MemoryNotNumeric }
            }
        },
        (StateView::RunningDisk { .. }, EventView::CommandFailed) => StateView::Failed {
            error: HardError::CommandFailed,
        },
        (other, _) => other,
    }
}

/// Whether the run has ended, one way or another.
pub open spec fn is_terminal_view(s: StateView) -> bool {
    s is Done || s is SoftStopped || s is Failed
}

/// The process exit code a state calls for: zero after a completed
/// run and after a soft stop, one otherwise (a run abandoned midway
/// counts as failed).
pub open spec fn exit_code_view(s: StateView) -> int {
    if s is Done || s is SoftStopped {
        0
    } else {
        1
    }
}

/// The report a state carries: one exists exactly when the run
/// completed.
pub open spec fn report_view_of(s: StateView) -> Option<ReportView> {
    match s {
        StateView::Done { report } => Some(report),
        _ => None,
    }
}

/// The CPU probe: the sum of the user and system fields of `top`.
pub open spec fn cpu_command_text() -> Seq<char> {
    "top -bn1 | grep 'Cpu(s)' | awk '{print $2 + $4}'"@
}

/// The memory probe: used over total from `free`, times one hundred.
pub open spec fn memory_command_text() -> Seq<char> {
    "free | grep Mem | awk '{print $3/$2 * 100.0}'"@
}

/// The disk probe: the root usage percentage from `df`.
pub open spec fn disk_command_text() -> Seq<char> {
    "df -h / | awk 'NR==2 {print $5}'"@
}

/// The probe command a state awaits, if it awaits one.
pub open spec fn command_view(s: StateView) -> Option<Seq<char>> {
    match s {
        StateView::RunningCpu => Some(cpu_command_text()),
        StateView::RunningMemory { .. } => Some(memory_command_text()),
        StateView::RunningDisk { .. } => Some(disk_command_text()),
        _ => None,
    }
}

impl State {
    /// A fresh run, about to resolve the host.
    pub fn initial() -> (s: State)
        ensures
            s@ == StateView::Resolving,
    {
        State::Resolving
    }

    /// Answer one event.
    pub fn step(self, event: Event) -> (next: State)
        ensures
            next@ == step_view(self@, event@),
    {
        match (self, event) {
            (State::Resolving, Event::Resolved { addr_count }) => {
                if addr_count > 0 {
                    State::Connecting
                } else {
                    State::SoftStopped { reason: SoftStop::NoAddresses }
                }
            },
            (State::Resolving, Event::ResolveFailed) => State::SoftStopped {
                reason: SoftStop::ResolveFailed,
            },
            (State::Connecting, Event::Connected) => State::Handshaking,
            (State::Connecting, Event::ConnectFailed) => State::SoftStopped {
                reason: SoftStop::ConnectFailed,
            },
            (State::Handshaking, Event::HandshakeOk) => State::Authenticating,
            (State::Handshaking, Event::HandshakeFailed) => State::Failed {
                error: HardError::HandshakeFailed,
            },
            (State::Authenticating, Event::AuthOk) => State::RunningCpu,
            (State::Authenticating, Event::AuthFailed) => State::Failed {
                error: HardError::AuthFailed,
            },
            (State::RunningCpu, Event::CommandDone { output }) => State::RunningMemory {
                cpu: trim_str(output.as_str()),
            },
            (State::RunningCpu, Event::CommandFailed) => State::Failed {
                error: HardError::CommandFailed,
            },
            (State::RunningMemory { cpu }, Event::CommandDone { output }) => State::RunningDisk {
                cpu,
                memory: trim_str(output.as_str()),
            },
            (State::RunningMemory { .. }, Event::CommandFailed) => State::Failed {
                error: HardError::CommandFailed,
            },
            (State::RunningDisk { cpu, memory }, Event::CommandDone { output }) => {
                let disk = trim_str(output.as_str());
                match build_report(cpu, memory.as_str(), disk) {
                    Ok(report) => State::Done { report },
                    Err(_) => State::Failed { error: HardError::MemoryNotNumeric },
                }
            },
            (State::RunningDisk { .. }, Event::CommandFailed) => State::Failed {
                error: HardError::CommandFailed,
            },
            (other, _) => other,
        }
    }

    /// Whether the run has ended.
    pub fn is_terminal(&self) -> (b: bool)
        ensures
            b == is_terminal_view(self@),
    {
        matches!(
            self,
            State::Done { .. } | State::SoftStopped { .. } | State::Failed { .. }
        )
    }

    /// The process exit code this state calls for.
    pub fn exit_code(&self) -> (c: i32)
        ensures
            c as int == exit_code_view(self@),
    {
        match self {
            State::Done { .. } => 0,
            State::SoftStopped { .. } => 0,
            _ => 1,
        }
    }

    /// The probe command to run next, if one is awaited.
    pub fn command(&self) -> (r: Option<&'static str>)
        ensures
            r matches Some(c) ==> command_view(self@) == Some(c@),
            r is None ==> command_view(self@) is None,
    {
        match self {
            State::RunningCpu => Some("top -bn1 | grep 'Cpu(s)' | awk '{print $2 + $4}'"),
            State::RunningMemory { .. } => Some("free | grep Mem | awk '{print $3/$2 * 100.0}'"),
            State::RunningDisk { .. } => Some("df -h / | awk 'NR==2 {print $5}'"),
            _ => None,
        }
    }

    /// The report, when the run completed.
    pub fn into_report(self) -> (r: Option<UtilizationReport>)
        ensures
            r matches Some(rep) ==> report_view_of(self@) == Some(rep@),
            r is None ==> report_view_of(self@) is None,
    {
        match self {
            State::Done { report } => Some(report),
            _ => None,
        }
    }
}

/// The state a run reaches from `s` after answering `events` in
/// order.
pub open spec fn run_from(s: StateView, events: Seq<EventView>) -> StateView
    decreases events.len(),
{
    if events.len() == 0 {
        s
    } else {
        run_from(step_view(s, events[0]), events.skip(1))
    }
}

/// The state a run reaches from the start after answering `events`.
pub open spec fn run(events: Seq<EventView>) -> StateView {
    run_from(StateView::Resolving, events)
}

/// Once a run has ended, no further event changes it.
pub proof fn lemma_terminal_absorbs(s: StateView, events: Seq<EventView>)
    requires
        is_terminal_view(s),
    ensures
        run_from(s, events) == s,
    decreases events.len(),
{
    if events.len() > 0 {
        assert(step_view(s, events[0]) == s);
        lemma_terminal_absorbs(s, events.skip(1));
    }
}

/// When the host does not resolve, the run is a soft stop: whatever
/// follows, the exit code is zero and no report is produced.
pub proof fn lemma_resolve_failure_soft_stops(events: Seq<EventView>)
    requires
        events.len() >= 1,
        events[0] == EventView::ResolveFailed,
    ensures
        run(events) == (StateView::SoftStopped { reason: SoftStop::ResolveFailed }),
        exit_code_view(run(events)) == 0,
        report_view_of(run(events)) is None,
{
    let s1 = step_view(StateView::Resolving, events[0]);
    lemma_terminal_absorbs(s1, events.skip(1));
}

/// When the host resolves but the connection fails, the run is a soft
/// stop: whatever follows, the exit code is zero and no report is
/// produced.
pub proof fn lemma_connect_failure_soft_stops(events: Seq<EventView>, addr_count: usize)
    requires
        events.len() >= 2,
        events[0] == (EventView::Resolved { addr_count }),
        addr_count > 0,
        events[1] == EventView::ConnectFailed,
    ensures
        run(events) == (StateView::SoftStopped { reason: SoftStop::ConnectFailed }),
        exit_code_view(run(events)) == 0,
        report_view_of(run(events)) is None,
{
    let r1 = events.skip(1);
    let s1 = step_view(StateView::Resolving, events[0]);
    assert(s1 == StateView::Connecting);
    assert(r1[0] == events[1]);
    let s2 = step_view(s1, r1[0]);
    assert(run(events) == run_from(s1, r1));
    assert(run_from(s1, r1) == run_from(s2, r1.skip(1)));
    lemma_terminal_absorbs(s2, r1.skip(1));
}

/// When the connection succeeds but the credentials are refused, the
/// run is a hard error: whatever follows, the exit code is not zero
/// and no report is produced.
pub proof fn lemma_auth_failure_is_hard_error(events: Seq<EventView>, addr_count: usize)
    requires
        events.len() >= 4,
        events[0] == (EventView::Resolved { addr_count }),
        addr_count > 0,
        events[1] == EventView::Connected,
        events[2] == EventView::HandshakeOk,
        events[3] == EventView::AuthFailed,
    ensures
        run(events) == (StateView::Failed { error: HardError::AuthFailed }),
        exit_code_view(run(events)) != 0,
        report_view_of(run(events)) is None,
{
    let r1 = events.skip(1);
    let r2 = r1.skip(1);
    let r3 = r2.skip(1);
    assert(r1[0] == events[1] && r2[0] == events[2] && r3[0] == events[3]);
    let s1 = step_view(StateView::Resolving, events[0]);
    let s2 = step_view(s1, r1[0]);
    let s3 = step_view(s2, r2[0]);
    let s4 = step_view(s3, r3[0]);
    assert(run(events) == run_from(s1, r1));
    assert(run_from(s1, r1) == run_from(s2, r2));
    assert(run_from(s2, r2) == run_from(s3, r3));
    assert(run_from(s3, r3) == run_from(s4, r3.skip(1)));
    lemma_terminal_absorbs(s4, r3.skip(1));
}

/// A run that reaches all three probes ends on the memory text alone:
/// when its trimmed output is a decimal text, the run completes with
/// the report assembled from the three trimmed outputs and exit code
/// zero; when it is not, the run is a hard parse error, with a
/// failure exit code and no report.
pub proof fn lemma_full_run(
    events: Seq<EventView>,
    addr_count: usize,
    cpu_out: Seq<char>,
    mem_out: Seq<char>,
    disk_out: Seq<char>,
)
    requires
        events.len() >= 7,
        events[0] == (EventView::Resolved { addr_count }),
        addr_count > 0,
        events[1] == EventView::Connected,
        events[2] == EventView::HandshakeOk,
        events[3] == EventView::AuthOk,
        events[4] == (EventView::CommandDone { output: cpu_out }),
        events[5] == (EventView::CommandDone { output: mem_out }),
        events[6] == (EventView::CommandDone { output: disk_out }),
    ensures
        is_valid_decimal(trimmed(mem_out)) ==> run(events) == (StateView::Done {
            report: report_of(trimmed(cpu_out), trimmed(mem_out), trimmed(disk_out)),
        }) && exit_code_view(run(events)) == 0,
        !is_valid_decimal(trimmed(mem_out)) ==> run(events) == (StateView::Failed {
            error: HardError::MemoryNotNumeric,
        }) && exit_code_view(run(events)) != 0 && report_view_of(run(events)) is None,
{
    let r1 = events.skip(1);
    let r2 = r1.skip(1);
    let r3 = r2.skip(1);
    let r4 = r3.skip(1);
    let r5 = r4.skip(1);
    let r6 = r5.skip(1);
    assert(r1[0] == events[1] && r2[0] == events[2] && r3[0] == events[3]);
    assert(r4[0] == events[4] && r5[0] == events[5] && r6[0] == events[6]);
    let s1 = step_view(StateView::Resolving, events[0]);
    let s2 = step_view(s1, r1[0]);
    let s3 = step_view(s2, r2[0]);
    let s4 = step_view(s3, r3[0]);
    let s5 = step_view(s4, r4[0]);
    let s6 = step_view(s5, r5[0]);
    let s7 = step_view(s6, r6[0]);
    assert(run(events) == run_from(s1, r1));
    assert(run_from(s1, r1) == run_from(s2, r2));
    assert(run_from(s2, r2) == run_from(s3, r3));
    assert(run_from(s3, r3) == run_from(s4, r4));
    assert(run_from(s4, r4) == run_from(s5, r5));
    assert(run_from(s5, r5) == run_from(s6, r6));
    assert(run_from(s6, r6) == run_from(s7, r6.skip(1)));
    lemma_terminal_absorbs(s7, r6.skip(1));
}

} // verus!
