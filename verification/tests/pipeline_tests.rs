use sshmon::json::render_report;
use sshmon::pipeline::{Event, State};

fn done_output(output: &str) -> Event {
    Event::CommandDone { output: output.to_string() }
}

#[test]
fn successful_run_builds_the_report() {
    let mut state = State::initial();
    state = state.step(Event::Resolved { addr_count: 1 });
    state = state.step(Event::Connected);
    state = state.step(Event::HandshakeOk);
    state = state.step(Event::AuthOk);
    assert_eq!(
        state.command(),
        Some("top -bn1 | grep 'Cpu(s)' | awk '{print $2 + $4}'")
    );
    state = state.step(done_output(" 3.4\n"));
    assert_eq!(
        state.command(),
        Some("free | grep Mem | awk '{print $3/$2 * 100.0}'")
    );
    // used=2000000, total=8000000: the probe prints the ratio times one
    // hundred, here 25.
    state = state.step(done_output("25\n"));
    assert_eq!(state.command(), Some("df -h / | awk 'NR==2 {print $5}'"));
    state = state.step(done_output("42%\n"));
    assert!(state.is_terminal());
    assert_eq!(state.exit_code(), 0);
    let report = state.into_report().unwrap();
    assert_eq!(report.cpu, "3.4%");
    assert_eq!(report.memory, "25.00%");
    assert_eq!(report.disk, "42%");
    assert_eq!(
        render_report(&report),
        "{\n  \"cpu\": \"3.4%\",\n  \"memory\": \"25.00%\",\n  \"disk\": \"42%\"\n}"
    );
}

#[test]
fn unresolvable_host_is_a_soft_stop() {
    let state = State::initial().step(Event::ResolveFailed);
    assert!(state.is_terminal());
    assert_eq!(state.exit_code(), 0);
    assert!(state.into_report().is_none());
}

#[test]
fn no_addresses_is_a_soft_stop() {
    let state = State::initial().step(Event::Resolved { addr_count: 0 });
    assert!(state.is_terminal());
    assert_eq!(state.exit_code(), 0);
    assert!(state.into_report().is_none());
}

#[test]
fn unreachable_host_is_a_soft_stop() {
    let state = State::initial()
        .step(Event::Resolved { addr_count: 2 })
        .step(Event::ConnectFailed);
    assert!(state.is_terminal());
    assert_eq!(state.exit_code(), 0);
    assert!(state.into_report().is_none());
}

#[test]
fn handshake_failure_is_a_hard_error() {
    let state = State::initial()
        .step(Event::Resolved { addr_count: 1 })
        .step(Event::Connected)
        .step(Event::HandshakeFailed);
    assert!(state.is_terminal());
    assert_ne!(state.exit_code(), 0);
    assert!(state.into_report().is_none());
}

#[test]
fn bad_credentials_are_a_hard_error() {
    let state = State::initial()
        .step(Event::Resolved { addr_count: 1 })
        .step(Event::Connected)
        .step(Event::HandshakeOk)
        .step(Event::AuthFailed);
    assert!(state.is_terminal());
    assert_ne!(state.exit_code(), 0);
    assert!(state.into_report().is_none());
}

#[test]
fn command_failure_is_a_hard_error() {
    let state = State::initial()
        .step(Event::Resolved { addr_count: 1 })
        .step(Event::Connected)
        .step(Event::HandshakeOk)
        .step(Event::AuthOk)
        .step(Event::CommandFailed);
    assert!(state.is_terminal());
    assert_ne!(state.exit_code(), 0);
    assert!(state.into_report().is_none());
}

#[test]
fn non_numeric_memory_output_is_a_hard_error() {
    let state = State::initial()
        .step(Event::Resolved { addr_count: 1 })
        .step(Event::Connected)
        .step(Event::HandshakeOk)
        .step(Event::AuthOk)
        .step(done_output("3.4\n"))
        .step(done_output("free: command not found\n"))
        .step(done_output("42%\n"));
    assert!(state.is_terminal());
    assert_ne!(state.exit_code(), 0);
    assert!(state.into_report().is_none());
}

#[test]
fn ended_runs_ignore_further_events() {
    let state = State::initial()
        .step(Event::ResolveFailed)
        .step(Event::Connected)
        .step(done_output("3.4"));
    assert!(state.is_terminal());
    assert_eq!(state.exit_code(), 0);
    assert!(state.into_report().is_none());
}

#[test]
fn command_output_is_trimmed() {
    let state = State::initial()
        .step(Event::Resolved { addr_count: 1 })
        .step(Event::Connected)
        .step(Event::HandshakeOk)
        .step(Event::AuthOk)
        .step(done_output("\t 7.9 \r\n"))
        .step(done_output("\u{a0} 12.5 \u{a0}\n"))
        .step(done_output("  91% \u{2028}\n"));
    let report = state.into_report().unwrap();
    assert_eq!(report.cpu, "7.9%");
    assert_eq!(report.memory, "12.50%");
    assert_eq!(report.disk, "91%");
}
