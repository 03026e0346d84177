use std::collections::VecDeque;

use y2skk::daemon::session::session_invalid;
use y2skk::ipc::client::{ClientState, KeyStep, Reply};
use y2skk::ipc::reconnect::{current_cooldown, ProcessKeyError, INITIAL_COOLDOWN_MS};
use y2skk::ipc::{IpcAction, ACTION_COMMIT, ACTION_PASSTHROUGH};

/// Scripted daemon replies, handed out in order.
struct Script {
    session_ids: VecDeque<Result<u32, ()>>,
    responses: VecDeque<Result<Vec<IpcAction>, ()>>,
}

impl Script {
    fn new(session_ids: Vec<Result<u32, ()>>, responses: Vec<Result<Vec<IpcAction>, ()>>) -> Self {
        Script { session_ids: session_ids.into(), responses: responses.into() }
    }
    fn create_session(&mut self) -> Result<u32, ()> {
        self.session_ids.pop_front().expect("unexpected create_session call")
    }
    fn process_key(&mut self) -> Result<Vec<IpcAction>, ()> {
        self.responses.pop_front().expect("unexpected process_key call")
    }
}

const NOW: u64 = 1_000_000;

fn create_handle(c: &mut ClientState, s: &mut Script, app_id: &str) -> u32 {
    let created = if c.in_cooldown(NOW) { None } else { Some(s.create_session()) };
    c.create_handle(app_id, created, NOW)
}

/// Runs one key through the client, answering its calls from the script.
fn process_key(c: &mut ClientState, s: &mut Script, h: u32) -> Result<Vec<IpcAction>, ProcessKeyError> {
    let (mut stage, mut step) = c.key_start(h, NOW);
    loop {
        let reply = match step {
            KeyStep::Done(r) => return r,
            KeyStep::CreateSession(_) => Reply::Created(s.create_session()),
            KeyStep::ProcessKey(_) => Reply::Actions(s.process_key()),
        };
        let next = c.key_resume(h, stage, reply, NOW);
        stage = next.0;
        step = next.1;
    }
}

fn passthrough_action() -> Vec<IpcAction> {
    vec![IpcAction::passthrough()]
}

fn session_invalid_action() -> Vec<IpcAction> {
    vec![session_invalid()]
}

fn ok_action() -> Vec<IpcAction> {
    vec![IpcAction::commit("あ")]
}

#[test]
fn test_session_invalid_triggers_recreate_and_retry() {
    // First process_key → SESSION_INVALID; recreate (id 2); retry → ok_action.
    let mut t = Script::new(vec![Ok(1), Ok(2)], vec![Ok(session_invalid_action()), Ok(ok_action())]);
    let mut c = ClientState::new();
    let h = create_handle(&mut c, &mut t, "test");
    let result = process_key(&mut c, &mut t, h).unwrap();
    assert!(result.iter().any(|a| a.kind == ACTION_COMMIT));
    assert!(!c.in_cooldown(NOW));
    assert_eq!(c.daemon_session_id(h), 2);
}

#[test]
fn test_retry_failure_arms_cooldown() {
    // SESSION_INVALID; recreate succeeds (id 2); retry also fails → Unavailable + cooldown.
    let mut t = Script::new(vec![Ok(1), Ok(2)], vec![Ok(session_invalid_action()), Err(())]);
    let mut c = ClientState::new();
    let h = create_handle(&mut c, &mut t, "test");
    let result = process_key(&mut c, &mut t, h);
    assert!(matches!(result, Err(ProcessKeyError::Unavailable)));
    assert!(c.in_cooldown(NOW));
}

#[test]
fn test_cooldown_skips_dbus_call() {
    // Arm cooldown manually, then call process_key — should return Unavailable
    // without touching the script (which has no queued responses).
    let mut t = Script::new(vec![Ok(1)], vec![]);
    let mut c = ClientState::new();
    let h = create_handle(&mut c, &mut t, "test");
    c.mark_failed(NOW);
    let result = process_key(&mut c, &mut t, h);
    assert!(matches!(result, Err(ProcessKeyError::Unavailable)));
}

#[test]
fn test_normal_success_clears_failure() {
    let mut t = Script::new(vec![Ok(1)], vec![Ok(passthrough_action())]);
    let mut c = ClientState::new();
    let h = create_handle(&mut c, &mut t, "test");
    // Manually clear cooldown (simulating time passing) so the call proceeds.
    c.mark_recovered();
    let result = process_key(&mut c, &mut t, h).unwrap();
    assert!(result.iter().any(|a| a.kind == ACTION_PASSTHROUGH));
    assert!(!c.in_cooldown(NOW));
}

#[test]
fn test_unknown_handle_returns_error() {
    let mut t = Script::new(vec![], vec![]);
    let mut c = ClientState::new();
    let result = process_key(&mut c, &mut t, 999);
    assert!(matches!(result, Err(ProcessKeyError::UnknownHandle)));
}

/// A plain D-Bus error must fail immediately without calling create_session
/// or process_key a second time (fail-fast path).
#[test]
fn test_dbus_err_fail_fast() {
    let mut t = Script::new(vec![Ok(1)], vec![Err(())]);
    let mut c = ClientState::new();
    let h = create_handle(&mut c, &mut t, "test");
    let result = process_key(&mut c, &mut t, h);
    assert!(matches!(result, Err(ProcessKeyError::Unavailable)));
    assert!(c.in_cooldown(NOW));
    // All sessions should have been invalidated.
    assert_eq!(c.daemon_session_id(h), 0);
}

/// Repeated mark_failed calls should grow the consecutive_failures counter,
/// yielding longer cooldowns.
#[test]
fn test_exponential_backoff_sequence() {
    let mut c = ClientState::new();
    assert_eq!(c.consecutive_failures(), 0);

    c.mark_failed(NOW);
    assert_eq!(c.consecutive_failures(), 1);
    assert_eq!(current_cooldown(1), INITIAL_COOLDOWN_MS); // 2s

    c.mark_failed(NOW);
    assert_eq!(c.consecutive_failures(), 2);
    assert_eq!(current_cooldown(2), 4000); // 4s

    c.mark_failed(NOW);
    assert_eq!(c.consecutive_failures(), 3);
    assert_eq!(current_cooldown(3), 8000); // 8s
}

/// mark_recovered must reset consecutive_failures to zero.
#[test]
fn test_mark_recovered_resets_counter() {
    let mut c = ClientState::new();
    c.mark_failed(NOW);
    c.mark_failed(NOW);
    c.mark_failed(NOW);
    assert_eq!(c.consecutive_failures(), 3);
    c.mark_recovered();
    assert_eq!(c.consecutive_failures(), 0);
    assert!(!c.in_cooldown(NOW));
}

/// create_handle during cooldown must not block (no D-Bus call).
#[test]
fn test_create_handle_respects_cooldown() {
    // No session ids queued; a create_session call would panic.
    let mut t = Script::new(vec![], vec![]);
    let mut c = ClientState::new();
    c.mark_failed(NOW); // arm cooldown
    let h = create_handle(&mut c, &mut t, "test");
    // Handle should be registered with daemon_session_id == 0.
    assert_eq!(c.daemon_session_id(h), 0);
}

#[test]
fn cooldown_ends_and_sessions_are_created_again() {
    let mut t = Script::new(vec![Ok(1), Ok(7)], vec![Err(()), Ok(ok_action())]);
    let mut c = ClientState::new();
    let h = create_handle(&mut c, &mut t, "test");
    assert!(process_key(&mut c, &mut t, h).is_err());
    assert!(c.in_cooldown(NOW + INITIAL_COOLDOWN_MS - 1));
    assert!(!c.in_cooldown(NOW + INITIAL_COOLDOWN_MS));
    assert!(c.probe_due());
    assert_eq!(c.probe_delay(), INITIAL_COOLDOWN_MS);
    // Once the cooldown is over the key goes through a fresh session.
    let later = NOW + INITIAL_COOLDOWN_MS;
    let (stage, step) = c.key_start(h, later);
    let (stage, step) = match step {
        KeyStep::CreateSession(app) => {
            assert_eq!(app, "test");
            c.key_resume(h, stage, Reply::Created(t.create_session()), later)
        }
        _ => panic!("expected a new session"),
    };
    assert!(matches!(step, KeyStep::ProcessKey(7)));
    let (_, done) = c.key_resume(h, stage, Reply::Actions(t.process_key()), later);
    assert!(matches!(done, KeyStep::Done(Ok(_))));
    assert!(!c.probe_due());
}

#[test]
fn destroying_a_handle() {
    let mut t = Script::new(vec![Ok(5), Ok(6)], vec![]);
    let mut c = ClientState::new();
    let h = create_handle(&mut c, &mut t, "test");
    assert_eq!(c.destroy_handle(h, NOW), Some(5));
    assert_eq!(c.destroy_handle(h, NOW), None);
    let h2 = create_handle(&mut c, &mut t, "other");
    assert_ne!(h, h2);
}

#[test]
fn probe_failures_count_up() {
    let mut c = ClientState::new();
    c.mark_failed(NOW);
    c.probe_result(false, NOW + 10);
    assert_eq!(c.consecutive_failures(), 2);
    assert_eq!(c.probe_delay(), 4000);
    c.probe_result(true, NOW + 20);
    assert_eq!(c.consecutive_failures(), 0);
    assert!(!c.probe_due());
}
