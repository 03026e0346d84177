use y2skk::daemon::session::{session_actions, session_invalid};
use y2skk::dict::entry::Candidate;
use y2skk::engine::{EngineAction, Preedit};
use y2skk::ipc::convert::{key_event_from_raw, keysym_to_key, modifiers_from_raw};
use y2skk::ipc::dispatch::{dispatch, ActionSink};
use y2skk::ipc::keysym;
use y2skk::ipc::reconnect::{current_cooldown, ProcessKeyError, INITIAL_COOLDOWN_MS, MAX_COOLDOWN_MS};
use y2skk::ipc::{
    InputMode, IpcAction, ACTION_CLEAR_PREEDIT, ACTION_COMMIT, ACTION_HIDE_CANDIDATES, ACTION_PASSTHROUGH,
    ACTION_SHOW_CANDIDATES, ACTION_UPDATE_PREEDIT, ACTION_UPDATE_STATUS, NO_GHOST,
};
use y2skk::key::{Key, Modifiers};

#[test]
fn test_keysym_ascii() {
    let ev = key_event_from_raw('a' as u32, 0, true);
    assert_eq!(ev.key, Key::Char('a'));
    assert_eq!(ev.modifiers, Modifiers::empty());
    assert!(ev.is_press);
}

#[test]
fn test_keysym_return() {
    let ev = key_event_from_raw(keysym::RETURN, 0, true);
    assert_eq!(ev.key, Key::Return);
}

#[test]
fn test_keysym_ctrl_j() {
    let ev = key_event_from_raw('j' as u32, 0x04, true);
    assert_eq!(ev.key, Key::Char('j'));
    assert_eq!(ev.modifiers, Modifiers::ctrl());
}

#[test]
fn test_engine_action_commit() {
    let action = EngineAction::Commit("か".into());
    let ipc: IpcAction = action.into();
    assert_eq!(ipc.kind, ACTION_COMMIT);
    assert_eq!(ipc.text, "か");
}

#[test]
fn keysyms_of_special_and_unicode_keys() {
    assert_eq!(keysym_to_key(keysym::F1_BASE), Key::F(1));
    assert_eq!(keysym_to_key(keysym::F1_BASE + 14), Key::F(15));
    assert_eq!(keysym_to_key(0x0100_3042), Key::Char('あ'));
    assert_eq!(keysym_to_key(0x3042), Key::Char('あ'));
    assert_eq!(keysym_to_key(0xFFE1), Key::Other(0xFFE1));
    assert_eq!(keysym_to_key(0xD800), Key::Other(0xD800));
    assert_eq!(keysym_to_key(0x0100_D800), Key::Other(0x0100_D800));
    assert_eq!(keysym_to_key(0x10), Key::Other(0x10));
    let release = key_event_from_raw(keysym::ESCAPE, 0x01 | 0x08 | 0x40, false);
    assert_eq!(release.key, Key::Escape);
    assert!(!release.is_press);
    assert_eq!(release.modifiers, Modifiers::shift().union(Modifiers::alt()).union(Modifiers::meta()));
    assert_eq!(modifiers_from_raw(0x02 | 0x10 | 0x80), Modifiers::empty());
}

#[test]
fn engine_actions_on_the_wire() {
    let p: IpcAction = EngineAction::UpdatePreedit(Preedit { text: "▽か".into(), cursor: 6 }).into();
    assert_eq!((p.kind, p.text.as_str(), p.cursor, p.ghost_start), (ACTION_UPDATE_PREEDIT, "▽か", 6, NO_GHOST));
    let s: IpcAction = EngineAction::ShowCandidates(
        vec![Candidate::new("漢"), Candidate::with_annotation("感", "feel")],
        1,
        "asd".into(),
    )
    .into();
    assert_eq!(s.kind, ACTION_SHOW_CANDIDATES);
    assert_eq!(s.candidates, vec!["漢".to_string(), "感;feel".to_string()]);
    assert_eq!(s.focused, 1);
    assert_eq!(s.text, "asd");
    let kinds: Vec<u8> = vec![
        EngineAction::ClearPreedit,
        EngineAction::HideCandidates,
        EngineAction::UpdateStatus("ア".into()),
        EngineAction::Passthrough,
    ]
    .into_iter()
    .map(|a| IpcAction::from(a).kind)
    .collect();
    assert_eq!(kinds, vec![ACTION_CLEAR_PREEDIT, ACTION_HIDE_CANDIDATES, ACTION_UPDATE_STATUS, ACTION_PASSTHROUGH]);
}

#[test]
fn input_mode_numbers() {
    assert_eq!(InputMode::Ascii.number(), 3);
    assert_eq!(InputMode::from_number(1), Some(InputMode::Katakana));
    assert_eq!(InputMode::from_number(4), None);
}

#[derive(Default)]
struct MockSink {
    committed: Vec<String>,
    preedit: Option<(String, u32, Option<u32>)>,
    preedit_cleared: bool,
    candidates_shown: Option<(Vec<String>, u32, String)>,
    candidates_hidden: bool,
    status: Option<(String, u32)>,
}

impl ActionSink for MockSink {
    fn commit(&mut self, text: &str) {
        self.committed.push(text.to_string());
    }
    fn update_preedit(&mut self, text: &str, cursor: u32, ghost_start: Option<u32>) {
        self.preedit = Some((text.to_string(), cursor, ghost_start));
    }
    fn clear_preedit(&mut self) {
        self.preedit_cleared = true;
    }
    fn show_candidates(&mut self, candidates: &[String], focused: u32, sel_keys: &str) {
        self.candidates_shown = Some((candidates.to_vec(), focused, sel_keys.to_string()));
    }
    fn hide_candidates(&mut self) {
        self.candidates_hidden = true;
    }
    fn update_status(&mut self, indicator: &str, timeout_ms: u32) {
        self.status = Some((indicator.to_string(), timeout_ms));
    }
}

#[test]
fn passthrough_not_consumed() {
    let mut sink = MockSink::default();
    let r = dispatch(&[IpcAction::passthrough()], &mut sink);
    assert!(!r.consumed);
    assert!(r.force_passthrough);
}

#[test]
fn commit_is_consumed() {
    let mut sink = MockSink::default();
    let r = dispatch(&[IpcAction::commit("あ")], &mut sink);
    assert!(r.consumed);
    assert!(!r.force_passthrough);
    assert_eq!(sink.committed, vec!["あ"]);
}

#[test]
fn commit_with_passthrough() {
    let mut sink = MockSink::default();
    let r = dispatch(&[IpcAction::commit("あ"), IpcAction::passthrough()], &mut sink);
    assert!(r.consumed);
    assert!(r.force_passthrough);
    assert_eq!(sink.committed, vec!["あ"]);
}

#[test]
fn update_status_is_consumed() {
    let mut sink = MockSink::default();
    let r = dispatch(&[IpcAction::update_status("あ")], &mut sink);
    assert!(r.consumed);
    assert!(!r.force_passthrough);
    assert_eq!(sink.status, Some(("あ".to_string(), 0)));
}

#[test]
fn preedit_no_ghost_normalised_to_none() {
    let mut sink = MockSink::default();
    dispatch(&[IpcAction::update_preedit("か", 3, NO_GHOST)], &mut sink);
    assert_eq!(sink.preedit, Some(("か".to_string(), 3, None)));
}

#[test]
fn preedit_ghost_preserved() {
    let mut sink = MockSink::default();
    dispatch(&[IpcAction::update_preedit("かいかわらず", 3, 3)], &mut sink);
    assert_eq!(sink.preedit, Some(("かいかわらず".to_string(), 3, Some(3))));
}

#[test]
fn empty_actions_not_consumed() {
    let mut sink = MockSink::default();
    let r = dispatch(&[], &mut sink);
    assert!(!r.consumed);
    assert!(!r.force_passthrough);
}

#[test]
fn candidates_and_unknown_kinds() {
    let mut sink = MockSink::default();
    let mut show = IpcAction::show_candidates(vec!["a".into(), "b".into()], 1);
    show.text = "as".into();
    let mut unknown = IpcAction::clear_preedit();
    unknown.kind = 42;
    let r = dispatch(&[unknown.clone()], &mut sink);
    assert!(!r.consumed && !r.force_passthrough);
    let r = dispatch(&[show, IpcAction::hide_candidates(), IpcAction::clear_preedit(), unknown], &mut sink);
    assert!(r.consumed);
    assert_eq!(sink.candidates_shown, Some((vec!["a".to_string(), "b".to_string()], 1, "as".to_string())));
    assert!(sink.candidates_hidden);
    assert!(sink.preedit_cleared);
}

#[test]
fn test_cooldown_capped_at_max() {
    assert_eq!(current_cooldown(20), MAX_COOLDOWN_MS);
    assert_eq!(current_cooldown(100), MAX_COOLDOWN_MS);
}

#[test]
fn cooldown_schedule() {
    assert_eq!(current_cooldown(0), INITIAL_COOLDOWN_MS);
    assert_eq!(current_cooldown(1), INITIAL_COOLDOWN_MS);
    assert_eq!(current_cooldown(2), 4000);
    assert_eq!(current_cooldown(3), 8000);
    assert_eq!(current_cooldown(4), 16000);
    assert_eq!(current_cooldown(5), 30000);
    assert_eq!(current_cooldown(u32::MAX), MAX_COOLDOWN_MS);
    assert_ne!(ProcessKeyError::Unavailable, ProcessKeyError::UnknownHandle);
}

#[test]
fn session_actions_pack_status_timeout() {
    let acts = vec![EngineAction::Commit("か".into()), EngineAction::UpdateStatus("ア".into())];
    let out = session_actions(acts, 1500);
    assert_eq!(out.len(), 2);
    assert_eq!(out[0].kind, ACTION_COMMIT);
    assert_eq!((out[1].kind, out[1].text.as_str(), out[1].cursor), (ACTION_UPDATE_STATUS, "ア", 1500));
    let acts = vec![EngineAction::UpdateStatus("ア".into()), EngineAction::ClearPreedit];
    let out = session_actions(acts, 0);
    assert_eq!(out.len(), 1);
    assert_eq!(out[0].kind, ACTION_CLEAR_PREEDIT);
    assert_eq!(session_invalid().kind, y2skk::ipc::ACTION_SESSION_INVALID);
}
