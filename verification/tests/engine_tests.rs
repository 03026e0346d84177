use y2skk::config::SkkKeybindings;
use y2skk::dict::entry::{Candidate, DictEntry, DictError};
use y2skk::dict::file::UserDict;
use y2skk::dict::traits::DictionaryProvider;
use y2skk::engine::{CodeInputPrefix, EngineAction, SkkEngine, SkkPhase};
use y2skk::kana::builtin::builtin_table;
use y2skk::kana::table::KanaLayout;
use y2skk::key::{Key, KeyEvent, Modifiers};

fn engine() -> SkkEngine {
    let table = builtin_table(KanaLayout::Romaji);
    SkkEngine::new(table, SkkKeybindings::default())
}

fn press(ch: char) -> KeyEvent {
    KeyEvent::press(Key::Char(ch), Modifiers::empty())
}

fn ctrl(ch: char) -> KeyEvent {
    KeyEvent::press(Key::Char(ch), Modifiers::ctrl())
}

fn key(k: Key) -> KeyEvent {
    KeyEvent::press(k, Modifiers::empty())
}

fn backspace() -> KeyEvent {
    key(Key::BackSpace)
}

/// Stub dictionary that returns a fixed candidate list for any lookup.
struct StubDict(Vec<Candidate>);

impl DictionaryProvider for StubDict {
    fn lookup(&self, _midashi: &str, _okuri: Option<&str>) -> Option<DictEntry> {
        Some(DictEntry { midashi: String::new(), okuri: None, candidates: self.0.clone() })
    }
    fn learn(&mut self, _entry: DictEntry) -> Result<(), DictError> {
        Ok(())
    }
}

fn engine_with_dict(candidates: Vec<&str>) -> SkkEngine {
    let mut eng = engine();
    let cands = candidates.into_iter().map(Candidate::new).collect();
    eng.add_dict(Box::new(StubDict(cands)));
    eng
}

fn commits(actions: &[EngineAction]) -> Vec<&str> {
    actions
        .iter()
        .filter_map(|a| if let EngineAction::Commit(s) = a { Some(s.as_str()) } else { None })
        .collect()
}

#[test]
fn test_ascii_mode_switch() {
    let mut eng = engine();
    let actions = eng.process_key(&press('l'));
    assert_eq!(eng.phase(), &SkkPhase::Ascii);
    assert!(actions.contains(&EngineAction::ClearPreedit));

    eng.process_key(&ctrl('j'));
    assert_eq!(eng.phase(), &SkkPhase::Hiragana);
}

#[test]
fn test_basic_kana_input() {
    let mut eng = engine();
    eng.process_key(&press('k'));
    eng.process_key(&press('a'));
    assert_eq!(eng.kana_state(), "");
}

#[test]
fn test_commit_learns_in_user_dict() {
    let mut eng = engine();
    let user_dict = UserDict::empty("/tmp/y2skk_test_learn.dict");
    eng.add_dict(Box::new(user_dict));
    eng.add_dict(Box::new(StubDict(vec![Candidate::new("亜"), Candidate::new("阿")])));

    eng.process_key(&press('A'));
    eng.process_key(&press('i'));
    eng.process_key(&key(Key::Space));
    eng.process_key(&key(Key::Space));
    let actions = eng.process_key(&ctrl('j'));
    assert!(actions.iter().any(|a| matches!(a, EngineAction::Commit(s) if s == "阿")));

    let result = eng.dict(0).unwrap().lookup("あい", None);
    assert!(result.is_some(), "UserDict should have learned '阿' for 'あい'");
    assert_eq!(result.unwrap().candidates[0].word, "阿");
}

#[test]
fn test_listing_mode_selection_key() {
    let table = builtin_table(KanaLayout::Romaji);
    let keybindings = SkkKeybindings { inline_count: 2, selection_keys: vec!['a', 's'], ..SkkKeybindings::default() };
    let mut eng = SkkEngine::new(table, keybindings);
    eng.add_dict(Box::new(StubDict(vec![
        Candidate::new("A"),
        Candidate::new("B"),
        Candidate::new("C"),
        Candidate::new("D"),
    ])));

    eng.process_key(&press('A'));
    eng.process_key(&press('i'));
    eng.process_key(&key(Key::Space));
    assert!(matches!(eng.phase(), SkkPhase::Selecting { index: 0, .. }));

    eng.process_key(&key(Key::Space));
    assert!(matches!(eng.phase(), SkkPhase::Selecting { index: 1, .. }));

    let actions = eng.process_key(&key(Key::Space));
    assert!(matches!(eng.phase(), SkkPhase::Selecting { index: 2, .. }));
    assert!(actions.iter().any(|a| matches!(a, EngineAction::ShowCandidates(cs, 0, keys) if cs.len() == 2 && keys == "as")));

    let actions = eng.process_key(&press('a'));
    assert!(actions.iter().any(|a| matches!(a, EngineAction::Commit(s) if s == "C")));
    assert_eq!(eng.phase(), &SkkPhase::Hiragana);
}

#[test]
fn test_listing_mode_page_advance() {
    let table = builtin_table(KanaLayout::Romaji);
    let keybindings = SkkKeybindings { inline_count: 1, selection_keys: vec!['a', 's'], ..SkkKeybindings::default() };
    let mut eng = SkkEngine::new(table, keybindings);
    eng.add_dict(Box::new(StubDict(vec![Candidate::new("A"), Candidate::new("B"), Candidate::new("C")])));

    eng.process_key(&press('A'));
    eng.process_key(&press('i'));
    eng.process_key(&key(Key::Space));
    eng.process_key(&key(Key::Space));
    assert!(matches!(eng.phase(), SkkPhase::Selecting { index: 1, .. }));

    eng.process_key(&key(Key::Space));
    assert!(!eng.register_stack().is_empty(), "should enter register mode after last candidate");
    assert!(matches!(eng.phase(), SkkPhase::Hiragana));
}

#[test]
fn test_cancel_goes_back_one_candidate() {
    let table = builtin_table(KanaLayout::Romaji);
    let keybindings = SkkKeybindings {
        inline_count: 3,
        selection_keys: vec!['a', 's'],
        cancel: vec!['x'],
        ..SkkKeybindings::default()
    };
    let mut eng = SkkEngine::new(table, keybindings);
    eng.add_dict(Box::new(StubDict(vec![
        Candidate::new("A"),
        Candidate::new("B"),
        Candidate::new("C"),
        Candidate::new("D"),
    ])));

    eng.process_key(&press('A'));
    eng.process_key(&press('i'));
    eng.process_key(&key(Key::Space));
    eng.process_key(&key(Key::Space));
    eng.process_key(&key(Key::Space));

    eng.process_key(&press('x'));
    assert!(matches!(eng.phase(), SkkPhase::Selecting { index: 1, .. }));
    eng.process_key(&press('x'));
    assert!(matches!(eng.phase(), SkkPhase::Selecting { index: 0, .. }));
    eng.process_key(&press('x'));
    assert!(matches!(eng.phase(), SkkPhase::Midashi { .. }));
}

#[test]
fn test_cancel_in_listing_goes_back_page() {
    let table = builtin_table(KanaLayout::Romaji);
    let keybindings = SkkKeybindings {
        inline_count: 1,
        selection_keys: vec!['a', 's'],
        cancel: vec!['x'],
        ..SkkKeybindings::default()
    };
    let mut eng = SkkEngine::new(table, keybindings);
    eng.add_dict(Box::new(StubDict(vec![
        Candidate::new("A"),
        Candidate::new("B"),
        Candidate::new("C"),
        Candidate::new("D"),
        Candidate::new("E"),
    ])));

    eng.process_key(&press('A'));
    eng.process_key(&press('i'));
    eng.process_key(&key(Key::Space));
    eng.process_key(&key(Key::Space));
    eng.process_key(&key(Key::Space));

    eng.process_key(&press('x'));
    assert!(matches!(eng.phase(), SkkPhase::Selecting { index: 1, .. }));
    eng.process_key(&press('x'));
    assert!(matches!(eng.phase(), SkkPhase::Selecting { index: 0, .. }));
}

struct PrefixDict;

impl DictionaryProvider for PrefixDict {
    fn lookup(&self, midashi: &str, _okuri: Option<&str>) -> Option<DictEntry> {
        match midashi {
            "ちょう>" => Some(DictEntry { midashi: midashi.to_string(), okuri: None, candidates: vec![Candidate::new("超")] }),
            _ => None,
        }
    }
    fn learn(&mut self, _entry: DictEntry) -> Result<(), DictError> {
        Ok(())
    }
}

#[test]
fn test_prefix_conversion_in_midashi() {
    let mut eng = engine();
    eng.add_dict(Box::new(PrefixDict));

    eng.process_key(&press('T'));
    eng.process_key(&press('y'));
    eng.process_key(&press('o'));
    eng.process_key(&press('u'));
    assert!(matches!(eng.phase(), SkkPhase::Midashi { .. }));

    eng.process_key(&press('>'));
    assert!(matches!(eng.phase(), SkkPhase::Selecting { .. }), "should be Selecting after '>'");
}

#[test]
fn test_suffix_mode_in_selecting() {
    let mut eng = engine_with_dict(vec!["小林"]);
    for ch in ['K', 'o', 'b', 'a', 'y', 'a', 's', 'h', 'i'] {
        eng.process_key(&press(ch));
    }
    eng.process_key(&key(Key::Space));
    assert!(matches!(eng.phase(), SkkPhase::Selecting { .. }));

    let actions = eng.process_key(&press('>'));
    assert!(actions.iter().any(|a| matches!(a, EngineAction::Commit(_))), "should commit");
    match eng.phase() {
        SkkPhase::Midashi { kana_buf, roman_buf } => {
            assert_eq!(kana_buf, ">");
            assert!(roman_buf.is_empty());
        }
        other => panic!("expected Midashi, got {other:?}"),
    }
}

#[test]
fn test_selecting_backspace_commits_and_passes_through() {
    let mut eng = engine_with_dict(vec!["亜", "阿"]);
    eng.process_key(&press('A'));
    eng.process_key(&press('i'));
    eng.process_key(&key(Key::Space));
    assert!(matches!(eng.phase(), SkkPhase::Selecting { .. }), "should be Selecting");

    let actions = eng.process_key(&backspace());
    assert_eq!(eng.phase(), &SkkPhase::Hiragana);
    assert!(actions.iter().any(|a| matches!(a, EngineAction::Commit(_))));
    assert!(actions.contains(&EngineAction::Passthrough));
}

#[test]
fn test_register_basic() {
    let mut eng = engine();
    eng.process_key(&press('A'));
    eng.process_key(&press('i'));
    let actions = eng.process_key(&key(Key::Space));
    assert!(
        actions.iter().any(|a| matches!(a, EngineAction::UpdatePreedit(p) if p.text.contains("辞書登録"))),
        "should show registration prompt; got: {:?}",
        actions
    );
    assert!(!eng.register_stack().is_empty());

    eng.process_key(&press('k'));
    eng.process_key(&press('a'));

    let actions = eng.process_key(&key(Key::Return));
    assert!(actions.iter().any(|a| matches!(a, EngineAction::Commit(s) if s == "か")), "got: {:?}", actions);
    assert!(eng.register_stack().is_empty());
    assert_eq!(eng.phase(), &SkkPhase::Hiragana);
}

#[test]
fn test_register_cancel_returns_to_midashi() {
    let mut eng = engine();
    eng.process_key(&press('A'));
    eng.process_key(&press('i'));
    eng.process_key(&key(Key::Space));

    let actions = eng.process_key(&KeyEvent::press(Key::Char('g'), Modifiers::ctrl()));
    assert!(eng.register_stack().is_empty());
    assert!(
        matches!(eng.phase(), SkkPhase::Midashi { kana_buf, .. } if kana_buf == "あい"),
        "phase: {:?}",
        eng.phase()
    );
    assert!(
        actions.iter().any(|a| matches!(a, EngineAction::UpdatePreedit(p) if p.text.contains("▽あい"))),
        "got: {:?}",
        actions
    );
}

#[test]
fn test_register_empty_return_cancels() {
    let mut eng = engine();
    eng.process_key(&press('A'));
    eng.process_key(&press('i'));
    eng.process_key(&key(Key::Space));

    eng.process_key(&key(Key::Return));
    assert!(eng.register_stack().is_empty());
    assert!(matches!(eng.phase(), SkkPhase::Midashi { .. }));
}

#[test]
fn test_register_saves_to_user_dict() {
    let table = builtin_table(KanaLayout::Romaji);
    let mut eng = SkkEngine::new(table, SkkKeybindings::default());
    let user_dict = UserDict::empty("/tmp/y2skk_test_register.dict");
    eng.add_dict(Box::new(user_dict));

    eng.process_key(&press('A'));
    eng.process_key(&press('i'));
    eng.process_key(&key(Key::Space));

    eng.process_key(&press('k'));
    eng.process_key(&press('a'));
    eng.process_key(&key(Key::Return));

    let result = eng.dict(0).unwrap().lookup("あい", None);
    assert!(result.is_some(), "user dict should have learned あい");
    assert_eq!(result.unwrap().candidates[0].word, "か");
}

#[test]
fn test_register_recursive() {
    let mut eng = engine();

    for ch in ['S', 'a', 'i', 'k', 'i', 't', 'e', 'k', 'i'] {
        eng.process_key(&press(ch));
    }
    eng.process_key(&key(Key::Space));
    assert_eq!(eng.register_stack().len(), 1, "should be in outer register");

    for ch in ['S', 'a', 'i', 'k', 'i'] {
        eng.process_key(&press(ch));
    }
    eng.process_key(&key(Key::Space));
    assert_eq!(eng.register_stack().len(), 2, "should be in nested register");

    eng.process_key(&press('k'));
    eng.process_key(&press('a'));
    eng.process_key(&key(Key::Return));
    assert_eq!(eng.register_stack().len(), 1, "should be back in outer register");
    assert_eq!(eng.register_stack()[0].committed, "か");

    eng.process_key(&press('k'));
    eng.process_key(&press('i'));
    let actions = eng.process_key(&key(Key::Return));
    assert!(eng.register_stack().is_empty());
    assert!(actions.iter().any(|a| matches!(a, EngineAction::Commit(s) if s == "かき")), "got: {:?}", actions);
}

#[test]
fn test_midashi_q_converts_to_katakana() {
    let mut eng = engine();
    eng.process_key(&press('A'));
    eng.process_key(&press('i'));
    eng.process_key(&press('u'));
    assert!(matches!(eng.phase(), SkkPhase::Midashi { kana_buf, .. } if kana_buf == "あいう"));

    let actions = eng.process_key(&press('q'));
    assert!(matches!(eng.phase(), SkkPhase::Hiragana));
    assert!(actions.iter().any(|a| matches!(a, EngineAction::Commit(s) if s == "アイウ")), "got: {:?}", actions);
}

#[test]
fn test_code_input_jis() {
    let mut eng = engine();
    eng.process_key(&press('\\'));
    assert!(matches!(eng.phase(), SkkPhase::CodeInput { prefix, .. } if *prefix == CodeInputPrefix::Jis));
    for ch in ['2', '4', '2', '2'] {
        eng.process_key(&press(ch));
    }
    let actions = eng.process_key(&key(Key::Return));
    assert!(actions.iter().any(|a| *a == EngineAction::Commit("あ".into())));
    assert!(matches!(eng.phase(), SkkPhase::Hiragana));
}

#[test]
fn test_code_input_unicode() {
    let mut eng = engine();
    eng.process_key(&press('\\'));
    eng.process_key(&press('u'));
    assert!(matches!(eng.phase(), SkkPhase::CodeInput { prefix, .. } if *prefix == CodeInputPrefix::Unicode));
    for ch in ['3', '0', '4', '2'] {
        eng.process_key(&press(ch));
    }
    let actions = eng.process_key(&key(Key::Return));
    assert!(actions.iter().any(|a| *a == EngineAction::Commit("あ".into())));
    assert!(matches!(eng.phase(), SkkPhase::Hiragana));
}

#[test]
fn test_code_input_backspace() {
    let mut eng = engine();
    eng.process_key(&press('\\'));
    eng.process_key(&press('u'));
    assert!(matches!(eng.phase(), SkkPhase::CodeInput { prefix, .. } if *prefix == CodeInputPrefix::Unicode));
    eng.process_key(&backspace());
    assert!(matches!(eng.phase(), SkkPhase::CodeInput { prefix, .. } if *prefix == CodeInputPrefix::Jis));
    eng.process_key(&backspace());
    assert!(matches!(eng.phase(), SkkPhase::Hiragana));
}

#[test]
fn test_midashi_q_noop_when_empty() {
    let mut eng = engine();
    eng.process_key(&press('A'));
    eng.process_key(&key(Key::Escape));
    assert!(matches!(eng.phase(), SkkPhase::Hiragana));
}

// ── Completion ───────────────────────────────────────────────────────────────

struct CompletionDict {
    candidates: Vec<Candidate>,
    completions: Vec<String>,
}

impl DictionaryProvider for CompletionDict {
    fn lookup(&self, _midashi: &str, _okuri: Option<&str>) -> Option<DictEntry> {
        if self.candidates.is_empty() {
            None
        } else {
            Some(DictEntry { midashi: String::new(), okuri: None, candidates: self.candidates.clone() })
        }
    }
    fn learn(&mut self, _entry: DictEntry) -> Result<(), DictError> {
        Ok(())
    }
    fn complete(&self, prefix: &str) -> Vec<String> {
        let mut results: Vec<String> =
            self.completions.iter().filter(|w| w.starts_with(prefix) && w.as_str() != prefix).cloned().collect();
        results.sort();
        results
    }
}

fn engine_with_completions(completions: Vec<&str>) -> SkkEngine {
    let mut eng = engine();
    eng.add_dict(Box::new(CompletionDict {
        candidates: vec![],
        completions: completions.into_iter().map(String::from).collect(),
    }));
    eng
}

#[test]
fn test_completion_ghost_shown() {
    let mut eng = engine_with_completions(vec!["からだ", "かわ"]);
    eng.process_key(&press('K'));
    eng.process_key(&press('a'));
    let preedit = eng.build_preedit();
    assert!(preedit.text.contains("からだ"), "{:?}", preedit.text);
}

#[test]
fn test_completion_cursor_position() {
    let mut eng = engine_with_completions(vec!["からだ"]);
    eng.process_key(&press('K'));
    eng.process_key(&press('a'));
    let preedit = eng.build_preedit();
    assert_eq!(preedit.cursor, 6, "{:?}", preedit);
}

#[test]
fn test_tab_accepts_completion() {
    let mut eng = engine_with_completions(vec!["からだ"]);
    eng.process_key(&press('K'));
    eng.process_key(&press('a'));
    eng.process_key(&key(Key::Tab));
    assert!(matches!(eng.phase(), SkkPhase::Midashi { kana_buf, .. } if kana_buf == "からだ"), "{:?}", eng.phase());
}

#[test]
fn test_tab_cycles_completions() {
    let mut eng = engine_with_completions(vec!["からだ", "かわ"]);
    eng.process_key(&press('K'));
    eng.process_key(&press('a'));

    eng.process_key(&key(Key::Tab));
    assert!(matches!(eng.phase(), SkkPhase::Midashi { kana_buf, .. } if kana_buf == "からだ"));
    assert!(eng.completion_preview().is_some(), "completion state should hold next cycle entry");

    eng.process_key(&key(Key::Tab));
    assert!(matches!(eng.phase(), SkkPhase::Midashi { kana_buf, .. } if kana_buf == "かわ"));
}

#[test]
fn test_tab_exhausted() {
    let mut eng = engine_with_completions(vec!["からだ"]);
    eng.process_key(&press('K'));
    eng.process_key(&press('a'));
    eng.process_key(&key(Key::Tab));
    assert!(eng.completion_preview().is_none(), "no more completions after cycling through all");
}

#[test]
fn test_backspace_after_tab_resets_completion() {
    let mut eng = engine_with_completions(vec!["からだ", "からす"]);
    eng.process_key(&press('K'));
    eng.process_key(&press('a'));
    eng.process_key(&key(Key::Tab));
    eng.process_key(&backspace());
    assert!(matches!(eng.phase(), SkkPhase::Midashi { kana_buf, .. } if kana_buf == "から"), "{:?}", eng.phase());
    let preedit = eng.build_preedit();
    assert!(preedit.text.starts_with("▽から"), "{:?}", preedit.text);
}

#[test]
fn test_no_ghost_with_roman_buf() {
    let mut eng = engine_with_completions(vec!["からだ"]);
    eng.process_key(&press('K'));
    eng.process_key(&press('a'));
    eng.process_key(&press('k'));
    let preedit = eng.build_preedit();
    assert_eq!(preedit.text, "▽かk");
}

// ── Conversion triggers ──────────────────────────────────────────────────────

#[test]
fn test_conversion_trigger_period() {
    let mut eng = engine_with_dict(vec!["学校"]);
    eng.process_key(&press('G'));
    for ch in "akkou".chars() {
        eng.process_key(&press(ch));
    }
    assert!(matches!(eng.phase(), SkkPhase::Midashi { .. }));

    let actions = eng.process_key(&press('.'));
    assert!(matches!(eng.phase(), SkkPhase::Selecting { .. }));
    assert!(!actions.iter().any(|a| matches!(a, EngineAction::Commit(_))));

    let actions = eng.process_key(&ctrl('j'));
    assert_eq!(commits(&actions), vec!["学校", "。"]);
    assert!(matches!(eng.phase(), SkkPhase::Hiragana));
}

#[test]
fn test_conversion_trigger_wo() {
    let mut eng = engine_with_dict(vec!["学校"]);
    eng.process_key(&press('G'));
    for ch in "akkou".chars() {
        eng.process_key(&press(ch));
    }
    eng.process_key(&press('w'));
    eng.process_key(&press('o'));
    assert!(matches!(eng.phase(), SkkPhase::Selecting { .. }));

    let actions = eng.process_key(&ctrl('j'));
    assert_eq!(commits(&actions), vec!["学校", "を"]);
}

#[test]
fn test_conversion_trigger_empty_kana_buf() {
    let mut eng = engine_with_dict(vec!["学校"]);
    eng.process_key(&press('B'));
    eng.process_key(&backspace());
    assert!(matches!(eng.phase(), SkkPhase::Midashi { kana_buf, roman_buf } if kana_buf.is_empty() && roman_buf.is_empty()));

    let actions = eng.process_key(&press('.'));
    assert!(actions.iter().any(|a| matches!(a, EngineAction::Commit(s) if s == "。")));
    assert!(matches!(eng.phase(), SkkPhase::Hiragana));
}

#[test]
fn test_conversion_trigger_cancel_escape() {
    let mut eng = engine_with_dict(vec!["学校"]);
    eng.process_key(&press('G'));
    for ch in "akkou".chars() {
        eng.process_key(&press(ch));
    }
    eng.process_key(&press('.'));
    assert!(matches!(eng.phase(), SkkPhase::Selecting { .. }));

    let actions = eng.process_key(&key(Key::Escape));
    assert!(!actions.iter().any(|a| matches!(a, EngineAction::Commit(_))));
    assert!(matches!(eng.phase(), SkkPhase::Midashi { .. }));
}

#[test]
fn test_conversion_trigger_disabled() {
    let table = builtin_table(KanaLayout::Romaji);
    let mut eng =
        SkkEngine::new(table, SkkKeybindings { conversion_trigger_chars: vec![], ..SkkKeybindings::default() });
    eng.add_dict(Box::new(StubDict(vec![Candidate::new("学校")])));

    eng.process_key(&press('G'));
    for ch in "akkou".chars() {
        eng.process_key(&press(ch));
    }
    eng.process_key(&press('.'));
    assert!(matches!(eng.phase(), SkkPhase::Midashi { .. }));
}

// ── Laws on concrete values ──────────────────────────────────────────────────

#[test]
fn release_passes_through_and_changes_nothing() {
    let mut eng = engine();
    eng.process_key(&press('K'));
    let before = eng.phase().clone();
    let pending = eng.kana_state().to_string();
    let actions = eng.process_key(&KeyEvent::release(Key::Char('a'), Modifiers::empty()));
    assert_eq!(actions, vec![EngineAction::Passthrough]);
    assert_eq!(eng.phase(), &before);
    assert_eq!(eng.kana_state(), pending);
}

#[test]
fn status_update_only_on_mode_change() {
    let mut eng = engine();
    let actions = eng.process_key(&press('q'));
    assert_eq!(actions.last(), Some(&EngineAction::UpdateStatus("ア".into())));
    let actions = eng.process_key(&press('k'));
    assert!(!actions.iter().any(|a| matches!(a, EngineAction::UpdateStatus(_))));
    let actions = eng.process_key(&KeyEvent::press(Key::Space, Modifiers::shift()));
    assert_eq!(eng.phase(), &SkkPhase::Ascii);
    assert_eq!(actions, vec![EngineAction::ClearPreedit, EngineAction::UpdateStatus("a".into())]);
    let actions = eng.process_key(&press('x'));
    assert_eq!(actions, vec![EngineAction::Passthrough]);
}

#[test]
fn registration_never_passes_keys_through() {
    let mut eng = engine();
    eng.process_key(&press('A'));
    eng.process_key(&press('i'));
    eng.process_key(&key(Key::Space));
    for ev in [press('l'), key(Key::Left), key(Key::Tab), key(Key::Up), backspace(), key(Key::Delete), press('x')] {
        let actions = eng.process_key(&ev);
        assert!(!actions.contains(&EngineAction::Passthrough), "{:?} leaked: {:?}", ev, actions);
    }
    assert_eq!(eng.phase(), &SkkPhase::Ascii);
    assert_eq!(eng.register_stack()[0].committed, "x");
}

#[test]
fn initial_phase_only_plain_modes() {
    let eng = engine().with_initial_phase(SkkPhase::Katakana);
    assert_eq!(eng.phase(), &SkkPhase::Katakana);
    let eng = engine().with_initial_phase(SkkPhase::Abbrev { buf: "x".into() });
    assert_eq!(eng.phase(), &SkkPhase::Hiragana);
}
