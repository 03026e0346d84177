use y2skk::daemon::config::{
    expand_tilde, keybindings_from_config, load_kana_table, parse_default_mode, parse_toggle_key, validate, Config,
    ConfigValidationError, DictSource, InputConfig, KanaTableResolveError, ValidationProbe,
};
use y2skk::dict::file::DictEncoding;
use y2skk::engine::SkkPhase;
use y2skk::kana::parser::KanaTableError;
use y2skk::key::{Key, Modifiers};

fn never_read(_: &str) -> Result<String, KanaTableError> {
    panic!("the table must not be read")
}

fn probe_ok(n_sources: usize) -> ValidationProbe {
    ValidationProbe { kana_table: Ok(()), dict_paths_exist: vec![true; n_sources], user_dict_parent: None }
}

#[test]
fn resolve_kana_table_explicit_path_missing() {
    let input = InputConfig {
        kana_layout: "romaji".into(),
        kana_table: Some("/nonexistent/romaji.txt".to_string()),
        ..InputConfig::default()
    };
    let result = load_kana_table(&input, false, &[], &never_read);
    assert!(matches!(result, Err(KanaTableResolveError::ExplicitPathNotFound { .. })));
}

#[test]
fn resolve_kana_table_not_found_lists_searched_paths() {
    let input = InputConfig { kana_layout: "romaji".into(), ..InputConfig::default() };
    let cands = vec![("/a/romaji.txt".to_string(), false), ("/b/romaji.txt".to_string(), false)];
    match load_kana_table(&input, false, &cands, &never_read) {
        Err(KanaTableResolveError::NotFound { layout, searched }) => {
            assert_eq!(layout, "romaji");
            assert_eq!(searched, "/a/romaji.txt, /b/romaji.txt");
        }
        _ => panic!("expected NotFound"),
    }
}

#[test]
fn resolve_kana_table_reads_first_existing_candidate() {
    let input = InputConfig { kana_layout: "romaji".into(), ..InputConfig::default() };
    let cands = vec![("/a/romaji.txt".to_string(), false), ("/b/romaji.txt".to_string(), true), ("/c/romaji.txt".to_string(), true)];
    let read = |p: &str| -> Result<String, KanaTableError> {
        assert_eq!(p, "/b/romaji.txt");
        Ok("[trans]\nk\ta\t\tか\n".to_string())
    };
    let table = load_kana_table(&input, false, &cands, &read).unwrap();
    assert_eq!(table.okuri_key('k'), 'k');
    let bad = |_: &str| -> Result<String, KanaTableError> { Ok("[trans]\n\t\\z\t\tＺ\n".to_string()) };
    match load_kana_table(&input, false, &cands, &bad) {
        Err(KanaTableResolveError::Parse { path, source: KanaTableError::Parse { line, .. } }) => {
            assert_eq!(path, "/b/romaji.txt");
            assert_eq!(line, 2);
        }
        _ => panic!("expected a parse error"),
    }
}

#[test]
fn validate_invalid_default_mode() {
    let result = parse_default_mode("bar");
    assert!(matches!(result, Err(ConfigValidationError::InvalidDefaultMode { .. })));
}

#[test]
fn validate_valid_default_modes() {
    for mode in &["ascii", "hiragana", "katakana", "half-width-katakana", "wide-ascii"] {
        assert!(parse_default_mode(mode).is_ok(), "expected Ok for {mode}");
    }
    assert_eq!(parse_default_mode("zenkaku").unwrap(), SkkPhase::WideAscii);
    assert_eq!(parse_default_mode("latin").unwrap(), SkkPhase::Ascii);
}

#[test]
fn validate_invalid_toggle_key_modifier() {
    let result = parse_toggle_key("bogusmod+space");
    assert!(matches!(result, Err(ConfigValidationError::InvalidToggleKey { .. })));
}

#[test]
fn validate_invalid_toggle_key_name() {
    let result = parse_toggle_key("shift+boguskey");
    assert!(matches!(result, Err(ConfigValidationError::InvalidToggleKey { .. })));
}

#[test]
fn validate_valid_toggle_key() {
    assert!(parse_toggle_key("shift+space").is_ok());
    assert!(parse_toggle_key("ctrl+a").is_ok());
}

#[test]
fn toggle_key_values_and_reasons() {
    assert_eq!(parse_toggle_key("Shift+Space").ok(), Some((Key::Space, Modifiers::shift())));
    assert_eq!(parse_toggle_key("ctrl+alt+A").ok(), Some((Key::Char('a'), Modifiers::ctrl().union(Modifiers::alt()))));
    assert_eq!(parse_toggle_key("esc").ok(), Some((Key::Escape, Modifiers::empty())));
    match parse_toggle_key("shift+boguskey") {
        Err(ConfigValidationError::InvalidToggleKey { value, reason }) => {
            assert_eq!(value, "shift+boguskey");
            assert_eq!(reason, "unrecognised key name \"boguskey\"");
        }
        _ => panic!("expected an error"),
    }
    match parse_toggle_key("Hyper+space") {
        Err(ConfigValidationError::InvalidToggleKey { reason, .. }) => {
            assert_eq!(reason, "unrecognised modifier \"hyper\"");
        }
        _ => panic!("expected an error"),
    }
}

#[test]
fn validate_reports_first_problem_in_order() {
    let mut config = Config::default();
    assert!(validate(&config, &probe_ok(0)).is_ok());

    config.input.conversion_trigger_chars = vec!["ab".to_string()];
    assert!(matches!(
        validate(&config, &probe_ok(0)),
        Err(ConfigValidationError::InvalidConversionTriggerChar { .. })
    ));

    config.input.raw_mode_toggle_keys = vec!["ctrl+alt+p".to_string(), "nope+x".to_string()];
    assert!(matches!(validate(&config, &probe_ok(0)), Err(ConfigValidationError::InvalidToggleKey { .. })));

    config.input.default_mode = "bogus".to_string();
    assert!(matches!(validate(&config, &probe_ok(0)), Err(ConfigValidationError::InvalidDefaultMode { .. })));
}

#[test]
fn validate_paths_from_probe() {
    let mut config = Config::default();
    config.dict.sources = vec![
        DictSource { path: "/usr/share/skk/A".into(), encoding: DictEncoding::Utf8, priority: 0 },
        DictSource { path: "/usr/share/skk/B".into(), encoding: DictEncoding::EucJp, priority: 1 },
    ];
    let probe = ValidationProbe { kana_table: Ok(()), dict_paths_exist: vec![true, false], user_dict_parent: None };
    match validate(&config, &probe) {
        Err(ConfigValidationError::DictPathNotFound { path }) => assert_eq!(path, "/usr/share/skk/B"),
        _ => panic!("expected DictPathNotFound"),
    }
    let probe = ValidationProbe {
        kana_table: Ok(()),
        dict_paths_exist: vec![true, true],
        user_dict_parent: Some(("/nonexistent".to_string(), false)),
    };
    assert!(matches!(validate(&config, &probe), Err(ConfigValidationError::UserDictParentNotFound { .. })));
    let probe = ValidationProbe {
        kana_table: Err(KanaTableResolveError::ExplicitPathNotFound { path: "/x".into() }),
        dict_paths_exist: vec![false, false],
        user_dict_parent: None,
    };
    assert!(matches!(validate(&config, &probe), Err(ConfigValidationError::KanaTable(_))));
}

#[test]
fn defaults_match_documentation() {
    let c = Config::default();
    assert_eq!(c.input.kana_layout, "romaji");
    assert_eq!(c.input.default_mode, "hiragana");
    assert_eq!(c.input.toggle_keys, vec!["shift+space".to_string()]);
    assert_eq!(c.input.conversion_trigger_chars, vec![",".to_string(), ".".to_string(), "を".to_string()]);
    assert!(c.dict.lisp_directives);
    assert!(c.indicator.enabled);
    assert_eq!(c.indicator.timeout_ms, 2000);
    assert_eq!(c.candidates.inline_count, 3);
    assert_eq!(c.candidates.selection_keys, "asdfjkl;");
    assert_eq!(c.daemon.log_level, "info");
    let loaded = Config::load_default(None);
    assert_eq!(loaded.input.default_mode, "hiragana");
}

#[test]
fn keybindings_follow_config() {
    let mut config = Config::default();
    config.candidates.selection_keys = "123".into();
    config.candidates.inline_count = 5;
    config.input.toggle_keys = vec!["ctrl+space".into(), "junk+junk".into()];
    config.input.conversion_trigger_chars = vec!["!".into(), "".into()];
    let kb = keybindings_from_config(&config);
    assert_eq!(kb.selection_keys, vec!['1', '2', '3']);
    assert_eq!(kb.inline_count, 5);
    assert_eq!(kb.toggle_keys, vec![(Key::Space, Modifiers::ctrl())]);
    assert_eq!(kb.conversion_trigger_chars, vec!['!']);
    assert_eq!(kb.ascii_mode, vec!['l']);
}

#[test]
fn expand_tilde_cases() {
    assert_eq!(expand_tilde("~/foo/bar", Some("/home/u")), "/home/u/foo/bar");
    assert_eq!(expand_tilde("~", Some("/home/u")), "/home/u");
    assert_eq!(expand_tilde("/usr/share/skk/SKK-JISYO.L", Some("/home/u")), "/usr/share/skk/SKK-JISYO.L");
    assert_eq!(expand_tilde("~/x", None), "~/x");
    assert_eq!(expand_tilde("~user/x", Some("/home/u")), "~user/x");
}

#[test]
fn normalize_expands_all_paths() {
    let mut config = Config::default();
    config.user_dict.path = Some("~/.local/share/y2skk/user.dict".into());
    config.dict.sources = vec![DictSource { path: "~/dicts/SKK-JISYO.L".into(), encoding: DictEncoding::Utf8, priority: 0 }];
    let config = config.normalize(Some("/home/u"));
    assert_eq!(config.user_dict.path.unwrap(), "/home/u/.local/share/y2skk/user.dict");
    assert_eq!(config.dict.sources[0].path, "/home/u/dicts/SKK-JISYO.L");
}

fn home_str() -> Option<String> {
    dirs::home_dir().map(|h| h.to_string_lossy().into_owned())
}

#[test]
fn expand_tilde_with_slash() {
    if let Some(home) = home_str() {
        let p = expand_tilde("~/foo/bar", Some(&home));
        assert_eq!(std::path::PathBuf::from(p), std::path::Path::new(&home).join("foo/bar"));
    }
}

#[test]
fn expand_tilde_alone() {
    if let Some(home) = home_str() {
        let p = expand_tilde("~", Some(&home));
        assert_eq!(p, home);
    }
}

#[test]
fn expand_tilde_no_tilde() {
    let home = home_str();
    let p = expand_tilde("/usr/share/skk/SKK-JISYO.L", home.as_deref());
    assert_eq!(p, "/usr/share/skk/SKK-JISYO.L");
}

#[test]
fn normalize_expands_user_dict_path() {
    if let Some(home) = home_str() {
        let mut config = Config::default();
        config.user_dict.path = Some("~/.local/share/y2skk/user.dict".into());
        let config = config.normalize(Some(&home));
        assert_eq!(
            std::path::PathBuf::from(config.user_dict.path.unwrap()),
            std::path::Path::new(&home).join(".local/share/y2skk/user.dict"),
        );
    }
}

#[test]
fn normalize_expands_dict_source_path() {
    if let Some(home) = home_str() {
        let mut config = Config::default();
        config.dict.sources = vec![DictSource { path: "~/dicts/SKK-JISYO.L".into(), encoding: DictEncoding::Utf8, priority: 0 }];
        let config = config.normalize(Some(&home));
        assert_eq!(
            std::path::PathBuf::from(&config.dict.sources[0].path),
            std::path::Path::new(&home).join("dicts/SKK-JISYO.L"),
        );
    }
}

#[test]
fn validate_reports_bad_trigger_char() {
    let mut cfg = Config::default();
    cfg.input.conversion_trigger_chars = vec!["ab".to_string()]; // must be 1 char
    assert!(validate(&cfg.normalize(home_str().as_deref()), &probe_ok(0)).is_err());
}
