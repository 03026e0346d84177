use y2skk::daemon::config::{Config, DictSource};
use y2skk::dict::file::DictEncoding;
use y2skk::settings::{encoding_name, rewrite_config, ConfigWriteError};

/// The configuration held by `FILE_WITH_COMMENTS`.
fn commented_config() -> Config {
    let mut c = Config::default();
    c.input.kana_layout = "romaji".to_string();
    c.input.default_mode = "ascii".to_string();
    c.candidates.inline_count = 3;
    c.candidates.selection_keys = "asdfjkl;".to_string();
    c
}

const FILE_WITH_COMMENTS: &str = "\
# y2skk configuration
[input]
# preferred layout
kana_layout = \"romaji\"
default_mode = \"ascii\"

[candidates]
inline_count = 3
selection_keys = \"asdfjkl;\"
";

#[test]
fn write_back_preserves_comments_and_untouched_fields() {
    let mut cfg = commented_config();
    cfg.candidates.inline_count = 7; // change exactly one field
    let out = rewrite_config(Some((FILE_WITH_COMMENTS, Ok(commented_config()))), &cfg).unwrap();

    // Comments and untouched fields survive...
    assert!(out.contains("# y2skk configuration"));
    assert!(out.contains("# preferred layout"));
    assert!(out.contains("kana_layout = \"romaji\""));
    assert!(out.contains("default_mode = \"ascii\""));
    assert!(out.contains("selection_keys = \"asdfjkl;\""));
    // ...and the changed field is updated.
    assert!(out.contains("inline_count = 7"));
}

fn tilde_config() -> Config {
    let mut c = Config::default();
    c.user_dict.path = Some("~/.local/share/y2skk/user.dict".to_string());
    c
}

#[test]
fn write_back_preserves_tilde_in_untouched_path() {
    let text = "[user-dict]\npath = \"~/.local/share/y2skk/user.dict\"\n";
    let mut cfg = tilde_config();
    cfg.candidates.inline_count = 5; // unrelated change
    let out = rewrite_config(Some((text, Ok(tilde_config()))), &cfg).unwrap();
    assert!(out.contains("~/.local/share/y2skk/user.dict"));
}

#[test]
fn write_back_refuses_invalid_existing_config() {
    let garbage = "this is = not valid toml [[[";
    let err = rewrite_config(Some((garbage, Err("unparsable".to_string()))), &Config::default()).unwrap_err();
    assert!(matches!(err, ConfigWriteError::NotToml(_)));
}

#[test]
fn write_back_refuses_schema_invalid_existing_config() {
    // Valid TOML syntax, but a wrong value type for the schema.
    let contents = "[candidates]\ninline_count = \"oops\"\n";
    let err = rewrite_config(Some((contents, Err("invalid type".to_string()))), &Config::default()).unwrap_err();
    match err {
        ConfigWriteError::Invalid(m) => assert_eq!(m, "invalid type"),
        other => panic!("unexpected {other:?}"),
    }
}

#[test]
fn unchanged_config_leaves_the_text_alone() {
    let out = rewrite_config(Some((FILE_WITH_COMMENTS, Ok(commented_config()))), &commented_config()).unwrap();
    assert_eq!(out, FILE_WITH_COMMENTS);
}

#[test]
fn new_file_gets_only_the_changed_fields() {
    let mut cfg = Config::default();
    cfg.indicator.timeout_ms = 2500;
    cfg.dict.sources = vec![
        DictSource { path: "/usr/share/skk/SKK-JISYO.L".to_string(), encoding: DictEncoding::EucJp, priority: 10 },
        DictSource { path: "/tmp/extra.dict".to_string(), encoding: DictEncoding::Utf8, priority: 0 },
    ];
    let out = rewrite_config(None, &cfg).unwrap();
    assert!(out.contains("timeout_ms = 2500"));
    assert!(out.contains("[[dict.sources]]"));
    assert!(out.contains("path = \"/usr/share/skk/SKK-JISYO.L\""));
    assert!(out.contains("encoding = \"euc-jp\""));
    assert!(out.contains("priority = 10"));
    assert!(out.contains("encoding = \"utf-8\""));
    assert!(!out.contains("kana_layout"));
    assert!(!out.contains("[candidates]"));
}

#[test]
fn cleared_path_is_removed() {
    let text = "[user-dict]\npath = \"~/u.dict\"\n# keep me\n";
    let mut current = Config::default();
    current.user_dict.path = Some("~/u.dict".to_string());
    let cfg = Config::default();
    let out = rewrite_config(Some((text, Ok(current))), &cfg).unwrap();
    assert!(!out.contains("~/u.dict"));
    assert!(out.contains("[user-dict]"));
}

#[test]
fn encoding_names() {
    assert_eq!(encoding_name(DictEncoding::Utf8), "utf-8");
    assert_eq!(encoding_name(DictEncoding::EucJp), "euc-jp");
    assert_eq!(DictEncoding::from_str(encoding_name(DictEncoding::EucJp)), DictEncoding::EucJp);
}
