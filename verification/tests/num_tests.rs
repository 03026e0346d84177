use y2skk::num::convert::{convert, parse_u64};
use y2skk::num::template::{expand, expand_with_recursive_lookup, has_digit_run, scan, synthesize, MAX_RECURSIVE_EXPANSIONS};
use y2skk::num::types::NumType;

#[test]
fn raw() {
    assert_eq!(convert("1234", NumType::Raw), Some("1234".into()));
    assert_eq!(convert("0", NumType::Raw), Some("0".into()));
}

#[test]
fn zenkaku() {
    assert_eq!(convert("1234", NumType::Zenkaku), Some("１２３４".into()));
    assert_eq!(convert("0", NumType::Zenkaku), Some("０".into()));
}

#[test]
fn kanji_positional() {
    assert_eq!(convert("1234", NumType::KanjiPos), Some("一二三四".into()));
    assert_eq!(convert("5500", NumType::KanjiPos), Some("五五〇〇".into()));
    assert_eq!(convert("0", NumType::KanjiPos), Some("〇".into()));
}

#[test]
fn kanji_sequential() {
    assert_eq!(convert("1234", NumType::KanjiSeq), Some("千二百三十四".into()));
    assert_eq!(convert("5500", NumType::KanjiSeq), Some("五千五百".into()));
    assert_eq!(convert("10", NumType::KanjiSeq), Some("十".into()));
    assert_eq!(convert("100", NumType::KanjiSeq), Some("百".into()));
    assert_eq!(convert("1000", NumType::KanjiSeq), Some("千".into()));
    assert_eq!(convert("10000", NumType::KanjiSeq), Some("一万".into()));
    assert_eq!(convert("12", NumType::KanjiSeq), Some("十二".into()));
    assert_eq!(convert("0", NumType::KanjiSeq), Some("〇".into()));
    assert_eq!(convert("100000000000000000", NumType::KanjiSeq), Some("十京".into()));
}

#[test]
fn daiji() {
    assert_eq!(convert("1995", NumType::Daiji), Some("壱阡九百九拾伍".into()));
    assert_eq!(convert("1234", NumType::Daiji), Some("壱阡弐百参拾四".into()));
    assert_eq!(convert("0", NumType::Daiji), Some("零".into()));
}

#[test]
fn shogi() {
    assert_eq!(convert("34", NumType::Shogi), Some("３四".into()));
    assert_eq!(convert("19", NumType::Shogi), Some("１九".into()));
    assert_eq!(convert("5", NumType::Shogi), Some("５".into()));
}

#[test]
fn roman_unicode() {
    assert_eq!(convert("1234", NumType::RomanUpperUnicode), Some("ⅯⅭⅭⅩⅩⅩⅣ".into()));
    assert_eq!(convert("1234", NumType::RomanLowerUnicode), Some("ⅿⅽⅽⅹⅹⅹⅳ".into()));
    assert_eq!(convert("4000", NumType::RomanUpperUnicode), None);
    assert_eq!(convert("0", NumType::RomanUpperUnicode), None);
}

#[test]
fn roman_ascii() {
    assert_eq!(convert("1234", NumType::RomanUpperAscii), Some("MCCXXXIV".into()));
    assert_eq!(convert("1234", NumType::RomanLowerAscii), Some("mccxxxiv".into()));
    assert_eq!(convert("3999", NumType::RomanUpperAscii), Some("MMMCMXCIX".into()));
    assert_eq!(convert("4000", NumType::RomanUpperAscii), None);
}

#[test]
fn circled() {
    assert_eq!(convert("1", NumType::Circled), Some("①".into()));
    assert_eq!(convert("20", NumType::Circled), Some("⑳".into()));
    assert_eq!(convert("21", NumType::Circled), Some("㉑".into()));
    assert_eq!(convert("35", NumType::Circled), Some("㉟".into()));
    assert_eq!(convert("36", NumType::Circled), Some("㊱".into()));
    assert_eq!(convert("50", NumType::Circled), Some("㊿".into()));
    assert_eq!(convert("51", NumType::Circled), None);
    assert_eq!(convert("0", NumType::Circled), None);
    assert_eq!(convert("1234", NumType::Circled), None);
}

#[test]
fn parse_u64_rejects_overflow_and_non_digits() {
    assert_eq!(parse_u64("18446744073709551615"), Some(u64::MAX));
    assert_eq!(parse_u64("18446744073709551616"), None);
    assert_eq!(parse_u64("12a"), None);
    assert_eq!(parse_u64(""), None);
}

#[test]
fn marker_roundtrip() {
    for ch in ['0', '1', '2', '3', '5', '9', '6', '7', 'a', 'b', 'c'] {
        let ty = NumType::from_marker(ch).unwrap();
        assert_eq!(ty.marker(), ch);
    }
    assert_eq!(NumType::from_marker('4'), None);
    assert_eq!(NumType::from_marker('8'), None);
}

#[test]
fn scan_single_run() {
    let (tmpl, runs) = scan("だい12かい");
    assert_eq!(tmpl, "だい#かい");
    assert_eq!(runs, vec!["12".to_string()]);
}

#[test]
fn scan_only_digits() {
    let (tmpl, runs) = scan("1234");
    assert_eq!(tmpl, "#");
    assert_eq!(runs, vec!["1234".to_string()]);
}

#[test]
fn scan_no_digits() {
    let (tmpl, runs) = scan("あいうえお");
    assert_eq!(tmpl, "あいうえお");
    assert!(runs.is_empty());
    assert!(!has_digit_run("あいうえお"));
    assert!(has_digit_run("だい12かい"));
}

#[test]
fn scan_multiple_runs() {
    let (tmpl, runs) = scan("2がつ25にち");
    assert_eq!(tmpl, "#がつ#にち");
    assert_eq!(runs, vec!["2".to_string(), "25".to_string()]);
}

#[test]
fn scan_leading_trailing_digits() {
    let (tmpl, runs) = scan("123abc456");
    assert_eq!(tmpl, "#abc#");
    assert_eq!(runs, vec!["123".to_string(), "456".to_string()]);
}

#[test]
fn expand_single_type() {
    let (_, runs) = scan("だい12かい");
    assert_eq!(expand("第#1回", &runs), Some("第１２回".to_string()));
    assert_eq!(expand("第#0回", &runs), Some("第12回".to_string()));
    assert_eq!(expand("第#3回", &runs), Some("第十二回".to_string()));
}

#[test]
fn expand_multiple_runs() {
    let (_, runs) = scan("2がつ25にち");
    assert_eq!(expand("#0年#2月", &runs), Some("2年二五月".to_string()));
    assert_eq!(expand("#1月#1日", &runs), Some("２月２５日".to_string()));
}

#[test]
fn expand_insufficient_runs() {
    let (_, runs) = scan("12");
    assert_eq!(expand("#0年#1月", &runs), None);
}

#[test]
fn expand_unknown_marker_kept() {
    let (_, runs) = scan("12");
    let result = expand("#4#0", &runs);
    assert_eq!(result, Some("#412".to_string()));
}

#[test]
fn synthesize_single_run() {
    let (_, runs) = scan("12");
    let candidates = synthesize(&runs, &[NumType::Raw, NumType::Zenkaku, NumType::KanjiSeq]);
    assert_eq!(candidates, vec!["12".to_string(), "１２".to_string(), "十二".to_string()]);
}

#[test]
fn synthesize_unrepresentable_skipped() {
    let (_, runs) = scan("1234");
    let candidates = synthesize(&runs, &[NumType::Circled, NumType::Raw]);
    assert_eq!(candidates, vec!["1234".to_string()]);
}

#[test]
fn synthesize_multiple_runs_concatenated() {
    let (_, runs) = scan("2がつ25にち");
    let candidates = synthesize(&runs, &[NumType::Raw, NumType::Zenkaku]);
    assert_eq!(candidates, vec!["225".to_string(), "２２５".to_string()]);
}

#[test]
fn synthesize_without_runs_is_empty() {
    assert!(synthesize(&[], &[NumType::Raw]).is_empty());
}

// ── #4 (recursive numeric conversion) ────────────────────────────────────────

#[test]
fn expand_recursive_basic() {
    let lookup = |key: &str| -> Vec<String> {
        if key == "125" {
            vec!["東京都葛飾区".to_string()]
        } else {
            vec![]
        }
    };
    let runs = vec!["125".to_string()];
    let result = expand_with_recursive_lookup("#4", &runs, &lookup);
    assert_eq!(result, vec!["東京都葛飾区".to_string()]);
}

#[test]
fn expand_recursive_multiple_candidates() {
    let lookup = |key: &str| -> Vec<String> {
        if key == "1" {
            vec!["A".to_string(), "B".to_string(), "C".to_string()]
        } else {
            vec![]
        }
    };
    let runs = vec!["1".to_string()];
    let result = expand_with_recursive_lookup("#4", &runs, &lookup);
    assert_eq!(result, vec!["A".to_string(), "B".to_string(), "C".to_string()]);
}

#[test]
fn expand_recursive_cartesian() {
    let lookup = |key: &str| -> Vec<String> {
        match key {
            "1" => vec!["A".to_string(), "B".to_string()],
            "2" => vec!["C".to_string()],
            _ => vec![],
        }
    };
    let runs = vec!["1".to_string(), "2".to_string()];
    let result = expand_with_recursive_lookup("#4-#4", &runs, &lookup);
    assert_eq!(result, vec!["A-C".to_string(), "B-C".to_string()]);
}

#[test]
fn expand_recursive_mixed_with_other_markers() {
    let lookup = |key: &str| -> Vec<String> {
        if key == "2" {
            vec!["X".to_string()]
        } else {
            vec![]
        }
    };
    let runs = vec!["1".to_string(), "2".to_string()];
    let result = expand_with_recursive_lookup("#0/#4", &runs, &lookup);
    assert_eq!(result, vec!["1/X".to_string()]);
}

#[test]
fn expand_recursive_lookup_miss_returns_empty() {
    let lookup = |_: &str| -> Vec<String> { vec![] };
    let runs = vec!["999".to_string()];
    let result = expand_with_recursive_lookup("#4", &runs, &lookup);
    assert!(result.is_empty());
}

#[test]
fn expand_recursive_self_reference_substituted_literally() {
    let lookup = |key: &str| -> Vec<String> {
        if key == "5" {
            vec!["#4".to_string()]
        } else {
            vec![]
        }
    };
    let runs = vec!["5".to_string()];
    let result = expand_with_recursive_lookup("#4", &runs, &lookup);
    assert_eq!(result, vec!["#4".to_string()]);
}

#[test]
fn expand_recursive_no_recursive_marker_compatible_with_expand() {
    let lookup = |_: &str| -> Vec<String> {
        panic!("lookup must not be called when no #4 is present");
    };
    let runs = vec!["3".to_string()];
    let result = expand_with_recursive_lookup("#1月", &runs, &lookup);
    assert_eq!(result, vec!["３月".to_string()]);
    assert_eq!(expand("#1月", &runs), Some("３月".to_string()));
}

#[test]
fn expand_recursive_run_shortage_returns_empty() {
    let lookup = |_: &str| -> Vec<String> { vec!["X".to_string()] };
    let runs: Vec<String> = vec![];
    let result = expand_with_recursive_lookup("#4", &runs, &lookup);
    assert!(result.is_empty());
}

#[test]
fn expand_recursive_caps_cartesian_product() {
    let alternatives: Vec<String> = (0..16).map(|i| format!("a{i}")).collect();
    let lookup = |_: &str| alternatives.clone();
    let runs: Vec<String> = (0..4).map(|i| i.to_string()).collect();
    let result = expand_with_recursive_lookup("#4#4#4#4", &runs, &lookup);
    assert!(result.len() <= MAX_RECURSIVE_EXPANSIONS);
    assert_eq!(result.len(), MAX_RECURSIVE_EXPANSIONS);
    for s in &result {
        assert!(s.starts_with('a'));
        assert!(!s.contains('#'));
    }
}

#[test]
fn expand_recursive_failed_expand_gives_nothing() {
    // Without #4 a failing `expand` becomes an empty list.
    let lookup = |_: &str| -> Vec<String> { panic!("not consulted") };
    let result = expand_with_recursive_lookup("#0#0", &["1".to_string()], &lookup);
    assert!(result.is_empty());
    assert_eq!(expand("#0#0", &["1".to_string()]), None);
}

#[test]
fn conversion_fails_only_when_not_representable() {
    assert_eq!(convert("", NumType::Raw), Some(String::new()));
    assert_eq!(convert("", NumType::Zenkaku), Some(String::new()));
    assert_eq!(convert("", NumType::Shogi), None);
    assert_eq!(convert("", NumType::KanjiSeq), None);
    assert_eq!(convert("99999999999999999999", NumType::Daiji), None);
    assert_eq!(convert("3999", NumType::RomanUpperAscii), Some("MMMCMXCIX".to_string()));
    assert_eq!(convert("50", NumType::Circled), Some("㊿".to_string()));
}
