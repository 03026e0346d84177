use y2skk::kana::builtin::builtin_table;
use y2skk::kana::parser::parse_table;
use y2skk::kana::table::{
    hiragana_to_halfwidth, hiragana_to_katakana, to_halfwidth_katakana, KanaInput, KanaLayout, KanaMode, KanaTable,
    KanaTransition, TransitionResult,
};

const SIMPLE_TABLE: &str = "\
[meta]
name = \"test\"

[trans]
\tk\tk\t
k\ta\t\tか
k\ti\t\tき
\tn\tn\t
n\t*\t\tん
n\ta\t\tな

[trans.katakana]

[okuri_alias]
c\tk
";

#[test]
fn test_parse_basic() {
    let table = parse_table(SIMPLE_TABLE).unwrap();

    let r = table.transition("", 'k', KanaMode::Hiragana);
    assert!(matches!(r, TransitionResult::Advance { .. }));

    assert_eq!(table.okuri_key('c'), 'k');
    assert_eq!(table.okuri_key('k'), 'k');
}

#[test]
fn test_wildcard_n() {
    let table = parse_table(SIMPLE_TABLE).unwrap();

    // n + a → な (exact match takes priority over wildcard)
    let r = table.transition("n", 'a', KanaMode::Hiragana);
    assert_eq!(r, TransitionResult::Advance { output: "な".into(), next_state: "".into() });

    // n + k → ん via wildcard; 'k' is retried from the start state (OkRetry)
    let r = table.transition("n", 'k', KanaMode::Hiragana);
    assert_eq!(r, TransitionResult::OkRetry { output: "ん".into(), retry: 'k' });
}

#[test]
fn test_literal_hash_input() {
    let src = "[trans]\n\t\\#\t\t＃\n";
    let table = parse_table(src).unwrap();
    let r = table.transition("", '#', KanaMode::Hiragana);
    assert_eq!(r, TransitionResult::Advance { output: "＃".into(), next_state: "".into() });
}

#[test]
fn test_literal_asterisk_input() {
    let src = "[trans]\n\t\\*\t\t＊\n";
    let table = parse_table(src).unwrap();
    // '\*' is a literal '*', not a wildcard — 'x' should be NoMatch
    let r = table.transition("", 'x', KanaMode::Hiragana);
    assert_eq!(r, TransitionResult::NoMatch { flush: "".into(), retry: None });
    // '*' key itself should produce "＊"
    let r = table.transition("", '*', KanaMode::Hiragana);
    assert_eq!(r, TransitionResult::Advance { output: "＊".into(), next_state: "".into() });
}

#[test]
fn test_literal_backslash_input() {
    let src = "[trans]\n\t\\\\\t\tＸ\n";
    let table = parse_table(src).unwrap();
    let r = table.transition("", '\\', KanaMode::Hiragana);
    assert_eq!(r, TransitionResult::Advance { output: "Ｘ".into(), next_state: "".into() });
}

#[test]
fn test_comment_with_escaped_hash() {
    let src = "[trans]\n\t\\#\t\t＃\t# this comment should not affect parsing\n";
    let table = parse_table(src).unwrap();
    let r = table.transition("", '#', KanaMode::Hiragana);
    assert_eq!(r, TransitionResult::Advance { output: "＃".into(), next_state: "".into() });
}

#[test]
fn test_unknown_escape_errors() {
    let src = "[trans]\n\t\\z\t\tＺ\n";
    assert!(parse_table(src).is_err());
}

#[test]
fn test_trailing_backslash_errors() {
    let src = "[trans]\n\t\\\t\tＸ\n";
    assert!(parse_table(src).is_err());
}

#[test]
fn test_wildcard_in_okuri_alias_errors() {
    let src = "[okuri_alias]\n*\tk\n";
    assert!(parse_table(src).is_err());
}

fn make_table(entries: &[(&str, char, &str, &str)]) -> KanaTable {
    let transitions = entries
        .iter()
        .map(|(from, input, to, output)| KanaTransition {
            from: from.to_string(),
            input: KanaInput::Char(*input),
            to: to.to_string(),
            output: output.to_string(),
        })
        .collect();
    KanaTable::new(transitions, vec![], vec![])
}

#[test]
fn test_basic_transition() {
    let table = make_table(&[("", 'k', "k", ""), ("k", 'a', "", "か"), ("k", 'i', "", "き")]);

    let r = table.transition("", 'k', KanaMode::Hiragana);
    assert_eq!(r, TransitionResult::Advance { output: String::new(), next_state: "k".into() });

    let r = table.transition("k", 'a', KanaMode::Hiragana);
    assert_eq!(r, TransitionResult::Advance { output: "か".into(), next_state: String::new() });
}

#[test]
fn test_katakana_auto_derive() {
    let table = make_table(&[("", 'k', "k", ""), ("k", 'a', "", "か")]);
    let r = table.transition("k", 'a', KanaMode::Katakana);
    assert_eq!(r, TransitionResult::Advance { output: "カ".into(), next_state: String::new() });
}

#[test]
fn test_no_match_intermediate() {
    let table = make_table(&[("", 'k', "k", ""), ("k", 'a', "", "か")]);
    // 'b' is not reachable from state "k" → flush="k", retry=Some('b')
    let r = table.transition("k", 'b', KanaMode::Hiragana);
    assert_eq!(r, TransitionResult::NoMatch { flush: "k".into(), retry: Some('b') });
}

#[test]
fn test_hiragana_to_katakana() {
    assert_eq!(hiragana_to_katakana("かきくけこ"), "カキクケコ");
    assert_eq!(hiragana_to_katakana("っ"), "ッ");
}

#[test]
fn halfwidth_conversion_splits_voiced_marks() {
    assert_eq!(hiragana_to_halfwidth("がぱ"), "ｶﾞﾊﾟ");
    assert_eq!(to_halfwidth_katakana('ヴ'), vec!['ｳ', 'ﾞ']);
    assert_eq!(to_halfwidth_katakana('a'), vec!['a']);
}

#[test]
fn overlay_user_rule_wins() {
    let base = make_table(&[("", 'a', "", "あ")]);
    let user = make_table(&[("", 'a', "", "ア")]);
    let t = base.overlay(user);
    assert_eq!(t.transition("", 'a', KanaMode::Hiragana), TransitionResult::Advance { output: "ア".into(), next_state: "".into() });
}

#[test]
fn builtin_romaji_converts_ka() {
    let t = builtin_table(KanaLayout::Romaji);
    assert_eq!(t.transition("k", 'a', KanaMode::Hiragana), TransitionResult::Advance { output: "か".into(), next_state: "".into() });
    assert!(!t.has_start_wildcard());
}

#[test]
fn overlay_keeps_base_rules_the_user_leaves_alone() {
    let base = make_table(&[("", 'a', "", "あ"), ("", 'i', "", "い")]);
    let user = make_table(&[("", 'a', "", "ア")]);
    let t = base.overlay(user);
    assert_eq!(t.transition("", 'i', KanaMode::Hiragana), TransitionResult::Advance { output: "い".into(), next_state: "".into() });
    assert_eq!(t.transition("", 'a', KanaMode::Hiragana), TransitionResult::Advance { output: "ア".into(), next_state: "".into() });
}
