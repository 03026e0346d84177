use y2skk::dict::entry::{Candidate, DictEntry, LispForm};
use y2skk::dict::file::{parse_skk_dict, DictEncoding, FileDict, Headword, UserDict};
use y2skk::dict::lisp::{classify, parse_ignore_dic_word, render_ignore_dic_word};
use y2skk::dict::traits::DictionaryProvider;

const SAMPLE: &str = "\
;; SKK-JISYO.test
;;; okuri-ari entries.
あk /明/空/
;;; okuri-nasi entries.
てすと /テスト/test/
";

fn bucket<'a>(entries: &'a [Headword], midashi: &str, okuri: Option<&str>) -> &'a [Candidate] {
    let h = entries.iter().find(|h| h.midashi == midashi).expect("headword");
    let b = h
        .buckets
        .iter()
        .find(|b| b.okuri.as_deref() == okuri)
        .expect("bucket");
    &b.candidates
}

#[test]
fn test_parse() {
    let entries = parse_skk_dict(SAMPLE).unwrap();
    let okuri_ari = bucket(&entries, "あ", Some("k"));
    assert_eq!(okuri_ari[0].word, "明");
    assert_eq!(okuri_ari[1].word, "空");

    let nasi = bucket(&entries, "てすと", None);
    assert_eq!(nasi[0].word, "テスト");
    assert_eq!(nasi[1].word, "test");
}

#[test]
fn test_lookup() {
    let dict = FileDict::load("test", SAMPLE, 0).unwrap();

    let result = dict.lookup("あ", Some("k")).unwrap();
    assert_eq!(result.candidates[0].word, "明");
    assert!(dict.lookup("あ", None).is_none());
}

#[test]
fn test_user_dict_learn() {
    let mut udict = UserDict::empty("/tmp/y2skk_test.dict");

    udict
        .learn(DictEntry {
            midashi: "あ".into(),
            okuri: Some("k".into()),
            candidates: vec![Candidate::new("明")],
        })
        .unwrap();
    assert!(udict.is_dirty());

    // Learning again promotes to front
    udict
        .learn(DictEntry {
            midashi: "あ".into(),
            okuri: Some("k".into()),
            candidates: vec![Candidate::new("空")],
        })
        .unwrap();

    let entry = udict.lookup("あ", Some("k")).unwrap();
    assert_eq!(entry.candidates[0].word, "空");
    assert_eq!(entry.candidates[1].word, "明");
}

#[test]
fn test_serialize_roundtrip() {
    let udict = UserDict::load("/tmp/y2skk_test.dict", Some(SAMPLE)).unwrap();
    let mut udict = udict;
    udict
        .learn(DictEntry { midashi: "い".into(), okuri: None, candidates: vec![Candidate::new("胃")] })
        .unwrap();
    let serialized = udict.save_contents().expect("dirty dictionary has contents");
    let reparsed = parse_skk_dict(&serialized).unwrap();

    // Check key entries survived the roundtrip
    assert_eq!(bucket(&reparsed, "あ", Some("k"))[0].word, "明");
    assert_eq!(bucket(&reparsed, "てすと", None)[1].word, "test");
    assert_eq!(bucket(&reparsed, "い", None)[0].word, "胃");
}

#[test]
fn test_learn_removes_word_from_ignore_dic_word() {
    // When a word listed in skk-ignore-dic-word is explicitly learned, it
    // should be removed from the directive.
    let src = "むし /普通/(skk-ignore-dic-word \"無視\" \"除外\")/\n";
    let mut udict = UserDict::load("/tmp/y2skk_test.dict", Some(src)).unwrap();

    udict
        .learn(DictEntry { midashi: "むし".into(), okuri: None, candidates: vec![Candidate::new("無視")] })
        .unwrap();

    let entry = udict.lookup("むし", None).unwrap();
    assert_eq!(entry.candidates[0].word, "無視");
    let ignore = entry
        .candidates
        .iter()
        .find(|c| matches!(&c.lisp_form, Some(LispForm::IgnoreDicWord(_))))
        .expect("IgnoreDicWord entry should still exist");
    if let Some(LispForm::IgnoreDicWord(ws)) = &ignore.lisp_form {
        assert_eq!(ws, &["除外".to_string()]);
    }
}

#[test]
fn test_learn_drops_empty_ignore_dic_word() {
    let src = "ゆいいつ /(skk-ignore-dic-word \"唯一\")/\n";
    let mut udict = UserDict::load("/tmp/y2skk_test.dict", Some(src)).unwrap();

    udict
        .learn(DictEntry { midashi: "ゆいいつ".into(), okuri: None, candidates: vec![Candidate::new("唯一")] })
        .unwrap();

    let entry = udict.lookup("ゆいいつ", None).unwrap();
    assert!(!entry.candidates.iter().any(|c| c.lisp_form.is_some()));
    assert_eq!(entry.candidates[0].word, "唯一");
}

#[test]
fn test_encoding_from_str() {
    assert_eq!(DictEncoding::from_str("euc-jp"), DictEncoding::EucJp);
    assert_eq!(DictEncoding::from_str("EUC-JP"), DictEncoding::EucJp);
    assert_eq!(DictEncoding::from_str("utf-8"), DictEncoding::Utf8);
    assert_eq!(DictEncoding::from_str("utf8"), DictEncoding::Utf8);
}

// ── Lisp forms ───────────────────────────────────────────────────────────────

#[test]
fn test_classify_literal() {
    assert!(classify("普通の単語").is_none());
    assert!(classify("テスト").is_none());
    assert!(classify("").is_none());
}

#[test]
fn test_classify_ignore_dic_word_empty() {
    let form = classify("(skk-ignore-dic-word)");
    assert_eq!(form, Some(LispForm::IgnoreDicWord(vec![])));
}

#[test]
fn test_classify_ignore_dic_word_single() {
    let form = classify("(skk-ignore-dic-word \"無視\")");
    assert_eq!(form, Some(LispForm::IgnoreDicWord(vec!["無視".to_string()])));
}

#[test]
fn test_classify_ignore_dic_word_multiple() {
    let form = classify("(skk-ignore-dic-word \"foo\" \"bar\" \"baz\")");
    assert_eq!(
        form,
        Some(LispForm::IgnoreDicWord(vec!["foo".to_string(), "bar".to_string(), "baz".to_string()]))
    );
}

#[test]
fn test_classify_ignore_dic_word_escape() {
    let form = classify("(skk-ignore-dic-word \"say \\\"hi\\\"\" \"back\\\\slash\")");
    assert_eq!(
        form,
        Some(LispForm::IgnoreDicWord(vec!["say \"hi\"".to_string(), "back\\slash".to_string()]))
    );
}

#[test]
fn test_classify_unknown_lisp() {
    let form = classify("(concat \"a\" \"b\")");
    assert_eq!(form, Some(LispForm::Unknown));
}

#[test]
fn test_classify_unknown_no_keyword_match() {
    let form = classify("(skk-ignore-dic-word-extra \"x\")");
    assert_eq!(form, Some(LispForm::Unknown));
}

#[test]
fn test_render_roundtrip_single() {
    let source = "(skk-ignore-dic-word \"無視\")";
    let parsed = parse_ignore_dic_word(source).unwrap();
    let rendered = render_ignore_dic_word(&parsed);
    assert_eq!(rendered, source);
}

#[test]
fn test_render_roundtrip_multiple() {
    let source = "(skk-ignore-dic-word \"foo\" \"bar\")";
    let parsed = parse_ignore_dic_word(source).unwrap();
    let rendered = render_ignore_dic_word(&parsed);
    assert_eq!(rendered, source);
}

#[test]
fn test_render_escaping() {
    let words = vec!["say \"hi\"".to_string(), "back\\slash".to_string()];
    let rendered = render_ignore_dic_word(&words);
    assert_eq!(rendered, "(skk-ignore-dic-word \"say \\\"hi\\\"\" \"back\\\\slash\")");
}

// ── Laws on concrete values ──────────────────────────────────────────────────

#[test]
fn law_render_then_parse_gives_words_back() {
    let words = vec!["a\"b".to_string(), "".to_string(), "c\\".to_string()];
    let rendered = render_ignore_dic_word(&words);
    assert_eq!(parse_ignore_dic_word(&rendered), Some(words));
}

#[test]
fn law_learned_word_comes_first_and_completes_first() {
    let mut udict = UserDict::empty("/tmp/y2skk_law.dict");
    udict
        .learn(DictEntry { midashi: "かん".into(), okuri: None, candidates: vec![Candidate::new("缶")] })
        .unwrap();
    udict
        .learn(DictEntry { midashi: "かんじ".into(), okuri: None, candidates: vec![Candidate::new("漢字")] })
        .unwrap();
    udict
        .learn(DictEntry { midashi: "かん".into(), okuri: None, candidates: vec![Candidate::new("感")] })
        .unwrap();
    assert_eq!(udict.lookup("かん", None).unwrap().candidates[0].word, "感");
    let completions = udict.complete("か");
    assert_eq!(completions[0], "かん");
    assert!(completions.contains(&"かんじ".to_string()));
}

#[test]
fn file_dict_is_read_only() {
    let mut dict = FileDict::load("test", SAMPLE, 3).unwrap();
    assert_eq!(dict.priority(), 3);
    assert_eq!(dict.path(), "test");
    let r = dict.learn(DictEntry { midashi: "あ".into(), okuri: None, candidates: vec![Candidate::new("亜")] });
    assert!(r.is_err());
}

#[test]
fn parse_error_reports_line() {
    match parse_skk_dict("あ /亜/\nbroken-line-without-slash\n") {
        Err(y2skk::dict::entry::DictError::Parse { line, .. }) => assert_eq!(line, 2),
        other => panic!("expected a parse error, got {:?}", other.map(|v| v.len())),
    }
}

#[test]
fn saved_user_dict_answers_lookups_as_before() {
    let mut udict = UserDict::load("/tmp/y2skk_test.dict", Some(SAMPLE)).unwrap();
    udict
        .learn(DictEntry {
            midashi: "かんじ".into(),
            okuri: None,
            candidates: vec![Candidate::with_annotation("漢字", "kanji")],
        })
        .unwrap();
    udict
        .learn(DictEntry { midashi: "あ".into(), okuri: Some("k".into()), candidates: vec![Candidate::new("空")] })
        .unwrap();
    let text = udict.save_contents().expect("dirty dictionary has contents");
    let again = UserDict::load("/tmp/y2skk_test.dict", Some(&text)).unwrap();
    for (m, o) in [("あ", Some("k")), ("てすと", None), ("かんじ", None), ("あ", None), ("ない", None)] {
        assert_eq!(udict.lookup(m, o), again.lookup(m, o), "lookup of {m} {o:?}");
    }
    assert_eq!(again.lookup("あ", Some("k")).unwrap().candidates[0].word, "空");
    assert_eq!(again.lookup("かんじ", None).unwrap().candidates[0].annotation.as_deref(), Some("kanji"));
}
