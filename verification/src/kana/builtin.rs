//! Built-in kana tables.

use vstd::prelude::*;

use crate::kana::parser::{parse_table, spec_parse_table, ParseState};
use crate::kana::table::{no_start_wildcard_rules, rules_of, KanaLayout, KanaTable, KanaTransition, TransitionRule};

verus! {

/// Standard SKK romaji input rules.
const ROMAJI_TABLE: &'static str = "[meta]\nname = \"romaji\"\n\n[trans]\n\ta\t\tあ\n\ti\t\tい\n\tu\t\tう\n\te\t\tえ\n\to\t\tお\n\tk\tk\t\nk\ta\t\tか\nk\ti\t\tき\nk\tu\t\tく\nk\te\t\tけ\nk\to\t\tこ\n\tg\tg\t\ng\ta\t\tが\ng\ti\t\tぎ\ng\tu\t\tぐ\ng\te\t\tげ\ng\to\t\tご\n\ts\ts\t\ns\ta\t\tさ\ns\ti\t\tし\ns\tu\t\tす\ns\te\t\tせ\ns\to\t\tそ\n\tz\tz\t\nz\ta\t\tざ\nz\ti\t\tじ\nz\tu\t\tず\nz\te\t\tぜ\nz\to\t\tぞ\n\tj\tj\t\nj\ta\t\tじゃ\nj\ti\t\tじ\nj\tu\t\tじゅ\nj\te\t\tじぇ\nj\to\t\tじょ\n\tt\tt\t\nt\ta\t\tた\nt\ti\t\tち\nt\tu\t\tつ\nt\te\t\tて\nt\to\t\tと\n\td\td\t\nd\ta\t\tだ\nd\ti\t\tぢ\nd\tu\t\tづ\nd\te\t\tで\nd\to\t\tど\n\tn\tn\t\nn\ta\t\tな\nn\ti\t\tに\nn\tu\t\tぬ\nn\te\t\tね\nn\to\t\tの\n\th\th\t\nh\ta\t\tは\nh\ti\t\tひ\nh\tu\t\tふ\nh\te\t\tへ\nh\to\t\tほ\n\tf\tf\t\nf\ta\t\tふぁ\nf\ti\t\tふぃ\nf\tu\t\tふ\nf\te\t\tふぇ\nf\to\t\tふぉ\n\tb\tb\t\nb\ta\t\tば\nb\ti\t\tび\nb\tu\t\tぶ\nb\te\t\tべ\nb\to\t\tぼ\n\tp\tp\t\np\ta\t\tぱ\np\ti\t\tぴ\np\tu\t\tぷ\np\te\t\tぺ\np\to\t\tぽ\n\tm\tm\t\nm\ta\t\tま\nm\ti\t\tみ\nm\tu\t\tむ\nm\te\t\tめ\nm\to\t\tも\n\ty\ty\t\ny\ta\t\tや\ny\tu\t\tゆ\ny\te\t\tいぇ\ny\to\t\tよ\n\tr\tr\t\nr\ta\t\tら\nr\ti\t\tり\nr\tu\t\tる\nr\te\t\tれ\nr\to\t\tろ\n\tw\tw\t\nw\ta\t\tわ\nw\ti\t\tうぃ\nw\tu\t\tう\nw\te\t\tうぇ\nw\to\t\tを\n\tv\tv\t\nv\ta\t\tゔぁ\nv\ti\t\tゔぃ\nv\tu\t\tゔ\nv\te\t\tゔぇ\nv\to\t\tゔぉ\n\tx\tx\t\nx\ta\t\tぁ\nx\ti\t\tぃ\nx\tu\t\tぅ\nx\te\t\tぇ\nx\to\t\tぉ\nk\ty\tky\t\nky\ta\t\tきゃ\nky\ti\t\tきぃ\nky\tu\t\tきゅ\nky\te\t\tきぇ\nky\to\t\tきょ\ng\ty\tgy\t\ngy\ta\t\tぎゃ\ngy\ti\t\tぎぃ\ngy\tu\t\tぎゅ\ngy\te\t\tぎぇ\ngy\to\t\tぎょ\ns\ty\tsy\t\nsy\ta\t\tしゃ\nsy\ti\t\tしぃ\nsy\tu\t\tしゅ\nsy\te\t\tしぇ\nsy\to\t\tしょ\nz\ty\tzy\t\nzy\ta\t\tじゃ\nzy\ti\t\tじぃ\nzy\tu\t\tじゅ\nzy\te\t\tじぇ\nzy\to\t\tじょ\nj\ty\tjy\t\njy\ta\t\tじゃ\njy\ti\t\tじぃ\njy\tu\t\tじゅ\njy\te\t\tじぇ\njy\to\t\tじょ\nt\ty\tty\t\nty\ta\t\tちゃ\nty\ti\t\tちぃ\nty\tu\t\tちゅ\nty\te\t\tちぇ\nty\to\t\tちょ\nd\ty\tdy\t\ndy\ta\t\tぢゃ\ndy\ti\t\tぢぃ\ndy\tu\t\tぢゅ\ndy\te\t\tぢぇ\ndy\to\t\tぢょ\nn\ty\tny\t\nny\ta\t\tにゃ\nny\ti\t\tにぃ\nny\tu\t\tにゅ\nny\te\t\tにぇ\nny\to\t\tにょ\nh\ty\thy\t\nhy\ta\t\tひゃ\nhy\ti\t\tひぃ\nhy\tu\t\tひゅ\nhy\te\t\tひぇ\nhy\to\t\tひょ\nb\ty\tby\t\nby\ta\t\tびゃ\nby\ti\t\tびぃ\nby\tu\t\tびゅ\nby\te\t\tびぇ\nby\to\t\tびょ\np\ty\tpy\t\npy\ta\t\tぴゃ\npy\ti\t\tぴぃ\npy\tu\t\tぴゅ\npy\te\t\tぴぇ\npy\to\t\tぴょ\nm\ty\tmy\t\nmy\ta\t\tみゃ\nmy\ti\t\tみぃ\nmy\tu\t\tみゅ\nmy\te\t\tみぇ\nmy\to\t\tみょ\nr\ty\try\t\nry\ta\t\tりゃ\nry\ti\t\tりぃ\nry\tu\t\tりゅ\nry\te\t\tりぇ\nry\to\t\tりょ\nf\ty\tfy\t\nfy\ta\t\tふゃ\nfy\ti\t\tふぃ\nfy\tu\t\tふゅ\nfy\te\t\tふぇ\nfy\to\t\tふょ\n\tc\tc\t\nc\ty\tcy\t\ncy\ta\t\tちゃ\ncy\ti\t\tちぃ\ncy\tu\t\tちゅ\ncy\te\t\tちぇ\ncy\to\t\tちょ\ns\th\tsh\t\nsh\ta\t\tしゃ\nsh\ti\t\tし\nsh\tu\t\tしゅ\nsh\te\t\tしぇ\nsh\to\t\tしょ\nc\th\tch\t\nch\ta\t\tちゃ\nch\ti\t\tち\nch\tu\t\tちゅ\nch\te\t\tちぇ\nch\to\t\tちょ\nt\th\tth\t\nth\ta\t\tてゃ\nth\ti\t\tてぃ\nth\tu\t\tてゅ\nth\te\t\tてぇ\nth\to\t\tてょ\nd\th\tdh\t\ndh\ta\t\tでゃ\ndh\ti\t\tでぃ\ndh\tu\t\tでゅ\ndh\te\t\tでぇ\ndh\to\t\tでょ\nt\ts\tts\t\nts\ta\t\tつぁ\nts\ti\t\tつぃ\nts\tu\t\tつ\nts\te\t\tつぇ\nts\to\t\tつぉ\nx\tt\txt\t\nxt\tu\t\tっ\nxt\ts\txts\t\nxts\tu\t\tっ\nx\ty\txy\t\nxy\ta\t\tゃ\nxy\tu\t\tゅ\nxy\to\t\tょ\nx\tw\txw\t\nxw\ta\t\tゎ\nx\tk\txk\t\nxk\ta\t\tヵ\nxk\te\t\tヶ\nn\tn\t\tん\nn\t'\t\tん\nb\tb\tb\tっ\nc\tc\tc\tっ\nd\td\td\tっ\nf\tf\tf\tっ\ng\tg\tg\tっ\nh\th\th\tっ\nj\tj\tj\tっ\nk\tk\tk\tっ\nm\tm\tm\tっ\np\tp\tp\tっ\nr\tr\tr\tっ\ns\ts\ts\tっ\nt\tt\tt\tっ\nv\tv\tv\tっ\nw\tw\tw\tっ\nx\tx\tx\tっ\ny\ty\ty\tっ\nz\tz\tz\tっ\n\t-\t\tー\n\t.\t\t。\n\t,\t\t、\n\t[\t\t「\n\t]\t\t」\n\t~\t\t〜\n\t!\t\t！\n\t?\t\t？\nn\t*\t\tん\n\n[trans.katakana]\n\n[okuri_alias]\n";

/// Text of the built-in table for `layout`.  Only the romaji table is
/// bundled; the other layouts have no bundled rules.
pub closed spec fn builtin_source(layout: KanaLayout) -> Seq<char> {
    match layout {
        KanaLayout::Romaji => ROMAJI_TABLE@,
        _ => Seq::empty(),
    }
}

/// Whether a parsed table is one the engine can run: no rule fires on any
/// character in the start state.
pub open spec fn usable_parse(st: ParseState) -> bool {
    no_start_wildcard_rules(st.trans) && no_start_wildcard_rules(st.kata)
}

/// Returns the built-in kana conversion table for the given layout: the
/// rules of the bundled text, which is well formed and has no rule firing on
/// any character in the start state; were it otherwise, the result would be
/// an empty table.  Either way the table can run an engine.
pub fn builtin_table(layout: KanaLayout) -> (r: KanaTable)
    ensures
        r.spec_no_start_wildcard(),
        match spec_parse_table(builtin_source(layout)) {
            Ok(st) => if usable_parse(st) {
                r.spec_transitions() == st.trans && r.spec_kata_overrides() == st.kata && r.spec_aliases() == st.aliases
            } else {
                r.spec_transitions().len() == 0 && r.spec_kata_overrides().len() == 0 && r.spec_aliases().len() == 0
            },
            Err(_) => r.spec_transitions().len() == 0 && r.spec_kata_overrides().len() == 0
                && r.spec_aliases().len() == 0,
        },
{
    let src: &str = match layout {
        KanaLayout::Romaji => ROMAJI_TABLE,
        _ => "",
    };
    proof {
        if !(layout is Romaji) {
            assert(src@ =~= Seq::<char>::empty()) by {
                reveal_strlit("");
            }
        }
    }
    let empty = KanaTable::new(Vec::new(), Vec::new(), Vec::new());
    proof {
        assert(rules_of(Seq::<KanaTransition>::empty()) =~= Seq::<TransitionRule>::empty());
    }
    match parse_table(src) {
        Ok(t) => if t.has_start_wildcard() {
            empty
        } else {
            t
        },
        Err(_) => empty,
    }
}

} // verus!
