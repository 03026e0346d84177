//! The daemon's configuration file, modelled with plain values (paths as
//! strings), and the checks run on it before the daemon starts.

use vstd::prelude::*;

use crate::config::SkkKeybindings;
use crate::dict::file::DictEncoding;
use crate::engine::{PhaseView, SkkPhase};
use crate::kana::parser::{parse_table, table_outcome, KanaTableError};
use crate::kana::table::KanaTable;
use crate::key::{Key, Modifiers, ALT_BIT, CTRL_BIT, META_BIT, SHIFT_BIT};
use crate::text::{
    chars_of, concat, debug_str, pieces_view, split_chars, split_on, str_debug, str_eq, str_lowercase,
    to_lowercase,
};

verus! {

// ── Top-level config ─────────────────────────────────────────────────────────

/// The whole configuration file.
#[derive(Debug)]
pub struct Config {
    pub input: InputConfig,
    /// The `[user-dict]` table.
    pub user_dict: UserDictConfig,
    pub dict: DictConfig,
    pub indicator: IndicatorConfig,
    pub candidates: CandidatesConfig,
    pub daemon: DaemonConfig,
}

/// `[input]`
#[derive(Debug)]
pub struct InputConfig {
    /// Built-in layout name or user-defined table name (default: "romaji")
    pub kana_layout: String,
    /// Path to a user-defined kana table file (used when kana_layout is not a built-in name)
    pub kana_table: Option<String>,
    /// Input mode on startup (default: "hiragana")
    pub default_mode: String,
    /// Key combinations that toggle IME on/off (default: ["shift+space"])
    pub toggle_keys: Vec<String>,
    /// Key combinations that toggle raw mode (default: none).
    pub raw_mode_toggle_keys: Vec<String>,
    /// Characters that trigger immediate conversion in ▽ mode, one per entry
    /// (default: [",", ".", "を"]).
    pub conversion_trigger_chars: Vec<String>,
    /// vi-compatible behaviour: Esc in a normal input phase switches to Ascii.
    pub vi_escape: bool,
}

/// `[user-dict]`
#[derive(Debug)]
pub struct UserDictConfig {
    pub path: Option<String>,
}

/// `[dict]`
#[derive(Debug)]
pub struct DictConfig {
    pub sources: Vec<DictSource>,
    /// When true, `(skk-ignore-dic-word ...)` directives in dictionaries are
    /// interpreted (default: true).
    pub lisp_directives: bool,
}

/// One `[[dict.sources]]` entry.
#[derive(Debug)]
pub struct DictSource {
    pub path: String,
    pub encoding: DictEncoding,
    pub priority: i32,
}

/// `[indicator]`
#[derive(Debug)]
pub struct IndicatorConfig {
    pub enabled: bool,
    /// Milliseconds before the indicator hides after a mode change (0 = always visible)
    pub timeout_ms: u32,
}

/// `[candidates]`
#[derive(Debug)]
pub struct CandidatesConfig {
    /// Number of candidates shown inline before switching to list display
    pub inline_count: usize,
    /// Keys used to select candidates in list mode
    pub selection_keys: String,
}

/// `[daemon]`
#[derive(Debug)]
pub struct DaemonConfig {
    pub log_level: String,
}

// ── Defaults ─────────────────────────────────────────────────────────────────

/// The default encoding of a dictionary source.
pub fn default_encoding() -> (r: DictEncoding)
    ensures
        r == DictEncoding::Utf8,
{
    DictEncoding::Utf8
}

pub open spec fn strs(v: Seq<String>) -> Seq<Seq<char>> {
    crate::dict::entry::strs_view(v)
}

/// Whether `c` holds the default `[input]` values.
pub open spec fn is_default_input(c: InputConfig) -> bool {
    &&& c.kana_layout@ == "romaji"@
    &&& c.kana_table is None
    &&& c.default_mode@ == "hiragana"@
    &&& strs(c.toggle_keys@) == seq!["shift+space"@]
    &&& c.raw_mode_toggle_keys@.len() == 0
    &&& strs(c.conversion_trigger_chars@) == seq![","@, "."@, "を"@]
    &&& !c.vi_escape
}

/// Whether `c` holds the default values everywhere.
pub open spec fn is_default_config(c: Config) -> bool {
    &&& is_default_input(c.input)
    &&& c.user_dict.path is None
    &&& c.dict.sources@.len() == 0
    &&& c.dict.lisp_directives
    &&& c.indicator.enabled
    &&& c.indicator.timeout_ms == 2000
    &&& c.candidates.inline_count == 3
    &&& c.candidates.selection_keys@ == "asdfjkl;"@
    &&& c.daemon.log_level@ == "info"@
}

impl Default for InputConfig {
    fn default() -> (r: Self)
        ensures
            is_default_input(r),
    {
        let r = Self {
            kana_layout: "romaji".to_owned(),
            kana_table: None,
            default_mode: "hiragana".to_owned(),
            toggle_keys: vec!["shift+space".to_owned()],
            raw_mode_toggle_keys: Vec::new(),
            conversion_trigger_chars: vec![",".to_owned(), ".".to_owned(), "を".to_owned()],
            vi_escape: false,
        };
        assert(strs(r.toggle_keys@) =~= seq!["shift+space"@]);
        assert(strs(r.conversion_trigger_chars@) =~= seq![","@, "."@, "を"@]);
        r
    }
}

impl Default for UserDictConfig {
    fn default() -> (r: Self)
        ensures
            r.path is None,
    {
        Self { path: None }
    }
}

impl Default for DictConfig {
    fn default() -> (r: Self)
        ensures
            r.sources@.len() == 0,
            r.lisp_directives,
    {
        Self { sources: Vec::new(), lisp_directives: true }
    }
}

impl Default for IndicatorConfig {
    fn default() -> (r: Self)
        ensures
            r.enabled,
            r.timeout_ms == 2000,
    {
        Self { enabled: true, timeout_ms: 2000 }
    }
}

impl Default for CandidatesConfig {
    fn default() -> (r: Self)
        ensures
            r.inline_count == 3,
            r.selection_keys@ == "asdfjkl;"@,
    {
        Self { inline_count: 3, selection_keys: "asdfjkl;".to_owned() }
    }
}

impl Default for DaemonConfig {
    fn default() -> (r: Self)
        ensures
            r.log_level@ == "info"@,
    {
        Self { log_level: "info".to_owned() }
    }
}

impl Default for Config {
    fn default() -> (r: Self)
        ensures
            is_default_config(r),
    {
        Self {
            input: InputConfig::default(),
            user_dict: UserDictConfig::default(),
            dict: DictConfig::default(),
            indicator: IndicatorConfig::default(),
            candidates: CandidatesConfig::default(),
            daemon: DaemonConfig::default(),
        }
    }
}

impl Config {
    /// The configuration to run with: the one loaded from the default
    /// location, or the defaults when there is none or it could not be read.
    pub fn load_default(loaded: Option<Config>) -> (r: Config)
        ensures
            loaded matches Some(c) ==> r == c,
            loaded is None ==> is_default_config(r),
    {
        match loaded {
            Some(c) => c,
            None => Config::default(),
        }
    }
}

// ── Errors ───────────────────────────────────────────────────────────────────

/// Error returned when the kana conversion table cannot be located or parsed.
#[derive(Debug)]
pub enum KanaTableResolveError {
    NotFound { layout: String, searched: String },
    ExplicitPathNotFound { path: String },
    Parse { path: String, source: KanaTableError },
}

/// Error produced when the configuration contains invalid or unusable values.
#[derive(Debug)]
pub enum ConfigValidationError {
    InvalidDefaultMode { value: String },
    InvalidToggleKey { value: String, reason: String },
    InvalidConversionTriggerChar { value: String },
    KanaTable(KanaTableResolveError),
    DictPathNotFound { path: String },
    UserDictParentNotFound { path: String },
}

/// Mathematical form of a [`KanaTableError`].
pub enum TableErrorView {
    Parse { line: nat, message: Seq<char> },
    Io(Seq<char>),
}

/// Mathematical form of a [`KanaTableResolveError`].
pub enum ResolveErrorView {
    NotFound { layout: Seq<char>, searched: Seq<char> },
    ExplicitPathNotFound { path: Seq<char> },
    Parse { path: Seq<char>, source: TableErrorView },
}

/// Mathematical form of a [`ConfigValidationError`].
pub enum ValidationErrorView {
    InvalidDefaultMode { value: Seq<char> },
    InvalidToggleKey { value: Seq<char>, reason: Seq<char> },
    InvalidConversionTriggerChar { value: Seq<char> },
    KanaTable(ResolveErrorView),
    DictPathNotFound { path: Seq<char> },
    UserDictParentNotFound { path: Seq<char> },
}

pub open spec fn table_error_view(e: KanaTableError) -> TableErrorView {
    match e {
        KanaTableError::Parse { line, message } => TableErrorView::Parse { line: line as nat, message: message@ },
        KanaTableError::Io(m) => TableErrorView::Io(m@),
    }
}

impl View for KanaTableResolveError {
    type V = ResolveErrorView;

    open spec fn view(&self) -> ResolveErrorView {
        match self {
            KanaTableResolveError::NotFound { layout, searched } => ResolveErrorView::NotFound {
                layout: layout@,
                searched: searched@,
            },
            KanaTableResolveError::ExplicitPathNotFound { path } => ResolveErrorView::ExplicitPathNotFound { path: path@ },
            KanaTableResolveError::Parse { path, source } => ResolveErrorView::Parse {
                path: path@,
                source: table_error_view(*source),
            },
        }
    }
}

impl View for ConfigValidationError {
    type V = ValidationErrorView;

    open spec fn view(&self) -> ValidationErrorView {
        match self {
            ConfigValidationError::InvalidDefaultMode { value } => ValidationErrorView::InvalidDefaultMode { value: value@ },
            ConfigValidationError::InvalidToggleKey { value, reason } => ValidationErrorView::InvalidToggleKey {
                value: value@,
                reason: reason@,
            },
            ConfigValidationError::InvalidConversionTriggerChar { value } => ValidationErrorView::InvalidConversionTriggerChar {
                value: value@,
            },
            ConfigValidationError::KanaTable(e) => ValidationErrorView::KanaTable(e@),
            ConfigValidationError::DictPathNotFound { path } => ValidationErrorView::DictPathNotFound { path: path@ },
            ConfigValidationError::UserDictParentNotFound { path } => ValidationErrorView::UserDictParentNotFound {
                path: path@,
            },
        }
    }
}

// ── default_mode ─────────────────────────────────────────────────────────────

/// The phase a `default_mode` name stands for.
pub open spec fn default_mode_of(name: Seq<char>) -> Option<PhaseView> {
    if name == "hiragana"@ {
        Some(PhaseView::Hiragana)
    } else if name == "katakana"@ {
        Some(PhaseView::Katakana)
    } else if name == "half-width-katakana"@ || name == "halfwidth-katakana"@ {
        Some(PhaseView::HalfWidthKatakana)
    } else if name == "wide-ascii"@ || name == "wideascii"@ || name == "zenkaku"@ {
        Some(PhaseView::WideAscii)
    } else if name == "ascii"@ || name == "latin"@ {
        Some(PhaseView::Ascii)
    } else {
        None
    }
}

/// Parses `default_mode` strictly, returning `Err` for unrecognised values.
pub fn parse_default_mode(name: &str) -> (r: Result<SkkPhase, ConfigValidationError>)
    ensures
        match default_mode_of(name@) {
            Some(p) => r matches Ok(ph) && ph@ == p,
            None => r matches Err(e) && e@ == (ValidationErrorView::InvalidDefaultMode { value: name@ }),
        },
{
    if str_eq(name, "hiragana") {
        Ok(SkkPhase::Hiragana)
    } else if str_eq(name, "katakana") {
        Ok(SkkPhase::Katakana)
    } else if str_eq(name, "half-width-katakana") || str_eq(name, "halfwidth-katakana") {
        Ok(SkkPhase::HalfWidthKatakana)
    } else if str_eq(name, "wide-ascii") || str_eq(name, "wideascii") || str_eq(name, "zenkaku") {
        Ok(SkkPhase::WideAscii)
    } else if str_eq(name, "ascii") || str_eq(name, "latin") {
        Ok(SkkPhase::Ascii)
    } else {
        Err(ConfigValidationError::InvalidDefaultMode { value: name.to_owned() })
    }
}

// ── toggle keys ──────────────────────────────────────────────────────────────

/// The key a (lowercased) key name stands for.
pub open spec fn key_of_name(n: Seq<char>) -> Option<Key> {
    if n == "space"@ {
        Some(Key::Space)
    } else if n == "return"@ || n == "enter"@ {
        Some(Key::Return)
    } else if n == "tab"@ {
        Some(Key::Tab)
    } else if n == "escape"@ || n == "esc"@ {
        Some(Key::Escape)
    } else if n.len() == 1 {
        Some(Key::Char(n[0]))
    } else {
        None
    }
}

/// The modifier bit a (lowercased) modifier name stands for.
pub open spec fn modifier_of_name(n: Seq<char>) -> Option<u8> {
    if n == "shift"@ {
        Some(SHIFT_BIT)
    } else if n == "ctrl"@ || n == "control"@ {
        Some(CTRL_BIT)
    } else if n == "alt"@ {
        Some(ALT_BIT)
    } else if n == "meta"@ || n == "super"@ {
        Some(META_BIT)
    } else {
        None
    }
}

/// The modifier bits of the first `n` parts, or the reason the first bad
/// one is refused.
pub open spec fn modifiers_upto(parts: Seq<Seq<char>>, n: int) -> Result<u8, Seq<char>>
    decreases n,
{
    if n <= 0 {
        Ok(0u8)
    } else {
        match modifiers_upto(parts, n - 1) {
            Err(e) => Err(e),
            Ok(b) => match modifier_of_name(str_lowercase(parts[n - 1])) {
                Some(m) => Ok(b | m),
                None => Err("unrecognised modifier "@ + str_debug(str_lowercase(parts[n - 1]))),
            },
        }
    }
}

proof fn lemma_modifiers_err_stays(parts: Seq<Seq<char>>, n: int, m: int)
    requires
        n <= m,
        modifiers_upto(parts, n) is Err,
    ensures
        modifiers_upto(parts, m) == modifiers_upto(parts, n),
    decreases m - n,
{
    if n < m {
        lemma_modifiers_err_stays(parts, n, m - 1);
    }
}

/// What a toggle-key string means: `mod+mod+key`, names compared in
/// lowercase; or the reason it is refused.
pub open spec fn spec_toggle_key(s: Seq<char>) -> Result<(Key, u8), Seq<char>> {
    let parts = split_on(s, '+');
    let key_str = parts.last();
    match key_of_name(str_lowercase(key_str)) {
        None => Err("unrecognised key name "@ + str_debug(key_str)),
        Some(k) => match modifiers_upto(parts, parts.len() - 1) {
            Ok(b) => Ok((k, b)),
            Err(e) => Err(e),
        },
    }
}

fn key_of_name_exec(n: &str) -> (r: Option<Key>)
    ensures
        r == key_of_name(n@),
{
    if str_eq(n, "space") {
        Some(Key::Space)
    } else if str_eq(n, "return") || str_eq(n, "enter") {
        Some(Key::Return)
    } else if str_eq(n, "tab") {
        Some(Key::Tab)
    } else if str_eq(n, "escape") || str_eq(n, "esc") {
        Some(Key::Escape)
    } else {
        let cs = chars_of(n);
        if cs.len() == 1 {
            Some(Key::Char(cs[0]))
        } else {
            None
        }
    }
}

fn modifier_of_name_exec(n: &str) -> (r: Option<u8>)
    ensures
        r == modifier_of_name(n@),
{
    if str_eq(n, "shift") {
        Some(SHIFT_BIT)
    } else if str_eq(n, "ctrl") || str_eq(n, "control") {
        Some(CTRL_BIT)
    } else if str_eq(n, "alt") {
        Some(ALT_BIT)
    } else if str_eq(n, "meta") || str_eq(n, "super") {
        Some(META_BIT)
    } else {
        None
    }
}

/// Parses a toggle key string strictly, returning `Err` for unrecognised values.
pub fn parse_toggle_key(s: &str) -> (r: Result<(Key, Modifiers), ConfigValidationError>)
    ensures
        match spec_toggle_key(s@) {
            Ok((k, b)) => r matches Ok(km) && km.0 == k && km.1.bits == b,
            Err(reason) => r matches Err(e) && e@ == (ValidationErrorView::InvalidToggleKey { value: s@, reason }),
        },
{
    let cs = chars_of(s);
    let parts = split_chars(&cs, '+');
    let ghost pv = pieces_view(parts@);
    let last = crate::text::string_from_chars(parts[parts.len() - 1].as_slice());
    assert(last@ == pv.last());
    let lower = to_lowercase(last.as_str());
    let key = match key_of_name_exec(lower.as_str()) {
        Some(k) => k,
        None => {
            let d = debug_str(last.as_str());
            let reason = concat("unrecognised key name ", d.as_str());
            return Err(ConfigValidationError::InvalidToggleKey { value: s.to_owned(), reason });
        },
    };
    let mut bits: u8 = 0;
    let mut i: usize = 0;
    while i < parts.len() - 1
        invariant
            i <= parts.len() - 1,
            pv == pieces_view(parts@),
            pv == split_on(s@, '+'),
            modifiers_upto(pv, i as int) == Ok::<u8, Seq<char>>(bits),
            key_of_name(str_lowercase(pv.last())) == Some(key),
        decreases parts.len() - 1 - i,
    {
        let part = crate::text::string_from_chars(parts[i].as_slice());
        assert(part@ == pv[i as int]);
        let lp = to_lowercase(part.as_str());
        match modifier_of_name_exec(lp.as_str()) {
            Some(m) => {
                bits = bits | m;
            },
            None => {
                let d = debug_str(lp.as_str());
                let reason = concat("unrecognised modifier ", d.as_str());
                proof {
                    assert(modifiers_upto(pv, i + 1) == Err::<u8, Seq<char>>(reason@));
                    lemma_modifiers_err_stays(pv, i + 1, pv.len() - 1);
                }
                return Err(ConfigValidationError::InvalidToggleKey { value: s.to_owned(), reason });
            },
        }
        i += 1;
    }
    Ok((key, Modifiers { bits }))
}


// ── Kana table resolution ────────────────────────────────────────────────────

/// The candidate paths joined with `", "`.
pub open spec fn joined_paths(cands: Seq<(Seq<char>, bool)>) -> Seq<char>
    decreases cands.len(),
{
    if cands.len() == 0 {
        Seq::empty()
    } else if cands.len() == 1 {
        cands[0].0
    } else {
        joined_paths(cands.drop_last()) + ", "@ + cands.last().0
    }
}

/// The first candidate path that exists.
pub open spec fn first_existing(cands: Seq<(Seq<char>, bool)>, i: int) -> Option<Seq<char>>
    decreases cands.len() - i,
{
    if i < 0 || i >= cands.len() {
        None
    } else if cands[i].1 {
        Some(cands[i].0)
    } else {
        first_existing(cands, i + 1)
    }
}

pub open spec fn cands_view(v: Seq<(String, bool)>) -> Seq<(Seq<char>, bool)> {
    v.map_values(|c: (String, bool)| (c.0@, c.1))
}

/// The kana table file to read: the explicit path when one is configured
/// (it must exist), else the first existing `<layout>.txt` among the
/// search candidates.
pub open spec fn spec_table_path(
    explicit: Option<Seq<char>>,
    layout: Seq<char>,
    explicit_exists: bool,
    cands: Seq<(Seq<char>, bool)>,
) -> Result<Seq<char>, ResolveErrorView> {
    match explicit {
        Some(p) => if explicit_exists { Ok(p) } else { Err(ResolveErrorView::ExplicitPathNotFound { path: p }) },
        None => match first_existing(cands, 0) {
            Some(p) => Ok(p),
            None => Err(ResolveErrorView::NotFound { layout, searched: joined_paths(cands) }),
        },
    }
}

/// [`spec_table_path`] of an `[input]` table and the probed candidates.
pub open spec fn table_path_of(input: InputConfig, explicit_exists: bool, candidates: Seq<(String, bool)>) -> Result<Seq<char>, ResolveErrorView> {
    spec_table_path(crate::engine::opt_view(input.kana_table), input.kana_layout@, explicit_exists, cands_view(candidates))
}

/// `r` is the outcome of reading the table file `path` with answer `v`.
pub open spec fn read_outcome(
    path: Seq<char>,
    v: Result<String, KanaTableError>,
    r: Result<KanaTable, KanaTableResolveError>,
) -> bool {
    match v {
        Err(e) => r matches Err(x) && x@ == (ResolveErrorView::Parse { path, source: table_error_view(e) }),
        Ok(src) => match crate::kana::parser::spec_parse_table(src@) {
            Ok(st) => r matches Ok(t) && t.spec_transitions() == st.trans && t.spec_kata_overrides() == st.kata
                && t.spec_aliases() == st.aliases,
            Err(line) => r matches Err(KanaTableResolveError::Parse { path: p, source: KanaTableError::Parse { line: l, .. } })
                && p@ == path && l == line,
        },
    }
}

/// `r` is the outcome of reading `path` with some answer `read` may give.
pub open spec fn table_read<R: Fn(&str) -> Result<String, KanaTableError>>(
    read: R,
    path: Seq<char>,
    r: Result<KanaTable, KanaTableResolveError>,
) -> bool {
    exists|v: Result<String, KanaTableError>| #[trigger] read_gave(read, path, v) && read_outcome(path, v, r)
}

/// `read` may answer `v` for `path`.
pub open spec fn read_gave<R: Fn(&str) -> Result<String, KanaTableError>>(
    read: R,
    path: Seq<char>,
    v: Result<String, KanaTableError>,
) -> bool {
    exists|a: &str| a@ == path && #[trigger] call_ensures(read, (a,), v)
}

fn join_candidates(cands: &[(String, bool)]) -> (r: String)
    ensures
        r@ == joined_paths(cands_view(cands@)),
{
    let ghost cv = cands_view(cands@);
    let mut r = String::new();
    let mut i: usize = 0;
    proof {
        reveal_strlit(", ");
    }
    while i < cands.len()
        invariant
            i <= cands.len(),
            cv == cands_view(cands@),
            r@ == joined_paths(cv.take(i as int)),
        decreases cands.len() - i,
    {
        assert(cv.take(i + 1).drop_last() =~= cv.take(i as int));
        if i > 0 {
            r.append(", ");
        }
        r.append(cands[i].0.as_str());
        proof {
            if i == 0 {
                assert(r@ =~= cv.take(1)[0].0);
            }
        }
        i += 1;
    }
    assert(cv.take(cands.len() as int) =~= cv);
    r
}

/// Resolves the kana table file from `[input]`, reads it with `read` and
/// parses it.
///
/// - If `input.kana_table` is set, that path is used (`explicit_exists`
///   tells whether it exists).
/// - Otherwise `candidates` lists `<kana_layout>.txt` in each search
///   directory, in search order, with whether it exists; the first
///   existing one is used.
/// - `read` is asked once, for the chosen path.
pub fn load_kana_table<R: Fn(&str) -> Result<String, KanaTableError>>(
    input: &InputConfig,
    explicit_exists: bool,
    candidates: &[(String, bool)],
    read: &R,
) -> (r: Result<KanaTable, KanaTableResolveError>)
    requires
        forall|a: &str| #[trigger] call_requires(*read, (a,)),
    ensures
        table_path_of(*input, explicit_exists, candidates@) matches Err(e) ==> r matches Err(x) && x@ == e,
        table_path_of(*input, explicit_exists, candidates@) is Ok ==> table_read(*read, table_path_of(*input, explicit_exists, candidates@)->Ok_0, r),
{
    let ghost cv = cands_view(candidates@);
    let path: String = match &input.kana_table {
        Some(explicit) => {
            if !explicit_exists {
                return Err(KanaTableResolveError::ExplicitPathNotFound { path: explicit.clone() });
            }
            explicit.clone()
        },
        None => {
            let mut found: Option<String> = None;
            let mut i: usize = 0;
            while i < candidates.len() && found.is_none()
                invariant
                    i <= candidates.len(),
                    cv == cands_view(candidates@),
                    found is None ==> first_existing(cv, 0) == first_existing(cv, i as int),
                    found matches Some(f) ==> first_existing(cv, 0) == Some(f@),
                decreases candidates.len() - i,
            {
                assert(cv[i as int] == (candidates@[i as int].0@, candidates@[i as int].1));
                if candidates[i].1 {
                    found = Some(candidates[i].0.clone());
                }
                i += 1;
            }
            match found {
                Some(p) => p,
                None => {
                    let searched = join_candidates(candidates);
                    return Err(KanaTableResolveError::NotFound { layout: input.kana_layout.clone(), searched });
                },
            }
        },
    };
    let ghost pv = path@;
    assert(table_path_of(*input, explicit_exists, candidates@) == Ok::<Seq<char>, ResolveErrorView>(pv));
    let v = read(path.as_str());
    proof {
        assert(read_gave(*read, pv, v));
    }
    let ghost v0 = v;
    let r = match v {
        Err(e) => Err(KanaTableResolveError::Parse { path, source: e }),
        Ok(src) => match parse_table(src.as_str()) {
            Ok(t) => Ok(t),
            Err(e) => Err(KanaTableResolveError::Parse { path, source: e }),
        },
    };
    assert(read_gave(*read, pv, v0) && read_outcome(pv, v0, r));
    assert(table_read(*read, pv, r));
    r
}


// ── Validation ───────────────────────────────────────────────────────────────

/// What validation needs to know of the file system: the outcome of
/// loading the kana table, whether each dictionary source exists (in the
/// order of `[[dict.sources]]`), and the user dictionary's parent
/// directory, when it has a non-empty one, with whether it exists.
#[derive(Debug)]
pub struct ValidationProbe {
    pub kana_table: Result<(), KanaTableResolveError>,
    pub dict_paths_exist: Vec<bool>,
    pub user_dict_parent: Option<(String, bool)>,
}

/// The first toggle key from `i` on that does not parse, with the reason.
pub open spec fn toggle_error_from(keys: Seq<Seq<char>>, i: int) -> Option<(Seq<char>, Seq<char>)>
    decreases keys.len() - i,
{
    if i < 0 || i >= keys.len() {
        None
    } else {
        match spec_toggle_key(keys[i]) {
            Err(reason) => Some((keys[i], reason)),
            Ok(_) => toggle_error_from(keys, i + 1),
        }
    }
}

/// The first trigger entry from `i` on that is not a single character.
pub open spec fn trigger_error_from(entries: Seq<Seq<char>>, i: int) -> Option<Seq<char>>
    decreases entries.len() - i,
{
    if i < 0 || i >= entries.len() {
        None
    } else if entries[i].len() != 1 {
        Some(entries[i])
    } else {
        trigger_error_from(entries, i + 1)
    }
}

/// The first index from `i` on whose path does not exist.
pub open spec fn missing_from(exist: Seq<bool>, i: int) -> Option<int>
    decreases exist.len() - i,
{
    if i < 0 || i >= exist.len() {
        None
    } else if !exist[i] {
        Some(i)
    } else {
        missing_from(exist, i + 1)
    }
}

/// The first problem of the configuration, in the order the checks run:
/// default mode, toggle keys, raw-mode toggle keys, trigger characters,
/// kana table, dictionary paths, user dictionary directory.
pub open spec fn spec_validate(c: Config, p: ValidationProbe) -> Option<ValidationErrorView> {
    if default_mode_of(c.input.default_mode@) is None {
        Some(ValidationErrorView::InvalidDefaultMode { value: c.input.default_mode@ })
    } else if toggle_error_from(strs(c.input.toggle_keys@), 0) is Some {
        let (v, reason) = toggle_error_from(strs(c.input.toggle_keys@), 0)->0;
        Some(ValidationErrorView::InvalidToggleKey { value: v, reason })
    } else if toggle_error_from(strs(c.input.raw_mode_toggle_keys@), 0) is Some {
        let (v, reason) = toggle_error_from(strs(c.input.raw_mode_toggle_keys@), 0)->0;
        Some(ValidationErrorView::InvalidToggleKey { value: v, reason })
    } else if trigger_error_from(strs(c.input.conversion_trigger_chars@), 0) is Some {
        Some(ValidationErrorView::InvalidConversionTriggerChar {
            value: trigger_error_from(strs(c.input.conversion_trigger_chars@), 0)->0,
        })
    } else if p.kana_table is Err {
        Some(ValidationErrorView::KanaTable(p.kana_table->Err_0@))
    } else if missing_from(p.dict_paths_exist@, 0) is Some {
        Some(ValidationErrorView::DictPathNotFound {
            path: c.dict.sources@[missing_from(p.dict_paths_exist@, 0)->0].path@,
        })
    } else if p.user_dict_parent is Some && !p.user_dict_parent.unwrap().1 {
        Some(ValidationErrorView::UserDictParentNotFound { path: p.user_dict_parent.unwrap().0@ })
    } else {
        None
    }
}

fn check_toggle_keys(keys: &Vec<String>) -> (r: Result<(), ConfigValidationError>)
    ensures
        match toggle_error_from(strs(keys@), 0) {
            None => r is Ok,
            Some((v, reason)) => r matches Err(e) && e@ == (ValidationErrorView::InvalidToggleKey { value: v, reason }),
        },
{
    let ghost kv = strs(keys@);
    let mut i: usize = 0;
    while i < keys.len()
        invariant
            i <= keys.len(),
            kv == strs(keys@),
            toggle_error_from(kv, 0) == toggle_error_from(kv, i as int),
        decreases keys.len() - i,
    {
        match parse_toggle_key(keys[i].as_str()) {
            Err(e) => return Err(e),
            Ok(_) => {},
        }
        i += 1;
    }
    Ok(())
}

fn clone_error(e: &KanaTableResolveError) -> (r: KanaTableResolveError)
    ensures
        r@ == e@,
{
    match e {
        KanaTableResolveError::NotFound { layout, searched } => KanaTableResolveError::NotFound {
            layout: layout.clone(),
            searched: searched.clone(),
        },
        KanaTableResolveError::ExplicitPathNotFound { path } => KanaTableResolveError::ExplicitPathNotFound { path: path.clone() },
        KanaTableResolveError::Parse { path, source } => KanaTableResolveError::Parse {
            path: path.clone(),
            source: match source {
                KanaTableError::Parse { line, message } => KanaTableError::Parse { line: *line, message: message.clone() },
                KanaTableError::Io(m) => KanaTableError::Io(m.clone()),
            },
        },
    }
}

/// Fully validates a loaded [`Config`], checking value correctness and
/// (through `probe`) path existence.  Returns the first error encountered,
/// or `Ok(())` if the config is usable to start the daemon.
#[verifier::loop_isolation(false)]
pub fn validate(config: &Config, probe: &ValidationProbe) -> (r: Result<(), ConfigValidationError>)
    requires
        probe.dict_paths_exist@.len() == config.dict.sources@.len(),
    ensures
        match spec_validate(*config, *probe) {
            None => r is Ok,
            Some(v) => r matches Err(e) && e@ == v,
        },
{
    // 1. default_mode
    match parse_default_mode(config.input.default_mode.as_str()) {
        Err(e) => return Err(e),
        Ok(_) => {},
    }
    // 2. toggle_keys, then raw_mode_toggle_keys
    match check_toggle_keys(&config.input.toggle_keys) {
        Err(e) => return Err(e),
        Ok(()) => {},
    }
    match check_toggle_keys(&config.input.raw_mode_toggle_keys) {
        Err(e) => return Err(e),
        Ok(()) => {},
    }
    // 3. conversion_trigger_chars: each a single character
    let entries = &config.input.conversion_trigger_chars;
    let ghost ev = strs(entries@);
    let mut i: usize = 0;
    while i < entries.len()
        invariant
            i <= entries.len(),
            ev == strs(entries@),
            trigger_error_from(ev, 0) == trigger_error_from(ev, i as int),
        decreases entries.len() - i,
    {
        let cs = chars_of(entries[i].as_str());
        if cs.len() != 1 {
            return Err(ConfigValidationError::InvalidConversionTriggerChar { value: entries[i].clone() });
        }
        i += 1;
    }
    // 4. kana table
    match &probe.kana_table {
        Err(e) => return Err(ConfigValidationError::KanaTable(clone_error(e))),
        Ok(()) => {},
    }
    // 5. dict sources
    let mut j: usize = 0;
    while j < probe.dict_paths_exist.len()
        invariant
            j <= probe.dict_paths_exist.len(),
            probe.dict_paths_exist@.len() == config.dict.sources@.len(),
            missing_from(probe.dict_paths_exist@, 0) == missing_from(probe.dict_paths_exist@, j as int),
        decreases probe.dict_paths_exist.len() - j,
    {
        if !probe.dict_paths_exist[j] {
            return Err(ConfigValidationError::DictPathNotFound { path: config.dict.sources[j].path.clone() });
        }
        j += 1;
    }
    // 6. user dict parent directory
    match &probe.user_dict_parent {
        Some((d, false)) => Err(ConfigValidationError::UserDictParentNotFound { path: d.clone() }),
        _ => Ok(()),
    }
}

// ── Engine settings ──────────────────────────────────────────────────────────

/// The first characters of the non-empty entries.
pub open spec fn first_chars(entries: Seq<Seq<char>>) -> Seq<char>
    decreases entries.len(),
{
    if entries.len() == 0 {
        Seq::empty()
    } else {
        first_chars(entries.drop_last()) + if entries.last().len() > 0 { seq![entries.last()[0]] } else { Seq::empty() }
    }
}

/// The toggle keys that parse, in order.
pub open spec fn parsed_toggles(keys: Seq<Seq<char>>) -> Seq<(Key, Modifiers)>
    decreases keys.len(),
{
    if keys.len() == 0 {
        Seq::empty()
    } else {
        parsed_toggles(keys.drop_last()) + match spec_toggle_key(keys.last()) {
            Ok((k, b)) => seq![(k, Modifiers { bits: b })],
            Err(_) => Seq::empty(),
        }
    }
}

fn parse_toggles(keys: &Vec<String>) -> (r: Vec<(Key, Modifiers)>)
    ensures
        r@ == parsed_toggles(strs(keys@)),
{
    let ghost kv = strs(keys@);
    let mut r: Vec<(Key, Modifiers)> = Vec::new();
    let mut i: usize = 0;
    while i < keys.len()
        invariant
            i <= keys.len(),
            kv == strs(keys@),
            r@ == parsed_toggles(kv.take(i as int)),
        decreases keys.len() - i,
    {
        assert(kv.take(i + 1).drop_last() =~= kv.take(i as int));
        match parse_toggle_key(keys[i].as_str()) {
            Ok(km) => {
                r.push(km);
            },
            Err(_) => {},
        }
        proof {
            let t = kv.take(i + 1);
            assert(t.last() == kv[i as int]);
            assert(r@ =~= parsed_toggles(t));
        }
        i += 1;
    }
    assert(kv.take(keys.len() as int) =~= kv);
    r
}

/// The engine's key bindings from the configuration: selection keys and
/// inline count from `[candidates]`, the first character of each trigger
/// entry, the toggle keys that parse; the rest are the defaults.
pub fn keybindings_from_config(config: &Config) -> (r: SkkKeybindings)
    ensures
        r.inline_count == config.candidates.inline_count,
        r.selection_keys@ == config.candidates.selection_keys@,
        r.conversion_trigger_chars@ == first_chars(strs(config.input.conversion_trigger_chars@)),
        r.toggle_keys@ == parsed_toggles(strs(config.input.toggle_keys@)),
        r.ascii_mode@ == seq!['l'],
        r.wide_ascii_mode@ == seq!['L'],
        r.katakana_mode@ == seq!['q'],
        r.abbrev_mode@ == seq!['/'],
        r.cancel@ == seq!['x'],
{
    let entries = &config.input.conversion_trigger_chars;
    let ghost ev = strs(entries@);
    let mut triggers: Vec<char> = Vec::new();
    let mut i: usize = 0;
    while i < entries.len()
        invariant
            i <= entries.len(),
            ev == strs(entries@),
            triggers@ == first_chars(ev.take(i as int)),
        decreases entries.len() - i,
    {
        assert(ev.take(i + 1).drop_last() =~= ev.take(i as int));
        let cs = chars_of(entries[i].as_str());
        if cs.len() > 0 {
            triggers.push(cs[0]);
        }
        proof {
            let t = ev.take(i + 1);
            assert(t.last() == ev[i as int]);
            assert(triggers@ =~= first_chars(t));
        }
        i += 1;
    }
    assert(ev.take(entries.len() as int) =~= ev);
    let d = SkkKeybindings::default();
    SkkKeybindings {
        inline_count: config.candidates.inline_count,
        selection_keys: chars_of(config.candidates.selection_keys.as_str()),
        conversion_trigger_chars: triggers,
        toggle_keys: parse_toggles(&config.input.toggle_keys),
        ..d
    }
}

// ── Paths ────────────────────────────────────────────────────────────────────

/// `rest` appended to the directory `dir`, with one separator between.
pub open spec fn join_path(dir: Seq<char>, rest: Seq<char>) -> Seq<char> {
    if rest.len() == 0 {
        dir
    } else if dir.len() > 0 && dir.last() == '/' {
        dir + rest
    } else {
        dir + seq!['/'] + rest
    }
}

/// `s` without leading `/`.
pub open spec fn trim_slashes(s: Seq<char>) -> Seq<char>
    decreases s.len(),
{
    if s.len() > 0 && s[0] == '/' { trim_slashes(s.drop_first()) } else { s }
}

/// A path whose first component is `~` with that component replaced by
/// the home directory; other paths, or no known home, unchanged.
pub open spec fn spec_expand_tilde(path: Seq<char>, home: Option<Seq<char>>) -> Seq<char> {
    match home {
        None => path,
        Some(h) => if path == seq!['~'] {
            h
        } else if path.len() >= 2 && path[0] == '~' && path[1] == '/' {
            join_path(h, trim_slashes(path.skip(2)))
        } else {
            path
        },
    }
}

/// Expands a leading `~` component to the home directory `home`.
pub fn expand_tilde(path: &str, home: Option<&str>) -> (r: String)
    ensures
        r@ == spec_expand_tilde(path@, match home { Some(h) => Some(h@), None => None }),
{
    let h = match home {
        Some(h) => h,
        None => return path.to_owned(),
    };
    let cs = chars_of(path);
    if cs.len() == 1 && cs[0] == '~' {
        assert(path@ =~= seq!['~']);
        return h.to_owned();
    }
    if cs.len() >= 2 && cs[0] == '~' && cs[1] == '/' {
        let mut k: usize = 2;
        while k < cs.len() && cs[k] == '/'
            invariant
                2 <= k <= cs.len(),
                trim_slashes(cs@.skip(2)) == trim_slashes(cs@.skip(k as int)),
            decreases cs.len() - k,
        {
            assert(cs@.skip(k as int).drop_first() =~= cs@.skip(k + 1));
            k += 1;
        }
        let rest = crate::kana::parser::subrange_vec(&cs, k, cs.len());
        assert(rest@ =~= cs@.skip(k as int));
        assert(trim_slashes(cs@.skip(k as int)) == cs@.skip(k as int));
        if rest.len() == 0 {
            return h.to_owned();
        }
        let rest_s = crate::text::string_from_chars(rest.as_slice());
        let hc = chars_of(h);
        let r = if hc.len() > 0 && hc[hc.len() - 1] == '/' {
            concat(h, rest_s.as_str())
        } else {
            let with_sep = concat(h, "/");
            proof {
                reveal_strlit("/");
            }
            concat(with_sep.as_str(), rest_s.as_str())
        };
        return r;
    }
    path.to_owned()
}

/// `n` is the source `o` with `~` expanded in its path.
pub open spec fn source_expanded(n: DictSource, o: DictSource, home: Option<Seq<char>>) -> bool {
    &&& n.path@ == spec_expand_tilde(o.path@, home)
    &&& n.encoding == o.encoding
    &&& n.priority == o.priority
}

impl Config {
    /// Expands `~` in all path fields, with `home` the home directory.
    #[verifier::loop_isolation(false)]
    pub fn normalize(self, home: Option<&str>) -> (r: Config)
        ensures
            ({
                let hv = match home { Some(h) => Some(h@), None => None };
                &&& crate::engine::opt_view(r.input.kana_table) == match self.input.kana_table {
                    Some(p) => Some(spec_expand_tilde(p@, hv)),
                    None => None,
                }
                &&& crate::engine::opt_view(r.user_dict.path) == match self.user_dict.path {
                    Some(p) => Some(spec_expand_tilde(p@, hv)),
                    None => None,
                }
                &&& r.dict.sources@.len() == self.dict.sources@.len()
                &&& forall|i: int| 0 <= i < r.dict.sources@.len() ==> source_expanded(#[trigger] r.dict.sources@[i], self.dict.sources@[i], hv)
                &&& r.dict.lisp_directives == self.dict.lisp_directives
            }),
    {
        let mut c = self;
        c.input.kana_table = match &c.input.kana_table {
            Some(p) => Some(expand_tilde(p.as_str(), home)),
            None => None,
        };
        c.user_dict.path = match &c.user_dict.path {
            Some(p) => Some(expand_tilde(p.as_str(), home)),
            None => None,
        };
        let ghost hv: Option<Seq<char>> = match home { Some(h) => Some(h@), None => None };
        let old_sources = c.dict.sources;
        let mut sources: Vec<DictSource> = Vec::new();
        let mut i: usize = 0;
        while i < old_sources.len()
            invariant
                i <= old_sources.len(),
                old_sources@ == self.dict.sources@,
                sources@.len() == i,
                forall|j: int| 0 <= j < i ==> source_expanded(#[trigger] sources@[j], old_sources@[j], hv),
            decreases old_sources.len() - i,
        {
            let s = &old_sources[i];
            let ghost before = sources@;
            sources.push(DictSource { path: expand_tilde(s.path.as_str(), home), encoding: s.encoding, priority: s.priority });
            assert forall|j: int| 0 <= j < i implies sources@[j] == before[j] by {}
            assert(source_expanded(sources@[i as int], old_sources@[i as int], hv));
            i += 1;
        }
        c.dict.sources = sources;
        c
    }
}

} // verus!
