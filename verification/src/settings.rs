//! Writing a changed configuration back into its TOML file: only the keys
//! whose values changed are edited, so the file's comments, key order and
//! untouched values (such as `~` paths) stay as they were.

use toml_edit::{value, Array, ArrayOfTables, DocumentMut, Item, Table};
use vstd::prelude::*;

use crate::daemon::config::{is_default_config, Config, DictSource, InputConfig};
use crate::dict::entry::{clone_strings, opt_str, strs_view};
use crate::dict::file::{opt_str_eq, DictEncoding};
use crate::text::str_eq;

verus! {

// ── The document ─────────────────────────────────────────────────────────────

#[verifier::external_type_specification]
#[verifier::external_body]
pub struct ExDocumentMut(DocumentMut);

/// A value in a table, as far as this library reads it.
pub enum TomlValue {
    Str(Seq<char>),
    Bool(bool),
    Int(int),
    StrArray(Seq<Seq<char>>),
    /// An array of tables whose values are strings and integers: each table
    /// as its keys and values in order.
    Rows(Seq<Seq<(Seq<char>, TomlScalar)>>),
    /// Anything else.
    Other,
}

/// A string or integer value in a table of an array of tables.
pub enum TomlScalar {
    Str(Seq<char>),
    Int(int),
}

/// The tables of a document: each top-level table by name, as a map from
/// key to value.  Top-level entries that are not tables are not part of it.
pub uninterp spec fn toml_tables(doc: DocumentMut) -> Map<Seq<char>, Map<Seq<char>, TomlValue>>;

/// Whether `text` is a TOML document.
pub uninterp spec fn toml_parses(text: Seq<char>) -> bool;

/// The tables of the document that `text` parses to.
pub uninterp spec fn toml_parsed_tables(text: Seq<char>) -> Map<Seq<char>, Map<Seq<char>, TomlValue>>;

/// The text a document renders to, with the comments and layout it holds.
pub uninterp spec fn toml_text(doc: DocumentMut) -> Seq<char>;

/// A document without tables.
pub open spec fn no_tables() -> Map<Seq<char>, Map<Seq<char>, TomlValue>> {
    Map::empty()
}

/// A value to store at a key.
pub enum TomlEntry {
    /// An empty table (stored at the top level only).
    Table,
    /// An empty array of tables.
    Tables,
    Str(String),
    Bool(bool),
    Int(i64),
    StrArray(Vec<String>),
}

/// The value a stored entry reads back as.
pub open spec fn entry_value(e: TomlEntry) -> TomlValue {
    match e {
        TomlEntry::Table => TomlValue::Other,
        TomlEntry::Tables => TomlValue::Rows(Seq::empty()),
        TomlEntry::Str(s) => TomlValue::Str(s@),
        TomlEntry::Bool(b) => TomlValue::Bool(b),
        TomlEntry::Int(i) => TomlValue::Int(i as int),
        TomlEntry::StrArray(v) => TomlValue::StrArray(strs_view(v@)),
    }
}

/// `DocumentMut::new`: a document without tables.
#[verifier::external_body]
fn doc_new() -> (doc: DocumentMut)
    ensures
        toml_tables(doc) == no_tables(),
{
    DocumentMut::new()
}

/// `str::parse::<DocumentMut>`: the document of `text` (holding the tables
/// that `text` parses to), or the message of the parse error.
#[verifier::external_body]
fn doc_parse(text: &str) -> (r: Result<DocumentMut, String>)
    ensures
        r is Ok <==> toml_parses(text@),
        r is Ok ==> toml_tables(r->Ok_0) == toml_parsed_tables(text@),
{
    match text.parse::<DocumentMut>() {
        Ok(d) => Ok(d),
        Err(e) => Err(e.to_string()),
    }
}

/// `Table::get` on the top level: whether `name` holds a table.
#[verifier::external_body]
fn doc_has_table(doc: &DocumentMut, name: &str) -> (r: bool)
    ensures
        r == toml_tables(*doc).contains_key(name@),
{
    match doc.get(name) {
        Some(Item::Table(_)) => true,
        _ => false,
    }
}

/// `Table::insert`: at the top level (`section` is `None`) `key` gets an
/// empty table; in the table `section` it gets the value of `v`.
#[verifier::external_body]
fn doc_insert(doc: &mut DocumentMut, section: Option<&str>, key: &str, v: &TomlEntry)
    requires
        match section {
            None => *v is Table,
            Some(s) => toml_tables(*old(doc)).contains_key(s@) && !(*v is Table),
        },
    ensures
        toml_tables(*final(doc)) == (match section {
            None => toml_tables(*old(doc)).insert(key@, Map::empty()),
            Some(s) => toml_tables(*old(doc)).insert(s@, toml_tables(*old(doc))[s@].insert(key@, entry_value(*v))),
        }),
{
    let item = match v {
        TomlEntry::Table => Item::Table(Table::new()),
        TomlEntry::Tables => Item::ArrayOfTables(ArrayOfTables::new()),
        TomlEntry::Str(s) => value(s.as_str()),
        TomlEntry::Bool(b) => value(*b),
        TomlEntry::Int(i) => value(*i),
        TomlEntry::StrArray(xs) => value(xs.iter().map(|x| x.as_str()).collect::<Array>()),
    };
    match section {
        None => { doc.insert(key, item); },
        Some(s) => if let Some(Item::Table(t)) = doc.get_mut(s) { t.insert(key, item); },
    }
}

/// `ArrayOfTables::push`: appends to the array of tables at `key` in the
/// table `section` a table holding the strings `s1` at `k1` and `s2` at
/// `k2` and the integer `n3` at `k3`, in that order.
#[verifier::external_body]
fn doc_push_row(doc: &mut DocumentMut, section: &str, key: &str, k1: &str, s1: &str, k2: &str, s2: &str, k3: &str, n3: i64)
    requires
        toml_tables(*old(doc)).contains_key(section@),
        toml_tables(*old(doc))[section@].contains_key(key@),
        toml_tables(*old(doc))[section@][key@] is Rows,
        k1@ != k2@ && k1@ != k3@ && k2@ != k3@,
    ensures
        toml_tables(*final(doc)) == toml_tables(*old(doc)).insert(
            section@,
            toml_tables(*old(doc))[section@].insert(
                key@,
                TomlValue::Rows(toml_tables(*old(doc))[section@][key@]->Rows_0.push(
                    seq![(k1@, TomlScalar::Str(s1@)), (k2@, TomlScalar::Str(s2@)), (k3@, TomlScalar::Int(n3 as int))],
                )),
            ),
        ),
{
    let mut t = Table::new();
    t.insert(k1, value(s1));
    t.insert(k2, value(s2));
    t.insert(k3, value(n3));
    if let Some(Item::Table(s)) = doc.get_mut(section) {
        if let Some(Item::ArrayOfTables(a)) = s.get_mut(key) {
            a.push(t);
        }
    }
}

/// `Table::remove`: drops `key` from the table `section`, if there is one.
#[verifier::external_body]
fn doc_remove(doc: &mut DocumentMut, section: &str, key: &str)
    ensures
        toml_tables(*final(doc)) == (if toml_tables(*old(doc)).contains_key(section@) {
            toml_tables(*old(doc)).insert(section@, toml_tables(*old(doc))[section@].remove(key@))
        } else {
            toml_tables(*old(doc))
        }),
{
    if let Some(Item::Table(t)) = doc.get_mut(section) {
        t.remove(key);
    }
}

/// `DocumentMut::to_string` (`Display`): the text the document renders to.
#[verifier::external_body]
fn doc_text(doc: &DocumentMut) -> (r: String)
    ensures
        r@ == toml_text(*doc),
{
    doc.to_string()
}

// ── Edits ────────────────────────────────────────────────────────────────────

/// One change to the tables of a document.
pub enum TomlEdit {
    /// `key` of the table `section` (created if missing) gets the value.
    Assign(Seq<char>, Seq<char>, TomlValue),
    /// `key` leaves the table `section`, if there is one.
    Delete(Seq<char>, Seq<char>),
}

pub open spec fn apply_edit(t: Map<Seq<char>, Map<Seq<char>, TomlValue>>, e: TomlEdit) -> Map<Seq<char>, Map<Seq<char>, TomlValue>> {
    match e {
        TomlEdit::Assign(s, k, v) => {
            let sec = if t.contains_key(s) { t[s] } else { Map::empty() };
            t.insert(s, sec.insert(k, v))
        },
        TomlEdit::Delete(s, k) => if t.contains_key(s) {
            t.insert(s, t[s].remove(k))
        } else {
            t
        },
    }
}

/// The edits applied in order.
pub open spec fn apply_edits(t: Map<Seq<char>, Map<Seq<char>, TomlValue>>, es: Seq<TomlEdit>) -> Map<Seq<char>, Map<Seq<char>, TomlValue>>
    decreases es.len(),
{
    if es.len() == 0 {
        t
    } else {
        apply_edit(apply_edits(t, es.drop_last()), es.last())
    }
}

/// The name under which an encoding is written.
pub open spec fn spec_encoding_name(e: DictEncoding) -> Seq<char> {
    match e {
        DictEncoding::Utf8 => "utf-8"@,
        DictEncoding::EucJp => "euc-jp"@,
    }
}

pub fn encoding_name(e: DictEncoding) -> (r: &'static str)
    ensures
        r@ == spec_encoding_name(e),
{
    match e {
        DictEncoding::Utf8 => "utf-8",
        DictEncoding::EucJp => "euc-jp",
    }
}

/// A dictionary source as it is compared.
pub open spec fn source_key(s: DictSource) -> (Seq<char>, DictEncoding, i32) {
    (s.path@, s.encoding, s.priority)
}

pub open spec fn sources_keys(v: Seq<DictSource>) -> Seq<(Seq<char>, DictEncoding, i32)> {
    v.map_values(|s: DictSource| source_key(s))
}

/// The table of `[[dict.sources]]` written for a source: its `path`, the
/// name of its `encoding` and its `priority`.
pub open spec fn source_row(s: DictSource) -> Seq<(Seq<char>, TomlScalar)> {
    seq![
        ("path"@, TomlScalar::Str(s.path@)),
        ("encoding"@, TomlScalar::Str(spec_encoding_name(s.encoding))),
        ("priority"@, TomlScalar::Int(s.priority as int)),
    ]
}

/// The rows of `[[dict.sources]]` written for the sources.
pub open spec fn source_rows(v: Seq<DictSource>) -> Seq<Seq<(Seq<char>, TomlScalar)>> {
    v.map_values(|s: DictSource| source_row(s))
}

/// Setting `key` of `section` when the value changed.
pub open spec fn set_if(changed: bool, section: Seq<char>, key: Seq<char>, v: TomlValue) -> Seq<TomlEdit> {
    if changed {
        seq![TomlEdit::Assign(section, key, v)]
    } else {
        Seq::empty()
    }
}

/// An optional path: set when given, removed when cleared, untouched when
/// unchanged.
pub open spec fn opt_path_edit(section: Seq<char>, key: Seq<char>, new: Option<Seq<char>>, old: Option<Seq<char>>) -> Seq<TomlEdit> {
    if new == old {
        Seq::empty()
    } else {
        match new {
            Some(p) => seq![TomlEdit::Assign(section, key, TomlValue::Str(p))],
            None => seq![TomlEdit::Delete(section, key)],
        }
    }
}

/// The edits of the `[input]` table.
pub open spec fn input_edits(oi: InputConfig, i: InputConfig) -> Seq<TomlEdit> {
    set_if(i.kana_layout@ != oi.kana_layout@, "input"@, "kana_layout"@, TomlValue::Str(i.kana_layout@))
        + opt_path_edit("input"@, "kana_table"@, opt_str(i.kana_table), opt_str(oi.kana_table))
        + set_if(i.default_mode@ != oi.default_mode@, "input"@, "default_mode"@, TomlValue::Str(i.default_mode@))
        + set_if(strs_view(i.toggle_keys@) != strs_view(oi.toggle_keys@), "input"@, "toggle_keys"@,
            TomlValue::StrArray(strs_view(i.toggle_keys@)))
        + set_if(strs_view(i.raw_mode_toggle_keys@) != strs_view(oi.raw_mode_toggle_keys@), "input"@,
            "raw_mode_toggle_keys"@, TomlValue::StrArray(strs_view(i.raw_mode_toggle_keys@)))
        + set_if(strs_view(i.conversion_trigger_chars@) != strs_view(oi.conversion_trigger_chars@), "input"@,
            "conversion_trigger_chars"@, TomlValue::StrArray(strs_view(i.conversion_trigger_chars@)))
        + set_if(i.vi_escape != oi.vi_escape, "input"@, "vi_escape"@, TomlValue::Bool(i.vi_escape))
}

/// The edits of the `[user-dict]` and `[dict]` tables.
pub open spec fn dict_edits(old: Config, new: Config) -> Seq<TomlEdit> {
    opt_path_edit("user-dict"@, "path"@, opt_str(new.user_dict.path), opt_str(old.user_dict.path))
        + set_if(new.dict.lisp_directives != old.dict.lisp_directives, "dict"@, "lisp_directives"@,
            TomlValue::Bool(new.dict.lisp_directives))
        + set_if(sources_keys(new.dict.sources@) != sources_keys(old.dict.sources@), "dict"@, "sources"@,
            TomlValue::Rows(source_rows(new.dict.sources@)))
}

/// The edits of the `[indicator]`, `[candidates]` and `[daemon]` tables.
pub open spec fn display_edits(old: Config, new: Config) -> Seq<TomlEdit> {
    set_if(new.indicator.enabled != old.indicator.enabled, "indicator"@, "enabled"@,
        TomlValue::Bool(new.indicator.enabled))
        + set_if(new.indicator.timeout_ms != old.indicator.timeout_ms, "indicator"@, "timeout_ms"@,
            TomlValue::Int(new.indicator.timeout_ms as int))
        + set_if(new.candidates.inline_count != old.candidates.inline_count, "candidates"@, "inline_count"@,
            TomlValue::Int(new.candidates.inline_count as i64 as int))
        + set_if(new.candidates.selection_keys@ != old.candidates.selection_keys@, "candidates"@,
            "selection_keys"@, TomlValue::Str(new.candidates.selection_keys@))
        + set_if(new.daemon.log_level@ != old.daemon.log_level@, "daemon"@, "log_level"@,
            TomlValue::Str(new.daemon.log_level@))
}

/// The edits that turn a file holding `old` into one holding `new`: one per
/// changed field, in the order of the file's sections.
pub open spec fn config_edits(old: Config, new: Config) -> Seq<TomlEdit> {
    input_edits(old.input, new.input) + dict_edits(old, new) + display_edits(old, new)
}

proof fn lemma_apply_edits_concat(t: Map<Seq<char>, Map<Seq<char>, TomlValue>>, a: Seq<TomlEdit>, b: Seq<TomlEdit>)
    ensures
        apply_edits(t, a + b) == apply_edits(apply_edits(t, a), b),
    decreases b.len(),
{
    if b.len() == 0 {
        assert(a + b =~= a);
    } else {
        lemma_apply_edits_concat(t, a, b.drop_last());
        assert((a + b).drop_last() =~= a + b.drop_last());
        assert((a + b).last() == b.last());
    }
}

// ── Applying them ────────────────────────────────────────────────────────────

/// Makes sure the table `section` exists.
fn ensure_section(doc: &mut DocumentMut, section: &str)
    ensures
        toml_tables(*final(doc)) == (if toml_tables(*old(doc)).contains_key(section@) {
            toml_tables(*old(doc))
        } else {
            toml_tables(*old(doc)).insert(section@, Map::empty())
        }),
{
    if !doc_has_table(doc, section) {
        doc_insert(doc, None, section, &TomlEntry::Table);
    }
}

/// Stores `v` at `key` of the table `section`, creating the table if needed.
fn set_entry(doc: &mut DocumentMut, section: &str, key: &str, v: TomlEntry)
    requires
        !(v is Table),
    ensures
        toml_tables(*final(doc)) == apply_edit(toml_tables(*old(doc)), TomlEdit::Assign(section@, key@, entry_value(v))),
{
    ensure_section(doc, section);
    doc_insert(doc, Some(section), key, &v);
}

/// Writes the array of `[[section.key]]` tables of the sources.
fn set_sources(doc: &mut DocumentMut, section: &str, key: &str, sources: &Vec<DictSource>)
    ensures
        toml_tables(*final(doc)) == apply_edit(
            toml_tables(*old(doc)),
            TomlEdit::Assign(section@, key@, TomlValue::Rows(source_rows(sources@))),
        ),
{
    let ghost t0 = toml_tables(*doc);
    set_entry(doc, section, key, TomlEntry::Tables);
    let mut i: usize = 0;
    assert(source_rows(sources@).take(0) =~= Seq::<Seq<(Seq<char>, TomlScalar)>>::empty());
    while i < sources.len()
        invariant
            i <= sources.len(),
            toml_tables(*doc) == apply_edit(t0, TomlEdit::Assign(section@, key@, TomlValue::Rows(source_rows(sources@).take(i as int)))),
        decreases sources.len() - i,
    {
        let s = &sources[i];
        let ghost before = toml_tables(*doc);
        let ghost sec0 = if t0.contains_key(section@) { t0[section@] } else { Map::empty() };
        proof {
            reveal_strlit("path");
            reveal_strlit("encoding");
            reveal_strlit("priority");
            assert("path"@.len() == 4 && "encoding"@.len() == 8 && "priority"@.len() == 8);
            assert("encoding"@[0] != "priority"@[0]);
        }
        doc_push_row(doc, section, key, "path", s.path.as_str(), "encoding", encoding_name(s.encoding), "priority", s.priority as i64);
        proof {
            let rows = source_rows(sources@);
            assert(rows.take(i + 1) =~= rows.take(i as int).push(source_row(*s)));
            let grown = TomlValue::Rows(rows.take(i + 1));
            assert(before[section@] == sec0.insert(key@, TomlValue::Rows(rows.take(i as int))));
            assert(before[section@].insert(key@, grown) =~= sec0.insert(key@, grown));
            assert(t0.insert(section@, sec0.insert(key@, TomlValue::Rows(rows.take(i as int)))).insert(
                section@,
                sec0.insert(key@, grown),
            ) =~= t0.insert(section@, sec0.insert(key@, grown)));
        }
        i += 1;
    }
    assert(source_rows(sources@).take(sources.len() as int) =~= source_rows(sources@));
}

/// Sets, removes or leaves an optional path.
fn set_opt_path(doc: &mut DocumentMut, section: &str, key: &str, new: &Option<String>, prev: &Option<String>)
    ensures
        toml_tables(*final(doc)) == apply_edits(toml_tables(*old(doc)), opt_path_edit(section@, key@, opt_str(*new), opt_str(*prev))),
{
    let ghost t0 = toml_tables(*doc);
    let ghost es = opt_path_edit(section@, key@, opt_str(*new), opt_str(*prev));
    if opt_str_eq(new, prev) {
        return;
    }
    match new {
        Some(p) => set_entry(doc, section, key, TomlEntry::Str(p.clone())),
        None => doc_remove(doc, section, key),
    }
    proof {
        assert(es.len() == 1);
        assert(es.drop_last() =~= Seq::<TomlEdit>::empty());
        assert(apply_edits(t0, es.drop_last()) == t0);
    }
}

/// Character-wise equality of two lists of strings.
fn strs_eq(a: &Vec<String>, b: &Vec<String>) -> (r: bool)
    ensures
        r == (strs_view(a@) == strs_view(b@)),
{
    if a.len() != b.len() {
        assert(strs_view(a@).len() != strs_view(b@).len());
        return false;
    }
    let mut i: usize = 0;
    while i < a.len()
        invariant
            i <= a.len(),
            a.len() == b.len(),
            forall|j: int| 0 <= j < i ==> a@[j]@ == b@[j]@,
        decreases a.len() - i,
    {
        if !str_eq(a[i].as_str(), b[i].as_str()) {
            assert(strs_view(a@)[i as int] != strs_view(b@)[i as int]);
            return false;
        }
        i += 1;
    }
    assert(strs_view(a@) =~= strs_view(b@));
    true
}

/// Field-wise equality of two lists of dictionary sources.
fn sources_eq(a: &Vec<DictSource>, b: &Vec<DictSource>) -> (r: bool)
    ensures
        r == (sources_keys(a@) == sources_keys(b@)),
{
    if a.len() != b.len() {
        assert(sources_keys(a@).len() != sources_keys(b@).len());
        return false;
    }
    let mut i: usize = 0;
    while i < a.len()
        invariant
            i <= a.len(),
            a.len() == b.len(),
            forall|j: int| 0 <= j < i ==> source_key(a@[j]) == source_key(b@[j]),
        decreases a.len() - i,
    {
        let x = &a[i];
        let y = &b[i];
        let same = str_eq(x.path.as_str(), y.path.as_str()) && x.priority == y.priority && match (x.encoding, y.encoding) {
            (DictEncoding::Utf8, DictEncoding::Utf8) | (DictEncoding::EucJp, DictEncoding::EucJp) => true,
            _ => false,
        };
        if !same {
            assert(sources_keys(a@)[i as int] != sources_keys(b@)[i as int]);
            return false;
        }
        i += 1;
    }
    assert(sources_keys(a@) =~= sources_keys(b@));
    true
}

proof fn lemma_apply_one(t: Map<Seq<char>, Map<Seq<char>, TomlValue>>, e: TomlEdit)
    ensures
        apply_edits(t, seq![e]) == apply_edit(t, e),
        apply_edits(t, Seq::<TomlEdit>::empty()) == t,
{
    assert(seq![e].drop_last() =~= Seq::<TomlEdit>::empty());
    assert(apply_edits(t, Seq::<TomlEdit>::empty()) == t);
    assert(seq![e].last() == e);
}

/// Stores `v` at `key` of `section` when `changed`.
fn step_set(doc: &mut DocumentMut, changed: bool, section: &str, key: &str, v: TomlEntry)
    requires
        !(v is Table),
    ensures
        toml_tables(*final(doc)) == apply_edits(toml_tables(*old(doc)), set_if(changed, section@, key@, entry_value(v))),
{
    proof {
        lemma_apply_one(toml_tables(*doc), TomlEdit::Assign(section@, key@, entry_value(v)));
    }
    if changed {
        set_entry(doc, section, key, v);
    }
}

/// Writes the changed `[input]` fields.
#[verifier::rlimit(30)]
fn apply_input_changes(doc: &mut DocumentMut, ci: &InputConfig, ni: &InputConfig)
    ensures
        toml_tables(*final(doc)) == apply_edits(toml_tables(*old(doc)), input_edits(*ci, *ni)),
{
    let ghost t0 = toml_tables(*doc);
    let c = !str_eq(ni.kana_layout.as_str(), ci.kana_layout.as_str());
    step_set(doc, c, "input", "kana_layout", TomlEntry::Str(ni.kana_layout.clone()));
    let ghost done = set_if(c, "input"@, "kana_layout"@, TomlValue::Str(ni.kana_layout@));
    set_opt_path(doc, "input", "kana_table", &ni.kana_table, &ci.kana_table);
    proof {
        let e = opt_path_edit("input"@, "kana_table"@, opt_str(ni.kana_table), opt_str(ci.kana_table));
        lemma_apply_edits_concat(t0, done, e);
        done = done + e;
    }
    let c = !str_eq(ni.default_mode.as_str(), ci.default_mode.as_str());
    step_set(doc, c, "input", "default_mode", TomlEntry::Str(ni.default_mode.clone()));
    proof {
        let e = set_if(c, "input"@, "default_mode"@, TomlValue::Str(ni.default_mode@));
        lemma_apply_edits_concat(t0, done, e);
        done = done + e;
    }
    let c = !strs_eq(&ni.toggle_keys, &ci.toggle_keys);
    step_set(doc, c, "input", "toggle_keys", TomlEntry::StrArray(clone_strings(&ni.toggle_keys)));
    proof {
        let e = set_if(c, "input"@, "toggle_keys"@, TomlValue::StrArray(strs_view(ni.toggle_keys@)));
        lemma_apply_edits_concat(t0, done, e);
        done = done + e;
    }
    let c = !strs_eq(&ni.raw_mode_toggle_keys, &ci.raw_mode_toggle_keys);
    step_set(doc, c, "input", "raw_mode_toggle_keys", TomlEntry::StrArray(clone_strings(&ni.raw_mode_toggle_keys)));
    proof {
        let e = set_if(c, "input"@, "raw_mode_toggle_keys"@, TomlValue::StrArray(strs_view(ni.raw_mode_toggle_keys@)));
        lemma_apply_edits_concat(t0, done, e);
        done = done + e;
    }
    let c = !strs_eq(&ni.conversion_trigger_chars, &ci.conversion_trigger_chars);
    step_set(
        doc,
        c,
        "input",
        "conversion_trigger_chars",
        TomlEntry::StrArray(clone_strings(&ni.conversion_trigger_chars)),
    );
    proof {
        let e = set_if(c, "input"@, "conversion_trigger_chars"@, TomlValue::StrArray(strs_view(ni.conversion_trigger_chars@)));
        lemma_apply_edits_concat(t0, done, e);
        done = done + e;
    }
    let c = ni.vi_escape != ci.vi_escape;
    step_set(doc, c, "input", "vi_escape", TomlEntry::Bool(ni.vi_escape));
    proof {
        let e = set_if(c, "input"@, "vi_escape"@, TomlValue::Bool(ni.vi_escape));
        lemma_apply_edits_concat(t0, done, e);
        done = done + e;
        assert(done =~= input_edits(*ci, *ni));
    }
}

/// Writes the changed `[user-dict]` and `[dict]` fields.
fn apply_dict_changes(doc: &mut DocumentMut, current: &Config, new: &Config)
    ensures
        toml_tables(*final(doc)) == apply_edits(toml_tables(*old(doc)), dict_edits(*current, *new)),
{
    let ghost t0 = toml_tables(*doc);
    set_opt_path(doc, "user-dict", "path", &new.user_dict.path, &current.user_dict.path);
    let ghost done = opt_path_edit("user-dict"@, "path"@, opt_str(new.user_dict.path), opt_str(current.user_dict.path));
    let c = new.dict.lisp_directives != current.dict.lisp_directives;
    step_set(doc, c, "dict", "lisp_directives", TomlEntry::Bool(new.dict.lisp_directives));
    proof {
        let e = set_if(c, "dict"@, "lisp_directives"@, TomlValue::Bool(new.dict.lisp_directives));
        lemma_apply_edits_concat(t0, done, e);
        done = done + e;
    }
    let c = !sources_eq(&new.dict.sources, &current.dict.sources);
    let ghost before = toml_tables(*doc);
    if c {
        set_sources(doc, "dict", "sources", &new.dict.sources);
    }
    proof {
        let e = set_if(c, "dict"@, "sources"@, TomlValue::Rows(source_rows(new.dict.sources@)));
        lemma_apply_one(before, TomlEdit::Assign("dict"@, "sources"@, TomlValue::Rows(source_rows(new.dict.sources@))));
        lemma_apply_edits_concat(t0, done, e);
        done = done + e;
        assert(done =~= dict_edits(*current, *new));
    }
}

/// Writes the changed `[indicator]`, `[candidates]` and `[daemon]` fields.
#[verifier::rlimit(30)]
fn apply_display_changes(doc: &mut DocumentMut, current: &Config, new: &Config)
    ensures
        toml_tables(*final(doc)) == apply_edits(toml_tables(*old(doc)), display_edits(*current, *new)),
{
    let ghost t0 = toml_tables(*doc);
    let c = new.indicator.enabled != current.indicator.enabled;
    step_set(doc, c, "indicator", "enabled", TomlEntry::Bool(new.indicator.enabled));
    let ghost done = set_if(c, "indicator"@, "enabled"@, TomlValue::Bool(new.indicator.enabled));
    let c = new.indicator.timeout_ms != current.indicator.timeout_ms;
    step_set(doc, c, "indicator", "timeout_ms", TomlEntry::Int(new.indicator.timeout_ms as i64));
    proof {
        let e = set_if(c, "indicator"@, "timeout_ms"@, TomlValue::Int(new.indicator.timeout_ms as int));
        lemma_apply_edits_concat(t0, done, e);
        done = done + e;
    }
    let c = new.candidates.inline_count != current.candidates.inline_count;
    step_set(doc, c, "candidates", "inline_count", TomlEntry::Int(new.candidates.inline_count as i64));
    proof {
        let e = set_if(c, "candidates"@, "inline_count"@, TomlValue::Int(new.candidates.inline_count as i64 as int));
        lemma_apply_edits_concat(t0, done, e);
        done = done + e;
    }
    let c = !str_eq(new.candidates.selection_keys.as_str(), current.candidates.selection_keys.as_str());
    step_set(doc, c, "candidates", "selection_keys", TomlEntry::Str(new.candidates.selection_keys.clone()));
    proof {
        let e = set_if(c, "candidates"@, "selection_keys"@, TomlValue::Str(new.candidates.selection_keys@));
        lemma_apply_edits_concat(t0, done, e);
        done = done + e;
    }
    let c = !str_eq(new.daemon.log_level.as_str(), current.daemon.log_level.as_str());
    step_set(doc, c, "daemon", "log_level", TomlEntry::Str(new.daemon.log_level.clone()));
    proof {
        let e = set_if(c, "daemon"@, "log_level"@, TomlValue::Str(new.daemon.log_level@));
        lemma_apply_edits_concat(t0, done, e);
        done = done + e;
        assert(done =~= display_edits(*current, *new));
    }
}

/// Writes the fields of `new` that differ from `current` (what the document
/// holds now) into the document, and nothing else.
pub fn apply_config_changes(doc: &mut DocumentMut, current: &Config, new: &Config)
    ensures
        toml_tables(*final(doc)) == apply_edits(toml_tables(*old(doc)), config_edits(*current, *new)),
{
    let ghost t0 = toml_tables(*doc);
    apply_input_changes(doc, &current.input, &new.input);
    let ghost t1 = toml_tables(*doc);
    apply_dict_changes(doc, current, new);
    proof {
        lemma_apply_edits_concat(t0, input_edits(current.input, new.input), dict_edits(*current, *new));
    }
    apply_display_changes(doc, current, new);
    proof {
        lemma_apply_edits_concat(
            t0,
            input_edits(current.input, new.input) + dict_edits(*current, *new),
            display_edits(*current, *new),
        );
    }
}

// ── Reading what edits do ────────────────────────────────────────────────────

/// The value at `key` of the table `section`.
pub open spec fn toml_lookup(t: Map<Seq<char>, Map<Seq<char>, TomlValue>>, section: Seq<char>, key: Seq<char>) -> Option<TomlValue> {
    if t.contains_key(section) && t[section].contains_key(key) {
        Some(t[section][key])
    } else {
        None
    }
}

/// The last of the edits that concerns `key` of `section`.
pub open spec fn last_touch(es: Seq<TomlEdit>, section: Seq<char>, key: Seq<char>) -> Option<TomlEdit>
    decreases es.len(),
{
    if es.len() == 0 {
        None
    } else {
        match es.last() {
            TomlEdit::Assign(s, k, _) if s == section && k == key => Some(es.last()),
            TomlEdit::Delete(s, k) if s == section && k == key => Some(es.last()),
            _ => last_touch(es.drop_last(), section, key),
        }
    }
}

/// After a run of edits, a key holds what the last edit concerning it put
/// there, and a key that no edit concerns holds what it held before.
pub proof fn lemma_edits_lookup(
    t: Map<Seq<char>, Map<Seq<char>, TomlValue>>,
    es: Seq<TomlEdit>,
    section: Seq<char>,
    key: Seq<char>,
)
    ensures
        toml_lookup(apply_edits(t, es), section, key) == match last_touch(es, section, key) {
            None => toml_lookup(t, section, key),
            Some(TomlEdit::Assign(_, _, v)) => Some(v),
            Some(TomlEdit::Delete(_, _)) => None,
        },
    decreases es.len(),
{
    if es.len() > 0 {
        lemma_edits_lookup(t, es.drop_last(), section, key);
    }
}

// ── The file's text ──────────────────────────────────────────────────────────

/// Why an existing configuration file is not rewritten.
#[derive(Debug)]
pub enum ConfigWriteError {
    /// The text is not TOML (the parser's message).
    NotToml(String),
    /// The text is TOML but not a configuration (the reader's message).
    Invalid(String),
}

/// Whether `r` refuses the file as not a configuration, with `msg`.
pub open spec fn refused_as_invalid<T>(r: Result<T, ConfigWriteError>, msg: Seq<char>) -> bool {
    match r {
        Err(ConfigWriteError::Invalid(m)) => m@ == msg,
        _ => false,
    }
}

/// The document to edit and the configuration it holds: a new document and
/// the defaults when there is no file, else the parsed file and `parsed`
/// (the file's text read as a configuration).  A file that is not TOML, or
/// not a configuration, is refused in that order, so that it is never
/// overwritten.
pub fn read_config_document(existing: Option<(&str, Result<Config, String>)>) -> (r: Result<(DocumentMut, Config), ConfigWriteError>)
    ensures
        match existing {
            None => r is Ok && toml_tables(r->Ok_0.0) == no_tables() && is_default_config(r->Ok_0.1),
            Some((text, parsed)) => {
                &&& !toml_parses(text@) <==> (r is Err && r->Err_0 is NotToml)
                &&& toml_parses(text@) && parsed is Err ==> refused_as_invalid(r, parsed->Err_0@)
                &&& toml_parses(text@) && parsed is Ok ==> (r is Ok && r->Ok_0.1 == parsed->Ok_0
                    && toml_tables(r->Ok_0.0) == toml_parsed_tables(text@))
            },
        },
{
    match existing {
        None => Ok((doc_new(), Config::default())),
        Some((text, parsed)) => {
            let doc = match doc_parse(text) {
                Ok(d) => d,
                Err(e) => return Err(ConfigWriteError::NotToml(e)),
            };
            match parsed {
                Ok(c) => Ok((doc, c)),
                Err(e) => Err(ConfigWriteError::Invalid(e)),
            }
        },
    }
}

/// `text` is what `doc` renders to, and `doc` holds the tables `t0` with
/// the fields of `new` that differ from `current` written in.
pub open spec fn rendered_edit(doc: DocumentMut, t0: Map<Seq<char>, Map<Seq<char>, TomlValue>>, current: Config, new: Config, text: Seq<char>) -> bool {
    &&& toml_tables(doc) == apply_edits(t0, config_edits(current, new))
    &&& toml_text(doc) == text
}

/// The text of the configuration file after writing `new` into it: the
/// rendering of the file's document (a new one when there is no file) with
/// the changed fields written in (see [`read_config_document`] and
/// [`apply_config_changes`]).
pub fn rewrite_config(existing: Option<(&str, Result<Config, String>)>, new: &Config) -> (r: Result<String, ConfigWriteError>)
    ensures
        match existing {
            None => r is Ok && exists|doc: DocumentMut, cur: Config|
                is_default_config(cur) && #[trigger] rendered_edit(doc, no_tables(), cur, *new, r->Ok_0@),
            Some((text, parsed)) => {
                &&& !toml_parses(text@) <==> (r is Err && r->Err_0 is NotToml)
                &&& toml_parses(text@) && parsed is Err ==> refused_as_invalid(r, parsed->Err_0@)
                &&& toml_parses(text@) && parsed is Ok ==> r is Ok && exists|doc: DocumentMut|
                    #[trigger] rendered_edit(doc, toml_parsed_tables(text@), parsed->Ok_0, *new, r->Ok_0@)
            },
        },
{
    let ghost ex = existing;
    let read = read_config_document(existing);
    let (mut doc, current) = match read {
        Ok(pair) => pair,
        Err(e) => return Err(e),
    };
    let ghost t0 = toml_tables(doc);
    apply_config_changes(&mut doc, &current, new);
    let text = doc_text(&doc);
    let r: Result<String, ConfigWriteError> = Ok(text);
    proof {
        assert(rendered_edit(doc, t0, current, *new, r->Ok_0@));
        if ex is Some {
            let pair = ex->0;
            let text = pair.0;
            let parsed = pair.1;
            if toml_parses(text@) && parsed is Ok {
                assert(rendered_edit(doc, toml_parsed_tables(text@), parsed->Ok_0, *new, r->Ok_0@));
            }
        }
    }
    r
}

} // verus!
