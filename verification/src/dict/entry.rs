//! Dictionary entries and candidates.

use vstd::prelude::*;

verus! {

/// A dictionary entry: one headword with its list of candidates.
#[derive(Debug, PartialEq, Eq)]
pub struct DictEntry {
    /// Headword (midashi)
    pub midashi: String,
    /// Okurigana, if present
    pub okuri: Option<String>,
    /// Candidate list (highest priority first)
    pub candidates: Vec<Candidate>,
}

/// A single conversion candidate.
#[derive(Debug, PartialEq, Eq)]
pub struct Candidate {
    /// The converted text (or the raw S-expression string for Lisp-form candidates).
    pub word: String,
    /// Optional annotation (text after `;` in the dictionary).
    /// Ignored for Lisp-form candidates.
    pub annotation: Option<String>,
    /// If `Some`, this candidate is a Lisp-form entry (word starts with `(`).
    /// `word` holds the raw S-expression for round-trip serialization.
    pub lisp_form: Option<LispForm>,
}

/// Parsed form of a Lisp-form dictionary candidate.
#[derive(Debug, PartialEq, Eq)]
pub enum LispForm {
    /// `(skk-ignore-dic-word "w1" "w2" ...)` — words to exclude from candidates.
    IgnoreDicWord(Vec<String>),
    /// An S-expression that is not yet interpreted.
    /// Preserved as-is for round-trip serialization.
    Unknown,
}

/// Errors reported by dictionary backends.
#[derive(Debug)]
pub enum DictError {
    /// The text could not be decoded.
    Encoding(String),
    /// A malformed line (1-based line number).
    Parse { line: usize, message: String },
    /// The dictionary cannot be written to.
    ReadOnly,
}

// ── Mathematical model ───────────────────────────────────────────────────────

/// Mathematical form of a [`LispForm`].
pub enum LispFormView {
    IgnoreDicWord(Seq<Seq<char>>),
    Unknown,
}

/// Mathematical form of a [`Candidate`].
pub struct CandidateView {
    pub word: Seq<char>,
    pub annotation: Option<Seq<char>>,
    pub lisp_form: Option<LispFormView>,
}

/// Mathematical form of a [`DictEntry`].
pub struct EntryView {
    pub midashi: Seq<char>,
    pub okuri: Option<Seq<char>>,
    pub candidates: Seq<CandidateView>,
}

/// View of an optional string.
pub open spec fn opt_str(o: Option<String>) -> Option<Seq<char>> {
    match o {
        Some(s) => Some(s@),
        None => None,
    }
}

/// Views of a sequence of strings.
pub open spec fn strs_view(v: Seq<String>) -> Seq<Seq<char>> {
    v.map_values(|s: String| s@)
}

/// Views of a sequence of candidates.
pub open spec fn cands_view(v: Seq<Candidate>) -> Seq<CandidateView> {
    v.map_values(|c: Candidate| c@)
}

impl View for LispForm {
    type V = LispFormView;

    open spec fn view(&self) -> LispFormView {
        match self {
            LispForm::IgnoreDicWord(ws) => LispFormView::IgnoreDicWord(strs_view(ws@)),
            LispForm::Unknown => LispFormView::Unknown,
        }
    }
}

impl View for Candidate {
    type V = CandidateView;

    open spec fn view(&self) -> CandidateView {
        CandidateView {
            word: self.word@,
            annotation: opt_str(self.annotation),
            lisp_form: match self.lisp_form {
                Some(f) => Some(f@),
                None => None,
            },
        }
    }
}

impl View for DictEntry {
    type V = EntryView;

    open spec fn view(&self) -> EntryView {
        EntryView {
            midashi: self.midashi@,
            okuri: opt_str(self.okuri),
            candidates: cands_view(self.candidates@),
        }
    }
}

/// Copies an optional string.
pub fn clone_opt_str(o: &Option<String>) -> (r: Option<String>)
    ensures
        opt_str(r) == opt_str(*o),
{
    match o {
        Some(s) => Some(s.clone()),
        None => None,
    }
}

/// Copies a vector of strings.
pub fn clone_strings(v: &Vec<String>) -> (r: Vec<String>)
    ensures
        strs_view(r@) == strs_view(v@),
{
    let mut r: Vec<String> = Vec::new();
    let mut i: usize = 0;
    while i < v.len()
        invariant
            i <= v.len(),
            strs_view(r@) == strs_view(v@.take(i as int)),
        decreases v.len() - i,
    {
        let ghost prev = r@;
        r.push(v[i].clone());
        assert(strs_view(r@) =~= strs_view(prev).push(v@[i as int]@));
        assert(strs_view(v@.take(i + 1)) =~= strs_view(v@.take(i as int)).push(v@[i as int]@));
        i += 1;
    }
    assert(v@.take(v.len() as int) =~= v@);
    r
}

impl Clone for LispForm {
    fn clone(&self) -> (r: Self)
        ensures
            r@ == self@,
    {
        match self {
            LispForm::IgnoreDicWord(ws) => LispForm::IgnoreDicWord(clone_strings(ws)),
            LispForm::Unknown => LispForm::Unknown,
        }
    }
}

impl Clone for Candidate {
    fn clone(&self) -> (r: Self)
        ensures
            r@ == self@,
    {
        let lisp_form = match &self.lisp_form {
            Some(f) => Some(f.clone()),
            None => None,
        };
        Candidate {
            word: self.word.clone(),
            annotation: clone_opt_str(&self.annotation),
            lisp_form,
        }
    }
}

/// Copies a slice of candidates.
pub fn clone_candidates(v: &[Candidate]) -> (r: Vec<Candidate>)
    ensures
        cands_view(r@) == cands_view(v@),
{
    let mut r: Vec<Candidate> = Vec::new();
    let mut i: usize = 0;
    while i < v.len()
        invariant
            i <= v.len(),
            cands_view(r@) == cands_view(v@.take(i as int)),
        decreases v.len() - i,
    {
        let ghost prev = r@;
        r.push(v[i].clone());
        assert(cands_view(r@) =~= cands_view(prev).push(v@[i as int]@));
        assert(cands_view(v@.take(i + 1)) =~= cands_view(v@.take(i as int)).push(v@[i as int]@));
        i += 1;
    }
    assert(v@.take(v.len() as int) =~= v@);
    r
}

impl Clone for DictEntry {
    fn clone(&self) -> (r: Self)
        ensures
            r@ == self@,
    {
        DictEntry {
            midashi: self.midashi.clone(),
            okuri: clone_opt_str(&self.okuri),
            candidates: clone_candidates(self.candidates.as_slice()),
        }
    }
}

impl Candidate {
    /// A plain candidate.
    pub fn new(word: &str) -> (r: Self)
        ensures
            r@ == (CandidateView { word: word@, annotation: None, lisp_form: None }),
    {
        Candidate { word: word.to_owned(), annotation: None, lisp_form: None }
    }

    /// A candidate with an annotation.
    pub fn with_annotation(word: &str, annotation: &str) -> (r: Self)
        ensures
            r@ == (CandidateView { word: word@, annotation: Some(annotation@), lisp_form: None }),
    {
        Candidate { word: word.to_owned(), annotation: Some(annotation.to_owned()), lisp_form: None }
    }

    /// Creates a Lisp-form candidate.  `raw` is the full S-expression string;
    /// it is stored in `word` for round-trip serialization.
    pub fn lisp(raw: &str, form: LispForm) -> (r: Self)
        ensures
            r@ == (CandidateView { word: raw@, annotation: None, lisp_form: Some(form@) }),
    {
        Candidate { word: raw.to_owned(), annotation: None, lisp_form: Some(form) }
    }

    /// Returns `true` if this candidate should be displayed to the user.
    /// Lisp-form candidates (e.g. directives) are hidden.
    pub fn is_displayable(&self) -> (r: bool)
        ensures
            r == (self.lisp_form is None),
    {
        self.lisp_form.is_none()
    }
}

} // verus!
