//! Pattern compilation: a search term plus option flags is turned into a
//! single regex pattern, following a fixed precedence among the flags, and
//! the compiled matcher reports match start offsets per line.

use vstd::prelude::*;
use vstd::string::*;

verus! {

/// Options for one search call.  `include_ignored` selects the traversal
/// policy (it has no effect on matching itself) and `exclude_patterns` are
/// raw substrings that disqualify a path.
pub struct SearchOptions {
    pub case_sensitive: bool,
    pub whole_word: bool,
    pub use_regex: bool,
    pub exclude_patterns: Vec<String>,
    pub include_ignored: bool,
}

/// What `regex::escape` returns for a given term; the result depends on the
/// term's characters alone.
pub uninterp spec fn escaped(term: Seq<char>) -> Seq<char>;

/// Whether `regex::Regex::new` accepts a pattern; compiling a given pattern
/// either always succeeds or always fails.
pub uninterp spec fn regex_valid(pattern: Seq<char>) -> bool;

/// The successive non-overlapping match start offsets that the compiled
/// regex for `pattern` reports in `hay`; a function of the two alone.
pub uninterp spec fn match_starts(pattern: Seq<char>, hay: Seq<char>) -> Seq<usize>;

/// Relies on `regex::escape`: it backslash-escapes every regex meta
/// character, so the result is determined by the input characters alone.
#[verifier::external_body]
fn regex_escape(term: &str) -> (r: String)
    ensures
        r@ == escaped(term@),
{
    regex::escape(term)
}

/// Relies on `regex::Regex::new`: whether a pattern compiles depends only on
/// the pattern text; on failure the error is rendered as a string.
#[verifier::external_body]
fn regex_compile_check(pattern: &str) -> (r: Result<(), String>)
    ensures
        r is Ok <==> regex_valid(pattern@),
{
    match regex::Regex::new(pattern) {
        Ok(_) => Ok(()),
        Err(e) => Err(e.to_string()),
    }
}

/// Relies on `regex::Regex::new` and `regex::Regex::find_iter`: the iterator
/// yields successive non-overlapping matches, so the start offsets are
/// strictly increasing and are a function of pattern and haystack alone.
#[verifier::external_body]
fn regex_find_starts(pattern: &str, hay: &str) -> (r: Vec<usize>)
    requires
        regex_valid(pattern@),
    ensures
        r@ == match_starts(pattern@, hay@),
        forall|i: int, j: int| 0 <= i < j < r@.len() ==> #[trigger] r@[i] < #[trigger] r@[j],
{
    let re = regex::Regex::new(pattern).unwrap();
    re.find_iter(hay).map(|m| m.start()).collect()
}

/// The pattern text produced for a term under the option flags, by the fixed
/// precedence: regex mode verbatim (case-sensitivity is ignored there), then
/// whole-word, then case-insensitive literal, then case-sensitive literal.
pub open spec fn spec_pattern(term: Seq<char>, opts: SearchOptions) -> Seq<char> {
    if opts.use_regex {
        term
    } else if opts.whole_word {
        let word = "\\b"@ + escaped(term) + "\\b"@;
        if opts.case_sensitive {
            word
        } else {
            "(?i)"@ + word
        }
    } else if !opts.case_sensitive {
        "(?i)"@ + escaped(term)
    } else {
        escaped(term)
    }
}

/// Builds the pattern text for `term` under `opts`.
fn build_pattern(term: &str, opts: &SearchOptions) -> (r: String)
    ensures
        r@ == spec_pattern(term@, *opts),
{
    if opts.use_regex {
        term.to_owned()
    } else if opts.whole_word {
        let esc = regex_escape(term);
        let mut word = String::from_str("\\b");
        word.append(esc.as_str());
        word.append("\\b");
        if opts.case_sensitive {
            word
        } else {
            let mut p = String::from_str("(?i)");
            p.append(word.as_str());
            p
        }
    } else if !opts.case_sensitive {
        let esc = regex_escape(term);
        let mut p = String::from_str("(?i)");
        p.append(esc.as_str());
        p
    } else {
        regex_escape(term)
    }
}

/// A matcher whose semantics are fully determined by the search term and the
/// four option inputs: it is the validated pattern text of `spec_pattern`.
pub struct CompiledMatcher {
    pattern: String,
}

impl CompiledMatcher {
    /// The pattern text this matcher was compiled from.
    pub closed spec fn pattern_view(&self) -> Seq<char> {
        self.pattern@
    }

    /// A matcher only ever holds a pattern that the regex engine accepts.
    pub closed spec fn wf(&self) -> bool {
        regex_valid(self.pattern@)
    }

    /// Compiles `term` under `opts`.  Succeeds exactly when the produced
    /// pattern is a valid regex; a malformed user regex yields a descriptive
    /// error and no matcher.
    pub fn compile(term: &str, opts: &SearchOptions) -> (r: Result<CompiledMatcher, String>)
        ensures
            r is Ok <==> regex_valid(spec_pattern(term@, *opts)),
            r matches Ok(m) ==> m.wf() && m.pattern_view() == spec_pattern(term@, *opts),
    {
        let pattern = build_pattern(term, opts);
        match regex_compile_check(pattern.as_str()) {
            Ok(()) => Ok(CompiledMatcher { pattern }),
            Err(e) => Err(e),
        }
    }

    /// Reports every non-overlapping match start offset in one line, left to
    /// right.
    pub fn find_in_line(&self, line: &str) -> (r: Vec<usize>)
        requires
            self.wf(),
        ensures
            r@ == match_starts(self.pattern_view(), line@),
            forall|i: int, j: int| 0 <= i < j < r@.len() ==> #[trigger] r@[i] < #[trigger] r@[j],
    {
        regex_find_starts(self.pattern.as_str(), line)
    }
}

/// In regex mode the term is compiled verbatim, so neither the
/// case-sensitivity flag nor the whole-word flag changes the matcher.
pub proof fn lemma_regex_mode_ignores_flags(term: Seq<char>, a: SearchOptions, b: SearchOptions)
    requires
        a.use_regex,
        b.use_regex,
    ensures
        spec_pattern(term, a) == spec_pattern(term, b),
{
}

} // verus!
