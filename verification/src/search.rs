//! The search engine: scans candidate files line by line with a compiled
//! matcher, skips binary and unreadable files, and aggregates the per-file
//! matches and counters into one result.

use vstd::prelude::*;
use vstd::string::*;
use crate::classify::{
    spec_is_binary, spec_relativize, is_likely_binary, relativize, lemma_relativize_keeps_absence,
};
use crate::lines::{spec_lines, split_lines};
use crate::pattern::{
    CompiledMatcher, SearchOptions, match_starts, regex_valid, spec_pattern,
};
use crate::text::{contains_seq, str_contains_sub};

verus! {

/// One match occurrence: 1-based line number, the full text of the matching
/// line, and the 0-based offset of the match start within that line.
pub struct Match {
    pub line_number: usize,
    pub line_content: String,
    pub match_index: usize,
}

/// Mathematical image of a `Match`.
pub struct MatchView {
    pub line_number: int,
    pub line_content: Seq<char>,
    pub match_index: int,
}

impl View for Match {
    type V = MatchView;

    open spec fn view(&self) -> MatchView {
        MatchView {
            line_number: self.line_number as int,
            line_content: self.line_content@,
            match_index: self.match_index as int,
        }
    }
}

impl DeepView for Match {
    type V = MatchView;

    open spec fn deep_view(&self) -> MatchView {
        self.view()
    }
}

/// All matches found in one file, in line order then offset order, under the
/// file's normalized project-relative path.
pub struct FileMatch {
    pub file_path: String,
    pub matches: Vec<Match>,
}

/// Mathematical image of a `FileMatch`.
pub struct FileMatchView {
    pub file_path: Seq<char>,
    pub matches: Seq<MatchView>,
}

impl View for FileMatch {
    type V = FileMatchView;

    open spec fn view(&self) -> FileMatchView {
        FileMatchView { file_path: self.file_path@, matches: self.matches.deep_view() }
    }
}

impl DeepView for FileMatch {
    type V = FileMatchView;

    open spec fn deep_view(&self) -> FileMatchView {
        self.view()
    }
}

/// The read-only output of one search call.
pub struct SearchResults {
    pub matches: Vec<FileMatch>,
    pub files_searched: usize,
    pub total_matches: usize,
}

/// One candidate file handed to the engine: its path and its content, or
/// `None` where the file could not be read as text.
pub struct FileEntry {
    pub path: String,
    pub content: Option<String>,
}

/// Mathematical image of a `FileEntry`.
pub struct FileEntryView {
    pub path: Seq<char>,
    pub content: Option<Seq<char>>,
}

impl View for FileEntry {
    type V = FileEntryView;

    open spec fn view(&self) -> FileEntryView {
        FileEntryView {
            path: self.path@,
            content: match self.content {
                Option::Some(c) => Option::Some(c@),
                Option::None => Option::None,
            },
        }
    }
}

impl DeepView for FileEntry {
    type V = FileEntryView;

    open spec fn deep_view(&self) -> FileEntryView {
        self.view()
    }
}

/// The path contains at least one of the exclusion patterns as a raw
/// substring.
pub open spec fn spec_excluded(path: Seq<char>, pats: Seq<Seq<char>>) -> bool {
    exists|j: int| 0 <= j < pats.len() && contains_seq(path, pats[j])
}

/// Tests a path against the exclusion patterns.
pub fn is_excluded(path: &str, patterns: &Vec<String>) -> (r: bool)
    ensures
        r == spec_excluded(path@, patterns.deep_view()),
{
    let mut j: usize = 0;
    while j < patterns.len()
        invariant
            j <= patterns@.len(),
            forall|k: int| 0 <= k < j ==> !contains_seq(path@, patterns.deep_view()[k]),
        decreases patterns@.len() - j,
    {
        if str_contains_sub(path, patterns[j].as_str()) {
            proof {
                assert(contains_seq(path@, patterns.deep_view()[j as int]));
            }
            return true;
        }
        j += 1;
    }
    false
}

/// The match records that one line contributes, in offset order.
pub open spec fn line_match_views(pattern: Seq<char>, line: Seq<char>, line_no: int) -> Seq<
    MatchView,
> {
    match_starts(pattern, line).map(
        |k: int, st: usize|
            MatchView { line_number: line_no, line_content: line, match_index: st as int },
    )
}

/// The match records of the first `n` lines, concatenated in line order.
pub open spec fn matches_up_to(pattern: Seq<char>, lns: Seq<Seq<char>>, n: int) -> Seq<MatchView>
    decreases n,
{
    if n <= 0 {
        Seq::empty()
    } else {
        matches_up_to(pattern, lns, n - 1) + line_match_views(pattern, lns[n - 1], n)
    }
}

/// Every match record of a text, line by line.
pub open spec fn spec_content_matches(pattern: Seq<char>, content: Seq<char>) -> Seq<MatchView> {
    matches_up_to(pattern, spec_lines(content), spec_lines(content).len() as int)
}

/// Matches are sorted by line number, then by offset within the line.
pub open spec fn match_order_ok(ms: Seq<MatchView>) -> bool {
    forall|i: int, j: int|
        0 <= i < j < ms.len() ==> (#[trigger] ms[i]).line_number < (#[trigger] ms[j]).line_number
            || (ms[i].line_number == ms[j].line_number && ms[i].match_index < ms[j].match_index)
}

/// Scans one file's content and reports every match, line by line, left to
/// right.
pub fn scan_content(matcher: &CompiledMatcher, content: &str) -> (r: Vec<Match>)
    requires
        matcher.wf(),
    ensures
        r.deep_view() == spec_content_matches(matcher.pattern_view(), content@),
        match_order_ok(r.deep_view()),
{
    let ghost pat = matcher.pattern_view();
    let lines = split_lines(content);
    let ghost lns = lines.deep_view();
    let mut out: Vec<Match> = Vec::new();
    let mut li: usize = 0;
    proof {
        assert(out.deep_view() =~= Seq::<MatchView>::empty());
    }
    while li < lines.len()
        invariant
            matcher.wf(),
            matcher.pattern_view() == pat,
            lines.deep_view() == lns,
            li <= lines@.len(),
            lines@.len() == lns.len(),
            out.deep_view() == matches_up_to(pat, lns, li as int),
            forall|q: int|
                0 <= q < out.deep_view().len() ==> 1 <= (#[trigger] out.deep_view()[q]).line_number
                    <= li,
            match_order_ok(out.deep_view()),
        decreases lines@.len() - li,
    {
        let line = &lines[li];
        let starts = matcher.find_in_line(line.as_str());
        let ghost base = out.deep_view();
        let ghost lmv = line_match_views(pat, line@, li + 1);
        proof {
            assert(line@ == lns[li as int]);
            assert(starts@ == match_starts(pat, lns[li as int]));
            assert(lmv.len() == starts@.len());
            assert(base + lmv.take(0) =~= base);
        }
        let mut k: usize = 0;
        while k < starts.len()
            invariant
                k <= starts@.len(),
                li < lns.len() <= usize::MAX,
                line@ == lns[li as int],
                starts@ == match_starts(pat, line@),
                forall|i: int, j: int|
                    0 <= i < j < starts@.len() ==> #[trigger] starts@[i] < #[trigger] starts@[j],
                lmv == line_match_views(pat, line@, li + 1),
                lmv.len() == starts@.len(),
                out.deep_view() == base + lmv.take(k as int),
                forall|q: int|
                    0 <= q < base.len() ==> 1 <= (#[trigger] base[q]).line_number <= li,
                match_order_ok(out.deep_view()),
            decreases starts@.len() - k,
        {
            let m = Match {
                line_number: li + 1,
                line_content: line.clone(),
                match_index: starts[k],
            };
            let ghost odv = out.deep_view();
            out.push(m);
            proof {
                assert(m.deep_view() == lmv[k as int]);
                assert(out.deep_view() =~= odv.push(m.deep_view()));
                assert(lmv.take(k + 1) =~= lmv.take(k as int).push(lmv[k as int]));
                assert(out.deep_view() =~= base + lmv.take(k + 1));
                let ndv = out.deep_view();
                assert forall|i: int, j: int| 0 <= i < j < ndv.len() implies (
                #[trigger] ndv[i]).line_number < (#[trigger] ndv[j]).line_number || (
                ndv[i].line_number == ndv[j].line_number && ndv[i].match_index
                    < ndv[j].match_index) by {
                    if j == ndv.len() - 1 {
                        if i < base.len() {
                            assert(ndv[i] == base[i]);
                            assert(base[i].line_number <= li);
                        } else {
                            let a = i - base.len();
                            assert(ndv[i] == lmv[a]);
                            assert(lmv[a].match_index == starts@[a] as int);
                            assert(starts@[a] < starts@[k as int]);
                        }
                    } else {
                        assert(odv[i] == ndv[i] && odv[j] == ndv[j]);
                    }
                }
            }
            k += 1;
        }
        proof {
            assert(lmv.take(starts@.len() as int) =~= lmv);
            assert(matches_up_to(pat, lns, li + 1) == matches_up_to(pat, lns, li as int)
                + line_match_views(pat, lns[li as int], li + 1));
            assert(forall|q: int|
                0 <= q < lmv.len() ==> (#[trigger] lmv[q]).line_number == li + 1);
        }
        li += 1;
    }
    proof {
        assert(matches_up_to(pat, lns, lns.len() as int) == spec_content_matches(pat, content@));
    }
    out
}

/// The candidate files: the entries whose paths contain none of the
/// exclusion patterns, in their original order.
pub open spec fn spec_candidates(entries: Seq<FileEntryView>, pats: Seq<Seq<char>>) -> Seq<
    FileEntryView,
>
    decreases entries.len(),
{
    if entries.len() == 0 {
        Seq::empty()
    } else {
        let rest = spec_candidates(entries.drop_last(), pats);
        if !spec_excluded(entries.last().path, pats) {
            rest.push(entries.last())
        } else {
            rest
        }
    }
}

proof fn lemma_candidates_len(entries: Seq<FileEntryView>, pats: Seq<Seq<char>>)
    ensures
        spec_candidates(entries, pats).len() <= entries.len(),
    decreases entries.len(),
{
    if entries.len() > 0 {
        lemma_candidates_len(entries.drop_last(), pats);
    }
}

/// What one candidate contributes: nothing if its name looks binary, nothing
/// if it was unreadable, nothing if no line matches; otherwise one
/// `FileMatch` under the relativized path.
pub open spec fn spec_entry_result(
    pattern: Seq<char>,
    e: FileEntryView,
    root: Seq<char>,
) -> Option<FileMatchView> {
    if spec_is_binary(e.path) {
        Option::None
    } else {
        match e.content {
            Option::None => Option::None,
            Option::Some(c) => {
                let ms = spec_content_matches(pattern, c);
                if ms.len() == 0 {
                    Option::None
                } else {
                    Option::Some(
                        FileMatchView { file_path: spec_relativize(e.path, root), matches: ms },
                    )
                }
            },
        }
    }
}

/// A file whose name looks binary is never scanned: whatever its content, it
/// contributes no `FileMatch` (it is only counted among the files searched).
pub proof fn lemma_binary_file_never_matches(pattern: Seq<char>, e: FileEntryView, root: Seq<char>)
    requires
        spec_is_binary(e.path),
    ensures
        spec_entry_result(pattern, e, root) is None,
{
}

/// The per-file results of the candidates, in candidate order.
pub open spec fn spec_search_matches(
    pattern: Seq<char>,
    cands: Seq<FileEntryView>,
    root: Seq<char>,
) -> Seq<FileMatchView>
    decreases cands.len(),
{
    if cands.len() == 0 {
        Seq::empty()
    } else {
        let rest = spec_search_matches(pattern, cands.drop_last(), root);
        match spec_entry_result(pattern, cands.last(), root) {
            Option::Some(fm) => rest.push(fm),
            Option::None => rest,
        }
    }
}

proof fn lemma_search_matches_len(pattern: Seq<char>, cands: Seq<FileEntryView>, root: Seq<char>)
    ensures
        spec_search_matches(pattern, cands, root).len() <= cands.len(),
    decreases cands.len(),
{
    if cands.len() > 0 {
        lemma_search_matches_len(pattern, cands.drop_last(), root);
    }
}

/// The total number of match records across the per-file results.
pub open spec fn spec_total(fms: Seq<FileMatchView>) -> int
    decreases fms.len(),
{
    if fms.len() == 0 {
        0
    } else {
        spec_total(fms.drop_last()) + fms.last().matches.len()
    }
}

/// Runs one search over the given candidate files.
///
/// The call fails exactly when the produced pattern is rejected by the regex
/// engine (a malformed user regex); no partial results are returned then.
/// On success the result is pinned down completely: `files_searched` counts
/// the entries that survive the exclusion patterns, `matches` holds exactly
/// the per-file results of those candidates in order, every count at least
/// one match per reported file, and `total_matches` is their sum (saturating
/// only at the unreachable `usize` limit).  No reported path contains an
/// exclusion pattern that is free of forward slashes.
pub fn run_search(
    project_path: &str,
    search_term: &str,
    options: &SearchOptions,
    entries: Vec<FileEntry>,
) -> (r: Result<SearchResults, String>)
    ensures
        r is Ok <==> regex_valid(spec_pattern(search_term@, *options)),
        r matches Ok(res) ==> {
            let pat = spec_pattern(search_term@, *options);
            let pats = options.exclude_patterns.deep_view();
            let cands = spec_candidates(entries.deep_view(), pats);
            let fms = spec_search_matches(pat, cands, project_path@);
            &&& res.files_searched == cands.len()
            &&& res.matches.deep_view() == fms
            &&& res.matches@.len() <= res.files_searched
            &&& (spec_total(fms) <= usize::MAX ==> res.total_matches == spec_total(fms))
            &&& (spec_total(fms) > usize::MAX ==> res.total_matches == usize::MAX)
            &&& forall|pi: int, fj: int|
                0 <= pi < pats.len() && !pats[pi].contains('/') && 0 <= fj < fms.len()
                    ==> !contains_seq((#[trigger] fms[fj]).file_path, #[trigger] pats[pi])
        },
{
    let matcher = match CompiledMatcher::compile(search_term, options) {
        Ok(m) => m,
        Err(e) => {
            return Err(e);
        },
    };
    let ghost pat = spec_pattern(search_term@, *options);
    let ghost pats = options.exclude_patterns.deep_view();
    let ghost root = project_path@;
    let ghost evs = entries.deep_view();
    let mut results: Vec<FileMatch> = Vec::new();
    let mut files_searched: usize = 0;
    let mut total: usize = 0;
    let mut i: usize = 0;
    proof {
        assert(evs.take(0) =~= Seq::<FileEntryView>::empty());
        assert(results.deep_view() =~= Seq::<FileMatchView>::empty());
    }
    while i < entries.len()
        invariant
            matcher.wf(),
            matcher.pattern_view() == pat,
            pats == options.exclude_patterns.deep_view(),
            evs == entries.deep_view(),
            root == project_path@,
            i <= entries@.len(),
            entries@.len() == evs.len(),
            files_searched == spec_candidates(evs.take(i as int), pats).len(),
            results.deep_view() == spec_search_matches(
                pat,
                spec_candidates(evs.take(i as int), pats),
                root,
            ),
            results@.len() <= files_searched,
            spec_total(results.deep_view()) <= usize::MAX ==> total == spec_total(
                results.deep_view(),
            ),
            spec_total(results.deep_view()) > usize::MAX ==> total == usize::MAX,
            forall|pi: int, fj: int|
                0 <= pi < pats.len() && !pats[pi].contains('/') && 0 <= fj
                    < results.deep_view().len() ==> !contains_seq(
                    (#[trigger] results.deep_view()[fj]).file_path,
                    #[trigger] pats[pi],
                ),
        decreases entries@.len() - i,
    {
        let e = &entries[i];
        let ghost ev = evs[i as int];
        let ghost old_cands = spec_candidates(evs.take(i as int), pats);
        proof {
            assert(ev == entries@[i as int].deep_view());
            assert(ev.path == e.path@);
            assert(evs.take(i + 1) =~= evs.take(i as int).push(ev));
            assert(evs.take(i + 1).drop_last() =~= evs.take(i as int));
            lemma_candidates_len(evs.take(i as int), pats);
            assert(evs.take(i as int).len() == i as int);
        }
        if !is_excluded(e.path.as_str(), &options.exclude_patterns) {
            proof {
                assert(spec_candidates(evs.take(i + 1), pats) =~= old_cands.push(ev));
                assert(old_cands.push(ev).drop_last() =~= old_cands);
            }
            files_searched = files_searched + 1;
            let mut contributed = false;
            if !is_likely_binary(e.path.as_str()) {
                match &e.content {
                    Some(c) => {
                        proof {
                            assert(ev.content == Option::Some(c@));
                        }
                        let ms = scan_content(&matcher, c.as_str());
                        if ms.len() > 0 {
                            let rel = relativize(e.path.as_str(), project_path);
                            let mlen = ms.len();
                            let fm = FileMatch { file_path: rel, matches: ms };
                            let ghost odv = results.deep_view();
                            proof {
                                assert(fm.deep_view() == spec_entry_result(pat, ev, root)
                                    .unwrap());
                                assert forall|pi: int|
                                    0 <= pi < pats.len() && !pats[pi].contains(
                                        '/',
                                    ) implies !contains_seq(fm.deep_view().file_path, pats[pi]) by {
                                    assert(!contains_seq(ev.path, pats[pi]));
                                    lemma_relativize_keeps_absence(ev.path, root, pats[pi]);
                                }
                            }
                            results.push(fm);
                            proof {
                                assert(results.deep_view() =~= odv.push(fm.deep_view()));
                                assert(results.deep_view().drop_last() =~= odv);
                                assert(spec_total(results.deep_view()) == spec_total(odv)
                                    + mlen as int);
                            }
                            if mlen <= usize::MAX - total {
                                total = total + mlen;
                            } else {
                                total = usize::MAX;
                            }
                            contributed = true;
                        }
                    },
                    None => {
                        proof {
                            assert(ev.content is None);
                        }
                    },
                }
            }
            proof {
                if !contributed {
                    assert(spec_entry_result(pat, ev, root) is None);
                }
                assert(spec_search_matches(pat, old_cands.push(ev), root)
                    == results.deep_view());
                lemma_search_matches_len(pat, spec_candidates(evs.take(i + 1), pats), root);
            }
        } else {
            proof {
                assert(spec_candidates(evs.take(i + 1), pats) =~= old_cands);
            }
        }
        i += 1;
    }
    proof {
        assert(evs.take(evs.len() as int) =~= evs);
    }
    Ok(SearchResults { matches: results, files_searched, total_matches: total })
}

} // verus!
