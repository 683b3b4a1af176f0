//! The in-memory workspace index: the files and directories a scan found, in path order,
//! and the searches and reads made over it.
//!
//! Walking the workspace and reading the files happen at the caller, which hands the
//! entries it found to `rebuild`.

use vstd::prelude::*;
use vstd::seq_lib::to_multiset_insert;

use crate::redaction::{range_view, regex_builds, regex_compiles, regex_find, regex_find_ranges};
use crate::services::file_ops::{contains_chars, contains_text};
use crate::services::job_manager::reversed;
use crate::text::{
    chars_eq, chars_lt, chars_of, concat2, join_range, join_with, lemma_seq_lt_total,
    lemma_seq_lt_transitive, lines_of, lowercase_of, replace_char, replace_char_spec, seq_lt,
    slice_chars, split_lines, starts_with, starts_with_spec, str_eq, string_of, to_lowercase,
    views_of,
};

verus! {

broadcast use vstd::string::group_string_axioms;

// ---------------------------------------------------------------------------
// Path order
// ---------------------------------------------------------------------------

/// The order of indexed paths: by their lower-case forms, then by the paths themselves.
pub open spec fn path_lt(a: Seq<char>, b: Seq<char>) -> bool {
    seq_lt(lowercase_of(a), lowercase_of(b)) || (lowercase_of(a) == lowercase_of(b) && seq_lt(a, b))
}

/// `path_lt` is a strict total order.
pub proof fn lemma_path_order(a: Seq<char>, b: Seq<char>, c: Seq<char>)
    ensures
        !path_lt(a, a),
        path_lt(a, b) ==> !path_lt(b, a),
        a != b ==> path_lt(a, b) || path_lt(b, a),
        path_lt(a, b) && path_lt(b, c) ==> path_lt(a, c),
{
    let (la, lb, lc) = (lowercase_of(a), lowercase_of(b), lowercase_of(c));
    lemma_seq_lt_total(la, lb);
    lemma_seq_lt_total(lb, la);
    lemma_seq_lt_total(a, b);
    lemma_seq_lt_total(b, a);
    lemma_seq_lt_total(la, la);
    lemma_seq_lt_total(a, a);
    if path_lt(a, b) && path_lt(b, c) {
        if seq_lt(la, lb) && seq_lt(lb, lc) {
            lemma_seq_lt_transitive(la, lb, lc);
        }
        if seq_lt(a, b) && seq_lt(b, c) {
            lemma_seq_lt_transitive(a, b, c);
        }
    }
}

/// Whether `a` comes before `b` in path order.
pub fn path_before(a: &str, b: &str) -> (r: bool)
    ensures
        r == path_lt(a@, b@),
{
    let la = to_lowercase(a);
    let lb = to_lowercase(b);
    let la = chars_of(la.as_str());
    let lb = chars_of(lb.as_str());
    if chars_lt(la.as_slice(), lb.as_slice()) {
        return true;
    }
    if !chars_eq(la.as_slice(), lb.as_slice()) {
        return false;
    }
    let ca = chars_of(a);
    let cb = chars_of(b);
    chars_lt(ca.as_slice(), cb.as_slice())
}

/// Directories the scan leaves out: `.git` and `.agents`, and everything under them.
pub open spec fn skipped_directory(p: Seq<char>) -> bool {
    p == ".git"@ || starts_with_spec(p, ".git/"@) || p == ".agents"@ || starts_with_spec(p, ".agents/"@)
}

/// Whether the scan leaves a directory out.
pub fn should_skip_directory(relative_path: &str) -> (r: bool)
    ensures
        r == skipped_directory(relative_path@),
{
    let p = chars_of(relative_path);
    let git = chars_of(".git");
    let git_dir = chars_of(".git/");
    let agents = chars_of(".agents");
    let agents_dir = chars_of(".agents/");
    let is_git = chars_eq(p.as_slice(), git.as_slice());
    let is_agents = chars_eq(p.as_slice(), agents.as_slice());
    is_git || starts_with(p.as_slice(), git_dir.as_slice()) || is_agents || starts_with(
        p.as_slice(),
        agents_dir.as_slice(),
    )
}

// ---------------------------------------------------------------------------
// Index contents
// ---------------------------------------------------------------------------

/// A single text match found by a search of the index.
#[derive(Debug)]
pub struct SearchMatch {
    pub path: String,
    pub line: usize,
    pub text: String,
}

/// Summary of a workspace index build.
#[derive(Debug)]
pub struct IndexBuildStats {
    pub indexed_files: usize,
    pub indexed_directories: usize,
    pub indexed_text_files: usize,
}

/// An indexed file: its workspace-relative path and, when it is UTF-8, its text.
#[derive(Debug)]
pub struct IndexedFile {
    pub path: String,
    pub text: Option<String>,
}

/// The paths of indexed files.
pub open spec fn file_paths(files: Seq<IndexedFile>) -> Seq<Seq<char>> {
    Seq::new(files.len(), |i: int| files[i].path@)
}

/// Whether paths are in path order.
pub open spec fn paths_sorted(paths: Seq<Seq<char>>) -> bool {
    forall|i: int, j: int| 0 <= i < j < paths.len() ==> !path_lt(#[trigger] paths[j], #[trigger] paths[i])
}

/// Whether paths are in strictly increasing path order.
pub open spec fn paths_strictly_sorted(paths: Seq<Seq<char>>) -> bool {
    forall|i: int, j: int| 0 <= i < j < paths.len() ==> path_lt(#[trigger] paths[i], #[trigger] paths[j])
}

/// Paths in path order with no path twice are in strictly increasing path order.
pub proof fn lemma_sorted_distinct_is_strict(paths: Seq<Seq<char>>)
    requires
        paths_sorted(paths),
        paths.no_duplicates(),
    ensures
        paths_strictly_sorted(paths),
{
    assert forall|i: int, j: int| 0 <= i < j < paths.len() implies path_lt(
        #[trigger] paths[i],
        #[trigger] paths[j],
    ) by {
        lemma_path_order(paths[i], paths[j], paths[j]);
    }
}

/// A reordering keeps a list free of duplicates.
proof fn lemma_no_duplicates_reordered(a: Seq<Seq<char>>, b: Seq<Seq<char>>)
    requires
        a.to_multiset() == b.to_multiset(),
        a.no_duplicates(),
    ensures
        b.no_duplicates(),
{
    a.lemma_multiset_has_no_duplicates();
    b.lemma_multiset_has_no_duplicates_conv();
}

/// The number of files that have text.
pub open spec fn text_file_count(files: Seq<IndexedFile>) -> nat
    decreases files.len(),
{
    if files.len() == 0 {
        0
    } else {
        text_file_count(files.drop_last()) + if files.last().text is Some {
            1nat
        } else {
            0nat
        }
    }
}

/// Sorts files into path order, keeping each one (insertion sort).
fn sort_files(files: Vec<IndexedFile>) -> (r: Vec<IndexedFile>)
    ensures
        r@.to_multiset() == files@.to_multiset(),
        file_paths(r@).to_multiset() == file_paths(files@).to_multiset(),
        paths_sorted(file_paths(r@)),
{
    let ghost all = files@;
    let n = files.len();
    let mut rest = reversed(files);
    let mut out: Vec<IndexedFile> = Vec::new();
    let mut k: usize = 0;
    assert(all.take(0) =~= Seq::<IndexedFile>::empty());
    while k < n
        invariant
            n == all.len(),
            k <= n,
            rest@.len() == n - k,
            forall|q: int| 0 <= q < rest@.len() ==> #[trigger] rest@[q] == all[n - 1 - q],
            out@.to_multiset() == all.take(k as int).to_multiset(),
            file_paths(out@).to_multiset() == file_paths(all.take(k as int)).to_multiset(),
            paths_sorted(file_paths(out@)),
        decreases n - k,
    {
        let x = rest.pop().unwrap();
        let ghost before = out@;
        let ghost ps = file_paths(before);
        let mut p: usize = 0;
        while p < out.len() && !path_before(x.path.as_str(), out[p].path.as_str())
            invariant
                p <= out@.len(),
                out@ == before,
                ps == file_paths(before),
                forall|j: int| 0 <= j < p ==> !path_lt(x.path@, #[trigger] ps[j]),
            decreases out@.len() - p,
        {
            assert(ps[p as int] == out@[p as int].path@);
            p = p + 1;
        }
        proof {
            assert(p < out@.len() ==> ps[p as int] == out@[p as int].path@);
            assert(x == all[k as int]);
            assert(all.take(k + 1) =~= all.take(k as int).push(x));
            to_multiset_insert(before, p as int, x);
            vstd::seq_lib::to_multiset_build(all.take(k as int), x);
            to_multiset_insert(ps, p as int, x.path@);
            assert(file_paths(all.take(k + 1)) =~= file_paths(all.take(k as int)).push(x.path@));
            vstd::seq_lib::to_multiset_build(file_paths(all.take(k as int)), x.path@);
        }
        let ghost xp = x.path@;
        out.insert(p, x);
        proof {
            let after = file_paths(out@);
            assert(out@ =~= before.insert(p as int, x));
            assert(after =~= ps.insert(p as int, xp));
            assert forall|a: int, b: int| 0 <= a < b < after.len() implies !path_lt(
                #[trigger] after[b],
                #[trigger] after[a],
            ) by {
                if b < p {
                    assert(after[a] == ps[a] && after[b] == ps[b]);
                } else if b == p {
                    assert(after[a] == ps[a] && after[b] == x.path@);
                } else if a < p {
                    assert(after[a] == ps[a] && after[b] == ps[b - 1]);
                } else if a == p {
                    assert(after[a] == x.path@ && after[b] == ps[b - 1]);
                    lemma_path_order(ps[b - 1], x.path@, ps[p as int]);
                    lemma_path_order(ps[p as int], ps[p as int], ps[p as int]);
                } else {
                    assert(after[a] == ps[a - 1] && after[b] == ps[b - 1]);
                }
            }
        }
        k = k + 1;
    }
    assert(all.take(n as int) =~= all);
    out
}

/// Sorts paths into path order, keeping each one (insertion sort).
fn sort_paths(paths: Vec<String>) -> (r: Vec<String>)
    ensures
        r@.to_multiset() == paths@.to_multiset(),
        string_seq_views(r@).to_multiset() == string_seq_views(paths@).to_multiset(),
        paths_sorted(string_seq_views(r@)),
{
    let ghost all = paths@;
    let n = paths.len();
    let mut rest = reversed(paths);
    let mut out: Vec<String> = Vec::new();
    let mut k: usize = 0;
    assert(all.take(0) =~= Seq::<String>::empty());
    while k < n
        invariant
            n == all.len(),
            k <= n,
            rest@.len() == n - k,
            forall|q: int| 0 <= q < rest@.len() ==> #[trigger] rest@[q] == all[n - 1 - q],
            out@.to_multiset() == all.take(k as int).to_multiset(),
            string_seq_views(out@).to_multiset() == string_seq_views(all.take(k as int)).to_multiset(),
            paths_sorted(string_seq_views(out@)),
        decreases n - k,
    {
        let x = rest.pop().unwrap();
        let ghost before = out@;
        let ghost ps = string_seq_views(before);
        let mut p: usize = 0;
        while p < out.len() && !path_before(x.as_str(), out[p].as_str())
            invariant
                p <= out@.len(),
                out@ == before,
                ps == string_seq_views(before),
                forall|j: int| 0 <= j < p ==> !path_lt(x@, #[trigger] ps[j]),
            decreases out@.len() - p,
        {
            assert(ps[p as int] == out@[p as int]@);
            p = p + 1;
        }
        proof {
            assert(p < out@.len() ==> ps[p as int] == out@[p as int]@);
            assert(x == all[k as int]);
            assert(all.take(k + 1) =~= all.take(k as int).push(x));
            to_multiset_insert(before, p as int, x);
            vstd::seq_lib::to_multiset_build(all.take(k as int), x);
            to_multiset_insert(ps, p as int, x@);
            assert(string_seq_views(all.take(k + 1)) =~= string_seq_views(all.take(k as int)).push(x@));
            vstd::seq_lib::to_multiset_build(string_seq_views(all.take(k as int)), x@);
        }
        let ghost xv = x@;
        out.insert(p, x);
        proof {
            let after = string_seq_views(out@);
            assert(out@ =~= before.insert(p as int, x));
            assert(after =~= ps.insert(p as int, xv));
            assert forall|a: int, b: int| 0 <= a < b < after.len() implies !path_lt(
                #[trigger] after[b],
                #[trigger] after[a],
            ) by {
                if b < p {
                    assert(after[a] == ps[a] && after[b] == ps[b]);
                } else if b == p {
                    assert(after[a] == ps[a] && after[b] == x@);
                } else if a < p {
                    assert(after[a] == ps[a] && after[b] == ps[b - 1]);
                } else if a == p {
                    assert(after[a] == x@ && after[b] == ps[b - 1]);
                    lemma_path_order(ps[b - 1], x@, ps[p as int]);
                    lemma_path_order(ps[p as int], ps[p as int], ps[p as int]);
                } else {
                    assert(after[a] == ps[a - 1] && after[b] == ps[b - 1]);
                }
            }
        }
        k = k + 1;
    }
    assert(all.take(n as int) =~= all);
    out
}

/// The views of a list of strings.
pub open spec fn string_seq_views(v: Seq<String>) -> Seq<Seq<char>> {
    Seq::new(v.len(), |i: int| v[i]@)
}

// ---------------------------------------------------------------------------
// Literal search
// ---------------------------------------------------------------------------

/// A match as plain values: path, 1-based line number, line text.
pub open spec fn match_view(m: SearchMatch) -> (Seq<char>, int, Seq<char>) {
    (m.path@, m.line as int, m.text@)
}

/// The views of a list of matches.
pub open spec fn match_views(v: Seq<SearchMatch>) -> Seq<(Seq<char>, int, Seq<char>)> {
    Seq::new(v.len(), |i: int| match_view(v[i]))
}

/// The order of matches: by path, then line number, then text.
pub open spec fn match_lt(a: (Seq<char>, int, Seq<char>), b: (Seq<char>, int, Seq<char>)) -> bool {
    path_lt(a.0, b.0) || (a.0 == b.0 && (a.1 < b.1 || (a.1 == b.1 && seq_lt(a.2, b.2))))
}

/// `match_lt` is irreflexive and transitive.
pub proof fn lemma_match_order(
    a: (Seq<char>, int, Seq<char>),
    b: (Seq<char>, int, Seq<char>),
    c: (Seq<char>, int, Seq<char>),
)
    ensures
        !match_lt(a, a),
        match_lt(a, b) && match_lt(b, c) ==> match_lt(a, c),
{
    lemma_path_order(a.0, b.0, c.0);
    lemma_path_order(a.0, a.0, a.0);
    lemma_path_order(b.0, a.0, c.0);
    lemma_seq_lt_total(a.2, a.2);
    if match_lt(a, b) && match_lt(b, c) {
        if a.0 == b.0 && b.0 == c.0 && a.1 == b.1 && b.1 == c.1 {
            lemma_seq_lt_transitive(a.2, b.2, c.2);
        }
    }
}

/// Whether matches are in match order.
pub open spec fn matches_sorted(v: Seq<(Seq<char>, int, Seq<char>)>) -> bool {
    forall|i: int, j: int| 0 <= i < j < v.len() ==> !match_lt(#[trigger] v[j], #[trigger] v[i])
}

fn match_before(a: &SearchMatch, b: &SearchMatch) -> (r: bool)
    ensures
        r == match_lt(match_view(*a), match_view(*b)),
{
    if path_before(a.path.as_str(), b.path.as_str()) {
        return true;
    }
    let pa = chars_of(a.path.as_str());
    let pb = chars_of(b.path.as_str());
    if !chars_eq(pa.as_slice(), pb.as_slice()) {
        return false;
    }
    if a.line != b.line {
        return a.line < b.line;
    }
    let ta = chars_of(a.text.as_str());
    let tb = chars_of(b.text.as_str());
    chars_lt(ta.as_slice(), tb.as_slice())
}

/// Sorts matches into match order, keeping each one (insertion sort).
fn sort_matches(matches: Vec<SearchMatch>) -> (r: Vec<SearchMatch>)
    ensures
        match_views(r@).to_multiset() == match_views(matches@).to_multiset(),
        matches_sorted(match_views(r@)),
{
    let ghost all = match_views(matches@);
    let n = matches.len();
    let mut rest = reversed(matches);
    let mut out: Vec<SearchMatch> = Vec::new();
    let mut k: usize = 0;
    assert(all.take(0) =~= Seq::<(Seq<char>, int, Seq<char>)>::empty());
    assert(match_views(out@) =~= Seq::<(Seq<char>, int, Seq<char>)>::empty());
    while k < n
        invariant
            n == all.len(),
            k <= n,
            rest@.len() == n - k,
            forall|q: int| 0 <= q < rest@.len() ==> #[trigger] match_view(rest@[q]) == all[n - 1 - q],
            match_views(out@).to_multiset() == all.take(k as int).to_multiset(),
            matches_sorted(match_views(out@)),
        decreases n - k,
    {
        let x = rest.pop().unwrap();
        let ghost before = match_views(out@);
        let ghost xv = match_view(x);
        let mut p: usize = 0;
        while p < out.len() && !match_before(&x, &out[p])
            invariant
                p <= out@.len(),
                match_views(out@) == before,
                xv == match_view(x),
                forall|j: int| 0 <= j < p ==> !match_lt(xv, #[trigger] before[j]),
            decreases out@.len() - p,
        {
            assert(before[p as int] == match_view(out@[p as int]));
            p = p + 1;
        }
        proof {
            assert(p < out@.len() ==> before[p as int] == match_view(out@[p as int]));
            assert(xv == all[k as int]);
            assert(all.take(k + 1) =~= all.take(k as int).push(xv));
            to_multiset_insert(before, p as int, xv);
            vstd::seq_lib::to_multiset_build(all.take(k as int), xv);
        }
        out.insert(p, x);
        proof {
            let after = match_views(out@);
            assert(after =~= before.insert(p as int, xv));
            assert forall|a: int, b: int| 0 <= a < b < after.len() implies !match_lt(
                #[trigger] after[b],
                #[trigger] after[a],
            ) by {
                if b < p {
                    assert(after[a] == before[a] && after[b] == before[b]);
                } else if b == p {
                    assert(after[a] == before[a] && after[b] == xv);
                } else if a < p {
                    assert(after[a] == before[a] && after[b] == before[b - 1]);
                } else if a == p {
                    assert(after[a] == xv && after[b] == before[b - 1]);
                    lemma_match_order(before[b - 1], xv, before[p as int]);
                    lemma_match_order(before[p as int], before[p as int], before[p as int]);
                } else {
                    assert(after[a] == before[a - 1] && after[b] == before[b - 1]);
                }
            }
        }
        k = k + 1;
    }
    assert(all.take(n as int) =~= all);
    out
}

/// Whether a line matches a literal query, optionally ignoring case.
pub open spec fn line_matches(line: Seq<char>, q: Seq<char>, case_sensitive: bool) -> bool {
    if case_sensitive {
        contains_text(line, q)
    } else {
        contains_text(lowercase_of(line), lowercase_of(q))
    }
}

/// The literal query as a line predicate.
pub open spec fn literal_query(q: Seq<char>, case_sensitive: bool) -> spec_fn(Seq<char>) -> bool {
    |line: Seq<char>| line_matches(line, q, case_sensitive)
}

/// Whether a regular expression matches somewhere in a line.
pub open spec fn regex_query(pattern: Seq<char>, case_sensitive: bool) -> spec_fn(Seq<char>) -> bool {
    |line: Seq<char>| regex_find_ranges(pattern, !case_sensitive, line).len() > 0
}

/// The lines among the first `n` lines of a file that `pred` accepts.
pub open spec fn line_hits(
    path: Seq<char>,
    lines: Seq<Seq<char>>,
    n: nat,
    pred: spec_fn(Seq<char>) -> bool,
) -> Seq<(Seq<char>, int, Seq<char>)>
    decreases n,
{
    if n == 0 || n > lines.len() {
        Seq::empty()
    } else {
        let rest = line_hits(path, lines, (n - 1) as nat, pred);
        if pred(lines[n - 1]) {
            rest.push((path, n as int, lines[n - 1]))
        } else {
            rest
        }
    }
}

/// The lines of one file that `pred` accepts (none when it has no text).
pub open spec fn file_hits(f: IndexedFile, pred: spec_fn(Seq<char>) -> bool) -> Seq<
    (Seq<char>, int, Seq<char>),
> {
    match f.text {
        Some(t) => line_hits(f.path@, lines_of(t@), lines_of(t@).len(), pred),
        None => Seq::empty(),
    }
}

/// The lines of the files that `pred` accepts, file by file.
pub open spec fn grep_hits(files: Seq<IndexedFile>, pred: spec_fn(Seq<char>) -> bool) -> Seq<
    (Seq<char>, int, Seq<char>),
>
    decreases files.len(),
{
    if files.len() == 0 {
        Seq::empty()
    } else {
        grep_hits(files.drop_last(), pred) + file_hits(files.last(), pred)
    }
}

/// How a line is tested: a literal query (with its lower-case form), or a regular
/// expression that builds.
pub enum LineTest<'a> {
    Literal { query: &'a [char], lower: &'a [char], case_sensitive: bool },
    Regex { pattern: &'a str, case_insensitive: bool },
}

/// The predicate a line test stands for.
pub open spec fn test_pred(t: LineTest) -> spec_fn(Seq<char>) -> bool {
    match t {
        LineTest::Literal { query, case_sensitive, .. } => literal_query(query@, case_sensitive),
        LineTest::Regex { pattern, case_insensitive } => regex_query(pattern@, !case_insensitive),
    }
}

/// Whether a line test is usable: the lower-case form is right, the pattern builds.
pub open spec fn test_ok(t: LineTest) -> bool {
    match t {
        LineTest::Literal { query, lower, case_sensitive } => !case_sensitive ==> lower@
            == lowercase_of(query@),
        LineTest::Regex { pattern, case_insensitive } => regex_builds(pattern@, case_insensitive),
    }
}

fn line_passes(test: &LineTest, line: &[char]) -> (r: bool)
    requires
        test_ok(*test),
    ensures
        r == (test_pred(*test))(line@),
{
    match test {
        LineTest::Literal { query, lower, case_sensitive } => {
            if *case_sensitive {
                contains_chars(line, query)
            } else {
                let text_line = string_of(line);
                let low = to_lowercase(text_line.as_str());
                let low = chars_of(low.as_str());
                contains_chars(low.as_slice(), lower)
            }
        },
        LineTest::Regex { pattern, case_insensitive } => {
            let text_line = string_of(line);
            let found = regex_find(pattern, *case_insensitive, text_line.as_str());
            proof {
                assert(found@.map_values(|x: (usize, usize)| range_view(x)).len() == found@.len());
            }
            found.len() > 0
        },
    }
}

/// The lines of one file's text that pass a test, appended to `out`.
fn collect_matches(path: &str, text: &str, test: &LineTest, out: &mut Vec<SearchMatch>)
    requires
        test_ok(*test),
    ensures
        match_views(final(out)@) == match_views(old(out)@) + line_hits(
            path@,
            lines_of(text@),
            lines_of(text@).len(),
            test_pred(*test),
        ),
{
    let chars = chars_of(text);
    let lines = split_lines(chars.as_slice());
    let ghost ls = lines_of(text@);
    let ghost pred = test_pred(*test);
    let ghost start = match_views(out@);
    let mut j: usize = 0;
    assert(match_views(out@) =~= start + line_hits(path@, ls, 0, pred));
    while j < lines.len()
        invariant
            views_of(lines@) == ls,
            j <= lines@.len(),
            test_ok(*test),
            pred == test_pred(*test),
            match_views(out@) == start + line_hits(path@, ls, j as nat, pred),
        decreases lines@.len() - j,
    {
        let line = &lines[j];
        proof {
            assert(ls[j as int] == line@);
        }
        if line_passes(test, line.as_slice()) {
            let ghost before = out@;
            out.push(SearchMatch { path: path.to_string(), line: j + 1, text: string_of(line.as_slice()) });
            proof {
                assert(match_views(out@) =~= match_views(before).push((path@, j + 1, line@)));
            }
        }
        j = j + 1;
    }
}

// ---------------------------------------------------------------------------
// Reading a line range
// ---------------------------------------------------------------------------

/// `s` without leading `./` prefixes.
pub open spec fn strip_dot_slash(s: Seq<char>) -> Seq<char>
    decreases s.len(),
{
    if s.len() >= 2 && s[0] == '.' && s[1] == '/' {
        strip_dot_slash(s.subrange(2, s.len() as int))
    } else {
        s
    }
}

/// An indexed path as a query names it: `\` becomes `/`, leading `./` go.
pub open spec fn normalized_relative(path: Seq<char>) -> Seq<char> {
    strip_dot_slash(replace_char_spec(path, '\\', '/'))
}

/// An indexed path as a query names it.
pub fn normalize_relative(path: &str) -> (r: String)
    ensures
        r@ == normalized_relative(path@),
{
    let chars = chars_of(path);
    let replaced = replace_char(chars.as_slice(), '\\', '/');
    let mut start: usize = 0;
    assert(replaced@.subrange(0, replaced@.len() as int) =~= replaced@);
    while start < replaced.len() && replaced.len() - start >= 2 && replaced[start] == '.'
        && replaced[start + 1] == '/'
        invariant
            start <= replaced@.len(),
            strip_dot_slash(replaced@) == strip_dot_slash(replaced@.subrange(start as int, replaced@.len() as int)),
        decreases replaced@.len() - start,
    {
        proof {
            let s = replaced@.subrange(start as int, replaced@.len() as int);
            assert(s.subrange(2, s.len() as int) =~= replaced@.subrange(start + 2, replaced@.len() as int));
        }
        start = start + 2;
    }
    let rest = slice_chars(replaced.as_slice(), start, replaced.len());
    string_of(rest.as_slice())
}

/// The position of the first file with path `p`.
pub open spec fn first_file_with(files: Seq<IndexedFile>, p: Seq<char>) -> Option<int>
    decreases files.len(),
{
    if files.len() == 0 {
        None
    } else if files[0].path@ == p {
        Some(0)
    } else {
        match first_file_with(files.drop_first(), p) {
            Some(i) => Some(i + 1),
            None => None,
        }
    }
}

/// `first_file_with` finds the first match.
pub proof fn lemma_first_file_with(files: Seq<IndexedFile>, p: Seq<char>)
    ensures
        match first_file_with(files, p) {
            Some(i) => 0 <= i < files.len() && files[i].path@ == p && forall|j: int|
                0 <= j < i ==> (#[trigger] files[j]).path@ != p,
            None => forall|j: int| 0 <= j < files.len() ==> (#[trigger] files[j]).path@ != p,
        },
    decreases files.len(),
{
    if files.len() > 0 && files[0].path@ != p {
        let rest = files.drop_first();
        lemma_first_file_with(rest, p);
        match first_file_with(rest, p) {
            Some(i) => {
                assert(files[i + 1] == rest[i]);
                assert forall|j: int| 0 <= j < i + 1 implies (#[trigger] files[j]).path@ != p by {
                    if j > 0 {
                        assert(files[j] == rest[j - 1]);
                    }
                }
            },
            None => {
                assert forall|j: int| 0 <= j < files.len() implies (#[trigger] files[j]).path@ != p by {
                    if j > 0 {
                        assert(files[j] == rest[j - 1]);
                    }
                }
            },
        }
    }
}

/// The text of lines `start..=end` (1-based) of an indexed file, joined with `\n`, or the
/// message of the error the read is refused with.
pub open spec fn range_outcome(files: Seq<IndexedFile>, path: Seq<char>, start: usize, end: usize) -> Result<
    Seq<char>,
    Seq<char>,
> {
    let p = normalized_relative(path);
    if start == 0 || end == 0 {
        Err("line numbers must be 1-indexed"@)
    } else if end < start {
        Err("end_line must be greater than or equal to start_line"@)
    } else {
        match first_file_with(files, p) {
            None => Err("indexed file not found: "@ + p),
            Some(i) => match files[i].text {
                None => Err("file is not available as UTF-8 text: "@ + p),
                Some(t) => {
                    let ls = lines_of(t@);
                    if start > ls.len() || end > ls.len() {
                        Err("requested line range is out of bounds for file: "@ + p)
                    } else {
                        Ok(join_with(ls.subrange(start - 1, end as int), seq!['\n']))
                    }
                },
            },
        }
    }
}

// ---------------------------------------------------------------------------
// The indexer
// ---------------------------------------------------------------------------

/// The workspace index: the indexed files (with their text when UTF-8) and directories.
pub struct WorkspaceIndexer {
    workspace_root: String,
    files: Vec<IndexedFile>,
    directories: Vec<String>,
}

impl WorkspaceIndexer {
    /// The index is always in path order: its files and its directories.
    #[verifier::type_invariant]
    closed spec fn in_path_order(self) -> bool {
        &&& paths_sorted(file_paths(self.files@))
        &&& paths_sorted(string_seq_views(self.directories@))
    }

    /// The workspace root.
    pub closed spec fn root_view(&self) -> Seq<char> {
        self.workspace_root@
    }

    /// The indexed files.
    pub closed spec fn files_view(&self) -> Seq<IndexedFile> {
        self.files@
    }

    /// The indexed directories.
    pub closed spec fn directories_view(&self) -> Seq<String> {
        self.directories@
    }

    /// An empty index of a workspace.
    pub fn new(workspace_root: String) -> (s: Self)
        ensures
            s.root_view() == workspace_root@,
            s.files_view().len() == 0,
            s.directories_view().len() == 0,
    {
        let files: Vec<IndexedFile> = Vec::new();
        let directories: Vec<String> = Vec::new();
        assert(file_paths(files@) =~= Seq::<Seq<char>>::empty());
        assert(string_seq_views(directories@) =~= Seq::<Seq<char>>::empty());
        WorkspaceIndexer { workspace_root, files, directories }
    }

    /// The workspace root.
    pub fn workspace_root(&self) -> (r: &str)
        ensures
            r@ == self.root_view(),
    {
        self.workspace_root.as_str()
    }

    /// Replaces the index with the files and directories a scan found, each list put in
    /// path order, and counts them.
    pub fn rebuild(&mut self, files: Vec<IndexedFile>, directories: Vec<String>) -> (stats: IndexBuildStats)
        ensures
            final(self).root_view() == old(self).root_view(),
            final(self).files_view().to_multiset() == files@.to_multiset(),
            paths_sorted(file_paths(final(self).files_view())),
            final(self).directories_view().to_multiset() == directories@.to_multiset(),
            paths_sorted(string_seq_views(final(self).directories_view())),
            file_paths(files@).no_duplicates() ==> paths_strictly_sorted(
                file_paths(final(self).files_view()),
            ),
            string_seq_views(directories@).no_duplicates() ==> paths_strictly_sorted(
                string_seq_views(final(self).directories_view()),
            ),
            final(self).files_view().len() == files@.len(),
            final(self).directories_view().len() == directories@.len(),
            stats.indexed_files == files@.len(),
            stats.indexed_directories == directories@.len(),
            stats.indexed_text_files == text_file_count(final(self).files_view()),
    {
        proof {
            use_type_invariant(&*self);
        }
        let ghost files0 = files@;
        let ghost dirs0 = directories@;
        let files = sort_files(files);
        let directories = sort_paths(directories);
        proof {
            if file_paths(files0).no_duplicates() {
                lemma_no_duplicates_reordered(file_paths(files0), file_paths(files@));
                lemma_sorted_distinct_is_strict(file_paths(files@));
            }
            if string_seq_views(dirs0).no_duplicates() {
                lemma_no_duplicates_reordered(string_seq_views(dirs0), string_seq_views(directories@));
                lemma_sorted_distinct_is_strict(string_seq_views(directories@));
            }
        }
        proof {
            vstd::seq_lib::to_multiset_len(files@);
            vstd::seq_lib::to_multiset_len(directories@);
            vstd::seq_lib::to_multiset_len(files0);
            vstd::seq_lib::to_multiset_len(dirs0);
        }
        let mut text_files: usize = 0;
        let mut i: usize = 0;
        assert(files@.take(0) =~= Seq::<IndexedFile>::empty());
        while i < files.len()
            invariant
                i <= files@.len(),
                text_files == text_file_count(files@.take(i as int)),
                text_files <= i,
            decreases files@.len() - i,
        {
            proof {
                assert(files@.take(i + 1).drop_last() =~= files@.take(i as int));
            }
            if files[i].text.is_some() {
                text_files = text_files + 1;
            }
            i = i + 1;
        }
        assert(files@.take(files@.len() as int) =~= files@);
        let stats = IndexBuildStats {
            indexed_files: files.len(),
            indexed_directories: directories.len(),
            indexed_text_files: text_files,
        };
        self.files = files;
        self.directories = directories;
        stats
    }

    /// The indexed file paths, in index order.
    pub fn list_files(&self) -> (r: Vec<String>)
        ensures
            string_seq_views(r@) == file_paths(self.files_view()),
            paths_sorted(string_seq_views(r@)),
            file_paths(self.files_view()).no_duplicates() ==> paths_strictly_sorted(
                string_seq_views(r@),
            ),
    {
        proof {
            use_type_invariant(self);
        }
        let mut out: Vec<String> = Vec::new();
        let mut i: usize = 0;
        while i < self.files.len()
            invariant
                i <= self.files@.len(),
                out@.len() == i,
                forall|j: int| 0 <= j < i ==> (#[trigger] out@[j])@ == self.files@[j].path@,
            decreases self.files@.len() - i,
        {
            out.push(self.files[i].path.clone());
            i = i + 1;
        }
        assert(string_seq_views(out@) =~= file_paths(self.files@));
        proof {
            if file_paths(self.files@).no_duplicates() {
                lemma_sorted_distinct_is_strict(file_paths(self.files@));
            }
        }
        out
    }

    /// The indexed directory paths, in index order.
    pub fn list_directories(&self) -> (r: Vec<String>)
        ensures
            string_seq_views(r@) == string_seq_views(self.directories_view()),
            paths_sorted(string_seq_views(r@)),
            string_seq_views(self.directories_view()).no_duplicates() ==> paths_strictly_sorted(
                string_seq_views(r@),
            ),
    {
        proof {
            use_type_invariant(self);
        }
        let mut out: Vec<String> = Vec::new();
        let mut i: usize = 0;
        while i < self.directories.len()
            invariant
                i <= self.directories@.len(),
                out@.len() == i,
                forall|j: int| 0 <= j < i ==> (#[trigger] out@[j])@ == self.directories@[j]@,
            decreases self.directories@.len() - i,
        {
            out.push(self.directories[i].clone());
            i = i + 1;
        }
        assert(string_seq_views(out@) =~= string_seq_views(self.directories@));
        proof {
            if string_seq_views(self.directories@).no_duplicates() {
                lemma_sorted_distinct_is_strict(string_seq_views(self.directories@));
            }
        }
        out
    }

    /// The lines of indexed texts that contain `query` (ignoring case unless
    /// `case_sensitive`), in match order; none for an empty query.
    pub fn grep_literal(&self, query: &str, case_sensitive: bool) -> (r: Vec<SearchMatch>)
        ensures
            query@.len() == 0 ==> r@.len() == 0,
            query@.len() > 0 ==> match_views(r@).to_multiset() == grep_hits(
                self.files_view(),
                literal_query(query@, case_sensitive),
            ).to_multiset() && matches_sorted(match_views(r@)),
    {
        let q = chars_of(query);
        if q.len() == 0 {
            return Vec::new();
        }
        let lower = to_lowercase(query);
        let lower = chars_of(lower.as_str());
        let test = LineTest::Literal { query: q.as_slice(), lower: lower.as_slice(), case_sensitive };
        let found = self.collect_all(&test);
        sort_matches(found)
    }

    /// The lines of indexed texts that pass a test, file by file.
    fn collect_all(&self, test: &LineTest) -> (r: Vec<SearchMatch>)
        requires
            test_ok(*test),
        ensures
            match_views(r@) == grep_hits(self.files_view(), test_pred(*test)),
    {
        let ghost pred = test_pred(*test);
        let mut found: Vec<SearchMatch> = Vec::new();
        let mut i: usize = 0;
        assert(match_views(found@) =~= grep_hits(self.files@.take(0), pred));
        while i < self.files.len()
            invariant
                i <= self.files@.len(),
                test_ok(*test),
                pred == test_pred(*test),
                match_views(found@) == grep_hits(self.files@.take(i as int), pred),
            decreases self.files@.len() - i,
        {
            proof {
                assert(self.files@.take(i + 1).drop_last() =~= self.files@.take(i as int));
                assert(self.files@.take(i + 1).last() == self.files@[i as int]);
            }
            let file = &self.files[i];
            match &file.text {
                Some(text) => {
                    collect_matches(file.path.as_str(), text.as_str(), test, &mut found);
                },
                None => {
                    assert(match_views(found@) =~= match_views(found@) + Seq::<
                        (Seq<char>, int, Seq<char>),
                    >::empty());
                },
            }
            i = i + 1;
        }
        assert(self.files@.take(self.files@.len() as int) =~= self.files@);
        found
    }

    /// The lines of indexed texts that a regular expression matches (ignoring case unless
    /// `case_sensitive`), in match order; none for an empty pattern; a pattern that does not
    /// build is an error.
    pub fn search_regex(&self, pattern: &str, case_sensitive: bool) -> (r: Result<Vec<SearchMatch>, String>)
        ensures
            pattern@.len() == 0 ==> r is Ok && r->Ok_0@.len() == 0,
            pattern@.len() > 0 && !regex_builds(pattern@, !case_sensitive) ==> r is Err && r->Err_0@
                == "invalid regex pattern: "@ + pattern@,
            pattern@.len() > 0 && regex_builds(pattern@, !case_sensitive) ==> r is Ok && match_views(
                r->Ok_0@,
            ).to_multiset() == grep_hits(self.files_view(), regex_query(pattern@, case_sensitive)).to_multiset()
                && matches_sorted(match_views(r->Ok_0@)),
    {
        if pattern.is_empty() {
            return Ok(Vec::new());
        }
        if !regex_compiles(pattern, !case_sensitive) {
            return Err(concat2("invalid regex pattern: ", pattern));
        }
        let test = LineTest::Regex { pattern, case_insensitive: !case_sensitive };
        let found = self.collect_all(&test);
        Ok(sort_matches(found))
    }

    /// The text of lines `start_line..=end_line` (1-based) of an indexed file, joined with
    /// `\n`; the error message says why a read is refused.
    pub fn read_range(&self, path: &str, start_line: usize, end_line: usize) -> (r: Result<String, String>)
        ensures
            match range_outcome(self.files_view(), path@, start_line, end_line) {
                Ok(t) => r is Ok && r->Ok_0@ == t,
                Err(m) => r is Err && r->Err_0@ == m,
            },
    {
        if start_line == 0 || end_line == 0 {
            return Err("line numbers must be 1-indexed".to_string());
        }
        if end_line < start_line {
            return Err("end_line must be greater than or equal to start_line".to_string());
        }
        let normalized = normalize_relative(path);
        proof {
            lemma_first_file_with(self.files@, normalized@);
        }
        let mut i: usize = 0;
        while i < self.files.len()
            invariant
                i <= self.files@.len(),
                forall|j: int| 0 <= j < i ==> (#[trigger] self.files@[j]).path@ != normalized@,
            ensures
                i <= self.files@.len(),
                forall|j: int| 0 <= j < i ==> (#[trigger] self.files@[j]).path@ != normalized@,
                i < self.files@.len() ==> self.files@[i as int].path@ == normalized@,
            decreases self.files@.len() - i,
        {
            if str_eq(self.files[i].path.as_str(), normalized.as_str()) {
                break;
            }
            i = i + 1;
        }
        if i == self.files.len() {
            return Err(concat2("indexed file not found: ", normalized.as_str()));
        }
        proof {
            match first_file_with(self.files@, normalized@) {
                Some(k) => {
                    if k < i {
                        assert(self.files@[k].path@ != normalized@);
                    }
                    if k > i {
                        assert(self.files@[i as int].path@ != normalized@);
                    }
                },
                None => {
                    assert(self.files@[i as int].path@ != normalized@);
                },
            }
        }
        let text = match &self.files[i].text {
            Some(t) => t,
            None => {
                return Err(concat2("file is not available as UTF-8 text: ", normalized.as_str()));
            },
        };
        let chars = chars_of(text.as_str());
        let lines = split_lines(chars.as_slice());
        if start_line > lines.len() || end_line > lines.len() {
            return Err(
                concat2("requested line range is out of bounds for file: ", normalized.as_str()),
            );
        }
        let mut sep: Vec<char> = Vec::new();
        sep.push('\n');
        assert(sep@ =~= seq!['\n']);
        let joined = join_range(&lines, start_line - 1, end_line, sep.as_slice());
        Ok(string_of(joined.as_slice()))
    }
}

// ---------------------------------------------------------------------------
// Literal search laws
// ---------------------------------------------------------------------------

/// A line that is the query itself matches it, with or without case.
pub proof fn lemma_line_matches_itself(q: Seq<char>, case_sensitive: bool)
    ensures
        line_matches(q, q, case_sensitive),
{
    let t = if case_sensitive { q } else { lowercase_of(q) };
    assert(t.subrange(0, t.len() as int) =~= t);
    assert(crate::services::file_ops::occurs_at(t, t, 0));
}

/// Ignoring case, a line matches by the lower-case forms alone: lines with the same
/// lower-case form, and queries with the same lower-case form (such as `Alpha`, `alpha`
/// and `ALPHA`), give the same answer.
pub proof fn lemma_ignoring_case_reads_lower_forms(
    line1: Seq<char>,
    line2: Seq<char>,
    q1: Seq<char>,
    q2: Seq<char>,
)
    requires
        lowercase_of(line1) == lowercase_of(line2),
        lowercase_of(q1) == lowercase_of(q2),
    ensures
        line_matches(line1, q1, false) == line_matches(line2, q2, false),
{
}

/// Ignoring case, queries with the same lower-case form find the same hits in every
/// index.
pub proof fn lemma_ignoring_case_same_hits(files: Seq<IndexedFile>, q1: Seq<char>, q2: Seq<char>)
    requires
        lowercase_of(q1) == lowercase_of(q2),
    ensures
        grep_hits(files, literal_query(q1, false)) == grep_hits(files, literal_query(q2, false)),
{
    assert(literal_query(q1, false) =~= literal_query(q2, false));
}

} // verus!
