//! The index ignore policy: which patterns always apply, which apply by default, how the
//! verdicts of a chain of `.gitignore`-style matchers combine, and the walk over a path's
//! parent directories that decides whether the path is ignored.
//!
//! Compiling the patterns into matchers and reading `.alfredignore` files happen at the
//! caller, which runs the walk and hands in each matcher's verdict.

use vstd::prelude::*;

use crate::text::{
    chars_of, concat3, join_with, split_chars, split_on, string_of, trim_spec, trim_str, views_of,
};

verus! {

/// The name of a per-directory ignore file.
pub const ALFREDIGNORE_FILENAME: &'static str = ".alfredignore";

/// The patterns that always exclude a path from the index.
pub open spec fn always_excluded() -> Seq<Seq<char>> {
    seq![
        ".git/"@,
        ".alfred/"@,
        ".agents/"@,
        "*.a"@,
        "*.dll"@,
        "*.dylib"@,
        "*.exe"@,
        "*.lib"@,
        "*.o"@,
        "*.obj"@,
        "*.pdb"@,
        "*.rlib"@,
        "*.rmeta"@,
        "*.so"@,
        "*.wasm"@,
        "*.dSYM/"@,
        "*.7z"@,
        "*.bin"@,
        "*.bz2"@,
        "*.dmg"@,
        "*.gz"@,
        "*.iso"@,
        "*.rar"@,
        "*.tar"@,
        "*.tgz"@,
        "*.xz"@,
        "*.zip"@,
        "*.zst"@,
        "*.pdf"@,
        "*.bmp"@,
        "*.gif"@,
        "*.icns"@,
        "*.ico"@,
        "*.jpeg"@,
        "*.jpg"@,
        "*.png"@,
        "*.svg"@,
        "*.svgz"@,
        "*.tif"@,
        "*.tiff"@,
        "*.webp"@,
    ]
}

/// Patterns that always exclude a path from the index; no `.alfredignore` can
/// whitelist what they match.
pub fn always_excluded_patterns() -> (r: Vec<&'static str>)
    ensures
        r@.map_values(|p: &'static str| p@) == always_excluded(),
{
    let v = vec![
        ".git/",
        ".alfred/",
        ".agents/",
        "*.a",
        "*.dll",
        "*.dylib",
        "*.exe",
        "*.lib",
        "*.o",
        "*.obj",
        "*.pdb",
        "*.rlib",
        "*.rmeta",
        "*.so",
        "*.wasm",
        "*.dSYM/",
        "*.7z",
        "*.bin",
        "*.bz2",
        "*.dmg",
        "*.gz",
        "*.iso",
        "*.rar",
        "*.tar",
        "*.tgz",
        "*.xz",
        "*.zip",
        "*.zst",
        "*.pdf",
        "*.bmp",
        "*.gif",
        "*.icns",
        "*.ico",
        "*.jpeg",
        "*.jpg",
        "*.png",
        "*.svg",
        "*.svgz",
        "*.tif",
        "*.tiff",
        "*.webp",
    ];
    assert(v@.map_values(|p: &'static str| p@) =~= always_excluded());
    v
}

/// The patterns that apply by default, before any `.alfredignore` rule.
pub open spec fn default_ignored() -> Seq<Seq<char>> {
    seq![
        ".analyze/"@,
        "debug/"@,
        "mutants.out*/"@,
        "target/"@,
        "*.d"@,
        "**/*.rs.bk"@,
        "*.crate"@,
        "*.profraw"@,
        "*.profdata"@,
        "cargo-install-update-lock"@,
        "Cargo.lock"@,
        "Cargo.toml.orig"@,
        "crates-io-index/"@,
        "node_modules/"@,
        "npm-debug.log*"@,
        "yarn-debug.log*"@,
        "yarn-error.log*"@,
        "pnpm-debug.log*"@,
        ".pnp.*"@,
        ".yarn/"@,
        ".pnpm-store/"@,
        "dist/"@,
        "build/"@,
        ".next/"@,
        ".nuxt/"@,
        ".svelte-kit/"@,
        ".turbo/"@,
        "__pycache__/"@,
        "*.py[cod]"@,
        "*.pyo"@,
        ".venv/"@,
        "venv/"@,
        ".tox/"@,
        ".mypy_cache/"@,
        ".pytest_cache/"@,
        ".ruff_cache/"@,
        ".coverage"@,
        "coverage.xml"@,
        ".nox/"@,
        "*.egg-info/"@,
        ".eggs/"@,
        "pip-wheel-metadata/"@,
        "bin/"@,
        "obj/"@,
        ".vs/"@,
        "TestResults/"@,
        "packages/"@,
        ".gradle/"@,
        ".idea/"@,
        "*.iml"@,
        "vendor/"@,
        "*.test"@,
        "coverage.out"@,
        "_build/"@,
        "deps/"@,
        ".terraform/"@,
        "*.tfstate"@,
        "*.tfstate.*"@,
        "docs/design/README-MIS-*.md"@,
        "docs/design/MIS-*.md"@,
        "docs/design/MIS-*/**/*"@,
        "docs/design/aurora/MIS-*/Compact.json"@,
        ".env*"@,
        "!.env.example"@,
        "*.cert"@,
        "*.crt"@,
        "*.csr"@,
        "*.der"@,
        "*.jks"@,
        "*.key"@,
        "*.keystore"@,
        "*.p12"@,
        "*.pem"@,
        "*.pfx"@,
        "*.pvk"@,
        "config.json"@,
        "!config.default.json"@,
        "!config.example.json"@,
        "!config.schema.json"@,
        ".cache/"@,
        ".temp/"@,
        "temp/"@,
        "tmp/"@,
        "*.tmp"@,
        "*.orig"@,
        "*.rej"@,
        ".direnv/"@,
        "logs/"@,
        "*.log"@,
        "*-debug.log*"@,
        "*-error.log*"@,
        "report.[0-9]*.[0-9]*.[0-9]*.[0-9]*.json"@,
        ".nyc_output/"@,
        ".coverage/"@,
        "coverage/"@,
        "*.lcov"@,
        "test-results/"@,
        "pids/"@,
        "*.pid"@,
        "*.pid.lock"@,
        "*.seed"@,
        "*.diff"@,
        "*.patch"@,
        "*~"@,
        ".directory"@,
        ".fuse_hidden*"@,
        ".nfs*"@,
        ".Trash-*"@,
        "$RECYCLE.BIN/"@,
        "[Dd]esktop.ini"@,
        "ehthumbs.db"@,
        "ehthumbs_vista.db"@,
        "*.lnk"@,
        "*.stackdump"@,
        "Thumbs.db"@,
        "Thumbs.db:encryptable"@,
        "._*"@,
        ".apdisk"@,
        ".AppleDB"@,
        ".AppleDesktop"@,
        ".AppleDouble"@,
        ".com.apple.timemachine.donotpresent"@,
        ".DocumentRevisions-V100"@,
        ".DS_Store"@,
        ".fseventsd"@,
        ".LSOverride"@,
        ".Spotlight-V100"@,
        ".TemporaryItems"@,
        ".Trashes"@,
        ".VolumeIcon.icns"@,
        "Icon"@,
        "Network Trash Folder"@,
        "Temporary Items"@,
    ]
}

/// Patterns that apply by default, before the user's and the workspace's `.alfredignore`
/// rules, which can override them.
pub fn default_alfredignore_patterns() -> (r: Vec<&'static str>)
    ensures
        r@.map_values(|p: &'static str| p@) == default_ignored(),
{
    let v = vec![
        ".analyze/",
        "debug/",
        "mutants.out*/",
        "target/",
        "*.d",
        "**/*.rs.bk",
        "*.crate",
        "*.profraw",
        "*.profdata",
        "cargo-install-update-lock",
        "Cargo.lock",
        "Cargo.toml.orig",
        "crates-io-index/",
        "node_modules/",
        "npm-debug.log*",
        "yarn-debug.log*",
        "yarn-error.log*",
        "pnpm-debug.log*",
        ".pnp.*",
        ".yarn/",
        ".pnpm-store/",
        "dist/",
        "build/",
        ".next/",
        ".nuxt/",
        ".svelte-kit/",
        ".turbo/",
        "__pycache__/",
        "*.py[cod]",
        "*.pyo",
        ".venv/",
        "venv/",
        ".tox/",
        ".mypy_cache/",
        ".pytest_cache/",
        ".ruff_cache/",
        ".coverage",
        "coverage.xml",
        ".nox/",
        "*.egg-info/",
        ".eggs/",
        "pip-wheel-metadata/",
        "bin/",
        "obj/",
        ".vs/",
        "TestResults/",
        "packages/",
        ".gradle/",
        ".idea/",
        "*.iml",
        "vendor/",
        "*.test",
        "coverage.out",
        "_build/",
        "deps/",
        ".terraform/",
        "*.tfstate",
        "*.tfstate.*",
        "docs/design/README-MIS-*.md",
        "docs/design/MIS-*.md",
        "docs/design/MIS-*/**/*",
        "docs/design/aurora/MIS-*/Compact.json",
        ".env*",
        "!.env.example",
        "*.cert",
        "*.crt",
        "*.csr",
        "*.der",
        "*.jks",
        "*.key",
        "*.keystore",
        "*.p12",
        "*.pem",
        "*.pfx",
        "*.pvk",
        "config.json",
        "!config.default.json",
        "!config.example.json",
        "!config.schema.json",
        ".cache/",
        ".temp/",
        "temp/",
        "tmp/",
        "*.tmp",
        "*.orig",
        "*.rej",
        ".direnv/",
        "logs/",
        "*.log",
        "*-debug.log*",
        "*-error.log*",
        "report.[0-9]*.[0-9]*.[0-9]*.[0-9]*.json",
        ".nyc_output/",
        ".coverage/",
        "coverage/",
        "*.lcov",
        "test-results/",
        "pids/",
        "*.pid",
        "*.pid.lock",
        "*.seed",
        "*.diff",
        "*.patch",
        "*~",
        ".directory",
        ".fuse_hidden*",
        ".nfs*",
        ".Trash-*",
        "$RECYCLE.BIN/",
        "[Dd]esktop.ini",
        "ehthumbs.db",
        "ehthumbs_vista.db",
        "*.lnk",
        "*.stackdump",
        "Thumbs.db",
        "Thumbs.db:encryptable",
        "._*",
        ".apdisk",
        ".AppleDB",
        ".AppleDesktop",
        ".AppleDouble",
        ".com.apple.timemachine.donotpresent",
        ".DocumentRevisions-V100",
        ".DS_Store",
        ".fseventsd",
        ".LSOverride",
        ".Spotlight-V100",
        ".TemporaryItems",
        ".Trashes",
        ".VolumeIcon.icns",
        "Icon",
        "Network Trash Folder",
        "Temporary Items",
    ];
    assert(v@.map_values(|p: &'static str| p@) =~= default_ignored());
    v
}

/// What one matcher says of a path.
#[derive(Debug, Clone, Copy, PartialEq, Eq, Structural)]
pub enum IgnoreVerdict {
    /// A pattern ignores the path.
    Ignore,
    /// A negated pattern lets the path through.
    Whitelist,
    /// No pattern applies.
    Nothing,
}

/// The verdict of a chain: the last matcher that says anything decides; nothing ignores
/// by default.
pub open spec fn chain_ignores(verdicts: Seq<IgnoreVerdict>) -> bool
    decreases verdicts.len(),
{
    if verdicts.len() == 0 {
        false
    } else {
        match verdicts.last() {
            IgnoreVerdict::Ignore => true,
            IgnoreVerdict::Whitelist => false,
            IgnoreVerdict::Nothing => chain_ignores(verdicts.drop_last()),
        }
    }
}

/// Whether a chain of matchers ignores a path, given each one's verdict in chain order.
pub fn is_ignored_by_chain(verdicts: &Vec<IgnoreVerdict>) -> (r: bool)
    ensures
        r == chain_ignores(verdicts@),
{
    let mut last: Option<bool> = None;
    let mut i: usize = 0;
    while i < verdicts.len()
        invariant
            i <= verdicts@.len(),
            match last {
                Some(b) => chain_ignores(verdicts@.take(i as int)) == b,
                None => !chain_ignores(verdicts@.take(i as int)),
            },
            last is None ==> forall|j: int| 0 <= j < i ==> verdicts@[j] == IgnoreVerdict::Nothing,
        decreases verdicts@.len() - i,
    {
        proof {
            assert(verdicts@.take(i + 1).drop_last() =~= verdicts@.take(i as int));
            assert(verdicts@.take(i + 1).last() == verdicts@[i as int]);
        }
        match verdicts[i] {
            IgnoreVerdict::Ignore => last = Some(true),
            IgnoreVerdict::Whitelist => last = Some(false),
            IgnoreVerdict::Nothing => {},
        }
        i = i + 1;
    }
    assert(verdicts@.take(verdicts@.len() as int) =~= verdicts@);
    match last {
        Some(b) => b,
        None => false,
    }
}

/// Whether a segment is non-empty.
pub open spec fn non_empty_segment() -> spec_fn(Seq<char>) -> bool {
    |s: Seq<char>| s.len() > 0
}

/// The non-empty segments of a `/`-separated path.
pub open spec fn path_segments(path: Seq<char>) -> Seq<Seq<char>> {
    split_on(path, '/').filter(non_empty_segment())
}

/// The non-empty segments of a `/`-separated path, in order.
pub fn split_segments(relative_path: &str) -> (r: Vec<String>)
    ensures
        r@.len() == path_segments(relative_path@).len(),
        forall|i: int| 0 <= i < r@.len() ==> (#[trigger] r@[i])@ == path_segments(relative_path@)[i],
{
    let chars = chars_of(relative_path);
    let pieces = split_chars(chars.as_slice(), '/');
    let ghost all = views_of(pieces@);
    let mut out: Vec<String> = Vec::new();
    let mut i: usize = 0;
    assert(all.take(0).filter(non_empty_segment()) =~= Seq::<Seq<char>>::empty()) by {
        reveal(Seq::filter);
    }
    while i < pieces.len()
        invariant
            all == views_of(pieces@),
            all == split_on(relative_path@, '/'),
            i <= pieces@.len(),
            out@.len() == all.take(i as int).filter(non_empty_segment()).len(),
            forall|k: int|
                0 <= k < out@.len() ==> (#[trigger] out@[k])@ == all.take(i as int).filter(
                    non_empty_segment(),
                )[k],
        decreases pieces@.len() - i,
    {
        let ghost before = out@;
        let ghost f0 = all.take(i as int).filter(non_empty_segment());
        let ghost t = all.take(i + 1);
        proof {
            reveal(Seq::filter);
            assert(t.drop_last() =~= all.take(i as int));
            assert(t.last() == pieces@[i as int]@);
            assert(all[i as int] == pieces@[i as int]@);
        }
        if pieces[i].len() > 0 {
            out.push(string_of(pieces[i].as_slice()));
            proof {
                assert(t.filter(non_empty_segment()) == f0.push(pieces@[i as int]@));
                assert forall|k: int| 0 <= k < out@.len() implies (#[trigger] out@[k])@ == t.filter(
                    non_empty_segment(),
                )[k] by {
                    if k < before.len() {
                        assert(out@[k] == before[k]);
                    }
                }
            }
        } else {
            proof {
                assert(t.filter(non_empty_segment()) == f0);
            }
        }
        i = i + 1;
    }
    assert(all.take(pieces@.len() as int) =~= all);
    out
}

/// How many leading segments name directories to check: all of them for a directory,
/// all but the last for a file.
pub open spec fn directories_to_check(segments: int, is_dir: bool) -> int {
    if is_dir {
        segments
    } else if segments > 0 {
        segments - 1
    } else {
        0
    }
}

/// How many leading segments name directories to check.
pub fn directory_segment_count(segments: usize, is_dir: bool) -> (r: usize)
    ensures
        r == directories_to_check(segments as int, is_dir),
{
    if is_dir {
        segments
    } else {
        segments.saturating_sub(1)
    }
}

/// A path that is empty once trimmed; such a path is never ignored.
pub fn is_blank_path(relative_path: &str) -> (r: bool)
    ensures
        r == (trim_spec(relative_path@).len() == 0),
{
    let trimmed = trim_str(relative_path);
    chars_of(trimmed.as_str()).len() == 0
}

/// What the walk over a path's parent directories does next.
#[derive(Debug, Clone, Copy, PartialEq, Eq, Structural)]
pub enum IgnoreWalkStep {
    /// Check the directory made of the first `n` segments against the chain, then add that
    /// directory's `.alfredignore` to the chain.
    CheckDirectory(usize),
    /// Check the path itself against the chain.
    CheckPath,
    /// The path is ignored, or not.
    Decided(bool),
}

/// The next step of the walk, once the always-excluded patterns have let the path
/// through: `checked` leading directories were found not ignored before the last check,
/// whose verdict is `last_ignored`. A path without segments is not ignored; the first
/// ignored parent directory decides; a directory whose parents all pass is not ignored; a
/// file then goes by the verdict on itself.
pub fn ignore_walk_step(segment_count: usize, is_dir: bool, checked: usize, last_ignored: bool) -> (r:
    IgnoreWalkStep)
    requires
        checked <= directories_to_check(segment_count as int, is_dir),
    ensures
        r == if segment_count == 0 {
            IgnoreWalkStep::Decided(false)
        } else if last_ignored {
            IgnoreWalkStep::Decided(true)
        } else if checked < directories_to_check(segment_count as int, is_dir) {
            IgnoreWalkStep::CheckDirectory((checked + 1) as usize)
        } else if is_dir {
            IgnoreWalkStep::Decided(false)
        } else {
            IgnoreWalkStep::CheckPath
        },
{
    if segment_count == 0 {
        IgnoreWalkStep::Decided(false)
    } else if last_ignored {
        IgnoreWalkStep::Decided(true)
    } else if checked < directory_segment_count(segment_count, is_dir) {
        IgnoreWalkStep::CheckDirectory(checked + 1)
    } else if is_dir {
        IgnoreWalkStep::Decided(false)
    } else {
        IgnoreWalkStep::CheckPath
    }
}

// ---------------------------------------------------------------------------
// Gitignore matching
// ---------------------------------------------------------------------------

/// The lines of a list of strings.
pub open spec fn lines_view(lines: Seq<String>) -> Seq<Seq<char>> {
    lines.map_values(|l: String| l@)
}

/// What `ignore::gitignore::Gitignore::matched(path, is_dir)` says of `path` for the
/// matcher that `GitignoreBuilder::new(root)` builds from `lines` (each added with
/// `add_line`; a line that does not parse is skipped, and a matcher that does not build
/// says nothing).
pub uninterp spec fn gitignore_verdict(
    root: Seq<char>,
    lines: Seq<Seq<char>>,
    path: Seq<char>,
    is_dir: bool,
) -> IgnoreVerdict;

/// Whether `Gitignore::matched_path_or_any_parents(path, is_dir).is_ignore()` holds for
/// the matcher built from `lines` at `root`, as for `gitignore_verdict`.
pub uninterp spec fn gitignore_parents_ignored(
    root: Seq<char>,
    lines: Seq<Seq<char>>,
    path: Seq<char>,
    is_dir: bool,
) -> bool;

/// `GitignoreBuilder::new(root)`, `add_line(None, line)` for each line (skipping the lines
/// it refuses), `build()`, then `Gitignore::matched(path, is_dir)`; a matcher that does not
/// build gives no verdict. The verdict is named by `gitignore_verdict`.
#[verifier::external_body]
pub(crate) fn gitignore_match(root: &str, lines: &Vec<String>, path: &str, is_dir: bool) -> (r:
    IgnoreVerdict)
    ensures
        r == gitignore_verdict(root@, lines_view(lines@), path@, is_dir),
{
    let mut builder = ignore::gitignore::GitignoreBuilder::new(root);
    for line in lines {
        let _ = builder.add_line(None, line);
    }
    match builder.build() {
        Ok(m) => match m.matched(path, is_dir) {
            ignore::Match::Ignore(_) => IgnoreVerdict::Ignore,
            ignore::Match::Whitelist(_) => IgnoreVerdict::Whitelist,
            ignore::Match::None => IgnoreVerdict::Nothing,
        },
        Err(_) => IgnoreVerdict::Nothing,
    }
}

/// Whether `path` is `root`, `/`, and a text that does not start with `/`: a path under
/// the root, which `matched_path_or_any_parents` requires (it panics on a path that is
/// left with a root once the matcher's root is stripped).
pub open spec fn under_root(root: Seq<char>, path: Seq<char>) -> bool {
    &&& path.len() >= root.len() + 1
    &&& path.take(root.len() as int) == root
    &&& path[root.len() as int] == '/'
    &&& !(path.len() > root.len() + 1 && path[root.len() as int + 1] == '/')
}

/// As `gitignore_match`, with `Gitignore::matched_path_or_any_parents(path, is_dir)
/// .is_ignore()`: whether the path or one of its parents up to the root is ignored. Named
/// by `gitignore_parents_ignored`.
#[verifier::external_body]
pub(crate) fn gitignore_match_any_parent(root: &str, lines: &Vec<String>, path: &str, is_dir: bool) -> (r:
    bool)
    requires
        under_root(root@, path@),
    ensures
        r == gitignore_parents_ignored(root@, lines_view(lines@), path@, is_dir),
{
    let mut builder = ignore::gitignore::GitignoreBuilder::new(root);
    for line in lines {
        let _ = builder.add_line(None, line);
    }
    match builder.build() {
        Ok(m) => m.matched_path_or_any_parents(path, is_dir).is_ignore(),
        Err(_) => false,
    }
}

/// An ignore matcher as text: its root directory and its pattern lines.
pub struct IgnoreSource {
    pub root: String,
    pub lines: Vec<String>,
}

/// The path of the directory made of the first `k` segments.
pub open spec fn dir_path(root: Seq<char>, segs: Seq<Seq<char>>, k: int) -> Seq<char> {
    root + seq!['/'] + join_with(segs.take(k), seq!['/'])
}

/// The verdicts on `path` of the chain: the base matchers, then the `.alfredignore` of each
/// of the first `k` directories of the path.
pub open spec fn chain_verdicts(
    root: Seq<char>,
    base: Seq<IgnoreSource>,
    dir_files: Seq<Vec<String>>,
    segs: Seq<Seq<char>>,
    k: int,
    path: Seq<char>,
    is_dir: bool,
) -> Seq<IgnoreVerdict> {
    Seq::new(
        base.len(),
        |i: int| gitignore_verdict(base[i].root@, lines_view(base[i].lines@), path, is_dir),
    ) + Seq::new(
        k as nat,
        |j: int| gitignore_verdict(dir_path(root, segs, j + 1), lines_view(dir_files[j]@), path, is_dir),
    )
}

/// Whether the `k+1`-th directory of the path is ignored by the chain before it.
pub open spec fn dir_ignored(
    root: Seq<char>,
    base: Seq<IgnoreSource>,
    dir_files: Seq<Vec<String>>,
    segs: Seq<Seq<char>>,
    k: int,
) -> bool {
    chain_ignores(chain_verdicts(root, base, dir_files, segs, k, dir_path(root, segs, k + 1), true))
}

/// Whether the index ignores `rel` (a directory when `is_dir`) in the workspace at `root`:
/// a blank path never; the always-excluded patterns decide first and cannot be overridden;
/// then each parent directory in order, checked against the base matchers and the
/// `.alfredignore` files of the directories above it, ignores the path when ignored; a
/// directory whose parents pass is kept; a file goes by the full chain's verdict on itself.
pub open spec fn ignore_outcome(
    root: Seq<char>,
    always: Seq<Seq<char>>,
    base: Seq<IgnoreSource>,
    dir_files: Seq<Vec<String>>,
    rel: Seq<char>,
    is_dir: bool,
) -> bool {
    let segs = path_segments(rel);
    let d = directories_to_check(segs.len() as int, is_dir);
    if trim_spec(rel).len() == 0 {
        false
    } else if gitignore_parents_ignored(root, always, root + seq!['/'] + rel, is_dir) {
        true
    } else if segs.len() == 0 {
        false
    } else if exists|k: int| 0 <= k < d && #[trigger] dir_ignored(root, base, dir_files, segs, k) {
        true
    } else if is_dir {
        false
    } else {
        chain_ignores(chain_verdicts(root, base, dir_files, segs, d, root + seq!['/'] + rel, false))
    }
}

/// The verdicts of the chain on `path`: the base matchers, then the first `k` directory
/// files, whose roots are `dirs`.
fn verdicts_on(
    base: &Vec<IgnoreSource>,
    dir_files: &Vec<Vec<String>>,
    dirs: &Vec<String>,
    k: usize,
    path: &str,
    is_dir: bool,
    Ghost(root): Ghost<Seq<char>>,
    Ghost(segs): Ghost<Seq<Seq<char>>>,
) -> (r: Vec<IgnoreVerdict>)
    requires
        k <= dirs@.len(),
        k <= dir_files@.len(),
        forall|j: int| 0 <= j < dirs@.len() ==> #[trigger] dirs@[j]@ == dir_path(root, segs, j + 1),
    ensures
        r@ == chain_verdicts(root, base@, dir_files@, segs, k as int, path@, is_dir),
{
    let mut out: Vec<IgnoreVerdict> = Vec::new();
    let mut i: usize = 0;
    while i < base.len()
        invariant
            i <= base@.len(),
            out@ =~= Seq::new(
                i as nat,
                |x: int| gitignore_verdict(base@[x].root@, lines_view(base@[x].lines@), path@, is_dir),
            ),
        decreases base@.len() - i,
    {
        out.push(gitignore_match(base[i].root.as_str(), &base[i].lines, path, is_dir));
        i = i + 1;
    }
    let ghost head = out@;
    let mut j: usize = 0;
    while j < k
        invariant
            j <= k,
            k <= dirs@.len(),
            k <= dir_files@.len(),
            forall|x: int| 0 <= x < dirs@.len() ==> #[trigger] dirs@[x]@ == dir_path(root, segs, x + 1),
            out@ =~= head + Seq::new(
                j as nat,
                |x: int| gitignore_verdict(dir_path(root, segs, x + 1), lines_view(dir_files@[x]@), path@, is_dir),
            ),
        decreases k - j,
    {
        assert(dirs@[j as int]@ == dir_path(root, segs, j + 1));
        out.push(gitignore_match(dirs[j].as_str(), &dir_files[j], path, is_dir));
        j = j + 1;
    }
    out
}

/// Whether the index ignores the workspace-relative path `rel`, given the always-excluded
/// patterns, the base matchers of the chain (the defaults with the user's patterns, the
/// relocated workspace file, the root `.alfredignore`) and the lines of the
/// `.alfredignore` of each directory of the path (empty where there is none).
pub fn should_ignore_relative(
    root: &str,
    always: &Vec<String>,
    base: &Vec<IgnoreSource>,
    dir_files: &Vec<Vec<String>>,
    rel: &str,
    is_dir: bool,
) -> (r: bool)
    requires
        !(rel@.len() > 0 && rel@[0] == '/'),
        dir_files@.len() >= directories_to_check(path_segments(rel@).len() as int, is_dir),
    ensures
        r == ignore_outcome(root@, lines_view(always@), base@, dir_files@, rel@, is_dir),
{
    proof {
        reveal_strlit("/");
    }
    if is_blank_path(rel) {
        return false;
    }
    let abs = concat3(root, "/", rel);
    assert(abs@ =~= root@ + seq!['/'] + rel@);
    assert(abs@.take(root@.len() as int) =~= root@);
    if gitignore_match_any_parent(root, always, abs.as_str(), is_dir) {
        return true;
    }
    let segs = split_segments(rel);
    let ghost sv = path_segments(rel@);
    assert(lines_view(segs@) =~= sv);
    if segs.len() == 0 {
        return false;
    }
    let d = directory_segment_count(segs.len(), is_dir);
    let mut dirs: Vec<String> = Vec::new();
    let mut k: usize = 0;
    while k < d
        invariant
            "/"@ == seq!['/'],
            trim_spec(rel@).len() != 0,
            !gitignore_parents_ignored(root@, lines_view(always@), root@ + seq!['/'] + rel@, is_dir),
            sv == path_segments(rel@),
            sv.len() > 0,
            k <= d,
            d == directories_to_check(sv.len() as int, is_dir),
            d <= segs@.len(),
            segs@.len() == sv.len(),
            lines_view(segs@) == sv,
            dir_files@.len() >= d,
            dirs@.len() == k,
            forall|j: int| 0 <= j < dirs@.len() ==> #[trigger] dirs@[j]@ == dir_path(root@, sv, j + 1),
            forall|j: int| 0 <= j < k ==> !#[trigger] dir_ignored(root@, base@, dir_files@, sv, j),
        decreases d - k,
    {
        let dir = if k == 0 {
            concat3(root, "/", segs[0].as_str())
        } else {
            concat3(dirs[k - 1].as_str(), "/", segs[k].as_str())
        };
        proof {
            assert(segs@[k as int]@ == sv[k as int]);
            let t = sv.take(k + 1);
            if k == 0 {
                assert(t =~= seq![sv[0]]);
                assert(join_with(t, seq!['/']) == sv[0]);
            } else {
                assert(t.drop_last() =~= sv.take(k as int));
                assert(t.last() == sv[k as int]);
            }
            assert(dir@ =~= dir_path(root@, sv, k + 1));
        }
        dirs.push(dir);
        let verdicts = verdicts_on(base, dir_files, &dirs, k, dirs[k].as_str(), true, Ghost(root@), Ghost(sv));
        if is_ignored_by_chain(&verdicts) {
            assert(dir_ignored(root@, base@, dir_files@, sv, k as int));
            return true;
        }
        k = k + 1;
    }
    assert(!exists|x: int| 0 <= x < d && #[trigger] dir_ignored(root@, base@, dir_files@, sv, x));
    if is_dir {
        return false;
    }
    let verdicts = verdicts_on(base, dir_files, &dirs, d, abs.as_str(), false, Ghost(root@), Ghost(sv));
    is_ignored_by_chain(&verdicts)
}

/// The always-excluded patterns win: a path they ignore (or whose parent they ignore) is
/// ignored whatever the user, relocated and per-directory ignore files say, whitelist
/// lines included; and a blank path is never ignored.
pub proof fn lemma_always_excluded_wins(
    root: Seq<char>,
    always: Seq<Seq<char>>,
    base: Seq<IgnoreSource>,
    dir_files: Seq<Vec<String>>,
    rel: Seq<char>,
    is_dir: bool,
)
    ensures
        trim_spec(rel).len() > 0 && gitignore_parents_ignored(root, always, root + seq!['/'] + rel, is_dir)
            ==> ignore_outcome(root, always, base, dir_files, rel, is_dir),
        trim_spec(rel).len() == 0 ==> !ignore_outcome(root, always, base, dir_files, rel, is_dir),
{
}

/// The index never takes the workspace's own state, version control, agent files, or
/// binary files: `.git/`, `.alfred/`, `.agents/`, `*.dSYM/` and every file with one of
/// the binary extensions (executables and libraries, archives, PDF and images) are among
/// the always-excluded patterns, which no `.alfredignore` can override
/// (`lemma_always_excluded_wins`).
pub proof fn lemma_always_excluded_covers_binaries()
    ensures
        always_excluded().contains(".git/"@),
        always_excluded().contains(".alfred/"@),
        always_excluded().contains(".agents/"@),
        always_excluded().contains("*.dSYM/"@),
        always_excluded().contains("*.a"@),
        always_excluded().contains("*.dll"@),
        always_excluded().contains("*.dylib"@),
        always_excluded().contains("*.exe"@),
        always_excluded().contains("*.lib"@),
        always_excluded().contains("*.o"@),
        always_excluded().contains("*.obj"@),
        always_excluded().contains("*.pdb"@),
        always_excluded().contains("*.rlib"@),
        always_excluded().contains("*.rmeta"@),
        always_excluded().contains("*.so"@),
        always_excluded().contains("*.wasm"@),
        always_excluded().contains("*.7z"@),
        always_excluded().contains("*.bin"@),
        always_excluded().contains("*.bz2"@),
        always_excluded().contains("*.dmg"@),
        always_excluded().contains("*.gz"@),
        always_excluded().contains("*.iso"@),
        always_excluded().contains("*.rar"@),
        always_excluded().contains("*.tar"@),
        always_excluded().contains("*.tgz"@),
        always_excluded().contains("*.xz"@),
        always_excluded().contains("*.zip"@),
        always_excluded().contains("*.zst"@),
        always_excluded().contains("*.pdf"@),
        always_excluded().contains("*.bmp"@),
        always_excluded().contains("*.gif"@),
        always_excluded().contains("*.icns"@),
        always_excluded().contains("*.ico"@),
        always_excluded().contains("*.jpeg"@),
        always_excluded().contains("*.jpg"@),
        always_excluded().contains("*.png"@),
        always_excluded().contains("*.svg"@),
        always_excluded().contains("*.svgz"@),
        always_excluded().contains("*.tif"@),
        always_excluded().contains("*.tiff"@),
        always_excluded().contains("*.webp"@),
{
    reveal_strlit(".git/");
    reveal_strlit(".alfred/");
    reveal_strlit(".agents/");
    reveal_strlit("*.dSYM/");
    reveal_strlit("*.a");
    reveal_strlit("*.dll");
    reveal_strlit("*.dylib");
    reveal_strlit("*.exe");
    reveal_strlit("*.lib");
    reveal_strlit("*.o");
    reveal_strlit("*.obj");
    reveal_strlit("*.pdb");
    reveal_strlit("*.rlib");
    reveal_strlit("*.rmeta");
    reveal_strlit("*.so");
    reveal_strlit("*.wasm");
    reveal_strlit("*.7z");
    reveal_strlit("*.bin");
    reveal_strlit("*.bz2");
    reveal_strlit("*.dmg");
    reveal_strlit("*.gz");
    reveal_strlit("*.iso");
    reveal_strlit("*.rar");
    reveal_strlit("*.tar");
    reveal_strlit("*.tgz");
    reveal_strlit("*.xz");
    reveal_strlit("*.zip");
    reveal_strlit("*.zst");
    reveal_strlit("*.pdf");
    reveal_strlit("*.bmp");
    reveal_strlit("*.gif");
    reveal_strlit("*.icns");
    reveal_strlit("*.ico");
    reveal_strlit("*.jpeg");
    reveal_strlit("*.jpg");
    reveal_strlit("*.png");
    reveal_strlit("*.svg");
    reveal_strlit("*.svgz");
    reveal_strlit("*.tif");
    reveal_strlit("*.tiff");
    reveal_strlit("*.webp");
    let a = always_excluded();

}

} // verus!
