//! Which file changes are worth a review.
use vstd::prelude::*;

use crate::auto_review::excerpt;
use crate::auto_review::normalize;
use crate::path;
use crate::path::case;
use crate::path::prefix::System;
use crate::text;

verus! {

/// Whether a path, in lower case, leads through a directory that holds no code of the project's
/// own.
pub open spec fn in_ignored_dir(lower: Seq<char>) -> bool {
    ||| text::has_text(lower, "/node_modules/"@)
    ||| text::has_text(lower, "/target/"@)
    ||| text::has_text(lower, "/dist/"@)
    ||| text::has_text(lower, "/build/"@)
    ||| text::has_text(lower, "/coverage/"@)
    ||| text::has_text(lower, "/vendor/"@)
    ||| text::has_text(lower, "/.git/"@)
}

/// Whether a path, in lower case, leads through a directory that holds no code of the project's
/// own.
fn leads_through_ignored_dir(lower: &str) -> (yes: bool)
    ensures
        yes == in_ignored_dir(lower@),
{
    text::contains_text(lower, "/node_modules/")
        || text::contains_text(lower, "/target/")
        || text::contains_text(lower, "/dist/")
        || text::contains_text(lower, "/build/")
        || text::contains_text(lower, "/coverage/")
        || text::contains_text(lower, "/vendor/")
        || text::contains_text(lower, "/.git/")
}

/// Whether a path, in lower case, is that of a lock file.
pub open spec fn lock_file(lower: Seq<char>) -> bool {
    ||| "cargo.lock"@.is_suffix_of(lower)
    ||| "package-lock.json"@.is_suffix_of(lower)
    ||| "pnpm-lock.yaml"@.is_suffix_of(lower)
    ||| "yarn.lock"@.is_suffix_of(lower)
}

/// Whether a path, in lower case, is that of a lock file.
fn is_lock_file(lower: &str) -> (yes: bool)
    ensures
        yes == lock_file(lower@),
{
    text::ends_with(lower, "cargo.lock")
        || text::ends_with(lower, "package-lock.json")
        || text::ends_with(lower, "pnpm-lock.yaml")
        || text::ends_with(lower, "yarn.lock")
}

/// Whether a file name, in lower case, is that of a build file.
pub open spec fn build_file(name: Seq<char>) -> bool {
    ||| name == "dockerfile"@
    ||| name == "makefile"@
    ||| name == "justfile"@
    ||| name == "cargo.toml"@
    ||| name == "package.json"@
    ||| name == "composer.json"@
}

/// Whether a file name, in lower case, is that of a build file.
fn is_build_file(name: &str) -> (yes: bool)
    ensures
        yes == build_file(name@),
{
    text::same_text(name, "dockerfile")
        || text::same_text(name, "makefile")
        || text::same_text(name, "justfile")
        || text::same_text(name, "cargo.toml")
        || text::same_text(name, "package.json")
        || text::same_text(name, "composer.json")
}

/// Whether a file name extension, in lower case, is that of code that can be run.
pub open spec fn code_extension(ext: Seq<char>) -> bool {
    ||| ext == "rs"@
    ||| ext == "ts"@
    ||| ext == "tsx"@
    ||| ext == "js"@
    ||| ext == "jsx"@
    ||| ext == "mjs"@
    ||| ext == "cjs"@
    ||| ext == "py"@
    ||| ext == "php"@
    ||| ext == "go"@
    ||| ext == "java"@
    ||| ext == "kt"@
    ||| ext == "kts"@
    ||| ext == "swift"@
    ||| ext == "rb"@
    ||| ext == "sh"@
    ||| ext == "ps1"@
    ||| ext == "sql"@
    ||| ext == "toml"@
    ||| ext == "yml"@
    ||| ext == "yaml"@
}

/// Whether a file name extension, in lower case, is that of code that can be run.
fn is_code_extension(ext: &str) -> (yes: bool)
    ensures
        yes == code_extension(ext@),
{
    text::same_text(ext, "rs")
        || text::same_text(ext, "ts")
        || text::same_text(ext, "tsx")
        || text::same_text(ext, "js")
        || text::same_text(ext, "jsx")
        || text::same_text(ext, "mjs")
        || text::same_text(ext, "cjs")
        || text::same_text(ext, "py")
        || text::same_text(ext, "php")
        || text::same_text(ext, "go")
        || text::same_text(ext, "java")
        || text::same_text(ext, "kt")
        || text::same_text(ext, "kts")
        || text::same_text(ext, "swift")
        || text::same_text(ext, "rb")
        || text::same_text(ext, "sh")
        || text::same_text(ext, "ps1")
        || text::same_text(ext, "sql")
        || text::same_text(ext, "toml")
        || text::same_text(ext, "yml")
        || text::same_text(ext, "yaml")
}

/// Whether a file name extension, in lower case, is that of a page or a style sheet.
pub open spec fn page_extension(ext: Seq<char>) -> bool {
    ||| ext == "css"@
    ||| ext == "scss"@
    ||| ext == "html"@
    ||| ext == "htm"@
}

/// Whether a file name extension, in lower case, is that of a page or a style sheet.
fn is_page_extension(ext: &str) -> (yes: bool)
    ensures
        yes == page_extension(ext@),
{
    text::same_text(ext, "css")
        || text::same_text(ext, "scss")
        || text::same_text(ext, "html")
        || text::same_text(ext, "htm")
}

/// A path in lower case, with `/` for every separator.
pub open spec fn folded(path: Seq<char>) -> Seq<char> {
    text::ascii_lower(text::with_replaced(path, '\\', '/'))
}

/// The file name of a path in lower case; empty if the path has none.
pub open spec fn folded_name(path: Seq<char>, system: System) -> Seq<char> {
    match path::name_of(path, system) {
        Some(name) => text::ascii_lower(name),
        None => seq![],
    }
}

/// Whether the file at a path is one that runs: a build file or code.
pub open spec fn executable_path(path: Seq<char>, system: System) -> bool {
    ||| build_file(folded_name(path, system))
    ||| (path::extension_of(path, system) matches Some(ext) && code_extension(
        text::ascii_lower(ext),
    ))
}

/// Whether a change of the file at a path is worth a review.
pub open spec fn reviewable_path(path: Seq<char>, system: System) -> bool {
    &&& !in_ignored_dir(folded(path))
    &&& !lock_file(folded(path))
    &&& {
        ||| build_file(folded_name(path, system))
        ||| (path::extension_of(path, system) matches Some(ext) && (code_extension(
            text::ascii_lower(ext),
        ) || page_extension(text::ascii_lower(ext))))
    }
}

/// The file name of a path in lower case; empty if the path has none.
fn lower_file_name(path: &str, system: System) -> (name: String)
    ensures
        name@ == folded_name(path@, system),
{
    match path::file_name(path, system) {
        Some(name) => text::to_ascii_lower(name),
        None => {
            let name = String::new();
            assert(name@ =~= seq![]);
            name
        },
    }
}

/// Whether a change of the file at `path` is worth a review: it is a build file, code, a page
/// or a style sheet, it is no lock file, and it lies in no directory of generated or foreign
/// files.
pub fn is_reviewable_path(path: &str, system: System) -> (yes: bool)
    ensures
        yes == reviewable_path(path@, system),
{
    let slashed = text::replace_char(path, '\\', '/');
    let lower = text::to_ascii_lower(slashed.as_str());
    if leads_through_ignored_dir(lower.as_str()) {
        return false;
    }
    if is_lock_file(lower.as_str()) {
        return false;
    }
    let name = lower_file_name(path, system);
    if is_build_file(name.as_str()) {
        return true;
    }
    match path::extension(path, system) {
        Some(ext) => {
            let lower_ext = text::to_ascii_lower(ext);
            is_code_extension(lower_ext.as_str()) || is_page_extension(lower_ext.as_str())
        },
        None => false,
    }
}

/// Whether the file at `path` is one that runs: a build file or code.
pub fn is_executable_review_path(path: &str, system: System) -> (yes: bool)
    ensures
        yes == executable_path(path@, system),
{
    let name = lower_file_name(path, system);
    if is_build_file(name.as_str()) {
        return true;
    }
    match path::extension(path, system) {
        Some(ext) => {
            let lower_ext = text::to_ascii_lower(ext);
            is_code_extension(lower_ext.as_str())
        },
        None => false,
    }
}

/// What runs is worth a review, wherever it lies outside the ignored directories and is no lock
/// file; what is worth a review and does not run is a page or a style sheet.
pub proof fn law_reviewable_and_executable(path: Seq<char>, system: System)
    ensures
        executable_path(path, system) && !in_ignored_dir(folded(path)) && !lock_file(folded(path))
            ==> reviewable_path(path, system),
        reviewable_path(path, system) && !executable_path(path, system) ==> (path::extension_of(
            path,
            system,
        ) matches Some(ext) && page_extension(text::ascii_lower(ext))),
{
}

/// The case of ASCII letters plays no part in whether a change of the file at a path is worth a
/// review, nor in whether the file is one that runs.
pub proof fn law_case_plays_no_part(a: Seq<char>, b: Seq<char>, system: System)
    requires
        text::ascii_lower(a) == text::ascii_lower(b),
        case::same_ending(a, b, system),
    ensures
        reviewable_path(a, system) == reviewable_path(b, system),
        executable_path(a, system) == executable_path(b, system),
{
    case::law_case_of_names(a, b, system);
    case::lemma_alike(a, b);
    let x = text::with_replaced(a, '\\', '/');
    let y = text::with_replaced(b, '\\', '/');
    assert forall|i: int| 0 <= i < x.len() implies text::ascii_lower(x)[i] == text::ascii_lower(
        y,
    )[i] by {
        assert(text::ascii_lower(a)[i] == text::ascii_lower_char(a[i]));
        assert(text::ascii_lower(b)[i] == text::ascii_lower_char(b[i]));
        assert(a[i] == b[i] || (path::prefix::is_letter(a[i]) && path::prefix::is_letter(b[i])));
    }
    assert(folded(a) =~= folded(b));
}

/// A file in a directory of generated or foreign files is not worth a review, however the name of
/// the directory and the separators around it are written.
pub proof fn law_ignored_directories(
    before: Seq<char>,
    open: char,
    dir: Seq<char>,
    close: char,
    after: Seq<char>,
    system: System,
)
    requires
        open == '/' || open == '\\',
        close == '/' || close == '\\',
        set![
            "node_modules"@,
            "target"@,
            "dist"@,
            "build"@,
            "coverage"@,
            "vendor"@,
            ".git"@,
        ].contains(text::ascii_lower(dir)),
    ensures
        !reviewable_path(before + seq![open] + dir + seq![close] + after, system),
{
    let path = before + seq![open] + dir + seq![close] + after;
    let lower = text::ascii_lower(dir);
    let at = before.len() as int;
    lemma_ignored_names(lower);
    let needle = seq!['/'] + lower + seq!['/'];
    assert forall|i: int| 0 <= i < dir.len() implies text::ascii_lower_char(
        if #[trigger] dir[i] == '\\' {
            '/'
        } else {
            dir[i]
        },
    ) == lower[i] by {
        if dir[i] == '\\' {
            assert(lower[i] == '\\');
        }
    }
    let fold = folded(path);
    assert(fold.subrange(at, at + needle.len()) =~= needle) by {
        assert forall|i: int| 0 <= i < needle.len() implies fold[at + i] == needle[i] by {
            if 0 < i < needle.len() - 1 {
                assert(path[at + i] == dir[i - 1]);
            }
        }
    }
    assert(text::occurs_at(fold, needle, at));
}

/// The ignored names, each between slashes, and without a backslash in them.
proof fn lemma_ignored_names(name: Seq<char>)
    requires
        set![
            "node_modules"@,
            "target"@,
            "dist"@,
            "build"@,
            "coverage"@,
            "vendor"@,
            ".git"@,
        ].contains(name),
    ensures
        forall|path: Seq<char>|
            text::has_text(path, seq!['/'] + name + seq!['/']) ==> #[trigger] in_ignored_dir(path),
        forall|i: int| 0 <= i < name.len() ==> name[i] != '\\',
{
    reveal_strlit("node_modules");
    reveal_strlit("target");
    reveal_strlit("dist");
    reveal_strlit("build");
    reveal_strlit("coverage");
    reveal_strlit("vendor");
    reveal_strlit(".git");
    reveal_strlit("/node_modules/");
    reveal_strlit("/target/");
    reveal_strlit("/dist/");
    reveal_strlit("/build/");
    reveal_strlit("/coverage/");
    reveal_strlit("/vendor/");
    reveal_strlit("/.git/");
    let slashed = seq!['/'] + name + seq!['/'];
    assert(slashed =~= "/node_modules/"@ || slashed =~= "/target/"@ || slashed =~= "/dist/"@
        || slashed =~= "/build/"@ || slashed =~= "/coverage/"@ || slashed =~= "/vendor/"@ || slashed
        =~= "/.git/"@);
}

/// A lock file is not worth a review, wherever it lies and however its name is written.
pub proof fn law_lock_files(before: Seq<char>, name: Seq<char>, system: System)
    requires
        set![
            "cargo.lock"@,
            "package-lock.json"@,
            "pnpm-lock.yaml"@,
            "yarn.lock"@,
        ].contains(text::ascii_lower(name)),
    ensures
        !reviewable_path(before + name, system),
{
    reveal_strlit("cargo.lock");
    reveal_strlit("package-lock.json");
    reveal_strlit("pnpm-lock.yaml");
    reveal_strlit("yarn.lock");
    let lower = text::ascii_lower(name);
    let path = before + name;
    let fold = folded(path);
    let at = before.len() as int;
    assert forall|i: int| 0 <= i < lower.len() implies fold[at + i] == lower[i] by {
        assert(path[at + i] == name[i]);
        assert(lower[i] == text::ascii_lower_char(name[i]));
        if name[i] == '\\' {
            assert(lower[i] == '\\');
        }
    }
    assert(lower =~= fold.subrange(fold.len() - lower.len(), fold.len() as int));
}

/// What runs is a build file, by its name, or code, by its extension. What is worth a review is
/// that, a page or a style sheet, unless it is a lock file or lies in a directory of generated or
/// foreign files.
pub proof fn law_what_is_worth_a_review(path: Seq<char>, system: System)
    ensures
        ({
            let build = path::name_of(path, system) matches Some(name) && set![
                "dockerfile"@,
                "makefile"@,
                "justfile"@,
                "cargo.toml"@,
                "package.json"@,
                "composer.json"@,
            ].contains(text::ascii_lower(name));
            let code = path::extension_of(path, system) matches Some(ext) && set![
                "rs"@,
                "ts"@,
                "tsx"@,
                "js"@,
                "jsx"@,
                "mjs"@,
                "cjs"@,
                "py"@,
                "php"@,
                "go"@,
                "java"@,
                "kt"@,
                "kts"@,
                "swift"@,
                "rb"@,
                "sh"@,
                "ps1"@,
                "sql"@,
                "toml"@,
                "yml"@,
                "yaml"@,
            ].contains(text::ascii_lower(ext));
            let page = path::extension_of(path, system) matches Some(ext) && set![
                "css"@,
                "scss"@,
                "html"@,
                "htm"@,
            ].contains(text::ascii_lower(ext));
            let lower = text::ascii_lower(text::with_replaced(path, '\\', '/'));
            let ignored = text::has_text(lower, "/node_modules/"@) || text::has_text(
                lower,
                "/target/"@,
            ) || text::has_text(lower, "/dist/"@) || text::has_text(lower, "/build/"@)
                || text::has_text(lower, "/coverage/"@) || text::has_text(lower, "/vendor/"@)
                || text::has_text(lower, "/.git/"@);
            let lock = "cargo.lock"@.is_suffix_of(lower) || "package-lock.json"@.is_suffix_of(lower)
                || "pnpm-lock.yaml"@.is_suffix_of(lower) || "yarn.lock"@.is_suffix_of(lower);
            &&& executable_path(path, system) <==> build || code
            &&& reviewable_path(path, system) <==> (build || code || page) && !ignored && !lock
        }),
{
    if path::name_of(path, system) is None {
        reveal_strlit("dockerfile");
        reveal_strlit("makefile");
        reveal_strlit("justfile");
        reveal_strlit("cargo.toml");
        reveal_strlit("package.json");
        reveal_strlit("composer.json");
        assert(folded_name(path, system).len() == 0);
    }
}

/// A file as a conversation turn found it and left it.
#[derive(Clone, Debug, PartialEq, Eq)]
pub struct TurnFileSnapshot {
    pub path: String,
    pub before_text: Option<String>,
    pub after_text: Option<String>,
    pub binary: bool,
    pub turn_index: usize,
}

/// A change to review: the file's path within the working directory, the excerpt of the
/// change, and whether the file is one that runs.
#[derive(Clone, Debug, PartialEq, Eq)]
pub struct ReviewableChange {
    pub relative_path: String,
    pub excerpt: String,
    pub executable: bool,
}

/// What a change to review says.
pub struct ChangeView {
    pub relative_path: Seq<char>,
    pub excerpt: Seq<char>,
    pub executable: bool,
}

impl View for ReviewableChange {
    type V = ChangeView;

    open spec fn view(&self) -> ChangeView {
        ChangeView {
            relative_path: self.relative_path@,
            excerpt: self.excerpt@,
            executable: self.executable,
        }
    }
}

/// What a list of changes says.
pub open spec fn change_views(changes: Seq<ReviewableChange>) -> Seq<ChangeView> {
    changes.map_values(|c: ReviewableChange| c@)
}

/// The text of a file version; empty where the file was not there.
pub open spec fn text_or_empty(version: Option<String>) -> Seq<char> {
    match version {
        Some(content) => content@,
        None => seq![],
    }
}

/// A path within the working directory, with `/` for every separator; a path that does not lie
/// there keeps all its components.
pub open spec fn shown_path(path: Seq<char>, working_dir: Seq<char>, system: System) -> Seq<char> {
    text::with_replaced(
        match path::relative_to(path, working_dir, system) {
            Some(rest) => rest,
            None => path,
        },
        '\\',
        '/',
    )
}

/// Whether a snapshot holds a change to review: one of a text file at a path worth a review,
/// beyond blank lines and whitespace at the end of lines.
pub open spec fn deserves_review(snapshot: TurnFileSnapshot, system: System) -> bool {
    &&& !snapshot.binary
    &&& reviewable_path(snapshot.path@, system)
    &&& normalize::normalized(text_or_empty(snapshot.before_text)) != normalize::normalized(
        text_or_empty(snapshot.after_text),
    )
}

/// What the change in a snapshot says.
pub open spec fn change_in(
    snapshot: TurnFileSnapshot,
    working_dir: Seq<char>,
    system: System,
) -> ChangeView {
    ChangeView {
        relative_path: shown_path(snapshot.path@, working_dir, system),
        excerpt: excerpt::change_excerpt(
            text_or_empty(snapshot.before_text),
            text_or_empty(snapshot.after_text),
        ),
        executable: executable_path(snapshot.path@, system),
    }
}

/// The changes to review in a list of snapshots, in the order of the snapshots.
pub open spec fn changes_in(
    snapshots: Seq<TurnFileSnapshot>,
    working_dir: Seq<char>,
    system: System,
) -> Seq<ChangeView>
    decreases snapshots.len(),
{
    if snapshots.len() == 0 {
        seq![]
    } else {
        let earlier = changes_in(snapshots.drop_last(), working_dir, system);
        if deserves_review(snapshots.last(), system) {
            earlier.push(change_in(snapshots.last(), working_dir, system))
        } else {
            earlier
        }
    }
}

/// How many changes a review takes on at most.
pub const MAX_REVIEWABLE_FILES: usize = 8;

/// The changes that a review of the snapshots takes on.
pub open spec fn collected_changes(
    snapshots: Seq<TurnFileSnapshot>,
    working_dir: Seq<char>,
    system: System,
) -> Seq<ChangeView> {
    let all = changes_in(snapshots, working_dir, system);
    if all.len() > MAX_REVIEWABLE_FILES {
        all.take(MAX_REVIEWABLE_FILES as int)
    } else {
        all
    }
}

/// The text of a file version; empty where the file was not there.
fn version_text<'a>(version: &'a Option<String>) -> (content: &'a str)
    ensures
        content@ == text_or_empty(*version),
{
    match version {
        Some(content) => content.as_str(),
        None => {
            proof {
                reveal_strlit("");
                assert(""@ =~= seq![]);
            }
            ""
        },
    }
}

/// The change to review in a snapshot, or none if there is nothing in it to review.
pub fn reviewable_change(
    snapshot: &TurnFileSnapshot,
    working_dir: &str,
    system: System,
) -> (change: Option<ReviewableChange>)
    ensures
        change is Some <==> deserves_review(*snapshot, system),
        change matches Some(c) ==> c@ == change_in(*snapshot, working_dir@, system),
{
    if snapshot.binary || !is_reviewable_path(snapshot.path.as_str(), system) {
        return None;
    }
    let before = version_text(&snapshot.before_text);
    let after = version_text(&snapshot.after_text);
    let old_meaning = normalize::normalize_for_meaningful_change(before);
    let new_meaning = normalize::normalize_for_meaningful_change(after);
    if old_meaning == new_meaning {
        return None;
    }
    let path = snapshot.path.as_str();
    let within = match path::strip_prefix(path, working_dir, system) {
        Some(rest) => rest,
        None => path,
    };
    let relative_path = text::replace_char(within, '\\', '/');
    let change = ReviewableChange {
        relative_path,
        excerpt: excerpt::build_change_excerpt(before, after),
        executable: is_executable_review_path(path, system),
    };
    Some(change)
}

proof fn lemma_changes_of_prefix(
    snapshots: Seq<TurnFileSnapshot>,
    working_dir: Seq<char>,
    n: int,
    system: System,
)
    requires
        0 <= n <= snapshots.len(),
    ensures
        changes_in(snapshots.take(n), working_dir, system).is_prefix_of(
            changes_in(snapshots, working_dir, system),
        ),
    decreases snapshots.len(),
{
    if n == snapshots.len() {
        assert(snapshots.take(n) =~= snapshots);
    } else {
        let shorter = snapshots.drop_last();
        lemma_changes_of_prefix(shorter, working_dir, n, system);
        assert(shorter.take(n) =~= snapshots.take(n));
        let few = changes_in(snapshots.take(n), working_dir, system);
        let more = changes_in(snapshots, working_dir, system);
        assert(changes_in(shorter, working_dir, system).is_prefix_of(more));
        assert(few =~= more.subrange(0, few.len() as int));
    }
}

/// The changes to review in a list of snapshots, in their order, up to the limit.
pub fn collect_reviewable_changes(
    snapshots: &[TurnFileSnapshot],
    working_dir: &str,
    system: System,
) -> (changes: Vec<ReviewableChange>)
    ensures
        change_views(changes@) == collected_changes(snapshots@, working_dir@, system),
{
    let mut changes: Vec<ReviewableChange> = Vec::new();
    let mut i: usize = 0;
    assert(snapshots@.take(0) =~= seq![]);
    assert(change_views(changes@) =~= seq![]);
    while i < snapshots.len() && changes.len() < MAX_REVIEWABLE_FILES
        invariant
            i <= snapshots@.len(),
            changes@.len() <= MAX_REVIEWABLE_FILES,
            change_views(changes@) == changes_in(snapshots@.take(i as int), working_dir@, system),
        decreases snapshots@.len() - i,
    {
        let ghost before = change_views(changes@);
        proof {
            assert(snapshots@.take(i + 1).drop_last() =~= snapshots@.take(i as int));
            assert(snapshots@.take(i + 1).last() == snapshots@[i as int]);
        }
        if let Some(change) = reviewable_change(&snapshots[i], working_dir, system) {
            changes.push(change);
            assert(change_views(changes@) =~= before.push(change@));
        }
        i = i + 1;
    }
    proof {
        lemma_changes_of_prefix(snapshots@, working_dir@, i as int, system);
        let all = changes_in(snapshots@, working_dir@, system);
        if i == snapshots@.len() {
            assert(snapshots@.take(i as int) =~= snapshots@);
        }
        if all.len() > MAX_REVIEWABLE_FILES {
            assert(change_views(changes@) =~= all.take(MAX_REVIEWABLE_FILES as int));
        } else {
            assert(change_views(changes@) =~= all);
        }
    }
    changes
}

/// Of a text file at a path worth a review, exactly the changes are reviewed that touch the lines
/// that carry meaning.
pub proof fn law_only_meaning_is_reviewed(snapshot: TurnFileSnapshot, system: System)
    ensures
        deserves_review(snapshot, system) <==> {
            &&& !snapshot.binary
            &&& reviewable_path(snapshot.path@, system)
            &&& normalize::meaningful_lines(text::lines_of(text_or_empty(snapshot.before_text)))
                != normalize::meaningful_lines(text::lines_of(text_or_empty(snapshot.after_text)))
        },
{
    normalize::law_same_meaning(
        text_or_empty(snapshot.before_text),
        text_or_empty(snapshot.after_text),
    );
}

proof fn lemma_changes_come_from_snapshots(
    snapshots: Seq<TurnFileSnapshot>,
    working_dir: Seq<char>,
    system: System,
)
    ensures
        changes_in(snapshots, working_dir, system).len() <= snapshots.len(),
        forall|i: int|
            0 <= i < changes_in(snapshots, working_dir, system).len() ==> exists|j: int|
                0 <= j < snapshots.len() && deserves_review(#[trigger] snapshots[j], system) && (
                #[trigger] changes_in(snapshots, working_dir, system)[i]) == change_in(
                    snapshots[j],
                    working_dir,
                    system,
                ),
        (exists|j: int|
            0 <= j < snapshots.len() && deserves_review(#[trigger] snapshots[j], system))
            ==> changes_in(snapshots, working_dir, system).len() > 0,
    decreases snapshots.len(),
{
    if snapshots.len() > 0 {
        let shorter = snapshots.drop_last();
        lemma_changes_come_from_snapshots(shorter, working_dir, system);
        let all = changes_in(snapshots, working_dir, system);
        let earlier = changes_in(shorter, working_dir, system);
        assert forall|i: int| 0 <= i < all.len() implies exists|j: int|
            0 <= j < snapshots.len() && deserves_review(#[trigger] snapshots[j], system) && (
            #[trigger] all[i]) == change_in(snapshots[j], working_dir, system) by {
            if i < earlier.len() {
                assert(all[i] == earlier[i]);
                let j = choose|j: int|
                    0 <= j < shorter.len() && deserves_review(#[trigger] shorter[j], system)
                        && earlier[i] == change_in(shorter[j], working_dir, system);
                assert(snapshots[j] == shorter[j]);
            } else {
                assert(deserves_review(snapshots[snapshots.len() - 1], system));
            }
        }
        if exists|j: int|
            0 <= j < snapshots.len() && deserves_review(#[trigger] snapshots[j], system) {
            let j = choose|j: int|
                0 <= j < snapshots.len() && deserves_review(#[trigger] snapshots[j], system);
            if j < shorter.len() {
                assert(deserves_review(shorter[j], system));
            }
        }
    }
}

/// A review takes on no more changes than the limit; it takes on some exactly if a snapshot
/// deserves a review, and each of them is the change in such a snapshot.
pub proof fn law_collected_changes(
    snapshots: Seq<TurnFileSnapshot>,
    working_dir: Seq<char>,
    system: System,
)
    ensures
        collected_changes(snapshots, working_dir, system).len() <= MAX_REVIEWABLE_FILES,
        collected_changes(snapshots, working_dir, system).is_prefix_of(
            changes_in(snapshots, working_dir, system),
        ),
        collected_changes(snapshots, working_dir, system).len() > 0 <==> exists|j: int|
            0 <= j < snapshots.len() && deserves_review(#[trigger] snapshots[j], system),
        forall|i: int|
            0 <= i < collected_changes(snapshots, working_dir, system).len() ==> exists|j: int|
                0 <= j < snapshots.len() && deserves_review(#[trigger] snapshots[j], system) && (
                #[trigger] collected_changes(snapshots, working_dir, system)[i]) == change_in(
                    snapshots[j],
                    working_dir,
                    system,
                ),
{
    lemma_changes_come_from_snapshots(snapshots, working_dir, system);
    let all = changes_in(snapshots, working_dir, system);
    let some = collected_changes(snapshots, working_dir, system);
    assert(some =~= all.subrange(0, some.len() as int));
    assert forall|i: int| 0 <= i < some.len() implies exists|j: int|
        0 <= j < snapshots.len() && deserves_review(#[trigger] snapshots[j], system) && (
        #[trigger] some[i]) == change_in(snapshots[j], working_dir, system) by {
        assert(some[i] == all[i]);
    }
    if some.len() > 0 {
        assert(some[0] == all[0]);
    }
}

/// The changes in a list of snapshots are those in the snapshots that deserve a review, each once
/// and in their order.
pub proof fn law_changes_of_deserving_snapshots(
    snapshots: Seq<TurnFileSnapshot>,
    working_dir: Seq<char>,
    system: System,
)
    ensures
        changes_in(snapshots, working_dir, system) == snapshots.filter(
            |s: TurnFileSnapshot| deserves_review(s, system),
        ).map_values(|s: TurnFileSnapshot| change_in(s, working_dir, system)),
    decreases snapshots.len(),
{
    reveal(Seq::filter);
    let deserving = |s: TurnFileSnapshot| deserves_review(s, system);
    let change = |s: TurnFileSnapshot| change_in(s, working_dir, system);
    if snapshots.len() > 0 {
        let shorter = snapshots.drop_last();
        law_changes_of_deserving_snapshots(shorter, working_dir, system);
        if deserves_review(snapshots.last(), system) {
            assert(shorter.filter(deserving).push(snapshots.last()).map_values(change)
                =~= shorter.filter(deserving).map_values(change).push(
                change_in(snapshots.last(), working_dir, system),
            ));
        }
    } else {
        assert(snapshots.filter(deserving).map_values(change) =~= seq![]);
    }
}

/// Whether a change is taken on depends on no other snapshot.
pub proof fn law_changes_of_parts(
    a: Seq<TurnFileSnapshot>,
    b: Seq<TurnFileSnapshot>,
    snapshot: TurnFileSnapshot,
    working_dir: Seq<char>,
    system: System,
)
    ensures
        changes_in(a + b, working_dir, system) == changes_in(a, working_dir, system) + changes_in(
            b,
            working_dir,
            system,
        ),
        deserves_review(snapshot, system) ==> changes_in(seq![snapshot], working_dir, system)
            == seq![change_in(snapshot, working_dir, system)],
        !deserves_review(snapshot, system) ==> changes_in(seq![snapshot], working_dir, system)
            == Seq::<ChangeView>::empty(),
    decreases b.len(),
{
    assert(seq![snapshot].drop_last() =~= seq![]);
    reveal_with_fuel(changes_in, 2);
    if b.len() == 0 {
        assert(a + b =~= a);
        assert(changes_in(a, working_dir, system) + changes_in(b, working_dir, system)
            =~= changes_in(a, working_dir, system));
    } else {
        assert((a + b).drop_last() =~= a + b.drop_last());
        law_changes_of_parts(a, b.drop_last(), snapshot, working_dir, system);
        assert(changes_in(a + b, working_dir, system) =~= changes_in(a, working_dir, system)
            + changes_in(b, working_dir, system));
    }
}

/// A review takes on every change in a snapshot that deserves one, if there are no more than eight;
/// if there are more, the first eight.
pub proof fn law_collection_is_complete(
    snapshots: Seq<TurnFileSnapshot>,
    working_dir: Seq<char>,
    system: System,
)
    ensures
        ({
            let deserving = snapshots.filter(
                |s: TurnFileSnapshot| deserves_review(s, system),
            );
            let collected = collected_changes(snapshots, working_dir, system);
            &&& collected.len() == (if deserving.len() <= 8 {
                deserving.len()
            } else {
                8
            })
            &&& forall|i: int|
                0 <= i < collected.len() ==> #[trigger] collected[i] == change_in(
                    deserving[i],
                    working_dir,
                    system,
                )
        }),
{
    law_changes_of_deserving_snapshots(snapshots, working_dir, system);
}

/// A file that was not there before a turn, or is not there after it, counts as an empty one.
pub proof fn law_missing_file_is_empty(
    a: TurnFileSnapshot,
    b: TurnFileSnapshot,
    working_dir: Seq<char>,
    system: System,
)
    requires
        a.path@ == b.path@,
        a.binary == b.binary,
        a.before_text == b.before_text || (a.before_text is None && (b.before_text matches Some(t)
            && t@.len() == 0)),
        a.after_text == b.after_text || (a.after_text is None && (b.after_text matches Some(t)
            && t@.len() == 0)),
    ensures
        deserves_review(a, system) == deserves_review(b, system),
        change_in(a, working_dir, system) == change_in(b, working_dir, system),
{
    assert(text_or_empty(a.before_text) =~= text_or_empty(b.before_text));
    assert(text_or_empty(a.after_text) =~= text_or_empty(b.after_text));
}

/// A change that touches the text of a file in nothing but one line is reviewed, if the file is one
/// of text at a path worth a review and the line changes beyond the whitespace at its end.
pub proof fn law_changed_line_is_reviewed(
    snapshot: TurnFileSnapshot,
    a: Seq<char>,
    old_line: Seq<char>,
    new_line: Seq<char>,
    b: Seq<char>,
    system: System,
)
    requires
        !snapshot.binary,
        reviewable_path(snapshot.path@, system),
        forall|i: int| 0 <= i < old_line.len() ==> old_line[i] != '\n',
        forall|i: int| 0 <= i < new_line.len() ==> new_line[i] != '\n',
        text::trimmed_end(old_line) != text::trimmed_end(new_line),
        snapshot.before_text matches Some(t) && t@ == a + seq!['\n'] + old_line + seq!['\n'] + b,
        snapshot.after_text matches Some(t) && t@ == a + seq!['\n'] + new_line + seq!['\n'] + b,
    ensures
        deserves_review(snapshot, system),
{
    normalize::law_change_of_a_line_is_seen(a, old_line, new_line, b);
}

/// A change is shown under the path of its file within the working directory, with slashes for
/// backslashes; one of a file elsewhere under the whole path of the file.
pub proof fn law_path_of_a_change(
    snapshot: TurnFileSnapshot,
    working_dir: Seq<char>,
    name: Seq<char>,
    system: System,
)
    ensures
        working_dir.len() > 0 && path::is_plain(name, system) && snapshot.path@ == path::path_within(
            working_dir,
            name,
            system,
        ) && path::keeps_its_head(working_dir, snapshot.path@, system) ==> change_in(
            snapshot,
            working_dir,
            system,
        ).relative_path == text::with_replaced(name, '\\', '/'),
        path::relative_to(snapshot.path@, working_dir, system) is None ==> change_in(
            snapshot,
            working_dir,
            system,
        ).relative_path == text::with_replaced(snapshot.path@, '\\', '/'),
        change_in(snapshot, working_dir, system).executable == executable_path(
            snapshot.path@,
            system,
        ),
{
    if working_dir.len() > 0 && path::is_plain(name, system) && snapshot.path@ == path::path_within(
        working_dir,
        name,
        system,
    ) && path::keeps_its_head(working_dir, snapshot.path@, system) {
        path::law_file_in_directory(working_dir, name, system);
    }
}

/// A change is shown by the excerpt from the text before the turn to the text after it.
pub proof fn law_excerpt_of_a_snapshot(
    snapshot: TurnFileSnapshot,
    before: String,
    after: String,
    working_dir: Seq<char>,
    system: System,
)
    requires
        snapshot.before_text == Some(before),
        snapshot.after_text == Some(after),
    ensures
        change_in(snapshot, working_dir, system).excerpt == excerpt::change_excerpt(before@, after@),
{
}

/// What a list of changes says is what each change in it says: the text of its path, the text of its
/// excerpt, and whether its file is one that runs.
pub proof fn law_what_changes_say(changes: Seq<ReviewableChange>)
    ensures
        change_views(changes).len() == changes.len(),
        forall|i: int|
            0 <= i < changes.len() ==> {
                let said = change_views(changes)[i];
                &&& said.relative_path == (#[trigger] changes[i]).relative_path@
                &&& said.excerpt == changes[i].excerpt@
                &&& said.executable == changes[i].executable
            },
{
}

} // verus!
