//! Supported languages and how they are detected.
use vstd::prelude::*;

use crate::path;
use crate::path::PathBuf;
use crate::text;
use crate::text::{has_suffix, same_text};

verus! {

/// A language that operations exist for. The order of the variants is the order
/// in which languages are listed.
#[derive(Debug, Clone, Copy, PartialEq, Eq, Structural, Hash, PartialOrd, Ord)]
#[non_exhaustive]
pub enum Language {
    /// Java.
    Java,
    /// Rust.
    Rust,
    /// TypeScript.
    TypeScript,
    /// JavaScript.
    JavaScript,
}

/// The identifier of a language.
pub open spec fn language_name(language: Language) -> Seq<char> {
    match language {
        Language::Java => "java"@,
        Language::Rust => "rust"@,
        Language::TypeScript => "typescript"@,
        Language::JavaScript => "javascript"@,
    }
}

/// The place of a language in the order of languages.
pub open spec fn language_rank(language: Language) -> int {
    match language {
        Language::Java => 0,
        Language::Rust => 1,
        Language::TypeScript => 2,
        Language::JavaScript => 3,
    }
}

/// The language of a file extension.
pub open spec fn extension_language(e: Seq<char>) -> Option<Language> {
    if e == "java"@ {
        Some(Language::Java)
    } else if e == "rs"@ {
        Some(Language::Rust)
    } else if e == "ts"@ || e == "tsx"@ || e == "mts"@ || e == "cts"@ {
        Some(Language::TypeScript)
    } else if e == "js"@ || e == "jsx"@ || e == "mjs"@ || e == "cjs"@ {
        Some(Language::JavaScript)
    } else {
        None
    }
}

/// The language of a file, by its extension.
pub open spec fn path_language(p: Seq<char>) -> Option<Language> {
    match path::extension_of(p) {
        Some(e) => extension_language(e),
        None => None,
    }
}

impl Language {
    /// The stable lower-case identifier of the language.
    pub fn as_str(self) -> (r: &'static str)
        ensures
            r@ == language_name(self),
    {
        match self {
            Language::Java => "java",
            Language::Rust => "rust",
            Language::TypeScript => "typescript",
            Language::JavaScript => "javascript",
        }
    }

    /// The language of a source file, by its extension.
    pub fn from_path(path: &PathBuf) -> (r: Option<Language>)
        ensures
            r == path_language(path@),
    {
        match path.extension() {
            Some(ext) => {
                let e = ext.as_str();
                if same_text(e, "java") {
                    Some(Language::Java)
                } else if same_text(e, "rs") {
                    Some(Language::Rust)
                } else if same_text(e, "ts") || same_text(e, "tsx") || same_text(e, "mts")
                    || same_text(e, "cts") {
                    Some(Language::TypeScript)
                } else if same_text(e, "js") || same_text(e, "jsx") || same_text(e, "mjs")
                    || same_text(e, "cjs") {
                    Some(Language::JavaScript)
                } else {
                    None
                }
            },
            None => None,
        }
    }

    /// The place of the language in the order of languages.
    pub fn rank(self) -> (r: u8)
        ensures
            r == language_rank(self),
    {
        match self {
            Language::Java => 0,
            Language::Rust => 1,
            Language::TypeScript => 2,
            Language::JavaScript => 3,
        }
    }
}

// ---------------------------------------------------------------------------
// Markers
// ---------------------------------------------------------------------------

/// Whether a file name shows that a language is in use.
pub open spec fn marks(language: Language, name: Seq<char>) -> bool {
    match language {
        Language::Java => text::finishes_with(name, ".java"@) || name == "pom.xml"@ || name
            == "build.gradle"@ || name == "build.gradle.kts"@ || name == "settings.gradle"@
            || name == "settings.gradle.kts"@,
        Language::Rust => text::finishes_with(name, ".rs"@) || name == "Cargo.toml"@,
        Language::TypeScript => name == "tsconfig.json"@ || text::finishes_with(name, ".ts"@)
            || text::finishes_with(name, ".tsx"@) || text::finishes_with(name, ".mts"@)
            || text::finishes_with(name, ".cts"@),
        Language::JavaScript => text::finishes_with(name, ".js"@) || text::finishes_with(
            name,
            ".jsx"@,
        ) || text::finishes_with(name, ".mjs"@) || text::finishes_with(name, ".cjs"@),
    }
}

/// Whether a file name marks a Java project or source file.
pub fn is_java_marker(name: &str) -> (r: bool)
    ensures
        r == marks(Language::Java, name@),
{
    has_suffix(name, ".java") || same_text(name, "pom.xml") || same_text(name, "build.gradle")
        || same_text(name, "build.gradle.kts") || same_text(name, "settings.gradle") || same_text(
        name,
        "settings.gradle.kts",
    )
}

/// Whether a file name marks a Rust project or source file.
pub fn is_rust_marker(name: &str) -> (r: bool)
    ensures
        r == marks(Language::Rust, name@),
{
    has_suffix(name, ".rs") || same_text(name, "Cargo.toml")
}

/// Whether a file name marks a TypeScript project or source file.
pub fn is_typescript_marker(name: &str) -> (r: bool)
    ensures
        r == marks(Language::TypeScript, name@),
{
    same_text(name, "tsconfig.json") || has_suffix(name, ".ts") || has_suffix(name, ".tsx")
        || has_suffix(name, ".mts") || has_suffix(name, ".cts")
}

/// Whether a file name marks a JavaScript source file.
pub fn is_javascript_marker(name: &str) -> (r: bool)
    ensures
        r == marks(Language::JavaScript, name@),
{
    has_suffix(name, ".js") || has_suffix(name, ".jsx") || has_suffix(name, ".mjs") || has_suffix(
        name,
        ".cjs",
    )
}

// ---------------------------------------------------------------------------
// Scanning a tree
// ---------------------------------------------------------------------------

/// The number of entries that a scan looks at.
pub const MAX_WALK_ENTRIES: usize = 50_000;

/// One entry of a source tree.
#[derive(Debug, Clone, PartialEq, Eq)]
pub struct TreeEntry {
    /// How many directories stand above it; the root of the tree has none.
    pub depth: usize,
    /// Its file name.
    pub name: String,
    /// Whether it is a directory.
    pub is_dir: bool,
    /// Whether it is a regular file.
    pub is_file: bool,
}

/// What a [`TreeEntry`] says.
pub struct TreeEntryView {
    pub depth: nat,
    pub name: Seq<char>,
    pub is_dir: bool,
    pub is_file: bool,
}

impl View for TreeEntry {
    type V = TreeEntryView;

    open spec fn view(&self) -> TreeEntryView {
        TreeEntryView {
            depth: self.depth as nat,
            name: self.name@,
            is_dir: self.is_dir,
            is_file: self.is_file,
        }
    }
}

/// The directories that hold no source worth a look.
pub open spec fn skipped_dir(name: Seq<char>) -> bool {
    ||| name == ".git"@
    ||| name == ".jj"@
    ||| name == ".hg"@
    ||| name == "target"@
    ||| name == "build"@
    ||| name == "out"@
    ||| name == "node_modules"@
    ||| name == ".gradle"@
    ||| name == ".idea"@
}

/// Whether a scan descends into an entry and looks at it.
pub open spec fn kept_entry(depth: nat, is_dir: bool, name: Seq<char>) -> bool {
    depth == 0 || !(is_dir && skipped_dir(name))
}

/// Whether a scan descends into an entry and looks at it.
pub fn keep_entry(depth: usize, is_dir: bool, name: &str) -> (r: bool)
    ensures
        r == kept_entry(depth as nat, is_dir, name@),
{
    if depth == 0 || !is_dir {
        return true;
    }
    !(same_text(name, ".git") || same_text(name, ".jj") || same_text(name, ".hg") || same_text(
        name,
        "target",
    ) || same_text(name, "build") || same_text(name, "out") || same_text(name, "node_modules")
        || same_text(name, ".gradle") || same_text(name, ".idea"))
}

/// The entries of a tree that a scan comes by. The tree is given from the root
/// down, each directory before what stands in it; `below` is the depth of the
/// skipped directory that the scan is in, if any.
pub open spec fn kept_entries(entries: Seq<TreeEntryView>, below: Option<nat>) -> Seq<TreeEntryView>
    decreases entries.len(),
{
    if entries.len() == 0 {
        seq![]
    } else {
        let e = entries[0];
        if below matches Some(d) && e.depth > d {
            kept_entries(entries.skip(1), below)
        } else if kept_entry(e.depth, e.is_dir, e.name) {
            seq![e] + kept_entries(entries.skip(1), None)
        } else {
            kept_entries(entries.skip(1), Some(e.depth))
        }
    }
}

/// Whether one of the first entries that a scan comes by marks a language.
pub open spec fn found(language: Language, kept: Seq<TreeEntryView>) -> bool {
    exists|i: int|
        0 <= i < kept.len() && i < MAX_WALK_ENTRIES && (#[trigger] kept[i]).is_file && marks(
            language,
            kept[i].name,
        )
}

/// The languages that are marked, in the order of languages.
pub open spec fn listed(java: bool, rust: bool, typescript: bool, javascript: bool) -> Seq<
    Language,
> {
    (if java {
        seq![Language::Java]
    } else {
        seq![]
    }) + (if rust {
        seq![Language::Rust]
    } else {
        seq![]
    }) + (if typescript {
        seq![Language::TypeScript]
    } else {
        seq![]
    }) + (if javascript {
        seq![Language::JavaScript]
    } else {
        seq![]
    })
}

/// The languages of a tree.
pub open spec fn languages_of(kept: Seq<TreeEntryView>) -> Seq<Language> {
    listed(
        found(Language::Java, kept),
        found(Language::Rust, kept),
        found(Language::TypeScript, kept),
        found(Language::JavaScript, kept),
    )
}

/// A scan over the entries of a tree, one at a time.
pub struct LanguageScan {
    java: bool,
    rust: bool,
    typescript: bool,
    javascript: bool,
    walked: usize,
    done: bool,
    seen: Ghost<Seq<TreeEntryView>>,
}

impl View for LanguageScan {
    type V = Seq<TreeEntryView>;

    /// The entries that the scan has looked at.
    closed spec fn view(&self) -> Seq<TreeEntryView> {
        self.seen@
    }
}

impl LanguageScan {
    /// Whether the scan says of the entries it has looked at what they show.
    pub closed spec fn wf(&self) -> bool {
        &&& self.walked == self@.len()
        &&& !self.done ==> self.walked <= MAX_WALK_ENTRIES
        &&& self.done ==> self.walked > MAX_WALK_ENTRIES || (self.java && self.rust
            && self.typescript && self.javascript)
        &&& self.java == found(Language::Java, self@)
        &&& self.rust == found(Language::Rust, self@)
        &&& self.typescript == found(Language::TypeScript, self@)
        &&& self.javascript == found(Language::JavaScript, self@)
    }

    /// Whether the scan is over.
    pub closed spec fn finished(&self) -> bool {
        self.done
    }

    /// A scan that has seen nothing.
    pub fn new() -> (r: Self)
        ensures
            r.wf(),
            r@ == Seq::<TreeEntryView>::empty(),
            !r.finished(),
    {
        LanguageScan {
            java: false,
            rust: false,
            typescript: false,
            javascript: false,
            walked: 0,
            done: false,
            seen: Ghost(Seq::empty()),
        }
    }

    /// Looks at one entry, unless the scan is over. Returns whether the scan goes
    /// on: it ends when every language has been found, or when it has looked at
    /// more entries than it is allowed to.
    pub fn visit(&mut self, entry: &TreeEntry) -> (r: bool)
        requires
            old(self).wf(),
        ensures
            final(self).wf(),
            final(self)@ == if old(self).finished() {
                old(self)@
            } else {
                old(self)@.push(entry@)
            },
            r == !final(self).finished(),
            final(self).finished() == (old(self).finished() || final(self)@.len()
                > MAX_WALK_ENTRIES || (forall|l: Language| found(l, final(self)@))),
    {
        if self.done {
            return false;
        }
        let ghost kept = self.seen@;
        let ghost now = kept.push(entry@);
        let name = entry.name.as_str();
        self.seen = Ghost(self.seen@.push(entry@));
        self.walked = self.walked + 1;
        if self.walked > MAX_WALK_ENTRIES {
            self.done = true;
        } else {
            if entry.is_file {
                self.java = self.java || is_java_marker(name);
                self.rust = self.rust || is_rust_marker(name);
                self.typescript = self.typescript || is_typescript_marker(name);
                self.javascript = self.javascript || is_javascript_marker(name);
            }
            self.done = self.java && self.rust && self.typescript && self.javascript;
        }
        proof {
            lemma_found_pushed(Language::Java, kept, entry@);
            lemma_found_pushed(Language::Rust, kept, entry@);
            lemma_found_pushed(Language::TypeScript, kept, entry@);
            lemma_found_pushed(Language::JavaScript, kept, entry@);
            if self.java && self.rust && self.typescript && self.javascript {
                assert forall|l: Language| #[trigger] found(l, now) by {
                    match l {
                        Language::Java => {},
                        Language::Rust => {},
                        Language::TypeScript => {},
                        Language::JavaScript => {},
                    }
                }
            } else {
                assert(!(found(Language::Java, now) && found(Language::Rust, now) && found(
                    Language::TypeScript,
                    now,
                ) && found(Language::JavaScript, now)));
            }
            assert(self@ == now);
        }
        !self.done
    }

    /// The languages that the scan has come by.
    pub fn languages(&self) -> (r: Vec<Language>)
        requires
            self.wf(),
        ensures
            r@ == languages_of(self@),
    {
        let mut out: Vec<Language> = Vec::new();
        if self.java {
            out.push(Language::Java);
        }
        if self.rust {
            out.push(Language::Rust);
        }
        if self.typescript {
            out.push(Language::TypeScript);
        }
        if self.javascript {
            out.push(Language::JavaScript);
        }
        assert(out@ =~= listed(self.java, self.rust, self.typescript, self.javascript));
        out
    }

    /// A scan that is over has seen enough: whatever entries might follow, the
    /// languages are those it has found.
    pub proof fn stopping_early_changes_nothing(&self, more: Seq<TreeEntryView>)
        requires
            self.wf(),
            self.finished(),
        ensures
            languages_of(self@ + more) == languages_of(self@),
    {
        lemma_found_extended(Language::Java, self@, more);
        lemma_found_extended(Language::Rust, self@, more);
        lemma_found_extended(Language::TypeScript, self@, more);
        lemma_found_extended(Language::JavaScript, self@, more);
    }
}

proof fn lemma_found_pushed(language: Language, kept: Seq<TreeEntryView>, entry: TreeEntryView)
    ensures
        found(language, kept.push(entry)) == (found(language, kept) || (kept.len()
            < MAX_WALK_ENTRIES && entry.is_file && marks(language, entry.name))),
{
    let now = kept.push(entry);
    if found(language, kept) {
        let i = choose|i: int|
            0 <= i < kept.len() && i < MAX_WALK_ENTRIES && (#[trigger] kept[i]).is_file && marks(
                language,
                kept[i].name,
            );
        assert(now[i] == kept[i]);
    }
    if kept.len() < MAX_WALK_ENTRIES && entry.is_file && marks(language, entry.name) {
        assert(now[kept.len() as int] == entry);
    }
    if found(language, now) {
        let i = choose|i: int|
            0 <= i < now.len() && i < MAX_WALK_ENTRIES && (#[trigger] now[i]).is_file && marks(
                language,
                now[i].name,
            );
        if i < kept.len() {
            assert(kept[i] == now[i]);
        }
    }
}

proof fn lemma_found_extended(
    language: Language,
    kept: Seq<TreeEntryView>,
    more: Seq<TreeEntryView>,
)
    ensures
        found(language, kept) ==> found(language, kept + more),
        kept.len() >= MAX_WALK_ENTRIES ==> found(language, kept + more) == found(language, kept),
{
    let all = kept + more;
    if found(language, kept) {
        let i = choose|i: int|
            0 <= i < kept.len() && i < MAX_WALK_ENTRIES && (#[trigger] kept[i]).is_file && marks(
                language,
                kept[i].name,
            );
        assert(all[i] == kept[i]);
    }
    if kept.len() >= MAX_WALK_ENTRIES && found(language, all) {
        let i = choose|i: int|
            0 <= i < all.len() && i < MAX_WALK_ENTRIES && (#[trigger] all[i]).is_file && marks(
                language,
                all[i].name,
            );
        assert(kept[i] == all[i]);
    }
}

/// What a list of entries says.
pub open spec fn entry_views(entries: Seq<TreeEntry>) -> Seq<TreeEntryView> {
    entries.map_values(|e: TreeEntry| e@)
}

/// The languages of a tree, given from the root down, each directory before what
/// stands in it. Directories that hold no source worth a look are passed over.
pub fn detect_languages(entries: &Vec<TreeEntry>) -> (r: Vec<Language>)
    ensures
        r@ == languages_of(kept_entries(entry_views(entries@), None)),
{
    let ghost all = entry_views(entries@);
    let ghost kept = kept_entries(all, None);
    let mut scan = LanguageScan::new();
    let mut skipping = false;
    let mut depth: usize = 0;
    let mut i: usize = 0;
    assert(all.skip(0) =~= all);
    assert(scan@ + kept_entries(all, None) =~= kept);
    while i < entries.len()
        invariant
            i <= entries@.len(),
            all == entry_views(entries@),
            kept == kept_entries(all, None),
            scan.wf(),
            !scan.finished(),
            scan@ + kept_entries(
                all.skip(i as int),
                if skipping {
                    Some(depth as nat)
                } else {
                    None
                },
            ) == kept,
        decreases entries@.len() - i,
    {
        let ghost rest = all.skip(i as int);
        assert(rest[0] == entries@[i as int]@);
        assert(rest.skip(1) =~= all.skip(i + 1));
        let entry = &entries[i];
        if skipping && entry.depth > depth {
        } else if keep_entry(entry.depth, entry.is_dir, entry.name.as_str()) {
            skipping = false;
            let ghost tail = kept_entries(all.skip(i + 1), None);
            let ghost before = scan@;
            let goes_on = scan.visit(entry);
            assert(before + (seq![entry@] + tail) =~= scan@ + tail);
            if !goes_on {
                proof {
                    scan.stopping_early_changes_nothing(tail);
                }
                return scan.languages();
            }
        } else {
            skipping = true;
            depth = entry.depth;
        }
        i += 1;
    }
    assert(all.skip(i as int) =~= seq![]);
    assert(scan@ =~= kept);
    scan.languages()
}

// ---------------------------------------------------------------------------
// Laws
// ---------------------------------------------------------------------------

/// Languages are told apart by their names, and by their places in the order.
pub proof fn names_tell_languages_apart(a: Language, b: Language)
    ensures
        language_name(a) == language_name(b) <==> a == b,
        language_rank(a) == language_rank(b) <==> a == b,
{
    reveal_strlit("java");
    reveal_strlit("rust");
    reveal_strlit("typescript");
    reveal_strlit("javascript");
    assert("java"@.len() == 4);
    assert("rust"@.len() == 4);
    assert("typescript"@.len() == 10);
    assert("javascript"@.len() == 10);
    assert("java"@[0] != "rust"@[0]);
    assert("typescript"@[0] != "javascript"@[0]);
}

/// A source file shows that its language is in use: where its extension gives a
/// language, its name marks that language.
pub proof fn sources_mark_their_language(p: Seq<char>, l: Language)
    requires
        path_language(p) == Some(l),
    ensures
        path::file_name_of(p) matches Some(name) && marks(l, name),
{
    reveal_strlit(".");
    reveal_strlit("java");
    reveal_strlit(".java");
    reveal_strlit("rs");
    reveal_strlit(".rs");
    reveal_strlit("ts");
    reveal_strlit(".ts");
    reveal_strlit("tsx");
    reveal_strlit(".tsx");
    reveal_strlit("mts");
    reveal_strlit(".mts");
    reveal_strlit("cts");
    reveal_strlit(".cts");
    reveal_strlit("js");
    reveal_strlit(".js");
    reveal_strlit("jsx");
    reveal_strlit(".jsx");
    reveal_strlit("mjs");
    reveal_strlit(".mjs");
    reveal_strlit("cjs");
    reveal_strlit(".cjs");
    assert("."@ + "java"@ =~= ".java"@);
    assert("."@ + "rs"@ =~= ".rs"@);
    assert("."@ + "ts"@ =~= ".ts"@);
    assert("."@ + "tsx"@ =~= ".tsx"@);
    assert("."@ + "mts"@ =~= ".mts"@);
    assert("."@ + "cts"@ =~= ".cts"@);
    assert("."@ + "js"@ =~= ".js"@);
    assert("."@ + "jsx"@ =~= ".jsx"@);
    assert("."@ + "mjs"@ =~= ".mjs"@);
    assert("."@ + "cjs"@ =~= ".cjs"@);
    let name = path::file_name_of(p).unwrap();
    let e = path::extension_of(p).unwrap();
    path::lemma_behind_last_dot(name);
    let suffix = "."@ + e;
    assert(name.subrange(name.len() - suffix.len(), name.len() as int) =~= suffix);
    assert(text::finishes_with(name, suffix));
}

/// The extension of a file decides on its language, whatever the rest of its path:
/// files with one extension have one language.
pub proof fn extensions_decide_on_the_language(a: Seq<char>, b: Seq<char>)
    ensures
        path::extension_of(a) == path::extension_of(b) ==> path_language(a) == path_language(b),
        path::extension_of(a) is None ==> path_language(a) is None,
{
}

/// Whether a file of a tree, among the first that a scan comes by, marks a language.
pub open spec fn is_mark(language: Language, kept: Seq<TreeEntryView>, i: int) -> bool {
    0 <= i < kept.len() && i < MAX_WALK_ENTRIES && kept[i].is_file && marks(language, kept[i].name)
}

/// The languages of a tree are those that one of its files marks, each once, in the
/// order of languages.
pub proof fn marked_languages_are_listed(kept: Seq<TreeEntryView>, l: Language)
    ensures
        languages_of(kept).contains(l) <==> exists|i: int| #[trigger] is_mark(l, kept, i),
        forall|i: int, j: int|
            0 <= i < j < languages_of(kept).len() ==> language_rank(
                #[trigger] languages_of(kept)[i],
            ) < language_rank(#[trigger] languages_of(kept)[j]),
{
    let all = languages_of(kept);
    let java = found(Language::Java, kept);
    let rust = found(Language::Rust, kept);
    let typescript = found(Language::TypeScript, kept);
    let n = (if java {
        1int
    } else {
        0
    });
    let m = n + (if rust {
        1int
    } else {
        0
    });
    let k = m + (if typescript {
        1int
    } else {
        0
    });
    assert(java ==> all[0] == Language::Java);
    assert(rust ==> all[n] == Language::Rust);
    assert(typescript ==> all[m] == Language::TypeScript);
    assert(found(Language::JavaScript, kept) ==> all[k] == Language::JavaScript);
    if found(l, kept) {
        assert(all.contains(l));
        let i = choose|i: int|
            0 <= i < kept.len() && i < MAX_WALK_ENTRIES && (#[trigger] kept[i]).is_file && marks(
                l,
                kept[i].name,
            );
        assert(is_mark(l, kept, i));
    }
    if exists|i: int| #[trigger] is_mark(l, kept, i) {
        let i = choose|i: int| #[trigger] is_mark(l, kept, i);
        assert(kept[i].is_file && marks(l, kept[i].name));
    }
}

/// A directory that holds no source is passed over with all that stands in it. Any
/// other entry is looked at, and what stands behind it is looked at as if it were
/// not there.
pub proof fn skipped_directories_are_passed_over(
    dir: TreeEntryView,
    inside: Seq<TreeEntryView>,
    rest: Seq<TreeEntryView>,
)
    requires
        forall|i: int| 0 <= i < inside.len() ==> (#[trigger] inside[i]).depth > dir.depth,
        rest.len() > 0 ==> rest[0].depth <= dir.depth,
    ensures
        dir.depth > 0 && dir.is_dir && skipped_dir(dir.name) ==> kept_entries(
            seq![dir] + inside + rest,
            None,
        ) == kept_entries(rest, None),
        dir.depth == 0 || !dir.is_dir || !skipped_dir(dir.name) ==> kept_entries(
            seq![dir] + inside + rest,
            None,
        ) == seq![dir] + kept_entries(inside + rest, None),
{
    let all = seq![dir] + inside + rest;
    assert(all.skip(1) =~= inside + rest);
    lemma_inside_is_passed_over(dir.depth, inside, rest);
}

/// What stands in a directory that is passed over is passed over.
proof fn lemma_inside_is_passed_over(
    depth: nat,
    inside: Seq<TreeEntryView>,
    rest: Seq<TreeEntryView>,
)
    requires
        forall|i: int| 0 <= i < inside.len() ==> (#[trigger] inside[i]).depth > depth,
        rest.len() > 0 ==> rest[0].depth <= depth,
    ensures
        kept_entries(inside + rest, Some(depth)) == kept_entries(rest, None),
    decreases inside.len(),
{
    if inside.len() > 0 {
        let more = inside.skip(1);
        assert((inside + rest)[0] == inside[0]);
        assert((inside + rest).skip(1) =~= more + rest);
        assert forall|i: int| 0 <= i < more.len() implies (#[trigger] more[i]).depth > depth by {
            assert(more[i] == inside[i + 1]);
        }
        lemma_inside_is_passed_over(depth, more, rest);
    } else {
        assert(inside + rest =~= rest);
    }
}

/// The directories that hold no source of a project: those of version-control systems,
/// of build products, of packages, and of tools.
pub open spec fn sourceless_dirs() -> Seq<Seq<char>> {
    seq![
        ".git"@,
        ".jj"@,
        ".hg"@,
        "target"@,
        "build"@,
        "out"@,
        "node_modules"@,
        ".gradle"@,
        ".idea"@,
    ]
}

/// A directory is passed over exactly for its name, wherever it stands below the root;
/// the root never is, and neither is a file.
pub proof fn directories_are_skipped_by_name(depth: nat, is_dir: bool, name: Seq<char>)
    ensures
        kept_entry(depth, is_dir, name) <==> depth == 0 || !is_dir || !sourceless_dirs().contains(
            name,
        ),
{
    let names = sourceless_dirs();
    assert(names[0] == ".git"@ && names[1] == ".jj"@ && names[2] == ".hg"@ && names[3] == "target"@ && names[4] == "build"@ && names[5] == "out"@ && names[6] == "node_modules"@ && names[7] == ".gradle"@ && names[8] == ".idea"@);
}

/// The build files of a language.
pub open spec fn build_files(l: Language) -> Seq<Seq<char>> {
    match l {
        Language::Java => seq![
            "pom.xml"@,
            "build.gradle"@,
            "build.gradle.kts"@,
            "settings.gradle"@,
            "settings.gradle.kts"@,
        ],
        Language::Rust => seq!["Cargo.toml"@],
        Language::TypeScript => seq!["tsconfig.json"@],
        Language::JavaScript => seq![],
    }
}

/// A build file marks its language.
pub proof fn build_files_mark_their_language(l: Language, name: Seq<char>)
    requires
        build_files(l).contains(name),
    ensures
        marks(l, name),
{
}

} // verus!
