//! The state of a session with a language server.
//!
//! A session knows which documents the server has open, and which of them show
//! the content of another working copy: the overlay. One warm index can so serve
//! several working copies of a repository. Reading files and sending messages is
//! up to the caller; the session says what to send and keeps the books.
use vstd::prelude::*;

use crate::edit::applier;
use crate::edit::applier::resolve_path;
use crate::json;
use crate::json::{Items, Json, JsonView, Members};
use crate::lsp::uri;
use crate::lsp::uri::path_to_file_uri;
use crate::path;
use crate::path::PathBuf;
use crate::sets;
use crate::sets::{PathSet, TextSet};
use crate::text;
use crate::text::same_text;

verus! {

// ---------------------------------------------------------------------------
// Messages about documents
// ---------------------------------------------------------------------------

/// Tells the server that a document is open.
pub open spec fn did_open_json(uri: Seq<char>, language_id: Seq<char>, content: Seq<char>) -> JsonView {
    JsonView::Object(
        json::no_members().push(
            (
                "textDocument"@,
                JsonView::Object(
                    json::no_members().push(("uri"@, JsonView::Text(uri))).push(
                        ("languageId"@, JsonView::Text(language_id)),
                    ).push(("version"@, json::unsigned_json(1))).push(
                        ("text"@, JsonView::Text(content)),
                    ),
                ),
            ),
        ),
    )
}

/// Tells the server the new content of a document.
pub open spec fn did_change_json(uri: Seq<char>, version: u32, content: Seq<char>) -> JsonView {
    JsonView::Object(
        json::no_members().push(
            (
                "textDocument"@,
                JsonView::Object(
                    json::no_members().push(("uri"@, JsonView::Text(uri))).push(
                        ("version"@, json::unsigned_json(version as u64)),
                    ),
                ),
            ),
        ).push(
            (
                "contentChanges"@,
                JsonView::Array(
                    json::no_items().push(
                        JsonView::Object(
                            json::no_members().push(("text"@, JsonView::Text(content))),
                        ),
                    ),
                ),
            ),
        ),
    )
}

/// Tells the server that a document is closed.
pub open spec fn did_close_json(uri: Seq<char>) -> JsonView {
    JsonView::Object(
        json::no_members().push(
            (
                "textDocument"@,
                JsonView::Object(json::no_members().push(("uri"@, JsonView::Text(uri)))),
            ),
        ),
    )
}

/// Parameters of `textDocument/didOpen`.
pub fn did_open_params(uri: &str, language_id: &str, content: &str) -> (r: Json)
    ensures
        r@ == did_open_json(uri@, language_id@, content@),
{
    Members::new().with(
        "textDocument",
        Members::new().with("uri", Json::text(uri)).with(
            "languageId",
            Json::text(language_id),
        ).with("version", Json::unsigned(1)).with("text", Json::text(content)).done(),
    ).done()
}

/// Parameters of `textDocument/didChange`.
pub fn did_change_params(uri: &str, version: u32, content: &str) -> (r: Json)
    ensures
        r@ == did_change_json(uri@, version, content@),
{
    Members::new().with(
        "textDocument",
        Members::new().with("uri", Json::text(uri)).with(
            "version",
            Json::unsigned(version as u64),
        ).done(),
    ).with(
        "contentChanges",
        Items::new().with(Members::new().with("text", Json::text(content)).done()).done(),
    ).done()
}

/// Parameters of `textDocument/didClose`.
pub fn did_close_params(uri: &str) -> (r: Json)
    ensures
        r@ == did_close_json(uri@),
{
    Members::new().with(
        "textDocument",
        Members::new().with("uri", Json::text(uri)).done(),
    ).done()
}

// ---------------------------------------------------------------------------
// The session
// ---------------------------------------------------------------------------

/// The documents of a session. Documents are told apart by the components of
/// their paths.
#[verifier::ext_equal]
pub struct SessionView {
    /// The project root.
    pub root: Seq<char>,
    /// Source extensions and the language ids of their documents.
    pub langs: Seq<(Seq<char>, Seq<char>)>,
    /// The documents that the server has open.
    pub opened: Set<Seq<Seq<char>>>,
    /// Whether the sources have been opened.
    pub indexed: bool,
    /// Documents that were open and show the content of another working copy.
    pub overlay_changed: Set<Seq<Seq<char>>>,
    /// Documents that are open only to show the content of another working copy.
    pub overlay_opened: Set<Seq<Seq<char>>>,
    /// Whether an overlay may be active.
    pub dirty: bool,
    /// The version of the last change.
    pub version: u32,
}

/// The session of one project root.
#[derive(Debug)]
pub struct LspSession {
    root: PathBuf,
    langs: Vec<(String, String)>,
    opened: PathSet,
    indexed: bool,
    overlay_changed: PathSet,
    overlay_opened: PathSet,
    dirty: bool,
    version: u32,
}

/// What a list of extensions and language ids says.
pub open spec fn lang_views(langs: Seq<(String, String)>) -> Seq<(Seq<char>, Seq<char>)> {
    langs.map_values(|l: (String, String)| (l.0@, l.1@))
}

impl View for LspSession {
    type V = SessionView;

    closed spec fn view(&self) -> SessionView {
        SessionView {
            root: self.root@,
            langs: lang_views(self.langs@),
            opened: self.opened@,
            indexed: self.indexed,
            overlay_changed: self.overlay_changed@,
            overlay_opened: self.overlay_opened@,
            dirty: self.dirty,
            version: self.version,
        }
    }
}

/// The place of the first language with an extension.
pub open spec fn lang_at(langs: Seq<(Seq<char>, Seq<char>)>, ext: Seq<char>) -> Option<int>
    decreases langs.len(),
{
    if langs.len() == 0 {
        None
    } else {
        match lang_at(langs.drop_last(), ext) {
            Some(i) => Some(i),
            None => if langs.last().0 == ext {
                Some(langs.len() - 1)
            } else {
                None
            },
        }
    }
}

/// Whether a path is a source file, by its extension.
pub open spec fn is_source(langs: Seq<(Seq<char>, Seq<char>)>, p: Seq<char>) -> bool {
    match path::extension_of(p) {
        Some(ext) => lang_at(langs, ext) is Some,
        None => false,
    }
}

/// The language id of a document: that of its extension, else that of the first
/// language, else `plaintext`.
pub open spec fn language_id(langs: Seq<(Seq<char>, Seq<char>)>, p: Seq<char>) -> Seq<char> {
    let known = match path::extension_of(p) {
        Some(ext) => lang_at(langs, ext),
        None => None,
    };
    match known {
        Some(i) => langs[i].1,
        None => if langs.len() > 0 {
            langs[0].1
        } else {
            "plaintext"@
        },
    }
}

/// The version behind another.
pub open spec fn version_after(version: u32) -> u32 {
    if version == u32::MAX {
        0
    } else {
        (version + 1) as u32
    }
}

impl SessionView {
    /// A path seen from the root.
    pub open spec fn abs(self, p: Seq<char>) -> Seq<char> {
        applier::resolved(p, self.root)
    }

    /// The documents that are open and do not belong to the overlay alone.
    pub open spec fn base(self) -> Set<Seq<Seq<char>>> {
        self.opened.difference(self.overlay_opened)
    }

    /// Whether no document shows the content of another working copy.
    pub open spec fn clean(self) -> bool {
        self.overlay_changed == Set::<Seq<Seq<char>>>::empty() && self.overlay_opened == Set::<
            Seq<Seq<char>>,
        >::empty()
    }

    /// The session with a document open.
    pub open spec fn with_opened(self, p: Seq<char>) -> SessionView {
        SessionView { opened: self.opened.insert(path::components(p)), ..self }
    }

    /// The session with an open document overlaid.
    pub open spec fn with_overlay_change(self, p: Seq<char>) -> SessionView {
        SessionView {
            overlay_changed: self.overlay_changed.insert(path::components(p)),
            dirty: true,
            ..self
        }
    }

    /// The session with a document opened for the overlay.
    pub open spec fn with_overlay_open(self, p: Seq<char>) -> SessionView {
        SessionView {
            opened: self.opened.insert(path::components(p)),
            overlay_opened: self.overlay_opened.insert(path::components(p)),
            dirty: true,
            ..self
        }
    }

    /// The session with the overlay undone.
    pub open spec fn restored(self) -> SessionView {
        SessionView {
            opened: self.base(),
            overlay_changed: Set::empty(),
            overlay_opened: Set::empty(),
            dirty: false,
            ..self
        }
    }
}

/// What opening a document takes.
#[derive(Debug, Clone, PartialEq, Eq)]
pub enum EnsureOpen {
    /// The server has it open.
    AlreadyOpen {
        /// URI of the document.
        uri: String,
    },
    /// Its content has to be read and sent.
    ReadAndSend {
        /// File to read.
        file: PathBuf,
        /// URI of the document.
        uri: String,
        /// Language id of the document.
        language_id: String,
    },
}

/// What an [`EnsureOpen`] says.
pub enum EnsureOpenView {
    AlreadyOpen { uri: Seq<char> },
    ReadAndSend { file: Seq<char>, uri: Seq<char>, language_id: Seq<char> },
}

impl View for EnsureOpen {
    type V = EnsureOpenView;

    open spec fn view(&self) -> EnsureOpenView {
        match self {
            EnsureOpen::AlreadyOpen { uri } => EnsureOpenView::AlreadyOpen { uri: uri@ },
            EnsureOpen::ReadAndSend { file, uri, language_id } => EnsureOpenView::ReadAndSend {
                file: file@,
                uri: uri@,
                language_id: language_id@,
            },
        }
    }
}

/// What overlaying one file takes.
#[derive(Debug, PartialEq, Eq)]
pub enum OverlayStep {
    /// Nothing: the file is no source file, or could not be read.
    Skip,
    /// The new content of an open document has to be sent.
    Change {
        /// Path of the document under the base root.
        file: PathBuf,
        /// URI of the document.
        uri: String,
        /// Parameters of `textDocument/didChange`.
        params: Json,
    },
    /// The document has to be opened with the content.
    Open {
        /// Path of the document under the base root.
        file: PathBuf,
        /// URI of the document.
        uri: String,
        /// Parameters of `textDocument/didOpen`.
        params: Json,
    },
}

/// What an [`OverlayStep`] says.
pub enum OverlayStepView {
    Skip,
    Change { file: Seq<char>, uri: Seq<char>, params: JsonView },
    Open { file: Seq<char>, uri: Seq<char>, params: JsonView },
}

impl View for OverlayStep {
    type V = OverlayStepView;

    open spec fn view(&self) -> OverlayStepView {
        match self {
            OverlayStep::Skip => OverlayStepView::Skip,
            OverlayStep::Change { file, uri, params } => OverlayStepView::Change {
                file: file@,
                uri: uri@,
                params: params@,
            },
            OverlayStep::Open { file, uri, params } => OverlayStepView::Open {
                file: file@,
                uri: uri@,
                params: params@,
            },
        }
    }
}

/// What overlaying one file takes, and the session that has decided it.
pub open spec fn overlay_step(s: SessionView, rel: Seq<char>, content: Option<Seq<char>>) -> (
    OverlayStepView,
    SessionView,
) {
    let file = path::joined(s.root, rel);
    let uri = uri::uri_of(file);
    match content {
        Some(c) if is_source(s.langs, rel) => if s.opened.contains(path::components(file)) {
            let version = version_after(s.version);
            (
                OverlayStepView::Change { file, uri, params: did_change_json(uri, version, c) },
                SessionView { version, ..s },
            )
        } else {
            (
                OverlayStepView::Open {
                    file,
                    uri,
                    params: did_open_json(uri, language_id(s.langs, file), c),
                },
                s,
            )
        },
        _ => (OverlayStepView::Skip, s),
    }
}

/// The session once the server has been sent what a step takes.
pub open spec fn overlay_marked(s: SessionView, step: OverlayStepView) -> SessionView {
    match step {
        OverlayStepView::Skip => s,
        OverlayStepView::Change { file, .. } => s.with_overlay_change(file),
        OverlayStepView::Open { file, .. } => s.with_overlay_open(file),
    }
}

/// The overlay that is being undone.
#[derive(Debug)]
pub struct Restore {
    /// Documents to change back to the content of their files.
    pub changed: PathSet,
    /// Documents to close.
    pub opened: PathSet,
}

/// What the server has to be told of files that changed on disk.
#[derive(Debug, PartialEq, Eq)]
pub struct SyncPlan {
    /// URIs of documents to close.
    pub close: Vec<String>,
    /// Parameters of `workspace/didChangeWatchedFiles`.
    pub watch: Json,
}

/// The documents that are open once the changed ones have been closed.
pub open spec fn opened_after_sync(
    s: SessionView,
    changed: Seq<Seq<char>>,
) -> Set<Seq<Seq<char>>>
    decreases changed.len(),
{
    if changed.len() == 0 {
        s.opened
    } else {
        opened_after_sync(s, changed.drop_last()).remove(path::components(s.abs(changed.last())))
    }
}

/// The URIs of the changed documents that were open, in order.
pub open spec fn closed_by_sync(s: SessionView, changed: Seq<Seq<char>>) -> Seq<Seq<char>>
    decreases changed.len(),
{
    if changed.len() == 0 {
        seq![]
    } else {
        let before = closed_by_sync(s, changed.drop_last());
        let p = s.abs(changed.last());
        if opened_after_sync(s, changed.drop_last()).contains(path::components(p)) {
            before.push(uri::uri_of(p))
        } else {
            before
        }
    }
}

/// The announcement of one changed file.
pub open spec fn watched_json(uri: Seq<char>) -> JsonView {
    JsonView::Object(
        json::no_members().push(("uri"@, JsonView::Text(uri))).push(
            ("type"@, json::unsigned_json(2)),
        ),
    )
}

/// The announcement of changed files.
pub open spec fn watch_json(s: SessionView, changed: Seq<Seq<char>>) -> JsonView {
    JsonView::Object(
        json::no_members().push(
            (
                "changes"@,
                JsonView::Array(
                    changed.map_values(|p: Seq<char>| watched_json(uri::uri_of(s.abs(p)))),
                ),
            ),
        ),
    )
}

/// What opening a document takes.
pub open spec fn opening_of(s: SessionView, p: Seq<char>) -> EnsureOpenView {
    let file = s.abs(p);
    if s.opened.contains(path::components(file)) {
        EnsureOpenView::AlreadyOpen { uri: uri::uri_of(file) }
    } else {
        EnsureOpenView::ReadAndSend {
            file,
            uri: uri::uri_of(file),
            language_id: language_id(s.langs, file),
        }
    }
}

/// Whether a working copy is another directory than the root of a session.
pub open spec fn is_elsewhere(s: SessionView, workspace: Seq<char>) -> bool {
    path::components(workspace) != path::components(s.root)
}

/// A session in which nothing is open.
pub open spec fn fresh(root: Seq<char>, langs: Seq<(Seq<char>, Seq<char>)>) -> SessionView {
    SessionView {
        root,
        langs,
        opened: Set::empty(),
        indexed: false,
        overlay_changed: Set::empty(),
        overlay_opened: Set::empty(),
        dirty: false,
        version: 1,
    }
}

impl LspSession {
    /// Overlaid documents are known to be there.
    pub closed spec fn wf(&self) -> bool {
        self@.clean() || self.dirty
    }

    /// A session for `root` in which nothing is open. `langs` gives each source
    /// extension the language id of its documents.
    pub fn new(root: &PathBuf, langs: Vec<(String, String)>) -> (r: LspSession)
        ensures
            r.wf(),
            r@ == fresh(root@, lang_views(langs@)),
    {
        LspSession {
            root: root.clone(),
            langs,
            opened: PathSet::new(),
            indexed: false,
            overlay_changed: PathSet::new(),
            overlay_opened: PathSet::new(),
            dirty: false,
            version: 1,
        }
    }

    /// The project root.
    pub fn root(&self) -> (r: &PathBuf)
        ensures
            r@ == self@.root,
    {
        &self.root
    }

    /// A path seen from the root.
    pub fn abs(&self, p: &PathBuf) -> (r: PathBuf)
        ensures
            r@ == self@.abs(p@),
    {
        resolve_path(p, &self.root)
    }

    /// The URI of a path seen from the root.
    pub fn uri_for(&self, p: &PathBuf) -> (r: String)
        ensures
            r@ == uri::uri_of(self@.abs(p@)),
    {
        path_to_file_uri(&self.abs(p))
    }

    /// Whether the server has a document open.
    pub fn is_open(&self, p: &PathBuf) -> (r: bool)
        ensures
            r == self@.opened.contains(path::components(self@.abs(p@))),
    {
        let abs = self.abs(p);
        self.opened.contains(&abs)
    }

    /// The place of the first language with the extension of a path.
    fn lang_of(&self, p: &PathBuf) -> (r: Option<usize>)
        ensures
            match path::extension_of(p@) {
                Some(ext) => match (r, lang_at(self@.langs, ext)) {
                    (Some(i), Some(k)) => i == k && i < self.langs@.len(),
                    (None, None) => true,
                    _ => false,
                },
                None => r is None,
            },
    {
        let ext = match p.extension() {
            Some(ext) => ext,
            None => {
                return None;
            },
        };
        let ghost all = lang_views(self.langs@);
        let mut i: usize = 0;
        assert(all.take(0) =~= seq![]);
        while i < self.langs.len()
            invariant
                i <= self.langs@.len(),
                all == lang_views(self.langs@),
                all == self@.langs,
                path::extension_of(p@) == Some(ext@),
                lang_at(all.take(i as int), ext@) is None,
            decreases self.langs@.len() - i,
        {
            proof {
                let now = all.take(i + 1);
                assert(now.drop_last() =~= all.take(i as int));
                assert(now.last() == (self.langs@[i as int].0@, self.langs@[i as int].1@));
            }
            if same_text(self.langs[i].0.as_str(), ext.as_str()) {
                proof {
                    lemma_lang_at_stays(all, ext@, i + 1);
                }
                return Some(i);
            }
            i += 1;
        }
        assert(all.take(i as int) =~= all);
        None
    }

    /// Whether a path is a source file of this session, by its extension.
    pub fn indexes(&self, p: &PathBuf) -> (r: bool)
        ensures
            r == is_source(self@.langs, p@),
    {
        self.lang_of(p).is_some()
    }

    /// The language id of a document.
    pub fn language_id_for(&self, p: &PathBuf) -> (r: String)
        ensures
            r@ == language_id(self@.langs, p@),
    {
        match self.lang_of(p) {
            Some(i) => {
                assert(self@.langs[i as int].1 == self.langs@[i as int].1@);
                self.langs[i].1.clone()
            },
            None => if self.langs.len() > 0 {
                assert(self@.langs[0].1 == self.langs@[0].1@);
                self.langs[0].1.clone()
            } else {
                "plaintext".to_owned()
            },
        }
    }

    /// What opening a document takes.
    pub fn ensure_open(&self, p: &PathBuf) -> (r: EnsureOpen)
        ensures
            ({
                let file = self@.abs(p@);
                match r {
                    EnsureOpen::AlreadyOpen { uri } => self@.opened.contains(path::components(file))
                        && uri@ == uri::uri_of(file),
                    EnsureOpen::ReadAndSend { file: f, uri, language_id: id } =>
                        !self@.opened.contains(path::components(file)) && f@ == file && uri@
                            == uri::uri_of(file) && id@ == language_id(self@.langs, file),
                }
            }),
            r@ == opening_of(self@, p@),
    {
        let file = self.abs(p);
        let uri = path_to_file_uri(&file);
        if self.opened.contains(&file) {
            return EnsureOpen::AlreadyOpen { uri };
        }
        let language_id = self.language_id_for(&file);
        EnsureOpen::ReadAndSend { file, uri, language_id }
    }

    /// Notes that the server has been sent a document.
    pub fn mark_opened(&mut self, file: PathBuf)
        ensures
            final(self)@ == old(self)@.with_opened(file@),
            old(self).wf() ==> final(self).wf(),
    {
        self.opened.insert(file);
    }

    /// Whether the sources have yet to be opened. They are not asked for twice.
    pub fn begin_indexing(&mut self) -> (r: bool)
        ensures
            r == !old(self)@.indexed,
            final(self)@ == (SessionView { indexed: true, ..old(self)@ }),
            old(self).wf() ==> final(self).wf(),
    {
        let first = !self.indexed;
        self.indexed = true;
        first
    }

    /// Counts a change and gives its version.
    fn next_version(&mut self) -> (r: u32)
        ensures
            r == version_after(old(self)@.version),
            final(self)@ == (SessionView {
                version: version_after(old(self)@.version),
                ..old(self)@
            }),
            old(self).wf() ==> final(self).wf(),
    {
        self.version = if self.version == u32::MAX {
            0
        } else {
            self.version + 1
        };
        self.version
    }

    /// Counts a change of `uri` to `content` and gives the parameters of
    /// `textDocument/didChange`.
    pub fn change(&mut self, uri: &str, content: &str) -> (r: Json)
        ensures
            r@ == did_change_json(uri@, version_after(old(self)@.version), content@),
            final(self)@ == (SessionView {
                version: version_after(old(self)@.version),
                ..old(self)@
            }),
            old(self).wf() ==> final(self).wf(),
    {
        let version = self.next_version();
        did_change_params(uri, version, content)
    }

    /// Takes note of files that changed on disk: those that were open count as
    /// closed, and all are announced.
    pub fn sync_changed(&mut self, changed: &Vec<PathBuf>) -> (r: SyncPlan)
        ensures
            final(self)@ == (SessionView {
                opened: opened_after_sync(old(self)@, path::texts(changed@)),
                ..old(self)@
            }),
            old(self).wf() ==> final(self).wf(),
            text::texts(r.close@) == closed_by_sync(old(self)@, path::texts(changed@)),
            r.watch@ == watch_json(old(self)@, path::texts(changed@)),
            r.watch@ == JsonView::Object(
                json::no_members().push(
                    (
                        "changes"@,
                        JsonView::Array(
                            path::texts(changed@).map_values(
                                |p: Seq<char>| watched_json(uri::uri_of(old(self)@.abs(p))),
                            ),
                        ),
                    ),
                ),
            ),
    {
        let ghost start = self@;
        let ghost all = path::texts(changed@);
        let ghost want = all.map_values(|p: Seq<char>| watched_json(uri::uri_of(start.abs(p))));
        let mut close: Vec<String> = Vec::new();
        let mut watch: Vec<Json> = Vec::new();
        let mut i: usize = 0;
        assert(all.take(0) =~= seq![]);
        assert(text::texts(close@) =~= seq![]);
        assert(json::json_views(watch@) =~= want.take(0));
        while i < changed.len()
            invariant
                i <= changed@.len(),
                start == old(self)@,
                all == path::texts(changed@),
                want == all.map_values(|p: Seq<char>| watched_json(uri::uri_of(start.abs(p)))),
                self@ == (SessionView {
                    opened: opened_after_sync(start, all.take(i as int)),
                    ..start
                }),
                old(self).wf() ==> self.wf(),
                text::texts(close@) == closed_by_sync(start, all.take(i as int)),
                json::json_views(watch@) == want.take(i as int),
            decreases changed@.len() - i,
        {
            let file = self.abs(&changed[i]);
            let uri = path_to_file_uri(&file);
            proof {
                let now = all.take(i + 1);
                assert(now.drop_last() =~= all.take(i as int));
                assert(now.last() == changed@[i as int]@);
            }
            let ghost closed = text::texts(close@);
            let ghost watched = json::json_views(watch@);
            if self.opened.remove(&file) {
                close.push(uri.clone());
                assert(text::texts(close@) =~= closed.push(uri@));
            }
            watch.push(
                Members::new().with("uri", Json::text(uri.as_str())).with(
                    "type",
                    Json::unsigned(2),
                ).done(),
            );
            proof {
                assert(watch@.last()@ == want[i as int]);
                assert(json::json_views(watch@) =~= watched.push(want[i as int]));
                assert(want.take(i + 1) =~= want.take(i as int).push(want[i as int]));
                assert(self@.opened == opened_after_sync(start, all.take(i + 1)));
            }
            i += 1;
        }
        assert(all.take(i as int) =~= all);
        assert(want.take(i as int) =~= want);
        let watch = Members::new().with("changes", Json::list(watch)).done();
        SyncPlan { close, watch }
    }

    /// Whether an overlay was left behind and has to be undone before the next
    /// request.
    pub fn has_leaked_overlay(&self) -> (r: bool)
        ensures
            r == self@.dirty,
    {
        self.dirty
    }

    /// Whether a working copy differs from the base checkout, so that its files
    /// have to be overlaid.
    pub fn needs_overlay(&self, workspace_root: &PathBuf) -> (r: bool)
        ensures
            r == (path::components(workspace_root@) != path::components(self@.root)),
            r == is_elsewhere(self@, workspace_root@),
    {
        *workspace_root != self.root
    }

    /// What overlaying one modified file of a working copy takes; `content` is
    /// its content there, or nothing where it could not be read.
    pub fn overlay_file(&mut self, rel: &PathBuf, content: &Option<String>) -> (r: OverlayStep)
        ensures
            ({
                let file = path::joined(old(self)@.root, rel@);
                let open = old(self)@.opened.contains(path::components(file));
                match (*content, is_source(old(self)@.langs, rel@)) {
                    (Some(c), true) => if open {
                        &&& r matches OverlayStep::Change { file: f, uri, params }
                        &&& f@ == file
                        &&& uri@ == uri::uri_of(file)
                        &&& params@ == did_change_json(
                            uri::uri_of(file),
                            version_after(old(self)@.version),
                            c@,
                        )
                        &&& final(self)@ == (SessionView {
                            version: version_after(old(self)@.version),
                            ..old(self)@
                        })
                    } else {
                        &&& r matches OverlayStep::Open { file: f, uri, params }
                        &&& f@ == file
                        &&& uri@ == uri::uri_of(file)
                        &&& params@ == did_open_json(
                            uri::uri_of(file),
                            language_id(old(self)@.langs, file),
                            c@,
                        )
                        &&& final(self)@ == old(self)@
                    },
                    _ => r == OverlayStep::Skip && final(self)@ == old(self)@,
                }
            }),
            (r@, final(self)@) == overlay_step(old(self)@, rel@, text::optional(*content)),
            old(self).wf() ==> final(self).wf(),
    {
        if !self.indexes(rel) {
            return OverlayStep::Skip;
        }
        let content = match content {
            Some(content) => content,
            None => {
                return OverlayStep::Skip;
            },
        };
        let file = self.root.join(rel);
        let uri = path_to_file_uri(&file);
        if self.opened.contains(&file) {
            let params = self.change(uri.as_str(), content.as_str());
            OverlayStep::Change { file, uri, params }
        } else {
            let id = self.language_id_for(&file);
            let params = did_open_params(uri.as_str(), id.as_str(), content.as_str());
            OverlayStep::Open { file, uri, params }
        }
    }

    /// Notes that the server has been sent the content of an overlaid file.
    pub fn mark_overlaid(&mut self, step: &OverlayStep)
        ensures
            final(self)@ == match *step {
                OverlayStep::Skip => old(self)@,
                OverlayStep::Change { file, .. } => old(self)@.with_overlay_change(file@),
                OverlayStep::Open { file, .. } => old(self)@.with_overlay_open(file@),
            },
            final(self)@ == overlay_marked(old(self)@, step@),
            old(self).wf() ==> final(self).wf(),
    {
        match step {
            OverlayStep::Skip => {},
            OverlayStep::Change { file, .. } => {
                self.overlay_changed.insert(file.clone());
                self.dirty = true;
            },
            OverlayStep::Open { file, .. } => {
                self.opened.insert(file.clone());
                self.overlay_opened.insert(file.clone());
                self.dirty = true;
            },
        }
    }

    /// Undoes the overlay in the books and returns its documents: those to change
    /// back to the content of their files, and those to close.
    pub fn restore_overlay(&mut self) -> (r: Restore)
        ensures
            r.changed@ == old(self)@.overlay_changed,
            r.opened@ == old(self)@.overlay_opened,
            final(self)@ == old(self)@.restored(),
            final(self).wf(),
    {
        let changed = self.overlay_changed.take();
        let opened = self.overlay_opened.take();
        let ghost start = self.opened@;
        let ghost gone = opened.listing();
        let mut i: usize = 0;
        let n: usize = opened.items().len();
        assert(sets::path_set(gone.take(0)) =~= Set::empty());
        assert(start.difference(sets::path_set(gone.take(0))) =~= start);
        while i < n
            invariant
                i <= n,
                n == gone.len(),
                gone == opened.listing(),
                self.opened@ == start.difference(sets::path_set(gone.take(i as int))),
                self.root == old(self).root,
                self.langs == old(self).langs,
                self.indexed == old(self).indexed,
                self.version == old(self).version,
                self.overlay_changed@ == Set::<Seq<Seq<char>>>::empty(),
                self.overlay_opened@ == Set::<Seq<Seq<char>>>::empty(),
            decreases n - i,
        {
            let items = opened.items();
            self.opened.remove(&items[i]);
            proof {
                lemma_path_set_step(gone, i as int);
                assert(start.difference(sets::path_set(gone.take(i as int))).remove(
                    path::components(gone[i as int]@),
                ) =~= start.difference(sets::path_set(gone.take(i + 1))));
            }
            i += 1;
        }
        assert(gone.take(i as int) =~= gone);
        self.dirty = false;
        assert(sets::path_set(gone) == opened@) by {
            opened.lists_its_paths();
        }
        assert(self@ =~= old(self)@.restored());
        Restore { changed, opened }
    }
}

/// One more path in a list is one more in its set.
proof fn lemma_path_set_step(v: Seq<PathBuf>, i: int)
    requires
        0 <= i < v.len(),
    ensures
        sets::path_set(v.take(i + 1)) == sets::path_set(v.take(i)).insert(
            path::components(v[i]@),
        ),
{
    let front = v.take(i);
    let now = v.take(i + 1);
    assert forall|c: Seq<Seq<char>>| #[trigger] sets::path_set(now).contains(c) <==> sets::path_set(
        front,
    ).insert(path::components(v[i]@)).contains(c) by {
        if sets::path_set(now).contains(c) {
            let k = choose|k: int|
                0 <= k < now.len() && path::components((#[trigger] now[k])@) == c;
            if k < i {
                assert(front[k] == now[k]);
            }
        }
        if sets::path_set(front).contains(c) {
            let k = choose|k: int|
                0 <= k < front.len() && path::components((#[trigger] front[k])@) == c;
            assert(now[k] == front[k]);
        }
        if c == path::components(v[i]@) {
            assert(path::components(now[i]@) == c);
        }
    }
    assert(sets::path_set(now) =~= sets::path_set(front).insert(path::components(v[i]@)));
}

/// The first language with an extension stays the first.
proof fn lemma_lang_at_stays(langs: Seq<(Seq<char>, Seq<char>)>, ext: Seq<char>, n: int)
    requires
        0 <= n <= langs.len(),
        lang_at(langs.take(n), ext) is Some,
    ensures
        lang_at(langs, ext) == lang_at(langs.take(n), ext),
    decreases langs.len(),
{
    if n == langs.len() {
        assert(langs.take(n) =~= langs);
    } else {
        assert(langs.drop_last().take(n) =~= langs.take(n));
        lemma_lang_at_stays(langs.drop_last(), ext, n);
    }
}

// ---------------------------------------------------------------------------
// Waiting for the server
// ---------------------------------------------------------------------------

/// Documents that the server has been sent and has not yet come to terms with.
#[derive(Debug)]
pub struct Reconcile {
    pending: TextSet,
}

impl View for Reconcile {
    type V = Set<Seq<char>>;

    /// The URIs that are waited for.
    closed spec fn view(&self) -> Set<Seq<char>> {
        self.pending@
    }
}

/// The URIs that are waited for once a notification has come: diagnostics of a
/// document show that the server has come to terms with it.
pub open spec fn pending_after(
    pending: Set<Seq<char>>,
    method: Seq<char>,
    params: JsonView,
) -> Set<Seq<char>> {
    match params.get_text("uri"@) {
        Some(uri) => if method == "textDocument/publishDiagnostics"@ {
            pending.remove(uri)
        } else {
            pending
        },
        None => pending,
    }
}

impl Reconcile {
    /// Nothing to wait for.
    pub fn new() -> (r: Reconcile)
        ensures
            r@ == Set::<Seq<char>>::empty(),
    {
        Reconcile { pending: TextSet::new() }
    }

    /// One more document to wait for.
    pub fn expect(&mut self, uri: String)
        ensures
            final(self)@ == old(self)@.insert(uri@),
    {
        self.pending.insert(uri);
    }

    /// Whether there is nothing left to wait for.
    pub fn is_done(&self) -> (r: bool)
        ensures
            r == (self@ == Set::<Seq<char>>::empty()),
    {
        self.pending.is_empty()
    }

    /// Takes in a notification of the server.
    pub fn notice(&mut self, method: &str, params: &Json)
        ensures
            final(self)@ == pending_after(old(self)@, method@, params@),
    {
        if same_text(method, "textDocument/publishDiagnostics") {
            if let Some(uri) = params.get_str("uri") {
                self.pending.remove(uri);
            }
        }
    }
}

// ---------------------------------------------------------------------------
// Collecting source files
// ---------------------------------------------------------------------------

/// The number of source files that are opened to index a project.
pub const MAX_INDEX_FILES: usize = 2000;

/// The directories that are not searched for source files.
pub open spec fn unindexed_dir(name: Seq<char>) -> bool {
    ||| name == ".git"@
    ||| name == ".jj"@
    ||| name == ".data"@
    ||| name == "config"@
    ||| name == "target"@
    ||| name == "build"@
    ||| name == "out"@
    ||| name == "node_modules"@
    ||| name == ".gradle"@
}

/// Whether a directory is not searched for source files.
fn is_unindexed_dir(name: &str) -> (r: bool)
    ensures
        r == unindexed_dir(name@),
{
    same_text(name, ".git") || same_text(name, ".jj") || same_text(name, ".data") || same_text(
        name,
        "config",
    ) || same_text(name, "target") || same_text(name, "build") || same_text(name, "out")
        || same_text(name, "node_modules") || same_text(name, ".gradle")
}

/// An entry of a directory.
#[derive(Debug, Clone, PartialEq, Eq)]
pub struct DirEntry {
    /// Its path.
    pub path: PathBuf,
    /// Its name.
    pub name: String,
    /// Whether it is a directory.
    pub is_dir: bool,
}

/// What a [`DirEntry`] says.
pub struct DirEntryView {
    pub path: Seq<char>,
    pub name: Seq<char>,
    pub is_dir: bool,
}

impl View for DirEntry {
    type V = DirEntryView;

    open spec fn view(&self) -> DirEntryView {
        DirEntryView { path: self.path@, name: self.name@, is_dir: self.is_dir }
    }
}

/// A search for source files: the directories yet to be searched, the last of
/// them first, and the files found.
#[verifier::ext_equal]
pub struct SourceWalkView {
    pub stack: Seq<Seq<char>>,
    pub found: Seq<Seq<char>>,
    pub full: bool,
}

/// The search once an entry of a directory has been looked at. The search is over
/// when an entry comes by and enough files have been found.
pub open spec fn walked(
    w: SourceWalkView,
    langs: Seq<(Seq<char>, Seq<char>)>,
    entry: DirEntryView,
) -> SourceWalkView {
    if w.full || w.found.len() >= MAX_INDEX_FILES {
        SourceWalkView { full: true, ..w }
    } else if entry.is_dir {
        if unindexed_dir(entry.name) {
            w
        } else {
            SourceWalkView { stack: w.stack.push(entry.path), ..w }
        }
    } else if is_source(langs, entry.path) {
        SourceWalkView { found: w.found.push(entry.path), ..w }
    } else {
        w
    }
}

/// The search once all entries of a directory have been looked at.
pub open spec fn walked_all(
    w: SourceWalkView,
    langs: Seq<(Seq<char>, Seq<char>)>,
    entries: Seq<DirEntryView>,
) -> SourceWalkView
    decreases entries.len(),
{
    if entries.len() == 0 {
        w
    } else {
        walked(walked_all(w, langs, entries.drop_last()), langs, entries.last())
    }
}

/// A search for the source files of a session.
#[derive(Debug)]
pub struct SourceWalk {
    stack: Vec<PathBuf>,
    found: Vec<PathBuf>,
    full: bool,
}

impl View for SourceWalk {
    type V = SourceWalkView;

    closed spec fn view(&self) -> SourceWalkView {
        SourceWalkView {
            stack: path::texts(self.stack@),
            found: path::texts(self.found@),
            full: self.full,
        }
    }
}

impl SourceWalk {
    /// A search that starts at `root`.
    pub fn new(root: &PathBuf) -> (r: SourceWalk)
        ensures
            r@ == (SourceWalkView { stack: seq![root@], found: seq![], full: false }),
    {
        let mut stack: Vec<PathBuf> = Vec::new();
        stack.push(root.clone());
        let r = SourceWalk { stack, found: Vec::new(), full: false };
        assert(r@ =~= (SourceWalkView { stack: seq![root@], found: seq![], full: false }));
        r
    }

    /// The directory to search next; `None` when the search is over.
    pub fn next_dir(&mut self) -> (r: Option<PathBuf>)
        ensures
            match r {
                Some(dir) => !old(self)@.full && old(self)@.stack.len() > 0 && dir@ == old(
                    self,
                )@.stack.last() && final(self)@ == (SourceWalkView {
                    stack: old(self)@.stack.drop_last(),
                    ..old(self)@
                }),
                None => (old(self)@.full || old(self)@.stack.len() == 0) && final(self)@ == old(
                    self,
                )@,
            },
    {
        if self.full {
            return None;
        }
        let ghost before = self@;
        match self.stack.pop() {
            Some(dir) => {
                assert(self@ =~= (SourceWalkView { stack: before.stack.drop_last(), ..before }));
                assert(dir@ == before.stack.last());
                Some(dir)
            },
            None => {
                assert(self@ =~= before);
                None
            },
        }
    }

    /// Looks at the entries of a directory.
    pub fn search(&mut self, session: &LspSession, entries: &Vec<DirEntry>)
        ensures
            final(self)@ == walked_all(
                old(self)@,
                session@.langs,
                entries@.map_values(|e: DirEntry| e@),
            ),
    {
        let ghost start = self@;
        let ghost all = entries@.map_values(|e: DirEntry| e@);
        let mut i: usize = 0;
        assert(all.take(0) =~= seq![]);
        while i < entries.len()
            invariant
                i <= entries@.len(),
                start == old(self)@,
                all == entries@.map_values(|e: DirEntry| e@),
                self@ == walked_all(start, session@.langs, all.take(i as int)),
            decreases entries@.len() - i,
        {
            let ghost before = self@;
            proof {
                let now = all.take(i + 1);
                assert(now.drop_last() =~= all.take(i as int));
                assert(now.last() == entries@[i as int]@);
            }
            if self.full || self.found.len() >= MAX_INDEX_FILES {
                self.full = true;
            } else if entries[i].is_dir {
                if !is_unindexed_dir(entries[i].name.as_str()) {
                    self.stack.push(entries[i].path.clone());
                    assert(self@.stack =~= before.stack.push(entries@[i as int]@.path));
                }
            } else if session.indexes(&entries[i].path) {
                self.found.push(entries[i].path.clone());
                assert(self@.found =~= before.found.push(entries@[i as int]@.path));
            }
            assert(self@ =~= walked(before, session@.langs, entries@[i as int]@));
            i += 1;
        }
        assert(all.take(i as int) =~= all);
    }

    /// The files that the search has found.
    pub fn files(self) -> (r: Vec<PathBuf>)
        ensures
            path::texts(r@) == self@.found,
    {
        self.found
    }
}

// ---------------------------------------------------------------------------
// Laws
// ---------------------------------------------------------------------------

/// The session once a file of another working copy has been overlaid.
pub open spec fn overlaid(s: SessionView, file: Seq<char>) -> SessionView {
    if s.opened.contains(path::components(file)) {
        SessionView { version: version_after(s.version), ..s }.with_overlay_change(file)
    } else {
        s.with_overlay_open(file)
    }
}

/// The session once several files of another working copy have been overlaid.
pub open spec fn overlaid_all(s: SessionView, files: Seq<Seq<char>>) -> SessionView
    decreases files.len(),
{
    if files.len() == 0 {
        s
    } else {
        overlaid(overlaid_all(s, files.drop_last()), files.last())
    }
}

/// Overlaying changes neither what is open for its own sake nor anything else but
/// the overlay.
proof fn lemma_overlay_keeps_base(s: SessionView, files: Seq<Seq<char>>)
    ensures
        overlaid_all(s, files).base() == s.base(),
        overlaid_all(s, files).root == s.root,
        overlaid_all(s, files).langs == s.langs,
        overlaid_all(s, files).indexed == s.indexed,
        files.len() > 0 ==> overlaid_all(s, files).dirty,
    decreases files.len(),
{
    if files.len() > 0 {
        lemma_overlay_keeps_base(s, files.drop_last());
        let before = overlaid_all(s, files.drop_last());
        let c = path::components(files.last());
        let after = overlaid_all(s, files);
        assert(after.base() =~= before.base());
    }
}

/// Undoing an overlay leaves open exactly the documents that were open before it,
/// and leaves nothing of it behind.
pub proof fn restore_undoes_overlay(s: SessionView, files: Seq<Seq<char>>)
    requires
        s.clean(),
    ensures
        ({
            let after = overlaid_all(s, files).restored();
            &&& after.opened == s.opened
            &&& after.clean()
            &&& !after.dirty
            &&& after.root == s.root
            &&& after.langs == s.langs
            &&& after.indexed == s.indexed
        }),
{
    lemma_overlay_keeps_base(s, files);
    assert(s.base() =~= s.opened);
}

/// While a file is overlaid, the session knows that an overlay is active.
pub proof fn overlay_is_never_forgotten(s: SessionView, files: Seq<Seq<char>>)
    requires
        files.len() > 0,
    ensures
        overlaid_all(s, files).dirty,
{
    lemma_overlay_keeps_base(s, files);
}

/// Undoing an overlay twice is undoing it once.
pub proof fn restore_is_idempotent(s: SessionView)
    ensures
        s.restored().restored() == s.restored(),
        s.restored().clean(),
{
    assert(s.restored().restored() =~= s.restored());
}

/// Documents that are open for their own sake stay open, with or without an
/// overlay.
pub proof fn overlay_keeps_open_documents(
    s: SessionView,
    files: Seq<Seq<char>>,
    doc: Seq<Seq<char>>,
)
    requires
        s.base().contains(doc),
    ensures
        overlaid_all(s, files).opened.contains(doc),
        overlaid_all(s, files).restored().opened.contains(doc),
{
    lemma_overlay_keeps_base(s, files);
    assert(overlaid_all(s, files).base().contains(doc));
}

/// A changed file counts as closed afterwards.
pub proof fn changed_files_are_closed(s: SessionView, changed: Seq<Seq<char>>, i: int)
    requires
        0 <= i < changed.len(),
    ensures
        !opened_after_sync(s, changed).contains(path::components(s.abs(changed[i]))),
    decreases changed.len(),
{
    if i < changed.len() - 1 {
        changed_files_are_closed(s, changed.drop_last(), i);
    }
}

/// A search finds no more files than are opened to index a project, and it finds
/// source files only.
pub proof fn search_is_bounded(
    w: SourceWalkView,
    langs: Seq<(Seq<char>, Seq<char>)>,
    entries: Seq<DirEntryView>,
)
    requires
        w.found.len() <= MAX_INDEX_FILES,
        forall|i: int| 0 <= i < w.found.len() ==> is_source(langs, #[trigger] w.found[i]),
    ensures
        walked_all(w, langs, entries).found.len() <= MAX_INDEX_FILES,
        forall|i: int|
            0 <= i < walked_all(w, langs, entries).found.len() ==> is_source(
                langs,
                #[trigger] walked_all(w, langs, entries).found[i],
            ),
    decreases entries.len(),
{
    if entries.len() > 0 {
        search_is_bounded(w, langs, entries.drop_last());
    }
}

/// The texts of the documents that a server has open, by their URIs.
pub type Documents = Map<Seq<char>, Seq<char>>;

/// A text once a list of changes has been made to it in turn. A change without a range
/// replaces the whole text.
pub open spec fn text_after(text: Seq<char>, changes: Seq<JsonView>) -> Seq<char>
    decreases changes.len(),
{
    if changes.len() == 0 {
        text
    } else {
        let before = text_after(text, changes.drop_last());
        match (changes.last().get("range"@), changes.last().get_text("text"@)) {
            (None, Some(new)) => new,
            _ => before,
        }
    }
}

/// The documents of a server that has taken in a message about one of them.
pub open spec fn documents_after(
    docs: Documents,
    method: Seq<char>,
    params: JsonView,
) -> Documents {
    match json::inner(params.get("textDocument"@), "uri"@) {
        Some(JsonView::Text(uri)) => if method == "textDocument/didOpen"@ {
            match json::inner(params.get("textDocument"@), "text"@) {
                Some(JsonView::Text(text)) => docs.insert(uri, text),
                _ => docs,
            }
        } else if method == "textDocument/didChange"@ && docs.dom().contains(uri) {
            match params.get("contentChanges"@) {
                Some(JsonView::Array(changes)) => docs.insert(uri, text_after(docs[uri], changes)),
                _ => docs,
            }
        } else if method == "textDocument/didClose"@ {
            docs.remove(uri)
        } else {
            docs
        },
        _ => docs,
    }
}

/// The messages about a document tell the server what they are for: once it has been
/// told that a document is open, or has changed, it holds just the content that was
/// sent, whatever it held before; once it has been told that the document is closed,
/// it does not hold it. Of no other document does it hear.
pub proof fn servers_hold_what_they_are_sent(
    docs: Documents,
    uri: Seq<char>,
    id: Seq<char>,
    version: u32,
    content: Seq<char>,
)
    ensures
        documents_after(docs, "textDocument/didOpen"@, did_open_json(uri, id, content))
            == docs.insert(uri, content),
        docs.dom().contains(uri) ==> documents_after(
            docs,
            "textDocument/didChange"@,
            did_change_json(uri, version, content),
        ) == docs.insert(uri, content),
        documents_after(docs, "textDocument/didClose"@, did_close_json(uri)) == docs.remove(uri),
        json::inner(did_open_json(uri, id, content).get("textDocument"@), "languageId"@) == Some(
            JsonView::Text(id),
        ),
        json::inner(did_change_json(uri, version, content).get("textDocument"@), "version"@)
            == Some(json::unsigned_json(version as u64)),
{
    broadcast use json::lemma_lookup_of_pushed;

    reveal_strlit("textDocument");
    reveal_strlit("contentChanges");
    reveal_strlit("uri");
    reveal_strlit("languageId");
    reveal_strlit("version");
    reveal_strlit("text");
    reveal_strlit("range");
    reveal_strlit("textDocument/didOpen");
    reveal_strlit("textDocument/didChange");
    reveal_strlit("textDocument/didClose");
    assert("textDocument"@.len() == 12);
    assert("contentChanges"@.len() == 14);
    assert("uri"@.len() == 3);
    assert("languageId"@.len() == 10);
    assert("version"@.len() == 7);
    assert("text"@.len() == 4);
    assert("range"@.len() == 5);
    assert("textDocument/didOpen"@.len() == 20);
    assert("textDocument/didChange"@.len() == 22);
    assert("textDocument/didClose"@.len() == 21);
    let changes = Seq::<JsonView>::empty().push(
        JsonView::Object(json::no_members().push(("text"@, JsonView::Text(content)))),
    );
    reveal_with_fuel(text_after, 2);
    assert(changes.last().get("range"@) is None);
    assert(changes.last().get_text("text"@) == Some(content));
    assert forall|held: Seq<char>| text_after(held, changes) == content by {}
}

/// The method and the parameters of the message that a step sends.
pub open spec fn overlay_message(step: OverlayStepView) -> Option<(Seq<char>, JsonView)> {
    match step {
        OverlayStepView::Skip => None,
        OverlayStepView::Change { params, .. } => Some(("textDocument/didChange"@, params)),
        OverlayStepView::Open { params, .. } => Some(("textDocument/didOpen"@, params)),
    }
}

/// Whether a server holds the documents that a session knows to be open, for one file.
pub open spec fn known_to(s: SessionView, docs: Documents, file: Seq<char>) -> bool {
    s.opened.contains(path::components(file)) <==> docs.dom().contains(uri::uri_of(file))
}

/// An overlay shows the working copy, and restoring takes it away again. Once a source
/// file has been overlaid, the server holds its content from the working copy, as the
/// document of the same file in the base checkout; the session knows that it has to
/// be changed back, or closed. Told the base content, or to close it, the server holds
/// what it held before. A file that is no source, or cannot be read, is left alone.
pub proof fn overlays_show_the_working_copy(
    s: SessionView,
    docs: Documents,
    rel: Seq<char>,
    content: Seq<char>,
    version: u32,
)
    requires
        known_to(s, docs, path::joined(s.root, rel)),
    ensures
        ({
            let file = path::joined(s.root, rel);
            let uri = uri::uri_of(file);
            let (step, decided) = overlay_step(s, rel, Some(content));
            let after = overlay_marked(decided, step);
            if is_source(s.langs, rel) {
                &&& overlay_message(step) matches Some((method, params)) && documents_after(
                    docs,
                    method,
                    params,
                ) == docs.insert(uri, content)
                &&& after == overlaid(s, file)
                &&& after.opened.contains(path::components(file))
                &&& after.dirty
                &&& if docs.dom().contains(uri) {
                    &&& after.overlay_changed.contains(path::components(file))
                    &&& documents_after(
                        docs.insert(uri, content),
                        "textDocument/didChange"@,
                        did_change_json(uri, version, docs[uri]),
                    ) == docs
                } else {
                    &&& after.overlay_opened.contains(path::components(file))
                    &&& documents_after(
                        docs.insert(uri, content),
                        "textDocument/didClose"@,
                        did_close_json(uri),
                    ) == docs
                    &&& after.restored().opened == s.opened.difference(s.overlay_opened).remove(
                        path::components(file),
                    )
                }
            } else {
                overlay_message(step) is None && after == s
            }
        }),
        overlay_message(overlay_step(s, rel, None).0) is None,
        overlay_step(s, rel, None).1 == s,
{
    let file = path::joined(s.root, rel);
    let uri = uri::uri_of(file);
    let now = docs.insert(uri, content);
    servers_hold_what_they_are_sent(
        docs,
        uri,
        language_id(s.langs, file),
        version_after(s.version),
        content,
    );
    if docs.dom().contains(uri) {
        servers_hold_what_they_are_sent(now, uri, uri, version, docs[uri]);
        assert(now.insert(uri, docs[uri]) =~= docs);
    } else {
        servers_hold_what_they_are_sent(now, uri, uri, version, content);
        assert(now.remove(uri) =~= docs);
        let after = overlaid(s, file);
        assert(after.restored().opened =~= s.opened.difference(s.overlay_opened).remove(
            path::components(file),
        ));
    }
}

/// Every change has a version of its own: the next one is one more, up to the last
/// there is.
pub proof fn versions_grow(version: u32)
    ensures
        version < u32::MAX ==> version_after(version) == version + 1,
        version_after(version) != version,
{
}

/// A document has the language of its extension, the first that is listed for it.
pub proof fn extensions_tell_the_language(
    langs: Seq<(Seq<char>, Seq<char>)>,
    p: Seq<char>,
    ext: Seq<char>,
    i: int,
)
    requires
        path::extension_of(p) == Some(ext),
        0 <= i < langs.len(),
        langs[i].0 == ext,
        forall|j: int| 0 <= j < i ==> (#[trigger] langs[j]).0 != ext,
    ensures
        is_source(langs, p),
        language_id(langs, p) == langs[i].1,
    decreases langs.len(),
{
    lemma_lang_at(langs, ext);
}

/// A document without an extension that is listed is no source, and has the first
/// language that is listed.
pub proof fn other_documents_have_the_first_language(
    langs: Seq<(Seq<char>, Seq<char>)>,
    p: Seq<char>,
)
    requires
        path::extension_of(p) matches Some(ext) ==> forall|j: int|
            0 <= j < langs.len() ==> (#[trigger] langs[j]).0 != ext,
    ensures
        !is_source(langs, p),
        langs.len() > 0 ==> language_id(langs, p) == langs[0].1,
{
    if let Some(ext) = path::extension_of(p) {
        lemma_lang_at(langs, ext);
    }
}

proof fn lemma_lang_at(langs: Seq<(Seq<char>, Seq<char>)>, ext: Seq<char>)
    ensures
        match lang_at(langs, ext) {
            Some(i) => 0 <= i < langs.len() && langs[i].0 == ext && forall|j: int|
                0 <= j < i ==> (#[trigger] langs[j]).0 != ext,
            None => forall|j: int| 0 <= j < langs.len() ==> (#[trigger] langs[j]).0 != ext,
        },
    decreases langs.len(),
{
    if langs.len() > 0 {
        let front = langs.drop_last();
        lemma_lang_at(front, ext);
        assert forall|j: int| 0 <= j < front.len() implies #[trigger] langs[j] == front[j] by {}
        if let Some(i) = lang_at(front, ext) {
            assert(front[i] == langs[i]);
        }
    }
}

/// Every file that has changed on disk is announced, in order and under its own URI, as
/// changed.
pub proof fn changed_files_are_announced(s: SessionView, changed: Seq<Seq<char>>, i: int)
    requires
        0 <= i < changed.len(),
    ensures
        watch_json(s, changed).get("changes"@) matches Some(JsonView::Array(told)) && told.len()
            == changed.len() && told[i].get_text("uri"@) == Some(uri::uri_of(s.abs(changed[i])))
            && told[i].get("type"@) == Some(json::unsigned_json(2)),
{
    broadcast use json::lemma_lookup_of_pushed;

    reveal_strlit("uri");
    reveal_strlit("type");
    reveal_strlit("changes");
    assert("uri"@.len() == 3);
    assert("type"@.len() == 4);
    assert("changes"@.len() == 7);
}

/// Of the files that have changed, exactly those that were open are closed; all other
/// documents stay open.
pub proof fn changed_documents_are_closed(
    s: SessionView,
    changed: Seq<Seq<char>>,
    doc: Seq<Seq<char>>,
    uri: Seq<char>,
)
    ensures
        opened_after_sync(s, changed).contains(doc) <==> s.opened.contains(doc) && forall|i: int|
            0 <= i < changed.len() ==> path::components(s.abs(#[trigger] changed[i])) != doc,
        closed_by_sync(s, changed).contains(uri) ==> exists|i: int|
            0 <= i < changed.len() && uri == uri::uri_of(s.abs(#[trigger] changed[i]))
                && s.opened.contains(path::components(s.abs(changed[i]))),
        forall|i: int|
            0 <= i < changed.len() && s.opened.contains(
                path::components(s.abs(#[trigger] changed[i])),
            ) && (forall|j: int|
                0 <= j < changed.len() && j != i ==> path::components(s.abs(#[trigger] changed[j]))
                    != path::components(s.abs(changed[i]))) ==> closed_by_sync(
                s,
                changed,
            ).contains(uri::uri_of(s.abs(changed[i]))),
    decreases changed.len(),
{
    if changed.len() > 0 {
        let n = changed.len() - 1;
        let front = changed.drop_last();
        let last = s.abs(changed.last());
        changed_documents_are_closed(s, front, doc, uri);
        changed_documents_are_closed(s, front, path::components(last), uri);
        let before = closed_by_sync(s, front);
        let after = closed_by_sync(s, changed);
        assert forall|i: int| 0 <= i < front.len() implies #[trigger] changed[i] == front[i] by {}
        if opened_after_sync(s, changed).contains(doc) {
            assert forall|i: int| 0 <= i < changed.len() implies path::components(
                s.abs(#[trigger] changed[i]),
            ) != doc by {
                if i < n {
                    assert(front[i] == changed[i]);
                }
            }
        }
        if s.opened.contains(doc) && (forall|i: int|
            0 <= i < changed.len() ==> path::components(s.abs(#[trigger] changed[i])) != doc) {
            assert forall|i: int| 0 <= i < front.len() implies path::components(
                s.abs(#[trigger] front[i]),
            ) != doc by {
                assert(path::components(s.abs(changed[i])) != doc);
            }
            assert(path::components(s.abs(changed[n])) != doc);
        }
        if after.contains(uri) {
            let k = choose|k: int| 0 <= k < after.len() && after[k] == uri;
            if k < before.len() {
                assert(before[k] == uri);
                assert(before.contains(uri));
                let i = choose|i: int|
                    0 <= i < front.len() && uri == uri::uri_of(s.abs(#[trigger] front[i]))
                        && s.opened.contains(path::components(s.abs(front[i])));
                assert(uri == uri::uri_of(s.abs(changed[i])));
            } else {
                assert(uri == uri::uri_of(s.abs(changed[n])));
            }
        }
        assert forall|i: int|
            0 <= i < changed.len() && s.opened.contains(
                path::components(s.abs(#[trigger] changed[i])),
            ) && (forall|j: int|
                0 <= j < changed.len() && j != i ==> path::components(s.abs(#[trigger] changed[j]))
                    != path::components(s.abs(changed[i]))) implies after.contains(
            uri::uri_of(s.abs(changed[i])),
        ) by {
            let want = uri::uri_of(s.abs(changed[i]));
            if i < n {
                assert(front[i] == changed[i]);
                assert forall|j: int| 0 <= j < front.len() && j != i implies path::components(
                    s.abs(#[trigger] front[j]),
                ) != path::components(s.abs(front[i])) by {
                    assert(path::components(s.abs(changed[j])) != path::components(
                        s.abs(changed[i]),
                    ));
                }
                assert(before.contains(want));
                let k = choose|k: int| 0 <= k < before.len() && before[k] == want;
                assert(after[k] == want);
            } else {
                assert forall|j: int| 0 <= j < front.len() implies path::components(
                    s.abs(#[trigger] front[j]),
                ) != path::components(last) by {
                    assert(path::components(s.abs(changed[j])) != path::components(
                        s.abs(changed[i]),
                    ));
                }
                assert(after.last() == want);
                assert(after[after.len() - 1] == want);
            }
        }
    }
}

/// As long as there is room, a search finds every source file that comes by and goes
/// into every directory that holds sources, in order.
pub proof fn searches_find_every_source(
    w: SourceWalkView,
    langs: Seq<(Seq<char>, Seq<char>)>,
    entries: Seq<DirEntryView>,
)
    requires
        !w.full,
        w.found.len() + entries.len() <= MAX_INDEX_FILES,
    ensures
        !walked_all(w, langs, entries).full,
        walked_all(w, langs, entries).found.len() <= w.found.len() + entries.len(),
        walked_all(w, langs, entries).found == w.found + entries.filter(
            |e: DirEntryView| !e.is_dir && is_source(langs, e.path),
        ).map_values(|e: DirEntryView| e.path),
        walked_all(w, langs, entries).stack == w.stack + entries.filter(
            |e: DirEntryView| e.is_dir && !unindexed_dir(e.name),
        ).map_values(|e: DirEntryView| e.path),
    decreases entries.len(),
{
    let file = |e: DirEntryView| !e.is_dir && is_source(langs, e.path);
    let dir = |e: DirEntryView| e.is_dir && !unindexed_dir(e.name);
    let to_path = |e: DirEntryView| e.path;
    reveal(Seq::filter);
    let now = walked_all(w, langs, entries);
    if entries.len() == 0 {
        assert(now.found =~= w.found + entries.filter(file).map_values(to_path));
        assert(now.stack =~= w.stack + entries.filter(dir).map_values(to_path));
    } else {
        let front = entries.drop_last();
        searches_find_every_source(w, langs, front);
        assert(now.found =~= w.found + entries.filter(file).map_values(to_path));
        assert(now.stack =~= w.stack + entries.filter(dir).map_values(to_path));
    }
}

/// Only diagnostics of a document end the wait for it, and they end no other.
pub proof fn diagnostics_end_the_wait(
    pending: Set<Seq<char>>,
    method: Seq<char>,
    params: JsonView,
    uri: Seq<char>,
)
    ensures
        pending_after(pending, method, params).contains(uri) <==> pending.contains(uri) && !(method
            == "textDocument/publishDiagnostics"@ && params.get_text("uri"@) == Some(uri)),
{
}

/// A document is sent once: once it has been opened it counts as open, under the same
/// URI, which names its file; the file is that of the path, seen from the root. Nothing
/// is open in a new session.
pub proof fn documents_are_opened_once(s: SessionView, p: Seq<char>, q: Seq<char>)
    ensures
        ({
            let after = s.with_opened(s.abs(p));
            &&& opening_of(after, p) == (EnsureOpenView::AlreadyOpen {
                uri: uri::uri_of(applier::resolved(p, s.root)),
            })
            &&& path::components(s.abs(q)) != path::components(s.abs(p)) ==> opening_of(after, q)
                == opening_of(s, q)
            &&& after.root == s.root && after.langs == s.langs
        }),
        opening_of(fresh(s.root, s.langs), p) matches EnsureOpenView::ReadAndSend {
            file,
            uri,
            language_id: id,
        } && file == applier::resolved(p, s.root) && uri == uri::uri_of(file) && id == language_id(
            s.langs,
            file,
        ),
{
}

/// A working copy is overlaid exactly where one of it and the root does not lie in the
/// other.
pub proof fn other_directories_are_overlaid(s: SessionView, workspace: Seq<char>)
    ensures
        !is_elsewhere(s, workspace) <==> path::under(workspace, s.root) && path::under(
            s.root,
            workspace,
        ),
{
    let x = path::components(workspace);
    let y = path::components(s.root);
    if path::under(workspace, s.root) && path::under(s.root, workspace) {
        assert(x.take(y.len() as int) =~= x);
    }
    if x == y {
        assert(x.take(y.len() as int) =~= x);
    }
}

/// The directories that are not searched: those of version-control systems, of the data
/// of servers, of build products, and of packages.
pub open spec fn unsearched_dirs() -> Seq<Seq<char>> {
    seq![
        ".git"@,
        ".jj"@,
        ".data"@,
        "config"@,
        "target"@,
        "build"@,
        "out"@,
        "node_modules"@,
        ".gradle"@,
    ]
}

/// A directory is searched or not by its name alone.
pub proof fn directories_are_searched_by_name(name: Seq<char>)
    ensures
        unindexed_dir(name) <==> unsearched_dirs().contains(name),
{
    let names = unsearched_dirs();
    assert(names[0] == ".git"@ && names[1] == ".jj"@ && names[2] == ".data"@ && names[3] == "config"@ && names[4] == "target"@ && names[5] == "build"@ && names[6] == "out"@ && names[7] == "node_modules"@ && names[8] == ".gradle"@);
}

} // verus!
