//! The registry of projects.
//!
//! The registry maps project ids to source trees. What it needs to know of the
//! file system comes in as probes of directories and as the parsed registry
//! file; what is to be written goes out as a [`RegistryFile`].
use vstd::prelude::*;

use crate::error::{Error, ErrorView};
use crate::language::Language;
use crate::path;
use crate::path::PathBuf;
use crate::project;
use crate::project::{copy_languages, validate_project_id, Project, ProjectView};
use crate::text;
use crate::text::{chars_of, is_before, same_text, string_of, to_lowercase};

verus! {

// ---------------------------------------------------------------------------
// The model
// ---------------------------------------------------------------------------

/// Whether a list of projects is ordered by id, each id standing once.
pub open spec fn ordered_by_id(v: Seq<ProjectView>) -> bool {
    forall|i: int, j: int| 0 <= i < j < v.len() ==> text::text_before(v[i].id, v[j].id)
}

/// The projects of a list, by id.
pub open spec fn project_map(v: Seq<ProjectView>) -> Map<Seq<char>, ProjectView> {
    Map::new(
        |id: Seq<char>| exists|i: int| 0 <= i < v.len() && (#[trigger] v[i]).id == id,
        |id: Seq<char>| v[choose|i: int| 0 <= i < v.len() && (#[trigger] v[i]).id == id],
    )
}

proof fn lemma_project_map(v: Seq<ProjectView>)
    requires
        ordered_by_id(v),
    ensures
        forall|i: int|
            0 <= i < v.len() ==> project_map(v).dom().contains((#[trigger] v[i]).id)
                && project_map(v)[v[i].id] == v[i],
        forall|id: Seq<char>| #[trigger]
            project_map(v).dom().contains(id) ==> exists|i: int|
                0 <= i < v.len() && (#[trigger] v[i]).id == id && project_map(v)[id] == v[i],
{
    assert forall|i: int| 0 <= i < v.len() implies project_map(v).dom().contains(
        (#[trigger] v[i]).id,
    ) && project_map(v)[v[i].id] == v[i] by {
        let k = choose|k: int| 0 <= k < v.len() && (#[trigger] v[k]).id == v[i].id;
        text::lemma_text_before_irreflexive(v[i].id);
        assert(k == i);
    }
}

proof fn lemma_inserted(v: Seq<ProjectView>, at: int, p: ProjectView)
    requires
        ordered_by_id(v),
        0 <= at <= v.len(),
        forall|i: int| 0 <= i < at ==> text::text_before((#[trigger] v[i]).id, p.id),
        forall|i: int| at <= i < v.len() ==> text::text_before(p.id, (#[trigger] v[i]).id),
    ensures
        ordered_by_id(v.insert(at, p)),
        project_map(v.insert(at, p)) == project_map(v).insert(p.id, p),
{
    let w = v.insert(at, p);
    assert forall|i: int, j: int| 0 <= i < j < w.len() implies text::text_before(
        w[i].id,
        w[j].id,
    ) by {
        let a = if i < at {
            i
        } else {
            i - 1
        };
        let b = if j < at {
            j
        } else {
            j - 1
        };
        if i != at && j != at {
            assert(text::text_before(v[a].id, v[b].id));
        }
    }
    lemma_project_map(v);
    lemma_project_map(w);
    let want = project_map(v).insert(p.id, p);
    assert forall|id: Seq<char>| #[trigger] project_map(w).dom().contains(id) implies want.dom().contains(
        id,
    ) && project_map(w)[id] == want[id] by {
        let i = choose|i: int| 0 <= i < w.len() && (#[trigger] w[i]).id == id;
        if i < at {
            assert(v[i] == w[i]);
            text::lemma_text_before_irreflexive(p.id);
        } else if i > at {
            assert(v[i - 1] == w[i]);
            text::lemma_text_before_irreflexive(p.id);
        } else {
            assert(w[at].id == p.id);
        }
        assert(project_map(w)[w[i].id] == w[i]);
    }
    assert forall|id: Seq<char>| #[trigger] want.dom().contains(id) implies project_map(
        w,
    ).dom().contains(id) by {
        if id == p.id {
            assert(w[at].id == id);
        } else {
            let i = choose|i: int| 0 <= i < v.len() && (#[trigger] v[i]).id == id;
            if i < at {
                assert(w[i].id == id);
            } else {
                assert(w[i + 1].id == id);
            }
        }
    }
    assert(project_map(w) =~= want);
}

proof fn lemma_removed(v: Seq<ProjectView>, at: int)
    requires
        ordered_by_id(v),
        0 <= at < v.len(),
    ensures
        ordered_by_id(v.remove(at)),
        project_map(v.remove(at)) == project_map(v).remove(v[at].id),
{
    let w = v.remove(at);
    assert forall|i: int, j: int| 0 <= i < j < w.len() implies text::text_before(
        w[i].id,
        w[j].id,
    ) by {
        let a = if i < at {
            i
        } else {
            i + 1
        };
        let b = if j < at {
            j
        } else {
            j + 1
        };
        assert(text::text_before(v[a].id, v[b].id));
    }
    lemma_project_map(v);
    lemma_project_map(w);
    let want = project_map(v).remove(v[at].id);
    text::lemma_text_before_irreflexive(v[at].id);
    assert forall|id: Seq<char>| #[trigger] project_map(w).dom().contains(id) implies want.dom().contains(
        id,
    ) && project_map(w)[id] == want[id] by {
        let i = choose|i: int| 0 <= i < w.len() && (#[trigger] w[i]).id == id;
        let k = if i < at {
            i
        } else {
            i + 1
        };
        assert(v[k] == w[i]);
        if k < at {
            assert(text::text_before(v[k].id, v[at].id));
        } else {
            assert(text::text_before(v[at].id, v[k].id));
        }
        assert(project_map(w)[w[i].id] == w[i]);
    }
    assert forall|id: Seq<char>| #[trigger] want.dom().contains(id) implies project_map(
        w,
    ).dom().contains(id) by {
        let i = choose|i: int| 0 <= i < v.len() && (#[trigger] v[i]).id == id;
        if i < at {
            assert(w[i].id == id);
        } else {
            assert(i != at);
            assert(w[i - 1].id == id);
        }
    }
    assert(project_map(w) =~= want);
}

// ---------------------------------------------------------------------------
// Ids
// ---------------------------------------------------------------------------

/// A character of a directory name as it stands in an id.
pub open spec fn slug_char(c: char) -> char {
    if 'a' <= c <= 'z' || '0' <= c <= '9' {
        c
    } else {
        '-'
    }
}

/// `s` without the dashes in front.
pub open spec fn dashless_front(s: Seq<char>) -> Seq<char>
    decreases s.len(),
{
    if s.len() > 0 && s[0] == '-' {
        dashless_front(s.skip(1))
    } else {
        s
    }
}

/// `s` without the dashes behind.
pub open spec fn dashless_back(s: Seq<char>) -> Seq<char>
    decreases s.len(),
{
    if s.len() > 0 && s.last() == '-' {
        dashless_back(s.drop_last())
    } else {
        s
    }
}

/// The slug of a lower-cased name: other characters turn to dashes, and dashes
/// at the ends are left out.
pub open spec fn slug(name: Seq<char>) -> Seq<char> {
    dashless_back(dashless_front(name.map_values(|c: char| slug_char(c))))
}

/// The id that a lower-cased directory name gives.
pub open spec fn id_of_name(name: Seq<char>) -> Seq<char> {
    if slug(name).len() == 0 {
        "project"@
    } else {
        slug(name)
    }
}

/// The id that a directory gives: that of its lower-cased name.
pub open spec fn derived_id(root: Seq<char>) -> Seq<char> {
    match path::file_name_of(root) {
        Some(name) => id_of_name(text::lowercase(name)),
        None => id_of_name(seq![]),
    }
}

/// The id that a lower-cased directory name gives.
pub fn slug_id(name: &str) -> (r: String)
    ensures
        r@ == id_of_name(name@),
{
    let raw = chars_of(name);
    let mut chars: Vec<char> = Vec::new();
    let ghost mapped = name@.map_values(|c: char| slug_char(c));
    let mut i: usize = 0;
    while i < raw.len()
        invariant
            i <= raw@.len(),
            raw@ == name@,
            mapped == name@.map_values(|c: char| slug_char(c)),
            chars@ == mapped.take(i as int),
        decreases raw@.len() - i,
    {
        let c = raw[i];
        chars.push(
            if ('a' <= c && c <= 'z') || ('0' <= c && c <= '9') {
                c
            } else {
                '-'
            },
        );
        i += 1;
        assert(mapped.take(i as int) =~= mapped.take(i - 1).push(mapped[i - 1]));
    }
    assert(mapped.take(i as int) =~= mapped);
    let mut from: usize = 0;
    assert(chars@.skip(0) =~= mapped);
    while from < chars.len() && chars[from] == '-'
        invariant
            from <= chars@.len(),
            dashless_front(mapped) == dashless_front(chars@.skip(from as int)),
        decreases chars@.len() - from,
    {
        assert(chars@.skip(from as int).skip(1) =~= chars@.skip(from + 1));
        from += 1;
    }
    let ghost front = chars@.skip(from as int);
    let mut to: usize = chars.len();
    assert(chars@.subrange(from as int, to as int) =~= front);
    while from < to && chars[to - 1] == '-'
        invariant
            from <= to <= chars@.len(),
            dashless_back(front) == dashless_back(chars@.subrange(from as int, to as int)),
        decreases to - from,
    {
        assert(chars@.subrange(from as int, to as int).drop_last() =~= chars@.subrange(
            from as int,
            to - 1,
        ));
        to -= 1;
    }
    if from == to {
        "project".to_owned()
    } else {
        string_of(&chars, from, to)
    }
}

/// The id that a directory gives; a name that is a valid id is its own.
pub fn derive_id(root: &PathBuf) -> (r: String)
    ensures
        r@ == derived_id(root@),
        (path::file_name_of(root@) matches Some(name) && project::valid_id(name)) ==> Some(r@)
            == path::file_name_of(root@),
{
    match root.file_name() {
        Some(name) => {
            proof {
                if project::valid_id(name@) {
                    lemma_valid_id_is_its_slug(name@);
                }
            }
            slug_id(to_lowercase(name.as_str()).as_str())
        },
        None => {
            proof {
                reveal_strlit("");
                assert(""@ =~= Seq::<char>::empty());
            }
            slug_id("")
        },
    }
}

proof fn lemma_dashless_front(s: Seq<char>)
    ensures
        dashless_front(s).len() <= s.len(),
        dashless_front(s) == s.skip(s.len() - dashless_front(s).len()),
        dashless_front(s).len() > 0 ==> dashless_front(s)[0] != '-',
    decreases s.len(),
{
    if s.len() > 0 && s[0] == '-' {
        lemma_dashless_front(s.skip(1));
        assert(s.skip(1).skip(s.len() - 1 - dashless_front(s).len()) =~= s.skip(
            s.len() - dashless_front(s).len(),
        ));
    } else {
        assert(s.skip(0) =~= s);
    }
}

proof fn lemma_dashless_back(s: Seq<char>)
    ensures
        dashless_back(s).len() <= s.len(),
        dashless_back(s) == s.take(dashless_back(s).len() as int),
        dashless_back(s).len() > 0 ==> dashless_back(s).last() != '-',
    decreases s.len(),
{
    if s.len() > 0 && s.last() == '-' {
        lemma_dashless_back(s.drop_last());
        assert(s.drop_last().take(dashless_back(s).len() as int) =~= s.take(
            dashless_back(s).len() as int,
        ));
    } else {
        assert(s.take(s.len() as int) =~= s);
    }
}

/// Every id that is derived from a name is valid.
pub proof fn derived_ids_are_valid(name: Seq<char>)
    ensures
        project::valid_id(id_of_name(name)),
{
    let mapped = name.map_values(|c: char| slug_char(c));
    let front = dashless_front(mapped);
    let out = dashless_back(front);
    lemma_dashless_front(mapped);
    lemma_dashless_back(front);
    if out.len() > 0 {
        assert forall|i: int| 0 <= i < out.len() implies project::id_char(#[trigger] out[i]) by {
            assert(out[i] == front[i]);
            assert(front[i] == mapped[i + mapped.len() - front.len()]);
        }
        assert(out[0] == front[0]);
    } else {
        reveal_strlit("project");
        assert(project::valid_id("project"@));
    }
}

// ---------------------------------------------------------------------------
// Registering
// ---------------------------------------------------------------------------

/// What is known of a directory that is to be registered.
#[derive(Debug, Clone, PartialEq, Eq)]
pub struct RootProbe {
    /// The path as it was given.
    pub path: PathBuf,
    /// Whether something stands there.
    pub exists: bool,
    /// Whether it is a directory.
    pub is_dir: bool,
    /// The canonical path, where there is one.
    pub canonical: Option<PathBuf>,
    /// The languages found under it.
    pub languages: Vec<Language>,
}

/// What a [`RootProbe`] says.
pub struct RootProbeView {
    pub path: Seq<char>,
    pub exists: bool,
    pub is_dir: bool,
    pub canonical: Option<Seq<char>>,
    pub languages: Seq<Language>,
}

impl View for RootProbe {
    type V = RootProbeView;

    open spec fn view(&self) -> RootProbeView {
        RootProbeView {
            path: self.path@,
            exists: self.exists,
            is_dir: self.is_dir,
            canonical: match self.canonical {
                Some(p) => Some(p@),
                None => None,
            },
            languages: self.languages@,
        }
    }
}

/// The path that a directory is registered under: its canonical path, or the
/// given one where there is none.
pub open spec fn canonical_root(probe: RootProbeView) -> Seq<char> {
    match probe.canonical {
        Some(p) => p,
        None => probe.path,
    }
}

/// The root of a project, or why the directory cannot be one.
pub open spec fn normalized_root(probe: RootProbeView) -> Result<Seq<char>, ErrorView> {
    if !probe.exists {
        Err(ErrorView::PathNotFound(probe.path))
    } else if !probe.is_dir {
        Err(ErrorView::NotADirectory(probe.path))
    } else {
        Ok(canonical_root(probe))
    }
}

/// The project that a registration adds, or why it is refused. The id is the
/// given one, or the one that the directory gives.
pub open spec fn registration(
    projects: Map<Seq<char>, ProjectView>,
    id: Option<Seq<char>>,
    probe: RootProbeView,
) -> Result<ProjectView, ErrorView> {
    match normalized_root(probe) {
        Err(e) => Err(e),
        Ok(root) => {
            let id = match id {
                Some(id) => id,
                None => derived_id(root),
            };
            if !project::valid_id(id) {
                Err(ErrorView::InvalidProjectId(id))
            } else if projects.dom().contains(id) {
                Err(ErrorView::ProjectAlreadyExists(id))
            } else if probe.languages.len() == 0 {
                Err(ErrorView::NoLanguageDetected(root))
            } else {
                Ok(ProjectView { id, root, languages: probe.languages })
            }
        },
    }
}

/// The root of a project, or why the directory cannot be one.
pub fn normalize_root(probe: &RootProbe) -> (r: Result<PathBuf, Error>)
    ensures
        match r {
            Ok(p) => normalized_root(probe@) == Ok::<Seq<char>, ErrorView>(p@),
            Err(e) => normalized_root(probe@) == Err::<Seq<char>, ErrorView>(e@),
        },
{
    if !probe.exists {
        return Err(Error::PathNotFound(probe.path.clone()));
    }
    if !probe.is_dir {
        return Err(Error::NotADirectory(probe.path.clone()));
    }
    match &probe.canonical {
        Some(p) => Ok(p.clone()),
        None => Ok(probe.path.clone()),
    }
}

/// The registered projects, and where they are kept.
#[derive(Debug)]
pub struct ProjectRegistry {
    config_path: PathBuf,
    projects: Vec<Project>,
}

impl View for ProjectRegistry {
    type V = Map<Seq<char>, ProjectView>;

    /// The projects by id.
    closed spec fn view(&self) -> Map<Seq<char>, ProjectView> {
        project_map(self.listing())
    }
}

impl ProjectRegistry {
    /// The projects in the order of their ids.
    pub closed spec fn listing(&self) -> Seq<ProjectView> {
        self.projects@.map_values(|p: Project| p@)
    }

    /// The file that the registry is kept in.
    pub closed spec fn config_file(&self) -> Seq<char> {
        self.config_path@
    }

    /// The projects are ordered by id, and no id stands twice.
    pub closed spec fn wf(&self) -> bool {
        ordered_by_id(self.listing())
    }

    /// The listing holds exactly the registered projects, ordered by id.
    pub proof fn listing_holds_the_projects(&self)
        requires
            self.wf(),
        ensures
            ordered_by_id(self.listing()),
            self@ == project_map(self.listing()),
            forall|i: int|
                0 <= i < self.listing().len() ==> self@.dom().contains(
                    (#[trigger] self.listing()[i]).id,
                ) && self@[self.listing()[i].id] == self.listing()[i],
            forall|id: Seq<char>| #[trigger]
                self@.dom().contains(id) ==> exists|i: int|
                    0 <= i < self.listing().len() && (#[trigger] self.listing()[i]).id == id,
    {
        lemma_project_map(self.listing());
    }

    /// A registry without projects.
    pub fn empty(config_path: PathBuf) -> (r: Self)
        ensures
            r.wf(),
            r.config_file() == config_path@,
            r@ == Map::<Seq<char>, ProjectView>::empty(),
            r.listing().len() == 0,
    {
        let r = ProjectRegistry { config_path, projects: Vec::new() };
        assert(r@ =~= Map::<Seq<char>, ProjectView>::empty());
        r
    }

    /// The number of ids that come before `id`.
    fn place(&self, id: &str) -> (r: usize)
        requires
            self.wf(),
        ensures
            r <= self.listing().len(),
            r <= self.projects@.len(),
            forall|i: int|
                0 <= i < r ==> text::text_before((#[trigger] self.listing()[i]).id, id@),
            forall|i: int|
                r <= i < self.listing().len() ==> (#[trigger] self.listing()[i]).id == id@
                    || text::text_before(id@, self.listing()[i].id),
            forall|i: int| r < i < self.listing().len() ==> (#[trigger] self.listing()[i]).id != id@,
    {
        let mut at: usize = 0;
        while at < self.projects.len() && is_before(self.projects[at].id.as_str(), id)
            invariant
                at <= self.projects@.len(),
                forall|i: int|
                    0 <= i < at ==> text::text_before((#[trigger] self.listing()[i]).id, id@),
            decreases self.projects@.len() - at,
        {
            assert(self.listing()[at as int].id == self.projects@[at as int].id@);
            at += 1;
        }
        proof {
            if at < self.projects@.len() {
                let first = self.listing()[at as int].id;
                assert(first == self.projects@[at as int].id@);
                text::lemma_text_before_total(first, id@);
                assert forall|i: int| at < i < self.listing().len() implies (
                #[trigger] self.listing()[i]).id != id@ && text::text_before(
                    id@,
                    self.listing()[i].id,
                ) by {
                    assert(text::text_before(self.listing()[at as int].id, self.listing()[i].id));
                    if first != id@ {
                        text::lemma_text_before_transitive(id@, first, self.listing()[i].id);
                    }
                    text::lemma_text_before_irreflexive(id@);
                }
            }
        }
        at
    }

    /// Where the project `id` stands in the list.
    fn position(&self, id: &str) -> (r: Option<usize>)
        requires
            self.wf(),
        ensures
            r is Some == self@.dom().contains(id@),
            r matches Some(i) ==> i < self.projects@.len() && self.projects@[i as int].id@ == id@
                && self@[id@] == self.projects@[i as int]@,
    {
        let at = self.place(id);
        proof {
            lemma_project_map(self.listing());
            text::lemma_text_before_irreflexive(id@);
        }
        if at < self.projects.len() && same_text(self.projects[at].id.as_str(), id) {
            assert(self.listing()[at as int] == self.projects@[at as int]@);
            Some(at)
        } else {
            proof {
                if self@.dom().contains(id@) {
                    let i = choose|i: int|
                        0 <= i < self.listing().len() && (#[trigger] self.listing()[i]).id == id@;
                    assert(i == at);
                    assert(self.listing()[i].id == self.projects@[i].id@);
                }
            }
            None
        }
    }

    /// Puts a project in, in place of the one that had its id.
    fn put(&mut self, project: Project)
        requires
            old(self).wf(),
        ensures
            final(self).wf(),
            final(self)@ == old(self)@.insert(project@.id, project@),
            final(self).config_file() == old(self).config_file(),
    {
        let at = self.place(project.id.as_str());
        let ghost before = self.listing();
        let ghost p = project@;
        if at < self.projects.len() && same_text(
            self.projects[at].id.as_str(),
            project.id.as_str(),
        ) {
            assert(before[at as int].id == self.projects@[at as int].id@);
            let ghost at_int = at as int;
            proof {
                lemma_removed(before, at_int);
                let short = before.remove(at_int);
                assert forall|i: int| 0 <= i < at_int implies text::text_before(
                    (#[trigger] short[i]).id,
                    p.id,
                ) by {
                    assert(short[i] == before[i]);
                }
                assert forall|i: int| at_int <= i < short.len() implies text::text_before(
                    p.id,
                    (#[trigger] short[i]).id,
                ) by {
                    assert(short[i] == before[i + 1]);
                }
                lemma_inserted(short, at_int, p);
                assert(project_map(before).remove(p.id).insert(p.id, p) =~= project_map(
                    before,
                ).insert(p.id, p));
            }
            self.projects.set(at, project);
            assert(self.listing() =~= before.remove(at_int).insert(at_int, p));
        } else {
            proof {
                if at < before.len() {
                    assert(before[at as int].id == self.projects@[at as int].id@);
                }
                lemma_inserted(before, at as int, p);
            }
            self.projects.insert(at, project);
            assert(self.listing() =~= before.insert(at as int, p));
        }
    }

    /// The file that the registry is kept in.
    pub fn config_path(&self) -> (r: &PathBuf)
        ensures
            r@ == self.config_file(),
    {
        &self.config_path
    }

    /// Registers the probed directory under `id`, or under the id that its name
    /// gives.
    pub fn register(&mut self, id: Option<String>, probe: &RootProbe) -> (r: Result<Project, Error>)
        requires
            old(self).wf(),
        ensures
            final(self).wf(),
            final(self).config_file() == old(self).config_file(),
            match r {
                Ok(p) => registration(
                    old(self)@,
                    match id {
                        Some(id) => Some(id@),
                        None => None,
                    },
                    probe@,
                ) == Ok::<ProjectView, ErrorView>(p@) && final(self)@ == old(self)@.insert(
                    p@.id,
                    p@,
                ),
                Err(e) => registration(
                    old(self)@,
                    match id {
                        Some(id) => Some(id@),
                        None => None,
                    },
                    probe@,
                ) == Err::<ProjectView, ErrorView>(e@) && final(self)@ == old(self)@,
            },
    {
        let root = match normalize_root(probe) {
            Ok(root) => root,
            Err(e) => {
                return Err(e);
            },
        };
        let id = match id {
            Some(id) => id,
            None => derive_id(&root),
        };
        if !validate_project_id(id.as_str()) {
            return Err(Error::InvalidProjectId(id));
        }
        if self.position(id.as_str()).is_some() {
            return Err(Error::ProjectAlreadyExists(id));
        }
        if probe.languages.len() == 0 {
            return Err(Error::NoLanguageDetected(root));
        }
        let project = Project { id, root, languages: copy_languages(&probe.languages) };
        let kept = project.copy();
        self.put(kept);
        Ok(project)
    }

    /// Removes a project and returns it.
    pub fn unregister(&mut self, id: &str) -> (r: Result<Project, Error>)
        requires
            old(self).wf(),
        ensures
            final(self).wf(),
            final(self).config_file() == old(self).config_file(),
            match r {
                Ok(p) => old(self)@.dom().contains(id@) && p@ == old(self)@[id@] && final(self)@
                    == old(self)@.remove(id@),
                Err(e) => !old(self)@.dom().contains(id@) && e@ == ErrorView::ProjectNotFound(id@)
                    && final(self)@ == old(self)@,
            },
    {
        match self.position(id) {
            Some(at) => {
                let ghost before = self.listing();
                proof {
                    lemma_removed(before, at as int);
                }
                let p = self.projects.remove(at);
                assert(self.listing() =~= before.remove(at as int));
                Ok(p)
            },
            None => Err(Error::ProjectNotFound(id.to_owned())),
        }
    }

    /// The project `id`.
    pub fn get(&self, id: &str) -> (r: Result<&Project, Error>)
        requires
            self.wf(),
        ensures
            match r {
                Ok(p) => self@.dom().contains(id@) && p@ == self@[id@],
                Err(e) => !self@.dom().contains(id@) && e@ == ErrorView::ProjectNotFound(id@),
            },
    {
        match self.position(id) {
            Some(at) => Ok(&self.projects[at]),
            None => Err(Error::ProjectNotFound(id.to_owned())),
        }
    }

    /// The projects in the order of their ids.
    pub fn list(&self) -> (r: &Vec<Project>)
        ensures
            r@.map_values(|p: Project| p@) == self.listing(),
    {
        &self.projects
    }

    /// The number of projects.
    pub fn len(&self) -> (r: usize)
        ensures
            r == self.listing().len(),
    {
        self.projects.len()
    }

    /// Whether there are no projects.
    pub fn is_empty(&self) -> (r: bool)
        ensures
            r == (self.listing().len() == 0),
    {
        self.projects.len() == 0
    }
}

// ---------------------------------------------------------------------------
// Registering what stands in a directory
// ---------------------------------------------------------------------------

/// Whether a path is the root of a registered project.
pub open spec fn is_root_of_one(projects: Map<Seq<char>, ProjectView>, p: Seq<char>) -> bool {
    exists|id: Seq<char>| #[trigger]
        projects.dom().contains(id) && path::components(projects[id].root) == path::components(p)
}

/// What becomes of the projects when a directory is come by: the project it is
/// registered as, unless it is registered already or the registration is
/// refused.
pub open spec fn auto_registration(
    projects: Map<Seq<char>, ProjectView>,
    probe: RootProbeView,
) -> Option<ProjectView> {
    if is_root_of_one(projects, canonical_root(probe)) {
        None
    } else {
        match registration(projects, None, probe) {
            Ok(p) => Some(p),
            Err(_) => None,
        }
    }
}

/// The projects, and the ids that were added, once all directories have been
/// come by in order.
pub open spec fn auto_registrations(
    projects: Map<Seq<char>, ProjectView>,
    probes: Seq<RootProbeView>,
) -> (Map<Seq<char>, ProjectView>, Seq<Seq<char>>)
    decreases probes.len(),
{
    if probes.len() == 0 {
        (projects, seq![])
    } else {
        let (before, added) = auto_registrations(projects, probes.drop_last());
        match auto_registration(before, probes.last()) {
            Some(p) => (before.insert(p.id, p), added.push(p.id)),
            None => (before, added),
        }
    }
}

/// `x` put into a list that is ordered by path, behind all that do not come
/// after it.
pub open spec fn path_inserted(ordered: Seq<RootProbeView>, x: RootProbeView) -> Seq<RootProbeView>
    decreases ordered.len(),
{
    if ordered.len() == 0 || !path::path_before(x.path, ordered.last().path) {
        ordered.push(x)
    } else {
        path_inserted(ordered.drop_last(), x).push(ordered.last())
    }
}

/// The directories of a listing, ordered by path.
pub open spec fn ordered_dirs(entries: Seq<RootProbeView>) -> Seq<RootProbeView>
    decreases entries.len(),
{
    if entries.len() == 0 {
        seq![]
    } else if entries.last().is_dir {
        path_inserted(ordered_dirs(entries.drop_last()), entries.last())
    } else {
        ordered_dirs(entries.drop_last())
    }
}

/// What a listing says: nothing where the directory could not be read.
pub open spec fn listing_view(listing: Option<Vec<RootProbe>>) -> Seq<RootProbeView> {
    match listing {
        Some(entries) => entries@.map_values(|e: RootProbe| e@),
        None => seq![],
    }
}

/// The directories of several listings: listing by listing, each in order.
pub open spec fn all_dirs(listings: Seq<Seq<RootProbeView>>) -> Seq<RootProbeView>
    decreases listings.len(),
{
    if listings.len() == 0 {
        seq![]
    } else {
        all_dirs(listings.drop_last()) + ordered_dirs(listings.last())
    }
}

/// What several listings say.
pub open spec fn listing_views(listings: Seq<Option<Vec<RootProbe>>>) -> Seq<Seq<RootProbeView>> {
    listings.map_values(|l: Option<Vec<RootProbe>>| listing_view(l))
}

/// The probes that an ordered list of places points to.
spec fn pointed(order: Seq<usize>, entries: Seq<RootProbeView>) -> Seq<RootProbeView> {
    order.map_values(|k: usize| entries[k as int])
}

/// The places of the directories of a listing, ordered by path.
fn dir_order(entries: &Vec<RootProbe>) -> (r: Vec<usize>)
    ensures
        pointed(r@, entries@.map_values(|e: RootProbe| e@)) == ordered_dirs(
            entries@.map_values(|e: RootProbe| e@),
        ),
        forall|i: int| 0 <= i < r@.len() ==> #[trigger] r@[i] < entries@.len(),
{
    let ghost all = entries@.map_values(|e: RootProbe| e@);
    let mut order: Vec<usize> = Vec::new();
    let mut k: usize = 0;
    assert(pointed(order@, all) =~= seq![]);
    assert(all.take(0) =~= seq![]);
    while k < entries.len()
        invariant
            k <= entries@.len(),
            all == entries@.map_values(|e: RootProbe| e@),
            pointed(order@, all) == ordered_dirs(all.take(k as int)),
            forall|i: int| 0 <= i < order@.len() ==> #[trigger] order@[i] < entries@.len(),
        decreases entries@.len() - k,
    {
        let ghost now = all.take(k + 1);
        assert(now.drop_last() =~= all.take(k as int));
        assert(now.last() == entries@[k as int]@);
        if entries[k].is_dir {
            let ghost dirs = pointed(order@, all);
            let ghost x = all[k as int];
            let mut at: usize = order.len();
            assert(dirs.take(at as int) =~= dirs);
            assert(dirs.skip(at as int) =~= seq![]);
            assert(path_inserted(dirs, x) =~= path_inserted(dirs.take(at as int), x) + dirs.skip(
                at as int,
            ));
            while at > 0 && entries[k].path.comes_before(&entries[order[at - 1]].path)
                invariant
                    at <= order@.len(),
                    k < entries@.len(),
                    all == entries@.map_values(|e: RootProbe| e@),
                    dirs == pointed(order@, all),
                    x == all[k as int],
                    forall|i: int| 0 <= i < order@.len() ==> #[trigger] order@[i] < entries@.len(),
                    path_inserted(dirs, x) == path_inserted(dirs.take(at as int), x) + dirs.skip(
                        at as int,
                    ),
                decreases at,
            {
                proof {
                    let front = dirs.take(at as int);
                    assert(front.last() == entries@[order@[at - 1] as int]@);
                    assert(front.drop_last() =~= dirs.take(at - 1));
                    assert(path_inserted(front, x) + dirs.skip(at as int) =~= path_inserted(
                        dirs.take(at - 1),
                        x,
                    ) + dirs.skip(at - 1));
                }
                at -= 1;
            }
            let ghost before = order@;
            order.insert(at, k);
            proof {
                let front = dirs.take(at as int);
                if front.len() > 0 {
                    assert(front.last() == entries@[before[at - 1] as int]@);
                }
                assert(path_inserted(front, x) == front.push(x));
                assert(pointed(order@, all) =~= front.push(x) + dirs.skip(at as int));
            }
        }
        k += 1;
    }
    assert(all.take(k as int) =~= all);
    order
}

impl ProjectRegistry {
    /// Whether `p` is the root of a registered project.
    pub fn is_registered_root(&self, p: &PathBuf) -> (r: bool)
        requires
            self.wf(),
        ensures
            r == is_root_of_one(self@, p@),
    {
        proof {
            lemma_project_map(self.listing());
        }
        let mut i: usize = 0;
        while i < self.projects.len()
            invariant
                i <= self.projects@.len(),
                forall|j: int|
                    0 <= j < i ==> path::components((#[trigger] self.listing()[j]).root)
                        != path::components(p@),
                forall|j: int|
                    0 <= j < self.listing().len() ==> self@.dom().contains(
                        (#[trigger] self.listing()[j]).id,
                    ) && self@[self.listing()[j].id] == self.listing()[j],
            decreases self.projects@.len() - i,
        {
            assert(self.listing()[i as int] == self.projects@[i as int]@);
            if self.projects[i].root == *p {
                return true;
            }
            i += 1;
        }
        false
    }

    /// Registers a directory that was come by, unless it is registered already
    /// or cannot be registered.
    pub fn auto_register_dir(&mut self, probe: &RootProbe) -> (r: Option<Project>)
        requires
            old(self).wf(),
        ensures
            final(self).wf(),
            final(self).config_file() == old(self).config_file(),
            match r {
                Some(p) => auto_registration(old(self)@, probe@) == Some(p@) && final(self)@ == old(
                    self,
                )@.insert(p@.id, p@),
                None => auto_registration(old(self)@, probe@) is None && final(self)@ == old(self)@,
            },
    {
        let known = match &probe.canonical {
            Some(p) => self.is_registered_root(p),
            None => self.is_registered_root(&probe.path),
        };
        if known {
            return None;
        }
        match self.register(None, probe) {
            Ok(p) => Some(p),
            Err(_) => None,
        }
    }

    /// Registers every directory of the listings that holds a language and is
    /// not registered yet, under the id that its name gives. Listings that could
    /// not be read, and directories that cannot be registered, are passed over.
    /// Returns the ids that are new.
    pub fn auto_register(&mut self, listings: &Vec<Option<Vec<RootProbe>>>) -> (r: Vec<String>)
        requires
            old(self).wf(),
        ensures
            final(self).wf(),
            final(self).config_file() == old(self).config_file(),
            (final(self)@, text::texts(r@)) == auto_registrations(
                old(self)@,
                all_dirs(listing_views(listings@)),
            ),
    {
        let ghost views = listing_views(listings@);
        let ghost start = self@;
        let mut added: Vec<String> = Vec::new();
        let mut i: usize = 0;
        assert(views.take(0) =~= seq![]);
        assert(text::texts(added@) =~= seq![]);
        while i < listings.len()
            invariant
                i <= listings@.len(),
                views == listing_views(listings@),
                start == old(self)@,
                self.wf(),
                self.config_file() == old(self).config_file(),
                (self@, text::texts(added@)) == auto_registrations(
                    start,
                    all_dirs(views.take(i as int)),
                ),
            decreases listings@.len() - i,
        {
            let ghost done = all_dirs(views.take(i as int));
            let ghost now = views.take(i + 1);
            assert(now.drop_last() =~= views.take(i as int));
            assert(now.last() == listing_view(listings@[i as int]));
            if let Some(entries) = &listings[i] {
                let ghost seen = entries@.map_values(|e: RootProbe| e@);
                let ghost dirs = ordered_dirs(seen);
                let order = dir_order(entries);
                let mut k: usize = 0;
                assert(done + dirs.take(0) =~= done);
                while k < order.len()
                    invariant
                        k <= order@.len(),
                        seen == entries@.map_values(|e: RootProbe| e@),
                        dirs == pointed(order@, seen),
                        forall|j: int|
                            0 <= j < order@.len() ==> #[trigger] order@[j] < entries@.len(),
                        self.wf(),
                        self.config_file() == old(self).config_file(),
                        (self@, text::texts(added@)) == auto_registrations(
                            start,
                            done + dirs.take(k as int),
                        ),
                    decreases order@.len() - k,
                {
                    let probe = &entries[order[k]];
                    let ghost ids = text::texts(added@);
                    proof {
                        let next = done + dirs.take(k + 1);
                        assert(next.drop_last() =~= done + dirs.take(k as int));
                        assert(next.last() == dirs[k as int]);
                        assert(dirs[k as int] == probe@);
                    }
                    if let Some(p) = self.auto_register_dir(probe) {
                        let ghost id = p.id@;
                        added.push(p.id);
                        assert(text::texts(added@) =~= ids.push(id));
                    }
                    k += 1;
                }
                assert(dirs.take(k as int) =~= dirs);
                assert(all_dirs(now) =~= done + dirs);
            } else {
                assert(ordered_dirs(seq![]) =~= seq![]);
                assert(all_dirs(now) =~= done);
            }
            i += 1;
        }
        assert(views.take(i as int) =~= views);
        added
    }
}

// ---------------------------------------------------------------------------
// The registry file
// ---------------------------------------------------------------------------

/// A project as it stands in the registry file.
#[derive(Debug, Clone, PartialEq, Eq)]
pub struct ProjectEntry {
    /// Path of the source tree.
    pub root: PathBuf,
    /// Its languages.
    pub languages: Vec<Language>,
}

/// The registry file: entries by id.
#[derive(Debug, Clone, PartialEq, Eq)]
pub struct RegistryFile {
    /// The ids and their entries. Of several entries with one id the last counts.
    pub projects: Vec<(String, ProjectEntry)>,
}

/// The project that an entry of the file stands for.
pub open spec fn entry_project(entry: (String, ProjectEntry)) -> ProjectView {
    ProjectView {
        id: entry.0@,
        root: entry.1.root@,
        languages: entry.1.languages@,
    }
}

/// The projects of a list of entries.
pub open spec fn entry_projects(entries: Seq<(String, ProjectEntry)>) -> Map<
    Seq<char>,
    ProjectView,
>
    decreases entries.len(),
{
    if entries.len() == 0 {
        Map::empty()
    } else {
        entry_projects(entries.drop_last()).insert(
            entries.last().0@,
            entry_project(entries.last()),
        )
    }
}

impl RegistryFile {
    /// The file that holds the projects of a registry, in the order of their
    /// ids.
    pub fn from_projects(registry: &ProjectRegistry) -> (r: RegistryFile)
        requires
            registry.wf(),
        ensures
            r.projects@.map_values(|e: (String, ProjectEntry)| entry_project(e))
                == registry.listing(),
            entry_projects(r.projects@) == registry@,
    {
        let ghost all = registry.listing();
        let mut projects: Vec<(String, ProjectEntry)> = Vec::new();
        let mut i: usize = 0;
        assert(projects@.map_values(|e: (String, ProjectEntry)| entry_project(e)) =~= all.take(0));
        while i < registry.projects.len()
            invariant
                i <= registry.projects@.len(),
                all == registry.listing(),
                projects@.map_values(|e: (String, ProjectEntry)| entry_project(e)) == all.take(
                    i as int,
                ),
            decreases registry.projects@.len() - i,
        {
            let p = &registry.projects[i];
            let ghost before = projects@.map_values(|e: (String, ProjectEntry)| entry_project(e));
            projects.push(
                (
                    p.id.clone(),
                    ProjectEntry {
                        root: p.root.clone(),
                        languages: copy_languages(&p.languages),
                    },
                ),
            );
            proof {
                assert(all[i as int] == p@);
                assert(projects@.map_values(|e: (String, ProjectEntry)| entry_project(e))
                    =~= before.push(all[i as int]));
                assert(all.take(i + 1) =~= all.take(i as int).push(all[i as int]));
            }
            i += 1;
        }
        assert(all.take(i as int) =~= all);
        proof {
            lemma_entry_projects(projects@);
        }
        RegistryFile { projects }
    }

    /// The registry that the file holds.
    pub fn into_projects(self, config_path: PathBuf) -> (r: ProjectRegistry)
        ensures
            r.wf(),
            r.config_file() == config_path@,
            r@ == entry_projects(self.projects@),
    {
        let mut out = ProjectRegistry::empty(config_path);
        let mut i: usize = 0;
        assert(self.projects@.take(0) =~= seq![]);
        while i < self.projects.len()
            invariant
                i <= self.projects@.len(),
                out.wf(),
                out.config_file() == config_path@,
                out@ == entry_projects(self.projects@.take(i as int)),
            decreases self.projects@.len() - i,
        {
            let entry = &self.projects[i];
            let project = Project {
                id: entry.0.clone(),
                root: entry.1.root.clone(),
                languages: copy_languages(&entry.1.languages),
            };
            proof {
                let now = self.projects@.take(i + 1);
                assert(now.drop_last() =~= self.projects@.take(i as int));
                assert(now.last() == self.projects@[i as int]);
                assert(project@ == entry_project(self.projects@[i as int]));
            }
            out.put(project);
            i += 1;
        }
        assert(self.projects@.take(i as int) =~= self.projects@);
        out
    }
}

/// Entries that stand for a list ordered by id hold the projects of that list.
proof fn lemma_entry_projects(entries: Seq<(String, ProjectEntry)>)
    requires
        ordered_by_id(entries.map_values(|e: (String, ProjectEntry)| entry_project(e))),
    ensures
        entry_projects(entries) == project_map(
            entries.map_values(|e: (String, ProjectEntry)| entry_project(e)),
        ),
    decreases entries.len(),
{
    let v = entries.map_values(|e: (String, ProjectEntry)| entry_project(e));
    if entries.len() == 0 {
        assert(entry_projects(entries) =~= project_map(v));
    } else {
        let front = entries.drop_last();
        let w = front.map_values(|e: (String, ProjectEntry)| entry_project(e));
        assert(w =~= v.drop_last());
        assert forall|i: int, j: int| 0 <= i < j < w.len() implies text::text_before(
            w[i].id,
            w[j].id,
        ) by {
            assert(text::text_before(v[i].id, v[j].id));
        }
        lemma_entry_projects(front);
        let p = entry_project(entries.last());
        assert(v =~= w.insert(w.len() as int, p));
        assert forall|i: int| 0 <= i < w.len() implies text::text_before(
            (#[trigger] w[i]).id,
            p.id,
        ) by {
            assert(text::text_before(v[i].id, v[v.len() - 1].id));
        }
        lemma_inserted(w, w.len() as int, p);
    }
}

/// What reading the registry file gave.
#[derive(Debug, Clone, PartialEq, Eq)]
pub enum ConfigSource {
    /// There is no such file.
    Missing,
    /// The file could not be read; the text says why.
    Unreadable(String),
    /// The file is no registry file; the text says why.
    Malformed(String),
    /// What the file holds.
    Parsed(RegistryFile),
}

impl ProjectRegistry {
    /// The registry kept in `config_path`; empty where there is no such file yet.
    pub fn load(config_path: PathBuf, source: ConfigSource) -> (r: Result<Self, Error>)
        ensures
            match (source, r) {
                (ConfigSource::Missing, Ok(reg)) => reg.wf() && reg.config_file() == config_path@
                    && reg@ == Map::<Seq<char>, ProjectView>::empty(),
                (ConfigSource::Parsed(file), Ok(reg)) => reg.wf() && reg.config_file()
                    == config_path@ && reg@ == entry_projects(file.projects@),
                (ConfigSource::Unreadable(message), Err(e)) => e@ == ErrorView::Io(message@),
                (ConfigSource::Malformed(message), Err(e)) => e@ == (ErrorView::ConfigRead {
                    path: config_path@,
                    source: message@,
                }),
                _ => false,
            },
    {
        match source {
            ConfigSource::Missing => Ok(ProjectRegistry::empty(config_path)),
            ConfigSource::Parsed(file) => Ok(file.into_projects(config_path)),
            ConfigSource::Unreadable(message) => Err(Error::Io(message)),
            ConfigSource::Malformed(message) => Err(
                Error::ConfigRead { path: config_path, source: message },
            ),
        }
    }
}

// ---------------------------------------------------------------------------
// Where the registry is kept
// ---------------------------------------------------------------------------

/// A value that is set and not empty.
pub open spec fn non_empty(value: Option<Seq<char>>) -> Option<Seq<char>> {
    match value {
        Some(s) => if s.len() > 0 {
            Some(s)
        } else {
            None
        },
        None => None,
    }
}

/// The path of an application's registry file: `projects.toml` in a directory of
/// its own in the configuration directory, which is `.config` in the home
/// directory where none is set.
pub open spec fn app_config_location(
    app: Seq<char>,
    xdg_config: Option<Seq<char>>,
    home: Option<Seq<char>>,
) -> Seq<char> {
    let base = match non_empty(xdg_config) {
        Some(c) => c,
        None => match home {
            Some(h) => path::joined(h, ".config"@),
            None => ".config"@,
        },
    };
    path::joined(path::joined(base, app), "projects.toml"@)
}

/// The path of the registry file: the explicit one; else `projects.toml` in the
/// data root; else `henka/projects.toml` in the configuration directory.
pub open spec fn config_location(
    explicit: Option<Seq<char>>,
    data: Option<Seq<char>>,
    xdg_config: Option<Seq<char>>,
    home: Option<Seq<char>>,
) -> Seq<char> {
    match explicit {
        Some(p) => p,
        None => match non_empty(data) {
            Some(d) => path::joined(d, "projects.toml"@),
            None => app_config_location("henka"@, xdg_config, home),
        },
    }
}

/// The root of all persistent state, where `data` names one. An empty value
/// names none.
pub fn data_root(data: &Option<String>) -> (r: Option<PathBuf>)
    ensures
        r is Some == non_empty(text::optional(*data)) is Some,
        r matches Some(p) ==> Some(p@) == non_empty(text::optional(*data)),
{
    match data {
        Some(s) => if chars_of(s.as_str()).len() > 0 {
            Some(PathBuf::new(s.as_str()))
        } else {
            None
        },
        None => None,
    }
}

/// The path of an application's registry file, from the values of
/// `XDG_CONFIG_HOME` and `HOME`.
pub fn app_config_path(app: &str, xdg_config: &Option<String>, home: &Option<String>) -> (r: PathBuf)
    ensures
        r@ == app_config_location(app@, text::optional(*xdg_config), text::optional(*home)),
{
    let base = match data_root(xdg_config) {
        Some(dir) => dir,
        None => match home {
            Some(h) => PathBuf::new(h.as_str()).join(&PathBuf::new(".config")),
            None => PathBuf::new(".config"),
        },
    };
    base.join(&PathBuf::new(app)).join(&PathBuf::new("projects.toml"))
}

/// The path of the registry file, from the values of `HENKA_CONFIG`,
/// `HENKA_DATA`, `XDG_CONFIG_HOME` and `HOME`.
pub fn default_config_path(
    explicit: &Option<String>,
    data: &Option<String>,
    xdg_config: &Option<String>,
    home: &Option<String>,
) -> (r: PathBuf)
    ensures
        r@ == config_location(
            text::optional(*explicit),
            text::optional(*data),
            text::optional(*xdg_config),
            text::optional(*home),
        ),
{
    if let Some(p) = explicit {
        return PathBuf::new(p.as_str());
    }
    if let Some(root) = data_root(data) {
        return root.join(&PathBuf::new("projects.toml"));
    }
    app_config_path("henka", xdg_config, home)
}

// ---------------------------------------------------------------------------
// Laws
// ---------------------------------------------------------------------------

/// A registration that succeeds is for an id that was free and valid.
pub proof fn registered_ids_are_new_and_valid(
    projects: Map<Seq<char>, ProjectView>,
    id: Option<Seq<char>>,
    probe: RootProbeView,
)
    requires
        registration(projects, id, probe) is Ok,
    ensures
        !projects.dom().contains(registration(projects, id, probe)->Ok_0.id),
        project::valid_id(registration(projects, id, probe)->Ok_0.id),
        registration(projects, id, probe)->Ok_0.languages.len() > 0,
{
}

/// The id of a registered project cannot be taken a second time.
pub proof fn taken_ids_are_refused(
    projects: Map<Seq<char>, ProjectView>,
    id: Seq<char>,
    probe: RootProbeView,
)
    requires
        projects.dom().contains(id),
        project::valid_id(id),
        normalized_root(probe) is Ok,
    ensures
        registration(projects, Some(id), probe) == Err::<ProjectView, ErrorView>(
            ErrorView::ProjectAlreadyExists(id),
        ),
{
}

/// A registration followed by its removal leaves the projects as they were.
pub proof fn unregister_undoes_register(
    projects: Map<Seq<char>, ProjectView>,
    id: Option<Seq<char>>,
    probe: RootProbeView,
)
    requires
        registration(projects, id, probe) is Ok,
    ensures
        ({
            let p = registration(projects, id, probe)->Ok_0;
            projects.insert(p.id, p).remove(p.id) == projects
        }),
{
    let p = registration(projects, id, probe)->Ok_0;
    assert(projects.insert(p.id, p).remove(p.id) =~= projects);
}

/// A directory that adds nothing to a set of projects adds nothing to a larger
/// one.
proof fn lemma_settled_stays(
    small: Map<Seq<char>, ProjectView>,
    large: Map<Seq<char>, ProjectView>,
    probe: RootProbeView,
)
    requires
        auto_registration(small, probe) is None,
        forall|id: Seq<char>| #[trigger]
            small.dom().contains(id) ==> large.dom().contains(id) && large[id] == small[id],
    ensures
        auto_registration(large, probe) is None,
{
    let root = canonical_root(probe);
    if is_root_of_one(small, root) {
        let id = choose|id: Seq<char>| #[trigger]
            small.dom().contains(id) && path::components(small[id].root) == path::components(root);
        assert(large.dom().contains(id));
    }
}

/// Coming by a directory adds at most the project that it stands for.
proof fn lemma_settled_after(projects: Map<Seq<char>, ProjectView>, probe: RootProbeView)
    requires
        auto_registration(projects, probe) is Some,
    ensures
        ({
            let p = auto_registration(projects, probe).unwrap();
            &&& !projects.dom().contains(p.id)
            &&& auto_registration(projects.insert(p.id, p), probe) is None
        }),
{
    let p = auto_registration(projects, probe).unwrap();
    let after = projects.insert(p.id, p);
    assert(after.dom().contains(p.id));
    assert(is_root_of_one(after, canonical_root(probe)));
}

/// Projects are only ever added, and every directory that was come by adds
/// nothing when it is come by again.
proof fn lemma_auto_registrations(
    projects: Map<Seq<char>, ProjectView>,
    probes: Seq<RootProbeView>,
)
    ensures
        forall|id: Seq<char>| #[trigger]
            projects.dom().contains(id) ==> auto_registrations(projects, probes).0.dom().contains(
                id,
            ) && auto_registrations(projects, probes).0[id] == projects[id],
        forall|i: int|
            0 <= i < probes.len() ==> auto_registration(
                auto_registrations(projects, probes).0,
                #[trigger] probes[i],
            ) is None,
    decreases probes.len(),
{
    if probes.len() > 0 {
        let front = probes.drop_last();
        lemma_auto_registrations(projects, front);
        let before = auto_registrations(projects, front).0;
        let after = auto_registrations(projects, probes).0;
        if auto_registration(before, probes.last()) is Some {
            lemma_settled_after(before, probes.last());
        }
        assert forall|i: int| 0 <= i < probes.len() implies auto_registration(
            after,
            #[trigger] probes[i],
        ) is None by {
            if i < front.len() {
                assert(front[i] == probes[i]);
                lemma_settled_stays(before, after, probes[i]);
            }
        }
    }
}

/// Registering what stands in a directory is idempotent: a second pass over the
/// same directories adds nothing and changes nothing.
pub proof fn auto_register_is_idempotent(
    projects: Map<Seq<char>, ProjectView>,
    probes: Seq<RootProbeView>,
)
    ensures
        auto_registrations(auto_registrations(projects, probes).0, probes) == (
            auto_registrations(projects, probes).0,
            Seq::<Seq<char>>::empty(),
        ),
{
    lemma_auto_registrations(projects, probes);
    lemma_nothing_left(auto_registrations(projects, probes).0, probes);
}

proof fn lemma_nothing_left(projects: Map<Seq<char>, ProjectView>, probes: Seq<RootProbeView>)
    requires
        forall|i: int|
            0 <= i < probes.len() ==> auto_registration(projects, #[trigger] probes[i]) is None,
    ensures
        auto_registrations(projects, probes) == (projects, Seq::<Seq<char>>::empty()),
    decreases probes.len(),
{
    if probes.len() > 0 {
        let front = probes.drop_last();
        assert forall|i: int| 0 <= i < front.len() implies auto_registration(
            projects,
            #[trigger] front[i],
        ) is None by {
            assert(front[i] == probes[i]);
        }
        lemma_nothing_left(projects, front);
        assert(auto_registration(projects, probes[probes.len() - 1]) is None);
    }
}

/// A registered project is never lost or changed by registering what stands in
/// a directory.
pub proof fn auto_register_keeps_projects(
    projects: Map<Seq<char>, ProjectView>,
    probes: Seq<RootProbeView>,
    id: Seq<char>,
)
    requires
        projects.dom().contains(id),
    ensures
        auto_registrations(projects, probes).0.dom().contains(id),
        auto_registrations(projects, probes).0[id] == projects[id],
{
    lemma_auto_registrations(projects, probes);
}

/// A registry that is loaded holds the projects that were saved: the file of a
/// listing gives back the projects of the listing.
pub proof fn saved_projects_are_loaded(
    listing: Seq<ProjectView>,
    entries: Seq<(String, ProjectEntry)>,
)
    requires
        ordered_by_id(listing),
        entries.map_values(|e: (String, ProjectEntry)| entry_project(e)) == listing,
    ensures
        entry_projects(entries) == project_map(listing),
{
    lemma_entry_projects(entries);
}

/// Registering what stands in a directory gives the ids that are new, each once.
pub proof fn auto_register_gives_the_new_ids(
    projects: Map<Seq<char>, ProjectView>,
    probes: Seq<RootProbeView>,
)
    ensures
        auto_registrations(projects, probes).1.no_duplicates(),
        forall|id: Seq<char>| #[trigger]
            auto_registrations(projects, probes).1.contains(id) <==> auto_registrations(
                projects,
                probes,
            ).0.dom().contains(id) && !projects.dom().contains(id),
    decreases probes.len(),
{
    if probes.len() > 0 {
        let front = probes.drop_last();
        auto_register_gives_the_new_ids(projects, front);
        lemma_auto_registrations(projects, front);
        let (before, added) = auto_registrations(projects, front);
        let (after, all) = auto_registrations(projects, probes);
        if let Some(p) = auto_registration(before, probes.last()) {
            lemma_settled_after(before, probes.last());
            assert(!added.contains(p.id));
            assert forall|id: Seq<char>| #[trigger] all.contains(id) <==> after.dom().contains(id)
                && !projects.dom().contains(id) by {
                assert(all == added.push(p.id));
                if added.contains(id) {
                    let i = choose|i: int| 0 <= i < added.len() && added[i] == id;
                    assert(all[i] == id);
                }
                if id == p.id {
                    assert(all[all.len() - 1] == id);
                    assert(!projects.dom().contains(id));
                }
                if all.contains(id) && id != p.id {
                    let i = choose|i: int| 0 <= i < all.len() && all[i] == id;
                    assert(added[i] == id);
                }
            }
            assert(all.no_duplicates()) by {
                assert forall|i: int, j: int|
                    0 <= i < all.len() && 0 <= j < all.len() && i != j implies all[i] != all[j] by {
                    if i < added.len() && j < added.len() {
                        assert(added[i] != added[j]);
                    } else if i < added.len() {
                        assert(added.contains(added[i]));
                    } else {
                        assert(added.contains(added[j]));
                    }
                }
            }
        }
    }
}

/// Whoever bears a valid id as a name is given it, so deriving an id from an id
/// that was derived gives it again.
pub proof fn deriving_again_keeps_the_id(id: Seq<char>, name: Seq<char>)
    ensures
        project::valid_id(id) ==> id_of_name(id) == id,
        id_of_name(id_of_name(name)) == id_of_name(name),
{
    if project::valid_id(id) {
        lemma_valid_id_is_its_slug(id);
    }
    derived_ids_are_valid(name);
    lemma_valid_id_is_its_slug(id_of_name(name));
}

proof fn lemma_valid_id_is_its_slug(id: Seq<char>)
    requires
        project::valid_id(id),
    ensures
        id_of_name(id) == id,
        text::ascii_lowercase(id) == id,
        forall|i: int| 0 <= i < id.len() ==> (#[trigger] id[i] as int) < 128,
{
    assert forall|i: int| 0 <= i < id.len() implies slug_char(id[i]) == #[trigger] id[i]
        && text::ascii_lower(id[i]) == id[i] && (id[i] as int) < 128 by {
        assert(project::id_char(id[i]));
    }
    assert(id.map_values(|c: char| slug_char(c)) =~= id);
    assert(text::ascii_lowercase(id) =~= id);
    assert(dashless_front(id) == id);
    assert(dashless_back(id) == id);
}

/// A directory is registered exactly if it is there, is a directory, has a language,
/// and its id is valid and free. The project has the id that was given, the languages
/// that were found, and the canonical path of the directory for its root.
pub proof fn registrations_record_what_was_found(
    projects: Map<Seq<char>, ProjectView>,
    id: Seq<char>,
    probe: RootProbeView,
)
    ensures
        registration(projects, Some(id), probe) is Ok <==> probe.exists && probe.is_dir
            && probe.languages.len() > 0 && project::valid_id(id) && !projects.dom().contains(id),
        registration(projects, Some(id), probe) matches Ok(p) ==> p.id == id && p.languages
            == probe.languages && (probe.canonical matches Some(c) ==> p.root == c) && (
        probe.canonical is None ==> p.root == probe.path),
{
}

/// A directory that is registered without an id has the id that its name gives, and
/// is registered as if that had been given.
pub proof fn names_stand_in_for_ids(
    projects: Map<Seq<char>, ProjectView>,
    probe: RootProbeView,
    dir: Seq<char>,
    name: Seq<char>,
)
    requires
        dir.len() > 0,
        path::plain_name(name),
        probe.canonical == Some(path::joined(dir, name)),
    ensures
        registration(projects, None, probe) == registration(
            projects,
            Some(id_of_name(text::lowercase(name))),
            probe,
        ),
{
    path::joined_names_are_file_names(dir, name);
}

/// A refused registration says what is wrong, and with what: the directory as it was
/// given, the id, or the root.
pub proof fn refused_registrations_say_why(
    projects: Map<Seq<char>, ProjectView>,
    id: Seq<char>,
    probe: RootProbeView,
)
    ensures
        match registration(projects, Some(id), probe) {
            Ok(_) => true,
            Err(ErrorView::PathNotFound(p)) => !probe.exists && p == probe.path,
            Err(ErrorView::NotADirectory(p)) => probe.exists && !probe.is_dir && p == probe.path,
            Err(ErrorView::InvalidProjectId(i)) => i == id && !project::valid_id(id),
            Err(ErrorView::ProjectAlreadyExists(i)) => i == id && projects.dom().contains(id),
            Err(ErrorView::NoLanguageDetected(p)) => p == canonical_root(probe)
                && probe.languages.len() == 0,
            Err(_) => false,
        },
{
}

/// An id keeps every letter and every digit of its name in its place, and has a dash
/// for anything else; only what would be a dash at an end is left out.
pub proof fn ids_keep_the_letters_of_their_names(name: Seq<char>, c: char, i: int)
    requires
        name.len() > 0,
        slug_char(name[0]) != '-',
        slug_char(name.last()) != '-',
        0 <= i < name.len(),
    ensures
        id_of_name(name).len() == name.len(),
        'a' <= name[i] <= 'z' || '0' <= name[i] <= '9' ==> id_of_name(name)[i] == name[i],
        !('a' <= name[i] <= 'z' || '0' <= name[i] <= '9') ==> id_of_name(name)[i] == '-',
        !('a' <= c <= 'z' || '0' <= c <= '9') ==> id_of_name(seq![c] + name) == id_of_name(name)
            && id_of_name(name.push(c)) == id_of_name(name),
{
    let mapped = name.map_values(|c: char| slug_char(c));
    assert(mapped[0] != '-');
    assert(mapped.last() == slug_char(name.last()));
    assert(dashless_front(mapped) == mapped);
    assert(dashless_back(mapped) == mapped);
    let more = (seq![c] + name).map_values(|c: char| slug_char(c));
    assert(more[0] == slug_char(c));
    assert(more.skip(1) =~= mapped);
    let longer = name.push(c).map_values(|c: char| slug_char(c));
    assert(longer[0] == mapped[0]);
    assert(longer.last() == slug_char(c));
    assert(longer.drop_last() =~= mapped);
}

/// Whether directories are in the order of their paths.
pub open spec fn in_path_order(dirs: Seq<RootProbeView>) -> bool {
    forall|i: int, j: int|
        0 <= i < j < dirs.len() ==> !path::path_before(
            (#[trigger] dirs[j]).path,
            (#[trigger] dirs[i]).path,
        )
}

/// A list in order stays so with one more put in, and holds what it held and the one
/// more.
proof fn lemma_path_inserted(ordered: Seq<RootProbeView>, x: RootProbeView, d: RootProbeView)
    ensures
        in_path_order(ordered) ==> in_path_order(path_inserted(ordered, x)),
        path_inserted(ordered, x).len() == ordered.len() + 1,
        path_inserted(ordered, x).contains(d) <==> ordered.contains(d) || d == x,
    decreases ordered.len(),
{
    let all = path_inserted(ordered, x);
    if ordered.len() == 0 || !path::path_before(x.path, ordered.last().path) {
        if ordered.contains(d) {
            assert(all[ordered.index_of(d)] == d);
        }
        assert(all[ordered.len() as int] == x);
        if in_path_order(ordered) {
            assert forall|i: int, j: int| 0 <= i < j < all.len() implies !path::path_before(
                (#[trigger] all[j]).path,
                (#[trigger] all[i]).path,
            ) by {
                if j == ordered.len() {
                    let last = ordered.last();
                    assert(!path::path_before(last.path, all[i].path)) by {
                        path::paths_are_in_one_order(last.path, last.path, last.path);
                        if i < ordered.len() - 1 {
                            assert(ordered[i] == all[i]);
                            assert(ordered[ordered.len() - 1] == last);
                        }
                    }
                    path::paths_are_in_one_order(x.path, last.path, all[i].path);
                    path::paths_are_in_one_order(x.path, all[i].path, last.path);
                    path::paths_are_in_one_order(all[i].path, last.path, x.path);
                    lemma_same_place(x.path, last.path, all[i].path);
                } else {
                    assert(all[j] == ordered[j] && all[i] == ordered[i]);
                }
            }
        }
    } else {
        let front = ordered.drop_last();
        let last = ordered.last();
        let before = path_inserted(front, x);
        lemma_path_inserted(front, x, d);
        assert(ordered =~= front.push(last));
        if ordered.contains(d) {
            let k = ordered.index_of(d);
            if k < front.len() {
                assert(front[k] == d);
            }
        }
        if front.contains(d) {
            assert(ordered[front.index_of(d)] == d);
        }
        assert(ordered[ordered.len() - 1] == last);
        if all.contains(d) {
            let k = all.index_of(d);
            if k < before.len() {
                assert(before[k] == d);
            }
        }
        if before.contains(d) {
            assert(all[before.index_of(d)] == d);
        }
        assert(all[before.len() as int] == last);
        if in_path_order(ordered) {
            assert(in_path_order(front)) by {
                assert forall|i: int, j: int| 0 <= i < j < front.len() implies !path::path_before(
                    (#[trigger] front[j]).path,
                    (#[trigger] front[i]).path,
                ) by {
                    assert(front[i] == ordered[i] && front[j] == ordered[j]);
                }
            }
            assert forall|i: int, j: int| 0 <= i < j < all.len() implies !path::path_before(
                (#[trigger] all[j]).path,
                (#[trigger] all[i]).path,
            ) by {
                if j == before.len() {
                    let y = before[i];
                    assert(all[i] == y);
                    assert(before.contains(y));
                    lemma_path_inserted(front, x, y);
                    if y == x {
                        path::paths_are_in_one_order(x.path, last.path, x.path);
                    } else {
                        let k = front.index_of(y);
                        assert(ordered[k] == y);
                        assert(ordered[ordered.len() - 1] == last);
                    }
                } else {
                    assert(all[j] == before[j] && all[i] == before[i]);
                }
            }
        }
    }
}

/// What does not come before a second path that does not come before a third does
/// not come before the third.
proof fn lemma_same_place(x: Seq<char>, y: Seq<char>, z: Seq<char>)
    requires
        !path::path_before(x, y),
        !path::path_before(y, z),
    ensures
        !path::path_before(x, z),
{
    path::paths_are_in_one_order(x, y, z);
    path::paths_are_in_one_order(y, z, x);
    path::paths_are_in_one_order(y, x, z);
    path::paths_are_in_one_order(z, y, x);
}

/// What stands in a directory is come by in the order of the paths: every directory
/// that is listed, and nothing else.
pub proof fn directories_are_come_by_in_order(entries: Seq<RootProbeView>, d: RootProbeView)
    ensures
        in_path_order(ordered_dirs(entries)),
        ordered_dirs(entries).contains(d) <==> entries.contains(d) && d.is_dir,
    decreases entries.len(),
{
    if entries.len() > 0 {
        let front = entries.drop_last();
        let last = entries.last();
        directories_are_come_by_in_order(front, d);
        assert(entries =~= front.push(last));
        if entries.contains(d) {
            let k = entries.index_of(d);
            if k < front.len() {
                assert(front[k] == d);
            }
        }
        if front.contains(d) {
            assert(entries[front.index_of(d)] == d);
        }
        assert(entries[entries.len() - 1] == last);
        if last.is_dir {
            lemma_path_inserted(ordered_dirs(front), last, d);
        }
    }
}

/// The registry is kept in the file that is named; else in the data directory; else
/// in a directory of its own in the configuration directory, which is `.config` in
/// the home directory unless another is set. A setting that is empty is as good as
/// none.
pub proof fn the_registry_is_kept_where_it_is_told(
    file: Seq<char>,
    data: Option<Seq<char>>,
    config: Option<Seq<char>>,
    home: Option<Seq<char>>,
)
    requires
        home matches Some(h) ==> h.len() > 0,
    ensures
        config_location(Some(file), data, config, home) == file,
        data matches Some(d) ==> d.len() > 0 ==> path::components(
            config_location(None, data, config, home),
        ) == path::components(d).push("projects.toml"@),
        config matches Some(c) ==> c.len() > 0 ==> path::components(
            config_location(None, None, config, home),
        ) == path::components(c).push("henka"@).push("projects.toml"@),
        home matches Some(h) ==> path::components(config_location(None, None, None, home))
            == path::components(h).push(".config"@).push("henka"@).push("projects.toml"@),
        config_location(None, Some(Seq::empty()), config, home) == config_location(
            None,
            None,
            config,
            home,
        ),
        config_location(None, data, Some(Seq::empty()), home) == config_location(
            None,
            data,
            None,
            home,
        ),
{
    reveal_strlit("projects.toml");
    reveal_strlit("henka");
    reveal_strlit(".config");
    assert("projects.toml"@.len() == 13);
    assert("henka"@.len() == 5);
    assert(".config"@.len() == 7);
    assert(path::plain_name("projects.toml"@));
    assert(path::plain_name("henka"@));
    assert(path::plain_name(".config"@));
    if let Some(d) = data {
        if d.len() > 0 {
            path::joined_names_are_file_names(d, "projects.toml"@);
        }
    }
    if let Some(c) = config {
        if c.len() > 0 {
            path::joined_names_are_file_names(c, "henka"@);
            path::joined_names_are_file_names(path::joined(c, "henka"@), "projects.toml"@);
        }
    }
    if let Some(h) = home {
        let base = path::joined(h, ".config"@);
        path::joined_names_are_file_names(h, ".config"@);
        path::joined_names_are_file_names(base, "henka"@);
        path::joined_names_are_file_names(path::joined(base, "henka"@), "projects.toml"@);
    }
}

/// The directories of several listings are come by listing by listing. A directory
/// that is the root of a project already is left alone; any other that could be
/// registered is, under the id of its name.
pub proof fn listings_are_come_by_in_turn(
    listings: Seq<Seq<RootProbeView>>,
    more: Seq<Seq<RootProbeView>>,
    listing: Seq<RootProbeView>,
    projects: Map<Seq<char>, ProjectView>,
    probe: RootProbeView,
    id: Seq<char>,
)
    ensures
        all_dirs(seq![listing]) == ordered_dirs(listing),
        all_dirs(listings + more) == all_dirs(listings) + all_dirs(more),
        projects.dom().contains(id) && path::components(projects[id].root) == path::components(
            canonical_root(probe),
        ) ==> auto_registration(projects, probe) is None,
        (forall|other: Seq<char>| #[trigger]
            projects.dom().contains(other) ==> path::components(projects[other].root)
                != path::components(canonical_root(probe))) ==> auto_registration(projects, probe)
            == match registration(projects, Some(derived_id(canonical_root(probe))), probe) {
            Ok(p) => Some(p),
            Err(_) => None,
        },
    decreases more.len(),
{
    assert(seq![listing].drop_last() =~= seq![]);
    assert(all_dirs(seq![listing].drop_last()) =~= seq![]);
    assert(all_dirs(seq![listing]) =~= ordered_dirs(listing));
    if more.len() == 0 {
        assert(listings + more =~= listings);
        assert(all_dirs(listings) + all_dirs(more) =~= all_dirs(listings));
    } else {
        assert((listings + more).drop_last() =~= listings + more.drop_last());
        listings_are_come_by_in_turn(listings, more.drop_last(), listing, projects, probe, id);
        assert(all_dirs(listings + more) =~= all_dirs(listings) + all_dirs(more));
    }
}

} // verus!
