//! The projects that operations act on.
use vstd::prelude::*;

use crate::language::Language;
use crate::path::PathBuf;
use crate::text::chars_of;

verus! {

/// A registered project: a source tree that stays where it is.
#[derive(Debug, Clone, PartialEq, Eq)]
pub struct Project {
    /// The slug that callers name the project by.
    pub id: String,
    /// Absolute path of the source tree.
    pub root: PathBuf,
    /// The languages found in the tree.
    pub languages: Vec<Language>,
}

/// What a [`Project`] says.
pub struct ProjectView {
    pub id: Seq<char>,
    pub root: Seq<char>,
    pub languages: Seq<Language>,
}

impl View for Project {
    type V = ProjectView;

    open spec fn view(&self) -> ProjectView {
        ProjectView { id: self.id@, root: self.root@, languages: self.languages@ }
    }
}

/// Whether `language` is in a list.
pub fn contains_language(languages: &Vec<Language>, language: Language) -> (r: bool)
    ensures
        r == languages@.contains(language),
{
    let mut i: usize = 0;
    while i < languages.len()
        invariant
            i <= languages@.len(),
            forall|j: int| 0 <= j < i ==> languages@[j] != language,
        decreases languages@.len() - i,
    {
        if languages[i] == language {
            return true;
        }
        i += 1;
    }
    false
}

/// A list with the same languages.
pub fn copy_languages(languages: &Vec<Language>) -> (r: Vec<Language>)
    ensures
        r@ == languages@,
{
    let mut out: Vec<Language> = Vec::new();
    let mut i: usize = 0;
    while i < languages.len()
        invariant
            i <= languages@.len(),
            out@ == languages@.take(i as int),
        decreases languages@.len() - i,
    {
        out.push(languages[i]);
        i += 1;
        assert(languages@.take(i as int) =~= languages@.take(i - 1).push(languages@[i - 1]));
    }
    assert(languages@.take(i as int) =~= languages@);
    out
}

impl Project {
    /// Whether the project holds `language`.
    pub fn has_language(&self, language: Language) -> (r: bool)
        ensures
            r == self@.languages.contains(language),
    {
        contains_language(&self.languages, language)
    }

    /// A project that says the same.
    pub fn copy(&self) -> (r: Project)
        ensures
            r@ == self@,
    {
        Project {
            id: self.id.clone(),
            root: self.root.clone(),
            languages: copy_languages(&self.languages),
        }
    }
}

/// Whether a character may stand in a project id.
pub open spec fn id_char(c: char) -> bool {
    'a' <= c <= 'z' || '0' <= c <= '9' || c == '-'
}

/// Whether a text is a project id: lower-case letters, digits and dashes, with
/// no dash at either end.
pub open spec fn valid_id(id: Seq<char>) -> bool {
    &&& id.len() > 0
    &&& id[0] != '-'
    &&& id.last() != '-'
    &&& forall|i: int| 0 <= i < id.len() ==> id_char(#[trigger] id[i])
}

/// Whether `id` is a project id: a non-empty slug of lower-case letters, digits
/// and dashes that neither starts nor ends with a dash.
pub fn validate_project_id(id: &str) -> (r: bool)
    ensures
        r == valid_id(id@),
{
    let chars = chars_of(id);
    if chars.len() == 0 || chars[0] == '-' || chars[chars.len() - 1] == '-' {
        return false;
    }
    let mut i: usize = 0;
    while i < chars.len()
        invariant
            i <= chars@.len(),
            chars@ == id@,
            forall|j: int| 0 <= j < i ==> id_char(#[trigger] id@[j]),
        decreases chars@.len() - i,
    {
        let c = chars[i];
        if !(('a' <= c && c <= 'z') || ('0' <= c && c <= '9') || c == '-') {
            assert(!id_char(id@[i as int]));
            return false;
        }
        i += 1;
    }
    true
}

} // verus!
