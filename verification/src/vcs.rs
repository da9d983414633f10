//! The revision that a project's working copy stands at.
//!
//! Indexes are kept by revision. The revision is read with the tools of the
//! version-control system; nothing here changes a repository.
use vstd::prelude::*;

use crate::text;
use crate::text::{cat3, chars_of, same_text, trim};

verus! {

/// A version-control system.
#[derive(Debug, Clone, Copy, PartialEq, Eq, Structural, Hash)]
pub enum Vcs {
    /// Jujutsu.
    Jj,
    /// Git.
    Git,
}

/// The name of a version-control system.
pub open spec fn vcs_name(vcs: Vcs) -> Seq<char> {
    match vcs {
        Vcs::Jj => "jj"@,
        Vcs::Git => "git"@,
    }
}

/// The command that prints the revision.
pub open spec fn id_command(vcs: Vcs) -> Seq<Seq<char>> {
    match vcs {
        Vcs::Jj => seq![
            "log"@,
            "-r"@,
            "@"@,
            "--no-graph"@,
            "--ignore-working-copy"@,
            "-T"@,
            "change_id.short()"@,
        ],
        Vcs::Git => seq!["rev-parse"@, "--short"@, "HEAD"@],
    }
}

/// The command that prints the branch.
pub open spec fn branch_command(vcs: Vcs) -> Seq<Seq<char>> {
    match vcs {
        Vcs::Jj => seq![
            "log"@,
            "-r"@,
            "@"@,
            "--no-graph"@,
            "--ignore-working-copy"@,
            "-T"@,
            "bookmarks.join(\" \")"@,
        ],
        Vcs::Git => seq!["rev-parse"@, "--abbrev-ref"@, "HEAD"@],
    }
}

/// The version-control system of a directory. Jujutsu is preferred where both
/// are present.
pub open spec fn vcs_of(has_jj_dir: bool, has_git_entry: bool) -> Option<Vcs> {
    if has_jj_dir {
        Some(Vcs::Jj)
    } else if has_git_entry {
        Some(Vcs::Git)
    } else {
        None
    }
}

impl Vcs {
    /// The name of the system, which is also that of its program.
    pub fn as_str(self) -> (r: &'static str)
        ensures
            r@ == vcs_name(self),
    {
        match self {
            Vcs::Jj => "jj",
            Vcs::Git => "git",
        }
    }

    /// The system of a directory that holds a `.jj` directory, or a `.git` entry.
    pub fn of(has_jj_dir: bool, has_git_entry: bool) -> (r: Option<Vcs>)
        ensures
            r == vcs_of(has_jj_dir, has_git_entry),
    {
        if has_jj_dir {
            Some(Vcs::Jj)
        } else if has_git_entry {
            Some(Vcs::Git)
        } else {
            None
        }
    }

    /// The arguments with which the program prints the revision.
    pub fn id_args(self) -> (r: Vec<String>)
        ensures
            text::texts(r@) == id_command(self),
    {
        let mut out: Vec<String> = Vec::new();
        match self {
            Vcs::Jj => {
                out.push("log".to_owned());
                out.push("-r".to_owned());
                out.push("@".to_owned());
                out.push("--no-graph".to_owned());
                out.push("--ignore-working-copy".to_owned());
                out.push("-T".to_owned());
                out.push("change_id.short()".to_owned());
            },
            Vcs::Git => {
                out.push("rev-parse".to_owned());
                out.push("--short".to_owned());
                out.push("HEAD".to_owned());
            },
        }
        assert(text::texts(out@) =~= id_command(self));
        out
    }

    /// The arguments with which the program prints the branch.
    pub fn branch_args(self) -> (r: Vec<String>)
        ensures
            text::texts(r@) == branch_command(self),
    {
        let mut out: Vec<String> = Vec::new();
        match self {
            Vcs::Jj => {
                out.push("log".to_owned());
                out.push("-r".to_owned());
                out.push("@".to_owned());
                out.push("--no-graph".to_owned());
                out.push("--ignore-working-copy".to_owned());
                out.push("-T".to_owned());
                out.push("bookmarks.join(\" \")".to_owned());
            },
            Vcs::Git => {
                out.push("rev-parse".to_owned());
                out.push("--abbrev-ref".to_owned());
                out.push("HEAD".to_owned());
            },
        }
        assert(text::texts(out@) =~= branch_command(self));
        out
    }
}

/// The revision of a working copy.
#[derive(Debug, Clone, PartialEq, Eq, Hash)]
pub struct Revision {
    /// The system that reported it.
    pub vcs: Vcs,
    /// A short identifier.
    pub id: String,
    /// The branch, where there is one.
    pub branch: Option<String>,
}

/// What a [`Revision`] says.
pub struct RevisionView {
    pub vcs: Vcs,
    pub id: Seq<char>,
    pub branch: Option<Seq<char>>,
}

impl View for Revision {
    type V = RevisionView;

    open spec fn view(&self) -> RevisionView {
        RevisionView {
            vcs: self.vcs,
            id: self.id@,
            branch: match self.branch {
                Some(b) => Some(b@),
                None => None,
            },
        }
    }
}

/// The branch that the output of the branch command names. For Git, `HEAD` means
/// that no branch is checked out.
pub open spec fn branch_of(vcs: Vcs, output: Option<Seq<char>>) -> Option<Seq<char>> {
    match output {
        Some(s) => {
            let name = text::trimmed(s);
            if name.len() == 0 || (vcs == Vcs::Git && name == "HEAD"@) {
                None
            } else {
                Some(name)
            }
        },
        None => None,
    }
}

/// The revision that the outputs of the two commands name: none without a
/// version-control system, and none where the first command failed.
pub open spec fn revision_of(
    vcs: Option<Vcs>,
    id_output: Option<Seq<char>>,
    branch_output: Option<Seq<char>>,
) -> Option<RevisionView> {
    match (vcs, id_output) {
        (Some(vcs), Some(id)) => Some(
            RevisionView { vcs, id: text::trimmed(id), branch: branch_of(vcs, branch_output) },
        ),
        _ => None,
    }
}

/// The revision that may be there.
pub open spec fn optional(revision: Option<Revision>) -> Option<RevisionView> {
    match revision {
        Some(rev) => Some(rev@),
        None => None,
    }
}

/// The key that an index of a revision is kept under.
pub open spec fn revision_key(vcs: Vcs, id: Seq<char>) -> Seq<char> {
    vcs_name(vcs) + "-"@ + id
}

impl Revision {
    /// The key that an index of this revision is kept under.
    pub fn key(&self) -> (r: String)
        ensures
            r@ == revision_key(self.vcs, self.id@),
            r@ == vcs_name(self.vcs) + "-"@ + self.id@,
    {
        cat3(self.vcs.as_str(), "-", self.id.as_str())
    }
}

/// The revision of a working copy of the system `vcs`, from what the two commands
/// of that system printed; `None` stands for a command that failed.
pub fn detect_revision(
    vcs: Option<Vcs>,
    id_output: &Option<String>,
    branch_output: &Option<String>,
) -> (r: Option<Revision>)
    ensures
        r is Some == revision_of(
            vcs,
            text::optional(*id_output),
            text::optional(*branch_output),
        ) is Some,
        r matches Some(rev) ==> Some(rev@) == revision_of(
            vcs,
            text::optional(*id_output),
            text::optional(*branch_output),
        ),
{
    let vcs = match vcs {
        Some(vcs) => vcs,
        None => {
            return None;
        },
    };
    let id = match id_output {
        Some(s) => trim(s.as_str()),
        None => {
            return None;
        },
    };
    let branch = match branch_output {
        Some(s) => {
            let name = trim(s.as_str());
            if chars_of(name.as_str()).len() == 0 || (vcs == Vcs::Git && same_text(
                name.as_str(),
                "HEAD",
            )) {
                None
            } else {
                Some(name)
            }
        },
        None => None,
    };
    Some(Revision { vcs, id, branch })
}

// ---------------------------------------------------------------------------
// Laws
// ---------------------------------------------------------------------------

/// Jujutsu is asked wherever it is there, and Git only where it is alone. The two
/// are told apart by their names.
pub proof fn jujutsu_comes_first(jj: bool, git: bool, a: Vcs, b: Vcs)
    ensures
        vcs_of(jj, git) == Some(Vcs::Jj) <==> jj,
        vcs_of(jj, git) == Some(Vcs::Git) <==> git && !jj,
        vcs_name(a) == vcs_name(b) <==> a == b,
{
    reveal_strlit("jj");
    reveal_strlit("git");
    assert("jj"@.len() == 2);
    assert("git"@.len() == 3);
}

/// Jujutsu is never made to look at the working copy, which would change the
/// repository.
pub proof fn the_working_copy_is_left_alone()
    ensures
        id_command(Vcs::Jj).contains("--ignore-working-copy"@),
        branch_command(Vcs::Jj).contains("--ignore-working-copy"@),
{
    assert(id_command(Vcs::Jj)[4] == "--ignore-working-copy"@);
    assert(branch_command(Vcs::Jj)[4] == "--ignore-working-copy"@);
}

/// A revision is what the two commands print, without the white space around it: the
/// first its id, the second its branch. It has no branch where the second command
/// fails or prints nothing, or where Git says that none is checked out. There is no
/// revision without a version-control system, and none where the first command
/// fails.
pub proof fn revisions_are_what_is_printed(
    vcs: Vcs,
    id: Seq<char>,
    branch: Option<Seq<char>>,
    name: Seq<char>,
)
    ensures
        revision_of(None, Some(id), branch) is None,
        revision_of(Some(vcs), None, branch) is None,
        revision_of(Some(vcs), Some(id), branch) matches Some(rev) && rev.vcs == vcs && rev.id
            == text::trimmed(id) && (branch is None ==> rev.branch is None) && (branch matches Some(
            printed,
        ) ==> (text::trimmed(printed).len() == 0 ==> rev.branch is None) && (text::trimmed(printed)
            == name && name.len() > 0 && (vcs == Vcs::Jj || name != "HEAD"@) ==> rev.branch == Some(
            name,
        )) && (vcs == Vcs::Git && text::trimmed(printed) == "HEAD"@ ==> rev.branch is None)),
{
}

/// Revisions of one key are one revision: of the same system, with the same id. Their
/// branches do not matter.
pub proof fn keys_tell_revisions_apart(a: Vcs, x: Seq<char>, b: Vcs, y: Seq<char>)
    requires
        revision_key(a, x) == revision_key(b, y),
    ensures
        a == b,
        x == y,
{
    reveal_strlit("jj");
    reveal_strlit("git");
    reveal_strlit("-");
    let k = revision_key(a, x);
    assert("jj"@[0] == 'j');
    assert("git"@[0] == 'g');
    assert(revision_key(a, x)[0] == vcs_name(a)[0]);
    assert(revision_key(b, y)[0] == vcs_name(b)[0]);
    let n = vcs_name(a).len() + 1;
    assert(k.skip(n as int) =~= x);
    assert(revision_key(b, y).skip(n as int) =~= y);
}

} // verus!
