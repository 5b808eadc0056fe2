//! Version-control backends: which one a repository uses, and reading the
//! worktree listings that git and jj print.

use vstd::prelude::*;

use crate::config::opt_view;
use crate::error::Error;
use crate::path::{join_spec, path_join};
use crate::text::{
    split_char, split_on, split_once, split_once_spec, str_equal, strip_prefix,
    strip_prefix_spec, string_from_range, to_chars, contains_spec, contains_text, to_owned_string,
};

verus! {

/// A worktree (git) or workspace (jj) of a repository.
#[derive(Debug)]
pub struct WorktreeInfo {
    pub path: String,
    pub branch: Option<String>,
}

impl View for WorktreeInfo {
    type V = (Seq<char>, Option<Seq<char>>);

    open spec fn view(&self) -> (Seq<char>, Option<Seq<char>>) {
        (self.path@, opt_view(self.branch))
    }
}

/// The views of a sequence of worktrees.
pub open spec fn worktrees_view(v: Seq<WorktreeInfo>) -> Seq<(Seq<char>, Option<Seq<char>>)> {
    v.map_values(|w: WorktreeInfo| w@)
}

/// A backend chosen on the command line instead of by detection.
#[derive(Debug, Clone, Copy, PartialEq, Eq)]
pub enum VcsOverride {
    Git,
}

/// The version-control tool that manages a repository's worktrees.
#[derive(Debug, Clone, Copy, PartialEq, Eq)]
pub enum BackendKind {
    Git,
    Jj,
}

/// The operations a backend offers on a repository's worktrees.
pub trait VcsBackend {
    fn create_worktree(&self, repo_path: &str, worktree_path: &str, name: &str) -> Result<(), Error>;

    fn remove_worktree(&self, repo_path: &str, worktree_path: &str, name: &str) -> Result<(), Error>;

    fn list_worktrees(&self, repo_path: &str, worktree_base: &str) -> Result<Vec<WorktreeInfo>, Error>;
}

/// Chooses the backend for a repository: git when forced; else jj when the
/// repository has a `.jj` directory (`has_jj_dir`), provided jj is installed
/// (`jj_installed`, only consulted then); else git.
pub fn detect_backend(vcs_override: Option<VcsOverride>, has_jj_dir: bool, jj_installed: bool) -> (r: Result<BackendKind, Error>)
    ensures
        vcs_override == Some(VcsOverride::Git) ==> r == Ok::<BackendKind, Error>(BackendKind::Git),
        vcs_override is None && has_jj_dir && jj_installed ==> r == Ok::<BackendKind, Error>(BackendKind::Jj),
        vcs_override is None && has_jj_dir && !jj_installed ==> r matches Err(Error::JjNotInstalled),
        vcs_override is None && !has_jj_dir ==> r == Ok::<BackendKind, Error>(BackendKind::Git),
{
    if let Some(VcsOverride::Git) = vcs_override {
        return Ok(BackendKind::Git);
    }
    if has_jj_dir {
        if !jj_installed {
            return Err(Error::JjNotInstalled);
        }
        return Ok(BackendKind::Jj);
    }
    Ok(BackendKind::Git)
}

/// A line without the `\r` of a `\r\n` ending.
pub open spec fn strip_cr(l: Seq<char>) -> Seq<char> {
    if l.len() > 0 && l.last() == '\r' {
        l.drop_last()
    } else {
        l
    }
}

/// `str::lines`: the lines of `s`, each without its `\n` or `\r\n` ending; a
/// last line without an ending is kept as it is, and an empty one dropped.
pub open spec fn lines_spec(s: Seq<char>) -> Seq<Seq<char>> {
    let pieces = split_on(s, '\n');
    let ended = pieces.drop_last().map_values(|l: Seq<char>| strip_cr(l));
    if pieces.last().len() == 0 {
        ended
    } else {
        ended.push(pieces.last())
    }
}

fn strip_cr_exec(l: &String) -> (r: String)
    ensures
        r@ == strip_cr(l@),
{
    let c = to_chars(l.as_str());
    if c.len() > 0 && c[c.len() - 1] == '\r' {
        string_from_range(&c, 0, c.len() - 1)
    } else {
        string_from_range(&c, 0, c.len())
    }
}

/// The lines of `s`.
pub fn lines(s: &str) -> (r: Vec<String>)
    ensures
        r@.map_values(|l: String| l@) == lines_spec(s@),
{
    let pieces = split_char(s, '\n');
    let ghost pv = split_on(s@, '\n');
    proof {
        crate::text::lemma_split_on_nonempty(s@, '\n');
        assert(pieces@.map_values(|p: String| p@).len() == pieces@.len());
    }
    let n = pieces.len();
    let mut out: Vec<String> = Vec::new();
    let mut i: usize = 0;
    while i + 1 < n
        invariant
            n == pieces@.len(),
            n >= 1,
            pv == pieces@.map_values(|p: String| p@),
            i <= n - 1,
            out@.map_values(|l: String| l@) == pv.drop_last().take(i as int).map_values(|l: Seq<char>| strip_cr(l)),
        decreases n - i,
    {
        let line = strip_cr_exec(&pieces[i]);
        let ghost before = out@.map_values(|l: String| l@);
        out.push(line);
        proof {
            assert(pv[i as int] == pieces@[i as int]@);
            assert(out@.map_values(|l: String| l@) =~= before.push(strip_cr(pv[i as int])));
            assert(pv.drop_last().take(i + 1) =~= pv.drop_last().take(i as int).push(pv[i as int]));
        }
        i = i + 1;
    }
    proof {
        assert(pv.drop_last().take(i as int) =~= pv.drop_last());
        assert(pv.last() == pieces@[n - 1]@);
    }
    if to_chars(pieces[n - 1].as_str()).len() > 0 {
        let ghost before = out@.map_values(|l: String| l@);
        out.push(pieces[n - 1].clone());
        assert(out@.map_values(|l: String| l@) =~= before.push(pv.last()));
    }
    out
}

/// The entries of a porcelain listing, in order: one for each
/// `worktree <path>` line, with the branch of the last
/// `branch refs/heads/<name>` line between it and the next entry, if any.
/// Lines before the first entry, and all other lines, are ignored.
pub open spec fn porcelain_entries(lines: Seq<Seq<char>>) -> Seq<(Seq<char>, Option<Seq<char>>)>
    decreases lines.len(),
{
    if lines.len() == 0 {
        Seq::empty()
    } else {
        let before = porcelain_entries(lines.drop_last());
        match strip_prefix_spec(lines.last(), "worktree "@) {
            Some(p) => before.push((p, None)),
            None => match strip_prefix_spec(lines.last(), "branch refs/heads/"@) {
                Some(b) => if before.len() > 0 {
                    before.update(before.len() - 1, (before.last().0, Some(b)))
                } else {
                    before
                },
                None => before,
            },
        }
    }
}

/// The linked worktrees of a porcelain listing: every entry but the first,
/// which is the main working tree.
pub open spec fn porcelain_worktrees(out: Seq<char>) -> Seq<(Seq<char>, Option<Seq<char>>)> {
    let e = porcelain_entries(lines_spec(out));
    if e.len() == 0 {
        e
    } else {
        e.drop_first()
    }
}

/// Reads the output of `git worktree list --porcelain`.
pub fn parse_git_worktree_list(out: &str) -> (r: Vec<WorktreeInfo>)
    ensures
        worktrees_view(r@) == porcelain_worktrees(out@),
{
    let ls = lines(out);
    let ghost lv = lines_spec(out@);
    let mut worktrees: Vec<WorktreeInfo> = Vec::new();
    let mut current_path: Option<String> = None;
    let mut current_branch: Option<String> = None;
    let mut is_first = true;
    let mut i: usize = 0;
    proof {
        assert(lv.take(0) =~= Seq::<Seq<char>>::empty());
        assert(worktrees_view(worktrees@) =~= Seq::<(Seq<char>, Option<Seq<char>>)>::empty());
    }
    while i < ls.len()
        invariant
            i <= ls@.len(),
            ls@.map_values(|l: String| l@) == lv,
            ({
                let e = porcelain_entries(lv.take(i as int));
                &&& e.len() == 0 ==> current_path is None && is_first && worktrees_view(worktrees@).len() == 0
                &&& e.len() > 0 ==> current_path is Some && current_path->Some_0@ == e.last().0 && opt_view(
                    current_branch,
                ) == e.last().1 && is_first == (e.len() == 1)
                &&& e.len() == 1 ==> worktrees_view(worktrees@).len() == 0
                &&& e.len() >= 2 ==> worktrees_view(worktrees@) == e.subrange(1, e.len() - 1)
            }),
        decreases ls@.len() - i,
    {
        let ghost e = porcelain_entries(lv.take(i as int));
        let line = &ls[i];
        proof {
            assert(lv[i as int] == line@);
            assert(lv.take(i + 1).drop_last() =~= lv.take(i as int));
            assert(lv.take(i + 1).last() == lv[i as int]);
        }
        let ghost e2 = porcelain_entries(lv.take(i + 1));
        if let Some(path_str) = strip_prefix(line.as_str(), "worktree ") {
            let ghost before = worktrees_view(worktrees@);
            if let Some(path) = current_path.take() {
                if !is_first {
                    worktrees.push(WorktreeInfo { path, branch: current_branch.take() });
                    assert(worktrees_view(worktrees@) =~= before.push(e.last()));
                    assert(e.subrange(1, e.len() - 1).push(e.last()) =~= e2.subrange(1, e2.len() - 1));
                } else {
                    assert(e2.len() == 2);
                }
                is_first = false;
            }
            current_path = Some(path_str);
            current_branch = None;
        } else if let Some(branch_ref) = strip_prefix(line.as_str(), "branch refs/heads/") {
            proof {
                if e.len() >= 2 {
                    assert(e2.subrange(1, e2.len() - 1) =~= e.subrange(1, e.len() - 1));
                }
            }
            current_branch = Some(branch_ref);
        }
        i = i + 1;
    }
    proof {
        assert(lv.take(i as int) =~= lv);
    }
    let ghost e = porcelain_entries(lv);
    let ghost before = worktrees_view(worktrees@);
    if let Some(path) = current_path {
        if !is_first {
            worktrees.push(WorktreeInfo { path, branch: current_branch });
            assert(worktrees_view(worktrees@) =~= before.push((path@, opt_view(current_branch))));
            assert(e.subrange(1, e.len() - 1).push(e.last()) =~= e.drop_first());
        } else {
            assert(worktrees_view(worktrees@) =~= e.drop_first());
        }
    } else {
        assert(worktrees_view(worktrees@) =~= e);
    }
    worktrees
}

/// One line of `jj workspace list` (`<name>: <change> <description>`): the
/// workspace at `<worktree_base>/<name>`, unless the line has no `: ` or names
/// the `default` workspace (the main working copy).
pub open spec fn jj_step(
    wts: Seq<(Seq<char>, Option<Seq<char>>)>,
    line: Seq<char>,
    base: Seq<char>,
) -> Seq<(Seq<char>, Option<Seq<char>>)> {
    match split_once_spec(line, ": "@) {
        None => wts,
        Some((name, _)) => if name == "default"@ {
            wts
        } else {
            wts.push((join_spec(base, name), None))
        },
    }
}

/// The workspaces of the first lines of a `jj workspace list` output, in order.
pub open spec fn jj_fold(lines: Seq<Seq<char>>, base: Seq<char>) -> Seq<(Seq<char>, Option<Seq<char>>)>
    decreases lines.len(),
{
    if lines.len() == 0 {
        Seq::empty()
    } else {
        jj_step(jj_fold(lines.drop_last(), base), lines.last(), base)
    }
}

/// Reads the output of `jj workspace list` for workspaces kept under `worktree_base`.
pub fn parse_jj_workspace_list(out: &str, worktree_base: &str) -> (r: Vec<WorktreeInfo>)
    ensures
        worktrees_view(r@) == jj_fold(lines_spec(out@), worktree_base@),
{
    let ls = lines(out);
    let ghost lv = lines_spec(out@);
    let mut worktrees: Vec<WorktreeInfo> = Vec::new();
    let mut i: usize = 0;
    proof {
        assert(worktrees_view(worktrees@) =~= Seq::<(Seq<char>, Option<Seq<char>>)>::empty());
        assert(lv.take(0) =~= Seq::<Seq<char>>::empty());
    }
    while i < ls.len()
        invariant
            i <= ls@.len(),
            ls@.map_values(|l: String| l@) == lv,
            worktrees_view(worktrees@) == jj_fold(lv.take(i as int), worktree_base@),
        decreases ls@.len() - i,
    {
        proof {
            assert(lv[i as int] == ls@[i as int]@);
            assert(lv.take(i + 1).drop_last() =~= lv.take(i as int));
            assert(lv.take(i + 1).last() == lv[i as int]);
        }
        if let Some((name, _rest)) = split_once(ls[i].as_str(), ": ") {
            if !str_equal(name.as_str(), "default") {
                let ghost before = worktrees_view(worktrees@);
                let path = path_join(worktree_base, name.as_str());
                worktrees.push(WorktreeInfo { path, branch: None });
                assert(worktrees_view(worktrees@) =~= before.push((join_spec(worktree_base@, name@), None)));
            }
        }
        i = i + 1;
    }
    proof {
        assert(lv.take(ls@.len() as int) =~= lv);
    }
    worktrees
}

/// What follows a failed `git worktree add <path> -b <name>`.
#[derive(Debug)]
pub enum AddFailure {
    /// The branch exists already: add the worktree on that branch.
    BranchExists,
    /// Any other failure: report it.
    Failed(Error),
}

/// Reads git's error output from a failed `git worktree add -b`: git saying
/// that something already exists means the branch is there to be checked
/// out; anything else is the command's failure.
pub fn classify_add_failure(stderr: &str) -> (r: AddFailure)
    ensures
        contains_spec(stderr@, "already exists"@) ==> r is BranchExists,
        !contains_spec(stderr@, "already exists"@) ==> (r matches AddFailure::Failed(
            Error::VcsCommandFailed(m),
        ) && m@ == stderr@),
{
    if contains_text(stderr, "already exists") {
        AddFailure::BranchExists
    } else {
        AddFailure::Failed(Error::VcsCommandFailed(to_owned_string(stderr)))
    }
}

} // verus!
