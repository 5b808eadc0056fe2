//! The decisions of the command-line front end: reading its arguments,
//! choosing what to do between its file and process steps, and laying out
//! what it prints.

use vstd::prelude::*;

use crate::config::{Project, strings_view, opt_view, worktree_base_spec, db_name_spec, database_url_spec};
use crate::env::{EnvSource, MergedEnvVar};
use crate::error::Error;
use crate::path::{file_name, file_name_spec, join_spec, path_join};
use crate::text::{
    char_is_alphanumeric, is_alphanumeric_spec, lowercase_spec, is_ascii_text, ascii_lowercase,
    is_ascii_alnum, push_char, push_str, split_once,
    split_once_spec, str_equal, to_chars, to_lowercase, to_owned_string,
};
use crate::vcs::{worktrees_view, VcsOverride, WorktreeInfo};
use vstd::utf8::encode_utf8;

verus! {

/// Reads the `--vcs` option: absent, or `git` in any letter case.
pub fn parse_vcs_override(vcs: Option<&str>) -> (r: Result<Option<VcsOverride>, Error>)
    ensures
        vcs is None ==> r matches Ok(None),
        vcs matches Some(s) && lowercase_spec(s@) == "git"@ ==> r matches Ok(Some(VcsOverride::Git)),
        vcs matches Some(s) && lowercase_spec(s@) != "git"@ ==> (r matches Err(Error::InvalidVcsOverride(o))
            && o@ == lowercase_spec(vcs->Some_0@)),
        vcs matches Some(s) && is_ascii_text(s@) && ascii_lowercase(s@) == "git"@ ==> r matches Ok(
            Some(VcsOverride::Git),
        ),
        vcs matches Some(s) && is_ascii_text(s@) && ascii_lowercase(s@) != "git"@ ==> (r matches Err(
            Error::InvalidVcsOverride(o),
        ) && o@ == ascii_lowercase(vcs->Some_0@)),
{
    match vcs {
        None => Ok(None),
        Some(s) => {
            let lower = to_lowercase(s);
            if str_equal(lower.as_str(), "git") {
                Ok(Some(VcsOverride::Git))
            } else {
                Err(Error::InvalidVcsOverride(lower))
            }
        },
    }
}

/// A character allowed in a worktree name.
pub open spec fn worktree_name_char(c: char) -> bool {
    is_alphanumeric_spec(c) || c == '-' || c == '_'
}

/// A valid worktree name: not empty, and only alphanumeric characters, `-` and `_`.
pub open spec fn valid_worktree_name(name: Seq<char>) -> bool {
    name.len() > 0 && forall|i: int| 0 <= i < name.len() ==> worktree_name_char(#[trigger] name[i])
}

/// A character allowed in a worktree name, among the ASCII ones.
pub open spec fn ascii_worktree_name_char(c: char) -> bool {
    is_ascii_alnum(c) || c == '-' || c == '_'
}

/// A valid worktree name in ASCII: not empty, and only ASCII letters, digits,
/// `-` and `_`.
pub open spec fn valid_ascii_worktree_name(name: Seq<char>) -> bool {
    name.len() > 0 && forall|i: int| 0 <= i < name.len() ==> ascii_worktree_name_char(#[trigger] name[i])
}

/// Checks a worktree name.
pub fn validate_worktree_name(name: &str) -> (r: Result<(), Error>)
    ensures
        r is Ok <==> valid_worktree_name(name@),
        is_ascii_text(name@) ==> (r is Ok <==> valid_ascii_worktree_name(name@)),
        r matches Err(e) ==> e matches Error::InvalidWorktreeName(n) && n@ == name@,
{
    let c = to_chars(name);
    if c.len() == 0 {
        return Err(Error::InvalidWorktreeName(to_owned_string(name)));
    }
    let mut i: usize = 0;
    while i < c.len()
        invariant
            i <= c@.len(),
            c@ == name@,
            forall|j: int| 0 <= j < i ==> worktree_name_char(#[trigger] c@[j]),
            is_ascii_text(name@) ==> forall|j: int| 0 <= j < i ==> ascii_worktree_name_char(#[trigger] c@[j]),
        decreases c@.len() - i,
    {
        let ch = c[i];
        if !(char_is_alphanumeric(ch) || ch == '-' || ch == '_') {
            proof {
                assert(!worktree_name_char(c@[i as int]));
                if is_ascii_text(name@) {
                    assert((name@[i as int] as u32) < 128);
                    assert(!ascii_worktree_name_char(c@[i as int]));
                }
            }
            return Err(Error::InvalidWorktreeName(to_owned_string(name)));
        }
        proof {
            if is_ascii_text(name@) {
                assert((name@[i as int] as u32) < 128);
            }
        }
        i = i + 1;
    }
    Ok(())
}

/// Reads `KEY=value`: the text before and after the first `=`.
pub fn parse_env_assignment(pair: &str) -> (r: Result<(String, String), Error>)
    ensures
        match split_once_spec(pair@, "="@) {
            Some((k, v)) => r matches Ok((key, value)) && key@ == k && value@ == v,
            None => r matches Err(Error::InvalidEnvFormat(p)) && p@ == pair@,
        },
{
    match split_once(pair, "=") {
        Some((k, v)) => Ok((k, v)),
        None => Err(Error::InvalidEnvFormat(to_owned_string(pair))),
    }
}

/// Reads commands that take `<item>` or `<project> <item>`: with a second
/// argument the first names the project.
pub fn project_and_item<'a>(first: &'a str, second: Option<&'a str>) -> (r: (Option<&'a str>, &'a str))
    ensures
        second matches Some(s) ==> r.0 == Some(first) && r.1 == s,
        second is None ==> r.0 is None && r.1 == first,
{
    match second {
        Some(s) => (Some(first), s),
        None => (None, first),
    }
}

/// The width of the key column: the longest key, in bytes (as `str::len` counts them).
pub open spec fn key_width(v: Seq<MergedEnvVar>) -> nat
    decreases v.len(),
{
    if v.len() == 0 {
        0
    } else {
        let w = key_width(v.drop_last());
        let l = (encode_utf8(v.last().key@).len() as usize) as nat;
        if l > w {
            l
        } else {
            w
        }
    }
}

/// `n` spaces.
pub open spec fn spaces(n: nat) -> Seq<char> {
    Seq::new(n, |i: int| ' ')
}

/// The key filled with spaces up to `width` characters.
pub open spec fn padded(key: Seq<char>, width: nat) -> Seq<char> {
    if key.len() < width {
        key + spaces((width - key.len()) as nat)
    } else {
        key
    }
}

/// Where a listed value comes from. A project listing calls every value set
/// outside the repository an override.
pub open spec fn source_label(source: EnvSource, for_worktree: bool) -> Seq<char> {
    match source {
        EnvSource::Repo => "(from repo)"@,
        EnvSource::Project => if for_worktree {
            "(from project)"@
        } else {
            "(override)"@
        },
        EnvSource::Worktree => "(override)"@,
    }
}

/// One line of an aligned listing: `KEY = value  (source)`.
pub open spec fn listing_line(m: MergedEnvVar, width: nat, for_worktree: bool) -> Seq<char> {
    padded(m.key@, width) + " = "@ + m.value@ + "  "@ + source_label(m.source, for_worktree)
}

/// The lines that list a merged environment. A project whose repository sets no
/// defaults gets plain `KEY=value` lines; otherwise the keys are aligned and
/// each value is labelled with its source.
pub open spec fn env_listing(v: Seq<MergedEnvVar>, for_worktree: bool, repo_env_empty: bool) -> Seq<Seq<char>> {
    if !for_worktree && repo_env_empty {
        v.map_values(|m: MergedEnvVar| m.key@ + "="@ + m.value@)
    } else {
        v.map_values(|m: MergedEnvVar| listing_line(m, key_width(v), for_worktree))
    }
}

fn label_text(source: EnvSource, for_worktree: bool) -> (r: &'static str)
    ensures
        r@ == source_label(source, for_worktree),
{
    match source {
        EnvSource::Repo => "(from repo)",
        EnvSource::Project => if for_worktree {
            "(from project)"
        } else {
            "(override)"
        },
        EnvSource::Worktree => "(override)",
    }
}

/// The lines that list a merged environment, for a worktree or a project
/// (`for_worktree`), given whether the repository sets no defaults.
pub fn format_env_listing(vars: &Vec<MergedEnvVar>, for_worktree: bool, repo_env_empty: bool) -> (r: Vec<String>)
    ensures
        r@.map_values(|l: String| l@) == env_listing(vars@, for_worktree, repo_env_empty),
{
    let ghost v = vars@;
    let mut width: usize = 0;
    let mut i: usize = 0;
    while i < vars.len()
        invariant
            i <= v.len(),
            v == vars@,
            width == key_width(v.take(i as int)),
        decreases v.len() - i,
    {
        let l = vars[i].key.as_str().len();
        proof {
            assert(v.take(i + 1).drop_last() =~= v.take(i as int));
            assert(v.take(i + 1).last() == v[i as int]);
        }
        if l > width {
            width = l;
        }
        i = i + 1;
    }
    assert(v.take(v.len() as int) =~= v);
    let mut out: Vec<String> = Vec::new();
    let mut j: usize = 0;
    while j < vars.len()
        invariant
            j <= v.len(),
            v == vars@,
            width == key_width(v),
            out@.map_values(|l: String| l@) == env_listing(v, for_worktree, repo_env_empty).take(j as int),
        decreases v.len() - j,
    {
        let m = &vars[j];
        let mut line = String::new();
        if !for_worktree && repo_env_empty {
            push_str(&mut line, m.key.as_str());
            push_char(&mut line, '=');
            push_str(&mut line, m.value.as_str());
            proof {
                reveal_strlit("=");
                assert(line@ =~= m.key@ + "="@ + m.value@);
            }
        } else {
            push_str(&mut line, m.key.as_str());
            let n = to_chars(m.key.as_str()).len();
            let mut k = n;
            while k < width
                invariant
                    n == m.key@.len(),
                    n <= k <= width || (n > width && k == n),
                    line@ == m.key@ + spaces((k - n) as nat),
                decreases width - k,
            {
                push_char(&mut line, ' ');
                k = k + 1;
                assert(line@ =~= m.key@ + spaces((k - n) as nat));
            }
            proof {
                if n >= width {
                    assert(spaces(0) =~= Seq::<char>::empty());
                    assert(line@ =~= m.key@);
                }
            }
            push_str(&mut line, " = ");
            push_str(&mut line, m.value.as_str());
            push_str(&mut line, "  ");
            push_str(&mut line, label_text(m.source, for_worktree));
            assert(line@ =~= listing_line(*m, width as nat, for_worktree));
        }
        let ghost before = out@.map_values(|l: String| l@);
        out.push(line);
        proof {
            let lines = env_listing(v, for_worktree, repo_env_empty);
            assert(out@.map_values(|l: String| l@) =~= before.push(lines[j as int]));
            assert(lines.take(j + 1) =~= lines.take(j as int).push(lines[j as int]));
        }
        j = j + 1;
    }
    proof {
        let lines = env_listing(v, for_worktree, repo_env_empty);
        assert(lines.take(v.len() as int) =~= lines);
    }
    out
}

/// The directory name of a worktree: the last component of its path, or empty.
pub open spec fn dir_name_spec(path: Seq<char>) -> Seq<char> {
    match file_name_spec(path) {
        Some(n) => n,
        None => Seq::empty(),
    }
}

/// The directory name of a worktree's path.
pub fn worktree_dir_name(path: &str) -> (r: String)
    ensures
        r@ == dir_name_spec(path@),
{
    match file_name(path) {
        Some(n) => n,
        None => String::new(),
    }
}

/// The full name of a worktree: `<project>-<directory name>`.
pub open spec fn full_worktree_name(project: Seq<char>, dir_name: Seq<char>) -> Seq<char> {
    project + seq!['-'] + dir_name
}

/// The line that lists a worktree: its full name, its branch (or
/// `(jj workspace)`) and its path, separated by tabs.
pub open spec fn worktree_line_spec(project: Seq<char>, wt: (Seq<char>, Option<Seq<char>>)) -> Seq<char> {
    full_worktree_name(project, dir_name_spec(wt.0)) + seq!['\t'] + match wt.1 {
        Some(b) => b,
        None => "(jj workspace)"@,
    } + seq!['\t'] + wt.0
}

/// The line that lists worktree `wt` of `project`.
pub fn worktree_line(project: &str, wt: &WorktreeInfo) -> (r: String)
    ensures
        r@ == worktree_line_spec(project@, wt@),
{
    let dir_name = worktree_dir_name(wt.path.as_str());
    let mut line = to_owned_string(project);
    push_char(&mut line, '-');
    push_str(&mut line, dir_name.as_str());
    push_char(&mut line, '\t');
    match &wt.branch {
        Some(b) => push_str(&mut line, b.as_str()),
        None => push_str(&mut line, "(jj workspace)"),
    }
    push_char(&mut line, '\t');
    push_str(&mut line, wt.path.as_str());
    assert(line@ =~= worktree_line_spec(project@, wt@));
    line
}

/// What the worktree listing ends with when it printed no worktree: an error
/// for a filter that names no registered project and not the repository found
/// from the working directory (`detected_name`), else a note that there are none.
pub open spec fn empty_listing_outcome(filter: Option<Seq<char>>, filter_registered: bool, detected_name: Option<Seq<char>>) -> Result<Seq<char>, Seq<char>> {
    match filter {
        Some(f) => if !filter_registered && detected_name != Some(f) {
            Err(f)
        } else {
            Ok("No worktrees found for project '"@ + f + "'"@)
        },
        None => Ok("No worktrees found"@),
    }
}

/// What the worktree listing prints last: nothing when it found worktrees;
/// otherwise the note, or the error, of `empty_listing_outcome`.
pub fn worktree_listing_end(
    found_any: bool,
    filter: Option<&str>,
    filter_registered: bool,
    detected_name: Option<&str>,
) -> (r: Result<Option<String>, Error>)
    ensures
        found_any ==> r matches Ok(None),
        !found_any ==> match empty_listing_outcome(
            match filter {
                Some(f) => Some(f@),
                None => None,
            },
            filter_registered,
            match detected_name {
                Some(d) => Some(d@),
                None => None,
            },
        ) {
            Ok(note) => r matches Ok(Some(s)) && s@ == note,
            Err(f) => r matches Err(Error::ProjectNotFound(n)) && n@ == f,
        },
{
    if found_any {
        return Ok(None);
    }
    match filter {
        Some(f) => {
            let same = match detected_name {
                Some(d) => str_equal(d, f),
                None => false,
            };
            if !filter_registered && !same {
                return Err(Error::ProjectNotFound(to_owned_string(f)));
            }
            let mut note = to_owned_string("No worktrees found for project '");
            push_str(&mut note, f);
            push_char(&mut note, '\'');
            proof {
                reveal_strlit("'");
                assert("'"@ =~= seq!['\'']);
            }
            assert(note@ =~= "No worktrees found for project '"@ + f@ + "'"@);
            Ok(Some(note))
        },
        None => Ok(Some(to_owned_string("No worktrees found"))),
    }
}

/// How a worktree offered to a removal search relates to the name sought.
#[derive(Debug, Clone, Copy, PartialEq, Eq)]
pub enum Offer {
    /// Its full name is the name sought: remove it now.
    Exact,
    /// Its directory name is the name sought: a candidate.
    Candidate,
    /// Neither.
    Other,
}

/// The candidates' full names, separated by `, `.
pub open spec fn join_names(names: Seq<Seq<char>>) -> Seq<char>
    decreases names.len(),
{
    if names.len() == 0 {
        Seq::empty()
    } else if names.len() == 1 {
        names[0]
    } else {
        join_names(names.drop_last()) + ", "@ + names.last()
    }
}

/// The search for the worktree to remove by name. Worktrees are offered one by
/// one, in the order they are listed; one whose full name (`project-dir`) is
/// the name is removed at once; otherwise those whose directory name is the
/// name are collected, and the name must pick exactly one of them.
pub struct RemovalSearch {
    name: String,
    candidates: Vec<String>,
}

impl RemovalSearch {
    /// The name sought.
    pub closed spec fn name_view(&self) -> Seq<char> {
        self.name@
    }

    /// The full names of the candidates so far.
    pub closed spec fn candidates_view(&self) -> Seq<Seq<char>> {
        self.candidates@.map_values(|c: String| c@)
    }

    /// A search for `name` with no candidates yet.
    pub fn new(name: String) -> (r: Self)
        ensures
            r.name_view() == name@,
            r.candidates_view() == Seq::<Seq<char>>::empty(),
    {
        let r = RemovalSearch { name, candidates: Vec::new() };
        assert(r.candidates_view() =~= Seq::<Seq<char>>::empty());
        r
    }

    /// Offers the worktree in directory `dir_name` of `project`.
    pub fn offer(&mut self, project: &str, dir_name: &str) -> (r: Offer)
        ensures
            final(self).name_view() == old(self).name_view(),
            full_worktree_name(project@, dir_name@) == old(self).name_view() ==> r == Offer::Exact
                && final(self).candidates_view() == old(self).candidates_view(),
            full_worktree_name(project@, dir_name@) != old(self).name_view() && dir_name@
                == old(self).name_view() ==> r == Offer::Candidate && final(self).candidates_view()
                == old(self).candidates_view().push(full_worktree_name(project@, dir_name@)),
            full_worktree_name(project@, dir_name@) != old(self).name_view() && dir_name@
                != old(self).name_view() ==> r == Offer::Other && final(self).candidates_view()
                == old(self).candidates_view(),
    {
        let mut full = to_owned_string(project);
        push_char(&mut full, '-');
        push_str(&mut full, dir_name);
        assert(full@ =~= full_worktree_name(project@, dir_name@));
        if str_equal(full.as_str(), self.name.as_str()) {
            return Offer::Exact;
        }
        if str_equal(dir_name, self.name.as_str()) {
            let ghost before = self.candidates_view();
            self.candidates.push(full);
            assert(self.candidates_view() =~= before.push(full_worktree_name(project@, dir_name@)));
            return Offer::Candidate;
        }
        Offer::Other
    }

    /// The end of the search: the position of the one candidate, or the error
    /// for none or several.
    pub fn conclude(&self) -> (r: Result<usize, Error>)
        ensures
            self.candidates_view().len() == 0 ==> (r matches Err(Error::WorktreeNotFound(n)) && n@
                == self.name_view()),
            self.candidates_view().len() == 1 ==> r matches Ok(0usize),
            self.candidates_view().len() > 1 ==> (r matches Err(
                Error::AmbiguousWorktreeName(n, list),
            ) && n@ == self.name_view() && list@ == join_names(self.candidates_view())),
    {
        let n = self.candidates.len();
        if n == 0 {
            return Err(Error::WorktreeNotFound(self.name.clone()));
        }
        if n == 1 {
            return Ok(0);
        }
        let ghost cv = self.candidates_view();
        let mut list = self.candidates[0].clone();
        let mut i: usize = 1;
        assert(cv.take(1) =~= seq![cv[0]]);
        while i < n
            invariant
                1 <= i <= n,
                n == self.candidates@.len(),
                cv == self.candidates_view(),
                list@ == join_names(cv.take(i as int)),
            decreases n - i,
        {
            push_str(&mut list, ", ");
            push_str(&mut list, self.candidates[i].as_str());
            proof {
                assert(cv.take(i + 1).drop_last() =~= cv.take(i as int));
                assert(cv.take(i + 1).last() == cv[i as int]);
            }
            i = i + 1;
        }
        assert(cv.take(n as int) =~= cv);
        Err(Error::AmbiguousWorktreeName(self.name.clone(), list))
    }
}

/// Setting up a worktree's database.
#[derive(Debug)]
pub struct DatabasePlan {
    pub db_name: String,
    pub url: String,
    pub env_var: String,
    pub setup_command: Option<String>,
}

/// What creating a worktree involves: where it goes, the database to set up,
/// and the hooks to run in it.
#[derive(Debug)]
pub struct WorktreePlan {
    pub worktree_base: String,
    pub worktree_path: String,
    pub database: Option<DatabasePlan>,
    pub hooks: Vec<String>,
}

/// Plans the creation of worktree `worktree_name` of project `project_name`.
pub fn plan_worktree(project_name: &str, project: &Project, worktree_name: &str) -> (r: Result<WorktreePlan, Error>)
    ensures
        r is Err <==> !valid_worktree_name(worktree_name@),
        r matches Err(e) ==> e matches Error::InvalidWorktreeName(n) && n@ == worktree_name@,
        r matches Ok(plan) ==> {
            &&& plan.worktree_base@ == worktree_base_spec(project@)
            &&& plan.worktree_path@ == join_spec(worktree_base_spec(project@), worktree_name@)
            &&& plan.hooks@.map_values(|h: String| h@) == match project.hooks {
                Some(h) => h@,
                None => Seq::<Seq<char>>::empty(),
            }
            &&& (plan.database is Some <==> project.database is Some)
            &&& (plan.database matches Some(d) ==> {
                let cfg = project.database->Some_0;
                &&& d.db_name@ == db_name_spec(project_name@, worktree_name@)
                &&& d.url@ == database_url_spec(cfg.url_template@, project_name@, worktree_name@)
                &&& d.env_var@ == match cfg.env_var {
                    Some(v) => v@,
                    None => "DATABASE_URL"@,
                }
                &&& opt_view(d.setup_command) == opt_view(cfg.setup_command)
            })
        },
{
    validate_worktree_name(worktree_name)?;
    let worktree_base = project.worktree_base();
    let worktree_path = path_join(worktree_base.as_str(), worktree_name);
    let database = match &project.database {
        Some(cfg) => Some(DatabasePlan {
            db_name: cfg.db_name(project_name, worktree_name),
            url: cfg.database_url(project_name, worktree_name),
            env_var: to_owned_string(cfg.env_var_name()),
            setup_command: cfg.setup_command.clone(),
        }),
        None => None,
    };
    let hooks = match &project.hooks {
        Some(h) => {
            let c = h.post_create.clone();
            assert(c@.map_values(|x: String| x@) =~= h@);
            c
        },
        None => {
            let c: Vec<String> = Vec::new();
            assert(c@.map_values(|x: String| x@) =~= Seq::<Seq<char>>::empty());
            c
        },
    };
    Ok(WorktreePlan { worktree_base, worktree_path, database, hooks })
}

/// What `start` does with the worktree directory it wants.
#[derive(Debug, Clone, Copy, PartialEq, Eq)]
pub enum StartAction {
    /// A worktree is there: use it.
    Reuse,
    /// Nothing is there: create the worktree.
    Create,
    /// A directory without `.git` or `.jj` is there: delete it, then create.
    ReplaceOrphan,
}

/// Decides from whether the directory exists and holds `.git` or `.jj`.
pub fn start_action(path_exists: bool, has_vcs_entry: bool) -> (r: StartAction)
    ensures
        path_exists && has_vcs_entry ==> r == StartAction::Reuse,
        path_exists && !has_vcs_entry ==> r == StartAction::ReplaceOrphan,
        !path_exists ==> r == StartAction::Create,
{
    if path_exists && has_vcs_entry {
        StartAction::Reuse
    } else if path_exists {
        StartAction::ReplaceOrphan
    } else {
        StartAction::Create
    }
}

/// The configuration directory: the override (`GROVE_CONFIG_DIR`) if set,
/// else `grove` inside the platform's configuration directory.
pub fn config_dir_from(override_dir: Option<String>, platform_dir: Option<String>) -> (r: Result<String, Error>)
    ensures
        override_dir is Some ==> (r matches Ok(s) && s@ == override_dir->Some_0@),
        override_dir is None && platform_dir is Some ==> (r matches Ok(s) && s@ == join_spec(platform_dir->Some_0@, "grove"@)),
        override_dir is None && platform_dir is None ==> r matches Err(Error::NoConfigDir),
{
    if let Some(d) = override_dir {
        return Ok(d);
    }
    match platform_dir {
        Some(p) => Ok(path_join(p.as_str(), "grove")),
        None => Err(Error::NoConfigDir),
    }
}

/// Where mise keeps its data: `MISE_DATA_DIR`, else `mise` inside
/// `XDG_DATA_HOME`, else `.local/share/mise` inside the home directory.
pub fn mise_data_dir_from(mise_dir: Option<String>, xdg_data_home: Option<String>, home: Option<String>) -> (r: Result<String, Error>)
    ensures
        mise_dir is Some ==> (r matches Ok(s) && s@ == mise_dir->Some_0@),
        mise_dir is None && xdg_data_home is Some ==> (r matches Ok(s) && s@ == join_spec(xdg_data_home->Some_0@, "mise"@)),
        mise_dir is None && xdg_data_home is None && home is Some ==> (r matches Ok(s) && s@ == join_spec(home->Some_0@, ".local/share/mise"@)),
        mise_dir is None && xdg_data_home is None && home is None ==> r matches Err(Error::NoDataDir),
{
    if let Some(d) = mise_dir {
        return Ok(d);
    }
    if let Some(x) = xdg_data_home {
        return Ok(path_join(x.as_str(), "mise"));
    }
    match home {
        Some(h) => Ok(path_join(h.as_str(), ".local/share/mise")),
        None => Err(Error::NoDataDir),
    }
}

/// Whether some listed worktree has the directory name `name`.
pub open spec fn worktree_listed_spec(wts: Seq<(Seq<char>, Option<Seq<char>>)>, name: Seq<char>) -> bool {
    exists|i: int| 0 <= i < wts.len() && file_name_spec(#[trigger] wts[i].0) == Some(name)
}

/// Checks that the worktree `worktree_name` of `project_name` is among the
/// project's listed worktrees, by directory name.
pub fn validate_worktree_listed(worktrees: &Vec<WorktreeInfo>, project_name: &str, worktree_name: &str) -> (r: Result<(), Error>)
    ensures
        r is Ok <==> worktree_listed_spec(worktrees_view(worktrees@), worktree_name@),
        r is Ok <==> exists|i: int|
            0 <= i < worktrees@.len() && file_name_spec(#[trigger] worktrees@[i].path@) == Some(worktree_name@),
        r matches Err(e) ==> e matches Error::WorktreeEnvNotFound(p, w) && p@ == project_name@ && w@ == worktree_name@,
{
    let ghost wv = worktrees_view(worktrees@);
    let mut i: usize = 0;
    while i < worktrees.len()
        invariant
            i <= worktrees@.len(),
            wv == worktrees_view(worktrees@),
            forall|j: int| 0 <= j < i ==> file_name_spec(#[trigger] wv[j].0) != Some(worktree_name@),
        decreases worktrees@.len() - i,
    {
        assert(wv[i as int].0 == worktrees@[i as int].path@);
        if let Some(n) = file_name(worktrees[i].path.as_str()) {
            if str_equal(n.as_str(), worktree_name) {
                return Ok(());
            }
        }
        i = i + 1;
    }
    proof {
        assert forall|j: int| 0 <= j < worktrees@.len() implies file_name_spec(#[trigger] worktrees@[j].path@) != Some(
            worktree_name@,
        ) by {
            assert(wv[j].0 == worktrees@[j].path@);
        }
    }
    Err(Error::WorktreeEnvNotFound(to_owned_string(project_name), to_owned_string(worktree_name)))
}

/// Whether a project passes the project filter of `worktree list`: there is
/// no filter, or it names the project.
pub fn passes_filter(filter: Option<&str>, name: &str) -> (b: bool)
    ensures
        b == match filter {
            None => true,
            Some(f) => f@ == name@,
        },
{
    match filter {
        None => true,
        Some(f) => str_equal(f, name),
    }
}

/// Whether the repository found from the working directory was not listed
/// yet: none of the registered repositories already gone through has its
/// root (`listed` holds their canonical paths).
pub fn is_unlisted_repo(listed: &Vec<String>, repo_root: &str) -> (b: bool)
    ensures
        b == !strings_view(listed@).contains(repo_root@),
{
    let mut i: usize = 0;
    while i < listed.len()
        invariant
            i <= listed@.len(),
            forall|j: int| 0 <= j < i ==> (#[trigger] listed@[j])@ != repo_root@,
        decreases listed@.len() - i,
    {
        if str_equal(listed[i].as_str(), repo_root) {
            assert(strings_view(listed@)[i as int] == repo_root@);
            return false;
        }
        i = i + 1;
    }
    proof {
        if strings_view(listed@).contains(repo_root@) {
            let k = choose|k: int| 0 <= k < strings_view(listed@).len() && strings_view(listed@)[k] == repo_root@;
            assert(listed@[k]@ == repo_root@);
        }
    }
    true
}

/// Whether `worktree list` lists the repository found from the working
/// directory too: it passes the filter under its name and was not listed
/// among the registered ones.
pub fn lists_detected(filter: Option<&str>, name: &str, listed: &Vec<String>, repo_root: &str) -> (b: bool)
    ensures
        b == (match filter {
            None => true,
            Some(f) => f@ == name@,
        } && !strings_view(listed@).contains(repo_root@)),
{
    passes_filter(filter, name) && is_unlisted_repo(listed, repo_root)
}

/// What to do next while running a new worktree's post-create hooks.
#[derive(Debug)]
pub enum HookAction {
    /// Run this command in the worktree.
    Run(String),
    /// No hook is left to run.
    Done,
}

/// The post-create hooks of a new worktree, run in order; the first that
/// fails ends the run.
pub struct HookRun {
    hooks: Vec<String>,
    next: usize,
}

impl HookRun {
    /// The hooks' commands, in order.
    pub closed spec fn hooks_view(&self) -> Seq<Seq<char>> {
        strings_view(self.hooks@)
    }

    /// How many hooks are behind: run, or skipped after a failure.
    pub closed spec fn position(&self) -> nat {
        self.next as nat
    }

    #[verifier::type_invariant]
    spec fn inv(&self) -> bool {
        self.next <= self.hooks.len()
    }

    /// A run of `hooks` that has not started.
    pub fn new(hooks: Vec<String>) -> (r: Self)
        ensures
            r.hooks_view() == strings_view(hooks@),
            r.position() == 0,
    {
        HookRun { hooks, next: 0 }
    }

    /// The hook to run now, if any is left.
    pub fn next_action(&self) -> (r: HookAction)
        ensures
            self.position() < self.hooks_view().len() ==> (r matches HookAction::Run(c) && c@
                == self.hooks_view()[self.position() as int]),
            self.position() >= self.hooks_view().len() ==> r is Done,
    {
        proof {
            use_type_invariant(self);
        }
        if self.next < self.hooks.len() {
            HookAction::Run(self.hooks[self.next].clone())
        } else {
            HookAction::Done
        }
    }

    /// Takes in how the hook that `next_action` named ended. A success moves
    /// on to the next hook; a failure skips all the rest and reports the
    /// command with its error output.
    pub fn finished(&mut self, succeeded: bool, stderr: String) -> (r: Result<(), Error>)
        requires
            old(self).position() < old(self).hooks_view().len(),
        ensures
            final(self).hooks_view() == old(self).hooks_view(),
            succeeded ==> r is Ok && final(self).position() == old(self).position() + 1,
            !succeeded ==> (r matches Err(Error::HookFailed(c, e)) && c@ == old(self).hooks_view()[old(
                self,
            ).position() as int] && e@ == stderr@),
            !succeeded ==> final(self).position() == final(self).hooks_view().len(),
    {
        proof {
            use_type_invariant(&*self);
        }
        if succeeded {
            self.next = self.next + 1;
            Ok(())
        } else {
            let command = self.hooks[self.next].clone();
            self.next = self.hooks.len();
            Err(Error::HookFailed(command, stderr))
        }
    }
}

} // verus!
