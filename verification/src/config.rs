//! The configuration model: project references, the per-repo and per-project
//! settings, and the rules that merge them.
//!
//! Three layers take part. The registry maps project names to repositories and
//! their settings; a repository may carry its own defaults; and environment
//! variables live per project and per worktree. Registry settings win over
//! repository defaults, which fill the gaps.

use vstd::prelude::*;

use crate::error::Error;
use crate::omap::{entries_of, OrderedMap};
use crate::path::{
    components, lemma_parent_components,
    has_root, parent, parent_spec,
    component_after, component_after_spec, file_name, file_name_spec, join_spec, path_join,
    starts_with, starts_with_spec,
};
use crate::text::{
    str_equal, strip_prefix, strip_prefix_spec, trim, trim_spec,
    replace_all, replace_spec, split_char, split_on, string_from_chars, to_chars,
    to_owned_string, ascii_lower, is_ascii_alnum,
};

verus! {

/// The text of an optional string.
pub open spec fn opt_view(o: Option<String>) -> Option<Seq<char>> {
    match o {
        Some(s) => Some(s@),
        None => None,
    }
}

/// What `ProjectRef::parse` accepts: `project` or `project/worktree`, with
/// non-empty parts and no further `/`.
pub open spec fn parse_project_ref_spec(input: Seq<char>) -> Option<(Seq<char>, Option<Seq<char>>)> {
    let parts = split_on(input, '/');
    if parts.len() == 1 && parts[0].len() > 0 {
        Some((parts[0], None))
    } else if parts.len() == 2 && parts[0].len() > 0 && parts[1].len() > 0 {
        Some((parts[0], Some(parts[1])))
    } else {
        None
    }
}

/// A reference to a project, optionally to one of its worktrees.
#[derive(Debug)]
pub struct ProjectRef {
    pub project: String,
    pub worktree: Option<String>,
}

impl View for ProjectRef {
    type V = (Seq<char>, Option<Seq<char>>);

    open spec fn view(&self) -> (Seq<char>, Option<Seq<char>>) {
        (self.project@, opt_view(self.worktree))
    }
}

impl ProjectRef {
    /// Reads `project` or `project/worktree`.
    pub fn parse(input: &str) -> (r: Result<ProjectRef, Error>)
        ensures
            match parse_project_ref_spec(input@) {
                Some(v) => r matches Ok(pr) && pr@ == v,
                None => r matches Err(Error::InvalidProjectRef(s)) && s@ == input@,
            },
    {
        let parts = split_char(input, '/');
        proof {
            assert(parts@.map_values(|p: String| p@).len() == parts@.len());
            if parts@.len() >= 1 {
                assert(parts@.map_values(|p: String| p@)[0] == parts@[0]@);
            }
            if parts@.len() >= 2 {
                assert(parts@.map_values(|p: String| p@)[1] == parts@[1]@);
            }
        }
        if parts.len() == 1 && to_chars(parts[0].as_str()).len() > 0 {
            Ok(ProjectRef { project: parts[0].clone(), worktree: None })
        } else if parts.len() == 2 && to_chars(parts[0].as_str()).len() > 0 && to_chars(
            parts[1].as_str(),
        ).len() > 0 {
            Ok(ProjectRef { project: parts[0].clone(), worktree: Some(parts[1].clone()) })
        } else {
            Err(Error::InvalidProjectRef(to_owned_string(input)))
        }
    }
}

/// The database-name character for `c`: letters lower-cased, digits and `_`
/// kept, everything else `_`.
pub open spec fn db_char(c: char) -> char {
    if is_ascii_alnum(c) || c == '_' {
        ascii_lower(c)
    } else {
        '_'
    }
}

/// The database name of a worktree: `project_worktree`, with every character
/// that is not an ASCII letter, digit or `_` made `_`, then lower-cased.
pub open spec fn db_name_spec(project: Seq<char>, worktree: Seq<char>) -> Seq<char> {
    (project + seq!['_'] + worktree).map_values(|c: char| db_char(c))
}

/// The placeholder that a database URL template names the database by.
pub open spec fn db_placeholder() -> Seq<char> {
    "{{db_name}}"@
}

/// The database URL of a worktree: the template with each placeholder replaced
/// by the database name.
pub open spec fn database_url_spec(template: Seq<char>, project: Seq<char>, worktree: Seq<char>) -> Seq<char> {
    replace_spec(template, db_placeholder(), db_name_spec(project, worktree))
}

/// The character `db_char` computes.
fn db_char_exec(c: char) -> (r: char)
    ensures
        r == db_char(c),
{
    if ('0' <= c && c <= '9') || ('a' <= c && c <= 'z') || c == '_' {
        c
    } else if 'A' <= c && c <= 'Z' {
        let b = (c as u32) + 32;
        let r = char_from_ascii(b);
        r
    } else {
        '_'
    }
}

/// The ASCII character with code `b`.
fn char_from_ascii(b: u32) -> (c: char)
    requires
        b < 128,
    ensures
        c as int == b as int,
{
    let byte = b as u8;
    byte as char
}

/// Database settings: how to name and create a worktree's database.
#[derive(Debug, PartialEq)]
pub struct DatabaseConfig {
    pub url_template: String,
    pub setup_command: Option<String>,
    pub env_var: Option<String>,
}

/// The text of database settings.
pub struct DatabaseConfigView {
    pub url_template: Seq<char>,
    pub setup_command: Option<Seq<char>>,
    pub env_var: Option<Seq<char>>,
}

impl View for DatabaseConfig {
    type V = DatabaseConfigView;

    open spec fn view(&self) -> DatabaseConfigView {
        DatabaseConfigView {
            url_template: self.url_template@,
            setup_command: opt_view(self.setup_command),
            env_var: opt_view(self.env_var),
        }
    }
}

impl Clone for DatabaseConfig {
    fn clone(&self) -> (r: Self)
        ensures
            r@ == self@,
    {
        DatabaseConfig {
            url_template: self.url_template.clone(),
            setup_command: self.setup_command.clone(),
            env_var: self.env_var.clone(),
        }
    }
}

impl DatabaseConfig {
    /// The database name for a project's worktree.
    pub fn db_name(&self, project: &str, worktree: &str) -> (r: String)
        ensures
            r@ == db_name_spec(project@, worktree@),
    {
        let pc = to_chars(project);
        let wc = to_chars(worktree);
        let mut raw: Vec<char> = Vec::new();
        let mut i: usize = 0;
        let ghost joined = project@ + seq!['_'] + worktree@;
        while i < pc.len()
            invariant
                i <= pc@.len(),
                pc@ == project@,
                raw@ == pc@.take(i as int).map_values(|c: char| db_char(c)),
            decreases pc@.len() - i,
        {
            raw.push(db_char_exec(pc[i]));
            i = i + 1;
            assert(pc@.take(i as int) =~= pc@.take(i - 1).push(pc@[i - 1]));
            assert(raw@ =~= pc@.take(i as int).map_values(|c: char| db_char(c)));
        }
        raw.push(db_char_exec('_'));
        let mut j: usize = 0;
        while j < wc.len()
            invariant
                j <= wc@.len(),
                pc@ == project@,
                wc@ == worktree@,
                joined == project@ + seq!['_'] + worktree@,
                raw@ == joined.take(pc@.len() + 1 + j).map_values(|c: char| db_char(c)),
            decreases wc@.len() - j,
        {
            raw.push(db_char_exec(wc[j]));
            j = j + 1;
            let ghost k = pc@.len() + 1 + j;
            assert(joined[k - 1] == wc@[j - 1]);
            assert(joined.take(k) =~= joined.take(k - 1).push(joined[k - 1]));
            assert(raw@ =~= joined.take(k).map_values(|c: char| db_char(c)));
        }
        assert(joined.take(joined.len() as int) =~= joined);
        string_from_chars(&raw)
    }

    /// The database URL for a project's worktree.
    pub fn database_url(&self, project: &str, worktree: &str) -> (r: String)
        ensures
            r@ == database_url_spec(self.url_template@, project@, worktree@),
    {
        let db_name = self.db_name(project, worktree);
        proof {
            reveal_strlit("{{db_name}}");
        }
        replace_all(self.url_template.as_str(), "{{db_name}}", db_name.as_str())
    }

    /// The environment variable that receives the database URL.
    pub fn env_var_name(&self) -> (r: &str)
        ensures
            r@ == match self.env_var {
                Some(v) => v@,
                None => "DATABASE_URL"@,
            },
    {
        match &self.env_var {
            Some(v) => v.as_str(),
            None => "DATABASE_URL",
        }
    }
}

/// Commands run in a newly created worktree.
#[derive(Debug, PartialEq)]
pub struct HooksConfig {
    pub post_create: Vec<String>,
}

/// The texts of a sequence of strings.
pub open spec fn strings_view(v: Seq<String>) -> Seq<Seq<char>> {
    v.map_values(|s: String| s@)
}

impl View for HooksConfig {
    type V = Seq<Seq<char>>;

    open spec fn view(&self) -> Seq<Seq<char>> {
        strings_view(self.post_create@)
    }
}

impl Clone for HooksConfig {
    fn clone(&self) -> (r: Self)
        ensures
            r@ == self@,
    {
        let post_create = self.post_create.clone();
        assert(strings_view(post_create@) =~= strings_view(self.post_create@));
        HooksConfig { post_create }
    }
}

impl Default for HooksConfig {
    fn default() -> (r: Self)
        ensures
            r@.len() == 0,
    {
        HooksConfig { post_create: Vec::new() }
    }
}

/// The view of optional database settings.
pub open spec fn opt_db_view(o: Option<DatabaseConfig>) -> Option<DatabaseConfigView> {
    match o {
        Some(d) => Some(d@),
        None => None,
    }
}

/// The view of optional hooks.
pub open spec fn opt_hooks_view(o: Option<HooksConfig>) -> Option<Seq<Seq<char>>> {
    match o {
        Some(h) => Some(h@),
        None => None,
    }
}

/// The defaults a repository carries in `.grove/config.toml`.
#[derive(Debug)]
pub struct RepoConfig {
    pub name: Option<String>,
    pub database: Option<DatabaseConfig>,
    pub hooks: Option<HooksConfig>,
    pub env: Option<OrderedMap<String>>,
}

impl Default for RepoConfig {
    fn default() -> (r: Self)
        ensures
            r.name is None,
            r.database is None,
            r.hooks is None,
            r.env is None,
    {
        RepoConfig { name: None, database: None, hooks: None, env: None }
    }
}

/// The name a repository goes by: its configured name, else the last
/// component of its root directory, else `unknown`.
pub open spec fn effective_name_spec(name: Option<String>, repo_root: Seq<char>) -> Seq<char> {
    match name {
        Some(n) => n@,
        None => match file_name_spec(repo_root) {
            Some(f) => f,
            None => "unknown"@,
        },
    }
}

impl RepoConfig {
    /// The project name for the repository rooted at `repo_root`.
    pub fn effective_name(&self, repo_root: &str) -> (r: String)
        ensures
            r@ == effective_name_spec(self.name, repo_root@),
    {
        match &self.name {
            Some(n) => n.clone(),
            None => match file_name(repo_root) {
                Some(f) => f,
                None => to_owned_string("unknown"),
            },
        }
    }
}

/// A registered project: where its repository is and its settings.
#[derive(Debug)]
pub struct Project {
    pub path: String,
    pub worktree_base: Option<String>,
    pub database: Option<DatabaseConfig>,
    pub hooks: Option<HooksConfig>,
}

/// The text of a project's settings.
pub struct ProjectView {
    pub path: Seq<char>,
    pub worktree_base: Option<Seq<char>>,
    pub database: Option<DatabaseConfigView>,
    pub hooks: Option<Seq<Seq<char>>>,
}

impl View for Project {
    type V = ProjectView;

    open spec fn view(&self) -> ProjectView {
        ProjectView {
            path: self.path@,
            worktree_base: opt_view(self.worktree_base),
            database: opt_db_view(self.database),
            hooks: opt_hooks_view(self.hooks),
        }
    }
}

fn clone_database(d: &Option<DatabaseConfig>) -> (r: Option<DatabaseConfig>)
    ensures
        opt_db_view(r) == opt_db_view(*d),
{
    match d {
        Some(x) => Some(x.clone()),
        None => None,
    }
}

fn clone_hooks(h: &Option<HooksConfig>) -> (r: Option<HooksConfig>)
    ensures
        opt_hooks_view(r) == opt_hooks_view(*h),
{
    match h {
        Some(x) => Some(x.clone()),
        None => None,
    }
}

impl Clone for Project {
    fn clone(&self) -> (r: Self)
        ensures
            r@ == self@,
    {
        Project {
            path: self.path.clone(),
            worktree_base: self.worktree_base.clone(),
            database: clone_database(&self.database),
            hooks: clone_hooks(&self.hooks),
        }
    }
}

/// The directory that holds a project's worktrees: the configured one, else
/// `.worktrees` inside the repository.
pub open spec fn worktree_base_spec(p: ProjectView) -> Seq<char> {
    match p.worktree_base {
        Some(b) => b,
        None => join_spec(p.path, ".worktrees"@),
    }
}

impl Project {
    /// The directory that holds this project's worktrees.
    pub fn worktree_base(&self) -> (r: String)
        ensures
            r@ == worktree_base_spec(self@),
    {
        match &self.worktree_base {
            Some(b) => b.clone(),
            None => path_join(self.path.as_str(), ".worktrees"),
        }
    }
}

/// The registry setting if there is one, else the repository's default.
pub open spec fn prefer_user<T>(user: Option<T>, repo: Option<T>) -> Option<T> {
    match user {
        Some(u) => Some(u),
        None => repo,
    }
}

/// The project that the registry entry and the repository defaults make up:
/// the worktree base comes from the registry only; database and hooks come
/// from the registry where it sets them and from the repository otherwise.
pub open spec fn merge_project_spec(repo: Option<RepoConfig>, user: Option<Project>, path: Seq<char>) -> ProjectView {
    ProjectView {
        path: path,
        worktree_base: match user {
            Some(u) => opt_view(u.worktree_base),
            None => None,
        },
        database: prefer_user(
            match user {
                Some(u) => opt_db_view(u.database),
                None => None,
            },
            match repo {
                Some(r) => opt_db_view(r.database),
                None => None,
            },
        ),
        hooks: prefer_user(
            match user {
                Some(u) => opt_hooks_view(u.hooks),
                None => None,
            },
            match repo {
                Some(r) => opt_hooks_view(r.hooks),
                None => None,
            },
        ),
    }
}

/// Combines a registry entry with repository defaults into the project at `path`.
pub fn merge_project(repo_config: Option<&RepoConfig>, user_project: Option<&Project>, path: String) -> (r: Project)
    ensures
        r@ == merge_project_spec(
            match repo_config {
                Some(rc) => Some(*rc),
                None => None,
            },
            match user_project {
                Some(p) => Some(*p),
                None => None,
            },
            path@,
        ),
{
    let repo_db = match repo_config {
        Some(rc) => clone_database(&rc.database),
        None => None,
    };
    let repo_hooks = match repo_config {
        Some(rc) => clone_hooks(&rc.hooks),
        None => None,
    };
    let user_db = match user_project {
        Some(p) => clone_database(&p.database),
        None => None,
    };
    let user_hooks = match user_project {
        Some(p) => clone_hooks(&p.hooks),
        None => None,
    };
    Project {
        path,
        worktree_base: match user_project {
            Some(p) => p.worktree_base.clone(),
            None => None,
        },
        database: match user_db {
            Some(d) => Some(d),
            None => repo_db,
        },
        hooks: match user_hooks {
            Some(h) => Some(h),
            None => repo_hooks,
        },
    }
}

/// A project registered with its repository path alone.
pub open spec fn bare_project_view(path: Seq<char>) -> ProjectView {
    ProjectView { path: path, worktree_base: None, database: None, hooks: None }
}

/// The project registry.
#[derive(Debug)]
pub struct Config {
    pub projects: OrderedMap<Project>,
}

impl Default for Config {
    fn default() -> (r: Self)
        ensures
            r.projects@ == Map::<Seq<char>, Project>::empty(),
    {
        Config { projects: OrderedMap::new() }
    }
}

/// The worktree of `path` found under the (canonical) worktree base of the
/// project at position `i`, if any.
pub open spec fn worktree_match(bases: Seq<Option<String>>, path: Seq<char>, i: int) -> Option<Seq<char>> {
    match bases[i] {
        Some(b) => component_after_spec(path, b@),
        None => None,
    }
}

/// The first project, from position `i` on, whose worktree base holds `path`,
/// with the worktree's name.
pub open spec fn first_worktree_match(
    e: Seq<(Seq<char>, Project)>,
    bases: Seq<Option<String>>,
    path: Seq<char>,
    i: int,
) -> Option<(Seq<char>, Seq<char>)>
    decreases e.len() - i,
{
    if i < 0 || i >= e.len() {
        None
    } else {
        match worktree_match(bases, path, i) {
            Some(w) => Some((e[i].0, w)),
            None => first_worktree_match(e, bases, path, i + 1),
        }
    }
}

/// The first project, from position `i` on, whose repository holds `path`.
pub open spec fn first_repo_match(e: Seq<(Seq<char>, Project)>, path: Seq<char>, i: int) -> Option<Seq<char>>
    decreases e.len() - i,
{
    if i < 0 || i >= e.len() {
        None
    } else if starts_with_spec(path, e[i].1.path@) {
        Some(e[i].0)
    } else {
        first_repo_match(e, path, i + 1)
    }
}

/// Which project (and worktree) a canonical path belongs to: a worktree base
/// that holds it wins, in registry order; else a repository that holds it.
pub open spec fn locate_spec(e: Seq<(Seq<char>, Project)>, bases: Seq<Option<String>>, path: Seq<char>) -> Option<(Seq<char>, Option<Seq<char>>)> {
    match first_worktree_match(e, bases, path, 0) {
        Some((n, w)) => Some((n, Some(w))),
        None => match first_repo_match(e, path, 0) {
            Some(n) => Some((n, None)),
            None => None,
        },
    }
}

impl Config {
    /// Registers the repository at `path` as `name`.
    ///
    /// `path_exists` and `has_vcs_dir` say whether `path` exists and holds a
    /// `.git` or `.jj` entry; `canonical` is the canonical form of `path`, or the
    /// message of the failure to find it.
    pub fn add_project(
        &mut self,
        name: String,
        path: String,
        path_exists: bool,
        has_vcs_dir: bool,
        canonical: Result<String, String>,
    ) -> (r: Result<(), Error>)
        ensures
            old(self).projects@.contains_key(name@) ==> (r matches Err(Error::ProjectExists(n))
                && n@ == name@),
            !old(self).projects@.contains_key(name@) && !path_exists ==> (r matches Err(
                Error::PathNotFound(p),
            ) && p@ == path@),
            !old(self).projects@.contains_key(name@) && path_exists && !has_vcs_dir ==> (r matches Err(
                Error::NotVcsRepo(p),
            ) && p@ == path@),
            !old(self).projects@.contains_key(name@) && path_exists && has_vcs_dir
                && canonical is Err ==> (r matches Err(Error::Io(m)) && canonical == Err::<
                String,
                String,
            >(m)),
            r is Ok <==> (!old(self).projects@.contains_key(name@) && path_exists && has_vcs_dir
                && canonical is Ok),
            r is Ok ==> final(self).projects@.contains_key(name@) && final(self).projects@[name@]@
                == bare_project_view(canonical->Ok_0@) && final(self).projects@.remove(name@)
                == old(self).projects@,
            r is Err ==> final(self).projects@ == old(self).projects@,
    {
        if self.projects.contains_key(name.as_str()) {
            return Err(Error::ProjectExists(name));
        }
        if !path_exists {
            return Err(Error::PathNotFound(path));
        }
        if !has_vcs_dir {
            return Err(Error::NotVcsRepo(path));
        }
        match canonical {
            Err(m) => Err(Error::Io(m)),
            Ok(c) => {
                let ghost before = self.projects@;
                let ghost key = name@;
                let project = Project { path: c, worktree_base: None, database: None, hooks: None };
                self.projects.insert(name, project);
                assert(self.projects@.remove(key) =~= before);
                Ok(())
            },
        }
    }

    /// Adds `project` under `name` unless the name is taken; says whether it did.
    pub fn register(&mut self, name: &str, project: Project) -> (added: bool)
        ensures
            added == !old(self).projects@.contains_key(name@),
            added ==> final(self).projects@ == old(self).projects@.insert(name@, project),
            !added ==> final(self).projects@ == old(self).projects@,
    {
        if self.projects.contains_key(name) {
            return false;
        }
        self.projects.insert(to_owned_string(name), project);
        true
    }

    /// Unregisters `name`.
    pub fn remove_project(&mut self, name: &str) -> (r: Result<(), Error>)
        ensures
            r is Ok <==> old(self).projects@.contains_key(name@),
            r matches Err(e) ==> e matches Error::ProjectNotFound(n) && n@ == name@,
            final(self).projects@ == old(self).projects@.remove(name@),
    {
        match self.projects.remove(name) {
            Some(_) => Ok(()),
            None => Err(Error::ProjectNotFound(to_owned_string(name))),
        }
    }

    /// The project (and worktree) that the canonical path `canonical` belongs
    /// to. `canonical_bases[i]` is the canonical worktree base of the `i`-th
    /// project in name order, or `None` where it could not be resolved.
    pub fn find_project_for_path(&self, canonical: &str, canonical_bases: &Vec<Option<String>>) -> (r: Option<ProjectRef>)
        requires
            canonical_bases@.len() == self.projects.entries_view().len(),
        ensures
            match r {
                Some(pr) => locate_spec(self.projects.entries_view(), canonical_bases@, canonical@) == Some(pr@),
                None => locate_spec(self.projects.entries_view(), canonical_bases@, canonical@) is None,
            },
    {
        let entries = self.projects.entries();
        let ghost e = self.projects.entries_view();
        let ghost bases = canonical_bases@;
        let mut i: usize = 0;
        while i < entries.len()
            invariant
                i <= entries@.len(),
                entries_of(entries@) == e,
                e == self.projects.entries_view(),
                bases.len() == e.len(),
                bases == canonical_bases@,
                first_worktree_match(e, bases, canonical@, 0) == first_worktree_match(e, bases, canonical@, i as int),
            decreases entries@.len() - i,
        {
            assert(e[i as int].0 == entries@[i as int].0@);
            if let Some(base) = &canonical_bases[i] {
                if let Some(wt) = component_after(canonical, base.as_str()) {
                    proof {
                        assert(worktree_match(bases, canonical@, i as int) == Some(wt@));
                        assert(first_worktree_match(e, bases, canonical@, i as int) == Some((e[i as int].0, wt@)));
                    }
                    return Some(ProjectRef { project: entries[i].0.clone(), worktree: Some(wt) });
                }
            }
            i = i + 1;
        }
        proof {
            assert(first_worktree_match(e, bases, canonical@, i as int) is None);
        }
        let mut j: usize = 0;
        while j < entries.len()
            invariant
                j <= entries@.len(),
                entries_of(entries@) == e,
                e == self.projects.entries_view(),
                bases == canonical_bases@,
                first_worktree_match(e, bases, canonical@, 0) is None,
                first_repo_match(e, canonical@, 0) == first_repo_match(e, canonical@, j as int),
            decreases entries@.len() - j,
        {
            assert(e[j as int].0 == entries@[j as int].0@);
            assert(e[j as int].1 == entries@[j as int].1);
            if starts_with(canonical, entries[j].1.path.as_str()) {
                proof {
                    assert(first_repo_match(e, canonical@, j as int) == Some(e[j as int].0));
                }
                return Some(ProjectRef { project: entries[j].0.clone(), worktree: None });
            }
            j = j + 1;
        }
        None
    }
}

/// The repository's environment defaults, empty when it sets none.
pub open spec fn repo_env_spec(repo: Option<RepoConfig>) -> Map<Seq<char>, String> {
    match repo {
        Some(rc) => match rc.env {
            Some(e) => e@,
            None => Map::empty(),
        },
        None => Map::empty(),
    }
}

fn take_env(env: Option<OrderedMap<String>>) -> (r: OrderedMap<String>)
    ensures
        r@ == match env {
            Some(e) => e@,
            None => Map::<Seq<char>, String>::empty(),
        },
{
    match env {
        Some(e) => e,
        None => OrderedMap::new(),
    }
}

impl Config {
    /// Resolves the registered project `name` with the defaults of its
    /// repository (`repo_config`, as read from the project's path): the name,
    /// the merged project and the repository's environment defaults. `None`
    /// when `name` is not registered.
    pub fn resolve_registered(&self, name: &str, repo_config: Option<RepoConfig>) -> (r: Option<(String, Project, OrderedMap<String>)>)
        ensures
            r is Some <==> self.projects@.contains_key(name@),
            r matches Some((n, p, env)) ==> {
                &&& n@ == name@
                &&& p@ == merge_project_spec(
                    repo_config,
                    Some(self.projects@[name@]),
                    self.projects@[name@].path@,
                )
                &&& env@ == repo_env_spec(repo_config)
            },
    {
        match self.projects.get(name) {
            None => None,
            Some(user) => {
                let merged = merge_project(repo_config.as_ref(), Some(user), user.path.clone());
                let env = match repo_config {
                    Some(rc) => take_env(rc.env),
                    None => OrderedMap::new(),
                };
                Some((to_owned_string(name), merged, env))
            },
        }
    }

    /// Resolves a repository found by searching up from a directory: its
    /// effective name, the project merged from its defaults and any registry
    /// entry of that name (whose path wins over `repo_root`), its environment
    /// defaults, and whether the name still has to be registered. When a
    /// project was asked for by name (`expected_name`), a repository of
    /// another name is an error.
    pub fn resolve_discovered(
        &self,
        repo_config: RepoConfig,
        repo_root: String,
        expected_name: Option<&str>,
    ) -> (r: Result<(String, Project, OrderedMap<String>, bool), Error>)
        ensures
            ({
                let name = effective_name_spec(repo_config.name, repo_root@);
                let user = if self.projects@.contains_key(name) {
                    Some(self.projects@[name])
                } else {
                    None
                };
                let path = match user {
                    Some(u) => u.path@,
                    None => repo_root@,
                };
                &&& (expected_name is Some && expected_name->Some_0@ != name) ==> (r matches Err(
                    Error::ProjectNotFound(n),
                ) && n@ == expected_name->Some_0@)
                &&& (expected_name is None || expected_name->Some_0@ == name) ==> (r matches Ok(res) && {
                    &&& res.0@ == name
                    &&& res.1@ == merge_project_spec(Some(repo_config), user, path)
                    &&& res.2@ == repo_env_spec(Some(repo_config))
                    &&& res.3 == !self.projects@.contains_key(name)
                })
            }),
    {
        let name = repo_config.effective_name(repo_root.as_str());
        if let Some(expected) = expected_name {
            if !str_equal(name.as_str(), expected) {
                return Err(Error::ProjectNotFound(to_owned_string(expected)));
            }
        }
        let user = self.projects.get(name.as_str());
        let path = match user {
            Some(u) => u.path.clone(),
            None => repo_root,
        };
        let merged = merge_project(Some(&repo_config), user, path);
        let must_register = user.is_none();
        let env = take_env(repo_config.env);
        Ok((name, merged, env, must_register))
    }
}

/// The worktree of a canonical path: its first component below the canonical
/// worktree base, if the base could be resolved and holds the path.
pub fn worktree_of_path(canonical_path: &str, canonical_base: Option<String>) -> (r: Option<String>)
    ensures
        r matches Some(w) ==> canonical_base matches Some(b) && component_after_spec(canonical_path@, b@) == Some(w@),
        r is None ==> (canonical_base matches Some(b) ==> component_after_spec(canonical_path@, b@) is None),
{
    match canonical_base {
        Some(b) => component_after(canonical_path, b.as_str()),
        None => None,
    }
}

/// The `gitdir` that a worktree's `.git` file names: its content trimmed, after
/// the `gitdir: ` prefix, taken relative to the directory holding the file
/// unless absolute. `None` when the content does not start with the prefix.
pub open spec fn gitdir_target_spec(content: Seq<char>, dot_git_file: Seq<char>) -> Option<Seq<char>> {
    match strip_prefix_spec(trim_spec(content), "gitdir: "@) {
        None => None,
        Some(g) => if has_root(g) {
            Some(g)
        } else {
            Some(join_spec(parent_spec(dot_git_file)->Some_0, g))
        },
    }
}

/// Reads the target of a git worktree's `.git` file from its `content`.
pub fn gitdir_target(content: &str, dot_git_file: &str) -> (r: Option<String>)
    requires
        parent_spec(dot_git_file@) is Some,
    ensures
        r matches Some(g) ==> gitdir_target_spec(content@, dot_git_file@) == Some(g@),
        r is None ==> gitdir_target_spec(content@, dot_git_file@) is None,
{
    let trimmed = trim(content);
    match strip_prefix(trimmed.as_str(), "gitdir: ") {
        None => None,
        Some(g) => {
            let gc = to_chars(g.as_str());
            if gc.len() > 0 && gc[0] == '/' {
                Some(g)
            } else {
                match parent(dot_git_file) {
                    Some(base) => Some(path_join(base.as_str(), g.as_str())),
                    None => None,
                }
            }
        },
    }
}

/// What the upward search for a repository configuration does next.
#[derive(Debug)]
pub enum SearchStep {
    /// The repository root was found.
    Found(String),
    /// The search moved to the parent directory.
    Continue,
    /// The search reached the top without finding a repository.
    Exhausted,
}

/// The search, from a directory upwards, for the repository whose
/// `.grove/config.toml` applies. It holds the directory being looked at.
pub struct RepoSearch {
    current: String,
}

impl View for RepoSearch {
    type V = Seq<char>;

    closed spec fn view(&self) -> Seq<char> {
        self.current@
    }
}

impl RepoSearch {
    /// A search that starts at the (canonical) directory `start`.
    pub fn new(start: String) -> (r: Self)
        ensures
            r@ == start@,
    {
        RepoSearch { current: start }
    }

    /// The directory being looked at.
    pub fn current(&self) -> (r: &str)
        ensures
            r@ == self@,
    {
        self.current.as_str()
    }

    /// Takes in what the current directory holds and decides.
    ///
    /// `config_found`: the directory has a repository configuration.
    /// `dot_git_is_file`: its `.git` is a file, so it is a git worktree;
    /// `main_from_dot_git` is the main repository that file leads to, if any.
    /// `main_from_jj`: the main repository its `.jj/repo` link leads to, if it is
    /// a jj workspace.
    ///
    /// A configuration in a plain repository gives its root; in a worktree or
    /// workspace, the main repository it belongs to. A git worktree whose main
    /// repository cannot be found, or a directory without configuration, sends
    /// the search to the parent directory.
    pub fn step(
        &mut self,
        config_found: bool,
        dot_git_is_file: bool,
        main_from_dot_git: Option<String>,
        main_from_jj: Option<String>,
    ) -> (r: SearchStep)
        ensures
            config_found && dot_git_is_file && main_from_dot_git is Some ==> (r matches SearchStep::Found(root)
                && root@ == main_from_dot_git->Some_0@ && final(self)@ == old(self)@),
            config_found && !dot_git_is_file ==> (r matches SearchStep::Found(root) && root@ == match main_from_jj {
                Some(m) => m@,
                None => old(self)@,
            } && final(self)@ == old(self)@),
            !config_found || (dot_git_is_file && main_from_dot_git is None) ==> match parent_spec(old(self)@) {
                Some(p) => r is Continue && final(self)@ == p,
                None => r is Exhausted && final(self)@ == old(self)@,
            },
            r is Continue ==> components(final(self)@) == components(old(self)@).drop_last()
                && components(old(self)@).len() > 0,
    {
        if config_found {
            if dot_git_is_file {
                if let Some(main) = main_from_dot_git {
                    return SearchStep::Found(main);
                }
            } else {
                return match main_from_jj {
                    Some(main) => SearchStep::Found(main),
                    None => SearchStep::Found(self.current.clone()),
                };
            }
        }
        match parent(self.current.as_str()) {
            Some(p) => {
                proof {
                    lemma_parent_components(self.current@);
                }
                self.current = p;
                SearchStep::Continue
            },
            None => SearchStep::Exhausted,
        }
    }
}

/// The next step in finding the project that a command is about.
#[derive(Debug)]
pub enum ResolveAction {
    /// Resolve the registered project of this name.
    Registered(String),
    /// Look for the registered project whose repository or worktrees hold the
    /// working directory.
    MatchPath,
    /// Search upwards from the directory for a repository configuration; the
    /// name the project asked for must have, if one was asked for.
    Discover(Option<String>),
    /// Give up with this error.
    Fail(Error),
}

/// What the previous step of finding a project found.
#[derive(Debug)]
pub enum ResolveEvent {
    /// Nothing was tried yet; whether the project asked for by name (if any)
    /// is registered.
    Start { registered: bool },
    /// The registered project that holds the directory, if one does.
    PathMatched(Option<String>),
    /// The upward search found no repository configuration.
    NothingDiscovered,
}

/// Decides the next step in finding the project a command is about, asked
/// for by name (`explicit`) or not. A name asked for is looked up in the
/// registry, then searched for from the working directory, and is otherwise
/// not found. Without a name, the registered project holding the directory
/// wins, then a repository found searching upwards; with neither no project is
/// detected.
pub fn resolve_next(explicit: Option<&str>, event: ResolveEvent) -> (r: ResolveAction)
    ensures
        match event {
            ResolveEvent::Start { registered } => match explicit {
                Some(n) => if registered {
                    r matches ResolveAction::Registered(m) && m@ == n@
                } else {
                    r matches ResolveAction::Discover(Some(m)) && m@ == n@
                },
                None => r is MatchPath,
            },
            ResolveEvent::PathMatched(Some(p)) => r matches ResolveAction::Registered(m) && m@ == p@,
            ResolveEvent::PathMatched(None) => r matches ResolveAction::Discover(None),
            ResolveEvent::NothingDiscovered => match explicit {
                Some(n) => r matches ResolveAction::Fail(Error::ProjectNotFound(m)) && m@ == n@,
                None => r matches ResolveAction::Fail(Error::NoProjectDetected),
            },
        },
{
    match event {
        ResolveEvent::Start { registered } => match explicit {
            Some(n) => if registered {
                ResolveAction::Registered(to_owned_string(n))
            } else {
                ResolveAction::Discover(Some(to_owned_string(n)))
            },
            None => ResolveAction::MatchPath,
        },
        ResolveEvent::PathMatched(Some(p)) => ResolveAction::Registered(p),
        ResolveEvent::PathMatched(None) => ResolveAction::Discover(None),
        ResolveEvent::NothingDiscovered => match explicit {
            Some(n) => ResolveAction::Fail(Error::ProjectNotFound(to_owned_string(n))),
            None => ResolveAction::Fail(Error::NoProjectDetected),
        },
    }
}

impl Config {
    /// Settles a registration that `register` made, once saving the registry
    /// succeeded or failed: kept when it was saved, taken back otherwise. Says
    /// whether it stands.
    pub fn settle_registration(&mut self, name: &str, saved: bool) -> (kept: bool)
        ensures
            kept == saved,
            saved ==> final(self).projects@ == old(self).projects@,
            !saved ==> final(self).projects@ == old(self).projects@.remove(name@),
    {
        if !saved {
            self.projects.remove(name);
        }
        saved
    }
}

} // verus!
