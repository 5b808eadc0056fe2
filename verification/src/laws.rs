//! Properties that hold across grove's operations, each proved from the
//! specifications the operations are verified against.

use vstd::prelude::*;

use crate::commands::{env_listing, key_width, padded, worktree_listed_spec};
use crate::config::{
    db_char, db_name_spec, first_repo_match, first_worktree_match, locate_spec, merge_project_spec,
    opt_db_view, opt_hooks_view, opt_view, parse_project_ref_spec, worktree_match, Project, RepoConfig,
};
use crate::env::{layered_env, shell_escape_spec, EnvSource, MergedEnvVar};
use crate::path::{components, file_name_spec, join_spec};
use crate::text::{lemma_split_at_first_sep, lemma_split_without_sep, replace_spec, split_once_spec};
use crate::vcs::jj_fold;

verus! {

/// The value each variable takes in the merged environment: the worktree's if
/// it sets the variable, else the project's, else the repository's; a variable
/// none of them sets is absent.
pub proof fn law_env_precedence(
    repo: Map<Seq<char>, String>,
    project: Map<Seq<char>, String>,
    worktree: Map<Seq<char>, String>,
    key: Seq<char>,
)
    ensures
        ({
            let merged = layered_env(repo, project, Some(worktree));
            &&& merged.contains_key(key) <==> (worktree.contains_key(key) || project.contains_key(key)
                || repo.contains_key(key))
            &&& worktree.contains_key(key) ==> merged[key] == (worktree[key], EnvSource::Worktree)
            &&& !worktree.contains_key(key) && project.contains_key(key) ==> merged[key] == (
                project[key],
                EnvSource::Project,
            )
            &&& !worktree.contains_key(key) && !project.contains_key(key) && repo.contains_key(key)
                ==> merged[key] == (repo[key], EnvSource::Repo)
        }),
{
}

/// Without a worktree, the project's value wins over the repository's.
pub proof fn law_env_precedence_project(
    repo: Map<Seq<char>, String>,
    project: Map<Seq<char>, String>,
    key: Seq<char>,
)
    ensures
        ({
            let merged = layered_env(repo, project, None);
            &&& merged.contains_key(key) <==> (project.contains_key(key) || repo.contains_key(key))
            &&& project.contains_key(key) ==> merged[key] == (project[key], EnvSource::Project)
            &&& !project.contains_key(key) && repo.contains_key(key) ==> merged[key] == (
                repo[key],
                EnvSource::Repo,
            )
        }),
{
}

/// Reading a variable right after setting it gives the value set, and leaves
/// the other variables as they were.
pub proof fn law_env_set_then_get(vars: Map<Seq<char>, String>, key: Seq<char>, value: String, other: Seq<char>)
    ensures
        vars.insert(key, value).contains_key(key),
        vars.insert(key, value)[key] == value,
        other != key ==> (vars.insert(key, value).contains_key(other) == vars.contains_key(other)),
        other != key && vars.contains_key(other) ==> vars.insert(key, value)[other] == vars[other],
{
}

/// Unsetting a variable right after setting it leaves the variables as if
/// neither had happened, apart from any earlier value of that variable.
pub proof fn law_env_unset_after_set(vars: Map<Seq<char>, String>, key: Seq<char>, value: String)
    ensures
        vars.insert(key, value).remove(key) == vars.remove(key),
{
    assert(vars.insert(key, value).remove(key) =~= vars.remove(key));
}

/// Removing a project right after adding it restores the registry; so does
/// a registration that `settle_registration` takes back after a failed save.
pub proof fn law_add_then_remove_restores(registry: Map<Seq<char>, Project>, name: Seq<char>, project: Project)
    requires
        !registry.contains_key(name),
    ensures
        registry.insert(name, project).remove(name) == registry,
{
    assert(registry.insert(name, project).remove(name) =~= registry);
}

/// `project/worktree`, written from a project and worktree name (non-empty,
/// without `/`), reads back as that project and worktree; a project name alone
/// reads back as the project.
pub proof fn law_project_ref_round_trip(project: Seq<char>, worktree: Seq<char>)
    requires
        project.len() > 0,
        worktree.len() > 0,
        !project.contains('/'),
        !worktree.contains('/'),
    ensures
        parse_project_ref_spec(project + seq!['/'] + worktree) == Some((project, Some(worktree))),
        parse_project_ref_spec(project) == Some((project, None::<Seq<char>>)),
{
    lemma_split_at_first_sep(project, worktree, '/');
    lemma_split_without_sep(worktree, '/');
    lemma_split_without_sep(project, '/');
    assert(seq![project] + seq![worktree] =~= seq![project, worktree]);
}

/// A character of a database name: an ASCII lower-case letter, a digit or `_`.
pub open spec fn db_name_char(c: char) -> bool {
    ('a' <= c <= 'z') || ('0' <= c <= '9') || c == '_'
}

/// Database names are made of lower-case ASCII letters, digits and `_` only,
/// and have one character for each character of the project and worktree
/// names plus the `_` between them.
pub proof fn law_db_name_shape(project: Seq<char>, worktree: Seq<char>)
    ensures
        db_name_spec(project, worktree).len() == project.len() + 1 + worktree.len(),
        forall|i: int| 0 <= i < db_name_spec(project, worktree).len() ==> db_name_char(#[trigger] db_name_spec(project, worktree)[i]),
{
    let joined = project + seq!['_'] + worktree;
    assert forall|i: int| 0 <= i < joined.len() implies db_name_char(#[trigger] db_char(joined[i])) by {
        let c = joined[i];
        if 'A' <= c && c <= 'Z' {
            assert(('a' as int) <= (c as int) + 32 <= ('z' as int));
        }
    }
}

/// A path inside a project's worktree base is attributed to that worktree,
/// even when it also lies inside a registered repository.
pub proof fn law_worktree_location_wins(
    e: Seq<(Seq<char>, Project)>,
    bases: Seq<Option<String>>,
    path: Seq<char>,
)
    requires
        first_worktree_match(e, bases, path, 0) is Some,
    ensures
        locate_spec(e, bases, path) matches Some((n, w)) && w is Some
            && first_worktree_match(e, bases, path, 0) == Some((n, w->Some_0)),
{
}

/// Registry settings win over repository defaults; repository defaults fill
/// in what the registry leaves unset; the worktree base comes from the
/// registry alone.
pub proof fn law_registry_overrides_repo(repo: RepoConfig, user: Project, path: Seq<char>)
    ensures
        ({
            let merged = merge_project_spec(Some(repo), Some(user), path);
            &&& merged.path == path
            &&& user.database is Some ==> merged.database == opt_db_view(user.database)
            &&& user.database is None ==> merged.database == opt_db_view(repo.database)
            &&& user.hooks is Some ==> merged.hooks == opt_hooks_view(user.hooks)
            &&& user.hooks is None ==> merged.hooks == opt_hooks_view(repo.hooks)
            &&& merged.worktree_base == crate::config::opt_view(user.worktree_base)
        }),
        merge_project_spec(Some(repo), None, path).database == opt_db_view(repo.database),
        merge_project_spec(Some(repo), None, path).hooks == opt_hooks_view(repo.hooks),
        merge_project_spec(Some(repo), None, path).worktree_base is None,
{
}

/// The position of the first `c` in `t` at or after `i`, or the length of `t`.
pub open spec fn next_index_of(t: Seq<char>, c: char, i: int) -> int
    decreases t.len() - i,
{
    if i < 0 || i >= t.len() {
        t.len() as int
    } else if t[i] == c {
        i
    } else {
        next_index_of(t, c, i + 1)
    }
}

/// `next_index_of` finds the first `c` at or after `i`.
pub proof fn lemma_next_index_of(t: Seq<char>, c: char, i: int)
    requires
        0 <= i <= t.len(),
    ensures
        i <= next_index_of(t, c, i) <= t.len(),
        next_index_of(t, c, i) < t.len() ==> t[next_index_of(t, c, i)] == c,
        forall|k: int| i <= k < next_index_of(t, c, i) ==> t[k] != c,
    decreases t.len() - i,
{
    if i < t.len() && t[i] != c {
        lemma_next_index_of(t, c, i + 1);
    }
}

/// The characters that keep their special meaning inside double quotes.
pub open spec fn special_in_double_quotes(c: char) -> bool {
    c == '$' || c == '`' || c == '\\'
}

/// The value a POSIX shell gives a word made of single-quoted and
/// double-quoted runs: the runs' contents, in order. `None` for a word of
/// another shape, or a double-quoted run holding `$`, `` ` `` or `\`.
pub open spec fn sh_word_value(t: Seq<char>) -> Option<Seq<char>>
    decreases t.len(),
{
    if t.len() == 0 {
        Some(Seq::empty())
    } else if t[0] == '\'' || t[0] == '"' {
        let j = next_index_of(t, t[0], 1);
        if j >= t.len() {
            None
        } else {
            let content = t.subrange(1, j);
            if t[0] == '"' && exists|k: int| 0 <= k < content.len() && special_in_double_quotes(#[trigger] content[k]) {
                None
            } else {
                proof {
                    lemma_next_index_of(t, t[0], 1);
                }
                match sh_word_value(t.skip(j + 1)) {
                    Some(rest) => Some(content + rest),
                    None => None,
                }
            }
        }
    } else {
        None
    }
}

proof fn lemma_unquote_escaped(x: Seq<char>, s: Seq<char>)
    requires
        forall|k: int| 0 <= k < x.len() ==> #[trigger] x[k] != '\'',
    ensures
        sh_word_value(seq!['\''] + x + replace_spec(s, seq!['\''], seq!['\'', '"', '\'', '"', '\'']) + seq!['\''])
            == Some(x + s),
    decreases s.len(),
{
    let q = seq!['\''];
    let rep = seq!['\'', '"', '\'', '"', '\''];
    let r = replace_spec(s, q, rep);
    let t = q + x + r + q;
    if s.len() == 0 {
        assert(r =~= Seq::<char>::empty());
        lemma_next_index_of(t, '\'', 1);
        assert(t[x.len() as int + 1] == '\'');
        assert forall|k: int| 1 <= k < x.len() as int + 1 implies t[k] != '\'' by {
            assert(t[k] == x[k - 1]);
        }
        assert(next_index_of(t, '\'', 1) == x.len() as int + 1) by {
            lemma_next_index_of(t, '\'', 1);
            let j = next_index_of(t, '\'', 1);
            if j < x.len() as int + 1 {
                assert(t[j] == x[j - 1]);
            }
        }
        assert(t.subrange(1, x.len() as int + 1) =~= x);
        assert(t.skip(x.len() as int + 2) =~= Seq::<char>::empty());
        assert(sh_word_value(Seq::<char>::empty()) == Some(Seq::<char>::empty()));
        assert(sh_word_value(t) == Some(x + Seq::<char>::empty()));
        assert(x + Seq::<char>::empty() =~= x + s);
    } else if s[0] != '\'' {
        let s1 = s.drop_first();
        assert(!(s.take(1) == q)) by {
            assert(s.take(1)[0] == s[0]);
        }
        assert(r == seq![s[0]] + replace_spec(s1, q, rep));
        let x1 = x.push(s[0]);
        assert forall|k: int| 0 <= k < x1.len() implies #[trigger] x1[k] != '\'' by {
            if k < x.len() {
                assert(x1[k] == x[k]);
            }
        }
        lemma_unquote_escaped(x1, s1);
        assert(q + x1 + replace_spec(s1, q, rep) + q =~= t);
        assert(x1 + s1 =~= x + s);
    } else {
        let s1 = s.skip(1);
        assert(s.take(1) =~= q);
        assert(r == rep + replace_spec(s1, q, rep));
        let r1 = replace_spec(s1, q, rep);
        // t = ' x ' " ' " ' r1 '
        let n = x.len() as int;
        assert(t =~= q + x + q + seq!['"', '\'', '"'] + q + r1 + q);
        assert(next_index_of(t, '\'', 1) == n + 1) by {
            lemma_next_index_of(t, '\'', 1);
            let j = next_index_of(t, '\'', 1);
            assert(t[n + 1] == '\'');
            if j < n + 1 {
                assert(t[j] == x[j - 1]);
            }
        }
        assert(t.subrange(1, n + 1) =~= x);
        let u = t.skip(n + 2);
        assert(u =~= seq!['"', '\'', '"'] + q + r1 + q);
        assert(next_index_of(u, '"', 1) == 2) by {
            lemma_next_index_of(u, '"', 1);
            assert(u[1] == '\'');
            assert(u[2] == '"');
        }
        let content = u.subrange(1, 2);
        assert(content =~= q);
        assert(!(exists|k: int| 0 <= k < content.len() && special_in_double_quotes(#[trigger] content[k])));
        let w = u.skip(3);
        assert(w =~= q + Seq::<char>::empty() + r1 + q);
        lemma_unquote_escaped(Seq::<char>::empty(), s1);
        assert(sh_word_value(w) == Some(Seq::<char>::empty() + s1));
        assert(Seq::<char>::empty() + s1 =~= s1);
        assert(sh_word_value(u) == Some(content + s1));
        assert(sh_word_value(u) == Some(q + s1));
        assert(sh_word_value(t) == Some(x + (q + s1)));
        assert(x + (q + s1) =~= x + s) by {
            assert(s =~= q + s1);
        }
    }
}

/// A value quoted by `shell_escape` reads back, in a POSIX shell, as exactly
/// that value.
pub proof fn law_shell_escape_round_trip(s: Seq<char>)
    ensures
        sh_word_value(shell_escape_spec(s)) == Some(s),
{
    lemma_unquote_escaped(Seq::<char>::empty(), s);
    assert(seq!['\''] + Seq::<char>::empty() + replace_spec(s, seq!['\''], seq!['\'', '"', '\'', '"', '\''])
        + seq!['\''] =~= shell_escape_spec(s));
    assert(Seq::<char>::empty() + s =~= s);
}

/// A registry setting wins whether or not the repository has a configuration
/// of its own: the registry's database and hooks, where set, are the merged
/// project's, and with no repository configuration the merged project has
/// exactly the registry's settings.
pub proof fn law_registry_setting_kept(repo: Option<RepoConfig>, user: Project, path: Seq<char>)
    ensures
        ({
            let merged = merge_project_spec(repo, Some(user), path);
            &&& merged.path == path
            &&& merged.worktree_base == opt_view(user.worktree_base)
            &&& user.database is Some ==> merged.database == opt_db_view(user.database)
            &&& user.hooks is Some ==> merged.hooks == opt_hooks_view(user.hooks)
            &&& repo is None ==> merged.database == opt_db_view(user.database) && merged.hooks
                == opt_hooks_view(user.hooks)
        }),
{
}

/// Whether the components of `base` begin the components of `p`.
pub open spec fn components_begin(p: Seq<char>, base: Seq<char>) -> bool {
    components(base).len() <= components(p).len() && components(p).take(components(base).len() as int)
        == components(base)
}

proof fn lemma_first_repo_match(e: Seq<(Seq<char>, Project)>, p: Seq<char>, i: int)
    requires
        0 <= i <= e.len(),
    ensures
        first_repo_match(e, p, i) matches Some(n) ==> exists|j: int|
            i <= j < e.len() && #[trigger] e[j].0 == n && components_begin(p, e[j].1.path@) && forall|m: int|
                i <= m < j ==> !components_begin(p, #[trigger] e[m].1.path@),
        (exists|j: int| i <= j < e.len() && components_begin(p, #[trigger] e[j].1.path@))
            ==> first_repo_match(e, p, i) is Some,
    decreases e.len() - i,
{
    if i < e.len() {
        lemma_first_repo_match(e, p, i + 1);
        if let Some(n) = first_repo_match(e, p, i) {
            if components_begin(p, e[i].1.path@) {
                assert(e[i].0 == n);
            }
        }
        if exists|j: int| i <= j < e.len() && components_begin(p, #[trigger] e[j].1.path@) {
            let j = choose|j: int| i <= j < e.len() && components_begin(p, #[trigger] e[j].1.path@);
            if j > i && !components_begin(p, e[i].1.path@) {
                assert(i + 1 <= j < e.len() && components_begin(p, e[j].1.path@));
            }
        }
    }
}

proof fn lemma_first_worktree_match(e: Seq<(Seq<char>, Project)>, bases: Seq<Option<String>>, p: Seq<char>, i: int)
    requires
        0 <= i <= e.len(),
        bases.len() == e.len(),
    ensures
        first_worktree_match(e, bases, p, i) matches Some((n, w)) ==> exists|j: int|
            i <= j < e.len() && #[trigger] e[j].0 == n && bases[j] is Some && components_begin(
                p,
                bases[j]->Some_0@,
            ) && components(bases[j]->Some_0@).len() < components(p).len() && components(p)[components(
                bases[j]->Some_0@,
            ).len() as int] == w,
    decreases e.len() - i,
{
    if i < e.len() {
        lemma_first_worktree_match(e, bases, p, i + 1);
        if let Some((n, w)) = first_worktree_match(e, bases, p, i) {
            if worktree_match(bases, p, i) is Some {
                assert(e[i].0 == n);
            }
        }
    }
}

/// A path belongs to a registered repository only when the repository's path
/// components begin the path's components (`/code/api` holds `/code/api/src`
/// but not `/code/api-web`), and to one of its worktrees only when the
/// worktree base's components begin it, the worktree being the component that
/// follows. A path that some registered repository holds is always found,
/// and the repository it is attributed to is the first in registry order
/// that holds it.
pub proof fn law_path_match_by_components(
    e: Seq<(Seq<char>, Project)>,
    bases: Seq<Option<String>>,
    p: Seq<char>,
)
    requires
        bases.len() == e.len(),
    ensures
        locate_spec(e, bases, p) matches Some((n, None)) ==> exists|j: int|
            0 <= j < e.len() && #[trigger] e[j].0 == n && components_begin(p, e[j].1.path@) && forall|m: int|
                0 <= m < j ==> !components_begin(p, #[trigger] e[m].1.path@),
        locate_spec(e, bases, p) matches Some((n, Some(w))) ==> exists|j: int|
            0 <= j < e.len() && #[trigger] e[j].0 == n && bases[j] is Some && components_begin(
                p,
                bases[j]->Some_0@,
            ) && components(bases[j]->Some_0@).len() < components(p).len() && components(p)[components(
                bases[j]->Some_0@,
            ).len() as int] == w,
        (exists|j: int| 0 <= j < e.len() && components_begin(p, #[trigger] e[j].1.path@)) ==> locate_spec(
            e,
            bases,
            p,
        ) is Some,
{
    lemma_first_repo_match(e, p, 0);
    lemma_first_worktree_match(e, bases, p, 0);
}

/// A worktree is found among the listed ones wherever it stands in the list:
/// the check passes exactly when some listed worktree has the name as its
/// directory name.
pub proof fn law_worktree_listed_anywhere(wts: Seq<(Seq<char>, Option<Seq<char>>)>, name: Seq<char>, i: int)
    requires
        0 <= i < wts.len(),
    ensures
        file_name_spec(wts[i].0) == Some(name) ==> worktree_listed_spec(wts, name),
        worktree_listed_spec(wts, name) ==> exists|j: int| 0 <= j < wts.len() && file_name_spec(#[trigger] wts[j].0) == Some(name),
        (forall|j: int| 0 <= j < wts.len() ==> file_name_spec(#[trigger] wts[j].0) != Some(name)) ==> !worktree_listed_spec(wts, name),
{
}

/// The name of the workspace a `jj workspace list` line is about: the text
/// before its first `: `.
pub open spec fn jj_line_name(line: Seq<char>) -> Option<Seq<char>> {
    match split_once_spec(line, ": "@) {
        Some((name, _)) => Some(name),
        None => None,
    }
}

/// Whether `entry` is the workspace that some line of `lines` names, the line
/// not being about the `default` workspace.
pub open spec fn jj_from_line(lines: Seq<Seq<char>>, base: Seq<char>, entry: (Seq<char>, Option<Seq<char>>)) -> bool {
    exists|i: int|
        #![trigger jj_line_name(lines[i])]
        0 <= i < lines.len() && jj_line_name(lines[i]) is Some && jj_line_name(lines[i])->Some_0 != "default"@
            && entry == (join_spec(base, jj_line_name(lines[i])->Some_0), None::<Seq<char>>)
}

/// The workspaces of a `jj workspace list` output: every line `<name>: ...`
/// other than the `default` workspace gives the workspace at
/// `<base>/<name>`, wherever the line stands, and every listed workspace comes
/// from such a line.
pub proof fn law_jj_lists_all_but_default(lines: Seq<Seq<char>>, base: Seq<char>)
    ensures
        forall|i: int|
            0 <= i < lines.len() && (#[trigger] jj_line_name(lines[i])) is Some && jj_line_name(lines[i])->Some_0
                != "default"@ ==> jj_fold(lines, base).contains(
                (join_spec(base, jj_line_name(lines[i])->Some_0), None),
            ),
        forall|k: int|
            0 <= k < jj_fold(lines, base).len() ==> jj_from_line(lines, base, #[trigger] jj_fold(lines, base)[k]),
    decreases lines.len(),
{
    if lines.len() > 0 {
        let prev = lines.drop_last();
        law_jj_lists_all_but_default(prev, base);
        let r0 = jj_fold(prev, base);
        let r = jj_fold(lines, base);
        assert(r == crate::vcs::jj_step(r0, lines.last(), base));
        assert(r0.len() <= r.len());
        assert(forall|k: int| 0 <= k < r0.len() ==> r[k] == r0[k]);
        assert forall|i: int|
            0 <= i < lines.len() && (#[trigger] jj_line_name(lines[i])) is Some && jj_line_name(lines[i])->Some_0
                != "default"@ implies r.contains((join_spec(base, jj_line_name(lines[i])->Some_0), None)) by {
            let name = jj_line_name(lines[i])->Some_0;
            if i < lines.len() - 1 {
                assert(prev[i] == lines[i]);
                assert(jj_line_name(prev[i]) is Some);
                assert(r0.contains((join_spec(base, name), None)));
                let k = choose|k: int| 0 <= k < r0.len() && r0[k] == (join_spec(base, name), None::<Seq<char>>);
                assert(r[k] == r0[k]);
            } else {
                assert(lines[i] == lines.last());
                assert(r[r.len() - 1] == (join_spec(base, name), None::<Seq<char>>));
            }
        }
        assert forall|k: int| 0 <= k < r.len() implies jj_from_line(lines, base, #[trigger] r[k]) by {
            if k < r0.len() {
                assert(jj_from_line(prev, base, r0[k]));
                let i = choose|i: int|
                    #![trigger jj_line_name(prev[i])]
                    0 <= i < prev.len() && jj_line_name(prev[i]) is Some && jj_line_name(prev[i])->Some_0
                        != "default"@ && r0[k] == (join_spec(base, jj_line_name(prev[i])->Some_0), None::<Seq<char>>);
                assert(prev[i] == lines[i]);
                assert(jj_line_name(lines[i]) is Some);
                assert(r[k] == r0[k]);
            } else {
                let i = lines.len() - 1;
                assert(lines[i] == lines.last());
                assert(split_once_spec(lines.last(), ": "@) is Some);
                let name = split_once_spec(lines.last(), ": "@)->Some_0.0;
                assert(name != "default"@);
                assert(r == r0.push((join_spec(base, name), None)));
                assert(jj_line_name(lines[i]) == Some(name));
                assert(r[k] == (join_spec(base, jj_line_name(lines[i])->Some_0), None::<Seq<char>>));
            }
        }
    }
}

/// The label a worktree listing gives a value from each layer.
pub open spec fn worktree_label(source: EnvSource) -> Seq<char> {
    match source {
        EnvSource::Repo => "(from repo)"@,
        EnvSource::Project => "(from project)"@,
        EnvSource::Worktree => "(override)"@,
    }
}

/// A worktree listing always labels each value with the layer it comes from,
/// whether or not the repository sets defaults: one aligned line per
/// variable, `KEY = value  (label)`.
pub proof fn law_worktree_listing_labelled(v: Seq<MergedEnvVar>, repo_env_empty: bool)
    ensures
        env_listing(v, true, repo_env_empty).len() == v.len(),
        forall|i: int| 0 <= i < v.len() ==> #[trigger] env_listing(v, true, repo_env_empty)[i] == padded(
            v[i].key@,
            key_width(v),
        ) + " = "@ + v[i].value@ + "  "@ + worktree_label(v[i].source),
{
}

/// The label a project listing gives a value from each layer: anything set
/// outside the repository overrides its default.
pub open spec fn project_label(source: EnvSource) -> Seq<char> {
    match source {
        EnvSource::Repo => "(from repo)"@,
        EnvSource::Project => "(override)"@,
        EnvSource::Worktree => "(override)"@,
    }
}

/// A project listing is plain `KEY=value` lines when the repository sets no
/// defaults, and otherwise aligned lines labelled by layer.
pub proof fn law_project_listing(v: Seq<MergedEnvVar>, repo_env_empty: bool)
    ensures
        env_listing(v, false, repo_env_empty).len() == v.len(),
        repo_env_empty ==> forall|i: int| 0 <= i < v.len() ==> #[trigger] env_listing(v, false, repo_env_empty)[i]
            == v[i].key@ + "="@ + v[i].value@,
        !repo_env_empty ==> forall|i: int| 0 <= i < v.len() ==> #[trigger] env_listing(v, false, repo_env_empty)[i]
            == padded(v[i].key@, key_width(v)) + " = "@ + v[i].value@ + "  "@ + project_label(v[i].source),
{
}

/// Reading two listings one after the other gives the workspaces of the first
/// followed by those of the second, and a single line gives its own workspace
/// unless it names none or the `default` one: the workspaces come out once
/// each, in the order of their lines.
pub proof fn law_jj_lines_in_order(a: Seq<Seq<char>>, b: Seq<Seq<char>>, line: Seq<char>, base: Seq<char>)
    ensures
        jj_fold(a + b, base) == jj_fold(a, base) + jj_fold(b, base),
        jj_line_name(line) is Some && jj_line_name(line)->Some_0 != "default"@ ==> jj_fold(seq![line], base)
            == seq![(join_spec(base, jj_line_name(line)->Some_0), None::<Seq<char>>)],
        !(jj_line_name(line) is Some && jj_line_name(line)->Some_0 != "default"@) ==> jj_fold(seq![line], base).len()
            == 0,
    decreases b.len(),
{
    assert(seq![line].drop_last() =~= Seq::<Seq<char>>::empty());
    assert(jj_fold(Seq::<Seq<char>>::empty(), base) =~= Seq::<(Seq<char>, Option<Seq<char>>)>::empty());
    if b.len() == 0 {
        assert(a + b =~= a);
        assert(jj_fold(a, base) + jj_fold(b, base) =~= jj_fold(a, base));
    } else {
        law_jj_lines_in_order(a, b.drop_last(), line, base);
        assert((a + b).drop_last() =~= a + b.drop_last());
        assert((a + b).last() == b.last());
        let x = jj_fold(a, base);
        let y = jj_fold(b.drop_last(), base);
        assert(jj_fold(a + b, base) == crate::vcs::jj_step(x + y, b.last(), base));
        assert(jj_fold(b, base) == crate::vcs::jj_step(y, b.last(), base));
        match split_once_spec(b.last(), ": "@) {
            None => {},
            Some((name, _)) => {
                if name != "default"@ {
                    assert((x + y).push((join_spec(base, name), None)) =~= x + y.push((join_spec(base, name), None)));
                }
            },
        }
    }
}

} // verus!
