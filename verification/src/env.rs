//! Environment variables: the per-project and per-worktree files, the layering
//! of repository, project and worktree values, and their export to a shell.

use vstd::prelude::*;

use crate::omap::{
    entries_of, keys_increasing, lemma_take_all, lemma_take_step, seq_to_map, OrderedMap,
};
use crate::path::{join_spec, path_join};
use crate::error::Error;
use crate::text::{key_lt, to_chars, to_owned_string, concat, push_char, push_str, replace_all, replace_spec};

verus! {

/// A set of environment variables, as stored in one env file.
#[derive(Debug)]
pub struct EnvVars {
    pub vars: OrderedMap<String>,
}

impl Default for EnvVars {
    fn default() -> (r: Self)
        ensures
            r.vars@ == Map::<Seq<char>, String>::empty(),
    {
        EnvVars { vars: OrderedMap::new() }
    }
}

impl EnvVars {
    /// Sets `key` to `value`.
    pub fn set(&mut self, key: String, value: String)
        ensures
            final(self).vars@ == old(self).vars@.insert(key@, value),
    {
        self.vars.insert(key, value);
    }

    /// Removes `key`; says whether it was set.
    pub fn remove(&mut self, key: &str) -> (removed: bool)
        ensures
            removed == old(self).vars@.contains_key(key@),
            final(self).vars@ == old(self).vars@.remove(key@),
    {
        self.vars.remove(key).is_some()
    }

    /// Removes `key` and says what becomes of the file that holds these
    /// variables: untouched when the key was not set, deleted when no
    /// variable is left, saved otherwise.
    pub fn unset(&mut self, key: &str) -> (r: UnsetOutcome)
        ensures
            final(self).vars@ == old(self).vars@.remove(key@),
            !old(self).vars@.contains_key(key@) ==> r == UnsetOutcome::NotFound,
            old(self).vars@.contains_key(key@) && final(self).vars@ == Map::<Seq<char>, String>::empty()
                ==> r == UnsetOutcome::DeleteFile,
            old(self).vars@.contains_key(key@) && final(self).vars@ != Map::<Seq<char>, String>::empty()
                ==> r == UnsetOutcome::SaveFile,
    {
        if !self.remove(key) {
            UnsetOutcome::NotFound
        } else if self.vars.is_empty() {
            UnsetOutcome::DeleteFile
        } else {
            UnsetOutcome::SaveFile
        }
    }
}

/// What unsetting a variable leaves to do with its env file.
#[derive(Debug, Clone, Copy, PartialEq, Eq)]
pub enum UnsetOutcome {
    /// The variable was not set; nothing changed.
    NotFound,
    /// The last variable went; the file is deleted.
    DeleteFile,
    /// Other variables remain; the file is saved.
    SaveFile,
}

/// The layer a merged variable's value comes from.
#[derive(Debug, Clone, Copy, PartialEq, Eq)]
pub enum EnvSource {
    Repo,
    Project,
    Worktree,
}

/// A variable of the merged environment, with the layer its value comes from.
#[derive(Debug)]
pub struct MergedEnvVar {
    pub key: String,
    pub value: String,
    pub source: EnvSource,
}

/// The entries of a merged environment, keyed by the variables' names.
pub open spec fn merged_entries(v: Seq<MergedEnvVar>) -> Seq<(Seq<char>, (String, EnvSource))> {
    v.map_values(|m: MergedEnvVar| (m.key@, (m.value, m.source)))
}

/// The values of one layer, tagged with the layer.
pub open spec fn tag_layer(m: Map<Seq<char>, String>, source: EnvSource) -> Map<Seq<char>, (String, EnvSource)> {
    m.map_values(|v: String| (v, source))
}

/// The merged environment: repository values, overridden by project values,
/// overridden by worktree values.
pub open spec fn layered_env(
    repo: Map<Seq<char>, String>,
    project: Map<Seq<char>, String>,
    worktree: Option<Map<Seq<char>, String>>,
) -> Map<Seq<char>, (String, EnvSource)> {
    let with_project = tag_layer(repo, EnvSource::Repo).union_prefer_right(tag_layer(project, EnvSource::Project));
    match worktree {
        Some(w) => with_project.union_prefer_right(tag_layer(w, EnvSource::Worktree)),
        None => with_project,
    }
}

fn tag_entries(
    merged: &mut OrderedMap<(String, EnvSource)>,
    layer: &OrderedMap<String>,
    source: EnvSource,
)
    ensures
        final(merged)@ == old(merged)@.union_prefer_right(tag_layer(layer@, source)),
{
    let entries = layer.entries();
    let ghost e = layer.entries_view();
    let ghost start = merged@;
    let mut i: usize = 0;
    assert(seq_to_map(e.take(0)) =~= Map::<Seq<char>, String>::empty());
    assert(start =~= start.union_prefer_right(tag_layer(seq_to_map(e.take(0)), source)));
    while i < entries.len()
        invariant
            i <= entries@.len(),
            entries_of(entries@) == e,
            keys_increasing(e),
            merged@ == start.union_prefer_right(tag_layer(seq_to_map(e.take(i as int)), source)),
        decreases entries@.len() - i,
    {
        let k = entries[i].0.clone();
        let v = entries[i].1.clone();
        proof {
            assert(e[i as int] == (entries@[i as int].0@, entries@[i as int].1));
            lemma_take_step(e, i as int);
        }
        merged.insert(k, (v, source));
        i = i + 1;
        assert(merged@ =~= start.union_prefer_right(tag_layer(seq_to_map(e.take(i as int)), source)));
    }
    proof {
        lemma_take_all(e);
    }
}

/// The merged environment of a project, in name order: repository defaults
/// (`repo_env`), overridden by the project's variables (`project_env`),
/// overridden by a worktree's variables (`worktree_env`) when one is given.
pub fn load_merged_env(
    repo_env: &OrderedMap<String>,
    project_env: &OrderedMap<String>,
    worktree_env: Option<&OrderedMap<String>>,
) -> (r: Vec<MergedEnvVar>)
    ensures
        keys_increasing(merged_entries(r@)),
        seq_to_map(merged_entries(r@)) == layered_env(
            repo_env@,
            project_env@,
            match worktree_env {
                Some(w) => Some(w@),
                None => None,
            },
        ),
{
    let mut merged: OrderedMap<(String, EnvSource)> = OrderedMap::new();
    tag_entries(&mut merged, repo_env, EnvSource::Repo);
    assert(merged@ =~= tag_layer(repo_env@, EnvSource::Repo));
    tag_entries(&mut merged, project_env, EnvSource::Project);
    if let Some(w) = worktree_env {
        tag_entries(&mut merged, w, EnvSource::Worktree);
    }
    let entries = merged.entries();
    let ghost e = merged.entries_view();
    let mut out: Vec<MergedEnvVar> = Vec::new();
    let mut i: usize = 0;
    while i < entries.len()
        invariant
            i <= entries@.len(),
            entries_of(entries@) == e,
            merged_entries(out@) == e.take(i as int),
        decreases entries@.len() - i,
    {
        let key = entries[i].0.clone();
        let value = entries[i].1.0.clone();
        let source = entries[i].1.1;
        let ghost before = out@;
        out.push(MergedEnvVar { key, value, source });
        proof {
            assert(e[i as int] == (entries@[i as int].0@, entries@[i as int].1));
            assert(merged_entries(out@) =~= merged_entries(before).push(e[i as int]));
            assert(e.take(i + 1) =~= e.take(i as int).push(e[i as int]));
        }
        i = i + 1;
    }
    proof {
        lemma_take_all(e);
    }
    out
}

/// A value quoted for a POSIX shell: wrapped in single quotes, each single
/// quote inside written as `'"'"'`.
pub open spec fn shell_escape_spec(s: Seq<char>) -> Seq<char> {
    seq!['\''] + replace_spec(s, seq!['\''], seq!['\'', '"', '\'', '"', '\'']) + seq!['\'']
}

/// Quotes `s` for a POSIX shell.
pub fn shell_escape(s: &str) -> (r: String)
    ensures
        r@ == shell_escape_spec(s@),
{
    proof {
        reveal_strlit("'");
        reveal_strlit("'\"'\"'");
        assert("'"@ =~= seq!['\'']);
        assert("'\"'\"'"@ =~= seq!['\'', '"', '\'', '"', '\'']);
    }
    let inner = replace_all(s, "'", "'\"'\"'");
    let mut r = String::new();
    push_char(&mut r, '\'');
    push_str(&mut r, inner.as_str());
    push_char(&mut r, '\'');
    assert(r@ =~= shell_escape_spec(s@));
    r
}

/// The export line for one variable: `export KEY='value'`.
pub open spec fn export_line_spec(key: Seq<char>, value: Seq<char>) -> Seq<char> {
    "export "@ + key + seq!['='] + shell_escape_spec(value)
}

/// Lines joined with a newline between them.
pub open spec fn join_lines(lines: Seq<Seq<char>>) -> Seq<char>
    decreases lines.len(),
{
    if lines.len() == 0 {
        Seq::empty()
    } else if lines.len() == 1 {
        lines[0]
    } else {
        join_lines(lines.drop_last()) + seq!['\n'] + lines.last()
    }
}

/// The export lines of a merged environment, in order.
pub open spec fn export_lines(v: Seq<MergedEnvVar>) -> Seq<Seq<char>> {
    v.map_values(|m: MergedEnvVar| export_line_spec(m.key@, m.value@))
}

/// Shell commands that export the variables, one per line, in order.
pub fn export_merged_env(vars: &Vec<MergedEnvVar>) -> (r: String)
    ensures
        r@ == join_lines(export_lines(vars@)),
{
    let mut r = String::new();
    let mut i: usize = 0;
    while i < vars.len()
        invariant
            i <= vars@.len(),
            r@ == join_lines(export_lines(vars@).take(i as int)),
        decreases vars@.len() - i,
    {
        if i > 0 {
            push_char(&mut r, '\n');
        }
        push_str(&mut r, "export ");
        push_str(&mut r, vars[i].key.as_str());
        push_char(&mut r, '=');
        let quoted = shell_escape(vars[i].value.as_str());
        push_str(&mut r, quoted.as_str());
        proof {
            let lines = export_lines(vars@);
            assert(lines.take(i + 1).drop_last() =~= lines.take(i as int));
            assert(lines.take(i + 1).last() == lines[i as int]);
            assert(lines[i as int] == export_line_spec(vars@[i as int].key@, vars@[i as int].value@));
            if i == 0 {
                assert(lines.take(1) =~= seq![lines[0]]);
            }
        }
        i = i + 1;
    }
    proof {
        assert(export_lines(vars@).take(vars@.len() as int) =~= export_lines(vars@));
    }
    r
}

/// The registry file inside the configuration directory.
pub fn config_path(config_dir: &str) -> (r: String)
    ensures
        r@ == join_spec(config_dir@, "config.toml"@),
{
    path_join(config_dir, "config.toml")
}

/// The directory of env files inside the configuration directory.
pub fn envs_dir(config_dir: &str) -> (r: String)
    ensures
        r@ == join_spec(config_dir@, "envs"@),
{
    path_join(config_dir, "envs")
}

/// The env file of a project: `envs/<project>.toml`.
pub fn env_path(config_dir: &str, project: &str) -> (r: String)
    ensures
        r@ == join_spec(join_spec(config_dir@, "envs"@), project@ + ".toml"@),
{
    let dir = envs_dir(config_dir);
    let file = concat(project, ".toml");
    path_join(dir.as_str(), file.as_str())
}

/// The env file of a project's worktree: `envs/<project>/<worktree>.toml`.
pub fn worktree_env_path(config_dir: &str, project: &str, worktree: &str) -> (r: String)
    ensures
        r@ == join_spec(join_spec(join_spec(config_dir@, "envs"@), project@), worktree@ + ".toml"@),
{
    let dir = envs_dir(config_dir);
    let project_dir = path_join(dir.as_str(), project);
    let file = concat(worktree, ".toml");
    path_join(project_dir.as_str(), file.as_str())
}

/// The lower-case hexadecimal digit of `n` (below 16).
pub open spec fn hex_digit(n: int) -> char {
    if n < 10 {
        (n + 48) as char
    } else {
        (n - 10 + 97) as char
    }
}

/// How a character is written inside a JSON string: `"` and `\` and the
/// control characters below U+0020 escaped (the usual short forms, else
/// `\u00` and two hex digits), every other character as itself.
pub open spec fn json_escape_char(c: char) -> Seq<char> {
    if c == '"' {
        seq!['\\', '"']
    } else if c == '\\' {
        seq!['\\', '\\']
    } else if c == '\u{8}' {
        seq!['\\', 'b']
    } else if c == '\t' {
        seq!['\\', 't']
    } else if c == '\n' {
        seq!['\\', 'n']
    } else if c == '\u{c}' {
        seq!['\\', 'f']
    } else if c == '\r' {
        seq!['\\', 'r']
    } else if (c as u32) < 32 {
        seq!['\\', 'u', '0', '0', hex_digit((c as int) / 16), hex_digit((c as int) % 16)]
    } else {
        seq![c]
    }
}

/// The escaped characters of `s`.
pub open spec fn json_escaped(s: Seq<char>) -> Seq<char>
    decreases s.len(),
{
    if s.len() == 0 {
        Seq::empty()
    } else {
        json_escaped(s.drop_last()) + json_escape_char(s.last())
    }
}

/// A JSON string literal holding `s`.
pub open spec fn json_string(s: Seq<char>) -> Seq<char> {
    seq!['"'] + json_escaped(s) + seq!['"']
}

/// The members `"name":"value"`, separated by `,`.
pub open spec fn json_members(m: Seq<(Seq<char>, Seq<char>)>) -> Seq<char>
    decreases m.len(),
{
    if m.len() == 0 {
        Seq::empty()
    } else if m.len() == 1 {
        json_string(m[0].0) + seq![':'] + json_string(m[0].1)
    } else {
        json_members(m.drop_last()) + seq![','] + json_string(m.last().0) + seq![':'] + json_string(m.last().1)
    }
}

/// The compact JSON object with the given (name, value) string members, in order.
pub open spec fn json_object_text(m: Seq<(Seq<char>, Seq<char>)>) -> Seq<char> {
    seq!['{'] + json_members(m) + seq!['}']
}

/// The members of a string map, by their text.
pub open spec fn string_members(e: Seq<(Seq<char>, String)>) -> Seq<(Seq<char>, Seq<char>)> {
    e.map_values(|m: (Seq<char>, String)| (m.0, m.1@))
}

/// `serde_json::to_string` of the map from `entries` (keys increasing, so the
/// map keeps them all and walks them in that order). The contract claims the
/// compact object serde_json writes: `{`, the members `"name":"value"`
/// separated by `,`, then `}`, with its string escaping.
/// The crate documents failure only for a `Serialize` impl that fails or a map
/// whose keys are not strings, neither of which can happen here, so the error
/// arm is never taken.
#[verifier::external_body]
fn json_object(entries: &Vec<(String, String)>) -> (r: String)
    requires
        keys_increasing(entries_of(entries@)),
    ensures
        r@ == json_object_text(string_members(entries_of(entries@))),
{
    let map: std::collections::BTreeMap<&str, &str> = entries.iter().map(|e| (e.0.as_str(), e.1.as_str())).collect();
    match serde_json::to_string(&map) {
        Ok(s) => s,
        Err(_) => String::new(),
    }
}

/// The variables as a JSON object of names to values, in name order.
pub fn env_to_json(env: &OrderedMap<String>) -> (r: String)
    ensures
        r@ == json_object_text(string_members(env.entries_view())),
{
    let entries = env.entries();
    json_object(entries)
}

/// The names and values of merged variables, in order.
pub open spec fn merged_members(v: Seq<MergedEnvVar>) -> Seq<(Seq<char>, Seq<char>)> {
    v.map_values(|m: MergedEnvVar| (m.key@, m.value@))
}

/// The names and values of merged variables, as map entries.
pub open spec fn merged_values(v: Seq<MergedEnvVar>) -> Seq<(Seq<char>, String)> {
    v.map_values(|m: MergedEnvVar| (m.key@, m.value))
}

/// The map of names to values that merged variables give, a later variable of
/// the same name replacing an earlier one.
pub open spec fn merged_map(v: Seq<MergedEnvVar>) -> Map<Seq<char>, String>
    decreases v.len(),
{
    if v.len() == 0 {
        Map::empty()
    } else {
        merged_map(v.drop_last()).insert(v.last().key@, v.last().value)
    }
}

/// Merged variables as a JSON object of names to values, in name order. For
/// variables in strictly increasing name order, as `load_merged_env` gives
/// them, the members are the variables themselves, in that order.
pub fn merged_env_json(vars: &Vec<MergedEnvVar>) -> (r: String)
    ensures
        exists|e: Seq<(Seq<char>, String)>| keys_increasing(e) && seq_to_map(e) == merged_map(vars@)
            && r@ == json_object_text(#[trigger] string_members(e)),
        keys_increasing(merged_entries(vars@)) ==> r@ == json_object_text(merged_members(vars@)),
{
    let mut map: OrderedMap<String> = OrderedMap::new();
    let mut i: usize = 0;
    proof {
        assert(map@ =~= merged_map(vars@.take(0)));
        assert(map.entries_view() =~= merged_values(vars@.take(0)));
    }
    while i < vars.len()
        invariant
            i <= vars@.len(),
            map@ == merged_map(vars@.take(i as int)),
            keys_increasing(merged_entries(vars@)) ==> map.entries_view() == merged_values(vars@.take(i as int)),
        decreases vars@.len() - i,
    {
        let ghost before = map.entries_view();
        proof {
            if keys_increasing(merged_entries(vars@)) {
                assert forall|j: int| 0 <= j < before.len() implies key_lt(#[trigger] before[j].0, vars@[i as int].key@) by {
                    assert(before[j].0 == merged_entries(vars@)[j].0);
                    assert(merged_entries(vars@)[i as int].0 == vars@[i as int].key@);
                }
            }
        }
        map.insert(vars[i].key.clone(), vars[i].value.clone());
        proof {
            assert(vars@.take(i + 1).drop_last() =~= vars@.take(i as int));
            assert(vars@.take(i + 1).last() == vars@[i as int]);
            if keys_increasing(merged_entries(vars@)) {
                assert(merged_values(vars@.take(i + 1)) =~= merged_values(vars@.take(i as int)).push(
                    (vars@[i as int].key@, vars@[i as int].value),
                ));
            }
        }
        i = i + 1;
    }
    proof {
        assert(vars@.take(vars@.len() as int) =~= vars@);
    }
    let _ = map.entries();
    let r = env_to_json(&map);
    proof {
        assert(seq_to_map(map.entries_view()) == merged_map(vars@));
        if keys_increasing(merged_entries(vars@)) {
            assert(string_members(map.entries_view()) =~= merged_members(vars@));
        }
    }
    r
}

/// How `env export` writes the environment.
#[derive(Debug, Clone, Copy, PartialEq, Eq)]
pub enum ExportFormat {
    /// `export KEY='value'` lines for a POSIX shell.
    Shell,
    /// One JSON object of names to values.
    Json,
}

/// Whether `env export` looks for the project that holds the path: for JSON
/// only when the path exists (a missing path gives the empty object), for
/// the shell always.
pub fn export_looks_up(format: ExportFormat, path_exists: bool) -> (b: bool)
    ensures
        b == (format == ExportFormat::Shell || path_exists),
{
    match format {
        ExportFormat::Shell => true,
        ExportFormat::Json => path_exists,
    }
}

/// What `env export` prints for `path`, given the merged environment of the
/// project that holds it (`None`: no project holds it, or it was not looked
/// up). JSON always prints an object, `{}` without a project. The shell form
/// prints the export lines, nothing when there are none, and without a
/// project fails with `NoProjectForPath`.
pub fn export_output(format: ExportFormat, path: &str, merged: Option<&Vec<MergedEnvVar>>) -> (r: Result<
    Option<String>,
    Error,
>)
    ensures
        format == ExportFormat::Json && merged is None ==> (r matches Ok(Some(t)) && t@ == "{}"@),
        format == ExportFormat::Json && merged is Some ==> (r matches Ok(Some(t)) && (exists|e: Seq<
            (Seq<char>, String),
        >|
            keys_increasing(e) && seq_to_map(e) == merged_map(merged->Some_0@) && t@ == json_object_text(
                #[trigger] string_members(e),
            ))),
        format == ExportFormat::Json && merged is Some && keys_increasing(
            merged_entries(merged->Some_0@),
        ) ==> (r matches Ok(Some(t)) && t@ == json_object_text(merged_members(merged->Some_0@))),
        format == ExportFormat::Shell && merged is None ==> (r matches Err(Error::NoProjectForPath(p))
            && p@ == path@),
        format == ExportFormat::Shell && merged is Some ==> ({
            let text = join_lines(export_lines(merged->Some_0@));
            &&& text.len() == 0 ==> (r matches Ok(None))
            &&& text.len() > 0 ==> (r matches Ok(Some(t)) && t@ == text)
        }),
{
    match (format, merged) {
        (ExportFormat::Json, None) => Ok(Some(to_owned_string("{}"))),
        (ExportFormat::Json, Some(vars)) => Ok(Some(merged_env_json(vars))),
        (ExportFormat::Shell, None) => Err(Error::NoProjectForPath(to_owned_string(path))),
        (ExportFormat::Shell, Some(vars)) => {
            let text = export_merged_env(vars);
            if to_chars(text.as_str()).len() == 0 {
                Ok(None)
            } else {
                Ok(Some(text))
            }
        },
    }
}

} // verus!
