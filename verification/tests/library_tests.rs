use grove::commands::{
    config_dir_from, format_env_listing, mise_data_dir_from, parse_env_assignment,
    parse_vcs_override, plan_worktree, project_and_item, start_action, validate_worktree_listed,
    validate_worktree_name, worktree_dir_name, worktree_line, worktree_listing_end, Offer,
    RemovalSearch, StartAction,
};
use grove::config::{
    gitdir_target, merge_project, worktree_of_path, Config, DatabaseConfig, HooksConfig, Project,
    RepoConfig, RepoSearch, SearchStep,
};
use grove::env::{
    config_path, env_path, env_to_json, envs_dir, export_merged_env, load_merged_env,
    shell_escape, worktree_env_path, EnvSource, EnvVars, MergedEnvVar,
};
use grove::error::Error;
use grove::omap::OrderedMap;
use grove::path::{
    component_after, file_name, main_repo_from_gitdir, main_repo_from_jj_repo, parent,
    path_components, path_join, starts_with,
};
use grove::vcs::{
    detect_backend, lines, parse_git_worktree_list, parse_jj_workspace_list, BackendKind,
    VcsOverride, WorktreeInfo,
};

fn env_map(pairs: &[(&str, &str)]) -> OrderedMap<String> {
    let mut m = OrderedMap::new();
    for (k, v) in pairs {
        m.insert(k.to_string(), v.to_string());
    }
    m
}

fn keys(m: &OrderedMap<String>) -> Vec<String> {
    m.entries().iter().map(|e| e.0.clone()).collect()
}

fn bare_project(path: &str) -> Project {
    Project {
        path: path.to_string(),
        worktree_base: None,
        database: None,
        hooks: None,
    }
}

// ---- ordered maps ----

#[test]
fn ordered_map_keeps_keys_sorted_and_unique() {
    let mut m = env_map(&[("b", "1"), ("a", "2"), ("c", "3")]);
    assert_eq!(keys(&m), vec!["a", "b", "c"]);
    assert_eq!(m.insert("b".to_string(), "9".to_string()), Some("1".to_string()));
    assert_eq!(m.len(), 3);
    assert_eq!(m.get("b"), Some(&"9".to_string()));
    assert_eq!(m.remove("a"), Some("2".to_string()));
    assert_eq!(m.remove("a"), None);
    assert!(!m.contains_key("a"));
    assert_eq!(keys(&m), vec!["b", "c"]);
}

#[test]
fn ordered_map_orders_by_code_point() {
    let m = env_map(&[("a", ""), ("B", ""), ("ab", ""), ("é", ""), ("", "")]);
    assert_eq!(keys(&m), vec!["", "B", "a", "ab", "é"]);
}

// ---- paths ----

#[test]
fn path_components_normalize() {
    assert_eq!(path_components("/a//b/./c/"), vec!["/", "a", "b", "c"]);
    assert_eq!(path_components("./a/."), vec![".", "a"]);
    assert_eq!(path_components("a/../b"), vec!["a", "..", "b"]);
    assert_eq!(path_components(""), Vec::<String>::new());
    assert_eq!(path_components("/"), vec!["/"]);
}

#[test]
fn path_file_name_and_parent() {
    assert_eq!(file_name("/home/user/code/my-repo"), Some("my-repo".to_string()));
    assert_eq!(file_name("foo.txt/."), Some("foo.txt".to_string()));
    assert_eq!(file_name("/a/.."), None);
    assert_eq!(file_name("/"), None);
    assert_eq!(parent("/a/b"), Some("/a".to_string()));
    assert_eq!(parent("/a"), Some("/".to_string()));
    assert_eq!(parent("/"), None);
    assert_eq!(parent("a"), Some(String::new()));
}

#[test]
fn path_join_cases() {
    assert_eq!(path_join("/a", "b"), "/a/b");
    assert_eq!(path_join("/a/", "b"), "/a/b");
    assert_eq!(path_join("/a", "/b"), "/b");
    assert_eq!(path_join("", "b"), "b");
}

#[test]
fn path_prefixes_are_component_wise() {
    assert!(starts_with("/a/b/c", "/a/b"));
    assert!(starts_with("/a/b", "/a/b/"));
    assert!(!starts_with("/a/bc", "/a/b"));
    assert_eq!(component_after("/a/b/c/d", "/a/b"), Some("c".to_string()));
    assert_eq!(component_after("/a/b", "/a/b"), None);
    assert_eq!(component_after("/x/b/c", "/a/b"), None);
}

#[test]
fn main_repo_from_worktree_gitdir() {
    assert_eq!(
        main_repo_from_gitdir("/home/u/repo/.git/worktrees/feature"),
        Some("/home/u/repo".to_string())
    );
    assert_eq!(main_repo_from_gitdir("/home/u/repo/worktrees/feature"), None);
}

#[test]
fn main_repo_from_jj_workspace_link() {
    assert_eq!(main_repo_from_jj_repo("/home/u/repo/.jj/repo"), Some("/home/u/repo".to_string()));
    assert_eq!(main_repo_from_jj_repo("/home/u/repo/other/repo"), None);
}

#[test]
fn gitdir_file_contents() {
    assert_eq!(
        gitdir_target("gitdir: /r/main/.git/worktrees/f\n", "/w/f/.git"),
        Some("/r/main/.git/worktrees/f".to_string())
    );
    assert_eq!(
        gitdir_target("  gitdir: ../../.git/worktrees/feature  ", "/r/main/.worktrees/feature/.git"),
        Some("/r/main/.worktrees/feature/../../.git/worktrees/feature".to_string())
    );
    assert_eq!(gitdir_target("not a valid gitdir line", "/w/f/.git"), None);
}

// ---- discovery ----

#[test]
fn repo_search_walks_up_until_config() {
    let mut search = RepoSearch::new("/a/b/c".to_string());
    assert!(matches!(search.step(false, false, None, None), SearchStep::Continue));
    assert_eq!(search.current(), "/a/b");
    match search.step(true, false, None, None) {
        SearchStep::Found(root) => assert_eq!(root, "/a/b"),
        other => panic!("unexpected {other:?}"),
    }
}

#[test]
fn repo_search_resolves_worktrees_and_workspaces() {
    let mut search = RepoSearch::new("/w/feature".to_string());
    match search.step(true, true, Some("/r/main".to_string()), None) {
        SearchStep::Found(root) => assert_eq!(root, "/r/main"),
        other => panic!("unexpected {other:?}"),
    }
    // A worktree whose main repository cannot be found: keep walking up.
    assert!(matches!(search.step(true, true, None, None), SearchStep::Continue));
    assert_eq!(search.current(), "/w");
    match search.step(true, false, None, Some("/jj/main".to_string())) {
        SearchStep::Found(root) => assert_eq!(root, "/jj/main"),
        other => panic!("unexpected {other:?}"),
    }
    let mut top = RepoSearch::new("/".to_string());
    assert!(matches!(top.step(false, false, None, None), SearchStep::Exhausted));
}

// ---- registry ----

#[test]
fn add_project_checks_in_order() {
    let mut config = Config::default();
    assert!(matches!(
        config.add_project("p".to_string(), "/x".to_string(), false, false, Ok("/x".to_string())),
        Err(Error::PathNotFound(p)) if p == "/x"
    ));
    assert!(matches!(
        config.add_project("p".to_string(), "/x".to_string(), true, false, Ok("/x".to_string())),
        Err(Error::NotVcsRepo(p)) if p == "/x"
    ));
    assert!(matches!(
        config.add_project("p".to_string(), "x".to_string(), true, true, Err("denied".to_string())),
        Err(Error::Io(m)) if m == "denied"
    ));
    assert!(config.projects.is_empty());
    config
        .add_project("p".to_string(), "x".to_string(), true, true, Ok("/abs/x".to_string()))
        .unwrap();
    assert_eq!(config.projects.get("p").unwrap().path, "/abs/x");
    assert!(matches!(
        config.add_project("p".to_string(), "y".to_string(), true, true, Ok("/abs/y".to_string())),
        Err(Error::ProjectExists(n)) if n == "p"
    ));
    assert_eq!(config.projects.get("p").unwrap().path, "/abs/x");
}

#[test]
fn remove_project_undoes_add() {
    let mut config = Config::default();
    config
        .add_project("a".to_string(), "/a".to_string(), true, true, Ok("/a".to_string()))
        .unwrap();
    config
        .add_project("b".to_string(), "/b".to_string(), true, true, Ok("/b".to_string()))
        .unwrap();
    config.remove_project("b").unwrap();
    assert_eq!(config.projects.len(), 1);
    assert!(config.projects.contains_key("a"));
    assert!(matches!(config.remove_project("b"), Err(Error::ProjectNotFound(n)) if n == "b"));
}

#[test]
fn register_only_new_names() {
    let mut config = Config::default();
    assert!(config.register("p", bare_project("/p")));
    assert!(!config.register("p", bare_project("/q")));
    assert_eq!(config.projects.get("p").unwrap().path, "/p");
}

#[test]
fn find_project_prefers_worktree_base() {
    let mut config = Config::default();
    config.register("alpha", bare_project("/code/alpha"));
    config.register("beta", bare_project("/code/beta"));
    let bases = vec![
        Some("/code/alpha/.worktrees".to_string()),
        None,
    ];
    let found = config
        .find_project_for_path("/code/alpha/.worktrees/feat/src", &bases)
        .unwrap();
    assert_eq!(found.project, "alpha");
    assert_eq!(found.worktree.as_deref(), Some("feat"));

    let found = config.find_project_for_path("/code/beta/src", &bases).unwrap();
    assert_eq!(found.project, "beta");
    assert!(found.worktree.is_none());

    // The worktree base itself is no worktree: the repository matches.
    let found = config
        .find_project_for_path("/code/alpha/.worktrees", &bases)
        .unwrap();
    assert_eq!(found.project, "alpha");
    assert!(found.worktree.is_none());

    assert!(config.find_project_for_path("/elsewhere", &bases).is_none());
}

#[test]
fn resolve_registered_and_discovered() {
    let mut config = Config::default();
    config.register(
        "mull",
        Project {
            path: "/code/mull".to_string(),
            worktree_base: Some("/wt".to_string()),
            database: None,
            hooks: None,
        },
    );
    let repo = RepoConfig {
        name: Some("mull".to_string()),
        hooks: Some(HooksConfig {
            post_create: vec!["make".to_string()],
        }),
        env: Some(env_map(&[("A", "1")])),
        ..Default::default()
    };
    let (name, project, env) = config.resolve_registered("mull", Some(repo)).unwrap();
    assert_eq!(name, "mull");
    assert_eq!(project.path, "/code/mull");
    assert_eq!(project.worktree_base.as_deref(), Some("/wt"));
    assert_eq!(project.hooks.unwrap().post_create, vec!["make"]);
    assert_eq!(keys(&env), vec!["A"]);
    assert!(config.resolve_registered("other", None).is_none());

    let repo = RepoConfig::default();
    let (name, project, env, must_register) =
        config.resolve_discovered(repo, "/src/cool-project".to_string(), None).unwrap();
    assert_eq!(name, "cool-project");
    assert_eq!(project.path, "/src/cool-project");
    assert!(env.is_empty());
    assert!(must_register);

    let repo = RepoConfig {
        name: Some("mull".to_string()),
        ..Default::default()
    };
    let (_, project, _, must_register) =
        config.resolve_discovered(repo, "/elsewhere/mull".to_string(), Some("mull")).unwrap();
    assert_eq!(project.path, "/code/mull");
    assert!(!must_register);

    let repo = RepoConfig::default();
    assert!(matches!(
        config.resolve_discovered(repo, "/src/cool-project".to_string(), Some("other")),
        Err(Error::ProjectNotFound(n)) if n == "other"
    ));
}

#[test]
fn worktree_of_canonical_path() {
    assert_eq!(
        worktree_of_path("/r/.worktrees/feature/src", Some("/r/.worktrees".to_string())),
        Some("feature".to_string())
    );
    assert_eq!(worktree_of_path("/r/src", Some("/r/.worktrees".to_string())), None);
    assert_eq!(worktree_of_path("/r/.worktrees/feature", None), None);
}

#[test]
fn worktree_base_defaults_inside_repo() {
    assert_eq!(bare_project("/code/p").worktree_base(), "/code/p/.worktrees");
    let p = Project {
        worktree_base: Some("/wt".to_string()),
        ..bare_project("/code/p")
    };
    assert_eq!(p.worktree_base(), "/wt");
}

#[test]
fn merge_without_anything() {
    let merged = merge_project(None, None, "/p".to_string());
    assert_eq!(merged.path, "/p");
    assert!(merged.database.is_none() && merged.hooks.is_none() && merged.worktree_base.is_none());
}

#[test]
fn database_url_without_placeholder_and_repeated() {
    let cfg = DatabaseConfig {
        url_template: "{{db_name}}/{{db_name}}{{db_nam".to_string(),
        setup_command: None,
        env_var: None,
    };
    assert_eq!(cfg.database_url("P", "w"), "p_w/p_w{{db_nam");
    let fixed = DatabaseConfig {
        url_template: "postgres:///fixed".to_string(),
        setup_command: None,
        env_var: None,
    };
    assert_eq!(fixed.database_url("p", "w"), "postgres:///fixed");
}

#[test]
fn db_name_shape_law() {
    let cfg = DatabaseConfig {
        url_template: String::new(),
        setup_command: None,
        env_var: None,
    };
    let name = cfg.db_name("Ünï Côde", "x/Y-9");
    assert_eq!(name, "_n__c_de_x_y_9");
    assert_eq!(name.chars().count(), "Ünï Côde".chars().count() + 1 + "x/Y-9".chars().count());
    assert!(name.chars().all(|c| c.is_ascii_lowercase() || c.is_ascii_digit() || c == '_'));
}

#[test]
fn project_ref_round_trip_law() {
    let text = format!("{}/{}", "grove", "feature-x");
    let pr = grove::config::ProjectRef::parse(&text).unwrap();
    assert_eq!((pr.project.as_str(), pr.worktree.as_deref()), ("grove", Some("feature-x")));
    assert!(matches!(
        grove::config::ProjectRef::parse("a//b"),
        Err(Error::InvalidProjectRef(s)) if s == "a//b"
    ));
}

// ---- environment ----

#[test]
fn env_set_then_get_and_unset() {
    let mut vars = EnvVars::default();
    vars.set("FOO".to_string(), "bar".to_string());
    vars.set("FOO".to_string(), "baz".to_string());
    assert_eq!(vars.vars.get("FOO"), Some(&"baz".to_string()));
    assert!(vars.remove("FOO"));
    assert!(!vars.remove("FOO"));
    assert!(vars.vars.is_empty());
}

#[test]
fn env_layers_worktree_over_project_over_repo() {
    let repo = env_map(&[("RUST_LOG", "debug"), ("SHARED", "from_repo"), ("DB", "repo")]);
    let project = env_map(&[("RUST_LOG", "info"), ("DB", "prod")]);
    let worktree = env_map(&[("DB", "dev"), ("EXTRA", "1")]);
    let merged = load_merged_env(&repo, &project, Some(&worktree));
    let got: Vec<(String, String, EnvSource)> = merged
        .iter()
        .map(|m| (m.key.clone(), m.value.clone(), m.source))
        .collect();
    assert_eq!(
        got,
        vec![
            ("DB".to_string(), "dev".to_string(), EnvSource::Worktree),
            ("EXTRA".to_string(), "1".to_string(), EnvSource::Worktree),
            ("RUST_LOG".to_string(), "info".to_string(), EnvSource::Project),
            ("SHARED".to_string(), "from_repo".to_string(), EnvSource::Repo),
        ]
    );
    let without_worktree = load_merged_env(&repo, &project, None);
    assert_eq!(without_worktree[0].value, "prod");
    assert_eq!(without_worktree[0].source, EnvSource::Project);
}

#[test]
fn export_lines_sorted_and_quoted() {
    let merged = load_merged_env(&OrderedMap::new(), &env_map(&[("FOO", "bar"), ("BAZ", "qux")]), None);
    assert_eq!(export_merged_env(&merged), "export BAZ='qux'\nexport FOO='bar'");
    let special = load_merged_env(
        &OrderedMap::new(),
        &env_map(&[("MESSAGE", "hello world"), ("PATTERN", "$HOME/*.txt")]),
        None,
    );
    assert_eq!(
        export_merged_env(&special),
        "export MESSAGE='hello world'\nexport PATTERN='$HOME/*.txt'"
    );
    assert_eq!(export_merged_env(&Vec::new()), "");
}

/// Reads a word of single- and double-quoted runs the way a POSIX shell does.
fn sh_unquote(word: &str) -> Option<String> {
    let chars: Vec<char> = word.chars().collect();
    let mut out = String::new();
    let mut i = 0;
    while i < chars.len() {
        let q = chars[i];
        if q != '\'' && q != '"' {
            return None;
        }
        let end = (i + 1..chars.len()).find(|&j| chars[j] == q)?;
        out.extend(&chars[i + 1..end]);
        i = end + 1;
    }
    Some(out)
}

#[test]
fn shell_escape_round_trip_law() {
    for value in ["", "plain", "it's", "''", "a'b'c", "$HOME \"x\" `y`"] {
        assert_eq!(sh_unquote(&shell_escape(value)), Some(value.to_string()));
    }
}

#[test]
fn env_json_object() {
    let env = env_map(&[("FOO", "bar"), ("BAZ", "q\"x")]);
    assert_eq!(env_to_json(&env), "{\"BAZ\":\"q\\\"x\",\"FOO\":\"bar\"}");
    assert_eq!(env_to_json(&OrderedMap::new()), "{}");
}

#[test]
fn env_json_escapes_strings() {
    let env = env_map(&[("K\\1", "say \"hi\"\n\t\r\u{8}\u{c}\u{1}\u{1f}é/")]);
    assert_eq!(
        env_to_json(&env),
        "{\"K\\\\1\":\"say \\\"hi\\\"\\n\\t\\r\\b\\f\\u0001\\u001fé/\"}"
    );
}

#[test]
fn env_file_locations() {
    assert_eq!(config_path("/cfg"), "/cfg/config.toml");
    assert_eq!(envs_dir("/cfg"), "/cfg/envs");
    assert_eq!(env_path("/cfg", "myproject"), "/cfg/envs/myproject.toml");
    assert_eq!(worktree_env_path("/cfg", "myproject", "testfeat"), "/cfg/envs/myproject/testfeat.toml");
}

// ---- version control ----

#[test]
fn backend_detection() {
    assert_eq!(detect_backend(Some(VcsOverride::Git), true, false).unwrap(), BackendKind::Git);
    assert_eq!(detect_backend(None, true, true).unwrap(), BackendKind::Jj);
    assert!(matches!(detect_backend(None, true, false), Err(Error::JjNotInstalled)));
    assert_eq!(detect_backend(None, false, false).unwrap(), BackendKind::Git);
}

#[test]
fn lines_like_str_lines() {
    let text = "a\r\nb\n\nc\r";
    let expected: Vec<String> = text.lines().map(str::to_string).collect();
    assert_eq!(lines(text), expected);
    assert_eq!(lines(""), Vec::<String>::new());
    assert_eq!(lines("x\n"), vec!["x"]);
}

#[test]
fn git_porcelain_listing() {
    let out = "worktree /repo\nHEAD abc\nbranch refs/heads/main\n\nworktree /repo/.worktrees/feat\nHEAD def\nbranch refs/heads/feat\n\nworktree /repo/.worktrees/det\nHEAD 123\ndetached\n";
    let wts = parse_git_worktree_list(out);
    let got: Vec<(String, Option<String>)> = wts.into_iter().map(|w| (w.path, w.branch)).collect();
    assert_eq!(
        got,
        vec![
            ("/repo/.worktrees/feat".to_string(), Some("feat".to_string())),
            ("/repo/.worktrees/det".to_string(), None),
        ]
    );
    assert!(parse_git_worktree_list("worktree /repo\nbranch refs/heads/main\n").is_empty());
}

#[test]
fn jj_workspace_listing() {
    let out = "default: abc 123 (no description)\nfeature1: def 456 (empty)\nnot a workspace line\n";
    let wts = parse_jj_workspace_list(out, "/repo/.worktrees");
    assert_eq!(wts.len(), 1);
    assert_eq!(wts[0].path, "/repo/.worktrees/feature1");
    assert!(wts[0].branch.is_none());
}

// ---- command decisions ----

#[test]
fn vcs_override_option() {
    assert_eq!(parse_vcs_override(None).unwrap(), None);
    assert_eq!(parse_vcs_override(Some("GIT")).unwrap(), Some(VcsOverride::Git));
    assert!(matches!(parse_vcs_override(Some("Svn")), Err(Error::InvalidVcsOverride(s)) if s == "svn"));
}

#[test]
fn worktree_names() {
    assert!(validate_worktree_name("feature-1_x").is_ok());
    assert!(validate_worktree_name("fëature").is_ok());
    assert!(matches!(validate_worktree_name(""), Err(Error::InvalidWorktreeName(n)) if n.is_empty()));
    assert!(validate_worktree_name("a/b").is_err());
    assert!(validate_worktree_name("a b").is_err());
}

#[test]
fn env_assignments() {
    assert_eq!(
        parse_env_assignment("DATABASE_URL=postgres:///a=b").unwrap(),
        ("DATABASE_URL".to_string(), "postgres:///a=b".to_string())
    );
    assert_eq!(parse_env_assignment("EMPTY=").unwrap(), ("EMPTY".to_string(), String::new()));
    assert!(matches!(
        parse_env_assignment("NOEQUALSSIGN"),
        Err(Error::InvalidEnvFormat(p)) if p == "NOEQUALSSIGN"
    ));
}

#[test]
fn positional_arguments() {
    assert_eq!(project_and_item("proj", Some("KEY")), (Some("proj"), "KEY"));
    assert_eq!(project_and_item("KEY", None), (None, "KEY"));
}

fn merged(key: &str, value: &str, source: EnvSource) -> MergedEnvVar {
    MergedEnvVar {
        key: key.to_string(),
        value: value.to_string(),
        source,
    }
}

#[test]
fn env_listing_layouts() {
    let vars = vec![
        merged("A", "1", EnvSource::Repo),
        merged("LONG_KEY", "2", EnvSource::Project),
        merged("ZZ", "3", EnvSource::Worktree),
    ];
    assert_eq!(
        format_env_listing(&vars, true, false),
        vec![
            "A        = 1  (from repo)",
            "LONG_KEY = 2  (from project)",
            "ZZ       = 3  (override)",
        ]
    );
    assert_eq!(
        format_env_listing(&vars, false, false),
        vec![
            "A        = 1  (from repo)",
            "LONG_KEY = 2  (override)",
            "ZZ       = 3  (override)",
        ]
    );
    assert_eq!(format_env_listing(&vars, false, true), vec!["A=1", "LONG_KEY=2", "ZZ=3"]);
    // The column is as wide as the longest key in bytes, padded by characters.
    let wide = vec![merged("é", "1", EnvSource::Repo), merged("ab", "2", EnvSource::Repo)];
    assert_eq!(
        format_env_listing(&wide, true, false),
        vec![format!("{:width$} = 1  (from repo)", "é", width = 2), format!("{:width$} = 2  (from repo)", "ab", width = 2)]
    );
}

#[test]
fn worktree_listing_lines() {
    let git = WorktreeInfo {
        path: "/r/.worktrees/feat".to_string(),
        branch: Some("feat".to_string()),
    };
    assert_eq!(worktree_line("myproject", &git), "myproject-feat\tfeat\t/r/.worktrees/feat");
    let jj = WorktreeInfo {
        path: "/r/.worktrees/feature1".to_string(),
        branch: None,
    };
    assert_eq!(
        worktree_line("jjproject", &jj),
        "jjproject-feature1\t(jj workspace)\t/r/.worktrees/feature1"
    );
    assert_eq!(worktree_dir_name("/"), "");
}

#[test]
fn worktree_listing_endings() {
    assert!(worktree_listing_end(true, Some("x"), false, None).unwrap().is_none());
    assert_eq!(worktree_listing_end(false, None, false, None).unwrap().unwrap(), "No worktrees found");
    assert_eq!(
        worktree_listing_end(false, Some("p"), true, None).unwrap().unwrap(),
        "No worktrees found for project 'p'"
    );
    assert_eq!(
        worktree_listing_end(false, Some("p"), false, Some("p")).unwrap().unwrap(),
        "No worktrees found for project 'p'"
    );
    assert!(matches!(
        worktree_listing_end(false, Some("p"), false, Some("q")),
        Err(Error::ProjectNotFound(n)) if n == "p"
    ));
}

#[test]
fn removal_by_full_or_unique_name() {
    let mut search = RemovalSearch::new("myproject-feature".to_string());
    assert_eq!(search.offer("other", "myproject-feature"), Offer::Candidate);
    assert_eq!(search.offer("myproject", "feature"), Offer::Exact);

    let mut search = RemovalSearch::new("feature".to_string());
    assert_eq!(search.offer("a", "feature"), Offer::Candidate);
    assert_eq!(search.offer("a", "other"), Offer::Other);
    assert_eq!(search.conclude().unwrap(), 0);
    assert_eq!(search.offer("b", "feature"), Offer::Candidate);
    assert!(matches!(
        search.conclude(),
        Err(Error::AmbiguousWorktreeName(n, list)) if n == "feature" && list == "a-feature, b-feature"
    ));

    let search = RemovalSearch::new("nothing".to_string());
    assert!(matches!(search.conclude(), Err(Error::WorktreeNotFound(n)) if n == "nothing"));
}

#[test]
fn worktree_creation_plan() {
    let project = Project {
        path: "/code/myproject".to_string(),
        worktree_base: None,
        database: Some(DatabaseConfig {
            url_template: "postgres:///{{db_name}}".to_string(),
            setup_command: Some("touch .db-setup-done".to_string()),
            env_var: None,
        }),
        hooks: Some(HooksConfig {
            post_create: vec!["touch .hook-ran".to_string()],
        }),
    };
    let plan = plan_worktree("myproject", &project, "testfeat").unwrap();
    assert_eq!(plan.worktree_base, "/code/myproject/.worktrees");
    assert_eq!(plan.worktree_path, "/code/myproject/.worktrees/testfeat");
    let db = plan.database.unwrap();
    assert_eq!(db.db_name, "myproject_testfeat");
    assert_eq!(db.url, "postgres:///myproject_testfeat");
    assert_eq!(db.env_var, "DATABASE_URL");
    assert_eq!(db.setup_command.as_deref(), Some("touch .db-setup-done"));
    assert_eq!(plan.hooks, vec!["touch .hook-ran"]);

    let plain = plan_worktree("p", &bare_project("/p"), "nodb").unwrap();
    assert!(plain.database.is_none());
    assert!(plain.hooks.is_empty());
    assert!(matches!(
        plan_worktree("p", &bare_project("/p"), "bad name"),
        Err(Error::InvalidWorktreeName(n)) if n == "bad name"
    ));
}

#[test]
fn start_decisions() {
    assert_eq!(start_action(true, true), StartAction::Reuse);
    assert_eq!(start_action(true, false), StartAction::ReplaceOrphan);
    assert_eq!(start_action(false, false), StartAction::Create);
}

#[test]
fn configuration_directories() {
    assert_eq!(config_dir_from(Some("/tmp/cfg".to_string()), Some("/home/u/.config".to_string())).unwrap(), "/tmp/cfg");
    assert_eq!(config_dir_from(None, Some("/home/u/.config".to_string())).unwrap(), "/home/u/.config/grove");
    assert!(matches!(config_dir_from(None, None), Err(Error::NoConfigDir)));
    assert_eq!(mise_data_dir_from(Some("/m".to_string()), None, None).unwrap(), "/m");
    assert_eq!(mise_data_dir_from(None, Some("/x".to_string()), Some("/h".to_string())).unwrap(), "/x/mise");
    assert_eq!(mise_data_dir_from(None, None, Some("/h".to_string())).unwrap(), "/h/.local/share/mise");
    assert!(matches!(mise_data_dir_from(None, None, None), Err(Error::NoDataDir)));
}

#[test]
fn listed_worktree_check() {
    let wts = vec![WorktreeInfo {
        path: "/r/.worktrees/feature".to_string(),
        branch: None,
    }];
    assert!(validate_worktree_listed(&wts, "p", "feature").is_ok());
    assert!(matches!(
        validate_worktree_listed(&wts, "p", "other"),
        Err(Error::WorktreeEnvNotFound(p, w)) if p == "p" && w == "other"
    ));
}
