use grove::config::{merge_project, DatabaseConfig, HooksConfig, Project, ProjectRef, RepoConfig};
use grove::env::{load_merged_env, shell_escape, EnvSource, EnvVars};
use grove::omap::OrderedMap;

#[test]
fn test_shell_escape_simple() {
    assert_eq!(shell_escape("hello"), "'hello'");
    assert_eq!(shell_escape("/path/to/thing"), "'/path/to/thing'");
}

#[test]
fn test_shell_escape_special() {
    assert_eq!(shell_escape("hello world"), "'hello world'");
    assert_eq!(shell_escape("it's"), "'it'\"'\"'s'");
}

#[test]
fn test_project_ref_parse_project_only() {
    let pr = ProjectRef::parse("mull").unwrap();
    assert_eq!(pr.project, "mull");
    assert!(pr.worktree.is_none());
}

#[test]
fn test_project_ref_parse_with_worktree() {
    let pr = ProjectRef::parse("mull/discord").unwrap();
    assert_eq!(pr.project, "mull");
    assert_eq!(pr.worktree.as_deref(), Some("discord"));
}

#[test]
fn test_project_ref_parse_too_many_parts() {
    assert!(ProjectRef::parse("mull/discord/extra").is_err());
}

#[test]
fn test_project_ref_parse_leading_slash() {
    assert!(ProjectRef::parse("/discord").is_err());
}

#[test]
fn test_project_ref_parse_trailing_slash() {
    assert!(ProjectRef::parse("mull/").is_err());
}

#[test]
fn test_project_ref_parse_empty() {
    assert!(ProjectRef::parse("").is_err());
}

#[test]
fn test_db_name_basic() {
    let cfg = DatabaseConfig {
        url_template: String::new(),
        setup_command: None,
        env_var: None,
    };
    assert_eq!(cfg.db_name("mull", "feature-auth"), "mull_feature_auth");
    assert_eq!(cfg.db_name("my-project", "add-users"), "my_project_add_users");
}

#[test]
fn test_db_name_case_and_special_chars() {
    let cfg = DatabaseConfig {
        url_template: String::new(),
        setup_command: None,
        env_var: None,
    };
    assert_eq!(cfg.db_name("Mull", "Feature"), "mull_feature");
    assert_eq!(cfg.db_name("my.project", "feat"), "my_project_feat");
    assert_eq!(cfg.db_name("has spaces", "feat"), "has_spaces_feat");
}

#[test]
fn test_database_url_template() {
    let cfg = DatabaseConfig {
        url_template: "postgres:///{{db_name}}".to_string(),
        setup_command: None,
        env_var: None,
    };
    assert_eq!(cfg.database_url("mull", "feature"), "postgres:///mull_feature");

    let cfg2 = DatabaseConfig {
        url_template: "postgres://localhost:5432/{{db_name}}".to_string(),
        setup_command: None,
        env_var: None,
    };
    assert_eq!(
        cfg2.database_url("mull", "feature"),
        "postgres://localhost:5432/mull_feature"
    );
}

#[test]
fn test_env_var_name_default() {
    let cfg = DatabaseConfig {
        url_template: String::new(),
        setup_command: None,
        env_var: None,
    };
    assert_eq!(cfg.env_var_name(), "DATABASE_URL");
}

#[test]
fn test_env_var_name_custom() {
    let cfg = DatabaseConfig {
        url_template: String::new(),
        setup_command: None,
        env_var: Some("DB_URL".to_string()),
    };
    assert_eq!(cfg.env_var_name(), "DB_URL");
}

#[test]
fn test_effective_name_explicit() {
    let config = RepoConfig {
        name: Some("mull".to_string()),
        ..Default::default()
    };
    assert_eq!(config.effective_name("/home/user/code/my-repo"), "mull");
}

#[test]
fn test_effective_name_fallback_to_dir() {
    let config = RepoConfig::default();
    assert_eq!(config.effective_name("/home/user/code/my-repo"), "my-repo");
}

#[test]
fn test_merge_project_repo_only() {
    let repo = RepoConfig {
        database: Some(DatabaseConfig {
            url_template: "postgres:///{{db_name}}".to_string(),
            setup_command: None,
            env_var: None,
        }),
        hooks: Some(HooksConfig {
            post_create: vec!["yarn install".to_string()],
        }),
        ..Default::default()
    };
    let merged = merge_project(Some(&repo), None, "/tmp/repo".to_string());
    assert_eq!(merged.path, "/tmp/repo");
    assert!(merged.database.is_some());
    assert!(merged.hooks.is_some());
    assert!(merged.worktree_base.is_none());
}

#[test]
fn test_merge_project_user_overrides_repo() {
    let repo = RepoConfig {
        database: Some(DatabaseConfig {
            url_template: "postgres:///{{db_name}}".to_string(),
            setup_command: None,
            env_var: None,
        }),
        ..Default::default()
    };
    let user = Project {
        path: "/tmp/repo".to_string(),
        worktree_base: Some("/tmp/worktrees".to_string()),
        database: Some(DatabaseConfig {
            url_template: "postgres://localhost/{{db_name}}".to_string(),
            setup_command: Some("migrate".to_string()),
            env_var: None,
        }),
        hooks: None,
    };
    let merged = merge_project(Some(&repo), Some(&user), user.path.clone());
    assert_eq!(
        merged.database.as_ref().unwrap().url_template,
        "postgres://localhost/{{db_name}}"
    );
    assert_eq!(merged.worktree_base, Some("/tmp/worktrees".to_string()));
    assert!(merged.hooks.is_none());
}

#[test]
fn test_merge_project_repo_fills_gaps() {
    let repo = RepoConfig {
        hooks: Some(HooksConfig {
            post_create: vec!["setup.sh".to_string()],
        }),
        ..Default::default()
    };
    let user = Project {
        path: "/tmp/repo".to_string(),
        worktree_base: None,
        database: None,
        hooks: None,
    };
    let merged = merge_project(Some(&repo), Some(&user), user.path.clone());
    assert!(merged.hooks.is_some());
    assert_eq!(merged.hooks.unwrap().post_create, vec!["setup.sh"]);
}

#[test]
fn test_load_merged_env_repo_layer() {
    let mut repo_env: OrderedMap<String> = OrderedMap::new();
    repo_env.insert("REPO_VAR".to_string(), "from_repo".to_string());

    // A project without an env file has no variables of its own; the repo
    // layer comes through as the base.
    let project_env = EnvVars::default();
    let merged = load_merged_env(&repo_env, &project_env.vars, None);
    assert_eq!(merged.len(), 1);
    assert_eq!(merged[0].key, "REPO_VAR");
    assert_eq!(merged[0].value, "from_repo");
    assert!(matches!(merged[0].source, EnvSource::Repo));
}

#[test]
fn test_load_merged_env_empty_layers() {
    let repo_env: OrderedMap<String> = OrderedMap::new();
    let project_env = EnvVars::default();
    let merged = load_merged_env(&repo_env, &project_env.vars, None);
    assert!(merged.is_empty());
}
