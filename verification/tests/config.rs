use time_ledger::config::{
    expand_home, format_config_paths_for_message, path_join, resolve_ledger_dir_with_context,
    ConfigError, ConfigProbe, ResolveContext,
};

fn context(xdg: Option<&str>, home: Option<&str>) -> ResolveContext {
    ResolveContext {
        xdg_config_home: xdg.map(|s| s.to_string()),
        home_dir: home.map(|s| s.to_string()),
    }
}

#[test]
fn errors_when_no_cli_and_no_config_is_present() {
    let ctx = context(None, None);
    let err = resolve_ledger_dir_with_context(None, &ctx, &Vec::new())
        .expect_err("missing config should return an explicit error");
    match err {
        ConfigError::MissingLedgerDir { searched_paths } => {
            assert!(searched_paths.is_empty());
        }
        _ => panic!("expected missing ledger dir error"),
    }
}

#[test]
fn missing_ledger_dir_message_uses_or_between_config_paths() {
    let err = ConfigError::MissingLedgerDir {
        searched_paths: vec![
            "/tmp/xdg/time-ledger/config.toml".to_string(),
            "/tmp/home/.config/time-ledger/config.toml".to_string(),
        ],
    };

    let message = err.message();
    assert!(message.contains("create a config file in:"));
    assert!(message.contains(
        "'/tmp/xdg/time-ledger/config.toml' or '/tmp/home/.config/time-ledger/config.toml'"
    ));
}

#[test]
fn candidates_are_xdg_then_home() {
    let ctx = context(Some("/tmp/xdg"), Some("/tmp/home"));
    assert_eq!(
        ctx.config_candidates(),
        vec![
            "/tmp/xdg/time-ledger/config.toml".to_string(),
            "/tmp/home/.config/time-ledger/config.toml".to_string(),
        ]
    );
    let same = context(Some("/tmp/home/.config"), Some("/tmp/home"));
    assert_eq!(
        same.config_candidates(),
        vec!["/tmp/home/.config/time-ledger/config.toml".to_string()]
    );
}

#[test]
fn cli_flag_overrides_config_file() {
    let ctx = context(Some("/tmp/xdg-override"), None);
    let probes = vec![ConfigProbe::LedgerDir("/tmp/from-config".to_string())];
    let dir = resolve_ledger_dir_with_context(Some("/tmp/from-cli"), &ctx, &probes)
        .expect("cli value should win");
    assert_eq!(dir, "/tmp/from-cli");
}

#[test]
fn xdg_config_takes_precedence_over_home_config() {
    let ctx = context(Some("/tmp/xdg-precedence"), Some("/tmp/home-precedence"));
    let probes = vec![
        ConfigProbe::LedgerDir("/tmp/from-xdg".to_string()),
        ConfigProbe::LedgerDir("/tmp/from-home".to_string()),
    ];
    let dir = resolve_ledger_dir_with_context(None, &ctx, &probes).expect("xdg config should load");
    assert_eq!(dir, "/tmp/from-xdg");
}

#[test]
fn home_config_is_used_when_xdg_is_absent() {
    let ctx = context(None, Some("/tmp/home-only"));
    assert_eq!(
        ctx.config_candidates(),
        vec!["/tmp/home-only/.config/time-ledger/config.toml".to_string()]
    );
    let probes = vec![ConfigProbe::LedgerDir("/tmp/from-home".to_string())];
    let dir = resolve_ledger_dir_with_context(None, &ctx, &probes).expect("home config should load");
    assert_eq!(dir, "/tmp/from-home");
}

#[test]
fn missing_xdg_config_falls_back_to_home_config() {
    let ctx = context(Some("/tmp/xdg"), Some("/tmp/home"));
    let probes = vec![
        ConfigProbe::Missing,
        ConfigProbe::LedgerDir("/tmp/from-home".to_string()),
    ];
    let dir = resolve_ledger_dir_with_context(None, &ctx, &probes).expect("home config should load");
    assert_eq!(dir, "/tmp/from-home");
}

#[test]
fn parse_errors_include_config_path() {
    let ctx = context(Some("/tmp/parse-error"), None);
    let probes = vec![ConfigProbe::Unparsable("invalid type".to_string())];
    match resolve_ledger_dir_with_context(None, &ctx, &probes) {
        Err(ConfigError::Parse { path, message }) => {
            assert_eq!(path, "/tmp/parse-error/time-ledger/config.toml");
            assert_eq!(message, "invalid type");
        }
        other => panic!("expected parse error, got {other:?}"),
    }
}

#[test]
fn read_errors_include_config_path() {
    let ctx = context(Some("/tmp/xdg"), None);
    let probes = vec![ConfigProbe::Unreadable("permission denied".to_string())];
    let err = resolve_ledger_dir_with_context(None, &ctx, &probes).expect_err("read should fail");
    assert_eq!(
        err.message(),
        "failed to read config file '/tmp/xdg/time-ledger/config.toml': permission denied"
    );
}

#[test]
fn all_candidates_missing_lists_them() {
    let ctx = context(Some("/tmp/xdg"), Some("/tmp/home"));
    let probes = vec![ConfigProbe::Missing, ConfigProbe::Missing];
    let err = resolve_ledger_dir_with_context(None, &ctx, &probes).expect_err("nothing found");
    assert_eq!(
        err.message(),
        "no ledger directory configured. Pass --ledger-dir DIR, or create a config file in: '/tmp/xdg/time-ledger/config.toml' or '/tmp/home/.config/time-ledger/config.toml'"
    );
    let none = ConfigError::MissingLedgerDir {
        searched_paths: Vec::new(),
    };
    assert_eq!(
        none.message(),
        "no ledger directory configured. Pass --ledger-dir DIR, or set HOME/XDG_CONFIG_HOME and create a config file"
    );
}

#[test]
fn tilde_paths_are_expanded_against_home_directory() {
    let ctx = context(None, Some("/tmp/tilde-expand"));
    let probes = vec![ConfigProbe::LedgerDir("~/ledger-root".to_string())];
    let dir = resolve_ledger_dir_with_context(None, &ctx, &probes).expect("tilde path should expand");
    assert_eq!(dir, "/tmp/tilde-expand/ledger-root");
}

#[test]
fn expand_home_handles_bare_tilde_and_other_users() {
    assert_eq!(expand_home("~/ledger-root", Some("/home/u")), "/home/u/ledger-root");
    assert_eq!(expand_home("~", Some("/home/u")), "/home/u");
    assert_eq!(expand_home("~other/x", Some("/home/u")), "~other/x");
    assert_eq!(expand_home("~/x", None), "~/x");
}

#[test]
fn config_paths_are_quoted_and_joined_with_or() {
    assert_eq!(format_config_paths_for_message(&Vec::new()), "");
    assert_eq!(format_config_paths_for_message(&vec!["/a".to_string()]), "'/a'");
    assert_eq!(
        format_config_paths_for_message(&vec!["/a".to_string(), "/b".to_string(), "/c".to_string()]),
        "'/a', '/b' or '/c'"
    );
}

#[test]
fn path_join_follows_unix_rules() {
    assert_eq!(path_join("/tmp", "x"), "/tmp/x");
    assert_eq!(path_join("/tmp/", "x"), "/tmp/x");
    assert_eq!(path_join("/tmp", "/abs"), "/abs");
    assert_eq!(path_join("", "x"), "x");
}
