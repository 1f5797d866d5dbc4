//! Scope flows: init decisions, expansion scope, add/remove, discovery,
//! cleanup planning and path resolution.

use mms::cli::CleanSelection;
use mms::commands::{add_servers, any_added, clean_operations, remove_server, AddOutcome};
use mms::error::AppError;
use mms::expand::expand_value;
use mms::model::{parse_catalogue, serialize_catalogue, McpCatalogue};
use mms::paths::MmsPaths;
use mms::scopes::{GlobalCatalogue, LocalCatalogue, MasterCatalogue};

fn test_paths() -> MmsPaths {
    MmsPaths::new(Some("/home/user".to_string())).expect("home given")
}

#[test]
fn paths_are_derived_from_home() {
    let p = test_paths();
    assert_eq!(p.global_catalogue_path(), "/home/user/.mcp.json");
    assert_eq!(p.master_catalogue_path(), "/home/user/.config/mms/master.json");
    assert_eq!(p.codex_dir(), "/home/user/.codex");
    assert_eq!(p.codex_config_path(), "/home/user/.codex/config.toml");
    assert_eq!(p.config_dir(), "/home/user/.config/mms");
}

#[test]
fn missing_home_is_a_config_error() {
    match MmsPaths::new(None) {
        Err(AppError::Config(_)) => {},
        _ => panic!("expected a configuration error"),
    }
}

#[test]
fn init_twice_fails_with_config_error() {
    let first = LocalCatalogue::init_empty("/work", false);
    assert!(first.is_ok());
    match LocalCatalogue::init_empty("/work", true) {
        Err(AppError::Config(_)) => {},
        _ => panic!("second init must fail with a configuration error"),
    }
    match LocalCatalogue::init_from_global("/work", true, &McpCatalogue::empty()) {
        Err(AppError::Config(_)) => {},
        _ => panic!("second init must fail with a configuration error"),
    }
}

#[test]
fn init_empty_writes_empty_catalogue() {
    let (path, content) = LocalCatalogue::init_empty("/work", false).expect("init");
    assert_eq!(path, "/work/.mcp.json");
    let json: serde_json::Value = serde_json::from_str(&content).expect("valid json");
    assert_eq!(json["mcpServers"].as_object().unwrap().len(), 0);
}

#[test]
fn init_from_global_is_byte_identical_to_global() {
    let master = MasterCatalogue::embedded();
    let env: Vec<(String, String)> = vec![("CONTEXT7_API_KEY".to_string(), "k".to_string())];
    let global = GlobalCatalogue::derive(&master, &env);
    let global_file = serialize_catalogue(&global);
    let (_, local_file) =
        LocalCatalogue::init_from_global("/work", false, &global).expect("init");
    assert_eq!(local_file, global_file);
    assert!(local_file.contains("context7"));
}

#[test]
fn substitution_applies_only_at_derivation() {
    let env = vec![("FOO".to_string(), "bar".to_string())];
    assert_eq!(expand_value(&"${FOO}".to_string(), &env), "bar");
    assert_eq!(expand_value(&"${MISSING}".to_string(), &env), "${MISSING}");
    assert_eq!(expand_value(&"bar".to_string(), &env), "bar");
    assert_eq!(expand_value(&"${}".to_string(), &env), "${}");
    assert_eq!(expand_value(&"$FOO".to_string(), &env), "$FOO");
    let changed = vec![("FOO".to_string(), "other".to_string())];
    assert_eq!(expand_value(&"bar".to_string(), &changed), "bar");
}

#[test]
fn derived_global_stores_substituted_values() {
    let master = MasterCatalogue::embedded();
    let env = vec![("CONTEXT7_API_KEY".to_string(), "secret".to_string())];
    let global = GlobalCatalogue::derive(&master, &env);
    let c7 = &global.mcp_servers[0];
    assert_eq!(c7.0, "context7");
    assert_eq!(c7.1.env[0].1, "secret");
}

#[test]
fn add_and_remove_update_local_catalogue() {
    let master = MasterCatalogue::embedded();
    let global = GlobalCatalogue::derive(&master, &Vec::new());
    let mut local = McpCatalogue::empty();
    let names = vec!["context7".to_string(), "serena".to_string(), "ghost".to_string()];
    let outcomes = add_servers(&mut local, &global, &names);
    assert_eq!(outcomes, vec![AddOutcome::Added, AddOutcome::Added, AddOutcome::NotFound]);
    assert!(any_added(&outcomes));
    assert_eq!(local.mcp_servers.len(), 2);
    assert_eq!(local.mcp_servers[0].0, "context7");
    assert_eq!(local.mcp_servers[1].0, "serena");

    let again = add_servers(&mut local, &global, &vec!["context7".to_string()]);
    assert_eq!(again, vec![AddOutcome::AlreadyPresent]);
    assert!(!any_added(&again));

    assert!(remove_server(&mut local, "context7"));
    assert!(!remove_server(&mut local, "context7"));
    assert_eq!(local.mcp_servers.len(), 1);
    assert_eq!(local.mcp_servers[0].0, "serena");
}

#[test]
fn discovery_returns_first_hit() {
    let cands = LocalCatalogue::candidate_paths("/a/b/c");
    assert_eq!(
        cands,
        vec![
            "/a/b/c/.mcp.json".to_string(),
            "/a/b/.mcp.json".to_string(),
            "/a/.mcp.json".to_string(),
            "/.mcp.json".to_string(),
        ]
    );
    // A catalogue at /a only: the walk from /a/b/c finds it.
    let present = vec![false, false, true, false];
    let hit = LocalCatalogue::pick_first_present(&cands, &present).expect("hit");
    assert_eq!(cands[hit], "/a/.mcp.json");
    // One created later at /a/b would win instead, being nearer.
    let later = vec![false, true, true, false];
    let hit2 = LocalCatalogue::pick_first_present(&cands, &later).expect("hit");
    assert_eq!(cands[hit2], "/a/b/.mcp.json");
    assert_eq!(LocalCatalogue::pick_first_present(&cands, &vec![false; 4]), None);
}

#[test]
fn relative_paths_walk_to_empty_root() {
    let cands = LocalCatalogue::candidate_paths("a/b");
    assert_eq!(
        cands,
        vec!["a/b/.mcp.json".to_string(), "a/.mcp.json".to_string(), "/.mcp.json".to_string()]
    );
}

#[test]
fn clean_selection_normalises() {
    let none = CleanSelection {
        all: false,
        local: false,
        gemini: false,
        codex: false,
        global: false,
        master: false,
        dry_run: false,
    };
    let defaulted = none.normalised();
    assert!(defaulted.local && !defaulted.gemini && !defaulted.codex);
    let all = CleanSelection { all: true, dry_run: true, ..none };
    let expanded = all.normalised();
    assert!(
        expanded.local && expanded.gemini && expanded.codex && expanded.global && expanded.master
            && expanded.dry_run
    );
}

#[test]
fn clean_operations_list_selected_paths() {
    let paths = test_paths();
    let sel = CleanSelection {
        all: false,
        local: true,
        gemini: true,
        codex: true,
        global: true,
        master: true,
        dry_run: false,
    };
    let discovered = "/proj/.mcp.json".to_string();
    let ops = clean_operations(sel, Some(&discovered), "/proj/sub", &paths);
    let pairs: Vec<(String, String)> = ops;
    assert_eq!(pairs.len(), 5);
    assert_eq!(pairs[0].1, "/proj/.mcp.json");
    assert_eq!(pairs[1].1, "/proj/.gemini/settings.json");
    assert_eq!(pairs[2].1, "/home/user/.codex/config.toml");
    assert_eq!(pairs[3].1, "/home/user/.config/mms/master.json");
    assert_eq!(pairs[4].1, "/home/user/.mcp.json");

    let only_local = CleanSelection { local: true, global: false, gemini: false, codex: false, master: false, ..sel };
    let ops2 = clean_operations(only_local, None, "/proj/sub", &paths);
    assert_eq!(ops2.len(), 0);
}

#[test]
fn error_messages_name_their_kind() {
    assert!(AppError::Config("x".to_string()).message().starts_with("configuration error"));
    assert!(AppError::MissingFile("p".to_string()).message().contains("not found"));
    assert!(AppError::Json("j".to_string()).message().starts_with("json error"));
    assert!(AppError::Toml("t".to_string()).message().starts_with("toml error"));
}

#[test]
fn absent_global_file_is_a_missing_file_error() {
    match GlobalCatalogue::load(None, "/home/user/.mcp.json") {
        Err(AppError::MissingFile(p)) => assert_eq!(p, "/home/user/.mcp.json"),
        _ => panic!("an absent global file must be a missing-file error"),
    }
}

#[test]
fn undiscovered_local_catalogue_is_a_config_error() {
    match LocalCatalogue::load(None) {
        Err(AppError::Config(m)) => assert!(m.contains("No .mcp.json")),
        _ => panic!("a project without a catalogue must be a configuration error"),
    }
    let contents = "{\"mcpServers\":{}}".to_string();
    assert!(LocalCatalogue::load(Some(&contents)).is_ok());
}

#[test]
fn message_prefixes_are_exact() {
    assert_eq!(AppError::Config("x".to_string()).message(), "configuration error: x");
    assert_eq!(AppError::MissingEnv("HOME".to_string()).message(), "environment variable not set: HOME");
    assert_eq!(AppError::Io("boom".to_string()).message(), "i/o error: boom");
}
