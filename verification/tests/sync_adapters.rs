//! The two external projections: JSON settings merge and TOML block
//! replacement, their idempotence and their independence.

use mms::codex::CodexSync;
use mms::error::AppError;
use mms::gemini::GeminiSync;
use mms::model::{parse_catalogue, McpCatalogue};
use mms::scopes::{GlobalCatalogue, MasterCatalogue};

fn sample_catalogue() -> McpCatalogue {
    let master = MasterCatalogue::embedded();
    GlobalCatalogue::derive(&master, &Vec::new())
}

#[test]
fn gemini_creates_settings_when_absent() {
    let out = GeminiSync::sync(None, &sample_catalogue()).expect("sync");
    let json: serde_json::Value = serde_json::from_str(&out).expect("valid json");
    assert!(json["mcpServers"].as_object().unwrap().contains_key("context7"));
}

#[test]
fn gemini_preserves_sibling_keys() {
    let existing = "{\"theme\":\"dark\",\"mcpServers\":{\"old\":{}},\"auto\":true}".to_string();
    let out = GeminiSync::sync(Some(&existing), &sample_catalogue()).expect("sync");
    let json: serde_json::Value = serde_json::from_str(&out).expect("valid json");
    assert_eq!(json["theme"], "dark");
    assert_eq!(json["auto"], true);
    assert!(!json["mcpServers"].as_object().unwrap().contains_key("old"));
    assert!(json["mcpServers"].as_object().unwrap().contains_key("serena"));
}

#[test]
fn gemini_sync_is_idempotent() {
    let cat = sample_catalogue();
    let existing = "{\"keep\":1}".to_string();
    let first = GeminiSync::sync(Some(&existing), &cat).expect("first sync");
    let second = GeminiSync::sync(Some(&first), &cat).expect("second sync");
    assert_eq!(first, second);
}

#[test]
fn gemini_rejects_non_object_settings() {
    let existing = "[1,2,3]".to_string();
    match GeminiSync::sync(Some(&existing), &sample_catalogue()) {
        Err(AppError::Config(_)) => {},
        _ => panic!("a non-object settings file must be a configuration error"),
    }
    let broken = "{not json".to_string();
    match GeminiSync::sync(Some(&broken), &sample_catalogue()) {
        Err(AppError::Json(_)) => {},
        _ => panic!("an unparsable settings file must be a format error"),
    }
}

#[test]
fn gemini_empty_catalogue_yields_empty_mapping() {
    let out = GeminiSync::sync(None, &McpCatalogue::empty()).expect("sync");
    let json: serde_json::Value = serde_json::from_str(&out).expect("valid json");
    assert_eq!(json["mcpServers"].as_object().unwrap().len(), 0);
}

#[test]
fn codex_absent_target_is_skipped_not_an_error() {
    let r = CodexSync::sync(None, &sample_catalogue()).expect("sync");
    assert!(r.is_none());
}

#[test]
fn codex_rewrites_owned_block_and_preserves_others() {
    let existing = "[general]\nprofile = \"test\"\n\n[mcp_servers.stale]\ncommand = \"old\"\n"
        .to_string();
    let out = CodexSync::sync(Some(&existing), &sample_catalogue())
        .expect("sync")
        .expect("present target is rewritten");
    assert!(out.contains("[general]"));
    assert!(out.contains("profile = \"test\""));
    assert!(!out.contains("stale"));
    assert!(out.contains("[mcp_servers.context7]"));
    assert!(out.contains("command"));
    let doc: toml_edit::DocumentMut = out.parse().expect("output is valid TOML");
    let servers = doc["mcp_servers"].as_table().expect("owned table present");
    assert!(servers.contains_key("context7"));
    assert!(servers.contains_key("serena"));
    assert_eq!(
        doc["mcp_servers"]["context7"]["command"].as_str(),
        Some("npx")
    );
    assert_eq!(
        doc["mcp_servers"]["context7"]["args"][0].as_str(),
        Some("-y")
    );
}

#[test]
fn codex_sync_is_idempotent() {
    let cat = sample_catalogue();
    let existing = "[general]\nprofile = \"test\"\n".to_string();
    let first = CodexSync::sync(Some(&existing), &cat).expect("sync").expect("written");
    let second = CodexSync::sync(Some(&first), &cat).expect("sync").expect("written");
    assert_eq!(first, second);
}

#[test]
fn codex_empty_catalogue_yields_empty_block() {
    let existing = "[general]\n".to_string();
    let out = CodexSync::sync(Some(&existing), &McpCatalogue::empty())
        .expect("sync")
        .expect("written");
    let doc: toml_edit::DocumentMut = out.parse().expect("output is valid TOML");
    let servers = doc["mcp_servers"].as_table().expect("owned table present");
    assert_eq!(servers.len(), 0);
    assert!(out.contains("[general]"));
}

#[test]
fn codex_invalid_toml_is_a_format_error() {
    let existing = "not = = toml".to_string();
    match CodexSync::sync(Some(&existing), &sample_catalogue()) {
        Err(AppError::Toml(_)) => {},
        _ => panic!("an unparsable configuration must be a format error"),
    }
}

#[test]
fn codex_writes_only_present_fields() {
    let text = "{\"mcpServers\":{\"bare\":{},\"full\":{\"type\":\"stdio\",\"command\":\"c\",\"args\":[\"a\"],\"env\":{\"K\":\"v\"},\"timeout\":5,\"description\":\"ignored\"}}}";
    let cat = parse_catalogue(text).expect("parse");
    let out = CodexSync::sync(Some(&"".to_string()), &cat).expect("sync").expect("written");
    let doc: toml_edit::DocumentMut = out.parse().expect("valid TOML");
    let bare = doc["mcp_servers"]["bare"].as_table().expect("bare table");
    assert_eq!(bare.len(), 0);
    let full = doc["mcp_servers"]["full"].as_table().expect("full table");
    assert_eq!(full["type"].as_str(), Some("stdio"));
    assert_eq!(full["command"].as_str(), Some("c"));
    assert_eq!(full["timeout"].as_integer(), Some(5));
    assert_eq!(full["env"]["K"].as_str(), Some("v"));
    assert!(!full.contains_key("description"));
}
