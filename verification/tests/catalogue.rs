//! Catalogue model: serialization round trips, parsing, field shapes and
//! command rendering.

use mms::json::Json;
use mms::model::{parse_catalogue, serialize_catalogue, McpCatalogue, McpServer};

fn entry(command: &str, args: &[&str]) -> McpServer {
    McpServer {
        server_type: None,
        command: Some(command.to_string()),
        args: args.iter().map(|a| a.to_string()).collect(),
        env: Vec::new(),
        description: None,
        timeout: None,
        extra: Vec::new(),
    }
}

#[test]
fn round_trip_preserves_unknown_fields() {
    let mut server = entry("npx", &["-y", "tool"]);
    server.env.push(("KEY".to_string(), "value".to_string()));
    server.timeout = Some(30);
    server.extra.push(("zz_custom".to_string(), Json::Bool(true)));
    let catalogue = McpCatalogue {
        mcp_servers: vec![("alpha".to_string(), server)],
        extras: vec![("schema".to_string(), Json::Str("v1".to_string()))],
    };
    let text = serialize_catalogue(&catalogue);
    let back = parse_catalogue(&text).expect("round trip should parse");
    let text2 = serialize_catalogue(&back);
    assert_eq!(text, text2);
    assert!(text.contains("zz_custom"));
    assert!(text.contains("schema"));
    let again = parse_catalogue(&text2).expect("second round trip should parse");
    assert_eq!(serialize_catalogue(&again), text2);
}

#[test]
fn round_trip_exact_fields() {
    let mut server = entry("run me", &[" spaced arg ", "plain"]);
    server.description = Some("does things".to_string());
    let catalogue =
        McpCatalogue { mcp_servers: vec![("s".to_string(), server)], extras: Vec::new() };
    let text = serialize_catalogue(&catalogue);
    let back = parse_catalogue(&text).expect("parse");
    assert_eq!(back.mcp_servers.len(), 1);
    let (name, s) = &back.mcp_servers[0];
    assert_eq!(name, "s");
    assert_eq!(s.command.as_deref(), Some("run me"));
    assert_eq!(s.args, vec![" spaced arg ".to_string(), "plain".to_string()]);
    assert_eq!(s.description.as_deref(), Some("does things"));
}

#[test]
fn parse_accepts_whitespace_and_escapes() {
    let text = "  {\n  \"mcpServers\" : { \"a\" : { \"command\" : \"x\\ny\\\"z\" } }\n}  ";
    let c = parse_catalogue(text).expect("should parse");
    assert_eq!(c.mcp_servers.len(), 1);
    assert_eq!(c.mcp_servers[0].1.command.as_deref(), Some("x\ny\"z"));
}

#[test]
fn parse_sorts_names_and_takes_last_duplicate() {
    let text = "{\"mcpServers\":{\"b\":{},\"a\":{\"command\":\"one\"},\"a\":{\"command\":\"two\"}}}";
    let c = parse_catalogue(text).expect("should parse");
    assert_eq!(c.mcp_servers.len(), 2);
    assert_eq!(c.mcp_servers[0].0, "a");
    assert_eq!(c.mcp_servers[0].1.command.as_deref(), Some("two"));
    assert_eq!(c.mcp_servers[1].0, "b");
}

#[test]
fn parse_rejects_non_object_document() {
    assert!(parse_catalogue("[1,2]").is_err());
    assert!(parse_catalogue("null").is_err());
    assert!(parse_catalogue("not json at all").is_err());
}

#[test]
fn parse_rejects_wrong_field_shapes() {
    assert!(parse_catalogue("{\"mcpServers\":3}").is_err());
    assert!(parse_catalogue("{\"mcpServers\":{\"a\":{\"args\":\"nope\"}}}").is_err());
    assert!(parse_catalogue("{\"mcpServers\":{\"a\":{\"args\":[1]}}}").is_err());
    assert!(parse_catalogue("{\"mcpServers\":{\"a\":{\"env\":{\"k\":1}}}}").is_err());
    assert!(parse_catalogue("{\"mcpServers\":{\"a\":{\"timeout\":-1}}}").is_err());
    assert!(parse_catalogue("{\"mcpServers\":{\"a\":{\"timeout\":1.5}}}").is_err());
    assert!(
        parse_catalogue("{\"mcpServers\":{\"a\":{\"timeout\":99999999999999999999999}}}").is_err()
    );
}

#[test]
fn timeout_round_trips_as_integer() {
    let text = "{\"mcpServers\":{\"a\":{\"timeout\":86400}}}";
    let c = parse_catalogue(text).expect("parse");
    assert_eq!(c.mcp_servers[0].1.timeout, Some(86400));
    let out = serialize_catalogue(&c);
    assert!(out.contains("\"timeout\":86400"));
}

#[test]
fn serialized_output_is_valid_json_elsewhere() {
    let catalogue = McpCatalogue {
        mcp_servers: vec![("a".to_string(), entry("cmd", &["x"]))],
        extras: Vec::new(),
    };
    let text = serialize_catalogue(&catalogue);
    let json: serde_json::Value = serde_json::from_str(&text).expect("valid json");
    assert_eq!(json["mcpServers"]["a"]["command"], "cmd");
}

#[test]
fn empty_catalogue_serializes_to_empty_mapping() {
    let text = serialize_catalogue(&McpCatalogue::empty());
    let json: serde_json::Value = serde_json::from_str(&text).expect("valid json");
    assert_eq!(json["mcpServers"].as_object().unwrap().len(), 0);
}

#[test]
fn render_command_trims_and_quotes() {
    let mut s = entry("  npx  ", &["  -y  ", "two words", "plain"]);
    assert_eq!(s.render_command().as_deref(), Some("npx -y \"two words\" plain"));
    s.args.clear();
    assert_eq!(s.render_command().as_deref(), Some("npx"));
    s.command = None;
    assert!(s.render_command().is_none());
}

#[test]
fn json_documents_round_trip_through_text() {
    let text = "{\"n\":-12.5e3,\"arr\":[null,true,false,\"s\"],\"nested\":{\"k\":[{}]}}";
    let j = mms::json::parse_json(text).expect("parse");
    let out = mms::json::ser_json(&j);
    assert_eq!(out, text);
    let j2 = mms::json::parse_json(&out).expect("reparse");
    assert_eq!(mms::json::ser_json(&j2), text);
}

#[test]
fn json_string_escapes_round_trip() {
    let j = mms::json::Json::Str("a\"b\\c\nd\te\rf/g".to_string());
    let out = mms::json::ser_json(&j);
    assert_eq!(out, "\"a\\\"b\\\\c\\nd\\te\\rf/g\"");
    match mms::json::parse_json(&out).expect("parse") {
        mms::json::Json::Str(s) => assert_eq!(s, "a\"b\\c\nd\te\rf/g"),
        _ => panic!("expected a string document"),
    }
}
