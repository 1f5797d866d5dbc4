//! The embedded master template holds what the tool promises to seed.

use mms::model::McpCatalogue;
use mms::scopes::MasterCatalogue;

fn parse_template() -> McpCatalogue {
    let text = MasterCatalogue::template_text();
    mms::model::parse_catalogue(&text).expect("Embedded master catalogue should be valid JSON")
}

#[test]
fn embedded_json_is_valid() {
    let catalogue = parse_template();
    assert!(!catalogue.mcp_servers.is_empty(), "Master catalogue should contain servers");
}

#[test]
fn all_servers_have_required_fields() {
    let catalogue = parse_template();
    for (name, server) in &catalogue.mcp_servers {
        assert!(server.command.is_some(), "Server '{}' should have a command", name);
        assert!(
            !server.command.as_ref().unwrap().is_empty(),
            "Server '{}' command should not be empty",
            name
        );
    }
}

#[test]
fn env_placeholders_are_well_formed() {
    let catalogue = parse_template();
    for (name, server) in &catalogue.mcp_servers {
        for (env_key, env_value) in &server.env {
            if env_value.starts_with("${") && env_value.ends_with('}') {
                let var_name = &env_value[2..env_value.len() - 1];
                assert!(
                    !var_name.is_empty(),
                    "Server '{}' env var '{}' has empty placeholder",
                    name,
                    env_key
                );
                assert!(
                    !var_name.contains(char::is_whitespace),
                    "Server '{}' env var '{}' placeholder contains whitespace",
                    name,
                    env_key
                );
            }
        }
    }
}

#[test]
fn server_names_are_unique() {
    let catalogue = parse_template();
    let mut seen_names = std::collections::HashSet::new();
    for (name, _) in &catalogue.mcp_servers {
        assert!(seen_names.insert(name), "Duplicate server name: {}", name);
    }
}
