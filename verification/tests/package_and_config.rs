use bunsan::extensions::executor::{declared_binary_name, locate_binary, ExecutorError};
use bunsan::extensions::manager::{install_config, uninstall_config};
use bunsan::json::{json_member, json_nested_str, parse_json_text, JsonValue};
use bunsan::server::extension_arguments;

fn pairs(p: &[(&str, &str)]) -> Vec<(String, String)> {
    p.iter().map(|(a, b)| (a.to_string(), b.to_string())).collect()
}

fn str_value(doc: &toml_edit::DocumentMut, table: &str, name: &str, key: &str) -> Option<String> {
    doc.get(table)?.get(name)?.get(key)?.as_str().map(|s| s.to_string())
}

#[test]
fn json_text_is_parsed() {
    let j = parse_json_text(r#"{"a": {"b": "c", "n": 5}, "l": [true, null]}"#).unwrap();
    assert_eq!(json_nested_str(&j, "a", "b"), Some("c"));
    assert_eq!(json_nested_str(&j, "a", "n"), None);
    assert_eq!(json_nested_str(&j, "x", "b"), None);
    assert!(matches!(json_member(&j, "l"), Some(JsonValue::Array(v)) if v.len() == 2));
    assert!(matches!(json_member(&j, "a").and_then(|o| json_member(o, "n")), Some(JsonValue::Number(n)) if n == "5"));
    assert!(json_member(&j, "missing").is_none());
    assert!(parse_json_text("{not json").is_none());
    assert!(matches!(parse_json_text("\"text\""), Some(JsonValue::String(s)) if s == "text"));
}

#[test]
fn member_of_a_non_object_is_none() {
    let j = parse_json_text("[1, 2]").unwrap();
    assert!(json_member(&j, "0").is_none());
}

#[test]
fn binary_name_from_package_json() {
    let pkg = r#"{"name": "wallet", "bunsan": {"binary_name": "wallet-bin"}}"#;
    assert_eq!(declared_binary_name(pkg, "wallet"), Ok("wallet-bin".to_string()));
}

#[test]
fn binary_name_defaults_to_extension_name() {
    assert_eq!(declared_binary_name(r#"{"name": "wallet"}"#, "wallet"), Ok("wallet".to_string()));
    assert_eq!(
        declared_binary_name(r#"{"bunsan": {"binary_name": 7}}"#, "wallet"),
        Ok("wallet".to_string())
    );
    assert_eq!(declared_binary_name("[]", "wallet"), Ok("wallet".to_string()));
}

#[test]
fn invalid_package_json_is_an_error() {
    assert_eq!(declared_binary_name("{", "wallet"), Err(ExecutorError::InvalidPackageJson));
    assert_eq!(
        locate_binary("{", "wallet", "plan9", "mips"),
        Err(ExecutorError::InvalidPackageJson)
    );
}

#[test]
fn binary_location_per_platform() {
    let pkg = r#"{"bunsan": {"binary_name": "tool"}}"#;
    assert_eq!(
        locate_binary(pkg, "wallet", "linux", "x86_64"),
        Ok(("tool-linux-x64".to_string(), "tool".to_string()))
    );
    assert_eq!(
        locate_binary(pkg, "wallet", "linux", "riscv64"),
        Err(ExecutorError::UnsupportedPlatform)
    );
}

#[test]
fn extension_arguments_are_flags_then_body() {
    let args = extension_arguments(
        &pairs(&[("address", "0xabc")]),
        &pairs(&[("limit", "10"), ("page", "2")]),
        Some("{\"x\":1}"),
    );
    assert_eq!(args, vec!["--address", "0xabc", "--limit", "10", "--page", "2", "--body", "{\"x\":1}"]);
    let none = extension_arguments(&Vec::new(), &Vec::new(), None);
    assert!(none.is_empty());
}

#[test]
fn install_adds_extension_table() {
    let config = "# settings\n[server]\nport = 8080\n";
    let out = install_config(config, "wallet", "API_URL=https://x.example\nKEY=1\n").unwrap();
    assert!(out.starts_with("# settings\n[server]\nport = 8080\n"));
    let doc: toml_edit::DocumentMut = out.parse().unwrap();
    assert_eq!(str_value(&doc, "extensions", "wallet", "name"), Some("wallet".to_string()));
    assert_eq!(str_value(&doc, "extensions", "wallet", "API_URL"), Some("https://x.example".to_string()));
    assert_eq!(str_value(&doc, "extensions", "wallet", "KEY"), Some("1".to_string()));
    assert_eq!(doc["server"]["port"].as_integer(), Some(8080));
}

#[test]
fn install_overwrites_existing_settings() {
    let config = "[extensions.wallet]\nname = \"old\"\nKEY = \"0\"\nOTHER = \"kept\"\n";
    let out = install_config(config, "wallet", "KEY=1\n").unwrap();
    let doc: toml_edit::DocumentMut = out.parse().unwrap();
    assert_eq!(str_value(&doc, "extensions", "wallet", "name"), Some("wallet".to_string()));
    assert_eq!(str_value(&doc, "extensions", "wallet", "KEY"), Some("1".to_string()));
    assert_eq!(str_value(&doc, "extensions", "wallet", "OTHER"), Some("kept".to_string()));
}

#[test]
fn install_rejects_non_table_extensions() {
    assert_eq!(
        install_config("extensions = 5\n", "wallet", "KEY=1\n"),
        Err("extensions and its entry for the extension should be tables".to_string())
    );
    assert_eq!(
        install_config("[extensions]\nwallet = 3\n", "wallet", "KEY=1\n"),
        Err("extensions and its entry for the extension should be tables".to_string())
    );
    let parse_error = "[server\n".parse::<toml_edit::DocumentMut>().unwrap_err().to_string();
    assert_eq!(install_config("[server\n", "wallet", "KEY=1\n"), Err(parse_error));
}

#[test]
fn install_rejects_bad_env_example() {
    let e = install_config("[server]\n", "wallet", "=novalue\n").unwrap_err();
    assert!(e.starts_with("Failed to parse .env file: "));
}

#[test]
fn uninstall_removes_extension_table() {
    let config = "[extensions.wallet]\nname = \"wallet\"\n\n[extensions.other]\nname = \"other\"\n";
    let out = uninstall_config(config, "wallet").unwrap();
    let doc: toml_edit::DocumentMut = out.parse().unwrap();
    assert!(doc["extensions"].get("wallet").is_none());
    assert_eq!(str_value(&doc, "extensions", "other", "name"), Some("other".to_string()));
    assert_eq!(uninstall_config("[server]\nport = 1\n", "wallet"), Ok("[server]\nport = 1\n".to_string()));
    let parse_error = "[server".parse::<toml_edit::DocumentMut>().unwrap_err().to_string();
    assert_eq!(uninstall_config("[server", "wallet"), Err(parse_error));
}
