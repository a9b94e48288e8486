use bunsan::extensions::executor::{executable_name, platform_folder, ExecutorError, ExtensionExecutor};
use bunsan::extensions::manager::{
    after_clone_attempt, binary_name_of, extension_settings, install_platform_folders, ArrayStyle,
    BunsanConfig, CloneAction, CloneError, CloneOutcome, ExtensionManager, PackageJson,
    ParameterConfig, ParameterSource, RegisterOutcome, RouteConfig, RouteTable,
};
use bunsan::server::{find_extension_route, ExtensionRouteError};
use std::path::PathBuf;

fn param(t: &str) -> ParameterConfig {
    ParameterConfig {
        name: "p".to_string(),
        param_type: t.to_string(),
        required: true,
        description: None,
        source: ParameterSource::Query,
        array_style: Some(ArrayStyle::Repeated),
    }
}

fn route(path: &str, method: &str, command: &str) -> RouteConfig {
    RouteConfig {
        path: path.to_string(),
        method: method.to_string(),
        command: command.to_string(),
        description: None,
        parameters: Some(vec![param("string")]),
    }
}

fn package(name: &str, binary: Option<&str>, routes: Option<Vec<RouteConfig>>, bunsan: bool) -> PackageJson {
    PackageJson {
        name: name.to_string(),
        version: "1.0.0".to_string(),
        description: Some("test".to_string()),
        main: "index.js".to_string(),
        bunsan: if bunsan {
            Some(BunsanConfig { binary_name: binary.map(|b| b.to_string()), routes })
        } else {
            None
        },
    }
}

fn manager() -> ExtensionManager {
    let ext = PathBuf::from("/tmp/ext");
    ExtensionManager::from_paths(
        PathBuf::from("/tmp/config.toml"),
        ExtensionExecutor::new(ext.clone()),
        ext,
    )
}

#[test]
fn array_types() {
    assert!(param("array").is_array_type());
    assert!(param("array<string>").is_array_type());
    assert!(param("string[]").is_array_type());
    assert!(!param("string").is_array_type());
    assert!(!param("[]string").is_array_type());
    assert!(!param("arra").is_array_type());
    assert!(!param("").is_array_type());
}

#[test]
fn route_table_reads_back_writes() {
    let mut t = RouteTable::new();
    assert_eq!(t.len(), 0);
    t.insert("a".to_string(), vec![route("/x", "GET", "x")]);
    t.insert("b".to_string(), vec![]);
    assert_eq!(t.len(), 2);
    assert_eq!(t.get("a").unwrap()[0].command, "x");
    t.insert("a".to_string(), vec![route("/y", "POST", "y"), route("/z", "GET", "z")]);
    assert_eq!(t.len(), 2);
    assert_eq!(t.get("a").unwrap().len(), 2);
    assert_eq!(t.get("a").unwrap()[1].command, "z");
    t.remove("a");
    assert!(t.get("a").is_none());
    assert_eq!(t.len(), 1);
    t.remove("missing");
    assert_eq!(t.len(), 1);
    let (name, routes) = t.entry(0);
    assert_eq!(name, "b");
    assert!(routes.is_empty());
}

#[test]
fn register_package_outcomes() {
    let mut m = manager();
    assert_eq!(m.register_package(&package("plain", None, None, false)), RegisterOutcome::NoBunsanConfig);
    assert_eq!(m.register_package(&package("noroutes", None, None, true)), RegisterOutcome::NoRoutes);
    assert_eq!(m.get_all_routes().len(), 0);
    let rs = vec![route("/balance/{address}", "GET", "balance"), route("/send", "POST", "send")];
    assert_eq!(m.register_package(&package("wallet", None, Some(rs), true)), RegisterOutcome::Loaded(2));
    assert_eq!(m.get_all_routes().len(), 1);
    assert_eq!(m.get_all_routes().get("wallet").unwrap()[1].command, "send");
    m.unregister("wallet");
    assert!(m.get_all_routes().get("wallet").is_none());
}

#[test]
fn extension_route_lookup() {
    let mut t = RouteTable::new();
    t.insert(
        "wallet".to_string(),
        vec![
            route("/balance/{address}", "GET", "balance"),
            route("/balance/{address}", "POST", "post-balance"),
            route("/balance/special", "GET", "special"),
        ],
    );
    assert_eq!(find_extension_route(&t, "nope", "/x", "GET"), Err(ExtensionRouteError::ExtensionNotFound));
    assert_eq!(find_extension_route(&t, "wallet", "/balance/0x1", "GET"), Ok(0));
    assert_eq!(find_extension_route(&t, "wallet", "/balance/0x1", "POST"), Ok(1));
    assert_eq!(find_extension_route(&t, "wallet", "/balance/special", "GET"), Ok(0));
    assert_eq!(find_extension_route(&t, "wallet", "/balance", "GET"), Err(ExtensionRouteError::RouteNotFound));
    assert_eq!(find_extension_route(&t, "wallet", "/balance/0x1", "PUT"), Err(ExtensionRouteError::RouteNotFound));
}

#[test]
fn binary_names() {
    assert_eq!(binary_name_of(&package("ext", Some("bin"), None, true)), "bin");
    assert_eq!(binary_name_of(&package("ext", None, None, true)), "ext");
    assert_eq!(binary_name_of(&package("ext", None, None, false)), "ext");
    assert_eq!(executable_name(Some("tool"), "ext"), "tool");
    assert_eq!(executable_name(None, "ext"), "ext");
}

#[test]
fn platform_folders() {
    assert_eq!(platform_folder("tool", "linux", "x86_64").ok(), Some("tool-linux-x64".to_string()));
    assert_eq!(platform_folder("tool", "macos", "aarch64").ok(), Some("tool-macos-arm64".to_string()));
    assert_eq!(platform_folder("tool", "macos", "x86_64").ok(), Some("tool-macos-x64".to_string()));
    assert_eq!(platform_folder("tool", "windows", "x86_64").ok(), Some("tool-win-x64.exe".to_string()));
    assert_eq!(platform_folder("tool", "linux", "aarch64").err(), Some(ExecutorError::UnsupportedPlatform));
    assert_eq!(platform_folder("tool", "freebsd", "x86_64").err(), Some(ExecutorError::UnsupportedPlatform));
}

#[test]
fn install_folders() {
    assert_eq!(
        install_platform_folders("tool"),
        vec!["tool-linux-x64".to_string(), "tool-macos-arm64".to_string(), "tool-macos-x64".to_string()]
    );
}

#[test]
fn clone_attempts() {
    assert_eq!(after_clone_attempt(1, CloneOutcome::Cloned), CloneAction::Done);
    assert_eq!(after_clone_attempt(1, CloneOutcome::TimedOut), CloneAction::RetryAfter(5));
    assert_eq!(
        after_clone_attempt(2, CloneOutcome::GitFailed("boom".to_string())),
        CloneAction::RetryAfter(5)
    );
    assert_eq!(
        after_clone_attempt(3, CloneOutcome::GitFailed("boom".to_string())),
        CloneAction::GiveUp(CloneError::GitFailed("boom".to_string()))
    );
    assert_eq!(
        after_clone_attempt(3, CloneOutcome::CommandFailed("no git".to_string())),
        CloneAction::GiveUp(CloneError::CommandFailed("no git".to_string()))
    );
    assert_eq!(after_clone_attempt(3, CloneOutcome::TimedOut), CloneAction::GiveUp(CloneError::TimedOut));
    assert_eq!(after_clone_attempt(3, CloneOutcome::Cloned), CloneAction::Done);
}

#[test]
fn settings_from_env_example() {
    let s = extension_settings("wallet", "# comment\nZ_KEY=last\nAPI_URL=https://x.example\nexport A='quoted value'\n")
        .ok()
        .unwrap();
    let expected: Vec<(String, String)> = vec![
        ("name", "wallet"),
        ("A", "quoted value"),
        ("API_URL", "https://x.example"),
        ("Z_KEY", "last"),
    ]
    .into_iter()
    .map(|(a, b)| (a.to_string(), b.to_string()))
    .collect();
    assert_eq!(s, expected);
}

#[test]
fn settings_name_comes_first() {
    let s = extension_settings("wallet", "").ok().unwrap();
    assert_eq!(s, vec![("name".to_string(), "wallet".to_string())]);
}

#[test]
fn settings_reject_bad_env() {
    assert!(extension_settings("wallet", "=novalue\n").is_err());
}
