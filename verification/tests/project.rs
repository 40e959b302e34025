use kujav::cli::{Cli, Commands};
use kujav::errors::ErrorKind;
use kujav::lockfile::lockfile_text;
use kujav::resolver::validate_java_classpath;
use kujav::toml_config::{parse_toml_string_array, trim_quoted, Dependencies, KujavToml};

fn args(list: &[&str]) -> Vec<String> {
    list.iter().map(|s| s.to_string()).collect()
}

const FULL: &str = "# a project\n[package]\nname = \"demo\"\nversion = \"0.1.0\"\r\n  main = \"src/main.kj\"  \nedition = \"2024\"\nunknown = 1\n\n[dependencies]\nzeta = \"2\"\nalpha = \"1.0\"\nzeta = \"3\"\n\n[java]\nclasspath = [\"libs/a.jar\", \"libs/b.jar\"]\nother = 5\n\n[minecraft]\nmain_class = \"demo.Plugin\"\napi = \"1.20\"\n[ignored]\nkey = value\n";

#[test]
fn commands_are_read_from_the_first_argument() {
    assert!(matches!(Cli::parse(&args(&["build"])).unwrap().command, Commands::Build));
    assert!(matches!(Cli::parse(&args(&["run"])).unwrap().command, Commands::Run));
    assert!(matches!(Cli::parse(&args(&["check"])).unwrap().command, Commands::Check));
    assert!(matches!(Cli::parse(&args(&["install"])).unwrap().command, Commands::Install));
    assert!(matches!(Cli::parse(&args(&["update"])).unwrap().command, Commands::Update));
    assert!(matches!(Cli::parse(&args(&["publish"])).unwrap().command, Commands::Publish));
    assert!(matches!(Cli::parse(&args(&["clean", "extra"])).unwrap().command, Commands::Clean));
    match Cli::parse(&args(&["new", "demo"])).unwrap().command {
        Commands::New { project } => assert_eq!(project, "demo"),
        other => panic!("unexpected {:?}", other),
    }
}

#[test]
fn missing_or_unknown_command_is_a_usage_error() {
    let e = Cli::parse(&args(&[])).unwrap_err();
    assert_eq!(e.kind(), ErrorKind::Io);
    assert_eq!(e.message(), "usage: kujav <new|build|run|check|install|update|publish|clean>");
    let e = Cli::parse(&args(&["dance"])).unwrap_err();
    assert_eq!(e.message(), "usage: kujav <new|build|run|check|install|update|publish|clean>");
    let e = Cli::parse(&args(&["new"])).unwrap_err();
    assert_eq!(e.kind(), ErrorKind::Io);
    assert_eq!(e.message(), "usage: kujav new <project>");
}

#[test]
fn quotes_and_white_space_are_taken_off() {
    assert_eq!(trim_quoted("  \"abc\"  "), "abc");
    assert_eq!(trim_quoted("\"\"a\"\""), "a");
    assert_eq!(trim_quoted("plain"), "plain");
    assert_eq!(trim_quoted("\" spaced \""), " spaced ");
    assert_eq!(trim_quoted("\u{a0}\t\"x\"\u{3000}"), "x");
    assert_eq!(trim_quoted(""), "");
    assert_eq!(trim_quoted("\""), "");
}

#[test]
fn string_arrays() {
    assert_eq!(
        parse_toml_string_array(" [ \"a\" , \"b c\",\"d\" ] ").unwrap(),
        vec!["a".to_string(), "b c".to_string(), "d".to_string()]
    );
    assert!(parse_toml_string_array("[]").unwrap().is_empty());
    assert!(parse_toml_string_array("[   ]").unwrap().is_empty());
    let e = parse_toml_string_array("\"a\"").unwrap_err();
    assert_eq!(e.kind(), ErrorKind::Toml);
    assert_eq!(e.message(), "expected TOML string array, found: \"a\"");
    let e = parse_toml_string_array("[").unwrap_err();
    assert_eq!(e.message(), "expected TOML string array, found: [");
    let e = parse_toml_string_array("[\"a\", b]").unwrap_err();
    assert_eq!(e.kind(), ErrorKind::Toml);
    assert_eq!(e.message(), "classpath entries must be quoted strings, found: b");
    let e = parse_toml_string_array("[\"a\",]").unwrap_err();
    assert_eq!(e.message(), "classpath entries must be quoted strings, found: ");
}

#[test]
fn configuration_is_read_section_by_section() {
    let cfg = KujavToml::parse(FULL).unwrap();
    assert_eq!(cfg.package.name, "demo");
    assert_eq!(cfg.package.version, "0.1.0");
    assert_eq!(cfg.package.main, "src/main.kj");
    assert_eq!(cfg.package.edition, "2024");
    assert_eq!(cfg.dependencies.len(), 2);
    assert_eq!(cfg.dependencies.get(0), Some(("alpha", "1.0")));
    assert_eq!(cfg.dependencies.get(1), Some(("zeta", "3")));
    assert_eq!(cfg.dependencies.get(2), None);
    assert_eq!(cfg.java.classpath, vec!["libs/a.jar".to_string(), "libs/b.jar".to_string()]);
    let plugin = cfg.minecraft.unwrap();
    assert_eq!(plugin.plugin_name, "demo");
    assert_eq!(plugin.plugin_version, "0.1.0");
    assert_eq!(plugin.main_class, "demo.Plugin");
    assert_eq!(plugin.api, "1.20");
}

#[test]
fn configuration_without_a_plugin() {
    let cfg =
        KujavToml::parse("[package]\nname = \"a\"\nversion = \"1\"\nmain = \"m.kj\"").unwrap();
    assert!(cfg.minecraft.is_none());
    assert!(cfg.java.classpath.is_empty());
    assert_eq!(cfg.dependencies.len(), 0);
    assert_eq!(cfg.package.edition, "");
}

#[test]
fn configuration_errors() {
    let e = KujavToml::parse("").unwrap_err();
    assert_eq!(e.kind(), ErrorKind::Toml);
    assert_eq!(e.message(), "missing required [package] keys");
    let e = KujavToml::parse("[package]\nname = \"a\"\nversion = \"1\"").unwrap_err();
    assert_eq!(e.message(), "missing required [package] keys");
    let e = KujavToml::parse("[package]\n  name is a  \n").unwrap_err();
    assert_eq!(e.kind(), ErrorKind::Toml);
    assert_eq!(e.message(), "invalid line: name is a");
    let e = KujavToml::parse(
        "[package]\nname = \"a\"\nversion = \"1\"\nmain = \"m\"\n[minecraft]\napi = \"1\"",
    )
    .unwrap_err();
    assert_eq!(
        e.message(),
        "[minecraft] requires main_class and api (paper|spigot api version string)"
    );
    let e = KujavToml::parse("[java]\nclasspath = nope").unwrap_err();
    assert_eq!(e.message(), "expected TOML string array, found: nope");
}

#[test]
fn plugin_keeps_its_own_name_and_version() {
    let cfg = KujavToml::parse(
        "[package]\nname = \"a\"\nversion = \"1\"\nmain = \"m\"\n[minecraft]\nplugin_name = \"P\"\nplugin_version = \"9\"\nmain_class = \"c\"\napi = \"x\"",
    )
    .unwrap();
    let plugin = cfg.minecraft.unwrap();
    assert_eq!(plugin.plugin_name, "P");
    assert_eq!(plugin.plugin_version, "9");
}

#[test]
fn dependencies_stay_in_the_order_of_their_names() {
    let mut deps = Dependencies::new();
    for (name, version) in [("m", "1"), ("b", "2"), ("z", "3"), ("a", "4"), ("b", "5"), ("ab", "6"), ("", "7")] {
        deps.insert(name.to_string(), version.to_string());
    }
    let mut seen = Vec::new();
    for i in 0..deps.len() {
        let (name, version) = deps.get(i).unwrap();
        seen.push(format!("{}={}", name, version));
    }
    assert_eq!(seen, vec!["=7", "a=4", "ab=6", "b=5", "m=1", "z=3"]);
}

#[test]
fn lock_file_lists_the_package_and_its_dependencies() {
    let cfg = KujavToml::parse(FULL).unwrap();
    assert_eq!(
        lockfile_text(&cfg),
        "version = 1\n\n[[package]]\nname = \"demo\"\nversion = \"0.1.0\"\n\n[[dependency]]\nname = \"alpha\"\nversion = \"1.0\"\n\n[[dependency]]\nname = \"zeta\"\nversion = \"3\"\n\n"
    );
    let bare =
        KujavToml::parse("[package]\nname = \"a\"\nversion = \"1\"\nmain = \"m.kj\"").unwrap();
    assert_eq!(lockfile_text(&bare), "version = 1\n\n[[package]]\nname = \"a\"\nversion = \"1\"\n");
}

#[test]
fn class_path_entries_have_to_be_there() {
    let cfg = KujavToml::parse(FULL).unwrap();
    assert!(validate_java_classpath(&cfg, &[true, true]).is_ok());
    assert!(validate_java_classpath(&cfg, &[true, true, false]).is_ok());
    let e = validate_java_classpath(&cfg, &[true, false]).unwrap_err();
    assert_eq!(e.kind(), ErrorKind::Dependency);
    assert_eq!(e.message(), "java classpath dependency not found: libs/b.jar");
    let e = validate_java_classpath(&cfg, &[false, false]).unwrap_err();
    assert_eq!(e.message(), "java classpath dependency not found: libs/a.jar");
    let e = validate_java_classpath(&cfg, &[true]).unwrap_err();
    assert_eq!(e.message(), "java classpath dependency not found: libs/b.jar");
    let bare =
        KujavToml::parse("[package]\nname = \"a\"\nversion = \"1\"\nmain = \"m.kj\"").unwrap();
    assert!(validate_java_classpath(&bare, &[]).is_ok());
}
