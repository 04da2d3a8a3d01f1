use colmena::locator::{
    canonicalize_cli_path, hive_from_args, join_path, resolve_explicit, search_upward, ConfigArgs,
    ConfigError, ConfigFile, ConfigHandle, ConfigSource, DirProbe, Surroundings,
};

fn probe(dir: &str, has_flake: bool, has_legacy: bool) -> DirProbe {
    DirProbe { dir: dir.to_string(), has_flake, has_legacy }
}

fn path_of(source: &ConfigSource) -> &str {
    match source {
        ConfigSource::Path(path) => path,
        ConfigSource::FlakeUri(uri) => panic!("expected a path, found the flake URI {}", uri),
    }
}

fn uri_of(source: &ConfigSource) -> &str {
    match source {
        ConfigSource::FlakeUri(uri) => uri,
        ConfigSource::Path(path) => panic!("expected a flake URI, found the path {}", path),
    }
}

#[test]
fn relative_path_is_prefixed() {
    assert_eq!(canonicalize_cli_path("foo.nix"), "./foo.nix");
    assert_eq!(canonicalize_cli_path("dir/hive.nix"), "./dir/hive.nix");
    assert_eq!(canonicalize_cli_path("./foo.nix"), "././foo.nix");
    assert_eq!(canonicalize_cli_path("../foo.nix"), "./../foo.nix");
    assert_eq!(canonicalize_cli_path(""), "./");
    assert_eq!(canonicalize_cli_path("é.nix"), "./é.nix");
}

#[test]
fn absolute_path_passes_through() {
    assert_eq!(canonicalize_cli_path("/etc/hive.nix"), "/etc/hive.nix");
    assert_eq!(canonicalize_cli_path("/"), "/");
}

#[test]
fn argument_with_colon_and_no_file_is_a_flake_uri() {
    let source = resolve_explicit("user@host:repo", false);
    assert_eq!(uri_of(&source), "user@host:repo");
    let source = resolve_explicit("github:owner/repo", false);
    assert_eq!(uri_of(&source), "github:owner/repo");
}

#[test]
fn argument_with_colon_that_exists_is_a_path() {
    let source = resolve_explicit("user@host:repo", true);
    assert_eq!(path_of(&source), "./user@host:repo");
}

#[test]
fn argument_without_colon_is_a_path_whether_it_exists_or_not() {
    assert_eq!(path_of(&resolve_explicit("foo.nix", false)), "./foo.nix");
    assert_eq!(path_of(&resolve_explicit("foo.nix", true)), "./foo.nix");
    assert_eq!(path_of(&resolve_explicit("/abs/hive.nix", false)), "/abs/hive.nix");
}

#[test]
fn join_puts_one_separator_between_directory_and_file() {
    assert_eq!(join_path("/srv/hive", "flake.nix"), "/srv/hive/flake.nix");
    assert_eq!(join_path("/srv/hive/", "hive.nix"), "/srv/hive/hive.nix");
    assert_eq!(join_path("/", "hive.nix"), "/hive.nix");
    assert_eq!(join_path("", "hive.nix"), "hive.nix");
}

#[test]
fn file_names_are_the_two_known_ones() {
    assert_eq!(ConfigFile::Flake.file_name(), "flake.nix");
    assert_eq!(ConfigFile::Legacy.file_name(), "hive.nix");
}

#[test]
fn flake_is_preferred_in_one_directory() {
    assert_eq!(probe("/a", true, true).choice(), Some(ConfigFile::Flake));
    assert_eq!(probe("/a", true, false).choice(), Some(ConfigFile::Flake));
    assert_eq!(probe("/a", false, true).choice(), Some(ConfigFile::Legacy));
    assert_eq!(probe("/a", false, false).choice(), None);
}

#[test]
fn nearest_directory_wins() {
    let levels = vec![
        probe("/a/b/c", false, false),
        probe("/a/b", false, true),
        probe("/a", true, false),
        probe("/", true, true),
    ];
    assert_eq!(search_upward(&levels), Some((1, ConfigFile::Legacy)));
}

#[test]
fn search_without_any_file_finds_nothing() {
    let levels = vec![probe("/a/b", false, false), probe("/a", false, false), probe("/", false, false)];
    assert_eq!(search_upward(&levels), None);
    assert_eq!(search_upward(&Vec::new()), None);
}

#[test]
fn explicit_relative_path_is_located_as_normalised() {
    let args = ConfigArgs { config: Some("foo.nix".to_string()), show_trace: false };
    let seen = Surroundings { config_exists: true, ancestors: Vec::new() };
    let handle = hive_from_args(&args, &seen).unwrap();
    assert_eq!(path_of(handle.source()), "./foo.nix");
    assert!(!handle.show_trace());
}

#[test]
fn explicit_path_that_does_not_exist_is_not_refused() {
    let args = ConfigArgs { config: Some("missing.nix".to_string()), show_trace: false };
    let seen = Surroundings { config_exists: false, ancestors: Vec::new() };
    let handle = hive_from_args(&args, &seen).unwrap();
    assert_eq!(path_of(handle.source()), "./missing.nix");
}

#[test]
fn explicit_flake_uri_is_located_as_a_uri() {
    let args = ConfigArgs { config: Some("user@host:repo".to_string()), show_trace: true };
    let seen = Surroundings { config_exists: false, ancestors: vec![probe("/", true, true)] };
    let handle = hive_from_args(&args, &seen).unwrap();
    assert_eq!(uri_of(handle.source()), "user@host:repo");
    assert!(handle.show_trace());
}

#[test]
fn explicit_argument_stops_the_search() {
    let args = ConfigArgs { config: Some("/etc/hive.nix".to_string()), show_trace: false };
    let seen = Surroundings { config_exists: false, ancestors: vec![probe("/cwd", true, true)] };
    let handle = hive_from_args(&args, &seen).unwrap();
    assert_eq!(path_of(handle.source()), "/etc/hive.nix");
}

#[test]
fn search_finds_the_file_in_an_ancestor() {
    let args = ConfigArgs { config: None, show_trace: false };
    let seen = Surroundings {
        config_exists: false,
        ancestors: vec![
            probe("/home/me/hive/hosts", false, false),
            probe("/home/me/hive", true, true),
            probe("/home/me", false, true),
            probe("/home", false, false),
            probe("/", false, false),
        ],
    };
    let handle = hive_from_args(&args, &seen).unwrap();
    assert_eq!(path_of(handle.source()), "/home/me/hive/flake.nix");
}

#[test]
fn search_takes_the_legacy_file_where_there_is_no_flake() {
    let args = ConfigArgs { config: None, show_trace: true };
    let seen = Surroundings {
        config_exists: true,
        ancestors: vec![probe("/work", false, true), probe("/", true, false)],
    };
    let handle = hive_from_args(&args, &seen).unwrap();
    assert_eq!(path_of(handle.source()), "/work/hive.nix");
    assert!(handle.show_trace());
}

#[test]
fn search_in_the_root_directory_joins_without_a_second_slash() {
    let args = ConfigArgs { config: None, show_trace: false };
    let seen = Surroundings { config_exists: false, ancestors: vec![probe("/", false, true)] };
    let handle = hive_from_args(&args, &seen).unwrap();
    assert_eq!(path_of(handle.source()), "/hive.nix");
}

#[test]
fn search_that_reaches_the_root_without_a_file_is_not_found() {
    let args = ConfigArgs { config: None, show_trace: false };
    let seen = Surroundings {
        config_exists: false,
        ancestors: vec![probe("/a/b", false, false), probe("/a", false, false), probe("/", false, false)],
    };
    match hive_from_args(&args, &seen) {
        Err(ConfigError::NotFound { start }) => assert_eq!(start, "/a/b"),
        Ok(handle) => panic!("found {:?} where nothing is", handle),
    }
}

#[test]
fn search_without_directories_is_not_found() {
    let args = ConfigArgs { config: None, show_trace: false };
    let seen = Surroundings { config_exists: true, ancestors: Vec::new() };
    match hive_from_args(&args, &seen) {
        Err(ConfigError::NotFound { start }) => assert_eq!(start, ""),
        Ok(handle) => panic!("found {:?} where nothing is", handle),
    }
}

#[test]
fn trace_flag_overwrites_what_was_set() {
    let mut handle = ConfigHandle::new(ConfigSource::Path("./hive.nix".to_string()));
    assert!(!handle.show_trace());
    handle.set_show_trace(true);
    assert!(handle.show_trace());
    handle.set_show_trace(true);
    assert!(handle.show_trace());
    handle.set_show_trace(false);
    assert!(!handle.show_trace());
    assert_eq!(path_of(handle.source()), "./hive.nix");
}
