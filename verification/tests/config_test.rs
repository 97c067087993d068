use nbwipers::cli::{resolve_bool_arg, resolve_id_action, CommonArgs, ConfigOverrides, OutputFormat};
use nbwipers::config::{
    default_extra_keys, has_key, same_key, Configuration, ConfigurationSection, FilePattern,
    IdAction,
};
use nbwipers::extra_keys::ExtraKey;
use nbwipers::files::{check_exclusions, has_root, is_stdin, normalize_path_to, GlobAnswer};

fn key(s: &str) -> ExtraKey {
    ExtraKey::from_str(s).unwrap()
}

fn texts(keys: &[ExtraKey]) -> Vec<String> {
    keys.iter().map(|k| k.to_string()).collect()
}

fn no_args() -> CommonArgs {
    CommonArgs {
        config: None,
        isolated: false,
        allow_no_notebooks: false,
        extra_keys: None,
        drop_empty_cells: false,
        keep_empty_cells: false,
        keep_output: false,
        drop_output: false,
        keep_count: false,
        drop_count: false,
        drop_id: false,
        keep_id: false,
        sequential_id: false,
        id_action: None,
        strip_init_cell: false,
        keep_init_cell: false,
        strip_kernel_info: false,
        keep_kernel_info: false,
        drop_tagged_cells: None,
        keep_keys: None,
        exclude: None,
        extend_exclude: None,
    }
}

#[test]
fn default_keys_in_order() {
    assert_eq!(
        texts(&default_extra_keys()),
        vec![
            "metadata.signature",
            "metadata.widgets",
            "cell.metadata.collapsed",
            "cell.metadata.ExecuteTime",
            "cell.metadata.execution",
            "cell.metadata.heading_collapsed",
            "cell.metadata.hidden",
            "cell.metadata.scrolled",
        ]
    );
}

#[test]
fn default_settings() {
    let s = Configuration::default().into_settings();
    assert_eq!(texts(&s.extra_keys), texts(&default_extra_keys()));
    assert!(s.drop_tagged_cells.is_empty());
    assert!(!s.drop_empty_cells);
    assert!(s.drop_output);
    assert!(s.drop_count);
    assert_eq!(s.id_action, IdAction::Keep);
    assert!(!s.strip_init_cell);
    assert!(!s.strip_kernel_info);
    assert!(s.exclude.is_empty());
    assert!(s.extend_exclude.is_empty());
}

#[test]
fn settings_merge_and_keep_keys() {
    let mut c = Configuration::default();
    c.extra_keys = Some(vec![
        key("metadata.kernelspec"),
        key("cell.metadata.hidden"),
        key("metadata.a.b"),
        key("metadata.a.b"),
    ]);
    c.keep_keys = Some(vec![key("cell.metadata.scrolled"), key("metadata.a"), key("metadata.widgets")]);
    c.strip_kernel_info = Some(true);
    c.drop_output = Some(false);
    c.drop_count = Some(false);
    c.drop_empty_cells = Some(true);
    c.id_action = Some(IdAction::Drop);
    c.strip_init_cell = Some(true);
    c.drop_tagged_cells = Some(vec!["t".to_string()]);
    c.exclude = Some(vec![FilePattern { pattern: "a*".to_string(), absolute: "/r/a*".to_string() }]);
    c.extend_exclude = vec![FilePattern { pattern: "b".to_string(), absolute: "/r/b".to_string() }];
    let s = c.into_settings();
    assert_eq!(
        texts(&s.extra_keys),
        vec![
            "metadata.signature",
            "cell.metadata.collapsed",
            "cell.metadata.ExecuteTime",
            "cell.metadata.execution",
            "cell.metadata.heading_collapsed",
            "cell.metadata.hidden",
            "metadata.kernelspec",
            "metadata.a.b",
            "metadata.language_info.version",
        ]
    );
    assert!(!s.drop_output);
    assert!(!s.drop_count);
    assert!(s.drop_empty_cells);
    assert_eq!(s.id_action, IdAction::Drop);
    assert!(s.strip_init_cell);
    assert!(s.strip_kernel_info);
    assert_eq!(s.drop_tagged_cells, vec!["t".to_string()]);
    assert_eq!(s.exclude, vec!["a*".to_string()]);
    assert_eq!(s.extend_exclude, vec!["b".to_string()]);
}

#[test]
fn keys_compare_by_kind_and_path() {
    assert!(same_key(&key("metadata.a.b"), &key("metadata.a.b")));
    assert!(!same_key(&key("metadata.a.b"), &key("cell.metadata.a.b")));
    assert!(!same_key(&key("metadata.a.b"), &key("metadata.a")));
    assert!(!same_key(&key("metadata.a.b"), &key("metadata.a.c")));
    let keys = vec![key("metadata.a"), key("cell.metadata.b")];
    assert!(has_key(&keys, &key("cell.metadata.b")));
    assert!(!has_key(&keys, &key("metadata.b")));
}

#[test]
fn bool_arguments() {
    assert_eq!(resolve_bool_arg(true, false), Some(true));
    assert_eq!(resolve_bool_arg(false, true), Some(false));
    assert_eq!(resolve_bool_arg(false, false), None);
    assert_eq!(resolve_id_action(false, false, false, None), None);
    assert_eq!(resolve_id_action(true, false, false, None), Some(IdAction::Keep));
    assert_eq!(resolve_id_action(false, true, false, None), Some(IdAction::Drop));
    assert_eq!(resolve_id_action(false, false, true, None), Some(IdAction::Sequential));
    assert_eq!(
        resolve_id_action(true, true, true, Some(IdAction::Keep)),
        Some(IdAction::Keep)
    );
    assert_eq!(OutputFormat::default(), OutputFormat::Text);
}

#[test]
fn partition_of_arguments() {
    let mut args = no_args();
    args.config = Some("nb.toml".to_string());
    args.allow_no_notebooks = true;
    args.keep_output = true;
    args.drop_count = true;
    args.keep_empty_cells = true;
    args.drop_id = true;
    args.strip_kernel_info = true;
    args.extra_keys = Some(vec![key("metadata.a")]);
    let (rest, overrides) = args.partition();
    assert_eq!(rest.config, Some("nb.toml".to_string()));
    assert!(rest.allow_no_notebooks);
    assert!(!rest.isolated);
    assert_eq!(overrides.drop_output, Some(false));
    assert_eq!(overrides.drop_count, Some(true));
    assert_eq!(overrides.drop_empty_cells, Some(false));
    assert_eq!(overrides.strip_init_cell, None);
    assert_eq!(overrides.strip_kernel_info, Some(true));
    assert_eq!(overrides.id_action, Some(IdAction::Drop));
    assert_eq!(overrides.extra_keys, Some(vec![key("metadata.a")]));
    assert_eq!(overrides.keep_keys, None);
}

#[test]
fn overrides_replace_and_extend() {
    let mut config = Configuration::default();
    config.drop_output = Some(true);
    config.drop_count = Some(false);
    config.extra_keys = Some(vec![key("metadata.a")]);
    config.extend_exclude = vec![FilePattern { pattern: "a".to_string(), absolute: "/a".to_string() }];
    let mut overrides = ConfigOverrides::default();
    let same = overrides.override_config(config);
    assert_eq!(same.drop_output, Some(true));
    assert_eq!(same.drop_count, Some(false));
    assert_eq!(same.extra_keys, Some(vec![key("metadata.a")]));
    assert_eq!(same.extend_exclude.len(), 1);

    overrides.drop_output = Some(false);
    overrides.extra_keys = Some(vec![key("cell.metadata.b")]);
    overrides.id_action = Some(IdAction::Sequential);
    overrides.drop_tagged_cells = Some(vec!["x".to_string()]);
    overrides.exclude = Some(vec![FilePattern { pattern: "e".to_string(), absolute: "/e".to_string() }]);
    overrides.extend_exclude =
        Some(vec![FilePattern { pattern: "b".to_string(), absolute: "/b".to_string() }]);
    let out = overrides.override_config(same);
    assert_eq!(out.drop_output, Some(false));
    assert_eq!(out.drop_count, Some(false));
    assert_eq!(out.extra_keys, Some(vec![key("cell.metadata.b")]));
    assert_eq!(out.id_action, Some(IdAction::Sequential));
    assert_eq!(out.drop_tagged_cells, Some(vec!["x".to_string()]));
    assert_eq!(
        out.exclude,
        Some(vec![FilePattern { pattern: "e".to_string(), absolute: "/e".to_string() }])
    );
    assert_eq!(
        out.extend_exclude,
        vec![
            FilePattern { pattern: "a".to_string(), absolute: "/a".to_string() },
            FilePattern { pattern: "b".to_string(), absolute: "/b".to_string() },
        ]
    );
}

#[test]
fn section_becomes_configuration() {
    let mut section = ConfigurationSection::default();
    section.exclude = Some(vec!["sub/x.ipynb".to_string()]);
    section.extend_exclude = Some(vec!["*.tmp".to_string()]);
    section.drop_count = Some(false);
    section.keep_keys = Some(vec![key("metadata.widgets")]);
    let config = section.make_configuration("/work/project");
    assert_eq!(config.drop_count, Some(false));
    assert_eq!(config.drop_output, None);
    assert_eq!(config.keep_keys, Some(vec![key("metadata.widgets")]));
    let exclude = config.exclude.unwrap();
    assert_eq!(exclude.len(), 1);
    assert_eq!(exclude[0].pattern, "sub/x.ipynb");
    assert_eq!(config.extend_exclude.len(), 1);
    assert_eq!(config.extend_exclude[0].pattern, "*.tmp");
    let none = ConfigurationSection::default().make_configuration("/work");
    assert_eq!(none.exclude, None);
    assert!(none.extend_exclude.is_empty());
}

#[test]
fn patterns_are_made_absolute() {
    assert_eq!(normalize_path_to("sub/x.ipynb", "/work/project"), "/work/project/sub/x.ipynb");
    assert_eq!(normalize_path_to("../x", "/work/project"), "/work/x");
    assert_eq!(normalize_path_to("/abs/./y", "/work"), "/abs/y");
    let p = FilePattern::new_with_path("a/b", "/r");
    assert_eq!(p.pattern, "a/b");
    assert_eq!(p.absolute, "/r/a/b");
}

#[test]
fn stdin_is_the_single_dash() {
    assert!(is_stdin(&vec!["-".to_string()]));
    assert!(!is_stdin(&vec![]));
    assert!(!is_stdin(&vec!["-".to_string(), "-".to_string()]));
    assert!(!is_stdin(&vec!["a.ipynb".to_string()]));
}

#[test]
fn rooted_directories() {
    assert!(has_root("/"));
    assert!(has_root("/work/project"));
    assert!(!has_root(""));
    assert!(!has_root("work"));
    assert!(!has_root("./work"));
    assert!(!has_root("\u{e9}/x"));
    assert_eq!(normalize_path_to(".", "/"), "/");
    assert_eq!(normalize_path_to("../..", "/foo"), "/");
    assert_eq!(normalize_path_to("..", "/"), "/");
    assert_eq!(normalize_path_to("", "/foo"), "/foo");
    assert_eq!(normalize_path_to("./a/../b", "/foo/bar"), "/foo/bar/b");
}

#[test]
fn exclusions_from_the_answers_of_the_patterns() {
    let answer = |is_empty, matches_name, matches_path| GlobAnswer {
        is_empty,
        matches_name,
        matches_path,
    };
    let no = answer(false, false, false);
    let empty = answer(true, true, true);
    assert!(check_exclusions(true, answer(false, true, false), no));
    assert!(check_exclusions(true, answer(false, false, true), no));
    assert!(check_exclusions(true, no, answer(false, true, false)));
    assert!(check_exclusions(true, empty, answer(false, false, true)));
    assert!(!check_exclusions(true, no, no));
    assert!(!check_exclusions(true, empty, empty));
    assert!(!check_exclusions(true, empty, no));
    assert!(!check_exclusions(false, answer(false, true, true), answer(false, true, true)));
}
