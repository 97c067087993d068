use nbwipers::hooks::{exceeds_limit, files_to_check, lfs_files, size_in_kb, DEFAULT_MAX_SIZE_KB};
use nbwipers::install::{
    check_attribute_bytes, check_config_sections, check_should_exit_zero, clean_command,
    combine_install_status, lines_give, lines_to_add, missing_attribute_lines, needs_newline,
    rewrite_line, smudge_command, textconv_command, uninstall_line, uninstall_lines, Assignment,
    AttributeLine, InstallStatus, InstallToolStatus, UninstallError, DIFF_LINE, FILTER_LINE,
};

fn strings(items: &[&str]) -> Vec<String> {
    items.iter().map(|s| s.to_string()).collect()
}

#[test]
fn sizes_round_up_to_whole_kb() {
    assert_eq!(size_in_kb(0), 0);
    assert_eq!(size_in_kb(1), 1);
    assert_eq!(size_in_kb(1024), 1);
    assert_eq!(size_in_kb(1025), 2);
    assert_eq!(size_in_kb(u64::MAX), 18014398509481984);
    assert_eq!(DEFAULT_MAX_SIZE_KB, 500);
    assert!(!exceeds_limit(500 * 1024, None));
    assert!(exceeds_limit(500 * 1024 + 1, None));
    assert!(!exceeds_limit(2048 * 1024, Some(2048)));
    assert!(exceeds_limit(2048 * 1024 + 1, Some(2048)));
    assert!(exceeds_limit(1, Some(0)));
}

#[test]
fn lfs_files_from_check_attr() {
    let out = "a.ipynb\0filter\0lfs\0b.bin\0filter\0unspecified\0dir/c.ipynb\0filter\0lfs\0";
    assert_eq!(lfs_files(out), strings(&["a.ipynb", "dir/c.ipynb"]));
    assert_eq!(lfs_files(""), strings(&[]));
    assert_eq!(lfs_files("a\0filter"), strings(&[]));
    assert_eq!(lfs_files("a\0filter\0lfs"), strings(&["a"]));
    assert_eq!(lfs_files("\0\0a\0filter\0lfs\0b\0filter"), strings(&["a"]));
    assert_eq!(lfs_files("lfs\0filter\0nbwipers\0"), strings(&[]));
}

#[test]
fn files_left_to_check() {
    let files = strings(&["a", "b", "c", "d"]);
    let lfs = strings(&["b"]);
    let added = strings(&["d", "a", "b", "x"]);
    assert_eq!(files_to_check(&files, &lfs, None), strings(&["a", "c", "d"]));
    assert_eq!(files_to_check(&files, &lfs, Some(&added)), strings(&["a", "d"]));
    assert_eq!(files_to_check(&files, &strings(&[]), Some(&strings(&[]))), strings(&[]));
}

#[test]
fn install_status_algebra() {
    let both = InstallToolStatus { diff: true, filter: true };
    let diff = InstallToolStatus { diff: true, filter: false };
    let none = InstallToolStatus::default();
    assert!(both.is_installed());
    assert!(!diff.is_installed());
    assert!(!none.is_installed());
    assert_eq!(both.and(diff), diff);
    let mut acc = none;
    acc.or_assign(diff);
    assert_eq!(acc, diff);
    acc.or_assign(InstallToolStatus { diff: false, filter: true });
    assert_eq!(acc, both);

    let attr = InstallStatus { nbstripout: diff, nbwipers: both };
    let config = InstallStatus { nbstripout: both, nbwipers: both };
    assert_eq!(combine_install_status(attr, config), (false, true));
    assert_eq!(combine_install_status(config, config), (true, true));
    assert_eq!(combine_install_status(InstallStatus::default(), config), (false, false));
    let mut sum = InstallStatus::default();
    sum.or_assign(attr);
    assert_eq!(sum, attr);
    assert_eq!(attr.and(InstallStatus::default()), InstallStatus::default());

    assert_eq!(check_config_sections(true, true, true), both);
    assert_eq!(check_config_sections(true, false, true), diff);
    assert_eq!(check_config_sections(false, true, false), none);
    assert!(check_should_exit_zero(true, false));
    assert!(check_should_exit_zero(false, true));
    assert!(!check_should_exit_zero(false, false));
}

#[test]
fn assignments_in_attribute_files() {
    let mut status = InstallStatus::default();
    status.note_assignment("*.py", "filter", "nbwipers");
    assert_eq!(status, InstallStatus::default());
    status.note_assignment("*.ipynb", "filter", "nbwipers");
    assert!(status.nbwipers.filter && !status.nbwipers.diff);
    status.note_assignment("*.ipynb", "diff", "nbwipers");
    assert!(status.nbwipers.is_installed());
    assert!(!status.nbstripout.diff && !status.nbstripout.filter);
    status.note_assignment("*.ipynb", "diff", "ipynb");
    status.note_assignment("*.ipynb", "diff", "nbstripout");
    assert!(status.nbstripout.diff && !status.nbstripout.filter);
    status.note_assignment("*.ipynb", "filter", "nbstripout");
    assert!(status.nbstripout.is_installed());
    let mut other = InstallStatus::default();
    other.note_assignment("*.ipynb", "text", "nbwipers");
    other.note_assignment("*.ipynb", "filter", "ipynb");
    assert_eq!(other, InstallStatus::default());
}

#[test]
fn attribute_lines_to_add() {
    assert_eq!(FILTER_LINE, "*.ipynb filter=nbwipers");
    assert_eq!(DIFF_LINE, "*.ipynb diff=nbwipers");
    assert_eq!(lines_to_add(false, false), strings(&[FILTER_LINE, DIFF_LINE]));
    assert_eq!(lines_to_add(true, false), strings(&[DIFF_LINE]));
    assert_eq!(lines_to_add(false, true), strings(&[FILTER_LINE]));
    assert_eq!(lines_to_add(true, true), strings(&[]));
    assert!(!needs_newline(None));
    assert!(!needs_newline(Some(b'\n')));
    assert!(needs_newline(Some(b'x')));
}

#[test]
fn attribute_lines_rewritten() {
    let a = |text: &str, value: Option<&str>| (text.to_string(), value.map(String::from));
    assert_eq!(
        rewrite_line(
            "*.ipynb",
            &vec![a("filter=nbwipers", Some("nbwipers")), a("filter=banana", Some("banana"))]
        ),
        Some("*.ipynb filter=banana".to_string())
    );
    assert_eq!(
        rewrite_line(
            "*.ipynb",
            &vec![
                a("filter=nbwipers", Some("nbwipers")),
                a("filter=banana", Some("banana")),
                a("argh", None)
            ]
        ),
        Some("*.ipynb filter=banana argh".to_string())
    );
    assert_eq!(
        rewrite_line("*.ipynb", &vec![a("filter=nbwipers", Some("nbwipers"))]),
        Some(String::new())
    );
    assert_eq!(rewrite_line("*.ipynb", &vec![a("filter=banana", Some("banana"))]), None);
    assert_eq!(rewrite_line("*.py", &vec![a("filter=nbwipers", Some("nbwipers"))]), None);
    assert_eq!(rewrite_line("*.ipynb", &vec![]), None);
}

#[test]
fn commands_for_git() {
    assert_eq!(clean_command("/usr/bin/nbwipers"), "\"/usr/bin/nbwipers\" clean -");
    assert_eq!(smudge_command("/usr/bin/nbwipers"), "\"/usr/bin/nbwipers\" smudge %f");
    assert_eq!(textconv_command("C:/x y/nbwipers.exe"), "\"C:/x y/nbwipers.exe\" clean -t");
}

#[test]
fn attribute_files_checked() {
    let both = InstallToolStatus { diff: true, filter: true };
    let none = InstallToolStatus::default();
    let file = b"*.ipynb filter=nbstripout\n*.zpln filter=nbstripout\n*.ipynb diff=ipynb\n";
    assert_eq!(
        check_attribute_bytes(file),
        Some(InstallStatus { nbstripout: both, nbwipers: none })
    );
    let file = b"# notebooks\n*.ipynb filter=nbwipers diff=nbwipers text\n*.py filter=nbstripout\n";
    assert_eq!(
        check_attribute_bytes(file),
        Some(InstallStatus { nbstripout: none, nbwipers: both })
    );
    assert_eq!(check_attribute_bytes(b""), Some(InstallStatus::default()));
    assert_eq!(
        check_attribute_bytes(b"*.ipynb -filter !diff filter\n"),
        Some(InstallStatus::default())
    );
}

#[test]
fn attribute_lines_missing_from_a_file() {
    assert_eq!(missing_attribute_lines(b""), strings(&[FILTER_LINE, DIFF_LINE]));
    assert_eq!(
        missing_attribute_lines(b"*.ipynb filter=nbwipers\n*.ipynb filter=banana"),
        strings(&[DIFF_LINE])
    );
    assert_eq!(
        missing_attribute_lines(b"*.ipynb diff=nbwipers filter=nbwipers\n"),
        strings(&[])
    );
    assert_eq!(
        missing_attribute_lines(b"*.py diff=nbwipers filter=nbwipers\n"),
        strings(&[FILTER_LINE, DIFF_LINE])
    );
    let lines = vec![
        None,
        Some(AttributeLine {
            pattern: Some("*.ipynb".to_string()),
            assignments: vec![
                None,
                Some(Assignment {
                    text: "diff=nbwipers".to_string(),
                    name: "diff".to_string(),
                    value: Some("nbwipers".to_string()),
                }),
            ],
        }),
    ];
    assert!(lines_give(&lines, "diff"));
    assert!(!lines_give(&lines, "filter"));
}

#[test]
fn attribute_files_uninstalled() {
    assert_eq!(
        uninstall_line("*.ipynb filter=nbwipers filter=banana argh"),
        Ok(("*.ipynb filter=banana argh".to_string(), true))
    );
    assert_eq!(uninstall_line("*.ipynb filter=nbwipers"), Ok((String::new(), true)));
    assert_eq!(
        uninstall_line("*.py filter=nbwipers"),
        Ok(("*.py filter=nbwipers".to_string(), false))
    );
    assert_eq!(uninstall_line("# comment"), Err(UninstallError::NoPattern));
    assert_eq!(
        uninstall_lines(&strings(&[
            "*.ipynb filter=nbwipers",
            "",
            "*.ipynb filter=banana",
            "*.ipynb diff=nbwipers text",
            "*.txt text",
        ])),
        Ok(Some("*.ipynb filter=banana\n*.ipynb text\n*.txt text\n".to_string()))
    );
    assert_eq!(uninstall_lines(&strings(&["*.ipynb filter=banana", "", "*.txt text"])), Ok(None));
    assert_eq!(uninstall_lines(&strings(&[])), Ok(None));
    assert_eq!(
        uninstall_lines(&strings(&["*.ipynb filter=nbwipers", "# note"])),
        Err(UninstallError::NoPattern)
    );
}
