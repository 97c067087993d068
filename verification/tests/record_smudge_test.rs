use nbwipers::json::Json;
use nbwipers::record::{extract_kernel_info, KernelSpecInfo};
use nbwipers::schema::RawNotebook;
use nbwipers::smudge::{maybe_replace_kernelspec, SmudgeError};

fn obj(entries: Vec<(&str, Json)>) -> Json {
    Json::Object(entries.into_iter().map(|(k, v)| (k.to_string(), v)).collect())
}

fn text(s: &str) -> Json {
    Json::Text(s.to_string())
}

fn field<'a>(value: &'a Json, key: &str) -> Option<&'a Json> {
    value.get(key)
}

fn make_sample_kernelinfo() -> KernelSpecInfo {
    KernelSpecInfo {
        kernelspec: obj(vec![("name", text("python3")), ("display_name", text("Python 3"))]),
        python_version: Some("3.12.4".to_string()),
    }
}

fn notebook_with_metadata(meta: Json) -> RawNotebook {
    RawNotebook { metadata: meta, ..Default::default() }
}

#[test]
fn record_test_blank_not_recorded() {
    let blank_notebook = RawNotebook::new();
    assert!(extract_kernel_info(&blank_notebook).is_none());
}

#[test]
fn test_kernelspec_extracted() {
    let python_version = "3.12.4".to_string();
    let kernelspec = obj(vec![("name", text("python3")), ("display_name", text("Python 3"))]);
    let notebook = RawNotebook {
        cells: vec![],
        metadata: obj(vec![
            ("kernelspec", kernelspec.duplicate()),
            (
                "language_info",
                obj(vec![("name", text("python")), ("version", text(&python_version))]),
            ),
        ]),
        nbformat: 4,
        nbformat_minor: 5,
    };
    let extracted = extract_kernel_info(&notebook);
    assert!(extracted.is_some());
    let extracted = extracted.unwrap();
    assert_eq!(extracted.python_version, Some(python_version));
    assert_eq!(extracted.kernelspec, kernelspec);
}

#[test]
fn kernel_info_with_one_part_only() {
    let only_version = notebook_with_metadata(obj(vec![(
        "language_info",
        obj(vec![("version", text("3.9"))]),
    )]));
    assert_eq!(
        extract_kernel_info(&only_version),
        Some(KernelSpecInfo { kernelspec: Json::Null, python_version: Some("3.9".to_string()) })
    );
    let odd_version = notebook_with_metadata(obj(vec![(
        "language_info",
        obj(vec![("version", Json::Number("3".to_string()))]),
    )]));
    assert_eq!(
        extract_kernel_info(&odd_version),
        Some(KernelSpecInfo { kernelspec: Json::Null, python_version: None })
    );
    let only_spec = notebook_with_metadata(obj(vec![("kernelspec", text("k"))]));
    assert_eq!(
        extract_kernel_info(&only_spec),
        Some(KernelSpecInfo { kernelspec: text("k"), python_version: None })
    );
    assert_eq!(extract_kernel_info(&notebook_with_metadata(Json::Null)), None);
    let no_version =
        notebook_with_metadata(obj(vec![("language_info", obj(vec![("name", text("python"))]))]));
    assert_eq!(extract_kernel_info(&no_version), None);
}

#[test]
fn test_add_to_blank() {
    let kernelspec_info = make_sample_kernelinfo();
    let nb = notebook_with_metadata(Json::Null);

    let out_nb = maybe_replace_kernelspec(nb, &kernelspec_info).unwrap();

    assert_eq!(field(&out_nb.metadata, "kernelspec"), Some(&kernelspec_info.kernelspec));
    assert_eq!(
        field(field(&out_nb.metadata, "language_info").unwrap(), "version").unwrap(),
        &text(&kernelspec_info.python_version.unwrap())
    );
}

#[test]
fn test_add_to_blank_only_version() {
    let kernelspec_info =
        KernelSpecInfo { kernelspec: Json::Null, python_version: Some("3.12.4".to_string()) };
    let nb = notebook_with_metadata(Json::Null);

    let out_nb = maybe_replace_kernelspec(nb, &kernelspec_info).unwrap();

    assert_eq!(
        field(field(&out_nb.metadata, "language_info").unwrap(), "version").unwrap(),
        &text(&kernelspec_info.python_version.unwrap())
    );
    assert_eq!(
        out_nb.metadata,
        obj(vec![("language_info", obj(vec![("version", text("3.12.4"))]))])
    );
}

#[test]
fn test_add_to_stripped() {
    let kernelspec_info = make_sample_kernelinfo();
    let nb =
        notebook_with_metadata(obj(vec![("language_info", obj(vec![("name", text("python"))]))]));

    let out_nb = maybe_replace_kernelspec(nb, &kernelspec_info).unwrap();

    assert_eq!(field(&out_nb.metadata, "kernelspec"), Some(&kernelspec_info.kernelspec));
    assert_eq!(
        field(field(&out_nb.metadata, "language_info").unwrap(), "version").unwrap(),
        &text(&kernelspec_info.python_version.unwrap())
    );
    assert_eq!(
        out_nb.metadata,
        obj(vec![
            ("kernelspec", make_sample_kernelinfo().kernelspec),
            ("language_info", obj(vec![("name", text("python")), ("version", text("3.12.4"))])),
        ])
    );
}

#[test]
fn test_dont_add() {
    let kernelspec_info = make_sample_kernelinfo();
    let existing_kernelspec =
        obj(vec![("name", text("python3-conda")), ("display_name", text("Python 3"))]);
    let existing_version = "3.8.4".to_string();
    let nb = notebook_with_metadata(obj(vec![
        ("kernelspec", existing_kernelspec.duplicate()),
        (
            "language_info",
            obj(vec![("name", text("python")), ("version", text(&existing_version))]),
        ),
    ]));

    let out_nb = maybe_replace_kernelspec(nb, &kernelspec_info).unwrap();

    assert_eq!(field(&out_nb.metadata, "kernelspec"), Some(&existing_kernelspec));
    assert_eq!(
        field(field(&out_nb.metadata, "language_info").unwrap(), "version").unwrap(),
        &text(&existing_version)
    );
}

#[test]
fn test_malformed_metadata() {
    let kernelspec_info = make_sample_kernelinfo();
    let malformed = || notebook_with_metadata(Json::Number("10".to_string()));
    assert!(maybe_replace_kernelspec(malformed(), &kernelspec_info).is_err());
    let kernelspec_info_no_kernel = KernelSpecInfo {
        kernelspec: Json::Null,
        python_version: make_sample_kernelinfo().python_version,
    };
    assert!(maybe_replace_kernelspec(malformed(), &kernelspec_info_no_kernel).is_err());
    let malformed_language_info = notebook_with_metadata(obj(vec![
        ("kernelspec", obj(vec![])),
        ("language_info", Json::Number("10".to_string())),
    ]));
    assert!(maybe_replace_kernelspec(malformed_language_info, &kernelspec_info).is_err());
}

#[test]
fn smudge_errors_and_order() {
    let info = make_sample_kernelinfo();
    assert_eq!(
        maybe_replace_kernelspec(notebook_with_metadata(Json::Bool(true)), &info),
        Err(SmudgeError::UnexpectedMetadataType)
    );
    let odd = notebook_with_metadata(obj(vec![("language_info", text("python"))]));
    assert_eq!(maybe_replace_kernelspec(odd, &info), Err(SmudgeError::UnexpectedLanguageInfoType));
    let nothing = KernelSpecInfo { kernelspec: Json::Null, python_version: None };
    assert_eq!(
        maybe_replace_kernelspec(notebook_with_metadata(Json::Bool(true)), &nothing),
        Ok(notebook_with_metadata(Json::Bool(true)))
    );
    let null_info = notebook_with_metadata(obj(vec![
        ("a", Json::Null),
        ("language_info", Json::Null),
        ("b", Json::Null),
    ]));
    let out = maybe_replace_kernelspec(null_info, &info).unwrap();
    assert_eq!(
        out.metadata,
        obj(vec![
            ("kernelspec", make_sample_kernelinfo().kernelspec),
            ("a", Json::Null),
            ("language_info", obj(vec![("version", text("3.12.4"))])),
            ("b", Json::Null),
        ])
    );
}

#[test]
fn copies_of_trees_are_equal() {
    let tree = obj(vec![
        ("a", Json::Array(vec![Json::Null, Json::Bool(true), Json::Number("1.5".to_string())])),
        ("b", obj(vec![("c", text("d"))])),
    ]);
    assert_eq!(tree.duplicate(), tree);
    let mut other = tree.duplicate();
    other.insert("a", Json::Null);
    other.insert("z", text("new"));
    assert_eq!(
        other,
        obj(vec![("a", Json::Null), ("b", obj(vec![("c", text("d"))])), ("z", text("new"))])
    );
    let mut leaf = text("x");
    leaf.insert("k", Json::Null);
    assert_eq!(leaf, text("x"));
    assert_eq!(Json::Bool(true).as_bool(), Some(true));
    assert_eq!(text("true").as_bool(), None);
    assert!(Json::Number("2".to_string()).is_number());
    assert!(!Json::Null.is_number());
}
