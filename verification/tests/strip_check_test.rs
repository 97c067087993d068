use nbwipers::check::{check_nb, CheckResult};
use nbwipers::config::{Configuration, IdAction};
use nbwipers::extra_keys::ExtraKey;
use nbwipers::json::Json;
use nbwipers::schema::{Cell, CodeCell, MarkdownCell, RawCell, RawNotebook, SourceValue};
use nbwipers::settings::Settings;
use nbwipers::files::{NBReadError, NBWriteError};
use nbwipers::strip::{pop_meta_key, strip_nb, StripError, StripResult, StripSuccess};

fn obj(entries: Vec<(&str, Json)>) -> Json {
    Json::Object(entries.into_iter().map(|(k, v)| (k.to_string(), v)).collect())
}

fn text(s: &str) -> Json {
    Json::Text(s.to_string())
}

fn num(s: &str) -> Json {
    Json::Number(s.to_string())
}

fn settings(keys: &[&str]) -> Settings {
    Settings {
        extra_keys: keys.iter().map(|k| ExtraKey::from_str(k).unwrap()).collect(),
        drop_tagged_cells: vec![],
        drop_empty_cells: false,
        drop_output: true,
        drop_count: true,
        id_action: IdAction::Keep,
        strip_init_cell: false,
        strip_kernel_info: false,
        exclude: vec![],
        extend_exclude: vec![],
    }
}

fn code(id: Option<&str>, metadata: Json, outputs: Vec<Json>, count: Option<i64>) -> Cell {
    Cell::Code(CodeCell {
        execution_count: count,
        id: id.map(String::from),
        metadata,
        outputs,
        source: SourceValue::StringArray(vec!["print(1)".to_string()]),
    })
}

fn markdown(id: Option<&str>, source: &str) -> Cell {
    Cell::Markdown(MarkdownCell {
        attachments: None,
        id: id.map(String::from),
        metadata: obj(vec![]),
        source: SourceValue::String(source.to_string()),
    })
}

fn notebook(cells: Vec<Cell>, metadata: Json, minor: i64) -> RawNotebook {
    RawNotebook { cells, metadata, nbformat: 4, nbformat_minor: minor }
}

fn ids(nb: &RawNotebook) -> Vec<Option<String>> {
    nb.cells.iter().map(|c| c.get_id().clone()).collect()
}

fn sample() -> RawNotebook {
    notebook(
        vec![
            code(
                Some("a"),
                obj(vec![("collapsed", Json::Bool(true)), ("scrolled", Json::Bool(false))]),
                vec![obj(vec![("execution_count", num("2")), ("output_type", text("execute_result"))])],
                Some(2),
            ),
            markdown(Some("b"), "  "),
            code(Some("c"), obj(vec![("tags", Json::Array(vec![text("remove")]))]), vec![], None),
            Cell::Raw(RawCell {
                attachments: None,
                id: Some("d".to_string()),
                metadata: obj(vec![("hidden", Json::Null)]),
                source: SourceValue::String("raw".to_string()),
            }),
        ],
        obj(vec![
            ("signature", text("abc")),
            ("kernelspec", obj(vec![("name", text("python3"))])),
            ("widgets", obj(vec![])),
        ]),
        5,
    )
}

#[test]
fn strip_with_default_keys() {
    let s = Configuration::default().into_settings();
    let (nb, changed) = strip_nb(sample(), &s);
    assert!(changed);
    assert_eq!(nb.metadata, obj(vec![("kernelspec", obj(vec![("name", text("python3"))]))]));
    assert_eq!(nb.cells.len(), 4);
    assert_eq!(
        nb.cells[0],
        code(Some("a"), obj(vec![]), vec![], None)
    );
    assert_eq!(nb.cells[1], markdown(Some("b"), "  "));
    assert_eq!(
        nb.cells[3],
        Cell::Raw(RawCell {
            attachments: None,
            id: Some("d".to_string()),
            metadata: obj(vec![]),
            source: SourceValue::String("raw".to_string()),
        })
    );
    assert_eq!(nb.nbformat_minor, 5);
    assert_eq!(nb.nbformat, 4);
    assert_eq!(check_nb(&nb, &s), vec![]);
    let (again, changed) = strip_nb(nb, &s);
    assert!(!changed);
    assert_eq!(again.cells.len(), 4);
}

#[test]
fn check_lists_findings_kind_by_kind() {
    let mut s = Configuration::default().into_settings();
    s.drop_empty_cells = true;
    s.drop_tagged_cells = vec!["remove".to_string()];
    s.id_action = IdAction::Sequential;
    let nb = sample();
    let found = check_nb(&nb, &s);
    assert_eq!(
        found,
        vec![
            CheckResult::StripMeta { extra_key: "metadata.signature".to_string() },
            CheckResult::StripMeta { extra_key: "metadata.widgets".to_string() },
            CheckResult::DropCells { cell_number: 1 },
            CheckResult::DropCells { cell_number: 2 },
            CheckResult::ClearOutput { cell_number: 0 },
            CheckResult::ClearCount { cell_number: 0 },
            CheckResult::ClearId { cell_number: 0 },
            CheckResult::ClearId { cell_number: 1 },
            CheckResult::ClearId { cell_number: 2 },
            CheckResult::ClearId { cell_number: 3 },
            CheckResult::CellStripMeta {
                cell_number: 0,
                extra_key: "cell.metadata.collapsed".to_string()
            },
            CheckResult::CellStripMeta {
                cell_number: 0,
                extra_key: "cell.metadata.scrolled".to_string()
            },
            CheckResult::CellStripMeta {
                cell_number: 3,
                extra_key: "cell.metadata.hidden".to_string()
            },
        ]
    );
    assert_eq!(nb, sample());
    let (stripped, changed) = strip_nb(nb, &s);
    assert!(changed);
    assert_eq!(ids(&stripped), vec![Some("0".to_string()), Some("1".to_string())]);
    assert_eq!(check_nb(&stripped, &s), vec![]);
    assert!(!strip_nb(stripped, &s).1);
}

#[test]
fn check_and_strip_agree_on_a_clean_notebook() {
    let s = settings(&["metadata.signature", "cell.metadata.collapsed"]);
    let clean = || notebook(vec![code(Some("x"), obj(vec![]), vec![], None)], obj(vec![]), 5);
    assert_eq!(check_nb(&clean(), &s), vec![]);
    let (nb, changed) = strip_nb(clean(), &s);
    assert!(!changed);
    assert_eq!(nb, clean());
}

#[test]
fn sequential_identifiers() {
    let mut s = settings(&[]);
    s.id_action = IdAction::Sequential;
    let nb = notebook(
        vec![markdown(None, "a"), markdown(Some("9"), "b"), markdown(Some("1"), "c")],
        obj(vec![]),
        5,
    );
    let (nb, changed) = strip_nb(nb, &s);
    assert!(changed);
    assert_eq!(
        ids(&nb),
        vec![Some("0".to_string()), Some("1".to_string()), Some("2".to_string())]
    );
    assert_eq!(nb.nbformat_minor, 5);
    let (nb, changed) = strip_nb(nb, &s);
    assert!(!changed);
    assert_eq!(
        ids(&nb),
        vec![Some("0".to_string()), Some("1".to_string()), Some("2".to_string())]
    );
}

#[test]
fn sequential_identifiers_past_nine() {
    let mut s = settings(&[]);
    s.id_action = IdAction::Sequential;
    let cells: Vec<Cell> = (0..12).map(|_| markdown(None, "a")).collect();
    let (nb, changed) = strip_nb(notebook(cells, obj(vec![]), 5), &s);
    assert!(changed);
    assert_eq!(ids(&nb)[11], Some("11".to_string()));
    let cells: Vec<Cell> = (0..12).map(|_| markdown(Some("x"), "a")).collect();
    let (nb, changed) = strip_nb(notebook(cells, obj(vec![]), 5), &s);
    assert!(changed);
    assert_eq!(ids(&nb)[10], Some("10".to_string()));
    assert_eq!(ids(&nb)[11], Some("11".to_string()));
}

#[test]
fn drop_identifiers_downgrades_the_version() {
    let mut s = settings(&[]);
    s.id_action = IdAction::Drop;
    let nb = notebook(vec![markdown(Some("a"), "x"), markdown(Some("b"), "y")], obj(vec![]), 5);
    assert_eq!(
        check_nb(&nb, &s),
        vec![CheckResult::ClearId { cell_number: 0 }, CheckResult::ClearId { cell_number: 1 }]
    );
    let (nb, changed) = strip_nb(nb, &s);
    assert!(changed);
    assert_eq!(nb.nbformat_minor, 4);
    assert_eq!(ids(&nb), vec![None, None]);
    let (nb, changed) = strip_nb(nb, &s);
    assert!(!changed);
    assert_eq!(nb.nbformat_minor, 4);

    let old = notebook(vec![markdown(Some("a"), "x")], obj(vec![]), 2);
    let (old, changed) = strip_nb(old, &s);
    assert!(changed);
    assert_eq!(old.nbformat_minor, 2);

    let none = notebook(vec![markdown(None, "x")], obj(vec![]), 5);
    let (none, changed) = strip_nb(none, &s);
    assert!(!changed);
    assert_eq!(none.nbformat_minor, 5);
}

#[test]
fn keep_output_tag_protects_outputs() {
    let s = settings(&[]);
    let cell = || {
        code(
            None,
            obj(vec![("tags", Json::Array(vec![text("keep_output")]))]),
            vec![obj(vec![("output_type", text("stream"))])],
            None,
        )
    };
    let nb = notebook(vec![cell()], obj(vec![]), 4);
    assert_eq!(check_nb(&nb, &s), vec![]);
    let (nb, changed) = strip_nb(nb, &s);
    assert!(!changed);
    assert_eq!(nb.cells[0], cell());
}

#[test]
fn notebook_keep_output_overrides_the_setting() {
    let s = settings(&[]);
    let cell = || code(None, obj(vec![]), vec![text("out")], None);
    let nb = notebook(vec![cell()], obj(vec![("keep_output", Json::Bool(true))]), 4);
    assert_eq!(check_nb(&nb, &s), vec![]);
    assert!(!strip_nb(nb, &s).1);
    let nb = notebook(vec![cell()], obj(vec![("keep_output", text("yes"))]), 4);
    assert_eq!(check_nb(&nb, &s), vec![CheckResult::ClearOutput { cell_number: 0 }]);
    let (nb, changed) = strip_nb(nb, &s);
    assert!(changed);
    assert_eq!(nb.cells[0], code(None, obj(vec![]), vec![], None));
}

#[test]
fn init_cell_is_cleared_even_where_outputs_are_kept() {
    let mut s = settings(&[]);
    s.drop_output = false;
    s.drop_count = false;
    let nb = notebook(
        vec![code(None, obj(vec![("init_cell", Json::Bool(false))]), vec![text("out")], None)],
        obj(vec![]),
        4,
    );
    assert_eq!(check_nb(&nb, &s), vec![CheckResult::ClearOutput { cell_number: 0 }]);
    let (nb, changed) = strip_nb(nb, &s);
    assert!(changed);
    assert_eq!(check_nb(&nb, &s), vec![]);
}

#[test]
fn counts_in_kept_outputs_are_set_to_null() {
    let mut s = settings(&[]);
    s.drop_output = false;
    let nb = notebook(
        vec![code(None, obj(vec![]), vec![obj(vec![("execution_count", num("7"))])], Some(7))],
        obj(vec![]),
        4,
    );
    assert_eq!(check_nb(&nb, &s), vec![CheckResult::ClearCount { cell_number: 0 }]);
    let (nb, changed) = strip_nb(nb, &s);
    assert!(changed);
    assert_eq!(
        nb.cells[0],
        code(None, obj(vec![]), vec![obj(vec![("execution_count", Json::Null)])], None)
    );
    assert!(!strip_nb(nb, &s).1);
}

#[test]
fn a_second_strip_may_change_what_the_first_laid_open() {
    let s = settings(&["metadata.a.b"]);
    let nb = notebook(
        vec![],
        obj(vec![("a.b", num("1")), ("a", obj(vec![("b", num("2"))]))]),
        4,
    );
    let (nb, changed) = strip_nb(nb, &s);
    assert!(changed);
    assert_eq!(nb.metadata, obj(vec![("a", obj(vec![("b", num("2"))]))]));
    assert_eq!(
        check_nb(&nb, &s),
        vec![CheckResult::StripMeta { extra_key: "metadata.a.b".to_string() }]
    );
    let (nb, changed) = strip_nb(nb, &s);
    assert!(changed);
    assert_eq!(nb.metadata, obj(vec![("a", obj(vec![]))]));
    assert!(!strip_nb(nb, &s).1);
}

#[test]
fn keys_only_apply_to_what_they_name() {
    let mut nb = notebook(vec![], obj(vec![("banana", text("pear"))]), 4);
    let cell_key = ExtraKey::from_str("cell.metadata.banana").unwrap();
    assert_eq!(pop_meta_key(&mut nb, &cell_key), None);
    let meta_key = ExtraKey::from_str("metadata.banana").unwrap();
    assert_eq!(pop_meta_key(&mut nb, &meta_key), Some(text("pear")));
    assert_eq!(nb.metadata, obj(vec![]));
    assert_eq!(pop_meta_key(&mut nb, &meta_key), None);
}

#[test]
fn blank_notebook() {
    let nb = RawNotebook::new();
    assert_eq!(nb.cells, vec![]);
    assert_eq!(nb.metadata, obj(vec![]));
    assert_eq!((nb.nbformat, nb.nbformat_minor), (4, 5));
    assert_eq!(RawNotebook::default(), nb);
    let s = Configuration::default().into_settings();
    assert_eq!(check_nb(&nb, &s), vec![]);
    assert!(!strip_nb(nb, &s).1);
}

#[test]
fn findings_as_text() {
    assert_eq!(
        CheckResult::IOError { error: "gone".to_string() }.to_string(),
        "IO Error: gone"
    );
    assert_eq!(
        CheckResult::InvalidNotebook { error: "bad".to_string() }.to_string(),
        "Invalid notebook: bad"
    );
    assert_eq!(
        CheckResult::DropCells { cell_number: 12 }.to_string(),
        "cell: 12: Found cell to be dropped"
    );
    assert_eq!(
        CheckResult::StripMeta { extra_key: "metadata.a".to_string() }.to_string(),
        "Found notebook metadata: metadata.a"
    );
    assert_eq!(
        CheckResult::CellStripMeta { cell_number: 3, extra_key: "cell.metadata.a".to_string() }
            .to_string(),
        "cell 3: Found cell metadata cell.metadata.a"
    );
    assert_eq!(
        CheckResult::ClearCount { cell_number: 0 }.to_string(),
        "cell 0: Found cell with execution count"
    );
    assert_eq!(CheckResult::ClearId { cell_number: 100 }.to_string(), "cell 100: Found cell with Id");
    assert_eq!(
        CheckResult::ClearOutput { cell_number: 7 }.to_string(),
        "cell 7: Found cell with output"
    );
}

#[test]
fn strip_results() {
    assert_eq!(StripSuccess::from_stripped(true), StripSuccess::Stripped);
    assert_eq!(StripSuccess::from_stripped(false), StripSuccess::NoChange);
    assert_eq!(StripResult::from(StripSuccess::Stripped), StripResult::Stripped);
    assert_eq!(StripResult::from(StripSuccess::NoChange), StripResult::NoChange);
    assert!(!StripResult::Stripped.is_err());
    assert!(!StripResult::NoChange.is_err());
    assert!(StripResult::ReadError("x".to_string()).is_err());
    assert!(StripResult::WriteError("x".to_string()).is_err());
    assert_eq!(StripResult::NoChange.to_string(), "No Change");
    assert_eq!(StripResult::Stripped.to_string(), "Stripped");
    assert_eq!(StripResult::ReadError("gone".to_string()).to_string(), "Read error: gone");
    assert!(StripResult::WriteError("denied".to_string()).to_string().starts_with("Write error:"));
}

#[test]
fn test_check_result_convert() {
    let ioerror = NBReadError::IO(std::io::Error::from(std::io::ErrorKind::NotFound));
    let check_result: CheckResult = ioerror.into();
    assert!(matches!(check_result, CheckResult::IOError { .. }));
}

#[test]
fn test_display_ioerror() {
    let ioerror = NBReadError::IO(std::io::Error::from(std::io::ErrorKind::NotFound));
    let check_result: CheckResult = ioerror.into();
    let displayed = check_result.to_string();
    assert!(displayed.starts_with("IO Error"));
}

#[test]
fn test_strip_error_to_strip_result() {
    let read_error = StripError::ReadError(NBReadError::IO(std::io::Error::from(
        std::io::ErrorKind::NotFound,
    )));
    let write_error = StripError::WriteError(NBWriteError::IO(std::io::Error::from(
        std::io::ErrorKind::PermissionDenied,
    )));
    let read_error_res: StripResult = read_error.into();
    let write_error_res: StripResult = write_error.into();
    assert!(matches!(read_error_res, StripResult::ReadError(..)));
    assert!(matches!(write_error_res, StripResult::WriteError(..)));

    assert!(write_error_res.to_string().starts_with("Write error:"));
}

#[test]
fn read_and_write_errors_carry_their_text() {
    let io = std::io::Error::from(std::io::ErrorKind::NotFound);
    let text = io.to_string();
    assert_eq!(
        CheckResult::from(NBReadError::IO(io)),
        CheckResult::IOError { error: text.clone() }
    );
    let bad = serde_json::from_str::<serde_json::Value>("{").unwrap_err();
    let bad_text = bad.to_string();
    assert_eq!(
        CheckResult::from_read_error(NBReadError::Serde(bad)),
        CheckResult::InvalidNotebook { error: bad_text.clone() }
    );
    let bad = serde_json::from_str::<serde_json::Value>("{").unwrap_err();
    assert_eq!(
        StripResult::from(StripError::WriteError(NBWriteError::Serde(bad))),
        StripResult::WriteError(bad_text)
    );
    let io = std::io::Error::from(std::io::ErrorKind::NotFound);
    assert_eq!(
        StripResult::from(Err(StripError::ReadError(NBReadError::IO(io)))),
        StripResult::ReadError(text)
    );
    assert_eq!(StripResult::from(Ok(StripSuccess::Stripped)), StripResult::Stripped);
    assert_eq!(StripResult::from_outcome(Ok(StripSuccess::NoChange)), StripResult::NoChange);
}
