use nbwipers::json::Json;
use nbwipers::schema::{Cell, CodeCell, MarkdownCell, SourceValue};

fn obj(entries: Vec<(&str, Json)>) -> Json {
    Json::Object(entries.into_iter().map(|(k, v)| (k.to_string(), v)).collect())
}

fn text(s: &str) -> Json {
    Json::Text(s.to_string())
}

fn code_cell(metadata: Json, outputs: Vec<Json>) -> CodeCell {
    CodeCell {
        execution_count: None,
        id: None,
        metadata,
        outputs,
        source: SourceValue::StringArray(vec!["x = 1".to_string()]),
    }
}

#[test]
fn test_empty_single_string() {
    let sv = SourceValue::String("  ".into());
    assert!(sv.is_empty());
}

#[test]
fn test_clear_cell_without_meta() {
    let cell = CodeCell {
        execution_count: None,
        id: None,
        metadata: Json::Array(vec![]),
        outputs: vec![],
        source: SourceValue::StringArray(vec![]),
    };
    assert!(cell.should_clear_output(true, true));
    assert!(!cell.should_clear_output(false, true));
}

#[test]
fn empty_source_lines_of_white_space() {
    let blank = SourceValue::StringArray(vec!["   ".to_string(), "\t".to_string()]);
    assert!(blank.is_empty());
    let not_blank = SourceValue::StringArray(vec!["".to_string(), "x".to_string()]);
    assert!(!not_blank.is_empty());
    assert!(SourceValue::StringArray(vec![]).is_empty());
    let unicode = "\u{9}\u{a}\u{b}\u{c}\u{d} \u{85}\u{a0}\u{1680}\u{2000}\u{200a}\u{2028}\u{2029}\u{202f}\u{205f}\u{3000}";
    assert!(SourceValue::String(unicode.to_string()).is_empty());
    for not_space in ["\u{8}", "\u{e}", "\u{1f}", "\u{200b}", "\u{180e}", "\u{feff}", "\u{2060}"] {
        assert!(!SourceValue::String(not_space.to_string()).is_empty());
    }
    assert!(!SourceValue::String(" x ".to_string()).is_empty());
}

#[test]
fn should_drop_empty_and_tagged() {
    let empty = Cell::Markdown(MarkdownCell {
        attachments: None,
        id: None,
        metadata: obj(vec![]),
        source: SourceValue::String(" \n ".to_string()),
    });
    let no_tags: Vec<String> = vec![];
    assert!(empty.should_drop(true, &no_tags));
    assert!(!empty.should_drop(false, &no_tags));

    let tagged = Cell::Code(code_cell(
        obj(vec![("tags", Json::Array(vec![Json::Bool(true), text("skip")]))]),
        vec![],
    ));
    assert!(tagged.should_drop(false, &vec!["other".to_string(), "skip".to_string()]));
    assert!(!tagged.should_drop(false, &vec!["other".to_string()]));
    assert!(!tagged.should_drop(false, &no_tags));

    let tags_not_array = Cell::Code(code_cell(obj(vec![("tags", text("skip"))]), vec![]));
    assert!(!tags_not_array.should_drop(true, &vec!["skip".to_string()]));
}

#[test]
fn should_clear_output_protections() {
    let plain = code_cell(obj(vec![]), vec![text("out")]);
    assert!(plain.should_clear_output(true, false));
    assert!(!plain.should_clear_output(false, false));

    let keep_entry = code_cell(obj(vec![("keep_output", Json::Bool(false))]), vec![]);
    assert!(!keep_entry.should_clear_output(true, false));

    let keep_tag = code_cell(
        obj(vec![("tags", Json::Array(vec![text("keep_output")]))]),
        vec![text("out")],
    );
    assert!(!keep_tag.should_clear_output(true, true));

    let init = code_cell(obj(vec![("init_cell", Json::Bool(true))]), vec![]);
    assert!(!init.should_clear_output(true, false));
    assert!(init.should_clear_output(true, true));
    assert!(init.should_clear_output(false, true));

    let init_off = code_cell(obj(vec![("init_cell", Json::Bool(false))]), vec![]);
    assert!(init_off.should_clear_output(false, false));
    let init_text = code_cell(obj(vec![("init_cell", text("yes"))]), vec![]);
    assert!(init_text.should_clear_output(false, false));
}

#[test]
fn exec_count_clear_and_cleared() {
    let mut cell = code_cell(
        obj(vec![]),
        vec![
            obj(vec![("execution_count", Json::Number("3".to_string())), ("data", text("a"))]),
            obj(vec![("name", text("stdout"))]),
            text("loose"),
        ],
    );
    assert!(!cell.is_clear_exec_count());
    cell.execution_count = Some(3);
    cell.clear_counts();
    assert!(cell.is_clear_exec_count());
    assert_eq!(cell.execution_count, None);
    assert_eq!(
        cell.outputs,
        vec![
            obj(vec![("execution_count", Json::Null), ("data", text("a"))]),
            obj(vec![("name", text("stdout")), ("execution_count", Json::Null)]),
            text("loose"),
        ]
    );
    assert!(!cell.is_clear_outputs());
    cell.clear_outputs();
    assert!(cell.is_clear_outputs());

    let mut counted = code_cell(obj(vec![]), vec![]);
    counted.execution_count = Some(1);
    assert!(!counted.is_clear_exec_count());
    let null_count = code_cell(obj(vec![]), vec![obj(vec![("execution_count", Json::Null)])]);
    assert!(null_count.is_clear_exec_count());
}

#[test]
fn identifiers_of_cells() {
    let mut cell = Cell::Code(code_cell(obj(vec![]), vec![]));
    assert!(cell.is_clear_id(0));
    assert!(!cell.has_sequential_id(0));
    assert_eq!(cell.set_id(Some("12".to_string())), None);
    assert!(cell.has_sequential_id(12));
    assert!(!cell.has_sequential_id(1));
    assert_eq!(cell.get_id(), &Some("12".to_string()));
    assert!(cell.is_clear_id(12));
    assert!(!cell.is_clear_id(1));
    assert!(!cell.is_clear_id(2));
    assert_eq!(cell.set_id(Some("0".to_string())), Some("12".to_string()));
    assert!(cell.is_clear_id(0));
    assert!(!cell.is_clear_id(10));
    assert!(!cell.as_codecell().unwrap().is_clear_id());
    assert_eq!(cell.set_id(None), Some("0".to_string()));
    assert!(cell.as_codecell().unwrap().is_clear_id());
    assert!(cell.as_codecell_mut().is_some());
    *cell.get_metadata_mut() = Json::Null;
    assert_eq!(cell.get_metadata(), &Json::Null);
    assert_eq!(cell.get_source(), &SourceValue::StringArray(vec!["x = 1".to_string()]));
}

#[test]
fn white_space_is_what_trimming_takes_away() {
    let listed = |c: char| {
        let n = c as u32;
        (0x9..=0xD).contains(&n)
            || [0x20, 0x85, 0xA0, 0x1680, 0x2028, 0x2029, 0x202F, 0x205F, 0x3000].contains(&n)
            || (0x2000..=0x200A).contains(&n)
    };
    for n in 0..=0x10FFFFu32 {
        if let Some(c) = char::from_u32(n) {
            assert_eq!(SourceValue::String(c.to_string()).is_empty(), listed(c), "U+{n:04X}");
        }
    }
}
