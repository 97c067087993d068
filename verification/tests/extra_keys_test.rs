use nbwipers::config::{default_extra_keys, EXTRA_KEYS};
use nbwipers::extra_keys::{partition_extra_keys, ExtraKey, ExtraKeyParseError, StripKey};

#[test]
fn test_key_roundtrip() {
    for key in EXTRA_KEYS {
        let parsed_key = ExtraKey::from_str(key).unwrap();
        let key2 = parsed_key.to_string();
        assert!(key == &key2);
    }
}

#[test]
fn written_default_keys_are_the_default_keys() {
    let parsed: Vec<ExtraKey> = EXTRA_KEYS.iter().map(|k| k.parse().unwrap()).collect();
    assert_eq!(parsed, default_extra_keys());
    assert_eq!("hello.world".parse::<ExtraKey>(), Err(ExtraKeyParseError::NotCellOrMetadata));
}

#[test]
fn test_key_parse_errors() {
    assert!(matches!(
        ExtraKey::from_str("hello.world"),
        Err(ExtraKeyParseError::NotCellOrMetadata)
    ));
    assert!(matches!(
        ExtraKey::from_str("metadata."),
        Err(ExtraKeyParseError::EmptySubKey)
    ));
    assert!(matches!(
        ExtraKey::from_str("metadata"),
        Err(ExtraKeyParseError::EmptySubKey)
    ));
    assert!(matches!(
        ExtraKey::from_str(""),
        Err(ExtraKeyParseError::Empty)
    ));
    assert!(matches!(
        ExtraKey::from_str(".world"),
        Err(ExtraKeyParseError::NotCellOrMetadata)
    ));
    assert!(matches!(
        ExtraKey::from_str("cell.interlinked.world"),
        Err(ExtraKeyParseError::NotCellOrMetadata)
    ));
}

#[test]
fn more_parse_errors() {
    assert_eq!(ExtraKey::from_str("cell"), Err(ExtraKeyParseError::NotCellOrMetadata));
    assert_eq!(ExtraKey::from_str("cell.metadata"), Err(ExtraKeyParseError::EmptySubKey));
    assert_eq!(ExtraKey::from_str("cell.metadata."), Err(ExtraKeyParseError::EmptySubKey));
    assert_eq!(ExtraKey::from_str("metadatas.a"), Err(ExtraKeyParseError::NotCellOrMetadata));
    assert_eq!(ExtraKey::from_str("."), Err(ExtraKeyParseError::NotCellOrMetadata));
}

#[test]
fn parsed_parts_and_text() {
    let key = ExtraKey::from_str("cell.metadata.a.b..c").unwrap();
    assert!(matches!(key, ExtraKey::CellMeta(_)));
    assert_eq!(key.get_parts(), &vec!["a".to_string(), "b".to_string(), "".to_string(), "c".to_string()]);
    assert_eq!(key.to_string(), "cell.metadata.a.b..c");
    let key = ExtraKey::from_str("metadata..").unwrap();
    assert!(matches!(key, ExtraKey::Metadata(_)));
    assert_eq!(key.get_parts(), &vec!["".to_string(), "".to_string()]);
    assert_eq!(key.to_string(), "metadata..");
    let key = ExtraKey::from_str("metadata.language_info.version").unwrap();
    assert_eq!(key.get_parts(), &vec!["language_info".to_string(), "version".to_string()]);
}

#[test]
fn strip_key_from_slice() {
    assert_eq!(StripKey::try_from_slice(&[]), Err(ExtraKeyParseError::EmptySubKey));
    assert_eq!(StripKey::try_from_slice(&[""]), Err(ExtraKeyParseError::EmptySubKey));
    assert!(StripKey::try_from_slice(&["", ""]).is_ok());
    let key = ExtraKey::Metadata(StripKey::try_from_slice(&["a", "b"]).unwrap());
    assert_eq!(key.to_string(), "metadata.a.b");
    assert_eq!(key, ExtraKey::from_str("metadata.a.b").unwrap());
}

#[test]
fn partition_keeps_order() {
    let keys: Vec<ExtraKey> = EXTRA_KEYS.iter().map(|k| ExtraKey::from_str(k).unwrap()).collect();
    let (cell_keys, meta_keys) = partition_extra_keys(&keys);
    let cell_texts: Vec<String> = cell_keys.iter().map(|k| k.to_string()).collect();
    let meta_texts: Vec<String> = meta_keys.iter().map(|k| k.to_string()).collect();
    assert_eq!(cell_texts, EXTRA_KEYS[2..].to_vec());
    assert_eq!(meta_texts, EXTRA_KEYS[..2].to_vec());
}
