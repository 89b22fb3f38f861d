use circuit_bench::datasets::record::{Direction, PatternCheck, QasmAndJson, UnsavedFile};
use circuit_bench::datasets::DatasetError;

#[test]
fn new_file_holds_nothing() {
    let file = UnsavedFile::new("a/b.qasm".to_string(), true);
    assert_eq!(file.path(), "a/b.qasm");
    assert_eq!(file.contents(), None);
    assert!(!file.is_saved());
    assert!(file.exists_on_disk());
    assert!(!file.is_empty());
    assert!(file.needs_read());
}

#[test]
fn file_that_is_nowhere_is_empty() {
    let file = UnsavedFile::new("a/b.qasm".to_string(), false);
    assert!(!file.exists_on_disk());
    assert!(file.is_empty());
    assert!(!file.needs_read());
}

#[test]
fn load_reads_from_disk_and_counts_as_saved() {
    let mut file = UnsavedFile::new("a/b.qasm".to_string(), true);
    assert_eq!(file.load(Some("text".to_string())), Ok(()));
    assert_eq!(file.contents(), Some("text"));
    assert!(file.is_saved());
    assert!(!file.needs_read());
    assert!(file.unsaved().is_none());
    assert_eq!(file.save(false), Ok(()));
    assert!(file.is_saved());
}

#[test]
fn load_keeps_what_is_in_memory() {
    let mut file = UnsavedFile::new("a/b.qasm".to_string(), true);
    file.set_contents("mine".to_string());
    assert_eq!(file.load(Some("theirs".to_string())), Ok(()));
    assert_eq!(file.contents(), Some("mine"));
    assert!(!file.is_saved());
}

#[test]
fn load_of_an_empty_file_is_not_found() {
    let mut file = UnsavedFile::new("a/b.qasm".to_string(), false);
    assert_eq!(file.load(None), Err(DatasetError::NotFound));
    assert_eq!(file.load(Some("stray".to_string())), Err(DatasetError::NotFound));
    assert_eq!(file.contents(), None);
}

#[test]
fn load_of_a_file_that_could_not_be_read_is_not_found() {
    let mut file = UnsavedFile::new("a/b.qasm".to_string(), true);
    assert_eq!(file.load(None), Err(DatasetError::NotFound));
    assert_eq!(file.contents(), None);
    assert!(!file.is_saved());
}

#[test]
fn set_contents_makes_the_file_unsaved() {
    let mut file = UnsavedFile::new("a/b.qasm".to_string(), true);
    assert_eq!(file.load(Some("old".to_string())), Ok(()));
    file.set_contents("new".to_string());
    assert_eq!(file.contents(), Some("new"));
    assert!(!file.is_saved());
    assert!(!file.is_empty());
}

#[test]
fn save_counts_once_the_write_is_done() {
    let mut file = UnsavedFile::new("a/b.json".to_string(), false);
    file.set_contents("{}".to_string());
    let write = file.unsaved().unwrap();
    assert_eq!(write.path, "a/b.json");
    assert_eq!(write.contents, "{}");
    assert!(!file.is_saved());
    assert_eq!(file.save(true), Ok(()));
    assert!(file.is_saved());
    assert!(file.unsaved().is_none());
    assert_eq!(file.save(true), Ok(()));
    assert_eq!(file.save(false), Ok(()));
    assert!(file.is_saved());
    assert_eq!(file.contents(), Some("{}"));
}

#[test]
fn save_after_a_failed_write_is_tried_again() {
    let mut file = UnsavedFile::new("missing/b.json".to_string(), false);
    file.set_contents("{}".to_string());
    assert!(file.unsaved().is_some());
    assert_eq!(file.save(false), Err(DatasetError::SaveFailed));
    assert!(!file.is_saved());
    assert_eq!(file.contents(), Some("{}"));
    let again = file.unsaved().unwrap();
    assert_eq!(again.path, "missing/b.json");
    assert_eq!(again.contents, "{}");
    assert_eq!(file.save(true), Ok(()));
    assert!(file.is_saved());
}

#[test]
fn save_without_contents_writes_nothing() {
    let mut file = UnsavedFile::new("a/b.json".to_string(), true);
    assert!(file.unsaved().is_none());
    assert_eq!(file.save(true), Ok(()));
    assert!(!file.is_saved());
}

#[test]
fn record_paths_share_the_base() {
    let record = QasmAndJson::from_path("corpus/c7", true, false);
    assert_eq!(record.qasm_file().path(), "corpus/c7.qasm");
    assert_eq!(record.json_file().path(), "corpus/c7.json");
    assert!(record.qasm_file().exists_on_disk());
    assert!(!record.json_file().exists_on_disk());
    assert_eq!(record.qasm(), None);
    assert_eq!(record.json(), None);
}

#[test]
fn record_paths_replace_an_extension() {
    let record = QasmAndJson::from_path("corpus/target.json", false, true);
    assert_eq!(record.qasm_file().path(), "corpus/target.qasm");
    assert_eq!(record.json_file().path(), "corpus/target.json");
}

#[test]
fn load_derives_json_from_qasm() {
    let mut record = QasmAndJson::from_path("c", true, false);
    assert!(record.needs_conversion());
    let due = record.load(Some("QASM".to_string()), None).unwrap().unwrap();
    assert_eq!(due.direction, Direction::QasmToJson);
    assert_eq!(due.source, "QASM");
    assert_eq!(record.qasm(), Some("QASM"));
    assert_eq!(record.json(), None);
    assert_eq!(record.finish_conversion(due.direction, Some("JSON".to_string())), Ok(()));
    assert_eq!(record.json(), Some("JSON"));
    assert!(record.qasm_file().is_saved());
    assert!(!record.json_file().is_saved());
    assert!(!record.needs_conversion());
}

#[test]
fn load_derives_qasm_from_json() {
    let mut record = QasmAndJson::from_path("c", false, true);
    assert!(record.needs_conversion());
    let due = record.load(None, Some("JSON".to_string())).unwrap().unwrap();
    assert_eq!(due.direction, Direction::JsonToQasm);
    assert_eq!(due.source, "JSON");
    assert_eq!(record.finish_conversion(due.direction, Some("QASM".to_string())), Ok(()));
    assert_eq!(record.qasm(), Some("QASM"));
    assert_eq!(record.json(), Some("JSON"));
    assert!(record.json_file().is_saved());
    assert!(!record.qasm_file().is_saved());
}

#[test]
fn load_of_both_asks_for_no_conversion() {
    let mut record = QasmAndJson::from_path("c", true, true);
    assert!(!record.needs_conversion());
    let due = record.load(Some("QASM".to_string()), Some("JSON".to_string())).unwrap();
    assert!(due.is_none());
    assert_eq!(record.qasm(), Some("QASM"));
    assert_eq!(record.json(), Some("JSON"));
    assert!(record.qasm_file().is_saved());
    assert!(record.json_file().is_saved());
    assert!(record.unsaved_files().is_empty());
    assert_eq!(record.save(false, false), Ok(()));
}

#[test]
fn load_of_neither_is_not_found() {
    let mut record = QasmAndJson::from_path("c", false, false);
    assert!(record.needs_conversion());
    assert!(matches!(record.load(None, None), Err(DatasetError::NotFound)));
    assert!(matches!(
        record.load(Some("QASM".to_string()), Some("JSON".to_string())),
        Err(DatasetError::NotFound)
    ));
    assert_eq!(record.qasm(), None);
    assert_eq!(record.json(), None);
}

#[test]
fn load_with_an_unreadable_source_is_not_found() {
    let mut record = QasmAndJson::from_path("c", true, false);
    assert!(matches!(record.load(None, None), Err(DatasetError::NotFound)));
    let mut both = QasmAndJson::from_path("c", true, true);
    assert!(matches!(both.load(Some("QASM".to_string()), None), Err(DatasetError::NotFound)));
}

#[test]
fn failed_conversion_changes_nothing() {
    let mut record = QasmAndJson::from_path("c", true, false);
    let due = record.load(Some("QASM".to_string()), None).unwrap().unwrap();
    assert_eq!(record.finish_conversion(due.direction, None), Err(DatasetError::ConversionFailure));
    assert_eq!(record.json(), None);
    assert_eq!(record.qasm(), Some("QASM"));
}

#[test]
fn save_writes_the_derived_encoding_only() {
    let mut record = QasmAndJson::from_path("corpus/c", true, false);
    let due = record.load(Some("QASM".to_string()), None).unwrap().unwrap();
    record.finish_conversion(due.direction, Some("JSON".to_string())).unwrap();
    let files = record.unsaved_files();
    assert_eq!(files.len(), 1);
    assert_eq!(files[0].path, "corpus/c.json");
    assert_eq!(files[0].contents, "JSON");
    assert_eq!(record.save(false, true), Ok(()));
    assert!(record.unsaved_files().is_empty());
    assert!(record.json_file().is_saved());
    assert_eq!(record.save(false, false), Ok(()));
}

#[test]
fn save_writes_qasm_before_json() {
    let mut record = QasmAndJson::from_path("c", false, false);
    record.finish_conversion(Direction::JsonToQasm, Some("QASM".to_string())).unwrap();
    record.finish_conversion(Direction::QasmToJson, Some("JSON".to_string())).unwrap();
    let files = record.unsaved_files();
    assert_eq!(files.len(), 2);
    assert_eq!(files[0].path, "c.qasm");
    assert_eq!(files[1].path, "c.json");
}

#[test]
fn save_keeps_what_could_not_be_written() {
    let mut record = QasmAndJson::from_path("c", false, false);
    record.finish_conversion(Direction::JsonToQasm, Some("QASM".to_string())).unwrap();
    record.finish_conversion(Direction::QasmToJson, Some("JSON".to_string())).unwrap();
    assert_eq!(record.save(true, false), Err(DatasetError::SaveFailed));
    assert!(record.qasm_file().is_saved());
    assert!(!record.json_file().is_saved());
    let files = record.unsaved_files();
    assert_eq!(files.len(), 1);
    assert_eq!(files[0].path, "c.json");
    assert_eq!(files[0].contents, "JSON");
    assert_eq!(record.save(false, true), Ok(()));
    assert!(record.unsaved_files().is_empty());
}

#[test]
fn pattern_is_valid_where_it_compiled() {
    let mut record = QasmAndJson::from_path("c", true, true);
    record.load(Some("QASM".to_string()), Some("JSON".to_string())).unwrap();
    assert!(record.valid_pattern(PatternCheck::Compiled));
    assert_eq!(record.check_pattern(PatternCheck::Compiled), Ok(()));
}

#[test]
fn pattern_is_invalid_where_it_did_not_parse_or_compile() {
    let mut record = QasmAndJson::from_path("c", true, true);
    record.load(Some("QASM".to_string()), Some("JSON".to_string())).unwrap();
    assert!(!record.valid_pattern(PatternCheck::ParseFailed));
    assert!(!record.valid_pattern(PatternCheck::CompileFailed));
    assert_eq!(record.check_pattern(PatternCheck::ParseFailed), Err(DatasetError::InvalidPattern));
    assert_eq!(record.check_pattern(PatternCheck::CompileFailed), Err(DatasetError::InvalidPattern));
}

#[test]
fn pattern_is_invalid_without_its_text() {
    let record = QasmAndJson::from_path("c", true, true);
    assert!(!record.valid_pattern(PatternCheck::Compiled));
    assert_eq!(record.check_pattern(PatternCheck::Compiled), Err(DatasetError::NotFound));
}
