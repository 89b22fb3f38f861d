use circuit_bench::datasets::ecc::{generate_ecc_datasets, ECCDataset};
use circuit_bench::datasets::record::{PatternCheck, QasmAndJson};
use circuit_bench::datasets::{
    circuit_basenames, conversion_warning, count_conversions, has_circuit_extension, scan,
    CheckedRecord, CircuitDataset, Corpus, Dataset, DatasetError, FolderDataset,
    CONVERSION_WARNING,
};

fn listing(paths: &[&str]) -> Vec<String> {
    paths.iter().map(|p| p.to_string()).collect()
}

/// A record with both encodings in memory: `name` in capitals for the one,
/// in braces for the other.
fn loaded(name: &str, check: PatternCheck) -> CheckedRecord {
    let mut record = QasmAndJson::from_path(&format!("corpus/{}", name), true, false);
    let due = record.load(Some(name.to_uppercase()), None).unwrap().unwrap();
    record.finish_conversion(due.direction, Some(format!("{{{}}}", name))).unwrap();
    CheckedRecord { record, check }
}

#[test]
fn circuit_extensions() {
    assert!(has_circuit_extension("a/b.json"));
    assert!(has_circuit_extension("a/b.qasm"));
    assert!(has_circuit_extension("b.x.qasm"));
}

#[test]
fn other_extensions() {
    assert!(!has_circuit_extension("a/qasm.bin"));
    assert!(!has_circuit_extension("a/json.bin"));
    assert!(!has_circuit_extension("a/b"));
    assert!(!has_circuit_extension("a/.json"));
    assert!(!has_circuit_extension("a/b.JSON"));
    assert!(!has_circuit_extension("a/b.qasm2"));
}

#[test]
fn basenames_occur_once_in_first_order() {
    let files = listing(&["d/b.qasm", "d/a.json", "d/b.json", "d/qasm.bin", "d/a.qasm", "d/c.txt", "d/e.json"]);
    assert_eq!(circuit_basenames(&files), vec!["d/b", "d/a", "d/e"]);
}

#[test]
fn basenames_of_an_empty_folder() {
    assert!(circuit_basenames(&Vec::new()).is_empty());
    assert!(circuit_basenames(&listing(&["d/qasm.bin", "d/json.bin"])).is_empty());
}

#[test]
fn scan_finds_what_is_on_disk() {
    let files = listing(&["d/b.qasm", "d/a.json", "d/b.json", "d/json.bin"]);
    let records = scan(&files);
    assert_eq!(records.len(), 2);
    assert_eq!(records[0].qasm_file().path(), "d/b.qasm");
    assert!(records[0].qasm_file().exists_on_disk());
    assert!(records[0].json_file().exists_on_disk());
    assert!(!records[0].needs_conversion());
    assert_eq!(records[1].json_file().path(), "d/a.json");
    assert!(!records[1].qasm_file().exists_on_disk());
    assert!(records[1].json_file().exists_on_disk());
    assert!(records[1].needs_conversion());
}

#[test]
fn conversions_are_counted() {
    let files = listing(&["d/b.qasm", "d/a.json", "d/b.json", "d/c.qasm"]);
    let records = scan(&files);
    assert_eq!(count_conversions(&records), 2);
    assert_eq!(conversion_warning(&records), None);
    assert_eq!(count_conversions(&Vec::new()), 0);
}

#[test]
fn many_conversions_are_warned_of() {
    assert_eq!(CONVERSION_WARNING, 100);
    let mut files: Vec<String> = (0..100).map(|i| format!("d/c{}.qasm", i)).collect();
    assert_eq!(conversion_warning(&scan(&files)), None);
    files.push("d/last.json".to_string());
    assert_eq!(conversion_warning(&scan(&files)), Some(101));
    files.push("d/last.qasm".to_string());
    assert_eq!(conversion_warning(&scan(&files)), None);
}

#[test]
fn retain_valid_keeps_the_compiled_circuits_in_order() {
    let entries = vec![
        loaded("a", PatternCheck::Compiled),
        loaded("b", PatternCheck::CompileFailed),
        loaded("c", PatternCheck::Compiled),
        loaded("d", PatternCheck::ParseFailed),
    ];
    let corpus = Corpus::retain_valid(&entries).ok().unwrap();
    assert_eq!(corpus.len(), 2);
    assert_eq!(corpus.qasm(), &vec!["A".to_string(), "C".to_string()]);
    assert_eq!(corpus.json(), &vec!["{a}".to_string(), "{c}".to_string()]);
}

#[test]
fn retain_valid_of_an_unloaded_record_is_not_found() {
    let entries = vec![
        loaded("a", PatternCheck::Compiled),
        CheckedRecord { record: QasmAndJson::from_path("corpus/b", true, true), check: PatternCheck::Compiled },
    ];
    assert!(matches!(Corpus::retain_valid(&entries), Err(DatasetError::NotFound)));
}

#[test]
fn generate_counts_the_usable_circuits() {
    // Twelve circuits, three of which are no patterns.
    let entries: Vec<CheckedRecord> = (0..12)
        .map(|i| {
            let check = match i {
                2 => PatternCheck::CompileFailed,
                5 => PatternCheck::ParseFailed,
                11 => PatternCheck::CompileFailed,
                _ => PatternCheck::Compiled,
            };
            loaded(&format!("c{}", i), check)
        })
        .collect();
    let dataset = FolderDataset::from_circuit_folder("datasets/eccs/2_6-eccs");
    let made = dataset.generate(false, &entries).ok().unwrap();
    assert_eq!(made.count, 9);
    assert!(made.files.is_empty());
    assert_eq!(made.qasm_cache.path, "datasets/eccs/2_6-eccs/qasm.bin");
    assert_eq!(made.json_cache.path, "datasets/eccs/2_6-eccs/json.bin");
    assert_eq!(dataset.iter_qasm(&made.qasm_cache.bytes).unwrap().len(), 9);
    assert_eq!(dataset.iter_json(&made.json_cache.bytes).unwrap().len(), 9);
}

#[test]
fn generate_saves_the_unsaved_files_when_asked() {
    let entries = vec![loaded("a", PatternCheck::Compiled), loaded("b", PatternCheck::CompileFailed)];
    let dataset = FolderDataset::from_circuit_folder("corpus");
    let made = dataset.generate(true, &entries).ok().unwrap();
    assert_eq!(made.count, 1);
    assert_eq!(made.files.len(), 2);
    assert_eq!(made.files[0].path, "corpus/a.json");
    assert_eq!(made.files[0].contents, "{a}");
    assert_eq!(made.files[1].path, "corpus/b.json");
    assert_eq!(made.files[1].contents, "{b}");
}

#[test]
fn generate_of_an_unloaded_record_is_not_found() {
    let entries =
        vec![CheckedRecord { record: QasmAndJson::from_path("corpus/b", true, true), check: PatternCheck::Compiled }];
    let dataset = FolderDataset::from_circuit_folder("corpus");
    assert!(matches!(dataset.generate(true, &entries), Err(DatasetError::NotFound)));
}

#[test]
fn caches_hold_the_circuits_in_matching_order() {
    let entries = vec![
        loaded("a", PatternCheck::Compiled),
        loaded("b", PatternCheck::Compiled),
        loaded("c", PatternCheck::ParseFailed),
        loaded("d", PatternCheck::Compiled),
    ];
    let dataset = FolderDataset::from_circuit_folder("corpus");
    let made = dataset.generate(false, &entries).ok().unwrap();
    assert_ne!(made.qasm_cache.bytes, made.json_cache.bytes);
    let qasm = dataset.iter_qasm(&made.qasm_cache.bytes).unwrap();
    let json = dataset.iter_json(&made.json_cache.bytes).unwrap();
    assert_eq!(qasm, vec!["A", "B", "D"]);
    assert_eq!(json, vec!["{a}", "{b}", "{d}"]);
}

#[test]
fn cache_bytes_are_a_message_pack_array_of_strings() {
    let entries = vec![loaded("a", PatternCheck::Compiled), loaded("b", PatternCheck::Compiled)];
    let dataset = FolderDataset::from_circuit_folder("corpus");
    let made = dataset.generate(false, &entries).ok().unwrap();
    // An array of two, then two strings of one byte each.
    assert_eq!(made.qasm_cache.bytes, vec![0x92, 0xa1, b'A', 0xa1, b'B']);
    assert_eq!(made.json_cache.bytes, vec![0x92, 0xa3, b'{', b'a', b'}', 0xa3, b'{', b'b', b'}']);
}

#[test]
fn empty_corpus_has_empty_caches() {
    let dataset = FolderDataset::from_circuit_folder("corpus");
    let made = dataset.generate(true, &Vec::new()).ok().unwrap();
    assert_eq!(made.count, 0);
    assert_eq!(made.qasm_cache.bytes, vec![0x90]);
    assert_eq!(dataset.iter_qasm(&made.qasm_cache.bytes).unwrap(), Vec::<String>::new());
}

#[test]
fn corrupt_cache_is_refused() {
    let dataset = FolderDataset::from_circuit_folder("corpus");
    assert_eq!(dataset.iter_qasm(&vec![0x92, 0xa1, b'A']), Err(DatasetError::CorruptCache));
    assert_eq!(dataset.iter_json(&Vec::new()), Err(DatasetError::CorruptCache));
    assert_eq!(dataset.iter_json(&vec![0x01]), Err(DatasetError::CorruptCache));
}

#[test]
fn dataset_name_is_the_leaf_of_its_folder() {
    let dataset = FolderDataset::from_circuit_folder("datasets/random/3_15-random");
    assert_eq!(dataset.circuit_folder(), "datasets/random/3_15-random");
    assert_eq!(dataset.name(), "3_15-random");
    assert_eq!(dataset.qasm_cache(), "datasets/random/3_15-random/qasm.bin");
    assert_eq!(dataset.json_cache(), "datasets/random/3_15-random/json.bin");
}

#[test]
fn dataset_name_skips_a_slash_at_the_end() {
    let dataset = FolderDataset::from_circuit_folder("datasets/eccs/2_6-eccs/");
    assert_eq!(dataset.name(), "2_6-eccs");
    assert_eq!(dataset.qasm_cache(), "datasets/eccs/2_6-eccs/qasm.bin");
}

#[test]
fn generate_of_loaded_records_never_fails() {
    // A record that is no pattern is left out and stops nothing.
    let entries = vec![loaded("a", PatternCheck::ParseFailed), loaded("b", PatternCheck::CompileFailed)];
    let dataset = FolderDataset::from_circuit_folder("corpus");
    let made = dataset.generate(false, &entries).ok().unwrap();
    assert_eq!(made.count, 0);
    assert_eq!(made.qasm_cache.bytes, vec![0x90]);
    assert_eq!(made.json_cache.bytes, vec![0x90]);
}

/// Runs a whole generation over files held in memory, with a converter that
/// wraps the text and a compiler that refuses texts that mention `bad`.
fn generate_in_memory(disk: &mut Vec<(String, String)>) -> usize {
    let dataset = FolderDataset::from_circuit_folder("corpus");
    let files: Vec<String> = disk.iter().map(|(path, _)| path.clone()).collect();
    let read = |disk: &Vec<(String, String)>, path: &str| {
        disk.iter().find(|(p, _)| p == path).map(|(_, text)| text.clone())
    };
    let mut entries = Vec::new();
    for mut record in scan(&files) {
        let qasm_disk = if record.qasm_file().needs_read() { read(disk, record.qasm_file().path()) } else { None };
        let json_disk = if record.json_file().needs_read() { read(disk, record.json_file().path()) } else { None };
        if let Some(due) = record.load(qasm_disk, json_disk).unwrap() {
            let output = format!("<{}>", due.source);
            record.finish_conversion(due.direction, Some(output)).unwrap();
        }
        let check = if record.json().unwrap().contains("bad") {
            PatternCheck::CompileFailed
        } else {
            PatternCheck::Compiled
        };
        entries.push(CheckedRecord { record, check });
    }
    let made = dataset.generate(true, &entries).ok().unwrap();
    for file in made.files {
        disk.push((file.path, file.contents));
    }
    disk.retain(|(path, _)| !path.ends_with(".bin"));
    disk.push((made.qasm_cache.path, String::new()));
    disk.push((made.json_cache.path, String::new()));
    made.count
}

#[test]
fn generating_twice_gives_the_same_count() {
    let mut disk = vec![
        ("corpus/a.qasm".to_string(), "good a".to_string()),
        ("corpus/b.json".to_string(), "bad b".to_string()),
        ("corpus/c.json".to_string(), "good c".to_string()),
        ("corpus/c.qasm".to_string(), "good c".to_string()),
        ("corpus/d.qasm".to_string(), "bad d".to_string()),
        ("corpus/notes.txt".to_string(), "good notes".to_string()),
    ];
    let first = generate_in_memory(&mut disk);
    assert_eq!(first, 2);
    assert_eq!(disk.len(), 11);
    let second = generate_in_memory(&mut disk);
    assert_eq!(second, first);
    assert_eq!(disk.len(), 11);
}

#[test]
fn ecc_dataset_keeps_its_file_and_folder() {
    let dataset = ECCDataset::new("datasets/eccs/3_6-eccs.json".to_string(), "datasets/eccs/3_6-eccs".to_string());
    assert_eq!(dataset.ecc_file(), "datasets/eccs/3_6-eccs.json");
    assert_eq!(dataset.circuit_folder(), "datasets/eccs/3_6-eccs");
}

#[test]
fn ecc_datasets_unpack_beside_their_files() {
    let datasets = generate_ecc_datasets(vec!["datasets/eccs/2_6-eccs.json".to_string(), "other/set".to_string()]);
    assert_eq!(datasets.len(), 2);
    assert_eq!(datasets[0].ecc_file(), "datasets/eccs/2_6-eccs.json");
    assert_eq!(datasets[0].circuit_folder(), "datasets/eccs/2_6-eccs");
    assert_eq!(datasets[1].ecc_file(), "other/set");
    assert_eq!(datasets[1].circuit_folder(), "other/set");
}
