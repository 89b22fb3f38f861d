//! Corpora of circuits: a folder of circuit files, each circuit in two
//! encodings, and the two caches that hold the usable circuits of the folder
//! for fast reading.
//!
//! Nothing here touches the disk. The caller lists the folder, reads and
//! writes files, runs the converter between the encodings and compiles the
//! patterns; it tells the library what it found and is told what to do next.

use crate::datasets::record::{write_views, PatternCheck, QasmAndJson, RecordState};
use crate::msgpack::{pack, packed, texts_of, unpack, unpacked};
use crate::text::{
    extension, joined, leaf, path_extension, path_join, path_leaf, path_stem, path_with_extension, same_text, stem,
    with_extension,
};
use vstd::prelude::*;

pub mod ecc;
pub mod folder;
pub mod random;
pub mod record;

verus! {

/// Why an operation on a dataset gave up.
#[derive(Clone, Copy, Debug, PartialEq, Eq, Structural)]
pub enum DatasetError {
    /// A circuit has neither encoding, in memory or on disk.
    NotFound,
    /// The converter between the encodings gave no usable text.
    ConversionFailure,
    /// A circuit cannot be used as a pattern.
    InvalidPattern,
    /// The random generator ran out of attempts.
    GenerationExhausted,
    /// A file that was to be saved could not be written.
    SaveFailed,
    /// A cache of encoded circuits could not be read back.
    CorruptCache,
}

/// A file for the caller to write: where, and what.
#[derive(Clone, Debug)]
pub struct FileWrite {
    pub path: String,
    pub contents: String,
}

/// A cache for the caller to write: where, and which bytes.
#[derive(Clone, Debug)]
pub struct CacheWrite {
    pub path: String,
    pub bytes: Vec<u8>,
}

/// More conversions than this in one folder are worth a warning.
pub const CONVERSION_WARNING: usize = 100;

/// `path` has the extension of one of the two encodings.
pub open spec fn is_circuit_path(path: Seq<char>) -> bool {
    extension(path) == Some("json"@) || extension(path) == Some("qasm"@)
}

/// Whether `path` has the extension of one of the two encodings.
pub fn has_circuit_extension(path: &str) -> (circuit: bool)
    ensures
        circuit == is_circuit_path(path@),
{
    match path_extension(path) {
        Some(ext) => same_text(ext.as_str(), "json") || same_text(ext.as_str(), "qasm"),
        None => false,
    }
}

/// The circuits of a folder: the paths of its circuit files without their
/// extensions, each once, in the order in which they first occur.
pub open spec fn circuit_stems(listing: Seq<Seq<char>>) -> Seq<Seq<char>>
    decreases listing.len(),
{
    if listing.len() == 0 {
        Seq::empty()
    } else {
        let before = circuit_stems(listing.drop_last());
        let path = listing.last();
        if is_circuit_path(path) && !before.contains(stem(path)) {
            before.push(stem(path))
        } else {
            before
        }
    }
}

fn holds(texts: &Vec<String>, text: &String) -> (held: bool)
    ensures
        held == texts_of(texts@).contains(text@),
{
    let mut at: usize = 0;
    while at < texts.len()
        invariant
            at <= texts.len(),
            forall|i: int| 0 <= i < at ==> texts_of(texts@)[i] != text@,
        decreases texts.len() - at,
    {
        if texts[at] == *text {
            assert(texts_of(texts@)[at as int] == text@);
            return true;
        }
        at = at + 1;
    }
    false
}

/// The circuits of a folder, given the paths of its files.
pub fn circuit_basenames(listing: &Vec<String>) -> (stems: Vec<String>)
    ensures
        texts_of(stems@) == circuit_stems(texts_of(listing@)),
{
    let mut stems: Vec<String> = Vec::new();
    let mut at: usize = 0;
    while at < listing.len()
        invariant
            at <= listing.len(),
            texts_of(stems@) == circuit_stems(texts_of(listing@).take(at as int)),
        decreases listing.len() - at,
    {
        let ghost seen = texts_of(listing@).take(at as int);
        let ghost grown = texts_of(listing@).take(at + 1);
        proof {
            assert(grown.drop_last() =~= seen);
        }
        if has_circuit_extension(listing[at].as_str()) {
            let base = path_stem(listing[at].as_str());
            if !holds(&stems, &base) {
                stems.push(base);
            }
        }
        at = at + 1;
    }
    assert(texts_of(listing@).take(at as int) =~= texts_of(listing@));
    stems
}

/// What the records hold.
pub open spec fn record_views(records: Seq<QasmAndJson>) -> Seq<RecordState> {
    records.map_values(|r: QasmAndJson| r@)
}

/// The record of circuit `base` in a folder with the files `listing`, with
/// nothing in memory yet.
pub open spec fn found(listing: Seq<Seq<char>>, base: Seq<char>) -> RecordState {
    RecordState::fresh(
        base,
        listing.contains(with_extension(base, "qasm"@)),
        listing.contains(with_extension(base, "json"@)),
    )
}

/// The records of a folder with the files `listing`: one for each circuit.
pub open spec fn scanned(listing: Seq<Seq<char>>) -> Seq<RecordState> {
    circuit_stems(listing).map_values(|base: Seq<char>| found(listing, base))
}

/// The records of a folder, given the paths of its files: one for each
/// circuit, each file of it on disk where `listing` has its path.
pub fn scan(listing: &Vec<String>) -> (records: Vec<QasmAndJson>)
    ensures
        record_views(records@) == scanned(texts_of(listing@)),
{
    let stems = circuit_basenames(listing);
    let mut records: Vec<QasmAndJson> = Vec::new();
    let mut at: usize = 0;
    while at < stems.len()
        invariant
            at <= stems.len(),
            texts_of(stems@) == circuit_stems(texts_of(listing@)),
            records@.len() == at,
            forall|i: int| 0 <= i < at ==> (#[trigger] records@[i])@ == found(texts_of(listing@), stems@[i]@),
        decreases stems.len() - at,
    {
        let base = stems[at].as_str();
        let qasm_path = path_with_extension(base, "qasm");
        let json_path = path_with_extension(base, "json");
        let record = QasmAndJson::from_path(base, holds(listing, &qasm_path), holds(listing, &json_path));
        records.push(record);
        at = at + 1;
    }
    records
}

/// How many of the records need a conversion.
pub open spec fn conversions(records: Seq<RecordState>) -> nat {
    records.filter(|r: RecordState| r.needs_conversion()).len()
}

/// How many of the records need a conversion.
pub fn count_conversions(records: &Vec<QasmAndJson>) -> (count: usize)
    ensures
        count == conversions(record_views(records@)),
{
    let mut count: usize = 0;
    let mut at: usize = 0;
    let ghost needs = |r: RecordState| r.needs_conversion();
    while at < records.len()
        invariant
            at <= records.len(),
            count <= at,
            needs == |r: RecordState| r.needs_conversion(),
            count == record_views(records@).take(at as int).filter(needs).len(),
        decreases records.len() - at,
    {
        proof {
            let grown = record_views(records@).take(at + 1);
            assert(grown.drop_last() =~= record_views(records@).take(at as int));
            reveal(Seq::filter);
        }
        if records[at].needs_conversion() {
            count = count + 1;
        }
        at = at + 1;
    }
    assert(record_views(records@).take(at as int) =~= record_views(records@));
    count
}

/// The number of conversions ahead, where they are many enough to warn of.
pub fn conversion_warning(records: &Vec<QasmAndJson>) -> (warning: Option<usize>)
    ensures
        warning is Some <==> conversions(record_views(records@)) > CONVERSION_WARNING,
        warning matches Some(n) ==> n == conversions(record_views(records@)),
{
    let count: usize = count_conversions(records);
    if count > CONVERSION_WARNING {
        Some(count)
    } else {
        None
    }
}

/// A record together with what came of compiling its circuit.
pub struct CheckedRecord {
    pub record: QasmAndJson,
    pub check: PatternCheck,
}

/// What the checked records hold, and how each fared.
pub open spec fn entry_views(entries: Seq<CheckedRecord>) -> Seq<(RecordState, PatternCheck)> {
    entries.map_values(|e: CheckedRecord| (e.record@, e.check))
}

/// Every record has both encodings in memory.
pub open spec fn all_complete(entries: Seq<(RecordState, PatternCheck)>) -> bool {
    forall|i: int| 0 <= i < entries.len() ==> (#[trigger] entries[i]).0.complete()
}

/// The two texts of every record that can be used as a pattern, in the order
/// of the records: the one encoding first, the other second.
pub open spec fn retained(entries: Seq<(RecordState, PatternCheck)>) -> Seq<(Seq<char>, Seq<char>)>
    decreases entries.len(),
{
    if entries.len() == 0 {
        Seq::empty()
    } else {
        let before = retained(entries.drop_last());
        let (record, check) = entries.last();
        if record.usable(check) {
            before.push((record.qasm.contents->0, record.json.contents->0))
        } else {
            before
        }
    }
}

/// The first text of every pair.
pub open spec fn firsts(pairs: Seq<(Seq<char>, Seq<char>)>) -> Seq<Seq<char>> {
    pairs.map_values(|p: (Seq<char>, Seq<char>)| p.0)
}

/// The second text of every pair.
pub open spec fn seconds(pairs: Seq<(Seq<char>, Seq<char>)>) -> Seq<Seq<char>> {
    pairs.map_values(|p: (Seq<char>, Seq<char>)| p.1)
}

/// The files that saving all the records writes, record after record.
pub open spec fn all_writes(entries: Seq<(RecordState, PatternCheck)>) -> Seq<(Seq<char>, Seq<char>)>
    decreases entries.len(),
{
    if entries.len() == 0 {
        Seq::empty()
    } else {
        all_writes(entries.drop_last()) + entries.last().0.writes()
    }
}

/// The usable circuits of a folder: their texts in the two encodings, the
/// text at one index of the one belonging to the text at that index of the
/// other.
pub struct Corpus {
    qasm: Vec<String>,
    json: Vec<String>,
}

impl Corpus {
    #[verifier::type_invariant]
    spec fn aligned(self) -> bool {
        self.qasm.len() == self.json.len()
    }

    /// The texts of the circuits in the one encoding.
    pub closed spec fn qasm_texts(&self) -> Seq<Seq<char>> {
        texts_of(self.qasm@)
    }

    /// The texts of the circuits in the other encoding.
    pub closed spec fn json_texts(&self) -> Seq<Seq<char>> {
        texts_of(self.json@)
    }

    /// Keeps the records that can be used as patterns. All records must
    /// have been loaded: a record that lacks an encoding is not found.
    pub fn retain_valid(entries: &Vec<CheckedRecord>) -> (kept: Result<Corpus, DatasetError>)
        ensures
            kept is Ok <==> all_complete(entry_views(entries@)),
            kept matches Err(e) ==> e == DatasetError::NotFound,
            kept matches Ok(corpus) ==> {
                &&& corpus.qasm_texts() == firsts(retained(entry_views(entries@)))
                &&& corpus.json_texts() == seconds(retained(entry_views(entries@)))
            },
    {
        let mut qasm: Vec<String> = Vec::new();
        let mut json: Vec<String> = Vec::new();
        let mut at: usize = 0;
        let ghost views = entry_views(entries@);
        while at < entries.len()
            invariant
                at <= entries.len(),
                views == entry_views(entries@),
                all_complete(views.take(at as int)),
                qasm.len() == json.len(),
                texts_of(qasm@) == firsts(retained(views.take(at as int))),
                texts_of(json@) == seconds(retained(views.take(at as int))),
            decreases entries.len() - at,
        {
            let entry = &entries[at];
            let ghost seen = views.take(at as int);
            let ghost grown = views.take(at + 1);
            proof {
                assert(grown.drop_last() =~= seen);
            }
            match (entry.record.qasm(), entry.record.json()) {
                (Some(q), Some(j)) => {
                    if entry.record.valid_pattern(entry.check) {
                        let ghost before_q = texts_of(qasm@);
                        let ghost before_j = texts_of(json@);
                        qasm.push(q.to_owned());
                        json.push(j.to_owned());
                        assert(firsts(retained(grown)) =~= before_q.push(q@));
                        assert(seconds(retained(grown)) =~= before_j.push(j@));
                    }
                },
                _ => {
                    return Err(DatasetError::NotFound);
                },
            }
            at = at + 1;
        }
        assert(views.take(at as int) =~= views);
        Ok(Corpus { qasm, json })
    }

    /// How many circuits the corpus holds.
    pub fn len(&self) -> (count: usize)
        ensures
            count == self.qasm_texts().len(),
            count == self.json_texts().len(),
    {
        proof {
            use_type_invariant(self);
        }
        self.qasm.len()
    }

    /// The circuits in the one encoding.
    pub fn qasm(&self) -> (texts: &Vec<String>)
        ensures
            texts_of(texts@) == self.qasm_texts(),
    {
        &self.qasm
    }

    /// The circuits in the other encoding.
    pub fn json(&self) -> (texts: &Vec<String>)
        ensures
            texts_of(texts@) == self.json_texts(),
    {
        &self.json
    }
}

/// What generating a dataset made: how many circuits it kept, and what the
/// caller has to write.
pub struct Generated {
    /// The number of circuits that can be used as patterns.
    pub count: usize,
    /// The files of single circuits, where they were asked for.
    pub files: Vec<FileWrite>,
    /// The cache of the circuits in the one encoding.
    pub qasm_cache: CacheWrite,
    /// The cache of the circuits in the other encoding.
    pub json_cache: CacheWrite,
}

/// A dataset that lives in a folder of circuit files.
pub trait CircuitDataset: Sized {
    /// The folder of the dataset.
    spec fn folder(&self) -> Seq<char>;

    fn from_circuit_folder(folder: &str) -> (dataset: Self)
        ensures
            dataset.folder() == folder@,
    ;

    fn circuit_folder(&self) -> (folder: &str)
        ensures
            folder@ == self.folder(),
    ;
}

pub trait Dataset {
    /// The folder that holds the dataset and its caches.
    spec fn home(&self) -> Seq<char>;

    /// Generates the dataset from its loaded and checked records.
    ///
    /// Keeps the circuits that can be used as patterns and encodes them
    /// into the two caches, circuit for circuit in the same order. With
    /// `save_files` the texts that are not on disk yet are to be written as
    /// well. A circuit that is no pattern is left out and stops nothing. A
    /// record that lacks an encoding is not found, and that alone fails.
    ///
    /// Returns the number of circuits generated, and what to write.
    fn generate(&self, save_files: bool, entries: &Vec<CheckedRecord>) -> (made: Result<Generated, DatasetError>)
        ensures
            made is Ok <==> all_complete(entry_views(entries@)),
            made matches Err(e) ==> e == DatasetError::NotFound,
            made matches Ok(g) ==> {
                let kept = retained(entry_views(entries@));
                &&& g.count == kept.len()
                &&& g.qasm_cache.path@ == joined(self.home(), "qasm.bin"@)
                &&& g.qasm_cache.bytes@ == packed(firsts(kept))
                &&& g.json_cache.path@ == joined(self.home(), "json.bin"@)
                &&& g.json_cache.bytes@ == packed(seconds(kept))
                &&& write_views(g.files@) == if save_files {
                    all_writes(entry_views(entries@))
                } else {
                    Seq::empty()
                }
            },
    ;

    /// The circuits as qasm strings, out of the bytes of their cache.
    fn iter_qasm(&self, cache: &Vec<u8>) -> (texts: Result<Vec<String>, DatasetError>)
        ensures
            texts is Ok <==> unpacked(cache@) is Some,
            texts matches Ok(t) ==> unpacked(cache@) == Some(texts_of(t@)),
            texts matches Err(e) ==> e == DatasetError::CorruptCache,
    ;

    /// The circuits as json strings, out of the bytes of their cache.
    fn iter_json(&self, cache: &Vec<u8>) -> (texts: Result<Vec<String>, DatasetError>)
        ensures
            texts is Ok <==> unpacked(cache@) is Some,
            texts matches Ok(t) ==> unpacked(cache@) == Some(texts_of(t@)),
            texts matches Err(e) ==> e == DatasetError::CorruptCache,
    ;

    /// Where the cache of the qasm strings is kept.
    fn qasm_cache(&self) -> (path: String)
        ensures
            path@ == joined(self.home(), "qasm.bin"@),
    ;

    /// Where the cache of the json strings is kept.
    fn json_cache(&self) -> (path: String)
        ensures
            path@ == joined(self.home(), "json.bin"@),
    ;

    /// Dataset name: the last component of its folder.
    fn name(&self) -> (name: String)
        ensures
            name@ == leaf(self.home()),
    ;
}

fn decode_cache(cache: &Vec<u8>) -> (texts: Result<Vec<String>, DatasetError>)
    ensures
        texts is Ok <==> unpacked(cache@) is Some,
        texts matches Ok(t) ==> unpacked(cache@) == Some(texts_of(t@)),
        texts matches Err(e) ==> e == DatasetError::CorruptCache,
{
    match unpack(cache) {
        Ok(texts) => Ok(texts),
        Err(_) => Err(DatasetError::CorruptCache),
    }
}

fn unsaved_of_all(entries: &Vec<CheckedRecord>) -> (files: Vec<FileWrite>)
    ensures
        write_views(files@) == all_writes(entry_views(entries@)),
{
    let mut files: Vec<FileWrite> = Vec::new();
    let mut at: usize = 0;
    let ghost views = entry_views(entries@);
    while at < entries.len()
        invariant
            at <= entries.len(),
            views == entry_views(entries@),
            write_views(files@) == all_writes(views.take(at as int)),
        decreases entries.len() - at,
    {
        let mut more = entries[at].record.unsaved_files();
        files.append(&mut more);
        proof {
            let grown = views.take(at + 1);
            assert(grown.drop_last() =~= views.take(at as int));
        }
        at = at + 1;
    }
    assert(views.take(at as int) =~= views);
    files
}

impl<T: CircuitDataset> Dataset for T {
    open spec fn home(&self) -> Seq<char> {
        self.folder()
    }

    fn generate(&self, save_files: bool, entries: &Vec<CheckedRecord>) -> (made: Result<Generated, DatasetError>) {
        let corpus = match Corpus::retain_valid(entries) {
            Ok(corpus) => corpus,
            Err(e) => {
                return Err(e);
            },
        };
        let files = if save_files {
            unsaved_of_all(entries)
        } else {
            Vec::new()
        };
        let qasm_bytes = match pack(corpus.qasm()) {
            Ok(bytes) => bytes,
            Err(_) => {
                return Err(DatasetError::CorruptCache);
            },
        };
        let json_bytes = match pack(corpus.json()) {
            Ok(bytes) => bytes,
            Err(_) => {
                return Err(DatasetError::CorruptCache);
            },
        };
        Ok(
            Generated {
                count: corpus.len(),
                files,
                qasm_cache: CacheWrite { path: self.qasm_cache(), bytes: qasm_bytes },
                json_cache: CacheWrite { path: self.json_cache(), bytes: json_bytes },
            },
        )
    }

    fn iter_qasm(&self, cache: &Vec<u8>) -> (texts: Result<Vec<String>, DatasetError>) {
        decode_cache(cache)
    }

    fn iter_json(&self, cache: &Vec<u8>) -> (texts: Result<Vec<String>, DatasetError>) {
        decode_cache(cache)
    }

    fn qasm_cache(&self) -> (path: String) {
        path_join(self.circuit_folder(), "qasm.bin")
    }

    fn json_cache(&self) -> (path: String) {
        path_join(self.circuit_folder(), "json.bin")
    }

    fn name(&self) -> (name: String) {
        path_leaf(self.circuit_folder())
    }
}

/// The circuits of a folder, as they are: nothing generates them.
pub struct FolderDataset {
    circuit_folder: String,
}

impl CircuitDataset for FolderDataset {
    closed spec fn folder(&self) -> Seq<char> {
        self.circuit_folder@
    }

    fn from_circuit_folder(folder: &str) -> (dataset: Self) {
        Self { circuit_folder: folder.to_owned() }
    }

    fn circuit_folder(&self) -> (folder: &str) {
        self.circuit_folder.as_str()
    }
}

} // verus!
