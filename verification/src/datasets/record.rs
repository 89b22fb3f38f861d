//! One circuit in its two encodings: the two files, what is known of each,
//! and the rule that derives the encoding that is missing from the one that
//! is there.

use crate::datasets::{DatasetError, FileWrite};
use crate::text::{path_with_extension, with_extension};
use vstd::prelude::*;

verus! {

/// The text inside an optional string.
pub open spec fn text_of(text: Option<String>) -> Option<Seq<char>> {
    match text {
        Some(t) => Some(t@),
        None => None,
    }
}

/// What is known of one file: its path, its text where that is in memory,
/// whether the text in memory is the text on disk, and whether the file was
/// on disk when it was first looked for.
pub struct FileState {
    pub path: Seq<char>,
    pub contents: Option<Seq<char>>,
    pub saved: bool,
    pub on_disk: bool,
}

impl FileState {
    /// A file of which only the path is known, and whether it is on disk.
    pub open spec fn fresh(path: Seq<char>, on_disk: bool) -> FileState {
        FileState { path, contents: None, saved: false, on_disk }
    }

    /// The file holds nothing, in memory or on disk.
    pub open spec fn is_empty(self) -> bool {
        self.contents is None && !self.on_disk
    }

    /// The text is on disk only, so loading has to read it.
    pub open spec fn needs_read(self) -> bool {
        self.contents is None && self.on_disk
    }

    /// The file after loading, where reading the disk gave `disk`. A text
    /// in memory stays; a text that is read is the saved one.
    pub open spec fn loaded(self, disk: Option<Seq<char>>) -> FileState {
        if self.needs_read() && disk is Some {
            FileState { contents: disk, saved: true, ..self }
        } else {
            self
        }
    }

    /// The file with `text` in memory, not yet on disk.
    pub open spec fn with_contents(self, text: Seq<char>) -> FileState {
        FileState { contents: Some(text), saved: false, ..self }
    }

    /// Saving has something to write.
    pub open spec fn unsaved(self) -> bool {
        !self.saved && self.contents is Some
    }

    /// The file after saving, where `written` tells whether the write that
    /// was due has been done. Only a write that was done makes the file
    /// saved; a file with nothing to write stays as it is.
    pub open spec fn after_save(self, written: bool) -> FileState {
        if self.unsaved() && written {
            FileState { saved: true, ..self }
        } else {
            self
        }
    }

    /// What saving returns: it fails where a write was due and was not done.
    pub open spec fn save_outcome(self, written: bool) -> Result<(), DatasetError> {
        if self.unsaved() && !written {
            Err(DatasetError::SaveFailed)
        } else {
            Ok(())
        }
    }

    /// A saved file has its text in memory.
    pub open spec fn wf(self) -> bool {
        self.saved ==> self.contents is Some
    }
}

/// One file that is read when first needed and written when it has changed.
pub struct UnsavedFile {
    path: String,
    contents: Option<String>,
    is_saved: bool,
    on_disk: bool,
}

impl View for UnsavedFile {
    type V = FileState;

    closed spec fn view(&self) -> FileState {
        FileState { path: self.path@, contents: text_of(self.contents), saved: self.is_saved, on_disk: self.on_disk }
    }
}

impl UnsavedFile {
    #[verifier::type_invariant]
    spec fn saved_text_is_held(self) -> bool {
        self.is_saved ==> self.contents is Some
    }

    /// The file at `path`, of which nothing is in memory yet. `on_disk` says
    /// whether the path exists now; it is not looked up again.
    pub fn new(path: String, on_disk: bool) -> (file: Self)
        ensures
            file@ == FileState::fresh(path@, on_disk),
    {
        Self { path, contents: None, is_saved: false, on_disk }
    }

    pub fn path(&self) -> (path: &str)
        ensures
            path@ == self@.path,
    {
        self.path.as_str()
    }

    /// The text in memory.
    pub fn contents(&self) -> (text: Option<&str>)
        ensures
            text is Some == self@.contents is Some,
            text matches Some(t) ==> self@.contents == Some(t@),
    {
        match &self.contents {
            Some(t) => Some(t.as_str()),
            None => None,
        }
    }

    /// Whether the text in memory is the text on disk. Where it is, there is
    /// a text in memory.
    pub fn is_saved(&self) -> (saved: bool)
        ensures
            saved == self@.saved,
            self@.wf(),
    {
        proof {
            use_type_invariant(self);
        }
        self.is_saved
    }

    /// Whether the file was on disk when this value was made.
    pub fn exists_on_disk(&self) -> (on_disk: bool)
        ensures
            on_disk == self@.on_disk,
    {
        self.on_disk
    }

    pub fn is_empty(&self) -> (empty: bool)
        ensures
            empty == self@.is_empty(),
    {
        self.contents.is_none() && !self.exists_on_disk()
    }

    /// Whether `load` needs the text from the disk.
    pub fn needs_read(&self) -> (needed: bool)
        ensures
            needed == self@.needs_read(),
    {
        self.contents.is_none() && self.on_disk
    }

    /// Brings the text into memory. `disk` is the text that was read from the
    /// path, or nothing where the path was not read or could not be. A text
    /// in memory stays as it is. The file is not found where it has no text
    /// afterwards.
    pub fn load(&mut self, disk: Option<String>) -> (found: Result<(), DatasetError>)
        ensures
            final(self)@ == old(self)@.loaded(text_of(disk)),
            found is Ok <==> final(self)@.contents is Some,
            found matches Err(e) ==> e == DatasetError::NotFound,
    {
        if self.needs_read() {
            if let Some(text) = disk {
                self.contents = Some(text);
                self.is_saved = true;
            }
        }
        if self.contents.is_some() {
            Ok(())
        } else {
            Err(DatasetError::NotFound)
        }
    }

    /// Puts `contents` in memory, to be saved later.
    pub fn set_contents(&mut self, contents: String)
        ensures
            final(self)@ == old(self)@.with_contents(contents@),
    {
        self.contents = Some(contents);
        self.is_saved = false;
    }

    /// The file to write, where the text in memory is not on disk yet.
    pub fn unsaved(&self) -> (write: Option<FileWrite>)
        ensures
            write is Some <==> self@.unsaved(),
            write matches Some(w) ==> w.path@ == self@.path && Some(w.contents@) == self@.contents,
    {
        if self.is_saved {
            return None;
        }
        match &self.contents {
            Some(text) => Some(FileWrite { path: self.path.clone(), contents: text.clone() }),
            None => None,
        }
    }

    /// Takes the outcome of the write that `unsaved` asked for: `written`
    /// tells whether the caller has written the file. Only then does the text
    /// count as saved; after a write that failed it is still to be saved, and
    /// `unsaved` gives the file again. Where nothing was to be written
    /// nothing changes.
    pub fn save(&mut self, written: bool) -> (saved: Result<(), DatasetError>)
        ensures
            final(self)@ == old(self)@.after_save(written),
            saved == old(self)@.save_outcome(written),
    {
        if self.is_saved || self.contents.is_none() {
            Ok(())
        } else if written {
            self.is_saved = true;
            Ok(())
        } else {
            Err(DatasetError::SaveFailed)
        }
    }
}

/// From which encoding to which a text is converted.
#[derive(Clone, Copy, Debug, PartialEq, Eq, Structural)]
pub enum Direction {
    JsonToQasm,
    QasmToJson,
}

/// A text for the caller to convert, and in which direction.
#[derive(Clone, Debug)]
pub struct Conversion {
    pub direction: Direction,
    pub source: String,
}

/// What came of compiling a circuit into a pattern.
#[derive(Clone, Copy, Debug, PartialEq, Eq, Structural)]
pub enum PatternCheck {
    /// The text was parsed and the circuit compiled.
    Compiled,
    /// The text is no circuit.
    ParseFailed,
    /// The circuit is no pattern.
    CompileFailed,
}

/// What is known of the two files of one circuit.
pub struct RecordState {
    pub qasm: FileState,
    pub json: FileState,
}

impl RecordState {
    /// The two files that share the path `path` but for the extension, with
    /// nothing in memory yet.
    pub open spec fn fresh(path: Seq<char>, qasm_on_disk: bool, json_on_disk: bool) -> RecordState {
        RecordState {
            qasm: FileState::fresh(with_extension(path, "qasm"@), qasm_on_disk),
            json: FileState::fresh(with_extension(path, "json"@), json_on_disk),
        }
    }

    /// At least one encoding is missing altogether.
    pub open spec fn needs_conversion(self) -> bool {
        self.qasm.is_empty() || self.json.is_empty()
    }

    /// The conversion that loading asks for: from the encoding that is there
    /// to the one that is missing. None where both are there, or neither.
    pub open spec fn conversion(self) -> Option<Direction> {
        if self.qasm.is_empty() && !self.json.is_empty() {
            Some(Direction::JsonToQasm)
        } else if self.json.is_empty() && !self.qasm.is_empty() {
            Some(Direction::QasmToJson)
        } else {
            None
        }
    }

    /// The record after loading, where reading the two paths gave
    /// `qasm_disk` and `json_disk`. Where a conversion is due only its
    /// source is loaded.
    pub open spec fn loaded(self, qasm_disk: Option<Seq<char>>, json_disk: Option<Seq<char>>) -> RecordState {
        match self.conversion() {
            Some(Direction::JsonToQasm) => RecordState { json: self.json.loaded(json_disk), ..self },
            Some(Direction::QasmToJson) => RecordState { qasm: self.qasm.loaded(qasm_disk), ..self },
            None => RecordState { qasm: self.qasm.loaded(qasm_disk), json: self.json.loaded(json_disk) },
        }
    }

    /// The text of the encoding that a conversion in `direction` reads.
    pub open spec fn source(self, direction: Direction) -> Option<Seq<char>> {
        match direction {
            Direction::JsonToQasm => self.json.contents,
            Direction::QasmToJson => self.qasm.contents,
        }
    }

    /// What loading returns: the conversion that is due, with its source
    /// text; nothing where both encodings are in memory; or that the record
    /// was not found, where an encoding that should be there is not.
    pub open spec fn load_outcome(self, qasm_disk: Option<Seq<char>>, json_disk: Option<Seq<char>>) -> Result<
        Option<(Direction, Seq<char>)>,
        DatasetError,
    > {
        let after = self.loaded(qasm_disk, json_disk);
        match self.conversion() {
            Some(direction) => match after.source(direction) {
                Some(text) => Ok(Some((direction, text))),
                None => Err(DatasetError::NotFound),
            },
            None => if after.qasm.contents is Some && after.json.contents is Some {
                Ok(None)
            } else {
                Err(DatasetError::NotFound)
            },
        }
    }

    /// The record after the converter gave `output` for a conversion in
    /// `direction`: the text goes into the other encoding, unsaved. Without
    /// an output nothing changes.
    pub open spec fn converted(self, direction: Direction, output: Option<Seq<char>>) -> RecordState {
        match output {
            Some(text) => match direction {
                Direction::JsonToQasm => RecordState { qasm: self.qasm.with_contents(text), ..self },
                Direction::QasmToJson => RecordState { json: self.json.with_contents(text), ..self },
            },
            None => self,
        }
    }

    /// The files that saving writes, as pairs of path and text.
    pub open spec fn writes(self) -> Seq<(Seq<char>, Seq<char>)> {
        let qasm = if self.qasm.unsaved() {
            seq![(self.qasm.path, self.qasm.contents->0)]
        } else {
            Seq::empty()
        };
        let json = if self.json.unsaved() {
            seq![(self.json.path, self.json.contents->0)]
        } else {
            Seq::empty()
        };
        qasm + json
    }

    /// The record after saving, where the two flags tell whether the write
    /// of each encoding has been done.
    pub open spec fn after_save(self, qasm_written: bool, json_written: bool) -> RecordState {
        RecordState { qasm: self.qasm.after_save(qasm_written), json: self.json.after_save(json_written) }
    }

    /// What saving returns: it fails where a write of either encoding was
    /// due and was not done.
    pub open spec fn save_outcome(self, qasm_written: bool, json_written: bool) -> Result<(), DatasetError> {
        if self.qasm.save_outcome(qasm_written) is Ok && self.json.save_outcome(json_written) is Ok {
            Ok(())
        } else {
            Err(DatasetError::SaveFailed)
        }
    }

    /// Both encodings are in memory.
    pub open spec fn complete(self) -> bool {
        self.qasm.contents is Some && self.json.contents is Some
    }

    /// The record can be used as a pattern, where compiling it gave `check`.
    pub open spec fn usable(self, check: PatternCheck) -> bool {
        self.json.contents is Some && check == PatternCheck::Compiled
    }

}

/// The files as pairs of path and text.
pub open spec fn write_views(files: Seq<FileWrite>) -> Seq<(Seq<char>, Seq<char>)> {
    files.map_values(|f: FileWrite| (f.path@, f.contents@))
}

/// What `load` returned, with the text to convert in place of the string.
pub open spec fn due_view(due: Result<Option<Conversion>, DatasetError>) -> Result<
    Option<(Direction, Seq<char>)>,
    DatasetError,
> {
    match due {
        Ok(Some(c)) => Ok(Some((c.direction, c.source@))),
        Ok(None) => Ok(None),
        Err(e) => Err(e),
    }
}

/// One circuit in its two encodings, each in a file of its own.
pub struct QasmAndJson {
    qasm: UnsavedFile,
    json: UnsavedFile,
}

impl View for QasmAndJson {
    type V = RecordState;

    closed spec fn view(&self) -> RecordState {
        RecordState { qasm: self.qasm@, json: self.json@ }
    }
}

impl QasmAndJson {
    /// The record whose two files are `path` with the extensions `qasm` and
    /// `json`. The two flags say whether each file is on disk now.
    pub fn from_path(path: &str, qasm_on_disk: bool, json_on_disk: bool) -> (record: Self)
        ensures
            record@ == RecordState::fresh(path@, qasm_on_disk, json_on_disk),
    {
        let qasm_path = path_with_extension(path, "qasm");
        let json_path = path_with_extension(path, "json");
        Self { qasm: UnsavedFile::new(qasm_path, qasm_on_disk), json: UnsavedFile::new(json_path, json_on_disk) }
    }

    /// The file of the one encoding.
    pub fn qasm_file(&self) -> (file: &UnsavedFile)
        ensures
            file@ == self@.qasm,
    {
        &self.qasm
    }

    /// The file of the other encoding.
    pub fn json_file(&self) -> (file: &UnsavedFile)
        ensures
            file@ == self@.json,
    {
        &self.json
    }

    pub fn qasm(&self) -> (text: Option<&str>)
        ensures
            text is Some == self@.qasm.contents is Some,
            text matches Some(t) ==> self@.qasm.contents == Some(t@),
    {
        self.qasm.contents()
    }

    pub fn json(&self) -> (text: Option<&str>)
        ensures
            text is Some == self@.json.contents is Some,
            text matches Some(t) ==> self@.json.contents == Some(t@),
    {
        self.json.contents()
    }

    pub fn needs_conversion(&self) -> (needed: bool)
        ensures
            needed == self@.needs_conversion(),
    {
        self.qasm.is_empty() || self.json.is_empty()
    }

    /// Load both files, either from disk or by converting the other file.
    ///
    /// `qasm_disk` and `json_disk` are the texts read from the two paths, or
    /// nothing where a path was not read or could not be. Where one
    /// encoding is missing and the other is there, the other is loaded and
    /// returned for the caller to convert; `finish_conversion` takes what
    /// the converter gave. Otherwise both are loaded. The record is not
    /// found where an encoding that should be there has no text.
    pub fn load(&mut self, qasm_disk: Option<String>, json_disk: Option<String>) -> (due: Result<
        Option<Conversion>,
        DatasetError,
    >)
        ensures
            final(self)@ == old(self)@.loaded(text_of(qasm_disk), text_of(json_disk)),
            due_view(due) == old(self)@.load_outcome(text_of(qasm_disk), text_of(json_disk)),
    {
        if self.qasm.is_empty() && !self.json.is_empty() {
            let _ = self.json.load(json_disk);
            match self.json.contents() {
                Some(text) => Ok(Some(Conversion { direction: Direction::JsonToQasm, source: text.to_owned() })),
                None => Err(DatasetError::NotFound),
            }
        } else if self.json.is_empty() && !self.qasm.is_empty() {
            let _ = self.qasm.load(qasm_disk);
            match self.qasm.contents() {
                Some(text) => Ok(Some(Conversion { direction: Direction::QasmToJson, source: text.to_owned() })),
                None => Err(DatasetError::NotFound),
            }
        } else {
            let json = self.json.load(json_disk);
            let qasm = self.qasm.load(qasm_disk);
            if json.is_ok() && qasm.is_ok() {
                Ok(None)
            } else {
                Err(DatasetError::NotFound)
            }
        }
    }

    /// Takes what the converter gave for a conversion in `direction`: the
    /// text becomes the other encoding, in memory only. Without a text the
    /// conversion has failed and the record stays as it is.
    pub fn finish_conversion(&mut self, direction: Direction, output: Option<String>) -> (done: Result<
        (),
        DatasetError,
    >)
        ensures
            final(self)@ == old(self)@.converted(direction, text_of(output)),
            done is Ok <==> output is Some,
            done matches Err(e) ==> e == DatasetError::ConversionFailure,
    {
        match output {
            Some(text) => {
                match direction {
                    Direction::JsonToQasm => self.qasm.set_contents(text),
                    Direction::QasmToJson => self.json.set_contents(text),
                }
                Ok(())
            },
            None => Err(DatasetError::ConversionFailure),
        }
    }

    /// The files to write, the one encoding before the other: each text in
    /// memory that is not on disk yet.
    pub fn unsaved_files(&self) -> (files: Vec<FileWrite>)
        ensures
            write_views(files@) == self@.writes(),
    {
        let mut files: Vec<FileWrite> = Vec::new();
        if let Some(write) = self.qasm.unsaved() {
            files.push(write);
        }
        if let Some(write) = self.json.unsaved() {
            files.push(write);
        }
        files
    }

    /// Takes the outcome of the writes that `unsaved_files` asked for: each
    /// flag tells whether the caller has written that encoding. An encoding
    /// counts as saved only once its write is done; one whose write failed is
    /// still to be saved.
    pub fn save(&mut self, qasm_written: bool, json_written: bool) -> (saved: Result<(), DatasetError>)
        ensures
            final(self)@ == old(self)@.after_save(qasm_written, json_written),
            saved == old(self)@.save_outcome(qasm_written, json_written),
    {
        let qasm = self.qasm.save(qasm_written);
        let json = self.json.save(json_written);
        if qasm.is_ok() && json.is_ok() {
            Ok(())
        } else {
            Err(DatasetError::SaveFailed)
        }
    }

    /// Whether the circuit can be used as a pattern, where parsing and
    /// compiling its text gave `check`.
    pub fn valid_pattern(&self, check: PatternCheck) -> (valid: bool)
        ensures
            valid == self@.usable(check),
    {
        self.check_pattern(check).is_ok()
    }

    /// Why the circuit cannot be used as a pattern, if it cannot: its text
    /// is not there to be found, or it did not parse and compile.
    pub fn check_pattern(&self, check: PatternCheck) -> (usable: Result<(), DatasetError>)
        ensures
            usable is Ok <==> self@.usable(check),
            usable matches Err(e) ==> if self@.json.contents is None {
                e == DatasetError::NotFound
            } else {
                e == DatasetError::InvalidPattern
            },
    {
        if self.json.contents().is_none() {
            Err(DatasetError::NotFound)
        } else if check == PatternCheck::Compiled {
            Ok(())
        } else {
            Err(DatasetError::InvalidPattern)
        }
    }
}

/// Where exactly one encoding of a record is there, the record needs a
/// conversion, and loading derives the other encoding: it loads the one that
/// is there and asks for its conversion. With the converter's text both
/// encodings are in memory, the derived one still to be saved.
pub proof fn law_load_derives_the_missing(
    record: RecordState,
    qasm_disk: Option<Seq<char>>,
    json_disk: Option<Seq<char>>,
    derived: Seq<char>,
)
    requires
        record.qasm.is_empty() != record.json.is_empty(),
        record.qasm.needs_read() ==> qasm_disk is Some,
        record.json.needs_read() ==> json_disk is Some,
    ensures
        record.needs_conversion(),
        record.json.is_empty() ==> {
            let read = record.loaded(qasm_disk, json_disk);
            let done = read.converted(Direction::QasmToJson, Some(derived));
            &&& read.qasm.contents is Some
            &&& record.load_outcome(qasm_disk, json_disk) == Ok::<_, DatasetError>(
                Some((Direction::QasmToJson, read.qasm.contents->0)),
            )
            &&& done.qasm == read.qasm
            &&& done.json.contents == Some(derived)
            &&& !done.json.saved
            &&& done.complete()
            &&& !done.needs_conversion()
        },
        record.qasm.is_empty() ==> {
            let read = record.loaded(qasm_disk, json_disk);
            let done = read.converted(Direction::JsonToQasm, Some(derived));
            &&& read.json.contents is Some
            &&& record.load_outcome(qasm_disk, json_disk) == Ok::<_, DatasetError>(
                Some((Direction::JsonToQasm, read.json.contents->0)),
            )
            &&& done.json == read.json
            &&& done.qasm.contents == Some(derived)
            &&& !done.qasm.saved
            &&& done.complete()
            &&& !done.needs_conversion()
        },
{
}

/// Where both encodings of a record are there, loading asks for no
/// conversion: each encoding is loaded by itself, and a text that is read from
/// disk counts as saved.
pub proof fn law_load_of_both_converts_nothing(
    record: RecordState,
    qasm_disk: Option<Seq<char>>,
    json_disk: Option<Seq<char>>,
)
    requires
        !record.qasm.is_empty(),
        !record.json.is_empty(),
        record.qasm.needs_read() ==> qasm_disk is Some,
        record.json.needs_read() ==> json_disk is Some,
    ensures
        !record.needs_conversion(),
        record.conversion() is None,
        record.load_outcome(qasm_disk, json_disk) == Ok::<Option<(Direction, Seq<char>)>, DatasetError>(None),
        record.loaded(qasm_disk, json_disk).complete(),
        record.qasm.needs_read() ==> record.loaded(qasm_disk, json_disk).qasm.contents == qasm_disk
            && record.loaded(qasm_disk, json_disk).qasm.saved,
        record.json.needs_read() ==> record.loaded(qasm_disk, json_disk).json.contents == json_disk
            && record.loaded(qasm_disk, json_disk).json.saved,
{
}

/// A record with neither encoding is not found, whatever the disk gives.
pub proof fn law_load_of_nothing_fails(record: RecordState, qasm_disk: Option<Seq<char>>, json_disk: Option<Seq<char>>)
    requires
        record.qasm.is_empty(),
        record.json.is_empty(),
    ensures
        record.load_outcome(qasm_disk, json_disk) == Err::<Option<(Direction, Seq<char>)>, DatasetError>(
            DatasetError::NotFound,
        ),
        record.loaded(qasm_disk, json_disk) == record,
{
}

/// A record whose writes were done has nothing more to write, and saving it
/// again changes nothing, whatever is reported then.
pub proof fn law_save_is_idempotent(record: RecordState, qasm_written: bool, json_written: bool)
    ensures
        record.after_save(true, true).writes() == Seq::<(Seq<char>, Seq<char>)>::empty(),
        record.after_save(true, true).save_outcome(qasm_written, json_written) is Ok,
        record.after_save(true, true).after_save(qasm_written, json_written) == record.after_save(true, true),
{
    assert(record.after_save(true, true).writes() =~= Seq::<(Seq<char>, Seq<char>)>::empty());
}

/// A file counts as saved only where its text is on disk: where it was
/// read from there, or where a write of it was done. A write that failed
/// leaves the file to be saved, with its text as it was, and saving fails.
pub proof fn law_saved_means_written(file: FileState)
    requires
        file.unsaved(),
    ensures
        file.after_save(false) == file,
        file.save_outcome(false) == Err::<(), DatasetError>(DatasetError::SaveFailed),
        file.after_save(false).unsaved(),
        file.after_save(true).saved,
        file.after_save(true).contents == file.contents,
        file.save_outcome(true) is Ok,
{
}

} // verus!
