//! A folder of circuit files as the library sees it over a whole
//! generation, and the law that generating it again changes no count.
//!
//! The caller lists the folder, reads what a record needs, runs the
//! converter where one encoding is missing and compiles each circuit. Here
//! all of that is a value: the listing, the texts of the files, and the
//! converter and compiler as functions of the text they are given.

use crate::datasets::record::{Direction, FileState, PatternCheck, RecordState};
use crate::datasets::{all_writes, circuit_stems, found, is_circuit_path, retained, DatasetError};
use crate::text::{
    extension, lemma_stem_is_named, lemma_with_extension_parts, named, plain, stem, with_extension,
};
use vstd::prelude::*;

verus! {

/// The programs that the caller runs: the converter in its two directions,
/// which may fail, and the pattern compiler.
pub struct Tools {
    pub to_qasm: spec_fn(Seq<char>) -> Option<Seq<char>>,
    pub to_json: spec_fn(Seq<char>) -> Option<Seq<char>>,
    pub check: spec_fn(Seq<char>) -> PatternCheck,
}

impl Tools {
    /// What the converter gives for `source` in `direction`.
    pub open spec fn convert(self, direction: Direction, source: Seq<char>) -> Option<Seq<char>> {
        match direction {
            Direction::JsonToQasm => (self.to_qasm)(source),
            Direction::QasmToJson => (self.to_json)(source),
        }
    }
}

/// A folder: the paths of its files, and the texts of those that can be
/// read.
pub struct Folder {
    pub listing: Seq<Seq<char>>,
    pub texts: Map<Seq<char>, Seq<char>>,
}

impl Folder {
    /// Every circuit file that is listed can be read.
    pub open spec fn readable(self) -> bool {
        forall|path: Seq<char>|
            self.listing.contains(path) && is_circuit_path(path) ==> #[trigger] self.texts.dom().contains(path)
    }

    /// What reading `file` gives, where loading needs it read.
    pub open spec fn read(self, file: FileState) -> Option<Seq<char>> {
        if file.needs_read() && self.texts.dom().contains(file.path) {
            Some(self.texts[file.path])
        } else {
            None
        }
    }

    /// The record of circuit `base` once it is loaded: its files read,
    /// and the missing encoding converted from the other.
    pub open spec fn settled(self, tools: Tools, base: Seq<char>) -> Result<RecordState, DatasetError> {
        let record = found(self.listing, base);
        let qasm_disk = self.read(record.qasm);
        let json_disk = self.read(record.json);
        let read = record.loaded(qasm_disk, json_disk);
        match record.load_outcome(qasm_disk, json_disk) {
            Err(e) => Err(e),
            Ok(None) => Ok(read),
            Ok(Some((direction, source))) => match tools.convert(direction, source) {
                Some(output) => Ok(read.converted(direction, Some(output))),
                None => Err(DatasetError::ConversionFailure),
            },
        }
    }

    /// The loaded record of circuit `base`, and what came of compiling it.
    pub open spec fn entry(self, tools: Tools, base: Seq<char>) -> (RecordState, PatternCheck) {
        let record = self.settled(tools, base)->Ok_0;
        (record, (tools.check)(record.json.contents->0))
    }

    /// The loaded and checked records of all circuits of the folder.
    pub open spec fn entries(self, tools: Tools) -> Seq<(RecordState, PatternCheck)> {
        circuit_stems(self.listing).map_values(|base: Seq<char>| self.entry(tools, base))
    }

    /// Every circuit of the folder can be loaded.
    pub open spec fn loads(self, tools: Tools) -> bool {
        forall|base: Seq<char>| circuit_stems(self.listing).contains(base) ==> #[trigger] self.settled(tools, base) is Ok
    }

    /// The number of circuits that generating the folder keeps.
    pub open spec fn count(self, tools: Tools) -> nat {
        retained(self.entries(tools)).len()
    }

    /// Saving the record of some circuit writes `text` to `path`.
    pub open spec fn saves(self, tools: Tools, path: Seq<char>, text: Seq<char>) -> bool {
        exists|base: Seq<char>|
            circuit_stems(self.listing).contains(base) && (#[trigger] self.entry(tools, base)).0.writes().contains(
                (path, text),
            )
    }

    /// `after` is this folder once it was generated with its files saved:
    /// its circuit files are the ones that were there, unchanged, and the
    /// ones that were saved. Other files may have come or gone.
    pub open spec fn saved_as(self, tools: Tools, after: Folder) -> bool {
        &&& forall|path: Seq<char>|
            is_circuit_path(path) ==> (#[trigger] after.listing.contains(path) <==> (self.listing.contains(path)
                || exists|text: Seq<char>| self.saves(tools, path, text)))
        &&& forall|path: Seq<char>|
            self.listing.contains(path) && is_circuit_path(path) ==> #[trigger] after.texts.dom().contains(path)
                && after.texts[path] == self.texts[path]
        &&& forall|path: Seq<char>, text: Seq<char>| #[trigger]
            self.saves(tools, path, text) ==> after.texts.dom().contains(path) && after.texts[path] == text
    }
}

/// Whether the entry of circuit `base` can be used as a pattern.
pub open spec fn kept(folder: Folder, tools: Tools) -> spec_fn(Seq<char>) -> bool {
    |base: Seq<char>| folder.entry(tools, base).0.usable(folder.entry(tools, base).1)
}

proof fn lemma_extensions_are_plain()
    ensures
        plain("qasm"@),
        plain("json"@),
        "qasm"@ != "json"@,
{
    reveal_strlit("qasm");
    reveal_strlit("json");
    assert("json"@[0] == 'j');
}

/// The two files of a circuit of the folder are circuit files, and name the
/// same circuit as its own path without extension does.
proof fn lemma_record_paths(path: Seq<char>)
    requires
        is_circuit_path(path),
    ensures
        named(stem(path)),
        named(stem(stem(path))),
        is_circuit_path(with_extension(stem(path), "qasm"@)),
        is_circuit_path(with_extension(stem(path), "json"@)),
        stem(with_extension(stem(path), "qasm"@)) == stem(stem(path)),
        stem(with_extension(stem(path), "json"@)) == stem(stem(path)),
        with_extension(stem(path), "qasm"@) != with_extension(stem(path), "json"@),
{
    lemma_extensions_are_plain();
    lemma_stem_is_named(path);
    lemma_stem_is_named(stem(path));
    lemma_with_extension_parts(stem(path), "qasm"@);
    lemma_with_extension_parts(stem(path), "json"@);
}

/// The circuits of a listing are named once each.
proof fn lemma_stems_are_distinct(listing: Seq<Seq<char>>)
    ensures
        circuit_stems(listing).no_duplicates(),
    decreases listing.len(),
{
    if listing.len() > 0 {
        lemma_stems_are_distinct(listing.drop_last());
    }
}

/// Every circuit file of a listing has its circuit among the circuits.
proof fn lemma_stem_of_listed(listing: Seq<Seq<char>>, path: Seq<char>)
    requires
        listing.contains(path),
        is_circuit_path(path),
    ensures
        circuit_stems(listing).contains(stem(path)),
    decreases listing.len(),
{
    let front = listing.drop_last();
    let before = circuit_stems(front);
    if listing.last() == path {
        if before.contains(stem(path)) {
        } else {
            assert(circuit_stems(listing).last() == stem(path));
        }
    } else {
        let i = choose|i: int| 0 <= i < listing.len() && listing[i] == path;
        assert(front[i] == path);
        lemma_stem_of_listed(front, path);
        let j = choose|j: int| 0 <= j < before.len() && before[j] == stem(path);
        assert(circuit_stems(listing)[j] == stem(path));
    }
}

/// Every circuit of a listing is the circuit of one of its circuit files.
proof fn lemma_listed_of_stem(listing: Seq<Seq<char>>, base: Seq<char>) -> (path: Seq<char>)
    requires
        circuit_stems(listing).contains(base),
    ensures
        listing.contains(path),
        is_circuit_path(path),
        stem(path) == base,
    decreases listing.len(),
{
    let front = listing.drop_last();
    let before = circuit_stems(front);
    if listing.len() == 0 {
        assert(false);
        base
    } else if before.contains(base) {
        let path = lemma_listed_of_stem(front, base);
        path
    } else {
        listing.last()
    }
}

/// What holds of a record that was loaded: both encodings are in memory.
/// An encoding that was listed holds the text of its file and is saved; one
/// that was not is saved by the record, and the other one was listed.
proof fn lemma_settled(folder: Folder, tools: Tools, path: Seq<char>)
    requires
        folder.readable(),
        folder.listing.contains(path),
        is_circuit_path(path),
        folder.settled(tools, stem(path)) is Ok,
    ensures
        ({
            let base = stem(path);
            let record = folder.settled(tools, base)->Ok_0;
            let qasm = with_extension(base, "qasm"@);
            let json = with_extension(base, "json"@);
            &&& record.qasm.path == qasm
            &&& record.json.path == json
            &&& record.complete()
            &&& folder.listing.contains(qasm) || folder.listing.contains(json)
            &&& folder.listing.contains(qasm) ==> record.qasm.contents == Some(folder.texts[qasm])
                && record.writes().len() <= 1 && (record.writes().len() == 1 ==> record.writes()[0].0 == json)
            &&& folder.listing.contains(json) ==> record.json.contents == Some(folder.texts[json])
                && record.writes().len() <= 1 && (record.writes().len() == 1 ==> record.writes()[0].0 == qasm)
            &&& !folder.listing.contains(qasm) ==> record.writes() == seq![(qasm, record.qasm.contents->0)]
                && record.qasm.contents == tools.convert(Direction::JsonToQasm, folder.texts[json])
            &&& !folder.listing.contains(json) ==> record.writes() == seq![(json, record.json.contents->0)]
                && record.json.contents == tools.convert(Direction::QasmToJson, folder.texts[qasm])
        }),
{
    lemma_record_paths(path);
}

/// Filtering keeps exactly the items that pass.
proof fn lemma_filter_keeps<A>(items: Seq<A>, pass: spec_fn(A) -> bool, item: A)
    ensures
        items.filter(pass).contains(item) <==> items.contains(item) && pass(item),
    decreases items.len(),
{
    reveal(Seq::filter);
    if items.len() > 0 {
        let front = items.drop_last();
        lemma_filter_keeps(front, pass, item);
        if items.contains(item) && pass(item) && items.last() != item {
            let i = choose|i: int| 0 <= i < items.len() && items[i] == item;
            assert(front[i] == item);
        }
        if items.filter(pass).contains(item) && !front.filter(pass).contains(item) {
            assert(items.filter(pass).last() == item);
        }
    }
}

/// Filtering brings in no duplicates.
proof fn lemma_filter_distinct<A>(items: Seq<A>, pass: spec_fn(A) -> bool)
    requires
        items.no_duplicates(),
    ensures
        items.filter(pass).no_duplicates(),
    decreases items.len(),
{
    reveal(Seq::filter);
    if items.len() > 0 {
        let front = items.drop_last();
        lemma_filter_distinct(front, pass);
        lemma_filter_keeps(front, pass, items.last());
    }
}

/// As many circuits are kept as pass for patterns.
proof fn lemma_kept_count(folder: Folder, tools: Tools, stems: Seq<Seq<char>>)
    ensures
        retained(stems.map_values(|base: Seq<char>| folder.entry(tools, base))).len() == stems.filter(
            kept(folder, tools),
        ).len(),
    decreases stems.len(),
{
    reveal(Seq::filter);
    let entries = stems.map_values(|base: Seq<char>| folder.entry(tools, base));
    if stems.len() > 0 {
        lemma_kept_count(folder, tools, stems.drop_last());
        assert(entries.drop_last() =~= stems.drop_last().map_values(|base: Seq<char>| folder.entry(tools, base)));
    }
}

/// A circuit of the folder, loaded again from the folder as it was saved:
/// both its files are there, and they hold the texts that the record held.
proof fn lemma_settled_again(before: Folder, tools: Tools, after: Folder, path: Seq<char>)
    requires
        before.readable(),
        before.loads(tools),
        before.saved_as(tools, after),
        before.listing.contains(path),
        is_circuit_path(path),
    ensures
        !found(after.listing, stem(path)).needs_conversion(),
        after.settled(tools, stem(path)) is Ok,
        after.settled(tools, stem(path))->Ok_0.qasm.contents == before.settled(tools, stem(path))->Ok_0.qasm.contents,
        after.settled(tools, stem(path))->Ok_0.json.contents == before.settled(tools, stem(path))->Ok_0.json.contents,
        after.listing.contains(with_extension(stem(path), "qasm"@)),
{
    let base = stem(path);
    lemma_stem_of_listed(before.listing, path);
    lemma_settled(before, tools, path);
    lemma_record_paths(path);
    let record = before.settled(tools, base)->Ok_0;
    let qasm = with_extension(base, "qasm"@);
    let json = with_extension(base, "json"@);
    assert(before.entry(tools, base).0 == record);
    if !before.listing.contains(qasm) {
        assert(before.saves(tools, qasm, record.qasm.contents->0));
    }
    if !before.listing.contains(json) {
        assert(before.saves(tools, json, record.json.contents->0));
    }
}

/// A file that is saved was not in the folder before, and all records that
/// save it agree on its text.
proof fn lemma_saves_are_new(folder: Folder, tools: Tools, path: Seq<char>, text: Seq<char>)
    requires
        folder.readable(),
        folder.loads(tools),
        folder.saves(tools, path, text),
    ensures
        !folder.listing.contains(path),
        is_circuit_path(path),
        forall|other: Seq<char>| folder.saves(tools, path, other) ==> other == text,
{
    let source = choose|source: Seq<char>|
        circuit_stems(folder.listing).contains(source) && (#[trigger] folder.entry(tools, source)).0.writes().contains(
            (path, text),
        );
    let origin = lemma_listed_of_stem(folder.listing, source);
    lemma_settled(folder, tools, origin);
    lemma_record_paths(origin);
    lemma_extensions_are_plain();
    lemma_with_extension_parts(source, "qasm"@);
    lemma_with_extension_parts(source, "json"@);
    let written = folder.entry(tools, source).0.writes();
    let k = choose|k: int| 0 <= k < written.len() && written[k] == (path, text);
    assert(k == 0);
    assert forall|other: Seq<char>| folder.saves(tools, path, other) implies other == text by {
        let second = choose|second: Seq<char>|
            circuit_stems(folder.listing).contains(second) && (#[trigger] folder.entry(tools, second)).0.writes().contains(
                (path, other),
            );
        let place = lemma_listed_of_stem(folder.listing, second);
        lemma_settled(folder, tools, place);
        lemma_record_paths(place);
        lemma_with_extension_parts(second, "qasm"@);
        lemma_with_extension_parts(second, "json"@);
        let again = folder.entry(tools, second).0.writes();
        let j = choose|j: int| 0 <= j < again.len() && again[j] == (path, other);
        assert(j == 0);
        assert(stem(source) == stem(second));
        assert(with_extension(source, "qasm"@) == with_extension(second, "qasm"@));
        assert(with_extension(source, "json"@) == with_extension(second, "json"@));
    }
}

/// A file is among the files that all records save where one of them saves
/// it.
proof fn lemma_written_by_one(folder: Folder, tools: Tools, stems: Seq<Seq<char>>, file: (Seq<char>, Seq<char>))
    ensures
        all_writes(stems.map_values(|base: Seq<char>| folder.entry(tools, base))).contains(file) <==> exists|
            base: Seq<char>,
        |
            stems.contains(base) && (#[trigger] folder.entry(tools, base)).0.writes().contains(file),
    decreases stems.len(),
{
    let entries = stems.map_values(|base: Seq<char>| folder.entry(tools, base));
    if stems.len() > 0 {
        let front = stems.drop_last();
        lemma_written_by_one(folder, tools, front, file);
        assert(entries.drop_last() =~= front.map_values(|base: Seq<char>| folder.entry(tools, base)));
        let earlier = all_writes(entries.drop_last());
        let last = entries.last().0.writes();
        assert(entries.last() == folder.entry(tools, stems.last()));
        if all_writes(entries).contains(file) {
            let k = choose|k: int| 0 <= k < (earlier + last).len() && (earlier + last)[k] == file;
            if k < earlier.len() {
                assert(earlier[k] == file);
                let base = choose|base: Seq<char>|
                    front.contains(base) && (#[trigger] folder.entry(tools, base)).0.writes().contains(file);
                let i = choose|i: int| 0 <= i < front.len() && front[i] == base;
                assert(stems[i] == base);
            } else {
                assert(last[k - earlier.len()] == file);
                assert(stems[stems.len() - 1] == stems.last());
            }
        }
        if exists|base: Seq<char>|
            stems.contains(base) && (#[trigger] folder.entry(tools, base)).0.writes().contains(file) {
            let base = choose|base: Seq<char>|
                stems.contains(base) && (#[trigger] folder.entry(tools, base)).0.writes().contains(file);
            let i = choose|i: int| 0 <= i < stems.len() && stems[i] == base;
            if i < front.len() {
                assert(front[i] == base);
                let k = choose|k: int| 0 <= k < earlier.len() && earlier[k] == file;
                assert((earlier + last)[k] == file);
            } else {
                let k = choose|k: int| 0 <= k < last.len() && last[k] == file;
                assert((earlier + last)[earlier.len() + k] == file);
            }
        }
    }
}

/// Generating a folder whose circuits can all be loaded, with its files
/// saved, leaves a folder: the files that were there with their texts, and
/// after them the files that were saved.
pub proof fn law_saving_leaves_a_folder(before: Folder, tools: Tools) -> (after: Folder)
    requires
        before.readable(),
        before.loads(tools),
    ensures
        before.saved_as(tools, after),
        after.listing == before.listing + all_writes(before.entries(tools)).map_values(
            |file: (Seq<char>, Seq<char>)| file.0,
        ),
{
    let written = all_writes(before.entries(tools));
    let paths = written.map_values(|file: (Seq<char>, Seq<char>)| file.0);
    let after = Folder {
        listing: before.listing + paths,
        texts: Map::new(
            |path: Seq<char>| before.texts.dom().contains(path) || exists|text: Seq<char>| before.saves(tools, path, text),
            |path: Seq<char>|
                if exists|text: Seq<char>| before.saves(tools, path, text) {
                    choose|text: Seq<char>| before.saves(tools, path, text)
                } else {
                    before.texts[path]
                },
        ),
    };
    assert forall|path: Seq<char>| is_circuit_path(path) implies (#[trigger] after.listing.contains(path) <==> (
    before.listing.contains(path) || exists|text: Seq<char>| before.saves(tools, path, text))) by {
        if after.listing.contains(path) && !before.listing.contains(path) {
            let k = choose|k: int| 0 <= k < after.listing.len() && after.listing[k] == path;
            let file = written[k - before.listing.len()];
            assert(paths[k - before.listing.len()] == path);
            assert(written.contains(file));
            lemma_written_by_one(before, tools, circuit_stems(before.listing), file);
            assert(before.saves(tools, path, file.1));
        }
        if before.listing.contains(path) {
            let k = choose|k: int| 0 <= k < before.listing.len() && before.listing[k] == path;
            assert(after.listing[k] == path);
        }
        if exists|text: Seq<char>| before.saves(tools, path, text) {
            let text = choose|text: Seq<char>| before.saves(tools, path, text);
            lemma_written_by_one(before, tools, circuit_stems(before.listing), (path, text));
            let k = choose|k: int| 0 <= k < written.len() && written[k] == (path, text);
            assert(paths[k] == path);
            assert(after.listing[before.listing.len() + k] == path);
        }
    }
    assert forall|path: Seq<char>| before.listing.contains(path) && is_circuit_path(path) implies #[trigger] after.texts.dom().contains(path)
        && after.texts[path] == before.texts[path] by {
        if exists|text: Seq<char>| before.saves(tools, path, text) {
            let text = choose|text: Seq<char>| before.saves(tools, path, text);
            lemma_saves_are_new(before, tools, path, text);
        }
    }
    assert forall|path: Seq<char>, text: Seq<char>| #[trigger] before.saves(tools, path, text) implies after.texts.dom().contains(path)
        && after.texts[path] == text by {
        lemma_saves_are_new(before, tools, path, text);
    }
    after
}

/// Generating a folder again, once it was generated with its files saved,
/// keeps as many circuits as the first time, whatever the order in which
/// the folder is listed and whatever else lies in it. The second time no
/// circuit needs a conversion. This holds where the converter and the
/// compiler give the same for the same text.
pub proof fn law_generating_again_keeps_the_count(before: Folder, tools: Tools, after: Folder)
    requires
        before.readable(),
        before.loads(tools),
        before.saved_as(tools, after),
    ensures
        after.loads(tools),
        after.count(tools) == before.count(tools),
        forall|base: Seq<char>|
            circuit_stems(after.listing).contains(base) ==> !(#[trigger] found(after.listing, base)).needs_conversion(),
{
    let first = circuit_stems(before.listing);
    let second = circuit_stems(after.listing);
    assert forall|base: Seq<char>| first.contains(base) implies second.contains(base) by {
        let path = lemma_listed_of_stem(before.listing, base);
        lemma_stem_of_listed(after.listing, path);
    }
    assert forall|base: Seq<char>| second.contains(base) implies first.contains(base) by {
        let path = lemma_listed_of_stem(after.listing, base);
        if before.listing.contains(path) {
            lemma_stem_of_listed(before.listing, path);
        } else {
            let text = choose|text: Seq<char>| before.saves(tools, path, text);
            let source = choose|source: Seq<char>|
                first.contains(source) && (#[trigger] before.entry(tools, source)).0.writes().contains((path, text));
            let origin = lemma_listed_of_stem(before.listing, source);
            lemma_settled(before, tools, origin);
            lemma_record_paths(origin);
            let qasm = with_extension(source, "qasm"@);
            let json = with_extension(source, "json"@);
            if before.listing.contains(qasm) {
                lemma_stem_of_listed(before.listing, qasm);
            } else {
                lemma_stem_of_listed(before.listing, json);
            }
        }
    }
    assert forall|base: Seq<char>| second.contains(base) implies after.settled(tools, base) is Ok && !(#[trigger] found(
        after.listing,
        base,
    )).needs_conversion() && kept(after, tools)(base) == kept(before, tools)(base) by {
        let path = lemma_listed_of_stem(before.listing, base);
        lemma_settled_again(before, tools, after, path);
    }
    lemma_kept_count(before, tools, first);
    lemma_kept_count(after, tools, second);
    let one = first.filter(kept(before, tools));
    let two = second.filter(kept(after, tools));
    lemma_stems_are_distinct(before.listing);
    lemma_stems_are_distinct(after.listing);
    lemma_filter_distinct(first, kept(before, tools));
    lemma_filter_distinct(second, kept(after, tools));
    assert forall|base: Seq<char>| one.to_set().contains(base) <==> two.to_set().contains(base) by {
        lemma_filter_keeps(first, kept(before, tools), base);
        lemma_filter_keeps(second, kept(after, tools), base);
    }
    assert(one.to_set() =~= two.to_set());
    one.unique_seq_to_set();
    two.unique_seq_to_set();
}

} // verus!
