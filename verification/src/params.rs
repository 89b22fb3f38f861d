//! What the commands work on: the default datasets where none is named,
//! the folder of a dataset of random circuits, the folders that hold a
//! generated dataset, and the target circuit of a benchmark.

use crate::datasets::is_circuit_path;
use crate::datasets::record::{QasmAndJson, RecordState};
use crate::msgpack::texts_of;
use crate::text::{
    decimal, extension, lemma_precedes_chain, lemma_precedes_either, parent, path_extension, path_parent, path_stem,
    precedes, push_decimal, same_text, stem, text_precedes,
};
use vstd::prelude::*;
use vstd::string::*;

verus! {

/// The ECC files of the default datasets.
pub open spec fn default_ecc_files() -> Seq<Seq<char>> {
    seq!["datasets/eccs/2_6-eccs.json"@, "datasets/eccs/3_6-eccs.json"@, "datasets/eccs/4_6-eccs.json"@]
}

/// The numbers of qubits of the default random datasets.
pub open spec fn default_qubits() -> Seq<usize> {
    seq![2, 3, 4, 6, 8, 10]
}

/// The numbers of gates of the default random datasets.
pub open spec fn default_gates() -> Seq<usize> {
    seq![15, 15, 15, 15, 15, 15]
}

/// The numbers of circuits of the default random datasets.
pub open spec fn default_circuit_counts() -> Seq<usize> {
    seq![10000, 10000, 10000, 10000, 10000, 10000]
}

/// Fills in the default datasets where neither a random dataset nor an ECC
/// dataset was asked for, and changes nothing otherwise. The three lists of
/// the random datasets go together, entry by entry.
pub fn default_gen_params(
    qubits: &mut Vec<usize>,
    gates: &mut Vec<usize>,
    n_circuits: &mut Vec<usize>,
    ecc_datasets: &mut Vec<String>,
)
    requires
        old(qubits)@.len() == old(gates)@.len(),
        old(gates)@.len() == old(n_circuits)@.len(),
    ensures
        final(qubits)@.len() == final(gates)@.len(),
        final(gates)@.len() == final(n_circuits)@.len(),
        old(qubits)@.len() == 0 && old(ecc_datasets)@.len() == 0 ==> {
            &&& final(qubits)@ == default_qubits()
            &&& final(gates)@ == default_gates()
            &&& final(n_circuits)@ == default_circuit_counts()
            &&& texts_of(final(ecc_datasets)@) == default_ecc_files()
        },
        !(old(qubits)@.len() == 0 && old(ecc_datasets)@.len() == 0) ==> {
            &&& final(qubits)@ == old(qubits)@
            &&& final(gates)@ == old(gates)@
            &&& final(n_circuits)@ == old(n_circuits)@
            &&& final(ecc_datasets)@ == old(ecc_datasets)@
        },
{
    // If no params are provided, generate the default datasets
    if qubits.len() == 0 && ecc_datasets.len() == 0 {
        ecc_datasets.push("datasets/eccs/2_6-eccs.json".to_owned());
        ecc_datasets.push("datasets/eccs/3_6-eccs.json".to_owned());
        ecc_datasets.push("datasets/eccs/4_6-eccs.json".to_owned());
        qubits.push(2);
        qubits.push(3);
        qubits.push(4);
        qubits.push(6);
        qubits.push(8);
        qubits.push(10);
        let mut at: usize = 0;
        while at < 6
            invariant
                at <= 6,
                gates@.len() == at,
                n_circuits@.len() == at,
                forall|i: int| 0 <= i < at ==> gates@[i] == 15 && n_circuits@[i] == 10000,
            decreases 6 - at,
        {
            gates.push(15);
            n_circuits.push(10000);
            at = at + 1;
        }
    }
}

/// The folder of the random circuits of `n_gates` gates over `n_qubits`
/// qubits.
pub open spec fn random_folder_name(n_qubits: nat, n_gates: nat) -> Seq<char> {
    "datasets/random/"@ + decimal(n_qubits) + "_"@ + decimal(n_gates) + "-random"@
}

/// The folder of the random circuits of `n_gates` gates over `n_qubits`
/// qubits.
pub fn random_folder(n_qubits: usize, n_gates: usize) -> (folder: String)
    ensures
        folder@ == random_folder_name(n_qubits as nat, n_gates as nat),
{
    let mut folder = "datasets/random/".to_owned();
    push_decimal(&mut folder, n_qubits);
    folder.append("_");
    push_decimal(&mut folder, n_gates);
    folder.append("-random");
    folder
}

/// The record of the circuit in `target_file`, which is one of its two
/// encodings; the other stands beside it. Nothing is loaded yet.
pub fn load_circ_file(target_file: &str, qasm_on_disk: bool, json_on_disk: bool) -> (target: QasmAndJson)
    requires
        is_circuit_path(target_file@),
    ensures
        target@ == RecordState::fresh(target_file@, qasm_on_disk, json_on_disk),
{
    QasmAndJson::from_path(target_file, qasm_on_disk, json_on_disk)
}

/// Where datasets are looked for: in the folders that were named, each
/// without its extension, or in `datasets` where none was named.
pub open spec fn search_roots(named: Seq<Seq<char>>) -> Seq<Seq<char>> {
    if named.len() == 0 {
        seq!["datasets"@]
    } else {
        named.map_values(|path: Seq<char>| stem(path))
    }
}

/// Where datasets are looked for, given the folders that were named.
pub fn default_run_params(datasets: &Vec<String>) -> (roots: Vec<String>)
    ensures
        texts_of(roots@) == search_roots(texts_of(datasets@)),
{
    let mut roots: Vec<String> = Vec::new();
    if datasets.len() == 0 {
        roots.push("datasets".to_owned());
        return roots;
    }
    let mut at: usize = 0;
    while at < datasets.len()
        invariant
            at <= datasets.len(),
            roots@.len() == at,
            forall|i: int| 0 <= i < at ==> (#[trigger] roots@[i])@ == stem(datasets@[i]@),
        decreases datasets.len() - at,
    {
        roots.push(path_stem(datasets[at].as_str()));
        at = at + 1;
    }
    roots
}

/// Each text stands before all that follow it, so none occurs twice.
pub open spec fn in_order(texts: Seq<Seq<char>>) -> bool {
    forall|i: int, j: int| 0 <= i < j < texts.len() ==> precedes(texts[i], texts[j])
}

/// `file` is a cache of a dataset.
pub open spec fn is_cache_path(file: Seq<char>) -> bool {
    extension(file) == Some("bin"@)
}

/// `folder` holds one of the `files` that is a cache.
pub open spec fn holds_cache(files: Seq<Seq<char>>, folder: Seq<char>) -> bool {
    exists|i: int| 0 <= i < files.len() && is_cache_path(#[trigger] files[i]) && parent(files[i]) == folder
}

fn insert_in_order(texts: &mut Vec<String>, text: String)
    requires
        in_order(texts_of(old(texts)@)),
    ensures
        in_order(texts_of(final(texts)@)),
        forall|other: Seq<char>|
            texts_of(final(texts)@).contains(other) <==> texts_of(old(texts)@).contains(other) || other == text@,
{
    let ghost before = texts_of(texts@);
    let mut at: usize = 0;
    while at < texts.len() && text_precedes(texts[at].as_str(), text.as_str())
        invariant
            at <= texts.len(),
            texts_of(texts@) == before,
            forall|i: int| 0 <= i < at ==> precedes(before[i], text@),
        decreases texts.len() - at,
    {
        at = at + 1;
    }
    if at < texts.len() && texts[at] == text {
        assert(before[at as int] == text@);
        return ;
    }
    proof {
        assert forall|j: int| at <= j < before.len() implies precedes(text@, before[j]) by {
            lemma_precedes_either(before[at as int], text@);
            if at < j {
                lemma_precedes_chain(text@, before[at as int], before[j]);
            }
        }
    }
    let ghost added = text@;
    texts.insert(at, text);
    proof {
        let after = texts_of(texts@);
        assert(after =~= before.insert(at as int, added));
        assert forall|other: Seq<char>| after.contains(other) <==> before.contains(other) || other == added by {
            if before.contains(other) {
                let k = choose|k: int| 0 <= k < before.len() && before[k] == other;
                if k < at {
                    assert(after[k] == other);
                } else {
                    assert(after[k + 1] == other);
                }
            }
            if other == added {
                assert(after[at as int] == other);
            }
        }
    }
}

/// The folders that hold a cache, given the files that were found: each
/// once, in the order of the dictionary.
pub fn dataset_folders(files: &Vec<String>) -> (folders: Vec<String>)
    ensures
        in_order(texts_of(folders@)),
        forall|folder: Seq<char>| texts_of(folders@).contains(folder) <==> holds_cache(texts_of(files@), folder),
{
    let mut folders: Vec<String> = Vec::new();
    let mut at: usize = 0;
    while at < files.len()
        invariant
            at <= files.len(),
            in_order(texts_of(folders@)),
            forall|folder: Seq<char>|
                texts_of(folders@).contains(folder) <==> holds_cache(texts_of(files@).take(at as int), folder),
        decreases files.len() - at,
    {
        let ghost grown = texts_of(files@).take(at + 1);
        let ghost file = files@[at as int]@;
        let cache = match path_extension(files[at].as_str()) {
            Some(ext) => same_text(ext.as_str(), "bin"),
            None => false,
        };
        if cache {
            insert_in_order(&mut folders, path_parent(files[at].as_str()));
        }
        proof {
            assert forall|folder: Seq<char>| texts_of(folders@).contains(folder) <==> holds_cache(grown, folder) by {
                if cache && folder == parent(file) {
                    assert(is_cache_path(grown[at as int]));
                }
            }
        }
        at = at + 1;
    }
    assert(texts_of(files@).take(at as int) =~= texts_of(files@));
    folders
}

} // verus!
