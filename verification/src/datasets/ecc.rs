//! Circuits taken out of a file of equivalent circuit classes.

use crate::text::{path_stem, stem};
use vstd::prelude::*;

verus! {

/// A circuit dataset obtained from an ECC file.
pub struct ECCDataset {
    circuit_folder: String,
    ecc_file: String,
}

impl ECCDataset {
    /// The folder that the circuits are unpacked into.
    pub closed spec fn folder(&self) -> Seq<char> {
        self.circuit_folder@
    }

    /// The file that the circuits come from.
    pub closed spec fn source(&self) -> Seq<char> {
        self.ecc_file@
    }

    /// Creates a new ECC dataset from an ECC file.
    pub fn new(ecc_file: String, circuit_folder: String) -> (dataset: Self)
        ensures
            dataset.source() == ecc_file@,
            dataset.folder() == circuit_folder@,
    {
        Self { ecc_file, circuit_folder }
    }

    pub fn circuit_folder(&self) -> (folder: &str)
        ensures
            folder@ == self.folder(),
    {
        self.circuit_folder.as_str()
    }

    pub fn ecc_file(&self) -> (file: &str)
        ensures
            file@ == self.source(),
    {
        self.ecc_file.as_str()
    }
}

/// One dataset for each ECC file, each in the folder that is named like the
/// file without its extension.
pub fn generate_ecc_datasets(ecc_datasets: Vec<String>) -> (datasets: Vec<ECCDataset>)
    ensures
        datasets@.len() == ecc_datasets@.len(),
        forall|i: int|
            0 <= i < datasets@.len() ==> (#[trigger] datasets@[i]).source() == ecc_datasets@[i]@ && datasets@[i].folder()
                == stem(ecc_datasets@[i]@),
{
    let mut datasets: Vec<ECCDataset> = Vec::new();
    let mut at: usize = 0;
    while at < ecc_datasets.len()
        invariant
            at <= ecc_datasets.len(),
            datasets@.len() == at,
            forall|i: int|
                0 <= i < at ==> (#[trigger] datasets@[i]).source() == ecc_datasets@[i]@ && datasets@[i].folder() == stem(
                    ecc_datasets@[i]@,
                ),
        decreases ecc_datasets.len() - at,
    {
        let file = ecc_datasets[at].clone();
        let folder = path_stem(file.as_str());
        datasets.push(ECCDataset::new(file, folder));
        at = at + 1;
    }
    datasets
}

} // verus!
