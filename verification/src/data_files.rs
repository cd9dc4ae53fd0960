//! What a data directory holds of the files that a run needs.

use crate::region::{find_name, is_named};
use crate::text::same_text;
use vstd::prelude::*;

verus! {

/// A file that is there and cannot be read, with the reader's complaint.
#[derive(Clone, Debug)]
pub struct UnreadableFile {
    pub file: String,
    pub cause: String,
}

/// What a directory holds of the files that were looked for in it.
#[derive(Clone, Debug)]
pub struct DataFiles {
    pub present: Vec<String>,
    pub unreadable: Vec<UnreadableFile>,
}

/// What is wrong with a file.
#[derive(Clone, Debug)]
pub enum FileFault {
    Missing(String),
    Unreadable { file: String, cause: String },
}

impl DataFiles {
    /// The file is there.
    pub open spec fn has(self, file: Seq<char>) -> bool {
        is_named(self.present@, file)
    }

    /// Complaint `i` is the first about the file.
    pub open spec fn first_complaint(self, file: Seq<char>, i: int) -> bool {
        &&& 0 <= i < self.unreadable@.len()
        &&& self.unreadable@[i].file@ == file
        &&& forall|k: int| 0 <= k < i ==> (#[trigger] self.unreadable@[k]).file@ != file
    }

    /// The file is there and nothing is wrong with it.
    pub open spec fn is_readable(self, file: Seq<char>) -> bool {
        &&& self.has(file)
        &&& forall|k: int| 0 <= k < self.unreadable@.len() ==> (#[trigger] self.unreadable@[k]).file@ != file
    }

    /// `fault` is what is wrong with the file. That it is missing comes first.
    pub open spec fn is_fault(self, fault: FileFault, file: Seq<char>) -> bool {
        match fault {
            FileFault::Missing(f) => f@ == file && !self.has(file),
            FileFault::Unreadable { file: f, cause } => {
                &&& f@ == file
                &&& self.has(file)
                &&& exists|i: int| #[trigger] self.first_complaint(file, i) && self.unreadable@[i].cause@ == cause@
            },
        }
    }

    /// Tells whether the file is there.
    pub fn contains(&self, file: &str) -> (r: bool)
        ensures
            r == self.has(file@),
    {
        find_name(&self.present, file).is_some()
    }

    /// Says what is wrong with the file, if anything is.
    pub fn check(&self, file: &str) -> (r: Result<(), FileFault>)
        ensures
            r is Ok <==> self.is_readable(file@),
            r matches Err(fault) ==> self.is_fault(fault, file@),
    {
        if !self.contains(file) {
            return Err(FileFault::Missing(file.to_owned()));
        }
        let mut i: usize = 0;
        while i < self.unreadable.len()
            invariant
                i <= self.unreadable@.len(),
                self.has(file@),
                forall|k: int| 0 <= k < i ==> (#[trigger] self.unreadable@[k]).file@ != file@,
            decreases self.unreadable@.len() - i,
        {
            if same_text(self.unreadable[i].file.as_str(), file) {
                assert(self.first_complaint(file@, i as int));
                return Err(
                    FileFault::Unreadable { file: file.to_owned(), cause: self.unreadable[i].cause.clone() },
                );
            }
            i += 1;
        }
        Ok(())
    }
}

/// A file has one fault or none: two faults of a file are the same.
pub proof fn law_fault_is_unique(data: DataFiles, file: Seq<char>, a: FileFault, b: FileFault)
    requires
        data.is_fault(a, file),
        data.is_fault(b, file),
    ensures
        !data.is_readable(file),
        a is Missing <==> b is Missing,
        a is Unreadable ==> a->cause@ == b->cause@,
{
    if a is Unreadable {
        let i = choose|i: int| #[trigger]
            data.first_complaint(file, i) && data.unreadable@[i].cause@ == a->cause@;
        let j = choose|j: int| #[trigger]
            data.first_complaint(file, j) && data.unreadable@[j].cause@ == b->cause@;
        assert(data.unreadable@[i].file@ == file && data.unreadable@[j].file@ == file);
        assert(i == j);
    }
}

/// A file is in order exactly where it is there and was not found unreadable; one that
/// is not there is missing, and one that is there but unreadable is told with the first
/// cause that was given for it.
pub proof fn law_files_are_missing_or_unreadable(data: &DataFiles, file: &str, r: Result<(), FileFault>)
    requires
        call_ensures(DataFiles::check, (data, file), r),
    ensures
        r is Ok ==> exists|i: int| 0 <= i < data.present@.len() && (#[trigger] data.present@[i])@ == file@,
        r is Ok ==> forall|k: int| 0 <= k < data.unreadable@.len() ==> (#[trigger] data.unreadable@[k]).file@ != file@,
        r matches Err(FileFault::Missing(f)) ==> f@ == file@ && forall|i: int|
            0 <= i < data.present@.len() ==> (#[trigger] data.present@[i])@ != file@,
        r matches Err(FileFault::Unreadable { file: f, cause }) ==> f@ == file@ && exists|k: int|
            0 <= k < data.unreadable@.len() && (#[trigger] data.unreadable@[k]).file@ == file@
                && data.unreadable@[k].cause@ == cause@,
{
    if let Err(FileFault::Unreadable { file: f, cause }) = r {
        let k = choose|k: int| #[trigger] data.first_complaint(file@, k) && data.unreadable@[k].cause@ == cause@;
        assert(data.unreadable@[k].file@ == file@);
    }
}

} // verus!
