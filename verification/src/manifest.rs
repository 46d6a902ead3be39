//! The snapshot manifest: the list of archives a snapshot holds, with
//! their sizes and checksums.
//!
//! A manifest travels as a blob; byte-equal manifest blobs mean an
//! unchanged snapshot, and a file whose recomputed checksum and size match
//! its manifest entry needs no transfer.  The blob framing and the JSON
//! carrier live elsewhere; here is the list itself and the verification
//! decisions the sync takes on it.

use vstd::prelude::*;
use crate::pull::chars_eq;

verus! {

/// Manifest failures.
#[derive(Clone, Copy, Debug, PartialEq, Eq, Structural)]
pub enum ManifestError {
    /// The manifest lists no file of this name.
    NoSuchFile,
    /// The recomputed checksum or size does not match the entry.
    Mismatch,
}

/// One archive named by the manifest.
pub struct FileInfo {
    pub filename: String,
    pub size: u64,
    pub csum: [u8; 32],
}

/// The first manifest entry with this file name.
pub open spec fn spec_find_file(files: Seq<FileInfo>, name: Seq<char>) -> Option<int>
    decreases files.len(),
{
    if files.len() == 0 {
        None
    } else if files[0].filename@ == name {
        Some(0int)
    } else {
        match spec_find_file(files.skip(1), name) {
            Some(m) => Some(m + 1),
            None => None,
        }
    }
}

proof fn lemma_find_file_at(files: Seq<FileInfo>, name: Seq<char>, i: int)
    requires
        0 <= i <= files.len(),
        forall|j: int| 0 <= j < i ==> files[j].filename@ != name,
        i < files.len() ==> files[i].filename@ == name,
    ensures
        spec_find_file(files, name) == if i < files.len() {
            Some(i)
        } else {
            None::<int>
        },
    decreases files.len(),
{
    if files.len() > 0 {
        if i == 0 {
        } else {
            assert(files[0].filename@ != name);
            assert forall|j: int| 0 <= j < i - 1 implies files.skip(1)[j].filename@ != name by {
                assert(files.skip(1)[j] == files[j + 1]);
            }
            if i - 1 < files.skip(1).len() {
                assert(files.skip(1)[i - 1] == files[i]);
            }
            lemma_find_file_at(files.skip(1), name, i - 1);
        }
    }
}

/// The archives of one snapshot.
pub struct BackupManifest {
    files: Vec<FileInfo>,
}

impl BackupManifest {
    pub closed spec fn spec_files(&self) -> Seq<FileInfo> {
        self.files@
    }

    pub fn new() -> (r: BackupManifest)
        ensures
            r.spec_files() == Seq::<FileInfo>::empty(),
    {
        BackupManifest { files: Vec::new() }
    }

    /// Record one archive with its checksum and size.
    pub fn add_file(&mut self, filename: String, size: u64, csum: [u8; 32])
        ensures
            final(self).spec_files().len() == old(self).spec_files().len() + 1,
            final(self).spec_files().take(old(self).spec_files().len() as int) == old(
                self,
            ).spec_files(),
            final(self).spec_files().last().filename@ == filename@,
            final(self).spec_files().last().size == size,
            final(self).spec_files().last().csum == csum,
    {
        self.files.push(FileInfo { filename, size, csum });
        proof {
            assert(final(self).spec_files().take(old(self).spec_files().len() as int) =~= old(
                self,
            ).spec_files());
        }
    }

    pub fn file_count(&self) -> (r: usize)
        ensures
            r == self.spec_files().len(),
    {
        self.files.len()
    }

    pub fn file_at(&self, i: usize) -> (r: &FileInfo)
        requires
            i < self.spec_files().len(),
        ensures
            *r == self.spec_files()[i as int],
    {
        &self.files[i]
    }

    fn find_file(&self, name: &str) -> (r: Option<usize>)
        ensures
            r matches Some(i) ==> i < self.spec_files().len() && spec_find_file(
                self.spec_files(),
                name@,
            ) == Some(i as int),
            r is None <==> spec_find_file(self.spec_files(), name@) is None,
    {
        let mut i: usize = 0;
        while i < self.files.len()
            invariant
                i <= self.files@.len(),
                forall|j: int| 0 <= j < i ==> self.files@[j].filename@ != name@,
            decreases self.files@.len() - i,
        {
            if chars_eq(self.files[i].filename.as_str(), name) {
                proof {
                    lemma_find_file_at(self.files@, name@, i as int);
                }
                return Some(i);
            }
            i = i + 1;
        }
        proof {
            lemma_find_file_at(self.files@, name@, self.files@.len() as int);
        }
        None
    }

    /// Check a recomputed checksum and size against the manifest: accepted
    /// exactly when the file is listed and both values match its entry.
    /// A local archive that passes needs no transfer.
    pub fn verify_file(&self, name: &str, csum: &[u8; 32], size: u64) -> (r: Result<
        (),
        ManifestError,
    >)
        ensures
            r is Ok <==> (spec_find_file(self.spec_files(), name@) matches Some(i)
                && self.spec_files()[i].size == size && self.spec_files()[i].csum@ == csum@),
            r == Err::<(), ManifestError>(ManifestError::NoSuchFile) <==> spec_find_file(
                self.spec_files(),
                name@,
            ) is None,
    {
        match self.find_file(name) {
            None => Err(ManifestError::NoSuchFile),
            Some(i) => {
                let entry = &self.files[i];
                if entry.size == size && crate::blob::bytes_eq(
                    entry.csum.as_slice(),
                    csum.as_slice(),
                ) {
                    Ok(())
                } else {
                    Err(ManifestError::Mismatch)
                }
            },
        }
    }
}

} // verus!
