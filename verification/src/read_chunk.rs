//! Reading backup chunks back out of a store.
//!
//! A reader hands out chunks either framed, for forwarding, or decoded,
//! for restore; both go through the integrity gates.  The local reader
//! serves from a datastore; a remote reader would implement the same
//! interface over a transport.

use vstd::prelude::*;
use crate::blob::{BlobError, DataBlob, spec_blob_crc_ok, spec_blob_decodes_to, spec_key_of};
use crate::chunk_store::{spec_has, spec_file};
use crate::crypt::CryptConfig;
use crate::datastore::DataStore;

verus! {

/// Chunk read failures.
#[derive(Clone, Copy, Debug, PartialEq, Eq, Structural)]
pub enum ChunkReadError {
    /// The digest names no stored chunk.
    NotFound,
    /// The stored bytes are no valid frame, or fail a gate.
    Frame(BlobError),
}

/// Reading backup data chunks (local or remote).
pub trait ReadChunk {
    /// The store the reader serves from.
    spec fn spec_chunks(&self) -> Seq<crate::chunk_store::ChunkEntry>;

    /// The key the reader decodes with.
    spec fn spec_key(&self) -> Option<Seq<u8>>;

    /// The reader's store and key are well formed.
    spec fn wf(&self) -> bool;

    /// Returns the encoded chunk data.
    fn read_raw_chunk(&mut self, digest: &[u8; 32]) -> (r: Result<DataBlob, ChunkReadError>)
        requires
            old(self).wf(),
        ensures
            final(self).wf(),
            final(self).spec_chunks() == old(self).spec_chunks(),
            final(self).spec_key() == old(self).spec_key(),
            r matches Ok(b) ==> {
                &&& b.spec_raw() == spec_file(old(self).spec_chunks(), digest@).data@
                &&& b.wf()
            },
            r is Ok <==> {
                &&& spec_has(old(self).spec_chunks(), digest@)
                &&& crate::blob::spec_blob_format_ok(
                    spec_file(old(self).spec_chunks(), digest@).data@,
                )
                &&& spec_blob_crc_ok(spec_file(old(self).spec_chunks(), digest@).data@)
            },
            r == Err::<DataBlob, ChunkReadError>(ChunkReadError::NotFound) <==> !spec_has(
                old(self).spec_chunks(),
                digest@,
            ),
    ;

    /// Returns the decoded chunk data.
    fn read_chunk(&mut self, digest: &[u8; 32]) -> (r: Result<Vec<u8>, ChunkReadError>)
        requires
            old(self).wf(),
        ensures
            final(self).wf(),
            final(self).spec_chunks() == old(self).spec_chunks(),
            final(self).spec_key() == old(self).spec_key(),
            r matches Ok(v) ==> spec_blob_decodes_to(
                spec_file(old(self).spec_chunks(), digest@).data@,
                old(self).spec_key(),
            ) == Some(v@),
            r is Ok <==> (spec_has(old(self).spec_chunks(), digest@) && spec_blob_decodes_to(
                spec_file(old(self).spec_chunks(), digest@).data@,
                old(self).spec_key(),
            ) is Some),
            r == Err::<Vec<u8>, ChunkReadError>(ChunkReadError::NotFound) <==> !spec_has(
                old(self).spec_chunks(),
                digest@,
            ),
    ;
}

/// Serves chunks straight from a local datastore.
pub struct LocalChunkReader<'a> {
    store: &'a DataStore,
    crypt_config: Option<&'a CryptConfig>,
}

impl<'a> LocalChunkReader<'a> {
    pub fn new(store: &'a DataStore, crypt_config: Option<&'a CryptConfig>) -> (r: LocalChunkReader<
        'a,
    >)
        requires
            store.wf(),
            crypt_config matches Some(c) ==> c.wf(),
        ensures
            r.spec_chunks() == store.spec_chunks(),
            r.spec_key() == spec_key_of(crypt_config),
            r.wf(),
    {
        LocalChunkReader { store, crypt_config }
    }

}

impl<'a> ReadChunk for LocalChunkReader<'a> {
    closed spec fn spec_chunks(&self) -> Seq<crate::chunk_store::ChunkEntry> {
        self.store.spec_chunks()
    }

    closed spec fn spec_key(&self) -> Option<Seq<u8>> {
        spec_key_of(self.crypt_config)
    }

    closed spec fn wf(&self) -> bool {
        &&& self.store.wf()
        &&& match self.crypt_config {
            Some(c) => c.wf(),
            None => true,
        }
    }

    /// Fetch the stored frame and verify its checksum, without decoding.
    fn read_raw_chunk(&mut self, digest: &[u8; 32]) -> (r: Result<DataBlob, ChunkReadError>) {
        let raw = match self.store.read_chunk_data(digest) {
            Ok(v) => v,
            Err(_) => {
                return Err(ChunkReadError::NotFound);
            },
        };
        assert(raw@ == spec_file(self.store.spec_chunks(), digest@).data@);
        let blob = match DataBlob::from_raw(raw) {
            Ok(b) => b,
            Err(e) => {
                assert(!crate::blob::spec_blob_format_ok(
                    spec_file(self.store.spec_chunks(), digest@).data@,
                ));
                return Err(ChunkReadError::Frame(e));
            },
        };
        assert(blob.spec_raw() == spec_file(self.store.spec_chunks(), digest@).data@);
        if let Err(e) = blob.verify_crc() {
            assert(!spec_blob_crc_ok(spec_file(self.store.spec_chunks(), digest@).data@));
            return Err(ChunkReadError::Frame(e));
        }
        assert(spec_blob_crc_ok(spec_file(self.store.spec_chunks(), digest@).data@));
        Ok(blob)
    }

    /// Fetch a chunk and decode it back to its plaintext.
    fn read_chunk(&mut self, digest: &[u8; 32]) -> (r: Result<Vec<u8>, ChunkReadError>) {
        let blob = match self.read_raw_chunk(digest) {
            Ok(b) => b,
            Err(e) => {
                return Err(e);
            },
        };
        match blob.decode(self.crypt_config) {
            Ok(v) => Ok(v),
            Err(e) => Err(ChunkReadError::Frame(e)),
        }
    }
}

} // verus!
