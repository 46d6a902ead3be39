//! On-disk chunk framing.
//!
//! A stored chunk is a small frame: an 8-byte magic naming one of four
//! variants (plain, compressed, encrypted, encrypted-compressed), a CRC-32C
//! over everything after the first 12 bytes, and the body.  Encrypted
//! variants carry a 16-byte IV and a 16-byte authentication tag between the
//! header and the body; the associated data of the AEAD is the frame header
//! with the checksum field still zero.  The digest of a chunk always refers
//! to the plaintext, never to the frame.

use vstd::prelude::*;
use vstd::bytes::{spec_u32_from_le_bytes, spec_u32_to_le_bytes, u32_from_le_bytes, u32_to_le_bytes};
use vstd::slice::slice_subrange;
use crate::crypt::{aes_gcm_plain_of, aes_gcm_encrypt, aes_gcm_decrypt, random_iv, CryptConfig};

verus! {

/// What CRC-32C returns for a byte sequence.
pub uninterp spec fn crc32_of(data: Seq<u8>) -> u32;

/// What zstd decompression yields for a byte sequence: the plaintext when
/// the bytes are a well-formed compressed block, nothing otherwise.
pub uninterp spec fn zstd_plain_of(data: Seq<u8>) -> Option<Seq<u8>>;

/// Relies on crc32c::crc32c: the checksum depends on the input bytes alone.
#[verifier::external_body]
pub fn crc32(data: &[u8]) -> (r: u32)
    ensures
        r == crc32_of(data@),
{
    crc32c::crc32c(data)
}

/// Relies on zstd::bulk::compress being lossless: decompressing its output
/// yields the input again.
#[verifier::external_body]
fn zstd_compress(data: &[u8]) -> (r: Option<Vec<u8>>)
    ensures
        r matches Some(c) ==> zstd_plain_of(c@) == Some(data@),
{
    match zstd::bulk::compress(data, 1) {
        Ok(v) => Some(v),
        Err(_) => None,
    }
}

/// Relies on zstd::bulk::decompress: it returns the plaintext of a
/// compressed block when that plaintext fits the given capacity, and fails
/// otherwise.
#[verifier::external_body]
fn zstd_decompress(data: &[u8], capacity: usize) -> (r: Option<Vec<u8>>)
    ensures
        r matches Some(v) ==> zstd_plain_of(data@) == Some(v@) && v@.len() <= capacity,
        r is None ==> !match zstd_plain_of(data@) {
            Some(p) => p.len() <= capacity,
            None => false,
        },
{
    match zstd::bulk::decompress(data, capacity) {
        Ok(v) => Some(v),
        Err(_) => None,
    }
}

/// The largest plaintext a chunk frame is allowed to carry; the decoder
/// refuses to decompress past this bound.
pub const MAX_BLOB_PLAIN: usize = 16 * 1024 * 1024;

/// Decoding failures, one per integrity gate.
#[derive(Clone, Copy, Debug, PartialEq, Eq, Structural)]
pub enum BlobError {
    /// Too short, or the magic names no known variant.
    Format,
    /// The stored CRC does not match the payload.
    Checksum,
    /// No key for an encrypted frame, the tag does not authenticate, or
    /// encryption itself failed.
    Crypt,
    /// The compressed body cannot be decompressed within bounds.
    Decompress,
}

pub open spec fn spec_magic_uncompressed() -> Seq<u8> {
    seq![66u8, 171u8, 56u8, 7u8, 190u8, 131u8, 112u8, 161u8]
}

pub open spec fn spec_magic_compressed() -> Seq<u8> {
    seq![49u8, 185u8, 88u8, 66u8, 111u8, 182u8, 163u8, 127u8]
}

pub open spec fn spec_magic_encrypted() -> Seq<u8> {
    seq![123u8, 103u8, 133u8, 190u8, 34u8, 45u8, 76u8, 240u8]
}

pub open spec fn spec_magic_encrypted_compressed() -> Seq<u8> {
    seq![230u8, 89u8, 27u8, 191u8, 11u8, 191u8, 216u8, 11u8]
}

pub fn magic_uncompressed() -> (r: [u8; 8])
    ensures
        r@ == spec_magic_uncompressed(),
{
    let r: [u8; 8] = [66, 171, 56, 7, 190, 131, 112, 161];
    assert(r@ =~= spec_magic_uncompressed());
    r
}

pub fn magic_compressed() -> (r: [u8; 8])
    ensures
        r@ == spec_magic_compressed(),
{
    let r: [u8; 8] = [49, 185, 88, 66, 111, 182, 163, 127];
    assert(r@ =~= spec_magic_compressed());
    r
}

pub fn magic_encrypted() -> (r: [u8; 8])
    ensures
        r@ == spec_magic_encrypted(),
{
    let r: [u8; 8] = [123, 103, 133, 190, 34, 45, 76, 240];
    assert(r@ =~= spec_magic_encrypted());
    r
}

pub fn magic_encrypted_compressed() -> (r: [u8; 8])
    ensures
        r@ == spec_magic_encrypted_compressed(),
{
    let r: [u8; 8] = [230, 89, 27, 191, 11, 191, 216, 11];
    assert(r@ =~= spec_magic_encrypted_compressed());
    r
}

/// Compare two byte strings.
pub fn bytes_eq(a: &[u8], b: &[u8]) -> (r: bool)
    ensures
        r == (a@ == b@),
{
    if a.len() != b.len() {
        assert(a@ != b@);
        return false;
    }
    let mut i: usize = 0;
    while i < a.len()
        invariant
            i <= a.len(),
            a@.len() == b@.len(),
            forall|j: int| 0 <= j < i ==> a@[j] == b@[j],
        decreases a.len() - i,
    {
        if *slice_subrange(a, i, i + 1).first().unwrap() != *slice_subrange(b, i, i + 1)
            .first()
            .unwrap() {
            return false;
        }
        i = i + 1;
    }
    assert(a@ =~= b@);
    true
}

/// The frame magic is one of the two encrypted variants.
pub open spec fn spec_magic_is_encrypted(magic: Seq<u8>) -> bool {
    magic == spec_magic_encrypted() || magic == spec_magic_encrypted_compressed()
}

/// The frame magic names any of the four variants.
pub open spec fn spec_magic_known(magic: Seq<u8>) -> bool {
    ||| magic == spec_magic_uncompressed()
    ||| magic == spec_magic_compressed()
    ||| spec_magic_is_encrypted(magic)
}

/// A byte string is a well-formed frame: long enough for its variant, with
/// a known magic.  The checksum is not part of well-formedness; it is
/// verified separately.
pub open spec fn spec_blob_format_ok(data: Seq<u8>) -> bool {
    &&& data.len() >= 12
    &&& spec_magic_known(data.take(8))
    &&& spec_magic_is_encrypted(data.take(8)) ==> data.len() >= 44
}

/// The stored CRC matches the payload after the 12-byte header.
pub open spec fn spec_blob_crc_ok(data: Seq<u8>) -> bool {
    spec_u32_from_le_bytes(data.subrange(8, 12)) == crc32_of(data.skip(12))
}

/// The AEAD associated data of a frame: its magic followed by the four
/// zero bytes the checksum field held during encryption.
pub open spec fn spec_aad_of(magic: Seq<u8>) -> Seq<u8> {
    magic + seq![0u8, 0u8, 0u8, 0u8]
}

/// A compressed body decodes to its plaintext when that plaintext is within
/// the size bound.
pub open spec fn spec_body_decompresses_to(body: Seq<u8>) -> Option<Seq<u8>> {
    match zstd_plain_of(body) {
        Some(p) => if p.len() <= MAX_BLOB_PLAIN {
            Some(p)
        } else {
            None
        },
        None => None,
    }
}

/// What a frame decodes to under an optional key: the plaintext if every
/// gate (length, magic, CRC, tag, decompression) passes, nothing otherwise.
pub open spec fn spec_blob_decodes_to(data: Seq<u8>, key: Option<Seq<u8>>) -> Option<Seq<u8>> {
    if !spec_blob_format_ok(data) {
        None
    } else if !spec_blob_crc_ok(data) {
        None
    } else {
        let magic = data.take(8);
        if magic == spec_magic_uncompressed() {
            Some(data.skip(12))
        } else if magic == spec_magic_compressed() {
            spec_body_decompresses_to(data.skip(12))
        } else {
            match key {
                None => None,
                Some(k) => {
                    let iv = data.subrange(12, 28);
                    let tag = data.subrange(28, 44);
                    let body = data.skip(44);
                    match aes_gcm_plain_of(k, iv, spec_aad_of(magic), tag, body) {
                        None => None,
                        Some(plain) => if magic == spec_magic_encrypted() {
                            Some(plain)
                        } else {
                            spec_body_decompresses_to(plain)
                        },
                    }
                },
            }
        }
    }
}

/// The key sequence of an optional crypt configuration.
pub open spec fn spec_key_of(config: Option<&CryptConfig>) -> Option<Seq<u8>> {
    match config {
        Some(c) => Some(c.spec_key()),
        None => None,
    }
}

/// An immutable chunk frame.
pub struct DataBlob {
    raw: Vec<u8>,
}

impl DataBlob {
    /// The raw frame bytes.
    pub closed spec fn spec_raw(&self) -> Seq<u8> {
        self.raw@
    }

    /// A blob value always holds a well-formed frame.
    pub closed spec fn wf(&self) -> bool {
        spec_blob_format_ok(self.raw@)
    }

    /// The raw frame bytes, for storage and byte-wise comparison.
    pub fn raw_data(&self) -> (r: &[u8])
        ensures
            r@ == self.spec_raw(),
    {
        self.raw.as_slice()
    }

    /// Give up the frame bytes.
    pub fn into_inner(self) -> (r: Vec<u8>)
        ensures
            r@ == self.spec_raw(),
    {
        self.raw
    }

    /// The frame length in bytes.
    pub fn raw_len(&self) -> (r: usize)
        ensures
            r == self.spec_raw().len(),
    {
        self.raw.len()
    }

    /// Accept stored bytes as a frame after checking length and magic; the
    /// body is not decoded.
    pub fn from_raw(raw: Vec<u8>) -> (r: Result<DataBlob, BlobError>)
        ensures
            r matches Ok(b) ==> b.spec_raw() == raw@ && b.wf(),
            r is Ok <==> spec_blob_format_ok(raw@),
    {
        if raw.len() < 12 {
            return Err(BlobError::Format);
        }
        let magic = slice_subrange(raw.as_slice(), 0, 8);
        assert(magic@ =~= raw@.take(8));
        let encrypted = bytes_eq(magic, &magic_encrypted())
            || bytes_eq(magic, &magic_encrypted_compressed());
        let known = encrypted || bytes_eq(magic, &magic_uncompressed())
            || bytes_eq(magic, &magic_compressed());
        if !known {
            return Err(BlobError::Format);
        }
        if encrypted && raw.len() < 44 {
            return Err(BlobError::Format);
        }
        Ok(DataBlob { raw })
    }

    /// Check the stored CRC against the payload.
    pub fn verify_crc(&self) -> (r: Result<(), BlobError>)
        requires
            self.wf(),
        ensures
            r is Ok <==> spec_blob_crc_ok(self.spec_raw()),
            r is Err ==> r == Err::<(), BlobError>(BlobError::Checksum),
    {
        let stored = u32_from_le_bytes(slice_subrange(self.raw.as_slice(), 8, 12));
        let payload = slice_subrange(self.raw.as_slice(), 12, self.raw.len());
        assert(payload@ =~= self.raw@.skip(12));
        let computed = crc32(payload);
        if stored == computed {
            Ok(())
        } else {
            Err(BlobError::Checksum)
        }
    }

    /// Build a frame that carries `data`: encrypted when a key is given,
    /// compressed when requested and the compressed body is under
    /// ninety-five hundredths of the plaintext length; a compression that
    /// fails or does not pay falls back to the uncompressed variant.
    pub fn encode(data: &[u8], config: Option<&CryptConfig>, compress: bool) -> (r: Result<
        DataBlob,
        BlobError,
    >)
        requires
            data@.len() <= MAX_BLOB_PLAIN,
            config matches Some(c) ==> c.wf(),
        ensures
            r matches Ok(b) ==> b.wf() && spec_blob_decodes_to(b.spec_raw(), spec_key_of(config))
                == Some(data@),
            r matches Ok(b) ==> (config is None <==> !spec_magic_is_encrypted(
                b.spec_raw().take(8),
            )),
            !compress && config is None ==> (r matches Ok(b) ==> b.spec_raw().take(8)
                == spec_magic_uncompressed()),
            !compress && config is Some ==> (r matches Ok(b) ==> b.spec_raw().take(8)
                == spec_magic_encrypted()),
            config is None ==> r is Ok,
    {
        let compressed_body: Option<Vec<u8>> = if compress {
            match zstd_compress(data) {
                Some(c) => if (c.len() as u128) * 100 < (data.len() as u128) * 95 {
                    Some(c)
                } else {
                    None
                },
                None => None,
            }
        } else {
            None
        };
        match config {
            None => {
                match compressed_body {
                    Some(body) => Self::assemble_plain(&magic_compressed(), body.as_slice()),
                    None => Self::assemble_plain(&magic_uncompressed(), data),
                }
            },
            Some(c) => {
                match compressed_body {
                    Some(body) => Self::assemble_encrypted(
                        &magic_encrypted_compressed(),
                        c,
                        body.as_slice(),
                        Ghost(Some(data@)),
                    ),
                    None => Self::assemble_encrypted(&magic_encrypted(), c, data, Ghost(None)),
                }
            },
        }
    }

    /// Assemble an unencrypted frame around a ready body.
    fn assemble_plain(magic: &[u8; 8], body: &[u8]) -> (r: Result<DataBlob, BlobError>)
        requires
            spec_magic_known(magic@),
            !spec_magic_is_encrypted(magic@),
        ensures
            r matches Ok(b) ==> {
                &&& b.wf()
                &&& b.spec_raw().take(8) == magic@
                &&& b.spec_raw().skip(12) == body@
                &&& spec_blob_crc_ok(b.spec_raw())
            },
            r is Ok,
    {
        let crc = crc32(body);
        let mut raw: Vec<u8> = Vec::new();
        raw.extend_from_slice(magic.as_slice());
        let mut crc_bytes = u32_to_le_bytes(crc);
        raw.append(&mut crc_bytes);
        raw.extend_from_slice(body);
        assert(raw@.take(8) =~= magic@);
        assert(raw@.skip(12) =~= body@);
        assert(raw@.subrange(8, 12) =~= spec_u32_to_le_bytes(crc));
        proof {
            vstd::bytes::lemma_auto_spec_u32_to_from_le_bytes();
        }
        Ok(DataBlob { raw })
    }

    /// Assemble an encrypted frame: encrypt the body, then frame IV, tag
    /// and ciphertext behind the CRC.  `plain` records what the body stood
    /// for when it was itself a compressed plaintext.
    fn assemble_encrypted(
        magic: &[u8; 8],
        config: &CryptConfig,
        body: &[u8],
        plain: Ghost<Option<Seq<u8>>>,
    ) -> (r: Result<DataBlob, BlobError>)
        requires
            spec_magic_is_encrypted(magic@),
            config.wf(),
            magic@ == spec_magic_encrypted_compressed() ==> (plain@ matches Some(p)
                && spec_body_decompresses_to(body@) == Some(p)),
        ensures
            r matches Ok(b) ==> {
                &&& b.wf()
                &&& b.spec_raw().take(8) == magic@
                &&& spec_blob_decodes_to(
                    b.spec_raw(),
                    Some(config.spec_key()),
                ) == if magic@ == spec_magic_encrypted() {
                    Some(body@)
                } else {
                    (plain@)
                }
            },
    {
        let iv = match random_iv() {
            Some(iv) => iv,
            None => {
                return Err(BlobError::Crypt);
            },
        };
        let mut aad: Vec<u8> = Vec::new();
        aad.extend_from_slice(magic.as_slice());
        aad.push(0);
        aad.push(0);
        aad.push(0);
        aad.push(0);
        assert(aad@ =~= spec_aad_of(magic@));
        let (ciphertext, tag) = match aes_gcm_encrypt(config.enc_key(), &iv, aad.as_slice(), body) {
            Some(p) => p,
            None => {
                return Err(BlobError::Crypt);
            },
        };
        let mut payload: Vec<u8> = Vec::new();
        payload.extend_from_slice(iv.as_slice());
        payload.extend_from_slice(tag.as_slice());
        payload.extend_from_slice(ciphertext.as_slice());
        assert(payload@ =~= iv@ + tag@ + ciphertext@);
        let crc = crc32(payload.as_slice());
        let mut raw: Vec<u8> = Vec::new();
        raw.extend_from_slice(magic.as_slice());
        let mut crc_bytes = u32_to_le_bytes(crc);
        raw.append(&mut crc_bytes);
        raw.append(&mut payload);
        proof {
            vstd::bytes::lemma_auto_spec_u32_to_from_le_bytes();
        }
        assert(raw@.take(8) =~= magic@);
        assert(raw@.subrange(8, 12) =~= spec_u32_to_le_bytes(crc));
        assert(raw@.skip(12) =~= iv@ + tag@ + ciphertext@);
        assert(raw@.subrange(12, 28) =~= iv@);
        assert(raw@.subrange(28, 44) =~= tag@);
        assert(raw@.skip(44) =~= ciphertext@);
        Ok(DataBlob { raw })
    }

    /// Decode the frame back to its plaintext, verifying CRC, then tag,
    /// then decompressing.
    pub fn decode(&self, config: Option<&CryptConfig>) -> (r: Result<Vec<u8>, BlobError>)
        requires
            self.wf(),
            config matches Some(c) ==> c.wf(),
        ensures
            r matches Ok(v) ==> spec_blob_decodes_to(self.spec_raw(), spec_key_of(config))
                == Some(v@),
            r is Err ==> spec_blob_decodes_to(self.spec_raw(), spec_key_of(config)) is None,
            !spec_blob_crc_ok(self.spec_raw()) ==> r == Err::<Vec<u8>, BlobError>(
                BlobError::Checksum,
            ),
    {
        if let Err(e) = self.verify_crc() {
            return Err(e);
        }
        let magic = slice_subrange(self.raw.as_slice(), 0, 8);
        assert(magic@ =~= self.raw@.take(8));
        if bytes_eq(magic, &magic_uncompressed()) {
            let body = slice_subrange(self.raw.as_slice(), 12, self.raw.len());
            assert(body@ =~= self.raw@.skip(12));
            let mut out: Vec<u8> = Vec::new();
            out.extend_from_slice(body);
            assert(out@ =~= self.raw@.skip(12));
            Ok(out)
        } else if bytes_eq(magic, &magic_compressed()) {
            let body = slice_subrange(self.raw.as_slice(), 12, self.raw.len());
            assert(body@ =~= self.raw@.skip(12));
            match zstd_decompress(body, MAX_BLOB_PLAIN) {
                Some(v) => Ok(v),
                None => Err(BlobError::Decompress),
            }
        } else {
            let c = match config {
                Some(c) => c,
                None => {
                    return Err(BlobError::Crypt);
                },
            };
            let iv_slice = slice_subrange(self.raw.as_slice(), 12, 28);
            let tag_slice = slice_subrange(self.raw.as_slice(), 28, 44);
            let body = slice_subrange(self.raw.as_slice(), 44, self.raw.len());
            assert(iv_slice@ =~= self.raw@.subrange(12, 28));
            assert(tag_slice@ =~= self.raw@.subrange(28, 44));
            assert(body@ =~= self.raw@.skip(44));
            let mut iv = [0u8; 16];
            let mut tag = [0u8; 16];
            let mut i: usize = 0;
            while i < 16
                invariant
                    i <= 16,
                    iv_slice@.len() == 16,
                    tag_slice@.len() == 16,
                    forall|j: int| 0 <= j < i ==> iv@[j] == iv_slice@[j] && tag@[j] == tag_slice@[j],
                decreases 16 - i,
            {
                iv[i] = *slice_subrange(iv_slice, i, i + 1).first().unwrap();
                tag[i] = *slice_subrange(tag_slice, i, i + 1).first().unwrap();
                i = i + 1;
            }
            assert(iv@ =~= iv_slice@);
            assert(tag@ =~= tag_slice@);
            let mut aad: Vec<u8> = Vec::new();
            aad.extend_from_slice(magic);
            aad.push(0);
            aad.push(0);
            aad.push(0);
            aad.push(0);
            assert(aad@ =~= spec_aad_of(self.raw@.take(8)));
            let plain = match aes_gcm_decrypt(c.enc_key(), &iv, aad.as_slice(), &tag, body) {
                Some(v) => v,
                None => {
                    return Err(BlobError::Crypt);
                },
            };
            if bytes_eq(magic, &magic_encrypted()) {
                Ok(plain)
            } else {
                match zstd_decompress(plain.as_slice(), MAX_BLOB_PLAIN) {
                    Some(v) => Ok(v),
                    None => Err(BlobError::Decompress),
                }
            }
        }
    }
}

/// Check that a stored chunk's content hashes to its name: decode the
/// frame and compare the plaintext's digest against the digest the chunk
/// is stored under.
pub fn verify_chunk_digest(
    blob: &DataBlob,
    config: Option<&CryptConfig>,
    digest: &[u8; 32],
) -> (r: Result<(), BlobError>)
    requires
        blob.wf(),
        config matches Some(c) ==> c.wf(),
    ensures
        r is Ok <==> match spec_blob_decodes_to(blob.spec_raw(), spec_key_of(config)) {
            Some(plain) => crate::crypt::digest_of(spec_key_of(config), plain) == digest@,
            None => false,
        },
{
    let plain = match blob.decode(config) {
        Ok(v) => v,
        Err(e) => {
            return Err(e);
        },
    };
    let computed = crate::crypt::compute_chunk_digest(config, plain.as_slice());
    if bytes_eq(computed.as_slice(), digest.as_slice()) {
        Ok(())
    } else {
        Err(BlobError::Checksum)
    }
}

/// Round-trip: a frame built by `encode` under a key decodes, under the
/// same key, to the plaintext it was built from; decoding is a function of
/// the frame bytes and the key, so every decode of that frame agrees.
pub proof fn lemma_blob_round_trip(frame: Seq<u8>, key: Option<Seq<u8>>, plain: Seq<u8>)
    requires
        spec_blob_decodes_to(frame, key) == Some(plain),
    ensures
        forall|other: Seq<u8>|
            spec_blob_decodes_to(frame, key) == Some(other) ==> other == plain,
{
}

} // verus!
