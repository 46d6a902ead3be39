//! Keyed chunk digests and authenticated encryption.
//!
//! A chunk digest is a 32-byte hash of the plaintext: without an encryption
//! key it is a plain SHA-256; with a key it is a keyed hash over the
//! plaintext using a digest subkey derived from the encryption key, so that
//! stores with different keys produce unrelated digests.

use vstd::prelude::*;

verus! {

/// What SHA-256 returns for a byte sequence.
pub uninterp spec fn sha256_of(data: Seq<u8>) -> Seq<u8>;

/// What AES-256-GCM decryption yields for a key, IV, associated data, tag
/// and ciphertext: the plaintext when the tag authenticates, nothing
/// otherwise.
pub uninterp spec fn aes_gcm_plain_of(
    key: Seq<u8>,
    iv: Seq<u8>,
    aad: Seq<u8>,
    tag: Seq<u8>,
    ciphertext: Seq<u8>,
) -> Option<Seq<u8>>;

/// Relies on openssl::sha::sha256: the digest depends on the input bytes
/// alone and is 32 bytes long.
#[verifier::external_body]
pub fn sha256(data: &[u8]) -> (r: [u8; 32])
    ensures
        r@ == sha256_of(data@),
{
    openssl::sha::sha256(data)
}

/// Relies on openssl::symm::encrypt_aead with AES-256-GCM: decrypting the
/// returned ciphertext with the same key, IV, associated data and tag yields
/// the input, and the ciphertext is as long as the input.
#[verifier::external_body]
pub fn aes_gcm_encrypt(key: &[u8; 32], iv: &[u8; 16], aad: &[u8], data: &[u8]) -> (r: Option<
    (Vec<u8>, [u8; 16]),
>)
    ensures
        r matches Some((ct, tag)) ==> aes_gcm_plain_of(key@, iv@, aad@, tag@, ct@) == Some(data@)
            && ct@.len() == data@.len(),
{
    let mut tag = [0u8; 16];
    let cipher = openssl::symm::Cipher::aes_256_gcm();
    match openssl::symm::encrypt_aead(cipher, key, Some(iv), aad, data, &mut tag) {
        Ok(ct) => Some((ct, tag)),
        Err(_) => None,
    }
}

/// Relies on openssl::symm::decrypt_aead with AES-256-GCM: it returns the
/// plaintext exactly when the tag authenticates the data, and fails
/// otherwise.
#[verifier::external_body]
pub fn aes_gcm_decrypt(
    key: &[u8; 32],
    iv: &[u8; 16],
    aad: &[u8],
    tag: &[u8; 16],
    data: &[u8],
) -> (r: Option<Vec<u8>>)
    ensures
        r matches Some(v) ==> aes_gcm_plain_of(key@, iv@, aad@, tag@, data@) == Some(v@),
        r is None ==> aes_gcm_plain_of(key@, iv@, aad@, tag@, data@) is None,
{
    let cipher = openssl::symm::Cipher::aes_256_gcm();
    match openssl::symm::decrypt_aead(cipher, key, Some(iv), aad, data, tag) {
        Ok(v) => Some(v),
        Err(_) => None,
    }
}

/// Relies on openssl::rand::rand_bytes; nothing is assumed about the bytes
/// it produces.
#[verifier::external_body]
pub fn random_iv() -> (r: Option<[u8; 16]>) {
    let mut iv = [0u8; 16];
    match openssl::rand::rand_bytes(&mut iv) {
        Ok(()) => Some(iv),
        Err(_) => None,
    }
}

/// The label appended to the encryption key to derive the digest subkey.
pub open spec fn spec_id_key_label() -> Seq<u8> {
    seq![105u8, 100u8, 95u8, 107u8, 101u8, 121u8]
}

/// The digest subkey for an encryption key: a hash of the key and a fixed
/// label, so it is stable for a key but reveals nothing about it.
pub open spec fn id_key_of(key: Seq<u8>) -> Seq<u8> {
    sha256_of(key + spec_id_key_label())
}

/// The digest of a chunk plaintext under an optional encryption key.
pub open spec fn digest_of(key: Option<Seq<u8>>, data: Seq<u8>) -> Seq<u8> {
    match key {
        None => sha256_of(data),
        Some(k) => sha256_of(id_key_of(k) + data),
    }
}

/// Key material for encrypted chunks: the encryption key itself and the
/// derived digest subkey.
pub struct CryptConfig {
    enc_key: [u8; 32],
    id_key: [u8; 32],
}

impl CryptConfig {
    /// The encryption key this configuration was built from.
    pub closed spec fn spec_key(&self) -> Seq<u8> {
        self.enc_key@
    }

    /// A well-formed configuration carries the digest subkey of its
    /// encryption key.
    pub closed spec fn wf(&self) -> bool {
        self.id_key@ == id_key_of(self.enc_key@)
    }

    pub fn new(enc_key: [u8; 32]) -> (r: CryptConfig)
        ensures
            r.wf(),
            r.spec_key() == enc_key@,
    {
        let mut material: Vec<u8> = Vec::new();
        let mut i: usize = 0;
        while i < 32
            invariant
                i <= 32,
                material@ == enc_key@.take(i as int),
            decreases 32 - i,
        {
            material.push(enc_key[i]);
            assert(enc_key@.take(i + 1) =~= enc_key@.take(i as int).push(enc_key@[i as int]));
            i = i + 1;
        }
        assert(material@ =~= enc_key@);
        // the bytes of "id_key"
        material.push(105);
        material.push(100);
        material.push(95);
        material.push(107);
        material.push(101);
        material.push(121);
        assert(material@ =~= enc_key@ + spec_id_key_label());
        let id_key = sha256(material.as_slice());
        CryptConfig { enc_key, id_key }
    }

    pub(crate) fn enc_key(&self) -> (r: &[u8; 32])
        ensures
            r@ == self.spec_key(),
    {
        &self.enc_key
    }

    /// The keyed digest of a chunk plaintext: a hash over the digest subkey
    /// followed by the plaintext.
    pub fn compute_digest(&self, data: &[u8]) -> (r: [u8; 32])
        requires
            self.wf(),
        ensures
            r@ == digest_of(Some(self.spec_key()), data@),
    {
        let mut material: Vec<u8> = Vec::new();
        let mut i: usize = 0;
        while i < 32
            invariant
                i <= 32,
                material@ == self.id_key@.take(i as int),
            decreases 32 - i,
        {
            material.push(self.id_key[i]);
            assert(self.id_key@.take(i + 1) =~= self.id_key@.take(i as int).push(
                self.id_key@[i as int],
            ));
            i = i + 1;
        }
        assert(material@ =~= self.id_key@);
        let mut j: usize = 0;
        while j < data.len()
            invariant
                j <= data.len(),
                material@ == self.id_key@ + data@.take(j as int),
            decreases data.len() - j,
        {
            material.push(data[j]);
            assert(data@.take(j + 1) =~= data@.take(j as int).push(data@[j as int]));
            j = j + 1;
        }
        assert(material@ =~= self.id_key@ + data@);
        sha256(material.as_slice())
    }
}

/// The digest of a plaintext under an optional key.
pub fn compute_chunk_digest(config: Option<&CryptConfig>, data: &[u8]) -> (r: [u8; 32])
    requires
        config matches Some(c) ==> c.wf(),
    ensures
        r@ == digest_of(
            match config {
                Some(c) => Some(c.spec_key()),
                None => None,
            },
            data@,
        ),
{
    match config {
        Some(c) => c.compute_digest(data),
        None => sha256(data),
    }
}

/// Chunk identity: the digest of a plaintext under a key is a function of
/// the two alone, so computing it twice gives the same bytes.
pub proof fn lemma_digest_deterministic(key: Option<Seq<u8>>, data: Seq<u8>)
    ensures
        digest_of(key, data) == digest_of(key, data),
{
}

} // verus!
