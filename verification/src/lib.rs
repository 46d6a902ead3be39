//! A deduplicating, content-addressed backup store and its data-plane
//! protocols: chunk framing, index formats, the chunk upload pipeline,
//! the pull engine that mirrors stores, and the mark-and-sweep garbage
//! collector that reclaims unreferenced chunks.
//!
//! Everything that decides — what a frame decodes to, which chunk an
//! insert deduplicates, what a sweep removes, what a sync transfers — is
//! verified here against its contract.  The surrounding process performs
//! the file and network operations those decisions call for.

use vstd::prelude::*;

pub mod crypt;
pub mod blob;
pub mod index;
pub mod chunk_store;
pub mod datastore;
pub mod backup_writer;
pub mod pull;
pub mod chunker;
pub mod api_types;
pub mod server_state;
pub mod scsi;
pub mod node_config;
pub mod schema;
pub mod manifest;
pub mod read_chunk;

verus! {

/// Length in bytes of a chunk digest.
pub const DIGEST_LENGTH: usize = 32;

/// Spec-level hex digit for a nibble value.
pub open spec fn hex_digit(n: int) -> char {
    if n == 0 { '0' } else if n == 1 { '1' } else if n == 2 { '2' }
    else if n == 3 { '3' } else if n == 4 { '4' } else if n == 5 { '5' }
    else if n == 6 { '6' } else if n == 7 { '7' } else if n == 8 { '8' }
    else if n == 9 { '9' } else if n == 10 { 'a' } else if n == 11 { 'b' }
    else if n == 12 { 'c' } else if n == 13 { 'd' } else if n == 14 { 'e' }
    else { 'f' }
}

/// Spec-level lower-case hex encoding of a byte sequence.
pub open spec fn hex_of(bytes: Seq<u8>) -> Seq<char>
    decreases bytes.len(),
{
    if bytes.len() == 0 {
        Seq::<char>::empty()
    } else {
        seq![hex_digit(bytes[0] as int / 16), hex_digit(bytes[0] as int % 16)]
            + hex_of(bytes.skip(1))
    }
}

/// The hex digit for a nibble, as a one-character string slice.
fn hex_digit_str(n: u8) -> (r: &'static str)
    requires
        n < 16,
    ensures
        r@ == seq![hex_digit(n as int)],
{
    proof {
        reveal_strlit("0");
        reveal_strlit("1");
        reveal_strlit("2");
        reveal_strlit("3");
        reveal_strlit("4");
        reveal_strlit("5");
        reveal_strlit("6");
        reveal_strlit("7");
        reveal_strlit("8");
        reveal_strlit("9");
        reveal_strlit("a");
        reveal_strlit("b");
        reveal_strlit("c");
        reveal_strlit("d");
        reveal_strlit("e");
        reveal_strlit("f");
    }
    match n {
        0 => "0",
        1 => "1",
        2 => "2",
        3 => "3",
        4 => "4",
        5 => "5",
        6 => "6",
        7 => "7",
        8 => "8",
        9 => "9",
        10 => "a",
        11 => "b",
        12 => "c",
        13 => "d",
        14 => "e",
        _ => "f",
    }
}

/// Hex-encode bytes into a string, lower case.
pub fn bytes_to_hex_string(bytes: &[u8]) -> (r: String)
    ensures
        r@ == hex_of(bytes@),
{
    let mut out = String::new();
    let mut i: usize = 0;
    while i < bytes.len()
        invariant
            i <= bytes@.len(),
            out@ == hex_of(bytes@.take(i as int)),
        decreases bytes@.len() - i,
    {
        let b = bytes[i];
        out.append(hex_digit_str(b / 16));
        out.append(hex_digit_str(b % 16));
        proof {
            lemma_hex_of_push(bytes@, i as int);
        }
        i = i + 1;
    }
    assert(bytes@.take(bytes@.len() as int) == bytes@);
    out
}

proof fn lemma_hex_of_push(bytes: Seq<u8>, i: int)
    requires
        0 <= i < bytes.len(),
    ensures
        hex_of(bytes.take(i + 1)) == hex_of(bytes.take(i))
            + seq![hex_digit(bytes[i] as int / 16), hex_digit(bytes[i] as int % 16)],
    decreases i,
{
    let pre = bytes.take(i + 1);
    if i == 0 {
        assert(pre[0] == bytes[0]);
        assert(pre.skip(1) =~= Seq::<u8>::empty());
        assert(hex_of(pre.skip(1)) =~= Seq::<char>::empty());
        assert(hex_of(bytes.take(0)) =~= Seq::<char>::empty());
        assert(hex_of(pre) =~= seq![
            hex_digit(bytes[0] as int / 16),
            hex_digit(bytes[0] as int % 16),
        ]);
    } else {
        lemma_hex_of_push(bytes.skip(1), i - 1);
        assert(pre.skip(1) =~= bytes.skip(1).take(i));
        assert(bytes.take(i).skip(1) =~= bytes.skip(1).take(i - 1));
        assert(bytes.skip(1)[i - 1] == bytes[i]);
    }
}

} // verus!
