//! Content-defined chunking.
//!
//! A 64-byte rolling hash slides over the stream; a chunk ends where the
//! hash's low bits hit a fixed pattern, so boundaries depend only on the
//! bytes of the window.  Two streams that agree on a long enough suffix
//! therefore agree on all later cut points, which is what lets consecutive
//! snapshots share chunks.  Hard bounds keep every chunk between a quarter
//! of the target size and four times the target size.

use vstd::prelude::*;
use vstd::slice::slice_subrange;

verus! {

/// How many trailing bytes the rolling hash looks at.
pub const CHUNKER_WINDOW: usize = 64;

/// The mixing pattern a byte contributes to the hash: the byte value plus
/// one, spread over the low seven lanes.
pub open spec fn spec_tbl(b: u8) -> u64 {
    (((b as u64) + 1) * 0x0001010101010101) as u64
}

/// Rotate left by one bit.
pub open spec fn spec_rotl1(h: u64) -> u64 {
    (h << 1) | (h >> 63)
}

/// The rolling hash after the first `n` bytes.  A byte's contribution is
/// rotated once per later step and removed, rotated 64 times and therefore
/// unchanged, when it leaves the window: after 64 bytes the hash depends
/// on the window alone.
pub open spec fn spec_roll_hash(data: Seq<u8>, n: int) -> u64
    decreases n,
{
    if n <= 0 {
        0u64
    } else if n > CHUNKER_WINDOW {
        (spec_rotl1(spec_roll_hash(data, n - 1)) ^ spec_tbl(data[n - 1])) ^ spec_tbl(
            data[n - CHUNKER_WINDOW - 1],
        )
    } else {
        spec_rotl1(spec_roll_hash(data, n - 1)) ^ spec_tbl(data[n - 1])
    }
}

/// `h` rotated left `k` times.
pub open spec fn spec_rotl_n(h: u64, k: int) -> u64
    decreases k,
{
    if k <= 0 {
        h
    } else {
        spec_rotl1(spec_rotl_n(h, k - 1))
    }
}

/// The combined contribution of the last `k` bytes before position `n`:
/// the byte `i` back is rotated `i - 1` times.
pub open spec fn spec_win(d: Seq<u8>, n: int, k: int) -> u64
    decreases k,
{
    if k <= 0 {
        0u64
    } else {
        spec_win(d, n, k - 1) ^ spec_rotl_n(spec_tbl(d[n - k]), k - 1)
    }
}

/// Rotation distributes over exclusive or.
proof fn lemma_rotl1_xor(a: u64, b: u64)
    ensures
        spec_rotl1(a ^ b) == spec_rotl1(a) ^ spec_rotl1(b),
{
    assert((((a ^ b) << 1u64) | ((a ^ b) >> 63u64)) == (((a << 1u64) | (a >> 63u64)) ^ ((b
        << 1u64) | (b >> 63u64)))) by (bit_vector);
}

/// Peeling one step off the window sum: the newest byte enters unrotated
/// and everything older turns once.
proof fn lemma_win_step(d: Seq<u8>, n: int, k: int)
    requires
        1 <= k,
    ensures
        spec_win(d, n, k) == spec_tbl(d[n - 1]) ^ spec_rotl1(spec_win(d, n - 1, k - 1)),
    decreases k,
{
    if k == 1 {
        assert(spec_rotl1(0u64) == 0u64) by (bit_vector);
        assert(spec_win(d, n, 0) == 0u64);
        assert(spec_win(d, n - 1, 0) == 0u64);
        assert(spec_rotl_n(spec_tbl(d[n - 1]), 0) == spec_tbl(d[n - 1]));
        assert(spec_win(d, n, 1) == spec_win(d, n, 0) ^ spec_rotl_n(spec_tbl(d[n - 1]), 0));
        let t1 = spec_tbl(d[n - 1]);
        assert(0u64 ^ t1 == t1 ^ 0u64) by (bit_vector);
    } else {
        lemma_win_step(d, n, k - 1);
        assert(spec_win(d, n, k) == spec_win(d, n, k - 1) ^ spec_rotl_n(
            spec_tbl(d[n - k]),
            k - 1,
        ));
        lemma_rotl1_xor(spec_win(d, n - 1, k - 2), spec_rotl_n(spec_tbl(d[n - k]), k - 2));
        assert(spec_win(d, n - 1, k - 1) == spec_win(d, n - 1, k - 2) ^ spec_rotl_n(
            spec_tbl(d[n - 1 - (k - 1)]),
            k - 2,
        ));
        assert(n - 1 - (k - 1) == n - k);
        assert(spec_rotl_n(spec_tbl(d[n - k]), k - 1) == spec_rotl1(spec_rotl_n(
            spec_tbl(d[n - k]),
            k - 2,
        )));
        let tn = spec_tbl(d[n - 1]);
        let w2 = spec_rotl1(spec_win(d, n - 1, k - 2));
        let rc = spec_rotl1(spec_rotl_n(spec_tbl(d[n - k]), k - 2));
        assert(spec_win(d, n, k) == (tn ^ w2) ^ rc);
        assert(spec_rotl1(spec_win(d, n - 1, k - 1)) == w2 ^ rc);
        assert((tn ^ w2) ^ rc == tn ^ (w2 ^ rc)) by (bit_vector);
    }
}

/// Before the window fills, the hash is the sum of every byte seen.
proof fn lemma_roll_prefix(d: Seq<u8>, n: int)
    requires
        0 <= n <= CHUNKER_WINDOW,
    ensures
        spec_roll_hash(d, n) == spec_win(d, n, n),
    decreases n,
{
    if n > 0 {
        lemma_roll_prefix(d, n - 1);
        lemma_win_step(d, n, n);
        assert(spec_roll_hash(d, n) == spec_rotl1(spec_roll_hash(d, n - 1)) ^ spec_tbl(
            d[n - 1],
        ));
        let a = spec_rotl1(spec_win(d, n - 1, n - 1));
        let b = spec_tbl(d[n - 1]);
        assert(a ^ b == b ^ a) by (bit_vector);
    } else {
        assert(spec_win(d, 0, 0) == 0u64);
    }
}

/// A rotation count below a full turn is two shifts.
proof fn lemma_rotl_unfold(x: u64, k: u64)
    requires
        1 <= k <= 63,
    ensures
        spec_rotl_n(x, k as int) == ((x << k) | (x >> ((64 - k) as u64))),
    decreases k,
{
    if k == 1 {
        assert(spec_rotl_n(x, 0) == x);
        assert(spec_rotl_n(x, 1) == spec_rotl1(spec_rotl_n(x, 0)));
    } else {
        lemma_rotl_unfold(x, (k - 1) as u64);
        let y = (x << ((k - 1) as u64)) | (x >> ((64 - (k - 1)) as u64));
        assert(spec_rotl_n(x, k as int) == spec_rotl1(y));
        assert(((y << 1u64) | (y >> 63u64)) == ((x << k) | (x >> ((64 - k) as u64))))
            by (bit_vector)
            requires
                2 <= k <= 63,
                y == ((x << ((k - 1) as u64)) | (x >> ((64 - (k - 1)) as u64))),
        ;
    }
}

/// A full turn of sixty-four rotations is the identity, which is what
/// cancels a byte's entering contribution when it leaves the window.
proof fn lemma_rotl64_id(x: u64)
    ensures
        spec_rotl_n(x, 64) == x,
{
    lemma_rotl_unfold(x, 63);
    let y = (x << 63u64) | (x >> 1u64);
    assert(spec_rotl_n(x, 64) == spec_rotl1(spec_rotl_n(x, 63)));
    assert(((y << 1u64) | (y >> 63u64)) == x) by (bit_vector)
        requires
            y == ((x << 63u64) | (x >> 1u64)),
    ;
}

/// Once the window is full, the hash is exactly the window sum: each
/// departing byte cancels against its own entry, a full turn later.
proof fn lemma_roll_window_form(d: Seq<u8>, n: int)
    requires
        CHUNKER_WINDOW <= n,
    ensures
        spec_roll_hash(d, n) == spec_win(d, n, CHUNKER_WINDOW as int),
    decreases n,
{
    if n == CHUNKER_WINDOW {
        lemma_roll_prefix(d, n);
    } else {
        lemma_roll_window_form(d, n - 1);
        let t_new = spec_tbl(d[n - 1]);
        let t_old = spec_tbl(d[n - 65]);
        let w63 = spec_win(d, n - 1, 63);
        assert(spec_win(d, n - 1, 64) == w63 ^ spec_rotl_n(t_old, 63));
        lemma_rotl1_xor(w63, spec_rotl_n(t_old, 63));
        assert(spec_rotl_n(t_old, 64) == spec_rotl1(spec_rotl_n(t_old, 63)));
        lemma_rotl64_id(t_old);
        lemma_win_step(d, n, 64);
        assert(spec_roll_hash(d, n) == (spec_rotl1(spec_win(d, n - 1, 64)) ^ t_new) ^ t_old);
        assert(spec_rotl1(spec_win(d, n - 1, 64)) == spec_rotl1(w63) ^ t_old);
        let a = spec_rotl1(w63);
        assert(((a ^ t_old) ^ t_new) ^ t_old == a ^ t_new) by (bit_vector);
        assert(spec_win(d, n, 64) == t_new ^ spec_rotl1(w63));
        assert((t_new ^ a) == (a ^ t_new)) by (bit_vector);
    }
}

/// Equal windows give equal window sums, byte for byte.
proof fn lemma_win_congruent(d1: Seq<u8>, n1: int, d2: Seq<u8>, n2: int, k: int)
    requires
        0 <= k <= CHUNKER_WINDOW,
        CHUNKER_WINDOW <= n1 <= d1.len(),
        CHUNKER_WINDOW <= n2 <= d2.len(),
        d1.subrange(n1 - CHUNKER_WINDOW as int, n1) == d2.subrange(
            n2 - CHUNKER_WINDOW as int,
            n2,
        ),
    ensures
        spec_win(d1, n1, k) == spec_win(d2, n2, k),
    decreases k,
{
    if k > 0 {
        lemma_win_congruent(d1, n1, d2, n2, k - 1);
        assert(d1[n1 - k] == d1.subrange(n1 - CHUNKER_WINDOW as int, n1)[CHUNKER_WINDOW - k]);
        assert(d2[n2 - k] == d2.subrange(n2 - CHUNKER_WINDOW as int, n2)[CHUNKER_WINDOW - k]);
    }
}

/// The window-only law: after a full window the rolling hash depends on
/// the last sixty-four bytes alone.  Two streams that agree on a window
/// agree on the hash there, which is how the chunker resynchronises after
/// an insertion and lets consecutive snapshots share their later chunks.
pub proof fn lemma_roll_hash_window(d1: Seq<u8>, n1: int, d2: Seq<u8>, n2: int)
    requires
        CHUNKER_WINDOW <= n1 <= d1.len(),
        CHUNKER_WINDOW <= n2 <= d2.len(),
        d1.subrange(n1 - CHUNKER_WINDOW as int, n1) == d2.subrange(
            n2 - CHUNKER_WINDOW as int,
            n2,
        ),
    ensures
        spec_roll_hash(d1, n1) == spec_roll_hash(d2, n2),
{
    lemma_roll_window_form(d1, n1);
    lemma_roll_window_form(d2, n2);
    lemma_win_congruent(d1, n1, d2, n2, CHUNKER_WINDOW as int);
}

/// The resynchronisation corollary for cut decisions: at equal offsets
/// into their chunks, two positions with equal windows decide a content
/// cut the same way.
pub proof fn lemma_cut_resync(
    d1: Seq<u8>,
    start1: int,
    n1: int,
    d2: Seq<u8>,
    start2: int,
    n2: int,
    min: int,
    mask: u64,
)
    requires
        CHUNKER_WINDOW <= n1 <= d1.len(),
        CHUNKER_WINDOW <= n2 <= d2.len(),
        n1 - start1 == n2 - start2,
        d1.subrange(n1 - CHUNKER_WINDOW as int, n1) == d2.subrange(
            n2 - CHUNKER_WINDOW as int,
            n2,
        ),
    ensures
        spec_cut_here(d1, start1, n1, min, mask) == spec_cut_here(d2, start2, n2, min, mask),
{
    lemma_roll_hash_window(d1, n1, d2, n2);
}

/// A chunk that started at `start` may end at `i` by content: it is at
/// least the minimum length and the window hash hits the cut pattern.
pub open spec fn spec_cut_here(data: Seq<u8>, start: int, i: int, min: int, mask: u64) -> bool {
    i - start >= min && (spec_roll_hash(data, i) & mask) == mask
}

/// No chunk that started at `start` ends at `i`: neither the content cut
/// nor the forced maximum applies there.
pub open spec fn spec_no_cut(
    data: Seq<u8>,
    start: int,
    i: int,
    min: int,
    max: int,
    mask: u64,
) -> bool {
    !(spec_cut_here(data, start, i, min, mask) || i - start >= max)
}

/// The end of the chunk that starts at `start`, scanning from `i`: the
/// first content cut, the maximum length, or the end of the data.
pub open spec fn spec_next_cut(
    data: Seq<u8>,
    start: int,
    i: int,
    min: int,
    max: int,
    mask: u64,
) -> int
    decreases data.len() - i,
{
    if i >= data.len() {
        data.len() as int
    } else if spec_cut_here(data, start, i, min, mask) || i - start >= max {
        i
    } else {
        spec_next_cut(data, start, i + 1, min, max, mask)
    }
}

/// All chunk end offsets of the data, in order.
pub open spec fn spec_cuts(data: Seq<u8>, start: int, min: int, max: int, mask: u64) -> Seq<int>
    recommends
        0 <= start,
        min >= 1,
    decreases data.len() - start,
{
    if start >= data.len() {
        Seq::<int>::empty()
    } else {
        let c = spec_next_cut(data, start, start + 1, min, max, mask);
        if c <= start || c > data.len() {
            Seq::<int>::empty()
        } else {
            seq![c] + spec_cuts(data, c, min, max, mask)
        }
    }
}

/// A scan that found no cut up to `i` and cuts at `i` names `i` as the
/// next cut.
proof fn lemma_next_cut_found(
    data: Seq<u8>,
    start: int,
    j: int,
    i: int,
    min: int,
    max: int,
    mask: u64,
)
    requires
        0 <= j <= i,
        i < data.len(),
        forall|k: int| j <= k < i ==> spec_no_cut(data, start, k, min, max, mask),
        spec_cut_here(data, start, i, min, mask) || i - start >= max,
    ensures
        spec_next_cut(data, start, j, min, max, mask) == i,
    decreases i - j,
{
    if j < i {
        assert(spec_no_cut(data, start, j, min, max, mask));
        lemma_next_cut_found(data, start, j + 1, i, min, max, mask);
    }
}

/// A scan that ran past the end without a cut names the end.
proof fn lemma_next_cut_end(data: Seq<u8>, start: int, j: int, min: int, max: int, mask: u64)
    requires
        0 <= j,
        forall|k: int| j <= k < data.len() ==> spec_no_cut(data, start, k, min, max, mask),
    ensures
        spec_next_cut(data, start, j, min, max, mask) == data.len(),
    decreases data.len() - j,
{
    if j < data.len() {
        assert(spec_no_cut(data, start, j, min, max, mask));
        lemma_next_cut_end(data, start, j + 1, min, max, mask);
    }
}

/// The content-defined chunker: a target chunk size (a power of two) and
/// the bounds derived from it.
pub struct Chunker {
    target: usize,
    min_size: usize,
    max_size: usize,
    mask: u64,
}

impl Chunker {
    pub closed spec fn spec_min(&self) -> int {
        self.min_size as int
    }

    pub closed spec fn spec_max(&self) -> int {
        self.max_size as int
    }

    pub closed spec fn spec_mask(&self) -> u64 {
        self.mask
    }

    pub closed spec fn wf(&self) -> bool {
        &&& self.min_size == self.target / 4
        &&& self.max_size == self.target * 4
        &&& self.min_size >= 1
        &&& self.mask == (self.target - 1) as u64
    }

    /// A chunker for an expected chunk size, which must be a power of two
    /// of at least 256 bytes.
    pub fn new(chunk_size_avg: usize) -> (r: Result<Chunker, ()>)
        ensures
            r matches Ok(c) ==> c.wf() && c.spec_min() == chunk_size_avg / 4 && c.spec_max()
                == chunk_size_avg * 4 && c.spec_mask() == (chunk_size_avg - 1) as u64,
            r is Ok <==> (chunk_size_avg >= 256 && chunk_size_avg <= usize::MAX / 4 && (
            chunk_size_avg & ((chunk_size_avg - 1) as usize)) == 0),
    {
        if chunk_size_avg < 256 || chunk_size_avg > usize::MAX / 4 || (chunk_size_avg & (
        chunk_size_avg - 1)) != 0 {
            return Err(());
        }
        Ok(
            Chunker {
                target: chunk_size_avg,
                min_size: chunk_size_avg / 4,
                max_size: chunk_size_avg * 4,
                mask: (chunk_size_avg - 1) as u64,
            },
        )
    }

    /// Every chunk end offset of the data: where the window hash hits the
    /// cut pattern past the minimum length, forced at the maximum length,
    /// with the remainder ending at the end of the data.
    pub fn boundaries(&self, data: &[u8]) -> (r: Vec<usize>)
        requires
            self.wf(),
        ensures
            r@.map_values(|v: usize| v as int) == spec_cuts(
                data@,
                0,
                self.spec_min(),
                self.spec_max(),
                self.spec_mask(),
            ),
    {
        let n = data.len();
        let mut cuts: Vec<usize> = Vec::new();
        let mut h: u64 = 0;
        let mut start: usize = 0;
        let mut i: usize = 0;
        proof {
            assert(cuts@.map_values(|v: usize| v as int) =~= Seq::<int>::empty());
        }
        while i < n
            invariant
                self.wf(),
                n == data@.len(),
                start <= i <= n,
                h == spec_roll_hash(data@, i as int),
                cuts@.map_values(|v: usize| v as int) + spec_cuts(
                    data@,
                    start as int,
                    self.spec_min(),
                    self.spec_max(),
                    self.spec_mask(),
                ) =~= spec_cuts(data@, 0, self.spec_min(), self.spec_max(), self.spec_mask()),
                forall|k: int|
                    start < k <= i && k < n ==> spec_no_cut(
                        data@,
                        start as int,
                        k,
                        self.spec_min(),
                        self.spec_max(),
                        self.spec_mask(),
                    ),
            decreases n - i,
        {
            let ghost start_pre = start;
            // roll the hash over byte i
            let b = *slice_subrange(data, i, i + 1).first().unwrap();
            assert(b == data@[i as int]);
            let rolled = (h << 1u64) | (h >> 63u64);
            assert(rolled == spec_rotl1(spec_roll_hash(data@, i as int)));
            let incoming = ((b as u64) + 1) * 0x0001010101010101;
            let mut nh = rolled ^ incoming;
            if i >= CHUNKER_WINDOW {
                let out = *slice_subrange(data, i - CHUNKER_WINDOW, i - CHUNKER_WINDOW + 1)
                    .first()
                    .unwrap();
                assert(out == data@[i - CHUNKER_WINDOW]);
                nh = nh ^ (((out as u64) + 1) * 0x0001010101010101);
                assert(nh == (spec_rotl1(spec_roll_hash(data@, i as int)) ^ spec_tbl(data@[i as int]))
                    ^ spec_tbl(data@[i - CHUNKER_WINDOW]));
            }
            h = nh;
            let pos = i + 1;
            proof {
                assert(data@[pos - 1] == b);
                if pos > CHUNKER_WINDOW {
                    assert(spec_roll_hash(data@, pos as int) == (spec_rotl1(
                        spec_roll_hash(data@, pos - 1),
                    ) ^ spec_tbl(data@[pos - 1])) ^ spec_tbl(data@[pos - CHUNKER_WINDOW - 1]));
                } else {
                    assert(spec_roll_hash(data@, pos as int) == spec_rotl1(
                        spec_roll_hash(data@, pos - 1),
                    ) ^ spec_tbl(data@[pos - 1]));
                }
                assert(h == spec_roll_hash(data@, pos as int));
            }
            // decide whether the chunk ends after byte i (cut position is pos)
            let chunk_len = pos - start;
            let is_cut = (chunk_len >= self.min_size && (h & self.mask) == self.mask) || chunk_len
                >= self.max_size;
            if is_cut && pos < n {
                proof {
                    lemma_next_cut_found(
                        data@,
                        start as int,
                        start as int + 1,
                        pos as int,
                        self.spec_min(),
                        self.spec_max(),
                        self.spec_mask(),
                    );
                    assert(spec_cuts(
                        data@,
                        start as int,
                        self.spec_min(),
                        self.spec_max(),
                        self.spec_mask(),
                    ) == seq![pos as int] + spec_cuts(
                        data@,
                        pos as int,
                        self.spec_min(),
                        self.spec_max(),
                        self.spec_mask(),
                    ));
                    assert(cuts@.push(pos).map_values(|v: usize| v as int) =~= cuts@.map_values(
                        |v: usize| v as int,
                    ).push(pos as int));
                }
                cuts.push(pos);
                start = pos;
            }
            i = pos;
            proof {
                assert forall|k: int|
                    start < k <= i && k < n implies spec_no_cut(
                    data@,
                    start as int,
                    k,
                    self.spec_min(),
                    self.spec_max(),
                    self.spec_mask(),
                ) by {
                    if k == pos as int {
                        assert(!is_cut);
                        assert(!spec_cut_here(
                            data@,
                            start as int,
                            pos as int,
                            self.spec_min(),
                            self.spec_mask(),
                        ));
                        assert(pos - start < self.spec_max());
                    } else {
                        assert(start == start_pre);
                        assert(spec_no_cut(
                            data@,
                            start_pre as int,
                            k,
                            self.spec_min(),
                            self.spec_max(),
                            self.spec_mask(),
                        ));
                    }
                }
            }
        }
        // the remainder, if any, ends at the end of the data
        if start < n {
            proof {
                let min = self.spec_min();
                let max = self.spec_max();
                let mask = self.spec_mask();
                lemma_next_cut_end(data@, start as int, start as int + 1, min, max, mask);
                assert(spec_cuts(data@, start as int, min, max, mask) == seq![n as int]
                    + spec_cuts(data@, n as int, min, max, mask));
                assert(spec_cuts(data@, n as int, min, max, mask) =~= Seq::<int>::empty());
                assert(cuts@.push(n).map_values(|v: usize| v as int) =~= cuts@.map_values(
                    |v: usize| v as int,
                ).push(n as int));
                assert(seq![n as int] + Seq::<int>::empty() =~= Seq::<int>::empty().push(
                    n as int,
                ));
            }
            cuts.push(n);
        } else {
            proof {
                assert(spec_cuts(
                    data@,
                    start as int,
                    self.spec_min(),
                    self.spec_max(),
                    self.spec_mask(),
                ) =~= Seq::<int>::empty());
            }
        }
        cuts
    }
}

/// The next cut lies between the scan start and the end of the data, and
/// if it is not the end, the cut condition holds there.
proof fn lemma_next_cut_in_range(
    data: Seq<u8>,
    start: int,
    j: int,
    min: int,
    max: int,
    mask: u64,
)
    requires
        0 <= j <= data.len(),
    ensures
        j <= spec_next_cut(data, start, j, min, max, mask) <= data.len(),
        spec_next_cut(data, start, j, min, max, mask) < data.len() ==> {
            let c = spec_next_cut(data, start, j, min, max, mask);
            spec_cut_here(data, start, c, min, mask) || c - start >= max
        },
    decreases data.len() - j,
{
    if j < data.len() {
        if !(spec_cut_here(data, start, j, min, mask) || j - start >= max) {
            lemma_next_cut_in_range(data, start, j + 1, min, max, mask);
        }
    }
}

} // verus!
