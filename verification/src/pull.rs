//! The pull engine: mirror snapshots from a source datastore into a target
//! datastore, transferring only the chunks the target does not hold.
//!
//! The whole sync holds a shared lock on the target's chunk store so no
//! collection can run under it.  Groups are walked in name order, a
//! group's snapshots in time order; snapshots at or before the target's
//! last synced time are skipped.  Chunk transfer is conditional: a touch
//! that finds the chunk replaces the download, which is what makes a
//! repeated pull transfer nothing.

use vstd::prelude::*;
use vstd::relations::sorted_by;
use vstd::seq_lib::group_to_multiset_ensures;
use crate::blob::DataBlob;
use crate::chunk_store::spec_has;
use crate::datastore::{ArchiveIndex, BackupDir, BackupGroup, DataStore, spec_same_dir};

verus! {

/// Sync failures.
#[derive(Clone, Copy, Debug, PartialEq, Eq, Structural)]
pub enum PullError {
    /// The source does not hold a chunk one of its indexes references.
    ChunkMissing,
    /// A chunk fetched from the source is no well-formed frame.
    BadChunk,
    /// The target refused the sync lock.
    Locked,
    /// A snapshot name is out of range.
    BadSnapshot,
    /// Some groups could not be synced; the rest were.
    GroupFailures,
    /// The source's manifest blob fails its frame check or checksum.
    ManifestCorrupt,
}

/// A chunk the pull can supply: already on the target, or held by the
/// source as a well-formed frame that `from_raw` accepts.
pub open spec fn spec_chunk_available(
    src: Seq<crate::chunk_store::ChunkEntry>,
    tgt: Seq<crate::chunk_store::ChunkEntry>,
    d: Seq<u8>,
) -> bool {
    ||| spec_has(tgt, d)
    ||| (spec_has(src, d) && crate::blob::spec_blob_format_ok(
        crate::chunk_store::spec_file(src, d).data@,
    ))
}

/// Every chunk an index references is available.
pub open spec fn spec_index_available(
    src: Seq<crate::chunk_store::ChunkEntry>,
    tgt: Seq<crate::chunk_store::ChunkEntry>,
    index: &ArchiveIndex,
) -> bool {
    forall|i: int|
        0 <= i < index.spec_digests().len() ==> spec_chunk_available(
            src,
            tgt,
            #[trigger] index.spec_digests()[i],
        )
}

/// Lexicographic order on character sequences.
pub open spec fn spec_chars_le(a: Seq<char>, b: Seq<char>) -> bool
    decreases a.len(),
{
    if a.len() == 0 {
        true
    } else if b.len() == 0 {
        false
    } else if (a[0] as int) < (b[0] as int) {
        true
    } else if (a[0] as int) > (b[0] as int) {
        false
    } else {
        spec_chars_le(a.skip(1), b.skip(1))
    }
}

pub proof fn lemma_chars_le_total(a: Seq<char>, b: Seq<char>)
    ensures
        spec_chars_le(a, b) || spec_chars_le(b, a),
    decreases a.len(),
{
    if a.len() > 0 && b.len() > 0 && a[0] == b[0] {
        lemma_chars_le_total(a.skip(1), b.skip(1));
    }
}

pub proof fn lemma_chars_le_trans(a: Seq<char>, b: Seq<char>, c: Seq<char>)
    requires
        spec_chars_le(a, b),
        spec_chars_le(b, c),
    ensures
        spec_chars_le(a, c),
    decreases a.len(),
{
    if a.len() > 0 && b.len() > 0 && c.len() > 0 {
        if a[0] == b[0] && b[0] == c[0] {
            lemma_chars_le_trans(a.skip(1), b.skip(1), c.skip(1));
        }
    }
}

/// The group ordering the sync walks: kind first, then id.
pub open spec fn spec_group_le(a: BackupGroup, b: BackupGroup) -> bool {
    ||| a.spec_backup_type().spec_sort_index() < b.spec_backup_type().spec_sort_index()
    ||| (a.spec_backup_type().spec_sort_index() == b.spec_backup_type().spec_sort_index()
        && spec_chars_le(a.spec_backup_id(), b.spec_backup_id()))
}

pub proof fn lemma_group_le_total(a: BackupGroup, b: BackupGroup)
    ensures
        spec_group_le(a, b) || spec_group_le(b, a),
{
    lemma_chars_le_total(a.spec_backup_id(), b.spec_backup_id());
}

pub proof fn lemma_group_le_trans(a: BackupGroup, b: BackupGroup, c: BackupGroup)
    requires
        spec_group_le(a, b),
        spec_group_le(b, c),
    ensures
        spec_group_le(a, c),
{
    if a.spec_backup_type().spec_sort_index() == b.spec_backup_type().spec_sort_index()
        && b.spec_backup_type().spec_sort_index() == c.spec_backup_type().spec_sort_index() {
        lemma_chars_le_trans(a.spec_backup_id(), b.spec_backup_id(), c.spec_backup_id());
    }
}

/// Lexicographic comparison of two names.
pub fn chars_le(a: &str, b: &str) -> (r: bool)
    ensures
        r == spec_chars_le(a@, b@),
{
    let a_len = a.unicode_len();
    let b_len = b.unicode_len();
    let mut i: usize = 0;
    proof {
        assert(a@.skip(0) =~= a@);
        assert(b@.skip(0) =~= b@);
    }
    while i < a_len && i < b_len
        invariant
            a_len == a@.len(),
            b_len == b@.len(),
            i <= a_len,
            i <= b_len,
            forall|j: int| 0 <= j < i ==> a@[j] == b@[j],
            spec_chars_le(a@, b@) == spec_chars_le(a@.skip(i as int), b@.skip(i as int)),
        decreases a_len - i,
    {
        let ca = a.get_char(i);
        let cb = b.get_char(i);
        if (ca as u32) < (cb as u32) {
            assert(spec_chars_le(a@.skip(i as int), b@.skip(i as int)));
            return true;
        }
        if (ca as u32) > (cb as u32) {
            assert(!spec_chars_le(a@.skip(i as int), b@.skip(i as int)));
            return false;
        }
        proof {
            assert(a@.skip(i as int)[0] == b@.skip(i as int)[0]);
            assert(a@.skip(i as int).skip(1) =~= a@.skip(i + 1));
            assert(b@.skip(i as int).skip(1) =~= b@.skip(i + 1));
        }
        i = i + 1;
    }
    let r = a_len <= b_len;
    proof {
        if a_len <= b_len {
            assert(a@.skip(i as int).len() == 0);
            assert(spec_chars_le(a@.skip(i as int), b@.skip(i as int)));
        } else {
            assert(b@.skip(i as int).len() == 0);
            assert(a@.skip(i as int).len() > 0);
            assert(!spec_chars_le(a@.skip(i as int), b@.skip(i as int)));
        }
    }
    r
}

/// Whether two names are the same string.
pub fn chars_eq(a: &str, b: &str) -> (r: bool)
    ensures
        r == (a@ == b@),
{
    let a_len = a.unicode_len();
    let b_len = b.unicode_len();
    if a_len != b_len {
        assert(a@ != b@);
        return false;
    }
    let mut i: usize = 0;
    while i < a_len
        invariant
            a_len == a@.len(),
            b_len == b@.len(),
            a_len == b_len,
            i <= a_len,
            forall|j: int| 0 <= j < i ==> a@[j] == b@[j],
        decreases a_len - i,
    {
        if a.get_char(i) != b.get_char(i) {
            return false;
        }
        i = i + 1;
    }
    assert(a@ =~= b@);
    true
}

/// Whether `a` sorts at or before `b` in the group walk.
pub fn group_le(a: &BackupGroup, b: &BackupGroup) -> (r: bool)
    ensures
        r == spec_group_le(*a, *b),
{
    let ia = a.backup_type().sort_index();
    let ib = b.backup_type().sort_index();
    if ia < ib {
        true
    } else if ia > ib {
        false
    } else {
        chars_le(a.backup_id(), b.backup_id())
    }
}

/// Sort a remote group listing by (kind, id); the result holds exactly the
/// given groups.
pub fn sort_group_list(list: Vec<BackupGroup>) -> (r: Vec<BackupGroup>)
    ensures
        sorted_by(r@, |a: BackupGroup, b: BackupGroup| spec_group_le(a, b)),
        r@.to_multiset() == list@.to_multiset(),
{
    broadcast use group_to_multiset_ensures;

    let mut list = list;
    let ghost orig = list@;
    let mut out: Vec<BackupGroup> = Vec::new();
    proof {
        assert(orig.take(0).to_multiset() =~= Seq::<BackupGroup>::empty().to_multiset());
        assert(out@.to_multiset() =~= orig.take(0).to_multiset());
    }
    let mut taken: usize = 0;
    let n = list.len();
    while list.len() > 0
        invariant
            taken + list@.len() == n,
            n == orig.len(),
            list@ =~= orig.skip(taken as int),
            sorted_by(out@, |a: BackupGroup, b: BackupGroup| spec_group_le(a, b)),
            out@.to_multiset() == orig.take(taken as int).to_multiset(),
        decreases list@.len(),
    {
        broadcast use group_to_multiset_ensures;

        let x = list.remove(0);
        proof {
            assert(orig.skip(taken as int)[0] == orig[taken as int]);
            assert(orig.take(taken + 1) =~= orig.take(taken as int).push(orig[taken as int]));
            assert(list@ =~= orig.skip(taken + 1));
        }
        let mut p: usize = 0;
        while p < out.len() && group_le(&out[p], &x)
            invariant
                p <= out@.len(),
                forall|j: int| 0 <= j < p ==> spec_group_le(out@[j], x),
            decreases out@.len() - p,
        {
            p = p + 1;
        }
        let ghost before = out@;
        proof {
            if p < before.len() {
                assert(!spec_group_le(before[p as int], x));
                lemma_group_le_total(before[p as int], x);
                assert(spec_group_le(x, before[p as int]));
            }
        }
        out.insert(p, x);
        proof {
            let news = out@;
            assert(news == before.insert(p as int, x));
            assert forall|i: int, j: int|
                0 <= i < j < news.len() implies spec_group_le(news[i], news[j]) by {
                let leqf = |a: BackupGroup, b: BackupGroup| spec_group_le(a, b);
                if i < p && j == p {
                    assert(news[i] == before[i]);
                    assert(spec_group_le(before[i], x));
                } else if i == p && j > p {
                    assert(news[j] == before[j - 1]);
                    assert(spec_group_le(x, before[p as int]));
                    if j - 1 > p {
                        assert(leqf(before[p as int], before[j - 1]));
                        lemma_group_le_trans(x, before[p as int], before[j - 1]);
                    }
                } else if i < p && j > p {
                    assert(news[i] == before[i]);
                    assert(news[j] == before[j - 1]);
                    assert(leqf(before[i], before[j - 1]));
                } else if j < p {
                    assert(news[i] == before[i]);
                    assert(news[j] == before[j]);
                    assert(leqf(before[i], before[j]));
                } else if i > p {
                    assert(news[i] == before[i - 1]);
                    assert(news[j] == before[j - 1]);
                    assert(leqf(before[i - 1], before[j - 1]));
                }
            }
            assert(sorted_by(news, |a: BackupGroup, b: BackupGroup| spec_group_le(a, b)));
            assert(news.to_multiset() == before.to_multiset().insert(x));
            assert(orig.take(taken + 1).to_multiset() == orig.take(
                taken as int,
            ).to_multiset().insert(x));
        }
        taken = taken + 1;
    }
    proof {
        assert(orig.take(n as int) =~= orig);
    }
    out
}

/// Sort snapshot times ascending; the result holds exactly the given
/// times.
pub fn sort_snapshot_times(list: Vec<i64>) -> (r: Vec<i64>)
    ensures
        sorted_by(r@, |a: i64, b: i64| a <= b),
        r@.to_multiset() == list@.to_multiset(),
{
    broadcast use group_to_multiset_ensures;

    let mut list = list;
    let ghost orig = list@;
    let mut out: Vec<i64> = Vec::new();
    proof {
        assert(orig.take(0).to_multiset() =~= Seq::<i64>::empty().to_multiset());
        assert(out@.to_multiset() =~= orig.take(0).to_multiset());
    }
    let mut taken: usize = 0;
    let n = list.len();
    while list.len() > 0
        invariant
            taken + list@.len() == n,
            n == orig.len(),
            list@ =~= orig.skip(taken as int),
            sorted_by(out@, |a: i64, b: i64| a <= b),
            out@.to_multiset() == orig.take(taken as int).to_multiset(),
        decreases list@.len(),
    {
        broadcast use group_to_multiset_ensures;

        let x = list.remove(0);
        proof {
            assert(orig.skip(taken as int)[0] == orig[taken as int]);
            assert(orig.take(taken + 1) =~= orig.take(taken as int).push(orig[taken as int]));
            assert(list@ =~= orig.skip(taken + 1));
        }
        let mut p: usize = 0;
        while p < out.len() && out[p] <= x
            invariant
                p <= out@.len(),
                forall|j: int| 0 <= j < p ==> out@[j] <= x,
            decreases out@.len() - p,
        {
            p = p + 1;
        }
        let ghost before = out@;
        out.insert(p, x);
        proof {
            let news = out@;
            assert(news == before.insert(p as int, x));
            assert forall|i: int, j: int| 0 <= i < j < news.len() implies news[i] <= news[j] by {
                let leqf = |a: i64, b: i64| a <= b;
                if i != p && j != p {
                    let i0 = if i < p {
                        i
                    } else {
                        i - 1
                    };
                    let j0 = if j < p {
                        j
                    } else {
                        j - 1
                    };
                    assert(leqf(before[i0], before[j0]));
                } else if i == p && j > p {
                    assert(leqf(before[p as int], before[j - 1]));
                }
            }
            assert(sorted_by(news, |a: i64, b: i64| a <= b));
            assert(news.to_multiset() == before.to_multiset().insert(x));
            assert(orig.take(taken + 1).to_multiset() == orig.take(
                taken as int,
            ).to_multiset().insert(x));
        }
        taken = taken + 1;
    }
    proof {
        assert(orig.take(n as int) =~= orig);
    }
    out
}

/// Pull one index's chunks: touch each digest on the target and fetch from
/// the source only what the touch did not find.  Returns how many chunks
/// were transferred; a target that already holds every digest transfers
/// zero, which is what makes a second pull of the same store a no-op.
pub fn pull_index_chunks(
    source: &DataStore,
    target: &mut DataStore,
    index: &ArchiveIndex,
    now: i64,
) -> (r: Result<u64, PullError>)
    requires
        source.wf(),
        old(target).wf(),
    ensures
        final(target).wf(),
        final(target).spec_snapshots() == old(target).spec_snapshots(),
        final(target).spec_images() == old(target).spec_images(),
        final(target).spec_gc_running() == old(target).spec_gc_running(),
        final(target).spec_store().spec_shared_locks() == old(
            target,
        ).spec_store().spec_shared_locks(),
        final(target).spec_store().spec_exclusive_locked() == old(
            target,
        ).spec_store().spec_exclusive_locked(),
        final(target).spec_store().spec_writers() == old(target).spec_store().spec_writers(),
        final(target).spec_manifests() == old(target).spec_manifests(),
        forall|d: Seq<u8>|
            spec_has(old(target).spec_chunks(), d) ==> spec_has(final(target).spec_chunks(), d),
        r matches Ok(_) ==> forall|i: int|
            0 <= i < index.spec_digests().len() ==> spec_has(
                final(target).spec_chunks(),
                index.spec_digests()[i],
            ),
        r is Ok <==> spec_index_available(
            source.spec_chunks(),
            old(target).spec_chunks(),
            index,
        ),
        (forall|i: int|
            0 <= i < index.spec_digests().len() ==> spec_has(
                old(target).spec_chunks(),
                index.spec_digests()[i],
            )) ==> r == Ok::<u64, PullError>(0),
        forall|d: Seq<u8>|
            spec_has(final(target).spec_chunks(), d) ==> spec_has(old(target).spec_chunks(), d)
                || spec_chunk_available(source.spec_chunks(), old(target).spec_chunks(), d),
    {
        let total = index.index_count();
        let mut transferred: u64 = 0;
        let mut pos: usize = 0;
        while pos < total
            invariant
                source.wf(),
                target.wf(),
                total == index.spec_digests().len(),
                pos <= total,
                target.spec_snapshots() == old(target).spec_snapshots(),
                target.spec_images() == old(target).spec_images(),
                target.spec_gc_running() == old(target).spec_gc_running(),
                target.spec_store().spec_shared_locks() == old(
                    target,
                ).spec_store().spec_shared_locks(),
                target.spec_store().spec_exclusive_locked() == old(
                    target,
                ).spec_store().spec_exclusive_locked(),
                target.spec_store().spec_writers() == old(target).spec_store().spec_writers(),
                target.spec_manifests() == old(target).spec_manifests(),
                forall|d: Seq<u8>|
                    spec_has(old(target).spec_chunks(), d) ==> spec_has(target.spec_chunks(), d),
                forall|i: int|
                    0 <= i < pos ==> spec_has(target.spec_chunks(), index.spec_digests()[i]),
                forall|i: int|
                    0 <= i < pos ==> spec_chunk_available(
                        source.spec_chunks(),
                        old(target).spec_chunks(),
                        #[trigger] index.spec_digests()[i],
                    ),
                (forall|i: int|
                    0 <= i < index.spec_digests().len() ==> spec_has(
                        old(target).spec_chunks(),
                        index.spec_digests()[i],
                    )) ==> transferred == 0,
                forall|d: Seq<u8>|
                    spec_has(target.spec_chunks(), d) ==> spec_has(old(target).spec_chunks(), d)
                        || spec_chunk_available(
                        source.spec_chunks(),
                        old(target).spec_chunks(),
                        d,
                    ),
                transferred <= pos,
            decreases total - pos,
        {
            let digest: [u8; 32] = match index.index_digest(pos) {
                Some(d) => d,
                None => {
                    proof {
                        assert(false);
                    }
                    [0u8; 32]
                },
            };
            let exists_already = match target.cond_touch_chunk(&digest, false, now) {
                Ok(b) => b,
                Err(_) => {
                    proof {
                        assert(false);
                    }
                    false
                },
            };
            proof {
                if exists_already {
                    assert(spec_chunk_available(
                        source.spec_chunks(),
                        old(target).spec_chunks(),
                        index.spec_digests()[pos as int],
                    )) by {
                        assert(spec_has(target.spec_chunks(), digest@));
                    }
                }
            }
            if !exists_already {
                let ghost pre = target.spec_chunks();
                let raw = match source.read_chunk_data(&digest) {
                    Ok(v) => v,
                    Err(_) => {
                        proof {
                            assert(!spec_chunk_available(
                                source.spec_chunks(),
                                old(target).spec_chunks(),
                                index.spec_digests()[pos as int],
                            )) by {
                                assert(!spec_has(target.spec_chunks(), digest@));
                            }
                            assert(!spec_index_available(
                                source.spec_chunks(),
                                old(target).spec_chunks(),
                                index,
                            ));
                        }
                        return Err(PullError::ChunkMissing);
                    },
                };
                let blob = match DataBlob::from_raw(raw) {
                    Ok(b) => b,
                    Err(_) => {
                        proof {
                            assert(!spec_chunk_available(
                                source.spec_chunks(),
                                old(target).spec_chunks(),
                                index.spec_digests()[pos as int],
                            )) by {
                                assert(!spec_has(target.spec_chunks(), digest@));
                                assert(raw@ == crate::chunk_store::spec_file(
                                    source.spec_chunks(),
                                    digest@,
                                ).data@);
                            }
                            assert(!spec_index_available(
                                source.spec_chunks(),
                                old(target).spec_chunks(),
                                index,
                            ));
                        }
                        return Err(PullError::BadChunk);
                    },
                };
                target.insert_chunk(&blob, &digest, now);
                transferred = transferred + 1;
                proof {
                    assert(spec_has(target.spec_chunks(), digest@));
                    assert(spec_chunk_available(
                        source.spec_chunks(),
                        old(target).spec_chunks(),
                        index.spec_digests()[pos as int],
                    )) by {
                        assert(spec_has(source.spec_chunks(), digest@));
                        assert(blob.spec_raw() == crate::chunk_store::spec_file(
                            source.spec_chunks(),
                            digest@,
                        ).data@);
                    }
                    let news = target.spec_chunks();
                    assert forall|d: Seq<u8>| spec_has(news, d) implies spec_has(pre, d) || d
                        == digest@ by {
                        let i = choose|i: int| 0 <= i < news.len() && news[i].0@ == d;
                        if i < news.len() - 1 {
                            assert(news.take(pre.len() as int)[i] == news[i]);
                            assert(pre[i].0@ == d);
                        }
                    }
                    if forall|i: int|
                        0 <= i < index.spec_digests().len() ==> spec_has(
                            old(target).spec_chunks(),
                            index.spec_digests()[i],
                        ) {
                        assert(spec_has(
                            old(target).spec_chunks(),
                            index.spec_digests()[pos as int],
                        ));
                        assert(false);
                    }
                }
            }
            pos = pos + 1;
        }
        Ok(transferred)
    }

/// A filter whose predicate accepts every element returns the sequence.
proof fn lemma_filter_all<A>(s: Seq<A>, pred: spec_fn(A) -> bool)
    requires
        forall|i: int| 0 <= i < s.len() ==> pred(#[trigger] s[i]),
    ensures
        s.filter(pred) == s,
    decreases s.len(),
{
    reveal(Seq::filter);
    if s.len() > 0 {
        assert(forall|i: int| 0 <= i < s.drop_last().len() ==> pred(#[trigger] s.drop_last()[i]));
        lemma_filter_all(s.drop_last(), pred);
        assert(s.filter(pred) =~= s);
    }
}

/// Filtering a sequence whose appended tail wholly fails the predicate
/// gives the filter of its prefix.
proof fn lemma_filter_drop_tail<A>(pre: Seq<A>, keep: int, pred: spec_fn(A) -> bool)
    requires
        0 <= keep <= pre.len(),
        forall|m: int| keep <= m < pre.len() ==> !pred(#[trigger] pre[m]),
    ensures
        pre.filter(pred) == pre.take(keep).filter(pred),
    decreases pre.len(),
{
    reveal(Seq::filter);
    if pre.len() > keep {
        assert(!pred(pre.last()));
        assert(forall|m: int|
            keep <= m < pre.drop_last().len() ==> !pred(#[trigger] pre.drop_last()[m]));
        lemma_filter_drop_tail(pre.drop_last(), keep, pred);
        assert(pre.drop_last().take(keep) =~= pre.take(keep));
    } else {
        assert(pre.take(keep) =~= pre);
    }
}

/// Filtering out a failing element strictly shrinks the sequence.
proof fn lemma_filter_shorter<A>(s: Seq<A>, pred: spec_fn(A) -> bool, i: int)
    requires
        0 <= i < s.len(),
        !pred(s[i]),
    ensures
        s.filter(pred).len() < s.len(),
    decreases s.len(),
{
    reveal(Seq::filter);
    if s.len() > 0 {
        s.drop_last().lemma_filter_len(pred);
        if i < s.len() - 1 {
            lemma_filter_shorter(s.drop_last(), pred, i);
        }
    }
}

/// The snapshot's group appears somewhere in the group list.
pub open spec fn spec_dir_in_some_group(dir: BackupDir, list: Seq<BackupGroup>) -> bool {
    exists|g: int| 0 <= g < list.len() && crate::datastore::spec_dir_in_group(dir, list[g])
}

/// Whether a snapshot's group appears in the group list.
fn dir_group_in_list(dir: &BackupDir, list: &Vec<BackupGroup>) -> (r: bool)
    ensures
        r == spec_dir_in_some_group(*dir, list@),
{
    let mut g: usize = 0;
    while g < list.len()
        invariant
            g <= list@.len(),
            forall|j: int|
                0 <= j < g ==> !crate::datastore::spec_dir_in_group(*dir, list@[j]),
        decreases list@.len() - g,
    {
        if dir.group().same_group(&list[g]) {
            proof {
                assert(crate::datastore::spec_dir_in_group(*dir, list@[g as int]));
                assert(spec_dir_in_some_group(*dir, list@));
            }
            return true;
        }
        g = g + 1;
    }
    false
}

/// The first target snapshot whose group is not in the listing.
fn find_vanished_group_snapshot(target: &DataStore, list: &Vec<BackupGroup>) -> (r: Option<usize>)
    ensures
        r matches Some(k) ==> k < target.spec_snapshots().len() && !spec_dir_in_some_group(
            target.spec_snapshots()[k as int],
            list@,
        ),
        r is None ==> forall|j: int|
            0 <= j < target.spec_snapshots().len() ==> spec_dir_in_some_group(
                target.spec_snapshots()[j],
                list@,
            ),
{
    let n = target.snapshot_count();
    let mut i: usize = 0;
    while i < n
        invariant
            n == target.spec_snapshots().len(),
            i <= n,
            forall|j: int|
                0 <= j < i ==> spec_dir_in_some_group(target.spec_snapshots()[j], list@),
        decreases n - i,
    {
        if !dir_group_in_list(target.snapshot_at(i), list) {
            return Some(i);
        }
        i = i + 1;
    }
    None
}

/// Delete every target snapshot whose group vanished from the remote
/// listing; with an empty listing nothing local survives.
pub fn remove_vanished_groups(target: &mut DataStore, list: &Vec<BackupGroup>)
    requires
        old(target).wf(),
    ensures
        final(target).wf(),
        final(target).spec_chunks() == old(target).spec_chunks(),
        final(target).spec_store() == old(target).spec_store(),
        final(target).spec_gc_running() == old(target).spec_gc_running(),
        forall|i: int|
            0 <= i < final(target).spec_snapshots().len() ==> spec_dir_in_some_group(
                final(target).spec_snapshots()[i],
                list@,
            ),
        (forall|j: int|
            0 <= j < old(target).spec_snapshots().len() ==> spec_dir_in_some_group(
                old(target).spec_snapshots()[j],
                list@,
            )) ==> final(target).spec_snapshots() == old(target).spec_snapshots()
            && final(target).spec_manifests() == old(target).spec_manifests()
            && final(target).spec_images() == old(target).spec_images(),
    {
        loop
            invariant
                target.wf(),
                target.spec_chunks() == old(target).spec_chunks(),
                target.spec_store() == old(target).spec_store(),
                target.spec_gc_running() == old(target).spec_gc_running(),
                (forall|j: int|
                    0 <= j < old(target).spec_snapshots().len() ==> spec_dir_in_some_group(
                        old(target).spec_snapshots()[j],
                        list@,
                    )) ==> target.spec_snapshots() == old(target).spec_snapshots()
                    && target.spec_manifests() == old(target).spec_manifests()
                    && target.spec_images() == old(target).spec_images(),
            decreases target.spec_snapshots().len(),
        {
            let offender = find_vanished_group_snapshot(target, list);
            match offender {
                None => {
                    return ;
                },
                Some(k) => {
                    let dir = target.snapshot_at(k).duplicate();
                    let ghost pre = target.spec_snapshots();
                    target.remove_backup_dir(&dir);
                    proof {
                        let pred = crate::datastore::spec_other_snapshot_pred(dir);
                        assert(!pred(pre[k as int])) by {
                            assert(spec_same_dir(pre[k as int], dir));
                        }
                        lemma_filter_shorter(pre, pred, k as int);
                        // a found stray refutes the all-listed premise
                        if forall|j: int|
                            0 <= j < old(target).spec_snapshots().len()
                                ==> spec_dir_in_some_group(
                                #[trigger] old(target).spec_snapshots()[j],
                                list@,
                            ) {
                            assert(old(target).spec_snapshots()[k as int] == pre[k as int]);
                            assert(false);
                        }
                    }
                },
            }
        }
    }

/// Pull one snapshot: ensure its directory exists on the target, then for
/// each of its archives on the source pull the missing chunks and install
/// the index.  Returns how many chunks were transferred.
/// The source's manifest blob for a snapshot, where it has one, is a
/// well-formed frame whose checksum matches.
pub open spec fn spec_source_manifest_valid(source: &DataStore, dir: BackupDir) -> bool {
    match crate::datastore::spec_manifest_of(source.spec_manifests(), dir) {
        Some(m) => crate::blob::spec_blob_format_ok(m) && crate::blob::spec_blob_crc_ok(m),
        None => true,
    }
}

/// The manifest short-circuit the sync starts a snapshot with: the
/// source names a manifest and the target already holds the same bytes,
/// so nothing changed and nothing need move.
pub open spec fn spec_manifest_skip(
    source: &DataStore,
    tgt_manifests: Seq<crate::datastore::ManifestEntry>,
    dir: BackupDir,
) -> bool {
    match crate::datastore::spec_manifest_of(source.spec_manifests(), dir) {
        Some(m) => crate::datastore::spec_manifest_of(tgt_manifests, dir) == Some(m),
        None => false,
    }
}

/// A group the sync would leave untouched: every source snapshot of the
/// group is well-formed, already mirrored on the target (directory present
/// and manifest byte-equal) with a sound manifest, and every target
/// snapshot of the group matches a source time, so a deleting sync removes
/// nothing either.
pub open spec fn spec_group_synced(
    source: &DataStore,
    tgt_snapshots: Seq<BackupDir>,
    tgt_manifests: Seq<crate::datastore::ManifestEntry>,
    group: BackupGroup,
) -> bool {
    &&& forall|s: int|
        0 <= s < source.spec_snapshots().len() && crate::datastore::spec_dir_in_group(
            #[trigger] source.spec_snapshots()[s],
            group,
        ) ==> {
            &&& source.spec_snapshots()[s].wf()
            &&& spec_manifest_skip(source, tgt_manifests, source.spec_snapshots()[s])
            &&& spec_source_manifest_valid(source, source.spec_snapshots()[s])
            &&& exists|j: int|
                0 <= j < tgt_snapshots.len() && spec_same_dir(
                    tgt_snapshots[j],
                    source.spec_snapshots()[s],
                )
        }
    &&& forall|j: int|
        0 <= j < tgt_snapshots.len() && crate::datastore::spec_dir_in_group(
            #[trigger] tgt_snapshots[j],
            group,
        ) ==> exists|s: int|
            0 <= s < source.spec_snapshots().len() && crate::datastore::spec_dir_in_group(
                source.spec_snapshots()[s],
                group,
            ) && source.spec_snapshots()[s].spec_backup_time() == tgt_snapshots[j].spec_backup_time()
}

/// Some source snapshot among the first `bound` belongs to the group and
/// carries the given time.
pub open spec fn spec_group_time_listed(
    source: &DataStore,
    group: BackupGroup,
    bound: int,
    t: i64,
) -> bool {
    exists|s2: int|
        0 <= s2 < bound && crate::datastore::spec_dir_in_group(
            source.spec_snapshots()[s2],
            group,
        ) && source.spec_snapshots()[s2].spec_backup_time() == t
}

/// In a synced group, a directory named after a listed source time takes
/// the manifest short-circuit: its manifest is mirrored and sound, and its
/// directory already exists on the target.
pub proof fn lemma_group_synced_skip(
    source: &DataStore,
    tgt_snapshots: Seq<BackupDir>,
    tgt_manifests: Seq<crate::datastore::ManifestEntry>,
    group: BackupGroup,
    dir: BackupDir,
    t: i64,
)
    requires
        spec_group_synced(source, tgt_snapshots, tgt_manifests, group),
        spec_group_time_listed(source, group, source.spec_snapshots().len() as int, t),
        crate::datastore::spec_dir_in_group(dir, group),
        dir.spec_backup_time() == t,
    ensures
        spec_manifest_skip(source, tgt_manifests, dir),
        spec_source_manifest_valid(source, dir),
        exists|j: int| 0 <= j < tgt_snapshots.len() && spec_same_dir(tgt_snapshots[j], dir),
{
    let s2 = choose|s2: int|
        0 <= s2 < source.spec_snapshots().len() && crate::datastore::spec_dir_in_group(
            source.spec_snapshots()[s2],
            group,
        ) && source.spec_snapshots()[s2].spec_backup_time() == t;
    let sdir = source.spec_snapshots()[s2];
    assert(spec_same_dir(dir, sdir));
    crate::datastore::lemma_manifest_of_same_dir(source.spec_manifests(), dir, sdir);
    crate::datastore::lemma_manifest_of_same_dir(tgt_manifests, dir, sdir);
    let j = choose|j: int| 0 <= j < tgt_snapshots.len() && spec_same_dir(tgt_snapshots[j], sdir);
    assert(spec_same_dir(tgt_snapshots[j], dir));
}

/// Every chunk referenced by the snapshot's archives on the source is
/// available against the given target state.
pub open spec fn spec_snapshot_images_available(
    source: &DataStore,
    tgt_chunks: Seq<crate::chunk_store::ChunkEntry>,
    dir: BackupDir,
) -> bool {
    forall|k: int|
        0 <= k < source.spec_images().len() && spec_same_dir(
            (#[trigger] source.spec_images()[k]).0,
            dir,
        ) ==> spec_index_available(source.spec_chunks(), tgt_chunks, &source.spec_images()[k].1)
}

/// The snapshot can be synced: either its manifest is already mirrored,
/// or every chunk its archives reference is available.
pub open spec fn spec_snapshot_pullable(
    source: &DataStore,
    tgt_chunks: Seq<crate::chunk_store::ChunkEntry>,
    tgt_manifests: Seq<crate::datastore::ManifestEntry>,
    dir: BackupDir,
) -> bool {
    &&& spec_source_manifest_valid(source, dir)
    &&& {
        ||| spec_manifest_skip(source, tgt_manifests, dir)
        ||| spec_snapshot_images_available(source, tgt_chunks, dir)
    }
}

/// Pull every archive of one snapshot: fetch the chunks the target lacks
/// and install the indexes.  Directories, manifests and rollback are the
/// caller's; this walk leaves snapshots and manifests untouched.
fn pull_snapshot_archives(
    source: &DataStore,
    target: &mut DataStore,
    snapshot: &BackupDir,
    now: i64,
) -> (r: Result<u64, PullError>)
    requires
        source.wf(),
        old(target).wf(),
    ensures
        final(target).wf(),
        final(target).spec_gc_running() == old(target).spec_gc_running(),
        final(target).spec_store().spec_shared_locks() == old(
            target,
        ).spec_store().spec_shared_locks(),
        final(target).spec_store().spec_exclusive_locked() == old(
            target,
        ).spec_store().spec_exclusive_locked(),
        final(target).spec_store().spec_writers() == old(target).spec_store().spec_writers(),
        final(target).spec_snapshots() == old(target).spec_snapshots(),
        final(target).spec_manifests() == old(target).spec_manifests(),
        forall|d: Seq<u8>|
            spec_has(old(target).spec_chunks(), d) ==> spec_has(final(target).spec_chunks(), d),
        forall|d: Seq<u8>|
            spec_has(final(target).spec_chunks(), d) ==> spec_has(old(target).spec_chunks(), d)
                || spec_chunk_available(
                source.spec_chunks(),
                old(target).spec_chunks(),
                d,
            ),
        r is Ok <==> spec_snapshot_images_available(
            source,
            old(target).spec_chunks(),
            *snapshot,
        ),
        r is Ok ==> forall|k: int, i: int|
            0 <= k < source.spec_images().len() && spec_same_dir(
                source.spec_images()[k].0,
                *snapshot,
            ) && 0 <= i < source.spec_images()[k].1.spec_digests().len() ==> spec_has(
                final(target).spec_chunks(),
                source.spec_images()[k].1.spec_digests()[i],
            ),
        spec_source_manifest_valid(source, *snapshot) && (forall|k: int, i: int|
            0 <= k < source.spec_images().len() && spec_same_dir(
                source.spec_images()[k].0,
                *snapshot,
            ) && 0 <= i < source.spec_images()[k].1.spec_digests().len() ==> spec_has(
                old(target).spec_chunks(),
                source.spec_images()[k].1.spec_digests()[i],
            )) ==> r == Ok::<u64, PullError>(0),
        final(target).spec_images().len() >= old(target).spec_images().len(),
        final(target).spec_images().take(old(target).spec_images().len() as int) == old(
            target,
        ).spec_images(),
        forall|m: int|
            old(target).spec_images().len() <= m < final(target).spec_images().len()
                ==> spec_same_dir((#[trigger] final(target).spec_images()[m]).0, *snapshot),
        forall|m: int, i: int|
            old(target).spec_images().len() <= m < final(target).spec_images().len() && 0 <= i
                < final(target).spec_images()[m].1.spec_digests().len() ==> spec_has(
                final(target).spec_chunks(),
                #[trigger] final(target).spec_images()[m].1.spec_digests()[i],
            ),
    {
        let total = source.image_count();
        let mut transferred: u64 = 0;
        let mut k: usize = 0;
        while k < total
            invariant
                source.wf(),
                target.wf(),
                total == source.spec_images().len(),
                k <= total,
                target.spec_gc_running() == old(target).spec_gc_running(),
                target.spec_store().spec_shared_locks() == old(
                    target,
                ).spec_store().spec_shared_locks(),
                target.spec_store().spec_exclusive_locked() == old(
                    target,
                ).spec_store().spec_exclusive_locked(),
                target.spec_store().spec_writers() == old(target).spec_store().spec_writers(),
                target.spec_snapshots() == old(target).spec_snapshots(),
                target.spec_manifests() == old(target).spec_manifests(),
                forall|d: Seq<u8>|
                    spec_has(old(target).spec_chunks(), d) ==> spec_has(
                        target.spec_chunks(),
                        d,
                    ),
                forall|d: Seq<u8>|
                    spec_has(target.spec_chunks(), d) ==> spec_has(old(target).spec_chunks(), d)
                        || spec_chunk_available(
                        source.spec_chunks(),
                        old(target).spec_chunks(),
                        d,
                    ),
                forall|k2: int, i: int|
                    0 <= k2 < k && spec_same_dir(source.spec_images()[k2].0, *snapshot) && 0 <= i
                        < source.spec_images()[k2].1.spec_digests().len() ==> spec_has(
                        target.spec_chunks(),
                        source.spec_images()[k2].1.spec_digests()[i],
                    ),
                forall|k2: int|
                    0 <= k2 < k && spec_same_dir((#[trigger] source.spec_images()[k2]).0, *snapshot)
                        ==> spec_index_available(
                        source.spec_chunks(),
                        old(target).spec_chunks(),
                        &source.spec_images()[k2].1,
                    ),
                (forall|k2: int, i: int|
                    0 <= k2 < source.spec_images().len() && spec_same_dir(
                        source.spec_images()[k2].0,
                        *snapshot,
                    ) && 0 <= i < source.spec_images()[k2].1.spec_digests().len() ==> spec_has(
                        old(target).spec_chunks(),
                        source.spec_images()[k2].1.spec_digests()[i],
                    )) ==> transferred == 0,
                target.spec_images().len() >= old(target).spec_images().len(),
                target.spec_images().take(old(target).spec_images().len() as int) == old(
                    target,
                ).spec_images(),
                forall|m: int|
                    old(target).spec_images().len() <= m < target.spec_images().len()
                        ==> spec_same_dir((#[trigger] target.spec_images()[m]).0, *snapshot),
                forall|m: int, i: int|
                    old(target).spec_images().len() <= m < target.spec_images().len() && 0 <= i
                        < target.spec_images()[m].1.spec_digests().len() ==> spec_has(
                        target.spec_chunks(),
                        #[trigger] target.spec_images()[m].1.spec_digests()[i],
                    ),
            decreases total - k,
        {
            let in_dir = source.image_at(k).0.same_snapshot(snapshot);
            if in_dir {
                let ghost pre = target.spec_chunks();
                let pulled = pull_index_chunks(source, target, &source.image_at(k).1, now);
                proof {
                    if pulled is Err {
                        assert(!spec_index_available(
                            source.spec_chunks(),
                            pre,
                            &source.spec_images()[k as int].1,
                        ));
                        assert(!spec_index_available(
                            source.spec_chunks(),
                            old(target).spec_chunks(),
                            &source.spec_images()[k as int].1,
                        )) by {
                            if spec_index_available(
                                source.spec_chunks(),
                                old(target).spec_chunks(),
                                &source.spec_images()[k as int].1,
                            ) {
                                assert forall|i: int|
                                    0 <= i < source.spec_images()[k as int].1.spec_digests().len()
                                        implies spec_chunk_available(
                                    source.spec_chunks(),
                                    pre,
                                    #[trigger] source.spec_images()[k as int].1.spec_digests()[i],
                                ) by {
                                    assert(spec_chunk_available(
                                        source.spec_chunks(),
                                        old(target).spec_chunks(),
                                        source.spec_images()[k as int].1.spec_digests()[i],
                                    ));
                                }
                            }
                        }
                        assert(!spec_snapshot_images_available(
                            source,
                            old(target).spec_chunks(),
                            *snapshot,
                        ));
                    }
                }
                let t = match pulled {
                    Ok(t) => t,
                    Err(e) => {
                        return Err(e);
                    },
                };
                proof {
                    if forall|k2: int, i: int|
                        0 <= k2 < source.spec_images().len() && spec_same_dir(
                            source.spec_images()[k2].0,
                            *snapshot,
                        ) && 0 <= i < source.spec_images()[k2].1.spec_digests().len()
                        ==> spec_has(
                        old(target).spec_chunks(),
                        source.spec_images()[k2].1.spec_digests()[i],
                    ) {
                        assert forall|i: int|
                            0 <= i < source.spec_images()[k as int].1.spec_digests().len()
                                implies spec_has(
                            pre,
                            #[trigger] source.spec_images()[k as int].1.spec_digests()[i],
                        ) by {
                            assert(spec_has(
                                old(target).spec_chunks(),
                                source.spec_images()[k as int].1.spec_digests()[i],
                            ));
                        }
                        assert(t == 0);
                    }
                }
                transferred = transferred.saturating_add(t);
                let dir_copy = source.image_at(k).0.duplicate();
                let index_copy = source.image_at(k).1.duplicate();
                target.add_index(dir_copy, index_copy);
                proof {
                    assert(spec_same_dir(source.spec_images()[k as int].0, *snapshot));
                    assert(target.spec_images().take(old(target).spec_images().len() as int)
                        =~= old(target).spec_images());
                    assert(spec_index_available(
                        source.spec_chunks(),
                        old(target).spec_chunks(),
                        &source.spec_images()[k as int].1,
                    )) by {
                        assert forall|i: int|
                            0 <= i < source.spec_images()[k as int].1.spec_digests().len()
                                implies spec_chunk_available(
                            source.spec_chunks(),
                            old(target).spec_chunks(),
                            #[trigger] source.spec_images()[k as int].1.spec_digests()[i],
                        ) by {
                            let d = source.spec_images()[k as int].1.spec_digests()[i];
                            assert(spec_has(target.spec_chunks(), d));
                            if !spec_has(old(target).spec_chunks(), d) {
                                assert(spec_chunk_available(
                                    source.spec_chunks(),
                                    old(target).spec_chunks(),
                                    d,
                                ));
                            }
                        }
                    }
                }
            }
            k = k + 1;
        }
        proof {
            assert(spec_snapshot_images_available(source, old(target).spec_chunks(), *snapshot));
        }
        Ok(transferred)
    }

/// Pull one snapshot.  The snapshot directory is created first; a target
/// manifest byte-equal to the source's means nothing changed and the call
/// returns at once.  Otherwise every archive of the snapshot is pulled —
/// missing chunks fetched, the index installed — and the source's
/// manifest recorded last.  A failure rolls a directory this call created
/// back out, so no partially synced new snapshot is ever published.
#[verifier::rlimit(100)]
pub fn pull_snapshot_from(
    source: &DataStore,
    target: &mut DataStore,
    snapshot: &BackupDir,
    now: i64,
) -> (r: Result<u64, PullError>)
    requires
        source.wf(),
        old(target).wf(),
        snapshot.wf(),
    ensures
        final(target).wf(),
        final(target).spec_gc_running() == old(target).spec_gc_running(),
        final(target).spec_store().spec_shared_locks() == old(
            target,
        ).spec_store().spec_shared_locks(),
        final(target).spec_store().spec_exclusive_locked() == old(
            target,
        ).spec_store().spec_exclusive_locked(),
        final(target).spec_store().spec_writers() == old(target).spec_store().spec_writers(),
        forall|d: Seq<u8>|
            spec_has(old(target).spec_chunks(), d) ==> spec_has(final(target).spec_chunks(), d),
        forall|d: Seq<u8>|
            spec_has(final(target).spec_chunks(), d) ==> spec_has(old(target).spec_chunks(), d)
                || spec_chunk_available(
                source.spec_chunks(),
                old(target).spec_chunks(),
                d,
            ),
        r is Ok <==> spec_snapshot_pullable(
            source,
            old(target).spec_chunks(),
            old(target).spec_manifests(),
            *snapshot,
        ),
        r is Ok && !spec_manifest_skip(source, old(target).spec_manifests(), *snapshot)
            ==> forall|k: int, i: int|
            0 <= k < source.spec_images().len() && spec_same_dir(
                source.spec_images()[k].0,
                *snapshot,
            ) && 0 <= i < source.spec_images()[k].1.spec_digests().len() ==> spec_has(
                final(target).spec_chunks(),
                source.spec_images()[k].1.spec_digests()[i],
            ),
        r is Ok ==> exists|i: int|
            0 <= i < final(target).spec_snapshots().len() && spec_same_dir(
                final(target).spec_snapshots()[i],
                *snapshot,
            ),
        spec_manifest_skip(source, old(target).spec_manifests(), *snapshot)
            && spec_source_manifest_valid(source, *snapshot) ==> r == Ok::<u64, PullError>(0)
            && final(target).spec_chunks() == old(target).spec_chunks()
            && final(target).spec_images() == old(target).spec_images()
            && final(target).spec_manifests() == old(target).spec_manifests(),
        spec_source_manifest_valid(source, *snapshot) && (forall|k: int, i: int|
            0 <= k < source.spec_images().len() && spec_same_dir(
                source.spec_images()[k].0,
                *snapshot,
            ) && 0 <= i < source.spec_images()[k].1.spec_digests().len() ==> spec_has(
                old(target).spec_chunks(),
                source.spec_images()[k].1.spec_digests()[i],
            )) ==> r == Ok::<u64, PullError>(0),
        r is Ok ==> final(target).spec_images().len() >= old(target).spec_images().len()
            && final(target).spec_images().take(old(target).spec_images().len() as int)
            == old(target).spec_images() && (forall|m: int|
            old(target).spec_images().len() <= m < final(target).spec_images().len()
                ==> spec_same_dir((#[trigger] final(target).spec_images()[m]).0, *snapshot)),
        r is Err && !(exists|i: int|
            0 <= i < old(target).spec_snapshots().len() && spec_same_dir(
                old(target).spec_snapshots()[i],
                *snapshot,
            )) ==> (forall|m: int|
            0 <= m < final(target).spec_images().len() ==> !spec_same_dir(
                (#[trigger] final(target).spec_images()[m]).0,
                *snapshot,
            )) && (forall|j: int|
            0 <= j < final(target).spec_snapshots().len() ==> !spec_same_dir(
                #[trigger] final(target).spec_snapshots()[j],
                *snapshot,
            )),
        forall|d2: BackupDir|
            !spec_same_dir(d2, *snapshot) ==> #[trigger] crate::datastore::spec_manifest_of(
                final(target).spec_manifests(),
                d2,
            ) == crate::datastore::spec_manifest_of(old(target).spec_manifests(), d2),
        final(target).spec_snapshots() == old(target).spec_snapshots()
            || (final(target).spec_snapshots().len() == old(target).spec_snapshots().len() + 1
            && final(target).spec_snapshots().take(old(target).spec_snapshots().len() as int)
            == old(target).spec_snapshots() && spec_same_dir(
            final(target).spec_snapshots().last(),
            *snapshot,
        )),
        r is Err && (exists|i: int|
            0 <= i < old(target).spec_snapshots().len() && spec_same_dir(
                old(target).spec_snapshots()[i],
                *snapshot,
            )) ==> final(target).spec_snapshots() == old(target).spec_snapshots()
            && final(target).spec_manifests() == old(target).spec_manifests()
            && final(target).spec_images().take(old(target).spec_images().len() as int)
            == old(target).spec_images() && final(target).spec_images().len()
            >= old(target).spec_images().len(),
        r is Err && !(exists|i: int|
            0 <= i < old(target).spec_snapshots().len() && spec_same_dir(
                old(target).spec_snapshots()[i],
                *snapshot,
            )) ==> crate::datastore::spec_manifest_of(
            final(target).spec_manifests(),
            *snapshot,
        ) is None,
        (exists|i: int|
            0 <= i < old(target).spec_snapshots().len() && spec_same_dir(
                old(target).spec_snapshots()[i],
                *snapshot,
            )) ==> final(target).spec_snapshots() == old(target).spec_snapshots(),
        forall|m: int, i: int|
            old(target).spec_images().len() <= m < final(target).spec_images().len()
                && final(target).spec_images().take(old(target).spec_images().len() as int)
                == old(target).spec_images() && 0 <= i
                < final(target).spec_images()[m].1.spec_digests().len() ==> spec_has(
                final(target).spec_chunks(),
                #[trigger] final(target).spec_images()[m].1.spec_digests()[i],
            ),
        r is Ok && !spec_manifest_skip(source, old(target).spec_manifests(), *snapshot) ==> (
        crate::datastore::spec_manifest_of(source.spec_manifests(), *snapshot) matches Some(m)
            ==> crate::datastore::spec_manifest_of(final(target).spec_manifests(), *snapshot)
            == Some(m)),
        r is Ok && crate::datastore::spec_manifest_of(source.spec_manifests(), *snapshot)
            is None ==> final(target).spec_manifests() == old(target).spec_manifests(),
    {
        let ghost old_manifests = old(target).spec_manifests();
        let (_path, is_new) = target.create_backup_dir(snapshot);
        // the source's manifest must pass its frame and checksum tests
        // before its bytes are trusted for anything
        let src_manifest = source.manifest_bytes(snapshot);
        let mut manifest_valid = true;
        if let Some(ref m) = src_manifest {
            let mut copy: Vec<u8> = Vec::new();
            copy.extend_from_slice(m.as_slice());
            assert(copy@ =~= m@);
            match DataBlob::from_raw(copy) {
                Ok(blob) => {
                    if blob.verify_crc().is_err() {
                        manifest_valid = false;
                    }
                },
                Err(_) => {
                    manifest_valid = false;
                },
            }
        }
        proof {
            assert(manifest_valid == spec_source_manifest_valid(source, *snapshot));
        }
        if !manifest_valid {
            if is_new {
                let ghost pre_snaps_mv = target.spec_snapshots();
                target.remove_backup_dir(snapshot);
                proof {
                    let spred = crate::datastore::spec_other_snapshot_pred(*snapshot);
                    let olds = old(target).spec_snapshots();
                    assert(forall|i: int| 0 <= i < olds.len() ==> spred(#[trigger] olds[i]));
                    if pre_snaps_mv == olds {
                        lemma_filter_all(olds, spred);
                    } else {
                        assert(pre_snaps_mv =~= olds.push(pre_snaps_mv.last()));
                        crate::chunk_store::lemma_filter_push(olds, spred, pre_snaps_mv.last());
                        lemma_filter_all(olds, spred);
                    }
                    assert forall|j: int|
                        0 <= j < target.spec_snapshots().len() implies !spec_same_dir(
                        #[trigger] target.spec_snapshots()[j],
                        *snapshot,
                    ) by {
                        pre_snaps_mv.lemma_filter_pred(spred, j);
                    }
                }
            }
            return Err(PullError::ManifestCorrupt);
        }
        // manifest comparison: a byte-equal manifest means nothing changed
        let mut skip = false;
        if let Some(ref m) = src_manifest {
            if let Some(local) = target.manifest_bytes(snapshot) {
                if crate::blob::bytes_eq(local.as_slice(), m.as_slice()) {
                    skip = true;
                }
            }
        }
        proof {
            assert(skip == spec_manifest_skip(source, old_manifests, *snapshot));
        }
        if skip {
            return Ok(0);
        }
        let pulled = pull_snapshot_archives(source, target, snapshot, now);
        let transferred = match pulled {
            Ok(t) => t,
            Err(e) => {
                if is_new {
                    let ghost pre_snaps = target.spec_snapshots();
                    let ghost pre_images_rb = target.spec_images();
                    target.remove_backup_dir(snapshot);
                    proof {
                        let spred = crate::datastore::spec_other_snapshot_pred(*snapshot);
                        assert forall|j: int|
                            0 <= j < target.spec_snapshots().len() implies !spec_same_dir(
                            #[trigger] target.spec_snapshots()[j],
                            *snapshot,
                        ) by {
                            pre_snaps.lemma_filter_pred(spred, j);
                        }
                        // removing the directory this call created restores
                        // the snapshot list exactly
                        let olds = old(target).spec_snapshots();
                        assert(forall|i: int| 0 <= i < olds.len() ==> spred(#[trigger] olds[i]));
                        if pre_snaps == olds {
                            lemma_filter_all(olds, spred);
                        } else {
                            assert(pre_snaps.take(olds.len() as int) == olds);
                            assert(pre_snaps =~= olds.push(pre_snaps.last()));
                            crate::chunk_store::lemma_filter_push(olds, spred, pre_snaps.last());
                            lemma_filter_all(olds, spred);
                            assert(target.spec_snapshots() == olds);
                        }
                        let ipred = crate::datastore::spec_other_image_pred(*snapshot);
                        assert forall|m: int|
                            0 <= m < target.spec_images().len() implies !spec_same_dir(
                            (#[trigger] target.spec_images()[m]).0,
                            *snapshot,
                        ) by {
                            pre_images_rb.lemma_filter_pred(ipred, m);
                        }
                        // the appended in-directory images all fall to the
                        // rollback filter, so the result is no longer than
                        // the images the call started with
                        let oldi = old(target).spec_images();
                        assert(forall|m: int|
                            oldi.len() <= m < pre_images_rb.len() ==> !ipred(
                                #[trigger] pre_images_rb[m],
                            ));
                        lemma_filter_drop_tail(pre_images_rb, oldi.len() as int, ipred);
                        assert(pre_images_rb.take(oldi.len() as int) == oldi);
                        oldi.lemma_filter_len(ipred);
                        assert(target.spec_images().len() <= oldi.len());
                    }
                } else {
                    proof {
                        assert forall|m: int, i: int|
                            old(target).spec_images().len() <= m < target.spec_images().len()
                                && 0 <= i
                                < target.spec_images()[m].1.spec_digests().len() implies spec_has(
                            target.spec_chunks(),
                            #[trigger] target.spec_images()[m].1.spec_digests()[i],
                        ) by {}
                    }
                }
                return Err(e);
            },
        };
        if let Some(m) = src_manifest {
            target.set_manifest(snapshot.duplicate(), m);
        }
        Ok(transferred)
    }

/// Pull a group: walk the source's snapshots of the group in time order,
/// skip what predates the target's last synced snapshot, and pull the
/// rest.  With `delete`, snapshots of the group that vanished from the
/// source are removed afterwards.
#[verifier::rlimit(100)]
pub fn pull_group(
    source: &DataStore,
    target: &mut DataStore,
    group: &BackupGroup,
    delete: bool,
    now: i64,
) -> (r: Result<u64, PullError>)
    requires
        source.wf(),
        old(target).wf(),
    ensures
        final(target).wf(),
        final(target).spec_gc_running() == old(target).spec_gc_running(),
        final(target).spec_store().spec_shared_locks() == old(
            target,
        ).spec_store().spec_shared_locks(),
        final(target).spec_store().spec_exclusive_locked() == old(
            target,
        ).spec_store().spec_exclusive_locked(),
        final(target).spec_store().spec_writers() == old(target).spec_store().spec_writers(),
        forall|d: Seq<u8>|
            spec_has(old(target).spec_chunks(), d) ==> spec_has(final(target).spec_chunks(), d),
        forall|d: Seq<u8>|
            spec_has(final(target).spec_chunks(), d) ==> spec_has(old(target).spec_chunks(), d)
                || spec_chunk_available(
                source.spec_chunks(),
                old(target).spec_chunks(),
                d,
            ),
        r is Ok ==> forall|k: int, i: int|
            {
                &&& 0 <= k < source.spec_images().len()
                &&& crate::datastore::spec_dir_in_group(source.spec_images()[k].0, *group)
                &&& (exists|s: int|
                    0 <= s < source.spec_snapshots().len() && spec_same_dir(
                        source.spec_snapshots()[s],
                        source.spec_images()[k].0,
                    ))
                &&& (forall|j: int|
                    0 <= j < old(target).spec_snapshots().len()
                        && crate::datastore::spec_dir_in_group(
                        old(target).spec_snapshots()[j],
                        *group,
                    ) ==> old(target).spec_snapshots()[j].spec_backup_time() <= source.spec_images()[k].0.spec_backup_time())
                &&& 0 <= i < source.spec_images()[k].1.spec_digests().len()
            } ==> spec_has(
                final(target).spec_chunks(),
                source.spec_images()[k].1.spec_digests()[i],
            ) || crate::datastore::spec_manifest_of(
                final(target).spec_manifests(),
                source.spec_images()[k].0,
            ) == crate::datastore::spec_manifest_of(
                source.spec_manifests(),
                source.spec_images()[k].0,
            ),
        !delete ==> final(target).spec_snapshots().len() >= old(target).spec_snapshots().len()
            && final(target).spec_snapshots().take(old(target).spec_snapshots().len() as int)
            == old(target).spec_snapshots(),
        forall|d2: BackupDir|
            !crate::datastore::spec_dir_in_group(d2, *group)
                ==> #[trigger] crate::datastore::spec_manifest_of(
                final(target).spec_manifests(),
                d2,
            ) == crate::datastore::spec_manifest_of(old(target).spec_manifests(), d2),
        r is Ok && delete ==> forall|j: int|
            0 <= j < final(target).spec_snapshots().len() && crate::datastore::spec_dir_in_group(
                #[trigger] final(target).spec_snapshots()[j],
                *group,
            ) ==> exists|s: int|
                0 <= s < source.spec_snapshots().len() && crate::datastore::spec_dir_in_group(
                    source.spec_snapshots()[s],
                    *group,
                ) && source.spec_snapshots()[s].spec_backup_time()
                == final(target).spec_snapshots()[j].spec_backup_time(),
        (forall|s: int|
            0 <= s < source.spec_snapshots().len() && crate::datastore::spec_dir_in_group(
                #[trigger] source.spec_snapshots()[s],
                *group,
            ) ==> source.spec_snapshots()[s].wf() && spec_source_manifest_valid(
                source,
                source.spec_snapshots()[s],
            )) && (forall|k: int, i: int|
            0 <= k < source.spec_images().len() && crate::datastore::spec_dir_in_group(
                source.spec_images()[k].0,
                *group,
            ) && 0 <= i < source.spec_images()[k].1.spec_digests().len() ==> spec_has(
                old(target).spec_chunks(),
                #[trigger] source.spec_images()[k].1.spec_digests()[i],
            )) ==> r is Ok,
        spec_group_synced(
            source,
            old(target).spec_snapshots(),
            old(target).spec_manifests(),
            *group,
        ) ==> r == Ok::<u64, PullError>(0) && final(target).spec_snapshots()
            == old(target).spec_snapshots() && final(target).spec_manifests()
            == old(target).spec_manifests() && final(target).spec_images()
            == old(target).spec_images() && final(target).spec_chunks()
            == old(target).spec_chunks(),
    {
        let last = target.last_successful_backup(group);
        // gather the source's snapshot times for this group
        let mut times: Vec<i64> = Vec::new();
        let n = source.snapshot_count();
        let mut i: usize = 0;
        while i < n
            invariant
                source.wf(),
                n == source.spec_snapshots().len(),
                i <= n,
                forall|s: int|
                    0 <= s < i && crate::datastore::spec_dir_in_group(
                        source.spec_snapshots()[s],
                        *group,
                    ) ==> times@.contains(source.spec_snapshots()[s].spec_backup_time()),
                forall|j: int|
                    0 <= j < times@.len() ==> #[trigger] spec_group_time_listed(
                        source,
                        *group,
                        i as int,
                        times@[j],
                    ),
            decreases n - i,
        {
            let s = source.snapshot_at(i);
            let ghost pre_times = times@;
            if s.group().same_group(group) {
                let t = s.backup_time();
                times.push(t);
                proof {
                    assert(times@.last() == t);
                    assert(times@.contains(t));
                    assert(crate::datastore::spec_dir_in_group(
                        source.spec_snapshots()[i as int],
                        *group,
                    ));
                }
            }
            proof {
                // each collected time keeps a source snapshot behind it
                assert forall|j: int|
                    0 <= j < times@.len() implies #[trigger] spec_group_time_listed(
                        source,
                        *group,
                        i + 1,
                        times@[j],
                    ) by {
                    if j < pre_times.len() {
                        assert(times@[j] == pre_times[j]);
                        assert(spec_group_time_listed(source, *group, i as int, pre_times[j]));
                        let s2 = choose|s2: int|
                            0 <= s2 < i && crate::datastore::spec_dir_in_group(
                                source.spec_snapshots()[s2],
                                *group,
                            ) && source.spec_snapshots()[s2].spec_backup_time() == pre_times[j];
                        assert(0 <= s2 < i + 1);
                    } else {
                        assert(times@[j] == source.spec_snapshots()[i as int].spec_backup_time());
                        assert(0 <= i < i + 1);
                    }
                }
                assert forall|s2: int|
                    0 <= s2 < i + 1 && crate::datastore::spec_dir_in_group(
                        source.spec_snapshots()[s2],
                        *group,
                    ) implies times@.contains(
                    source.spec_snapshots()[s2].spec_backup_time(),
                ) by {
                    if s2 < i {
                        let t2 = source.spec_snapshots()[s2].spec_backup_time();
                        if pre_times.contains(t2) {
                            let j = choose|j: int|
                                0 <= j < pre_times.len() && pre_times[j] == t2;
                            assert(times@[j] == t2);
                        }
                    }
                }
            }
            i = i + 1;
        }
        let ghost pre_sort = times@;
        let times = sort_snapshot_times(times);
        proof {
            broadcast use group_to_multiset_ensures;

            assert forall|t: i64| pre_sort.contains(t) implies times@.contains(t) by {
                vstd::seq_lib::to_multiset_contains(pre_sort, t);
                vstd::seq_lib::to_multiset_contains(times@, t);
            }
            assert forall|j: int|
                0 <= j < times@.len() implies #[trigger] spec_group_time_listed(
                    source,
                    *group,
                    source.spec_snapshots().len() as int,
                    times@[j],
                ) by {
                let t = times@[j];
                assert(times@.contains(t));
                vstd::seq_lib::to_multiset_contains(pre_sort, t);
                vstd::seq_lib::to_multiset_contains(times@, t);
                assert(pre_sort.contains(t));
                let pj = choose|pj: int| 0 <= pj < pre_sort.len() && pre_sort[pj] == t;
                assert(spec_group_time_listed(source, *group, n as int, pre_sort[pj]));
                let s2 = choose|s2: int|
                    0 <= s2 < n && crate::datastore::spec_dir_in_group(
                        source.spec_snapshots()[s2],
                        *group,
                    ) && source.spec_snapshots()[s2].spec_backup_time() == pre_sort[pj];
                assert(0 <= s2 < source.spec_snapshots().len());
            }
            assert(target.spec_snapshots().take(old(target).spec_snapshots().len() as int)
                =~= old(target).spec_snapshots());
        }
        let mut transferred: u64 = 0;
        let mut ti: usize = 0;
        while ti < times.len()
            invariant
                source.wf(),
                target.wf(),
                ti <= times@.len(),
                target.spec_gc_running() == old(target).spec_gc_running(),
                target.spec_store().spec_shared_locks() == old(
                    target,
                ).spec_store().spec_shared_locks(),
                target.spec_store().spec_exclusive_locked() == old(
                    target,
                ).spec_store().spec_exclusive_locked(),
                target.spec_store().spec_writers() == old(target).spec_store().spec_writers(),
                forall|d: Seq<u8>|
                    spec_has(old(target).spec_chunks(), d) ==> spec_has(
                        target.spec_chunks(),
                        d,
                    ),
                forall|d: Seq<u8>|
                    spec_has(target.spec_chunks(), d) ==> spec_has(old(target).spec_chunks(), d)
                        || spec_chunk_available(
                        source.spec_chunks(),
                        old(target).spec_chunks(),
                        d,
                    ),
                forall|d2: BackupDir|
                    #[trigger] crate::datastore::spec_manifest_of(target.spec_manifests(), d2)
                        == crate::datastore::spec_manifest_of(old(target).spec_manifests(), d2)
                        || crate::datastore::spec_manifest_of(target.spec_manifests(), d2)
                        == crate::datastore::spec_manifest_of(source.spec_manifests(), d2),
                forall|d2: BackupDir|
                    !crate::datastore::spec_dir_in_group(d2, *group)
                        ==> #[trigger] crate::datastore::spec_manifest_of(
                        target.spec_manifests(),
                        d2,
                    ) == crate::datastore::spec_manifest_of(old(target).spec_manifests(), d2),
                target.spec_snapshots().len() >= old(target).spec_snapshots().len(),
                target.spec_snapshots().take(old(target).spec_snapshots().len() as int) == old(
                    target,
                ).spec_snapshots(),
                forall|sx: int|
                    0 <= sx < source.spec_snapshots().len()
                        && crate::datastore::spec_dir_in_group(
                        #[trigger] source.spec_snapshots()[sx],
                        *group,
                    ) ==> times@.contains(source.spec_snapshots()[sx].spec_backup_time()),
                forall|j: int|
                    0 <= j < times@.len() ==> #[trigger] spec_group_time_listed(
                        source,
                        *group,
                        source.spec_snapshots().len() as int,
                        times@[j],
                    ),
                spec_group_synced(
                    source,
                    old(target).spec_snapshots(),
                    old(target).spec_manifests(),
                    *group,
                ) ==> target.spec_snapshots() == old(target).spec_snapshots()
                    && target.spec_manifests() == old(target).spec_manifests()
                    && target.spec_images() == old(target).spec_images()
                    && target.spec_chunks() == old(target).spec_chunks() && transferred == 0,
                forall|k: int, i2: int|
                    {
                        &&& 0 <= k < source.spec_images().len()
                        &&& crate::datastore::spec_dir_in_group(
                            source.spec_images()[k].0,
                            *group,
                        )
                        &&& (exists|j: int|
                            0 <= j < ti && times@[j]
                                == source.spec_images()[k].0.spec_backup_time())
                        &&& (match last {
                            Some(l) => !(l > source.spec_images()[k].0.spec_backup_time()),
                            None => true,
                        })
                        &&& 0 <= i2 < source.spec_images()[k].1.spec_digests().len()
                    } ==> spec_has(
                        target.spec_chunks(),
                        source.spec_images()[k].1.spec_digests()[i2],
                    ) || crate::datastore::spec_manifest_of(
                        target.spec_manifests(),
                        source.spec_images()[k].0,
                    ) == crate::datastore::spec_manifest_of(
                        source.spec_manifests(),
                        source.spec_images()[k].0,
                    ),
            decreases times@.len() - ti,
        {
            let t = times[ti];
            let admitted = match last {
                Some(l) => !(l > t),
                None => true,
            };
            if admitted {
                let dir = match BackupDir::new(group.backup_type(), group.backup_id(), t) {
                    Ok(d) => d,
                    Err(_) => {
                        proof {
                            let synced_here = spec_group_synced(
                                source,
                                old(target).spec_snapshots(),
                                old(target).spec_manifests(),
                                *group,
                            );
                            let all_wf = forall|s: int|
                                0 <= s < source.spec_snapshots().len()
                                    && crate::datastore::spec_dir_in_group(
                                    #[trigger] source.spec_snapshots()[s],
                                    *group,
                                ) ==> source.spec_snapshots()[s].wf()
                                    && spec_source_manifest_valid(
                                    source,
                                    source.spec_snapshots()[s],
                                );
                            if synced_here || all_wf {
                                // the time belongs to a well-formed source
                                // snapshot, so it is in range and the
                                // directory name was owed
                                assert(times@[ti as int] == t);
                                assert(spec_group_time_listed(
                                    source,
                                    *group,
                                    source.spec_snapshots().len() as int,
                                    times@[ti as int],
                                ));
                                let s2 = choose|s2: int|
                                    0 <= s2 < source.spec_snapshots().len()
                                        && crate::datastore::spec_dir_in_group(
                                        source.spec_snapshots()[s2],
                                        *group,
                                    ) && source.spec_snapshots()[s2].spec_backup_time()
                                    == times@[ti as int];
                                assert(source.spec_snapshots()[s2].wf());
                                assert(false);
                            }
                        }
                        return Err(PullError::BadSnapshot);
                    },
                };
                let ghost pre_manifests = target.spec_manifests();
                let ghost pre_chunks_g = target.spec_chunks();
                let ghost pre_snaps_g = target.spec_snapshots();
                let tr = match pull_snapshot_from(source, target, &dir, now) {
                    Ok(tr) => tr,
                    Err(e) => {
                        proof {
                            assert(target.spec_snapshots().take(
                                old(target).spec_snapshots().len() as int,
                            ) =~= pre_snaps_g.take(old(target).spec_snapshots().len() as int));
                            assert forall|d2: BackupDir|
                                !crate::datastore::spec_dir_in_group(d2, *group)
                                    implies #[trigger] crate::datastore::spec_manifest_of(
                                    target.spec_manifests(),
                                    d2,
                                ) == crate::datastore::spec_manifest_of(
                                    old(target).spec_manifests(),
                                    d2,
                                ) by {
                                assert(!spec_same_dir(d2, dir));
                                assert(crate::datastore::spec_manifest_of(
                                    target.spec_manifests(),
                                    d2,
                                ) == crate::datastore::spec_manifest_of(pre_manifests, d2));
                            }
                            if spec_group_synced(
                                source,
                                old(target).spec_snapshots(),
                                old(target).spec_manifests(),
                                *group,
                            ) {
                                // a mirrored snapshot takes the manifest
                                // short-circuit, so the call could not fail
                                assert(times@[ti as int] == t);
                                lemma_group_synced_skip(
                                    source,
                                    old(target).spec_snapshots(),
                                    old(target).spec_manifests(),
                                    *group,
                                    dir,
                                    times@[ti as int],
                                );
                                assert(false);
                            }
                            if (forall|s: int|
                                0 <= s < source.spec_snapshots().len()
                                    && crate::datastore::spec_dir_in_group(
                                    #[trigger] source.spec_snapshots()[s],
                                    *group,
                                ) ==> source.spec_snapshots()[s].wf()
                                    && spec_source_manifest_valid(
                                    source,
                                    source.spec_snapshots()[s],
                                )) && (forall|k: int, i2: int|
                                0 <= k < source.spec_images().len()
                                    && crate::datastore::spec_dir_in_group(
                                    source.spec_images()[k].0,
                                    *group,
                                ) && 0 <= i2 < source.spec_images()[k].1.spec_digests().len()
                                    ==> spec_has(
                                    old(target).spec_chunks(),
                                    #[trigger] source.spec_images()[k].1.spec_digests()[i2],
                                )) {
                                // with every chunk already on hand the call
                                // was owed a success
                                assert(times@[ti as int] == t);
                                assert(spec_group_time_listed(
                                    source,
                                    *group,
                                    source.spec_snapshots().len() as int,
                                    times@[ti as int],
                                ));
                                let s2 = choose|s2: int|
                                    0 <= s2 < source.spec_snapshots().len()
                                        && crate::datastore::spec_dir_in_group(
                                        source.spec_snapshots()[s2],
                                        *group,
                                    ) && source.spec_snapshots()[s2].spec_backup_time()
                                    == times@[ti as int];
                                let sdir = source.spec_snapshots()[s2];
                                assert(spec_same_dir(dir, sdir));
                                crate::datastore::lemma_manifest_of_same_dir(
                                    source.spec_manifests(),
                                    dir,
                                    sdir,
                                );
                                assert(spec_source_manifest_valid(source, dir));
                                assert forall|k: int|
                                    0 <= k < source.spec_images().len() && spec_same_dir(
                                        (#[trigger] source.spec_images()[k]).0,
                                        dir,
                                    ) implies spec_index_available(
                                    source.spec_chunks(),
                                    pre_chunks_g,
                                    &source.spec_images()[k].1,
                                ) by {
                                    assert(crate::datastore::spec_dir_in_group(
                                        source.spec_images()[k].0,
                                        *group,
                                    ));
                                    assert forall|i2: int|
                                        0 <= i2 < source.spec_images()[k].1.spec_digests().len()
                                            implies spec_chunk_available(
                                        source.spec_chunks(),
                                        pre_chunks_g,
                                        #[trigger] source.spec_images()[k].1.spec_digests()[i2],
                                    ) by {
                                        assert(spec_has(
                                            old(target).spec_chunks(),
                                            source.spec_images()[k].1.spec_digests()[i2],
                                        ));
                                    }
                                }
                                assert(spec_snapshot_pullable(
                                    source,
                                    pre_chunks_g,
                                    pre_manifests,
                                    dir,
                                ));
                                assert(false);
                            }
                        }
                        return Err(e);
                    },
                };
                transferred = transferred.saturating_add(tr);
                proof {
                    assert(target.spec_snapshots().take(
                        old(target).spec_snapshots().len() as int,
                    ) =~= pre_snaps_g.take(old(target).spec_snapshots().len() as int));
                    if spec_group_synced(
                        source,
                        old(target).spec_snapshots(),
                        old(target).spec_manifests(),
                        *group,
                    ) {
                        assert(times@[ti as int] == t);
                        lemma_group_synced_skip(
                            source,
                            old(target).spec_snapshots(),
                            old(target).spec_manifests(),
                            *group,
                            dir,
                            times@[ti as int],
                        );
                        assert(tr == 0);
                        assert(target.spec_manifests() == old(target).spec_manifests());
                        assert(target.spec_snapshots() == old(target).spec_snapshots());
                    }
                    let ghost skipped = spec_manifest_skip(source, pre_manifests, dir);
                    // dirs outside the group are untouched by the call
                    assert forall|d2: BackupDir|
                        !crate::datastore::spec_dir_in_group(d2, *group)
                            implies #[trigger] crate::datastore::spec_manifest_of(
                            target.spec_manifests(),
                            d2,
                        ) == crate::datastore::spec_manifest_of(
                            old(target).spec_manifests(),
                            d2,
                        ) by {
                        assert(!spec_same_dir(d2, dir));
                        assert(crate::datastore::spec_manifest_of(target.spec_manifests(), d2)
                            == crate::datastore::spec_manifest_of(pre_manifests, d2));
                    }
                    // the manifests stay the target's old ones or become the
                    // source's, dir by dir
                    assert forall|d2: BackupDir|
                        #[trigger] crate::datastore::spec_manifest_of(
                            target.spec_manifests(),
                            d2,
                        ) == crate::datastore::spec_manifest_of(
                            old(target).spec_manifests(),
                            d2,
                        ) || crate::datastore::spec_manifest_of(target.spec_manifests(), d2)
                        == crate::datastore::spec_manifest_of(source.spec_manifests(), d2) by {
                        if !spec_same_dir(d2, dir) {
                        } else {
                            crate::datastore::lemma_manifest_of_same_dir(
                                target.spec_manifests(),
                                d2,
                                dir,
                            );
                            crate::datastore::lemma_manifest_of_same_dir(
                                source.spec_manifests(),
                                d2,
                                dir,
                            );
                            crate::datastore::lemma_manifest_of_same_dir(pre_manifests, d2, dir);
                            crate::datastore::lemma_manifest_of_same_dir(
                                old(target).spec_manifests(),
                                d2,
                                dir,
                            );
                            if skipped {
                                assert(target.spec_manifests() == pre_manifests);
                            } else {
                                match crate::datastore::spec_manifest_of(
                                    source.spec_manifests(),
                                    dir,
                                ) {
                                    Some(m) => {
                                        assert(crate::datastore::spec_manifest_of(
                                            target.spec_manifests(),
                                            dir,
                                        ) == Some(m));
                                    },
                                    None => {
                                        assert(target.spec_manifests() == pre_manifests);
                                    },
                                }
                            }
                        }
                    }
                    // the snapshot just pulled: its chunks are present or its
                    // manifest is mirrored
                    assert forall|k: int, i2: int|
                        {
                            &&& 0 <= k < source.spec_images().len()
                            &&& crate::datastore::spec_dir_in_group(
                                source.spec_images()[k].0,
                                *group,
                            )
                            &&& source.spec_images()[k].0.spec_backup_time() == t
                            &&& 0 <= i2 < source.spec_images()[k].1.spec_digests().len()
                        } implies spec_has(
                        target.spec_chunks(),
                        source.spec_images()[k].1.spec_digests()[i2],
                    ) || crate::datastore::spec_manifest_of(
                        target.spec_manifests(),
                        source.spec_images()[k].0,
                    ) == crate::datastore::spec_manifest_of(
                        source.spec_manifests(),
                        source.spec_images()[k].0,
                    ) by {
                        assert(spec_same_dir(source.spec_images()[k].0, dir));
                        crate::datastore::lemma_manifest_of_same_dir(
                            target.spec_manifests(),
                            source.spec_images()[k].0,
                            dir,
                        );
                        crate::datastore::lemma_manifest_of_same_dir(
                            source.spec_manifests(),
                            source.spec_images()[k].0,
                            dir,
                        );
                        if skipped {
                            crate::datastore::lemma_manifest_of_same_dir(pre_manifests, dir, dir);
                        }
                    }
                }
            }
            ti = ti + 1;
        }
        proof {
            assert forall|k: int, i2: int|
                {
                    &&& 0 <= k < source.spec_images().len()
                    &&& crate::datastore::spec_dir_in_group(source.spec_images()[k].0, *group)
                    &&& (exists|s: int|
                        0 <= s < source.spec_snapshots().len() && spec_same_dir(
                            source.spec_snapshots()[s],
                            source.spec_images()[k].0,
                        ))
                    &&& (forall|j: int|
                        0 <= j < old(target).spec_snapshots().len()
                            && crate::datastore::spec_dir_in_group(
                            old(target).spec_snapshots()[j],
                            *group,
                        ) ==> old(target).spec_snapshots()[j].spec_backup_time()
                            <= source.spec_images()[k].0.spec_backup_time())
                    &&& 0 <= i2 < source.spec_images()[k].1.spec_digests().len()
                } implies spec_has(
                target.spec_chunks(),
                source.spec_images()[k].1.spec_digests()[i2],
            ) || crate::datastore::spec_manifest_of(
                target.spec_manifests(),
                source.spec_images()[k].0,
            ) == crate::datastore::spec_manifest_of(
                source.spec_manifests(),
                source.spec_images()[k].0,
            ) by {
                broadcast use group_to_multiset_ensures;

                let img_time = source.spec_images()[k].0.spec_backup_time();
                let s = choose|s: int|
                    0 <= s < source.spec_snapshots().len() && spec_same_dir(
                        source.spec_snapshots()[s],
                        source.spec_images()[k].0,
                    );
                assert(crate::datastore::spec_dir_in_group(
                    source.spec_snapshots()[s],
                    *group,
                ));
                assert(times@.contains(img_time)) by {
                    assert(source.spec_snapshots()[s].spec_backup_time() == img_time);
                    assert(pre_sort.contains(img_time));
                    vstd::seq_lib::to_multiset_contains(pre_sort, img_time);
                    vstd::seq_lib::to_multiset_contains(times@, img_time);
                }
                let j = choose|j: int| 0 <= j < times@.len() && times@[j] == img_time;
                match last {
                    Some(l) => {
                        let w = choose|w: int|
                            0 <= w < old(target).spec_snapshots().len()
                                && crate::datastore::spec_dir_in_group(
                                old(target).spec_snapshots()[w],
                                *group,
                            ) && old(target).spec_snapshots()[w].spec_backup_time() == l;
                        assert(l <= img_time);
                    },
                    None => {},
                }
            }
        }
        if delete {
            let ghost pre_del_ms = target.spec_manifests();
            let ghost pre_del_chunks = target.spec_chunks();
            let ghost pre_del_snaps = target.spec_snapshots();
            proof {
                if spec_group_synced(
                    source,
                    old(target).spec_snapshots(),
                    old(target).spec_manifests(),
                    *group,
                ) {
                    // in a synced group every local snapshot matches a
                    // listed time, so the removal pass finds nothing
                    assert forall|j: int|
                        0 <= j < pre_del_snaps.len() && crate::datastore::spec_dir_in_group(
                            #[trigger] pre_del_snaps[j],
                            *group,
                        ) implies times@.contains(pre_del_snaps[j].spec_backup_time()) by {
                        assert(pre_del_snaps[j] == old(target).spec_snapshots()[j]);
                        let s2 = choose|s2: int|
                            0 <= s2 < source.spec_snapshots().len()
                                && crate::datastore::spec_dir_in_group(
                                source.spec_snapshots()[s2],
                                *group,
                            ) && source.spec_snapshots()[s2].spec_backup_time()
                            == old(target).spec_snapshots()[j].spec_backup_time();
                        assert(times@.contains(
                            source.spec_snapshots()[s2].spec_backup_time(),
                        ));
                    }
                }
            }
            remove_group_snapshots_not_in(target, group, &times);
            proof {
                broadcast use group_to_multiset_ensures;

                assert forall|k: int, i2: int|
                    {
                        &&& 0 <= k < source.spec_images().len()
                        &&& crate::datastore::spec_dir_in_group(
                            source.spec_images()[k].0,
                            *group,
                        )
                        &&& (exists|s: int|
                            0 <= s < source.spec_snapshots().len() && spec_same_dir(
                                source.spec_snapshots()[s],
                                source.spec_images()[k].0,
                            ))
                        &&& (forall|j: int|
                            0 <= j < old(target).spec_snapshots().len()
                                && crate::datastore::spec_dir_in_group(
                                old(target).spec_snapshots()[j],
                                *group,
                            ) ==> old(target).spec_snapshots()[j].spec_backup_time()
                                <= source.spec_images()[k].0.spec_backup_time())
                        &&& 0 <= i2 < source.spec_images()[k].1.spec_digests().len()
                    } implies spec_has(
                    target.spec_chunks(),
                    source.spec_images()[k].1.spec_digests()[i2],
                ) || crate::datastore::spec_manifest_of(
                    target.spec_manifests(),
                    source.spec_images()[k].0,
                ) == crate::datastore::spec_manifest_of(
                    source.spec_manifests(),
                    source.spec_images()[k].0,
                ) by {
                    let s = choose|s: int|
                        0 <= s < source.spec_snapshots().len() && spec_same_dir(
                            source.spec_snapshots()[s],
                            source.spec_images()[k].0,
                        );
                    let img_time = source.spec_images()[k].0.spec_backup_time();
                    assert(times@.contains(img_time)) by {
                        assert(crate::datastore::spec_dir_in_group(
                            source.spec_snapshots()[s],
                            *group,
                        ));
                        assert(source.spec_snapshots()[s].spec_backup_time() == img_time);
                        assert(pre_sort.contains(img_time));
                        vstd::seq_lib::to_multiset_contains(pre_sort, img_time);
                        vstd::seq_lib::to_multiset_contains(times@, img_time);
                    }
                }
                // dirs outside the group are untouched by the removal pass
                assert forall|d2: BackupDir|
                    !crate::datastore::spec_dir_in_group(d2, *group)
                        implies #[trigger] crate::datastore::spec_manifest_of(
                        target.spec_manifests(),
                        d2,
                    ) == crate::datastore::spec_manifest_of(
                        old(target).spec_manifests(),
                        d2,
                    ) by {
                    assert(crate::datastore::spec_manifest_of(target.spec_manifests(), d2)
                        == crate::datastore::spec_manifest_of(pre_del_ms, d2));
                }
                // every group snapshot the removal pass left carries a
                // source-listed time
                assert forall|j: int|
                    0 <= j < target.spec_snapshots().len()
                        && crate::datastore::spec_dir_in_group(
                        #[trigger] target.spec_snapshots()[j],
                        *group,
                    ) implies exists|s2: int|
                        0 <= s2 < source.spec_snapshots().len()
                            && crate::datastore::spec_dir_in_group(
                            source.spec_snapshots()[s2],
                            *group,
                        ) && source.spec_snapshots()[s2].spec_backup_time()
                        == target.spec_snapshots()[j].spec_backup_time() by {
                    assert(times@.contains(target.spec_snapshots()[j].spec_backup_time()));
                    let jj = choose|jj: int|
                        0 <= jj < times@.len() && times@[jj]
                            == target.spec_snapshots()[j].spec_backup_time();
                    assert(spec_group_time_listed(
                        source,
                        *group,
                        source.spec_snapshots().len() as int,
                        times@[jj],
                    ));
                    let s2 = choose|s2: int|
                        0 <= s2 < source.spec_snapshots().len()
                            && crate::datastore::spec_dir_in_group(
                            source.spec_snapshots()[s2],
                            *group,
                        ) && source.spec_snapshots()[s2].spec_backup_time() == times@[jj];
                }
            }
        }
        Ok(transferred)
    }

/// Whether a time is in the list.
fn times_contains(times: &Vec<i64>, t: i64) -> (r: bool)
    ensures
        r == times@.contains(t),
{
    let mut j: usize = 0;
    while j < times.len()
        invariant
            j <= times@.len(),
            forall|m: int| 0 <= m < j ==> times@[m] != t,
        decreases times@.len() - j,
    {
        if times[j] == t {
            assert(times@.contains(t));
            return true;
        }
        j = j + 1;
    }
    false
}

/// The first target snapshot of the group whose time is not in the list.
fn find_group_snapshot_not_in(
    target: &DataStore,
    group: &BackupGroup,
    times: &Vec<i64>,
) -> (r: Option<usize>)
    ensures
        r matches Some(k) ==> k < target.spec_snapshots().len()
            && crate::datastore::spec_dir_in_group(
            target.spec_snapshots()[k as int],
            *group,
        ) && !times@.contains(target.spec_snapshots()[k as int].spec_backup_time()),
        r is None ==> forall|j: int|
            0 <= j < target.spec_snapshots().len() && crate::datastore::spec_dir_in_group(
                target.spec_snapshots()[j],
                *group,
            ) ==> times@.contains(target.spec_snapshots()[j].spec_backup_time()),
{
    let n = target.snapshot_count();
    let mut i: usize = 0;
    while i < n
        invariant
            n == target.spec_snapshots().len(),
            i <= n,
            forall|j: int|
                0 <= j < i && crate::datastore::spec_dir_in_group(
                    target.spec_snapshots()[j],
                    *group,
                ) ==> times@.contains(target.spec_snapshots()[j].spec_backup_time()),
        decreases n - i,
    {
        let s = target.snapshot_at(i);
        if s.group().same_group(group) {
            if !times_contains(times, s.backup_time()) {
                return Some(i);
            }
        }
        i = i + 1;
    }
    None
}

/// Who owns a group on the target, by the first matching entry of the
/// ownership configuration.
pub open spec fn spec_owner_allows(
    owners: Seq<(BackupGroup, Seq<char>)>,
    group: BackupGroup,
    username: Seq<char>,
) -> bool
    decreases owners.len(),
{
    if owners.len() == 0 {
        true
    } else if crate::datastore::spec_dir_in_group_pair(owners[0].0, group) {
        owners[0].1 == username
    } else {
        spec_owner_allows(owners.skip(1), group, username)
    }
}

/// Whether the caller may write into a group: either nobody owns it yet,
/// or the first ownership entry names the caller.
pub fn owner_allows(owners: &Vec<(BackupGroup, String)>, group: &BackupGroup, username: &str) -> (r:
    bool)
    ensures
        r == spec_owner_allows(
            owners@.map_values(|p: (BackupGroup, String)| (p.0, p.1@)),
            *group,
            username@,
        ),
{
    let ghost mapped = owners@.map_values(|p: (BackupGroup, String)| (p.0, p.1@));
    let mut i: usize = 0;
    proof {
        assert(mapped.skip(0) =~= mapped);
    }
    while i < owners.len()
        invariant
            mapped == owners@.map_values(|p: (BackupGroup, String)| (p.0, p.1@)),
            i <= owners@.len(),
            spec_owner_allows(mapped, *group, username@) == spec_owner_allows(
                mapped.skip(i as int),
                *group,
                username@,
            ),
        decreases owners@.len() - i,
    {
        let entry = &owners[i];
        proof {
            assert(mapped.skip(i as int)[0] == mapped[i as int]);
            assert(mapped[i as int].0 == owners@[i as int].0);
            assert(mapped[i as int].1 == owners@[i as int].1@);
            assert(mapped.skip(i as int).skip(1) =~= mapped.skip(i + 1));
        }
        if entry.0.same_group(group) {
            proof {
                assert(crate::datastore::spec_dir_in_group_pair(mapped[i as int].0, *group));
            }
            return chars_eq(entry.1.as_str(), username);
        }
        proof {
            assert(!crate::datastore::spec_dir_in_group_pair(mapped[i as int].0, *group));
        }
        i = i + 1;
    }
    proof {
        assert(mapped.skip(i as int).len() == 0);
    }
    true
}

/// Every listed group is open to the caller and already mirrored: pulling
/// it would move nothing and change nothing.
pub open spec fn spec_store_groups_ready(
    source: &DataStore,
    tgt_snapshots: Seq<BackupDir>,
    tgt_manifests: Seq<crate::datastore::ManifestEntry>,
    list: Seq<BackupGroup>,
    owners: Seq<(BackupGroup, Seq<char>)>,
    username: Seq<char>,
) -> bool {
    &&& forall|g: int|
        0 <= g < list.len() ==> spec_owner_allows(owners, #[trigger] list[g], username)
    &&& forall|g: int|
        0 <= g < list.len() ==> spec_group_synced(
            source,
            tgt_snapshots,
            tgt_manifests,
            #[trigger] list[g],
        )
}

/// A sync that would be a no-op from end to end: every listed group is
/// mirrored and open to the caller, and with `delete` no local snapshot
/// lies outside the listing, so the removal passes find nothing either.
pub open spec fn spec_store_synced(
    source: &DataStore,
    tgt_snapshots: Seq<BackupDir>,
    tgt_manifests: Seq<crate::datastore::ManifestEntry>,
    list: Seq<BackupGroup>,
    owners: Seq<(BackupGroup, Seq<char>)>,
    username: Seq<char>,
    delete: bool,
) -> bool {
    &&& spec_store_groups_ready(source, tgt_snapshots, tgt_manifests, list, owners, username)
    &&& delete ==> forall|j: int|
        0 <= j < tgt_snapshots.len() ==> spec_dir_in_some_group(#[trigger] tgt_snapshots[j], list)
}

/// Pull every group of the remote listing: take the sync lock, walk the
/// groups in name order, skip groups owned by someone else, and pull each;
/// per-group failures are soft, the sync continues and reports them at the
/// end.  With `delete`, local snapshots of groups that vanished from the
/// listing are removed, so an empty listing empties the store.
pub fn pull_store(
    source: &DataStore,
    target: &mut DataStore,
    list: Vec<BackupGroup>,
    owners: &Vec<(BackupGroup, String)>,
    username: &str,
    delete: bool,
    now: i64,
) -> (r: Result<u64, PullError>)
    requires
        source.wf(),
        old(target).wf(),
        old(target).spec_store().spec_shared_locks() < usize::MAX,
    ensures
        final(target).wf(),
        final(target).spec_gc_running() == old(target).spec_gc_running(),
        final(target).spec_store().spec_shared_locks() == old(
            target,
        ).spec_store().spec_shared_locks(),
        forall|d: Seq<u8>|
            spec_has(old(target).spec_chunks(), d) ==> spec_has(final(target).spec_chunks(), d),
        forall|d: Seq<u8>|
            spec_has(final(target).spec_chunks(), d) ==> spec_has(old(target).spec_chunks(), d)
                || spec_has(source.spec_chunks(), d),
        r == Err::<u64, PullError>(PullError::Locked) <==> old(
            target,
        ).spec_store().spec_exclusive_locked(),
        r == Err::<u64, PullError>(PullError::Locked) ==> final(target).spec_chunks() == old(
            target,
        ).spec_chunks() && final(target).spec_snapshots() == old(target).spec_snapshots()
            && final(target).spec_images() == old(target).spec_images()
            && final(target).spec_manifests() == old(target).spec_manifests(),
        list@.len() == 0 && !old(target).spec_store().spec_exclusive_locked() ==> r is Ok,
        (r is Ok && delete) ==> forall|i: int|
            0 <= i < final(target).spec_snapshots().len() ==> spec_dir_in_some_group(
                final(target).spec_snapshots()[i],
                list@,
            ),
        !delete ==> final(target).spec_snapshots().len() >= old(target).spec_snapshots().len()
            && final(target).spec_snapshots().take(old(target).spec_snapshots().len() as int)
            == old(target).spec_snapshots(),
        !delete ==> forall|d2: BackupDir|
            !spec_dir_in_some_group(d2, list@) ==> #[trigger] crate::datastore::spec_manifest_of(
                final(target).spec_manifests(),
                d2,
            ) == crate::datastore::spec_manifest_of(old(target).spec_manifests(), d2),
        spec_store_groups_ready(
            source,
            old(target).spec_snapshots(),
            old(target).spec_manifests(),
            list@,
            owners@.map_values(|p: (BackupGroup, String)| (p.0, p.1@)),
            username@,
        ) && !old(target).spec_store().spec_exclusive_locked() ==> r is Ok,
        r == Err::<u64, PullError>(PullError::GroupFailures) ==> !spec_store_groups_ready(
            source,
            old(target).spec_snapshots(),
            old(target).spec_manifests(),
            list@,
            owners@.map_values(|p: (BackupGroup, String)| (p.0, p.1@)),
            username@,
        ),
        spec_store_synced(
            source,
            old(target).spec_snapshots(),
            old(target).spec_manifests(),
            list@,
            owners@.map_values(|p: (BackupGroup, String)| (p.0, p.1@)),
            username@,
            delete,
        ) && !old(target).spec_store().spec_exclusive_locked() ==> r == Ok::<u64, PullError>(0)
            && final(target).spec_snapshots() == old(target).spec_snapshots()
            && final(target).spec_manifests() == old(target).spec_manifests()
            && final(target).spec_images() == old(target).spec_images()
            && final(target).spec_chunks() == old(target).spec_chunks(),
{
    let ghost orig_list = list@;
    if let Err(_) = target.try_shared_chunk_store_lock() {
        proof {
            assert(target.spec_snapshots().take(old(target).spec_snapshots().len() as int)
                =~= old(target).spec_snapshots());
        }
        return Err(PullError::Locked);
    }
    let sorted = sort_group_list(list);
    proof {
        broadcast use group_to_multiset_ensures;

        if orig_list.len() == 0 {
            assert(sorted@.to_multiset().len() == 0);
            assert(sorted@.len() == 0);
        }

        assert forall|g: BackupGroup| sorted@.contains(g) implies orig_list.contains(g) by {
            vstd::seq_lib::to_multiset_contains(sorted@, g);
            vstd::seq_lib::to_multiset_contains(orig_list, g);
        }
        assert forall|g: BackupGroup| orig_list.contains(g) implies sorted@.contains(g) by {
            vstd::seq_lib::to_multiset_contains(sorted@, g);
            vstd::seq_lib::to_multiset_contains(orig_list, g);
        }
        assert(target.spec_snapshots().take(old(target).spec_snapshots().len() as int)
            =~= old(target).spec_snapshots());
    }
    let mut errors = false;
    let mut total: u64 = 0;
    let mut g: usize = 0;
    while g < sorted.len()
        invariant
            sorted@.len() == 0 ==> !errors,
            source.wf(),
            target.wf(),
            g <= sorted@.len(),
            target.spec_gc_running() == old(target).spec_gc_running(),
            target.spec_store().spec_shared_locks() == old(
                target,
            ).spec_store().spec_shared_locks() + 1,
            target.spec_store().spec_exclusive_locked() == old(
                target,
            ).spec_store().spec_exclusive_locked(),
            forall|d: Seq<u8>|
                spec_has(old(target).spec_chunks(), d) ==> spec_has(target.spec_chunks(), d),
            forall|d: Seq<u8>|
                spec_has(target.spec_chunks(), d) ==> spec_has(old(target).spec_chunks(), d)
                    || spec_has(source.spec_chunks(), d),
            forall|gg: int| 0 <= gg < sorted@.len() ==> orig_list.contains(#[trigger] sorted@[gg]),
            !delete ==> target.spec_snapshots().len() >= old(target).spec_snapshots().len()
                && target.spec_snapshots().take(old(target).spec_snapshots().len() as int)
                == old(target).spec_snapshots(),
            forall|d2: BackupDir|
                !spec_dir_in_some_group(d2, sorted@)
                    ==> #[trigger] crate::datastore::spec_manifest_of(target.spec_manifests(), d2)
                    == crate::datastore::spec_manifest_of(old(target).spec_manifests(), d2),
            spec_store_groups_ready(
                source,
                old(target).spec_snapshots(),
                old(target).spec_manifests(),
                orig_list,
                owners@.map_values(|p: (BackupGroup, String)| (p.0, p.1@)),
                username@,
            ) ==> !errors && total == 0 && target.spec_snapshots() == old(
                target,
            ).spec_snapshots() && target.spec_manifests() == old(target).spec_manifests()
                && target.spec_images() == old(target).spec_images() && target.spec_chunks()
                == old(target).spec_chunks(),
        decreases sorted@.len() - g,
    {
        let ghost pre_snaps_s = target.spec_snapshots();
        let ghost pre_ms_s = target.spec_manifests();
        let group = &sorted[g];
        if !owner_allows(owners, group, username) {
            proof {
                let mapped = owners@.map_values(|p: (BackupGroup, String)| (p.0, p.1@));
                if spec_store_groups_ready(
                    source,
                    old(target).spec_snapshots(),
                    old(target).spec_manifests(),
                    orig_list,
                    mapped,
                    username@,
                ) {
                    // the listing owed this group to the caller
                    assert(orig_list.contains(sorted@[g as int]));
                    let oi = choose|oi: int|
                        0 <= oi < orig_list.len() && orig_list[oi] == sorted@[g as int];
                    assert(spec_owner_allows(mapped, orig_list[oi], username@));
                    assert(false);
                }
            }
            errors = true;
        } else {
            match pull_group(source, target, group, delete, now) {
                Ok(t) => {
                    proof {
                        let mapped = owners@.map_values(|p: (BackupGroup, String)| (p.0, p.1@));
                        if spec_store_groups_ready(
                            source,
                            old(target).spec_snapshots(),
                            old(target).spec_manifests(),
                            orig_list,
                            mapped,
                            username@,
                        ) {
                            assert(orig_list.contains(sorted@[g as int]));
                            let oi = choose|oi: int|
                                0 <= oi < orig_list.len() && orig_list[oi] == sorted@[g as int];
                            assert(spec_group_synced(
                                source,
                                old(target).spec_snapshots(),
                                old(target).spec_manifests(),
                                orig_list[oi],
                            ));
                            assert(t == 0);
                        }
                    }
                    total = total.saturating_add(t);
                },
                Err(_) => {
                    proof {
                        let mapped = owners@.map_values(|p: (BackupGroup, String)| (p.0, p.1@));
                        if spec_store_groups_ready(
                            source,
                            old(target).spec_snapshots(),
                            old(target).spec_manifests(),
                            orig_list,
                            mapped,
                            username@,
                        ) {
                            // a mirrored group cannot fail to pull
                            assert(orig_list.contains(sorted@[g as int]));
                            let oi = choose|oi: int|
                                0 <= oi < orig_list.len() && orig_list[oi] == sorted@[g as int];
                            assert(spec_group_synced(
                                source,
                                old(target).spec_snapshots(),
                                old(target).spec_manifests(),
                                orig_list[oi],
                            ));
                            assert(false);
                        }
                    }
                    errors = true;
                },
            }
        }
        proof {
            if !delete {
                assert(target.spec_snapshots().take(old(target).spec_snapshots().len() as int)
                    =~= pre_snaps_s.take(old(target).spec_snapshots().len() as int));
            }
            // manifests of dirs outside the whole listing never move
            assert forall|d2: BackupDir|
                !spec_dir_in_some_group(d2, sorted@)
                    implies #[trigger] crate::datastore::spec_manifest_of(
                    target.spec_manifests(),
                    d2,
                ) == crate::datastore::spec_manifest_of(old(target).spec_manifests(), d2) by {
                assert(!crate::datastore::spec_dir_in_group(d2, sorted@[g as int]));
                assert(crate::datastore::spec_manifest_of(target.spec_manifests(), d2)
                    == crate::datastore::spec_manifest_of(pre_ms_s, d2));
            }
        }
        g = g + 1;
    }
    if delete {
        let ghost pre_rm_snaps = target.spec_snapshots();
        proof {
            let mapped = owners@.map_values(|p: (BackupGroup, String)| (p.0, p.1@));
            if spec_store_synced(
                source,
                old(target).spec_snapshots(),
                old(target).spec_manifests(),
                orig_list,
                mapped,
                username@,
                delete,
            ) {
                // every local snapshot is listed, so nothing will vanish
                assert forall|j: int|
                    0 <= j < pre_rm_snaps.len() implies spec_dir_in_some_group(
                    #[trigger] pre_rm_snaps[j],
                    sorted@,
                ) by {
                    assert(pre_rm_snaps[j] == old(target).spec_snapshots()[j]);
                    let gi = choose|gi: int|
                        0 <= gi < orig_list.len() && crate::datastore::spec_dir_in_group(
                            old(target).spec_snapshots()[j],
                            orig_list[gi],
                        );
                    assert(orig_list.contains(orig_list[gi]));
                    assert(sorted@.contains(orig_list[gi]));
                    let si = choose|si: int|
                        0 <= si < sorted@.len() && sorted@[si] == orig_list[gi];
                    assert(crate::datastore::spec_dir_in_group(pre_rm_snaps[j], sorted@[si]));
                }
            }
        }
        remove_vanished_groups(target, &sorted);
        proof {
            assert forall|i: int|
                0 <= i < target.spec_snapshots().len() implies spec_dir_in_some_group(
                target.spec_snapshots()[i],
                orig_list,
            ) by {
                let gg = choose|gg: int|
                    0 <= gg < sorted@.len() && crate::datastore::spec_dir_in_group(
                        target.spec_snapshots()[i],
                        sorted@[gg],
                    );
                assert(sorted@.contains(sorted@[gg]));
                assert(orig_list.contains(sorted@[gg]));
                let oi = choose|oi: int|
                    0 <= oi < orig_list.len() && orig_list[oi] == sorted@[gg];
            }
        }
    }
    target.release_shared_chunk_store_lock();
    if errors {
        Err(PullError::GroupFailures)
    } else {
        Ok(total)
    }
}

/// Delete the target's snapshots of a group whose times vanished from the
/// source listing.
fn remove_group_snapshots_not_in(target: &mut DataStore, group: &BackupGroup, times: &Vec<i64>)
    requires
        old(target).wf(),
    ensures
        final(target).wf(),
        final(target).spec_chunks() == old(target).spec_chunks(),
        final(target).spec_store() == old(target).spec_store(),
        final(target).spec_gc_running() == old(target).spec_gc_running(),
        forall|d2: BackupDir|
            #[trigger] crate::datastore::spec_manifest_of(final(target).spec_manifests(), d2)
                == crate::datastore::spec_manifest_of(old(target).spec_manifests(), d2) || (
            crate::datastore::spec_dir_in_group(d2, *group) && !times@.contains(
                d2.spec_backup_time(),
            )),
        forall|i: int|
            0 <= i < final(target).spec_snapshots().len() && crate::datastore::spec_dir_in_group(
                final(target).spec_snapshots()[i],
                *group,
            ) ==> times@.contains(final(target).spec_snapshots()[i].spec_backup_time()),
        (forall|j: int|
            0 <= j < old(target).spec_snapshots().len() && crate::datastore::spec_dir_in_group(
                old(target).spec_snapshots()[j],
                *group,
            ) ==> times@.contains(old(target).spec_snapshots()[j].spec_backup_time()))
            ==> final(target).spec_snapshots() == old(target).spec_snapshots()
            && final(target).spec_manifests() == old(target).spec_manifests()
            && final(target).spec_images() == old(target).spec_images(),
        forall|i: int|
            0 <= i < final(target).spec_snapshots().len() ==> old(
                target,
            ).spec_snapshots().contains(#[trigger] final(target).spec_snapshots()[i]),
    {
        loop
            invariant
                target.wf(),
                target.spec_chunks() == old(target).spec_chunks(),
                target.spec_store() == old(target).spec_store(),
                target.spec_gc_running() == old(target).spec_gc_running(),
                (forall|j: int|
                    0 <= j < old(target).spec_snapshots().len()
                        && crate::datastore::spec_dir_in_group(
                        old(target).spec_snapshots()[j],
                        *group,
                    ) ==> times@.contains(
                        old(target).spec_snapshots()[j].spec_backup_time(),
                    )) ==> target.spec_snapshots() == old(target).spec_snapshots()
                    && target.spec_manifests() == old(target).spec_manifests()
                    && target.spec_images() == old(target).spec_images(),
                forall|i: int|
                    0 <= i < target.spec_snapshots().len() ==> old(
                        target,
                    ).spec_snapshots().contains(#[trigger] target.spec_snapshots()[i]),
                forall|d2: BackupDir|
                    #[trigger] crate::datastore::spec_manifest_of(target.spec_manifests(), d2)
                        == crate::datastore::spec_manifest_of(
                        old(target).spec_manifests(),
                        d2,
                    ) || (crate::datastore::spec_dir_in_group(d2, *group) && !times@.contains(
                        d2.spec_backup_time(),
                    )),
            decreases target.spec_snapshots().len(),
        {
            let offender = find_group_snapshot_not_in(target, group, times);
            match offender {
                None => {
                    return ;
                },
                Some(k) => {
                    let dir = target.snapshot_at(k).duplicate();
                    let ghost pre = target.spec_snapshots();
                    let ghost pre_ms = target.spec_manifests();
                    target.remove_backup_dir(&dir);
                    proof {
                        let pred = crate::datastore::spec_other_snapshot_pred(dir);
                        assert(!pred(pre[k as int])) by {
                            assert(spec_same_dir(pre[k as int], dir));
                        }
                        lemma_filter_shorter(pre, pred, k as int);
                        // a found offender refutes the all-listed premise
                        if forall|j: int|
                            0 <= j < old(target).spec_snapshots().len()
                                && crate::datastore::spec_dir_in_group(
                                #[trigger] old(target).spec_snapshots()[j],
                                *group,
                            ) ==> times@.contains(
                                old(target).spec_snapshots()[j].spec_backup_time(),
                            ) {
                            assert(old(target).spec_snapshots()[k as int]
                                == pre[k as int]);
                            assert(false);
                        }
                        // every survivor was already a snapshot before
                        assert forall|i: int|
                            0 <= i < target.spec_snapshots().len() implies old(
                            target,
                        ).spec_snapshots().contains(
                            #[trigger] target.spec_snapshots()[i],
                        ) by {
                            crate::chunk_store::lemma_filter_element(pre, pred, i);
                            let k2 = choose|k2: int|
                                0 <= k2 < pre.len() && pre[k2] == target.spec_snapshots()[i];
                            assert(pre.contains(pre[k2]));
                        }
                        assert forall|d2: BackupDir|
                            #[trigger] crate::datastore::spec_manifest_of(
                                target.spec_manifests(),
                                d2,
                            ) == crate::datastore::spec_manifest_of(
                                old(target).spec_manifests(),
                                d2,
                            ) || (crate::datastore::spec_dir_in_group(d2, *group)
                                && !times@.contains(d2.spec_backup_time())) by {
                            if spec_same_dir(d2, dir) {
                                assert(crate::datastore::spec_dir_in_group(d2, *group));
                                assert(!times@.contains(d2.spec_backup_time()));
                            }
                        }
                    }
                },
            }
        }
    }

} // verus!
