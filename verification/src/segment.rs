//! Segmenter: splits a batch's payload into size-bounded, order-preserving
//! segments under one backend's segment limit. Concatenating the segments in
//! index order reproduces the payload exactly.
use vstd::prelude::*;
use vstd::slice::{slice_subrange, slice_to_vec};
use vstd::arithmetic::div_mod::{
    lemma_fundamental_div_mod, lemma_fundamental_div_mod_converse,
    lemma_mod_division_less_than_divisor,
};
use crate::errors::ConfigError;

verus! {

broadcast use vstd::seq::group_seq_axioms;

/// An opaque ordered byte payload plus its caller-assigned, monotonically
/// increasing sequence identifier; immutable once handed to the coordinator.
#[derive(Clone, Debug, PartialEq, Eq)]
pub struct Batch {
    pub id: u64,
    pub payload: Vec<u8>,
}

/// One size-bounded slice of a batch's payload: the parent batch id, the
/// position in the segment sequence, and the byte range it covers.
#[derive(Clone, Debug, PartialEq, Eq)]
pub struct Segment {
    pub batch_id: u64,
    pub index: usize,
    pub offset: usize,
    pub data: Vec<u8>,
}

/// The segments' bytes, concatenated in index order.
pub open spec fn concat_data(segs: Seq<Segment>) -> Seq<u8>
    decreases segs.len(),
{
    if segs.len() == 0 {
        Seq::empty()
    } else {
        concat_data(segs.drop_last()) + segs.last().data@
    }
}

proof fn lemma_concat_data_push(segs: Seq<Segment>, s: Segment)
    ensures
        concat_data(segs.push(s)) == concat_data(segs) + s.data@,
{
    assert(segs.push(s).drop_last() =~= segs);
    assert(segs.push(s).last() == s);
}

/// How many segments a payload of length `l` yields under limit `m`: exactly
/// one for the empty payload, else `l / m` rounded up.
pub open spec fn spec_segment_count(l: nat, m: nat) -> nat
    recommends
        m >= 1,
{
    if l == 0 {
        1
    } else {
        (l - 1) as nat / m + 1
    }
}

/// Law: for a non-empty payload the segment count is `ceil(l / m)`, written
/// with the usual rounding-up division.
pub proof fn lemma_segment_count_is_ceil(l: nat, m: nat)
    requires
        m >= 1,
        l >= 1,
    ensures
        spec_segment_count(l, m) == (l + m - 1) as int / m as int,
{
    let li = l as int;
    let mi = m as int;
    let q = (li - 1) / mi;
    let r = (li - 1) % mi;
    lemma_fundamental_div_mod(li - 1, mi);
    lemma_mod_division_less_than_divisor(li - 1, mi);
    assert(li + mi - 1 == (q + 1) * mi + r) by (nonlinear_arith)
        requires
            li - 1 == mi * q + r,
    ;
    lemma_fundamental_div_mod_converse(li + mi - 1, mi, q + 1, r);
}

/// Everything the segmenter guarantees of its output under limit `max_size`:
/// the rounded-up segment count (one for the empty payload), the parent id
/// and consecutive indexes, offsets at multiples of the limit, full segments
/// everywhere but the last, each segment's exact byte range out of the
/// payload, and lossless concatenation in index order.
pub open spec fn segments_valid(segs: Seq<Segment>, batch: Batch, max_size: nat) -> bool {
    let l = batch.payload@.len() as int;
    &&& segs.len() == spec_segment_count(l as nat, max_size)
    &&& forall|i: int| 0 <= i < segs.len() ==> (#[trigger] segs[i]).batch_id == batch.id
    &&& forall|i: int| 0 <= i < segs.len() ==> (#[trigger] segs[i]).index == i
    &&& forall|i: int| 0 <= i < segs.len() ==> (#[trigger] segs[i]).offset == i * (max_size as int)
    &&& forall|i: int| 0 <= i < segs.len() ==> (#[trigger] segs[i]).data@.len() <= max_size
    &&& forall|i: int| 0 <= i < segs.len() - 1 ==> (#[trigger] segs[i]).data@.len() == max_size
    &&& forall|i: int|
        0 <= i < segs.len() ==> (#[trigger] segs[i]).offset + segs[i].data@.len() == (if l == 0 {
            0
        } else if (i + 1) * (max_size as int) <= l {
            (i + 1) * (max_size as int)
        } else {
            l
        })
    &&& forall|i: int|
        0 <= i < segs.len() ==> (#[trigger] segs[i]).data@ == batch.payload@.subrange(
            segs[i].offset as int,
            segs[i].offset + segs[i].data@.len(),
        )
    &&& concat_data(segs) == batch.payload@
}

/// Split the batch's payload into contiguous segments of at most `max_size`
/// bytes each: all segments but the last are exactly `max_size` bytes, an
/// empty payload yields exactly one empty segment, and concatenation in
/// index order reproduces the payload. A zero limit is rejected.
pub fn segment(batch: &Batch, max_size: usize) -> (r: Result<Vec<Segment>, ConfigError>)
    ensures
        max_size == 0 ==> r == Err::<Vec<Segment>, ConfigError>(ConfigError::InvalidSegmentLimit),
        max_size >= 1 ==> (r matches Ok(segs) && segments_valid(segs@, *batch, max_size as nat)),
{
    if max_size == 0 {
        return Err(ConfigError::InvalidSegmentLimit);
    }
    let l = batch.payload.len();
    let mut segs: Vec<Segment> = Vec::new();
    if l == 0 {
        let ghost prev = segs@;
        let data: Vec<u8> = Vec::new();
        let seg = Segment { batch_id: batch.id, index: 0, offset: 0, data };
        segs.push(seg);
        proof {
            lemma_concat_data_push(prev, seg);
            assert(concat_data(prev) =~= Seq::<u8>::empty());
            assert(concat_data(segs@) =~= batch.payload@);
            assert(segs@[0] == seg);
            assert(segs@[0].data@ =~= batch.payload@.subrange(0, 0));
            assert(0 * (max_size as int) == 0) by (nonlinear_arith);
            assert(forall|i: int|
                0 <= i < segs@.len() ==> (#[trigger] segs@[i]).offset == i * (max_size as int));
        }
        return Ok(segs);
    }
    let ghost q = (l - 1) as int / max_size as int;
    let ghost rem = (l - 1) as int % max_size as int;
    proof {
        lemma_fundamental_div_mod((l - 1) as int, max_size as int);
        lemma_mod_division_less_than_divisor((l - 1) as int, max_size as int);
    }
    let total = (l - 1) / max_size + 1;
    let mut idx: usize = 0;
    while idx < total
        invariant
            1 <= max_size,
            1 <= l == batch.payload@.len(),
            (l - 1) as int == (max_size as int) * q + rem,
            0 <= rem < max_size as int,
            total == q + 1,
            idx <= total,
            segs@.len() == idx,
            forall|i: int| 0 <= i < idx ==> (#[trigger] segs@[i]).batch_id == batch.id,
            forall|i: int| 0 <= i < idx ==> (#[trigger] segs@[i]).index == i,
            forall|i: int| 0 <= i < idx ==> (#[trigger] segs@[i]).offset == i * (max_size as int),
            forall|i: int| 0 <= i < idx ==> (#[trigger] segs@[i]).data@.len() <= max_size,
            forall|i: int|
                0 <= i < idx && i < total - 1 ==> (#[trigger] segs@[i]).data@.len() == max_size,
            forall|i: int|
                0 <= i < idx ==> (#[trigger] segs@[i]).offset + segs@[i].data@.len() == (if (i + 1)
                    * (max_size as int) <= l {
                    (i + 1) * (max_size as int)
                } else {
                    l as int
                }),
            forall|i: int|
                0 <= i < idx ==> (#[trigger] segs@[i]).data@ == batch.payload@.subrange(
                    segs@[i].offset as int,
                    segs@[i].offset + segs@[i].data@.len(),
                ),
            concat_data(segs@) == batch.payload@.take(
                if idx * (max_size as int) <= l {
                    idx * (max_size as int)
                } else {
                    l as int
                },
            ),
        decreases total - idx,
    {
        proof {
            assert((idx as int) * (max_size as int) <= l - 1) by (nonlinear_arith)
                requires
                    idx as int <= q,
                    (l - 1) as int == (max_size as int) * q + rem,
                    0 <= rem,
            ;
        }
        let start = idx * max_size;
        let end = if l - start < max_size {
            l
        } else {
            start + max_size
        };
        proof {
            assert((idx + 1) * (max_size as int) == (idx as int) * (max_size as int)
                + max_size as int) by (nonlinear_arith);
            if idx < total - 1 {
                assert((idx + 1) * (max_size as int) <= l - 1) by (nonlinear_arith)
                    requires
                        idx as int + 1 <= q,
                        (l - 1) as int == (max_size as int) * q + rem,
                        0 <= rem,
                ;
                assert(start + max_size <= l - 1);
            }
        }
        let ghost prev = segs@;
        let data = slice_to_vec(slice_subrange(batch.payload.as_slice(), start, end));
        let seg = Segment { batch_id: batch.id, index: idx, offset: start, data };
        segs.push(seg);
        proof {
            lemma_concat_data_push(prev, seg);
            assert(batch.payload@.take(end as int) =~= batch.payload@.take(start as int)
                + batch.payload@.subrange(start as int, end as int));
        }
        idx += 1;
    }
    proof {
        assert((total as int) * (max_size as int) >= l) by (nonlinear_arith)
            requires
                total as int == q + 1,
                (l - 1) as int == (max_size as int) * q + rem,
                rem < max_size as int,
        ;
        assert(batch.payload@.take(l as int) =~= batch.payload@);
    }
    Ok(segs)
}

/// Segment under a backend's declared limit as configuration carries it, a
/// `u64`. The limit must be addressable on this machine (a machine limit:
/// segments index payload bytes in memory); a zero limit is rejected.
pub fn segment_under_limit(batch: &Batch, max_segment_size: u64) -> (r: Result<
    Vec<Segment>,
    ConfigError,
>)
    requires
        max_segment_size <= usize::MAX,
    ensures
        max_segment_size == 0 ==> r == Err::<Vec<Segment>, ConfigError>(
            ConfigError::InvalidSegmentLimit,
        ),
        max_segment_size >= 1 ==> (r matches Ok(segs) && segments_valid(
            segs@,
            *batch,
            max_segment_size as nat,
        )),
{
    segment(batch, max_segment_size as usize)
}

} // verus!
