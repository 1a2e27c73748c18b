//! Splitting a file's bytes into content-defined chunks (FastCDC, 2020
//! variant, normalisation level 1).

use vstd::prelude::*;

use crate::error::SyncError;
use crate::proto::{Chunk, Params};

verus! {

/// Smallest accepted minimum, average and maximum chunk sizes.
pub open spec fn size_floors_spec() -> (u32, u32, u32) {
    (64, 256, 1024)
}

/// Largest accepted minimum, average and maximum chunk sizes.
pub open spec fn size_ceilings_spec() -> (u32, u32, u32) {
    (1_048_576, 4_194_304, 16_777_216)
}

/// The chunker's constructor accepts these bounds: each lies between its
/// floor and its ceiling (it panics otherwise).
pub open spec fn within_chunker_limits(min_size: u32, avg_size: u32, max_size: u32) -> bool {
    &&& size_floors_spec().0 <= min_size <= size_ceilings_spec().0
    &&& size_floors_spec().1 <= avg_size <= size_ceilings_spec().1
    &&& size_floors_spec().2 <= max_size <= size_ceilings_spec().2
}

/// The chunker runs to its end on `len` bytes with these bounds: its
/// constructor accepts them, and either the average does not exceed the
/// maximum or the data is no longer than the maximum. (With the average above
/// the maximum, a rest of the data longer than the maximum and shorter than
/// the average makes the cut search read past the end of the data and panic;
/// a rest no longer than the maximum narrows the search to itself.)
pub open spec fn chunker_runs_on(len: nat, min_size: u32, avg_size: u32, max_size: u32) -> bool {
    &&& within_chunker_limits(min_size, avg_size, max_size)
    &&& (avg_size <= max_size || len <= max_size)
}

/// The `(hash, offset, length)` triples that the chunker yields for `data`.
pub uninterp spec fn gear_cuts(data: Seq<u8>, min_size: u32, avg_size: u32, max_size: u32) -> Seq<(u64, usize, usize)>;

/// The triples cover `0..len` in order, back to back, each of positive
/// length no larger than `bound`.
pub open spec fn cuts_tile(cuts: Seq<(u64, usize, usize)>, len: nat, bound: nat) -> bool {
    &&& (cuts.len() == 0 <==> len == 0)
    &&& cuts.len() > 0 ==> cuts[0].1 == 0 && cuts.last().1 + cuts.last().2 == len
    &&& forall|i: int| 0 <= i < cuts.len() ==> 0 < #[trigger] cuts[i].2 <= bound
    &&& forall|i: int| 0 < i < cuts.len() ==> #[trigger] cuts[i].1 == cuts[i - 1].1 + cuts[i - 1].2
}

/// The chunks cover `0..len` in order, back to back, each of positive length.
pub open spec fn chunks_tile(chunks: Seq<Chunk>, len: nat) -> bool {
    &&& (chunks.len() == 0 <==> len == 0)
    &&& chunks.len() > 0 ==> chunks[0].start == 0 && chunks.last().start + chunks.last().len == len
    &&& forall|i: int| 0 <= i < chunks.len() ==> 0 < #[trigger] chunks[i].len
    &&& forall|i: int| 0 < i < chunks.len() ==> #[trigger] chunks[i].start == chunks[i - 1].start + chunks[i - 1].len
}

/// The chunk that a `(hash, offset, length)` triple describes.
pub open spec fn cut_as_chunk(cut: (u64, usize, usize)) -> Chunk {
    Chunk { hash: cut.0, start: cut.1 as u64, len: cut.2 as u32 }
}

/// `fastcdc::v2020::{MINIMUM_MIN, AVERAGE_MIN, MAXIMUM_MIN}`: the constants
/// as that crate defines them.
#[verifier::external_body]
fn chunker_size_floors() -> (r: (u32, u32, u32))
    ensures
        r == size_floors_spec(),
{
    (fastcdc::v2020::MINIMUM_MIN, fastcdc::v2020::AVERAGE_MIN, fastcdc::v2020::MAXIMUM_MIN)
}

/// `fastcdc::v2020::{MINIMUM_MAX, AVERAGE_MAX, MAXIMUM_MAX}`: the constants
/// as that crate defines them.
#[verifier::external_body]
pub(crate) fn chunker_size_ceilings() -> (r: (u32, u32, u32))
    ensures
        r == size_ceilings_spec(),
{
    (fastcdc::v2020::MINIMUM_MAX, fastcdc::v2020::AVERAGE_MAX, fastcdc::v2020::MAXIMUM_MAX)
}

/// Runs `fastcdc::v2020::FastCDC::new(data, min, avg, max)` to its end and
/// gives each chunk as `(hash, offset, length)`.
///
/// Claimed of it: the triples are `gear_cuts` of the arguments; they cover
/// the data back to back from offset 0 to its end, each of positive length
/// (the iterator starts at 0, advances by each length, and stops when nothing
/// remains; a cut of a non-empty rest is never empty); no length exceeds the
/// largest maximum accepted (16 MiB), nor `max` itself when `min` does not
/// exceed it (the cut search stops at the smaller of the rest and `max`, or
/// before the smaller of the rest and `avg`, or takes a whole rest no longer
/// than `min`). The bounds it takes are those on which the constructor does
/// not panic and the cut search never reads past the data.
/// How the cut points depend on the bytes (the gear hash) is left unsaid.
#[verifier::external_body]
fn fastcdc_cuts(data: &[u8], min_size: u32, avg_size: u32, max_size: u32) -> (cuts: Vec<(u64, usize, usize)>)
    requires
        chunker_runs_on(data@.len(), min_size, avg_size, max_size),
    ensures
        cuts@ == gear_cuts(data@, min_size, avg_size, max_size),
        cuts_tile(cuts@, data@.len(), size_ceilings_spec().2 as nat),
        min_size <= max_size ==> cuts_tile(cuts@, data@.len(), max_size as nat),
{
    fastcdc::v2020::FastCDC::new(data, min_size, avg_size, max_size)
        .map(|c| (c.hash, c.offset, c.length))
        .collect()
}

/// Whether the chunker's constructor accepts the bounds `min_size`,
/// `avg_size`, `max_size`.
pub fn chunker_accepts(min_size: u32, avg_size: u32, max_size: u32) -> (ok: bool)
    ensures
        ok == within_chunker_limits(min_size, avg_size, max_size),
{
    let lo = chunker_size_floors();
    let hi = chunker_size_ceilings();
    lo.0 <= min_size && min_size <= hi.0 && lo.1 <= avg_size && avg_size <= hi.1 && lo.2 <= max_size
        && max_size <= hi.2
}

/// Whether the chunker runs to its end on `len` bytes with the bounds
/// `min_size`, `avg_size`, `max_size`.
pub fn chunker_runs(len: usize, min_size: u32, avg_size: u32, max_size: u32) -> (ok: bool)
    ensures
        ok == chunker_runs_on(len as nat, min_size, avg_size, max_size),
{
    chunker_accepts(min_size, avg_size, max_size) && (avg_size <= max_size || len <= max_size as usize)
}

/// The chunks that the triples describe, one for one, in order.
pub fn chunks_from_cuts(cuts: &Vec<(u64, usize, usize)>) -> (chunks: Vec<Chunk>)
    requires
        forall|i: int| 0 <= i < cuts@.len() ==> #[trigger] cuts@[i].2 <= u32::MAX,
    ensures
        chunks@ == cuts@.map_values(|c: (u64, usize, usize)| cut_as_chunk(c)),
{
    let mut chunks: Vec<Chunk> = Vec::new();
    let mut i: usize = 0;
    while i < cuts.len()
        invariant
            i <= cuts@.len(),
            forall|j: int| 0 <= j < cuts@.len() ==> #[trigger] cuts@[j].2 <= u32::MAX,
            chunks@ == cuts@.take(i as int).map_values(|c: (u64, usize, usize)| cut_as_chunk(c)),
        decreases cuts@.len() - i,
    {
        let (hash, offset, length) = cuts[i];
        chunks.push(Chunk { hash, start: offset as u64, len: length as u32 });
        proof {
            assert(cuts@.take(i + 1) == cuts@.take(i as int).push(cuts@[i as int]));
        }
        i = i + 1;
    }
    proof {
        assert(cuts@.take(cuts@.len() as int) == cuts@);
    }
    chunks
}

/// Splits `data` into content-defined chunks with the bounds of `params`.
///
/// Fails with `ParamsOutOfRange` exactly when the chunker would not run to
/// its end on the data with these bounds (see `chunker_runs_on`); otherwise
/// the chunks are those the chunker yields, they cover the data back to back,
/// and none is longer than the maximum when the minimum does not exceed it.
pub fn chunk_file(data: &[u8], params: &Params) -> (res: Result<Vec<Chunk>, SyncError>)
    ensures
        if chunker_runs_on(data@.len(), params.min_size, params.avg_size, params.max_size) {
            &&& res is Ok
            &&& res->Ok_0@ == gear_cuts(data@, params.min_size, params.avg_size, params.max_size).map_values(
                |c: (u64, usize, usize)| cut_as_chunk(c),
            )
            &&& chunks_tile(res->Ok_0@, data@.len())
            &&& params.min_size <= params.max_size ==> forall|i: int|
                0 <= i < res->Ok_0@.len() ==> #[trigger] res->Ok_0@[i].len <= params.max_size
        } else {
            res == Err::<Vec<Chunk>, SyncError>(SyncError::ParamsOutOfRange)
        },
{
    if !chunker_runs(data.len(), params.min_size, params.avg_size, params.max_size) {
        return Err(SyncError::ParamsOutOfRange);
    }
    let cuts = fastcdc_cuts(data, params.min_size, params.avg_size, params.max_size);
    let chunks = chunks_from_cuts(&cuts);
    proof {
        lemma_tiling_carries_over(cuts@, chunks@, data@.len(), size_ceilings_spec().2 as nat);
        if params.min_size <= params.max_size {
            lemma_tiling_carries_over(cuts@, chunks@, data@.len(), params.max_size as nat);
        }
    }
    Ok(chunks)
}

/// The constructor accepts exactly the bounds each of which lies between its
/// floor and its ceiling: a minimum in 64..=1 MiB, an average in 256..=4 MiB
/// and a maximum in 1 KiB..=16 MiB, with no relation among the three.
pub proof fn lemma_chunker_limits_exact(min_size: u32, avg_size: u32, max_size: u32)
    ensures
        within_chunker_limits(min_size, avg_size, max_size) <==> (64 <= min_size <= 1_048_576 && 256 <= avg_size
            <= 4_194_304 && 1024 <= max_size <= 16_777_216),
{
}

/// The chunker runs to its end exactly when the constructor accepts the
/// bounds and either the average does not exceed the maximum or the data is
/// no longer than the maximum.
pub proof fn lemma_chunker_runs_exact(len: nat, min_size: u32, avg_size: u32, max_size: u32)
    ensures
        chunker_runs_on(len, min_size, avg_size, max_size) <==> (64 <= min_size <= 1_048_576 && 256 <= avg_size
            <= 4_194_304 && 1024 <= max_size <= 16_777_216 && (avg_size <= max_size || len <= max_size)),
{
}

/// Once the average does not exceed the maximum, whether the chunker runs does
/// not depend on the length of the data: with accepted bounds it runs on data
/// of any length.
pub proof fn lemma_chunker_runs_any_length(len1: nat, len2: nat, min_size: u32, avg_size: u32, max_size: u32)
    requires
        avg_size <= max_size,
    ensures
        chunker_runs_on(len1, min_size, avg_size, max_size) == chunker_runs_on(len2, min_size, avg_size, max_size),
        within_chunker_limits(min_size, avg_size, max_size) ==> chunker_runs_on(len1, min_size, avg_size, max_size),
{
}

/// Data no longer than the maximum can always be chunked with accepted
/// bounds, whatever the average.
pub proof fn lemma_chunker_runs_on_short_data(len: nat, min_size: u32, avg_size: u32, max_size: u32)
    requires
        within_chunker_limits(min_size, avg_size, max_size),
        len <= max_size,
    ensures
        chunker_runs_on(len, min_size, avg_size, max_size),
{
}

/// Chunks made one for one from triples that tile `0..len` tile it too,
/// within the same bound.
proof fn lemma_tiling_carries_over(cuts: Seq<(u64, usize, usize)>, chunks: Seq<Chunk>, len: nat, bound: nat)
    requires
        cuts_tile(cuts, len, bound),
        bound <= size_ceilings_spec().2,
        chunks == cuts.map_values(|c: (u64, usize, usize)| cut_as_chunk(c)),
    ensures
        chunks_tile(chunks, len),
        forall|i: int| 0 <= i < chunks.len() ==> #[trigger] chunks[i].len <= bound,
{
    assert forall|i: int| 0 <= i < chunks.len() implies #[trigger] chunks[i].len <= bound by {
        assert(cuts[i].2 <= bound);
    }
    assert forall|i: int| 0 <= i < chunks.len() implies 0 < #[trigger] chunks[i].len by {
        assert(cuts[i].2 <= bound);
    }
    assert forall|i: int| 0 < i < chunks.len() implies #[trigger] chunks[i].start == chunks[i - 1].start
        + chunks[i - 1].len by {
        assert(cuts[i].1 == cuts[i - 1].1 + cuts[i - 1].2);
        assert(cuts[i - 1].2 <= bound);
    }
    if chunks.len() > 0 {
        assert(cuts.last().2 <= bound);
        assert(chunks.last() == cut_as_chunk(cuts.last()));
    }
}

} // verus!
