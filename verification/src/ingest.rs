//! Indexing one file at a time: embedding batches, brochures and single
//! product documents.

use crate::chunking::{semantic_chunking, semantic_chunks};
use crate::digest::{calculate_hash, content_hash};
use crate::models::{ParsedDocument, PolicyData, PolicyDataView};
use crate::policy_chunks::{chunk_policy_data, policy_chunks};
use crate::sync::{chunk_views, IndexedChunk, IndexedChunkView};
use crate::text::views;
use vstd::prelude::*;

verus! {

/// How many staged rows of a synchronisation pass are embedded at once.
pub const SYNC_BATCH: usize = 50;

/// How many chunks of a brochure are embedded at once.
pub const BROCHURE_BATCH: usize = 30;

/// Where the batch that starts at `start` ends.
pub open spec fn batch_stop(start: int, size: int, total: int) -> int {
    if start + size <= total {
        start + size
    } else {
        total
    }
}

/// `bounds` cuts `0..total` into consecutive half-open ranges of `size`
/// items, the last one holding what is left.
pub open spec fn is_batching(bounds: Seq<(usize, usize)>, total: int, size: int) -> bool {
    &&& (bounds.len() == 0 <==> total == 0)
    &&& forall|k: int|
        0 <= k < bounds.len() ==> (#[trigger] bounds[k]).0 == k * size && bounds[k].0 < total
            && bounds[k].1 == batch_stop(k * size, size, total)
    &&& bounds.len() > 0 ==> bounds.last().1 == total
}

/// Cuts `total` items into batches of at most `size` items for embedding,
/// so that memory use stays bounded.
pub fn batch_bounds(total: usize, size: usize) -> (bounds: Vec<(usize, usize)>)
    requires
        size > 0,
    ensures
        is_batching(bounds@, total as int, size as int),
{
    let mut bounds: Vec<(usize, usize)> = Vec::new();
    let mut start: usize = 0;
    assert(0 * size == 0) by (nonlinear_arith);
    while start < total
        invariant
            size > 0,
            start <= total,
            start < total ==> start == bounds.len() * size,
            bounds.len() == 0 <==> start == 0,
            forall|k: int|
                0 <= k < bounds.len() ==> (#[trigger] bounds[k]).0 == k * size && bounds[k].0
                    < total && bounds[k].1 == batch_stop(k * size, size as int, total as int),
            bounds.len() > 0 ==> bounds@.last().1 == start,
        decreases total - start,
    {
        let stop: usize = if total - start >= size {
            start + size
        } else {
            total
        };
        let ghost count = bounds.len() as int;
        bounds.push((start, stop));
        proof {
            assert((count + 1) * size == count * size + size) by (nonlinear_arith);
        }
        start = stop;
    }
    bounds
}

/// What to do with a brochure.
pub enum BrochureStep {
    /// The index already holds rows of this file.
    AlreadyIndexed,
    /// Extraction gave no document.
    Unparsed,
    /// The document has no text to index.
    Empty,
    /// Embed the chunks batch by batch and insert them.
    Index { chunks: Vec<String>, batches: Vec<(usize, usize)> },
}

/// Decides what to do with a brochure, given the number of rows the index
/// holds for its filename and the outcome of extraction. A file that is
/// already indexed is never indexed again.
pub fn plan_brochure(existing_rows: usize, parsed: Option<&ParsedDocument>, filename: &str) -> (step:
    BrochureStep)
    ensures
        existing_rows > 0 ==> step is AlreadyIndexed,
        existing_rows == 0 && parsed.is_none() ==> step is Unparsed,
        existing_rows == 0 && parsed.is_some() && semantic_chunks(parsed.unwrap()@, filename@).len()
            == 0 ==> step is Empty,
        existing_rows == 0 && parsed.is_some() && semantic_chunks(parsed.unwrap()@, filename@).len()
            > 0 ==> (step matches BrochureStep::Index { chunks, batches } && views(chunks@)
            == semantic_chunks(parsed.unwrap()@, filename@) && is_batching(
            batches@,
            chunks@.len() as int,
            BROCHURE_BATCH as int,
        )),
{
    if existing_rows > 0 {
        return BrochureStep::AlreadyIndexed;
    }
    match parsed {
        None => BrochureStep::Unparsed,
        Some(doc) => {
            let chunks = semantic_chunking(doc, filename);
            if chunks.len() == 0 {
                BrochureStep::Empty
            } else {
                let batches = batch_bounds(chunks.len(), BROCHURE_BATCH);
                BrochureStep::Index { chunks, batches }
            }
        },
    }
}

/// What to do with a single product document.
pub enum PolicyStep {
    /// The index holds the document under its current hash.
    Unchanged,
    /// Delete the rows of the document's filename, then embed and insert
    /// these rows.
    Reindex { rows: Vec<IndexedChunk> },
}

/// The rows a product document is indexed under when it is indexed on its
/// own: its tagged chunks, each with the filename and the content hash.
pub open spec fn policy_rows(content: Seq<char>, d: PolicyDataView) -> Seq<IndexedChunkView> {
    Seq::new(
        policy_chunks(d).len(),
        |i: int|
            IndexedChunkView {
                source_file: d.source_filename,
                file_hash: content_hash(content),
                text: policy_chunks(d)[i],
            },
    )
}

/// Decides what to do with one product document, given the hash the index
/// stores for its filename: nothing when the hash is that of `content`,
/// otherwise a full re-index of the document.
pub fn plan_policy_index(stored_hash: Option<&str>, content: &str, data: &PolicyData) -> (step:
    PolicyStep)
    ensures
        match step {
            PolicyStep::Unchanged => stored_hash.is_some() && stored_hash.unwrap()@ == content_hash(
                content@,
            ),
            PolicyStep::Reindex { rows } => {
                &&& !(stored_hash.is_some() && stored_hash.unwrap()@ == content_hash(content@))
                &&& chunk_views(rows@) == policy_rows(content@, data@)
            },
        },
{
    let hash = calculate_hash(content);
    match stored_hash {
        Some(stored) => {
            if crate::text::str_eq(stored, hash.as_str()) {
                return PolicyStep::Unchanged;
            }
        },
        None => {},
    }
    let chunks = chunk_policy_data(data);
    let mut rows: Vec<IndexedChunk> = Vec::new();
    let ghost target = policy_rows(content@, data@);
    let mut i: usize = 0;
    assert(chunk_views(rows@) =~= target.take(0));
    while i < chunks.len()
        invariant
            i <= chunks.len(),
            rows.len() == i,
            views(chunks@) == policy_chunks(data@),
            hash@ == content_hash(content@),
            target == policy_rows(content@, data@),
            chunk_views(rows@) == target.take(i as int),
        decreases chunks.len() - i,
    {
        let row = IndexedChunk {
            source_file: data.source_filename.clone(),
            file_hash: hash.clone(),
            text: chunks[i].clone(),
        };
        proof {
            assert(views(chunks@)[i as int] == chunks@[i as int]@);
            assert(row@ == target[i as int]);
            assert(chunk_views(rows@.push(row)) =~= target.take(i + 1));
        }
        rows.push(row);
        i += 1;
    }
    assert(target.take(chunks.len() as int) =~= target);
    PolicyStep::Reindex { rows }
}

} // verus!
