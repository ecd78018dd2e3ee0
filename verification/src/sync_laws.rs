//! What holds of every synchronisation pass.
//!
//! The index is modelled as the sequence of its rows. A pass deletes the
//! rows of the filenames it replaces and appends the rows it stages; the
//! theorems below relate the index before and after a pass.

use crate::assembly::{document_chunks, lemma_document_chunks_nonempty};
use crate::digest::content_hash;
use crate::sync::{
    action_is, file_action, filename_of, first_step_of_file, is_run_cut, is_write_plan,
    needs_update, planned_deletions, planned_rows, rows_of, staging, step_ranges, step_source,
    stored_hashes, IndexedChunkView, SourceFileView, SyncAction, WriteStep,
};
use crate::table::{distinct_keys, lemma_put_distinct, lemma_put_lookup, lookup};
use vstd::prelude::*;

verus! {

/// The (filename, hash) pair of every row, in row order.
pub open spec fn hash_pairs(index: Seq<IndexedChunkView>) -> Seq<(Seq<char>, Seq<char>)> {
    Seq::new(index.len(), |i: int| (index[i].source_file, index[i].file_hash))
}

/// The hash the index stores for each filename.
pub open spec fn indexed_hashes(index: Seq<IndexedChunkView>) -> Seq<(Seq<char>, Seq<char>)> {
    stored_hashes(hash_pairs(index))
}

/// The rows that do not belong to any of the filenames in `deletions`.
pub open spec fn survives(deletions: Seq<Seq<char>>) -> spec_fn(IndexedChunkView) -> bool {
    |row: IndexedChunkView| !deletions.contains(row.source_file)
}

/// The rows that belong to another document than `filename`.
pub open spec fn other_than(filename: Seq<char>) -> spec_fn(IndexedChunkView) -> bool {
    |row: IndexedChunkView| row.source_file != filename
}

/// The index after carrying out a plan: the rows of the deleted filenames
/// are gone, the staged rows are appended.
pub open spec fn apply_plan(
    index: Seq<IndexedChunkView>,
    deletions: Seq<Seq<char>>,
    staged: Seq<IndexedChunkView>,
) -> Seq<IndexedChunkView> {
    index.filter(survives(deletions)) + staged
}

/// The index after a pass over `files`.
pub open spec fn after_pass(index: Seq<IndexedChunkView>, files: Seq<SourceFileView>) -> Seq<
    IndexedChunkView,
> {
    let stored = indexed_hashes(index);
    apply_plan(index, planned_deletions(stored, files), planned_rows(stored, files))
}

/// No two parsed files hold documents with the same filename.
pub open spec fn distinct_filenames(files: Seq<SourceFileView>) -> bool {
    forall|i: int, j: int|
        0 <= i < j < files.len() && (#[trigger] files[i]).parsed.is_some() && (
        #[trigger] files[j]).parsed.is_some() ==> files[i].parsed->0.source_filename
            != files[j].parsed->0.source_filename
}

/// The index stores, for every parsed file, the hash of its current content.
pub open spec fn in_sync(index: Seq<IndexedChunkView>, files: Seq<SourceFileView>) -> bool {
    forall|i: int|
        0 <= i < files.len() && (#[trigger] files[i]).parsed.is_some() ==> lookup(
            indexed_hashes(index),
            files[i].parsed->0.source_filename,
        ) == Some(content_hash(files[i].content))
}

/// The hash of the last row of `filename`, if the index has one.
pub open spec fn last_hash(index: Seq<IndexedChunkView>, filename: Seq<char>) -> Option<Seq<char>>
    decreases index.len(),
{
    if index.len() == 0 {
        None
    } else if index.last().source_file == filename {
        Some(index.last().file_hash)
    } else {
        last_hash(index.drop_last(), filename)
    }
}

proof fn lemma_indexed_hashes(index: Seq<IndexedChunkView>, filename: Seq<char>)
    ensures
        distinct_keys(indexed_hashes(index)),
        lookup(indexed_hashes(index), filename) == last_hash(index, filename),
    decreases index.len(),
{
    let pairs = hash_pairs(index);
    if index.len() == 0 {
        assert(crate::table::keys_of(indexed_hashes(index)) =~= Seq::<Seq<char>>::empty());
    } else {
        let rest = index.drop_last();
        lemma_indexed_hashes(rest, filename);
        assert(pairs.drop_last() =~= hash_pairs(rest));
        assert(pairs.last() == (index.last().source_file, index.last().file_hash));
        lemma_put_distinct(indexed_hashes(rest), index.last().source_file, index.last().file_hash);
        lemma_put_lookup(
            indexed_hashes(rest),
            index.last().source_file,
            index.last().file_hash,
            filename,
        );
    }
}

proof fn lemma_last_hash_concat(
    a: Seq<IndexedChunkView>,
    b: Seq<IndexedChunkView>,
    filename: Seq<char>,
)
    ensures
        last_hash(a + b, filename) == match last_hash(b, filename) {
            Some(hash) => Some(hash),
            None => last_hash(a, filename),
        },
    decreases b.len(),
{
    if b.len() == 0 {
        assert(a + b =~= a);
    } else {
        assert((a + b).drop_last() =~= a + b.drop_last());
        assert((a + b).last() == b.last());
        lemma_last_hash_concat(a, b.drop_last(), filename);
    }
}

proof fn lemma_last_hash_filter(
    index: Seq<IndexedChunkView>,
    keep: spec_fn(IndexedChunkView) -> bool,
    filename: Seq<char>,
)
    requires
        forall|row: IndexedChunkView| row.source_file == filename ==> keep(row),
    ensures
        last_hash(index.filter(keep), filename) == last_hash(index, filename),
    decreases index.len(),
{
    reveal(Seq::filter);
    if index.len() > 0 {
        let rest = index.drop_last();
        lemma_last_hash_filter(rest, keep, filename);
        if keep(index.last()) {
            assert(index.filter(keep).drop_last() =~= rest.filter(keep));
        }
    }
}

proof fn lemma_last_hash_of_rows(file: SourceFileView, filename: Seq<char>)
    ensures
        last_hash(rows_of(file), filename) == if file.parsed.is_some()
            && file.parsed->0.source_filename == filename {
            Some(content_hash(file.content))
        } else {
            None
        },
{
    let rows = rows_of(file);
    match file.parsed {
        Some(d) => {
            lemma_document_chunks_nonempty(d);
            if d.source_filename != filename {
                lemma_no_row_of(rows, filename);
            }
        },
        None => {},
    }
}

proof fn lemma_no_row_of(rows: Seq<IndexedChunkView>, filename: Seq<char>)
    requires
        forall|i: int| 0 <= i < rows.len() ==> rows[i].source_file != filename,
    ensures
        last_hash(rows, filename).is_none(),
    decreases rows.len(),
{
    if rows.len() > 0 {
        lemma_no_row_of(rows.drop_last(), filename);
    }
}

proof fn lemma_planned_rows_step(stored: Seq<(Seq<char>, Seq<char>)>, files: Seq<SourceFileView>)
    requires
        files.len() > 0,
    ensures
        planned_rows(stored, files) == planned_rows(stored, files.drop_last()) + (if needs_update(
            stored,
        )(files.last()) {
            rows_of(files.last())
        } else {
            Seq::empty()
        }),
{
    let rest = files.drop_last();
    let last = files.last();
    assert(files =~= rest.push(last));
    rest.lemma_filter_push(last, needs_update(stored));
    rest.filter(needs_update(stored)).lemma_push_map_commute(staging(), last);
    rest.filter(needs_update(stored)).map_values(staging()).lemma_flatten_push(rows_of(last));
    if !needs_update(stored)(last) {
        assert(planned_rows(stored, rest) + Seq::<IndexedChunkView>::empty() =~= planned_rows(
            stored,
            rest,
        ));
    }
}

proof fn lemma_staged_hash_absent(
    stored: Seq<(Seq<char>, Seq<char>)>,
    files: Seq<SourceFileView>,
    filename: Seq<char>,
)
    requires
        forall|i: int|
            0 <= i < files.len() && needs_update(stored)(#[trigger] files[i])
                ==> files[i].parsed->0.source_filename != filename,
    ensures
        last_hash(planned_rows(stored, files), filename).is_none(),
    decreases files.len(),
{
    if files.len() == 0 {
        reveal(Seq::filter);
        assert(planned_rows(stored, files) =~= Seq::<IndexedChunkView>::empty());
    } else {
        let rest = files.drop_last();
        let last = files.last();
        assert forall|i: int| 0 <= i < rest.len() && needs_update(stored)(#[trigger] rest[i])
            implies rest[i].parsed->0.source_filename != filename by {
            assert(rest[i] == files[i]);
        }
        lemma_staged_hash_absent(stored, rest, filename);
        lemma_planned_rows_step(stored, files);
        if needs_update(stored)(last) {
            assert(last == files[files.len() - 1]);
            lemma_last_hash_of_rows(last, filename);
            lemma_last_hash_concat(planned_rows(stored, rest), rows_of(last), filename);
        } else {
            assert(planned_rows(stored, rest) + Seq::<IndexedChunkView>::empty() =~= planned_rows(
                stored,
                rest,
            ));
        }
    }
}

proof fn lemma_staged_hash_present(
    stored: Seq<(Seq<char>, Seq<char>)>,
    files: Seq<SourceFileView>,
    k: int,
)
    requires
        distinct_filenames(files),
        0 <= k < files.len(),
        needs_update(stored)(files[k]),
    ensures
        last_hash(planned_rows(stored, files), files[k].parsed->0.source_filename) == Some(
            content_hash(files[k].content),
        ),
    decreases files.len(),
{
    let filename = files[k].parsed->0.source_filename;
    let rest = files.drop_last();
    let last = files.last();
    lemma_planned_rows_step(stored, files);
    if k == files.len() - 1 {
        lemma_last_hash_of_rows(last, filename);
        lemma_last_hash_concat(planned_rows(stored, rest), rows_of(last), filename);
    } else {
        assert(rest[k] == files[k]);
        assert forall|i: int, j: int|
            0 <= i < j < rest.len() && (#[trigger] rest[i]).parsed.is_some() && (
            #[trigger] rest[j]).parsed.is_some() implies rest[i].parsed->0.source_filename
            != rest[j].parsed->0.source_filename by {
            assert(rest[i] == files[i]);
            assert(rest[j] == files[j]);
        }
        lemma_staged_hash_present(stored, rest, k);
        if needs_update(stored)(last) {
            assert(last == files[files.len() - 1]);
            lemma_last_hash_of_rows(last, filename);
            lemma_last_hash_concat(planned_rows(stored, rest), rows_of(last), filename);
        } else {
            assert(planned_rows(stored, rest) + Seq::<IndexedChunkView>::empty() =~= planned_rows(
                stored,
                rest,
            ));
        }
    }
}

proof fn lemma_deletion_origin(
    stored: Seq<(Seq<char>, Seq<char>)>,
    files: Seq<SourceFileView>,
    filename: Seq<char>,
)
    requires
        planned_deletions(stored, files).contains(filename),
    ensures
        exists|i: int|
            0 <= i < files.len() && file_action(stored, #[trigger] files[i]) == SyncAction::Replace
                && files[i].parsed->0.source_filename == filename,
{
    let replaced = files.filter(action_is(stored, SyncAction::Replace));
    let names = replaced.map_values(filename_of());
    let at = choose|at: int| 0 <= at < names.len() && names[at] == filename;
    let file = replaced[at];
    assert(replaced.contains(file));
    files.lemma_filter_contains_rev(action_is(stored, SyncAction::Replace), file);
    lemma_filter_member(files, action_is(stored, SyncAction::Replace), at);
    let i = choose|i: int| 0 <= i < files.len() && files[i] == file;
    assert(file_action(stored, files[i]) == SyncAction::Replace);
}

proof fn lemma_filter_member<A>(s: Seq<A>, pred: spec_fn(A) -> bool, at: int)
    requires
        0 <= at < s.filter(pred).len(),
    ensures
        pred(s.filter(pred)[at]),
{
    s.lemma_filter_pred(pred, at);
}

proof fn lemma_filter_none<A>(s: Seq<A>, pred: spec_fn(A) -> bool)
    requires
        forall|i: int| 0 <= i < s.len() ==> !pred(#[trigger] s[i]),
    ensures
        s.filter(pred) == Seq::<A>::empty(),
    decreases s.len(),
{
    reveal(Seq::filter);
    if s.len() > 0 {
        let rest = s.drop_last();
        assert forall|i: int| 0 <= i < rest.len() implies !pred(#[trigger] rest[i]) by {
            assert(rest[i] == s[i]);
        }
        lemma_filter_none(rest, pred);
        assert(s.last() == s[s.len() - 1]);
    } else {
        assert(s.filter(pred) =~= Seq::<A>::empty());
    }
}

proof fn lemma_filter_single<A>(s: Seq<A>, pred: spec_fn(A) -> bool, k: int)
    requires
        0 <= k < s.len(),
        pred(s[k]),
        forall|i: int| 0 <= i < s.len() && i != k ==> !pred(#[trigger] s[i]),
    ensures
        s.filter(pred) == seq![s[k]],
    decreases s.len(),
{
    reveal(Seq::filter);
    let rest = s.drop_last();
    assert(s.last() == s[s.len() - 1]);
    if k == s.len() - 1 {
        assert forall|i: int| 0 <= i < rest.len() implies !pred(#[trigger] rest[i]) by {
            assert(rest[i] == s[i]);
        }
        lemma_filter_none(rest, pred);
        assert(Seq::<A>::empty().push(s[k]) =~= seq![s[k]]);
    } else {
        assert(rest[k] == s[k]);
        assert forall|i: int| 0 <= i < rest.len() && i != k implies !pred(#[trigger] rest[i]) by {
            assert(rest[i] == s[i]);
        }
        lemma_filter_single(rest, pred, k);
    }
}

proof fn lemma_filter_same<A>(s: Seq<A>, p: spec_fn(A) -> bool, q: spec_fn(A) -> bool)
    requires
        forall|x: A| #[trigger] p(x) == q(x),
    ensures
        s.filter(p) == s.filter(q),
    decreases s.len(),
{
    reveal(Seq::filter);
    if s.len() > 0 {
        lemma_filter_same(s.drop_last(), p, q);
    }
}

/// A pass leaves the index in sync with the corpus: afterwards the index
/// stores, for every parsed file, the hash of its current content.
pub proof fn lemma_pass_brings_in_sync(index: Seq<IndexedChunkView>, files: Seq<SourceFileView>)
    requires
        distinct_filenames(files),
    ensures
        in_sync(after_pass(index, files), files),
{
    let stored = indexed_hashes(index);
    let deletions = planned_deletions(stored, files);
    let staged = planned_rows(stored, files);
    let kept = index.filter(survives(deletions));
    let after = after_pass(index, files);
    assert forall|k: int| 0 <= k < files.len() && (#[trigger] files[k]).parsed.is_some() implies lookup(
        indexed_hashes(after),
        files[k].parsed->0.source_filename,
    ) == Some(content_hash(files[k].content)) by {
        let filename = files[k].parsed->0.source_filename;
        lemma_indexed_hashes(after, filename);
        lemma_indexed_hashes(index, filename);
        lemma_last_hash_concat(kept, staged, filename);
        if needs_update(stored)(files[k]) {
            lemma_staged_hash_present(stored, files, k);
        } else {
            assert(file_action(stored, files[k]) == SyncAction::Skip);
            assert forall|i: int|
                0 <= i < files.len() && needs_update(stored)(
                    #[trigger] files[i],
                ) implies files[i].parsed->0.source_filename != filename by {
                if i < k {
                    assert(files[i].parsed.is_some() && files[k].parsed.is_some());
                } else if i > k {
                    assert(files[k].parsed.is_some() && files[i].parsed.is_some());
                }
            }
            lemma_staged_hash_absent(stored, files, filename);
            if deletions.contains(filename) {
                lemma_deletion_origin(stored, files, filename);
                let i = choose|i: int|
                    0 <= i < files.len() && file_action(stored, #[trigger] files[i])
                        == SyncAction::Replace && files[i].parsed->0.source_filename == filename;
                if i < k {
                    assert(files[i].parsed.is_some() && files[k].parsed.is_some());
                } else if i > k {
                    assert(files[k].parsed.is_some() && files[i].parsed.is_some());
                }
                assert(false);
            }
            lemma_last_hash_filter(index, survives(deletions), filename);
        }
    }
}

/// A pass over a corpus that is in sync with the index plans nothing: no
/// deletion and no row to embed.
pub proof fn lemma_in_sync_plans_nothing(index: Seq<IndexedChunkView>, files: Seq<SourceFileView>)
    requires
        in_sync(index, files),
    ensures
        planned_deletions(indexed_hashes(index), files) == Seq::<Seq<char>>::empty(),
        planned_rows(indexed_hashes(index), files) == Seq::<IndexedChunkView>::empty(),
        apply_plan(
            index,
            planned_deletions(indexed_hashes(index), files),
            planned_rows(indexed_hashes(index), files),
        ) == index,
{
    let stored = indexed_hashes(index);
    assert forall|i: int| 0 <= i < files.len() implies !action_is(stored, SyncAction::Replace)(
        #[trigger] files[i],
    ) by {}
    assert forall|i: int| 0 <= i < files.len() implies !needs_update(stored)(
        #[trigger] files[i],
    ) by {}
    lemma_filter_none(files, action_is(stored, SyncAction::Replace));
    lemma_filter_none(files, needs_update(stored));
    let nothing = Seq::<Seq<char>>::empty();
    assert(planned_deletions(stored, files) =~= nothing);
    assert(planned_rows(stored, files) =~= Seq::<IndexedChunkView>::empty());
    lemma_filter_all(index, survives(nothing));
    assert(index + Seq::<IndexedChunkView>::empty() =~= index);
}

proof fn lemma_filter_all<A>(s: Seq<A>, pred: spec_fn(A) -> bool)
    requires
        forall|i: int| 0 <= i < s.len() ==> pred(#[trigger] s[i]),
    ensures
        s.filter(pred) == s,
    decreases s.len(),
{
    reveal(Seq::filter);
    if s.len() > 0 {
        let rest = s.drop_last();
        assert forall|i: int| 0 <= i < rest.len() implies pred(#[trigger] rest[i]) by {
            assert(rest[i] == s[i]);
        }
        lemma_filter_all(rest, pred);
        assert(s.last() == s[s.len() - 1]);
        assert(rest.push(s.last()) =~= s);
    }
}

/// Idempotence: a second pass over an unchanged corpus embeds nothing and
/// leaves the index as the first pass left it.
pub proof fn lemma_second_pass_is_idle(index: Seq<IndexedChunkView>, files: Seq<SourceFileView>)
    requires
        distinct_filenames(files),
    ensures
        planned_deletions(indexed_hashes(after_pass(index, files)), files) == Seq::<
            Seq<char>,
        >::empty(),
        planned_rows(indexed_hashes(after_pass(index, files)), files) == Seq::<
            IndexedChunkView,
        >::empty(),
        after_pass(after_pass(index, files), files) == after_pass(index, files),
{
    lemma_pass_brings_in_sync(index, files);
    lemma_in_sync_plans_nothing(after_pass(index, files), files);
}

/// Hash-triggered update: when the index is in sync with the corpus and one
/// document's content changes so that its hash changes, the next pass
/// deletes the rows of exactly that document and stages exactly its new
/// chunks; the rows of every other document stay as they are, in order.
pub proof fn lemma_changed_document_is_replaced(
    index: Seq<IndexedChunkView>,
    files: Seq<SourceFileView>,
    k: int,
    changed: SourceFileView,
)
    requires
        in_sync(index, files),
        0 <= k < files.len(),
        files[k].parsed.is_some(),
        changed.parsed.is_some(),
        changed.parsed->0.source_filename == files[k].parsed->0.source_filename,
        content_hash(changed.content) != content_hash(files[k].content),
    ensures
        planned_deletions(indexed_hashes(index), files.update(k, changed)) == seq![
            changed.parsed->0.source_filename,
        ],
        planned_rows(indexed_hashes(index), files.update(k, changed)) == rows_of(changed),
        after_pass(index, files.update(k, changed)) == index.filter(
            other_than(changed.parsed->0.source_filename),
        ) + rows_of(changed),
{
    let stored = indexed_hashes(index);
    let now = files.update(k, changed);
    let filename = changed.parsed->0.source_filename;
    assert(file_action(stored, files[k]) == SyncAction::Skip);
    assert(file_action(stored, changed) == SyncAction::Replace);
    assert forall|i: int| 0 <= i < now.len() && i != k implies !action_is(
        stored,
        SyncAction::Replace,
    )(#[trigger] now[i]) by {
        assert(now[i] == files[i]);
    }
    assert forall|i: int| 0 <= i < now.len() && i != k implies !needs_update(stored)(
        #[trigger] now[i],
    ) by {
        assert(now[i] == files[i]);
    }
    lemma_filter_single(now, action_is(stored, SyncAction::Replace), k);
    lemma_filter_single(now, needs_update(stored), k);
    assert(seq![changed].map_values(filename_of()) =~= seq![filename]);
    assert(seq![changed].map_values(staging()) =~= seq![rows_of(changed)]);
    seq![rows_of(changed)].lemma_flatten_singleton();
    assert forall|row: IndexedChunkView| #[trigger]
        survives(seq![filename])(row) == other_than(filename)(row) by {
        if row.source_file == filename {
            assert(seq![filename][0] == row.source_file);
        }
    }
    lemma_filter_same(index, survives(seq![filename]), other_than(filename));
}

/// The rows of one document.
pub open spec fn from_file(filename: Seq<char>) -> spec_fn(IndexedChunkView) -> bool {
    |row: IndexedChunkView| row.source_file == filename
}

/// The rows the index holds for a document, in order.
pub open spec fn rows_for(index: Seq<IndexedChunkView>, filename: Seq<char>) -> Seq<
    IndexedChunkView,
> {
    index.filter(from_file(filename))
}

/// The pass stages rows for this filename.
pub open spec fn is_staged(
    stored: Seq<(Seq<char>, Seq<char>)>,
    files: Seq<SourceFileView>,
    filename: Seq<char>,
) -> bool {
    exists|i: int|
        0 <= i < files.len() && needs_update(stored)(#[trigger] files[i])
            && files[i].parsed->0.source_filename == filename
}

proof fn lemma_filter_within<A>(s: Seq<A>, p: spec_fn(A) -> bool, q: spec_fn(A) -> bool)
    requires
        forall|x: A| #[trigger] q(x) ==> p(x),
    ensures
        s.filter(p).filter(q) == s.filter(q),
    decreases s.len(),
{
    reveal(Seq::filter);
    if s.len() > 0 {
        let rest = s.drop_last();
        lemma_filter_within(rest, p, q);
        if p(s.last()) {
            rest.filter(p).lemma_filter_push(s.last(), q);
        }
    }
}

proof fn lemma_filter_without<A>(s: Seq<A>, p: spec_fn(A) -> bool, q: spec_fn(A) -> bool)
    requires
        forall|x: A| #[trigger] q(x) ==> !p(x),
    ensures
        s.filter(p).filter(q) == Seq::<A>::empty(),
    decreases s.len(),
{
    reveal(Seq::filter);
    if s.len() > 0 {
        let rest = s.drop_last();
        lemma_filter_without(rest, p, q);
        if p(s.last()) {
            rest.filter(p).lemma_filter_push(s.last(), q);
        }
    } else {
        assert(s.filter(p).filter(q) =~= Seq::<A>::empty());
    }
}

proof fn lemma_unknown_file_has_no_rows(index: Seq<IndexedChunkView>, filename: Seq<char>)
    requires
        last_hash(index, filename).is_none(),
    ensures
        rows_for(index, filename) == Seq::<IndexedChunkView>::empty(),
    decreases index.len(),
{
    reveal(Seq::filter);
    if index.len() > 0 {
        lemma_unknown_file_has_no_rows(index.drop_last(), filename);
    } else {
        assert(rows_for(index, filename) =~= Seq::<IndexedChunkView>::empty());
    }
}

proof fn lemma_rows_of_one_file(file: SourceFileView, filename: Seq<char>)
    ensures
        rows_for(rows_of(file), filename) == if file.parsed.is_some()
            && file.parsed->0.source_filename == filename {
            rows_of(file)
        } else {
            Seq::empty()
        },
{
    let rows = rows_of(file);
    if file.parsed.is_some() && file.parsed->0.source_filename == filename {
        lemma_filter_all(rows, from_file(filename));
    } else {
        lemma_filter_none(rows, from_file(filename));
    }
}

proof fn lemma_staged_rows_absent(
    stored: Seq<(Seq<char>, Seq<char>)>,
    files: Seq<SourceFileView>,
    filename: Seq<char>,
)
    requires
        !is_staged(stored, files, filename),
    ensures
        rows_for(planned_rows(stored, files), filename) == Seq::<IndexedChunkView>::empty(),
    decreases files.len(),
{
    if files.len() == 0 {
        reveal(Seq::filter);
        assert(planned_rows(stored, files) =~= Seq::<IndexedChunkView>::empty());
        assert(rows_for(planned_rows(stored, files), filename) =~= Seq::<
            IndexedChunkView,
        >::empty());
    } else {
        let rest = files.drop_last();
        let last = files.last();
        assert(!is_staged(stored, rest, filename)) by {
            if is_staged(stored, rest, filename) {
                let i = choose|i: int|
                    0 <= i < rest.len() && needs_update(stored)(#[trigger] rest[i])
                        && rest[i].parsed->0.source_filename == filename;
                assert(files[i] == rest[i]);
            }
        }
        lemma_staged_rows_absent(stored, rest, filename);
        lemma_planned_rows_step(stored, files);
        let added = if needs_update(stored)(last) {
            rows_of(last)
        } else {
            Seq::empty()
        };
        Seq::filter_distributes_over_add(planned_rows(stored, rest), added, from_file(filename));
        if needs_update(stored)(last) {
            assert(last == files[files.len() - 1]);
            lemma_rows_of_one_file(last, filename);
        } else {
            lemma_filter_none(added, from_file(filename));
        }
    }
}

proof fn lemma_staged_rows_present(
    stored: Seq<(Seq<char>, Seq<char>)>,
    files: Seq<SourceFileView>,
    k: int,
)
    requires
        distinct_filenames(files),
        0 <= k < files.len(),
        needs_update(stored)(files[k]),
    ensures
        rows_for(planned_rows(stored, files), files[k].parsed->0.source_filename) == rows_of(
            files[k],
        ),
    decreases files.len(),
{
    let filename = files[k].parsed->0.source_filename;
    let rest = files.drop_last();
    let last = files.last();
    lemma_planned_rows_step(stored, files);
    let added = if needs_update(stored)(last) {
        rows_of(last)
    } else {
        Seq::empty()
    };
    Seq::filter_distributes_over_add(planned_rows(stored, rest), added, from_file(filename));
    if k == files.len() - 1 {
        assert(!is_staged(stored, rest, filename)) by {
            if is_staged(stored, rest, filename) {
                let i = choose|i: int|
                    0 <= i < rest.len() && needs_update(stored)(#[trigger] rest[i])
                        && rest[i].parsed->0.source_filename == filename;
                assert(files[i] == rest[i]);
                assert(files[i].parsed.is_some() && files[k].parsed.is_some());
            }
        }
        lemma_staged_rows_absent(stored, rest, filename);
        lemma_rows_of_one_file(last, filename);
        assert(Seq::<IndexedChunkView>::empty() + rows_of(last) =~= rows_of(last));
    } else {
        assert(rest[k] == files[k]);
        assert forall|i: int, j: int|
            0 <= i < j < rest.len() && (#[trigger] rest[i]).parsed.is_some() && (
            #[trigger] rest[j]).parsed.is_some() implies rest[i].parsed->0.source_filename
            != rest[j].parsed->0.source_filename by {
            assert(rest[i] == files[i]);
            assert(rest[j] == files[j]);
        }
        lemma_staged_rows_present(stored, rest, k);
        if needs_update(stored)(last) {
            assert(last == files[files.len() - 1]);
            assert(files[k].parsed.is_some() && files[files.len() - 1].parsed.is_some());
            lemma_rows_of_one_file(last, filename);
        } else {
            lemma_filter_none(added, from_file(filename));
        }
        assert(rows_of(files[k]) + Seq::<IndexedChunkView>::empty() =~= rows_of(files[k]));
    }
}

/// After a pass, a document whose chunks were staged is represented in the
/// index exactly once: the rows of its filename are the rows of its current
/// content, all under its current hash. No row of an earlier version stays
/// beside them.
pub proof fn lemma_updated_document_is_represented(
    index: Seq<IndexedChunkView>,
    files: Seq<SourceFileView>,
    k: int,
)
    requires
        distinct_filenames(files),
        0 <= k < files.len(),
        needs_update(indexed_hashes(index))(files[k]),
    ensures
        rows_for(after_pass(index, files), files[k].parsed->0.source_filename) == rows_of(
            files[k],
        ),
{
    let stored = indexed_hashes(index);
    let deletions = planned_deletions(stored, files);
    let staged = planned_rows(stored, files);
    let filename = files[k].parsed->0.source_filename;
    let kept = index.filter(survives(deletions));
    Seq::filter_distributes_over_add(kept, staged, from_file(filename));
    lemma_staged_rows_present(stored, files, k);
    lemma_indexed_hashes(index, filename);
    if file_action(stored, files[k]) == SyncAction::Insert {
        lemma_unknown_file_has_no_rows(index, filename);
        lemma_filter_commutes(index, survives(deletions), from_file(filename));
        lemma_filter_none(Seq::<IndexedChunkView>::empty(), survives(deletions));
    } else {
        let replaced = files.filter(action_is(stored, SyncAction::Replace));
        lemma_filter_keeps(files, action_is(stored, SyncAction::Replace), k);
        let at = choose|at: int| 0 <= at < replaced.len() && replaced[at] == files[k];
        assert(deletions[at] == filename);
        assert(deletions.contains(filename));
        assert forall|row: IndexedChunkView| #[trigger]
            from_file(filename)(row) implies !survives(deletions)(row) by {}
        lemma_filter_without(index, survives(deletions), from_file(filename));
    }
    assert(Seq::<IndexedChunkView>::empty() + rows_of(files[k]) =~= rows_of(files[k]));
}

proof fn lemma_filter_commutes<A>(s: Seq<A>, p: spec_fn(A) -> bool, q: spec_fn(A) -> bool)
    ensures
        s.filter(p).filter(q) == s.filter(q).filter(p),
    decreases s.len(),
{
    reveal(Seq::filter);
    if s.len() > 0 {
        let rest = s.drop_last();
        lemma_filter_commutes(rest, p, q);
        if p(s.last()) {
            rest.filter(p).lemma_filter_push(s.last(), q);
        }
        if q(s.last()) {
            rest.filter(q).lemma_filter_push(s.last(), p);
        }
    }
}

proof fn lemma_filter_keeps<A>(s: Seq<A>, pred: spec_fn(A) -> bool, k: int)
    requires
        0 <= k < s.len(),
        pred(s[k]),
    ensures
        exists|at: int| 0 <= at < s.filter(pred).len() && s.filter(pred)[at] == s[k],
    decreases s.len(),
{
    reveal(Seq::filter);
    let rest = s.drop_last();
    if k == s.len() - 1 {
        let at = rest.filter(pred).len() as int;
        assert(s.filter(pred)[at] == s[k]);
    } else {
        assert(rest[k] == s[k]);
        lemma_filter_keeps(rest, pred, k);
        let at = choose|at: int| 0 <= at < rest.filter(pred).len() && rest.filter(pred)[at] == s[k];
        assert(s.filter(pred)[at] == s[k]);
    }
}

/// A pass does not touch the rows of a filename for which it stages
/// nothing: the rows of unchanged documents, and of documents that are not
/// in the corpus, stay as they are, in order.
pub proof fn lemma_other_documents_are_untouched(
    index: Seq<IndexedChunkView>,
    files: Seq<SourceFileView>,
    filename: Seq<char>,
)
    requires
        !is_staged(indexed_hashes(index), files, filename),
    ensures
        rows_for(after_pass(index, files), filename) == rows_for(index, filename),
{
    let stored = indexed_hashes(index);
    let deletions = planned_deletions(stored, files);
    let staged = planned_rows(stored, files);
    let kept = index.filter(survives(deletions));
    Seq::filter_distributes_over_add(kept, staged, from_file(filename));
    lemma_staged_rows_absent(stored, files, filename);
    if deletions.contains(filename) {
        lemma_deletion_origin(stored, files, filename);
        let i = choose|i: int|
            0 <= i < files.len() && file_action(stored, #[trigger] files[i]) == SyncAction::Replace
                && files[i].parsed->0.source_filename == filename;
        assert(needs_update(stored)(files[i]));
        assert(false);
    }
    assert forall|row: IndexedChunkView| #[trigger]
        from_file(filename)(row) implies survives(deletions)(row) by {}
    lemma_filter_within(index, survives(deletions), from_file(filename));
    assert(rows_for(index, filename) + Seq::<IndexedChunkView>::empty() =~= rows_for(
        index,
        filename,
    ));
}

/// The index after the first `n` steps of a write plan were carried out one
/// after the other: a step that deletes first removes the rows of its file,
/// then every step appends its rows.
pub open spec fn carried_out(
    index: Seq<IndexedChunkView>,
    steps: Seq<WriteStep>,
    rows: Seq<IndexedChunkView>,
    n: nat,
) -> Seq<IndexedChunkView>
    decreases n,
{
    if n == 0 {
        index
    } else {
        let before = carried_out(index, steps, rows, (n - 1) as nat);
        let step = steps[n - 1];
        let cleared = if step.delete_first {
            before.filter(other_than(step_source(steps, rows, n - 1)))
        } else {
            before
        };
        cleared + rows.subrange(step.from as int, step.to as int)
    }
}

/// Every filename whose rows are deleted has rows among the staged ones.
pub open spec fn deletions_are_staged(
    deletions: Seq<Seq<char>>,
    rows: Seq<IndexedChunkView>,
) -> bool {
    forall|name: Seq<char>| #[trigger] deletions.contains(name) ==> has_row_of(rows, name)
}

/// Some row belongs to the file.
pub open spec fn has_row_of(rows: Seq<IndexedChunkView>, name: Seq<char>) -> bool {
    exists|r: int| 0 <= r < rows.len() && (#[trigger] rows[r]).source_file == name
}

/// One of the first `n` steps writes rows of the file.
pub open spec fn written_before(
    steps: Seq<WriteStep>,
    rows: Seq<IndexedChunkView>,
    n: int,
    name: Seq<char>,
) -> bool {
    exists|j: int| 0 <= j < n && #[trigger] step_source(steps, rows, j) == name
}

/// The rows of the index that the first `n` steps leave alone.
pub open spec fn spared(
    deletions: Seq<Seq<char>>,
    steps: Seq<WriteStep>,
    rows: Seq<IndexedChunkView>,
    n: int,
) -> spec_fn(IndexedChunkView) -> bool {
    |row: IndexedChunkView|
        !(deletions.contains(row.source_file) && written_before(steps, rows, n, row.source_file))
}

/// How many staged rows the first `n` steps have written.
pub open spec fn written_upto(steps: Seq<WriteStep>, n: int) -> int {
    if n == 0 {
        0
    } else {
        steps[n - 1].to as int
    }
}

proof fn lemma_runs_cover(runs: Seq<(usize, usize)>, rows: Seq<IndexedChunkView>, k: int, r: int)
    requires
        is_run_cut(runs, rows),
        0 <= k < runs.len(),
        0 <= r < runs[k].1,
    ensures
        exists|j: int| 0 <= j <= k && (#[trigger] runs[j]).0 <= r < runs[j].1,
    decreases k,
{
    if r >= runs[k].0 {
    } else {
        assert(k > 0);
        assert(runs[k - 1].1 == runs[k].0);
        lemma_runs_cover(runs, rows, k - 1, r);
    }
}

proof fn lemma_filter_both<A>(
    s: Seq<A>,
    p: spec_fn(A) -> bool,
    q: spec_fn(A) -> bool,
    both: spec_fn(A) -> bool,
)
    requires
        forall|x: A| #[trigger] both(x) == (p(x) && q(x)),
    ensures
        s.filter(p).filter(q) == s.filter(both),
    decreases s.len(),
{
    reveal(Seq::filter);
    if s.len() > 0 {
        let rest = s.drop_last();
        lemma_filter_both(rest, p, q, both);
        if p(s.last()) {
            rest.filter(p).lemma_filter_push(s.last(), q);
        }
    }
}

proof fn lemma_step_bounds(
    steps: Seq<WriteStep>,
    deletions: Seq<Seq<char>>,
    rows: Seq<IndexedChunkView>,
    m: int,
)
    requires
        is_write_plan(steps, deletions, rows),
        0 <= m < steps.len(),
    ensures
        steps[m].from == written_upto(steps, m),
        steps[m].from < steps[m].to <= rows.len(),
        steps[m].delete_first == (deletions.contains(step_source(steps, rows, m))
            && first_step_of_file(steps, rows, m)),
{
    let runs = step_ranges(steps);
    assert(runs[m] == (steps[m].from, steps[m].to));
    assert(runs[m].0 < runs[m].1 <= rows.len());
    if m > 0 {
        assert(runs[m - 1].1 == runs[m].0);
        assert(runs[m - 1] == (steps[m - 1].from, steps[m - 1].to));
    }
}

proof fn lemma_rows_before_first_step(
    steps: Seq<WriteStep>,
    deletions: Seq<Seq<char>>,
    rows: Seq<IndexedChunkView>,
    m: int,
    r: int,
)
    requires
        is_write_plan(steps, deletions, rows),
        0 <= m < steps.len(),
        first_step_of_file(steps, rows, m),
        0 <= r < steps[m].from,
    ensures
        rows[r].source_file != step_source(steps, rows, m),
{
    let runs = step_ranges(steps);
    assert(runs[m] == (steps[m].from, steps[m].to));
    assert(m > 0);
    assert(runs[m - 1].1 == runs[m].0);
    lemma_runs_cover(runs, rows, m - 1, r);
    let j = choose|j: int| 0 <= j <= m - 1 && (#[trigger] runs[j]).0 <= r < runs[j].1;
    assert(runs[j] == (steps[j].from, steps[j].to));
    assert(rows[r].source_file == rows[runs[j].0 as int].source_file);
    assert(step_source(steps, rows, j) != step_source(steps, rows, m));
}

proof fn lemma_spared_after_delete(
    steps: Seq<WriteStep>,
    deletions: Seq<Seq<char>>,
    rows: Seq<IndexedChunkView>,
    m: int,
    row: IndexedChunkView,
)
    requires
        0 <= m,
        deletions.contains(step_source(steps, rows, m)),
    ensures
        spared(deletions, steps, rows, m + 1)(row) == (spared(deletions, steps, rows, m)(row)
            && other_than(step_source(steps, rows, m))(row)),
{
    let name = step_source(steps, rows, m);
    if row.source_file == name {
        assert(step_source(steps, rows, m) == row.source_file);
        assert(written_before(steps, rows, m + 1, row.source_file));
    } else {
        if written_before(steps, rows, m + 1, row.source_file) {
            let j = choose|j: int|
                0 <= j < m + 1 && #[trigger] step_source(steps, rows, j) == row.source_file;
            assert(j < m);
        }
        if written_before(steps, rows, m, row.source_file) {
            let j = choose|j: int|
                0 <= j < m && #[trigger] step_source(steps, rows, j) == row.source_file;
            assert(j < m + 1);
        }
    }
}

proof fn lemma_spared_without_delete(
    steps: Seq<WriteStep>,
    deletions: Seq<Seq<char>>,
    rows: Seq<IndexedChunkView>,
    m: int,
    row: IndexedChunkView,
)
    requires
        0 <= m,
        !(deletions.contains(step_source(steps, rows, m)) && first_step_of_file(steps, rows, m)),
    ensures
        spared(deletions, steps, rows, m)(row) == spared(deletions, steps, rows, m + 1)(row),
{
    if written_before(steps, rows, m, row.source_file) {
        let j = choose|j: int|
            0 <= j < m && #[trigger] step_source(steps, rows, j) == row.source_file;
        assert(j < m + 1);
    }
    if written_before(steps, rows, m + 1, row.source_file) && deletions.contains(row.source_file) {
        let j = choose|j: int|
            0 <= j < m + 1 && #[trigger] step_source(steps, rows, j) == row.source_file;
        if j == m {
            assert(!first_step_of_file(steps, rows, m));
            let e = choose|e: int|
                0 <= e < m && step_source(steps, rows, e) == step_source(steps, rows, m);
            assert(step_source(steps, rows, e) == row.source_file);
        }
    }
}

proof fn lemma_carried_out(
    index: Seq<IndexedChunkView>,
    steps: Seq<WriteStep>,
    deletions: Seq<Seq<char>>,
    rows: Seq<IndexedChunkView>,
    n: nat,
)
    requires
        is_write_plan(steps, deletions, rows),
        n <= steps.len(),
    ensures
        carried_out(index, steps, rows, n) == index.filter(spared(deletions, steps, rows, n as int))
            + rows.take(written_upto(steps, n as int)),
    decreases n,
{
    if n == 0 {
        lemma_filter_all(index, spared(deletions, steps, rows, 0));
        assert(index + rows.take(0) =~= index);
    } else {
        let m = (n - 1) as int;
        lemma_carried_out(index, steps, deletions, rows, m as nat);
        lemma_step_bounds(steps, deletions, rows, m);
        let step = steps[m];
        let name = step_source(steps, rows, m);
        let old_spared = spared(deletions, steps, rows, m);
        let new_spared = spared(deletions, steps, rows, m + 1);
        let from = step.from as int;
        let to = step.to as int;
        let kept = index.filter(old_spared);
        let written = rows.take(from);
        assert(written + rows.subrange(from, to) =~= rows.take(to));
        if step.delete_first {
            Seq::filter_distributes_over_add(kept, written, other_than(name));
            assert forall|r: int| 0 <= r < written.len() implies other_than(name)(
                #[trigger] written[r],
            ) by {
                lemma_rows_before_first_step(steps, deletions, rows, m, r);
            }
            lemma_filter_all(written, other_than(name));
            assert forall|row: IndexedChunkView| #[trigger]
                new_spared(row) == (old_spared(row) && other_than(name)(row)) by {
                lemma_spared_after_delete(steps, deletions, rows, m, row);
            }
            lemma_filter_both(index, old_spared, other_than(name), new_spared);
            assert((kept + written).filter(other_than(name)) + rows.subrange(from, to)
                =~= index.filter(new_spared) + rows.take(to));
        } else {
            assert forall|row: IndexedChunkView| #[trigger] old_spared(row) == new_spared(row) by {
                lemma_spared_without_delete(steps, deletions, rows, m, row);
            }
            lemma_filter_same(index, old_spared, new_spared);
            assert((kept + written) + rows.subrange(from, to) =~= index.filter(new_spared)
                + rows.take(to));
        }
    }
}

/// Carrying out the steps of a write plan one after the other leaves the
/// index exactly as the plan asks: the rows of the deleted filenames are
/// gone, the staged rows are appended, and no step has removed what an
/// earlier step wrote.
pub proof fn lemma_steps_carry_out_the_plan(
    index: Seq<IndexedChunkView>,
    steps: Seq<WriteStep>,
    deletions: Seq<Seq<char>>,
    rows: Seq<IndexedChunkView>,
)
    requires
        is_write_plan(steps, deletions, rows),
        deletions_are_staged(deletions, rows),
    ensures
        carried_out(index, steps, rows, steps.len()) == apply_plan(index, deletions, rows),
{
    let n = steps.len();
    let runs = step_ranges(steps);
    lemma_carried_out(index, steps, deletions, rows, n);
    assert(written_upto(steps, n as int) == rows.len()) by {
        if n > 0 {
            assert(runs.last() == (steps[n - 1].from, steps[n - 1].to));
        }
    }
    assert(rows.take(rows.len() as int) =~= rows);
    assert forall|row: IndexedChunkView| #[trigger]
        spared(deletions, steps, rows, n as int)(row) == survives(deletions)(row) by {
        if deletions.contains(row.source_file) {
            assert(has_row_of(rows, row.source_file));
            let r = choose|r: int|
                0 <= r < rows.len() && (#[trigger] rows[r]).source_file == row.source_file;
            assert(n > 0);
            assert(runs.last().1 == rows.len());
            lemma_runs_cover(runs, rows, n - 1, r);
            let j = choose|j: int| 0 <= j <= n - 1 && (#[trigger] runs[j]).0 <= r < runs[j].1;
            assert(runs[j] == (steps[j].from, steps[j].to));
            assert(rows[r].source_file == rows[runs[j].0 as int].source_file);
            assert(step_source(steps, rows, j) == row.source_file);
            assert(written_before(steps, rows, n as int, row.source_file));
        }
    }
    lemma_filter_same(index, spared(deletions, steps, rows, n as int), survives(deletions));
}

proof fn lemma_staged_has_row(
    stored: Seq<(Seq<char>, Seq<char>)>,
    files: Seq<SourceFileView>,
    k: int,
)
    requires
        0 <= k < files.len(),
        needs_update(stored)(files[k]),
    ensures
        has_row_of(planned_rows(stored, files), files[k].parsed->0.source_filename),
    decreases files.len(),
{
    let name = files[k].parsed->0.source_filename;
    let rest = files.drop_last();
    let last = files.last();
    lemma_planned_rows_step(stored, files);
    let earlier = planned_rows(stored, rest);
    if k == files.len() - 1 {
        lemma_document_chunks_nonempty(last.parsed->0);
        let all = earlier + rows_of(last);
        assert(all[earlier.len() as int] == rows_of(last)[0]);
    } else {
        assert(rest[k] == files[k]);
        lemma_staged_has_row(stored, rest, k);
        let r = choose|r: int| 0 <= r < earlier.len() && (#[trigger] earlier[r]).source_file == name;
        assert(planned_rows(stored, files)[r] == earlier[r]);
    }
}

/// What a pass plans can be written step by step: every filename it deletes
/// has staged rows, so the steps of `write_steps` leave the index as
/// `after_pass` describes it.
pub proof fn lemma_planned_deletions_are_staged(
    stored: Seq<(Seq<char>, Seq<char>)>,
    files: Seq<SourceFileView>,
)
    ensures
        deletions_are_staged(planned_deletions(stored, files), planned_rows(stored, files)),
{
    assert forall|name: Seq<char>| #[trigger]
        planned_deletions(stored, files).contains(name) implies has_row_of(
        planned_rows(stored, files),
        name,
    ) by {
        lemma_deletion_origin(stored, files, name);
        let i = choose|i: int|
            0 <= i < files.len() && file_action(stored, #[trigger] files[i]) == SyncAction::Replace
                && files[i].parsed->0.source_filename == name;
        lemma_staged_has_row(stored, files, i);
    }
}

/// After a pass, every row of a document whose chunks were staged is
/// current: it carries the hash of the document's present content, and its
/// text is one of the document's present chunks. A text that only an
/// earlier version had is in no row of that document any more.
pub proof fn lemma_updated_rows_are_current(
    index: Seq<IndexedChunkView>,
    files: Seq<SourceFileView>,
    k: int,
    r: int,
)
    requires
        distinct_filenames(files),
        0 <= k < files.len(),
        needs_update(indexed_hashes(index))(files[k]),
        0 <= r < after_pass(index, files).len(),
        after_pass(index, files)[r].source_file == files[k].parsed->0.source_filename,
    ensures
        after_pass(index, files)[r].file_hash == content_hash(files[k].content),
        document_chunks(files[k].parsed->0).contains(after_pass(index, files)[r].text),
{
    let after = after_pass(index, files);
    let filename = files[k].parsed->0.source_filename;
    let current = rows_of(files[k]);
    lemma_updated_document_is_represented(index, files, k);
    after.lemma_filter_contains(from_file(filename), r);
    assert(current.contains(after[r]));
    let i = choose|i: int| 0 <= i < current.len() && current[i] == after[r];
    assert(document_chunks(files[k].parsed->0)[i] == after[r].text);
}

} // verus!
