//! Planning a synchronisation pass of the vector index with the corpus.
//!
//! A pass compares every document's content hash with the hash stored in the
//! index under the document's filename. Documents that are new or whose hash
//! differs are staged for embedding; those that replace an indexed version
//! have their old rows deleted first. Documents with an unchanged hash cause
//! no work at all.

use crate::assembly::{
    chunk_document, document_chunks, summarize, summary_of, ProductSummary, ProductSummaryView,
};
use crate::chunking::{has_content, trimming};
use crate::digest::{calculate_hash, content_hash};
use crate::intent::{row_condition, row_filter};
use crate::models::{
    synonym_views, PolicyData, PolicyDataView, SynonymEntry, SynonymEntryView,
};
use crate::table::{lookup, put, Table};
use crate::text::{split, split_on, trim, views};
use vstd::prelude::*;

verus! {

/// A row of the vector index, without its embedding.
#[derive(Debug, Clone)]
pub struct IndexedChunk {
    pub source_file: String,
    pub file_hash: String,
    pub text: String,
}

/// The view of [`IndexedChunk`]: every string as its character sequence.
pub struct IndexedChunkView {
    pub source_file: Seq<char>,
    pub file_hash: Seq<char>,
    pub text: Seq<char>,
}

impl View for IndexedChunk {
    type V = IndexedChunkView;

    open spec fn view(&self) -> IndexedChunkView {
        IndexedChunkView {
            source_file: self.source_file@,
            file_hash: self.file_hash@,
            text: self.text@,
        }
    }
}

/// The views of a sequence of rows.
pub open spec fn chunk_views(rows: Seq<IndexedChunk>) -> Seq<IndexedChunkView> {
    Seq::new(rows.len(), |i: int| rows[i]@)
}

/// A file of the corpus directory: its raw content and, if the content could
/// be parsed, the document it holds.
#[derive(Debug, Clone)]
pub struct SourceFile {
    pub content: String,
    pub parsed: Option<PolicyData>,
}

/// The view of [`SourceFile`]: every string as its character sequence.
pub struct SourceFileView {
    pub content: Seq<char>,
    pub parsed: Option<PolicyDataView>,
}

impl View for SourceFile {
    type V = SourceFileView;

    open spec fn view(&self) -> SourceFileView {
        SourceFileView {
            content: self.content@,
            parsed: match self.parsed {
                Some(d) => Some(d@),
                None => None,
            },
        }
    }
}

/// The views of a sequence of files.
pub open spec fn file_views(files: Seq<SourceFile>) -> Seq<SourceFileView> {
    Seq::new(files.len(), |i: int| files[i]@)
}

/// The views of (filename, hash) pairs read from the index.
pub open spec fn pair_views(pairs: Seq<(String, String)>) -> Seq<(Seq<char>, Seq<char>)> {
    Seq::new(pairs.len(), |i: int| (pairs[i].0@, pairs[i].1@))
}

/// The hash stored for each filename by a sequence of (filename, hash)
/// pairs. Where a filename occurs more than once, its last pair counts.
pub open spec fn stored_hashes(pairs: Seq<(Seq<char>, Seq<char>)>) -> Seq<(Seq<char>, Seq<char>)>
    decreases pairs.len(),
{
    if pairs.len() == 0 {
        Seq::empty()
    } else {
        put(stored_hashes(pairs.drop_last()), pairs.last().0, pairs.last().1)
    }
}

/// What a pass does with one file.
#[derive(Debug, Clone, Copy, PartialEq, Eq, Structural)]
pub enum SyncAction {
    /// The file could not be parsed; it is counted and otherwise ignored.
    Unparsed,
    /// The document is indexed under its current hash.
    Skip,
    /// The document is not indexed yet.
    Insert,
    /// The document is indexed under another hash.
    Replace,
}

/// What a pass does with `file`, given the hashes stored in the index.
pub open spec fn file_action(stored: Seq<(Seq<char>, Seq<char>)>, file: SourceFileView) -> SyncAction {
    match file.parsed {
        None => SyncAction::Unparsed,
        Some(d) => match lookup(stored, d.source_filename) {
            None => SyncAction::Insert,
            Some(hash) => if hash == content_hash(file.content) {
                SyncAction::Skip
            } else {
                SyncAction::Replace
            },
        },
    }
}

/// The files on which a pass takes the given action.
pub open spec fn action_is(stored: Seq<(Seq<char>, Seq<char>)>, action: SyncAction) -> spec_fn(
    SourceFileView,
) -> bool {
    |file: SourceFileView| file_action(stored, file) == action
}

/// The files whose chunks a pass embeds.
pub open spec fn needs_update(stored: Seq<(Seq<char>, Seq<char>)>) -> spec_fn(
    SourceFileView,
) -> bool {
    |file: SourceFileView|
        file_action(stored, file) == SyncAction::Insert || file_action(stored, file)
            == SyncAction::Replace
}

/// The filename of the document a file holds.
pub open spec fn filename_of() -> spec_fn(SourceFileView) -> Seq<char> {
    |file: SourceFileView| file.parsed->0.source_filename
}

/// The rows a file is indexed under: one per chunk of its document, each
/// tagged with the filename and the content hash of the file.
pub open spec fn rows_of(file: SourceFileView) -> Seq<IndexedChunkView> {
    match file.parsed {
        Some(d) => Seq::new(
            document_chunks(d).len(),
            |i: int|
                IndexedChunkView {
                    source_file: d.source_filename,
                    file_hash: content_hash(file.content),
                    text: document_chunks(d)[i],
                },
        ),
        None => Seq::empty(),
    }
}

/// `rows_of` as a function value.
pub open spec fn staging() -> spec_fn(SourceFileView) -> Seq<IndexedChunkView> {
    |file: SourceFileView| rows_of(file)
}

/// The filenames whose indexed rows a pass deletes, in file order.
pub open spec fn planned_deletions(
    stored: Seq<(Seq<char>, Seq<char>)>,
    files: Seq<SourceFileView>,
) -> Seq<Seq<char>> {
    files.filter(action_is(stored, SyncAction::Replace)).map_values(filename_of())
}

/// The rows a pass embeds and inserts, in file order.
pub open spec fn planned_rows(
    stored: Seq<(Seq<char>, Seq<char>)>,
    files: Seq<SourceFileView>,
) -> Seq<IndexedChunkView> {
    files.filter(needs_update(stored)).map_values(staging()).flatten()
}

/// The summaries of the parsed documents, by filename.
pub open spec fn summary_entries(files: Seq<SourceFileView>) -> Seq<(Seq<char>, ProductSummaryView)>
    decreases files.len(),
{
    if files.len() == 0 {
        Seq::empty()
    } else {
        let before = summary_entries(files.drop_last());
        match files.last().parsed {
            Some(d) => put(before, d.source_filename, summary_of(d)),
            None => before,
        }
    }
}

/// The characters that separate colloquial terms listed in one entry.
pub open spec fn slang_separators() -> Seq<char> {
    seq!['、', ',']
}

/// The colloquial terms of one entry: its pieces between separators,
/// trimmed, without the blank ones.
pub open spec fn slang_terms(slang: Seq<char>) -> Seq<Seq<char>> {
    split_on(slang, slang_separators()).map_values(trimming()).filter(has_content())
}

/// The synonym table after mapping each of `terms` to `formal`.
pub open spec fn put_terms(
    table: Seq<(Seq<char>, Seq<char>)>,
    terms: Seq<Seq<char>>,
    formal: Seq<char>,
) -> Seq<(Seq<char>, Seq<char>)>
    decreases terms.len(),
{
    if terms.len() == 0 {
        table
    } else {
        put(put_terms(table, terms.drop_last(), formal), terms.last(), formal)
    }
}

/// The synonym table after the entries of one document.
pub open spec fn put_mapping(
    table: Seq<(Seq<char>, Seq<char>)>,
    mapping: Seq<SynonymEntryView>,
) -> Seq<(Seq<char>, Seq<char>)>
    decreases mapping.len(),
{
    if mapping.len() == 0 {
        table
    } else {
        put_terms(
            put_mapping(table, mapping.drop_last()),
            slang_terms(mapping.last().slang),
            mapping.last().formal,
        )
    }
}

/// The synonym table of the corpus: the mappings of all parsed documents in
/// file order, a later mapping of a term replacing an earlier one.
pub open spec fn synonym_entries(files: Seq<SourceFileView>) -> Seq<(Seq<char>, Seq<char>)>
    decreases files.len(),
{
    if files.len() == 0 {
        Seq::empty()
    } else {
        let before = synonym_entries(files.drop_last());
        match files.last().parsed {
            Some(d) => match d.rag_data.synonym_mapping {
                Some(mapping) => put_mapping(before, mapping),
                None => before,
            },
            None => before,
        }
    }
}

/// The outcome of planning a pass.
pub struct SyncPlan {
    /// Filenames whose rows are deleted before anything is inserted.
    pub deletions: Vec<String>,
    /// Rows to embed and insert, in order.
    pub staged: Vec<IndexedChunk>,
    /// The summary of every parsed document.
    pub summaries: Table<ProductSummary>,
    /// The synonym table of the corpus.
    pub synonyms: Table<String>,
    /// How many documents are staged.
    pub updated: usize,
    /// How many documents are unchanged.
    pub skipped: usize,
    /// How many files could not be parsed.
    pub parse_errors: usize,
}

/// Reads the stored hash of every indexed filename from (filename, hash)
/// pairs of index rows.
pub fn load_hashes(pairs: &Vec<(String, String)>) -> (table: Table<String>)
    ensures
        table.wf(),
        table.entries() == stored_hashes(pair_views(pairs@)),
{
    let mut table: Table<String> = Table::new();
    let ghost all = pair_views(pairs@);
    let mut i: usize = 0;
    assert(all.take(0) =~= Seq::<(Seq<char>, Seq<char>)>::empty());
    while i < pairs.len()
        invariant
            i <= pairs.len(),
            all == pair_views(pairs@),
            table.wf(),
            table.entries() == stored_hashes(all.take(i as int)),
        decreases pairs.len() - i,
    {
        proof {
            assert(all.take(i + 1).drop_last() =~= all.take(i as int));
            assert(all.take(i + 1).last() == all[i as int]);
        }
        table.insert(pairs[i].0.clone(), pairs[i].1.clone());
        i += 1;
    }
    assert(all.take(pairs.len() as int) =~= all);
    table
}

fn classify(
    existing: &Table<String>,
    data: &PolicyData,
    hash: &String,
    Ghost(file): Ghost<SourceFileView>,
) -> (action: SyncAction)
    requires
        existing.wf(),
        file.parsed == Some(data@),
        hash@ == content_hash(file.content),
    ensures
        action == file_action(existing.entries(), file),
        action != SyncAction::Unparsed,
{
    match existing.get(data.source_filename.as_str()) {
        None => SyncAction::Insert,
        Some(stored) => {
            if *stored == *hash {
                SyncAction::Skip
            } else {
                SyncAction::Replace
            }
        },
    }
}

/// Decides what a pass does with one file.
pub fn decide(existing: &Table<String>, file: &SourceFile) -> (action: SyncAction)
    requires
        existing.wf(),
    ensures
        action == file_action(existing.entries(), file@),
{
    match &file.parsed {
        None => SyncAction::Unparsed,
        Some(data) => {
            let hash = calculate_hash(file.content.as_str());
            classify(existing, data, &hash, Ghost(file@))
        },
    }
}

fn stage_rows(
    staged: &mut Vec<IndexedChunk>,
    data: &PolicyData,
    hash: &String,
    Ghost(file): Ghost<SourceFileView>,
)
    requires
        file.parsed == Some(data@),
        hash@ == content_hash(file.content),
    ensures
        chunk_views(final(staged)@) == chunk_views(old(staged)@) + rows_of(file),
{
    let chunks = chunk_document(data);
    let ghost before = chunk_views(staged@);
    let ghost rows = rows_of(file);
    let mut i: usize = 0;
    assert(before + rows.take(0) =~= before);
    while i < chunks.len()
        invariant
            i <= chunks.len(),
            views(chunks@) == document_chunks(data@),
            hash@ == content_hash(file.content),
            file.parsed == Some(data@),
            rows == rows_of(file),
            chunk_views(staged@) == before + rows.take(i as int),
        decreases chunks.len() - i,
    {
        let row = IndexedChunk {
            source_file: data.source_filename.clone(),
            file_hash: hash.clone(),
            text: chunks[i].clone(),
        };
        proof {
            assert(views(chunks@)[i as int] == chunks@[i as int]@);
            assert(row@ == rows[i as int]);
            assert(chunk_views(staged@.push(row)) =~= (before + rows.take(i as int)).push(row@));
            assert((before + rows.take(i as int)).push(row@) =~= before + rows.take(i + 1));
        }
        staged.push(row);
        i += 1;
    }
    assert(rows.take(chunks.len() as int) =~= rows);
}

/// The deletions, staged rows and counts of a pass.
pub struct UpdatePlan {
    pub deletions: Vec<String>,
    pub staged: Vec<IndexedChunk>,
    pub updated: usize,
    pub skipped: usize,
    pub parse_errors: usize,
}

/// Plans the index updates of a pass: which filenames lose their rows and
/// which rows are embedded and inserted.
pub fn plan_updates(existing: &Table<String>, files: &Vec<SourceFile>) -> (plan: UpdatePlan)
    requires
        existing.wf(),
    ensures
        views(plan.deletions@) == planned_deletions(existing.entries(), file_views(files@)),
        chunk_views(plan.staged@) == planned_rows(existing.entries(), file_views(files@)),
        plan.updated == file_views(files@).filter(needs_update(existing.entries())).len(),
        plan.skipped == file_views(files@).filter(
            action_is(existing.entries(), SyncAction::Skip),
        ).len(),
        plan.parse_errors == file_views(files@).filter(
            action_is(existing.entries(), SyncAction::Unparsed),
        ).len(),
{
    let mut deletions: Vec<String> = Vec::new();
    let mut staged: Vec<IndexedChunk> = Vec::new();
    let mut updated: usize = 0;
    let mut skipped: usize = 0;
    let mut parse_errors: usize = 0;
    let ghost stored = existing.entries();
    let ghost all = file_views(files@);
    let mut i: usize = 0;
    proof {
        reveal(Seq::filter);
        assert(all.take(0) =~= Seq::<SourceFileView>::empty());
        assert(views(deletions@) =~= planned_deletions(stored, all.take(0)));
        assert(chunk_views(staged@) =~= planned_rows(stored, all.take(0)));
    }
    while i < files.len()
        invariant
            i <= files.len(),
            existing.wf(),
            stored == existing.entries(),
            all == file_views(files@),
            views(deletions@) == planned_deletions(stored, all.take(i as int)),
            chunk_views(staged@) == planned_rows(stored, all.take(i as int)),
            updated == all.take(i as int).filter(needs_update(stored)).len(),
            skipped == all.take(i as int).filter(action_is(stored, SyncAction::Skip)).len(),
            parse_errors == all.take(i as int).filter(
                action_is(stored, SyncAction::Unparsed),
            ).len(),
            updated <= i,
            skipped <= i,
            parse_errors <= i,
        decreases files.len() - i,
    {
        let file = &files[i];
        proof {
            let before = all.take(i as int);
            let current = all[i as int];
            assert(current == file@);
            assert(all.take(i + 1) =~= before.push(current));
            before.lemma_filter_push(current, action_is(stored, SyncAction::Replace));
            before.lemma_filter_push(current, action_is(stored, SyncAction::Skip));
            before.lemma_filter_push(current, action_is(stored, SyncAction::Unparsed));
            before.lemma_filter_push(current, needs_update(stored));
            before.filter(action_is(stored, SyncAction::Replace)).lemma_push_map_commute(
                filename_of(),
                current,
            );
            before.filter(needs_update(stored)).lemma_push_map_commute(staging(), current);
            before.filter(needs_update(stored)).map_values(staging()).lemma_flatten_push(
                rows_of(current),
            );
        }
        match &file.parsed {
            None => {
                parse_errors += 1;
            },
            Some(data) => {
                let hash = calculate_hash(file.content.as_str());
                match classify(existing, data, &hash, Ghost(file@)) {
                    SyncAction::Skip => {
                        skipped += 1;
                    },
                    SyncAction::Replace => {
                        let name = data.source_filename.clone();
                        proof {
                            crate::text::lemma_views_push(deletions@, name);
                        }
                        deletions.push(name);
                        stage_rows(&mut staged, data, &hash, Ghost(file@));
                        updated += 1;
                    },
                    _ => {
                        stage_rows(&mut staged, data, &hash, Ghost(file@));
                        updated += 1;
                    },
                }
            },
        }
        i += 1;
    }
    assert(all.take(files.len() as int) =~= all);
    UpdatePlan { deletions, staged, updated, skipped, parse_errors }
}

/// Builds the summary of every parsed document, by filename. Where two
/// documents share a filename, the later one counts.
pub fn collect_summaries(files: &Vec<SourceFile>) -> (table: Table<ProductSummary>)
    ensures
        table.wf(),
        table.entries() == summary_entries(file_views(files@)),
{
    let mut table: Table<ProductSummary> = Table::new();
    let ghost all = file_views(files@);
    let mut i: usize = 0;
    assert(all.take(0) =~= Seq::<SourceFileView>::empty());
    while i < files.len()
        invariant
            i <= files.len(),
            all == file_views(files@),
            table.wf(),
            table.entries() == summary_entries(all.take(i as int)),
        decreases files.len() - i,
    {
        proof {
            assert(all.take(i + 1).drop_last() =~= all.take(i as int));
            assert(all.take(i + 1).last() == files@[i as int]@);
        }
        match &files[i].parsed {
            Some(data) => {
                table.insert(data.source_filename.clone(), summarize(data));
            },
            None => {},
        }
        i += 1;
    }
    assert(all.take(files.len() as int) =~= all);
    table
}

fn add_terms(table: &mut Table<String>, entry: &SynonymEntry)
    requires
        old(table).wf(),
    ensures
        final(table).wf(),
        final(table).entries() == put_terms(
            old(table).entries(),
            slang_terms(entry@.slang),
            entry@.formal,
        ),
{
    let seps: Vec<char> = vec!['、', ','];
    assert(seps@ =~= slang_separators());
    let pieces = split(entry.slang.as_str(), &seps);
    let ghost raw = views(pieces@);
    let ghost start = table.entries();
    let mut i: usize = 0;
    proof {
        reveal(Seq::filter);
        assert(raw.take(0) =~= Seq::<Seq<char>>::empty());
        assert(raw.take(0).map_values(trimming()).filter(has_content()) =~= Seq::<
            Seq<char>,
        >::empty());
    }
    while i < pieces.len()
        invariant
            i <= pieces.len(),
            raw == views(pieces@),
            table.wf(),
            table.entries() == put_terms(
                start,
                raw.take(i as int).map_values(trimming()).filter(has_content()),
                entry@.formal,
            ),
        decreases pieces.len() - i,
    {
        let term = trim(pieces[i].as_str());
        proof {
            let before = raw.take(i as int);
            assert(raw.take(i + 1) =~= before.push(raw[i as int]));
            before.lemma_push_map_commute(trimming(), raw[i as int]);
            before.map_values(trimming()).lemma_filter_push(term@, has_content());
            let terms = before.map_values(trimming()).filter(has_content());
            assert(terms.push(term@).drop_last() =~= terms);
        }
        if !term.as_str().is_empty() {
            table.insert(term, entry.formal.clone());
        }
        i += 1;
    }
    assert(raw.take(pieces.len() as int) =~= raw);
}

fn add_mapping(table: &mut Table<String>, mapping: &Vec<SynonymEntry>)
    requires
        old(table).wf(),
    ensures
        final(table).wf(),
        final(table).entries() == put_mapping(old(table).entries(), synonym_views(mapping@)),
{
    let ghost start = table.entries();
    let ghost all = synonym_views(mapping@);
    let mut i: usize = 0;
    assert(all.take(0) =~= Seq::<SynonymEntryView>::empty());
    while i < mapping.len()
        invariant
            i <= mapping.len(),
            all == synonym_views(mapping@),
            table.wf(),
            table.entries() == put_mapping(start, all.take(i as int)),
        decreases mapping.len() - i,
    {
        proof {
            assert(all.take(i + 1).drop_last() =~= all.take(i as int));
            assert(all.take(i + 1).last() == mapping@[i as int]@);
        }
        add_terms(table, &mapping[i]);
        i += 1;
    }
    assert(all.take(mapping.len() as int) =~= all);
}

/// Builds the synonym table of the corpus from the mappings of all parsed
/// documents. A colloquial term mapped more than once keeps its last formal
/// term.
pub fn collect_synonyms(files: &Vec<SourceFile>) -> (table: Table<String>)
    ensures
        table.wf(),
        table.entries() == synonym_entries(file_views(files@)),
{
    let mut table: Table<String> = Table::new();
    let ghost all = file_views(files@);
    let mut i: usize = 0;
    assert(all.take(0) =~= Seq::<SourceFileView>::empty());
    while i < files.len()
        invariant
            i <= files.len(),
            all == file_views(files@),
            table.wf(),
            table.entries() == synonym_entries(all.take(i as int)),
        decreases files.len() - i,
    {
        proof {
            assert(all.take(i + 1).drop_last() =~= all.take(i as int));
            assert(all.take(i + 1).last() == files@[i as int]@);
        }
        match &files[i].parsed {
            Some(data) => {
                match &data.rag_data.synonym_mapping {
                    Some(mapping) => {
                        add_mapping(&mut table, mapping);
                    },
                    None => {},
                }
            },
            None => {},
        }
        i += 1;
    }
    assert(all.take(files.len() as int) =~= all);
    table
}

/// Plans a synchronisation pass over `files` against the hashes stored in
/// the index: the summaries and synonyms of the corpus, the filenames whose
/// rows must go, and the rows to embed and insert.
pub fn plan_sync(existing: &Table<String>, files: &Vec<SourceFile>) -> (plan: SyncPlan)
    requires
        existing.wf(),
    ensures
        plan.summaries.wf(),
        plan.synonyms.wf(),
        plan.summaries.entries() == summary_entries(file_views(files@)),
        plan.synonyms.entries() == synonym_entries(file_views(files@)),
        views(plan.deletions@) == planned_deletions(existing.entries(), file_views(files@)),
        chunk_views(plan.staged@) == planned_rows(existing.entries(), file_views(files@)),
        plan.updated == file_views(files@).filter(needs_update(existing.entries())).len(),
        plan.skipped == file_views(files@).filter(
            action_is(existing.entries(), SyncAction::Skip),
        ).len(),
        plan.parse_errors == file_views(files@).filter(
            action_is(existing.entries(), SyncAction::Unparsed),
        ).len(),
{
    let summaries = collect_summaries(files);
    let synonyms = collect_synonyms(files);
    let updates = plan_updates(existing, files);
    SyncPlan {
        deletions: updates.deletions,
        staged: updates.staged,
        summaries,
        synonyms,
        updated: updates.updated,
        skipped: updates.skipped,
        parse_errors: updates.parse_errors,
    }
}

/// `runs` cuts the rows into consecutive half-open ranges, each holding the
/// rows of one source file, no two neighbouring ranges holding rows of the
/// same file.
pub open spec fn is_run_cut(runs: Seq<(usize, usize)>, rows: Seq<IndexedChunkView>) -> bool {
    &&& (runs.len() == 0 <==> rows.len() == 0)
    &&& runs.len() > 0 ==> runs[0].0 == 0 && runs.last().1 == rows.len()
    &&& forall|k: int|
        0 <= k < runs.len() ==> (#[trigger] runs[k]).0 < runs[k].1 <= rows.len()
    &&& forall|k: int| 0 <= k < runs.len() - 1 ==> (#[trigger] runs[k]).1 == runs[k + 1].0
    &&& forall|k: int, i: int|
        0 <= k < runs.len() && (#[trigger] runs[k]).0 <= i < runs[k].1 ==> (#[trigger] rows[i]).source_file
            == rows[runs[k].0 as int].source_file
    &&& forall|k: int|
        0 <= k < runs.len() - 1 ==> rows[(#[trigger] runs[k]).1 as int].source_file
            != rows[runs[k].0 as int].source_file
}

/// Cuts staged rows into runs of rows of one source file, so that the index
/// can be updated document by document and a failure while writing one
/// document leaves the others alone.
pub fn document_runs(rows: &Vec<IndexedChunk>) -> (runs: Vec<(usize, usize)>)
    ensures
        is_run_cut(runs@, chunk_views(rows@)),
{
    let n = rows.len();
    let ghost all = chunk_views(rows@);
    let mut runs: Vec<(usize, usize)> = Vec::new();
    let mut start: usize = 0;
    while start < n
        invariant
            n == rows.len(),
            all == chunk_views(rows@),
            start <= n,
            runs.len() == 0 <==> start == 0,
            runs.len() > 0 ==> runs@[0].0 == 0 && runs@.last().1 == start,
            forall|k: int| 0 <= k < runs.len() ==> (#[trigger] runs@[k]).0 < runs@[k].1 <= n,
            forall|k: int| 0 <= k < runs.len() - 1 ==> (#[trigger] runs@[k]).1 == runs@[k + 1].0,
            forall|k: int, i: int|
                0 <= k < runs.len() && (#[trigger] runs@[k]).0 <= i < runs@[k].1 ==> (
                #[trigger] all[i]).source_file == all[runs@[k].0 as int].source_file,
            forall|k: int|
                0 <= k < runs.len() - 1 ==> all[(#[trigger] runs@[k]).1 as int].source_file
                    != all[runs@[k].0 as int].source_file,
            runs.len() > 0 && start < n ==> all[start as int].source_file != all[runs@.last().0 as int].source_file,
        decreases n - start,
    {
        let mut end: usize = start + 1;
        while end < n && rows[end].source_file == rows[start].source_file
            invariant
                n == rows.len(),
                all == chunk_views(rows@),
                start < end <= n,
                forall|i: int|
                    start <= i < end ==> (#[trigger] all[i]).source_file
                        == all[start as int].source_file,
            decreases n - end,
        {
            proof {
                assert(all[end as int].source_file == rows@[end as int].source_file@);
                assert(all[start as int].source_file == rows@[start as int].source_file@);
            }
            end += 1;
        }
        proof {
            if end < n {
                assert(all[end as int].source_file == rows@[end as int].source_file@);
                assert(all[start as int].source_file == rows@[start as int].source_file@);
            }
        }
        let ghost before = runs@;
        runs.push((start, end));
        proof {
            assert forall|k: int, i: int|
                0 <= k < runs.len() && (#[trigger] runs@[k]).0 <= i < runs@[k].1 implies (
            #[trigger] all[i]).source_file == all[runs@[k].0 as int].source_file by {
                if k < before.len() {
                    assert(runs@[k] == before[k]);
                }
            }
            assert forall|k: int| 0 <= k < runs.len() - 1 implies all[(
            #[trigger] runs@[k]).1 as int].source_file != all[runs@[k].0 as int].source_file by {
                if k < before.len() - 1 {
                    assert(runs@[k] == before[k]);
                } else {
                    assert(runs@[k] == before.last());
                }
            }
            assert forall|k: int| 0 <= k < runs.len() - 1 implies (#[trigger] runs@[k]).1 == runs@[k
                + 1].0 by {
                if k < before.len() - 1 {
                    assert(runs@[k] == before[k]);
                    assert(runs@[k + 1] == before[k + 1]);
                } else {
                    assert(runs@[k] == before.last());
                }
            }
        }
        start = end;
    }
    runs
}

/// One step of writing a plan to the index: the staged rows `from..to`,
/// which belong to one source file, and whether the rows the index holds
/// for that file go first.
#[derive(Debug, Clone, Copy, PartialEq, Eq, Structural)]
pub struct WriteStep {
    pub from: usize,
    pub to: usize,
    pub delete_first: bool,
}

/// The ranges of the steps, in order.
pub open spec fn step_ranges(steps: Seq<WriteStep>) -> Seq<(usize, usize)> {
    Seq::new(steps.len(), |k: int| (steps[k].from, steps[k].to))
}

/// The source file of the rows of a step.
pub open spec fn step_source(steps: Seq<WriteStep>, rows: Seq<IndexedChunkView>, k: int) -> Seq<
    char,
> {
    rows[steps[k].from as int].source_file
}

/// No earlier step writes rows of the source file of step `k`.
pub open spec fn first_step_of_file(
    steps: Seq<WriteStep>,
    rows: Seq<IndexedChunkView>,
    k: int,
) -> bool {
    forall|j: int| 0 <= j < k ==> step_source(steps, rows, j) != step_source(steps, rows, k)
}

/// `steps` writes the staged rows document by document: its ranges are the
/// runs of the rows, and the old rows of a file are deleted exactly once,
/// before the first rows of that file are written, if the plan deletes
/// them at all.
pub open spec fn is_write_plan(
    steps: Seq<WriteStep>,
    deletions: Seq<Seq<char>>,
    rows: Seq<IndexedChunkView>,
) -> bool {
    &&& is_run_cut(step_ranges(steps), rows)
    &&& forall|k: int|
        0 <= k < steps.len() ==> (#[trigger] steps[k]).delete_first == (deletions.contains(
            step_source(steps, rows, k),
        ) && first_step_of_file(steps, rows, k))
}

fn names_file(names: &Vec<String>, name: &String) -> (yes: bool)
    ensures
        yes == views(names@).contains(name@),
{
    let mut i: usize = 0;
    while i < names.len()
        invariant
            i <= names.len(),
            forall|k: int| 0 <= k < i ==> views(names@)[k] != name@,
        decreases names.len() - i,
    {
        if names[i] == *name {
            assert(views(names@)[i as int] == name@);
            return true;
        }
        i += 1;
    }
    false
}

/// No run before run `k` holds rows of the file `name`.
pub open spec fn no_earlier_run(
    runs: Seq<(usize, usize)>,
    rows: Seq<IndexedChunkView>,
    k: int,
    name: Seq<char>,
) -> bool {
    forall|j: int| 0 <= j < k ==> rows[(#[trigger] runs[j]).0 as int].source_file != name
}

fn is_first_run(staged: &Vec<IndexedChunk>, runs: &Vec<(usize, usize)>, k: usize, name: &String) -> (first:
    bool)
    requires
        k <= runs.len(),
        forall|i: int| 0 <= i < runs.len() ==> (#[trigger] runs@[i]).0 < staged.len(),
    ensures
        first == no_earlier_run(runs@, chunk_views(staged@), k as int, name@),
{
    let ghost rows = chunk_views(staged@);
    let mut j: usize = 0;
    while j < k
        invariant
            j <= k <= runs.len(),
            rows == chunk_views(staged@),
            forall|i: int| 0 <= i < runs.len() ==> (#[trigger] runs@[i]).0 < staged.len(),
            no_earlier_run(runs@, rows, j as int, name@),
        decreases k - j,
    {
        let start = runs[j].0;
        assert(rows[start as int].source_file == staged@[start as int].source_file@);
        if staged[start].source_file == *name {
            return false;
        }
        j += 1;
    }
    true
}

/// Lays out how a plan is written to the index, document by document. The
/// rows a file already has in the index are deleted at most once, ahead of
/// the first rows written for that file, so that a later step never removes
/// what an earlier one wrote.
pub fn write_steps(deletions: &Vec<String>, staged: &Vec<IndexedChunk>) -> (steps: Vec<WriteStep>)
    ensures
        is_write_plan(steps@, views(deletions@), chunk_views(staged@)),
{
    let runs = document_runs(staged);
    let ghost rows = chunk_views(staged@);
    let ghost gone = views(deletions@);
    let mut steps: Vec<WriteStep> = Vec::new();
    let mut k: usize = 0;
    proof {
        assert(step_ranges(steps@) =~= runs@.take(0));
        assert forall|i: int| 0 <= i < runs.len() implies (#[trigger] runs@[i]).0
            < staged.len() by {}
    }
    while k < runs.len()
        invariant
            k <= runs.len(),
            rows == chunk_views(staged@),
            gone == views(deletions@),
            forall|i: int| 0 <= i < runs.len() ==> (#[trigger] runs@[i]).0 < staged.len(),
            steps.len() == k,
            step_ranges(steps@) == runs@.take(k as int),
            forall|i: int|
                0 <= i < k ==> (#[trigger] steps@[i]).delete_first == (gone.contains(
                    rows[runs@[i].0 as int].source_file,
                ) && no_earlier_run(runs@, rows, i, rows[runs@[i].0 as int].source_file)),
        decreases runs.len() - k,
    {
        let (from, to) = runs[k];
        let name = &staged[from].source_file;
        assert(name@ == rows[from as int].source_file);
        let delete_first = is_first_run(staged, &runs, k, name) && names_file(deletions, name);
        let step = WriteStep { from, to, delete_first };
        proof {
            assert(step_ranges(steps@.push(step)) =~= runs@.take(k + 1));
        }
        steps.push(step);
        k += 1;
    }
    proof {
        assert(runs@.take(runs.len() as int) =~= runs@);
        lemma_write_plan(steps@, runs@, gone, rows);
    }
    steps
}

proof fn lemma_write_plan(
    steps: Seq<WriteStep>,
    runs: Seq<(usize, usize)>,
    gone: Seq<Seq<char>>,
    rows: Seq<IndexedChunkView>,
)
    requires
        is_run_cut(runs, rows),
        step_ranges(steps) == runs,
        forall|i: int|
            0 <= i < steps.len() ==> (#[trigger] steps[i]).delete_first == (gone.contains(
                rows[runs[i].0 as int].source_file,
            ) && no_earlier_run(runs, rows, i, rows[runs[i].0 as int].source_file)),
    ensures
        is_write_plan(steps, gone, rows),
{
    assert(steps.len() == runs.len());
    assert forall|i: int| 0 <= i < steps.len() implies step_source(steps, rows, i)
        == rows[(#[trigger] runs[i]).0 as int].source_file by {
        assert(step_ranges(steps)[i] == runs[i]);
    }
    assert forall|k: int| 0 <= k < steps.len() implies (#[trigger] steps[k]).delete_first == (
    gone.contains(step_source(steps, rows, k)) && first_step_of_file(steps, rows, k)) by {
        let name = rows[runs[k].0 as int].source_file;
        assert(step_source(steps, rows, k) == name);
        if no_earlier_run(runs, rows, k, name) {
            assert forall|j: int| 0 <= j < k implies step_source(steps, rows, j) != step_source(
                steps,
                rows,
                k,
            ) by {
                assert(step_source(steps, rows, j) == rows[runs[j].0 as int].source_file);
            }
        }
        if first_step_of_file(steps, rows, k) {
            assert forall|j: int| 0 <= j < k implies rows[(#[trigger] runs[j]).0 as int].source_file
                != name by {
                assert(step_source(steps, rows, j) == rows[runs[j].0 as int].source_file);
            }
        }
    }
}

/// What is to be deleted after the rows of a document were written: on a
/// failure all rows of its file, so that no partial version stays in the
/// index; nothing otherwise.
pub open spec fn cleanup_after(filename: Seq<char>, failed: bool) -> Option<Seq<char>> {
    if failed {
        Some(row_condition(filename))
    } else {
        None
    }
}

/// Decides what follows the writing of one document. A failed write is not
/// the end of the pass: the rows of that file are removed, the file is
/// picked up again by the next pass, and the pass goes on with the other
/// documents.
pub fn after_write(filename: &str, failed: bool) -> (filter: Option<String>)
    ensures
        crate::models::opt_view(filter) == cleanup_after(filename@, failed),
{
    if failed {
        Some(row_filter(filename))
    } else {
        None
    }
}

} // verus!
