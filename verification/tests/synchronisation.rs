use insur_rag::assembly::chunk_document;
use insur_rag::digest::calculate_hash;
use insur_rag::ingest::{
    batch_bounds, plan_brochure, plan_policy_index, BrochureStep, PolicyStep, BROCHURE_BATCH,
    SYNC_BATCH,
};
use insur_rag::models::{
    BasicInfo, Conditions, Coverage, FaqItem, InsuranceMetadata, Investment, ParsedDocument,
    PolicyData, RagData, SynonymEntry,
};
use insur_rag::policy_chunks::chunk_policy_data;
use insur_rag::sync::{
    after_write, collect_summaries, collect_synonyms, decide, document_runs, load_hashes,
    plan_sync, write_steps, IndexedChunk, SourceFile, SyncAction, SyncPlan, WriteStep,
};

fn strings(items: &[&str]) -> Vec<String> {
    items.iter().map(|s| s.to_string()).collect()
}

fn policy(filename: &str, name: &str, chunks: &[&str]) -> PolicyData {
    PolicyData {
        source_filename: filename.to_string(),
        basic_info: BasicInfo {
            product_name: name.to_string(),
            product_code: "C-1".to_string(),
            company: "某人壽".to_string(),
            currency: strings(&["TWD"]),
            product_type: "醫療".to_string(),
            payment_period: "年繳".to_string(),
        },
        conditions: Conditions {
            age_range: "0-65".to_string(),
            premium_limit: "無".to_string(),
            fees_and_discounts: "無".to_string(),
        },
        coverage: Coverage {
            death_benefit: "無".to_string(),
            maturity_benefit: "無".to_string(),
            other_benefits: Vec::new(),
        },
        investment: Investment { is_investment_linked: false, features: Vec::new(), risks: Vec::new() },
        rag_data: RagData {
            keywords: Vec::new(),
            target_audience: "一般".to_string(),
            faq: vec![FaqItem { q: "q".to_string(), a: "a".to_string() }],
            synonym_mapping: None,
            chunks: strings(chunks),
        },
    }
}

fn file(content: &str, parsed: Option<PolicyData>) -> SourceFile {
    SourceFile { content: content.to_string(), parsed }
}

fn pairs_of(index: &Vec<IndexedChunk>) -> Vec<(String, String)> {
    index.iter().map(|row| (row.source_file.clone(), row.file_hash.clone())).collect()
}

fn apply(index: &mut Vec<IndexedChunk>, plan: &SyncPlan) {
    index.retain(|row| !plan.deletions.contains(&row.source_file));
    for row in plan.staged.iter() {
        index.push(row.clone());
    }
}

fn run_pass(index: &mut Vec<IndexedChunk>, files: &Vec<SourceFile>) -> SyncPlan {
    let existing = load_hashes(&pairs_of(index));
    let plan = plan_sync(&existing, files);
    apply(index, &plan);
    plan
}

fn texts_of(index: &Vec<IndexedChunk>, filename: &str) -> Vec<String> {
    index.iter().filter(|row| row.source_file == filename).map(|row| row.text.clone()).collect()
}

#[test]
fn load_hashes_keeps_the_last_hash_of_each_filename() {
    let table = load_hashes(&vec![
        ("a".to_string(), "h1".to_string()),
        ("b".to_string(), "h2".to_string()),
        ("a".to_string(), "h3".to_string()),
    ]);
    assert_eq!(table.len(), 2);
    assert_eq!(table.get("a"), Some(&"h3".to_string()));
    assert_eq!(table.get("b"), Some(&"h2".to_string()));
    assert_eq!(table.get("c"), None);
    assert_eq!(table.key_at(0), "a");
    assert_eq!(table.key_at(1), "b");
}

#[test]
fn decide_compares_stored_and_current_hash() {
    let content = "{\"v\": 1}";
    let doc = policy("a.json", "甲", &["x"]);
    let empty = load_hashes(&Vec::new());
    assert_eq!(decide(&empty, &file(content, Some(doc.clone()))), SyncAction::Insert);
    assert_eq!(decide(&empty, &file(content, None)), SyncAction::Unparsed);
    let same = load_hashes(&vec![("a.json".to_string(), calculate_hash(content))]);
    assert_eq!(decide(&same, &file(content, Some(doc.clone()))), SyncAction::Skip);
    let stale = load_hashes(&vec![("a.json".to_string(), calculate_hash("{\"v\": 0}"))]);
    assert_eq!(decide(&stale, &file(content, Some(doc))), SyncAction::Replace);
}

#[test]
fn first_pass_stages_every_chunk_under_the_content_hash() {
    let files = vec![
        file("A1", Some(policy("a.json", "甲", &["a-one", "a-two"]))),
        file("broken", None),
        file("B1", Some(policy("b.json", "乙", &[]))),
    ];
    let mut index = Vec::new();
    let plan = run_pass(&mut index, &files);
    assert!(plan.deletions.is_empty());
    assert_eq!(plan.updated, 2);
    assert_eq!(plan.skipped, 0);
    assert_eq!(plan.parse_errors, 1);
    assert_eq!(plan.staged.len(), 2 + 2);
    assert_eq!(plan.staged[0].source_file, "a.json");
    assert_eq!(plan.staged[0].file_hash, calculate_hash("A1"));
    assert_eq!(plan.staged[0].text, "a-one");
    assert_eq!(plan.staged[1].text, "a-two");
    assert_eq!(plan.staged[2].source_file, "b.json");
    assert_eq!(plan.staged[2].file_hash, calculate_hash("B1"));
    let assembled = chunk_document(&policy("b.json", "乙", &[]));
    assert_eq!(plan.staged[2].text, assembled[0]);
    assert_eq!(plan.staged[3].text, assembled[1]);
    assert_eq!(index.len(), 4);
}

#[test]
fn second_pass_over_unchanged_corpus_does_nothing() {
    let files = vec![
        file("A1", Some(policy("a.json", "甲", &["a-one", "a-two"]))),
        file("B1", Some(policy("b.json", "乙", &["b-one"]))),
        file("broken", None),
    ];
    let mut index = Vec::new();
    run_pass(&mut index, &files);
    let before = index.clone();
    let plan = run_pass(&mut index, &files);
    assert!(plan.deletions.is_empty());
    assert!(plan.staged.is_empty());
    assert_eq!(plan.updated, 0);
    assert_eq!(plan.skipped, 2);
    assert_eq!(plan.parse_errors, 1);
    assert_eq!(index.len(), before.len());
    for (after, earlier) in index.iter().zip(before.iter()) {
        assert_eq!(after.source_file, earlier.source_file);
        assert_eq!(after.file_hash, earlier.file_hash);
        assert_eq!(after.text, earlier.text);
    }
}

#[test]
fn changed_document_is_replaced_and_others_are_untouched() {
    let mut files = vec![
        file("A1", Some(policy("a.json", "甲", &["a-one", "a-two"]))),
        file("B1", Some(policy("b.json", "乙", &["b-one"]))),
    ];
    let mut index = Vec::new();
    run_pass(&mut index, &files);
    files[0] = file("A2", Some(policy("a.json", "甲", &["a-new"])));
    let plan = run_pass(&mut index, &files);
    assert_eq!(plan.deletions, strings(&["a.json"]));
    assert_eq!(plan.staged.len(), 1);
    assert_eq!(plan.staged[0].source_file, "a.json");
    assert_eq!(plan.staged[0].file_hash, calculate_hash("A2"));
    assert_eq!(plan.staged[0].text, "a-new");
    assert_eq!(plan.updated, 1);
    assert_eq!(plan.skipped, 1);
    assert_eq!(texts_of(&index, "a.json"), strings(&["a-new"]));
    assert_eq!(texts_of(&index, "b.json"), strings(&["b-one"]));
    assert!(index.iter().all(|row| row.source_file != "a.json" || row.file_hash == calculate_hash("A2")));
}

#[test]
fn summaries_are_collected_by_filename_last_writer_wins() {
    let files = vec![
        file("A1", Some(policy("a.json", "甲", &["x"]))),
        file("broken", None),
        file("B1", Some(policy("b.json", "乙", &["y"]))),
        file("A2", Some(policy("a.json", "甲二", &["z"]))),
    ];
    let table = collect_summaries(&files);
    assert_eq!(table.len(), 2);
    assert_eq!(table.key_at(0), "a.json");
    assert_eq!(table.key_at(1), "b.json");
    assert_eq!(table.get("a.json").unwrap().name, "甲二");
    assert_eq!(table.get("b.json").unwrap().name, "乙");
    assert_eq!(
        table.get("b.json").unwrap().intro,
        "【商品總覽】\n名稱: 乙\n類型: 醫療\n特色: []\n適合對象: 一般\n"
    );
}

#[test]
fn synonyms_are_split_trimmed_and_last_writer_wins() {
    let mut first = policy("a.json", "甲", &["x"]);
    first.rag_data.synonym_mapping = Some(vec![
        SynonymEntry { slang: "醫療險、 實支,, 住院險 ".to_string(), formal: "住院醫療保險".to_string() },
        SynonymEntry { slang: " , ".to_string(), formal: "無".to_string() },
    ]);
    let mut second = policy("b.json", "乙", &["y"]);
    second.rag_data.synonym_mapping = Some(vec![SynonymEntry {
        slang: "實支".to_string(),
        formal: "實支實付型醫療保險".to_string(),
    }]);
    let files = vec![file("A", Some(first)), file("B", Some(second)), file("C", None)];
    let table = collect_synonyms(&files);
    assert_eq!(table.len(), 3);
    assert_eq!(table.key_at(0), "醫療險");
    assert_eq!(table.key_at(1), "實支");
    assert_eq!(table.key_at(2), "住院險");
    assert_eq!(table.get("醫療險"), Some(&"住院醫療保險".to_string()));
    assert_eq!(table.get("實支"), Some(&"實支實付型醫療保險".to_string()));
    assert_eq!(table.get("住院險"), Some(&"住院醫療保險".to_string()));
}

#[test]
fn plan_sync_carries_summaries_and_synonyms() {
    let mut doc = policy("a.json", "甲", &["x"]);
    doc.rag_data.synonym_mapping =
        Some(vec![SynonymEntry { slang: "保費".to_string(), formal: "保險費".to_string() }]);
    let files = vec![file("A", Some(doc))];
    let plan = plan_sync(&load_hashes(&Vec::new()), &files);
    assert_eq!(plan.summaries.get("a.json").unwrap().name, "甲");
    assert_eq!(plan.synonyms.get("保費"), Some(&"保險費".to_string()));
}

fn row(source: &str, text: &str) -> IndexedChunk {
    IndexedChunk { source_file: source.to_string(), file_hash: "h".to_string(), text: text.to_string() }
}

#[test]
fn document_runs_cut_staged_rows_by_source_file() {
    assert_eq!(document_runs(&Vec::new()), Vec::new());
    assert_eq!(document_runs(&vec![row("a", "1")]), vec![(0, 1)]);
    let rows = vec![row("a", "1"), row("a", "2"), row("b", "3"), row("a", "4"), row("c", "5"), row("c", "6")];
    assert_eq!(document_runs(&rows), vec![(0, 2), (2, 3), (3, 4), (4, 6)]);
}

#[test]
fn staged_rows_of_a_pass_form_one_run_per_document() {
    let files = vec![
        file("A1", Some(policy("a.json", "甲", &["a-one", "a-two"]))),
        file("B1", Some(policy("b.json", "乙", &["b-one"]))),
    ];
    let plan = plan_sync(&load_hashes(&Vec::new()), &files);
    assert_eq!(document_runs(&plan.staged), vec![(0, 2), (2, 3)]);
}

#[test]
fn write_steps_delete_old_rows_once_before_the_first_write() {
    let rows = vec![row("a", "1"), row("a", "2"), row("b", "3"), row("a", "4"), row("c", "5")];
    let steps = write_steps(&vec!["a".to_string(), "c".to_string()], &rows);
    assert_eq!(
        steps,
        vec![
            WriteStep { from: 0, to: 2, delete_first: true },
            WriteStep { from: 2, to: 3, delete_first: false },
            WriteStep { from: 3, to: 4, delete_first: false },
            WriteStep { from: 4, to: 5, delete_first: true },
        ]
    );
    assert!(write_steps(&vec!["a".to_string()], &Vec::new()).is_empty());
}

#[test]
fn carrying_out_write_steps_gives_the_planned_index() {
    let mut files = vec![
        file("A1", Some(policy("a.json", "甲", &["a-one", "a-two"]))),
        file("B1", Some(policy("b.json", "乙", &["b-one"]))),
    ];
    let mut index = Vec::new();
    run_pass(&mut index, &files);
    files[0] = file("A2", Some(policy("a.json", "甲", &["a-new"])));
    files.push(file("C1", Some(policy("c.json", "丙", &["c-one"]))));
    let plan = plan_sync(&load_hashes(&pairs_of(&index)), &files);
    let mut stepwise = index.clone();
    for step in write_steps(&plan.deletions, &plan.staged) {
        let name = plan.staged[step.from].source_file.clone();
        if step.delete_first {
            stepwise.retain(|row| row.source_file != name);
        }
        stepwise.extend(plan.staged[step.from..step.to].iter().cloned());
    }
    apply(&mut index, &plan);
    assert_eq!(stepwise.len(), index.len());
    for (a, b) in stepwise.iter().zip(index.iter()) {
        assert_eq!((&a.source_file, &a.file_hash, &a.text), (&b.source_file, &b.file_hash, &b.text));
    }
}

#[test]
fn a_failed_write_is_followed_by_a_cleanup_of_that_file() {
    assert_eq!(after_write("a.json", true), Some("source_file = 'a.json'".to_string()));
    assert_eq!(after_write("a.json", false), None);
}

#[test]
fn table_reports_the_keys_it_holds() {
    let table = load_hashes(&vec![("a".to_string(), "h1".to_string())]);
    assert!(table.contains_key("a"));
    assert!(!table.contains_key("b"));
    assert_eq!(table.position("a"), Some(0));
    assert_eq!(table.position("b"), None);
    assert_eq!(table.value_at(0), "h1");
}

#[test]
fn batch_bounds_cuts_into_consecutive_ranges() {
    assert_eq!(batch_bounds(0, 50), Vec::new());
    assert_eq!(batch_bounds(1, 50), vec![(0, 1)]);
    assert_eq!(batch_bounds(50, 50), vec![(0, 50)]);
    assert_eq!(batch_bounds(51, 50), vec![(0, 50), (50, 51)]);
    assert_eq!(batch_bounds(120, 50), vec![(0, 50), (50, 100), (100, 120)]);
    assert_eq!(batch_bounds(3, 1), vec![(0, 1), (1, 2), (2, 3)]);
    assert_eq!(SYNC_BATCH, 50);
    assert_eq!(BROCHURE_BATCH, 30);
}

fn brochure(text: &str) -> ParsedDocument {
    ParsedDocument {
        metadata: InsuranceMetadata {
            product_name: "甲".to_string(),
            product_code: None,
            insurance_type: Vec::new(),
            benefits: Vec::new(),
            currency: "TWD".to_string(),
            target_audience: None,
        },
        full_text: text.to_string(),
    }
}

#[test]
fn plan_brochure_skips_indexed_unparsed_and_empty_files() {
    let doc = brochure("一。二。");
    assert!(matches!(plan_brochure(3, Some(&doc), "a.pdf"), BrochureStep::AlreadyIndexed));
    assert!(matches!(plan_brochure(1, None, "a.pdf"), BrochureStep::AlreadyIndexed));
    assert!(matches!(plan_brochure(0, None, "a.pdf"), BrochureStep::Unparsed));
    assert!(matches!(plan_brochure(0, Some(&brochure(" 。 ")), "a.pdf"), BrochureStep::Empty));
}

#[test]
fn plan_brochure_indexes_chunks_in_batches_of_thirty() {
    let text: String = (0..31).map(|i| format!("第{}句。", i)).collect();
    match plan_brochure(0, Some(&brochure(&text)), "a.pdf") {
        BrochureStep::Index { chunks, batches } => {
            assert_eq!(chunks.len(), 31);
            assert_eq!(chunks[30], "來源: a.pdf | 商品: 甲 | 文號:  | 對象: 不限 | 內容: 第30句");
            assert_eq!(batches, vec![(0, 30), (30, 31)]);
        }
        _ => panic!("expected the brochure to be indexed"),
    }
}

#[test]
fn plan_policy_index_skips_a_document_with_the_stored_hash() {
    let doc = policy("a.json", "甲", &[]);
    let hash = calculate_hash("content");
    assert!(matches!(plan_policy_index(Some(&hash), "content", &doc), PolicyStep::Unchanged));
}

#[test]
fn plan_policy_index_reindexes_new_and_changed_documents() {
    let doc = policy("a.json", "甲", &[]);
    let chunks = chunk_policy_data(&doc);
    for stored in [None, Some("0000")] {
        match plan_policy_index(stored, "content", &doc) {
            PolicyStep::Reindex { rows } => {
                assert_eq!(rows.len(), chunks.len());
                for (row, chunk) in rows.iter().zip(chunks.iter()) {
                    assert_eq!(row.source_file, "a.json");
                    assert_eq!(row.file_hash, calculate_hash("content"));
                    assert_eq!(&row.text, chunk);
                }
            }
            PolicyStep::Unchanged => panic!("expected a re-index"),
        }
    }
}
