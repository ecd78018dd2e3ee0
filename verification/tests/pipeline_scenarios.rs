use insur_rag::assembly::ProductSummary;
use insur_rag::context::RagResponse;
use insur_rag::digest::calculate_hash;
use insur_rag::llm::REWRITE_INSTRUCTION;
use insur_rag::models::{
    BasicInfo, Conditions, Coverage, Investment, PolicyData, RagData, SynonymEntry,
};
use insur_rag::pipeline::{
    advance, start, Action, Event, Fallbacks, Phase, QueryFailure, QueryState, Stage, OUT_OF_TURN,
};
use insur_rag::rerank::{RerankReply, Score};
use insur_rag::retrieve::Hit;
use insur_rag::rewrite::Turn;
use insur_rag::settings::Limits;
use insur_rag::sync::{load_hashes, plan_sync, IndexedChunk, SourceFile};
use insur_rag::table::Table;

fn strings(items: &[&str]) -> Vec<String> {
    items.iter().map(|s| s.to_string()).collect()
}

fn policy(filename: &str, name: &str, chunks: &[&str]) -> PolicyData {
    PolicyData {
        source_filename: filename.to_string(),
        basic_info: BasicInfo {
            product_name: name.to_string(),
            product_code: "C-1".to_string(),
            company: "某人壽".to_string(),
            currency: strings(&["TWD"]),
            product_type: "終身壽險".to_string(),
            payment_period: "年繳".to_string(),
        },
        conditions: Conditions {
            age_range: "0-65".to_string(),
            premium_limit: "無".to_string(),
            fees_and_discounts: "無".to_string(),
        },
        coverage: Coverage {
            death_benefit: "無".to_string(),
            maturity_benefit: "無".to_string(),
            other_benefits: Vec::new(),
        },
        investment: Investment { is_investment_linked: false, features: Vec::new(), risks: Vec::new() },
        rag_data: RagData {
            keywords: Vec::new(),
            target_audience: "一般".to_string(),
            faq: Vec::new(),
            synonym_mapping: Some(vec![SynonymEntry {
                slang: "fee".to_string(),
                formal: "premium".to_string(),
            }]),
            chunks: strings(chunks),
        },
    }
}

/// A stand-in for the outside world: an index held in memory, a search that
/// ranks rows by the number of query words they contain, and services whose
/// answers are fixed in advance.
struct World {
    index: Vec<IndexedChunk>,
    summaries: Table<ProductSummary>,
    synonyms: Table<String>,
    rewrite: Option<String>,
    rerank: Option<RerankReply>,
    direct_fetch: bool,
    fallbacks: Option<Fallbacks>,
    searches: Vec<(String, Option<String>, usize)>,
    fetches: Vec<Vec<String>>,
    reranked: Vec<Vec<String>>,
    generated: Vec<(String, String)>,
}

impl World {
    fn new() -> World {
        World {
            index: Vec::new(),
            summaries: Table::new(),
            synonyms: Table::new(),
            rewrite: None,
            rerank: None,
            direct_fetch: false,
            fallbacks: None,
            searches: Vec::new(),
            fetches: Vec::new(),
            reranked: Vec::new(),
            generated: Vec::new(),
        }
    }

    fn synchronise(&mut self, files: &Vec<SourceFile>) {
        let pairs = self
            .index
            .iter()
            .map(|row| (row.source_file.clone(), row.file_hash.clone()))
            .collect();
        let plan = plan_sync(&load_hashes(&pairs), files);
        self.index.retain(|row| !plan.deletions.contains(&row.source_file));
        for row in plan.staged.iter() {
            self.index.push(row.clone());
        }
        self.summaries = plan.summaries;
        self.synonyms = plan.synonyms;
    }

    fn allowed(filter: &Option<String>, row: &IndexedChunk) -> bool {
        match filter {
            Some(expression) => expression.contains(&format!("source_file = '{}'", row.source_file)),
            None => true,
        }
    }

    fn search(&self, query: &str, filter: &Option<String>, limit: usize) -> Vec<Hit> {
        let words: Vec<&str> = query.split_whitespace().collect();
        let mut ranked: Vec<(usize, &IndexedChunk)> = self
            .index
            .iter()
            .filter(|row| World::allowed(filter, row))
            .map(|row| (words.iter().filter(|w| row.text.contains(*w)).count(), row))
            .filter(|(hits, _)| *hits > 0)
            .collect();
        ranked.sort_by(|a, b| b.0.cmp(&a.0));
        ranked
            .into_iter()
            .take(limit)
            .map(|(_, row)| Hit { source: row.source_file.clone(), text: row.text.clone() })
            .collect()
    }

    fn fetch_forced(&self, files: &Vec<String>, limit: usize) -> Vec<Hit> {
        if !self.direct_fetch {
            return Vec::new();
        }
        let mut hits = Vec::new();
        for file in files.iter() {
            for row in self.index.iter().filter(|row| &row.source_file == file).take(limit) {
                hits.push(Hit { source: row.source_file.clone(), text: row.text.clone() });
            }
        }
        hits
    }

    fn ask(
        &mut self,
        raw: &str,
        history: &Vec<Turn>,
        limits: &Limits,
    ) -> Result<RagResponse, QueryFailure> {
        let (mut state, mut action) = start(raw, history, &self.synonyms, &self.summaries, limits);
        for _ in 0..10 {
            let event = match action {
                Action::Rewrite { instruction, request } => {
                    assert_eq!(instruction, REWRITE_INSTRUCTION);
                    assert!(request.ends_with(raw));
                    Event::Rewritten(self.rewrite.clone())
                }
                Action::Search { query, filter, limit, fetch } => {
                    let nearest = self.search(&query, &filter, limit);
                    let forced = self.fetch_forced(&fetch, limit);
                    self.searches.push((query, filter, limit));
                    self.fetches.push(fetch);
                    Event::Retrieved { forced, nearest }
                }
                Action::Rerank { query: _, documents } => {
                    self.reranked.push(documents);
                    Event::Reranked(self.rerank.clone())
                }
                Action::Generate { context, query } => {
                    self.generated.push((context, query));
                    Event::Answered("generated answer".to_string())
                }
                Action::Finish(outcome) => {
                    assert_eq!(state.phase, Phase::Done);
                    self.fallbacks = Some(state.fallbacks);
                    return outcome;
                }
            };
            let next = advance(state, event, &self.summaries, limits);
            state = next.0;
            action = next.1;
        }
        panic!("the query did not finish");
    }
}

fn corpus_a() -> Vec<SourceFile> {
    vec![SourceFile {
        content: "version one of A".to_string(),
        parsed: Some(policy("A", "Alpha Life", &["the fee of A is ten", "A covers accidents"])),
    }]
}

fn limits() -> Limits {
    Limits { recall_limit: 20, rerank_limit: 3, max_chunks_per_doc: 3 }
}

fn score(value: f32) -> Score {
    Score { bits: value.to_bits(), shown: format!("{:.1}", value) }
}

#[test]
fn plain_question_is_answered_from_the_document() {
    let mut world = World::new();
    world.synchronise(&corpus_a());
    assert_eq!(world.index.len(), 2);
    assert!(world.index.iter().all(|row| row.file_hash == calculate_hash("version one of A")));
    let response = world.ask("what is A's fee", &Vec::new(), &limits()).unwrap();
    assert_eq!(response.answer, "generated answer");
    assert_eq!(response.sources, strings(&["A"]));
    assert_eq!(world.searches.len(), 1);
    assert_eq!(world.searches[0], ("what is A's fee premium".to_string(), None, 20));
    assert_eq!(world.generated.len(), 1);
    assert_eq!(world.generated[0].1, "what is A's fee premium");
    assert!(world.generated[0].0.contains("the fee of A is ten"));
    assert_eq!(
        world.fallbacks,
        Some(Fallbacks {
            rewrite_abandoned: false,
            searched_raw: false,
            filter_lifted: false,
            rerank_skipped: true,
        })
    );
}

#[test]
fn bracketed_product_name_forces_its_document() {
    let mut world = World::new();
    let mut files = corpus_a();
    files.push(SourceFile {
        content: "B".to_string(),
        parsed: Some(policy("B", "Beta Care", &["fee fee fee of B", "fee schedule of B"])),
    });
    world.synchronise(&files);
    world.direct_fetch = true;
    world.rerank = Some(RerankReply {
        indices: vec![1, 0],
        scores: vec![score(-9.0), score(-9.5)],
    });
    let response = world.ask("fee of (Alpha Life)", &Vec::new(), &limits()).unwrap();
    assert_eq!(response.sources, strings(&["A"]));
    assert_eq!(world.searches[0].1, Some("source_file = 'A'".to_string()));
    assert_eq!(world.fetches, vec![strings(&["A"])]);
    assert_eq!(
        world.reranked[0],
        vec![
            format!("{}\n文件內容: the fee of A is ten", world.summaries.get("A").unwrap().intro),
            format!("{}\n文件內容: A covers accidents", world.summaries.get("A").unwrap().intro),
        ]
    );
    let context = &world.generated[0].0;
    assert!(context.contains("the fee of A is ten"));
    assert!(context.contains("A covers accidents"));
    assert!(!context.contains("of B"));
}

#[test]
fn without_direct_fetch_a_forced_document_is_still_searched_alone() {
    let mut world = World::new();
    let mut files = corpus_a();
    files.push(SourceFile {
        content: "B".to_string(),
        parsed: Some(policy("B", "Beta Care", &["fee fee fee of B"])),
    });
    world.synchronise(&files);
    let response = world.ask("fee of (Alpha Life)", &Vec::new(), &limits()).unwrap();
    assert_eq!(response.sources, strings(&["A"]));
}

#[test]
fn failing_rerank_service_degrades_to_incoming_order() {
    let mut world = World::new();
    world.synchronise(&vec![SourceFile {
        content: "A".to_string(),
        parsed: Some(policy(
            "A",
            "Alpha Life",
            &["fee one", "fee two", "fee three", "fee four", "fee five"],
        )),
    }]);
    world.rerank = None;
    let wide = Limits { recall_limit: 20, rerank_limit: 10, max_chunks_per_doc: 2 };
    let response = world.ask("fee", &Vec::new(), &wide).unwrap();
    assert_eq!(response.answer, "generated answer");
    assert_eq!(response.sources, strings(&["A"]));
    let context = &world.generated[0].0;
    assert!(context.contains("內容: fee one\n"));
    assert!(context.contains("內容: fee two\n"));
    assert!(!context.contains("fee three"));
    assert_eq!(context.matches("(關聯度:0.0)").count(), 2);
}

#[test]
fn resynchronised_document_is_found_by_its_new_content_only() {
    let mut world = World::new();
    world.synchronise(&corpus_a());
    let old_hash = calculate_hash("version one of A");
    let changed = vec![SourceFile {
        content: "version two of A".to_string(),
        parsed: Some(policy("A", "Alpha Life", &["the surcharge of A is twenty"])),
    }];
    world.synchronise(&changed);
    assert!(world.index.iter().all(|row| row.file_hash == calculate_hash("version two of A")));
    assert!(world.index.iter().all(|row| row.file_hash != old_hash));
    let found = world.ask("surcharge", &Vec::new(), &limits()).unwrap();
    assert_eq!(found.sources, strings(&["A"]));
    assert!(world.generated[0].0.contains("the surcharge of A is twenty"));
    let lost = world.ask("accidents", &Vec::new(), &limits()).unwrap();
    assert_eq!(lost.answer, "抱歉，資料庫中找不到相關資訊，請嘗試其他關鍵字。");
    assert!(lost.sources.is_empty());
    assert_eq!(world.generated.len(), 1);
}

#[test]
fn short_question_with_history_is_rewritten_and_guarded() {
    let mut world = World::new();
    world.synchronise(&corpus_a());
    world.rewrite = Some(" fee of Alpha Life\n".to_string());
    let history = vec![Turn { role: Some("user".to_string()), content: Some("about A".to_string()) }];
    let response = world.ask("and accidents?", &history, &limits()).unwrap();
    assert_eq!(response.sources, strings(&["A"]));
    assert_eq!(world.searches.len(), 1);
    assert_eq!(world.searches[0].0, "fee of Alpha Life and accidents?");
    assert_eq!(world.generated[0].1, "fee of Alpha Life and accidents?");
}

#[test]
fn failed_rewrite_keeps_the_expanded_query() {
    let mut world = World::new();
    world.synchronise(&corpus_a());
    world.rewrite = None;
    let history = vec![Turn { role: Some("user".to_string()), content: Some("about A".to_string()) }];
    let response = world.ask("the fee", &history, &limits()).unwrap();
    assert_eq!(response.sources, strings(&["A"]));
    assert_eq!(world.searches[0].0, "the fee premium");
    assert!(world.fallbacks.unwrap().rewrite_abandoned);
    assert!(!world.fallbacks.unwrap().searched_raw);
}

#[test]
fn empty_search_with_a_rewritten_query_is_retried_with_the_raw_query() {
    let mut world = World::new();
    world.synchronise(&corpus_a());
    world.rewrite = Some("nothing-matches-this".to_string());
    let history = vec![Turn { role: Some("user".to_string()), content: Some("about A".to_string()) }];
    let response = world.ask("fee", &history, &limits()).unwrap();
    assert_eq!(response.sources, strings(&["A"]));
    assert_eq!(world.searches.len(), 2);
    assert_eq!(world.searches[0].0, "nothing-matches-this");
    assert_eq!(world.searches[1].0, "fee");
    assert_eq!(world.generated[0].1, "fee");
    assert_eq!(world.fetches, vec![Vec::<String>::new(), Vec::<String>::new()]);
    assert!(world.fallbacks.unwrap().searched_raw);
    assert!(!world.fallbacks.unwrap().rewrite_abandoned);
}

#[test]
fn empty_search_with_the_raw_query_is_not_retried() {
    let mut world = World::new();
    world.synchronise(&vec![SourceFile {
        content: "A".to_string(),
        parsed: Some(PolicyData {
            rag_data: RagData {
                keywords: Vec::new(),
                target_audience: "一般".to_string(),
                faq: Vec::new(),
                synonym_mapping: None,
                chunks: strings(&["something"]),
            },
            ..policy("A", "Alpha Life", &[])
        }),
    }]);
    let response = world.ask("unknown", &Vec::new(), &limits()).unwrap();
    assert_eq!(response.answer, "抱歉，資料庫中找不到相關資訊，請嘗試其他關鍵字。");
    assert_eq!(world.searches.len(), 1);
}

#[test]
fn passages_that_all_score_below_the_floor_give_the_filtered_message() {
    let mut world = World::new();
    world.synchronise(&corpus_a());
    world.rerank = Some(RerankReply { indices: vec![0, 1], scores: vec![score(-6.0), score(-7.0)] });
    let response = world.ask("fee accidents", &Vec::new(), &limits()).unwrap();
    assert_eq!(response.answer, "雖然有相關文檔，但經過相關性檢測後被過濾掉了。");
    assert!(response.sources.is_empty());
    assert!(world.generated.is_empty());
    assert!(!world.fallbacks.unwrap().rerank_skipped);
}

fn waiting_for_search() -> (QueryState, Table<ProductSummary>) {
    let summaries = Table::new();
    let (state, action) = start("fee", &Vec::new(), &Table::new(), &summaries, &limits());
    assert!(matches!(action, Action::Search { .. }));
    assert_eq!(state.phase, Phase::AwaitingSearch);
    (state, summaries)
}

#[test]
fn failure_of_a_search_ends_the_query_with_its_message() {
    let (state, summaries) = waiting_for_search();
    let (state, action) = advance(state, Event::Failed("index unavailable".to_string()), &summaries, &limits());
    assert_eq!(state.phase, Phase::Done);
    match action {
        Action::Finish(Err(failure)) => {
            assert_eq!(failure.stage, Stage::Retrieval);
            assert_eq!(failure.message, "index unavailable");
            assert_eq!(failure.labeled(), "retrieval: index unavailable");
        }
        _ => panic!("expected the query to fail"),
    }
}

#[test]
fn failure_of_generation_ends_the_query_with_its_message() {
    let (state, summaries) = waiting_for_search();
    let hits = vec![Hit { source: "A".to_string(), text: "fee".to_string() }];
    let (state, _) = advance(state, Event::Retrieved { forced: Vec::new(), nearest: hits }, &summaries, &limits());
    assert_eq!(state.phase, Phase::AwaitingRerank);
    let (state, action) = advance(state, Event::Failed("rerank down".to_string()), &summaries, &limits());
    assert_eq!(state.phase, Phase::AwaitingAnswer);
    assert!(matches!(action, Action::Generate { .. }));
    let (state, action) = advance(state, Event::Failed("缺少 GOOGLE_API_KEY".to_string()), &summaries, &limits());
    assert_eq!(state.phase, Phase::Done);
    match action {
        Action::Finish(Err(failure)) => {
            assert_eq!(failure.stage, Stage::Generation);
            assert_eq!(failure.labeled(), "generation: 缺少 GOOGLE_API_KEY");
        }
        _ => panic!("expected the query to fail"),
    }
}

#[test]
fn event_out_of_turn_ends_the_query() {
    let (state, summaries) = waiting_for_search();
    let (state, action) = advance(state, Event::Answered("too early".to_string()), &summaries, &limits());
    assert_eq!(state.phase, Phase::Done);
    match action {
        Action::Finish(Err(failure)) => {
            assert_eq!(failure.stage, Stage::Protocol);
            assert_eq!(failure.message, OUT_OF_TURN);
        }
        _ => panic!("expected the query to fail"),
    }
    let (_, action) = advance(state, Event::Rewritten(None), &summaries, &limits());
    assert!(matches!(action, Action::Finish(Err(_))));
}

#[test]
fn a_reply_that_ranks_nothing_gives_the_filtered_message() {
    let mut world = World::new();
    world.synchronise(&corpus_a());
    world.rerank = Some(RerankReply { indices: Vec::new(), scores: Vec::new() });
    let response = world.ask("fee accidents", &Vec::new(), &limits()).unwrap();
    assert_eq!(response.answer, "雖然有相關文檔，但經過相關性檢測後被過濾掉了。");
    assert!(response.sources.is_empty());
    assert!(world.generated.is_empty());
    assert_eq!(world.reranked.len(), 1);
    assert!(!world.fallbacks.unwrap().rerank_skipped);
}

#[test]
fn forced_rows_are_asked_for_once_and_kept_through_the_repeated_search() {
    let mut world = World::new();
    world.synchronise(&corpus_a());
    world.direct_fetch = true;
    world.rewrite = Some("nothing-matches-this".to_string());
    let history = vec![Turn { role: Some("user".to_string()), content: Some("about A".to_string()) }];
    let response = world.ask("(Alpha Life)", &history, &limits()).unwrap();
    assert_eq!(world.fetches, vec![strings(&["A"]), Vec::<String>::new()]);
    assert_eq!(world.searches.len(), 2);
    assert_eq!(world.searches[1].0, "(Alpha Life)");
    assert_eq!(world.searches[1].1, Some("source_file = 'A'".to_string()));
    assert_eq!(response.sources, strings(&["A"]));
    assert_eq!(world.reranked[0].len(), 2);
}

#[test]
fn lifted_category_filter_is_recorded() {
    let (_, summaries) = waiting_for_search();
    let (state, _) = start("癌症險", &Vec::new(), &Table::new(), &summaries, &limits());
    let hits = vec![Hit { source: "a.json".to_string(), text: "終身壽險".to_string() }];
    let (state, _) = advance(state, Event::Retrieved { forced: Vec::new(), nearest: hits }, &summaries, &limits());
    assert!(state.fallbacks.filter_lifted);
    assert_eq!(state.candidates.len(), 1);
}

#[test]
fn searches_ask_for_and_keep_at_most_the_recall_limit() {
    let narrow = Limits { recall_limit: 2, rerank_limit: 3, max_chunks_per_doc: 3 };
    let summaries = Table::new();
    let (state, action) = start("fee", &Vec::new(), &Table::new(), &summaries, &narrow);
    match action {
        Action::Search { limit, .. } => assert_eq!(limit, 2),
        _ => panic!("expected a search"),
    }
    let hits = vec![
        Hit { source: "a".to_string(), text: "1".to_string() },
        Hit { source: "a".to_string(), text: "2".to_string() },
        Hit { source: "a".to_string(), text: "3".to_string() },
    ];
    let (state, _) = advance(state, Event::Retrieved { forced: Vec::new(), nearest: hits }, &summaries, &narrow);
    assert_eq!(state.candidates.len(), 2);
}

#[test]
fn category_filter_applies_between_retrieval_and_rerank() {
    let (_, summaries) = waiting_for_search();
    let (state, _) = start("醫療險", &Vec::new(), &Table::new(), &summaries, &limits());
    let hits = vec![
        Hit { source: "a.json".to_string(), text: "終身壽險".to_string() },
        Hit { source: "b.json".to_string(), text: "住院日額".to_string() },
    ];
    let (state, action) = advance(state, Event::Retrieved { forced: Vec::new(), nearest: hits }, &summaries, &limits());
    assert_eq!(state.candidates.len(), 1);
    match action {
        Action::Rerank { query, documents } => {
            assert_eq!(query, "醫療險");
            assert_eq!(documents, strings(&["住院日額"]));
        }
        _ => panic!("expected a rerank"),
    }
}
