use insur_rag::assembly::ProductSummary;
use insur_rag::context::{
    assemble_context, assemble_plain_context, list_hit_sources, list_sources, sort_names,
    RagResponse,
};
use insur_rag::rerank::{
    choose_passages, is_ranked, judge_documents, keep_first, rerank_selection, select_ranked,
    select_unranked, RerankReply, Score, ScoredChunk, NEGATIVE_INFINITY_BITS, SCORE_FLOOR_BITS,
};
use insur_rag::settings::Limits;
use insur_rag::retrieve::{Candidate, Hit};
use insur_rag::table::Table;

fn score(value: f32) -> Score {
    Score { bits: value.to_bits(), shown: format!("{:.1}", value) }
}

fn reply(ranking: &[(usize, f32)]) -> RerankReply {
    RerankReply {
        indices: ranking.iter().map(|(i, _)| *i).collect(),
        scores: ranking.iter().map(|(_, s)| score(*s)).collect(),
    }
}

fn candidate(source: &str, text: &str) -> Candidate {
    Candidate { source: source.to_string(), text: text.to_string(), forced: false }
}

fn forced(source: &str, text: &str) -> Candidate {
    Candidate { source: source.to_string(), text: text.to_string(), forced: true }
}

fn pool() -> Vec<Candidate> {
    vec![
        candidate("a.json", "a1"),
        candidate("a.json", "a2"),
        candidate("a.json", "a3"),
        candidate("a.json", "a4"),
        candidate("b.json", "b1"),
        candidate("c.json", "c1"),
    ]
}

fn texts(chosen: &Vec<ScoredChunk>) -> Vec<String> {
    chosen.iter().map(|c| c.text.clone()).collect()
}

fn strings(items: &[&str]) -> Vec<String> {
    items.iter().map(|s| s.to_string()).collect()
}

fn summaries() -> Table<ProductSummary> {
    let mut table = Table::new();
    table.insert(
        "a.json".to_string(),
        ProductSummary { name: "甲".to_string(), intro: "甲的介紹".to_string() },
    );
    table.insert(
        "b.json".to_string(),
        ProductSummary { name: "乙".to_string(), intro: "乙的介紹".to_string() },
    );
    table
}

#[test]
fn floor_is_minus_five_in_single_precision() {
    assert_eq!(SCORE_FLOOR_BITS, (-5.0f32).to_bits());
    assert_eq!(NEGATIVE_INFINITY_BITS, f32::NEG_INFINITY.to_bits());
}

#[test]
fn is_below_floor_agrees_with_float_comparison() {
    let values = [
        0.0f32,
        -0.0,
        1.5,
        -4.999,
        -5.0,
        -5.000001,
        -5.5,
        -100.0,
        f32::MAX,
        f32::MIN,
        f32::INFINITY,
        f32::NEG_INFINITY,
        f32::NAN,
        -f32::NAN,
        f32::MIN_POSITIVE,
        -f32::MIN_POSITIVE,
    ];
    for value in values.iter() {
        assert_eq!(score(*value).is_below_floor(), *value < -5.0, "{}", value);
    }
}

#[test]
fn ranked_selection_follows_the_service_order() {
    let chosen = select_ranked(&pool(), &reply(&[(5, 9.0), (4, 8.0), (0, 7.0)]), 10, 3);
    assert_eq!(texts(&chosen), strings(&["c1", "b1", "a1"]));
    assert_eq!(chosen[0].source, "c.json");
    assert_eq!(chosen[0].score.bits, 9.0f32.to_bits());
    assert_eq!(chosen[0].score.shown, "9.0");
}

#[test]
fn ranked_selection_enforces_the_diversity_cap() {
    let ranking = [(0, 9.0), (1, 8.0), (2, 7.0), (3, 6.0), (4, 5.0), (5, 4.0)];
    let chosen = select_ranked(&pool(), &reply(&ranking), 10, 3);
    assert_eq!(texts(&chosen), strings(&["a1", "a2", "a3", "b1", "c1"]));
    let chosen = select_ranked(&pool(), &reply(&ranking), 10, 1);
    assert_eq!(texts(&chosen), strings(&["a1", "b1", "c1"]));
    let chosen = select_ranked(&pool(), &reply(&ranking), 10, 0);
    assert!(chosen.is_empty());
}

#[test]
fn ranked_selection_drops_scores_below_the_floor() {
    let ranking = [(0, -5.1), (1, -5.0), (4, -7.5), (5, f32::NAN), (2, -4.9)];
    let chosen = select_ranked(&pool(), &reply(&ranking), 10, 3);
    assert_eq!(texts(&chosen), strings(&["a2", "c1", "a3"]));
}

#[test]
fn low_scores_never_appear_whatever_the_cap() {
    let ranking = [(0, -6.0), (4, -5.5), (5, -100.0), (1, 0.5)];
    for cap in 0..5 {
        let chosen = select_ranked(&pool(), &reply(&ranking), 10, cap);
        assert!(chosen.iter().all(|c| !(f32::from_bits(c.score.bits) < -5.0)));
        assert!(chosen.len() <= 1);
    }
}

#[test]
fn ranked_selection_stops_at_the_limit_and_skips_unknown_positions() {
    let ranking = [(17, 9.0), (5, 8.0), (4, 7.0), (0, 6.0)];
    let chosen = select_ranked(&pool(), &reply(&ranking), 2, 3);
    assert_eq!(texts(&chosen), strings(&["c1", "b1"]));
    assert!(select_ranked(&pool(), &reply(&ranking), 0, 3).is_empty());
}

#[test]
fn forced_candidates_survive_the_score_floor() {
    let candidates = vec![forced("a.json", "named by the user"), candidate("b.json", "b1")];
    let chosen = select_ranked(&candidates, &reply(&[(1, -9.0), (0, -9.0)]), 10, 3);
    assert_eq!(texts(&chosen), strings(&["named by the user"]));
    assert!(chosen[0].forced);
}

#[test]
fn unranked_selection_keeps_incoming_order_with_placeholder_scores() {
    let chosen = select_unranked(&pool(), 10, 3);
    assert_eq!(texts(&chosen), strings(&["a1", "a2", "a3", "b1", "c1"]));
    assert!(chosen.iter().all(|c| c.score.bits == 0.0f32.to_bits() && c.score.shown == "0.0"));
    assert_eq!(texts(&select_unranked(&pool(), 2, 3)), strings(&["a1", "a2"]));
    assert_eq!(texts(&select_unranked(&pool(), 10, 1)), strings(&["a1", "b1", "c1"]));
    assert!(select_unranked(&Vec::new(), 10, 3).is_empty());
}

#[test]
fn selection_falls_back_without_a_reply_that_can_be_followed() {
    let expected = strings(&["a1", "a2", "a3", "b1", "c1"]);
    assert_eq!(texts(&rerank_selection(&pool(), &None, 10, 3)), expected);
    let short = RerankReply { indices: vec![5, 4], scores: vec![score(1.0)] };
    assert_eq!(texts(&rerank_selection(&pool(), &Some(short), 10, 3)), expected);
}

#[test]
fn a_reply_that_ranks_nothing_selects_nothing() {
    let empty = RerankReply { indices: Vec::new(), scores: Vec::new() };
    assert!(rerank_selection(&pool(), &Some(empty.clone()), 10, 3).is_empty());
    let limits = Limits { recall_limit: 20, rerank_limit: 3, max_chunks_per_doc: 3 };
    assert!(choose_passages(&pool(), &Some(empty), &limits).is_empty());
    let spare = RerankReply { indices: Vec::new(), scores: vec![score(1.0)] };
    assert!(rerank_selection(&pool(), &Some(spare), 10, 3).is_empty());
}

#[test]
fn selection_follows_a_usable_reply() {
    let chosen = rerank_selection(&pool(), &Some(reply(&[(4, 2.0), (0, -8.0), (5, 1.0)])), 10, 3);
    assert_eq!(texts(&chosen), strings(&["b1", "c1"]));
}

#[test]
fn no_source_exceeds_the_cap_in_any_mode() {
    let ranking = [(3, 1.0), (2, 1.0), (1, 1.0), (0, 1.0), (0, 1.0), (4, 1.0)];
    for cap in 0..4 {
        for outcome in [None, Some(reply(&ranking))] {
            let chosen = rerank_selection(&pool(), &outcome, 10, cap);
            for source in ["a.json", "b.json", "c.json"] {
                assert!(chosen.iter().filter(|c| c.source == source).count() <= cap);
            }
        }
    }
}

#[test]
fn a_reply_is_followed_when_it_scores_what_it_ranks() {
    assert!(is_ranked(&Some(reply(&[(0, 1.0)]))));
    assert!(!is_ranked(&None));
    assert!(is_ranked(&Some(RerankReply { indices: Vec::new(), scores: Vec::new() })));
    assert!(!is_ranked(&Some(RerankReply { indices: vec![0, 1], scores: vec![score(1.0)] })));
    assert!(is_ranked(&Some(RerankReply { indices: vec![0], scores: vec![score(1.0), score(2.0)] })));
}

#[test]
fn chosen_passages_are_cut_to_the_target_count() {
    let limits = Limits { recall_limit: 4, rerank_limit: 2, max_chunks_per_doc: 1 };
    let ranking = [(5, 3.0), (0, 2.0), (1, 1.5), (4, 1.0)];
    assert_eq!(texts(&choose_passages(&pool(), &Some(reply(&ranking)), &limits)), strings(&["c1", "a1"]));
    assert_eq!(texts(&choose_passages(&pool(), &None, &limits)), strings(&["a1", "b1"]));
    let wide = Limits { recall_limit: 2, rerank_limit: 9, max_chunks_per_doc: 9 };
    assert_eq!(texts(&choose_passages(&pool(), &None, &wide)), strings(&["a1", "a2"]));
}

#[test]
fn keep_first_truncates_to_the_target_count() {
    let chosen = select_unranked(&pool(), 10, 3);
    assert_eq!(texts(&keep_first(chosen.clone(), 3)), strings(&["a1", "a2", "a3"]));
    assert_eq!(texts(&keep_first(chosen.clone(), 0)), Vec::<String>::new());
    assert_eq!(keep_first(chosen, 50).len(), 5);
}

#[test]
fn judge_documents_prefix_the_summary_of_known_products() {
    let candidates = vec![candidate("a.json", "a1"), candidate("zzz.json", "z1")];
    assert_eq!(
        judge_documents(&candidates, &summaries()),
        strings(&["甲的介紹\n文件內容: a1", "z1"])
    );
}

#[test]
fn sort_names_sorts_and_removes_repetitions() {
    assert_eq!(
        sort_names(&strings(&["b.json", "a.json", "甲.json", "b.json", "A.json", "a.json"])),
        strings(&["A.json", "a.json", "b.json", "甲.json"])
    );
    assert_eq!(sort_names(&Vec::new()), Vec::<String>::new());
}

#[test]
fn list_sources_names_every_source_once() {
    let chosen = select_unranked(&pool(), 10, 3);
    assert_eq!(list_sources(&chosen), strings(&["a.json", "b.json", "c.json"]));
    let hits = vec![
        Hit { source: "z".to_string(), text: "1".to_string() },
        Hit { source: "m".to_string(), text: "2".to_string() },
        Hit { source: "z".to_string(), text: "3".to_string() },
    ];
    assert_eq!(list_hit_sources(&hits), strings(&["m", "z"]));
}

#[test]
fn context_has_overview_then_passages() {
    let candidates = vec![candidate("b.json", "b1"), candidate("x.json", "x1"), candidate("a.json", "a1")];
    let chosen = select_ranked(&candidates, &reply(&[(0, 3.25), (1, -1.0), (2, 0.04)]), 10, 3);
    assert_eq!(
        assemble_context(&chosen, &summaries()),
        "=== 相關商品基本介紹 ===\n\
         📄 來源: a.json\n甲的介紹\n\
         📄 來源: b.json\n乙的介紹\n\
         ========================\n\n\
         === 詳細檢索片段 ===\n\
         📄 [精選片段] (關聯度:3.2) 來源: b.json\n內容: b1\n\n\
         📄 [精選片段] (關聯度:-1.0) 來源: x.json\n內容: x1\n\n\
         📄 [精選片段] (關聯度:0.0) 來源: a.json\n內容: a1\n\n"
    );
}

#[test]
fn plain_context_tags_passages_with_their_source_only() {
    let hits = vec![
        Hit { source: "b.json".to_string(), text: "b1".to_string() },
        Hit { source: "b.json".to_string(), text: "b2".to_string() },
    ];
    assert_eq!(
        assemble_plain_context(&hits, &summaries()),
        "=== 相關商品基本介紹 ===\n\
         📄 來源: b.json\n乙的介紹\n\
         ========================\n\n\
         === 詳細檢索片段 ===\n\
         📄 [片段] 來源: b.json\n內容: b1\n\n\
         📄 [片段] 來源: b.json\n內容: b2\n\n"
    );
}

#[test]
fn responses_for_empty_results_are_distinct_messages() {
    let nothing = RagResponse::nothing_found();
    let filtered = RagResponse::nothing_relevant();
    assert_eq!(nothing.answer, "抱歉，資料庫中找不到相關資訊，請嘗試其他關鍵字。");
    assert_eq!(filtered.answer, "雖然有相關文檔，但經過相關性檢測後被過濾掉了。");
    assert!(nothing.sources.is_empty());
    assert!(filtered.sources.is_empty());
    assert_ne!(nothing.answer, filtered.answer);
}

#[test]
fn answered_response_lists_sorted_sources() {
    let chosen = select_unranked(&vec![candidate("b", "1"), candidate("a", "2"), candidate("b", "3")], 10, 3);
    let response = RagResponse::answered("答案".to_string(), &chosen);
    assert_eq!(response.answer, "答案");
    assert_eq!(response.sources, strings(&["a", "b"]));
}
