use insur_rag::assembly::ProductSummary;
use insur_rag::category::{
    allowed_keywords, filter_by_category, filter_candidates, protected_rule_table,
    strict_rule_table, triggered_keywords,
};
use insur_rag::intent::{
    bracketed_spans, extract_intent, forced_filenames, row_filter, search_filter,
};
use insur_rag::normalize::{expand_with_synonyms, normalize_query, prepare_query};
use insur_rag::retrieve::{
    cap_per_file, gather_candidates, merge_candidates, needs_fallback, Candidate, Hit,
};
use insur_rag::rewrite::{
    apply_safety_net, clean_rewrite, history_text, make_rewrite_request, settle_query,
    should_rewrite, Turn,
};
use insur_rag::table::Table;

fn strings(items: &[&str]) -> Vec<String> {
    items.iter().map(|s| s.to_string()).collect()
}

fn synonyms(pairs: &[(&str, &str)]) -> Table<String> {
    let mut table = Table::new();
    for (slang, formal) in pairs {
        table.insert(slang.to_string(), formal.to_string());
    }
    table
}

fn summaries(entries: &[(&str, &str)]) -> Table<ProductSummary> {
    let mut table = Table::new();
    for (filename, name) in entries {
        table.insert(
            filename.to_string(),
            ProductSummary { name: name.to_string(), intro: format!("intro of {}", name) },
        );
    }
    table
}

fn hit(source: &str, text: &str) -> Hit {
    Hit { source: source.to_string(), text: text.to_string() }
}

fn candidate(source: &str, text: &str) -> Candidate {
    Candidate { source: source.to_string(), text: text.to_string(), forced: false }
}

fn pairs(candidates: &Vec<Candidate>) -> Vec<(String, String, bool)> {
    candidates.iter().map(|c| (c.source.clone(), c.text.clone(), c.forced)).collect()
}

fn turn(role: &str, content: &str) -> Turn {
    Turn { role: Some(role.to_string()), content: Some(content.to_string()) }
}

#[test]
fn normalize_query_separates_digits_and_ideographs() {
    assert_eq!(normalize_query("我30歲想買100萬保額"), "我 30 歲想買 100 萬保額");
    assert_eq!(normalize_query("30歲"), "30 歲");
    assert_eq!(normalize_query("第3"), "第 3");
    assert_eq!(normalize_query("滿65歲後"), "滿 65 歲後");
}

#[test]
fn normalize_query_leaves_separated_and_latin_text_alone() {
    assert_eq!(normalize_query("30 歲"), "30 歲");
    assert_eq!(normalize_query("plan B2 for 30 years"), "plan B2 for 30 years");
    assert_eq!(normalize_query("醫療險的保費"), "醫療險的保費");
    assert_eq!(normalize_query(""), "");
}

#[test]
fn expand_with_synonyms_appends_formal_terms_in_table_order() {
    let table = synonyms(&[("醫療險", "住院醫療保險"), ("壽險", "人壽保險"), ("保費", "保險費")]);
    assert_eq!(
        expand_with_synonyms("base".to_string(), "醫療險的保費多少", &table),
        "base 住院醫療保險 保險費"
    );
    assert_eq!(expand_with_synonyms("base".to_string(), "沒有命中", &table), "base");
    assert_eq!(expand_with_synonyms("base".to_string(), "醫療險", &Table::new()), "base");
}

#[test]
fn prepare_query_keeps_the_normalised_query_as_prefix() {
    let table = synonyms(&[("30歲", "三十歲")]);
    assert_eq!(prepare_query("30歲男性", &table), "30 歲男性 三十歲");
}

#[test]
fn bracketed_spans_handles_every_supported_pair() {
    assert_eq!(
        bracketed_spans("想了解「活利優退」跟『安心保』還有《甲》【乙】“丙”\"丁\"‘戊’'己'（庚）(辛)"),
        strings(&["活利優退", "安心保", "甲", "乙", "丙", "丁", "戊", "己", "庚", "辛"])
    );
}

#[test]
fn bracketed_spans_takes_the_shortest_span_and_may_be_empty() {
    assert_eq!(bracketed_spans("「甲」和「乙」"), strings(&["甲", "乙"]));
    assert_eq!(bracketed_spans("「」"), strings(&[""]));
    assert_eq!(bracketed_spans("沒有括號"), Vec::<String>::new());
    assert_eq!(bracketed_spans("「未關閉"), Vec::<String>::new());
    assert_eq!(bracketed_spans("「跨\n行」"), Vec::<String>::new());
}

#[test]
fn forced_filenames_match_filename_or_product_name() {
    let table = summaries(&[
        ("活利優退.json", "活利優退分紅終身保險"),
        ("b.json", "安心保住院醫療"),
        ("c.json", "其他商品"),
    ]);
    assert_eq!(
        forced_filenames(&strings(&["安心保"]), &table),
        strings(&["b.json"])
    );
    assert_eq!(
        forced_filenames(&strings(&["安心保", "活利"]), &table),
        strings(&["活利優退.json", "b.json"])
    );
    assert_eq!(forced_filenames(&strings(&[".json"]), &table).len(), 3);
    assert_eq!(forced_filenames(&strings(&["不存在"]), &table), Vec::<String>::new());
    assert_eq!(forced_filenames(&Vec::new(), &table), Vec::<String>::new());
    assert_eq!(forced_filenames(&strings(&[""]), &table).len(), 3);
}

#[test]
fn extract_intent_resolves_bracketed_names() {
    let table = summaries(&[("a.json", "活利優退"), ("b.json", "安心保")]);
    assert_eq!(extract_intent("請問「安心保」的費用", &table), strings(&["b.json"]));
    assert_eq!(extract_intent("請問安心保的費用", &table), Vec::<String>::new());
    assert_eq!(extract_intent("請問「沒有這個」的費用", &table), Vec::<String>::new());
}

#[test]
fn search_filter_joins_conditions_with_or() {
    assert_eq!(search_filter(&Vec::new()), None);
    assert_eq!(search_filter(&strings(&["a.json"])), Some("source_file = 'a.json'".to_string()));
    assert_eq!(
        search_filter(&strings(&["a.json", "b.json"])),
        Some("source_file = 'a.json' OR source_file = 'b.json'".to_string())
    );
    assert_eq!(row_filter("甲.json"), "source_file = '甲.json'");
}

#[test]
fn should_rewrite_needs_history_and_a_short_query() {
    let history = vec![turn("user", "30歲男性想買投資型")];
    assert!(should_rewrite(&history, "那費用呢"));
    assert!(!should_rewrite(&Vec::new(), "那費用呢"));
    let forty_nine: String = "問".repeat(49);
    let fifty: String = "問".repeat(50);
    assert!(should_rewrite(&history, &forty_nine));
    assert!(!should_rewrite(&history, &fifty));
}

#[test]
fn history_text_shows_the_last_four_turns() {
    let history = vec![
        turn("user", "一"),
        turn("assistant", "二"),
        Turn { role: None, content: Some("三".to_string()) },
        Turn { role: Some("user".to_string()), content: None },
        turn("assistant", "五"),
    ];
    assert_eq!(history_text(&history), "assistant: 二\nunknown: 三\nuser: \nassistant: 五");
    assert_eq!(history_text(&history[..2].to_vec()), "user: 一\nassistant: 二");
    assert_eq!(history_text(&Vec::new()), "");
}

#[test]
fn rewrite_request_holds_history_and_query() {
    let history = vec![turn("user", "50歲女性"), turn("assistant", "推薦防癌險")];
    assert_eq!(
        make_rewrite_request(&history, "費用多少"),
        "對話歷史:\nuser: 50歲女性\nassistant: 推薦防癌險\n\n使用者最新問題: 費用多少"
    );
}

#[test]
fn clean_rewrite_trims_and_joins_lines() {
    assert_eq!(clean_rewrite("  50歲女性 防癌險\n費用費率 \n"), "50歲女性 防癌險 費用費率");
    assert_eq!(clean_rewrite("\n\n"), "");
    assert_eq!(clean_rewrite("a\n\nb"), "a  b");
}

#[test]
fn safety_net_restores_a_dropped_query() {
    assert_eq!(
        apply_safety_net("50歲女性 防癌險".to_string(), "那保費呢"),
        "50歲女性 防癌險 那保費呢"
    );
    assert_eq!(
        apply_safety_net("unrelated".to_string(), "abcdefg"),
        "unrelated abcdefg"
    );
}

#[test]
fn safety_net_leaves_rewrites_that_keep_the_query() {
    assert_eq!(
        apply_safety_net("50歲女性 那保費呢 防癌險".to_string(), "那保費呢"),
        "50歲女性 那保費呢 防癌險"
    );
}

#[test]
fn safety_net_ignores_queries_of_six_bytes_or_fewer() {
    assert_eq!(apply_safety_net("rewritten".to_string(), "abcdef"), "rewritten");
    assert_eq!(apply_safety_net("rewritten".to_string(), "費用"), "rewritten");
    assert_eq!(apply_safety_net("rewritten".to_string(), ""), "rewritten");
}

#[test]
fn guarded_rewrite_always_contains_a_long_enough_query() {
    let queries = ["那如果不要投資，純粹壽險呢？", "abcdefg", "費用多少", "what about the fee"];
    let rewrites = ["", "30歲男性 終身壽險", "abcdef", "the fee", "費用"];
    for raw in queries.iter() {
        for rewritten in rewrites.iter() {
            let guarded = apply_safety_net(rewritten.to_string(), raw);
            assert!(guarded.contains(raw), "{:?} lost in {:?}", raw, guarded);
            assert!(guarded.starts_with(rewritten));
        }
    }
}

#[test]
fn settle_query_uses_the_rewrite_or_falls_back() {
    assert_eq!(
        settle_query("expanded".to_string(), "那保費呢", Some(" 防癌險\n費用 ".to_string())),
        "防癌險 費用 那保費呢"
    );
    assert_eq!(settle_query("expanded".to_string(), "那保費呢", None), "expanded");
}

#[test]
fn merge_keeps_one_entry_per_text_with_the_first_source() {
    let nearest = vec![
        hit("a.json", "same text"),
        hit("b.json", "same text"),
        hit("b.json", "other text"),
        hit("a.json", "other text"),
        hit("c.json", "third"),
    ];
    let merged = merge_candidates(&Vec::new(), &nearest);
    assert_eq!(
        pairs(&merged),
        vec![
            ("a.json".to_string(), "same text".to_string(), false),
            ("b.json".to_string(), "other text".to_string(), false),
            ("c.json".to_string(), "third".to_string(), false),
        ]
    );
}

#[test]
fn merge_puts_forced_rows_first_and_marks_them() {
    let forced = vec![hit("a.json", "forced text"), hit("a.json", "shared")];
    let nearest = vec![hit("b.json", "shared"), hit("b.json", "near"), hit("c.json", "forced text")];
    let merged = merge_candidates(&forced, &nearest);
    assert_eq!(
        pairs(&merged),
        vec![
            ("a.json".to_string(), "forced text".to_string(), true),
            ("a.json".to_string(), "shared".to_string(), true),
            ("b.json".to_string(), "near".to_string(), false),
        ]
    );
    assert!(merge_candidates(&Vec::new(), &Vec::new()).is_empty());
}

#[test]
fn gathered_candidates_respect_the_recall_limit() {
    let forced = vec![hit("a.json", "f1")];
    let nearest = vec![hit("b.json", "n1"), hit("b.json", "f1"), hit("b.json", "n3"), hit("c.json", "n4")];
    let gathered = gather_candidates(&forced, nearest.clone(), 3);
    assert_eq!(
        pairs(&gathered),
        vec![
            ("a.json".to_string(), "f1".to_string(), true),
            ("b.json".to_string(), "n1".to_string(), false),
            ("b.json".to_string(), "n3".to_string(), false),
        ]
    );
    assert!(gather_candidates(&forced, nearest.clone(), 0).is_empty());
    assert_eq!(gather_candidates(&forced, nearest, 100).len(), 4);
}

#[test]
fn forced_rows_are_capped_per_file() {
    let rows = vec![hit("a", "1"), hit("b", "2"), hit("a", "3"), hit("a", "4"), hit("b", "5")];
    let kept = cap_per_file(&rows, 2);
    assert_eq!(
        kept.iter().map(|h| h.text.clone()).collect::<Vec<_>>(),
        strings(&["1", "2", "3", "5"])
    );
    assert!(cap_per_file(&rows, 0).is_empty());
    assert_eq!(cap_per_file(&rows, 9).len(), 5);
    let gathered = gather_candidates(&rows, Vec::new(), 1);
    assert_eq!(
        pairs(&gathered),
        vec![("a".to_string(), "1".to_string(), true), ("b".to_string(), "2".to_string(), true)]
    );
}

#[test]
fn fallback_is_due_only_for_an_empty_result_of_a_changed_query() {
    assert!(needs_fallback(0, "rewritten", "raw"));
    assert!(!needs_fallback(0, "raw", "raw"));
    assert!(!needs_fallback(1, "rewritten", "raw"));
}

#[test]
fn rule_tables_hold_the_categories() {
    let strict = strict_rule_table();
    assert_eq!(
        strict.iter().map(|r| r.category.clone()).collect::<Vec<_>>(),
        strings(&["醫療", "癌症", "長照", "打工", "投資"])
    );
    assert_eq!(strict[0].keywords, strings(&["醫療", "手術", "住院", "實支實付", "健康保險"]));
    assert_eq!(strict[4].keywords, strings(&["投資", "基金", "變額", "收益"]));
    let protected = protected_rule_table();
    assert_eq!(
        protected.iter().map(|r| r.category.clone()).collect::<Vec<_>>(),
        strings(&["壽險", "意外"])
    );
    assert_eq!(protected[1].keywords, strings(&["意外", "傷害", "骨折", "產險"]));
}

#[test]
fn allow_set_needs_a_strict_category() {
    assert_eq!(allowed_keywords("想買壽險"), Vec::<String>::new());
    assert_eq!(allowed_keywords("隨便問問"), Vec::<String>::new());
    assert_eq!(
        allowed_keywords("癌症險有哪些"),
        strings(&["癌症", "防癌", "惡性腫瘤", "化療", "標靶"])
    );
    assert_eq!(
        allowed_keywords("意外跟醫療都想看"),
        strings(&["醫療", "手術", "住院", "實支實付", "健康保險", "意外", "傷害", "骨折", "產險"])
    );
    assert_eq!(
        triggered_keywords("投資和長照", &strict_rule_table()),
        strings(&["長照", "長期照顧", "失能", "扶助", "投資", "基金", "變額", "收益"])
    );
}

#[test]
fn category_filter_keeps_candidates_that_mention_a_keyword() {
    let candidates = vec![
        candidate("住院醫療.json", "無關內容"),
        candidate("b.json", "本商品提供手術保險金"),
        candidate("c.json", "終身壽險的身故保障"),
    ];
    let kept = filter_by_category("醫療險推薦", candidates);
    assert!(!kept.lifted);
    assert_eq!(
        pairs(&kept.candidates),
        vec![
            ("住院醫療.json".to_string(), "無關內容".to_string(), false),
            ("b.json".to_string(), "本商品提供手術保險金".to_string(), false),
        ]
    );
}

#[test]
fn category_filter_reads_only_the_leading_window_of_the_text() {
    let late = format!("{}手術", "無".repeat(199));
    let inside = format!("{}手術", "無".repeat(198));
    let candidates = vec![candidate("a.json", &late), candidate("b.json", &inside)];
    let kept = filter_by_category("醫療", candidates).candidates;
    assert_eq!(kept.len(), 1);
    assert_eq!(kept[0].source, "b.json");
}

#[test]
fn category_filter_fails_open_when_nothing_would_pass() {
    let candidates = vec![candidate("a.json", "終身壽險"), candidate("b.json", "年金保險")];
    let kept = filter_by_category("癌症險推薦", candidates.clone());
    assert!(kept.lifted);
    assert_eq!(pairs(&kept.candidates), pairs(&candidates));
    let kept = filter_candidates(&strings(&["不存在的關鍵字"]), candidates.clone());
    assert!(kept.lifted);
    assert_eq!(pairs(&kept.candidates), pairs(&candidates));
}

#[test]
fn category_filter_does_nothing_without_a_strict_category() {
    let candidates = vec![candidate("a.json", "終身壽險"), candidate("b.json", "手術")];
    let kept = filter_by_category("壽險推薦", candidates.clone());
    assert!(!kept.lifted);
    assert_eq!(pairs(&kept.candidates), pairs(&candidates));
    let none = filter_by_category("醫療", Vec::new());
    assert!(none.candidates.is_empty());
    assert!(none.lifted);
}
