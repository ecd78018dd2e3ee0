use insur_rag::advisor::{
    advisor_advance, advisor_start, AdvisorAction, AdvisorEvent, AdvisorOutcome, AdvisorPhase,
    FIRST_SEARCH_LIMIT, RETRY_SEARCH_LIMIT,
};
use insur_rag::assembly::ProductSummary;
use insur_rag::llm::{
    accepts_answer_token, accepts_rewrite_token, bearer_header, chat_completions_url, hosted_url,
    make_answer_request, make_hosted_answer_prompt, make_hosted_rewrite_prompt,
    make_keyword_prompt, select_provider, Provider, DEFAULT_SYSTEM_PROMPT, HOSTED_ENDPOINT,
    CONSOLE_ENDPOINT, REWRITE_INSTRUCTION,
};
use insur_rag::retrieve::Hit;
use insur_rag::rewrite::Turn;
use insur_rag::session::{
    choose_history, exchange_turns, session_key, StoreRead, SESSION_TTL_SECONDS, SESSION_WINDOW,
};
use insur_rag::settings::{parse_count, read_port, read_setting, Limits, DEFAULT_PORT};
use insur_rag::table::Table;

fn strings(items: &[&str]) -> Vec<String> {
    items.iter().map(|s| s.to_string()).collect()
}

fn turn(role: &str, content: &str) -> Turn {
    Turn { role: Some(role.to_string()), content: Some(content.to_string()) }
}

fn contents(turns: &Vec<Turn>) -> Vec<Option<String>> {
    turns.iter().map(|t| t.content.clone()).collect()
}

#[test]
fn provider_defaults_to_the_hosted_service() {
    assert_eq!(select_provider("local"), Provider::Local);
    assert_eq!(select_provider("google"), Provider::Google);
    assert_eq!(select_provider("anything else"), Provider::Google);
    assert_eq!(select_provider(""), Provider::Google);
    assert_eq!(select_provider("Local"), Provider::Google);
}

#[test]
fn chat_url_adds_the_version_segment_when_missing() {
    assert_eq!(
        chat_completions_url("http://localhost:11434"),
        "http://localhost:11434/v1/chat/completions"
    );
    assert_eq!(
        chat_completions_url("http://localhost:8000/v1/"),
        "http://localhost:8000/v1/chat/completions"
    );
    assert_eq!(
        chat_completions_url("http://host/v1/chat/completions"),
        "http://host/v1/chat/completions/chat/completions"
    );
    assert_eq!(chat_completions_url("http://host///"), "http://host/v1/chat/completions");
}

#[test]
fn answer_token_rule_ignores_case_and_white_space() {
    for rejected in ["", "  ", "none", "None", " NONE ", "null", "NULL\n"] {
        assert!(!accepts_answer_token(rejected), "{:?}", rejected);
    }
    for accepted in ["secret", "nonesuch", "n", " token "] {
        assert!(accepts_answer_token(accepted), "{:?}", accepted);
    }
}

#[test]
fn rewrite_token_rule_is_literal() {
    assert!(!accepts_rewrite_token(""));
    assert!(!accepts_rewrite_token("none"));
    assert!(accepts_rewrite_token("None"));
    assert!(accepts_rewrite_token("null"));
    assert!(accepts_rewrite_token(" "));
    assert!(accepts_rewrite_token("secret"));
}

#[test]
fn prompts_have_their_fixed_wording() {
    assert_eq!(bearer_header("secret"), "Bearer secret");
    assert_eq!(make_answer_request("上下文", "問題"), "參考資料：\n上下文\n\n使用者問題：問題");
    assert_eq!(
        make_hosted_answer_prompt(DEFAULT_SYSTEM_PROMPT, "上下文", "問題"),
        "你是一個專業的保險顧問。請根據參考資料回答問題。\n\n參考資料:\n上下文\n\n使用者問題: 問題"
    );
    assert_eq!(make_hosted_rewrite_prompt("指示", "請求"), "指示\n\n請求");
    assert_eq!(
        make_keyword_prompt("月配息"),
        "使用者搜尋: '月配息'。請轉換為3個台灣保險專業關鍵字(如:變額萬能壽險, 月撥回)，用空白分隔，不要有其他文字。"
    );
    assert_eq!(
        hosted_url(HOSTED_ENDPOINT, "k"),
        "https://generativelanguage.googleapis.com/v1beta/models/gemini-2.5-flash:generateContent?key=k"
    );
    assert!(CONSOLE_ENDPOINT.contains("gemini-1.5-flash"));
    assert!(REWRITE_INSTRUCTION.starts_with("\n    你是一個 RAG 搜尋意圖優化專家。"));
    assert!(REWRITE_INSTRUCTION.ends_with("請直接輸出優化後的搜尋字串。\n    "));
}

#[test]
fn parse_count_reads_decimal_notation() {
    assert_eq!(parse_count("20"), Some(20));
    assert_eq!(parse_count("+7"), Some(7));
    assert_eq!(parse_count("007"), Some(7));
    assert_eq!(parse_count("0"), Some(0));
    assert_eq!(parse_count(&usize::MAX.to_string()), Some(usize::MAX));
}

#[test]
fn parse_count_rejects_what_std_rejects() {
    let samples = [
        "", "+", "-", "-1", "-0", " 3", "3 ", "3.0", "1e3", "abc", "１２", "++1", "+-1", "1_000",
        "18446744073709551616", "99999999999999999999999999",
    ];
    for text in samples.iter() {
        assert_eq!(parse_count(text), None, "{:?}", text);
        assert_eq!(parse_count(text), text.parse::<usize>().ok(), "{:?}", text);
    }
    for text in ["5", "+5", "0005", "18446744073709551615"].iter() {
        assert_eq!(parse_count(text), text.parse::<usize>().ok(), "{:?}", text);
    }
}

#[test]
fn settings_fall_back_to_defaults() {
    assert_eq!(read_setting(Some("12"), 3), 12);
    assert_eq!(read_setting(Some("twelve"), 3), 3);
    assert_eq!(read_setting(None, 3), 3);
    assert_eq!(
        Limits::from_settings(None, None, None),
        Limits { recall_limit: 20, rerank_limit: 3, max_chunks_per_doc: 3 }
    );
    assert_eq!(Limits::from_settings(None, None, None), Limits::standard());
    assert_eq!(
        Limits::from_settings(Some("50"), Some("x"), Some("1")),
        Limits { recall_limit: 50, rerank_limit: 3, max_chunks_per_doc: 1 }
    );
}

#[test]
fn port_falls_back_to_the_default() {
    assert_eq!(DEFAULT_PORT, 8080);
    assert_eq!(read_port(None), 8080);
    assert_eq!(read_port(Some("3000")), 3000);
    assert_eq!(read_port(Some("65535")), 65535);
    assert_eq!(read_port(Some("65536")), 8080);
    assert_eq!(read_port(Some("http")), 8080);
    assert_eq!(read_port(Some("")), 8080);
    assert_eq!(read_port(Some("0")), 0);
}

#[test]
fn session_constants_and_key() {
    assert_eq!(session_key("abc"), "chat:abc");
    assert_eq!(SESSION_WINDOW, 10);
    assert_eq!(SESSION_TTL_SECONDS, 86400);
}

#[test]
fn stored_history_wins_when_it_is_readable() {
    let client = vec![turn("user", "from client")];
    let stored = StoreRead::Entries(vec![None, Some(turn("user", "stored one")), Some(turn("assistant", "stored two"))]);
    let choice = choose_history(client, &stored);
    assert!(choice.use_store);
    assert_eq!(
        contents(&choice.history),
        vec![Some("stored one".to_string()), Some("stored two".to_string())]
    );
}

#[test]
fn client_history_is_used_when_the_store_gives_nothing() {
    let client = vec![turn("user", "from client")];
    let empty = choose_history(client.clone(), &StoreRead::Entries(Vec::new()));
    assert!(empty.use_store);
    assert_eq!(contents(&empty.history), vec![Some("from client".to_string())]);
    let unreadable = choose_history(client.clone(), &StoreRead::Entries(vec![None, None]));
    assert!(!unreadable.use_store);
    assert_eq!(contents(&unreadable.history), vec![Some("from client".to_string())]);
    let unavailable = choose_history(client, &StoreRead::Unavailable);
    assert!(!unavailable.use_store);
    assert_eq!(contents(&unavailable.history), vec![Some("from client".to_string())]);
}

#[test]
fn exchange_turns_record_query_and_answer() {
    let (user, assistant) = exchange_turns("問題", "答案");
    assert_eq!(user.role, Some("user".to_string()));
    assert_eq!(user.content, Some("問題".to_string()));
    assert_eq!(assistant.role, Some("assistant".to_string()));
    assert_eq!(assistant.content, Some("答案".to_string()));
}

fn advisor_tables() -> (Table<String>, Table<ProductSummary>) {
    let mut synonyms = Table::new();
    synonyms.insert("月配息".to_string(), "月撥回".to_string());
    let mut summaries = Table::new();
    summaries.insert(
        "a.json".to_string(),
        ProductSummary { name: "甲".to_string(), intro: "甲的介紹".to_string() },
    );
    (synonyms, summaries)
}

fn hit(source: &str, text: &str) -> Hit {
    Hit { source: source.to_string(), text: text.to_string() }
}

#[test]
fn advisor_answers_from_the_first_search() {
    let (synonyms, summaries) = advisor_tables();
    let (state, action) = advisor_start("月配息的保單", &synonyms);
    match action {
        AdvisorAction::Search { query, limit } => {
            assert_eq!(query, "月配息的保單 月撥回");
            assert_eq!(limit, FIRST_SEARCH_LIMIT);
            assert_eq!(limit, 10);
        }
        _ => panic!("expected a search"),
    }
    let hits = vec![hit("b.json", "b1"), hit("a.json", "a1")];
    let (state, action) = advisor_advance(state, AdvisorEvent::Retrieved(hits), &summaries);
    match action {
        AdvisorAction::Generate { context, query } => {
            assert_eq!(query, "月配息的保單");
            assert_eq!(
                context,
                "=== 相關商品基本介紹 ===\n📄 來源: a.json\n甲的介紹\n========================\n\n=== 詳細檢索片段 ===\n📄 [片段] 來源: b.json\n內容: b1\n\n📄 [片段] 來源: a.json\n內容: a1\n\n"
            );
        }
        _ => panic!("expected generation"),
    }
    let (state, action) = advisor_advance(state, AdvisorEvent::Answered("答案".to_string()), &summaries);
    assert_eq!(state.phase, AdvisorPhase::Done);
    match action {
        AdvisorAction::Finish(AdvisorOutcome::Answered(response)) => {
            assert_eq!(response.answer, "答案");
            assert_eq!(response.sources, strings(&["a.json", "b.json"]));
        }
        _ => panic!("expected an answer"),
    }
}

#[test]
fn advisor_retries_with_suggested_keywords() {
    let (synonyms, summaries) = advisor_tables();
    let (state, _) = advisor_start("冷門問題", &synonyms);
    let (state, action) = advisor_advance(state, AdvisorEvent::Retrieved(Vec::new()), &summaries);
    match action {
        AdvisorAction::SuggestKeywords { prompt } => assert!(prompt.starts_with("使用者搜尋: '冷門問題'。")),
        _ => panic!("expected a request for keywords"),
    }
    let (state, action) =
        advisor_advance(state, AdvisorEvent::Keywords(Some(" 變額萬能壽險\n月撥回 ".to_string())), &summaries);
    match action {
        AdvisorAction::Search { query, limit } => {
            assert_eq!(query, "變額萬能壽險 月撥回");
            assert_eq!(limit, RETRY_SEARCH_LIMIT);
            assert_eq!(limit, 3);
        }
        _ => panic!("expected a second search"),
    }
    let (state, action) = advisor_advance(state, AdvisorEvent::Retrieved(Vec::new()), &summaries);
    assert_eq!(state.phase, AdvisorPhase::Done);
    assert!(matches!(action, AdvisorAction::Finish(AdvisorOutcome::NothingFound)));
}

#[test]
fn advisor_gives_up_without_keywords() {
    let (synonyms, summaries) = advisor_tables();
    let (state, _) = advisor_start("冷門問題", &synonyms);
    let (state, _) = advisor_advance(state, AdvisorEvent::Retrieved(Vec::new()), &summaries);
    let (state, action) = advisor_advance(state, AdvisorEvent::Keywords(None), &summaries);
    assert_eq!(state.phase, AdvisorPhase::Done);
    assert!(matches!(action, AdvisorAction::Finish(AdvisorOutcome::NothingFound)));
}

#[test]
fn advisor_reports_failures_of_search_and_generation() {
    let (synonyms, summaries) = advisor_tables();
    let (state, _) = advisor_start("問題", &synonyms);
    let (_, action) = advisor_advance(state, AdvisorEvent::Failed("index down".to_string()), &summaries);
    match action {
        AdvisorAction::Finish(AdvisorOutcome::Failed(message)) => assert_eq!(message, "index down"),
        _ => panic!("expected a failure"),
    }
    let (state, _) = advisor_start("問題", &synonyms);
    let (_, action) = advisor_advance(state, AdvisorEvent::Keywords(None), &summaries);
    assert!(matches!(action, AdvisorAction::Finish(AdvisorOutcome::Failed(_))));
}
