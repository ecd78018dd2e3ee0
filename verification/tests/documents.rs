use insur_rag::assembly::{chunk_document, make_intro, summarize};
use insur_rag::chunking::{find_json_part, semantic_chunking};
use insur_rag::models::{
    optional_string_or_seq, string_or_seq, BasicInfo, Conditions, Coverage, FaqItem,
    InsuranceMetadata, Investment, JsonField, ParsedDocument, PolicyData, RagData,
};
use insur_rag::policy_chunks::{chunk_policy_data, chunk_policy_data_old};
use insur_rag::tags::collect_tags;

fn strings(items: &[&str]) -> Vec<String> {
    items.iter().map(|s| s.to_string()).collect()
}

fn faq(q: &str, a: &str) -> FaqItem {
    FaqItem { q: q.to_string(), a: a.to_string() }
}

fn sample_policy() -> PolicyData {
    PolicyData {
        source_filename: "活利優退.json".to_string(),
        basic_info: BasicInfo {
            product_name: "活利優退分紅終身保險".to_string(),
            product_code: "ABC-123".to_string(),
            company: "某人壽".to_string(),
            currency: strings(&["USD"]),
            product_type: "終身壽險".to_string(),
            payment_period: "6年期繳".to_string(),
        },
        conditions: Conditions {
            age_range: "0歲至75歲".to_string(),
            premium_limit: "最低3000美元".to_string(),
            fees_and_discounts: "高保額折扣1%".to_string(),
        },
        coverage: Coverage {
            death_benefit: "身故保險金".to_string(),
            maturity_benefit: "無".to_string(),
            other_benefits: strings(&["完全失能保險金"]),
        },
        investment: Investment {
            is_investment_linked: false,
            features: strings(&["分紅"]),
            risks: Vec::new(),
        },
        rag_data: RagData {
            keywords: strings(&["分紅保單", "固定利率", "美元保單"]),
            target_audience: "想為子女存教育金的家長".to_string(),
            faq: vec![faq("可以借款嗎？", "可以。")],
            synonym_mapping: None,
            chunks: Vec::new(),
        },
    }
}

#[test]
fn find_json_part_cuts_from_first_open_to_last_close_brace() {
    assert_eq!(find_json_part("log line\n{\"a\": {\"b\": 1}}\ntrailer"), Some("{\"a\": {\"b\": 1}}"));
    assert_eq!(find_json_part("{}"), Some("{}"));
    assert_eq!(find_json_part("紀錄 {\"名稱\": \"甲\"} 完成"), Some("{\"名稱\": \"甲\"}"));
}

#[test]
fn find_json_part_needs_both_braces_in_order() {
    assert_eq!(find_json_part("no json here"), None);
    assert_eq!(find_json_part("only { open"), None);
    assert_eq!(find_json_part("only } close"), None);
    assert_eq!(find_json_part("} reversed {"), None);
    assert_eq!(find_json_part(""), None);
}

#[test]
fn string_or_seq_normalises_every_shape() {
    assert_eq!(string_or_seq(JsonField::Text("甲".to_string())), "甲");
    assert_eq!(
        string_or_seq(JsonField::List(vec![Some("A".to_string()), None, Some("B".to_string())])),
        "A, , B"
    );
    assert_eq!(string_or_seq(JsonField::List(Vec::new())), "");
    assert_eq!(string_or_seq(JsonField::Null), "Unknown Product");
    assert_eq!(string_or_seq(JsonField::Other("42".to_string())), "42");
}

#[test]
fn optional_string_or_seq_drops_null_and_blank() {
    assert_eq!(optional_string_or_seq(JsonField::Null), None);
    assert_eq!(optional_string_or_seq(JsonField::Text("  \n".to_string())), None);
    assert_eq!(optional_string_or_seq(JsonField::Text(String::new())), None);
    assert_eq!(
        optional_string_or_seq(JsonField::Text(" 甲 ".to_string())),
        Some(" 甲 ".to_string())
    );
    assert_eq!(
        optional_string_or_seq(JsonField::List(vec![Some("A".to_string()), Some("B".to_string())])),
        Some("A, B".to_string())
    );
    assert_eq!(optional_string_or_seq(JsonField::List(Vec::new())), Some(String::new()));
    assert_eq!(optional_string_or_seq(JsonField::Other("true".to_string())), Some("true".to_string()));
}

#[test]
fn semantic_chunking_makes_one_chunk_per_sentence_then_per_benefit() {
    let doc = ParsedDocument {
        metadata: InsuranceMetadata {
            product_name: "安心保".to_string(),
            product_code: Some("X-1".to_string()),
            insurance_type: strings(&["壽險"]),
            benefits: strings(&["身故給付", "失能給付"]),
            currency: "TWD".to_string(),
            target_audience: None,
        },
        full_text: " 第一句。\n第二句 。 。".to_string(),
    };
    let chunks = semantic_chunking(&doc, "a.pdf");
    assert_eq!(
        chunks,
        vec![
            "來源: a.pdf | 商品: 安心保 | 文號: X-1 | 對象: 不限 | 內容: 第一句".to_string(),
            "來源: a.pdf | 商品: 安心保 | 文號: X-1 | 對象: 不限 | 內容: 第二句".to_string(),
            "商品: 安心保 | 給付項目: 身故給付".to_string(),
            "商品: 安心保 | 給付項目: 失能給付".to_string(),
        ]
    );
}

#[test]
fn semantic_chunking_of_blank_text_without_benefits_is_empty() {
    let doc = ParsedDocument {
        metadata: InsuranceMetadata {
            product_name: "甲".to_string(),
            product_code: None,
            insurance_type: Vec::new(),
            benefits: Vec::new(),
            currency: String::new(),
            target_audience: Some("青年".to_string()),
        },
        full_text: "  。。 ".to_string(),
    };
    assert!(semantic_chunking(&doc, "b.pdf").is_empty());
}

#[test]
fn semantic_chunking_writes_missing_code_as_empty_and_uses_audience() {
    let doc = ParsedDocument {
        metadata: InsuranceMetadata {
            product_name: "甲".to_string(),
            product_code: None,
            insurance_type: Vec::new(),
            benefits: Vec::new(),
            currency: String::new(),
            target_audience: Some("青年".to_string()),
        },
        full_text: "內容".to_string(),
    };
    assert_eq!(
        semantic_chunking(&doc, "b.pdf"),
        vec!["來源: b.pdf | 商品: 甲 | 文號:  | 對象: 青年 | 內容: 內容".to_string()]
    );
}

#[test]
fn collect_tags_follows_the_rules_in_order() {
    let tags = collect_tags(&sample_policy());
    assert_eq!(
        tags,
        strings(&[
            "傳統型保單",
            "固定利率",
            "保證給付",
            "壽險保障",
            "身故賠償",
            "留愛給家人",
            "資產傳承",
            "美元保單",
            "美金保單",
            "強勢貨幣",
            "外幣保單",
            "資產配置",
            "期繳",
            "分期繳費",
            "兒童保單",
            "教育基金",
            "分紅保單",
        ])
    );
}

#[test]
fn collect_tags_for_investment_linked_single_premium_annuity() {
    let mut policy = sample_policy();
    policy.investment.is_investment_linked = true;
    policy.basic_info.product_type = "變額年金".to_string();
    policy.basic_info.currency = strings(&["TWD", "新台幣"]);
    policy.basic_info.payment_period = "躉繳".to_string();
    policy.coverage.death_benefit = "無".to_string();
    policy.rag_data.target_audience = "65歲以上高齡者".to_string();
    policy.rag_data.keywords = Vec::new();
    assert_eq!(
        collect_tags(&policy),
        strings(&[
            "投資型保單",
            "基金保單",
            "變額保險",
            "理財型保險",
            "高風險高報酬",
            "退休規劃",
            "養老金",
            "儲蓄險",
            "存錢",
            "現金流",
            "躉繳",
            "一次繳清",
            "單筆投資",
            "銀髮族保單",
            "高齡投保",
        ])
    );
}

#[test]
fn benefit_descriptions_count_by_bytes() {
    let mut policy = sample_policy();
    policy.basic_info.product_type = "醫療".to_string();
    policy.coverage.death_benefit = "身故".to_string();
    assert!(collect_tags(&policy).contains(&"壽險保障".to_string()));
    policy.coverage.death_benefit = "abcde".to_string();
    assert!(!collect_tags(&policy).contains(&"壽險保障".to_string()));
    policy.coverage.maturity_benefit = "滿".to_string();
    assert!(!collect_tags(&policy).contains(&"退休規劃".to_string()));
    policy.coverage.maturity_benefit = "滿期".to_string();
    assert!(collect_tags(&policy).contains(&"退休規劃".to_string()));
}

#[test]
fn chunk_policy_data_builds_tagged_chunks() {
    let policy = sample_policy();
    let tags = collect_tags(&policy);
    let header = format!(
        "商品: {} | 來源: {} | [關鍵字: {}]",
        policy.basic_info.product_name,
        policy.source_filename,
        tags.join(", ")
    );
    let expected = vec![
        format!(
            "{} | [基本資訊] 文號: {} | 類型: {} | 繳費: {} | 幣別: {:?} | 投保年齡: {} | 保費門檻: {}",
            header,
            policy.basic_info.product_code,
            policy.basic_info.product_type,
            policy.basic_info.payment_period,
            policy.basic_info.currency,
            policy.conditions.age_range,
            policy.conditions.premium_limit
        ),
        format!(
            "{} | [保障內容] 身故/喪葬給付: {} | 滿期/祝壽給付: {} | 其他權益: {:?}",
            header,
            policy.coverage.death_benefit,
            policy.coverage.maturity_benefit,
            policy.coverage.other_benefits
        ),
        format!("{} | [費用說明] {}", header, policy.conditions.fees_and_discounts),
        format!(
            "{} | [適用客群] {} | 額外標籤: {:?}",
            header, policy.rag_data.target_audience, tags
        ),
        format!("{} | [常見問題] Q: {} | A: {}", header, "可以借款嗎？", "可以。"),
    ];
    assert_eq!(chunk_policy_data(&policy), expected);
}

#[test]
fn chunk_policy_data_has_an_exact_basic_chunk() {
    let mut policy = sample_policy();
    policy.rag_data.keywords = Vec::new();
    policy.rag_data.target_audience = "一般".to_string();
    policy.basic_info.currency = strings(&["TWD"]);
    policy.basic_info.product_type = "醫療".to_string();
    policy.coverage.death_benefit = "無".to_string();
    let chunks = chunk_policy_data(&policy);
    assert_eq!(
        chunks[0],
        "商品: 活利優退分紅終身保險 | 來源: 活利優退.json | [關鍵字: 傳統型保單, 固定利率, 保證給付, 期繳, 分期繳費] | [基本資訊] 文號: ABC-123 | 類型: 醫療 | 繳費: 6年期繳 | 幣別: [\"TWD\"] | 投保年齡: 0歲至75歲 | 保費門檻: 最低3000美元"
    );
}

#[test]
fn investment_chunk_appears_only_for_investment_linked_products() {
    let mut policy = sample_policy();
    assert_eq!(chunk_policy_data(&policy).len(), 5);
    assert_eq!(chunk_policy_data_old(&policy).len(), 5);
    policy.investment.is_investment_linked = true;
    policy.investment.risks = strings(&["匯率風險"]);
    let tagged = chunk_policy_data(&policy);
    let plain = chunk_policy_data_old(&policy);
    assert_eq!(tagged.len(), 6);
    assert_eq!(plain.len(), 6);
    assert!(tagged[2].ends_with(
        " | [投資特色] 此為投資型保單(基金/全委)。特色: [\"分紅\"] | 風險: [\"匯率風險\"]"
    ));
    assert_eq!(
        plain[2],
        "商品: 活利優退分紅終身保險 | 來源: 活利優退.json | [投資特色] 是否連結投資: 是 | 特色: [\"分紅\"] | 風險: [\"匯率風險\"]"
    );
}

#[test]
fn chunk_policy_data_old_builds_plain_chunks() {
    let policy = sample_policy();
    let header = "商品: 活利優退分紅終身保險 | 來源: 活利優退.json";
    let expected = vec![
        format!(
            "{} | [基本資訊] 文號: ABC-123 | 類型: 終身壽險 | 繳費: 6年期繳 | 幣別: [\"USD\"] | 投保年齡: 0歲至75歲 | 保費門檻: 最低3000美元",
            header
        ),
        format!(
            "{} | [保障內容] 身故/喪葬給付: 身故保險金 | 滿期/祝壽給付: 無 | 其他權益: [\"完全失能保險金\"]",
            header
        ),
        format!("{} | [費用說明] 高保額折扣1%", header),
        format!(
            "{} | [適用客群] 想為子女存教育金的家長 | 關鍵字: [\"分紅保單\", \"固定利率\", \"美元保單\"]",
            header
        ),
        format!("{} | [常見問題] Q: 可以借款嗎？ | A: 可以。", header),
    ];
    assert_eq!(chunk_policy_data_old(&policy), expected);
}

#[test]
fn debug_rendering_escapes_quotes_inside_items() {
    let mut policy = sample_policy();
    policy.basic_info.currency = strings(&["U\"S\"D", "a\\b"]);
    let chunks = chunk_policy_data_old(&policy);
    assert!(chunks[0].contains("幣別: [\"U\\\"S\\\"D\", \"a\\\\b\"] | 投保年齡"));
}

#[test]
fn summary_holds_name_and_synopsis() {
    let policy = sample_policy();
    let summary = summarize(&policy);
    assert_eq!(summary.name, "活利優退分紅終身保險");
    assert_eq!(
        summary.intro,
        "【商品總覽】\n名稱: 活利優退分紅終身保險\n類型: 終身壽險\n特色: [\"分紅\"]\n適合對象: 想為子女存教育金的家長\n"
    );
    assert_eq!(make_intro(&policy), summary.intro);
}

#[test]
fn chunk_document_prefers_the_explicit_chunk_list() {
    let mut policy = sample_policy();
    policy.rag_data.chunks = strings(&["第一段", "第二段"]);
    assert_eq!(chunk_document(&policy), strings(&["第一段", "第二段"]));
}

#[test]
fn chunk_document_assembles_overview_and_faq_batches_of_three() {
    let mut policy = sample_policy();
    policy.rag_data.faq = vec![
        faq("q1", "a1"),
        faq("q2", "a2"),
        faq("q3", "a3"),
        faq("q4", "a4"),
        faq("q5", "a5"),
        faq("q6", "a6"),
        faq("q7", "a7"),
    ];
    let chunks = chunk_document(&policy);
    assert_eq!(chunks.len(), 4);
    assert_eq!(
        chunks[0],
        format!(
            "文件標題: {}\n{}\n【投保規則】\n年齡: {}\n保費限制: {}\n費用: {}\n【保障內容】\n身故: {}\n滿期: {}\n其他: {:?}\n【投資特色】\n{:?}\n風險: {:?}",
            policy.source_filename,
            make_intro(&policy),
            policy.conditions.age_range,
            policy.conditions.premium_limit,
            policy.conditions.fees_and_discounts,
            policy.coverage.death_benefit,
            policy.coverage.maturity_benefit,
            policy.coverage.other_benefits,
            policy.investment.features,
            policy.investment.risks
        )
    );
    assert_eq!(chunks[1], "【常見問答 FAQ】\nQ: q1\nA: a1\n\nQ: q2\nA: a2\n\nQ: q3\nA: a3\n\n");
    assert_eq!(chunks[2], "【常見問答 FAQ (續)】\nQ: q4\nA: a4\n\nQ: q5\nA: a5\n\nQ: q6\nA: a6\n\n");
    assert_eq!(chunks[3], "【常見問答 FAQ (續)】\nQ: q7\nA: a7\n\n");
}

#[test]
fn chunk_document_without_faq_is_the_overview_alone() {
    let mut policy = sample_policy();
    policy.rag_data.faq = Vec::new();
    let chunks = chunk_document(&policy);
    assert_eq!(chunks.len(), 1);
    assert!(chunks[0].starts_with("文件標題: 活利優退.json\n【商品總覽】\n"));
}

#[test]
fn chunk_document_closes_a_full_last_batch_without_an_empty_one() {
    let mut policy = sample_policy();
    policy.rag_data.faq = vec![faq("q1", "a1"), faq("q2", "a2"), faq("q3", "a3")];
    let chunks = chunk_document(&policy);
    assert_eq!(chunks.len(), 2);
    assert_eq!(chunks[1], "【常見問答 FAQ】\nQ: q1\nA: a1\n\nQ: q2\nA: a2\n\nQ: q3\nA: a3\n\n");
}
