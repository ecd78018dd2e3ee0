//! What is said to the language models, and where.
//!
//! Two services can generate text: a local server that speaks the chat
//! completions protocol, and a hosted one. Which of them a deployment uses
//! is fixed; there is no fallback from one to the other. This module holds
//! the rules for choosing the service, for addressing it, for sending a
//! credential, and the wording of every prompt.

use crate::text::{
    contains, is_substring, lowercased, str_eq, to_lowercase, trim, trim_trailing, trimmed,
    without_trailing,
};
use vstd::prelude::*;
use vstd::string::StringExecFns;

verus! {

/// The service that generates text.
#[derive(Debug, Clone, Copy, PartialEq, Eq, Structural)]
pub enum Provider {
    Local,
    Google,
}

/// The instruction under which a query is rewritten from the conversation
/// history: keep the user's attributes, resolve references to the previous
/// topic, and drop a topic the user has rejected.
pub const REWRITE_INSTRUCTION: &'static str = "\n    你是一個 RAG 搜尋意圖優化專家。你的任務是結合「對話歷史」與「最新問題」，產出最精準的搜尋關鍵字。\n\n    【核心規則】：\n    1. **繼承人設 (最重要)**：永遠保留歷史中的「年齡」、「性別」、「職業」或「家庭狀況」等資訊。(例如：30歲男性、營造業)。\n    2. **意圖切換 (Negative Check)**：\n       - 如果最新問題包含「不要...」、「改看...」、「不是...」等否定詞。\n       - **必須移除** 歷史中被否定的關鍵字 (例如：使用者說「不要投資型」，你就要把「投資、變額」拿掉，改加入「純壽險、傳統型」)。\n       - **解除鎖定**：不要再加入上一輪推薦的具體產品名稱。\n    3. **產品鎖定**：只有在使用者「追問」細節 (如：那費用呢？) 時，才鎖定上一輪的產品名稱。\n\n    【合成範例】：\n    History: 30歲男性, 推薦投資型 -> AI推薦富邦投資\n    Current: \"那如果不要投資，純粹壽險呢？\"\n    Result: \"30歲男性 終身壽險 定期壽險 (排除投資型)\"  <-- (關鍵：保留年齡，但切換險種)\n\n    History: 50歲女性 -> AI推薦防癌險\n    Current: \"費用多少\"\n    Result: \"50歲女性 防癌險 費用費率\"\n\n    請直接輸出優化後的搜尋字串。\n    ";

/// The system prompt used when a deployment provides none.
pub const DEFAULT_SYSTEM_PROMPT: &'static str = "你是一個專業的保險顧問。請根據參考資料回答問題。";

/// The system prompt of the command-line assistant.
pub const ADVISOR_SYSTEM_PROMPT: &'static str = "你是一個專業的保險顧問。請根據以下提供的『參考資料』(包含商品摘要與詳細片段) 回答使用者的問題。\n\n重要規則：\n1. 若資料中包含來源檔案名稱 (Source File)，請嘗試在回答中標註。\n2. 如果資料中沒有答案，請直接說『資料不足，無法回答』，不要捏造事實。";

/// The system prompt of the hosted assistant that answers from product
/// introductions and passages.
pub const BRIEF_SYSTEM_PROMPT: &'static str = "你是一位專業保險顧問。請根據提供的【商品介紹】與【詳細片段】回答使用者問題。若資料不足請誠實告知。";

/// The address of the hosted model the service uses, up to the
/// credential.
pub const HOSTED_ENDPOINT: &'static str = "https://generativelanguage.googleapis.com/v1beta/models/gemini-2.5-flash:generateContent?key=";

/// The address of the hosted model the console uses, up to the
/// credential.
pub const CONSOLE_ENDPOINT: &'static str = "https://generativelanguage.googleapis.com/v1beta/models/gemini-1.5-flash:generateContent?key=";

/// The service a deployment's setting selects: the local one when the
/// setting says so, the hosted one in every other case.
pub open spec fn provider_of(name: Seq<char>) -> Provider {
    if name == "local"@ {
        Provider::Local
    } else {
        Provider::Google
    }
}

/// The chat completions address of a local endpoint: trailing slashes are
/// dropped, and the version segment is added unless the endpoint has one.
pub open spec fn chat_url(endpoint: Seq<char>) -> Seq<char> {
    let base = without_trailing(endpoint, '/');
    if is_substring("/v1"@, base) {
        base + "/chat/completions"@
    } else {
        base + "/v1/chat/completions"@
    }
}

/// The token is sent with an answering request: it is not blank and does
/// not spell `none` or `null` in any case.
pub open spec fn answer_token_accepted(token: Seq<char>) -> bool {
    let word = lowercased(trimmed(token));
    word != ""@ && word != "none"@ && word != "null"@
}

/// The token is sent with a rewriting request: it is not empty and is not
/// the word `none`.
pub open spec fn rewrite_token_accepted(token: Seq<char>) -> bool {
    token.len() > 0 && token != "none"@
}

/// The value of the authorization header for a token.
pub open spec fn bearer(token: Seq<char>) -> Seq<char> {
    "Bearer "@ + token
}

/// The user message of an answering request to the local service.
pub open spec fn answer_request(context: Seq<char>, query: Seq<char>) -> Seq<char> {
    "參考資料：\n"@ + context + "\n\n使用者問題："@ + query
}

/// The prompt of an answering request to the hosted service.
pub open spec fn hosted_answer_prompt(
    system: Seq<char>,
    context: Seq<char>,
    query: Seq<char>,
) -> Seq<char> {
    system + "\n\n參考資料:\n"@ + context + "\n\n使用者問題: "@ + query
}

/// The prompt of a rewriting request to the hosted service.
pub open spec fn hosted_rewrite_prompt(instruction: Seq<char>, request: Seq<char>) -> Seq<char> {
    instruction + "\n\n"@ + request
}

/// The prompt that asks the hosted service for search keywords.
pub open spec fn keyword_prompt(query: Seq<char>) -> Seq<char> {
    "使用者搜尋: '"@ + query
        + "'。請轉換為3個台灣保險專業關鍵字(如:變額萬能壽險, 月撥回)，用空白分隔，不要有其他文字。"@
}

/// Chooses the generating service from a deployment's setting.
pub fn select_provider(name: &str) -> (provider: Provider)
    ensures
        provider == provider_of(name@),
{
    if str_eq(name, "local") {
        Provider::Local
    } else {
        Provider::Google
    }
}

/// Builds the chat completions address of a local endpoint.
pub fn chat_completions_url(endpoint: &str) -> (url: String)
    ensures
        url@ == chat_url(endpoint@),
{
    let mut url = trim_trailing(endpoint, '/');
    if contains(url.as_str(), "/v1") {
        url.append("/chat/completions");
    } else {
        url.append("/v1/chat/completions");
    }
    url
}

/// Whether the token is sent with an answering request.
pub fn accepts_answer_token(token: &str) -> (accepted: bool)
    ensures
        accepted == answer_token_accepted(token@),
{
    let stripped = trim(token);
    let word = to_lowercase(stripped.as_str());
    !str_eq(word.as_str(), "") && !str_eq(word.as_str(), "none") && !str_eq(word.as_str(), "null")
}

/// Whether the token is sent with a rewriting request.
pub fn accepts_rewrite_token(token: &str) -> (accepted: bool)
    ensures
        accepted == rewrite_token_accepted(token@),
{
    !token.is_empty() && !str_eq(token, "none")
}

/// Builds the value of the authorization header.
pub fn bearer_header(token: &str) -> (value: String)
    ensures
        value@ == bearer(token@),
{
    let mut value = String::from_str("Bearer ");
    value.append(token);
    value
}

/// Builds the user message of an answering request to the local service.
pub fn make_answer_request(context: &str, query: &str) -> (out: String)
    ensures
        out@ == answer_request(context@, query@),
{
    let mut out = String::from_str("參考資料：\n");
    out.append(context);
    out.append("\n\n使用者問題：");
    out.append(query);
    out
}

/// Builds the prompt of an answering request to the hosted service.
pub fn make_hosted_answer_prompt(system: &str, context: &str, query: &str) -> (out: String)
    ensures
        out@ == hosted_answer_prompt(system@, context@, query@),
{
    let mut out = String::from_str(system);
    out.append("\n\n參考資料:\n");
    out.append(context);
    out.append("\n\n使用者問題: ");
    out.append(query);
    out
}

/// Builds the prompt of a rewriting request to the hosted service.
pub fn make_hosted_rewrite_prompt(instruction: &str, request: &str) -> (out: String)
    ensures
        out@ == hosted_rewrite_prompt(instruction@, request@),
{
    let mut out = String::from_str(instruction);
    out.append("\n\n");
    out.append(request);
    out
}

/// Builds the prompt that asks the hosted service for search keywords.
pub fn make_keyword_prompt(query: &str) -> (out: String)
    ensures
        out@ == keyword_prompt(query@),
{
    let mut out = String::from_str("使用者搜尋: '");
    out.append(query);
    out.append("'。請轉換為3個台灣保險專業關鍵字(如:變額萬能壽險, 月撥回)，用空白分隔，不要有其他文字。");
    out
}

/// Builds the address of a hosted model for a credential.
pub fn hosted_url(endpoint: &str, key: &str) -> (url: String)
    ensures
        url@ == endpoint@ + key@,
{
    let mut url = String::from_str(endpoint);
    url.append(key);
    url
}

} // verus!
