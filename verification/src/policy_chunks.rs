//! The chunks of a structured product document.
//!
//! Every chunk starts with a header that names the product and its source
//! file, so that a chunk found by similarity search can always be traced
//! back to its document.

use crate::models::{faq_views, FaqItem, FaqItemView, PolicyData, PolicyDataView};
use crate::tags::{collect_tags, search_tags};
use crate::text::{debug_list, debug_list_of, join, joined, lemma_views_push, views};
use vstd::prelude::*;
use vstd::string::StringExecFns;

verus! {

/// The plain header: product name and source file.
pub open spec fn plain_header(d: PolicyDataView) -> Seq<char> {
    "商品: "@ + d.basic_info.product_name + " | 來源: "@ + d.source_filename
}

/// The tags as they are written into a header.
pub open spec fn tag_line(tags: Seq<Seq<char>>) -> Seq<char> {
    "[關鍵字: "@ + joined(tags, ", "@) + "]"@
}

/// The header that also carries the search tags of the document.
pub open spec fn tagged_header(d: PolicyDataView) -> Seq<char> {
    plain_header(d) + " | "@ + tag_line(search_tags(d))
}

/// The chunk on basic information: code, type, payment, currencies, entry
/// age and premium threshold.
pub open spec fn basic_chunk(header: Seq<char>, d: PolicyDataView) -> Seq<char> {
    header + " | [基本資訊] 文號: "@ + d.basic_info.product_code + " | 類型: "@
        + d.basic_info.product_type + " | 繳費: "@ + d.basic_info.payment_period + " | 幣別: "@
        + debug_list(d.basic_info.currency) + " | 投保年齡: "@ + d.conditions.age_range
        + " | 保費門檻: "@ + d.conditions.premium_limit
}

/// The chunk on coverage: death, maturity and other benefits.
pub open spec fn coverage_chunk(header: Seq<char>, d: PolicyDataView) -> Seq<char> {
    header + " | [保障內容] 身故/喪葬給付: "@ + d.coverage.death_benefit + " | 滿期/祝壽給付: "@
        + d.coverage.maturity_benefit + " | 其他權益: "@ + debug_list(d.coverage.other_benefits)
}

/// The chunk on investment features; `lead` is the sentence that introduces
/// the list of features.
pub open spec fn investment_chunk(header: Seq<char>, lead: Seq<char>, d: PolicyDataView) -> Seq<
    char,
> {
    header + lead + debug_list(d.investment.features) + " | 風險: "@ + debug_list(
        d.investment.risks,
    )
}

/// The chunk on fees and discounts.
pub open spec fn fee_chunk(header: Seq<char>, d: PolicyDataView) -> Seq<char> {
    header + " | [費用說明] "@ + d.conditions.fees_and_discounts
}

/// The chunk on the target audience, closed by a labelled list of terms.
pub open spec fn audience_chunk(
    header: Seq<char>,
    d: PolicyDataView,
    label: Seq<char>,
    terms: Seq<Seq<char>>,
) -> Seq<char> {
    header + " | [適用客群] "@ + d.rag_data.target_audience + label + debug_list(terms)
}

/// The chunk of one FAQ entry.
pub open spec fn faq_chunk(header: Seq<char>, item: FaqItemView) -> Seq<char> {
    header + " | [常見問題] Q: "@ + item.q + " | A: "@ + item.a
}

/// The chunks every document has, in order: basic information, coverage,
/// investment features if the product is investment-linked, fees, audience.
pub open spec fn fixed_chunks(
    header: Seq<char>,
    lead: Seq<char>,
    label: Seq<char>,
    terms: Seq<Seq<char>>,
    d: PolicyDataView,
) -> Seq<Seq<char>> {
    seq![basic_chunk(header, d), coverage_chunk(header, d)] + (if d.investment.is_investment_linked {
        seq![investment_chunk(header, lead, d)]
    } else {
        Seq::empty()
    }) + seq![fee_chunk(header, d), audience_chunk(header, d, label, terms)]
}

/// One chunk per FAQ entry.
pub open spec fn faq_chunks(header: Seq<char>, faq: Seq<FaqItemView>) -> Seq<Seq<char>> {
    faq.map_values(|item: FaqItemView| faq_chunk(header, item))
}

/// The chunks of a document with tagged headers.
pub open spec fn policy_chunks(d: PolicyDataView) -> Seq<Seq<char>> {
    fixed_chunks(
        tagged_header(d),
        " | [投資特色] 此為投資型保單(基金/全委)。特色: "@,
        " | 額外標籤: "@,
        search_tags(d),
        d,
    ) + faq_chunks(tagged_header(d), d.rag_data.faq)
}

/// The chunks of a document with plain headers.
pub open spec fn policy_chunks_old(d: PolicyDataView) -> Seq<Seq<char>> {
    fixed_chunks(
        plain_header(d),
        " | [投資特色] 是否連結投資: 是 | 特色: "@,
        " | 關鍵字: "@,
        d.rag_data.keywords,
        d,
    ) + faq_chunks(plain_header(d), d.rag_data.faq)
}

fn make_plain_header(data: &PolicyData) -> (out: String)
    ensures
        out@ == plain_header(data@),
{
    let mut out = String::from_str("商品: ");
    out.append(data.basic_info.product_name.as_str());
    out.append(" | 來源: ");
    out.append(data.source_filename.as_str());
    out
}

fn make_tag_line(tags: &Vec<String>) -> (out: String)
    ensures
        out@ == tag_line(views(tags@)),
{
    let listed = join(tags, ", ");
    let mut out = String::from_str("[關鍵字: ");
    out.append(listed.as_str());
    out.append("]");
    out
}

fn make_basic_chunk(header: &str, data: &PolicyData) -> (out: String)
    ensures
        out@ == basic_chunk(header@, data@),
{
    let currencies = debug_list_of(&data.basic_info.currency);
    let mut out = String::from_str(header);
    out.append(" | [基本資訊] 文號: ");
    out.append(data.basic_info.product_code.as_str());
    out.append(" | 類型: ");
    out.append(data.basic_info.product_type.as_str());
    out.append(" | 繳費: ");
    out.append(data.basic_info.payment_period.as_str());
    out.append(" | 幣別: ");
    out.append(currencies.as_str());
    out.append(" | 投保年齡: ");
    out.append(data.conditions.age_range.as_str());
    out.append(" | 保費門檻: ");
    out.append(data.conditions.premium_limit.as_str());
    out
}

fn make_coverage_chunk(header: &str, data: &PolicyData) -> (out: String)
    ensures
        out@ == coverage_chunk(header@, data@),
{
    let others = debug_list_of(&data.coverage.other_benefits);
    let mut out = String::from_str(header);
    out.append(" | [保障內容] 身故/喪葬給付: ");
    out.append(data.coverage.death_benefit.as_str());
    out.append(" | 滿期/祝壽給付: ");
    out.append(data.coverage.maturity_benefit.as_str());
    out.append(" | 其他權益: ");
    out.append(others.as_str());
    out
}

fn make_investment_chunk(header: &str, lead: &str, data: &PolicyData) -> (out: String)
    ensures
        out@ == investment_chunk(header@, lead@, data@),
{
    let features = debug_list_of(&data.investment.features);
    let risks = debug_list_of(&data.investment.risks);
    let mut out = String::from_str(header);
    out.append(lead);
    out.append(features.as_str());
    out.append(" | 風險: ");
    out.append(risks.as_str());
    out
}

fn make_fee_chunk(header: &str, data: &PolicyData) -> (out: String)
    ensures
        out@ == fee_chunk(header@, data@),
{
    let mut out = String::from_str(header);
    out.append(" | [費用說明] ");
    out.append(data.conditions.fees_and_discounts.as_str());
    out
}

fn make_audience_chunk(header: &str, data: &PolicyData, label: &str, terms: &Vec<String>) -> (out:
    String)
    ensures
        out@ == audience_chunk(header@, data@, label@, views(terms@)),
{
    let listed = debug_list_of(terms);
    let mut out = String::from_str(header);
    out.append(" | [適用客群] ");
    out.append(data.rag_data.target_audience.as_str());
    out.append(label);
    out.append(listed.as_str());
    out
}

fn make_faq_chunk(header: &str, item: &FaqItem) -> (out: String)
    ensures
        out@ == faq_chunk(header@, item@),
{
    let mut out = String::from_str(header);
    out.append(" | [常見問題] Q: ");
    out.append(item.q.as_str());
    out.append(" | A: ");
    out.append(item.a.as_str());
    out
}

fn push_chunk(chunks: &mut Vec<String>, chunk: String)
    ensures
        views(final(chunks)@) == views(old(chunks)@).push(chunk@),
{
    proof {
        lemma_views_push(chunks@, chunk);
    }
    chunks.push(chunk);
}

fn make_chunks(header: &str, lead: &str, label: &str, terms: &Vec<String>, data: &PolicyData) -> (chunks:
    Vec<String>)
    ensures
        views(chunks@) == fixed_chunks(header@, lead@, label@, views(terms@), data@) + faq_chunks(
            header@,
            data@.rag_data.faq,
        ),
{
    let mut chunks: Vec<String> = Vec::new();
    assert(views(chunks@) =~= Seq::<Seq<char>>::empty());
    push_chunk(&mut chunks, make_basic_chunk(header, data));
    push_chunk(&mut chunks, make_coverage_chunk(header, data));
    if data.investment.is_investment_linked {
        push_chunk(&mut chunks, make_investment_chunk(header, lead, data));
    }
    push_chunk(&mut chunks, make_fee_chunk(header, data));
    push_chunk(&mut chunks, make_audience_chunk(header, data, label, terms));
    let ghost fixed = fixed_chunks(header@, lead@, label@, views(terms@), data@);
    assert(views(chunks@) =~= fixed);
    let ghost faq = data@.rag_data.faq;
    let ghost describe = |item: FaqItemView| faq_chunk(header@, item);
    proof {
        assert(faq.take(0).map_values(describe) =~= Seq::<Seq<char>>::empty());
        assert(fixed + faq.take(0).map_values(describe) =~= fixed);
    }
    let mut i: usize = 0;
    while i < data.rag_data.faq.len()
        invariant
            i <= data.rag_data.faq.len(),
            faq == faq_views(data.rag_data.faq@),
            describe == |item: FaqItemView| faq_chunk(header@, item),
            views(chunks@) == fixed + faq.take(i as int).map_values(describe),
        decreases data.rag_data.faq.len() - i,
    {
        let chunk = make_faq_chunk(header, &data.rag_data.faq[i]);
        proof {
            let before = faq.take(i as int);
            assert(faq.take(i + 1) =~= before.push(faq[i as int]));
            before.lemma_push_map_commute(describe, faq[i as int]);
            assert((fixed + before.map_values(describe)).push(chunk@) =~= fixed
                + before.map_values(describe).push(chunk@));
        }
        push_chunk(&mut chunks, chunk);
        i += 1;
    }
    proof {
        assert(faq.take(data.rag_data.faq.len() as int) =~= faq);
    }
    chunks
}

/// Cuts a product document into chunks whose headers carry the document's
/// search tags: basic information, coverage, investment features (for
/// investment-linked products), fees, audience, then one chunk per FAQ
/// entry.
pub fn chunk_policy_data(data: &PolicyData) -> (chunks: Vec<String>)
    ensures
        views(chunks@) == policy_chunks(data@),
{
    let tags = collect_tags(data);
    let mut header = make_plain_header(data);
    let line = make_tag_line(&tags);
    let ghost plain = header@;
    header.append(" | ");
    header.append(line.as_str());
    assert(header@ =~= plain + " | "@ + line@);
    make_chunks(
        header.as_str(),
        " | [投資特色] 此為投資型保單(基金/全委)。特色: ",
        " | 額外標籤: ",
        &tags,
        data,
    )
}

/// Cuts a product document into chunks with plain headers: the same chunks
/// as `chunk_policy_data`, without search tags, the audience chunk listing
/// the document's own keywords.
pub fn chunk_policy_data_old(data: &PolicyData) -> (chunks: Vec<String>)
    ensures
        views(chunks@) == policy_chunks_old(data@),
{
    let header = make_plain_header(data);
    make_chunks(
        header.as_str(),
        " | [投資特色] 是否連結投資: 是 | 特色: ",
        " | 關鍵字: ",
        &data.rag_data.keywords,
        data,
    )
}

} // verus!
