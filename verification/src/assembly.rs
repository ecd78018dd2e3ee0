//! Product summaries and the chunks a product document is indexed under.
//!
//! A document that brings its own chunk list is indexed under exactly those
//! chunks. Any other document gets an overview chunk that lays out its
//! fields, followed by its FAQ entries in batches of three.

use crate::models::{faq_views, FaqItem, FaqItemView, PolicyData, PolicyDataView};
use crate::text::{debug_list, debug_list_of, lemma_views_push, views};
use vstd::prelude::*;
use vstd::string::StringExecFns;

verus! {

/// A short synopsis of a product, shown to the relevance judge and to the
/// answering model next to the passages of that product.
#[derive(Debug, Clone)]
pub struct ProductSummary {
    pub name: String,
    pub intro: String,
}

/// The view of [`ProductSummary`]: every string as its character sequence.
pub struct ProductSummaryView {
    pub name: Seq<char>,
    pub intro: Seq<char>,
}

impl View for ProductSummary {
    type V = ProductSummaryView;

    open spec fn view(&self) -> ProductSummaryView {
        ProductSummaryView { name: self.name@, intro: self.intro@ }
    }
}

/// The synopsis text of a document: name, type, features and audience.
pub open spec fn product_intro(d: PolicyDataView) -> Seq<char> {
    "【商品總覽】\n名稱: "@ + d.basic_info.product_name + "\n類型: "@ + d.basic_info.product_type
        + "\n特色: "@ + debug_list(d.investment.features) + "\n適合對象: "@
        + d.rag_data.target_audience + "\n"@
}

/// The summary of a document.
pub open spec fn summary_of(d: PolicyDataView) -> ProductSummaryView {
    ProductSummaryView { name: d.basic_info.product_name, intro: product_intro(d) }
}

/// The overview chunk: the synopsis followed by underwriting rules, coverage
/// and investment features.
pub open spec fn overview_chunk(d: PolicyDataView) -> Seq<char> {
    "文件標題: "@ + d.source_filename + "\n"@ + product_intro(d) + "\n【投保規則】\n年齡: "@
        + d.conditions.age_range + "\n保費限制: "@ + d.conditions.premium_limit + "\n費用: "@
        + d.conditions.fees_and_discounts + "\n【保障內容】\n身故: "@ + d.coverage.death_benefit
        + "\n滿期: "@ + d.coverage.maturity_benefit + "\n其他: "@ + debug_list(
        d.coverage.other_benefits,
    ) + "\n【投資特色】\n"@ + debug_list(d.investment.features) + "\n風險: "@ + debug_list(
        d.investment.risks,
    )
}

/// One question with its answer, as written into a FAQ chunk.
pub open spec fn qa_text(item: FaqItemView) -> Seq<char> {
    "Q: "@ + item.q + "\nA: "@ + item.a + "\n\n"@
}

/// The title line of the `k`-th FAQ chunk; all but the first are marked as
/// continuations.
pub open spec fn batch_title(k: int) -> Seq<char> {
    if k == 0 {
        "【常見問答 FAQ】\n"@
    } else {
        "【常見問答 FAQ (續)】\n"@
    }
}

/// The entries `from..to` of the FAQ written one after another.
pub open spec fn qa_run(faq: Seq<FaqItemView>, from: int, to: int) -> Seq<char>
    decreases to - from,
{
    if to <= from {
        Seq::<char>::empty()
    } else {
        qa_run(faq, from, to - 1) + qa_text(faq[to - 1])
    }
}

/// Where the `k`-th batch ends.
pub open spec fn batch_end(len: int, k: int) -> int {
    if 3 * k + 3 <= len {
        3 * k + 3
    } else {
        len
    }
}

/// The `k`-th FAQ chunk: its title and up to three entries.
pub open spec fn faq_batch(faq: Seq<FaqItemView>, k: int) -> Seq<char> {
    batch_title(k) + qa_run(faq, 3 * k, batch_end(faq.len() as int, k))
}

/// The FAQ chunks: the entries in order, three to a chunk, the last chunk
/// holding what is left.
pub open spec fn faq_batches(faq: Seq<FaqItemView>) -> Seq<Seq<char>> {
    Seq::new(((faq.len() + 2) / 3) as nat, |k: int| faq_batch(faq, k))
}

/// The chunks a document is indexed under.
pub open spec fn document_chunks(d: PolicyDataView) -> Seq<Seq<char>> {
    if d.rag_data.chunks.len() > 0 {
        d.rag_data.chunks
    } else {
        seq![overview_chunk(d)] + faq_batches(d.rag_data.faq)
    }
}

/// Every document is indexed under at least one chunk.
pub proof fn lemma_document_chunks_nonempty(d: PolicyDataView)
    ensures
        document_chunks(d).len() > 0,
{
}

/// Builds the synopsis text of a document.
pub fn make_intro(data: &PolicyData) -> (out: String)
    ensures
        out@ == product_intro(data@),
{
    let features = debug_list_of(&data.investment.features);
    let mut out = String::from_str("【商品總覽】\n名稱: ");
    out.append(data.basic_info.product_name.as_str());
    out.append("\n類型: ");
    out.append(data.basic_info.product_type.as_str());
    out.append("\n特色: ");
    out.append(features.as_str());
    out.append("\n適合對象: ");
    out.append(data.rag_data.target_audience.as_str());
    out.append("\n");
    out
}

/// Builds the summary of a document.
pub fn summarize(data: &PolicyData) -> (summary: ProductSummary)
    ensures
        summary@ == summary_of(data@),
{
    ProductSummary { name: data.basic_info.product_name.clone(), intro: make_intro(data) }
}

fn make_overview(data: &PolicyData) -> (out: String)
    ensures
        out@ == overview_chunk(data@),
{
    let intro = make_intro(data);
    let others = debug_list_of(&data.coverage.other_benefits);
    let features = debug_list_of(&data.investment.features);
    let risks = debug_list_of(&data.investment.risks);
    let mut out = String::from_str("文件標題: ");
    out.append(data.source_filename.as_str());
    out.append("\n");
    out.append(intro.as_str());
    out.append("\n【投保規則】\n年齡: ");
    out.append(data.conditions.age_range.as_str());
    out.append("\n保費限制: ");
    out.append(data.conditions.premium_limit.as_str());
    out.append("\n費用: ");
    out.append(data.conditions.fees_and_discounts.as_str());
    out.append("\n【保障內容】\n身故: ");
    out.append(data.coverage.death_benefit.as_str());
    out.append("\n滿期: ");
    out.append(data.coverage.maturity_benefit.as_str());
    out.append("\n其他: ");
    out.append(others.as_str());
    out.append("\n【投資特色】\n");
    out.append(features.as_str());
    out.append("\n風險: ");
    out.append(risks.as_str());
    out
}

fn append_qa(out: &mut String, item: &FaqItem)
    ensures
        final(out)@ == old(out)@ + qa_text(item@),
{
    let ghost before = out@;
    out.append("Q: ");
    out.append(item.q.as_str());
    out.append("\nA: ");
    out.append(item.a.as_str());
    out.append("\n\n");
    assert(out@ =~= before + qa_text(item@));
}

fn make_faq_batches(faq: &Vec<FaqItem>) -> (chunks: Vec<String>)
    ensures
        views(chunks@) == faq_batches(faq_views(faq@)),
{
    let n = faq.len();
    let ghost items = faq_views(faq@);
    let mut chunks: Vec<String> = Vec::new();
    let mut start: usize = 0;
    let mut k: usize = 0;
    assert(views(chunks@) =~= Seq::new(0nat, |b: int| faq_batch(items, b)));
    while start < n
        invariant
            n == faq.len(),
            items == faq_views(faq@),
            start <= n,
            start < n ==> start == 3 * k,
            k == (start + 2) / 3,
            views(chunks@) == Seq::new(k as nat, |b: int| faq_batch(items, b)),
        decreases n - start,
    {
        let end: usize = if n - start >= 3 {
            start + 3
        } else {
            n
        };
        assert(end == batch_end(n as int, k as int));
        let mut chunk = if k == 0 {
            String::from_str("【常見問答 FAQ】\n")
        } else {
            String::from_str("【常見問答 FAQ (續)】\n")
        };
        let mut i: usize = start;
        assert(chunk@ + qa_run(items, start as int, start as int) =~= chunk@);
        while i < end
            invariant
                start <= i <= end <= n,
                n == faq.len(),
                items == faq_views(faq@),
                chunk@ == batch_title(k as int) + qa_run(items, start as int, i as int),
            decreases end - i,
        {
            append_qa(&mut chunk, &faq[i]);
            proof {
                assert(items[i as int] == faq@[i as int]@);
                assert(chunk@ =~= batch_title(k as int) + (qa_run(items, start as int, i as int)
                    + qa_text(items[i as int])));
            }
            i += 1;
        }
        proof {
            lemma_views_push(chunks@, chunk);
            assert(chunk@ == faq_batch(items, k as int));
            assert(views(chunks@).push(chunk@) =~= Seq::new(
                (k + 1) as nat,
                |b: int| faq_batch(items, b),
            ));
        }
        chunks.push(chunk);
        start = end;
        k += 1;
    }
    chunks
}

/// Produces the chunks a document is indexed under: its explicit chunk list
/// when it has one, otherwise the overview chunk followed by the FAQ in
/// batches of three.
pub fn chunk_document(data: &PolicyData) -> (chunks: Vec<String>)
    ensures
        views(chunks@) == document_chunks(data@),
        chunks@.len() > 0,
{
    if data.rag_data.chunks.len() > 0 {
        let chunks = data.rag_data.chunks.clone();
        assert(views(chunks@) =~= views(data.rag_data.chunks@));
        chunks
    } else {
        let mut chunks: Vec<String> = Vec::new();
        let overview = make_overview(data);
        proof {
            lemma_views_push(chunks@, overview);
        }
        chunks.push(overview);
        let mut batches = make_faq_batches(&data.rag_data.faq);
        let ghost first = views(chunks@);
        let ghost rest = views(batches@);
        chunks.append(&mut batches);
        assert(views(chunks@) =~= first + rest);
        assert(first =~= seq![overview_chunk(data@)]);
        chunks
    }
}

} // verus!
