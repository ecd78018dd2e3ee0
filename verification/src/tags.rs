//! Search tags derived from the fields of a product document.
//!
//! The tags are the colloquial terms customers are likely to search for;
//! they are written into every chunk of the document so that the chunk's
//! embedding carries them.

use crate::models::{PolicyData, PolicyDataView};
use crate::text::{byte_len, byte_length, contains, is_substring, str_eq, views};
use vstd::prelude::*;
use vstd::string::StringExecFns;

verus! {

/// Tags that tell an investment-linked product from a traditional one.
pub open spec fn kind_tags(d: PolicyDataView) -> Seq<Seq<char>> {
    if d.investment.is_investment_linked {
        seq!["投資型保單"@, "基金保單"@, "變額保險"@, "理財型保險"@, "高風險高報酬"@]
    } else {
        seq!["傳統型保單"@, "固定利率"@, "保證給付"@]
    }
}

/// The product pays out at maturity or is an annuity. A maturity benefit
/// counts when its description is longer than five bytes.
pub open spec fn savings_oriented(d: PolicyDataView) -> bool {
    is_substring("年金"@, d.basic_info.product_type) || byte_len(d.coverage.maturity_benefit) > 5
}

/// Tags of products that serve saving or retirement.
pub open spec fn savings_tags(d: PolicyDataView) -> Seq<Seq<char>> {
    if savings_oriented(d) {
        seq!["退休規劃"@, "養老金"@, "儲蓄險"@, "存錢"@, "現金流"@]
    } else {
        Seq::empty()
    }
}

/// The product is life cover or pays a death benefit. A death benefit counts
/// when its description is longer than five bytes.
pub open spec fn protection_oriented(d: PolicyDataView) -> bool {
    is_substring("壽險"@, d.basic_info.product_type) || byte_len(d.coverage.death_benefit) > 5
}

/// Tags of products that protect against death.
pub open spec fn protection_tags(d: PolicyDataView) -> Seq<Seq<char>> {
    if protection_oriented(d) {
        seq!["壽險保障"@, "身故賠償"@, "留愛給家人"@, "資產傳承"@]
    } else {
        Seq::empty()
    }
}

/// Some currency of the product names the US dollar.
pub open spec fn mentions_dollar(currencies: Seq<Seq<char>>) -> bool {
    exists|i: int|
        0 <= i < currencies.len() && (is_substring("USD"@, #[trigger] currencies[i])
            || is_substring("美元"@, currencies[i]))
}

/// Some currency of the product is not the New Taiwan dollar.
pub open spec fn has_foreign_currency(currencies: Seq<Seq<char>>) -> bool {
    exists|i: int|
        0 <= i < currencies.len() && #[trigger] currencies[i] != "TWD"@ && currencies[i]
            != "新台幣"@
}

/// Tags of products denominated in US dollars.
pub open spec fn dollar_tags(d: PolicyDataView) -> Seq<Seq<char>> {
    if mentions_dollar(d.basic_info.currency) {
        seq!["美元保單"@, "美金保單"@, "強勢貨幣"@]
    } else {
        Seq::empty()
    }
}

/// Tags of products with a foreign currency.
pub open spec fn foreign_tags(d: PolicyDataView) -> Seq<Seq<char>> {
    if has_foreign_currency(d.basic_info.currency) {
        seq!["外幣保單"@, "資產配置"@]
    } else {
        Seq::empty()
    }
}

/// The premium is paid once.
pub open spec fn single_premium(d: PolicyDataView) -> bool {
    is_substring("躉"@, d.basic_info.payment_period) || is_substring(
        "一次"@,
        d.basic_info.payment_period,
    )
}

/// Tags that tell a single premium from periodic premiums.
pub open spec fn payment_tags(d: PolicyDataView) -> Seq<Seq<char>> {
    if single_premium(d) {
        seq!["躉繳"@, "一次繳清"@, "單筆投資"@]
    } else {
        seq!["期繳"@, "分期繳費"@]
    }
}

/// The product addresses people of 65 and older.
pub open spec fn for_seniors(d: PolicyDataView) -> bool {
    is_substring("65歲"@, d.rag_data.target_audience) || is_substring(
        "高齡"@,
        d.rag_data.target_audience,
    )
}

/// The product addresses children.
pub open spec fn for_children(d: PolicyDataView) -> bool {
    is_substring("小孩"@, d.rag_data.target_audience) || is_substring(
        "子女"@,
        d.rag_data.target_audience,
    )
}

/// Tags of products for seniors.
pub open spec fn senior_tags(d: PolicyDataView) -> Seq<Seq<char>> {
    if for_seniors(d) {
        seq!["銀髮族保單"@, "高齡投保"@]
    } else {
        Seq::empty()
    }
}

/// Tags of products for children.
pub open spec fn child_tags(d: PolicyDataView) -> Seq<Seq<char>> {
    if for_children(d) {
        seq!["兒童保單"@, "教育基金"@]
    } else {
        Seq::empty()
    }
}

/// All tags that follow from the document's fields, in rule order.
pub open spec fn derived_tags(d: PolicyDataView) -> Seq<Seq<char>> {
    kind_tags(d) + savings_tags(d) + protection_tags(d) + dollar_tags(d) + foreign_tags(d)
        + payment_tags(d) + senior_tags(d) + child_tags(d)
}

/// `tags` followed by those of `extra` that are not yet present, each once.
pub open spec fn with_new(tags: Seq<Seq<char>>, extra: Seq<Seq<char>>) -> Seq<Seq<char>>
    decreases extra.len(),
{
    if extra.len() == 0 {
        tags
    } else {
        let sofar = with_new(tags, extra.drop_last());
        if sofar.contains(extra.last()) {
            sofar
        } else {
            sofar.push(extra.last())
        }
    }
}

/// The tags of a document: the derived ones, then the document's own
/// keywords that are not among them.
pub open spec fn search_tags(d: PolicyDataView) -> Seq<Seq<char>> {
    with_new(derived_tags(d), d.rag_data.keywords)
}

fn push_tag(tags: &mut Vec<String>, tag: &str)
    ensures
        views(final(tags)@) == views(old(tags)@).push(tag@),
{
    let owned = String::from_str(tag);
    proof {
        crate::text::lemma_views_push(tags@, owned);
    }
    tags.push(owned);
}

fn any_mentions_dollar(currencies: &Vec<String>) -> (yes: bool)
    ensures
        yes == mentions_dollar(views(currencies@)),
{
    let mut i: usize = 0;
    while i < currencies.len()
        invariant
            i <= currencies.len(),
            forall|k: int|
                0 <= k < i ==> !(is_substring("USD"@, #[trigger] views(currencies@)[k])
                    || is_substring("美元"@, views(currencies@)[k])),
        decreases currencies.len() - i,
    {
        let c = currencies[i].as_str();
        if contains(c, "USD") || contains(c, "美元") {
            assert(views(currencies@)[i as int] == c@);
            return true;
        }
        i += 1;
    }
    false
}

fn any_foreign_currency(currencies: &Vec<String>) -> (yes: bool)
    ensures
        yes == has_foreign_currency(views(currencies@)),
{
    let mut i: usize = 0;
    while i < currencies.len()
        invariant
            i <= currencies.len(),
            forall|k: int|
                0 <= k < i ==> !(#[trigger] views(currencies@)[k] != "TWD"@ && views(
                    currencies@,
                )[k] != "新台幣"@),
        decreases currencies.len() - i,
    {
        let c = currencies[i].as_str();
        if !str_eq(c, "TWD") && !str_eq(c, "新台幣") {
            assert(views(currencies@)[i as int] == c@);
            return true;
        }
        i += 1;
    }
    false
}

fn has_tag(tags: &Vec<String>, tag: &String) -> (yes: bool)
    ensures
        yes == views(tags@).contains(tag@),
{
    let mut i: usize = 0;
    while i < tags.len()
        invariant
            i <= tags.len(),
            forall|k: int| 0 <= k < i ==> views(tags@)[k] != tag@,
        decreases tags.len() - i,
    {
        if tags[i] == *tag {
            assert(views(tags@)[i as int] == tag@);
            return true;
        }
        i += 1;
    }
    false
}

fn add_kind_tags(tags: &mut Vec<String>, data: &PolicyData)
    ensures
        views(final(tags)@) == views(old(tags)@) + kind_tags(data@),
{
    if data.investment.is_investment_linked {
        push_tag(tags, "投資型保單");
        push_tag(tags, "基金保單");
        push_tag(tags, "變額保險");
        push_tag(tags, "理財型保險");
        push_tag(tags, "高風險高報酬");
    } else {
        push_tag(tags, "傳統型保單");
        push_tag(tags, "固定利率");
        push_tag(tags, "保證給付");
    }
    assert(views(tags@) =~= views(old(tags)@) + kind_tags(data@));
}

fn add_savings_tags(tags: &mut Vec<String>, data: &PolicyData)
    ensures
        views(final(tags)@) == views(old(tags)@) + savings_tags(data@),
{
    if contains(data.basic_info.product_type.as_str(), "年金") || byte_length(
        data.coverage.maturity_benefit.as_str(),
    ) > 5 {
        push_tag(tags, "退休規劃");
        push_tag(tags, "養老金");
        push_tag(tags, "儲蓄險");
        push_tag(tags, "存錢");
        push_tag(tags, "現金流");
    }
    assert(views(tags@) =~= views(old(tags)@) + savings_tags(data@));
}

fn add_protection_tags(tags: &mut Vec<String>, data: &PolicyData)
    ensures
        views(final(tags)@) == views(old(tags)@) + protection_tags(data@),
{
    if contains(data.basic_info.product_type.as_str(), "壽險") || byte_length(
        data.coverage.death_benefit.as_str(),
    ) > 5 {
        push_tag(tags, "壽險保障");
        push_tag(tags, "身故賠償");
        push_tag(tags, "留愛給家人");
        push_tag(tags, "資產傳承");
    }
    assert(views(tags@) =~= views(old(tags)@) + protection_tags(data@));
}

fn add_currency_tags(tags: &mut Vec<String>, data: &PolicyData)
    ensures
        views(final(tags)@) == views(old(tags)@) + dollar_tags(data@) + foreign_tags(data@),
{
    if any_mentions_dollar(&data.basic_info.currency) {
        push_tag(tags, "美元保單");
        push_tag(tags, "美金保單");
        push_tag(tags, "強勢貨幣");
    }
    assert(views(tags@) =~= views(old(tags)@) + dollar_tags(data@));
    let ghost middle = views(tags@);
    if any_foreign_currency(&data.basic_info.currency) {
        push_tag(tags, "外幣保單");
        push_tag(tags, "資產配置");
    }
    assert(views(tags@) =~= middle + foreign_tags(data@));
}

fn add_payment_tags(tags: &mut Vec<String>, data: &PolicyData)
    ensures
        views(final(tags)@) == views(old(tags)@) + payment_tags(data@),
{
    let payment = data.basic_info.payment_period.as_str();
    if contains(payment, "躉") || contains(payment, "一次") {
        push_tag(tags, "躉繳");
        push_tag(tags, "一次繳清");
        push_tag(tags, "單筆投資");
    } else {
        push_tag(tags, "期繳");
        push_tag(tags, "分期繳費");
    }
    assert(views(tags@) =~= views(old(tags)@) + payment_tags(data@));
}

fn add_audience_tags(tags: &mut Vec<String>, data: &PolicyData)
    ensures
        views(final(tags)@) == views(old(tags)@) + senior_tags(data@) + child_tags(data@),
{
    let audience = data.rag_data.target_audience.as_str();
    if contains(audience, "65歲") || contains(audience, "高齡") {
        push_tag(tags, "銀髮族保單");
        push_tag(tags, "高齡投保");
    }
    assert(views(tags@) =~= views(old(tags)@) + senior_tags(data@));
    let ghost middle = views(tags@);
    if contains(audience, "小孩") || contains(audience, "子女") {
        push_tag(tags, "兒童保單");
        push_tag(tags, "教育基金");
    }
    assert(views(tags@) =~= middle + child_tags(data@));
}

fn derive_tags(data: &PolicyData) -> (tags: Vec<String>)
    ensures
        views(tags@) == derived_tags(data@),
{
    let mut tags: Vec<String> = Vec::new();
    assert(views(tags@) =~= Seq::<Seq<char>>::empty());
    add_kind_tags(&mut tags, data);
    assert(views(tags@) =~= kind_tags(data@));
    add_savings_tags(&mut tags, data);
    add_protection_tags(&mut tags, data);
    add_currency_tags(&mut tags, data);
    add_payment_tags(&mut tags, data);
    add_audience_tags(&mut tags, data);
    tags
}

/// Derives the search tags of a document: the tags its fields call for,
/// followed by its own keywords without repeating a tag.
pub fn collect_tags(data: &PolicyData) -> (tags: Vec<String>)
    ensures
        views(tags@) == search_tags(data@),
{
    let mut tags = derive_tags(data);
    let keywords = &data.rag_data.keywords;
    let ghost extra = views(keywords@);
    let mut i: usize = 0;
    assert(extra.take(0) =~= Seq::<Seq<char>>::empty());
    while i < keywords.len()
        invariant
            i <= keywords.len(),
            extra == views(keywords@),
            views(tags@) == with_new(derived_tags(data@), extra.take(i as int)),
        decreases keywords.len() - i,
    {
        proof {
            assert(extra.take(i + 1).drop_last() =~= extra.take(i as int));
            assert(extra.take(i + 1).last() == keywords@[i as int]@);
        }
        if !has_tag(&tags, &keywords[i]) {
            let owned = keywords[i].clone();
            proof {
                crate::text::lemma_views_push(tags@, owned);
            }
            tags.push(owned);
        }
        i += 1;
    }
    assert(extra.take(keywords.len() as int) =~= extra);
    tags
}

} // verus!
