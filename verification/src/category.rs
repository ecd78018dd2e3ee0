//! The category filter.
//!
//! Narrow insurance categories are gated strictly: when the raw query names
//! one, only candidates that mention one of the category's keywords pass.
//! Broad categories are too common to gate on their own; their keywords
//! join the allow-set only next to a strict category, so that a query with
//! mixed intent is not over-filtered. A filter that would leave nothing is
//! not applied at all.

use crate::retrieve::{candidate_views, Candidate, CandidateView};
use crate::text::{contains, is_substring, leading, leading_chars, lemma_views_push, views};
use vstd::prelude::*;
use vstd::string::StringExecFns;

verus! {

/// A category with the keywords that mark a passage as belonging to it.
#[derive(Debug, Clone)]
pub struct CategoryRule {
    pub category: String,
    pub keywords: Vec<String>,
}

/// The view of [`CategoryRule`]: every string as its character sequence.
pub struct RuleView {
    pub category: Seq<char>,
    pub keywords: Seq<Seq<char>>,
}

impl View for CategoryRule {
    type V = RuleView;

    open spec fn view(&self) -> RuleView {
        RuleView { category: self.category@, keywords: views(self.keywords@) }
    }
}

/// The views of a sequence of rules.
pub open spec fn rule_views(rules: Seq<CategoryRule>) -> Seq<RuleView> {
    Seq::new(rules.len(), |i: int| rules[i]@)
}

/// How many leading characters of a passage are searched for keywords.
pub const LEADING_WINDOW: usize = 200;

/// The categories that are filtered strictly.
pub open spec fn strict_rules() -> Seq<RuleView> {
    seq![
        RuleView {
            category: "醫療"@,
            keywords: seq!["醫療"@, "手術"@, "住院"@, "實支實付"@, "健康保險"@],
        },
        RuleView {
            category: "癌症"@,
            keywords: seq!["癌症"@, "防癌"@, "惡性腫瘤"@, "化療"@, "標靶"@],
        },
        RuleView { category: "長照"@, keywords: seq!["長照"@, "長期照顧"@, "失能"@, "扶助"@] },
        RuleView { category: "打工"@, keywords: seq!["打工"@, "遊學"@, "度假"@, "海外"@] },
        RuleView { category: "投資"@, keywords: seq!["投資"@, "基金"@, "變額"@, "收益"@] },
    ]
}

/// The broad categories, which are never filtered on their own.
pub open spec fn protected_rules() -> Seq<RuleView> {
    seq![
        RuleView {
            category: "壽險"@,
            keywords: seq!["壽險"@, "身故"@, "人壽"@, "儲蓄"@, "還本"@],
        },
        RuleView { category: "意外"@, keywords: seq!["意外"@, "傷害"@, "骨折"@, "產險"@] },
    ]
}

/// The rules whose category name occurs in the raw query.
pub open spec fn mentioned(raw: Seq<char>) -> spec_fn(RuleView) -> bool {
    |rule: RuleView| is_substring(rule.category, raw)
}

/// The keywords of a rule.
pub open spec fn keywords_of() -> spec_fn(RuleView) -> Seq<Seq<char>> {
    |rule: RuleView| rule.keywords
}

/// The keywords of the rules whose category the raw query names, in rule
/// order.
pub open spec fn triggered(raw: Seq<char>, rules: Seq<RuleView>) -> Seq<Seq<char>> {
    rules.filter(mentioned(raw)).map_values(keywords_of()).flatten()
}

/// The allow-set of a raw query: the keywords of the strict categories it
/// names and, if it names any, those of the protected categories it names.
pub open spec fn allow_set(raw: Seq<char>) -> Seq<Seq<char>> {
    if triggered(raw, strict_rules()).len() > 0 {
        triggered(raw, strict_rules()) + triggered(raw, protected_rules())
    } else {
        Seq::empty()
    }
}

/// The candidate mentions the keyword in its source filename or within the
/// leading window of its text.
pub open spec fn mentions(candidate: CandidateView, keyword: Seq<char>) -> bool {
    is_substring(keyword, candidate.source) || is_substring(
        keyword,
        leading(candidate.text, LEADING_WINDOW as nat),
    )
}

/// The candidate mentions some keyword of the allow-set.
pub open spec fn allowed(allow: Seq<Seq<char>>, candidate: CandidateView) -> bool {
    exists|k: int| 0 <= k < allow.len() && mentions(candidate, #[trigger] allow[k])
}

/// The candidates that pass the allow-set.
pub open spec fn passing(allow: Seq<Seq<char>>) -> spec_fn(CandidateView) -> bool {
    |candidate: CandidateView| allowed(allow, candidate)
}

/// The candidates after filtering by an allow-set. An empty allow-set
/// filters nothing, and a filter that would leave no candidate is not
/// applied.
pub open spec fn filtered_by(allow: Seq<Seq<char>>, candidates: Seq<CandidateView>) -> Seq<
    CandidateView,
> {
    if allow.len() == 0 || candidates.filter(passing(allow)).len() == 0 {
        candidates
    } else {
        candidates.filter(passing(allow))
    }
}

/// The filter is lifted: the allow-set is not empty, yet no candidate
/// passes it.
pub open spec fn lifted_for(allow: Seq<Seq<char>>, candidates: Seq<CandidateView>) -> bool {
    allow.len() > 0 && candidates.filter(passing(allow)).len() == 0
}

/// The candidates after the category filter of a raw query.
pub open spec fn category_filtered(raw: Seq<char>, candidates: Seq<CandidateView>) -> Seq<
    CandidateView,
> {
    filtered_by(allow_set(raw), candidates)
}

/// The outcome of filtering: the candidates that remain, and whether the
/// filter had to be lifted because it would have left none.
#[derive(Debug, Clone)]
pub struct Filtered {
    pub candidates: Vec<Candidate>,
    pub lifted: bool,
}

/// Filtering only removes: every candidate that remains was there before.
pub proof fn lemma_filtered_is_kept(
    allow: Seq<Seq<char>>,
    candidates: Seq<CandidateView>,
    k: int,
)
    requires
        0 <= k < filtered_by(allow, candidates).len(),
    ensures
        candidates.contains(filtered_by(allow, candidates)[k]),
{
    let kept = candidates.filter(passing(allow));
    if allow.len() == 0 || kept.len() == 0 {
        assert(candidates[k] == filtered_by(allow, candidates)[k]);
    } else {
        assert(kept.contains(kept[k]));
        candidates.lemma_filter_contains_rev(passing(allow), kept[k]);
    }
}

fn rule_of_four(category: &str, k1: &str, k2: &str, k3: &str, k4: &str) -> (rule: CategoryRule)
    ensures
        rule@ == (RuleView { category: category@, keywords: seq![k1@, k2@, k3@, k4@] }),
{
    let mut keywords: Vec<String> = Vec::new();
    keywords.push(String::from_str(k1));
    keywords.push(String::from_str(k2));
    keywords.push(String::from_str(k3));
    keywords.push(String::from_str(k4));
    assert(views(keywords@) =~= seq![k1@, k2@, k3@, k4@]);
    CategoryRule { category: String::from_str(category), keywords }
}

fn rule_of_five(category: &str, k1: &str, k2: &str, k3: &str, k4: &str, k5: &str) -> (rule:
    CategoryRule)
    ensures
        rule@ == (RuleView { category: category@, keywords: seq![k1@, k2@, k3@, k4@, k5@] }),
{
    let mut keywords: Vec<String> = Vec::new();
    keywords.push(String::from_str(k1));
    keywords.push(String::from_str(k2));
    keywords.push(String::from_str(k3));
    keywords.push(String::from_str(k4));
    keywords.push(String::from_str(k5));
    assert(views(keywords@) =~= seq![k1@, k2@, k3@, k4@, k5@]);
    CategoryRule { category: String::from_str(category), keywords }
}

/// The table of strict categories.
pub fn strict_rule_table() -> (rules: Vec<CategoryRule>)
    ensures
        rule_views(rules@) == strict_rules(),
{
    let mut rules: Vec<CategoryRule> = Vec::new();
    rules.push(rule_of_five("醫療", "醫療", "手術", "住院", "實支實付", "健康保險"));
    rules.push(rule_of_five("癌症", "癌症", "防癌", "惡性腫瘤", "化療", "標靶"));
    rules.push(rule_of_four("長照", "長照", "長期照顧", "失能", "扶助"));
    rules.push(rule_of_four("打工", "打工", "遊學", "度假", "海外"));
    rules.push(rule_of_four("投資", "投資", "基金", "變額", "收益"));
    assert(rule_views(rules@) =~= strict_rules());
    rules
}

/// The table of protected categories.
pub fn protected_rule_table() -> (rules: Vec<CategoryRule>)
    ensures
        rule_views(rules@) == protected_rules(),
{
    let mut rules: Vec<CategoryRule> = Vec::new();
    rules.push(rule_of_five("壽險", "壽險", "身故", "人壽", "儲蓄", "還本"));
    rules.push(rule_of_four("意外", "意外", "傷害", "骨折", "產險"));
    assert(rule_views(rules@) =~= protected_rules());
    rules
}

fn append_keywords(out: &mut Vec<String>, keywords: &Vec<String>)
    ensures
        views(final(out)@) == views(old(out)@) + views(keywords@),
{
    let ghost before = views(out@);
    let ghost added = views(keywords@);
    let mut i: usize = 0;
    assert(before + added.take(0) =~= before);
    while i < keywords.len()
        invariant
            i <= keywords.len(),
            added == views(keywords@),
            views(out@) == before + added.take(i as int),
        decreases keywords.len() - i,
    {
        let keyword = keywords[i].clone();
        proof {
            lemma_views_push(out@, keyword);
            assert((before + added.take(i as int)).push(keyword@) =~= before + added.take(i + 1));
        }
        out.push(keyword);
        i += 1;
    }
    assert(added.take(keywords.len() as int) =~= added);
}

/// Collects the keywords of the rules whose category the raw query names.
pub fn triggered_keywords(raw: &str, rules: &Vec<CategoryRule>) -> (out: Vec<String>)
    ensures
        views(out@) == triggered(raw@, rule_views(rules@)),
{
    let mut out: Vec<String> = Vec::new();
    let ghost all = rule_views(rules@);
    let mut i: usize = 0;
    proof {
        reveal(Seq::filter);
        assert(all.take(0) =~= Seq::<RuleView>::empty());
        assert(views(out@) =~= triggered(raw@, all.take(0)));
    }
    while i < rules.len()
        invariant
            i <= rules.len(),
            all == rule_views(rules@),
            views(out@) == triggered(raw@, all.take(i as int)),
        decreases rules.len() - i,
    {
        proof {
            let before = all.take(i as int);
            let rule = all[i as int];
            assert(rule == rules@[i as int]@);
            assert(all.take(i + 1) =~= before.push(rule));
            before.lemma_filter_push(rule, mentioned(raw@));
            before.filter(mentioned(raw@)).lemma_push_map_commute(keywords_of(), rule);
            before.filter(mentioned(raw@)).map_values(keywords_of()).lemma_flatten_push(
                rule.keywords,
            );
        }
        if contains(raw, rules[i].category.as_str()) {
            append_keywords(&mut out, &rules[i].keywords);
        }
        i += 1;
    }
    assert(all.take(rules.len() as int) =~= all);
    out
}

/// Builds the allow-set of a raw query.
pub fn allowed_keywords(raw: &str) -> (allow: Vec<String>)
    ensures
        views(allow@) == allow_set(raw@),
{
    let strict = strict_rule_table();
    let mut allow = triggered_keywords(raw, &strict);
    if allow.len() > 0 {
        let protected = protected_rule_table();
        let extra = triggered_keywords(raw, &protected);
        append_keywords(&mut allow, &extra);
    } else {
        assert(views(allow@) =~= Seq::<Seq<char>>::empty());
    }
    allow
}

fn is_allowed(allow: &Vec<String>, candidate: &Candidate) -> (pass: bool)
    ensures
        pass == allowed(views(allow@), candidate@),
{
    let window = leading_chars(candidate.text.as_str(), LEADING_WINDOW);
    let mut k: usize = 0;
    while k < allow.len()
        invariant
            k <= allow.len(),
            window@ == leading(candidate@.text, LEADING_WINDOW as nat),
            forall|j: int| 0 <= j < k ==> !mentions(candidate@, #[trigger] views(allow@)[j]),
        decreases allow.len() - k,
    {
        let keyword = allow[k].as_str();
        if contains(candidate.source.as_str(), keyword) || contains(window.as_str(), keyword) {
            assert(mentions(candidate@, views(allow@)[k as int]));
            return true;
        }
        k += 1;
    }
    false
}

/// Filters candidates by an allow-set, failing open: with an empty
/// allow-set, or when no candidate would pass, the candidates come back
/// unchanged.
pub fn filter_candidates(allow: &Vec<String>, candidates: Vec<Candidate>) -> (out: Filtered)
    ensures
        candidate_views(out.candidates@) == filtered_by(views(allow@), candidate_views(candidates@)),
        out.lifted == lifted_for(views(allow@), candidate_views(candidates@)),
        candidate_views(candidates@).filter(passing(views(allow@))).len() == 0 ==> candidate_views(
            out.candidates@,
        ) == candidate_views(candidates@),
{
    if allow.len() == 0 {
        return Filtered { candidates, lifted: false };
    }
    let mut kept: Vec<Candidate> = Vec::new();
    let ghost all = candidate_views(candidates@);
    let ghost pass = passing(views(allow@));
    let mut i: usize = 0;
    proof {
        reveal(Seq::filter);
        assert(all.take(0) =~= Seq::<CandidateView>::empty());
        assert(candidate_views(kept@) =~= all.take(0).filter(pass));
    }
    while i < candidates.len()
        invariant
            i <= candidates.len(),
            all == candidate_views(candidates@),
            pass == passing(views(allow@)),
            candidate_views(kept@) == all.take(i as int).filter(pass),
        decreases candidates.len() - i,
    {
        proof {
            let before = all.take(i as int);
            assert(all[i as int] == candidates@[i as int]@);
            assert(all.take(i + 1) =~= before.push(all[i as int]));
            before.lemma_filter_push(all[i as int], pass);
        }
        if is_allowed(allow, &candidates[i]) {
            let copy = candidates[i].duplicate();
            proof {
                assert(candidate_views(kept@.push(copy)) =~= candidate_views(kept@).push(copy@));
            }
            kept.push(copy);
        }
        i += 1;
    }
    assert(all.take(candidates.len() as int) =~= all);
    if kept.len() == 0 {
        Filtered { candidates, lifted: true }
    } else {
        Filtered { candidates: kept, lifted: false }
    }
}

/// Applies the category filter of a raw query to the candidates. When the
/// filter would leave no candidate, the candidates come back as they were.
pub fn filter_by_category(raw: &str, candidates: Vec<Candidate>) -> (out: Filtered)
    ensures
        candidate_views(out.candidates@) == category_filtered(raw@, candidate_views(candidates@)),
        out.lifted == lifted_for(allow_set(raw@), candidate_views(candidates@)),
        candidate_views(candidates@).filter(passing(allow_set(raw@))).len() == 0
            ==> candidate_views(out.candidates@) == candidate_views(candidates@),
{
    let allow = allowed_keywords(raw);
    filter_candidates(&allow, candidates)
}

} // verus!
