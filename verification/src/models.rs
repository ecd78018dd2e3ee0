//! The structured product documents the corpus is made of, and their
//! mathematical views.
//!
//! Each record has a view that replaces every string by its character
//! sequence; the contracts of the chunking and synchronisation code are
//! stated over these views.

use crate::text::{join, joined, trim, trimmed, views};
use vstd::prelude::*;
use vstd::string::StrSliceExecFns;
use vstd::string::StringExecFns;

verus! {

/// The view of an optional string.
pub open spec fn opt_view(o: Option<String>) -> Option<Seq<char>> {
    match o {
        Some(s) => Some(s@),
        None => None,
    }
}

/// Metadata extracted from a raw product brochure.
#[derive(Debug, Clone)]
pub struct InsuranceMetadata {
    pub product_name: String,
    pub product_code: Option<String>,
    pub insurance_type: Vec<String>,
    pub benefits: Vec<String>,
    pub currency: String,
    pub target_audience: Option<String>,
}

/// The view of [`InsuranceMetadata`]: every string as its character sequence.
pub struct InsuranceMetadataView {
    pub product_name: Seq<char>,
    pub product_code: Option<Seq<char>>,
    pub insurance_type: Seq<Seq<char>>,
    pub benefits: Seq<Seq<char>>,
    pub currency: Seq<char>,
    pub target_audience: Option<Seq<char>>,
}

impl View for InsuranceMetadata {
    type V = InsuranceMetadataView;

    open spec fn view(&self) -> InsuranceMetadataView {
        InsuranceMetadataView {
            product_name: self.product_name@,
            product_code: opt_view(self.product_code),
            insurance_type: views(self.insurance_type@),
            benefits: views(self.benefits@),
            currency: self.currency@,
            target_audience: opt_view(self.target_audience),
        }
    }
}

/// A brochure after extraction: its metadata and its running text.
#[derive(Debug, Clone)]
pub struct ParsedDocument {
    pub metadata: InsuranceMetadata,
    pub full_text: String,
}

/// The view of [`ParsedDocument`]: every string as its character sequence.
pub struct ParsedDocumentView {
    pub metadata: InsuranceMetadataView,
    pub full_text: Seq<char>,
}

impl View for ParsedDocument {
    type V = ParsedDocumentView;

    open spec fn view(&self) -> ParsedDocumentView {
        ParsedDocumentView { metadata: self.metadata@, full_text: self.full_text@ }
    }
}

/// What identifies a product: its name, code, issuer, currencies, type and
/// payment period.
#[derive(Debug, Clone)]
pub struct BasicInfo {
    pub product_name: String,
    pub product_code: String,
    pub company: String,
    pub currency: Vec<String>,
    pub product_type: String,
    pub payment_period: String,
}

/// The view of [`BasicInfo`]: every string as its character sequence.
pub struct BasicInfoView {
    pub product_name: Seq<char>,
    pub product_code: Seq<char>,
    pub company: Seq<char>,
    pub currency: Seq<Seq<char>>,
    pub product_type: Seq<char>,
    pub payment_period: Seq<char>,
}

impl View for BasicInfo {
    type V = BasicInfoView;

    open spec fn view(&self) -> BasicInfoView {
        BasicInfoView {
            product_name: self.product_name@,
            product_code: self.product_code@,
            company: self.company@,
            currency: views(self.currency@),
            product_type: self.product_type@,
            payment_period: self.payment_period@,
        }
    }
}

/// Underwriting conditions: who may buy the product and at what price.
#[derive(Debug, Clone)]
pub struct Conditions {
    pub age_range: String,
    pub premium_limit: String,
    pub fees_and_discounts: String,
}

/// The view of [`Conditions`]: every string as its character sequence.
pub struct ConditionsView {
    pub age_range: Seq<char>,
    pub premium_limit: Seq<char>,
    pub fees_and_discounts: Seq<char>,
}

impl View for Conditions {
    type V = ConditionsView;

    open spec fn view(&self) -> ConditionsView {
        ConditionsView {
            age_range: self.age_range@,
            premium_limit: self.premium_limit@,
            fees_and_discounts: self.fees_and_discounts@,
        }
    }
}

/// What the product pays, and when.
#[derive(Debug, Clone)]
pub struct Coverage {
    pub death_benefit: String,
    pub maturity_benefit: String,
    pub other_benefits: Vec<String>,
}

/// The view of [`Coverage`]: every string as its character sequence.
pub struct CoverageView {
    pub death_benefit: Seq<char>,
    pub maturity_benefit: Seq<char>,
    pub other_benefits: Seq<Seq<char>>,
}

impl View for Coverage {
    type V = CoverageView;

    open spec fn view(&self) -> CoverageView {
        CoverageView {
            death_benefit: self.death_benefit@,
            maturity_benefit: self.maturity_benefit@,
            other_benefits: views(self.other_benefits@),
        }
    }
}

/// The investment side of a product, if it has one.
#[derive(Debug, Clone)]
pub struct Investment {
    pub is_investment_linked: bool,
    pub features: Vec<String>,
    pub risks: Vec<String>,
}

/// The view of [`Investment`]: every string as its character sequence.
pub struct InvestmentView {
    pub is_investment_linked: bool,
    pub features: Seq<Seq<char>>,
    pub risks: Seq<Seq<char>>,
}

impl View for Investment {
    type V = InvestmentView;

    open spec fn view(&self) -> InvestmentView {
        InvestmentView {
            is_investment_linked: self.is_investment_linked,
            features: views(self.features@),
            risks: views(self.risks@),
        }
    }
}

/// One colloquial-to-formal mapping of a document. `slang` may list several
/// colloquial terms separated by commas.
#[derive(Debug, Clone)]
pub struct SynonymEntry {
    pub slang: String,
    pub formal: String,
}

/// The view of [`SynonymEntry`]: every string as its character sequence.
pub struct SynonymEntryView {
    pub slang: Seq<char>,
    pub formal: Seq<char>,
}

impl View for SynonymEntry {
    type V = SynonymEntryView;

    open spec fn view(&self) -> SynonymEntryView {
        SynonymEntryView { slang: self.slang@, formal: self.formal@ }
    }
}

/// A frequently asked question with its answer.
#[derive(Debug, Clone)]
pub struct FaqItem {
    pub q: String,
    pub a: String,
}

/// The view of [`FaqItem`]: every string as its character sequence.
pub struct FaqItemView {
    pub q: Seq<char>,
    pub a: Seq<char>,
}

impl View for FaqItem {
    type V = FaqItemView;

    open spec fn view(&self) -> FaqItemView {
        FaqItemView { q: self.q@, a: self.a@ }
    }
}

/// The views of a sequence of FAQ entries.
pub open spec fn faq_views(items: Seq<FaqItem>) -> Seq<FaqItemView> {
    Seq::new(items.len(), |i: int| items[i]@)
}

/// The views of a sequence of synonym entries.
pub open spec fn synonym_views(items: Seq<SynonymEntry>) -> Seq<SynonymEntryView> {
    Seq::new(items.len(), |i: int| items[i]@)
}

/// Retrieval-oriented data of a document. `chunks`, when not empty, is the
/// explicit chunk list that replaces automatic chunk assembly.
#[derive(Debug, Clone)]
pub struct RagData {
    pub keywords: Vec<String>,
    pub target_audience: String,
    pub faq: Vec<FaqItem>,
    pub synonym_mapping: Option<Vec<SynonymEntry>>,
    pub chunks: Vec<String>,
}

/// The view of [`RagData`]: every string as its character sequence.
pub struct RagDataView {
    pub keywords: Seq<Seq<char>>,
    pub target_audience: Seq<char>,
    pub faq: Seq<FaqItemView>,
    pub synonym_mapping: Option<Seq<SynonymEntryView>>,
    pub chunks: Seq<Seq<char>>,
}

impl View for RagData {
    type V = RagDataView;

    open spec fn view(&self) -> RagDataView {
        RagDataView {
            keywords: views(self.keywords@),
            target_audience: self.target_audience@,
            faq: faq_views(self.faq@),
            synonym_mapping: match self.synonym_mapping {
                Some(entries) => Some(synonym_views(entries@)),
                None => None,
            },
            chunks: views(self.chunks@),
        }
    }
}

/// One structured product document of the corpus.
#[derive(Debug, Clone)]
pub struct PolicyData {
    pub source_filename: String,
    pub basic_info: BasicInfo,
    pub conditions: Conditions,
    pub coverage: Coverage,
    pub investment: Investment,
    pub rag_data: RagData,
}

/// The view of [`PolicyData`]: every string as its character sequence.
pub struct PolicyDataView {
    pub source_filename: Seq<char>,
    pub basic_info: BasicInfoView,
    pub conditions: ConditionsView,
    pub coverage: CoverageView,
    pub investment: InvestmentView,
    pub rag_data: RagDataView,
}

impl View for PolicyData {
    type V = PolicyDataView;

    open spec fn view(&self) -> PolicyDataView {
        PolicyDataView {
            source_filename: self.source_filename@,
            basic_info: self.basic_info@,
            conditions: self.conditions@,
            coverage: self.coverage@,
            investment: self.investment@,
            rag_data: self.rag_data@,
        }
    }
}

/// A decoded JSON value of a field that extraction may deliver either as a
/// string or as an array. `List` holds, for each array element, its text if
/// the element is a string; `Other` holds the JSON rendering of any other
/// value.
#[derive(Debug, Clone)]
pub enum JsonField {
    Null,
    Text(String),
    List(Vec<Option<String>>),
    Other(String),
}

/// The text each element of a decoded array stands for: its string, or
/// nothing when the element is not a string.
pub open spec fn element_texts(items: Seq<Option<String>>) -> Seq<Seq<char>> {
    Seq::new(
        items.len(),
        |i: int|
            match items[i] {
                Some(s) => s@,
                None => Seq::<char>::empty(),
            },
    )
}

/// The canonical string of a flexible field.
pub open spec fn canonical_string(field: JsonField) -> Seq<char> {
    match field {
        JsonField::Null => "Unknown Product"@,
        JsonField::Text(s) => s@,
        JsonField::List(items) => joined(element_texts(items@), ", "@),
        JsonField::Other(rendered) => rendered@,
    }
}

/// The canonical optional string of a flexible field: absent for `null` and
/// for a string that is blank.
pub open spec fn canonical_optional_string(field: JsonField) -> Option<Seq<char>> {
    match field {
        JsonField::Null => None,
        JsonField::Text(s) => if trimmed(s@).len() == 0 {
            None
        } else {
            Some(s@)
        },
        JsonField::List(items) => Some(joined(element_texts(items@), ", "@)),
        JsonField::Other(rendered) => Some(rendered@),
    }
}

fn join_elements(items: &Vec<Option<String>>) -> (out: String)
    ensures
        out@ == joined(element_texts(items@), ", "@),
{
    let mut texts: Vec<String> = Vec::new();
    let mut i: usize = 0;
    while i < items.len()
        invariant
            i <= items.len(),
            texts.len() == i,
            views(texts@) == element_texts(items@).take(i as int),
        decreases items.len() - i,
    {
        let text = match &items[i] {
            Some(s) => s.clone(),
            None => String::new(),
        };
        proof {
            assert(text@ == element_texts(items@)[i as int]);
            assert(views(texts@) == element_texts(items@).take(i as int));
            assert forall|k: int| 0 <= k < i + 1 implies views(texts@.push(text))[k]
                == element_texts(items@).take(i + 1)[k] by {
                if k < i {
                    assert(views(texts@)[k] == element_texts(items@).take(i as int)[k]);
                }
            }
            assert(views(texts@.push(text)) =~= element_texts(items@).take(i + 1));
        }
        texts.push(text);
        i += 1;
    }
    assert(element_texts(items@).take(items.len() as int) =~= element_texts(items@));
    join(&texts, ", ")
}

/// Normalises a field that may arrive as a string or as an array of strings
/// to one string: an array becomes its items joined by `", "`, `null`
/// becomes a fixed placeholder name.
pub fn string_or_seq(field: JsonField) -> (out: String)
    ensures
        out@ == canonical_string(field),
{
    match field {
        JsonField::Null => String::from_str("Unknown Product"),
        JsonField::Text(s) => s,
        JsonField::List(items) => join_elements(&items),
        JsonField::Other(rendered) => rendered,
    }
}

/// Normalises an optional field that may arrive as a string or as an array
/// of strings: `null` and blank strings are absent.
pub fn optional_string_or_seq(field: JsonField) -> (out: Option<String>)
    ensures
        opt_view(out) == canonical_optional_string(field),
{
    match field {
        JsonField::Null => None,
        JsonField::Text(s) => {
            let stripped = trim(s.as_str());
            if stripped.as_str().unicode_len() == 0 {
                None
            } else {
                Some(s)
            }
        },
        JsonField::List(items) => Some(join_elements(&items)),
        JsonField::Other(rendered) => Some(rendered),
    }
}

} // verus!
