//! Turning documents into the text chunks that are embedded and indexed.

use crate::models::{
    InsuranceMetadata, InsuranceMetadataView, ParsedDocument, ParsedDocumentView,
};
use crate::text::{chars_of, lemma_views_push, split, split_on, trim, trimmed, views};
use vstd::prelude::*;
use vstd::string::StrSliceExecFns;
use vstd::string::StringExecFns;

verus! {

/// The position of the first `c` in `s`, or the length of `s` if there is
/// none.
pub open spec fn first_index(s: Seq<char>, c: char) -> int
    decreases s.len(),
{
    if s.len() == 0 || s.first() == c {
        0
    } else {
        1 + first_index(s.drop_first(), c)
    }
}

/// The position of the last `c` in `s`, or `-1` if there is none.
pub open spec fn last_index(s: Seq<char>, c: char) -> int
    decreases s.len(),
{
    if s.len() == 0 {
        -1
    } else if s.last() == c {
        s.len() - 1
    } else {
        last_index(s.drop_last(), c)
    }
}

/// The span of `text` from its first opening brace to its last closing
/// brace, both included, when both exist in that order.
pub open spec fn json_part(text: Seq<char>) -> Option<Seq<char>> {
    let open = first_index(text, '{');
    let close = last_index(text, '}');
    if open < text.len() && 0 <= close && open <= close {
        Some(text.subrange(open, close + 1))
    } else {
        None
    }
}

proof fn lemma_first_index_scan(s: Seq<char>, c: char, upto: int)
    requires
        0 <= upto <= s.len(),
        forall|k: int| 0 <= k < upto ==> s[k] != c,
        upto == s.len() || s[upto] == c,
    ensures
        first_index(s, c) == upto,
    decreases upto,
{
    if upto > 0 {
        let rest = s.drop_first();
        assert forall|k: int| 0 <= k < upto - 1 implies rest[k] != c by {
            assert(rest[k] == s[k + 1]);
        }
        lemma_first_index_scan(rest, c, upto - 1);
    }
}

proof fn lemma_last_index_scan(s: Seq<char>, c: char, at: int)
    requires
        -1 <= at < s.len(),
        forall|k: int| at < k < s.len() ==> s[k] != c,
        at == -1 || s[at] == c,
    ensures
        last_index(s, c) == at,
    decreases s.len(),
{
    if s.len() > 0 && at < s.len() - 1 {
        let rest = s.drop_last();
        lemma_last_index_scan(rest, c, at);
    }
}

/// Cuts the JSON object out of a text that may carry log lines around it:
/// everything from the first `{` to the last `}`.
pub fn find_json_part(text: &str) -> (out: Option<&str>)
    ensures
        match out {
            Some(part) => json_part(text@) == Some(part@),
            None => json_part(text@).is_none(),
        },
{
    let chars = chars_of(text);
    let n = chars.len();
    let mut open: usize = 0;
    while open < n && chars[open] != '{'
        invariant
            chars@ == text@,
            n == chars.len(),
            open <= n,
            forall|k: int| 0 <= k < open ==> text@[k] != '{',
        decreases n - open,
    {
        open += 1;
    }
    proof {
        lemma_first_index_scan(text@, '{', open as int);
    }
    if open == n {
        return None;
    }
    let mut close: usize = n;
    while close > 0 && chars[close - 1] != '}'
        invariant
            chars@ == text@,
            n == chars.len(),
            close <= n,
            forall|k: int| close <= k < n ==> text@[k] != '}',
        decreases close,
    {
        close -= 1;
    }
    proof {
        lemma_last_index_scan(text@, '}', close - 1);
    }
    if close == 0 || open > close - 1 {
        return None;
    }
    Some(text.substring_char(open, close))
}

/// The sentence separator of brochure text.
pub open spec fn sentence_separators() -> Seq<char> {
    seq!['。']
}

/// A trimmed piece of text that still has content.
pub open spec fn has_content() -> spec_fn(Seq<char>) -> bool {
    |piece: Seq<char>| piece.len() > 0
}

/// White space removal, as a function on pieces.
pub open spec fn trimming() -> spec_fn(Seq<char>) -> Seq<char> {
    |piece: Seq<char>| trimmed(piece)
}

/// The sentences of a brochure text: its pieces between full stops, trimmed,
/// without the blank ones.
pub open spec fn sentences(full_text: Seq<char>) -> Seq<Seq<char>> {
    split_on(full_text, sentence_separators()).map_values(trimming()).filter(has_content())
}

/// A string that may be absent, with the text that stands for its absence.
pub open spec fn or_text(o: Option<Seq<char>>, fallback: Seq<char>) -> Seq<char> {
    match o {
        Some(s) => s,
        None => fallback,
    }
}

/// The chunk made of one sentence: the sentence behind the attributes of the
/// document it comes from.
pub open spec fn sentence_chunk(
    filename: Seq<char>,
    meta: InsuranceMetadataView,
    sentence: Seq<char>,
) -> Seq<char> {
    "來源: "@ + filename + " | 商品: "@ + meta.product_name + " | 文號: "@ + or_text(
        meta.product_code,
        Seq::<char>::empty(),
    ) + " | 對象: "@ + or_text(meta.target_audience, "不限"@) + " | 內容: "@ + sentence
}

/// The chunk made of one benefit of a product.
pub open spec fn benefit_chunk(meta: InsuranceMetadataView, benefit: Seq<char>) -> Seq<char> {
    "商品: "@ + meta.product_name + " | 給付項目: "@ + benefit
}

/// The chunks of a brochure: one per sentence, then one per benefit.
pub open spec fn semantic_chunks(doc: ParsedDocumentView, filename: Seq<char>) -> Seq<Seq<char>> {
    sentences(doc.full_text).map_values(
        |sentence: Seq<char>| sentence_chunk(filename, doc.metadata, sentence),
    ) + doc.metadata.benefits.map_values(|benefit: Seq<char>| benefit_chunk(doc.metadata, benefit))
}

fn text_or(o: &Option<String>, fallback: &str) -> (out: String)
    ensures
        out@ == or_text(crate::models::opt_view(*o), fallback@),
{
    match o {
        Some(s) => s.clone(),
        None => String::from_str(fallback),
    }
}

fn make_sentence_chunk(filename: &str, meta: &InsuranceMetadata, sentence: &str) -> (out: String)
    ensures
        out@ == sentence_chunk(filename@, meta@, sentence@),
{
    let code = text_or(&meta.product_code, "");
    let audience = text_or(&meta.target_audience, "不限");
    proof {
        reveal_strlit("");
        assert(""@ =~= Seq::<char>::empty());
    }
    let mut out = String::from_str("來源: ");
    out.append(filename);
    out.append(" | 商品: ");
    out.append(meta.product_name.as_str());
    out.append(" | 文號: ");
    out.append(code.as_str());
    out.append(" | 對象: ");
    out.append(audience.as_str());
    out.append(" | 內容: ");
    out.append(sentence);
    out
}

fn make_benefit_chunk(meta: &InsuranceMetadata, benefit: &str) -> (out: String)
    ensures
        out@ == benefit_chunk(meta@, benefit@),
{
    let mut out = String::from_str("商品: ");
    out.append(meta.product_name.as_str());
    out.append(" | 給付項目: ");
    out.append(benefit);
    out
}

/// Cuts a brochure into chunks, every one carrying the product attributes
/// so that its embedding keeps them: one chunk per non-blank sentence of the
/// text, then one per listed benefit.
pub fn semantic_chunking(doc: &ParsedDocument, filename: &str) -> (chunks: Vec<String>)
    ensures
        views(chunks@) == semantic_chunks(doc@, filename@),
{
    let mut chunks: Vec<String> = Vec::new();
    let seps: Vec<char> = vec!['。'];
    assert(seps@ =~= sentence_separators());
    let pieces = split(doc.full_text.as_str(), &seps);
    let ghost raw = split_on(doc@.full_text, sentence_separators());
    let ghost enrich = |sentence: Seq<char>| sentence_chunk(filename@, doc@.metadata, sentence);
    let mut i: usize = 0;
    proof {
        assert(raw.take(0) =~= Seq::<Seq<char>>::empty());
        reveal(Seq::filter);
        assert(views(chunks@) =~= raw.take(0).map_values(trimming()).filter(
            has_content(),
        ).map_values(enrich));
    }
    while i < pieces.len()
        invariant
            i <= pieces.len(),
            raw == views(pieces@),
            enrich == |sentence: Seq<char>| sentence_chunk(filename@, doc@.metadata, sentence),
            views(chunks@) == raw.take(i as int).map_values(trimming()).filter(
                has_content(),
            ).map_values(enrich),
        decreases pieces.len() - i,
    {
        let sentence = trim(pieces[i].as_str());
        proof {
            let before = raw.take(i as int);
            assert(raw.take(i + 1) =~= before.push(raw[i as int]));
            before.lemma_push_map_commute(trimming(), raw[i as int]);
            before.map_values(trimming()).lemma_filter_push(sentence@, has_content());
            before.map_values(trimming()).filter(has_content()).lemma_push_map_commute(
                enrich,
                sentence@,
            );
        }
        if sentence.as_str().unicode_len() > 0 {
            let chunk = make_sentence_chunk(filename, &doc.metadata, sentence.as_str());
            proof {
                lemma_views_push(chunks@, chunk);
            }
            chunks.push(chunk);
        }
        i += 1;
    }
    let ghost sentence_part = views(chunks@);
    let ghost benefits = doc@.metadata.benefits;
    let ghost describe = |benefit: Seq<char>| benefit_chunk(doc@.metadata, benefit);
    proof {
        assert(raw.take(pieces.len() as int) =~= raw);
        assert(benefits.take(0).map_values(describe) =~= Seq::<Seq<char>>::empty());
        assert(sentence_part + benefits.take(0).map_values(describe) =~= sentence_part);
    }
    let mut j: usize = 0;
    while j < doc.metadata.benefits.len()
        invariant
            j <= doc.metadata.benefits.len(),
            benefits == views(doc.metadata.benefits@),
            describe == |benefit: Seq<char>| benefit_chunk(doc@.metadata, benefit),
            views(chunks@) == sentence_part + benefits.take(j as int).map_values(describe),
        decreases doc.metadata.benefits.len() - j,
    {
        let chunk = make_benefit_chunk(&doc.metadata, doc.metadata.benefits[j].as_str());
        proof {
            let before = benefits.take(j as int);
            assert(benefits.take(j + 1) =~= before.push(benefits[j as int]));
            before.lemma_push_map_commute(describe, benefits[j as int]);
            lemma_views_push(chunks@, chunk);
            assert((sentence_part + before.map_values(describe)).push(chunk@) =~= sentence_part
                + before.map_values(describe).push(chunk@));
        }
        chunks.push(chunk);
        j += 1;
    }
    proof {
        assert(benefits.take(doc.metadata.benefits.len() as int) =~= benefits);
    }
    chunks
}

} // verus!
