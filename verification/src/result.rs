//! The aggregate extraction result: the four extractors run over one
//! immutable document, plus a word count over the extracted text.

use vstd::prelude::*;

use crate::links::{extract_links, links_spec};
use crate::meta::{extract_meta_tags, meta_spec, MetaMap};
use crate::text::{extract_text_content, text_spec, word_count, word_count_spec};
use crate::title::{extract_title, title_spec};

verus! {

/// Everything extracted from one document.
pub struct ExtractionResult {
    pub title: String,
    pub links: Vec<String>,
    pub text_content: String,
    pub meta_tags: MetaMap,
    pub word_count: usize,
}

/// The aggregate is faithful to the document: each field is what its
/// extractor's specification gives, and the word count counts the words of
/// the extracted text, not of the raw document.
pub open spec fn result_matches(r: ExtractionResult, doc: Seq<char>) -> bool {
    &&& r.title@ == title_spec(doc)
    &&& r.links@.len() == links_spec(doc).len()
    &&& (forall|i: int| 0 <= i < r.links@.len() ==> r.links@[i]@ == links_spec(doc)[i])
    &&& r.text_content@ == text_spec(doc)
    &&& r.meta_tags@ == meta_spec(doc)
    &&& r.meta_tags.wf()
    &&& r.word_count == word_count_spec(text_spec(doc))
}

/// Runs the four extractors over one document and counts the words of the
/// extracted text.
pub fn extract_all(html: &str) -> (r: ExtractionResult)
    ensures
        result_matches(r, html@),
{
    let title = extract_title(html);
    let links = extract_links(html);
    let text_content = extract_text_content(html);
    let meta_tags = extract_meta_tags(html);
    let wc = word_count(text_content.as_str());
    ExtractionResult { title, links, text_content, meta_tags, word_count: wc }
}

/// Extraction is a pure function of the document: two results that are both
/// faithful to the same document agree on every field, so running any
/// extractor twice yields identical output.
pub proof fn lemma_extraction_deterministic(
    r1: ExtractionResult,
    r2: ExtractionResult,
    doc: Seq<char>,
)
    requires
        result_matches(r1, doc),
        result_matches(r2, doc),
    ensures
        r1.title@ == r2.title@,
        r1.links@.len() == r2.links@.len(),
        forall|i: int| 0 <= i < r1.links@.len() ==> r1.links@[i]@ == r2.links@[i]@,
        r1.text_content@ == r2.text_content@,
        r1.meta_tags@ == r2.meta_tags@,
        r1.word_count == r2.word_count,
{
    assert forall|i: int| 0 <= i < r1.links@.len() implies r1.links@[i]@ == r2.links@[i]@ by {
        assert(r1.links@[i]@ == links_spec(doc)[i]);
        assert(r2.links@[i]@ == links_spec(doc)[i]);
    }
}

} // verus!
