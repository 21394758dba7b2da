//! What the library takes from an HTML parser: the markup or the text of
//! the elements that a CSS selector picks, and the text of a whole page.
use vstd::prelude::*;
use crate::scan::views;

verus! {

/// The markup of each element that `selector` picks in the document
/// `html`, in document order; `None` where `selector` does not parse.
pub uninterp spec fn selected_html_of(html: Seq<char>, selector: Seq<char>) -> Option<Seq<Seq<char>>>;

/// The text of each element that `selector` picks in the document `html`
/// (its text nodes joined), in document order; `None` where `selector`
/// does not parse.
pub uninterp spec fn selected_text_of(html: Seq<char>, selector: Seq<char>) -> Option<Seq<Seq<char>>>;

/// The text nodes of the document `html`, joined.
pub uninterp spec fn document_text_of(html: Seq<char>) -> Seq<char>;

/// Relies on scraper's `Selector::parse`, `Html::parse_document`,
/// `Html::select` and `ElementRef::html`: the outer markup of each element
/// that the selector picks.
#[verifier::external_body]
pub(crate) fn select_html(html: &str, selector: &str) -> (r: Option<Vec<String>>)
    ensures
        match r {
            Some(v) => selected_html_of(html@, selector@) == Some(views(v@)),
            None => selected_html_of(html@, selector@) is None,
        },
{
    let sel = scraper::Selector::parse(selector).ok()?;
    let doc = scraper::Html::parse_document(html);
    Some(doc.select(&sel).map(|e| e.html()).collect())
}

/// Relies on scraper's `Selector::parse`, `Html::parse_document`,
/// `Html::select` and `ElementRef::text`: the text of each element that
/// the selector picks.
#[verifier::external_body]
pub(crate) fn select_text(html: &str, selector: &str) -> (r: Option<Vec<String>>)
    ensures
        match r {
            Some(v) => selected_text_of(html@, selector@) == Some(views(v@)),
            None => selected_text_of(html@, selector@) is None,
        },
{
    let sel = scraper::Selector::parse(selector).ok()?;
    let doc = scraper::Html::parse_document(html);
    Some(doc.select(&sel).map(|e| e.text().collect::<Vec<_>>().join("")).collect())
}

/// Relies on scraper's `Html::parse_document`, `Html::root_element` and
/// `ElementRef::text`: the text nodes of the whole document.
#[verifier::external_body]
pub(crate) fn document_text(html: &str) -> (r: String)
    ensures
        r@ == document_text_of(html@),
{
    let doc = scraper::Html::parse_document(html);
    doc.root_element().text().collect::<Vec<_>>().join("")
}

} // verus!
