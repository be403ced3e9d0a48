use vstd::prelude::*;

verus! {

// The DOM queries of the scraper crate that the extractor walks the page
// with. Each wrapper takes markup and selectors as plain text and gives
// plain text back, so every value crossing this boundary is ordinary
// data, and every decision on it is made by verified code. Parsing,
// selecting and serializing are functions of their inputs alone, so each
// wrapper's result carries a name that pins the callers' contracts to
// the markup they were given.

/// What selecting in parsed markup yields: the serialized form of every
/// match of the selector, in the order the document yields them; nothing
/// when the selector text is invalid.
pub uninterp spec fn selected_html_of(html: Seq<char>, sel: Seq<char>) -> Option<Seq<Seq<char>>>;

/// What the text of parsed markup is: its text nodes concatenated in
/// document order.
pub uninterp spec fn doc_text_of(html: Seq<char>) -> Seq<char>;

/// What an attribute lookup on the first match of a selector yields: the
/// attribute's value, the empty text when the element lacks it, and
/// nothing when the selector is invalid or matches no element.
pub uninterp spec fn first_attr_of(
    html: Seq<char>,
    sel: Seq<char>,
    name: Seq<char>,
) -> Option<Seq<char>>;

/// Relies on scraper's Html::parse_document (best-effort parsing that
/// never fails), Selector::parse, Html::select and ElementRef::html: the
/// matches of the selector in the parsed markup, each serialized back to
/// markup, in the order the selection yields them.
#[verifier::external_body]
pub(crate) fn select_html(html: &str, sel: &str) -> (r: Option<Vec<String>>)
    ensures
        match r {
            Some(v) => selected_html_of(html@, sel@) == Some(v.deep_view()),
            None => selected_html_of(html@, sel@) is None,
        },
{
    let doc = scraper::Html::parse_document(html);
    match scraper::Selector::parse(sel) {
        Ok(s) => Some(doc.select(&s).map(|el| el.html()).collect()),
        Err(_) => None,
    }
}

/// Relies on scraper's Html::parse_document, Html::root_element and
/// ElementRef::text: the concatenated text of the parsed markup.
/// Parsing always synthesizes a root element, so the root lookup cannot
/// fail.
#[verifier::external_body]
pub(crate) fn fragment_text(html: &str) -> (r: String)
    ensures
        r@ == doc_text_of(html@),
{
    let doc = scraper::Html::parse_document(html);
    doc.root_element().text().collect()
}

/// Relies on scraper's Html::parse_document, Selector::parse,
/// Html::select and ElementRef::attr: the named attribute of the first
/// match of the selector, or the empty text where that element lacks the
/// attribute.
#[verifier::external_body]
pub(crate) fn first_attr(html: &str, sel: &str, name: &str) -> (r: Option<String>)
    ensures
        match r {
            Some(v) => first_attr_of(html@, sel@, name@) == Some(v@),
            None => first_attr_of(html@, sel@, name@) is None,
        },
{
    let doc = scraper::Html::parse_document(html);
    match scraper::Selector::parse(sel) {
        Ok(s) => doc.select(&s).next().map(|el| el.attr(name).unwrap_or("").to_string()),
        Err(_) => None,
    }
}

} // verus!
