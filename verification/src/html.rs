//! What the page parsers read out of an HTML page, as plain strings.
//!
//! Parsing HTML and matching CSS selectors is the work of the `scraper` and
//! `select` crates; each function here hands a page to them and converts what
//! they find into vectors of strings. Their results are named, not described:
//! what a page parses to takes the HTML standard to state.

use vstd::prelude::*;

verus! {

/// What [`table_cells`] finds: `None` when a selector does not parse;
/// otherwise, for each element matching the table selector in document
/// order, for each of its descendants matching the row selector, the text of
/// each of the row's descendants matching the cell selector.
pub uninterp spec fn spec_table_cells(
    html: Seq<char>,
    table_selector: Seq<char>,
    row_selector: Seq<char>,
    cell_selector: Seq<char>,
) -> Option<Seq<Seq<Seq<Seq<char>>>>>;

/// Parses `html` as a document with `scraper::Html::parse_document`, parses
/// the three selectors with `scraper::Selector::parse`, and walks
/// `Html::select` / `ElementRef::select`, collecting each cell's
/// `ElementRef::text` into one string. The result is named
/// [`spec_table_cells`]; nothing more is claimed of it.
#[verifier::external_body]
pub(crate) fn table_cells(html: &str, table_selector: &str, row_selector: &str, cell_selector: &str) -> (res:
    Option<Vec<Vec<Vec<String>>>>)
    ensures
        res.deep_view() == spec_table_cells(html@, table_selector@, row_selector@, cell_selector@),
{
    let document = scraper::Html::parse_document(html);
    let tables = scraper::Selector::parse(table_selector).ok()?;
    let rows = scraper::Selector::parse(row_selector).ok()?;
    let cells = scraper::Selector::parse(cell_selector).ok()?;
    Some(document.select(&tables).map(|t| t.select(&rows).map(|r| r.select(&cells).map(|c| c.text().collect()).collect()).collect()).collect())
}

/// What [`row_texts_and_links`] finds: `None` when a selector does not parse;
/// otherwise, for each element matching the row selector in document order,
/// its text nodes in order, and, when it has a descendant matching the link
/// selector, the value of the named attribute of the first such descendant
/// (`None` inside when that element lacks the attribute).
pub uninterp spec fn spec_row_texts_and_links(
    html: Seq<char>,
    row_selector: Seq<char>,
    link_selector: Seq<char>,
    attr: Seq<char>,
) -> Option<Seq<(Seq<Seq<char>>, Option<Option<Seq<char>>>)>>;

/// Parses `html` with `scraper::Html::parse_document` and the selectors with
/// `scraper::Selector::parse`; for each row from `Html::select` it collects
/// the row's `ElementRef::text` nodes and the `attr` value
/// (`ElementRef::attr`) of the first element of `ElementRef::select` with the
/// link selector. The result is named [`spec_row_texts_and_links`].
#[verifier::external_body]
pub(crate) fn row_texts_and_links(html: &str, row_selector: &str, link_selector: &str, attr: &str) -> (res:
    Option<Vec<(Vec<String>, Option<Option<String>>)>>)
    ensures
        res.deep_view() == spec_row_texts_and_links(html@, row_selector@, link_selector@, attr@),
{
    let document = scraper::Html::parse_document(html);
    let rows = scraper::Selector::parse(row_selector).ok()?;
    let links = scraper::Selector::parse(link_selector).ok()?;
    Some(document.select(&rows).map(|r| (r.text().map(|t| t.to_string()).collect(), r.select(&links).next().map(|a| a.attr(attr).map(|v| v.to_string())))).collect())
}

/// What [`fragment_attrs`] finds: `None` when the selector does not parse;
/// otherwise, for each element of the fragment matching the selector in
/// document order, the value of the named attribute, if it has it.
pub uninterp spec fn spec_fragment_attrs(html: Seq<char>, selector: Seq<char>, attr: Seq<char>) -> Option<
    Seq<Option<Seq<char>>>,
>;

/// Parses `html` as a fragment with `scraper::Html::parse_fragment`, the
/// selector with `scraper::Selector::parse`, and reads `attr` of each element
/// of `Html::select` (`ElementRef::attr`). The result is named
/// [`spec_fragment_attrs`].
#[verifier::external_body]
pub(crate) fn fragment_attrs(html: &str, selector: &str, attr: &str) -> (res: Option<Vec<Option<String>>>)
    ensures
        res.deep_view() == spec_fragment_attrs(html@, selector@, attr@),
{
    let fragment = scraper::Html::parse_fragment(html);
    let elements = scraper::Selector::parse(selector).ok()?;
    Some(fragment.select(&elements).map(|e| e.attr(attr).map(|v| v.to_string())).collect())
}

/// What [`named_elements`] finds: for each element with the given tag name,
/// in document order, the value of the named attribute if it has it, and the
/// element's text (all descendant text nodes, concatenated).
pub uninterp spec fn spec_named_elements(html: Seq<char>, tag: Seq<char>, attr: Seq<char>) -> Seq<
    (Option<Seq<char>>, Seq<char>),
>;

/// Parses `html` with `select::document::Document::from`, walks
/// `Document::find` with `select::predicate::Name(tag)`, and reads each
/// node's `Node::attr` and `Node::text`. The result is named
/// [`spec_named_elements`].
#[verifier::external_body]
pub(crate) fn named_elements(html: &str, tag: &str, attr: &str) -> (res: Vec<(Option<String>, String)>)
    ensures
        res.deep_view() == spec_named_elements(html@, tag@, attr@),
{
    let document = select::document::Document::from(html);
    document.find(select::predicate::Name(tag)).map(|n| (n.attr(attr).map(|v| v.to_string()), n.text())).collect()
}

} // verus!
