//! What is looked for on a web page.
use crate::urls;
use vstd::prelude::*;

verus! {

/// A row of a table: an attribute of it, and the texts of its first cells of two kinds.
#[derive(Debug)]
pub struct HtmlRow {
    pub id: Option<String>,
    pub name: Option<String>,
    pub count: Option<String>,
}

/// What a row stands for.
pub struct RowView {
    pub id: Option<Seq<char>>,
    pub name: Option<Seq<char>>,
    pub count: Option<Seq<char>>,
}

impl View for HtmlRow {
    type V = RowView;

    open spec fn view(&self) -> RowView {
        RowView {
            id: urls::opt_text(self.id),
            name: urls::opt_text(self.name),
            count: urls::opt_text(self.count),
        }
    }
}

/// The views of a vector of rows.
pub open spec fn row_views(v: Seq<HtmlRow>) -> Seq<RowView> {
    v.map_values(|r: HtmlRow| r@)
}

/// The text of the first element of a page that a selector finds.
pub uninterp spec fn html_first_text(html: Seq<char>, selector: Seq<char>) -> Option<Seq<char>>;

/// `scraper::Html::parse_document` and `select`: the pieces of text in the first element that a selector
/// finds, put together. None where there is no such element, or no such selector.
#[verifier::external_body]
fn select_text(html: &str, selector: &str) -> (r: Option<String>)
    ensures
        urls::opt_text(r) == html_first_text(html@, selector@),
{
    let selector = scraper::Selector::parse(selector).ok()?;
    let page = scraper::Html::parse_document(html);
    let found = page.select(&selector).next()?;
    Some(found.text().collect())
}

/// The rows of a page that a selector finds, each with an attribute and the texts of the first elements in
/// it that two further selectors find.
pub uninterp spec fn html_rows(
    html: Seq<char>,
    rows: Seq<char>,
    attribute: Seq<char>,
    name: Seq<char>,
    count: Seq<char>,
) -> Option<Seq<RowView>>;

/// `scraper::Html::parse_document` and `select`: each element that a selector finds, with an
/// attribute of it and the texts of the first elements in it that two further selectors find. None where there is no
/// such selector.
#[verifier::external_body]
fn select_rows(html: &str, rows: &str, attribute: &str, name: &str, count: &str) -> (r: Option<Vec<HtmlRow>>)
    ensures
        match r {
            Some(v) => html_rows(html@, rows@, attribute@, name@, count@) == Some(row_views(v@)),
            None => html_rows(html@, rows@, attribute@, name@, count@) is None,
        },
{
    let rows = scraper::Selector::parse(rows).ok()?;
    let name = scraper::Selector::parse(name).ok()?;
    let count = scraper::Selector::parse(count).ok()?;
    let page = scraper::Html::parse_document(html);
    let row = |found: scraper::ElementRef| HtmlRow {
        id: found.value().attr(attribute).map(str::to_owned),
        name: found.select(&name).next().map(|cell| cell.text().collect()),
        count: found.select(&count).next().map(|cell| cell.text().collect()),
    };
    Some(page.select(&rows).map(row).collect())
}

/// The text of the first element of a page that a selector finds.
pub fn first_text(html: &str, selector: &str) -> (r: Option<String>)
    ensures
        urls::opt_text(r) == html_first_text(html@, selector@),
{
    select_text(html, selector)
}

/// The rows of a page that a selector finds.
pub fn find_rows(html: &str, rows: &str, attribute: &str, name: &str, count: &str) -> (r: Option<Vec<HtmlRow>>)
    ensures
        match r {
            Some(v) => html_rows(html@, rows@, attribute@, name@, count@) == Some(row_views(v@)),
            None => html_rows(html@, rows@, attribute@, name@, count@) is None,
        },
{
    select_rows(html, rows, attribute, name, count)
}

/// Rows stand for the texts of their cells, in their order.
pub proof fn rows_stand_for_their_cells(v: Seq<HtmlRow>, i: int)
    requires
        0 <= i < v.len(),
    ensures
        row_views(v).len() == v.len(),
        row_views(v)[i].id == urls::opt_text(v[i].id),
        row_views(v)[i].name == urls::opt_text(v[i].name),
        row_views(v)[i].count == urls::opt_text(v[i].count),
{
}

} // verus!
