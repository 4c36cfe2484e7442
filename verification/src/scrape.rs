//! Trusted extraction of single values out of HTML documents.
//!
//! The portal embeds everything the client reads — probe markers,
//! continuation tokens, the listing block — in HTML pages.  Locating an
//! element is delegated to the scraper crate behind the two wrappers
//! here; what a found value means is decided by verified code.

use vstd::prelude::*;

verus! {

/// The value of attribute `attr` on the first element of `html` matched
/// by the CSS selector `selector`, if any.
pub uninterp spec fn selected_attr_of(html: Seq<char>, selector: Seq<char>, attr: Seq<char>) -> Option<
    Seq<char>,
>;

/// The concatenated text of the first element of `html` matched by the
/// CSS selector `selector`, if any.
pub uninterp spec fn selected_text_of(html: Seq<char>, selector: Seq<char>) -> Option<Seq<char>>;

/// Relies on scraper's `Html::parse_document`, `Selector::parse` and
/// `Element::attr`: the value of `attr` on the first match of `selector`
/// in `html`, or nothing when the selector is invalid, nothing matches,
/// or the attribute is absent.  The result is a function of the three
/// texts alone.
#[verifier::external_body]
pub(crate) fn select_first_attr(html: &str, selector: &str, attr: &str) -> (r: Option<String>)
    ensures
        match r {
            Some(v) => selected_attr_of(html@, selector@, attr@) == Some(v@),
            None => selected_attr_of(html@, selector@, attr@) is None,
        },
{
    let sel = match scraper::Selector::parse(selector) {
        Ok(s) => s,
        Err(_) => return None,
    };
    scraper::Html::parse_document(html).select(&sel).next().and_then(|el| el.value().attr(attr)).map(
        |v| v.to_string(),
    )
}

/// Relies on scraper's `Html::parse_document`, `Selector::parse` and the
/// element text iterator: the concatenated text of the first match of
/// `selector` in `html`, or nothing when the selector is invalid or
/// nothing matches.  The result is a function of the two texts alone.
#[verifier::external_body]
pub(crate) fn select_first_text(html: &str, selector: &str) -> (r: Option<String>)
    ensures
        match r {
            Some(v) => selected_text_of(html@, selector@) == Some(v@),
            None => selected_text_of(html@, selector@) is None,
        },
{
    let sel = match scraper::Selector::parse(selector) {
        Ok(s) => s,
        Err(_) => return None,
    };
    scraper::Html::parse_document(html).select(&sel).next().map(
        |el| el.text().collect::<String>(),
    )
}

} // verus!
