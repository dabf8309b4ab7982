//! Element selection on parsed HTML through the `scraper` crate.

use scraper::{Html, Selector};
use vstd::prelude::*;

use crate::paths::join;

verus! {

/// What the metadata and table-of-contents passes read of a selected element.
pub struct Element {
    /// The element's local name (such as `h2`).
    pub name: String,
    /// The element's descendant text nodes, in document order.
    pub texts: Vec<String>,
    /// The value of the requested attribute, if the element has it.
    pub attr: Option<String>,
}

/// Specification view of a selected element.
pub struct ElementV {
    pub name: Seq<char>,
    pub texts: Seq<Seq<char>>,
    pub attr: Option<Seq<char>>,
}

impl View for Element {
    type V = ElementV;

    open spec fn view(&self) -> ElementV {
        ElementV {
            name: self.name@,
            texts: self.texts@.map_values(|t: String| t@),
            attr: match &self.attr {
                Some(a) => Some(a@),
                None => None,
            },
        }
    }
}

/// The elements of `html` (parsed as a fragment) that match `selector`, in
/// document order, as `scraper` reports them (none when the selector does
/// not parse).
pub uninterp spec fn selected(html: Seq<char>, selector: Seq<char>, attr: Seq<char>) -> Seq<ElementV>;

/// Parses `html` with `scraper::Html::parse_fragment`, selects the elements
/// matching `selector` with `Html::select`, and reports for each its name,
/// its text nodes (`ElementRef::text`) and the value of attribute `attr`.
/// The result is named by `selected`; nothing more is claimed of it.
#[verifier::external_body]
pub(crate) fn select_elements(html: &str, selector: &str, attr: &str) -> (r: Vec<Element>)
    ensures
        r@.map_values(|e: Element| e@) == selected(html@, selector@, attr@),
{
    let doc = Html::parse_fragment(html);
    match Selector::parse(selector) {
        Ok(sel) => doc.select(&sel).map(|el| Element {
            name: el.value().name().to_string(),
            texts: el.text().map(|t| t.to_string()).collect(),
            attr: el.value().attr(attr).map(|a| a.to_string()),
        }).collect(),
        Err(_) => Vec::new(),
    }
}

/// The text nodes joined with single spaces.
pub fn join_texts(parts: &Vec<String>) -> (r: String)
    ensures
        r@ == join(parts@.map_values(|p: String| p@), " "@),
{
    let ghost pv = parts@.map_values(|p: String| p@);
    let mut out = String::new();
    let mut i: usize = 0;
    while i < parts.len()
        invariant
            pv == parts@.map_values(|p: String| p@),
            i <= parts@.len(),
            out@ == join(pv.take(i as int), " "@),
        decreases parts@.len() - i,
    {
        if i > 0 {
            out.append(" ");
        }
        out.append(parts[i].as_str());
        proof {
            assert(pv.take(i + 1).drop_last() =~= pv.take(i as int));
            if i == 0 {
                assert(join(pv.take(0), " "@) =~= Seq::<char>::empty());
            }
        }
        i = i + 1;
    }
    proof {
        assert(pv.take(parts@.len() as int) =~= pv);
    }
    out
}

} // verus!
