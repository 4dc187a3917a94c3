//! HTML documents parsed and queried with CSS selectors through the
//! `scraper` crate; the elements come back as plain values.
use vstd::prelude::*;
use crate::text::{chars_eq, chars_of};

verus! {

/// One element that a selector picked out of a document: its inner and
/// outer HTML, its text (the concatenated text nodes below it) and its
/// attributes as (local name, value) pairs.
pub struct HtmlElement {
    pub inner_html: String,
    pub outer_html: String,
    pub text: String,
    pub attrs: Vec<(String, String)>,
}

/// The view of an [`HtmlElement`].
pub struct ElementModel {
    pub inner_html: Seq<char>,
    pub outer_html: Seq<char>,
    pub text: Seq<char>,
    pub attrs: Seq<(Seq<char>, Seq<char>)>,
}

/// The views of attribute pairs.
pub open spec fn attrs_view(a: Seq<(String, String)>) -> Seq<(Seq<char>, Seq<char>)> {
    a.map_values(|p: (String, String)| (p.0@, p.1@))
}

impl View for HtmlElement {
    type V = ElementModel;

    open spec fn view(&self) -> ElementModel {
        ElementModel {
            inner_html: self.inner_html@,
            outer_html: self.outer_html@,
            text: self.text@,
            attrs: attrs_view(self.attrs@),
        }
    }
}

/// The views of a list of elements.
pub open spec fn elements_view(v: Seq<HtmlElement>) -> Seq<ElementModel> {
    v.map_values(|e: HtmlElement| e@)
}

/// The views of a list of lists of elements.
pub open spec fn elements_view2(v: Seq<Vec<HtmlElement>>) -> Seq<Seq<ElementModel>> {
    v.map_values(|e: Vec<HtmlElement>| elements_view(e@))
}

/// The views of a list of lists of lists of elements.
pub open spec fn elements_view3(v: Seq<Vec<Vec<HtmlElement>>>) -> Seq<Seq<Seq<ElementModel>>> {
    v.map_values(|e: Vec<Vec<HtmlElement>>| elements_view2(e@))
}

/// The elements of `html` (parsed as a fragment or as a whole document)
/// that match `selector`, in the order `Html::select` yields them.
pub uninterp spec fn html_select(html: Seq<char>, fragment: bool, selector: Seq<char>) -> Seq<ElementModel>;

/// For each element of `html` matching `outer`, the elements below it that
/// match `inner` (`ElementRef::select`).
pub uninterp spec fn html_select_each(html: Seq<char>, fragment: bool, outer: Seq<char>, inner: Seq<char>) -> Seq<Seq<ElementModel>>;

/// For each element of `html` matching `outer`, for each element below it
/// matching `mid`, the elements below that one matching `inner`.
pub uninterp spec fn html_select_each2(
    html: Seq<char>,
    outer: Seq<char>,
    mid: Seq<char>,
    inner: Seq<char>,
) -> Seq<Seq<Seq<ElementModel>>>;

/// A text node, with the class lists of all its ancestors, innermost first.
pub struct TextNode {
    pub text: String,
    pub ancestor_classes: Vec<Vec<String>>,
}

/// The view of a [`TextNode`].
pub struct TextNodeModel {
    pub text: Seq<char>,
    pub ancestor_classes: Seq<Seq<Seq<char>>>,
}

impl View for TextNode {
    type V = TextNodeModel;

    open spec fn view(&self) -> TextNodeModel {
        TextNodeModel {
            text: self.text@,
            ancestor_classes: self.ancestor_classes@.map_values(
                |c: Vec<String>| c@.map_values(|s: String| s@),
            ),
        }
    }
}

/// The views of nested lists of text nodes.
pub open spec fn text_nodes_view3(v: Seq<Vec<Vec<TextNode>>>) -> Seq<Seq<Seq<TextNodeModel>>> {
    v.map_values(
        |r: Vec<Vec<TextNode>>| r@.map_values(|c: Vec<TextNode>| c@.map_values(|t: TextNode| t@)),
    )
}

/// For each element of the document `html` matching `outer`, for each
/// element below it matching `inner`, that element's text nodes in document
/// order.
pub uninterp spec fn html_text_nodes_each(html: Seq<char>, outer: Seq<char>, inner: Seq<char>) -> Seq<Seq<Seq<TextNodeModel>>>;

/// Parses `html` (`Html::parse_fragment` or `Html::parse_document`) and
/// returns the elements that `selector` matches (`Html::select`), each
/// with `inner_html`, `html`, `text` and `attrs`. The contract only names
/// the result; an unparsable selector yields no elements.
#[verifier::external_body]
pub fn select_all(html: &str, fragment: bool, selector: &str) -> (r: Vec<HtmlElement>)
    ensures
        elements_view(r@) == html_select(html@, fragment, selector@),
{
    let doc = if fragment { scraper::Html::parse_fragment(html) } else { scraper::Html::parse_document(html) };
    match scraper::Selector::parse(selector) {
        Ok(s) => doc.select(&s).map(|e| HtmlElement { inner_html: e.inner_html(), outer_html: e.html(), text: e.text().collect(), attrs: e.value().attrs().map(|(k, v)| (k.to_string(), v.to_string())).collect() }).collect(),
        Err(_) => Vec::new(),
    }
}

/// Parses `html` and, for each element that `outer` matches, returns the
/// elements below it that `inner` matches (`ElementRef::select`). The
/// contract only names the result; an unparsable selector yields nothing.
#[verifier::external_body]
pub fn select_each(html: &str, fragment: bool, outer: &str, inner: &str) -> (r: Vec<Vec<HtmlElement>>)
    ensures
        elements_view2(r@) == html_select_each(html@, fragment, outer@, inner@),
{
    let doc = if fragment { scraper::Html::parse_fragment(html) } else { scraper::Html::parse_document(html) };
    match (scraper::Selector::parse(outer), scraper::Selector::parse(inner)) {
        (Ok(o), Ok(i)) => doc.select(&o).map(|row| row.select(&i).map(|e| HtmlElement { inner_html: e.inner_html(), outer_html: e.html(), text: e.text().collect(), attrs: e.value().attrs().map(|(k, v)| (k.to_string(), v.to_string())).collect() }).collect()).collect(),
        _ => Vec::new(),
    }
}

/// Parses the document `html` and, for each element that `outer` matches,
/// for each element below it that `mid` matches, returns the elements
/// below that one that `inner` matches. The contract only names the
/// result; an unparsable selector yields nothing.
#[verifier::external_body]
pub fn select_each2(html: &str, outer: &str, mid: &str, inner: &str) -> (r: Vec<Vec<Vec<HtmlElement>>>)
    ensures
        elements_view3(r@) == html_select_each2(html@, outer@, mid@, inner@),
{
    let doc = scraper::Html::parse_document(html);
    match (scraper::Selector::parse(outer), scraper::Selector::parse(mid), scraper::Selector::parse(inner)) {
        (Ok(o), Ok(m), Ok(i)) => doc.select(&o).map(|row| row.select(&m).map(|cell| cell.select(&i).map(|e| HtmlElement { inner_html: e.inner_html(), outer_html: e.html(), text: e.text().collect(), attrs: e.value().attrs().map(|(k, v)| (k.to_string(), v.to_string())).collect() }).collect()).collect()).collect(),
        _ => Vec::new(),
    }
}

/// Parses the document `html` and, for each element that `outer` matches,
/// for each element below it that `inner` matches, returns that element's
/// text nodes (its descendants that are text, in document order), each with
/// the classes of every ancestor node (none for a node that is not an
/// element). The contract only names the result.
#[verifier::external_body]
pub fn text_nodes_each(html: &str, outer: &str, inner: &str) -> (r: Vec<Vec<Vec<TextNode>>>)
    ensures
        text_nodes_view3(r@) == html_text_nodes_each(html@, outer@, inner@),
{
    let doc = scraper::Html::parse_document(html);
    match (scraper::Selector::parse(outer), scraper::Selector::parse(inner)) {
        (Ok(o), Ok(i)) => doc.select(&o).map(|row| row.select(&i).map(|td| td.descendants().filter_map(|n| n.value().as_text().map(|t| TextNode { text: t.to_string(), ancestor_classes: n.ancestors().map(|a| a.value().as_element().map(|e| e.classes().map(String::from).collect()).unwrap_or_default()).collect() })).collect()).collect()).collect(),
        _ => Vec::new(),
    }
}

/// The value of the first attribute named `name`.
pub open spec fn attr_of(attrs: Seq<(Seq<char>, Seq<char>)>, name: Seq<char>) -> Option<Seq<char>>
    decreases attrs.len(),
{
    if attrs.len() == 0 {
        None
    } else if attrs[0].0 == name {
        Some(attrs[0].1)
    } else {
        attr_of(attrs.drop_first(), name)
    }
}

/// The value of attribute `name` of an element (`Element::attr`).
pub fn attr(e: &HtmlElement, name: &str) -> (r: Option<String>)
    ensures
        crate::wfmu::opt_view(r) == attr_of(e@.attrs, name@),
{
    let nc = chars_of(name);
    let ghost av = attrs_view(e.attrs@);
    let mut k: usize = 0;
    assert(av.skip(0) =~= av);
    while k < e.attrs.len()
        invariant
            k <= e.attrs.len(),
            av == attrs_view(e.attrs@),
            nc@ == name@,
            attr_of(av, name@) == attr_of(av.skip(k as int), name@),
        decreases e.attrs.len() - k,
    {
        assert(av.skip(k as int)[0] == av[k as int]);
        assert(av.skip(k as int).drop_first() =~= av.skip(k + 1));
        let kc = chars_of(e.attrs[k].0.as_str());
        if chars_eq(kc.as_slice(), nc.as_slice()) {
            return Some(e.attrs[k].1.clone());
        }
        k = k + 1;
    }
    None
}

} // verus!
