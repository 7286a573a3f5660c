//! HTML documents: a fragment as the list of its nodes in document order, and
//! the elements that a selector picks.

use crate::text::view_of;
use vstd::prelude::*;

verus! {

/// A node of a fragment.
#[derive(Debug, Clone, PartialEq, Eq)]
pub struct HtmlNode {
    /// How many nodes lie above this one.
    pub depth: usize,
    /// The name of an element.
    pub name: Option<String>,
    /// The text of a text node.
    pub text: Option<String>,
    pub src: Option<String>,
    pub alt: Option<String>,
    pub href: Option<String>,
}

/// What an [`HtmlNode`] holds.
pub struct HtmlView {
    pub depth: nat,
    pub name: Option<Seq<char>>,
    pub text: Option<Seq<char>>,
    pub src: Option<Seq<char>>,
    pub alt: Option<Seq<char>>,
    pub href: Option<Seq<char>>,
}

impl View for HtmlNode {
    type V = HtmlView;

    open spec fn view(&self) -> HtmlView {
        HtmlView {
            depth: self.depth as nat,
            name: view_of(self.name),
            text: view_of(self.text),
            src: view_of(self.src),
            alt: view_of(self.alt),
            href: view_of(self.href),
        }
    }
}

/// What the nodes of a list hold.
pub open spec fn html_views(nodes: Seq<HtmlNode>) -> Seq<HtmlView> {
    Seq::new(nodes.len(), |i: int| nodes[i]@)
}

/// The nodes that `scraper::Html::parse_fragment` finds in a text, in document
/// order.
pub uninterp spec fn parsed_fragment(text: Seq<char>) -> Seq<HtmlView>;

/// `scraper::Html::parse_fragment`, with the nodes of its tree in document
/// order. The result is a function of the text alone.
#[verifier::external_body]
pub(crate) fn parse_fragment(text: &str) -> (r: Vec<HtmlNode>)
    ensures
        html_views(r@) == parsed_fragment(text@),
{
    let html = scraper::Html::parse_fragment(text);
    let read = |node: ego_tree::NodeRef<'_, scraper::Node>, key: &str| -> Option<String> {
        node.value().as_element().and_then(|e| e.attr(key)).map(str::to_owned)
    };
    let convert = |node: ego_tree::NodeRef<'_, scraper::Node>| HtmlNode {
        depth: node.ancestors().count(),
        name: node.value().as_element().map(|e| e.name().to_owned()),
        text: node.value().as_text().map(|t| t.to_string()),
        src: read(node, "src"),
        alt: read(node, "alt"),
        href: read(node, "href"),
    };
    html.tree.root().descendants().map(convert).collect()
}

/// An element that a selector picked, with the values of its attributes.
#[derive(Debug, Clone, PartialEq, Eq)]
pub struct Picked {
    pub href: Option<String>,
    pub rel: Option<String>,
    pub kind: Option<String>,
    pub title: Option<String>,
    pub sizes: Option<String>,
    pub content: Option<String>,
}

/// What a [`Picked`] element holds.
pub struct PickedView {
    pub href: Option<Seq<char>>,
    pub rel: Option<Seq<char>>,
    pub kind: Option<Seq<char>>,
    pub title: Option<Seq<char>>,
    pub sizes: Option<Seq<char>>,
    pub content: Option<Seq<char>>,
}

impl View for Picked {
    type V = PickedView;

    open spec fn view(&self) -> PickedView {
        PickedView {
            href: view_of(self.href),
            rel: view_of(self.rel),
            kind: view_of(self.kind),
            title: view_of(self.title),
            sizes: view_of(self.sizes),
            content: view_of(self.content),
        }
    }
}

/// What the elements of a list hold.
pub open spec fn picked_views(list: Seq<Picked>) -> Seq<PickedView> {
    Seq::new(list.len(), |i: int| list[i]@)
}

/// The elements that a selector picks from the document that
/// `scraper::Html::parse_document` reads in a text, in the order in which its
/// tree holds them; nothing where `scraper::Selector::parse` does not take the
/// selector.
pub uninterp spec fn picked(html: Seq<char>, selector: Seq<char>) -> Option<Seq<PickedView>>;

/// `scraper::Html::select` on the document that `scraper::Html::parse_document`
/// reads, with the attributes of the elements that the selector picks. The
/// result is a function of the two texts alone.
#[verifier::external_body]
pub(crate) fn pick(html: &str, selector: &str) -> (r: Option<Vec<Picked>>)
    ensures
        match r {
            Some(list) => picked(html@, selector@) == Some(picked_views(list@)),
            None => picked(html@, selector@) is None,
        },
{
    let selector = scraper::Selector::parse(selector).ok()?;
    let document = scraper::Html::parse_document(html);
    let convert = |element: scraper::ElementRef<'_>| Picked {
        href: element.attr("href").map(str::to_owned),
        rel: element.attr("rel").map(str::to_owned),
        kind: element.attr("type").map(str::to_owned),
        title: element.attr("title").map(str::to_owned),
        sizes: element.attr("sizes").map(str::to_owned),
        content: element.attr("content").map(str::to_owned),
    };
    Some(document.select(&selector).map(convert).collect())
}

} // verus!
