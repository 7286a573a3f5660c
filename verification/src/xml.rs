//! XML documents as the list of their nodes in document order, each with its
//! depth. A node's subtree is the run of deeper nodes that follows it.

use crate::text::{same, same_ignoring_case, view_of};
use vstd::prelude::*;

verus! {

/// A node of a document.
#[derive(Debug, Clone, PartialEq, Eq)]
pub struct XmlNode {
    /// How many nodes lie on the way from the top of the document to this one,
    /// with both ends counted.
    pub depth: usize,
    pub is_element: bool,
    /// The local name of an element.
    pub name: String,
    /// The local names and the values of the attributes, in document order.
    pub attributes: Vec<(String, String)>,
    /// The text of a text node, or the text that an element begins with.
    pub text: Option<String>,
}

/// What an [`XmlNode`] holds.
pub struct XmlView {
    pub depth: nat,
    pub is_element: bool,
    pub name: Seq<char>,
    pub attributes: Seq<(Seq<char>, Seq<char>)>,
    pub text: Option<Seq<char>>,
}

impl View for XmlNode {
    type V = XmlView;

    open spec fn view(&self) -> XmlView {
        XmlView {
            depth: self.depth as nat,
            is_element: self.is_element,
            name: self.name@,
            attributes: Seq::new(
                self.attributes@.len(),
                |i: int| (self.attributes@[i].0@, self.attributes@[i].1@),
            ),
            text: view_of(self.text),
        }
    }
}

/// What the nodes of a list hold.
pub open spec fn node_views(nodes: Seq<XmlNode>) -> Seq<XmlView> {
    Seq::new(nodes.len(), |i: int| nodes[i]@)
}

/// The nodes that `roxmltree::Document::parse` finds in a text, in document
/// order; nothing where the text is not well-formed.
pub uninterp spec fn parsed_xml(text: Seq<char>) -> Option<Seq<XmlView>>;

/// An element: how deep it lies, what it is called, and its attributes.
pub struct RowView {
    pub depth: nat,
    pub name: Seq<char>,
    pub attributes: Seq<(Seq<char>, Seq<char>)>,
}

/// The elements among the nodes of a document, in document order.
pub open spec fn rows_of(nodes: Seq<XmlView>) -> Seq<RowView>
    decreases nodes.len(),
{
    if nodes.len() == 0 {
        Seq::empty()
    } else {
        let before = rows_of(nodes.drop_last());
        let node = nodes.last();
        if node.is_element {
            before.push(
                RowView { depth: node.depth, name: node.name, attributes: node.attributes },
            )
        } else {
            before
        }
    }
}

/// A character as it stands in the value of an attribute, or between tags.
pub open spec fn escaped_char(c: char) -> Seq<char> {
    if c == '&' {
        "&amp;"@
    } else if c == '<' {
        "&lt;"@
    } else if c == '>' {
        "&gt;"@
    } else if c == '"' {
        "&quot;"@
    } else if c == '\'' {
        "&apos;"@
    } else {
        seq![c]
    }
}

/// A text as it stands in the value of an attribute, or between tags.
pub open spec fn escaped(s: Seq<char>) -> Seq<char>
    decreases s.len(),
{
    if s.len() == 0 {
        Seq::empty()
    } else {
        escaped(s.drop_last()) + escaped_char(s.last())
    }
}

/// An escaped text holds no character that could end the value of an attribute
/// or open a tag.
pub proof fn law_escaped_is_inert(s: Seq<char>)
    ensures
        forall|i: int|
            0 <= i < escaped(s).len() ==> {
                let c = #[trigger] escaped(s)[i];
                c != '<' && c != '>' && c != '"' && c != '\''
            },
    decreases s.len(),
{
    if s.len() > 0 {
        law_escaped_is_inert(s.drop_last());
        reveal_strlit("&amp;");
        reveal_strlit("&lt;");
        reveal_strlit("&gt;");
        reveal_strlit("&quot;");
        reveal_strlit("&apos;");
        let before = escaped(s.drop_last());
        let added = escaped_char(s.last());
        assert(escaped(s) == before + added);
        assert forall|i: int| 0 <= i < escaped(s).len() implies {
            let c = #[trigger] escaped(s)[i];
            c != '<' && c != '>' && c != '"' && c != '\''
        } by {
            if i < before.len() {
                assert(escaped(s)[i] == before[i]);
            } else {
                assert(escaped(s)[i] == added[i - before.len()]);
            }
        }
    }
}

/// `value` as it stands in the value of an attribute or between tags.
pub(crate) fn escape(value: &str) -> (r: String)
    ensures
        r@ == escaped(value@),
{
    let mut out = String::new();
    for c in iter: value.chars()
        invariant
            iter.seq() == value@,
            out@ == escaped(value@.take(iter.index() as int)),
    {
        let ghost i = iter.index() as int;
        assert(value@.take(i + 1).drop_last() == value@.take(i));
        if c == '&' {
            out.append("&amp;");
        } else if c == '<' {
            out.append("&lt;");
        } else if c == '>' {
            out.append("&gt;");
        } else if c == '"' {
            out.append("&quot;");
        } else if c == '\'' {
            out.append("&apos;");
        } else {
            let ghost before = out@;
            out.push(c);
            assert(before + seq![c] == before.push(c));
        }
    }
    assert(value@.take(value@.len() as int) == value@);
    out
}

/// An attribute in writing, under the prefix of its document or without one.
pub struct WrittenAttribute {
    pub prefixed: bool,
    pub name: Seq<char>,
    pub value: Seq<char>,
}

/// A piece of a document in writing: the tag that opens an element, the tag of
/// an empty element, the tag that closes an element, or text.
pub enum Piece {
    Open { name: Seq<char>, attributes: Seq<WrittenAttribute> },
    Empty { name: Seq<char>, attributes: Seq<WrittenAttribute> },
    Close { name: Seq<char> },
    Data(Seq<char>),
}

/// A document in writing: the root with its attributes, the one prefix that it
/// declares, and what lies inside.
pub struct WrittenDocument {
    pub name: Seq<char>,
    pub attributes: Seq<WrittenAttribute>,
    pub prefix: Seq<char>,
    pub namespace: Seq<char>,
    pub inner: Seq<Piece>,
}

/// ` name="value"`, with the prefix where it has it.
pub open spec fn attribute_text(attribute: WrittenAttribute, prefix: Seq<char>) -> Seq<char> {
    " "@ + (if attribute.prefixed {
        prefix + ":"@
    } else {
        Seq::empty()
    }) + attribute.name + "=\""@ + escaped(attribute.value) + "\""@
}

/// The attributes of a tag.
pub open spec fn attributes_text(list: Seq<WrittenAttribute>, prefix: Seq<char>) -> Seq<char>
    decreases list.len(),
{
    if list.len() == 0 {
        Seq::empty()
    } else {
        attributes_text(list.drop_last(), prefix) + attribute_text(list.last(), prefix)
    }
}

/// The text of a piece.
pub open spec fn piece_text(piece: Piece, prefix: Seq<char>) -> Seq<char> {
    match piece {
        Piece::Open { name, attributes } => "<"@ + name + attributes_text(attributes, prefix)
            + ">"@,
        Piece::Empty { name, attributes } => "<"@ + name + attributes_text(attributes, prefix)
            + " />"@,
        Piece::Close { name } => "</"@ + name + ">"@,
        Piece::Data(text) => escaped(text),
    }
}

/// The text of pieces, one after the other.
pub open spec fn pieces_text(list: Seq<Piece>, prefix: Seq<char>) -> Seq<char>
    decreases list.len(),
{
    if list.len() == 0 {
        Seq::empty()
    } else {
        pieces_text(list.drop_last(), prefix) + piece_text(list.last(), prefix)
    }
}

/// The text of a document.
pub open spec fn document_text(document: WrittenDocument) -> Seq<char> {
    "<?xml version=\"1.0\" encoding=\"UTF-8\"?>\n<"@ + document.name + attributes_text(
        document.attributes,
        document.prefix,
    ) + " xmlns:"@ + document.prefix + "=\""@ + document.namespace + "\">"@ + pieces_text(
        document.inner,
        document.prefix,
    ) + "</"@ + document.name + ">\n"@
}

/// A character that a document may hold as it is, in the value of an attribute
/// too: no control character, and not one of the two that are no characters.
pub open spec fn is_clean_char(c: char) -> bool {
    c as u32 >= 0x20 && c as u32 != 0xfffe && c as u32 != 0xffff
}

/// A text of such characters.
pub open spec fn is_clean(text: Seq<char>) -> bool {
    forall|i: int| 0 <= i < text.len() ==> is_clean_char(#[trigger] text[i])
}

/// A text that may stand between tags: clean but for tabs and the ends of lines.
pub open spec fn is_text(text: Seq<char>) -> bool {
    forall|i: int|
        0 <= i < text.len() ==> is_clean_char(#[trigger] text[i]) || text[i] == '\n' || text[i]
            == '\t' || text[i] == '\r'
}

/// A name of ASCII letters that is free for use.
pub open spec fn is_plain_name(name: Seq<char>) -> bool {
    &&& name.len() > 0
    &&& forall|i: int|
        0 <= i < name.len() ==> ('a' <= #[trigger] name[i] <= 'z' || 'A' <= name[i] <= 'Z')
    &&& name != "xmlns"@
    &&& name != "xml"@
}

/// The attributes of a tag have plain names, no two of them one name, and clean
/// values.
pub open spec fn are_sound(list: Seq<WrittenAttribute>) -> bool {
    &&& forall|i: int|
        0 <= i < list.len() ==> is_plain_name((#[trigger] list[i]).name) && is_clean(list[i].value)
    &&& forall|i: int, j: int|
        0 <= i < j < list.len() ==> (#[trigger] list[i]).prefixed != (#[trigger] list[j]).prefixed
            || list[i].name != list[j].name
}

/// A piece by itself is in order.
pub open spec fn is_sound_piece(piece: Piece) -> bool {
    match piece {
        Piece::Open { name, attributes } => is_plain_name(name) && are_sound(attributes),
        Piece::Empty { name, attributes } => is_plain_name(name) && are_sound(attributes),
        Piece::Close { name } => is_plain_name(name),
        Piece::Data(text) => is_text(text),
    }
}

/// The pieces of a list are in order, each by itself.
pub open spec fn are_sound_pieces(list: Seq<Piece>) -> bool {
    forall|i: int| 0 <= i < list.len() ==> is_sound_piece(#[trigger] list[i])
}

/// The names of the elements that are open after pieces, where those in `open`
/// were open before; nothing where a tag closes none of those that the pieces
/// opened, or another one than the last.
pub open spec fn open_after(list: Seq<Piece>, open: Seq<Seq<char>>) -> Option<Seq<Seq<char>>>
    decreases list.len(),
{
    if list.len() == 0 {
        Some(open)
    } else {
        match open_after(list.drop_last(), open) {
            Some(now) => match list.last() {
                Piece::Open { name, attributes } => Some(now.push(name)),
                Piece::Close { name } => if now.len() > open.len() && now.last() == name {
                    Some(now.drop_last())
                } else {
                    None
                },
                _ => Some(now),
            },
            None => None,
        }
    }
}

/// The names, without prefixes, and the values of attributes.
pub open spec fn reported(list: Seq<WrittenAttribute>) -> Seq<(Seq<char>, Seq<char>)> {
    Seq::new(list.len(), |i: int| (list[i].name, list[i].value))
}

/// The elements that pieces open, where those in `open` were open before.
pub open spec fn elements_in(list: Seq<Piece>, open: Seq<Seq<char>>) -> Seq<RowView>
    decreases list.len(),
{
    if list.len() == 0 {
        Seq::empty()
    } else {
        let before = elements_in(list.drop_last(), open);
        let depth = match open_after(list.drop_last(), open) {
            Some(now) => now.len() + 2,
            None => 0,
        };
        match list.last() {
            Piece::Open { name, attributes } => before.push(
                RowView { depth, name, attributes: reported(attributes) },
            ),
            Piece::Empty { name, attributes } => before.push(
                RowView { depth, name, attributes: reported(attributes) },
            ),
            _ => before,
        }
    }
}

/// A document in writing is in order: names are plain, the prefix is bound to a
/// namespace of its own, and every element is closed where it was opened.
pub open spec fn is_sound_document(document: WrittenDocument) -> bool {
    &&& is_plain_name(document.name)
    &&& are_sound(document.attributes)
    &&& is_plain_name(document.prefix)
    &&& document.namespace.len() > 0
    &&& is_clean(document.namespace)
    &&& escaped(document.namespace) == document.namespace
    &&& document.namespace != "http://www.w3.org/XML/1998/namespace"@
    &&& document.namespace != "http://www.w3.org/2000/xmlns/"@
    &&& are_sound_pieces(document.inner)
    &&& open_after(document.inner, seq![document.name]) == Some(seq![document.name])
}

/// The elements of a document in writing, in document order.
pub open spec fn document_elements(document: WrittenDocument) -> Seq<RowView> {
    seq![
        RowView { depth: 2, name: document.name, attributes: reported(document.attributes) },
    ] + elements_in(document.inner, seq![document.name])
}

/// `roxmltree::Document::parse`, with the nodes of the document in document
/// order. The result is a function of the text alone. In the text of a document
/// that is in order, not longer than its counts of nodes and attributes reach,
/// it finds the elements that were written, with their attributes.
#[verifier::external_body]
pub(crate) fn parse_xml(text: &str) -> (r: Option<Vec<XmlNode>>)
    ensures
        match r {
            Some(nodes) => parsed_xml(text@) == Some(node_views(nodes@)),
            None => parsed_xml(text@) is None,
        },
        forall|document: WrittenDocument| #[trigger]
            document_text(document) == text@ && is_sound_document(document) && text@.len()
                < u32::MAX ==> r is Some && rows_of(node_views(r->0@)) == document_elements(
                document,
            ),
{
    let document = roxmltree::Document::parse(text).ok()?;
    let convert = |node: roxmltree::Node<'_, '_>| XmlNode {
        depth: node.ancestors().count(),
        is_element: node.is_element(),
        name: node.tag_name().name().to_owned(),
        attributes: node.attributes().map(|a| (a.name().to_owned(), a.value().to_owned())).collect(),
        text: node.text().map(str::to_owned),
    };
    Some(document.descendants().map(convert).collect())
}

/// Pieces behind pieces.
pub proof fn lemma_pieces_join(a: Seq<Piece>, b: Seq<Piece>, prefix: Seq<char>)
    ensures
        pieces_text(a + b, prefix) == pieces_text(a, prefix) + pieces_text(b, prefix),
    decreases b.len(),
{
    if b.len() == 0 {
        assert(a + b == a);
        assert(pieces_text(a, prefix) + pieces_text(b, prefix) == pieces_text(a, prefix));
    } else {
        lemma_pieces_join(a, b.drop_last(), prefix);
        assert((a + b).drop_last() == a + b.drop_last());
        assert((a + b).last() == b.last());
        assert((pieces_text(a, prefix) + pieces_text(b.drop_last(), prefix)) + piece_text(
            b.last(),
            prefix,
        ) == pieces_text(a, prefix) + (pieces_text(b.drop_last(), prefix) + piece_text(
            b.last(),
            prefix,
        )));
    }
}

/// One piece more.
pub proof fn lemma_one_more_piece(
    start: Seq<char>,
    list: Seq<Piece>,
    piece: Piece,
    prefix: Seq<char>,
)
    ensures
        start + pieces_text(list.push(piece), prefix) == (start + pieces_text(list, prefix))
            + piece_text(piece, prefix),
{
    assert(list.push(piece).drop_last() == list);
    assert(start + (pieces_text(list, prefix) + piece_text(piece, prefix)) == (start + pieces_text(
        list,
        prefix,
    )) + piece_text(piece, prefix));
}

/// What pieces behind pieces open and close, where the first leave open what
/// was open.
pub proof fn lemma_elements_join(a: Seq<Piece>, b: Seq<Piece>, open: Seq<Seq<char>>)
    requires
        open_after(a, open) == Some(open),
    ensures
        open_after(a + b, open) == open_after(b, open),
        elements_in(a + b, open) == elements_in(a, open) + elements_in(b, open),
    decreases b.len(),
{
    if b.len() == 0 {
        assert(a + b == a);
    } else {
        lemma_elements_join(a, b.drop_last(), open);
        assert((a + b).drop_last() == a + b.drop_last());
        assert((a + b).last() == b.last());
    }
}

/// An element with pieces inside, which leave open what was open.
pub proof fn lemma_element_round(
    name: Seq<char>,
    attributes: Seq<WrittenAttribute>,
    inner: Seq<Piece>,
    open: Seq<Seq<char>>,
)
    requires
        open_after(inner, open.push(name)) == Some(open.push(name)),
    ensures
        ({
            let whole = seq![Piece::Open { name, attributes }] + inner + seq![
                Piece::Close { name },
            ];
            &&& open_after(whole, open) == Some(open)
            &&& elements_in(whole, open) == seq![
                RowView { depth: open.len() + 2, name, attributes: reported(attributes) },
            ] + elements_in(inner, open.push(name))
        }),
{
    let first = seq![Piece::Open { name, attributes }];
    let last = seq![Piece::Close { name }];
    let whole = first + inner + last;
    lemma_inside(first, name, attributes, inner, open);
    assert(whole.drop_last() == first + inner);
    assert(whole.last() == Piece::Close { name });
    assert(open.push(name).drop_last() == open);
}

proof fn lemma_inside(
    first: Seq<Piece>,
    name: Seq<char>,
    attributes: Seq<WrittenAttribute>,
    inner: Seq<Piece>,
    open: Seq<Seq<char>>,
)
    requires
        first == seq![Piece::Open { name, attributes }],
        open_after(inner, open.push(name)) is Some,
    ensures
        open_after(first + inner, open) == open_after(inner, open.push(name)),
        open_after(inner, open.push(name))->0.len() > open.len(),
        elements_in(first + inner, open) == seq![
            RowView { depth: open.len() + 2, name, attributes: reported(attributes) },
        ] + elements_in(inner, open.push(name)),
    decreases inner.len(),
{
    let row = RowView { depth: open.len() + 2, name, attributes: reported(attributes) };
    if inner.len() == 0 {
        assert(first + inner == first);
        assert(first.drop_last() == Seq::<Piece>::empty());
        assert(open_after(first.drop_last(), open) == Some(open));
        assert(elements_in(first.drop_last(), open) == Seq::<RowView>::empty());
        assert(elements_in(first, open) == Seq::<RowView>::empty().push(row));
        assert(elements_in(first, open) == seq![row] + elements_in(inner, open.push(name)));
    } else {
        lemma_inside(first, name, attributes, inner.drop_last(), open);
        assert((first + inner).drop_last() == first + inner.drop_last());
        assert((first + inner).last() == inner.last());
    }
}

/// The first element at or after `i`.
pub open spec fn first_element(nodes: Seq<XmlView>, i: int) -> Option<int>
    decreases nodes.len() - i,
{
    if i < 0 || i >= nodes.len() {
        None
    } else if nodes[i].is_element {
        Some(i)
    } else {
        first_element(nodes, i + 1)
    }
}

/// The element at the root of the document.
pub fn root_element(nodes: &Vec<XmlNode>) -> (r: Option<usize>)
    ensures
        match r {
            Some(i) => first_element(node_views(nodes@), 0) == Some(i as int) && i < nodes@.len(),
            None => first_element(node_views(nodes@), 0) is None,
        },
{
    let mut i: usize = 0;
    while i < nodes.len()
        invariant
            i <= nodes@.len(),
            first_element(node_views(nodes@), 0) == first_element(node_views(nodes@), i as int),
        decreases nodes@.len() - i,
    {
        assert(node_views(nodes@)[i as int] == nodes@[i as int]@);
        if nodes[i].is_element {
            return Some(i);
        }
        i += 1;
    }
    None
}

/// Some element of the document lies deeper than `limit`.
pub open spec fn deeper_than(nodes: Seq<XmlView>, limit: nat) -> bool {
    exists|i: int| 0 <= i < nodes.len() && #[trigger] nodes[i].is_element && nodes[i].depth > limit
}

/// Whether some element of the document lies deeper than `limit`.
pub fn exceeds_depth(nodes: &Vec<XmlNode>, limit: usize) -> (r: bool)
    ensures
        r == deeper_than(node_views(nodes@), limit as nat),
{
    let ghost all = node_views(nodes@);
    let mut i: usize = 0;
    while i < nodes.len()
        invariant
            i <= nodes@.len(),
            all == node_views(nodes@),
            forall|j: int|
                0 <= j < i ==> !(#[trigger] all[j].is_element && all[j].depth > limit),
        decreases nodes@.len() - i,
    {
        assert(all[i as int] == nodes@[i as int]@);
        if nodes[i].is_element && nodes[i].depth > limit {
            assert(all[i as int].is_element);
            return true;
        }
        i += 1;
    }
    false
}

/// The node `i` is an element with the name `key`.
pub open spec fn is_named(node: XmlView, key: Seq<char>) -> bool {
    node.is_element && node.name == key
}

/// The elements named `key` in the subtree of `p`, from `i` on: its children
/// alone where `direct`, else all below it.
pub open spec fn matching(
    nodes: Seq<XmlView>,
    p: int,
    i: int,
    key: Seq<char>,
    direct: bool,
) -> Seq<int>
    decreases nodes.len() - i,
{
    if i >= nodes.len() || nodes[i].depth <= nodes[p].depth {
        Seq::empty()
    } else {
        let rest = matching(nodes, p, i + 1, key, direct);
        if is_named(nodes[i], key) && (!direct || nodes[i].depth == nodes[p].depth + 1) {
            seq![i] + rest
        } else {
            rest
        }
    }
}

/// The children of `p` named `key`, in order.
pub open spec fn children(nodes: Seq<XmlView>, p: int, key: Seq<char>) -> Seq<int> {
    matching(nodes, p, p + 1, key, true)
}

/// The elements named `key` at `p` and below it, in document order.
pub open spec fn descendants(nodes: Seq<XmlView>, p: int, key: Seq<char>) -> Seq<int> {
    let below = matching(nodes, p, p + 1, key, false);
    if is_named(nodes[p], key) {
        seq![p] + below
    } else {
        below
    }
}

/// The first child of `p` named `key`.
pub open spec fn child(nodes: Seq<XmlView>, p: int, key: Seq<char>) -> Option<int> {
    let all = children(nodes, p, key);
    if all.len() > 0 {
        Some(all[0])
    } else {
        None
    }
}

/// The places in `list`.
pub open spec fn places(list: Seq<usize>) -> Seq<int> {
    Seq::new(list.len(), |i: int| list[i] as int)
}

fn collect(nodes: &Vec<XmlNode>, p: usize, key: &str, direct: bool) -> (r: Vec<usize>)
    requires
        p < nodes@.len(),
    ensures
        places(r@) == matching(node_views(nodes@), p as int, p + 1, key@, direct),
        forall|j: int| 0 <= j < r@.len() ==> p < #[trigger] r@[j] < nodes@.len(),
{
    let ghost all = node_views(nodes@);
    let count: usize = nodes.len();
    let mut out: Vec<usize> = Vec::new();
    let mut i: usize = p + 1;
    assert(places(out@) + matching(all, p as int, p + 1, key@, direct) == matching(
        all,
        p as int,
        p + 1,
        key@,
        direct,
    ));
    while i < count && nodes[i].depth > nodes[p].depth
        invariant
            p < i <= count == nodes@.len(),
            all == node_views(nodes@),
            matching(all, p as int, p + 1, key@, direct) == places(out@) + matching(
                all,
                p as int,
                i as int,
                key@,
                direct,
            ),
            forall|j: int| 0 <= j < out@.len() ==> p < #[trigger] out@[j] < nodes@.len(),
        decreases nodes@.len() - i,
    {
        assert(all[i as int] == nodes@[i as int]@);
        assert(all[p as int] == nodes@[p as int]@);
        let ghost before = places(out@);
        let ghost rest = matching(all, p as int, i + 1, key@, direct);
        if nodes[i].is_element && (!direct || nodes[i].depth - nodes[p].depth == 1) && same(
            nodes[i].name.as_str(),
            key,
        ) {
            out.push(i);
            assert(places(out@) == before.push(i as int));
            assert(before + (seq![i as int] + rest) == before.push(i as int) + rest);
        }
        i += 1;
    }
    assert(i < nodes@.len() ==> all[i as int] == nodes@[i as int]@);
    assert(all[p as int] == nodes@[p as int]@);
    assert(places(out@) + matching(all, p as int, i as int, key@, direct) == places(out@));
    out
}

/// The children of `p` named `key`, in order.
pub fn children_of(nodes: &Vec<XmlNode>, p: usize, key: &str) -> (r: Vec<usize>)
    requires
        p < nodes@.len(),
    ensures
        places(r@) == children(node_views(nodes@), p as int, key@),
        forall|j: int| 0 <= j < r@.len() ==> p < #[trigger] r@[j] < nodes@.len(),
{
    collect(nodes, p, key, true)
}

/// The elements named `key` at `p` and below it, in document order.
pub fn descendants_of(nodes: &Vec<XmlNode>, p: usize, key: &str) -> (r: Vec<usize>)
    requires
        p < nodes@.len(),
    ensures
        places(r@) == descendants(node_views(nodes@), p as int, key@),
        forall|j: int| 0 <= j < r@.len() ==> #[trigger] r@[j] < nodes@.len(),
{
    let mut below = collect(nodes, p, key, false);
    assert(node_views(nodes@)[p as int] == nodes@[p as int]@);
    if nodes[p].is_element && same(nodes[p].name.as_str(), key) {
        let ghost rest = below@;
        below.insert(0, p);
        assert(places(below@) == seq![p as int] + places(rest));
        assert forall|j: int| 0 <= j < below@.len() implies #[trigger] below@[j] < nodes@.len() by {
            assert(j > 0 ==> below@[j] == rest[j - 1]);
        }
    }
    below
}

/// The first child of `p` named `key`.
pub fn child_of(nodes: &Vec<XmlNode>, p: usize, key: &str) -> (r: Option<usize>)
    requires
        p < nodes@.len(),
    ensures
        match r {
            Some(i) => child(node_views(nodes@), p as int, key@) == Some(i as int) && p < i
                < nodes@.len(),
            None => child(node_views(nodes@), p as int, key@) is None,
        },
{
    let all = children_of(nodes, p, key);
    if all.len() > 0 {
        assert(places(all@)[0] == all@[0] as int);
        Some(all[0])
    } else {
        None
    }
}

/// The value of the first attribute at `i` or after it whose name is `key` but
/// for the case of ASCII letters.
pub open spec fn attribute_from(
    attributes: Seq<(Seq<char>, Seq<char>)>,
    i: int,
    key: Seq<char>,
) -> Option<Seq<char>>
    decreases attributes.len() - i,
{
    if i < 0 || i >= attributes.len() {
        None
    } else if crate::text::lower(attributes[i].0) == crate::text::lower(key) {
        Some(attributes[i].1)
    } else {
        attribute_from(attributes, i + 1, key)
    }
}

/// The value of the attribute `key`, whose name is read without regard to the
/// case of ASCII letters.
pub open spec fn attribute(node: XmlView, key: Seq<char>) -> Option<Seq<char>> {
    attribute_from(node.attributes, 0, key)
}

impl XmlNode {
    /// The value of the attribute `key`.
    pub fn attribute(&self, key: &str) -> (r: Option<String>)
        ensures
            view_of(r) == attribute(self@, key@),
    {
        let mut i: usize = 0;
        while i < self.attributes.len()
            invariant
                i <= self.attributes@.len(),
                attribute(self@, key@) == attribute_from(self@.attributes, i as int, key@),
            decreases self.attributes@.len() - i,
        {
            assert(self@.attributes[i as int] == (
                self.attributes@[i as int].0@,
                self.attributes@[i as int].1@,
            ));
            if same_ignoring_case(self.attributes[i].0.as_str(), key) {
                return Some(self.attributes[i].1.clone());
            }
            i += 1;
        }
        None
    }
}

} // verus!
