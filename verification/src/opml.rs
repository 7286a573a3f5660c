//! Subscription lists in OPML: reading them, and writing them.

use crate::error::{CoreError, CoreErrorView};
use crate::identity::{bare_path, borrowed, normal_url, normalize_url};
use crate::order::{comes_before, lemma_not_before, lemma_order, text_before};
use crate::parser::{copied, copied_list, FeedFormat};
use crate::text::{byte_len, lower, lowered, same, same_ignoring_case, trim, trimmed, view_of, views};
use crate::web::{
    host_name, host_of, keeps_normal_form, marked, parse_address, parsed_url, web_href, web_text,
};
use crate::xml::{
    are_sound, are_sound_pieces, attribute_from, attribute_text, attributes_text,
    document_elements, document_text, elements_in, escape, escaped, is_clean, is_plain_name, is_text,
    is_sound_document, is_sound_piece, lemma_element_round, lemma_elements_join,
    lemma_one_more_piece, lemma_pieces_join, node_views, open_after, parsed_xml, piece_text,
    pieces_text, reported, rows_of, Piece, RowView, WrittenAttribute, WrittenDocument, XmlNode,
};
use vstd::prelude::*;
use vstd::utf8::encode_utf8;

verus! {

/// The longest list that is read, in bytes.
pub const MAX_OPML_BYTES: usize = 4_194_304;

/// The most feeds that a list may hold.
pub const MAX_OPML_FEEDS: usize = 10_000;

/// The deepest nesting of folders that is read.
pub const MAX_FOLDER_DEPTH: usize = 32;

/// A subscription.
#[derive(Debug, PartialEq, Eq)]
pub struct OpmlFeed {
    pub title: String,
    pub feed_url: String,
    pub site_url: Option<String>,
    pub folders: Vec<String>,
    pub format: FeedFormat,
    pub custom_title: Option<String>,
}

/// What an [`OpmlFeed`] holds.
pub struct OpmlFeedView {
    pub title: Seq<char>,
    pub feed_url: Seq<char>,
    pub site_url: Option<Seq<char>>,
    pub folders: Seq<Seq<char>>,
    pub format: FeedFormat,
    pub custom_title: Option<Seq<char>>,
}

impl View for OpmlFeed {
    type V = OpmlFeedView;

    open spec fn view(&self) -> OpmlFeedView {
        OpmlFeedView {
            title: self.title@,
            feed_url: self.feed_url@,
            site_url: view_of(self.site_url),
            folders: views(self.folders@),
            format: self.format,
            custom_title: view_of(self.custom_title),
        }
    }
}

impl Clone for OpmlFeed {
    fn clone(&self) -> (r: Self)
        ensures
            r@ == self@,
    {
        OpmlFeed {
            title: self.title.clone(),
            feed_url: self.feed_url.clone(),
            site_url: copied(&self.site_url),
            folders: copied_list(&self.folders),
            format: self.format,
            custom_title: copied(&self.custom_title),
        }
    }
}

/// What the subscriptions of a list hold.
pub open spec fn feed_views(list: Seq<OpmlFeed>) -> Seq<OpmlFeedView> {
    Seq::new(list.len(), |i: int| list[i]@)
}

/// A subscription list, with a message for each entry that could not be read.
#[derive(Debug, PartialEq, Eq)]
pub struct OpmlLibrary {
    pub feeds: Vec<OpmlFeed>,
    pub failures: Vec<String>,
}

/// What an [`OpmlLibrary`] holds.
pub struct OpmlLibraryView {
    pub feeds: Seq<OpmlFeedView>,
    pub failures: Seq<Seq<char>>,
}

impl View for OpmlLibrary {
    type V = OpmlLibraryView;

    open spec fn view(&self) -> OpmlLibraryView {
        OpmlLibraryView { feeds: feed_views(self.feeds@), failures: views(self.failures@) }
    }
}

impl OpmlLibraryView {
    /// A list without entries.
    pub open spec fn empty() -> Self {
        OpmlLibraryView { feeds: Seq::empty(), failures: Seq::empty() }
    }

    /// The list with one more subscription.
    pub open spec fn with_feed(self, feed: OpmlFeedView) -> Self {
        OpmlLibraryView { feeds: self.feeds.push(feed), failures: self.failures }
    }

    /// The list with one more message.
    pub open spec fn with_failure(self, message: Seq<char>) -> Self {
        OpmlLibraryView { feeds: self.feeds, failures: self.failures.push(message) }
    }
}

impl Default for OpmlLibrary {
    fn default() -> (r: Self)
        ensures
            r@ == OpmlLibraryView::empty(),
    {
        let r = OpmlLibrary { feeds: Vec::new(), failures: Vec::new() };
        assert(feed_views(r.feeds@) == Seq::<OpmlFeedView>::empty());
        assert(views(r.failures@) == Seq::<Seq<char>>::empty());
        r
    }
}

impl Clone for OpmlLibrary {
    fn clone(&self) -> (r: Self)
        ensures
            r@ == self@,
    {
        let mut feeds: Vec<OpmlFeed> = Vec::new();
        let mut i: usize = 0;
        while i < self.feeds.len()
            invariant
                i <= self.feeds@.len(),
                feeds@.len() == i,
                forall|j: int| 0 <= j < i ==> #[trigger] feeds@[j]@ == self.feeds@[j]@,
            decreases self.feeds@.len() - i,
        {
            feeds.push(self.feeds[i].clone());
            i += 1;
        }
        assert(feed_views(feeds@) == feed_views(self.feeds@));
        OpmlLibrary { feeds, failures: copied_list(&self.failures) }
    }
}

/// An element of a document, as [`RowView`] says.
pub struct Row {
    pub depth: usize,
    pub name: String,
    pub attributes: Vec<(String, String)>,
    /// The address of a feed that the element names, where it can be used.
    pub feed_url: Option<String>,
    /// The address of a site that the element names, where it can be used.
    pub site_url: Option<String>,
}

impl View for Row {
    type V = RowView;

    open spec fn view(&self) -> RowView {
        RowView {
            depth: self.depth as nat,
            name: self.name@,
            attributes: Seq::new(
                self.attributes@.len(),
                |i: int| (self.attributes@[i].0@, self.attributes@[i].1@),
            ),
        }
    }
}

/// What the elements of a list hold.
pub open spec fn row_views(list: Seq<Row>) -> Seq<RowView> {
    Seq::new(list.len(), |i: int| list[i]@)
}

/// The value of the attribute `key`, whose name is read without regard to the
/// case of ASCII letters.
pub open spec fn row_attribute(row: RowView, key: Seq<char>) -> Option<Seq<char>> {
    attribute_from(row.attributes, 0, key)
}

fn attribute<'a>(row: &'a Row, key: &str) -> (r: Option<&'a str>)
    ensures
        borrowed(r) == row_attribute(row@, key@),
{
    let mut i: usize = 0;
    while i < row.attributes.len()
        invariant
            i <= row.attributes@.len(),
            row_attribute(row@, key@) == attribute_from(row@.attributes, i as int, key@),
        decreases row.attributes@.len() - i,
    {
        assert(row@.attributes[i as int] == (
            row.attributes@[i as int].0@,
            row.attributes@[i as int].1@,
        ));
        if same_ignoring_case(row.attributes[i].0.as_str(), key) {
            return Some(row.attributes[i].1.as_str());
        }
        i += 1;
    }
    None
}

/// An element with the name `key`, but for the case of ASCII letters.
pub open spec fn called(row: RowView, key: Seq<char>) -> bool {
    lower(row.name) == lower(key)
}

/// The address of a feed in a text, where it is an HTTP or HTTPS URL: as the URL
/// parser writes it, with its path as it is and without a fragment.
pub open spec fn feed_address(text: Seq<char>) -> Option<Seq<char>> {
    match parsed_url(trim(text)) {
        Some(a) => if a.is_web() {
            Some(a.head + a.path + marked('?', a.query))
        } else {
            None
        },
        None => None,
    }
}

/// The address of a site in a text, where it is an HTTP or HTTPS URL, in normal
/// form.
pub open spec fn site_address(text: Seq<char>) -> Option<Seq<char>> {
    match web_text(parsed_url(trim(text))) {
        Some(href) => Some(normal_url(href)),
        None => None,
    }
}

fn feed_url_in(value: &str) -> (r: Option<String>)
    ensures
        view_of(r) == feed_address(value@),
        reads_normal_form(trim(value@)),
{
    let bare = trimmed(value);
    match parse_address(bare.as_str()) {
        Some(address) => {
            if !address.web() {
                return None;
            }
            let mut out = address.head;
            out.append(address.path.as_str());
            match address.query {
                Some(query) => {
                    out.push('?');
                    out.append(query.as_str());
                    assert(out@ == address.head@ + address.path@ + marked('?', Some(query@)));
                },
                None => {
                    assert(out@ == out@ + marked('?', None));
                },
            }
            Some(out)
        },
        None => None,
    }
}

fn web_url(value: &str) -> (r: Option<String>)
    ensures
        view_of(r) == site_address(value@),
        reads_normal_form(trim(value@)),
{
    let bare = trimmed(value);
    match web_href(parse_address(bare.as_str())) {
        Some(href) => Some(normalize_url(href.as_str())),
        None => None,
    }
}

/// The title of an outline: its title, else its text.
pub open spec fn row_title(row: RowView) -> Seq<char> {
    match crate::dates::either(row_attribute(row, "title"@), row_attribute(row, "text"@)) {
        Some(text) => trim(text),
        None => trim(""@),
    }
}

fn title_of(row: &Row) -> (r: String)
    ensures
        r@ == row_title(row@),
{
    match attribute(row, "title") {
        Some(text) => trimmed(text),
        None => match attribute(row, "text") {
            Some(text) => trimmed(text),
            None => trimmed(""),
        },
    }
}

/// The type of an outline, in small letters.
pub open spec fn row_kind(row: RowView) -> Seq<char> {
    match row_attribute(row, "type"@) {
        Some(text) => lower(text),
        None => lower(""@),
    }
}

fn kind_of(row: &Row) -> (r: String)
    ensures
        r@ == row_kind(row@),
{
    match attribute(row, "type") {
        Some(text) => lowered(text),
        None => lowered(""),
    }
}

/// The address of the feed that an outline names, as written, where it names
/// one.
pub open spec fn row_address(row: RowView) -> Option<Seq<char>> {
    match row_attribute(row, "xmlurl"@) {
        Some(text) => if trim(text).len() > 0 {
            Some(trim(text))
        } else {
            None
        },
        None => None,
    }
}

fn address_of(row: &Row) -> (r: Option<String>)
    ensures
        view_of(r) == row_address(row@),
{
    match attribute(row, "xmlurl") {
        Some(text) => {
            let bare = trimmed(text);
            if bare.as_str().is_empty() {
                None
            } else {
                Some(bare)
            }
        },
        None => None,
    }
}

/// The address of the feed that an element names, where it can be used.
pub open spec fn row_feed_url(row: RowView) -> Option<Seq<char>> {
    match row_address(row) {
        Some(text) => feed_address(text),
        None => None,
    }
}

/// The address of the site that an element names, where it can be used.
pub open spec fn row_site_url(row: RowView) -> Option<Seq<char>> {
    match row_attribute(row, "htmlurl"@) {
        Some(text) => site_address(text),
        None => None,
    }
}

/// The addresses of an element are those that it names.
pub open spec fn is_read(row: Row) -> bool {
    view_of(row.feed_url) == row_feed_url(row@) && view_of(row.site_url) == row_site_url(row@)
}

/// The elements of a list are read.
pub open spec fn are_read(rows: Seq<Row>) -> bool {
    forall|i: int| 0 <= i < rows.len() ==> is_read(#[trigger] rows[i])
}

/// A text in which a web address in normal form is read as it stands.
pub open spec fn reads_normal_form(text: Seq<char>) -> bool {
    match parsed_url(text) {
        Some(address) => address.is_cut() && keeps_normal_form(text, address),
        None => true,
    }
}

/// The addresses that an element names, where they are in normal form, are read
/// as they stand.
pub open spec fn names_normal_form(row: RowView) -> bool {
    &&& row_address(row) is Some ==> reads_normal_form(trim(row_address(row)->0))
    &&& row_attribute(row, "htmlurl"@) is Some ==> reads_normal_form(
        trim(row_attribute(row, "htmlurl"@)->0),
    )
}

fn read_row(node: XmlNode) -> (r: Row)
    ensures
        r@ == (RowView { depth: node@.depth, name: node@.name, attributes: node@.attributes }),
        is_read(r),
        names_normal_form(r@),
{
    let mut row = Row {
        depth: node.depth,
        name: node.name,
        attributes: node.attributes,
        feed_url: None,
        site_url: None,
    };
    let ghost view = row@;
    assert(view.attributes == node@.attributes);
    let feed_url = match address_of(&row) {
        Some(text) => feed_url_in(text.as_str()),
        None => None,
    };
    let site_url = match attribute(&row, "htmlurl") {
        Some(text) => web_url(text),
        None => None,
    };
    row.feed_url = feed_url;
    row.site_url = site_url;
    assert(row@ == view);
    row
}

fn read_rows(nodes: Vec<XmlNode>) -> (r: Vec<Row>)
    ensures
        row_views(r@) == rows_of(node_views(nodes@)),
        are_read(r@),
        forall|i: int| 0 <= i < r@.len() ==> names_normal_form(#[trigger] row_views(r@)[i]),
{
    let ghost all = node_views(nodes@);
    let mut rows: Vec<Row> = Vec::new();
    assert(row_views(rows@) == Seq::<RowView>::empty());
    for node in iter: nodes
        invariant
            iter.seq() == nodes@,
            all == node_views(nodes@),
            row_views(rows@) == rows_of(all.take(iter.index() as int)),
            are_read(rows@),
            forall|i: int| 0 <= i < rows@.len() ==> names_normal_form(#[trigger] row_views(rows@)[i]),
    {
        let ghost i = iter.index() as int;
        assert(all.take(i + 1).drop_last() == all.take(i));
        assert(all.take(i + 1).last() == node@);
        let ghost before = row_views(rows@);
        if node.is_element {
            let row = read_row(node);
            rows.push(row);
            assert(row_views(rows@) == before.push(row@));
            assert forall|i: int| 0 <= i < rows@.len() implies names_normal_form(
                #[trigger] row_views(rows@)[i],
            ) by {
                if i < before.len() {
                    assert(row_views(rows@)[i] == before[i]);
                }
            }
        }
    }
    assert(all.take(all.len() as int) == all);
    rows
}

/// The format that the type of an outline names.
pub open spec fn kind_format(kind: Seq<char>) -> FeedFormat {
    if kind == "atom"@ {
        FeedFormat::Atom
    } else if kind == "json"@ || kind == "jsonfeed"@ {
        FeedFormat::Json
    } else {
        FeedFormat::Rss
    }
}

/// The type of an outline announces a feed.
pub open spec fn is_feed_kind(kind: Seq<char>) -> bool {
    kind == "rss"@ || kind == "atom"@ || kind == "feed"@ || kind == "xml"@ || kind == "json"@
}

/// The subscription that an outline describes, with the address `url`.
pub open spec fn row_feed(row: RowView, url: Seq<char>, folders: Seq<Seq<char>>) -> OpmlFeedView {
    let title = row_title(row);
    OpmlFeedView {
        title: if title.len() > 0 {
            title
        } else {
            match host_name(url) {
                Some(host) => host,
                None => url,
            }
        },
        feed_url: url,
        site_url: row_site_url(row),
        folders,
        format: kind_format(row_kind(row)),
        custom_title: row_attribute(row, "customtitle"@),
    }
}

fn feed_of(row: &Row, url: String, folders: &Vec<String>) -> (r: OpmlFeed)
    requires
        is_read(*row),
    ensures
        r@ == row_feed(row@, url@, views(folders@)),
{
    let own_title = title_of(row);
    let title = if !own_title.as_str().is_empty() {
        own_title
    } else {
        match host_of(url.as_str()) {
            Some(host) => host,
            None => url.clone(),
        }
    };
    let site_url = copied(&row.site_url);
    let kind = kind_of(row);
    let format = if same(kind.as_str(), "atom") {
        FeedFormat::Atom
    } else if same(kind.as_str(), "json") || same(kind.as_str(), "jsonfeed") {
        FeedFormat::Json
    } else {
        FeedFormat::Rss
    };
    let custom_title = match attribute(row, "customtitle") {
        Some(text) => Some(text.to_owned()),
        None => None,
    };
    OpmlFeed { title, feed_url: url, site_url, folders: copied_list(folders), format, custom_title }
}

/// A message on an outline.
pub open spec fn row_failure(row: RowView, reason: Seq<char>) -> Seq<char> {
    (if row_title(row).len() > 0 {
        row_title(row)
    } else {
        "Untitled feed"@
    }) + reason
}

fn failure_of(row: &Row, reason: &str) -> (r: String)
    ensures
        r@ == row_failure(row@, reason@),
{
    let title = title_of(row);
    let mut out = if title.as_str().is_empty() {
        "Untitled feed".to_owned()
    } else {
        title
    };
    out.append(reason);
    out
}

/// The folders that lie round what is inside an outline.
pub open spec fn inner_folders(row: RowView, folders: Seq<Seq<char>>) -> Seq<Seq<char>> {
    if row_title(row).len() > 0 {
        folders.push(row_title(row))
    } else {
        folders
    }
}

/// The list `library` and what the outline at `p` adds to it, inside `folders`:
/// a subscription, a message, or what the outlines in it add.
pub open spec fn with_outline(
    rows: Seq<RowView>,
    p: int,
    folders: Seq<Seq<char>>,
    library: OpmlLibraryView,
) -> Result<OpmlLibraryView, CoreErrorView>
    decreases rows.len() - p, 0int,
{
    let row = rows[p];
    if folders.len() > MAX_FOLDER_DEPTH {
        Err(CoreErrorView::InputLimitExceeded("OPML folder depth"@))
    } else if library.feeds.len() >= MAX_OPML_FEEDS {
        Err(CoreErrorView::InputLimitExceeded("OPML feed count"@))
    } else {
        match row_address(row) {
            Some(address) => match feed_address(address) {
                Some(url) => Ok(library.with_feed(row_feed(row, url, folders))),
                None => Ok(library.with_failure(row_failure(row, ": invalid feed URL"@))),
            },
            None => if is_feed_kind(row_kind(row)) {
                Ok(library.with_failure(row_failure(row, ": missing feed URL"@)))
            } else if 0 <= p < rows.len() {
                with_outlines(rows, p, p + 1, inner_folders(row, folders), library)
            } else {
                Ok(library)
            },
        }
    }
}

/// The list `library` and what the outlines directly inside `p`, from `i` on,
/// add to it.
pub open spec fn with_outlines(
    rows: Seq<RowView>,
    p: int,
    i: int,
    folders: Seq<Seq<char>>,
    library: OpmlLibraryView,
) -> Result<OpmlLibraryView, CoreErrorView>
    decreases rows.len() - i, 1int,
{
    if i >= rows.len() || rows[i].depth <= rows[p].depth {
        Ok(library)
    } else if rows[i].depth == rows[p].depth + 1 && called(rows[i], "outline"@) {
        match with_outline(rows, i, folders, library) {
            Ok(next) => with_outlines(rows, p, i + 1, folders, next),
            Err(error) => Err(error),
        }
    } else {
        with_outlines(rows, p, i + 1, folders, library)
    }
}

fn walk(rows: &Vec<Row>, p: usize, folders: &Vec<String>, library: &mut OpmlLibrary) -> (r: Result<
    (),
    CoreError,
>)
    requires
        p < rows@.len(),
        are_read(rows@),
    ensures
        match with_outline(row_views(rows@), p as int, views(folders@), old(library)@) {
            Ok(next) => r is Ok && final(library)@ == next,
            Err(error) => r is Err && r->Err_0@ == error,
        },
    decreases rows@.len() - p, 0int,
{
    let ghost before = library@;
    assert(row_views(rows@)[p as int] == rows@[p as int]@);
    assert(views(folders@).len() == folders@.len());
    assert(feed_views(library.feeds@).len() == library.feeds@.len());
    if folders.len() > MAX_FOLDER_DEPTH {
        return Err(CoreError::InputLimitExceeded("OPML folder depth"));
    }
    if library.feeds.len() >= MAX_OPML_FEEDS {
        return Err(CoreError::InputLimitExceeded("OPML feed count"));
    }
    assert(is_read(rows@[p as int]));
    if address_of(&rows[p]).is_some() {
        match &rows[p].feed_url {
            Some(url) => {
                let feed = feed_of(&rows[p], url.clone(), folders);
                library.feeds.push(feed);
                assert(feed_views(library.feeds@) == before.feeds.push(feed@));
            },
            None => {
                let message = failure_of(&rows[p], ": invalid feed URL");
                library.failures.push(message);
                assert(views(library.failures@) == before.failures.push(message@));
            },
        }
        return Ok(());
    }
    let kind = kind_of(&rows[p]);
    if same(kind.as_str(), "rss") || same(kind.as_str(), "atom") || same(kind.as_str(), "feed")
        || same(kind.as_str(), "xml") || same(kind.as_str(), "json") {
        let message = failure_of(&rows[p], ": missing feed URL");
        library.failures.push(message);
        assert(views(library.failures@) == before.failures.push(message@));
        return Ok(());
    }
    let count: usize = rows.len();
    let title = title_of(&rows[p]);
    let mut next = copied_list(folders);
    if !title.as_str().is_empty() {
        let ghost outer = next@;
        next.push(title);
        assert(views(next@) == views(outer).push(title@));
    }
    walk_children(rows, p, p + 1, &next, library)
}

fn walk_children(
    rows: &Vec<Row>,
    p: usize,
    from: usize,
    folders: &Vec<String>,
    library: &mut OpmlLibrary,
) -> (r: Result<(), CoreError>)
    requires
        p < from <= rows@.len(),
        are_read(rows@),
    ensures
        match with_outlines(
            row_views(rows@),
            p as int,
            from as int,
            views(folders@),
            old(library)@,
        ) {
            Ok(next) => r is Ok && final(library)@ == next,
            Err(error) => r is Err && r->Err_0@ == error,
        },
    decreases rows@.len() - from, 1int,
{
    let ghost all = row_views(rows@);
    let ghost wanted = with_outlines(all, p as int, from as int, views(folders@), library@);
    let mut i: usize = from;
    while i < rows.len() && rows[i].depth > rows[p].depth
        invariant
            p < from <= i <= rows@.len(),
            are_read(rows@),
            all == row_views(rows@),
            wanted == with_outlines(
                all,
                p as int,
                from as int,
                views(folders@),
                old(library)@,
            ),
            wanted == with_outlines(all, p as int, i as int, views(folders@), library@),
        decreases rows@.len() - i,
    {
        assert(all[i as int] == rows@[i as int]@);
        assert(all[p as int] == rows@[p as int]@);
        if rows[i].depth - rows[p].depth == 1 && same_ignoring_case(
            rows[i].name.as_str(),
            "outline",
        ) {
            match walk(rows, i, folders, library) {
                Ok(()) => {},
                Err(error) => {
                    return Err(error);
                },
            }
        }
        i += 1;
    }
    assert(i < rows@.len() ==> all[i as int] == rows@[i as int]@);
    assert(all[p as int] == rows@[p as int]@);
    Ok(())
}

/// The place of the first element named `key` at `i` or after it.
pub open spec fn first_called(rows: Seq<RowView>, i: int, key: Seq<char>) -> Option<int>
    decreases rows.len() - i,
{
    if i < 0 || i >= rows.len() {
        None
    } else if called(rows[i], key) {
        Some(i)
    } else {
        first_called(rows, i + 1, key)
    }
}

fn find_called(rows: &Vec<Row>, key: &str) -> (r: Option<usize>)
    ensures
        match r {
            Some(i) => first_called(row_views(rows@), 0, key@) == Some(i as int) && i
                < rows@.len(),
            None => first_called(row_views(rows@), 0, key@) is None,
        },
{
    let mut i: usize = 0;
    while i < rows.len()
        invariant
            i <= rows@.len(),
            first_called(row_views(rows@), 0, key@) == first_called(
                row_views(rows@),
                i as int,
                key@,
            ),
        decreases rows@.len() - i,
    {
        assert(row_views(rows@)[i as int] == rows@[i as int]@);
        if same_ignoring_case(rows[i].name.as_str(), key) {
            return Some(i);
        }
        i += 1;
    }
    None
}

/// What comes of the elements of a document: the list in its body, or a
/// refusal.
pub open spec fn imported_rows(rows: Seq<RowView>) -> Result<OpmlLibraryView, CoreErrorView> {
    if rows.len() == 0 || !called(rows[0], "opml"@) {
        Err(CoreErrorView::Opml("unsupported document"@))
    } else {
        match first_called(rows, 0, "body"@) {
            Some(body) => match with_outlines(
                rows,
                body,
                body + 1,
                Seq::empty(),
                OpmlLibraryView::empty(),
            ) {
                Ok(library) => if library.feeds.len() == 0 && library.failures.len() == 0 {
                    Err(CoreErrorView::Opml("no subscriptions"@))
                } else {
                    Ok(library)
                },
                Err(error) => Err(error),
            },
            None => Err(CoreErrorView::Opml("missing body"@)),
        }
    }
}

/// What comes of reading a list.
pub open spec fn library_result(r: Result<OpmlLibrary, CoreError>) -> Result<
    OpmlLibraryView,
    CoreErrorView,
> {
    match r {
        Ok(library) => Ok(library@),
        Err(error) => Err(error@),
    }
}

/// The list in the elements of a document.
fn import_rows(rows: &Vec<Row>) -> (r: Result<OpmlLibrary, CoreError>)
    requires
        are_read(rows@),
    ensures
        library_result(r) == imported_rows(row_views(rows@)),
{
    let ghost all = row_views(rows@);
    if rows.len() == 0 {
        return Err(CoreError::Opml("unsupported document".to_owned()));
    }
    assert(all[0] == rows@[0]@);
    if !same_ignoring_case(rows[0].name.as_str(), "opml") {
        return Err(CoreError::Opml("unsupported document".to_owned()));
    }
    let body = match find_called(rows, "body") {
        Some(i) => i,
        None => {
            return Err(CoreError::Opml("missing body".to_owned()));
        },
    };
    let count: usize = rows.len();
    let mut library = OpmlLibrary::default();
    let folders: Vec<String> = Vec::new();
    assert(views(folders@) == Seq::<Seq<char>>::empty());
    match walk_children(rows, body, body + 1, &folders, &mut library) {
        Ok(()) => {},
        Err(error) => {
            return Err(error);
        },
    }
    assert(feed_views(library.feeds@).len() == library.feeds@.len());
    assert(views(library.failures@).len() == library.failures@.len());
    if library.feeds.len() == 0 && library.failures.len() == 0 {
        return Err(CoreError::Opml("no subscriptions".to_owned()));
    }
    Ok(library)
}

/// What comes of a text.
pub open spec fn imported(input: Seq<char>) -> Result<OpmlLibraryView, CoreErrorView> {
    if input.len() == 0 {
        Err(CoreErrorView::Opml("empty document"@))
    } else if byte_len(input) > MAX_OPML_BYTES {
        Err(CoreErrorView::InputLimitExceeded("OPML document bytes"@))
    } else {
        match parsed_xml(input) {
            Some(nodes) => imported_rows(rows_of(nodes)),
            None => Err(CoreErrorView::Opml("malformed XML"@)),
        }
    }
}

/// A text has at least as many bytes as characters.
proof fn lemma_bytes(text: Seq<char>)
    ensures
        text.len() <= byte_len(text),
    decreases text.len(),
{
    if text.len() > 0 {
        vstd::utf8::encode_utf8_first_scalar(text);
        vstd::utf8::char_is_scalar(text[0]);
        lemma_bytes(text.drop_first());
    }
}

/// The subscription list in `input`. What [`export`] wrote of a list is read
/// as that list.
pub fn import(input: &str) -> (r: Result<OpmlLibrary, CoreError>)
    ensures
        library_result(r) == imported(input@),
        forall|library: OpmlLibraryView, created: Seq<char>| #[trigger]
            exported(library, created) == input@ && is_restorable(library, created)
                ==> is_same_list(library_result(r), library),
{
    if input.is_empty() {
        proof {
            reveal_strlit(">\n");
            assert forall|library: OpmlLibraryView, created: Seq<char>| #[trigger]
                exported(library, created) == input@ implies false by {
                assert(exported(library, created).len() > 0);
            }
        }
        return Err(CoreError::Opml("empty document".to_owned()));
    }
    if input.as_bytes().len() > MAX_OPML_BYTES {
        return Err(CoreError::InputLimitExceeded("OPML document bytes"));
    }
    match crate::xml::parse_xml(input) {
        Some(nodes) => {
            let rows = read_rows(nodes);
            proof {
                assert forall|library: OpmlLibraryView, created: Seq<char>| #[trigger]
                    exported(library, created) == input@ && is_restorable(library, created) implies
                    is_same_list(imported(input@), library) by {
                    lemma_written(library, created);
                    assert(input@.len() < u32::MAX) by {
                        lemma_bytes(input@);
                    }
                    assert(document_text(written(library, created)) == input@);
                    assert(row_views(rows@) == document_rows(library));
                    lemma_lasting(library);
                    law_import_gives_back_export(library);
                }
            }
            import_rows(&rows)
        },
        None => {
            proof {
                assert forall|library: OpmlLibraryView, created: Seq<char>| #[trigger]
                    exported(library, created) == input@ && is_restorable(library, created) implies
                    false by {
                    lemma_written(library, created);
                    assert(input@.len() < u32::MAX) by {
                        lemma_bytes(input@);
                    }
                    assert(document_text(written(library, created)) == input@);
                }
            }
            Err(CoreError::Opml("malformed XML".to_owned()))
        },
    }
}

/// Where a subscription goes in a list that is in order: behind all that do not
/// come after it.
pub open spec fn feed_place(list: Seq<OpmlFeedView>, feed: OpmlFeedView) -> int
    decreases list.len(),
{
    if list.len() == 0 {
        0
    } else if text_before(feed.feed_url, list.last().feed_url) {
        feed_place(list.drop_last(), feed)
    } else {
        list.len() as int
    }
}

/// The subscriptions of a list in the order of their addresses; those with one
/// address stay as they were.
pub open spec fn in_order(list: Seq<OpmlFeedView>) -> Seq<OpmlFeedView>
    decreases list.len(),
{
    if list.len() == 0 {
        Seq::empty()
    } else {
        let before = in_order(list.drop_last());
        before.insert(feed_place(before, list.last()), list.last())
    }
}

/// What the subscriptions behind a list of references hold.
pub open spec fn lent_views(list: Seq<&OpmlFeed>) -> Seq<OpmlFeedView> {
    Seq::new(list.len(), |i: int| list[i]@)
}

proof fn lemma_feed_place(list: Seq<OpmlFeedView>, feed: OpmlFeedView)
    ensures
        0 <= feed_place(list, feed) <= list.len(),
    decreases list.len(),
{
    if list.len() > 0 {
        lemma_feed_place(list.drop_last(), feed);
    }
}

fn sort_feeds<'a>(feeds: &'a Vec<OpmlFeed>) -> (r: Vec<&'a OpmlFeed>)
    ensures
        lent_views(r@) == in_order(feed_views(feeds@)),
{
    let ghost all = feed_views(feeds@);
    let mut out: Vec<&'a OpmlFeed> = Vec::new();
    let mut i: usize = 0;
    assert(lent_views(out@) == Seq::<OpmlFeedView>::empty());
    while i < feeds.len()
        invariant
            i <= feeds@.len(),
            all == feed_views(feeds@),
            lent_views(out@) == in_order(all.take(i as int)),
        decreases feeds@.len() - i,
    {
        let ghost before = lent_views(out@);
        let ghost feed = feeds@[i as int]@;
        assert(all.take(i + 1).drop_last() == all.take(i as int));
        assert(all.take(i + 1).last() == feed);
        let mut k: usize = out.len();
        assert(before.take(k as int) == before);
        while k > 0 && comes_before(feeds[i].feed_url.as_str(), out[k - 1].feed_url.as_str())
            invariant
                k <= out@.len(),
                i < feeds@.len(),
                before == lent_views(out@),
                feed == feeds@[i as int]@,
                feed_place(before, feed) == feed_place(before.take(k as int), feed),
            decreases k,
        {
            assert(before.take(k as int).last() == out@[k - 1]@);
            assert(before.take(k as int).drop_last() == before.take(k - 1));
            k -= 1;
        }
        assert(k > 0 ==> before.take(k as int).last() == out@[k - 1]@);
        assert(feed_place(before, feed) == k);
        out.insert(k, &feeds[i]);
        assert(lent_views(out@) == before.insert(k as int, feed));
        i += 1;
    }
    assert(all.take(i as int) == all);
    out
}

/// The subscriptions that lie in the folder at level `at` itself.
pub open spec fn lying_here(list: Seq<OpmlFeedView>, at: int) -> Seq<OpmlFeedView>
    decreases list.len(),
{
    if list.len() == 0 {
        Seq::empty()
    } else if list.last().folders.len() <= at {
        lying_here(list.drop_last(), at).push(list.last())
    } else {
        lying_here(list.drop_last(), at)
    }
}

/// The subscriptions whose folder at level `at` is `name`.
pub open spec fn lying_in(list: Seq<OpmlFeedView>, at: int, name: Seq<char>) -> Seq<OpmlFeedView>
    decreases list.len(),
{
    if list.len() == 0 {
        Seq::empty()
    } else if list.last().folders.len() > at && list.last().folders[at] == name {
        lying_in(list.drop_last(), at, name).push(list.last())
    } else {
        lying_in(list.drop_last(), at, name)
    }
}

/// Where a name goes in a list that is in order.
pub open spec fn name_place(list: Seq<Seq<char>>, name: Seq<char>) -> int
    decreases list.len(),
{
    if list.len() == 0 {
        0
    } else if text_before(name, list.last()) {
        name_place(list.drop_last(), name)
    } else {
        list.len() as int
    }
}

/// The names of the folders at level `at`, each once, in order.
pub open spec fn folder_names(list: Seq<OpmlFeedView>, at: int) -> Seq<Seq<char>>
    decreases list.len(),
{
    if list.len() == 0 {
        Seq::empty()
    } else {
        let before = folder_names(list.drop_last(), at);
        if list.last().folders.len() <= at {
            before
        } else {
            let name = list.last().folders[at];
            if before.contains(name) {
                before
            } else {
                before.insert(name_place(before, name), name)
            }
        }
    }
}

fn collect_here<'a>(list: &Vec<&'a OpmlFeed>, at: usize) -> (r: Vec<&'a OpmlFeed>)
    ensures
        lent_views(r@) == lying_here(lent_views(list@), at as int),
{
    let ghost all = lent_views(list@);
    let mut out: Vec<&'a OpmlFeed> = Vec::new();
    let mut i: usize = 0;
    assert(lent_views(out@) == Seq::<OpmlFeedView>::empty());
    while i < list.len()
        invariant
            i <= list@.len(),
            all == lent_views(list@),
            lent_views(out@) == lying_here(all.take(i as int), at as int),
        decreases list@.len() - i,
    {
        let ghost before = lent_views(out@);
        assert(all.take(i + 1).drop_last() == all.take(i as int));
        assert(all.take(i + 1).last() == list@[i as int]@);
        if list[i].folders.len() <= at {
            out.push(list[i]);
            assert(lent_views(out@) == before.push(list@[i as int]@));
        }
        i += 1;
    }
    assert(all.take(i as int) == all);
    out
}

fn collect_in<'a>(list: &Vec<&'a OpmlFeed>, at: usize, name: &str) -> (r: Vec<&'a OpmlFeed>)
    ensures
        lent_views(r@) == lying_in(lent_views(list@), at as int, name@),
{
    let ghost all = lent_views(list@);
    let mut out: Vec<&'a OpmlFeed> = Vec::new();
    let mut i: usize = 0;
    assert(lent_views(out@) == Seq::<OpmlFeedView>::empty());
    while i < list.len()
        invariant
            i <= list@.len(),
            all == lent_views(list@),
            lent_views(out@) == lying_in(all.take(i as int), at as int, name@),
        decreases list@.len() - i,
    {
        let ghost before = lent_views(out@);
        assert(all.take(i + 1).drop_last() == all.take(i as int));
        assert(all.take(i + 1).last() == list@[i as int]@);
        if list[i].folders.len() > at && same(list[i].folders[at].as_str(), name) {
            out.push(list[i]);
            assert(lent_views(out@) == before.push(list@[i as int]@));
        }
        i += 1;
    }
    assert(all.take(i as int) == all);
    out
}

proof fn lemma_name_place(list: Seq<Seq<char>>, name: Seq<char>)
    ensures
        0 <= name_place(list, name) <= list.len(),
    decreases list.len(),
{
    if list.len() > 0 {
        lemma_name_place(list.drop_last(), name);
    }
}

fn insert_name(names: &mut Vec<String>, name: &str)
    ensures
        views(final(names)@) == (if views(old(names)@).contains(name@) {
            views(old(names)@)
        } else {
            views(old(names)@).insert(name_place(views(old(names)@), name@), name@)
        }),
{
    let ghost before = views(names@);
    let mut i: usize = 0;
    while i < names.len()
        invariant
            i <= names@.len(),
            before == views(names@),
            names@ == old(names)@,
            forall|j: int| 0 <= j < i ==> #[trigger] before[j] != name@,
        decreases names@.len() - i,
    {
        assert(before[i as int] == names@[i as int]@);
        if same(names[i].as_str(), name) {
            assert(before.contains(name@));
            return ;
        }
        i += 1;
    }
    assert(!before.contains(name@));
    let mut k: usize = names.len();
    assert(before.take(k as int) == before);
    while k > 0 && comes_before(name, names[k - 1].as_str())
        invariant
            k <= names@.len(),
            before == views(names@),
            names@ == old(names)@,
            name_place(before, name@) == name_place(before.take(k as int), name@),
        decreases k,
    {
        assert(before.take(k as int).last() == names@[k - 1]@);
        assert(before.take(k as int).drop_last() == before.take(k - 1));
        k -= 1;
    }
    assert(k > 0 ==> before.take(k as int).last() == names@[k - 1]@);
    names.insert(k, name.to_owned());
    assert(views(names@) == before.insert(k as int, name@));
}

fn collect_names(list: &Vec<&OpmlFeed>, at: usize) -> (r: Vec<String>)
    ensures
        views(r@) == folder_names(lent_views(list@), at as int),
{
    let ghost all = lent_views(list@);
    let mut out: Vec<String> = Vec::new();
    let mut i: usize = 0;
    assert(views(out@) == Seq::<Seq<char>>::empty());
    while i < list.len()
        invariant
            i <= list@.len(),
            all == lent_views(list@),
            views(out@) == folder_names(all.take(i as int), at as int),
        decreases list@.len() - i,
    {
        assert(all.take(i + 1).drop_last() == all.take(i as int));
        assert(all.take(i + 1).last() == list@[i as int]@);
        if list[i].folders.len() > at {
            assert(list@[i as int]@.folders[at as int] == list@[i as int].folders@[at as int]@);
            insert_name(&mut out, list[i].folders[at].as_str());
        }
        i += 1;
    }
    assert(all.take(i as int) == all);
    out
}

/// `count` times two spaces.
pub open spec fn indent(count: nat) -> Seq<char>
    decreases count,
{
    if count == 0 {
        Seq::empty()
    } else {
        indent((count - 1) as nat) + "  "@
    }
}

/// The type under which a format is written.
pub open spec fn format_kind(format: FeedFormat) -> Seq<char> {
    match format {
        FeedFormat::Rss => "rss"@,
        FeedFormat::Atom => "atom"@,
        FeedFormat::Json => "json"@,
    }
}

/// The prefix under which own attributes are written.
pub open spec fn own_prefix() -> Seq<char> {
    "feedlizard"@
}

/// An attribute without a prefix.
pub open spec fn plain_attribute(name: Seq<char>, value: Seq<char>) -> WrittenAttribute {
    WrittenAttribute { prefixed: false, name, value }
}

/// The attributes of a subscription in writing.
pub open spec fn feed_attributes(feed: OpmlFeedView) -> Seq<WrittenAttribute> {
    seq![
        plain_attribute("text"@, feed.title),
        plain_attribute("title"@, feed.title),
        plain_attribute("type"@, format_kind(feed.format)),
        plain_attribute("xmlUrl"@, feed.feed_url),
    ] + (match feed.site_url {
        Some(site) => seq![plain_attribute("htmlUrl"@, site)],
        None => Seq::empty(),
    }) + (match feed.custom_title {
        Some(custom) => seq![
            WrittenAttribute { prefixed: true, name: "customTitle"@, value: custom },
        ],
        None => Seq::empty(),
    })
}

/// The attributes of a folder in writing.
pub open spec fn folder_attributes(name: Seq<char>) -> Seq<WrittenAttribute> {
    seq![plain_attribute("text"@, name), plain_attribute("title"@, name)]
}

/// The line for a subscription.
pub open spec fn feed_line(feed: OpmlFeedView, margin: Seq<char>) -> Seq<Piece> {
    seq![
        Piece::Data(margin),
        Piece::Empty { name: "outline"@, attributes: feed_attributes(feed) },
        Piece::Data("\n"@),
    ]
}

/// The line that opens a folder.
pub open spec fn folder_line(name: Seq<char>, margin: Seq<char>) -> Seq<Piece> {
    seq![
        Piece::Data(margin),
        Piece::Open { name: "outline"@, attributes: folder_attributes(name) },
        Piece::Data("\n"@),
    ]
}

/// The line that closes a folder.
pub open spec fn closing_line(margin: Seq<char>) -> Seq<Piece> {
    seq![Piece::Data(margin), Piece::Close { name: "outline"@ }, Piece::Data("\n"@)]
}

/// A text without characters that are escaped stands as it is.
proof fn lemma_escaped_plain(s: Seq<char>)
    requires
        forall|i: int|
            0 <= i < s.len() ==> {
                let c = #[trigger] s[i];
                c != '&' && c != '<' && c != '>' && c != '"' && c != '\''
            },
    ensures
        escaped(s) == s,
    decreases s.len(),
{
    if s.len() > 0 {
        assert forall|i: int| 0 <= i < s.drop_last().len() implies {
            let c = #[trigger] s.drop_last()[i];
            c != '&' && c != '<' && c != '>' && c != '"' && c != '\''
        } by {
            assert(s.drop_last()[i] == s[i]);
        }
        lemma_escaped_plain(s.drop_last());
        assert(s[s.len() - 1] == s.last());
        assert(s == s.drop_last() + seq![s.last()]);
    }
}

/// Every indentation is made of spaces.
proof fn lemma_indent(count: nat)
    ensures
        forall|i: int| 0 <= i < indent(count).len() ==> #[trigger] indent(count)[i] == ' ',
        escaped(indent(count)) == indent(count),
    decreases count,
{
    reveal_strlit("  ");
    if count > 0 {
        lemma_indent((count - 1) as nat);
        let before = indent((count - 1) as nat);
        assert forall|i: int| 0 <= i < indent(count).len() implies #[trigger] indent(count)[i]
            == ' ' by {
            if i < before.len() {
                assert(before[i] == ' ');
            }
        }
    }
    lemma_escaped_plain(indent(count));
}

proof fn lemma_newline()
    ensures
        escaped("\n"@) == "\n"@,
        "\n"@.len() == 1,
        "\n"@[0] == '\n',
{
    reveal_strlit("\n");
    lemma_escaped_plain("\n"@);
}

/// Three pieces one after the other.
proof fn lemma_three(a: Piece, b: Piece, c: Piece, prefix: Seq<char>)
    ensures
        pieces_text(seq![a, b, c], prefix) == piece_text(a, prefix) + piece_text(b, prefix)
            + piece_text(c, prefix),
{
    let none = Seq::<Piece>::empty();
    let empty = Seq::<char>::empty();
    lemma_one_more_piece(empty, none, a, prefix);
    lemma_one_more_piece(empty, none.push(a), b, prefix);
    lemma_one_more_piece(empty, none.push(a).push(b), c, prefix);
    assert(none.push(a).push(b).push(c) == seq![a, b, c]);
    assert(empty + pieces_text(none, prefix) == empty);
    assert(empty + piece_text(a, prefix) == piece_text(a, prefix));
    assert(empty + pieces_text(seq![a, b, c], prefix) == pieces_text(seq![a, b, c], prefix));
}

/// Writes one more attribute.
fn write_attribute(output: &mut String, prefixed: bool, name: &str, value: &str)
    ensures
        final(output)@ == old(output)@ + attribute_text(
            (WrittenAttribute { prefixed, name: name@, value: value@ }),
            own_prefix(),
        ),
{
    let ghost start = output@;
    let text = escape(value);
    output.append(" ");
    if prefixed {
        output.append("feedlizard");
        output.append(":");
    }
    let ghost opened = output@;
    assert(opened == start + (" "@ + (if prefixed {
        own_prefix() + ":"@
    } else {
        Seq::empty()
    })));
    output.append(name);
    output.append("=\"");
    output.append(text.as_str());
    output.append("\"");
    assert(output@ == start + attribute_text(
        WrittenAttribute { prefixed, name: name@, value: value@ },
        own_prefix(),
    ));
}

/// One attribute more.
proof fn lemma_one_more_attribute(
    start: Seq<char>,
    list: Seq<WrittenAttribute>,
    attribute: WrittenAttribute,
    prefix: Seq<char>,
)
    ensures
        start + attributes_text(list.push(attribute), prefix) == (start + attributes_text(
            list,
            prefix,
        )) + attribute_text(attribute, prefix),
{
    assert(list.push(attribute).drop_last() == list);
    assert(start + (attributes_text(list, prefix) + attribute_text(attribute, prefix)) == (start
        + attributes_text(list, prefix)) + attribute_text(attribute, prefix));
}

/// Writes the attributes of a subscription.
fn write_feed_attributes(feed: &OpmlFeed, output: &mut String)
    ensures
        final(output)@ == old(output)@ + attributes_text(feed_attributes(feed@), own_prefix()),
{
    let ghost start = output@;
    let ghost prefix = own_prefix();
    let ghost all = feed_attributes(feed@);
    let ghost mut done = Seq::<WrittenAttribute>::empty();
    assert(start + attributes_text(done, prefix) == start);
    let kind = match feed.format {
        FeedFormat::Rss => "rss",
        FeedFormat::Atom => "atom",
        FeedFormat::Json => "json",
    };
    write_attribute(output, false, "text", feed.title.as_str());
    proof {
        lemma_one_more_attribute(start, done, plain_attribute("text"@, feed@.title), prefix);
        done = done.push(plain_attribute("text"@, feed@.title));
    }
    write_attribute(output, false, "title", feed.title.as_str());
    proof {
        lemma_one_more_attribute(start, done, plain_attribute("title"@, feed@.title), prefix);
        done = done.push(plain_attribute("title"@, feed@.title));
    }
    write_attribute(output, false, "type", kind);
    proof {
        lemma_one_more_attribute(start, done, plain_attribute("type"@, kind@), prefix);
        done = done.push(plain_attribute("type"@, kind@));
    }
    write_attribute(output, false, "xmlUrl", feed.feed_url.as_str());
    proof {
        lemma_one_more_attribute(start, done, plain_attribute("xmlUrl"@, feed@.feed_url), prefix);
        done = done.push(plain_attribute("xmlUrl"@, feed@.feed_url));
    }
    match &feed.site_url {
        Some(site) => {
            write_attribute(output, false, "htmlUrl", site.as_str());
            proof {
                lemma_one_more_attribute(start, done, plain_attribute("htmlUrl"@, site@), prefix);
                done = done.push(plain_attribute("htmlUrl"@, site@));
            }
        },
        None => {},
    }
    match &feed.custom_title {
        Some(custom) => {
            write_attribute(output, true, "customTitle", custom.as_str());
            proof {
                let own = WrittenAttribute {
                    prefixed: true,
                    name: "customTitle"@,
                    value: custom@,
                };
                lemma_one_more_attribute(start, done, own, prefix);
                done = done.push(own);
            }
        },
        None => {},
    }
    assert(done == all);
}

fn write_feed(feed: &OpmlFeed, margin: &str, output: &mut String)
    requires
        escaped(margin@) == margin@,
    ensures
        final(output)@ == old(output)@ + pieces_text(feed_line(feed@, margin@), own_prefix()),
{
    let ghost start = output@;
    let ghost attributes = feed_attributes(feed@);
    output.append(margin);
    output.append("<");
    output.append("outline");
    write_feed_attributes(feed, output);
    output.append(" />");
    output.append("\n");
    proof {
        lemma_newline();
        let tag = Piece::Empty { name: "outline"@, attributes };
        lemma_three(Piece::Data(margin@), tag, Piece::Data("\n"@), own_prefix());
        assert(output@ == start + (margin@ + ("<"@ + "outline"@ + attributes_text(
            attributes,
            own_prefix(),
        ) + " />"@) + "\n"@));
    }
}

fn open_folder(name: &str, margin: &str, output: &mut String)
    requires
        escaped(margin@) == margin@,
    ensures
        final(output)@ == old(output)@ + pieces_text(folder_line(name@, margin@), own_prefix()),
{
    let ghost start = output@;
    let ghost attributes = folder_attributes(name@);
    let ghost prefix = own_prefix();
    output.append(margin);
    output.append("<");
    output.append("outline");
    let ghost opened = output@;
    write_attribute(output, false, "text", name);
    write_attribute(output, false, "title", name);
    proof {
        let none = Seq::<WrittenAttribute>::empty();
        let first = plain_attribute("text"@, name@);
        let second = plain_attribute("title"@, name@);
        assert(opened + attributes_text(none, prefix) == opened);
        lemma_one_more_attribute(opened, none, first, prefix);
        lemma_one_more_attribute(opened, none.push(first), second, prefix);
        assert(none.push(first).push(second) == attributes);
    }
    output.append(">");
    output.append("\n");
    proof {
        lemma_newline();
        let tag = Piece::Open { name: "outline"@, attributes };
        lemma_three(Piece::Data(margin@), tag, Piece::Data("\n"@), prefix);
        assert(output@ == start + (margin@ + ("<"@ + "outline"@ + attributes_text(
            attributes,
            prefix,
        ) + ">"@) + "\n"@));
    }
}

fn close_folder(margin: &str, output: &mut String)
    requires
        escaped(margin@) == margin@,
    ensures
        final(output)@ == old(output)@ + pieces_text(closing_line(margin@), own_prefix()),
{
    let ghost start = output@;
    output.append(margin);
    output.append("</");
    output.append("outline");
    output.append(">");
    output.append("\n");
    proof {
        lemma_newline();
        let tag = Piece::Close { name: "outline"@ };
        lemma_three(Piece::Data(margin@), tag, Piece::Data("\n"@), own_prefix());
        assert(output@ == start + (margin@ + ("</"@ + "outline"@ + ">"@) + "\n"@));
    }
}

/// The lines for the subscriptions of a list.
pub open spec fn feed_lines(list: Seq<OpmlFeedView>, margin: Seq<char>) -> Seq<Piece>
    decreases list.len(),
{
    if list.len() == 0 {
        Seq::empty()
    } else {
        feed_lines(list.drop_last(), margin) + feed_line(list.last(), margin)
    }
}

/// The longest way of folders round a subscription of a list.
pub open spec fn deepest(list: Seq<OpmlFeedView>) -> nat
    decreases list.len(),
{
    if list.len() == 0 {
        0
    } else if list.last().folders.len() > deepest(list.drop_last()) {
        list.last().folders.len()
    } else {
        deepest(list.drop_last())
    }
}

/// The lines for the subscriptions of a list, seen from level `at`: first those
/// that lie here, then folder after folder. `levels` bounds the levels to come.
pub open spec fn outline_lines(list: Seq<OpmlFeedView>, at: nat, levels: nat) -> Seq<Piece>
    decreases levels, 1nat, 0nat,
{
    feed_lines(lying_here(list, at as int), indent(at + 1)) + (if levels == 0 {
        Seq::empty()
    } else {
        folder_lines(list, folder_names(list, at as int), at, levels)
    })
}

/// The lines for the folders `names` of a list.
pub open spec fn folder_lines(
    list: Seq<OpmlFeedView>,
    names: Seq<Seq<char>>,
    at: nat,
    levels: nat,
) -> Seq<Piece>
    decreases levels, 0nat, names.len(),
{
    if names.len() == 0 || levels == 0 {
        Seq::empty()
    } else {
        let name = names.last();
        folder_lines(list, names.drop_last(), at, levels) + (folder_line(name, indent(at + 1))
            + outline_lines(lying_in(list, at as int, name), at + 1, (levels - 1) as nat)
            + closing_line(indent(at + 1)))
    }
}

fn write_outlines(list: &Vec<&OpmlFeed>, at: usize, levels: usize, margin: &str, output: &mut String)
    requires
        at + levels <= usize::MAX,
        margin@ == indent((at + 1) as nat),
    ensures
        final(output)@ == old(output)@ + pieces_text(
            outline_lines(lent_views(list@), at as nat, levels as nat),
            own_prefix(),
        ),
    decreases levels,
{
    let ghost all = lent_views(list@);
    let ghost start = output@;
    let ghost prefix = own_prefix();
    let here = collect_here(list, at);
    let ghost lying = lent_views(here@);
    let mut i: usize = 0;
    proof {
        lemma_indent((at + 1) as nat);
        assert(lying.take(0) == Seq::<OpmlFeedView>::empty());
        assert(start + pieces_text(feed_lines(lying.take(0), margin@), prefix) == start);
    }
    while i < here.len()
        invariant
            i <= here@.len(),
            escaped(margin@) == margin@,
            lying == lent_views(here@),
            prefix == own_prefix(),
            output@ == start + pieces_text(feed_lines(lying.take(i as int), margin@), prefix),
        decreases here@.len() - i,
    {
        assert(lying.take(i + 1).drop_last() == lying.take(i as int));
        assert(lying.take(i + 1).last() == here@[i as int]@);
        write_feed(here[i], margin, output);
        proof {
            let before = feed_lines(lying.take(i as int), margin@);
            let line = feed_line(here@[i as int]@, margin@);
            lemma_pieces_join(before, line, prefix);
            assert(start + (pieces_text(before, prefix) + pieces_text(line, prefix)) == (start
                + pieces_text(before, prefix)) + pieces_text(line, prefix));
        }
        i += 1;
    }
    assert(lying.take(i as int) == lying);
    let ghost after_feeds = output@;
    let ghost first = feed_lines(lying, margin@);
    if levels == 0 {
        assert(first + Seq::<Piece>::empty() == first);
        return ;
    }
    let names = collect_names(list, at);
    let ghost all_names = views(names@);
    let mut inner_margin = margin.to_owned();
    inner_margin.append("  ");
    assert(inner_margin@ == indent((at + 2) as nat));
    let mut k: usize = 0;
    assert(after_feeds + pieces_text(
        folder_lines(all, all_names.take(0), at as nat, levels as nat),
        prefix,
    ) == after_feeds);
    while k < names.len()
        invariant
            k <= names@.len(),
            at + levels <= usize::MAX,
            levels > 0,
            all == lent_views(list@),
            all_names == views(names@),
            prefix == own_prefix(),
            margin@ == indent((at + 1) as nat),
            escaped(margin@) == margin@,
            inner_margin@ == indent((at + 2) as nat),
            output@ == after_feeds + pieces_text(
                folder_lines(all, all_names.take(k as int), at as nat, levels as nat),
                prefix,
            ),
        decreases names@.len() - k,
    {
        let ghost name = names@[k as int]@;
        assert(all_names.take(k + 1).drop_last() == all_names.take(k as int));
        assert(all_names.take(k + 1).last() == name);
        let ghost before = folder_lines(all, all_names.take(k as int), at as nat, levels as nat);
        let inside = collect_in(list, at, names[k].as_str());
        let ghost now = output@;
        open_folder(names[k].as_str(), margin, output);
        write_outlines(&inside, at + 1, levels - 1, inner_margin.as_str(), output);
        close_folder(margin, output);
        proof {
            let a = folder_line(name, margin@);
            let b = outline_lines(
                lying_in(all, at as int, name),
                (at + 1) as nat,
                (levels - 1) as nat,
            );
            let c = closing_line(margin@);
            lemma_pieces_join(a, b, prefix);
            lemma_pieces_join(a + b, c, prefix);
            lemma_pieces_join(before, a + b + c, prefix);
            let x = pieces_text(before, prefix);
            let y = pieces_text(a, prefix) + pieces_text(b, prefix) + pieces_text(c, prefix);
            assert(output@ == now + y);
            assert(after_feeds + (x + y) == (after_feeds + x) + y);
        }
        k += 1;
    }
    assert(all_names.take(k as int) == all_names);
    proof {
        let rest = folder_lines(all, all_names, at as nat, levels as nat);
        lemma_pieces_join(first, rest, prefix);
        assert(start + (pieces_text(first, prefix) + pieces_text(rest, prefix)) == (start
            + pieces_text(first, prefix)) + pieces_text(rest, prefix));
    }
}

fn depth_of(list: &Vec<&OpmlFeed>) -> (r: usize)
    ensures
        r == deepest(lent_views(list@)),
{
    let ghost all = lent_views(list@);
    let mut depth: usize = 0;
    let mut i: usize = 0;
    while i < list.len()
        invariant
            i <= list@.len(),
            all == lent_views(list@),
            depth == deepest(all.take(i as int)),
        decreases list@.len() - i,
    {
        assert(all.take(i + 1).drop_last() == all.take(i as int));
        assert(all.take(i + 1).last() == list@[i as int]@);
        assert(list@[i as int]@.folders.len() == list@[i as int].folders@.len());
        if list[i].folders.len() > depth {
            depth = list[i].folders.len();
        }
        i += 1;
    }
    assert(all.take(i as int) == all);
    depth
}

/// What stands before the outlines of a list.
pub open spec fn head_pieces(created: Seq<char>) -> Seq<Piece> {
    seq![
        Piece::Open { name: "head"@, attributes: Seq::empty() },
        Piece::Open { name: "title"@, attributes: Seq::empty() },
        Piece::Data("FeedLizard Subscriptions"@),
        Piece::Close { name: "title"@ },
        Piece::Open { name: "dateCreated"@, attributes: Seq::empty() },
        Piece::Data(created),
        Piece::Close { name: "dateCreated"@ },
        Piece::Close { name: "head"@ },
        Piece::Open { name: "body"@, attributes: Seq::empty() },
        Piece::Data("\n"@),
    ]
}

/// A subscription list as a document: the subscriptions in the order of their
/// addresses, each in its folders.
pub open spec fn written(library: OpmlLibraryView, created: Seq<char>) -> WrittenDocument {
    let feeds = in_order(library.feeds);
    WrittenDocument {
        name: "opml"@,
        attributes: seq![plain_attribute("version"@, "2.0"@)],
        prefix: own_prefix(),
        namespace: "https://feedlizard.app/opml/1"@,
        inner: head_pieces(created) + outline_lines(feeds, 0, deepest(feeds)) + seq![
            Piece::Close { name: "body"@ },
        ],
    }
}

/// A subscription list in writing.
pub open spec fn exported(library: OpmlLibraryView, created: Seq<char>) -> Seq<char> {
    document_text(written(library, created))
}

fn write_opening(name: &str, output: &mut String)
    ensures
        final(output)@ == old(output)@ + piece_text(
            Piece::Open { name: name@, attributes: Seq::empty() },
            own_prefix(),
        ),
{
    let ghost start = output@;
    output.append("<");
    output.append(name);
    output.append(">");
    assert(output@ == start + ("<"@ + name@ + attributes_text(Seq::empty(), own_prefix())
        + ">"@));
}

fn write_closing(name: &str, output: &mut String)
    ensures
        final(output)@ == old(output)@ + piece_text(Piece::Close { name: name@ }, own_prefix()),
{
    let ghost start = output@;
    output.append("</");
    output.append(name);
    output.append(">");
    assert(output@ == start + ("</"@ + name@ + ">"@));
}

fn write_data(text: &str, output: &mut String)
    ensures
        final(output)@ == old(output)@ + piece_text(Piece::Data(text@), own_prefix()),
{
    let data = escape(text);
    output.append(data.as_str());
}

fn write_head(created: &str, output: &mut String)
    ensures
        final(output)@ == old(output)@ + pieces_text(head_pieces(created@), own_prefix()),
{
    let ghost start = output@;
    let ghost prefix = own_prefix();
    let ghost all = head_pieces(created@);
    assert(all.take(0) == Seq::<Piece>::empty());
    assert(start + pieces_text(all.take(0), prefix) == start);
    proof {
        lemma_next_piece(start, all, 0, prefix);
        lemma_next_piece(start, all, 1, prefix);
        lemma_next_piece(start, all, 2, prefix);
        lemma_next_piece(start, all, 3, prefix);
        lemma_next_piece(start, all, 4, prefix);
        lemma_next_piece(start, all, 5, prefix);
        lemma_next_piece(start, all, 6, prefix);
        lemma_next_piece(start, all, 7, prefix);
        lemma_next_piece(start, all, 8, prefix);
        lemma_next_piece(start, all, 9, prefix);
    }
    write_opening("head", output);
    write_opening("title", output);
    write_data("FeedLizard Subscriptions", output);
    write_closing("title", output);
    write_opening("dateCreated", output);
    write_data(created, output);
    write_closing("dateCreated", output);
    write_closing("head", output);
    write_opening("body", output);
    write_data("\n", output);
    assert(all.take(10) == all);
}

proof fn lemma_next_piece(start: Seq<char>, all: Seq<Piece>, i: int, prefix: Seq<char>)
    requires
        0 <= i < all.len(),
    ensures
        start + pieces_text(all.take(i + 1), prefix) == (start + pieces_text(all.take(i), prefix))
            + piece_text(all[i], prefix),
{
    assert(all.take(i + 1) == all.take(i).push(all[i]));
    lemma_one_more_piece(start, all.take(i), all[i], prefix);
}

/// The subscription list `library` in writing, dated `created_rfc2822`. Where
/// the list is as reading gives it, [`import`] gives it back.
pub fn export(library: &OpmlLibrary, created_rfc2822: &str) -> (r: String)
    ensures
        r@ == exported(library@, created_rfc2822@),
{
    let feeds = sort_feeds(&library.feeds);
    let levels = depth_of(&feeds);
    let ghost document = written(library@, created_rfc2822@);
    let ghost prefix = own_prefix();
    let mut output = "<?xml version=\"1.0\" encoding=\"UTF-8\"?>\n<".to_owned();
    output.append("opml");
    let ghost opened = output@;
    write_attribute(&mut output, false, "version", "2.0");
    proof {
        let none = Seq::<WrittenAttribute>::empty();
        assert(opened + attributes_text(none, prefix) == opened);
        lemma_one_more_attribute(opened, none, plain_attribute("version"@, "2.0"@), prefix);
        assert(none.push(plain_attribute("version"@, "2.0"@)) == document.attributes);
    }
    output.append(" xmlns:");
    output.append("feedlizard");
    output.append("=\"");
    output.append("https://feedlizard.app/opml/1");
    output.append("\">");
    let ghost start = output@;
    write_head(created_rfc2822, &mut output);
    assert(indent(0) + "  "@ == "  "@);
    write_outlines(&feeds, 0, levels, "  ", &mut output);
    write_closing("body", &mut output);
    proof {
        let a = head_pieces(created_rfc2822@);
        let b = outline_lines(lent_views(feeds@), 0, levels as nat);
        let close = Piece::Close { name: "body"@ };
        lemma_pieces_join(a, b, prefix);
        lemma_one_more_piece(start, a + b, close, prefix);
        assert((a + b).push(close) == document.inner);
        assert(output@ == start + pieces_text(document.inner, prefix));
    }
    output.append("</");
    output.append("opml");
    output.append(">\n");
    output
}

/// The element that is written for a subscription at a depth.
pub open spec fn feed_row(feed: OpmlFeedView, depth: nat) -> RowView {
    RowView {
        depth,
        name: "outline"@,
        attributes: seq![
            ("text"@, feed.title),
            ("title"@, feed.title),
            ("type"@, format_kind(feed.format)),
            ("xmlUrl"@, feed.feed_url),
        ] + (match feed.site_url {
            Some(site) => seq![("htmlUrl"@, site)],
            None => Seq::empty(),
        }) + (match feed.custom_title {
            Some(custom) => seq![("customTitle"@, custom)],
            None => Seq::empty(),
        }),
    }
}

/// The element that is written for a folder at a depth.
pub open spec fn folder_row(name: Seq<char>, depth: nat) -> RowView {
    RowView {
        depth,
        name: "outline"@,
        attributes: seq![("text"@, name), ("title"@, name)],
    }
}

/// The elements that are written for the subscriptions of a list.
pub open spec fn feed_rows(list: Seq<OpmlFeedView>, depth: nat) -> Seq<RowView> {
    Seq::new(list.len(), |i: int| feed_row(list[i], depth))
}

/// The elements that are written for a list, seen from level `at`.
pub open spec fn outline_rows(list: Seq<OpmlFeedView>, at: nat, levels: nat) -> Seq<RowView>
    decreases levels, 1nat, 0nat,
{
    feed_rows(lying_here(list, at as int), at + 4) + (if levels == 0 {
        Seq::empty()
    } else {
        folder_rows(list, folder_names(list, at as int), at, levels)
    })
}

/// The elements that are written for the folders `names` of a list.
pub open spec fn folder_rows(
    list: Seq<OpmlFeedView>,
    names: Seq<Seq<char>>,
    at: nat,
    levels: nat,
) -> Seq<RowView>
    decreases levels, 0nat, names.len(),
{
    if names.len() == 0 || levels == 0 {
        Seq::empty()
    } else {
        let name = names.last();
        folder_rows(list, names.drop_last(), at, levels) + seq![folder_row(name, at + 4)]
            + outline_rows(lying_in(list, at as int, name), at + 1, (levels - 1) as nat)
    }
}

/// The elements of the document that is written for a list: the root, the
/// head with its two entries, the body, and the outlines.
pub open spec fn document_rows(library: OpmlLibraryView) -> Seq<RowView> {
    let feeds = in_order(library.feeds);
    seq![
        RowView { depth: 2, name: "opml"@, attributes: seq![("version"@, "2.0"@)] },
        RowView { depth: 3, name: "head"@, attributes: Seq::empty() },
        RowView { depth: 4, name: "title"@, attributes: Seq::empty() },
        RowView { depth: 4, name: "dateCreated"@, attributes: Seq::empty() },
        RowView { depth: 3, name: "body"@, attributes: Seq::empty() },
    ] + outline_rows(feeds, 0, deepest(feeds))
}

/// The subscriptions of a list in the order in which they are written.
pub open spec fn regrouped(list: Seq<OpmlFeedView>, at: nat, levels: nat) -> Seq<OpmlFeedView>
    decreases levels, 1nat, 0nat,
{
    lying_here(list, at as int) + (if levels == 0 {
        Seq::empty()
    } else {
        regrouped_folders(list, folder_names(list, at as int), at, levels)
    })
}

/// The subscriptions in the folders `names` of a list, in the order in which
/// they are written.
pub open spec fn regrouped_folders(
    list: Seq<OpmlFeedView>,
    names: Seq<Seq<char>>,
    at: nat,
    levels: nat,
) -> Seq<OpmlFeedView>
    decreases levels, 0nat, names.len(),
{
    if names.len() == 0 || levels == 0 {
        Seq::empty()
    } else {
        regrouped_folders(list, names.drop_last(), at, levels) + regrouped(
            lying_in(list, at as int, names.last()),
            at + 1,
            (levels - 1) as nat,
        )
    }
}

/// A name that survives being read: something without white space round it.
pub open spec fn is_settled_name(name: Seq<char>) -> bool {
    name.len() > 0 && trim(name) == name
}

/// A subscription as reading a list gives it: a title and folders without white
/// space round them, and addresses as the URL parser writes them.
pub open spec fn is_settled(feed: OpmlFeedView) -> bool {
    &&& is_settled_name(feed.title)
    &&& is_settled_name(feed.feed_url)
    &&& feed_address(feed.feed_url) == Some(feed.feed_url)
    &&& feed.site_url is Some ==> site_address(feed.site_url->0) == feed.site_url
    &&& feed.folders.len() <= MAX_FOLDER_DEPTH
    &&& forall|i: int| 0 <= i < feed.folders.len() ==> is_settled_name(#[trigger] feed.folders[i])
}

/// Every subscription of a list is settled and lies inside `folders`, with at
/// most `levels` folders more.
pub open spec fn all_within(
    list: Seq<OpmlFeedView>,
    folders: Seq<Seq<char>>,
    levels: nat,
) -> bool {
    forall|i: int|
        0 <= i < list.len() ==> is_settled(#[trigger] list[i]) && list[i].folders.len()
            <= folders.len() + levels && list[i].folders.len() >= folders.len()
            && list[i].folders.take(folders.len() as int) == folders
}

/// The list with more subscriptions.
pub open spec fn extended(library: OpmlLibraryView, more: Seq<OpmlFeedView>) -> OpmlLibraryView {
    OpmlLibraryView { feeds: library.feeds + more, failures: library.failures }
}

/// The attribute at `i` is the one that a key names, and none before it is.
proof fn lemma_attribute_at(attributes: Seq<(Seq<char>, Seq<char>)>, i: int, k: int, key: Seq<char>)
    requires
        0 <= i <= k < attributes.len(),
        lower(attributes[k].0) == lower(key),
        forall|j: int| i <= j < k ==> lower((#[trigger] attributes[j]).0) != lower(key),
    ensures
        attribute_from(attributes, i, key) == Some(attributes[k].1),
    decreases k - i,
{
    if i < k {
        lemma_attribute_at(attributes, i + 1, k, key);
    }
}

/// No attribute is the one that a key names.
proof fn lemma_attribute_absent(attributes: Seq<(Seq<char>, Seq<char>)>, i: int, key: Seq<char>)
    requires
        0 <= i <= attributes.len(),
        forall|j: int| i <= j < attributes.len() ==> lower((#[trigger] attributes[j]).0) != lower(key),
    ensures
        attribute_from(attributes, i, key) is None,
    decreases attributes.len() - i,
{
    if i < attributes.len() {
        lemma_attribute_absent(attributes, i + 1, key);
    }
}

/// The names of attributes that are written, in small letters, are those that
/// are looked for, and they differ.
proof fn lemma_keys()
    ensures
        lower("xmlUrl"@) == lower("xmlurl"@),
        lower("htmlUrl"@) == lower("htmlurl"@),
        lower("customTitle"@) == lower("customtitle"@),
        lower("text"@).len() == 4,
        lower("title"@).len() == 5,
        lower("type"@).len() == 4,
        lower("xmlurl"@).len() == 6,
        lower("htmlurl"@).len() == 7,
        lower("customtitle"@).len() == 11,
        lower("text"@) != lower("type"@),
{
    reveal_strlit("xmlUrl");
    reveal_strlit("xmlurl");
    reveal_strlit("htmlUrl");
    reveal_strlit("htmlurl");
    reveal_strlit("customTitle");
    reveal_strlit("customtitle");
    reveal_strlit("text");
    reveal_strlit("title");
    reveal_strlit("type");
    assert(lower("xmlUrl"@) =~= lower("xmlurl"@));
    assert(lower("htmlUrl"@) =~= lower("htmlurl"@));
    assert(lower("customTitle"@) =~= lower("customtitle"@));
    assert(lower("text"@)[1] == 'e');
    assert(lower("type"@)[1] == 'y');
}

/// A subscription that is written is read again.
proof fn lemma_feed_row(feed: OpmlFeedView, depth: nat)
    requires
        is_settled(feed),
    ensures
        row_address(feed_row(feed, depth)) == Some(feed.feed_url),
        row_feed(feed_row(feed, depth), feed.feed_url, feed.folders) == feed,
{
    let row = feed_row(feed, depth);
    let list = row.attributes;
    lemma_keys();
    lemma_attribute_at(list, 0, 1, "title"@);
    lemma_attribute_at(list, 0, 2, "type"@);
    lemma_attribute_at(list, 0, 3, "xmlurl"@);
    match (feed.site_url, feed.custom_title) {
        (Some(site), Some(custom)) => {
            assert(list[4] == ("htmlUrl"@, site));
            assert(list[5] == ("customTitle"@, custom));
            lemma_attribute_at(list, 0, 4, "htmlurl"@);
            lemma_attribute_at(list, 0, 5, "customtitle"@);
        },
        (Some(site), None) => {
            assert(list[4] == ("htmlUrl"@, site));
            lemma_attribute_at(list, 0, 4, "htmlurl"@);
            lemma_attribute_absent(list, 0, "customtitle"@);
        },
        (None, Some(custom)) => {
            assert(list[4] == ("customTitle"@, custom));
            lemma_attribute_absent(list, 0, "htmlurl"@);
            lemma_attribute_at(list, 0, 4, "customtitle"@);
        },
        (None, None) => {
            lemma_attribute_absent(list, 0, "htmlurl"@);
            lemma_attribute_absent(list, 0, "customtitle"@);
        },
    }
    reveal_strlit("rss");
    reveal_strlit("atom");
    reveal_strlit("json");
    reveal_strlit("jsonfeed");
    assert(lower("rss"@) =~= "rss"@);
    assert(lower("atom"@) =~= "atom"@);
    assert(lower("json"@) =~= "json"@);
    assert("rss"@.len() == 3 && "atom"@.len() == 4 && "json"@.len() == 4 && "jsonfeed"@.len() == 8);
    assert("atom"@[0] == 'a' && "json"@[0] == 'j');
}

/// A folder that is written is read as one.
proof fn lemma_folder_row(name: Seq<char>, depth: nat, folders: Seq<Seq<char>>)
    requires
        is_settled_name(name),
    ensures
        row_address(folder_row(name, depth)) is None,
        !is_feed_kind(row_kind(folder_row(name, depth))),
        inner_folders(folder_row(name, depth), folders) == folders.push(name),
{
    let list = folder_row(name, depth).attributes;
    lemma_keys();
    lemma_attribute_at(list, 0, 1, "title"@);
    lemma_attribute_absent(list, 0, "xmlurl"@);
    lemma_attribute_absent(list, 0, "type"@);
    reveal_strlit("");
    reveal_strlit("rss");
    reveal_strlit("atom");
    reveal_strlit("feed");
    reveal_strlit("xml");
    reveal_strlit("json");
    assert(lower(""@).len() == 0);
}

/// Every element of a list lies at `depth` or deeper.
pub open spec fn all_deep(rows: Seq<RowView>, depth: nat) -> bool {
    forall|i: int| 0 <= i < rows.len() ==> (#[trigger] rows[i]).depth >= depth
}

proof fn lemma_deep_join(a: Seq<RowView>, b: Seq<RowView>, depth: nat)
    requires
        all_deep(a, depth),
        all_deep(b, depth),
    ensures
        all_deep(a + b, depth),
{
    assert forall|i: int| 0 <= i < (a + b).len() implies (#[trigger] (a + b)[i]).depth >= depth by {
        if i < a.len() {
            assert((a + b)[i] == a[i]);
        } else {
            assert((a + b)[i] == b[i - a.len()]);
        }
    }
}

/// What is written inside level `at` lies deeper than its parent.
proof fn lemma_rows_deep(list: Seq<OpmlFeedView>, at: nat, levels: nat)
    ensures
        all_deep(outline_rows(list, at, levels), at + 4),
    decreases levels, 1nat, 0nat,
{
    let first = feed_rows(lying_here(list, at as int), at + 4);
    assert(all_deep(first, at + 4));
    if levels > 0 {
        let names = folder_names(list, at as int);
        lemma_names_deep(list, names, at, levels);
        lemma_deep_join(first, folder_rows(list, names, at, levels), at + 4);
    } else {
        lemma_deep_join(first, Seq::empty(), at + 4);
    }
}

/// What is written for folders at level `at` lies deeper than their parent.
proof fn lemma_names_deep(list: Seq<OpmlFeedView>, names: Seq<Seq<char>>, at: nat, levels: nat)
    requires
        levels > 0,
    ensures
        all_deep(folder_rows(list, names, at, levels), at + 4),
    decreases levels, 0nat, names.len(),
{
    if names.len() > 0 {
        let name = names.last();
        let before = folder_rows(list, names.drop_last(), at, levels);
        let inside = outline_rows(lying_in(list, at as int, name), at + 1, (levels - 1) as nat);
        lemma_names_deep(list, names.drop_last(), at, levels);
        lemma_rows_deep(lying_in(list, at as int, name), at + 1, (levels - 1) as nat);
        lemma_deep_join(before, seq![folder_row(name, at + 4)], at + 4);
        lemma_deep_join(before + seq![folder_row(name, at + 4)], inside, at + 4);
    }
}

/// Elements deeper than the children of `p` are passed over.
proof fn lemma_pass_over(
    rows: Seq<RowView>,
    p: int,
    i: int,
    end: int,
    folders: Seq<Seq<char>>,
    library: OpmlLibraryView,
)
    requires
        0 <= p < i <= end <= rows.len(),
        forall|j: int| i <= j < end ==> (#[trigger] rows[j]).depth > rows[p].depth + 1,
    ensures
        with_outlines(rows, p, i, folders, library) == with_outlines(
            rows,
            p,
            end,
            folders,
            library,
        ),
    decreases end - i,
{
    if i < end {
        assert(rows[i].depth > rows[p].depth + 1);
        lemma_pass_over(rows, p, i + 1, end, folders, library);
    }
}

/// Reading the outlines that are written for subscriptions gives them back.
proof fn lemma_walk_feeds(
    rows: Seq<RowView>,
    p: int,
    i: int,
    list: Seq<OpmlFeedView>,
    folders: Seq<Seq<char>>,
    library: OpmlLibraryView,
)
    requires
        0 <= p < i,
        i + list.len() <= rows.len(),
        forall|j: int|
            0 <= j < list.len() ==> rows[i + j] == feed_row(
                #[trigger] list[j],
                rows[p].depth + 1,
            ) && is_settled(list[j]) && list[j].folders == folders,
        library.feeds.len() + list.len() <= MAX_OPML_FEEDS,
    ensures
        with_outlines(rows, p, i, folders, library) == with_outlines(
            rows,
            p,
            i + list.len(),
            folders,
            extended(library, list),
        ),
    decreases list.len(),
{
    if list.len() == 0 {
        assert(extended(library, list).feeds == library.feeds);
    } else {
        let feed = list[0];
        let rest = list.skip(1);
        let next = library.with_feed(feed);
        assert(rows[i + 0] == feed_row(list[0], rows[p].depth + 1));
        lemma_feed_row(feed, rows[p].depth + 1);
        assert(with_outline(rows, i, folders, library) == Ok::<_, CoreErrorView>(next));
        assert forall|j: int| 0 <= j < rest.len() implies rows[i + 1 + j] == feed_row(
            #[trigger] rest[j],
            rows[p].depth + 1,
        ) && is_settled(rest[j]) && rest[j].folders == folders by {
            assert(rest[j] == list[j + 1]);
            assert(rows[i + (j + 1)] == feed_row(list[j + 1], rows[p].depth + 1));
        }
        lemma_walk_feeds(rows, p, i + 1, rest, folders, next);
        assert(next.feeds + rest == library.feeds + list);
    }
}

/// The subscriptions in a folder lie inside it.
proof fn lemma_lying_in(
    list: Seq<OpmlFeedView>,
    name: Seq<char>,
    folders: Seq<Seq<char>>,
    levels: nat,
)
    requires
        all_within(list, folders, levels),
        levels > 0,
    ensures
        all_within(
            lying_in(list, folders.len() as int, name),
            folders.push(name),
            (levels - 1) as nat,
        ),
    decreases list.len(),
{
    let at = folders.len() as int;
    if list.len() > 0 {
        let shorter = list.drop_last();
        assert(all_within(shorter, folders, levels)) by {
            assert forall|i: int| 0 <= i < shorter.len() implies is_settled(#[trigger] shorter[i])
                && shorter[i].folders.len() <= folders.len() + levels && shorter[i].folders.len()
                >= folders.len() && shorter[i].folders.take(at) == folders by {
                assert(shorter[i] == list[i]);
            }
        }
        lemma_lying_in(shorter, name, folders, levels);
        let feed = list[list.len() - 1];
        assert(feed == list.last());
        if feed.folders.len() > at && feed.folders[at] == name {
            assert(feed.folders.take(at + 1) == folders.push(name)) by {
                assert(feed.folders.take(at + 1) == feed.folders.take(at).push(feed.folders[at]));
            }
            let before = lying_in(shorter, at, name);
            let all = lying_in(list, at, name);
            assert(all == before.push(feed));
            assert forall|i: int| 0 <= i < all.len() implies is_settled(#[trigger] all[i])
                && all[i].folders.len() <= folders.push(name).len() + (levels - 1)
                && all[i].folders.len() >= folders.push(name).len() && all[i].folders.take(
                folders.push(name).len() as int,
            ) == folders.push(name) by {
                if i < before.len() {
                    assert(all[i] == before[i]);
                } else {
                    assert(all[i] == feed);
                }
            }
        }
    }
}

/// The subscriptions that lie here have no folders but those round them.
proof fn lemma_lying_here(list: Seq<OpmlFeedView>, folders: Seq<Seq<char>>, levels: nat)
    requires
        all_within(list, folders, levels),
    ensures
        forall|i: int|
            0 <= i < lying_here(list, folders.len() as int).len() ==> is_settled(
                #[trigger] lying_here(list, folders.len() as int)[i],
            ) && lying_here(list, folders.len() as int)[i].folders == folders,
    decreases list.len(),
{
    let at = folders.len() as int;
    if list.len() > 0 {
        let shorter = list.drop_last();
        assert(all_within(shorter, folders, levels)) by {
            assert forall|i: int| 0 <= i < shorter.len() implies is_settled(#[trigger] shorter[i])
                && shorter[i].folders.len() <= folders.len() + levels && shorter[i].folders.len()
                >= folders.len() && shorter[i].folders.take(at) == folders by {
                assert(shorter[i] == list[i]);
            }
        }
        lemma_lying_here(shorter, folders, levels);
        let feed = list[list.len() - 1];
        if feed.folders.len() <= at {
            assert(feed.folders.take(at) == feed.folders);
        }
    }
}

/// A name among the folders of a list is the folder of one of its
/// subscriptions, so that the folder is not empty, and it is settled.
proof fn lemma_folder_names(list: Seq<OpmlFeedView>, at: int)
    requires
        at >= 0,
        forall|i: int| 0 <= i < list.len() ==> is_settled(#[trigger] list[i]),
    ensures
        forall|k: int|
            0 <= k < folder_names(list, at).len() ==> lying_in(
                list,
                at,
                #[trigger] folder_names(list, at)[k],
            ).len() > 0 && is_settled_name(folder_names(list, at)[k]),
    decreases list.len(),
{
    if list.len() > 0 {
        let shorter = list.drop_last();
        assert(forall|i: int| 0 <= i < shorter.len() ==> shorter[i] == list[i]);
        lemma_folder_names(shorter, at);
        let feed = list[list.len() - 1];
        assert(is_settled(feed));
        let before = folder_names(shorter, at);
        let all = folder_names(list, at);
        if feed.folders.len() > at {
            let name = feed.folders[at];
            assert(is_settled_name(name));
            lemma_name_place(before, name);
            let place = name_place(before, name);
            assert forall|k: int| 0 <= k < all.len() implies lying_in(
                list,
                at,
                #[trigger] all[k],
            ).len() > 0 && is_settled_name(all[k]) by {
                if !before.contains(name) {
                    if k < place {
                        assert(all[k] == before[k]);
                    } else if k == place {
                        assert(all[k] == name);
                    } else {
                        assert(all[k] == before[k - 1]);
                    }
                } else {
                    assert(all[k] == before[k]);
                }
            }
        } else {
            assert(all == before);
            assert forall|k: int| 0 <= k < all.len() implies lying_in(
                list,
                at,
                #[trigger] all[k],
            ).len() > 0 && is_settled_name(all[k]) by {
                assert(all[k] == before[k]);
            }
        }
    }
}

/// No subscription is lost where a list is regrouped.
proof fn lemma_regrouped_not_empty(list: Seq<OpmlFeedView>, at: nat, levels: nat)
    requires
        list.len() > 0,
        forall|i: int|
            0 <= i < list.len() ==> (#[trigger] list[i]).folders.len() <= at + levels,
    ensures
        regrouped(list, at, levels).len() > 0,
{
    lemma_regrouped_count(list, at, levels, list[0]);
    let all = regrouped(list, at, levels);
    assert(list.contains(list[0]));
    list.to_multiset_ensures();
    all.to_multiset_ensures();
    assert(list.to_multiset().count(list[0]) > 0);
    assert(all.contains(list[0]));
}

/// How often a subscription stands in the part of a list that lies here.
proof fn lemma_here_count(list: Seq<OpmlFeedView>, at: int, feed: OpmlFeedView)
    ensures
        lying_here(list, at).to_multiset().count(feed) == if feed.folders.len() <= at {
            list.to_multiset().count(feed)
        } else {
            0
        },
    decreases list.len(),
{
    broadcast use vstd::seq_lib::group_to_multiset_ensures;

    if list.len() > 0 {
        lemma_here_count(list.drop_last(), at, feed);
        assert(list == list.drop_last().push(list.last()));
    }
}

/// How often a subscription stands in a folder of a list.
proof fn lemma_in_count(list: Seq<OpmlFeedView>, at: int, name: Seq<char>, feed: OpmlFeedView)
    ensures
        lying_in(list, at, name).to_multiset().count(feed) == if feed.folders.len() > at
            && feed.folders[at] == name {
            list.to_multiset().count(feed)
        } else {
            0
        },
    decreases list.len(),
{
    broadcast use vstd::seq_lib::group_to_multiset_ensures;

    if list.len() > 0 {
        lemma_in_count(list.drop_last(), at, name, feed);
        assert(list == list.drop_last().push(list.last()));
    }
}

/// The folders of a list are named once each, and all of them are named.
proof fn lemma_names_once(list: Seq<OpmlFeedView>, at: int)
    requires
        at >= 0,
    ensures
        folder_names(list, at).no_duplicates(),
        forall|i: int|
            0 <= i < list.len() && (#[trigger] list[i]).folders.len() > at ==> folder_names(
                list,
                at,
            ).contains(list[i].folders[at]),
    decreases list.len(),
{
    if list.len() > 0 {
        let shorter = list.drop_last();
        lemma_names_once(shorter, at);
        let feed = list.last();
        let before = folder_names(shorter, at);
        let all = folder_names(list, at);
        if feed.folders.len() > at && !before.contains(feed.folders[at]) {
            let name = feed.folders[at];
            lemma_name_place(before, name);
            let place = name_place(before, name);
            assert(all == before.insert(place, name));
            assert forall|k: int| 0 <= k < before.len() implies all.contains(
                #[trigger] before[k],
            ) by {
                if k < place {
                    assert(all[k] == before[k]);
                } else {
                    assert(all[k + 1] == before[k]);
                }
            }
            assert(all[place] == name);
            assert forall|i: int, j: int|
                0 <= i < all.len() && 0 <= j < all.len() && i != j implies all[i] != all[j] by {
                let x = if i < place {
                    i
                } else {
                    i - 1
                };
                let y = if j < place {
                    j
                } else {
                    j - 1
                };
                if i != place && j != place {
                    assert(all[i] == before[x] && all[j] == before[y]);
                } else if i != place {
                    assert(all[i] == before[x]);
                    assert(before.contains(before[x]));
                } else {
                    assert(all[j] == before[y]);
                    assert(before.contains(before[y]));
                }
            }
        }
        assert forall|i: int|
            0 <= i < list.len() && (#[trigger] list[i]).folders.len() > at implies all.contains(
            list[i].folders[at],
        ) by {
            if i < shorter.len() {
                assert(shorter[i] == list[i]);
                assert(before.contains(shorter[i].folders[at]));
                let k = choose|k: int| 0 <= k < before.len() && before[k] == list[i].folders[at];
                assert(all.contains(before[k])) by {
                    if all == before {
                        assert(all[k] == before[k]);
                    }
                }
            }
        }
    }
}

/// How often a subscription stands in a list that is regrouped.
proof fn lemma_regrouped_count(
    list: Seq<OpmlFeedView>,
    at: nat,
    levels: nat,
    feed: OpmlFeedView,
)
    requires
        forall|i: int|
            0 <= i < list.len() ==> (#[trigger] list[i]).folders.len() <= at + levels,
    ensures
        regrouped(list, at, levels).to_multiset().count(feed) == list.to_multiset().count(feed),
    decreases levels, 1nat, 0nat,
{
    broadcast use vstd::seq_lib::group_to_multiset_ensures;

    let here = lying_here(list, at as int);
    lemma_here_count(list, at as int, feed);
    list.to_multiset_ensures();
    if list.to_multiset().count(feed) > 0 {
        assert(list.contains(feed));
        let i = choose|i: int| 0 <= i < list.len() && list[i] == feed;
        assert(list[i].folders.len() <= at + levels);
    }
    if levels > 0 {
        let names = folder_names(list, at as int);
        lemma_names_once(list, at as int);
        lemma_folders_count(list, names, at, levels, feed);
        vstd::seq_lib::lemma_multiset_commutative(
            here,
            regrouped_folders(list, names, at, levels),
        );
        if feed.folders.len() > at && list.to_multiset().count(feed) > 0 {
            let i = choose|i: int| 0 <= i < list.len() && list[i] == feed;
            assert(names.contains(list[i].folders[at as int]));
        }
    } else {
        assert(regrouped(list, at, levels) == here);
    }
}

/// How often a subscription stands in some of the folders of a list.
proof fn lemma_folders_count(
    list: Seq<OpmlFeedView>,
    names: Seq<Seq<char>>,
    at: nat,
    levels: nat,
    feed: OpmlFeedView,
)
    requires
        levels > 0,
        names.no_duplicates(),
        forall|i: int|
            0 <= i < list.len() ==> (#[trigger] list[i]).folders.len() <= at + levels,
    ensures
        regrouped_folders(list, names, at, levels).to_multiset().count(feed) == if feed.folders.len()
            > at && names.contains(feed.folders[at as int]) {
            list.to_multiset().count(feed)
        } else {
            0
        },
    decreases levels, 0nat, names.len(),
{
    broadcast use vstd::seq_lib::group_to_multiset_ensures;

    if names.len() > 0 {
        let name = names.last();
        let shorter = names.drop_last();
        let inside = lying_in(list, at as int, name);
        lemma_folders_count(list, shorter, at, levels, feed);
        assert forall|i: int| 0 <= i < inside.len() implies (#[trigger] inside[i]).folders.len()
            <= (at + 1) + (levels - 1) by {
            lemma_in_member(list, at as int, name, i);
        }
        lemma_regrouped_count(inside, at + 1, (levels - 1) as nat, feed);
        lemma_in_count(list, at as int, name, feed);
        vstd::seq_lib::lemma_multiset_commutative(
            regrouped_folders(list, shorter, at, levels),
            regrouped(inside, at + 1, (levels - 1) as nat),
        );
        if feed.folders.len() > at {
            let wanted = feed.folders[at as int];
            assert(names == shorter.push(name));
            if shorter.contains(wanted) {
                let k = choose|k: int| 0 <= k < shorter.len() && shorter[k] == wanted;
                assert(names[k] == wanted);
                assert(names[names.len() - 1] == name);
                assert(name != wanted);
            } else if name == wanted {
                assert(names[names.len() - 1] == wanted);
            } else if names.contains(wanted) {
                let k = choose|k: int| 0 <= k < names.len() && names[k] == wanted;
                assert(k < shorter.len());
                assert(shorter[k] == wanted);
            }
        }
    }
}

/// What lies in a folder of a list is in the list.
proof fn lemma_in_member(list: Seq<OpmlFeedView>, at: int, name: Seq<char>, i: int)
    requires
        0 <= i < lying_in(list, at, name).len(),
    ensures
        exists|k: int| 0 <= k < list.len() && #[trigger] list[k] == lying_in(list, at, name)[i],
    decreases list.len(),
{
    if list.len() > 0 {
        let shorter = list.drop_last();
        let before = lying_in(shorter, at, name);
        if i < before.len() {
            lemma_in_member(shorter, at, name, i);
            let k = choose|k: int| 0 <= k < shorter.len() && #[trigger] shorter[k] == before[i];
            assert(list[k] == shorter[k]);
        } else {
            assert(list[list.len() - 1] == list.last());
        }
    }
}

/// Reading the outlines that are written for a list gives it back, regrouped.
proof fn lemma_walk(
    rows: Seq<RowView>,
    p: int,
    i: int,
    list: Seq<OpmlFeedView>,
    levels: nat,
    folders: Seq<Seq<char>>,
    library: OpmlLibraryView,
)
    requires
        0 <= p < i,
        rows[p].depth == folders.len() + 3,
        i + outline_rows(list, folders.len(), levels).len() <= rows.len(),
        rows.subrange(i, i + outline_rows(list, folders.len(), levels).len()) == outline_rows(
            list,
            folders.len(),
            levels,
        ),
        i + outline_rows(list, folders.len(), levels).len() == rows.len() || rows[i + outline_rows(
            list,
            folders.len(),
            levels,
        ).len()].depth <= folders.len() + 3,
        all_within(list, folders, levels),
        library.feeds.len() + regrouped(list, folders.len(), levels).len() <= MAX_OPML_FEEDS,
    ensures
        with_outlines(rows, p, i, folders, library) == Ok::<_, CoreErrorView>(
            extended(library, regrouped(list, folders.len(), levels)),
        ),
    decreases levels, 1nat, 0nat,
{
    let at = folders.len();
    let here = lying_here(list, at as int);
    let drawn = outline_rows(list, at, levels);
    let first = feed_rows(here, at + 4);
    lemma_lying_here(list, folders, levels);
    assert forall|j: int| 0 <= j < here.len() implies rows[i + j] == feed_row(
        #[trigger] here[j],
        rows[p].depth + 1,
    ) && is_settled(here[j]) && here[j].folders == folders by {
        assert(rows.subrange(i, i + drawn.len())[j] == rows[i + j]);
        assert(drawn[j] == first[j]);
    }
    lemma_walk_feeds(rows, p, i, here, folders, library);
    let next = extended(library, here);
    let end = i + drawn.len();
    if levels == 0 {
        assert(drawn == first);
        assert(regrouped(list, at, levels) == here);
    } else {
        let names = folder_names(list, at as int);
        let rest = folder_rows(list, names, at, levels);
        let more = regrouped_folders(list, names, at, levels);
        let from = i + here.len();
        assert(drawn == first + rest);
        assert(rows.subrange(from, from + rest.len()) == rest) by {
            assert forall|j: int| 0 <= j < rest.len() implies rows[from + j] == rest[j] by {
                assert(rows.subrange(i, end)[here.len() + j] == rows[i + (here.len() + j)]);
                assert(drawn[here.len() + j] == rest[j]);
            }
        }
        lemma_folder_names(list, at as int);
        lemma_walk_folders(rows, p, from, list, names, levels, folders, next);
        assert(next.feeds + more == library.feeds + (here + more));
    }
}

/// Reading the outlines that are written for some of the folders of a list
/// gives back what lies in them.
proof fn lemma_walk_folders(
    rows: Seq<RowView>,
    p: int,
    i: int,
    list: Seq<OpmlFeedView>,
    names: Seq<Seq<char>>,
    levels: nat,
    folders: Seq<Seq<char>>,
    library: OpmlLibraryView,
)
    requires
        0 <= p < i,
        levels > 0,
        rows[p].depth == folders.len() + 3,
        i + folder_rows(list, names, folders.len(), levels).len() <= rows.len(),
        rows.subrange(i, i + folder_rows(list, names, folders.len(), levels).len()) == folder_rows(
            list,
            names,
            folders.len(),
            levels,
        ),
        i + folder_rows(list, names, folders.len(), levels).len() == rows.len() || rows[i
            + folder_rows(list, names, folders.len(), levels).len()].depth <= folders.len() + 4,
        all_within(list, folders, levels),
        forall|k: int|
            0 <= k < names.len() ==> lying_in(
                list,
                folders.len() as int,
                #[trigger] names[k],
            ).len() > 0 && is_settled_name(names[k]),
        library.feeds.len() + regrouped_folders(list, names, folders.len(), levels).len()
            <= MAX_OPML_FEEDS,
    ensures
        with_outlines(rows, p, i, folders, library) == with_outlines(
            rows,
            p,
            i + folder_rows(list, names, folders.len(), levels).len(),
            folders,
            extended(library, regrouped_folders(list, names, folders.len(), levels)),
        ),
    decreases levels, 0nat, names.len(),
{
    let at = folders.len();
    if names.len() == 0 {
        assert(extended(library, Seq::empty()).feeds == library.feeds);
    } else {
        let name = names[names.len() - 1];
        let shorter = names.drop_last();
        let before = folder_rows(list, shorter, at, levels);
        let inside = lying_in(list, at as int, name);
        let drawn = outline_rows(inside, at + 1, (levels - 1) as nat);
        let whole = folder_rows(list, names, at, levels);
        let row = folder_row(name, at + 4);
        assert(name == names.last());
        assert(whole == before + seq![row] + drawn);
        let k = i + before.len();
        let end = i + whole.len();
        assert(end == k + 1 + drawn.len());
        assert forall|j: int| 0 <= j < whole.len() implies rows[i + j] == whole[j] by {
            assert(rows.subrange(i, end)[j] == rows[i + j]);
        }
        assert(rows.subrange(i, k) == before) by {
            assert forall|j: int| 0 <= j < before.len() implies rows[i + j] == before[j] by {
                assert(whole[j] == before[j]);
            }
        }
        assert(rows[k] == row) by {
            assert(rows[i + before.len()] == whole[before.len() as int]);
        }
        assert(rows.subrange(k + 1, end) == drawn) by {
            assert forall|j: int| 0 <= j < drawn.len() implies rows[k + 1 + j] == drawn[j] by {
                assert(whole[before.len() + 1 + j] == drawn[j]);
                assert(rows[i + (before.len() + 1 + j)] == whole[before.len() + 1 + j]);
            }
        }
        assert forall|m: int| 0 <= m < shorter.len() implies lying_in(
            list,
            at as int,
            #[trigger] shorter[m],
        ).len() > 0 && is_settled_name(shorter[m]) by {
            assert(shorter[m] == names[m]);
        }
        let first = regrouped_folders(list, shorter, at, levels);
        let second = regrouped(inside, at + 1, (levels - 1) as nat);
        lemma_walk_folders(rows, p, i, list, shorter, levels, folders, library);
        let next = extended(library, first);
        lemma_lying_in(list, name, folders, levels);
        assert forall|m: int| 0 <= m < inside.len() implies (#[trigger] inside[m]).folders.len()
            <= (at + 1) + (levels - 1) by {
            assert(is_settled(inside[m]));
        }
        lemma_regrouped_not_empty(inside, at + 1, (levels - 1) as nat);
        lemma_folder_row(name, at + 4, folders);
        let inner = folders.push(name);
        assert(folders.len() <= MAX_FOLDER_DEPTH) by {
            assert(is_settled(inside[0]));
        }
        lemma_walk(rows, k, k + 1, inside, (levels - 1) as nat, inner, next);
        let last = extended(next, second);
        assert(with_outline(rows, k, folders, next) == Ok::<_, CoreErrorView>(last));
        assert(with_outlines(rows, p, k, folders, next) == with_outlines(
            rows,
            p,
            k + 1,
            folders,
            last,
        ));
        lemma_rows_deep(inside, at + 1, (levels - 1) as nat);
        assert forall|j: int| k + 1 <= j < end implies (#[trigger] rows[j]).depth > rows[p].depth
            + 1 by {
            assert(rows[j] == drawn[j - (k + 1)]) by {
                assert(rows.subrange(k + 1, end)[j - (k + 1)] == rows[j]);
            }
        }
        lemma_pass_over(rows, p, k + 1, end, folders, last);
        assert(last.feeds == library.feeds + (first + second));
    }
}

/// Putting subscriptions in order loses none and adds none.
proof fn lemma_in_order_same(list: Seq<OpmlFeedView>)
    ensures
        in_order(list).to_multiset() == list.to_multiset(),
        in_order(list).len() == list.len(),
    decreases list.len(),
{
    broadcast use vstd::seq_lib::group_to_multiset_ensures;

    if list.len() > 0 {
        let before = in_order(list.drop_last());
        let feed = list.last();
        lemma_in_order_same(list.drop_last());
        lemma_feed_place(before, feed);
        let all = before.insert(feed_place(before, feed), feed);
        assert(all.remove(feed_place(before, feed)) == before);
        all.to_multiset_ensures();
        assert(all.to_multiset().remove(feed) == before.to_multiset());
        assert(all[feed_place(before, feed)] == feed);
        assert(all.contains(feed));
        assert(all.to_multiset() == before.to_multiset().insert(feed));
        assert(list == list.drop_last().push(feed));
    }
}

/// No subscription of a list has more folders round it than the deepest.
proof fn lemma_deepest(list: Seq<OpmlFeedView>)
    ensures
        forall|i: int| 0 <= i < list.len() ==> (#[trigger] list[i]).folders.len() <= deepest(list),
    decreases list.len(),
{
    if list.len() > 0 {
        let shorter = list.drop_last();
        lemma_deepest(shorter);
        assert forall|i: int| 0 <= i < list.len() implies (#[trigger] list[i]).folders.len()
            <= deepest(list) by {
            if i < shorter.len() {
                assert(list[i] == shorter[i]);
            }
        }
    }
}

/// The order in which subscriptions are written: by address, and those with one
/// address as they were.
pub proof fn law_written_in_order(list: Seq<OpmlFeedView>)
    ensures
        forall|i: int, j: int|
            0 <= i < j < in_order(list).len() ==> !text_before(
                (#[trigger] in_order(list)[j]).feed_url,
                (#[trigger] in_order(list)[i]).feed_url,
            ),
        in_order(list).to_multiset() == list.to_multiset(),
    decreases list.len(),
{
    lemma_in_order_same(list);
    if list.len() > 0 {
        let before = in_order(list.drop_last());
        let feed = list.last();
        let all = in_order(list);
        law_written_in_order(list.drop_last());
        lemma_feed_place(before, feed);
        lemma_place_parts(before, feed);
        let place = feed_place(before, feed);
        assert forall|i: int, j: int| 0 <= i < j < all.len() implies !text_before(
            (#[trigger] all[j]).feed_url,
            (#[trigger] all[i]).feed_url,
        ) by {
            let x = if i < place {
                i
            } else {
                i - 1
            };
            let y = if j < place {
                j
            } else {
                j - 1
            };
            if i != place && j != place {
                assert(all[i] == before[x] && all[j] == before[y]);
            } else if i == place {
                assert(all[j] == before[y] && all[i] == feed);
                lemma_order(encode_utf8(before[y].feed_url), encode_utf8(feed.feed_url));
            } else {
                assert(all[i] == before[x] && all[j] == feed);
            }
        }
    }
}

/// The place of a subscription parts a list that is in order: those before it
/// do not come after it, and those behind it do.
proof fn lemma_place_parts(list: Seq<OpmlFeedView>, feed: OpmlFeedView)
    requires
        forall|i: int, j: int|
            0 <= i < j < list.len() ==> !text_before(
                (#[trigger] list[j]).feed_url,
                (#[trigger] list[i]).feed_url,
            ),
    ensures
        forall|i: int|
            0 <= i < feed_place(list, feed) ==> !text_before(
                feed.feed_url,
                (#[trigger] list[i]).feed_url,
            ),
        forall|i: int|
            feed_place(list, feed) <= i < list.len() ==> text_before(
                feed.feed_url,
                (#[trigger] list[i]).feed_url,
            ),
    decreases list.len(),
{
    lemma_feed_place(list, feed);
    if list.len() > 0 {
        let last = list[list.len() - 1];
        if text_before(feed.feed_url, last.feed_url) {
            let shorter = list.drop_last();
            assert(forall|i: int| 0 <= i < shorter.len() ==> shorter[i] == list[i]);
            lemma_place_parts(shorter, feed);
            lemma_feed_place(shorter, feed);
            assert forall|i: int| 0 <= i < feed_place(list, feed) implies !text_before(
                feed.feed_url,
                (#[trigger] list[i]).feed_url,
            ) by {
                assert(shorter[i] == list[i]);
            }
            assert forall|i: int| feed_place(list, feed) <= i < list.len() implies text_before(
                feed.feed_url,
                (#[trigger] list[i]).feed_url,
            ) by {
                if i < shorter.len() {
                    assert(shorter[i] == list[i]);
                }
            }
        } else {
            assert forall|i: int| 0 <= i < list.len() implies !text_before(
                feed.feed_url,
                (#[trigger] list[i]).feed_url,
            ) by {
                if i < list.len() - 1 {
                    assert(!text_before(list[list.len() - 1].feed_url, list[i].feed_url));
                    lemma_not_before(
                        encode_utf8(list[i].feed_url),
                        encode_utf8(last.feed_url),
                        encode_utf8(feed.feed_url),
                    );
                }
            }
        }
    }
}

/// No two subscriptions of a list have one address.
pub open spec fn addresses_differ(list: Seq<OpmlFeedView>) -> bool {
    forall|i: int, j: int|
        0 <= i < j < list.len() ==> (#[trigger] list[i]).feed_url != (#[trigger] list[j]).feed_url
}

/// Lists with the same subscriptions, in order and with different addresses, are
/// one list.
proof fn lemma_one_order(a: Seq<OpmlFeedView>, b: Seq<OpmlFeedView>)
    requires
        a.to_multiset() == b.to_multiset(),
        addresses_differ(a),
        addresses_differ(b),
        forall|i: int, j: int|
            0 <= i < j < a.len() ==> !text_before(
                (#[trigger] a[j]).feed_url,
                (#[trigger] a[i]).feed_url,
            ),
        forall|i: int, j: int|
            0 <= i < j < b.len() ==> !text_before(
                (#[trigger] b[j]).feed_url,
                (#[trigger] b[i]).feed_url,
            ),
    ensures
        a == b,
    decreases a.len(),
{
    a.to_multiset_ensures();
    b.to_multiset_ensures();
    assert(a.len() == b.len());
    if a.len() > 0 {
        let end = a.len() - 1;
        let x = a[end];
        let y = b[end];
        assert(x == y) by {
            assert(a.contains(x) && b.contains(y));
            assert(b.to_multiset().count(x) > 0 && a.to_multiset().count(y) > 0);
            assert(b.contains(x) && a.contains(y));
            let j = choose|j: int| 0 <= j < b.len() && b[j] == x;
            let k = choose|k: int| 0 <= k < a.len() && a[k] == y;
            if j != end && k != end {
                assert(!text_before(b[end].feed_url, b[j].feed_url));
                assert(!text_before(a[end].feed_url, a[k].feed_url));
                lemma_order(encode_utf8(x.feed_url), encode_utf8(y.feed_url));
                vstd::utf8::encode_utf8_decode_utf8(x.feed_url);
                vstd::utf8::encode_utf8_decode_utf8(y.feed_url);
                assert(b[j].feed_url == b[end].feed_url);
            }
        }
        let p = a.drop_last();
        let q = b.drop_last();
        assert(a == p.push(x) && b == q.push(x));
        assert(p.to_multiset() == q.to_multiset()) by {
            p.to_multiset_ensures();
            q.to_multiset_ensures();
            assert(p.to_multiset() == a.to_multiset().remove(x));
            assert(q.to_multiset() == b.to_multiset().remove(x));
        }
        assert forall|i: int, j: int| 0 <= i < j < p.len() implies (#[trigger] p[i]).feed_url != (
        #[trigger] p[j]).feed_url && !text_before(p[j].feed_url, p[i].feed_url) by {
            assert(p[i] == a[i] && p[j] == a[j]);
        }
        assert forall|i: int, j: int| 0 <= i < j < q.len() implies (#[trigger] q[i]).feed_url != (
        #[trigger] q[j]).feed_url && !text_before(q[j].feed_url, q[i].feed_url) by {
            assert(q[i] == b[i] && q[j] == b[j]);
        }
        lemma_one_order(p, q);
    }
}

/// A list in another order with different addresses has different addresses.
proof fn lemma_addresses_differ(a: Seq<OpmlFeedView>, b: Seq<OpmlFeedView>)
    requires
        a.to_multiset() == b.to_multiset(),
        addresses_differ(a),
    ensures
        addresses_differ(b),
{
    broadcast use vstd::seq_lib::group_to_multiset_ensures;

    assert forall|i: int, j: int| 0 <= i < j < b.len() implies (#[trigger] b[i]).feed_url != (
    #[trigger] b[j]).feed_url by {
        let x = b[i];
        let y = b[j];
        assert(b.contains(x) && b.contains(y));
        assert(a.to_multiset().count(x) > 0 && a.to_multiset().count(y) > 0);
        assert(a.contains(x) && a.contains(y));
        let k = choose|k: int| 0 <= k < a.len() && a[k] == x;
        let m = choose|m: int| 0 <= m < a.len() && a[m] == y;
        if x == y {
            lemma_twice(b, i, j);
            lemma_once(a, k);
        } else {
            assert(k != m);
            if k < m {
                assert(a[k].feed_url != a[m].feed_url);
            } else {
                assert(a[m].feed_url != a[k].feed_url);
            }
        }
    }
}

/// What stands at two places of a list is in it twice.
proof fn lemma_twice(list: Seq<OpmlFeedView>, i: int, j: int)
    requires
        0 <= i < j < list.len(),
        list[i] == list[j],
    ensures
        list.to_multiset().count(list[i]) >= 2,
{
    let feed = list[i];
    let less = list.remove(j);
    list.to_multiset_ensures();
    less.to_multiset_ensures();
    assert(less[i] == feed);
    assert(less.contains(feed));
    assert(less.to_multiset().count(feed) > 0);
    assert(list.contains(feed));
    assert(list.to_multiset().remove(feed) == less.to_multiset());
}

/// In a list with different addresses nothing stands twice.
proof fn lemma_once(list: Seq<OpmlFeedView>, i: int)
    requires
        addresses_differ(list),
        0 <= i < list.len(),
    ensures
        list.to_multiset().count(list[i]) == 1,
{
    let feed = list[i];
    let less = list.remove(i);
    list.to_multiset_ensures();
    less.to_multiset_ensures();
    assert(list.contains(feed));
    assert(list.to_multiset().remove(feed) == less.to_multiset());
    if less.to_multiset().count(feed) > 0 {
        assert(less.contains(feed));
        let k = choose|k: int| 0 <= k < less.len() && less[k] == feed;
        if k < i {
            assert(list[k].feed_url != list[i].feed_url);
        } else {
            assert(less[k] == list[k + 1]);
            assert(list[i].feed_url != list[k + 1].feed_url);
        }
    }
}

/// The order of the subscriptions does not show in writing: two orders of one
/// list, with different addresses, are written alike, whatever messages belong
/// to them.
pub proof fn law_order_does_not_show(
    a: OpmlLibraryView,
    b: OpmlLibraryView,
    created: Seq<char>,
)
    requires
        a.feeds.to_multiset() == b.feeds.to_multiset(),
        addresses_differ(a.feeds),
    ensures
        exported(a, created) == exported(b, created),
{
    law_written_in_order(a.feeds);
    law_written_in_order(b.feeds);
    lemma_addresses_differ(a.feeds, in_order(a.feeds));
    lemma_addresses_differ(a.feeds, in_order(b.feeds));
    lemma_one_order(in_order(a.feeds), in_order(b.feeds));
}

/// Reading the document that is written for a list gives the list back: the
/// same subscriptions with titles, addresses, formats and folders, and no
/// message. It speaks of lists as reading gives them, with at least one
/// subscription and within the limits.
pub proof fn law_import_gives_back_export(library: OpmlLibraryView)
    requires
        0 < library.feeds.len() <= MAX_OPML_FEEDS,
        forall|i: int| 0 <= i < library.feeds.len() ==> is_settled(#[trigger] library.feeds[i]),
    ensures
        match imported_rows(document_rows(library)) {
            Ok(read) => read.feeds.to_multiset() == library.feeds.to_multiset()
                && read.failures.len() == 0,
            Err(_) => false,
        },
{
    let feeds = in_order(library.feeds);
    let levels = deepest(feeds);
    let rows = document_rows(library);
    let drawn = outline_rows(feeds, 0, levels);
    let none = Seq::<Seq<char>>::empty();
    lemma_in_order_same(library.feeds);
    lemma_deepest(feeds);
    assert(all_within(feeds, none, levels)) by {
        assert forall|i: int| 0 <= i < feeds.len() implies is_settled(#[trigger] feeds[i])
            && feeds[i].folders.len() <= none.len() + levels && feeds[i].folders.len() >= none.len()
            && feeds[i].folders.take(none.len() as int) == none by {
            assert(feeds.contains(feeds[i]));
            feeds.to_multiset_ensures();
            library.feeds.to_multiset_ensures();
            assert(library.feeds.to_multiset().count(feeds[i]) > 0);
            assert(library.feeds.contains(feeds[i]));
            assert(feeds[i].folders.take(0) == none);
        }
    }
    assert forall|feed: OpmlFeedView|
        regrouped(feeds, 0, levels).to_multiset().count(feed) == feeds.to_multiset().count(feed) by {
        lemma_regrouped_count(feeds, 0, levels, feed);
    }
    assert(regrouped(feeds, 0, levels).to_multiset() =~= feeds.to_multiset());
    regrouped(feeds, 0, levels).to_multiset_ensures();
    feeds.to_multiset_ensures();
    library.feeds.to_multiset_ensures();
    assert(regrouped(feeds, 0, levels).len() == library.feeds.len());
    reveal_strlit("opml");
    reveal_strlit("head");
    reveal_strlit("title");
    reveal_strlit("dateCreated");
    reveal_strlit("body");
    assert(lower("body"@)[0] == 'b');
    assert(lower("head"@)[0] == 'h');
    assert(lower("opml"@)[0] == 'o');
    assert(lower("title"@).len() == 5);
    assert(lower("dateCreated"@).len() == 11);
    assert(lower("body"@).len() == 4);
    assert(rows[0].name == "opml"@ && rows[1].name == "head"@ && rows[2].name == "title"@
        && rows[3].name == "dateCreated"@ && rows[4].name == "body"@);
    reveal_with_fuel(first_called, 6);
    assert(first_called(rows, 0, "body"@) == Some(4int));
    assert(rows.subrange(5, 5int + drawn.len()) == drawn);
    lemma_walk(rows, 4, 5, feeds, levels, none, OpmlLibraryView::empty());
    let read = extended(OpmlLibraryView::empty(), regrouped(feeds, 0, levels));
    assert(read.feeds == regrouped(feeds, 0, levels));
}

/// A subscription whose texts can stand in a document as they are.
pub open spec fn is_writable(feed: OpmlFeedView) -> bool {
    &&& is_clean(feed.title)
    &&& is_clean(feed.feed_url)
    &&& feed.site_url is Some ==> is_clean(feed.site_url->0)
    &&& feed.custom_title is Some ==> is_clean(feed.custom_title->0)
    &&& forall|i: int| 0 <= i < feed.folders.len() ==> is_clean(#[trigger] feed.folders[i])
}

/// Every subscription of a list is writable.
pub open spec fn all_writable(list: Seq<OpmlFeedView>) -> bool {
    forall|i: int| 0 <= i < list.len() ==> is_writable(#[trigger] list[i])
}

/// The names that are written are plain.
proof fn lemma_plain_names()
    ensures
        is_plain_name("opml"@),
        is_plain_name("head"@),
        is_plain_name("title"@),
        is_plain_name("dateCreated"@),
        is_plain_name("body"@),
        is_plain_name("outline"@),
        is_plain_name("text"@),
        is_plain_name("type"@),
        is_plain_name("xmlUrl"@),
        is_plain_name("htmlUrl"@),
        is_plain_name("customTitle"@),
        is_plain_name("version"@),
        is_plain_name("feedlizard"@),
        "text"@ != "title"@,
        "text"@ != "type"@,
        "text"@ != "xmlUrl"@,
        "text"@ != "htmlUrl"@,
        "title"@ != "type"@,
        "title"@ != "xmlUrl"@,
        "title"@ != "htmlUrl"@,
        "type"@ != "xmlUrl"@,
        "type"@ != "htmlUrl"@,
        "xmlUrl"@ != "htmlUrl"@,
{
    reveal_strlit("opml");
    reveal_strlit("head");
    reveal_strlit("title");
    reveal_strlit("dateCreated");
    reveal_strlit("body");
    reveal_strlit("outline");
    reveal_strlit("text");
    reveal_strlit("type");
    reveal_strlit("xmlUrl");
    reveal_strlit("htmlUrl");
    reveal_strlit("customTitle");
    reveal_strlit("version");
    reveal_strlit("feedlizard");
    reveal_strlit("xml");
    reveal_strlit("xmlns");
    assert("title"@[0] == 't' && "xmlns"@[0] == 'x');
    assert("text"@[1] == 'e' && "type"@[1] == 'y');
    assert("xmlUrl"@.len() == 6 && "xmlns"@.len() == 5 && "xml"@.len() == 3);
}

/// Text alone opens and closes nothing.
proof fn lemma_data(text: Seq<char>, open: Seq<Seq<char>>)
    ensures
        open_after(seq![Piece::Data(text)], open) == Some(open),
        elements_in(seq![Piece::Data(text)], open) == Seq::<RowView>::empty(),
{
    let list = seq![Piece::Data(text)];
    assert(list.drop_last() == Seq::<Piece>::empty());
    assert(open_after(list.drop_last(), open) == Some(open));
    assert(elements_in(list.drop_last(), open) == Seq::<RowView>::empty());
}

/// A list of sound pieces behind another one.
proof fn lemma_sound_join(a: Seq<Piece>, b: Seq<Piece>)
    requires
        are_sound_pieces(a),
        are_sound_pieces(b),
    ensures
        are_sound_pieces(a + b),
{
    assert forall|i: int| 0 <= i < (a + b).len() implies is_sound_piece(#[trigger] (a + b)[i]) by {
        if i < a.len() {
            assert((a + b)[i] == a[i]);
        } else {
            assert((a + b)[i] == b[i - a.len()]);
        }
    }
}

/// The line for a subscription is the element that is written for it.
proof fn lemma_feed_line(feed: OpmlFeedView, level: nat, open: Seq<Seq<char>>)
    requires
        is_writable(feed),
    ensures
        open_after(feed_line(feed, indent(level)), open) == Some(open),
        elements_in(feed_line(feed, indent(level)), open) == seq![feed_row(feed, open.len() + 2)],
        are_sound_pieces(feed_line(feed, indent(level))),
{
    let attributes = feed_attributes(feed);
    let tag = Piece::Empty { name: "outline"@, attributes };
    let row = feed_row(feed, open.len() + 2);
    lemma_data(indent(level), open);
    lemma_data("\n"@, open);
    let first = seq![Piece::Data(indent(level))];
    let middle = seq![tag];
    let last = seq![Piece::Data("\n"@)];
    assert(middle.drop_last() == Seq::<Piece>::empty());
    assert(open_after(middle.drop_last(), open) == Some(open));
    assert(elements_in(middle.drop_last(), open) == Seq::<RowView>::empty());
    assert(reported(attributes) == row.attributes);
    assert(elements_in(middle, open) == Seq::<RowView>::empty().push(row));
    lemma_elements_join(first, middle, open);
    lemma_elements_join(first + middle, last, open);
    assert(first + middle + last == feed_line(feed, indent(level)));
    assert(elements_in(feed_line(feed, indent(level)), open) == seq![row]);
    lemma_plain_names();
    lemma_indent(level);
    lemma_newline();
    assert(is_clean(format_kind(feed.format))) by {
        reveal_strlit("rss");
        reveal_strlit("atom");
        reveal_strlit("json");
    }
    assert(are_sound(attributes));
}

proof fn lemma_feed_lines(list: Seq<OpmlFeedView>, level: nat, open: Seq<Seq<char>>)
    requires
        all_writable(list),
    ensures
        open_after(feed_lines(list, indent(level)), open) == Some(open),
        elements_in(feed_lines(list, indent(level)), open) == feed_rows(list, open.len() + 2),
        are_sound_pieces(feed_lines(list, indent(level))),
    decreases list.len(),
{
    if list.len() == 0 {
        assert(elements_in(feed_lines(list, indent(level)), open) == feed_rows(
            list,
            open.len() + 2,
        ));
    } else {
        let shorter = list.drop_last();
        let before = feed_lines(shorter, indent(level));
        let line = feed_line(list.last(), indent(level));
        assert forall|i: int| 0 <= i < shorter.len() implies is_writable(#[trigger] shorter[i]) by {
            assert(shorter[i] == list[i]);
        }
        assert(is_writable(list[list.len() - 1]));
        lemma_feed_lines(shorter, level, open);
        lemma_feed_line(list.last(), level, open);
        lemma_elements_join(before, line, open);
        lemma_sound_join(before, line);
        assert(feed_rows(shorter, open.len() + 2) + seq![feed_row(list.last(), open.len() + 2)]
            == feed_rows(list, open.len() + 2));
    }
}

/// What lies here is of the list.
proof fn lemma_here_writable(list: Seq<OpmlFeedView>, at: int)
    requires
        all_writable(list),
    ensures
        all_writable(lying_here(list, at)),
    decreases list.len(),
{
    if list.len() > 0 {
        let shorter = list.drop_last();
        assert forall|i: int| 0 <= i < shorter.len() implies is_writable(#[trigger] shorter[i]) by {
            assert(shorter[i] == list[i]);
        }
        assert(is_writable(list[list.len() - 1]));
        lemma_here_writable(shorter, at);
    }
}

/// What lies in a folder is of the list, and so is the name of the folder.
proof fn lemma_in_writable(list: Seq<OpmlFeedView>, at: int, name: Seq<char>)
    requires
        all_writable(list),
    ensures
        all_writable(lying_in(list, at, name)),
    decreases list.len(),
{
    if list.len() > 0 {
        let shorter = list.drop_last();
        assert forall|i: int| 0 <= i < shorter.len() implies is_writable(#[trigger] shorter[i]) by {
            assert(shorter[i] == list[i]);
        }
        assert(is_writable(list[list.len() - 1]));
        lemma_in_writable(shorter, at, name);
    }
}

proof fn lemma_names_clean(list: Seq<OpmlFeedView>, at: int)
    requires
        at >= 0,
        all_writable(list),
    ensures
        forall|k: int|
            0 <= k < folder_names(list, at).len() ==> is_clean(#[trigger] folder_names(list, at)[k]),
    decreases list.len(),
{
    if list.len() > 0 {
        let shorter = list.drop_last();
        assert forall|i: int| 0 <= i < shorter.len() implies is_writable(#[trigger] shorter[i]) by {
            assert(shorter[i] == list[i]);
        }
        lemma_names_clean(shorter, at);
        let feed = list[list.len() - 1];
        assert(is_writable(feed));
        let before = folder_names(shorter, at);
        let all = folder_names(list, at);
        if feed.folders.len() > at && !before.contains(feed.folders[at]) {
            let place = name_place(before, feed.folders[at]);
            lemma_name_place(before, feed.folders[at]);
            assert forall|k: int| 0 <= k < all.len() implies is_clean(#[trigger] all[k]) by {
                if k < place {
                    assert(all[k] == before[k]);
                } else if k > place {
                    assert(all[k] == before[k - 1]);
                }
            }
        }
    }
}

/// The lines for a list are the elements that are written for it.
proof fn lemma_outline_lines(
    list: Seq<OpmlFeedView>,
    at: nat,
    levels: nat,
    open: Seq<Seq<char>>,
)
    requires
        all_writable(list),
        open.len() == at + 2,
    ensures
        open_after(outline_lines(list, at, levels), open) == Some(open),
        elements_in(outline_lines(list, at, levels), open) == outline_rows(list, at, levels),
        are_sound_pieces(outline_lines(list, at, levels)),
    decreases levels, 1nat, 0nat,
{
    let here = lying_here(list, at as int);
    let first = feed_lines(here, indent(at + 1));
    lemma_here_writable(list, at as int);
    lemma_feed_lines(here, at + 1, open);
    if levels == 0 {
        assert(first + Seq::<Piece>::empty() == first);
        assert(feed_rows(here, at + 4) + Seq::<RowView>::empty() == feed_rows(here, at + 4));
    } else {
        let names = folder_names(list, at as int);
        lemma_names_clean(list, at as int);
        lemma_folder_lines(list, names, at, levels, open);
        lemma_elements_join(first, folder_lines(list, names, at, levels), open);
        lemma_sound_join(first, folder_lines(list, names, at, levels));
    }
}

proof fn lemma_folder_lines(
    list: Seq<OpmlFeedView>,
    names: Seq<Seq<char>>,
    at: nat,
    levels: nat,
    open: Seq<Seq<char>>,
)
    requires
        all_writable(list),
        forall|k: int| 0 <= k < names.len() ==> is_clean(#[trigger] names[k]),
        levels > 0,
        open.len() == at + 2,
    ensures
        open_after(folder_lines(list, names, at, levels), open) == Some(open),
        elements_in(folder_lines(list, names, at, levels), open) == folder_rows(
            list,
            names,
            at,
            levels,
        ),
        are_sound_pieces(folder_lines(list, names, at, levels)),
    decreases levels, 0nat, names.len(),
{
    if names.len() > 0 {
        let name = names[names.len() - 1];
        let shorter = names.drop_last();
        assert(name == names.last());
        assert forall|k: int| 0 <= k < shorter.len() implies is_clean(#[trigger] shorter[k]) by {
            assert(shorter[k] == names[k]);
        }
        lemma_folder_lines(list, shorter, at, levels, open);
        let inside = lying_in(list, at as int, name);
        lemma_in_writable(list, at as int, name);
        let tag = "outline"@;
        let inner_open = open.push(tag);
        let drawn = outline_lines(inside, at + 1, (levels - 1) as nat);
        lemma_outline_lines(inside, at + 1, (levels - 1) as nat, inner_open);
        let margin = indent(at + 1);
        let attributes = folder_attributes(name);
        let newline = seq![Piece::Data("\n"@)];
        let space = seq![Piece::Data(margin)];
        lemma_data("\n"@, inner_open);
        lemma_data(margin, inner_open);
        lemma_data("\n"@, open);
        lemma_data(margin, open);
        lemma_elements_join(newline, drawn, inner_open);
        lemma_elements_join(newline + drawn, space, inner_open);
        let inner = newline + drawn + space;
        assert(elements_in(inner, inner_open) == elements_in(drawn, inner_open));
        lemma_element_round(tag, attributes, inner, open);
        let element = seq![Piece::Open { name: tag, attributes }] + inner + seq![
            Piece::Close { name: tag },
        ];
        lemma_elements_join(space, element, open);
        lemma_elements_join(space + element, newline, open);
        let whole = folder_line(name, margin) + drawn + closing_line(margin);
        assert(space + element + newline == whole);
        let before = folder_lines(list, shorter, at, levels);
        lemma_elements_join(before, whole, open);
        assert(reported(attributes) == folder_row(name, at + 4).attributes);
        assert(elements_in(whole, open) == seq![folder_row(name, at + 4)] + outline_rows(
            inside,
            at + 1,
            (levels - 1) as nat,
        ));
        assert(folder_rows(list, names, at, levels) == folder_rows(list, shorter, at, levels) + (
        seq![folder_row(name, at + 4)] + outline_rows(inside, at + 1, (levels - 1) as nat)));
        lemma_plain_names();
        lemma_indent(at + 1);
        lemma_newline();
        assert(are_sound(attributes));
        assert(are_sound_pieces(folder_line(name, margin)));
        assert(are_sound_pieces(closing_line(margin)));
        lemma_sound_join(folder_line(name, margin), drawn);
        lemma_sound_join(folder_line(name, margin) + drawn, closing_line(margin));
        lemma_sound_join(before, whole);
    }
}

/// A web address in normal form.
pub open spec fn is_normal_address(url: Seq<char>) -> bool {
    parsed_url(url) is Some && parsed_url(url)->0.is_web() && normal_url(url) == url
}

/// A subscription that survives being written and read: a title and folders
/// without white space round them, and addresses in normal form, or as reading a
/// list gives them.
pub open spec fn is_lasting(feed: OpmlFeedView) -> bool {
    &&& is_settled_name(feed.title)
    &&& is_settled_name(feed.feed_url)
    &&& is_normal_address(feed.feed_url) || feed_address(feed.feed_url) == Some(feed.feed_url)
    &&& feed.site_url is Some ==> (is_settled_name(feed.site_url->0) && is_normal_address(
        feed.site_url->0,
    )) || site_address(feed.site_url->0) == feed.site_url
    &&& feed.folders.len() <= MAX_FOLDER_DEPTH
    &&& forall|i: int| 0 <= i < feed.folders.len() ==> is_settled_name(#[trigger] feed.folders[i])
}

/// Taking slashes off a path makes it shorter, or leaves it as it is.
proof fn lemma_bare_path(path: Seq<char>)
    ensures
        bare_path(path).len() <= path.len(),
        bare_path(path).len() == path.len() ==> bare_path(path) == path,
    decreases path.len(),
{
    if path.len() > 1 && path.last() == '/' {
        lemma_bare_path(path.drop_last());
    }
}

/// An address in normal form that is read as it stands is kept by reading.
proof fn lemma_normal_address(url: Seq<char>)
    requires
        is_normal_address(url),
        is_settled_name(url),
        reads_normal_form(url),
    ensures
        feed_address(url) == Some(url),
        site_address(url) == Some(url),
{
    let a = parsed_url(url)->0;
    let query = marked('?', a.query);
    let fragment = marked('#', a.fragment);
    lemma_bare_path(a.path);
    assert(url == a.head + bare_path(a.path) + query);
    assert(a.href == url);
    assert(a.href.len() == a.head.len() + a.path.len() + query.len() + fragment.len());
    assert(bare_path(a.path) == a.path);
}

/// The address and the site of a subscription stand in the element that is
/// written for it.
proof fn lemma_row_addresses(feed: OpmlFeedView, depth: nat)
    requires
        is_settled_name(feed.feed_url),
    ensures
        row_address(feed_row(feed, depth)) == Some(feed.feed_url),
        row_attribute(feed_row(feed, depth), "htmlurl"@) == feed.site_url,
{
    let list = feed_row(feed, depth).attributes;
    lemma_keys();
    lemma_attribute_at(list, 0, 3, "xmlurl"@);
    match (feed.site_url, feed.custom_title) {
        (Some(site), _) => {
            assert(list[4] == ("htmlUrl"@, site));
            lemma_attribute_at(list, 0, 4, "htmlurl"@);
        },
        (None, Some(custom)) => {
            assert(list[4] == ("customTitle"@, custom));
            lemma_attribute_absent(list, 0, "htmlurl"@);
        },
        (None, None) => {
            lemma_attribute_absent(list, 0, "htmlurl"@);
        },
    }
}

/// An element is written for every subscription of a list.
proof fn lemma_row_there(list: Seq<OpmlFeedView>, at: nat, levels: nat, feed: OpmlFeedView)
    requires
        list.contains(feed),
        feed.folders.len() <= at + levels,
    ensures
        exists|k: int, depth: nat|
            0 <= k < outline_rows(list, at, levels).len() && outline_rows(list, at, levels)[k]
                == #[trigger] feed_row(feed, depth) && #[trigger] is_place(k),
    decreases levels,
{
    let here = lying_here(list, at as int);
    let first = feed_rows(here, at + 4);
    let drawn = outline_rows(list, at, levels);
    list.to_multiset_ensures();
    assert(list.to_multiset().count(feed) > 0);
    if feed.folders.len() <= at {
        lemma_here_count(list, at as int, feed);
        here.to_multiset_ensures();
        assert(here.contains(feed));
        let k = choose|k: int| 0 <= k < here.len() && here[k] == feed;
        assert(first[k] == feed_row(feed, at + 4));
        assert(drawn[k] == first[k]);
        assert(is_place(k));
    } else {
        let name = feed.folders[at as int];
        let names = folder_names(list, at as int);
        let inside = lying_in(list, at as int, name);
        lemma_in_count(list, at as int, name, feed);
        inside.to_multiset_ensures();
        assert(inside.contains(feed));
        lemma_names_once(list, at as int);
        let i = choose|i: int| 0 <= i < list.len() && list[i] == feed;
        assert(names.contains(list[i].folders[at as int]));
        lemma_row_there(inside, at + 1, (levels - 1) as nat, feed);
        lemma_folder_there(list, names, at, levels, name, feed);
        let rest = folder_rows(list, names, at, levels);
        let (k, depth) = choose|k: int, depth: nat|
            0 <= k < rest.len() && rest[k] == #[trigger] feed_row(feed, depth)
                && #[trigger] is_place(k);
        assert(drawn == first + rest);
        assert(drawn[first.len() + k] == feed_row(feed, depth));
        assert(is_place(first.len() + k));
    }
}

/// A place in a list.
spec fn is_place(k: int) -> bool {
    k >= 0
}

/// What is written inside a folder is written for the folders of a list that it
/// is one of.
proof fn lemma_folder_there(
    list: Seq<OpmlFeedView>,
    names: Seq<Seq<char>>,
    at: nat,
    levels: nat,
    name: Seq<char>,
    feed: OpmlFeedView,
)
    requires
        levels > 0,
        names.contains(name),
        exists|k: int, depth: nat|
            0 <= k < outline_rows(
                lying_in(list, at as int, name),
                at + 1,
                (levels - 1) as nat,
            ).len() && outline_rows(
                lying_in(list, at as int, name),
                at + 1,
                (levels - 1) as nat,
            )[k] == #[trigger] feed_row(feed, depth) && #[trigger] is_place(k),
    ensures
        exists|k: int, depth: nat|
            0 <= k < folder_rows(list, names, at, levels).len() && folder_rows(
                list,
                names,
                at,
                levels,
            )[k] == #[trigger] feed_row(feed, depth) && #[trigger] is_place(k),
    decreases names.len(),
{
    let shorter = names.drop_last();
    let last = names.last();
    let before = folder_rows(list, shorter, at, levels);
    let whole = folder_rows(list, names, at, levels);
    let drawn = outline_rows(lying_in(list, at as int, last), at + 1, (levels - 1) as nat);
    assert(whole == before + seq![folder_row(last, at + 4)] + drawn);
    if last == name {
        let (k, depth) = choose|k: int, depth: nat|
            0 <= k < drawn.len() && drawn[k] == #[trigger] feed_row(feed, depth)
                && #[trigger] is_place(k);
        assert(whole[before.len() + 1 + k] == feed_row(feed, depth));
        assert(is_place(before.len() + 1 + k));
    } else {
        let i = choose|i: int| 0 <= i < names.len() && names[i] == name;
        assert(shorter[i] == name);
        lemma_folder_there(list, shorter, at, levels, name, feed);
        let (k, depth) = choose|k: int, depth: nat|
            0 <= k < before.len() && before[k] == #[trigger] feed_row(feed, depth)
                && #[trigger] is_place(k);
        assert(whole[k] == feed_row(feed, depth));
    }
}

/// Where addresses in normal form are read as they stand in the document of a
/// list, reading it gives its subscriptions as they are.
proof fn lemma_lasting(library: OpmlLibraryView)
    requires
        forall|i: int| 0 <= i < library.feeds.len() ==> is_lasting(#[trigger] library.feeds[i]),
        forall|k: int|
            0 <= k < document_rows(library).len() ==> names_normal_form(
                #[trigger] document_rows(library)[k],
            ),
    ensures
        forall|i: int| 0 <= i < library.feeds.len() ==> is_settled(#[trigger] library.feeds[i]),
{
    let feeds = in_order(library.feeds);
    let levels = deepest(feeds);
    let rows = document_rows(library);
    let drawn = outline_rows(feeds, 0, levels);
    lemma_in_order_same(library.feeds);
    lemma_deepest(feeds);
    feeds.to_multiset_ensures();
    library.feeds.to_multiset_ensures();
    assert forall|i: int| 0 <= i < library.feeds.len() implies is_settled(
        #[trigger] library.feeds[i],
    ) by {
        let feed = library.feeds[i];
        assert(is_lasting(feed));
        assert(library.feeds.contains(feed));
        assert(feeds.to_multiset().count(feed) > 0);
        assert(feeds.contains(feed));
        let j = choose|j: int| 0 <= j < feeds.len() && feeds[j] == feed;
        assert(feeds[j].folders.len() <= levels);
        lemma_row_there(feeds, 0, levels, feed);
        let (k, depth) = choose|k: int, depth: nat|
            0 <= k < drawn.len() && drawn[k] == #[trigger] feed_row(feed, depth)
                && #[trigger] is_place(k);
        assert(rows[5 + k] == drawn[k]);
        assert(names_normal_form(rows[5 + k]));
        lemma_row_addresses(feed, depth);
        if is_normal_address(feed.feed_url) {
            lemma_normal_address(feed.feed_url);
        }
        match feed.site_url {
            Some(site) => {
                if is_settled_name(site) && is_normal_address(site) {
                    lemma_normal_address(site);
                }
            },
            None => {},
        }
    }
}

/// A list can be written and read again: it has subscriptions, not too many of
/// them, each of which lasts, with texts that can stand in a document as they
/// are, and it is not too long in writing.
pub open spec fn is_restorable(library: OpmlLibraryView, created: Seq<char>) -> bool {
    &&& 0 < library.feeds.len() <= MAX_OPML_FEEDS
    &&& forall|i: int| 0 <= i < library.feeds.len() ==> is_lasting(#[trigger] library.feeds[i])
    &&& all_writable(library.feeds)
    &&& is_text(created)
    &&& byte_len(exported(library, created)) <= MAX_OPML_BYTES
}

/// The same subscriptions, in whatever order, and no message.
pub open spec fn is_same_list(
    read: Result<OpmlLibraryView, CoreErrorView>,
    library: OpmlLibraryView,
) -> bool {
    match read {
        Ok(list) => list.feeds.to_multiset() == library.feeds.to_multiset() && list.failures.len()
            == 0,
        Err(_) => false,
    }
}

/// A list that can be read again is written as a document in order, whose
/// elements are those that are written for it.
proof fn lemma_written(library: OpmlLibraryView, created: Seq<char>)
    requires
        is_restorable(library, created),
    ensures
        is_sound_document(written(library, created)),
        document_elements(written(library, created)) == document_rows(library),
{
    let feeds = in_order(library.feeds);
    let levels = deepest(feeds);
    let document = written(library, created);
    let none = Seq::<WrittenAttribute>::empty();
    lemma_in_order_same(library.feeds);
    assert forall|i: int| 0 <= i < feeds.len() implies is_writable(#[trigger] feeds[i]) by {
        assert(feeds.contains(feeds[i]));
        feeds.to_multiset_ensures();
        library.feeds.to_multiset_ensures();
        assert(library.feeds.to_multiset().count(feeds[i]) > 0);
        assert(library.feeds.contains(feeds[i]));
    }
    let root = seq!["opml"@];
    let body = root.push("body"@);
    let drawn = outline_lines(feeds, 0, levels);
    lemma_outline_lines(feeds, 0, levels, body);
    let newline = seq![Piece::Data("\n"@)];
    lemma_data("\n"@, body);
    lemma_elements_join(newline, drawn, body);
    lemma_element_round("body"@, none, newline + drawn, root);
    let body_whole = seq![Piece::Open { name: "body"@, attributes: none }] + (newline + drawn)
        + seq![Piece::Close { name: "body"@ }];
    let head = root.push("head"@);
    let in_title = seq![Piece::Data("FeedLizard Subscriptions"@)];
    let in_date = seq![Piece::Data(created)];
    lemma_data("FeedLizard Subscriptions"@, head.push("title"@));
    lemma_data(created, head.push("dateCreated"@));
    lemma_element_round("title"@, none, in_title, head);
    lemma_element_round("dateCreated"@, none, in_date, head);
    let title = seq![Piece::Open { name: "title"@, attributes: none }] + in_title + seq![
        Piece::Close { name: "title"@ },
    ];
    let date = seq![Piece::Open { name: "dateCreated"@, attributes: none }] + in_date + seq![
        Piece::Close { name: "dateCreated"@ },
    ];
    lemma_elements_join(title, date, head);
    lemma_element_round("head"@, none, title + date, root);
    let head_whole = seq![Piece::Open { name: "head"@, attributes: none }] + (title + date) + seq![
        Piece::Close { name: "head"@ },
    ];
    lemma_elements_join(head_whole, body_whole, root);
    assert(head_whole + body_whole == document.inner);
    assert(reported(none) == Seq::<(Seq<char>, Seq<char>)>::empty());
    assert(reported(document.attributes) == seq![("version"@, "2.0"@)]);
    assert(document_elements(document) == document_rows(library));
    lemma_plain_names();
    reveal_strlit("2.0");
    reveal_strlit("FeedLizard Subscriptions");
    lemma_newline();
    assert(are_sound_pieces(head_pieces(created)));
    assert(are_sound_pieces(seq![Piece::Close { name: "body"@ }]));
    lemma_sound_join(head_pieces(created), drawn);
    lemma_sound_join(head_pieces(created) + drawn, seq![Piece::Close { name: "body"@ }]);
    reveal_strlit("https://feedlizard.app/opml/1");
    reveal_strlit("http://www.w3.org/XML/1998/namespace");
    reveal_strlit("http://www.w3.org/2000/xmlns/");
    assert(document.namespace[4] == 's');
    assert("http://www.w3.org/2000/xmlns/"@[4] == ':');
    lemma_escaped_plain(document.namespace);
}

/// A list within the limits: not too many subscriptions, none of them too deep
/// in folders.
pub open spec fn is_within_limits(library: OpmlLibraryView) -> bool {
    library.feeds.len() <= MAX_OPML_FEEDS && forall|i: int|
        0 <= i < library.feeds.len() ==> (#[trigger] library.feeds[i]).folders.len()
            <= MAX_FOLDER_DEPTH
}

proof fn lemma_outline_limits(
    rows: Seq<RowView>,
    p: int,
    folders: Seq<Seq<char>>,
    library: OpmlLibraryView,
)
    requires
        is_within_limits(library),
    ensures
        with_outline(rows, p, folders, library) is Ok ==> is_within_limits(
            with_outline(rows, p, folders, library)->Ok_0,
        ),
    decreases rows.len() - p, 0int,
{
    let row = rows[p];
    if folders.len() <= MAX_FOLDER_DEPTH && library.feeds.len() < MAX_OPML_FEEDS {
        match row_address(row) {
            Some(address) => {
                if feed_address(address) is Some {
                    let feed = row_feed(row, feed_address(address)->0, folders);
                    let after = library.with_feed(feed);
                    assert forall|i: int| 0 <= i < after.feeds.len() implies (
                    #[trigger] after.feeds[i]).folders.len() <= MAX_FOLDER_DEPTH by {
                        if i < library.feeds.len() {
                            assert(after.feeds[i] == library.feeds[i]);
                        }
                    }
                }
            },
            None => {
                if !is_feed_kind(row_kind(row)) && 0 <= p < rows.len() {
                    lemma_outlines_limits(rows, p, p + 1, inner_folders(row, folders), library);
                }
            },
        }
    }
}

proof fn lemma_outlines_limits(
    rows: Seq<RowView>,
    p: int,
    i: int,
    folders: Seq<Seq<char>>,
    library: OpmlLibraryView,
)
    requires
        is_within_limits(library),
    ensures
        with_outlines(rows, p, i, folders, library) is Ok ==> is_within_limits(
            with_outlines(rows, p, i, folders, library)->Ok_0,
        ),
    decreases rows.len() - i, 1int,
{
    if i < rows.len() && rows[i].depth > rows[p].depth {
        if rows[i].depth == rows[p].depth + 1 && called(rows[i], "outline"@) {
            lemma_outline_limits(rows, i, folders, library);
            match with_outline(rows, i, folders, library) {
                Ok(next) => {
                    lemma_outlines_limits(rows, p, i + 1, folders, next);
                },
                Err(_) => {},
            }
        } else {
            lemma_outlines_limits(rows, p, i + 1, folders, library);
        }
    }
}

/// Whatever the document, a list that is read is within the limits and holds
/// something.
pub proof fn law_import_respects_limits(rows: Seq<RowView>)
    ensures
        match imported_rows(rows) {
            Ok(library) => is_within_limits(library) && library.feeds.len()
                + library.failures.len() > 0,
            Err(_) => true,
        },
{
    if first_called(rows, 0, "body"@) is Some {
        let body = first_called(rows, 0, "body"@)->0;
        lemma_outlines_limits(rows, body, body + 1, Seq::empty(), OpmlLibraryView::empty());
    }
}

} // verus!
