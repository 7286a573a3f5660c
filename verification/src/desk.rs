//! What the window shows and asks for: which articles are listed, what a click
//! means, and what is said of the work in the background.

use crate::network_worker;
use crate::nostr_worker;
use crate::presentation::{feed_icon_discovery_page, icon_page};
use crate::records::{
    feed_record_views, list_item_views, ArticleListItem, CursorView, FeedRecord, FeedRecordView,
    ListItemView, PageCursor, ScopeView,
};
use crate::refresh::RefreshSummary;
use crate::text::{
    begins, chars_of, decimal, decimal_int, decimal_text, join, joined, law_decimal_is_read_back,
    parse_number,
    parsed_number, same, signed_text, starts_with, string_of, trim, trimmed, view_of, views,
};
use crate::worker::{plural, plural_ending, Command, CommandView, Event, OwnedScope};
use vstd::hash_set::StringHashSet;
use vstd::prelude::*;

verus! {

/// How many articles are asked for their pictures at once.
pub const MAX_PICTURE_REQUESTS: usize = 24;

/// How many articles the compact window lists.
pub const MAX_SIGNAL_ROWS: usize = 40;

/// The whole number that a text writes, if it fits in 64 bits: digits, with at
/// most one sign before them.
pub open spec fn whole_number(text: Seq<char>) -> Option<i64> {
    if text.len() > 1 && text[0] == '-' && text[1] != '+' {
        match parsed_number(text.skip(1)) {
            Some(n) => if n <= 0x8000_0000_0000_0000 {
                Some((-n) as i64)
            } else {
                None
            },
            None => None,
        }
    } else {
        match parsed_number(text) {
            Some(n) => if n <= i64::MAX {
                Some(n as i64)
            } else {
                None
            },
            None => None,
        }
    }
}

fn read_whole_number(text: &str) -> (r: Option<i64>)
    ensures
        r == whole_number(text@),
{
    let chars = chars_of(text);
    if chars.len() > 1 && chars[0] == '-' && chars[1] != '+' {
        let rest = string_of(&chars, 1, chars.len());
        assert(text@.subrange(1, text@.len() as int) == text@.skip(1));
        match parse_number(rest.as_str()) {
            Some(n) => if n <= 0x8000_0000_0000_0000 {
                Some((-(n as i128)) as i64)
            } else {
                None
            },
            None => None,
        }
    } else {
        match parse_number(text) {
            Some(n) => if n <= 0x7fff_ffff_ffff_ffff {
                Some(n as i64)
            } else {
                None
            },
            None => None,
        }
    }
}

/// The articles that a row of the sidebar stands for, by the row's tag.
pub open spec fn scope_in(tag: Seq<char>) -> Option<ScopeView> {
    if tag == "scope:unread"@ {
        Some(ScopeView::Unread)
    } else if tag == "scope:library"@ {
        Some(ScopeView::Library)
    } else if tag == "scope:starred"@ {
        Some(ScopeView::Starred)
    } else if starts_with(tag, "feed:"@) {
        Some(ScopeView::Feed(tag.skip(5)))
    } else if starts_with(tag, "folder:"@) {
        match whole_number(tag.skip(7)) {
            Some(id) => Some(ScopeView::Folder(id)),
            None => Some(ScopeView::Library),
        }
    } else {
        None
    }
}

/// What an optional choice of articles holds.
pub open spec fn scope_view(scope: Option<OwnedScope>) -> Option<ScopeView> {
    match scope {
        Some(known) => Some(known@),
        None => None,
    }
}

/// The articles that the row of the sidebar with the tag `tag` stands for.
pub fn scope_of_tag(tag: &str) -> (r: Option<OwnedScope>)
    ensures
        scope_view(r) == scope_in(tag@),
{
    if same(tag, "scope:unread") {
        return Some(OwnedScope::Unread);
    }
    if same(tag, "scope:library") {
        return Some(OwnedScope::Library);
    }
    if same(tag, "scope:starred") {
        return Some(OwnedScope::Starred);
    }
    proof {
        reveal_strlit("feed:");
        reveal_strlit("folder:");
    }
    let chars = chars_of(tag);
    if begins(tag, "feed:") {
        let id = string_of(&chars, 5, chars.len());
        assert(tag@.subrange(5, tag@.len() as int) == tag@.skip(5));
        return Some(OwnedScope::Feed(id));
    }
    if begins(tag, "folder:") {
        let number = string_of(&chars, 7, chars.len());
        assert(tag@.subrange(7, tag@.len() as int) == tag@.skip(7));
        return match read_whole_number(number.as_str()) {
            Some(id) => Some(OwnedScope::Folder(id)),
            None => Some(OwnedScope::Library),
        };
    }
    None
}

/// The tag of the row of a feed.
pub open spec fn feed_tagged(id: Seq<char>) -> Seq<char> {
    "feed:"@ + id
}

/// The tag of the row of a folder.
pub open spec fn folder_tagged(id: i64) -> Seq<char> {
    "folder:"@ + decimal_int(id as int)
}

/// The tag of the row of the feed `id`.
pub fn feed_tag(id: &str) -> (r: String)
    ensures
        r@ == feed_tagged(id@),
{
    let mut out = "feed:".to_owned();
    out.append(id);
    out
}

/// The tag of the row of the folder `id`.
pub fn folder_tag(id: i64) -> (r: String)
    ensures
        r@ == folder_tagged(id),
{
    let mut out = "folder:".to_owned();
    let number = signed_text(id);
    out.append(number.as_str());
    out
}

/// The row of a feed or of a folder stands for the articles of that feed or
/// folder.
pub proof fn law_rows_stand_for_their_articles(feed: Seq<char>, folder: i64)
    ensures
        scope_in(feed_tagged(feed)) == Some(ScopeView::Feed(feed)),
        scope_in(folder_tagged(folder)) == Some(ScopeView::Folder(folder)),
{
    reveal_strlit("scope:unread");
    reveal_strlit("scope:library");
    reveal_strlit("scope:starred");
    reveal_strlit("feed:");
    reveal_strlit("folder:");
    let tag = feed_tagged(feed);
    assert(tag[0] == 'f' && "scope:unread"@[0] == 's' && "scope:library"@[0] == 's'
        && "scope:starred"@[0] == 's');
    assert(tag.subrange(0, 5) == "feed:"@);
    assert(tag.skip(5) == feed);
    let tag = folder_tagged(folder);
    assert(tag[0] == 'f' && tag[1] == 'o' && "feed:"@[1] == 'e');
    assert(tag.subrange(0, 7) == "folder:"@);
    assert(tag.skip(7) == decimal_int(folder as int));
    if folder < 0 {
        law_decimal_is_read_back((-folder) as nat);
        let digits = decimal((-folder) as nat);
        assert(decimal_int(folder as int).skip(1) == digits);
        assert(crate::text::is_digit(digits[0]));
    } else {
        law_decimal_is_read_back(folder as nat);
        assert(crate::text::is_digit(decimal(folder as nat)[0]));
    }
}

/// What the window calls a choice of articles.
pub open spec fn title_of(scope: ScopeView) -> Seq<char> {
    match scope {
        ScopeView::Library => "Library"@,
        ScopeView::Unread => "Unread"@,
        ScopeView::Starred => "Starred"@,
        ScopeView::Feed(_) => "Feed"@,
        ScopeView::Folder(_) => "Folder"@,
    }
}

/// What the window calls the articles `scope`.
pub fn scope_title(scope: &OwnedScope) -> (r: &'static str)
    ensures
        r@ == title_of(scope@),
{
    match scope {
        OwnedScope::Library => "Library",
        OwnedScope::Unread => "Unread",
        OwnedScope::Starred => "Starred",
        OwnedScope::Feed(_) => "Feed",
        OwnedScope::Folder(_) => "Folder",
    }
}

/// The row that a step by `delta` leads to from `current` in a list of `count`
/// rows, and never beyond its ends; where no row is chosen, the first step leads
/// to an end of the list.
pub open spec fn row_after(current: Option<int>, delta: int, count: int) -> Option<int> {
    if count <= 0 {
        None
    } else {
        let from = match current {
            Some(row) => row,
            None => if delta > 0 {
                -1
            } else {
                count
            },
        };
        if from + delta < 0 {
            Some(0)
        } else if from + delta >= count {
            Some(count - 1)
        } else {
            Some(from + delta)
        }
    }
}

/// The row that a step by `delta` leads to.
pub fn move_selection(current: Option<usize>, delta: i32, count: usize) -> (r: Option<usize>)
    ensures
        match r {
            Some(row) => row_after(
                match current {
                    Some(at) => Some(at as int),
                    None => None,
                },
                delta as int,
                count as int,
            ) == Some(row as int) && row < count,
            None => count == 0,
        },
{
    if count == 0 {
        return None;
    }
    let from: i128 = match current {
        Some(row) => row as i128,
        None => if delta > 0 {
            -1
        } else {
            count as i128
        },
    };
    let target: i128 = from + delta as i128;
    if target < 0 {
        Some(0)
    } else if target >= count as i128 {
        Some(count - 1)
    } else {
        Some(target as usize)
    }
}

/// What a click on a row of the list means.
#[derive(Debug)]
pub enum RowAction {
    Open(String),
    LoadMore(OwnedScope, PageCursor),
    Nothing,
}

/// What a click on a row of the sidebar means.
#[derive(Debug)]
pub enum SidebarAction {
    Settings,
    /// Articles are shown under a title. A feed or a folder can be managed, and
    /// where the unread articles are left the sidebar is counted anew.
    Show { scope: OwnedScope, manage: bool, recount: bool },
    Nothing,
}

/// What the window lists, and what was asked for already.
pub struct Desk {
    scope: OwnedScope,
    items: Vec<ArticleListItem>,
    next: Option<PageCursor>,
    stale: bool,
    asked_pictures: StringHashSet,
    asked_icons: StringHashSet,
    asked_pages: StringHashSet,
}

/// What a [`Desk`] holds. The unread articles in view are stale where one of
/// them was read since they were listed: it stays in view until they are left.
pub struct DeskView {
    pub scope: ScopeView,
    pub items: Seq<ListItemView>,
    pub next: Option<CursorView>,
    pub stale: bool,
    pub asked_pictures: Set<Seq<char>>,
    pub asked_icons: Set<Seq<char>>,
    pub asked_pages: Set<Seq<char>>,
}

impl View for Desk {
    type V = DeskView;

    closed spec fn view(&self) -> DeskView {
        DeskView {
            scope: self.scope@,
            items: list_item_views(self.items@),
            next: match self.next {
                Some(cursor) => Some(cursor@),
                None => None,
            },
            stale: self.stale,
            asked_pictures: self.asked_pictures@,
            asked_icons: self.asked_icons@,
            asked_pages: self.asked_pages@,
        }
    }
}

/// What was found to ask for, and all that was asked for.
pub struct Asking {
    pub found: Seq<(Seq<char>, Seq<char>)>,
    pub asked: Set<Seq<char>>,
}

/// One more article may be asked for its picture: if it shows none, was not
/// asked before and has a page, and not too many are asked already.
pub open spec fn with_picture(asking: Asking, item: ListItemView) -> Asking {
    if asking.found.len() >= MAX_PICTURE_REQUESTS || item.thumbnail_url is Some
        || asking.asked.contains(item.stable_id) {
        asking
    } else {
        Asking {
            found: match item.article_url {
                Some(url) => asking.found.push((item.stable_id, url)),
                None => asking.found,
            },
            asked: asking.asked.insert(item.stable_id),
        }
    }
}

/// The articles of a list that are asked for their pictures.
pub open spec fn pictures_wanted(asked: Set<Seq<char>>, items: Seq<ListItemView>) -> Asking
    decreases items.len(),
{
    if items.len() == 0 {
        Asking { found: Seq::empty(), asked }
    } else {
        with_picture(pictures_wanted(asked, items.drop_last()), items.last())
    }
}

/// One more feed may be asked for its icon: if it was not asked before and has a
/// page.
pub open spec fn with_icon(asking: Asking, feed: FeedRecordView) -> Asking {
    match icon_page(feed) {
        Some(page) if !asking.asked.contains(feed.stable_id) => Asking {
            found: asking.found.push((feed.stable_id, page)),
            asked: asking.asked.insert(feed.stable_id),
        },
        _ => asking,
    }
}

/// The feeds of a list that are asked for their icons.
pub open spec fn icons_wanted(asked: Set<Seq<char>>, feeds: Seq<FeedRecordView>) -> Asking
    decreases feeds.len(),
{
    if feeds.len() == 0 {
        Asking { found: Seq::empty(), asked }
    } else {
        with_icon(icons_wanted(asked, feeds.drop_last()), feeds.last())
    }
}

/// The place of the article with an id in a list.
pub open spec fn item_at(items: Seq<ListItemView>, id: Seq<char>, i: int) -> Option<int>
    decreases items.len() - i,
{
    if i < 0 || i >= items.len() {
        None
    } else if items[i].stable_id == id {
        Some(i)
    } else {
        item_at(items, id, i + 1)
    }
}

/// The desk after other articles were chosen.
pub open spec fn choosing(desk: DeskView, wanted: ScopeView) -> DeskView {
    DeskView {
        scope: wanted,
        stale: desk.stale && (desk.scope is Unread) == (wanted is Unread),
        ..desk
    }
}

/// The desk after a list of articles arrived.
pub open spec fn arriving(
    desk: DeskView,
    scope: ScopeView,
    items: Seq<ListItemView>,
    next: Option<CursorView>,
    append: bool,
) -> DeskView {
    if !append && scope is Unread && desk.scope is Unread && desk.stale {
        desk
    } else {
        DeskView {
            scope,
            items: if append {
                desk.items + items
            } else {
                items
            },
            next,
            ..desk
        }
    }
}

/// The desk after an article was read, or is to be read again.
pub open spec fn reading(desk: DeskView, id: Seq<char>, read: bool) -> DeskView {
    DeskView {
        items: match item_at(desk.items, id, 0) {
            Some(i) => desk.items.update(i, ListItemView { is_unread: !read, ..desk.items[i] }),
            None => desk.items,
        },
        stale: desk.stale || (read && desk.scope is Unread),
        ..desk
    }
}

impl Desk {
    /// A desk with the unread articles in view, and nothing listed yet.
    pub fn new() -> (r: Desk)
        ensures
            r@.scope == ScopeView::Unread,
            r@.items.len() == 0,
            r@.next is None,
            !r@.stale,
            r@.asked_pictures == Set::<Seq<char>>::empty(),
            r@.asked_icons == Set::<Seq<char>>::empty(),
            r@.asked_pages == Set::<Seq<char>>::empty(),
    {
        Desk {
            scope: OwnedScope::Unread,
            items: Vec::new(),
            next: None,
            stale: false,
            asked_pictures: StringHashSet::new(),
            asked_icons: StringHashSet::new(),
            asked_pages: StringHashSet::new(),
        }
    }

    /// Which articles are in view.
    pub fn scope(&self) -> (r: OwnedScope)
        ensures
            r@ == self@.scope,
    {
        self.scope.clone()
    }

    /// The articles that are listed.
    pub fn items(&self) -> (r: &Vec<ArticleListItem>)
        ensures
            list_item_views(r@) == self@.items,
    {
        &self.items
    }

    /// What a click on the row of the sidebar with the tag `tag` means.
    pub fn activate_tag(&mut self, tag: &str) -> (r: SidebarAction)
        ensures
            if tag@ == "settings"@ {
                r matches SidebarAction::Settings && final(self)@ == old(self)@
            } else {
                match scope_in(tag@) {
                    None => r matches SidebarAction::Nothing && final(self)@ == old(self)@,
                    Some(wanted) => final(self)@ == choosing(old(self)@, wanted) && match r {
                        SidebarAction::Show { scope, manage, recount } => scope@ == wanted
                            && manage == (wanted is Feed || wanted is Folder) && recount == (old(
                            self,
                        )@.scope is Unread && !(wanted is Unread)),
                        _ => false,
                    },
                }
            },
    {
        if same(tag, "settings") {
            return SidebarAction::Settings;
        }
        match scope_of_tag(tag) {
            None => SidebarAction::Nothing,
            Some(scope) => {
                let was_unread = match self.scope {
                    OwnedScope::Unread => true,
                    _ => false,
                };
                let (now_unread, manage) = match &scope {
                    OwnedScope::Unread => (true, false),
                    OwnedScope::Feed(_) => (false, true),
                    OwnedScope::Folder(_) => (false, true),
                    _ => (false, false),
                };
                if was_unread != now_unread {
                    self.stale = false;
                }
                self.scope = scope.clone();
                SidebarAction::Show { scope, manage, recount: was_unread && !now_unread }
            },
        }
    }

    /// Brings the articles `scope` into view.
    pub fn set_scope(&mut self, scope: OwnedScope)
        ensures
            final(self)@ == (DeskView { scope: scope@, ..old(self)@ }),
    {
        self.scope = scope;
    }

    /// Lists articles: in place of what was listed, or behind it.
    pub fn show_articles(
        &mut self,
        scope: OwnedScope,
        items: Vec<ArticleListItem>,
        next: Option<PageCursor>,
        append: bool,
    )
        ensures
            final(self)@ == (DeskView {
                scope: scope@,
                items: if append {
                    old(self)@.items + list_item_views(items@)
                } else {
                    list_item_views(items@)
                },
                next: match next {
                    Some(cursor) => Some(cursor@),
                    None => None,
                },
                ..old(self)@
            }),
    {
        let ghost before = self@.items;
        let ghost more = list_item_views(items@);
        self.scope = scope;
        self.next = next;
        if append {
            let mut i: usize = 0;
            let ghost old_self = *self;
            assert(more.take(0).len() == 0);
            assert(list_item_views(self.items@) == before + more.take(0));
            while i < items.len()
                invariant
                    i <= items@.len(),
                    more == list_item_views(items@),
                    self.scope@ == old_self.scope@,
                    self.next == old_self.next,
                    self.stale == old_self.stale,
                    self.asked_pictures@ == old_self.asked_pictures@,
                    self.asked_icons@ == old_self.asked_icons@,
                    self.asked_pages@ == old_self.asked_pages@,
                    list_item_views(self.items@) == before + more.take(i as int),
                decreases items@.len() - i,
            {
                let ghost sofar = list_item_views(self.items@);
                let item = items[i].clone();
                self.items.push(item);
                assert(list_item_views(self.items@) == sofar.push(item@));
                assert(more.take(i + 1) == more.take(i as int).push(more[i as int]));
                i += 1;
            }
            assert(more.take(i as int) == more);
        } else {
            self.items = items;
        }
    }

    /// What a click on the row `index` of the list means: an article is opened;
    /// the row behind the last one asks for more, once.
    pub fn activate_row(&mut self, index: usize) -> (r: RowAction)
        ensures
            if index < old(self)@.items.len() {
                final(self)@ == old(self)@ && match r {
                    RowAction::Open(id) => id@ == old(self)@.items[index as int].stable_id,
                    _ => false,
                }
            } else if index == old(self)@.items.len() && old(self)@.next is Some {
                final(self)@ == (DeskView { next: None, ..old(self)@ }) && match r {
                    RowAction::LoadMore(scope, cursor) => scope@ == old(self)@.scope && cursor@
                        == old(self)@.next->0,
                    _ => false,
                }
            } else {
                r matches RowAction::Nothing && final(self)@ == old(self)@
            },
    {
        let count: usize = self.items.len();
        assert(self@.items.len() == count);
        if index < count {
            assert(self@.items[index as int] == self.items@[index as int]@);
            return RowAction::Open(self.items[index].stable_id.clone());
        }
        if index == count {
            if let Some(cursor) = &self.next {
                let cursor = cursor.clone();
                self.next = None;
                return RowAction::LoadMore(self.scope.clone(), cursor);
            }
        }
        RowAction::Nothing
    }

    /// The articles among `items` that are to be asked for their pictures, with
    /// their pages.
    pub fn wanted_pictures(&mut self, items: &Vec<ArticleListItem>) -> (r: Vec<(String, String)>)
        ensures
            ({
                let asking = pictures_wanted(old(self)@.asked_pictures, list_item_views(items@));
                &&& network_worker::pair_views(r@) == asking.found
                &&& final(self)@ == (DeskView { asked_pictures: asking.asked, ..old(self)@ })
            }),
    {
        let ghost before = *self;
        let ghost all = list_item_views(items@);
        let mut found: Vec<(String, String)> = Vec::new();
        let mut i: usize = 0;
        assert(network_worker::pair_views(found@) == Seq::<(Seq<char>, Seq<char>)>::empty());
        while i < items.len()
            invariant
                i <= items@.len(),
                all == list_item_views(items@),
                self.scope == before.scope,
                self.items == before.items,
                self.next == before.next,
                self.stale == before.stale,
                self.asked_icons == before.asked_icons,
                self.asked_pages == before.asked_pages,
                network_worker::pair_views(found@) == pictures_wanted(
                    before.asked_pictures@,
                    all.take(i as int),
                ).found,
                self.asked_pictures@ == pictures_wanted(
                    before.asked_pictures@,
                    all.take(i as int),
                ).asked,
            decreases items@.len() - i,
        {
            assert(all.take(i + 1).drop_last() == all.take(i as int));
            assert(all.take(i + 1).last() == items@[i as int]@);
            let ghost sofar = network_worker::pair_views(found@);
            assert(sofar.len() == found@.len());
            if found.len() < MAX_PICTURE_REQUESTS && items[i].thumbnail_url.is_none()
                && !self.asked_pictures.contains(items[i].stable_id.as_str()) {
                self.asked_pictures.insert(items[i].stable_id.clone());
                if let Some(url) = &items[i].article_url {
                    found.push((items[i].stable_id.clone(), url.clone()));
                    assert(network_worker::pair_views(found@) == sofar.push(
                        (items@[i as int]@.stable_id, url@),
                    ));
                }
            }
            i += 1;
        }
        assert(all.take(i as int) == all);
        found
    }

    /// The feeds among `feeds` that are to be asked for their icons, with the
    /// pages that may announce them.
    pub fn wanted_icons(&mut self, feeds: &Vec<FeedRecord>) -> (r: Vec<(String, String)>)
        ensures
            ({
                let asking = icons_wanted(old(self)@.asked_icons, feed_record_views(feeds@));
                &&& network_worker::pair_views(r@) == asking.found
                &&& final(self)@ == (DeskView { asked_icons: asking.asked, ..old(self)@ })
            }),
    {
        let ghost before = *self;
        let ghost all = feed_record_views(feeds@);
        let mut found: Vec<(String, String)> = Vec::new();
        let mut i: usize = 0;
        assert(network_worker::pair_views(found@) == Seq::<(Seq<char>, Seq<char>)>::empty());
        while i < feeds.len()
            invariant
                i <= feeds@.len(),
                all == feed_record_views(feeds@),
                self.scope == before.scope,
                self.items == before.items,
                self.next == before.next,
                self.stale == before.stale,
                self.asked_pictures == before.asked_pictures,
                self.asked_pages == before.asked_pages,
                network_worker::pair_views(found@) == icons_wanted(
                    before.asked_icons@,
                    all.take(i as int),
                ).found,
                self.asked_icons@ == icons_wanted(before.asked_icons@, all.take(i as int)).asked,
            decreases feeds@.len() - i,
        {
            assert(all.take(i + 1).drop_last() == all.take(i as int));
            assert(all.take(i + 1).last() == feeds@[i as int]@);
            let ghost sofar = network_worker::pair_views(found@);
            if let Some(page) = feed_icon_discovery_page(&feeds[i]) {
                if !self.asked_icons.contains(feeds[i].stable_id.as_str()) {
                    let ghost text = page@;
                    self.asked_icons.insert(feeds[i].stable_id.clone());
                    found.push((feeds[i].stable_id.clone(), page));
                    assert(network_worker::pair_views(found@) == sofar.push(
                        (feeds@[i as int]@.stable_id, text),
                    ));
                }
            }
            i += 1;
        }
        assert(all.take(i as int) == all);
        found
    }

    /// Whether the page of the article `id` is to be asked for: if it has one,
    /// was not read already, and was not asked for.
    pub fn wants_page(&mut self, id: &str, has_page: bool, read_already: bool) -> (r: bool)
        ensures
            r == (has_page && !read_already && !old(self)@.asked_pages.contains(id@)),
            final(self)@ == (DeskView {
                asked_pages: if r {
                    old(self)@.asked_pages.insert(id@)
                } else {
                    old(self)@.asked_pages
                },
                ..old(self)@
            }),
    {
        if !has_page || read_already || self.asked_pages.contains(id) {
            return false;
        }
        self.asked_pages.insert(id.to_owned());
        true
    }

    /// The page of the article `id` could not be read, and may be asked for
    /// again.
    pub fn page_failed(&mut self, id: &str)
        ensures
            final(self)@ == (DeskView {
                asked_pages: old(self)@.asked_pages.remove(id@),
                ..old(self)@
            }),
    {
        self.asked_pages.remove(id);
    }

    fn place_of(&self, id: &str) -> (r: Option<usize>)
        ensures
            match r {
                Some(i) => item_at(self@.items, id@, 0) == Some(i as int) && i < self.items@.len(),
                None => item_at(self@.items, id@, 0) is None,
            },
    {
        let ghost all = self@.items;
        let mut i: usize = 0;
        while i < self.items.len()
            invariant
                i <= self.items@.len(),
                all == list_item_views(self.items@),
                all == self@.items,
                item_at(all, id@, 0) == item_at(all, id@, i as int),
            decreases self.items@.len() - i,
        {
            assert(all[i as int] == self.items@[i as int]@);
            if same(self.items[i].stable_id.as_str(), id) {
                return Some(i);
            }
            i += 1;
        }
        None
    }

    /// A picture was found for the article `id`: it is shown where the article
    /// is listed.
    pub fn show_picture(&mut self, id: &str, url: &str)
        ensures
            final(self)@ == (DeskView {
                items: match item_at(old(self)@.items, id@, 0) {
                    Some(i) => old(self)@.items.update(
                        i,
                        ListItemView { thumbnail_url: Some(url@), ..old(self)@.items[i] },
                    ),
                    None => old(self)@.items,
                },
                ..old(self)@
            }),
    {
        let ghost all = self@.items;
        if let Some(i) = self.place_of(id) {
            let mut item = self.items[i].clone();
            item.thumbnail_url = Some(url.to_owned());
            self.items.set(i, item);
            assert(list_item_views(self.items@) == all.update(i as int, item@));
        }
    }

    /// The article `id` was read, or is to be read again.
    pub fn read_changed(&mut self, id: &str, read: bool)
        ensures
            final(self)@ == reading(old(self)@, id@, read),
    {
        let ghost all = self@.items;
        if let Some(i) = self.place_of(id) {
            let mut item = self.items[i].clone();
            item.is_unread = !read;
            self.items.set(i, item);
            assert(list_item_views(self.items@) == all.update(i as int, item@));
        }
        if read {
            if let OwnedScope::Unread = self.scope {
                self.stale = true;
            }
        }
    }

    /// The article `id` got a star or lost it.
    pub fn starred_changed(&mut self, id: &str, starred: bool)
        ensures
            final(self)@ == (DeskView {
                items: match item_at(old(self)@.items, id@, 0) {
                    Some(i) => old(self)@.items.update(
                        i,
                        ListItemView { is_starred: starred, ..old(self)@.items[i] },
                    ),
                    None => old(self)@.items,
                },
                ..old(self)@
            }),
    {
        let ghost all = self@.items;
        if let Some(i) = self.place_of(id) {
            let mut item = self.items[i].clone();
            item.is_starred = starred;
            self.items.set(i, item);
            assert(list_item_views(self.items@) == all.update(i as int, item@));
        }
    }

    /// Lists the articles `scope` that arrived, unless they are the unread ones,
    /// already in view, of which one was read meanwhile. Tells whether they are
    /// listed.
    pub fn articles_arrived(
        &mut self,
        scope: OwnedScope,
        items: Vec<ArticleListItem>,
        next: Option<PageCursor>,
        append: bool,
    ) -> (r: bool)
        ensures
            r == !(!append && scope@ is Unread && old(self)@.scope is Unread && old(self)@.stale),
            final(self)@ == arriving(
                old(self)@,
                scope@,
                list_item_views(items@),
                match next {
                    Some(cursor) => Some(cursor@),
                    None => None,
                },
                append,
            ),
    {
        let asked_unread = match scope {
            OwnedScope::Unread => true,
            _ => false,
        };
        let shows_unread = match self.scope {
            OwnedScope::Unread => true,
            _ => false,
        };
        if !append && asked_unread && shows_unread && self.stale {
            return false;
        }
        self.show_articles(scope, items, next, append);
        true
    }

    /// Lists the articles that a search found.
    pub fn search_arrived(&mut self, items: Vec<ArticleListItem>)
        ensures
            final(self)@ == (DeskView {
                items: list_item_views(items@),
                next: None,
                ..old(self)@
            }),
    {
        let scope = self.scope.clone();
        self.show_articles(scope, items, None, false);
    }

    /// What is asked for where the reader types `text` to search for: the
    /// articles in view where that is nothing.
    pub fn search_wish(&self, text: &str) -> (r: Command)
        ensures
            r@ == if trim(text@).len() == 0 {
                CommandView::LoadArticles(self@.scope)
            } else {
                CommandView::Search(trim(text@))
            },
    {
        let query = trimmed(text);
        if query.as_str().is_empty() {
            Command::LoadArticles(self.scope.clone())
        } else {
            Command::Search(query)
        }
    }
}

/// An article that is read while the unread ones are in view stays in view: a
/// list of the unread articles that arrives afterwards does not take their place,
/// until others were chosen meanwhile.
pub proof fn law_read_articles_stay_in_view(
    desk: DeskView,
    id: Seq<char>,
    other: ScopeView,
    items: Seq<ListItemView>,
    next: Option<CursorView>,
)
    requires
        desk.scope is Unread,
        !(other is Unread),
    ensures
        ({
            let read = reading(desk, id, true);
            let back = choosing(choosing(read, other), ScopeView::Unread);
            &&& arriving(read, ScopeView::Unread, items, next, false) == read
            &&& arriving(back, ScopeView::Unread, items, next, false).items == items
        }),
{
}

/// What is asked for once is not asked for again.
pub proof fn law_pictures_are_asked_once(asked: Set<Seq<char>>, items: Seq<ListItemView>)
    ensures
        pictures_wanted(asked, items).found.len() <= MAX_PICTURE_REQUESTS,
        forall|k: int|
            0 <= k < pictures_wanted(asked, items).found.len() ==> !asked.contains(
                (#[trigger] pictures_wanted(asked, items).found[k]).0,
            ) && pictures_wanted(asked, items).asked.contains(
                pictures_wanted(asked, items).found[k].0,
            ),
        asked.subset_of(pictures_wanted(asked, items).asked),
    decreases items.len(),
{
    if items.len() > 0 {
        law_pictures_are_asked_once(asked, items.drop_last());
        let before = pictures_wanted(asked, items.drop_last());
        let after = pictures_wanted(asked, items);
        assert forall|k: int| 0 <= k < after.found.len() implies !asked.contains(
            (#[trigger] after.found[k]).0,
        ) && after.asked.contains(after.found[k].0) by {
            if k < before.found.len() {
                assert(after.found[k] == before.found[k]);
            }
        }
    }
}

/// A number in words of a window: the number, a word, and its ending.
pub open spec fn counted(count: nat, word: Seq<char>) -> Seq<char> {
    decimal(count) + word + plural(count)
}

fn write_counted(out: &mut String, count: usize, word: &str)
    ensures
        final(out)@ == old(out)@ + counted(count as nat, word@),
{
    let ghost before = out@;
    let number = decimal_text(count as u64);
    out.append(number.as_str());
    out.append(word);
    out.append(plural_ending(count));
    assert(out@ == before + counted(count as nat, word@));
}

/// What is said of several feeds that were added.
pub open spec fn additions_text(added: nat, articles: nat, failures: Seq<Seq<char>>) -> Seq<char> {
    let text = "Added "@ + counted(added, " feed"@) + " with "@ + counted(articles, " article"@);
    if failures.len() > 0 {
        text + "; couldn’t add "@ + join(failures, ", "@)
    } else {
        text
    }
}

/// What is said of the refresh of all feeds.
pub open spec fn refresh_text(summary: RefreshSummary) -> Seq<char> {
    "Refresh complete: "@ + decimal(summary.successful as nat) + " updated, "@ + decimal(
        summary.unchanged as nat,
    ) + " unchanged, "@ + decimal(summary.failed as nat) + " failed"@
}

/// What the window says of a piece of work with the network, if anything. What
/// could not be read is only said of the article that is open.
pub open spec fn network_text(event: network_worker::Event, open: Option<Seq<char>>) -> Option<
    Seq<char>,
> {
    match event {
        network_worker::Event::FeedAdded { feed_id: _, articles } => Some(
            "Feed added with "@ + counted(articles as nat, " article"@),
        ),
        network_worker::Event::DiscoveryCandidates(list) => if list@.len() == 0 {
            Some("No feeds were discovered"@)
        } else {
            None
        },
        network_worker::Event::DiscoveredFeedsAdded { added, articles, failures } => Some(
            additions_text(added as nat, articles as nat, views(failures@)),
        ),
        network_worker::Event::FeedRefreshed { inserted, failed } => Some(
            if failed {
                "Feed refresh failed; existing articles were preserved"@
            } else if inserted == 0 {
                "Feed is unchanged"@
            } else {
                "Added "@ + counted(inserted as nat, " new article"@)
            },
        ),
        network_worker::Event::RefreshComplete(summary) => Some(refresh_text(summary)),
        network_worker::Event::ArticleExtractionFailed { article_id, error } => if open == Some(
            article_id@,
        ) {
            Some(error@)
        } else {
            None
        },
        network_worker::Event::Error(error) => Some(error@),
        _ => None,
    }
}

/// What the window says of `event`, where the article `open` is open.
pub fn network_notice(event: &network_worker::Event, open: Option<&str>) -> (r: Option<String>)
    ensures
        view_of(r) == network_text(*event, crate::identity::borrowed(open)),
{
    match event {
        network_worker::Event::FeedAdded { feed_id: _, articles } => {
            let mut out = "Feed added with ".to_owned();
            write_counted(&mut out, *articles, " article");
            Some(out)
        },
        network_worker::Event::DiscoveryCandidates(list) => {
            if list.len() == 0 {
                Some("No feeds were discovered".to_owned())
            } else {
                None
            }
        },
        network_worker::Event::DiscoveredFeedsAdded { added, articles, failures } => {
            let mut out = "Added ".to_owned();
            write_counted(&mut out, *added, " feed");
            out.append(" with ");
            write_counted(&mut out, *articles, " article");
            assert(views(failures@).len() == failures@.len());
            if failures.len() > 0 {
                out.append("; couldn’t add ");
                let names = joined(failures, ", ");
                out.append(names.as_str());
            }
            Some(out)
        },
        network_worker::Event::FeedRefreshed { inserted, failed } => {
            if *failed {
                Some("Feed refresh failed; existing articles were preserved".to_owned())
            } else if *inserted == 0 {
                Some("Feed is unchanged".to_owned())
            } else {
                let mut out = "Added ".to_owned();
                write_counted(&mut out, *inserted, " new article");
                Some(out)
            }
        },
        network_worker::Event::RefreshComplete(summary) => {
            let mut out = "Refresh complete: ".to_owned();
            let successful = decimal_text(summary.successful as u64);
            out.append(successful.as_str());
            out.append(" updated, ");
            let unchanged = decimal_text(summary.unchanged as u64);
            out.append(unchanged.as_str());
            out.append(" unchanged, ");
            let failed = decimal_text(summary.failed as u64);
            out.append(failed.as_str());
            out.append(" failed");
            Some(out)
        },
        network_worker::Event::ArticleExtractionFailed { article_id, error } => match open {
            Some(id) => if same(id, article_id.as_str()) {
                Some(error.clone())
            } else {
                None
            },
            None => None,
        },
        network_worker::Event::Error(error) => Some(error.clone()),
        _ => None,
    }
}

/// What the window does behind a piece of work with the network.
#[derive(Debug, Clone, Copy, PartialEq, Eq, Structural)]
pub enum FollowUp {
    /// The sidebar is counted anew and the articles in view are listed anew.
    ReloadAll,
    /// The sidebar is counted anew and the articles of the new feed are listed.
    ReloadFeed,
    /// The sidebar is counted anew.
    ReloadNavigation,
    Nothing,
}

/// What the window does behind `event`.
pub fn network_follow_up(event: &network_worker::Event) -> (r: FollowUp)
    ensures
        r == match event {
            network_worker::Event::FeedAdded { .. } => FollowUp::ReloadFeed,
            network_worker::Event::DiscoveredFeedsAdded { .. } => FollowUp::ReloadAll,
            network_worker::Event::FeedRefreshed { .. } => FollowUp::ReloadAll,
            network_worker::Event::RefreshComplete(_) => FollowUp::ReloadAll,
            network_worker::Event::FaviconsDiscovered(list) => if list@.len() > 0 {
                FollowUp::ReloadNavigation
            } else {
                FollowUp::Nothing
            },
            _ => FollowUp::Nothing,
        },
{
    match event {
        network_worker::Event::FeedAdded { .. } => FollowUp::ReloadFeed,
        network_worker::Event::DiscoveredFeedsAdded { .. } => FollowUp::ReloadAll,
        network_worker::Event::FeedRefreshed { .. } => FollowUp::ReloadAll,
        network_worker::Event::RefreshComplete(_) => FollowUp::ReloadAll,
        network_worker::Event::FaviconsDiscovered(list) => if list.len() > 0 {
            FollowUp::ReloadNavigation
        } else {
            FollowUp::Nothing
        },
        _ => FollowUp::Nothing,
    }
}

/// What the window does behind an answer of the library: where something
/// changed, all is shown anew.
pub fn library_follow_up(event: &Event) -> (r: FollowUp)
    ensures
        r == match event {
            Event::MutationComplete => FollowUp::ReloadAll,
            Event::Notice(_) => FollowUp::ReloadAll,
            _ => FollowUp::Nothing,
        },
{
    match event {
        Event::MutationComplete => FollowUp::ReloadAll,
        Event::Notice(_) => FollowUp::ReloadAll,
        _ => FollowUp::Nothing,
    }
}

/// What the window says of an answer of the library, if anything.
pub fn library_notice(event: &Event) -> (r: Option<String>)
    ensures
        view_of(r) == match event {
            Event::Notice(text) => Some(text@),
            Event::Error(text) => Some(text@),
            _ => None,
        },
{
    match event {
        Event::Notice(text) => Some(text.clone()),
        Event::Error(text) => Some(text.clone()),
        _ => None,
    }
}

/// What the window says of the work on backups, if anything.
pub open spec fn backup_text(event: nostr_worker::Event) -> Option<Seq<char>> {
    match event {
        nostr_worker::Event::Configured(identity) => Some(
            "Nostr backup configured as "@ + identity.npub@,
        ),
        nostr_worker::Event::BackupComplete { successful, failed } => Some(
            "Encrypted backup accepted by "@ + counted(successful as nat, " relay"@) + if failed
                > 0 {
                "; "@ + decimal(failed as nat) + " failed"@
            } else {
                Seq::empty()
            },
        ),
        nostr_worker::Event::RestoreComplete { added, duplicates } => Some(
            "Restore complete: "@ + decimal(added as nat) + " added, "@ + decimal(
                duplicates as nat,
            ) + " already present"@,
        ),
        nostr_worker::Event::KeyRemoved => Some("Nostr key removed from secure storage"@),
        nostr_worker::Event::Error(error) => Some("Nostr backup: "@ + error@),
        _ => None,
    }
}

/// What the window says of `event`.
pub fn backup_notice(event: &nostr_worker::Event) -> (r: Option<String>)
    ensures
        view_of(r) == backup_text(*event),
{
    match event {
        nostr_worker::Event::Configured(identity) => {
            let mut out = "Nostr backup configured as ".to_owned();
            out.append(identity.npub.as_str());
            Some(out)
        },
        nostr_worker::Event::BackupComplete { successful, failed } => {
            let mut out = "Encrypted backup accepted by ".to_owned();
            write_counted(&mut out, *successful, " relay");
            let ghost said = out@;
            if *failed > 0 {
                out.append("; ");
                let number = decimal_text(*failed as u64);
                out.append(number.as_str());
                out.append(" failed");
                assert(out@ == said + ("; "@ + decimal(*failed as nat) + " failed"@));
            } else {
                assert(out@ == said + Seq::<char>::empty());
            }
            Some(out)
        },
        nostr_worker::Event::RestoreComplete { added, duplicates } => {
            let mut out = "Restore complete: ".to_owned();
            let fresh = decimal_text(*added as u64);
            out.append(fresh.as_str());
            out.append(" added, ");
            let known = decimal_text(*duplicates as u64);
            out.append(known.as_str());
            out.append(" already present");
            Some(out)
        },
        nostr_worker::Event::KeyRemoved => Some(
            "Nostr key removed from secure storage".to_owned(),
        ),
        nostr_worker::Event::Error(error) => {
            let mut out = "Nostr backup: ".to_owned();
            out.append(error.as_str());
            Some(out)
        },
        _ => None,
    }
}

/// What the compact window says of the state of things.
#[derive(Debug, PartialEq, Eq)]
pub struct SyncStatus {
    pub healthy: bool,
    pub value: String,
    pub detail: String,
    pub status: String,
}

/// What the compact window says of the refresh of all feeds.
pub fn sync_status(summary: &RefreshSummary) -> (r: SyncStatus)
    ensures
        r.healthy == (summary.failed == 0),
        r.value@ == (if summary.failed == 0 {
            "SYNCED"@
        } else {
            "DEGRADED"@
        }),
        r.detail@ == (if summary.failed == 0 {
            "JUST NOW"@
        } else {
            decimal(summary.failed as nat) + " FAILED"@
        }),
        r.status@ == "SYNC "@ + (if summary.failed == 0 {
            "COMPLETE"@
        } else {
            "DEGRADED"@
        }) + "  //  "@ + decimal(summary.completed as nat) + " COMPLETE  //  "@ + decimal(
            summary.failed as nat,
        ) + " FAILED"@,
{
    let healthy = summary.failed == 0;
    let failed = decimal_text(summary.failed as u64);
    let completed = decimal_text(summary.completed as u64);
    let detail = if healthy {
        "JUST NOW".to_owned()
    } else {
        let mut text = failed.clone();
        text.append(" FAILED");
        text
    };
    let mut status = "SYNC ".to_owned();
    status.append(
        if healthy {
            "COMPLETE"
        } else {
            "DEGRADED"
        },
    );
    status.append("  //  ");
    status.append(completed.as_str());
    status.append(" COMPLETE  //  ");
    status.append(failed.as_str());
    status.append(" FAILED");
    SyncStatus {
        healthy,
        value: if healthy {
            "SYNCED".to_owned()
        } else {
            "DEGRADED".to_owned()
        },
        detail,
        status,
    }
}

/// The articles that the compact window lists: the first forty.
pub fn signal_rows(items: Vec<ArticleListItem>) -> (r: Vec<ArticleListItem>)
    ensures
        list_item_views(r@) == (if items@.len() > MAX_SIGNAL_ROWS {
            list_item_views(items@).take(MAX_SIGNAL_ROWS as int)
        } else {
            list_item_views(items@)
        }),
{
    let ghost all = list_item_views(items@);
    if items.len() <= MAX_SIGNAL_ROWS {
        return items;
    }
    let mut out: Vec<ArticleListItem> = Vec::new();
    let mut i: usize = 0;
    while i < MAX_SIGNAL_ROWS
        invariant
            i <= MAX_SIGNAL_ROWS < items@.len(),
            all == list_item_views(items@),
            out@.len() == i,
            forall|j: int| 0 <= j < i ==> #[trigger] out@[j]@ == all[j],
        decreases MAX_SIGNAL_ROWS - i,
    {
        out.push(items[i].clone());
        i += 1;
    }
    assert(list_item_views(out@) == all.take(MAX_SIGNAL_ROWS as int));
    out
}

} // verus!
