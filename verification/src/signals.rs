//! The compact window: which articles it lists, what its keys mean and what it
//! says.

use crate::desk::{item_at, row_after, MAX_SIGNAL_ROWS};
use crate::parser::copied;
use crate::presentation::{age_text, concise, cut_off, relative_time, seconds_since};
use crate::records::{
    list_item_views, ArticleListItem, FullArticle, FullArticleView, ListItemView,
};
use crate::text::{same, view_of};
use vstd::prelude::*;

verus! {

/// The lines of the help.
pub const HELP: [&'static str; 10] = [
    "FEEDLIZARD // KEYS",
    "",
    "j / k       next / previous article",
    "enter       preview + mark read",
    "r           read / unread",
    "s           star / unstar",
    "o           open original",
    "shift + r   refresh feeds",
    "?           toggle this reference",
    "q / escape  back or dismiss",
];

/// What `str::to_uppercase` makes of a text.
pub uninterp spec fn capitals(text: Seq<char>) -> Seq<char>;

/// `str::to_uppercase`: the text in capitals, by Unicode's rules, which depends
/// on the text alone.
#[verifier::external_body]
fn to_capitals(text: &str) -> (r: String)
    ensures
        r@ == capitals(text@),
{
    text.to_uppercase()
}

/// A key.
#[derive(Debug, Clone, Copy, PartialEq, Eq, Structural)]
pub enum Key {
    Down,
    Up,
    Enter,
    Read,
    Star,
    Original,
    Refresh,
    Help,
    Back,
    Other,
}

/// What the window shows.
#[derive(Debug, Clone, Copy, PartialEq, Eq, Structural)]
pub enum Shown {
    Articles,
    Nothing,
    Preview,
}

/// What a key means.
#[derive(Debug, PartialEq, Eq)]
pub enum KeyAction {
    Select(usize),
    /// An article is opened, and noted as read where it was not.
    Preview { id: String, unread: bool },
    SetRead { id: String, read: bool },
    SetStarred { id: String, starred: bool },
    OpenOriginal(String),
    Refresh,
    ShowHelp(bool),
    ShowArticles,
    Close,
    Nothing,
    PassOn,
}

/// What a [`KeyAction`] holds.
pub enum ActionView {
    Select(int),
    Preview { id: Seq<char>, unread: bool },
    SetRead { id: Seq<char>, read: bool },
    SetStarred { id: Seq<char>, starred: bool },
    OpenOriginal(Seq<char>),
    Refresh,
    ShowHelp(bool),
    ShowArticles,
    Close,
    Nothing,
    PassOn,
}

impl View for KeyAction {
    type V = ActionView;

    open spec fn view(&self) -> ActionView {
        match self {
            KeyAction::Select(row) => ActionView::Select(*row as int),
            KeyAction::Preview { id, unread } => ActionView::Preview { id: id@, unread: *unread },
            KeyAction::SetRead { id, read } => ActionView::SetRead { id: id@, read: *read },
            KeyAction::SetStarred { id, starred } => ActionView::SetStarred {
                id: id@,
                starred: *starred,
            },
            KeyAction::OpenOriginal(url) => ActionView::OpenOriginal(url@),
            KeyAction::Refresh => ActionView::Refresh,
            KeyAction::ShowHelp(on) => ActionView::ShowHelp(*on),
            KeyAction::ShowArticles => ActionView::ShowArticles,
            KeyAction::Close => ActionView::Close,
            KeyAction::Nothing => ActionView::Nothing,
            KeyAction::PassOn => ActionView::PassOn,
        }
    }
}

/// The compact window.
pub struct Signals {
    items: Vec<ArticleListItem>,
    shown: Shown,
    help: bool,
    original: Option<String>,
}

/// What a [`Signals`] holds: the articles, what is shown, whether the help lies
/// over it, and the address of the article that was opened last.
pub struct SignalsView {
    pub items: Seq<ListItemView>,
    pub shown: Shown,
    pub help: bool,
    pub original: Option<Seq<char>>,
}

impl View for Signals {
    type V = SignalsView;

    closed spec fn view(&self) -> SignalsView {
        SignalsView {
            items: list_item_views(self.items@),
            shown: self.shown,
            help: self.help,
            original: view_of(self.original),
        }
    }
}

/// The row that a step leads to in the compact window; where no row is chosen,
/// it is counted from before the first.
pub open spec fn signal_row(current: Option<int>, delta: int, count: int) -> Option<int> {
    row_after(
        match current {
            Some(row) => Some(row),
            None => Some(-1),
        },
        delta,
        count,
    )
}

/// What a step by `delta` means.
pub open spec fn step_action(window: SignalsView, selected: Option<int>, delta: int) -> ActionView {
    if window.shown != Shown::Articles {
        ActionView::Nothing
    } else {
        match signal_row(selected, delta, window.items.len() as int) {
            Some(row) => ActionView::Select(row),
            None => ActionView::Nothing,
        }
    }
}

/// The article in a row.
pub open spec fn item_in(window: SignalsView, selected: Option<int>) -> Option<ListItemView> {
    match selected {
        Some(row) if 0 <= row < window.items.len() => Some(window.items[row]),
        _ => None,
    }
}

/// What a key means.
pub open spec fn key_action(window: SignalsView, key: Key, selected: Option<int>) -> ActionView {
    match key {
        Key::Down => step_action(window, selected, 1),
        Key::Up => step_action(window, selected, -1),
        Key::Enter => match item_in(window, selected) {
            Some(item) if window.shown == Shown::Articles => ActionView::Preview {
                id: item.stable_id,
                unread: item.is_unread,
            },
            _ => ActionView::Nothing,
        },
        Key::Read => match item_in(window, selected) {
            Some(item) => ActionView::SetRead { id: item.stable_id, read: item.is_unread },
            None => ActionView::Nothing,
        },
        Key::Star => match item_in(window, selected) {
            Some(item) => ActionView::SetStarred { id: item.stable_id, starred: !item.is_starred },
            None => ActionView::Nothing,
        },
        Key::Original => match window.original {
            Some(url) => ActionView::OpenOriginal(url),
            None => match item_in(window, selected) {
                Some(item) => match item.article_url {
                    Some(url) => ActionView::OpenOriginal(url),
                    None => ActionView::Nothing,
                },
                None => ActionView::Nothing,
            },
        },
        Key::Refresh => ActionView::Refresh,
        Key::Help => ActionView::ShowHelp(!window.help),
        Key::Back => if window.help {
            ActionView::ShowHelp(false)
        } else if window.shown == Shown::Preview {
            ActionView::ShowArticles
        } else {
            ActionView::Close
        },
        Key::Other => ActionView::PassOn,
    }
}

/// The window after a key.
pub open spec fn after_key(window: SignalsView, key: Key, selected: Option<int>) -> SignalsView {
    match key_action(window, key, selected) {
        ActionView::ShowHelp(on) => SignalsView { help: on, ..window },
        ActionView::ShowArticles => SignalsView { shown: Shown::Articles, ..window },
        _ => window,
    }
}

/// A row as a whole number.
pub open spec fn row_view(row: Option<usize>) -> Option<int> {
    match row {
        Some(at) => Some(at as int),
        None => None,
    }
}

impl Signals {
    /// A window that shows nothing yet.
    pub fn new() -> (r: Signals)
        ensures
            r@.items.len() == 0,
            r@.shown == Shown::Nothing,
            !r@.help,
            r@.original is None,
    {
        Signals { items: Vec::new(), shown: Shown::Nothing, help: false, original: None }
    }

    /// The articles that are listed.
    pub fn items(&self) -> (r: &Vec<ArticleListItem>)
        ensures
            list_item_views(r@) == self@.items,
    {
        &self.items
    }

    /// What is shown.
    pub fn shown(&self) -> (r: Shown)
        ensures
            r == self@.shown,
    {
        self.shown
    }

    /// Lists the first of the articles that arrived.
    pub fn articles_arrived(&mut self, items: Vec<ArticleListItem>)
        ensures
            final(self)@ == (SignalsView {
                items: if items@.len() > MAX_SIGNAL_ROWS {
                    list_item_views(items@).take(MAX_SIGNAL_ROWS as int)
                } else {
                    list_item_views(items@)
                },
                shown: if items@.len() == 0 {
                    Shown::Nothing
                } else {
                    Shown::Articles
                },
                ..old(self)@
            }),
    {
        self.shown = if items.len() == 0 {
            Shown::Nothing
        } else {
            Shown::Articles
        };
        self.items = crate::desk::signal_rows(items);
    }

    /// Shows a first look at `article`.
    pub fn preview_arrived(&mut self, article: &FullArticle)
        ensures
            final(self)@ == (SignalsView {
                shown: Shown::Preview,
                original: article@.url,
                ..old(self)@
            }),
    {
        self.shown = Shown::Preview;
        self.original = copied(&article.url);
    }

    fn step(&self, selected: Option<usize>, delta: i32) -> (r: KeyAction)
        requires
            delta == 1 || delta == -1,
        ensures
            r@ == step_action(self@, row_view(selected), delta as int),
    {
        let count: usize = self.items.len();
        assert(self@.items.len() == count);
        if self.shown != Shown::Articles || count == 0 {
            return KeyAction::Nothing;
        }
        let row: usize = match selected {
            None => 0,
            Some(at) => if delta == 1 {
                if at >= count - 1 {
                    count - 1
                } else {
                    at + 1
                }
            } else if at == 0 {
                0
            } else if at >= count {
                count - 1
            } else {
                at - 1
            },
        };
        KeyAction::Select(row)
    }

    fn item(&self, selected: Option<usize>) -> (r: Option<&ArticleListItem>)
        ensures
            match r {
                Some(item) => item_in(self@, row_view(selected)) == Some(item@),
                None => item_in(self@, row_view(selected)) is None,
            },
    {
        let count: usize = self.items.len();
        assert(self@.items.len() == count);
        match selected {
            Some(row) => if row < count {
                assert(self@.items[row as int] == self.items@[row as int]@);
                Some(&self.items[row])
            } else {
                None
            },
            None => None,
        }
    }

    /// What `key` means where the row `selected` is chosen.
    pub fn press(&mut self, key: Key, selected: Option<usize>) -> (r: KeyAction)
        ensures
            r@ == key_action(old(self)@, key, row_view(selected)),
            final(self)@ == after_key(old(self)@, key, row_view(selected)),
    {
        match key {
            Key::Down => self.step(selected, 1),
            Key::Up => self.step(selected, -1),
            Key::Enter => match self.item(selected) {
                Some(item) => if self.shown == Shown::Articles {
                    KeyAction::Preview { id: item.stable_id.clone(), unread: item.is_unread }
                } else {
                    KeyAction::Nothing
                },
                None => KeyAction::Nothing,
            },
            Key::Read => match self.item(selected) {
                Some(item) => KeyAction::SetRead {
                    id: item.stable_id.clone(),
                    read: item.is_unread,
                },
                None => KeyAction::Nothing,
            },
            Key::Star => match self.item(selected) {
                Some(item) => KeyAction::SetStarred {
                    id: item.stable_id.clone(),
                    starred: !item.is_starred,
                },
                None => KeyAction::Nothing,
            },
            Key::Original => match &self.original {
                Some(url) => KeyAction::OpenOriginal(url.clone()),
                None => match self.item(selected) {
                    Some(item) => match &item.article_url {
                        Some(url) => KeyAction::OpenOriginal(url.clone()),
                        None => KeyAction::Nothing,
                    },
                    None => KeyAction::Nothing,
                },
            },
            Key::Refresh => KeyAction::Refresh,
            Key::Help => {
                self.help = !self.help;
                KeyAction::ShowHelp(self.help)
            },
            Key::Back => {
                if self.help {
                    self.help = false;
                    KeyAction::ShowHelp(false)
                } else if self.shown == Shown::Preview {
                    self.shown = Shown::Articles;
                    KeyAction::ShowArticles
                } else {
                    KeyAction::Close
                }
            },
            Key::Other => KeyAction::PassOn,
        }
    }

    fn place_of(&self, id: &str) -> (r: Option<usize>)
        ensures
            match r {
                Some(i) => item_at(self@.items, id@, 0) == Some(i as int) && i < self.items@.len(),
                None => item_at(self@.items, id@, 0) is None,
            },
    {
        let ghost all = self@.items;
        let mut i: usize = 0;
        while i < self.items.len()
            invariant
                i <= self.items@.len(),
                all == list_item_views(self.items@),
                all == self@.items,
                item_at(all, id@, 0) == item_at(all, id@, i as int),
            decreases self.items@.len() - i,
        {
            assert(all[i as int] == self.items@[i as int]@);
            if same(self.items[i].stable_id.as_str(), id) {
                return Some(i);
            }
            i += 1;
        }
        None
    }

    /// The article `id` was read, or is to be read again. Gives the row of the
    /// article, and what is said of it.
    pub fn read_changed(&mut self, id: &str, read: bool) -> (r: (Option<usize>, &'static str))
        ensures
            row_view(r.0) == item_at(old(self)@.items, id@, 0),
            r.1@ == (if read {
                "ARTICLE MARKED READ"@
            } else {
                "ARTICLE MARKED UNREAD"@
            }),
            final(self)@ == (SignalsView {
                items: match item_at(old(self)@.items, id@, 0) {
                    Some(i) => old(self)@.items.update(
                        i,
                        ListItemView { is_unread: !read, ..old(self)@.items[i] },
                    ),
                    None => old(self)@.items,
                },
                ..old(self)@
            }),
    {
        let ghost all = self@.items;
        let place = self.place_of(id);
        if let Some(i) = place {
            let mut item = self.items[i].clone();
            item.is_unread = !read;
            self.items.set(i, item);
            assert(list_item_views(self.items@) == all.update(i as int, item@));
        }
        (
            place,
            if read {
                "ARTICLE MARKED READ"
            } else {
                "ARTICLE MARKED UNREAD"
            },
        )
    }

    /// The article `id` got a star or lost it. Gives the row of the article, and
    /// what is said of it.
    pub fn starred_changed(&mut self, id: &str, starred: bool) -> (r: (
        Option<usize>,
        &'static str,
    ))
        ensures
            row_view(r.0) == item_at(old(self)@.items, id@, 0),
            r.1@ == (if starred {
                "ARTICLE STARRED"@
            } else {
                "ARTICLE UNSTARRED"@
            }),
            final(self)@ == (SignalsView {
                items: match item_at(old(self)@.items, id@, 0) {
                    Some(i) => old(self)@.items.update(
                        i,
                        ListItemView { is_starred: starred, ..old(self)@.items[i] },
                    ),
                    None => old(self)@.items,
                },
                ..old(self)@
            }),
    {
        let ghost all = self@.items;
        let place = self.place_of(id);
        if let Some(i) = place {
            let mut item = self.items[i].clone();
            item.is_starred = starred;
            self.items.set(i, item);
            assert(list_item_views(self.items@) == all.update(i as int, item@));
        }
        (
            place,
            if starred {
                "ARTICLE STARRED"
            } else {
                "ARTICLE UNSTARRED"
            },
        )
    }
}

/// The window is only left with nothing over the articles: help and preview are
/// closed first.
pub proof fn law_back_leads_out_step_by_step(window: SignalsView, selected: Option<int>)
    ensures
        key_action(window, Key::Back, selected) is Close <==> !window.help && window.shown
            != Shown::Preview,
        ({
            let once = after_key(window, Key::Back, selected);
            let twice = after_key(once, Key::Back, selected);
            key_action(twice, Key::Back, selected) is Close
        }),
{
}

/// A step of the selection leads to a row of the list.
pub proof fn law_steps_lead_to_rows(window: SignalsView, selected: Option<int>, delta: int)
    ensures
        match step_action(window, selected, delta) {
            ActionView::Select(row) => 0 <= row < window.items.len(),
            other => other is Nothing,
        },
{
}

/// What is said where something failed: where, and why, cut off.
pub open spec fn failure_text(place: Seq<char>, error: Seq<char>, limit: nat) -> Seq<char> {
    place + " // "@ + cut_off(error, limit)
}

/// What is said where something failed at `place`.
pub fn failure_line(place: &str, error: &str, limit: usize) -> (r: String)
    ensures
        r@ == failure_text(place@, error@, limit as nat),
{
    let mut out = place.to_owned();
    out.append(" // ");
    let short = concise(error, limit);
    out.append(short.as_str());
    out
}

/// What is said of an answer: in capitals.
pub fn notice_line(notice: &str) -> (r: String)
    ensures
        r@ == capitals(notice@),
{
    to_capitals(notice)
}

/// The time that counts for an article: of its publication, else of its change,
/// else of its arrival.
pub open spec fn own_time(article: FullArticleView) -> i64 {
    match article.published_at {
        Some(time) => time,
        None => match article.updated_at {
            Some(time) => time,
            None => article.inserted_at,
        },
    }
}

/// What is said of an article above a first look at it: its feed and its age,
/// where `feed` is the name of the feed as it is written there.
pub open spec fn preview_meta(feed: Seq<char>, article: FullArticleView, now: i64) -> Seq<char> {
    feed + "  //  "@ + age_text(seconds_since(own_time(article), now))
}

/// What is said of `article` above a first look at it, where `feed` is written
/// for its feed.
pub fn write_preview_meta(feed: &str, article: &FullArticle, now: i64) -> (r: String)
    ensures
        r@ == preview_meta(feed@, article@, now),
{
    let time: i64 = match article.published_at {
        Some(time) => time,
        None => match article.updated_at {
            Some(time) => time,
            None => article.inserted_at,
        },
    };
    let mut out = feed.to_owned();
    out.append("  //  ");
    let age = relative_time(time, now);
    out.append(age.as_str());
    out
}

/// What is said of `article` above a first look at it: its feed in capitals and
/// its age.
pub fn preview_line(article: &FullArticle, now: i64) -> (r: String)
    ensures
        r@ == preview_meta(capitals(article@.feed_name), article@, now),
{
    let feed = to_capitals(article.feed_name.as_str());
    write_preview_meta(feed.as_str(), article, now)
}

} // verus!
