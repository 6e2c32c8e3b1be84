//! The state of the reader, and what each key and each outcome does to it.

use crate::article::{ahead, law_next_unread, next_unread, next_unread_index, ArticleData, ArticleRow};
use crate::comment::comment_tags;
use crate::feed::text_or;
use crate::query::{article_query, query_for, ArticleQuery, QueryData};
use crate::style::{Style, StyleCodes};
use crate::terminal::Key;
use crate::text::{
    all_space, count_text, decimal, is_trimmed, law_trimmed, signed_decimal, signed_text, trim,
    trim_text, words,
};
use crate::view::{law_position, position, position_of, ArticleView, ViewData};
use vstd::prelude::*;

verus! {

/// A stored feed.
#[derive(Debug)]
pub struct FeedRow {
    pub id: i64,
    pub url: String,
    pub title: String,
}

/// A stored feed as plain values.
pub struct FeedData {
    pub id: i64,
    pub url: Seq<char>,
    pub title: Seq<char>,
}

impl DeepView for FeedRow {
    type V = FeedData;

    open spec fn deep_view(&self) -> FeedData {
        FeedData { id: self.id, url: self.url@, title: self.title@ }
    }
}

impl Clone for FeedRow {
    fn clone(&self) -> (copy: Self)
        ensures
            copy.deep_view() == self.deep_view(),
    {
        FeedRow { id: self.id, url: self.url.clone(), title: self.title.clone() }
    }
}

/// The state of the reader: the feeds and articles that are listed, which of
/// them are selected, and what else the screen shows.
pub struct App {
    pub feeds: Vec<FeedRow>,
    pub articles: Vec<ArticleRow>,
    pub feed_idx: usize,
    pub article_idx: usize,
    pub focus_feeds: bool,
    pub global_mode: bool,
    pub search: String,
    pub status: String,
    pub db_path: String,
    pub style: Style,
    pub auto_refresh_secs: u64,
}

/// The state of the reader as plain values.
pub struct AppData {
    pub feeds: Seq<FeedData>,
    pub articles: Seq<ArticleData>,
    pub feed_idx: int,
    pub article_idx: int,
    pub focus_feeds: bool,
    pub global_mode: bool,
    pub search: Seq<char>,
    pub status: Seq<char>,
    pub db_path: Seq<char>,
    pub style: StyleCodes,
    pub auto_refresh_secs: u64,
}

impl DeepView for App {
    type V = AppData;

    open spec fn deep_view(&self) -> AppData {
        AppData {
            feeds: self.feeds.deep_view(),
            articles: self.articles.deep_view(),
            feed_idx: self.feed_idx as int,
            article_idx: self.article_idx as int,
            focus_feeds: self.focus_feeds,
            global_mode: self.global_mode,
            search: self.search@,
            status: self.status@,
            db_path: self.db_path@,
            style: self.style.deep_view(),
            auto_refresh_secs: self.auto_refresh_secs,
        }
    }
}

/// An index into a list of `len` entries, or zero where there are none.
pub open spec fn within(idx: int, len: nat) -> bool {
    idx == 0 || 0 < idx < len
}

/// The last index of a list of `len` entries for an index beyond it.
pub open spec fn clamped(idx: int, len: nat) -> int {
    if idx < len {
        idx
    } else if len > 0 {
        len - 1
    } else {
        0
    }
}

/// Brings an index back into a list of `len` entries.
fn clamp(idx: usize, len: usize) -> (out: usize)
    ensures
        out == clamped(idx as int, len as nat),
{
    if idx < len {
        idx
    } else if len > 0 {
        len - 1
    } else {
        0
    }
}

impl AppData {
    /// What is selected is among what is listed.
    pub open spec fn wf(self) -> bool {
        &&& within(self.feed_idx, self.feeds.len())
        &&& within(self.article_idx, self.articles.len())
    }

    /// The feed whose articles are listed, where it is not those of all feeds.
    pub open spec fn shown_feed(self) -> Option<i64> {
        if self.global_mode {
            None
        } else if self.feed_idx < self.feeds.len() {
            Some(self.feeds[self.feed_idx].id)
        } else {
            None
        }
    }

    /// The same state with new feeds.
    pub open spec fn with_feeds(self, feeds: Seq<FeedData>) -> AppData {
        AppData { feeds, feed_idx: clamped(self.feed_idx, feeds.len()), ..self }
    }

    /// The same state with new articles.
    pub open spec fn with_articles(self, articles: Seq<ArticleData>) -> AppData {
        AppData { articles, article_idx: clamped(self.article_idx, articles.len()), ..self }
    }

    /// The same state with another status line.
    pub open spec fn saying(self, status: Seq<char>) -> AppData {
        AppData { status, ..self }
    }

    /// The status line with the number of feeds and articles.
    pub open spec fn counts(self, prefix: Seq<char>) -> Seq<char> {
        prefix + " (feeds="@ + decimal(self.feeds.len()) + ", articles="@ + decimal(
            self.articles.len(),
        ) + ", mode="@ + mode_name(self.global_mode) + ")"@
    }

    /// The article that is selected, where there is one.
    pub open spec fn selected(self) -> Option<ArticleData> {
        if self.article_idx < self.articles.len() {
            Some(self.articles[self.article_idx])
        } else {
            None
        }
    }
}

/// The name of the mode: the articles of all feeds, or those of one.
pub open spec fn mode_name(global_mode: bool) -> Seq<char> {
    if global_mode {
        "global"@
    } else {
        "feed"@
    }
}

/// The name of the mode: the articles of all feeds, or those of one.
pub fn mode_text(global_mode: bool) -> (name: &'static str)
    ensures
        name@ == mode_name(global_mode),
{
    if global_mode {
        "global"
    } else {
        "feed"
    }
}

/// The status line before anything else is said.
pub const HELP: &'static str = "j/k chrono, n unread, c comment, g global, r refresh, q quit";

/// Why the feeds are fetched.
#[derive(Clone, Copy, Debug, PartialEq, Eq, Structural)]
pub enum Trigger {
    /// The reader starts without any article.
    Start,
    /// A key asked for it.
    Key,
    /// The time for it has come.
    Timer,
}

/// Why the lists are loaded again.
#[derive(Clone, Copy, Debug, PartialEq, Eq, Structural)]
pub enum Reason {
    Start,
    Moved,
    ViewSwitched,
    /// The feeds were fetched, with so many new articles and so many failures.
    Refreshed(Trigger, usize, usize),
    Searched,
    FeedAdded,
    /// A comment was saved as the document with this number.
    CommentSaved(i64),
    /// The article with this number was the last one read.
    ArticleRead(i64),
}

/// What is asked in a prompt.
#[derive(Debug)]
pub enum Question {
    Search,
    FeedUrl,
    Comment,
    /// The tags for a comment that has been typed.
    Tags(String),
}

/// What is asked in a prompt, as plain values.
pub enum QuestionData {
    Search,
    FeedUrl,
    Comment,
    Tags(Seq<char>),
}

impl DeepView for Question {
    type V = QuestionData;

    open spec fn deep_view(&self) -> QuestionData {
        match self {
            Question::Search => QuestionData::Search,
            Question::FeedUrl => QuestionData::FeedUrl,
            Question::Comment => QuestionData::Comment,
            Question::Tags(comment) => QuestionData::Tags(comment@),
        }
    }
}

/// What is to be done outside the reader.
#[derive(Debug)]
pub enum Action {
    /// Wait for the next key.
    Wait,
    /// End the program.
    Quit,
    /// Load the feeds and the articles.
    Reload(Reason),
    /// Fetch all feeds.
    Refresh(Trigger),
    /// Ask a question in a prompt.
    Ask(Question),
    /// Store a feed, and load the lists.
    AddFeed(String, Reason),
    /// Save a comment with its tags.
    SaveComment(ArticleRow, String, Vec<String>),
    /// Mark an article as read, and load the lists.
    MarkRead(i64, Reason),
    /// Open an address in a browser.
    Open(String),
    /// Show the articles of all feeds one by one.
    Read,
}

/// What is to be done outside the reader, as plain values.
pub enum ActionData {
    Wait,
    Quit,
    Reload(Reason),
    Refresh(Trigger),
    Ask(QuestionData),
    AddFeed(Seq<char>, Reason),
    SaveComment(ArticleData, Seq<char>, Seq<Seq<char>>),
    MarkRead(i64, Reason),
    Open(Seq<char>),
    Read,
}

impl DeepView for Action {
    type V = ActionData;

    open spec fn deep_view(&self) -> ActionData {
        match self {
            Action::Wait => ActionData::Wait,
            Action::Quit => ActionData::Quit,
            Action::Reload(reason) => ActionData::Reload(*reason),
            Action::Refresh(trigger) => ActionData::Refresh(*trigger),
            Action::Ask(question) => ActionData::Ask(question.deep_view()),
            Action::AddFeed(url, reason) => ActionData::AddFeed(url@, *reason),
            Action::SaveComment(article, comment, tags) => ActionData::SaveComment(
                article.deep_view(),
                comment@,
                tags.deep_view(),
            ),
            Action::MarkRead(id, reason) => ActionData::MarkRead(*id, *reason),
            Action::Open(url) => ActionData::Open(url@),
            Action::Read => ActionData::Read,
        }
    }
}

// ---------------------------------------------------------------------------
// What keys do
// ---------------------------------------------------------------------------

/// One feed or article further down, as far as there is one.
pub open spec fn moved_down(s: AppData) -> (AppData, ActionData) {
    if s.focus_feeds {
        if s.feed_idx + 1 < s.feeds.len() {
            after_feed_change(AppData { feed_idx: s.feed_idx + 1, article_idx: 0, ..s })
        } else {
            (s, ActionData::Wait)
        }
    } else if s.article_idx + 1 < s.articles.len() {
        (AppData { article_idx: s.article_idx + 1, ..s }, ActionData::Wait)
    } else {
        (s, ActionData::Wait)
    }
}

/// One feed or article further up, as far as there is one.
pub open spec fn moved_up(s: AppData) -> (AppData, ActionData) {
    if s.focus_feeds {
        if s.feed_idx > 0 {
            after_feed_change(AppData { feed_idx: s.feed_idx - 1, article_idx: 0, ..s })
        } else {
            (s, ActionData::Wait)
        }
    } else if s.article_idx > 0 {
        (AppData { article_idx: s.article_idx - 1, ..s }, ActionData::Wait)
    } else {
        (s, ActionData::Wait)
    }
}

/// The articles of another feed are loaded, unless those of all are listed.
pub open spec fn after_feed_change(s: AppData) -> (AppData, ActionData) {
    if s.global_mode {
        (s, ActionData::Wait)
    } else {
        (s, ActionData::Reload(Reason::Moved))
    }
}

/// What a key does in the lists.
pub open spec fn key_step(s: AppData, key: Key) -> (AppData, ActionData) {
    match key {
        Key::Char('q') => (s, ActionData::Quit),
        Key::Char('h') => (AppData { focus_feeds: true, ..s }, ActionData::Wait),
        Key::Char('l') => (AppData { focus_feeds: false, ..s }, ActionData::Wait),
        Key::Left => (AppData { focus_feeds: true, ..s }, ActionData::Wait),
        Key::Right => (AppData { focus_feeds: false, ..s }, ActionData::Wait),
        Key::Char('g') => (
            AppData { global_mode: !s.global_mode, article_idx: 0, ..s },
            ActionData::Reload(Reason::ViewSwitched),
        ),
        Key::Char('j') => moved_down(s),
        Key::Down => moved_down(s),
        Key::Char('k') => moved_up(s),
        Key::Up => moved_up(s),
        Key::Char('n') => match next_unread(s.articles, s.article_idx, 1) {
            Some(i) => (
                AppData { article_idx: i, status: "Jumped to next unread"@, ..s },
                ActionData::Wait,
            ),
            None => (s.saying("No unread in current view"@), ActionData::Wait),
        },
        Key::Char('r') => (s.saying("Refreshing feeds..."@), ActionData::Refresh(Trigger::Key)),
        Key::Char('R') => (s.saying("Refreshing feeds..."@), ActionData::Refresh(Trigger::Key)),
        Key::Char('/') => (s, ActionData::Ask(QuestionData::Search)),
        Key::Char('a') => (s, ActionData::Ask(QuestionData::FeedUrl)),
        Key::Char('c') => match s.selected() {
            Some(article) => (s, ActionData::Ask(QuestionData::Comment)),
            None => (s.saying("No article selected"@), ActionData::Wait),
        },
        Key::Char('o') => match s.selected() {
            Some(article) => (s, ActionData::Open(article.url)),
            None => (s.saying("No article selected"@), ActionData::Wait),
        },
        Key::Enter => match s.selected() {
            Some(article) => (s, ActionData::Read),
            None => (s, ActionData::Wait),
        },
        _ => (s, ActionData::Wait),
    }
}

// ---------------------------------------------------------------------------
// What outcomes do
// ---------------------------------------------------------------------------

/// The label of a question, and what its prompt starts with.
pub open spec fn prompt_for(s: AppData, question: QuestionData) -> (Seq<char>, Seq<char>) {
    match question {
        QuestionData::Search => ("Search (title/content):"@, s.search),
        QuestionData::FeedUrl => ("Add feed URL:"@, ""@),
        QuestionData::Comment => ("Comment:"@, ""@),
        QuestionData::Tags(comment) => ("Tags (space-separated):"@, "reading"@),
    }
}

/// What the answer to a question does.
pub open spec fn answer_step(
    s: AppData,
    question: QuestionData,
    answer: Option<Seq<char>>,
) -> (AppData, ActionData) {
    match question {
        QuestionData::Search => (
            AppData { search: text_or(answer, seq![]), article_idx: 0, ..s },
            ActionData::Reload(Reason::Searched),
        ),
        QuestionData::FeedUrl => match answer {
            Some(url) => (s, ActionData::AddFeed(url, Reason::FeedAdded)),
            None => (s, ActionData::Wait),
        },
        QuestionData::Comment => match answer {
            Some(comment) => (s, ActionData::Ask(QuestionData::Tags(comment))),
            None => (s, ActionData::Wait),
        },
        QuestionData::Tags(comment) => match s.selected() {
            Some(article) => (
                s,
                ActionData::SaveComment(article, comment, words(text_or(answer, "reading"@))),
            ),
            None => (s.saying("No article selected"@), ActionData::Wait),
        },
    }
}

/// How many articles came and how many feeds failed.
pub open spec fn refresh_line(trigger: Trigger, inserted: nat, failed: nat) -> Seq<char> {
    let start = match trigger {
        Trigger::Start => "Initial refresh: +"@,
        Trigger::Key => "Refresh done: +"@,
        Trigger::Timer => "Auto refresh: +"@,
    };
    start + decimal(inserted) + " new, failures="@ + decimal(failed)
}

/// The status line after a search.
pub open spec fn search_line(s: AppData) -> Seq<char> {
    let search = if s.search.len() == 0 {
        "(none)"@
    } else {
        s.search
    };
    "Search: "@ + search + " (articles="@ + decimal(s.articles.len()) + ")"@
}

/// The status line after a comment was saved.
pub open spec fn saved_line(document: i64) -> Seq<char> {
    "Saved comment to Thought Police (doc #"@ + signed_decimal(document as int) + ")"@
}

/// What follows once the lists have been loaded.
pub open spec fn reloaded_step(s: AppData, reason: Reason) -> (AppData, ActionData) {
    match reason {
        Reason::Start => if s.articles.len() == 0 && s.feeds.len() > 0 {
            (s, ActionData::Refresh(Trigger::Start))
        } else {
            (s.saying(s.counts("Ready"@)), ActionData::Wait)
        },
        Reason::Moved => (s, ActionData::Wait),
        Reason::ViewSwitched => (s.saying(s.counts("View switched"@)), ActionData::Wait),
        Reason::Refreshed(trigger, inserted, failed) => {
            let line = refresh_line(trigger, inserted as nat, failed as nat);
            let lists = " (feeds="@ + decimal(s.feeds.len()) + ", articles="@ + decimal(
                s.articles.len(),
            ) + ")"@;
            (
                s.saying(
                    if trigger == Trigger::Timer {
                        line
                    } else {
                        line + lists
                    },
                ),
                ActionData::Wait,
            )
        },
        Reason::Searched => (s.saying(search_line(s)), ActionData::Wait),
        Reason::FeedAdded => (s.saying(s.counts("Feed added"@)), ActionData::Wait),
        Reason::CommentSaved(document) => (s.saying(saved_line(document)), ActionData::Wait),
        Reason::ArticleRead(id) => match position(s.articles, id, 0) {
            Some(i) => (AppData { article_idx: i, ..s }, ActionData::Wait),
            None => (s, ActionData::Wait),
        },
    }
}

/// The status line after a comment that could not be saved.
pub open spec fn save_failed_line(error: Seq<char>) -> Seq<char> {
    "Comment save failed: "@ + error
}

/// The status line after an attempt to open an address.
pub open spec fn opened_line(outcome: Result<(), Seq<char>>) -> Seq<char> {
    match outcome {
        Ok(()) => "Opened article in browser"@,
        Err(e) => "Open failed: "@ + e,
    }
}

/// The status line after an attempt to show an image.
pub open spec fn image_line(outcome: Result<Seq<char>, Seq<char>>) -> Seq<char> {
    match outcome {
        Ok(said) => said,
        Err(e) => "Image failed: "@ + e,
    }
}

/// The question for the articles that are to be listed.
pub open spec fn wanted(s: AppData) -> QueryData {
    query_for(s.shown_feed(), trim(s.search))
}

/// What is to be done when no key came for `elapsed` seconds since the feeds were
/// last fetched.
pub open spec fn idle_action(elapsed: int, limit: int) -> ActionData {
    if elapsed >= limit {
        ActionData::Refresh(Trigger::Timer)
    } else {
        ActionData::Wait
    }
}

/// What follows once a comment on an article has been saved or not.
pub open spec fn comment_step(s: AppData, article_id: i64, outcome: Result<i64, Seq<char>>) -> (
    AppData,
    ActionData,
) {
    match outcome {
        Ok(document) => (s, ActionData::MarkRead(article_id, Reason::CommentSaved(document))),
        Err(e) => (s.saying(save_failed_line(e)), ActionData::Wait),
    }
}

/// The view in which articles are shown one by one, with the selected one or else
/// the first one.
pub open spec fn view_of(s: AppData, articles: Seq<ArticleData>) -> ViewData {
    ViewData {
        articles,
        idx: match position(articles, (s.selected()->0).id, 0) {
            Some(i) => i,
            None => 0,
        },
        offset: 0,
    }
}

/// What follows once the view is left.
pub open spec fn closed_step(s: AppData, v: ViewData) -> (AppData, ActionData) {
    (
        AppData { global_mode: true, ..s },
        ActionData::Reload(Reason::ArticleRead(v.current().id)),
    )
}

impl App {
    /// The selected feed and article are among those that are listed.
    pub open spec fn wf(self) -> bool {
        self.deep_view().wf()
    }

    /// A reader that has not loaded anything yet.
    pub fn new(db_path: String, style: Style, auto_refresh_secs: u64) -> (app: Self)
        ensures
            app.wf(),
            app.deep_view() == (AppData {
                feeds: seq![],
                articles: seq![],
                feed_idx: 0,
                article_idx: 0,
                focus_feeds: false,
                global_mode: false,
                search: seq![],
                status: HELP@,
                db_path: db_path@,
                style: style.deep_view(),
                auto_refresh_secs,
            }),
    {
        let app = App {
            feeds: Vec::new(),
            articles: Vec::new(),
            feed_idx: 0,
            article_idx: 0,
            focus_feeds: false,
            global_mode: false,
            search: String::new(),
            status: String::new().concat(HELP),
            db_path,
            style,
            auto_refresh_secs,
        };
        assert(app.feeds.deep_view() =~= seq![]);
        assert(app.articles.deep_view() =~= seq![]);
        assert(app.status@ =~= HELP@);
        app
    }

    /// Takes the feeds that were loaded.
    pub fn feeds_loaded(&mut self, feeds: Vec<FeedRow>)
        requires
            old(self).wf(),
        ensures
            final(self).wf(),
            final(self).deep_view() == old(self).deep_view().with_feeds(feeds.deep_view()),
    {
        assert(feeds.deep_view().len() == feeds@.len());
        self.feed_idx = clamp(self.feed_idx, feeds.len());
        self.feeds = feeds;
    }

    /// The question for the articles that are to be listed.
    pub fn articles_wanted(&self) -> (query: ArticleQuery)
        requires
            self.wf(),
        ensures
            query.deep_view() == query_for(
                self.deep_view().shown_feed(),
                trim(self.deep_view().search),
            ),
            query.deep_view() == wanted(self.deep_view()),
    {
        let search: String = trim_text(self.search.as_str());
        assert(self.feeds.deep_view().len() == self.feeds@.len());
        if self.global_mode || self.feed_idx >= self.feeds.len() {
            return article_query(None, search.as_str());
        }
        assert(self.feeds.deep_view()[self.feed_idx as int]
            == self.feeds@[self.feed_idx as int].deep_view());
        article_query(Some(self.feeds[self.feed_idx].id), search.as_str())
    }

    /// Takes the articles that were loaded.
    pub fn articles_loaded(&mut self, articles: Vec<ArticleRow>)
        requires
            old(self).wf(),
        ensures
            final(self).wf(),
            final(self).deep_view() == old(self).deep_view().with_articles(articles.deep_view()),
    {
        assert(articles.deep_view().len() == articles@.len());
        self.article_idx = clamp(self.article_idx, articles.len());
        self.articles = articles;
    }

    /// Says how many feeds and articles there are.
    pub fn update_status_counts(&mut self, prefix: &str)
        requires
            old(self).wf(),
        ensures
            final(self).wf(),
            final(self).deep_view() == old(self).deep_view().saying(
                old(self).deep_view().counts(prefix@),
            ),
    {
        let ghost s = self.deep_view();
        assert(s.feeds.len() == self.feeds@.len());
        assert(s.articles.len() == self.articles@.len());
        let status: String = String::new().concat(prefix).concat(" (feeds=").concat(
            count_text(self.feeds.len()).as_str(),
        ).concat(", articles=").concat(count_text(self.articles.len()).as_str()).concat(
            ", mode=",
        ).concat(mode_text(self.global_mode)).concat(")");
        assert(status@ =~= s.counts(prefix@));
        self.status = status;
    }

    /// Says something on the status line.
    fn say(&mut self, text: &str)
        ensures
            final(self).deep_view() == old(self).deep_view().saying(text@),
    {
        self.status = String::new().concat(text);
        assert(self.status@ =~= text@);
    }

    /// Whether an article is selected.
    fn has_selection(&self) -> (yes: bool)
        ensures
            yes == (self.deep_view().selected() is Some),
    {
        assert(self.articles.deep_view().len() == self.articles@.len());
        self.article_idx < self.articles.len()
    }

    /// The article that is selected.
    fn selection(&self) -> (article: &ArticleRow)
        requires
            self.deep_view().selected() is Some,
        ensures
            article.deep_view() == self.deep_view().selected()->0,
    {
        assert(self.articles.deep_view().len() == self.articles@.len());
        assert(self.articles.deep_view()[self.article_idx as int]
            == self.articles@[self.article_idx as int].deep_view());
        &self.articles[self.article_idx]
    }

    /// Selects what is one further down.
    fn move_down(&mut self) -> (action: Action)
        requires
            old(self).wf(),
        ensures
            final(self).wf(),
            (final(self).deep_view(), action.deep_view()) == moved_down(old(self).deep_view()),
    {
        assert(self.feeds.deep_view().len() == self.feeds@.len());
        assert(self.articles.deep_view().len() == self.articles@.len());
        if self.focus_feeds {
            if !self.feeds.is_empty() && self.feed_idx < self.feeds.len() - 1 {
                self.feed_idx = self.feed_idx + 1;
                self.article_idx = 0;
                if !self.global_mode {
                    return Action::Reload(Reason::Moved);
                }
            }
        } else if !self.articles.is_empty() && self.article_idx < self.articles.len() - 1 {
            self.article_idx = self.article_idx + 1;
        }
        Action::Wait
    }

    /// Selects what is one further up.
    fn move_up(&mut self) -> (action: Action)
        requires
            old(self).wf(),
        ensures
            final(self).wf(),
            (final(self).deep_view(), action.deep_view()) == moved_up(old(self).deep_view()),
    {
        if self.focus_feeds {
            if self.feed_idx > 0 {
                self.feed_idx = self.feed_idx - 1;
                self.article_idx = 0;
                if !self.global_mode {
                    return Action::Reload(Reason::Moved);
                }
            }
        } else if self.article_idx > 0 {
            self.article_idx = self.article_idx - 1;
        }
        Action::Wait
    }

    /// Takes a key, and says what is to be done.
    pub fn handle_key(&mut self, key: Key) -> (action: Action)
        requires
            old(self).wf(),
        ensures
            final(self).wf(),
            (final(self).deep_view(), action.deep_view()) == key_step(old(self).deep_view(), key),
    {
        match key {
            Key::Char('q') => Action::Quit,
            Key::Char('h') | Key::Left => {
                self.focus_feeds = true;
                Action::Wait
            },
            Key::Char('l') | Key::Right => {
                self.focus_feeds = false;
                Action::Wait
            },
            Key::Char('g') => {
                self.global_mode = !self.global_mode;
                self.article_idx = 0;
                Action::Reload(Reason::ViewSwitched)
            },
            Key::Char('j') | Key::Down => self.move_down(),
            Key::Char('k') | Key::Up => self.move_up(),
            Key::Char('n') => {
                match next_unread_index(&self.articles, self.article_idx) {
                    Some(i) => {
                        self.article_idx = i;
                        self.say("Jumped to next unread");
                    },
                    None => self.say("No unread in current view"),
                }
                Action::Wait
            },
            Key::Char('r') | Key::Char('R') => {
                self.say("Refreshing feeds...");
                Action::Refresh(Trigger::Key)
            },
            Key::Char('/') => Action::Ask(Question::Search),
            Key::Char('a') => Action::Ask(Question::FeedUrl),
            Key::Char('c') => {
                if self.has_selection() {
                    return Action::Ask(Question::Comment);
                }
                self.say("No article selected");
                Action::Wait
            },
            Key::Char('o') => {
                if self.has_selection() {
                    return Action::Open(self.selection().url.clone());
                }
                self.say("No article selected");
                Action::Wait
            },
            Key::Enter => {
                if self.has_selection() {
                    return Action::Read;
                }
                Action::Wait
            },
            _ => Action::Wait,
        }
    }

    /// The label of a question, and what its prompt starts with.
    pub fn prompt_texts(&self, question: &Question) -> (texts: (&str, &str))
        ensures
            (texts.0@, texts.1@) == prompt_for(self.deep_view(), question.deep_view()),
    {
        match question {
            Question::Search => ("Search (title/content):", self.search.as_str()),
            Question::FeedUrl => ("Add feed URL:", ""),
            Question::Comment => ("Comment:", ""),
            Question::Tags(_) => ("Tags (space-separated):", "reading"),
        }
    }

    /// Takes the answer to a question, and says what is to be done.
    pub fn answered(&mut self, question: Question, answer: Option<String>) -> (action: Action)
        requires
            old(self).wf(),
        ensures
            final(self).wf(),
            (final(self).deep_view(), action.deep_view()) == answer_step(
                old(self).deep_view(),
                question.deep_view(),
                answer.deep_view(),
            ),
    {
        match question {
            Question::Search => {
                self.search = match answer {
                    Some(s) => s,
                    None => String::new(),
                };
                self.article_idx = 0;
                assert(self.search@ =~= text_or(answer.deep_view(), seq![]));
                Action::Reload(Reason::Searched)
            },
            Question::FeedUrl => match answer {
                Some(url) => Action::AddFeed(url, Reason::FeedAdded),
                None => Action::Wait,
            },
            Question::Comment => match answer {
                Some(comment) => Action::Ask(Question::Tags(comment)),
                None => Action::Wait,
            },
            Question::Tags(comment) => {
                if self.has_selection() {
                    let article: ArticleRow = self.selection().clone();
                    return Action::SaveComment(article, comment, comment_tags(answer));
                }
                self.say("No article selected");
                Action::Wait
            },
        }
    }

    /// Goes on once the lists have been loaded, and says what is to be done.
    pub fn reloaded(&mut self, reason: Reason) -> (action: Action)
        requires
            old(self).wf(),
        ensures
            final(self).wf(),
            (final(self).deep_view(), action.deep_view()) == reloaded_step(
                old(self).deep_view(),
                reason,
            ),
    {
        assert(self.feeds.deep_view().len() == self.feeds@.len());
        assert(self.articles.deep_view().len() == self.articles@.len());
        match reason {
            Reason::Start => {
                if self.articles.is_empty() && !self.feeds.is_empty() {
                    return Action::Refresh(Trigger::Start);
                }
                self.update_status_counts("Ready");
            },
            Reason::Moved => {},
            Reason::ViewSwitched => self.update_status_counts("View switched"),
            Reason::Refreshed(trigger, inserted, failed) => self.say_refreshed(
                trigger,
                inserted,
                failed,
            ),
            Reason::Searched => self.say_searched(),
            Reason::FeedAdded => self.update_status_counts("Feed added"),
            Reason::CommentSaved(document) => self.say_saved(document),
            Reason::ArticleRead(id) => {
                if let Some(i) = position_of(&self.articles, id) {
                    self.article_idx = i;
                }
            },
        }
        Action::Wait
    }

    /// Says how many articles came and how many feeds failed.
    fn say_refreshed(&mut self, trigger: Trigger, inserted: usize, failed: usize)
        requires
            old(self).wf(),
        ensures
            final(self).wf(),
            final(self).deep_view() == reloaded_step(
                old(self).deep_view(),
                Reason::Refreshed(trigger, inserted, failed),
            ).0,
    {
        let ghost s = self.deep_view();
        assert(s.feeds.len() == self.feeds@.len());
        assert(s.articles.len() == self.articles@.len());
        let start: &str = match trigger {
            Trigger::Start => "Initial refresh: +",
            Trigger::Key => "Refresh done: +",
            Trigger::Timer => "Auto refresh: +",
        };
        let mut status: String = String::new().concat(start).concat(
            count_text(inserted).as_str(),
        ).concat(" new, failures=").concat(count_text(failed).as_str());
        assert(status@ =~= refresh_line(trigger, inserted as nat, failed as nat));
        if !matches!(trigger, Trigger::Timer) {
            let ghost line = status@;
            status = status.concat(" (feeds=").concat(
                count_text(self.feeds.len()).as_str(),
            ).concat(", articles=").concat(count_text(self.articles.len()).as_str()).concat(")");
            assert(status@ =~= line + (" (feeds="@ + decimal(s.feeds.len()) + ", articles="@
                + decimal(s.articles.len()) + ")"@));
        }
        self.status = status;
    }

    /// Says what was searched and how many articles hold it.
    fn say_searched(&mut self)
        requires
            old(self).wf(),
        ensures
            final(self).wf(),
            final(self).deep_view() == old(self).deep_view().saying(
                search_line(old(self).deep_view()),
            ),
    {
        let ghost s = self.deep_view();
        assert(s.articles.len() == self.articles@.len());
        let search: &str = if self.search.as_str().is_empty() {
            "(none)"
        } else {
            self.search.as_str()
        };
        let status: String = String::new().concat("Search: ").concat(search).concat(
            " (articles=",
        ).concat(count_text(self.articles.len()).as_str()).concat(")");
        assert(status@ =~= search_line(s));
        self.status = status;
    }

    /// Says that a comment was saved.
    fn say_saved(&mut self, document: i64)
        requires
            old(self).wf(),
        ensures
            final(self).wf(),
            final(self).deep_view() == old(self).deep_view().saying(saved_line(document)),
    {
        let status: String = String::new().concat("Saved comment to Thought Police (doc #").concat(
            signed_text(document).as_str(),
        ).concat(")");
        assert(status@ =~= saved_line(document));
        self.status = status;
    }

    /// Says whether a comment was saved.
    pub fn say_comment(&mut self, outcome: Result<i64, String>)
        requires
            old(self).wf(),
        ensures
            final(self).wf(),
            final(self).deep_view() == old(self).deep_view().saying(
                match outcome {
                    Ok(document) => saved_line(document),
                    Err(e) => save_failed_line(e@),
                },
            ),
    {
        match outcome {
            Ok(document) => self.say_saved(document),
            Err(e) => {
                let status: String = String::new().concat("Comment save failed: ").concat(
                    e.as_str(),
                );
                assert(status@ =~= save_failed_line(e@));
                self.status = status;
            },
        }
    }

    /// Goes on once a comment on the listed article `article_id` has been saved
    /// or not: an article that has a comment is read.
    pub fn comment_saved(&mut self, article_id: i64, outcome: Result<i64, String>) -> (action:
        Action)
        requires
            old(self).wf(),
        ensures
            final(self).wf(),
            match outcome {
                Ok(document) => {
                    &&& final(self).deep_view() == old(self).deep_view()
                    &&& action.deep_view() == ActionData::MarkRead(
                        article_id,
                        Reason::CommentSaved(document),
                    )
                },
                Err(e) => {
                    &&& final(self).deep_view() == old(self).deep_view().saying(
                        save_failed_line(e@),
                    )
                    &&& action.deep_view() == ActionData::Wait
                },
            },
            (final(self).deep_view(), action.deep_view()) == comment_step(
                old(self).deep_view(),
                article_id,
                match outcome {
                    Ok(document) => Ok(document),
                    Err(e) => Err(e@),
                },
            ),
    {
        match outcome {
            Ok(document) => Action::MarkRead(article_id, Reason::CommentSaved(document)),
            Err(e) => {
                self.say_comment(Err(e));
                Action::Wait
            },
        }
    }

    /// Says whether an address was opened in a browser.
    pub fn say_opened(&mut self, outcome: Result<(), String>)
        requires
            old(self).wf(),
        ensures
            final(self).wf(),
            final(self).deep_view() == old(self).deep_view().saying(
                opened_line(
                    match outcome {
                        Ok(()) => Ok(()),
                        Err(e) => Err(e@),
                    },
                ),
            ),
    {
        match outcome {
            Ok(()) => self.say("Opened article in browser"),
            Err(e) => {
                let status: String = String::new().concat("Open failed: ").concat(e.as_str());
                assert(status@ =~= "Open failed: "@ + e@);
                self.status = status;
            },
        }
    }

    /// Says what came of showing an image.
    pub fn say_image(&mut self, outcome: Result<String, String>)
        requires
            old(self).wf(),
        ensures
            final(self).wf(),
            final(self).deep_view() == old(self).deep_view().saying(
                image_line(
                    match outcome {
                        Ok(said) => Ok(said@),
                        Err(e) => Err(e@),
                    },
                ),
            ),
    {
        match outcome {
            Ok(said) => {
                self.status = said;
            },
            Err(e) => {
                let status: String = String::new().concat("Image failed: ").concat(e.as_str());
                assert(status@ =~= "Image failed: "@ + e@);
                self.status = status;
            },
        }
    }

    /// What is to be done when no key came: the feeds are fetched where the time
    /// since they were last fetched has run out.
    pub fn idle(&self, elapsed_secs: u64) -> (action: Action)
        ensures
            action.deep_view() == if elapsed_secs >= self.auto_refresh_secs {
                ActionData::Refresh(Trigger::Timer)
            } else {
                ActionData::Wait
            },
            action.deep_view() == idle_action(elapsed_secs as int, self.auto_refresh_secs as int),
    {
        if elapsed_secs >= self.auto_refresh_secs {
            Action::Refresh(Trigger::Timer)
        } else {
            Action::Wait
        }
    }

    /// The question for the articles that are shown one by one: those of all
    /// feeds. There is none where no article is selected.
    pub fn reading_wanted(&mut self) -> (query: Option<ArticleQuery>)
        requires
            old(self).wf(),
        ensures
            final(self).wf(),
            match old(self).deep_view().selected() {
                None => {
                    &&& query is None
                    &&& final(self).deep_view() == old(self).deep_view().saying(
                        "No article selected"@,
                    )
                },
                Some(article) => {
                    &&& query is Some
                    &&& query->0.deep_view() == query_for(None, trim(old(self).deep_view().search))
                    &&& final(self).deep_view() == old(self).deep_view()
                },
            },
    {
        if !self.has_selection() {
            self.say("No article selected");
            return None;
        }
        let search: String = trim_text(self.search.as_str());
        Some(article_query(None, search.as_str()))
    }

    /// Starts to show the given articles one by one, with the one that is
    /// selected, or the first one where that is not among them.
    pub fn open_view(&mut self, articles: Vec<ArticleRow>) -> (view: Option<ArticleView>)
        requires
            old(self).wf(),
            old(self).deep_view().selected() is Some,
        ensures
            final(self).wf(),
            if articles@.len() == 0 {
                &&& view is None
                &&& final(self).deep_view() == old(self).deep_view().saying(
                    "No articles in firehose view"@,
                )
            } else {
                &&& final(self).deep_view() == old(self).deep_view()
                &&& view is Some
                &&& view->0.wf()
                &&& view->0.deep_view().articles == articles.deep_view()
                &&& view->0.deep_view().offset == 0
                &&& view->0.deep_view().idx == match position(
                    articles.deep_view(),
                    (old(self).deep_view().selected()->0).id,
                    0,
                ) {
                    Some(i) => i,
                    None => 0,
                }
                &&& view->0.deep_view() == view_of(old(self).deep_view(), articles.deep_view())
            },
    {
        if articles.is_empty() {
            self.say("No articles in firehose view");
            return None;
        }
        Some(ArticleView::new(articles, self.selection().id))
    }

    /// Comes back from showing articles one by one: the articles of all feeds
    /// are listed, and the last one shown is to be selected.
    pub fn close_view(&mut self, view: &ArticleView) -> (action: Action)
        requires
            old(self).wf(),
            view.wf(),
        ensures
            final(self).wf(),
            final(self).deep_view() == (AppData { global_mode: true, ..old(self).deep_view() }),
            action.deep_view() == ActionData::Reload(
                Reason::ArticleRead(view.deep_view().current().id),
            ),
            (final(self).deep_view(), action.deep_view()) == closed_step(
                old(self).deep_view(),
                view.deep_view(),
            ),
    {
        self.global_mode = true;
        Action::Reload(Reason::ArticleRead(view.current().id))
    }
}

// ---------------------------------------------------------------------------
// Laws
// ---------------------------------------------------------------------------

/// Whatever is loaded, what is selected is among what is listed.
pub proof fn law_loaded(s: AppData, feeds: Seq<FeedData>, articles: Seq<ArticleData>)
    requires
        0 <= s.feed_idx,
        0 <= s.article_idx,
    ensures
        s.with_feeds(feeds).with_articles(articles).wf(),
{
}

/// A selection that is still among what is listed stays when the lists are
/// loaded again.
pub proof fn law_loading_keeps_selection(
    s: AppData,
    feeds: Seq<FeedData>,
    articles: Seq<ArticleData>,
)
    requires
        s.wf(),
        s.feed_idx < feeds.len(),
        s.article_idx < articles.len(),
    ensures
        s.with_feeds(feeds).with_articles(articles) == (AppData { feeds, articles, ..s }),
{
}

/// No key leaves a selection outside the lists, and no key changes the lists.
pub proof fn law_keys(s: AppData, key: Key)
    requires
        s.wf(),
    ensures
        key_step(s, key).0.wf(),
        key_step(s, key).0.feeds == s.feeds,
        key_step(s, key).0.articles == s.articles,
{
    law_next_unread(s.articles, s.article_idx);
}

/// No answer and no loading leaves a selection outside the lists.
pub proof fn law_outcomes(
    s: AppData,
    question: QuestionData,
    answer: Option<Seq<char>>,
    reason: Reason,
)
    requires
        s.wf(),
    ensures
        answer_step(s, question, answer).0.wf(),
        reloaded_step(s, reason).0.wf(),
{
    if let Reason::ArticleRead(id) = reason {
        law_position(s.articles, id);
    }
}

/// Up undoes down.
pub proof fn law_down_then_up(s: AppData)
    requires
        s.wf(),
        !s.focus_feeds,
        s.article_idx + 1 < s.articles.len(),
    ensures
        moved_down(s).0.article_idx == s.article_idx + 1,
        moved_up(moved_down(s).0).0 == s,
{
}

/// The mode is back after it was switched twice.
pub proof fn law_switched_twice(s: AppData)
    ensures
        ({
            let once = key_step(s, Key::Char('g')).0;
            let twice = key_step(once, Key::Char('g')).0;
            once.global_mode != s.global_mode && twice == (AppData { article_idx: 0, ..s })
        }),
{
}

/// Who comes back from reading finds the article selected that was read last,
/// wherever it is listed.
pub proof fn law_back_from_reading(s: AppData, articles: Seq<ArticleData>, id: i64, at: int)
    requires
        s.wf(),
        0 <= at < articles.len(),
        articles[at].id == id,
    ensures
        ({
            let back = reloaded_step(s.with_articles(articles), Reason::ArticleRead(id)).0;
            back.selected() is Some && back.selected()->0.id == id
        }),
{
    law_position(articles, id);
}

/// A comment is about the article that is selected, and an article with a
/// comment is marked as read.
pub proof fn law_comment_on_selection(
    s: AppData,
    comment: Seq<char>,
    tags: Option<Seq<char>>,
)
    requires
        s.selected() is Some,
    ensures
        key_step(s, Key::Char('c')) == (s, ActionData::Ask(QuestionData::Comment)),
        answer_step(s, QuestionData::Comment, Some(comment)) == (
            s,
            ActionData::Ask(QuestionData::Tags(comment)),
        ),
        answer_step(s, QuestionData::Tags(comment), tags) == (
            s,
            ActionData::SaveComment(s.selected()->0, comment, words(text_or(tags, "reading"@))),
        ),
{
}

/// The letters and the arrows move alike, and both letters for it fetch the
/// feeds.
pub proof fn law_keys_alike(s: AppData)
    ensures
        key_step(s, Key::Char('j')) == key_step(s, Key::Down),
        key_step(s, Key::Char('k')) == key_step(s, Key::Up),
        key_step(s, Key::Char('h')) == key_step(s, Key::Left),
        key_step(s, Key::Char('l')) == key_step(s, Key::Right),
        key_step(s, Key::Char('r')) == key_step(s, Key::Char('R')),
        key_step(s, Key::Char('R')).1 == ActionData::Refresh(Trigger::Key),
{
}

/// What the status line says of the lists does not depend on what is read: it is
/// the same for other articles, as long as there are as many.
pub proof fn law_status_ignores_reading(s: AppData, articles: Seq<ArticleData>, reason: Reason)
    requires
        articles.len() == s.articles.len(),
    ensures
        reloaded_step(AppData { articles, ..s }, reason).0.status == reloaded_step(
            s,
            reason,
        ).0.status,
{
}

// ---------------------------------------------------------------------------
// What each key is for
// ---------------------------------------------------------------------------

/// With the feeds in focus, moving down selects the next feed whenever there is
/// one, and its first article. The articles of that feed are loaded, unless those
/// of all feeds are listed. At the last feed nothing changes.
pub proof fn law_next_feed(s: AppData)
    requires
        s.wf(),
        s.focus_feeds,
    ensures
        ({
            let (t, action) = key_step(s, Key::Char('j'));
            &&& s.feed_idx + 1 < s.feeds.len() ==> t.feed_idx == s.feed_idx + 1 && t.article_idx == 0
            &&& s.feed_idx + 1 < s.feeds.len() ==> (action == ActionData::Reload(Reason::Moved)
                <==> !s.global_mode)
            &&& s.feed_idx + 1 < s.feeds.len() ==> (action == ActionData::Wait <==> s.global_mode)
            &&& s.feed_idx + 1 >= s.feeds.len() ==> t == s && action == ActionData::Wait
            &&& same_elsewhere(s, t)
        }),
{
}

/// With the feeds in focus, moving up selects the feed before the selected one
/// whenever that is not the first, and its first article. At the first feed
/// nothing changes.
pub proof fn law_previous_feed(s: AppData)
    requires
        s.wf(),
        s.focus_feeds,
    ensures
        ({
            let (t, action) = key_step(s, Key::Char('k'));
            &&& s.feed_idx != 0 ==> t.feed_idx == s.feed_idx - 1 && t.article_idx == 0
            &&& s.feed_idx != 0 ==> (action == ActionData::Reload(Reason::Moved) <==> !s.global_mode)
            &&& s.feed_idx != 0 ==> (action == ActionData::Wait <==> s.global_mode)
            &&& s.feed_idx == 0 ==> t == s && action == ActionData::Wait
            &&& same_elsewhere(s, t)
        }),
{
}

/// Nothing but the selection differs.
pub open spec fn same_elsewhere(s: AppData, t: AppData) -> bool {
    &&& t.feeds == s.feeds
    &&& t.articles == s.articles
    &&& t.focus_feeds == s.focus_feeds
    &&& t.global_mode == s.global_mode
    &&& t.search == s.search
    &&& t.status == s.status
    &&& t.db_path == s.db_path
    &&& t.style == s.style
    &&& t.auto_refresh_secs == s.auto_refresh_secs
}

/// Up brings back the feed from which down went on, and down the one from which
/// up went on.
pub proof fn law_feeds_there_and_back(s: AppData)
    requires
        s.wf(),
        s.focus_feeds,
    ensures
        s.feed_idx + 1 < s.feeds.len() ==> key_step(
            key_step(s, Key::Char('j')).0,
            Key::Char('k'),
        ).0.feed_idx == s.feed_idx,
        s.feed_idx != 0 ==> key_step(
            key_step(s, Key::Char('k')).0,
            Key::Char('j'),
        ).0.feed_idx == s.feed_idx,
{
}

/// With the articles in focus, moving goes one article down or up whenever there
/// is one, and nothing is loaded.
pub proof fn law_articles_one_by_one(s: AppData)
    requires
        s.wf(),
        !s.focus_feeds,
    ensures
        ({
            let (down, a) = key_step(s, Key::Char('j'));
            let (up, b) = key_step(s, Key::Char('k'));
            &&& a == ActionData::Wait && b == ActionData::Wait
            &&& s.article_idx + 1 < s.articles.len() ==> down.article_idx == s.article_idx + 1
            &&& s.article_idx + 1 >= s.articles.len() ==> down == s
            &&& s.article_idx != 0 ==> up.article_idx == s.article_idx - 1
            &&& s.article_idx == 0 ==> up == s
            &&& down.feed_idx == s.feed_idx && up.feed_idx == s.feed_idx
            &&& same_elsewhere(s, down) && same_elsewhere(s, up)
        }),
{
}

/// Every feed and every article can be reached by moving down from the first one:
/// so many times down selects the one with that number.
pub proof fn law_all_in_reach(s: AppData, n: nat)
    requires
        s.wf(),
    ensures
        s.focus_feeds && s.feed_idx == 0 && n < s.feeds.len() ==> after_keys(
            s,
            Key::Char('j'),
            n,
        ).feed_idx == n,
        !s.focus_feeds && s.article_idx == 0 && n < s.articles.len() ==> after_keys(
            s,
            Key::Char('j'),
            n,
        ).article_idx == n,
        s.focus_feeds && s.feed_idx == n ==> after_keys(s, Key::Char('k'), n).feed_idx == 0,
        !s.focus_feeds && s.article_idx == n ==> after_keys(s, Key::Char('k'), n).article_idx == 0,
{
    lemma_down_so_often(s, n);
    lemma_up_so_often(s, n);
}

/// The state after the same key so many times.
pub open spec fn after_keys(s: AppData, key: Key, n: nat) -> AppData
    decreases n,
{
    if n == 0 {
        s
    } else {
        key_step(after_keys(s, key, (n - 1) as nat), key).0
    }
}

/// So many times down.
proof fn lemma_down_so_often(s: AppData, n: nat)
    requires
        s.wf(),
    ensures
        ({
            let t = after_keys(s, Key::Char('j'), n);
            &&& t.feeds == s.feeds && t.articles == s.articles && t.focus_feeds == s.focus_feeds
            &&& s.focus_feeds && s.feed_idx == 0 && n < s.feeds.len() ==> t.feed_idx == n
            &&& !s.focus_feeds && s.article_idx == 0 && n < s.articles.len() ==> t.article_idx == n
        }),
    decreases n,
{
    if n > 0 {
        lemma_down_so_often(s, (n - 1) as nat);
    }
}

/// So many times up.
proof fn lemma_up_so_often(s: AppData, n: nat)
    requires
        s.wf(),
    ensures
        ({
            let t = after_keys(s, Key::Char('k'), n);
            &&& t.focus_feeds == s.focus_feeds
            &&& s.focus_feeds && s.feed_idx >= n ==> t.feed_idx == s.feed_idx - n
            &&& !s.focus_feeds && s.article_idx >= n ==> t.article_idx == s.article_idx - n
        }),
    decreases n,
{
    if n > 0 {
        lemma_up_so_often(s, (n - 1) as nat);
    }
}

/// `h` brings the feeds into focus and `l` the articles. Neither changes anything
/// else.
pub proof fn law_focus(s: AppData)
    ensures
        ({
            let (feeds, a) = key_step(s, Key::Char('h'));
            let (articles, b) = key_step(s, Key::Char('l'));
            &&& a == ActionData::Wait && b == ActionData::Wait
            &&& feeds.focus_feeds && !articles.focus_feeds
            &&& feeds == (AppData { focus_feeds: feeds.focus_feeds, ..s })
            &&& articles == (AppData { focus_feeds: articles.focus_feeds, ..s })
        }),
{
}

/// `g` switches between the articles of a feed and those of all feeds, selects the
/// first article, and loads them.
pub proof fn law_switch(s: AppData)
    ensures
        ({
            let (t, action) = key_step(s, Key::Char('g'));
            &&& t.global_mode == !s.global_mode
            &&& t.article_idx == 0
            &&& t == (AppData { global_mode: t.global_mode, article_idx: 0, ..s })
            &&& action == ActionData::Reload(Reason::ViewSwitched)
        }),
{
}

/// `n` selects an unread article wherever there is one, the nearest one ahead, and
/// says so; it stays where it is and says so where all are read.
pub proof fn law_to_next_unread(s: AppData)
    requires
        s.wf(),
    ensures
        ({
            let (t, action) = key_step(s, Key::Char('n'));
            &&& action == ActionData::Wait
            &&& (exists|i: int| 0 <= i < s.articles.len() && (#[trigger] s.articles[i]).is_read == 0)
                ==> {
                &&& 0 <= t.article_idx < s.articles.len()
                &&& s.articles[t.article_idx].is_read == 0
                &&& t.status == "Jumped to next unread"@
                &&& forall|i: int|
                    s.article_idx < i < s.articles.len() && (#[trigger] s.articles[i]).is_read == 0
                        ==> s.article_idx < t.article_idx <= i
            }
            &&& (forall|i: int|
                0 <= i < s.articles.len() ==> (#[trigger] s.articles[i]).is_read != 0)
                ==> t.article_idx == s.article_idx && t.status == "No unread in current view"@
            &&& t == (AppData { article_idx: t.article_idx, status: t.status, ..s })
        }),
{
    law_next_unread(s.articles, s.article_idx);
    let n = s.articles.len() as int;
    if let Some(k) = next_unread(s.articles, s.article_idx, 1) {
        let step = choose|step: int|
            {
                &&& 1 <= step <= n
                &&& k == #[trigger] ahead(s.article_idx, step, n)
                &&& s.articles[k].is_read == 0
                &&& forall|x: int|
                    1 <= x < step ==> s.articles[#[trigger] ahead(s.article_idx, x, n)].is_read != 0
            };
        assert forall|i: int|
            s.article_idx < i < n && (#[trigger] s.articles[i]).is_read == 0 implies s.article_idx < k
            <= i by {
            vstd::arithmetic::div_mod::lemma_small_mod(i as nat, n as nat);
            assert(ahead(s.article_idx, i - s.article_idx, n) == i);
            assert(step <= i - s.article_idx);
            vstd::arithmetic::div_mod::lemma_small_mod(
                (s.article_idx + step) as nat,
                n as nat,
            );
        }
    }
}

/// `q` ends the program and nothing else does. `/` asks for a search and `a` for
/// an address, whatever is selected. `r` fetches the feeds.
pub proof fn law_plain_keys(s: AppData, key: Key)
    ensures
        key_step(s, key).1 == ActionData::Quit <==> key == Key::Char('q'),
        key_step(s, Key::Char('q')).0 == s,
        key_step(s, Key::Char('/')) == (s, ActionData::Ask(QuestionData::Search)),
        key_step(s, Key::Char('a')) == (s, ActionData::Ask(QuestionData::FeedUrl)),
        key_step(s, Key::Char('r')).1 == ActionData::Refresh(Trigger::Key),
        key_step(s, Key::Char('r')).0 == (AppData { status: "Refreshing feeds..."@, ..s }),
{
}

/// `c`, `o` and Enter are about the selected article: they ask for a comment on
/// it, open its address, and show it. Where none is selected, nothing is asked,
/// opened or shown.
pub proof fn law_keys_on_selection(s: AppData)
    requires
        s.wf(),
    ensures
        s.articles.len() > 0 ==> {
            &&& key_step(s, Key::Char('c')) == (s, ActionData::Ask(QuestionData::Comment))
            &&& key_step(s, Key::Char('o')) == (
                s,
                ActionData::Open(s.articles[s.article_idx].url),
            )
            &&& key_step(s, Key::Enter) == (s, ActionData::Read)
        },
        s.articles.len() == 0 ==> {
            &&& key_step(s, Key::Char('c')) == (
                AppData { status: "No article selected"@, ..s },
                ActionData::Wait,
            )
            &&& key_step(s, Key::Char('o')) == key_step(s, Key::Char('c'))
            &&& key_step(s, Key::Enter) == (s, ActionData::Wait)
        },
{
}

/// Every other key does nothing.
pub proof fn law_other_keys(s: AppData, key: Key)
    requires
        match key {
            Key::Char(c) => c != 'q' && c != 'h' && c != 'l' && c != 'g' && c != 'j' && c != 'k' && c
                != 'n' && c != 'r' && c != 'R' && c != '/' && c != 'a' && c != 'c' && c != 'o',
            Key::Esc => true,
            Key::Backspace => true,
            Key::Delete => true,
            Key::Other => true,
            _ => false,
        },
    ensures
        key_step(s, key) == (s, ActionData::Wait),
{
}

// ---------------------------------------------------------------------------
// What answers and outcomes are for
// ---------------------------------------------------------------------------

/// What was typed is searched for from the first article on, nothing is searched
/// for where nothing was typed, and the prompt starts with the last search.
pub proof fn law_search(s: AppData, answer: Option<Seq<char>>)
    ensures
        ({
            let (t, action) = answer_step(s, QuestionData::Search, answer);
            &&& answer matches Some(text) ==> t.search == text
            &&& answer is None ==> t.search.len() == 0
            &&& t == (AppData { search: t.search, article_idx: 0, ..s })
            &&& action == ActionData::Reload(Reason::Searched)
            &&& prompt_for(s, QuestionData::Search) == ("Search (title/content):"@, s.search)
        }),
{
}

/// The address that was typed is stored as it was typed, and nothing is stored
/// where none was.
pub proof fn law_add_feed(s: AppData, answer: Option<Seq<char>>)
    ensures
        ({
            let (t, action) = answer_step(s, QuestionData::FeedUrl, answer);
            &&& t == s
            &&& answer matches Some(url) ==> action == ActionData::AddFeed(url, Reason::FeedAdded)
            &&& answer is None ==> action == ActionData::Wait
            &&& prompt_for(s, QuestionData::FeedUrl) == ("Add feed URL:"@, ""@)
            &&& prompt_for(s, QuestionData::Comment) == ("Comment:"@, ""@)
            &&& forall|c: Seq<char>|
                #[trigger] prompt_for(s, QuestionData::Tags(c)) == (
                    "Tags (space-separated):"@,
                    "reading"@,
                )
        }),
{
}

/// A comment that was not typed is not saved, and neither is one without an
/// article. Its tags are the words of the answer, and `reading` where there is
/// none.
pub proof fn law_comment(s: AppData, comment: Seq<char>, answer: Option<Seq<char>>)
    ensures
        answer_step(s, QuestionData::Comment, None) == (s, ActionData::Wait),
        s.selected() is None ==> answer_step(s, QuestionData::Tags(comment), answer).1
            == ActionData::Wait,
        s.selected() matches Some(article) ==> match answer {
            Some(tags) => answer_step(s, QuestionData::Tags(comment), answer) == (
                s,
                ActionData::SaveComment(article, comment, words(tags)),
            ),
            None => answer_step(s, QuestionData::Tags(comment), answer) == (
                s,
                ActionData::SaveComment(article, comment, words("reading"@)),
            ),
        },
        s.wf() && s.articles.len() > 0 ==> s.selected() == Some(s.articles[s.article_idx]),
        s.wf() && s.articles.len() == 0 ==> s.selected() is None,
{
}

/// A reader that starts with feeds and without articles fetches the feeds, and one
/// that starts with either or neither is ready.
pub proof fn law_start(s: AppData)
    ensures
        ({
            let (t, action) = reloaded_step(s, Reason::Start);
            &&& s.articles.len() == 0 && s.feeds.len() > 0 ==> t == s && action
                == ActionData::Refresh(Trigger::Start)
            &&& s.articles.len() > 0 || s.feeds.len() == 0 ==> action == ActionData::Wait && t == (
            AppData { status: s.counts("Ready"@), ..s })
        }),
{
}

/// The lists are loaded without another action for every other reason, and only
/// the status line and, after reading, the selection change.
pub proof fn law_reloaded(s: AppData, reason: Reason)
    requires
        reason != Reason::Start,
    ensures
        ({
            let (t, action) = reloaded_step(s, reason);
            &&& action == ActionData::Wait
            &&& !(reason is ArticleRead) ==> t == (AppData { status: t.status, ..s })
            &&& reason is ArticleRead ==> t == (AppData { article_idx: t.article_idx, ..s })
            &&& reason == Reason::Moved ==> t == s
        }),
{
}

/// What the status line says of each reason: how many feeds, articles, new
/// articles and failures there are, in decimal digits, each after its name.
pub proof fn law_status_lines(s: AppData, inserted: usize, failed: usize, document: i64)
    ensures
        ({
            let feeds = decimal(s.feeds.len());
            let articles = decimal(s.articles.len());
            let mode = if s.global_mode {
                "global"@
            } else {
                "feed"@
            };
            let lists = " (feeds="@ + feeds + ", articles="@ + articles;
            let numbers = decimal(inserted as nat) + " new, failures="@ + decimal(failed as nat);
            let said = |reason: Reason| reloaded_step(s, reason).0.status;
            &&& said(Reason::ViewSwitched) == "View switched"@ + lists + ", mode="@ + mode + ")"@
            &&& said(Reason::FeedAdded) == "Feed added"@ + lists + ", mode="@ + mode + ")"@
            &&& s.counts("Ready"@) == "Ready"@ + lists + ", mode="@ + mode + ")"@
            &&& said(Reason::Refreshed(Trigger::Start, inserted, failed)) == "Initial refresh: +"@
                + numbers + lists + ")"@
            &&& said(Reason::Refreshed(Trigger::Key, inserted, failed)) == "Refresh done: +"@
                + numbers + lists + ")"@
            &&& said(Reason::Refreshed(Trigger::Timer, inserted, failed)) == "Auto refresh: +"@
                + numbers
            &&& s.search.len() > 0 ==> said(Reason::Searched) == "Search: "@ + s.search
                + " (articles="@ + articles + ")"@
            &&& s.search.len() == 0 ==> said(Reason::Searched) == "Search: (none) (articles="@
                + articles + ")"@
            &&& said(Reason::CommentSaved(document)) == "Saved comment to Thought Police (doc #"@
                + signed_decimal(document as int) + ")"@
        }),
{
    let feeds = decimal(s.feeds.len());
    let articles = decimal(s.articles.len());
    let mode = mode_name(s.global_mode);
    let lists = " (feeds="@ + feeds + ", articles="@ + articles;
    let numbers = decimal(inserted as nat) + " new, failures="@ + decimal(failed as nat);
    let said = |reason: Reason| reloaded_step(s, reason).0.status;
    assert(said(Reason::ViewSwitched) =~= "View switched"@ + lists + ", mode="@ + mode + ")"@);
    assert(said(Reason::FeedAdded) =~= "Feed added"@ + lists + ", mode="@ + mode + ")"@);
    assert(s.counts("Ready"@) =~= "Ready"@ + lists + ", mode="@ + mode + ")"@);
    assert(said(Reason::Refreshed(Trigger::Start, inserted, failed)) =~= "Initial refresh: +"@
        + numbers + lists + ")"@);
    assert(said(Reason::Refreshed(Trigger::Key, inserted, failed)) =~= "Refresh done: +"@ + numbers
        + lists + ")"@);
    assert(said(Reason::Refreshed(Trigger::Timer, inserted, failed)) =~= "Auto refresh: +"@
        + numbers);
    reveal_strlit("Search: ");
    reveal_strlit("(none)");
    reveal_strlit(" (articles=");
    reveal_strlit("Search: (none) (articles=");
    if s.search.len() == 0 {
        assert(said(Reason::Searched) =~= "Search: (none) (articles="@ + articles + ")"@);
    }
    assert(said(Reason::CommentSaved(document))
        =~= "Saved comment to Thought Police (doc #"@ + signed_decimal(document as int) + ")"@);
}

/// What is listed: the articles of all feeds in the one mode, those of the
/// selected feed in the other.
pub proof fn law_listed_articles(s: AppData)
    requires
        s.wf(),
    ensures
        s.global_mode ==> s.shown_feed() is None,
        !s.global_mode && s.feeds.len() > 0 ==> s.shown_feed() == Some(s.feeds[s.feed_idx].id),
        !s.global_mode && s.feeds.len() == 0 ==> s.shown_feed() is None,
{
}

/// A selection beyond new lists becomes the last one of them, and the lists are
/// those that were loaded.
pub proof fn law_selection_after_loading(
    s: AppData,
    feeds: Seq<FeedData>,
    articles: Seq<ArticleData>,
)
    requires
        s.wf(),
    ensures
        ({
            let t = s.with_feeds(feeds).with_articles(articles);
            &&& t.feeds == feeds && t.articles == articles
            &&& feeds.len() > 0 && s.feed_idx >= feeds.len() ==> t.feed_idx == feeds.len() - 1
            &&& articles.len() > 0 && s.article_idx >= articles.len() ==> t.article_idx
                == articles.len() - 1
            &&& feeds.len() == 0 ==> t.feed_idx == 0
            &&& articles.len() == 0 ==> t.article_idx == 0
            &&& s.feed_idx < feeds.len() ==> t.feed_idx == s.feed_idx
            &&& s.article_idx < articles.len() ==> t.article_idx == s.article_idx
        }),
{
}

/// What is said of an outcome: that it went well, or what went wrong.
pub proof fn law_outcomes_said(reason: Seq<char>)
    ensures
        opened_line(Ok(())) == "Opened article in browser"@,
        opened_line(Err(reason)) == "Open failed: "@ + reason,
        image_line(Ok(reason)) == reason,
        image_line(Err(reason)) == "Image failed: "@ + reason,
        save_failed_line(reason) == "Comment save failed: "@ + reason,
{
}

/// The articles that are listed are those that hold what is searched for, without
/// the white space around it: of all feeds in the one mode, and of the selected
/// feed in the other.
pub proof fn law_wanted_articles(s: AppData, a: Seq<char>, text: Seq<char>, b: Seq<char>)
    requires
        s.wf(),
        all_space(a),
        all_space(b),
        is_trimmed(text),
        s.search == a + text + b,
    ensures
        s.global_mode || s.feeds.len() == 0 ==> wanted(s) == query_for(None, text),
        !s.global_mode && s.feeds.len() > 0 ==> wanted(s) == query_for(
            Some(s.feeds[s.feed_idx].id),
            text,
        ),
{
    law_trimmed(a, text, b);
}

/// The feeds are fetched as soon as the time for it has come, not before, and at
/// any time after it.
pub proof fn law_timer(elapsed: int, limit: int)
    ensures
        idle_action(limit, limit) == ActionData::Refresh(Trigger::Timer),
        idle_action(limit - 1, limit) == ActionData::Wait,
        elapsed > limit ==> idle_action(elapsed, limit) == ActionData::Refresh(Trigger::Timer),
        elapsed < limit ==> idle_action(elapsed, limit) == ActionData::Wait,
{
}

/// An article is marked as read once a comment on it has been saved, whatever is
/// selected, and the status line then names the document. Where it was not saved,
/// nothing is marked, and the status line says why.
pub proof fn law_commented_is_read(s: AppData, article_id: i64, document: i64, why: Seq<char>)
    ensures
        ({
            let (t, action) = comment_step(s, article_id, Ok(document));
            &&& t == s
            &&& action matches ActionData::MarkRead(id, reason) && id == article_id
                && reloaded_step(s, reason).0.status == "Saved comment to Thought Police (doc #"@
                + signed_decimal(document as int) + ")"@
        }),
        comment_step(s, article_id, Err(why)) == (
            AppData { status: "Comment save failed: "@ + why, ..s },
            ActionData::Wait,
        ),
{
}

/// Reading begins with the article that is selected, from its first line, wherever
/// it stands among the articles of all feeds.
pub proof fn law_reading_begins(s: AppData, articles: Seq<ArticleData>, at: int)
    requires
        s.wf(),
        s.articles.len() > 0,
        0 <= at < articles.len(),
        articles[at].id == s.articles[s.article_idx].id,
    ensures
        ({
            let v = view_of(s, articles);
            &&& v.wf()
            &&& v.articles == articles
            &&& v.offset == 0
            &&& v.current().id == s.articles[s.article_idx].id
        }),
{
    law_position(articles, s.articles[s.article_idx].id);
}

/// Whoever leaves the view finds the articles of all feeds listed, and the article
/// selected that was shown last.
pub proof fn law_view_left(s: AppData, v: ViewData, articles: Seq<ArticleData>, at: int)
    requires
        s.wf(),
        v.wf(),
        0 <= at < articles.len(),
        articles[at].id == v.articles[v.idx].id,
    ensures
        ({
            let (t, action) = closed_step(s, v);
            &&& t.shown_feed() is None
            &&& t == (AppData { global_mode: true, ..s })
            &&& action matches ActionData::Reload(reason) && {
                let back = reloaded_step(t.with_articles(articles), reason).0;
                back.articles[back.article_idx].id == v.articles[v.idx].id
            }
        }),
{
    law_position(articles, v.articles[v.idx].id);
    law_back_from_reading(AppData { global_mode: true, ..s }, articles, v.articles[v.idx].id, at);
}

} // verus!
