use dpn_reader::app::{Action, App, FeedRow, Question, Reason, Trigger};
use dpn_reader::article::ArticleRow;
use dpn_reader::refresh::{FeedOutcome, Refresh, RefreshAction};
use dpn_reader::style::Style;
use dpn_reader::terminal::Key;
use dpn_reader::view::{position_of, ArticleView, ViewAction};

fn article(id: i64, is_read: i64) -> ArticleRow {
    ArticleRow {
        id,
        feed_id: 1,
        feed_title: "F".to_string(),
        url: format!("http://x/{}", id),
        title: format!("T{}", id),
        published_at: String::new(),
        published_ts: 0,
        summary: String::new(),
        content: "text".to_string(),
        is_read,
    }
}

fn feed(id: i64) -> FeedRow {
    FeedRow { id, url: format!("http://f/{}", id), title: format!("F{}", id) }
}

fn empty() -> App {
    App::new("/db".to_string(), Style::default(), 900)
}

fn app() -> App {
    let mut app = empty();
    app.feeds_loaded(vec![feed(11), feed(12), feed(13)]);
    app.articles_loaded(vec![article(1, 1), article(2, 0), article(3, 1)]);
    app
}

fn said(action: &Action) -> String {
    format!("{:?}", action)
}

#[test]
fn reader_at_the_start() {
    let app = empty();
    assert_eq!(app.status, "j/k chrono, n unread, c comment, g global, r refresh, q quit");
    assert!(app.feeds.is_empty() && app.articles.is_empty());
    assert_eq!((app.feed_idx, app.article_idx), (0, 0));
    assert!(!app.focus_feeds && !app.global_mode);
    assert_eq!((app.search.as_str(), app.db_path.as_str()), ("", "/db"));
}

#[test]
fn first_load() {
    let mut app = app();
    assert_eq!(said(&app.reloaded(Reason::Start)), "Wait");
    assert_eq!(app.status, "Ready (feeds=3, articles=3, mode=feed)");
    app.articles_loaded(vec![]);
    assert_eq!(said(&app.reloaded(Reason::Start)), "Refresh(Start)");
    let mut app = empty();
    assert_eq!(said(&app.reloaded(Reason::Start)), "Wait");
    assert_eq!(app.status, "Ready (feeds=0, articles=0, mode=feed)");
}

#[test]
fn selections_stay_within_the_lists() {
    let mut app = app();
    app.feed_idx = 2;
    app.article_idx = 2;
    app.feeds_loaded(vec![feed(11)]);
    app.articles_loaded(vec![article(1, 0), article(2, 0)]);
    assert_eq!((app.feed_idx, app.article_idx), (0, 1));
    app.feeds_loaded(vec![]);
    app.articles_loaded(vec![]);
    assert_eq!((app.feed_idx, app.article_idx), (0, 0));
}

#[test]
fn articles_that_are_wanted() {
    let mut app = app();
    app.feed_idx = 1;
    app.search = "  x ".to_string();
    assert_eq!(app.articles_wanted().binds, vec!["12", "%x%", "%x%", "%x%"]);
    assert_eq!(app.reading_wanted().unwrap().binds, vec!["%x%", "%x%", "%x%"]);
    app.global_mode = true;
    app.search = " ".to_string();
    assert!(app.articles_wanted().binds.is_empty());
    let app = empty();
    assert!(app.articles_wanted().binds.is_empty());
}

#[test]
fn moving_through_articles() {
    let mut app = app();
    for key in [Key::Char('j'), Key::Down] {
        assert_eq!(said(&app.handle_key(key)), "Wait");
    }
    assert_eq!(app.article_idx, 2);
    app.handle_key(Key::Char('j'));
    assert_eq!(app.article_idx, 2);
    for key in [Key::Char('k'), Key::Up, Key::Up] {
        app.handle_key(key);
    }
    assert_eq!(app.article_idx, 0);
    assert_eq!(app.feed_idx, 0);
}

#[test]
fn moving_through_feeds() {
    let mut app = app();
    app.article_idx = 2;
    app.handle_key(Key::Char('h'));
    assert!(app.focus_feeds);
    assert_eq!(said(&app.handle_key(Key::Char('j'))), "Reload(Moved)");
    assert_eq!((app.feed_idx, app.article_idx), (1, 0));
    app.global_mode = true;
    assert_eq!(said(&app.handle_key(Key::Down)), "Wait");
    assert_eq!(said(&app.handle_key(Key::Down)), "Wait");
    assert_eq!(app.feed_idx, 2);
    app.global_mode = false;
    assert_eq!(said(&app.handle_key(Key::Up)), "Reload(Moved)");
    assert_eq!(app.feed_idx, 1);
    app.handle_key(Key::Char('l'));
    assert!(!app.focus_feeds);
    app.handle_key(Key::Left);
    assert!(app.focus_feeds);
    app.handle_key(Key::Right);
    assert!(!app.focus_feeds);
    assert_eq!(said(&app.reloaded(Reason::Moved)), "Wait");
}

#[test]
fn switching_the_view() {
    let mut app = app();
    app.article_idx = 1;
    assert_eq!(said(&app.handle_key(Key::Char('g'))), "Reload(ViewSwitched)");
    assert!(app.global_mode);
    assert_eq!(app.article_idx, 0);
    app.reloaded(Reason::ViewSwitched);
    assert_eq!(app.status, "View switched (feeds=3, articles=3, mode=global)");
    app.handle_key(Key::Char('g'));
    assert!(!app.global_mode);
}

#[test]
fn jumping_to_the_next_unread() {
    let mut app = app();
    app.handle_key(Key::Char('n'));
    assert_eq!(app.article_idx, 1);
    assert_eq!(app.status, "Jumped to next unread");
    app.articles[1].is_read = 1;
    app.handle_key(Key::Char('n'));
    assert_eq!(app.article_idx, 1);
    assert_eq!(app.status, "No unread in current view");
}

#[test]
fn refreshing() {
    let mut app = app();
    for key in ['r', 'R'] {
        assert_eq!(said(&app.handle_key(Key::Char(key))), "Refresh(Key)");
        assert_eq!(app.status, "Refreshing feeds...");
    }
    app.reloaded(Reason::Refreshed(Trigger::Key, 12, 3));
    assert_eq!(app.status, "Refresh done: +12 new, failures=3 (feeds=3, articles=3)");
    app.reloaded(Reason::Refreshed(Trigger::Start, 0, 0));
    assert_eq!(app.status, "Initial refresh: +0 new, failures=0 (feeds=3, articles=3)");
    app.reloaded(Reason::Refreshed(Trigger::Timer, 100, 1));
    assert_eq!(app.status, "Auto refresh: +100 new, failures=1");
    assert_eq!(said(&app.idle(899)), "Wait");
    assert_eq!(said(&app.idle(900)), "Refresh(Timer)");
}

#[test]
fn no_status_counts_the_unread() {
    let reasons = [
        Reason::Start,
        Reason::ViewSwitched,
        Reason::Refreshed(Trigger::Key, 1, 1),
        Reason::Searched,
        Reason::FeedAdded,
    ];
    for reason in reasons {
        let mut some_unread = app();
        let mut all_unread = app();
        for a in all_unread.articles.iter_mut() {
            a.is_read = 0;
        }
        some_unread.reloaded(reason);
        all_unread.reloaded(reason);
        assert_eq!(some_unread.status, all_unread.status);
    }
}

#[test]
fn searching() {
    let mut app = app();
    app.search = "old".to_string();
    app.article_idx = 2;
    assert_eq!(said(&app.handle_key(Key::Char('/'))), "Ask(Search)");
    assert_eq!(app.prompt_texts(&Question::Search), ("Search (title/content):", "old"));
    let action = app.answered(Question::Search, Some("new".to_string()));
    assert_eq!(said(&action), "Reload(Searched)");
    assert_eq!((app.search.as_str(), app.article_idx), ("new", 0));
    app.reloaded(Reason::Searched);
    assert_eq!(app.status, "Search: new (articles=3)");
    app.answered(Question::Search, None);
    assert_eq!(app.search, "");
    app.reloaded(Reason::Searched);
    assert_eq!(app.status, "Search: (none) (articles=3)");
}

#[test]
fn adding_a_feed() {
    let mut app = app();
    assert_eq!(said(&app.handle_key(Key::Char('a'))), "Ask(FeedUrl)");
    assert_eq!(app.prompt_texts(&Question::FeedUrl), ("Add feed URL:", ""));
    assert_eq!(said(&app.answered(Question::FeedUrl, None)), "Wait");
    let action = app.answered(Question::FeedUrl, Some("http://n".to_string()));
    assert_eq!(said(&action), "AddFeed(\"http://n\", FeedAdded)");
    app.reloaded(Reason::FeedAdded);
    assert_eq!(app.status, "Feed added (feeds=3, articles=3, mode=feed)");
}

#[test]
fn commenting_on_the_selected_article() {
    let mut app = app();
    app.article_idx = 1;
    assert_eq!(said(&app.handle_key(Key::Char('c'))), "Ask(Comment)");
    assert_eq!(app.prompt_texts(&Question::Comment), ("Comment:", ""));
    assert_eq!(said(&app.answered(Question::Comment, None)), "Wait");
    let action = app.answered(Question::Comment, Some("good".to_string()));
    assert_eq!(said(&action), "Ask(Tags(\"good\"))");
    let tags = Question::Tags("good".to_string());
    assert_eq!(app.prompt_texts(&tags), ("Tags (space-separated):", "reading"));
    match app.answered(tags, Some("a b".to_string())) {
        Action::SaveComment(article, comment, tags) => {
            assert_eq!(article.id, 2);
            assert_eq!(comment, "good");
            assert_eq!(tags, vec!["a", "b"]);
        }
        other => panic!("{:?}", other),
    }
    match app.answered(Question::Tags("x".to_string()), None) {
        Action::SaveComment(_, _, tags) => assert_eq!(tags, vec!["reading"]),
        other => panic!("{:?}", other),
    }
    assert_eq!(said(&app.comment_saved(2, Ok(7))), "MarkRead(2, CommentSaved(7))");
    app.reloaded(Reason::CommentSaved(7));
    assert_eq!(app.status, "Saved comment to Thought Police (doc #7)");
    assert_eq!(said(&app.comment_saved(2, Err("why".to_string()))), "Wait");
    assert_eq!(app.status, "Comment save failed: why");
    app.say_comment(Ok(-1));
    assert_eq!(app.status, "Saved comment to Thought Police (doc #-1)");
    app.say_comment(Err("e".to_string()));
    assert_eq!(app.status, "Comment save failed: e");
}

#[test]
fn without_a_selected_article() {
    let mut app = empty();
    for key in ['c', 'o'] {
        app.status = String::new();
        assert_eq!(said(&app.handle_key(Key::Char(key))), "Wait");
        assert_eq!(app.status, "No article selected");
    }
    app.status = String::new();
    assert_eq!(said(&app.handle_key(Key::Enter)), "Wait");
    assert_eq!(app.status, "");
    assert!(app.reading_wanted().is_none());
    assert_eq!(app.status, "No article selected");
    app.status = String::new();
    assert_eq!(said(&app.answered(Question::Tags("x".to_string()), None)), "Wait");
    assert_eq!(app.status, "No article selected");
}

#[test]
fn opening_and_quitting() {
    let mut app = app();
    assert_eq!(said(&app.handle_key(Key::Char('o'))), "Open(\"http://x/1\")");
    app.say_opened(Ok(()));
    assert_eq!(app.status, "Opened article in browser");
    app.say_opened(Err("no browser".to_string()));
    assert_eq!(app.status, "Open failed: no browser");
    app.say_image(Ok("Image displayed".to_string()));
    assert_eq!(app.status, "Image displayed");
    app.say_image(Err("none".to_string()));
    assert_eq!(app.status, "Image failed: none");
    assert_eq!(said(&app.handle_key(Key::Char('q'))), "Quit");
    assert_eq!(said(&app.handle_key(Key::Esc)), "Wait");
    assert_eq!(said(&app.handle_key(Key::Char('z'))), "Wait");
    assert_eq!(said(&app.handle_key(Key::Enter)), "Read");
}

#[test]
fn reading_starts_at_the_selected_article() {
    let mut app = app();
    app.article_idx = 2;
    let view = app.open_view(vec![article(9, 0), article(3, 1), article(3, 0)]).unwrap();
    assert_eq!((view.idx, view.offset), (1, 0));
    let view = app.open_view(vec![article(9, 0)]).unwrap();
    assert_eq!(view.idx, 0);
    assert!(app.open_view(vec![]).is_none());
    assert_eq!(app.status, "No articles in firehose view");
}

#[test]
fn coming_back_selects_what_was_read() {
    let mut app = app();
    let mut view = app.open_view(vec![article(1, 0), article(8, 0)]).unwrap();
    view.press(Key::Char('j'), 10, 24);
    assert_eq!(said(&app.close_view(&view)), "Reload(ArticleRead(8))");
    assert!(app.global_mode);
    app.articles_loaded(vec![article(5, 0), article(8, 0), article(1, 0)]);
    assert_eq!(said(&app.reloaded(Reason::ArticleRead(8))), "Wait");
    assert_eq!(app.article_idx, 1);
    app.reloaded(Reason::ArticleRead(99));
    assert_eq!(app.article_idx, 1);
}

#[test]
fn marking_what_is_read() {
    let mut view = ArticleView::new(vec![article(1, 0), article(2, 0)], 2);
    assert_eq!(view.mark_current(), 2);
    assert_eq!(view.articles[1].is_read, 1);
    assert_eq!(view.articles[0].is_read, 0);
    assert_eq!(view.current().id, 2);
}

#[test]
fn turning_articles() {
    let mut view = ArticleView::new(vec![article(1, 0), article(2, 0)], 1);
    view.offset = 3;
    assert!(matches!(view.press(Key::Char('k'), 50, 24), ViewAction::Show));
    assert_eq!((view.idx, view.offset), (0, 3));
    assert!(matches!(view.press(Key::Char('j'), 50, 24), ViewAction::Show));
    assert_eq!((view.idx, view.offset), (1, 0));
    view.offset = 2;
    view.press(Key::Char('j'), 50, 24);
    assert_eq!((view.idx, view.offset), (1, 2));
    view.press(Key::Char('k'), 50, 24);
    assert_eq!((view.idx, view.offset), (0, 0));
}

#[test]
fn scrolling_an_article() {
    let mut view = ArticleView::new(vec![article(1, 0)], 1);
    for _ in 0..9 {
        view.press(Key::Down, 10, 6);
    }
    assert_eq!(view.offset, 6);
    view.press(Key::Up, 10, 6);
    assert_eq!(view.offset, 5);
    view.press(Key::Down, 10, 24);
    assert_eq!(view.offset, 0);
    view.press(Key::Up, 10, 24);
    assert_eq!(view.offset, 0);
    view.offset = usize::MAX;
    view.press(Key::Down, 3, 1);
    assert_eq!(view.offset, 3);
}

#[test]
fn keys_while_reading() {
    let mut view = ArticleView::new(vec![article(1, 0), article(4, 0)], 4);
    assert!(matches!(view.press(Key::Char('q'), 1, 9), ViewAction::Leave));
    assert!(matches!(view.press(Key::Esc, 1, 9), ViewAction::Leave));
    assert!(matches!(view.press(Key::Enter, 1, 9), ViewAction::Show));
    assert!(matches!(view.press(Key::Char('o'), 1, 9), ViewAction::Open(u) if u == "http://x/4"));
    assert!(matches!(view.press(Key::Char('i'), 1, 9), ViewAction::Image(a) if a.id == 4));
    assert!(matches!(view.press(Key::Char('c'), 1, 9), ViewAction::Ask(Question::Comment)));
    assert!(matches!(view.answered(Question::Comment, None), ViewAction::Show));
    let action = view.answered(Question::Comment, Some("c".to_string()));
    assert!(matches!(action, ViewAction::Ask(Question::Tags(c)) if c == "c"));
    match view.answered(Question::Tags("c".to_string()), None) {
        ViewAction::SaveComment(a, comment, tags) => {
            assert_eq!((a.id, comment.as_str()), (4, "c"));
            assert_eq!(tags, vec!["reading"]);
        }
        other => panic!("{:?}", other),
    }
    assert!(matches!(view.answered(Question::Search, None), ViewAction::Show));
}

#[test]
fn position_of_an_article() {
    let list = [article(5, 0), article(6, 0), article(5, 0)];
    assert_eq!(position_of(&list, 5), Some(0));
    assert_eq!(position_of(&list, 6), Some(1));
    assert_eq!(position_of(&list, 7), None);
    assert_eq!(position_of(&[], 5), None);
}

#[test]
fn all_feeds_are_fetched_in_turn() {
    let feeds = vec![(3, "a".to_string()), (1, "b".to_string()), (2, "c".to_string())];
    let mut refresh = Refresh::new(feeds);
    assert_eq!(format!("{:?}", refresh.action()), "Fetch(3, \"a\")");
    assert!(refresh.fetched(FeedOutcome::Stored(vec![1, 0, 1])));
    assert_eq!(format!("{:?}", refresh.action()), "Fetch(1, \"b\")");
    assert!(refresh.fetched(FeedOutcome::Failed));
    assert_eq!(format!("{:?}", refresh.action()), "Fetch(2, \"c\")");
    assert!(refresh.fetched(FeedOutcome::Stored(vec![])));
    assert!(matches!(refresh.action(), RefreshAction::Done(2, 1)));
    assert!(matches!(Refresh::new(vec![]).action(), RefreshAction::Done(0, 0)));
}

#[test]
fn more_articles_than_can_be_counted() {
    let mut refresh = Refresh::new(vec![(1, "a".to_string())]);
    assert!(!refresh.fetched(FeedOutcome::Stored(vec![u64::MAX, 1])));
    assert_eq!((refresh.next, refresh.inserted, refresh.failed), (0, 0, 0));
    assert!(refresh.fetched(FeedOutcome::Stored(vec![5])));
    assert_eq!((refresh.next, refresh.inserted), (1, 5));
}

#[test]
fn loading_again_keeps_the_selection() {
    let mut app = app();
    app.feed_idx = 1;
    app.article_idx = 2;
    app.feeds_loaded(vec![feed(1), feed(2)]);
    app.articles_loaded(vec![article(4, 0), article(5, 0), article(6, 0), article(7, 0)]);
    assert_eq!((app.feed_idx, app.article_idx), (1, 2));
}
