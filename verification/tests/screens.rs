use dpn_reader::app::{App, FeedRow};
use dpn_reader::article::ArticleRow;
use dpn_reader::prompt::{Prompt, PromptStep};
use dpn_reader::screen::{date_cuts, left_columns};
use dpn_reader::style::Style;
use dpn_reader::terminal::{Draw, Key, KeyPress};
use dpn_reader::view::ArticleView;

fn show(drawing: &[Draw]) -> Vec<String> {
    drawing
        .iter()
        .map(|step| match step {
            Draw::Clear => "clear".to_string(),
            Draw::ClearLine => "clear line".to_string(),
            Draw::MoveTo(x, y) => format!("{},{}", x, y),
            Draw::Text(text) => format!("'{}'", text),
        })
        .collect()
}

fn plain() -> Style {
    Style { title: "<t>", accent: "<a>", unread: "<u>", headline: "<h>", label: "<l>", body: "<b>", reset: "</>" }
}

fn article(id: i64, title: &str, published_at: &str, is_read: i64) -> ArticleRow {
    ArticleRow {
        id,
        feed_id: 1,
        feed_title: "F".to_string(),
        url: "http://x".to_string(),
        title: title.to_string(),
        published_at: published_at.to_string(),
        published_ts: 0,
        summary: String::new(),
        content: "one two three".to_string(),
        is_read,
    }
}

fn feed(id: i64, title: &str) -> FeedRow {
    FeedRow { id, url: String::new(), title: title.to_string() }
}

fn app() -> App {
    let mut app = App::new("/db".to_string(), plain(), 900);
    app.feeds_loaded(vec![feed(1, "First"), feed(2, "A feed with a very long title")]);
    app.articles_loaded(vec![
        article(1, "New", "2024-05-06T07:08:09Z", 0),
        article(2, "Old", "short", 1),
    ]);
    app
}

#[test]
fn lists_on_a_screen() {
    let app = app();
    assert!(app.drawable(7));
    assert_eq!(
        show(&app.render(60, 7)),
        vec![
            "clear",
            "0,0",
            "'<t>dpn-reader [feed]</>  db: /db\n'",
            "24,1",
            "'|'",
            "0,1",
            "' Feeds '",
            "26,1",
            "'<a>[Articles]</>'",
            "24,2",
            "'|'",
            "0,2",
            "'> First'",
            "26,2",
            "'><u>•</> 2024-05-06  New'",
            "24,3",
            "'|'",
            "0,3",
            "'  A feed with a very lo'",
            "26,3",
            "'   ----------  Old'",
            "24,4",
            "'|'",
            "0,4",
            "26,4",
            "0,5",
            "'------------------------------------------------------------\n'",
            "0,6",
            "'j/k chrono, n unread, c comment, g global, r refresh, q qui'",
        ]
    );
}

#[test]
fn feeds_in_focus_on_a_small_screen() {
    let mut app = app();
    app.focus_feeds = true;
    app.global_mode = true;
    assert_eq!(
        show(&app.render(30, 5)),
        vec![
            "clear",
            "0,0",
            "'<t>dpn-reader [global]</>  db: /db\n'",
            "24,1",
            "'|'",
            "0,1",
            "'<a>[Feeds]</>'",
            "26,1",
            "'<a> Articles </>'",
            "24,2",
            "'|'",
            "0,2",
            "'> First'",
            "26,2",
            "' <u'",
            "0,3",
            "'------------------------------\n'",
            "0,4",
            "'j/k chrono, n unread, c comme'",
        ]
    );
    assert_eq!(
        show(&app.render(0, 0)),
        vec!["clear", "0,0", "'<t>dpn-reader [global]</>  db: /db\n'", "0,0", "'\n'", "0,0", "''"]
    );
}

#[test]
fn nothing_is_drawn_below_the_screen() {
    let app = app();
    let view = ArticleView::new(vec![article(1, "T", "d", 0)], 1);
    for h in 1..12 {
        for w in [1, 20, 80, 200] {
            let rows = view.rows(w);
            let drawings = [app.render(w, h), view.frame(&rows, &plain(), h)];
            for step in drawings.iter().flatten() {
                if let Draw::MoveTo(_, y) = step {
                    assert!(*y < h);
                }
            }
        }
    }
}

#[test]
fn column_between_the_lists() {
    assert_eq!(left_columns(0), 24);
    assert_eq!(left_columns(74), 24);
    assert_eq!(left_columns(75), 25);
    assert_eq!(left_columns(119), 39);
    assert_eq!(left_columns(120), 40);
    assert_eq!(left_columns(u16::MAX), 40);
}

#[test]
fn dates_that_can_be_cut() {
    assert!(date_cuts("2024-05-06T07"));
    assert!(date_cuts("2024-05-06"));
    assert!(date_cuts("ä"));
    assert!(date_cuts("12345678ä"));
    assert!(!date_cuts("123456789ä"));
    let mut app = app();
    app.articles[1].published_at = "123456789ä".to_string();
    assert!(app.drawable(5));
    assert!(!app.drawable(6));
}

#[test]
fn article_on_a_screen() {
    let mut view = ArticleView::new(vec![article(1, "Title", "", 0)], 1);
    let rows = view.rows(8);
    let texts: Vec<String> = rows.iter().map(|r| r.text.clone()).collect();
    assert_eq!(texts, vec!["Title", "Feed: F", "Date:", "unknown", "URL:", "http://", "x", "", "one two", "three"]);
    let help = "'dpn-reader article view (firehose)  [j/k next/prev article] [up/down scroll] [q back] [c comment] [i image] [o open]\n'";
    assert_eq!(
        show(&view.frame(&rows, &plain(), 5)),
        vec![
            "clear",
            "0,0",
            help,
            "0,1",
            "'<h>Title</>'",
            "0,2",
            "'<l>Feed:</><b> F'",
            "0,3",
            "'<l>Date:</><b>'"
        ]
    );
    view.offset = 9;
    assert_eq!(show(&view.frame(&rows, &plain(), 5)), vec!["clear", "0,0", help, "0,1", "'<b>three</>'"]);
    view.offset = 20;
    assert_eq!(show(&view.frame(&rows, &plain(), 5)), vec!["clear", "0,0", help]);
}

fn press(key: Key) -> KeyPress {
    KeyPress { key, shift: false, control: false, alt: false }
}

fn done(step: PromptStep) -> Option<String> {
    match step {
        PromptStep::Done(answer) => answer,
        PromptStep::Typing => panic!("still typing"),
    }
}

fn type_text(prompt: &mut Prompt, text: &str) {
    for c in text.chars() {
        assert!(matches!(prompt.press(press(Key::Char(c))), PromptStep::Typing));
    }
}

#[test]
fn answers_of_a_prompt() {
    let mut prompt = Prompt::new("L:", "");
    assert_eq!(done(prompt.press(press(Key::Enter))), None);
    type_text(&mut prompt, "  hi there ");
    assert_eq!(done(prompt.press(press(Key::Enter))), Some("hi there".to_string()));
    assert_eq!(done(prompt.press(press(Key::Esc))), None);
    let mut prompt = Prompt::new("L:", "start");
    assert_eq!(done(prompt.press(press(Key::Enter))), Some("start".to_string()));
    for _ in 0..9 {
        prompt.press(press(Key::Backspace));
    }
    type_text(&mut prompt, " ");
    assert_eq!(done(prompt.press(press(Key::Enter))), Some("start".to_string()));
    assert_eq!(done(prompt.press(press(Key::Esc))), None);
}

#[test]
fn keys_of_a_prompt() {
    let mut prompt = Prompt::new("L:", "");
    type_text(&mut prompt, "abcdef");
    prompt.press(press(Key::Delete));
    prompt.press(press(Key::Char('\u{8}')));
    prompt.press(press(Key::Char('\u{7f}')));
    prompt.press(KeyPress { control: true, ..press(Key::Char('h')) });
    assert_eq!(prompt.typed, vec!['a', 'b']);
    prompt.press(KeyPress { control: true, ..press(Key::Char('x')) });
    prompt.press(KeyPress { alt: true, ..press(Key::Char('x')) });
    prompt.press(press(Key::Left));
    prompt.press(press(Key::Other));
    assert_eq!(prompt.typed, vec!['a', 'b']);
    let step = prompt.press(KeyPress { shift: true, ..press(Key::Enter) });
    assert!(matches!(step, PromptStep::Typing));
    prompt.press(KeyPress { shift: true, ..press(Key::Char('C')) });
    assert_eq!(done(prompt.press(press(Key::Enter))), Some("ab\nC".to_string()));
}

#[test]
fn backspace_takes_back_a_character() {
    let mut prompt = Prompt::new("L:", "");
    prompt.press(press(Key::Backspace));
    assert!(prompt.typed.is_empty());
    type_text(&mut prompt, "aé");
    type_text(&mut prompt, "x");
    prompt.press(press(Key::Backspace));
    assert_eq!(prompt.typed, vec!['a', 'é']);
}

#[test]
fn prompt_on_a_screen() {
    let mut prompt = Prompt::new("Comment:", "");
    type_text(&mut prompt, "abcdefghijkl");
    assert!(prompt.fits(11));
    assert_eq!(
        show(&prompt.frame(11, 24)),
        vec![
            "0,23",
            "clear line",
            "0,22",
            "clear line",
            "0,21",
            "clear line",
            "0,21",
            "'Comment: ('",
            "0,22",
            "'abcdefghij'",
            "0,23",
            "'kl'"
        ]
    );
    assert_eq!(prompt.drawn, 3);
    prompt.press(press(Key::Backspace));
    prompt.press(press(Key::Backspace));
    assert_eq!(
        show(&prompt.frame(50, 24)),
        vec![
            "0,23",
            "clear line",
            "0,22",
            "clear line",
            "0,21",
            "clear line",
            "0,22",
            "'Comment: (Enter=save, Shift+Enter=newline)'",
            "0,23",
            "'abcdefghij'"
        ]
    );
    assert_eq!(show(&prompt.closing(24)), vec!["0,23", "clear line", "0,22", "clear line"]);
    assert_eq!(
        show(&prompt.frame(0, 1)),
        vec!["0,0", "clear line", "0,0", "clear line", "0,0", "''", "0,1", "''"]
    );
}

#[test]
fn prompt_that_is_too_high() {
    let high = "\n".repeat(65534);
    assert!(!Prompt::new("L:", &high).fits(80));
    assert!(Prompt::new("L:", &high[1..]).fits(80));
}

#[test]
fn entries_fit_beside_the_line() {
    let mut app = app();
    app.articles[0].title = "long ".repeat(100);
    app.feeds[0].title = "long ".repeat(100);
    for w in [20, 26, 27, 28, 60, 130, 300] {
        let drawing = show(&app.render(w, 6));
        let left = left_columns(w) as usize;
        let at = |place: String| drawing.iter().position(|step| *step == place).unwrap();
        let feed = &drawing[at("0,2".to_string()) + 1];
        assert!(feed.chars().count() - 2 < left);
        let entry = &drawing[at(format!("{},2", left + 2)) + 1];
        let length = entry.chars().count() - 2;
        assert!(length == 0 || left + 2 + length < w as usize);
    }
}

#[test]
fn what_is_read_shows_in_the_mark_only() {
    let mut app = app();
    let some_unread = show(&app.render(80, 8));
    app.articles[0].is_read = 1;
    let none_unread = show(&app.render(80, 8));
    assert_eq!(some_unread.len(), none_unread.len());
    for (a, b) in some_unread.iter().zip(none_unread.iter()) {
        assert_eq!(a.replace("<u>•</>", " "), *b);
    }
}
