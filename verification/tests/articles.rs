use dpn_reader::article::{
    article_body, article_lines, colorize_article_line, next_unread_index, shown_date, ArticleKind,
    ArticleLine, ArticleRow,
};
use dpn_reader::style::Style;
use dpn_reader::wrap::{wrap_lines_for_width, wrap_prompt_text};

fn article(id: i64, is_read: i64) -> ArticleRow {
    ArticleRow {
        id,
        feed_id: 7,
        feed_title: "The Feed".to_string(),
        url: "https://x.org/1".to_string(),
        title: "A Title".to_string(),
        published_at: "2024-05-06T07:08:09Z".to_string(),
        published_ts: 0,
        summary: "Short.".to_string(),
        content: "<p>One &amp; two</p><p>Three</p>".to_string(),
        is_read,
    }
}

fn list(flags: &[i64]) -> Vec<ArticleRow> {
    flags.iter().enumerate().map(|(i, f)| article(i as i64, *f)).collect()
}

fn texts(lines: &[ArticleLine]) -> Vec<(ArticleKind, String)> {
    lines.iter().map(|l| (l.kind, l.text.clone())).collect()
}

fn body(text: &str) -> ArticleLine {
    ArticleLine::new(ArticleKind::Body, text.to_string())
}

#[test]
fn line_has_its_kind_and_text() {
    let line = ArticleLine::new(ArticleKind::Label, "Feed: x".to_string());
    assert_eq!(line.kind, ArticleKind::Label);
    assert_eq!(line.text, "Feed: x");
    let copy = line.clone();
    assert_eq!((copy.kind, copy.text), (ArticleKind::Label, "Feed: x".to_string()));
}

#[test]
fn next_unread_runs_round_the_list() {
    assert_eq!(next_unread_index(&[], 0), None);
    assert_eq!(next_unread_index(&list(&[1, 0, 0, 1]), 0), Some(1));
    assert_eq!(next_unread_index(&list(&[1, 0, 0, 1]), 1), Some(2));
    assert_eq!(next_unread_index(&list(&[1, 0, 1, 1]), 2), Some(1));
    assert_eq!(next_unread_index(&list(&[1, 1, 0]), 2), Some(2));
    assert_eq!(next_unread_index(&list(&[1, 1, 1]), 1), None);
    assert_eq!(next_unread_index(&list(&[0, 1, 1]), 5), Some(0));
    assert_eq!(next_unread_index(&list(&[5, -1, 0]), 0), Some(2));
}

#[test]
fn lines_of_an_article() {
    let lines = article_lines(&article(1, 0));
    assert_eq!(
        texts(&lines),
        vec![
            (ArticleKind::Headline, "A Title".to_string()),
            (ArticleKind::Label, "Feed: The Feed".to_string()),
            (ArticleKind::Label, "Date: 2024-05-06T07:08:09Z".to_string()),
            (ArticleKind::Label, "URL: https://x.org/1".to_string()),
            (ArticleKind::Blank, String::new()),
            (ArticleKind::Body, "One & two".to_string()),
            (ArticleKind::Body, String::new()),
            (ArticleKind::Body, "Three".to_string()),
        ]
    );
}

#[test]
fn summary_stands_in_for_blank_content() {
    let mut a = article(1, 0);
    assert_eq!(article_body(&a), "<p>One &amp; two</p><p>Three</p>");
    a.content = " \n\t".to_string();
    assert_eq!(article_body(&a), "Short.");
    a.published_at = String::new();
    let lines = article_lines(&a);
    assert_eq!(lines[2].text, "Date: unknown");
    assert_eq!(lines[5].text, "Short.");
    assert_eq!(shown_date("2024"), "2024");
    assert_eq!(shown_date(""), "unknown");
}

#[test]
fn lines_in_colour() {
    let style = Style::default();
    let show = |kind, text: &str| {
        colorize_article_line(&ArticleLine::new(kind, text.to_string()), &style)
    };
    assert_eq!(show(ArticleKind::Headline, "H"), "\x1b[38;2;0;245;255mH\x1b[0m");
    assert_eq!(
        show(ArticleKind::Label, "URL: https://x"),
        "\x1b[38;2;255;45;149mURL:\x1b[0m\x1b[38;2;255;184;0m https://x"
    );
    assert_eq!(show(ArticleKind::Label, "none"), "\x1b[38;2;255;184;0mnone\x1b[0m");
    assert_eq!(show(ArticleKind::Body, "b"), "\x1b[38;2;255;184;0mb\x1b[0m");
    assert_eq!(show(ArticleKind::Blank, "ignored"), "");
}

#[test]
fn words_flow_into_rows() {
    let rows = wrap_lines_for_width(&[body("alpha  beta gamma"), body("   ")], 11);
    assert_eq!(
        texts(&rows),
        vec![
            (ArticleKind::Body, "alpha beta".to_string()),
            (ArticleKind::Body, "gamma".to_string()),
            (ArticleKind::Body, String::new()),
        ]
    );
}

#[test]
fn long_words_are_cut() {
    let rows = wrap_lines_for_width(&[body("abcdefgh"), body("a bcdef g")], 3);
    let shown: Vec<String> = rows.into_iter().map(|r| r.text).collect();
    assert_eq!(shown, vec!["abc", "def", "gh", "a", "bcd", "ef", "g"]);
}

#[test]
fn no_width_and_no_lines_give_one_blank_row() {
    let none = vec![(ArticleKind::Blank, String::new())];
    assert_eq!(texts(&wrap_lines_for_width(&[body("abc")], 0)), none);
    assert_eq!(texts(&wrap_lines_for_width(&[], 10)), none);
}

#[test]
fn wrapping_keeps_width_and_text_and_settles() {
    let lines = [
        body("Der schnelle braune Fuchs springt über den faulen Hund."),
        body(""),
        body("überlangeswortohneleerzeichen kurz"),
    ];
    for width in 1..30 {
        let once = wrap_lines_for_width(&lines, width);
        let twice = wrap_lines_for_width(&once, width);
        assert_eq!(texts(&once), texts(&twice));
        assert!(once.iter().all(|r| r.text.chars().count() <= width));
        let ink = |ls: &[ArticleLine]| -> String {
            ls.iter().flat_map(|l| l.text.chars()).filter(|c| !c.is_whitespace()).collect()
        };
        assert_eq!(ink(&once), ink(&lines));
    }
}

#[test]
fn prompt_rows() {
    assert_eq!(wrap_prompt_text("abcdef\n\nxy", 4), vec!["abcd", "ef", "", "xy"]);
    assert_eq!(wrap_prompt_text("abcd", 4), vec!["abcd"]);
    assert_eq!(wrap_prompt_text("", 4), vec![""]);
    assert_eq!(wrap_prompt_text("abc", 0), vec![""]);
    assert_eq!(wrap_prompt_text("a\n", 4), vec!["a", ""]);
    assert_eq!(wrap_prompt_text("äöü", 2), vec!["äö", "ü"]);
}

#[test]
fn prompt_rows_keep_every_character() {
    let typed = "eins zwei\ndrei  vier\n";
    for width in 1..12 {
        let rows = wrap_prompt_text(typed, width);
        assert!(rows.iter().all(|r| r.chars().count() <= width));
        assert_eq!(rows.concat(), typed.replace('\n', ""));
    }
}

#[test]
fn lines_are_wrapped_one_by_one() {
    let a = [body("alpha beta gamma"), body("")];
    let b = [body("deltaepsilon zeta")];
    let both = [a[0].clone(), a[1].clone(), b[0].clone()];
    for width in 1..20 {
        let mut rows = texts(&wrap_lines_for_width(&a, width));
        rows.extend(texts(&wrap_lines_for_width(&b, width)));
        assert_eq!(texts(&wrap_lines_for_width(&both, width)), rows);
        let mut prompt = wrap_prompt_text("ab\ncdef", width);
        prompt.extend(wrap_prompt_text("", width));
        assert_eq!(wrap_prompt_text("ab\ncdef\n", width), prompt);
    }
}
