use dpn_reader::config::{
    auto_refresh_secs, feed_files, needs_seed, next_browser, parse_number, resolve_db_path,
    seed_step, style_config_path, NoHome, SeedStep,
};
use dpn_reader::query::{article_query, entered_feed};

fn some(s: &str) -> Option<String> {
    Some(s.to_string())
}

#[test]
fn path_of_the_database() {
    assert_eq!(resolve_db_path(some("/tmp/x.db"), some("/home/u")).unwrap(), vec!["/tmp/x.db"]);
    assert_eq!(
        resolve_db_path(None, some("/home/u")).unwrap(),
        vec!["/home/u", ".local", "share", "dpn-reader", "dpn_reader.db"]
    );
    assert_eq!(resolve_db_path(None, None), Err(NoHome));
    assert_eq!(NoHome.message(), "HOME env var not set");
    assert_eq!(resolve_db_path(some(""), None).unwrap(), vec![""]);
}

#[test]
fn path_of_the_configuration() {
    assert_eq!(style_config_path(some("/home/u")), vec!["/home/u", ".newsboat", "config"]);
    assert_eq!(style_config_path(None), vec![".", ".newsboat", "config"]);
}

#[test]
fn files_that_list_feeds() {
    let all = feed_files(some("/x.opml"), some("/urls"), some("/home/u"));
    assert_eq!(
        format!("{:?}", all),
        "[Opml(\"/x.opml\"), Opml(\"./feeds.opml\"), Urls([\"/urls\"]), \
         Urls([\"/home/u\", \".newsboat\", \"urls\"])]"
    );
    let usual = feed_files(None, None, None);
    assert_eq!(
        format!("{:?}", usual),
        "[Opml(\"./feeds.opml\"), Urls([\".\", \".newsboat\", \"urls\"])]"
    );
}

fn seeded(lists: Vec<Vec<(String, String, String)>>) -> (Vec<(String, String, String)>, usize) {
    let files = feed_files(some("/x.opml"), some("/urls"), some("/home/u"));
    let mut tried = 0;
    let mut rows = vec![];
    loop {
        match seed_step(&files, tried, rows) {
            SeedStep::Store(stored) => return (stored, tried),
            SeedStep::Read(i) => {
                rows = lists[i].clone();
                tried = i + 1;
            }
        }
    }
}

#[test]
fn feeds_of_a_new_database() {
    assert!(needs_seed(0));
    assert!(!needs_seed(1));
    assert!(needs_seed(-1));
    let row = |name: &str| vec![(name.to_string(), "t".to_string(), "c".to_string())];
    assert_eq!(seeded(vec![row("a"), row("b"), row("c"), row("d")]), (row("a"), 1));
    assert_eq!(seeded(vec![vec![], row("b"), row("c"), row("d")]), (row("b"), 2));
    assert_eq!(seeded(vec![vec![], vec![], row("c"), row("d")]), (row("c"), 3));
    assert_eq!(seeded(vec![vec![], vec![], vec![], row("d")]), (row("d"), 4));
    assert_eq!(seeded(vec![vec![], vec![], vec![], vec![]]), (vec![], 4));
}

#[test]
fn seconds_between_refreshes() {
    assert_eq!(auto_refresh_secs(None), 900);
    assert_eq!(auto_refresh_secs(some("60")), 60);
    assert_eq!(auto_refresh_secs(some("+60")), 60);
    assert_eq!(auto_refresh_secs(some("0")), 0);
    assert_eq!(auto_refresh_secs(some("18446744073709551615")), u64::MAX);
    for bad in ["", "+", "-1", " 60", "60s", "18446744073709551616", "6_0", "++6"] {
        assert_eq!(auto_refresh_secs(some(bad)), 900, "{:?}", bad);
        assert_eq!(parse_number(bad), bad.parse::<u64>().ok());
    }
}

#[test]
fn browsers_in_turn() {
    assert_eq!(next_browser(0), Ok("brave"));
    assert_eq!(next_browser(1), Ok("brave-browser"));
    assert_eq!(next_browser(2), Ok("brave-beta"));
    assert_eq!(next_browser(3), Ok("xdg-open"));
    assert_eq!(
        next_browser(4),
        Err("could not launch browser; tried brave, brave-browser, brave-beta, xdg-open")
    );
}

#[test]
fn question_for_articles() {
    let head = "
        SELECT a.id, a.feed_id, f.title, a.url, a.title,
               COALESCE(a.published_at,''), a.published_ts,
               COALESCE(a.summary,''), COALESCE(a.content,''), a.is_read
        FROM articles a
        JOIN feeds f ON f.id = a.feed_id
        WHERE 1=1
        ";
    let order = " ORDER BY a.published_ts DESC, a.id DESC LIMIT 500";
    let all = article_query(None, "");
    assert_eq!(all.sql, format!("{}{}", head, order));
    assert!(all.binds.is_empty());
    let some_of = article_query(Some(-12), "50% off");
    assert_eq!(
        some_of.sql,
        format!(
            "{} AND a.feed_id = ? AND (a.title LIKE ? OR a.summary LIKE ? OR a.content LIKE ?){}",
            head, order
        )
    );
    assert_eq!(some_of.binds, vec!["-12", "%50% off%", "%50% off%", "%50% off%"]);
}

#[test]
fn one_value_for_each_question_mark() {
    for feed in [None, Some(0), Some(i64::MIN), Some(i64::MAX)] {
        for search in ["", "x", "what?"] {
            let query = article_query(feed, search);
            assert_eq!(query.sql.matches('?').count(), query.binds.len());
        }
    }
    assert_eq!(article_query(Some(i64::MIN), "").binds, vec!["-9223372036854775808"]);
}

#[test]
fn feed_that_was_entered() {
    assert_eq!(entered_feed("  http://x \n"), ("http://x".to_string(), "http://x".to_string()));
}
