use dpn_reader::article::ArticleRow;
use dpn_reader::comment::{
    api_target, comment_document, comment_tags, document_number, request_text, saved_document,
    slug_from_lower, slugify, ApiReply, SaveError, THOUGHT_POLICE_PATH,
};
use serde_json::Value;

fn some(s: &str) -> Option<String> {
    Some(s.to_string())
}

fn article(title: &str, published_at: &str) -> ArticleRow {
    ArticleRow {
        id: 3,
        feed_id: 1,
        feed_title: "F \"q\"".to_string(),
        url: "https://x.org/1".to_string(),
        title: title.to_string(),
        published_at: published_at.to_string(),
        published_ts: 0,
        summary: String::new(),
        content: String::new(),
        is_read: 0,
    }
}

#[test]
fn names_made_of_titles() {
    assert_eq!(slugify("  Hello, World! "), "hello-world");
    assert_eq!(slugify("Rust 2.0 -- it's HERE"), "rust-2-0-it-s-here");
    assert_eq!(slugify("Ärger"), "rger");
    assert_eq!(slugify("\u{212a}elvin"), "kelvin");
    assert_eq!(slugify("---"), "untitled");
    assert_eq!(slugify(""), "untitled");
    assert_eq!(slug_from_lower("a_b"), "a-b");
    assert_eq!(slug_from_lower("A b"), "A-b");
}

#[test]
fn a_name_stays_what_it_is() {
    for title in ["Hello, World!", "x", "untitled", "  a -- b  ", "ÄÖÜ", "İstanbul"] {
        let once = slugify(title);
        assert_eq!(slugify(&once), once);
        assert!(!once.is_empty());
        assert!(!once.starts_with('-') && !once.ends_with('-') && !once.contains("--"));
        assert!(once.chars().all(|c| c.is_ascii_lowercase() || c.is_ascii_digit() || c == '-'));
        assert_eq!(once.len(), once.chars().count());
    }
}

#[test]
fn document_for_a_comment() {
    let a = article("On Rust & Verus", "2024-05-06");
    let tags = vec!["reading".to_string(), "b\\c".to_string()];
    let document =
        comment_document(&a, "  my\ncomment \n", &tags, "2024-05-07-080910", "2024-05-07T08:09:10+02:00");
    assert_eq!(
        document.path,
        "Areas/Eckenrode Muziekopname/Executive/Thought Police/2024-05-07-080910-on-rust-verus.md"
    );
    assert!(document.path.starts_with(THOUGHT_POLICE_PATH));
    assert_eq!(document.title, "Reading: On Rust & Verus");
    assert_eq!(
        document.content,
        "# Reading Comment\n\n## Source\n- Title: On Rust & Verus\n- Feed: F \"q\"\n\
         - URL: https://x.org/1\n- Published: 2024-05-06\n\n## Comment\n\nmy\ncomment\n"
    );
    let value: Value = serde_json::from_str(&document.frontmatter).unwrap();
    let object = value.as_object().unwrap();
    assert_eq!(object.len(), 8);
    assert_eq!(value["title"], "Reading: On Rust & Verus");
    assert_eq!(value["status"], "draft");
    assert_eq!(value["type"], "reading_comment");
    assert_eq!(value["source_url"], "https://x.org/1");
    assert_eq!(value["source_feed"], "F \"q\"");
    assert_eq!(value["source_published_at"], "2024-05-06");
    assert_eq!(value["tags"], Value::from(tags));
    assert_eq!(value["created_at"], "2024-05-07T08:09:10+02:00");
    assert_eq!(value.to_string(), document.frontmatter);
}

#[test]
fn document_of_a_long_title_without_a_date() {
    let a = article(&"word ".repeat(30), "");
    let document = comment_document(&a, "c", &[], "s", "t");
    assert_eq!(
        document.path,
        format!("{}s-{}.md", THOUGHT_POLICE_PATH, &"word-".repeat(12))
    );
    assert!(document.content.contains("- Published: unknown\n"));
    let value: Value = serde_json::from_str(&document.frontmatter).unwrap();
    assert_eq!(value["tags"], Value::Array(vec![]));
    assert_eq!(value["source_published_at"], "");
}

#[test]
fn text_that_is_sent() {
    let document = comment_document(&article("T", "d"), "c", &[], "s", "t");
    let value: Value = serde_json::from_str(&request_text(&document)).unwrap();
    assert_eq!(value.as_object().unwrap().len(), 4);
    assert_eq!(value["path"], document.path.as_str());
    assert_eq!(value["title"], "Reading: T");
    assert_eq!(value["frontmatter"], document.frontmatter.as_str());
    assert_eq!(value["content"], document.content.as_str());
}

#[test]
fn tags_of_a_comment() {
    assert_eq!(comment_tags(some(" a  b\tc ")), vec!["a", "b", "c"]);
    assert_eq!(comment_tags(None), vec!["reading"]);
    assert!(comment_tags(some(" ")).is_empty());
}

#[test]
fn where_documents_are_sent() {
    let usual = api_target(None, None);
    assert_eq!(usual.url, "https://api.n8k99.com/documents");
    assert_eq!(usual.authorization, "Bearer ");
    let given = api_target(some("http://localhost:1"), some("k"));
    assert_eq!(given.url, "http://localhost:1/documents");
    assert_eq!(given.authorization, "Bearer k");
}

fn accepted(text: &str) -> Result<i64, String> {
    saved_document(ApiReply::Accepted(text.as_bytes().to_vec())).map_err(|e| e.message())
}

#[test]
fn replies_of_the_server() {
    assert_eq!(accepted("{\"id\": 42, \"x\": 1}"), Ok(42));
    assert_eq!(accepted("{\"id\": \"42\"}"), Ok(0));
    assert_eq!(accepted("{\"id\": 1.5}"), Ok(0));
    assert_eq!(accepted("{}"), Ok(0));
    assert_eq!(accepted("[1]"), Ok(0));
    assert_eq!(accepted("no"), Err("Failed to parse API response".to_string()));
    let message = |reply| saved_document(reply).unwrap_err().message();
    assert_eq!(message(ApiReply::Unreachable), "Could not connect to dpn-api for comment save");
    assert_eq!(message(ApiReply::Broken), "Failed to parse API response");
    assert_eq!(
        message(ApiReply::Refused("404 Not Found".to_string(), "gone".to_string())),
        "API error: 404 Not Found - gone"
    );
    assert!(matches!(document_number(None), Err(SaveError::Unreadable)));
    assert!(matches!(document_number(Some(None)), Ok(0)));
    assert!(matches!(document_number(Some(Some(-7))), Ok(-7)));
}
