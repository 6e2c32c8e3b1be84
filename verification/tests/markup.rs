use dpn_reader::article::ArticleRow;
use dpn_reader::entity::{decode_html_entities, decoded_reference};
use dpn_reader::html::html_to_text;
use dpn_reader::image::{
    accept_address, choose_preview, extract_first_image_url, extract_og_image_url,
    guess_image_ext, image_file_name, image_of_page, image_source, pick_image, viewer_message,
    ImageError,
    ImageSource, ViewerEnd,
};

fn some(s: &str) -> Option<String> {
    Some(s.to_string())
}

#[test]
fn plain_text_is_only_trimmed() {
    assert_eq!(html_to_text("  two  blanks\tand a tab \n"), "two  blanks\tand a tab");
    assert_eq!(html_to_text(" \n "), "");
    assert_eq!(html_to_text(""), "");
}

#[test]
fn tags_go_and_blocks_become_lines() {
    assert_eq!(html_to_text("<p>Hello&nbsp;<b>World</b></p>"), "Hello World");
    assert_eq!(html_to_text("<ul><li>One</li><LI class=x>Two</li></ul>"), "- One\n- Two");
    assert_eq!(html_to_text("a<br>b<BR/>c<br />d"), "a\nb\nc\nd");
    assert_eq!(html_to_text("<h1>T</h1><p>x</p>\r\n<p>y</p>"), "T\nx\n\ny");
    assert_eq!(html_to_text("a <> b <c"), "a <> b <c");
}

#[test]
fn scripts_and_style_sheets_go_with_their_text() {
    assert_eq!(
        html_to_text("a<script type=\"x\">var b = 1;\n</script>c<STYLE>p { }</STYLE>d"),
        "a c d"
    );
}

#[test]
fn images_keep_their_address() {
    let text = html_to_text("a <img alt='x' src=\"http://x.org/y.png\" width=1> b");
    assert_eq!(text, "a\n![image](http://x.org/y.png)\nb");
    assert_eq!(extract_first_image_url(&text), some("http://x.org/y.png"));
}

#[test]
fn text_of_html_has_a_clean_shape() {
    let html = "<div>  a \t b </div>\n\n\n<div>\r\n</div><p> c</p> <p>d&#9;&#9;e</p>  ";
    let text = html_to_text(html);
    assert_eq!(text, "a b\n\nc\n\nd e");
    assert_eq!(html_to_text(&text), text);
}

#[test]
fn taking_the_text_twice_can_decode_twice() {
    let once = html_to_text("&amp;amp;");
    assert_eq!(once, "&amp;");
    assert_eq!(html_to_text(&once), "&");
}

#[test]
fn numeric_references() {
    assert_eq!(decode_html_entities("&#65;&#x42;&#x1F600;"), "AB\u{1F600}");
    assert_eq!(decode_html_entities("&#xD800;&#x110000;&#99999999999;"), "&#xD800;&#x110000;&#99999999999;");
    assert_eq!(decode_html_entities("&#4a;&#;&#x;&#65"), "&#4a;&#;&#x;&#65");
    assert_eq!(decoded_reference("&#65;", "65"), "A");
    assert_eq!(decoded_reference("&#x6f;", "x6f"), "o");
    assert_eq!(decoded_reference("&#X6F;", "X6F"), "o");
    assert_eq!(decoded_reference("&#6f;", "6f"), "&#6f;");
}

#[test]
fn named_references_in_turn() {
    assert_eq!(decode_html_entities("&lt;b&gt; &quot;q&quot; &apos;a&apos; &#39;&nbsp;."), "<b> \"q\" 'a' ' .");
    assert_eq!(decode_html_entities("&amp;lt;"), "<");
    assert_eq!(decode_html_entities("&amp;nbsp;"), "&nbsp;");
    assert_eq!(decode_html_entities("&copy;"), "&copy;");
}

#[test]
fn first_image_of_a_text() {
    assert_eq!(
        extract_first_image_url("x <img class=a src=' https://x.org/a.jpg '> <img src=\"http://b\">"),
        some("https://x.org/a.jpg")
    );
    assert_eq!(
        extract_first_image_url("<img src=\"/local.png\"> ![alt](http://x.org/m.gif)"),
        some("http://x.org/m.gif")
    );
    assert_eq!(extract_first_image_url("<IMG src=\"http://x.org/a.png\">"), None);
    assert_eq!(extract_first_image_url("![alt](ftp://x.org/m.gif)"), None);
    assert_eq!(
        extract_first_image_url("![a](https://e.com/1.png) <img src=\"https://e.com/2.png\">"),
        some("https://e.com/1.png")
    );
    assert_eq!(
        extract_first_image_url("\u{1F600}<img src=\"https://e.com/2.png\"> ![a](https://e.com/1.png)"),
        some("https://e.com/2.png")
    );
    assert_eq!(
        extract_first_image_url("<img src=\"http://a\" data-src='http://b' x"),
        some("http://b")
    );
    assert_eq!(extract_first_image_url("![a](http://) ![b] (http://x) ![c](https://y)"), some("https://y"));
    assert_eq!(extract_first_image_url(""), None);
}

#[test]
fn found_addresses_are_on_the_web() {
    assert_eq!(accept_address(some("  http://x ")), some("http://x"));
    assert_eq!(accept_address(some("https://y")), some("https://y"));
    assert_eq!(accept_address(some("ftp://y")), None);
    assert_eq!(accept_address(None), None);
    let at = |i: usize, s: &str| Some((i, s.to_string()));
    assert_eq!(pick_image(at(0, "/a"), at(9, "http://m")), some("http://m"));
    assert_eq!(pick_image(at(0, "http://h"), at(9, "http://m")), some("http://h"));
    assert_eq!(pick_image(at(9, "http://h"), at(0, "http://m")), some("http://m"));
    assert_eq!(pick_image(at(9, " http://h "), None), some("http://h"));
    assert_eq!(pick_image(None, at(9, "http://m")), some("http://m"));
    assert_eq!(pick_image(None, None), None);
}

#[test]
fn preview_image_of_a_page() {
    let og = "<META property=\"og:image\" name=x content='http://x.org/og.png' />";
    let og_reversed = "<meta content=\"http://x.org/og2.png\" property='og:image'>";
    let twitter = "<meta name=\"twitter:image\" data-x content=\"https://x.org/t.png\">";
    let twitter_reversed = "<meta content=\"https://x.org/t2.png\" name=\"twitter:image\">";
    assert_eq!(extract_og_image_url(og), some("http://x.org/og.png"));
    assert_eq!(extract_og_image_url(og_reversed), some("http://x.org/og2.png"));
    assert_eq!(extract_og_image_url(twitter), some("https://x.org/t.png"));
    assert_eq!(extract_og_image_url(twitter_reversed), some("https://x.org/t2.png"));
    assert_eq!(
        extract_og_image_url(&format!("{}\n{}", twitter, og_reversed)),
        some("http://x.org/og2.png")
    );
    assert_eq!(
        extract_og_image_url("<meta property=\"og:image\" content=\"/relative.png\">"),
        None
    );
    assert_eq!(choose_preview(some("/a"), None, some("http://c"), some("http://d")), some("http://c"));
    assert_eq!(image_of_page(og).unwrap(), "http://x.org/og.png");
    assert_eq!(image_of_page("<html>"), Err(ImageError::NoAddress));
    assert_eq!(ImageError::NoAddress.message(), "No image URL in article/feed content");
}

#[test]
fn extensions_in_addresses() {
    assert_eq!(guess_image_ext("http://x/a.PNG?b"), Some("png"));
    assert_eq!(guess_image_ext("http://x/a.jpg"), Some("jpg"));
    assert_eq!(guess_image_ext("http://x/a.JPEG"), Some("jpg"));
    assert_eq!(guess_image_ext("http://x/a.webp"), Some("webp"));
    assert_eq!(guess_image_ext("http://x/a.gif"), Some("gif"));
    assert_eq!(guess_image_ext("http://x/a.gif.png"), Some("png"));
    assert_eq!(guess_image_ext("http://x/a.svg"), None);
    assert_eq!(guess_image_ext("http://x/a.gif?size=.png"), Some("png"));
    assert_eq!(guess_image_ext("http://x/a.gif?size=1"), Some("gif"));
}

fn article(content: &str, summary: &str) -> ArticleRow {
    ArticleRow {
        id: 1,
        feed_id: 1,
        feed_title: String::new(),
        url: "https://x.org/page".to_string(),
        title: String::new(),
        published_at: String::new(),
        published_ts: 0,
        summary: summary.to_string(),
        content: content.to_string(),
        is_read: 0,
    }
}

#[test]
fn image_of_an_article() {
    let image = "![image](http://x.org/y.png)";
    assert!(matches!(image_source(&article(image, "")), ImageSource::Image(u) if u == "http://x.org/y.png"));
    assert!(matches!(image_source(&article(" ", image)), ImageSource::Image(u) if u == "http://x.org/y.png"));
    assert!(matches!(image_source(&article("x", image)), ImageSource::Page(u) if u == "https://x.org/page"));
}

#[test]
fn file_for_an_image() {
    assert_eq!(
        image_file_name("http://x/a.jpeg", "20240506070809", 3).unwrap(),
        "dpn-reader-image-20240506070809.jpg"
    );
    assert_eq!(image_file_name("http://x/a", "s", 1).unwrap(), "dpn-reader-image-s.img");
    assert_eq!(image_file_name("http://x/a", "s", 0), Err(ImageError::Empty));
    assert_eq!(ImageError::Empty.message(), "Downloaded image is empty");
}

#[test]
fn end_of_the_image_viewer() {
    assert_eq!(viewer_message(&ViewerEnd::Shown), Ok("Image displayed".to_string()));
    assert_eq!(
        viewer_message(&ViewerEnd::Failed("exit status: 1".to_string())),
        Err("kitty icat exited with status exit status: 1".to_string())
    );
    assert_eq!(
        viewer_message(&ViewerEnd::NotStarted("not found".to_string())),
        Err("Failed to run kitty icat: not found".to_string())
    );
}

#[test]
fn image_stays_reachable_in_the_text() {
    let texts = ["", " ", "before\r\n", "a \t b\n\n\n", "x\r", "[a](b) \"q\" 'r'", "äöü "];
    let urls = ["http://x", "https://x.org/a!b](c?d=e#f", "https://\u{1F600}/src="];
    for before in texts {
        for after in texts {
            for url in urls {
                let html = format!("{}<img src=\"{}\">{}", before, url, after);
                assert_eq!(extract_first_image_url(&html_to_text(&html)), some(url), "{:?}", html);
            }
        }
    }
}

#[test]
fn letters_of_tags_are_alike() {
    assert_eq!(html_to_text("a<Br / >b<bR\n/>c"), "a b\nc");
    assert_eq!(html_to_text("a</DIV >b</\u{17f}ection>c</bloc\u{212a}quote\n>d</h7>e"), "a\nb\nc\nd e");
    assert_eq!(html_to_text("a</P\t>b</px>c"), "a\n\nb c");
    assert_eq!(html_to_text("a<\u{17f}cript>x</SCRIPT>b<script>c"), "a b c");
    assert_eq!(html_to_text("<LI class='x'>a<link>b"), "- a- b");
    assert_eq!(
        html_to_text("x<IMG alt=\"src='n'\" SRC='http://a/1' src=''>y"),
        "x\n![image](http://a/1)\ny"
    );
}

#[test]
fn content_of_a_preview_image() {
    let first = "<p><meta name='x' content='http://no'><META \tproperty='og:image\" a content=\"http://x/1\" content='http://x/2' b><meta property='og:image' content='http://x/3'>";
    assert_eq!(extract_og_image_url(first), some("http://x/2"));
    let later = "<meta property='og:image' content='http://x/1' property='og:image' content='http://x/2'>";
    assert_eq!(extract_og_image_url(later), some("http://x/2"));
    let reversed = "<meta content='http://x/1' content='http://x/2' property='og:image'>";
    assert_eq!(extract_og_image_url(reversed), some("http://x/2"));
    assert_eq!(extract_og_image_url("<meta property='og:image' content='http://x/1'"), None);
    assert_eq!(extract_og_image_url("<meta property='og:image'content='http://x/1'>"), None);
    assert_eq!(extract_og_image_url("<meta property='og:image'> content='http://x/1'>"), None);
    assert_eq!(extract_og_image_url("<meta property='og:image' content=''>"), None);
    assert_eq!(
        extract_og_image_url("<meta property='og:image' content='/r'><meta name='twitter:image' content='http://t'>"),
        some("http://t")
    );
}

#[test]
fn preview_image_is_found_in_a_page() {
    for around in ["", "a 'b' \"c\" ", "content=\"http://no\" property=\"og:image\" "] {
        for url in ["http://x", "https://x/property=", "https://x/content=a)b"] {
            let page = format!("{}<meta property=\"og:image\" content=\"{}\">{}", around, url, around);
            assert_eq!(extract_og_image_url(&page), some(url), "{:?}", page);
        }
    }
}
