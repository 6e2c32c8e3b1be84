//! Finding the image of an article.

use crate::article::{article_body, body_of, ArticleRow};
use crate::pattern::{
    first_match, found_text, html_image, is_web_address, markdown_image, og_image, text_of,
    twitter_image, IMAGE_START, MARKDOWN_IMAGE, OG_IMAGE, OG_IMAGE_REVERSED, TWITTER_IMAGE,
    TWITTER_IMAGE_REVERSED,
};
use crate::text::{
    all_space, ascii_lower, begins_with, chars_of, contains_text, holds_text, is_trimmed,
    law_trimmed, lower_ascii, occurs_at, starts_with, string_of, trim, trimmed,
};
use vstd::prelude::*;
use vstd::utf8::encode_utf8;

verus! {

/// What is made of something that was found where an address is expected: the
/// trimmed text, where it is an address on the web.
pub open spec fn accepted(found: Option<Seq<char>>) -> Option<Seq<char>> {
    match found {
        Some(s) => if is_web_address(trim(s)) {
            Some(trim(s))
        } else {
            None
        },
        None => None,
    }
}

/// The trimmed text that was found, where it is an address on the web.
pub fn accept_address(found: Option<String>) -> (url: Option<String>)
    ensures
        url.deep_view() == accepted(found.deep_view()),
{
    match found {
        Some(s) => {
            let chars: Vec<char> = chars_of(s.as_str());
            let t: &[char] = trimmed(&chars);
            if begins_with(t, "http://") || begins_with(t, "https://") {
                Some(string_of(t))
            } else {
                None
            }
        },
        None => None,
    }
}

/// The first of two results that is there.
pub open spec fn or_else(a: Option<Seq<char>>, b: Option<Seq<char>>) -> Option<Seq<char>> {
    match a {
        Some(x) => Some(x),
        None => b,
    }
}

/// What was found and where, if it is an address on the web.
pub open spec fn accepted_at(found: Option<(int, Seq<char>)>) -> Option<(int, Seq<char>)> {
    match found {
        Some(m) => match accepted(Some(m.1)) {
            Some(url) => Some((m.0, url)),
            None => None,
        },
        None => None,
    }
}

/// The address of the first image in a text, given the first image in HTML and
/// the first one in Markdown, each with the place where it begins: of those with
/// an address on the web, the one that begins first.
pub open spec fn picked(
    html: Option<(int, Seq<char>)>,
    markdown: Option<(int, Seq<char>)>,
) -> Option<Seq<char>> {
    match (accepted_at(html), accepted_at(markdown)) {
        (Some(h), Some(m)) => if h.0 < m.0 {
            Some(h.1)
        } else {
            Some(m.1)
        },
        (Some(h), None) => Some(h.1),
        (None, Some(m)) => Some(m.1),
        (None, None) => None,
    }
}

/// What was found, with its place as a number.
pub open spec fn placed_at(found: Option<(usize, Seq<char>)>) -> Option<(int, Seq<char>)> {
    match found {
        Some(m) => Some((m.0 as int, m.1)),
        None => None,
    }
}

/// The address of the first image, given the first image in HTML and the first
/// one in Markdown, each with the place where it begins.
pub fn pick_image(html: Option<(usize, String)>, markdown: Option<(usize, String)>) -> (url: Option<
    String,
>)
    ensures
        url.deep_view() == picked(
            placed_at(html.deep_view()),
            placed_at(markdown.deep_view()),
        ),
{
    let html: Option<(usize, String)> = accept_at(html);
    let markdown: Option<(usize, String)> = accept_at(markdown);
    match (html, markdown) {
        (Some(h), Some(m)) => if h.0 < m.0 {
            Some(h.1)
        } else {
            Some(m.1)
        },
        (Some(h), None) => Some(h.1),
        (None, Some(m)) => Some(m.1),
        (None, None) => None,
    }
}

/// What was found and where, if it is an address on the web.
fn accept_at(found: Option<(usize, String)>) -> (out: Option<(usize, String)>)
    ensures
        placed_at(out.deep_view()) == accepted_at(placed_at(found.deep_view())),
{
    match found {
        Some((start, text)) => {
            assert(Some(text).deep_view() == Some(text@));
            match accept_address(Some(text)) {
                Some(url) => Some((start, url)),
                None => None,
            }
        },
        None => None,
    }
}

/// The address of the first image in the text of a feed, in HTML or Markdown.
pub open spec fn first_image(content: Seq<char>) -> Option<Seq<char>> {
    picked(html_image(content, 0), markdown_image(content, 0))
}

/// The address of the first image in the text of a feed, in HTML or Markdown. It
/// is an address on the web.
pub fn extract_first_image_url(content: &str) -> (url: Option<String>)
    ensures
        url.deep_view() == first_image(content@),
        url matches Some(u) ==> is_web_address(u@),
{
    let html: Option<(usize, String)> = first_match(IMAGE_START, content);
    let markdown: Option<(usize, String)> = first_match(MARKDOWN_IMAGE, content);
    proof {
        let s = content@;
        lemma_html_image_place(s, 0);
        lemma_markdown_image_place(s, 0);
        if html is Some && markdown is Some {
            let i = (html_image(s, 0)->0).0;
            let k = (markdown_image(s, 0)->0).0;
            lemma_bytes_before(s, i, k);
            lemma_bytes_before(s, k, i);
        }
    }
    pick_image(html, markdown)
}

/// An image in HTML begins within the text.
proof fn lemma_html_image_place(s: Seq<char>, i: int)
    requires
        0 <= i,
    ensures
        html_image(s, i) matches Some(m) ==> i <= m.0 < s.len(),
    decreases s.len() - i,
{
    if i < s.len() {
        lemma_html_image_place(s, i + 1);
    }
}

/// An image in Markdown begins within the text.
proof fn lemma_markdown_image_place(s: Seq<char>, i: int)
    requires
        0 <= i,
    ensures
        markdown_image(s, i) matches Some(m) ==> i <= m.0 < s.len(),
    decreases s.len() - i,
{
    if i < s.len() {
        lemma_markdown_image_place(s, i + 1);
    }
}

/// What begins further back in a text has more bytes before it.
proof fn lemma_bytes_before(s: Seq<char>, i: int, k: int)
    requires
        0 <= i <= s.len(),
        0 <= k <= s.len(),
    ensures
        i < k ==> encode_utf8(s.take(i)).len() < encode_utf8(s.take(k)).len(),
{
    if i < k {
        let more = s.subrange(i, k);
        assert(s.take(k) =~= s.take(i) + more);
        lemma_bytes_of_both(s.take(i), more);
        assert(encode_utf8(more).len() > 0);
    }
}

/// The bytes of two texts, one after the other.
proof fn lemma_bytes_of_both(a: Seq<char>, b: Seq<char>)
    ensures
        encode_utf8(a + b).len() == encode_utf8(a).len() + encode_utf8(b).len(),
    decreases a.len(),
{
    if a.len() == 0 {
        assert(a + b =~= b);
    } else {
        assert((a + b).drop_first() =~= a.drop_first() + b);
        lemma_bytes_of_both(a.drop_first(), b);
    }
}

/// The address of the preview image of a page, given what the four searches
/// for it have found: the first one that is an address on the web.
pub open spec fn chosen_preview(
    a: Option<Seq<char>>,
    b: Option<Seq<char>>,
    c: Option<Seq<char>>,
    d: Option<Seq<char>>,
) -> Option<Seq<char>> {
    or_else(accepted(a), or_else(accepted(b), or_else(accepted(c), accepted(d))))
}

/// The first of four findings that is an address on the web.
pub fn choose_preview(
    a: Option<String>,
    b: Option<String>,
    c: Option<String>,
    d: Option<String>,
) -> (url: Option<String>)
    ensures
        url.deep_view() == chosen_preview(
            a.deep_view(),
            b.deep_view(),
            c.deep_view(),
            d.deep_view(),
        ),
{
    match accept_address(a) {
        Some(url) => Some(url),
        None => match accept_address(b) {
            Some(url) => Some(url),
            None => match accept_address(c) {
                Some(url) => Some(url),
                None => accept_address(d),
            },
        },
    }
}

/// The address of the preview image of a page: the one that a tag names for all
/// readers goes before the one for Twitter, and each is looked for first in tags
/// that name it before its address and then in those that name it after.
pub open spec fn preview_image(page: Seq<char>) -> Option<Seq<char>> {
    chosen_preview(
        text_of(og_image(page, true)),
        text_of(og_image(page, false)),
        text_of(twitter_image(page, true)),
        text_of(twitter_image(page, false)),
    )
}

/// The address of the preview image that a page names for itself. It is an
/// address on the web.
pub fn extract_og_image_url(page_html: &str) -> (url: Option<String>)
    ensures
        url.deep_view() == preview_image(page_html@),
        url matches Some(u) ==> is_web_address(u@),
{
    choose_preview(
        found_text(first_match(OG_IMAGE, page_html)),
        found_text(first_match(OG_IMAGE_REVERSED, page_html)),
        found_text(first_match(TWITTER_IMAGE, page_html)),
        found_text(first_match(TWITTER_IMAGE_REVERSED, page_html)),
    )
}

/// The file extension that the address of an image speaks of.
pub open spec fn extension_in(url: Seq<char>) -> Option<Seq<char>> {
    let u = ascii_lower(url);
    if contains_text(u, ".png"@) {
        Some("png"@)
    } else if contains_text(u, ".jpg"@) || contains_text(u, ".jpeg"@) {
        Some("jpg"@)
    } else if contains_text(u, ".webp"@) {
        Some("webp"@)
    } else if contains_text(u, ".gif"@) {
        Some("gif"@)
    } else {
        None
    }
}

/// The file extension for the image at `url`, where the address speaks of one.
pub fn guess_image_ext(url: &str) -> (ext: Option<&'static str>)
    ensures
        ext.deep_view() == extension_in(url@),
{
    let u: Vec<char> = lower_ascii(&chars_of(url));
    if holds_text(&u, ".png") {
        Some("png")
    } else if holds_text(&u, ".jpg") || holds_text(&u, ".jpeg") {
        Some("jpg")
    } else if holds_text(&u, ".webp") {
        Some("webp")
    } else if holds_text(&u, ".gif") {
        Some("gif")
    } else {
        None
    }
}

// ---------------------------------------------------------------------------
// Showing an image
// ---------------------------------------------------------------------------

/// Where the image of an article is to be had.
#[derive(Debug)]
pub enum ImageSource {
    /// The address of the image.
    Image(String),
    /// The address of a page that may name an image.
    Page(String),
}

/// Where an image is to be had, as plain values.
pub enum ImageSourceData {
    Image(Seq<char>),
    Page(Seq<char>),
}

impl DeepView for ImageSource {
    type V = ImageSourceData;

    open spec fn deep_view(&self) -> ImageSourceData {
        match self {
            ImageSource::Image(url) => ImageSourceData::Image(url@),
            ImageSource::Page(url) => ImageSourceData::Page(url@),
        }
    }
}

/// Why no image is shown.
#[derive(Clone, Copy, Debug, PartialEq, Eq, Structural)]
pub enum ImageError {
    /// Neither the article nor its page names an image.
    NoAddress,
    /// There is nothing in the file of the image.
    Empty,
}

impl ImageError {
    /// The words for the error.
    pub open spec fn words(self) -> Seq<char> {
        match self {
            ImageError::NoAddress => "No image URL in article/feed content"@,
            ImageError::Empty => "Downloaded image is empty"@,
        }
    }

    /// The words for the error.
    pub fn message(&self) -> (text: &'static str)
        ensures
            text@ == self.words(),
    {
        match self {
            ImageError::NoAddress => "No image URL in article/feed content",
            ImageError::Empty => "Downloaded image is empty",
        }
    }
}

/// Where the image of an article is to be had: in its own text, or else
/// through its page.
pub fn image_source(article: &ArticleRow) -> (source: ImageSource)
    ensures
        source.deep_view() == match first_image(body_of(article.deep_view())) {
            Some(url) => ImageSourceData::Image(url),
            None => ImageSourceData::Page(article.url@),
        },
{
    match extract_first_image_url(article_body(article)) {
        Some(url) => ImageSource::Image(url),
        None => ImageSource::Page(article.url.clone()),
    }
}

/// The address of the image that the page of an article names.
pub fn image_of_page(page: &str) -> (url: Result<String, ImageError>)
    ensures
        match preview_image(page@) {
            Some(u) => url is Ok && url->Ok_0@ == u,
            None => url == Err::<String, ImageError>(ImageError::NoAddress),
        },
{
    match extract_og_image_url(page) {
        Some(url) => Ok(url),
        None => Err(ImageError::NoAddress),
    }
}

/// The name of the file for an image: its extension is `img` where the address
/// speaks of none.
pub open spec fn file_name_for(url: Seq<char>, stamp: Seq<char>) -> Seq<char> {
    "dpn-reader-image-"@ + stamp + "."@ + match extension_in(url) {
        Some(ext) => ext,
        None => "img"@,
    }
}

/// The name of the file for the `size` bytes of the image at `url`, made at
/// the time `stamp`.
pub fn image_file_name(url: &str, stamp: &str, size: usize) -> (name: Result<String, ImageError>)
    ensures
        size == 0 ==> name == Err::<String, ImageError>(ImageError::Empty),
        size > 0 ==> name is Ok && name->Ok_0@ == file_name_for(url@, stamp@),
{
    if size == 0 {
        return Err(ImageError::Empty);
    }
    let ext: &str = match guess_image_ext(url) {
        Some(ext) => ext,
        None => "img",
    };
    Ok(String::new().concat("dpn-reader-image-").concat(stamp).concat(".").concat(ext))
}

/// How the program that shows images ended.
#[derive(Debug)]
pub enum ViewerEnd {
    /// It showed the image.
    Shown,
    /// It ended with this status.
    Failed(String),
    /// It could not be started, for this reason.
    NotStarted(String),
}

/// What is said of the end of the program that shows images: `Ok` where it
/// showed the image.
pub fn viewer_message(end: &ViewerEnd) -> (said: Result<String, String>)
    ensures
        match end {
            ViewerEnd::Shown => said is Ok && said->Ok_0@ == "Image displayed"@,
            ViewerEnd::Failed(status) => said is Err && said->Err_0@
                == "kitty icat exited with status "@ + status@,
            ViewerEnd::NotStarted(reason) => said is Err && said->Err_0@
                == "Failed to run kitty icat: "@ + reason@,
        },
{
    match end {
        ViewerEnd::Shown => Ok(String::new().concat("Image displayed")),
        ViewerEnd::Failed(status) => Err(
            String::new().concat("kitty icat exited with status ").concat(status.as_str()),
        ),
        ViewerEnd::NotStarted(reason) => Err(
            String::new().concat("Failed to run kitty icat: ").concat(reason.as_str()),
        ),
    }
}

/// An address that speaks of a file extension still speaks of one when it goes
/// on.
pub proof fn law_longer_address(url: Seq<char>, more: Seq<char>)
    requires
        extension_in(url) is Some,
    ensures
        extension_in(url + more) is Some,
{
    let u = ascii_lower(url);
    let v = ascii_lower(url + more);
    assert(v =~= u + ascii_lower(more));
    lemma_still_holds(u, ascii_lower(more), ".png"@);
    lemma_still_holds(u, ascii_lower(more), ".jpg"@);
    lemma_still_holds(u, ascii_lower(more), ".jpeg"@);
    lemma_still_holds(u, ascii_lower(more), ".webp"@);
    lemma_still_holds(u, ascii_lower(more), ".gif"@);
}

/// What stands in a text stands in one that goes on.
proof fn lemma_still_holds(s: Seq<char>, more: Seq<char>, part: Seq<char>)
    ensures
        contains_text(s, part) ==> contains_text(s + more, part),
{
    if contains_text(s, part) {
        let i = choose|i: int| occurs_at(s, part, i);
        assert((s + more).subrange(i, i + part.len()) =~= s.subrange(i, i + part.len()));
        assert(occurs_at(s + more, part, i));
    }
}

/// An address is taken without the white space around it, wherever it begins with
/// `http://` or `https://`, and only there.
pub proof fn law_accepted(a: Seq<char>, url: Seq<char>, b: Seq<char>)
    requires
        all_space(a),
        all_space(b),
        is_trimmed(url),
    ensures
        starts_with(url, "http://"@) || starts_with(url, "https://"@) ==> accepted(Some(a + url + b))
            == Some(url),
        !starts_with(url, "http://"@) && !starts_with(url, "https://"@) ==> accepted(
            Some(a + url + b),
        ) is None,
        accepted(None) is None,
{
    law_trimmed(a, url, b);
}

/// Of an image in HTML and one in Markdown the one that comes first is taken, and
/// where only one of them has an address on the web, that one.
pub proof fn law_picked(i: int, url: Seq<char>, k: int, other: Seq<char>)
    requires
        is_trimmed(url),
        is_trimmed(other),
        starts_with(url, "http://"@) || starts_with(url, "https://"@),
    ensures
        picked(Some((i, url)), None) == Some(url),
        picked(None, Some((i, url))) == Some(url),
        picked(None, None) is None,
        i < k ==> picked(Some((i, url)), Some((k, other))) == Some(url),
        i <= k ==> picked(Some((k, other)), Some((i, url))) == Some(url),
        !starts_with(other, "http://"@) && !starts_with(other, "https://"@) ==> {
            &&& picked(Some((i, url)), Some((k, other))) == Some(url)
            &&& picked(Some((k, other)), Some((i, url))) == Some(url)
        },
{
    let nothing = Seq::<char>::empty();
    law_accepted(nothing, url, nothing);
    law_accepted(nothing, other, nothing);
    assert(nothing + url + nothing =~= url);
    assert(nothing + other + nothing =~= other);
}

/// Of the preview images that a page may name, the first one with an address on
/// the web is taken.
pub proof fn law_preview_order(
    a: Option<Seq<char>>,
    b: Option<Seq<char>>,
    c: Option<Seq<char>>,
    d: Option<Seq<char>>,
)
    ensures
        accepted(a) is Some ==> chosen_preview(a, b, c, d) == accepted(a),
        accepted(a) is None && accepted(b) is Some ==> chosen_preview(a, b, c, d) == accepted(b),
        accepted(a) is None && accepted(b) is None && accepted(c) is Some ==> chosen_preview(
            a,
            b,
            c,
            d,
        ) == accepted(c),
        accepted(a) is None && accepted(b) is None && accepted(c) is None ==> chosen_preview(
            a,
            b,
            c,
            d,
        ) == accepted(d),
{
}

/// Where a text with one dot in it can hold an ending.
proof fn lemma_ending_place(a: Seq<char>, e: Seq<char>, b: Seq<char>, ending: Seq<char>)
    requires
        !a.contains('.'),
        !b.contains('.'),
        !e.drop_first().contains('.'),
        e.len() > 0,
        ending.len() > 0,
        ending[0] == '.',
        contains_text(ascii_lower(a + e + b), ending),
    ensures
        forall|i: int|
            0 <= i < ending.len() && i < e.len() ==> #[trigger] ascii_lower(e)[i] == ending[i],
{
    let s = a + e + b;
    let u = ascii_lower(s);
    let k = choose|k: int| occurs_at(u, ending, k);
    let t = u.subrange(k, k + ending.len());
    assert(t[0] == u[k]);
    assert(s[k] == '.');
    if k < a.len() {
        assert(a.contains(a[k]));
    } else if k >= a.len() + e.len() {
        assert(b.contains(b[k - a.len() - e.len()]));
    } else if k > a.len() {
        assert(e.drop_first()[k - a.len() - 1] == '.');
    }
    assert(k == a.len());
    assert forall|i: int| 0 <= i < ending.len() && i < e.len() implies #[trigger] ascii_lower(e)[i]
        == ending[i] by {
        assert(t[i] == u[k + i]);
        assert(s[k + i] == e[i]);
    }
}

/// The ending of an address tells what its image is, in capital or small letters,
/// wherever it stands. Without one it does not tell.
pub proof fn law_extension(a: Seq<char>, e: Seq<char>, b: Seq<char>)
    requires
        !a.contains('.'),
        !b.contains('.'),
    ensures
        ascii_lower(e) == ".png"@ ==> extension_in(a + e + b) == Some("png"@),
        ascii_lower(e) == ".jpg"@ ==> extension_in(a + e + b) == Some("jpg"@),
        ascii_lower(e) == ".jpeg"@ ==> extension_in(a + e + b) == Some("jpg"@),
        ascii_lower(e) == ".webp"@ ==> extension_in(a + e + b) == Some("webp"@),
        ascii_lower(e) == ".gif"@ ==> extension_in(a + e + b) == Some("gif"@),
        extension_in(a) is None,
{
    reveal_strlit(".png");
    reveal_strlit(".jpg");
    reveal_strlit(".jpeg");
    reveal_strlit(".webp");
    reveal_strlit(".gif");
    let s = a + e + b;
    let u = ascii_lower(s);
    let f = ascii_lower(e);
    assert(u.subrange(a.len() as int, (a.len() + e.len()) as int) =~= f);
    assert(occurs_at(u, f, a.len() as int));
    assert forall|ending: Seq<char>|
        ending.len() > 0 && ending[0] == '.' implies !#[trigger] contains_text(
        ascii_lower(a),
        ending,
    ) by {
        if contains_text(ascii_lower(a), ending) {
            let k = choose|k: int| occurs_at(ascii_lower(a), ending, k);
            assert(ascii_lower(a).subrange(k, k + ending.len())[0] == ascii_lower(a)[k]);
            assert(a[k] == '.');
        }
    }
    if f == ".png"@ || f == ".jpg"@ || f == ".jpeg"@ || f == ".webp"@ || f == ".gif"@ {
        assert(f.len() > 1 && f[0] == '.');
        assert(forall|i: int| 0 < i < f.len() ==> #[trigger] f[i] != '.');
        assert(e[0] == '.') by {
            assert(f[0] == crate::text::ascii_lower_char(e[0]));
        }
        assert(!e.drop_first().contains('.')) by {
            if e.drop_first().contains('.') {
                let i = choose|i: int| 0 <= i < e.drop_first().len() && e.drop_first()[i] == '.';
                assert(e[i + 1] == '.');
                assert(f[i + 1] == '.');
            }
        }
        if contains_text(u, ".png"@) {
            lemma_ending_place(a, e, b, ".png"@);
            assert(f[1] == 'p');
        }
        if contains_text(u, ".jpg"@) {
            lemma_ending_place(a, e, b, ".jpg"@);
            assert(f[1] == 'j');
        }
        if contains_text(u, ".jpeg"@) {
            lemma_ending_place(a, e, b, ".jpeg"@);
            assert(f[1] == 'j');
        }
        if contains_text(u, ".webp"@) {
            lemma_ending_place(a, e, b, ".webp"@);
            assert(f[1] == 'w');
        }
    }
}

/// The file of an image is named after the time and what the image is, and ends in
/// `.img` where its address does not tell.
pub proof fn law_file_name(url: Seq<char>, stamp: Seq<char>)
    ensures
        extension_in(url) matches Some(ext) ==> file_name_for(url, stamp) == "dpn-reader-image-"@
            + stamp + "."@ + ext,
        extension_in(url) is None ==> file_name_for(url, stamp) == "dpn-reader-image-"@ + stamp
            + "."@ + "img"@,
{
}

} // verus!
