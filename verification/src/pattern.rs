//! The regular expressions that the reader searches for, and what they find.

use crate::text::{
    ascii_lower_char, is_ascii_upper, is_space, occurs_at, other_than, run, starts_with,
};
use regex::Regex;
use vstd::prelude::*;
use vstd::utf8::encode_utf8;

verus! {

/// An image in HTML, with its address as the first group.
pub const IMAGE_TAG: &'static str = r#"(?is)<img[^>]+src=["']([^"']+)["'][^>]*>"#;

/// A script with its text.
pub const SCRIPT: &'static str = r"(?is)<script[^>]*>.*?</script>";

/// A style sheet with its text.
pub const STYLE_SHEET: &'static str = r"(?is)<style[^>]*>.*?</style>";

/// A line break.
pub const LINE_BREAK: &'static str = r"(?is)<br\s*/?>";

/// The end of a paragraph.
pub const PARAGRAPH_END: &'static str = r"(?is)</p\s*>";

/// The end of another block.
pub const BLOCK_END: &'static str =
    r"(?is)</(div|section|article|header|footer|h[1-6]|li|tr|blockquote)\s*>";

/// The beginning of a list item.
pub const LIST_ITEM: &'static str = r"(?is)<li[^>]*>";

/// Any tag.
pub const TAG: &'static str = r"(?is)<[^>]+>";

/// A run of blanks and tabs.
pub const BLANKS: &'static str = r"[ \t]+";

/// A numeric character reference, with what stands between `&#` and `;` as
/// the first group.
pub const NUMERIC_REFERENCE: &'static str = r"&#(x?[0-9A-Fa-f]+);";

/// A text in double quotes, with the text as the first group.
pub const QUOTED: &'static str = r#"\"([^\"]+)\""#;

/// The beginning of an image in HTML, with its address as the first group.
pub const IMAGE_START: &'static str = r#"<img[^>]+src=[\"']([^\"']+)[\"']"#;

/// An image in Markdown, with its address as the first group.
pub const MARKDOWN_IMAGE: &'static str = r#"!\[[^\]]*\]\((https?://[^)\s]+)\)"#;

/// The preview image of a page, named before its address.
pub const OG_IMAGE: &'static str =
    r#"(?is)<meta[^>]+property=["']og:image["'][^>]+content=["']([^"']+)["'][^>]*>"#;

/// The preview image of a page, named after its address.
pub const OG_IMAGE_REVERSED: &'static str =
    r#"(?is)<meta[^>]+content=["']([^"']+)["'][^>]+property=["']og:image["'][^>]*>"#;

/// The preview image for Twitter, named before its address.
pub const TWITTER_IMAGE: &'static str =
    r#"(?is)<meta[^>]+name=["']twitter:image["'][^>]+content=["']([^"']+)["'][^>]*>"#;

/// The preview image for Twitter, named after its address.
pub const TWITTER_IMAGE_REVERSED: &'static str =
    r#"(?is)<meta[^>]+content=["']([^"']+)["'][^>]+name=["']twitter:image["'][^>]*>"#;

/// The patterns that are searched for, each with a first group: they are regular
/// expressions without mistakes.
pub open spec fn is_searched(pattern: Seq<char>) -> bool {
    ||| pattern == QUOTED@
    ||| pattern == IMAGE_START@
    ||| pattern == MARKDOWN_IMAGE@
    ||| pattern == OG_IMAGE@
    ||| pattern == OG_IMAGE_REVERSED@
    ||| pattern == TWITTER_IMAGE@
    ||| pattern == TWITTER_IMAGE_REVERSED@
}

/// The patterns that are replaced by a fixed text, in which no `$` stands for a
/// group: they are regular expressions without mistakes.
pub open spec fn is_replaced(pattern: Seq<char>) -> bool {
    ||| pattern == SCRIPT@
    ||| pattern == STYLE_SHEET@
    ||| pattern == LINE_BREAK@
    ||| pattern == PARAGRAPH_END@
    ||| pattern == BLOCK_END@
    ||| pattern == LIST_ITEM@
    ||| pattern == TAG@
    ||| pattern == BLANKS@
}

/// What an image in HTML is replaced by; `$1` stands for its address.
pub const IMAGE_SHOWN: &'static str = "\n![image]($1)\n";

/// `Regex::new` and `Regex::replace_all`: every match of the pattern, from
/// left to right and without overlap, is replaced. The contract says for each
/// pattern what its matches are.
#[verifier::external_body]
pub(crate) fn replace_all(pattern: &str, text: &str, by: &str) -> (out: String)
    requires
        (is_replaced(pattern@) && !by@.contains('$')) || (pattern@ == IMAGE_TAG@ && by@
            == IMAGE_SHOWN@),
    ensures
        pattern@ == IMAGE_TAG@ && by@ == IMAGE_SHOWN@ ==> out@ == images_shown(text@),
        pattern@ == SCRIPT@ ==> out@ == pieces_replaced(text@, script(), by@),
        pattern@ == STYLE_SHEET@ ==> out@ == pieces_replaced(text@, style_sheet(), by@),
        pattern@ == LINE_BREAK@ ==> out@ == pieces_replaced(text@, line_break(), by@),
        pattern@ == PARAGRAPH_END@ ==> out@ == pieces_replaced(text@, paragraph_end(), by@),
        pattern@ == BLOCK_END@ ==> out@ == pieces_replaced(text@, block_end(), by@),
        pattern@ == LIST_ITEM@ ==> out@ == pieces_replaced(text@, list_item(), by@),
        pattern@ == TAG@ ==> out@ == pieces_replaced(text@, tag(), by@),
        pattern@ == BLANKS@ ==> out@ == pieces_replaced(text@, blanks(), by@),
{
    Regex::new(pattern).expect("valid regex").replace_all(text, by).into_owned()
}

/// `Regex::new`, `Regex::captures`, `Captures::get` and `Match::start`: where
/// the leftmost match begins, counted in bytes, and its first group, or `None`
/// where there is no match. The contract says for each pattern which match that
/// is.
#[verifier::external_body]
pub(crate) fn first_match(pattern: &str, text: &str) -> (found: Option<(usize, String)>)
    requires
        is_searched(pattern@),
    ensures
        pattern@ == QUOTED@ ==> found_as(found, text@, quoted_text(text@, 0)),
        pattern@ == IMAGE_START@ ==> found_as(found, text@, html_image(text@, 0)),
        pattern@ == MARKDOWN_IMAGE@ ==> found_as(found, text@, markdown_image(text@, 0)),
        pattern@ == OG_IMAGE@ ==> found_as(found, text@, og_image(text@, true)),
        pattern@ == OG_IMAGE_REVERSED@ ==> found_as(found, text@, og_image(text@, false)),
        pattern@ == TWITTER_IMAGE@ ==> found_as(found, text@, twitter_image(text@, true)),
        pattern@ == TWITTER_IMAGE_REVERSED@ ==> found_as(found, text@, twitter_image(text@, false)),
{
    let found = Regex::new(pattern).expect("valid regex").captures(text)?;
    Some((found.get(0)?.start(), found.get(1)?.as_str().to_string()))
}

/// What was found in `text`, counted in bytes, is `want`, counted in characters.
pub open spec fn found_as(
    found: Option<(usize, String)>,
    text: Seq<char>,
    want: Option<(int, Seq<char>)>,
) -> bool {
    match (found, want) {
        (Some(m), Some(w)) => m.0 == encode_utf8(text.take(w.0)).len() && m.1@ == w.1,
        (None, None) => true,
        _ => false,
    }
}

/// The text that was found, wherever that was.
pub open spec fn text_of(found: Option<(int, Seq<char>)>) -> Option<Seq<char>> {
    match found {
        Some(m) => Some(m.1),
        None => None,
    }
}

/// The text that was found, wherever that was.
pub(crate) fn found_text(found: Option<(usize, String)>) -> (text: Option<String>)
    ensures
        match found {
            Some(m) => text.deep_view() == Some(m.1@),
            None => text is None,
        },
{
    match found {
        Some((_, text)) => Some(text),
        None => None,
    }
}

// ---------------------------------------------------------------------------
// What matches
// ---------------------------------------------------------------------------

/// `s` with the pieces that `length` finds replaced by `by`, from left to right
/// and without overlap. `length` is the length of the piece that a text begins
/// with, and zero where it begins with none.
pub open spec fn pieces_replaced(
    s: Seq<char>,
    length: spec_fn(Seq<char>) -> nat,
    by: Seq<char>,
) -> Seq<char>
    decreases s.len(),
{
    if s.len() == 0 {
        s
    } else if 0 < length(s) <= s.len() {
        by + pieces_replaced(s.skip(length(s) as int), length, by)
    } else {
        seq![s[0]] + pieces_replaced(s.drop_first(), length, by)
    }
}

/// A letter where capital and small letters are alike: the small ASCII letter
/// for a capital one, and also for the long s and the Kelvin sign.
pub open spec fn folded_char(c: char) -> char {
    if is_ascii_upper(c) {
        ascii_lower_char(c)
    } else if c == '\u{17f}' {
        's'
    } else if c == '\u{212a}' {
        'k'
    } else {
        c
    }
}

/// A text in which capital and small letters are alike.
pub open spec fn folded(s: Seq<char>) -> Seq<char> {
    s.map_values(|c: char| folded_char(c))
}

/// White space.
pub open spec fn white() -> spec_fn(char) -> bool {
    |c: char| is_space(c)
}

/// The blank and the tab.
pub open spec fn blank_or_tab() -> spec_fn(char) -> bool {
    |c: char| c == ' ' || c == '\t'
}

/// The characters of the name of a tag.
pub open spec fn in_name() -> spec_fn(char) -> bool {
    |c: char| c != '>' && !is_space(c)
}

/// The characters other than quotes.
pub open spec fn no_quote() -> spec_fn(char) -> bool {
    |c: char| !is_quote(c)
}

/// The double quote and the single one.
pub open spec fn is_quote(c: char) -> bool {
    c == '"' || c == '\''
}

/// The characters of an address in Markdown.
pub open spec fn in_address() -> spec_fn(char) -> bool {
    |c: char| c != ')' && !is_space(c)
}

/// A run of blanks and tabs.
pub open spec fn blanks() -> spec_fn(Seq<char>) -> nat {
    |s: Seq<char>| run(s, blank_or_tab())
}

/// A tag: it begins with `<`, ends with the next `>` and is not empty between
/// them.
pub open spec fn tag() -> spec_fn(Seq<char>) -> nat {
    |s: Seq<char>| tag_length(s)
}

/// The length of the tag that `s` begins with.
pub open spec fn tag_length(s: Seq<char>) -> nat {
    let n = run(s.skip(1), other_than('>'));
    if starts_with(s, seq!['<']) && n > 0 && n + 1 < s.len() {
        n + 2
    } else {
        0
    }
}

/// The beginning of a list item: `<li` and all up to the next `>`.
pub open spec fn list_item() -> spec_fn(Seq<char>) -> nat {
    |s: Seq<char>| list_item_length(s)
}

/// The length of the beginning of a list item that `s` begins with.
pub open spec fn list_item_length(s: Seq<char>) -> nat {
    let n = 3 + run(s.skip(3), other_than('>'));
    if starts_with(folded(s), "<li"@) && n < s.len() {
        n + 1
    } else {
        0
    }
}

/// A line break: `<br`, white space or not, a slash or not, and `>`.
pub open spec fn line_break() -> spec_fn(Seq<char>) -> nat {
    |s: Seq<char>| line_break_length(s)
}

/// The length of the line break that `s` begins with.
pub open spec fn line_break_length(s: Seq<char>) -> nat {
    let n = 3 + run(s.skip(3), white());
    let m = if n < s.len() && s[n as int] == '/' {
        n + 1
    } else {
        n
    };
    if starts_with(folded(s), "<br"@) && m < s.len() && s[m as int] == '>' {
        m + 1
    } else {
        0
    }
}

/// The end of a paragraph.
pub open spec fn paragraph_end() -> spec_fn(Seq<char>) -> nat {
    |s: Seq<char>| end_length(s, |name: Seq<char>| name == "p"@)
}

/// The end of another block.
pub open spec fn block_end() -> spec_fn(Seq<char>) -> nat {
    |s: Seq<char>| end_length(s, |name: Seq<char>| is_block(name))
}

/// The names of the other blocks.
pub open spec fn is_block(name: Seq<char>) -> bool {
    ||| name == "div"@
    ||| name == "section"@
    ||| name == "article"@
    ||| name == "header"@
    ||| name == "footer"@
    ||| name.len() == 2 && name[0] == 'h' && '1' <= name[1] <= '6'
    ||| name == "li"@
    ||| name == "tr"@
    ||| name == "blockquote"@
}

/// The length of the end tag that `s` begins with: `</`, one of the names, white
/// space or not, and `>`.
pub open spec fn end_length(s: Seq<char>, names: spec_fn(Seq<char>) -> bool) -> nat {
    let n = run(s.skip(2), in_name());
    let m = 2 + n + run(s.skip((2 + n) as int), white());
    if starts_with(s, seq!['<', '/']) && names(folded(s.subrange(2, (2 + n) as int))) && m < s.len()
        && s[m as int] == '>' {
        m + 1
    } else {
        0
    }
}

/// A script with its text.
pub open spec fn script() -> spec_fn(Seq<char>) -> nat {
    |s: Seq<char>| element_length(s, "<script"@, "</script>"@)
}

/// A style sheet with its text.
pub open spec fn style_sheet() -> spec_fn(Seq<char>) -> nat {
    |s: Seq<char>| element_length(s, "<style"@, "</style>"@)
}

/// The length of the element that `s` begins with: a tag that begins with
/// `start`, and all after it up to and with the first `close`.
pub open spec fn element_length(s: Seq<char>, start: Seq<char>, close: Seq<char>) -> nat {
    let n = start.len() + run(s.skip(start.len() as int), other_than('>'));
    if starts_with(folded(s), start) && n < s.len() {
        match next_text(folded(s), close, n + 1) {
            Some(i) => i + close.len(),
            None => 0,
        }
    } else {
        0
    }
}

/// Where `part` stands in `s` for the first time, from `from` on.
pub open spec fn next_text(s: Seq<char>, part: Seq<char>, from: nat) -> Option<nat>
    decreases s.len() - from,
{
    if from >= s.len() {
        None
    } else if occurs_at(s, part, from as int) {
        Some(from)
    } else {
        next_text(s, part, from + 1)
    }
}

/// The length of the text in quotes after `name` at index `j`: the quotes are of
/// either kind, and the text is not empty. It is zero where there is none. `t` is
/// the text by which names are compared.
pub open spec fn quoted_length(s: Seq<char>, t: Seq<char>, name: Seq<char>, j: int) -> nat {
    let k = j + name.len();
    let n = run(s.skip(k + 1), no_quote());
    if occurs_at(t, name, j) && k < s.len() && is_quote(s[k]) && k + 1 + n < s.len() {
        n
    } else {
        0
    }
}

/// The last `name` with a text in quotes, from index `j` down to index `low`,
/// which is not zero. Where `closed` holds, a `>` comes after the text. It is zero
/// where there is none.
pub open spec fn last_quoted(
    s: Seq<char>,
    t: Seq<char>,
    name: Seq<char>,
    j: int,
    low: int,
    closed: bool,
) -> int
    decreases j - low + 1,
{
    let n = quoted_length(s, t, name, j);
    if j < low {
        0
    } else if n > 0 && (closed ==> s.skip(j + name.len() + 2 + n).contains('>')) {
        j
    } else {
        last_quoted(s, t, name, j - 1, low, closed)
    }
}

/// The index of the `src=` of the image that `s` begins with: the last one with
/// an address before the first `>`. It is zero where `s` begins with none.
pub open spec fn image_source_at(s: Seq<char>, t: Seq<char>, closed: bool) -> int {
    if starts_with(t, "<img"@) {
        last_quoted(s, t, "src="@, 4 + run(s.skip(4), other_than('>')) as int, 5, closed)
    } else {
        0
    }
}

/// The length of the address after `src=` at index `j`.
pub open spec fn address_length(s: Seq<char>, t: Seq<char>, j: int) -> nat {
    quoted_length(s, t, "src="@, j)
}

/// `s` with each image in HTML made one in Markdown, on a line of its own.
/// Capital and small letters in names are alike, and the tag ends with the first
/// `>` after the address.
pub open spec fn images_shown(s: Seq<char>) -> Seq<char>
    decreases s.len(),
{
    if s.len() == 0 {
        s
    } else {
        let j = image_source_at(s, folded(s), true);
        let n = address_length(s, folded(s), j) as int;
        let end = j + 6 + n + run(s.skip(j + 6 + n), other_than('>')) + 1;
        if j > 0 && 0 < end <= s.len() {
            "\n![image]("@ + s.subrange(j + 5, j + 5 + n) + ")\n"@ + images_shown(s.skip(end))
        } else {
            seq![s[0]] + images_shown(s.drop_first())
        }
    }
}

/// The first image in HTML from index `i` on: where it begins, and its address.
pub open spec fn html_image(s: Seq<char>, i: int) -> Option<(int, Seq<char>)>
    decreases s.len() - i,
{
    if i >= s.len() {
        None
    } else {
        let r = s.skip(i);
        let j = image_source_at(r, r, false);
        if j > 0 {
            Some((i, r.subrange(j + 5, j + 5 + address_length(r, r, j))))
        } else {
            html_image(s, i + 1)
        }
    }
}

/// The first image in Markdown from index `i` on: where it begins, and its
/// address.
pub open spec fn markdown_image(s: Seq<char>, i: int) -> Option<(int, Seq<char>)>
    decreases s.len() - i,
{
    if i >= s.len() {
        None
    } else {
        match markdown_address(s.skip(i)) {
            Some(url) => Some((i, url)),
            None => markdown_image(s, i + 1),
        }
    }
}

/// The address of the image in Markdown that `s` begins with: `![`, all up to
/// the next `]`, and an address on the web in round brackets, which has no white
/// space and goes beyond its `://`.
pub open spec fn markdown_address(s: Seq<char>) -> Option<Seq<char>> {
    let n = run(s.skip(2), other_than(']')) as int;
    let t = s.skip(n + 4);
    let m = run(t, in_address()) as int;
    let url = t.take(m);
    if starts_with(s, "!["@) && occurs_at(s, "]("@, n + 2) && m < t.len() && t[m] == ')' && ((
    starts_with(url, "http://"@) && m > 7) || (starts_with(url, "https://"@) && m > 8)) {
        Some(url)
    } else {
        None
    }
}

/// An address that begins with `http://` or `https://`.
pub open spec fn is_web_address(url: Seq<char>) -> bool {
    starts_with(url, "http://"@) || starts_with(url, "https://"@)
}

/// The first text in double quotes that is not empty, from index `i` on: where
/// its first quote stands, and the text.
pub open spec fn quoted_text(s: Seq<char>, i: int) -> Option<(int, Seq<char>)>
    decreases s.len() - i,
{
    if i >= s.len() {
        None
    } else {
        let n = run(s.skip(i + 1), other_than('"'));
        if s[i] == '"' && n > 0 && i + 1 + n < s.len() {
            Some((i, s.subrange(i + 1, i + 1 + n)))
        } else {
            quoted_text(s, i + 1)
        }
    }
}

/// The first preview image of a page: where its tag begins, and its address.
/// `named_first` says whether the tag names it before its address or after it.
pub open spec fn og_image(page: Seq<char>, named_first: bool) -> Option<(int, Seq<char>)> {
    preview(page, 0, "property="@, "og:image"@, named_first)
}

/// The same of the preview image for Twitter.
pub open spec fn twitter_image(page: Seq<char>, named_first: bool) -> Option<(int, Seq<char>)> {
    preview(page, 0, "name="@, "twitter:image"@, named_first)
}

/// The first `<meta` from index `i` on that has an attribute `name` with `value`
/// and a `content=`: where it begins, and the content.
pub open spec fn preview(
    s: Seq<char>,
    i: int,
    name: Seq<char>,
    value: Seq<char>,
    named_first: bool,
) -> Option<(int, Seq<char>)>
    decreases s.len() - i,
{
    if i >= s.len() {
        None
    } else {
        let r = s.skip(i);
        let j = content_at(r, name, value, named_first);
        if j > 0 {
            Some((i, r.subrange(j + 9, j + 9 + quoted_length(r, folded(r), "content="@, j))))
        } else {
            preview(s, i + 1, name, value, named_first)
        }
    }
}

/// The index of the `content=` of the `<meta` that `s` begins with. Capital and
/// small letters are alike. It is zero where `s` begins with none.
pub open spec fn content_at(
    s: Seq<char>,
    name: Seq<char>,
    value: Seq<char>,
    named_first: bool,
) -> int {
    let t = folded(s);
    let j = 5 + run(s.skip(5), other_than('>')) as int;
    if !starts_with(t, "<meta"@) {
        0
    } else if named_first {
        content_after(s, t, name, value, j)
    } else {
        content_before(s, t, name, value, j)
    }
}

/// The index after the attribute `name` with `value` in quotes of either kind,
/// which stands at index `j`. It is zero where it does not stand there.
pub open spec fn attribute_end(
    s: Seq<char>,
    t: Seq<char>,
    name: Seq<char>,
    value: Seq<char>,
    j: int,
) -> int {
    let a = j + name.len();
    let b = a + 1 + value.len();
    if occurs_at(t, name, j) && b < s.len() && is_quote(s[a]) && occurs_at(t, value, a + 1)
        && is_quote(s[b]) {
        b + 1
    } else {
        0
    }
}

/// The `content=` after the attribute: of the attributes from index `j` down to
/// index 6, the last one that has a `content=` behind it with no `>` before that
/// and one after it, and of those the last one. Something stands between them.
pub open spec fn content_after(
    s: Seq<char>,
    t: Seq<char>,
    name: Seq<char>,
    value: Seq<char>,
    j: int,
) -> int
    decreases j,
{
    let end = attribute_end(s, t, name, value, j);
    let last = end + run(s.skip(end), other_than('>'));
    let c = last_quoted(s, t, "content="@, last, end + 1, true);
    if j < 6 {
        0
    } else if end > 0 && c > 0 {
        c
    } else {
        content_after(s, t, name, value, j - 1)
    }
}

/// The `content=` before the attribute: from index `j` down to index 6, the last
/// one that has the attribute behind it with no `>` before that and one after it.
/// Something stands between them.
pub open spec fn content_before(
    s: Seq<char>,
    t: Seq<char>,
    name: Seq<char>,
    value: Seq<char>,
    j: int,
) -> int
    decreases j,
{
    let n = quoted_length(s, t, "content="@, j);
    let end = j + 10 + n;
    if j < 6 {
        0
    } else if n > 0 && exists|k: int|
        end < k <= end + run(s.skip(end), other_than('>')) && #[trigger] attribute_closed(
            s,
            t,
            name,
            value,
            k,
        ) {
        j
    } else {
        content_before(s, t, name, value, j - 1)
    }
}

/// The attribute stands at index `k`, and a `>` comes after it.
pub open spec fn attribute_closed(
    s: Seq<char>,
    t: Seq<char>,
    name: Seq<char>,
    value: Seq<char>,
    k: int,
) -> bool {
    attribute_end(s, t, name, value, k) > 0 && s.skip(
        attribute_end(s, t, name, value, k),
    ).contains('>')
}

} // verus!
