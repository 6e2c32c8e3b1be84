//! Articles and the lines in which one of them is shown.

use crate::style::{Style, StyleCodes};
use crate::html::{html_text, html_to_text};
use crate::text::{
    all_space, chars_of, index_of, is_space, law_nothing_left, lemma_run_is, lines, other_than, run,
    split_lines, string_of, trim, trim_text,
};
use vstd::prelude::*;
use vstd::slice::slice_subrange;

verus! {

/// A stored article. `is_read` is zero until the article has been read.
#[derive(Debug)]
pub struct ArticleRow {
    pub id: i64,
    pub feed_id: i64,
    pub feed_title: String,
    pub url: String,
    pub title: String,
    pub published_at: String,
    pub published_ts: i64,
    pub summary: String,
    pub content: String,
    pub is_read: i64,
}

/// A stored article as plain values.
pub struct ArticleData {
    pub id: i64,
    pub feed_id: i64,
    pub feed_title: Seq<char>,
    pub url: Seq<char>,
    pub title: Seq<char>,
    pub published_at: Seq<char>,
    pub published_ts: i64,
    pub summary: Seq<char>,
    pub content: Seq<char>,
    pub is_read: i64,
}

impl DeepView for ArticleRow {
    type V = ArticleData;

    open spec fn deep_view(&self) -> ArticleData {
        ArticleData {
            id: self.id,
            feed_id: self.feed_id,
            feed_title: self.feed_title@,
            url: self.url@,
            title: self.title@,
            published_at: self.published_at@,
            published_ts: self.published_ts,
            summary: self.summary@,
            content: self.content@,
            is_read: self.is_read,
        }
    }
}

impl Clone for ArticleRow {
    fn clone(&self) -> (copy: Self)
        ensures
            copy.deep_view() == self.deep_view(),
    {
        ArticleRow {
            id: self.id,
            feed_id: self.feed_id,
            feed_title: self.feed_title.clone(),
            url: self.url.clone(),
            title: self.title.clone(),
            published_at: self.published_at.clone(),
            published_ts: self.published_ts,
            summary: self.summary.clone(),
            content: self.content.clone(),
            is_read: self.is_read,
        }
    }
}

/// What a line of an article is.
#[derive(Clone, Copy, Debug, PartialEq, Eq, Structural)]
pub enum ArticleKind {
    Headline,
    Label,
    Body,
    Blank,
}

/// A line of an article.
#[derive(Debug)]
pub struct ArticleLine {
    pub kind: ArticleKind,
    pub text: String,
}

/// A line of an article as plain values.
pub struct LineData {
    pub kind: ArticleKind,
    pub text: Seq<char>,
}

impl DeepView for ArticleLine {
    type V = LineData;

    open spec fn deep_view(&self) -> LineData {
        LineData { kind: self.kind, text: self.text@ }
    }
}

impl Clone for ArticleLine {
    fn clone(&self) -> (copy: Self)
        ensures
            copy.deep_view() == self.deep_view(),
    {
        ArticleLine { kind: self.kind, text: self.text.clone() }
    }
}

impl ArticleLine {
    /// A line of the given kind with the given text.
    pub fn new(kind: ArticleKind, text: String) -> (line: Self)
        ensures
            line.deep_view() == (LineData { kind, text: text@ }),
    {
        ArticleLine { kind, text }
    }
}

/// The index that lies `step` places after `start`, where the first place
/// follows the last one.
pub open spec fn ahead(start: int, step: int, len: int) -> int {
    (start + step) % len
}

/// The index of the first unread article that lies `step` places after `start`
/// or further, where no place is looked at twice.
pub open spec fn next_unread(items: Seq<ArticleData>, start: int, step: int) -> Option<int>
    decreases items.len() + 1 - step,
{
    if step > items.len() {
        None
    } else if items[ahead(start, step, items.len() as int)].is_read == 0 {
        Some(ahead(start, step, items.len() as int))
    } else {
        next_unread(items, start, step + 1)
    }
}

/// The index of the next unread article after `start`. The search runs past
/// the end to the beginning and comes to `start` itself last.
pub fn next_unread_index(items: &[ArticleRow], start: usize) -> (next: Option<usize>)
    ensures
        match next {
            Some(i) => i < items@.len() && next_unread(items.deep_view(), start as int, 1) == Some(
                i as int,
            ),
            None => next_unread(items.deep_view(), start as int, 1) is None,
        },
{
    if items.is_empty() {
        assert(items.deep_view().len() == 0);
        return None;
    }
    let n: usize = items.len();
    let from: usize = start % n;
    let ghost all = items.deep_view();
    assert(all.len() == n);
    let mut step: usize = 1;
    loop
        invariant
            n == items@.len(),
            n > 0,
            1 <= step <= n,
            from == start % n,
            all == items.deep_view(),
            all.len() == n,
            next_unread(all, start as int, 1) == next_unread(all, start as int, step as int),
        decreases n - step,
    {
        let i: usize = if step < n - from {
            from + step
        } else {
            step - (n - from)
        };
        proof {
            lemma_ahead(start as int, step as int, n as int);
            assert(all[i as int] == items@[i as int].deep_view());
        }
        if items[i].is_read == 0 {
            return Some(i);
        }
        if step == n {
            assert(next_unread(all, start as int, step + 1) is None);
            return None;
        }
        step = step + 1;
    }
}

/// The place `step` places after `start`, counted from `start` without its
/// whole rounds.
proof fn lemma_ahead(start: int, step: int, len: int)
    requires
        start >= 0,
        1 <= step <= len,
    ensures
        ahead(start, step, len) == if step < len - start % len {
            start % len + step
        } else {
            step - (len - start % len)
        },
{
    let r = start % len;
    let q = start / len;
    vstd::arithmetic::div_mod::lemma_fundamental_div_mod(start, len);
    if step < len - r {
        assert(start + step == q * len + (r + step)) by (nonlinear_arith)
            requires
                start == len * q + r,
        ;
        vstd::arithmetic::div_mod::lemma_fundamental_div_mod_converse(
            start + step,
            len,
            q,
            r + step,
        );
    } else {
        assert(start + step == (q + 1) * len + (step - (len - r))) by (nonlinear_arith)
            requires
                start == len * q + r,
        ;
        vstd::arithmetic::div_mod::lemma_fundamental_div_mod_converse(
            start + step,
            len,
            q + 1,
            step - (len - r),
        );
    }
}

/// Each place lies some way ahead of `start`.
proof fn lemma_is_ahead(start: int, i: int, len: int) -> (step: int)
    requires
        0 <= start,
        0 <= i < len,
    ensures
        1 <= step <= len,
        ahead(start, step, len) == i,
{
    let r = start % len;
    let step = if i > r {
        i - r
    } else {
        i - r + len
    };
    lemma_ahead(start, step, len);
    step
}

/// The next unread article from `step` places after `start` on.
proof fn lemma_next_unread(items: Seq<ArticleData>, start: int, step: int)
    requires
        0 <= start,
        1 <= step,
    ensures
        match next_unread(items, start, step) {
            Some(i) => exists|found: int|
                {
                    &&& step <= found <= items.len()
                    &&& i == #[trigger] ahead(start, found, items.len() as int)
                    &&& items[i].is_read == 0
                    &&& forall|s: int|
                        step <= s < found ==> items[#[trigger] ahead(
                            start,
                            s,
                            items.len() as int,
                        )].is_read != 0
                },
            None => forall|s: int|
                step <= s <= items.len() ==> items[#[trigger] ahead(
                    start,
                    s,
                    items.len() as int,
                )].is_read != 0,
        },
    decreases items.len() + 1 - step,
{
    let n = items.len() as int;
    if step <= n {
        if items[ahead(start, step, n)].is_read == 0 {
            assert(next_unread(items, start, step) == Some(ahead(start, step, n)));
        } else {
            lemma_next_unread(items, start, step + 1);
        }
    }
}

/// The next unread article is unread, none that lies nearer ahead is, and there
/// is no next one only where all articles are read.
pub proof fn law_next_unread(items: Seq<ArticleData>, start: int)
    requires
        0 <= start,
    ensures
        match next_unread(items, start, 1) {
            Some(i) => 0 <= i < items.len() && exists|step: int|
                {
                    &&& 1 <= step <= items.len()
                    &&& i == #[trigger] ahead(start, step, items.len() as int)
                    &&& items[i].is_read == 0
                    &&& forall|s: int|
                        1 <= s < step ==> items[#[trigger] ahead(
                            start,
                            s,
                            items.len() as int,
                        )].is_read != 0
                },
            None => forall|i: int| 0 <= i < items.len() ==> (#[trigger] items[i]).is_read != 0,
        },
{
    let n = items.len() as int;
    lemma_next_unread(items, start, 1);
    match next_unread(items, start, 1) {
        Some(i) => {
            let step = choose|step: int|
                {
                    &&& 1 <= step <= n
                    &&& i == #[trigger] ahead(start, step, n)
                    &&& items[i].is_read == 0
                    &&& forall|s: int|
                        1 <= s < step ==> items[#[trigger] ahead(start, s, n)].is_read != 0
                };
            lemma_ahead(start, step, n);
        },
        None => {
            assert forall|i: int| 0 <= i < n implies (#[trigger] items[i]).is_read != 0 by {
                let step = lemma_is_ahead(start, i, n);
                assert(items[ahead(start, step, n)].is_read != 0);
            }
        },
    }
}

/// What an article has to say: its content, or its summary where the content
/// is blank.
pub open spec fn body_of(article: ArticleData) -> Seq<char> {
    if trim(article.content).len() == 0 {
        article.summary
    } else {
        article.content
    }
}

/// What an article has to say: its content, or its summary where the content
/// is blank.
pub fn article_body(article: &ArticleRow) -> (body: &str)
    ensures
        body@ == body_of(article.deep_view()),
{
    if trim_text(article.content.as_str()).as_str().is_empty() {
        article.summary.as_str()
    } else {
        article.content.as_str()
    }
}

/// The date of an article as it is shown.
pub open spec fn date_of(published_at: Seq<char>) -> Seq<char> {
    if published_at.len() == 0 {
        "unknown"@
    } else {
        published_at
    }
}

/// The date of an article as it is shown: `unknown` where there is none.
pub fn shown_date(published_at: &str) -> (date: &str)
    ensures
        date@ == date_of(published_at@),
{
    if published_at.is_empty() {
        "unknown"
    } else {
        published_at
    }
}

/// The lines of an article: its headline, three labels, a blank line and the
/// lines of its text.
pub open spec fn lines_of(article: ArticleData) -> Seq<LineData> {
    seq![
        LineData { kind: ArticleKind::Headline, text: article.title },
        LineData { kind: ArticleKind::Label, text: "Feed: "@ + article.feed_title },
        LineData { kind: ArticleKind::Label, text: "Date: "@ + date_of(article.published_at) },
        LineData { kind: ArticleKind::Label, text: "URL: "@ + article.url },
        LineData { kind: ArticleKind::Blank, text: seq![] },
    ] + lines(html_text(body_of(article))).map_values(
        |text: Seq<char>| LineData { kind: ArticleKind::Body, text },
    )
}

/// The lines of an article before they are fitted to the terminal.
pub fn article_lines(article: &ArticleRow) -> (out: Vec<ArticleLine>)
    ensures
        out.deep_view() == lines_of(article.deep_view()),
{
    let feed: String = String::new().concat("Feed: ").concat(article.feed_title.as_str());
    let date: String = String::new().concat("Date: ").concat(
        shown_date(article.published_at.as_str()),
    );
    let url: String = String::new().concat("URL: ").concat(article.url.as_str());
    let mut out: Vec<ArticleLine> = Vec::new();
    out.push(ArticleLine::new(ArticleKind::Headline, article.title.clone()));
    out.push(ArticleLine::new(ArticleKind::Label, feed));
    out.push(ArticleLine::new(ArticleKind::Label, date));
    out.push(ArticleLine::new(ArticleKind::Label, url));
    out.push(ArticleLine::new(ArticleKind::Blank, String::new()));
    let ghost all = lines_of(article.deep_view());
    let body: String = html_to_text(article_body(article));
    let parts: Vec<String> = split_lines(&chars_of(body.as_str()));
    assert(parts.deep_view().len() == parts@.len());
    let mut i: usize = 0;
    assert(out.deep_view() =~= all.take(5));
    while i < parts.len()
        invariant
            i <= parts@.len(),
            parts@.len() + 5 == all.len(),
            all == lines_of(article.deep_view()),
            parts.deep_view() == lines(html_text(body_of(article.deep_view()))),
            out.deep_view() == all.take(i + 5),
        decreases parts@.len() - i,
    {
        assert(parts.deep_view()[i as int] == parts@[i as int]@);
        let ghost done = out.deep_view();
        out.push(ArticleLine::new(ArticleKind::Body, parts[i].clone()));
        assert(out.deep_view() =~= done.push(all[i + 5]));
        assert(all.take(i + 6) =~= all.take(i + 5).push(all[i + 5]));
        i = i + 1;
    }
    assert(all.take(i + 5) =~= all);
    out
}

/// A line with its colours: a headline and a body line are coloured as a
/// whole, a label up to its first colon, and a blank line not at all.
pub open spec fn coloured(line: LineData, codes: StyleCodes) -> Seq<char> {
    match line.kind {
        ArticleKind::Headline => codes.headline + line.text + codes.reset,
        ArticleKind::Label => {
            let n = run(line.text, other_than(':')) as int;
            if n < line.text.len() {
                codes.label + line.text.take(n + 1) + codes.reset + codes.body + line.text.skip(
                    n + 1,
                )
            } else {
                codes.body + line.text + codes.reset
            }
        },
        ArticleKind::Body => codes.body + line.text + codes.reset,
        ArticleKind::Blank => seq![],
    }
}

/// The text of a line with the escape sequences of `style` around its parts.
pub fn colorize_article_line(line: &ArticleLine, style: &Style) -> (out: String)
    ensures
        out@ == coloured(line.deep_view(), style.deep_view()),
{
    match line.kind {
        ArticleKind::Headline => String::new().concat(style.headline).concat(
            line.text.as_str(),
        ).concat(style.reset),
        ArticleKind::Label => {
            let chars: Vec<char> = chars_of(line.text.as_str());
            let at: usize = index_of(&chars, 0, ':');
            assert(chars@.skip(0) == chars@);
            if at < chars.len() {
                let prefix: String = string_of(slice_subrange(&chars, 0, at + 1));
                let rest: String = string_of(slice_subrange(&chars, at + 1, chars.len()));
                assert(prefix@ == line.text@.take(at + 1));
                assert(rest@ == line.text@.skip(at + 1));
                String::new().concat(style.label).concat(prefix.as_str()).concat(
                    style.reset,
                ).concat(style.body).concat(rest.as_str())
            } else {
                String::new().concat(style.body).concat(line.text.as_str()).concat(style.reset)
            }
        },
        ArticleKind::Body => String::new().concat(style.body).concat(line.text.as_str()).concat(
            style.reset,
        ),
        ArticleKind::Blank => String::new(),
    }
}

/// An article says its content wherever there is anything in it, and its summary
/// only where there is nothing but white space.
pub proof fn law_content_first(article: ArticleData)
    ensures
        (exists|i: int| 0 <= i < article.content.len() && !is_space(#[trigger] article.content[i]))
            ==> body_of(article) == article.content,
        all_space(article.content) ==> body_of(article) == article.summary,
{
    law_nothing_left(article.content);
}

/// An article is shown with its title first, then its feed, its date and its
/// address, an empty line, and the lines of its text. An article without a date is
/// of an unknown one.
pub proof fn law_shown_article(article: ArticleData, i: int)
    requires
        0 <= i < lines(html_text(body_of(article))).len(),
    ensures
        ({
            let shown = lines_of(article);
            &&& shown.len() == 5 + lines(html_text(body_of(article))).len()
            &&& shown[0] == LineData { kind: ArticleKind::Headline, text: article.title }
            &&& shown[1] == LineData { kind: ArticleKind::Label, text: "Feed: "@ + article.feed_title }
            &&& shown[2].kind == ArticleKind::Label
            &&& article.published_at.len() > 0 ==> shown[2].text == "Date: "@ + article.published_at
            &&& article.published_at.len() == 0 ==> shown[2].text == "Date: "@ + "unknown"@
            &&& shown[3] == LineData { kind: ArticleKind::Label, text: "URL: "@ + article.url }
            &&& shown[4].kind == ArticleKind::Blank && shown[4].text.len() == 0
            &&& shown[5 + i] == LineData {
                kind: ArticleKind::Body,
                text: lines(html_text(body_of(article)))[i],
            }
        }),
{
}

/// The text of a line stays whole and in order between its colours. A label is one
/// up to and with its first colon.
pub proof fn law_coloured_line(a: Seq<char>, b: Seq<char>, codes: StyleCodes)
    ensures
        coloured(LineData { kind: ArticleKind::Headline, text: a }, codes) == codes.headline + a
            + codes.reset,
        coloured(LineData { kind: ArticleKind::Body, text: a }, codes) == codes.body + a
            + codes.reset,
        coloured(LineData { kind: ArticleKind::Blank, text: a }, codes).len() == 0,
        !a.contains(':') ==> {
            &&& coloured(
                LineData { kind: ArticleKind::Label, text: a + seq![':'] + b },
                codes,
            ) == codes.label + a + seq![':'] + codes.reset + codes.body + b
            &&& coloured(LineData { kind: ArticleKind::Label, text: a }, codes) == codes.body + a
                + codes.reset
        },
{
    if !a.contains(':') {
        let p = other_than(':');
        let s = a + seq![':'] + b;
        assert forall|i: int| 0 <= i < a.len() implies p(#[trigger] a[i]) && p(s[i]) by {
            assert(a.contains(a[i]));
            assert(s[i] == a[i]);
        }
        lemma_run_is(a, p, a.len());
        assert forall|i: int| 0 <= i < a.len() implies p(#[trigger] s[i]) by {
            assert(p(a[i]));
        }
        assert(s[a.len() as int] == ':');
        lemma_run_is(s, p, a.len());
        assert(s.take((a.len() + 1) as int) =~= a + seq![':']);
        assert(s.skip((a.len() + 1) as int) =~= b);
        assert(codes.label + (a + seq![':']) + codes.reset + codes.body + b =~= codes.label + a
            + seq![':'] + codes.reset + codes.body + b);
    }
}

} // verus!
