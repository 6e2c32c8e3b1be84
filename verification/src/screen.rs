//! The screen with the lists of feeds and articles.

use crate::app::{mode_name, mode_text, App, AppData};
use crate::article::{ArticleData, ArticleRow};
use crate::style::StyleCodes;
use crate::terminal::{draw, inside, lemma_inside_add, less, minus, Draw, DrawData};
use crate::text::{truncate_chars, truncated};
use vstd::prelude::*;
use vstd::utf8::{decode_utf8, encode_utf8, is_ascii_chars, is_char_boundary};

verus! {

/// The column of the line between the two lists, on a screen of `w` columns: a
/// third of the screen, but at least twenty-four columns and at most forty.
pub open spec fn left_width(w: int) -> int {
    let third = if w / 3 > 24 {
        w / 3
    } else {
        24
    };
    if third < 40 {
        third
    } else {
        40
    }
}

/// The column of the line between the two lists.
pub fn left_columns(w: u16) -> (left: u16)
    ensures
        left == left_width(w as int),
        24 <= left <= 40,
{
    let third: u16 = if w / 3 > 24 {
        w / 3
    } else {
        24
    };
    if third < 40 {
        third
    } else {
        40
    }
}

/// A date can be cut after its first ten bytes: it has no more than nine, or a
/// character ends there.
pub open spec fn cuts_cleanly(date: Seq<char>) -> bool {
    encode_utf8(date).len() >= 10 ==> is_char_boundary(encode_utf8(date), 10)
}

/// A date in its column: its first ten bytes, or dashes where it is shorter.
pub open spec fn date_column(date: Seq<char>) -> Seq<char> {
    if encode_utf8(date).len() >= 10 {
        decode_utf8(encode_utf8(date).subrange(0, 10))
    } else {
        "----------"@
    }
}

/// A date of ASCII characters can be cut, and its first ten bytes are its first
/// ten characters.
pub proof fn law_ascii_date(date: Seq<char>)
    requires
        is_ascii_chars(date),
    ensures
        cuts_cleanly(date),
        date.len() >= 10 ==> date_column(date) == date.take(10),
        date.len() < 10 ==> date_column(date) == "----------"@,
{
    let bytes = encode_utf8(date);
    vstd::utf8::is_ascii_chars_encode_utf8(date);
    if date.len() >= 10 {
        let head = date.take(10);
        let tail = date.skip(10);
        assert(head + tail =~= date);
        assert forall|i: int| 0 <= i < head.len() implies '\0' <= #[trigger] head[i]
            <= '\u{7f}' by {
            assert(head[i] == date[i]);
        }
        vstd::utf8::is_ascii_chars_encode_utf8(head);
        assert(encode_utf8(head) =~= bytes.subrange(0, 10));
        vstd::utf8::encode_utf8_decode_utf8(head);
        vstd::utf8::encode_utf8_valid_utf8(date);
        if date.len() == 10 {
            vstd::utf8::is_char_boundary_start_end_of_seq(bytes);
        } else {
            vstd::utf8::is_char_boundary_iff_not_is_continuation_byte(bytes, 10);
            assert(bytes[10] == date[10] as u8);
            assert('\0' <= date[10] <= '\u{7f}');
            let b = bytes[10];
            assert(b <= 127);
            vstd::utf8::utf8_byte_ranges_bitwise(b);
        }
    }
}

/// Whether a date can be cut after its first ten bytes.
pub fn date_cuts(date: &str) -> (yes: bool)
    ensures
        yes == cuts_cleanly(date@),
{
    date.as_bytes().len() < 10 || date.is_char_boundary(10)
}

/// A date in its column.
fn shown_column(date: &str) -> (column: &str)
    requires
        cuts_cleanly(date@),
    ensures
        column@ == date_column(date@),
{
    if date.as_bytes().len() >= 10 {
        let parts: (&str, &str) = date.split_at(10);
        proof {
            vstd::utf8::encode_utf8_decode_utf8(parts.0@);
        }
        parts.0
    } else {
        "----------"
    }
}

/// The line for an article: a mark where it is selected, one where it is
/// unread, its date and its title.
pub open spec fn article_entry(a: ArticleData, selected: bool, codes: StyleCodes) -> Seq<char> {
    let sel = if selected {
        ">"@
    } else {
        " "@
    };
    sel + read_mark(a.is_read == 0, codes) + " "@ + date_column(a.published_at) + "  "@ + a.title
}

/// The mark of an article that is unread, and the blank for one that is read.
pub open spec fn read_mark(unread: bool, codes: StyleCodes) -> Seq<char> {
    if unread {
        codes.unread + "•"@ + codes.reset
    } else {
        " "@
    }
}

/// The line for a feed: a mark where it is selected, and its title.
pub open spec fn feed_entry(title: Seq<char>, selected: bool) -> Seq<char> {
    let marker = if selected {
        ">"@
    } else {
        " "@
    };
    marker + " "@ + title
}

/// What stands in a row of the list of feeds.
pub open spec fn feed_cell(s: AppData, row: int, left: int) -> Seq<DrawData> {
    if row == 0 {
        if s.focus_feeds {
            seq![DrawData::Text(s.style.accent + "[Feeds]"@ + s.style.reset)]
        } else {
            seq![DrawData::Text(" Feeds "@)]
        }
    } else if row - 1 < s.feeds.len() {
        seq![
            DrawData::Text(
                truncated(
                    feed_entry(s.feeds[row - 1].title, row - 1 == s.feed_idx),
                    (left - 1) as nat,
                ),
            ),
        ]
    } else {
        seq![]
    }
}

/// What stands in a row of the list of articles.
pub open spec fn article_cell(s: AppData, row: int, w: int, left: int) -> Seq<DrawData> {
    if row == 0 {
        let header = if s.focus_feeds {
            " Articles "@
        } else {
            "[Articles]"@
        };
        seq![DrawData::Text(s.style.accent + header + s.style.reset)]
    } else if row - 1 < s.articles.len() {
        seq![
            DrawData::Text(
                truncated(
                    article_entry(
                        s.articles[row - 1],
                        row - 1 == s.article_idx && !s.focus_feeds,
                        s.style,
                    ),
                    less(w, left + 3) as nat,
                ),
            ),
        ]
    } else {
        seq![]
    }
}

/// A row of the screen: the line between the lists, and what stands in both of
/// them.
pub open spec fn row_drawing(s: AppData, row: int, w: int) -> Seq<DrawData> {
    let left = left_width(w);
    seq![
        DrawData::MoveTo(left, row + 1),
        DrawData::Text("|"@),
        DrawData::MoveTo(0, row + 1),
    ] + feed_cell(s, row, left) + seq![DrawData::MoveTo(left + 2, row + 1)] + article_cell(
        s,
        row,
        w,
        left,
    )
}

/// The first `n` rows of the lists.
pub open spec fn rows_drawing(s: AppData, n: nat, w: int) -> Seq<DrawData>
    decreases n,
{
    if n == 0 {
        seq![]
    } else {
        rows_drawing(s, (n - 1) as nat, w) + row_drawing(s, n - 1, w)
    }
}

/// The first line of the screen.
pub open spec fn title_line(s: AppData) -> Seq<char> {
    s.style.title + "dpn-reader ["@ + mode_name(s.global_mode) + "]"@ + s.style.reset + "  db: "@
        + s.db_path + "\n"@
}

/// A line of `w` dashes.
pub open spec fn rule(w: nat) -> Seq<char> {
    Seq::new(w, |i: int| '-') + "\n"@
}

/// The drawing of the lists on a screen of `w` columns and `h` rows.
pub open spec fn list_drawing(s: AppData, w: int, h: int) -> Seq<DrawData> {
    seq![DrawData::Clear, DrawData::MoveTo(0, 0), DrawData::Text(title_line(s))] + rows_drawing(
        s,
        less(h, 3) as nat,
        w,
    ) + seq![
        DrawData::MoveTo(0, less(h, 2)),
        DrawData::Text(rule(w as nat)),
        DrawData::MoveTo(0, less(h, 1)),
        DrawData::Text(truncated(s.status, less(w, 1) as nat)),
    ]
}

/// Every date that shows on a screen of `h` rows can be cut to its column.
pub open spec fn dates_cut(articles: Seq<ArticleData>, h: int) -> bool {
    forall|i: int|
        0 <= i < articles.len() && i + 1 < less(h, 3) ==> cuts_cleanly(
            (#[trigger] articles[i]).published_at,
        )
}

/// A line of `w` dashes.
fn dashes(w: u16) -> (line: String)
    ensures
        line@ == rule(w as nat),
{
    let mut line: String = String::new();
    let mut i: u16 = 0;
    while i < w
        invariant
            i <= w,
            line@ == Seq::new(i as nat, |k: int| '-'),
        decreases w - i,
    {
        line.push('-');
        assert(line@ =~= Seq::new((i + 1) as nat, |k: int| '-'));
        i = i + 1;
    }
    line.concat("\n")
}

/// The line for an article.
fn entry_of(a: &ArticleRow, selected: bool, app: &App) -> (line: String)
    requires
        cuts_cleanly(a.published_at@),
    ensures
        line@ == article_entry(a.deep_view(), selected, app.deep_view().style),
{
    let sel: &str = if selected {
        ">"
    } else {
        " "
    };
    let marker: String = if a.is_read == 0 {
        String::new().concat(app.style.unread).concat("•").concat(app.style.reset)
    } else {
        String::new().concat(" ")
    };
    let line: String = String::new().concat(sel).concat(marker.as_str()).concat(" ").concat(
        shown_column(a.published_at.as_str()),
    ).concat("  ").concat(a.title.as_str());
    assert(line@ =~= article_entry(a.deep_view(), selected, app.deep_view().style));
    line
}

impl App {
    /// Whether every date that shows on a screen of `h` rows can be cut to its
    /// column.
    pub fn drawable(&self, h: u16) -> (yes: bool)
        ensures
            yes == dates_cut(self.deep_view().articles, h as int),
    {
        let ghost all = self.deep_view().articles;
        assert(all.len() == self.articles@.len());
        let height: usize = minus(h, 3) as usize;
        let mut i: usize = 0;
        while i < self.articles.len() && i < height && i + 1 < height
            invariant
                i <= self.articles@.len(),
                all == self.deep_view().articles,
                all.len() == self.articles@.len(),
                height == less(h as int, 3),
                forall|k: int| 0 <= k < i ==> cuts_cleanly((#[trigger] all[k]).published_at),
            decreases self.articles@.len() - i,
        {
            assert(all[i as int] == self.articles@[i as int].deep_view());
            if !date_cuts(self.articles[i].published_at.as_str()) {
                return false;
            }
            i = i + 1;
        }
        true
    }

    /// Draws a row of the list of feeds.
    fn draw_feed(&self, out: &mut Vec<Draw>, row: u16, left: u16)
        requires
            left >= 1,
        ensures
            final(out).deep_view() == old(out).deep_view() + feed_cell(
                self.deep_view(),
                row as int,
                left as int,
            ),
    {
        let ghost before = out.deep_view();
        let ghost s = self.deep_view();
        assert(s.feeds.len() == self.feeds@.len());
        if row == 0 {
            if self.focus_feeds {
                let text: String = String::new().concat(self.style.accent).concat(
                    "[Feeds]",
                ).concat(self.style.reset);
                assert(text@ =~= s.style.accent + "[Feeds]"@ + s.style.reset);
                draw(out, Draw::Text(text));
            } else {
                let text: String = String::new().concat(" Feeds ");
                assert(text@ =~= " Feeds "@);
                draw(out, Draw::Text(text));
            }
        } else {
            let i: usize = (row - 1) as usize;
            if i < self.feeds.len() {
                assert(s.feeds[i as int] == self.feeds@[i as int].deep_view());
                let marker: &str = if i == self.feed_idx {
                    ">"
                } else {
                    " "
                };
                let line: String = String::new().concat(marker).concat(" ").concat(
                    self.feeds[i].title.as_str(),
                );
                assert(line@ =~= feed_entry(s.feeds[i as int].title, i == s.feed_idx));
                draw(out, Draw::Text(truncate_chars(line.as_str(), (left - 1) as usize)));
            }
        }
        assert(out.deep_view() =~= before + feed_cell(s, row as int, left as int));
    }

    /// Draws a row of the list of articles.
    fn draw_article(&self, out: &mut Vec<Draw>, row: u16, w: u16, left: u16)
        requires
            left <= 40,
            row >= 1 && row - 1 < self.articles@.len() ==> cuts_cleanly(
                self.articles@[row - 1].published_at@,
            ),
        ensures
            final(out).deep_view() == old(out).deep_view() + article_cell(
                self.deep_view(),
                row as int,
                w as int,
                left as int,
            ),
    {
        let ghost before = out.deep_view();
        let ghost s = self.deep_view();
        assert(s.articles.len() == self.articles@.len());
        if row == 0 {
            let header: &str = if self.focus_feeds {
                " Articles "
            } else {
                "[Articles]"
            };
            let text: String = String::new().concat(self.style.accent).concat(header).concat(
                self.style.reset,
            );
            assert(text@ =~= s.style.accent + header@ + s.style.reset);
            draw(out, Draw::Text(text));
        } else {
            let i: usize = (row - 1) as usize;
            if i < self.articles.len() {
                assert(s.articles[i as int] == self.articles@[i as int].deep_view());
                let selected: bool = i == self.article_idx && !self.focus_feeds;
                let line: String = entry_of(&self.articles[i], selected, self);
                let width: usize = minus(w, left + 3) as usize;
                draw(out, Draw::Text(truncate_chars(line.as_str(), width)));
            }
        }
        assert(out.deep_view() =~= before + article_cell(s, row as int, w as int, left as int));
    }

    /// Draws the lists on a screen of `w` columns and `h` rows.
    pub fn render(&self, w: u16, h: u16) -> (out: Vec<Draw>)
        requires
            dates_cut(self.deep_view().articles, h as int),
        ensures
            out.deep_view() == list_drawing(self.deep_view(), w as int, h as int),
    {
        let ghost s = self.deep_view();
        assert(s.articles.len() == self.articles@.len());
        let left: u16 = left_columns(w);
        let mut out: Vec<Draw> = Vec::new();
        assert(out.deep_view() =~= seq![]);
        draw(&mut out, Draw::Clear);
        draw(&mut out, Draw::MoveTo(0, 0));
        let title: String = String::new().concat(self.style.title).concat("dpn-reader [").concat(
            mode_text(self.global_mode),
        ).concat("]").concat(self.style.reset).concat("  db: ").concat(
            self.db_path.as_str(),
        ).concat("\n");
        assert(title@ =~= title_line(s));
        draw(&mut out, Draw::Text(title));
        let ghost head = out.deep_view();
        assert(head =~= seq![
            DrawData::Clear,
            DrawData::MoveTo(0, 0),
            DrawData::Text(title_line(s)),
        ]);
        let height: u16 = minus(h, 3);
        let mut row: u16 = 0;
        assert(head + rows_drawing(s, 0, w as int) =~= head);
        while row < height
            invariant
                row <= height,
                height == less(h as int, 3),
                s == self.deep_view(),
                s.articles.len() == self.articles@.len(),
                left == left_width(w as int),
                24 <= left <= 40,
                dates_cut(s.articles, h as int),
                out.deep_view() == head + rows_drawing(s, row as nat, w as int),
            decreases height - row,
        {
            let ghost done = out.deep_view();
            let bar: String = String::new().concat("|");
            assert(bar@ =~= "|"@);
            draw(&mut out, Draw::MoveTo(left, row + 1));
            draw(&mut out, Draw::Text(bar));
            draw(&mut out, Draw::MoveTo(0, row + 1));
            self.draw_feed(&mut out, row, left);
            draw(&mut out, Draw::MoveTo(left + 2, row + 1));
            proof {
                if row >= 1 && row - 1 < s.articles.len() {
                    assert(s.articles[row - 1] == self.articles@[row - 1].deep_view());
                }
            }
            self.draw_article(&mut out, row, w, left);
            assert(out.deep_view() =~= done + row_drawing(s, row as int, w as int));
            assert(out.deep_view() =~= head + rows_drawing(s, (row + 1) as nat, w as int));
            row = row + 1;
        }
        let ghost body = out.deep_view();
        draw(&mut out, Draw::MoveTo(0, minus(h, 2)));
        draw(&mut out, Draw::Text(dashes(w)));
        draw(&mut out, Draw::MoveTo(0, minus(h, 1)));
        let width: usize = minus(w, 1) as usize;
        draw(&mut out, Draw::Text(truncate_chars(self.status.as_str(), width)));
        assert(out.deep_view() =~= list_drawing(s, w as int, h as int));
        out
    }
}

/// Nothing of the lists is drawn below the screen.
pub proof fn law_list_inside(s: AppData, w: int, h: int)
    requires
        w >= 0,
        h > 0,
    ensures
        inside(list_drawing(s, w, h), h),
{
    let head = seq![DrawData::Clear, DrawData::MoveTo(0, 0), DrawData::Text(title_line(s))];
    let body = rows_drawing(s, less(h, 3) as nat, w);
    let foot = seq![
        DrawData::MoveTo(0, less(h, 2)),
        DrawData::Text(rule(w as nat)),
        DrawData::MoveTo(0, less(h, 1)),
        DrawData::Text(truncated(s.status, less(w, 1) as nat)),
    ];
    assert(inside(head, h));
    assert(inside(foot, h));
    lemma_list_rows_inside(s, less(h, 3) as nat, w, h);
    lemma_inside_add(head, body, h);
    lemma_inside_add(head + body, foot, h);
}

/// The rows of the lists are drawn from the second row of the screen on.
proof fn lemma_list_rows_inside(s: AppData, n: nat, w: int, h: int)
    requires
        w >= 0,
        n < h,
    ensures
        inside(rows_drawing(s, n, w), h),
    decreases n,
{
    if n > 0 {
        lemma_list_rows_inside(s, (n - 1) as nat, w, h);
        let row = n - 1;
        let left = left_width(w);
        let bar = seq![
            DrawData::MoveTo(left, row + 1),
            DrawData::Text("|"@),
            DrawData::MoveTo(0, row + 1),
        ];
        let feed = feed_cell(s, row, left);
        let step = seq![DrawData::MoveTo(left + 2, row + 1)];
        let article = article_cell(s, row, w, left);
        assert(inside(bar, h));
        assert(inside(feed, h));
        assert(inside(step, h));
        assert(inside(article, h));
        lemma_inside_add(bar, feed, h);
        lemma_inside_add(bar + feed, step, h);
        lemma_inside_add(bar + feed + step, article, h);
        lemma_inside_add(rows_drawing(s, (n - 1) as nat, w), row_drawing(s, row, w), h);
    }
}

/// A row of a list fits beside the line between the lists: what stands in the
/// list of feeds ends before that line, and what stands in the list of articles
/// ends before the edge of the screen.
pub proof fn law_cells_fit(s: AppData, row: int, w: int)
    requires
        row > 0,
        w >= 0,
    ensures
        forall|i: int|
            0 <= i < feed_cell(s, row, left_width(w)).len() ==> (#[trigger] feed_cell(
                s,
                row,
                left_width(w),
            )[i] matches DrawData::Text(text) ==> text.len() < left_width(w)),
        forall|i: int|
            0 <= i < article_cell(s, row, w, left_width(w)).len() ==> (#[trigger] article_cell(
                s,
                row,
                w,
                left_width(w),
            )[i] matches DrawData::Text(text) ==> text.len() == 0 || left_width(w) + 2 + text.len()
                < w),
{
}

/// Two lists of articles that differ in nothing but what is read.
pub open spec fn same_but_read(a: Seq<ArticleData>, b: Seq<ArticleData>) -> bool {
    &&& a.len() == b.len()
    &&& forall|i: int|
        0 <= i < a.len() ==> #[trigger] b[i] == (ArticleData { is_read: b[i].is_read, ..a[i] })
}

/// Two steps of a drawing that are the same, or are entries of the list of
/// articles that differ in nothing but the mark for what is unread.
pub open spec fn same_but_mark(x: DrawData, y: DrawData, codes: StyleCodes) -> bool {
    x == y || exists|before: Seq<char>, after: Seq<char>, width: nat|
        entry_with_mark(x, before, after, width, codes) && entry_with_mark(
            y,
            before,
            after,
            width,
            codes,
        )
}

/// A step that draws `before`, a mark for what is unread or read, and `after`,
/// cut to a width.
pub open spec fn entry_with_mark(
    step: DrawData,
    before: Seq<char>,
    after: Seq<char>,
    width: nat,
    codes: StyleCodes,
) -> bool {
    ||| step == DrawData::Text(truncated(before + read_mark(true, codes) + after, width))
    ||| step == DrawData::Text(truncated(before + read_mark(false, codes) + after, width))
}

/// Two drawings that differ in nothing but the marks for what is unread.
pub open spec fn same_but_marks(a: Seq<DrawData>, b: Seq<DrawData>, codes: StyleCodes) -> bool {
    &&& a.len() == b.len()
    &&& forall|i: int| 0 <= i < a.len() ==> same_but_mark(#[trigger] a[i], b[i], codes)
}

/// There are no unread counters: what is read shows on the screen in nothing but
/// the mark that an article itself has. The first line, the feeds, the dates and
/// titles of the articles and the status line are the same whatever is read.
pub proof fn law_no_unread_counters(s: AppData, articles: Seq<ArticleData>, w: int, h: int)
    requires
        same_but_read(s.articles, articles),
    ensures
        same_but_marks(
            list_drawing(s, w, h),
            list_drawing(AppData { articles, ..s }, w, h),
            s.style,
        ),
{
    let t = AppData { articles, ..s };
    let head = seq![DrawData::Clear, DrawData::MoveTo(0, 0), DrawData::Text(title_line(s))];
    let foot = seq![
        DrawData::MoveTo(0, less(h, 2)),
        DrawData::Text(rule(w as nat)),
        DrawData::MoveTo(0, less(h, 1)),
        DrawData::Text(truncated(s.status, less(w, 1) as nat)),
    ];
    let a = rows_drawing(s, less(h, 3) as nat, w);
    let b = rows_drawing(t, less(h, 3) as nat, w);
    lemma_rows_same(s, articles, less(h, 3) as nat, w);
    lemma_same_both(head, head, a, b, s.style);
    lemma_same_both(head + a, head + b, foot, foot, s.style);
}

/// Drawings that differ in marks only, one after the other.
proof fn lemma_same_both(
    a: Seq<DrawData>,
    b: Seq<DrawData>,
    c: Seq<DrawData>,
    d: Seq<DrawData>,
    codes: StyleCodes,
)
    requires
        same_but_marks(a, b, codes),
        same_but_marks(c, d, codes),
    ensures
        same_but_marks(a + c, b + d, codes),
{
    let x = a + c;
    let y = b + d;
    assert forall|i: int| 0 <= i < x.len() implies same_but_mark(#[trigger] x[i], y[i], codes) by {
        if i < a.len() {
            assert(x[i] == a[i] && y[i] == b[i]);
        } else {
            assert(x[i] == c[i - a.len()] && y[i] == d[i - a.len()]);
        }
    }
}

/// The rows of the lists differ in marks only.
proof fn lemma_rows_same(s: AppData, articles: Seq<ArticleData>, n: nat, w: int)
    requires
        same_but_read(s.articles, articles),
    ensures
        same_but_marks(
            rows_drawing(s, n, w),
            rows_drawing(AppData { articles, ..s }, n, w),
            s.style,
        ),
    decreases n,
{
    if n > 0 {
        let t = AppData { articles, ..s };
        let row = n - 1;
        let left = left_width(w);
        lemma_rows_same(s, articles, (n - 1) as nat, w);
        let front = seq![
            DrawData::MoveTo(left, row + 1),
            DrawData::Text("|"@),
            DrawData::MoveTo(0, row + 1),
        ] + feed_cell(s, row, left) + seq![DrawData::MoveTo(left + 2, row + 1)];
        let a = article_cell(s, row, w, left);
        let b = article_cell(t, row, w, left);
        assert(same_but_marks(a, b, s.style)) by {
            if row > 0 && row - 1 < s.articles.len() {
                lemma_entry_same(
                    s.articles[row - 1],
                    articles[row - 1],
                    row - 1 == s.article_idx && !s.focus_feeds,
                    less(w, left + 3) as nat,
                    s.style,
                );
            }
        }
        lemma_same_both(front, front, a, b, s.style);
        lemma_same_both(
            rows_drawing(s, (n - 1) as nat, w),
            rows_drawing(t, (n - 1) as nat, w),
            row_drawing(s, row, w),
            row_drawing(t, row, w),
            s.style,
        );
    }
}

/// The entries of an article, read and unread, differ in the mark only.
proof fn lemma_entry_same(
    a: ArticleData,
    b: ArticleData,
    selected: bool,
    width: nat,
    codes: StyleCodes,
)
    requires
        b == (ArticleData { is_read: b.is_read, ..a }),
    ensures
        same_but_mark(
            DrawData::Text(truncated(article_entry(a, selected, codes), width)),
            DrawData::Text(truncated(article_entry(b, selected, codes), width)),
            codes,
        ),
{
    let before = if selected {
        ">"@
    } else {
        " "@
    };
    let after = " "@ + date_column(a.published_at) + "  "@ + a.title;
    assert(article_entry(a, selected, codes) =~= before + read_mark(a.is_read == 0, codes) + after);
    assert(article_entry(b, selected, codes) =~= before + read_mark(b.is_read == 0, codes) + after);
    assert(entry_with_mark(
        DrawData::Text(truncated(article_entry(a, selected, codes), width)),
        before,
        after,
        width,
        codes,
    ));
}

// ---------------------------------------------------------------------------
// Where what is shown
// ---------------------------------------------------------------------------

/// A text is drawn at a place.
pub open spec fn shows(drawing: Seq<DrawData>, x: int, y: int, text: Seq<char>) -> bool {
    exists|k: int|
        0 <= k < drawing.len() - 1 && #[trigger] drawing[k] == DrawData::MoveTo(x, y) && drawing[k
            + 1] == DrawData::Text(text)
}

/// The feeds take a third of the screen, but no less than 24 columns and no more
/// than 40.
pub proof fn law_left_third(w: int)
    requires
        w >= 0,
    ensures
        72 <= w <= 120 ==> 3 * left_width(w) <= w < 3 * left_width(w) + 3,
        w < 72 ==> left_width(w) == 24,
        w > 120 ==> left_width(w) == 40,
{
}

/// Each row is part of the drawing.
proof fn lemma_row_in(s: AppData, n: nat, w: int, row: int) -> (from: int)
    requires
        0 <= row < n,
    ensures
        0 <= from,
        from + row_drawing(s, row, w).len() <= rows_drawing(s, n, w).len(),
        rows_drawing(s, n, w).subrange(from, from + row_drawing(s, row, w).len()) == row_drawing(
            s,
            row,
            w,
        ),
    decreases n,
{
    let before = rows_drawing(s, (n - 1) as nat, w);
    let all = rows_drawing(s, n, w);
    let one = row_drawing(s, row, w);
    if row == n - 1 {
        let from = before.len() as int;
        assert(all.subrange(from, from + one.len()) =~= one);
        from
    } else {
        let from = lemma_row_in(s, (n - 1) as nat, w, row);
        assert(all.subrange(from, from + one.len()) =~= before.subrange(from, from + one.len()));
        from
    }
}

/// What a row shows, the screen shows.
proof fn lemma_row_shown(s: AppData, w: int, h: int, row: int, x: int, text: Seq<char>)
    requires
        0 <= row < h - 3,
        shows(row_drawing(s, row, w), x, row + 1, text),
    ensures
        shows(list_drawing(s, w, h), x, row + 1, text),
{
    let n = (h - 3) as nat;
    let one = row_drawing(s, row, w);
    let from = lemma_row_in(s, n, w, row);
    let rows = rows_drawing(s, n, w);
    let all = list_drawing(s, w, h);
    let k = choose|k: int|
        0 <= k < one.len() - 1 && #[trigger] one[k] == DrawData::MoveTo(x, row + 1) && one[k + 1]
            == DrawData::Text(text);
    let part = rows.subrange(from, from + one.len());
    assert(part[k] == rows[from + k]);
    assert(part[k + 1] == rows[from + k + 1]);
    let i = 3 + from + k;
    assert(all[i] == rows[from + k]);
    assert(all[i + 1] == rows[from + k + 1]);
    assert(all[i] == DrawData::MoveTo(x, row + 1));
}

/// Every feed that there is room for is shown at the left on a row of its own, in
/// order, with a mark before the selected one and no other.
pub proof fn law_feed_shown(s: AppData, w: int, h: int, i: int)
    requires
        0 <= i < s.feeds.len(),
        i + 1 < h - 3,
        w >= 0,
    ensures
        ({
            let mark = if i == s.feed_idx {
                '>'
            } else {
                ' '
            };
            shows(
                list_drawing(s, w, h),
                0,
                i + 2,
                truncated(seq![mark, ' '] + s.feeds[i].title, (left_width(w) - 1) as nat),
            )
        }),
{
    reveal_strlit(">");
    reveal_strlit(" ");
    let mark = if i == s.feed_idx {
        '>'
    } else {
        ' '
    };
    let left = left_width(w);
    let text = truncated(seq![mark, ' '] + s.feeds[i].title, (left - 1) as nat);
    assert(feed_entry(s.feeds[i].title, i == s.feed_idx) =~= seq![mark, ' '] + s.feeds[i].title);
    let row = row_drawing(s, i + 1, w);
    assert(row[2] == DrawData::MoveTo(0, i + 2));
    assert(row[3] == DrawData::Text(text));
    assert(shows(row, 0, i + 2, text));
    lemma_row_shown(s, w, h, i + 1, 0, text);
}

/// Every article that there is room for is shown at the right on a row of its own,
/// in order: a mark before the selected one where the articles are in focus, a
/// point in the colour for unread articles where it is unread, its date and its
/// title.
pub proof fn law_article_shown(s: AppData, w: int, h: int, i: int)
    requires
        0 <= i < s.articles.len(),
        i + 1 < h - 3,
        w >= 0,
    ensures
        ({
            let a = s.articles[i];
            let mark = if i == s.article_idx && !s.focus_feeds {
                seq!['>']
            } else {
                seq![' ']
            };
            let point = if a.is_read == 0 {
                s.style.unread + seq!['\u{2022}'] + s.style.reset
            } else {
                seq![' ']
            };
            let room = if w >= left_width(w) + 3 {
                w - left_width(w) - 3
            } else {
                0
            };
            shows(
                list_drawing(s, w, h),
                left_width(w) + 2,
                i + 2,
                truncated(
                    mark + point + seq![' '] + date_column(a.published_at) + seq![' ', ' ']
                        + a.title,
                    room as nat,
                ),
            )
        }),
{
    reveal_strlit(">");
    reveal_strlit(" ");
    reveal_strlit("  ");
    reveal_strlit("•");
    let a = s.articles[i];
    let selected = i == s.article_idx && !s.focus_feeds;
    let mark = if selected {
        seq!['>']
    } else {
        seq![' ']
    };
    let point = if a.is_read == 0 {
        s.style.unread + seq!['\u{2022}'] + s.style.reset
    } else {
        seq![' ']
    };
    let left = left_width(w);
    let entry = mark + point + seq![' '] + date_column(a.published_at) + seq![' ', ' '] + a.title;
    assert(">"@ =~= seq!['>']);
    assert(" "@ =~= seq![' ']);
    assert("  "@ =~= seq![' ', ' ']);
    assert("•"@ =~= seq!['\u{2022}']);
    assert(article_entry(a, selected, s.style) == entry);
    let text = truncated(entry, less(w, left + 3) as nat);
    let row = row_drawing(s, i + 1, w);
    let k = 3 + feed_cell(s, i + 1, left).len() as int;
    assert(row[k] == DrawData::MoveTo(left + 2, i + 2));
    assert(row[k + 1] == DrawData::Text(text));
    assert(shows(row, left + 2, i + 2, text));
    lemma_row_shown(s, w, h, i + 1, left + 2, text);
}

/// The screen is cleared, its first line says what is listed and where the articles
/// are kept, and its last one says what happened, as far as there is room.
pub proof fn law_screen_frame(s: AppData, w: int, h: int)
    requires
        w >= 1,
        h >= 2,
    ensures
        ({
            let drawing = list_drawing(s, w, h);
            let mode = if s.global_mode {
                "global"@
            } else {
                "feed"@
            };
            &&& drawing[0] == DrawData::Clear
            &&& shows(
                drawing,
                0,
                0,
                s.style.title + "dpn-reader ["@ + mode + "]"@ + s.style.reset + "  db: "@ + s.db_path
                    + "\n"@,
            )
            &&& drawing[drawing.len() - 2] == DrawData::MoveTo(0, h - 1)
            &&& drawing[drawing.len() - 1] == DrawData::Text(truncated(s.status, (w - 1) as nat))
            &&& drawing[drawing.len() - 4] == DrawData::MoveTo(0, h - 2)
            &&& drawing[drawing.len() - 3] == DrawData::Text(Seq::new(w as nat, |i: int| '-') + "\n"@)
        }),
{
    let drawing = list_drawing(s, w, h);
    assert(drawing[1] == DrawData::MoveTo(0, 0));
    assert(drawing[2] == DrawData::Text(title_line(s)));
    assert(rule(w as nat) =~= Seq::new(w as nat, |i: int| '-') + "\n"@);
}

/// The list that the keys move in is the one in brackets.
pub proof fn law_focus_shown(s: AppData, w: int, h: int)
    requires
        w >= 0,
        h > 3,
    ensures
        ({
            let drawing = list_drawing(s, w, h);
            let right = left_width(w) + 2;
            &&& s.focus_feeds ==> shows(drawing, 0, 1, s.style.accent + "[Feeds]"@ + s.style.reset)
            &&& s.focus_feeds ==> shows(
                drawing,
                right,
                1,
                s.style.accent + " Articles "@ + s.style.reset,
            )
            &&& !s.focus_feeds ==> shows(drawing, 0, 1, " Feeds "@)
            &&& !s.focus_feeds ==> shows(
                drawing,
                right,
                1,
                s.style.accent + "[Articles]"@ + s.style.reset,
            )
        }),
{
    let left = left_width(w);
    let row = row_drawing(s, 0, w);
    assert(row[2] == DrawData::MoveTo(0, 1));
    assert(row[4] == DrawData::MoveTo(left + 2, 1));
    let feeds = row[3]->Text_0;
    let articles = row[5]->Text_0;
    assert(row[3] == DrawData::Text(feeds));
    assert(row[5] == DrawData::Text(articles));
    assert(shows(row, 0, 1, feeds));
    assert(shows(row, left + 2, 1, articles));
    lemma_row_shown(s, w, h, 0, 0, feeds);
    lemma_row_shown(s, w, h, 0, left + 2, articles);
}

} // verus!
