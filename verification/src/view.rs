//! The articles of all feeds, shown one by one.

use crate::app::{Question, QuestionData};
use crate::article::{
    article_lines, colorize_article_line, coloured, lines_of, ArticleData, ArticleLine, ArticleRow,
    LineData,
};
use crate::comment::comment_tags;
use crate::feed::text_or;
use crate::style::{Style, StyleCodes};
use crate::terminal::{draw, inside, lemma_inside_add, less, minus, Draw, DrawData, Key};
use crate::text::words;
use crate::wrap::{wrap_lines_for_width, wrapped_lines};
use vstd::prelude::*;

verus! {

/// The index of the first article with the number `id`, from `from` on.
pub open spec fn position(articles: Seq<ArticleData>, id: i64, from: int) -> Option<int>
    decreases articles.len() - from,
{
    if from >= articles.len() {
        None
    } else if articles[from].id == id {
        Some(from)
    } else {
        position(articles, id, from + 1)
    }
}

/// The index of the first article with the number `id`.
pub fn position_of(articles: &[ArticleRow], id: i64) -> (at: Option<usize>)
    ensures
        match at {
            Some(i) => i < articles@.len() && position(articles.deep_view(), id, 0) == Some(
                i as int,
            ),
            None => position(articles.deep_view(), id, 0) is None,
        },
{
    let ghost all = articles.deep_view();
    assert(all.len() == articles@.len());
    let mut i: usize = 0;
    while i < articles.len()
        invariant
            i <= articles@.len(),
            all == articles.deep_view(),
            all.len() == articles@.len(),
            position(all, id, 0) == position(all, id, i as int),
        decreases articles@.len() - i,
    {
        assert(all[i as int] == articles@[i as int].deep_view());
        if articles[i].id == id {
            return Some(i);
        }
        i = i + 1;
    }
    None
}

/// The articles that are shown one by one, which of them is shown, and how far
/// it has been scrolled.
#[derive(Debug)]
pub struct ArticleView {
    pub articles: Vec<ArticleRow>,
    pub idx: usize,
    pub offset: usize,
}

/// The articles that are shown one by one, as plain values.
pub struct ViewData {
    pub articles: Seq<ArticleData>,
    pub idx: int,
    pub offset: int,
}

impl DeepView for ArticleView {
    type V = ViewData;

    open spec fn deep_view(&self) -> ViewData {
        ViewData {
            articles: self.articles.deep_view(),
            idx: self.idx as int,
            offset: self.offset as int,
        }
    }
}

impl ViewData {
    /// The article that is shown is one of them.
    pub open spec fn wf(self) -> bool {
        0 <= self.idx < self.articles.len()
    }

    /// The article that is shown.
    pub open spec fn current(self) -> ArticleData {
        self.articles[self.idx]
    }
}

/// What is to be done outside the view.
#[derive(Debug)]
pub enum ViewAction {
    /// Show the article that is the current one now.
    Show,
    /// Go back to the lists.
    Leave,
    /// Ask for a comment or for its tags.
    Ask(Question),
    /// Save a comment with its tags.
    SaveComment(ArticleRow, String, Vec<String>),
    /// Show the image of an article, and go back to the lists.
    Image(ArticleRow),
    /// Open an address in a browser.
    Open(String),
}

/// What is to be done outside the view, as plain values.
pub enum ViewActionData {
    Show,
    Leave,
    Ask(QuestionData),
    SaveComment(ArticleData, Seq<char>, Seq<Seq<char>>),
    Image(ArticleData),
    Open(Seq<char>),
}

impl DeepView for ViewAction {
    type V = ViewActionData;

    open spec fn deep_view(&self) -> ViewActionData {
        match self {
            ViewAction::Show => ViewActionData::Show,
            ViewAction::Leave => ViewActionData::Leave,
            ViewAction::Ask(question) => ViewActionData::Ask(question.deep_view()),
            ViewAction::SaveComment(article, comment, tags) => ViewActionData::SaveComment(
                article.deep_view(),
                comment@,
                tags.deep_view(),
            ),
            ViewAction::Image(article) => ViewActionData::Image(article.deep_view()),
            ViewAction::Open(url) => ViewActionData::Open(url@),
        }
    }
}

/// What a key does while an article of `count` rows is shown on a screen of
/// `h` rows.
pub open spec fn view_step(v: ViewData, key: Key, count: int, h: int) -> (
    ViewData,
    ViewActionData,
) {
    match key {
        Key::Char('q') => (v, ViewActionData::Leave),
        Key::Esc => (v, ViewActionData::Leave),
        Key::Char('j') => if v.idx + 1 < v.articles.len() {
            (ViewData { idx: v.idx + 1, offset: 0, ..v }, ViewActionData::Show)
        } else {
            (v, ViewActionData::Show)
        },
        Key::Char('k') => if v.idx > 0 {
            (ViewData { idx: v.idx - 1, offset: 0, ..v }, ViewActionData::Show)
        } else {
            (v, ViewActionData::Show)
        },
        Key::Down => {
            let last = less(count, less(h, 2));
            (
                ViewData {
                    offset: if v.offset + 1 < last {
                        v.offset + 1
                    } else {
                        last
                    },
                    ..v
                },
                ViewActionData::Show,
            )
        },
        Key::Up => (ViewData { offset: less(v.offset, 1), ..v }, ViewActionData::Show),
        Key::Char('c') => (v, ViewActionData::Ask(QuestionData::Comment)),
        Key::Char('i') => (v, ViewActionData::Image(v.current())),
        Key::Char('o') => (v, ViewActionData::Open(v.current().url)),
        _ => (v, ViewActionData::Show),
    }
}

/// What the answer to a question does while an article is shown.
pub open spec fn view_answer(
    v: ViewData,
    question: QuestionData,
    answer: Option<Seq<char>>,
) -> ViewActionData {
    match question {
        QuestionData::Comment => match answer {
            Some(comment) => ViewActionData::Ask(QuestionData::Tags(comment)),
            None => ViewActionData::Show,
        },
        QuestionData::Tags(comment) => ViewActionData::SaveComment(
            v.current(),
            comment,
            words(text_or(answer, "reading"@)),
        ),
        _ => ViewActionData::Show,
    }
}

/// The first line of the screen while an article is shown.
pub const VIEW_HELP: &'static str =
    "dpn-reader article view (firehose)  [j/k next/prev article] [up/down scroll] [q back] [c comment] [i image] [o open]\n";

/// The first `n` rows of an article that has been scrolled by `offset`, as far
/// as it has so many.
pub open spec fn body_drawing(
    rows: Seq<LineData>,
    offset: int,
    n: nat,
    codes: StyleCodes,
) -> Seq<DrawData>
    decreases n,
{
    if n == 0 {
        seq![]
    } else if offset + n > rows.len() {
        body_drawing(rows, offset, (n - 1) as nat, codes)
    } else {
        body_drawing(rows, offset, (n - 1) as nat, codes) + seq![
            DrawData::MoveTo(0, n as int),
            DrawData::Text(coloured(rows[offset + n - 1], codes)),
        ]
    }
}

/// The drawing of an article on a screen of `h` rows.
pub open spec fn view_drawing(
    rows: Seq<LineData>,
    offset: int,
    codes: StyleCodes,
    h: int,
) -> Seq<DrawData> {
    seq![DrawData::Clear, DrawData::MoveTo(0, 0), DrawData::Text(VIEW_HELP@)] + body_drawing(
        rows,
        offset,
        less(h, 2) as nat,
        codes,
    )
}

impl ArticleView {
    /// The article that is shown is one of them.
    pub open spec fn wf(self) -> bool {
        self.deep_view().wf()
    }

    /// A view of articles, with the one that has the number `id`, or the first
    /// one where there is none.
    pub fn new(articles: Vec<ArticleRow>, id: i64) -> (view: Self)
        requires
            articles@.len() > 0,
        ensures
            view.wf(),
            view.deep_view().articles == articles.deep_view(),
            view.deep_view().offset == 0,
            view.deep_view().idx == match position(articles.deep_view(), id, 0) {
                Some(i) => i,
                None => 0,
            },
    {
        assert(articles.deep_view().len() == articles@.len());
        let idx: usize = match position_of(&articles, id) {
            Some(i) => i,
            None => 0,
        };
        ArticleView { articles, idx, offset: 0 }
    }

    /// The article that is shown.
    pub fn current(&self) -> (article: &ArticleRow)
        requires
            self.wf(),
        ensures
            article.deep_view() == self.deep_view().current(),
    {
        assert(self.articles.deep_view().len() == self.articles@.len());
        assert(self.articles.deep_view()[self.idx as int]
            == self.articles@[self.idx as int].deep_view());
        &self.articles[self.idx]
    }

    /// Marks the article that is shown as read, and gives its number.
    pub fn mark_current(&mut self) -> (id: i64)
        requires
            old(self).wf(),
        ensures
            final(self).wf(),
            id == old(self).deep_view().current().id,
            final(self).deep_view() == (ViewData {
                articles: old(self).deep_view().articles.update(
                    old(self).deep_view().idx,
                    ArticleData { is_read: 1, ..old(self).deep_view().current() },
                ),
                ..old(self).deep_view()
            }),
    {
        let ghost v = self.deep_view();
        assert(v.articles.len() == self.articles@.len());
        assert(v.articles[self.idx as int] == self.articles@[self.idx as int].deep_view());
        let mut article: ArticleRow = self.articles[self.idx].clone();
        article.is_read = 1;
        let id: i64 = article.id;
        self.articles.set(self.idx, article);
        assert(self.articles.deep_view() =~= v.articles.update(
            v.idx,
            ArticleData { is_read: 1, ..v.current() },
        ));
        id
    }

    /// The rows of the article that is shown, on a screen of `w` columns.
    pub fn rows(&self, w: u16) -> (rows: Vec<ArticleLine>)
        requires
            self.wf(),
        ensures
            rows.deep_view() == wrapped_lines(
                lines_of(self.deep_view().current()),
                less(w as int, 1) as nat,
            ),
    {
        wrap_lines_for_width(&article_lines(self.current()), minus(w, 1) as usize)
    }

    /// Draws the rows of an article on a screen of `h` rows.
    pub fn frame(&self, rows: &[ArticleLine], style: &Style, h: u16) -> (out: Vec<Draw>)
        ensures
            out.deep_view() == view_drawing(
                rows.deep_view(),
                self.deep_view().offset,
                style.deep_view(),
                h as int,
            ),
    {
        let ghost all = rows.deep_view();
        assert(all.len() == rows@.len());
        let mut out: Vec<Draw> = Vec::new();
        assert(out.deep_view() =~= seq![]);
        draw(&mut out, Draw::Clear);
        draw(&mut out, Draw::MoveTo(0, 0));
        let help: String = String::new().concat(VIEW_HELP);
        assert(help@ =~= VIEW_HELP@);
        draw(&mut out, Draw::Text(help));
        let ghost head = out.deep_view();
        assert(head =~= seq![
            DrawData::Clear,
            DrawData::MoveTo(0, 0),
            DrawData::Text(VIEW_HELP@),
        ]);
        let height: u16 = minus(h, 2);
        let ghost codes = style.deep_view();
        let ghost offset = self.offset as int;
        let mut i: u16 = 0;
        assert(head + body_drawing(all, offset, 0, codes) =~= head);
        while i < height
            invariant
                i <= height,
                all == rows.deep_view(),
                all.len() == rows@.len(),
                codes == style.deep_view(),
                offset == self.offset,
                out.deep_view() == head + body_drawing(all, offset, i as nat, codes),
            decreases height - i,
        {
            let n: usize = i as usize;
            if self.offset < rows.len() && n < rows.len() - self.offset {
                assert(all[offset + i] == rows@[offset + i].deep_view());
                draw(&mut out, Draw::MoveTo(0, i + 1));
                draw(&mut out, Draw::Text(colorize_article_line(&rows[self.offset + n], style)));
                assert(out.deep_view() =~= head + body_drawing(
                    all,
                    offset,
                    (i + 1) as nat,
                    codes,
                ));
            }
            i = i + 1;
        }
        out
    }

    /// Takes a key while an article of `count` rows is shown on a screen of `h`
    /// rows.
    pub fn press(&mut self, key: Key, count: usize, h: u16) -> (action: ViewAction)
        requires
            old(self).wf(),
        ensures
            final(self).wf(),
            (final(self).deep_view(), action.deep_view()) == view_step(
                old(self).deep_view(),
                key,
                count as int,
                h as int,
            ),
    {
        assert(self.articles.deep_view().len() == self.articles@.len());
        match key {
            Key::Char('q') | Key::Esc => ViewAction::Leave,
            Key::Char('j') => {
                if self.idx < self.articles.len() - 1 {
                    self.idx = self.idx + 1;
                    self.offset = 0;
                }
                ViewAction::Show
            },
            Key::Char('k') => {
                if self.idx > 0 {
                    self.idx = self.idx - 1;
                    self.offset = 0;
                }
                ViewAction::Show
            },
            Key::Down => {
                let height: usize = minus(h, 2) as usize;
                let last: usize = if count >= height {
                    count - height
                } else {
                    0
                };
                if self.offset < last {
                    self.offset = self.offset + 1;
                } else {
                    self.offset = last;
                }
                ViewAction::Show
            },
            Key::Up => {
                if self.offset > 0 {
                    self.offset = self.offset - 1;
                }
                ViewAction::Show
            },
            Key::Char('c') => ViewAction::Ask(Question::Comment),
            Key::Char('i') => ViewAction::Image(self.current().clone()),
            Key::Char('o') => ViewAction::Open(self.current().url.clone()),
            _ => ViewAction::Show,
        }
    }

    /// Takes the answer to a question that was asked while an article is shown.
    pub fn answered(&self, question: Question, answer: Option<String>) -> (action: ViewAction)
        requires
            self.wf(),
        ensures
            action.deep_view() == view_answer(
                self.deep_view(),
                question.deep_view(),
                answer.deep_view(),
            ),
    {
        match question {
            Question::Comment => match answer {
                Some(comment) => ViewAction::Ask(Question::Tags(comment)),
                None => ViewAction::Show,
            },
            Question::Tags(comment) => ViewAction::SaveComment(
                self.current().clone(),
                comment,
                comment_tags(answer),
            ),
            _ => ViewAction::Show,
        }
    }
}

/// The position of a number is the first article that has it, and there is none
/// only where no article has it.
pub proof fn law_position(articles: Seq<ArticleData>, id: i64)
    ensures
        match position(articles, id, 0) {
            Some(i) => 0 <= i < articles.len() && articles[i].id == id && forall|k: int|
                0 <= k < i ==> (#[trigger] articles[k]).id != id,
            None => forall|k: int| 0 <= k < articles.len() ==> (#[trigger] articles[k]).id != id,
        },
{
    lemma_position(articles, id, 0);
}

/// The position of a number from a place on.
proof fn lemma_position(articles: Seq<ArticleData>, id: i64, from: int)
    requires
        0 <= from,
    ensures
        match position(articles, id, from) {
            Some(i) => from <= i < articles.len() && articles[i].id == id && forall|k: int|
                from <= k < i ==> (#[trigger] articles[k]).id != id,
            None => forall|k: int| from <= k < articles.len() ==> (#[trigger] articles[k]).id != id,
        },
    decreases articles.len() - from,
{
    if from < articles.len() && articles[from].id != id {
        lemma_position(articles, id, from + 1);
    }
}

/// No key leads away from the articles.
pub proof fn law_view_stays(v: ViewData, key: Key, count: int, h: int)
    requires
        v.wf(),
    ensures
        view_step(v, key, count, h).0.wf(),
        view_step(v, key, count, h).0.articles == v.articles,
{
}

/// The article before the next one is the one that was shown, from its first
/// row on.
pub proof fn law_next_then_previous(v: ViewData, count: int, h: int)
    requires
        v.wf(),
        v.idx + 1 < v.articles.len(),
    ensures
        ({
            let there = view_step(v, Key::Char('j'), count, h).0;
            let back = view_step(there, Key::Char('k'), count, h).0;
            there.idx == v.idx + 1 && there.offset == 0 && back == (ViewData { offset: 0, ..v })
        }),
{
}

/// An article is never scrolled further down than until its last row shows, and
/// scrolling up undoes scrolling down.
pub proof fn law_scroll(v: ViewData, count: int, h: int)
    requires
        0 <= v.offset,
        0 <= count,
    ensures
        ({
            let down = view_step(v, Key::Down, count, h).0;
            let last = less(count, less(h, 2));
            &&& 0 <= down.offset <= last
            &&& v.offset < last ==> down.offset == v.offset + 1 && view_step(
                down,
                Key::Up,
                count,
                h,
            ).0 == v
        }),
{
}

/// Nothing of an article is drawn below the screen.
pub proof fn law_view_inside(rows: Seq<LineData>, offset: int, codes: StyleCodes, h: int)
    requires
        h > 0,
    ensures
        inside(view_drawing(rows, offset, codes, h), h),
{
    let head = seq![DrawData::Clear, DrawData::MoveTo(0, 0), DrawData::Text(VIEW_HELP@)];
    assert(inside(head, h));
    lemma_body_inside(rows, offset, less(h, 2) as nat, codes, h);
    lemma_inside_add(head, body_drawing(rows, offset, less(h, 2) as nat, codes), h);
}

/// The rows of an article are drawn from the second row of the screen on.
proof fn lemma_body_inside(rows: Seq<LineData>, offset: int, n: nat, codes: StyleCodes, h: int)
    requires
        n < h,
    ensures
        inside(body_drawing(rows, offset, n, codes), h),
    decreases n,
{
    if n > 0 {
        lemma_body_inside(rows, offset, (n - 1) as nat, codes, h);
        let last = seq![
            DrawData::MoveTo(0, n as int),
            DrawData::Text(coloured(rows[offset + n - 1], codes)),
        ];
        assert(inside(last, h));
        lemma_inside_add(body_drawing(rows, offset, (n - 1) as nat, codes), last, h);
    }
}

/// `j` goes to the next article wherever there is one and `k` to the one before,
/// each from its first line. At either end the article stays as it is.
pub proof fn law_neighbours(v: ViewData, count: int, h: int)
    requires
        v.wf(),
    ensures
        ({
            let (next, a) = view_step(v, Key::Char('j'), count, h);
            let (before, b) = view_step(v, Key::Char('k'), count, h);
            &&& a == ViewActionData::Show && b == ViewActionData::Show
            &&& v.idx + 1 < v.articles.len() ==> next.current() == v.articles[v.idx + 1]
                && next.offset == 0 && next.idx == v.idx + 1
            &&& v.idx + 1 == v.articles.len() ==> next == v
            &&& v.idx != 0 ==> before.current() == v.articles[v.idx - 1] && before.offset == 0
                && before.idx == v.idx - 1
            &&& v.idx == 0 ==> before == v
            &&& next.articles == v.articles && before.articles == v.articles
        }),
{
}

/// Down goes one line down as long as lines are hidden below, and up one line up as
/// long as lines are hidden above. Neither changes the article.
pub proof fn law_line_by_line(v: ViewData, count: int, h: int)
    requires
        v.wf(),
        v.offset >= 0,
        count >= 0,
        h >= 2,
    ensures
        ({
            let (down, a) = view_step(v, Key::Down, count, h);
            let (up, b) = view_step(v, Key::Up, count, h);
            &&& a == ViewActionData::Show && b == ViewActionData::Show
            &&& v.offset + (h - 2) < count ==> down.offset == v.offset + 1
            &&& v.offset + (h - 2) == count ==> down == v
            &&& count <= h - 2 ==> down.offset == 0
            &&& v.offset > 0 ==> up.offset == v.offset - 1
            &&& v.offset == 0 ==> up == v
            &&& down == (ViewData { offset: down.offset, ..v })
            &&& up == (ViewData { offset: up.offset, ..v })
        }),
{
}

/// `q` and Escape leave, and no other key does. `c`, `i` and `o` are about the
/// article that is shown. Every other key but those that move changes nothing.
pub proof fn law_view_keys(v: ViewData, key: Key, count: int, h: int)
    ensures
        view_step(v, key, count, h).1 == ViewActionData::Leave <==> key == Key::Char('q') || key
            == Key::Esc,
        view_step(v, Key::Char('q'), count, h).0 == v,
        view_step(v, Key::Esc, count, h).0 == v,
        view_step(v, Key::Char('c'), count, h) == (v, ViewActionData::Ask(QuestionData::Comment)),
        view_step(v, Key::Char('i'), count, h) == (v, ViewActionData::Image(v.articles[v.idx])),
        view_step(v, Key::Char('o'), count, h) == (v, ViewActionData::Open(v.articles[v.idx].url)),
        (match key {
            Key::Char(c) => c != 'q' && c != 'j' && c != 'k' && c != 'c' && c != 'i' && c != 'o',
            Key::Esc => false,
            Key::Up => false,
            Key::Down => false,
            _ => true,
        }) ==> view_step(v, key, count, h) == (v, ViewActionData::Show),
{
}

/// A comment is asked for first and its tags then, and it is saved for the article
/// that is shown. Without a comment nothing is saved, and without tags the tag is
/// `reading`.
pub proof fn law_view_comment(v: ViewData, comment: Seq<char>, tags: Seq<char>)
    ensures
        view_answer(v, QuestionData::Comment, Some(comment)) == ViewActionData::Ask(
            QuestionData::Tags(comment),
        ),
        view_answer(v, QuestionData::Comment, None) == ViewActionData::Show,
        view_answer(v, QuestionData::Tags(comment), Some(tags)) == ViewActionData::SaveComment(
            v.articles[v.idx],
            comment,
            words(tags),
        ),
        view_answer(v, QuestionData::Tags(comment), None) == ViewActionData::SaveComment(
            v.articles[v.idx],
            comment,
            words("reading"@),
        ),
{
}

/// The lines are drawn one below the other from the second line of the screen on,
/// from the first one that is not scrolled away, as many as there is room for.
pub proof fn law_lines_drawn(rows: Seq<LineData>, offset: int, n: nat, codes: StyleCodes, k: int)
    requires
        0 <= offset <= rows.len(),
    ensures
        ({
            let drawing = body_drawing(rows, offset, n, codes);
            let shown = if n <= rows.len() - offset {
                n as int
            } else {
                rows.len() - offset
            };
            &&& drawing.len() == 2 * shown
            &&& 0 <= k < shown ==> drawing[2 * k] == DrawData::MoveTo(0, k + 1)
            &&& 0 <= k < shown ==> drawing[2 * k + 1] == DrawData::Text(
                coloured(rows[offset + k], codes),
            )
        }),
    decreases n,
{
    if n > 0 {
        law_lines_drawn(rows, offset, (n - 1) as nat, codes, k);
    }
}

/// An article is drawn on a cleared screen below the keys that work on it, and two
/// lines of the screen are left for them.
pub proof fn law_view_drawn(rows: Seq<LineData>, offset: int, codes: StyleCodes, h: int)
    requires
        h >= 2,
    ensures
        ({
            let drawing = view_drawing(rows, offset, codes, h);
            &&& drawing[0] == DrawData::Clear
            &&& drawing[1] == DrawData::MoveTo(0, 0)
            &&& drawing[2] == DrawData::Text(
                "dpn-reader article view (firehose)  [j/k next/prev article] [up/down scroll] [q back] [c comment] [i image] [o open]\n"@,
            )
            &&& drawing.skip(3) == body_drawing(rows, offset, (h - 2) as nat, codes)
        }),
{
    let drawing = view_drawing(rows, offset, codes, h);
    assert(drawing.skip(3) =~= body_drawing(rows, offset, (h - 2) as nat, codes));
}

} // verus!
