//! Questions to the database of articles.

use crate::text::{ends_with, signed_decimal, signed_text, starts_with, trim, trim_text};
use vstd::prelude::*;

verus! {

/// The columns of an article and where they come from.
pub const SELECT_ARTICLES: &'static str = "
        SELECT a.id, a.feed_id, f.title, a.url, a.title,
               COALESCE(a.published_at,''), a.published_ts,
               COALESCE(a.summary,''), COALESCE(a.content,''), a.is_read
        FROM articles a
        JOIN feeds f ON f.id = a.feed_id
        WHERE 1=1
        ";

/// The articles of one feed only.
pub const OF_FEED: &'static str = " AND a.feed_id = ?";

/// The articles that hold a text only.
pub const WITH_TEXT: &'static str = " AND (a.title LIKE ? OR a.summary LIKE ? OR a.content LIKE ?)";

/// The newest articles first.
pub const NEWEST_FIRST: &'static str = " ORDER BY a.published_ts DESC, a.id DESC LIMIT 500";

/// A question in SQL and the values for its question marks.
#[derive(Debug)]
pub struct ArticleQuery {
    pub sql: String,
    pub binds: Vec<String>,
}

/// A question in SQL and the values for its question marks, as plain texts.
pub struct QueryData {
    pub sql: Seq<char>,
    pub binds: Seq<Seq<char>>,
}

impl DeepView for ArticleQuery {
    type V = QueryData;

    open spec fn deep_view(&self) -> QueryData {
        QueryData { sql: self.sql@, binds: self.binds.deep_view() }
    }
}

/// The pattern that finds `search` anywhere in a text.
pub open spec fn like_pattern(search: Seq<char>) -> Seq<char> {
    "%"@ + search + "%"@
}

/// The question for the newest articles: those of one feed where `feed_id`
/// names one, and those that hold `search` in their title, summary or content
/// where it is not empty.
pub open spec fn query_for(feed_id: Option<i64>, search: Seq<char>) -> QueryData {
    let of_feed = match feed_id {
        Some(id) => OF_FEED@,
        None => seq![],
    };
    let feed_binds = match feed_id {
        Some(id) => seq![signed_decimal(id as int)],
        None => seq![],
    };
    let with_text = if search.len() > 0 {
        WITH_TEXT@
    } else {
        seq![]
    };
    let text_binds = if search.len() > 0 {
        seq![like_pattern(search), like_pattern(search), like_pattern(search)]
    } else {
        seq![]
    };
    QueryData {
        sql: SELECT_ARTICLES@ + of_feed + with_text + NEWEST_FIRST@,
        binds: feed_binds + text_binds,
    }
}

/// The question for the newest articles of a feed, or of all feeds, that hold
/// `search`.
pub fn article_query(feed_id: Option<i64>, search: &str) -> (query: ArticleQuery)
    ensures
        query.deep_view() == query_for(feed_id, search@),
{
    let ghost want = query_for(feed_id, search@);
    let mut sql: String = String::new().concat(SELECT_ARTICLES);
    let mut binds: Vec<String> = Vec::new();
    assert(binds.deep_view() =~= seq![]);
    if let Some(id) = feed_id {
        sql.append(OF_FEED);
        binds.push(signed_text(id));
        assert(binds.deep_view() =~= seq![signed_decimal(id as int)]);
    }
    let ghost feed_binds = binds.deep_view();
    if !search.is_empty() {
        sql.append(WITH_TEXT);
        let q: String = String::new().concat("%").concat(search).concat("%");
        binds.push(q.clone());
        binds.push(q.clone());
        binds.push(q);
        assert(binds.deep_view() =~= feed_binds + seq![
            like_pattern(search@),
            like_pattern(search@),
            like_pattern(search@),
        ]);
    }
    sql.append(NEWEST_FIRST);
    assert(sql@ =~= want.sql);
    assert(binds.deep_view() =~= want.binds);
    ArticleQuery { sql, binds }
}

/// The number of question marks in a text.
pub open spec fn marks(s: Seq<char>) -> nat
    decreases s.len(),
{
    if s.len() == 0 {
        0
    } else {
        marks(s.drop_last()) + if s.last() == '?' {
            1nat
        } else {
            0nat
        }
    }
}

/// The question marks of two texts, one after the other.
proof fn lemma_marks_add(a: Seq<char>, b: Seq<char>)
    ensures
        marks(a + b) == marks(a) + marks(b),
    decreases b.len(),
{
    if b.len() == 0 {
        assert(a + b =~= a);
    } else {
        assert((a + b).drop_last() =~= a + b.drop_last());
        lemma_marks_add(a, b.drop_last());
    }
}

/// A text without a question mark.
proof fn lemma_no_marks(s: Seq<char>)
    requires
        forall|i: int| 0 <= i < s.len() ==> #[trigger] s[i] != '?',
    ensures
        marks(s) == 0,
    decreases s.len(),
{
    if s.len() > 0 {
        assert(s.last() == s[s.len() - 1]);
        assert forall|i: int| 0 <= i < s.drop_last().len() implies #[trigger] s.drop_last()[i]
            != '?' by {
            assert(s.drop_last()[i] == s[i]);
        }
        lemma_no_marks(s.drop_last());
    }
}

/// There is one value for each question mark of the question.
pub proof fn law_marks_and_binds(feed_id: Option<i64>, search: Seq<char>)
    ensures
        marks(query_for(feed_id, search).sql) == query_for(feed_id, search).binds.len(),
{
    reveal_strlit("
        SELECT a.id, a.feed_id, f.title, a.url, a.title,
               COALESCE(a.published_at,''), a.published_ts,
               COALESCE(a.summary,''), COALESCE(a.content,''), a.is_read
        FROM articles a
        JOIN feeds f ON f.id = a.feed_id
        WHERE 1=1
        ");
    reveal_strlit(" AND a.feed_id = ?");
    reveal_strlit(" AND (a.title LIKE ? OR a.summary LIKE ? OR a.content LIKE ?)");
    reveal_strlit(" ORDER BY a.published_ts DESC, a.id DESC LIMIT 500");
    lemma_no_marks(SELECT_ARTICLES@);
    lemma_no_marks(NEWEST_FIRST@);
    let of_feed = match feed_id {
        Some(id) => OF_FEED@,
        None => seq![],
    };
    let with_text = if search.len() > 0 {
        WITH_TEXT@
    } else {
        seq![]
    };
    lemma_marks_add(SELECT_ARTICLES@ + of_feed + with_text, NEWEST_FIRST@);
    lemma_marks_add(SELECT_ARTICLES@ + of_feed, with_text);
    lemma_marks_add(SELECT_ARTICLES@, of_feed);
    assert(marks(OF_FEED@) == 1) by {
        lemma_no_marks(OF_FEED@.drop_last());
    }
    assert(marks(WITH_TEXT@) == 3) by {
        let t = WITH_TEXT@;
        let a = t.subrange(0, 19);
        let b = t.subrange(20, 39);
        let c = t.subrange(40, 59);
        lemma_no_marks(a);
        lemma_no_marks(b);
        lemma_no_marks(c);
        let q = seq!['?'];
        assert(q.drop_last() =~= seq![]);
        assert(marks(seq![]) == 0);
        assert(marks(q) == 1);
        assert(t =~= a + q + b + q + c + q + seq![')']);
        lemma_marks_add(a + q + b + q + c + q, seq![')']);
        lemma_marks_add(a + q + b + q + c, q);
        lemma_marks_add(a + q + b + q, c);
        lemma_marks_add(a + q + b, q);
        lemma_marks_add(a + q, b);
        lemma_marks_add(a, q);
        lemma_no_marks(seq![')']);
    }
}

/// The address and the title under which a feed is stored that was entered by
/// hand: both are what was entered, without the white space around it.
pub fn entered_feed(url: &str) -> (row: (String, String))
    ensures
        row.0@ == trim(url@),
        row.1@ == trim(url@),
{
    let trimmed: String = trim_text(url);
    (trimmed.clone(), trimmed)
}

/// Whatever is asked for, the newest articles come first, those of the same time
/// by their number, and not more than five hundred.
pub proof fn law_newest_first(feed_id: Option<i64>, search: Seq<char>)
    ensures
        ends_with(
            query_for(feed_id, search).sql,
            " ORDER BY a.published_ts DESC, a.id DESC LIMIT 500"@,
        ),
{
    let sql = query_for(feed_id, search).sql;
    let order = " ORDER BY a.published_ts DESC, a.id DESC LIMIT 500"@;
    assert(sql.subrange(sql.len() - order.len(), sql.len() as int) =~= order);
}

/// Two questions differ only by what they ask for: one for a feed is the one for
/// all feeds with the condition on the feed and its number put in, and a search is
/// the question without it with the condition on the text and three times the
/// pattern put in.
pub proof fn law_conditions(id: i64, search: Seq<char>)
    requires
        search.len() > 0,
    ensures
        ({
            let head = query_for(None, seq![]).sql.take(
                query_for(None, seq![]).sql.len()
                    - " ORDER BY a.published_ts DESC, a.id DESC LIMIT 500"@.len(),
            );
            let order = " ORDER BY a.published_ts DESC, a.id DESC LIMIT 500"@;
            let of_feed = " AND a.feed_id = ?"@;
            let with_text = " AND (a.title LIKE ? OR a.summary LIKE ? OR a.content LIKE ?)"@;
            let pattern = seq!['%'] + search + seq!['%'];
            &&& query_for(None, seq![]).binds.len() == 0
            &&& query_for(Some(id), seq![]).sql == head + of_feed + order
            &&& query_for(Some(id), seq![]).binds == seq![signed_decimal(id as int)]
            &&& query_for(None, search).sql == head + with_text + order
            &&& query_for(None, search).binds == seq![pattern, pattern, pattern]
            &&& query_for(Some(id), search).sql == head + of_feed + with_text + order
            &&& query_for(Some(id), search).binds == seq![
                signed_decimal(id as int),
                pattern,
                pattern,
                pattern,
            ]
        }),
{
    let nothing = Seq::<char>::empty();
    let order = " ORDER BY a.published_ts DESC, a.id DESC LIMIT 500"@;
    let base = query_for(None, nothing).sql;
    let head = base.take(base.len() - order.len());
    reveal_strlit("%");
    assert("%"@ =~= seq!['%']);
    assert(like_pattern(search) =~= seq!['%'] + search + seq!['%']);
    assert(head =~= SELECT_ARTICLES@);
    assert(query_for(None, nothing).binds =~= seq![]);
    assert(query_for(Some(id), nothing).sql =~= head + " AND a.feed_id = ?"@ + order);
    assert(query_for(Some(id), nothing).binds =~= seq![signed_decimal(id as int)]);
    assert(query_for(None, search).sql =~= head
        + " AND (a.title LIKE ? OR a.summary LIKE ? OR a.content LIKE ?)"@ + order);
    assert(query_for(None, search).binds =~= seq![
        like_pattern(search),
        like_pattern(search),
        like_pattern(search),
    ]);
    assert(query_for(Some(id), search).sql =~= head + " AND a.feed_id = ?"@
        + " AND (a.title LIKE ? OR a.summary LIKE ? OR a.content LIKE ?)"@ + order);
    assert(query_for(Some(id), search).binds =~= seq![
        signed_decimal(id as int),
        like_pattern(search),
        like_pattern(search),
        like_pattern(search),
    ]);
}

/// The columns come in the order in which an article is read from them, from the
/// articles and the feeds that they belong to.
pub proof fn law_columns(feed_id: Option<i64>, search: Seq<char>)
    ensures
        starts_with(
            query_for(feed_id, search).sql,
            "
        SELECT a.id, a.feed_id, f.title, a.url, a.title,
               COALESCE(a.published_at,''), a.published_ts,
               COALESCE(a.summary,''), COALESCE(a.content,''), a.is_read
        FROM articles a
        JOIN feeds f ON f.id = a.feed_id
        WHERE 1=1
        "@,
        ),
{
    let sql = query_for(feed_id, search).sql;
    assert(sql.subrange(0, SELECT_ARTICLES@.len() as int) =~= SELECT_ARTICLES@);
}

} // verus!
