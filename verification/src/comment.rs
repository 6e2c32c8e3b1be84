//! Comments on articles, and the documents in which they are kept.

use crate::article::{date_of, shown_date, ArticleData, ArticleRow};
use crate::feed::text_or;
use crate::text::{
    all_space, ascii_alnum, ascii_lower, chars_of, extend_chars, is_ascii_alnum, is_ascii_text,
    is_ascii_upper, is_trimmed, law_split, law_trimmed, lemma_run, lemma_trim, lowercase, other_than, run, split_at_char, split_on, split_words,
    starts_with, string_of, to_lowercase, trim, trim_text, truncate_chars, truncated, words,
};
use serde_json::{Map as JsonMap, Value};
use vstd::prelude::*;
use vstd::utf8::{encode_utf8, is_ascii_chars};

verus! {

/// The folder for documents with comments.
pub const THOUGHT_POLICE_PATH: &'static str =
    "Areas/Eckenrode Muziekopname/Executive/Thought Police/";

// ---------------------------------------------------------------------------
// Names made of titles
// ---------------------------------------------------------------------------

/// `c` where it is an ASCII letter or digit, and a dash otherwise.
pub open spec fn dashed_char(c: char) -> char {
    if is_ascii_alnum(c) {
        c
    } else {
        '-'
    }
}

/// `s` with a dash in the place of everything but ASCII letters and digits.
pub open spec fn dashed(s: Seq<char>) -> Seq<char> {
    s.map_values(|c: char| dashed_char(c))
}

/// Pieces with a dash between them.
pub open spec fn with_dashes(pieces: Seq<Seq<char>>) -> Seq<char>
    decreases pieces.len(),
{
    if pieces.len() == 0 {
        seq![]
    } else if pieces.len() == 1 {
        pieces[0]
    } else {
        pieces[0] + seq!['-'] + with_dashes(pieces.drop_first())
    }
}

/// The pieces that are not empty.
pub open spec fn filled(pieces: Seq<Seq<char>>) -> Seq<Seq<char>>
    decreases pieces.len(),
{
    if pieces.len() == 0 {
        seq![]
    } else if pieces[0].len() == 0 {
        filled(pieces.drop_first())
    } else {
        seq![pieces[0]] + filled(pieces.drop_first())
    }
}

/// The name made of a title in small letters: its runs of ASCII letters and
/// digits with a dash between them, or `untitled` where it has none.
pub open spec fn slug_of(lower: Seq<char>) -> Seq<char> {
    let s = with_dashes(filled(split_on(dashed(lower), '-')));
    if s.len() == 0 {
        "untitled"@
    } else {
        s
    }
}

/// The name made of a title in small letters.
pub fn slug_from_lower(lower: &str) -> (slug: String)
    ensures
        slug@ == slug_of(lower@),
{
    let chars: Vec<char> = chars_of(lower);
    let mut cleaned: Vec<char> = Vec::new();
    let mut i: usize = 0;
    while i < chars.len()
        invariant
            i <= chars@.len(),
            cleaned@ == dashed(chars@).take(i as int),
        decreases chars@.len() - i,
    {
        if ascii_alnum(chars[i]) {
            cleaned.push(chars[i]);
        } else {
            cleaned.push('-');
        }
        i = i + 1;
    }
    assert(dashed(chars@).take(i as int) == dashed(lower@));
    let parts: Vec<String> = split_at_char(&cleaned, '-');
    let ghost ps = parts.deep_view();
    assert(ps.len() == parts@.len());
    let mut out: Vec<char> = Vec::new();
    let mut k: usize = 0;
    let ghost mut before: Seq<Seq<char>> = seq![];
    assert(ps.skip(0) == ps);
    assert(before + filled(ps) =~= filled(ps));
    while k < parts.len()
        invariant
            k <= parts@.len(),
            ps == parts.deep_view(),
            ps.len() == parts@.len(),
            filled(ps) == before + filled(ps.skip(k as int)),
            out@ == with_dashes(before),
            out@.len() == 0 <==> before.len() == 0,
        decreases parts@.len() - k,
    {
        let ghost rest = ps.skip(k as int);
        assert(rest[0] == parts@[k as int]@);
        assert(rest.drop_first() == ps.skip(k + 1));
        let piece: Vec<char> = chars_of(parts[k].as_str());
        if !piece.is_empty() {
            let ghost old_out = out@;
            proof {
                lemma_with_dashes_push(before, piece@);
            }
            if !out.is_empty() {
                out.push('-');
                assert(out@ =~= old_out + seq!['-']);
            }
            extend_chars(&mut out, &piece);
            proof {
                assert(before + (seq![piece@] + filled(ps.skip(k + 1))) =~= before.push(piece@)
                    + filled(ps.skip(k + 1)));
                if old_out.len() == 0 {
                    assert(out@ =~= piece@);
                }
                before = before.push(piece@);
            }
        }
        k = k + 1;
    }
    assert(ps.skip(k as int).len() == 0);
    assert(before =~= filled(ps));
    if out.is_empty() {
        return String::new().concat("untitled");
    }
    string_of(&out)
}

/// One piece more.
proof fn lemma_with_dashes_push(pieces: Seq<Seq<char>>, p: Seq<char>)
    ensures
        pieces.len() == 0 ==> with_dashes(pieces.push(p)) == p,
        pieces.len() > 0 ==> with_dashes(pieces.push(p)) == with_dashes(pieces) + seq!['-'] + p,
    decreases pieces.len(),
{
    let all = pieces.push(p);
    if pieces.len() == 1 {
        assert(all.drop_first() =~= seq![p]);
        assert(with_dashes(seq![p]) == p);
        assert(with_dashes(all) =~= with_dashes(pieces) + seq!['-'] + p);
    } else if pieces.len() > 1 {
        let rest = pieces.drop_first();
        lemma_with_dashes_push(rest, p);
        assert(all.drop_first() =~= rest.push(p));
        assert(with_dashes(all) == pieces[0] + seq!['-'] + with_dashes(rest.push(p)));
        assert(with_dashes(pieces) == pieces[0] + seq!['-'] + with_dashes(rest));
        assert(with_dashes(all) =~= with_dashes(pieces) + seq!['-'] + p);
    }
}

/// The small ASCII letters and the digits.
pub open spec fn is_slug_char(c: char) -> bool {
    is_ascii_alnum(c) && !is_ascii_upper(c)
}

/// A name: small letters and digits, with single dashes between them.
pub open spec fn is_slug(s: Seq<char>) -> bool {
    &&& s.len() > 0
    &&& s[0] != '-'
    &&& s.last() != '-'
    &&& forall|i: int| 0 <= i < s.len() ==> is_slug_char(#[trigger] s[i]) || s[i] == '-'
    &&& forall|i: int, j: int|
        0 <= i < s.len() && j == i + 1 && j < s.len() ==> !(#[trigger] s[i] == '-' && #[trigger] s[j]
            == '-')
}

/// Pieces of small letters and digits that are not empty.
spec fn slug_pieces(pieces: Seq<Seq<char>>) -> bool {
    forall|i: int| 0 <= i < pieces.len() ==> slug_piece(#[trigger] pieces[i])
}

/// A piece of small letters and digits that is not empty.
spec fn slug_piece(p: Seq<char>) -> bool {
    p.len() > 0 && forall|k: int| 0 <= k < p.len() ==> is_slug_char(#[trigger] p[k])
}

/// Pieces of small letters and digits with dashes between them are a name.
proof fn lemma_with_dashes_slug(pieces: Seq<Seq<char>>)
    requires
        pieces.len() > 0,
        slug_pieces(pieces),
    ensures
        is_slug(with_dashes(pieces)),
    decreases pieces.len(),
{
    let s = with_dashes(pieces);
    let p = pieces[0];
    assert(slug_piece(p));
    if pieces.len() == 1 {
        assert(s == p);
        assert(is_slug_char(p[0]));
        assert(is_slug_char(p[p.len() - 1]));
        assert forall|i: int, j: int|
            0 <= i < s.len() && j == i + 1 && j < s.len() implies !(#[trigger] s[i] == '-'
            && #[trigger] s[j] == '-') by {
            assert(is_slug_char(p[i]));
        }
    } else {
        let rest = pieces.drop_first();
        assert forall|i: int| 0 <= i < rest.len() implies slug_piece(#[trigger] rest[i]) by {
            assert(rest[i] == pieces[i + 1]);
        }
        lemma_with_dashes_slug(rest);
        let t = with_dashes(rest);
        let n = p.len() as int;
        assert(s =~= p + seq!['-'] + t);
        assert(forall|i: int| 0 <= i < n ==> #[trigger] s[i] == p[i]);
        assert(forall|i: int| n < i < s.len() ==> #[trigger] s[i] == t[i - n - 1]);
        assert(is_slug_char(p[0]));
        assert(s.last() == t.last());
        assert forall|i: int| 0 <= i < s.len() implies is_slug_char(#[trigger] s[i]) || s[i]
            == '-' by {
            if i < n {
                assert(is_slug_char(p[i]));
            } else if i > n {
                assert(is_slug_char(t[i - n - 1]) || t[i - n - 1] == '-');
            }
        }
        assert forall|i: int, j: int|
            0 <= i < s.len() && j == i + 1 && j < s.len() implies !(#[trigger] s[i] == '-'
            && #[trigger] s[j] == '-') by {
            if i < n {
                assert(is_slug_char(p[i]));
            } else if i == n {
                assert(s[j] == t[0]);
            } else {
                assert(s[i] == t[i - n - 1] && s[j] == t[j - n - 1]);
            }
        }
    }
}

/// The pieces between dashes, without the empty ones, are pieces of small
/// letters and digits.
proof fn lemma_filled_pieces(s: Seq<char>)
    requires
        forall|i: int| 0 <= i < s.len() ==> is_slug_char(#[trigger] s[i]) || s[i] == '-',
    ensures
        slug_pieces(filled(split_on(s, '-'))),
    decreases s.len(),
{
    let p = other_than('-');
    let n = run(s, p) as int;
    lemma_run(s, p);
    let all = split_on(s, '-');
    let head = s.take(n);
    assert forall|k: int| 0 <= k < head.len() implies is_slug_char(#[trigger] head[k]) by {
        assert(head[k] == s[k]);
        assert(p(s[k]));
    }
    if n >= s.len() {
        assert(head =~= s);
        assert(all.drop_first() =~= seq![]);
        assert(filled(all.drop_first()) =~= seq![]);
        let f = filled(all);
        assert forall|i: int| 0 <= i < f.len() implies slug_piece(#[trigger] f[i]) by {
            assert(f =~= seq![s]);
        }
    } else {
        let rest = s.skip(n + 1);
        assert forall|i: int| 0 <= i < rest.len() implies is_slug_char(#[trigger] rest[i])
            || rest[i] == '-' by {
            assert(rest[i] == s[i + n + 1]);
        }
        lemma_filled_pieces(rest);
        assert(all.drop_first() =~= split_on(rest, '-'));
        assert(all[0] == head);
        let f = filled(all);
        let g = filled(split_on(rest, '-'));
        assert forall|i: int| 0 <= i < f.len() implies slug_piece(#[trigger] f[i]) by {
            if head.len() == 0 {
                assert(f == g);
            } else {
                assert(f == seq![head] + g);
                if i > 0 {
                    assert(f[i] == g[i - 1]);
                }
            }
        }
    }
}

/// What is made of a title in small letters is a name.
pub proof fn lemma_slug_of(lower: Seq<char>)
    requires
        forall|i: int| 0 <= i < lower.len() ==> !is_ascii_upper(#[trigger] lower[i]),
    ensures
        is_slug(slug_of(lower)),
{
    let d = dashed(lower);
    assert forall|i: int| 0 <= i < d.len() implies is_slug_char(#[trigger] d[i]) || d[i] == '-' by {
        assert(d[i] == dashed_char(lower[i]));
    }
    lemma_filled_pieces(d);
    let f = filled(split_on(d, '-'));
    if f.len() > 0 {
        lemma_with_dashes_slug(f);
    }
    reveal_strlit("untitled");
}

/// Between the dashes of a name no piece is empty, and the pieces with dashes
/// between them are the name.
proof fn lemma_slug_pieces(s: Seq<char>)
    requires
        is_slug(s),
    ensures
        filled(split_on(s, '-')) == split_on(s, '-'),
        with_dashes(split_on(s, '-')) == s,
    decreases s.len(),
{
    let p = other_than('-');
    let n = run(s, p) as int;
    lemma_run(s, p);
    assert(p(s[0]));
    assert(n > 0);
    let all = split_on(s, '-');
    let head = s.take(n);
    if n >= s.len() {
        assert(all.drop_first() =~= seq![]);
        assert(filled(all.drop_first()) =~= seq![]);
        assert(filled(all) =~= all);
    } else {
        let rest = s.skip(n + 1);
        assert(s[n] == '-');
        assert(s[n] != s.last() || n + 1 < s.len());
        assert(rest.len() > 0);
        assert(rest[0] == s[n + 1]);
        assert(forall|i: int| 0 <= i < rest.len() ==> #[trigger] rest[i] == s[i + n + 1]);
        assert(rest.last() == s.last());
        assert(is_slug(rest)) by {
            assert forall|i: int, j: int|
                0 <= i < rest.len() && j == i + 1 && j < rest.len() implies !(#[trigger] rest[i]
                == '-' && #[trigger] rest[j] == '-') by {
                assert(rest[i] == s[i + n + 1] && rest[j] == s[j + n + 1]);
            }
            assert forall|i: int| 0 <= i < rest.len() implies is_slug_char(#[trigger] rest[i])
                || rest[i] == '-' by {
                assert(is_slug_char(s[i + n + 1]) || s[i + n + 1] == '-');
            }
        }
        lemma_slug_pieces(rest);
        let tail = split_on(rest, '-');
        assert(all == seq![head] + tail);
        assert(all.drop_first() =~= tail);
        assert(filled(all) =~= all);
        assert(tail.len() > 0);
        assert(with_dashes(all) == head + seq!['-'] + with_dashes(tail));
        assert(with_dashes(all) =~= s);
    }
}

/// A name stays what it is when a name is made of it.
pub proof fn lemma_slug_fixed(s: Seq<char>)
    requires
        is_slug(s),
    ensures
        trim(s) == s,
        is_ascii_text(s),
        ascii_lower(s) == s,
        slug_of(s) == s,
{
    assert(forall|i: int| 0 <= i < s.len() ==> is_slug_char(#[trigger] s[i]) || s[i] == '-');
    assert(s.last() == s[s.len() - 1]);
    lemma_trim(s);
    assert(ascii_lower(s) =~= s) by {
        assert forall|i: int| 0 <= i < s.len() implies #[trigger] ascii_lower(s)[i] == s[i] by {
            assert(is_slug_char(s[i]) || s[i] == '-');
        }
    }
    assert(dashed(s) =~= s) by {
        assert forall|i: int| 0 <= i < s.len() implies #[trigger] dashed(s)[i] == s[i] by {
            assert(is_slug_char(s[i]) || s[i] == '-');
        }
    }
    lemma_slug_pieces(s);
}

/// The name made of a title: small ASCII letters and digits, with a dash for
/// whatever stands between them. A name stays what it is.
pub fn slugify(s: &str) -> (slug: String)
    ensures
        slug@ == slug_of(lowercase(trim(s@))),
        is_slug(slug@),
        is_slug(s@) ==> slug@ == s@,
{
    let lower: String = to_lowercase(trim_text(s).as_str());
    proof {
        lemma_slug_of(lower@);
        if is_slug(s@) {
            lemma_slug_fixed(s@);
        }
    }
    slug_from_lower(lower.as_str())
}

/// A name takes as many bytes as it has characters.
pub proof fn law_slug_bytes(s: Seq<char>)
    requires
        is_slug(s),
    ensures
        encode_utf8(s).len() == s.len(),
{
    lemma_slug_fixed(s);
    assert(is_ascii_chars(s)) by {
        assert forall|i: int| 0 <= i < s.len() implies '\0' <= #[trigger] s[i] <= '\u{7f}' by {
            assert(s[i] as u32 <= 127);
        }
    }
    vstd::utf8::is_ascii_chars_encode_utf8(s);
}

// ---------------------------------------------------------------------------
// Documents
// ---------------------------------------------------------------------------

/// A value of a JSON object: a text or a list of texts.
#[derive(Debug)]
pub enum JsonField {
    Text(String),
    List(Vec<String>),
}

/// A value of a JSON object, as plain texts.
pub enum FieldData {
    Text(Seq<char>),
    List(Seq<Seq<char>>),
}

impl DeepView for JsonField {
    type V = FieldData;

    open spec fn deep_view(&self) -> FieldData {
        match self {
            JsonField::Text(s) => FieldData::Text(s@),
            JsonField::List(l) => FieldData::List(l.deep_view()),
        }
    }
}

/// The text of a JSON object with these names and values.
pub uninterp spec fn json_object(fields: Seq<(Seq<char>, FieldData)>) -> Seq<char>;

/// `Value::to_string` of an object with these names and values: the compact
/// JSON text of it, which depends on them alone. The contract gives that text a
/// name and does not say how it is written.
#[verifier::external_body]
fn write_json(fields: Vec<(String, JsonField)>) -> (text: String)
    ensures
        text@ == json_object(fields.deep_view()),
{
    let map: JsonMap<String, Value> = fields.into_iter().map(|(name, field)| match field {
        JsonField::Text(s) => (name, Value::from(s)),
        JsonField::List(l) => (name, Value::from(l)),
    }).collect();
    Value::Object(map).to_string()
}

/// A document with a comment.
#[derive(Debug)]
pub struct CommentDocument {
    pub path: String,
    pub title: String,
    pub frontmatter: String,
    pub content: String,
}

/// A document with a comment, as plain texts.
pub struct DocumentData {
    pub path: Seq<char>,
    pub title: Seq<char>,
    pub frontmatter: Seq<char>,
    pub content: Seq<char>,
}

impl DeepView for CommentDocument {
    type V = DocumentData;

    open spec fn deep_view(&self) -> DocumentData {
        DocumentData {
            path: self.path@,
            title: self.title@,
            frontmatter: self.frontmatter@,
            content: self.content@,
        }
    }
}

/// The path of a document: the time, and at most sixty characters of the name
/// made of the title of the article.
pub open spec fn document_path(stamp: Seq<char>, slug: Seq<char>) -> Seq<char> {
    THOUGHT_POLICE_PATH@ + stamp + "-"@ + truncated(slug, 60) + ".md"@
}

/// The names and values at the head of a document.
pub open spec fn document_fields(
    article: ArticleData,
    tags: Seq<Seq<char>>,
    created_at: Seq<char>,
) -> Seq<(Seq<char>, FieldData)> {
    seq![
        ("title"@, FieldData::Text("Reading: "@ + article.title)),
        ("status"@, FieldData::Text("draft"@)),
        ("type"@, FieldData::Text("reading_comment"@)),
        ("source_url"@, FieldData::Text(article.url)),
        ("source_feed"@, FieldData::Text(article.feed_title)),
        ("source_published_at"@, FieldData::Text(article.published_at)),
        ("tags"@, FieldData::List(tags)),
        ("created_at"@, FieldData::Text(created_at)),
    ]
}

/// The text of a document: what the comment is about, and the comment.
pub open spec fn document_text(article: ArticleData, comment: Seq<char>) -> Seq<char> {
    "# Reading Comment\n\n## Source\n- Title: "@ + article.title + "\n- Feed: "@
        + article.feed_title + "\n- URL: "@ + article.url + "\n- Published: "@ + date_of(
        article.published_at,
    ) + "\n\n## Comment\n\n"@ + trim(comment) + "\n"@
}

/// The document for a comment.
pub open spec fn document_of(
    article: ArticleData,
    comment: Seq<char>,
    tags: Seq<Seq<char>>,
    stamp: Seq<char>,
    created_at: Seq<char>,
) -> DocumentData {
    DocumentData {
        path: document_path(stamp, slug_of(lowercase(trim(article.title)))),
        title: "Reading: "@ + article.title,
        frontmatter: json_object(document_fields(article, tags, created_at)),
        content: document_text(article, comment),
    }
}

/// A copy of a text as a value of a JSON object.
fn text_field(s: &str) -> (field: JsonField)
    ensures
        field.deep_view() == FieldData::Text(s@),
{
    let text: String = String::new().concat(s);
    assert(text@ =~= s@);
    JsonField::Text(text)
}

/// The copies of texts.
fn copy_texts(texts: &[String]) -> (copies: Vec<String>)
    ensures
        copies.deep_view() == texts.deep_view(),
{
    let mut copies: Vec<String> = Vec::new();
    let ghost all = texts.deep_view();
    assert(all.len() == texts@.len());
    let mut i: usize = 0;
    assert(copies.deep_view() =~= all.take(0));
    while i < texts.len()
        invariant
            i <= texts@.len(),
            all == texts.deep_view(),
            all.len() == texts@.len(),
            copies.deep_view() == all.take(i as int),
        decreases texts@.len() - i,
    {
        let ghost done = copies.deep_view();
        copies.push(texts[i].clone());
        assert(all[i as int] == texts@[i as int]@);
        assert(copies.deep_view() =~= done.push(all[i as int]));
        assert(all.take(i + 1) =~= all.take(i as int).push(all[i as int]));
        i = i + 1;
    }
    assert(all.take(i as int) =~= all);
    copies
}

/// The names and values at the head of a document.
fn head_fields(article: &ArticleRow, tags: &[String], created_at: &str) -> (fields: Vec<
    (String, JsonField),
>)
    ensures
        fields.deep_view() == document_fields(
            article.deep_view(),
            tags.deep_view(),
            created_at@,
        ),
{
    let title: String = String::new().concat("Reading: ").concat(article.title.as_str());
    let mut fields: Vec<(String, JsonField)> = Vec::new();
    fields.push((String::new().concat("title"), text_field(title.as_str())));
    fields.push((String::new().concat("status"), text_field("draft")));
    fields.push((String::new().concat("type"), text_field("reading_comment")));
    fields.push((String::new().concat("source_url"), text_field(article.url.as_str())));
    fields.push((String::new().concat("source_feed"), text_field(article.feed_title.as_str())));
    fields.push(
        (String::new().concat("source_published_at"), text_field(article.published_at.as_str())),
    );
    fields.push((String::new().concat("tags"), JsonField::List(copy_texts(tags))));
    fields.push((String::new().concat("created_at"), text_field(created_at)));
    assert(fields.deep_view() =~= document_fields(
        article.deep_view(),
        tags.deep_view(),
        created_at@,
    ));
    fields
}

/// The document for a comment on an article. `stamp` is the time as it stands
/// in the path, `created_at` the time as it stands in the document. The
/// document lies in the folder for comments.
pub fn comment_document(
    article: &ArticleRow,
    comment: &str,
    tags: &[String],
    stamp: &str,
    created_at: &str,
) -> (document: CommentDocument)
    ensures
        document.deep_view() == document_of(
            article.deep_view(),
            comment@,
            tags.deep_view(),
            stamp@,
            created_at@,
        ),
        starts_with(document.path@, THOUGHT_POLICE_PATH@),
{
    let slug: String = slugify(article.title.as_str());
    let short: String = truncate_chars(slug.as_str(), 60);
    let path: String = String::new().concat(THOUGHT_POLICE_PATH).concat(stamp).concat("-").concat(
        short.as_str(),
    ).concat(".md");
    assert(path@ =~= document_path(stamp@, slug@));
    assert(path@.subrange(0, THOUGHT_POLICE_PATH@.len() as int) =~= THOUGHT_POLICE_PATH@);
    let title: String = String::new().concat("Reading: ").concat(article.title.as_str());
    let content: String = String::new().concat("# Reading Comment\n\n## Source\n- Title: ").concat(
        article.title.as_str(),
    ).concat("\n- Feed: ").concat(article.feed_title.as_str()).concat("\n- URL: ").concat(
        article.url.as_str(),
    ).concat("\n- Published: ").concat(shown_date(article.published_at.as_str())).concat(
        "\n\n## Comment\n\n",
    ).concat(trim_text(comment).as_str()).concat("\n");
    assert(content@ =~= document_text(article.deep_view(), comment@));
    assert(title@ =~= "Reading: "@ + article.title@);
    let frontmatter: String = write_json(head_fields(article, tags, created_at));
    CommentDocument { path, title, frontmatter, content }
}

/// The tags that were entered for a comment: the words of the answer, or
/// `reading` where there is none.
pub fn comment_tags(answer: Option<String>) -> (tags: Vec<String>)
    ensures
        tags.deep_view() == words(text_or(answer.deep_view(), "reading"@)),
{
    match answer {
        Some(text) => split_words(&chars_of(text.as_str())),
        None => split_words(&chars_of("reading")),
    }
}

// ---------------------------------------------------------------------------
// Sending a document
// ---------------------------------------------------------------------------

/// Where documents are sent, and the header that allows it.
#[derive(Debug)]
pub struct ApiTarget {
    pub url: String,
    pub authorization: String,
}

/// Where documents are sent: the given server or the usual one, with the given
/// key or an empty one.
pub fn api_target(server: Option<String>, key: Option<String>) -> (target: ApiTarget)
    ensures
        target.url@ == text_or(server.deep_view(), "https://api.n8k99.com"@) + "/documents"@,
        target.authorization@ == "Bearer "@ + text_or(key.deep_view(), seq![]),
{
    let server: String = match server {
        Some(s) => s,
        None => String::new().concat("https://api.n8k99.com"),
    };
    let key: String = match key {
        Some(k) => k,
        None => String::new(),
    };
    let url: String = server.concat("/documents");
    let authorization: String = String::new().concat("Bearer ").concat(key.as_str());
    assert(authorization@ =~= "Bearer "@ + key@);
    ApiTarget { url, authorization }
}

/// The names and values in which a document is sent.
pub open spec fn request_fields(document: DocumentData) -> Seq<(Seq<char>, FieldData)> {
    seq![
        ("path"@, FieldData::Text(document.path)),
        ("title"@, FieldData::Text(document.title)),
        ("frontmatter"@, FieldData::Text(document.frontmatter)),
        ("content"@, FieldData::Text(document.content)),
    ]
}

/// The text in which a document is sent.
pub fn request_text(document: &CommentDocument) -> (text: String)
    ensures
        text@ == json_object(request_fields(document.deep_view())),
{
    let mut fields: Vec<(String, JsonField)> = Vec::new();
    fields.push((String::new().concat("path"), text_field(document.path.as_str())));
    fields.push((String::new().concat("title"), text_field(document.title.as_str())));
    fields.push((String::new().concat("frontmatter"), text_field(document.frontmatter.as_str())));
    fields.push((String::new().concat("content"), text_field(document.content.as_str())));
    assert(fields.deep_view() =~= request_fields(document.deep_view()));
    write_json(fields)
}

/// What came back for a document that was sent.
#[derive(Debug)]
pub enum ApiReply {
    /// The server could not be reached.
    Unreachable,
    /// The document was not taken: the status and the text of the reply.
    Refused(String, String),
    /// The document was taken, but the reply could not be read to its end.
    Broken,
    /// The document was taken, with this reply.
    Accepted(Vec<u8>),
}

/// Why a document has no number.
#[derive(Debug)]
pub enum SaveError {
    Unreachable,
    Refused(String, String),
    Unreadable,
}

impl SaveError {
    /// The error in words.
    pub open spec fn words(self) -> Seq<char> {
        match self {
            SaveError::Unreachable => "Could not connect to dpn-api for comment save"@,
            SaveError::Refused(status, text) => "API error: "@ + status@ + " - "@ + text@,
            SaveError::Unreadable => "Failed to parse API response"@,
        }
    }

    /// The error in words.
    pub fn message(&self) -> (text: String)
        ensures
            text@ == self.words(),
    {
        match self {
            SaveError::Unreachable => {
                let said: String = String::new().concat(
                    "Could not connect to dpn-api for comment save",
                );
                assert(said@ =~= self.words());
                said
            },
            SaveError::Refused(status, text) => {
                let said: String = String::new().concat("API error: ").concat(
                    status.as_str(),
                ).concat(" - ").concat(text.as_str());
                assert(said@ =~= self.words());
                said
            },
            SaveError::Unreadable => {
                let said: String = String::new().concat("Failed to parse API response");
                assert(said@ =~= self.words());
                said
            },
        }
    }
}

/// The whole number that stands under a name in the JSON text `bytes`: `None`
/// where that is no JSON, and `Some(None)` where it holds no such number.
pub uninterp spec fn json_integer(bytes: Seq<u8>, name: Seq<char>) -> Option<Option<i64>>;

/// `serde_json::from_slice` as a `Value`, the member `name` of that value, and
/// `Value::as_i64` of that member.
#[verifier::external_body]
fn read_integer(bytes: &[u8], name: &str) -> (number: Option<Option<i64>>)
    ensures
        number == json_integer(bytes@, name@),
{
    let value: Value = serde_json::from_slice(bytes).ok()?;
    Some(value[name].as_i64())
}

/// The number of a document from what was read in the reply: zero where the
/// reply gives none.
pub fn document_number(read: Option<Option<i64>>) -> (number: Result<i64, SaveError>)
    ensures
        match read {
            Some(Some(id)) => number == Ok::<i64, SaveError>(id),
            Some(None) => number == Ok::<i64, SaveError>(0),
            None => number == Err::<i64, SaveError>(SaveError::Unreadable),
        },
{
    match read {
        Some(Some(id)) => Ok(id),
        Some(None) => Ok(0),
        None => Err(SaveError::Unreadable),
    }
}

/// The number of the document that was sent, or why it has none.
pub fn saved_document(reply: ApiReply) -> (number: Result<i64, SaveError>)
    ensures
        match reply {
            ApiReply::Unreachable => number == Err::<i64, SaveError>(SaveError::Unreachable),
            ApiReply::Refused(status, text) => number == Err::<i64, SaveError>(
                SaveError::Refused(status, text),
            ),
            ApiReply::Broken => number == Err::<i64, SaveError>(SaveError::Unreadable),
            ApiReply::Accepted(bytes) => match json_integer(bytes@, "id"@) {
                Some(Some(id)) => number == Ok::<i64, SaveError>(id),
                Some(None) => number == Ok::<i64, SaveError>(0),
                None => number == Err::<i64, SaveError>(SaveError::Unreadable),
            },
        },
{
    match reply {
        ApiReply::Unreachable => Err(SaveError::Unreachable),
        ApiReply::Refused(status, text) => Err(SaveError::Refused(status, text)),
        ApiReply::Broken => Err(SaveError::Unreadable),
        ApiReply::Accepted(bytes) => document_number(read_integer(&bytes, "id")),
    }
}

/// Pieces with something in them, put together.
proof fn lemma_with_dashes(first: Seq<char>, rest: Seq<Seq<char>>)
    requires
        first.len() > 0,
    ensures
        filled(seq![first] + rest) == seq![first] + filled(rest),
        filled(rest).len() == 0 ==> with_dashes(seq![first] + filled(rest)) == first,
        filled(rest).len() > 0 ==> with_dashes(seq![first] + filled(rest)) == first + seq!['-']
            + with_dashes(filled(rest)),
        filled(rest).len() > 0 ==> with_dashes(filled(rest)).len() > 0,
    decreases rest.len(),
{
    let all = seq![first] + rest;
    assert(all.drop_first() =~= rest);
    assert(all[0] == first);
    let f = filled(rest);
    assert((seq![first] + f).drop_first() =~= f);
    if rest.len() > 0 {
        let tail = rest.drop_first();
        if rest[0].len() > 0 {
            lemma_with_dashes(rest[0], tail);
        } else {
            lemma_with_dashes(first, tail);
        }
    }
}

/// Letters and digits stay in a slug, in order. Whatever stands between two runs of
/// them becomes one dash, what stands before the first and after the last of them
/// goes, and a title without any is untitled.
pub proof fn law_slug_runs(run: Seq<char>, c: char, rest: Seq<char>)
    requires
        forall|i: int| 0 <= i < run.len() ==> is_ascii_alnum(#[trigger] run[i]),
        !is_ascii_alnum(c),
    ensures
        run.len() > 0 ==> slug_of(run) == run,
        run.len() == 0 ==> slug_of(run) == "untitled"@,
        slug_of(seq![c] + rest) == slug_of(rest),
        run.len() > 0 && has_alnum(rest) ==> slug_of(run + seq![c] + rest) == run + seq!['-']
            + slug_of(rest),
        run.len() > 0 && !has_alnum(rest) ==> slug_of(run + seq![c] + rest) == run,
        !has_alnum(rest) ==> slug_of(rest) == "untitled"@,
{
    let d = dashed(rest);
    let pieces = split_on(d, '-');
    assert(dashed(run) =~= run);
    assert(!run.contains('-')) by {
        if run.contains('-') {
            let i = choose|i: int| 0 <= i < run.len() && run[i] == '-';
            assert(is_ascii_alnum(run[i]));
        }
    }
    law_split(run, '-', d);
    let nothing = Seq::<char>::empty();
    law_split(nothing, '-', d);
    assert(dashed(seq![c] + rest) =~= nothing + seq!['-'] + d);
    assert(dashed(run + seq![c] + rest) =~= run + seq!['-'] + d);
    assert(seq![run].drop_first() =~= seq![]);
    assert(filled(seq![]) =~= seq![]);
    if run.len() > 0 {
        lemma_with_dashes(run, seq![]);
        assert(seq![run] + Seq::<Seq<char>>::empty() =~= seq![run]);
        lemma_with_dashes(run, pieces);
    } else {
        assert(filled(seq![run]) =~= seq![]);
    }
    assert((seq![nothing] + pieces).drop_first() =~= pieces);
    assert(filled(seq![nothing] + pieces) == filled(pieces));
    lemma_filled(rest);
    if filled(pieces).len() > 0 {
        lemma_first_filled(pieces);
    }
}

/// There is an ASCII letter or digit in `s`.
pub open spec fn has_alnum(s: Seq<char>) -> bool {
    exists|i: int| 0 <= i < s.len() && is_ascii_alnum(#[trigger] s[i])
}

/// Pieces of which one has something in it.
proof fn lemma_first_filled(pieces: Seq<Seq<char>>)
    requires
        filled(pieces).len() > 0,
    ensures
        with_dashes(filled(pieces)).len() > 0,
    decreases pieces.len(),
{
    if pieces.len() > 0 {
        if pieces[0].len() == 0 {
            lemma_first_filled(pieces.drop_first());
        } else {
            lemma_with_dashes(pieces[0], pieces.drop_first());
        }
    }
}

/// A text has something in its pieces where it has a letter or a digit.
proof fn lemma_filled(s: Seq<char>)
    ensures
        filled(split_on(dashed(s), '-')).len() > 0 <==> has_alnum(s),
    decreases s.len(),
{
    let d = dashed(s);
    let p = other_than('-');
    let n = run(d, p) as int;
    lemma_run(d, p);
    let nothing = Seq::<Seq<char>>::empty();
    if n >= s.len() {
        assert(seq![d].drop_first() =~= nothing);
        assert(filled(nothing).len() == 0);
        if s.len() > 0 {
            assert(p(d[0]));
            assert(is_ascii_alnum(s[0]));
        }
    } else {
        let rest = s.skip(n + 1);
        assert(dashed(rest) =~= d.skip(n + 1));
        let tail = split_on(d.skip(n + 1), '-');
        assert((seq![d.take(n)] + tail).drop_first() =~= tail);
        lemma_filled(rest);
        assert(!is_ascii_alnum(s[n])) by {
            assert(d[n] == '-');
        }
        if n > 0 {
            assert(p(d[0]));
            assert(is_ascii_alnum(s[0]));
        } else {
            if has_alnum(s) {
                let i = choose|i: int| 0 <= i < s.len() && is_ascii_alnum(#[trigger] s[i]);
                assert(rest[i - 1] == s[i]);
            }
            if has_alnum(rest) {
                let i = choose|i: int| 0 <= i < rest.len() && is_ascii_alnum(#[trigger] rest[i]);
                assert(s[i + 1] == rest[i]);
            }
        }
    }
}

/// What a comment is kept as: a draft at a path of its own that says what was read,
/// where and when, and the comment without the white space around it.
pub proof fn law_document(
    article: ArticleData,
    a: Seq<char>,
    comment: Seq<char>,
    b: Seq<char>,
    tags: Seq<Seq<char>>,
    stamp: Seq<char>,
    created_at: Seq<char>,
)
    requires
        all_space(a),
        all_space(b),
        is_trimmed(comment),
    ensures
        ({
            let document = document_of(article, a + comment + b, tags, stamp, created_at);
            let slug = slug_of(lowercase(trim(article.title)));
            let head = "# Reading Comment\n\n## Source\n- Title: "@ + article.title
                + "\n- Feed: "@ + article.feed_title + "\n- URL: "@ + article.url
                + "\n- Published: "@;
            let tail = "\n\n## Comment\n\n"@ + comment + "\n"@;
            &&& document.title == "Reading: "@ + article.title
            &&& slug.len() <= 60 ==> document.path
                == "Areas/Eckenrode Muziekopname/Executive/Thought Police/"@ + stamp + "-"@ + slug
                + ".md"@
            &&& slug.len() > 60 ==> document.path
                == "Areas/Eckenrode Muziekopname/Executive/Thought Police/"@ + stamp + "-"@ + slug.take(
                60,
            ) + ".md"@
            &&& article.published_at.len() > 0 ==> document.content == head + article.published_at
                + tail
            &&& article.published_at.len() == 0 ==> document.content == head + "unknown"@ + tail
        }),
{
    law_trimmed(a, comment, b);
    let document = document_of(article, a + comment + b, tags, stamp, created_at);
    let head = "# Reading Comment\n\n## Source\n- Title: "@ + article.title + "\n- Feed: "@
        + article.feed_title + "\n- URL: "@ + article.url + "\n- Published: "@;
    let tail = "\n\n## Comment\n\n"@ + comment + "\n"@;
    assert(document.content =~= head + date_of(article.published_at) + tail);
}

/// The fields of a document: each is there once, under its own name, and holds what
/// the article, the tags and the time say.
pub proof fn law_document_fields(
    article: ArticleData,
    tags: Seq<Seq<char>>,
    created_at: Seq<char>,
    document: DocumentData,
)
    ensures
        ({
            let fields = document_fields(article, tags, created_at);
            let sent = request_fields(document);
            &&& fields.len() == 8
            &&& fields.contains(("title"@, FieldData::Text("Reading: "@ + article.title)))
            &&& fields.contains(("status"@, FieldData::Text("draft"@)))
            &&& fields.contains(("type"@, FieldData::Text("reading_comment"@)))
            &&& fields.contains(("source_url"@, FieldData::Text(article.url)))
            &&& fields.contains(("source_feed"@, FieldData::Text(article.feed_title)))
            &&& fields.contains(("source_published_at"@, FieldData::Text(article.published_at)))
            &&& fields.contains(("tags"@, FieldData::List(tags)))
            &&& fields.contains(("created_at"@, FieldData::Text(created_at)))
            &&& sent.len() == 4
            &&& sent.contains(("path"@, FieldData::Text(document.path)))
            &&& sent.contains(("title"@, FieldData::Text(document.title)))
            &&& sent.contains(("frontmatter"@, FieldData::Text(document.frontmatter)))
            &&& sent.contains(("content"@, FieldData::Text(document.content)))
        }),
{
    let fields = document_fields(article, tags, created_at);
    let sent = request_fields(document);
    assert(fields[0] == ("title"@, FieldData::Text("Reading: "@ + article.title)));
    assert(fields[1] == ("status"@, FieldData::Text("draft"@)));
    assert(fields[2] == ("type"@, FieldData::Text("reading_comment"@)));
    assert(fields[3] == ("source_url"@, FieldData::Text(article.url)));
    assert(fields[4] == ("source_feed"@, FieldData::Text(article.feed_title)));
    assert(fields[5] == ("source_published_at"@, FieldData::Text(article.published_at)));
    assert(fields[6] == ("tags"@, FieldData::List(tags)));
    assert(fields[7] == ("created_at"@, FieldData::Text(created_at)));
    assert(sent[0] == ("path"@, FieldData::Text(document.path)));
    assert(sent[1] == ("title"@, FieldData::Text(document.title)));
    assert(sent[2] == ("frontmatter"@, FieldData::Text(document.frontmatter)));
    assert(sent[3] == ("content"@, FieldData::Text(document.content)));
}

} // verus!
