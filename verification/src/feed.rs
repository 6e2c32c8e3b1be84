//! Feeds in their three formats, and the articles they bring.

use crate::html::{html_text, html_to_text};
use crate::text::{
    chars_of, contains_text, ends_with, finishes_with, holds_text, lowercase, same_text,
    to_lowercase, trim, trim_text,
};
use chrono::DateTime;
use vstd::prelude::*;

verus! {

// ---------------------------------------------------------------------------
// Dates
// ---------------------------------------------------------------------------

/// The second since 1970 that a date of an e-mail header stands for.
pub uninterp spec fn rfc2822_seconds(s: Seq<char>) -> Option<i64>;

/// The second since 1970 that a date of the Internet profile of ISO 8601 stands
/// for.
pub uninterp spec fn rfc3339_seconds(s: Seq<char>) -> Option<i64>;

/// `DateTime::parse_from_rfc2822` and `DateTime::timestamp`: `None` where the
/// text is no such date.
#[verifier::external_body]
fn read_rfc2822(s: &str) -> (seconds: Option<i64>)
    ensures
        seconds == rfc2822_seconds(s@),
{
    DateTime::parse_from_rfc2822(s).ok().map(|t| t.timestamp())
}

/// `DateTime::parse_from_rfc3339` and `DateTime::timestamp`: `None` where the
/// text is no such date.
#[verifier::external_body]
fn read_rfc3339(s: &str) -> (seconds: Option<i64>)
    ensures
        seconds == rfc3339_seconds(s@),
{
    DateTime::parse_from_rfc3339(s).ok().map(|t| t.timestamp())
}

/// The second that two ways to read a date give: the first one that could read
/// it decides, and zero stands for a date that none could read.
pub open spec fn chosen_epoch(first: Option<i64>, second: Option<i64>) -> i64 {
    match first {
        Some(t) => t,
        None => match second {
            Some(t) => t,
            None => 0,
        },
    }
}

/// The second that two ways to read a date give.
pub fn choose_epoch(first: Option<i64>, second: Option<i64>) -> (seconds: i64)
    ensures
        seconds == chosen_epoch(first, second),
{
    match first {
        Some(t) => t,
        None => match second {
            Some(t) => t,
            None => 0,
        },
    }
}

/// The second that the date of an article stands for.
pub open spec fn epoch_of(s: Seq<char>) -> i64 {
    if trim(s).len() == 0 {
        0
    } else {
        chosen_epoch(rfc2822_seconds(s), rfc3339_seconds(s))
    }
}

/// The second since 1970 that the date of an article stands for, and zero for
/// a date that cannot be read.
pub fn parse_datetime_epoch(s: &str) -> (seconds: i64)
    ensures
        seconds == epoch_of(s@),
{
    if trim_text(s).as_str().is_empty() {
        return 0;
    }
    choose_epoch(read_rfc2822(s), read_rfc3339(s))
}

// ---------------------------------------------------------------------------
// Articles of a feed
// ---------------------------------------------------------------------------

/// An article that a feed brings.
#[derive(Debug)]
pub struct FeedItem {
    pub title: String,
    pub url: String,
    pub published_at: String,
    pub published_ts: i64,
    pub summary: String,
    pub content: String,
}

/// An article that a feed brings, as plain values.
pub struct ItemData {
    pub title: Seq<char>,
    pub url: Seq<char>,
    pub published_at: Seq<char>,
    pub published_ts: i64,
    pub summary: Seq<char>,
    pub content: Seq<char>,
}

impl DeepView for FeedItem {
    type V = ItemData;

    open spec fn deep_view(&self) -> ItemData {
        ItemData {
            title: self.title@,
            url: self.url@,
            published_at: self.published_at@,
            published_ts: self.published_ts,
            summary: self.summary@,
            content: self.content@,
        }
    }
}

/// A text, or another one where it is missing.
pub open spec fn text_or(a: Option<Seq<char>>, b: Seq<char>) -> Seq<char> {
    match a {
        Some(s) => s,
        None => b,
    }
}

/// The first of two texts that is there.
pub open spec fn either(a: Option<Seq<char>>, b: Option<Seq<char>>) -> Option<Seq<char>> {
    match a {
        Some(s) => Some(s),
        None => b,
    }
}

/// The article that the parts of an entry make. Summary and content are taken
/// as HTML; where there is no content, the text of the summary stands for it.
pub open spec fn item_of(
    title: Seq<char>,
    url: Seq<char>,
    published_at: Seq<char>,
    summary: Seq<char>,
    content: Option<Seq<char>>,
) -> ItemData {
    ItemData {
        title,
        url,
        published_at,
        published_ts: epoch_of(published_at),
        summary: html_text(summary),
        content: html_text(text_or(content, html_text(summary))),
    }
}

/// `items`, with one more where it has an address.
pub open spec fn with_item(items: Seq<ItemData>, item: ItemData) -> Seq<ItemData> {
    if item.url.len() == 0 {
        items
    } else {
        items.push(item)
    }
}

/// A copy of a text, or of another one where it is missing.
fn copy_or(a: &Option<String>, b: &str) -> (out: String)
    ensures
        out@ == text_or(a.deep_view(), b@),
{
    match a {
        Some(s) => s.clone(),
        None => String::new().concat(b),
    }
}

/// A copy of the first of two texts that is there, or of the empty one.
fn copy_either(a: &Option<String>, b: &Option<String>) -> (out: String)
    ensures
        out@ == text_or(either(a.deep_view(), b.deep_view()), seq![]),
{
    match a {
        Some(s) => s.clone(),
        None => match b {
            Some(s) => s.clone(),
            None => String::new(),
        },
    }
}

/// Makes an article of the parts of an entry.
fn make_item(
    title: String,
    url: String,
    published_at: String,
    summary: &str,
    content: Option<&str>,
) -> (item: FeedItem)
    ensures
        item.deep_view() == item_of(title@, url@, published_at@, summary@, content.deep_view()),
{
    let summary: String = html_to_text(summary);
    let content: String = match content {
        Some(c) => html_to_text(c),
        None => html_to_text(summary.as_str()),
    };
    let published_ts: i64 = parse_datetime_epoch(published_at.as_str());
    FeedItem { title, url, published_at, published_ts, summary, content }
}

/// Appends an article that has an address.
fn push_item(items: &mut Vec<FeedItem>, item: FeedItem)
    ensures
        final(items).deep_view() == with_item(old(items).deep_view(), item.deep_view()),
{
    let ghost before = items.deep_view();
    let ghost data = item.deep_view();
    if !item.url.as_str().is_empty() {
        items.push(item);
        assert(items.deep_view() =~= before.push(data));
    }
}

// ---------------------------------------------------------------------------
// JSON Feed
// ---------------------------------------------------------------------------

/// A feed in JSON.
#[derive(Debug)]
pub struct JsonFeed {
    pub items: Option<Vec<JsonFeedItem>>,
}

/// An entry of a feed in JSON.
#[derive(Debug)]
pub struct JsonFeedItem {
    pub title: Option<String>,
    pub url: Option<String>,
    pub external_url: Option<String>,
    pub date_published: Option<String>,
    pub date_modified: Option<String>,
    pub summary: Option<String>,
    pub content_html: Option<String>,
    pub content_text: Option<String>,
}

/// An entry of a feed in JSON, as plain texts.
pub struct JsonItemData {
    pub title: Option<Seq<char>>,
    pub url: Option<Seq<char>>,
    pub external_url: Option<Seq<char>>,
    pub date_published: Option<Seq<char>>,
    pub date_modified: Option<Seq<char>>,
    pub summary: Option<Seq<char>>,
    pub content_html: Option<Seq<char>>,
    pub content_text: Option<Seq<char>>,
}

impl DeepView for JsonFeedItem {
    type V = JsonItemData;

    open spec fn deep_view(&self) -> JsonItemData {
        JsonItemData {
            title: self.title.deep_view(),
            url: self.url.deep_view(),
            external_url: self.external_url.deep_view(),
            date_published: self.date_published.deep_view(),
            date_modified: self.date_modified.deep_view(),
            summary: self.summary.deep_view(),
            content_html: self.content_html.deep_view(),
            content_text: self.content_text.deep_view(),
        }
    }
}

/// The article of an entry in JSON.
pub open spec fn json_item(it: JsonItemData) -> ItemData {
    item_of(
        text_or(it.title, "Untitled"@),
        text_or(either(it.url, it.external_url), seq![]),
        text_or(either(it.date_published, it.date_modified), seq![]),
        text_or(it.summary, seq![]),
        either(it.content_html, it.content_text),
    )
}

/// The articles of the entries in JSON that have an address.
pub open spec fn json_items(entries: Seq<JsonItemData>) -> Seq<ItemData>
    decreases entries.len(),
{
    if entries.len() == 0 {
        seq![]
    } else {
        with_item(json_items(entries.drop_last()), json_item(entries.last()))
    }
}

/// The articles of a feed in JSON: those of its entries that have an address.
pub fn json_feed_items(feed: &JsonFeed) -> (items: Vec<FeedItem>)
    ensures
        items.deep_view() == match feed.items {
            Some(entries) => json_items(entries.deep_view()),
            None => seq![],
        },
{
    let mut items: Vec<FeedItem> = Vec::new();
    assert(items.deep_view() =~= seq![]);
    if let Some(entries) = &feed.items {
        let ghost all = entries.deep_view();
        assert(all.len() == entries@.len());
        let mut i: usize = 0;
        while i < entries.len()
            invariant
                i <= entries@.len(),
                all == entries.deep_view(),
                all.len() == entries@.len(),
                items.deep_view() == json_items(all.take(i as int)),
            decreases entries@.len() - i,
        {
            assert(all[i as int] == entries@[i as int].deep_view());
            assert(all.take(i + 1).drop_last() == all.take(i as int));
            let it: &JsonFeedItem = &entries[i];
            let content: Option<&str> = match &it.content_html {
                Some(c) => Some(c.as_str()),
                None => match &it.content_text {
                    Some(c) => Some(c.as_str()),
                    None => None,
                },
            };
            let summary: String = copy_or(&it.summary, "");
            proof {
                reveal_strlit("");
                assert(""@ =~= seq![]);
            }
            let item: FeedItem = make_item(
                copy_or(&it.title, "Untitled"),
                copy_either(&it.url, &it.external_url),
                copy_either(&it.date_published, &it.date_modified),
                summary.as_str(),
                content,
            );
            push_item(&mut items, item);
            i = i + 1;
        }
        assert(all.take(i as int) == all);
    }
    items
}

// ---------------------------------------------------------------------------
// RSS
// ---------------------------------------------------------------------------

/// An entry of an RSS channel.
#[derive(Debug)]
pub struct RssEntry {
    pub title: Option<String>,
    pub link: Option<String>,
    pub pub_date: Option<String>,
    pub description: Option<String>,
    pub content: Option<String>,
}

/// An entry of an RSS channel, as plain texts.
pub struct RssData {
    pub title: Option<Seq<char>>,
    pub link: Option<Seq<char>>,
    pub pub_date: Option<Seq<char>>,
    pub description: Option<Seq<char>>,
    pub content: Option<Seq<char>>,
}

impl DeepView for RssEntry {
    type V = RssData;

    open spec fn deep_view(&self) -> RssData {
        RssData {
            title: self.title.deep_view(),
            link: self.link.deep_view(),
            pub_date: self.pub_date.deep_view(),
            description: self.description.deep_view(),
            content: self.content.deep_view(),
        }
    }
}

/// The entries of the RSS channel that stands in `bytes`.
pub uninterp spec fn rss_entries(bytes: Seq<u8>) -> Option<Seq<RssData>>;

/// `Channel::read_from` and the fields of `Channel::items`: `None` where the
/// bytes hold no RSS channel.
#[verifier::external_body]
fn read_rss(bytes: &[u8]) -> (entries: Option<Vec<RssEntry>>)
    ensures
        entries.deep_view() == rss_entries(bytes@),
{
    let channel = rss::Channel::read_from(bytes).ok()?;
    Some(channel.items().iter().map(|it| RssEntry {
        title: it.title().map(str::to_string),
        link: it.link().map(str::to_string),
        pub_date: it.pub_date().map(str::to_string),
        description: it.description().map(str::to_string),
        content: it.content().map(str::to_string),
    }).collect())
}

/// The article of an RSS entry.
pub open spec fn rss_item(it: RssData) -> ItemData {
    item_of(
        text_or(it.title, "Untitled"@),
        text_or(it.link, seq![]),
        text_or(it.pub_date, seq![]),
        text_or(it.description, seq![]),
        it.content,
    )
}

/// The articles of the RSS entries that have an address.
pub open spec fn rss_items(entries: Seq<RssData>) -> Seq<ItemData>
    decreases entries.len(),
{
    if entries.len() == 0 {
        seq![]
    } else {
        with_item(rss_items(entries.drop_last()), rss_item(entries.last()))
    }
}

/// The articles of RSS entries: those that have an address.
pub fn rss_feed_items(entries: &Vec<RssEntry>) -> (items: Vec<FeedItem>)
    ensures
        items.deep_view() == rss_items(entries.deep_view()),
{
    let mut items: Vec<FeedItem> = Vec::new();
    let ghost all = entries.deep_view();
    assert(all.len() == entries@.len());
    assert(items.deep_view() =~= seq![]);
    let mut i: usize = 0;
    while i < entries.len()
        invariant
            i <= entries@.len(),
            all == entries.deep_view(),
            all.len() == entries@.len(),
            items.deep_view() == rss_items(all.take(i as int)),
        decreases entries@.len() - i,
    {
        assert(all[i as int] == entries@[i as int].deep_view());
        assert(all.take(i + 1).drop_last() == all.take(i as int));
        let it: &RssEntry = &entries[i];
        let content: Option<&str> = match &it.content {
            Some(c) => Some(c.as_str()),
            None => None,
        };
        let summary: String = copy_or(&it.description, "");
        proof {
            reveal_strlit("");
            assert(""@ =~= seq![]);
        }
        let item: FeedItem = make_item(
            copy_or(&it.title, "Untitled"),
            copy_or(&it.link, ""),
            copy_or(&it.pub_date, ""),
            summary.as_str(),
            content,
        );
        push_item(&mut items, item);
        i = i + 1;
    }
    assert(all.take(i as int) == all);
    items
}

// ---------------------------------------------------------------------------
// Atom
// ---------------------------------------------------------------------------

/// An entry of an Atom feed. A link is its relation and its address.
#[derive(Debug)]
pub struct AtomEntry {
    pub links: Vec<(String, String)>,
    pub title: String,
    pub updated: String,
    pub summary: Option<String>,
    pub content: Option<String>,
}

/// An entry of an Atom feed, as plain texts.
pub struct AtomData {
    pub links: Seq<(Seq<char>, Seq<char>)>,
    pub title: Seq<char>,
    pub updated: Seq<char>,
    pub summary: Option<Seq<char>>,
    pub content: Option<Seq<char>>,
}

impl DeepView for AtomEntry {
    type V = AtomData;

    open spec fn deep_view(&self) -> AtomData {
        AtomData {
            links: self.links.deep_view(),
            title: self.title@,
            updated: self.updated@,
            summary: self.summary.deep_view(),
            content: self.content.deep_view(),
        }
    }
}

/// The entries of the Atom feed that stands in `bytes`.
pub uninterp spec fn atom_entries(bytes: Seq<u8>) -> Option<Seq<AtomData>>;

/// `Feed::read_from` and the fields of `Feed::entries`, with the date of an
/// entry as `DateTime::to_rfc3339` writes it: `None` where the bytes hold no
/// Atom feed.
#[verifier::external_body]
fn read_atom(bytes: &[u8]) -> (entries: Option<Vec<AtomEntry>>)
    ensures
        entries.deep_view() == atom_entries(bytes@),
{
    let feed = atom_syndication::Feed::read_from(bytes).ok()?;
    Some(feed.entries().iter().map(|e| AtomEntry {
        links: e.links().iter().map(|l| (l.rel().to_string(), l.href().to_string())).collect(),
        title: e.title().to_string(),
        updated: e.updated().to_rfc3339(),
        summary: e.summary().map(|s| s.to_string()),
        content: e.content().and_then(|c| c.value().map(|v| v.to_string())),
    }).collect())
}

/// The index of the first link with the relation `alternate`, or the number of
/// links.
pub open spec fn alternate_index(links: Seq<(Seq<char>, Seq<char>)>) -> int
    decreases links.len(),
{
    if links.len() == 0 || links[0].0 == "alternate"@ {
        0
    } else {
        1 + alternate_index(links.drop_first())
    }
}

/// The address of an Atom entry: its first alternate link, or else its first
/// link. It is empty where there is no link.
pub open spec fn atom_address(links: Seq<(Seq<char>, Seq<char>)>) -> Seq<char> {
    let i = alternate_index(links);
    if i < links.len() {
        links[i].1
    } else if links.len() > 0 {
        links[0].1
    } else {
        seq![]
    }
}

/// The address of an Atom entry.
fn link_of(links: &Vec<(String, String)>) -> (url: String)
    ensures
        url@ == atom_address(links.deep_view()),
{
    let ghost all = links.deep_view();
    assert(all.len() == links@.len());
    let mut i: usize = 0;
    assert(all.skip(0) == all);
    while i < links.len() && !same_text(links[i].0.as_str(), "alternate")
        invariant
            i <= links@.len(),
            all == links.deep_view(),
            all.len() == links@.len(),
            alternate_index(all) == i + alternate_index(all.skip(i as int)),
        decreases links@.len() - i,
    {
        assert(all[i as int] == links@[i as int].deep_view());
        assert(all.skip(i as int).drop_first() == all.skip(i + 1));
        i = i + 1;
    }
    if i < links.len() {
        assert(all[i as int] == links@[i as int].deep_view());
        assert(all.skip(i as int)[0] == all[i as int]);
        links[i].1.clone()
    } else if links.len() > 0 {
        assert(all.skip(i as int).len() == 0);
        assert(all[0] == links@[0].deep_view());
        links[0].1.clone()
    } else {
        String::new()
    }
}

/// The article of an Atom entry.
pub open spec fn atom_item(e: AtomData) -> ItemData {
    item_of(e.title, atom_address(e.links), e.updated, text_or(e.summary, seq![]), e.content)
}

/// The articles of the Atom entries that have an address.
pub open spec fn atom_items(entries: Seq<AtomData>) -> Seq<ItemData>
    decreases entries.len(),
{
    if entries.len() == 0 {
        seq![]
    } else {
        with_item(atom_items(entries.drop_last()), atom_item(entries.last()))
    }
}

/// The articles of Atom entries: those that have an address.
pub fn atom_feed_items(entries: &Vec<AtomEntry>) -> (items: Vec<FeedItem>)
    ensures
        items.deep_view() == atom_items(entries.deep_view()),
{
    let mut items: Vec<FeedItem> = Vec::new();
    let ghost all = entries.deep_view();
    assert(all.len() == entries@.len());
    assert(items.deep_view() =~= seq![]);
    let mut i: usize = 0;
    while i < entries.len()
        invariant
            i <= entries@.len(),
            all == entries.deep_view(),
            all.len() == entries@.len(),
            items.deep_view() == atom_items(all.take(i as int)),
        decreases entries@.len() - i,
    {
        assert(all[i as int] == entries@[i as int].deep_view());
        assert(all.take(i + 1).drop_last() == all.take(i as int));
        let e: &AtomEntry = &entries[i];
        let content: Option<&str> = match &e.content {
            Some(c) => Some(c.as_str()),
            None => None,
        };
        let summary: String = copy_or(&e.summary, "");
        proof {
            reveal_strlit("");
            assert(""@ =~= seq![]);
        }
        let item: FeedItem = make_item(
            e.title.clone(),
            link_of(&e.links),
            e.updated.clone(),
            summary.as_str(),
            content,
        );
        push_item(&mut items, item);
        i = i + 1;
    }
    assert(all.take(i as int) == all);
    items
}

// ---------------------------------------------------------------------------
// The format of a feed
// ---------------------------------------------------------------------------

/// The format in which a feed is to be read.
#[derive(Clone, Copy, Debug, PartialEq, Eq, Structural)]
pub enum FeedFormat {
    Json,
    Xml,
}

/// The format of a feed, given its media type in small letters: JSON where the
/// media type speaks of it or the address ends like it.
pub open spec fn format_for(media_type: Seq<char>, url: Seq<char>) -> FeedFormat {
    if contains_text(media_type, "json"@) || ends_with(url, ".json"@) {
        FeedFormat::Json
    } else {
        FeedFormat::Xml
    }
}

/// The format of a feed, given its media type in small letters.
pub fn choose_format(media_type: &str, url: &str) -> (format: FeedFormat)
    ensures
        format == format_for(media_type@, url@),
{
    if holds_text(&chars_of(media_type), "json") || finishes_with(&chars_of(url), ".json") {
        FeedFormat::Json
    } else {
        FeedFormat::Xml
    }
}

/// The format of the feed at `url`, given the media type that came with it.
pub fn feed_format(media_type: &str, url: &str) -> (format: FeedFormat)
    ensures
        format == format_for(lowercase(media_type@), url@),
{
    choose_format(to_lowercase(media_type).as_str(), url)
}

/// A feed is neither RSS nor Atom.
#[derive(Debug)]
pub struct FeedError {
    pub url: String,
}

impl FeedError {
    /// The words for the error.
    pub fn message(&self) -> (text: String)
        ensures
            text@ == "parse RSS/Atom failed for "@ + self.url@,
    {
        String::new().concat("parse RSS/Atom failed for ").concat(self.url.as_str())
    }
}

/// The articles of a feed, given its entries as RSS and as Atom: RSS decides
/// where the feed is that.
pub open spec fn xml_items(rss: Option<Seq<RssData>>, atom: Option<Seq<AtomData>>) -> Option<
    Seq<ItemData>,
> {
    match rss {
        Some(entries) => Some(rss_items(entries)),
        None => match atom {
            Some(entries) => Some(atom_items(entries)),
            None => None,
        },
    }
}

/// The articles of a feed in RSS or Atom.
pub fn xml_feed_items(bytes: &[u8], url: &str) -> (items: Result<Vec<FeedItem>, FeedError>)
    ensures
        match xml_items(rss_entries(bytes@), atom_entries(bytes@)) {
            Some(all) => items is Ok && items->Ok_0.deep_view() == all,
            None => items is Err && items->Err_0.url@ == url@,
        },
{
    match read_rss(bytes) {
        Some(entries) => Ok(rss_feed_items(&entries)),
        None => match read_atom(bytes) {
            Some(entries) => Ok(atom_feed_items(&entries)),
            None => Err(FeedError { url: String::new().concat(url) }),
        },
    }
}

// ---------------------------------------------------------------------------
// What every feed brings
// ---------------------------------------------------------------------------

/// Every article has an address, its date is read as the date it shows, and
/// its texts have no white space at their ends.
pub open spec fn proper_items(items: Seq<ItemData>) -> bool {
    forall|i: int| 0 <= i < items.len() ==> proper_item(#[trigger] items[i])
}

/// What holds of every article that a feed brings.
pub open spec fn proper_item(item: ItemData) -> bool {
    &&& item.url.len() > 0
    &&& item.published_ts == epoch_of(item.published_at)
    &&& crate::text::is_trimmed(item.summary)
    &&& crate::text::is_trimmed(item.content)
}

/// One more article.
proof fn lemma_with_item(
    items: Seq<ItemData>,
    title: Seq<char>,
    url: Seq<char>,
    published_at: Seq<char>,
    summary: Seq<char>,
    content: Option<Seq<char>>,
)
    requires
        proper_items(items),
    ensures
        proper_items(with_item(items, item_of(title, url, published_at, summary, content))),
{
    let item = item_of(title, url, published_at, summary, content);
    crate::html::law_html_text_shape(summary);
    crate::html::law_html_text_shape(text_or(content, html_text(summary)));
    let all = with_item(items, item);
    assert forall|i: int| 0 <= i < all.len() implies proper_item(#[trigger] all[i]) by {
        if i < items.len() {
            assert(all[i] == items[i]);
        }
    }
}

/// The articles of a feed in JSON are proper, and not more than its entries.
pub proof fn law_json_items(entries: Seq<JsonItemData>)
    ensures
        proper_items(json_items(entries)),
        json_items(entries).len() <= entries.len(),
    decreases entries.len(),
{
    if entries.len() > 0 {
        law_json_items(entries.drop_last());
        let it = entries.last();
        lemma_with_item(
            json_items(entries.drop_last()),
            text_or(it.title, "Untitled"@),
            text_or(either(it.url, it.external_url), seq![]),
            text_or(either(it.date_published, it.date_modified), seq![]),
            text_or(it.summary, seq![]),
            either(it.content_html, it.content_text),
        );
    }
}

/// The articles of a feed in RSS are proper, and not more than its entries.
pub proof fn law_rss_items(entries: Seq<RssData>)
    ensures
        proper_items(rss_items(entries)),
        rss_items(entries).len() <= entries.len(),
    decreases entries.len(),
{
    if entries.len() > 0 {
        law_rss_items(entries.drop_last());
        let it = entries.last();
        lemma_with_item(
            rss_items(entries.drop_last()),
            text_or(it.title, "Untitled"@),
            text_or(it.link, seq![]),
            text_or(it.pub_date, seq![]),
            text_or(it.description, seq![]),
            it.content,
        );
    }
}

/// The articles of a feed in Atom are proper, and not more than its entries.
pub proof fn law_atom_items(entries: Seq<AtomData>)
    ensures
        proper_items(atom_items(entries)),
        atom_items(entries).len() <= entries.len(),
    decreases entries.len(),
{
    if entries.len() > 0 {
        law_atom_items(entries.drop_last());
        let e = entries.last();
        lemma_with_item(
            atom_items(entries.drop_last()),
            e.title,
            atom_address(e.links),
            e.updated,
            text_or(e.summary, seq![]),
            e.content,
        );
    }
}

// ---------------------------------------------------------------------------
// What becomes of an entry
// ---------------------------------------------------------------------------

/// The articles of two lists of entries are those of the first, and then those of
/// the second: each entry stands for itself, and their order stays.
pub proof fn law_json_entries_in_turn(a: Seq<JsonItemData>, b: Seq<JsonItemData>)
    ensures
        json_items(a + b) == json_items(a) + json_items(b),
    decreases b.len(),
{
    if b.len() == 0 {
        assert(a + b =~= a);
        assert(json_items(a) + json_items(b) =~= json_items(a));
    } else {
        assert((a + b).drop_last() =~= a + b.drop_last());
        law_json_entries_in_turn(a, b.drop_last());
        assert(json_items(a + b) =~= json_items(a) + json_items(b));
    }
}

/// The articles of two lists of entries are those of the first, and then those of
/// the second: each entry stands for itself, and their order stays.
pub proof fn law_rss_entries_in_turn(a: Seq<RssData>, b: Seq<RssData>)
    ensures
        rss_items(a + b) == rss_items(a) + rss_items(b),
    decreases b.len(),
{
    if b.len() == 0 {
        assert(a + b =~= a);
        assert(rss_items(a) + rss_items(b) =~= rss_items(a));
    } else {
        assert((a + b).drop_last() =~= a + b.drop_last());
        law_rss_entries_in_turn(a, b.drop_last());
        assert(rss_items(a + b) =~= rss_items(a) + rss_items(b));
    }
}

/// The articles of two lists of entries are those of the first, and then those of
/// the second: each entry stands for itself, and their order stays.
pub proof fn law_atom_entries_in_turn(a: Seq<AtomData>, b: Seq<AtomData>)
    ensures
        atom_items(a + b) == atom_items(a) + atom_items(b),
    decreases b.len(),
{
    if b.len() == 0 {
        assert(a + b =~= a);
        assert(atom_items(a) + atom_items(b) =~= atom_items(a));
    } else {
        assert((a + b).drop_last() =~= a + b.drop_last());
        law_atom_entries_in_turn(a, b.drop_last());
        assert(atom_items(a + b) =~= atom_items(a) + atom_items(b));
    }
}

/// An entry in JSON brings one article where it has an address, and none
/// otherwise. Its own address goes before the one of what it points to, the date
/// of its publication before that of its change, and its content in HTML before
/// the one in plain text. Only where it has neither content does the summary stand
/// for it, and only where it has no title is it untitled.
pub proof fn law_json_entry(it: JsonItemData)
    ensures
        ({
            let items = json_items(seq![it]);
            let item = items[0];
            &&& it.url matches Some(u) ==> items.len() == if u.len() > 0 {
                1nat
            } else {
                0
            }
            &&& it.url is None ==> (it.external_url matches Some(u) ==> items.len() == if u.len() > 0 {
                1nat
            } else {
                0
            })
            &&& it.url is None && it.external_url is None ==> items.len() == 0
            &&& items.len() == 1 ==> {
                &&& it.url matches Some(u) ==> item.url == u
                &&& it.url is None ==> it.external_url == Some(item.url)
                &&& it.title matches Some(t) ==> item.title == t
                &&& it.title is None ==> item.title == "Untitled"@
                &&& it.date_published matches Some(d) ==> item.published_at == d
                &&& it.date_published is None ==> (it.date_modified matches Some(d)
                    ==> item.published_at == d)
                &&& it.date_published is None && it.date_modified is None
                    ==> item.published_at.len() == 0
                &&& it.summary matches Some(s) ==> item.summary == html_text(s)
                &&& it.summary is None ==> item.summary.len() == 0
                &&& it.content_html matches Some(c) ==> item.content == html_text(c)
                &&& it.content_html is None ==> (it.content_text matches Some(c) ==> item.content
                    == html_text(c))
                &&& it.content_html is None && it.content_text is None ==> item.content
                    == html_text(item.summary)
            }
        }),
{
    assert(seq![it].drop_last() =~= seq![]);
    assert(json_items(seq![]) =~= seq![]);
    lemma_text_of_nothing();
}

/// An entry in RSS brings one article where it has a link, and none otherwise. Its
/// content is that of the entry, and the description stands for it only where
/// there is none.
pub proof fn law_rss_entry(it: RssData)
    ensures
        ({
            let items = rss_items(seq![it]);
            let item = items[0];
            &&& it.link matches Some(u) ==> items.len() == if u.len() > 0 {
                1nat
            } else {
                0
            }
            &&& it.link is None ==> items.len() == 0
            &&& items.len() == 1 ==> {
                &&& it.link == Some(item.url)
                &&& it.title matches Some(t) ==> item.title == t
                &&& it.title is None ==> item.title == "Untitled"@
                &&& it.pub_date matches Some(d) ==> item.published_at == d
                &&& it.pub_date is None ==> item.published_at.len() == 0
                &&& it.description matches Some(s) ==> item.summary == html_text(s)
                &&& it.description is None ==> item.summary.len() == 0
                &&& it.content matches Some(c) ==> item.content == html_text(c)
                &&& it.content is None ==> item.content == html_text(item.summary)
            }
        }),
{
    assert(seq![it].drop_last() =~= seq![]);
    assert(rss_items(seq![]) =~= seq![]);
    lemma_text_of_nothing();
}

/// An entry in Atom brings one article where it has an address, and none
/// otherwise. Its content is that of the entry, whether it has a summary or not,
/// and the summary stands for it only where there is none.
pub proof fn law_atom_entry(e: AtomData, i: int)
    requires
        0 <= i < e.links.len(),
        e.links[i].0 == "alternate"@ || (i == 0 && forall|k: int|
            0 <= k < e.links.len() ==> (#[trigger] e.links[k]).0 != "alternate"@),
        forall|k: int| 0 <= k < i ==> (#[trigger] e.links[k]).0 != "alternate"@,
    ensures
        ({
            let items = atom_items(seq![e]);
            let item = items[0];
            &&& items.len() == if e.links[i].1.len() > 0 {
                1nat
            } else {
                0
            }
            &&& items.len() == 1 ==> {
                &&& item.url == e.links[i].1
                &&& item.title == e.title
                &&& item.published_at == e.updated
                &&& e.summary matches Some(s) ==> item.summary == html_text(s)
                &&& e.summary is None ==> item.summary.len() == 0
                &&& e.content matches Some(c) ==> item.content == html_text(c)
                &&& e.content is None ==> item.content == html_text(item.summary)
            }
        }),
{
    assert(seq![e].drop_last() =~= seq![]);
    assert(atom_items(seq![]) =~= seq![]);
    lemma_text_of_nothing();
    lemma_alternate(e.links, i);
}

/// An entry in Atom without a link brings no article.
pub proof fn law_atom_entry_without_link(e: AtomData)
    requires
        e.links.len() == 0,
    ensures
        atom_items(seq![e]).len() == 0,
{
    assert(seq![e].drop_last() =~= seq![]);
    assert(atom_items(seq![]) =~= seq![]);
}

/// The first alternate link decides, and the first link where none is alternate.
proof fn lemma_alternate(links: Seq<(Seq<char>, Seq<char>)>, i: int)
    requires
        0 <= i < links.len(),
        forall|k: int| 0 <= k < i ==> (#[trigger] links[k]).0 != "alternate"@,
    ensures
        links[i].0 == "alternate"@ ==> alternate_index(links) == i,
        (forall|k: int| 0 <= k < links.len() ==> (#[trigger] links[k]).0 != "alternate"@)
            ==> alternate_index(links) == links.len(),
    decreases links.len(),
{
    let rest = links.drop_first();
    assert(forall|k: int| 0 <= k < rest.len() ==> #[trigger] rest[k] == links[k + 1]);
    if i > 0 {
        lemma_alternate(rest, i - 1);
    } else if links[0].0 != "alternate"@ && rest.len() > 0 {
        if forall|k: int| 0 <= k < links.len() ==> (#[trigger] links[k]).0 != "alternate"@ {
            assert forall|k: int| 0 <= k < rest.len() implies (#[trigger] rest[k]).0
                != "alternate"@ by {
                assert(rest[k] == links[k + 1]);
            }
            lemma_alternate(rest, 0);
        }
    }
    assert(alternate_index(seq![]) == 0);
    assert(rest.len() == 0 ==> rest =~= seq![]);
}

/// Nothing has no text.
proof fn lemma_text_of_nothing()
    ensures
        html_text(seq![]) == Seq::<char>::empty(),
{
    let nothing = Seq::<char>::empty();
    crate::text::lemma_trim(nothing);
    assert(crate::text::trim(nothing) =~= nothing);
}

/// Dates are read as dates of e-mail first and as dates of the Internet profile
/// of ISO 8601 next. What is neither, and what is blank, is the year 1970.
pub proof fn law_dates(s: Seq<char>)
    ensures
        crate::text::trim(s).len() > 0 ==> (rfc2822_seconds(s) matches Some(t) ==> epoch_of(s) == t),
        crate::text::trim(s).len() > 0 && rfc2822_seconds(s) is None ==> (rfc3339_seconds(
            s,
        ) matches Some(t) ==> epoch_of(s) == t),
        rfc2822_seconds(s) is None && rfc3339_seconds(s) is None ==> epoch_of(s) == 0,
        crate::text::trim(s).len() == 0 ==> epoch_of(s) == 0,
{
}

/// A media type that speaks of JSON anywhere, and an address that ends with
/// `.json`, stand for a feed in JSON.
pub proof fn law_json_by_type_or_address(a: Seq<char>, b: Seq<char>, other: Seq<char>)
    ensures
        format_for(a + "json"@ + b, other) == FeedFormat::Json,
        format_for(other, a + ".json"@) == FeedFormat::Json,
{
    let media = a + "json"@ + b;
    assert(media.subrange(a.len() as int, (a.len() + "json"@.len()) as int) =~= "json"@);
    assert(crate::text::occurs_at(media, "json"@, a.len() as int));
    let url = a + ".json"@;
    assert(url.subrange(url.len() - ".json"@.len(), url.len() as int) =~= ".json"@);
}

/// Nothing else does.
pub proof fn law_xml_otherwise(media_type: Seq<char>, url: Seq<char>)
    requires
        forall|i: int|
            0 <= i && i + 4 <= media_type.len() ==> #[trigger] media_type.subrange(i, i + 4)
                != "json"@,
        url.len() >= 5 ==> url.subrange(url.len() - 5, url.len() as int) != ".json"@,
    ensures
        format_for(media_type, url) == FeedFormat::Xml,
{
    reveal_strlit("json");
    reveal_strlit(".json");
    if contains_text(media_type, "json"@) {
        let i = choose|i: int| crate::text::occurs_at(media_type, "json"@, i);
        assert(media_type.subrange(i, i + 4) == "json"@);
    }
}

/// A feed that can be read as RSS is taken as RSS, whatever it is as Atom; one
/// that cannot is taken as Atom where that is possible.
pub proof fn law_rss_before_atom(rss: Option<Seq<RssData>>, atom: Option<Seq<AtomData>>)
    ensures
        rss matches Some(r) ==> xml_items(rss, atom) == Some(rss_items(r)),
        rss is None ==> (atom matches Some(a) ==> xml_items(rss, atom) == Some(atom_items(a))),
        rss is None && atom is None ==> xml_items(rss, atom) is None,
{
}

} // verus!
