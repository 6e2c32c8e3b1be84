//! What the environment says: where files are, how often feeds are refreshed
//! and where comments go.

use crate::newsboat::{FeedSource, SourceData};
use crate::text::{chars_of, decimal, law_decimal};
use vstd::prelude::*;

verus! {

/// The home directory is needed and not known.
#[derive(Clone, Copy, Debug, PartialEq, Eq, Structural)]
pub struct NoHome;

impl NoHome {
    /// The words for the error.
    pub fn message(&self) -> (text: &'static str)
        ensures
            text@ == "HOME env var not set"@,
    {
        "HOME env var not set"
    }
}

/// The parts of the path of the database, to be joined in order: the path in
/// `given` where there is one, and a fixed place under `home` otherwise.
pub fn resolve_db_path(given: Option<String>, home: Option<String>) -> (parts: Result<
    Vec<String>,
    NoHome,
>)
    ensures
        match (given.deep_view(), home.deep_view()) {
            (Some(path), _) => parts is Ok && parts->Ok_0.deep_view() == seq![path],
            (None, Some(dir)) => parts is Ok && parts->Ok_0.deep_view() == seq![
                dir,
                ".local"@,
                "share"@,
                "dpn-reader"@,
                "dpn_reader.db"@,
            ],
            (None, None) => parts is Err,
        },
{
    let mut parts: Vec<String> = Vec::new();
    match given {
        Some(path) => {
            let ghost p = path@;
            parts.push(path);
            assert(parts.deep_view() =~= seq![p]);
            Ok(parts)
        },
        None => match home {
            Some(dir) => {
                let ghost d = dir@;
                parts.push(dir);
                parts.push(String::new().concat(".local"));
                parts.push(String::new().concat("share"));
                parts.push(String::new().concat("dpn-reader"));
                parts.push(String::new().concat("dpn_reader.db"));
                assert(parts.deep_view() =~= seq![
                    d,
                    ".local"@,
                    "share"@,
                    "dpn-reader"@,
                    "dpn_reader.db"@,
                ]);
                Ok(parts)
            },
            None => Err(NoHome),
        },
    }
}

/// The path of a newsboat file, in parts to be joined in order: under the home
/// directory, or under the current one where that is not known.
pub open spec fn newsboat_parts(home: Option<Seq<char>>, file: Seq<char>) -> Seq<Seq<char>> {
    seq![
        match home {
            Some(dir) => dir,
            None => "."@,
        },
        ".newsboat"@,
        file,
    ]
}

/// The parts of the path of a newsboat file.
fn newsboat_path(home: Option<String>, file: &str) -> (parts: Vec<String>)
    ensures
        parts.deep_view() == newsboat_parts(home.deep_view(), file@),
{
    let dir: String = match home {
        Some(dir) => dir,
        None => String::new().concat("."),
    };
    let ghost d = dir@;
    let mut parts: Vec<String> = Vec::new();
    parts.push(dir);
    parts.push(String::new().concat(".newsboat"));
    parts.push(String::new().concat(file));
    assert(parts.deep_view() =~= seq![d, ".newsboat"@, file@]);
    parts
}

/// The parts of the path of the newsboat configuration.
pub fn style_config_path(home: Option<String>) -> (parts: Vec<String>)
    ensures
        parts.deep_view() == newsboat_parts(home.deep_view(), "config"@),
{
    newsboat_path(home, "config")
}

/// Whether the database is to be filled with feeds: only where it has none.
pub fn needs_seed(feed_count: i64) -> (yes: bool)
    ensures
        yes == (feed_count <= 0),
{
    !(feed_count > 0)
}

/// A file that may list feeds.
#[derive(Debug)]
pub enum FeedFile {
    /// A list in OPML, by its path.
    Opml(String),
    /// A newsboat list, by the parts of its path.
    Urls(Vec<String>),
}

/// A file that may list feeds, as plain texts.
pub enum FileData {
    Opml(Seq<char>),
    Urls(Seq<Seq<char>>),
}

impl DeepView for FeedFile {
    type V = FileData;

    open spec fn deep_view(&self) -> FileData {
        match self {
            FeedFile::Opml(path) => FileData::Opml(path@),
            FeedFile::Urls(parts) => FileData::Urls(parts.deep_view()),
        }
    }
}

/// The files that may list the feeds of a new database, in the order in which
/// they are tried: the given OPML list, `./feeds.opml`, the given newsboat list,
/// and the place where newsboat keeps its own.
pub open spec fn sources(
    opml: Option<Seq<char>>,
    urls: Option<Seq<char>>,
    home: Option<Seq<char>>,
) -> Seq<FileData> {
    let given_opml = match opml {
        Some(path) => seq![FileData::Opml(path)],
        None => seq![],
    };
    let given_urls = match urls {
        Some(path) => seq![FileData::Urls(seq![path])],
        None => seq![],
    };
    given_opml + seq![FileData::Opml("./feeds.opml"@)] + given_urls + seq![
        FileData::Urls(newsboat_parts(home, "urls"@)),
    ]
}

/// The files that may list the feeds of a new database, in the order in which
/// they are tried.
pub fn feed_files(opml: Option<String>, urls: Option<String>, home: Option<String>) -> (files: Vec<
    FeedFile,
>)
    ensures
        files.deep_view() == sources(opml.deep_view(), urls.deep_view(), home.deep_view()),
{
    let ghost want = sources(opml.deep_view(), urls.deep_view(), home.deep_view());
    let mut files: Vec<FeedFile> = Vec::new();
    if let Some(path) = opml {
        files.push(FeedFile::Opml(path));
    }
    files.push(FeedFile::Opml(String::new().concat("./feeds.opml")));
    if let Some(path) = urls {
        let ghost p = path@;
        let mut parts: Vec<String> = Vec::new();
        parts.push(path);
        assert(parts.deep_view() =~= seq![p]);
        files.push(FeedFile::Urls(parts));
    }
    files.push(FeedFile::Urls(newsboat_path(home, "urls")));
    assert(files.deep_view() =~= want);
    files
}

/// What to do for the feeds of a new database.
#[derive(Debug)]
pub enum SeedStep {
    /// Store these feeds.
    Store(Vec<FeedSource>),
    /// Read the file with this index. It has no feeds where it does not exist.
    Read(usize),
}

/// What to do for the feeds of a new database, as plain values.
pub enum StepData {
    Store(Seq<SourceData>),
    Read(int),
}

impl DeepView for SeedStep {
    type V = StepData;

    open spec fn deep_view(&self) -> StepData {
        match self {
            SeedStep::Store(rows) => StepData::Store(rows.deep_view()),
            SeedStep::Read(i) => StepData::Read(*i as int),
        }
    }
}

/// What to do once `tried` of `count` files have been read, where `rows` are the
/// feeds of the last one of them: they are stored where there are any, and the
/// next file is read otherwise, as long as there is one.
pub open spec fn step_after(tried: int, count: int, rows: Seq<SourceData>) -> StepData {
    if rows.len() == 0 && tried < count {
        StepData::Read(tried)
    } else {
        StepData::Store(rows)
    }
}

/// What to do once `tried` of the files have been read, where `rows` are the
/// feeds of the last one of them.
pub fn seed_step(files: &[FeedFile], tried: usize, rows: Vec<FeedSource>) -> (step: SeedStep)
    ensures
        step.deep_view() == step_after(tried as int, files@.len() as int, rows.deep_view()),
{
    assert(rows.deep_view().len() == rows@.len());
    if rows.is_empty() && tried < files.len() {
        SeedStep::Read(tried)
    } else {
        SeedStep::Store(rows)
    }
}

/// The feeds that are stored in the end, where `lists` are the feeds of the
/// files, `tried` of them have been read and `rows` are those of the last one.
pub open spec fn seeded(
    lists: Seq<Seq<SourceData>>,
    tried: int,
    rows: Seq<SourceData>,
) -> Seq<SourceData>
    decreases lists.len() - tried,
{
    match step_after(tried, lists.len() as int, rows) {
        StepData::Store(stored) => stored,
        StepData::Read(i) => if 0 <= i < lists.len() {
            seeded(lists, i + 1, lists[i])
        } else {
            rows
        },
    }
}

/// The feeds of the first file that has any are stored, and no others; where
/// none has any, none are stored.
pub proof fn law_first_file_decides(lists: Seq<Seq<SourceData>>, i: int)
    requires
        0 <= i <= lists.len(),
        forall|k: int| 0 <= k < i ==> (#[trigger] lists[k]).len() == 0,
        i < lists.len() ==> lists[i].len() > 0,
    ensures
        seeded(lists, 0, seq![]) == if i < lists.len() {
            lists[i]
        } else {
            seq![]
        },
{
    lemma_seeded(lists, 0, seq![], i);
}

/// The same from any file on.
proof fn lemma_seeded(lists: Seq<Seq<SourceData>>, tried: int, rows: Seq<SourceData>, i: int)
    requires
        0 <= tried <= i <= lists.len(),
        rows.len() == 0,
        forall|k: int| tried <= k < i ==> (#[trigger] lists[k]).len() == 0,
        i < lists.len() ==> lists[i].len() > 0,
    ensures
        seeded(lists, tried, rows) == if i < lists.len() {
            lists[i]
        } else {
            seq![]
        },
    decreases lists.len() - tried,
{
    if tried < lists.len() {
        if tried == i {
            assert(seeded(lists, tried + 1, lists[tried]) == lists[tried]);
        } else {
            lemma_seeded(lists, tried + 1, lists[tried], i);
        }
    } else {
        assert(rows =~= seq![]);
    }
}

/// The given OPML list goes before `./feeds.opml`, both before the given newsboat
/// list, and that before newsboat's own.
pub proof fn law_order_of_files(opml: Seq<char>, urls: Seq<char>, home: Option<Seq<char>>)
    ensures
        sources(Some(opml), Some(urls), home) == seq![
            FileData::Opml(opml),
            FileData::Opml("./feeds.opml"@),
            FileData::Urls(seq![urls]),
            FileData::Urls(newsboat_parts(home, "urls"@)),
        ],
        sources(None, None, home) == seq![
            FileData::Opml("./feeds.opml"@),
            FileData::Urls(newsboat_parts(home, "urls"@)),
        ],
{
    assert(sources(Some(opml), Some(urls), home) =~= seq![
        FileData::Opml(opml),
        FileData::Opml("./feeds.opml"@),
        FileData::Urls(seq![urls]),
        FileData::Urls(newsboat_parts(home, "urls"@)),
    ]);
    assert(sources(None, None, home) =~= seq![
        FileData::Opml("./feeds.opml"@),
        FileData::Urls(newsboat_parts(home, "urls"@)),
    ]);
}

// ---------------------------------------------------------------------------
// Numbers in the environment
// ---------------------------------------------------------------------------

/// The value of decimal digits, or `None` where something else is among them.
pub open spec fn digits_value(s: Seq<char>) -> Option<nat>
    decreases s.len(),
{
    if s.len() == 0 {
        Some(0)
    } else {
        let c = s.last();
        match digits_value(s.drop_last()) {
            Some(n) => if '0' <= c <= '9' {
                Some((n * 10 + (c as u32 - '0' as u32)) as nat)
            } else {
                None
            },
            None => None,
        }
    }
}

/// The number below two to the power of 64 that a text writes: digits, with a
/// plus sign before them or not.
pub open spec fn number_in(s: Seq<char>) -> Option<nat> {
    let digits = if s.len() > 0 && s[0] == '+' {
        s.drop_first()
    } else {
        s
    };
    if digits.len() == 0 {
        None
    } else {
        match digits_value(digits) {
            Some(n) => if n <= u64::MAX {
                Some(n)
            } else {
                None
            },
            None => None,
        }
    }
}

/// A value does not become smaller by further digits.
proof fn lemma_digits_grow(s: Seq<char>, k: int)
    requires
        0 <= k <= s.len(),
        digits_value(s) is Some,
    ensures
        digits_value(s.take(k)) is Some,
        digits_value(s.take(k))->0 <= digits_value(s)->0,
    decreases s.len() - k,
{
    if k == s.len() {
        assert(s.take(k) == s);
    } else {
        lemma_digits_grow(s, k + 1);
        assert(s.take(k + 1).drop_last() == s.take(k));
    }
}

/// The number that a text writes.
pub fn parse_number(text: &str) -> (n: Option<u64>)
    ensures
        match n {
            Some(v) => number_in(text@) == Some(v as nat),
            None => number_in(text@) is None,
        },
{
    let s: Vec<char> = chars_of(text);
    let start: usize = if s.len() > 0 && s[0] == '+' {
        1
    } else {
        0
    };
    let ghost digits = s@.skip(start as int);
    assert(start == 1 ==> digits == s@.drop_first());
    assert(start == 0 ==> digits == s@);
    if start == s.len() {
        return None;
    }
    let mut n: u64 = 0;
    let mut i: usize = start;
    while i < s.len()
        invariant
            start <= i <= s@.len(),
            start <= 1,
            s@ == text@,
            digits == s@.skip(start as int),
            digits.len() > 0,
            number_in(s@) == (match digits_value(digits) {
                Some(n) => if n <= u64::MAX {
                    Some(n)
                } else {
                    None::<nat>
                },
                None => None::<nat>,
            }),
            digits_value(digits.take(i - start)) == Some(n as nat),
        decreases s@.len() - i,
    {
        let ghost t = digits.take(i - start + 1);
        assert(t.drop_last() == digits.take(i - start));
        assert(t.last() == s@[i as int]);
        assert(digits_value(digits) is Some ==> digits_value(t) is Some && digits_value(t)->0
            <= digits_value(digits)->0) by {
            if digits_value(digits) is Some {
                lemma_digits_grow(digits, i - start + 1);
            }
        }
        let c: char = s[i];
        if !('0' <= c && c <= '9') {
            return None;
        }
        let d: u64 = (c as u32 - 48) as u64;
        if n > (u64::MAX - d) / 10 {
            return None;
        }
        n = n * 10 + d;
        i = i + 1;
    }
    assert(digits.take(i - start) == digits);
    Some(n)
}

/// How many seconds lie between two fetches of all feeds, given what the
/// environment says.
pub open spec fn refresh_secs(given: Option<Seq<char>>) -> nat {
    match given {
        Some(text) => match number_in(text) {
            Some(n) => n,
            None => 900,
        },
        None => 900,
    }
}

/// The seconds between two refreshes of all feeds: the number in `given`, or
/// fifteen minutes where there is none.
pub fn auto_refresh_secs(given: Option<String>) -> (secs: u64)
    ensures
        secs == match given.deep_view() {
            Some(text) => match number_in(text) {
                Some(n) => n,
                None => 900,
            },
            None => 900,
        },
        secs == refresh_secs(given.deep_view()),
{
    match given {
        Some(text) => match parse_number(text.as_str()) {
            Some(n) => n,
            None => 900,
        },
        None => 900,
    }
}

// ---------------------------------------------------------------------------
// Starting a browser
// ---------------------------------------------------------------------------

/// The programs that can open an address, in the order in which they are
/// tried.
pub open spec fn browsers() -> Seq<Seq<char>> {
    seq!["brave"@, "brave-browser"@, "brave-beta"@, "xdg-open"@]
}

/// The program to try after `tried` others could not be started, or the words
/// that say that none is left.
pub fn next_browser(tried: usize) -> (program: Result<&'static str, &'static str>)
    ensures
        tried < browsers().len() ==> program is Ok && program->Ok_0@ == browsers()[tried as int],
        tried >= browsers().len() ==> program is Err && program->Err_0@
            == "could not launch browser; tried brave, brave-browser, brave-beta, xdg-open"@,
{
    if tried == 0 {
        Ok("brave")
    } else if tried == 1 {
        Ok("brave-browser")
    } else if tried == 2 {
        Ok("brave-beta")
    } else if tried == 3 {
        Ok("xdg-open")
    } else {
        Err("could not launch browser; tried brave, brave-browser, brave-beta, xdg-open")
    }
}

/// What a text of digits is worth.
proof fn lemma_digits_of(n: nat)
    ensures
        digits_value(decimal(n)) == Some(n),
    decreases n,
{
    if n < 10 {
        assert(decimal(n).drop_last() =~= seq![]);
        assert(digits_value(seq![]) == Some(0nat));
    } else {
        lemma_digits_of(n / 10);
        assert(decimal(n).drop_last() =~= decimal(n / 10));
    }
}

/// A text with anything else in it than digits is worth nothing.
proof fn lemma_not_digits(s: Seq<char>, i: int)
    requires
        0 <= i < s.len(),
        !('0' <= s[i] <= '9'),
    ensures
        digits_value(s) is None,
    decreases s.len(),
{
    if i < s.len() - 1 {
        assert(s.drop_last()[i] == s[i]);
        lemma_not_digits(s.drop_last(), i);
    }
}

/// A number is read back from its decimal notation, with a plus sign before it or
/// not, as long as it is not too large. A text with anything else in it is no
/// number, and neither is an empty one.
pub proof fn law_number_read_back(n: nat, s: Seq<char>, i: int)
    ensures
        n <= 18446744073709551615 ==> {
            &&& number_in(decimal(n)) == Some(n)
            &&& number_in(seq!['+'] + decimal(n)) == Some(n)
        },
        n > 18446744073709551615 ==> number_in(decimal(n)) is None,
        0 <= i < s.len() && !('0' <= s[i] <= '9') && (i > 0 || s[0] != '+') ==> number_in(s) is None,
        s.len() == 0 || s == seq!['+'] ==> number_in(s) is None,
{
    law_decimal(n);
    lemma_digits_of(n);
    assert((seq!['+'] + decimal(n)).drop_first() =~= decimal(n));
    if 0 <= i < s.len() && !('0' <= s[i] <= '9') && (i > 0 || s[0] != '+') {
        if s[0] == '+' {
            assert(s.drop_first()[i - 1] == s[i]);
            lemma_not_digits(s.drop_first(), i - 1);
        } else {
            lemma_not_digits(s, i);
        }
    }
}

/// A list that was named goes before the one at the usual place of its kind, and
/// lists in OPML go before newsboat lists. The usual newsboat list is in the home
/// directory, or in the current one where there is none.
pub proof fn law_lists_in_order(path: Seq<char>, home: Seq<char>)
    ensures
        sources(Some(path), None, Some(home)) == seq![
            FileData::Opml(path),
            FileData::Opml("./feeds.opml"@),
            FileData::Urls(seq![home, ".newsboat"@, "urls"@]),
        ],
        sources(None, Some(path), Some(home)) == seq![
            FileData::Opml("./feeds.opml"@),
            FileData::Urls(seq![path]),
            FileData::Urls(seq![home, ".newsboat"@, "urls"@]),
        ],
        sources(None, None, None) == seq![
            FileData::Opml("./feeds.opml"@),
            FileData::Urls(seq!["."@, ".newsboat"@, "urls"@]),
        ],
{
    let given = newsboat_parts(Some(home), "urls"@);
    let usual = newsboat_parts(None, "urls"@);
    assert(given =~= seq![home, ".newsboat"@, "urls"@]);
    assert(usual =~= seq!["."@, ".newsboat"@, "urls"@]);
    let nothing = Seq::<FileData>::empty();
    assert(seq![FileData::Opml(path)] + seq![FileData::Opml("./feeds.opml"@)] + nothing + seq![
        FileData::Urls(given),
    ] =~= seq![FileData::Opml(path), FileData::Opml("./feeds.opml"@), FileData::Urls(given)]);
    assert(nothing + seq![FileData::Opml("./feeds.opml"@)] + nothing + seq![FileData::Urls(usual)]
        =~= seq![FileData::Opml("./feeds.opml"@), FileData::Urls(usual)]);
    assert(sources(Some(path), None, Some(home)) =~= seq![
        FileData::Opml(path),
        FileData::Opml("./feeds.opml"@),
        FileData::Urls(seq![home, ".newsboat"@, "urls"@]),
    ]);
    assert(sources(None, Some(path), Some(home)) =~= seq![
        FileData::Opml("./feeds.opml"@),
        FileData::Urls(seq![path]),
        FileData::Urls(seq![home, ".newsboat"@, "urls"@]),
    ]);
    assert(sources(None, None, None) =~= seq![
        FileData::Opml("./feeds.opml"@),
        FileData::Urls(seq!["."@, ".newsboat"@, "urls"@]),
    ]);
}

/// The feeds are fetched every so many seconds as the environment says, and every
/// fifteen minutes where it says nothing or no number.
pub proof fn law_refresh_secs(n: nat, s: Seq<char>)
    ensures
        n <= 18446744073709551615 ==> refresh_secs(Some(decimal(n))) == n,
        number_in(s) is None ==> refresh_secs(Some(s)) == 15 * 60,
        refresh_secs(None) == 15 * 60,
{
    law_number_read_back(n, s, 0);
}

} // verus!
