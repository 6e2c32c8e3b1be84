//! The list of feeds that newsboat keeps: one address per line, with titles in
//! quotes and section headings after `#`.

use crate::pattern::{first_match, found_text, is_web_address, quoted_text, text_of, QUOTED};
use crate::text::{
    all_space, begins_with, chars_of, is_space, is_trimmed, is_word, law_trimmed, law_words,
    lemma_run, lemma_run_is, lemma_trim, lemma_words, lines, not_space, other_than, run,
    split_lines, split_words, starts_with, string_of, trim, trimmed, words,
};
use vstd::prelude::*;
use vstd::slice::slice_subrange;

verus! {

/// A feed to follow: its address, its title and its category.
pub type FeedSource = (String, String, String);

/// A feed to follow, as plain texts.
pub type SourceData = (Seq<char>, Seq<char>, Seq<char>);

/// What has been read of a list: the feeds so far and the current section.
pub struct ListState {
    pub rows: Seq<SourceData>,
    pub section: Seq<char>,
}

/// The character `x` alone.
pub open spec fn equal_to(x: char) -> spec_fn(char) -> bool {
    |c: char| c == x
}

/// `s` without the characters `x` at its beginning.
pub open spec fn without_leading(s: Seq<char>, x: char) -> Seq<char> {
    s.skip(run(s, equal_to(x)) as int)
}

/// The title on a line: the first text in quotes, without leading tildes, or
/// else the address.
pub open spec fn title_on(line: Seq<char>, url: Seq<char>) -> Seq<char> {
    match text_of(quoted_text(line, 0)) {
        Some(t) => trim(without_leading(t, '~')),
        None => url,
    }
}

/// What one line of the list adds: a section heading, a feed or nothing.
pub open spec fn list_line(state: ListState, raw: Seq<char>) -> ListState {
    let line = trim(raw);
    if line.len() == 0 {
        state
    } else if line[0] == '#' {
        ListState { section: trim(without_leading(line, '#')), ..state }
    } else if is_web_address(line) {
        let url = words(line)[0];
        ListState { rows: state.rows.push((url, title_on(line, url), state.section)), ..state }
    } else {
        state
    }
}

/// What the lines of the list add up to.
pub open spec fn list_lines(ls: Seq<Seq<char>>) -> ListState
    decreases ls.len(),
{
    if ls.len() == 0 {
        ListState { rows: seq![], section: seq![] }
    } else {
        list_line(list_lines(ls.drop_last()), ls.last())
    }
}

/// The part of `s` after the characters `x` at its beginning.
fn skip_leading(s: &[char], x: char) -> (out: &[char])
    ensures
        out@ == without_leading(s@, x),
{
    let mut i: usize = 0;
    while i < s.len() && s[i] == x
        invariant
            i <= s@.len(),
            forall|k: int| 0 <= k < i ==> s@[k] == x,
        decreases s@.len() - i,
    {
        i = i + 1;
    }
    proof {
        lemma_run_is(s@, equal_to(x), i as nat);
        assert(s@.skip(i as int) == s@.subrange(i as int, s@.len() as int));
    }
    slice_subrange(s, i, s.len())
}

/// A line that begins with an address has a first word, and it begins with
/// the same address.
proof fn lemma_first_word(line: Seq<char>)
    requires
        is_trimmed(line),
        is_web_address(line),
    ensures
        words(line).len() > 0,
        is_web_address(words(line)[0]),
        is_word(words(line)[0]),
{
    reveal_strlit("http://");
    reveal_strlit("https://");
    let part = if starts_with(line, "http://"@) {
        "http://"@
    } else {
        "https://"@
    };
    let n = run(line, not_space()) as int;
    lemma_run(line, not_space());
    assert(!is_space(line[0]));
    if n < part.len() {
        assert(line.subrange(0, part.len() as int)[n] == part[n]);
        assert(!not_space()(line[n]));
    }
    let w = line.take(n);
    assert(words(line) == seq![w] + words(line.skip(n)));
    assert(words(line)[0] == w);
    assert(w.subrange(0, part.len() as int) =~= line.subrange(0, part.len() as int));
    lemma_words(line);
}

/// The feeds of a newsboat list, in order. There are none where there is no
/// list.
pub fn parse_newsboat_urls(list: Option<&str>) -> (rows: Vec<FeedSource>)
    ensures
        rows.deep_view() == match list.deep_view() {
            Some(text) => list_lines(lines(text)).rows,
            None => seq![],
        },
{
    let mut rows: Vec<FeedSource> = Vec::new();
    let text: &str = match list {
        Some(text) => text,
        None => {
            assert(rows.deep_view() =~= seq![]);
            return rows;
        },
    };
    let mut section: String = String::new();
    let all: Vec<String> = split_lines(&chars_of(text));
    let ghost ls = lines(text@);
    assert(ls.len() == all@.len());
    let mut i: usize = 0;
    assert(rows.deep_view() =~= seq![]);
    while i < all.len()
        invariant
            i <= all@.len(),
            ls == all.deep_view(),
            ls.len() == all@.len(),
            rows.deep_view() == list_lines(ls.take(i as int)).rows,
            section@ == list_lines(ls.take(i as int)).section,
        decreases all@.len() - i,
    {
        let ghost done = rows.deep_view();
        assert(ls[i as int] == all@[i as int]@);
        assert(ls.take(i + 1).drop_last() == ls.take(i as int));
        let chars: Vec<char> = chars_of(all[i].as_str());
        let line: &[char] = trimmed(&chars);
        proof {
            lemma_trim(chars@);
        }
        if line.is_empty() {
        } else if line[0] == '#' {
            section = string_of(trimmed(skip_leading(line, '#')));
        } else if begins_with(line, "http://") || begins_with(line, "https://") {
            proof {
                lemma_first_word(line@);
            }
            let parts: Vec<String> = split_words(line);
            assert(parts.deep_view().len() == parts@.len());
            assert(parts.deep_view()[0] == parts@[0]@);
            let url: String = parts[0].clone();
            let title: String = match found_text(
                first_match(QUOTED, string_of(line).as_str()),
            ) {
                Some(t) => string_of(trimmed(skip_leading(&chars_of(t.as_str()), '~'))),
                None => url.clone(),
            };
            let ghost row: SourceData = (url@, title@, section@);
            rows.push((url, title, section.clone()));
            assert(rows.deep_view() =~= done.push(row));
        }
        i = i + 1;
    }
    assert(ls.take(i as int) == ls);
    rows
}

/// Every feed of a newsboat list has an address on the web, in one word.
pub proof fn law_listed_addresses(ls: Seq<Seq<char>>)
    ensures
        forall|i: int|
            0 <= i < list_lines(ls).rows.len() ==> is_web_address(
                (#[trigger] list_lines(ls).rows[i]).0,
            ) && is_word(list_lines(ls).rows[i].0),
    decreases ls.len(),
{
    if ls.len() > 0 {
        let before = list_lines(ls.drop_last()).rows;
        law_listed_addresses(ls.drop_last());
        let line = trim(ls.last());
        lemma_trim(ls.last());
        if is_web_address(line) {
            lemma_first_word(line);
        }
        let all = list_lines(ls).rows;
        assert forall|i: int| 0 <= i < all.len() implies is_web_address((#[trigger] all[i]).0)
            && is_word(all[i].0) by {
            if i < before.len() {
                assert(all[i] == before[i]);
            }
        }
    }
}

/// A line with an address and anything after it, once it has been trimmed.
proof fn lemma_address_line(a: Seq<char>, url: Seq<char>, more: Seq<char>, b: Seq<char>)
    requires
        all_space(a),
        all_space(b),
        is_word(url),
        is_web_address(url),
        more.len() > 0 ==> is_space(more[0]) && !is_space(more.last()),
    ensures
        trim(a + (url + more) + b) == url + more,
        (url + more)[0] == 'h',
        is_web_address(url + more),
        words(url + more).len() > 0,
        words(url + more)[0] == url,
{
    reveal_strlit("http://");
    reveal_strlit("https://");
    let line = url + more;
    assert(!is_space(url[0]) && !is_space(url[url.len() - 1]));
    assert(line[0] == url[0]);
    assert(line.last() == if more.len() > 0 {
        more.last()
    } else {
        url[url.len() - 1]
    });
    law_trimmed(a, line, b);
    if starts_with(url, "http://"@) {
        assert(line.subrange(0, 7) =~= url.subrange(0, 7));
        assert(url.subrange(0, 7)[0] == url[0]);
    } else {
        assert(line.subrange(0, 8) =~= url.subrange(0, 8));
        assert(url.subrange(0, 8)[0] == url[0]);
    }
    if more.len() > 0 {
        law_words(url, more[0], more.drop_first());
        assert(url + seq![more[0]] + more.drop_first() =~= line);
        assert(words(line) =~= seq![url] + words(more.drop_first()));
    } else {
        assert(line =~= url);
        law_words(url, ' ', seq![]);
    }
}

/// A line without a title: the feed is known by its address, and belongs to the
/// current section. The feeds before it stay.
pub proof fn law_listed_address(
    state: ListState,
    a: Seq<char>,
    url: Seq<char>,
    more: Seq<char>,
    b: Seq<char>,
)
    requires
        all_space(a),
        all_space(b),
        is_word(url),
        starts_with(url, "http://"@) || starts_with(url, "https://"@),
        more.len() > 0 ==> is_space(more[0]) && !is_space(more.last()),
        !url.contains('"'),
        !more.contains('"'),
    ensures
        list_line(state, a + (url + more) + b) == (ListState {
            rows: state.rows.push((url, url, state.section)),
            section: state.section,
        }),
{
    lemma_address_line(a, url, more, b);
    let line = url + more;
    assert(!line.contains('"')) by {
        if line.contains('"') {
            let i = choose|i: int| 0 <= i < line.len() && line[i] == '"';
            if i < url.len() {
                assert(url[i] == '"');
            } else {
                assert(more[i - url.len()] == '"');
            }
        }
    }
    lemma_no_quotes(line, 0);
}

/// Nothing is in quotes where there are none.
proof fn lemma_no_quotes(s: Seq<char>, i: int)
    requires
        !s.contains('"'),
        0 <= i,
    ensures
        quoted_text(s, i) is None,
    decreases s.len() - i,
{
    if i < s.len() {
        assert(s.contains(s[i]));
        lemma_no_quotes(s, i + 1);
    }
}

/// The first text in quotes, from before it on.
proof fn lemma_quoted(before: Seq<char>, text: Seq<char>, after: Seq<char>, i: int)
    requires
        !before.contains('"'),
        !text.contains('"'),
        text.len() > 0,
        0 <= i <= before.len(),
    ensures
        quoted_text(before + (seq!['"'] + text + seq!['"']) + after, i) == Some(
            (before.len() as int, text),
        ),
    decreases before.len() - i,
{
    let s = before + (seq!['"'] + text + seq!['"']) + after;
    if i < before.len() {
        assert(s[i] == before[i]);
        assert(before.contains(before[i]));
        lemma_quoted(before, text, after, i + 1);
    } else {
        let t = s.skip(i + 1);
        let p = other_than('"');
        assert forall|k: int| 0 <= k < text.len() implies p(#[trigger] t[k]) by {
            assert(t[k] == text[k]);
            assert(text.contains(text[k]));
        }
        assert(t[text.len() as int] == '"');
        lemma_run_is(t, p, text.len());
        assert(s.subrange(i + 1, i + 1 + text.len()) =~= text);
    }
}

/// A line with a title: it is the first text in quotes, without the tildes before
/// it and the white space around it.
pub proof fn law_listed_title(
    state: ListState,
    url: Seq<char>,
    gap: Seq<char>,
    tildes: nat,
    left: Seq<char>,
    title: Seq<char>,
    right: Seq<char>,
    after: Seq<char>,
)
    requires
        is_word(url),
        starts_with(url, "http://"@) || starts_with(url, "https://"@),
        !url.contains('"'),
        gap.len() > 0,
        is_space(gap[0]),
        !gap.contains('"'),
        all_space(left),
        all_space(right),
        is_trimmed(title),
        !title.contains('"'),
        title.len() > 0,
        left.len() == 0 ==> title[0] != '~',
        after.len() > 0 ==> !is_space(after.last()),
    ensures
        ({
            let text = Seq::new(tildes, |i: int| '~') + (left + title + right);
            list_line(state, url + (gap + (seq!['"'] + text + seq!['"']) + after)) == (ListState {
                rows: state.rows.push((url, title, state.section)),
                section: state.section,
            })
        }),
{
    let wave = Seq::new(tildes, |i: int| '~');
    let inner = left + title + right;
    let text = wave + inner;
    let quoted = seq!['"'] + text + seq!['"'];
    let more = gap + quoted + after;
    let line = url + more;
    let nothing = Seq::<char>::empty();
    assert(more[0] == gap[0]);
    assert(more.last() == if after.len() > 0 {
        after.last()
    } else {
        '"'
    });
    lemma_address_line(nothing, url, more, nothing);
    assert(nothing + line + nothing =~= line);
    assert(line =~= (url + gap) + quoted + after);
    assert(!(url + gap).contains('"')) by {
        if (url + gap).contains('"') {
            let i = choose|i: int| 0 <= i < (url + gap).len() && (url + gap)[i] == '"';
            if i < url.len() {
                assert(url[i] == '"');
            } else {
                assert(gap[i - url.len()] == '"');
            }
        }
    }
    assert(!text.contains('"')) by {
        if text.contains('"') {
            let i = choose|i: int| 0 <= i < text.len() && text[i] == '"';
            let k = i - tildes;
            if k >= 0 {
                assert(inner[k] == '"');
                if k < left.len() {
                    assert(is_space(left[k]));
                } else if k < left.len() + title.len() {
                    assert(title[k - left.len()] == '"');
                } else {
                    assert(is_space(right[k - left.len() - title.len()]));
                }
            }
        }
    }
    lemma_quoted(url + gap, text, after, 0);
    let p = equal_to('~');
    assert forall|k: int| 0 <= k < tildes implies p(#[trigger] text[k]) by {
        assert(text[k] == wave[k]);
    }
    assert(text[tildes as int] == inner[0]);
    assert(inner[0] == if left.len() > 0 {
        left[0]
    } else {
        title[0]
    });
    lemma_run_is(text, p, tildes);
    assert(text.skip(tildes as int) =~= inner);
    law_trimmed(left, title, right);
}

/// A line that begins with `#` names the section of the feeds that follow: it is
/// what stands after all of them, without the white space around it.
pub proof fn law_section_line(
    state: ListState,
    a: Seq<char>,
    n: nat,
    gap: Seq<char>,
    name: Seq<char>,
    b: Seq<char>,
)
    requires
        all_space(a),
        all_space(b),
        n > 0,
        all_space(gap),
        is_trimmed(name),
        name.len() > 0,
        gap.len() == 0 ==> name[0] != '#',
    ensures
        list_line(state, a + (Seq::new(n, |i: int| '#') + gap + name) + b) == (ListState {
            rows: state.rows,
            section: name,
        }),
{
    let marks = Seq::new(n, |i: int| '#');
    let line = marks + gap + name;
    assert(line[0] == '#');
    assert(line.last() == name.last());
    law_trimmed(a, line, b);
    let p = equal_to('#');
    assert forall|k: int| 0 <= k < n implies p(#[trigger] line[k]) by {
        assert(line[k] == marks[k]);
    }
    assert(line[n as int] == if gap.len() > 0 {
        gap[0]
    } else {
        name[0]
    });
    lemma_run_is(line, p, n);
    let nothing = Seq::<char>::empty();
    assert(line.skip(n as int) =~= gap + name + nothing);
    law_trimmed(gap, name, nothing);
}

/// Every other line adds nothing, and neither does an empty one.
pub proof fn law_other_line(state: ListState, a: Seq<char>, line: Seq<char>, b: Seq<char>)
    requires
        all_space(a),
        all_space(b),
        is_trimmed(line),
        line.len() > 0 ==> line[0] != '#',
        !starts_with(line, "http://"@),
        !starts_with(line, "https://"@),
    ensures
        list_line(state, a + line + b) == state,
{
    law_trimmed(a, line, b);
}

/// A list begins without feeds and without a section, and its lines add to what
/// the lines before them came to.
pub proof fn law_lines_in_turn(ls: Seq<Seq<char>>, line: Seq<char>)
    ensures
        list_lines(seq![]).rows.len() == 0,
        list_lines(seq![]).section.len() == 0,
        list_lines(ls + seq![line]) == list_line(list_lines(ls), line),
{
    assert((ls + seq![line]).drop_last() =~= ls);
}

} // verus!
