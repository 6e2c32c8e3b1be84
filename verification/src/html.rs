//! The text of HTML: tags become line breaks and blanks, character references
//! become characters.

use crate::entity::{decode_html_entities, entities_decoded};
use crate::pattern::{
    blank_or_tab, blanks, block_end, images_shown, line_break, list_item, paragraph_end,
    pieces_replaced, replace_all, script, style_sheet, tag, BLANKS, BLOCK_END, IMAGE_SHOWN,
    IMAGE_TAG, LINE_BREAK, LIST_ITEM, PARAGRAPH_END, SCRIPT, STYLE_SHEET, TAG,
};
use crate::text::{
    chars_of, extend_chars, holds_char, is_line_of, is_space, is_trimmed, lemma_lines, lemma_run,
    lemma_trim, lines, replace_text, replaced, run, split_lines, string_of, trim, trimmed,
};
use vstd::prelude::*;

verus! {

/// Lines without the white space at their ends, each followed by a line feed.
/// Of several empty lines in a row only the first one stays. `blank` says
/// whether an empty line went before.
pub open spec fn tidied(ls: Seq<Seq<char>>, blank: bool) -> Seq<char>
    decreases ls.len(),
{
    if ls.len() == 0 {
        seq![]
    } else {
        let line = trim(ls[0]);
        let rest = ls.drop_first();
        if line.len() > 0 {
            line + seq!['\n'] + tidied(rest, false)
        } else if blank {
            tidied(rest, true)
        } else {
            seq!['\n'] + tidied(rest, true)
        }
    }
}

/// The text with trimmed lines and without repeated empty lines, trimmed as a
/// whole.
pub fn tidy_lines(text: &str) -> (out: String)
    ensures
        out@ == trim(tidied(lines(text@), false)),
{
    let all: Vec<String> = split_lines(&chars_of(text));
    let ghost ls = lines(text@);
    assert(ls.len() == all@.len());
    let mut out: Vec<char> = Vec::new();
    let mut blank: bool = false;
    let mut i: usize = 0;
    assert(ls.skip(0) == ls);
    assert(out@ + tidied(ls, false) =~= tidied(ls, false));
    while i < all.len()
        invariant
            i <= all@.len(),
            ls == all.deep_view(),
            ls.len() == all@.len(),
            tidied(ls, false) == out@ + tidied(ls.skip(i as int), blank),
        decreases all@.len() - i,
    {
        let ghost done = out@;
        let ghost rest = ls.skip(i as int);
        assert(rest[0] == all@[i as int]@);
        assert(rest.drop_first() == ls.skip(i + 1));
        let chars: Vec<char> = chars_of(all[i].as_str());
        let line: &[char] = trimmed(&chars);
        if line.is_empty() {
            if !blank {
                out.push('\n');
                assert(done + (seq!['\n'] + tidied(ls.skip(i + 1), true)) =~= out@ + tidied(
                    ls.skip(i + 1),
                    true,
                ));
            }
            blank = true;
        } else {
            extend_chars(&mut out, line);
            out.push('\n');
            assert(done + (line@ + seq!['\n'] + tidied(ls.skip(i + 1), false)) =~= out@ + tidied(
                ls.skip(i + 1),
                false,
            ));
            blank = false;
        }
        i = i + 1;
    }
    assert(ls.skip(i as int).len() == 0);
    assert(out@ + tidied(ls.skip(i as int), blank) =~= out@);
    string_of(trimmed(&out))
}

/// HTML with its tags replaced: images by their addresses in Markdown, blocks
/// and line breaks by line feeds, anything else by a blank.
pub open spec fn without_tags(s: Seq<char>) -> Seq<char> {
    let a = replaced(replaced(s, "\r\n"@, "\n"@), "\r"@, "\n"@);
    let b = images_shown(a);
    let c = pieces_replaced(b, script(), " "@);
    let d = pieces_replaced(c, style_sheet(), " "@);
    let e = pieces_replaced(d, line_break(), "\n"@);
    let f = pieces_replaced(e, paragraph_end(), "\n\n"@);
    let g = pieces_replaced(f, block_end(), "\n"@);
    let h = pieces_replaced(g, list_item(), "- "@);
    pieces_replaced(h, tag(), " "@)
}

/// A text with each run of blanks and tabs made one blank.
pub open spec fn blanks_joined(s: Seq<char>) -> Seq<char> {
    pieces_replaced(s, blanks(), " "@)
}

/// Whether a text can hold tags or character references.
pub open spec fn has_markup(s: Seq<char>) -> bool {
    s.contains('<') || s.contains('&')
}

/// The text of HTML that can hold tags or references.
pub open spec fn markup_text(s: Seq<char>) -> Seq<char> {
    trim(tidied(lines(blanks_joined(entities_decoded(without_tags(s)))), false))
}

/// The text of HTML, trimmed. A text that can hold neither tags nor references
/// is not changed otherwise.
pub open spec fn html_text(s: Seq<char>) -> Seq<char> {
    let t = trim(s);
    if has_markup(t) {
        markup_text(t)
    } else {
        t
    }
}

/// Replaces the tags of HTML.
fn strip_tags(html: &[char]) -> (out: String)
    ensures
        out@ == without_tags(html@),
{
    proof {
        reveal_strlit("\r\n");
        reveal_strlit("\r");
        reveal_strlit(" ");
        reveal_strlit("\n");
        reveal_strlit("\n\n");
        reveal_strlit("- ");
    }
    let a: Vec<char> = replace_text(&replace_text(html, "\r\n", "\n"), "\r", "\n");
    let mut s: String = string_of(&a);
    s = replace_all(IMAGE_TAG, s.as_str(), IMAGE_SHOWN);
    s = replace_all(SCRIPT, s.as_str(), " ");
    s = replace_all(STYLE_SHEET, s.as_str(), " ");
    s = replace_all(LINE_BREAK, s.as_str(), "\n");
    s = replace_all(PARAGRAPH_END, s.as_str(), "\n\n");
    s = replace_all(BLOCK_END, s.as_str(), "\n");
    s = replace_all(LIST_ITEM, s.as_str(), "- ");
    replace_all(TAG, s.as_str(), " ")
}

/// The text of HTML.
pub fn html_to_text(input: &str) -> (out: String)
    ensures
        out@ == html_text(input@),
{
    let chars: Vec<char> = chars_of(input);
    let t: &[char] = trimmed(&chars);
    if t.is_empty() {
        assert(t@ =~= seq![]);
        return String::new();
    }
    if !holds_char(t, '<') && !holds_char(t, '&') {
        return string_of(t);
    }
    let stripped: String = strip_tags(t);
    let decoded: String = decode_html_entities(stripped.as_str());
    proof {
        reveal_strlit(" ");
    }
    let joined: String = replace_all(BLANKS, decoded.as_str(), " ");
    tidy_lines(joined.as_str())
}

// ---------------------------------------------------------------------------
// The shape of the text
// ---------------------------------------------------------------------------

/// No tab, and no two blanks next to each other.
pub open spec fn single_blanks(s: Seq<char>) -> bool {
    &&& forall|i: int| 0 <= i < s.len() ==> #[trigger] s[i] != '\t'
    &&& forall|i: int, j: int|
        0 <= i < s.len() && j == i + 1 && j < s.len() ==> !(#[trigger] s[i] == ' ' && #[trigger] s[j]
            == ' ')
}

/// Next to a line feed stands no white space but another line feed.
pub open spec fn clean_breaks(s: Seq<char>) -> bool {
    forall|i: int, j: int|
        0 <= i < s.len() && j == i + 1 && j < s.len() ==> {
            &&& #[trigger] s[i] == '\n' ==> #[trigger] s[j] == '\n' || !is_space(s[j])
            &&& s[j] == '\n' ==> s[i] == '\n' || !is_space(s[i])
        }
}

/// No three line feeds in a row, so that there is never more than one empty
/// line between two others.
pub open spec fn single_gaps(s: Seq<char>) -> bool {
    forall|i: int, j: int, k: int|
        0 <= i < s.len() && j == i + 1 && k == i + 2 && k < s.len() ==> !(#[trigger] s[i] == '\n'
            && #[trigger] s[j] == '\n' && #[trigger] s[k] == '\n')
}

/// Joining blanks leaves neither tabs nor two blanks next to each other.
pub proof fn lemma_blanks_joined(s: Seq<char>)
    ensures
        single_blanks(blanks_joined(s)),
        s.len() > 0 && !blank_or_tab()(s[0]) ==> blanks_joined(s).len() > 0 && blanks_joined(s)[0]
            == s[0],
    decreases s.len(),
{
    let p = blank_or_tab();
    reveal_strlit(" ");
    assert(" "@ =~= seq![' ']);
    if s.len() > 0 {
        let n = run(s, p) as int;
        lemma_run(s, p);
        if n > 0 {
            let rest = s.skip(n);
            lemma_blanks_joined(rest);
            let tail = blanks_joined(rest);
            assert(rest.len() == 0 ==> tail.len() == 0);
            assert(rest.len() > 0 ==> !p(rest[0])) by {
                if rest.len() > 0 {
                    assert(rest[0] == s[n]);
                }
            }
            lemma_prepend_blank_ok(' ', tail);
            assert(p(s[0]));
        } else {
            let tail = blanks_joined(s.drop_first());
            lemma_blanks_joined(s.drop_first());
            assert(!p(s[0]));
            lemma_prepend_blank_ok(s[0], tail);
        }
    }
}

/// A character in front of a text with single blanks.
proof fn lemma_prepend_blank_ok(c: char, tail: Seq<char>)
    requires
        single_blanks(tail),
        c != '\t',
        c == ' ' ==> tail.len() == 0 || tail[0] != ' ',
    ensures
        single_blanks(seq![c] + tail),
{
    let s = seq![c] + tail;
    assert forall|i: int| 0 <= i < s.len() implies #[trigger] s[i] != '\t' by {
        if i > 0 {
            assert(s[i] == tail[i - 1]);
        }
    }
    assert forall|i: int, j: int|
        0 <= i < s.len() && j == i + 1 && j < s.len() implies !(#[trigger] s[i] == ' '
        && #[trigger] s[j] == ' ') by {
        assert(s[j] == tail[j - 1]);
        if i > 0 {
            assert(s[i] == tail[i - 1]);
        }
    }
}

/// What holds of neighbours in a text holds of neighbours in a piece of it.
pub proof fn lemma_piece_shape(s: Seq<char>, a: int, b: int)
    requires
        0 <= a <= b <= s.len(),
    ensures
        single_blanks(s) ==> single_blanks(s.subrange(a, b)),
        clean_breaks(s) ==> clean_breaks(s.subrange(a, b)),
        single_gaps(s) ==> single_gaps(s.subrange(a, b)),
{
    let t = s.subrange(a, b);
    assert(forall|i: int| 0 <= i < t.len() ==> #[trigger] t[i] == s[i + a]);
}

/// The shape of tidied lines.
proof fn lemma_tidied(ls: Seq<Seq<char>>, blank: bool, s: Seq<char>)
    requires
        single_blanks(s),
        forall|i: int| 0 <= i < ls.len() ==> is_line_of(#[trigger] ls[i], s),
    ensures
        single_blanks(tidied(ls, blank)),
        clean_breaks(tidied(ls, blank)),
        single_gaps(tidied(ls, blank)),
        tidied(ls, blank).len() > 0 ==> {
            let first = tidied(ls, blank)[0];
            first == '\n' || !is_space(first)
        },
        blank && tidied(ls, blank).len() > 0 ==> tidied(ls, blank)[0] != '\n',
        tidied(ls, blank).len() > 1 ==> !(tidied(ls, blank)[0] == '\n' && tidied(ls, blank)[1]
            == '\n'),
        tidied(ls, blank).len() > 1 && tidied(ls, blank)[0] == '\n' ==> !is_space(
            tidied(ls, blank)[1],
        ),
    decreases ls.len(),
{
    let t = tidied(ls, blank);
    if ls.len() > 0 {
        let raw = ls[0];
        let line = trim(raw);
        let rest = ls.drop_first();
        assert(is_line_of(raw, s));
        assert forall|i: int| 0 <= i < rest.len() implies is_line_of(#[trigger] rest[i], s) by {
            assert(rest[i] == ls[i + 1]);
        }
        let from = lemma_trim(raw);
        let (a, b) = choose|a: int, b: int|
            0 <= a <= b <= s.len() && raw == #[trigger] s.subrange(a, b);
        lemma_piece_shape(s, a, b);
        lemma_piece_shape(raw, from, from + line.len());
        assert(forall|k: int| 0 <= k < line.len() ==> #[trigger] line[k] != '\n') by {
            assert forall|k: int| 0 <= k < line.len() implies #[trigger] line[k] != '\n' by {
                assert(line[k] == raw[from + k]);
            }
        }
        if line.len() > 0 {
            let tail = tidied(rest, false);
            lemma_tidied(rest, false, s);
            let n = line.len() as int;
            assert(t =~= line + seq!['\n'] + tail);
            assert(forall|i: int| 0 <= i < n ==> #[trigger] t[i] == line[i]);
            assert(t[n] == '\n');
            assert(forall|i: int| n < i < t.len() ==> #[trigger] t[i] == tail[i - n - 1]);
            assert(line[n - 1] == line.last());
        } else if blank {
            lemma_tidied(rest, true, s);
        } else {
            let tail = tidied(rest, true);
            lemma_tidied(rest, true, s);
            assert(t =~= seq!['\n'] + tail);
            assert(forall|i: int| 0 < i < t.len() ==> #[trigger] t[i] == tail[i - 1]);
        }
    }
}

/// The text of HTML has no white space at its ends, whatever the HTML is. Where
/// the HTML can hold tags or references, there are in it no tabs, no two
/// blanks in a row, no white space next to a line feed but another line feed,
/// and no two empty lines in a row.
pub proof fn law_html_text_shape(s: Seq<char>)
    ensures
        is_trimmed(html_text(s)),
        has_markup(trim(s)) ==> {
            &&& single_blanks(html_text(s))
            &&& clean_breaks(html_text(s))
            &&& single_gaps(html_text(s))
        },
{
    lemma_trim(s);
    let t = trim(s);
    if has_markup(t) {
        let j = blanks_joined(entities_decoded(without_tags(t)));
        lemma_blanks_joined(entities_decoded(without_tags(t)));
        lemma_lines(j);
        lemma_tidied(lines(j), false, j);
        let all = tidied(lines(j), false);
        let from = lemma_trim(all);
        lemma_piece_shape(all, from, from + trim(all).len());
    }
}

/// The text of HTML is not changed by taking its text again, unless characters
/// in it look like the beginning of a tag or a reference.
pub proof fn law_html_text_twice(s: Seq<char>)
    requires
        !has_markup(html_text(s)),
    ensures
        html_text(html_text(s)) == html_text(s),
{
    law_html_text_shape(s);
    lemma_trim(html_text(s));
}

} // verus!
