//! The image of an article can still be found in the text that is made of its
//! HTML, and the one that a page names for itself is found in the page.

use crate::entity::law_nothing_to_decode;
use crate::html::{blanks_joined, has_markup, html_text, tidied, without_tags};
use crate::image::{accepted, first_image, picked, preview_image};
use crate::pattern::{
    address_length, attribute_end, blank_or_tab, block_end, content_after, folded, folded_char,
    html_image, image_source_at, images_shown, in_address, is_quote, is_web_address, last_quoted,
    line_break, list_item, markdown_address, markdown_image, no_quote, paragraph_end,
    pieces_replaced, preview, quoted_length, script, style_sheet, tag,
};
use crate::text::{
    is_line_of, is_space, lemma_lines, lemma_run, lemma_run_is, lemma_trim, lines,
    other_than, replaced, run, starts_with, strip_return, trim, trim_end, trim_start,
};
use vstd::prelude::*;

verus! {

/// A character that begins neither a tag, nor a reference, nor an image, and
/// ends no tag.
pub open spec fn is_plain_char(c: char) -> bool {
    c != '<' && c != '>' && c != '&' && c != '!'
}

/// A text of such characters.
pub open spec fn is_plain(s: Seq<char>) -> bool {
    forall|i: int| 0 <= i < s.len() ==> is_plain_char(#[trigger] s[i])
}

/// An address on the web that can stand in a tag and in Markdown as it is.
pub open spec fn is_plain_address(url: Seq<char>) -> bool {
    &&& (starts_with(url, "http://"@) && url.len() > 7) || (starts_with(url, "https://"@)
        && url.len() > 8)
    &&& forall|i: int| 0 <= i < url.len() ==> is_address_char(#[trigger] url[i])
}

/// A character of such an address.
pub open spec fn is_address_char(c: char) -> bool {
    !is_space(c) && !is_quote(c) && c != ')' && c != '&' && c != '<' && c != '>'
}

/// HTML with one image between other text.
pub open spec fn image_html(before: Seq<char>, url: Seq<char>, after: Seq<char>) -> Seq<char> {
    before + image_tag(url) + after
}

/// An image in HTML.
pub open spec fn image_tag(url: Seq<char>) -> Seq<char> {
    "<img src=\""@ + url + "\">"@
}

/// An image in Markdown.
pub open spec fn image_mark(url: Seq<char>) -> Seq<char> {
    "![image]("@ + url + ")"@
}

// ---------------------------------------------------------------------------
// Trimming and replacing around a piece
// ---------------------------------------------------------------------------

/// What stands before a piece is trimmed at its beginning only.
proof fn lemma_trim_start_before(a: Seq<char>, m: Seq<char>)
    requires
        m.len() > 0,
        !is_space(m[0]),
        is_plain(a),
    ensures
        trim_start(a + m) == trim_start(a) + m,
        is_plain(trim_start(a)),
    decreases a.len(),
{
    if a.len() == 0 {
        assert(a + m =~= m);
        assert(trim_start(m) == m);
        assert(trim_start(a) + m =~= m);
    } else if is_space(a[0]) {
        assert((a + m).drop_first() =~= a.drop_first() + m);
        assert forall|i: int| 0 <= i < a.drop_first().len() implies is_plain_char(
            #[trigger] a.drop_first()[i],
        ) by {
            assert(a.drop_first()[i] == a[i + 1]);
        }
        lemma_trim_start_before(a.drop_first(), m);
    }
}

/// What stands after a piece is trimmed at its end only.
proof fn lemma_trim_end_after(m: Seq<char>, b: Seq<char>)
    requires
        m.len() > 0,
        !is_space(m.last()),
        is_plain(b),
    ensures
        trim_end(m + b) == m + trim_end(b),
        is_plain(trim_end(b)),
    decreases b.len(),
{
    if b.len() == 0 {
        assert(m + b =~= m);
        assert(trim_end(m) == m);
        assert(m + trim_end(b) =~= m);
    } else if is_space(b.last()) {
        assert((m + b).drop_last() =~= m + b.drop_last());
        assert forall|i: int| 0 <= i < b.drop_last().len() implies is_plain_char(
            #[trigger] b.drop_last()[i],
        ) by {
            assert(b.drop_last()[i] == b[i]);
        }
        lemma_trim_end_after(m, b.drop_last());
    }
}

/// Trimming leaves a piece that neither begins nor ends with white space.
proof fn lemma_trim_around(a: Seq<char>, m: Seq<char>, b: Seq<char>) -> (ends: (
    Seq<char>,
    Seq<char>,
))
    requires
        m.len() > 0,
        !is_space(m[0]),
        !is_space(m.last()),
        is_plain(a),
        is_plain(b),
    ensures
        trim(a + m + b) == ends.0 + m + ends.1,
        is_plain(ends.0),
        is_plain(ends.1),
{
    let front = trim_start(a);
    assert(a + m + b =~= a + (m + b));
    lemma_trim_start_before(a, m + b);
    assert(front + (m + b) =~= (front + m) + b);
    assert((front + m).last() == m.last());
    lemma_trim_end_after(front + m, b);
    (front, trim_end(b))
}

/// A piece without any character of `part` parts the text for the replacing.
proof fn lemma_replaced_around(
    a: Seq<char>,
    m: Seq<char>,
    b: Seq<char>,
    part: Seq<char>,
    by: Seq<char>,
)
    requires
        m.len() > 0,
        part.len() > 0,
        forall|i: int| 0 <= i < m.len() ==> !part.contains(#[trigger] m[i]),
    ensures
        replaced(a + m + b, part, by) == replaced(a, part, by) + m + replaced(b, part, by),
    decreases a.len() + m.len(), a.len(),
{
    if a.len() == 0 {
        lemma_replaced_behind(m, b, part, by);
        assert(a + m + b =~= m + b);
        assert(replaced(a, part, by) + m + replaced(b, part, by) =~= m + replaced(b, part, by));
    } else {
        let all = a + m + b;
        assert(starts_with(all, part) == starts_with(a, part)) by {
            if starts_with(all, part) {
                if a.len() < part.len() {
                    assert(all.subrange(0, part.len() as int)[a.len() as int] == m[0]);
                    assert(part[a.len() as int] == m[0]);
                    assert(part.contains(m[0]));
                }
                assert(a.subrange(0, part.len() as int) =~= all.subrange(0, part.len() as int));
            }
            if starts_with(a, part) {
                assert(a.subrange(0, part.len() as int) =~= all.subrange(0, part.len() as int));
            }
        }
        if starts_with(a, part) {
            let rest = a.skip(part.len() as int);
            assert(all.skip(part.len() as int) =~= rest + m + b);
            lemma_replaced_around(rest, m, b, part, by);
            assert(by + (replaced(rest, part, by) + m + replaced(b, part, by)) =~= (by + replaced(
                rest,
                part,
                by,
            )) + m + replaced(b, part, by));
        } else {
            let rest = a.drop_first();
            assert(all.drop_first() =~= rest + m + b);
            lemma_replaced_around(rest, m, b, part, by);
            assert(seq![a[0]] + (replaced(rest, part, by) + m + replaced(b, part, by)) =~= (
            seq![a[0]] + replaced(rest, part, by)) + m + replaced(b, part, by));
        }
    }
}

/// A piece without any character of `part` stays.
proof fn lemma_replaced_behind(m: Seq<char>, b: Seq<char>, part: Seq<char>, by: Seq<char>)
    requires
        part.len() > 0,
        forall|i: int| 0 <= i < m.len() ==> !part.contains(#[trigger] m[i]),
    ensures
        replaced(m + b, part, by) == m + replaced(b, part, by),
    decreases m.len(),
{
    let all = m + b;
    if m.len() == 0 {
        assert(all =~= b);
        assert(m + replaced(b, part, by) =~= replaced(b, part, by));
    } else {
        if starts_with(all, part) {
            assert(all.subrange(0, part.len() as int)[0] == m[0]);
            assert(part.contains(m[0]));
        }
        let rest = m.drop_first();
        assert(all.drop_first() =~= rest + b);
        assert forall|i: int| 0 <= i < rest.len() implies !part.contains(#[trigger] rest[i]) by {
            assert(rest[i] == m[i + 1]);
        }
        lemma_replaced_behind(rest, b, part, by);
        assert(seq![m[0]] + (rest + replaced(b, part, by)) =~= m + replaced(b, part, by));
    }
}

/// Replacing keeps a text plain.
proof fn lemma_replaced_plain(s: Seq<char>, part: Seq<char>, by: Seq<char>)
    requires
        is_plain(s),
        is_plain(by),
    ensures
        is_plain(replaced(s, part, by)),
    decreases s.len(),
{
    if part.len() > 0 && s.len() > 0 {
        if starts_with(s, part) {
            let rest = s.skip(part.len() as int);
            assert(forall|i: int| 0 <= i < rest.len() ==> #[trigger] rest[i] == s[i + part.len()]);
            lemma_replaced_plain(rest, part, by);
        } else {
            let rest = s.drop_first();
            assert(forall|i: int| 0 <= i < rest.len() ==> #[trigger] rest[i] == s[i + 1]);
            lemma_replaced_plain(rest, part, by);
        }
    }
}

// ---------------------------------------------------------------------------
// The tags
// ---------------------------------------------------------------------------

/// Folding makes no `<`.
pub proof fn lemma_folded_first(s: Seq<char>)
    requires
        s.len() > 0,
    ensures
        folded(s)[0] == '<' <==> s[0] == '<',
{
    assert(folded(s)[0] == folded_char(s[0]));
}

/// Text without `<` in front of a text holds no image.
pub proof fn lemma_images_before(a: Seq<char>, b: Seq<char>)
    requires
        !a.contains('<'),
    ensures
        images_shown(a + b) == a + images_shown(b),
    decreases a.len(),
{
    let all = a + b;
    if a.len() == 0 {
        assert(all =~= b);
        assert(a + images_shown(b) =~= images_shown(b));
    } else {
        assert(a.contains(a[0]));
        lemma_folded_first(all);
        reveal_strlit("<img");
        if starts_with(folded(all), "<img"@) {
            assert(folded(all).subrange(0, 4)[0] == '<');
        }
        let rest = a.drop_first();
        assert(all.drop_first() =~= rest + b);
        assert(!rest.contains('<')) by {
            if rest.contains('<') {
                let i = choose|i: int| 0 <= i < rest.len() && rest[i] == '<';
                assert(a[i + 1] == '<');
            }
        }
        lemma_images_before(rest, b);
        assert(seq![a[0]] + (rest + images_shown(b)) =~= a + images_shown(b));
    }
}

/// The source of an image is its only address.
proof fn lemma_only_source(url: Seq<char>, after: Seq<char>, j: int)
    requires
        is_plain_address(url),
        is_plain(after),
        5 <= j <= url.len() + 11,
    ensures
        ({
            let s = image_tag(url) + after;
            &&& last_quoted(s, folded(s), "src="@, j, 5, true) == 5
            &&& address_length(s, folded(s), 5) == url.len()
        }),
    decreases j,
{
    let s = image_tag(url) + after;
    let t = folded(s);
    let k = url.len() as int;
    reveal_strlit("<img src=\"");
    reveal_strlit("\">");
    reveal_strlit("src=");
    assert(forall|i: int| 10 <= i < k + 10 ==> #[trigger] s[i] == url[i - 10]);
    assert(s[9] == '"' && s[k + 10] == '"' && s[k + 11] == '>');
    assert(forall|i: int| k + 12 <= i < s.len() ==> #[trigger] s[i] == after[i - k - 12]);
    assert(address_length(s, t, 5) == k) by {
        assert(forall|i: int| 0 <= i < t.len() ==> #[trigger] t[i] == folded_char(s[i]));
        assert(t.subrange(5, 9) =~= "src="@);
        let tail = s.skip(10);
        assert forall|i: int| 0 <= i < k implies no_quote()(#[trigger] tail[i]) by {
            assert(tail[i] == url[i]);
        }
        assert(tail[k] == '"');
        lemma_run_is(tail, no_quote(), k as nat);
    }
    if j == 5 {
        let tail = s.skip(k + 11);
        assert(tail[0] == '>');
        assert(tail.contains('>'));
    } else {
        let n = address_length(s, t, j);
        assert(n == 0 || !s.skip(j + 6 + n).contains('>')) by {
            if n > 0 {
                if j + 4 < k + 10 {
                    assert(s[j + 4] == url[j + 4 - 10]);
                    assert(is_address_char(url[j + 4 - 10]));
                }
                let tail = s.skip(j + 6 + n);
                if tail.contains('>') {
                    let i = choose|i: int| 0 <= i < tail.len() && tail[i] == '>';
                    assert(tail[i] == s[i + j + 6 + n]);
                    assert(is_plain_char(after[i + j + 6 + n - k - 12]));
                }
            }
        }
        lemma_only_source(url, after, j - 1);
    }
}

/// The image of a text becomes one in Markdown.
proof fn lemma_image_shown(url: Seq<char>, after: Seq<char>)
    requires
        is_plain_address(url),
        is_plain(after),
    ensures
        images_shown(image_tag(url) + after) == "\n"@ + image_mark(url) + "\n"@ + after,
{
    let s = image_tag(url) + after;
    let t = folded(s);
    let k = url.len() as int;
    reveal_strlit("<img src=\"");
    reveal_strlit("\">");
    reveal_strlit("<img");
    reveal_strlit("src=");
    assert(forall|i: int| 10 <= i < k + 10 ==> #[trigger] s[i] == url[i - 10]);
    assert(s[k + 10] == '"' && s[k + 11] == '>');
    assert(starts_with(t, "<img"@)) by {
        assert(forall|i: int| 0 <= i < t.len() ==> #[trigger] t[i] == folded_char(s[i]));
        assert(t.subrange(0, 4) =~= "<img"@);
    }
    let tail = s.skip(4);
    assert forall|i: int| 0 <= i < k + 7 implies other_than('>')(#[trigger] tail[i]) by {
        assert(tail[i] == s[i + 4]);
        if 10 <= i + 4 < k + 10 {
            assert(is_address_char(url[i + 4 - 10]));
        }
    }
    assert(tail[k + 7] == '>');
    lemma_run_is(tail, other_than('>'), (k + 7) as nat);
    lemma_only_source(url, after, k + 11);
    assert(image_source_at(s, t, true) == 5);
    let close = s.skip(k + 11);
    assert(close[0] == '>');
    lemma_run_is(close, other_than('>'), 0);
    assert(s.subrange(10, k + 10) =~= url);
    assert(s.skip(k + 12) =~= after);
    lemma_plain_holds_no(after);
    lemma_images_before(after, seq![]);
    assert(after + seq![] =~= after);
    assert(after + images_shown(seq![]) =~= after);
    reveal_strlit("\n![image](");
    reveal_strlit(")\n");
    reveal_strlit("\n");
    reveal_strlit("![image](");
    reveal_strlit(")");
    assert("\n![image]("@ + url + ")\n"@ + after =~= "\n"@ + image_mark(url) + "\n"@ + after);
}

/// A plain text holds neither `<` nor `&`.
proof fn lemma_plain_holds_no(s: Seq<char>)
    requires
        is_plain(s),
    ensures
        !s.contains('<'),
        !s.contains('&'),
{
    if s.contains('<') || s.contains('&') {
        let i = choose|i: int| 0 <= i < s.len() && (s[i] == '<' || s[i] == '&');
        assert(is_plain_char(s[i]));
    }
}

/// What begins with `<` is not found in a text without it.
pub proof fn lemma_no_pieces(s: Seq<char>, length: spec_fn(Seq<char>) -> nat, by: Seq<char>)
    requires
        !s.contains('<'),
        forall|t: Seq<char>| t.len() > 0 && t[0] != '<' ==> #[trigger] length(t) == 0,
    ensures
        pieces_replaced(s, length, by) == s,
    decreases s.len(),
{
    if s.len() > 0 {
        assert(s.contains(s[0]));
        let rest = s.drop_first();
        assert(!rest.contains('<')) by {
            if rest.contains('<') {
                let i = choose|i: int| 0 <= i < rest.len() && rest[i] == '<';
                assert(s[i + 1] == '<');
            }
        }
        assert(length(s) == 0);
        lemma_no_pieces(rest, length, by);
        assert(seq![s[0]] + rest =~= s);
    }
}

/// A text that begins with `start`, where letters are alike, begins with its
/// first character.
pub proof fn lemma_start(t: Seq<char>, start: Seq<char>)
    requires
        t.len() > 0,
        start.len() > 0,
        start[0] == '<',
        t[0] != '<',
    ensures
        !starts_with(t, start),
        !starts_with(folded(t), start),
{
    lemma_folded_first(t);
    if starts_with(t, start) {
        assert(t.subrange(0, start.len() as int)[0] == t[0]);
    }
    if starts_with(folded(t), start) {
        assert(folded(t).subrange(0, start.len() as int)[0] == folded(t)[0]);
    }
}

/// A text without `<` has no tags to take away.
pub proof fn lemma_no_tags(s: Seq<char>)
    requires
        !s.contains('<'),
    ensures
        ({
            let c = pieces_replaced(s, script(), " "@);
            let d = pieces_replaced(c, style_sheet(), " "@);
            let e = pieces_replaced(d, line_break(), "\n"@);
            let f = pieces_replaced(e, paragraph_end(), "\n\n"@);
            let g = pieces_replaced(f, block_end(), "\n"@);
            let h = pieces_replaced(g, list_item(), "- "@);
            pieces_replaced(h, tag(), " "@) == s
        }),
{
    reveal_strlit("<script");
    reveal_strlit("<style");
    reveal_strlit("<br");
    reveal_strlit("<li");
    assert forall|t: Seq<char>| t.len() > 0 && t[0] != '<' implies #[trigger] script()(t) == 0 by {
        lemma_start(t, "<script"@);
    }
    assert forall|t: Seq<char>|
        t.len() > 0 && t[0] != '<' implies #[trigger] style_sheet()(t) == 0 by {
        lemma_start(t, "<style"@);
    }
    assert forall|t: Seq<char>|
        t.len() > 0 && t[0] != '<' implies #[trigger] line_break()(t) == 0 by {
        lemma_start(t, "<br"@);
    }
    assert forall|t: Seq<char>|
        t.len() > 0 && t[0] != '<' implies #[trigger] paragraph_end()(t) == 0 by {
        lemma_start(t, seq!['<', '/']);
    }
    assert forall|t: Seq<char>|
        t.len() > 0 && t[0] != '<' implies #[trigger] block_end()(t) == 0 by {
        lemma_start(t, seq!['<', '/']);
    }
    assert forall|t: Seq<char>|
        t.len() > 0 && t[0] != '<' implies #[trigger] list_item()(t) == 0 by {
        lemma_start(t, "<li"@);
    }
    assert forall|t: Seq<char>| t.len() > 0 && t[0] != '<' implies #[trigger] tag()(t) == 0 by {
        lemma_start(t, seq!['<']);
    }
    lemma_no_pieces(s, script(), " "@);
    lemma_no_pieces(s, style_sheet(), " "@);
    lemma_no_pieces(s, line_break(), "\n"@);
    lemma_no_pieces(s, paragraph_end(), "\n\n"@);
    lemma_no_pieces(s, block_end(), "\n"@);
    lemma_no_pieces(s, list_item(), "- "@);
    lemma_no_pieces(s, tag(), " "@);
}

// ---------------------------------------------------------------------------
// Blanks and lines
// ---------------------------------------------------------------------------

/// Joining blanks does not reach over a character that is none.
proof fn lemma_blanks_before(a: Seq<char>, m: Seq<char>)
    requires
        m.len() > 0,
        !blank_or_tab()(m[0]),
        is_plain(a),
    ensures
        blanks_joined(a + m) == blanks_joined(a) + blanks_joined(m),
        is_plain(blanks_joined(a)),
    decreases a.len(),
{
    let p = blank_or_tab();
    let all = a + m;
    reveal_strlit(" ");
    if a.len() == 0 {
        assert(all =~= m);
        assert(blanks_joined(a) + blanks_joined(m) =~= blanks_joined(m));
    } else {
        let n = run(a, p);
        lemma_run(a, p);
        assert forall|i: int| 0 <= i < n implies p(#[trigger] all[i]) by {
            assert(all[i] == a[i]);
        }
        lemma_run_is(all, p, n);
        let cut = if n > 0 {
            n as int
        } else {
            1
        };
        let rest = a.skip(cut);
        assert(all.skip(cut) =~= rest + m);
        assert(n == 0 ==> a.drop_first() =~= rest && all.drop_first() =~= rest + m);
        assert(forall|i: int| 0 <= i < rest.len() ==> #[trigger] rest[i] == a[i + cut]);
        lemma_blanks_before(rest, m);
        let head = if n > 0 {
            " "@
        } else {
            seq![a[0]]
        };
        assert(blanks_joined(a) == head + blanks_joined(rest));
        assert(blanks_joined(all) == head + blanks_joined(rest + m));
        assert(head + (blanks_joined(rest) + blanks_joined(m)) =~= (head + blanks_joined(rest))
            + blanks_joined(m));
    }
}

/// A piece without blanks and tabs stays.
proof fn lemma_blanks_behind(m: Seq<char>, b: Seq<char>)
    requires
        forall|i: int| 0 <= i < m.len() ==> !blank_or_tab()(#[trigger] m[i]),
    ensures
        blanks_joined(m + b) == m + blanks_joined(b),
    decreases m.len(),
{
    let all = m + b;
    if m.len() == 0 {
        assert(all =~= b);
        assert(m + blanks_joined(b) =~= blanks_joined(b));
    } else {
        let rest = m.drop_first();
        assert(all[0] == m[0]);
        lemma_run_is(all, blank_or_tab(), 0);
        assert(all.drop_first() =~= rest + b);
        assert(forall|i: int| 0 <= i < rest.len() ==> #[trigger] rest[i] == m[i + 1]);
        lemma_blanks_behind(rest, b);
        assert(seq![m[0]] + (rest + blanks_joined(b)) =~= m + blanks_joined(b));
    }
}

/// Lines before a line feed and lines after it.
proof fn lemma_lines_both(a: Seq<char>, b: Seq<char>)
    ensures
        lines(a + seq!['\n'] + b) == lines(a + seq!['\n']) + lines(b),
    decreases a.len(),
{
    let all = a + seq!['\n'] + b;
    let first = a + seq!['\n'];
    let p = other_than('\n');
    let n = run(a, p) as int;
    lemma_run(a, p);
    assert forall|i: int| 0 <= i < n implies p(#[trigger] all[i]) by {
        assert(all[i] == a[i]);
    }
    assert forall|i: int| 0 <= i < n implies p(#[trigger] first[i]) by {
        assert(first[i] == a[i]);
    }
    assert(all[n] == '\n' && first[n] == '\n') by {
        if n < a.len() {
            assert(!p(a[n]));
        }
    }
    lemma_run_is(all, p, n as nat);
    lemma_run_is(first, p, n as nat);
    assert(all.take(n) =~= first.take(n));
    let line = seq![strip_return(first.take(n))];
    if n == a.len() {
        assert(all.skip(n + 1) =~= b);
        assert(first.skip(n + 1) =~= seq![]);
        assert(lines(seq![]) =~= seq![]);
        assert(line + lines(b) =~= (line + lines(seq![])) + lines(b));
    } else {
        let rest = a.skip(n + 1);
        assert(all.skip(n + 1) =~= rest + seq!['\n'] + b);
        assert(first.skip(n + 1) =~= rest + seq!['\n']);
        lemma_lines_both(rest, b);
        assert(line + (lines(rest + seq!['\n']) + lines(b)) =~= (line + lines(rest + seq!['\n']))
            + lines(b));
    }
}

/// Lines of plain text.
spec fn plain_lines(ls: Seq<Seq<char>>) -> bool {
    forall|i: int| 0 <= i < ls.len() ==> is_plain(#[trigger] ls[i])
}

/// The lines of a plain text are plain.
proof fn lemma_plain_lines(s: Seq<char>)
    requires
        is_plain(s),
    ensures
        plain_lines(lines(s)),
{
    lemma_lines(s);
    assert forall|i: int| 0 <= i < lines(s).len() implies is_plain(#[trigger] lines(s)[i]) by {
        let line = lines(s)[i];
        assert(is_line_of(line, s));
        let (a, b) = choose|a: int, b: int|
            0 <= a <= b <= s.len() && line == #[trigger] s.subrange(a, b);
        assert(forall|k: int| 0 <= k < line.len() ==> #[trigger] line[k] == s[k + a]);
    }
}

/// Tidied lines of plain text are plain.
proof fn lemma_tidied_plain(ls: Seq<Seq<char>>, blank: bool)
    requires
        plain_lines(ls),
    ensures
        is_plain(tidied(ls, blank)),
    decreases ls.len(),
{
    if ls.len() > 0 {
        let line = trim(ls[0]);
        let rest = ls.drop_first();
        assert(is_plain(ls[0]));
        let from = lemma_trim(ls[0]);
        assert(forall|k: int| 0 <= k < line.len() ==> #[trigger] line[k] == ls[0][k + from]);
        assert(forall|i: int| 0 <= i < rest.len() ==> #[trigger] rest[i] == ls[i + 1]);
        lemma_tidied_plain(rest, false);
        lemma_tidied_plain(rest, true);
    }
}

/// Tidied lines, one list after the other.
proof fn lemma_tidied_both(a: Seq<Seq<char>>, b: Seq<Seq<char>>, blank: bool) -> (then_blank: bool)
    ensures
        tidied(a + b, blank) == tidied(a, blank) + tidied(b, then_blank),
    decreases a.len(),
{
    let all = a + b;
    if a.len() == 0 {
        assert(all =~= b);
        assert(tidied(a, blank) + tidied(b, blank) =~= tidied(b, blank));
        blank
    } else {
        let line = trim(a[0]);
        let rest = a.drop_first();
        assert(all.drop_first() =~= rest + b);
        if line.len() > 0 {
            let then_blank = lemma_tidied_both(rest, b, false);
            assert(tidied(all, blank) =~= tidied(a, blank) + tidied(b, then_blank));
            then_blank
        } else {
            let then_blank = lemma_tidied_both(rest, b, true);
            assert(tidied(all, blank) =~= tidied(a, blank) + tidied(b, then_blank));
            then_blank
        }
    }
}

// ---------------------------------------------------------------------------
// The law
// ---------------------------------------------------------------------------

/// Two plain texts, one after the other.
proof fn lemma_plain_both(a: Seq<char>, b: Seq<char>)
    requires
        is_plain(a),
        is_plain(b),
    ensures
        is_plain(a + b),
{
    let c = a + b;
    assert forall|i: int| 0 <= i < c.len() implies is_plain_char(#[trigger] c[i]) by {
        if i < a.len() {
            assert(c[i] == a[i]);
        } else {
            assert(c[i] == b[i - a.len()]);
        }
    }
}

/// Taking the tags away leaves the image in Markdown, on a line of its own.
proof fn lemma_without_tags(a: Seq<char>, url: Seq<char>, b: Seq<char>) -> (ends: (
    Seq<char>,
    Seq<char>,
))
    requires
        is_plain(a),
        is_plain_address(url),
        is_plain(b),
    ensures
        without_tags(a + image_tag(url) + b) == ends.0 + ("\n"@ + image_mark(url) + "\n"@) + ends.1,
        is_plain(ends.0),
        is_plain(ends.1),
{
    let m = image_tag(url);
    reveal_strlit("<img src=\"");
    reveal_strlit("\">");
    reveal_strlit("\r\n");
    reveal_strlit("\r");
    reveal_strlit("\n");
    assert forall|i: int| 0 <= i < m.len() implies #[trigger] m[i] != '\r' && m[i] != '\n' by {
        if 10 <= i < url.len() + 10 {
            assert(m[i] == url[i - 10]);
            assert(is_address_char(url[i - 10]));
        }
    }
    assert forall|i: int| 0 <= i < m.len() implies !"\r\n"@.contains(#[trigger] m[i]) by {
        assert(m[i] != '\r' && m[i] != '\n');
    }
    assert forall|i: int| 0 <= i < m.len() implies !"\r"@.contains(#[trigger] m[i]) by {
        assert(m[i] != '\r');
    }
    assert(is_plain("\n"@));
    lemma_replaced_around(a, m, b, "\r\n"@, "\n"@);
    let a1 = replaced(a, "\r\n"@, "\n"@);
    let b1 = replaced(b, "\r\n"@, "\n"@);
    lemma_replaced_plain(a, "\r\n"@, "\n"@);
    lemma_replaced_plain(b, "\r\n"@, "\n"@);
    lemma_replaced_around(a1, m, b1, "\r"@, "\n"@);
    let a2 = replaced(a1, "\r"@, "\n"@);
    let b2 = replaced(b1, "\r"@, "\n"@);
    lemma_replaced_plain(a1, "\r"@, "\n"@);
    lemma_replaced_plain(b1, "\r"@, "\n"@);
    lemma_plain_holds_no(a2);
    assert(a2 + m + b2 =~= a2 + (m + b2));
    lemma_images_before(a2, m + b2);
    lemma_image_shown(url, b2);
    let mark = "\n"@ + image_mark(url) + "\n"@;
    let s = a2 + mark + b2;
    assert(images_shown(a2 + m + b2) =~= s);
    lemma_mark_holds_no(a2, url, b2);
    lemma_no_tags(s);
    (a2, b2)
}

/// An image in Markdown between plain text holds neither `<` nor `&`.
proof fn lemma_mark_holds_no(a: Seq<char>, url: Seq<char>, b: Seq<char>)
    requires
        is_plain(a),
        is_plain_address(url),
        is_plain(b),
    ensures
        !(a + ("\n"@ + image_mark(url) + "\n"@) + b).contains('<'),
        !(a + ("\n"@ + image_mark(url) + "\n"@) + b).contains('&'),
        !(a + image_mark(url) + b).contains('<'),
{
    reveal_strlit("\n");
    reveal_strlit("![image](");
    reveal_strlit(")");
    let mark = image_mark(url);
    assert forall|i: int| 0 <= i < mark.len() implies #[trigger] mark[i] != '<' && mark[i]
        != '&' by {
        if 9 <= i < url.len() + 9 {
            assert(mark[i] == url[i - 9]);
            assert(is_address_char(url[i - 9]));
        }
    }
    let row = "\n"@ + mark + "\n"@;
    assert forall|i: int| 0 <= i < row.len() implies #[trigger] row[i] != '<' && row[i] != '&' by {
        if 1 <= i < mark.len() + 1 {
            assert(row[i] == mark[i - 1]);
        }
    }
    lemma_between(a, row, b);
    lemma_between(a, mark, b);
}

/// A text without `<` and `&` between plain texts.
proof fn lemma_between(a: Seq<char>, m: Seq<char>, b: Seq<char>)
    requires
        is_plain(a),
        is_plain(b),
        forall|i: int| 0 <= i < m.len() ==> #[trigger] m[i] != '<' && m[i] != '&',
    ensures
        !(a + m + b).contains('<'),
        !(a + m + b).contains('&'),
{
    let s = a + m + b;
    assert forall|i: int| 0 <= i < s.len() implies #[trigger] s[i] != '<' && s[i] != '&' by {
        if i < a.len() {
            assert(is_plain_char(a[i]));
        } else if i < a.len() + m.len() {
            assert(s[i] == m[i - a.len()]);
        } else {
            assert(is_plain_char(b[i - a.len() - m.len()]));
        }
    }
}

/// The characters of an image in Markdown.
proof fn lemma_mark_chars(url: Seq<char>)
    requires
        is_plain_address(url),
    ensures
        image_mark(url).len() == url.len() + 10,
        image_mark(url)[0] == '!',
        image_mark(url).last() == ')',
        forall|i: int| 0 <= i < image_mark(url).len() ==> !is_space(#[trigger] image_mark(url)[i]),
{
    let mark = image_mark(url);
    reveal_strlit("![image](");
    reveal_strlit(")");
    assert forall|i: int| 0 <= i < mark.len() implies !is_space(#[trigger] mark[i]) by {
        if 9 <= i < url.len() + 9 {
            assert(mark[i] == url[i - 9]);
            assert(is_address_char(url[i - 9]));
        }
    }
}

/// Joining blanks leaves an image in Markdown that has a line of its own.
proof fn lemma_blanks_mark(a: Seq<char>, url: Seq<char>, b: Seq<char>) -> (ends: (
    Seq<char>,
    Seq<char>,
))
    requires
        is_plain(a),
        is_plain_address(url),
        is_plain(b),
    ensures
        blanks_joined(a + ("\n"@ + image_mark(url) + "\n"@) + b) == ends.0 + ("\n"@ + image_mark(url)
            + "\n"@) + ends.1,
        is_plain(ends.0),
        is_plain(ends.1),
{
    let mark = image_mark(url);
    let row = "\n"@ + mark + "\n"@;
    reveal_strlit("\n");
    lemma_mark_chars(url);
    assert forall|i: int| 0 <= i < row.len() implies !blank_or_tab()(#[trigger] row[i]) by {
        if 1 <= i < mark.len() + 1 {
            assert(row[i] == mark[i - 1]);
        }
    }
    assert(a + row + b =~= a + (row + b));
    assert((row + b)[0] == row[0]);
    lemma_blanks_before(a, row + b);
    lemma_blanks_behind(row, b);
    lemma_blanks_before(b, seq!['x']);
    let ends = (blanks_joined(a), blanks_joined(b));
    assert(ends.0 + (row + ends.1) =~= ends.0 + row + ends.1);
    ends
}

/// The lines of a text with an image in Markdown on a line of its own.
proof fn lemma_lines_mark(a: Seq<char>, url: Seq<char>, b: Seq<char>)
    requires
        is_plain_address(url),
    ensures
        lines(a + ("\n"@ + image_mark(url) + "\n"@) + b) == lines(a + seq!['\n']) + (seq![
            image_mark(url),
        ] + lines(b)),
{
    let mark = image_mark(url);
    let row = "\n"@ + mark + "\n"@;
    let line = mark + seq!['\n'];
    reveal_strlit("\n");
    lemma_mark_chars(url);
    assert(a + row + b =~= a + seq!['\n'] + (line + b));
    lemma_lines_both(a, line + b);
    lemma_lines_both(mark, b);
    assert forall|i: int| 0 <= i < mark.len() implies other_than('\n')(#[trigger] line[i]) by {
        assert(line[i] == mark[i]);
        assert(!is_space(mark[i]));
    }
    lemma_run_is(line, other_than('\n'), mark.len());
    assert(line.take(mark.len() as int) =~= mark);
    assert(line.skip(mark.len() as int + 1) =~= seq![]);
    assert(lines(seq![]) =~= seq![]);
    assert(strip_return(mark) == mark);
    assert(lines(line) =~= seq![mark]);
}

/// Tidying leaves an image in Markdown that has a line of its own.
proof fn lemma_tidied_mark(a: Seq<char>, url: Seq<char>, b: Seq<char>) -> (ends: (
    Seq<char>,
    Seq<char>,
))
    requires
        is_plain(a),
        is_plain_address(url),
        is_plain(b),
    ensures
        tidied(lines(a + ("\n"@ + image_mark(url) + "\n"@) + b), false) == ends.0 + image_mark(url)
            + ends.1,
        is_plain(ends.0),
        is_plain(ends.1),
{
    let mark = image_mark(url);
    let first = lines(a + seq!['\n']);
    let last = lines(b);
    lemma_lines_mark(a, url, b);
    let blank = lemma_tidied_both(first, seq![mark] + last, false);
    assert(tidied(seq![mark] + last, blank) == mark + seq!['\n'] + tidied(last, false)) by {
        assert(mark.len() > 0 && trim(mark) == mark) by {
            lemma_mark_chars(url);
            lemma_trim(mark);
        }
        assert((seq![mark] + last)[0] == mark);
        assert((seq![mark] + last).drop_first() =~= last);
    }
    let head = tidied(first, false);
    let tail = seq!['\n'] + tidied(last, false);
    assert(head + (mark + seq!['\n'] + tidied(last, false)) =~= head + mark + tail);
    assert(is_plain(seq!['\n']));
    lemma_plain_both(a, seq!['\n']);
    lemma_plain_lines(a + seq!['\n']);
    lemma_tidied_plain(first, false);
    lemma_plain_lines(b);
    lemma_tidied_plain(last, false);
    lemma_plain_both(seq!['\n'], tidied(last, false));
    (head, tail)
}

/// The text of HTML with one image shows that image in Markdown, between plain
/// text.
proof fn lemma_text_shows_image(a: Seq<char>, url: Seq<char>, b: Seq<char>) -> (ends: (
    Seq<char>,
    Seq<char>,
))
    requires
        is_plain(a),
        is_plain_address(url),
        is_plain(b),
    ensures
        html_text(image_html(a, url, b)) == ends.0 + image_mark(url) + ends.1,
        is_plain(ends.0),
        is_plain(ends.1),
{
    let m = image_tag(url);
    assert(m.len() > 0 && m[0] == '<' && m.last() == '>') by {
        reveal_strlit("<img src=\"");
        reveal_strlit("\">");
    }
    let (a1, b1) = lemma_trim_around(a, m, b);
    let t = a1 + m + b1;
    assert(t[a1.len() as int] == '<');
    assert(has_markup(t));
    let (a2, b2) = lemma_without_tags(a1, url, b1);
    lemma_mark_holds_no(a2, url, b2);
    law_nothing_to_decode(a2 + ("\n"@ + image_mark(url) + "\n"@) + b2);
    let (a3, b3) = lemma_blanks_mark(a2, url, b2);
    let (head, tail) = lemma_tidied_mark(a3, url, b3);
    lemma_mark_chars(url);
    lemma_trim_around(head, image_mark(url), tail)
}

/// A text without `<` holds no image in HTML.
proof fn lemma_no_html_image(s: Seq<char>, i: int)
    requires
        !s.contains('<'),
        0 <= i,
    ensures
        html_image(s, i) is None,
    decreases s.len() - i,
{
    if i < s.len() {
        let r = s.skip(i);
        reveal_strlit("<img");
        if starts_with(r, "<img"@) {
            assert(r.subrange(0, 4)[0] == '<');
            assert(s[i] == '<');
        }
        lemma_no_html_image(s, i + 1);
    }
}

/// An image in Markdown after plain text is the first one.
proof fn lemma_first_mark(a: Seq<char>, url: Seq<char>, b: Seq<char>, i: int)
    requires
        is_plain(a),
        is_plain_address(url),
        0 <= i <= a.len(),
    ensures
        markdown_image(a + image_mark(url) + b, i) == Some((a.len() as int, url)),
    decreases a.len() - i,
{
    let s = a + image_mark(url) + b;
    let r = s.skip(i);
    reveal_strlit("![");
    reveal_strlit("](");
    reveal_strlit("![image](");
    reveal_strlit(")");
    if i < a.len() {
        assert(is_plain_char(a[i]));
        if starts_with(r, "!["@) {
            assert(r.subrange(0, 2)[0] == s[i]);
        }
        lemma_first_mark(a, url, b, i + 1);
    } else {
        let k = url.len() as int;
        assert(r =~= image_mark(url) + b);
        assert(r.subrange(0, 2) =~= "!["@);
        let inner = r.skip(2);
        assert(inner[5] == ']');
        lemma_run_is(inner, other_than(']'), 5);
        assert(r.subrange(7, 9) =~= "]("@);
        let t = r.skip(9);
        assert forall|x: int| 0 <= x < k implies in_address()(#[trigger] t[x]) by {
            assert(t[x] == url[x]);
            assert(is_address_char(url[x]));
        }
        assert(t[k] == ')');
        lemma_run_is(t, in_address(), k as nat);
        assert(t.take(k) =~= url);
        assert(markdown_address(r) == Some(url));
    }
}

/// An image in Markdown between plain text is the first image.
proof fn lemma_mark_found(a: Seq<char>, url: Seq<char>, b: Seq<char>)
    requires
        is_plain(a),
        is_plain_address(url),
        is_plain(b),
    ensures
        first_image(a + image_mark(url) + b) == Some(url),
{
    let s = a + image_mark(url) + b;
    assert(html_image(s, 0) is None) by {
        lemma_mark_holds_no(a, url, b);
        lemma_no_html_image(s, 0);
    }
    assert(markdown_image(s, 0) == Some((a.len() as int, url))) by {
        lemma_first_mark(a, url, b, 0);
    }
    assert(trim(url) == url) by {
        assert(is_address_char(url[0]) && is_address_char(url[url.len() - 1]));
        lemma_trim(url);
    }
    assert(accepted(Some(url)) == Some(url)) by {
        assert(is_web_address(url));
    }
    assert(picked(None, Some((a.len() as int, url))) == Some(url));
}

/// Making text of HTML keeps its image within reach: where one image stands
/// between text without `<`, `>`, `&` and `!`, its address is what is found in
/// the text that is made of it.
pub proof fn law_image_stays_reachable(before: Seq<char>, url: Seq<char>, after: Seq<char>)
    requires
        is_plain(before),
        is_plain_address(url),
        is_plain(after),
    ensures
        first_image(html_text(image_html(before, url, after))) == Some(url),
{
    let (a, b) = lemma_text_shows_image(before, url, after);
    lemma_mark_found(a, url, b);
}

// ---------------------------------------------------------------------------
// The preview image of a page
// ---------------------------------------------------------------------------

/// The tag that names the preview image of a page.
pub open spec fn preview_tag(url: Seq<char>) -> Seq<char> {
    "<meta property=\"og:image\" content=\""@ + url + "\">"@
}

/// The characters of that tag, with plain text behind it.
proof fn lemma_preview_chars(url: Seq<char>, after: Seq<char>)
    requires
        is_plain_address(url),
        is_plain(after),
    ensures
        ({
            let s = preview_tag(url) + after;
            let k = url.len() as int;
            &&& s.len() == 37 + k + after.len()
            &&& s.take(35) == "<meta property=\"og:image\" content=\""@
            &&& s[0] == '<' && s[15] == '"' && s[24] == '"' && s[25] == ' ' && s[34] == '"'
            &&& s[35 + k] == '"' && s[36 + k] == '>'
            &&& forall|i: int|
                0 <= i < 36 + k && i != 15 && i != 24 && i != 34 && i != 35 + k ==> !is_quote(
                    #[trigger] s[i],
                )
            &&& forall|i: int| 0 <= i < s.len() && i != 36 + k ==> #[trigger] s[i] != '>'
            &&& s.subrange(35, 35 + k) == url
        }),
{
    let s = preview_tag(url) + after;
    let k = url.len() as int;
    reveal_strlit("<meta property=\"og:image\" content=\"");
    reveal_strlit("\">");
    assert(s.take(35) =~= "<meta property=\"og:image\" content=\""@);
    assert(s.subrange(35, 35 + k) =~= url);
    assert forall|i: int| 35 <= i < 35 + k implies !is_quote(#[trigger] s[i]) && s[i] != '>' by {
        assert(s[i] == url[i - 35]);
        assert(is_address_char(url[i - 35]));
    }
    assert forall|i: int| 37 + k <= i < s.len() implies #[trigger] s[i] != '>' by {
        assert(s[i] == after[i - 37 - k]);
        assert(is_plain_char(after[i - 37 - k]));
    }
    let start = "<meta property=\"og:image\" content=\""@;
    assert(forall|i: int| 0 <= i < 35 ==> #[trigger] s[i] == start[i]);
}

/// No `content=` that stands behind the tag is closed.
proof fn lemma_none_behind(url: Seq<char>, after: Seq<char>, j: int, low: int)
    requires
        is_plain_address(url),
        is_plain(after),
        low >= 37 + url.len(),
    ensures
        ({
            let s = preview_tag(url) + after;
            last_quoted(s, folded(s), "content="@, j, low, true) == 0
        }),
    decreases j - low + 1,
{
    let s = preview_tag(url) + after;
    let t = folded(s);
    if j >= low {
        let n = quoted_length(s, t, "content="@, j);
        lemma_preview_chars(url, after);
        assert(n > 0 ==> !s.skip(j + "content="@.len() + 2 + n).contains('>')) by {
            let from = j + "content="@.len() + 2 + n;
            let tail = s.skip(from);
            if n > 0 && tail.contains('>') {
                let i = choose|i: int| 0 <= i < tail.len() && tail[i] == '>';
                assert(tail[i] == s[i + from]);
            }
        }
        lemma_none_behind(url, after, j - 1, low);
    }
}

/// The content of the tag is the only one that is closed.
proof fn lemma_only_content(url: Seq<char>, after: Seq<char>, j: int)
    requires
        is_plain_address(url),
        is_plain(after),
        26 <= j <= 36 + url.len(),
    ensures
        ({
            let s = preview_tag(url) + after;
            &&& last_quoted(s, folded(s), "content="@, j, 26, true) == 26
            &&& quoted_length(s, folded(s), "content="@, 26) == url.len()
        }),
    decreases j,
{
    let s = preview_tag(url) + after;
    let t = folded(s);
    let k = url.len() as int;
    lemma_preview_chars(url, after);
    reveal_strlit("content=");
    assert(quoted_length(s, t, "content="@, 26) == k) by {
        reveal_strlit("<meta property=\"og:image\" content=\"");
        assert(forall|i: int| 0 <= i < t.len() ==> #[trigger] t[i] == folded_char(s[i]));
        assert(forall|i: int| 0 <= i < 35 ==> #[trigger] s[i] == s.take(35)[i]);
        assert(t.subrange(26, 34) =~= "content="@);
        let tail = s.skip(35);
        assert forall|i: int| 0 <= i < k implies no_quote()(#[trigger] tail[i]) by {
            assert(tail[i] == s[i + 35]);
        }
        assert(tail[k] == s[35 + k]);
        lemma_run_is(tail, no_quote(), k as nat);
    }
    if j == 26 {
        let tail = s.skip(36 + k);
        assert(tail[0] == '>');
        assert(tail.contains('>'));
    } else {
        let n = quoted_length(s, t, "content="@, j);
        assert(n > 0 ==> !s.skip(j + 8 + 2 + n).contains('>')) by {
            let tail = s.skip(j + 8 + 2 + n);
            if n > 0 && tail.contains('>') {
                let i = choose|i: int| 0 <= i < tail.len() && tail[i] == '>';
                assert(tail[i] == s[i + j + 8 + 2 + n]);
                assert(is_quote(s[j + 8]));
            }
        }
        lemma_only_content(url, after, j - 1);
    }
}

/// The attribute of the tag is the only one with a content behind it.
proof fn lemma_only_attribute(url: Seq<char>, after: Seq<char>, j: int)
    requires
        is_plain_address(url),
        is_plain(after),
        6 <= j <= 36 + url.len(),
    ensures
        ({
            let s = preview_tag(url) + after;
            content_after(s, folded(s), "property="@, "og:image"@, j) == 26
        }),
    decreases j,
{
    let s = preview_tag(url) + after;
    let t = folded(s);
    let k = url.len() as int;
    lemma_preview_chars(url, after);
    reveal_strlit("property=");
    reveal_strlit("og:image");
    assert(forall|i: int| 0 <= i < t.len() ==> #[trigger] t[i] == folded_char(s[i]));
    let end = attribute_end(s, t, "property="@, "og:image"@, j);
    if j == 6 {
        assert(end == 25) by {
            reveal_strlit("<meta property=\"og:image\" content=\"");
            assert(forall|i: int| 0 <= i < 35 ==> #[trigger] s[i] == s.take(35)[i]);
            assert(t.subrange(6, 15) =~= "property="@);
            assert(t.subrange(16, 24) =~= "og:image"@);
        }
        let tail = s.skip(25);
        assert forall|i: int| 0 <= i < k + 11 implies other_than('>')(#[trigger] tail[i]) by {
            assert(tail[i] == s[i + 25]);
        }
        assert(tail[k + 11] == s[36 + k]);
        lemma_run_is(tail, other_than('>'), (k + 11) as nat);
        lemma_only_content(url, after, 36 + k);
    } else {
        if end > 0 {
            assert(t.subrange(j, j + 9)[0] == 'p');
            assert(t[j] == 'p');
            assert(t.subrange(j + 10, j + 18)[0] == 'o');
            assert(t[j + 10] == 'o');
            assert(is_quote(s[j + 9]));
            assert(j + 9 >= 37 + k);
            lemma_none_behind(
                url,
                after,
                end + run(s.skip(end), other_than('>')),
                end + 1,
            );
        }
        lemma_only_attribute(url, after, j - 1);
    }
}

/// The tag is the first one that names a preview image.
proof fn lemma_first_preview(before: Seq<char>, url: Seq<char>, after: Seq<char>, i: int)
    requires
        is_plain(before),
        is_plain_address(url),
        is_plain(after),
        0 <= i <= before.len(),
    ensures
        preview(before + preview_tag(url) + after, i, "property="@, "og:image"@, true) == Some(
            (before.len() as int, url),
        ),
    decreases before.len() - i,
{
    let page = before + preview_tag(url) + after;
    let r = page.skip(i);
    reveal_strlit("<meta");
    lemma_preview_chars(url, after);
    if i < before.len() {
        assert(r[0] == before[i]);
        assert(is_plain_char(before[i]));
        lemma_start(r, "<meta"@);
        lemma_first_preview(before, url, after, i + 1);
    } else {
        let k = url.len() as int;
        let s = preview_tag(url) + after;
        let t = folded(s);
        assert(r =~= s);
        assert(starts_with(t, "<meta"@)) by {
            reveal_strlit("<meta property=\"og:image\" content=\"");
            assert(forall|x: int| 0 <= x < t.len() ==> #[trigger] t[x] == folded_char(s[x]));
            assert(forall|x: int| 0 <= x < 35 ==> #[trigger] s[x] == s.take(35)[x]);
            assert(t.subrange(0, 5) =~= "<meta"@);
        }
        let tail = s.skip(5);
        assert forall|x: int| 0 <= x < k + 31 implies other_than('>')(#[trigger] tail[x]) by {
            assert(tail[x] == s[x + 5]);
        }
        assert(tail[k + 31] == s[36 + k]);
        lemma_run_is(tail, other_than('>'), (k + 31) as nat);
        lemma_only_attribute(url, after, 36 + k);
        lemma_only_content(url, after, 26);
    }
}

/// The preview image that a page names is found: where one tag names it between
/// text without `<`, `>`, `&` and `!`, its address is what is found in the page.
pub proof fn law_preview_found(before: Seq<char>, url: Seq<char>, after: Seq<char>)
    requires
        is_plain(before),
        is_plain_address(url),
        is_plain(after),
    ensures
        preview_image(before + preview_tag(url) + after) == Some(url),
{
    lemma_first_preview(before, url, after, 0);
    assert(trim(url) == url) by {
        assert(is_address_char(url[0]) && is_address_char(url[url.len() - 1]));
        lemma_trim(url);
    }
    assert(accepted(Some(url)) == Some(url)) by {
        assert(is_web_address(url));
    }
}

} // verus!
